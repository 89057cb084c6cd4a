//! What is read of a monitor is what the compositor reports of it.
use vstd::prelude::*;

use crate::hyprland::monitor;
use crate::hyprland::monitor::{MonitorState, RawHyprMonitor};
use crate::profile::store::{ProfileMonitorView, ProfileOutputView, ProfileView};
use crate::text;

verus! {

// ---------------------------------------------------------------------------
// Reading
// ---------------------------------------------------------------------------
/// As many monitors are read as are reported, in the same order, and each has the
/// name, description, make, model, serial, place, size, rate, scale, turn, modes and
/// physical size that is reported of it. It is on exactly where it is not reported as
/// disabled.
pub proof fn law_monitors_are_read_as_reported(raw: Seq<RawHyprMonitor>, i: int)
    requires
        0 <= i < raw.len(),
    ensures
        monitor::normalized(raw).len() == raw.len(),
        ({
            let read = monitor::normalized(raw)[i];
            &&& read.output_name == raw[i].name@
            &&& read.description == raw[i].description@
            &&& read.make == raw[i].make@
            &&& read.model == raw[i].model@
            &&& read.serial == raw[i].serial@
            &&& read.enabled == !raw[i].disabled
            &&& read.x == raw[i].x
            &&& read.y == raw[i].y
            &&& read.width == raw[i].width
            &&& read.height == raw[i].height
            &&& read.refresh_rate == raw[i].refresh_rate.value()
            &&& read.scale == raw[i].scale.value()
            &&& read.transform == raw[i].transform
            &&& read.available_modes.len() == raw[i].available_modes@.len()
            &&& forall|k: int|
                0 <= k < read.available_modes.len() ==> #[trigger] read.available_modes[k]
                    == raw[i].available_modes@[k]@
            &&& read.physical_width == raw[i].physical_width
            &&& read.physical_height == raw[i].physical_height
        }),
{
    let all = raw.map_values(|monitor: RawHyprMonitor| MonitorState::of_raw(monitor));
    monitor::law_distinct_identities(all);
    assert(all[i] == MonitorState::of_raw(raw[i]));
}

/// Two monitor states that hold the same are alike in every field.
pub proof fn law_states_hold_every_field(a: MonitorState, b: MonitorState)
    requires
        a@ == b@,
    ensures
        a.output_name@ == b.output_name@,
        a.id@ == b.id@,
        a.description@ == b.description@,
        a.make@ == b.make@,
        a.model@ == b.model@,
        a.serial@ == b.serial@,
        a.enabled == b.enabled,
        a.x == b.x && a.y == b.y,
        a.width == b.width && a.height == b.height,
        a.refresh_rate.value() == b.refresh_rate.value(),
        a.scale.value() == b.scale.value(),
        a.transform == b.transform,
        a.available_modes@.len() == b.available_modes@.len(),
        a.physical_width == b.physical_width && a.physical_height == b.physical_height,
{
    assert(text::texts(a.available_modes@).len() == text::texts(b.available_modes@).len());
}

/// A layout that is saved as it is reported has an output for every monitor that is
/// reported, on or off, in the place, at the scale and in the turn that is reported,
/// for the identity that the monitor was read with; and it remembers the monitor
/// itself.
pub proof fn law_layouts_are_saved_as_reported(
    raw: Seq<RawHyprMonitor>,
    name: Seq<char>,
    created_at: Seq<char>,
    updated_at: Seq<char>,
    i: int,
)
    requires
        0 <= i < raw.len(),
    ensures
        ({
            let read = monitor::normalized(raw);
            let saved = ProfileView::of_monitors(name, read, created_at, updated_at);
            let output = saved.outputs[i];
            let known = saved.monitors[i];
            &&& saved.name == name
            &&& saved.created_at == created_at
            &&& saved.updated_at == updated_at
            &&& saved.outputs.len() == raw.len()
            &&& saved.monitors.len() == raw.len()
            &&& output.monitor_id == read[i].id
            &&& output.enabled == !raw[i].disabled
            &&& output.x == raw[i].x
            &&& output.y == raw[i].y
            &&& output.scale == raw[i].scale.value()
            &&& output.transform == raw[i].transform
            &&& known.id == read[i].id
            &&& known.name_hint == raw[i].name@
            &&& known.description == raw[i].description@
            &&& known.make == raw[i].make@
            &&& known.model == raw[i].model@
            &&& known.serial == raw[i].serial@
            &&& known.physical_width == raw[i].physical_width
            &&& known.physical_height == raw[i].physical_height
        }),
{
    law_monitors_are_read_as_reported(raw, i);
    let read = monitor::normalized(raw);
    let saved = ProfileView::of_monitors(name, read, created_at, updated_at);
    assert(saved.outputs[i] == ProfileOutputView::of(read[i]));
    assert(saved.monitors[i] == ProfileMonitorView::of(read[i]));
}

// ---------------------------------------------------------------------------
// Identities
// ---------------------------------------------------------------------------
/// Where make and model are known, the identity of a monitor is made of them and the
/// serial alone: it is the same on every connector. Without them it is made of the
/// description, where that is known, on every connector too.
pub proof fn law_identities_outlast_connectors(
    make: Seq<char>,
    model: Seq<char>,
    serial: Seq<char>,
    description: Seq<char>,
    output_name: Seq<char>,
    other_description: Seq<char>,
    other_output: Seq<char>,
)
    ensures
        ({
            let physical = monitor::informative(text::trimmed(make)) && monitor::informative(
                text::trimmed(model),
            );
            let id = monitor::stable_id(make, model, serial, description, output_name);
            &&& physical ==> id == monitor::stable_id(
                make,
                model,
                serial,
                other_description,
                other_output,
            )
            &&& monitor::informative(text::trimmed(description)) ==> id == monitor::stable_id(
                make,
                model,
                serial,
                description,
                other_output,
            )
        }),
{
}

/// A slug holds no colon.
proof fn lemma_slug_without_colon(s: Seq<char>)
    ensures
        !monitor::slug(s).contains(':'),
{
    monitor::law_slug_form(s);
    let t = monitor::slug(s);
    assert forall|i: int| 0 <= i < t.len() implies t[i] != ':' by {
        assert(monitor::alphanumeric(t[i]) || t[i] == '-');
    }
}

/// Three parts without colons that are joined by colons come apart again.
proof fn lemma_joined_parts(
    a: Seq<char>,
    b: Seq<char>,
    c: Seq<char>,
    d: Seq<char>,
    e: Seq<char>,
    f: Seq<char>,
)
    requires
        !a.contains(':'),
        !b.contains(':'),
        !d.contains(':'),
        !e.contains(':'),
        a + ":"@ + b + ":"@ + c == d + ":"@ + e + ":"@ + f,
    ensures
        a == d,
        b == e,
        c == f,
{
    reveal_strlit(":");
    assert(":"@ =~= seq![':']);
    let left = b + seq![':'] + c;
    let right = e + seq![':'] + f;
    assert(a + ":"@ + b + ":"@ + c =~= a + seq![':'] + left);
    assert(d + ":"@ + e + ":"@ + f =~= d + seq![':'] + right);
    text::law_split_at_first(a, ':', left);
    text::law_split_at_first(d, ':', right);
    text::law_split_at_first(b, ':', c);
    text::law_split_at_first(e, ':', f);
}

/// Two monitors of known make, model and serial have one identity exactly where
/// these fields have the same letters and digits; make, model and serial all count.
pub proof fn law_identities_tell_monitors_apart(
    make: Seq<char>,
    model: Seq<char>,
    serial: Seq<char>,
    description: Seq<char>,
    output_name: Seq<char>,
    other_make: Seq<char>,
    other_model: Seq<char>,
    other_serial: Seq<char>,
    other_description: Seq<char>,
    other_output: Seq<char>,
)
    requires
        monitor::informative(text::trimmed(make)),
        monitor::informative(text::trimmed(model)),
        monitor::informative(text::trimmed(serial)),
        monitor::informative(text::trimmed(other_make)),
        monitor::informative(text::trimmed(other_model)),
        monitor::informative(text::trimmed(other_serial)),
    ensures
        monitor::stable_id(make, model, serial, description, output_name) == monitor::stable_id(
            other_make,
            other_model,
            other_serial,
            other_description,
            other_output,
        ) <==> monitor::slug(text::trimmed(make)) == monitor::slug(text::trimmed(other_make))
            && monitor::slug(text::trimmed(model)) == monitor::slug(text::trimmed(other_model))
            && monitor::slug(text::trimmed(serial)) == monitor::slug(text::trimmed(other_serial)),
{
    let (a, b, c) = (
        monitor::slug(text::trimmed(make)),
        monitor::slug(text::trimmed(model)),
        monitor::slug(text::trimmed(serial)),
    );
    let (d, e, f) = (
        monitor::slug(text::trimmed(other_make)),
        monitor::slug(text::trimmed(other_model)),
        monitor::slug(text::trimmed(other_serial)),
    );
    lemma_slug_without_colon(text::trimmed(make));
    lemma_slug_without_colon(text::trimmed(model));
    lemma_slug_without_colon(text::trimmed(other_make));
    lemma_slug_without_colon(text::trimmed(other_model));
    if a + ":"@ + b + ":"@ + c == d + ":"@ + e + ":"@ + f {
        lemma_joined_parts(a, b, c, d, e, f);
    }
}

/// The identity that a monitor's own fields give it shows what it was made of: make,
/// model and serial; make and model; the description; or else the connector.
pub proof fn law_identities_show_their_origin(
    make: Seq<char>,
    model: Seq<char>,
    serial: Seq<char>,
    description: Seq<char>,
    output_name: Seq<char>,
)
    ensures
        ({
            let id = monitor::stable_id(make, model, serial, description, output_name);
            let origin = monitor::provenance(id, make, model, serial, description);
            let physical = monitor::informative(text::trimmed(make)) && monitor::informative(
                text::trimmed(model),
            );
            let numbered = monitor::informative(text::trimmed(serial));
            let described = monitor::informative(text::trimmed(description));
            &&& origin is PhysicalSerial <==> physical && numbered
            &&& origin is PhysicalNoSerial <==> physical && !numbered
            &&& origin is Description <==> !physical && described
            &&& origin is ConnectorFallback <==> !physical && !described
        }),
{
    let id = monitor::stable_id(make, model, serial, description, output_name);
    reveal_strlit("output:");
    assert(("output:"@ + monitor::slug(output_name)).take(7) =~= "output:"@);
}

/// An identity that is not what the fields beside it give is never taken for a
/// physical one, nor for one of the description.
pub proof fn law_foreign_identities_are_not_trusted(
    id: Seq<char>,
    make: Seq<char>,
    model: Seq<char>,
    serial: Seq<char>,
    description: Seq<char>,
    output_name: Seq<char>,
)
    requires
        id != monitor::stable_id(make, model, serial, description, output_name),
        monitor::informative(text::trimmed(description)) || (monitor::informative(
            text::trimmed(make),
        ) && monitor::informative(text::trimmed(model))),
    ensures
        ({
            let origin = monitor::provenance(id, make, model, serial, description);
            origin is ConnectorFallback || origin is ConnectorDisambiguated || origin
                is LegacyUntrusted
        }),
{
}

/// Where two reported monitors have one identity, both are read with identities that
/// their connectors were added to, and that are not trusted.
pub proof fn law_repeated_identities_are_not_trusted(raw: Seq<RawHyprMonitor>, i: int, j: int)
    requires
        0 <= i < raw.len(),
        0 <= j < raw.len(),
        i != j,
        monitor::stable_id(
            raw[i].make@,
            raw[i].model@,
            raw[i].serial@,
            raw[i].description@,
            raw[i].name@,
        ) == monitor::stable_id(
            raw[j].make@,
            raw[j].model@,
            raw[j].serial@,
            raw[j].description@,
            raw[j].name@,
        ),
    ensures
        monitor::normalized(raw)[i].provenance() is ConnectorFallback || monitor::normalized(
            raw,
        )[i].provenance() is ConnectorDisambiguated,
{
    let all = raw.map_values(|monitor: RawHyprMonitor| MonitorState::of_raw(monitor));
    let ids = monitor::ids_of(all);
    let outputs = monitor::outputs_of(all);
    assert(all[i] == MonitorState::of_raw(raw[i]) && all[j] == MonitorState::of_raw(raw[j]));
    assert(ids[i] == all[i].id && ids[j] == all[j].id);
    monitor::lemma_occurrences(ids, i);
    monitor::lemma_distinct_ids_len(ids, outputs, raw.len() as int);
    monitor::lemma_distinct_ids_len(ids, outputs, i);
    let base = ids[i] + ":output:"@ + monitor::slug(outputs[i]);
    let settled = monitor::distinct_ids(ids, outputs, i);
    let used = monitor::singles(ids, ids.len() as int) + settled;
    let id = monitor::distinct_ids(ids, outputs, i + 1)[i];
    assert(id == text::first_free(base, used));
    assert(monitor::normalized(raw)[i].id == id);
    reveal_strlit(":output:");
    reveal_strlit("output:");
    let at = ids[i].len() as int;
    assert(id.subrange(at, at + 8) =~= ":output:"@);
    assert(text::holds(id, ":output:"@));
    assert(id.len() > ids[i].len());
    law_identities_outlast_connectors(
        raw[i].make@,
        raw[i].model@,
        raw[i].serial@,
        raw[i].description@,
        raw[i].name@,
        raw[i].description@,
        seq![],
    );
}

/// An identity that no other reported monitor has is read as it is.
pub proof fn law_single_identities_stay(raw: Seq<RawHyprMonitor>, i: int)
    requires
        0 <= i < raw.len(),
        forall|j: int|
            0 <= j < raw.len() && j != i ==> monitor::stable_id(
                (#[trigger] raw[j]).make@,
                raw[j].model@,
                raw[j].serial@,
                raw[j].description@,
                raw[j].name@,
            ) != monitor::stable_id(
                raw[i].make@,
                raw[i].model@,
                raw[i].serial@,
                raw[i].description@,
                raw[i].name@,
            ),
    ensures
        monitor::normalized(raw)[i].id == monitor::stable_id(
            raw[i].make@,
            raw[i].model@,
            raw[i].serial@,
            raw[i].description@,
            raw[i].name@,
        ),
{
    let all = raw.map_values(|monitor: RawHyprMonitor| MonitorState::of_raw(monitor));
    let ids = monitor::ids_of(all);
    assert(all[i] == MonitorState::of_raw(raw[i]));
    assert forall|j: int| 0 <= j < ids.len() && j != i implies ids[j] != ids[i] by {
        assert(all[j] == MonitorState::of_raw(raw[j]));
    }
    lemma_occurs_once(ids, i);
    monitor::law_distinct_identities(all);
}

proof fn lemma_occurs_not(ids: Seq<Seq<char>>, id: Seq<char>)
    requires
        forall|j: int| 0 <= j < ids.len() ==> #[trigger] ids[j] != id,
    ensures
        monitor::occurrences(ids, id) == 0,
    decreases ids.len(),
{
    if ids.len() > 0 {
        lemma_occurs_not(ids.drop_last(), id);
    }
}

proof fn lemma_occurs_once(ids: Seq<Seq<char>>, i: int)
    requires
        0 <= i < ids.len(),
        forall|j: int| 0 <= j < ids.len() && j != i ==> #[trigger] ids[j] != ids[i],
    ensures
        monitor::occurrences(ids, ids[i]) == 1,
    decreases ids.len(),
{
    let front = ids.drop_last();
    if i == ids.len() - 1 {
        lemma_occurs_not(front, ids[i]);
    } else {
        assert(front[i] == ids[i]);
        lemma_occurs_once(front, i);
    }
}

// ---------------------------------------------------------------------------
// Slugs
// ---------------------------------------------------------------------------
proof fn lemma_lowercased_alike(s: Seq<char>, t: Seq<char>)
    requires
        s.len() == t.len(),
        forall|i: int|
            0 <= i < s.len() ==> #[trigger] s[i] == #[trigger] t[i] || ('A' <= s[i] <= 'Z' && t[i]
                as u32 == s[i] as u32 + 32),
    ensures
        monitor::lowercased(s) == monitor::lowercased(t),
    decreases s.len(),
{
    if s.len() > 0 {
        let last = s.len() - 1;
        assert(s[last] == t[last] || ('A' <= s[last] <= 'Z' && t[last] as u32 == s[last] as u32
            + 32));
        lemma_lowercased_alike(s.drop_last(), t.drop_last());
    }
}

/// Capitals make no difference to a slug.
pub proof fn law_slugs_ignore_capitals(s: Seq<char>, t: Seq<char>)
    requires
        s.len() == t.len(),
        forall|i: int|
            0 <= i < s.len() ==> #[trigger] s[i] == #[trigger] t[i] || ('A' <= s[i] <= 'Z' && t[i]
                as u32 == s[i] as u32 + 32),
    ensures
        monitor::slug(s) == monitor::slug(t),
        monitor::slug(s) != "unknown"@ ==> monitor::slug(t) != "unknown"@,
{
    lemma_lowercased_alike(s, t);
}

proof fn lemma_lowercased_joined(s: Seq<char>, t: Seq<char>)
    ensures
        monitor::lowercased(s + t) == monitor::lowercased(s) + monitor::lowercased(t),
    decreases t.len(),
{
    if t.len() == 0 {
        assert(s + t =~= s);
        assert(monitor::lowercased(s) + monitor::lowercased(t) =~= monitor::lowercased(s));
    } else {
        lemma_lowercased_joined(s, t.drop_last());
        assert((s + t).drop_last() =~= s + t.drop_last());
        assert(monitor::lowercased(s) + (monitor::lowercased(t.drop_last()) + monitor::lower(
            t.last(),
        )) =~= monitor::lowercased(s) + monitor::lowercased(t.drop_last()) + monitor::lower(
            t.last(),
        ));
    }
}

/// What stands between letters and digits, if it is ASCII, is one dash in a slug.
proof fn lemma_dashed_between(front: Seq<char>, gap: Seq<char>)
    requires
        monitor::dashed(front).len() > 0,
        monitor::dashed(front).last() != '-',
        gap.len() > 0,
        forall|i: int| 0 <= i < gap.len() ==> !monitor::alphanumeric(#[trigger] gap[i]),
    ensures
        monitor::dashed(front + gap) == monitor::dashed(front).push('-'),
    decreases gap.len(),
{
    let less = gap.drop_last();
    assert((front + gap).drop_last() =~= front + less);
    assert((front + gap).last() == gap.last());
    if gap.len() == 1 {
        assert(front + less =~= front);
    } else {
        lemma_dashed_between(front, less);
    }
}

proof fn lemma_dashed_behind(front: Seq<char>, rest: Seq<char>)
    requires
        rest.len() > 0,
        forall|i: int| 0 <= i < rest.len() ==> monitor::alphanumeric(#[trigger] rest[i]),
    ensures
        monitor::dashed(front + rest) == monitor::dashed(front) + rest,
    decreases rest.len(),
{
    let less = rest.drop_last();
    assert((front + rest).drop_last() =~= front + less);
    assert((front + rest).last() == rest.last());
    if rest.len() == 1 {
        assert(front + less =~= front);
        assert(monitor::dashed(front).push(rest.last()) =~= monitor::dashed(front) + rest);
    } else {
        lemma_dashed_behind(front, less);
        assert((monitor::dashed(front) + less).push(rest.last()) =~= monitor::dashed(front)
            + rest);
    }
}

/// Two words of small letters and digits with other ASCII characters between them have
/// a slug of the two with one dash between.
pub proof fn law_slugs_join_words(before: Seq<char>, gap: Seq<char>, after: Seq<char>)
    requires
        before.len() > 0,
        after.len() > 0,
        gap.len() > 0,
        forall|i: int|
            0 <= i < before.len() ==> 'a' <= #[trigger] before[i] <= 'z' || '0' <= before[i]
                <= '9',
        forall|i: int|
            0 <= i < after.len() ==> 'a' <= #[trigger] after[i] <= 'z' || '0' <= after[i] <= '9',
        forall|i: int|
            0 <= i < gap.len() ==> (#[trigger] gap[i]) as u32 <= 0x7f && !('a' <= gap[i] <= 'z')
                && !('A' <= gap[i] <= 'Z') && !('0' <= gap[i] <= '9'),
    ensures
        monitor::slug(before + gap + after) == before + seq!['-'] + after,
{
    let s = before + gap + after;
    assert forall|i: int| 0 <= i < s.len() implies (#[trigger] s[i]) as u32 <= 0x7f && !('A' <= s[i]
        <= 'Z') by {
        if i < before.len() {
            assert(s[i] == before[i]);
        } else if i < before.len() + gap.len() {
            assert(s[i] == gap[i - before.len()]);
        } else {
            assert(s[i] == after[i - before.len() - gap.len()]);
        }
    }
    monitor::lemma_lowercased_small(s);
    assert forall|i: int| 0 <= i < before.len() implies monitor::alphanumeric(
        #[trigger] before[i],
    ) by {}
    assert forall|i: int| 0 <= i < after.len() implies monitor::alphanumeric(
        #[trigger] after[i],
    ) by {}
    lemma_dashed_behind(seq![], before);
    assert(Seq::<char>::empty() + before =~= before);
    assert(monitor::dashed(before) =~= before);
    lemma_dashed_between(before, gap);
    lemma_dashed_behind(before + gap, after);
    assert(before.push('-') + after =~= before + seq!['-'] + after);
}

/// `s` is the word unknown, in whatever capitals.
pub open spec fn says_unknown(s: Seq<char>) -> bool {
    &&& s.len() == 7
    &&& s[0] == 'u' || s[0] == 'U'
    &&& s[1] == 'n' || s[1] == 'N'
    &&& s[2] == 'k' || s[2] == 'K'
    &&& s[3] == 'n' || s[3] == 'N'
    &&& s[4] == 'o' || s[4] == 'O'
    &&& s[5] == 'w' || s[5] == 'W'
    &&& s[6] == 'n' || s[6] == 'N'
}

/// A field that holds the word unknown, in whatever capitals, or nothing but blanks, says
/// nothing.
pub proof fn law_unknown_says_nothing(s: Seq<char>)
    ensures
        says_unknown(s) ==> !monitor::informative(s),
        text::trimmed(s).len() == 0 ==> !monitor::informative(s),
{
    if says_unknown(s) {
        reveal_strlit("unknown");
        let word = "unknown"@;
        assert(word =~= seq!['u', 'n', 'k', 'n', 'o', 'w', 'n']);
        assert forall|i: int| 0 <= i < s.len() implies #[trigger] s[i] == #[trigger] word[i] || (
        'A' <= s[i] <= 'Z' && word[i] as u32 == s[i] as u32 + 32) by {
            assert(i == 0 || i == 1 || i == 2 || i == 3 || i == 4 || i == 5 || i == 6);
        }
        law_slugs_ignore_capitals(s, word);
        monitor::law_slug_is_idempotent(word);
    }
}

} // verus!
