//! What holding an attempt back goes by.
use vstd::prelude::*;

use crate::daemon;
use crate::daemon::SwitchView;
use crate::error::Error;
use crate::hyprland::monitor::{MonitorState, MonitorView};
use crate::lines;
use crate::number;
use crate::profile::matching::DecisionView;
use crate::profile::plan;
use crate::profile::plan::PlanView;
use crate::sort;
use crate::sort::Ranked;
use crate::text;

verus! {

/// Where and how an output shows its picture.
#[verifier::ext_equal]
pub struct PlaceView {
    pub output_name: Seq<char>,
    pub id: Seq<char>,
    pub enabled: bool,
    pub position: (int, int),
    pub size: (int, int),
    pub refresh_rate: int,
    pub scale: int,
    pub transform: int,
}

/// Where and how `monitor` shows its picture.
pub open spec fn place_of(monitor: MonitorView) -> PlaceView {
    PlaceView {
        output_name: monitor.output_name,
        id: monitor.id,
        enabled: monitor.enabled,
        position: (monitor.x as int, monitor.y as int),
        size: (monitor.width as int, monitor.height as int),
        refresh_rate: monitor.refresh_rate,
        scale: monitor.scale,
        transform: monitor.transform as int,
    }
}

/// `place` is where one of the monitors shows its picture.
pub open spec fn shows(monitors: Seq<MonitorView>, place: PlaceView) -> bool {
    exists|i: int| 0 <= i < monitors.len() && #[trigger] place_of(monitors[i]) == place
}

/// Two lists show the same outputs, in whatever order.
pub open spec fn same_outputs(a: Seq<MonitorView>, b: Seq<MonitorView>) -> bool {
    a.len() == b.len() && forall|place: PlaceView| #[trigger]
        shows(a, place) <==> #[trigger] shows(b, place)
}

/// No two monitors have one output name.
pub open spec fn named_apart(monitors: Seq<MonitorView>) -> bool {
    forall|i: int, j: int|
        0 <= i < j < monitors.len() ==> (#[trigger] monitors[i]).output_name != (
        #[trigger] monitors[j]).output_name
}

/// No name and no identity holds a NUL.
pub open spec fn nul_free(monitors: Seq<MonitorView>) -> bool {
    forall|i: int|
        0 <= i < monitors.len() ==> !(#[trigger] monitors[i]).output_name.contains('\0')
            && !monitors[i].id.contains('\0')
}

// ---------------------------------------------------------------------------
// Fields
// ---------------------------------------------------------------------------
/// What stands between the NULs in the lines of the first `n` monitors. The last
/// field of a line and the first of the next stand in one part.
spec fn strand(monitors: Seq<MonitorView>, n: int) -> Seq<Seq<char>>
    decreases n,
{
    if n <= 0 {
        seq![seq![]]
    } else {
        let front = strand(monitors, n - 1);
        let monitor = monitors[n - 1];
        front.drop_last().push(front.last() + monitor.output_name).push(monitor.id).push(
            plan::bool_text(monitor.enabled),
        ).push(text::int_text(monitor.x as int)).push(text::int_text(monitor.y as int)).push(
            text::int_text(monitor.width as int),
        ).push(text::int_text(monitor.height as int)).push(text::int_text(monitor.refresh_rate)).push(
            text::int_text(monitor.scale),
        ).push(text::int_text(monitor.transform as int) + seq!['\n'])
    }
}

proof fn lemma_strand_len(monitors: Seq<MonitorView>, n: int)
    requires
        0 <= n,
    ensures
        strand(monitors, n).len() == 9 * n + 1,
    decreases n,
{
    if n > 0 {
        lemma_strand_len(monitors, n - 1);
    }
}

proof fn lemma_joined_grows(all: Seq<Seq<char>>, more: Seq<char>, separator: Seq<char>)
    requires
        all.len() >= 1,
    ensures
        text::joined(all.push(more), separator) == text::joined(all, separator) + separator + more,
{
    assert(all.push(more).drop_last() =~= all);
}

proof fn lemma_joined_extends(all: Seq<Seq<char>>, more: Seq<char>, separator: Seq<char>)
    requires
        all.len() >= 1,
    ensures
        text::joined(all.drop_last().push(all.last() + more), separator) == text::joined(
            all,
            separator,
        ) + more,
{
    let front = all.drop_last();
    if all.len() == 1 {
        assert(front.push(all.last() + more)[0] == all[0] + more);
    } else {
        lemma_joined_grows(front, all.last() + more, separator);
        lemma_joined_grows(front, all.last(), separator);
        assert(front.push(all.last()) =~= all);
        let before = text::joined(front, separator);
        assert(before + separator + (all.last() + more) =~= before + separator + all.last() + more);
    }
}

proof fn lemma_behind(before: Seq<char>, first: Seq<char>, second: Seq<char>, third: Seq<char>)
    ensures
        before + (first + second + third) == before + first + second + third,
{
    assert(before + (first + second + third) =~= before + first + second + third);
}

proof fn lemma_lines_are_joined(monitors: Seq<MonitorView>, n: int)
    requires
        0 <= n <= monitors.len(),
    ensures
        daemon::place_lines(monitors, n) == text::joined(strand(monitors, n), seq!['\0']),
    decreases n,
{
    if n == 0 {
        assert(strand(monitors, n)[0] =~= seq![]);
    } else {
        lemma_lines_are_joined(monitors, n - 1);
        lemma_strand_len(monitors, n - 1);
        reveal_strlit("\0");
        reveal_strlit("\n");
        let c = "\0"@;
        assert(c =~= seq!['\0']);
        assert("\n"@ =~= seq!['\n']);
        let monitor = monitors[n - 1];
        let front = strand(monitors, n - 1);
        let s1 = front.drop_last().push(front.last() + monitor.output_name);
        let s2 = s1.push(monitor.id);
        let s3 = s2.push(plan::bool_text(monitor.enabled));
        let s4 = s3.push(text::int_text(monitor.x as int));
        let s5 = s4.push(text::int_text(monitor.y as int));
        let s6 = s5.push(text::int_text(monitor.width as int));
        let s7 = s6.push(text::int_text(monitor.height as int));
        let s8 = s7.push(text::int_text(monitor.refresh_rate));
        let s9 = s8.push(text::int_text(monitor.scale));
        lemma_joined_extends(front, monitor.output_name, c);
        let before = daemon::place_lines(monitors, n - 1);
        let p1 = monitor.output_name;
        let p2 = p1 + c + monitor.id;
        let p3 = p2 + c + plan::bool_text(monitor.enabled);
        let p4 = p3 + c + text::int_text(monitor.x as int);
        let p5 = p4 + c + text::int_text(monitor.y as int);
        let p6 = p5 + c + text::int_text(monitor.width as int);
        let p7 = p6 + c + text::int_text(monitor.height as int);
        let p8 = p7 + c + text::int_text(monitor.refresh_rate);
        let p9 = p8 + c + text::int_text(monitor.scale);
        lemma_joined_grows(s1, monitor.id, c);
        lemma_behind(before, p1, c, monitor.id);
        lemma_joined_grows(s2, plan::bool_text(monitor.enabled), c);
        lemma_behind(before, p2, c, plan::bool_text(monitor.enabled));
        lemma_joined_grows(s3, text::int_text(monitor.x as int), c);
        lemma_behind(before, p3, c, text::int_text(monitor.x as int));
        lemma_joined_grows(s4, text::int_text(monitor.y as int), c);
        lemma_behind(before, p4, c, text::int_text(monitor.y as int));
        lemma_joined_grows(s5, text::int_text(monitor.width as int), c);
        lemma_behind(before, p5, c, text::int_text(monitor.width as int));
        lemma_joined_grows(s6, text::int_text(monitor.height as int), c);
        lemma_behind(before, p6, c, text::int_text(monitor.height as int));
        lemma_joined_grows(s7, text::int_text(monitor.refresh_rate), c);
        lemma_behind(before, p7, c, text::int_text(monitor.refresh_rate));
        lemma_joined_grows(s8, text::int_text(monitor.scale), c);
        lemma_behind(before, p8, c, text::int_text(monitor.scale));
        let last = text::int_text(monitor.transform as int);
        let end = seq!['\n'];
        lemma_joined_grows(s9, last + end, c);
        lemma_behind(before, p9, c, last);
        let p10 = p9 + c + last;
        assert(before + (p10 + end) =~= before + p10 + end);
        assert(before + p9 + c + (last + end) =~= before + p9 + c + last + end);
        assert(daemon::place_line(monitor) == p10 + end);
    }
}

proof fn lemma_number_is_plain(n: int)
    ensures
        !text::int_text(n).contains('\0'),
        !text::int_text(n).contains('\n'),
{
    number::law_written_integers_read_back(n);
    let t = text::int_text(n);
    assert forall|i: int| 0 <= i < t.len() implies t[i] != '\0' && t[i] != '\n' by {
        assert(text::digit(t[i]) || t[i] == '-');
    }
}

proof fn lemma_both_lack(s: Seq<char>, t: Seq<char>, c: char)
    requires
        !s.contains(c),
        !t.contains(c),
    ensures
        !(s + t).contains(c),
{
    assert forall|i: int| 0 <= i < (s + t).len() implies (s + t)[i] != c by {
        if i < s.len() {
            assert((s + t)[i] == s[i]);
        } else {
            assert((s + t)[i] == t[i - s.len()]);
        }
    }
}

proof fn lemma_strand_is_plain(monitors: Seq<MonitorView>, n: int)
    requires
        nul_free(monitors),
        0 <= n <= monitors.len(),
    ensures
        forall|k: int|
            0 <= k < strand(monitors, n).len() ==> !(#[trigger] strand(monitors, n)[k]).contains(
                '\0',
            ),
    decreases n,
{
    let all = strand(monitors, n);
    if n > 0 {
        let monitor = monitors[n - 1];
        let front = strand(monitors, n - 1);
        lemma_strand_is_plain(monitors, n - 1);
        lemma_strand_len(monitors, n - 1);
        reveal_strlit("true");
        reveal_strlit("false");
        lemma_number_is_plain(monitor.x as int);
        lemma_number_is_plain(monitor.y as int);
        lemma_number_is_plain(monitor.width as int);
        lemma_number_is_plain(monitor.height as int);
        lemma_number_is_plain(monitor.refresh_rate);
        lemma_number_is_plain(monitor.scale);
        lemma_number_is_plain(monitor.transform as int);
        assert(!plan::bool_text(monitor.enabled).contains('\0'));
        assert(!front[front.len() - 1].contains('\0'));
        lemma_both_lack(front.last(), monitor.output_name, '\0');
        lemma_both_lack(text::int_text(monitor.transform as int), seq!['\n'], '\0');
        assert forall|k: int| 0 <= k < all.len() implies !(#[trigger] all[k]).contains('\0') by {
            if k < front.len() - 1 {
                assert(all[k] == front[k]);
            }
        }
    }
}

proof fn lemma_numbers_differ(m: int, n: int)
    ensures
        text::int_text(m) == text::int_text(n) ==> m == n,
{
    number::law_written_integers_read_back(m);
    number::law_written_integers_read_back(n);
}

/// A number with a newline behind it tells where what follows begins.
proof fn lemma_number_ends(m: int, s: Seq<char>, n: int, t: Seq<char>)
    requires
        text::int_text(m) + seq!['\n'] + s == text::int_text(n) + seq!['\n'] + t,
    ensures
        m == n,
        s == t,
{
    lemma_number_is_plain(m);
    lemma_number_is_plain(n);
    lemma_numbers_differ(m, n);
    text::law_split_at_first(text::int_text(m), '\n', s);
    text::law_split_at_first(text::int_text(n), '\n', t);
}

/// What stands in front of the next name: nothing, or the last field of the line
/// before.
proof fn lemma_strand_ends(monitors: Seq<MonitorView>, n: int)
    requires
        0 <= n,
    ensures
        strand(monitors, n).last() == if n == 0 {
            seq![]
        } else {
            text::int_text(monitors[n - 1].transform as int) + seq!['\n']
        },
{
}

/// The parts between the NULs tell where each monitor is.
proof fn lemma_strand_tells(a: Seq<MonitorView>, b: Seq<MonitorView>, n: int)
    requires
        0 <= n <= a.len(),
        n <= b.len(),
        strand(a, n) == strand(b, n),
    ensures
        forall|i: int| 0 <= i < n ==> #[trigger] place_of(a[i]) == place_of(b[i]),
    decreases n,
{
    if n > 0 {
        let m = a[n - 1];
        let o = b[n - 1];
        let f = strand(a, n);
        let g = strand(b, n);
        let front = strand(a, n - 1);
        let other = strand(b, n - 1);
        let k = 9 * (n - 1);
        lemma_strand_len(a, n - 1);
        lemma_strand_len(b, n - 1);
        lemma_strand_len(a, n);
        lemma_strand_len(b, n);
        assert(f[k] == front.last() + m.output_name);
        assert(g[k] == other.last() + o.output_name);
        assert(f[k + 1] == m.id && g[k + 1] == o.id);
        assert(f[k + 2] == plan::bool_text(m.enabled) && g[k + 2] == plan::bool_text(o.enabled));
        assert(f[k + 3] == text::int_text(m.x as int) && g[k + 3] == text::int_text(o.x as int));
        assert(f[k + 4] == text::int_text(m.y as int) && g[k + 4] == text::int_text(o.y as int));
        assert(f[k + 5] == text::int_text(m.width as int) && g[k + 5] == text::int_text(
            o.width as int,
        ));
        assert(f[k + 6] == text::int_text(m.height as int) && g[k + 6] == text::int_text(
            o.height as int,
        ));
        assert(f[k + 7] == text::int_text(m.refresh_rate) && g[k + 7] == text::int_text(
            o.refresh_rate,
        ));
        assert(f[k + 8] == text::int_text(m.scale) && g[k + 8] == text::int_text(o.scale));
        let end = seq!['\n'];
        assert(f[k + 9] == text::int_text(m.transform as int) + end);
        assert(g[k + 9] == text::int_text(o.transform as int) + end);
        assert(f[k + 9] =~= text::int_text(m.transform as int) + end + Seq::<char>::empty());
        assert(g[k + 9] =~= text::int_text(o.transform as int) + end + Seq::<char>::empty());
        lemma_number_ends(m.transform as int, seq![], o.transform as int, seq![]);
        reveal_strlit("true");
        reveal_strlit("false");
        assert("true"@.len() != "false"@.len());
        assert(m.enabled == o.enabled);
        lemma_numbers_differ(m.x as int, o.x as int);
        lemma_numbers_differ(m.y as int, o.y as int);
        lemma_numbers_differ(m.width as int, o.width as int);
        lemma_numbers_differ(m.height as int, o.height as int);
        lemma_numbers_differ(m.refresh_rate, o.refresh_rate);
        lemma_numbers_differ(m.scale, o.scale);
        lemma_strand_ends(a, n - 1);
        lemma_strand_ends(b, n - 1);
        if n == 1 {
            assert(Seq::<char>::empty() + m.output_name =~= m.output_name);
            assert(Seq::<char>::empty() + o.output_name =~= o.output_name);
        } else {
            lemma_number_ends(
                a[n - 2].transform as int,
                m.output_name,
                b[n - 2].transform as int,
                o.output_name,
            );
        }
        assert(front =~= other) by {
            assert forall|i: int| 0 <= i < front.len() implies front[i] == other[i] by {
                if i < k {
                    assert(f[i] == front[i]);
                    assert(g[i] == other[i]);
                } else {
                    assert(front[i] == front.last());
                    assert(other[i] == other.last());
                }
            }
        }
        lemma_strand_tells(a, b, n - 1);
        assert(place_of(m) == place_of(o));
    }
}

/// The lines tell where each monitor is, in order.
proof fn lemma_lines_tell(a: Seq<MonitorView>, b: Seq<MonitorView>)
    requires
        nul_free(a),
        nul_free(b),
        daemon::place_lines(a, a.len() as int) == daemon::place_lines(b, b.len() as int),
    ensures
        a.len() == b.len(),
        forall|i: int| 0 <= i < a.len() ==> #[trigger] place_of(a[i]) == place_of(b[i]),
{
    let f = strand(a, a.len() as int);
    let g = strand(b, b.len() as int);
    lemma_lines_are_joined(a, a.len() as int);
    lemma_lines_are_joined(b, b.len() as int);
    lemma_strand_is_plain(a, a.len() as int);
    lemma_strand_is_plain(b, b.len() as int);
    lemma_strand_len(a, a.len() as int);
    lemma_strand_len(b, b.len() as int);
    lines::law_joined_parts_come_apart(f, '\0');
    lines::law_joined_parts_come_apart(g, '\0');
    assert(f == g);
    lemma_strand_tells(a, b, a.len() as int);
}

proof fn lemma_places_make_lines(a: Seq<MonitorView>, b: Seq<MonitorView>, n: int)
    requires
        0 <= n <= a.len(),
        n <= b.len(),
        forall|i: int| 0 <= i < n ==> #[trigger] place_of(a[i]) == place_of(b[i]),
    ensures
        daemon::place_lines(a, n) == daemon::place_lines(b, n),
    decreases n,
{
    if n > 0 {
        lemma_places_make_lines(a, b, n - 1);
        assert(place_of(a[n - 1]) == place_of(b[n - 1]));
        let x = place_of(a[n - 1]);
        let y = place_of(b[n - 1]);
        assert(x.position == y.position && x.size == y.size);
    }
}

// ---------------------------------------------------------------------------
// Order
// ---------------------------------------------------------------------------
proof fn lemma_monitors_are_ranked()
    ensures
        sort::ranks::<MonitorState>(),
{
    assert forall|a: MonitorView| !#[trigger] MonitorState::ahead(a, a) by {
        text::lemma_precedes_order(a.output_name, a.output_name, a.output_name);
    }
    assert forall|a: MonitorView, b: MonitorView, c: MonitorView| #[trigger]
        MonitorState::ahead(a, b) && #[trigger] MonitorState::ahead(
            b,
            c,
        ) implies MonitorState::ahead(a, c) by {
        text::lemma_precedes_order(a.output_name, b.output_name, c.output_name);
    }
    assert forall|a: MonitorView, b: MonitorView, c: MonitorView| !#[trigger]
        MonitorState::ahead(a, b) && !#[trigger] MonitorState::ahead(
            b,
            c,
        ) implies !MonitorState::ahead(a, c) by {
        text::lemma_precedes_order(a.output_name, b.output_name, c.output_name);
        text::lemma_precedes_order(b.output_name, c.output_name, a.output_name);
        text::lemma_precedes_order(c.output_name, b.output_name, a.output_name);
        text::lemma_precedes_order(a.output_name, c.output_name, b.output_name);
    }
}

/// Sorting keeps what is shown.
proof fn lemma_sorted_shows(monitors: Seq<MonitorView>)
    ensures
        sort::sorted::<MonitorState>(monitors).len() == monitors.len(),
        forall|m: MonitorView|
            monitors.contains(m) <==> #[trigger] sort::sorted::<MonitorState>(monitors).contains(m),
        forall|place: PlaceView|
            shows(monitors, place) <==> #[trigger] shows(
                sort::sorted::<MonitorState>(monitors),
                place,
            ),
        nul_free(monitors) ==> nul_free(sort::sorted::<MonitorState>(monitors)),
{
    broadcast use vstd::seq_lib::group_to_multiset_ensures;

    let s = sort::sorted::<MonitorState>(monitors);
    sort::law_sorted::<MonitorState>(monitors);
    assert forall|m: MonitorView| monitors.contains(m) <==> #[trigger] s.contains(m) by {
        assert(monitors.contains(m) <==> monitors.to_multiset().count(m) > 0);
        assert(s.contains(m) <==> s.to_multiset().count(m) > 0);
    }
    assert forall|place: PlaceView| shows(monitors, place) <==> #[trigger] shows(s, place) by {
        if shows(monitors, place) {
            let i = choose|i: int|
                0 <= i < monitors.len() && #[trigger] place_of(monitors[i]) == place;
            assert(monitors.contains(monitors[i]));
            assert(s.contains(monitors[i]));
            let j = choose|j: int| 0 <= j < s.len() && s[j] == monitors[i];
            assert(place_of(s[j]) == place);
        }
        if shows(s, place) {
            let i = choose|i: int| 0 <= i < s.len() && #[trigger] place_of(s[i]) == place;
            assert(s.contains(s[i]));
            let j = choose|j: int| 0 <= j < monitors.len() && monitors[j] == s[i];
            assert(place_of(monitors[j]) == place);
        }
    }
    if nul_free(monitors) {
        assert forall|i: int| 0 <= i < s.len() implies !(
        #[trigger] s[i]).output_name.contains('\0') && !s[i].id.contains('\0') by {
            assert(s.contains(s[i]));
            let j = choose|j: int| 0 <= j < monitors.len() && monitors[j] == s[i];
            assert(!monitors[j].output_name.contains('\0'));
        }
    }
}

spec fn rising(names: Seq<Seq<char>>) -> bool {
    forall|i: int, j: int|
        0 <= i < j < names.len() ==> text::precedes(#[trigger] names[i], #[trigger] names[j])
}

spec fn names(monitors: Seq<MonitorView>) -> Seq<Seq<char>> {
    monitors.map_values(|monitor: MonitorView| monitor.output_name)
}

proof fn lemma_sorted_names_rise(monitors: Seq<MonitorView>)
    requires
        named_apart(monitors),
    ensures
        rising(names(sort::sorted::<MonitorState>(monitors))),
{
    let s = sort::sorted::<MonitorState>(monitors);
    lemma_monitors_are_ranked();
    sort::law_sorted::<MonitorState>(monitors);
    lemma_sorted_shows(monitors);
    assert(monitors.no_duplicates()) by {
        assert forall|i: int, j: int|
            0 <= i < monitors.len() && 0 <= j < monitors.len() && i != j implies monitors[i]
            != monitors[j] by {
            if i < j {
                assert(monitors[i].output_name != monitors[j].output_name);
            } else {
                assert(monitors[j].output_name != monitors[i].output_name);
            }
        }
    }
    monitors.lemma_multiset_has_no_duplicates();
    s.lemma_multiset_has_no_duplicates_conv();
    let all = names(s);
    assert forall|i: int, j: int| 0 <= i < j < all.len() implies text::precedes(
        #[trigger] all[i],
        #[trigger] all[j],
    ) by {
        assert(!MonitorState::ahead(s[j], s[i]));
        text::lemma_precedes_order(s[i].output_name, s[j].output_name, s[i].output_name);
        if s[i].output_name == s[j].output_name {
            assert(s.contains(s[i]) && s.contains(s[j]));
            assert(monitors.contains(s[i]) && monitors.contains(s[j]));
            let k = choose|k: int| 0 <= k < monitors.len() && monitors[k] == s[i];
            let l = choose|l: int| 0 <= l < monitors.len() && monitors[l] == s[j];
            if k < l {
                assert(monitors[k].output_name != monitors[l].output_name);
            } else if l < k {
                assert(monitors[l].output_name != monitors[k].output_name);
            }
            assert(s[i] == s[j]);
        }
    }
}

/// Two rising lists of the same names are one list.
proof fn lemma_rising_lists_agree(a: Seq<Seq<char>>, b: Seq<Seq<char>>)
    requires
        rising(a),
        rising(b),
        forall|name: Seq<char>| #[trigger] a.contains(name) <==> #[trigger] b.contains(name),
    ensures
        a == b,
    decreases a.len(),
{
    if a.len() == 0 {
        if b.len() > 0 {
            assert(b.contains(b[0]));
            assert(a.contains(b[0]));
        }
        assert(a =~= b);
    } else {
        let x = a[a.len() - 1];
        assert(a.contains(x));
        assert(b.contains(x));
        let y = b[b.len() - 1];
        assert(b.contains(y));
        assert(a.contains(y));
        let i = choose|i: int| 0 <= i < a.len() && a[i] == y;
        let j = choose|j: int| 0 <= j < b.len() && b[j] == x;
        text::lemma_precedes_order(x, y, x);
        if j < b.len() - 1 {
            assert(text::precedes(b[j], b[b.len() - 1]));
            if i < a.len() - 1 {
                assert(text::precedes(a[i], a[a.len() - 1]));
            }
        }
        assert(x == y);
        let f = a.drop_last();
        let g = b.drop_last();
        assert(rising(f)) by {
            assert forall|p: int, q: int| 0 <= p < q < f.len() implies text::precedes(
                #[trigger] f[p],
                #[trigger] f[q],
            ) by {
                assert(f[p] == a[p] && f[q] == a[q]);
            }
        }
        assert(rising(g)) by {
            assert forall|p: int, q: int| 0 <= p < q < g.len() implies text::precedes(
                #[trigger] g[p],
                #[trigger] g[q],
            ) by {
                assert(g[p] == b[p] && g[q] == b[q]);
            }
        }
        assert forall|name: Seq<char>| #[trigger] f.contains(name) <==> #[trigger] g.contains(
            name,
        ) by {
            if f.contains(name) {
                let p = choose|p: int| 0 <= p < f.len() && f[p] == name;
                assert(a[p] == name);
                assert(a.contains(name));
                assert(b.contains(name));
                assert(text::precedes(a[p], a[a.len() - 1]));
                let q = choose|q: int| 0 <= q < b.len() && b[q] == name;
                text::lemma_precedes_order(x, x, x);
                assert(q < b.len() - 1);
                assert(g[q] == name);
            }
            if g.contains(name) {
                let p = choose|p: int| 0 <= p < g.len() && g[p] == name;
                assert(b[p] == name);
                assert(b.contains(name));
                assert(a.contains(name));
                assert(text::precedes(b[p], b[b.len() - 1]));
                let q = choose|q: int| 0 <= q < a.len() && a[q] == name;
                text::lemma_precedes_order(x, x, x);
                assert(q < a.len() - 1);
                assert(f[q] == name);
            }
        }
        lemma_rising_lists_agree(f, g);
        assert(a =~= f.push(x));
        assert(b =~= g.push(x));
    }
}

proof fn lemma_names_agree(a: Seq<MonitorView>, b: Seq<MonitorView>)
    requires
        forall|place: PlaceView| shows(a, place) ==> #[trigger] shows(b, place),
    ensures
        forall|name: Seq<char>| names(a).contains(name) ==> #[trigger] names(b).contains(name),
{
    assert forall|name: Seq<char>| names(a).contains(name) implies #[trigger] names(b).contains(
        name,
    ) by {
        let i = choose|i: int| 0 <= i < names(a).len() && names(a)[i] == name;
        let place = place_of(a[i]);
        assert(shows(a, place));
        assert(shows(b, place));
        let j = choose|j: int| 0 <= j < b.len() && #[trigger] place_of(b[j]) == place;
        assert(names(b)[j] == name);
    }
}

// ---------------------------------------------------------------------------
// Laws
// ---------------------------------------------------------------------------
/// Monitors with one fingerprint show the same outputs, unless a name or an identity
/// holds a NUL: the fields of a fingerprint are told apart by NULs.
pub proof fn law_one_fingerprint_means_same_outputs(a: Seq<MonitorView>, b: Seq<MonitorView>)
    requires
        daemon::fingerprint(a) == daemon::fingerprint(b),
    ensures
        same_outputs(a, b) || !nul_free(a) || !nul_free(b),
{
    if nul_free(a) && nul_free(b) {
        let s = sort::sorted::<MonitorState>(a);
        let t = sort::sorted::<MonitorState>(b);
        lemma_sorted_shows(a);
        lemma_sorted_shows(b);
        lemma_lines_tell(s, t);
        assert forall|place: PlaceView| #[trigger] shows(a, place) <==> #[trigger] shows(b, place) by {
            assert(shows(a, place) <==> shows(s, place));
            assert(shows(b, place) <==> shows(t, place));
            if shows(s, place) {
                let i = choose|i: int| 0 <= i < s.len() && #[trigger] place_of(s[i]) == place;
                assert(place_of(t[i]) == place);
            }
            if shows(t, place) {
                let i = choose|i: int| 0 <= i < t.len() && #[trigger] place_of(t[i]) == place;
                assert(place_of(s[i]) == place);
            }
        }
    }
}

/// Monitors that show the same outputs have one fingerprint, in whatever order
/// they come.
pub proof fn law_same_outputs_have_one_fingerprint(a: Seq<MonitorView>, b: Seq<MonitorView>)
    requires
        named_apart(a),
        named_apart(b),
        same_outputs(a, b),
    ensures
        daemon::fingerprint(a) == daemon::fingerprint(b),
{
    let s = sort::sorted::<MonitorState>(a);
    let t = sort::sorted::<MonitorState>(b);
    lemma_sorted_shows(a);
    lemma_sorted_shows(b);
    lemma_sorted_names_rise(a);
    lemma_sorted_names_rise(b);
    assert forall|place: PlaceView| shows(s, place) <==> #[trigger] shows(t, place) by {
        assert(shows(a, place) <==> shows(b, place));
        assert(shows(a, place) <==> shows(s, place));
    }
    assert forall|place: PlaceView| shows(t, place) implies #[trigger] shows(s, place) by {
        assert(shows(s, place) <==> shows(t, place));
    }
    lemma_names_agree(s, t);
    lemma_names_agree(t, s);
    lemma_rising_lists_agree(names(s), names(t));
    assert forall|i: int| 0 <= i < s.len() implies #[trigger] place_of(s[i]) == place_of(
        t[i],
    ) by {
        let place = place_of(s[i]);
        assert(shows(s, place));
        assert(shows(t, place));
        let j = choose|j: int| 0 <= j < t.len() && #[trigger] place_of(t[j]) == place;
        assert(names(s)[i] == s[i].output_name);
        assert(names(t)[i] == t[i].output_name);
        assert(names(t)[j] == t[j].output_name);
        text::lemma_precedes_order(s[i].output_name, s[i].output_name, s[i].output_name);
        if j < i {
            assert(text::precedes(names(t)[j], names(t)[i]));
        } else if i < j {
            assert(text::precedes(names(t)[i], names(t)[j]));
        }
    }
    lemma_places_make_lines(s, t, a.len() as int);
}

/// An attempt that is held back is held back again, once, where the next attempt is
/// of the same profile and the same batch and the monitors show the same outputs,
/// in whatever order. Otherwise it is not, unless a name or an identity holds a
/// NUL, by which the fields of a fingerprint are told apart. Whatever the answer,
/// nothing is held back after that.
pub proof fn law_suppression_goes_by_outputs(
    state: SwitchView,
    profile_name: Seq<char>,
    batch: Seq<char>,
    monitors: Seq<MonitorView>,
    next_name: Seq<char>,
    next_batch: Seq<char>,
    next_monitors: Seq<MonitorView>,
)
    requires
        named_apart(monitors),
        named_apart(next_monitors),
    ensures
        ({
            let holding = state.holding(
                Some(daemon::attempt_at(profile_name, batch, monitors)),
            );
            let next = daemon::attempt_at(next_name, next_batch, next_monitors);
            let held_back = holding.suppressed_attempt == Some(next);
            let same = profile_name == next_name && batch == next_batch && same_outputs(
                monitors,
                next_monitors,
            );
            &&& same ==> held_back
            &&& held_back ==> profile_name == next_name && batch == next_batch && (same
                || !nul_free(monitors) || !nul_free(next_monitors))
            &&& nul_free(monitors) && nul_free(next_monitors) ==> (held_back <==> same)
            &&& holding.holding(None).suppressed_attempt != Some(next)
        }),
{
    let held = daemon::attempt_at(profile_name, batch, monitors);
    let next = daemon::attempt_at(next_name, next_batch, next_monitors);
    if same_outputs(monitors, next_monitors) {
        law_same_outputs_have_one_fingerprint(monitors, next_monitors);
    }
    if held == next {
        assert(held.observed_layout == next.observed_layout);
        assert(held.profile_name == next.profile_name && held.batch == next.batch);
        law_one_fingerprint_means_same_outputs(monitors, next_monitors);
    }
}

/// An attempt that failed is not repeated while the monitors show the same
/// outputs, and is made again once one of them has changed, unless a name or an
/// identity holds a NUL.
pub proof fn law_failure_holds_back_while_outputs_stay(
    state: SwitchView,
    plan: PlanView,
    monitors: Seq<MonitorView>,
    later: Seq<MonitorView>,
    error: Error,
    decided: Option<DecisionView>,
    unattended: bool,
)
    requires
        !plan.is_noop,
        daemon::gate(state, plan, monitors, decided, unattended).proceed,
        named_apart(monitors),
        named_apart(later),
    ensures
        ({
            let attempted = daemon::gate(state, plan, monitors, decided, unattended).attempted;
            let failed = daemon::after_conclusion(
                daemon::after_gate(state, plan),
                attempted,
                Err(error),
            );
            let proceeds = daemon::gate(failed, plan, later, decided, unattended).proceed;
            &&& same_outputs(monitors, later) ==> !proceeds
            &&& !same_outputs(monitors, later) && nul_free(monitors) && nul_free(later)
                ==> proceeds
        }),
{
    daemon::law_failure_holds_back_while_unchanged(
        state,
        plan,
        monitors,
        later,
        error,
        decided,
        unattended,
    );
    if same_outputs(monitors, later) {
        law_same_outputs_have_one_fingerprint(monitors, later);
    }
    if daemon::fingerprint(later) == daemon::fingerprint(monitors) {
        law_one_fingerprint_means_same_outputs(monitors, later);
    }
}

} // verus!
