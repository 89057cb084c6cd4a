//! What an accepted profile holds, and which profiles are accepted.
use vstd::prelude::*;

use crate::double;
use crate::double_bounds;
use crate::number;
use crate::number::RateView;
use crate::profile::store;
use crate::profile::store::{ProfileMonitorView, ProfileOutputView, ProfileView};
use crate::profile::store_laws;
use crate::profile::validation;
use crate::text;

verus! {

// ---------------------------------------------------------------------------
// Names
// ---------------------------------------------------------------------------
/// A name is accepted exactly where it is not empty, neither begins nor ends with a
/// space, takes at most 128 bytes and holds no control character.
pub proof fn law_accepted_names(name: Seq<char>)
    ensures
        validation::name_error(name) is None <==> {
            &&& name.len() > 0
            &&& !text::whitespace(name[0])
            &&& !text::whitespace(name.last())
            &&& vstd::utf8::encode_utf8(name).len() <= 128
            &&& forall|i: int|
                0 <= i < name.len() ==> (#[trigger] name[i]) as u32 >= 0x20 && !(0x7f <= name[i]
                    as u32 <= 0x9f)
        },
{
    text::lemma_is_trimmed(name);
    if text::has_control(name) {
        let i = choose|i: int| 0 <= i < name.len() && text::control(#[trigger] name[i]);
        assert(name[i] as u32 <= 0x1f || 0x7f <= name[i] as u32 <= 0x9f);
    } else {
        assert forall|i: int| 0 <= i < name.len() implies (#[trigger] name[i]) as u32 >= 0x20
            && !(0x7f <= name[i] as u32 <= 0x9f) by {
            assert(!text::control(name[i]));
        }
    }
}

/// An identity is accepted exactly where it is not empty, neither begins nor ends with a
/// space, takes at most 512 bytes and holds no control character.
pub proof fn law_accepted_identities(id: Seq<char>, label: Seq<char>)
    ensures
        validation::identifier_error(id, label) is None <==> {
            &&& id.len() > 0
            &&& !text::whitespace(id[0])
            &&& !text::whitespace(id.last())
            &&& vstd::utf8::encode_utf8(id).len() <= 512
            &&& forall|i: int|
                0 <= i < id.len() ==> (#[trigger] id[i]) as u32 >= 0x20 && !(0x7f <= id[i] as u32
                    <= 0x9f)
        },
{
    text::lemma_is_trimmed(id);
    if text::has_control(id) {
        let i = choose|i: int| 0 <= i < id.len() && text::control(#[trigger] id[i]);
        assert(id[i] as u32 <= 0x1f || 0x7f <= id[i] as u32 <= 0x9f);
    } else {
        assert forall|i: int| 0 <= i < id.len() implies (#[trigger] id[i]) as u32 >= 0x20 && !(0x7f
            <= id[i] as u32 <= 0x9f) by {
            assert(!text::control(id[i]));
        }
    }
}

// ---------------------------------------------------------------------------
// Profiles
// ---------------------------------------------------------------------------
/// An accepted profile remembers one to sixteen monitors and has as many outputs at
/// least as monitors; every output is for a monitor that it remembers, every monitor
/// has an output, and no two of either are for one identity. Every output has a turn
/// from 0 to 7, a scale from a tenth to ten, and a place within a million pixels; its
/// mode is a word, or has a width, a height and a rate above zero.
pub proof fn law_accepted_profiles_are_in_range(profile: ProfileView)
    requires
        validation::profile_error(profile) is None,
    ensures
        1 <= profile.monitors.len() <= 16,
        1 <= profile.outputs.len() <= 16,
        forall|i: int|
            0 <= i < profile.outputs.len() ==> {
                let output = #[trigger] profile.outputs[i];
                &&& 0 <= output.transform <= 7
                &&& 100_000_000_000_000_000 <= output.scale <= 10_000_000_000_000_000_000
                &&& -1_000_000 <= output.x <= 1_000_000
                &&& -1_000_000 <= output.y <= 1_000_000
                &&& output.mode == "preferred"@ || output.mode == "highres"@ || output.mode
                    == "highrr"@ || output.mode == "maxwidth"@ || (validation::parsed_mode(
                    output.mode,
                ) matches Some((width, height, RateView::Finite(rate))) && width > 0 && height > 0
                    && rate > 0)
                &&& exists|j: int|
                    0 <= j < profile.monitors.len() && (#[trigger] profile.monitors[j]).id
                        == output.monitor_id
            },
        forall|i: int|
            0 <= i < profile.monitors.len() ==> {
                let monitor = #[trigger] profile.monitors[i];
                &&& monitor.physical_width >= 0
                &&& monitor.physical_height >= 0
                &&& exists|j: int|
                    0 <= j < profile.outputs.len() && (#[trigger] profile.outputs[j]).monitor_id
                        == monitor.id
            },
        forall|i: int, j: int|
            0 <= i < j < profile.outputs.len() ==> (#[trigger] profile.outputs[i]).monitor_id != (
            #[trigger] profile.outputs[j]).monitor_id,
        forall|i: int, j: int|
            0 <= i < j < profile.monitors.len() ==> (#[trigger] profile.monitors[i]).id != (
            #[trigger] profile.monitors[j]).id,
{
    store_laws::law_accepted_profiles_are_valid(profile);
    let ids = validation::known_ids(profile.monitors);
    let outputs = validation::output_ids(profile.outputs);
    assert forall|i: int| 0 <= i < profile.outputs.len() implies exists|j: int|
        0 <= j < profile.monitors.len() && (#[trigger] profile.monitors[j]).id
            == (#[trigger] profile.outputs[i]).monitor_id by {
        assert(store_laws::valid_output(profile.outputs[i], profile.monitors));
        let j = choose|j: int| 0 <= j < ids.len() && ids[j] == profile.outputs[i].monitor_id;
        assert(profile.monitors[j].id == profile.outputs[i].monitor_id);
    }
    assert forall|i: int| 0 <= i < profile.monitors.len() implies exists|j: int|
        0 <= j < profile.outputs.len() && (#[trigger] profile.outputs[j]).monitor_id
            == (#[trigger] profile.monitors[i]).id by {
        assert(store_laws::valid_monitor(profile.monitors[i]));
        let j = choose|j: int| 0 <= j < outputs.len() && outputs[j] == profile.monitors[i].id;
        assert(profile.outputs[j].monitor_id == profile.monitors[i].id);
    }
    assert forall|i: int, j: int| 0 <= i < j < profile.outputs.len() implies (
    #[trigger] profile.outputs[i]).monitor_id != (#[trigger] profile.outputs[j]).monitor_id by {
        assert(outputs[i] != outputs[j]);
    }
    assert forall|i: int, j: int| 0 <= i < j < profile.monitors.len() implies (
    #[trigger] profile.monitors[i]).id != (#[trigger] profile.monitors[j]).id by {
        assert(ids[i] != ids[j]);
    }
    assert forall|i: int| 0 <= i < profile.outputs.len() implies 0
        <= (#[trigger] profile.outputs[i]).transform <= 7 && validation::mode_allowed(
        profile.outputs[i].mode,
    ) && validation::scale_allowed(profile.outputs[i].scale) by {
        assert(store_laws::valid_output(profile.outputs[i], profile.monitors));
    }
    assert forall|i: int| 0 <= i < profile.monitors.len() implies (
    #[trigger] profile.monitors[i]).physical_width >= 0 by {
        assert(store_laws::valid_monitor(profile.monitors[i]));
    }
}

/// An output that names a monitor its profile remembers by a proper identity, in a mode
/// that spells out a size and a rate above zero, at a scale of one, in any turn there is
/// and within a million pixels, is accepted.
pub proof fn law_plain_outputs_are_accepted(
    name: Seq<char>,
    output: ProfileOutputView,
    monitors: Seq<ProfileMonitorView>,
    j: int,
    width: int,
    height: int,
    rate: int,
)
    requires
        0 <= j < monitors.len(),
        monitors[j].id == output.monitor_id,
        validation::identifier_error(output.monitor_id, "output monitor id"@) is None,
        validation::parsed_mode(output.mode) == Some((width, height, RateView::Finite(rate))),
        0 < width <= i32::MAX,
        0 < height <= i32::MAX,
        rate > 0,
        output.mode.len() > 0,
        text::trimmed(output.mode) == output.mode,
        !text::has_control(output.mode),
        output.scale == 1_000_000_000_000_000_000,
        0 <= output.transform <= 7,
        -1_000_000 <= output.x <= 1_000_000,
        -1_000_000 <= output.y <= 1_000_000,
    ensures
        validation::output_error(name, output, monitors) is None,
{
    let ids = validation::known_ids(monitors);
    assert(ids[j] == output.monitor_id);
    double_bounds::lemma_one_is_held_exactly();
    law_whole_sizes_are_accepted(width, output.scale, width);
    law_whole_sizes_are_accepted(height, output.scale, height);
}

/// So many pixels that are a whole number of logical ones, at a scale that is held
/// exactly, are accepted.
pub proof fn law_whole_sizes_are_accepted(size: int, scale: int, length: int)
    requires
        0 < size <= i32::MAX,
        double_bounds::held_exactly(scale),
        scale >= validation::MIN_SCALE,
        size * number::UNITS_PER_ONE == length * scale,
    ensures
        validation::whole_pixels(size, scale),
{
    reveal(validation::whole_pixels);
    double::lemma_one();
    assert(0 < length <= 10 * size) by (nonlinear_arith)
        requires
            size * number::UNITS_PER_ONE == length * scale,
            size > 0,
            number::UNITS_PER_ONE <= 10 * scale,
            scale > 0,
    ;
    double_bounds::lemma_exact_quotient(size as nat, scale, length as nat);
    let o = double::one();
    assert((length as nat * o) % o == 0) by {
        vstd::arithmetic::div_mod::lemma_fundamental_div_mod_converse(
            length * o,
            o as int,
            length,
            0,
        );
    }
    double::lemma_of_units_error(validation::LOGICAL_SIZE_TOLERANCE as int);
}

/// So many pixels that are at least a fiftieth of a logical pixel away from every whole
/// number of logical ones are refused.
pub proof fn law_broken_sizes_are_refused(size: int, scale: int)
    requires
        0 < size <= i32::MAX,
        validation::MIN_SCALE <= scale <= validation::MAX_SCALE,
        forall|length: int|
            50 * number::magnitude(
                size * number::UNITS_PER_ONE - #[trigger] (length * scale),
            ) >= scale,
    ensures
        !validation::whole_pixels(size, scale),
{
    reveal(validation::whole_pixels);
    double::lemma_one();
    double_bounds::lemma_quotient_error(size as nat, scale);
    double::lemma_of_units_error(validation::LOGICAL_SIZE_TOLERANCE as int);
    let u = number::UNITS_PER_ONE as int;
    let o = double::one() as int;
    let q = double::over_units(size as nat, scale) as int;
    let t = double::of_units(validation::LOGICAL_SIZE_TOLERANCE as int);
    vstd::arithmetic::div_mod::lemma_fundamental_div_mod(q, o);
    let rest = q % o;
    let length = if rest <= o - rest {
        q / o
    } else {
        q / o + 1
    };
    assert(o * (q / o + 1) == o * (q / o) + o) by (nonlinear_arith);
    assert(number::magnitude(q - o * length) == double::off_whole(q as nat));
    assert(100 * t <= o + o / 1000);
    let exact = size * u;
    let so = scale * o;
    let ls = length * scale;
    assert(50 * number::magnitude(exact - length * scale) >= scale);
    let qs = q * scale;
    let eo = exact * o;
    let lso = ls * o;
    assert(size * u * o == eo);
    assert(eo <= 0x8000_0000 * (10 * so)) by (nonlinear_arith)
        requires
            eo == size * u * o,
            size <= 0x8000_0000,
            so == scale * o,
            u <= 10 * scale,
            o >= 0,
            u >= 0,
            size >= 0,
            scale >= 0,
    ;
    assert(10_000 * (qs - eo) <= so && 10_000 * (eo - qs) <= so);
    let off = q - o * length;
    assert(off * scale == qs - lso) by (nonlinear_arith)
        requires
            off == q - o * length,
            qs == q * scale,
            lso == ls * o,
            ls == length * scale,
    ;
    assert(50 * (eo - lso) >= so || 50 * (lso - eo) >= so) by (nonlinear_arith)
        requires
            50 * (exact - ls) >= scale || 50 * (ls - exact) >= scale,
            eo == exact * o,
            lso == ls * o,
            so == scale * o,
            o >= 0,
    ;
    let offs = off * scale;
    assert(10_000 * offs >= 199 * so || 10_000 * offs <= -199 * so);
    assert(10_000 * off >= 199 * o || 10_000 * off <= -199 * o) by (nonlinear_arith)
        requires
            10_000 * offs >= 199 * so || 10_000 * offs <= -199 * so,
            offs == off * scale,
            so == scale * o,
            scale >= 1,
    ;
}

/// A profile with a proper name, with one to sixteen monitors of different proper
/// identities whose fields hold no control character and whose sizes are not negative, and
/// with one accepted output for each of them, is accepted.
pub proof fn law_proper_profiles_are_accepted(profile: ProfileView)
    requires
        validation::name_error(profile.name) is None,
        1 <= profile.monitors.len() <= 16,
        1 <= profile.outputs.len() <= 16,
        forall|i: int|
            0 <= i < profile.monitors.len() ==> {
                let monitor = #[trigger] profile.monitors[i];
                &&& validation::identifier_error(monitor.id, "monitor id"@) is None
                &&& !text::has_control(monitor.name_hint)
                &&& !text::has_control(monitor.description)
                &&& !text::has_control(monitor.make)
                &&& !text::has_control(monitor.model)
                &&& !text::has_control(monitor.serial)
                &&& monitor.physical_width >= 0
                &&& monitor.physical_height >= 0
                &&& exists|j: int|
                    0 <= j < profile.outputs.len() && (#[trigger] profile.outputs[j]).monitor_id
                        == monitor.id
            },
        forall|i: int|
            0 <= i < profile.outputs.len() ==> validation::output_error(
                profile.name,
                #[trigger] profile.outputs[i],
                profile.monitors,
            ) is None,
        forall|i: int, j: int|
            0 <= i < j < profile.outputs.len() ==> (#[trigger] profile.outputs[i]).monitor_id != (
            #[trigger] profile.outputs[j]).monitor_id,
        forall|i: int, j: int|
            0 <= i < j < profile.monitors.len() ==> (#[trigger] profile.monitors[i]).id != (
            #[trigger] profile.monitors[j]).id,
    ensures
        validation::profile_error(profile) is None,
{
    let ids = validation::known_ids(profile.monitors);
    let targets = validation::output_ids(profile.outputs);
    assert(ids.no_duplicates()) by {
        assert forall|i: int, j: int| 0 <= i < ids.len() && 0 <= j < ids.len() && i != j implies ids[i]
            != ids[j] by {
            if i < j {
                assert(profile.monitors[i].id != profile.monitors[j].id);
            } else {
                assert(profile.monitors[j].id != profile.monitors[i].id);
            }
        }
    }
    assert(targets.no_duplicates()) by {
        assert forall|i: int, j: int|
            0 <= i < targets.len() && 0 <= j < targets.len() && i != j implies targets[i]
            != targets[j] by {
            if i < j {
                assert(profile.outputs[i].monitor_id != profile.outputs[j].monitor_id);
            } else {
                assert(profile.outputs[j].monitor_id != profile.outputs[i].monitor_id);
            }
        }
    }
    assert forall|i: int| 0 <= i < profile.monitors.len() implies store_laws::valid_monitor(
        #[trigger] profile.monitors[i],
    ) by {}
    assert forall|i: int| 0 <= i < profile.outputs.len() implies store_laws::valid_output(
        #[trigger] profile.outputs[i],
        profile.monitors,
    ) by {
        assert(validation::output_error(profile.name, profile.outputs[i], profile.monitors)
            is None);
    }
    assert forall|i: int| 0 <= i < profile.monitors.len() implies targets.contains(
        (#[trigger] profile.monitors[i]).id,
    ) by {
        let j = choose|j: int|
            0 <= j < profile.outputs.len() && (#[trigger] profile.outputs[j]).monitor_id
                == profile.monitors[i].id;
        assert(targets[j] == profile.monitors[i].id);
    }
    store_laws::law_accepted_profiles_are_valid(profile);
}

/// A store that is accepted holds at most 128 profiles, each accepted, and no two of
/// one name; and every such store is.
pub proof fn law_accepted_stores(profiles: Seq<ProfileView>)
    ensures
        validation::store_error(profiles) is None <==> {
            &&& profiles.len() <= 128
            &&& forall|i: int|
                0 <= i < profiles.len() ==> validation::profile_error(#[trigger] profiles[i])
                    is None
            &&& forall|i: int, j: int|
                0 <= i < j < profiles.len() ==> (#[trigger] profiles[i]).name != (
                #[trigger] profiles[j]).name
        },
{
    store_laws::law_accepted_stores_are_valid(profiles);
    let names = validation::names_of(profiles);
    assert forall|i: int| 0 <= i < profiles.len() implies (validation::profile_error(
        #[trigger] profiles[i],
    ) is None <==> store_laws::valid_profile(profiles[i])) by {
        store_laws::law_accepted_profiles_are_valid(profiles[i]);
    }
    if store_laws::valid_store(profiles) {
        assert forall|i: int, j: int| 0 <= i < j < profiles.len() implies (
        #[trigger] profiles[i]).name != (#[trigger] profiles[j]).name by {
            assert(names[i] != names[j]);
        }
    }
    if forall|i: int, j: int|
        0 <= i < j < profiles.len() ==> (#[trigger] profiles[i]).name != (
        #[trigger] profiles[j]).name {
        assert forall|i: int, j: int|
            0 <= i < names.len() && 0 <= j < names.len() && i != j implies names[i]
            != names[j] by {
            if i < j {
                assert(profiles[i].name != profiles[j].name);
            } else {
                assert(profiles[j].name != profiles[i].name);
            }
        }
    }
}

// ---------------------------------------------------------------------------
// What is refused
// ---------------------------------------------------------------------------
/// Some stored profile has the name.
pub open spec fn is_taken(profiles: Seq<ProfileView>, name: Seq<char>) -> bool {
    exists|i: int| 0 <= i < profiles.len() && (#[trigger] profiles[i]).name == name
}

/// Saving is refused exactly where what is to be saved may not be, or where its name is
/// taken and nothing was said of replacing it. A layout is saved under the name that was
/// asked for, and under one that is not taken where none was.
pub proof fn law_saving_is_refused_for_cause(
    profiles: Seq<ProfileView>,
    profile: ProfileView,
    requested: Option<Seq<char>>,
    monitors: Seq<crate::hyprland::monitor::MonitorView>,
    replace: bool,
)
    ensures
        store::save_error(profiles, profile, replace) is None <==> validation::profile_error(
            profile,
        ) is None && (replace || !is_taken(profiles, profile.name)),
        requested matches Some(name) ==> {
            &&& store::chosen_name(profiles, requested, monitors) == name
            &&& store::save_current_error(profiles, requested, monitors, replace) is None
                <==> validation::name_error(name) is None && (replace || !is_taken(profiles, name))
        },
        requested is None ==> {
            &&& !is_taken(profiles, store::chosen_name(profiles, requested, monitors))
            &&& store::save_current_error(profiles, requested, monitors, replace) is None
        },
{
    let names = validation::names_of(profiles);
    let base = store::suggested_name(monitors);
    text::law_first_free_is_free(base, names);
    let free = text::first_free(base, names);
    assert forall|i: int| 0 <= i < profiles.len() implies (#[trigger] profiles[i]).name
        != free by {
        assert(names[i] == profiles[i].name);
        assert(names.contains(names[i]));
    }
}

/// A profile is renamed exactly where both names are proper and differ, the old one is
/// taken and the new one is not; deleted where its name is proper and taken; and copied
/// where both names are proper and differ, the source exists, the copy may be saved and
/// its name is free or may be replaced.
pub proof fn law_changes_are_refused_for_cause(
    profiles: Seq<ProfileView>,
    old_name: Seq<char>,
    new_name: Seq<char>,
    replace: bool,
    now: Seq<char>,
)
    ensures
        store::rename_error(profiles, old_name, new_name) is None <==> {
            &&& validation::name_error(old_name) is None
            &&& validation::name_error(new_name) is None
            &&& old_name != new_name
            &&& is_taken(profiles, old_name)
            &&& !is_taken(profiles, new_name)
        },
        store::delete_error(profiles, old_name) is None <==> validation::name_error(old_name)
            is None && is_taken(profiles, old_name),
        store::copy_error(profiles, old_name, new_name, replace, now) is None <==> {
            &&& validation::name_error(old_name) is None
            &&& validation::name_error(new_name) is None
            &&& old_name != new_name
            &&& is_taken(profiles, old_name)
            &&& validation::profile_error(
                store::copy_of(profiles, old_name, new_name, now),
            ) is None
            &&& replace || !is_taken(profiles, new_name)
        },
{
}

// ---------------------------------------------------------------------------
// Stamps and suggested names
// ---------------------------------------------------------------------------
/// A profile that takes the place of one of its name keeps when that was first saved;
/// one that does not keeps its own stamp, or gets the present one where it has none.
/// Either way it was last changed now, and nothing else of it changes.
pub proof fn law_stamps_keep_the_first_date(
    profiles: Seq<ProfileView>,
    profile: ProfileView,
    now: Seq<char>,
    i: int,
)
    requires
        0 <= i < profiles.len() ==> profiles[i].name == profile.name && forall|j: int|
            0 <= j < i ==> (#[trigger] profiles[j]).name != profile.name,
        !(0 <= i < profiles.len()) ==> !is_taken(profiles, profile.name),
    ensures
        ({
            let saved = store::stamped(profiles, profile, now);
            &&& saved.name == profile.name
            &&& saved.monitors == profile.monitors
            &&& saved.outputs == profile.outputs
            &&& saved.updated_at == now
            &&& 0 <= i < profiles.len() ==> saved.created_at == profiles[i].created_at
                && store::first_saved(profiles, profile.name, now) == profiles[i].created_at
            &&& !(0 <= i < profiles.len()) ==> store::first_saved(profiles, profile.name, now)
                == now && saved.created_at == (if text::trimmed(profile.created_at).len() == 0 {
                now
            } else {
                profile.created_at
            })
        }),
{
    store::lemma_position_of(profiles, profile.name);
    if let Some(k) = store::position_of(profiles, profile.name) {
        assert(profiles[k].name == profile.name);
        if 0 <= i < profiles.len() {
            if i < k {
                assert(profiles[i].name != profile.name);
            }
        }
    }
}

/// As many monitors are counted as on as one more than without one that is on.
pub proof fn law_lit_monitors_are_counted(
    monitors: Seq<crate::hyprland::monitor::MonitorView>,
    next: crate::hyprland::monitor::MonitorView,
)
    ensures
        store::enabled_count(monitors.push(next)) == store::enabled_count(monitors) + (
        if next.enabled {
            1int
        } else {
            0int
        }),
        store::enabled_count(seq![]) == 0,
{
    assert(monitors.push(next).drop_last() =~= monitors);
}

/// A layout with one monitor on is called that of a laptop, one with more that of a
/// desk, and the number of monitors that are on is part of the name; where none is on
/// all of them count.
pub proof fn law_suggested_names_tell_the_number(
    monitors: Seq<crate::hyprland::monitor::MonitorView>,
)
    ensures
        ({
            let lit = store::enabled_count(monitors) as int;
            let name = store::suggested_name(monitors);
            &&& lit == 1 ==> name == "laptop-"@ + text::int_text(1) + "-monitor"@
            &&& lit > 1 ==> name == "desk-"@ + text::int_text(lit) + "-monitors"@
            &&& lit == 0 && monitors.len() > 1 ==> name == "desk-"@ + text::int_text(
                monitors.len() as int,
            ) + "-monitors"@
        }),
{
    reveal_strlit("laptop");
    reveal_strlit("desk");
    reveal_strlit("-");
    reveal_strlit("monitor");
    reveal_strlit("monitors");
    reveal_strlit("laptop-");
    reveal_strlit("desk-");
    reveal_strlit("-monitor");
    reveal_strlit("-monitors");
    assert("laptop"@ + "-"@ =~= "laptop-"@);
    assert("desk"@ + "-"@ =~= "desk-"@);
    let lit = store::enabled_count(monitors) as int;
    let count = if lit == 0 {
        monitors.len() as int
    } else {
        lit
    };
    assert("laptop-"@ + text::int_text(count) + "-"@ + "monitor"@ =~= "laptop-"@ + text::int_text(
        count,
    ) + "-monitor"@);
    assert("desk-"@ + text::int_text(count) + "-"@ + "monitors"@ =~= "desk-"@ + text::int_text(
        count,
    ) + "-monitors"@);
}

} // verus!
