//! What holds of every accepted profile, and what every change to a store keeps.
use vstd::prelude::*;

use crate::profile::store;
use crate::profile::store::{Profile, ProfileMonitorView, ProfileOutputView, ProfileView};
use crate::profile::validation;
use crate::profile::validation::{MAX_COORDINATE, MAX_MONITORS_PER_PROFILE, MAX_PROFILES};
use crate::sort;
use crate::text;

verus! {

// ---------------------------------------------------------------------------
// Accepted profiles
// ---------------------------------------------------------------------------
/// A monitor that a profile may remember.
pub open spec fn valid_monitor(monitor: ProfileMonitorView) -> bool {
    &&& validation::identifier_error(monitor.id, "monitor id"@) is None
    &&& !text::has_control(monitor.name_hint)
    &&& !text::has_control(monitor.description)
    &&& !text::has_control(monitor.make)
    &&& !text::has_control(monitor.model)
    &&& !text::has_control(monitor.serial)
    &&& monitor.physical_width >= 0
    &&& monitor.physical_height >= 0
}

/// An output that a profile which remembers `monitors` may set.
pub open spec fn valid_output(
    output: ProfileOutputView,
    monitors: Seq<ProfileMonitorView>,
) -> bool {
    &&& validation::identifier_error(output.monitor_id, "output monitor id"@) is None
    &&& validation::known_ids(monitors).contains(output.monitor_id)
    &&& validation::mode_allowed(output.mode)
    &&& validation::scale_allowed(output.scale)
    &&& 0 <= output.transform <= 7
    &&& -MAX_COORDINATE <= output.x <= MAX_COORDINATE
    &&& -MAX_COORDINATE <= output.y <= MAX_COORDINATE
    &&& validation::parsed_mode(output.mode) matches Some((width, height, _))
        ==> validation::whole_pixels(width, output.scale) && validation::whole_pixels(
        height,
        output.scale,
    )
}

/// A profile with a proper name, at least one monitor, and exactly one proper
/// output for each monitor.
pub open spec fn valid_profile(profile: ProfileView) -> bool {
    &&& validation::name_error(profile.name) is None
    &&& 0 < profile.monitors.len() <= MAX_MONITORS_PER_PROFILE
    &&& 0 < profile.outputs.len() <= MAX_MONITORS_PER_PROFILE
    &&& validation::known_ids(profile.monitors).no_duplicates()
    &&& forall|i: int|
        0 <= i < profile.monitors.len() ==> valid_monitor(#[trigger] profile.monitors[i])
    &&& validation::output_ids(profile.outputs).no_duplicates()
    &&& forall|i: int|
        0 <= i < profile.outputs.len() ==> valid_output(
            #[trigger] profile.outputs[i],
            profile.monitors,
        )
    &&& forall|i: int|
        0 <= i < profile.monitors.len() ==> validation::output_ids(profile.outputs).contains(
            (#[trigger] profile.monitors[i]).id,
        )
}

proof fn lemma_monitors_error(name: Seq<char>, monitors: Seq<ProfileMonitorView>, n: int)
    requires
        0 <= n <= monitors.len(),
    ensures
        validation::monitors_error(name, monitors, n) is None <==> forall|i: int|
            0 <= i < n ==> (#[trigger] validation::monitor_error(name, monitors, i)) is None,
    decreases n,
{
    if n > 0 {
        lemma_monitors_error(name, monitors, n - 1);
        if validation::monitors_error(name, monitors, n) is None {
            assert forall|i: int| 0 <= i < n implies (#[trigger] validation::monitor_error(
                name,
                monitors,
                i,
            )) is None by {
                if i == n - 1 {
                }
            }
        }
    }
}

/// The output at `i` is refused neither for itself nor as a repetition.
spec fn output_passes(profile: ProfileView, i: int) -> bool {
    &&& validation::output_error(profile.name, profile.outputs[i], profile.monitors) is None
    &&& !validation::output_ids(profile.outputs.take(i)).contains(profile.outputs[i].monitor_id)
}

proof fn lemma_outputs_error(profile: ProfileView, n: int)
    requires
        0 <= n <= profile.outputs.len(),
    ensures
        validation::outputs_error(profile, n) is None <==> forall|i: int|
            0 <= i < n ==> #[trigger] output_passes(profile, i),
    decreases n,
{
    if n > 0 {
        lemma_outputs_error(profile, n - 1);
        if validation::outputs_error(profile, n) is None {
            assert forall|i: int| 0 <= i < n implies #[trigger] output_passes(profile, i) by {
                if i == n - 1 {
                }
            }
        } else if forall|i: int| 0 <= i < n ==> #[trigger] output_passes(profile, i) {
            assert(output_passes(profile, n - 1));
        }
    }
}

proof fn lemma_missing_output_error(profile: ProfileView, n: int)
    requires
        0 <= n <= profile.monitors.len(),
    ensures
        validation::missing_output_error(profile, n) is None <==> forall|i: int|
            0 <= i < n ==> validation::output_ids(profile.outputs).contains(
                (#[trigger] profile.monitors[i]).id,
            ),
    decreases n,
{
    if n > 0 {
        lemma_missing_output_error(profile, n - 1);
        if validation::missing_output_error(profile, n) is None {
            assert forall|i: int| 0 <= i < n implies validation::output_ids(
                profile.outputs,
            ).contains((#[trigger] profile.monitors[i]).id) by {
                if i == n - 1 {
                }
            }
        } else if forall|i: int|
            0 <= i < n ==> validation::output_ids(profile.outputs).contains(
                (#[trigger] profile.monitors[i]).id,
            ) {
            assert(validation::output_ids(profile.outputs).contains(profile.monitors[n - 1].id));
        }
    }
}

/// A list repeats nothing exactly when none of its values occurs before it.
proof fn lemma_no_earlier(all: Seq<Seq<char>>)
    ensures
        all.no_duplicates() <==> forall|i: int|
            0 <= i < all.len() ==> !(#[trigger] all.take(i)).contains(all[i]),
{
    if all.no_duplicates() {
        assert forall|i: int| 0 <= i < all.len() implies !(#[trigger] all.take(i)).contains(
            all[i],
        ) by {
            if all.take(i).contains(all[i]) {
                let j = choose|j: int| 0 <= j < i && all.take(i)[j] == all[i];
                assert(all[j] == all[i]);
            }
        }
    } else {
        let (i, j) = choose|i: int, j: int|
            0 <= i < j < all.len() && all[i] == all[j];
        assert(exists|i: int, j: int| 0 <= i < j < all.len() && all[i] == all[j]) by {
            let (p, q) = choose|p: int, q: int|
                0 <= p < all.len() && 0 <= q < all.len() && p != q && all[p] == all[q];
            if p < q {
                assert(all[p] == all[q]);
            } else {
                assert(all[q] == all[p]);
            }
        }
        assert(all.take(j)[i] == all[j]);
        assert(all.take(j).contains(all[j]));
    }
}

/// A profile is accepted exactly when it is valid.
pub proof fn law_accepted_profiles_are_valid(profile: ProfileView)
    ensures
        validation::profile_error(profile) is None <==> valid_profile(profile),
{
    let monitors = profile.monitors;
    let outputs = profile.outputs;
    let ids = validation::known_ids(monitors);
    let targets = validation::output_ids(outputs);
    lemma_monitors_error(profile.name, monitors, monitors.len() as int);
    lemma_outputs_error(profile, outputs.len() as int);
    lemma_missing_output_error(profile, monitors.len() as int);
    lemma_no_earlier(ids);
    lemma_no_earlier(targets);
    assert forall|i: int| 0 <= i < monitors.len() implies validation::known_ids(
        #[trigger] monitors.take(i),
    ) == ids.take(i) by {
        assert(validation::known_ids(monitors.take(i)) =~= ids.take(i));
    }
    assert forall|i: int| 0 <= i < outputs.len() implies validation::output_ids(
        #[trigger] outputs.take(i),
    ) == targets.take(i) by {
        assert(validation::output_ids(outputs.take(i)) =~= targets.take(i));
    }
    assert forall|i: int| 0 <= i < monitors.len() implies ((#[trigger] validation::monitor_error(
        profile.name,
        monitors,
        i,
    )) is None <==> valid_monitor(monitors[i]) && !ids.take(i).contains(ids[i])) by {
        assert(validation::known_ids(monitors.take(i)) == ids.take(i));
        assert(ids[i] == monitors[i].id);
    }
    assert forall|i: int| 0 <= i < outputs.len() implies (#[trigger] output_passes(profile, i)
        <==> valid_output(outputs[i], monitors) && !targets.take(i).contains(targets[i])) by {
        assert(validation::output_ids(outputs.take(i)) == targets.take(i));
        assert(targets[i] == outputs[i].monitor_id);
    }
    if valid_profile(profile) {
        assert forall|i: int| 0 <= i < monitors.len() implies (#[trigger] validation::monitor_error(
            profile.name,
            monitors,
            i,
        )) is None by {
            assert(valid_monitor(monitors[i]));
            assert(!ids.take(i).contains(ids[i]));
        }
        assert forall|i: int| 0 <= i < outputs.len() implies #[trigger] output_passes(
            profile,
            i,
        ) by {
            assert(valid_output(outputs[i], monitors));
            assert(!targets.take(i).contains(targets[i]));
        }
    }
    if validation::profile_error(profile) is None {
        assert forall|i: int| 0 <= i < monitors.len() implies valid_monitor(
            #[trigger] monitors[i],
        ) by {
            assert(validation::monitor_error(profile.name, monitors, i) is None);
        }
        assert forall|i: int| 0 <= i < ids.len() implies !(#[trigger] ids.take(i)).contains(
            ids[i],
        ) by {
            assert(validation::monitor_error(profile.name, monitors, i) is None);
        }
        assert forall|i: int| 0 <= i < outputs.len() implies valid_output(
            #[trigger] outputs[i],
            monitors,
        ) by {
            assert(output_passes(profile, i));
        }
        assert forall|i: int| 0 <= i < targets.len() implies !(#[trigger] targets.take(
            i,
        )).contains(targets[i]) by {
            assert(output_passes(profile, i));
        }
    }
}

/// At most so many valid profiles, no two of one name.
pub open spec fn valid_store(profiles: Seq<ProfileView>) -> bool {
    &&& profiles.len() <= MAX_PROFILES
    &&& validation::names_of(profiles).no_duplicates()
    &&& forall|i: int| 0 <= i < profiles.len() ==> valid_profile(#[trigger] profiles[i])
}

/// The name at `i` is refused neither for itself nor as a repetition.
spec fn name_passes(profiles: Seq<ProfileView>, i: int) -> bool {
    &&& validation::name_error(profiles[i].name) is None
    &&& !validation::names_of(profiles.take(i)).contains(profiles[i].name)
}

proof fn lemma_names_error(profiles: Seq<ProfileView>, n: int)
    requires
        0 <= n <= profiles.len(),
    ensures
        validation::names_error(profiles, n) is None <==> forall|i: int|
            0 <= i < n ==> #[trigger] name_passes(profiles, i),
    decreases n,
{
    if n > 0 {
        lemma_names_error(profiles, n - 1);
        if validation::names_error(profiles, n) is None {
            assert forall|i: int| 0 <= i < n implies #[trigger] name_passes(profiles, i) by {
                if i == n - 1 {
                }
            }
        } else if forall|i: int| 0 <= i < n ==> #[trigger] name_passes(profiles, i) {
            assert(name_passes(profiles, n - 1));
        }
    }
}

proof fn lemma_profiles_error(profiles: Seq<ProfileView>, n: int)
    requires
        0 <= n <= profiles.len(),
    ensures
        validation::profiles_error(profiles, n) is None <==> forall|i: int|
            0 <= i < n ==> validation::profile_error(#[trigger] profiles[i]) is None,
    decreases n,
{
    if n > 0 {
        lemma_profiles_error(profiles, n - 1);
        if validation::profiles_error(profiles, n) is None {
            assert forall|i: int| 0 <= i < n implies validation::profile_error(
                #[trigger] profiles[i],
            ) is None by {
                if i == n - 1 {
                }
            }
        } else if forall|i: int|
            0 <= i < n ==> validation::profile_error(#[trigger] profiles[i]) is None {
            assert(validation::profile_error(profiles[n - 1]) is None);
        }
    }
}

/// A store is accepted exactly when it is valid.
pub proof fn law_accepted_stores_are_valid(profiles: Seq<ProfileView>)
    ensures
        validation::store_error(profiles) is None <==> valid_store(profiles),
{
    let names = validation::names_of(profiles);
    lemma_names_error(profiles, profiles.len() as int);
    lemma_profiles_error(profiles, profiles.len() as int);
    lemma_no_earlier(names);
    assert forall|i: int| 0 <= i < profiles.len() implies validation::names_of(
        #[trigger] profiles.take(i),
    ) == names.take(i) by {
        assert(validation::names_of(profiles.take(i)) =~= names.take(i));
    }
    assert forall|i: int| 0 <= i < profiles.len() implies (#[trigger] validation::profile_error(
        profiles[i],
    ) is None <==> valid_profile(profiles[i])) by {
        law_accepted_profiles_are_valid(profiles[i]);
    }
    if valid_store(profiles) {
        assert forall|i: int| 0 <= i < profiles.len() implies #[trigger] name_passes(
            profiles,
            i,
        ) by {
            assert(valid_profile(profiles[i]));
            assert(names[i] == profiles[i].name);
            assert(validation::names_of(profiles.take(i)) == names.take(i));
            assert(!names.take(i).contains(names[i]));
        }
        assert forall|i: int| 0 <= i < profiles.len() implies validation::profile_error(
            #[trigger] profiles[i],
        ) is None by {
            assert(valid_profile(profiles[i]));
        }
    }
    if validation::store_error(profiles) is None {
        assert forall|i: int| 0 <= i < names.len() implies !(#[trigger] names.take(i)).contains(
            names[i],
        ) by {
            assert(name_passes(profiles, i));
            assert(names[i] == profiles[i].name);
            assert(validation::names_of(profiles.take(i)) == names.take(i));
        }
        assert forall|i: int| 0 <= i < profiles.len() implies valid_profile(
            #[trigger] profiles[i],
        ) by {
            assert(validation::profile_error(profiles[i]) is None);
        }
    }
}

// ---------------------------------------------------------------------------
// Changes
// ---------------------------------------------------------------------------
proof fn lemma_names_rank()
    ensures
        sort::ranks::<Profile>(),
{
    assert forall|a: ProfileView| !#[trigger] <Profile as sort::Ranked>::ahead(a, a) by {
        text::lemma_precedes_order(a.name, a.name, a.name);
    }
    assert forall|a: ProfileView, b: ProfileView, c: ProfileView| #[trigger]
        <Profile as sort::Ranked>::ahead(a, b) && #[trigger] <Profile as sort::Ranked>::ahead(
            b,
            c,
        ) implies <Profile as sort::Ranked>::ahead(a, c) by {
        text::lemma_precedes_order(a.name, b.name, c.name);
    }
    assert forall|a: ProfileView, b: ProfileView, c: ProfileView| !#[trigger]
        <Profile as sort::Ranked>::ahead(a, b) && !#[trigger] <Profile as sort::Ranked>::ahead(
            b,
            c,
        ) implies !<Profile as sort::Ranked>::ahead(a, c) by {
        text::lemma_precedes_order(a.name, b.name, c.name);
        text::lemma_precedes_order(c.name, b.name, a.name);
        text::lemma_precedes_order(b.name, c.name, a.name);
        text::lemma_precedes_order(c.name, a.name, b.name);
        text::lemma_precedes_order(a.name, c.name, b.name);
    }
}

/// Rearranging a valid store leaves it valid.
proof fn lemma_rearranged(before: Seq<ProfileView>, after: Seq<ProfileView>)
    requires
        valid_store(before),
        before.len() == after.len(),
        before.to_multiset() == after.to_multiset(),
    ensures
        valid_store(after),
{
    broadcast use vstd::seq_lib::group_to_multiset_ensures;

    let names_before = validation::names_of(before);
    let names_after = validation::names_of(after);
    assert(before.no_duplicates()) by {
        assert forall|i: int, j: int| 0 <= i < before.len() && 0 <= j < before.len() && i
            != j implies before[i] != before[j] by {
            assert(names_before[i] != names_before[j]);
        }
    }
    before.lemma_multiset_has_no_duplicates();
    after.lemma_multiset_has_no_duplicates_conv();
    assert forall|i: int| 0 <= i < after.len() implies before.contains(#[trigger] after[i]) by {
        assert(after.contains(after[i]));
        assert(after.to_multiset().count(after[i]) > 0);
        assert(before.to_multiset().count(after[i]) > 0);
    }
    assert forall|i: int| 0 <= i < after.len() implies valid_profile(#[trigger] after[i]) by {
        assert(before.contains(after[i]));
        let k = choose|k: int| 0 <= k < before.len() && before[k] == after[i];
        assert(valid_profile(before[k]));
    }
    assert forall|i: int, j: int| 0 <= i < after.len() && 0 <= j < after.len() && i
        != j implies names_after[i] != names_after[j] by {
        assert(before.contains(after[i]));
        assert(before.contains(after[j]));
        let p = choose|p: int| 0 <= p < before.len() && before[p] == after[i];
        let q = choose|q: int| 0 <= q < before.len() && before[q] == after[j];
        assert(after[i] != after[j]);
        assert(p != q);
        assert(names_before[p] != names_before[q]);
    }
}

/// A valid store in the order of names.
pub open spec fn proper_store(profiles: Seq<ProfileView>) -> bool {
    valid_store(profiles) && sort::in_order::<Profile>(profiles)
}

proof fn lemma_sorted_is_proper(profiles: Seq<ProfileView>)
    requires
        valid_store(profiles),
    ensures
        proper_store(sort::sorted::<Profile>(profiles)),
{
    lemma_names_rank();
    sort::law_sorted::<Profile>(profiles);
    lemma_rearranged(profiles, sort::sorted::<Profile>(profiles));
}

/// Saving a valid profile in a valid store that has its name, or room for it,
/// leaves a valid store in order, which holds the profile.
pub proof fn law_saving_keeps_a_store_valid(profiles: Seq<ProfileView>, profile: ProfileView)
    requires
        valid_store(profiles),
        valid_profile(profile),
        store::has_name(profiles, profile.name) || profiles.len() < MAX_PROFILES,
    ensures
        proper_store(store::stored(profiles, profile)),
        store::stored(profiles, profile).contains(profile),
{
    broadcast use vstd::seq_lib::group_to_multiset_ensures;

    store::lemma_position_of(profiles, profile.name);
    let changed = match store::position_of(profiles, profile.name) {
        Some(i) => profiles.update(i, profile),
        None => profiles.push(profile),
    };
    let names = validation::names_of(profiles);
    let changed_names = validation::names_of(changed);
    assert forall|i: int, j: int| 0 <= i < changed.len() && 0 <= j < changed.len() && i
        != j implies changed_names[i] != changed_names[j] by {
        if i < profiles.len() && j < profiles.len() {
            assert(names[i] != names[j]);
            assert(changed_names[i] == names[i]);
            assert(changed_names[j] == names[j]);
        } else if i < profiles.len() {
            assert(profiles[i].name != profile.name);
        } else {
            assert(profiles[j].name != profile.name);
        }
    }
    assert forall|i: int| 0 <= i < changed.len() implies valid_profile(#[trigger] changed[i]) by {
        if i < profiles.len() && changed[i] != profile {
            assert(changed[i] == profiles[i]);
        }
    }
    lemma_sorted_is_proper(changed);
    sort::law_sorted::<Profile>(changed);
    let at = match store::position_of(profiles, profile.name) {
        Some(i) => i,
        None => profiles.len() as int,
    };
    assert(changed[at] == profile);
    assert(changed.contains(profile));
    assert(changed.to_multiset().count(profile) > 0);
    assert(sort::sorted::<Profile>(changed).to_multiset().count(profile) > 0);
}

/// Renaming in a valid store leaves a valid store in order.
pub proof fn law_renaming_keeps_a_store_valid(
    profiles: Seq<ProfileView>,
    old_name: Seq<char>,
    new_name: Seq<char>,
    now: Seq<char>,
)
    requires
        valid_store(profiles),
        store::rename_error(profiles, old_name, new_name) is None,
    ensures
        proper_store(store::renamed(profiles, old_name, new_name, now)),
        store::has_name(store::renamed(profiles, old_name, new_name, now), new_name),
        !store::has_name(store::renamed(profiles, old_name, new_name, now), old_name),
{
    broadcast use vstd::seq_lib::group_to_multiset_ensures;

    store::lemma_position_of(profiles, old_name);
    let at = store::position_of(profiles, old_name)->0;
    let moved = ProfileView { name: new_name, updated_at: now, ..profiles[at] };
    let changed = profiles.update(at, moved);
    let names = validation::names_of(profiles);
    let changed_names = validation::names_of(changed);
    assert(valid_profile(profiles[at]));
    assert(valid_profile(moved)) by {
        assert forall|i: int| 0 <= i < moved.monitors.len() implies valid_monitor(
            #[trigger] moved.monitors[i],
        ) by {
            assert(valid_monitor(profiles[at].monitors[i]));
        }
    }
    assert forall|i: int, j: int| 0 <= i < changed.len() && 0 <= j < changed.len() && i
        != j implies changed_names[i] != changed_names[j] by {
        assert(names[i] != names[j]);
        if i == at {
            assert(profiles[j].name != new_name);
        } else if j == at {
            assert(profiles[i].name != new_name);
        }
    }
    assert forall|i: int| 0 <= i < changed.len() implies valid_profile(#[trigger] changed[i]) by {
        if i != at {
            assert(changed[i] == profiles[i]);
        }
    }
    lemma_sorted_is_proper(changed);
    sort::law_sorted::<Profile>(changed);
    let result = sort::sorted::<Profile>(changed);
    assert(changed[at] == moved);
    assert(changed.contains(moved));
    assert(changed.to_multiset().count(moved) > 0);
    assert(result.to_multiset().count(moved) > 0);
    assert(result.contains(moved));
    let k = choose|k: int| 0 <= k < result.len() && result[k] == moved;
    assert(result[k].name == new_name);
    if store::has_name(result, old_name) {
        let i = choose|i: int| 0 <= i < result.len() && (#[trigger] result[i]).name == old_name;
        assert(result.contains(result[i]));
        assert(result.to_multiset().count(result[i]) > 0);
        assert(changed.to_multiset().count(result[i]) > 0);
        assert(changed.contains(result[i]));
        let j = choose|j: int| 0 <= j < changed.len() && changed[j] == result[i];
        if j != at {
            assert(names[j] != names[at]);
            assert(changed[j] == profiles[j]);
        }
    }
}

/// Deleting from a valid store leaves a valid store without the name, and one
/// in order where it was in order.
pub proof fn law_deleting_keeps_a_store_valid(profiles: Seq<ProfileView>, name: Seq<char>)
    requires
        valid_store(profiles),
        store::has_name(profiles, name),
    ensures
        ({
            let rest = profiles.remove(store::position_of(profiles, name)->0);
            &&& valid_store(rest)
            &&& sort::in_order::<Profile>(profiles) ==> sort::in_order::<Profile>(rest)
            &&& !store::has_name(rest, name)
            &&& forall|other: Seq<char>|
                other != name ==> store::has_name(profiles, other) == #[trigger] store::has_name(
                    rest,
                    other,
                )
        }),
{
    store::lemma_position_of(profiles, name);
    let at = store::position_of(profiles, name)->0;
    let rest = profiles.remove(at);
    let names = validation::names_of(profiles);
    let rest_names = validation::names_of(rest);
    assert forall|i: int| 0 <= i < rest.len() implies #[trigger] rest[i] == profiles[if i < at {
        i
    } else {
        i + 1
    }] by {}
    assert forall|i: int, j: int| 0 <= i < rest.len() && 0 <= j < rest.len() && i
        != j implies rest_names[i] != rest_names[j] by {
        let p = if i < at { i } else { i + 1 };
        let q = if j < at { j } else { j + 1 };
        assert(names[p] != names[q]);
    }
    assert forall|i: int| 0 <= i < rest.len() implies valid_profile(#[trigger] rest[i]) by {
        let p = if i < at { i } else { i + 1 };
        assert(valid_profile(profiles[p]));
    }
    if sort::in_order::<Profile>(profiles) {
        assert forall|i: int, j: int| 0 <= i < j < rest.len() implies !<Profile as sort::Ranked>::ahead(
            #[trigger] rest[j],
            #[trigger] rest[i],
        ) by {
            let p = if i < at { i } else { i + 1 };
            let q = if j < at { j } else { j + 1 };
            assert(rest[i] == profiles[p]);
            assert(rest[j] == profiles[q]);
        }
    }
    assert(!store::has_name(rest, name)) by {
        if store::has_name(rest, name) {
            let i = choose|i: int| 0 <= i < rest.len() && (#[trigger] rest[i]).name == name;
            let p = if i < at { i } else { i + 1 };
            assert(names[p] != names[at]);
        }
    }
    assert forall|other: Seq<char>| other != name implies store::has_name(profiles, other)
        == #[trigger] store::has_name(rest, other) by {
        if store::has_name(profiles, other) {
            let i = choose|i: int| 0 <= i < profiles.len() && (#[trigger] profiles[i]).name
                == other;
            let p = if i < at { i } else { i - 1 };
            assert(rest[p].name == other);
        }
        if store::has_name(rest, other) {
            let i = choose|i: int| 0 <= i < rest.len() && (#[trigger] rest[i]).name == other;
            let p = if i < at { i } else { i + 1 };
            assert(profiles[p].name == other);
        }
    }
}

/// The copy of a profile differs from it in the name and the stamps alone, and
/// in a valid store is itself valid.
pub proof fn law_copies_are_faithful(
    profiles: Seq<ProfileView>,
    source: Seq<char>,
    destination: Seq<char>,
    now: Seq<char>,
)
    requires
        valid_store(profiles),
        store::has_name(profiles, source),
        validation::name_error(destination) is None,
    ensures
        ({
            let original = profiles[store::position_of(profiles, source)->0];
            let copy = store::stamped(
                profiles,
                store::copy_of(profiles, source, destination, now),
                now,
            );
            &&& original.name == source
            &&& copy.name == destination
            &&& copy.monitors == original.monitors
            &&& copy.outputs == original.outputs
            &&& valid_profile(copy)
        }),
{
    store::lemma_position_of(profiles, source);
    let at = store::position_of(profiles, source)->0;
    assert(valid_profile(profiles[at]));
    let copy = store::stamped(profiles, store::copy_of(profiles, source, destination, now), now);
    assert forall|i: int| 0 <= i < copy.monitors.len() implies valid_monitor(
        #[trigger] copy.monitors[i],
    ) by {
        assert(valid_monitor(profiles[at].monitors[i]));
    }
}

/// A copy was first saved and last changed when it was made, unless it takes the place of
/// a profile, whose first date it keeps.
pub proof fn law_copies_are_stamped(
    profiles: Seq<ProfileView>,
    source: Seq<char>,
    destination: Seq<char>,
    now: Seq<char>,
    i: int,
)
    requires
        valid_store(profiles),
        store::has_name(profiles, source),
    ensures
        ({
            let copy = store::stamped(
                profiles,
                store::copy_of(profiles, source, destination, now),
                now,
            );
            &&& copy.updated_at == now
            &&& !store::has_name(profiles, destination) ==> copy.created_at == now
            &&& 0 <= i < profiles.len() && profiles[i].name == destination ==> copy.created_at
                == profiles[i].created_at
        }),
{
    store::lemma_position_of(profiles, destination);
    if 0 <= i < profiles.len() && profiles[i].name == destination {
        let at = store::position_of(profiles, destination)->0;
        assert(profiles[at].name == profiles[i].name);
        let names = validation::names_of(profiles);
        assert(names[at] == names[i]);
        assert(at == i);
    }
}

proof fn lemma_sorting_keeps_members(profiles: Seq<ProfileView>, member: ProfileView)
    ensures
        profiles.contains(member) <==> sort::sorted::<Profile>(profiles).contains(member),
{
    broadcast use vstd::seq_lib::group_to_multiset_ensures;

    lemma_names_rank();
    sort::law_sorted::<Profile>(profiles);
    let sorted = sort::sorted::<Profile>(profiles);
    assert(profiles.contains(member) <==> profiles.to_multiset().count(member) > 0);
    assert(sorted.contains(member) <==> sorted.to_multiset().count(member) > 0);
}

/// Saving a profile leaves the profiles of other names as they are, and adds
/// none.
pub proof fn law_saving_keeps_other_profiles(
    profiles: Seq<ProfileView>,
    profile: ProfileView,
    other: ProfileView,
)
    requires
        other.name != profile.name,
    ensures
        profiles.contains(other) <==> store::stored(profiles, profile).contains(other),
{
    store::lemma_position_of(profiles, profile.name);
    let changed = match store::position_of(profiles, profile.name) {
        Some(i) => profiles.update(i, profile),
        None => profiles.push(profile),
    };
    if profiles.contains(other) {
        let i = choose|i: int| 0 <= i < profiles.len() && profiles[i] == other;
        assert(changed[i] == other);
    }
    if changed.contains(other) {
        let i = choose|i: int| 0 <= i < changed.len() && changed[i] == other;
        assert(i < profiles.len() && profiles[i] == other);
    }
    lemma_sorting_keeps_members(changed, other);
}

/// Renaming a profile changes nothing of it but its name and when it was last
/// changed, leaves the profiles of other names as they are, and adds none.
pub proof fn law_renaming_keeps_profiles(
    profiles: Seq<ProfileView>,
    old_name: Seq<char>,
    new_name: Seq<char>,
    now: Seq<char>,
    other: ProfileView,
)
    requires
        store::rename_error(profiles, old_name, new_name) is None,
        other.name != old_name,
        other.name != new_name,
    ensures
        profiles.contains(other) <==> store::renamed(profiles, old_name, new_name, now).contains(
            other,
        ),
        store::renamed(profiles, old_name, new_name, now).contains(
            (ProfileView {
                name: new_name,
                updated_at: now,
                ..profiles[store::position_of(profiles, old_name)->0]
            }),
        ),
{
    store::lemma_position_of(profiles, old_name);
    let at = store::position_of(profiles, old_name)->0;
    let moved = ProfileView { name: new_name, updated_at: now, ..profiles[at] };
    let changed = profiles.update(at, moved);
    if profiles.contains(other) {
        let i = choose|i: int| 0 <= i < profiles.len() && profiles[i] == other;
        assert(changed[i] == other);
    }
    if changed.contains(other) {
        let i = choose|i: int| 0 <= i < changed.len() && changed[i] == other;
        assert(profiles[i] == other);
    }
    lemma_sorting_keeps_members(changed, other);
    assert(changed[at] == moved);
    lemma_sorting_keeps_members(changed, moved);
}

/// Deleting a profile leaves the profiles of other names as they are, and adds
/// none.
pub proof fn law_deleting_keeps_other_profiles(
    profiles: Seq<ProfileView>,
    name: Seq<char>,
    other: ProfileView,
)
    requires
        store::has_name(profiles, name),
        other.name != name,
    ensures
        profiles.contains(other) <==> profiles.remove(
            store::position_of(profiles, name)->0,
        ).contains(other),
{
    store::lemma_position_of(profiles, name);
    let at = store::position_of(profiles, name)->0;
    let rest = profiles.remove(at);
    if profiles.contains(other) {
        let i = choose|i: int| 0 <= i < profiles.len() && profiles[i] == other;
        let p = if i < at { i } else { i - 1 };
        assert(rest[p] == other);
    }
    if rest.contains(other) {
        let i = choose|i: int| 0 <= i < rest.len() && rest[i] == other;
        let p = if i < at { i } else { i + 1 };
        assert(profiles[p] == other);
    }
}

} // verus!
