//! What is reported, and what is written out.
use vstd::prelude::*;

use crate::cli;
use crate::doctor;
use crate::doctor::{CheckView, DoctorSeverity, Surroundings};
use crate::hyprland::monitor;
use crate::hyprland::monitor::MonitorView;
use crate::lines;
use crate::profile::plan::{PlanView, WarningView};
use crate::profile::render;
use crate::profile::render_laws;
use crate::profile::store;
use crate::profile::store::ProfileView;
use crate::profile::validation;
use crate::sort;
use crate::text;

verus! {

// ---------------------------------------------------------------------------
// Findings
// ---------------------------------------------------------------------------
/// Some finding is of that severity.
pub open spec fn has_severity(checks: Seq<CheckView>, severity: DoctorSeverity) -> bool {
    exists|i: int| 0 <= i < checks.len() && (#[trigger] checks[i]).severity == severity
}

proof fn lemma_identity_warnings(monitors: Seq<MonitorView>, n: int)
    requires
        0 <= n <= monitors.len(),
    ensures
        forall|i: int|
            0 <= i < doctor::identity_warnings(monitors, n).len() ==> (
            #[trigger] doctor::identity_warnings(monitors, n)[i]).severity
                == DoctorSeverity::Warning,
        doctor::identity_warnings(monitors, n).len() > 0 <==> exists|k: int|
            0 <= k < n && (text::begins((#[trigger] monitors[k]).id, "output:"@) || text::holds(
                monitors[k].id,
                ":output:"@,
            )),
    decreases n,
{
    if n > 0 {
        lemma_identity_warnings(monitors, n - 1);
        assert(doctor::identity_warning(monitors[n - 1]) is Some <==> text::begins(
            monitors[n - 1].id,
            "output:"@,
        ) || text::holds(monitors[n - 1].id, ":output:"@));
    }
}

/// The identities are warned about exactly where one of them is made of a connector, and
/// said to be good otherwise.
pub proof fn law_connector_identities_are_warned_about(monitors: Seq<MonitorView>)
    ensures
        has_severity(doctor::identity_checks(monitors), DoctorSeverity::Warning) <==> exists|k: int|
            0 <= k < monitors.len() && (text::begins((#[trigger] monitors[k]).id, "output:"@)
                || text::holds(monitors[k].id, ":output:"@)),
        has_severity(doctor::identity_checks(monitors), DoctorSeverity::Good)
            <==> !has_severity(doctor::identity_checks(monitors), DoctorSeverity::Warning),
        !has_severity(doctor::identity_checks(monitors), DoctorSeverity::Error),
{
    let n = monitors.len() as int;
    lemma_identity_warnings(monitors, n);
    let checks = doctor::identity_checks(monitors);
    let warnings = doctor::identity_warnings(monitors, n);
    if warnings.len() > 0 {
        assert(checks[0].severity == DoctorSeverity::Warning);
    } else {
        assert(checks[0].severity == DoctorSeverity::Good);
    }
}

/// `profiles[p]` remembers its monitor `m` on another connector than the one that the
/// monitor with that identity hangs on now.
pub open spec fn is_stale(
    profiles: Seq<ProfileView>,
    monitors: Seq<MonitorView>,
    p: int,
    m: int,
    k: int,
) -> bool {
    &&& 0 <= p < profiles.len()
    &&& 0 <= m < profiles[p].monitors.len()
    &&& 0 <= k < monitors.len()
    &&& monitors[k].id == profiles[p].monitors[m].id
    &&& text::trimmed(profiles[p].monitors[m].name_hint).len() > 0
    &&& profiles[p].monitors[m].name_hint != monitors[k].output_name
}

proof fn lemma_monitor_with(monitors: Seq<MonitorView>, id: Seq<char>)
    ensures
        match doctor::monitor_with(monitors, id) {
            Some(found) => monitors.contains(found) && found.id == id,
            None => forall|k: int| 0 <= k < monitors.len() ==> (#[trigger] monitors[k]).id != id,
        },
    decreases monitors.len(),
{
    if monitors.len() > 0 {
        if monitors[0].id == id {
            assert(monitors.contains(monitors[0]));
        } else {
            let rest = monitors.drop_first();
            lemma_monitor_with(rest, id);
            match doctor::monitor_with(rest, id) {
                Some(found) => {
                    let j = choose|j: int| 0 <= j < rest.len() && rest[j] == found;
                    assert(monitors[j + 1] == found);
                },
                None => {
                    assert forall|k: int| 0 <= k < monitors.len() implies (
                    #[trigger] monitors[k]).id != id by {
                        if k > 0 {
                            assert(rest[k - 1] == monitors[k]);
                        }
                    }
                },
            }
        }
    }
}

/// No two monitors have one identity.
pub open spec fn told_apart(monitors: Seq<MonitorView>) -> bool {
    forall|i: int, j: int|
        0 <= i < j < monitors.len() ==> (#[trigger] monitors[i]).id != (#[trigger] monitors[j]).id
}

/// What is said of a remembered monitor, told by where it hangs now.
proof fn lemma_stale_message(
    profiles: Seq<ProfileView>,
    monitors: Seq<MonitorView>,
    p: int,
    m: int,
)
    requires
        told_apart(monitors),
        0 <= p < profiles.len(),
        0 <= m < profiles[p].monitors.len(),
    ensures
        doctor::stale_message(profiles[p].name, profiles[p].monitors[m], monitors) is Some
            <==> exists|k: int| #[trigger] is_stale(profiles, monitors, p, m, k),
{
    let id = profiles[p].monitors[m].id;
    lemma_monitor_with(monitors, id);
    match doctor::monitor_with(monitors, id) {
        Some(found) => {
            let j = choose|j: int| 0 <= j < monitors.len() && monitors[j] == found;
            if exists|k: int| #[trigger] is_stale(profiles, monitors, p, m, k) {
                let k = choose|k: int| #[trigger] is_stale(profiles, monitors, p, m, k);
                if k < j {
                    assert(monitors[k].id != monitors[j].id);
                } else if j < k {
                    assert(monitors[j].id != monitors[k].id);
                }
            }
            if doctor::stale_message(profiles[p].name, profiles[p].monitors[m], monitors) is Some {
                assert(is_stale(profiles, monitors, p, m, j));
            }
        },
        None => {},
    }
}

proof fn lemma_stale_in_profile(
    profiles: Seq<ProfileView>,
    monitors: Seq<MonitorView>,
    p: int,
    n: int,
)
    requires
        told_apart(monitors),
        0 <= p < profiles.len(),
        0 <= n <= profiles[p].monitors.len(),
    ensures
        doctor::stale_in_profile(profiles[p], monitors, n).len() > 0 <==> exists|m: int, k: int|
            m < n && #[trigger] is_stale(profiles, monitors, p, m, k),
    decreases n,
{
    if n > 0 {
        lemma_stale_in_profile(profiles, monitors, p, n - 1);
        lemma_stale_message(profiles, monitors, p, n - 1);
        if doctor::stale_message(profiles[p].name, profiles[p].monitors[n - 1], monitors) is Some {
            let k = choose|k: int| #[trigger] is_stale(profiles, monitors, p, n - 1, k);
            assert(is_stale(profiles, monitors, p, n - 1, k));
        } else if exists|m: int, k: int|
            m < n && #[trigger] is_stale(profiles, monitors, p, m, k) {
            let (m, k) = choose|m: int, k: int|
                m < n && #[trigger] is_stale(profiles, monitors, p, m, k);
            assert(m < n - 1);
        }
    }
}

proof fn lemma_stale_in_store(profiles: Seq<ProfileView>, monitors: Seq<MonitorView>, n: int)
    requires
        told_apart(monitors),
        0 <= n <= profiles.len(),
    ensures
        doctor::stale_in_store(profiles, monitors, n).len() > 0 <==> exists|
            p: int,
            m: int,
            k: int,
        |
            p < n && #[trigger] is_stale(profiles, monitors, p, m, k),
    decreases n,
{
    if n > 0 {
        let last = profiles[n - 1].monitors.len() as int;
        lemma_stale_in_store(profiles, monitors, n - 1);
        lemma_stale_in_profile(profiles, monitors, n - 1, last);
        if doctor::stale_in_profile(profiles[n - 1], monitors, last).len() > 0 {
            let (m, k) = choose|m: int, k: int|
                m < last && #[trigger] is_stale(profiles, monitors, n - 1, m, k);
            assert(is_stale(profiles, monitors, n - 1, m, k));
        } else if exists|p: int, m: int, k: int|
            p < n && #[trigger] is_stale(profiles, monitors, p, m, k) {
            let (p, m, k) = choose|p: int, m: int, k: int|
                p < n && #[trigger] is_stale(profiles, monitors, p, m, k);
            assert(p < n - 1);
        }
    }
}

proof fn lemma_repeats_leave_some(messages: Seq<Seq<char>>, n: int)
    requires
        0 <= n <= messages.len(),
    ensures
        n > 0 ==> doctor::without_repeats(messages, n).len() > 0,
        n <= 0 ==> doctor::without_repeats(messages, n).len() == 0,
    decreases n,
{
    if n > 1 {
        lemma_repeats_leave_some(messages, n - 1);
    }
}

/// Saved connectors are warned about exactly where a profile remembers a monitor on
/// another connector than the one that it hangs on now, and said to be good otherwise.
pub proof fn law_stale_connectors_are_warned_about(
    profiles: Seq<ProfileView>,
    monitors: Seq<MonitorView>,
)
    requires
        told_apart(monitors),
    ensures
        has_severity(doctor::stale_checks(profiles, monitors), DoctorSeverity::Warning)
            <==> exists|p: int, m: int, k: int| #[trigger]
            is_stale(profiles, monitors, p, m, k),
        has_severity(doctor::stale_checks(profiles, monitors), DoctorSeverity::Good)
            <==> !has_severity(doctor::stale_checks(profiles, monitors), DoctorSeverity::Warning),
        !has_severity(doctor::stale_checks(profiles, monitors), DoctorSeverity::Error),
{
    let n = profiles.len() as int;
    let said = doctor::stale_in_store(profiles, monitors, n);
    lemma_stale_in_store(profiles, monitors, n);
    sort::law_sorted::<String>(said);
    lemma_repeats_leave_some(sort::sorted::<String>(said), said.len() as int);
    let checks = doctor::stale_checks(profiles, monitors);
    if said.len() > 0 {
        assert(checks[0].severity == DoctorSeverity::Warning);
        let (p, m, k) = choose|p: int, m: int, k: int|
            p < n && #[trigger] is_stale(profiles, monitors, p, m, k);
        assert(is_stale(profiles, monitors, p, m, k));
    } else {
        assert(checks[0].severity == DoctorSeverity::Good);
        if exists|p: int, m: int, k: int| #[trigger] is_stale(profiles, monitors, p, m, k) {
            let (p, m, k) = choose|p: int, m: int, k: int| #[trigger]
                is_stale(profiles, monitors, p, m, k);
            assert(p < n);
        }
    }
}

/// A report holds an error exactly where the profiles, the settings or the monitors could
/// not be read.
pub proof fn law_errors_are_what_cannot_be_read(seen: Surroundings)
    ensures
        has_severity(doctor::all_checks(seen), DoctorSeverity::Error) <==> seen.store is Err
            || seen.config is Err || seen.monitors is Err,
{
    let checks = doctor::all_checks(seen);
    let places = doctor::place_checks(seen.paths@, seen.generated_exists);
    let found = doctor::monitor_checks(seen.monitors, seen.store);
    assert(places.len() == 5);
    assert(checks[8] == doctor::store_check(seen.store));
    assert(checks[9] == doctor::config_check(seen.config));
    assert forall|i: int| 10 <= i < checks.len() implies #[trigger] checks[i] == found[i - 10] by {}
    match seen.monitors {
        Err(error) => {
            assert(checks[10] == found[0]);
        },
        Ok(all) => {
            let monitors = monitor::views(all@);
            let identities = doctor::identity_checks(monitors);
            law_connector_identities_are_warned_about(monitors);
            let stale = match seen.store {
                Ok(kept) => doctor::stale_checks(kept@, monitors),
                Err(_) => seq![],
            };
            assert forall|i: int| 0 <= i < stale.len() implies (#[trigger] stale[i]).severity
                != DoctorSeverity::Error by {}
            assert forall|i: int| 0 <= i < found.len() implies (#[trigger] found[i]).severity
                != DoctorSeverity::Error by {
                if i == 0 {
                } else if i <= identities.len() {
                    assert(found[i] == identities[i - 1]);
                } else {
                    assert(found[i] == stale[i - 1 - identities.len()]);
                }
            }
        },
    }
}

// ---------------------------------------------------------------------------
// Exports
// ---------------------------------------------------------------------------
/// No command holds a character that ends it: neither a semicolon nor a line end.
pub proof fn law_commands_hold_no_separator(rules: Seq<Seq<char>>, i: int, k: int)
    requires
        render::batch_error(rules) is None || render::lua_error(rules) is None,
        0 <= i < rules.len(),
        0 <= k < rules[i].len(),
    ensures
        rules[i][k] != ';',
        rules[i][k] != '\n',
        rules[i][k] != '\r',
{
    render_laws::lemma_calls(rules, rules.len() as int);
    assert(render_laws::is_call(rules[i]));
    assert(rules[i].contains(rules[i][k]));
}

/// What is written out is the commands of the plan, one to a line and in their order. A
/// plan that would leave every output dark is not written out.
pub proof fn law_exports_are_the_commands(plan: PlanView)
    ensures
        plan.warnings.contains(WarningView::DisablesAllOutputs) ==> cli::exported(plan) is Err,
        cli::exported(plan) matches Ok(export) ==> {
            &&& export.profile_name == plan.profile_name
            &&& lines::parts(export.contents, '\n') == plan.rules
            &&& export.warnings is None <==> plan.warnings.len() == 0
        },
{
    if cli::exported(plan) is Ok {
        reveal_strlit("\n");
        assert("\n"@ =~= seq!['\n']);
        assert forall|i: int| 0 <= i < plan.rules.len() implies !(
        #[trigger] plan.rules[i]).contains('\n') by {
            render_laws::lemma_calls(plan.rules, plan.rules.len() as int);
            assert(render_laws::is_call(plan.rules[i]));
        }
        lines::law_joined_parts_come_apart(plan.rules, '\n');
    }
}

/// The profile that is found by a name bears that name and is one of those saved; none is
/// found exactly where none bears it or the name is no proper one.
pub proof fn law_named_profiles_bear_the_name(profiles: Seq<ProfileView>, name: Seq<char>)
    ensures
        cli::profile_named(profiles, name) matches Ok(found) ==> found.name == name
            && profiles.contains(found),
        cli::profile_named(profiles, name) is Err <==> validation::name_error(name) is Some
            || forall|i: int| 0 <= i < profiles.len() ==> (#[trigger] profiles[i]).name != name,
{
    store::lemma_position_of(profiles, name);
    if let Some(i) = store::position_of(profiles, name) {
        assert(profiles[i].name == name);
    }
}

} // verus!
