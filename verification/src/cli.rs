//! What the commands decide and say.
use vstd::prelude::*;

use crate::doctor;
use crate::doctor::{plural, CheckView, DoctorCheck, DoctorReport, DoctorSeverity, ReportView};
use crate::error;
use crate::error::Error;
use crate::hyprland::monitor;
use crate::hyprland::monitor::{MonitorState, MonitorView};
use crate::number;
use crate::profile::apply::{ApplyOutcome, OutcomeView};
use crate::profile::matching;
use crate::profile::matching::{
    best_profile_match, decide_auto_apply, format_auto_apply_decision, AutoApplyDecision,
    BestProfileMatch, DecisionView, MonitorMatchMode,
};
use crate::profile::plan;
use crate::profile::plan::{
    ensure_plan_safe_to_apply, plan_apply, plan_apply_automatic, ApplyPlan, PlanView, WarningView,
};
use crate::profile::render;
use crate::profile::render::{format_hyprctl_batch_command, render_hyprland_lua};
use crate::profile::store;
use crate::profile::store::{Profile, ProfileStore, ProfileView};
use crate::profile::transaction;
use crate::profile::transaction::auto_decision_error;
use crate::profile::validation;
use crate::profile::validation::validate_profile_name;
use crate::systemd::{SystemdInstallOptions, SystemdInstallResult};
use crate::text;

verus! {

/// What an optional name holds.
pub open spec fn named(name: Option<&str>) -> Option<Seq<char>> {
    match name {
        Some(name) => Some(name@),
        None => None,
    }
}

/// Escapes every control character.
pub fn sanitize_terminal_text(value: &str) -> (result: String)
    ensures
        result@ == text::sanitized(value@, false),
{
    text::sanitize_terminal_text(value)
}

// ---------------------------------------------------------------------------
// Lists and reports
// ---------------------------------------------------------------------------
/// A profile in one line.
pub open spec fn list_line(profile: ProfileView) -> Seq<char> {
    "\n- "@ + profile.name + " ("@ + text::int_text(profile.monitors.len() as int) + " monitor"@
        + doctor::plural_text(profile.monitors.len() as int) + ")"@
}

/// The first `n` profiles, one to a line.
pub open spec fn list_lines(profiles: Seq<ProfileView>, n: int) -> Seq<char>
    decreases n,
{
    if n <= 0 {
        seq![]
    } else {
        list_lines(profiles, n - 1) + list_line(profiles[n - 1])
    }
}

/// The saved profiles, in words.
pub open spec fn list_text(profiles: Seq<ProfileView>) -> Seq<char> {
    if profiles.len() == 0 {
        "No profiles saved yet."@
    } else {
        "Profiles: "@ + text::int_text(profiles.len() as int) + list_lines(
            profiles,
            profiles.len() as int,
        )
    }
}

/// The saved profiles, in words.
pub fn format_profile_list(store: &ProfileStore) -> (result: String)
    ensures
        result@ == list_text(store@),
{
    if store.profiles.len() == 0 {
        return "No profiles saved yet.".to_owned();
    }
    let mut result: String = "Profiles: ".to_owned().concat(
        text::decimal(store.profiles.len() as i128).as_str(),
    );
    let ghost heading = result@;
    let mut k: usize = 0;
    assert(result@ =~= heading + list_lines(store@, 0));
    while k < store.profiles.len()
        invariant
            k <= store.profiles@.len(),
            result@ == heading + list_lines(store@, k as int),
        decreases store.profiles@.len() - k,
    {
        let profile: &Profile = &store.profiles[k];
        assert(store@[k as int] == profile@);
        let line: String = "\n- ".to_owned().concat(profile.name.as_str()).concat(" (").concat(
            text::decimal(profile.monitors.len() as i128).as_str(),
        ).concat(" monitor").concat(plural(profile.monitors.len())).concat(")");
        result = result.concat(line.as_str());
        assert(result@ =~= heading + list_lines(store@, k + 1));
        k += 1;
    }
    result
}

/// The monitor number `index`, in words.
pub open spec fn monitor_text(monitor: MonitorView, index: int) -> Seq<char> {
    "\n\n"@ + text::int_text(index + 1) + ". "@ + text::sanitized(monitor.output_name, false)
        + "\n   id: "@ + text::sanitized(monitor.id, false) + "\n   description: "@
        + text::sanitized(monitor.description, false) + "\n   mode: "@ + text::int_text(
        monitor.width as int,
    ) + "x"@ + text::int_text(monitor.height as int) + "@"@ + number::short_decimal_text(
        monitor.refresh_rate,
    ) + "\n   position: "@ + text::int_text(monitor.x as int) + "x"@ + text::int_text(
        monitor.y as int,
    ) + "\n   scale: "@ + number::short_decimal_text(monitor.scale) + (if monitor.enabled {
        ""@
    } else {
        "\n   status: disabled"@
    })
}

/// The first `n` monitors, in words.
pub open spec fn monitor_texts(monitors: Seq<MonitorView>, n: int) -> Seq<char>
    decreases n,
{
    if n <= 0 {
        seq![]
    } else {
        monitor_texts(monitors, n - 1) + monitor_text(monitors[n - 1], n - 1)
    }
}

/// The connected monitors, in words.
pub open spec fn monitors_text(monitors: Seq<MonitorView>) -> Seq<char> {
    "Hyprland: detected\nMonitors: "@ + text::int_text(monitors.len() as int) + monitor_texts(
        monitors,
        monitors.len() as int,
    )
}

fn format_monitor(monitor: &MonitorState, index: usize) -> (result: String)
    ensures
        result@ == monitor_text(monitor@, index as int),
{
    let status: &str = if monitor.enabled {
        ""
    } else {
        "\n   status: disabled"
    };
    "\n\n".to_owned().concat(text::decimal(index as i128 + 1).as_str()).concat(". ").concat(
        text::sanitize_terminal_text(monitor.output_name.as_str()).as_str(),
    ).concat("\n   id: ").concat(
        text::sanitize_terminal_text(monitor.id.as_str()).as_str(),
    ).concat("\n   description: ").concat(
        text::sanitize_terminal_text(monitor.description.as_str()).as_str(),
    ).concat("\n   mode: ").concat(text::decimal(monitor.width as i128).as_str()).concat("x").concat(
        text::decimal(monitor.height as i128).as_str(),
    ).concat("@").concat(monitor.refresh_rate.short_text().as_str()).concat(
        "\n   position: ",
    ).concat(text::decimal(monitor.x as i128).as_str()).concat("x").concat(
        text::decimal(monitor.y as i128).as_str(),
    ).concat("\n   scale: ").concat(monitor.scale.short_text().as_str()).concat(status)
}

/// The connected monitors, in words.
pub fn format_doctor(monitors: &Vec<MonitorState>) -> (result: String)
    ensures
        result@ == monitors_text(monitor::views(monitors@)),
{
    let ghost all = monitor::views(monitors@);
    let mut result: String = "Hyprland: detected\nMonitors: ".to_owned().concat(
        text::decimal(monitors.len() as i128).as_str(),
    );
    let ghost heading = result@;
    let mut i: usize = 0;
    assert(result@ =~= heading + monitor_texts(all, 0));
    while i < monitors.len()
        invariant
            i <= monitors@.len(),
            all == monitor::views(monitors@),
            result@ == heading + monitor_texts(all, i as int),
        decreases monitors@.len() - i,
    {
        assert(all[i as int] == monitors@[i as int]@);
        result = result.concat(format_monitor(&monitors[i], i).as_str());
        assert(result@ =~= heading + monitor_texts(all, i + 1));
        i += 1;
    }
    result
}

/// The word for a severity.
pub open spec fn severity_text(severity: DoctorSeverity) -> Seq<char> {
    match severity {
        DoctorSeverity::Good => "ok"@,
        DoctorSeverity::Info => "info"@,
        DoctorSeverity::Warning => "warning"@,
        DoctorSeverity::Error => "error"@,
    }
}

fn format_doctor_severity(severity: DoctorSeverity) -> (result: &'static str)
    ensures
        result@ == severity_text(severity),
{
    match severity {
        DoctorSeverity::Good => "ok",
        DoctorSeverity::Info => "info",
        DoctorSeverity::Warning => "warning",
        DoctorSeverity::Error => "error",
    }
}

/// A finding in one line.
pub open spec fn check_line(check: CheckView) -> Seq<char> {
    "\n["@ + severity_text(check.severity) + "] "@ + text::sanitized(check.label, false) + ": "@
        + text::sanitized(check.message, false)
}

/// The first `n` findings, one to a line.
pub open spec fn check_lines(checks: Seq<CheckView>, n: int) -> Seq<char>
    decreases n,
{
    if n <= 0 {
        seq![]
    } else {
        check_lines(checks, n - 1) + check_line(checks[n - 1])
    }
}

/// A report, in words.
pub open spec fn report_text(report: ReportView) -> Seq<char> {
    "HyprDisJust doctor\n\nChecks:"@ + check_lines(report.checks, report.checks.len() as int)
        + "\n\n"@ + (if report.monitors.len() == 0 && !report.monitor_query_succeeded {
        "Hyprland: not detected\nMonitors: 0"@
    } else {
        monitors_text(report.monitors)
    }) + (match report.best_profile_summary {
        Some(summary) => "\n\n"@ + summary,
        None => ""@,
    })
}

/// A report, in words.
pub fn format_doctor_report(report: &DoctorReport) -> (result: String)
    ensures
        result@ == report_text(report@),
{
    let ghost all = report@.checks;
    let mut result: String = "HyprDisJust doctor\n\nChecks:".to_owned();
    let ghost heading = result@;
    let mut i: usize = 0;
    assert(result@ =~= heading + check_lines(all, 0));
    while i < report.checks.len()
        invariant
            i <= report.checks@.len(),
            all == doctor::check_views(report.checks@),
            result@ == heading + check_lines(all, i as int),
        decreases report.checks@.len() - i,
    {
        let check: &DoctorCheck = &report.checks[i];
        assert(all[i as int] == check@);
        let line: String = "\n[".to_owned().concat(format_doctor_severity(check.severity)).concat(
            "] ",
        ).concat(text::sanitize_terminal_text(check.label.as_str()).as_str()).concat(": ").concat(
            text::sanitize_terminal_text(check.message.as_str()).as_str(),
        );
        result = result.concat(line.as_str());
        assert(result@ =~= heading + check_lines(all, i + 1));
        i += 1;
    }
    let monitors: String = if report.monitors.len() == 0 && !report.monitor_query_succeeded {
        "Hyprland: not detected\nMonitors: 0".to_owned()
    } else {
        format_doctor(&report.monitors)
    };
    let summary: String = match &report.best_profile_summary {
        Some(summary) => "\n\n".to_owned().concat(summary.as_str()),
        None => "".to_owned(),
    };
    result.concat("\n\n").concat(monitors.as_str()).concat(summary.as_str())
}

// ---------------------------------------------------------------------------
// Plans and outcomes
// ---------------------------------------------------------------------------
/// The first `n` warnings, one to a line.
pub open spec fn warning_lines(warnings: Seq<WarningView>, n: int) -> Seq<char>
    decreases n,
{
    if n <= 0 {
        seq![]
    } else {
        warning_lines(warnings, n - 1) + "\n- "@ + warnings[n - 1].message()
    }
}

/// The warnings of a plan, in words.
pub open spec fn warnings_text(warnings: Seq<WarningView>) -> Seq<char> {
    "Warnings:"@ + warning_lines(warnings, warnings.len() as int)
}

/// The warnings of a plan, in words.
pub fn format_apply_warnings(plan: &ApplyPlan) -> (result: String)
    ensures
        result@ == warnings_text(plan@.warnings),
{
    let ghost all = plan@.warnings;
    let mut result: String = "Warnings:".to_owned();
    let ghost heading = result@;
    let mut i: usize = 0;
    assert(result@ =~= heading + warning_lines(all, 0));
    while i < plan.warnings.len()
        invariant
            i <= plan.warnings@.len(),
            all == plan::warning_views(plan.warnings@),
            result@ == heading + warning_lines(all, i as int),
        decreases plan.warnings@.len() - i,
    {
        assert(all[i as int] == plan.warnings@[i as int]@);
        result = result.concat("\n- ").concat(plan.warnings[i].message().as_str());
        assert(result@ =~= heading + warning_lines(all, i + 1));
        i += 1;
    }
    result
}

/// What a plan does, in words.
pub open spec fn operation_text(plan: PlanView) -> Seq<char> {
    match plan::unsafe_reason(plan) {
        Some(reason) => "refused: "@ + reason,
        None => if plan.is_noop {
            "no changes; the profile is already active"@
        } else {
            "apply the generated monitor batch"@
        },
    }
}

/// A plan, in words.
pub open spec fn commands_text(plan: PlanView) -> Seq<char> {
    "Profile: "@ + plan.profile_name + "\nOperation: "@ + operation_text(plan)
        + "\nGenerated command:\n"@ + ("hyprctl --batch "@ + render::shell_word(plan.batch)) + (
    if plan.warnings.len() == 0 {
        ""@
    } else {
        "\n"@ + warnings_text(plan.warnings)
    })
}

/// A plan, in words.
pub fn format_apply_commands(plan: &ApplyPlan) -> (result: String)
    ensures
        result@ == commands_text(plan@),
{
    let operation: String = match ensure_plan_safe_to_apply(plan) {
        Err(error) => "refused: ".to_owned().concat(error.message()),
        Ok(()) => if plan.is_noop {
            "no changes; the profile is already active".to_owned()
        } else {
            "apply the generated monitor batch".to_owned()
        },
    };
    let warnings: String = if plan.warnings.len() == 0 {
        "".to_owned()
    } else {
        "\n".to_owned().concat(format_apply_warnings(plan).as_str())
    };
    "Profile: ".to_owned().concat(plan.profile_name.as_str()).concat("\nOperation: ").concat(
        operation.as_str(),
    ).concat("\nGenerated command:\n").concat(
        format_hyprctl_batch_command(plan.batch.as_str()).as_str(),
    ).concat(warnings.as_str())
}

/// So many rules, in words.
pub open spec fn rules_text(count: int) -> Seq<char> {
    text::int_text(count) + " monitor rule"@ + doctor::plural_text(count)
}

/// How an application ended, in words.
pub open spec fn outcome_text(plan: PlanView, outcome: OutcomeView) -> Seq<char> {
    match outcome {
        OutcomeView::Noop => "No changes: profile `"@ + plan.profile_name + "` is already active."@,
        OutcomeView::Confirmed => "Confirmed profile `"@ + plan.profile_name + "` with "@
            + rules_text(plan.rules.len() as int) + "."@,
        OutcomeView::Unattended => "Applied profile `"@ + plan.profile_name + "` with "@
            + rules_text(plan.rules.len() as int) + " without confirmation (--unattended)."@,
        OutcomeView::RolledBack { reason } => "Profile `"@ + plan.profile_name
            + "` was not confirmed ("@ + reason + "); previous monitor layout restored."@,
    }
}

/// So many rules, in words.
pub fn count_rules(count: usize) -> (result: String)
    ensures
        result@ == rules_text(count as int),
{
    text::decimal(count as i128).concat(" monitor rule").concat(plural(count))
}

/// How an application ended, in words.
pub fn format_apply_outcome(plan: &ApplyPlan, outcome: &ApplyOutcome) -> (result: String)
    ensures
        result@ == outcome_text(plan@, outcome@),
{
    let name: &str = plan.profile_name.as_str();
    match outcome {
        ApplyOutcome::Noop => "No changes: profile `".to_owned().concat(name).concat(
            "` is already active.",
        ),
        ApplyOutcome::Confirmed => "Confirmed profile `".to_owned().concat(name).concat(
            "` with ",
        ).concat(count_rules(plan.rules.len()).as_str()).concat("."),
        ApplyOutcome::Unattended => "Applied profile `".to_owned().concat(name).concat(
            "` with ",
        ).concat(count_rules(plan.rules.len()).as_str()).concat(
            " without confirmation (--unattended).",
        ),
        ApplyOutcome::RolledBack { reason } => "Profile `".to_owned().concat(name).concat(
            "` was not confirmed (",
        ).concat(reason.as_str()).concat("); previous monitor layout restored."),
    }
}

// ---------------------------------------------------------------------------
// Decisions
// ---------------------------------------------------------------------------
/// What would be applied automatically, in words.
pub fn format_auto_apply_dry_run(
    best_match: &BestProfileMatch,
    store: &ProfileStore,
    fallback_profile: Option<&str>,
) -> (result: String)
    ensures
        result@ == dry_run_text(
            matching::decision(store@, best_match@, named(fallback_profile)),
        ),
{
    let decision: AutoApplyDecision = decide_auto_apply(store, best_match, fallback_profile);
    "Auto-apply dry run\n".to_owned().concat(
        format_auto_apply_decision(&decision, "Would select profile").as_str(),
    )
}

/// What would be applied automatically, in words.
pub open spec fn dry_run_text(decided: DecisionView) -> Seq<char> {
    "Auto-apply dry run\n"@ + matching::decision_text(decided, "Would select profile"@)
}

/// The best profile, in words, where any is saved.
pub fn format_best_profile_summary(
    best_match: &BestProfileMatch,
    store: &ProfileStore,
    fallback_profile: Option<&str>,
) -> (result: Option<String>)
    ensures
        match result {
            None => store@.len() == 0,
            Some(summary) => store@.len() > 0 && summary@ == matching::decision_text(
                matching::decision(store@, best_match@, named(fallback_profile)),
                "Best profile"@,
            ),
        },
{
    if store.profiles.len() == 0 {
        return None;
    }
    let decision: AutoApplyDecision = decide_auto_apply(store, best_match, fallback_profile);
    Some(format_auto_apply_decision(&decision, "Best profile"))
}

/// The profile called `name`, or why there is none.
pub open spec fn profile_named(profiles: Seq<ProfileView>, name: Seq<char>) -> Result<
    ProfileView,
    Seq<char>,
> {
    match validation::name_error(name) {
        Some(reason) => Err(reason),
        None => match store::position_of(profiles, name) {
            Some(i) => Ok(profiles[i]),
            None => Err(store::missing_text(name)),
        },
    }
}

/// What a reference to a profile holds, or a refusal.
pub open spec fn profile_found(result: Result<&Profile, Error>) -> Result<ProfileView, Seq<char>> {
    match result {
        Ok(profile) => Ok(profile@),
        Err(error) => Err(error@),
    }
}

/// The profile called `name`.
pub fn profile_by_name<'a>(store: &'a ProfileStore, name: &str) -> (result: Result<
    &'a Profile,
    Error,
>)
    ensures
        profile_found(result) == profile_named(store@, name@),
        error::plainly(result),
{
    match validate_profile_name(name) {
        Err(error) => {
            return Err(error);
        },
        Ok(_) => {},
    }
    match store.position(name) {
        Some(i) => {
            assert(store@[i as int] == store.profiles@[i as int]@);
            Ok(&store.profiles[i])
        },
        None => Err(
            Error::new("profile `".to_owned().concat(name).concat("` does not exist")),
        ),
    }
}

/// The profile that is applied automatically, or why there is none.
pub open spec fn auto_profile(profiles: Seq<ProfileView>, decided: DecisionView) -> Result<
    ProfileView,
    Seq<char>,
> {
    match decided {
        DecisionView::Apply { profile_name, .. } => profile_named(profiles, profile_name),
        _ => Err(transaction::decision_error(decided)),
    }
}

/// The profile that is applied automatically.
pub fn require_auto_profile<'a>(
    store: &'a ProfileStore,
    best_match: &BestProfileMatch,
    fallback_profile: Option<&str>,
) -> (result: Result<&'a Profile, Error>)
    ensures
        profile_found(result) == auto_profile(
            store@,
            matching::decision(store@, best_match@, named(fallback_profile)),
        ),
        error::plainly(result),
{
    let decision: AutoApplyDecision = decide_auto_apply(store, best_match, fallback_profile);
    match &decision {
        AutoApplyDecision::Apply { profile_name, .. } => profile_by_name(
            store,
            profile_name.as_str(),
        ),
        _ => Err(auto_decision_error(&decision)),
    }
}

/// What is to be applied.
#[derive(Debug, PartialEq, Eq)]
pub enum ApplyTarget {
    Named(String),
    Automatic,
}

/// What is to be applied, going by the arguments: either a name or the word
/// that asks for a choice.
pub fn apply_target(name: Option<String>, auto: bool) -> (result: Result<ApplyTarget, Error>)
    ensures
        match (name, auto) {
            (Some(_), true) => result matches Err(error) && error@
                == "pass either a profile name or --auto, not both"@,
            (Some(name), false) => result matches Ok(ApplyTarget::Named(kept)) && kept@ == name@,
            (None, true) => result matches Ok(target) && target is Automatic,
            (None, false) => result matches Err(error) && error@
                == "`apply` requires a profile name or --auto"@,
        },
        error::plainly(result),
{
    match name {
        Some(name) => if auto {
            Err(Error::new("pass either a profile name or --auto, not both".to_owned()))
        } else {
            Ok(ApplyTarget::Named(name))
        },
        None => if auto {
            Ok(ApplyTarget::Automatic)
        } else {
            Err(Error::new("`apply` requires a profile name or --auto".to_owned()))
        },
    }
}

/// `result` is what is said of the plan for `profile`, or why there is none.
pub open spec fn is_plan_text(
    result: Result<Seq<char>, Seq<char>>,
    profile: ProfileView,
    current: Seq<MonitorView>,
    mode: MonitorMatchMode,
) -> bool {
    exists|planned: Result<PlanView, Seq<char>>| #[trigger]
        plan::is_plan(planned, profile, current, mode) && result == (match planned {
            Ok(plan) => Ok(commands_text(plan)),
            Err(reason) => Err(reason),
        })
}

/// `result` is what is said of the plan for `profile`, where there is one, or
/// why nothing is.
pub open spec fn is_described(
    result: Result<Seq<char>, Seq<char>>,
    profile: Result<ProfileView, Seq<char>>,
    current: Seq<MonitorView>,
    mode: MonitorMatchMode,
) -> bool {
    match profile {
        Err(reason) => result == Err::<Seq<char>, _>(reason),
        Ok(profile) => is_plan_text(result, profile, current, mode),
    }
}

/// `error` tells why nothing is planned for `profile`.
pub open spec fn is_told(
    error: Error,
    profile: Result<ProfileView, Seq<char>>,
    current: Seq<MonitorView>,
    mode: MonitorMatchMode,
) -> bool {
    match profile {
        Err(reason) => error@ == reason && error.head() == reason,
        Ok(profile) => plan::is_refusal(error@, error.head(), profile, current, mode),
    }
}

/// What applying the profile `name` would do, in words.
pub fn describe_named_apply(store: &ProfileStore, name: &str, monitors: &Vec<MonitorState>) -> (result:
    Result<String, Error>)
    requires
        plan::plannable(monitors@.len()),
    ensures
        is_described(
            error::outcome(result),
            profile_named(store@, name@),
            monitor::views(monitors@),
            MonitorMatchMode::Explicit,
        ),
        result matches Err(error) ==> is_told(
            error,
            profile_named(store@, name@),
            monitor::views(monitors@),
            MonitorMatchMode::Explicit,
        ),
        result matches Err(error) ==> error.head() == error@ || is_told(
            error,
            profile_named(store@, name@),
            monitor::views(monitors@),
            MonitorMatchMode::Explicit,
        ),
{
    let profile: &Profile = match profile_by_name(store, name) {
        Ok(profile) => profile,
        Err(error) => {
            return Err(error);
        },
    };
    let planned: Result<ApplyPlan, Error> = plan_apply(profile, monitors);
    let ghost view = error::outcome(planned);
    assert(plan::is_plan(
        view,
        profile@,
        monitor::views(monitors@),
        MonitorMatchMode::Explicit,
    ));
    let result: Result<String, Error> = match planned {
        Ok(plan) => Ok(format_apply_commands(&plan)),
        Err(error) => Err(error),
    };
    assert(is_plan_text(
        error::outcome(result),
        profile@,
        monitor::views(monitors@),
        MonitorMatchMode::Explicit,
    ));
    result
}

/// `result` is what is said of an automatic choice that was decided.
pub open spec fn is_auto_description(
    result: Result<Seq<char>, Seq<char>>,
    profiles: Seq<ProfileView>,
    current: Seq<MonitorView>,
    decided: DecisionView,
) -> bool {
    match decided {
        DecisionView::Apply { profile_name, .. } => exists|
            described: Result<Seq<char>, Seq<char>>,
        | #[trigger]
            is_described(
                described,
                profile_named(profiles, profile_name),
                current,
                MonitorMatchMode::Automatic,
            ) && result == (match described {
                Ok(commands) => Ok(dry_run_text(decided) + "\n\n"@ + commands),
                Err(reason) => Err(reason),
            }),
        _ => result == Ok::<_, Seq<char>>(dry_run_text(decided) + "\n\nCommands: none"@),
    }
}

/// `result` is what is said of an automatic choice.
pub open spec fn is_dry_run(
    result: Result<Seq<char>, Seq<char>>,
    profiles: Seq<ProfileView>,
    current: Seq<MonitorView>,
    fallback: Option<Seq<char>>,
) -> bool {
    exists|decided: DecisionView| #[trigger]
        matching::is_decision(decided, profiles, current, fallback) && is_auto_description(
            result,
            profiles,
            current,
            decided,
        )
}

fn plan_by_name(store: &ProfileStore, name: &str, monitors: &Vec<MonitorState>) -> (result: Result<
    String,
    Error,
>)
    requires
        plan::plannable(monitors@.len()),
    ensures
        is_described(
            error::outcome(result),
            profile_named(store@, name@),
            monitor::views(monitors@),
            MonitorMatchMode::Automatic,
        ),
        result matches Err(error) ==> is_told(
            error,
            profile_named(store@, name@),
            monitor::views(monitors@),
            MonitorMatchMode::Automatic,
        ),
{
    let profile: &Profile = match profile_by_name(store, name) {
        Ok(profile) => profile,
        Err(error) => {
            return Err(error);
        },
    };
    let planned: Result<ApplyPlan, Error> = plan_apply_automatic(profile, monitors);
    let ghost view = error::outcome(planned);
    assert(plan::is_plan(
        view,
        profile@,
        monitor::views(monitors@),
        MonitorMatchMode::Automatic,
    ));
    let result: Result<String, Error> = match planned {
        Ok(plan) => Ok(format_apply_commands(&plan)),
        Err(error) => Err(error),
    };
    assert(is_plan_text(
        error::outcome(result),
        profile@,
        monitor::views(monitors@),
        MonitorMatchMode::Automatic,
    ));
    result
}

/// What applying automatically would do, in words.
pub fn describe_auto_apply(
    store: &ProfileStore,
    monitors: &Vec<MonitorState>,
    fallback_profile: Option<&str>,
) -> (result: Result<String, Error>)
    requires
        matching::all_countable(store@, monitors@.len()),
        plan::plannable(monitors@.len()),
    ensures
        is_dry_run(
            error::outcome(result),
            store@,
            monitor::views(monitors@),
            named(fallback_profile),
        ),
        result matches Err(error) ==> exists|decided: DecisionView| #[trigger]
            matching::is_decision(
                decided,
                store@,
                monitor::views(monitors@),
                named(fallback_profile),
            ) && is_told(
                error,
                auto_profile(store@, decided),
                monitor::views(monitors@),
                MonitorMatchMode::Automatic,
            ),
{
    let best: BestProfileMatch = best_profile_match(store, monitors);
    let told: String = format_auto_apply_dry_run(&best, store, fallback_profile);
    let decision: AutoApplyDecision = decide_auto_apply(store, &best, fallback_profile);
    assert(matching::is_decision(
        decision@,
        store@,
        monitor::views(monitors@),
        named(fallback_profile),
    ));
    match decision.profile_name() {
        None => Ok(told.concat("\n\nCommands: none")),
        Some(profile_name) => {
            let described: Result<String, Error> = plan_by_name(store, profile_name, monitors);
            let ghost view = error::outcome(described);
            assert(is_described(
                view,
                profile_named(store@, profile_name@),
                monitor::views(monitors@),
                MonitorMatchMode::Automatic,
            ));
            match described {
                Ok(commands) => Ok(told.concat("\n\n").concat(commands.as_str())),
                Err(error) => Err(error),
            }
        },
    }
}

// ---------------------------------------------------------------------------
// Exporting
// ---------------------------------------------------------------------------
/// What is written for the compositor to read.
#[derive(Debug, PartialEq, Eq)]
pub struct Export {
    pub profile_name: String,
    /// What is said first.
    pub warnings: Option<String>,
    pub contents: String,
}

/// What an [`Export`] holds.
#[verifier::ext_equal]
pub struct ExportView {
    pub profile_name: Seq<char>,
    pub warnings: Option<Seq<char>>,
    pub contents: Seq<char>,
}

impl View for Export {
    type V = ExportView;

    open spec fn view(&self) -> ExportView {
        ExportView {
            profile_name: self.profile_name@,
            warnings: match self.warnings {
                Some(warnings) => Some(warnings@),
                None => None,
            },
            contents: self.contents@,
        }
    }
}

/// What is written for a plan, or why nothing is.
pub open spec fn exported(plan: PlanView) -> Result<ExportView, Seq<char>> {
    if plan::unsafe_reason(plan) is Some {
        Err(plan::unsafe_reason(plan)->0)
    } else if render::lua_error(plan.rules) is Some {
        Err(render::lua_error(plan.rules)->0)
    } else {
        Ok(
            ExportView {
                profile_name: plan.profile_name,
                warnings: if plan.warnings.len() == 0 {
                    None
                } else {
                    Some(warnings_text(plan.warnings))
                },
                contents: text::joined(plan.rules, "\n"@),
            },
        )
    }
}

/// What is written for a plan.
pub fn export_plan(plan: &ApplyPlan) -> (result: Result<Export, Error>)
    ensures
        error::outcome(result) == exported(plan@),
        error::plainly(result),
{
    match ensure_plan_safe_to_apply(plan) {
        Err(error) => {
            return Err(error);
        },
        Ok(()) => {},
    }
    let warnings: Option<String> = if plan.warnings.len() == 0 {
        None
    } else {
        Some(format_apply_warnings(plan))
    };
    match render_hyprland_lua(&plan.rules) {
        Err(error) => Err(error),
        Ok(contents) => Ok(
            Export { profile_name: plan.profile_name.clone(), warnings, contents },
        ),
    }
}

/// `result` is what is written for the plan for `profile`, or why nothing is.
pub open spec fn is_plan_export(
    result: Result<ExportView, Seq<char>>,
    profile: ProfileView,
    current: Seq<MonitorView>,
    mode: MonitorMatchMode,
) -> bool {
    exists|planned: Result<PlanView, Seq<char>>| #[trigger]
        plan::is_plan(planned, profile, current, mode) && result == (match planned {
            Ok(plan) => exported(plan),
            Err(reason) => Err(reason),
        })
}

/// `result` is what is written for `profile`, where there is one, or why
/// nothing is.
pub open spec fn is_profile_export(
    result: Result<ExportView, Seq<char>>,
    profile: Result<ProfileView, Seq<char>>,
    current: Seq<MonitorView>,
    mode: MonitorMatchMode,
) -> bool {
    match profile {
        Err(reason) => result == Err::<ExportView, _>(reason),
        Ok(profile) => is_plan_export(result, profile, current, mode),
    }
}

/// What is written for the profile `name`.
pub fn export_named(store: &ProfileStore, name: &str, monitors: &Vec<MonitorState>) -> (result:
    Result<Export, Error>)
    requires
        plan::plannable(monitors@.len()),
    ensures
        is_profile_export(
            error::outcome(result),
            profile_named(store@, name@),
            monitor::views(monitors@),
            MonitorMatchMode::Explicit,
        ),
{
    let profile: &Profile = match profile_by_name(store, name) {
        Ok(profile) => profile,
        Err(error) => {
            return Err(error);
        },
    };
    let planned: Result<ApplyPlan, Error> = plan_apply(profile, monitors);
    let ghost view = error::outcome(planned);
    assert(plan::is_plan(
        view,
        profile@,
        monitor::views(monitors@),
        MonitorMatchMode::Explicit,
    ));
    let result: Result<Export, Error> = match planned {
        Ok(plan) => export_plan(&plan),
        Err(error) => Err(error),
    };
    assert(is_plan_export(
        error::outcome(result),
        profile@,
        monitor::views(monitors@),
        MonitorMatchMode::Explicit,
    ));
    result
}

/// What is written for the profile that is chosen automatically.
pub fn export_automatic(
    store: &ProfileStore,
    monitors: &Vec<MonitorState>,
    fallback_profile: Option<&str>,
) -> (result: Result<Export, Error>)
    requires
        matching::all_countable(store@, monitors@.len()),
        plan::plannable(monitors@.len()),
    ensures
        exists|decided: DecisionView| #[trigger]
            matching::is_decision(
                decided,
                store@,
                monitor::views(monitors@),
                named(fallback_profile),
            ) && is_profile_export(
                error::outcome(result),
                auto_profile(store@, decided),
                monitor::views(monitors@),
                MonitorMatchMode::Automatic,
            ) && (result matches Err(error) ==> error.head() == error@ || is_told(
                error,
                auto_profile(store@, decided),
                monitor::views(monitors@),
                MonitorMatchMode::Automatic,
            )),
{
    let best: BestProfileMatch = best_profile_match(store, monitors);
    let ghost decided = matching::decision(store@, best@, named(fallback_profile));
    assert(matching::is_decision(
        decided,
        store@,
        monitor::views(monitors@),
        named(fallback_profile),
    ));
    let profile: &Profile = match require_auto_profile(store, &best, fallback_profile) {
        Ok(profile) => profile,
        Err(error) => {
            return Err(error);
        },
    };
    let planned: Result<ApplyPlan, Error> = plan_apply_automatic(profile, monitors);
    let ghost view = error::outcome(planned);
    assert(plan::is_plan(
        view,
        profile@,
        monitor::views(monitors@),
        MonitorMatchMode::Automatic,
    ));
    let result: Result<Export, Error> = match planned {
        Ok(plan) => export_plan(&plan),
        Err(error) => Err(error),
    };
    assert(is_plan_export(
        error::outcome(result),
        profile@,
        monitor::views(monitors@),
        MonitorMatchMode::Automatic,
    ));
    result
}

// ---------------------------------------------------------------------------
// Messages
// ---------------------------------------------------------------------------
/// What is said of a layout that was saved.
pub fn saved_message(name: &str, monitors: usize) -> (result: String)
    ensures
        result@ == "Saved profile `"@ + name@ + "` with "@ + text::int_text(monitors as int)
            + " monitor"@ + doctor::plural_text(monitors as int) + "."@,
{
    "Saved profile `".to_owned().concat(name).concat("` with ").concat(
        text::decimal(monitors as i128).as_str(),
    ).concat(" monitor").concat(plural(monitors)).concat(".")
}

/// Whether an answer agrees to a deletion.
pub fn agrees(answer: &str) -> (result: bool)
    ensures
        result == (text::trimmed(answer@) == "yes"@),
{
    text::same(text::trim(answer), "yes")
}

/// What a request to delete asks for.
#[derive(Debug, Clone, Copy, PartialEq, Eq, Structural)]
pub enum DeleteStep {
    Delete,
    /// The user is asked first.
    Ask,
}

/// Why a profile is not deleted, nor asked about.
pub open spec fn delete_error(name: Seq<char>, yes: bool, interactive: bool) -> Option<Seq<char>> {
    match validation::name_error(name) {
        Some(reason) => Some(reason),
        None => if !yes && !interactive {
            Some("delete requires --yes when stdin is not an interactive terminal"@)
        } else {
            None
        },
    }
}

/// What a request to delete asks for: nothing is deleted unless the user agreed
/// beforehand or can be asked.
pub fn delete_step(name: &str, yes: bool, interactive: bool) -> (result: Result<DeleteStep, Error>)
    ensures
        error::refused_as(result, delete_error(name@, yes, interactive)),
        result matches Ok(step) ==> step == (if yes {
            DeleteStep::Delete
        } else {
            DeleteStep::Ask
        }),
{
    match validate_profile_name(name) {
        Err(error) => {
            return Err(error);
        },
        Ok(_) => {},
    }
    if yes {
        Ok(DeleteStep::Delete)
    } else if interactive {
        Ok(DeleteStep::Ask)
    } else {
        Err(
            Error::new(
                "delete requires --yes when stdin is not an interactive terminal".to_owned(),
            ),
        )
    }
}

/// What is said of an installation, one message after the other.
pub open spec fn install_texts(
    result: SystemdInstallResult,
    options: SystemdInstallOptions,
) -> Seq<Seq<char>> {
    if options.dry_run {
        seq![
            "Would write systemd user service to "@ + result.service_path@ + ":\n"@
                + result.service_contents@,
        ]
    } else {
        seq!["Installed systemd user service at "@ + result.service_path@ + "."@] + (
        if options.unattended {
            seq![]
        } else {
            seq![
                "Safety: service installed without --unattended; it will refuse changed layouts because no confirmation terminal is available."@,
            ]
        }) + (if result.enabled {
            seq!["Enabled hyprdisjust.service."@]
        } else {
            seq![]
        }) + (if result.started {
            seq!["Started hyprdisjust.service."@]
        } else {
            seq![]
        })
    }
}

/// What is said of an installation, one message after the other.
pub fn install_messages(done: &SystemdInstallResult, options: SystemdInstallOptions) -> (result: Vec<
    String,
>)
    ensures
        text::texts(result@) == install_texts(*done, options),
{
    let mut messages: Vec<String> = Vec::new();
    if options.dry_run {
        messages.push(
            "Would write systemd user service to ".to_owned().concat(
                done.service_path.as_str(),
            ).concat(":\n").concat(done.service_contents.as_str()),
        );
        assert(text::texts(messages@) =~= install_texts(*done, options));
        return messages;
    }
    messages.push(
        "Installed systemd user service at ".to_owned().concat(done.service_path.as_str()).concat(
            ".",
        ),
    );
    if !options.unattended {
        messages.push(
            "Safety: service installed without --unattended; it will refuse changed layouts because no confirmation terminal is available.".to_owned(),
        );
    }
    if done.enabled {
        messages.push("Enabled hyprdisjust.service.".to_owned());
    }
    if done.started {
        messages.push("Started hyprdisjust.service.".to_owned());
    }
    assert(text::texts(messages@) =~= install_texts(*done, options));
    messages
}

} // verus!
