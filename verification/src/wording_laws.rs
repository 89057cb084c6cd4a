//! What is told to the user.
use vstd::prelude::*;

use crate::cli;
use crate::daemon;
use crate::doctor;
use crate::doctor::{DoctorSeverity, ReportView};
use crate::hyprland::monitor::MonitorView;
use crate::number;
use crate::profile::apply;
use crate::profile::apply::OutcomeView;
use crate::profile::matching;
use crate::profile::matching::{DecisionView, MatchConfidence};
use crate::profile::plan;
use crate::profile::plan::{PlanView, WarningView};
use crate::profile::render;
use crate::profile::store::ProfileView;
use crate::service_laws;
use crate::systemd::{SystemdInstallOptions, SystemdInstallResult};
use crate::text;

verus! {

proof fn lemma_holds_within(s: Seq<char>, before: Seq<char>, part: Seq<char>, after: Seq<char>)
    requires
        s == before + part + after,
    ensures
        text::holds(s, part),
{
    service_laws::lemma_holds(before, part, after);
}

/// What holds a part still does with something around it.
proof fn lemma_held_around(before: Seq<char>, s: Seq<char>, after: Seq<char>, part: Seq<char>)
    requires
        text::holds(s, part),
    ensures
        text::holds(before + s + after, part),
{
    let i = choose|i: int|
        0 <= i <= s.len() - part.len() && #[trigger] s.subrange(i, i + part.len()) == part;
    let all = before + s + after;
    let at = before.len() + i;
    assert(all.subrange(at, at + part.len()) =~= s.subrange(i, i + part.len()));
}

// ---------------------------------------------------------------------------
// Words
// ---------------------------------------------------------------------------
/// One is told from many.
pub proof fn law_only_one_is_not_many(count: int)
    ensures
        doctor::plural_text(count) == (if count == 1 {
            Seq::<char>::empty()
        } else {
            seq!['s']
        }),
{
    reveal_strlit("");
    reveal_strlit("s");
    assert(""@ =~= Seq::<char>::empty());
    assert("s"@ =~= seq!['s']);
}

/// Different severities, different confidences and different truths have different words.
pub proof fn law_words_tell_apart(
    a: DoctorSeverity,
    b: DoctorSeverity,
    c: MatchConfidence,
    d: MatchConfidence,
    p: bool,
    q: bool,
)
    ensures
        cli::severity_text(a) == cli::severity_text(b) <==> a == b,
        c.word() == d.word() <==> c == d,
        plan::bool_text(p) == plan::bool_text(q) <==> p == q,
        cli::severity_text(DoctorSeverity::Error) == "error"@,
        cli::severity_text(DoctorSeverity::Warning) == "warning"@,
        plan::bool_text(true) == "true"@,
{
    reveal_strlit("ok");
    reveal_strlit("info");
    reveal_strlit("warning");
    reveal_strlit("error");
    reveal_strlit("exact");
    reveal_strlit("high");
    reveal_strlit("partial");
    reveal_strlit("ambiguous");
    reveal_strlit("none");
    reveal_strlit("true");
    reveal_strlit("false");
    assert("ok"@.len() == 2 && "info"@.len() == 4 && "warning"@.len() == 7 && "error"@.len() == 5);
    assert("exact"@.len() == 5 && "partial"@.len() == 7 && "ambiguous"@.len() == 9);
    assert("high"@[0] == 'h' && "none"@[0] == 'n' && "high"@.len() == 4 && "none"@.len() == 4);
    assert("true"@.len() == 4 && "false"@.len() == 5);
}

// ---------------------------------------------------------------------------
// Lists
// ---------------------------------------------------------------------------
proof fn lemma_list_lines(profiles: Seq<ProfileView>, n: int, i: int)
    requires
        0 <= i < n <= profiles.len(),
    ensures
        text::holds(
            cli::list_lines(profiles, n),
            "\n- "@ + profiles[i].name + " ("@ + text::int_text(profiles[i].monitors.len() as int)
                + " monitor"@,
        ),
    decreases n,
{
    let part = "\n- "@ + profiles[i].name + " ("@ + text::int_text(
        profiles[i].monitors.len() as int,
    ) + " monitor"@;
    let before = cli::list_lines(profiles, n - 1);
    let line = cli::list_line(profiles[n - 1]);
    if i == n - 1 {
        let rest = doctor::plural_text(profiles[i].monitors.len() as int) + ")"@;
        assert(before + line =~= before + part + rest);
        lemma_holds_within(before + line, before, part, rest);
    } else {
        lemma_list_lines(profiles, n - 1, i);
        lemma_held_around(seq![], before, line, part);
        assert(Seq::<char>::empty() + before + line =~= before + line);
    }
}

/// The list of profiles has a line for every one, with its name and the number of its
/// monitors.
pub proof fn law_lists_name_every_profile(profiles: Seq<ProfileView>, i: int)
    requires
        0 <= i < profiles.len(),
    ensures
        text::holds(
            cli::list_text(profiles),
            "\n- "@ + profiles[i].name + " ("@ + text::int_text(profiles[i].monitors.len() as int)
                + " monitor"@,
        ),
{
    let part = "\n- "@ + profiles[i].name + " ("@ + text::int_text(
        profiles[i].monitors.len() as int,
    ) + " monitor"@;
    let n = profiles.len() as int;
    lemma_list_lines(profiles, n, i);
    let head = "Profiles: "@ + text::int_text(n);
    lemma_held_around(head, cli::list_lines(profiles, n), seq![], part);
    assert(head + cli::list_lines(profiles, n) + Seq::<char>::empty() =~= head + cli::list_lines(
        profiles,
        n,
    ));
}

proof fn lemma_check_lines(report: ReportView, n: int, i: int)
    requires
        0 <= i < n <= report.checks.len(),
    ensures
        text::holds(cli::check_lines(report.checks, n), cli::check_line(report.checks[i])),
    decreases n,
{
    let before = cli::check_lines(report.checks, n - 1);
    let line = cli::check_line(report.checks[n - 1]);
    let none = Seq::<char>::empty();
    if i == n - 1 {
        assert(before + line =~= before + line + none);
        lemma_holds_within(before + line, before, line, none);
    } else {
        lemma_check_lines(report, n - 1, i);
        lemma_held_around(none, before, line, cli::check_line(report.checks[i]));
        assert(none + before + line =~= before + line);
    }
}

/// A report tells every finding on a line, with its severity, its label and its message.
pub proof fn law_reports_tell_every_finding(report: ReportView, i: int)
    requires
        0 <= i < report.checks.len(),
    ensures
        text::holds(
            cli::report_text(report),
            "\n["@ + cli::severity_text(report.checks[i].severity) + "] "@ + text::sanitized(
                report.checks[i].label,
                false,
            ) + ": "@ + text::sanitized(report.checks[i].message, false),
        ),
{
    let n = report.checks.len() as int;
    let head = "HyprDisJust doctor\n\nChecks:"@;
    let lines = cli::check_lines(report.checks, n);
    let monitors = if report.monitors.len() == 0 && !report.monitor_query_succeeded {
        "Hyprland: not detected\nMonitors: 0"@
    } else {
        cli::monitors_text(report.monitors)
    };
    let summary = match report.best_profile_summary {
        Some(summary) => "\n\n"@ + summary,
        None => ""@,
    };
    let tail = "\n\n"@ + monitors + summary;
    lemma_check_lines(report, n, i);
    lemma_held_around(head, lines, tail, cli::check_line(report.checks[i]));
    assert(cli::report_text(report) =~= head + lines + tail);
}

proof fn lemma_monitor_texts(monitors: Seq<MonitorView>, n: int, i: int)
    requires
        0 <= i < n <= monitors.len(),
    ensures
        text::holds(cli::monitor_texts(monitors, n), cli::monitor_text(monitors[i], i)),
    decreases n,
{
    let before = cli::monitor_texts(monitors, n - 1);
    let line = cli::monitor_text(monitors[n - 1], n - 1);
    let none = Seq::<char>::empty();
    if i == n - 1 {
        assert(before + line =~= before + line + none);
        lemma_holds_within(before + line, before, line, none);
    } else {
        lemma_monitor_texts(monitors, n - 1, i);
        lemma_held_around(none, before, line, cli::monitor_text(monitors[i], i));
        assert(none + before + line =~= before + line);
    }
}

/// What is told of the monitors tells of every one its place and its scale, and that it is
/// off exactly where it is.
pub proof fn law_every_monitor_is_told(monitors: Seq<MonitorView>, i: int)
    requires
        0 <= i < monitors.len(),
    ensures
        text::holds(
            cli::monitors_text(monitors),
            "\n   position: "@ + text::int_text(monitors[i].x as int) + "x"@ + text::int_text(
                monitors[i].y as int,
            ) + "\n   scale: "@ + number::short_decimal_text(monitors[i].scale),
        ),
        text::ends(cli::monitor_text(monitors[i], i), "\n   status: disabled"@)
            || monitors[i].enabled,
{
    let monitor = monitors[i];
    let part = "\n   position: "@ + text::int_text(monitor.x as int) + "x"@ + text::int_text(
        monitor.y as int,
    ) + "\n   scale: "@ + number::short_decimal_text(monitor.scale);
    let head = "\n\n"@ + text::int_text(i + 1) + ". "@ + text::sanitized(
        monitor.output_name,
        false,
    ) + "\n   id: "@ + text::sanitized(monitor.id, false) + "\n   description: "@
        + text::sanitized(monitor.description, false) + "\n   mode: "@ + text::int_text(
        monitor.width as int,
    ) + "x"@ + text::int_text(monitor.height as int) + "@"@ + number::short_decimal_text(
        monitor.refresh_rate,
    );
    let tail = if monitor.enabled {
        ""@
    } else {
        "\n   status: disabled"@
    };
    let one = cli::monitor_text(monitor, i);
    assert(one =~= head + part + tail);
    lemma_holds_within(one, head, part, tail);
    assert(!monitor.enabled ==> one.skip(one.len() - tail.len()) =~= tail);
    let n = monitors.len() as int;
    lemma_monitor_texts(monitors, n, i);
    let all = cli::monitor_texts(monitors, n);
    let at = choose|at: int|
        0 <= at <= all.len() - one.len() && #[trigger] all.subrange(at, at + one.len()) == one;
    let front = all.take(at);
    let back = all.skip(at + one.len());
    assert(all =~= front + one + back);
    lemma_held_around(front, one, back, part);
    let title = "Hyprland: detected\nMonitors: "@ + text::int_text(n);
    lemma_held_around(title, all, Seq::<char>::empty(), part);
    assert(title + all + Seq::<char>::empty() =~= title + all);
}

// ---------------------------------------------------------------------------
// Plans
// ---------------------------------------------------------------------------
/// A warning of an overlap names both outputs.
pub proof fn law_warnings_name_the_outputs(left: Seq<char>, right: Seq<char>)
    ensures
        text::holds((WarningView::OverlappingOutputs { left, right }).message(), left),
        text::holds((WarningView::OverlappingOutputs { left, right }).message(), right),
{
    let said = (WarningView::OverlappingOutputs { left, right }).message();
    let rest = "` and `"@ + right + "` overlap"@;
    assert(said =~= "outputs `"@ + left + rest);
    lemma_holds_within(said, "outputs `"@, left, rest);
    lemma_holds_within(said, "outputs `"@ + left + "` and `"@, right, "` overlap"@);
}

proof fn lemma_warning_lines(warnings: Seq<WarningView>, n: int, i: int)
    requires
        0 <= i < n <= warnings.len(),
    ensures
        text::holds(cli::warning_lines(warnings, n), "\n- "@ + warnings[i].message()),
    decreases n,
{
    let before = cli::warning_lines(warnings, n - 1);
    let line = "\n- "@ + warnings[n - 1].message();
    let none = Seq::<char>::empty();
    assert(cli::warning_lines(warnings, n) =~= before + line + none);
    if i == n - 1 {
        lemma_holds_within(cli::warning_lines(warnings, n), before, line, none);
    } else {
        lemma_warning_lines(warnings, n - 1, i);
        lemma_held_around(none, before, line, "\n- "@ + warnings[i].message());
        assert(none + before + line =~= before + line + none);
    }
}

/// What is told of a plan begins with the name of its profile, holds the command that
/// hands its batch over, and every warning on a line.
pub proof fn law_plans_are_told_whole(plan: PlanView, i: int)
    ensures
        text::begins(cli::commands_text(plan), "Profile: "@ + plan.profile_name),
        text::holds(
            cli::commands_text(plan),
            "\nGenerated command:\nhyprctl --batch "@ + render::shell_word(plan.batch),
        ),
        0 <= i < plan.warnings.len() ==> text::holds(
            cli::commands_text(plan),
            "\n- "@ + plan.warnings[i].message(),
        ),
        plan::unsafe_reason(plan) matches Some(reason) ==> text::holds(
            cli::commands_text(plan),
            "\nOperation: refused: "@ + reason,
        ),
{
    let all = cli::commands_text(plan);
    let name = "Profile: "@ + plan.profile_name;
    let operation = "\nOperation: "@ + cli::operation_text(plan);
    let command = "\nGenerated command:\nhyprctl --batch "@ + render::shell_word(plan.batch);
    let warnings = if plan.warnings.len() == 0 {
        ""@
    } else {
        "\n"@ + cli::warnings_text(plan.warnings)
    };
    assert("\nGenerated command:\n"@ + "hyprctl --batch "@
        == "\nGenerated command:\nhyprctl --batch "@) by {
        reveal_strlit("\nGenerated command:\n");
        reveal_strlit("hyprctl --batch ");
        reveal_strlit("\nGenerated command:\nhyprctl --batch ");
        assert("\nGenerated command:\n"@ + "hyprctl --batch "@
            =~= "\nGenerated command:\nhyprctl --batch "@);
    }
    let word = render::shell_word(plan.batch);
    assert("\nGenerated command:\n"@ + ("hyprctl --batch "@ + word) =~= "\nGenerated command:\n"@
        + "hyprctl --batch "@ + word);
    assert(all =~= name + operation + command + warnings);
    assert(all.take(name.len() as int) =~= name);
    lemma_holds_within(all, name + operation, command, warnings);
    if 0 <= i < plan.warnings.len() {
        let n = plan.warnings.len() as int;
        let part = "\n- "@ + plan.warnings[i].message();
        lemma_warning_lines(plan.warnings, n, i);
        let head = name + operation + command + "\n"@ + "Warnings:"@;
        let lines = cli::warning_lines(plan.warnings, n);
        lemma_held_around(head, lines, Seq::<char>::empty(), part);
        assert(all =~= head + lines + Seq::<char>::empty());
    }
    if let Some(reason) = plan::unsafe_reason(plan) {
        reveal_strlit("\nOperation: ");
        reveal_strlit("refused: ");
        reveal_strlit("\nOperation: refused: ");
        assert(operation =~= "\nOperation: refused: "@ + reason);
        assert(all =~= name + operation + (command + warnings));
        lemma_holds_within(all, name, operation, command + warnings);
    }
}

/// How an application ended is told with the name of the profile, and differently for each
/// way in which it can end; where it was rolled back, with the reason.
pub proof fn law_outcomes_are_told_apart(plan: PlanView, outcome: OutcomeView)
    ensures
        ({
            let told = cli::outcome_text(plan, outcome);
            let line = daemon::outcome_line(plan, outcome);
            let name = plan.profile_name;
            &&& text::begins(told, "Confirmed profile `"@ + name) <== outcome is Confirmed
            &&& text::begins(line, "Confirmed profile `"@ + name) <== outcome is Confirmed
            &&& text::begins(told, "Applied profile `"@ + name) <== outcome is Unattended
            &&& text::begins(line, "Applied profile `"@ + name) <== outcome is Unattended
            &&& text::begins(told, "No changes: "@) <== outcome is Noop
            &&& text::begins(line, "No changes: "@) <== outcome is Noop
            &&& outcome matches OutcomeView::RolledBack { reason } ==> text::begins(
                told,
                "Profile `"@ + name + "` was not confirmed ("@ + reason,
            ) && text::begins(line, "Profile `"@ + name + "` was not confirmed ("@ + reason)
        }),
{
    let told = cli::outcome_text(plan, outcome);
    let line = daemon::outcome_line(plan, outcome);
    let name = plan.profile_name;
    match outcome {
        OutcomeView::Confirmed => {
            let part = "Confirmed profile `"@ + name;
            assert(told.take(part.len() as int) =~= part);
            assert(line.take(part.len() as int) =~= part);
        },
        OutcomeView::Unattended => {
            let part = "Applied profile `"@ + name;
            assert(told.take(part.len() as int) =~= part);
            assert(line.take(part.len() as int) =~= part);
        },
        OutcomeView::Noop => {
            reveal_strlit("No changes: profile `");
            reveal_strlit("No changes: selected profile is already active");
            reveal_strlit("No changes: ");
            let part = "No changes: "@;
            assert(told.take(part.len() as int) =~= part);
            assert(line.take(part.len() as int) =~= part);
        },
        OutcomeView::RolledBack { reason } => {
            let part = "Profile `"@ + name + "` was not confirmed ("@ + reason;
            assert(told.take(part.len() as int) =~= part);
            assert(line.take(part.len() as int) =~= part);
        },
    }
}

/// A decision to apply a profile is told with its name, its confidence and the reason; one
/// against it does not begin like that.
pub proof fn law_decisions_are_told(decided: DecisionView, label: Seq<char>)
    ensures
        ({
            let told = matching::decision_text(decided, label);
            &&& decided matches DecisionView::Apply { profile_name, confidence, reason } ==> told
                == label + ": "@ + profile_name + "\nConfidence: "@ + confidence + "\nReason: "@
                + reason
            &&& decided is Ambiguous ==> text::begins(told, label + ": ambiguous\n"@)
            &&& decided is MissingFallback || decided is NoProfiles || decided is NotEligible
                || decided is NoMatch ==> text::begins(told, label + ": none\n"@)
        }),
{
    let told = matching::decision_text(decided, label);
    reveal_strlit(": ambiguous\nConfidence: ambiguous\nReason: ");
    reveal_strlit(": none\nConfidence: none\nReason: fallback_profile `");
    reveal_strlit(": none\nConfidence: none\nReason: no profiles saved");
    reveal_strlit(": none\nConfidence: none\nReason: ");
    reveal_strlit(": none\nConfidence: none\nReason: no useful profile match");
    reveal_strlit(": ambiguous\n");
    reveal_strlit(": none\n");
    let none = label + ": none\n"@;
    let open = label + ": ambiguous\n"@;
    if decided is Ambiguous {
        assert(told.take(open.len() as int) =~= open);
    }
    if decided is MissingFallback || decided is NoProfiles || decided is NotEligible || decided
        is NoMatch {
        assert(told.take(none.len() as int) =~= none);
    }
}

/// The question names the profile and ends with the seconds that are left, two places wide
/// up to ninety-nine.
pub proof fn law_questions_tell_the_time(name: Seq<char>, seconds: int)
    requires
        0 <= seconds < 100,
    ensures
        text::holds(apply::countdown_text(name, seconds), name),
        text::ends(
            apply::countdown_text(name, seconds),
            (if seconds < 10 {
                "( "@
            } else {
                "("@
            }) + text::int_text(seconds) + "s remaining): "@,
        ),
{
    let all = apply::countdown_text(name, seconds);
    let front = "\rKeep profile `"@;
    let gap = if seconds < 10 {
        " "@
    } else {
        ""@
    };
    let rest = "`? Press `y` to confirm ("@ + gap + text::int_text(seconds) + "s remaining): "@;
    assert(all =~= front + name + rest);
    lemma_holds_within(all, front, name, rest);
    reveal_strlit("`? Press `y` to confirm (");
    reveal_strlit(" ");
    reveal_strlit("");
    reveal_strlit("( ");
    reveal_strlit("(");
    let tail = (if seconds < 10 {
        "( "@
    } else {
        "("@
    }) + text::int_text(seconds) + "s remaining): "@;
    assert(all.skip(all.len() - tail.len()) =~= tail);
}

/// What is told of an installation says that the service was enabled and started exactly
/// where it was, and warns where it was installed attended.
pub proof fn law_installations_are_told(
    result: SystemdInstallResult,
    options: SystemdInstallOptions,
)
    requires
        !options.dry_run,
    ensures
        ({
            let told = cli::install_texts(result, options);
            &&& told.len() == 1 + (if options.unattended {
                0int
            } else {
                1int
            }) + (if result.enabled {
                1int
            } else {
                0int
            }) + (if result.started {
                1int
            } else {
                0int
            })
            &&& result.enabled ==> told.contains("Enabled hyprdisjust.service."@)
            &&& result.started ==> told.last() == "Started hyprdisjust.service."@
        }),
{
    let told = cli::install_texts(result, options);
    if result.enabled {
        let at = if options.unattended {
            1int
        } else {
            2int
        };
        assert(told[at] == "Enabled hyprdisjust.service."@);
    }
}

} // verus!
