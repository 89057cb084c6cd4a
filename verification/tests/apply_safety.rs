use std::collections::{HashSet, VecDeque};

use hyprdisjust::error::Error;
use hyprdisjust::hyprland::monitor::{normalize_monitors, MonitorState, RawHyprMonitor};
use hyprdisjust::number::{parse_rate, Decimal, Rate};
use hyprdisjust::profile::apply::{
    apply_plan_safely_with_controller, confirmation_for, confirmation_step, countdown_prompt,
    countdown_seconds, plan_apply, ApplyConfirmation, ApplyOutcome, ApplyPlan, ApplyWait,
    ConfirmationResult, ConfirmationStep, MonitorController, SECOND,
};
use hyprdisjust::profile::store::Profile;
use hyprdisjust::profile::transaction::{run_transaction, ApplyExecution};
use serde_json::Value;

const DESK: &str = r#"[
  {
    "id": 0,
    "name": "DP-1",
    "description": "LG Electronics LG ULTRAGEAR 12345",
    "make": "LG Electronics",
    "model": "LG ULTRAGEAR",
    "serial": "12345",
    "width": 2560,
    "height": 1440,
    "physicalWidth": 600,
    "physicalHeight": 340,
    "refreshRate": 144.0,
    "x": 0,
    "y": 0,
    "scale": 1.0,
    "transform": 0,
    "disabled": false,
    "availableModes": ["2560x1440@144.00Hz", "1920x1080@60.00Hz"]
  },
  {
    "id": 1,
    "name": "eDP-1",
    "description": "BOE Internal Panel",
    "make": "BOE",
    "model": "Internal Panel",
    "serial": "",
    "width": 1920,
    "height": 1200,
    "physicalWidth": 300,
    "physicalHeight": 190,
    "refreshRate": 60.0,
    "x": 2560,
    "y": 240,
    "scale": 1.0,
    "transform": 0,
    "disabled": false,
    "availableModes": ["1920x1200@60.00Hz"]
  }
]"#;

const INACTIVE: &str = r#"[
  {
    "id": 2,
    "name": "HDMI-A-1",
    "description": "Dell Inc. U2415 XYZ",
    "make": "Dell Inc.",
    "model": "U2415",
    "serial": "XYZ",
    "width": 1920,
    "height": 1080,
    "refreshRate": 60.0,
    "x": -1920,
    "y": 0,
    "scale": 1.0,
    "transform": 0,
    "disabled": true,
    "availableModes": ["1920x1080@60.00Hz"]
  }
]"#;

fn decimal(text: &str) -> Decimal {
    match parse_rate(text) {
        Some(Rate::Finite(number)) => number,
        other => panic!("{text} is read as {other:?}"),
    }
}

fn text_of(entry: &Value, key: &str) -> String {
    entry[key].as_str().unwrap_or("").to_owned()
}

fn integer_of(entry: &Value, key: &str) -> i32 {
    entry[key].as_i64().unwrap_or(0) as i32
}

fn raw_monitor(entry: &Value) -> RawHyprMonitor {
    RawHyprMonitor {
        id: entry["id"].as_i64().unwrap_or(0),
        name: text_of(entry, "name"),
        description: text_of(entry, "description"),
        make: text_of(entry, "make"),
        model: text_of(entry, "model"),
        serial: text_of(entry, "serial"),
        width: integer_of(entry, "width"),
        height: integer_of(entry, "height"),
        physical_width: integer_of(entry, "physicalWidth"),
        physical_height: integer_of(entry, "physicalHeight"),
        refresh_rate: decimal(&entry["refreshRate"].to_string()),
        x: integer_of(entry, "x"),
        y: integer_of(entry, "y"),
        scale: match entry["scale"].is_null() {
            true => Decimal::whole(1),
            false => decimal(&entry["scale"].to_string()),
        },
        transform: integer_of(entry, "transform"),
        disabled: entry["disabled"].as_bool().unwrap_or(false),
        available_modes: match entry["availableModes"].as_array() {
            Some(modes) => modes
                .iter()
                .map(|mode| mode.as_str().unwrap().to_owned())
                .collect(),
            None => vec![],
        },
    }
}

fn parse_raw_monitors(json: &str) -> Vec<RawHyprMonitor> {
    let entries: Vec<Value> = serde_json::from_str(json).unwrap();
    entries.iter().map(raw_monitor).collect()
}

fn parse_monitors_output(json: &str) -> Vec<MonitorState> {
    normalize_monitors(parse_raw_monitors(json))
}

#[derive(Default)]
struct FakeController {
    batches: Vec<String>,
    fail_calls: HashSet<usize>,
    monitor_results: VecDeque<Result<Vec<MonitorState>, Error>>,
}

impl MonitorController for FakeController {
    fn apply_monitor_batch(&mut self, batch: &str) -> Result<(), Error> {
        let call = self.batches.len();
        self.batches.push(batch.to_owned());
        if self.fail_calls.contains(&call) {
            Err(Error::new(format!("synthetic batch failure {call}")))
        } else {
            Ok(())
        }
    }

    fn monitors_all(&mut self) -> Result<Vec<MonitorState>, Error> {
        self.monitor_results
            .pop_front()
            .unwrap_or_else(|| Err(Error::new("no scripted monitor result".to_owned())))
    }
}

#[derive(Default)]
struct FakeWait {
    waits: Vec<u64>,
}

impl ApplyWait for FakeWait {
    fn wait(&mut self, milliseconds: u64) {
        self.waits.push(milliseconds);
    }
}

struct FakeConfirmation {
    result: Result<ConfirmationResult, Error>,
    prepared: bool,
    requested_timeout: Option<u64>,
}

impl FakeConfirmation {
    fn result(result: ConfirmationResult) -> Self {
        Self {
            result: Ok(result),
            prepared: false,
            requested_timeout: None,
        }
    }

    fn read_failure() -> Self {
        Self {
            result: Err(Error::new("synthetic input failure".to_owned())),
            prepared: false,
            requested_timeout: None,
        }
    }
}

impl ApplyConfirmation for FakeConfirmation {
    fn prepare(&mut self) -> Result<(), Error> {
        self.prepared = true;
        Ok(())
    }

    fn confirm(
        &mut self,
        _profile_name: &str,
        timeout: u64,
    ) -> Result<ConfirmationResult, Error> {
        self.requested_timeout = Some(timeout);
        std::mem::replace(&mut self.result, Ok(ConfirmationResult::EndOfInput))
    }
}

fn nobody() -> Option<&'static mut FakeConfirmation> {
    None
}

fn changed_plan() -> ApplyPlan {
    let monitors = parse_monitors_output(DESK);
    let mut profile = Profile::from_monitors(
        "desk".to_owned(),
        &monitors,
        "created".to_owned(),
        "updated".to_owned(),
    );
    profile.outputs[0].x += 20;
    plan_apply(&profile, &monitors).unwrap()
}

fn enabled_plan_from_inactive() -> ApplyPlan {
    let monitors = parse_monitors_output(INACTIVE);
    let mut profile = Profile::from_monitors(
        "external".to_owned(),
        &monitors,
        "created".to_owned(),
        "updated".to_owned(),
    );
    profile.outputs[0].enabled = true;
    plan_apply(&profile, &monitors).unwrap()
}

fn changed_states() -> (Vec<MonitorState>, Vec<MonitorState>) {
    let previous = parse_monitors_output(DESK);
    let mut applied = previous.clone();
    applied[0].x += 20;
    (previous, applied)
}

fn run_with_confirmation(
    result: ConfirmationResult,
) -> (ApplyOutcome, FakeController, FakeConfirmation) {
    let plan = changed_plan();
    let (previous, applied) = changed_states();
    let mut monitor_results = VecDeque::from([Ok(applied.clone())]);
    if result == ConfirmationResult::Confirmed {
        monitor_results.push_back(Ok(applied));
    } else {
        monitor_results.push_back(Ok(previous));
    }
    let mut controller = FakeController {
        monitor_results,
        ..FakeController::default()
    };
    let mut wait = FakeWait::default();
    let mut confirmation = FakeConfirmation::result(result);
    let outcome = apply_plan_safely_with_controller(
        &plan,
        &mut controller,
        &mut wait,
        Some(&mut confirmation),
    )
    .unwrap();
    (outcome, controller, confirmation)
}

#[test]
fn topology_drift_during_confirmation_restores_captured_layout() {
    let plan = changed_plan();
    let (previous, applied) = changed_states();
    let mut drifted = applied.clone();
    drifted[0].x += 100;
    let mut monitor_results = VecDeque::from([Ok(applied)]);
    for _ in 0..9 {
        monitor_results.push_back(Ok(drifted.clone()));
    }
    monitor_results.push_back(Ok(previous));
    let mut controller = FakeController {
        monitor_results,
        ..FakeController::default()
    };
    let mut wait = FakeWait::default();
    let mut confirmation = FakeConfirmation::result(ConfirmationResult::Confirmed);

    let outcome = apply_plan_safely_with_controller(
        &plan,
        &mut controller,
        &mut wait,
        Some(&mut confirmation),
    )
    .unwrap();

    assert!(matches!(outcome, ApplyOutcome::RolledBack { .. }));
    assert_eq!(controller.batches.len(), 2);
}

#[test]
fn already_disabled_unmatched_output_remains_part_of_expected_topology() {
    let mut current = parse_monitors_output(DESK);
    current.extend(parse_monitors_output(INACTIVE));
    let mut profile = Profile::from_monitors(
        "desk".to_owned(),
        &current[..2].to_vec(),
        "created".to_owned(),
        "updated".to_owned(),
    );
    profile.outputs[0].x += 20;
    let plan = plan_apply(&profile, &current).unwrap();
    let mut applied = current.clone();
    applied[0].x += 20;
    let mut controller = FakeController {
        monitor_results: VecDeque::from([Ok(applied)]),
        ..FakeController::default()
    };
    let mut wait = FakeWait::default();

    let outcome =
        apply_plan_safely_with_controller(&plan, &mut controller, &mut wait, nobody()).unwrap();

    assert_eq!(outcome, ApplyOutcome::Unattended);
    assert_eq!(controller.batches.len(), 1);
}

#[test]
fn confirmation_within_fifteen_seconds_keeps_layout() {
    let (outcome, controller, confirmation) = run_with_confirmation(ConfirmationResult::Confirmed);

    assert_eq!(outcome, ApplyOutcome::Confirmed);
    assert!(confirmation.prepared);
    assert_eq!(
        confirmation.requested_timeout,
        Some(15_000)
    );
    assert_eq!(controller.batches.len(), 1);
}

#[test]
fn timeout_rejection_and_eof_restore_captured_layout() {
    for result in [
        ConfirmationResult::TimedOut,
        ConfirmationResult::Rejected,
        ConfirmationResult::EndOfInput,
    ] {
        let (outcome, controller, _) = run_with_confirmation(result);
        assert!(matches!(outcome, ApplyOutcome::RolledBack { .. }));
        assert_eq!(controller.batches.len(), 2);
        assert_ne!(controller.batches[0], controller.batches[1]);
    }
}

#[test]
fn confirmation_read_failure_rolls_back_and_returns_actionable_error() {
    let plan = changed_plan();
    let (previous, applied) = changed_states();
    let mut controller = FakeController {
        monitor_results: VecDeque::from([Ok(applied), Ok(previous)]),
        ..FakeController::default()
    };
    let mut wait = FakeWait::default();
    let mut confirmation = FakeConfirmation::read_failure();

    let error = apply_plan_safely_with_controller(
        &plan,
        &mut controller,
        &mut wait,
        Some(&mut confirmation),
    )
    .unwrap_err();

    assert_eq!(controller.batches.len(), 2);
    let error = error.to_string();
    assert!(error.contains("confirmation failed"));
    assert!(error.contains("previous monitor layout was restored"));
    assert!(error.contains("synthetic input failure"));
}

#[test]
fn failed_confirmation_rollback_reports_both_causes() {
    let plan = changed_plan();
    let (_, applied) = changed_states();
    let mut controller = FakeController {
        fail_calls: HashSet::from([1]),
        monitor_results: VecDeque::from([Ok(applied)]),
        ..FakeController::default()
    };
    let mut wait = FakeWait::default();
    let mut confirmation = FakeConfirmation::result(ConfirmationResult::TimedOut);

    let error = apply_plan_safely_with_controller(
        &plan,
        &mut controller,
        &mut wait,
        Some(&mut confirmation),
    )
    .unwrap_err();

    let error = error.to_string();
    assert!(error.contains("confirmation timed out"));
    assert!(error.contains("rollback command was rejected"));
    assert!(error.contains("synthetic batch failure 1"));
}

#[test]
fn partial_apply_failure_attempts_recovery() {
    let plan = changed_plan();
    let (previous, _) = changed_states();
    let mut controller = FakeController {
        fail_calls: HashSet::from([0]),
        monitor_results: VecDeque::from([Ok(previous)]),
        ..FakeController::default()
    };
    let mut wait = FakeWait::default();

    let error =
        apply_plan_safely_with_controller(&plan, &mut controller, &mut wait, nobody()).unwrap_err();

    assert_eq!(controller.batches.len(), 2);
    assert_eq!(
        error.headline(),
        "failed to apply profile `desk`; the previous monitor layout was restored"
    );
    let error = error.to_string();
    assert!(error.contains("failed to apply profile `desk`"));
    assert!(error.contains("previous monitor layout was restored"));
    assert!(error.contains("synthetic batch failure 0"));
}

#[test]
fn rollback_success_is_verified_against_the_exact_captured_state() {
    let previous = parse_monitors_output(DESK);
    let mut applied = previous.clone();
    applied[0].x += 20;
    let plan = changed_plan();
    let mut controller = FakeController {
        monitor_results: VecDeque::from([Ok(applied), Ok(previous)]),
        ..FakeController::default()
    };
    let mut wait = FakeWait::default();
    let mut confirmation = FakeConfirmation::result(ConfirmationResult::Rejected);

    let outcome = apply_plan_safely_with_controller(
        &plan,
        &mut controller,
        &mut wait,
        Some(&mut confirmation),
    )
    .unwrap();

    assert!(matches!(outcome, ApplyOutcome::RolledBack { .. }));
    assert_eq!(controller.batches.len(), 2);
}

#[test]
fn rollback_verification_failure_is_reported() {
    let previous = parse_monitors_output(DESK);
    let mut applied = previous.clone();
    applied[0].x += 20;
    let plan = changed_plan();
    let mut controller = FakeController {
        monitor_results: VecDeque::from([
            Ok(applied.clone()),
            Ok(applied.clone()),
            Ok(applied.clone()),
            Ok(applied),
        ]),
        ..FakeController::default()
    };
    let mut wait = FakeWait::default();
    let mut confirmation = FakeConfirmation::result(ConfirmationResult::TimedOut);

    let error = apply_plan_safely_with_controller(
        &plan,
        &mut controller,
        &mut wait,
        Some(&mut confirmation),
    )
    .unwrap_err();

    let error = error.to_string();
    assert!(error.contains("rollback monitor state did not converge"));
    assert!(error.contains("confirmation timed out"));
}

#[test]
fn rollback_reconfigures_previously_disabled_output_before_disabling_it() {
    let plan = enabled_plan_from_inactive();
    let previous = parse_monitors_output(INACTIVE);
    let mut applied = previous.clone();
    applied[0].enabled = true;
    let mut controller = FakeController {
        monitor_results: VecDeque::from([Ok(applied), Ok(previous)]),
        ..FakeController::default()
    };
    let mut wait = FakeWait::default();
    let mut confirmation = FakeConfirmation::result(ConfirmationResult::Rejected);

    let outcome = apply_plan_safely_with_controller(
        &plan,
        &mut controller,
        &mut wait,
        Some(&mut confirmation),
    )
    .unwrap();

    assert!(matches!(outcome, ApplyOutcome::RolledBack { .. }));
    assert_eq!(controller.batches.len(), 2);
    assert_eq!(
        controller.batches[1]
            .matches("output = \"HDMI-A-1\"")
            .count(),
        2,
        "rollback should restore settings and then disable the output"
    );
}

#[test]
fn rollback_verifies_details_of_previously_disabled_output() {
    let previous = parse_monitors_output(INACTIVE);
    let mut applied = previous.clone();
    applied[0].enabled = true;
    let mut incorrectly_restored = previous.clone();
    incorrectly_restored[0].x += 100;
    let plan = enabled_plan_from_inactive();
    let mut controller = FakeController {
        monitor_results: VecDeque::from([
            Ok(applied),
            Ok(incorrectly_restored.clone()),
            Ok(incorrectly_restored.clone()),
            Ok(incorrectly_restored),
        ]),
        ..FakeController::default()
    };
    let mut wait = FakeWait::default();
    let mut confirmation = FakeConfirmation::result(ConfirmationResult::TimedOut);

    let error = apply_plan_safely_with_controller(
        &plan,
        &mut controller,
        &mut wait,
        Some(&mut confirmation),
    )
    .unwrap_err();

    let error = error.to_string();
    assert!(error.contains("rollback monitor state did not converge"));
    assert!(error.contains("position did not converge"));
}

#[test]
fn delayed_convergence_beyond_the_old_three_attempt_window_succeeds() {
    let previous = parse_monitors_output(DESK);
    let mut applied = previous.clone();
    applied[0].x += 20;
    let plan = changed_plan();
    let mut results = VecDeque::new();
    for _ in 0..4 {
        results.push_back(Ok(previous.clone()));
    }
    results.push_back(Ok(applied));
    let mut controller = FakeController {
        monitor_results: results,
        ..FakeController::default()
    };
    let mut wait = FakeWait::default();

    apply_plan_safely_with_controller(&plan, &mut controller, &mut wait, nobody()).unwrap();

    assert_eq!(controller.batches.len(), 1);
    assert_eq!(wait.waits.len(), 4);
}

#[test]
fn an_output_added_during_apply_is_reported_as_topology_drift() {
    let previous = parse_monitors_output(DESK);
    let mut applied = previous.clone();
    applied[0].x += 20;
    let mut added = applied.clone();
    let mut unexpected = applied[0].clone();
    unexpected.output_name = "DP-99".to_owned();
    unexpected.id = "output:dp-99".to_owned();
    added.push(unexpected);
    let plan = changed_plan();
    let mut results = VecDeque::new();
    for _ in 0..9 {
        results.push_back(Ok(added.clone()));
    }
    results.push_back(Ok(previous));
    let mut controller = FakeController {
        monitor_results: results,
        ..FakeController::default()
    };
    let mut wait = FakeWait::default();

    let error =
        apply_plan_safely_with_controller(&plan, &mut controller, &mut wait, nobody()).unwrap_err();

    let error = error.to_string();
    assert!(error.contains("topology drifted"));
    assert!(error.contains("DP-99"));
    assert!(error.contains("previous monitor layout was restored"));
}

#[test]
fn confirmation_outcomes_name_the_reason_for_going_back() {
    assert_eq!(ConfirmationResult::Confirmed.rollback_reason(), None);
    assert_eq!(
        ConfirmationResult::TimedOut.rollback_reason(),
        Some("confirmation timed out")
    );
    assert!(ConfirmationResult::Rejected.rollback_reason().is_some());
    assert!(ConfirmationResult::EndOfInput.rollback_reason().is_some());
    assert_eq!(confirmation_for(Some('y')), ConfirmationResult::Confirmed);
    assert_eq!(confirmation_for(Some('Y')), ConfirmationResult::Rejected);
    assert_eq!(confirmation_for(Some('n')), ConfirmationResult::Rejected);
}

#[test]
fn a_plan_that_changes_nothing_runs_nothing() {
    let monitors = parse_monitors_output(DESK);
    let profile = Profile::from_monitors(
        "desk".to_owned(),
        &monitors,
        "created".to_owned(),
        "updated".to_owned(),
    );
    let plan = plan_apply(&profile, &monitors).unwrap();
    let mut controller = FakeController::default();
    let mut wait = FakeWait::default();
    let mut confirmation = FakeConfirmation::result(ConfirmationResult::Confirmed);

    let outcome = apply_plan_safely_with_controller(
        &plan,
        &mut controller,
        &mut wait,
        Some(&mut confirmation),
    )
    .unwrap();

    assert_eq!(outcome, ApplyOutcome::Noop);
    assert!(controller.batches.is_empty());
    assert!(wait.waits.is_empty());
    assert!(!confirmation.prepared);
}

#[test]
fn unattended_application_keeps_the_layout_without_asking() {
    let plan = changed_plan();
    let (_, applied) = changed_states();
    let mut controller = FakeController {
        monitor_results: VecDeque::from([Ok(applied)]),
        ..FakeController::default()
    };
    let mut wait = FakeWait::default();

    let outcome =
        apply_plan_safely_with_controller(&plan, &mut controller, &mut wait, nobody()).unwrap();

    assert_eq!(outcome, ApplyOutcome::Unattended);
    assert_eq!(controller.batches, vec![plan.batch.clone()]);
}

#[test]
fn a_whole_transaction_reports_the_final_state() {
    let (previous, applied) = changed_states();
    let plan = changed_plan();
    let mut controller = FakeController {
        monitor_results: VecDeque::from([
            Ok(applied.clone()),
            Ok(applied.clone()),
            Ok(applied.clone()),
        ]),
        ..FakeController::default()
    };
    let mut wait = FakeWait::default();
    let mut confirmation = FakeConfirmation::result(ConfirmationResult::Confirmed);

    let transaction = run_transaction(
        plan,
        previous.clone(),
        None,
        &mut controller,
        &mut wait,
        Some(&mut confirmation),
    );

    let done = transaction.unwrap();
    assert_eq!(done.outcome, ApplyOutcome::Confirmed);
    assert_eq!(done.execution, ApplyExecution::Applied);
    assert_eq!(done.final_state, applied);
    assert_eq!(done.snapshot, previous);
}

#[test]
fn an_application_reports_the_previous_layout_when_it_fails() {
    let (previous, _) = changed_states();
    let plan = changed_plan();
    let mut controller = FakeController {
        fail_calls: HashSet::from([0]),
        monitor_results: VecDeque::from([Ok(previous.clone())]),
        ..FakeController::default()
    };
    let mut wait = FakeWait::default();

    let error = run_transaction(plan, previous, None, &mut controller, &mut wait, nobody())
        .unwrap_err()
        .to_string();

    assert!(error.contains("failed to apply profile `desk`"));
    assert!(error.contains("synthetic batch failure 0"));
    assert!(error.contains("Previous layout:"));
    assert!(error.contains("DP-1"));
}

#[test]
fn an_answer_is_awaited_until_the_time_is_over() {
    assert_eq!(confirmation_step(None, Some(0)), ConfirmationStep::TimedOut);
    assert_eq!(
        confirmation_step(Some(15 * SECOND), None),
        ConfirmationStep::Await {
            show: Some(15),
            patience: SECOND
        }
    );
    assert_eq!(
        confirmation_step(Some(14 * SECOND + 1), Some(15)),
        ConfirmationStep::Await {
            show: None,
            patience: SECOND
        }
    );
    assert_eq!(
        confirmation_step(Some(7), Some(2)),
        ConfirmationStep::Await {
            show: Some(1),
            patience: 7
        }
    );
    assert_eq!(
        confirmation_step(Some(0), Some(1)),
        ConfirmationStep::Await {
            show: Some(0),
            patience: 0
        }
    );
}

#[test]
fn the_countdown_shows_whole_seconds() {
    assert_eq!(countdown_seconds(15 * SECOND), 15);
    assert_eq!(countdown_seconds(14 * SECOND + 1), 15);
    assert_eq!(countdown_seconds(14 * SECOND), 14);
    assert!(countdown_prompt("desk", 15).contains("desk"));
    assert!(countdown_prompt("desk", 15).contains("15"));
}
