use hyprdisjust::cli::{
    agrees, apply_target, delete_step, describe_named_apply, export_automatic, export_named,
    format_apply_outcome, format_apply_warnings, format_doctor_report, format_profile_list,
    install_messages, profile_by_name, saved_message, ApplyTarget, DeleteStep,
};
use hyprdisjust::config::{AppConfig, ConfigPaths};
use hyprdisjust::daemon::{before_apply, conclude, rehearse, AutoSwitchState};
use hyprdisjust::doctor::{build_doctor_report, FoundPath, Surroundings};
use hyprdisjust::error::Error;
use hyprdisjust::hyprland::hyprctl::{batch_reply, query_reply, HyprctlClient, RunFailure};
use hyprdisjust::hyprland::monitor::{normalize_monitors, MonitorState, RawHyprMonitor};
use hyprdisjust::number::{parse_rate, Decimal, Rate};
use hyprdisjust::process::BoundedOutput;
use hyprdisjust::profile::apply::{
    check_terminal, ApplyConfirmation, ApplyWait, ConfirmationResult, MonitorController,
};
use hyprdisjust::profile::store::ProfileStore;
use hyprdisjust::profile::transaction::{
    prepare_transaction, run_transaction, ApplyTransactionRequest, ApplyTransactionResult,
    Preparation,
};
use hyprdisjust::systemd::{
    install_result, render_user_service, systemctl_calls, user_service_path,
    verify_service_contents, SystemdInstallOptions,
};
use hyprdisjust::tui::{format_snapshot, initial_model};
use serde_json::Value;

const DESK: &str = r#"[
  {
    "id": 0,
    "name": "DP-1",
    "description": "LG Electronics LG ULTRAGEAR 12345",
    "make": "LG Electronics",
    "model": "LG ULTRAGEAR",
    "serial": "12345",
    "width": 2560,
    "height": 1440,
    "physicalWidth": 600,
    "physicalHeight": 340,
    "refreshRate": 144.0,
    "x": 0,
    "y": 0,
    "scale": 1.0,
    "transform": 0,
    "disabled": false,
    "availableModes": ["2560x1440@144.00Hz", "1920x1080@60.00Hz"]
  },
  {
    "id": 1,
    "name": "eDP-1",
    "description": "BOE Internal Panel",
    "make": "BOE",
    "model": "Internal Panel",
    "serial": "",
    "width": 1920,
    "height": 1200,
    "physicalWidth": 300,
    "physicalHeight": 190,
    "refreshRate": 60.0,
    "x": 2560,
    "y": 240,
    "scale": 1.0,
    "transform": 0,
    "disabled": false,
    "availableModes": ["1920x1200@60.00Hz"]
  }
]"#;

const DOCK_RENAMED: &str = r#"[
  {
    "id": 0,
    "name": "HDMI-A-1",
    "description": "LG Electronics LG ULTRAGEAR 12345",
    "make": "LG Electronics",
    "model": "LG ULTRAGEAR",
    "serial": "12345",
    "width": 2560,
    "height": 1440,
    "physicalWidth": 600,
    "physicalHeight": 340,
    "refreshRate": 144.0,
    "x": 0,
    "y": 0,
    "scale": 1.0,
    "transform": 0,
    "availableModes": ["2560x1440@144.00Hz", "1920x1080@60.00Hz"]
  },
  {
    "id": 1,
    "name": "eDP-2",
    "description": "BOE Internal Panel",
    "make": "BOE",
    "model": "Internal Panel",
    "serial": "",
    "width": 1920,
    "height": 1200,
    "physicalWidth": 300,
    "physicalHeight": 190,
    "refreshRate": 60.0,
    "x": 2560,
    "y": 240,
    "scale": 1.0,
    "transform": 0,
    "availableModes": ["1920x1200@60.00Hz"]
  }
]"#;

fn decimal(text: &str) -> Decimal {
    match parse_rate(text) {
        Some(Rate::Finite(number)) => number,
        other => panic!("{text} is read as {other:?}"),
    }
}

fn text_of(entry: &Value, key: &str) -> String {
    entry[key].as_str().unwrap_or("").to_owned()
}

fn integer_of(entry: &Value, key: &str) -> i32 {
    entry[key].as_i64().unwrap_or(0) as i32
}

fn raw_monitor(entry: &Value) -> RawHyprMonitor {
    RawHyprMonitor {
        id: entry["id"].as_i64().unwrap_or(0),
        name: text_of(entry, "name"),
        description: text_of(entry, "description"),
        make: text_of(entry, "make"),
        model: text_of(entry, "model"),
        serial: text_of(entry, "serial"),
        width: integer_of(entry, "width"),
        height: integer_of(entry, "height"),
        physical_width: integer_of(entry, "physicalWidth"),
        physical_height: integer_of(entry, "physicalHeight"),
        refresh_rate: decimal(&entry["refreshRate"].to_string()),
        x: integer_of(entry, "x"),
        y: integer_of(entry, "y"),
        scale: match entry["scale"].is_null() {
            true => Decimal::whole(1),
            false => decimal(&entry["scale"].to_string()),
        },
        transform: integer_of(entry, "transform"),
        disabled: entry["disabled"].as_bool().unwrap_or(false),
        available_modes: match entry["availableModes"].as_array() {
            Some(modes) => modes
                .iter()
                .map(|mode| mode.as_str().unwrap().to_owned())
                .collect(),
            None => vec![],
        },
    }
}

fn parse_raw_monitors(json: &str) -> Vec<RawHyprMonitor> {
    let entries: Vec<Value> = serde_json::from_str(json).unwrap();
    entries.iter().map(raw_monitor).collect()
}

fn parse_monitors_output(json: &str) -> Vec<MonitorState> {
    normalize_monitors(parse_raw_monitors(json))
}

fn desk_store(name: &str) -> ProfileStore {
    let mut store = ProfileStore::default();
    store
        .save_current_profile(Some(name), &parse_monitors_output(DESK), false, "1000")
        .unwrap();
    store
}

fn overlapping_store(name: &str) -> ProfileStore {
    let mut store = desk_store(name);
    store.profiles[0].outputs[1].x = 100;
    store.profiles[0].outputs[1].y = 0;
    store
}

fn blackout_store(name: &str) -> ProfileStore {
    let mut store = desk_store(name);
    for output in &mut store.profiles[0].outputs {
        output.enabled = false;
    }
    store
}

fn non_noop_store(name: &str) -> ProfileStore {
    let mut store = desk_store(name);
    store.profiles[0].outputs[0].x += 1;
    store
}

fn surroundings(store: ProfileStore, monitors: Vec<MonitorState>) -> Surroundings {
    Surroundings {
        paths: ConfigPaths::from_config_dir("/tmp/hyprdisjust-test").unwrap(),
        generated_exists: false,
        using_fixture: true,
        runtime_dir: None,
        signature: None,
        socket: Err(Error::new("XDG_RUNTIME_DIR is not set".to_owned())),
        service: Ok(FoundPath {
            path: "/tmp/systemd/hyprdisjust.service".to_owned(),
            exists: false,
        }),
        store: Ok(store),
        config: Ok(AppConfig::default()),
        monitors: Ok(monitors),
    }
}

fn printed(succeeded: bool, stdout: &str, stderr: &str) -> BoundedOutput {
    BoundedOutput {
        succeeded,
        status: "exit status: 1".to_owned(),
        stdout: stdout.as_bytes().to_vec(),
        stderr: stderr.as_bytes().to_vec(),
        stdout_truncated: false,
        stderr_truncated: false,
    }
}

/// Answers each batch with what a command printed, and each query with what the
/// batches so far have made of the monitors.
struct FakeHyprctl {
    replies: Vec<BoundedOutput>,
    before: Vec<MonitorState>,
    after: Vec<MonitorState>,
    batches: Vec<String>,
    settled: bool,
}

impl FakeHyprctl {
    fn new(replies: Vec<BoundedOutput>, after: Vec<MonitorState>) -> Self {
        Self {
            replies,
            before: parse_monitors_output(DESK),
            after,
            batches: vec![],
            settled: false,
        }
    }
}

impl MonitorController for FakeHyprctl {
    fn apply_monitor_batch(&mut self, batch: &str) -> Result<(), Error> {
        self.batches.push(batch.to_owned());
        let reply = match self.replies.is_empty() {
            true => printed(true, "ok\n", ""),
            false => self.replies.remove(0),
        };
        let result = batch_reply("hyprctl monitor apply", Ok(reply));
        self.settled = result.is_ok() && self.batches.len() == 1;
        result
    }

    fn monitors_all(&mut self) -> Result<Vec<MonitorState>, Error> {
        Ok(match self.settled {
            true => self.after.clone(),
            false => self.before.clone(),
        })
    }
}

struct NoWait;

impl ApplyWait for NoWait {
    fn wait(&mut self, _milliseconds: u64) {}
}

/// A user who cannot be asked.
struct NoTerminal;

impl ApplyConfirmation for NoTerminal {
    fn prepare(&mut self) -> Result<(), Error> {
        check_terminal(false, true)
    }

    fn confirm(&mut self, _name: &str, _timeout: u64) -> Result<ConfirmationResult, Error> {
        unreachable!("nobody is asked without a terminal")
    }
}

fn apply_named(
    store: &ProfileStore,
    name: &str,
    hyprctl: &mut FakeHyprctl,
    confirmation: Option<&mut NoTerminal>,
) -> Result<ApplyTransactionResult, Error> {
    let snapshot = hyprctl.monitors_all()?;
    let request = ApplyTransactionRequest::Named(name.to_owned());
    match prepare_transaction(request, store, &snapshot)? {
        Preparation::Ready { plan, decision } => run_transaction(
            plan,
            snapshot,
            decision,
            hyprctl,
            &mut NoWait,
            confirmation,
        ),
        other => panic!("unexpected preparation: {other:?}"),
    }
}

#[test]
fn profile_lifecycle_commands_rename_copy_and_delete() {
    let mut store = desk_store("desk");

    store.rename_profile("desk", "work", "2000").unwrap();
    store.copy_profile("work", "backup", false, "3000").unwrap();
    assert_eq!(
        delete_step("backup", true, false).unwrap(),
        DeleteStep::Delete
    );
    store.delete_profile("backup").unwrap();

    let stdout = format_profile_list(&store);
    assert!(stdout.contains("- work (2 monitors)"));
    assert!(!stdout.contains("desk"));
    assert!(!stdout.contains("backup"));
}

#[test]
fn profile_lifecycle_reports_clear_failures() {
    let mut store = desk_store("desk");

    assert!(store
        .copy_profile("desk", "desk", false, "2000")
        .unwrap_err()
        .to_string()
        .contains("already exists"));
    assert!(delete_step("desk", false, false)
        .unwrap_err()
        .to_string()
        .contains("requires --yes"));
}

#[test]
fn deleting_asks_a_user_who_can_be_asked() {
    assert_eq!(delete_step("desk", false, true).unwrap(), DeleteStep::Ask);
    assert!(delete_step("", true, true).is_err());
    assert!(agrees("yes\n"));
    assert!(!agrees("y\n"));
    assert!(!agrees("YES\n"));
}

#[test]
fn doctor_reports_paths_profiles_socket_and_stale_output_names() {
    let monitors = parse_monitors_output(DOCK_RENAMED);

    let report = build_doctor_report(surroundings(desk_store("desk"), monitors));

    assert!(!report.has_errors());
    let stdout = format_doctor_report(&report);
    assert!(stdout.contains("HyprDisJust doctor"));
    assert!(!stdout.contains("generated conf"));
    assert!(stdout.contains("[info] generated lua:"));
    assert!(stdout.contains("[warning] socket2:"));
    assert!(stdout.contains("[ok] profiles: 1 saved"));
    assert!(stdout.contains("[warning] saved output names:"));
    assert!(stdout.contains("Hyprland: detected"));
    assert!(stdout.contains("Best profile: desk"));
    assert!(stdout.contains("Score: 200"));
    assert!(stdout.contains("systemd user service"));
}

#[test]
fn doctor_reports_empty_store_without_failing() {
    let monitors = parse_monitors_output(DESK);

    let report = build_doctor_report(surroundings(ProfileStore::default(), monitors));

    assert!(!report.has_errors());
    let stdout = format_doctor_report(&report);
    assert!(stdout.contains("[warning] profiles: no profiles saved"));
    assert!(stdout.contains("Monitors: 2"));
}

#[test]
fn doctor_reports_what_could_not_be_read() {
    let mut seen = surroundings(ProfileStore::default(), vec![]);
    seen.monitors = Err(Error::new("no compositor".to_owned()));
    seen.config = Err(Error::new("bad config".to_owned()));

    let report = build_doctor_report(seen);

    assert!(report.has_errors());
    let stdout = format_doctor_report(&report);
    assert!(stdout.contains("[error] hyprctl monitors: no compositor"));
    assert!(stdout.contains("failed to load config: bad config"));
    assert!(stdout.contains("Hyprland: not detected\nMonitors: 0"));
}

#[test]
fn doctor_tells_an_empty_query_from_a_failed_one() {
    let report = build_doctor_report(surroundings(ProfileStore::default(), vec![]));

    assert!(!report.has_errors());
    assert!(format_doctor_report(&report).contains("Hyprland: detected\nMonitors: 0"));
}

#[test]
fn install_systemd_user_dry_run_prints_service() {
    let options = SystemdInstallOptions {
        enable: true,
        start: true,
        dry_run: true,
        unattended: false,
    };
    let service = render_user_service("/usr/bin/hyprdisjust", false).unwrap();
    let path = user_service_path(Some("/tmp/systemd".to_owned()), None).unwrap();

    let stdout = install_messages(&install_result(path, service, options), options).join("\n");

    assert!(stdout.contains("Would write systemd user service"));
    assert!(stdout.contains("ExecStart="));
    assert!(stdout.contains("hyprdisjust"));
    assert!(!stdout.contains("daemon --unattended"));
    assert!(systemctl_calls(options).is_empty());
}

#[test]
fn install_systemd_user_can_enable_and_start_with_fake_systemctl() {
    let options = SystemdInstallOptions {
        enable: true,
        start: true,
        dry_run: false,
        unattended: true,
    };

    let service = render_user_service("/usr/bin/hyprdisjust", true).unwrap();
    assert!(verify_service_contents(&service).is_ok());
    assert!(service.contains("Restart=on-failure"));
    assert!(service.contains("daemon --unattended"));
    let calls: Vec<String> = systemctl_calls(options)
        .iter()
        .map(|arguments| format!("--user {}", arguments.join(" ")))
        .collect();
    assert_eq!(
        calls,
        vec![
            "--user daemon-reload",
            "--user enable hyprdisjust.service",
            "--user start hyprdisjust.service",
        ]
    );
}

#[test]
fn a_service_that_may_not_change_layouts_says_so() {
    let options = SystemdInstallOptions {
        enable: false,
        start: false,
        dry_run: false,
        unattended: false,
    };
    let done = install_result("/tmp/s".to_owned(), "[Unit]".to_owned(), options);

    assert_eq!(
        install_messages(&done, options),
        vec![
            "Installed systemd user service at /tmp/s.",
            "Safety: service installed without --unattended; it will refuse changed layouts because no confirmation terminal is available.",
        ]
    );
    assert!(verify_service_contents("[Unit]\n").is_err());
}

#[test]
fn tui_snapshot_uses_current_monitors_and_profiles() {
    let monitors = parse_monitors_output(DESK);

    let model = initial_model(&desk_store("desk"), &monitors, None).unwrap();
    let stdout = format_snapshot(&model);

    assert!(stdout.contains("HyprDisJust TUI"));
    assert!(stdout.contains("Previewing profile `desk`"));
    assert!(stdout.contains("Monitors:"));
    assert!(stdout.contains("DP-1 2560x1440@144"));
    assert!(stdout.contains("* desk (2 monitors)"));
    assert!(stdout.contains("Preview command:"));
}

#[test]
fn tui_snapshot_reports_apply_plan_warnings() {
    let monitors = parse_monitors_output(DESK);

    let model = initial_model(&overlapping_store("overlap"), &monitors, None).unwrap();
    let stdout = format_snapshot(&model);

    assert!(stdout.contains("Previewing profile `overlap` with 1 warning"));
    assert!(stdout.contains("Warnings:"));
    assert!(stdout.contains("overlap"));
}

#[test]
fn daemon_once_dry_run_explains_selected_profile() {
    let monitors = parse_monitors_output(DESK);
    let mut state = AutoSwitchState::default();

    let conclusion = rehearse(&mut state, &desk_store("desk"), &monitors, None);

    let run = conclusion.result.unwrap();
    assert!(!run.applied);
    assert!(run.skipped_noop);
    let stdout = conclusion.lines.join("\n");
    assert!(stdout.contains("Auto-apply decision"));
    assert!(stdout.contains("Selected profile: desk"));
    assert!(stdout.contains("Confidence: exact"));
    assert!(stdout.contains("Dry run: monitor layout was not changed"));
    assert!(stdout.contains("No changes: selected profile is already active"));
    assert!(stdout.contains(
        "hyprctl --batch \"eval hl.monitor({ output = \\\"DP-1\\\", disabled = false, mode = \\\"2560x1440@144\\\", position = \\\"0x0\\\", scale = 1, transform = 0 }) ; eval hl.monitor({ output = \\\"eDP-1\\\", disabled = false, mode = \\\"1920x1200@60\\\", position = \\\"2560x240\\\", scale = 1, transform = 0 })\""
    ));
}

#[test]
fn named_apply_skips_hyprctl_when_layout_is_already_active() {
    let mut hyprctl = FakeHyprctl::new(vec![], parse_monitors_output(DESK));

    let done = apply_named(&desk_store("desk"), "desk", &mut hyprctl, Some(&mut NoTerminal)).unwrap();

    assert!(format_apply_outcome(&done.plan, &done.outcome)
        .contains("No changes: profile `desk` is already active"));
    assert!(hyprctl.batches.is_empty());
}

#[test]
fn noninteractive_changed_apply_requires_explicit_unattended_flag() {
    let mut hyprctl = FakeHyprctl::new(vec![], parse_monitors_output(DESK));

    let stderr = apply_named(
        &non_noop_store("desk"),
        "desk",
        &mut hyprctl,
        Some(&mut NoTerminal),
    )
    .unwrap_err()
    .to_string();

    assert!(stderr.contains("interactive confirmation requires terminal"));
    assert!(stderr.contains("--unattended"));
    assert!(hyprctl.batches.is_empty());
}

#[test]
fn export_named_profile_writes_generated_lua() {
    let monitors = parse_monitors_output(DESK);

    let export = export_named(&desk_store("desk"), "desk", &monitors).unwrap();

    assert_eq!(
        export.contents,
        "hl.monitor({ output = \"DP-1\", disabled = false, mode = \"2560x1440@144\", position = \"0x0\", scale = 1, transform = 0 })\nhl.monitor({ output = \"eDP-1\", disabled = false, mode = \"1920x1200@60\", position = \"2560x240\", scale = 1, transform = 0 })"
    );
    assert_eq!(export.profile_name, "desk");
    assert_eq!(export.warnings, None);
}

#[test]
fn export_without_name_auto_selects_best_match() {
    let monitors = parse_monitors_output(DESK);

    let export = export_automatic(&desk_store("desk"), &monitors, None).unwrap();

    assert_eq!(
        export.contents,
        "hl.monitor({ output = \"DP-1\", disabled = false, mode = \"2560x1440@144\", position = \"0x0\", scale = 1, transform = 0 })\nhl.monitor({ output = \"eDP-1\", disabled = false, mode = \"1920x1200@60\", position = \"2560x240\", scale = 1, transform = 0 })"
    );
}

#[test]
fn export_reports_layout_warnings() {
    let monitors = parse_monitors_output(DESK);

    let export = export_named(&overlapping_store("overlap"), "overlap", &monitors).unwrap();

    let warnings = export.warnings.unwrap();
    assert!(warnings.contains("Warnings:"));
    assert!(warnings.contains("overlap"));
    assert_eq!(export.profile_name, "overlap");
}

#[test]
fn unsafe_blackout_is_previewed_as_refused_and_cannot_be_exported() {
    let monitors = parse_monitors_output(DESK);
    let store = blackout_store("blackout");

    let stdout = describe_named_apply(&store, "blackout", &monitors).unwrap();
    assert!(stdout.contains("Operation: refused:"));
    assert!(stdout.contains("disables every saved output"));

    let error = export_named(&store, "blackout", &monitors).unwrap_err();
    assert!(error.to_string().contains("disables every saved output"));
}

#[test]
fn apply_reports_warnings_before_live_apply_success() {
    let mut after = parse_monitors_output(DESK);
    after[1].x = 100;
    after[1].y = 0;
    let mut hyprctl = FakeHyprctl::new(vec![], after);

    let done = apply_named(&overlapping_store("overlap"), "overlap", &mut hyprctl, None).unwrap();

    let stdout = format!(
        "{}\n{}",
        format_apply_warnings(&done.plan),
        format_apply_outcome(&done.plan, &done.outcome)
    );
    let warning_index = stdout.find("Warnings:").expect("missing warnings");
    let applied_index = stdout
        .find("Applied profile `overlap`")
        .expect("missing apply success");
    assert!(
        warning_index < applied_index,
        "warnings should be printed before apply success:\n{stdout}"
    );
    assert_eq!(hyprctl.batches.len(), 1);
}

#[test]
fn apply_failure_preserves_hyprctl_stderr_details() {
    let reply = printed(false, "", "synthetic hyprctl failure");
    let mut hyprctl = FakeHyprctl::new(vec![reply], parse_monitors_output(DESK));

    let stderr = apply_named(&non_noop_store("desk"), "desk", &mut hyprctl, None)
        .unwrap_err()
        .to_string();

    assert!(stderr.contains("failed to apply profile `desk`"));
    assert!(stderr.contains("synthetic hyprctl failure"));
    assert!(stderr.contains("Previous layout:"));
}

#[test]
fn apply_failure_preserves_hyprctl_stdout_errors() {
    let reply = printed(
        true,
        "keyword can't work with non-legacy parsers. Use eval.\n",
        "",
    );
    let mut hyprctl = FakeHyprctl::new(vec![reply], parse_monitors_output(DESK));

    let stderr = apply_named(&non_noop_store("desk"), "desk", &mut hyprctl, None)
        .unwrap_err()
        .to_string();

    assert!(stderr.contains("failed to apply profile `desk`"));
    assert!(stderr.contains("keyword can't work"));
    assert!(stderr.contains("Previous layout:"));
}

#[test]
fn apply_failure_attempts_and_reports_successful_rollback() {
    let reply = printed(false, "", "synthetic first apply failure");
    let mut hyprctl = FakeHyprctl::new(vec![reply], parse_monitors_output(DESK));

    let stderr = apply_named(&non_noop_store("desk"), "desk", &mut hyprctl, None)
        .unwrap_err()
        .to_string();

    assert!(stderr.contains("synthetic first apply failure"));
    assert!(stderr.contains("previous monitor layout was restored"));
    assert_eq!(hyprctl.batches.len(), 2);
}

#[test]
fn export_unknown_profile_returns_clear_error() {
    let monitors = parse_monitors_output(DESK);

    let error = export_named(&ProfileStore::default(), "missing", &monitors).unwrap_err();

    assert!(error
        .to_string()
        .contains("profile `missing` does not exist"));
}

#[test]
fn apply_unknown_profile_returns_clear_error() {
    let error = profile_by_name(&ProfileStore::default(), "missing").unwrap_err();

    assert!(error
        .to_string()
        .contains("profile `missing` does not exist"));
}

#[test]
fn list_reports_empty_profile_store() {
    assert_eq!(
        format_profile_list(&ProfileStore::default()),
        "No profiles saved yet."
    );
}

#[test]
fn save_and_list_profile_from_fixture() {
    let monitors = parse_monitors_output(DESK);
    let mut store = ProfileStore::default();

    let name = store
        .save_current_profile(Some("desk"), &monitors, false, "1000")
        .unwrap();

    assert_eq!(
        saved_message(&name, monitors.len()),
        "Saved profile `desk` with 2 monitors."
    );
    let stdout = format_profile_list(&store);
    assert!(stdout.contains("Profiles: 1"));
    assert!(stdout.contains("- desk (2 monitors)"));
}

#[test]
fn save_requires_replace_for_existing_profile() {
    let monitors = parse_monitors_output(DESK);
    let mut store = desk_store("desk");

    let error = store
        .save_current_profile(Some("desk"), &monitors, false, "2000")
        .unwrap_err();
    assert!(error.to_string().contains("already exists"));

    store
        .save_current_profile(Some("desk"), &monitors, true, "3000")
        .unwrap();
    assert_eq!(store.profiles[0].created_at, "1000");
    assert_eq!(store.profiles[0].updated_at, "3000");
}

#[test]
fn a_profile_or_a_choice_is_applied_but_not_both() {
    assert_eq!(
        apply_target(Some("desk".to_owned()), false).unwrap(),
        ApplyTarget::Named("desk".to_owned())
    );
    assert_eq!(apply_target(None, true).unwrap(), ApplyTarget::Automatic);
    assert!(apply_target(Some("desk".to_owned()), true).is_err());
    assert!(apply_target(None, false).is_err());
}

#[test]
fn commands_to_the_compositor_name_what_they_run() {
    let client = HyprctlClient;

    assert_eq!(
        client.monitors_all().arguments,
        vec!["-j", "monitors", "all"]
    );
    assert_eq!(
        client.apply_monitor_batch("eval x").arguments,
        vec!["--batch", "eval x"]
    );
    assert_eq!(client.apply_monitor_batch("eval x").program, "hyprctl");
}

#[test]
fn replies_that_are_no_text_are_still_reported() {
    let mut reply = printed(false, "", "");
    reply.stderr = vec![0x62, 0x61, 0x64, 0xff];

    let error = batch_reply("hyprctl monitor apply", Ok(reply)).unwrap_err();

    assert!(error.to_string().contains("bad\u{fffd}"));
    assert!(batch_reply("hyprctl monitor apply", Err(RunFailure::NotFound))
        .unwrap_err()
        .to_string()
        .contains("hyprctl was not found in PATH"));
    assert_eq!(
        query_reply(Ok(printed(true, "[]", ""))).unwrap(),
        b"[]".to_vec()
    );
}

#[test]
fn a_rejected_attempt_is_held_back_once() {
    let monitors = parse_monitors_output(DESK);
    let store = non_noop_store("desk");
    let mut state = AutoSwitchState::default();
    let request = ApplyTransactionRequest::Automatic {
        fallback_profile: None,
    };
    let (plan, decision) = match prepare_transaction(request, &store, &monitors).unwrap() {
        Preparation::Ready { plan, decision } => (plan, decision),
        other => panic!("unexpected preparation: {other:?}"),
    };

    let first = before_apply(&mut state, &plan, &monitors, &decision, true);
    assert!(first.proceed);
    let failed = conclude(
        &mut state,
        first.attempted,
        Err(Error::new("synthetic failure".to_owned())),
    );
    assert!(failed.result.is_err());
    let second = before_apply(&mut state, &plan, &monitors, &decision, true);
    assert!(!second.proceed);
    let third = before_apply(&mut state, &plan, &monitors, &decision, true);
    assert!(third.proceed);
}
