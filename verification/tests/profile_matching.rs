use hyprdisjust::cli::{
    describe_auto_apply, describe_named_apply, format_auto_apply_dry_run,
    format_best_profile_summary, format_doctor_report, require_auto_profile,
};
use hyprdisjust::config::{AppConfig, ConfigPaths};
use hyprdisjust::doctor::{build_doctor_report, FoundPath, Surroundings};
use hyprdisjust::error::Error;
use hyprdisjust::hyprland::monitor::{normalize_monitors, MonitorState, RawHyprMonitor};
use hyprdisjust::number::{parse_rate, Decimal, Rate};
use hyprdisjust::profile::matching::{
    best_profile_match, decide_auto_apply, match_profile, profile_monitor_match_score,
    resolve_monitor_matches, AutoApplyDecision, MatchConfidence,
};
use hyprdisjust::profile::store::{Profile, ProfileMonitor, ProfileStore};
use serde_json::Value;

const DESK: &str = r#"[
  {
    "id": 0,
    "name": "DP-1",
    "description": "LG Electronics LG ULTRAGEAR 12345",
    "make": "LG Electronics",
    "model": "LG ULTRAGEAR",
    "serial": "12345",
    "width": 2560,
    "height": 1440,
    "physicalWidth": 600,
    "physicalHeight": 340,
    "refreshRate": 144.0,
    "x": 0,
    "y": 0,
    "scale": 1.0,
    "transform": 0,
    "disabled": false,
    "availableModes": ["2560x1440@144.00Hz", "1920x1080@60.00Hz"]
  },
  {
    "id": 1,
    "name": "eDP-1",
    "description": "BOE Internal Panel",
    "make": "BOE",
    "model": "Internal Panel",
    "serial": "",
    "width": 1920,
    "height": 1200,
    "physicalWidth": 300,
    "physicalHeight": 190,
    "refreshRate": 60.0,
    "x": 2560,
    "y": 240,
    "scale": 1.0,
    "transform": 0,
    "disabled": false,
    "availableModes": ["1920x1200@60.00Hz"]
  }
]"#;

const DOCK_RENAMED: &str = r#"[
  {
    "id": 0,
    "name": "HDMI-A-1",
    "description": "LG Electronics LG ULTRAGEAR 12345",
    "make": "LG Electronics",
    "model": "LG ULTRAGEAR",
    "serial": "12345",
    "width": 2560,
    "height": 1440,
    "physicalWidth": 600,
    "physicalHeight": 340,
    "refreshRate": 144.0,
    "x": 0,
    "y": 0,
    "scale": 1.0,
    "transform": 0,
    "availableModes": ["2560x1440@144.00Hz", "1920x1080@60.00Hz"]
  },
  {
    "id": 1,
    "name": "eDP-2",
    "description": "BOE Internal Panel",
    "make": "BOE",
    "model": "Internal Panel",
    "serial": "",
    "width": 1920,
    "height": 1200,
    "physicalWidth": 300,
    "physicalHeight": 190,
    "refreshRate": 60.0,
    "x": 2560,
    "y": 240,
    "scale": 1.0,
    "transform": 0,
    "availableModes": ["1920x1200@60.00Hz"]
  }
]"#;

const LAPTOP: &str = r#"[
  {
    "id": 0,
    "name": "eDP-1",
    "description": "Chimei Innolux Corporation 0x13C0",
    "make": "Chimei Innolux Corporation",
    "model": "0x13C0",
    "serial": "",
    "width": 1920,
    "height": 1280,
    "physicalWidth": 260,
    "physicalHeight": 170,
    "refreshRate": 60.003,
    "x": 0,
    "y": 0,
    "activeWorkspace": { "id": 1, "name": "1" },
    "scale": 1.0,
    "transform": 0,
    "focused": true,
    "disabled": false,
    "availableModes": ["1920x1280@60.00Hz"]
  }
]"#;

const DUPLICATE_NO_SERIAL: &str = r#"[
  {
    "id": 0,
    "name": "DP-1",
    "description": "Acme SamePanel",
    "make": "Acme",
    "model": "SamePanel",
    "serial": "",
    "width": 1920,
    "height": 1080,
    "refreshRate": 60.0,
    "x": 0,
    "y": 0,
    "scale": 1.0,
    "transform": 0
  },
  {
    "id": 1,
    "name": "DP-2",
    "description": "Acme SamePanel",
    "make": "Acme",
    "model": "SamePanel",
    "serial": "",
    "width": 1920,
    "height": 1080,
    "refreshRate": 60.0,
    "x": 1920,
    "y": 0,
    "scale": 1.0,
    "transform": 0
  }
]"#;

const DUPLICATE_NO_SERIAL_RENAMED: &str = r#"[
  {
    "id": 0,
    "name": "HDMI-A-1",
    "description": "Acme SamePanel",
    "make": "Acme",
    "model": "SamePanel",
    "serial": "",
    "width": 1920,
    "height": 1080,
    "refreshRate": 60.0,
    "x": 0,
    "y": 0,
    "scale": 1.0,
    "transform": 0
  },
  {
    "id": 1,
    "name": "HDMI-A-2",
    "description": "Acme SamePanel",
    "make": "Acme",
    "model": "SamePanel",
    "serial": "",
    "width": 1920,
    "height": 1080,
    "refreshRate": 60.0,
    "x": 1920,
    "y": 0,
    "scale": 1.0,
    "transform": 0
  }
]"#;

const SAME_MODEL_DIFFERENT_SERIALS: &str = r#"[
  {
    "id": 0,
    "name": "DP-1",
    "description": "Acme WorkView AAA",
    "make": "Acme",
    "model": "WorkView",
    "serial": "AAA",
    "width": 1920,
    "height": 1080,
    "refreshRate": 60.0,
    "x": 0,
    "y": 0,
    "scale": 1.0,
    "transform": 0
  },
  {
    "id": 1,
    "name": "DP-2",
    "description": "Acme WorkView BBB",
    "make": "Acme",
    "model": "WorkView",
    "serial": "BBB",
    "width": 1920,
    "height": 1080,
    "refreshRate": 60.0,
    "x": 1920,
    "y": 0,
    "scale": 1.0,
    "transform": 0
  }
]"#;

fn decimal(text: &str) -> Decimal {
    match parse_rate(text) {
        Some(Rate::Finite(number)) => number,
        other => panic!("{text} is read as {other:?}"),
    }
}

fn text_of(entry: &Value, key: &str) -> String {
    entry[key].as_str().unwrap_or("").to_owned()
}

fn integer_of(entry: &Value, key: &str) -> i32 {
    entry[key].as_i64().unwrap_or(0) as i32
}

fn raw_monitor(entry: &Value) -> RawHyprMonitor {
    RawHyprMonitor {
        id: entry["id"].as_i64().unwrap_or(0),
        name: text_of(entry, "name"),
        description: text_of(entry, "description"),
        make: text_of(entry, "make"),
        model: text_of(entry, "model"),
        serial: text_of(entry, "serial"),
        width: integer_of(entry, "width"),
        height: integer_of(entry, "height"),
        physical_width: integer_of(entry, "physicalWidth"),
        physical_height: integer_of(entry, "physicalHeight"),
        refresh_rate: decimal(&entry["refreshRate"].to_string()),
        x: integer_of(entry, "x"),
        y: integer_of(entry, "y"),
        scale: match entry["scale"].is_null() {
            true => Decimal::whole(1),
            false => decimal(&entry["scale"].to_string()),
        },
        transform: integer_of(entry, "transform"),
        disabled: entry["disabled"].as_bool().unwrap_or(false),
        available_modes: match entry["availableModes"].as_array() {
            Some(modes) => modes
                .iter()
                .map(|mode| mode.as_str().unwrap().to_owned())
                .collect(),
            None => vec![],
        },
    }
}

fn parse_raw_monitors(json: &str) -> Vec<RawHyprMonitor> {
    let entries: Vec<Value> = serde_json::from_str(json).unwrap();
    entries.iter().map(raw_monitor).collect()
}

fn parse_monitors_output(json: &str) -> Vec<MonitorState> {
    normalize_monitors(parse_raw_monitors(json))
}

#[test]
fn exact_match_from_saved_fixture() {
    let monitors = parse_monitors_output(DESK);
    let profile = profile_from_monitors("desk", &monitors);

    let profile_match = match_profile(&profile, &monitors);

    assert_eq!(profile_match.confidence, MatchConfidence::Exact);
    assert_eq!(profile_match.score, 200);
    assert_eq!(profile_match.matched_monitors, 2);
}

#[test]
fn dock_renamed_outputs_match_by_physical_identity() {
    let saved = parse_monitors_output(DESK);
    let current = parse_monitors_output(DOCK_RENAMED);
    let profile = profile_from_monitors("desk", &saved);

    let profile_match = match_profile(&profile, &current);

    assert_eq!(profile_match.confidence, MatchConfidence::Exact);
    assert_eq!(profile_match.matched_monitors, 2);
    assert!(profile_match
        .reasons
        .iter()
        .any(|reason| reason.contains("HDMI-A-1")));
}

#[test]
fn same_model_with_different_serials_remains_distinct() {
    let monitors = parse_monitors_output(SAME_MODEL_DIFFERENT_SERIALS);
    let profile = profile_from_monitors("twins", &monitors);

    let profile_match = match_profile(&profile, &monitors);

    assert_eq!(profile_match.confidence, MatchConfidence::Exact);
    assert_eq!(profile_match.score, 200);
    assert_eq!(
        profile.monitors[0].id, "acme:workview:aaa",
        "first serial should have its own identity"
    );
    assert_eq!(
        profile.monitors[1].id, "acme:workview:bbb",
        "second serial should have its own identity"
    );
}

#[test]
fn duplicate_no_serial_monitors_do_not_collapse_when_outputs_are_renamed() {
    let saved = parse_monitors_output(DUPLICATE_NO_SERIAL);
    let current = parse_monitors_output(DUPLICATE_NO_SERIAL_RENAMED);
    let profile = profile_from_monitors("twins", &saved);

    let profile_match = match_profile(&profile, &current);

    assert_eq!(profile_match.confidence, MatchConfidence::Ambiguous);
    assert_eq!(profile_match.matched_monitors, 2);
}

#[test]
fn output_name_only_match_is_partial() {
    let current = parse_monitors_output(DESK);
    let profile = Profile {
        name: "weak".to_owned(),
        created_at: "created".to_owned(),
        updated_at: "updated".to_owned(),
        monitors: vec![ProfileMonitor {
            id: "unknown-physical-monitor".to_owned(),
            name_hint: "DP-1".to_owned(),
            description: "Different display".to_owned(),
            make: "Different".to_owned(),
            model: "Display".to_owned(),
            serial: "different".to_owned(),
            physical_width: 0,
            physical_height: 0,
        }],
        outputs: vec![],
    };

    let profile_match = match_profile(&profile, &current);

    assert_eq!(profile_match.confidence, MatchConfidence::Partial);
    assert_eq!(profile_match.score, 20);
}

#[test]
fn exact_description_is_the_explicit_high_confidence_threshold() {
    let current = parse_monitors_output(DESK);
    let mut profile = profile_from_monitors("desk", &current);
    for monitor in &mut profile.monitors {
        monitor.id = format!("stale:{}", monitor.id);
        monitor.serial = "stale".to_owned();
    }

    let profile_match = match_profile(&profile, &current);

    assert_eq!(profile_match.confidence, MatchConfidence::High);
    assert_eq!(profile_match.score, 120);
}

#[test]
fn physical_dimensions_survive_as_a_matching_fallback() {
    let current = parse_monitors_output(DESK).remove(0);
    let mut saved = ProfileMonitor::from(&current);
    saved.id = "stale-id".to_owned();
    saved.serial = "stale-serial".to_owned();
    saved.description = "stale description".to_owned();

    let (score, reason) = profile_monitor_match_score(&saved, &current);

    assert_eq!(score, 50);
    assert_eq!(reason, "make/model/physical size");
}

#[test]
fn monitor_ambiguity_blocks_configured_fallback() {
    let saved = parse_monitors_output(DUPLICATE_NO_SERIAL);
    let current = parse_monitors_output(DUPLICATE_NO_SERIAL_RENAMED);
    let mut store = ProfileStore::default();
    store.profiles.push(profile_from_monitors("twins", &saved));
    store
        .profiles
        .push(profile_from_monitors("fallback", &vec![unknown_monitor()]));

    let best_match = best_profile_match(&store, &current);
    let decision = decide_auto_apply(&store, &best_match, Some("fallback"));

    assert!(matches!(decision, AutoApplyDecision::Ambiguous { .. }));
}

#[test]
fn global_mapping_preserves_an_exact_match_instead_of_greedily_consuming_it() {
    let mut first = unknown_monitor();
    first.output_name = "Virtual-1".to_owned();
    first.id = "virtual:shared:one".to_owned();
    first.description = "Shared panel".to_owned();
    let mut second = first.clone();
    second.output_name = "Virtual-2".to_owned();
    second.id = "virtual:shared:two".to_owned();
    let current = vec![first.clone(), second];
    let profile = Profile {
        name: "global".to_owned(),
        created_at: "created".to_owned(),
        updated_at: "updated".to_owned(),
        monitors: vec![
            ProfileMonitor {
                id: "stale".to_owned(),
                name_hint: String::new(),
                description: "Shared panel".to_owned(),
                make: String::new(),
                model: String::new(),
                serial: String::new(),
                physical_width: 0,
                physical_height: 0,
            },
            ProfileMonitor::from(&first),
        ],
        outputs: vec![],
    };

    let profile_match = match_profile(&profile, &current);

    assert_eq!(profile_match.confidence, MatchConfidence::High);
    assert!(profile_match
        .reasons
        .iter()
        .any(|reason| reason.contains("matched Virtual-2 by exact description")));
    assert!(profile_match
        .reasons
        .iter()
        .any(|reason| reason.contains("matched Virtual-1 by exact monitor id")));
}

#[test]
fn best_profile_match_reports_ambiguous_exact_tie() {
    let monitors = parse_monitors_output(DESK);
    let mut store = ProfileStore::default();
    store
        .profiles
        .push(profile_from_monitors("desk-a", &monitors));
    store
        .profiles
        .push(profile_from_monitors("desk-b", &monitors));

    let best_match = best_profile_match(&store, &monitors);

    assert!(best_match.ambiguous);
    assert!(best_match.selected.is_none());
}

#[test]
fn fallback_profile_is_used_only_without_high_confidence_match() {
    let desk = parse_monitors_output(DESK);
    let mut store = ProfileStore::default();
    store.profiles.push(profile_from_monitors("desk", &desk));
    store
        .profiles
        .push(profile_from_monitors("fallback", &vec![unknown_monitor()]));

    let exact = best_profile_match(&store, &desk);
    let exact_output = format_auto_apply_dry_run(&exact, &store, Some("fallback"));
    assert!(exact_output.contains("Would select profile: desk"));
    assert!(exact_output.contains("Confidence: exact"));

    let no_match_current = vec![other_unknown_monitor()];
    let no_match = best_profile_match(&store, &no_match_current);
    let fallback_output = format_auto_apply_dry_run(&no_match, &store, Some("fallback"));
    assert!(fallback_output.contains("Would select profile: fallback"));
    assert!(fallback_output.contains("Confidence: fallback"));
}

#[test]
fn auto_apply_decision_selects_exact_match() {
    let monitors = parse_monitors_output(DESK);
    let mut store = ProfileStore::default();
    store
        .profiles
        .push(profile_from_monitors("desk", &monitors));

    let best_match = best_profile_match(&store, &monitors);
    let decision = decide_auto_apply(&store, &best_match, Some("fallback"));

    assert_eq!(
        decision,
        AutoApplyDecision::Apply {
            profile_name: "desk".to_owned(),
            confidence: "exact".to_owned(),
            reason: "2/2 monitor identities matched exactly".to_owned(),
        }
    );
}

#[test]
fn auto_apply_decision_uses_fallback_without_high_confidence_match() {
    let desk = parse_monitors_output(DESK);
    let mut store = ProfileStore::default();
    store.profiles.push(profile_from_monitors("desk", &desk));
    store
        .profiles
        .push(profile_from_monitors("fallback", &vec![unknown_monitor()]));

    let best_match = best_profile_match(&store, &vec![other_unknown_monitor()]);
    let decision = decide_auto_apply(&store, &best_match, Some("fallback"));

    assert_eq!(
        decision,
        AutoApplyDecision::Apply {
            profile_name: "fallback".to_owned(),
            confidence: "fallback".to_owned(),
            reason: "no exact or high-confidence match; fallback_profile is configured".to_owned(),
        }
    );
}

#[test]
fn auto_apply_decision_refuses_ambiguous_exact_match() {
    let monitors = parse_monitors_output(DESK);
    let mut store = ProfileStore::default();
    store
        .profiles
        .push(profile_from_monitors("desk-a", &monitors));
    store
        .profiles
        .push(profile_from_monitors("desk-b", &monitors));

    let best_match = best_profile_match(&store, &monitors);
    let decision = decide_auto_apply(&store, &best_match, Some("fallback"));

    assert_eq!(
        decision,
        AutoApplyDecision::Ambiguous {
            reason: "2/2 monitor identities matched exactly".to_owned(),
        }
    );
}

#[test]
fn auto_apply_decision_reports_missing_fallback() {
    let monitors = parse_monitors_output(DESK);
    let mut store = ProfileStore::default();
    store
        .profiles
        .push(profile_from_monitors("desk", &monitors));

    let best_match = best_profile_match(&store, &vec![unknown_monitor()]);
    let decision = decide_auto_apply(&store, &best_match, Some("missing"));

    assert_eq!(
        decision,
        AutoApplyDecision::MissingFallback {
            profile_name: "missing".to_owned(),
        }
    );
}

#[test]
fn fallback_profile_is_used_when_best_candidate_is_not_auto_eligible() {
    let desk = parse_monitors_output(DESK);
    let laptop =
        parse_monitors_output(LAPTOP);
    let mut store = ProfileStore::default();
    store.profiles.push(profile_from_monitors("desk", &desk));

    let best_match = best_profile_match(&store, &laptop);
    let output = format_auto_apply_dry_run(&best_match, &store, Some("desk"));

    assert!(output.contains("Would select profile: desk"));
    assert!(output.contains("Confidence: fallback"));
}

#[test]
fn missing_fallback_profile_is_reported() {
    let monitors = parse_monitors_output(DESK);
    let mut store = ProfileStore::default();
    store
        .profiles
        .push(profile_from_monitors("desk", &monitors));

    let best_match = best_profile_match(&store, &vec![unknown_monitor()]);
    let output = format_auto_apply_dry_run(&best_match, &store, Some("missing"));

    assert!(output.contains("fallback_profile `missing` does not exist"));
}

fn config_from(contents: &str) -> AppConfig {
    let table: toml::Table = toml::from_str(contents).unwrap();
    let defaults = AppConfig::default();
    AppConfig {
        fallback_profile: table
            .get("fallback_profile")
            .map(|name| name.as_str().unwrap().to_owned()),
        debounce_ms: match table.get("debounce_ms") {
            Some(value) => value.as_integer().unwrap() as u64,
            None => defaults.debounce_ms,
        },
        apply_on_start: match table.get("apply_on_start") {
            Some(value) => value.as_bool().unwrap(),
            None => defaults.apply_on_start,
        },
        tui_move_step: match table.get("tui_move_step") {
            Some(value) => value.as_integer().unwrap() as i32,
            None => defaults.tui_move_step,
        },
    }
}

#[test]
fn app_config_loads_optional_fallback_profile() {
    let config = config_from("fallback_profile = \"laptop\"\n").validated().unwrap();

    assert_eq!(config.fallback_profile.as_deref(), Some("laptop"));
    assert_eq!(config.debounce_ms, 900);
    assert!(!config.apply_on_start);
    assert_eq!(config.tui_move_step, 20);
}

#[test]
fn app_config_loads_daemon_fields() {
    let config = config_from(
        "fallback_profile = \"laptop\"\ndebounce_ms = 1250\napply_on_start = true\ntui_move_step = 80\n",
    )
    .validated()
    .unwrap();

    assert_eq!(config.fallback_profile.as_deref(), Some("laptop"));
    assert_eq!(config.debounce_ms, 1250);
    assert!(config.apply_on_start);
    assert_eq!(config.tui_move_step, 80);
}

#[test]
fn missing_app_config_loads_defaults() {
    let config = AppConfig::default();

    assert_eq!(config.fallback_profile, None);
    assert_eq!(config.debounce_ms, 900);
    assert!(!config.apply_on_start);
    assert_eq!(config.tui_move_step, 20);
}

#[test]
fn invalid_tui_move_step_is_rejected() {
    assert!(config_from("tui_move_step = 0\n")
        .validated()
        .unwrap_err()
        .to_string()
        .contains("tui_move_step must be between"));
}

#[test]
fn settings_outside_their_limits_are_rejected() {
    let slow = AppConfig {
        debounce_ms: 60_001,
        ..AppConfig::default()
    };
    assert_eq!(
        slow.validated().unwrap_err().to_string(),
        "debounce_ms must be between 0 and 60000 (zero disables debounce)"
    );
    let nameless = AppConfig {
        fallback_profile: Some(String::new()),
        ..AppConfig::default()
    };
    assert!(nameless
        .validated()
        .unwrap_err()
        .to_string()
        .starts_with("invalid fallback_profile: "));
    let far = AppConfig {
        tui_move_step: 10_001,
        ..AppConfig::default()
    };
    assert!(far.validated().is_err());
}

#[test]
fn doctor_prints_best_profile_summary_from_fixture() {
    let (store, monitors) = desk_store();
    let missing = FoundPath {
        path: "/nowhere".to_owned(),
        exists: false,
    };
    let report = build_doctor_report(Surroundings {
        paths: ConfigPaths::from_config_dir("/tmp/hyprdisjust-test").unwrap(),
        generated_exists: false,
        using_fixture: true,
        runtime_dir: None,
        signature: None,
        socket: Err(Error::new("no socket".to_owned())),
        service: Ok(missing),
        store: Ok(store),
        config: Ok(AppConfig::default()),
        monitors: Ok(monitors),
    });
    let stdout = format_doctor_report(&report);

    assert!(!report.has_errors());
    assert!(stdout.contains("Best profile: desk"));
    assert!(stdout.contains("Confidence: exact"));
}

#[test]
fn apply_auto_dry_run_explains_selected_profile() {
    let (store, monitors) = desk_store();

    let stdout = describe_auto_apply(&store, &monitors, None).unwrap();

    assert!(stdout.contains("Auto-apply dry run"));
    assert!(stdout.contains("Would select profile: desk"));
    assert!(stdout.contains("Confidence: exact"));
    assert!(stdout.contains(
        "hyprctl --batch \"eval hl.monitor({ output = \\\"DP-1\\\", disabled = false, mode = \\\"2560x1440@144\\\", position = \\\"0x0\\\", scale = 1, transform = 0 }) ; eval hl.monitor({ output = \\\"eDP-1\\\", disabled = false, mode = \\\"1920x1200@60\\\", position = \\\"2560x240\\\", scale = 1, transform = 0 })\""
    ));
}

#[test]
fn apply_named_dry_run_prints_exact_hyprctl_batch() {
    let (store, monitors) = desk_store();

    let stdout = describe_named_apply(&store, "desk", &monitors).unwrap();

    assert!(stdout.contains("Profile: desk"));
    assert!(stdout.contains(
        "hyprctl --batch \"eval hl.monitor({ output = \\\"DP-1\\\", disabled = false, mode = \\\"2560x1440@144\\\", position = \\\"0x0\\\", scale = 1, transform = 0 }) ; eval hl.monitor({ output = \\\"eDP-1\\\", disabled = false, mode = \\\"1920x1200@60\\\", position = \\\"2560x240\\\", scale = 1, transform = 0 })\""
    ));
}

#[test]
fn an_unmatched_store_selects_nothing() {
    let (store, _) = desk_store();

    let best_match = best_profile_match(&store, &vec![unknown_monitor()]);
    let decision = decide_auto_apply(&store, &best_match, None);

    assert_eq!(decision, AutoApplyDecision::NoMatch);
    assert_eq!(decision.profile_name(), None);
    assert_eq!(
        match_profile(&store.profiles[0], &vec![unknown_monitor()]).confidence,
        MatchConfidence::Unmatched
    );
}

#[test]
fn an_empty_store_selects_nothing() {
    let store = ProfileStore::default();

    let best_match = best_profile_match(&store, &vec![unknown_monitor()]);
    let decision = decide_auto_apply(&store, &best_match, Some("fallback"));

    assert_eq!(decision, AutoApplyDecision::NoProfiles);
    assert_eq!(format_best_profile_summary(&best_match, &store, None), None);
}

#[test]
fn incomplete_matches_are_not_eligible() {
    let (store, monitors) = desk_store();
    let current = vec![monitors[0].clone()];

    let best_match = best_profile_match(&store, &current);
    let decision = decide_auto_apply(&store, &best_match, None);

    assert_eq!(best_match.candidates[0].confidence, MatchConfidence::Partial);
    assert!(matches!(decision, AutoApplyDecision::NotEligible { .. }));
    assert!(require_auto_profile(&store, &best_match, None)
        .unwrap_err()
        .to_string()
        .contains("no exact or high-confidence profile match"));
}

#[test]
fn the_best_pairing_wins_over_the_first_one() {
    let (store, monitors) = desk_store();
    let reversed = vec![monitors[1].clone(), monitors[0].clone()];

    let resolved = resolve_monitor_matches(&store.profiles[0].monitors, &reversed);

    assert_eq!(resolved[0].as_ref().unwrap().current_index, 1);
    assert_eq!(resolved[1].as_ref().unwrap().current_index, 0);
    assert_eq!(resolved[0].as_ref().unwrap().score, 100);
    assert!(!resolved[0].as_ref().unwrap().ambiguous);
}

fn profile_from_monitors(name: &str, monitors: &Vec<MonitorState>) -> Profile {
    Profile::from_monitors(
        name.to_owned(),
        monitors,
        "created".to_owned(),
        "updated".to_owned(),
    )
}

fn desk_store() -> (ProfileStore, Vec<MonitorState>) {
    let monitors = parse_monitors_output(DESK);
    let mut store = ProfileStore::default();
    store
        .save_current_profile(Some("desk"), &monitors, false, "1000")
        .unwrap();
    (store, monitors)
}

fn unknown_monitor() -> MonitorState {
    monitor(
        "Virtual-1",
        "virtual:fallback:one",
        "Fallback",
        "Virtual",
        "Fallback",
    )
}

fn other_unknown_monitor() -> MonitorState {
    monitor(
        "Virtual-2",
        "virtual:other:two",
        "Other",
        "Virtual",
        "Other",
    )
}

fn monitor(
    output_name: &str,
    id: &str,
    description: &str,
    make: &str,
    model: &str,
) -> MonitorState {
    MonitorState {
        output_name: output_name.to_owned(),
        id: id.to_owned(),
        description: description.to_owned(),
        make: make.to_owned(),
        model: model.to_owned(),
        serial: String::new(),
        enabled: true,
        x: 0,
        y: 0,
        width: 1920,
        height: 1080,
        refresh_rate: Decimal::whole(60),
        scale: Decimal::whole(1),
        transform: 0,
        available_modes: vec![],
        physical_width: 0,
        physical_height: 0,
    }
}
