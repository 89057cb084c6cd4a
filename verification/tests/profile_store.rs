use hyprdisjust::config::ConfigPaths;
use hyprdisjust::hyprland::monitor::{normalize_monitors, MonitorState, RawHyprMonitor};
use hyprdisjust::number::{parse_rate, Decimal, Rate};
use hyprdisjust::profile::persist::{
    accept_saved_size, apply_lock_path_for_runtime_dir, decode_contents, lock_runtime_dir,
    LockDirAttempt, LockPlace,
};
use hyprdisjust::profile::store::{Profile, ProfileStore};
use serde_json::Value;

const DESK: &str = r#"[
  {
    "id": 0,
    "name": "DP-1",
    "description": "LG Electronics LG ULTRAGEAR 12345",
    "make": "LG Electronics",
    "model": "LG ULTRAGEAR",
    "serial": "12345",
    "width": 2560,
    "height": 1440,
    "physicalWidth": 600,
    "physicalHeight": 340,
    "refreshRate": 144.0,
    "x": 0,
    "y": 0,
    "scale": 1.0,
    "transform": 0,
    "disabled": false,
    "availableModes": ["2560x1440@144.00Hz", "1920x1080@60.00Hz"]
  },
  {
    "id": 1,
    "name": "eDP-1",
    "description": "BOE Internal Panel",
    "make": "BOE",
    "model": "Internal Panel",
    "serial": "",
    "width": 1920,
    "height": 1200,
    "physicalWidth": 300,
    "physicalHeight": 190,
    "refreshRate": 60.0,
    "x": 2560,
    "y": 240,
    "scale": 1.0,
    "transform": 0,
    "disabled": false,
    "availableModes": ["1920x1200@60.00Hz"]
  }
]"#;

const INACTIVE: &str = r#"[
  {
    "id": 2,
    "name": "HDMI-A-1",
    "description": "Dell Inc. U2415 XYZ",
    "make": "Dell Inc.",
    "model": "U2415",
    "serial": "XYZ",
    "width": 1920,
    "height": 1080,
    "refreshRate": 60.0,
    "x": -1920,
    "y": 0,
    "scale": 1.0,
    "transform": 0,
    "disabled": true,
    "availableModes": ["1920x1080@60.00Hz"]
  }
]"#;

const DUPLICATE_NO_SERIAL: &str = r#"[
  {
    "id": 0,
    "name": "DP-1",
    "description": "Acme SamePanel",
    "make": "Acme",
    "model": "SamePanel",
    "serial": "",
    "width": 1920,
    "height": 1080,
    "refreshRate": 60.0,
    "x": 0,
    "y": 0,
    "scale": 1.0,
    "transform": 0
  },
  {
    "id": 1,
    "name": "DP-2",
    "description": "Acme SamePanel",
    "make": "Acme",
    "model": "SamePanel",
    "serial": "",
    "width": 1920,
    "height": 1080,
    "refreshRate": 60.0,
    "x": 1920,
    "y": 0,
    "scale": 1.0,
    "transform": 0
  }
]"#;

fn decimal(text: &str) -> Decimal {
    match parse_rate(text) {
        Some(Rate::Finite(number)) => number,
        other => panic!("{text} is read as {other:?}"),
    }
}

fn text_of(entry: &Value, key: &str) -> String {
    entry[key].as_str().unwrap_or("").to_owned()
}

fn integer_of(entry: &Value, key: &str) -> i32 {
    entry[key].as_i64().unwrap_or(0) as i32
}

fn raw_monitor(entry: &Value) -> RawHyprMonitor {
    RawHyprMonitor {
        id: entry["id"].as_i64().unwrap_or(0),
        name: text_of(entry, "name"),
        description: text_of(entry, "description"),
        make: text_of(entry, "make"),
        model: text_of(entry, "model"),
        serial: text_of(entry, "serial"),
        width: integer_of(entry, "width"),
        height: integer_of(entry, "height"),
        physical_width: integer_of(entry, "physicalWidth"),
        physical_height: integer_of(entry, "physicalHeight"),
        refresh_rate: decimal(&entry["refreshRate"].to_string()),
        x: integer_of(entry, "x"),
        y: integer_of(entry, "y"),
        scale: match entry["scale"].is_null() {
            true => Decimal::whole(1),
            false => decimal(&entry["scale"].to_string()),
        },
        transform: integer_of(entry, "transform"),
        disabled: entry["disabled"].as_bool().unwrap_or(false),
        available_modes: match entry["availableModes"].as_array() {
            Some(modes) => modes
                .iter()
                .map(|mode| mode.as_str().unwrap().to_owned())
                .collect(),
            None => vec![],
        },
    }
}

fn parse_raw_monitors(json: &str) -> Vec<RawHyprMonitor> {
    let entries: Vec<Value> = serde_json::from_str(json).unwrap();
    entries.iter().map(raw_monitor).collect()
}

fn parse_monitors_output(json: &str) -> Vec<MonitorState> {
    normalize_monitors(parse_raw_monitors(json))
}

#[test]
fn config_paths_use_config_dir_override() {
    let paths = ConfigPaths::from_config_dir("/tmp/hyprdisjust-test").unwrap();

    assert_eq!(paths.config_dir, "/tmp/hyprdisjust-test");
    assert_eq!(
        paths.profile_store,
        "/tmp/hyprdisjust-test/profiles.toml"
    );
}

#[test]
fn config_paths_keep_generated_files_under_config_dir() {
    let paths = ConfigPaths::from_config_dir("/tmp/hyprdisjust-test").unwrap();

    assert_eq!(
        paths.generated_dir_path(),
        "/tmp/hyprdisjust-test/generated"
    );
    assert_eq!(
        paths.generated_monitors_lua_path(),
        "/tmp/hyprdisjust-test/generated/monitors.lua"
    );
}

#[test]
fn inactive_zero_geometry_is_saved_with_a_safe_mode() {
    let mut monitors = parse_monitors_output(INACTIVE);
    monitors[0].width = 0;
    monitors[0].height = 0;
    monitors[0].refresh_rate = Decimal::whole(0);
    let profile = Profile::from_monitors(
        "inactive".to_owned(),
        &monitors,
        "created".to_owned(),
        "updated".to_owned(),
    );

    assert!(!profile.outputs[0].enabled);
    assert_ne!(profile.outputs[0].mode, "0x0@0");
    assert!(profile.outputs[0].mode == "preferred" || profile.outputs[0].mode.contains('x'));
}

#[test]
fn generated_profile_names_avoid_collisions() {
    let monitors = parse_monitors_output(DESK);
    let mut store = ProfileStore::default();

    let first = store.save_current_profile(None, &monitors, false, "1000").unwrap();
    let second = store.save_current_profile(None, &monitors, false, "1000").unwrap();

    assert_eq!(first, "desk-2-monitors");
    assert_eq!(second, "desk-2-monitors-2");
}

#[test]
fn saved_profile_outputs_keep_duplicate_no_serial_monitors_distinct() {
    let monitors = parse_monitors_output(DUPLICATE_NO_SERIAL);
    let profile = Profile::from_monitors(
        "twins".to_owned(),
        &monitors,
        "created".to_owned(),
        "updated".to_owned(),
    );

    assert_eq!(
        profile.monitors[0].id,
        "acme:samepanel:no-serial:output:dp-1"
    );
    assert_eq!(
        profile.monitors[1].id,
        "acme:samepanel:no-serial:output:dp-2"
    );
    assert_eq!(
        profile.outputs[0].monitor_id,
        "acme:samepanel:no-serial:output:dp-1"
    );
    assert_eq!(
        profile.outputs[1].monitor_id,
        "acme:samepanel:no-serial:output:dp-2"
    );
}

#[test]
fn profile_store_renames_deletes_and_copies_profiles() {
    let monitors = parse_monitors_output(DESK);
    let mut store = ProfileStore::default();
    store
        .save_current_profile(Some("desk"), &monitors, false, "1000")
        .unwrap();

    store.rename_profile("desk", "work", "2000").unwrap();
    assert!(store.has_profile("work"));
    assert!(!store.has_profile("desk"));

    store.copy_profile("work", "backup", false, "3000").unwrap();
    assert!(store.has_profile("backup"));
    assert_eq!(store.profiles.len(), 2);

    let deleted = store.delete_profile("backup").unwrap();
    assert_eq!(deleted.name, "backup");
    assert_eq!(store.profiles.len(), 1);
}

#[test]
fn profile_store_lifecycle_refuses_ambiguous_mutations() {
    let monitors = parse_monitors_output(DESK);
    let mut store = ProfileStore::default();
    store
        .save_current_profile(Some("desk"), &monitors, false, "1000")
        .unwrap();
    store
        .save_current_profile(Some("laptop"), &monitors, false, "1000")
        .unwrap();

    assert!(store.rename_profile("desk", "laptop", "2000").is_err());
    assert!(store.rename_profile("missing", "other", "2000").is_err());
    assert!(store.copy_profile("missing", "other", false, "2000").is_err());
    assert!(store.copy_profile("desk", "laptop", false, "2000").is_err());
    assert!(store.delete_profile("missing").is_err());
}

#[test]
fn duplicate_profile_names_are_rejected_on_load() {
    let profile = |stamp: &str| Profile {
        name: "desk".to_owned(),
        created_at: stamp.to_owned(),
        updated_at: stamp.to_owned(),
        monitors: vec![],
        outputs: vec![],
    };
    let store = ProfileStore {
        profiles: vec![profile("a"), profile("b")],
    };

    assert_eq!(
        store.accept_saving().unwrap_err().headline(),
        "refusing to save invalid profile store"
    );
    let error = store.loaded("/tmp/profiles.toml").unwrap_err();
    assert_eq!(
        error.headline(),
        "invalid profile store at /tmp/profiles.toml"
    );
    assert!(error.to_string().contains("duplicate profile name"));
}

#[test]
fn a_saved_profile_remembers_the_mode_of_each_output() {
    let monitors = parse_monitors_output(DESK);
    let mut store = ProfileStore::default();

    let name = store
        .save_current_profile(Some("desk"), &monitors, false, "1000")
        .unwrap();

    assert_eq!(name, "desk");
    let loaded = store.loaded("/tmp/profiles.toml").unwrap();
    assert_eq!(loaded.profiles.len(), 1);
    assert_eq!(loaded.profiles[0].name, "desk");
    assert_eq!(loaded.profiles[0].monitors.len(), 2);
    assert_eq!(loaded.profiles[0].outputs[0].mode, "2560x1440@144");
    assert_eq!(loaded.profiles[0].created_at, "1000");
}

#[test]
fn a_change_starts_from_the_store_that_was_found() {
    let monitors = parse_monitors_output(DESK);
    let mut found = ProfileStore::default();
    found
        .save_current_profile(Some("desk"), &monitors, false, "1000")
        .unwrap();
    let mut initial = ProfileStore::default();
    initial
        .save_current_profile(Some("work"), &monitors, false, "1000")
        .unwrap();

    assert!(ProfileStore::starting_point(None, None).profiles.is_empty());
    assert!(ProfileStore::starting_point(None, Some(&initial)).has_profile("work"));
    let chosen = ProfileStore::starting_point(Some(found), Some(&initial));
    assert!(chosen.has_profile("desk"));
    assert!(!chosen.has_profile("work"));
    assert!(chosen.accept_mutation().is_ok());
    assert!(chosen.accept_saving().is_ok());
}

#[test]
fn a_store_that_is_not_valid_is_neither_kept_nor_written() {
    let monitors = parse_monitors_output(DESK);
    let mut store = ProfileStore::default();
    store
        .save_current_profile(Some("desk"), &monitors, false, "1000")
        .unwrap();
    store.profiles[0].outputs[0].transform = 8;

    assert!(store
        .accept_mutation()
        .unwrap_err()
        .to_string()
        .starts_with("profile mutation produced an invalid store: "));
    assert!(store
        .accept_saving()
        .unwrap_err()
        .to_string()
        .starts_with("refusing to save invalid profile store: "));
    assert_eq!(
        accept_saved_size(4 * 1024 * 1024 + 1)
            .unwrap_err()
            .to_string(),
        "refusing to save profile store larger than 4194304 bytes"
    );
    assert!(accept_saved_size(4 * 1024 * 1024).is_ok());
}

#[test]
fn files_that_are_no_text_are_refused() {
    assert_eq!(
        decode_contents("profile store", "/tmp/p", vec![0x68, 0xc3, 0xa9]).unwrap(),
        "h\u{e9}"
    );
    assert_eq!(
        decode_contents("profile store", "/tmp/p", vec![0x68, 0xff])
            .unwrap_err()
            .to_string(),
        "profile store at /tmp/p is not valid UTF-8"
    );
}

#[test]
fn apply_lock_path_is_independent_of_profile_store_root() {
    let first = apply_lock_path_for_runtime_dir(
        "/one/config/profiles.toml",
        "/run/user/1000",
        "/tmp",
        1000,
        LockDirAttempt::Made,
    )
    .unwrap();
    let second = apply_lock_path_for_runtime_dir(
        "/two/config/profiles.toml",
        "/run/user/1000",
        "/tmp",
        1000,
        LockDirAttempt::Made,
    )
    .unwrap();

    assert_eq!(first, second);
    assert_eq!(
        first,
        LockPlace::Ready {
            file: "/run/user/1000/hyprdisjust/apply.lock".to_owned(),
        }
    );
}

#[test]
fn the_lock_moves_where_the_runtime_directory_cannot_be_written() {
    let place = apply_lock_path_for_runtime_dir(
        "/config/profiles.toml",
        "/run/user/1000",
        "/tmp",
        1000,
        LockDirAttempt::Unavailable,
    )
    .unwrap();

    assert_eq!(
        place,
        LockPlace::Fallback {
            directory: "/tmp/hyprdisjust-1000".to_owned(),
            file: "/tmp/hyprdisjust-1000/apply.lock".to_owned(),
        }
    );
    assert_eq!(
        lock_runtime_dir(None).unwrap_err().to_string(),
        "XDG_RUNTIME_DIR is not set; cannot create apply lock"
    );
    assert_eq!(
        lock_runtime_dir(Some(String::new())).unwrap_err().to_string(),
        "XDG_RUNTIME_DIR is empty; cannot create apply lock"
    );
}

#[test]
fn settings_are_kept_below_the_settings_directory() {
    let chosen = ConfigPaths::resolve(Some("/etc/hdj".to_owned()), Some("/home/u/.config".to_owned()));
    assert_eq!(chosen.unwrap().config_file, "/etc/hdj/config.toml");
    let found = ConfigPaths::resolve(None, Some("/home/u/.config".to_owned())).unwrap();
    assert_eq!(found.config_dir, "/home/u/.config/hyprdisjust");
    assert_eq!(
        found.profile_lock_path(),
        "/home/u/.config/hyprdisjust/profiles.lock"
    );
    assert!(ConfigPaths::resolve(None, None).is_err());
    assert!(ConfigPaths::resolve(Some(String::new()), None).is_err());
}
