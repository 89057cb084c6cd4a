use hyprdisjust::cli::format_doctor;
use hyprdisjust::hyprland::monitor::{
    normalize_monitors, slug_component, stable_monitor_id, MonitorState, RawHyprMonitor,
};
use hyprdisjust::number::{parse_rate, Decimal, Rate};
use serde_json::Value;

const LAPTOP: &str = r#"[
  {
    "id": 0,
    "name": "eDP-1",
    "description": "Chimei Innolux Corporation 0x13C0",
    "make": "Chimei Innolux Corporation",
    "model": "0x13C0",
    "serial": "",
    "width": 1920,
    "height": 1280,
    "physicalWidth": 260,
    "physicalHeight": 170,
    "refreshRate": 60.003,
    "x": 0,
    "y": 0,
    "activeWorkspace": { "id": 1, "name": "1" },
    "scale": 1.0,
    "transform": 0,
    "focused": true,
    "disabled": false,
    "availableModes": ["1920x1280@60.00Hz"]
  }
]"#;

const DESK: &str = r#"[
  {
    "id": 0,
    "name": "DP-1",
    "description": "LG Electronics LG ULTRAGEAR 12345",
    "make": "LG Electronics",
    "model": "LG ULTRAGEAR",
    "serial": "12345",
    "width": 2560,
    "height": 1440,
    "physicalWidth": 600,
    "physicalHeight": 340,
    "refreshRate": 144.0,
    "x": 0,
    "y": 0,
    "scale": 1.0,
    "transform": 0,
    "disabled": false,
    "availableModes": ["2560x1440@144.00Hz", "1920x1080@60.00Hz"]
  },
  {
    "id": 1,
    "name": "eDP-1",
    "description": "BOE Internal Panel",
    "make": "BOE",
    "model": "Internal Panel",
    "serial": "",
    "width": 1920,
    "height": 1200,
    "physicalWidth": 300,
    "physicalHeight": 190,
    "refreshRate": 60.0,
    "x": 2560,
    "y": 240,
    "scale": 1.0,
    "transform": 0,
    "disabled": false,
    "availableModes": ["1920x1200@60.00Hz"]
  }
]"#;

const INACTIVE: &str = r#"[
  {
    "id": 2,
    "name": "HDMI-A-1",
    "description": "Dell Inc. U2415 XYZ",
    "make": "Dell Inc.",
    "model": "U2415",
    "serial": "XYZ",
    "width": 1920,
    "height": 1080,
    "refreshRate": 60.0,
    "x": -1920,
    "y": 0,
    "scale": 1.0,
    "transform": 0,
    "disabled": true,
    "availableModes": ["1920x1080@60.00Hz"]
  }
]"#;

const DUPLICATE_NO_SERIAL: &str = r#"[
  {
    "id": 0,
    "name": "DP-1",
    "description": "Acme SamePanel",
    "make": "Acme",
    "model": "SamePanel",
    "serial": "",
    "width": 1920,
    "height": 1080,
    "refreshRate": 60.0,
    "x": 0,
    "y": 0,
    "scale": 1.0,
    "transform": 0
  },
  {
    "id": 1,
    "name": "DP-2",
    "description": "Acme SamePanel",
    "make": "Acme",
    "model": "SamePanel",
    "serial": "",
    "width": 1920,
    "height": 1080,
    "refreshRate": 60.0,
    "x": 1920,
    "y": 0,
    "scale": 1.0,
    "transform": 0
  }
]"#;

const MISSING_SCALE: &str = r#"[
  {
    "id": 0,
    "name": "DP-1",
    "description": "Acme Missing Scale",
    "make": "Acme",
    "model": "Missing Scale",
    "serial": "123",
    "width": 1920,
    "height": 1080,
    "refreshRate": 60.0,
    "x": 0,
    "y": 0,
    "transform": 0
  }
]"#;

fn decimal(text: &str) -> Decimal {
    match parse_rate(text) {
        Some(Rate::Finite(number)) => number,
        other => panic!("{text} is read as {other:?}"),
    }
}

fn text_of(entry: &Value, key: &str) -> String {
    entry[key].as_str().unwrap_or("").to_owned()
}

fn integer_of(entry: &Value, key: &str) -> i32 {
    entry[key].as_i64().unwrap_or(0) as i32
}

fn raw_monitor(entry: &Value) -> RawHyprMonitor {
    RawHyprMonitor {
        id: entry["id"].as_i64().unwrap_or(0),
        name: text_of(entry, "name"),
        description: text_of(entry, "description"),
        make: text_of(entry, "make"),
        model: text_of(entry, "model"),
        serial: text_of(entry, "serial"),
        width: integer_of(entry, "width"),
        height: integer_of(entry, "height"),
        physical_width: integer_of(entry, "physicalWidth"),
        physical_height: integer_of(entry, "physicalHeight"),
        refresh_rate: decimal(&entry["refreshRate"].to_string()),
        x: integer_of(entry, "x"),
        y: integer_of(entry, "y"),
        scale: match entry["scale"].is_null() {
            true => Decimal::whole(1),
            false => decimal(&entry["scale"].to_string()),
        },
        transform: integer_of(entry, "transform"),
        disabled: entry["disabled"].as_bool().unwrap_or(false),
        available_modes: match entry["availableModes"].as_array() {
            Some(modes) => modes
                .iter()
                .map(|mode| mode.as_str().unwrap().to_owned())
                .collect(),
            None => vec![],
        },
    }
}

fn parse_raw_monitors(json: &str) -> Vec<RawHyprMonitor> {
    let entries: Vec<Value> = serde_json::from_str(json).unwrap();
    entries.iter().map(raw_monitor).collect()
}

fn parse_monitors_output(json: &str) -> Vec<MonitorState> {
    normalize_monitors(parse_raw_monitors(json))
}

#[test]
fn active_laptop_fixture_parses() {
    let monitors = parse_monitors_output(LAPTOP);

    assert_eq!(monitors.len(), 1);
    assert_eq!(monitors[0].output_name, "eDP-1");
    assert_eq!(
        monitors[0].id,
        "chimei-innolux-corporation:0x13c0:no-serial"
    );
    assert_eq!(monitors[0].width, 1920);
    assert_eq!(monitors[0].height, 1280);
    assert_eq!(monitors[0].refresh_rate, decimal("60.003"));
    assert_eq!(monitors[0].x, 0);
    assert_eq!(monitors[0].y, 0);
    assert_eq!(monitors[0].scale, Decimal::whole(1));
    assert_eq!(monitors[0].transform, 0);
    assert!(monitors[0].enabled);
    assert_eq!(monitors[0].available_modes, vec!["1920x1280@60.00Hz"]);
}

#[test]
fn desk_fixture_parses_two_monitors() {
    let monitors = parse_monitors_output(DESK);

    assert_eq!(monitors.len(), 2);
    assert_eq!(monitors[0].id, "lg-electronics:lg-ultragear:12345");
    assert_eq!(monitors[1].id, "boe:internal-panel:no-serial");
    assert_eq!(monitors[1].x, 2560);
    assert_eq!(monitors[1].y, 240);
}

#[test]
fn inactive_fixture_normalizes_enabled_false() {
    let monitors = parse_monitors_output(INACTIVE);

    assert_eq!(monitors.len(), 1);
    assert!(!monitors[0].enabled);
    assert_eq!(monitors[0].x, -1920);
}

#[test]
fn missing_scale_defaults_to_one() {
    let monitors = parse_monitors_output(MISSING_SCALE);

    assert_eq!(monitors[0].scale, Decimal::whole(1));
}

#[test]
fn duplicate_no_serial_monitor_ids_are_disambiguated_by_output_name() {
    let monitors = parse_monitors_output(DUPLICATE_NO_SERIAL);

    assert_eq!(monitors.len(), 2);
    assert_eq!(monitors[0].id, "acme:samepanel:no-serial:output:dp-1");
    assert_eq!(monitors[1].id, "acme:samepanel:no-serial:output:dp-2");
}

#[test]
fn stable_id_with_serial() {
    let id = stable_monitor_id("LG Electronics", "LG ULTRAGEAR", "12345", "...", "DP-1");

    assert_eq!(id, "lg-electronics:lg-ultragear:12345");
}

#[test]
fn stable_id_without_serial() {
    let id = stable_monitor_id(
        "Chimei Innolux Corporation",
        "0x13C0",
        "",
        "Chimei Innolux Corporation 0x13C0",
        "eDP-1",
    );

    assert_eq!(id, "chimei-innolux-corporation:0x13c0:no-serial");
}

#[test]
fn slug_generation() {
    assert_eq!(slug_component(" LG  ULTRAGEAR!! "), "lg-ultragear");
    assert_eq!(slug_component("0x13C0"), "0x13c0");
    assert_eq!(slug_component(""), "unknown");
}

#[test]
fn doctor_format_from_fixture() {
    let monitors = parse_monitors_output(LAPTOP);
    let output = format_doctor(&monitors);

    assert!(output.contains("Hyprland: detected"));
    assert!(output.contains("Monitors: 1"));
    assert!(output.contains("id: chimei-innolux-corporation:0x13c0:no-serial"));
    assert!(output.contains("mode: 1920x1280@60.003"));
}

#[test]
fn doctor_format_includes_disabled_status() {
    let monitors = parse_monitors_output(INACTIVE);
    let output = format_doctor(&monitors);

    assert!(output.contains("status: disabled"));
}

#[test]
fn parse_tolerates_extra_fields() {
    let raw = parse_raw_monitors(LAPTOP);

    assert_eq!(raw.len(), 1);
    assert_eq!(raw[0].name, "eDP-1");
}

#[test]
fn slugs_fold_letters_beyond_ascii() {
    assert_eq!(slug_component("DELL\u{c9}U2415"), "dell-u2415");
    assert_eq!(slug_component("\u{212a}ELVIN"), "kelvin");
}

#[test]
fn identities_fall_back_to_the_description_and_the_connector() {
    assert_eq!(
        stable_monitor_id("", "", "", "Projector Hall 3", "HDMI-A-1"),
        "description:projector-hall-3"
    );
    assert_eq!(stable_monitor_id("", "", "", "", "HDMI-A-1"), "output:hdmi-a-1");
}
