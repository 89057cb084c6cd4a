use hyprdisjust::atomic::{ensure_private_directory, DirectoryStep};
use hyprdisjust::config::AppConfig;
use hyprdisjust::daemon::{monitor_layout_fingerprint, AutoSwitchState};
use hyprdisjust::hyprland::hyprctl::check_batch_output;
use hyprdisjust::hyprland::ipc::{FrameBuffer, MonitorSocketEvent};
use hyprdisjust::hyprland::monitor::{
    normalize_monitors, slug_component, MonitorState, RawHyprMonitor,
};
use hyprdisjust::lines::lines;
use hyprdisjust::number::{parse_integer, parse_rate, Decimal, Rate};
use hyprdisjust::profile::matching::{best_profile_match, MatchConfidence};
use hyprdisjust::profile::plan::{plan_apply, verify_expected_state};
use hyprdisjust::profile::store::{format_mode, Profile, ProfileStore};
use hyprdisjust::profile::validation::{parse_mode, valid_mode};
use hyprdisjust::text::{decimal, split_once};
use hyprdisjust::tui::geometry::{CanvasTransform, CellRect};

const THIRD: i128 = 333_333_333_333_333_300;

fn raw(name: &str, model: &str, serial: &str, x: i32) -> RawHyprMonitor {
    RawHyprMonitor {
        id: 0,
        name: name.to_owned(),
        description: format!("Maker {model} {serial}"),
        make: "Maker".to_owned(),
        model: model.to_owned(),
        serial: serial.to_owned(),
        width: 1920,
        height: 1080,
        physical_width: 600,
        physical_height: 340,
        refresh_rate: Decimal::whole(60),
        x,
        y: 0,
        scale: Decimal::whole(1),
        transform: 0,
        disabled: false,
        available_modes: vec!["1920x1080@60.00Hz".to_owned()],
    }
}

fn desk(first: &str, second: &str) -> Vec<MonitorState> {
    normalize_monitors(vec![raw(first, "Wide", "A1", 0), raw(second, "Tall", "B2", 1920)])
}

fn saved(monitors: &Vec<MonitorState>) -> ProfileStore {
    let mut store = ProfileStore::default();
    store
        .save_current_profile(Some("desk"), monitors, false, "unix:1")
        .unwrap();
    store
}

#[test]
fn written_numbers_read_back() {
    for n in [0, 7, -7, 60, 1_000_000, -1_000_000, i32::MAX, i32::MIN] {
        let text = decimal(n as i128);
        assert_eq!(text, n.to_string());
        assert_eq!(
            parse_integer(&text, i32::MIN as i64, i32::MAX as i64),
            Some(n as i64)
        );
    }
    for units in [0, THIRD, 59_951 * 1_000_000_000_000_000, -1, 10_i128.pow(27)] {
        let value = Decimal::from_units(units);
        assert_eq!(parse_rate(&value.text()), Some(Rate::Finite(value)));
    }
    let rate = Decimal::from_units(59_951 * 1_000_000_000_000_000);
    assert_eq!(rate.short_text(), "59.951");
    assert_eq!(parse_rate("59.951"), Some(Rate::Finite(rate)));
}

#[test]
fn written_modes_read_back() {
    let rate = Decimal::from_units(59_951 * 1_000_000_000_000_000);
    assert_eq!(format_mode(1920, 1080, rate), "1920x1080@59.951");
    assert_eq!(
        parse_mode("1920x1080@59.951"),
        Some((1920, 1080, Rate::Finite(rate)))
    );
}

#[test]
fn a_saved_layout_is_chosen_again_on_other_connectors() {
    let store = saved(&desk("DP-1", "DP-2"));
    let moved = desk("HDMI-A-1", "DP-7");
    let best = best_profile_match(&store, &moved);
    let chosen = best.selected.unwrap();
    assert_eq!(chosen.profile_name, "desk");
    assert_eq!(chosen.confidence, MatchConfidence::Exact);
    assert_eq!(chosen.matched_monitors, 2);
    assert!(!best.ambiguous);
}

#[test]
fn a_layout_that_was_just_saved_is_in_force() {
    let monitors = desk("DP-1", "DP-2");
    let store = saved(&monitors);
    let plan = plan_apply(&store.profiles[0], &monitors).unwrap();
    assert!(plan.is_noop);
    assert!(verify_expected_state(&plan.expected, &monitors).is_ok());
    assert!(verify_expected_state(&plan.rollback_expected, &monitors).is_ok());
}

#[test]
fn the_way_back_is_to_what_was_there() {
    let mut store = saved(&desk("DP-1", "DP-2"));
    store.profiles[0].outputs[1].x = 4000;
    let monitors = desk("DP-1", "DP-2");
    let plan = plan_apply(&store.profiles[0], &monitors).unwrap();
    assert!(!plan.is_noop);
    assert!(verify_expected_state(&plan.expected, &monitors).is_err());
    assert!(verify_expected_state(&plan.rollback_expected, &monitors).is_ok());
    assert!(plan.rollback_batch.contains("1920x0"));
}

#[test]
fn a_change_to_one_profile_leaves_the_others_alone() {
    let monitors = desk("DP-1", "DP-2");
    let mut store = saved(&monitors);
    store
        .save_current_profile(Some("couch"), &monitors, false, "unix:2")
        .unwrap();
    let kept: Profile = store.profiles[1].clone();
    assert_eq!(kept.name, "desk");

    store
        .save_current_profile(Some("attic"), &monitors, false, "unix:3")
        .unwrap();
    store.rename_profile("couch", "sofa", "unix:4").unwrap();
    store.delete_profile("attic").unwrap();

    let names: Vec<&str> = store.profiles.iter().map(|p| p.name.as_str()).collect();
    assert_eq!(names, ["desk", "sofa"]);
    assert_eq!(store.profiles[0], kept);
    assert_eq!(store.profiles[1].monitors, kept.monitors);
}

#[test]
fn only_ok_is_accepted_of_a_batch() {
    assert!(check_batch_output("", "ok\n\n ok \n").is_ok());
    assert!(check_batch_output("", "").is_ok());
    let error = check_batch_output("cannot\n", "ok\ninvalid\n").unwrap_err();
    assert_eq!(
        error.to_string(),
        "failed to apply Hyprland monitor rules with `hyprctl --batch`: cannot\ninvalid"
    );
}

#[test]
fn texts_are_split_at_the_first_mark() {
    assert_eq!(split_once("1920x1080x60", 'x'), Some(("1920", "1080x60")));
    assert_eq!(split_once("1920", 'x'), None);
    assert_eq!(lines("[Unit]\r\nA=b\n\nend"), ["[Unit]", "A=b", "", "end"]);
}

#[test]
fn a_socket_that_ends_is_told() {
    let mut frames = FrameBuffer::new();
    frames.receive(b"monitoradded>>DP-1\nmonitor").unwrap();
    assert_eq!(
        frames.next_event().unwrap(),
        Some(MonitorSocketEvent::Added)
    );
    assert_eq!(
        frames.receive(b"").unwrap_err().to_string(),
        "Hyprland socket2 closed"
    );
    frames.receive(b"removed>>DP-1\n").unwrap();
    assert_eq!(
        frames.next_event().unwrap(),
        Some(MonitorSocketEvent::Removed)
    );
}

#[test]
fn an_output_is_found_under_its_cells() {
    let store = saved(&desk("DP-1", "DP-2"));
    let outputs = &store.profiles[0].outputs;
    let canvas = CanvasTransform::new(
        outputs,
        CellRect {
            x: 0,
            y: 0,
            width: 80,
            height: 20,
        },
    );
    assert_eq!(canvas.output_at(outputs, 20, 6), Some(0));
    assert_eq!(canvas.output_at(outputs, 60, 6), Some(1));
    assert_eq!(canvas.output_at(outputs, 200, 6), None);
}

#[test]
fn numbers_beyond_double_precision_are_infinite_or_zero() {
    for text in [
        "1e400",
        "1e308",
        "1e309",
        "1.7976931348623157e308",
        "1.7976931348623158e308",
        "1.7976931348623159e308",
        "17976931348623159e292",
        "179769313486231580793728971405303415079934132710037826936173778980444968292764750946649017977587207096330286416692887910946555547851940402630657488671505820681908902000708383676273854845817711531764475730270069855571366959622842914819860834936475292719074168444365510704342711559699508093042880177904174497792",
        "179769313486231580793728971405303415079934132710037826936173778980444968292764750946649017977587207096330286416692887910946555547851940402630657488671505820681908902000708383676273854845817711531764475730270069855571366959622842914819860834936475292719074168444365510704342711559699508093042880177904174497791",
        "179769313486231580793728971405303415079934132710037826936173778980444968292764750946649017977587207096330286416692887910946555547851940402630657488671505820681908902000708383676273854845817711531764475730270069855571366959622842914819860834936475292719074168444365510704342711559699508093042880177904174497791.5",
        "179769313486231580793728971405303415079934132710037826936173778980444968292764750946649017977587207096330286416692887910946555547851940402630657488671505820681908902000708383676273854845817711531764475730270069855571366959622842914819860834936475292719074168444365510704342711559699508093042880177904174497792.000",
        "1e-400",
        "5e-324",
        "2.4703e-324",
        "2.4704e-324",
        "0.0000000000000000000000001e-300",
        "0.0000000000000000000000001e-298",
        "0e-999",
        "0e999",
        "1e-18",
        "1e-19",
        "60",
    ] {
        let double: f64 = text.parse().unwrap();
        match parse_rate(text) {
            Some(Rate::Infinite) => assert!(double.is_infinite(), "{text}"),
            Some(Rate::Finite(number)) => {
                assert!(double.is_finite(), "{text}");
                assert_eq!(number.units() == 0, double == 0.0, "{text}");
            }
            other => panic!("{text} is read as {other:?}"),
        }
    }
    assert_eq!(parse_rate("-1e400"), Some(Rate::NegativeInfinite));
    assert_eq!(parse_rate("-1e-400"), Some(Rate::Finite(Decimal::from_units(0))));
    assert_eq!(parse_rate("1e-300"), Some(Rate::Finite(Decimal::from_units(1))));
}

#[test]
fn modes_need_a_rate_that_is_finite_and_not_zero() {
    assert!(valid_mode("1920x1080@1e2"));
    assert!(valid_mode("1920x1080@1e-300"));
    assert!(!valid_mode("1920x1080@1e400"));
    assert!(!valid_mode("1920x1080@1e-400"));
    assert!(!valid_mode("1920x1080@0"));
}

#[test]
fn the_way_back_tells_twins_apart() {
    let monitors = normalize_monitors(vec![raw("DP-1", "Wide", "", 0), raw("DP-2", "Wide", "", 1920)]);
    assert_ne!(monitors[0].id, monitors[1].id);
    let mut store = saved(&monitors);
    assert!(plan_apply(&store.profiles[0], &monitors).unwrap().is_noop);
    store.profiles[0].outputs[0].x = 4000;
    let plan = plan_apply(&store.profiles[0], &monitors).unwrap();
    assert!(!plan.is_noop);
    assert!(verify_expected_state(&plan.rollback_expected, &monitors).is_ok());
    let mut swapped = monitors.clone();
    swapped[0].x = 1920;
    swapped[1].x = 0;
    assert!(verify_expected_state(&plan.rollback_expected, &swapped).is_err());
}

#[test]
fn slugs_are_small_and_their_own_slugs() {
    for (text, slug) in [
        ("LG  Ultra-Gear!!", "lg-ultra-gear"),
        ("--A--", "a"),
        ("\u{212a}2", "k2"),
        ("\u{130}STANBUL", "i-stanbul"),
        ("\u{4e2d}", "unknown"),
    ] {
        assert_eq!(slug_component(text), slug);
        assert_eq!(slug_component(slug), slug);
    }
}

#[test]
fn an_attempt_is_held_back_once_while_the_same_outputs_are_shown() {
    let monitors = desk("DP-1", "DP-2");
    let turned: Vec<MonitorState> = monitors.iter().rev().cloned().collect();
    assert_eq!(
        monitor_layout_fingerprint(&monitors),
        monitor_layout_fingerprint(&turned)
    );
    let mut state = AutoSwitchState::default();
    state.suppress_attempt("desk", "batch", &monitors);
    assert!(state.consume_suppressed_attempt("desk", "batch", &turned));
    assert!(!state.consume_suppressed_attempt("desk", "batch", &turned));
    for (name, batch) in [("couch", "batch"), ("desk", "other")] {
        state.suppress_attempt("desk", "batch", &monitors);
        assert!(!state.consume_suppressed_attempt(name, batch, &monitors));
        assert!(!state.consume_suppressed_attempt("desk", "batch", &monitors));
    }
    for change in 0..8 {
        let mut changed = monitors.clone();
        match change {
            0 => changed[1].output_name = "DP-3".to_owned(),
            1 => changed[1].id = "other".to_owned(),
            2 => changed[1].enabled = false,
            3 => changed[1].y = 1,
            4 => changed[1].height = 1200,
            5 => changed[1].refresh_rate = Decimal::whole(75),
            6 => changed[1].scale = Decimal::whole(2),
            _ => changed[1].transform = 1,
        }
        assert_ne!(
            monitor_layout_fingerprint(&monitors),
            monitor_layout_fingerprint(&changed)
        );
        state.suppress_attempt("desk", "batch", &monitors);
        assert!(!state.consume_suppressed_attempt("desk", "batch", &changed));
    }
}

#[test]
fn a_refused_setting_is_told_under_its_name() {
    let mut config = AppConfig::default();
    config.fallback_profile = Some(" desk".to_owned());
    let error = config.validated().unwrap_err();
    assert_eq!(error.headline(), "invalid fallback_profile");
    assert!(error.message().starts_with("invalid fallback_profile: "));
    let mut config = AppConfig::default();
    config.tui_move_step = 0;
    let error = config.validated().unwrap_err();
    assert_eq!(error.headline(), "tui_move_step must be between 1 and 10000");
}

#[test]
fn names_with_a_nul_can_share_a_fingerprint() {
    let mut first = desk("DP-1", "DP-2");
    let mut second = first.clone();
    first[0].output_name = "A\0b".to_owned();
    first[0].id = "c".to_owned();
    second[0].output_name = "A".to_owned();
    second[0].id = "b\0c".to_owned();
    assert_eq!(
        monitor_layout_fingerprint(&first),
        monitor_layout_fingerprint(&second)
    );
    first[0].output_name = "A\nb".to_owned();
    second[0].output_name = "A".to_owned();
    second[0].id = "c".to_owned();
    assert_ne!(
        monitor_layout_fingerprint(&first),
        monitor_layout_fingerprint(&second)
    );
}

#[test]
fn a_directory_ends_private_as_it_was_written() {
    let present = |path: &str| DirectoryStep::Present(path.to_owned());
    let private = |path: &str| DirectoryStep::Private(path.to_owned());
    assert_eq!(ensure_private_directory(""), vec![private(".")]);
    assert_eq!(ensure_private_directory("."), vec![private(".")]);
    assert_eq!(ensure_private_directory("/"), vec![private("/")]);
    assert_eq!(
        ensure_private_directory("/a//b"),
        vec![present("/a"), present("/a/b"), private("/a//b")]
    );
    assert_eq!(
        ensure_private_directory("a//b/c"),
        vec![
            private("."),
            present("a"),
            private("a"),
            present("a"),
            present("a/b"),
            private("a//b"),
            present("a"),
            present("a/b"),
            present("a/b/c"),
            private("a//b/c"),
        ]
    );
}
