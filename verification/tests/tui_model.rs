use hyprdisjust::config::{AppConfig, ConfigPaths};
use hyprdisjust::error::Error;
use hyprdisjust::hyprland::monitor::{normalize_monitors, MonitorState, RawHyprMonitor};
use hyprdisjust::number::{parse_rate, Decimal, Rate};
use hyprdisjust::profile::store::{ProfileOutput, ProfileStore};
use hyprdisjust::profile::validation::{MAX_PROFILE_NAME_BYTES, MAX_SCALE, MIN_SCALE};
use hyprdisjust::tui::geometry::{
    move_output, output_rect, output_rect_with_monitors, snap_output, CanvasTransform, CellRect,
    SnapDirection, TERMINAL_CELL_ASPECT_RATIO,
};
use hyprdisjust::tui::input::{
    finish_apply, handle_mouse, key_to_action, review_plan, DragState, KeyInput, MouseInput,
};
use hyprdisjust::tui::layout::layout_areas;
use hyprdisjust::tui::view::{
    details_panel, preview_panel, profile_list, profile_output_from_row, render_canvas,
    render_help, title_line, truncate_to_width, warning_panel, Accent,
};
use hyprdisjust::tui::{
    format_snapshot, initial_model, TuiAction, TuiApp, TuiEffect, TuiInputMode,
};
use serde_json::Value;

const CONFIG_DIR: &str = "/tmp/hyprdisjust-test";

const DESK: &str = r#"[
  {
    "id": 0,
    "name": "DP-1",
    "description": "LG Electronics LG ULTRAGEAR 12345",
    "make": "LG Electronics",
    "model": "LG ULTRAGEAR",
    "serial": "12345",
    "width": 2560,
    "height": 1440,
    "physicalWidth": 600,
    "physicalHeight": 340,
    "refreshRate": 144.0,
    "x": 0,
    "y": 0,
    "scale": 1.0,
    "transform": 0,
    "disabled": false,
    "availableModes": ["2560x1440@144.00Hz", "1920x1080@60.00Hz"]
  },
  {
    "id": 1,
    "name": "eDP-1",
    "description": "BOE Internal Panel",
    "make": "BOE",
    "model": "Internal Panel",
    "serial": "",
    "width": 1920,
    "height": 1200,
    "physicalWidth": 300,
    "physicalHeight": 190,
    "refreshRate": 60.0,
    "x": 2560,
    "y": 240,
    "scale": 1.0,
    "transform": 0,
    "disabled": false,
    "availableModes": ["1920x1200@60.00Hz"]
  }
]"#;

fn decimal(text: &str) -> Decimal {
    match parse_rate(text) {
        Some(Rate::Finite(number)) => number,
        other => panic!("{text} is read as {other:?}"),
    }
}

fn text_of(entry: &Value, key: &str) -> String {
    entry[key].as_str().unwrap_or("").to_owned()
}

fn integer_of(entry: &Value, key: &str) -> i32 {
    entry[key].as_i64().unwrap_or(0) as i32
}

fn raw_monitor(entry: &Value) -> RawHyprMonitor {
    RawHyprMonitor {
        id: entry["id"].as_i64().unwrap_or(0),
        name: text_of(entry, "name"),
        description: text_of(entry, "description"),
        make: text_of(entry, "make"),
        model: text_of(entry, "model"),
        serial: text_of(entry, "serial"),
        width: integer_of(entry, "width"),
        height: integer_of(entry, "height"),
        physical_width: integer_of(entry, "physicalWidth"),
        physical_height: integer_of(entry, "physicalHeight"),
        refresh_rate: decimal(&entry["refreshRate"].to_string()),
        x: integer_of(entry, "x"),
        y: integer_of(entry, "y"),
        scale: match entry["scale"].is_null() {
            true => Decimal::whole(1),
            false => decimal(&entry["scale"].to_string()),
        },
        transform: integer_of(entry, "transform"),
        disabled: entry["disabled"].as_bool().unwrap_or(false),
        available_modes: match entry["availableModes"].as_array() {
            Some(modes) => modes
                .iter()
                .map(|mode| mode.as_str().unwrap().to_owned())
                .collect(),
            None => vec![],
        },
    }
}

fn parse_raw_monitors(json: &str) -> Vec<RawHyprMonitor> {
    let entries: Vec<Value> = serde_json::from_str(json).unwrap();
    entries.iter().map(raw_monitor).collect()
}

fn parse_monitors_output(json: &str) -> Vec<MonitorState> {
    normalize_monitors(parse_raw_monitors(json))
}

#[test]
fn initial_model_selects_best_matching_profile() {
    let monitors = parse_monitors_output(DESK);
    let mut store = ProfileStore::default();
    store
        .save_current_profile(Some("desk"), &monitors, false, "1000")
        .unwrap();

    let model = initial_model(&store, &monitors, None).unwrap();

    assert_eq!(model.selected_profile.as_deref(), Some("desk"));
    assert_eq!(model.monitors.len(), 2);
    assert_eq!(model.profiles.len(), 1);
    assert!(model.apply_plan.is_some());
    assert_eq!(model.status, "Previewing profile `desk`");
}

#[test]
fn snapshot_handles_empty_profile_store() {
    let monitors = parse_monitors_output(DESK);
    let store = ProfileStore::default();

    let model = initial_model(&store, &monitors, None).unwrap();
    let snapshot = format_snapshot(&model);

    assert_eq!(model.selected_profile, None);
    assert!(snapshot.contains("No profiles saved yet"));
    assert!(snapshot.contains("Profiles:\n- none"));
}

#[test]
fn a_draft_without_a_way_back_is_refused_in_brief() {
    let mut monitors = parse_monitors_output(DESK);
    let mut store = ProfileStore::default();
    let first: Vec<MonitorState> = monitors[..1].to_vec();
    store
        .save_current_profile(Some("desk"), &first, false, "1000")
        .unwrap();
    monitors[1].enabled = false;
    monitors[1].output_name = "DP;2".to_owned();
    let mut app = app_for(store, monitors);

    app.handle_action(TuiAction::SelectProfile(0)).unwrap();

    assert_eq!(
        app.view_model().status,
        "Draft cannot be previewed: failed to capture rollback monitor rules"
    );
    assert_eq!(
        app.draft_apply_plan().unwrap_err().to_string(),
        "failed to capture rollback monitor rules: output name must not contain command separators"
    );
}

#[test]
fn selecting_profile_rebuilds_the_draft_preview() {
    let monitors = parse_monitors_output(DESK);
    let mut store = ProfileStore::default();
    store
        .save_current_profile(Some("desk"), &monitors, false, "1000")
        .unwrap();
    let mut shifted = monitors.clone();
    shifted[0].x = 120;
    store
        .save_current_profile(Some("shifted"), &shifted, false, "1000")
        .unwrap();
    let mut app = app_for(store, monitors);

    app.handle_action(TuiAction::SelectProfile(1)).unwrap();

    assert_eq!(
        app.view_model().selected_profile.as_deref(),
        Some("shifted")
    );
    assert!(app.draft_apply_plan().unwrap().batch.contains("120x0"));
    assert!(!app.dirty);
}

#[test]
fn new_draft_starts_from_current_monitors_even_when_profiles_exist() {
    let saved_monitors = parse_monitors_output(DESK);
    let mut current_monitors = saved_monitors.clone();
    current_monitors[0].x = 120;

    let mut store = ProfileStore::default();
    store
        .save_current_profile(Some("desk"), &saved_monitors, false, "1000")
        .unwrap();
    let mut app = app_for(store, current_monitors);

    app.handle_action(TuiAction::NewDraft).unwrap();

    let model = app.view_model();
    assert_eq!(model.selected_profile, None);
    assert!(app.dirty);
    assert!(app.draft_apply_plan().unwrap().batch.contains("120x0"));
    assert!(app.status.contains("from current monitors"));
}

#[test]
fn movement_marks_draft_dirty_and_apply_returns_shared_plan_effect() {
    let monitors = parse_monitors_output(DESK);
    let mut store = ProfileStore::default();
    store
        .save_current_profile(Some("desk"), &monitors, false, "1000")
        .unwrap();
    let mut app = app_for(store, monitors);

    app.handle_action(TuiAction::MoveSelected(-40, 20)).unwrap();
    let effect = app.handle_action(TuiAction::ApplyDraft).unwrap();

    assert!(app.dirty);
    assert!(matches!(effect, TuiEffect::Apply(_)));
}

#[test]
fn tui_replans_noop_decision_from_fresh_monitor_state() {
    let monitors = parse_monitors_output(DESK);
    let mut store = ProfileStore::default();
    store
        .save_current_profile(Some("desk"), &monitors, false, "1000")
        .unwrap();
    let mut app = TuiApp::new(
        store,
        ConfigPaths::from_config_dir(CONFIG_DIR).unwrap(),
        AppConfig::default(),
        monitors.clone(),
    )
    .unwrap();
    assert!(app.draft_apply_plan().unwrap().is_noop);

    let mut changed = monitors;
    changed[0].x += 20;
    let fresh_plan = app.draft_apply_plan_for_monitors(changed).unwrap();

    assert!(!fresh_plan.is_noop);
}

#[test]
fn apply_with_warnings_requires_confirmation() {
    let monitors = parse_monitors_output(DESK);
    let mut store = ProfileStore::default();
    store
        .save_current_profile(Some("overlap"), &monitors, false, "1000")
        .unwrap();
    store.profiles[0].outputs[1].x = 100;
    store.profiles[0].outputs[1].y = 0;
    let mut app = app_for(store, monitors);

    let effect = app.handle_action(TuiAction::ApplyDraft).unwrap();

    assert_eq!(effect, TuiEffect::Nothing);
    assert_eq!(app.input_mode, TuiInputMode::ConfirmApply);
    assert!(app.status.contains("warning"));
    assert!(matches!(
        app.handle_action(TuiAction::Confirm).unwrap(),
        TuiEffect::Apply(_)
    ));
}

#[test]
fn nudge_uses_configured_tui_move_step() {
    let monitors = parse_monitors_output(DESK);
    let mut store = ProfileStore::default();
    store
        .save_current_profile(Some("desk"), &monitors, false, "1000")
        .unwrap();
    let mut app = TuiApp::new(
        store,
        ConfigPaths::from_config_dir(CONFIG_DIR).unwrap(),
        AppConfig {
            tui_move_step: 80,
            ..AppConfig::default()
        },
        monitors,
    )
    .unwrap();

    app.handle_action(TuiAction::NudgeRight).unwrap();

    assert_eq!(app.draft.outputs[0].x, 80);
}

#[test]
fn mode_selection_is_explicit_before_changing_mode() {
    let monitors = parse_monitors_output(DESK);
    let mut store = ProfileStore::default();
    store
        .save_current_profile(Some("desk"), &monitors, false, "1000")
        .unwrap();
    let mut app = app_for(store, monitors);

    app.handle_action(TuiAction::CycleSelectedMode).unwrap();
    assert!(matches!(
        app.input_mode,
        TuiInputMode::ModeSelect { ref modes, cursor: 0 } if modes.len() == 2
    ));
    assert_eq!(app.draft.outputs[0].mode, "2560x1440@144");

    app.handle_action(TuiAction::SelectNextMode).unwrap();
    app.handle_action(TuiAction::Submit).unwrap();

    assert_eq!(app.input_mode, TuiInputMode::Normal);
    assert_eq!(app.draft.outputs[0].mode, "1920x1080@60.00");
    assert!(app.dirty);
}

#[test]
fn snap_target_selection_is_explicit_when_multiple_targets_exist() {
    let monitors = parse_monitors_output(DESK);
    let mut store = ProfileStore::default();
    store
        .save_current_profile(Some("desk"), &monitors, false, "1000")
        .unwrap();
    let mut app = app_for(store, monitors);
    let mut third = app.draft.outputs[1].clone();
    third.monitor_id = "third".to_owned();
    third.x = 5000;
    app.draft.outputs.push(third);

    app.handle_action(TuiAction::SnapSelected(SnapDirection::Left))
        .unwrap();

    assert!(matches!(
        app.input_mode,
        TuiInputMode::SnapTarget { ref targets, cursor: 0, .. } if targets.len() == 2
    ));
    app.handle_action(TuiAction::SelectNextMode).unwrap();
    app.handle_action(TuiAction::Submit).unwrap();
    assert_eq!(app.input_mode, TuiInputMode::Normal);
    assert!(app.dirty);
}

#[test]
fn save_as_writes_profile_store_and_selects_saved_profile() {
    let monitors = parse_monitors_output(DESK);
    let store = ProfileStore::default();
    let mut disk = None;
    let mut app = app_for(store, monitors);

    app.handle_action(TuiAction::BeginSaveAs).unwrap();
    app.input_mode = TuiInputMode::SaveAs {
        name: "desk".to_owned(),
    };
    act(&mut app, &mut disk, TuiAction::Submit);

    let saved = disk.unwrap();
    assert_eq!(saved.profiles.len(), 1);
    assert_eq!(saved.profiles[0].name, "desk");
    assert_eq!(app.view_model().selected_profile.as_deref(), Some("desk"));
    assert!(!app.dirty);
}

#[test]
fn save_as_existing_profile_requires_replace_confirmation() {
    let monitors = parse_monitors_output(DESK);
    let mut store = ProfileStore::default();
    store
        .save_current_profile(Some("desk"), &monitors, false, "1000")
        .unwrap();
    let mut app = app_for(store, monitors);

    app.input_mode = TuiInputMode::SaveAs {
        name: "desk".to_owned(),
    };
    app.handle_action(TuiAction::Submit).unwrap();

    assert!(matches!(
        app.input_mode,
        TuiInputMode::ConfirmReplace { ref name } if name == "desk"
    ));
}

#[test]
fn profile_name_editing_is_bounded_by_utf8_byte_length() {
    let monitors = parse_monitors_output(DESK);
    let mut app = app_for(ProfileStore::default(), monitors);
    app.input_mode = TuiInputMode::SaveAs {
        name: String::new(),
    };

    for _ in 0..MAX_PROFILE_NAME_BYTES {
        app.handle_action(TuiAction::SaveNameChar('a')).unwrap();
    }
    app.handle_action(TuiAction::SaveNameChar('é')).unwrap();

    assert!(matches!(
        app.input_mode,
        TuiInputMode::SaveAs { ref name } if name.len() == MAX_PROFILE_NAME_BYTES
    ));
}

#[test]
fn tui_scale_editor_uses_shared_validation_range() {
    let monitors = parse_monitors_output(DESK);
    let mut app = app_for(ProfileStore::default(), monitors);

    app.draft.outputs[0].scale = Decimal::from_units(MIN_SCALE);
    app.handle_action(TuiAction::AdjustSelectedScale(Decimal::whole(-1)))
        .unwrap();
    assert_eq!(app.draft.outputs[0].scale, Decimal::from_units(MIN_SCALE));

    app.draft.outputs[0].scale = Decimal::from_units(MAX_SCALE);
    app.handle_action(TuiAction::AdjustSelectedScale(Decimal::whole(1)))
        .unwrap();
    assert_eq!(app.draft.outputs[0].scale, Decimal::from_units(MAX_SCALE));
}

#[test]
fn moving_a_disabled_output_does_not_mark_the_draft_dirty() {
    let monitors = parse_monitors_output(DESK);
    let mut app = app_for(ProfileStore::default(), monitors);
    app.draft.outputs[0].enabled = false;

    app.handle_action(TuiAction::MoveSelected(20, 20)).unwrap();

    assert!(!app.dirty);
}

#[test]
fn tui_can_rename_and_delete_saved_profiles() {
    let monitors = parse_monitors_output(DESK);
    let mut store = ProfileStore::default();
    store
        .save_current_profile(Some("desk"), &monitors, false, "1000")
        .unwrap();
    let mut disk = None;
    let mut app = app_for(store, monitors);

    app.handle_action(TuiAction::BeginRename).unwrap();
    app.input_mode = TuiInputMode::RenameProfile {
        name: "work".to_owned(),
    };
    act(&mut app, &mut disk, TuiAction::Submit);
    assert_eq!(app.view_model().selected_profile.as_deref(), Some("work"));
    assert!(disk.as_ref().unwrap().has_profile("work"));

    act(&mut app, &mut disk, TuiAction::BeginDelete);
    assert!(matches!(
        app.input_mode,
        TuiInputMode::ConfirmDelete { ref name } if name == "work"
    ));
    act(&mut app, &mut disk, TuiAction::Confirm);
    assert!(disk.unwrap().profiles.is_empty());
    assert_eq!(app.view_model().selected_profile, None);
}

#[test]
fn tui_can_copy_a_saved_profile_with_a_collision_safe_name() {
    let monitors = parse_monitors_output(DESK);
    let mut store = ProfileStore::default();
    store
        .save_current_profile(Some("desk"), &monitors, false, "1000")
        .unwrap();
    let mut disk = None;
    let mut app = app_for(store, monitors);

    app.handle_action(TuiAction::BeginCopy).unwrap();
    assert!(matches!(
        app.input_mode,
        TuiInputMode::CopyProfile { ref source, ref name }
            if source == "desk" && name == "desk-copy"
    ));
    act(&mut app, &mut disk, TuiAction::Submit);

    let saved = disk.unwrap();
    assert!(saved.has_profile("desk"));
    assert!(saved.has_profile("desk-copy"));
    assert_eq!(
        app.view_model().selected_profile.as_deref(),
        Some("desk-copy")
    );
}

#[test]
fn tui_refresh_and_auto_selection_are_explicit_actions() {
    let monitors = parse_monitors_output(DESK);
    let mut store = ProfileStore::default();
    store
        .save_current_profile(Some("desk"), &monitors, false, "1000")
        .unwrap();
    let mut app = app_for(store, monitors.clone());

    assert_eq!(
        app.handle_action(TuiAction::RefreshMonitors).unwrap(),
        TuiEffect::RefreshMonitors
    );
    let mut refreshed = monitors;
    refreshed[0].x = 40;
    app.update_monitors(refreshed);
    assert!(app.status.contains("Refreshed 2 current monitors"));

    app.handle_action(TuiAction::AutoSelect).unwrap();
    assert!(app.status.contains("Automatic selection: desk"));
    assert!(app.status.contains("Confidence: exact"));
    assert!(app.status.contains("Reason:"));
}

#[test]
fn tui_validation_errors_stay_in_the_editor() {
    let monitors = parse_monitors_output(DESK);
    let mut store = ProfileStore::default();
    store
        .save_current_profile(Some("desk"), &monitors, false, "1000")
        .unwrap();
    let mut app = app_for(store, monitors);
    app.draft.outputs[0].scale = Decimal::whole(0);

    let effect = app.handle_action(TuiAction::ApplyDraft).unwrap();

    assert_eq!(effect, TuiEffect::Nothing);
    assert!(app.status.contains("Draft cannot be applied"));
    assert!(app.status.contains("invalid scale"));
}

#[test]
fn modified_draft_cannot_be_silently_replaced_by_profile_navigation() {
    let monitors = parse_monitors_output(DESK);
    let mut store = ProfileStore::default();
    store
        .save_current_profile(Some("desk"), &monitors, false, "1000")
        .unwrap();
    store
        .save_current_profile(Some("other"), &monitors, false, "1000")
        .unwrap();
    let mut app = app_for(store, monitors);
    app.handle_action(TuiAction::MoveSelected(25, 0)).unwrap();
    let before = app.draft.clone();

    app.handle_action(TuiAction::NextProfile).unwrap();

    assert_eq!(app.draft, before);
    assert!(app.status.contains("Save the modified draft"));
}

#[test]
fn dirty_quit_requires_confirmation() {
    let monitors = parse_monitors_output(DESK);
    let mut store = ProfileStore::default();
    store
        .save_current_profile(Some("desk"), &monitors, false, "1000")
        .unwrap();
    let mut app = app_for(store, monitors);

    app.handle_action(TuiAction::MoveSelected(10, 0)).unwrap();
    let effect = app.handle_action(TuiAction::RequestQuit).unwrap();

    assert_eq!(effect, TuiEffect::Nothing);
    assert_eq!(app.input_mode, TuiInputMode::ConfirmQuit);
    assert_eq!(
        app.handle_action(TuiAction::Confirm).unwrap(),
        TuiEffect::Quit
    );
}

#[test]
fn geometry_moves_and_snaps_outputs() {
    let mut outputs = vec![
        output("left", 0, 0, "1920x1080@60", Decimal::whole(1), 0),
        output("right", 2500, 100, "1920x1080@60", Decimal::whole(1), 0),
    ];

    move_output(&mut outputs[0], 100, 50);
    assert_eq!((outputs[0].x, outputs[0].y), (100, 50));

    assert!(snap_output(&mut outputs, 0, 1, SnapDirection::Left));
    assert_eq!((outputs[0].x, outputs[0].y), (580, 100));
}

#[test]
fn canvas_transform_moves_single_monitor_without_resizing_it() {
    let area = CellRect {
        x: 0,
        y: 0,
        width: 120,
        height: 40,
    };
    let mut outputs = vec![output("laptop", 0, 0, "1920x1080@60", Decimal::whole(1), 0)];
    let before =
        CanvasTransform::new(&outputs, area).to_cell_rect(output_rect(&outputs[0]).unwrap());

    move_output(&mut outputs[0], 200, 0);
    let after =
        CanvasTransform::new(&outputs, area).to_cell_rect(output_rect(&outputs[0]).unwrap());

    assert!(after.x > before.x);
    assert_eq!(after.width, before.width);
    assert_eq!(after.height, before.height);
}

#[test]
fn canvas_transform_preserves_visual_monitor_proportions() {
    let area = CellRect {
        x: 0,
        y: 0,
        width: 120,
        height: 40,
    };
    let output = output("wide", 0, 0, "1920x1080@60", Decimal::whole(1), 0);
    let cell_rect = CanvasTransform::new(&vec![output.clone()], area)
        .to_cell_rect(output_rect(&output).unwrap());

    let visual_ratio =
        f64::from(cell_rect.width) / (f64::from(cell_rect.height) * TERMINAL_CELL_ASPECT_RATIO as f64);

    assert!((visual_ratio - (16.0 / 9.0)).abs() < 0.1);
}

#[test]
fn canvas_transform_clips_rectangles_to_the_canvas_area() {
    let area = CellRect {
        x: 10,
        y: 2,
        width: 20,
        height: 8,
    };
    let outputs = vec![
        output("left", 0, 0, "1920x1080@60", Decimal::whole(1), 0),
        output("far", 12_000, 4_000, "3840x2160@60", Decimal::whole(1), 0),
    ];

    for output in &outputs {
        let cell_rect =
            CanvasTransform::new(&outputs, area).to_cell_rect(output_rect(output).unwrap());

        assert!(cell_rect.right() <= area.right());
        assert!(cell_rect.bottom() <= area.bottom());
        assert!(cell_rect.width <= area.width);
        assert!(cell_rect.height <= area.height);
    }
}

#[test]
fn geometry_uses_scaled_transformed_logical_size() {
    let output = output("pivot", 0, 0, "3840x2160@60", decimal("1.2"), 1);

    let rect = output_rect(&output).unwrap();

    assert_eq!(rect.width, 1800);
    assert_eq!(rect.height, 3200);
}

#[test]
fn geometry_ignores_disabled_snap_targets() {
    let mut outputs = vec![
        output("selected", 0, 0, "1920x1080@60", Decimal::whole(1), 0),
        output("disabled", 2500, 0, "1920x1080@60", Decimal::whole(1), 0),
    ];
    outputs[1].enabled = false;

    assert!(!snap_output(&mut outputs, 0, 1, SnapDirection::Right));
}

#[test]
fn geometry_resolves_supported_special_modes_from_current_monitor() {
    let monitors = parse_monitors_output(DESK);
    for mode in ["preferred", "highres", "highrr", "maxwidth"] {
        let output = output(&monitors[0].id, 0, 0, mode, Decimal::whole(1), 0);
        let rect = output_rect_with_monitors(&output, &monitors).unwrap();
        assert!(rect.width > 0);
        assert!(rect.height > 0);
    }
}

#[test]
fn canvas_bounds_include_large_positive_gaps() {
    let area = CellRect {
        x: 0,
        y: 0,
        width: 120,
        height: 40,
    };
    let outputs = vec![
        output("left", 0, 0, "1920x1080@60", Decimal::whole(1), 0),
        output("far", 12_000, 0, "1920x1080@60", Decimal::whole(1), 0),
    ];
    let transform = CanvasTransform::new(&outputs, area);
    let left = transform.to_cell_rect(output_rect(&outputs[0]).unwrap());
    let far = transform.to_cell_rect(output_rect(&outputs[1]).unwrap());

    assert!(far.x > left.right());
}

#[test]
fn successful_apply_updates_current_monitor_snapshot() {
    let monitors = parse_monitors_output(DESK);
    let mut store = ProfileStore::default();
    store
        .save_current_profile(Some("desk"), &monitors, false, "1000")
        .unwrap();
    let mut app = app_for(store, monitors.clone());
    let mut updated = monitors;
    updated[0].x += 20;

    app.mark_applied(updated.clone());

    assert_eq!(app.monitors, updated);
}

#[test]
fn snapshot_and_renderer_show_configured_move_step() {
    let monitors = parse_monitors_output(DESK);
    let mut store = ProfileStore::default();
    store
        .save_current_profile(Some("desk"), &monitors, false, "1000")
        .unwrap();
    let app = TuiApp::new(
        store,
        ConfigPaths::from_config_dir(CONFIG_DIR).unwrap(),
        AppConfig {
            tui_move_step: 80,
            ..AppConfig::default()
        },
        monitors,
    )
    .unwrap();
    let model = app.view_model();

    assert!(format_snapshot(&model).contains("Move step: 80"));
    assert!(warning_panel(&model).contains("move step: 80"));
}

#[test]
fn help_overlay_and_small_terminal_render_without_panicking() {
    let monitors = parse_monitors_output(DESK);
    let store = ProfileStore::default();
    let mut app = app_for(store, monitors);
    app.handle_action(TuiAction::ShowHelp).unwrap();
    let model = app.view_model();

    for (width, height) in [(100, 30), (12, 4), (1, 1)] {
        let screen = CellRect {
            x: 0,
            y: 0,
            width,
            height,
        };
        let areas = layout_areas(screen);
        let boxes = render_canvas(&model, areas.canvas.inner());
        for shown in &boxes {
            assert!(shown.cells.right() <= width);
            assert!(shown.cells.bottom() <= height);
        }
        let (area, help) = render_help(screen).unwrap();
        assert!(area.right() <= width && area.bottom() <= height);
        assert!(help.contains("Quit: q or Esc."));
    }
}

#[test]
fn the_screen_is_shared_out_as_the_limits_say() {
    let areas = layout_areas(CellRect {
        x: 0,
        y: 0,
        width: 100,
        height: 30,
    });

    assert_eq!(
        areas.title,
        CellRect {
            x: 0,
            y: 0,
            width: 100,
            height: 3,
        }
    );
    assert_eq!(
        areas.profile_list,
        CellRect {
            x: 0,
            y: 3,
            width: 28,
            height: 20,
        }
    );
    assert_eq!(
        areas.canvas,
        CellRect {
            x: 28,
            y: 3,
            width: 72,
            height: 13,
        }
    );
    assert_eq!(areas.details.y, 16);
    assert_eq!(areas.preview.width, 52);
    assert_eq!(areas.warnings.x, 52);
}

#[test]
fn areas_have_their_places_on_every_screen_with_room() {
    for height in [22, 23, 24, 25, 30, 41, 60, 119, 1000] {
        for width in (0..300).chain([999, 1000, 1001, 4321, 60000]) {
            let (x, y) = (height % 3, width % 5);
            let areas = layout_areas(CellRect {
                x,
                y,
                width,
                height,
            });
            assert_eq!((areas.title.y, areas.title.height), (y, 3));
            assert_eq!((areas.profile_list.x, areas.profile_list.y), (x, y + 3));
            assert_eq!(areas.profile_list.height, height - 10);
            assert_eq!(
                u32::from(areas.profile_list.width),
                (28 * u32::from(width) + 50) / 100
            );
            assert_eq!(areas.canvas.right(), x + width);
            assert_eq!(areas.canvas.x, areas.profile_list.right());
            if areas.profile_list.height >= 15 {
                assert_eq!(areas.canvas.y, areas.profile_list.y);
                assert_eq!(areas.canvas.height, height - 17);
                assert_eq!(areas.details.y, areas.canvas.bottom());
                assert_eq!(areas.details.height, 7);
            }
            assert_eq!(areas.preview.y, areas.profile_list.bottom());
            assert_eq!((areas.preview.height, areas.warnings.height), (7, 7));
            assert_eq!(areas.warnings.x, areas.preview.right());
            assert_eq!(
                u32::from(areas.preview.width),
                (52 * u32::from(width) + 50) / 100
            );
            assert_eq!(areas.warnings.right(), x + width);
        }
    }
}

#[test]
fn a_press_selects_and_a_drag_moves() {
    let monitors = parse_monitors_output(DESK);
    let app = app_for(ProfileStore::default(), monitors);
    let areas = layout_areas(CellRect {
        x: 0,
        y: 0,
        width: 100,
        height: 30,
    });
    let boxes = render_canvas(&app.view_model(), areas.canvas.inner());
    let column = boxes[1].cells.x + boxes[1].cells.width / 2;
    let row = boxes[1].cells.y + boxes[1].cells.height / 2;

    let (action, drag) = handle_mouse(&app, MouseInput::Press, column, row, areas, None);
    assert_eq!(action, Some(TuiAction::SelectMonitor(1)));
    assert_eq!(
        drag,
        Some(DragState {
            index: 1,
            column,
            row,
        })
    );

    let (action, drag) = handle_mouse(&app, MouseInput::Drag, column - 2, row, areas, drag);
    assert!(matches!(action, Some(TuiAction::MoveSelected(dx, 0)) if dx < 0));
    assert_eq!(drag.unwrap().column, column - 2);

    let (action, drag) = handle_mouse(&app, MouseInput::Release, column, row, areas, drag);
    assert_eq!(action, None);
    assert_eq!(drag, None);

    let list = areas.profile_list;
    let (action, _) = handle_mouse(&app, MouseInput::Press, list.x + 1, list.y + 3, areas, None);
    assert_eq!(action, Some(TuiAction::SelectProfile(2)));
    let (action, _) = handle_mouse(&app, MouseInput::ScrollDown, 0, 0, areas, None);
    assert_eq!(action, Some(TuiAction::NextProfile));
}

#[test]
fn keys_mean_what_the_editor_waits_for() {
    let normal = TuiInputMode::Normal;
    assert_eq!(
        key_to_action(KeyInput::Char('q'), false, &normal),
        Some(TuiAction::RequestQuit)
    );
    assert_eq!(
        key_to_action(KeyInput::Char('+'), false, &normal),
        Some(TuiAction::AdjustSelectedScale(decimal("0.1")))
    );
    assert_eq!(
        key_to_action(KeyInput::Char('-'), false, &normal),
        Some(TuiAction::AdjustSelectedScale(decimal("-0.1")))
    );
    assert_eq!(
        key_to_action(KeyInput::Char('h'), true, &normal),
        Some(TuiAction::SnapSelected(SnapDirection::Left))
    );
    assert_eq!(key_to_action(KeyInput::Char('h'), false, &normal), None);
    assert_eq!(
        key_to_action(KeyInput::Left, false, &normal),
        Some(TuiAction::NudgeLeft)
    );
    let typing = TuiInputMode::SaveAs {
        name: String::new(),
    };
    assert_eq!(
        key_to_action(KeyInput::Char('q'), false, &typing),
        Some(TuiAction::SaveNameChar('q'))
    );
    assert_eq!(
        key_to_action(KeyInput::Char('n'), false, &TuiInputMode::ConfirmQuit),
        Some(TuiAction::Cancel)
    );
    assert_eq!(
        key_to_action(KeyInput::Char('?'), false, &TuiInputMode::Help),
        Some(TuiAction::Cancel)
    );
}

#[test]
fn the_title_shows_the_name_that_is_typed() {
    let mut app = app_for(ProfileStore::default(), parse_monitors_output(DESK));
    app.input_mode = TuiInputMode::SaveAs {
        name: "work".to_owned(),
    };

    let spans = title_line(&app.view_model());

    let shown: String = spans.iter().map(|span| span.text.as_str()).collect();
    assert_eq!(
        shown,
        "HyprDisJust  save as: work  Enter save  Esc cancel"
    );
    assert_eq!(spans[0].accent, Accent::Brand);
    assert_eq!(spans[2].accent, Accent::Notice);
}

#[test]
fn panels_tell_what_is_selected_and_connected() {
    let monitors = parse_monitors_output(DESK);
    let mut store = ProfileStore::default();
    store
        .save_current_profile(Some("desk"), &monitors, false, "1000")
        .unwrap();
    let model = app_for(store, monitors).view_model();

    assert_eq!(profile_list(&model), vec!["> desk  2 monitors"]);
    assert_eq!(
        details_panel(&model),
        "DP-1\nid: lg-electronics:lg-ultragear:12345\nmode: 2560x1440@144  position: 0x0  scale: 1  transform: 0  status: enabled\ncurrent: DP-1 [on] lg-electronics:lg-ultragear:12345; eDP-1 [on] boe:internal-panel:no-serial"
    );
    assert!(preview_panel(&model).starts_with("eval hl.monitor("));
    assert!(warning_panel(&model).starts_with("No warnings.\nmove step: 20\n"));
    assert_eq!(truncate_to_width("* DP-1", 3), "* D");
    assert_eq!(truncate_to_width("* DP-1", 9), "* DP-1");
}

#[test]
fn rows_stand_for_the_outputs_they_show() {
    let monitors = parse_monitors_output(DESK);
    let mut store = ProfileStore::default();
    store
        .save_current_profile(Some("desk"), &monitors, false, "1000")
        .unwrap();
    let mut app = app_for(store, monitors);
    app.handle_action(TuiAction::MoveSelected(-40, 25)).unwrap();

    let output = profile_output_from_row(&app.view_model().monitors[0]);

    assert_eq!(output, app.draft.outputs[0]);
    assert_eq!((output.x, output.y), (-40, 25));
}

#[test]
fn an_apply_is_refused_where_the_plan_is_not_the_one_that_was_reviewed() {
    let monitors = parse_monitors_output(DESK);
    let mut store = ProfileStore::default();
    store
        .save_current_profile(Some("desk"), &monitors, false, "1000")
        .unwrap();
    let mut app = app_for(store, monitors);
    let reviewed = app.draft_apply_plan().unwrap();
    assert!(review_plan(&app.draft_apply_plan().unwrap(), &reviewed).is_ok());

    app.handle_action(TuiAction::MoveSelected(10, 0)).unwrap();

    assert_eq!(
        review_plan(&app.draft_apply_plan().unwrap(), &reviewed)
            .unwrap_err()
            .to_string(),
        "monitor topology changed after plan review; refresh and review the new apply plan"
    );
}

#[test]
fn a_failed_apply_stays_visible() {
    let mut app = app_for(ProfileStore::default(), parse_monitors_output(DESK));

    finish_apply(&mut app, Err(Error::new("synthetic failure".to_owned())));

    assert_eq!(app.status, "Apply failed: synthetic failure");
}

#[test]
fn a_change_that_fails_changes_nothing() {
    let monitors = parse_monitors_output(DESK);
    let mut store = ProfileStore::default();
    store
        .save_current_profile(Some("desk"), &monitors, false, "1000")
        .unwrap();
    let mut app = app_for(store, monitors);
    app.input_mode = TuiInputMode::RenameProfile {
        name: "work".to_owned(),
    };
    let change = match app.handle_action(TuiAction::Submit).unwrap() {
        TuiEffect::Change(change) => *change,
        other => panic!("unexpected effect: {other:?}"),
    };

    let result = app.finish_change(change, Err(Error::new("disk full".to_owned())));

    assert!(result.unwrap_err().to_string().contains("disk full"));
    assert!(app.store.has_profile("desk"));
    assert!(!app.store.has_profile("work"));
}

#[test]
fn turning_eight_times_comes_around() {
    let mut app = app_for(ProfileStore::default(), parse_monitors_output(DESK));
    let before = app.draft.outputs[0].transform;

    for _ in 0..8 {
        app.handle_action(TuiAction::CycleSelectedTransform).unwrap();
    }

    assert_eq!(app.draft.outputs[0].transform, before);
}

#[test]
fn moving_back_undoes_a_move() {
    let mut moved = output("left", 10, -5, "1920x1080@60", Decimal::whole(1), 0);

    assert!(move_output(&mut moved, 300, 40));
    assert!(move_output(&mut moved, -300, -40));

    assert_eq!((moved.x, moved.y), (10, -5));
}

/// Carries out what an action asks for, with `disk` in place of the saved store.
fn act(app: &mut TuiApp, disk: &mut Option<ProfileStore>, action: TuiAction) -> TuiEffect {
    match app.handle_action(action).unwrap() {
        TuiEffect::Change(change) => {
            let mut store = ProfileStore::starting_point(disk.take(), Some(&app.store));
            change.apply_to(&mut store, "2000").unwrap();
            store.accept_mutation().unwrap();
            *disk = Some(store.clone());
            app.finish_change(*change, Ok(store)).unwrap();
            TuiEffect::Nothing
        }
        effect => effect,
    }
}

fn app_for(store: ProfileStore, monitors: Vec<MonitorState>) -> TuiApp {
    TuiApp::new(
        store,
        ConfigPaths::from_config_dir(CONFIG_DIR).unwrap(),
        AppConfig::default(),
        monitors,
    )
    .unwrap()
}

fn output(id: &str, x: i32, y: i32, mode: &str, scale: Decimal, transform: i32) -> ProfileOutput {
    ProfileOutput {
        monitor_id: id.to_owned(),
        enabled: true,
        mode: mode.to_owned(),
        x,
        y,
        scale,
        transform,
    }
}
