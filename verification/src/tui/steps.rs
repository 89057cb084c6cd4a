//! What the editor does with each action.
use vstd::prelude::*;

use crate::bytes;
use crate::double;
use crate::config;
use crate::config::{ConfigView, PathsView};
use crate::doctor;
use crate::error;
use crate::error::Refusal;
use crate::hyprland::monitor::MonitorView;
use crate::number;
use crate::profile::matching;
use crate::profile::matching::{DecisionView, MonitorMatchMode, ResolvedView};
use crate::profile::plan;
use crate::profile::plan::PlanView;
use crate::profile::render;
use crate::profile::store;
use crate::profile::store::{ProfileMonitorView, ProfileOutputView, ProfileView};
use crate::profile::validation;
use crate::profile::validation::{MAX_PROFILE_NAME_BYTES, MAX_SCALE, MIN_SCALE};
use crate::text;
use crate::tui::geometry;
use crate::tui::geometry::SnapDirection;
use crate::tui::model::TuiAction;

verus! {

/// What the editor is waiting for.
pub enum ModeView {
    Normal,
    SaveAs { name: Seq<char> },
    ConfirmReplace { name: Seq<char> },
    ConfirmQuit,
    ConfirmApply,
    RenameProfile { name: Seq<char> },
    CopyProfile { source: Seq<char>, name: Seq<char> },
    ConfirmCopyReplace { source: Seq<char>, name: Seq<char> },
    ConfirmDelete { name: Seq<char> },
    ModeSelect { modes: Seq<Seq<char>>, cursor: usize },
    SnapTarget { direction: SnapDirection, targets: Seq<usize>, cursor: usize },
    Help,
}

/// What the editor holds.
#[verifier::ext_equal]
pub struct AppView {
    pub paths: PathsView,
    pub config: ConfigView,
    pub store: Seq<ProfileView>,
    pub monitors: Seq<MonitorView>,
    pub selected_profile: Option<usize>,
    pub selected_monitor: Option<usize>,
    pub draft: ProfileView,
    pub dirty: bool,
    pub mode: ModeView,
    pub status: Seq<char>,
}

/// A change to the saved profiles.
pub enum ChangeView {
    Save { profile: ProfileView, replace: bool },
    Rename { old_name: Seq<char>, new_name: Seq<char> },
    Delete { name: Seq<char> },
    Copy { source: Seq<char>, destination: Seq<char>, replace: bool },
}

/// What an action asks of the surroundings.
pub enum EffectView {
    Nothing,
    Apply(PlanView),
    RefreshMonitors,
    Quit,
    Change(ChangeView),
}

/// What is left to do once the editor has changed.
pub enum SequelView {
    /// Nothing but to pass on an effect.
    Plain(EffectView),
    /// To say how the draft looks.
    Preview,
    /// To apply the draft, or to ask first where there are warnings.
    RequestApply,
    /// To apply the draft.
    ConfirmedApply,
    /// To refuse the action.
    Refuse(Refusal),
}

/// An editor that has changed, and what is left to do.
pub struct StepView {
    pub app: AppView,
    pub sequel: SequelView,
}

/// The number of monitors and profiles can be handled.
pub open spec fn ready(app: AppView) -> bool {
    &&& plan::plannable(app.monitors.len())
    &&& matching::all_countable(app.store, app.monitors.len())
}

// ---------------------------------------------------------------------------
// Parts
// ---------------------------------------------------------------------------
/// Nothing is left to do.
pub open spec fn done(app: AppView) -> StepView {
    StepView { app, sequel: SequelView::Plain(EffectView::Nothing) }
}

/// Something is said, and nothing is left to do.
pub open spec fn told(app: AppView, status: Seq<char>) -> StepView {
    done(AppView { status, ..app })
}

/// The editor waits for something else, and nothing is left to do.
pub open spec fn waiting(app: AppView, mode: ModeView) -> StepView {
    done(AppView { mode, ..app })
}

/// The editor asks for something.
pub open spec fn asked(app: AppView, mode: ModeView, status: Seq<char>) -> StepView {
    done(AppView { mode, status, ..app })
}

/// The draft has changed.
pub open spec fn edited(app: AppView, draft: ProfileView, status: Seq<char>) -> AppView {
    AppView { draft, dirty: true, status, ..app }
}

/// `outputs` takes the place of the outputs of the draft.
pub open spec fn with_outputs(draft: ProfileView, outputs: Seq<ProfileOutputView>) -> ProfileView {
    ProfileView { outputs, ..draft }
}

/// The monitor that is selected first.
pub open spec fn first_monitor(profile: ProfileView) -> Option<usize> {
    if profile.outputs.len() == 0 {
        None
    } else {
        Some(0)
    }
}

/// A draft of the layout as it is.
pub open spec fn current_draft(profiles: Seq<ProfileView>, monitors: Seq<MonitorView>) -> ProfileView {
    ProfileView::of_monitors(store::chosen_name(profiles, None, monitors), monitors, seq![], seq![])
}

/// The first remembered monitor with the identity `id`.
pub open spec fn remembered_with(monitors: Seq<ProfileMonitorView>, id: Seq<char>) -> Option<
    ProfileMonitorView,
>
    decreases monitors.len(),
{
    if monitors.len() == 0 {
        None
    } else if monitors[0].id == id {
        Some(monitors[0])
    } else {
        remembered_with(monitors.drop_first(), id)
    }
}

/// What an output is called.
pub open spec fn label_of(profile: ProfileView, output: ProfileOutputView) -> Seq<char> {
    match remembered_with(profile.monitors, output.monitor_id) {
        None => output.monitor_id,
        Some(monitor) => if text::trimmed(monitor.name_hint).len() == 0 {
            monitor.id
        } else {
            monitor.name_hint
        },
    }
}

/// What the output number `i` is called.
pub open spec fn label_at(profile: ProfileView, i: int) -> Seq<char> {
    if 0 <= i < profile.outputs.len() {
        label_of(profile, profile.outputs[i])
    } else {
        "selected monitor"@
    }
}

/// A mode as it is saved.
pub open spec fn plain_mode(mode: Seq<char>) -> Seq<char> {
    text::without_suffix(mode, "Hz"@)
}

/// What is said of the mode under the cursor.
pub open spec fn mode_status(modes: Seq<Seq<char>>, cursor: int) -> Seq<char> {
    if 0 <= cursor < modes.len() {
        "Mode: "@ + plain_mode(modes[cursor]) + "  Enter select  Esc cancel"@
    } else {
        "No modes available"@
    }
}

/// What is said of the target under the cursor.
pub open spec fn snap_status(draft: ProfileView, targets: Seq<usize>, cursor: int) -> Seq<char> {
    if 0 <= cursor < targets.len() {
        "Snap target: "@ + label_at(draft, targets[cursor] as int) + "  Enter select  Esc cancel"@
    } else {
        "No enabled snap target"@
    }
}

/// The number after `cursor`, around `len`.
pub open spec fn after(cursor: int, len: int) -> int {
    if len <= 0 {
        cursor
    } else {
        (cursor + 1) % len
    }
}

/// The number before `cursor`, around `len`.
pub open spec fn before(cursor: int, len: int) -> int {
    if len <= 0 {
        cursor
    } else {
        (cursor - 1) % len
    }
}

/// By how much an output is nudged.
pub open spec fn nudge(app: AppView) -> int {
    geometry::larger(
        geometry::smaller(app.config.tui_move_step as int, config::MAX_MOVE_STEP as int),
        1,
    )
}

/// `scale` changed by `delta` in double precision, in units.
#[verifier::opaque]
pub open spec fn changed_scale(scale: int, delta: int) -> int {
    number::clamped_units(double::shortest_signed(double::sum(scale, delta)))
}

/// `scale` kept where it may be.
pub open spec fn kept_scale(scale: int) -> int {
    if scale < MIN_SCALE {
        MIN_SCALE as int
    } else if scale > MAX_SCALE {
        MAX_SCALE as int
    } else {
        scale
    }
}

/// `name` with a character more, where it may have one.
pub open spec fn typed(name: Seq<char>, c: char) -> Seq<char> {
    if text::control(c) || text::byte_len(name) + bytes::width(c) > MAX_PROFILE_NAME_BYTES {
        name
    } else {
        name.push(c)
    }
}

/// `name` with a character less.
pub open spec fn erased(name: Seq<char>) -> Seq<char> {
    if name.len() == 0 {
        name
    } else {
        name.drop_last()
    }
}

// ---------------------------------------------------------------------------
// Choosing profiles and monitors
// ---------------------------------------------------------------------------
/// `profile` is edited from now on.
pub open spec fn editing(app: AppView, profile: ProfileView) -> AppView {
    AppView {
        draft: profile,
        selected_monitor: first_monitor(profile),
        dirty: false,
        mode: ModeView::Normal,
        ..app
    }
}

/// The profile number `index` is selected. A draft with changes is not given up
/// for it.
pub open spec fn profile_selected(app: AppView, index: int) -> StepView {
    if app.dirty {
        told(app, "Save the modified draft or quit before switching profiles"@)
    } else if 0 <= index < app.store.len() {
        StepView {
            app: editing(
                AppView { selected_profile: Some(index as usize), ..app },
                app.store[index],
            ),
            sequel: SequelView::Preview,
        }
    } else {
        done(app)
    }
}

/// The position of what is selected, the first where nothing is.
pub open spec fn current_index(selected: Option<usize>) -> int {
    match selected {
        Some(i) => i as int,
        None => 0,
    }
}

/// The profile after or before the one that is selected.
pub open spec fn neighbour_profile(app: AppView, forward: bool) -> StepView {
    let n = app.store.len() as int;
    let i = current_index(app.selected_profile);
    if n == 0 {
        done(app)
    } else {
        profile_selected(
            app,
            if forward {
                after(i, n)
            } else {
                before(i, n)
            },
        )
    }
}

/// The monitor number `index` is selected.
pub open spec fn monitor_selected(app: AppView, index: int) -> StepView {
    if 0 <= index < app.draft.outputs.len() {
        StepView {
            app: AppView { selected_monitor: Some(index as usize), ..app },
            sequel: SequelView::Preview,
        }
    } else {
        done(app)
    }
}

/// The monitor after or before the one that is selected.
pub open spec fn neighbour_monitor(app: AppView, forward: bool) -> StepView {
    let n = app.draft.outputs.len() as int;
    let i = current_index(app.selected_monitor);
    if n == 0 {
        done(app)
    } else {
        monitor_selected(
            app,
            if forward {
                after(i, n)
            } else {
                before(i, n)
            },
        )
    }
}

/// The profile that was decided on is selected, and the decision is told.
pub open spec fn auto_selected(app: AppView, decided: DecisionView) -> AppView {
    let status = render::replaced(
        matching::decision_text(decided, "Automatic selection"@),
        '\n',
        " | "@,
    );
    let chosen = match decided.profile_name() {
        None => app,
        Some(name) => match store::position_of(app.store, name) {
            None => app,
            Some(i) => profile_selected(app, i).app,
        },
    };
    AppView { status, ..chosen }
}

// ---------------------------------------------------------------------------
// Editing
// ---------------------------------------------------------------------------
/// The output that is selected.
pub open spec fn selected_output(app: AppView) -> Option<int> {
    match app.selected_monitor {
        Some(i) if (i as int) < app.draft.outputs.len() => Some(i as int),
        _ => None,
    }
}

/// `output` takes the place of the output number `i`.
pub open spec fn with_output(app: AppView, i: int, output: ProfileOutputView) -> ProfileView {
    with_outputs(app.draft, app.draft.outputs.update(i, output))
}

/// The selected output is moved, if it is switched on.
pub open spec fn selected_moved(app: AppView, dx: int, dy: int) -> AppView {
    match selected_output(app) {
        None => app,
        Some(i) => if !app.draft.outputs[i].enabled {
            app
        } else {
            edited(
                app,
                with_output(app, i, geometry::moved(app.draft.outputs[i], dx, dy)),
                "Moved "@ + label_at(app.draft, i),
            )
        },
    }
}

/// The outputs among the first `n` at whose side the selected one can be put.
pub open spec fn snap_targets(outputs: Seq<ProfileOutputView>, selected: int, n: int) -> Seq<usize>
    decreases n,
{
    if n <= 0 {
        seq![]
    } else if n - 1 != selected && outputs[n - 1].enabled {
        snap_targets(outputs, selected, n - 1).push((n - 1) as usize)
    } else {
        snap_targets(outputs, selected, n - 1)
    }
}

/// The output number `selected` is put at the side of another.
pub open spec fn output_snapped(
    app: AppView,
    selected: int,
    target: int,
    direction: SnapDirection,
) -> AppView {
    match geometry::snapped(app.draft.outputs, app.monitors, selected, target, direction) {
        None => app,
        Some(outputs) => edited(
            app,
            with_outputs(app.draft, outputs),
            "Snapped selected monitor"@,
        ),
    }
}

/// The selected output is put at the side of another; where there is more than
/// one, the editor asks which.
pub open spec fn selected_snapped(app: AppView, direction: SnapDirection) -> AppView {
    match app.selected_monitor {
        None => app,
        Some(i) => {
            let targets = snap_targets(
                app.draft.outputs,
                i as int,
                app.draft.outputs.len() as int,
            );
            if targets.len() == 0 {
                AppView { status: "No enabled snap target"@, ..app }
            } else if targets.len() > 1 {
                AppView {
                    status: snap_status(app.draft, targets, 0),
                    mode: ModeView::SnapTarget { direction, targets, cursor: 0 },
                    ..app
                }
            } else {
                output_snapped(app, i as int, targets[0] as int, direction)
            }
        },
    }
}

/// The selected output is switched on or off.
pub open spec fn selected_toggled(app: AppView) -> AppView {
    match selected_output(app) {
        None => app,
        Some(i) => edited(
            app,
            with_output(
                app,
                i,
                ProfileOutputView {
                    enabled: !app.draft.outputs[i].enabled,
                    ..app.draft.outputs[i]
                },
            ),
            "Toggled "@ + label_at(app.draft, i),
        ),
    }
}

/// The selected output is turned on.
pub open spec fn selected_turned(app: AppView) -> AppView {
    match selected_output(app) {
        None => app,
        Some(i) => edited(
            app,
            with_output(
                app,
                i,
                ProfileOutputView {
                    transform: ((app.draft.outputs[i].transform + 1) % 8) as i32,
                    ..app.draft.outputs[i]
                },
            ),
            "Changed selected monitor transform"@,
        ),
    }
}

/// The scale of the selected output is changed.
pub open spec fn selected_scaled(app: AppView, delta: int) -> AppView {
    match selected_output(app) {
        None => app,
        Some(i) => edited(
            app,
            with_output(
                app,
                i,
                ProfileOutputView {
                    scale: kept_scale(changed_scale(app.draft.outputs[i].scale, delta)),
                    ..app.draft.outputs[i]
                },
            ),
            "Changed selected monitor scale"@,
        ),
    }
}

/// The position of `mode` among the saved forms of `modes`.
pub open spec fn mode_position(modes: Seq<Seq<char>>, mode: Seq<char>) -> int
    decreases modes.len(),
{
    if modes.len() == 0 {
        -1
    } else if plain_mode(modes[0]) == mode {
        0
    } else {
        let rest = mode_position(modes.drop_first(), mode);
        if rest < 0 {
            -1
        } else {
            rest + 1
        }
    }
}

/// The editor asks which of `modes` the selected output is to have.
pub open spec fn modes_offered(app: AppView, modes: Seq<Seq<char>>, mode: Seq<char>) -> AppView {
    if modes.len() == 0 {
        AppView { status: "Selected monitor has no advertised modes"@, ..app }
    } else {
        let cursor = geometry::larger(mode_position(modes, mode), 0);
        AppView {
            status: mode_status(modes, cursor),
            mode: ModeView::ModeSelect { modes, cursor: cursor as usize },
            ..app
        }
    }
}

/// `found` is the connected monitor that the output number `i` is for.
pub open spec fn is_partner(found: Option<ResolvedView>, app: AppView, i: int) -> bool {
    match remembered_with(app.draft.monitors, app.draft.outputs[i].monitor_id) {
        None => found is None,
        Some(monitor) => exists|a: Seq<usize>| #[trigger]
            matching::best_pairing(
                seq![monitor],
                app.monitors,
                MonitorMatchMode::Automatic,
                a,
            ) && found == matching::partners(
                seq![monitor],
                app.monitors,
                MonitorMatchMode::Automatic,
                a,
            )[0],
    }
}

/// The modes of the connected monitor `found`.
pub open spec fn modes_of(app: AppView, found: Option<ResolvedView>) -> Seq<Seq<char>> {
    match found {
        Some(pair) if !pair.ambiguous && 0 <= pair.current_index < app.monitors.len() =>
            app.monitors[pair.current_index].available_modes,
        _ => seq![],
    }
}

/// The mode under the cursor becomes that of the selected output.
pub open spec fn mode_taken(app: AppView, modes: Seq<Seq<char>>, cursor: int) -> AppView {
    match selected_output(app) {
        Some(i) if 0 <= cursor < modes.len() => edited(
            app,
            with_output(
                app,
                i,
                ProfileOutputView { mode: plain_mode(modes[cursor]), ..app.draft.outputs[i] },
            ),
            "Changed selected monitor mode"@,
        ),
        _ => app,
    }
}

/// A draft of the layout as it is takes the place of one without changes.
pub open spec fn new_draft(app: AppView) -> AppView {
    if app.dirty {
        AppView { status: "Save or discard the modified draft before creating another"@, ..app }
    } else {
        let draft = current_draft(app.store, app.monitors);
        AppView {
            selected_profile: None,
            selected_monitor: first_monitor(draft),
            draft,
            dirty: true,
            mode: ModeView::Normal,
            status: "New draft `"@ + draft.name + "` from current monitors"@,
            ..app
        }
    }
}

// ---------------------------------------------------------------------------
// Saved profiles
// ---------------------------------------------------------------------------
/// The name of the profile that is selected.
pub open spec fn selected_name(app: AppView) -> Option<Seq<char>> {
    match app.selected_profile {
        Some(i) if (i as int) < app.store.len() => Some(app.store[i as int].name),
        _ => None,
    }
}

/// The editor asks for the new name of the selected profile.
pub open spec fn rename_begun(app: AppView) -> AppView {
    if app.dirty {
        AppView { status: "Save or discard the modified draft before renaming"@, ..app }
    } else {
        match selected_name(app) {
            None => AppView { status: "Select a saved profile before renaming"@, ..app },
            Some(name) => AppView {
                mode: ModeView::RenameProfile { name },
                status: "Rename profile: edit name and press Enter"@,
                ..app
            },
        }
    }
}

/// The editor asks whether the selected profile is to be deleted.
pub open spec fn delete_begun(app: AppView) -> AppView {
    if app.dirty {
        AppView { status: "Save or discard the modified draft before deleting"@, ..app }
    } else {
        match selected_name(app) {
            None => AppView { status: "Select a saved profile before deleting"@, ..app },
            Some(name) => AppView {
                mode: ModeView::ConfirmDelete { name },
                status: "Delete profile `"@ + name + "`? press y to confirm"@,
                ..app
            },
        }
    }
}

/// The editor asks for the name of a copy of the selected profile.
pub open spec fn copy_begun(app: AppView) -> AppView {
    if app.dirty {
        AppView { status: "Save or discard the modified draft before copying"@, ..app }
    } else {
        match selected_name(app) {
            None => AppView { status: "Select a saved profile before copying"@, ..app },
            Some(source) => AppView {
                mode: ModeView::CopyProfile {
                    source,
                    name: text::first_free(
                        source + "-copy"@,
                        validation::names_of(app.store),
                    ),
                },
                status: "Copy profile: edit destination and press Enter"@,
                ..app
            },
        }
    }
}

/// A change to the saved profiles is asked for.
pub open spec fn changing(app: AppView, change: ChangeView) -> StepView {
    StepView { app, sequel: SequelView::Plain(EffectView::Change(change)) }
}

/// The draft is to be saved as `name`.
pub open spec fn saving(app: AppView, name: Seq<char>, replace: bool) -> StepView {
    changing(
        app,
        ChangeView::Save { profile: ProfileView { name, ..app.draft }, replace },
    )
}

// ---------------------------------------------------------------------------
// Actions
// ---------------------------------------------------------------------------
/// What the editor does with an action while it waits for nothing in
/// particular; what depends on how monitors are matched is left out.
pub open spec fn normal_step(app: AppView, action: TuiAction) -> StepView {
    match action {
        TuiAction::NextProfile => neighbour_profile(app, true),
        TuiAction::PreviousProfile => neighbour_profile(app, false),
        TuiAction::SelectProfile(index) => profile_selected(app, index as int),
        TuiAction::NextMonitor => neighbour_monitor(app, true),
        TuiAction::PreviousMonitor => neighbour_monitor(app, false),
        TuiAction::SelectMonitor(index) => monitor_selected(app, index as int),
        TuiAction::MoveSelected(dx, dy) => done(selected_moved(app, dx as int, dy as int)),
        TuiAction::NudgeLeft => done(selected_moved(app, -nudge(app), 0)),
        TuiAction::NudgeRight => done(selected_moved(app, nudge(app), 0)),
        TuiAction::NudgeUp => done(selected_moved(app, 0, -nudge(app))),
        TuiAction::NudgeDown => done(selected_moved(app, 0, nudge(app))),
        TuiAction::SnapSelected(direction) => done(selected_snapped(app, direction)),
        TuiAction::ToggleSelected => done(selected_toggled(app)),
        TuiAction::CycleSelectedTransform => done(selected_turned(app)),
        TuiAction::AdjustSelectedScale(delta) => done(selected_scaled(app, delta.value())),
        TuiAction::NewDraft => done(new_draft(app)),
        TuiAction::BeginSaveAs => asked(
            app,
            ModeView::SaveAs { name: store::chosen_name(app.store, None, app.monitors) },
            "Save as: edit name and press Enter"@,
        ),
        TuiAction::BeginRename => done(rename_begun(app)),
        TuiAction::BeginCopy => done(copy_begun(app)),
        TuiAction::BeginDelete => done(delete_begun(app)),
        TuiAction::RefreshMonitors => StepView {
            app,
            sequel: SequelView::Plain(EffectView::RefreshMonitors),
        },
        TuiAction::ShowHelp => asked(app, ModeView::Help, "Help"@),
        TuiAction::RequestQuit => if app.dirty {
            asked(
                app,
                ModeView::ConfirmQuit,
                "Discard unsaved changes? press y to confirm"@,
            )
        } else {
            StepView { app, sequel: SequelView::Plain(EffectView::Quit) }
        },
        TuiAction::ApplyDraft => StepView { app, sequel: SequelView::RequestApply },
        _ => done(app),
    }
}

/// What the editor does while it asks under which name to save.
pub open spec fn save_as_step(app: AppView, name: Seq<char>, action: TuiAction) -> StepView {
    match action {
        TuiAction::SaveNameChar(c) => waiting(app, ModeView::SaveAs { name: typed(name, c) }),
        TuiAction::SaveNameBackspace => waiting(app, ModeView::SaveAs { name: erased(name) }),
        TuiAction::Submit => {
            let name = text::trimmed(name);
            if name.len() == 0 {
                asked(app, ModeView::SaveAs { name }, "Profile name must not be empty"@)
            } else if store::has_name(app.store, name) {
                asked(
                    app,
                    ModeView::ConfirmReplace { name },
                    "Replace profile `"@ + name + "`? press y to confirm"@,
                )
            } else {
                saving(app, name, false)
            }
        },
        TuiAction::Cancel => told(app, "Save cancelled"@),
        TuiAction::RequestQuit => told(app, "Save cancelled"@),
        _ => waiting(app, ModeView::SaveAs { name }),
    }
}

/// What the editor does while it asks for the new name of a profile.
pub open spec fn rename_step(app: AppView, name: Seq<char>, action: TuiAction) -> StepView {
    match action {
        TuiAction::SaveNameChar(c) => waiting(
            app,
            ModeView::RenameProfile { name: typed(name, c) },
        ),
        TuiAction::SaveNameBackspace => waiting(
            app,
            ModeView::RenameProfile { name: erased(name) },
        ),
        TuiAction::Submit => {
            let name = text::trimmed(name);
            if name.len() == 0 {
                asked(app, ModeView::RenameProfile { name }, "Profile name must not be empty"@)
            } else {
                match selected_name(app) {
                    None => StepView {
                        app,
                        sequel: SequelView::Refuse(
                            error::plainly_told("select a saved profile before renaming"@),
                        ),
                    },
                    Some(old_name) => changing(
                        app,
                        ChangeView::Rename { old_name, new_name: name },
                    ),
                }
            }
        },
        TuiAction::Cancel => told(app, "Rename cancelled"@),
        TuiAction::RequestQuit => told(app, "Rename cancelled"@),
        _ => waiting(app, ModeView::RenameProfile { name }),
    }
}

/// What the editor does while it asks for the name of a copy.
pub open spec fn copy_step(
    app: AppView,
    source: Seq<char>,
    name: Seq<char>,
    action: TuiAction,
) -> StepView {
    match action {
        TuiAction::SaveNameChar(c) => waiting(
            app,
            ModeView::CopyProfile { source, name: typed(name, c) },
        ),
        TuiAction::SaveNameBackspace => waiting(
            app,
            ModeView::CopyProfile { source, name: erased(name) },
        ),
        TuiAction::Submit => {
            let name = text::trimmed(name);
            if name.len() == 0 {
                asked(
                    app,
                    ModeView::CopyProfile { source, name },
                    "Profile name must not be empty"@,
                )
            } else if store::has_name(app.store, name) {
                asked(
                    app,
                    ModeView::ConfirmCopyReplace { source, name },
                    "Replace profile `"@ + name + "` with the copy? press y to confirm"@,
                )
            } else {
                changing(app, ChangeView::Copy { source, destination: name, replace: false })
            }
        },
        TuiAction::Cancel => told(app, "Copy cancelled"@),
        TuiAction::RequestQuit => told(app, "Copy cancelled"@),
        _ => waiting(app, ModeView::CopyProfile { source, name }),
    }
}

/// What an action means to a question.
pub open spec fn answer(
    app: AppView,
    action: TuiAction,
    mode: ModeView,
    agreed: StepView,
    cancelled: Seq<char>,
) -> StepView {
    match action {
        TuiAction::Confirm => agreed,
        TuiAction::Submit => agreed,
        TuiAction::Cancel => told(app, cancelled),
        TuiAction::RequestQuit => told(app, cancelled),
        _ => waiting(app, mode),
    }
}

/// What the editor does while it offers modes.
pub open spec fn mode_select_step(
    app: AppView,
    modes: Seq<Seq<char>>,
    cursor: usize,
    action: TuiAction,
) -> StepView {
    let n = modes.len() as int;
    match action {
        TuiAction::SelectNextMode => asked(
            app,
            ModeView::ModeSelect { modes, cursor: after(cursor as int, n) as usize },
            mode_status(modes, after(cursor as int, n)),
        ),
        TuiAction::SelectPreviousMode => asked(
            app,
            ModeView::ModeSelect { modes, cursor: before(cursor as int, n) as usize },
            mode_status(modes, before(cursor as int, n)),
        ),
        TuiAction::Submit => done(mode_taken(app, modes, cursor as int)),
        TuiAction::Confirm => done(mode_taken(app, modes, cursor as int)),
        TuiAction::Cancel => told(app, "Mode selection cancelled"@),
        TuiAction::RequestQuit => told(app, "Mode selection cancelled"@),
        _ => waiting(app, ModeView::ModeSelect { modes, cursor }),
    }
}

/// The target under the cursor is taken.
pub open spec fn target_taken(
    app: AppView,
    direction: SnapDirection,
    targets: Seq<usize>,
    cursor: int,
) -> AppView {
    match app.selected_monitor {
        Some(i) if 0 <= cursor < targets.len() => output_snapped(
            app,
            i as int,
            targets[cursor] as int,
            direction,
        ),
        _ => app,
    }
}

/// What the editor does while it offers targets.
pub open spec fn snap_target_step(
    app: AppView,
    direction: SnapDirection,
    targets: Seq<usize>,
    cursor: usize,
    action: TuiAction,
) -> StepView {
    let n = targets.len() as int;
    match action {
        TuiAction::SelectNextMode => asked(
            app,
            ModeView::SnapTarget { direction, targets, cursor: after(cursor as int, n) as usize },
            snap_status(app.draft, targets, after(cursor as int, n)),
        ),
        TuiAction::SelectPreviousMode => asked(
            app,
            ModeView::SnapTarget { direction, targets, cursor: before(cursor as int, n) as usize },
            snap_status(app.draft, targets, before(cursor as int, n)),
        ),
        TuiAction::Submit => done(target_taken(app, direction, targets, cursor as int)),
        TuiAction::Confirm => done(target_taken(app, direction, targets, cursor as int)),
        TuiAction::Cancel => told(app, "Snap cancelled"@),
        TuiAction::RequestQuit => told(app, "Snap cancelled"@),
        _ => waiting(app, ModeView::SnapTarget { direction, targets, cursor }),
    }
}

/// What the editor does while it asks whether to give up changes.
pub open spec fn quit_step(app: AppView, action: TuiAction) -> StepView {
    match action {
        TuiAction::Confirm => StepView { app, sequel: SequelView::Plain(EffectView::Quit) },
        TuiAction::Submit => StepView { app, sequel: SequelView::Plain(EffectView::Quit) },
        TuiAction::Cancel => StepView { app, sequel: SequelView::Preview },
        _ => waiting(app, ModeView::ConfirmQuit),
    }
}

/// What the editor does while it shows help.
pub open spec fn help_step(app: AppView, action: TuiAction) -> StepView {
    match action {
        TuiAction::Cancel => StepView { app, sequel: SequelView::Preview },
        TuiAction::RequestQuit => StepView { app, sequel: SequelView::Preview },
        TuiAction::ShowHelp => StepView { app, sequel: SequelView::Preview },
        TuiAction::Submit => StepView { app, sequel: SequelView::Preview },
        _ => waiting(app, ModeView::Help),
    }
}

/// What the editor does with an action; `app` is the editor waiting for nothing
/// in particular, `mode` what it was waiting for.
pub open spec fn step_in(app: AppView, mode: ModeView, action: TuiAction) -> StepView {
    match mode {
        ModeView::Normal => normal_step(app, action),
        ModeView::SaveAs { name } => save_as_step(app, name, action),
        ModeView::ConfirmReplace { name } => answer(
            app,
            action,
            mode,
            saving(app, name, true),
            "Replace cancelled"@,
        ),
        ModeView::ConfirmApply => answer(
            app,
            action,
            mode,
            StepView { app, sequel: SequelView::ConfirmedApply },
            "Apply cancelled"@,
        ),
        ModeView::RenameProfile { name } => rename_step(app, name, action),
        ModeView::CopyProfile { source, name } => copy_step(app, source, name, action),
        ModeView::ConfirmCopyReplace { source, name } => answer(
            app,
            action,
            mode,
            changing(app, ChangeView::Copy { source, destination: name, replace: true }),
            "Copy replace cancelled"@,
        ),
        ModeView::ConfirmDelete { name } => answer(
            app,
            action,
            mode,
            changing(app, ChangeView::Delete { name }),
            "Delete cancelled"@,
        ),
        ModeView::ModeSelect { modes, cursor } => mode_select_step(app, modes, cursor, action),
        ModeView::SnapTarget { direction, targets, cursor } => snap_target_step(
            app,
            direction,
            targets,
            cursor,
            action,
        ),
        ModeView::ConfirmQuit => quit_step(app, action),
        ModeView::Help => help_step(app, action),
    }
}

/// The editor waiting for nothing in particular.
pub open spec fn at_rest(app: AppView) -> AppView {
    AppView { mode: ModeView::Normal, ..app }
}

/// `step` is what the editor does with the choice of a profile by itself.
pub open spec fn is_auto_step(app: AppView, step: StepView) -> bool {
    if app.dirty {
        step == told(
            app,
            "Automatic selection blocked: save or discard the modified draft first"@,
        )
    } else {
        exists|decided: DecisionView| #[trigger]
            matching::is_decision(
                decided,
                app.store,
                app.monitors,
                app.config.fallback_profile,
            ) && step == done(auto_selected(app, decided))
    }
}

/// `step` is what the editor does with the wish for another mode.
pub open spec fn is_mode_step(app: AppView, step: StepView) -> bool {
    match selected_output(app) {
        None => step == done(app),
        Some(i) => exists|found: Option<ResolvedView>| #[trigger]
            is_partner(found, app, i) && step == done(
                modes_offered(app, modes_of(app, found), app.draft.outputs[i].mode),
            ),
    }
}

/// `step` is what the editor `app` does with `action`.
pub open spec fn is_step(app: AppView, action: TuiAction, step: StepView) -> bool {
    match (app.mode, action) {
        (ModeView::Normal, TuiAction::AutoSelect) => is_auto_step(app, step),
        (ModeView::Normal, TuiAction::CycleSelectedMode) => is_mode_step(app, step),
        _ => step == step_in(at_rest(app), app.mode, action),
    }
}

// ---------------------------------------------------------------------------
// Sequels
// ---------------------------------------------------------------------------
/// So many warnings, in words.
pub open spec fn warnings_text(count: int) -> Seq<char> {
    text::int_text(count) + " warning"@ + doctor::plural_text(count)
}

/// How the draft looks, in words, where `head` is the broadest part of why it
/// cannot be applied.
pub open spec fn preview_text(
    name: Seq<char>,
    planned: Result<PlanView, Seq<char>>,
    head: Seq<char>,
) -> Seq<char> {
    match planned {
        Err(_) => "Draft cannot be previewed: "@ + head,
        Ok(plan) => if plan.warnings.len() == 0 {
            "Editing profile `"@ + name + "`"@
        } else {
            "Editing profile `"@ + name + "` with "@ + warnings_text(plan.warnings.len() as int)
        },
    }
}

/// What becomes of the wish to apply a draft.
pub open spec fn apply_requested(app: AppView, planned: Result<PlanView, Seq<char>>) -> (
    AppView,
    EffectView,
) {
    let refused = match planned {
        Err(reason) => Some(reason),
        Ok(plan) => plan::unsafe_reason(plan),
    };
    match (refused, planned) {
        (Some(reason), _) => (
            AppView { status: "Draft cannot be applied: "@ + reason, ..app },
            EffectView::Nothing,
        ),
        (None, Ok(plan)) => if plan.warnings.len() == 0 {
            (app, EffectView::Apply(plan))
        } else {
            (
                AppView {
                    mode: ModeView::ConfirmApply,
                    status: "Apply has "@ + warnings_text(plan.warnings.len() as int)
                        + "; press y to confirm"@,
                    ..app
                },
                EffectView::Nothing,
            )
        },
        (None, Err(_)) => (app, EffectView::Nothing),
    }
}

/// The draft of `app` gives the plan `planned`, or cannot be applied, `head` being
/// the broadest part of why.
pub open spec fn is_draft_plan(
    app: AppView,
    planned: Result<PlanView, Seq<char>>,
    head: Seq<char>,
) -> bool {
    &&& plan::is_plan(planned, app.draft, app.monitors, MonitorMatchMode::Explicit)
    &&& planned matches Err(told) ==> plan::is_refusal(
        told,
        head,
        app.draft,
        app.monitors,
        MonitorMatchMode::Explicit,
    )
}

/// `end` and `result` are what becomes of `step` where its draft gives the plan
/// `planned`, or cannot be applied, `head` being the broadest part of why.
pub open spec fn ends_with(
    step: StepView,
    planned: Result<PlanView, Seq<char>>,
    head: Seq<char>,
    end: AppView,
    result: Result<EffectView, Refusal>,
) -> bool {
    match step.sequel {
        SequelView::Preview => end == (AppView {
            status: preview_text(step.app.draft.name, planned, head),
            ..step.app
        }) && result == Ok::<_, Refusal>(EffectView::Nothing),
        SequelView::RequestApply => {
            let (app, effect) = apply_requested(step.app, planned);
            end == app && result == Ok::<_, Refusal>(effect)
        },
        SequelView::ConfirmedApply => end == step.app && result == (match planned {
            Ok(plan) => Ok(EffectView::Apply(plan)),
            Err(text) => Err(Refusal { head, text }),
        }),
        _ => false,
    }
}

/// `end` and `result` are what becomes of `step`.
pub open spec fn is_end(
    step: StepView,
    end: AppView,
    result: Result<EffectView, Refusal>,
) -> bool {
    match step.sequel {
        SequelView::Plain(effect) => end == step.app && result == Ok::<_, Refusal>(effect),
        SequelView::Refuse(reason) => end == step.app && result == Err::<EffectView, _>(reason),
        _ => exists|planned: Result<PlanView, Seq<char>>, head: Seq<char>| #[trigger]
            is_draft_plan(step.app, planned, head) && ends_with(step, planned, head, end, result),
    }
}

/// `end` and `result` are what the editor `app` makes of `action`.
pub open spec fn is_handled(
    app: AppView,
    action: TuiAction,
    end: AppView,
    result: Result<EffectView, Refusal>,
) -> bool {
    exists|step: StepView| #[trigger] is_step(app, action, step) && is_end(step, end, result)
}

// ---------------------------------------------------------------------------
// Replies
// ---------------------------------------------------------------------------
/// The profile `name` of the saved profiles is edited from now on.
pub open spec fn reloaded(
    app: AppView,
    name: Seq<char>,
    status: Seq<char>,
    missing: Seq<char>,
) -> (AppView, Result<(), Seq<char>>) {
    match store::position_of(app.store, name) {
        None => (AppView { selected_profile: None, ..app }, Err(missing)),
        Some(i) => (
            AppView {
                status,
                ..editing(AppView { selected_profile: Some(i as usize), ..app }, app.store[i])
            },
            Ok(()),
        ),
    }
}

/// What becomes of the editor once a change to the saved profiles was made, or
/// failed.
pub open spec fn change_ended(
    app: AppView,
    change: ChangeView,
    reply: Result<Seq<ProfileView>, Seq<char>>,
) -> (AppView, Result<(), Seq<char>>) {
    match reply {
        Err(reason) => (
            app,
            Err(
                error::within(
                    "failed to save profile store at "@ + app.paths.profile_store,
                    reason,
                ),
            ),
        ),
        Ok(profiles) => {
            let app = AppView { store: profiles, ..app };
            match change {
                ChangeView::Save { profile, .. } => reloaded(
                    app,
                    profile.name,
                    "Saved profile `"@ + profile.name + "`"@,
                    "saved profile `"@ + profile.name + "` was not reloaded"@,
                ),
                ChangeView::Rename { old_name, new_name } => reloaded(
                    app,
                    new_name,
                    "Renamed profile `"@ + old_name + "` to `"@ + new_name + "`"@,
                    "renamed profile `"@ + new_name + "` was not reloaded"@,
                ),
                ChangeView::Copy { source, destination, .. } => reloaded(
                    app,
                    destination,
                    "Copied profile `"@ + source + "` to `"@ + destination + "`"@,
                    "copied profile `"@ + destination + "` was not reloaded"@,
                ),
                ChangeView::Delete { name } => {
                    let status = "Deleted profile `"@ + name + "`"@;
                    (
                        if profiles.len() == 0 {
                            AppView {
                                status,
                                ..editing(
                                    AppView { selected_profile: None, ..app },
                                    current_draft(profiles, app.monitors),
                                )
                            }
                        } else {
                            AppView {
                                status,
                                ..editing(
                                    AppView { selected_profile: Some(0), ..app },
                                    profiles[0],
                                )
                            }
                        },
                        Ok(()),
                    )
                },
            }
        },
    }
}

/// The editor once the monitors have been looked at again. A draft that nobody
/// has touched follows them.
pub open spec fn refreshed(app: AppView, monitors: Seq<MonitorView>) -> AppView {
    let draft = current_draft(app.store, monitors);
    let app = AppView {
        monitors,
        status: "Refreshed "@ + text::int_text(monitors.len() as int) + " current monitor"@
            + doctor::plural_text(monitors.len() as int),
        ..app
    };
    if app.selected_profile is None && !app.dirty {
        AppView { draft, selected_monitor: first_monitor(draft), ..app }
    } else {
        app
    }
}

} // verus!
