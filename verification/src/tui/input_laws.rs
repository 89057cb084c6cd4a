//! What keys and the mouse do.
use vstd::prelude::*;

use crate::error::Error;
use crate::hyprland::monitor;
use crate::profile::transaction::ApplyTransactionState;
use crate::tui::editing_laws;
use crate::tui::geometry;
use crate::tui::geometry::{CellRect, SnapDirection};
use crate::tui::input;
use crate::tui::input::{DragState, KeyInput, MouseInput};
use crate::tui::layout::TuiLayout;
use crate::tui::model::TuiAction;
use crate::tui::steps;
use crate::tui::steps::{AppView, ModeView, StepView};

verus! {

// ---------------------------------------------------------------------------
// Keys
// ---------------------------------------------------------------------------
/// An arrow moves the selected output, if it is on, by the configured step to where it
/// points: to the left and the right along a row, up and down along a column.
pub proof fn law_arrows_point_the_way(
    app: AppView,
    key: KeyInput,
    shift: bool,
    action: TuiAction,
    step: StepView,
    i: int,
)
    requires
        editing_laws::ready_to_edit(app, i),
        app.draft.outputs[i].enabled,
        1 <= app.config.tui_move_step <= 10_000,
        -1_000_000_000 <= app.draft.outputs[i].x <= 1_000_000_000,
        -1_000_000_000 <= app.draft.outputs[i].y <= 1_000_000_000,
        input::is_key_action(key, shift, app.mode, Some(action)),
        steps::is_step(app, action, step),
    ensures
        ({
            let was = app.draft.outputs[i];
            let is = step.app.draft.outputs[i];
            let by = app.config.tui_move_step as int;
            &&& key is Left ==> is.x == was.x - by && is.y == was.y
            &&& key is Right ==> is.x == was.x + by && is.y == was.y
            &&& key is Up ==> is.y == was.y - by && is.x == was.x
            &&& key is Down ==> is.y == was.y + by && is.x == was.x
        }),
{
    editing_laws::law_nudges_move_by_the_step(app, step, action, i);
}

/// A plus makes the scale of the selected output larger by a tenth, a minus smaller, as
/// far as a scale may be and but for a ten-thousandth of a billionth.
pub proof fn law_plus_and_minus_change_the_scale(
    app: AppView,
    key: KeyInput,
    shift: bool,
    action: TuiAction,
    step: StepView,
    i: int,
)
    requires
        editing_laws::ready_to_edit(app, i),
        100_000_000_000_000_000 <= app.draft.outputs[i].scale <= 10_000_000_000_000_000_000,
        input::is_key_action(key, shift, app.mode, Some(action)),
        steps::is_step(app, action, step),
    ensures
        ({
            let was = app.draft.outputs[i].scale;
            let is = step.app.draft.outputs[i].scale;
            &&& key == KeyInput::Char('+') && was <= 9_900_000_000_000_000_000 ==> -100_000 <= is - (
            was + 100_000_000_000_000_000) <= 100_000
            &&& key == KeyInput::Char('-') && was >= 200_000_000_000_000_000 ==> -100_000 <= is - (
            was - 100_000_000_000_000_000) <= 100_000
        }),
{
    if key == KeyInput::Char('+') || key == KeyInput::Char('-') {
        if let TuiAction::AdjustSelectedScale(delta) = action {
            editing_laws::law_scales_change_by_the_step(app, step, delta, i);
        }
    }
}

/// While nothing in particular is waited for, the capitals H, J, K and L put the
/// selected output to the left of another, below it, above it and to its right; brackets
/// go through the profiles, the tabulator through the monitors, and other letters do
/// what they stand for.
pub proof fn law_keys_do_what_they_stand_for(
    key: KeyInput,
    shift: bool,
    action: Option<TuiAction>,
)
    requires
        input::is_key_action(key, shift, ModeView::Normal, action),
    ensures
        key == KeyInput::Char('H') ==> action == Some(TuiAction::SnapSelected(SnapDirection::Left)),
        key == KeyInput::Char('J') ==> action == Some(
            TuiAction::SnapSelected(SnapDirection::Below),
        ),
        key == KeyInput::Char('K') ==> action == Some(
            TuiAction::SnapSelected(SnapDirection::Above),
        ),
        key == KeyInput::Char('L') ==> action == Some(
            TuiAction::SnapSelected(SnapDirection::Right),
        ),
        key == KeyInput::Char('[') ==> action == Some(TuiAction::PreviousProfile),
        key == KeyInput::Char(']') ==> action == Some(TuiAction::NextProfile),
        key is Tab ==> action == Some(TuiAction::NextMonitor),
        key is BackTab ==> action == Some(TuiAction::PreviousMonitor),
        key == KeyInput::Char(' ') ==> action == Some(TuiAction::ToggleSelected),
        key == KeyInput::Char('m') ==> action == Some(TuiAction::CycleSelectedMode),
        key == KeyInput::Char('r') ==> action == Some(TuiAction::CycleSelectedTransform),
        key == KeyInput::Char('n') ==> action == Some(TuiAction::NewDraft),
        key == KeyInput::Char('s') ==> action == Some(TuiAction::BeginSaveAs),
        key == KeyInput::Char('c') ==> action == Some(TuiAction::BeginCopy),
        key == KeyInput::Char('R') ==> action == Some(TuiAction::BeginRename),
        key == KeyInput::Char('d') ==> action == Some(TuiAction::BeginDelete),
        key == KeyInput::Char('a') ==> action == Some(TuiAction::ApplyDraft),
        key == KeyInput::Char('A') ==> action == Some(TuiAction::AutoSelect),
        key == KeyInput::Char('f') ==> action == Some(TuiAction::RefreshMonitors),
        key == KeyInput::Char('?') ==> action == Some(TuiAction::ShowHelp),
        key == KeyInput::Char('q') || key is Esc ==> action == Some(TuiAction::RequestQuit),
{
}

/// Where the editor asks before it replaces, deletes, applies or quits, only a `y`, small
/// or capital, and the enter key agree; escape and an `n` decline; and no other key says
/// anything.
pub proof fn law_only_yes_agrees(
    key: KeyInput,
    shift: bool,
    mode: ModeView,
    action: Option<TuiAction>,
)
    requires
        input::is_key_action(key, shift, mode, action),
        mode is ConfirmReplace || mode is ConfirmDelete || mode is ConfirmApply || mode
            is ConfirmQuit || mode is ConfirmCopyReplace,
    ensures
        action == Some(TuiAction::Confirm) <==> key is Enter || key == KeyInput::Char('y') || key
            == KeyInput::Char('Y'),
        action == Some(TuiAction::Cancel) <==> key is Esc || key == KeyInput::Char('n') || key
            == KeyInput::Char('N'),
        action is None || action == Some(TuiAction::Confirm) || action == Some(TuiAction::Cancel),
{
}

/// While a name is typed every character is taken as one, also those that mean something
/// else otherwise.
pub proof fn law_names_take_every_character(
    c: char,
    shift: bool,
    mode: ModeView,
    action: Option<TuiAction>,
)
    requires
        input::is_key_action(KeyInput::Char(c), shift, mode, action),
        mode is SaveAs || mode is RenameProfile || mode is CopyProfile,
    ensures
        action == Some(TuiAction::SaveNameChar(c)),
{
}

// ---------------------------------------------------------------------------
// The mouse
// ---------------------------------------------------------------------------
/// While a name is typed, the enter key is done with it, escape gives it up, and the
/// backspace key takes a character back; no other key but a character does anything.
pub proof fn law_names_are_ended_or_given_up(
    key: KeyInput,
    shift: bool,
    mode: ModeView,
    action: Option<TuiAction>,
)
    requires
        input::is_key_action(key, shift, mode, action),
        mode is SaveAs || mode is RenameProfile || mode is CopyProfile,
    ensures
        action == Some(TuiAction::Submit) <==> key is Enter,
        action == Some(TuiAction::Cancel) <==> key is Esc,
        action == Some(TuiAction::SaveNameBackspace) <==> key is Backspace,
        action is None <==> !(key is Enter || key is Esc || key is Backspace || key is Char),
{
}

/// In a list of modes or targets, the arrow down, the tabulator and a `j` go down, the
/// arrow up, the tabulator backwards and a `k` go up, enter takes what is marked and escape
/// nothing.
pub proof fn law_lists_are_gone_through_by_keys(
    key: KeyInput,
    shift: bool,
    mode: ModeView,
    action: Option<TuiAction>,
)
    requires
        input::is_key_action(key, shift, mode, action),
        mode is ModeSelect || mode is SnapTarget,
    ensures
        action == Some(TuiAction::SelectNextMode) <==> key is Down || key is Tab || key
            == KeyInput::Char('j') || key == KeyInput::Char('J'),
        action == Some(TuiAction::SelectPreviousMode) <==> key is Up || key is BackTab || key
            == KeyInput::Char('k') || key == KeyInput::Char('K'),
        action == Some(TuiAction::Submit) <==> key is Enter,
        action == Some(TuiAction::Cancel) <==> key is Esc,
{
}

/// A small letter with the shift key held stands for the side that its capital does; the
/// help is closed by escape, by enter, by a question mark and by a `q`.
pub proof fn law_shifted_letters_are_capitals(
    shift: bool,
    key: KeyInput,
    normal: Option<TuiAction>,
    help: Option<TuiAction>,
)
    requires
        input::is_key_action(key, shift, ModeView::Normal, normal),
        input::is_key_action(key, shift, ModeView::Help, help),
    ensures
        shift && key == KeyInput::Char('h') ==> normal == Some(
            TuiAction::SnapSelected(SnapDirection::Left),
        ),
        shift && key == KeyInput::Char('j') ==> normal == Some(
            TuiAction::SnapSelected(SnapDirection::Below),
        ),
        shift && key == KeyInput::Char('k') ==> normal == Some(
            TuiAction::SnapSelected(SnapDirection::Above),
        ),
        shift && key == KeyInput::Char('l') ==> normal == Some(
            TuiAction::SnapSelected(SnapDirection::Right),
        ),
        !shift && (key == KeyInput::Char('h') || key == KeyInput::Char('j') || key
            == KeyInput::Char('k') || key == KeyInput::Char('l')) ==> normal is None,
        help == Some(TuiAction::Cancel) <==> key is Esc || key is Enter || key
            == KeyInput::Char('?') || key == KeyInput::Char('q'),
{
}

/// The first row within the border of a list is its first line, the next its second, and
/// the border is no line.
pub proof fn law_list_lines_follow_the_border(area: CellRect, row: int)
    requires
        area.height >= 2,
        area.y + area.height <= u16::MAX,
    ensures
        input::list_line(area, row) == (if area.y + 1 <= row < area.y + area.height - 1 {
            Some(row - area.y - 1)
        } else {
            None
        }),
{
}

/// A press on the list selects the profile in that line; a press on the canvas selects
/// the output that is shown there, from where it can be dragged. Turning the wheel goes
/// through the profiles, and letting go ends a drag.
pub proof fn law_presses_select(
    app: AppView,
    column: u16,
    row: u16,
    layout: TuiLayout,
    drag: Option<DragState>,
    line: int,
)
    ensures
        layout.profile_list.holds(column as int, row as int) && input::list_line(
            layout.profile_list,
            row as int,
        ) == Some(line) && 0 <= line <= usize::MAX ==> input::mouse_step(
            app,
            MouseInput::Press,
            column,
            row,
            layout,
            drag,
        ) == (Some(TuiAction::SelectProfile(line as usize)), None::<DragState>),
        !layout.profile_list.holds(column as int, row as int) ==> match input::mouse_step(
            app,
            MouseInput::Press,
            column,
            row,
            layout,
            drag,
        ) {
            (Some(TuiAction::SelectMonitor(i)), Some(held)) => held.index == i && held.column
                == column && held.row == row && layout.canvas.holds(column as int, row as int)
                && geometry::output_shown(
                geometry::canvas_of(
                    app.draft.outputs,
                    app.monitors,
                    layout.canvas.within_border(),
                ),
                app.draft.outputs,
                app.monitors,
                column as int,
                row as int,
            ) is Some,
            (None, None) => true,
            _ => false,
        },
        input::mouse_step(app, MouseInput::Release, column, row, layout, drag) == (
            None::<TuiAction>,
            None::<DragState>,
        ),
        input::mouse_step(app, MouseInput::ScrollDown, column, row, layout, drag).0 == Some(
            TuiAction::NextProfile,
        ),
        input::mouse_step(app, MouseInput::ScrollUp, column, row, layout, drag).0 == Some(
            TuiAction::PreviousProfile,
        ),
{
}

/// Dragging over the canvas moves the selected output by what the cells between the two
/// places stand for, and goes on from the new place. Without a drag nothing is moved.
pub proof fn law_drags_move_by_cells(
    app: AppView,
    column: u16,
    row: u16,
    layout: TuiLayout,
    last: DragState,
)
    requires
        layout.canvas.holds(column as int, row as int),
    ensures
        ({
            let canvas = geometry::canvas_of(
                app.draft.outputs,
                app.monitors,
                layout.canvas.within_border(),
            );
            let (action, held) = input::mouse_step(
                app,
                MouseInput::Drag,
                column,
                row,
                layout,
                Some(last),
            );
            &&& action == Some(
                TuiAction::MoveSelected(
                    canvas.across(column as int - last.column as int),
                    canvas.down(row as int - last.row as int),
                ),
            )
            &&& held == Some(DragState { index: last.index, column, row })
        }),
        input::mouse_step(app, MouseInput::Drag, column, row, layout, None).0 is None,
{
}

// ---------------------------------------------------------------------------
// After an application
// ---------------------------------------------------------------------------
/// Once a draft was applied, or rolled back, or changed nothing, the editor knows the
/// monitors as they were found at the end; where it failed, those that it knew.
pub proof fn law_editor_knows_the_monitors_afterwards(
    app: AppView,
    transaction: Result<ApplyTransactionState, Error>,
)
    ensures
        ({
            let after = input::applied(app, transaction);
            match transaction {
                Ok(ApplyTransactionState::Completed(done)) => {
                    &&& !(done.outcome@ is Unattended) ==> after.monitors == monitor::views(
                        done.final_state@,
                    )
                    &&& done.outcome@ is Unattended ==> after.monitors == app.monitors
                    &&& done.outcome@ is Confirmed || done.outcome@ is RolledBack ==> after.draft
                        == app.draft && after.dirty == app.dirty
                },
                _ => after.monitors == app.monitors && after.draft == app.draft && after.dirty
                    == app.dirty,
            }
        }),
{
}

} // verus!
