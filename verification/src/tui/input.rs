//! Keys and mouse events as actions.
use vstd::prelude::*;

use crate::error::Error;
use crate::hyprland::monitor;
use crate::number::Decimal;
use crate::profile::apply::{ApplyOutcome, OutcomeView};
use crate::profile::plan;
use crate::profile::plan::{ApplyPlan, ApplyWarning, PlanView};
use crate::profile::render;
use crate::profile::render::RuleMapping;
use crate::profile::transaction::ApplyTransactionState;
use crate::error;
use crate::text;
use crate::tui::geometry;
use crate::tui::geometry::{CanvasTransform, CellRect, SnapDirection};
use crate::tui::layout::TuiLayout;
use crate::tui::model::{TuiAction, TuiApp, TuiInputMode};
use crate::tui::steps;
use crate::tui::steps::{AppView, ModeView};

verus! {

/// By how much a key changes the scale, in units.
pub const SCALE_STEP: i128 = 100_000_000_000_000_000;

// ---------------------------------------------------------------------------
// Keys
// ---------------------------------------------------------------------------
/// A key.
#[derive(Debug, Clone, Copy, PartialEq, Eq, Structural)]
pub enum KeyInput {
    Enter,
    Esc,
    Backspace,
    Tab,
    BackTab,
    Left,
    Right,
    Up,
    Down,
    Char(char),
    Other,
}

/// A key while a name is typed.
pub open spec fn typing_key(key: KeyInput) -> Option<TuiAction> {
    match key {
        KeyInput::Enter => Some(TuiAction::Submit),
        KeyInput::Esc => Some(TuiAction::Cancel),
        KeyInput::Backspace => Some(TuiAction::SaveNameBackspace),
        KeyInput::Char(c) => Some(TuiAction::SaveNameChar(c)),
        _ => None,
    }
}

/// A key while a question is asked.
pub open spec fn answering_key(key: KeyInput) -> Option<TuiAction> {
    match key {
        KeyInput::Enter => Some(TuiAction::Confirm),
        KeyInput::Esc => Some(TuiAction::Cancel),
        KeyInput::Char(c) => if c == 'y' || c == 'Y' {
            Some(TuiAction::Confirm)
        } else if c == 'n' || c == 'N' {
            Some(TuiAction::Cancel)
        } else {
            None
        },
        _ => None,
    }
}

/// A key while a list is offered.
pub open spec fn choosing_key(key: KeyInput) -> Option<TuiAction> {
    match key {
        KeyInput::Enter => Some(TuiAction::Submit),
        KeyInput::Esc => Some(TuiAction::Cancel),
        KeyInput::Down => Some(TuiAction::SelectNextMode),
        KeyInput::Tab => Some(TuiAction::SelectNextMode),
        KeyInput::Up => Some(TuiAction::SelectPreviousMode),
        KeyInput::BackTab => Some(TuiAction::SelectPreviousMode),
        KeyInput::Char(c) => if c == 'j' || c == 'J' {
            Some(TuiAction::SelectNextMode)
        } else if c == 'k' || c == 'K' {
            Some(TuiAction::SelectPreviousMode)
        } else {
            None
        },
        _ => None,
    }
}

/// A key while help is shown.
pub open spec fn help_key(key: KeyInput) -> Option<TuiAction> {
    match key {
        KeyInput::Esc => Some(TuiAction::Cancel),
        KeyInput::Enter => Some(TuiAction::Cancel),
        KeyInput::Char(c) => if c == '?' || c == 'q' {
            Some(TuiAction::Cancel)
        } else {
            None
        },
        _ => None,
    }
}

/// The side that a letter stands for, if `shift` is held with it or it is a
/// capital.
pub open spec fn side_of(c: char, shift: bool) -> Option<SnapDirection> {
    if c == 'H' || (c == 'h' && shift) {
        Some(SnapDirection::Left)
    } else if c == 'L' || (c == 'l' && shift) {
        Some(SnapDirection::Right)
    } else if c == 'K' || (c == 'k' && shift) {
        Some(SnapDirection::Above)
    } else if c == 'J' || (c == 'j' && shift) {
        Some(SnapDirection::Below)
    } else {
        None
    }
}

/// What changes the scale by `units`, `action` being what it is asked with.
pub open spec fn is_scaling(action: Option<TuiAction>, units: int) -> bool {
    action matches Some(TuiAction::AdjustSelectedScale(delta)) && delta.value() == units
}

/// A letter while nothing in particular is waited for; those that change the
/// scale are left out.
pub open spec fn letter_key(c: char, shift: bool) -> Option<TuiAction> {
    if c == 'q' {
        Some(TuiAction::RequestQuit)
    } else if c == 'n' {
        Some(TuiAction::NewDraft)
    } else if c == 's' {
        Some(TuiAction::BeginSaveAs)
    } else if c == 'c' {
        Some(TuiAction::BeginCopy)
    } else if c == 'R' {
        Some(TuiAction::BeginRename)
    } else if c == 'd' {
        Some(TuiAction::BeginDelete)
    } else if c == 'a' {
        Some(TuiAction::ApplyDraft)
    } else if c == 'A' {
        Some(TuiAction::AutoSelect)
    } else if c == 'f' {
        Some(TuiAction::RefreshMonitors)
    } else if c == '?' {
        Some(TuiAction::ShowHelp)
    } else if c == ' ' {
        Some(TuiAction::ToggleSelected)
    } else if c == 'm' {
        Some(TuiAction::CycleSelectedMode)
    } else if c == 'r' {
        Some(TuiAction::CycleSelectedTransform)
    } else if c == ']' {
        Some(TuiAction::NextProfile)
    } else if c == '[' {
        Some(TuiAction::PreviousProfile)
    } else {
        match side_of(c, shift) {
            Some(direction) => Some(TuiAction::SnapSelected(direction)),
            None => None,
        }
    }
}

/// A key other than a letter while nothing in particular is waited for.
pub open spec fn named_key(key: KeyInput) -> Option<TuiAction> {
    match key {
        KeyInput::Esc => Some(TuiAction::RequestQuit),
        KeyInput::Tab => Some(TuiAction::NextMonitor),
        KeyInput::BackTab => Some(TuiAction::PreviousMonitor),
        KeyInput::Left => Some(TuiAction::NudgeLeft),
        KeyInput::Right => Some(TuiAction::NudgeRight),
        KeyInput::Up => Some(TuiAction::NudgeUp),
        KeyInput::Down => Some(TuiAction::NudgeDown),
        _ => None,
    }
}

/// `action` is what `key` asks for while nothing in particular is waited for.
pub open spec fn is_normal_key(key: KeyInput, shift: bool, action: Option<TuiAction>) -> bool {
    match key {
        KeyInput::Char(c) => if c == '+' || c == '=' {
            is_scaling(action, SCALE_STEP as int)
        } else if c == '-' {
            is_scaling(action, -SCALE_STEP)
        } else {
            action == letter_key(c, shift)
        },
        _ => action == named_key(key),
    }
}

/// `action` is what `key` asks for while the editor waits for `mode`.
pub open spec fn is_key_action(
    key: KeyInput,
    shift: bool,
    mode: ModeView,
    action: Option<TuiAction>,
) -> bool {
    match mode {
        ModeView::SaveAs { .. } => action == typing_key(key),
        ModeView::RenameProfile { .. } => action == typing_key(key),
        ModeView::CopyProfile { .. } => action == typing_key(key),
        ModeView::ConfirmReplace { .. } => action == answering_key(key),
        ModeView::ConfirmQuit => action == answering_key(key),
        ModeView::ConfirmApply => action == answering_key(key),
        ModeView::ConfirmCopyReplace { .. } => action == answering_key(key),
        ModeView::ConfirmDelete { .. } => action == answering_key(key),
        ModeView::ModeSelect { .. } => action == choosing_key(key),
        ModeView::SnapTarget { .. } => action == choosing_key(key),
        ModeView::Help => action == help_key(key),
        ModeView::Normal => is_normal_key(key, shift, action),
    }
}

fn normal_key(key: KeyInput, shift: bool) -> (result: Option<TuiAction>)
    ensures
        is_normal_key(key, shift, result),
{
    match key {
        KeyInput::Esc => Some(TuiAction::RequestQuit),
        KeyInput::Tab => Some(TuiAction::NextMonitor),
        KeyInput::BackTab => Some(TuiAction::PreviousMonitor),
        KeyInput::Left => Some(TuiAction::NudgeLeft),
        KeyInput::Right => Some(TuiAction::NudgeRight),
        KeyInput::Up => Some(TuiAction::NudgeUp),
        KeyInput::Down => Some(TuiAction::NudgeDown),
        KeyInput::Char(c) => if c == 'q' {
            Some(TuiAction::RequestQuit)
        } else if c == 'n' {
            Some(TuiAction::NewDraft)
        } else if c == 's' {
            Some(TuiAction::BeginSaveAs)
        } else if c == 'c' {
            Some(TuiAction::BeginCopy)
        } else if c == 'R' {
            Some(TuiAction::BeginRename)
        } else if c == 'd' {
            Some(TuiAction::BeginDelete)
        } else if c == 'a' {
            Some(TuiAction::ApplyDraft)
        } else if c == 'A' {
            Some(TuiAction::AutoSelect)
        } else if c == 'f' {
            Some(TuiAction::RefreshMonitors)
        } else if c == '?' {
            Some(TuiAction::ShowHelp)
        } else if c == ' ' {
            Some(TuiAction::ToggleSelected)
        } else if c == 'm' {
            Some(TuiAction::CycleSelectedMode)
        } else if c == 'r' {
            Some(TuiAction::CycleSelectedTransform)
        } else if c == '+' || c == '=' {
            Some(TuiAction::AdjustSelectedScale(Decimal::from_units(SCALE_STEP)))
        } else if c == '-' {
            Some(TuiAction::AdjustSelectedScale(Decimal::from_units(-SCALE_STEP)))
        } else if c == ']' {
            Some(TuiAction::NextProfile)
        } else if c == '[' {
            Some(TuiAction::PreviousProfile)
        } else if c == 'H' || (c == 'h' && shift) {
            Some(TuiAction::SnapSelected(SnapDirection::Left))
        } else if c == 'L' || (c == 'l' && shift) {
            Some(TuiAction::SnapSelected(SnapDirection::Right))
        } else if c == 'K' || (c == 'k' && shift) {
            Some(TuiAction::SnapSelected(SnapDirection::Above))
        } else if c == 'J' || (c == 'j' && shift) {
            Some(TuiAction::SnapSelected(SnapDirection::Below))
        } else {
            None
        },
        _ => None,
    }
}

fn type_key(key: KeyInput) -> (result: Option<TuiAction>)
    ensures
        result == typing_key(key),
{
    match key {
        KeyInput::Enter => Some(TuiAction::Submit),
        KeyInput::Esc => Some(TuiAction::Cancel),
        KeyInput::Backspace => Some(TuiAction::SaveNameBackspace),
        KeyInput::Char(c) => Some(TuiAction::SaveNameChar(c)),
        _ => None,
    }
}

fn answer_key(key: KeyInput) -> (result: Option<TuiAction>)
    ensures
        result == answering_key(key),
{
    match key {
        KeyInput::Enter => Some(TuiAction::Confirm),
        KeyInput::Esc => Some(TuiAction::Cancel),
        KeyInput::Char(c) => if c == 'y' || c == 'Y' {
            Some(TuiAction::Confirm)
        } else if c == 'n' || c == 'N' {
            Some(TuiAction::Cancel)
        } else {
            None
        },
        _ => None,
    }
}

fn choose_key(key: KeyInput) -> (result: Option<TuiAction>)
    ensures
        result == choosing_key(key),
{
    match key {
        KeyInput::Enter => Some(TuiAction::Submit),
        KeyInput::Esc => Some(TuiAction::Cancel),
        KeyInput::Down | KeyInput::Tab => Some(TuiAction::SelectNextMode),
        KeyInput::Up | KeyInput::BackTab => Some(TuiAction::SelectPreviousMode),
        KeyInput::Char(c) => if c == 'j' || c == 'J' {
            Some(TuiAction::SelectNextMode)
        } else if c == 'k' || c == 'K' {
            Some(TuiAction::SelectPreviousMode)
        } else {
            None
        },
        _ => None,
    }
}

fn close_key(key: KeyInput) -> (result: Option<TuiAction>)
    ensures
        result == help_key(key),
{
    match key {
        KeyInput::Esc | KeyInput::Enter => Some(TuiAction::Cancel),
        KeyInput::Char(c) => if c == '?' || c == 'q' {
            Some(TuiAction::Cancel)
        } else {
            None
        },
        _ => None,
    }
}

/// What `key` asks for while the editor waits for `input_mode`.
pub fn key_to_action(key: KeyInput, shift: bool, input_mode: &TuiInputMode) -> (result: Option<
    TuiAction,
>)
    ensures
        is_key_action(key, shift, input_mode@, result),
{
    match input_mode {
        TuiInputMode::SaveAs { .. } | TuiInputMode::RenameProfile { .. }
        | TuiInputMode::CopyProfile { .. } => type_key(key),
        TuiInputMode::ConfirmReplace { .. } | TuiInputMode::ConfirmQuit | TuiInputMode::ConfirmApply
        | TuiInputMode::ConfirmCopyReplace { .. } | TuiInputMode::ConfirmDelete { .. } => {
            answer_key(key)
        },
        TuiInputMode::ModeSelect { .. } | TuiInputMode::SnapTarget { .. } => choose_key(key),
        TuiInputMode::Help => close_key(key),
        TuiInputMode::Normal => normal_key(key, shift),
    }
}

// ---------------------------------------------------------------------------
// The mouse
// ---------------------------------------------------------------------------
/// What the mouse does.
#[derive(Debug, Clone, Copy, PartialEq, Eq, Structural)]
pub enum MouseInput {
    Press,
    Drag,
    Release,
    ScrollDown,
    ScrollUp,
    Other,
}

/// An output that is being dragged, and the cell where it was last.
#[derive(Debug, Clone, Copy, PartialEq, Eq, Structural)]
pub struct DragState {
    pub index: usize,
    pub column: u16,
    pub row: u16,
}

/// The line of a list with a border that is in the row `row`.
pub open spec fn list_line(area: CellRect, row: int) -> Option<int> {
    let inside = area.within_border();
    if row < inside.y || row >= inside.bottom_edge() {
        None
    } else {
        Some(row - inside.y)
    }
}

/// The line of a list with a border that is in the row `row`.
pub fn list_index_at(area: CellRect, row: u16) -> (result: Option<usize>)
    ensures
        match (result, list_line(area, row as int)) {
            (Some(i), Some(line)) => i == line,
            (None, None) => true,
            _ => false,
        },
{
    let inside: CellRect = area.inner();
    if row < inside.y || row >= inside.bottom() {
        None
    } else {
        Some((row - inside.y) as usize)
    }
}

/// What a press of the mouse asks for, and what is dragged from then on.
pub open spec fn pressed(
    app: AppView,
    column: u16,
    row: u16,
    layout: TuiLayout,
) -> (Option<TuiAction>, Option<DragState>) {
    let canvas = geometry::canvas_of(
        app.draft.outputs,
        app.monitors,
        layout.canvas.within_border(),
    );
    if layout.profile_list.holds(column as int, row as int) && list_line(
        layout.profile_list,
        row as int,
    ) is Some {
        (
            Some(
                TuiAction::SelectProfile(list_line(layout.profile_list, row as int)->0 as usize),
            ),
            None,
        )
    } else if layout.canvas.holds(column as int, row as int) {
        match geometry::output_shown(
            canvas,
            app.draft.outputs,
            app.monitors,
            column as int,
            row as int,
        ) {
            Some(i) => (
                Some(TuiAction::SelectMonitor(i as usize)),
                Some(DragState { index: i as usize, column, row }),
            ),
            None => (None, None),
        }
    } else {
        (None, None)
    }
}

/// What dragging asks for, and what is dragged from then on.
pub open spec fn dragged(
    app: AppView,
    column: u16,
    row: u16,
    layout: TuiLayout,
    drag: Option<DragState>,
) -> (Option<TuiAction>, Option<DragState>) {
    match drag {
        None => (None, None),
        Some(last) => {
            let canvas = geometry::canvas_of(
                app.draft.outputs,
                app.monitors,
                layout.canvas.within_border(),
            );
            (
                if layout.canvas.holds(column as int, row as int) {
                    Some(
                        TuiAction::MoveSelected(
                            canvas.across(column - last.column),
                            canvas.down(row - last.row),
                        ),
                    )
                } else {
                    None
                },
                Some(DragState { index: last.index, column, row }),
            )
        },
    }
}

/// What the mouse asks for, and what is dragged from then on.
pub open spec fn mouse_step(
    app: AppView,
    mouse: MouseInput,
    column: u16,
    row: u16,
    layout: TuiLayout,
    drag: Option<DragState>,
) -> (Option<TuiAction>, Option<DragState>) {
    match mouse {
        MouseInput::Press => pressed(app, column, row, layout),
        MouseInput::Drag => dragged(app, column, row, layout, drag),
        MouseInput::Release => (None, None),
        MouseInput::ScrollDown => (Some(TuiAction::NextProfile), drag),
        MouseInput::ScrollUp => (Some(TuiAction::PreviousProfile), drag),
        MouseInput::Other => (None, drag),
    }
}

fn press(app: &TuiApp, column: u16, row: u16, layout: TuiLayout) -> (result: (
    Option<TuiAction>,
    Option<DragState>,
))
    ensures
        result == pressed(app@, column, row, layout),
{
    if layout.profile_list.contains(column, row) {
        match list_index_at(layout.profile_list, row) {
            Some(index) => {
                return (Some(TuiAction::SelectProfile(index)), None);
            },
            None => {},
        }
    }
    if layout.canvas.contains(column, row) {
        let transform: CanvasTransform = CanvasTransform::new_with_monitors(
            &app.draft.outputs,
            &app.monitors,
            layout.canvas.inner(),
        );
        match transform.output_at_with_monitors(&app.draft.outputs, &app.monitors, column, row) {
            Some(index) => {
                return (
                    Some(TuiAction::SelectMonitor(index)),
                    Some(DragState { index, column, row }),
                );
            },
            None => {},
        }
    }
    (None, None)
}

/// What the mouse asks for, and what is dragged from then on.
pub fn handle_mouse(
    app: &TuiApp,
    mouse: MouseInput,
    column: u16,
    row: u16,
    layout: TuiLayout,
    drag: Option<DragState>,
) -> (result: (Option<TuiAction>, Option<DragState>))
    ensures
        result == mouse_step(app@, mouse, column, row, layout, drag),
{
    match mouse {
        MouseInput::Press => press(app, column, row, layout),
        MouseInput::Drag => match drag {
            None => (None, None),
            Some(last) => {
                let next: Option<DragState> = Some(DragState { index: last.index, column, row });
                if layout.canvas.contains(column, row) {
                    let transform: CanvasTransform = CanvasTransform::new_with_monitors(
                        &app.draft.outputs,
                        &app.monitors,
                        layout.canvas.inner(),
                    );
                    let (dx, dy): (i32, i32) = transform.cell_delta_to_logical(
                        column as i32 - last.column as i32,
                        row as i32 - last.row as i32,
                    );
                    (Some(TuiAction::MoveSelected(dx, dy)), next)
                } else {
                    (None, next)
                }
            },
        },
        MouseInput::Release => (None, None),
        MouseInput::ScrollDown => (Some(TuiAction::NextProfile), drag),
        MouseInput::ScrollUp => (Some(TuiAction::PreviousProfile), drag),
        MouseInput::Other => (None, drag),
    }
}

// ---------------------------------------------------------------------------
// Applying
// ---------------------------------------------------------------------------
/// `plan` does what was looked at.
pub open spec fn as_reviewed(plan: PlanView, approved: PlanView) -> bool {
    &&& plan.profile_name == approved.profile_name
    &&& plan.mappings == approved.mappings
    &&& plan.batch == approved.batch
    &&& plan.warnings == approved.warnings
}

fn same_mapping(a: &RuleMapping, b: &RuleMapping) -> (result: bool)
    ensures
        result == (a@ == b@),
{
    let same: bool = text::same(a.monitor_id.as_str(), b.monitor_id.as_str()) && text::same(
        a.output_name.as_str(),
        b.output_name.as_str(),
    ) && text::same(a.rule.as_str(), b.rule.as_str());
    assert(same == (a@ =~= b@));
    same
}

fn same_mappings(a: &Vec<RuleMapping>, b: &Vec<RuleMapping>) -> (result: bool)
    ensures
        result == (render::mapping_views(a@) == render::mapping_views(b@)),
{
    let ghost left = render::mapping_views(a@);
    let ghost right = render::mapping_views(b@);
    if a.len() != b.len() {
        assert(left.len() != right.len());
        return false;
    }
    let mut i: usize = 0;
    while i < a.len()
        invariant
            i <= a@.len(),
            a@.len() == b@.len(),
            left == render::mapping_views(a@),
            right == render::mapping_views(b@),
            forall|j: int| 0 <= j < i ==> left[j] == right[j],
        decreases a@.len() - i,
    {
        assert(left[i as int] == a@[i as int]@ && right[i as int] == b@[i as int]@);
        if !same_mapping(&a[i], &b[i]) {
            return false;
        }
        i += 1;
    }
    assert(left =~= right);
    true
}

fn same_warning(a: &ApplyWarning, b: &ApplyWarning) -> (result: bool)
    ensures
        result == (a@ == b@),
{
    match (a, b) {
        (
            ApplyWarning::OverlappingOutputs { left: a_left, right: a_right },
            ApplyWarning::OverlappingOutputs { left: b_left, right: b_right },
        ) => text::same(a_left.as_str(), b_left.as_str()) && text::same(
            a_right.as_str(),
            b_right.as_str(),
        ),
        (ApplyWarning::DisablesAllOutputs, ApplyWarning::DisablesAllOutputs) => true,
        _ => false,
    }
}

fn same_warnings(a: &Vec<ApplyWarning>, b: &Vec<ApplyWarning>) -> (result: bool)
    ensures
        result == (plan::warning_views(a@) == plan::warning_views(b@)),
{
    let ghost left = plan::warning_views(a@);
    let ghost right = plan::warning_views(b@);
    if a.len() != b.len() {
        assert(left.len() != right.len());
        return false;
    }
    let mut i: usize = 0;
    while i < a.len()
        invariant
            i <= a@.len(),
            a@.len() == b@.len(),
            left == plan::warning_views(a@),
            right == plan::warning_views(b@),
            forall|j: int| 0 <= j < i ==> left[j] == right[j],
        decreases a@.len() - i,
    {
        assert(left[i as int] == a@[i as int]@ && right[i as int] == b@[i as int]@);
        if !same_warning(&a[i], &b[i]) {
            return false;
        }
        i += 1;
    }
    assert(left =~= right);
    true
}

/// Whether `authoritative` does what the user looked at.
pub fn review_plan(authoritative: &ApplyPlan, approved: &ApplyPlan) -> (result: Result<(), Error>)
    ensures
        error::refused_as(
            result,
            if as_reviewed(authoritative@, approved@) {
                None
            } else {
                Some(
                    "monitor topology changed after plan review; refresh and review the new apply plan"@,
                )
            },
        ),
{
    if text::same(authoritative.profile_name.as_str(), approved.profile_name.as_str())
        && same_mappings(&authoritative.mappings, &approved.mappings) && text::same(
        authoritative.batch.as_str(),
        approved.batch.as_str(),
    ) && same_warnings(&authoritative.warnings, &approved.warnings) {
        Ok(())
    } else {
        Err(
            Error::new(
                "monitor topology changed after plan review; refresh and review the new apply plan".to_owned(),
            ),
        )
    }
}

/// The editor once the draft was applied, or was not.
pub open spec fn applied(app: AppView, transaction: Result<ApplyTransactionState, Error>) -> AppView {
    match transaction {
        Err(error) => AppView { status: "Apply failed: "@ + error@, ..app },
        Ok(ApplyTransactionState::NoAutomaticMatch { .. }) => AppView {
            status: "Apply failed: "@ + "draft apply unexpectedly used automatic selection"@,
            ..app
        },
        Ok(ApplyTransactionState::Completed(done)) => {
            let monitors = monitor::views(done.final_state@);
            match done.outcome@ {
                OutcomeView::Confirmed => AppView {
                    monitors,
                    status: "Applied draft `"@ + app.draft.name + "`"@,
                    ..app
                },
                OutcomeView::RolledBack { reason } => AppView {
                    monitors,
                    status: "Apply rolled back: "@ + reason + "; previous monitor layout restored"@,
                    ..app
                },
                OutcomeView::Noop => {
                    let app = steps::refreshed(app, monitors);
                    AppView {
                        status: "No changes: draft `"@ + app.draft.name + "` is already active"@,
                        ..app
                    }
                },
                OutcomeView::Unattended => AppView {
                    status: "Apply failed: "@
                        + "TUI apply completed without the required confirmation"@,
                    ..app
                },
            }
        },
    }
}

/// Takes in what came of applying the draft.
pub fn finish_apply(app: &mut TuiApp, transaction: Result<ApplyTransactionState, Error>)
    ensures
        final(app)@ == applied(old(app)@, transaction),
{
    match transaction {
        Err(error) => {
            app.mark_apply_failed(&error);
        },
        Ok(ApplyTransactionState::NoAutomaticMatch { .. }) => {
            app.mark_apply_failed(
                &Error::new("draft apply unexpectedly used automatic selection".to_owned()),
            );
        },
        Ok(ApplyTransactionState::Completed(done)) => {
            let done = *done;
            match done.outcome {
                ApplyOutcome::Confirmed => {
                    app.mark_applied(done.final_state);
                },
                ApplyOutcome::RolledBack { reason } => {
                    app.mark_rolled_back(done.final_state, reason.as_str());
                },
                ApplyOutcome::Noop => {
                    app.update_monitors(done.final_state);
                    app.mark_noop();
                },
                ApplyOutcome::Unattended => {
                    app.mark_apply_failed(
                        &Error::new(
                            "TUI apply completed without the required confirmation".to_owned(),
                        ),
                    );
                },
            }
        },
    }
}

} // verus!
