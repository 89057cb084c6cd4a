//! What each action of the editor does.
use vstd::prelude::*;

use crate::double_bounds;
use crate::hyprland::monitor::MonitorView;
use crate::number::Decimal;
use crate::profile::matching::MonitorMatchMode;
use crate::profile::plan;
use crate::profile::plan::PlanView;
use crate::profile::store::{ProfileOutputView, ProfileView};
use crate::profile::validation::{MAX_SCALE, MIN_SCALE};
use crate::text;
use crate::tui::model::TuiAction;
use crate::tui::steps;
use crate::tui::steps::{AppView, ChangeView, EffectView, ModeView, SequelView, StepView};

verus! {

// ---------------------------------------------------------------------------
// Editing the selected output
// ---------------------------------------------------------------------------
/// The output number `i` is selected, and the editor waits for nothing in particular.
pub open spec fn ready_to_edit(app: AppView, i: int) -> bool {
    &&& app.mode is Normal
    &&& 0 <= i < app.draft.outputs.len()
    &&& app.selected_monitor == Some(i as usize)
    &&& i <= usize::MAX
}

/// Of `app`, only the output number `i` of the draft has changed, and the editor knows.
pub open spec fn edits_only(app: AppView, step: StepView, i: int) -> bool {
    &&& step.app.dirty
    &&& step.app.mode is Normal
    &&& step.app.selected_monitor == app.selected_monitor
    &&& step.app.selected_profile == app.selected_profile
    &&& step.app.draft.name == app.draft.name
    &&& step.app.draft.monitors == app.draft.monitors
    &&& step.app.draft.outputs.len() == app.draft.outputs.len()
    &&& step.app.draft.outputs[i].monitor_id == app.draft.outputs[i].monitor_id
    &&& forall|j: int|
        0 <= j < app.draft.outputs.len() && j != i ==> #[trigger] step.app.draft.outputs[j]
            == app.draft.outputs[j]
    &&& step.sequel == SequelView::Plain(EffectView::Nothing)
}

/// Nudging moves the selected output, if it is on, by the configured step to the side
/// that was asked for, along that side alone.
pub proof fn law_nudges_move_by_the_step(app: AppView, step: StepView, action: TuiAction, i: int)
    requires
        ready_to_edit(app, i),
        app.draft.outputs[i].enabled,
        1 <= app.config.tui_move_step <= 10_000,
        -1_000_000_000 <= app.draft.outputs[i].x <= 1_000_000_000,
        -1_000_000_000 <= app.draft.outputs[i].y <= 1_000_000_000,
        steps::is_step(app, action, step),
    ensures
        ({
            let was = app.draft.outputs[i];
            let is = step.app.draft.outputs[i];
            let by = app.config.tui_move_step as int;
            &&& action is NudgeLeft ==> edits_only(app, step, i) && is.x == was.x - by && is.y
                == was.y
            &&& action is NudgeRight ==> edits_only(app, step, i) && is.x == was.x + by && is.y
                == was.y
            &&& action is NudgeUp ==> edits_only(app, step, i) && is.x == was.x && is.y == was.y
                - by
            &&& action is NudgeDown ==> edits_only(app, step, i) && is.x == was.x && is.y == was.y
                + by
            &&& action is NudgeLeft || action is NudgeRight || action is NudgeUp || action
                is NudgeDown ==> is == (ProfileOutputView { x: is.x, y: is.y, ..was })
        }),
{
}

/// Moving takes the selected output, if it is on, as far as it was asked to.
pub proof fn law_moves_go_as_far_as_asked(app: AppView, step: StepView, dx: i32, dy: i32, i: int)
    requires
        ready_to_edit(app, i),
        app.draft.outputs[i].enabled,
        i32::MIN <= app.draft.outputs[i].x + dx <= i32::MAX,
        i32::MIN <= app.draft.outputs[i].y + dy <= i32::MAX,
        steps::is_step(app, TuiAction::MoveSelected(dx, dy), step),
    ensures
        edits_only(app, step, i),
        step.app.draft.outputs[i] == (ProfileOutputView {
            x: (app.draft.outputs[i].x + dx) as i32,
            y: (app.draft.outputs[i].y + dy) as i32,
            ..app.draft.outputs[i]
        }),
{
}

/// Toggling switches the selected output on where it was off and off where it was on;
/// turning gives it the next turn, and the first after the last. Neither changes
/// anything else.
pub proof fn law_toggling_and_turning(app: AppView, step: StepView, action: TuiAction, i: int)
    requires
        ready_to_edit(app, i),
        0 <= app.draft.outputs[i].transform <= 7,
        steps::is_step(app, action, step),
    ensures
        ({
            let was = app.draft.outputs[i];
            let is = step.app.draft.outputs[i];
            &&& action is ToggleSelected ==> edits_only(app, step, i) && is.enabled != was.enabled
                && is == (ProfileOutputView { enabled: is.enabled, ..was })
            &&& action is CycleSelectedTransform ==> edits_only(app, step, i) && is == (
            ProfileOutputView { transform: is.transform, ..was }) && (was.transform < 7
                ==> is.transform == was.transform + 1) && (was.transform == 7 ==> is.transform
                == 0)
        }),
{
}

/// Changing the scale adds what was asked for, but for a ten-thousandth of a billionth,
/// and stops at a tenth and at ten; nothing else changes.
pub proof fn law_scales_change_by_the_step(app: AppView, step: StepView, delta: Decimal, i: int)
    requires
        ready_to_edit(app, i),
        MIN_SCALE <= app.draft.outputs[i].scale <= MAX_SCALE,
        -MAX_SCALE <= delta.value() <= MAX_SCALE,
        steps::is_step(app, TuiAction::AdjustSelectedScale(delta), step),
    ensures
        ({
            let was = app.draft.outputs[i];
            let is = step.app.draft.outputs[i];
            let asked = was.scale + delta.value();
            &&& edits_only(app, step, i)
            &&& is == (ProfileOutputView { scale: is.scale, ..was })
            &&& 100_000_000_000_000_000 <= is.scale <= 10_000_000_000_000_000_000
            &&& 100_000_000_000_000_000 <= asked <= 10_000_000_000_000_000_000 ==> -100_000
                <= is.scale - asked <= 100_000
            &&& asked > 10_000_000_000_000_100_000 ==> is.scale == 10_000_000_000_000_000_000
            &&& asked < 99_999_999_999_900_000 ==> is.scale == 100_000_000_000_000_000
        }),
{
    reveal(steps::changed_scale);
    double_bounds::lemma_sum_error(app.draft.outputs[i].scale, delta.value());
}

/// The mode that is chosen from a list becomes that of the selected output, without the
/// unit behind it; nothing else changes.
pub proof fn law_chosen_modes_are_taken(
    app: AppView,
    step: StepView,
    modes: Seq<Seq<char>>,
    cursor: usize,
    mode: Seq<char>,
    i: int,
)
    requires
        app.mode == (ModeView::ModeSelect { modes, cursor }),
        0 <= i < app.draft.outputs.len(),
        app.selected_monitor == Some(i as usize),
        i <= usize::MAX,
        0 <= cursor < modes.len(),
        modes[cursor as int] == mode + seq!['H', 'z'],
        steps::is_step(app, TuiAction::Submit, step) || steps::is_step(
            app,
            TuiAction::Confirm,
            step,
        ),
    ensures
        edits_only(app, step, i),
        step.app.draft.outputs[i] == (ProfileOutputView { mode, ..app.draft.outputs[i] }),
{
    reveal_strlit("Hz");
    let named = modes[cursor as int];
    assert("Hz"@ =~= seq!['H', 'z']);
    assert(named.skip(named.len() - 2) =~= "Hz"@);
    assert(named.take(named.len() - 2) =~= mode);
}

// ---------------------------------------------------------------------------
// Selecting
// ---------------------------------------------------------------------------
/// Selecting a monitor selects that one; the next is the one behind it and the first
/// behind the last, the previous the one before it and the last before the first. The
/// draft stays as it is.
pub proof fn law_monitors_are_selected_in_turn(
    app: AppView,
    step: StepView,
    action: TuiAction,
    i: int,
)
    requires
        ready_to_edit(app, i),
        app.draft.outputs.len() <= usize::MAX,
        steps::is_step(app, action, step),
        action is NextMonitor || action is PreviousMonitor || action is SelectMonitor,
    ensures
        step.app.draft == app.draft,
        step.app.dirty == app.dirty,
        ({
            let n = app.draft.outputs.len() as int;
            &&& action is NextMonitor && i < n - 1 ==> step.app.selected_monitor == Some(
                (i + 1) as usize,
            )
            &&& action is NextMonitor && i == n - 1 ==> step.app.selected_monitor == Some(0usize)
            &&& action is PreviousMonitor && i > 0 ==> step.app.selected_monitor == Some(
                (i - 1) as usize,
            )
            &&& action is PreviousMonitor && i == 0 ==> step.app.selected_monitor == Some(
                (n - 1) as usize,
            )
            &&& action matches TuiAction::SelectMonitor(k) ==> step.app.selected_monitor == Some(
                if k < n {
                    k
                } else {
                    i as usize
                },
            )
        }),
{
    let n = app.draft.outputs.len() as int;
    let (q, r): (int, int) = if i < n - 1 {
        (0, i + 1)
    } else {
        (1, 0)
    };
    assert(q * n + r == i + 1) by (nonlinear_arith)
        requires
            (q == 0 && r == i + 1) || (q == 1 && r == 0 && i == n - 1),
    ;
    vstd::arithmetic::div_mod::lemma_fundamental_div_mod_converse(i + 1, n, q, r);
    let (q, r): (int, int) = if i > 0 {
        (0, i - 1)
    } else {
        (-1, n - 1)
    };
    assert(q * n + r == i - 1) by (nonlinear_arith)
        requires
            (q == 0 && r == i - 1) || (q == -1 && r == n - 1 && i == 0),
    ;
    vstd::arithmetic::div_mod::lemma_fundamental_div_mod_converse(i - 1, n, q, r);
}

/// A profile that is selected, while the draft has no changes, is what is edited from
/// then on, from its first output on.
pub proof fn law_selected_profiles_are_edited(app: AppView, step: StepView, k: usize)
    requires
        app.mode is Normal,
        !app.dirty,
        k < app.store.len(),
        steps::is_step(app, TuiAction::SelectProfile(k), step),
    ensures
        step.app.draft == app.store[k as int],
        step.app.selected_profile == Some(k),
        !step.app.dirty,
        app.store[k as int].outputs.len() > 0 ==> step.app.selected_monitor == Some(0usize),
{
}

// ---------------------------------------------------------------------------
// Snapping
// ---------------------------------------------------------------------------
/// An output can be put at the side of every other that is on, and of no other.
pub proof fn law_lit_outputs_can_be_snapped_to(
    outputs: Seq<ProfileOutputView>,
    selected: int,
    n: int,
    t: int,
)
    requires
        0 <= n <= outputs.len() <= usize::MAX,
        0 <= t < n,
    ensures
        steps::snap_targets(outputs, selected, n).contains(t as usize) <==> t != selected
            && outputs[t].enabled,
        forall|k: int|
            0 <= k < steps::snap_targets(outputs, selected, n).len() ==> (#[trigger]
            steps::snap_targets(outputs, selected, n)[k]) < n,
    decreases n,
{
    lemma_targets_below(outputs, selected, n);
    let all = steps::snap_targets(outputs, selected, n);
    let before = steps::snap_targets(outputs, selected, n - 1);
    if t < n - 1 {
        law_lit_outputs_can_be_snapped_to(outputs, selected, n - 1, t);
        if before.contains(t as usize) {
            let k = choose|k: int| 0 <= k < before.len() && before[k] == t as usize;
            assert(all[k] == t as usize);
        }
        if all.contains(t as usize) {
            let k = choose|k: int| 0 <= k < all.len() && all[k] == t as usize;
            assert(k < before.len());
            assert(before[k] == t as usize);
        }
    } else {
        lemma_targets_below(outputs, selected, n - 1);
        if n - 1 != selected && outputs[n - 1].enabled {
            assert(all[before.len() as int] == t as usize);
        } else if all.contains(t as usize) {
            let k = choose|k: int| 0 <= k < all.len() && all[k] == t as usize;
            assert(before[k] < n - 1);
        }
    }
}

proof fn lemma_targets_below(outputs: Seq<ProfileOutputView>, selected: int, n: int)
    requires
        0 <= n <= outputs.len() <= usize::MAX,
    ensures
        forall|k: int|
            0 <= k < steps::snap_targets(outputs, selected, n).len() ==> (#[trigger]
            steps::snap_targets(outputs, selected, n)[k]) < n,
    decreases n,
{
    if n > 0 {
        lemma_targets_below(outputs, selected, n - 1);
        let all = steps::snap_targets(outputs, selected, n);
        let before = steps::snap_targets(outputs, selected, n - 1);
        assert forall|k: int| 0 <= k < all.len() implies (#[trigger] all[k]) < n by {
            if k < before.len() {
                assert(all[k] == before[k]);
                assert(steps::snap_targets(outputs, selected, n - 1)[k] < n - 1);
            }
        }
    }
}

// ---------------------------------------------------------------------------
// Changes to the saved profiles
// ---------------------------------------------------------------------------
/// A draft that is saved under a name that no profile has is handed on whole under that
/// name, without the spaces around it, and replaces nothing; under a name that a profile
/// has, the editor asks first, and replaces it once the user agrees.
pub proof fn law_drafts_are_saved_whole(app: AppView, step: StepView, name: Seq<char>)
    requires
        app.mode == (ModeView::SaveAs { name }),
        text::trimmed(name).len() > 0,
        steps::is_step(app, TuiAction::Submit, step),
    ensures
        ({
            let wanted = text::trimmed(name);
            let taken = exists|i: int|
                0 <= i < app.store.len() && (#[trigger] app.store[i]).name == wanted;
            &&& !taken ==> (step.sequel matches SequelView::Plain(EffectView::Change(
                ChangeView::Save { profile, replace },
            )) && !replace && profile.name == wanted && profile.outputs == app.draft.outputs
                && profile.monitors == app.draft.monitors)
            &&& taken ==> step.app.mode == (ModeView::ConfirmReplace { name: wanted })
                && step.sequel == SequelView::Plain(EffectView::Nothing) && step.app.draft
                == app.draft
        }),
{
}

/// Once the user agrees, a profile is replaced by the draft, deleted, or replaced by the
/// copy of another, as was asked.
pub proof fn law_agreed_changes_are_made(app: AppView, step: StepView, action: TuiAction)
    requires
        action is Confirm || action is Submit,
        steps::is_step(app, action, step),
    ensures
        app.mode matches ModeView::ConfirmReplace { name } ==> (step.sequel
            matches SequelView::Plain(EffectView::Change(ChangeView::Save { profile, replace }))
            && replace && profile == (ProfileView { name, ..app.draft })),
        app.mode matches ModeView::ConfirmDelete { name } ==> step.sequel == SequelView::Plain(
            EffectView::Change(ChangeView::Delete { name }),
        ),
        app.mode matches ModeView::ConfirmCopyReplace { source, name } ==> step.sequel
            == SequelView::Plain(
            EffectView::Change(ChangeView::Copy { source, destination: name, replace: true }),
        ),
        app.mode is ConfirmQuit ==> step.sequel == SequelView::Plain(EffectView::Quit),
{
}

/// The selected profile is renamed to the name that was typed, without the spaces around
/// it; a profile is copied to such a name, without replacing one.
pub proof fn law_typed_names_are_used(
    app: AppView,
    step: StepView,
    source: Seq<char>,
    name: Seq<char>,
    k: usize,
)
    requires
        text::trimmed(name).len() > 0,
        steps::is_step(app, TuiAction::Submit, step),
    ensures
        app.mode == (ModeView::RenameProfile { name }) && app.selected_profile == Some(k) && k
            < app.store.len() ==> step.sequel == SequelView::Plain(
            EffectView::Change(
                ChangeView::Rename {
                    old_name: app.store[k as int].name,
                    new_name: text::trimmed(name),
                },
            ),
        ),
        app.mode == (ModeView::CopyProfile { source, name }) && !(exists|i: int|
            0 <= i < app.store.len() && (#[trigger] app.store[i]).name == text::trimmed(name))
            ==> step.sequel == SequelView::Plain(
            EffectView::Change(
                ChangeView::Copy { source, destination: text::trimmed(name), replace: false },
            ),
        ),
{
}

// ---------------------------------------------------------------------------
// Quitting and applying
// ---------------------------------------------------------------------------
/// The editor quits at once where the draft has no changes, and asks where it has.
pub proof fn law_quitting_asks_for_changes(app: AppView, step: StepView)
    requires
        app.mode is Normal,
        steps::is_step(app, TuiAction::RequestQuit, step),
    ensures
        !app.dirty ==> step.sequel == SequelView::Plain(EffectView::Quit),
        app.dirty ==> step.app.mode is ConfirmQuit && step.sequel == SequelView::Plain(
            EffectView::Nothing,
        ) && step.app.draft == app.draft,
{
}

/// A draft is applied at once where its plan has no warnings; where it has, the editor
/// asks; and where it cannot be applied, or would switch off every output, nothing is
/// done. The plan is that of the draft.
pub proof fn law_drafts_are_applied_by_their_plan(
    app: AppView,
    end: AppView,
    result: Result<EffectView, crate::error::Refusal>,
)
    requires
        app.mode is Normal,
        steps::is_handled(app, TuiAction::ApplyDraft, end, result),
    ensures
        end.draft == app.draft,
        exists|planned: Result<PlanView, Seq<char>>| #[trigger]
            plan::is_plan(planned, app.draft, app.monitors, MonitorMatchMode::Explicit)
                && match planned {
                Err(_) => result == Ok::<_, crate::error::Refusal>(EffectView::Nothing) && end.mode
                    is Normal,
                Ok(plan) => if plan.warnings.len() == 0 {
                    result == Ok::<_, crate::error::Refusal>(EffectView::Apply(plan))
                } else {
                    result == Ok::<_, crate::error::Refusal>(EffectView::Nothing) && (
                    plan.warnings.contains(plan::WarningView::DisablesAllOutputs) || end.mode
                        is ConfirmApply)
                },
            },
{
    let step = choose|step: StepView| #[trigger]
        steps::is_step(app, TuiAction::ApplyDraft, step) && steps::is_end(step, end, result);
    let (planned, head) = choose|planned: Result<PlanView, Seq<char>>, head: Seq<char>| #[trigger]
        steps::is_draft_plan(step.app, planned, head) && steps::ends_with(
            step,
            planned,
            head,
            end,
            result,
        );
    assert(plan::is_plan(planned, app.draft, app.monitors, MonitorMatchMode::Explicit));
}

// ---------------------------------------------------------------------------
// Looking again
// ---------------------------------------------------------------------------
/// A draft that nobody has touched follows the monitors: it has an output for each of
/// them, where it is and as it is turned.
pub proof fn law_untouched_drafts_follow_the_monitors(
    app: AppView,
    monitors: Seq<MonitorView>,
    i: int,
)
    requires
        !app.dirty,
        app.selected_profile is None,
        0 <= i < monitors.len(),
    ensures
        ({
            let after = steps::refreshed(app, monitors);
            &&& after.monitors == monitors
            &&& after.draft.outputs.len() == monitors.len()
            &&& after.draft.outputs[i].monitor_id == monitors[i].id
            &&& after.draft.outputs[i].x == monitors[i].x
            &&& after.draft.outputs[i].y == monitors[i].y
            &&& after.draft.outputs[i].enabled == monitors[i].enabled
            &&& after.draft.outputs[i].scale == monitors[i].scale
            &&& after.draft.outputs[i].transform == monitors[i].transform
        }),
{
}

} // verus!
