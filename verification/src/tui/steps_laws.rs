//! What holds of the editor.
use vstd::prelude::*;

use crate::bytes;
use crate::hyprland::monitor::MonitorView;
use crate::profile::matching;
use crate::profile::matching::{DecisionView, MonitorMatchMode};
use crate::profile::plan;
use crate::profile::plan::PlanView;
use crate::profile::store;
use crate::profile::store::{ProfileOutputView, ProfileView};
use crate::profile::validation::{MAX_PROFILE_NAME_BYTES, MAX_SCALE, MIN_SCALE};
use crate::text;
use crate::tui::model::TuiAction;
use crate::tui::steps;
use crate::tui::steps::{AppView, ChangeView, EffectView, ModeView, SequelView, StepView};

verus! {

/// An action changes neither the saved profiles nor the monitors nor the
/// settings: those change only through the surroundings.
#[verifier::rlimit(60)]
pub proof fn lemma_step_keeps_surroundings(app: AppView, action: TuiAction, step: StepView)
    requires
        steps::is_step(app, action, step),
    ensures
        step.app.paths == app.paths,
        step.app.config == app.config,
        step.app.store == app.store,
        step.app.monitors == app.monitors,
{
    match (app.mode, action) {
        (ModeView::Normal, TuiAction::AutoSelect) => {
            if !app.dirty {
                let decided = choose|decided: DecisionView| #[trigger]
                    matching::is_decision(
                        decided,
                        app.store,
                        app.monitors,
                        app.config.fallback_profile,
                    ) && step == steps::done(steps::auto_selected(app, decided));
            }
        },
        _ => {},
    }
}

/// `action` edits the draft while the editor waits for nothing in particular.
pub open spec fn is_edit(action: TuiAction) -> bool {
    ||| action is MoveSelected
    ||| action is NudgeLeft
    ||| action is NudgeRight
    ||| action is NudgeUp
    ||| action is NudgeDown
    ||| action is SnapSelected
    ||| action is ToggleSelected
    ||| action is CycleSelectedTransform
    ||| action is AdjustSelectedScale
}

/// The editor offers a list to choose from.
pub open spec fn is_offering(mode: ModeView) -> bool {
    mode is ModeSelect || mode is SnapTarget
}

/// A draft with changes is given up only for the asking: no action replaces it,
/// forgets that it has changes, or quits, unless the editor has asked whether to
/// discard them.
pub proof fn law_changes_are_not_lost(app: AppView, action: TuiAction, step: StepView)
    requires
        app.dirty,
        steps::is_step(app, action, step),
    ensures
        step.app.dirty,
        step.app.draft != app.draft ==> (app.mode is Normal && is_edit(action)) || is_offering(
            app.mode,
        ),
        step.sequel == SequelView::Plain(EffectView::Quit) ==> app.mode is ConfirmQuit,
{
}

/// Editing leaves the name of the draft, what it remembers of monitors and the
/// number of its outputs alone.
pub proof fn law_edits_keep_what_a_draft_is_for(app: AppView, action: TuiAction, step: StepView)
    requires
        app.dirty,
        steps::is_step(app, action, step),
    ensures
        step.app.draft.name == app.draft.name,
        step.app.draft.monitors == app.draft.monitors,
        step.app.draft.outputs.len() == app.draft.outputs.len(),
{
}

/// A profile is deleted only where the editor has asked and the user agreed.
pub proof fn law_deleting_is_confirmed(
    app: AppView,
    action: TuiAction,
    step: StepView,
    name: Seq<char>,
)
    requires
        steps::is_step(app, action, step),
        step.sequel == SequelView::Plain(EffectView::Change(ChangeView::Delete { name })),
    ensures
        app.mode == (ModeView::ConfirmDelete { name }),
        action is Confirm || action is Submit,
{
}

/// A profile is overwritten only where the editor has asked and the user agreed;
/// otherwise a draft is saved under a name that no profile has.
pub proof fn law_replacing_is_confirmed(
    app: AppView,
    action: TuiAction,
    step: StepView,
    profile: ProfileView,
    replace: bool,
)
    requires
        steps::is_step(app, action, step),
        step.sequel == SequelView::Plain(EffectView::Change(ChangeView::Save { profile, replace })),
    ensures
        replace ==> app.mode == (ModeView::ConfirmReplace { name: profile.name }) && (action
            is Confirm || action is Submit),
        !replace ==> !store::has_name(app.store, profile.name),
        profile == (ProfileView { name: profile.name, ..app.draft }),
{
}

/// A draft with warnings is applied only where the editor has asked and the user
/// agreed, and one that would switch off every output is not applied at all
/// without that question.
#[verifier::spinoff_prover]
#[verifier::rlimit(60)]
pub proof fn law_warned_drafts_are_confirmed(
    app: AppView,
    action: TuiAction,
    end: AppView,
    applied: PlanView,
)
    requires
        steps::is_handled(app, action, end, Ok(EffectView::Apply(applied))),
    ensures
        app.mode is ConfirmApply || (applied.warnings.len() == 0 && plan::unsafe_reason(applied)
            is None),
        app.mode is ConfirmApply ==> action is Confirm || action is Submit,
        plan::is_plan(Ok(applied), app.draft, app.monitors, MonitorMatchMode::Explicit),
{
    let step = choose|step: StepView| #[trigger]
        steps::is_step(app, action, step) && steps::is_end(
            step,
            end,
            Ok(EffectView::Apply(applied)),
        );
    lemma_step_keeps_surroundings(app, action, step);
    match step.sequel {
        SequelView::Plain(effect) => {
            assert(!(effect is Apply)) by {
                assert(steps::is_step(app, action, step));
            }
        },
        SequelView::Refuse(_) => {},
        _ => {
            let (planned, head) = choose|planned: Result<PlanView, Seq<char>>, head: Seq<char>|
                #[trigger]
                steps::is_draft_plan(step.app, planned, head) && steps::ends_with(
                    step,
                    planned,
                    head,
                    end,
                    Ok(EffectView::Apply(applied)),
                );
        },
    }
}

/// Cancelling a question changes nothing in the draft and asks nothing of the
/// surroundings.
pub proof fn law_cancelling_changes_nothing(app: AppView, step: StepView)
    requires
        !(app.mode is Normal),
        steps::is_step(app, TuiAction::Cancel, step),
    ensures
        step.app.mode is Normal,
        step.app.draft == app.draft,
        step.app.dirty == app.dirty,
        step.app.selected_profile == app.selected_profile,
        step.sequel == SequelView::Plain(EffectView::Nothing) || step.sequel
            == SequelView::Preview,
{
}

/// A name that is typed never grows longer than a name may be and never takes in
/// a control character.
pub proof fn law_typed_names_stay_short(name: Seq<char>, c: char)
    requires
        text::byte_len(name) <= MAX_PROFILE_NAME_BYTES,
        !text::has_control(name),
    ensures
        text::byte_len(steps::typed(name, c)) <= MAX_PROFILE_NAME_BYTES,
        !text::has_control(steps::typed(name, c)),
{
    bytes::lemma_byte_len_push(name, c);
    let longer = steps::typed(name, c);
    assert forall|i: int| 0 <= i < longer.len() implies !text::control(#[trigger] longer[i]) by {
        if i < name.len() {
            assert(longer[i] == name[i]);
            assert(!text::control(name[i]));
        }
    }
}

/// Typing a character and erasing it leaves the name as it was, where there was
/// room for it.
pub proof fn law_erasing_undoes_typing(name: Seq<char>, c: char)
    requires
        steps::typed(name, c) != name,
    ensures
        steps::erased(steps::typed(name, c)) == name,
{
    assert(name.push(c).drop_last() =~= name);
}

/// However the scale is changed, it stays where a scale may be.
pub proof fn law_scale_stays_allowed(app: AppView, delta: int, i: int)
    requires
        steps::selected_output(app) == Some(i),
    ensures
        MIN_SCALE <= steps::selected_scaled(app, delta).draft.outputs[i].scale <= MAX_SCALE,
{
}

/// However often an output is turned, its turn is one of the eight there are.
pub proof fn law_turn_stays_allowed(app: AppView, i: int)
    requires
        steps::selected_output(app) == Some(i),
    ensures
        0 <= steps::selected_turned(app).draft.outputs[i].transform <= 7,
{
}

/// Eight turns bring an output back to where it was.
pub proof fn law_eight_turns_come_around(app: AppView, i: int)
    requires
        steps::selected_output(app) == Some(i),
        0 <= app.draft.outputs[i].transform <= 7,
    ensures
        turned(app, 8).draft == app.draft,
{
    reveal_with_fuel(turned, 9);
    lemma_turns(app, i, 8);
    let end = turned(app, 8);
    assert(end.draft.outputs[i].transform == app.draft.outputs[i].transform);
    assert(end.draft.outputs[i] =~= app.draft.outputs[i]);
    assert(end.draft.outputs =~= app.draft.outputs);
    assert(end.draft =~= app.draft);
}

/// The editor after the selected output was turned `n` times.
pub open spec fn turned(app: AppView, n: nat) -> AppView
    decreases n,
{
    if n == 0 {
        app
    } else {
        steps::selected_turned(turned(app, (n - 1) as nat))
    }
}

proof fn lemma_turns(app: AppView, i: int, n: nat)
    requires
        steps::selected_output(app) == Some(i),
        0 <= app.draft.outputs[i].transform <= 7,
    ensures
        ({
            let end = turned(app, n);
            &&& steps::selected_output(end) == Some(i)
            &&& end.draft.outputs[i].transform == (app.draft.outputs[i].transform + n) % 8
            &&& end.draft.outputs == app.draft.outputs.update(
                i,
                ProfileOutputView {
                    transform: end.draft.outputs[i].transform,
                    ..app.draft.outputs[i]
                },
            )
            &&& end.draft == steps::with_outputs(app.draft, end.draft.outputs)
        }),
    decreases n,
{
    if n == 0 {
        assert(app.draft.outputs.update(i, app.draft.outputs[i]) =~= app.draft.outputs);
        assert(app.draft.outputs[i] =~= (ProfileOutputView {
            transform: app.draft.outputs[i].transform,
            ..app.draft.outputs[i]
        }));
        assert(steps::with_outputs(app.draft, app.draft.outputs) =~= app.draft);
    } else {
        lemma_turns(app, i, (n - 1) as nat);
        let before = turned(app, (n - 1) as nat);
        let end = turned(app, n);
        assert(end.draft.outputs =~= app.draft.outputs.update(
            i,
            ProfileOutputView {
                transform: end.draft.outputs[i].transform,
                ..app.draft.outputs[i]
            },
        ));
    }
}

/// Switching an output off and on again leaves the draft as it was.
pub proof fn law_toggling_twice_changes_nothing(app: AppView)
    ensures
        steps::selected_toggled(steps::selected_toggled(app)).draft == app.draft,
{
    let once = steps::selected_toggled(app);
    let twice = steps::selected_toggled(once);
    match steps::selected_output(app) {
        None => {},
        Some(i) => {
            assert(steps::selected_output(once) == Some(i));
            assert(twice.draft.outputs[i] =~= app.draft.outputs[i]);
            assert(twice.draft.outputs =~= app.draft.outputs);
            assert(twice.draft =~= app.draft);
        },
    }
}

/// Choosing the next and then the previous of a list comes back to where it was,
/// and a choice is always in the list.
pub proof fn law_cursor_goes_around(cursor: int, len: int)
    requires
        0 <= cursor < len,
    ensures
        0 <= steps::after(cursor, len) < len,
        0 <= steps::before(cursor, len) < len,
        steps::before(steps::after(cursor, len), len) == cursor,
        steps::after(steps::before(cursor, len), len) == cursor,
{
    vstd::arithmetic::div_mod::lemma_small_mod(cursor as nat, len as nat);
    if cursor + 1 < len {
        vstd::arithmetic::div_mod::lemma_small_mod((cursor + 1) as nat, len as nat);
    } else {
        vstd::arithmetic::div_mod::lemma_mod_self_0(len);
    }
    if cursor > 0 {
        vstd::arithmetic::div_mod::lemma_small_mod((cursor - 1) as nat, len as nat);
    }
    vstd::arithmetic::div_mod::lemma_mod_multiples_vanish(1, -1, len);
    vstd::arithmetic::div_mod::lemma_small_mod((len - 1) as nat, len as nat);
    vstd::arithmetic::div_mod::lemma_mod_self_0(len);
    assert(len * 1 + (-1) == len - 1);
}

/// A draft that was saved is what is saved under its name, and has no changes.
pub proof fn law_saving_settles_the_draft(
    app: AppView,
    profile: ProfileView,
    replace: bool,
    profiles: Seq<ProfileView>,
)
    requires
        store::has_name(profiles, profile.name),
        profiles.len() <= usize::MAX,
    ensures
        ({
            let (end, result) = steps::change_ended(
                app,
                ChangeView::Save { profile, replace },
                Ok(profiles),
            );
            &&& result is Ok
            &&& !end.dirty
            &&& profiles.contains(end.draft)
            &&& end.draft.name == profile.name
            &&& steps::selected_name(end) == Some(profile.name)
        }),
{
    store::lemma_position_of(profiles, profile.name);
}

/// A change that failed leaves the editor as it is.
pub proof fn law_failed_changes_change_nothing(
    app: AppView,
    change: ChangeView,
    reason: Seq<char>,
)
    ensures
        steps::change_ended(app, change, Err(reason)).0 == app,
        steps::change_ended(app, change, Err(reason)).1 is Err,
{
}

/// Looking at the monitors again never touches a draft with changes or one that
/// was saved.
pub proof fn law_refreshing_keeps_drafts(app: AppView, monitors: Seq<MonitorView>)
    requires
        app.dirty || app.selected_profile is Some,
    ensures
        steps::refreshed(app, monitors).draft == app.draft,
        steps::refreshed(app, monitors).monitors == monitors,
{
}

} // verus!
