//! What the editor asks, and what it is asked.
use vstd::prelude::*;

use crate::profile::matching;
use crate::profile::matching::{DecisionView, ResolvedView};
use crate::profile::store;
use crate::profile::store::ProfileView;
use crate::profile::validation;
use crate::text;
use crate::tui::editing_laws;
use crate::tui::geometry;
use crate::tui::geometry::SnapDirection;
use crate::tui::model::TuiAction;
use crate::tui::steps;
use crate::tui::steps::{AppView, ChangeView, EffectView, ModeView, SequelView, StepView};

verus! {

// ---------------------------------------------------------------------------
// Profiles
// ---------------------------------------------------------------------------
/// The next profile is the one behind the selected one and the first behind the last, the
/// previous the one before it and the last before the first. It is what is edited then.
pub proof fn law_profiles_are_selected_in_turn(
    app: AppView,
    step: StepView,
    action: TuiAction,
    i: int,
)
    requires
        app.mode is Normal,
        !app.dirty,
        0 <= i < app.store.len() <= usize::MAX,
        app.selected_profile == Some(i as usize),
        action is NextProfile || action is PreviousProfile,
        steps::is_step(app, action, step),
    ensures
        ({
            let n = app.store.len() as int;
            let k = if action is NextProfile {
                if i < n - 1 {
                    i + 1
                } else {
                    0
                }
            } else {
                if i > 0 {
                    i - 1
                } else {
                    n - 1
                }
            };
            &&& step.app.selected_profile == Some(k as usize)
            &&& step.app.draft == app.store[k]
            &&& !step.app.dirty
        }),
{
    let n = app.store.len() as int;
    if action is NextProfile && i == n - 1 {
        assert((i + 1) % n == 0) by (nonlinear_arith)
            requires
                i == n - 1,
                n >= 1,
        ;
    }
    if action is PreviousProfile && i == 0 {
        assert((0 - 1) % n == n - 1) by (nonlinear_arith)
            requires
                n >= 1,
        ;
    }
    if action is NextProfile && i < n - 1 {
        vstd::arithmetic::div_mod::lemma_small_mod((i + 1) as nat, n as nat);
    }
    if action is PreviousProfile && i > 0 {
        vstd::arithmetic::div_mod::lemma_small_mod((i - 1) as nat, n as nat);
    }
}

/// What is renamed, deleted and copied is the selected profile; the name that is proposed
/// for a copy is not taken.
pub proof fn law_questions_are_about_the_selected_profile(
    app: AppView,
    step: StepView,
    action: TuiAction,
    k: usize,
)
    requires
        app.mode is Normal,
        !app.dirty,
        app.selected_profile == Some(k),
        k < app.store.len(),
        steps::is_step(app, action, step),
    ensures
        action is BeginRename ==> step.app.mode == (ModeView::RenameProfile {
            name: app.store[k as int].name,
        }),
        action is BeginDelete ==> step.app.mode == (ModeView::ConfirmDelete {
            name: app.store[k as int].name,
        }),
        action is BeginCopy ==> (step.app.mode matches ModeView::CopyProfile { source, name }
            && source == app.store[k as int].name && forall|i: int|
            0 <= i < app.store.len() ==> (#[trigger] app.store[i]).name != name),
        action is BeginRename || action is BeginDelete || action is BeginCopy ==> step.app.draft
            == app.draft && step.app.store == app.store && step.sequel == SequelView::Plain(
            EffectView::Nothing,
        ),
{
    let source = app.store[k as int].name;
    let names = validation::names_of(app.store);
    text::law_first_free_is_free(source + "-copy"@, names);
    assert forall|i: int| 0 <= i < app.store.len() implies (#[trigger] app.store[i]).name
        != text::first_free(source + "-copy"@, names) by {
        assert(names[i] == app.store[i].name);
    }
}

/// A new draft has an output for every connected monitor, is no saved profile, and has to
/// be saved. The name that is proposed for it, or for any draft, is not taken.
pub proof fn law_new_drafts_are_of_the_layout(app: AppView, step: StepView, action: TuiAction)
    requires
        app.mode is Normal,
        steps::is_step(app, action, step),
    ensures
        action is NewDraft && !app.dirty ==> {
            &&& step.app.draft.outputs.len() == app.monitors.len()
            &&& step.app.draft.monitors.len() == app.monitors.len()
            &&& step.app.selected_profile is None
            &&& step.app.dirty
            &&& forall|i: int|
                0 <= i < app.store.len() ==> (#[trigger] app.store[i]).name != step.app.draft.name
            &&& forall|i: int|
                0 <= i < app.monitors.len() ==> (#[trigger] step.app.draft.outputs[i]).monitor_id
                    == app.monitors[i].id
        },
        action is BeginSaveAs ==> (step.app.mode matches ModeView::SaveAs { name } && forall|i: int|
            0 <= i < app.store.len() ==> (#[trigger] app.store[i]).name != name),
{
    let names = validation::names_of(app.store);
    let base = store::suggested_name(app.monitors);
    text::law_first_free_is_free(base, names);
    assert forall|i: int| 0 <= i < app.store.len() implies (#[trigger] app.store[i]).name
        != text::first_free(base, names) by {
        assert(names[i] == app.store[i].name);
    }
}

/// Where a profile would be applied by itself, choosing by itself edits it; where none
/// would, the draft stays.
pub proof fn law_choosing_edits_the_chosen_profile(app: AppView, step: StepView)
    requires
        app.mode is Normal,
        app.store.len() <= usize::MAX,
        steps::is_step(app, TuiAction::AutoSelect, step),
    ensures
        app.dirty ==> step.app.draft == app.draft && step.app.dirty,
        !app.dirty ==> exists|decided: DecisionView| #[trigger]
            matching::is_decision(
                decided,
                app.store,
                app.monitors,
                app.config.fallback_profile,
            ) && match decided.profile_name() {
                Some(name) => (exists|i: int|
                    0 <= i < app.store.len() && (#[trigger] app.store[i]).name == name)
                    ==> step.app.draft.name == name && app.store.contains(step.app.draft),
                None => step.app.draft == app.draft,
            },
{
    if !app.dirty {
        let decided = choose|decided: DecisionView| #[trigger]
            matching::is_decision(
                decided,
                app.store,
                app.monitors,
                app.config.fallback_profile,
            ) && step == steps::done(steps::auto_selected(app, decided));
        if let Some(name) = decided.profile_name() {
            store::lemma_position_of(app.store, name);
            if let Some(i) = store::position_of(app.store, name) {
                assert(app.store[i] == step.app.draft);
            }
        }
    }
}

// ---------------------------------------------------------------------------
// Lists
// ---------------------------------------------------------------------------
/// Going down a list of modes, or of targets, marks the line below the marked one, and the
/// first below the last; going up the line above, and the last above the first. Nothing is
/// changed by it.
pub proof fn law_lists_are_gone_through(
    app: AppView,
    step: StepView,
    action: TuiAction,
    modes: Seq<Seq<char>>,
    direction: SnapDirection,
    targets: Seq<usize>,
    cursor: usize,
    n: int,
)
    requires
        action is SelectNextMode || action is SelectPreviousMode,
        app.mode == (ModeView::ModeSelect { modes, cursor }) && n == modes.len() || app.mode == (
        ModeView::SnapTarget { direction, targets, cursor }) && n == targets.len(),
        cursor < n <= usize::MAX,
        steps::is_step(app, action, step),
    ensures
        ({
            let marked = (if action is SelectNextMode {
                if cursor < n - 1 {
                    cursor + 1
                } else {
                    0
                }
            } else {
                if cursor > 0 {
                    cursor - 1
                } else {
                    n - 1
                }
            }) as usize;
            &&& app.mode is ModeSelect ==> step.app.mode == (ModeView::ModeSelect {
                modes,
                cursor: marked,
            })
            &&& app.mode is SnapTarget ==> step.app.mode == (ModeView::SnapTarget {
                direction,
                targets,
                cursor: marked,
            })
            &&& step.app.draft == app.draft
            &&& step.app.dirty == app.dirty
        }),
{
    let i = cursor as int;
    if action is SelectNextMode && i == n - 1 {
        assert((i + 1) % n == 0) by (nonlinear_arith)
            requires
                i == n - 1,
                n >= 1,
        ;
    }
    if action is SelectPreviousMode && i == 0 {
        assert((0 - 1) % n == n - 1) by (nonlinear_arith)
            requires
                n >= 1,
        ;
    }
    if action is SelectNextMode && i < n - 1 {
        vstd::arithmetic::div_mod::lemma_small_mod((i + 1) as nat, n as nat);
    }
    if action is SelectPreviousMode && i > 0 {
        vstd::arithmetic::div_mod::lemma_small_mod((i - 1) as nat, n as nat);
    }
}

/// The target that is marked when the user agrees is the one that the selected output is
/// put to, on the side that was asked for.
pub proof fn law_marked_targets_are_snapped_to(
    app: AppView,
    step: StepView,
    direction: SnapDirection,
    targets: Seq<usize>,
    cursor: usize,
    i: usize,
)
    requires
        app.mode == (ModeView::SnapTarget { direction, targets, cursor }),
        cursor < targets.len(),
        app.selected_monitor == Some(i),
        steps::is_step(app, TuiAction::Submit, step) || steps::is_step(
            app,
            TuiAction::Confirm,
            step,
        ),
    ensures
        step.app.mode is Normal,
        geometry::snapped(
            app.draft.outputs,
            app.monitors,
            i as int,
            targets[cursor as int] as int,
            direction,
        ) matches Some(outputs) ==> step.app.draft.outputs == outputs && step.app.dirty,
{
}

/// Where an output can be put at the side of one other alone it is; where there are more,
/// the editor offers them, the first marked; where there is none, nothing changes.
pub proof fn law_targets_are_offered(
    app: AppView,
    step: StepView,
    direction: SnapDirection,
    i: int,
)
    requires
        editing_laws::ready_to_edit(app, i),
        app.draft.outputs.len() <= usize::MAX,
        steps::is_step(app, TuiAction::SnapSelected(direction), step),
    ensures
        ({
            let targets = steps::snap_targets(
                app.draft.outputs,
                i,
                app.draft.outputs.len() as int,
            );
            &&& targets.len() == 0 ==> step.app.draft == app.draft && step.app.mode is Normal
            &&& targets.len() == 1 ==> step.app.mode is Normal && (geometry::snapped(
                app.draft.outputs,
                app.monitors,
                i,
                targets[0] as int,
                direction,
            ) matches Some(outputs) ==> step.app.draft.outputs == outputs)
            &&& targets.len() > 1 ==> step.app.draft == app.draft && step.app.mode == (
            ModeView::SnapTarget { direction, targets, cursor: 0 })
        }),
{
}

proof fn lemma_mode_position(modes: Seq<Seq<char>>, mode: Seq<char>)
    ensures
        ({
            let at = steps::mode_position(modes, mode);
            &&& at >= 0 ==> at < modes.len() && steps::plain_mode(modes[at]) == mode
            &&& at < 0 ==> forall|i: int|
                0 <= i < modes.len() ==> steps::plain_mode(#[trigger] modes[i]) != mode
        }),
    decreases modes.len(),
{
    if modes.len() > 0 && steps::plain_mode(modes[0]) != mode {
        let rest = modes.drop_first();
        lemma_mode_position(rest, mode);
        if steps::mode_position(rest, mode) < 0 {
            assert forall|i: int| 0 <= i < modes.len() implies steps::plain_mode(
                #[trigger] modes[i],
            ) != mode by {
                if i > 0 {
                    assert(rest[i - 1] == modes[i]);
                }
            }
        }
    }
}

/// The modes that are offered for an output are those of a connected monitor that what is
/// remembered of it fits; the one that the output has is marked, where it is among them,
/// and the first where it is not.
pub proof fn law_modes_of_the_monitor_are_offered(
    app: AppView,
    step: StepView,
    modes: Seq<Seq<char>>,
    cursor: usize,
    i: int,
)
    requires
        editing_laws::ready_to_edit(app, i),
        steps::is_step(app, TuiAction::CycleSelectedMode, step),
        step.app.mode == (ModeView::ModeSelect { modes, cursor }),
        modes.len() <= usize::MAX,
    ensures
        step.app.draft == app.draft,
        cursor < modes.len(),
        exists|j: int|
            0 <= j < app.monitors.len() && (#[trigger] app.monitors[j]).available_modes == modes,
        (exists|k: int|
            0 <= k < modes.len() && steps::plain_mode(#[trigger] modes[k])
                == app.draft.outputs[i].mode) ==> steps::plain_mode(modes[cursor as int])
            == app.draft.outputs[i].mode,
        (forall|k: int|
            0 <= k < modes.len() ==> steps::plain_mode(#[trigger] modes[k])
                != app.draft.outputs[i].mode) ==> cursor == 0,
{
    let found = choose|found: Option<ResolvedView>| #[trigger]
        steps::is_partner(found, app, i) && step == steps::done(
            steps::modes_offered(
                app,
                steps::modes_of(app, found),
                app.draft.outputs[i].mode,
            ),
        );
    lemma_mode_position(modes, app.draft.outputs[i].mode);
    assert(app.monitors[found->0.current_index].available_modes == modes);
}

// ---------------------------------------------------------------------------
// Changes
// ---------------------------------------------------------------------------
/// Once a profile was renamed or copied, the profile with the new name is edited; once one
/// was deleted, the first of those left is, or the layout as it is where none is left.
pub proof fn law_changed_profiles_are_edited(
    app: AppView,
    change: ChangeView,
    profiles: Seq<ProfileView>,
    name: Seq<char>,
)
    requires
        profiles.len() <= usize::MAX,
    ensures
        ({
            let (end, result) = steps::change_ended(app, change, Ok(profiles));
            let there = exists|i: int|
                0 <= i < profiles.len() && (#[trigger] profiles[i]).name == name;
            let edits_it = end.draft.name == name && profiles.contains(end.draft) && !end.dirty;
            &&& end.store == profiles
            &&& (change matches ChangeView::Rename { new_name, .. } ==> new_name == name && there
                ==> result is Ok && edits_it)
            &&& (change matches ChangeView::Copy { destination, .. } ==> destination == name && there
                ==> result is Ok && edits_it)
            &&& change is Delete && profiles.len() > 0 ==> end.draft == profiles[0]
                && end.selected_profile == Some(0usize) && !end.dirty
            &&& change is Delete && profiles.len() == 0 ==> end.selected_profile is None
                && end.draft.outputs.len() == app.monitors.len()
        }),
{
    store::lemma_position_of(profiles, name);
    if let Some(i) = store::position_of(profiles, name) {
        assert(profiles.contains(profiles[i]));
    }
}

} // verus!
