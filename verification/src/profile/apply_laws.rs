//! What holds of every application of a plan, whatever the compositor and the
//! user answer.
use vstd::prelude::*;

use crate::error;
use crate::error::Refusal;
use crate::profile::apply;
use crate::profile::apply::{
    ActionView, ApplyConfirmation, ApplyWait, EventView, GoalView, Handback, MonitorController,
    OutcomeView, Parties, StageView,
};
use crate::profile::plan;
use crate::profile::plan::PlanView;

verus! {

/// What was done at step `i`.
pub open spec fn done_at(
    plan: PlanView,
    attended: bool,
    events: Seq<EventView>,
    i: int,
) -> ActionView {
    apply::action_at(
        plan,
        apply::course(plan, attended, apply::first_stage(plan, attended), events.take(i)),
    )
}

/// The application of `plan` took the course of `events`.
pub open spec fn took(plan: PlanView, attended: bool, events: Seq<EventView>) -> bool {
    apply::in_turn(plan, attended, apply::first_stage(plan, attended), events)
}

/// Where the application of `plan` stands after `events`.
pub open spec fn stands(plan: PlanView, attended: bool, events: Seq<EventView>) -> StageView {
    apply::course(plan, attended, apply::first_stage(plan, attended), events)
}

/// `action` was done at some step.
pub open spec fn did(
    plan: PlanView,
    attended: bool,
    events: Seq<EventView>,
    action: ActionView,
) -> bool {
    exists|i: int| 0 <= i < events.len() && #[trigger] done_at(plan, attended, events, i) == action
}

proof fn lemma_took_front(plan: PlanView, attended: bool, events: Seq<EventView>)
    requires
        took(plan, attended, events),
        events.len() > 0,
    ensures
        took(plan, attended, events.drop_last()),
        stands(plan, attended, events) == apply::next_stage(
            plan,
            attended,
            stands(plan, attended, events.drop_last()),
            events.last(),
        ),
        apply::answers(
            apply::action_at(plan, stands(plan, attended, events.drop_last())),
            events.last(),
        ),
        forall|action: ActionView|
            did(plan, attended, events.drop_last(), action) ==> #[trigger] did(
                plan,
                attended,
                events,
                action,
            ),
        forall|action: ActionView|
            #[trigger] did(plan, attended, events, action) ==> did(
                plan,
                attended,
                events.drop_last(),
                action,
            ) || action == apply::action_at(plan, stands(plan, attended, events.drop_last())),
        did(
            plan,
            attended,
            events,
            apply::action_at(plan, stands(plan, attended, events.drop_last())),
        ),
{
    let front = events.drop_last();
    let start = apply::first_stage(plan, attended);
    assert forall|i: int| 0 <= i < front.len() implies apply::answers(
        apply::action_at(plan, apply::course(plan, attended, start, #[trigger] front.take(i))),
        front[i],
    ) by {
        assert(events.take(i) =~= front.take(i));
        assert(apply::answers(
            apply::action_at(plan, apply::course(plan, attended, start, events.take(i))),
            events[i],
        ));
    }
    let last = events.len() - 1;
    assert(events.take(last) =~= front);
    assert(apply::answers(
        apply::action_at(plan, apply::course(plan, attended, start, events.take(last))),
        events[last],
    ));
    assert forall|action: ActionView| did(plan, attended, front, action) implies #[trigger] did(
        plan,
        attended,
        events,
        action,
    ) by {
        let i = choose|i: int|
            0 <= i < front.len() && #[trigger] done_at(plan, attended, front, i) == action;
        assert(events.take(i) =~= front.take(i));
        assert(done_at(plan, attended, events, i) == action);
    }
    assert forall|action: ActionView| #[trigger] did(plan, attended, events, action) implies did(
        plan,
        attended,
        front,
        action,
    ) || action == apply::action_at(plan, stands(plan, attended, front)) by {
        let i = choose|i: int|
            0 <= i < events.len() && #[trigger] done_at(plan, attended, events, i) == action;
        if i < last {
            assert(events.take(i) =~= front.take(i));
            assert(done_at(plan, attended, front, i) == action);
        }
    }
    assert(done_at(plan, attended, events, last) == apply::action_at(
        plan,
        stands(plan, attended, front),
    ));
}

/// What has been done, by where the application stands.
spec fn accounted(plan: PlanView, attended: bool, events: Seq<EventView>) -> bool {
    let applied = did(plan, attended, events, ActionView::ApplyBatch(plan.batch));
    let restored = did(plan, attended, events, ActionView::RollbackBatch(plan.rollback_batch));
    match stands(plan, attended, events) {
        StageView::Preparing => !applied && !restored,
        StageView::Applying => !applied && !restored,
        StageView::Checking(goal, _) | StageView::Pausing(goal, _) => applied && (goal is Restored
            <==> restored),
        StageView::Confirming => applied && !restored,
        StageView::Restoring(_) => applied && !restored,
        StageView::Finished(result) => match result {
            Ok(OutcomeView::Noop) => !applied && !restored,
            Ok(OutcomeView::Confirmed) => applied && !restored,
            Ok(OutcomeView::Unattended) => applied && !restored,
            Ok(OutcomeView::RolledBack { .. }) => applied && restored,
            Err(_) => applied <==> restored,
        },
    }
}

proof fn lemma_accounted(plan: PlanView, attended: bool, events: Seq<EventView>)
    requires
        took(plan, attended, events),
    ensures
        accounted(plan, attended, events),
    decreases events.len(),
{
    if events.len() > 0 {
        lemma_took_front(plan, attended, events);
        lemma_accounted(plan, attended, events.drop_last());
    }
}

/// Once the commands of a plan have been run, the application ends with the
/// layout kept, or the commands that go back have been run too: whatever fails,
/// the way back is taken. Where the layout is kept, it is not.
pub proof fn law_every_failure_is_rolled_back(
    plan: PlanView,
    attended: bool,
    events: Seq<EventView>,
)
    requires
        took(plan, attended, events),
        stands(plan, attended, events) is Finished,
    ensures
        ({
            let result = stands(plan, attended, events)->Finished_0;
            let kept = result == Ok::<_, Refusal>(OutcomeView::Confirmed) || result == Ok::<
                _,
                Refusal,
            >(OutcomeView::Unattended);
            let applied = did(plan, attended, events, ActionView::ApplyBatch(plan.batch));
            let restored = did(
                plan,
                attended,
                events,
                ActionView::RollbackBatch(plan.rollback_batch),
            );
            &&& kept ==> applied && !restored
            &&& applied && !kept ==> restored
            &&& restored ==> applied
        }),
{
    lemma_accounted(plan, attended, events);
}

/// A layout counts as kept only when the last look at the monitors found what the
/// plan expects, and as rolled back only when the last look found what its way
/// back expects.
pub proof fn law_outcomes_are_verified(plan: PlanView, attended: bool, events: Seq<EventView>)
    requires
        took(plan, attended, events),
        stands(plan, attended, events) matches StageView::Finished(Ok(outcome)) && outcome
            !is Noop,
    ensures
        ({
            let outcome = stands(plan, attended, events)->Finished_0->Ok_0;
            &&& events.len() > 0
            &&& events.last() matches EventView::Monitors(Ok(monitors)) && plan::layout_mismatch(
                if outcome is RolledBack {
                    plan.rollback_expected
                } else {
                    plan.expected
                },
                monitors,
            ) is None
        }),
{
    if events.len() > 0 {
        lemma_took_front(plan, attended, events);
    }
}

/// A plan that changes nothing, and one that would leave every output dark, is
/// ended before anything is done.
pub proof fn law_nothing_is_done_in_vain(plan: PlanView, attended: bool, events: Seq<EventView>)
    requires
        took(plan, attended, events),
        plan.is_noop || plan::unsafe_reason(plan) is Some,
    ensures
        events.len() == 0,
        stands(plan, attended, events) == StageView::Finished(
            match plan::unsafe_reason(plan) {
                Some(reason) => Err(error::plainly_told(reason)),
                None => Ok(OutcomeView::Noop),
            },
        ),
    decreases events.len(),
{
    if events.len() > 0 {
        lemma_took_front(plan, attended, events);
        law_nothing_is_done_in_vain(plan, attended, events.drop_last());
    }
}

/// The controller was handed `batch` to apply.
pub open spec fn was_applied<C: MonitorController>(
    batch: Seq<char>,
    back: spec_fn(&mut C) -> C,
) -> bool {
    exists|before: C, reply: EventView, after: C| #[trigger]
        apply::applied_batch(before, batch, reply, after, back)
}

/// The controller was handed `batch` to go back.
pub open spec fn was_taken_back<C: MonitorController>(
    batch: Seq<char>,
    back: spec_fn(&mut C) -> C,
) -> bool {
    exists|before: C, reply: EventView, after: C| #[trigger]
        apply::rolled_back_batch(before, batch, reply, after, back)
}

/// An application that was carried out and ended with the layout kept handed the
/// controller the commands of the plan; one that ended with the layout rolled
/// back handed it those, and the commands that go back.
pub proof fn law_outcomes_come_of_commands<C: MonitorController, W: ApplyWait, F: ApplyConfirmation>(
    plan: PlanView,
    attended: bool,
    before: Parties<C, W, F>,
    after: Parties<C, W, F>,
    back: Handback<'_, C, W, F>,
    outcome: OutcomeView,
)
    requires
        apply::carried_out(
            plan,
            attended,
            apply::first_stage(plan, attended),
            before,
            after,
            back,
            Ok(outcome),
        ),
    ensures
        outcome !is Noop ==> was_applied(plan.batch, back.client),
        outcome is RolledBack ==> was_taken_back(plan.rollback_batch, back.client),
{
    let start = apply::first_stage(plan, attended);
    let (events, parties) = choose|events: Seq<EventView>, parties: Seq<Parties<C, W, F>>|
        #[trigger] apply::enacted(plan, attended, start, events, parties, back) && apply::in_turn(
            plan,
            attended,
            start,
            events,
        ) && apply::course(plan, attended, start, events) == StageView::Finished(Ok(outcome))
            && parties[0] == before && parties[events.len() as int] == after;
    lemma_accounted(plan, attended, events);
    if outcome !is Noop {
        let i = choose|i: int|
            0 <= i < events.len() && #[trigger] done_at(plan, attended, events, i)
                == ActionView::ApplyBatch(plan.batch);
        assert(apply::performed(
            parties[i],
            apply::action_at(plan, apply::course(plan, attended, start, events.take(i))),
            events[i],
            parties[i + 1],
            back,
        ));
    }
    if outcome is RolledBack {
        let i = choose|i: int|
            0 <= i < events.len() && #[trigger] done_at(plan, attended, events, i)
                == ActionView::RollbackBatch(plan.rollback_batch);
        assert(apply::performed(
            parties[i],
            apply::action_at(plan, apply::course(plan, attended, start, events.take(i))),
            events[i],
            parties[i + 1],
            back,
        ));
    }
}

/// A plan that changes nothing, or that is refused, leaves every party as it was.
pub proof fn law_nothing_is_touched_in_vain<C: MonitorController, W: ApplyWait, F: ApplyConfirmation>(
    plan: PlanView,
    attended: bool,
    before: Parties<C, W, F>,
    after: Parties<C, W, F>,
    back: Handback<'_, C, W, F>,
    result: Result<OutcomeView, Refusal>,
)
    requires
        apply::carried_out(
            plan,
            attended,
            apply::first_stage(plan, attended),
            before,
            after,
            back,
            result,
        ),
        plan.is_noop || plan::unsafe_reason(plan) is Some,
    ensures
        after == before,
{
    let start = apply::first_stage(plan, attended);
    let (events, parties) = choose|events: Seq<EventView>, parties: Seq<Parties<C, W, F>>|
        #[trigger] apply::enacted(plan, attended, start, events, parties, back) && apply::in_turn(
            plan,
            attended,
            start,
            events,
        ) && apply::course(plan, attended, start, events) == StageView::Finished(result)
            && parties[0] == before && parties[events.len() as int] == after;
    law_nothing_is_done_in_vain(plan, attended, events);
}

/// Where the stage lets an unattended application stand.
spec fn unasked(stage: StageView) -> bool {
    match stage {
        StageView::Preparing => false,
        StageView::Confirming => false,
        StageView::Checking(goal, _) | StageView::Pausing(goal, _) => goal !is Kept && (goal
            matches GoalView::Restored(cause) ==> cause is ApplyFailed),
        StageView::Restoring(cause) => cause is ApplyFailed,
        StageView::Finished(result) => result matches Ok(outcome) ==> outcome is Noop
            || outcome is Unattended,
        StageView::Applying => true,
    }
}

proof fn lemma_unasked(plan: PlanView, events: Seq<EventView>)
    requires
        took(plan, false, events),
    ensures
        unasked(stands(plan, false, events)),
    decreases events.len(),
{
    if events.len() > 0 {
        lemma_took_front(plan, false, events);
        lemma_unasked(plan, events.drop_last());
    }
}

/// Where nobody is to be asked nobody is, and the layout ends up kept, left
/// alone, or refused with the reason.
pub proof fn law_unattended_asks_nobody(plan: PlanView, events: Seq<EventView>, i: int)
    requires
        took(plan, false, events),
    ensures
        0 <= i < events.len() ==> !(done_at(plan, false, events, i) is Confirm) && !(done_at(
            plan,
            false,
            events,
            i,
        ) is Prepare),
        stands(plan, false, events) matches StageView::Finished(Ok(outcome)) ==> outcome is Noop
            || outcome is Unattended,
    decreases events.len(),
{
    lemma_unasked(plan, events);
    if 0 <= i < events.len() {
        lemma_took_front(plan, false, events);
        if i == events.len() - 1 {
            lemma_unasked(plan, events.drop_last());
            assert(events.take(i) =~= events.drop_last());
        } else {
            law_unattended_asks_nobody(plan, events.drop_last(), i);
            assert(events.drop_last().take(i) =~= events.take(i));
        }
    }
}

/// An application with a user to ask ends with the layout confirmed, rolled
/// back, left alone, or refused with the reason: it is never kept unasked.
pub proof fn law_attended_keeps_only_what_is_confirmed(plan: PlanView, events: Seq<EventView>)
    requires
        took(plan, true, events),
        stands(plan, true, events) == StageView::Finished(Ok(OutcomeView::Confirmed)) || stands(
            plan,
            true,
            events,
        ) == StageView::Finished(Ok(OutcomeView::Unattended)),
    ensures
        stands(plan, true, events) == StageView::Finished(Ok(OutcomeView::Confirmed)),
        exists|i: int|
            0 <= i < events.len() && #[trigger] events[i] == EventView::Answered(
                Ok(apply::ConfirmationResult::Confirmed),
            ),
{
    lemma_confirmed(plan, events);
}

/// Where the stage tells that the user has said yes.
spec fn shows_consent(stage: StageView) -> bool {
    match stage {
        StageView::Checking(goal, _) | StageView::Pausing(goal, _) => goal is Kept,
        StageView::Finished(result) => result == Ok::<_, Refusal>(OutcomeView::Confirmed),
        _ => false,
    }
}

proof fn lemma_confirmed(plan: PlanView, events: Seq<EventView>)
    requires
        took(plan, true, events),
    ensures
        shows_consent(stands(plan, true, events)) ==> exists|i: int|
            0 <= i < events.len() && #[trigger] events[i] == EventView::Answered(
                Ok(apply::ConfirmationResult::Confirmed),
            ),
        stands(plan, true, events) != StageView::Finished(Ok(OutcomeView::Unattended)),
    decreases events.len(),
{
    if events.len() > 0 {
        let front = events.drop_last();
        lemma_took_front(plan, true, events);
        lemma_confirmed(plan, front);
        if shows_consent(stands(plan, true, events)) {
            if shows_consent(stands(plan, true, front)) {
                let i = choose|i: int|
                    0 <= i < front.len() && #[trigger] front[i] == EventView::Answered(
                        Ok(apply::ConfirmationResult::Confirmed),
                    );
                assert(events[i] == front[i]);
            } else {
                assert(events[events.len() - 1] == EventView::Answered(
                    Ok(apply::ConfirmationResult::Confirmed),
                ));
            }
        }
    }
}

} // verus!
