//! How an application runs its course.
use vstd::prelude::*;

use crate::error::Refusal;
use crate::hyprland::monitor::MonitorView;
use crate::profile::apply;
use crate::profile::apply::{
    ActionView, CauseView, ConfirmationResult, ConfirmationStep, EventView, GoalView, OutcomeView,
    ProbeView, StageView,
};
use crate::profile::matching;
use crate::profile::matching::DecisionView;
use crate::profile::plan;
use crate::profile::plan::PlanView;
use crate::profile::store::ProfileView;
use crate::profile::transaction;
use crate::profile::transaction::{
    ApplyTransactionRequest, SelectionView,
};

verus! {

// ---------------------------------------------------------------------------
// Looking
// ---------------------------------------------------------------------------
/// So many milliseconds were waited between the first look and the one after `n` pauses.
pub open spec fn waited_for(n: int) -> int
    decreases n,
{
    if n <= 0 {
        0
    } else {
        waited_for(n - 1) + pause(n - 1)
    }
}

/// The pause number `n`.
pub open spec fn pause(n: int) -> int {
    if n == 0 {
        50
    } else if n == 1 {
        100
    } else if n == 2 {
        200
    } else if n == 3 {
        400
    } else {
        500
    }
}

/// Where the application stands after `n` looks that all failed and the pauses between
/// them.
pub open spec fn after_looks(
    plan: PlanView,
    attended: bool,
    goal: GoalView,
    replies: Seq<Result<Seq<MonitorView>, Seq<char>>>,
    n: int,
) -> StageView
    decreases n,
{
    if n <= 0 {
        StageView::Checking(goal, apply::fresh_probe())
    } else {
        apply::next_stage(
            plan,
            attended,
            apply::next_stage(
                plan,
                attended,
                after_looks(plan, attended, goal, replies, n - 1),
                EventView::Monitors(replies[n - 1]),
            ),
            EventView::Waited,
        )
    }
}

/// A layout that does not come about is looked at nine times, with pauses of 50, 100, 200,
/// 400 and then 500 milliseconds between the looks, and counts as missed after the
/// ninth, which is less than three seconds after the first.
pub proof fn law_layouts_have_three_seconds(
    plan: PlanView,
    attended: bool,
    goal: GoalView,
    replies: Seq<Result<Seq<MonitorView>, Seq<char>>>,
    n: int,
)
    requires
        0 <= n <= 8,
        replies.len() == 9,
        forall|i: int|
            0 <= i < 9 ==> (#[trigger] replies[i] matches Ok(monitors) ==> plan::layout_mismatch(
                apply::goal_layout(plan, goal),
                monitors,
            ) is Some),
    ensures
        after_looks(plan, attended, goal, replies, n) matches StageView::Checking(sought, probe)
            && sought == goal && probe.attempts == n && probe.delay == pause(n),
        n < 8 ==> (apply::next_stage(
            plan,
            attended,
            after_looks(plan, attended, goal, replies, n),
            EventView::Monitors(replies[n]),
        ) matches StageView::Pausing(sought, probe) && apply::action_at(
            plan,
            StageView::Pausing(sought, probe),
        ) == ActionView::Wait(pause(n))),
        n == 8 ==> {
            let end = apply::next_stage(
                plan,
                attended,
                after_looks(plan, attended, goal, replies, n),
                EventView::Monitors(replies[n]),
            );
            end is Restoring || end is Finished
        },
        waited_for(8) == 2750,
    decreases n,
{
    reveal_with_fuel(waited_for, 10);
    assert(replies[n] matches Ok(monitors) ==> plan::layout_mismatch(
        apply::goal_layout(plan, goal),
        monitors,
    ) is Some);
    if n > 0 {
        law_layouts_have_three_seconds(plan, attended, goal, replies, n - 1);
        assert(replies[n - 1] matches Ok(monitors) ==> plan::layout_mismatch(
            apply::goal_layout(plan, goal),
            monitors,
        ) is Some);
    }
}

/// A look that finds the layout that is sought ends the looking at once.
pub proof fn law_found_layouts_end_the_looking(
    plan: PlanView,
    attended: bool,
    goal: GoalView,
    probe: ProbeView,
    monitors: Seq<MonitorView>,
)
    requires
        plan::layout_mismatch(
            if goal is Restored {
                plan.rollback_expected
            } else {
                plan.expected
            },
            monitors,
        ) is None,
    ensures
        ({
            let next = apply::next_stage(
                plan,
                attended,
                StageView::Checking(goal, probe),
                EventView::Monitors(Ok(monitors)),
            );
            &&& goal is Applied && attended ==> next is Confirming
            &&& goal is Applied && !attended ==> next == StageView::Finished(
                Ok(OutcomeView::Unattended),
            )
            &&& goal is Kept ==> next == StageView::Finished(Ok(OutcomeView::Confirmed))
            &&& goal is Restored ==> next is Finished
        }),
{
}

// ---------------------------------------------------------------------------
// Asking
// ---------------------------------------------------------------------------
/// The user has fifteen seconds to confirm the profile that was applied, by its name.
pub proof fn law_users_have_fifteen_seconds(plan: PlanView)
    ensures
        apply::action_at(plan, StageView::Confirming) == ActionView::Confirm(
            plan.profile_name,
            15_000,
        ),
{
}

/// An answer other than a confirmation leads back, whatever it is; so does a failure to
/// read one. A confirmation leads to one more look at the layout that is to be kept.
pub proof fn law_anything_but_yes_leads_back(
    plan: PlanView,
    attended: bool,
    answer: Result<ConfirmationResult, Seq<char>>,
)
    ensures
        ({
            let next = apply::next_stage(
                plan,
                attended,
                StageView::Confirming,
                EventView::Answered(answer),
            );
            &&& answer == Ok::<_, Seq<char>>(ConfirmationResult::Confirmed) ==> next
                == StageView::Checking(GoalView::Kept, apply::fresh_probe())
            &&& answer != Ok::<_, Seq<char>>(ConfirmationResult::Confirmed) ==> next is Restoring
                && apply::action_at(plan, next) == ActionView::RollbackBatch(plan.rollback_batch)
        }),
{
}

/// A small `y` confirms, and no other key does.
pub proof fn law_only_a_small_y_confirms(key: Option<char>, result: ConfirmationResult)
    requires
        call_ensures(apply::confirmation_for, (key,), result),
    ensures
        result is Confirmed <==> key == Some('y'),
        result is Rejected <==> key != Some('y'),
{
}

/// The seconds that are shown are enough for the time that is left, and one less would
/// not be.
pub proof fn law_countdown_rounds_up(remaining: u64, seconds: u64)
    requires
        call_ensures(apply::countdown_seconds, (remaining,), seconds),
    ensures
        seconds * 1_000_000_000 >= remaining,
        seconds > 0 ==> (seconds - 1) * 1_000_000_000 < remaining,
{
}

/// While time is left a key is awaited for no longer than that, nor for longer than a
/// second, and the question is put again exactly where the seconds have changed; once no
/// time is left the user was too late.
pub proof fn law_questions_follow_the_clock(
    remaining: Option<u64>,
    shown: Option<u64>,
    step: ConfirmationStep,
)
    requires
        call_ensures(apply::confirmation_step, (remaining, shown), step),
    ensures
        step is TimedOut <==> remaining is None,
        remaining matches Some(left) ==> {
            &&& step matches ConfirmationStep::Await { show, patience }
            &&& patience <= left && patience <= 1_000_000_000
            &&& patience == left || patience == 1_000_000_000
            &&& show matches Some(seconds) ==> show != shown && seconds * 1_000_000_000 >= left && (
            seconds > 0 ==> (seconds - 1) * 1_000_000_000 < left)
            &&& show is None ==> (shown matches Some(seconds) && seconds * 1_000_000_000 >= left
                && (seconds > 0 ==> (seconds - 1) * 1_000_000_000 < left))
        },
{
}

// ---------------------------------------------------------------------------
// The end
// ---------------------------------------------------------------------------
/// A way back that succeeded after the user did not confirm ends as rolled back, for that
/// reason. One that failed, or that was taken because applying or asking failed, ends in an
/// error.
pub proof fn law_ways_back_end_as_they_went(
    plan: PlanView,
    cause: CauseView,
    failure: Option<Seq<char>>,
)
    ensures
        apply::concluded(plan, cause, failure) is Ok <==> cause is Unconfirmed && failure is None,
        apply::concluded(plan, cause, failure) matches Ok(outcome) ==> (outcome
            matches OutcomeView::RolledBack { reason } && cause == CauseView::Unconfirmed(reason)),
{
}

/// Where the user cannot be asked, nothing is applied; where the commands are refused,
/// those that go back are run.
pub proof fn law_refused_commands_lead_back(
    plan: PlanView,
    attended: bool,
    reason: Refusal,
)
    ensures
        apply::next_stage(plan, attended, StageView::Preparing, EventView::Done(Err(reason)))
            == StageView::Finished(Err(reason)),
        ({
            let next = apply::next_stage(
                plan,
                attended,
                StageView::Applying,
                EventView::Done(Err(reason)),
            );
            apply::action_at(plan, next) == ActionView::RollbackBatch(plan.rollback_batch)
        }),
{
}

/// A layout that was kept and is gone at the end is rolled back; one that was rolled back
/// and is gone is an error; and a layout that is as it should be is left alone.
pub proof fn law_layouts_are_looked_at_once_more(
    plan: PlanView,
    outcome: OutcomeView,
    monitors: Seq<MonitorView>,
)
    ensures
        ({
            let kept = outcome is Confirmed || outcome is Unattended;
            let check = transaction::final_check(plan, outcome, monitors);
            &&& outcome is Noop ==> check is Settled
            &&& kept ==> (check is Settled <==> plan::layout_mismatch(plan.expected, monitors)
                is None)
            &&& kept ==> (check is RollBack <==> plan::layout_mismatch(plan.expected, monitors)
                is Some)
            &&& outcome is RolledBack ==> (check is Settled <==> plan::layout_mismatch(
                plan.rollback_expected,
                monitors,
            ) is None)
            &&& outcome is RolledBack ==> (check is Refuse <==> plan::layout_mismatch(
                plan.rollback_expected,
                monitors,
            ) is Some)
        }),
{
}

/// What is reported as applied was confirmed or is unattended, and what is reported as
/// rolled back was.
pub proof fn law_executions_are_told_as_they_were(outcome: OutcomeView)
    ensures
        transaction::execution_for(outcome) is Applied <==> outcome is Confirmed || outcome
            is Unattended,
        transaction::execution_for(outcome) is RolledBack <==> outcome is RolledBack,
        transaction::execution_for(outcome) is Noop <==> outcome is Noop,
{
}

// ---------------------------------------------------------------------------
// The choice
// ---------------------------------------------------------------------------
/// A profile that was asked for by name is the one that has it, and none where no profile
/// does; a draft is itself.
pub proof fn law_requests_get_what_they_name(
    result: Result<SelectionView, Seq<char>>,
    request: ApplyTransactionRequest,
    profiles: Seq<ProfileView>,
    current: Seq<MonitorView>,
)
    requires
        transaction::is_selection(result, request, profiles, current),
    ensures
        request matches ApplyTransactionRequest::Named(name) ==> match result {
            Ok(SelectionView::Chosen { profile, decision }) => profile.name == name@
                && profiles.contains(profile) && decision is None,
            Ok(_) => false,
            Err(_) => forall|i: int|
                0 <= i < profiles.len() ==> (#[trigger] profiles[i]).name != name@,
        },
        request matches ApplyTransactionRequest::Draft(profile) ==> result == Ok::<_, Seq<char>>(
            SelectionView::Chosen { profile: profile@, decision: None },
        ),
        request is Automatic ==> match result {
            Ok(SelectionView::Chosen { profile, decision }) => profiles.contains(profile)
                && (decision matches Some(DecisionView::Apply { profile_name, .. }) && profile_name
                == profile.name),
            Ok(SelectionView::NoAutomaticMatch { decision }) => decision.profile_name() is None,
            Err(_) => true,
        },
{
    if let ApplyTransactionRequest::Named(name) = request {
        crate::profile::store::lemma_position_of(profiles, name@);
    }
    if let ApplyTransactionRequest::Automatic { fallback_profile } = request {
        if let Ok(SelectionView::Chosen { profile, decision }) = result {
            let matches = choose|matches: Seq<matching::ProfileMatchView>| #[trigger]
                matching::are_matches(matches, profiles, current) && result
                    == transaction::selection_by(
                    profiles,
                    matching::decision(
                        profiles,
                        matching::best_of(crate::sort::sorted::<matching::ProfileMatch>(matches)),
                        match fallback_profile {
                            Some(name) => Some(name@),
                            None => None,
                        },
                    ),
                );
            let decided = matching::decision(
                profiles,
                matching::best_of(crate::sort::sorted::<matching::ProfileMatch>(matches)),
                match fallback_profile {
                    Some(name) => Some(name@),
                    None => None,
                },
            );
            crate::profile::store::lemma_position_of(profiles, decided.profile_name()->0);
        }
    }
}

/// A profile that the program chose is matched without regard to connectors, one that
/// the user chose with it.
pub proof fn law_choice_decides_how_monitors_are_matched()
    ensures
        transaction::mode_of(true) is Automatic,
        transaction::mode_of(false) is Explicit,
{
}

} // verus!
