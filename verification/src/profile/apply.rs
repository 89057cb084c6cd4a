//! Carrying out a plan: apply, check, ask, and go back where anything fails.
use vstd::prelude::*;

use crate::error;
use crate::error::{Error, Refusal};
use crate::hyprland::monitor;
use crate::hyprland::monitor::{MonitorState, MonitorView};
use crate::profile::plan;
pub use crate::profile::plan::{
    ensure_plan_safe_to_apply, plan_apply, plan_apply_automatic, replan_apply, ApplyPlan,
    ApplyWarning,
};
use crate::profile::plan::{verify_expected_state, ExpectedView, PlanView};
pub use crate::profile::transaction::{
    ApplyExecution, ApplyTransactionRequest, ApplyTransactionResult,
};
use crate::text;

verus! {

/// How long the user may take to confirm, in milliseconds.
pub const CONFIRMATION_TIMEOUT: u64 = 15_000;

/// How often the monitors are looked at before a layout counts as failed.
pub const VERIFY_ATTEMPTS: u32 = 9;

/// The first pause between two looks, in milliseconds.
pub const VERIFY_INITIAL_DELAY: u64 = 50;

/// The longest pause between two looks, in milliseconds.
pub const VERIFY_MAX_DELAY: u64 = 500;

/// What the user said.
#[derive(Debug, Clone, Copy, PartialEq, Eq, Structural)]
pub enum ConfirmationResult {
    Confirmed,
    TimedOut,
    Rejected,
    EndOfInput,
}

/// What the key `key` says, `None` standing for a key without a character.
pub fn confirmation_for(key: Option<char>) -> (result: ConfirmationResult)
    ensures
        result == (if key == Some('y') {
            ConfirmationResult::Confirmed
        } else {
            ConfirmationResult::Rejected
        }),
{
    match key {
        Some(c) => if c == 'y' {
            ConfirmationResult::Confirmed
        } else {
            ConfirmationResult::Rejected
        },
        None => ConfirmationResult::Rejected,
    }
}

/// A second, in nanoseconds.
pub const SECOND: u64 = 1_000_000_000;

/// The seconds that are shown of `remaining` nanoseconds: a second that has
/// begun counts.
pub fn countdown_seconds(remaining: u64) -> (result: u64)
    ensures
        result == (remaining + SECOND - 1) / SECOND as int,
{
    let whole: u64 = remaining / SECOND;
    if remaining % SECOND > 0 {
        whole + 1
    } else {
        whole
    }
}

/// What is done next while an answer is awaited.
#[derive(Debug, Clone, Copy, PartialEq, Eq, Structural)]
pub enum ConfirmationStep {
    /// No answer came in time.
    TimedOut,
    /// The question is put with so many seconds left, where it is to be put again,
    /// and a key is awaited for so many nanoseconds.
    Await { show: Option<u64>, patience: u64 },
}

/// What is done next while an answer is awaited: `remaining` nanoseconds are left,
/// `None` standing for a time that is over, and the question was last put with
/// `shown` seconds left.
pub fn confirmation_step(remaining: Option<u64>, shown: Option<u64>) -> (result: ConfirmationStep)
    ensures
        match remaining {
            None => result == ConfirmationStep::TimedOut,
            Some(left) => {
                let seconds = (left + SECOND - 1) / SECOND as int;
                &&& result matches ConfirmationStep::Await { show, patience }
                &&& show == if shown == Some(seconds as u64) {
                    None
                } else {
                    Some(seconds as u64)
                }
                &&& patience == if left <= SECOND {
                    left
                } else {
                    SECOND
                }
            },
        },
{
    match remaining {
        None => ConfirmationStep::TimedOut,
        Some(left) => {
            let seconds: u64 = countdown_seconds(left);
            let patience: u64 = if left <= SECOND {
                left
            } else {
                SECOND
            };
            match shown {
                Some(last) if last == seconds => ConfirmationStep::Await { show: None, patience },
                _ => ConfirmationStep::Await { show: Some(seconds), patience },
            }
        },
    }
}

/// The question with `seconds` left to answer it, the number two places wide.
pub open spec fn countdown_text(profile_name: Seq<char>, seconds: int) -> Seq<char> {
    "\rKeep profile `"@ + profile_name + "`? Press `y` to confirm ("@ + (if seconds < 10 {
        " "@
    } else {
        ""@
    }) + text::int_text(seconds) + "s remaining): "@
}

/// The question with `seconds` left to answer it.
pub fn countdown_prompt(profile_name: &str, seconds: u64) -> (result: String)
    ensures
        result@ == countdown_text(profile_name@, seconds as int),
{
    let padding: &str = if seconds < 10 {
        " "
    } else {
        ""
    };
    "\rKeep profile `".to_owned().concat(profile_name).concat(
        "`? Press `y` to confirm (",
    ).concat(padding).concat(text::decimal(seconds as i128).as_str()).concat("s remaining): ")
}

impl ConfirmationResult {
    /// Why the layout is not kept.
    pub open spec fn reason(self) -> Option<Seq<char>> {
        match self {
            ConfirmationResult::Confirmed => None,
            ConfirmationResult::TimedOut => Some("confirmation timed out"@),
            ConfirmationResult::Rejected => Some("a key other than `y` was pressed"@),
            ConfirmationResult::EndOfInput => Some("confirmation input closed"@),
        }
    }

    /// Why the layout is not kept.
    pub fn rollback_reason(self) -> (result: Option<&'static str>)
        ensures
            match result {
                Some(reason) => self.reason() == Some(reason@),
                None => self.reason() is None,
            },
    {
        match self {
            ConfirmationResult::Confirmed => None,
            ConfirmationResult::TimedOut => Some("confirmation timed out"),
            ConfirmationResult::Rejected => Some("a key other than `y` was pressed"),
            ConfirmationResult::EndOfInput => Some("confirmation input closed"),
        }
    }
}

/// What became of a plan.
#[derive(Debug, PartialEq, Eq)]
pub enum ApplyOutcome {
    Noop,
    Confirmed,
    Unattended,
    RolledBack { reason: String },
}

/// What an [`ApplyOutcome`] holds.
pub enum OutcomeView {
    Noop,
    Confirmed,
    Unattended,
    RolledBack { reason: Seq<char> },
}

impl View for ApplyOutcome {
    type V = OutcomeView;

    open spec fn view(&self) -> OutcomeView {
        match self {
            ApplyOutcome::Noop => OutcomeView::Noop,
            ApplyOutcome::Confirmed => OutcomeView::Confirmed,
            ApplyOutcome::Unattended => OutcomeView::Unattended,
            ApplyOutcome::RolledBack { reason } => OutcomeView::RolledBack { reason: reason@ },
        }
    }
}

// ---------------------------------------------------------------------------
// The course of an application
// ---------------------------------------------------------------------------
/// Why the way back is taken.
#[derive(Debug, PartialEq, Eq)]
pub enum Cause {
    /// The commands failed, or the layout did not come about.
    ApplyFailed(String),
    /// The layout was not confirmed.
    Unconfirmed(String),
    /// The user could not be asked.
    ConfirmationFailed(String),
}

/// What a [`Cause`] holds.
pub enum CauseView {
    ApplyFailed(Seq<char>),
    Unconfirmed(Seq<char>),
    ConfirmationFailed(Seq<char>),
}

impl View for Cause {
    type V = CauseView;

    open spec fn view(&self) -> CauseView {
        match self {
            Cause::ApplyFailed(reason) => CauseView::ApplyFailed(reason@),
            Cause::Unconfirmed(reason) => CauseView::Unconfirmed(reason@),
            Cause::ConfirmationFailed(reason) => CauseView::ConfirmationFailed(reason@),
        }
    }
}

/// What the monitors are looked at for.
#[derive(Debug, PartialEq, Eq)]
pub enum Goal {
    /// The new layout has come about.
    Applied,
    /// The new layout is still there once it was confirmed.
    Kept,
    /// The old layout is back.
    Restored(Cause),
}

/// What a [`Goal`] holds.
pub enum GoalView {
    Applied,
    Kept,
    Restored(CauseView),
}

impl View for Goal {
    type V = GoalView;

    open spec fn view(&self) -> GoalView {
        match self {
            Goal::Applied => GoalView::Applied,
            Goal::Kept => GoalView::Kept,
            Goal::Restored(cause) => GoalView::Restored(cause@),
        }
    }
}

/// How far looking at the monitors has come.
#[derive(Debug, PartialEq, Eq)]
pub struct Probe {
    pub attempts: u32,
    pub delay: u64,
    pub last_mismatch: String,
    pub saw_state_mismatch: bool,
}

/// What a [`Probe`] holds.
pub struct ProbeView {
    pub attempts: int,
    pub delay: int,
    pub last_mismatch: Seq<char>,
    pub saw_state_mismatch: bool,
}

impl View for Probe {
    type V = ProbeView;

    open spec fn view(&self) -> ProbeView {
        ProbeView {
            attempts: self.attempts as int,
            delay: self.delay as int,
            last_mismatch: self.last_mismatch@,
            saw_state_mismatch: self.saw_state_mismatch,
        }
    }
}

/// Where an application stands.
#[derive(Debug, PartialEq, Eq)]
pub enum Stage {
    Preparing,
    Applying,
    Checking(Goal, Probe),
    Pausing(Goal, Probe),
    Confirming,
    Restoring(Cause),
    Finished(Result<ApplyOutcome, Error>),
}

/// What a [`Stage`] holds.
pub enum StageView {
    Preparing,
    Applying,
    Checking(GoalView, ProbeView),
    Pausing(GoalView, ProbeView),
    Confirming,
    Restoring(CauseView),
    Finished(Result<OutcomeView, Refusal>),
}

impl View for Stage {
    type V = StageView;

    open spec fn view(&self) -> StageView {
        match self {
            Stage::Preparing => StageView::Preparing,
            Stage::Applying => StageView::Applying,
            Stage::Checking(goal, probe) => StageView::Checking(goal@, probe@),
            Stage::Pausing(goal, probe) => StageView::Pausing(goal@, probe@),
            Stage::Confirming => StageView::Confirming,
            Stage::Restoring(cause) => StageView::Restoring(cause@),
            Stage::Finished(result) => StageView::Finished(error::told(*result)),
        }
    }
}

/// What is to be done next.
#[derive(Debug, PartialEq, Eq)]
pub enum ApplyAction<'a> {
    Prepare,
    ApplyBatch(&'a str),
    RollbackBatch(&'a str),
    QueryMonitors,
    Wait(u64),
    Confirm(&'a str, u64),
    Nothing,
}

/// What an [`ApplyAction`] holds.
pub enum ActionView {
    Prepare,
    ApplyBatch(Seq<char>),
    RollbackBatch(Seq<char>),
    QueryMonitors,
    Wait(int),
    Confirm(Seq<char>, int),
    Nothing,
}

impl<'a> View for ApplyAction<'a> {
    type V = ActionView;

    open spec fn view(&self) -> ActionView {
        match self {
            ApplyAction::Prepare => ActionView::Prepare,
            ApplyAction::ApplyBatch(batch) => ActionView::ApplyBatch(batch@),
            ApplyAction::RollbackBatch(batch) => ActionView::RollbackBatch(batch@),
            ApplyAction::QueryMonitors => ActionView::QueryMonitors,
            ApplyAction::Wait(delay) => ActionView::Wait(*delay as int),
            ApplyAction::Confirm(name, timeout) => ActionView::Confirm(name@, *timeout as int),
            ApplyAction::Nothing => ActionView::Nothing,
        }
    }
}

/// What came of an action.
#[derive(Debug)]
pub enum ApplyEvent {
    Done(Result<(), Error>),
    Monitors(Result<Vec<MonitorState>, Error>),
    Waited,
    Answered(Result<ConfirmationResult, Error>),
}

/// What an [`ApplyEvent`] holds.
pub enum EventView {
    Done(Result<(), Refusal>),
    Monitors(Result<Seq<MonitorView>, Seq<char>>),
    Waited,
    Answered(Result<ConfirmationResult, Seq<char>>),
}

impl View for ApplyEvent {
    type V = EventView;

    open spec fn view(&self) -> EventView {
        match self {
            ApplyEvent::Done(result) => EventView::Done(
                match result {
                    Ok(()) => Ok(()),
                    Err(error) => Err(error.refusal()),
                },
            ),
            ApplyEvent::Monitors(result) => EventView::Monitors(
                match result {
                    Ok(monitors) => Ok(monitor::views(monitors@)),
                    Err(error) => Err(error@),
                },
            ),
            ApplyEvent::Waited => EventView::Waited,
            ApplyEvent::Answered(result) => EventView::Answered(
                match result {
                    Ok(answer) => Ok(*answer),
                    Err(error) => Err(error@),
                },
            ),
        }
    }
}

/// Looking at the monitors anew.
pub open spec fn fresh_probe() -> ProbeView {
    ProbeView {
        attempts: 0,
        delay: VERIFY_INITIAL_DELAY as int,
        last_mismatch: seq![],
        saw_state_mismatch: false,
    }
}

/// Where the application of `plan` begins. A plan that would leave every output
/// dark is refused, and one that changes nothing is done.
pub open spec fn first_stage(plan: PlanView, attended: bool) -> StageView {
    match plan::unsafe_reason(plan) {
        Some(reason) => StageView::Finished(Err(error::plainly_told(reason))),
        None => if plan.is_noop {
            StageView::Finished(Ok(OutcomeView::Noop))
        } else if attended {
            StageView::Preparing
        } else {
            StageView::Applying
        },
    }
}

/// What is to be done at `stage`.
pub open spec fn action_at(plan: PlanView, stage: StageView) -> ActionView {
    match stage {
        StageView::Preparing => ActionView::Prepare,
        StageView::Applying => ActionView::ApplyBatch(plan.batch),
        StageView::Checking(_, _) => ActionView::QueryMonitors,
        StageView::Pausing(_, probe) => ActionView::Wait(probe.delay),
        StageView::Confirming => ActionView::Confirm(
            plan.profile_name,
            CONFIRMATION_TIMEOUT as int,
        ),
        StageView::Restoring(_) => ActionView::RollbackBatch(plan.rollback_batch),
        StageView::Finished(_) => ActionView::Nothing,
    }
}

/// The layout that `goal` asks for.
pub open spec fn goal_layout(plan: PlanView, goal: GoalView) -> Seq<ExpectedView> {
    match goal {
        GoalView::Applied => plan.expected,
        GoalView::Kept => plan.expected,
        GoalView::Restored(_) => plan.rollback_expected,
    }
}

/// Where the way back ends: `failure` says why it failed, if it did.
pub open spec fn concluded(plan: PlanView, cause: CauseView, failure: Option<Seq<char>>) -> Result<
    OutcomeView,
    Refusal,
> {
    let profile = "profile `"@ + plan.profile_name + "`"@;
    match (cause, failure) {
        (CauseView::ApplyFailed(reason), None) => Err(
            error::told_within(
                "failed to apply "@ + profile + "; the previous monitor layout was restored"@,
                reason,
            ),
        ),
        (CauseView::ApplyFailed(reason), Some(failed)) => Err(
            error::told_within(
                "failed to apply "@ + profile + "; rollback also failed: "@ + failed,
                reason,
            ),
        ),
        (CauseView::Unconfirmed(reason), None) => Ok(OutcomeView::RolledBack { reason }),
        (CauseView::Unconfirmed(reason), Some(failed)) => Err(
            error::told_within(
                reason + "; failed to restore the previous monitor layout for "@ + profile,
                failed,
            ),
        ),
        (CauseView::ConfirmationFailed(reason), None) => Err(
            error::told_within(
                "confirmation failed; the previous monitor layout was restored"@,
                reason,
            ),
        ),
        (CauseView::ConfirmationFailed(reason), Some(failed)) => Err(
            error::told_within(
                "confirmation could not be read: "@ + reason
                    + "; failed to restore the previous monitor layout for "@ + profile,
                failed,
            ),
        ),
    }
}

/// Where the application goes once the monitors look as `goal` asks.
pub open spec fn goal_met(plan: PlanView, attended: bool, goal: GoalView) -> StageView {
    match goal {
        GoalView::Applied => if attended {
            StageView::Confirming
        } else {
            StageView::Finished(Ok(OutcomeView::Unattended))
        },
        GoalView::Kept => StageView::Finished(Ok(OutcomeView::Confirmed)),
        GoalView::Restored(cause) => StageView::Finished(concluded(plan, cause, None)),
    }
}

/// Where the application goes once the monitors were looked at for the last
/// time in vain.
pub open spec fn goal_missed(plan: PlanView, goal: GoalView, mismatch: Seq<char>) -> StageView {
    match goal {
        GoalView::Applied => StageView::Restoring(
            CauseView::ApplyFailed(
                error::within("monitor state did not converge after apply"@, mismatch),
            ),
        ),
        GoalView::Kept => StageView::Restoring(
            CauseView::Unconfirmed("monitor state drifted during confirmation: "@ + mismatch),
        ),
        GoalView::Restored(cause) => StageView::Finished(
            concluded(
                plan,
                cause,
                Some(error::within("rollback monitor state did not converge"@, mismatch)),
            ),
        ),
    }
}

/// What is known after one more look that failed. A layout that was seen tells
/// more than a look that failed.
pub open spec fn failed_look(
    plan: PlanView,
    goal: GoalView,
    probe: ProbeView,
    reply: Result<Seq<MonitorView>, Seq<char>>,
) -> ProbeView {
    match reply {
        Ok(monitors) => ProbeView {
            attempts: probe.attempts + 1,
            last_mismatch: plan::layout_mismatch(goal_layout(plan, goal), monitors)->0.summary,
            saw_state_mismatch: true,
            ..probe
        },
        Err(reason) => ProbeView {
            attempts: probe.attempts + 1,
            last_mismatch: if probe.saw_state_mismatch {
                probe.last_mismatch
            } else {
                "failed to query monitor state: "@ + reason
            },
            ..probe
        },
    }
}

/// The monitors look as `goal` asks.
pub open spec fn is_met(
    plan: PlanView,
    goal: GoalView,
    reply: Result<Seq<MonitorView>, Seq<char>>,
) -> bool {
    match reply {
        Ok(monitors) => plan::layout_mismatch(goal_layout(plan, goal), monitors) is None,
        Err(_) => false,
    }
}

/// Where the application goes once the monitors were looked at.
pub open spec fn looked(
    plan: PlanView,
    attended: bool,
    goal: GoalView,
    probe: ProbeView,
    reply: Result<Seq<MonitorView>, Seq<char>>,
) -> StageView {
    let next = failed_look(plan, goal, probe, reply);
    if is_met(plan, goal, reply) {
        goal_met(plan, attended, goal)
    } else if next.attempts < VERIFY_ATTEMPTS {
        StageView::Pausing(goal, next)
    } else {
        goal_missed(plan, goal, next.last_mismatch)
    }
}

/// Where the application goes from `stage` when `event` has happened.
pub open spec fn next_stage(
    plan: PlanView,
    attended: bool,
    stage: StageView,
    event: EventView,
) -> StageView {
    match (stage, event) {
        (StageView::Preparing, EventView::Done(Ok(_))) => StageView::Applying,
        (StageView::Preparing, EventView::Done(Err(reason))) => StageView::Finished(Err(reason)),
        (StageView::Applying, EventView::Done(Ok(_))) => StageView::Checking(
            GoalView::Applied,
            fresh_probe(),
        ),
        (StageView::Applying, EventView::Done(Err(reason))) => StageView::Restoring(
            CauseView::ApplyFailed(reason.text),
        ),
        (StageView::Checking(goal, probe), EventView::Monitors(reply)) => looked(
            plan,
            attended,
            goal,
            probe,
            reply,
        ),
        (StageView::Pausing(goal, probe), EventView::Waited) => StageView::Checking(
            goal,
            ProbeView {
                delay: if 2 * probe.delay < VERIFY_MAX_DELAY {
                    2 * probe.delay
                } else {
                    VERIFY_MAX_DELAY as int
                },
                ..probe
            },
        ),
        (StageView::Confirming, EventView::Answered(Ok(answer))) => match answer.reason() {
            None => StageView::Checking(GoalView::Kept, fresh_probe()),
            Some(reason) => StageView::Restoring(CauseView::Unconfirmed(reason)),
        },
        (StageView::Confirming, EventView::Answered(Err(reason))) => StageView::Restoring(
            CauseView::ConfirmationFailed(reason),
        ),
        (StageView::Restoring(cause), EventView::Done(Ok(_))) => StageView::Checking(
            GoalView::Restored(cause),
            fresh_probe(),
        ),
        (StageView::Restoring(cause), EventView::Done(Err(reason))) => StageView::Finished(
            concluded(
                plan,
                cause,
                Some(error::within("rollback command was rejected by Hyprland"@, reason.text)),
            ),
        ),
        _ => stage,
    }
}

fn new_probe() -> (result: Probe)
    ensures
        result@ == fresh_probe(),
{
    Probe {
        attempts: 0,
        delay: VERIFY_INITIAL_DELAY,
        last_mismatch: String::new(),
        saw_state_mismatch: false,
    }
}

/// Where the application of `plan` begins.
pub fn begin(plan: &ApplyPlan, attended: bool) -> (result: Stage)
    ensures
        result@ == first_stage(plan@, attended),
{
    match ensure_plan_safe_to_apply(plan) {
        Err(error) => Stage::Finished(Err(error)),
        Ok(()) => if plan.is_noop {
            Stage::Finished(Ok(ApplyOutcome::Noop))
        } else if attended {
            Stage::Preparing
        } else {
            Stage::Applying
        },
    }
}

/// What is to be done at `stage`.
pub fn action<'a>(plan: &'a ApplyPlan, stage: &Stage) -> (result: ApplyAction<'a>)
    ensures
        result@ == action_at(plan@, stage@),
{
    match stage {
        Stage::Preparing => ApplyAction::Prepare,
        Stage::Applying => ApplyAction::ApplyBatch(plan.batch.as_str()),
        Stage::Checking(_, _) => ApplyAction::QueryMonitors,
        Stage::Pausing(_, probe) => ApplyAction::Wait(probe.delay),
        Stage::Confirming => ApplyAction::Confirm(
            plan.profile_name.as_str(),
            CONFIRMATION_TIMEOUT,
        ),
        Stage::Restoring(_) => ApplyAction::RollbackBatch(plan.rollback_batch.as_str()),
        Stage::Finished(_) => ApplyAction::Nothing,
    }
}

fn conclude(plan: &ApplyPlan, cause: Cause, failure: Option<String>) -> (result: Result<
    ApplyOutcome,
    Error,
>)
    ensures
        error::told(result) == concluded(
            plan@,
            cause@,
            match failure {
                Some(failed) => Some(failed@),
                None => None,
            },
        ),
{
    let profile: String = "profile `".to_owned().concat(plan.profile_name.as_str()).concat("`");
    match (cause, failure) {
        (Cause::ApplyFailed(reason), None) => Err(
            Error::new(reason).context(
                "failed to apply ".to_owned().concat(profile.as_str()).concat(
                    "; the previous monitor layout was restored",
                ).as_str(),
            ),
        ),
        (Cause::ApplyFailed(reason), Some(failed)) => Err(
            Error::new(reason).context(
                "failed to apply ".to_owned().concat(profile.as_str()).concat(
                    "; rollback also failed: ",
                ).concat(failed.as_str()).as_str(),
            ),
        ),
        (Cause::Unconfirmed(reason), None) => Ok(ApplyOutcome::RolledBack { reason }),
        (Cause::Unconfirmed(reason), Some(failed)) => Err(
            Error::new(failed).context(
                reason.concat("; failed to restore the previous monitor layout for ").concat(
                    profile.as_str(),
                ).as_str(),
            ),
        ),
        (Cause::ConfirmationFailed(reason), None) => Err(
            Error::new(reason).context(
                "confirmation failed; the previous monitor layout was restored",
            ),
        ),
        (Cause::ConfirmationFailed(reason), Some(failed)) => Err(
            Error::new(failed).context(
                "confirmation could not be read: ".to_owned().concat(reason.as_str()).concat(
                    "; failed to restore the previous monitor layout for ",
                ).concat(profile.as_str()).as_str(),
            ),
        ),
    }
}

fn meet(plan: &ApplyPlan, attended: bool, goal: Goal) -> (result: Stage)
    ensures
        result@ == goal_met(plan@, attended, goal@),
{
    match goal {
        Goal::Applied => if attended {
            Stage::Confirming
        } else {
            Stage::Finished(Ok(ApplyOutcome::Unattended))
        },
        Goal::Kept => Stage::Finished(Ok(ApplyOutcome::Confirmed)),
        Goal::Restored(cause) => Stage::Finished(conclude(plan, cause, None)),
    }
}

fn miss(plan: &ApplyPlan, goal: Goal, mismatch: String) -> (result: Stage)
    ensures
        result@ == goal_missed(plan@, goal@, mismatch@),
{
    match goal {
        Goal::Applied => Stage::Restoring(
            Cause::ApplyFailed(
                "monitor state did not converge after apply".to_owned().concat(": ").concat(
                    mismatch.as_str(),
                ),
            ),
        ),
        Goal::Kept => Stage::Restoring(
            Cause::Unconfirmed(
                "monitor state drifted during confirmation: ".to_owned().concat(
                    mismatch.as_str(),
                ),
            ),
        ),
        Goal::Restored(cause) => Stage::Finished(
            conclude(
                plan,
                cause,
                Some(
                    "rollback monitor state did not converge".to_owned().concat(": ").concat(
                        mismatch.as_str(),
                    ),
                ),
            ),
        ),
    }
}

fn look(
    plan: &ApplyPlan,
    attended: bool,
    goal: Goal,
    probe: Probe,
    reply: Result<Vec<MonitorState>, Error>,
) -> (result: Stage)
    requires
        probe.attempts < VERIFY_ATTEMPTS,
    ensures
        result@ == looked(
            plan@,
            attended,
            goal@,
            probe@,
            match reply {
                Ok(monitors) => Ok(monitor::views(monitors@)),
                Err(error) => Err(error@),
            },
        ),
{
    let mut probe: Probe = probe;
    match reply {
        Ok(monitors) => {
            let found: Result<(), plan::Mismatch> = match &goal {
                Goal::Restored(_) => verify_expected_state(&plan.rollback_expected, &monitors),
                _ => verify_expected_state(&plan.expected, &monitors),
            };
            match found {
                Ok(()) => {
                    return meet(plan, attended, goal);
                },
                Err(mismatch) => {
                    probe.last_mismatch = mismatch.summary;
                    probe.saw_state_mismatch = true;
                },
            }
        },
        Err(error) => {
            if !probe.saw_state_mismatch {
                probe.last_mismatch = "failed to query monitor state: ".to_owned().concat(
                    error.message(),
                );
            }
        },
    }
    probe.attempts = probe.attempts + 1;
    if probe.attempts < VERIFY_ATTEMPTS {
        Stage::Pausing(goal, probe)
    } else {
        miss(plan, goal, probe.last_mismatch)
    }
}

/// The looks of a stage are within bounds.
pub open spec fn in_bounds(stage: StageView) -> bool {
    match stage {
        StageView::Checking(_, probe) => 0 <= probe.attempts < VERIFY_ATTEMPTS && 0 <= probe.delay
            <= VERIFY_MAX_DELAY,
        StageView::Pausing(_, probe) => 0 < probe.attempts < VERIFY_ATTEMPTS && 0 <= probe.delay
            <= VERIFY_MAX_DELAY,
        _ => true,
    }
}

/// Where the application goes from `stage` when `event` has happened.
pub fn advance(plan: &ApplyPlan, attended: bool, stage: Stage, event: ApplyEvent) -> (result: Stage)
    requires
        in_bounds(stage@),
    ensures
        result@ == next_stage(plan@, attended, stage@, event@),
        in_bounds(result@),
{
    match (stage, event) {
        (Stage::Preparing, ApplyEvent::Done(Ok(()))) => Stage::Applying,
        (Stage::Preparing, ApplyEvent::Done(Err(error))) => Stage::Finished(Err(error)),
        (Stage::Applying, ApplyEvent::Done(Ok(()))) => Stage::Checking(
            Goal::Applied,
            new_probe(),
        ),
        (Stage::Applying, ApplyEvent::Done(Err(error))) => Stage::Restoring(
            Cause::ApplyFailed(error.to_string()),
        ),
        (Stage::Checking(goal, probe), ApplyEvent::Monitors(reply)) => look(
            plan,
            attended,
            goal,
            probe,
            reply,
        ),
        (Stage::Pausing(goal, probe), ApplyEvent::Waited) => {
            let mut probe: Probe = probe;
            probe.delay = if 2 * probe.delay < VERIFY_MAX_DELAY {
                2 * probe.delay
            } else {
                VERIFY_MAX_DELAY
            };
            Stage::Checking(goal, probe)
        },
        (Stage::Confirming, ApplyEvent::Answered(Ok(answer))) => match answer.rollback_reason() {
            None => Stage::Checking(Goal::Kept, new_probe()),
            Some(reason) => Stage::Restoring(Cause::Unconfirmed(reason.to_owned())),
        },
        (Stage::Confirming, ApplyEvent::Answered(Err(error))) => Stage::Restoring(
            Cause::ConfirmationFailed(error.to_string()),
        ),
        (Stage::Restoring(cause), ApplyEvent::Done(Ok(()))) => Stage::Checking(
            Goal::Restored(cause),
            new_probe(),
        ),
        (Stage::Restoring(cause), ApplyEvent::Done(Err(error))) => Stage::Finished(
            conclude(
                plan,
                cause,
                Some(
                    "rollback command was rejected by Hyprland".to_owned().concat(": ").concat(
                        error.message(),
                    ),
                ),
            ),
        ),
        (stage, _) => stage,
    }
}

// ---------------------------------------------------------------------------
// Carrying it out
// ---------------------------------------------------------------------------
/// Whether a user at the terminal can be asked.
pub fn check_terminal(stdin: bool, stdout: bool) -> (result: Result<(), Error>)
    ensures
        error::refused_as(
            result,
            if stdin && stdout {
                None
            } else {
                Some(
                    "interactive confirmation requires terminal stdin and stdout; pass --unattended only when automatic acceptance is intended"@,
                )
            },
        ),
{
    if stdin && stdout {
        Ok(())
    } else {
        Err(
            Error::new(
                "interactive confirmation requires terminal stdin and stdout; pass --unattended only when automatic acceptance is intended".to_owned(),
            ),
        )
    }
}

/// Who is asked whether a layout is kept.
pub trait ApplyConfirmation {
    /// Checks that an answer can be had before the layout is changed.
    fn prepare(&mut self) -> Result<(), Error>;

    /// Asks, and waits for at most `timeout` milliseconds.
    fn confirm(&mut self, profile_name: &str, timeout: u64) -> Result<ConfirmationResult, Error>;
}

/// Who changes and reports the monitors.
pub trait MonitorController: Sized {
    /// Runs a batch that sets a layout.
    fn apply_monitor_batch(&mut self, batch: &str) -> Result<(), Error>;

    /// Runs a batch that goes back to a layout.
    fn rollback_monitor_batch(&mut self, batch: &str) -> (result: Result<(), Error>)
        default_ensures
            exists|lent: &mut Self|
                #![trigger call_ensures(Self::apply_monitor_batch, (lent, batch), result)]
                call_ensures(Self::apply_monitor_batch, (lent, batch), result) && *lent == *old(self)
                    && *final(lent) == *final(self),
    {
        let apply = Self::apply_monitor_batch;
        apply(self, batch)
    }

    /// Reports every monitor.
    fn monitors_all(&mut self) -> Result<Vec<MonitorState>, Error>;
}

/// Who waits.
pub trait ApplyWait {
    /// Waits for `milliseconds`.
    fn wait(&mut self, milliseconds: u64);
}

/// Keeps every layout without being asked.
#[derive(Debug, Clone, Copy, PartialEq, Eq)]
pub struct Unattended;

impl ApplyConfirmation for Unattended {
    fn prepare(&mut self) -> (result: Result<(), Error>)
        ensures
            result is Ok,
    {
        Ok(())
    }

    fn confirm(&mut self, profile_name: &str, timeout: u64) -> (result: Result<
        ConfirmationResult,
        Error,
    >)
        ensures
            result == Ok::<_, Error>(ConfirmationResult::Confirmed),
    {
        Ok(ConfirmationResult::Confirmed)
    }
}

/// `event` is what can come of `action`.
pub open spec fn answers(action: ActionView, event: EventView) -> bool {
    match action {
        ActionView::Prepare => event is Done,
        ActionView::ApplyBatch(_) => event is Done,
        ActionView::RollbackBatch(_) => event is Done,
        ActionView::QueryMonitors => event is Monitors,
        ActionView::Wait(_) => event is Waited,
        ActionView::Confirm(_, _) => event is Answered,
        ActionView::Nothing => false,
    }
}

/// Where the application stands after `events`, each of which answers what was
/// done.
pub open spec fn course(
    plan: PlanView,
    attended: bool,
    start: StageView,
    events: Seq<EventView>,
) -> StageView
    decreases events.len(),
{
    if events.len() == 0 {
        start
    } else {
        next_stage(
            plan,
            attended,
            course(plan, attended, start, events.drop_last()),
            events.last(),
        )
    }
}

/// Each of `events` answers what was to be done when it happened.
pub open spec fn in_turn(
    plan: PlanView,
    attended: bool,
    start: StageView,
    events: Seq<EventView>,
) -> bool {
    forall|i: int|
        0 <= i < events.len() ==> answers(
            action_at(plan, course(plan, attended, start, #[trigger] events.take(i))),
            events[i],
        )
}

/// The application of `plan` can end in `result`.
pub open spec fn can_end_in(
    plan: PlanView,
    attended: bool,
    start: StageView,
    result: Result<OutcomeView, Refusal>,
) -> bool {
    exists|events: Seq<EventView>| #[trigger]
        in_turn(plan, attended, start, events) && course(plan, attended, start, events)
            == StageView::Finished(result)
}

/// How many more steps the looks of a goal can take.
spec fn looks_left(probe: ProbeView, pausing: bool) -> int {
    2 * (VERIFY_ATTEMPTS - probe.attempts) + (if pausing {
        1int
    } else {
        0int
    })
}

/// How many more steps there can be.
spec fn steps_left(stage: StageView) -> int {
    let looks = match stage {
        StageView::Checking(_, probe) => looks_left(probe, false),
        StageView::Pausing(_, probe) => looks_left(probe, true),
        _ => 0,
    };
    match stage {
        StageView::Finished(_) => 0,
        StageView::Checking(goal, _) | StageView::Pausing(goal, _) => match goal {
            GoalView::Restored(_) => 1 + looks,
            GoalView::Kept => 30 + looks,
            GoalView::Applied => 60 + looks,
        },
        StageView::Restoring(_) => 25,
        StageView::Confirming => 55,
        StageView::Applying => 90,
        StageView::Preparing => 91,
    }
}

proof fn lemma_steps_left(plan: PlanView, attended: bool, stage: StageView, event: EventView)
    requires
        in_bounds(stage),
        answers(action_at(plan, stage), event),
    ensures
        0 <= steps_left(next_stage(plan, attended, stage, event)) < steps_left(stage),
{
}

// ---------------------------------------------------------------------------
// The parties
// ---------------------------------------------------------------------------
/// The parties to an application.
#[verifier::ext_equal]
pub struct Parties<C, W, F> {
    pub client: C,
    pub wait: W,
    pub confirmation: F,
}

/// What each party is when it is handed back.
#[verifier::reject_recursive_types(C)]
#[verifier::reject_recursive_types(W)]
#[verifier::reject_recursive_types(F)]
pub struct Handback<'a, C, W, F> {
    pub client: spec_fn(&'a mut C) -> C,
    pub wait: spec_fn(&'a mut W) -> W,
    pub confirmation: spec_fn(&'a mut F) -> F,
}

/// A call of `prepare` took `before` to `after` and gave `reply`.
pub open spec fn prepared<F: ApplyConfirmation>(
    before: F,
    reply: EventView,
    after: F,
    back: spec_fn(&mut F) -> F,
) -> bool {
    exists|lent: &mut F, result: Result<(), Error>| #[trigger]
        call_ensures(F::prepare, (lent,), result) && *lent == before && back(lent) == after
            && reply == ApplyEvent::Done(result)@
}

/// A call of `confirm` took `before` to `after` and gave `reply`.
pub open spec fn asked<F: ApplyConfirmation>(
    before: F,
    profile_name: Seq<char>,
    timeout: int,
    reply: EventView,
    after: F,
    back: spec_fn(&mut F) -> F,
) -> bool {
    exists|lent: &mut F, name: &str, limit: u64, result: Result<ConfirmationResult, Error>|
        #[trigger] call_ensures(F::confirm, (lent, name, limit), result) && *lent == before
            && back(lent) == after && name@ == profile_name && limit == timeout && reply
            == ApplyEvent::Answered(result)@
}

/// A call of `apply_monitor_batch` took `before` to `after` and gave `reply`.
pub open spec fn applied_batch<C: MonitorController>(
    before: C,
    batch: Seq<char>,
    reply: EventView,
    after: C,
    back: spec_fn(&mut C) -> C,
) -> bool {
    exists|lent: &mut C, given: &str, result: Result<(), Error>| #[trigger]
        call_ensures(C::apply_monitor_batch, (lent, given), result) && *lent == before
            && back(lent) == after && given@ == batch && reply == ApplyEvent::Done(result)@
}

/// A call of `rollback_monitor_batch` took `before` to `after` and gave `reply`.
pub open spec fn rolled_back_batch<C: MonitorController>(
    before: C,
    batch: Seq<char>,
    reply: EventView,
    after: C,
    back: spec_fn(&mut C) -> C,
) -> bool {
    exists|lent: &mut C, given: &str, result: Result<(), Error>| #[trigger]
        call_ensures(C::rollback_monitor_batch, (lent, given), result) && *lent == before
            && back(lent) == after && given@ == batch && reply == ApplyEvent::Done(result)@
}

/// A call of `monitors_all` took `before` to `after` and gave `reply`.
pub open spec fn reported<C: MonitorController>(
    before: C,
    reply: EventView,
    after: C,
    back: spec_fn(&mut C) -> C,
) -> bool {
    exists|lent: &mut C, result: Result<Vec<MonitorState>, Error>| #[trigger]
        call_ensures(C::monitors_all, (lent,), result) && *lent == before && back(lent) == after
            && reply == ApplyEvent::Monitors(result)@
}

/// A call of `wait` took `before` to `after`.
pub open spec fn waited<W: ApplyWait>(
    before: W,
    milliseconds: int,
    after: W,
    back: spec_fn(&mut W) -> W,
) -> bool {
    exists|lent: &mut W, duration: u64| #[trigger]
        call_ensures(W::wait, (lent, duration), ()) && *lent == before && back(lent) == after
            && duration == milliseconds
}

/// The party that `action` is for did it, once, which took the parties from
/// `before` to `after`, and answered with `event`.
pub open spec fn performed<C: MonitorController, W: ApplyWait, F: ApplyConfirmation>(
    before: Parties<C, W, F>,
    action: ActionView,
    event: EventView,
    after: Parties<C, W, F>,
    back: Handback<'_, C, W, F>,
) -> bool {
    match action {
        ActionView::Prepare => {
            &&& prepared(before.confirmation, event, after.confirmation, back.confirmation)
            &&& after.client == before.client
            &&& after.wait == before.wait
        },
        ActionView::ApplyBatch(batch) => {
            &&& applied_batch(before.client, batch, event, after.client, back.client)
            &&& after.wait == before.wait
            &&& after.confirmation == before.confirmation
        },
        ActionView::RollbackBatch(batch) => {
            &&& rolled_back_batch(before.client, batch, event, after.client, back.client)
            &&& after.wait == before.wait
            &&& after.confirmation == before.confirmation
        },
        ActionView::QueryMonitors => {
            &&& reported(before.client, event, after.client, back.client)
            &&& after.wait == before.wait
            &&& after.confirmation == before.confirmation
        },
        ActionView::Wait(milliseconds) => {
            &&& waited(before.wait, milliseconds, after.wait, back.wait)
            &&& event == EventView::Waited
            &&& after.client == before.client
            &&& after.confirmation == before.confirmation
        },
        ActionView::Confirm(name, timeout) => {
            &&& asked(before.confirmation, name, timeout, event, after.confirmation, back.confirmation)
            &&& after.client == before.client
            &&& after.wait == before.wait
        },
        ActionView::Nothing => false,
    }
}

/// The parties went through `parties`, one step for each of `events`.
pub open spec fn enacted<C: MonitorController, W: ApplyWait, F: ApplyConfirmation>(
    plan: PlanView,
    attended: bool,
    start: StageView,
    events: Seq<EventView>,
    parties: Seq<Parties<C, W, F>>,
    back: Handback<'_, C, W, F>,
) -> bool {
    &&& parties.len() == events.len() + 1
    &&& forall|i: int|
        0 <= i < events.len() ==> performed(
            parties[i],
            action_at(plan, course(plan, attended, start, #[trigger] events.take(i))),
            events[i],
            parties[i + 1],
            back,
        )
}

/// The application of `plan` was carried out from `start` to its end, which
/// took the parties from `before` to `after`, and ended in `result`: whatever
/// was done was to be done then, and the answers decided what came next.
pub open spec fn carried_out<C: MonitorController, W: ApplyWait, F: ApplyConfirmation>(
    plan: PlanView,
    attended: bool,
    start: StageView,
    before: Parties<C, W, F>,
    after: Parties<C, W, F>,
    back: Handback<'_, C, W, F>,
    result: Result<OutcomeView, Refusal>,
) -> bool {
    exists|events: Seq<EventView>, parties: Seq<Parties<C, W, F>>| #[trigger]
        enacted(plan, attended, start, events, parties, back) && in_turn(plan, attended, start, events)
            && course(plan, attended, start, events) == StageView::Finished(result)
            && parties[0] == before && parties[events.len() as int] == after
}

/// `plan` was carried out, which took the controller and the clock from `before`
/// to `after`, and the user, where there is one, from the first to the second of
/// `user`, and ended in `result`.
pub open spec fn applied<C: MonitorController, W: ApplyWait, F: ApplyConfirmation>(
    plan: PlanView,
    user: Option<(F, F)>,
    before: (C, W),
    after: (C, W),
    back: Handback<'_, C, W, F>,
    alone: Handback<'_, C, W, Unattended>,
    result: Result<OutcomeView, Refusal>,
) -> bool {
    match user {
        Some((asking, told)) => carried_out(
            plan,
            true,
            first_stage(plan, true),
            Parties { client: before.0, wait: before.1, confirmation: asking },
            Parties { client: after.0, wait: after.1, confirmation: told },
            back,
            result,
        ),
        None => carried_out(
            plan,
            false,
            first_stage(plan, false),
            Parties { client: before.0, wait: before.1, confirmation: Unattended },
            Parties { client: after.0, wait: after.1, confirmation: Unattended },
            alone,
            result,
        ),
    }
}

fn perform<C: MonitorController, W: ApplyWait, F: ApplyConfirmation>(
    action: ApplyAction<'_>,
    client: &mut C,
    wait: &mut W,
    confirmation: &mut F,
) -> (result: ApplyEvent)
    requires
        action@ != ActionView::Nothing,
    ensures
        answers(action@, result@),
        performed(
            (Parties { client: *old(client), wait: *old(wait), confirmation: *old(confirmation) }),
            action@,
            result@,
            (Parties {
                client: *final(client),
                wait: *final(wait),
                confirmation: *final(confirmation),
            }),
            (Handback {
                client: |lent: &mut C| *final(lent),
                wait: |lent: &mut W| *final(lent),
                confirmation: |lent: &mut F| *final(lent),
            }),
        ),
{
    match action {
        ApplyAction::Prepare => {
            let prepare = F::prepare;
            ApplyEvent::Done(prepare(confirmation))
        },
        ApplyAction::ApplyBatch(batch) => {
            let apply = C::apply_monitor_batch;
            ApplyEvent::Done(apply(client, batch))
        },
        ApplyAction::RollbackBatch(batch) => {
            let roll_back = C::rollback_monitor_batch;
            ApplyEvent::Done(roll_back(client, batch))
        },
        ApplyAction::QueryMonitors => {
            let report = C::monitors_all;
            ApplyEvent::Monitors(report(client))
        },
        ApplyAction::Wait(milliseconds) => {
            let pause = W::wait;
            pause(wait, milliseconds);
            ApplyEvent::Waited
        },
        ApplyAction::Confirm(name, timeout) => {
            let confirm = F::confirm;
            ApplyEvent::Answered(confirm(confirmation, name, timeout))
        },
        ApplyAction::Nothing => ApplyEvent::Waited,
    }
}

/// Carries an application on from `start` to its end.
fn carry_out<C: MonitorController, W: ApplyWait, F: ApplyConfirmation>(
    plan: &ApplyPlan,
    attended: bool,
    start: Stage,
    client: &mut C,
    wait: &mut W,
    confirmation: &mut F,
) -> (result: Result<ApplyOutcome, Error>)
    requires
        in_bounds(start@),
    ensures
        can_end_in(plan@, attended, start@, error::told(result)),
        carried_out(
            plan@,
            attended,
            start@,
            (Parties { client: *old(client), wait: *old(wait), confirmation: *old(confirmation) }),
            (Parties {
                client: *final(client),
                wait: *final(wait),
                confirmation: *final(confirmation),
            }),
            (Handback {
                client: |lent: &mut C| *final(lent),
                wait: |lent: &mut W| *final(lent),
                confirmation: |lent: &mut F| *final(lent),
            }),
            error::told(result),
        ),
{
    let ghost first = start@;
    let ghost origin = Parties { client: *client, wait: *wait, confirmation: *confirmation };
    let ghost back = Handback {
        client: |lent: &mut C| *final(lent),
        wait: |lent: &mut W| *final(lent),
        confirmation: |lent: &mut F| *final(lent),
    };
    let ghost mut events: Seq<EventView> = seq![];
    let ghost mut parties: Seq<Parties<C, W, F>> = seq![origin];
    let mut stage: Stage = start;
    loop
        invariant
            first == start@,
            origin == (Parties {
                client: *old(client),
                wait: *old(wait),
                confirmation: *old(confirmation),
            }),
            in_bounds(stage@),
            in_turn(plan@, attended, first, events),
            course(plan@, attended, first, events) == stage@,
            enacted(plan@, attended, first, events, parties, back),
            back == (Handback {
                client: |lent: &mut C| *final(lent),
                wait: |lent: &mut W| *final(lent),
                confirmation: |lent: &mut F| *final(lent),
            }),
            parties[0] == origin,
            parties[events.len() as int] == (Parties {
                client: *client,
                wait: *wait,
                confirmation: *confirmation,
            }),
        decreases steps_left(stage@),
    {
        match stage {
            Stage::Finished(result) => {
                assert(can_end_in(plan@, attended, first, error::told(result)));
                return result;
            },
            _ => {},
        }
        let event: ApplyEvent = perform(action(plan, &stage), client, wait, confirmation);
        proof {
            let before = events;
            let gone = parties;
            lemma_steps_left(plan@, attended, stage@, event@);
            events = events.push(event@);
            parties = parties.push(
                Parties { client: *client, wait: *wait, confirmation: *confirmation },
            );
            assert(events.drop_last() =~= before);
            assert forall|i: int| 0 <= i < events.len() implies performed(
                parties[i],
                action_at(plan@, course(plan@, attended, first, #[trigger] events.take(i))),
                events[i],
                parties[i + 1],
                back,
            ) by {
                if i < before.len() {
                    assert(events.take(i) =~= before.take(i));
                    assert(parties[i] == gone[i] && parties[i + 1] == gone[i + 1]);
                } else {
                    assert(events.take(i) =~= before);
                }
            }
            assert forall|i: int| 0 <= i < events.len() implies answers(
                action_at(plan@, course(plan@, attended, first, #[trigger] events.take(i))),
                events[i],
            ) by {
                if i < before.len() {
                    assert(events.take(i) =~= before.take(i));
                } else {
                    assert(events.take(i) =~= before);
                }
            }
        }
        stage = advance(plan, attended, stage, event);
    }
}

/// Carries out a plan: applies it, checks that the layout comes about, asks
/// `confirmation` where there is one, and goes back where anything fails.
pub fn apply_plan_safely_with_controller<
    C: MonitorController,
    W: ApplyWait,
    F: ApplyConfirmation,
>(plan: &ApplyPlan, client: &mut C, wait: &mut W, confirmation: Option<&mut F>) -> (result: Result<
    ApplyOutcome,
    Error,
>)
    ensures
        can_end_in(
            plan@,
            confirmation is Some,
            first_stage(plan@, confirmation is Some),
            error::told(result),
        ),
        applied(
            plan@,
            (match confirmation {
                Some(user) => Some((*user, *final(user))),
                None => None,
            }),
            (*old(client), *old(wait)),
            (*final(client), *final(wait)),
            (Handback {
                client: |lent: &mut C| *final(lent),
                wait: |lent: &mut W| *final(lent),
                confirmation: |lent: &mut F| *final(lent),
            }),
            (Handback {
                client: |lent: &mut C| *final(lent),
                wait: |lent: &mut W| *final(lent),
                confirmation: |lent: &mut Unattended| *final(lent),
            }),
            error::told(result),
        ),
        plan::unsafe_reason(plan@) matches Some(reason) ==> error::told(result) == Err::<
            OutcomeView,
            _,
        >(error::plainly_told(reason)),
        plan::unsafe_reason(plan@) is None && plan@.is_noop ==> error::told(result) == Ok::<
            _,
            Refusal,
        >(OutcomeView::Noop),
{
    let attended: bool = confirmation.is_some();
    let start: Stage = begin(plan, attended);
    let ghost first = start@;
    let result: Result<ApplyOutcome, Error> = match confirmation {
        Some(asked) => carry_out(plan, true, start, client, wait, asked),
        None => {
            let mut nobody = Unattended;
            carry_out(plan, false, start, client, wait, &mut nobody)
        },
    };
    proof {
        lemma_finished_stays(plan@, attended, first, error::told(result));
    }
    result
}

/// What has ended stays as it ended.
proof fn lemma_finished_stays(
    plan: PlanView,
    attended: bool,
    start: StageView,
    result: Result<OutcomeView, Refusal>,
)
    requires
        can_end_in(plan, attended, start, result),
    ensures
        start matches StageView::Finished(ended) ==> result == ended,
{
    let events = choose|events: Seq<EventView>| #[trigger]
        in_turn(plan, attended, start, events) && course(plan, attended, start, events)
            == StageView::Finished(result);
    if start is Finished && events.len() > 0 {
        assert(events.take(0) =~= seq![]);
        assert(answers(
            action_at(plan, course(plan, attended, start, events.take(0))),
            events[0],
        ));
    }
}

/// Goes back to the layout before `plan`, for the reason that `cause` gives.
pub fn restore<C: MonitorController, W: ApplyWait>(
    plan: &ApplyPlan,
    cause: Cause,
    client: &mut C,
    wait: &mut W,
) -> (result: Result<ApplyOutcome, Error>)
    ensures
        can_end_in(plan@, false, StageView::Restoring(cause@), error::told(result)),
        carried_out(
            plan@,
            false,
            StageView::Restoring(cause@),
            (Parties { client: *old(client), wait: *old(wait), confirmation: Unattended }),
            (Parties { client: *final(client), wait: *final(wait), confirmation: Unattended }),
            (Handback {
                client: |lent: &mut C| *final(lent),
                wait: |lent: &mut W| *final(lent),
                confirmation: |lent: &mut Unattended| *final(lent),
            }),
            error::told(result),
        ),
        cause@ matches CauseView::Unconfirmed(reason) ==> (result matches Ok(outcome)
            ==> outcome@ == (OutcomeView::RolledBack { reason })),
{
    let mut nobody = Unattended;
    let ghost why = cause@;
    let result: Result<ApplyOutcome, Error> = carry_out(
        plan,
        false,
        Stage::Restoring(cause),
        client,
        wait,
        &mut nobody,
    );
    proof {
        let start = StageView::Restoring(why);
        let events = choose|events: Seq<EventView>| #[trigger]
            in_turn(plan@, false, start, events) && course(plan@, false, start, events)
                == StageView::Finished(error::told(result));
        lemma_restoring(plan@, why, events);
    }
    result
}

/// An application that goes back does nothing else.
proof fn lemma_restoring(plan: PlanView, cause: CauseView, events: Seq<EventView>)
    ensures
        match course(plan, false, StageView::Restoring(cause), events) {
            StageView::Restoring(why) => why == cause,
            StageView::Checking(goal, _) => goal == GoalView::Restored(cause),
            StageView::Pausing(goal, _) => goal == GoalView::Restored(cause),
            StageView::Finished(result) => exists|failure: Option<Seq<char>>|
                result == #[trigger] concluded(plan, cause, failure),
            _ => false,
        },
    decreases events.len(),
{
    if events.len() > 0 {
        let front = events.drop_last();
        lemma_restoring(plan, cause, front);
        let before = course(plan, false, StageView::Restoring(cause), front);
        match (before, events.last()) {
            (StageView::Checking(goal, probe), EventView::Monitors(reply)) => {
                let next = failed_look(plan, goal, probe, reply);
                let met = concluded(plan, cause, None);
                let missed = concluded(
                    plan,
                    cause,
                    Some(
                        error::within(
                            "rollback monitor state did not converge"@,
                            next.last_mismatch,
                        ),
                    ),
                );
            },
            (StageView::Restoring(_), EventView::Done(Err(reason))) => {
                let failed = concluded(
                    plan,
                    cause,
                    Some(error::within("rollback command was rejected by Hyprland"@, reason.text)),
                );
            },
            _ => {},
        }
    }
}

} // verus!
