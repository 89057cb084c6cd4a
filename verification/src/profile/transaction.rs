//! A whole application: which profile, what it would do, and whether the
//! monitors ended up where they should.
use vstd::prelude::*;

use crate::error;
use crate::error::{Error, Refusal};
use crate::hyprland::monitor;
use crate::hyprland::monitor::{MonitorState, MonitorView};
use crate::number;
use crate::profile::apply;
use crate::profile::apply::{
    ApplyConfirmation, ApplyEvent, ApplyOutcome, ApplyWait, Cause, CauseView, EventView, Handback,
    MonitorController, OutcomeView, Parties, StageView, Unattended,
};
use crate::profile::matching;
use crate::profile::matching::{
    best_profile_match, decide_auto_apply, AutoApplyDecision, BestProfileMatch, DecisionView,
    MonitorMatchMode, ProfileMatch, ProfileMatchView,
};
use crate::profile::plan;
use crate::profile::plan::{
    plan_apply, plan_apply_automatic, verify_expected_state, ApplyPlan, Mismatch, PlanView,
};
use crate::profile::store;
use crate::profile::store::{Profile, ProfileStore, ProfileView};
use crate::sort;
use crate::text;

verus! {

/// Which profile is to be applied.
#[derive(Debug, PartialEq)]
pub enum ApplyTransactionRequest {
    Named(String),
    Automatic { fallback_profile: Option<String> },
    Draft(Profile),
}

/// What was done to the monitors.
#[derive(Debug, Clone, Copy, PartialEq, Eq, Structural)]
pub enum ApplyExecution {
    Suppressed,
    Noop,
    Applied,
    RolledBack,
}

/// What came of a whole application.
#[derive(Debug, PartialEq)]
pub struct ApplyTransactionResult {
    pub outcome: ApplyOutcome,
    pub execution: ApplyExecution,
    pub plan: ApplyPlan,
    pub snapshot: Vec<MonitorState>,
    pub final_state: Vec<MonitorState>,
    pub automatic_decision: Option<AutoApplyDecision>,
}

// ---------------------------------------------------------------------------
// Choosing
// ---------------------------------------------------------------------------
/// The profile to be applied, if there is one.
#[derive(Debug, PartialEq)]
pub enum ProfileSelection {
    Chosen { profile: Profile, decision: Option<AutoApplyDecision> },
    NoAutomaticMatch { decision: AutoApplyDecision },
}

/// What a [`ProfileSelection`] holds.
pub enum SelectionView {
    Chosen { profile: ProfileView, decision: Option<DecisionView> },
    NoAutomaticMatch { decision: DecisionView },
}

impl View for ProfileSelection {
    type V = SelectionView;

    open spec fn view(&self) -> SelectionView {
        match self {
            ProfileSelection::Chosen { profile, decision } => SelectionView::Chosen {
                profile: profile@,
                decision: match decision {
                    Some(decided) => Some(decided@),
                    None => None,
                },
            },
            ProfileSelection::NoAutomaticMatch { decision } => SelectionView::NoAutomaticMatch {
                decision: decision@,
            },
        }
    }
}

/// The profile called `name`, or `reason`.
pub open spec fn profile_called(
    profiles: Seq<ProfileView>,
    name: Seq<char>,
    decision: Option<DecisionView>,
    reason: Seq<char>,
) -> Result<SelectionView, Seq<char>> {
    match store::position_of(profiles, name) {
        Some(i) => Ok(SelectionView::Chosen { profile: profiles[i], decision }),
        None => Err(reason),
    }
}

/// What is chosen where `decided` was decided.
pub open spec fn selection_by(profiles: Seq<ProfileView>, decided: DecisionView) -> Result<
    SelectionView,
    Seq<char>,
> {
    match decided {
        DecisionView::Apply { profile_name, .. } => profile_called(
            profiles,
            profile_name,
            Some(decided),
            "selected profile `"@ + profile_name + "` disappeared"@,
        ),
        _ => Ok(SelectionView::NoAutomaticMatch { decision: decided }),
    }
}

/// `result` is the profile that `request` asks for.
pub open spec fn is_selection(
    result: Result<SelectionView, Seq<char>>,
    request: ApplyTransactionRequest,
    profiles: Seq<ProfileView>,
    current: Seq<MonitorView>,
) -> bool {
    match request {
        ApplyTransactionRequest::Draft(profile) => result == Ok::<_, Seq<char>>(
            SelectionView::Chosen { profile: profile@, decision: None },
        ),
        ApplyTransactionRequest::Named(name) => result == profile_called(
            profiles,
            name@,
            None,
            store::missing_text(name@),
        ),
        ApplyTransactionRequest::Automatic { fallback_profile } => exists|
            matches: Seq<ProfileMatchView>,
        | #[trigger]
            matching::are_matches(matches, profiles, current) && result == selection_by(
                profiles,
                matching::decision(
                    profiles,
                    matching::best_of(sort::sorted::<ProfileMatch>(matches)),
                    match fallback_profile {
                        Some(name) => Some(name@),
                        None => None,
                    },
                ),
            ),
    }
}

fn find_profile(
    store: &ProfileStore,
    name: &str,
    decision: Option<AutoApplyDecision>,
    reason: String,
) -> (result: Result<ProfileSelection, Error>)
    ensures
        error::outcome(result) == profile_called(
            store@,
            name@,
            match decision {
                Some(decided) => Some(decided@),
                None => None,
            },
            reason@,
        ),
        error::plainly(result),
{
    match store.position(name) {
        Some(i) => {
            assert(store@[i as int] == store.profiles@[i as int]@);
            Ok(ProfileSelection::Chosen { profile: store.profiles[i].clone(), decision })
        },
        None => Err(Error::new(reason)),
    }
}

/// The profile that `request` asks for, `snapshot` being the monitors as they
/// are.
pub fn select_profile(
    request: ApplyTransactionRequest,
    store: &ProfileStore,
    snapshot: &Vec<MonitorState>,
) -> (result: Result<ProfileSelection, Error>)
    requires
        matching::all_countable(store@, snapshot@.len()),
    ensures
        is_selection(
            error::outcome(result),
            request,
            store@,
            monitor::views(snapshot@),
        ),
        error::plainly(result),
{
    match request {
        ApplyTransactionRequest::Draft(profile) => Ok(
            ProfileSelection::Chosen { profile, decision: None },
        ),
        ApplyTransactionRequest::Named(name) => find_profile(
            store,
            name.as_str(),
            None,
            "profile `".to_owned().concat(name.as_str()).concat("` does not exist"),
        ),
        ApplyTransactionRequest::Automatic { fallback_profile } => {
            let best: BestProfileMatch = best_profile_match(store, snapshot);
            let fallback: Option<&str> = match &fallback_profile {
                Some(name) => Some(name.as_str()),
                None => None,
            };
            let decided: AutoApplyDecision = decide_auto_apply(store, &best, fallback);
            match &decided {
                AutoApplyDecision::Apply { profile_name, .. } => find_profile(
                    store,
                    profile_name.as_str(),
                    Some(decided.clone()),
                    "selected profile `".to_owned().concat(profile_name.as_str()).concat(
                        "` disappeared",
                    ),
                ),
                _ => Ok(ProfileSelection::NoAutomaticMatch { decision: decided.clone() }),
            }
        },
    }
}

/// What is said where nothing can be applied.
pub open spec fn decision_error(decided: DecisionView) -> Seq<char> {
    match decided {
        DecisionView::Apply { profile_name, .. } => "selected profile `"@ + profile_name
            + "` disappeared"@,
        DecisionView::NoProfiles => "no profiles saved"@,
        DecisionView::Ambiguous { reason } => "automatic apply is ambiguous: "@ + reason,
        DecisionView::MissingFallback { profile_name } => "fallback_profile `"@ + profile_name
            + "` does not exist"@,
        DecisionView::NotEligible { reason } => "no exact or high-confidence profile match: "@
            + reason,
        DecisionView::NoMatch => "no useful profile match"@,
    }
}

/// What is said where nothing can be applied.
pub fn auto_decision_error(decision: &AutoApplyDecision) -> (result: Error)
    ensures
        result.head() == result@,
        result@ == decision_error(decision@),
{
    Error::new(
        match decision {
            AutoApplyDecision::Apply { profile_name, .. } => "selected profile `".to_owned().concat(
                profile_name.as_str(),
            ).concat("` disappeared"),
            AutoApplyDecision::NoProfiles => "no profiles saved".to_owned(),
            AutoApplyDecision::Ambiguous { reason } =>
                "automatic apply is ambiguous: ".to_owned().concat(reason.as_str()),
            AutoApplyDecision::MissingFallback { profile_name } =>
                "fallback_profile `".to_owned().concat(profile_name.as_str()).concat(
                "` does not exist",
            ),
            AutoApplyDecision::NotEligible { reason } =>
                "no exact or high-confidence profile match: ".to_owned().concat(reason.as_str()),
            AutoApplyDecision::NoMatch => "no useful profile match".to_owned(),
        },
    )
}

/// Profiles that were chosen automatically are matched with more care.
pub open spec fn mode_of(automatic: bool) -> MonitorMatchMode {
    if automatic {
        MonitorMatchMode::Automatic
    } else {
        MonitorMatchMode::Explicit
    }
}

/// `result` is what applying the chosen profile would do.
pub open spec fn is_planned(
    result: Result<PlanView, Seq<char>>,
    profile: ProfileView,
    current: Seq<MonitorView>,
    mode: MonitorMatchMode,
) -> bool {
    exists|planned: Result<PlanView, Seq<char>>| #[trigger]
        plan::is_plan(planned, profile, current, mode) && result == (match planned {
            Ok(view) => Ok(view),
            Err(reason) => Err(
                error::within(
                    "failed to build apply plan from authoritative monitor topology"@,
                    reason,
                ),
            ),
        })
}

/// What applying the chosen profile would do.
pub fn plan_selection(
    profile: &Profile,
    automatic: bool,
    snapshot: &Vec<MonitorState>,
) -> (result: Result<ApplyPlan, Error>)
    requires
        plan::plannable(snapshot@.len()),
    ensures
        is_planned(
            error::outcome(result),
            profile@,
            monitor::views(snapshot@),
            mode_of(automatic),
        ),
        result matches Err(error) ==> error.head()
            == "failed to build apply plan from authoritative monitor topology"@,
{
    let planned: Result<ApplyPlan, Error> = if automatic {
        plan_apply_automatic(profile, snapshot)
    } else {
        plan_apply(profile, snapshot)
    };
    let ghost view = error::outcome(planned);
    assert(plan::is_plan(view, profile@, monitor::views(snapshot@), mode_of(automatic)));
    match planned {
        Ok(plan) => Ok(plan),
        Err(error) => Err(
            error.context("failed to build apply plan from authoritative monitor topology"),
        ),
    }
}

// ---------------------------------------------------------------------------
// Snapshots in words
// ---------------------------------------------------------------------------
/// A monitor in one line.
pub open spec fn snapshot_line(monitor: MonitorView) -> Seq<char> {
    text::sanitized(monitor.output_name, false) + " id="@ + text::sanitized(monitor.id, false)
        + " enabled="@ + plan::bool_text(monitor.enabled) + " mode="@ + text::int_text(
        monitor.width as int,
    ) + "x"@ + text::int_text(monitor.height as int) + "@"@ + number::decimal_text(
        monitor.refresh_rate,
    ) + " position="@ + text::int_text(monitor.x as int) + "x"@ + text::int_text(monitor.y as int)
        + " scale="@ + number::decimal_text(monitor.scale) + " transform="@ + text::int_text(
        monitor.transform as int,
    )
}

/// Monitors, one to a line.
pub open spec fn snapshot_text(monitors: Seq<MonitorView>) -> Seq<char> {
    text::joined(monitors.map_values(|monitor: MonitorView| snapshot_line(monitor)), "\n"@)
}

fn format_line(monitor: &MonitorState) -> (result: String)
    ensures
        result@ == snapshot_line(monitor@),
{
    text::sanitize_terminal_text(monitor.output_name.as_str()).concat(" id=").concat(
        text::sanitize_terminal_text(monitor.id.as_str()).as_str(),
    ).concat(" enabled=").concat(plan::bool_string(monitor.enabled)).concat(" mode=").concat(
        text::decimal(monitor.width as i128).as_str(),
    ).concat("x").concat(text::decimal(monitor.height as i128).as_str()).concat("@").concat(
        monitor.refresh_rate.text().as_str(),
    ).concat(" position=").concat(text::decimal(monitor.x as i128).as_str()).concat("x").concat(
        text::decimal(monitor.y as i128).as_str(),
    ).concat(" scale=").concat(monitor.scale.text().as_str()).concat(" transform=").concat(
        text::decimal(monitor.transform as i128).as_str(),
    )
}

/// Monitors, one to a line.
pub fn format_snapshot(monitors: &Vec<MonitorState>) -> (result: String)
    ensures
        result@ == snapshot_text(monitor::views(monitors@)),
{
    let ghost expected = monitor::views(monitors@).map_values(
        |monitor: MonitorView| snapshot_line(monitor),
    );
    let mut lines: Vec<String> = Vec::new();
    let mut i: usize = 0;
    while i < monitors.len()
        invariant
            i <= monitors@.len(),
            expected == monitor::views(monitors@).map_values(
                |monitor: MonitorView| snapshot_line(monitor),
            ),
            text::texts(lines@) == expected.take(i as int),
        decreases monitors@.len() - i,
    {
        let ghost before = lines@;
        assert(monitor::views(monitors@)[i as int] == monitors@[i as int]@);
        lines.push(format_line(&monitors[i]));
        assert(text::texts(lines@) =~= text::texts(before).push(expected[i as int]));
        assert(text::texts(lines@) =~= expected.take(i + 1));
        i += 1;
    }
    assert(expected.take(expected.len() as int) =~= expected);
    text::join(&lines, "\n")
}

/// What is said where applying failed, the layout before it included.
pub open spec fn failure_text(reason: Seq<char>, snapshot: Seq<MonitorView>) -> Seq<char> {
    reason + "\nPrevious layout:\n(authoritative transaction snapshot)\n"@ + snapshot_text(snapshot)
}

// ---------------------------------------------------------------------------
// The end
// ---------------------------------------------------------------------------
/// What the monitors at the end call for.
#[derive(Debug, PartialEq, Eq)]
pub enum FinalCheck {
    Settled,
    RollBack { reason: String },
    Refuse(Error),
}

/// What a [`FinalCheck`] holds.
pub enum FinalView {
    Settled,
    RollBack { reason: Seq<char> },
    Refuse(Refusal),
}

impl View for FinalCheck {
    type V = FinalView;

    open spec fn view(&self) -> FinalView {
        match self {
            FinalCheck::Settled => FinalView::Settled,
            FinalCheck::RollBack { reason } => FinalView::RollBack { reason: reason@ },
            FinalCheck::Refuse(error) => FinalView::Refuse(error.refusal()),
        }
    }
}

/// What the monitors at the end call for: a layout that was kept and is gone is
/// rolled back, one that was rolled back and is gone is an error.
pub open spec fn final_check(
    plan: PlanView,
    outcome: OutcomeView,
    monitors: Seq<MonitorView>,
) -> FinalView {
    let wanted = if outcome is RolledBack {
        plan.rollback_expected
    } else {
        plan.expected
    };
    if outcome is Noop {
        FinalView::Settled
    } else {
        match plan::layout_mismatch(wanted, monitors) {
            None => FinalView::Settled,
            Some(mismatch) => {
                let reason = "monitor state drifted before transaction completion: "@
                    + mismatch.full();
                if outcome is RolledBack {
                    FinalView::Refuse(error::plainly_told(reason))
                } else {
                    FinalView::RollBack { reason }
                }
            },
        }
    }
}

/// What the monitors at the end call for.
pub fn check_final_state(plan: &ApplyPlan, outcome: &ApplyOutcome, monitors: &Vec<MonitorState>) -> (result:
    FinalCheck)
    ensures
        result@ == final_check(plan@, outcome@, monitor::views(monitors@)),
{
    let checked: Result<(), Mismatch> = match outcome {
        ApplyOutcome::Noop => {
            return FinalCheck::Settled;
        },
        ApplyOutcome::RolledBack { .. } => verify_expected_state(
            &plan.rollback_expected,
            monitors,
        ),
        _ => verify_expected_state(&plan.expected, monitors),
    };
    match checked {
        Ok(()) => FinalCheck::Settled,
        Err(mismatch) => {
            let reason: String =
                "monitor state drifted before transaction completion: ".to_owned().concat(
                mismatch.full().as_str(),
            );
            match outcome {
                ApplyOutcome::RolledBack { .. } => FinalCheck::Refuse(Error::new(reason)),
                _ => FinalCheck::RollBack { reason },
            }
        },
    }
}

/// Why the monitors after a late way back are not as they were.
pub open spec fn late_rollback_error(plan: PlanView, monitors: Seq<MonitorView>) -> Option<
    Seq<char>,
> {
    match plan::layout_mismatch(plan.rollback_expected, monitors) {
        None => None,
        Some(mismatch) => Some(
            error::within("final-drift rollback state was not preserved"@, mismatch.full()),
        ),
    }
}

/// Whether the monitors after a late way back are as they were.
pub fn check_late_rollback(plan: &ApplyPlan, monitors: &Vec<MonitorState>) -> (result: Result<
    (),
    Error,
>)
    ensures
        error::refused_under(
            result,
            "final-drift rollback state was not preserved"@,
            late_rollback_error(plan@, monitor::views(monitors@)),
        ),
{
    match verify_expected_state(&plan.rollback_expected, monitors) {
        Ok(()) => Ok(()),
        Err(mismatch) => Err(
            Error::new(mismatch.full()).context("final-drift rollback state was not preserved"),
        ),
    }
}

/// What was done to the monitors.
pub open spec fn execution_for(outcome: OutcomeView) -> ApplyExecution {
    match outcome {
        OutcomeView::Noop => ApplyExecution::Noop,
        OutcomeView::Confirmed => ApplyExecution::Applied,
        OutcomeView::Unattended => ApplyExecution::Applied,
        OutcomeView::RolledBack { .. } => ApplyExecution::RolledBack,
    }
}

/// What was done to the monitors.
pub fn execution_of(outcome: &ApplyOutcome) -> (result: ApplyExecution)
    ensures
        result == execution_for(outcome@),
{
    match outcome {
        ApplyOutcome::Noop => ApplyExecution::Noop,
        ApplyOutcome::Confirmed => ApplyExecution::Applied,
        ApplyOutcome::Unattended => ApplyExecution::Applied,
        ApplyOutcome::RolledBack { .. } => ApplyExecution::RolledBack,
    }
}

/// The result of an application that was held back.
pub fn suppressed(
    plan: ApplyPlan,
    snapshot: Vec<MonitorState>,
    automatic_decision: Option<AutoApplyDecision>,
) -> (result: ApplyTransactionResult)
    ensures
        result.outcome@ == OutcomeView::Noop,
        result.execution == ApplyExecution::Suppressed,
        result.plan@ == plan@,
        monitor::views(result.snapshot@) == monitor::views(snapshot@),
        monitor::views(result.final_state@) == monitor::views(snapshot@),
        result.automatic_decision == automatic_decision,
{
    let final_state: Vec<MonitorState> = monitor::copied(&snapshot);
    ApplyTransactionResult {
        outcome: ApplyOutcome::Noop,
        execution: ApplyExecution::Suppressed,
        plan,
        snapshot,
        final_state,
        automatic_decision,
    }
}

/// The monitors of a finished application are where its outcome puts them.
pub open spec fn settled(
    plan: PlanView,
    snapshot: Seq<MonitorView>,
    outcome: OutcomeView,
    monitors: Seq<MonitorView>,
) -> bool {
    match outcome {
        OutcomeView::Noop => monitors == snapshot,
        OutcomeView::RolledBack { .. } => plan::layout_mismatch(plan.rollback_expected, monitors)
            is None,
        _ => plan::layout_mismatch(plan.expected, monitors) is None,
    }
}

/// `result` is what comes of going back once more, after `reason`, which took
/// the controller and the clock from `before` to `after`.
pub open spec fn is_late_rollback<C: MonitorController, W: ApplyWait>(
    result: Result<(OutcomeView, Seq<MonitorView>), Refusal>,
    plan: PlanView,
    reason: Seq<char>,
    before: (C, W),
    after: (C, W),
    alone: Handback<'_, C, W, Unattended>,
) -> bool {
    exists|between: (C, W), restored: Result<OutcomeView, Refusal>| #[trigger]
        is_way_back(plan, reason, before, between, alone, restored) && match restored {
            Err(failure) => after == between && result == Err::<(OutcomeView, Seq<MonitorView>), _>(
                failure,
            ),
            Ok(outcome) => after.1 == between.1 && exists|reply: Result<Seq<MonitorView>, Seq<char>>|
                result == #[trigger] late_result(plan, outcome, reply) && apply::reported(
                    between.0,
                    EventView::Monitors(reply),
                    after.0,
                    alone.client,
                ),
        }
}

/// The commands that go back were run, after `reason`.
pub open spec fn is_way_back<C: MonitorController, W: ApplyWait>(
    plan: PlanView,
    reason: Seq<char>,
    before: (C, W),
    after: (C, W),
    alone: Handback<'_, C, W, Unattended>,
    restored: Result<OutcomeView, Refusal>,
) -> bool {
    apply::carried_out(
        plan,
        false,
        StageView::Restoring(CauseView::Unconfirmed(reason)),
        Parties { client: before.0, wait: before.1, confirmation: Unattended },
        Parties { client: after.0, wait: after.1, confirmation: Unattended },
        alone,
        restored,
    )
}

/// What comes of having gone back once more, by what the monitors are then.
pub open spec fn late_result(
    plan: PlanView,
    outcome: OutcomeView,
    reply: Result<Seq<MonitorView>, Seq<char>>,
) -> Result<(OutcomeView, Seq<MonitorView>), Refusal> {
    match reply {
        Err(reason) => Err(
            error::told_within("failed to query monitor state after final-drift rollback"@, reason),
        ),
        Ok(monitors) => match late_rollback_error(plan, monitors) {
            Some(text) => Err(
                Refusal { head: "final-drift rollback state was not preserved"@, text },
            ),
            None => Ok((outcome, monitors)),
        },
    }
}

/// `result` is what comes of a plan that was carried out with `outcome`, where
/// the controller then reported `reply`, which left it as `between`.
pub open spec fn completes<C: MonitorController, W: ApplyWait>(
    result: Result<(OutcomeView, Seq<MonitorView>), Refusal>,
    plan: PlanView,
    outcome: OutcomeView,
    reply: Result<Seq<MonitorView>, Seq<char>>,
    between: (C, W),
    after: (C, W),
    alone: Handback<'_, C, W, Unattended>,
) -> bool {
    match reply {
        Err(reason) => after == between && result == Err::<(OutcomeView, Seq<MonitorView>), _>(
            error::told_within(
                "failed to query final monitor state after apply transaction"@,
                reason,
            ),
        ),
        Ok(monitors) => match final_check(plan, outcome, monitors) {
            FinalView::Settled => after == between && result == Ok::<_, Refusal>(
                (outcome, monitors),
            ),
            FinalView::Refuse(reason) => after == between && result == Err::<
                (OutcomeView, Seq<MonitorView>),
                _,
            >(reason),
            FinalView::RollBack { reason } => is_late_rollback(
                result,
                plan,
                reason,
                between,
                after,
                alone,
            ),
        },
    }
}

/// `result` is what comes of a plan that was carried out with `outcome`, which
/// took the controller and the clock from `before` to `after`.
pub open spec fn is_completion<C: MonitorController, W: ApplyWait>(
    result: Result<(OutcomeView, Seq<MonitorView>), Refusal>,
    plan: PlanView,
    outcome: OutcomeView,
    before: (C, W),
    after: (C, W),
    alone: Handback<'_, C, W, Unattended>,
) -> bool {
    exists|reply: Result<Seq<MonitorView>, Seq<char>>, between: (C, W)| #[trigger]
        completes(result, plan, outcome, reply, between, after, alone) && between.1 == before.1
            && apply::reported(before.0, EventView::Monitors(reply), between.0, alone.client)
}

/// `result` is what comes of `plan`, carried out from `snapshot`, which took the
/// controller and the clock from `before` to `after`, and the user, where there
/// is one, from the first to the second of `user`.
pub open spec fn is_transaction<C: MonitorController, W: ApplyWait, F: ApplyConfirmation>(
    result: Result<(OutcomeView, Seq<MonitorView>), Refusal>,
    plan: PlanView,
    snapshot: Seq<MonitorView>,
    user: Option<(F, F)>,
    before: (C, W),
    after: (C, W),
    back: Handback<'_, C, W, F>,
    alone: Handback<'_, C, W, Unattended>,
) -> bool {
    exists|between: (C, W), carried: Result<OutcomeView, Refusal>| #[trigger]
        apply::applied(plan, user, before, between, back, alone, carried) && match carried {
            Err(reason) => after == between && result == Err::<(OutcomeView, Seq<MonitorView>), _>(
                error::plainly_told(failure_text(reason.text, snapshot)),
            ),
            Ok(outcome) => if outcome is Noop {
                after == between && result == Ok::<_, Refusal>((outcome, snapshot))
            } else {
                is_completion(result, plan, outcome, between, after, alone)
            },
        }
}

/// How a finished application ended, and where the monitors are.
pub open spec fn ending(result: Result<ApplyTransactionResult, Error>) -> Result<
    (OutcomeView, Seq<MonitorView>),
    Refusal,
> {
    match result {
        Ok(done) => Ok((done.outcome@, monitor::views(done.final_state@))),
        Err(error) => Err(error.refusal()),
    }
}

spec fn close(result: Result<(ApplyOutcome, Vec<MonitorState>), Error>) -> Result<
    (OutcomeView, Seq<MonitorView>),
    Refusal,
> {
    match result {
        Ok((end, monitors)) => Ok((end@, monitor::views(monitors@))),
        Err(error) => Err(error.refusal()),
    }
}

fn go_back<C: MonitorController, W: ApplyWait>(
    plan: &ApplyPlan,
    reason: String,
    client: &mut C,
    wait: &mut W,
) -> (result: Result<(ApplyOutcome, Vec<MonitorState>), Error>)
    ensures
        is_late_rollback(
            close(result),
            plan@,
            reason@,
            (*old(client), *old(wait)),
            (*final(client), *final(wait)),
            (Handback {
                client: |lent: &mut C| *final(lent),
                wait: |lent: &mut W| *final(lent),
                confirmation: |lent: &mut Unattended| *final(lent),
            }),
        ),
        result matches Ok((end, monitors)) ==> settled(
            plan@,
            seq![],
            end@,
            monitor::views(monitors@),
        ),
{
    let ghost alone = Handback {
        client: |lent: &mut C| *final(lent),
        wait: |lent: &mut W| *final(lent),
        confirmation: |lent: &mut Unattended| *final(lent),
    };
    let ghost why = reason@;
    let restored: Result<ApplyOutcome, Error> = apply::restore(
        plan,
        Cause::Unconfirmed(reason),
        client,
        wait,
    );
    let ghost ended = error::told(restored);
    let ghost between = (*client, *wait);
    assert(is_way_back(plan@, why, (*old(client), *old(wait)), between, alone, ended));
    let end: ApplyOutcome = match restored {
        Ok(end) => end,
        Err(error) => {
            return Err(error);
        },
    };
    let report = C::monitors_all;
    let looked: Result<Vec<MonitorState>, Error> = report(client);
    let ghost seen = ApplyEvent::Monitors(looked)@;
    let ghost outcome = end@;
    assert(apply::reported(
        between.0,
        EventView::Monitors(seen->Monitors_0),
        *client,
        alone.client,
    ));
    let result: Result<(ApplyOutcome, Vec<MonitorState>), Error> = match looked {
        Err(error) => Err(
            error.context("failed to query monitor state after final-drift rollback"),
        ),
        Ok(monitors) => match check_late_rollback(plan, &monitors) {
            Err(error) => Err(error),
            Ok(()) => Ok((end, monitors)),
        },
    };
    assert(close(result) == late_result(plan@, outcome, seen->Monitors_0));
    result
}

fn settle<C: MonitorController, W: ApplyWait>(
    plan: &ApplyPlan,
    outcome: ApplyOutcome,
    client: &mut C,
    wait: &mut W,
) -> (result: Result<(ApplyOutcome, Vec<MonitorState>), Error>)
    requires
        !(outcome is Noop),
    ensures
        is_completion(
            close(result),
            plan@,
            outcome@,
            (*old(client), *old(wait)),
            (*final(client), *final(wait)),
            (Handback {
                client: |lent: &mut C| *final(lent),
                wait: |lent: &mut W| *final(lent),
                confirmation: |lent: &mut Unattended| *final(lent),
            }),
        ),
        result matches Ok((end, monitors)) ==> settled(
            plan@,
            seq![],
            end@,
            monitor::views(monitors@),
        ),
{
    let ghost first = outcome@;
    let ghost alone = Handback {
        client: |lent: &mut C| *final(lent),
        wait: |lent: &mut W| *final(lent),
        confirmation: |lent: &mut Unattended| *final(lent),
    };
    let report = C::monitors_all;
    let looked: Result<Vec<MonitorState>, Error> = report(client);
    let ghost seen = ApplyEvent::Monitors(looked)@;
    assert(apply::reported(*old(client), EventView::Monitors(seen->Monitors_0), *client, alone.client));
    let final_state: Vec<MonitorState> = match looked {
        Ok(monitors) => monitors,
        Err(error) => {
            let refusal: Error = error.context(
                "failed to query final monitor state after apply transaction",
            );
            assert(completes(
                Err(refusal.refusal()),
                plan@,
                first,
                seen->Monitors_0,
                (*client, *wait),
                (*client, *wait),
                alone,
            ));
            return Err(refusal);
        },
    };
    let checked: FinalCheck = check_final_state(plan, &outcome, &final_state);
    assert(checked@ == final_check(plan@, first, monitor::views(final_state@)));
    let ghost between = (*client, *wait);
    let result: Result<(ApplyOutcome, Vec<MonitorState>), Error> = match checked {
        FinalCheck::Settled => Ok((outcome, final_state)),
        FinalCheck::Refuse(error) => Err(error),
        FinalCheck::RollBack { reason } => go_back(plan, reason, client, wait),
    };
    assert(completes(
        close(result),
        plan@,
        first,
        seen->Monitors_0,
        between,
        (*client, *wait),
        alone,
    ));
    result
}

/// Carries out a plan and makes sure that the monitors end up where they
/// should, going back once more where they do not.
pub fn run_transaction<C: MonitorController, W: ApplyWait, F: ApplyConfirmation>(
    plan: ApplyPlan,
    snapshot: Vec<MonitorState>,
    automatic_decision: Option<AutoApplyDecision>,
    client: &mut C,
    wait: &mut W,
    confirmation: Option<&mut F>,
) -> (result: Result<ApplyTransactionResult, Error>)
    ensures
        is_transaction(
            ending(result),
            plan@,
            monitor::views(snapshot@),
            (match confirmation {
                Some(user) => Some((*user, *final(user))),
                None => None,
            }),
            (*old(client), *old(wait)),
            (*final(client), *final(wait)),
            (Handback {
                client: |lent: &mut C| *final(lent),
                wait: |lent: &mut W| *final(lent),
                confirmation: |lent: &mut F| *final(lent),
            }),
            (Handback {
                client: |lent: &mut C| *final(lent),
                wait: |lent: &mut W| *final(lent),
                confirmation: |lent: &mut Unattended| *final(lent),
            }),
        ),
        result matches Ok(done) ==> {
            &&& done.plan@ == plan@
            &&& monitor::views(done.snapshot@) == monitor::views(snapshot@)
            &&& done.automatic_decision == automatic_decision
            &&& done.execution == execution_for(done.outcome@)
            &&& settled(
                plan@,
                monitor::views(snapshot@),
                done.outcome@,
                monitor::views(done.final_state@),
            )
        },
        plan::unsafe_reason(plan@) matches Some(reason) ==> (result matches Err(error)
            && error.refusal() == error::plainly_told(
            failure_text(reason, monitor::views(snapshot@)),
        )),
        plan::unsafe_reason(plan@) is None && plan@.is_noop ==> (result matches Ok(done)
            && done.outcome@ == OutcomeView::Noop),
{
    let carried: Result<ApplyOutcome, Error> = apply::apply_plan_safely_with_controller(
        &plan,
        client,
        wait,
        confirmation,
    );
    let ghost first = error::told(carried);
    match carried {
        Err(error) => Err(
            Error::new(
                error.to_string().concat(
                    "\nPrevious layout:\n(authoritative transaction snapshot)\n",
                ).concat(format_snapshot(&snapshot).as_str()),
            ),
        ),
        Ok(ApplyOutcome::Noop) => {
            let final_state: Vec<MonitorState> = monitor::copied(&snapshot);
            Ok(
                ApplyTransactionResult {
                    outcome: ApplyOutcome::Noop,
                    execution: ApplyExecution::Noop,
                    plan,
                    snapshot,
                    final_state,
                    automatic_decision,
                },
            )
        },
        Ok(outcome) => match settle(&plan, outcome, client, wait) {
            Err(error) => Err(error),
            Ok((end, final_state)) => {
                let execution: ApplyExecution = execution_of(&end);
                Ok(
                    ApplyTransactionResult {
                        outcome: end,
                        execution,
                        plan,
                        snapshot,
                        final_state,
                        automatic_decision,
                    },
                )
            },
        },
    }
}

// ---------------------------------------------------------------------------
// The beginning
// ---------------------------------------------------------------------------
/// What became of an application.
#[derive(Debug, PartialEq)]
pub enum ApplyTransactionState {
    Completed(Box<ApplyTransactionResult>),
    NoAutomaticMatch { decision: AutoApplyDecision, snapshot: Vec<MonitorState> },
}

/// What an application is about to do.
#[derive(Debug, PartialEq)]
pub enum Preparation {
    Ready { plan: ApplyPlan, decision: Option<AutoApplyDecision> },
    NoAutomaticMatch { decision: AutoApplyDecision },
}

/// What a [`Preparation`] holds.
pub enum PreparationView {
    Ready { plan: PlanView, decision: Option<DecisionView> },
    NoAutomaticMatch { decision: DecisionView },
}

impl View for Preparation {
    type V = PreparationView;

    open spec fn view(&self) -> PreparationView {
        match self {
            Preparation::Ready { plan, decision } => PreparationView::Ready {
                plan: plan@,
                decision: match decision {
                    Some(decided) => Some(decided@),
                    None => None,
                },
            },
            Preparation::NoAutomaticMatch { decision } => PreparationView::NoAutomaticMatch {
                decision: decision@,
            },
        }
    }
}

/// `result` is what becomes of the selection `selected`.
pub open spec fn is_preparation_of(
    result: Result<PreparationView, Seq<char>>,
    head: Seq<char>,
    selected: Result<SelectionView, Seq<char>>,
    current: Seq<MonitorView>,
) -> bool {
    match selected {
        Err(reason) => result == Err::<PreparationView, _>(reason) && head == reason,
        Ok(SelectionView::NoAutomaticMatch { decision }) => result == Ok::<_, Seq<char>>(
            PreparationView::NoAutomaticMatch { decision },
        ),
        Ok(SelectionView::Chosen { profile, decision }) => is_planned(
            match result {
                Ok(PreparationView::Ready { plan, .. }) => Ok(plan),
                Ok(PreparationView::NoAutomaticMatch { .. }) => Err(seq![]),
                Err(reason) => Err(reason),
            },
            profile,
            current,
            mode_of(decision is Some),
        ) && (result matches Ok(prepared) ==> (prepared matches PreparationView::Ready {
            decision: kept,
            ..
        } && kept == decision)) && (result is Err ==> head
            == "failed to build apply plan from authoritative monitor topology"@),
    }
}

/// `result` is what `request` is about to do to the monitors `current`.
pub open spec fn is_preparation(
    result: Result<PreparationView, Seq<char>>,
    head: Seq<char>,
    request: ApplyTransactionRequest,
    profiles: Seq<ProfileView>,
    current: Seq<MonitorView>,
) -> bool {
    exists|selected: Result<SelectionView, Seq<char>>| #[trigger]
        is_selection(selected, request, profiles, current) && is_preparation_of(
            result,
            head,
            selected,
            current,
        )
}

/// Chooses the profile that `request` asks for and plans it.
pub fn prepare_transaction(
    request: ApplyTransactionRequest,
    store: &ProfileStore,
    snapshot: &Vec<MonitorState>,
) -> (result: Result<Preparation, Error>)
    requires
        matching::all_countable(store@, snapshot@.len()),
        plan::plannable(snapshot@.len()),
    ensures
        is_preparation(
            error::outcome(result),
            error::headline(result),
            request,
            store@,
            monitor::views(snapshot@),
        ),
{
    let selected: Result<ProfileSelection, Error> = select_profile(request, store, snapshot);
    let ghost chosen = error::outcome(selected);
    assert(is_selection(chosen, request, store@, monitor::views(snapshot@)));
    match selected {
        Err(error) => Err(error),
        Ok(ProfileSelection::NoAutomaticMatch { decision }) => Ok(
            Preparation::NoAutomaticMatch { decision },
        ),
        Ok(ProfileSelection::Chosen { profile, decision }) => match plan_selection(
            &profile,
            decision.is_some(),
            snapshot,
        ) {
            Err(error) => Err(error),
            Ok(plan) => Ok(Preparation::Ready { plan, decision }),
        },
    }
}

} // verus!
