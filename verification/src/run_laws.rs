//! When the daemon acts, and what it says of it.
use vstd::prelude::*;

use crate::bytes;
use crate::daemon;
use crate::daemon::{AttemptView, ConclusionView, HeardEvent, LogEntry, SwitchView};
use crate::daemon_laws;
use crate::error::Error;
use crate::hyprland::monitor::MonitorView;
use crate::profile::matching::DecisionView;
use crate::profile::plan::PlanView;
use crate::profile::store::ProfileView;
use crate::profile::transaction::{
    ApplyExecution, ApplyTransactionResult, ApplyTransactionState,
};
use crate::text;

verus! {

// ---------------------------------------------------------------------------
// Bursts
// ---------------------------------------------------------------------------
/// After an event it must stay quiet until as much time has passed as was asked for: what
/// is left and what has passed make it up. Where the clock was set back, nothing has
/// passed.
pub proof fn law_quiet_time_runs_out(last: int, now: int, debounce: int)
    requires
        0 <= debounce,
    ensures
        now >= last ==> (daemon::quiet_left(last, now, debounce) is None <==> now >= last
            + debounce),
        now >= last ==> (daemon::quiet_left(last, now, debounce) matches Some(left) ==> now + left
            == last + debounce),
        now < last && debounce > 0 ==> daemon::quiet_left(last, now, debounce) == Some(debounce),
{
}

/// Each event of a burst was listened for before it had been quiet for long enough after
/// the one before.
pub proof fn law_bursts_have_no_long_pause(
    start: u64,
    heard: Seq<HeardEvent>,
    debounce: u64,
    i: int,
)
    requires
        daemon::is_burst(start, heard, debounce),
        0 <= i < heard.len(),
    ensures
        i == 0 ==> heard[0].now < start + debounce,
        i > 0 ==> heard[i].now < heard[i - 1].after + debounce,
{
    assert(daemon::quiet_left(
        daemon::last_heard(start, heard.take(i)) as int,
        heard[i].now as int,
        debounce as int,
    ) is Some);
    if i > 0 {
        assert(heard.take(i).last() == heard[i - 1]);
    }
}

/// A connection that could not be made is told from one that ended, and the reason is
/// kept.
pub proof fn law_connections_end_as_they_did(attempt: Result<Result<(), Error>, Error>)
    ensures
        daemon::cycle_end(attempt) is ConnectFailed <==> attempt is Err,
        attempt matches Err(error) ==> (daemon::cycle_end(attempt)
            matches daemon::CycleView::ConnectFailed(reason) && reason == error@),
        attempt matches Ok(Err(error)) ==> (daemon::cycle_end(attempt)
            matches daemon::CycleView::Disconnected(reason) && reason == error@),
{
}

// ---------------------------------------------------------------------------
// Applying
// ---------------------------------------------------------------------------
/// An application counts as applied exactly where the layout was confirmed or kept
/// unattended, and as skipped where it was held back or there was nothing to do; one that
/// was rolled back is neither.
pub proof fn law_runs_say_what_was_done(done: ApplyTransactionResult)
    requires
        done.automatic_decision is Some,
    ensures
        daemon::completion(done).result matches Ok(run) && {
            let held = done.execution == ApplyExecution::Suppressed;
            &&& run.applied <==> !held && (done.outcome@ is Confirmed || done.outcome@
                is Unattended)
            &&& run.skipped_noop <==> held || done.outcome@ is Noop
            &&& done.outcome@ is RolledBack && !held ==> !run.applied && !run.skipped_noop
            &&& run.batch == Some(done.plan@.batch)
        },
{
}

/// Once a layout was applied, there was nothing to do, or no profile fits the monitors,
/// nothing is held back any more. A failure holds back what was attempted, and what was
/// held back already where nothing was.
pub proof fn law_success_holds_nothing_back(
    state: SwitchView,
    attempted: Option<AttemptView>,
    transaction: Result<ApplyTransactionState, Error>,
)
    ensures
        ({
            let after = daemon::after_conclusion(state, attempted, transaction);
            &&& after.connected_once == state.connected_once
            &&& transaction is Err && attempted is Some ==> after.suppressed_attempt == attempted
            &&& transaction is Err && attempted is None ==> after == state
            &&& (transaction matches Ok(end) ==> end is NoAutomaticMatch ==> after.suppressed_attempt
                is None)
            &&& (transaction matches Ok(ApplyTransactionState::Completed(done)) ==> {
                let decided = done.automatic_decision is Some && done.execution
                    != ApplyExecution::Suppressed;
                &&& decided && !(done.outcome@ is RolledBack) ==> after.suppressed_attempt is None
                &&& decided && done.outcome@ is RolledBack ==> (after.suppressed_attempt
                    matches Some(held) && held.profile_name == done.plan@.profile_name
                    && held.batch == done.plan@.batch)
                &&& !decided ==> after == state
            })
        }),
{
}

/// A plan that would change nothing is never held back, and nothing is remembered of it;
/// any other is remembered as attempted exactly where it is let through.
pub proof fn law_plans_without_effect_pass(
    state: SwitchView,
    plan: PlanView,
    monitors: Seq<MonitorView>,
    decided: Option<DecisionView>,
    unattended: bool,
)
    ensures
        ({
            let gate = daemon::gate(state, plan, monitors, decided, unattended);
            &&& plan.is_noop ==> gate.proceed && gate.attempted is None && daemon::after_gate(
                state,
                plan,
            ) == state
            &&& !plan.is_noop ==> (gate.attempted is Some <==> gate.proceed)
            &&& gate.attempted matches Some(attempt) ==> attempt.profile_name == plan.profile_name
                && attempt.batch == plan.batch
            &&& state.suppressed_attempt is None ==> gate.proceed
        }),
{
}

/// A rehearsal applies nothing, whatever is chosen.
pub proof fn law_rehearsals_apply_nothing(
    result: ConclusionView,
    after: SwitchView,
    state: SwitchView,
    profiles: Seq<ProfileView>,
    current: Seq<MonitorView>,
    fallback: Option<Seq<char>>,
)
    requires
        daemon::is_rehearsal(result, after, state, profiles, current, fallback),
    ensures
        result.result matches Ok(run) ==> !run.applied,
        after.connected_once == state.connected_once,
        after.suppressed_attempt == state.suppressed_attempt || after.suppressed_attempt is None,
{
}

/// Every change of an output is seen: where fingerprints are one, each output is to be
/// found again with its identity, on or off, in its place, with its size, rate, scale and
/// turn; unless a name or an identity holds a NUL.
pub proof fn law_every_change_is_seen(a: Seq<MonitorView>, b: Seq<MonitorView>, i: int)
    requires
        daemon::fingerprint(a) == daemon::fingerprint(b),
        daemon_laws::nul_free(a),
        daemon_laws::nul_free(b),
        0 <= i < a.len(),
    ensures
        a.len() == b.len(),
        exists|j: int|
            0 <= j < b.len() && (#[trigger] b[j]).output_name == a[i].output_name && b[j].id
                == a[i].id && b[j].enabled == a[i].enabled && b[j].x == a[i].x && b[j].y == a[i].y
                && b[j].width == a[i].width && b[j].height == a[i].height && b[j].refresh_rate
                == a[i].refresh_rate && b[j].scale == a[i].scale && b[j].transform
                == a[i].transform,
{
    daemon_laws::law_one_fingerprint_means_same_outputs(a, b);
    let place = daemon_laws::place_of(a[i]);
    assert(daemon_laws::shows(a, place));
    assert(daemon_laws::shows(b, place));
    let j = choose|j: int| 0 <= j < b.len() && #[trigger] daemon_laws::place_of(b[j]) == place;
    assert(b[j].output_name == a[i].output_name);
}

// ---------------------------------------------------------------------------
// The log
// ---------------------------------------------------------------------------
/// The log never grows beyond its limit: an entry and its line end fit in it, and the log
/// is put aside first exactly where they do not fit behind what is there. What is not
/// written to a file is not counted.
pub proof fn law_log_stays_in_its_limit(
    message: &str,
    to_file: bool,
    bytes_written: u64,
    entry: LogEntry,
)
    requires
        call_ensures(daemon::log_entry, (message, to_file, bytes_written), entry),
        bytes_written <= 1_048_576,
    ensures
        text::byte_len(entry.text@) + 1 <= 1_048_576,
        entry.bytes_written <= 1_048_576,
        !to_file ==> !entry.rotate && entry.bytes_written == bytes_written,
        to_file ==> (entry.rotate <==> bytes_written > 0 && bytes_written + text::byte_len(
            entry.text@,
        ) + 1 > 1_048_576),
        to_file && entry.rotate ==> entry.bytes_written == text::byte_len(entry.text@) + 1,
        to_file && !entry.rotate ==> entry.bytes_written == bytes_written + text::byte_len(
            entry.text@,
        ) + 1,
{
    let limit: nat = (daemon::MAX_DAEMON_LOG_BYTES - 1) as nat;
    bytes::law_cut_text_fits(text::sanitized(message@, true), limit);
}

/// Of a log that was put aside the last part is kept, as long as the limit.
pub proof fn law_last_part_of_a_log_is_kept(length: u64, from: Option<u64>)
    requires
        call_ensures(daemon::kept_from, (length,), from),
    ensures
        from is None <==> length <= 1_048_576,
        from matches Some(from) ==> length - from == 1_048_576,
{
}

} // verus!
