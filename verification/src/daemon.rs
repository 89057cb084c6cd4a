//! Following the monitors as they come and go.
use vstd::prelude::*;

use crate::bytes;
use crate::bytes::truncate_utf8;
use crate::cli;
use crate::error;
use crate::error::Error;
use crate::hyprland::ipc::MonitorSocketEvent;
use crate::hyprland::monitor;
use crate::hyprland::monitor::{MonitorState, MonitorView};
use crate::profile::apply::{ApplyOutcome, OutcomeView};
use crate::profile::matching;
use crate::profile::matching::{
    best_profile_match, decide_auto_apply, format_auto_apply_decision, AutoApplyDecision,
    BestProfileMatch, DecisionView, MonitorMatchMode,
};
use crate::profile::plan;
use crate::profile::plan::{plan_apply_automatic, ApplyPlan, PlanView, WarningView};
use crate::profile::render;
use crate::profile::render::format_hyprctl_batch_command;
use crate::profile::store;
use crate::profile::store::{ProfileStore, ProfileView};
use crate::profile::transaction::{
    ApplyExecution, ApplyTransactionResult, ApplyTransactionState,
};
use crate::sort;
use crate::sort::Ranked;
use crate::text;

verus! {

/// How long to wait before connecting again, in nanoseconds.
pub const RECONNECT_DELAY: u64 = 2_000_000_000;

/// The longest log, in bytes.
pub const MAX_DAEMON_LOG_BYTES: u64 = 1_048_576;

/// How the daemon runs.
#[derive(Debug, PartialEq, Eq)]
pub struct DaemonOptions {
    pub once: bool,
    pub dry_run: bool,
    pub log_file: Option<String>,
    pub unattended: bool,
}

// ---------------------------------------------------------------------------
// Connections
// ---------------------------------------------------------------------------
/// Where monitor events come from.
pub trait MonitorEventInput {
    /// Waits for the next event.
    fn read_monitor_event(&mut self) -> Result<Option<MonitorSocketEvent>, Error>;

    /// Waits for the next event, at most so many nanoseconds.
    fn read_monitor_event_timeout(&mut self, timeout: u64) -> Result<
        Option<MonitorSocketEvent>,
        Error,
    >;
}

/// Connects to where monitor events come from.
pub trait MonitorEventConnector {
    /// What it connects to.
    type Input: MonitorEventInput;

    /// Connects.
    fn connect(&mut self) -> Result<Self::Input, Error>;
}

/// What is done with a connection.
pub trait ConnectionProcess<I: MonitorEventInput> {
    /// Follows the events until the connection ends.
    fn process(&mut self, input: &mut I) -> Result<(), Error>;
}

/// Tells the time and passes it.
pub trait DaemonClock {
    /// The nanoseconds since some moment.
    fn now(&self) -> u64;

    /// Lets so many nanoseconds pass.
    fn sleep(&mut self, duration: u64);
}

/// How a connection ended.
#[derive(Debug, PartialEq, Eq)]
pub enum ConnectionCycleOutcome {
    ConnectFailed(String),
    Disconnected(String),
}

/// What a [`ConnectionCycleOutcome`] holds.
pub enum CycleView {
    ConnectFailed(Seq<char>),
    Disconnected(Seq<char>),
}

impl View for ConnectionCycleOutcome {
    type V = CycleView;

    open spec fn view(&self) -> CycleView {
        match self {
            ConnectionCycleOutcome::ConnectFailed(reason) => CycleView::ConnectFailed(reason@),
            ConnectionCycleOutcome::Disconnected(reason) => CycleView::Disconnected(reason@),
        }
    }
}

/// How a connection ended: it could not be made, or what was done with it
/// ended.
pub open spec fn cycle_end(attempt: Result<Result<(), Error>, Error>) -> CycleView {
    match attempt {
        Err(error) => CycleView::ConnectFailed(error@),
        Ok(Err(error)) => CycleView::Disconnected(error@),
        Ok(Ok(())) => CycleView::Disconnected("Hyprland socket2 event input ended unexpectedly"@),
    }
}

/// How a connection ended.
pub fn connection_outcome(attempt: Result<Result<(), Error>, Error>) -> (result:
    ConnectionCycleOutcome)
    ensures
        result@ == cycle_end(attempt),
{
    match attempt {
        Err(error) => ConnectionCycleOutcome::ConnectFailed(error.to_string()),
        Ok(Err(error)) => ConnectionCycleOutcome::Disconnected(error.to_string()),
        Ok(Ok(())) => ConnectionCycleOutcome::Disconnected(
            "Hyprland socket2 event input ended unexpectedly".to_owned(),
        ),
    }
}

/// Connects once and follows the events until the connection ends.
pub fn run_connection_cycle<C: MonitorEventConnector, P: ConnectionProcess<C::Input>>(
    connector: &mut C,
    process: &mut P,
) -> (result: ConnectionCycleOutcome)
    ensures
        exists|lent: &mut C, connected: Result<C::Input, Error>|
            #![trigger call_ensures(C::connect, (lent,), connected)]
            call_ensures(C::connect, (lent,), connected) && *lent == *old(connector) && *final(lent)
                == *final(connector) && match connected {
                Err(error) => *final(process) == *old(process) && result@ == cycle_end(Err(error)),
                Ok(input) => exists|worker: &mut P, opened: &mut C::Input, ended: Result<(), Error>|
                    #![trigger call_ensures(P::process, (worker, opened), ended)]
                    call_ensures(P::process, (worker, opened), ended) && *worker == *old(process)
                        && *final(worker) == *final(process) && *opened == input && result@
                        == cycle_end(Ok(ended)),
            },
{
    let connect = C::connect;
    let follow = P::process;
    let attempt: Result<Result<(), Error>, Error> = match connect(connector) {
        Ok(mut input) => Ok(follow(process, &mut input)),
        Err(error) => Err(error),
    };
    connection_outcome(attempt)
}

/// Waits before connecting again.
pub fn wait_for_reconnect<C: DaemonClock>(clock: &mut C)
    ensures
        exists|lent: &mut C|
            #![trigger call_ensures(C::sleep, (lent, RECONNECT_DELAY), ())]
            call_ensures(C::sleep, (lent, RECONNECT_DELAY), ()) && *lent == *old(clock) && *final(lent)
                == *final(clock),
{
    let sleep = C::sleep;
    sleep(clock, RECONNECT_DELAY);
}

/// What is said of a connection that ended.
pub fn cycle_message(outcome: &ConnectionCycleOutcome) -> (result: String)
    ensures
        result@ == (match outcome@ {
            CycleView::ConnectFailed(reason) => "Could not connect to Hyprland socket2: "@ + reason,
            CycleView::Disconnected(reason) => "Socket2 disconnected: "@ + reason,
        }),
{
    match outcome {
        ConnectionCycleOutcome::ConnectFailed(reason) =>
            "Could not connect to Hyprland socket2: ".to_owned().concat(reason.as_str()),
        ConnectionCycleOutcome::Disconnected(reason) => "Socket2 disconnected: ".to_owned().concat(
            reason.as_str(),
        ),
    }
}

// ---------------------------------------------------------------------------
// Bursts of events
// ---------------------------------------------------------------------------
/// How much longer it must stay quiet: `debounce` after the last event, unless
/// that has passed.
pub open spec fn quiet_left(last: int, now: int, debounce: int) -> Option<int> {
    let elapsed = if now >= last {
        now - last
    } else {
        0
    };
    if elapsed >= debounce {
        None
    } else {
        Some(debounce - elapsed)
    }
}

/// How much longer it must stay quiet.
pub fn debounce_remaining(last_monitor_event: u64, now: u64, debounce: u64) -> (result: Option<u64>)
    ensures
        match (result, quiet_left(last_monitor_event as int, now as int, debounce as int)) {
            (Some(left), Some(expected)) => left == expected,
            (None, None) => true,
            _ => false,
        },
{
    let elapsed: u64 = if now >= last_monitor_event {
        now - last_monitor_event
    } else {
        0
    };
    if elapsed >= debounce {
        None
    } else {
        Some(debounce - elapsed)
    }
}

/// An event that came before it had been quiet for long enough.
pub struct HeardEvent {
    /// When it was listened for.
    pub now: u64,
    pub event: MonitorSocketEvent,
    /// When it had come.
    pub after: u64,
}

/// When it was last not quiet.
pub open spec fn last_heard(start: u64, heard: Seq<HeardEvent>) -> u64 {
    if heard.len() == 0 {
        start
    } else {
        heard.last().after
    }
}

/// Every event of `heard` came before it had been quiet for `debounce`.
pub open spec fn is_burst(start: u64, heard: Seq<HeardEvent>, debounce: u64) -> bool {
    forall|i: int|
        0 <= i < heard.len() ==> quiet_left(
            last_heard(start, #[trigger] heard.take(i)) as int,
            heard[i].now as int,
            debounce as int,
        ) is Some
}

/// The events of `heard`.
pub open spec fn events_of(heard: Seq<HeardEvent>) -> Seq<MonitorSocketEvent> {
    heard.map_values(|h: HeardEvent| h.event)
}

/// Some burst is made of `events`.
pub open spec fn make_a_burst(events: Seq<MonitorSocketEvent>, debounce: u64) -> bool {
    exists|start: u64, heard: Seq<HeardEvent>| #[trigger]
        is_burst(start, heard, debounce) && events == events_of(heard)
}

/// A call of `read_monitor_event_timeout` took `before` to `after` and gave
/// `reply`.
pub open spec fn listened<I: MonitorEventInput>(
    before: I,
    timeout: int,
    reply: Result<Option<MonitorSocketEvent>, Error>,
    after: I,
    back: spec_fn(&mut I) -> I,
) -> bool {
    exists|lent: &mut I, limit: u64| #[trigger]
        call_ensures(I::read_monitor_event_timeout, (lent, limit), reply) && *lent == before
            && back(lent) == after && limit == timeout
}

/// The clock said that it is `time`.
pub open spec fn said<C: DaemonClock>(clock: C, time: u64) -> bool {
    call_ensures(C::now, (&clock,), time)
}

/// The input went through `inputs`, one step for each of `heard`, each listened
/// for as long as it must stay quiet.
pub open spec fn took_in<I: MonitorEventInput, C: DaemonClock>(
    start: u64,
    heard: Seq<HeardEvent>,
    debounce: u64,
    clock: C,
    inputs: Seq<I>,
    back: spec_fn(&mut I) -> I,
) -> bool {
    &&& said(clock, start)
    &&& inputs.len() == heard.len() + 1
    &&& forall|i: int|
        0 <= i < heard.len() ==> {
            let last = last_heard(start, #[trigger] heard.take(i));
            &&& said(clock, heard[i].now)
            &&& said(clock, heard[i].after)
            &&& quiet_left(last as int, heard[i].now as int, debounce as int) matches Some(left)
                && listened(inputs[i], left, Ok(Some(heard[i].event)), inputs[i + 1], back)
        }
}

/// Listening ends after `heard` with `result`: it has been quiet for long enough,
/// nothing more came, or listening failed.
pub open spec fn stops<I: MonitorEventInput, C: DaemonClock>(
    start: u64,
    heard: Seq<HeardEvent>,
    debounce: u64,
    clock: C,
    before: I,
    after: I,
    back: spec_fn(&mut I) -> I,
    result: Result<Seq<MonitorSocketEvent>, Error>,
) -> bool {
    ||| heard.len() == usize::MAX && after == before && result == Ok::<_, Error>(events_of(heard))
    ||| exists|now: u64| #[trigger]
        said(clock, now) && match quiet_left(
            last_heard(start, heard) as int,
            now as int,
            debounce as int,
        ) {
            None => after == before && result == Ok::<_, Error>(events_of(heard)),
            Some(left) => exists|reply: Result<Option<MonitorSocketEvent>, Error>| #[trigger]
                listened(before, left, reply, after, back) && match reply {
                    Err(error) => result == Err::<Seq<MonitorSocketEvent>, _>(error),
                    Ok(None) => result == Ok::<_, Error>(events_of(heard)),
                    Ok(Some(_)) => false,
                },
        }
}

/// Listening took the input from `before` to `after` and ended with `result`.
pub open spec fn debounced<I: MonitorEventInput, C: DaemonClock>(
    debounce: u64,
    clock: C,
    before: I,
    after: I,
    back: spec_fn(&mut I) -> I,
    result: Result<Seq<MonitorSocketEvent>, Error>,
) -> bool {
    exists|start: u64, heard: Seq<HeardEvent>, inputs: Seq<I>| #[trigger]
        took_in(start, heard, debounce, clock, inputs, back) && inputs[0] == before && stops(
            start,
            heard,
            debounce,
            clock,
            inputs[heard.len() as int],
            after,
            back,
            result,
        )
}

/// The events that were taken in, or why they were not.
pub open spec fn burst_of(result: Result<Vec<MonitorSocketEvent>, Error>) -> Result<
    Seq<MonitorSocketEvent>,
    Error,
> {
    match result {
        Ok(events) => Ok(events@),
        Err(error) => Err(error),
    }
}

/// Takes in events until it has been quiet for `debounce` nanoseconds.
pub fn debounce_monitor_event_burst<I: MonitorEventInput, C: DaemonClock>(
    reader: &mut I,
    debounce: u64,
    clock: &C,
) -> (result: Result<Vec<MonitorSocketEvent>, Error>)
    ensures
        debounced(
            debounce,
            *clock,
            *old(reader),
            *final(reader),
            |lent: &mut I| *final(lent),
            burst_of(result),
        ),
        result matches Ok(events) ==> make_a_burst(events@, debounce),
        debounce == 0 ==> (result matches Ok(events) && events@.len() == 0),
{
    let ghost back = |lent: &mut I| *final(lent);
    let tell = C::now;
    let listen = I::read_monitor_event_timeout;
    let start: u64 = tell(clock);
    let mut last_monitor_event: u64 = start;
    let mut events: Vec<MonitorSocketEvent> = Vec::new();
    let ghost mut heard: Seq<HeardEvent> = seq![];
    let ghost mut inputs: Seq<I> = seq![*reader];
    assert(events@ =~= events_of(heard));
    while events.len() < usize::MAX
        invariant
            is_burst(start, heard, debounce),
            took_in(start, heard, debounce, *clock, inputs, back),
            inputs[0] == *old(reader),
            inputs[heard.len() as int] == *reader,
            back == (|lent: &mut I| *final(lent)),
            events@ == events_of(heard),
            last_monitor_event == last_heard(start, heard),
            debounce == 0 ==> heard.len() == 0,
        decreases usize::MAX - events@.len(),
    {
        let now: u64 = tell(clock);
        assert(said(*clock, now));
        let left: u64 = match debounce_remaining(last_monitor_event, now, debounce) {
            Some(left) => left,
            None => {
                assert(make_a_burst(events@, debounce));
                return Ok(events);
            },
        };
        let ghost before = *reader;
        let reply: Result<Option<MonitorSocketEvent>, Error> = listen(reader, left);
        assert(listened(before, left as int, reply, *reader, back));
        match reply {
            Err(error) => {
                return Err(error);
            },
            Ok(None) => {
                assert(make_a_burst(events@, debounce));
                return Ok(events);
            },
            Ok(Some(event)) => {
                events.push(event);
                last_monitor_event = tell(clock);
                assert(said(*clock, last_monitor_event));
                proof {
                    let before = heard;
                    let gone = inputs;
                    heard = heard.push(HeardEvent { now, event, after: last_monitor_event });
                    inputs = inputs.push(*reader);
                    assert(events@ =~= events_of(heard));
                    assert forall|i: int| 0 <= i < heard.len() implies {
                        let last = last_heard(start, #[trigger] heard.take(i));
                        &&& said(*clock, heard[i].now)
                        &&& said(*clock, heard[i].after)
                        &&& quiet_left(last as int, heard[i].now as int, debounce as int) matches Some(
                            left,
                        ) && listened(inputs[i], left, Ok(Some(heard[i].event)), inputs[i + 1], back)
                    } by {
                        if i < before.len() {
                            assert(heard.take(i) =~= before.take(i));
                            assert(inputs[i] == gone[i] && inputs[i + 1] == gone[i + 1]);
                        } else {
                            assert(heard.take(i) =~= before);
                        }
                    }
                }
            },
        }
    }
    assert(make_a_burst(events@, debounce));
    Ok(events)
}

// ---------------------------------------------------------------------------
// Holding back
// ---------------------------------------------------------------------------
impl Ranked for MonitorState {
    open spec fn ahead(a: MonitorView, b: MonitorView) -> bool {
        text::precedes(a.output_name, b.output_name)
    }

    fn is_ahead(&self, other: &Self) -> (result: bool) {
        text::comes_before(self.output_name.as_str(), other.output_name.as_str())
    }
}

/// Where a monitor is, as one line.
pub open spec fn place_line(monitor: MonitorView) -> Seq<char> {
    monitor.output_name + "\0"@ + monitor.id + "\0"@ + plan::bool_text(monitor.enabled) + "\0"@
        + text::int_text(monitor.x as int) + "\0"@ + text::int_text(monitor.y as int) + "\0"@
        + text::int_text(monitor.width as int) + "\0"@ + text::int_text(monitor.height as int)
        + "\0"@ + text::int_text(monitor.refresh_rate) + "\0"@ + text::int_text(monitor.scale)
        + "\0"@ + text::int_text(monitor.transform as int) + "\n"@
}

/// Where the first `n` monitors are, line by line.
pub open spec fn place_lines(monitors: Seq<MonitorView>, n: int) -> Seq<char>
    decreases n,
{
    if n <= 0 {
        seq![]
    } else {
        place_lines(monitors, n - 1) + place_line(monitors[n - 1])
    }
}

/// Where the monitors are, whatever order they come in.
pub open spec fn fingerprint(monitors: Seq<MonitorView>) -> Seq<char> {
    place_lines(sort::sorted::<MonitorState>(monitors), monitors.len() as int)
}

fn format_place(monitor: &MonitorState) -> (result: String)
    ensures
        result@ == place_line(monitor@),
{
    monitor.output_name.clone().concat("\0").concat(monitor.id.as_str()).concat("\0").concat(
        plan::bool_string(monitor.enabled),
    ).concat("\0").concat(text::decimal(monitor.x as i128).as_str()).concat("\0").concat(
        text::decimal(monitor.y as i128).as_str(),
    ).concat("\0").concat(text::decimal(monitor.width as i128).as_str()).concat("\0").concat(
        text::decimal(monitor.height as i128).as_str(),
    ).concat("\0").concat(text::decimal(monitor.refresh_rate.units()).as_str()).concat("\0").concat(
        text::decimal(monitor.scale.units()).as_str(),
    ).concat("\0").concat(text::decimal(monitor.transform as i128).as_str()).concat("\n")
}

/// Where the monitors are.
pub fn monitor_layout_fingerprint(monitors: &Vec<MonitorState>) -> (result: String)
    ensures
        result@ == fingerprint(monitor::views(monitors@)),
{
    let copy: Vec<MonitorState> = monitor::copied(monitors);
    assert(sort::held(copy@) =~= monitor::views(monitors@));
    let ordered: Vec<MonitorState> = sort::sort(copy);
    let ghost all = sort::held(ordered@);
    proof {
        sort::law_sorted::<MonitorState>(monitor::views(monitors@));
    }
    let mut result = String::new();
    let mut i: usize = 0;
    assert(result@ =~= place_lines(all, 0));
    while i < ordered.len()
        invariant
            i <= ordered@.len(),
            all == sort::held(ordered@),
            result@ == place_lines(all, i as int),
        decreases ordered@.len() - i,
    {
        assert(all[i as int] == ordered@[i as int]@);
        result = result.concat(format_place(&ordered[i]).as_str());
        i += 1;
    }
    result
}

/// An application that failed or was refused.
#[derive(Debug, PartialEq, Eq)]
pub struct SuppressedAttempt {
    pub profile_name: String,
    pub batch: String,
    pub observed_layout: String,
}

/// What a [`SuppressedAttempt`] holds.
#[verifier::ext_equal]
pub struct AttemptView {
    pub profile_name: Seq<char>,
    pub batch: Seq<char>,
    pub observed_layout: Seq<char>,
}

impl View for SuppressedAttempt {
    type V = AttemptView;

    open spec fn view(&self) -> AttemptView {
        AttemptView {
            profile_name: self.profile_name@,
            batch: self.batch@,
            observed_layout: self.observed_layout@,
        }
    }
}

/// What is remembered between applications.
#[derive(Debug, PartialEq, Eq)]
pub struct AutoSwitchState {
    suppressed_attempt: Option<SuppressedAttempt>,
    connected_once: bool,
}

/// What an [`AutoSwitchState`] holds.
#[verifier::ext_equal]
pub struct SwitchView {
    pub suppressed_attempt: Option<AttemptView>,
    pub connected_once: bool,
}

/// What an attempt holds, where there is one.
pub open spec fn attempt_view(attempt: Option<SuppressedAttempt>) -> Option<AttemptView> {
    match attempt {
        Some(attempt) => Some(attempt@),
        None => None,
    }
}

impl View for AutoSwitchState {
    type V = SwitchView;

    closed spec fn view(&self) -> SwitchView {
        SwitchView {
            suppressed_attempt: attempt_view(self.suppressed_attempt),
            connected_once: self.connected_once,
        }
    }
}

impl Default for AutoSwitchState {
    /// Nothing is remembered.
    fn default() -> (result: Self)
        ensures
            result@ == (SwitchView { suppressed_attempt: None, connected_once: false }),
    {
        AutoSwitchState { suppressed_attempt: None, connected_once: false }
    }
}

/// The attempt to apply `batch` of the profile `profile_name` to `monitors`.
pub open spec fn attempt_at(
    profile_name: Seq<char>,
    batch: Seq<char>,
    monitors: Seq<MonitorView>,
) -> AttemptView {
    AttemptView { profile_name, batch, observed_layout: fingerprint(monitors) }
}

impl SwitchView {
    /// The same, with another attempt held back.
    pub open spec fn holding(self, attempt: Option<AttemptView>) -> SwitchView {
        SwitchView { suppressed_attempt: attempt, ..self }
    }
}

impl AutoSwitchState {
    /// Whether an attempt is held back, which it is once: the same attempt, and
    /// the monitors where they were.
    pub fn consume_suppressed_attempt(
        &mut self,
        profile_name: &str,
        batch: &str,
        monitors: &Vec<MonitorState>,
    ) -> (result: bool)
        ensures
            result == (old(self)@.suppressed_attempt == Some(
                attempt_at(profile_name@, batch@, monitor::views(monitors@)),
            )),
            final(self)@ == old(self)@.holding(None),
    {
        let observed_layout: String = monitor_layout_fingerprint(monitors);
        let suppress: bool = match &self.suppressed_attempt {
            Some(attempt) => {
                let same: bool = text::same(attempt.profile_name.as_str(), profile_name)
                    && text::same(attempt.batch.as_str(), batch) && text::same(
                    attempt.observed_layout.as_str(),
                    observed_layout.as_str(),
                );
                assert(same == (attempt@ =~= attempt_at(
                    profile_name@,
                    batch@,
                    monitor::views(monitors@),
                )));
                same
            },
            None => false,
        };
        self.suppressed_attempt = None;
        suppress
    }

    /// Remembers an attempt that is to be held back.
    pub fn suppress_attempt(&mut self, profile_name: &str, batch: &str, monitors: &Vec<MonitorState>)
        ensures
            final(self)@ == old(self)@.holding(
                Some(attempt_at(profile_name@, batch@, monitor::views(monitors@))),
            ),
    {
        self.suppressed_attempt = Some(
            SuppressedAttempt {
                profile_name: profile_name.to_owned(),
                batch: batch.to_owned(),
                observed_layout: monitor_layout_fingerprint(monitors),
            },
        );
    }

    /// Remembers `attempt`.
    pub fn hold_back(&mut self, attempt: SuppressedAttempt)
        ensures
            final(self)@ == old(self)@.holding(Some(attempt@)),
    {
        self.suppressed_attempt = Some(attempt);
    }

    /// Holds nothing back.
    pub fn clear_suppression(&mut self)
        ensures
            final(self)@ == old(self)@.holding(None),
    {
        self.suppressed_attempt = None;
    }

    /// Whether there was a connection before this one.
    pub fn begin_socket_session(&mut self) -> (result: bool)
        ensures
            result == old(self)@.connected_once,
            final(self)@ == (SwitchView { connected_once: true, ..old(self)@ }),
    {
        let reconnecting: bool = self.connected_once;
        self.connected_once = true;
        reconnecting
    }
}

// ---------------------------------------------------------------------------
// Applying
// ---------------------------------------------------------------------------
/// What came of one automatic application.
#[derive(Debug, PartialEq, Eq)]
pub struct AutoApplyRun {
    pub decision: AutoApplyDecision,
    pub batch: Option<String>,
    pub applied: bool,
    pub skipped_noop: bool,
}

/// What an [`AutoApplyRun`] holds.
#[verifier::ext_equal]
pub struct RunView {
    pub decision: DecisionView,
    pub batch: Option<Seq<char>>,
    pub applied: bool,
    pub skipped_noop: bool,
}

impl View for AutoApplyRun {
    type V = RunView;

    open spec fn view(&self) -> RunView {
        RunView {
            decision: self.decision@,
            batch: match self.batch {
                Some(batch) => Some(batch@),
                None => None,
            },
            applied: self.applied,
            skipped_noop: self.skipped_noop,
        }
    }
}

/// What is said of a decision.
pub open spec fn decision_lines(decided: DecisionView) -> Seq<Seq<char>> {
    seq!["Auto-apply decision"@, matching::decision_text(decided, "Selected profile"@)]
}

/// What is said of warnings.
pub open spec fn warning_lines(warnings: Seq<WarningView>) -> Seq<Seq<char>> {
    warnings.map_values(|warning: WarningView| "Warning: "@ + warning.message())
}

/// What is said of a plan.
pub open spec fn plan_lines(plan: PlanView) -> Seq<Seq<char>> {
    seq!["Command: "@ + ("hyprctl --batch "@ + render::shell_word(plan.batch))] + warning_lines(
        plan.warnings,
    )
}

fn push_line(lines: &mut Vec<String>, line: String)
    ensures
        text::texts(final(lines)@) == text::texts(old(lines)@).push(line@),
{
    let ghost before = text::texts(lines@);
    let ghost said = line@;
    lines.push(line);
    assert(text::texts(lines@) =~= before.push(said));
}

fn push_decision(lines: &mut Vec<String>, decision: &AutoApplyDecision)
    ensures
        text::texts(final(lines)@) == text::texts(old(lines)@) + decision_lines(decision@),
{
    push_line(lines, "Auto-apply decision".to_owned());
    push_line(lines, format_auto_apply_decision(decision, "Selected profile"));
    assert(text::texts(lines@) =~= text::texts(old(lines)@) + decision_lines(decision@));
}

fn push_plan(lines: &mut Vec<String>, plan: &ApplyPlan)
    ensures
        text::texts(final(lines)@) == text::texts(old(lines)@) + plan_lines(plan@),
{
    let ghost first = text::texts(lines@);
    let ghost warnings = warning_lines(plan@.warnings);
    let command: String = "Command: ".to_owned().concat(
        format_hyprctl_batch_command(plan.batch.as_str()).as_str(),
    );
    let ghost said = command@;
    push_line(lines, command);
    let mut i: usize = 0;
    assert(text::texts(lines@) =~= first.push(said) + warnings.take(0));
    while i < plan.warnings.len()
        invariant
            i <= plan.warnings@.len(),
            warnings == warning_lines(plan@.warnings),
            text::texts(lines@) == first.push(said) + warnings.take(i as int),
        decreases plan.warnings@.len() - i,
    {
        assert(plan@.warnings[i as int] == plan.warnings@[i as int]@);
        push_line(
            lines,
            "Warning: ".to_owned().concat(plan.warnings[i].message().as_str()),
        );
        assert(text::texts(lines@) =~= first.push(said) + warnings.take(i + 1));
        i += 1;
    }
    assert(warnings.take(warnings.len() as int) =~= warnings);
    assert(text::texts(lines@) =~= first + plan_lines(plan@));
}

/// What is decided before a plan is carried out.
#[derive(Debug, PartialEq, Eq)]
pub struct Gate {
    /// It is carried out.
    pub proceed: bool,
    /// What is held back later, should it fail.
    pub attempted: Option<SuppressedAttempt>,
    pub lines: Vec<String>,
}

/// What a [`Gate`] holds.
#[verifier::ext_equal]
pub struct GateView {
    pub proceed: bool,
    pub attempted: Option<AttemptView>,
    pub lines: Seq<Seq<char>>,
}

impl View for Gate {
    type V = GateView;

    open spec fn view(&self) -> GateView {
        GateView {
            proceed: self.proceed,
            attempted: attempt_view(self.attempted),
            lines: text::texts(self.lines@),
        }
    }
}

/// The attempt to carry out `plan` is held back.
pub open spec fn held_back(state: SwitchView, plan: PlanView, monitors: Seq<MonitorView>) -> bool {
    !plan.is_noop && state.suppressed_attempt == Some(
        attempt_at(plan.profile_name, plan.batch, monitors),
    )
}

/// What is decided before `plan` is carried out.
pub open spec fn gate(
    state: SwitchView,
    plan: PlanView,
    monitors: Seq<MonitorView>,
    decided: Option<DecisionView>,
    unattended: bool,
) -> GateView {
    let held = held_back(state, plan, monitors);
    let told = (match decided {
        Some(decided) => decision_lines(decided),
        None => seq![],
    }) + plan_lines(plan);
    GateView {
        proceed: !held,
        attempted: if plan.is_noop || held {
            None
        } else {
            Some(attempt_at(plan.profile_name, plan.batch, monitors))
        },
        lines: if plan.is_noop || held || unattended {
            told
        } else {
            told.push("Waiting 15s for `y` confirmation after apply"@)
        },
    }
}

/// What is remembered after deciding whether `plan` is carried out: an attempt
/// is held back once.
pub open spec fn after_gate(state: SwitchView, plan: PlanView) -> SwitchView {
    if plan.is_noop {
        state
    } else {
        state.holding(None)
    }
}

/// Decides whether `plan` is carried out.
pub fn before_apply(
    state: &mut AutoSwitchState,
    plan: &ApplyPlan,
    snapshot: &Vec<MonitorState>,
    decision: &Option<AutoApplyDecision>,
    unattended: bool,
) -> (result: Gate)
    ensures
        result@ == gate(
            old(state)@,
            plan@,
            monitor::views(snapshot@),
            match *decision {
                Some(decided) => Some(decided@),
                None => None,
            },
            unattended,
        ),
        final(state)@ == after_gate(old(state)@, plan@),
{
    let mut lines: Vec<String> = Vec::new();
    assert(text::texts(lines@) =~= seq![]);
    match decision {
        Some(decided) => {
            push_decision(&mut lines, decided);
        },
        None => {},
    }
    push_plan(&mut lines, plan);
    if plan.is_noop {
        let done = Gate { proceed: true, attempted: None, lines };
        return done;
    }
    if state.consume_suppressed_attempt(
        plan.profile_name.as_str(),
        plan.batch.as_str(),
        snapshot,
    ) {
        return Gate { proceed: false, attempted: None, lines };
    }
    if !unattended {
        push_line(&mut lines, "Waiting 15s for `y` confirmation after apply".to_owned());
    }
    Gate {
        proceed: true,
        attempted: Some(
            SuppressedAttempt {
                profile_name: plan.profile_name.clone(),
                batch: plan.batch.clone(),
                observed_layout: monitor_layout_fingerprint(snapshot),
            },
        ),
        lines,
    }
}

/// How an application ended, in one line.
pub open spec fn outcome_line(plan: PlanView, outcome: OutcomeView) -> Seq<char> {
    match outcome {
        OutcomeView::Confirmed => "Confirmed profile `"@ + plan.profile_name + "` with "@
            + cli::rules_text(plan.rules.len() as int),
        OutcomeView::Unattended => "Applied profile `"@ + plan.profile_name + "` with "@
            + cli::rules_text(plan.rules.len() as int) + " without confirmation (--unattended)"@,
        OutcomeView::RolledBack { reason } => "Profile `"@ + plan.profile_name
            + "` was not confirmed ("@ + reason + "); previous monitor layout restored"@,
        OutcomeView::Noop => "No changes: selected profile is already active"@,
    }
}

fn format_outcome_line(plan: &ApplyPlan, outcome: &ApplyOutcome) -> (result: String)
    ensures
        result@ == outcome_line(plan@, outcome@),
{
    let name: &str = plan.profile_name.as_str();
    match outcome {
        ApplyOutcome::Confirmed => "Confirmed profile `".to_owned().concat(name).concat(
            "` with ",
        ).concat(cli::count_rules(plan.rules.len()).as_str()),
        ApplyOutcome::Unattended => "Applied profile `".to_owned().concat(name).concat(
            "` with ",
        ).concat(cli::count_rules(plan.rules.len()).as_str()).concat(
            " without confirmation (--unattended)",
        ),
        ApplyOutcome::RolledBack { reason } => "Profile `".to_owned().concat(name).concat(
            "` was not confirmed (",
        ).concat(reason.as_str()).concat("); previous monitor layout restored"),
        ApplyOutcome::Noop => "No changes: selected profile is already active".to_owned(),
    }
}

/// What came of one automatic application, and what is said of it.
#[derive(Debug, PartialEq, Eq)]
pub struct Conclusion {
    pub result: Result<AutoApplyRun, Error>,
    pub lines: Vec<String>,
}

/// What a [`Conclusion`] holds.
#[verifier::ext_equal]
pub struct ConclusionView {
    pub result: Result<RunView, Seq<char>>,
    pub lines: Seq<Seq<char>>,
}

impl View for Conclusion {
    type V = ConclusionView;

    open spec fn view(&self) -> ConclusionView {
        ConclusionView { result: error::outcome(self.result), lines: text::texts(self.lines@) }
    }
}

/// What came of an application that was completed.
pub open spec fn completion(done: ApplyTransactionResult) -> ConclusionView {
    match done.automatic_decision {
        None => ConclusionView {
            result: Err("automatic transaction did not return its selection decision"@),
            lines: seq![],
        },
        Some(decided) => if done.execution == ApplyExecution::Suppressed {
            ConclusionView {
                result: Ok(
                    RunView {
                        decision: decided@,
                        batch: Some(done.plan@.batch),
                        applied: false,
                        skipped_noop: true,
                    },
                ),
                lines: seq![
                    "No changes: identical failed or rejected apply remains suppressed"@,
                ],
            }
        } else {
            ConclusionView {
                result: Ok(
                    RunView {
                        decision: decided@,
                        batch: Some(done.plan@.batch),
                        applied: done.outcome@ is Confirmed || done.outcome@ is Unattended,
                        skipped_noop: done.outcome@ is Noop,
                    },
                ),
                lines: seq![outcome_line(done.plan@, done.outcome@)],
            }
        },
    }
}

/// What is remembered after an application that was completed: one that was
/// rolled back is held back, unless the monitors change.
pub open spec fn after_completion(state: SwitchView, done: ApplyTransactionResult) -> SwitchView {
    if done.automatic_decision is None || done.execution == ApplyExecution::Suppressed {
        state
    } else if done.outcome@ is RolledBack {
        state.holding(
            Some(
                attempt_at(
                    done.plan@.profile_name,
                    done.plan@.batch,
                    monitor::views(done.snapshot@),
                ),
            ),
        )
    } else {
        state.holding(None)
    }
}

/// What came of an automatic application.
pub open spec fn conclusion(transaction: Result<ApplyTransactionState, Error>) -> ConclusionView {
    match transaction {
        Err(error) => ConclusionView { result: Err(error@), lines: seq![] },
        Ok(ApplyTransactionState::NoAutomaticMatch { decision, snapshot }) => ConclusionView {
            result: Ok(
                RunView { decision: decision@, batch: None, applied: false, skipped_noop: false },
            ),
            lines: decision_lines(decision@).push(
                "Observed monitors: "@ + text::int_text(snapshot@.len() as int),
            ),
        },
        Ok(ApplyTransactionState::Completed(done)) => completion(*done),
    }
}

/// What is remembered after an automatic application.
pub open spec fn after_conclusion(
    state: SwitchView,
    attempted: Option<AttemptView>,
    transaction: Result<ApplyTransactionState, Error>,
) -> SwitchView {
    match transaction {
        Err(_) => if attempted is Some {
            state.holding(attempted)
        } else {
            state
        },
        Ok(ApplyTransactionState::NoAutomaticMatch { .. }) => state.holding(None),
        Ok(ApplyTransactionState::Completed(done)) => after_completion(state, *done),
    }
}

fn conclude_completed(state: &mut AutoSwitchState, done: ApplyTransactionResult) -> (result:
    Conclusion)
    ensures
        result@ == completion(done),
        final(state)@ == after_completion(old(state)@, done),
{
    let mut lines: Vec<String> = Vec::new();
    assert(text::texts(lines@) =~= seq![]);
    let decision: AutoApplyDecision = match done.automatic_decision {
        Some(decision) => decision,
        None => {
            return Conclusion {
                result: Err(
                    Error::new(
                        "automatic transaction did not return its selection decision".to_owned(),
                    ),
                ),
                lines,
            };
        },
    };
    if done.execution == ApplyExecution::Suppressed {
        push_line(
            &mut lines,
            "No changes: identical failed or rejected apply remains suppressed".to_owned(),
        );
        assert(text::texts(lines@) =~= completion(done).lines);
        return Conclusion {
            result: Ok(
                AutoApplyRun {
                    decision,
                    batch: Some(done.plan.batch.clone()),
                    applied: false,
                    skipped_noop: true,
                },
            ),
            lines,
        };
    }
    push_line(&mut lines, format_outcome_line(&done.plan, &done.outcome));
    assert(text::texts(lines@) =~= completion(done).lines);
    let applied: bool = match &done.outcome {
        ApplyOutcome::Confirmed => true,
        ApplyOutcome::Unattended => true,
        _ => false,
    };
    let skipped_noop: bool = match &done.outcome {
        ApplyOutcome::Noop => true,
        _ => false,
    };
    match &done.outcome {
        ApplyOutcome::RolledBack { .. } => {
            state.suppress_attempt(
                done.plan.profile_name.as_str(),
                done.plan.batch.as_str(),
                &done.snapshot,
            );
        },
        _ => {
            state.clear_suppression();
        },
    }
    Conclusion {
        result: Ok(
            AutoApplyRun { decision, batch: Some(done.plan.batch.clone()), applied, skipped_noop },
        ),
        lines,
    }
}

/// Concludes an automatic application.
pub fn conclude(
    state: &mut AutoSwitchState,
    attempted: Option<SuppressedAttempt>,
    transaction: Result<ApplyTransactionState, Error>,
) -> (result: Conclusion)
    ensures
        result@ == conclusion(transaction),
        final(state)@ == after_conclusion(old(state)@, attempt_view(attempted), transaction),
{
    match transaction {
        Err(error) => {
            match attempted {
                Some(attempt) => {
                    state.hold_back(attempt);
                },
                None => {},
            }
            let lines: Vec<String> = Vec::new();
            assert(text::texts(lines@) =~= seq![]);
            Conclusion { result: Err(error), lines }
        },
        Ok(ApplyTransactionState::NoAutomaticMatch { decision, snapshot }) => {
            let mut lines: Vec<String> = Vec::new();
            assert(text::texts(lines@) =~= seq![]);
            push_decision(&mut lines, &decision);
            push_line(
                &mut lines,
                "Observed monitors: ".to_owned().concat(
                    text::decimal(snapshot.len() as i128).as_str(),
                ),
            );
            assert(text::texts(lines@) =~= decision_lines(decision@).push(
                "Observed monitors: "@ + text::int_text(snapshot@.len() as int),
            ));
            state.clear_suppression();
            Conclusion {
                result: Ok(
                    AutoApplyRun { decision, batch: None, applied: false, skipped_noop: false },
                ),
                lines,
            }
        },
        Ok(ApplyTransactionState::Completed(done)) => conclude_completed(state, *done),
    }
}

// ---------------------------------------------------------------------------
// Trying out
// ---------------------------------------------------------------------------
/// What is said of a plan that is not carried out.
pub open spec fn rehearsal_lines(decided: DecisionView, plan: PlanView) -> Seq<Seq<char>> {
    decision_lines(decided) + plan_lines(plan) + (if plan.is_noop {
        seq!["No changes: selected profile is already active"@]
    } else {
        seq![]
    }).push("Dry run: monitor layout was not changed"@)
}

/// What comes of the plan `planned` when it is not carried out.
pub open spec fn rehearsed(decided: DecisionView, planned: Result<PlanView, Seq<char>>) -> ConclusionView {
    match planned {
        Err(reason) => ConclusionView { result: Err(reason), lines: decision_lines(decided) },
        Ok(plan) => ConclusionView {
            result: Ok(
                RunView {
                    decision: decided,
                    batch: Some(plan.batch),
                    applied: false,
                    skipped_noop: plan.is_noop,
                },
            ),
            lines: rehearsal_lines(decided, plan),
        },
    }
}

/// `result` is what comes of `decided` when it is not carried out, and `after`
/// is what is remembered then.
pub open spec fn is_rehearsal_of(
    result: ConclusionView,
    after: SwitchView,
    state: SwitchView,
    profiles: Seq<ProfileView>,
    current: Seq<MonitorView>,
    decided: DecisionView,
) -> bool {
    match decided {
        DecisionView::Apply { profile_name, .. } => match store::position_of(
            profiles,
            profile_name,
        ) {
            None => result == (ConclusionView {
                result: Err(store::missing_text(profile_name)),
                lines: decision_lines(decided),
            }) && after == state,
            Some(i) => is_rehearsed_profile(result, after, state, profiles[i], current, decided),
        },
        _ => result == (ConclusionView {
            result: Ok(
                RunView { decision: decided, batch: None, applied: false, skipped_noop: false },
            ),
            lines: decision_lines(decided),
        }) && after == state.holding(None),
    }
}

/// `result` is what comes of `profile` when it is not carried out.
pub open spec fn is_rehearsed_profile(
    result: ConclusionView,
    after: SwitchView,
    state: SwitchView,
    profile: ProfileView,
    current: Seq<MonitorView>,
    decided: DecisionView,
) -> bool {
    exists|planned: Result<PlanView, Seq<char>>| #[trigger]
        plan::is_plan(planned, profile, current, MonitorMatchMode::Automatic) && result
            == rehearsed(decided, planned) && after == (if planned matches Ok(plan)
            && plan.is_noop {
            state.holding(None)
        } else {
            state
        })
}

/// `result` is what comes of an automatic choice when it is not carried out.
pub open spec fn is_rehearsal(
    result: ConclusionView,
    after: SwitchView,
    state: SwitchView,
    profiles: Seq<ProfileView>,
    current: Seq<MonitorView>,
    fallback: Option<Seq<char>>,
) -> bool {
    exists|decided: DecisionView| #[trigger]
        matching::is_decision(decided, profiles, current, fallback) && is_rehearsal_of(
            result,
            after,
            state,
            profiles,
            current,
            decided,
        )
}

/// Chooses and plans, and carries nothing out.
pub fn rehearse(
    state: &mut AutoSwitchState,
    store: &ProfileStore,
    monitors: &Vec<MonitorState>,
    fallback_profile: Option<&str>,
) -> (result: Conclusion)
    requires
        matching::all_countable(store@, monitors@.len()),
        plan::plannable(monitors@.len()),
    ensures
        is_rehearsal(
            result@,
            final(state)@,
            old(state)@,
            store@,
            monitor::views(monitors@),
            cli::named(fallback_profile),
        ),
{
    let best: BestProfileMatch = best_profile_match(store, monitors);
    let decision: AutoApplyDecision = decide_auto_apply(store, &best, fallback_profile);
    let ghost decided = decision@;
    assert(matching::is_decision(
        decided,
        store@,
        monitor::views(monitors@),
        cli::named(fallback_profile),
    ));
    let mut lines: Vec<String> = Vec::new();
    assert(text::texts(lines@) =~= seq![]);
    push_decision(&mut lines, &decision);
    assert(text::texts(lines@) =~= decision_lines(decided));
    let found: Option<usize> = match &decision {
        AutoApplyDecision::Apply { profile_name, .. } => match store.position(
            profile_name.as_str(),
        ) {
            Some(i) => Some(i),
            None => {
                return Conclusion {
                    result: Err(
                        Error::new(
                            "profile `".to_owned().concat(profile_name.as_str()).concat(
                                "` does not exist",
                            ),
                        ),
                    ),
                    lines,
                };
            },
        },
        _ => None,
    };
    let i: usize = match found {
        Some(i) => i,
        None => {
            state.clear_suppression();
            return Conclusion {
                result: Ok(
                    AutoApplyRun { decision, batch: None, applied: false, skipped_noop: false },
                ),
                lines,
            };
        },
    };
    assert(store@[i as int] == store.profiles@[i as int]@);
    let ghost profile = store@[i as int];
    let planned: Result<ApplyPlan, Error> = plan_apply_automatic(&store.profiles[i], monitors);
    let ghost view = error::outcome(planned);
    assert(plan::is_plan(view, profile, monitor::views(monitors@), MonitorMatchMode::Automatic));
    let plan: ApplyPlan = match planned {
        Ok(plan) => plan,
        Err(error) => {
            let result = Conclusion { result: Err(error), lines };
            assert(is_rehearsed_profile(
                result@,
                state@,
                old(state)@,
                profile,
                monitor::views(monitors@),
                decided,
            ));
            return result;
        },
    };
    push_plan(&mut lines, &plan);
    if plan.is_noop {
        state.clear_suppression();
        push_line(&mut lines, "No changes: selected profile is already active".to_owned());
    }
    push_line(&mut lines, "Dry run: monitor layout was not changed".to_owned());
    assert(text::texts(lines@) =~= rehearsal_lines(decided, plan@));
    let skipped_noop: bool = plan.is_noop;
    let result = Conclusion {
        result: Ok(
            AutoApplyRun { decision, batch: Some(plan.batch), applied: false, skipped_noop },
        ),
        lines,
    };
    assert(is_rehearsed_profile(
        result@,
        state@,
        old(state)@,
        profile,
        monitor::views(monitors@),
        decided,
    ));
    result
}

// ---------------------------------------------------------------------------
// The log
// ---------------------------------------------------------------------------
/// What becomes of a message.
#[derive(Debug, PartialEq, Eq)]
pub struct LogEntry {
    pub text: String,
    /// The log is put aside first.
    pub rotate: bool,
    /// How long the log is then, in bytes.
    pub bytes_written: u64,
}

/// What a [`LogEntry`] holds.
#[verifier::ext_equal]
pub struct EntryView {
    pub text: Seq<char>,
    pub rotate: bool,
    pub bytes_written: int,
}

impl View for LogEntry {
    type V = EntryView;

    open spec fn view(&self) -> EntryView {
        EntryView {
            text: self.text@,
            rotate: self.rotate,
            bytes_written: self.bytes_written as int,
        }
    }
}

/// A number that does not grow beyond what can be counted.
pub open spec fn counted(n: int) -> int {
    if n > u64::MAX {
        u64::MAX as int
    } else {
        n
    }
}

/// What becomes of `message` where the log, if there is one, is so long.
pub open spec fn entry_for(message: Seq<char>, to_file: bool, bytes_written: int) -> EntryView {
    let shown = bytes::fitting(text::sanitized(message, true), (MAX_DAEMON_LOG_BYTES - 1) as nat);
    let added = text::byte_len(shown) + 1;
    let rotate = to_file && bytes_written > 0 && bytes_written + added > MAX_DAEMON_LOG_BYTES;
    EntryView {
        text: shown,
        rotate,
        bytes_written: if !to_file {
            bytes_written
        } else if rotate {
            added as int
        } else {
            counted(bytes_written + added)
        },
    }
}

/// What becomes of `message`.
pub fn log_entry(message: &str, to_file: bool, bytes_written: u64) -> (result: LogEntry)
    ensures
        result@ == entry_for(message@, to_file, bytes_written as int),
{
    let sanitized: String = text::sanitize_multiline_text(message);
    let shown: String = truncate_utf8(sanitized.as_str(), 1_048_575);
    proof {
        bytes::law_cut_text_fits(sanitized@, 1_048_575);
    }
    let added: u64 = text::bytes_in(shown.as_str()) as u64 + 1;
    let rotate: bool = to_file && bytes_written > 0 && (bytes_written > MAX_DAEMON_LOG_BYTES
        || bytes_written + added > MAX_DAEMON_LOG_BYTES);
    let total: u64 = if !to_file {
        bytes_written
    } else if rotate {
        added
    } else if added > u64::MAX - bytes_written {
        u64::MAX
    } else {
        bytes_written + added
    };
    LogEntry { text: shown, rotate, bytes_written: total }
}

/// Whether a log of so many bytes is put aside before it is used.
pub fn rotates_at_start(bytes_written: u64) -> (result: bool)
    ensures
        result == (bytes_written >= MAX_DAEMON_LOG_BYTES),
{
    bytes_written >= MAX_DAEMON_LOG_BYTES
}

/// Where the part begins that is kept of a log that was put aside, if not all
/// of it is.
pub fn kept_from(length: u64) -> (result: Option<u64>)
    ensures
        result == (if length <= MAX_DAEMON_LOG_BYTES {
            None
        } else {
            Some((length - MAX_DAEMON_LOG_BYTES) as u64)
        }),
{
    if length <= MAX_DAEMON_LOG_BYTES {
        None
    } else {
        Some(length - MAX_DAEMON_LOG_BYTES)
    }
}

/// What is said when the daemon starts to listen.
pub fn startup_lines(debounce_ms: u64, unattended: bool) -> (result: Vec<String>)
    ensures
        text::texts(result@) == seq![
            "HyprDisJust daemon started"@,
            "Debounce: "@ + text::int_text(debounce_ms as int) + "ms"@,
            if unattended {
                "Safety: unattended applies explicitly enabled"@
            } else {
                "Safety: each apply requires `y` confirmation within 15 seconds"@
            },
        ],
{
    let mut lines: Vec<String> = Vec::new();
    lines.push("HyprDisJust daemon started".to_owned());
    lines.push(
        "Debounce: ".to_owned().concat(text::decimal(debounce_ms as i128).as_str()).concat("ms"),
    );
    lines.push(
        if unattended {
            "Safety: unattended applies explicitly enabled".to_owned()
        } else {
            "Safety: each apply requires `y` confirmation within 15 seconds".to_owned()
        },
    );
    assert(text::texts(lines@) =~= seq![
        "HyprDisJust daemon started"@,
        "Debounce: "@ + text::int_text(debounce_ms as int) + "ms"@,
        if unattended {
            "Safety: unattended applies explicitly enabled"@
        } else {
            "Safety: each apply requires `y` confirmation within 15 seconds"@
        },
    ]);
    lines
}

// ---------------------------------------------------------------------------
// Laws
// ---------------------------------------------------------------------------
/// An attempt that was rolled back is not repeated while the monitors stay
/// where they are, but it is held back only once: the next time it is made
/// again.
pub proof fn law_rejection_holds_back_once(
    state: SwitchView,
    done: ApplyTransactionResult,
    decided: Option<DecisionView>,
    unattended: bool,
)
    requires
        done.automatic_decision is Some,
        done.execution != ApplyExecution::Suppressed,
        done.outcome@ is RolledBack,
        !done.plan@.is_noop,
    ensures
        ({
            let monitors = monitor::views(done.snapshot@);
            let rejected = after_completion(state, done);
            let next = after_gate(rejected, done.plan@);
            &&& !gate(rejected, done.plan@, monitors, decided, unattended).proceed
            &&& gate(next, done.plan@, monitors, decided, unattended).proceed
        }),
{
}

/// An attempt that failed is not repeated while the fingerprint of the monitors
/// is what it was, and is made again once it is another.
pub proof fn law_failure_holds_back_while_unchanged(
    state: SwitchView,
    plan: PlanView,
    monitors: Seq<MonitorView>,
    later: Seq<MonitorView>,
    error: Error,
    decided: Option<DecisionView>,
    unattended: bool,
)
    requires
        !plan.is_noop,
        gate(state, plan, monitors, decided, unattended).proceed,
    ensures
        ({
            let attempted = gate(state, plan, monitors, decided, unattended).attempted;
            let failed = after_conclusion(after_gate(state, plan), attempted, Err(error));
            gate(failed, plan, later, decided, unattended).proceed <==> fingerprint(later)
                != fingerprint(monitors)
        }),
{
    let attempted = gate(state, plan, monitors, decided, unattended).attempted;
    let failed = after_conclusion(
        after_gate(state, plan),
        attempted,
        Err::<ApplyTransactionState, Error>(error),
    );
    assert(failed.suppressed_attempt == Some(attempt_at(plan.profile_name, plan.batch, monitors)));
    if fingerprint(later) == fingerprint(monitors) {
        assert(attempt_at(plan.profile_name, plan.batch, later) == attempt_at(
            plan.profile_name,
            plan.batch,
            monitors,
        ));
    } else {
        assert(attempt_at(plan.profile_name, plan.batch, later).observed_layout != attempt_at(
            plan.profile_name,
            plan.batch,
            monitors,
        ).observed_layout);
    }
}

/// It never has to stay quiet for longer than the debounce time, an event just
/// now asks for all of it, and once it has been quiet for that long nothing is
/// left.
pub proof fn law_quiet_is_bounded(last: int, now: int, debounce: int)
    requires
        0 <= debounce,
    ensures
        quiet_left(last, now, debounce) matches Some(left) ==> 0 < left <= debounce,
        debounce > 0 ==> quiet_left(last, last, debounce) == Some(debounce),
        now >= last + debounce ==> quiet_left(last, now, debounce) is None,
        quiet_left(last, now, debounce) matches Some(left) ==> now >= last ==> quiet_left(
            last,
            now + left,
            debounce,
        ) is None,
{
}

/// The log never grows beyond its limit.
pub proof fn law_log_stays_bounded(message: Seq<char>, bytes_written: int)
    requires
        0 <= bytes_written <= MAX_DAEMON_LOG_BYTES,
    ensures
        0 < entry_for(message, true, bytes_written).bytes_written <= MAX_DAEMON_LOG_BYTES,
{
    bytes::law_cut_text_fits(text::sanitized(message, true), 1_048_575);
}

} // verus!
