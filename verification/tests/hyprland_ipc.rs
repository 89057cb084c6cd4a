use std::cell::Cell;
use std::collections::VecDeque;
use std::rc::Rc;

use hyprdisjust::daemon::{
    cycle_message, debounce_monitor_event_burst, debounce_remaining, kept_from, log_entry,
    rotates_at_start, run_connection_cycle, startup_lines, wait_for_reconnect, AutoSwitchState,
    ConnectionCycleOutcome, ConnectionProcess, DaemonClock, MonitorEventConnector,
    MonitorEventInput, MAX_DAEMON_LOG_BYTES,
};
use hyprdisjust::error::Error;
use hyprdisjust::hyprland::ipc::{
    discover_socket2_path_with, parse_monitor_event, resolve_socket2_path_with, socket2_path,
    validate_signature, ConfiguredInstance, FileFacts, FrameBuffer, InstanceEntry,
    MonitorSocketEvent,
};
use hyprdisjust::hyprland::monitor::{normalize_monitors, MonitorState, RawHyprMonitor};
use hyprdisjust::number::{parse_rate, Decimal, Rate};
use serde_json::Value;

const DESK: &str = r#"[
  {
    "id": 0,
    "name": "DP-1",
    "description": "LG Electronics LG ULTRAGEAR 12345",
    "make": "LG Electronics",
    "model": "LG ULTRAGEAR",
    "serial": "12345",
    "width": 2560,
    "height": 1440,
    "physicalWidth": 600,
    "physicalHeight": 340,
    "refreshRate": 144.0,
    "x": 0,
    "y": 0,
    "scale": 1.0,
    "transform": 0,
    "disabled": false,
    "availableModes": ["2560x1440@144.00Hz", "1920x1080@60.00Hz"]
  },
  {
    "id": 1,
    "name": "eDP-1",
    "description": "BOE Internal Panel",
    "make": "BOE",
    "model": "Internal Panel",
    "serial": "",
    "width": 1920,
    "height": 1200,
    "physicalWidth": 300,
    "physicalHeight": 190,
    "refreshRate": 60.0,
    "x": 2560,
    "y": 240,
    "scale": 1.0,
    "transform": 0,
    "disabled": false,
    "availableModes": ["1920x1200@60.00Hz"]
  }
]"#;

fn decimal(text: &str) -> Decimal {
    match parse_rate(text) {
        Some(Rate::Finite(number)) => number,
        other => panic!("{text} is read as {other:?}"),
    }
}

fn text_of(entry: &Value, key: &str) -> String {
    entry[key].as_str().unwrap_or("").to_owned()
}

fn integer_of(entry: &Value, key: &str) -> i32 {
    entry[key].as_i64().unwrap_or(0) as i32
}

fn raw_monitor(entry: &Value) -> RawHyprMonitor {
    RawHyprMonitor {
        id: entry["id"].as_i64().unwrap_or(0),
        name: text_of(entry, "name"),
        description: text_of(entry, "description"),
        make: text_of(entry, "make"),
        model: text_of(entry, "model"),
        serial: text_of(entry, "serial"),
        width: integer_of(entry, "width"),
        height: integer_of(entry, "height"),
        physical_width: integer_of(entry, "physicalWidth"),
        physical_height: integer_of(entry, "physicalHeight"),
        refresh_rate: decimal(&entry["refreshRate"].to_string()),
        x: integer_of(entry, "x"),
        y: integer_of(entry, "y"),
        scale: match entry["scale"].is_null() {
            true => Decimal::whole(1),
            false => decimal(&entry["scale"].to_string()),
        },
        transform: integer_of(entry, "transform"),
        disabled: entry["disabled"].as_bool().unwrap_or(false),
        available_modes: match entry["availableModes"].as_array() {
            Some(modes) => modes
                .iter()
                .map(|mode| mode.as_str().unwrap().to_owned())
                .collect(),
            None => vec![],
        },
    }
}

fn parse_raw_monitors(json: &str) -> Vec<RawHyprMonitor> {
    let entries: Vec<Value> = serde_json::from_str(json).unwrap();
    entries.iter().map(raw_monitor).collect()
}

fn parse_monitors_output(json: &str) -> Vec<MonitorState> {
    normalize_monitors(parse_raw_monitors(json))
}

#[test]
fn parses_socket2_monitor_events() {
    assert_eq!(
        parse_monitor_event("monitoradded>>DP-1\n"),
        Some(MonitorSocketEvent::Added)
    );
    assert_eq!(
        parse_monitor_event("monitorremoved>>DP-1\n"),
        Some(MonitorSocketEvent::Removed)
    );
    assert_eq!(
        parse_monitor_event("monitoraddedv2>>1,DP-1,Acme Panel\n"),
        Some(MonitorSocketEvent::AddedV2)
    );
    assert_eq!(
        parse_monitor_event("monitorremovedv2>>1,DP-1,Acme Panel\r\n"),
        Some(MonitorSocketEvent::RemovedV2)
    );
}

#[test]
fn ignores_unrelated_socket2_events() {
    assert_eq!(parse_monitor_event("workspace>>2\n"), None);
    assert_eq!(parse_monitor_event("monitoradded"), None);
    assert_eq!(parse_monitor_event(""), None);
}

#[test]
fn malformed_monitor_events_are_ignored_deterministically() {
    assert_eq!(parse_monitor_event("monitoradded>>\n"), None);
    assert_eq!(parse_monitor_event("monitorremovedv2>>bad-id,DP-1\n"), None);
    assert_eq!(
        parse_monitor_event("monitoraddedv2>>1,,description\n"),
        None
    );
}

#[test]
fn builds_socket2_path() {
    let path = socket2_path("/run/user/1000", "signature");

    assert_eq!(path, "/run/user/1000/hypr/signature/.socket2.sock");
}

fn directory() -> FileFacts {
    FileFacts {
        symlink: false,
        directory: true,
        socket: false,
        uid: 1000,
        mode: 0o40700,
    }
}

fn instance(name: &str, live: bool) -> InstanceEntry {
    InstanceEntry {
        name: name.to_owned(),
        facts: directory(),
        live,
    }
}

#[test]
fn discovers_single_socket2_path_from_runtime_dir() {
    let entries = vec![instance("signature", true)];

    assert_eq!(
        discover_socket2_path_with("/run/user/1000", &entries, 1000).unwrap(),
        "/run/user/1000/hypr/signature/.socket2.sock"
    );
}

#[test]
fn refuses_ambiguous_socket2_discovery() {
    let entries = vec![instance("one", true), instance("two", true)];

    let error = discover_socket2_path_with("/run/user/1000", &entries, 1000)
        .unwrap_err()
        .to_string();

    assert!(error.contains("multiple socket2 sockets"));
}

#[test]
fn stale_instance_signature_falls_back_to_the_unique_live_socket() {
    let configured = Some(ConfiguredInstance {
        signature: "stale-signature".to_owned(),
        directory: None,
        live: false,
    });
    let entries = vec![instance("new-signature", true)];

    let resolved =
        resolve_socket2_path_with("/run/user/1000", &configured, &entries, 1000).unwrap();

    assert_eq!(
        resolved,
        "/run/user/1000/hypr/new-signature/.socket2.sock"
    );
}

#[test]
fn a_stale_instance_without_a_replacement_is_told_under_its_socket() {
    let configured = Some(ConfiguredInstance {
        signature: "stale".to_owned(),
        directory: None,
        live: false,
    });

    let error =
        resolve_socket2_path_with("/run/user/1000", &configured, &vec![], 1000).unwrap_err();
    assert_eq!(
        error.headline(),
        "configured Hyprland socket2 /run/user/1000/hypr/stale/.socket2.sock is unavailable and no unique live replacement could be discovered"
    );
    assert!(error
        .message()
        .ends_with("no socket2 socket was found in /run/user/1000/hypr"));

    let error = resolve_socket2_path_with("/run/user/1000", &None, &vec![], 1000).unwrap_err();
    assert_eq!(error.headline(), error.message());
}

#[test]
fn discovery_passes_over_dead_and_foreign_instances() {
    let mut foreign = instance("foreign", true);
    foreign.facts.uid = 1001;
    let mut linked = instance("linked", true);
    linked.facts.symlink = true;
    let entries = vec![
        instance("dead", false),
        foreign,
        linked,
        instance("signature", true),
    ];

    assert_eq!(
        discover_socket2_path_with("/run/user/1000", &entries, 1000).unwrap(),
        "/run/user/1000/hypr/signature/.socket2.sock"
    );
    assert!(discover_socket2_path_with("/run/user/1000", &vec![], 1000).is_err());
}

#[test]
fn a_live_configured_instance_is_taken_as_it_is() {
    let configured = Some(ConfiguredInstance {
        signature: "mine".to_owned(),
        directory: Some(directory()),
        live: true,
    });
    let entries = vec![instance("mine", true), instance("other", true)];

    assert_eq!(
        resolve_socket2_path_with("/run/user/1000", &configured, &entries, 1000).unwrap(),
        "/run/user/1000/hypr/mine/.socket2.sock"
    );
    assert!(validate_signature("../mine").is_err());
    assert!(validate_signature("").is_err());
    assert!(validate_signature("mine").is_ok());
}

const MILLISECOND: u64 = 1_000_000;

#[test]
fn debounce_decision_waits_from_the_last_monitor_event() {
    let event = 5_000 * MILLISECOND;
    let debounce = 900 * MILLISECOND;

    assert_eq!(
        debounce_remaining(event, event + 250 * MILLISECOND, debounce),
        Some(650 * MILLISECOND)
    );
    assert_eq!(
        debounce_remaining(event, event + 900 * MILLISECOND, debounce),
        None
    );
    assert_eq!(
        debounce_remaining(event, event + 901 * MILLISECOND, debounce),
        None
    );
}

#[derive(Clone)]
struct FakeClock {
    elapsed_ms: Rc<Cell<u64>>,
    sleeps: Rc<Cell<u64>>,
}

impl FakeClock {
    fn new() -> Self {
        Self {
            elapsed_ms: Rc::new(Cell::new(0)),
            sleeps: Rc::new(Cell::new(0)),
        }
    }
}

impl DaemonClock for FakeClock {
    fn now(&self) -> u64 {
        self.elapsed_ms.get() * MILLISECOND
    }

    fn sleep(&mut self, duration: u64) {
        self.sleeps.set(duration / MILLISECOND);
        self.elapsed_ms
            .set(self.elapsed_ms.get() + duration / MILLISECOND);
    }
}

struct FakeEvents {
    clock: FakeClock,
    events: VecDeque<(u64, Option<MonitorSocketEvent>)>,
    timeouts: Vec<u64>,
}

impl MonitorEventInput for FakeEvents {
    fn read_monitor_event(&mut self) -> Result<Option<MonitorSocketEvent>, Error> {
        self.read_monitor_event_timeout(u64::MAX)
    }

    fn read_monitor_event_timeout(
        &mut self,
        timeout: u64,
    ) -> Result<Option<MonitorSocketEvent>, Error> {
        self.timeouts.push(timeout);
        let (advance_ms, event) = self.events.pop_front().unwrap();
        self.clock
            .elapsed_ms
            .set(self.clock.elapsed_ms.get() + advance_ms);
        Ok(event)
    }
}

#[test]
fn daemon_debounces_a_burst_into_one_topology_decision() {
    let clock = FakeClock::new();
    let mut events = FakeEvents {
        clock: clock.clone(),
        events: VecDeque::from([
            (100, Some(MonitorSocketEvent::Added)),
            (250, Some(MonitorSocketEvent::RemovedV2)),
            (900, None),
        ]),
        timeouts: Vec::new(),
    };

    let drained =
        debounce_monitor_event_burst(&mut events, 900 * MILLISECOND, &clock).unwrap();

    assert_eq!(
        drained,
        vec![MonitorSocketEvent::Added, MonitorSocketEvent::RemovedV2]
    );
    assert_eq!(events.timeouts.len(), 3);
    assert_eq!(events.timeouts[0], 900 * MILLISECOND);
    assert_eq!(events.timeouts[1], 900 * MILLISECOND);
}

#[test]
fn daemon_suppresses_rejected_attempt_only_while_observed_layout_is_unchanged() {
    let monitors = parse_monitors_output(DESK);
    let mut state = AutoSwitchState::default();
    assert!(!state.consume_suppressed_attempt("desk", "batch-a", &monitors));

    state.suppress_attempt("desk", "batch-a", &monitors);
    assert!(state.consume_suppressed_attempt("desk", "batch-a", &monitors));
    assert!(!state.consume_suppressed_attempt("desk", "batch-a", &monitors));

    state.suppress_attempt("desk", "batch-a", &monitors);
    let mut changed = monitors.clone();
    changed[0].x += 10;
    assert!(!state.consume_suppressed_attempt("desk", "batch-a", &changed));

    state.suppress_attempt("desk", "batch-a", &monitors);
    state.clear_suppression();
    assert!(!state.consume_suppressed_attempt("desk", "batch-a", &monitors));
}

#[test]
fn daemon_marks_only_later_socket_sessions_as_reconnects() {
    let mut state = AutoSwitchState::default();

    assert!(!state.begin_socket_session());
    assert!(state.begin_socket_session());
    assert!(state.begin_socket_session());
}

#[test]
fn socket_disconnects_use_the_deterministic_reconnect_delay() {
    let mut clock = FakeClock::new();

    wait_for_reconnect(&mut clock);

    assert_eq!(clock.sleeps.get(), 2_000);
}

struct FakeConnector {
    attempts: usize,
}

impl MonitorEventConnector for FakeConnector {
    type Input = FakeEvents;

    fn connect(&mut self) -> Result<FakeEvents, Error> {
        self.attempts += 1;
        if self.attempts == 1 {
            return Err(Error::new("synthetic connect failure".to_owned()));
        }

        let clock = FakeClock::new();
        Ok(FakeEvents {
            clock,
            events: VecDeque::from([(0, None)]),
            timeouts: Vec::new(),
        })
    }
}

struct Disconnecting {
    processed_connections: usize,
}

impl ConnectionProcess<FakeEvents> for Disconnecting {
    fn process(&mut self, _input: &mut FakeEvents) -> Result<(), Error> {
        self.processed_connections += 1;
        Err(Error::new("synthetic disconnect".to_owned()))
    }
}

#[test]
fn socket_reconnect_cycle_recovers_after_connect_failure() {
    let mut connector = FakeConnector { attempts: 0 };
    let mut process = Disconnecting {
        processed_connections: 0,
    };
    let first = run_connection_cycle(&mut connector, &mut process);
    assert!(matches!(first, ConnectionCycleOutcome::ConnectFailed(_)));
    assert_eq!(process.processed_connections, 0);

    let mut clock = FakeClock::new();
    wait_for_reconnect(&mut clock);
    let second = run_connection_cycle(&mut connector, &mut process);

    assert!(matches!(second, ConnectionCycleOutcome::Disconnected(_)));
    assert_eq!(connector.attempts, 2);
    assert_eq!(process.processed_connections, 1);
    assert_eq!(clock.sleeps.get(), 2_000);
    assert_eq!(
        cycle_message(&first),
        "Could not connect to Hyprland socket2: synthetic connect failure"
    );
    assert_eq!(
        cycle_message(&second),
        "Socket2 disconnected: synthetic disconnect"
    );
}

#[test]
fn frames_are_cut_at_line_feeds() {
    let mut frames = FrameBuffer::new();

    frames.push(b"workspace>>1\nmonitoradded>>DP").unwrap();
    assert_eq!(frames.next_event().unwrap(), None);
    frames.push(b"-1\n").unwrap();
    assert_eq!(
        frames.next_event().unwrap(),
        Some(MonitorSocketEvent::Added)
    );
    assert_eq!(frames.next_event().unwrap(), None);
}

#[test]
fn frames_that_are_no_text_are_refused() {
    let mut frames = FrameBuffer::new();

    frames.push(&[0xff, 0xfe, 0x0a]).unwrap();

    assert!(frames.take_frame().is_err());
}

#[test]
fn events_have_the_names_of_the_socket() {
    for event in [
        MonitorSocketEvent::Added,
        MonitorSocketEvent::Removed,
        MonitorSocketEvent::AddedV2,
        MonitorSocketEvent::RemovedV2,
    ] {
        let line = format!("{}>>1,DP-1,Acme", event.as_str());
        assert_eq!(parse_monitor_event(&line), Some(event));
    }
}

#[test]
fn a_log_entry_that_would_not_fit_starts_a_new_file() {
    let almost_full = MAX_DAEMON_LOG_BYTES - 4;

    let entry = log_entry("cross-limit", true, almost_full);

    assert!(entry.rotate);
    assert_eq!(entry.text, "cross-limit");
    assert_eq!(entry.bytes_written, 12);
    assert!(!log_entry("cross-limit", true, 0).rotate);
    assert!(!log_entry("cross-limit", false, almost_full).rotate);
    assert!(rotates_at_start(MAX_DAEMON_LOG_BYTES));
    assert!(!rotates_at_start(almost_full));
    assert_eq!(kept_from(MAX_DAEMON_LOG_BYTES + 128), Some(128));
    assert_eq!(kept_from(MAX_DAEMON_LOG_BYTES), None);
}

#[test]
fn log_entries_hold_no_control_sequences() {
    let entry = log_entry("one\u{1b}[31m\ntwo", true, 0);

    assert!(!entry.text.contains('\u{1b}'));
    assert!(entry.text.contains('\n'));
}

#[test]
fn the_start_of_the_daemon_is_told_in_three_lines() {
    assert_eq!(
        startup_lines(900, false),
        vec![
            "HyprDisJust daemon started",
            "Debounce: 900ms",
            "Safety: each apply requires `y` confirmation within 15 seconds",
        ]
    );
    assert_eq!(
        startup_lines(0, true)[2],
        "Safety: unattended applies explicitly enabled"
    );
}
