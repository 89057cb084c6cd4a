//! A report on the surroundings.
use vstd::prelude::*;

use crate::config;
use crate::config::{AppConfig, ConfigPaths, PathsView};
use crate::error::Error;
use crate::hyprland::monitor;
use crate::hyprland::monitor::{MonitorState, MonitorView};
use crate::path;
use crate::profile::matching;
use crate::profile::matching::{
    best_profile_match, decide_auto_apply, format_auto_apply_decision, AutoApplyDecision,
    BestMatchView, BestProfileMatch, ProfileMatch, ProfileMatchView,
};
use crate::profile::plan;
use crate::profile::store::{Profile, ProfileMonitor, ProfileMonitorView, ProfileStore, ProfileView};
use crate::sort;
use crate::text;

verus! {

/// How bad a finding is.
#[derive(Debug, Clone, Copy, PartialEq, Eq, Structural)]
pub enum DoctorSeverity {
    Good,
    Info,
    Warning,
    Error,
}

/// A finding.
#[derive(Debug, PartialEq, Eq)]
pub struct DoctorCheck {
    pub severity: DoctorSeverity,
    pub label: String,
    pub message: String,
}

/// What a [`DoctorCheck`] holds.
#[verifier::ext_equal]
pub struct CheckView {
    pub severity: DoctorSeverity,
    pub label: Seq<char>,
    pub message: Seq<char>,
}

impl View for DoctorCheck {
    type V = CheckView;

    open spec fn view(&self) -> CheckView {
        CheckView { severity: self.severity, label: self.label@, message: self.message@ }
    }
}

/// What findings hold.
pub open spec fn check_views(checks: Seq<DoctorCheck>) -> Seq<CheckView> {
    checks.map_values(|check: DoctorCheck| check@)
}

/// A report.
#[derive(Debug, PartialEq)]
pub struct DoctorReport {
    pub checks: Vec<DoctorCheck>,
    pub monitors: Vec<MonitorState>,
    pub monitor_query_succeeded: bool,
    pub profile_count: usize,
    pub best_profile_summary: Option<String>,
}

/// What a [`DoctorReport`] holds.
#[verifier::ext_equal]
pub struct ReportView {
    pub checks: Seq<CheckView>,
    pub monitors: Seq<MonitorView>,
    pub monitor_query_succeeded: bool,
    pub profile_count: nat,
    pub best_profile_summary: Option<Seq<char>>,
}

impl View for DoctorReport {
    type V = ReportView;

    open spec fn view(&self) -> ReportView {
        ReportView {
            checks: check_views(self.checks@),
            monitors: monitor::views(self.monitors@),
            monitor_query_succeeded: self.monitor_query_succeeded,
            profile_count: self.profile_count as nat,
            best_profile_summary: match self.best_profile_summary {
                Some(summary) => Some(summary@),
                None => None,
            },
        }
    }
}

impl DoctorReport {
    /// Adds a finding.
    pub fn push(&mut self, severity: DoctorSeverity, label: &str, message: &str)
        ensures
            final(self)@ == (ReportView {
                checks: old(self)@.checks.push(
                    CheckView { severity, label: label@, message: message@ },
                ),
                ..old(self)@
            }),
    {
        let ghost before = check_views(self.checks@);
        self.checks.push(
            DoctorCheck { severity, label: label.to_owned(), message: message.to_owned() },
        );
        assert(check_views(self.checks@) =~= before.push(
            CheckView { severity, label: label@, message: message@ },
        ));
    }

    /// Whether any finding is an error.
    pub fn has_errors(&self) -> (result: bool)
        ensures
            result == exists|i: int|
                0 <= i < self@.checks.len() && (#[trigger] self@.checks[i]).severity
                    == DoctorSeverity::Error,
    {
        let mut i: usize = 0;
        while i < self.checks.len()
            invariant
                i <= self.checks@.len(),
                forall|j: int|
                    0 <= j < i ==> (#[trigger] self@.checks[j]).severity != DoctorSeverity::Error,
            decreases self.checks@.len() - i,
        {
            assert(self@.checks[i as int] == self.checks@[i as int]@);
            if self.checks[i].severity == DoctorSeverity::Error {
                return true;
            }
            i += 1;
        }
        false
    }
}

/// A place that was looked for.
#[derive(Debug, PartialEq, Eq)]
pub struct FoundPath {
    pub path: String,
    pub exists: bool,
}

/// What was found out about the surroundings.
#[derive(Debug, PartialEq)]
pub struct Surroundings {
    pub paths: ConfigPaths,
    pub generated_exists: bool,
    /// The monitors are read from a file instead.
    pub using_fixture: bool,
    pub runtime_dir: Option<String>,
    pub signature: Option<String>,
    pub socket: Result<FoundPath, Error>,
    pub service: Result<FoundPath, Error>,
    pub store: Result<ProfileStore, Error>,
    pub config: Result<AppConfig, Error>,
    pub monitors: Result<Vec<MonitorState>, Error>,
}

// ---------------------------------------------------------------------------
// Findings
// ---------------------------------------------------------------------------
/// A finding.
pub open spec fn finding(severity: DoctorSeverity, label: Seq<char>, message: Seq<char>) -> CheckView {
    CheckView { severity, label, message }
}

/// Where things are kept.
pub open spec fn place_checks(paths: PathsView, generated_exists: bool) -> Seq<CheckView> {
    let generated = path::below(paths.config_dir, "generated"@);
    let lua = path::below(generated, "monitors.lua"@);
    seq![
        finding(DoctorSeverity::Info, "config dir"@, paths.config_dir),
        finding(DoctorSeverity::Info, "config file"@, paths.config_file),
        finding(DoctorSeverity::Info, "profile store"@, paths.profile_store),
        finding(DoctorSeverity::Info, "generated directory"@, generated),
        finding(
            DoctorSeverity::Info,
            "generated lua"@,
            if generated_exists {
                lua + " (exists)"@
            } else {
                lua + " (not generated yet)"@
            },
        ),
    ]
}

/// An optional text is there and not empty.
pub open spec fn is_given(value: Option<String>) -> bool {
    value matches Some(value) && value@.len() > 0
}

/// Whether a session is there.
pub open spec fn session_check(
    using_fixture: bool,
    runtime_dir: Option<String>,
    signature: Option<String>,
) -> CheckView {
    if using_fixture {
        finding(
            DoctorSeverity::Info,
            "Hyprland session"@,
            "using HYPRDISJUST_MONITORS_JSON fixture"@,
        )
    } else if is_given(runtime_dir) && is_given(signature) {
        finding(DoctorSeverity::Good, "Hyprland session"@, "environment detected"@)
    } else {
        finding(
            DoctorSeverity::Warning,
            "Hyprland session"@,
            "XDG_RUNTIME_DIR or HYPRLAND_INSTANCE_SIGNATURE is missing"@,
        )
    }
}

/// Whether the event socket is there.
pub open spec fn socket_check(socket: Result<FoundPath, Error>) -> CheckView {
    match socket {
        Ok(found) => if found.exists {
            finding(DoctorSeverity::Good, "socket2"@, "available at "@ + found.path@)
        } else {
            finding(DoctorSeverity::Warning, "socket2"@, "not found at "@ + found.path@)
        },
        Err(error) => finding(DoctorSeverity::Warning, "socket2"@, error.head()),
    }
}

/// Whether the service is installed.
pub open spec fn service_check(service: Result<FoundPath, Error>) -> CheckView {
    match service {
        Ok(found) => if found.exists {
            finding(DoctorSeverity::Good, "systemd user service"@, "installed at "@ + found.path@)
        } else {
            finding(
                DoctorSeverity::Info,
                "systemd user service"@,
                "not installed at "@ + found.path@
                    + "; run `hyprdisjust install-systemd-user --enable --start`"@,
            )
        },
        Err(error) => finding(
            DoctorSeverity::Warning,
            "systemd user service"@,
            "could not resolve install path: "@ + error@,
        ),
    }
}

/// Whether the profiles can be read.
pub open spec fn store_check(store: Result<ProfileStore, Error>) -> CheckView {
    match store {
        Ok(store) => if store@.len() == 0 {
            finding(DoctorSeverity::Warning, "profiles"@, "no profiles saved"@)
        } else {
            finding(
                DoctorSeverity::Good,
                "profiles"@,
                text::int_text(store@.len() as int) + " saved"@,
            )
        },
        Err(error) => finding(
            DoctorSeverity::Error,
            "profiles"@,
            "failed to load profile store: "@ + error@,
        ),
    }
}

/// Whether the settings can be read.
pub open spec fn config_check(config: Result<AppConfig, Error>) -> CheckView {
    match config {
        Ok(config) => finding(
            DoctorSeverity::Good,
            "config"@,
            "loaded (debounce="@ + text::int_text(config@.debounce_ms as int)
                + "ms, apply_on_start="@ + plan::bool_text(config@.apply_on_start) + ")"@,
        ),
        Err(error) => finding(
            DoctorSeverity::Error,
            "config"@,
            "failed to load config: "@ + error@,
        ),
    }
}

/// The ending of a word that stands behind a number.
pub open spec fn plural_text(count: int) -> Seq<char> {
    if count == 1 {
        ""@
    } else {
        "s"@
    }
}

/// What is wrong with the identity of a monitor.
pub open spec fn identity_warning(monitor: MonitorView) -> Option<Seq<char>> {
    if text::begins(monitor.id, "output:"@) {
        Some(monitor.output_name + " only has output-name identity `"@ + monitor.id + "`"@)
    } else if text::holds(monitor.id, ":output:"@) {
        Some(monitor.output_name + " needed output-name disambiguation as `"@ + monitor.id + "`"@)
    } else {
        None
    }
}

/// What is wrong with the identities of the first `n` monitors.
pub open spec fn identity_warnings(monitors: Seq<MonitorView>, n: int) -> Seq<CheckView>
    decreases n,
{
    if n <= 0 {
        seq![]
    } else {
        match identity_warning(monitors[n - 1]) {
            Some(message) => identity_warnings(monitors, n - 1).push(
                finding(DoctorSeverity::Warning, "monitor identity"@, message),
            ),
            None => identity_warnings(monitors, n - 1),
        }
    }
}

/// Whether monitors can be told apart.
pub open spec fn identity_checks(monitors: Seq<MonitorView>) -> Seq<CheckView> {
    let warnings = identity_warnings(monitors, monitors.len() as int);
    if warnings.len() == 0 {
        seq![
            finding(DoctorSeverity::Good, "monitor identity"@, "stable identities look usable"@),
        ]
    } else {
        warnings
    }
}

/// The first monitor with the identity `id`.
pub open spec fn monitor_with(monitors: Seq<MonitorView>, id: Seq<char>) -> Option<MonitorView>
    decreases monitors.len(),
{
    if monitors.len() == 0 {
        None
    } else if monitors[0].id == id {
        Some(monitors[0])
    } else {
        monitor_with(monitors.drop_first(), id)
    }
}

/// What is said of a remembered monitor that is connected elsewhere now.
pub open spec fn stale_message(
    profile_name: Seq<char>,
    saved: ProfileMonitorView,
    monitors: Seq<MonitorView>,
) -> Option<Seq<char>> {
    match monitor_with(monitors, saved.id) {
        None => None,
        Some(current) => if text::trimmed(saved.name_hint).len() > 0 && saved.name_hint
            != current.output_name {
            Some(
                "`"@ + profile_name + "` saved "@ + saved.name_hint + " but current output is "@
                    + current.output_name,
            )
        } else {
            None
        },
    }
}

/// What is said of the first `n` remembered monitors of a profile.
pub open spec fn stale_in_profile(
    profile: ProfileView,
    monitors: Seq<MonitorView>,
    n: int,
) -> Seq<Seq<char>>
    decreases n,
{
    if n <= 0 {
        seq![]
    } else {
        match stale_message(profile.name, profile.monitors[n - 1], monitors) {
            Some(message) => stale_in_profile(profile, monitors, n - 1).push(message),
            None => stale_in_profile(profile, monitors, n - 1),
        }
    }
}

/// What is said of the remembered monitors of the first `n` profiles.
pub open spec fn stale_in_store(
    profiles: Seq<ProfileView>,
    monitors: Seq<MonitorView>,
    n: int,
) -> Seq<Seq<char>>
    decreases n,
{
    if n <= 0 {
        seq![]
    } else {
        stale_in_store(profiles, monitors, n - 1) + stale_in_profile(
            profiles[n - 1],
            monitors,
            profiles[n - 1].monitors.len() as int,
        )
    }
}

/// The first `n` of `messages`, those left out that repeat the one before.
pub open spec fn without_repeats(messages: Seq<Seq<char>>, n: int) -> Seq<Seq<char>>
    decreases n,
{
    if n <= 0 {
        seq![]
    } else if n > 1 && messages[n - 1] == messages[n - 2] {
        without_repeats(messages, n - 1)
    } else {
        without_repeats(messages, n - 1).push(messages[n - 1])
    }
}

/// `messages` in order, each once.
pub open spec fn each_once(messages: Seq<Seq<char>>) -> Seq<Seq<char>> {
    without_repeats(sort::sorted::<String>(messages), messages.len() as int)
}

/// Whether connectors are still the ones that were saved.
pub open spec fn stale_checks(profiles: Seq<ProfileView>, monitors: Seq<MonitorView>) -> Seq<
    CheckView,
> {
    let stale = each_once(stale_in_store(profiles, monitors, profiles.len() as int));
    if stale.len() == 0 {
        seq![finding(DoctorSeverity::Good, "saved output names"@, "no stale hints detected"@)]
    } else {
        stale.map_values(
            |message: Seq<char>|
                finding(DoctorSeverity::Warning, "saved output names"@, message),
        )
    }
}

/// What the monitors show.
pub open spec fn monitor_checks(
    monitors: Result<Vec<MonitorState>, Error>,
    store: Result<ProfileStore, Error>,
) -> Seq<CheckView> {
    match monitors {
        Err(error) => seq![finding(DoctorSeverity::Error, "hyprctl monitors"@, error@)],
        Ok(monitors) => seq![
            finding(
                DoctorSeverity::Good,
                "hyprctl monitors"@,
                "detected "@ + text::int_text(monitors@.len() as int) + " monitor"@ + plural_text(
                    monitors@.len() as int,
                ),
            ),
        ] + identity_checks(monitor::views(monitors@)) + (match store {
            Ok(store) => stale_checks(store@, monitor::views(monitors@)),
            Err(_) => seq![],
        }),
    }
}

/// All that was found.
pub open spec fn all_checks(seen: Surroundings) -> Seq<CheckView> {
    place_checks(seen.paths@, seen.generated_exists).push(
        session_check(seen.using_fixture, seen.runtime_dir, seen.signature),
    ).push(socket_check(seen.socket)).push(service_check(seen.service)).push(
        store_check(seen.store),
    ).push(config_check(seen.config)) + monitor_checks(seen.monitors, seen.store)
}

/// The best profile, in words.
pub open spec fn summary_of(
    profiles: Seq<ProfileView>,
    best: BestMatchView,
    fallback: Option<Seq<char>>,
) -> Seq<char> {
    matching::decision_text(matching::decision(profiles, best, fallback), "Best profile"@) + (
    if best.candidates.len() == 0 {
        seq![]
    } else {
        let candidate = best.candidates[0];
        "\nScore: "@ + text::int_text(candidate.score as int) + " ("@ + text::int_text(
            candidate.matched_monitors as int,
        ) + " of "@ + text::int_text(candidate.profile_monitors as int)
            + " profile monitors matched)"@
    })
}

/// `summary` is what is said of the best profile.
pub open spec fn is_summary(summary: Option<Seq<char>>, seen: Surroundings) -> bool {
    match (seen.monitors, seen.store, seen.config) {
        (Ok(monitors), Ok(store), Ok(config)) => exists|matches: Seq<ProfileMatchView>| #[trigger]
            matching::are_matches(matches, store@, monitor::views(monitors@)) && summary == Some(
                summary_of(
                    store@,
                    matching::best_of(sort::sorted::<ProfileMatch>(matches)),
                    config@.fallback_profile,
                ),
            ),
        _ => summary is None,
    }
}

// ---------------------------------------------------------------------------
// Reporting
// ---------------------------------------------------------------------------
/// The ending of a word that stands behind a number.
pub fn plural(count: usize) -> (result: &'static str)
    ensures
        result@ == plural_text(count as int),
{
    if count == 1 {
        ""
    } else {
        "s"
    }
}

fn non_empty(value: &Option<String>) -> (result: bool)
    ensures
        result == is_given(*value),
{
    match value {
        Some(value) => value.as_str().unicode_len() > 0,
        None => false,
    }
}

fn report_places(report: &mut DoctorReport, paths: &ConfigPaths, generated_exists: bool)
    ensures
        final(report)@ == (ReportView {
            checks: old(report)@.checks + place_checks(paths@, generated_exists),
            ..old(report)@
        }),
{
    let lua: String = paths.generated_monitors_lua_path();
    let status: String = if generated_exists {
        lua.concat(" (exists)")
    } else {
        lua.concat(" (not generated yet)")
    };
    report.push(DoctorSeverity::Info, "config dir", paths.config_dir.as_str());
    report.push(DoctorSeverity::Info, "config file", paths.config_file_path());
    report.push(DoctorSeverity::Info, "profile store", paths.profile_store_path());
    report.push(
        DoctorSeverity::Info,
        "generated directory",
        paths.generated_dir_path().as_str(),
    );
    report.push(DoctorSeverity::Info, "generated lua", status.as_str());
    assert(report@.checks =~= old(report)@.checks + place_checks(paths@, generated_exists));
}

fn check_session_env(
    report: &mut DoctorReport,
    using_fixture: bool,
    runtime_dir: &Option<String>,
    signature: &Option<String>,
)
    ensures
        final(report)@ == (ReportView {
            checks: old(report)@.checks.push(session_check(using_fixture, *runtime_dir, *signature)),
            ..old(report)@
        }),
{
    if using_fixture {
        report.push(
            DoctorSeverity::Info,
            "Hyprland session",
            "using HYPRDISJUST_MONITORS_JSON fixture",
        );
    } else if non_empty(runtime_dir) && non_empty(signature) {
        report.push(DoctorSeverity::Good, "Hyprland session", "environment detected");
    } else {
        report.push(
            DoctorSeverity::Warning,
            "Hyprland session",
            "XDG_RUNTIME_DIR or HYPRLAND_INSTANCE_SIGNATURE is missing",
        );
    }
}

fn check_socket(report: &mut DoctorReport, socket: &Result<FoundPath, Error>)
    ensures
        final(report)@ == (ReportView {
            checks: old(report)@.checks.push(socket_check(*socket)),
            ..old(report)@
        }),
{
    match socket {
        Ok(found) => if found.exists {
            report.push(
                DoctorSeverity::Good,
                "socket2",
                "available at ".to_owned().concat(found.path.as_str()).as_str(),
            );
        } else {
            report.push(
                DoctorSeverity::Warning,
                "socket2",
                "not found at ".to_owned().concat(found.path.as_str()).as_str(),
            );
        },
        Err(error) => report.push(DoctorSeverity::Warning, "socket2", error.headline()),
    }
}

fn check_systemd(report: &mut DoctorReport, service: &Result<FoundPath, Error>)
    ensures
        final(report)@ == (ReportView {
            checks: old(report)@.checks.push(service_check(*service)),
            ..old(report)@
        }),
{
    match service {
        Ok(found) => if found.exists {
            report.push(
                DoctorSeverity::Good,
                "systemd user service",
                "installed at ".to_owned().concat(found.path.as_str()).as_str(),
            );
        } else {
            report.push(
                DoctorSeverity::Info,
                "systemd user service",
                "not installed at ".to_owned().concat(found.path.as_str()).concat(
                    "; run `hyprdisjust install-systemd-user --enable --start`",
                ).as_str(),
            );
        },
        Err(error) => report.push(
            DoctorSeverity::Warning,
            "systemd user service",
            "could not resolve install path: ".to_owned().concat(error.message()).as_str(),
        ),
    }
}

fn check_store(report: &mut DoctorReport, store: &Result<ProfileStore, Error>)
    ensures
        final(report)@ == (ReportView {
            checks: old(report)@.checks.push(store_check(*store)),
            profile_count: match *store {
                Ok(store) => store@.len(),
                Err(_) => old(report)@.profile_count,
            },
            ..old(report)@
        }),
{
    match store {
        Ok(store) => {
            report.profile_count = store.profiles.len();
            if store.profiles.len() == 0 {
                report.push(DoctorSeverity::Warning, "profiles", "no profiles saved");
            } else {
                report.push(
                    DoctorSeverity::Good,
                    "profiles",
                    text::decimal(store.profiles.len() as i128).concat(" saved").as_str(),
                );
            }
        },
        Err(error) => report.push(
            DoctorSeverity::Error,
            "profiles",
            "failed to load profile store: ".to_owned().concat(error.message()).as_str(),
        ),
    }
}

fn check_config(report: &mut DoctorReport, config: &Result<AppConfig, Error>)
    ensures
        final(report)@ == (ReportView {
            checks: old(report)@.checks.push(config_check(*config)),
            ..old(report)@
        }),
{
    match config {
        Ok(config) => report.push(
            DoctorSeverity::Good,
            "config",
            "loaded (debounce=".to_owned().concat(
                text::decimal(config.debounce_ms as i128).as_str(),
            ).concat("ms, apply_on_start=").concat(plan::bool_string(config.apply_on_start)).concat(
                ")",
            ).as_str(),
        ),
        Err(error) => report.push(
            DoctorSeverity::Error,
            "config",
            "failed to load config: ".to_owned().concat(error.message()).as_str(),
        ),
    }
}

fn check_monitor_identities(report: &mut DoctorReport, monitors: &Vec<MonitorState>)
    ensures
        final(report)@ == (ReportView {
            checks: old(report)@.checks + identity_checks(monitor::views(monitors@)),
            ..old(report)@
        }),
{
    let ghost all = monitor::views(monitors@);
    let ghost first = report@.checks;
    let ghost start = report@;
    let mut warned: bool = false;
    let mut i: usize = 0;
    assert(report@.checks =~= first + identity_warnings(all, 0));
    while i < monitors.len()
        invariant
            i <= monitors@.len(),
            all == monitor::views(monitors@),
            report@ == (ReportView { checks: first + identity_warnings(all, i as int), ..start }),
            warned == (identity_warnings(all, i as int).len() > 0),
        decreases monitors@.len() - i,
    {
        assert(all[i as int] == monitors@[i as int]@);
        let id: &str = monitors[i].id.as_str();
        let name: &str = monitors[i].output_name.as_str();
        if text::starts_with(id, "output:") {
            report.push(
                DoctorSeverity::Warning,
                "monitor identity",
                name.to_owned().concat(" only has output-name identity `").concat(id).concat(
                    "`",
                ).as_str(),
            );
            warned = true;
        } else if text::contains_text(id, ":output:") {
            report.push(
                DoctorSeverity::Warning,
                "monitor identity",
                name.to_owned().concat(" needed output-name disambiguation as `").concat(
                    id,
                ).concat("`").as_str(),
            );
            warned = true;
        }
        assert(report@.checks =~= first + identity_warnings(all, i + 1));
        i += 1;
    }
    if !warned {
        report.push(DoctorSeverity::Good, "monitor identity", "stable identities look usable");
        assert(report@.checks =~= first + identity_checks(all));
    }
}

/// The first monitor with the identity `id`.
pub fn find_monitor_with(monitors: &Vec<MonitorState>, id: &str) -> (result: Option<usize>)
    ensures
        match (result, monitor_with(monitor::views(monitors@), id@)) {
            (Some(i), Some(found)) => i < monitors@.len() && monitors@[i as int]@ == found,
            (None, None) => true,
            _ => false,
        },
{
    let ghost all = monitor::views(monitors@);
    assert(all.skip(0) =~= all);
    let mut i: usize = 0;
    while i < monitors.len()
        invariant
            i <= monitors@.len(),
            all == monitor::views(monitors@),
            monitor_with(all, id@) == monitor_with(all.skip(i as int), id@),
        decreases monitors@.len() - i,
    {
        assert(all.skip(i as int)[0] == monitors@[i as int]@);
        if text::same(monitors[i].id.as_str(), id) {
            return Some(i);
        }
        assert(all.skip(i as int).drop_first() =~= all.skip(i + 1));
        i += 1;
    }
    None
}

fn find_stale(profile_name: &str, saved: &ProfileMonitor, monitors: &Vec<MonitorState>) -> (result:
    Option<String>)
    ensures
        match (result, stale_message(profile_name@, saved@, monitor::views(monitors@))) {
            (Some(message), Some(expected)) => message@ == expected,
            (None, None) => true,
            _ => false,
        },
{
    match find_monitor_with(monitors, saved.id.as_str()) {
        None => None,
        Some(i) => {
            let name: &str = monitors[i].output_name.as_str();
            let hint: &str = saved.name_hint.as_str();
            if text::trim(hint).unicode_len() > 0 && !text::same(hint, name) {
                Some(
                    "`".to_owned().concat(profile_name).concat("` saved ").concat(hint).concat(
                        " but current output is ",
                    ).concat(name),
                )
            } else {
                None
            }
        },
    }
}

fn push_stale(messages: &mut Vec<String>, profile: &Profile, monitors: &Vec<MonitorState>)
    ensures
        text::texts(final(messages)@) == text::texts(old(messages)@) + stale_in_profile(
            profile@,
            monitor::views(monitors@),
            profile@.monitors.len() as int,
        ),
{
    let ghost first = text::texts(messages@);
    let ghost current = monitor::views(monitors@);
    let mut i: usize = 0;
    assert(text::texts(messages@) =~= first + stale_in_profile(profile@, current, 0));
    while i < profile.monitors.len()
        invariant
            i <= profile.monitors@.len(),
            current == monitor::views(monitors@),
            text::texts(messages@) == first + stale_in_profile(profile@, current, i as int),
        decreases profile.monitors@.len() - i,
    {
        assert(profile@.monitors[i as int] == profile.monitors@[i as int]@);
        match find_stale(profile.name.as_str(), &profile.monitors[i], monitors) {
            Some(message) => {
                let ghost before = text::texts(messages@);
                let ghost said = message@;
                messages.push(message);
                assert(text::texts(messages@) =~= before.push(said));
                assert(text::texts(messages@) =~= first + stale_in_profile(
                    profile@,
                    current,
                    i + 1,
                ));
            },
            None => {},
        }
        i += 1;
    }
}

fn collect_stale(store: &ProfileStore, monitors: &Vec<MonitorState>) -> (result: Vec<String>)
    ensures
        text::texts(result@) == stale_in_store(
            store@,
            monitor::views(monitors@),
            store@.len() as int,
        ),
{
    let ghost current = monitor::views(monitors@);
    let mut result: Vec<String> = Vec::new();
    assert(text::texts(result@) =~= seq![]);
    let mut k: usize = 0;
    while k < store.profiles.len()
        invariant
            k <= store.profiles@.len(),
            current == monitor::views(monitors@),
            text::texts(result@) == stale_in_store(store@, current, k as int),
        decreases store.profiles@.len() - k,
    {
        assert(store@[k as int] == store.profiles@[k as int]@);
        push_stale(&mut result, &store.profiles[k], monitors);
        k += 1;
    }
    result
}

fn drop_repeats(messages: &Vec<String>) -> (result: Vec<String>)
    ensures
        text::texts(result@) == without_repeats(text::texts(messages@), messages@.len() as int),
{
    let ghost all = text::texts(messages@);
    let mut result: Vec<String> = Vec::new();
    assert(text::texts(result@) =~= seq![]);
    let mut i: usize = 0;
    while i < messages.len()
        invariant
            i <= messages@.len(),
            all == text::texts(messages@),
            text::texts(result@) == without_repeats(all, i as int),
        decreases messages@.len() - i,
    {
        assert(all[i as int] == messages@[i as int]@);
        if i > 0 {
            assert(all[i - 1] == messages@[i - 1]@);
        }
        if i == 0 || !text::same(messages[i].as_str(), messages[i - 1].as_str()) {
            let ghost before = text::texts(result@);
            result.push(messages[i].clone());
            assert(text::texts(result@) =~= before.push(all[i as int]));
        }
        i += 1;
    }
    result
}

fn check_stale_output_names(
    report: &mut DoctorReport,
    store: &ProfileStore,
    monitors: &Vec<MonitorState>,
)
    ensures
        final(report)@ == (ReportView {
            checks: old(report)@.checks + stale_checks(store@, monitor::views(monitors@)),
            ..old(report)@
        }),
{
    let ghost first = report@.checks;
    let ghost start = report@;
    let found: Vec<String> = collect_stale(store, monitors);
    let ghost messages = text::texts(found@);
    assert(sort::held(found@) =~= messages);
    let ordered: Vec<String> = sort::sort(found);
    assert(text::texts(ordered@) =~= sort::held(ordered@));
    proof {
        sort::law_sorted::<String>(messages);
    }
    let stale: Vec<String> = drop_repeats(&ordered);
    let ghost all = text::texts(stale@);
    assert(all == each_once(messages));
    if stale.len() == 0 {
        report.push(DoctorSeverity::Good, "saved output names", "no stale hints detected");
        assert(report@.checks =~= first + stale_checks(store@, monitor::views(monitors@)));
        return;
    }
    let ghost expected = all.map_values(
        |message: Seq<char>| finding(DoctorSeverity::Warning, "saved output names"@, message),
    );
    let mut i: usize = 0;
    assert(report@.checks =~= first + expected.take(0));
    while i < stale.len()
        invariant
            i <= stale@.len(),
            all == text::texts(stale@),
            expected == all.map_values(
                |message: Seq<char>|
                    finding(DoctorSeverity::Warning, "saved output names"@, message),
            ),
            report@ == (ReportView { checks: first + expected.take(i as int), ..start }),
        decreases stale@.len() - i,
    {
        assert(all[i as int] == stale@[i as int]@);
        report.push(DoctorSeverity::Warning, "saved output names", stale[i].as_str());
        assert(report@.checks =~= first + expected.take(i + 1));
        i += 1;
    }
    assert(expected.take(expected.len() as int) =~= expected);
}

fn summarize(store: &ProfileStore, config: &AppConfig, monitors: &Vec<MonitorState>) -> (result:
    String)
    requires
        matching::all_countable(store@, monitors@.len()),
    ensures
        exists|matches: Seq<ProfileMatchView>| #[trigger]
            matching::are_matches(matches, store@, monitor::views(monitors@)) && result@
                == summary_of(
                store@,
                matching::best_of(sort::sorted::<ProfileMatch>(matches)),
                config@.fallback_profile,
            ),
{
    let best: BestProfileMatch = best_profile_match(store, monitors);
    let fallback: Option<&str> = match &config.fallback_profile {
        Some(name) => Some(name.as_str()),
        None => None,
    };
    let decision: AutoApplyDecision = decide_auto_apply(store, &best, fallback);
    let summary: String = format_auto_apply_decision(&decision, "Best profile");
    let ghost told = summary@;
    if best.candidates.len() == 0 {
        assert(summary_of(store@, best@, config@.fallback_profile) =~= told);
        summary
    } else {
        let candidate: &ProfileMatch = &best.candidates[0];
        assert(best@.candidates[0] == candidate@);
        let score: String = "\nScore: ".to_owned().concat(
            text::decimal(candidate.score as i128).as_str(),
        ).concat(" (").concat(text::decimal(candidate.matched_monitors as i128).as_str()).concat(
            " of ",
        ).concat(text::decimal(candidate.profile_monitors as i128).as_str()).concat(
            " profile monitors matched)",
        );
        summary.concat(score.as_str())
    }
}

/// The profiles can be counted against the monitors.
pub open spec fn comparable(
    store: Result<ProfileStore, Error>,
    monitors: Result<Vec<MonitorState>, Error>,
) -> bool {
    match (store, monitors) {
        (Ok(store), Ok(monitors)) => matching::all_countable(store@, monitors@.len()),
        _ => true,
    }
}

/// Reports on the surroundings.
pub fn build_doctor_report(seen: Surroundings) -> (result: DoctorReport)
    requires
        comparable(seen.store, seen.monitors),
    ensures
        result@.checks == all_checks(seen),
        result@.monitor_query_succeeded == (seen.monitors is Ok),
        result@.monitors == (match seen.monitors {
            Ok(monitors) => monitor::views(monitors@),
            Err(_) => seq![],
        }),
        result@.profile_count == (match seen.store {
            Ok(store) => store@.len(),
            Err(_) => 0,
        }),
        is_summary(result@.best_profile_summary, seen),
{
    let mut report = DoctorReport {
        checks: Vec::new(),
        monitors: Vec::new(),
        monitor_query_succeeded: false,
        profile_count: 0,
        best_profile_summary: None,
    };
    assert(report@.checks =~= seq![]);
    assert(report@.monitors =~= seq![]);
    report_places(&mut report, &seen.paths, seen.generated_exists);
    assert(report@.checks =~= place_checks(seen.paths@, seen.generated_exists));
    check_session_env(&mut report, seen.using_fixture, &seen.runtime_dir, &seen.signature);
    check_socket(&mut report, &seen.socket);
    check_systemd(&mut report, &seen.service);
    check_store(&mut report, &seen.store);
    check_config(&mut report, &seen.config);
    let ghost first = report@.checks;
    match &seen.monitors {
        Err(error) => {
            report.push(DoctorSeverity::Error, "hyprctl monitors", error.message());
            assert(report@.checks =~= first + monitor_checks(seen.monitors, seen.store));
        },
        Ok(monitors) => {
            report.push(
                DoctorSeverity::Good,
                "hyprctl monitors",
                "detected ".to_owned().concat(text::decimal(monitors.len() as i128).as_str()).concat(
                    " monitor",
                ).concat(plural(monitors.len())).as_str(),
            );
            check_monitor_identities(&mut report, monitors);
            match &seen.store {
                Ok(store) => {
                    check_stale_output_names(&mut report, store, monitors);
                },
                Err(_) => {},
            }
            assert(report@.checks =~= first + monitor_checks(seen.monitors, seen.store));
            match (&seen.store, &seen.config) {
                (Ok(store), Ok(config)) => {
                    report.best_profile_summary = Some(summarize(store, config, monitors));
                },
                _ => {},
            }
            report.monitor_query_succeeded = true;
        },
    }
    match seen.monitors {
        Ok(monitors) => {
            report.monitors = monitors;
        },
        Err(_) => {},
    }
    report
}

} // verus!
