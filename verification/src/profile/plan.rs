//! What applying a profile would do: the commands, the layout they are to
//! bring about, and the way back.
use vstd::prelude::*;

use crate::double;
use crate::error;
use crate::error::Error;
use crate::hyprland::monitor;
use crate::hyprland::monitor::{MonitorState, MonitorView};
use crate::number;
use crate::number::{Decimal, UNITS_PER_ONE};
use crate::profile::matching::MonitorMatchMode;
use crate::profile::modes;
use crate::profile::render;
use crate::profile::render::{RenderedMonitorRules, RenderedView, RuleMapping, RuleView};
use crate::profile::store;
use crate::profile::store::{Profile, ProfileOutput, ProfileOutputView, ProfileView};
use crate::profile::validation;
use crate::text;

verus! {

/// How far a scale may be off, in units.
pub const SCALE_TOLERANCE: i128 = 1_000_000_000_000_000;

// ---------------------------------------------------------------------------
// Expected layouts
// ---------------------------------------------------------------------------
/// What a monitor is to look like.
#[derive(Debug, PartialEq)]
pub struct ExpectedMonitorState {
    pub output_name: String,
    pub monitor_id: String,
    pub enabled: bool,
    pub mode: String,
    pub x: i32,
    pub y: i32,
    pub scale: Decimal,
    pub transform: i32,
    pub verify_details_when_disabled: bool,
}

/// What an [`ExpectedMonitorState`] holds.
#[verifier::ext_equal]
pub struct ExpectedView {
    pub output_name: Seq<char>,
    pub monitor_id: Seq<char>,
    pub enabled: bool,
    pub mode: Seq<char>,
    pub x: i32,
    pub y: i32,
    pub scale: int,
    pub transform: i32,
    pub verify_details_when_disabled: bool,
}

impl View for ExpectedMonitorState {
    type V = ExpectedView;

    open spec fn view(&self) -> ExpectedView {
        ExpectedView {
            output_name: self.output_name@,
            monitor_id: self.monitor_id@,
            enabled: self.enabled,
            mode: self.mode@,
            x: self.x,
            y: self.y,
            scale: self.scale.value(),
            transform: self.transform,
            verify_details_when_disabled: self.verify_details_when_disabled,
        }
    }
}

/// What expected states hold.
pub open spec fn expected_views(expected: Seq<ExpectedMonitorState>) -> Seq<ExpectedView> {
    expected.map_values(|state: ExpectedMonitorState| state@)
}

impl Clone for ExpectedMonitorState {
    fn clone(&self) -> (result: Self)
        ensures
            result@ == self@,
    {
        ExpectedMonitorState {
            output_name: self.output_name.clone(),
            monitor_id: self.monitor_id.clone(),
            enabled: self.enabled,
            mode: self.mode.clone(),
            x: self.x,
            y: self.y,
            scale: self.scale,
            transform: self.transform,
            verify_details_when_disabled: self.verify_details_when_disabled,
        }
    }
}

/// The first output for the monitor `id`.
pub open spec fn output_for(outputs: Seq<ProfileOutputView>, id: Seq<char>) -> Option<
    ProfileOutputView,
>
    decreases outputs.len(),
{
    if outputs.len() == 0 {
        None
    } else if outputs[0].monitor_id == id {
        Some(outputs[0])
    } else {
        output_for(outputs.drop_first(), id)
    }
}

/// The first monitor on the connector `output_name`.
pub open spec fn monitor_on(monitors: Seq<MonitorView>, output_name: Seq<char>) -> Option<
    MonitorView,
>
    decreases monitors.len(),
{
    if monitors.len() == 0 {
        None
    } else if monitors[0].output_name == output_name {
        Some(monitors[0])
    } else {
        monitor_on(monitors.drop_first(), output_name)
    }
}

/// The first mapping for the monitor `id`.
pub open spec fn mapping_for(mappings: Seq<RuleView>, id: Seq<char>) -> Option<RuleView>
    decreases mappings.len(),
{
    if mappings.len() == 0 {
        None
    } else if mappings[0].monitor_id == id {
        Some(mappings[0])
    } else {
        mapping_for(mappings.drop_first(), id)
    }
}

/// What the monitor of `mapping` is to look like: as the profile sets it, or
/// switched off where the profile does not know it.
pub open spec fn mapped_state(
    profile: ProfileView,
    current: Seq<MonitorView>,
    mapping: RuleView,
    details: bool,
) -> ExpectedView {
    let id = match monitor_on(current, mapping.output_name) {
        Some(found) => found.id,
        None => mapping.monitor_id,
    };
    match output_for(profile.outputs, mapping.monitor_id) {
        Some(output) => ExpectedView {
            output_name: mapping.output_name,
            monitor_id: id,
            enabled: output.enabled,
            mode: output.mode,
            x: output.x,
            y: output.y,
            scale: output.scale,
            transform: output.transform,
            verify_details_when_disabled: details,
        },
        None => ExpectedView {
            output_name: mapping.output_name,
            monitor_id: id,
            enabled: false,
            mode: seq![],
            x: 0,
            y: 0,
            scale: UNITS_PER_ONE as int,
            transform: 0,
            verify_details_when_disabled: details,
        },
    }
}

/// What a monitor that no command is for is to look like: as it does.
pub open spec fn unmapped_state(monitor: MonitorView, details: bool) -> ExpectedView {
    ExpectedView {
        output_name: monitor.output_name,
        monitor_id: monitor.id,
        enabled: monitor.enabled,
        mode: text::int_text(monitor.width as int) + "x"@ + text::int_text(monitor.height as int)
            + "@"@ + number::decimal_text(monitor.refresh_rate),
        x: monitor.x,
        y: monitor.y,
        scale: monitor.scale,
        transform: monitor.transform,
        verify_details_when_disabled: details,
    }
}

/// Some mapping is for the connector `output_name`.
pub open spec fn is_mapped(mappings: Seq<RuleView>, output_name: Seq<char>) -> bool {
    exists|i: int| 0 <= i < mappings.len() && (#[trigger] mappings[i]).output_name == output_name
}

/// What those of the first `n` monitors that no command is for are to look
/// like.
pub open spec fn unmapped_states(
    current: Seq<MonitorView>,
    mappings: Seq<RuleView>,
    details: bool,
    n: int,
) -> Seq<ExpectedView>
    decreases n,
{
    if n <= 0 {
        seq![]
    } else if is_mapped(mappings, current[n - 1].output_name) {
        unmapped_states(current, mappings, details, n - 1)
    } else {
        unmapped_states(current, mappings, details, n - 1).push(
            unmapped_state(current[n - 1], details),
        )
    }
}

/// What the monitors are to look like once the commands of `mappings` are run.
pub open spec fn expected_layout(
    profile: ProfileView,
    current: Seq<MonitorView>,
    mappings: Seq<RuleView>,
    details: bool,
) -> Seq<ExpectedView> {
    mappings.map_values(|mapping: RuleView| mapped_state(profile, current, mapping, details))
        + unmapped_states(current, mappings, details, current.len() as int)
}

fn find_output(outputs: &Vec<ProfileOutput>, id: &str) -> (result: Option<usize>)
    ensures
        match (result, output_for(store::output_views(outputs@), id@)) {
            (Some(i), Some(output)) => i < outputs@.len() && outputs@[i as int]@ == output,
            (None, None) => true,
            _ => false,
        },
{
    let ghost all = store::output_views(outputs@);
    assert(all.skip(0) =~= all);
    let mut i: usize = 0;
    while i < outputs.len()
        invariant
            i <= outputs@.len(),
            all == store::output_views(outputs@),
            output_for(all, id@) == output_for(all.skip(i as int), id@),
        decreases outputs@.len() - i,
    {
        assert(all.skip(i as int)[0] == outputs@[i as int]@);
        if text::same(outputs[i].monitor_id.as_str(), id) {
            return Some(i);
        }
        assert(all.skip(i as int).drop_first() =~= all.skip(i + 1));
        i += 1;
    }
    None
}

/// The position of the first monitor on the connector `output_name`.
pub fn find_monitor_on(monitors: &Vec<MonitorState>, output_name: &str) -> (result: Option<usize>)
    ensures
        match (result, monitor_on(monitor::views(monitors@), output_name@)) {
            (Some(i), Some(found)) => i < monitors@.len() && monitors@[i as int]@ == found,
            (None, None) => true,
            _ => false,
        },
{
    let ghost all = monitor::views(monitors@);
    assert(all.skip(0) =~= all);
    let mut i: usize = 0;
    while i < monitors.len()
        invariant
            i <= monitors@.len(),
            all == monitor::views(monitors@),
            monitor_on(all, output_name@) == monitor_on(all.skip(i as int), output_name@),
        decreases monitors@.len() - i,
    {
        assert(all.skip(i as int)[0] == monitors@[i as int]@);
        if text::same(monitors[i].output_name.as_str(), output_name) {
            return Some(i);
        }
        assert(all.skip(i as int).drop_first() =~= all.skip(i + 1));
        i += 1;
    }
    None
}

fn find_mapping(mappings: &Vec<RuleMapping>, id: &str) -> (result: Option<usize>)
    ensures
        match (result, mapping_for(render::mapping_views(mappings@), id@)) {
            (Some(i), Some(mapping)) => i < mappings@.len() && mappings@[i as int]@ == mapping,
            (None, None) => true,
            _ => false,
        },
{
    let ghost all = render::mapping_views(mappings@);
    assert(all.skip(0) =~= all);
    let mut i: usize = 0;
    while i < mappings.len()
        invariant
            i <= mappings@.len(),
            all == render::mapping_views(mappings@),
            mapping_for(all, id@) == mapping_for(all.skip(i as int), id@),
        decreases mappings@.len() - i,
    {
        assert(all.skip(i as int)[0] == mappings@[i as int]@);
        if text::same(mappings[i].monitor_id.as_str(), id) {
            return Some(i);
        }
        assert(all.skip(i as int).drop_first() =~= all.skip(i + 1));
        i += 1;
    }
    None
}

fn maps_output(mappings: &Vec<RuleMapping>, output_name: &str) -> (result: bool)
    ensures
        result == is_mapped(render::mapping_views(mappings@), output_name@),
{
    let ghost all = render::mapping_views(mappings@);
    let mut i: usize = 0;
    while i < mappings.len()
        invariant
            i <= mappings@.len(),
            all == render::mapping_views(mappings@),
            forall|j: int| 0 <= j < i ==> (#[trigger] all[j]).output_name != output_name@,
        decreases mappings@.len() - i,
    {
        assert(all[i as int].output_name == mappings@[i as int].output_name@);
        if text::same(mappings[i].output_name.as_str(), output_name) {
            return true;
        }
        i += 1;
    }
    false
}

fn expect_mapped(
    profile: &Profile,
    current: &Vec<MonitorState>,
    mapping: &RuleMapping,
    details: bool,
) -> (result: ExpectedMonitorState)
    ensures
        result@ == mapped_state(profile@, monitor::views(current@), mapping@, details),
{
    let monitor_id: String = match find_monitor_on(current, mapping.output_name.as_str()) {
        Some(i) => current[i].id.clone(),
        None => mapping.monitor_id.clone(),
    };
    match find_output(&profile.outputs, mapping.monitor_id.as_str()) {
        Some(i) => {
            let output: &ProfileOutput = &profile.outputs[i];
            ExpectedMonitorState {
                output_name: mapping.output_name.clone(),
                monitor_id,
                enabled: output.enabled,
                mode: output.mode.clone(),
                x: output.x,
                y: output.y,
                scale: output.scale,
                transform: output.transform,
                verify_details_when_disabled: details,
            }
        },
        None => ExpectedMonitorState {
            output_name: mapping.output_name.clone(),
            monitor_id,
            enabled: false,
            mode: String::new(),
            x: 0,
            y: 0,
            scale: Decimal::whole(1),
            transform: 0,
            verify_details_when_disabled: details,
        },
    }
}

fn expect_unmapped(monitor: &MonitorState, details: bool) -> (result: ExpectedMonitorState)
    ensures
        result@ == unmapped_state(monitor@, details),
{
    ExpectedMonitorState {
        output_name: monitor.output_name.clone(),
        monitor_id: monitor.id.clone(),
        enabled: monitor.enabled,
        mode: text::decimal(monitor.width as i128).concat("x").concat(
            text::decimal(monitor.height as i128).as_str(),
        ).concat("@").concat(monitor.refresh_rate.text().as_str()),
        x: monitor.x,
        y: monitor.y,
        scale: monitor.scale,
        transform: monitor.transform,
        verify_details_when_disabled: details,
    }
}

fn expected_monitor_states(
    profile: &Profile,
    current: &Vec<MonitorState>,
    mappings: &Vec<RuleMapping>,
    details: bool,
) -> (result: Vec<ExpectedMonitorState>)
    ensures
        expected_views(result@) == expected_layout(
            profile@,
            monitor::views(current@),
            render::mapping_views(mappings@),
            details,
        ),
{
    let ghost connected = monitor::views(current@);
    let ghost rules = render::mapping_views(mappings@);
    let ghost mapped = rules.map_values(
        |mapping: RuleView| mapped_state(profile@, connected, mapping, details),
    );
    let mut result: Vec<ExpectedMonitorState> = Vec::new();
    let mut i: usize = 0;
    while i < mappings.len()
        invariant
            i <= mappings@.len(),
            connected == monitor::views(current@),
            rules == render::mapping_views(mappings@),
            mapped == rules.map_values(
                |mapping: RuleView| mapped_state(profile@, connected, mapping, details),
            ),
            expected_views(result@) == mapped.take(i as int),
        decreases mappings@.len() - i,
    {
        let ghost before = result@;
        assert(rules[i as int] == mappings@[i as int]@);
        result.push(expect_mapped(profile, current, &mappings[i], details));
        assert(expected_views(result@) =~= expected_views(before).push(mapped[i as int]));
        assert(expected_views(result@) =~= mapped.take(i + 1));
        i += 1;
    }
    assert(mapped.take(mapped.len() as int) =~= mapped);
    assert(mapped + unmapped_states(connected, rules, details, 0) =~= mapped);
    let mut j: usize = 0;
    while j < current.len()
        invariant
            j <= current@.len(),
            connected == monitor::views(current@),
            rules == render::mapping_views(mappings@),
            expected_views(result@) == mapped + unmapped_states(
                connected,
                rules,
                details,
                j as int,
            ),
        decreases current@.len() - j,
    {
        let ghost before = result@;
        assert(connected[j as int] == current@[j as int]@);
        if !maps_output(mappings, current[j].output_name.as_str()) {
            result.push(expect_unmapped(&current[j], details));
            assert(expected_views(result@) =~= expected_views(before).push(
                unmapped_state(connected[j as int], details),
            ));
            assert(expected_views(result@) =~= mapped + unmapped_states(
                connected,
                rules,
                details,
                j + 1,
            ));
        }
        j += 1;
    }
    result
}

// ---------------------------------------------------------------------------
// Verification
// ---------------------------------------------------------------------------
/// Where a layout is not as expected: what is wrong, and more about it where
/// there is more to say.
#[derive(Debug, PartialEq, Eq)]
pub struct Mismatch {
    pub summary: String,
    pub detail: Option<String>,
}

/// What a [`Mismatch`] holds.
pub struct MismatchView {
    pub summary: Seq<char>,
    pub detail: Option<Seq<char>>,
}

impl View for Mismatch {
    type V = MismatchView;

    open spec fn view(&self) -> MismatchView {
        MismatchView {
            summary: self.summary@,
            detail: match self.detail {
                Some(detail) => Some(detail@),
                None => None,
            },
        }
    }
}

impl MismatchView {
    /// All that is known of it.
    pub open spec fn full(self) -> Seq<char> {
        match self.detail {
            Some(detail) => error::within(self.summary, detail),
            None => self.summary,
        }
    }
}

impl Mismatch {
    /// All that is known of it.
    pub fn full(&self) -> (result: String)
        ensures
            result@ == self@.full(),
    {
        match &self.detail {
            Some(detail) => self.summary.clone().concat(": ").concat(detail.as_str()),
            None => self.summary.clone(),
        }
    }
}

/// Some expected state is for the connector `output_name`.
pub open spec fn is_expected(expected: Seq<ExpectedView>, output_name: Seq<char>) -> bool {
    exists|i: int| 0 <= i < expected.len() && (#[trigger] expected[i]).output_name == output_name
}

/// The connectors of those of the first `n` monitors that are not expected.
pub open spec fn unexpected_outputs(
    expected: Seq<ExpectedView>,
    actual: Seq<MonitorView>,
    n: int,
) -> Seq<Seq<char>>
    decreases n,
{
    if n <= 0 {
        seq![]
    } else if is_expected(expected, actual[n - 1].output_name) {
        unexpected_outputs(expected, actual, n - 1)
    } else {
        unexpected_outputs(expected, actual, n - 1).push(actual[n - 1].output_name)
    }
}

/// `true` or `false`.
pub open spec fn bool_text(b: bool) -> Seq<char> {
    if b {
        "true"@
    } else {
        "false"@
    }
}

/// A mismatch with no more to say.
pub open spec fn plain(summary: Seq<char>) -> Option<MismatchView> {
    Some(MismatchView { summary, detail: None })
}

/// How `actual` differs from what is expected of one monitor.
pub open spec fn state_mismatch(expected: ExpectedView, actual: Seq<MonitorView>) -> Option<
    MismatchView,
> {
    let output = "output `"@ + expected.output_name + "`"@;
    match monitor_on(actual, expected.output_name) {
        None => plain("monitor topology drifted: "@ + output + " disappeared or was renamed"@),
        Some(found) => if found.id != expected.monitor_id {
            plain(
                "monitor topology drifted: "@ + output + " identity changed from `"@
                    + expected.monitor_id + "` to `"@ + found.id + "`"@,
            )
        } else if found.enabled != expected.enabled {
            plain(
                output + " enabled state is "@ + bool_text(found.enabled) + ", expected "@
                    + bool_text(expected.enabled),
            )
        } else if !expected.enabled && !expected.verify_details_when_disabled {
            None
        } else if found.x != expected.x || found.y != expected.y {
            plain(output + " position did not converge"@)
        } else if !double::within(found.scale, expected.scale, SCALE_TOLERANCE as int) {
            plain(output + " scale did not converge"@)
        } else if found.transform != expected.transform {
            plain(output + " transform did not converge"@)
        } else {
            match modes::mode_mismatch(expected.mode, found) {
                Some(detail) => Some(
                    MismatchView {
                        summary: output + " mode did not converge"@,
                        detail: Some(detail),
                    },
                ),
                None => None,
            }
        },
    }
}

/// How `actual` differs from the first `n` of `expected`.
pub open spec fn states_mismatch(
    expected: Seq<ExpectedView>,
    actual: Seq<MonitorView>,
    n: int,
) -> Option<MismatchView>
    decreases n,
{
    if n <= 0 {
        None
    } else {
        match states_mismatch(expected, actual, n - 1) {
            Some(mismatch) => Some(mismatch),
            None => state_mismatch(expected[n - 1], actual),
        }
    }
}

/// How `actual` differs from `expected`: by the number of monitors, or by one
/// of them.
pub open spec fn layout_mismatch(expected: Seq<ExpectedView>, actual: Seq<MonitorView>) -> Option<
    MismatchView,
> {
    if actual.len() != expected.len() {
        let unexpected = unexpected_outputs(expected, actual, actual.len() as int);
        plain(
            "monitor topology drifted: expected "@ + text::int_text(expected.len() as int)
                + " outputs, found "@ + text::int_text(actual.len() as int)
                + "; unexpected outputs: "@ + (if unexpected.len() == 0 {
                "none"@
            } else {
                text::joined(unexpected, ", "@)
            }),
        )
    } else {
        states_mismatch(expected, actual, expected.len() as int)
    }
}

/// `result` says that there is no mismatch, or which.
pub open spec fn reports(result: Result<(), Mismatch>, mismatch: Option<MismatchView>) -> bool {
    match (result, mismatch) {
        (Ok(_), None) => true,
        (Err(found), Some(view)) => found@ == view,
        _ => false,
    }
}

fn mismatch(summary: String) -> (result: Mismatch)
    ensures
        Some(result@) == plain(summary@),
{
    Mismatch { summary, detail: None }
}

fn expects(expected: &Vec<ExpectedMonitorState>, output_name: &str) -> (result: bool)
    ensures
        result == is_expected(expected_views(expected@), output_name@),
{
    let ghost all = expected_views(expected@);
    let mut i: usize = 0;
    while i < expected.len()
        invariant
            i <= expected@.len(),
            all == expected_views(expected@),
            forall|j: int| 0 <= j < i ==> (#[trigger] all[j]).output_name != output_name@,
        decreases expected@.len() - i,
    {
        assert(all[i as int].output_name == expected@[i as int].output_name@);
        if text::same(expected[i].output_name.as_str(), output_name) {
            return true;
        }
        i += 1;
    }
    false
}

fn find_unexpected(expected: &Vec<ExpectedMonitorState>, actual: &Vec<MonitorState>) -> (result:
    Vec<String>)
    ensures
        text::texts(result@) == unexpected_outputs(
            expected_views(expected@),
            monitor::views(actual@),
            actual@.len() as int,
        ),
{
    let ghost wanted = expected_views(expected@);
    let ghost found = monitor::views(actual@);
    let mut result: Vec<String> = Vec::new();
    assert(text::texts(result@) =~= seq![]);
    let mut i: usize = 0;
    while i < actual.len()
        invariant
            i <= actual@.len(),
            wanted == expected_views(expected@),
            found == monitor::views(actual@),
            text::texts(result@) == unexpected_outputs(wanted, found, i as int),
        decreases actual@.len() - i,
    {
        let ghost before = result@;
        assert(found[i as int].output_name == actual@[i as int].output_name@);
        if !expects(expected, actual[i].output_name.as_str()) {
            result.push(actual[i].output_name.clone());
            assert(text::texts(result@) =~= text::texts(before).push(found[i as int].output_name));
        }
        i += 1;
    }
    result
}

/// `true` or `false`.
pub fn bool_string(b: bool) -> (result: &'static str)
    ensures
        result@ == bool_text(b),
{
    if b {
        "true"
    } else {
        "false"
    }
}

fn verify_state(expected: &ExpectedMonitorState, actual: &Vec<MonitorState>) -> (result: Result<
    (),
    Mismatch,
>)
    ensures
        reports(result, state_mismatch(expected@, monitor::views(actual@))),
{
    let output: String = "output `".to_owned().concat(expected.output_name.as_str()).concat("`");
    let found: &MonitorState = match find_monitor_on(actual, expected.output_name.as_str()) {
        None => {
            return Err(
                mismatch(
                    "monitor topology drifted: ".to_owned().concat(output.as_str()).concat(
                        " disappeared or was renamed",
                    ),
                ),
            );
        },
        Some(i) => &actual[i],
    };
    if found.id != expected.monitor_id {
        return Err(
            mismatch(
                "monitor topology drifted: ".to_owned().concat(output.as_str()).concat(
                    " identity changed from `",
                ).concat(expected.monitor_id.as_str()).concat("` to `").concat(
                    found.id.as_str(),
                ).concat("`"),
            ),
        );
    }
    if found.enabled != expected.enabled {
        return Err(
            mismatch(
                output.concat(" enabled state is ").concat(bool_string(found.enabled)).concat(
                    ", expected ",
                ).concat(bool_string(expected.enabled)),
            ),
        );
    }
    if !expected.enabled && !expected.verify_details_when_disabled {
        return Ok(());
    }
    if found.x != expected.x || found.y != expected.y {
        return Err(mismatch(output.concat(" position did not converge")));
    }
    if !found.scale.close_to(&expected.scale, &Decimal::from_units(SCALE_TOLERANCE)) {
        return Err(mismatch(output.concat(" scale did not converge")));
    }
    if found.transform != expected.transform {
        return Err(mismatch(output.concat(" transform did not converge")));
    }
    match modes::verify_expected_mode(expected.mode.as_str(), found) {
        Ok(()) => Ok(()),
        Err(error) => Err(
            Mismatch {
                summary: output.concat(" mode did not converge"),
                detail: Some(error.to_string()),
            },
        ),
    }
}

proof fn lemma_states_mismatch_grows(
    expected: Seq<ExpectedView>,
    actual: Seq<MonitorView>,
    i: int,
    n: int,
)
    requires
        0 <= i <= n,
        states_mismatch(expected, actual, i) is Some,
    ensures
        states_mismatch(expected, actual, n) == states_mismatch(expected, actual, i),
    decreases n,
{
    if i < n {
        lemma_states_mismatch_grows(expected, actual, i, n - 1);
    }
}

/// Whether the monitors look as expected.
pub fn verify_expected_state(expected: &Vec<ExpectedMonitorState>, actual: &Vec<MonitorState>) -> (result:
    Result<(), Mismatch>)
    ensures
        reports(
            result,
            layout_mismatch(expected_views(expected@), monitor::views(actual@)),
        ),
{
    let ghost wanted = expected_views(expected@);
    let ghost found = monitor::views(actual@);
    if actual.len() != expected.len() {
        let unexpected: Vec<String> = find_unexpected(expected, actual);
        assert(unexpected@.len() == text::texts(unexpected@).len());
        let names: String = if unexpected.len() == 0 {
            "none".to_owned()
        } else {
            text::join(&unexpected, ", ")
        };
        return Err(
            mismatch(
                "monitor topology drifted: expected ".to_owned().concat(
                    text::decimal(expected.len() as i128).as_str(),
                ).concat(" outputs, found ").concat(
                    text::decimal(actual.len() as i128).as_str(),
                ).concat("; unexpected outputs: ").concat(names.as_str()),
            ),
        );
    }
    let mut i: usize = 0;
    while i < expected.len()
        invariant
            i <= expected@.len(),
            wanted == expected_views(expected@),
            found == monitor::views(actual@),
            wanted.len() == found.len(),
            states_mismatch(wanted, found, i as int) is None,
        decreases expected@.len() - i,
    {
        assert(wanted[i as int] == expected@[i as int]@);
        match verify_state(&expected[i], actual) {
            Err(mismatch) => {
                proof {
                    lemma_states_mismatch_grows(wanted, found, i + 1, wanted.len() as int);
                }
                return Err(mismatch);
            },
            Ok(()) => {},
        }
        i += 1;
    }
    Ok(())
}

// ---------------------------------------------------------------------------
// Warnings
// ---------------------------------------------------------------------------
/// What deserves attention before a profile is applied.
#[derive(Debug, PartialEq, Eq)]
pub enum ApplyWarning {
    OverlappingOutputs { left: String, right: String },
    DisablesAllOutputs,
}

/// What an [`ApplyWarning`] holds.
pub enum WarningView {
    OverlappingOutputs { left: Seq<char>, right: Seq<char> },
    DisablesAllOutputs,
}

impl View for ApplyWarning {
    type V = WarningView;

    open spec fn view(&self) -> WarningView {
        match self {
            ApplyWarning::OverlappingOutputs { left, right } => WarningView::OverlappingOutputs {
                left: left@,
                right: right@,
            },
            ApplyWarning::DisablesAllOutputs => WarningView::DisablesAllOutputs,
        }
    }
}

/// What warnings hold.
pub open spec fn warning_views(warnings: Seq<ApplyWarning>) -> Seq<WarningView> {
    warnings.map_values(|warning: ApplyWarning| warning@)
}

impl Clone for ApplyWarning {
    fn clone(&self) -> (result: Self)
        ensures
            result@ == self@,
    {
        match self {
            ApplyWarning::OverlappingOutputs { left, right } => ApplyWarning::OverlappingOutputs {
                left: left.clone(),
                right: right.clone(),
            },
            ApplyWarning::DisablesAllOutputs => ApplyWarning::DisablesAllOutputs,
        }
    }
}

impl WarningView {
    /// The warning in words.
    pub open spec fn message(self) -> Seq<char> {
        match self {
            WarningView::OverlappingOutputs { left, right } => "outputs `"@ + left + "` and `"@
                + right + "` overlap"@,
            WarningView::DisablesAllOutputs => "profile disables every saved output"@,
        }
    }
}

impl ApplyWarning {
    /// The warning in words.
    pub fn message(&self) -> (result: String)
        ensures
            result@ == self@.message(),
    {
        match self {
            ApplyWarning::OverlappingOutputs { left, right } => "outputs `".to_owned().concat(
                left.as_str(),
            ).concat("` and `").concat(right.as_str()).concat("` overlap"),
            ApplyWarning::DisablesAllOutputs => "profile disables every saved output".to_owned(),
        }
    }
}

/// A part of the desktop: a place, a size in pixels and a scale in units.
pub struct RectView {
    pub x: int,
    pub y: int,
    pub width: int,
    pub height: int,
    pub scale: int,
}

/// A side that begins at `start` and is `size` pixels long at `scale` ends behind `x`.
pub open spec fn ends_behind(start: int, size: int, scale: int, x: int) -> bool {
    double::ends_at(start, size as nat, scale) > x * double::one()
}

/// Two parts of the desktop have a point in common inside both.
pub open spec fn overlap(left: RectView, right: RectView) -> bool {
    &&& ends_behind(right.x, right.width, right.scale, left.x)
    &&& ends_behind(left.x, left.width, left.scale, right.x)
    &&& ends_behind(right.y, right.height, right.scale, left.y)
    &&& ends_behind(left.y, left.height, left.scale, right.y)
}

/// The size that `mode` spells out, with or without a rate.
pub open spec fn spelled_size(mode: Seq<char>) -> Option<(int, int)> {
    let dimensions = match text::split_at_first(mode, '@') {
        Some((before, _)) => before,
        None => mode,
    };
    match text::split_at_first(dimensions, 'x') {
        None => None,
        Some((width, height)) => match (
            number::bounded_integer(width, i32::MIN as int, i32::MAX as int),
            number::bounded_integer(height, i32::MIN as int, i32::MAX as int),
        ) {
            (Some(w), Some(h)) => Some((w, h)),
            _ => None,
        },
    }
}

/// The size of `output` in pixels: the one that its mode spells out, or the one
/// that its mode has on the monitor that it is mapped to.
pub open spec fn output_size(
    output: ProfileOutputView,
    current: Seq<MonitorView>,
    mappings: Seq<RuleView>,
) -> Option<(int, int)> {
    match spelled_size(output.mode) {
        Some(size) => Some(size),
        None => match mapping_for(mappings, output.monitor_id) {
            None => None,
            Some(mapping) => match monitor_on(current, mapping.output_name) {
                None => None,
                Some(found) => match modes::dimensions_of(output.mode, found) {
                    Ok(size) => Some(size),
                    Err(_) => None,
                },
            },
        },
    }
}

/// Whether `transform` turns an output on its side.
pub open spec fn turns(transform: int) -> bool {
    transform == 1 || transform == 3 || transform == 5 || transform == 7
}

/// The part of the desktop that `output` covers.
pub open spec fn covered(
    output: ProfileOutputView,
    current: Seq<MonitorView>,
    mappings: Seq<RuleView>,
) -> Option<RectView> {
    match output_size(output, current, mappings) {
        None => None,
        Some((width, height)) => if width <= 0 || height <= 0 || output.scale <= 0 {
            None
        } else {
            Some(
                RectView {
                    x: output.x as int,
                    y: output.y as int,
                    width: if turns(output.transform as int) {
                        height
                    } else {
                        width
                    },
                    height: if turns(output.transform as int) {
                        width
                    } else {
                        height
                    },
                    scale: output.scale,
                },
            )
        },
    }
}

/// `left` and `right` cover a common part of the desktop.
pub open spec fn outputs_overlap(
    left: ProfileOutputView,
    right: ProfileOutputView,
    current: Seq<MonitorView>,
    mappings: Seq<RuleView>,
) -> bool {
    match (covered(left, current, mappings), covered(right, current, mappings)) {
        (Some(l), Some(r)) => overlap(l, r),
        _ => false,
    }
}

/// The outputs between `i` and `n` that overlap the one at `i`.
pub open spec fn overlaps_with(
    outputs: Seq<ProfileOutputView>,
    current: Seq<MonitorView>,
    mappings: Seq<RuleView>,
    i: int,
    n: int,
) -> Seq<WarningView>
    decreases n - i,
{
    if n <= i + 1 {
        seq![]
    } else {
        let earlier = overlaps_with(outputs, current, mappings, i, n - 1);
        if outputs_overlap(outputs[i], outputs[n - 1], current, mappings) {
            earlier.push(
                WarningView::OverlappingOutputs {
                    left: outputs[i].monitor_id,
                    right: outputs[n - 1].monitor_id,
                },
            )
        } else {
            earlier
        }
    }
}

/// The overlaps of the first `n` outputs with later ones.
pub open spec fn all_overlaps(
    outputs: Seq<ProfileOutputView>,
    current: Seq<MonitorView>,
    mappings: Seq<RuleView>,
    n: int,
) -> Seq<WarningView>
    decreases n,
{
    if n <= 0 {
        seq![]
    } else {
        all_overlaps(outputs, current, mappings, n - 1) + overlaps_with(
            outputs,
            current,
            mappings,
            n - 1,
            outputs.len() as int,
        )
    }
}

/// What deserves attention before `profile` is applied.
pub open spec fn warnings_for(
    profile: ProfileView,
    current: Seq<MonitorView>,
    mappings: Seq<RuleView>,
) -> Seq<WarningView> {
    let enabled = render::outputs_that(profile.outputs, true, profile.outputs.len() as int);
    let dark: Seq<WarningView> = if profile.outputs.len() > 0 && enabled.len() == 0 {
        seq![WarningView::DisablesAllOutputs]
    } else {
        seq![]
    };
    dark + all_overlaps(enabled, current, mappings, enabled.len() as int)
}

/// A part of the desktop.
struct Rect {
    x: i32,
    y: i32,
    width: i32,
    height: i32,
    scale: Decimal,
}

impl View for Rect {
    type V = RectView;

    closed spec fn view(&self) -> RectView {
        RectView {
            x: self.x as int,
            y: self.y as int,
            width: self.width as int,
            height: self.height as int,
            scale: self.scale.value(),
        }
    }
}

impl Rect {
    #[verifier::type_invariant]
    spec fn has_size(self) -> bool {
        self.width > 0 && self.height > 0 && self.scale.value() > 0
    }

    fn overlaps(&self, other: &Rect) -> (result: bool)
        ensures
            result == overlap(self@, other@),
    {
        proof {
            use_type_invariant(self);
            use_type_invariant(other);
        }
        let (scale, other_scale): (i128, i128) = (self.scale.units(), other.scale.units());
        double::ends_behind(other.x, other.width as u32, other_scale, self.x)
            && double::ends_behind(self.x, self.width as u32, scale, other.x)
            && double::ends_behind(other.y, other.height as u32, other_scale, self.y)
            && double::ends_behind(self.y, self.height as u32, scale, other.y)
    }
}

fn parse_mode_dimensions(mode: &str) -> (result: Option<(i32, i32)>)
    ensures
        match (result, spelled_size(mode@)) {
            (Some((width, height)), Some((w, h))) => width == w && height == h,
            (None, None) => true,
            _ => false,
        },
{
    let dimensions: &str = match text::split_once(mode, '@') {
        Some((before, _)) => before,
        None => mode,
    };
    match text::split_once(dimensions, 'x') {
        None => None,
        Some((width, height)) => {
            let w: Option<i64> = number::parse_integer(width, i32::MIN as i64, i32::MAX as i64);
            let h: Option<i64> = number::parse_integer(height, i32::MIN as i64, i32::MAX as i64);
            match (w, h) {
                (Some(w), Some(h)) => Some((w as i32, h as i32)),
                _ => None,
            }
        },
    }
}

fn size_of_output(
    output: &ProfileOutput,
    current: &Vec<MonitorState>,
    mappings: &Vec<RuleMapping>,
) -> (result: Option<(i32, i32)>)
    ensures
        match (
            result,
            output_size(output@, monitor::views(current@), render::mapping_views(mappings@)),
        ) {
            (Some((width, height)), Some((w, h))) => width == w && height == h,
            (None, None) => true,
            _ => false,
        },
{
    match parse_mode_dimensions(output.mode.as_str()) {
        Some(size) => {
            return Some(size);
        },
        None => {},
    }
    match find_mapping(mappings, output.monitor_id.as_str()) {
        None => None,
        Some(i) => match find_monitor_on(current, mappings[i].output_name.as_str()) {
            None => None,
            Some(j) => match modes::resolved_mode_dimensions(output.mode.as_str(), &current[j]) {
                Ok(size) => Some(size),
                Err(_) => None,
            },
        },
    }
}

fn output_rect(
    output: &ProfileOutput,
    current: &Vec<MonitorState>,
    mappings: &Vec<RuleMapping>,
) -> (result: Option<Rect>)
    ensures
        match (
            result,
            covered(output@, monitor::views(current@), render::mapping_views(mappings@)),
        ) {
            (Some(rect), Some(view)) => rect@ == view,
            (None, None) => true,
            _ => false,
        },
{
    match size_of_output(output, current, mappings) {
        None => None,
        Some((width, height)) => {
            if width <= 0 || height <= 0 || output.scale.units() <= 0 {
                return None;
            }
            let turned: bool = output.transform == 1 || output.transform == 3 || output.transform
                == 5 || output.transform == 7;
            Some(
                Rect {
                    x: output.x,
                    y: output.y,
                    width: if turned {
                        height
                    } else {
                        width
                    },
                    height: if turned {
                        width
                    } else {
                        height
                    },
                    scale: output.scale,
                },
            )
        },
    }
}

fn do_overlap(
    left: &ProfileOutput,
    right: &ProfileOutput,
    current: &Vec<MonitorState>,
    mappings: &Vec<RuleMapping>,
) -> (result: bool)
    ensures
        result == outputs_overlap(
            left@,
            right@,
            monitor::views(current@),
            render::mapping_views(mappings@),
        ),
{
    match (output_rect(left, current, mappings), output_rect(right, current, mappings)) {
        (Some(l), Some(r)) => l.overlaps(&r),
        _ => false,
    }
}

fn apply_warnings(
    profile: &Profile,
    current: &Vec<MonitorState>,
    mappings: &Vec<RuleMapping>,
) -> (result: Vec<ApplyWarning>)
    ensures
        warning_views(result@) == warnings_for(
            profile@,
            monitor::views(current@),
            render::mapping_views(mappings@),
        ),
{
    let ghost connected = monitor::views(current@);
    let ghost rules = render::mapping_views(mappings@);
    let enabled: Vec<ProfileOutput> = render::collect_outputs(&profile.outputs, true);
    let ghost outputs = store::output_views(enabled@);
    let mut warnings: Vec<ApplyWarning> = Vec::new();
    assert(enabled@.len() == outputs.len());
    if profile.outputs.len() > 0 && enabled.len() == 0 {
        warnings.push(ApplyWarning::DisablesAllOutputs);
        assert(warning_views(warnings@) =~= seq![WarningView::DisablesAllOutputs]);
    } else {
        assert(warning_views(warnings@) =~= seq![]);
    }
    let ghost dark = warning_views(warnings@);
    assert(dark =~= dark + all_overlaps(outputs, connected, rules, 0));
    let mut i: usize = 0;
    while i < enabled.len()
        invariant
            i <= enabled@.len(),
            connected == monitor::views(current@),
            rules == render::mapping_views(mappings@),
            outputs == store::output_views(enabled@),
            warning_views(warnings@) == dark + all_overlaps(outputs, connected, rules, i as int),
        decreases enabled@.len() - i,
    {
        let ghost so_far = warning_views(warnings@);
        let mut j: usize = i + 1;
        assert(so_far =~= so_far + overlaps_with(outputs, connected, rules, i as int, i + 1));
        while j < enabled.len()
            invariant
                i < j <= enabled@.len(),
                connected == monitor::views(current@),
                rules == render::mapping_views(mappings@),
                outputs == store::output_views(enabled@),
                warning_views(warnings@) == so_far + overlaps_with(
                    outputs,
                    connected,
                    rules,
                    i as int,
                    j as int,
                ),
            decreases enabled@.len() - j,
        {
            let ghost before = warnings@;
            assert(outputs[i as int] == enabled@[i as int]@);
            assert(outputs[j as int] == enabled@[j as int]@);
            if do_overlap(&enabled[i], &enabled[j], current, mappings) {
                let warning = ApplyWarning::OverlappingOutputs {
                    left: enabled[i].monitor_id.clone(),
                    right: enabled[j].monitor_id.clone(),
                };
                let ghost view = warning@;
                warnings.push(warning);
                assert(warning_views(warnings@) =~= warning_views(before).push(view));
            }
            assert(warning_views(warnings@) =~= so_far + overlaps_with(
                outputs,
                connected,
                rules,
                i as int,
                j + 1,
            ));
            j += 1;
        }
        assert(warning_views(warnings@) =~= dark + all_overlaps(
            outputs,
            connected,
            rules,
            i + 1,
        ));
        i += 1;
    }
    warnings
}

// ---------------------------------------------------------------------------
// Scales
// ---------------------------------------------------------------------------
/// Why the scale of the output of `mapping` does not fit its monitor. Modes
/// that spell out a size have been looked at with the profile itself.
pub open spec fn scale_error(
    profile: ProfileView,
    current: Seq<MonitorView>,
    mapping: RuleView,
) -> Option<Seq<char>> {
    match output_for(profile.outputs, mapping.monitor_id) {
        None => None,
        Some(output) => if validation::parsed_mode(output.mode) is Some {
            None
        } else {
            match monitor_on(current, mapping.output_name) {
                None => Some(
                    "profile `"@ + profile.name + "` output `"@ + output.monitor_id
                        + "` mapped to missing current output `"@ + mapping.output_name + "`"@,
                ),
                Some(found) => match modes::dimensions_of(output.mode, found) {
                    Err(reason) => Some(reason),
                    Ok((width, height)) => validation::logical_size_error(
                        profile.name,
                        output,
                        width,
                        height,
                    ),
                },
            }
        },
    }
}

/// Why the scale of one of the first `n` outputs does not fit its monitor.
pub open spec fn scales_error(
    profile: ProfileView,
    current: Seq<MonitorView>,
    mappings: Seq<RuleView>,
    n: int,
) -> Option<Seq<char>>
    decreases n,
{
    if n <= 0 {
        None
    } else {
        validation::either(
            scales_error(profile, current, mappings, n - 1),
            scale_error(profile, current, mappings[n - 1]),
        )
    }
}

/// Every output has a positive scale.
pub open spec fn scales_positive(outputs: Seq<ProfileOutputView>) -> bool {
    forall|i: int| 0 <= i < outputs.len() ==> (#[trigger] outputs[i]).scale > 0
}

fn validate_mapped_scale(profile: &Profile, current: &Vec<MonitorState>, mapping: &RuleMapping) -> (result:
    Result<(), Error>)
    requires
        scales_positive(profile@.outputs),
    ensures
        error::refused_as(
            result,
            scale_error(profile@, monitor::views(current@), mapping@),
        ),
{
    match find_output(&profile.outputs, mapping.monitor_id.as_str()) {
        None => Ok(()),
        Some(i) => {
            let output: &ProfileOutput = &profile.outputs[i];
            assert(profile@.outputs[i as int] == output@);
            if validation::parse_mode(output.mode.as_str()).is_some() {
                return Ok(());
            }
            match find_monitor_on(current, mapping.output_name.as_str()) {
                None => Err(
                    Error::new(
                        "profile `".to_owned().concat(profile.name.as_str()).concat(
                            "` output `",
                        ).concat(output.monitor_id.as_str()).concat(
                            "` mapped to missing current output `",
                        ).concat(mapping.output_name.as_str()).concat("`"),
                    ),
                ),
                Some(j) => match modes::resolved_mode_dimensions(
                    output.mode.as_str(),
                    &current[j],
                ) {
                    Err(error) => Err(error),
                    Ok((width, height)) => validation::validate_logical_size(
                        profile.name.as_str(),
                        output,
                        width,
                        height,
                    ),
                },
            }
        },
    }
}

proof fn lemma_scales_error_grows(
    profile: ProfileView,
    current: Seq<MonitorView>,
    mappings: Seq<RuleView>,
    i: int,
    n: int,
)
    requires
        0 <= i <= n,
        scales_error(profile, current, mappings, i) is Some,
    ensures
        scales_error(profile, current, mappings, n) == scales_error(
            profile,
            current,
            mappings,
            i,
        ),
    decreases n,
{
    if i < n {
        lemma_scales_error_grows(profile, current, mappings, i, n - 1);
    }
}

fn validate_mapped_output_scales(
    profile: &Profile,
    current: &Vec<MonitorState>,
    mappings: &Vec<RuleMapping>,
) -> (result: Result<(), Error>)
    requires
        scales_positive(profile@.outputs),
    ensures
        error::refused_as(
            result,
            scales_error(
                profile@,
                monitor::views(current@),
                render::mapping_views(mappings@),
                mappings@.len() as int,
            ),
        ),
{
    let ghost connected = monitor::views(current@);
    let ghost rules = render::mapping_views(mappings@);
    let mut i: usize = 0;
    while i < mappings.len()
        invariant
            i <= mappings@.len(),
            connected == monitor::views(current@),
            rules == render::mapping_views(mappings@),
            scales_positive(profile@.outputs),
            scales_error(profile@, connected, rules, i as int) is None,
        decreases mappings@.len() - i,
    {
        assert(rules[i as int] == mappings@[i as int]@);
        match validate_mapped_scale(profile, current, &mappings[i]) {
            Err(error) => {
                proof {
                    lemma_scales_error_grows(
                        profile@,
                        connected,
                        rules,
                        i + 1,
                        rules.len() as int,
                    );
                }
                return Err(error);
            },
            Ok(()) => {},
        }
        i += 1;
    }
    Ok(())
}

proof fn lemma_accepted_scales(profile: ProfileView)
    requires
        validation::profile_error(profile) is None,
    ensures
        scales_positive(profile.outputs),
        profile.outputs.len() <= validation::MAX_MONITORS_PER_PROFILE,
{
    crate::profile::store_laws::law_accepted_profiles_are_valid(profile);
    assert forall|i: int| 0 <= i < profile.outputs.len() implies (#[trigger] profile.outputs[i]).scale
        > 0 by {
        assert(crate::profile::store_laws::valid_output(profile.outputs[i], profile.monitors));
    }
}

// ---------------------------------------------------------------------------
// The way back
// ---------------------------------------------------------------------------
/// The profile that remembers `current` as it is.
pub open spec fn snapshot_profile(current: Seq<MonitorView>) -> ProfileView {
    ProfileView::of_monitors("rollback"@, current, seq![], seq![])
}

/// `outputs` all switched on.
pub open spec fn all_enabled(outputs: Seq<ProfileOutputView>) -> Seq<ProfileOutputView> {
    outputs.map_values(|output: ProfileOutputView| ProfileOutputView { enabled: true, ..output })
}

/// An output for `id` is switched off.
pub open spec fn is_disabled(outputs: Seq<ProfileOutputView>, id: Seq<char>) -> bool {
    exists|i: int|
        0 <= i < outputs.len() && !(#[trigger] outputs[i]).enabled && outputs[i].monitor_id == id
}

/// The commands of those of the first `n` mappings that are for monitors that
/// are switched off.
pub open spec fn disabling_rules(
    outputs: Seq<ProfileOutputView>,
    mappings: Seq<RuleView>,
    n: int,
) -> Seq<Seq<char>>
    decreases n,
{
    if n <= 0 {
        seq![]
    } else if is_disabled(outputs, mappings[n - 1].monitor_id) {
        disabling_rules(outputs, mappings, n - 1).push(mappings[n - 1].rule)
    } else {
        disabling_rules(outputs, mappings, n - 1)
    }
}

/// A batch and the layout that it is to bring about.
pub type WayBack = (Seq<char>, Seq<ExpectedView>);

/// The way back to `current`, given the commands that set it, and those that
/// set it with every output switched on.
///
/// A command that switches an output off says nothing of its mode and place,
/// so every output is set first and those that were off are switched off after.
pub open spec fn way_back_with(
    current: Seq<MonitorView>,
    plain: Result<RenderedView, Seq<char>>,
    configured: Result<RenderedView, Seq<char>>,
) -> Result<WayBack, Seq<char>> {
    let profile = snapshot_profile(current);
    match plain {
        Err(reason) => Err(error::within("failed to capture rollback monitor rules"@, reason)),
        Ok(rendered) => {
            let expected = expected_layout(profile, current, rendered.mappings, true);
            if render::outputs_that(profile.outputs, false, profile.outputs.len() as int).len()
                == 0 {
                Ok((rendered.batch, expected))
            } else {
                match configured {
                    Err(reason) => Err(
                        error::within(
                            "failed to capture rollback settings for disabled outputs"@,
                            reason,
                        ),
                    ),
                    Ok(all_on) => {
                        let rules = all_on.rules + disabling_rules(
                            profile.outputs,
                            rendered.mappings,
                            rendered.mappings.len() as int,
                        );
                        match render::batch_error(rules) {
                            Some(reason) => Err(
                                error::within("failed to render rollback monitor batch"@, reason),
                            ),
                            None => Ok((render::batch_text(rules), expected)),
                        }
                    },
                }
            }
        },
    }
}

/// `result` is the way back to `current`.
pub open spec fn is_way_back(
    result: Result<WayBack, Seq<char>>,
    current: Seq<MonitorView>,
) -> bool {
    let profile = snapshot_profile(current);
    let all_on = ProfileView { outputs: all_enabled(profile.outputs), ..profile };
    exists|
        plain: Result<RenderedView, Seq<char>>,
        configured: Result<RenderedView, Seq<char>>,
    |
        #![trigger way_back_with(current, plain, configured)]
        render::is_rendering(plain, profile, current, MonitorMatchMode::Explicit)
            && render::is_rendering(configured, all_on, current, MonitorMatchMode::Explicit)
            && result == way_back_with(current, plain, configured)
}

/// The broadest part of why there is no way back to `current`.
pub open spec fn way_back_head(
    plain: Result<RenderedView, Seq<char>>,
    configured: Result<RenderedView, Seq<char>>,
) -> Seq<char> {
    match (plain, configured) {
        (Err(_), _) => "failed to capture rollback monitor rules"@,
        (_, Err(_)) => "failed to capture rollback settings for disabled outputs"@,
        _ => "failed to render rollback monitor batch"@,
    }
}

/// `told` is why there is no way back to `current`, and `head` the broadest part
/// of it.
pub open spec fn is_way_back_refusal(
    told: Seq<char>,
    head: Seq<char>,
    current: Seq<MonitorView>,
) -> bool {
    let profile = snapshot_profile(current);
    let all_on = ProfileView { outputs: all_enabled(profile.outputs), ..profile };
    exists|
        plain: Result<RenderedView, Seq<char>>,
        configured: Result<RenderedView, Seq<char>>,
    |
        #![trigger way_back_with(current, plain, configured)]
        render::is_rendering(plain, profile, current, MonitorMatchMode::Explicit)
            && render::is_rendering(configured, all_on, current, MonitorMatchMode::Explicit)
            && way_back_with(current, plain, configured) == Err::<WayBack, _>(told) && head
            == way_back_head(plain, configured)
}

fn enable_all(profile: Profile) -> (result: Profile)
    ensures
        result@ == (ProfileView { outputs: all_enabled(profile@.outputs), ..profile@ }),
{
    let mut profile: Profile = profile;
    let ghost before = profile@;
    let mut i: usize = 0;
    while i < profile.outputs.len()
        invariant
            i <= profile.outputs@.len() == before.outputs.len(),
            profile@.name == before.name,
            profile@.created_at == before.created_at,
            profile@.updated_at == before.updated_at,
            profile@.monitors == before.monitors,
            profile@.outputs == all_enabled(before.outputs).take(i as int) + before.outputs.skip(
                i as int,
            ),
        decreases profile.outputs@.len() - i,
    {
        let ghost outputs = profile@.outputs;
        profile.outputs[i].enabled = true;
        assert(profile@.outputs =~= outputs.update(
            i as int,
            ProfileOutputView { enabled: true, ..outputs[i as int] },
        ));
        assert(outputs[i as int] == before.outputs[i as int]);
        assert(profile@.outputs =~= all_enabled(before.outputs).take(i + 1) + before.outputs.skip(
            i + 1,
        ));
        i += 1;
    }
    assert(profile@.outputs =~= all_enabled(before.outputs));
    profile
}

fn names_disabled(outputs: &Vec<ProfileOutput>, id: &str) -> (result: bool)
    ensures
        result == is_disabled(store::output_views(outputs@), id@),
{
    let ghost all = store::output_views(outputs@);
    let mut i: usize = 0;
    while i < outputs.len()
        invariant
            i <= outputs@.len(),
            all == store::output_views(outputs@),
            forall|j: int|
                0 <= j < i ==> !(!(#[trigger] all[j]).enabled && all[j].monitor_id == id@),
        decreases outputs@.len() - i,
    {
        assert(all[i as int] == outputs@[i as int]@);
        if !outputs[i].enabled && text::same(outputs[i].monitor_id.as_str(), id) {
            return true;
        }
        i += 1;
    }
    false
}

fn collect_disabling_rules(outputs: &Vec<ProfileOutput>, mappings: &Vec<RuleMapping>) -> (result:
    Vec<String>)
    ensures
        text::texts(result@) == disabling_rules(
            store::output_views(outputs@),
            render::mapping_views(mappings@),
            mappings@.len() as int,
        ),
{
    let ghost all = store::output_views(outputs@);
    let ghost rules = render::mapping_views(mappings@);
    let mut result: Vec<String> = Vec::new();
    assert(text::texts(result@) =~= seq![]);
    let mut i: usize = 0;
    while i < mappings.len()
        invariant
            i <= mappings@.len(),
            all == store::output_views(outputs@),
            rules == render::mapping_views(mappings@),
            text::texts(result@) == disabling_rules(all, rules, i as int),
        decreases mappings@.len() - i,
    {
        let ghost before = result@;
        assert(rules[i as int] == mappings@[i as int]@);
        if names_disabled(outputs, mappings[i].monitor_id.as_str()) {
            result.push(mappings[i].rule.clone());
            assert(text::texts(result@) =~= text::texts(before).push(rules[i as int].rule));
        }
        i += 1;
    }
    result
}

/// What a batch and its expected layout hold.
pub open spec fn way_back_view(
    result: Result<(String, Vec<ExpectedMonitorState>), Error>,
) -> Result<WayBack, Seq<char>> {
    match result {
        Ok((batch, expected)) => Ok((batch@, expected_views(expected@))),
        Err(error) => Err(error@),
    }
}

fn render_rollback_snapshot(current: &Vec<MonitorState>) -> (result: Result<
    (String, Vec<ExpectedMonitorState>),
    Error,
>)
    requires
        2 * current@.len() < usize::MAX,
    ensures
        is_way_back(way_back_view(result), monitor::views(current@)),
        result matches Err(error) ==> is_way_back_refusal(
            error@,
            error.head(),
            monitor::views(current@),
        ),
{
    let ghost connected = monitor::views(current@);
    let profile: Profile = Profile::from_monitors(
        "rollback".to_owned(),
        current,
        String::new(),
        String::new(),
    );
    assert(profile@ == snapshot_profile(connected));
    let plain: Result<RenderedMonitorRules, Error> = render::render_monitor_rules_with_mode(
        &profile,
        current,
        MonitorMatchMode::Explicit,
    );
    let all_on: Profile = enable_all(profile.clone());
    let configured: Result<RenderedMonitorRules, Error> = render::render_monitor_rules_with_mode(
        &all_on,
        current,
        MonitorMatchMode::Explicit,
    );
    let ghost plain_view = error::outcome(plain);
    let ghost configured_view = error::outcome(configured);
    let ghost expected_result = way_back_with(connected, plain_view, configured_view);
    assert(is_way_back(expected_result, connected));
    let rendered: RenderedMonitorRules = match plain {
        Ok(rendered) => rendered,
        Err(error) => {
            return Err(error.context("failed to capture rollback monitor rules"));
        },
    };
    let expected: Vec<ExpectedMonitorState> = expected_monitor_states(
        &profile,
        current,
        &rendered.mappings,
        true,
    );
    let disabled: Vec<ProfileOutput> = render::collect_outputs(&profile.outputs, false);
    assert(disabled@.len() == store::output_views(disabled@).len());
    if disabled.len() == 0 {
        return Ok((rendered.batch, expected));
    }
    let configured_rules: RenderedMonitorRules = match configured {
        Ok(configured_rules) => configured_rules,
        Err(error) => {
            return Err(
                error.context("failed to capture rollback settings for disabled outputs"),
            );
        },
    };
    let mut rules: Vec<String> = configured_rules.rules;
    let ghost front = rules@;
    let mut disabling: Vec<String> = collect_disabling_rules(&profile.outputs, &rendered.mappings);
    let ghost tail = disabling@;
    rules.append(&mut disabling);
    assert(text::texts(rules@) =~= text::texts(front) + text::texts(tail));
    match render::render_hyprctl_batch(&rules) {
        Ok(batch) => Ok((batch, expected)),
        Err(error) => Err(error.context("failed to render rollback monitor batch")),
    }
}

// ---------------------------------------------------------------------------
// Plans
// ---------------------------------------------------------------------------
/// What applying a profile would do.
#[derive(Debug, PartialEq)]
pub struct ApplyPlan {
    pub profile_name: String,
    pub mappings: Vec<RuleMapping>,
    pub rules: Vec<String>,
    pub batch: String,
    pub warnings: Vec<ApplyWarning>,
    pub is_noop: bool,
    pub profile: Profile,
    pub expected: Vec<ExpectedMonitorState>,
    pub rollback_batch: String,
    pub rollback_expected: Vec<ExpectedMonitorState>,
    pub match_mode: MonitorMatchMode,
}

/// What an [`ApplyPlan`] holds.
#[verifier::ext_equal]
pub struct PlanView {
    pub profile_name: Seq<char>,
    pub mappings: Seq<RuleView>,
    pub rules: Seq<Seq<char>>,
    pub batch: Seq<char>,
    pub warnings: Seq<WarningView>,
    pub is_noop: bool,
    pub profile: ProfileView,
    pub expected: Seq<ExpectedView>,
    pub rollback_batch: Seq<char>,
    pub rollback_expected: Seq<ExpectedView>,
    pub match_mode: MonitorMatchMode,
}

impl View for ApplyPlan {
    type V = PlanView;

    open spec fn view(&self) -> PlanView {
        PlanView {
            profile_name: self.profile_name@,
            mappings: render::mapping_views(self.mappings@),
            rules: text::texts(self.rules@),
            batch: self.batch@,
            warnings: warning_views(self.warnings@),
            is_noop: self.is_noop,
            profile: self.profile@,
            expected: expected_views(self.expected@),
            rollback_batch: self.rollback_batch@,
            rollback_expected: expected_views(self.rollback_expected@),
            match_mode: self.match_mode,
        }
    }
}

/// A copy of `expected`.
fn copied_expected(expected: &Vec<ExpectedMonitorState>) -> (result: Vec<ExpectedMonitorState>)
    ensures
        expected_views(result@) == expected_views(expected@),
{
    let ghost all = expected_views(expected@);
    let mut result: Vec<ExpectedMonitorState> = Vec::new();
    let mut i: usize = 0;
    while i < expected.len()
        invariant
            i <= expected@.len(),
            all == expected_views(expected@),
            expected_views(result@) == all.take(i as int),
        decreases expected@.len() - i,
    {
        let ghost before = result@;
        result.push(expected[i].clone());
        assert(expected_views(result@) =~= expected_views(before).push(all[i as int]));
        assert(expected_views(result@) =~= all.take(i + 1));
        i += 1;
    }
    assert(all.take(all.len() as int) =~= all);
    result
}

/// A copy of `warnings`.
pub fn copied_warnings(warnings: &Vec<ApplyWarning>) -> (result: Vec<ApplyWarning>)
    ensures
        warning_views(result@) == warning_views(warnings@),
{
    let ghost all = warning_views(warnings@);
    let mut result: Vec<ApplyWarning> = Vec::new();
    let mut i: usize = 0;
    while i < warnings.len()
        invariant
            i <= warnings@.len(),
            all == warning_views(warnings@),
            warning_views(result@) == all.take(i as int),
        decreases warnings@.len() - i,
    {
        let ghost before = result@;
        result.push(warnings[i].clone());
        assert(warning_views(result@) =~= warning_views(before).push(all[i as int]));
        assert(warning_views(result@) =~= all.take(i + 1));
        i += 1;
    }
    assert(all.take(all.len() as int) =~= all);
    result
}

impl Clone for ApplyPlan {
    fn clone(&self) -> (result: Self)
        ensures
            result@ == self@,
    {
        let mut mappings: Vec<RuleMapping> = Vec::new();
        let ghost all = render::mapping_views(self.mappings@);
        let mut i: usize = 0;
        while i < self.mappings.len()
            invariant
                i <= self.mappings@.len(),
                all == render::mapping_views(self.mappings@),
                render::mapping_views(mappings@) == all.take(i as int),
            decreases self.mappings@.len() - i,
        {
            let ghost before = mappings@;
            mappings.push(self.mappings[i].clone());
            assert(render::mapping_views(mappings@) =~= render::mapping_views(before).push(
                all[i as int],
            ));
            assert(render::mapping_views(mappings@) =~= all.take(i + 1));
            i += 1;
        }
        assert(all.take(all.len() as int) =~= all);
        ApplyPlan {
            profile_name: self.profile_name.clone(),
            mappings,
            rules: text::copied(&self.rules),
            batch: self.batch.clone(),
            warnings: copied_warnings(&self.warnings),
            is_noop: self.is_noop,
            profile: self.profile.clone(),
            expected: copied_expected(&self.expected),
            rollback_batch: self.rollback_batch.clone(),
            rollback_expected: copied_expected(&self.rollback_expected),
            match_mode: self.match_mode,
        }
    }
}

/// What applying `profile` would do, given its commands and the way back.
pub open spec fn plan_with(
    profile: ProfileView,
    current: Seq<MonitorView>,
    mode: MonitorMatchMode,
    rendered: Result<RenderedView, Seq<char>>,
    way_back: Result<WayBack, Seq<char>>,
) -> Result<PlanView, Seq<char>> {
    match rendered {
        Err(reason) => Err(reason),
        Ok(rules) => match scales_error(
            profile,
            current,
            rules.mappings,
            rules.mappings.len() as int,
        ) {
            Some(reason) => Err(reason),
            None => match way_back {
                Err(reason) => Err(reason),
                Ok((rollback_batch, rollback_expected)) => {
                    let expected = expected_layout(profile, current, rules.mappings, false);
                    Ok(
                        PlanView {
                            profile_name: profile.name,
                            mappings: rules.mappings,
                            rules: rules.rules,
                            batch: rules.batch,
                            warnings: warnings_for(profile, current, rules.mappings),
                            is_noop: layout_mismatch(expected, current) is None,
                            profile,
                            expected,
                            rollback_batch,
                            rollback_expected,
                            match_mode: mode,
                        },
                    )
                },
            },
        },
    }
}

/// `result` is what applying `profile` to `current` would do, or why it cannot
/// be applied.
pub open spec fn is_plan(
    result: Result<PlanView, Seq<char>>,
    profile: ProfileView,
    current: Seq<MonitorView>,
    mode: MonitorMatchMode,
) -> bool {
    match validation::profile_error(profile) {
        Some(reason) => result == Err::<PlanView, _>(reason),
        None => exists|
            rendered: Result<RenderedView, Seq<char>>,
            way_back: Result<WayBack, Seq<char>>,
        |
            #![trigger plan_with(profile, current, mode, rendered, way_back)]
            render::is_rendering(rendered, profile, current, mode) && is_way_back(
                way_back,
                current,
            ) && result == plan_with(profile, current, mode, rendered, way_back),
    }
}

/// `told` is why `profile` cannot be applied to `current`, and `head` the broadest
/// part of it.
pub open spec fn is_refusal(
    told: Seq<char>,
    head: Seq<char>,
    profile: ProfileView,
    current: Seq<MonitorView>,
    mode: MonitorMatchMode,
) -> bool {
    match validation::profile_error(profile) {
        Some(reason) => told == reason && head == reason,
        None => exists|rendered: Result<RenderedView, Seq<char>>| #[trigger]
            render::is_rendering(rendered, profile, current, mode) && match rendered {
                Err(reason) => told == reason && head == reason,
                Ok(rules) => match scales_error(
                    profile,
                    current,
                    rules.mappings,
                    rules.mappings.len() as int,
                ) {
                    Some(reason) => told == reason && head == reason,
                    None => is_way_back_refusal(told, head, current),
                },
            },
    }
}

/// So many monitors can be counted twice over, and with those of a profile.
pub open spec fn plannable(connected: nat) -> bool {
    2 * connected + validation::MAX_MONITORS_PER_PROFILE < usize::MAX
}

/// What applying a profile that the user named would do.
pub fn plan_apply(profile: &Profile, current: &Vec<MonitorState>) -> (result: Result<
    ApplyPlan,
    Error,
>)
    requires
        plannable(current@.len()),
    ensures
        is_plan(
            error::outcome(result),
            profile@,
            monitor::views(current@),
            MonitorMatchMode::Explicit,
        ),
        result matches Err(error) ==> is_refusal(
            error@,
            error.head(),
            profile@,
            monitor::views(current@),
            MonitorMatchMode::Explicit,
        ),
{
    plan_apply_with_mode(profile, current, MonitorMatchMode::Explicit)
}

/// What applying a profile that the program chose would do.
pub fn plan_apply_automatic(profile: &Profile, current: &Vec<MonitorState>) -> (result: Result<
    ApplyPlan,
    Error,
>)
    requires
        plannable(current@.len()),
    ensures
        is_plan(
            error::outcome(result),
            profile@,
            monitor::views(current@),
            MonitorMatchMode::Automatic,
        ),
        result matches Err(error) ==> is_refusal(
            error@,
            error.head(),
            profile@,
            monitor::views(current@),
            MonitorMatchMode::Automatic,
        ),
{
    plan_apply_with_mode(profile, current, MonitorMatchMode::Automatic)
}

/// What applying `profile` would do.
pub fn plan_apply_with_mode(
    profile: &Profile,
    current: &Vec<MonitorState>,
    match_mode: MonitorMatchMode,
) -> (result: Result<ApplyPlan, Error>)
    requires
        plannable(current@.len()),
    ensures
        is_plan(error::outcome(result), profile@, monitor::views(current@), match_mode),
        result matches Err(error) ==> is_refusal(
            error@,
            error.head(),
            profile@,
            monitor::views(current@),
            match_mode,
        ),
{
    let ghost connected = monitor::views(current@);
    match validation::validate_profile(profile) {
        Err(error) => {
            return Err(error);
        },
        Ok(()) => {},
    }
    proof {
        lemma_accepted_scales(profile@);
    }
    let rendered: Result<RenderedMonitorRules, Error> = match match_mode {
        MonitorMatchMode::Automatic => render::render_monitor_rules_automatic(profile, current),
        MonitorMatchMode::Explicit => render::render_monitor_rules(profile, current),
    };
    let way_back: Result<(String, Vec<ExpectedMonitorState>), Error> = render_rollback_snapshot(
        current,
    );
    let ghost rendered_view = error::outcome(rendered);
    let ghost back_view = way_back_view(way_back);
    let ghost expected_result = plan_with(
        profile@,
        connected,
        match_mode,
        rendered_view,
        back_view,
    );
    assert(is_plan(expected_result, profile@, connected, match_mode));
    let rules: RenderedMonitorRules = match rendered {
        Ok(rules) => rules,
        Err(error) => {
            return Err(error);
        },
    };
    match validate_mapped_output_scales(profile, current, &rules.mappings) {
        Err(error) => {
            return Err(error);
        },
        Ok(()) => {},
    }
    let warnings: Vec<ApplyWarning> = apply_warnings(profile, current, &rules.mappings);
    let expected: Vec<ExpectedMonitorState> = expected_monitor_states(
        profile,
        current,
        &rules.mappings,
        false,
    );
    let (rollback_batch, rollback_expected) = match way_back {
        Ok(way) => way,
        Err(error) => {
            return Err(error);
        },
    };
    let is_noop: bool = verify_expected_state(&expected, current).is_ok();
    Ok(
        ApplyPlan {
            profile_name: profile.name.clone(),
            mappings: rules.mappings,
            rules: rules.rules,
            batch: rules.batch,
            warnings,
            is_noop,
            profile: profile.clone(),
            expected,
            rollback_batch,
            rollback_expected,
            match_mode,
        },
    )
}

/// The plan made again for monitors that may have changed.
pub fn replan_apply(plan: &ApplyPlan, current: &Vec<MonitorState>) -> (result: Result<
    ApplyPlan,
    Error,
>)
    requires
        plannable(current@.len()),
    ensures
        is_plan(
            error::outcome(result),
            plan@.profile,
            monitor::views(current@),
            plan@.match_mode,
        ),
        result matches Err(error) ==> is_refusal(
            error@,
            error.head(),
            plan@.profile,
            monitor::views(current@),
            plan@.match_mode,
        ),
{
    plan_apply_with_mode(&plan.profile, current, plan.match_mode)
}

/// Why a plan is not carried out, whatever else: it would leave every output
/// dark.
pub open spec fn unsafe_reason(plan: PlanView) -> Option<Seq<char>> {
    if plan.warnings.contains(WarningView::DisablesAllOutputs) {
        Some(
            "refusing to apply profile `"@ + plan.profile_name
                + "` because it disables every saved output"@,
        )
    } else {
        None
    }
}

/// Whether a plan may be carried out.
pub fn ensure_plan_safe_to_apply(plan: &ApplyPlan) -> (result: Result<(), Error>)
    ensures
        error::refused_as(result, unsafe_reason(plan@)),
{
    let ghost all = warning_views(plan.warnings@);
    let mut i: usize = 0;
    while i < plan.warnings.len()
        invariant
            i <= plan.warnings@.len(),
            all == warning_views(plan.warnings@),
            forall|j: int| 0 <= j < i ==> #[trigger] all[j] != WarningView::DisablesAllOutputs,
        decreases plan.warnings@.len() - i,
    {
        assert(all[i as int] == plan.warnings@[i as int]@);
        match &plan.warnings[i] {
            ApplyWarning::DisablesAllOutputs => {
                assert(plan@.warnings[i as int] == WarningView::DisablesAllOutputs);
                return Err(
                    Error::new(
                        "refusing to apply profile `".to_owned().concat(
                            plan.profile_name.as_str(),
                        ).concat("` because it disables every saved output"),
                    ),
                );
            },
            ApplyWarning::OverlappingOutputs { .. } => {},
        }
        i += 1;
    }
    Ok(())
}

} // verus!
