//! What a profile has to satisfy before it is saved or used.
use vstd::prelude::*;

use crate::double;
use crate::error;
use crate::error::Error;
use crate::number;
use crate::number::{Decimal, Rate, RateView};
use crate::profile::store;
use crate::profile::store::{
    Profile, ProfileMonitor, ProfileMonitorView, ProfileOutput, ProfileOutputView, ProfileStore,
    ProfileView,
};
use crate::text;

verus! {

/// The size of the largest store that is read or written.
pub const MAX_PROFILE_STORE_BYTES: u64 = 4 * 1024 * 1024;

/// How many profiles a store may hold.
pub const MAX_PROFILES: usize = 128;

/// How many monitors, and how many outputs, a profile may have.
pub const MAX_MONITORS_PER_PROFILE: usize = 16;

/// How long a profile's name may be.
pub const MAX_PROFILE_NAME_BYTES: usize = 128;

/// How long a monitor's identity may be.
pub const MAX_MONITOR_ID_BYTES: usize = 512;

/// How far from the origin an output may be placed, on either axis.
pub const MAX_COORDINATE: i32 = 1_000_000;

/// The smallest scale, in units.
pub const MIN_SCALE: i128 = 100_000_000_000_000_000;

/// The largest scale, in units.
pub const MAX_SCALE: i128 = 10_000_000_000_000_000_000;

/// How far a logical size may be from a whole pixel, in units.
pub const LOGICAL_SIZE_TOLERANCE: i128 = 10_000_000_000_000_000;

// ---------------------------------------------------------------------------
// Names
// ---------------------------------------------------------------------------
/// Why `value` is refused as a `label`, if it holds a control character.
pub open spec fn control_error(value: Seq<char>, label: Seq<char>) -> Option<Seq<char>> {
    if text::has_control(value) {
        Some(label + " must not contain control characters"@)
    } else {
        None
    }
}

/// Why `name` is no name for a profile.
pub open spec fn name_error(name: Seq<char>) -> Option<Seq<char>> {
    if name.len() == 0 || text::trimmed(name) != name {
        Some("profile name must not be empty or have surrounding whitespace"@)
    } else if text::byte_len(name) > MAX_PROFILE_NAME_BYTES {
        Some("profile name must be at most 128 bytes"@)
    } else {
        control_error(name, "profile name"@)
    }
}

/// Why `value` is no identity.
pub open spec fn identifier_error(value: Seq<char>, label: Seq<char>) -> Option<Seq<char>> {
    if value.len() == 0 || text::trimmed(value) != value {
        Some(label + " must not be empty or have surrounding whitespace"@)
    } else if text::byte_len(value) > MAX_MONITOR_ID_BYTES {
        Some(label + " must be at most 512 bytes"@)
    } else {
        control_error(value, label)
    }
}

fn reject_controls(value: &str, label: &str) -> (result: Result<(), Error>)
    ensures
        error::refused_as(result, control_error(value@, label@)),
{
    if text::contains_control(value) {
        Err(Error::new(label.to_owned().concat(" must not contain control characters")))
    } else {
        Ok(())
    }
}

/// Accepts `name` as the name of a profile, or says why not.
pub fn validate_profile_name(name: &str) -> (result: Result<&str, Error>)
    ensures
        error::refused_as(result, name_error(name@)),
        result is Ok ==> result->Ok_0@ == name@,
{
    if name.unicode_len() == 0 || !text::is_trimmed(name) {
        return Err(
            Error::new(
                "profile name must not be empty or have surrounding whitespace".to_owned(),
            ),
        );
    }
    if text::bytes_in(name) > MAX_PROFILE_NAME_BYTES {
        return Err(Error::new("profile name must be at most 128 bytes".to_owned()));
    }
    match reject_controls(name, "profile name") {
        Ok(()) => Ok(name),
        Err(error) => Err(error),
    }
}

fn validate_identifier(value: &str, label: &str) -> (result: Result<(), Error>)
    ensures
        error::refused_as(result, identifier_error(value@, label@)),
{
    if value.unicode_len() == 0 || !text::is_trimmed(value) {
        return Err(
            Error::new(
                label.to_owned().concat(" must not be empty or have surrounding whitespace"),
            ),
        );
    }
    if text::bytes_in(value) > MAX_MONITOR_ID_BYTES {
        return Err(Error::new(label.to_owned().concat(" must be at most 512 bytes")));
    }
    reject_controls(value, label)
}

// ---------------------------------------------------------------------------
// Modes
// ---------------------------------------------------------------------------
/// The width, height and rate that a mode such as `1920x1080@60Hz` gives.
pub open spec fn parsed_mode(mode: Seq<char>) -> Option<(int, int, RateView)> {
    match text::split_at_first(text::without_suffix(mode, "Hz"@), '@') {
        None => None,
        Some((dimensions, refresh)) => match text::split_at_first(dimensions, 'x') {
            None => None,
            Some((width, height)) => match (
                number::bounded_integer(width, i32::MIN as int, i32::MAX as int),
                number::bounded_integer(height, i32::MIN as int, i32::MAX as int),
                number::rate_of(refresh),
            ) {
                (Some(w), Some(h), Some(r)) => Some((w, h, r)),
                _ => None,
            },
        },
    }
}

/// `mode` and `parsed` stand for the same.
pub open spec fn same_mode(
    mode: Option<(i32, i32, Rate)>,
    parsed: Option<(int, int, RateView)>,
) -> bool {
    match (mode, parsed) {
        (Some((width, height, rate)), Some((w, h, r))) => width == w && height == h && rate@ == r,
        (None, None) => true,
        _ => false,
    }
}

/// Reads the width, height and rate of a mode.
pub fn parse_mode(mode: &str) -> (result: Option<(i32, i32, Rate)>)
    ensures
        same_mode(result, parsed_mode(mode@)),
{
    let bare: &str = text::strip_suffix(mode, "Hz");
    match text::split_once(bare, '@') {
        None => None,
        Some((dimensions, refresh)) => match text::split_once(dimensions, 'x') {
            None => None,
            Some((width, height)) => {
                let w: Option<i64> = number::parse_integer(
                    width,
                    i32::MIN as i64,
                    i32::MAX as i64,
                );
                let h: Option<i64> = number::parse_integer(
                    height,
                    i32::MIN as i64,
                    i32::MAX as i64,
                );
                let r: Option<Rate> = number::parse_rate(refresh);
                match (w, h, r) {
                    (Some(w), Some(h), Some(r)) => Some((w as i32, h as i32, r)),
                    _ => None,
                }
            },
        },
    }
}

/// One of the words that leave the choice of a mode to the compositor.
pub open spec fn mode_word(mode: Seq<char>) -> bool {
    mode == "preferred"@ || mode == "highres"@ || mode == "highrr"@ || mode == "maxwidth"@
}

/// A mode that a profile may ask for.
pub open spec fn mode_allowed(mode: Seq<char>) -> bool {
    &&& mode.len() > 0
    &&& text::trimmed(mode) == mode
    &&& !text::has_control(mode)
    &&& mode_word(mode) || (parsed_mode(mode) matches Some((width, height, RateView::Finite(rate)))
        && width > 0 && height > 0 && rate > 0)
}

/// Decides [`mode_word`].
pub fn is_mode_word(mode: &str) -> (result: bool)
    ensures
        result == mode_word(mode@),
{
    text::same(mode, "preferred") || text::same(mode, "highres") || text::same(mode, "highrr")
        || text::same(mode, "maxwidth")
}

/// Whether a profile may ask for `mode`.
pub fn valid_mode(mode: &str) -> (result: bool)
    ensures
        result == mode_allowed(mode@),
{
    if mode.unicode_len() == 0 || !text::is_trimmed(mode) || text::contains_control(mode) {
        return false;
    }
    if is_mode_word(mode) {
        return true;
    }
    match parse_mode(mode) {
        Some((width, height, Rate::Finite(rate))) => width > 0 && height > 0 && rate.units() > 0,
        _ => false,
    }
}

// ---------------------------------------------------------------------------
// Scales
// ---------------------------------------------------------------------------
/// `size` pixels at a scale of `scale` units come to a whole number of logical
/// pixels, give or take [`LOGICAL_SIZE_TOLERANCE`].
#[verifier::opaque]
pub open spec fn whole_pixels(size: int, scale: int) -> bool {
    double::off_whole(double::over_units(number::magnitude(size), scale)) <= double::of_units(
        LOGICAL_SIZE_TOLERANCE as int,
    )
}

/// Decides [`whole_pixels`].
pub fn has_whole_pixels(size: i32, scale: Decimal) -> (result: bool)
    requires
        scale.value() > 0,
    ensures
        result == whole_pixels(size as int, scale.value()),
{
    reveal(whole_pixels);
    let pixels: i64 = if size < 0 {
        -(size as i64)
    } else {
        size as i64
    };
    double::is_about_whole(pixels as u32, scale.units(), LOGICAL_SIZE_TOLERANCE)
}

/// `scale` lies between [`MIN_SCALE`] and [`MAX_SCALE`].
pub open spec fn scale_allowed(scale: int) -> bool {
    MIN_SCALE <= scale <= MAX_SCALE
}

// ---------------------------------------------------------------------------
// Outputs
// ---------------------------------------------------------------------------
/// ``profile `name` output `id` `` as a message begins.
pub open spec fn output_label(name: Seq<char>, id: Seq<char>) -> Seq<char> {
    "profile `"@ + name + "` output `"@ + id + "`"@
}

fn output_prefix(name: &str, id: &str) -> (result: String)
    ensures
        result@ == output_label(name@, id@),
{
    "profile `".to_owned().concat(name).concat("` output `").concat(id).concat("`")
}

/// Why the scale of `output` does not fit `width` by `height` pixels.
pub open spec fn logical_size_error(
    name: Seq<char>,
    output: ProfileOutputView,
    width: int,
    height: int,
) -> Option<Seq<char>> {
    if whole_pixels(width, output.scale) && whole_pixels(height, output.scale) {
        None
    } else {
        Some(
            output_label(name, output.monitor_id) + " has invalid scale "@ + number::decimal_text(
                output.scale,
            ) + " for "@ + text::int_text(width) + "x"@ + text::int_text(height)
                + "; logical dimensions must be whole pixels"@,
        )
    }
}

/// The identities of remembered monitors.
pub open spec fn known_ids(monitors: Seq<ProfileMonitorView>) -> Seq<Seq<char>> {
    monitors.map_values(|monitor: ProfileMonitorView| monitor.id)
}

/// Why `output` is refused.
pub open spec fn output_error(
    name: Seq<char>,
    output: ProfileOutputView,
    monitors: Seq<ProfileMonitorView>,
) -> Option<Seq<char>> {
    let label = output_label(name, output.monitor_id);
    if identifier_error(output.monitor_id, "output monitor id"@) is Some {
        identifier_error(output.monitor_id, "output monitor id"@)
    } else if !known_ids(monitors).contains(output.monitor_id) {
        Some(label + " has no matching monitor identity metadata"@)
    } else if !mode_allowed(output.mode) {
        Some(
            label + " has invalid mode `"@ + output.mode
                + "`; expected preferred, highres, highrr, maxwidth, or WIDTHxHEIGHT@REFRESH"@,
        )
    } else if !scale_allowed(output.scale) {
        Some(
            label + " has invalid scale "@ + number::decimal_text(output.scale)
                + "; expected 0.1..=10"@,
        )
    } else if !(0 <= output.transform <= 7) {
        Some(
            label + " has invalid transform "@ + text::int_text(output.transform as int)
                + "; expected 0..=7"@,
        )
    } else if !(-MAX_COORDINATE <= output.x <= MAX_COORDINATE && -MAX_COORDINATE <= output.y
        <= MAX_COORDINATE) {
        Some(label + " position must be within -1000000..=1000000"@)
    } else {
        match parsed_mode(output.mode) {
            Some((width, height, _)) => logical_size_error(name, output, width, height),
            None => None,
        }
    }
}

fn knows(monitors: &Vec<ProfileMonitor>, id: &str) -> (result: bool)
    ensures
        result == known_ids(store::monitor_views(monitors@)).contains(id@),
{
    let ghost ids = known_ids(store::monitor_views(monitors@));
    let mut i: usize = 0;
    while i < monitors.len()
        invariant
            i <= monitors.len(),
            ids == known_ids(store::monitor_views(monitors@)),
            forall|j: int| 0 <= j < i ==> #[trigger] ids[j] != id@,
        decreases monitors.len() - i,
    {
        assert(ids[i as int] == monitors@[i as int].id@);
        if text::same(monitors[i].id.as_str(), id) {
            return true;
        }
        i += 1;
    }
    false
}

/// Accepts the scale of `output` for `width` by `height` pixels, or says why not.
pub fn validate_logical_size(name: &str, output: &ProfileOutput, width: i32, height: i32) -> (result:
    Result<(), Error>)
    requires
        output.scale.value() > 0,
    ensures
        error::refused_as(
            result,
            logical_size_error(name@, output@, width as int, height as int),
        ),
{
    if has_whole_pixels(width, output.scale) && has_whole_pixels(height, output.scale) {
        Ok(())
    } else {
        Err(
            Error::new(
                output_prefix(name, output.monitor_id.as_str()).concat(
                    " has invalid scale ",
                ).concat(output.scale.text().as_str()).concat(" for ").concat(
                    text::decimal(width as i128).as_str(),
                ).concat("x").concat(text::decimal(height as i128).as_str()).concat(
                    "; logical dimensions must be whole pixels",
                ),
            ),
        )
    }
}

fn validate_output(name: &str, output: &ProfileOutput, monitors: &Vec<ProfileMonitor>) -> (result:
    Result<(), Error>)
    ensures
        error::refused_as(
            result,
            output_error(name@, output@, store::monitor_views(monitors@)),
        ),
{
    let id: &str = output.monitor_id.as_str();
    match validate_identifier(id, "output monitor id") {
        Err(error) => {
            return Err(error);
        },
        Ok(()) => {},
    }
    if !knows(monitors, id) {
        return Err(
            Error::new(
                output_prefix(name, id).concat(" has no matching monitor identity metadata"),
            ),
        );
    }
    if !valid_mode(output.mode.as_str()) {
        return Err(
            Error::new(
                output_prefix(name, id).concat(" has invalid mode `").concat(
                    output.mode.as_str(),
                ).concat(
                    "`; expected preferred, highres, highrr, maxwidth, or WIDTHxHEIGHT@REFRESH",
                ),
            ),
        );
    }
    let scale: i128 = output.scale.units();
    if scale < MIN_SCALE || scale > MAX_SCALE {
        return Err(
            Error::new(
                output_prefix(name, id).concat(" has invalid scale ").concat(
                    output.scale.text().as_str(),
                ).concat("; expected 0.1..=10"),
            ),
        );
    }
    if output.transform < 0 || output.transform > 7 {
        return Err(
            Error::new(
                output_prefix(name, id).concat(" has invalid transform ").concat(
                    text::decimal(output.transform as i128).as_str(),
                ).concat("; expected 0..=7"),
            ),
        );
    }
    if output.x < -MAX_COORDINATE || output.x > MAX_COORDINATE || output.y < -MAX_COORDINATE
        || output.y > MAX_COORDINATE {
        return Err(
            Error::new(
                output_prefix(name, id).concat(" position must be within -1000000..=1000000"),
            ),
        );
    }
    match parse_mode(output.mode.as_str()) {
        Some((width, height, _)) => {
            proof {
                lemma_mode_word_has_no_size(output.mode@);
            }
            validate_logical_size(name, output, width, height)
        },
        None => Ok(()),
    }
}

/// The words for a mode give no size.
pub proof fn lemma_mode_word_has_no_size(mode: Seq<char>)
    ensures
        mode_word(mode) ==> parsed_mode(mode) is None,
{
    if mode_word(mode) {
        reveal_strlit("preferred");
        reveal_strlit("highres");
        reveal_strlit("highrr");
        reveal_strlit("maxwidth");
        reveal_strlit("Hz");
        let bare = text::without_suffix(mode, "Hz"@);
        assert(forall|i: int| 0 <= i < mode.len() ==> mode[i] != '@');
        text::lemma_first_of(bare, '@');
        assert(forall|i: int| 0 <= i < bare.len() ==> #[trigger] bare[i] == mode[i]);
    }
}

// ---------------------------------------------------------------------------
// Profiles
// ---------------------------------------------------------------------------
/// The first of several reasons.
pub open spec fn either(first: Option<Seq<char>>, second: Option<Seq<char>>) -> Option<Seq<char>> {
    if first is Some {
        first
    } else {
        second
    }
}

/// Why the fields of `monitor` are refused.
pub open spec fn monitor_fields_error(monitor: ProfileMonitorView) -> Option<Seq<char>> {
    either(
        control_error(monitor.name_hint, "output name hint"@),
        either(
            control_error(monitor.description, "description"@),
            either(
                control_error(monitor.make, "make"@),
                either(
                    control_error(monitor.model, "model"@),
                    control_error(monitor.serial, "serial"@),
                ),
            ),
        ),
    )
}

/// Why the monitor at `i` is refused.
pub open spec fn monitor_error(
    name: Seq<char>,
    monitors: Seq<ProfileMonitorView>,
    i: int,
) -> Option<Seq<char>> {
    let monitor = monitors[i];
    if identifier_error(monitor.id, "monitor id"@) is Some {
        identifier_error(monitor.id, "monitor id"@)
    } else if known_ids(monitors.take(i)).contains(monitor.id) {
        Some("profile `"@ + name + "` has duplicate monitor id `"@ + monitor.id + "`"@)
    } else if monitor_fields_error(monitor) is Some {
        monitor_fields_error(monitor)
    } else if monitor.physical_width < 0 || monitor.physical_height < 0 {
        Some("profile `"@ + name + "` has negative physical dimensions"@)
    } else {
        None
    }
}

/// Why one of the first `n` monitors is refused.
pub open spec fn monitors_error(
    name: Seq<char>,
    monitors: Seq<ProfileMonitorView>,
    n: int,
) -> Option<Seq<char>>
    decreases n,
{
    if n <= 0 {
        None
    } else {
        either(monitors_error(name, monitors, n - 1), monitor_error(name, monitors, n - 1))
    }
}

/// The identities that outputs are for.
pub open spec fn output_ids(outputs: Seq<ProfileOutputView>) -> Seq<Seq<char>> {
    outputs.map_values(|output: ProfileOutputView| output.monitor_id)
}

/// Why one of the first `n` outputs is refused.
pub open spec fn outputs_error(profile: ProfileView, n: int) -> Option<Seq<char>>
    decreases n,
{
    if n <= 0 {
        None
    } else {
        let output = profile.outputs[n - 1];
        either(
            outputs_error(profile, n - 1),
            either(
                output_error(profile.name, output, profile.monitors),
                if output_ids(profile.outputs.take(n - 1)).contains(output.monitor_id) {
                    Some(
                        "profile `"@ + profile.name + "` has duplicate output for monitor `"@
                            + output.monitor_id + "`"@,
                    )
                } else {
                    None
                },
            ),
        )
    }
}

/// Why one of the first `n` monitors lacks an output.
pub open spec fn missing_output_error(profile: ProfileView, n: int) -> Option<Seq<char>>
    decreases n,
{
    if n <= 0 {
        None
    } else {
        let id = profile.monitors[n - 1].id;
        either(
            missing_output_error(profile, n - 1),
            if output_ids(profile.outputs).contains(id) {
                None
            } else {
                Some(
                    "profile `"@ + profile.name + "` monitor `"@ + id
                        + "` has no output settings"@,
                )
            },
        )
    }
}

/// Why `profile` is refused.
pub open spec fn profile_error(profile: ProfileView) -> Option<Seq<char>> {
    if name_error(profile.name) is Some {
        name_error(profile.name)
    } else if profile.monitors.len() == 0 {
        Some("profile `"@ + profile.name + "` has no monitor identity metadata"@)
    } else if profile.outputs.len() == 0 {
        Some("profile `"@ + profile.name + "` has no output settings"@)
    } else if profile.monitors.len() > MAX_MONITORS_PER_PROFILE {
        Some("profile `"@ + profile.name + "` has more than the maximum 16 monitors"@)
    } else if profile.outputs.len() > MAX_MONITORS_PER_PROFILE {
        Some("profile `"@ + profile.name + "` has more than the maximum 16 outputs"@)
    } else {
        either(
            monitors_error(profile.name, profile.monitors, profile.monitors.len() as int),
            either(
                outputs_error(profile, profile.outputs.len() as int),
                missing_output_error(profile, profile.monitors.len() as int),
            ),
        )
    }
}

fn about(name: &str, complaint: &str) -> (result: Error)
    ensures
        result.head() == result@,
        result@ == "profile `"@ + name@ + complaint@,
{
    Error::new("profile `".to_owned().concat(name).concat(complaint))
}

fn validate_monitor_fields(monitor: &ProfileMonitor) -> (result: Result<(), Error>)
    ensures
        error::refused_as(result, monitor_fields_error(monitor@)),
{
    match reject_controls(monitor.name_hint.as_str(), "output name hint") {
        Err(error) => {
            return Err(error);
        },
        Ok(()) => {},
    }
    match reject_controls(monitor.description.as_str(), "description") {
        Err(error) => {
            return Err(error);
        },
        Ok(()) => {},
    }
    match reject_controls(monitor.make.as_str(), "make") {
        Err(error) => {
            return Err(error);
        },
        Ok(()) => {},
    }
    match reject_controls(monitor.model.as_str(), "model") {
        Err(error) => {
            return Err(error);
        },
        Ok(()) => {},
    }
    reject_controls(monitor.serial.as_str(), "serial")
}

fn repeats_earlier_monitor(monitors: &Vec<ProfileMonitor>, at: usize) -> (result: bool)
    requires
        at < monitors@.len(),
    ensures
        result == known_ids(store::monitor_views(monitors@).take(at as int)).contains(
            monitors@[at as int].id@,
        ),
{
    let ghost ids = known_ids(store::monitor_views(monitors@).take(at as int));
    let mut i: usize = 0;
    while i < at
        invariant
            i <= at < monitors@.len(),
            ids == known_ids(store::monitor_views(monitors@).take(at as int)),
            forall|j: int| 0 <= j < i ==> #[trigger] ids[j] != monitors@[at as int].id@,
        decreases at - i,
    {
        assert(ids[i as int] == monitors@[i as int].id@);
        if monitors[i].id == monitors[at].id {
            return true;
        }
        i += 1;
    }
    false
}

fn validate_monitor(name: &str, monitors: &Vec<ProfileMonitor>, at: usize) -> (result: Result<
    (),
    Error,
>)
    requires
        at < monitors@.len(),
    ensures
        error::refused_as(
            result,
            monitor_error(name@, store::monitor_views(monitors@), at as int),
        ),
{
    let monitor: &ProfileMonitor = &monitors[at];
    assert(store::monitor_views(monitors@)[at as int] == monitor@);
    match validate_identifier(monitor.id.as_str(), "monitor id") {
        Err(error) => {
            return Err(error);
        },
        Ok(()) => {},
    }
    if repeats_earlier_monitor(monitors, at) {
        return Err(
            Error::new(
                "profile `".to_owned().concat(name).concat("` has duplicate monitor id `").concat(
                    monitor.id.as_str(),
                ).concat("`"),
            ),
        );
    }
    match validate_monitor_fields(monitor) {
        Err(error) => {
            return Err(error);
        },
        Ok(()) => {},
    }
    if monitor.physical_width < 0 || monitor.physical_height < 0 {
        return Err(about(name, "` has negative physical dimensions"));
    }
    Ok(())
}

fn output_for(outputs: &Vec<ProfileOutput>, upto: usize, id: &str) -> (result: bool)
    requires
        upto <= outputs@.len(),
    ensures
        result == output_ids(store::output_views(outputs@).take(upto as int)).contains(id@),
{
    let ghost ids = output_ids(store::output_views(outputs@).take(upto as int));
    let mut i: usize = 0;
    while i < upto
        invariant
            i <= upto <= outputs@.len(),
            ids == output_ids(store::output_views(outputs@).take(upto as int)),
            forall|j: int| 0 <= j < i ==> #[trigger] ids[j] != id@,
        decreases upto - i,
    {
        assert(ids[i as int] == outputs@[i as int].monitor_id@);
        if text::same(outputs[i].monitor_id.as_str(), id) {
            return true;
        }
        i += 1;
    }
    false
}

/// Accepts `profile`, or says why not.
pub fn validate_profile(profile: &Profile) -> (result: Result<(), Error>)
    ensures
        error::refused_as(result, profile_error(profile@)),
{
    let name: &str = profile.name.as_str();
    match validate_profile_name(name) {
        Err(error) => {
            return Err(error);
        },
        Ok(_) => {},
    }
    if profile.monitors.len() == 0 {
        return Err(about(name, "` has no monitor identity metadata"));
    }
    if profile.outputs.len() == 0 {
        return Err(about(name, "` has no output settings"));
    }
    if profile.monitors.len() > MAX_MONITORS_PER_PROFILE {
        return Err(about(name, "` has more than the maximum 16 monitors"));
    }
    if profile.outputs.len() > MAX_MONITORS_PER_PROFILE {
        return Err(about(name, "` has more than the maximum 16 outputs"));
    }
    match validate_monitors(profile) {
        Err(error) => {
            return Err(error);
        },
        Ok(()) => {},
    }
    match validate_outputs(profile) {
        Err(error) => {
            return Err(error);
        },
        Ok(()) => {},
    }
    require_outputs(profile)
}

proof fn lemma_monitors_error_grows(
    name: Seq<char>,
    monitors: Seq<ProfileMonitorView>,
    i: int,
    n: int,
)
    requires
        0 <= i <= n,
        monitors_error(name, monitors, i) is Some,
    ensures
        monitors_error(name, monitors, n) == monitors_error(name, monitors, i),
    decreases n,
{
    if i < n {
        lemma_monitors_error_grows(name, monitors, i, n - 1);
    }
}

fn validate_monitors(profile: &Profile) -> (result: Result<(), Error>)
    ensures
        error::refused_as(
            result,
            monitors_error(profile@.name, profile@.monitors, profile@.monitors.len() as int),
        ),
{
    let mut i: usize = 0;
    while i < profile.monitors.len()
        invariant
            i <= profile.monitors@.len(),
            monitors_error(profile@.name, profile@.monitors, i as int) is None,
        decreases profile.monitors@.len() - i,
    {
        match validate_monitor(profile.name.as_str(), &profile.monitors, i) {
            Err(error) => {
                proof {
                    lemma_monitors_error_grows(
                        profile@.name,
                        profile@.monitors,
                        i + 1,
                        profile@.monitors.len() as int,
                    );
                }
                return Err(error);
            },
            Ok(()) => {},
        }
        i += 1;
    }
    Ok(())
}

proof fn lemma_outputs_error_grows(profile: ProfileView, i: int, n: int)
    requires
        0 <= i <= n,
        outputs_error(profile, i) is Some,
    ensures
        outputs_error(profile, n) == outputs_error(profile, i),
    decreases n,
{
    if i < n {
        lemma_outputs_error_grows(profile, i, n - 1);
    }
}

fn validate_outputs(profile: &Profile) -> (result: Result<(), Error>)
    ensures
        error::refused_as(result, outputs_error(profile@, profile@.outputs.len() as int)),
{
    let mut i: usize = 0;
    while i < profile.outputs.len()
        invariant
            i <= profile.outputs@.len(),
            outputs_error(profile@, i as int) is None,
        decreases profile.outputs@.len() - i,
    {
        let output: &ProfileOutput = &profile.outputs[i];
        assert(profile@.outputs[i as int] == output@);
        match validate_output(profile.name.as_str(), output, &profile.monitors) {
            Err(error) => {
                proof {
                    lemma_outputs_error_grows(
                        profile@,
                        i + 1,
                        profile@.outputs.len() as int,
                    );
                }
                return Err(error);
            },
            Ok(()) => {},
        }
        if output_for(&profile.outputs, i, output.monitor_id.as_str()) {
            proof {
                lemma_outputs_error_grows(profile@, i + 1, profile@.outputs.len() as int);
            }
            return Err(
                Error::new(
                    "profile `".to_owned().concat(profile.name.as_str()).concat(
                        "` has duplicate output for monitor `",
                    ).concat(output.monitor_id.as_str()).concat("`"),
                ),
            );
        }
        i += 1;
    }
    Ok(())
}

proof fn lemma_missing_output_error_grows(profile: ProfileView, i: int, n: int)
    requires
        0 <= i <= n,
        missing_output_error(profile, i) is Some,
    ensures
        missing_output_error(profile, n) == missing_output_error(profile, i),
    decreases n,
{
    if i < n {
        lemma_missing_output_error_grows(profile, i, n - 1);
    }
}

fn require_outputs(profile: &Profile) -> (result: Result<(), Error>)
    ensures
        error::refused_as(result, missing_output_error(profile@, profile@.monitors.len() as int)),
{
    assert(profile@.outputs.take(profile@.outputs.len() as int) =~= profile@.outputs);
    let mut i: usize = 0;
    while i < profile.monitors.len()
        invariant
            i <= profile.monitors@.len(),
            profile@.outputs.take(profile@.outputs.len() as int) == profile@.outputs,
            missing_output_error(profile@, i as int) is None,
        decreases profile.monitors@.len() - i,
    {
        let id: &str = profile.monitors[i].id.as_str();
        assert(profile@.monitors[i as int].id == id@);
        if !output_for(&profile.outputs, profile.outputs.len(), id) {
            proof {
                lemma_missing_output_error_grows(
                    profile@,
                    i + 1,
                    profile@.monitors.len() as int,
                );
            }
            return Err(
                Error::new(
                    "profile `".to_owned().concat(profile.name.as_str()).concat(
                        "` monitor `",
                    ).concat(id).concat("` has no output settings"),
                ),
            );
        }
        i += 1;
    }
    Ok(())
}

// ---------------------------------------------------------------------------
// Stores
// ---------------------------------------------------------------------------
/// The names of profiles.
pub open spec fn names_of(profiles: Seq<ProfileView>) -> Seq<Seq<char>> {
    profiles.map_values(|profile: ProfileView| profile.name)
}

/// Why one of the first `n` names is refused.
pub open spec fn names_error(profiles: Seq<ProfileView>, n: int) -> Option<Seq<char>>
    decreases n,
{
    if n <= 0 {
        None
    } else {
        let name = profiles[n - 1].name;
        either(
            names_error(profiles, n - 1),
            either(
                name_error(name),
                if names_of(profiles.take(n - 1)).contains(name) {
                    Some("duplicate profile name `"@ + name + "`"@)
                } else {
                    None
                },
            ),
        )
    }
}

/// Why one of the first `n` profiles is refused.
pub open spec fn profiles_error(profiles: Seq<ProfileView>, n: int) -> Option<Seq<char>>
    decreases n,
{
    if n <= 0 {
        None
    } else {
        either(profiles_error(profiles, n - 1), profile_error(profiles[n - 1]))
    }
}

/// Why a store of `profiles` is refused.
pub open spec fn store_error(profiles: Seq<ProfileView>) -> Option<Seq<char>> {
    if profiles.len() > MAX_PROFILES {
        Some("profile store has more than the maximum 128 profiles"@)
    } else {
        either(
            names_error(profiles, profiles.len() as int),
            profiles_error(profiles, profiles.len() as int),
        )
    }
}

proof fn lemma_names_error_grows(profiles: Seq<ProfileView>, i: int, n: int)
    requires
        0 <= i <= n,
        names_error(profiles, i) is Some,
    ensures
        names_error(profiles, n) == names_error(profiles, i),
    decreases n,
{
    if i < n {
        lemma_names_error_grows(profiles, i, n - 1);
    }
}

proof fn lemma_profiles_error_grows(profiles: Seq<ProfileView>, i: int, n: int)
    requires
        0 <= i <= n,
        profiles_error(profiles, i) is Some,
    ensures
        profiles_error(profiles, n) == profiles_error(profiles, i),
    decreases n,
{
    if i < n {
        lemma_profiles_error_grows(profiles, i, n - 1);
    }
}

fn name_repeats(profiles: &Vec<Profile>, at: usize) -> (result: bool)
    requires
        at < profiles@.len(),
    ensures
        result == names_of(store::profile_views(profiles@).take(at as int)).contains(
            profiles@[at as int].name@,
        ),
{
    let ghost names = names_of(store::profile_views(profiles@).take(at as int));
    let mut i: usize = 0;
    while i < at
        invariant
            i <= at < profiles@.len(),
            names == names_of(store::profile_views(profiles@).take(at as int)),
            forall|j: int| 0 <= j < i ==> #[trigger] names[j] != profiles@[at as int].name@,
        decreases at - i,
    {
        assert(names[i as int] == profiles@[i as int].name@);
        if profiles[i].name == profiles[at].name {
            return true;
        }
        i += 1;
    }
    false
}

/// Accepts `store`, or says why not.
pub fn validate_store(store: &ProfileStore) -> (result: Result<(), Error>)
    ensures
        error::refused_as(result, store_error(store@)),
{
    let profiles: &Vec<Profile> = &store.profiles;
    if profiles.len() > MAX_PROFILES {
        return Err(
            Error::new("profile store has more than the maximum 128 profiles".to_owned()),
        );
    }
    let mut i: usize = 0;
    while i < profiles.len()
        invariant
            i <= profiles@.len(),
            store::profile_views(profiles@) == store@,
            names_error(store@, i as int) is None,
            store@.len() <= MAX_PROFILES,
        decreases profiles@.len() - i,
    {
        assert(store@[i as int].name == profiles@[i as int].name@);
        match validate_profile_name(profiles[i].name.as_str()) {
            Err(error) => {
                proof {
                    lemma_names_error_grows(store@, i + 1, store@.len() as int);
                }
                return Err(error);
            },
            Ok(_) => {},
        }
        if name_repeats(profiles, i) {
            proof {
                lemma_names_error_grows(store@, i + 1, store@.len() as int);
            }
            return Err(
                Error::new(
                    "duplicate profile name `".to_owned().concat(
                        profiles[i].name.as_str(),
                    ).concat("`"),
                ),
            );
        }
        i += 1;
    }
    let mut i: usize = 0;
    while i < profiles.len()
        invariant
            i <= profiles@.len(),
            store::profile_views(profiles@) == store@,
            names_error(store@, store@.len() as int) is None,
            profiles_error(store@, i as int) is None,
            store@.len() <= MAX_PROFILES,
        decreases profiles@.len() - i,
    {
        assert(store@[i as int] == profiles@[i as int]@);
        match validate_profile(&profiles[i]) {
            Err(error) => {
                proof {
                    lemma_profiles_error_grows(store@, i + 1, store@.len() as int);
                }
                return Err(error);
            },
            Ok(()) => {},
        }
        i += 1;
    }
    Ok(())
}

} // verus!
