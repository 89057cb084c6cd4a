//! What a mode means on a given monitor, and whether a monitor runs in it.
use vstd::prelude::*;

use crate::double;
use crate::error;
use crate::error::Error;
use crate::hyprland::monitor::{MonitorState, MonitorView};
use crate::number;
use crate::number::{Decimal, Rate, RateView};
use crate::profile::validation;
use crate::text;

verus! {

/// How far a refresh rate may be off, in units.
pub const REFRESH_TOLERANCE: i128 = 200_000_000_000_000_000;

/// A width, a height and a rate.
pub type ModeView = (int, int, RateView);

/// What a list of modes holds.
pub open spec fn mode_views(modes: Seq<(i32, i32, Rate)>) -> Seq<ModeView> {
    modes.map_values(
        |mode: (i32, i32, Rate)| (mode.0 as int, mode.1 as int, mode.2@),
    )
}

/// Those of the advertised modes that can be read.
pub open spec fn readable_modes(available: Seq<Seq<char>>) -> Seq<ModeView>
    decreases available.len(),
{
    if available.len() == 0 {
        seq![]
    } else {
        match validation::parsed_mode(available.last()) {
            Some(mode) => readable_modes(available.drop_last()).push(mode),
            None => readable_modes(available.drop_last()),
        }
    }
}

/// Reads the modes that `monitor` advertises.
pub fn parsed_available_modes(monitor: &MonitorState) -> (result: Vec<(i32, i32, Rate)>)
    ensures
        mode_views(result@) == readable_modes(monitor@.available_modes),
{
    let ghost all = monitor@.available_modes;
    let mut result: Vec<(i32, i32, Rate)> = Vec::new();
    assert(mode_views(result@) =~= seq![]);
    let mut i: usize = 0;
    while i < monitor.available_modes.len()
        invariant
            i <= monitor.available_modes@.len(),
            all == text::texts(monitor.available_modes@),
            mode_views(result@) == readable_modes(all.take(i as int)),
        decreases monitor.available_modes@.len() - i,
    {
        let ghost before = result@;
        assert(all.take(i + 1).drop_last() =~= all.take(i as int));
        assert(all.take(i + 1).last() == monitor.available_modes@[i as int]@);
        match validation::parse_mode(monitor.available_modes[i].as_str()) {
            Some(mode) => {
                result.push(mode);
                assert(mode_views(result@) =~= mode_views(before).push(
                    (mode.0 as int, mode.1 as int, mode.2@),
                ));
            },
            None => {},
        }
        i += 1;
    }
    assert(all.take(all.len() as int) =~= all);
    result
}

// ---------------------------------------------------------------------------
// Rates
// ---------------------------------------------------------------------------
/// `a` is the greater of two rates; what is no number is never greater, nor is
/// anything greater than it.
pub open spec fn rate_exceeds(a: RateView, b: RateView) -> bool {
    match (a, b) {
        (RateView::NotANumber, _) => false,
        (_, RateView::NotANumber) => false,
        (RateView::Infinite, RateView::Infinite) => false,
        (RateView::Infinite, _) => true,
        (_, RateView::Infinite) => false,
        (RateView::NegativeInfinite, _) => false,
        (_, RateView::NegativeInfinite) => true,
        (RateView::Finite(x), RateView::Finite(y)) => x > y,
    }
}

fn exceeds(a: Rate, b: Rate) -> (result: bool)
    ensures
        result == rate_exceeds(a@, b@),
{
    match (a, b) {
        (Rate::NotANumber, _) => false,
        (_, Rate::NotANumber) => false,
        (Rate::Infinite, Rate::Infinite) => false,
        (Rate::Infinite, _) => true,
        (_, Rate::Infinite) => false,
        (Rate::NegativeInfinite, _) => false,
        (_, Rate::NegativeInfinite) => true,
        (Rate::Finite(x), Rate::Finite(y)) => x.units() > y.units(),
    }
}

/// The greatest of the first `n` rates, negative infinity where there is none.
pub open spec fn greatest_rate(modes: Seq<ModeView>, n: int) -> RateView
    decreases n,
{
    if n <= 0 {
        RateView::NegativeInfinite
    } else if rate_exceeds(modes[n - 1].2, greatest_rate(modes, n - 1)) {
        modes[n - 1].2
    } else {
        greatest_rate(modes, n - 1)
    }
}

/// A rate of `actual` units is as good as `rate`.
pub open spec fn rate_reached(actual: int, rate: RateView) -> bool {
    match rate {
        RateView::Finite(value) => double::within(actual, value, REFRESH_TOLERANCE as int),
        _ => false,
    }
}

fn reached(actual: Decimal, rate: Rate) -> (result: bool)
    ensures
        result == rate_reached(actual.value(), rate@),
{
    match rate {
        Rate::Finite(value) => actual.close_to(&value, &Decimal::from_units(REFRESH_TOLERANCE)),
        _ => false,
    }
}

/// A rate in decimal.
pub open spec fn rate_text(rate: RateView) -> Seq<char> {
    match rate {
        RateView::Finite(value) => number::decimal_text(value),
        RateView::Infinite => "inf"@,
        RateView::NegativeInfinite => "-inf"@,
        RateView::NotANumber => "NaN"@,
    }
}

fn rate_string(rate: Rate) -> (result: String)
    ensures
        result@ == rate_text(rate@),
{
    match rate {
        Rate::Finite(value) => value.text(),
        Rate::Infinite => "inf".to_owned(),
        Rate::NegativeInfinite => "-inf".to_owned(),
        Rate::NotANumber => "NaN".to_owned(),
    }
}

/// A mode in full.
pub open spec fn mode_in_full(mode: ModeView) -> Seq<char> {
    text::int_text(mode.0) + "x"@ + text::int_text(mode.1) + "@"@ + rate_text(mode.2)
}

fn mode_string(width: i32, height: i32, rate: Rate) -> (result: String)
    ensures
        result@ == mode_in_full((width as int, height as int, rate@)),
{
    text::decimal(width as i128).concat("x").concat(text::decimal(height as i128).as_str()).concat(
        "@",
    ).concat(rate_string(rate).as_str())
}

// ---------------------------------------------------------------------------
// Special modes
// ---------------------------------------------------------------------------
/// What the words for a mode compare modes by.
#[derive(Debug, Clone, Copy, PartialEq, Eq, Structural)]
pub enum Measure {
    Area,
    Refresh,
    Width,
}

/// `a` is greater than `b` by `measure`.
pub open spec fn outdoes(measure: Measure, a: ModeView, b: ModeView) -> bool {
    match measure {
        Measure::Area => a.0 * a.1 > b.0 * b.1,
        Measure::Refresh => rate_exceeds(a.2, b.2),
        Measure::Width => a.0 > b.0,
    }
}

/// The greatest of the first `n` modes by `measure`, the last where several
/// are.
pub open spec fn greatest_mode(measure: Measure, modes: Seq<ModeView>, n: int) -> Option<ModeView>
    decreases n,
{
    if n <= 0 {
        None
    } else {
        match greatest_mode(measure, modes, n - 1) {
            Some(best) if outdoes(measure, best, modes[n - 1]) => Some(best),
            _ => Some(modes[n - 1]),
        }
    }
}

/// The mode that the word `mode` means among `modes`.
pub open spec fn selected_mode(mode: Seq<char>, modes: Seq<ModeView>) -> Option<ModeView> {
    if mode == "preferred"@ {
        if modes.len() > 0 {
            Some(modes[0])
        } else {
            None
        }
    } else if mode == "highres"@ {
        greatest_mode(Measure::Area, modes, modes.len() as int)
    } else if mode == "highrr"@ {
        greatest_mode(Measure::Refresh, modes, modes.len() as int)
    } else if mode == "maxwidth"@ {
        greatest_mode(Measure::Width, modes, modes.len() as int)
    } else {
        None
    }
}

fn area(mode: (i32, i32, Rate)) -> (result: i64)
    ensures
        result == mode.0 * mode.1,
{
    let width: i64 = mode.0 as i64;
    let height: i64 = mode.1 as i64;
    assert(-0x4000_0000_0000_0000 <= width * height <= 0x4000_0000_0000_0000) by (nonlinear_arith)
        requires
            -0x8000_0000 <= width <= 0x7fff_ffff,
            -0x8000_0000 <= height <= 0x7fff_ffff,
    ;
    width * height
}

fn beats(measure: Measure, a: (i32, i32, Rate), b: (i32, i32, Rate)) -> (result: bool)
    ensures
        result == outdoes(
            measure,
            (a.0 as int, a.1 as int, a.2@),
            (b.0 as int, b.1 as int, b.2@),
        ),
{
    match measure {
        Measure::Area => area(a) > area(b),
        Measure::Refresh => exceeds(a.2, b.2),
        Measure::Width => a.0 > b.0,
    }
}

/// What an optional mode holds.
pub open spec fn optional_mode_view(mode: Option<(i32, i32, Rate)>) -> Option<ModeView> {
    match mode {
        Some((width, height, rate)) => Some((width as int, height as int, rate@)),
        None => None,
    }
}

fn find_greatest(measure: Measure, modes: &Vec<(i32, i32, Rate)>) -> (result: Option<
    (i32, i32, Rate),
>)
    ensures
        optional_mode_view(result) == greatest_mode(
            measure,
            mode_views(modes@),
            modes@.len() as int,
        ),
{
    let ghost all = mode_views(modes@);
    let mut best: Option<(i32, i32, Rate)> = None;
    let mut i: usize = 0;
    while i < modes.len()
        invariant
            i <= modes@.len(),
            all == mode_views(modes@),
            optional_mode_view(best) == greatest_mode(measure, all, i as int),
        decreases modes@.len() - i,
    {
        let candidate: (i32, i32, Rate) = modes[i];
        assert(all[i as int] == (candidate.0 as int, candidate.1 as int, candidate.2@));
        best = match best {
            Some(so_far) => if beats(measure, so_far, candidate) {
                Some(so_far)
            } else {
                Some(candidate)
            },
            None => Some(candidate),
        };
        i += 1;
    }
    best
}

fn select_mode(mode: &str, modes: &Vec<(i32, i32, Rate)>) -> (result: Option<(i32, i32, Rate)>)
    ensures
        optional_mode_view(result) == selected_mode(mode@, mode_views(modes@)),
{
    if text::same(mode, "preferred") {
        if modes.len() > 0 {
            assert(mode_views(modes@)[0] == (modes@[0].0 as int, modes@[0].1 as int, modes@[0].2@));
            Some(modes[0])
        } else {
            None
        }
    } else if text::same(mode, "highres") {
        find_greatest(Measure::Area, modes)
    } else if text::same(mode, "highrr") {
        find_greatest(Measure::Refresh, modes)
    } else if text::same(mode, "maxwidth") {
        find_greatest(Measure::Width, modes)
    } else {
        None
    }
}

/// The size that `mode` gives on `monitor`, or why it gives none.
pub open spec fn dimensions_of(mode: Seq<char>, monitor: MonitorView) -> Result<
    (int, int),
    Seq<char>,
> {
    match validation::parsed_mode(mode) {
        Some((width, height, _)) => Ok((width, height)),
        None => match selected_mode(mode, readable_modes(monitor.available_modes)) {
            Some((width, height, _)) => Ok((width, height)),
            None => Err(
                "cannot resolve special mode `"@ + mode + "` for output `"@ + monitor.output_name
                    + "` from its advertised modes"@,
            ),
        },
    }
}

/// The size that `mode` gives on `monitor`.
pub fn resolved_mode_dimensions(mode: &str, monitor: &MonitorState) -> (result: Result<
    (i32, i32),
    Error,
>)
    ensures
        match (result, dimensions_of(mode@, monitor@)) {
            (Ok((width, height)), Ok((w, h))) => width == w && height == h,
            (Err(error), Err(reason)) => error@ == reason,
            _ => false,
        },
        error::plainly(result),
{
    match validation::parse_mode(mode) {
        Some((width, height, _)) => {
            return Ok((width, height));
        },
        None => {},
    }
    let modes: Vec<(i32, i32, Rate)> = parsed_available_modes(monitor);
    match select_mode(mode, &modes) {
        Some((width, height, _)) => Ok((width, height)),
        None => Err(
            Error::new(
                "cannot resolve special mode `".to_owned().concat(mode).concat(
                    "` for output `",
                ).concat(monitor.output_name.as_str()).concat("` from its advertised modes"),
            ),
        ),
    }
}

// ---------------------------------------------------------------------------
// Verification
// ---------------------------------------------------------------------------
/// `actual` runs in a mode of this size and rate.
pub open spec fn runs_in(actual: MonitorView, mode: ModeView) -> bool {
    actual.width == mode.0 && actual.height == mode.1 && rate_reached(actual.refresh_rate, mode.2)
}

/// `actual` has the size of a mode with the largest area.
pub open spec fn runs_highest(actual: MonitorView, modes: Seq<ModeView>) -> bool {
    exists|i: int|
        0 <= i < modes.len() && (#[trigger] modes[i]).0 == actual.width && modes[i].1
            == actual.height && forall|j: int|
            0 <= j < modes.len() ==> (#[trigger] modes[j]).0 * modes[j].1 <= modes[i].0
                * modes[i].1
}

/// `actual` has the width of the widest mode.
pub open spec fn runs_widest(actual: MonitorView, modes: Seq<ModeView>) -> bool {
    &&& exists|i: int| 0 <= i < modes.len() && (#[trigger] modes[i]).0 == actual.width
    &&& forall|j: int| 0 <= j < modes.len() ==> (#[trigger] modes[j]).0 <= actual.width
}

/// Why `actual` does not run in `mode`.
pub open spec fn mode_mismatch(mode: Seq<char>, actual: MonitorView) -> Option<Seq<char>> {
    let modes = readable_modes(actual.available_modes);
    match validation::parsed_mode(mode) {
        Some(wanted) => if runs_in(actual, wanted) {
            None
        } else {
            Some("expected "@ + mode_in_full(wanted))
        },
        None => if modes.len() == 0 {
            Some(
                "cannot verify special mode `"@ + mode
                    + "` because no available modes were advertised"@,
            )
        } else if mode == "preferred"@ {
            if runs_in(actual, modes[0]) {
                None
            } else {
                Some("expected preferred mode "@ + mode_in_full(modes[0]))
            }
        } else if mode == "highres"@ {
            if runs_highest(actual, modes) {
                None
            } else {
                Some("expected the highest-resolution mode"@)
            }
        } else if mode == "highrr"@ {
            if rate_reached(actual.refresh_rate, greatest_rate(modes, modes.len() as int)) {
                None
            } else {
                Some("expected the highest-refresh mode"@)
            }
        } else if mode == "maxwidth"@ {
            if runs_widest(actual, modes) {
                None
            } else {
                Some("expected the widest mode"@)
            }
        } else {
            Some("unsupported special mode `"@ + mode + "`"@)
        },
    }
}

fn is_running(actual: &MonitorState, width: i32, height: i32, rate: Rate) -> (result: bool)
    ensures
        result == runs_in(actual@, (width as int, height as int, rate@)),
{
    actual.width == width && actual.height == height && reached(actual.refresh_rate, rate)
}

fn find_greatest_rate(modes: &Vec<(i32, i32, Rate)>) -> (result: Rate)
    ensures
        result@ == greatest_rate(mode_views(modes@), modes@.len() as int),
{
    let ghost all = mode_views(modes@);
    let mut best: Rate = Rate::NegativeInfinite;
    let mut i: usize = 0;
    while i < modes.len()
        invariant
            i <= modes@.len(),
            all == mode_views(modes@),
            best@ == greatest_rate(all, i as int),
        decreases modes@.len() - i,
    {
        assert(all[i as int].2 == modes@[i as int].2@);
        if exceeds(modes[i].2, best) {
            best = modes[i].2;
        }
        i += 1;
    }
    best
}

fn is_running_highest(actual: &MonitorState, modes: &Vec<(i32, i32, Rate)>) -> (result: bool)
    requires
        modes@.len() > 0,
    ensures
        result == runs_highest(actual@, mode_views(modes@)),
{
    let ghost all = mode_views(modes@);
    let mut largest: i64 = area(modes[0]);
    let ghost mut at: int = 0;
    let mut i: usize = 1;
    while i < modes.len()
        invariant
            1 <= i <= modes@.len(),
            all == mode_views(modes@),
            0 <= at < i,
            largest == all[at].0 * all[at].1,
            forall|j: int| 0 <= j < i ==> (#[trigger] all[j]).0 * all[j].1 <= largest,
        decreases modes@.len() - i,
    {
        let candidate: i64 = area(modes[i]);
        assert(candidate == all[i as int].0 * all[i as int].1);
        if candidate > largest {
            largest = candidate;
            proof {
                at = i as int;
            }
        }
        i += 1;
    }
    let mut k: usize = 0;
    while k < modes.len()
        invariant
            k <= modes@.len(),
            all == mode_views(modes@),
            0 <= at < all.len(),
            largest == all[at].0 * all[at].1,
            forall|j: int| 0 <= j < all.len() ==> (#[trigger] all[j]).0 * all[j].1 <= largest,
            forall|j: int|
                0 <= j < k ==> !((#[trigger] all[j]).0 * all[j].1 == largest && all[j].0
                    == actual.width && all[j].1 == actual.height),
        decreases modes@.len() - k,
    {
        assert(all[k as int].0 == modes@[k as int].0 && all[k as int].1 == modes@[k as int].1);
        if area(modes[k]) == largest && modes[k].0 == actual.width && modes[k].1
            == actual.height {
            return true;
        }
        k += 1;
    }
    proof {
        if runs_highest(actual@, all) {
            let i = choose|i: int|
                0 <= i < all.len() && (#[trigger] all[i]).0 == actual.width && all[i].1
                    == actual.height && forall|j: int|
                    0 <= j < all.len() ==> (#[trigger] all[j]).0 * all[j].1 <= all[i].0
                        * all[i].1;
            assert(all[at].0 * all[at].1 <= all[i].0 * all[i].1);
        }
    }
    false
}

fn is_running_widest(actual: &MonitorState, modes: &Vec<(i32, i32, Rate)>) -> (result: bool)
    requires
        modes@.len() > 0,
    ensures
        result == runs_widest(actual@, mode_views(modes@)),
{
    let ghost all = mode_views(modes@);
    let mut found: bool = false;
    let mut i: usize = 0;
    while i < modes.len()
        invariant
            i <= modes@.len(),
            all == mode_views(modes@),
            found == exists|j: int| 0 <= j < i && (#[trigger] all[j]).0 == actual.width,
            forall|j: int| 0 <= j < i ==> (#[trigger] all[j]).0 <= actual.width,
        decreases modes@.len() - i,
    {
        assert(all[i as int].0 == modes@[i as int].0);
        if modes[i].0 > actual.width {
            return false;
        }
        if modes[i].0 == actual.width {
            found = true;
        }
        i += 1;
    }
    found
}

/// Whether `actual` runs in `mode`.
pub fn verify_expected_mode(mode: &str, actual: &MonitorState) -> (result: Result<(), Error>)
    ensures
        error::refused_as(result, mode_mismatch(mode@, actual@)),
{
    match validation::parse_mode(mode) {
        Some((width, height, rate)) => {
            return if is_running(actual, width, height, rate) {
                Ok(())
            } else {
                Err(
                    Error::new(
                        "expected ".to_owned().concat(mode_string(width, height, rate).as_str()),
                    ),
                )
            };
        },
        None => {},
    }
    let modes: Vec<(i32, i32, Rate)> = parsed_available_modes(actual);
    if modes.len() == 0 {
        return Err(
            Error::new(
                "cannot verify special mode `".to_owned().concat(mode).concat(
                    "` because no available modes were advertised",
                ),
            ),
        );
    }
    if text::same(mode, "preferred") {
        let (width, height, rate) = modes[0];
        assert(mode_views(modes@)[0] == (width as int, height as int, rate@));
        if is_running(actual, width, height, rate) {
            Ok(())
        } else {
            Err(
                Error::new(
                    "expected preferred mode ".to_owned().concat(
                        mode_string(width, height, rate).as_str(),
                    ),
                ),
            )
        }
    } else if text::same(mode, "highres") {
        if is_running_highest(actual, &modes) {
            Ok(())
        } else {
            Err(Error::new("expected the highest-resolution mode".to_owned()))
        }
    } else if text::same(mode, "highrr") {
        if reached(actual.refresh_rate, find_greatest_rate(&modes)) {
            Ok(())
        } else {
            Err(Error::new("expected the highest-refresh mode".to_owned()))
        }
    } else if text::same(mode, "maxwidth") {
        if is_running_widest(actual, &modes) {
            Ok(())
        } else {
            Err(Error::new("expected the widest mode".to_owned()))
        }
    } else {
        Err(Error::new("unsupported special mode `".to_owned().concat(mode).concat("`")))
    }
}

} // verus!
