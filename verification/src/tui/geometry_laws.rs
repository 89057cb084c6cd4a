//! Where outputs are in the editor.
use vstd::prelude::*;

use crate::doctor;
use crate::double;
use crate::double_bounds;
use crate::hyprland::monitor::MonitorView;
use crate::number;
use crate::profile::modes;
use crate::profile::plan;
use crate::profile::render::RuleView;
use crate::profile::store::ProfileOutputView;
use crate::profile::validation;
use crate::tui::geometry;
use crate::tui::geometry::{CanvasView, CellRect, LogicalRect, SnapDirection};

verus! {

// ---------------------------------------------------------------------------
// Places
// ---------------------------------------------------------------------------
/// A quarter turn exchanges the sides of an output and leaves it where it is.
pub proof fn law_quarter_turns_exchange_the_sides(
    output: ProfileOutputView,
    monitors: Seq<MonitorView>,
    turn: i32,
)
    requires
        0 <= turn <= 6,
    ensures
        ({
            let before = geometry::place_of(
                ProfileOutputView { transform: turn, ..output },
                monitors,
            );
            let after = geometry::place_of(
                ProfileOutputView { transform: (turn + 1) as i32, ..output },
                monitors,
            );
            match (before, after) {
                (Some(b), Some(a)) => a.width == b.height && a.height == b.width && a.x == b.x
                    && a.y == b.y,
                (None, None) => true,
                _ => false,
            }
        }),
{
}

/// An output is somewhere exactly where it is on, has a size either way and a scale. A
/// turn that is not an odd one leaves the longer side of its mode the longer one; an
/// odd one makes it the other.
pub proof fn law_odd_turns_lay_outputs_on_their_side(
    output: ProfileOutputView,
    monitors: Seq<MonitorView>,
    width: int,
    height: int,
)
    requires
        geometry::sent_size(output, monitors) == Some((width, height)),
        0 <= output.transform <= 7,
        validation::MIN_SCALE <= output.scale <= validation::MAX_SCALE,
        width <= i32::MAX,
        height <= i32::MAX,
    ensures
        geometry::place_of(output, monitors) is Some <==> output.enabled && width > 0 && height > 0,
        geometry::place_of(output, monitors) matches Some(place) ==> {
            &&& place.x == output.x && place.y == output.y
            &&& output.transform % 2 == 0 ==> is_scaled(place.width as int, width, output.scale)
                && is_scaled(place.height as int, height, output.scale)
            &&& output.transform % 2 == 1 ==> is_scaled(place.width as int, height, output.scale)
                && is_scaled(place.height as int, width, output.scale)
        },
{
    if 0 < width {
        lemma_scaled(width, output.scale);
    }
    if 0 < height {
        lemma_scaled(height, output.scale);
    }
}

/// `length` is `pixels` over `scale`, to the nearest whole number but for a thousandth,
/// at least one, and no more than a coordinate can be.
pub open spec fn is_scaled(length: int, pixels: int, scale: int) -> bool {
    &&& 1 <= length <= i32::MAX
    &&& length == 1 || 1000 * (length * scale) <= 1000 * (pixels * number::UNITS_PER_ONE) + 501
        * scale
    &&& length == i32::MAX || 1000 * (pixels * number::UNITS_PER_ONE) <= 1000 * (length * scale)
        + 501 * scale
}

proof fn lemma_scaled(pixels: int, scale: int)
    requires
        1 <= pixels <= i32::MAX,
        validation::MIN_SCALE <= scale <= validation::MAX_SCALE,
    ensures
        is_scaled(geometry::logical_length(pixels, scale) as int, pixels, scale),
{
    reveal(geometry::logical_length);
    double::lemma_one();
    double_bounds::lemma_quotient_error(pixels as nat, scale);
    let o = double::one() as int;
    let u = number::UNITS_PER_ONE as int;
    let q = double::over_units(pixels as nat, scale) as int;
    let w = double::whole(q as nat) as int;
    vstd::arithmetic::div_mod::lemma_fundamental_div_mod(2 * q + o, 2 * o);
    let ow = o * w;
    assert(2 * o * w == 2 * ow) by (nonlinear_arith)
        requires
            ow == o * w,
    ;
    assert(2 * ow <= 2 * q + o && 2 * q + o < 2 * ow + 2 * o);
    let qs = q * scale;
    let exact = pixels * u * o;
    let so = scale * o;
    let wso = w * scale * o;
    assert(2 * wso <= 2 * qs + so && 2 * qs <= 2 * wso + so) by (nonlinear_arith)
        requires
            2 * ow <= 2 * q + o,
            2 * q <= 2 * ow + o,
            qs == q * scale,
            so == scale * o,
            wso == w * scale * o,
            ow == o * w,
            scale >= 1,
    ;
    assert(exact <= 0x8000_0000 * (10 * so)) by (nonlinear_arith)
        requires
            exact == pixels * u * o,
            pixels <= 0x8000_0000,
            so == scale * o,
            u <= 10 * scale,
            o >= 0,
            u >= 0,
            pixels >= 0,
            scale >= 0,
    ;
    assert(10_000 * (qs - exact) <= so && 10_000 * (exact - qs) <= so);
    assert(1000 * wso <= 1000 * exact + 501 * so && 1000 * exact <= 1000 * wso + 501 * so);
    let ws = w * scale;
    let pu = pixels * u;
    assert(wso == o * ws && exact == o * pu) by (nonlinear_arith)
        requires
            wso == w * scale * o,
            ws == w * scale,
            exact == pixels * u * o,
            pu == pixels * u,
    ;
    assert(1000 * ws <= 1000 * pu + 501 * scale && 1000 * pu <= 1000 * ws + 501 * scale)
        by (nonlinear_arith)
        requires
            1000 * wso <= 1000 * exact + 501 * so,
            1000 * exact <= 1000 * wso + 501 * so,
            wso == o * ws,
            exact == o * pu,
            so == scale * o,
            o >= 1,
    ;
    let length = geometry::logical_length(pixels, scale) as int;
    assert(w >= 0) by (nonlinear_arith)
        requires
            2 * q + o < 2 * ow + 2 * o,
            ow == o * w,
            q >= 0,
            o >= 1,
    ;
    if length == i32::MAX {
        assert(length * scale <= ws) by (nonlinear_arith)
            requires
                w >= length,
                ws == w * scale,
                scale >= 1,
        ;
    } else if w < 1 {
        assert(ws <= length * scale) by (nonlinear_arith)
            requires
                w <= length,
                ws == w * scale,
                scale >= 1,
        ;
    }
}

/// Where a scale is held exactly and a mode is a whole number of logical pixels wide
/// and high, the output is exactly so wide and high, or high and wide where its turn is
/// an odd one.
pub proof fn law_whole_places_are_exact(
    output: ProfileOutputView,
    monitors: Seq<MonitorView>,
    width: int,
    height: int,
    wide: int,
    high: int,
)
    requires
        output.enabled,
        geometry::sent_size(output, monitors) == Some((width, height)),
        double_bounds::held_exactly(output.scale),
        0 < width <= i32::MAX,
        0 < height <= i32::MAX,
        width * number::UNITS_PER_ONE == wide * output.scale,
        height * number::UNITS_PER_ONE == high * output.scale,
        wide <= i32::MAX,
        high <= i32::MAX,
        0 <= output.transform <= 7,
    ensures
        geometry::place_of(output, monitors) == Some(
            LogicalRect {
                x: output.x,
                y: output.y,
                width: (if output.transform % 2 == 0 {
                    wide
                } else {
                    high
                }) as i32,
                height: (if output.transform % 2 == 0 {
                    high
                } else {
                    wide
                }) as i32,
            },
        ),
{
    reveal(geometry::logical_length);
    assert(wide >= 1 && high >= 1) by (nonlinear_arith)
        requires
            width * number::UNITS_PER_ONE == wide * output.scale,
            height * number::UNITS_PER_ONE == high * output.scale,
            width >= 1,
            height >= 1,
            output.scale >= 1,
    ;
    double_bounds::lemma_exact_quotient(width as nat, output.scale, wide as nat);
    double_bounds::lemma_exact_quotient(height as nat, output.scale, high as nat);
}

/// At a scale of one an output is as wide and high in logical pixels as in pixels.
pub proof fn law_unscaled_places_keep_their_size(
    output: ProfileOutputView,
    monitors: Seq<MonitorView>,
    width: int,
    height: int,
)
    requires
        output.enabled,
        geometry::sent_size(output, monitors) == Some((width, height)),
        output.scale == number::UNITS_PER_ONE,
        0 < width <= i32::MAX,
        0 < height <= i32::MAX,
        0 <= output.transform <= 7,
    ensures
        geometry::place_of(output, monitors) matches Some(place) && {
            &&& output.transform % 2 == 0 ==> place.width == width && place.height == height
            &&& output.transform % 2 == 1 ==> place.width == height && place.height == width
        },
{
    double_bounds::lemma_one_is_held_exactly();
    law_whole_places_are_exact(output, monitors, width, height, width, height);
}

/// The editor and the plan read one size out of a mode that spells one out, and lay
/// the output on its side for the same turns.
pub proof fn law_editor_and_plan_see_one_layout(
    output: ProfileOutputView,
    monitors: Seq<MonitorView>,
    current: Seq<MonitorView>,
    mappings: Seq<RuleView>,
)
    requires
        geometry::spelled_size(output.mode) is Some,
        output.enabled,
    ensures
        plan::spelled_size(output.mode) == geometry::spelled_size(output.mode),
        match (
            geometry::place_of(output, monitors),
            plan::covered(output, current, mappings),
        ) {
            (Some(place), Some(rect)) => {
                &&& place.x == rect.x
                &&& place.y == rect.y
                &&& place.width == geometry::logical_length(rect.width, rect.scale)
                &&& place.height == geometry::logical_length(rect.height, rect.scale)
            },
            (None, None) => true,
            _ => false,
        },
{
}

// ---------------------------------------------------------------------------
// Moving and snapping
// ---------------------------------------------------------------------------
/// An output that is on goes as far as it is moved, and stops at the last coordinate;
/// nothing else of it changes. One that is off stays.
pub proof fn law_moves_go_where_told(output: ProfileOutputView, dx: int, dy: int)
    ensures
        ({
            let after = geometry::moved(output, dx, dy);
            &&& output.enabled && i32::MIN <= output.x + dx <= i32::MAX ==> after.x == output.x + dx
            &&& output.enabled && i32::MIN <= output.y + dy <= i32::MAX ==> after.y == output.y + dy
            &&& output.enabled && output.x + dx > i32::MAX ==> after.x == i32::MAX
            &&& output.enabled && output.x + dx < i32::MIN ==> after.x == i32::MIN
            &&& output.enabled && output.y + dy > i32::MAX ==> after.y == i32::MAX
            &&& output.enabled && output.y + dy < i32::MIN ==> after.y == i32::MIN
            &&& !output.enabled ==> after == output
            &&& after == ProfileOutputView { x: after.x, y: after.y, ..output }
        }),
{
}

/// Snapping moves the selected output and no other, and changes nothing of it but its
/// place, which touches the place of the other on the side that was asked for. It
/// moves nothing exactly where one of the two is nowhere or both are one.
pub proof fn law_snapping_moves_one_output(
    outputs: Seq<ProfileOutputView>,
    monitors: Seq<MonitorView>,
    selected: int,
    target: int,
    direction: SnapDirection,
)
    requires
        0 <= selected < outputs.len(),
        0 <= target < outputs.len(),
    ensures
        geometry::snapped(outputs, monitors, selected, target, direction) is None <==> selected
            == target || geometry::place_of(outputs[selected], monitors) is None
            || geometry::place_of(outputs[target], monitors) is None,
        geometry::snapped(outputs, monitors, selected, target, direction) matches Some(after) ==> {
            let to = geometry::place_of(outputs[target], monitors)->0;
            let before = geometry::place_of(outputs[selected], monitors)->0;
            &&& after.len() == outputs.len()
            &&& forall|i: int|
                0 <= i < outputs.len() && i != selected ==> #[trigger] after[i] == outputs[i]
            &&& after[selected] == ProfileOutputView {
                x: after[selected].x,
                y: after[selected].y,
                ..outputs[selected]
            }
            &&& geometry::place_of(after[selected], monitors) matches Some(place) && {
                &&& place.width == before.width && place.height == before.height
                &&& direction is Left && to.x - place.width >= i32::MIN ==> place.x + place.width
                    == to.x && place.y == to.y
                &&& direction is Right && to.x + to.width <= i32::MAX ==> place.x == to.x
                    + to.width && place.y == to.y
                &&& direction is Above && to.y - place.height >= i32::MIN ==> place.y
                    + place.height == to.y && place.x == to.x
                &&& direction is Below && to.y + to.height <= i32::MAX ==> place.y == to.y
                    + to.height && place.x == to.x
            }
        },
{
    if let Some(after) = geometry::snapped(outputs, monitors, selected, target, direction) {
        let from = geometry::place_of(outputs[selected], monitors)->0;
        let to = geometry::place_of(outputs[target], monitors)->0;
        let (x, y) = geometry::snapped_to(from, to, direction);
        geometry::law_places_have_a_size(outputs[selected], monitors);
        geometry::law_places_have_a_size(outputs[target], monitors);
        assert(after[selected] == ProfileOutputView { x, y, ..outputs[selected] });
        assert(geometry::sent_size(after[selected], monitors) == geometry::sent_size(
            outputs[selected],
            monitors,
        ));
        assert(geometry::place_of(after[selected], monitors) == Some(LogicalRect { x, y, ..from }));
    }
}

// ---------------------------------------------------------------------------
// The canvas
// ---------------------------------------------------------------------------
/// The output that is shown at a point is one whose place holds the point, and no
/// later one does; where none is shown, no place holds it.
pub proof fn law_topmost_output_is_shown(
    outputs: Seq<ProfileOutputView>,
    monitors: Seq<MonitorView>,
    x: int,
    y: int,
    n: int,
)
    requires
        0 <= n <= outputs.len(),
    ensures
        match geometry::top_output(outputs, monitors, x, y, n) {
            Some(i) => 0 <= i < n && covers(outputs[i], monitors, x, y) && forall|j: int|
                i < j < n ==> !covers(#[trigger] outputs[j], monitors, x, y),
            None => forall|j: int| 0 <= j < n ==> !covers(#[trigger] outputs[j], monitors, x, y),
        },
    decreases n,
{
    if n > 0 {
        law_topmost_output_is_shown(outputs, monitors, x, y, n - 1);
    }
}

/// The point lies between the edges of the place of `output`.
pub open spec fn covers(
    output: ProfileOutputView,
    monitors: Seq<MonitorView>,
    x: int,
    y: int,
) -> bool {
    geometry::place_of(output, monitors) matches Some(place) && place.x <= x && place.y <= y && x
        < place.x + place.width && y < place.y + place.height && x < i32::MAX && y < i32::MAX
}

/// A cell is twice as high as it is wide: twice as many pixels down take as many cells
/// as so many to the right.
pub proof fn law_cells_are_twice_as_high(canvas: CanvasView, pixels: int)
    requires
        canvas.cell >= 1,
    ensures
        canvas.rows(2 * pixels) == canvas.columns(pixels),
{
    reveal(geometry::steps_in);
    let n = number::magnitude(pixels);
    let o = double::one();
    let g = canvas.cell;
    assert((2 * n) * o * o * g == (n * o * o) * (2 * g)) by (nonlinear_arith);
    double::lemma_nearest_ratio((2 * n) * o * o, 2 * g, n * o * o, g);
}

/// A place that begins where the canvas does is shown from its first cell on.
pub proof fn law_origin_is_shown_first(canvas: CanvasView, rect: LogicalRect)
    requires
        canvas.area.width > 0,
        canvas.area.height > 0,
        canvas.area.x + canvas.area.width <= u16::MAX,
        canvas.area.y + canvas.area.height <= u16::MAX,
        rect.x == canvas.origin_x,
        rect.y == canvas.origin_y,
        canvas.cell >= 1,
    ensures
        canvas.cells_of(rect).x == canvas.area.x,
        canvas.cells_of(rect).y == canvas.area.y,
        canvas.point_at(canvas.area.x as int, canvas.area.y as int) == Some((rect.x, rect.y)),
{
    reveal(geometry::steps_in);
    reveal(geometry::span_of);
    lemma_nothing(canvas.cell);
    lemma_nothing(2 * canvas.cell);
}

proof fn lemma_nothing(g: nat)
    requires
        g >= 1,
    ensures
        double::whole(double::divided(0, g)) == 0,
        double::whole(double::times(0, g)) == 0,
{
    double::lemma_one();
    let o = double::one();
    assert(0 * o * o == 0) by (nonlinear_arith);
    assert(0 * 1 == 0 * g) by (nonlinear_arith);
    double::lemma_nearest_ratio(0, g, 0, 1);
    double_bounds::lemma_whole_doubles_stay(0);
    assert(0 * o == 0) by (nonlinear_arith);
    assert(0 * g == 0) by (nonlinear_arith);
    assert((2 * 0 + o) / (2 * o) == 0) by {
        vstd::arithmetic::div_mod::lemma_fundamental_div_mod_converse(
            o as int,
            (2 * o) as int,
            0,
            o as int,
        );
    }
}

proof fn lemma_whole(k: nat)
    requires
        k < 0x20_0000_0000_0000,
    ensures
        double::whole(k * double::one()) == k,
{
    let o = double::one();
    double::lemma_one();
    assert(2 * (k * o) + o == k * (2 * o) + o) by (nonlinear_arith);
    vstd::arithmetic::div_mod::lemma_fundamental_div_mod_converse(
        (2 * (k * o) + o) as int,
        (2 * o) as int,
        k as int,
        o as int,
    );
}

proof fn lemma_whole_ratio(n: nat, d: nat, c: nat)
    requires
        d >= 1,
        n == c * d,
        c < 0x1_0000_0000,
    ensures
        double::ratio(n, d) == c * double::one(),
{
    let o = double::one();
    assert(n * o * 1 == c * o * d) by (nonlinear_arith)
        requires
            n == c * d,
    ;
    double::lemma_nearest_ratio(n * o, d, c * o, 1);
    double_bounds::lemma_whole_doubles_stay(c);
}

/// Where what is shown is so many times as wide as there are columns, and so many times
/// as high as twice the rows, a cell is as wide as the larger of the two, so that both
/// fit.
pub proof fn law_cells_are_as_wide_as_needed(columns: int, rows: int, c: int, d: int)
    requires
        1 <= columns <= u16::MAX,
        1 <= rows <= u16::MAX,
        1 <= c < 0x1_0000_0000,
        1 <= d < 0x1_0000_0000,
    ensures
        geometry::cell_width(c * columns, d * (2 * rows), columns, rows) == (if c >= d {
            c
        } else {
            d
        }) * double::one(),
{
    reveal(geometry::cell_width);
    double::lemma_one();
    assert(c * columns >= 1) by (nonlinear_arith)
        requires
            c >= 1,
            columns >= 1,
    ;
    assert(d * (2 * rows) >= 1) by (nonlinear_arith)
        requires
            d >= 1,
            rows >= 1,
    ;
    lemma_whole_ratio((c * columns) as nat, columns as nat, c as nat);
    lemma_whole_ratio((d * (2 * rows)) as nat, (2 * rows) as nat, d as nat);
    let o = double::one() as int;
    assert(c >= d ==> c * o >= d * o) by (nonlinear_arith)
        requires
            o >= 0,
    ;
    assert(d >= c ==> d * o >= c * o) by (nonlinear_arith)
        requires
            o >= 0,
    ;
    assert(c * o >= o && d * o >= o) by (nonlinear_arith)
        requires
            o >= 0,
            c >= 1,
            d >= 1,
    ;
}

/// Where a cell is a whole number of pixels wide, so many cells are that many times as
/// many pixels, and the other way round: to the right as often as its width goes into
/// them, and down as often as twice that.
pub proof fn law_whole_cells_measure_exactly(canvas: CanvasView, k: int, n: int)
    requires
        1 <= k < 0x8000,
        canvas.cell == k * double::one(),
        0 <= n <= u16::MAX,
    ensures
        canvas.columns(n * k) == n,
        canvas.rows(n * (2 * k)) == n,
        n * k <= i32::MAX ==> canvas.across(n) == n * k,
        n * (2 * k) <= i32::MAX ==> canvas.down(n) == n * (2 * k),
{
    reveal(geometry::steps_in);
    reveal(geometry::span_of);
    lemma_measured(n as nat, k as nat);
    lemma_measured(n as nat, (2 * k) as nat);
    assert(2 * canvas.cell == (2 * k) * double::one()) by (nonlinear_arith)
        requires
            canvas.cell == k * double::one(),
    ;
    assert(n * k >= 0 && n * (2 * k) >= 0) by (nonlinear_arith)
        requires
            n >= 0,
            k >= 1,
    ;
}

proof fn lemma_measured(n: nat, k: nat)
    requires
        1 <= k < 0x1_0000,
        n <= u16::MAX,
    ensures
        double::whole(double::divided(n * k, k * double::one())) == n,
        double::whole(double::times(n, k * double::one())) == n * k,
{
    let o = double::one();
    double::lemma_one();
    assert(n * k < 0x1_0000_0000) by (nonlinear_arith)
        requires
            n < 0x1_0000,
            k < 0x1_0000,
    ;
    assert((n * k) * o * o * 1 == (n * o) * (k * o)) by (nonlinear_arith);
    assert(k * o >= 1) by (nonlinear_arith)
        requires
            k >= 1,
            o >= 1,
    ;
    double::lemma_nearest_ratio((n * k) * o * o, k * o, n * o, 1);
    double_bounds::lemma_whole_doubles_stay(n);
    lemma_whole(n);
    assert(n * (k * o) == (n * k) * o) by (nonlinear_arith);
    double_bounds::lemma_whole_doubles_stay(n * k);
    lemma_whole(n * k);
}

proof fn lemma_edges(rects: Seq<LogicalRect>, n: int, i: int)
    requires
        0 <= i < n <= rects.len(),
    ensures
        geometry::left_of(rects, n) <= rects[i].x,
        geometry::top_of(rects, n) <= rects[i].y,
        geometry::right_of(rects, n) >= rects[i].right_edge(),
        geometry::bottom_of(rects, n) >= rects[i].bottom_edge(),
    decreases n,
{
    if i < n - 1 {
        lemma_edges(rects, n - 1, i);
    }
}

proof fn lemma_edges_are_small(rects: Seq<LogicalRect>, n: int)
    requires
        0 <= n <= rects.len(),
        forall|i: int| 0 <= i < rects.len() ==> is_near(#[trigger] rects[i]),
    ensures
        -100_000_000 <= geometry::left_of(rects, n) <= 0 <= geometry::right_of(rects, n)
            <= 200_000_000,
        -100_000_000 <= geometry::top_of(rects, n) <= 0 <= geometry::bottom_of(rects, n)
            <= 200_000_000,
    decreases n,
{
    if n > 0 {
        lemma_edges_are_small(rects, n - 1);
        assert(is_near(rects[n - 1]));
    }
}

/// `rect` lies where coordinates do not overflow.
pub open spec fn is_near(rect: LogicalRect) -> bool {
    &&& -100_000_000 <= rect.x <= 100_000_000
    &&& -100_000_000 <= rect.y <= 100_000_000
    &&& 0 <= rect.width <= 100_000_000
    &&& 0 <= rect.height <= 100_000_000
}

/// What several outputs take up holds each of them and the origin, with at least eighty
/// pixels around; what one takes up is as large as it is, with as much around.
pub proof fn law_bounds_hold_every_output(rects: Seq<LogicalRect>, i: int)
    requires
        forall|i: int| 0 <= i < rects.len() ==> is_near(#[trigger] rects[i]),
        0 <= i < rects.len(),
    ensures
        ({
            let bounds = geometry::bounds_of(rects);
            &&& rects.len() > 1 ==> {
                &&& bounds.x + 80 <= rects[i].x && bounds.x + 80 <= 0
                &&& bounds.y + 80 <= rects[i].y && bounds.y + 80 <= 0
                &&& bounds.x + bounds.width >= rects[i].x + rects[i].width + 80
                &&& bounds.y + bounds.height >= rects[i].y + rects[i].height + 80
            }
            &&& rects.len() == 1 ==> {
                &&& bounds.width >= rects[0].width + 160
                &&& bounds.height >= rects[0].height + 160
            }
        }),
{
    let n = rects.len() as int;
    assert(is_near(rects[i]));
    lemma_edges(rects, n, i);
    lemma_edges_are_small(rects, n);
}

/// What is drawn of an output lies in the area of the canvas.
pub proof fn law_drawings_stay_in_the_area(canvas: CanvasView, rect: LogicalRect)
    requires
        canvas.area.x + canvas.area.width <= u16::MAX,
        canvas.area.y + canvas.area.height <= u16::MAX,
    ensures
        ({
            let cells = canvas.cells_of(rect);
            &&& canvas.area.x <= cells.x && cells.x + cells.width <= canvas.area.x
                + canvas.area.width
            &&& canvas.area.y <= cells.y && cells.y + cells.height <= canvas.area.y
                + canvas.area.height
            &&& canvas.area.width > 0 && canvas.area.height > 0 ==> cells.width > 0
                && cells.height > 0
        }),
{
}

/// Where the mode of an output does not spell out a size, the output has in the editor
/// the size that its mode has on the connected monitor with its identity.
pub proof fn law_sizes_are_those_of_the_monitor(
    output: ProfileOutputView,
    monitors: Seq<MonitorView>,
    width: int,
    height: int,
    j: int,
)
    requires
        geometry::spelled_size(output.mode) is None,
        0 <= j < monitors.len(),
        monitors[j].id == output.monitor_id,
        forall|i: int| 0 <= i < j ==> (#[trigger] monitors[i]).id != output.monitor_id,
        modes::dimensions_of(output.mode, monitors[j]) == Ok::<(int, int), Seq<char>>(
            (width, height),
        ),
    ensures
        geometry::sent_size(output, monitors) == Some((width, height)),
{
    lemma_first_with(monitors, output.monitor_id, j);
}

proof fn lemma_first_with(monitors: Seq<MonitorView>, id: Seq<char>, j: int)
    requires
        0 <= j < monitors.len(),
        monitors[j].id == id,
        forall|i: int| 0 <= i < j ==> (#[trigger] monitors[i]).id != id,
    ensures
        doctor::monitor_with(monitors, id) == Some(monitors[j]),
    decreases j,
{
    if j > 0 {
        assert(monitors[0].id != id);
        let rest = monitors.drop_first();
        assert forall|i: int| 0 <= i < j - 1 implies (#[trigger] rest[i]).id != id by {
            assert(rest[i] == monitors[i + 1]);
        }
        assert(rest[j - 1] == monitors[j]);
        lemma_first_with(rest, id, j - 1);
    }
}

// ---------------------------------------------------------------------------
// Cells
// ---------------------------------------------------------------------------
/// What is left of an area within a border is one cell smaller on every side.
pub proof fn law_borders_take_one_cell(area: CellRect, column: int, row: int)
    requires
        area.width >= 2,
        area.height >= 2,
        area.x + area.width <= u16::MAX,
        area.y + area.height <= u16::MAX,
    ensures
        area.within_border().holds(column, row) <==> area.x + 1 <= column < area.x + area.width - 1
            && area.y + 1 <= row < area.y + area.height - 1,
{
}

/// An area in the middle of another has the size that was asked for where there is
/// room, lies inside, and leaves as much on one side as on the other, but for one.
pub proof fn law_middles_are_central(area: CellRect, width: int, height: int)
    requires
        0 <= width <= u16::MAX,
        0 <= height <= u16::MAX,
        area.x + area.width <= u16::MAX,
        area.y + area.height <= u16::MAX,
    ensures
        ({
            let middle = area.middle(width, height);
            let right = (area.x + area.width) - (middle.x + middle.width);
            let below = (area.y + area.height) - (middle.y + middle.height);
            &&& width <= area.width ==> middle.width == width
            &&& height <= area.height ==> middle.height == height
            &&& width > area.width ==> middle.width == area.width
            &&& height > area.height ==> middle.height == area.height
            &&& 0 <= middle.x - area.x <= right <= middle.x - area.x + 1
            &&& 0 <= middle.y - area.y <= below <= middle.y - area.y + 1
        }),
{
}

} // verus!
