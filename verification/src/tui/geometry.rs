//! Outputs in logical pixels and on a canvas of cells.
use vstd::prelude::*;

use crate::doctor;
use crate::double;
use crate::double::{Step, WHOLE_CAP};
use crate::hyprland::monitor;
use crate::hyprland::monitor::{MonitorState, MonitorView};
use crate::number;
use crate::number::{parse_integer, Decimal};
use crate::profile::modes;
use crate::profile::modes::resolved_mode_dimensions;
use crate::profile::store;
use crate::profile::store::{ProfileOutput, ProfileOutputView};
use crate::text;

verus! {

/// How many times as high as wide a cell is.
pub const TERMINAL_CELL_ASPECT_RATIO: i64 = 2;

/// On which side of another an output is put.
#[derive(Debug, Clone, Copy, PartialEq, Eq, Structural)]
pub enum SnapDirection {
    Left,
    Right,
    Above,
    Below,
}

/// A rectangle of logical pixels.
#[derive(Debug, Clone, Copy, PartialEq, Eq, Structural)]
pub struct LogicalRect {
    pub x: i32,
    pub y: i32,
    pub width: i32,
    pub height: i32,
}

/// A rectangle of cells.
#[derive(Debug, Clone, Copy, PartialEq, Eq, Structural)]
pub struct CellRect {
    pub x: u16,
    pub y: u16,
    pub width: u16,
    pub height: u16,
}

// ---------------------------------------------------------------------------
// Numbers
// ---------------------------------------------------------------------------
/// `n` kept between the least and the largest coordinate.
pub open spec fn coordinate(n: int) -> i32 {
    if n < i32::MIN {
        i32::MIN
    } else if n > i32::MAX {
        i32::MAX
    } else {
        n as i32
    }
}

/// `n` kept between the first and the last cell.
pub open spec fn cell(n: int) -> u16 {
    if n < 0 {
        0
    } else if n > u16::MAX {
        u16::MAX
    } else {
        n as u16
    }
}

/// The larger of two numbers.
pub open spec fn larger(a: int, b: int) -> int {
    if a >= b {
        a
    } else {
        b
    }
}

/// The smaller of two numbers.
pub open spec fn smaller(a: int, b: int) -> int {
    if a <= b {
        a
    } else {
        b
    }
}

fn to_coordinate(n: i128) -> (result: i32)
    ensures
        result == coordinate(n as int),
{
    if n < -2_147_483_648 {
        i32::MIN
    } else if n > 2_147_483_647 {
        i32::MAX
    } else {
        n as i32
    }
}

fn to_cell(n: i128) -> (result: u16)
    ensures
        result == cell(n as int),
{
    if n < 0 {
        0
    } else if n > 65_535 {
        u16::MAX
    } else {
        n as u16
    }
}

/// `n` kept between the cap and its negative.
spec fn capped(n: int) -> int {
    if n > WHOLE_CAP {
        WHOLE_CAP as int
    } else if n < -WHOLE_CAP {
        -WHOLE_CAP as int
    } else {
        n
    }
}

fn size_of(n: i32) -> (result: u32)
    ensures
        result == number::magnitude(n as int),
{
    if n < 0 {
        (-(n as i64)) as u32
    } else {
        n as u32
    }
}

/// `size` with the sign of `n`.
fn signed(n: i32, size: u128) -> (result: i128)
    requires
        size <= WHOLE_CAP,
    ensures
        result == if n < 0 {
            -size
        } else {
            size as int
        },
{
    if n < 0 {
        -(size as i128)
    } else {
        size as i128
    }
}

fn max_of(a: i32, b: i32) -> (result: i32)
    ensures
        result == larger(a as int, b as int),
{
    if a >= b {
        a
    } else {
        b
    }
}

fn min_of(a: i32, b: i32) -> (result: i32)
    ensures
        result == smaller(a as int, b as int),
{
    if a <= b {
        a
    } else {
        b
    }
}

fn plus(a: i32, b: i32) -> (result: i32)
    ensures
        result == coordinate(a + b),
{
    to_coordinate(a as i128 + b as i128)
}

fn subtract(a: i32, b: i32) -> (result: i32)
    ensures
        result == coordinate(a - b),
{
    to_coordinate(a as i128 - b as i128)
}

// ---------------------------------------------------------------------------
// Rectangles
// ---------------------------------------------------------------------------
impl LogicalRect {
    /// The first column behind it.
    pub open spec fn right_edge(self) -> i32 {
        coordinate(self.x + self.width)
    }

    /// The first row below it.
    pub open spec fn bottom_edge(self) -> i32 {
        coordinate(self.y + self.height)
    }

    /// The point lies in it.
    pub open spec fn holds(self, x: int, y: int) -> bool {
        self.x <= x < self.right_edge() && self.y <= y < self.bottom_edge()
    }

    /// Whether the point lies in it.
    pub fn contains(self, x: i32, y: i32) -> (result: bool)
        ensures
            result == self.holds(x as int, y as int),
    {
        x >= self.x && x < plus(self.x, self.width) && y >= self.y && y < plus(self.y, self.height)
    }
}

impl CellRect {
    /// The first column behind it.
    pub open spec fn right_edge(self) -> u16 {
        cell(self.x + self.width)
    }

    /// The first row below it.
    pub open spec fn bottom_edge(self) -> u16 {
        cell(self.y + self.height)
    }

    /// The cell lies in it.
    pub open spec fn holds(self, column: int, row: int) -> bool {
        self.x <= column < self.right_edge() && self.y <= row < self.bottom_edge()
    }

    /// The first column behind it.
    pub fn right(self) -> (result: u16)
        ensures
            result == self.right_edge(),
    {
        to_cell(self.x as i128 + self.width as i128)
    }

    /// The first row below it.
    pub fn bottom(self) -> (result: u16)
        ensures
            result == self.bottom_edge(),
    {
        to_cell(self.y as i128 + self.height as i128)
    }

    /// Whether the cell lies in it.
    pub fn contains(self, column: u16, row: u16) -> (result: bool)
        ensures
            result == self.holds(column as int, row as int),
    {
        column >= self.x && column < self.right() && row >= self.y && row < self.bottom()
    }

    /// What is left of it within a border.
    pub open spec fn within_border(self) -> CellRect {
        CellRect {
            x: cell(self.x + 1),
            y: cell(self.y + 1),
            width: cell(self.width - 2),
            height: cell(self.height - 2),
        }
    }

    /// What is left of it within a border.
    pub fn inner(self) -> (result: CellRect)
        ensures
            result == self.within_border(),
    {
        CellRect {
            x: to_cell(self.x as i128 + 1),
            y: to_cell(self.y as i128 + 1),
            width: to_cell(self.width as i128 - 2),
            height: to_cell(self.height as i128 - 2),
        }
    }

    /// A rectangle in its middle, of the given size where there is room.
    pub open spec fn middle(self, width: int, height: int) -> CellRect {
        let w = smaller(width, self.width as int);
        let h = smaller(height, self.height as int);
        CellRect {
            x: cell(self.x + (self.width - w) / 2),
            y: cell(self.y + (self.height - h) / 2),
            width: w as u16,
            height: h as u16,
        }
    }

    /// A rectangle in its middle, of the given size where there is room.
    pub fn centered(self, preferred_width: u16, preferred_height: u16) -> (result: CellRect)
        ensures
            result == self.middle(preferred_width as int, preferred_height as int),
    {
        let width: u16 = if preferred_width <= self.width {
            preferred_width
        } else {
            self.width
        };
        let height: u16 = if preferred_height <= self.height {
            preferred_height
        } else {
            self.height
        };
        CellRect {
            x: to_cell(self.x as i128 + ((self.width - width) / 2) as i128),
            y: to_cell(self.y as i128 + ((self.height - height) / 2) as i128),
            width,
            height,
        }
    }
}

// ---------------------------------------------------------------------------
// Outputs
// ---------------------------------------------------------------------------
/// The part of `mode` that gives its size.
pub open spec fn size_part(mode: Seq<char>) -> Seq<char> {
    match text::split_at_first(mode, '@') {
        Some((size, _)) => size,
        None => mode,
    }
}

/// The size that `mode` spells out.
pub open spec fn spelled_size(mode: Seq<char>) -> Option<(int, int)> {
    match text::split_at_first(size_part(mode), 'x') {
        None => None,
        Some((w, h)) => match (
            number::bounded_integer(w, i32::MIN as int, i32::MAX as int),
            number::bounded_integer(h, i32::MIN as int, i32::MAX as int),
        ) {
            (Some(width), Some(height)) => Some((width, height)),
            _ => None,
        },
    }
}

/// The size of `output` as it is sent: the one that is spelled out, or the one
/// that the connected monitor gives.
pub open spec fn sent_size(output: ProfileOutputView, monitors: Seq<MonitorView>) -> Option<
    (int, int),
> {
    match spelled_size(output.mode) {
        Some(size) => Some(size),
        None => match doctor::monitor_with(monitors, output.monitor_id) {
            None => None,
            Some(monitor) => match modes::dimensions_of(output.mode, monitor) {
                Ok(size) => Some(size),
                Err(_) => None,
            },
        },
    }
}

/// `transform` turns the output on its side.
pub open spec fn is_turned(transform: int) -> bool {
    transform == 1 || transform == 3 || transform == 5 || transform == 7
}

/// So many pixels at so many units of scale, in logical pixels.
#[verifier::opaque]
pub open spec fn logical_length(pixels: int, scale: int) -> i32 {
    coordinate(larger(double::whole(double::over_units(pixels as nat, scale)) as int, 1))
}

/// Where `output` is, in logical pixels; nowhere if it is switched off or has
/// no size.
pub open spec fn place_of(output: ProfileOutputView, monitors: Seq<MonitorView>) -> Option<
    LogicalRect,
> {
    if !output.enabled {
        None
    } else {
        match sent_size(output, monitors) {
            None => None,
            Some((w, h)) => {
                let width = if is_turned(output.transform as int) {
                    h
                } else {
                    w
                };
                let height = if is_turned(output.transform as int) {
                    w
                } else {
                    h
                };
                if width <= 0 || height <= 0 || output.scale <= 0 {
                    None
                } else {
                    Some(
                        LogicalRect {
                            x: output.x,
                            y: output.y,
                            width: logical_length(width, output.scale),
                            height: logical_length(height, output.scale),
                        },
                    )
                }
            },
        }
    }
}

fn parse_mode_dimensions(mode: &str) -> (result: Option<(i32, i32)>)
    ensures
        match (result, spelled_size(mode@)) {
            (Some((width, height)), Some((w, h))) => width == w && height == h,
            (None, None) => true,
            _ => false,
        },
{
    let size: &str = match text::split_once(mode, '@') {
        Some((size, _)) => size,
        None => mode,
    };
    match text::split_once(size, 'x') {
        None => None,
        Some((w, h)) => match (
            parse_integer(w, -2_147_483_648, 2_147_483_647),
            parse_integer(h, -2_147_483_648, 2_147_483_647),
        ) {
            (Some(width), Some(height)) => Some((width as i32, height as i32)),
            _ => None,
        },
    }
}

fn find_size(output: &ProfileOutput, monitors: &Vec<MonitorState>) -> (result: Option<(i32, i32)>)
    ensures
        match (result, sent_size(output@, monitor::views(monitors@))) {
            (Some((width, height)), Some((w, h))) => width == w && height == h,
            (None, None) => true,
            _ => false,
        },
{
    match parse_mode_dimensions(output.mode.as_str()) {
        Some(size) => Some(size),
        None => match doctor::find_monitor_with(monitors, output.monitor_id.as_str()) {
            None => None,
            Some(i) => match resolved_mode_dimensions(output.mode.as_str(), &monitors[i]) {
                Ok(size) => Some(size),
                Err(_) => None,
            },
        },
    }
}

fn to_logical_length(pixels: i32, scale: Decimal) -> (result: i32)
    requires
        pixels > 0,
        scale.value() > 0,
    ensures
        result == logical_length(pixels as int, scale.value()),
{
    reveal(logical_length);
    let length: i128 = double::whole_quotient(pixels as u32, scale.units()) as i128;
    let kept: i128 = if length >= 1 {
        length
    } else {
        1
    };
    to_coordinate(kept)
}

/// Where `output` is, in logical pixels, where its size is spelled out.
pub fn output_rect(output: &ProfileOutput) -> (result: Option<LogicalRect>)
    ensures
        result == place_of(output@, seq![]),
{
    let none: Vec<MonitorState> = Vec::new();
    assert(monitor::views(none@) =~= seq![]);
    output_rect_with_monitors(output, &none)
}

/// Where `output` is, in logical pixels.
pub fn output_rect_with_monitors(output: &ProfileOutput, monitors: &Vec<MonitorState>) -> (result:
    Option<LogicalRect>)
    ensures
        result == place_of(output@, monitor::views(monitors@)),
{
    if !output.enabled {
        return None;
    }
    let (w, h): (i32, i32) = match find_size(output, monitors) {
        Some(size) => size,
        None => {
            return None;
        },
    };
    let turned: bool = output.transform == 1 || output.transform == 3 || output.transform == 5
        || output.transform == 7;
    let width: i32 = if turned {
        h
    } else {
        w
    };
    let height: i32 = if turned {
        w
    } else {
        h
    };
    if width <= 0 || height <= 0 || output.scale.units() <= 0 {
        return None;
    }
    Some(
        LogicalRect {
            x: output.x,
            y: output.y,
            width: to_logical_length(width, output.scale),
            height: to_logical_length(height, output.scale),
        },
    )
}

/// `output` moved; one that is switched off stays.
pub open spec fn moved(output: ProfileOutputView, dx: int, dy: int) -> ProfileOutputView {
    if output.enabled {
        ProfileOutputView { x: coordinate(output.x + dx), y: coordinate(output.y + dy), ..output }
    } else {
        output
    }
}

/// Moves `output`, if it is switched on.
pub fn move_output(output: &mut ProfileOutput, dx: i32, dy: i32) -> (result: bool)
    ensures
        final(output)@ == moved(old(output)@, dx as int, dy as int),
        result == old(output)@.enabled,
{
    if output.enabled {
        output.x = plus(output.x, dx);
        output.y = plus(output.y, dy);
        true
    } else {
        false
    }
}

/// Where an output that is `selected` goes at the side of `target`.
pub open spec fn snapped_to(
    selected: LogicalRect,
    target: LogicalRect,
    direction: SnapDirection,
) -> (i32, i32) {
    match direction {
        SnapDirection::Left => (coordinate(target.x - selected.width), target.y),
        SnapDirection::Right => (target.right_edge(), target.y),
        SnapDirection::Above => (target.x, coordinate(target.y - selected.height)),
        SnapDirection::Below => (target.x, target.bottom_edge()),
    }
}

/// `outputs` with the one that is selected put at the side of another, where
/// both are somewhere.
pub open spec fn snapped(
    outputs: Seq<ProfileOutputView>,
    monitors: Seq<MonitorView>,
    selected: int,
    target: int,
    direction: SnapDirection,
) -> Option<Seq<ProfileOutputView>> {
    if selected == target || !(0 <= selected < outputs.len()) || !(0 <= target < outputs.len()) {
        None
    } else {
        match (place_of(outputs[selected], monitors), place_of(outputs[target], monitors)) {
            (Some(from), Some(to)) => {
                let (x, y) = snapped_to(from, to, direction);
                Some(
                    outputs.update(
                        selected,
                        ProfileOutputView { x, y, ..outputs[selected] },
                    ),
                )
            },
            _ => None,
        }
    }
}

/// Puts an output at the side of another, where sizes are spelled out.
pub fn snap_output(
    outputs: &mut Vec<ProfileOutput>,
    selected_index: usize,
    target_index: usize,
    direction: SnapDirection,
) -> (result: bool)
    ensures
        match snapped(
            store::output_views(old(outputs)@),
            seq![],
            selected_index as int,
            target_index as int,
            direction,
        ) {
            Some(moved) => result && store::output_views(final(outputs)@) == moved,
            None => !result && store::output_views(final(outputs)@) == store::output_views(
                old(outputs)@,
            ),
        },
{
    let none: Vec<MonitorState> = Vec::new();
    assert(monitor::views(none@) =~= seq![]);
    snap_output_with_monitors(outputs, &none, selected_index, target_index, direction)
}

/// Puts an output at the side of another.
pub fn snap_output_with_monitors(
    outputs: &mut Vec<ProfileOutput>,
    monitors: &Vec<MonitorState>,
    selected_index: usize,
    target_index: usize,
    direction: SnapDirection,
) -> (result: bool)
    ensures
        match snapped(
            store::output_views(old(outputs)@),
            monitor::views(monitors@),
            selected_index as int,
            target_index as int,
            direction,
        ) {
            Some(moved) => result && store::output_views(final(outputs)@) == moved,
            None => !result && store::output_views(final(outputs)@) == store::output_views(
                old(outputs)@,
            ),
        },
{
    let ghost all = store::output_views(outputs@);
    if selected_index == target_index || selected_index >= outputs.len() || target_index
        >= outputs.len() {
        return false;
    }
    assert(all[selected_index as int] == outputs@[selected_index as int]@);
    assert(all[target_index as int] == outputs@[target_index as int]@);
    let selected: LogicalRect = match output_rect_with_monitors(&outputs[selected_index], monitors) {
        Some(place) => place,
        None => {
            return false;
        },
    };
    let target: LogicalRect = match output_rect_with_monitors(&outputs[target_index], monitors) {
        Some(place) => place,
        None => {
            return false;
        },
    };
    let (x, y): (i32, i32) = match direction {
        SnapDirection::Left => (subtract(target.x, selected.width), target.y),
        SnapDirection::Right => (plus(target.x, target.width), target.y),
        SnapDirection::Above => (target.x, subtract(target.y, selected.height)),
        SnapDirection::Below => (target.x, plus(target.y, target.height)),
    };
    let mut output: ProfileOutput = outputs[selected_index].clone();
    output.x = x;
    output.y = y;
    let ghost put = output@;
    outputs.set(selected_index, output);
    assert(store::output_views(outputs@) =~= all.update(selected_index as int, put));
    true
}

// ---------------------------------------------------------------------------
// The canvas
// ---------------------------------------------------------------------------
/// The places of those of the first `n` outputs that are somewhere.
pub open spec fn places(
    outputs: Seq<ProfileOutputView>,
    monitors: Seq<MonitorView>,
    n: int,
) -> Seq<LogicalRect>
    decreases n,
{
    if n <= 0 {
        seq![]
    } else {
        match place_of(outputs[n - 1], monitors) {
            Some(place) => places(outputs, monitors, n - 1).push(place),
            None => places(outputs, monitors, n - 1),
        }
    }
}

/// The least column of the first `n` rectangles and the origin.
pub open spec fn left_of(rects: Seq<LogicalRect>, n: int) -> int
    decreases n,
{
    if n <= 0 {
        0
    } else {
        smaller(left_of(rects, n - 1), rects[n - 1].x as int)
    }
}

/// The least row of the first `n` rectangles and the origin.
pub open spec fn top_of(rects: Seq<LogicalRect>, n: int) -> int
    decreases n,
{
    if n <= 0 {
        0
    } else {
        smaller(top_of(rects, n - 1), rects[n - 1].y as int)
    }
}

/// The first column behind the first `n` rectangles and the origin.
pub open spec fn right_of(rects: Seq<LogicalRect>, n: int) -> int
    decreases n,
{
    if n <= 0 {
        0
    } else {
        larger(right_of(rects, n - 1), rects[n - 1].right_edge() as int)
    }
}

/// The first row below the first `n` rectangles and the origin.
pub open spec fn bottom_of(rects: Seq<LogicalRect>, n: int) -> int
    decreases n,
{
    if n <= 0 {
        0
    } else {
        larger(bottom_of(rects, n - 1), rects[n - 1].bottom_edge() as int)
    }
}

/// The margin that a length is given on both sides.
pub open spec fn padding(length: int) -> int {
    larger(length / 20, 80)
}

/// What `rects` take up with a margin around; one alone takes up its own size
/// wherever it is, so that it does not shrink when it is moved.
pub open spec fn bounds_of(rects: Seq<LogicalRect>) -> LogicalRect {
    let n = rects.len() as int;
    if n == 0 {
        LogicalRect { x: 0, y: 0, width: 1920, height: 1080 }
    } else {
        let width = if n == 1 {
            larger(rects[0].width as int, 1)
        } else {
            larger(coordinate(right_of(rects, n) - left_of(rects, n)) as int, 1)
        };
        let height = if n == 1 {
            larger(rects[0].height as int, 1)
        } else {
            larger(coordinate(bottom_of(rects, n) - top_of(rects, n)) as int, 1)
        };
        LogicalRect {
            x: coordinate(left_of(rects, n) - padding(width)),
            y: coordinate(top_of(rects, n) - padding(height)),
            width: coordinate(width + 2 * padding(width)),
            height: coordinate(height + 2 * padding(height)),
        }
    }
}

/// The width of a cell in logical pixels, in grains: the least of at least one with
/// which `width` fits into so many columns and `height` into so many rows, a cell
/// being twice as high as it is wide.
#[verifier::opaque]
pub open spec fn cell_width(width: int, height: int, columns: int, rows: int) -> nat {
    double::step_for(
        larger(width, 1) as nat,
        larger(columns, 1) as nat,
        larger(height, 1) as nat,
        2 * larger(rows, 1) as nat,
    )
}

/// The whole number nearest to `n` divided by the double `g`, halves away from zero.
#[verifier::opaque]
pub open spec fn steps_in(n: int, g: nat) -> int {
    if n >= 0 {
        double::whole(double::divided(n as nat, g)) as int
    } else {
        -(double::whole(double::divided((-n) as nat, g)) as int)
    }
}

/// The whole number nearest to `n` times the double `g`, halves away from zero.
#[verifier::opaque]
pub open spec fn span_of(n: int, g: nat) -> int {
    if n >= 0 {
        double::whole(double::times(n as nat, g)) as int
    } else {
        -(double::whole(double::times((-n) as nat, g)) as int)
    }
}

/// Logical pixels on a canvas of cells.
#[derive(Debug, Clone, Copy, PartialEq, Eq, Structural)]
pub struct CanvasTransform {
    origin_x: i32,
    origin_y: i32,
    area: CellRect,
    cell: Step,
}

/// What a [`CanvasTransform`] holds.
pub struct CanvasView {
    pub origin_x: int,
    pub origin_y: int,
    pub area: CellRect,
    /// The width of a cell, in grains.
    pub cell: nat,
}

impl View for CanvasTransform {
    type V = CanvasView;

    closed spec fn view(&self) -> CanvasView {
        CanvasView {
            origin_x: self.origin_x as int,
            origin_y: self.origin_y as int,
            area: self.area,
            cell: self.cell.grains(),
        }
    }
}

/// The canvas on which `bounds` fit into `area`.
pub open spec fn canvas_for(bounds: LogicalRect, area: CellRect) -> CanvasView {
    let cell = cell_width(
        bounds.width as int,
        bounds.height as int,
        area.width as int,
        area.height as int,
    );
    CanvasView {
        origin_x: bounds.x as int,
        origin_y: bounds.y as int,
        area,
        cell,
    }
}

/// The canvas on which `outputs` fit into `area`.
pub open spec fn canvas_of(
    outputs: Seq<ProfileOutputView>,
    monitors: Seq<MonitorView>,
    area: CellRect,
) -> CanvasView {
    canvas_for(bounds_of(places(outputs, monitors, outputs.len() as int)), area)
}

/// A span of `size` cells from `start`, moved and cut so that it lies in
/// another.
pub open spec fn clamped_span(start: int, size: int, area_start: int, area_size: int) -> (int, int) {
    if area_size == 0 {
        (area_start, 0)
    } else if size >= area_size {
        (area_start, area_size)
    } else {
        let last = cell(cell(area_start + area_size) - size);
        (
            if start < area_start {
                area_start
            } else if start > last {
                last as int
            } else {
                start
            },
            size,
        )
    }
}

impl CanvasView {
    /// So many logical pixels to the right, in cells.
    pub open spec fn columns(self, pixels: int) -> int {
        steps_in(pixels, self.cell)
    }

    /// So many logical pixels down, in cells.
    pub open spec fn rows(self, pixels: int) -> int {
        steps_in(pixels, 2 * self.cell)
    }

    /// So many cells to the right, in logical pixels.
    pub open spec fn across(self, columns: int) -> i32 {
        coordinate(span_of(columns, self.cell))
    }

    /// So many cells down, in logical pixels.
    pub open spec fn down(self, rows: int) -> i32 {
        coordinate(span_of(rows, 2 * self.cell))
    }

    /// The cells of `rect`.
    pub open spec fn cells_of(self, rect: LogicalRect) -> CellRect {
        if self.area.width == 0 || self.area.height == 0 {
            CellRect { x: self.area.x, y: self.area.y, width: 0, height: 0 }
        } else {
            let x = cell(
                self.area.x + cell(self.columns(coordinate(rect.x - self.origin_x) as int)),
            );
            let y = cell(self.area.y + cell(self.rows(coordinate(rect.y - self.origin_y) as int)));
            let width = smaller(
                cell(larger(self.columns(rect.width as int), 1)) as int,
                self.area.width as int,
            );
            let height = smaller(
                cell(larger(self.rows(rect.height as int), 1)) as int,
                self.area.height as int,
            );
            let (left, wide) = clamped_span(
                x as int,
                width,
                self.area.x as int,
                self.area.width as int,
            );
            let (top, high) = clamped_span(
                y as int,
                height,
                self.area.y as int,
                self.area.height as int,
            );
            CellRect { x: left as u16, y: top as u16, width: wide as u16, height: high as u16 }
        }
    }

    /// The point of a cell of the canvas.
    pub open spec fn point_at(self, column: int, row: int) -> Option<(i32, i32)> {
        if !self.area.holds(column, row) {
            None
        } else {
            Some(
                (
                    coordinate(self.origin_x + self.across(column - self.area.x)),
                    coordinate(self.origin_y + self.down(row - self.area.y)),
                ),
            )
        }
    }
}

/// The last of the first `n` outputs whose place holds the point.
pub open spec fn top_output(
    outputs: Seq<ProfileOutputView>,
    monitors: Seq<MonitorView>,
    x: int,
    y: int,
    n: int,
) -> Option<int>
    decreases n,
{
    if n <= 0 {
        None
    } else if place_of(outputs[n - 1], monitors) matches Some(place) && place.holds(x, y) {
        Some(n - 1)
    } else {
        top_output(outputs, monitors, x, y, n - 1)
    }
}

/// The output that is shown at a cell of the canvas.
pub open spec fn output_shown(
    canvas: CanvasView,
    outputs: Seq<ProfileOutputView>,
    monitors: Seq<MonitorView>,
    column: int,
    row: int,
) -> Option<int> {
    match canvas.point_at(column, row) {
        None => None,
        Some((x, y)) => top_output(outputs, monitors, x as int, y as int, outputs.len() as int),
    }
}

fn collect_places(outputs: &Vec<ProfileOutput>, monitors: &Vec<MonitorState>) -> (result: Vec<
    LogicalRect,
>)
    ensures
        result@ == places(
            store::output_views(outputs@),
            monitor::views(monitors@),
            outputs@.len() as int,
        ),
{
    let ghost all = store::output_views(outputs@);
    let mut result: Vec<LogicalRect> = Vec::new();
    let mut i: usize = 0;
    while i < outputs.len()
        invariant
            i <= outputs@.len(),
            all == store::output_views(outputs@),
            result@ == places(all, monitor::views(monitors@), i as int),
        decreases outputs@.len() - i,
    {
        assert(all[i as int] == outputs@[i as int]@);
        match output_rect_with_monitors(&outputs[i], monitors) {
            Some(place) => {
                result.push(place);
            },
            None => {},
        }
        i += 1;
    }
    result
}

fn padding_of(length: i32) -> (result: i32)
    requires
        length >= 1,
    ensures
        result == padding(length as int),
{
    max_of(length / 20, 80)
}

fn layout_bounds(rects: &Vec<LogicalRect>) -> (result: LogicalRect)
    ensures
        result == bounds_of(rects@),
{
    if rects.len() == 0 {
        return LogicalRect { x: 0, y: 0, width: 1920, height: 1080 };
    }
    let mut left: i32 = 0;
    let mut top: i32 = 0;
    let mut right: i32 = 0;
    let mut bottom: i32 = 0;
    let mut i: usize = 0;
    while i < rects.len()
        invariant
            i <= rects@.len(),
            left == left_of(rects@, i as int),
            top == top_of(rects@, i as int),
            right == right_of(rects@, i as int),
            bottom == bottom_of(rects@, i as int),
        decreases rects@.len() - i,
    {
        let rect: LogicalRect = rects[i];
        left = min_of(left, rect.x);
        top = min_of(top, rect.y);
        right = max_of(right, plus(rect.x, rect.width));
        bottom = max_of(bottom, plus(rect.y, rect.height));
        i += 1;
    }
    let width: i32 = if rects.len() == 1 {
        max_of(rects[0].width, 1)
    } else {
        max_of(subtract(right, left), 1)
    };
    let height: i32 = if rects.len() == 1 {
        max_of(rects[0].height, 1)
    } else {
        max_of(subtract(bottom, top), 1)
    };
    let padding_x: i32 = padding_of(width);
    let padding_y: i32 = padding_of(height);
    LogicalRect {
        x: subtract(left, padding_x),
        y: subtract(top, padding_y),
        width: to_coordinate(width as i128 + 2 * padding_x as i128),
        height: to_coordinate(height as i128 + 2 * padding_y as i128),
    }
}

fn clamp_span_to_area(start: u16, size: u16, area_start: u16, area_size: u16) -> (result: (u16, u16))
    ensures
        (result.0 as int, result.1 as int) == clamped_span(
            start as int,
            size as int,
            area_start as int,
            area_size as int,
        ),
{
    if area_size == 0 {
        return (area_start, 0);
    }
    if size >= area_size {
        return (area_start, area_size);
    }
    let end: u16 = to_cell(area_start as i128 + area_size as i128);
    let last: u16 = to_cell(end as i128 - size as i128);
    if start < area_start {
        (area_start, size)
    } else if start > last {
        (last, size)
    } else {
        (start, size)
    }
}

impl CanvasTransform {
    /// The canvas on which `outputs`, whose sizes are spelled out, fit into
    /// `area`.
    pub fn new(outputs: &Vec<ProfileOutput>, area: CellRect) -> (result: Self)
        ensures
            result@ == canvas_of(store::output_views(outputs@), seq![], area),
    {
        let none: Vec<MonitorState> = Vec::new();
        assert(monitor::views(none@) =~= seq![]);
        CanvasTransform::new_with_monitors(outputs, &none, area)
    }

    /// The canvas on which `outputs` fit into `area`.
    pub fn new_with_monitors(
        outputs: &Vec<ProfileOutput>,
        monitors: &Vec<MonitorState>,
        area: CellRect,
    ) -> (result: Self)
        ensures
            result@ == canvas_of(
                store::output_views(outputs@),
                monitor::views(monitors@),
                area,
            ),
    {
        let rects: Vec<LogicalRect> = collect_places(outputs, monitors);
        let bounds: LogicalRect = layout_bounds(&rects);
        let w: u32 = if bounds.width >= 1 {
            bounds.width as u32
        } else {
            1
        };
        let h: u32 = if bounds.height >= 1 {
            bounds.height as u32
        } else {
            1
        };
        let c: u32 = if area.width >= 1 {
            area.width as u32
        } else {
            1
        };
        let r: u32 = if area.height >= 1 {
            area.height as u32
        } else {
            1
        };
        reveal(cell_width);
        let cell: Step = Step::fitting(w, c, h, 2 * r);
        CanvasTransform {
            origin_x: bounds.x,
            origin_y: bounds.y,
            area,
            cell,
        }
    }

    fn columns(self, pixels: i32) -> (result: i128)
        ensures
            result == capped(self@.columns(pixels as int)),
    {
        reveal(steps_in);
        signed(pixels, self.cell.count(size_of(pixels), false))
    }

    fn rows(self, pixels: i32) -> (result: i128)
        ensures
            result == capped(self@.rows(pixels as int)),
    {
        reveal(steps_in);
        signed(pixels, self.cell.count(size_of(pixels), true))
    }

    fn across(self, columns: i32) -> (result: i32)
        ensures
            result == self@.across(columns as int),
    {
        reveal(span_of);
        to_coordinate(signed(columns, self.cell.span(size_of(columns), false)))
    }

    fn down(self, rows: i32) -> (result: i32)
        ensures
            result == self@.down(rows as int),
    {
        reveal(span_of);
        to_coordinate(signed(rows, self.cell.span(size_of(rows), true)))
    }

    /// The cells of `rect`.
    pub fn to_cell_rect(self, rect: LogicalRect) -> (result: CellRect)
        ensures
            result == self@.cells_of(rect),
    {
        if self.area.width == 0 || self.area.height == 0 {
            return CellRect { x: self.area.x, y: self.area.y, width: 0, height: 0 };
        }
        let x: u16 = to_cell(
            self.area.x as i128 + to_cell(self.columns(subtract(rect.x, self.origin_x))) as i128,
        );
        let y: u16 = to_cell(
            self.area.y as i128 + to_cell(self.rows(subtract(rect.y, self.origin_y))) as i128,
        );
        let columns: i128 = self.columns(rect.width);
        let rows: i128 = self.rows(rect.height);
        let wide: u16 = to_cell(
            if columns >= 1 {
                columns
            } else {
                1
            },
        );
        let high: u16 = to_cell(
            if rows >= 1 {
                rows
            } else {
                1
            },
        );
        let width: u16 = if wide <= self.area.width {
            wide
        } else {
            self.area.width
        };
        let height: u16 = if high <= self.area.height {
            high
        } else {
            self.area.height
        };
        let (x, width): (u16, u16) = clamp_span_to_area(x, width, self.area.x, self.area.width);
        let (y, height): (u16, u16) = clamp_span_to_area(y, height, self.area.y, self.area.height);
        CellRect { x, y, width, height }
    }

    /// The point of a cell of the canvas.
    pub fn to_logical(self, column: u16, row: u16) -> (result: Option<(i32, i32)>)
        ensures
            result == self@.point_at(column as int, row as int),
    {
        if !self.area.contains(column, row) {
            return None;
        }
        let dx: i32 = (column - self.area.x) as i32;
        let dy: i32 = (row - self.area.y) as i32;
        Some((plus(self.origin_x, self.across(dx)), plus(self.origin_y, self.down(dy))))
    }

    /// So many cells to the right and down, in logical pixels.
    pub fn cell_delta_to_logical(self, dx: i32, dy: i32) -> (result: (i32, i32))
        ensures
            result == (self@.across(dx as int), self@.down(dy as int)),
    {
        (self.across(dx), self.down(dy))
    }

    /// The output that is shown at a cell of the canvas, where sizes are spelled
    /// out.
    pub fn output_at(self, outputs: &Vec<ProfileOutput>, column: u16, row: u16) -> (result: Option<
        usize,
    >)
        ensures
            match (
                result,
                output_shown(
                    self@,
                    store::output_views(outputs@),
                    seq![],
                    column as int,
                    row as int,
                ),
            ) {
                (Some(i), Some(shown)) => i == shown,
                (None, None) => true,
                _ => false,
            },
    {
        let none: Vec<MonitorState> = Vec::new();
        assert(monitor::views(none@) =~= seq![]);
        self.output_at_with_monitors(outputs, &none, column, row)
    }

    /// The output that is shown at a cell of the canvas.
    pub fn output_at_with_monitors(
        self,
        outputs: &Vec<ProfileOutput>,
        monitors: &Vec<MonitorState>,
        column: u16,
        row: u16,
    ) -> (result: Option<usize>)
        ensures
            match (
                result,
                output_shown(
                    self@,
                    store::output_views(outputs@),
                    monitor::views(monitors@),
                    column as int,
                    row as int,
                ),
            ) {
                (Some(i), Some(shown)) => i == shown,
                (None, None) => true,
                _ => false,
            },
    {
        let (x, y): (i32, i32) = match self.to_logical(column, row) {
            Some(point) => point,
            None => {
                return None;
            },
        };
        let ghost all = store::output_views(outputs@);
        let ghost connected = monitor::views(monitors@);
        let mut n: usize = outputs.len();
        while n > 0
            invariant
                n <= outputs@.len(),
                self@.point_at(column as int, row as int) == Some((x, y)),
                all == store::output_views(outputs@),
                connected == monitor::views(monitors@),
                top_output(all, connected, x as int, y as int, n as int) == top_output(
                    all,
                    connected,
                    x as int,
                    y as int,
                    outputs@.len() as int,
                ),
            decreases n,
        {
            assert(all[n - 1] == outputs@[n - 1]@);
            match output_rect_with_monitors(&outputs[n - 1], monitors) {
                Some(place) => if place.contains(x, y) {
                    return Some(n - 1);
                },
                None => {},
            }
            n -= 1;
        }
        None
    }
}

// ---------------------------------------------------------------------------
// Laws
// ---------------------------------------------------------------------------
proof fn lemma_span(start: int, size: int, area_start: int, area_size: int)
    requires
        0 <= start,
        1 <= size <= u16::MAX,
        0 <= area_start,
        0 < area_size,
        area_start + area_size <= u16::MAX,
    ensures
        ({
            let (from, length) = clamped_span(start, size, area_start, area_size);
            &&& area_start <= from
            &&& 1 <= length <= area_size
            &&& from + length <= area_start + area_size
        }),
{
}

/// Whatever is shown stays on the canvas and takes up at least one cell of it.
pub proof fn law_cells_stay_on_the_canvas(canvas: CanvasView, rect: LogicalRect)
    requires
        canvas.area.width > 0,
        canvas.area.height > 0,
        canvas.area.x + canvas.area.width <= u16::MAX,
        canvas.area.y + canvas.area.height <= u16::MAX,
    ensures
        ({
            let shown = canvas.cells_of(rect);
            &&& canvas.area.x <= shown.x
            &&& canvas.area.y <= shown.y
            &&& shown.x + shown.width <= canvas.area.x + canvas.area.width
            &&& shown.y + shown.height <= canvas.area.y + canvas.area.height
            &&& shown.width > 0
            &&& shown.height > 0
        }),
{
    let x = cell(
        canvas.area.x + cell(canvas.columns(coordinate(rect.x - canvas.origin_x) as int)),
    );
    let y = cell(canvas.area.y + cell(canvas.rows(coordinate(rect.y - canvas.origin_y) as int)));
    let width = smaller(
        cell(larger(canvas.columns(rect.width as int), 1)) as int,
        canvas.area.width as int,
    );
    let height = smaller(
        cell(larger(canvas.rows(rect.height as int), 1)) as int,
        canvas.area.height as int,
    );
    lemma_span(x as int, width, canvas.area.x as int, canvas.area.width as int);
    lemma_span(y as int, height, canvas.area.y as int, canvas.area.height as int);
}

/// A monitor that stands alone keeps its size on the canvas wherever it is
/// moved.
pub proof fn law_lone_monitor_keeps_its_size(before: LogicalRect, after: LogicalRect, area: CellRect)
    requires
        before.width == after.width,
        before.height == after.height,
    ensures
        ({
            let shown = canvas_for(bounds_of(seq![before]), area).cells_of(before);
            let shown_after = canvas_for(bounds_of(seq![after]), area).cells_of(after);
            shown.width == shown_after.width && shown.height == shown_after.height
        }),
{
    let a = bounds_of(seq![before]);
    let b = bounds_of(seq![after]);
    assert(a.width == b.width && a.height == b.height);
}

/// An output that is put at the side of another touches it and does not overlap
/// it, unless the place is out of reach.
pub proof fn law_snapped_outputs_touch(
    selected: LogicalRect,
    target: LogicalRect,
    direction: SnapDirection,
)
    requires
        selected.width > 0,
        selected.height > 0,
        target.width > 0,
        target.height > 0,
        i32::MIN <= target.x - selected.width,
        i32::MIN <= target.y - selected.height,
        target.x + target.width <= i32::MAX,
        target.y + target.height <= i32::MAX,
    ensures
        ({
            let (x, y) = snapped_to(selected, target, direction);
            match direction {
                SnapDirection::Left => x + selected.width == target.x && y == target.y,
                SnapDirection::Right => x == target.x + target.width && y == target.y,
                SnapDirection::Above => y + selected.height == target.y && x == target.x,
                SnapDirection::Below => y == target.y + target.height && x == target.x,
            }
        }),
{
}

/// Moving there and back leaves an output where it was, unless a coordinate is
/// out of reach.
pub proof fn law_moving_back_undoes_a_move(output: ProfileOutputView, dx: int, dy: int)
    requires
        i32::MIN <= output.x + dx <= i32::MAX,
        i32::MIN <= output.y + dy <= i32::MAX,
    ensures
        moved(moved(output, dx, dy), -dx, -dy) == output,
{
}

/// A place has a size of at least one pixel either way.
pub proof fn law_places_have_a_size(output: ProfileOutputView, monitors: Seq<MonitorView>)
    ensures
        place_of(output, monitors) matches Some(place) ==> place.width >= 1 && place.height >= 1
            && place.x == output.x && place.y == output.y,
{
    reveal(logical_length);
}

} // verus!
