//! The areas of the screen.
use ratatui::layout::{Constraint, Direction, Layout, Rect};
use vstd::prelude::*;

use crate::tui::geometry::CellRect;

verus! {

/// How much of an area a part takes.
#[derive(Debug, Clone, Copy, PartialEq, Eq, Structural)]
pub enum Limit {
    Length(u16),
    Min(u16),
    Percentage(u16),
}

/// `part` lies within `whole` and reaches across it: from side to side if the
/// parts are on top of each other, else from top to bottom.
pub open spec fn is_part(whole: CellRect, vertical: bool, part: CellRect) -> bool {
    if vertical {
        &&& part.x == whole.x
        &&& part.width == whole.width
        &&& whole.y <= part.y
        &&& part.y + part.height <= whole.bottom_edge()
    } else {
        &&& part.y == whole.y
        &&& part.height == whole.height
        &&& whole.x <= part.x
        &&& part.x + part.width <= whole.right_edge()
    }
}

/// Where an area begins, in the direction in which it is split.
pub open spec fn beginning(area: CellRect, vertical: bool) -> int {
    if vertical {
        area.y as int
    } else {
        area.x as int
    }
}

/// How long an area is, in the direction in which it is split.
pub open spec fn extent(area: CellRect, vertical: bool) -> int {
    if vertical {
        area.bottom_edge() - area.y
    } else {
        area.right_edge() - area.x
    }
}

/// How many cells the first `n` limits need.
pub open spec fn needed(limits: Seq<Limit>, n: int) -> int
    decreases n,
{
    if n <= 0 {
        0
    } else {
        needed(limits, n - 1) + match limits[n - 1] {
            Limit::Length(length) => length as int,
            Limit::Min(length) => length as int,
            Limit::Percentage(_) => 0,
        }
    }
}

/// How many hundredths the first `n` limits share out.
pub open spec fn shared_out(limits: Seq<Limit>, n: int) -> int
    decreases n,
{
    if n <= 0 {
        0
    } else {
        shared_out(limits, n - 1) + match limits[n - 1] {
            Limit::Percentage(share) => share as int,
            _ => 0,
        }
    }
}

/// An area of `size` cells has room for a few limits: the lengths and minima
/// among them fit and there are no shares, or there are only shares of at most
/// the whole.
pub open spec fn has_room(limits: Seq<Limit>, size: int) -> bool {
    &&& limits.len() <= 8
    &&& forall|i: int|
        0 <= i < limits.len() ==> (#[trigger] limits[i] matches Limit::Min(length) ==> length
            <= 0x7fff)
    &&& {
        ||| needed(limits, limits.len() as int) <= size && forall|i: int|
            0 <= i < limits.len() ==> #[trigger] limits[i] !is Percentage
        ||| shared_out(limits, limits.len() as int) <= 100 && forall|i: int|
            0 <= i < limits.len() ==> #[trigger] limits[i] is Percentage
    }
}

/// Where the first `n` shares of `size` cells end, to the nearest cell.
pub open spec fn share_end(limits: Seq<Limit>, size: int, n: int) -> int {
    (shared_out(limits, n) * size + 50) / 100
}

/// Of the limits only that of `i` can grow.
pub open spec fn grows_alone(limits: Seq<Limit>, i: int) -> bool {
    forall|j: int| 0 <= j < limits.len() && j != i ==> #[trigger] limits[j] is Length
}

/// `taken` out of `size` cells is what the limit of `i` asks for: a length is
/// taken as it is, a minimum that alone can grow takes what the lengths leave, and
/// shares end at the nearest cell.
pub open spec fn keeps_to(limits: Seq<Limit>, i: int, size: int, taken: int) -> bool {
    match limits[i] {
        Limit::Length(length) => taken == length,
        Limit::Min(length) => {
            &&& taken >= length
            &&& grows_alone(limits, i) ==> taken == size - (needed(limits, limits.len() as int)
                - length)
        },
        Limit::Percentage(_) => taken == share_end(limits, size, i + 1) - share_end(
            limits,
            size,
            i,
        ),
    }
}

/// `part` begins where the part before it ends, or where `whole` begins.
pub open spec fn adjoins(
    whole: CellRect,
    vertical: bool,
    parts: Seq<CellRect>,
    i: int,
) -> bool {
    beginning(parts[i], vertical) == if i == 0 {
        beginning(whole, vertical)
    } else {
        beginning(parts[i - 1], vertical) + extent(parts[i - 1], vertical)
    }
}

/// `parts` are the parts of `whole` under `limits`.
pub open spec fn is_split(
    whole: CellRect,
    vertical: bool,
    limits: Seq<Limit>,
    parts: Seq<CellRect>,
) -> bool {
    &&& parts.len() == limits.len()
    &&& forall|i: int| 0 <= i < parts.len() ==> is_part(whole, vertical, #[trigger] parts[i])
    &&& has_room(limits, extent(whole, vertical)) ==> forall|i: int|
        0 <= i < parts.len() ==> adjoins(whole, vertical, parts, i) && keeps_to(
            limits,
            i,
            extent(whole, vertical),
            extent(#[trigger] parts[i], vertical),
        )
}

/// Calls `Layout::split` of ratatui on a layout with these limits. Claimed of
/// it: there is one part for each limit, each part lies within the area and
/// reaches across it, and where the area has room for the limits, the parts
/// follow each other without a gap and each takes what its limit asks for: a length
/// outweighs the wish of a minimum to fill the area, and that wish outweighs the
/// space behind the last part. What gives way where there is not enough room, and
/// how several minima share what is left over, is up to its solver and not said.
#[verifier::external_body]
fn split(vertical: bool, limits: &Vec<Limit>, area: CellRect) -> (result: Vec<CellRect>)
    ensures
        is_split(area, vertical, limits@, result@),
{
    let direction = if vertical { Direction::Vertical } else { Direction::Horizontal };
    let constraints = limits.iter().map(|limit| match limit {
        Limit::Length(length) => Constraint::Length(*length),
        Limit::Min(length) => Constraint::Min(*length),
        Limit::Percentage(share) => Constraint::Percentage(*share),
    });
    let CellRect { x, y, width, height } = area;
    let layout = Layout::default().direction(direction).constraints(constraints);
    let parts = layout.split(Rect { x, y, width, height });
    let cells = parts.iter().map(|part| (part.x, part.y, part.width, part.height));
    cells.map(|(x, y, width, height)| CellRect { x, y, width, height }).collect()
}

/// The areas of the screen.
#[derive(Debug, Clone, Copy, PartialEq, Eq, Structural)]
pub struct TuiLayout {
    pub title: CellRect,
    pub profile_list: CellRect,
    pub canvas: CellRect,
    pub details: CellRect,
    pub preview: CellRect,
    pub warnings: CellRect,
}

/// The parts of four splits as the areas of the screen.
pub open spec fn areas_of(
    root: Seq<CellRect>,
    body: Seq<CellRect>,
    editor: Seq<CellRect>,
    lower: Seq<CellRect>,
) -> TuiLayout {
    TuiLayout {
        title: root[0],
        profile_list: body[0],
        canvas: editor[0],
        details: editor[1],
        preview: lower[0],
        warnings: lower[1],
    }
}

/// The parts of four splits as the areas of the screen.
pub fn assemble_areas(
    root: &Vec<CellRect>,
    body: &Vec<CellRect>,
    editor: &Vec<CellRect>,
    lower: &Vec<CellRect>,
) -> (result: TuiLayout)
    requires
        root@.len() == 3,
        body@.len() == 2,
        editor@.len() == 2,
        lower@.len() == 2,
    ensures
        result == areas_of(root@, body@, editor@, lower@),
{
    TuiLayout {
        title: root[0],
        profile_list: body[0],
        canvas: editor[0],
        details: editor[1],
        preview: lower[0],
        warnings: lower[1],
    }
}

/// The limits of the screen: a title, the middle, and what is below.
pub open spec fn root_limits() -> Seq<Limit> {
    seq![Limit::Length(3), Limit::Min(12), Limit::Length(7)]
}

/// The limits of the middle: a list, and the editor.
pub open spec fn body_limits() -> Seq<Limit> {
    seq![Limit::Percentage(28), Limit::Percentage(72)]
}

/// The limits of the editor: the canvas, and the details.
pub open spec fn editor_limits() -> Seq<Limit> {
    seq![Limit::Min(8), Limit::Length(7)]
}

/// The limits of what is below: the preview, and the warnings.
pub open spec fn lower_limits() -> Seq<Limit> {
    seq![Limit::Percentage(52), Limit::Percentage(48)]
}

/// `areas` are those of a screen: a title above, a list and an editor in the
/// middle, a preview and warnings below.
pub open spec fn is_layout(screen: CellRect, areas: TuiLayout) -> bool {
    exists|
        root: Seq<CellRect>,
        body: Seq<CellRect>,
        editor: Seq<CellRect>,
        lower: Seq<CellRect>,
    |
        {
            &&& areas == #[trigger] areas_of(root, body, editor, lower)
            &&& is_split(screen, true, root_limits(), root)
            &&& is_split(root[1], false, body_limits(), body)
            &&& is_split(body[1], true, editor_limits(), editor)
            &&& is_split(root[2], false, lower_limits(), lower)
        }
}

/// The areas of a screen: a title above, a list and an editor in the middle, a
/// preview and warnings below.
pub fn layout_areas(area: CellRect) -> (result: TuiLayout)
    ensures
        is_layout(area, result),
{
    let limits: Vec<Limit> = vec![Limit::Length(3), Limit::Min(12), Limit::Length(7)];
    assert(limits@ =~= root_limits());
    let root: Vec<CellRect> = split(true, &limits, area);
    let limits: Vec<Limit> = vec![Limit::Percentage(28), Limit::Percentage(72)];
    assert(limits@ =~= body_limits());
    let body: Vec<CellRect> = split(false, &limits, root[1]);
    let limits: Vec<Limit> = vec![Limit::Min(8), Limit::Length(7)];
    assert(limits@ =~= editor_limits());
    let editor: Vec<CellRect> = split(true, &limits, body[1]);
    let limits: Vec<Limit> = vec![Limit::Percentage(52), Limit::Percentage(48)];
    assert(limits@ =~= lower_limits());
    let lower: Vec<CellRect> = split(false, &limits, root[2]);
    assemble_areas(&root, &body, &editor, &lower)
}

/// A cell of an area of the screen is a cell of the screen.
pub proof fn law_areas_lie_on_the_screen(screen: CellRect, areas: TuiLayout, column: int, row: int)
    requires
        is_layout(screen, areas),
    ensures
        areas.title.holds(column, row) ==> screen.holds(column, row),
        areas.profile_list.holds(column, row) ==> screen.holds(column, row),
        areas.canvas.holds(column, row) ==> screen.holds(column, row),
        areas.details.holds(column, row) ==> screen.holds(column, row),
        areas.preview.holds(column, row) ==> screen.holds(column, row),
        areas.warnings.holds(column, row) ==> screen.holds(column, row),
{
    let (root, body, editor, lower) = choose|
        root: Seq<CellRect>,
        body: Seq<CellRect>,
        editor: Seq<CellRect>,
        lower: Seq<CellRect>,
    |
        {
            &&& areas == #[trigger] areas_of(root, body, editor, lower)
            &&& is_split(screen, true, root_limits(), root)
            &&& is_split(root[1], false, body_limits(), body)
            &&& is_split(body[1], true, editor_limits(), editor)
            &&& is_split(root[2], false, lower_limits(), lower)
        };
    assert(is_part(screen, true, root[0]) && is_part(screen, true, root[1]) && is_part(
        screen,
        true,
        root[2],
    ));
    assert(is_part(root[1], false, body[0]) && is_part(root[1], false, body[1]));
    assert(is_part(body[1], true, editor[0]) && is_part(body[1], true, editor[1]));
    assert(is_part(root[2], false, lower[0]) && is_part(root[2], false, lower[1]));
}

/// On a screen with at least 22 rows the title takes three rows, what is below
/// takes seven, and the middle takes the others. Where the middle has at least
/// fifteen, the details take seven of them and the canvas takes the others. The
/// list takes 28 of 100 columns and the preview 52, to the nearest column; canvas
/// and warnings take the others. The areas follow each other without a gap.
pub proof fn law_areas_have_their_places(screen: CellRect, areas: TuiLayout)
    requires
        is_layout(screen, areas),
        extent(screen, true) >= 22,
    ensures
        areas.title.y == screen.y && areas.title.height == 3,
        areas.profile_list.y == screen.y + 3 && areas.profile_list.height == extent(screen, true)
            - 10,
        areas.profile_list.x == screen.x,
        areas.profile_list.width == (28 * extent(screen, false) + 50) / 100,
        areas.canvas.width == extent(screen, false) - areas.profile_list.width,
        areas.canvas.x == areas.profile_list.x + areas.profile_list.width,
        areas.details.x == areas.canvas.x && areas.details.width == areas.canvas.width,
        areas.profile_list.height >= 15 ==> {
            &&& areas.canvas.y == areas.profile_list.y
            &&& areas.canvas.height == areas.profile_list.height - 7
            &&& areas.details.y == areas.canvas.y + areas.canvas.height
            &&& areas.details.height == 7
        },
        areas.preview.y == areas.profile_list.y + areas.profile_list.height,
        areas.preview.height == 7 && areas.warnings.height == 7,
        areas.preview.x == screen.x,
        areas.warnings.y == areas.preview.y,
        areas.preview.width == (52 * extent(screen, false) + 50) / 100,
        areas.warnings.x == areas.preview.x + areas.preview.width,
        areas.warnings.width == extent(screen, false) - areas.preview.width,
{
    let (root, body, editor, lower) = choose|
        root: Seq<CellRect>,
        body: Seq<CellRect>,
        editor: Seq<CellRect>,
        lower: Seq<CellRect>,
    |
        {
            &&& areas == #[trigger] areas_of(root, body, editor, lower)
            &&& is_split(screen, true, root_limits(), root)
            &&& is_split(root[1], false, body_limits(), body)
            &&& is_split(body[1], true, editor_limits(), editor)
            &&& is_split(root[2], false, lower_limits(), lower)
        };
    reveal_with_fuel(needed, 4);
    reveal_with_fuel(shared_out, 3);
    assert(has_room(root_limits(), extent(screen, true)));
    assert(is_part(screen, true, root[0]) && is_part(screen, true, root[1]) && is_part(
        screen,
        true,
        root[2],
    ));
    assert(adjoins(screen, true, root, 0) && adjoins(screen, true, root, 1) && adjoins(
        screen,
        true,
        root,
        2,
    ));
    assert(grows_alone(root_limits(), 1));
    let columns = extent(screen, false);
    assert(extent(root[1], false) == columns && extent(root[2], false) == columns);
    assert(shared_out(body_limits(), 1) == 28 && shared_out(body_limits(), 2) == 100);
    assert(shared_out(lower_limits(), 1) == 52 && shared_out(lower_limits(), 2) == 100);
    assert(0 * columns == 0) by (nonlinear_arith);
    assert(share_end(body_limits(), columns, 0) == 0);
    assert(share_end(lower_limits(), columns, 0) == 0);
    assert(has_room(body_limits(), extent(root[1], false)));
    assert(is_part(root[1], false, body[0]) && is_part(root[1], false, body[1]));
    assert(adjoins(root[1], false, body, 0) && adjoins(root[1], false, body, 1));
    assert(has_room(lower_limits(), extent(root[2], false)));
    assert(is_part(root[2], false, lower[0]) && is_part(root[2], false, lower[1]));
    assert(adjoins(root[2], false, lower, 0) && adjoins(root[2], false, lower, 1));
    assert(is_part(body[1], true, editor[0]) && is_part(body[1], true, editor[1]));
    if areas.profile_list.height >= 15 {
        assert(has_room(editor_limits(), extent(body[1], true)));
        assert(grows_alone(editor_limits(), 0));
        assert(adjoins(body[1], true, editor, 0) && adjoins(body[1], true, editor, 1));
    }
}

} // verus!
