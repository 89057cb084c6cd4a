//! Where the areas of the screen are.
use vstd::prelude::*;

use crate::tui::geometry::CellRect;
use crate::tui::layout;
use crate::tui::layout::{Limit, TuiLayout};

verus! {

proof fn lemma_shares(a: u16, b: u16, size: int)
    requires
        a + b == 100,
        0 <= size,
    ensures
        ({
            let limits = seq![Limit::Percentage(a), Limit::Percentage(b)];
            &&& layout::shared_out(limits, 0) == 0
            &&& layout::shared_out(limits, 1) == a
            &&& layout::shared_out(limits, 2) == 100
            &&& layout::share_end(limits, size, 0) == 0
            &&& layout::share_end(limits, size, 1) == (a * size + 50) / 100
            &&& layout::share_end(limits, size, 2) == size
            &&& layout::has_room(limits, size)
        }),
{
    let limits = seq![Limit::Percentage(a), Limit::Percentage(b)];
    assert(layout::shared_out(limits, 0) == 0);
    assert(layout::shared_out(limits, 1) == a);
    assert(layout::shared_out(limits, 2) == 100);
    assert(0 * size == 0) by (nonlinear_arith);
}

/// On a screen that is high enough the title takes the first three rows and the preview
/// and the warnings the last seven, side by side; between them the list of profiles stands
/// to the left of the canvas, and the details take the seven rows below the canvas. What
/// stands side by side takes up the whole width.
pub proof fn law_areas_fill_the_screen(screen: CellRect, areas: TuiLayout)
    requires
        layout::is_layout(screen, areas),
        screen.x + screen.width <= u16::MAX,
        screen.y + screen.height <= u16::MAX,
        screen.height >= 25,
    ensures
        areas.title.x == screen.x && areas.title.y == screen.y && areas.title.width == screen.width
            && areas.title.height == 3,
        areas.profile_list.x == screen.x && areas.profile_list.y == screen.y + 3
            && areas.profile_list.height == screen.height - 10,
        areas.canvas.x == areas.profile_list.x + areas.profile_list.width && areas.canvas.y
            == screen.y + 3 && areas.profile_list.width + areas.canvas.width == screen.width,
        areas.details.x == areas.canvas.x && areas.details.width == areas.canvas.width
            && areas.details.y == areas.canvas.y + areas.canvas.height && areas.details.height == 7
            && areas.canvas.height + 7 == screen.height - 10,
        areas.preview.x == screen.x && areas.preview.y == screen.y + screen.height - 7
            && areas.preview.height == 7,
        areas.warnings.x == areas.preview.x + areas.preview.width && areas.warnings.y
            == areas.preview.y && areas.warnings.height == 7 && areas.preview.width
            + areas.warnings.width == screen.width,
        -50 <= 100 * areas.profile_list.width - 28 * screen.width <= 50,
        -50 <= 100 * areas.preview.width - 52 * screen.width <= 50,
{
    let (root, body, editor, lower) = choose|
        root: Seq<CellRect>,
        body: Seq<CellRect>,
        editor: Seq<CellRect>,
        lower: Seq<CellRect>,
    |
        {
            &&& areas == #[trigger] layout::areas_of(root, body, editor, lower)
            &&& layout::is_split(screen, true, layout::root_limits(), root)
            &&& layout::is_split(root[1], false, layout::body_limits(), body)
            &&& layout::is_split(body[1], true, layout::editor_limits(), editor)
            &&& layout::is_split(root[2], false, layout::lower_limits(), lower)
        };
    lemma_root(screen, root);
    lemma_shares(28, 72, screen.width as int);
    lemma_two(root[1], 28, 72, body);
    lemma_shares(52, 48, screen.width as int);
    lemma_two(root[2], 52, 48, lower);
    lemma_editor(body[1], editor);
}

proof fn lemma_root(screen: CellRect, root: Seq<CellRect>)
    requires
        layout::is_split(screen, true, layout::root_limits(), root),
        screen.x + screen.width <= u16::MAX,
        screen.y + screen.height <= u16::MAX,
        screen.height >= 25,
    ensures
        root.len() == 3,
        root[0] == (CellRect { x: screen.x, y: screen.y, width: screen.width, height: 3 }),
        root[1] == (CellRect {
            x: screen.x,
            y: (screen.y + 3) as u16,
            width: screen.width,
            height: (screen.height - 10) as u16,
        }),
        root[2] == (CellRect {
            x: screen.x,
            y: (screen.y + screen.height - 7) as u16,
            width: screen.width,
            height: 7,
        }),
{
    let limits = layout::root_limits();
    assert(limits.len() == 3);
    reveal_with_fuel(layout::needed, 4);
    assert(layout::needed(limits, 3) == 22);
    assert(layout::has_room(limits, screen.height as int));
    assert(layout::grows_alone(limits, 1));
    assert(layout::is_part(screen, true, root[0]));
    assert(layout::is_part(screen, true, root[1]));
    assert(layout::is_part(screen, true, root[2]));
    assert(layout::adjoins(screen, true, root, 0) && layout::keeps_to(
        limits,
        0,
        screen.height as int,
        layout::extent(root[0], true),
    ));
    assert(layout::adjoins(screen, true, root, 1) && layout::keeps_to(
        limits,
        1,
        screen.height as int,
        layout::extent(root[1], true),
    ));
    assert(layout::adjoins(screen, true, root, 2) && layout::keeps_to(
        limits,
        2,
        screen.height as int,
        layout::extent(root[2], true),
    ));
}

proof fn lemma_two(whole: CellRect, a: u16, b: u16, parts: Seq<CellRect>)
    requires
        a + b == 100,
        layout::is_split(
            whole,
            false,
            seq![Limit::Percentage(a), Limit::Percentage(b)],
            parts,
        ),
        whole.x + whole.width <= u16::MAX,
        whole.y + whole.height <= u16::MAX,
    ensures
        parts.len() == 2,
        parts[0].x == whole.x && parts[0].y == whole.y && parts[0].height == whole.height,
        parts[0].width == (a * whole.width + 50) / 100,
        parts[1].x == whole.x + parts[0].width && parts[1].y == whole.y && parts[1].height
            == whole.height,
        parts[0].width + parts[1].width == whole.width,
{
    let limits = seq![Limit::Percentage(a), Limit::Percentage(b)];
    let size = whole.width as int;
    lemma_shares(a, b, size);
    assert(layout::is_part(whole, false, parts[0]));
    assert(layout::is_part(whole, false, parts[1]));
    assert(layout::adjoins(whole, false, parts, 0) && layout::keeps_to(
        limits,
        0,
        size,
        layout::extent(parts[0], false),
    ));
    assert(layout::adjoins(whole, false, parts, 1) && layout::keeps_to(
        limits,
        1,
        size,
        layout::extent(parts[1], false),
    ));
}

proof fn lemma_editor(whole: CellRect, parts: Seq<CellRect>)
    requires
        layout::is_split(whole, true, layout::editor_limits(), parts),
        whole.x + whole.width <= u16::MAX,
        whole.y + whole.height <= u16::MAX,
        whole.height >= 15,
    ensures
        parts.len() == 2,
        parts[0].x == whole.x && parts[0].y == whole.y && parts[0].width == whole.width,
        parts[1].x == whole.x && parts[1].y == whole.y + parts[0].height && parts[1].width
            == whole.width && parts[1].height == 7,
        parts[0].height + 7 == whole.height,
{
    let limits = layout::editor_limits();
    let size = whole.height as int;
    assert(limits.len() == 2);
    reveal_with_fuel(layout::needed, 3);
    assert(layout::needed(limits, 2) == 15);
    assert(layout::has_room(limits, size));
    assert(layout::grows_alone(limits, 0));
    assert(layout::is_part(whole, true, parts[0]));
    assert(layout::is_part(whole, true, parts[1]));
    assert(layout::adjoins(whole, true, parts, 0) && layout::keeps_to(
        limits,
        0,
        size,
        layout::extent(parts[0], true),
    ));
    assert(layout::adjoins(whole, true, parts, 1) && layout::keeps_to(
        limits,
        1,
        size,
        layout::extent(parts[1], true),
    ));
}

} // verus!
