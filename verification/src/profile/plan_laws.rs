//! What a plan says of the layout that it asks for.
use vstd::prelude::*;

use crate::double;
use crate::double_bounds;
use crate::hyprland::monitor::MonitorView;
use crate::number;
use crate::profile::layout_laws;
use crate::profile::matching::MonitorMatchMode;
use crate::profile::modes;
use crate::profile::plan;
use crate::profile::plan::{PlanView, RectView, WarningView};
use crate::profile::render;
use crate::profile::render::RuleView;
use crate::profile::store::{ProfileOutputView, ProfileView};
use crate::profile::store_laws;
use crate::profile::validation;
use crate::text;

verus! {

// ---------------------------------------------------------------------------
// Parts of the desktop
// ---------------------------------------------------------------------------
/// A part of the desktop that an output can cover.
pub open spec fn has_extent(rect: RectView) -> bool {
    &&& i32::MIN <= rect.x <= i32::MAX
    &&& i32::MIN <= rect.y <= i32::MAX
    &&& 1 <= rect.width <= i32::MAX
    &&& 1 <= rect.height <= i32::MAX
    &&& validation::MIN_SCALE <= rect.scale <= validation::MAX_SCALE
}

/// `rect` with its columns for rows and its rows for columns.
pub open spec fn transposed(rect: RectView) -> RectView {
    RectView { x: rect.y, y: rect.x, width: rect.height, height: rect.width, scale: rect.scale }
}

/// Whether two parts of the desktop overlap does not depend on which is asked first,
/// and rows count as columns do.
pub proof fn law_overlap_is_even_handed(left: RectView, right: RectView)
    ensures
        plan::overlap(left, right) == plan::overlap(right, left),
        plan::overlap(left, right) == plan::overlap(transposed(left), transposed(right)),
{
}

/// Where one of two parts of the desktop ends at least a thousandth of a pixel before
/// the column or the row at which the other begins, they do not overlap. Where each
/// ends at least as much behind both the column and the row at which the other begins,
/// they do. A part ends where it begins and as much behind as its pixels are over its
/// scale.
pub proof fn law_overlap_goes_by_columns_and_rows(left: RectView, right: RectView)
    requires
        has_extent(left),
        has_extent(right),
    ensures
        ends_before(left.x, left.width, left.scale, right.x) ==> !plan::overlap(left, right),
        ends_before(left.y, left.height, left.scale, right.y) ==> !plan::overlap(left, right),
        ends_before(right.x, right.width, right.scale, left.x) ==> !plan::overlap(left, right),
        ends_before(right.y, right.height, right.scale, left.y) ==> !plan::overlap(left, right),
        reaches_behind(left.x, left.width, left.scale, right.x) && reaches_behind(
            left.y,
            left.height,
            left.scale,
            right.y,
        ) && reaches_behind(right.x, right.width, right.scale, left.x) && reaches_behind(
            right.y,
            right.height,
            right.scale,
            left.y,
        ) ==> plan::overlap(left, right),
{
    double_bounds::lemma_end_error(left.x, left.width as nat, left.scale, right.x);
    double_bounds::lemma_end_error(left.y, left.height as nat, left.scale, right.y);
    double_bounds::lemma_end_error(right.x, right.width as nat, right.scale, left.x);
    double_bounds::lemma_end_error(right.y, right.height as nat, right.scale, left.y);
}

/// `start + size / scale + 1 / 1000 <= x`, the scale in units.
pub open spec fn ends_before(start: int, size: int, scale: int, x: int) -> bool {
    1000 * (start * scale + size * number::UNITS_PER_ONE) + scale <= 1000 * (x * scale)
}

/// `start + size / scale >= x + 1 / 1000`, the scale in units.
pub open spec fn reaches_behind(start: int, size: int, scale: int, x: int) -> bool {
    1000 * (start * scale + size * number::UNITS_PER_ONE) >= 1000 * (x * scale) + scale
}

/// The point lies in `rect`, where its sides are so long.
pub open spec fn lies_in(rect: RectView, width: int, height: int, x: int, y: int) -> bool {
    rect.x <= x < rect.x + width && rect.y <= y < rect.y + height
}

/// Where scales are held exactly and sides are whole numbers of logical pixels, two
/// parts of the desktop overlap exactly where some pixel lies in both: outputs that
/// stand side by side, or one above the other, and touch do not overlap.
pub proof fn law_overlap_is_a_common_pixel(
    left: RectView,
    right: RectView,
    left_width: int,
    left_height: int,
    right_width: int,
    right_height: int,
)
    requires
        has_extent(left),
        has_extent(right),
        double_bounds::held_exactly(left.scale),
        double_bounds::held_exactly(right.scale),
        left.width * number::UNITS_PER_ONE == left_width * left.scale,
        left.height * number::UNITS_PER_ONE == left_height * left.scale,
        right.width * number::UNITS_PER_ONE == right_width * right.scale,
        right.height * number::UNITS_PER_ONE == right_height * right.scale,
    ensures
        plan::overlap(left, right) <==> exists|x: int, y: int|
            #![trigger lies_in(left, left_width, left_height, x, y)]
            lies_in(left, left_width, left_height, x, y) && lies_in(
                right,
                right_width,
                right_height,
                x,
                y,
            ),
{
    lemma_whole_side(left.x, left.width, left.scale, left_width);
    lemma_whole_side(left.y, left.height, left.scale, left_height);
    lemma_whole_side(right.x, right.width, right.scale, right_width);
    lemma_whole_side(right.y, right.height, right.scale, right_height);
    double::lemma_one();
    let o = double::one() as int;
    lemma_times(left.x + left_width, right.x, o);
    lemma_times(left.y + left_height, right.y, o);
    lemma_times(right.x + right_width, left.x, o);
    lemma_times(right.y + right_height, left.y, o);
    if plan::overlap(left, right) {
        let x = if left.x >= right.x {
            left.x
        } else {
            right.x
        };
        let y = if left.y >= right.y {
            left.y
        } else {
            right.y
        };
        assert(lies_in(left, left_width, left_height, x, y));
    }
}

proof fn lemma_times(a: int, b: int, o: int)
    requires
        o >= 1,
    ensures
        a * o > b * o <==> a > b,
{
    assert(a * o > b * o <==> a > b) by (nonlinear_arith)
        requires
            o >= 1,
    ;
}

proof fn lemma_whole_side(start: int, size: int, scale: int, length: int)
    requires
        i32::MIN <= start <= i32::MAX,
        1 <= size <= i32::MAX,
        validation::MIN_SCALE <= scale <= validation::MAX_SCALE,
        double_bounds::held_exactly(scale),
        size * number::UNITS_PER_ONE == length * scale,
    ensures
        double::ends_at(start, size as nat, scale) == (start + length) * double::one(),
        1 <= length <= 10 * size,
{
    assert(length >= 1) by (nonlinear_arith)
        requires
            size * number::UNITS_PER_ONE == length * scale,
            size >= 1,
            scale >= 1,
    ;
    assert(length <= 10 * size) by (nonlinear_arith)
        requires
            size * number::UNITS_PER_ONE == length * scale,
            number::UNITS_PER_ONE <= 10 * scale,
            scale >= 1,
            size >= 1,
    ;
    double_bounds::lemma_exact_end(start, size as nat, scale, length as nat);
}

/// An output covers the desktop from its own place on, at its own scale; its width and
/// height are those of its mode, and are exchanged exactly where its turn is an odd one.
pub proof fn law_odd_turns_exchange_the_sides(
    output: ProfileOutputView,
    current: Seq<MonitorView>,
    mappings: Seq<RuleView>,
    width: int,
    height: int,
)
    requires
        plan::output_size(output, current, mappings) == Some((width, height)),
        0 <= output.transform <= 7,
    ensures
        width > 0 && height > 0 && output.scale > 0 <==> plan::covered(
            output,
            current,
            mappings,
        ) is Some,
        plan::covered(output, current, mappings) matches Some(rect) ==> {
            &&& rect.x == output.x
            &&& rect.y == output.y
            &&& rect.scale == output.scale
            &&& output.transform % 2 == 0 ==> rect.width == width && rect.height == height
            &&& output.transform % 2 == 1 ==> rect.width == height && rect.height == width
        },
{
}

/// Outputs that are not scaled overlap exactly where some pixel of the desktop lies in
/// both: beside one another and above one another they do not.
pub proof fn law_unscaled_outputs_overlap_in_a_pixel(left: RectView, right: RectView)
    requires
        has_extent(left),
        has_extent(right),
        left.scale == number::UNITS_PER_ONE,
        right.scale == number::UNITS_PER_ONE,
    ensures
        plan::overlap(left, right) <==> exists|x: int, y: int|
            #![trigger lies_in(left, left.width, left.height, x, y)]
            lies_in(left, left.width, left.height, x, y) && lies_in(
                right,
                right.width,
                right.height,
                x,
                y,
            ),
        left.x + left.width <= right.x ==> !plan::overlap(left, right),
        left.y + left.height <= right.y ==> !plan::overlap(left, right),
{
    double_bounds::lemma_one_is_held_exactly();
    law_overlap_is_a_common_pixel(
        left,
        right,
        left.width,
        left.height,
        right.width,
        right.height,
    );
    if plan::overlap(left, right) {
        let (x, y) = choose|x: int, y: int|
            #![trigger lies_in(left, left.width, left.height, x, y)]
            lies_in(left, left.width, left.height, x, y) && lies_in(
                right,
                right.width,
                right.height,
                x,
                y,
            );
        assert(lies_in(left, left.width, left.height, x, y));
    }
}

// ---------------------------------------------------------------------------
// Sizes
// ---------------------------------------------------------------------------
/// Where the mode of an output does not spell out a size, the output has the size that
/// its mode has on the monitor that it is set on.
pub proof fn law_sizes_are_those_of_the_monitor(
    output: ProfileOutputView,
    current: Seq<MonitorView>,
    mappings: Seq<RuleView>,
    width: int,
    height: int,
    k: int,
    j: int,
)
    requires
        plan::spelled_size(output.mode) is None,
        0 <= k < mappings.len(),
        mappings[k].monitor_id == output.monitor_id,
        forall|i: int| 0 <= i < k ==> (#[trigger] mappings[i]).monitor_id != output.monitor_id,
        forall|a: int, b: int|
            0 <= a < b < current.len() ==> (#[trigger] current[a]).output_name != (
            #[trigger] current[b]).output_name,
        0 <= j < current.len(),
        current[j].output_name == mappings[k].output_name,
        modes::dimensions_of(output.mode, current[j]) == Ok::<(int, int), Seq<char>>(
            (width, height),
        ),
    ensures
        plan::output_size(output, current, mappings) == Some((width, height)),
{
    lemma_mapping_for(mappings, output.monitor_id, k);
    layout_laws::lemma_monitor_on(current, j);
}

proof fn lemma_mapping_for(mappings: Seq<RuleView>, id: Seq<char>, k: int)
    requires
        0 <= k < mappings.len(),
        mappings[k].monitor_id == id,
        forall|i: int| 0 <= i < k ==> (#[trigger] mappings[i]).monitor_id != id,
    ensures
        plan::mapping_for(mappings, id) == Some(mappings[k]),
    decreases k,
{
    if k > 0 {
        assert(mappings[0].monitor_id != id);
        let rest = mappings.drop_first();
        assert forall|i: int| 0 <= i < k - 1 implies (#[trigger] rest[i]).monitor_id != id by {
            assert(rest[i] == mappings[i + 1]);
        }
        assert(rest[k - 1] == mappings[k]);
        lemma_mapping_for(rest, id, k - 1);
    }
}

/// A mode that spells out a size has that size, whatever rate follows.
pub proof fn law_spelled_sizes_are_read(width: int, height: int, rate: Seq<char>)
    requires
        i32::MIN <= width <= i32::MAX,
        i32::MIN <= height <= i32::MAX,
    ensures
        plan::spelled_size(
            text::int_text(width) + "x"@ + text::int_text(height) + "@"@ + rate,
        ) == Some((width, height)),
        plan::spelled_size(text::int_text(width) + "x"@ + text::int_text(height)) == Some(
            (width, height),
        ),
{
    reveal_strlit("x");
    reveal_strlit("@");
    let w = text::int_text(width);
    let h = text::int_text(height);
    number::law_written_integers_read_back(width);
    number::law_written_integers_read_back(height);
    assert("x"@ =~= seq!['x']);
    assert("@"@ =~= seq!['@']);
    let size = w + "x"@ + h;
    assert forall|i: int| 0 <= i < w.len() implies w[i] != 'x' && w[i] != '@' by {
        assert(text::digit(w[i]) || w[i] == '-');
    }
    assert forall|i: int| 0 <= i < h.len() implies h[i] != '@' by {
        assert(text::digit(h[i]) || h[i] == '-');
    }
    assert forall|i: int| 0 <= i < size.len() implies size[i] != '@' by {
        if i < w.len() {
            assert(size[i] == w[i]);
        } else if i > w.len() {
            assert(size[i] == h[i - w.len() - 1]);
        }
    }
    text::law_split_at_first(w, 'x', h);
    text::law_split_at_first(size, '@', rate);
    assert(size =~= w + seq!['x'] + h);
    assert(w + "x"@ + h + "@"@ + rate =~= size + seq!['@'] + rate);
    text::lemma_first_of(size, '@');
}

// ---------------------------------------------------------------------------
// Warnings
// ---------------------------------------------------------------------------
/// The outputs at `i` and `j` are on and overlap, and are for `left` and `right`.
pub open spec fn overlap_at(
    profile: ProfileView,
    current: Seq<MonitorView>,
    mappings: Seq<RuleView>,
    left: Seq<char>,
    right: Seq<char>,
    i: int,
    j: int,
) -> bool {
    &&& 0 <= i < j < profile.outputs.len()
    &&& profile.outputs[i].enabled
    &&& profile.outputs[j].enabled
    &&& profile.outputs[i].monitor_id == left
    &&& profile.outputs[j].monitor_id == right
    &&& plan::outputs_overlap(profile.outputs[i], profile.outputs[j], current, mappings)
}

/// Two outputs that are on, in the order of those that are, stand in that order.
proof fn lemma_kept_pair(outputs: Seq<ProfileOutputView>, n: int, a: int, b: int) -> (at: (int, int))
    requires
        0 <= n <= outputs.len(),
        0 <= a < b < render::outputs_that(outputs, true, n).len(),
    ensures
        0 <= at.0 < at.1 < n,
        outputs[at.0] == render::outputs_that(outputs, true, n)[a],
        outputs[at.1] == render::outputs_that(outputs, true, n)[b],
        outputs[at.0].enabled,
        outputs[at.1].enabled,
    decreases n,
{
    let before = render::outputs_that(outputs, true, n - 1);
    if b < before.len() {
        lemma_kept_pair(outputs, n - 1, a, b)
    } else {
        (lemma_kept(outputs, n - 1, a), n - 1)
    }
}

proof fn lemma_kept(outputs: Seq<ProfileOutputView>, n: int, a: int) -> (at: int)
    requires
        0 <= n <= outputs.len(),
        0 <= a < render::outputs_that(outputs, true, n).len(),
    ensures
        0 <= at < n,
        outputs[at] == render::outputs_that(outputs, true, n)[a],
        outputs[at].enabled,
    decreases n,
{
    if a < render::outputs_that(outputs, true, n - 1).len() {
        lemma_kept(outputs, n - 1, a)
    } else {
        n - 1
    }
}

/// Where an output that is on stands among those that are.
proof fn lemma_kept_at(outputs: Seq<ProfileOutputView>, n: int, i: int) -> (a: int)
    requires
        0 <= i < n <= outputs.len(),
        outputs[i].enabled,
    ensures
        0 <= a < render::outputs_that(outputs, true, n).len(),
        render::outputs_that(outputs, true, n)[a] == outputs[i],
        i == n - 1 ==> a == render::outputs_that(outputs, true, n).len() - 1,
        i < n - 1 ==> a < render::outputs_that(outputs, true, n - 1).len(),
    decreases n,
{
    if i == n - 1 {
        render::outputs_that(outputs, true, n - 1).len() as int
    } else {
        lemma_kept_at(outputs, n - 1, i)
    }
}

proof fn lemma_pair_kept_at(outputs: Seq<ProfileOutputView>, n: int, i: int, j: int) -> (at: (
    int,
    int,
))
    requires
        0 <= i < j < n <= outputs.len(),
        outputs[i].enabled,
        outputs[j].enabled,
    ensures
        0 <= at.0 < at.1 < render::outputs_that(outputs, true, n).len(),
        render::outputs_that(outputs, true, n)[at.0] == outputs[i],
        render::outputs_that(outputs, true, n)[at.1] == outputs[j],
    decreases n,
{
    if j == n - 1 {
        (lemma_kept_at(outputs, n - 1, i), render::outputs_that(outputs, true, n - 1).len() as int)
    } else {
        lemma_pair_kept_at(outputs, n - 1, i, j)
    }
}

/// The warning that the outputs at `i` and `j` overlap.
spec fn warning_at(outputs: Seq<ProfileOutputView>, i: int, j: int) -> WarningView {
    WarningView::OverlappingOutputs { left: outputs[i].monitor_id, right: outputs[j].monitor_id }
}

proof fn lemma_found_overlap(
    outputs: Seq<ProfileOutputView>,
    current: Seq<MonitorView>,
    mappings: Seq<RuleView>,
    i: int,
    n: int,
    k: int,
) -> (j: int)
    requires
        0 <= i,
        n <= outputs.len(),
        0 <= k < plan::overlaps_with(outputs, current, mappings, i, n).len(),
    ensures
        i < j < n,
        plan::outputs_overlap(outputs[i], outputs[j], current, mappings),
        plan::overlaps_with(outputs, current, mappings, i, n)[k] == warning_at(outputs, i, j),
    decreases n - i,
{
    if k < plan::overlaps_with(outputs, current, mappings, i, n - 1).len() {
        lemma_found_overlap(outputs, current, mappings, i, n - 1, k)
    } else {
        n - 1
    }
}

proof fn lemma_overlap_found(
    outputs: Seq<ProfileOutputView>,
    current: Seq<MonitorView>,
    mappings: Seq<RuleView>,
    i: int,
    n: int,
    j: int,
) -> (k: int)
    requires
        0 <= i < j < n <= outputs.len(),
        plan::outputs_overlap(outputs[i], outputs[j], current, mappings),
    ensures
        0 <= k < plan::overlaps_with(outputs, current, mappings, i, n).len(),
        plan::overlaps_with(outputs, current, mappings, i, n)[k] == warning_at(outputs, i, j),
    decreases n - i,
{
    if j == n - 1 {
        plan::overlaps_with(outputs, current, mappings, i, n - 1).len() as int
    } else {
        lemma_overlap_found(outputs, current, mappings, i, n - 1, j)
    }
}

proof fn lemma_found_any_overlap(
    outputs: Seq<ProfileOutputView>,
    current: Seq<MonitorView>,
    mappings: Seq<RuleView>,
    n: int,
    k: int,
) -> (at: (int, int))
    requires
        0 <= n <= outputs.len(),
        0 <= k < plan::all_overlaps(outputs, current, mappings, n).len(),
    ensures
        0 <= at.0 < n,
        at.0 < at.1 < outputs.len(),
        plan::outputs_overlap(outputs[at.0], outputs[at.1], current, mappings),
        plan::all_overlaps(outputs, current, mappings, n)[k] == warning_at(outputs, at.0, at.1),
    decreases n,
{
    let earlier = plan::all_overlaps(outputs, current, mappings, n - 1);
    if k < earlier.len() {
        lemma_found_any_overlap(outputs, current, mappings, n - 1, k)
    } else {
        let j = lemma_found_overlap(
            outputs,
            current,
            mappings,
            n - 1,
            outputs.len() as int,
            k - earlier.len(),
        );
        (n - 1, j)
    }
}

proof fn lemma_any_overlap_found(
    outputs: Seq<ProfileOutputView>,
    current: Seq<MonitorView>,
    mappings: Seq<RuleView>,
    n: int,
    i: int,
    j: int,
) -> (k: int)
    requires
        0 <= i < n <= outputs.len(),
        i < j < outputs.len(),
        plan::outputs_overlap(outputs[i], outputs[j], current, mappings),
    ensures
        0 <= k < plan::all_overlaps(outputs, current, mappings, n).len(),
        plan::all_overlaps(outputs, current, mappings, n)[k] == warning_at(outputs, i, j),
    decreases n,
{
    let earlier = plan::all_overlaps(outputs, current, mappings, n - 1);
    if i < n - 1 {
        lemma_any_overlap_found(outputs, current, mappings, n - 1, i, j)
    } else {
        let k = lemma_overlap_found(outputs, current, mappings, i, outputs.len() as int, j);
        earlier.len() + k
    }
}

/// A plan warns of an overlap exactly where two outputs that the profile switches on
/// overlap, and names their monitors; and it warns that all goes dark exactly where the
/// profile switches no output on.
pub proof fn law_warnings_are_due(
    profile: ProfileView,
    current: Seq<MonitorView>,
    mode: MonitorMatchMode,
    planned: PlanView,
    left: Seq<char>,
    right: Seq<char>,
)
    requires
        plan::is_plan(Ok(planned), profile, current, mode),
    ensures
        planned.warnings.contains(WarningView::OverlappingOutputs { left, right }) <==> exists|
            i: int,
            j: int,
        | #[trigger]
            overlap_at(profile, current, planned.mappings, left, right, i, j),
        planned.warnings.contains(WarningView::DisablesAllOutputs) <==> forall|i: int|
            0 <= i < profile.outputs.len() ==> !(#[trigger] profile.outputs[i]).enabled,
{
    let outputs = profile.outputs;
    let size = outputs.len() as int;
    let on = render::outputs_that(outputs, true, size);
    let mappings = planned.mappings;
    let warning = WarningView::OverlappingOutputs { left, right };
    let overlaps = plan::all_overlaps(on, current, mappings, on.len() as int);
    let dark: Seq<WarningView> = if on.len() == 0 {
        seq![WarningView::DisablesAllOutputs]
    } else {
        seq![]
    };
    assert(planned.warnings == dark + overlaps);
    if planned.warnings.contains(warning) {
        let k = choose|k: int| 0 <= k < planned.warnings.len() && planned.warnings[k] == warning;
        let (a, b) = lemma_found_any_overlap(
            on,
            current,
            mappings,
            on.len() as int,
            k - dark.len(),
        );
        let (i, j) = lemma_kept_pair(outputs, size, a, b);
        assert(overlap_at(profile, current, mappings, left, right, i, j));
    }
    if exists|i: int, j: int| #[trigger]
        overlap_at(profile, current, mappings, left, right, i, j) {
        let (i, j) = choose|i: int, j: int| #[trigger]
            overlap_at(profile, current, mappings, left, right, i, j);
        let (a, b) = lemma_pair_kept_at(outputs, size, i, j);
        let k = lemma_any_overlap_found(on, current, mappings, on.len() as int, a, b);
        assert(planned.warnings[dark.len() + k] == warning);
    }
    if planned.warnings.contains(WarningView::DisablesAllOutputs) {
        let k = choose|k: int|
            0 <= k < planned.warnings.len() && planned.warnings[k]
                == WarningView::DisablesAllOutputs;
        if on.len() > 0 {
            let at = lemma_found_any_overlap(on, current, mappings, on.len() as int, k);
            assert(false);
        }
        assert forall|i: int| 0 <= i < outputs.len() implies !(#[trigger] outputs[i]).enabled by {
            if outputs[i].enabled {
                let a = lemma_kept_at(outputs, size, i);
            }
        }
    }
    if forall|i: int| 0 <= i < outputs.len() ==> !(#[trigger] outputs[i]).enabled {
        if on.len() > 0 {
            let i = lemma_kept(outputs, size, 0);
        }
        assert(planned.warnings[0] == WarningView::DisablesAllOutputs);
    }
}

/// Two outputs of a profile, one of which ends at least a thousandth of a pixel before
/// the row or the column at which the other begins, are not warned about, whichever of
/// the two comes first: in particular not two that stand one above the other or side
/// by side with a gap between them.
pub proof fn law_outputs_apart_are_not_warned_about(
    profile: ProfileView,
    current: Seq<MonitorView>,
    mode: MonitorMatchMode,
    planned: PlanView,
    i: int,
    j: int,
    width: int,
    height: int,
)
    requires
        plan::is_plan(Ok(planned), profile, current, mode),
        0 <= i < profile.outputs.len(),
        0 <= j < profile.outputs.len(),
        i != j,
        plan::output_size(profile.outputs[i], current, planned.mappings) == Some((width, height)),
        width <= i32::MAX && height <= i32::MAX,
        ({
            let first = profile.outputs[i];
            let second = profile.outputs[j];
            let upright = first.transform % 2 == 0;
            let wide = if upright {
                width
            } else {
                height
            };
            let high = if upright {
                height
            } else {
                width
            };
            ends_before(first.y as int, high, first.scale, second.y as int) || ends_before(
                first.x as int,
                wide,
                first.scale,
                second.x as int,
            )
        }),
    ensures
        !planned.warnings.contains(
            WarningView::OverlappingOutputs {
                left: profile.outputs[i].monitor_id,
                right: profile.outputs[j].monitor_id,
            },
        ),
        !planned.warnings.contains(
            WarningView::OverlappingOutputs {
                left: profile.outputs[j].monitor_id,
                right: profile.outputs[i].monitor_id,
            },
        ),
{
    let outputs = profile.outputs;
    let mappings = planned.mappings;
    let first = outputs[i].monitor_id;
    let second = outputs[j].monitor_id;
    store_laws::law_accepted_profiles_are_valid(profile);
    law_warnings_are_due(profile, current, mode, planned, first, second);
    law_warnings_are_due(profile, current, mode, planned, second, first);
    assert(store_laws::valid_output(outputs[i], profile.monitors));
    law_odd_turns_exchange_the_sides(outputs[i], current, mappings, width, height);
    let ids = validation::output_ids(outputs);
    assert forall|k: int, l: int|
        0 <= k < outputs.len() && 0 <= l < outputs.len() && k != l implies (
    #[trigger] outputs[k]).monitor_id != (#[trigger] outputs[l]).monitor_id by {
        assert(ids[k] == outputs[k].monitor_id && ids[l] == outputs[l].monitor_id);
    }
    if let (Some(l), Some(r)) = (
        plan::covered(outputs[i], current, mappings),
        plan::covered(outputs[j], current, mappings),
    ) {
        double_bounds::lemma_end_error(l.x, l.width as nat, l.scale, r.x);
        double_bounds::lemma_end_error(l.y, l.height as nat, l.scale, r.y);
    }
    assert(!plan::outputs_overlap(outputs[i], outputs[j], current, mappings));
    assert(!plan::outputs_overlap(outputs[j], outputs[i], current, mappings));
}

/// The part of the desktop that an output of `width` by `height` pixels covers, unscaled:
/// as wide as its mode, or as high where it is turned on its side.
pub open spec fn unscaled(output: ProfileOutputView, width: int, height: int) -> RectView {
    RectView {
        x: output.x as int,
        y: output.y as int,
        width: if output.transform % 2 == 0 {
            width
        } else {
            height
        },
        height: if output.transform % 2 == 0 {
            height
        } else {
            width
        },
        scale: number::UNITS_PER_ONE as int,
    }
}

/// Two outputs that are on and not scaled are warned about exactly where some pixel of the
/// desktop lies in both. Those that stand beside one another or above one another, and
/// touch, are not.
pub proof fn law_unscaled_outputs_are_warned_about_for_a_pixel(
    profile: ProfileView,
    current: Seq<MonitorView>,
    mode: MonitorMatchMode,
    planned: PlanView,
    i: int,
    j: int,
    first: (int, int),
    second: (int, int),
)
    requires
        plan::is_plan(Ok(planned), profile, current, mode),
        0 <= i < j < profile.outputs.len(),
        profile.outputs[i].enabled,
        profile.outputs[j].enabled,
        profile.outputs[i].scale == number::UNITS_PER_ONE,
        profile.outputs[j].scale == number::UNITS_PER_ONE,
        plan::output_size(profile.outputs[i], current, planned.mappings) == Some(first),
        plan::output_size(profile.outputs[j], current, planned.mappings) == Some(second),
        1 <= first.0 <= i32::MAX && 1 <= first.1 <= i32::MAX,
        1 <= second.0 <= i32::MAX && 1 <= second.1 <= i32::MAX,
    ensures
        ({
            let l = unscaled(profile.outputs[i], first.0, first.1);
            let r = unscaled(profile.outputs[j], second.0, second.1);
            let warned = planned.warnings.contains(
                WarningView::OverlappingOutputs {
                    left: profile.outputs[i].monitor_id,
                    right: profile.outputs[j].monitor_id,
                },
            );
            &&& warned <==> exists|x: int, y: int|
                #![trigger lies_in(l, l.width, l.height, x, y)]
                lies_in(l, l.width, l.height, x, y) && lies_in(r, r.width, r.height, x, y)
            &&& l.x + l.width <= r.x || r.x + r.width <= l.x || l.y + l.height <= r.y || r.y
                + r.height <= l.y ==> !warned
        }),
{
    let outputs = profile.outputs;
    let mappings = planned.mappings;
    let l = unscaled(outputs[i], first.0, first.1);
    let r = unscaled(outputs[j], second.0, second.1);
    let left = outputs[i].monitor_id;
    let right = outputs[j].monitor_id;
    store_laws::law_accepted_profiles_are_valid(profile);
    law_warnings_are_due(profile, current, mode, planned, left, right);
    assert(store_laws::valid_output(outputs[i], profile.monitors));
    assert(store_laws::valid_output(outputs[j], profile.monitors));
    law_odd_turns_exchange_the_sides(outputs[i], current, mappings, first.0, first.1);
    law_odd_turns_exchange_the_sides(outputs[j], current, mappings, second.0, second.1);
    assert(plan::covered(outputs[i], current, mappings) == Some(l));
    assert(plan::covered(outputs[j], current, mappings) == Some(r));
    let ids = validation::output_ids(outputs);
    assert forall|k: int, m: int|
        0 <= k < outputs.len() && 0 <= m < outputs.len() && k != m implies (
    #[trigger] outputs[k]).monitor_id != (#[trigger] outputs[m]).monitor_id by {
        assert(ids[k] == outputs[k].monitor_id && ids[m] == outputs[m].monitor_id);
    }
    law_unscaled_outputs_overlap_in_a_pixel(l, r);
    law_unscaled_outputs_overlap_in_a_pixel(r, l);
    law_overlap_is_even_handed(l, r);
    if plan::overlap(l, r) {
        assert(overlap_at(profile, current, mappings, left, right, i, j));
    }
}

} // verus!
