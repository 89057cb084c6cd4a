//! What the editor shows.
use vstd::prelude::*;

use crate::config::{ConfigView, PathsView};
use crate::hyprland::monitor::MonitorView;
use crate::number;
use crate::profile::matching::DecisionView;
use crate::profile::plan::PlanView;
use crate::profile::store;
use crate::profile::store::{ProfileOutputView, ProfileView};
use crate::text;
use crate::tui::geometry::CanvasView;
use crate::tui::model;
use crate::tui::model::{MonitorRowView, TuiModelView};
use crate::tui::steps::AppView;
use crate::tui::view;

verus! {

// ---------------------------------------------------------------------------
// Rows
// ---------------------------------------------------------------------------
/// There is a row for every output of the draft, and it shows the place, the scale, the
/// turn and whether the output is on; the row of the selected output is marked, and no
/// other.
pub proof fn law_rows_show_the_draft(
    app: AppView,
    planned: Result<PlanView, Seq<char>>,
    i: int,
)
    requires
        0 <= i < app.draft.outputs.len() <= usize::MAX,
    ensures
        ({
            let shown = model::model_of(app, planned);
            let row = shown.monitors[i];
            let output = app.draft.outputs[i];
            &&& shown.monitors.len() == app.draft.outputs.len()
            &&& row.position == text::int_text(output.x as int) + "x"@ + text::int_text(
                output.y as int,
            )
            &&& row.scale == output.scale
            &&& row.transform == output.transform
            &&& row.enabled == output.enabled
            &&& row.selected <==> app.selected_monitor == Some(i as usize)
            &&& (forall|k: int|
                0 <= k < output.mode.len() ==> text::printable(#[trigger] output.mode[k], false))
                ==> row.mode == output.mode
            &&& (forall|k: int|
                0 <= k < output.monitor_id.len() ==> text::printable(
                    #[trigger] output.monitor_id[k],
                    false,
                )) ==> row.id == output.monitor_id
        }),
{
    let output = app.draft.outputs[i];
    if forall|k: int|
        0 <= k < output.mode.len() ==> text::printable(#[trigger] output.mode[k], false) {
        text::law_sanitizing_keeps_printable_text(output.mode, false);
    }
    if forall|k: int|
        0 <= k < output.monitor_id.len() ==> text::printable(
            #[trigger] output.monitor_id[k],
            false,
        ) {
        text::law_sanitizing_keeps_printable_text(output.monitor_id, false);
    }
}

/// Every saved profile and every connected monitor has a row, which shows how many
/// monitors the profile knows and whether the monitor is on; the row of the profile that
/// is edited is marked. The plan that is shown is the one of the draft.
pub proof fn law_rows_show_what_there_is(
    app: AppView,
    planned: Result<PlanView, Seq<char>>,
    p: int,
    m: int,
)
    requires
        0 <= p < app.store.len() <= usize::MAX,
        0 <= m < app.monitors.len(),
    ensures
        ({
            let shown = model::model_of(app, planned);
            &&& shown.profiles.len() == app.store.len()
            &&& shown.profiles[p].monitor_count == app.store[p].monitors.len()
            &&& shown.profiles[p].selected <==> app.selected_profile == Some(p as usize)
            &&& shown.current_monitors.len() == app.monitors.len()
            &&& shown.current_monitors[m].enabled == app.monitors[m].enabled
            &&& shown.current_monitor_states == app.monitors
            &&& shown.dirty == app.dirty
            &&& shown.mode == app.mode
            &&& shown.apply_plan is Some <==> planned is Ok
            &&& planned matches Ok(plan) ==> shown.apply_plan == Some(plan)
        }),
{
}

/// What is drawn of a row is drawn where the output of the draft is: the row tells its
/// place, its scale, its turn and whether it is on.
pub proof fn law_rows_stand_for_their_outputs(
    profile: ProfileView,
    output: ProfileOutputView,
    selected: bool,
)
    ensures
        ({
            let drawn = view::output_of(model::monitor_row(profile, output, selected));
            &&& drawn.x == output.x
            &&& drawn.y == output.y
            &&& drawn.scale == output.scale
            &&& drawn.transform == output.transform
            &&& drawn.enabled == output.enabled
        }),
{
    let x = text::int_text(output.x as int);
    let y = text::int_text(output.y as int);
    reveal_strlit("x");
    assert("x"@ =~= seq!['x']);
    number::law_written_integers_read_back(output.x as int);
    number::law_written_integers_read_back(output.y as int);
    assert(!x.contains('x')) by {
        if x.contains('x') {
            let k = choose|k: int| 0 <= k < x.len() && x[k] == 'x';
            assert(text::digit(x[k]) || x[k] == '-');
        }
    }
    text::law_split_at_first(x, 'x', y);
}

// ---------------------------------------------------------------------------
// Drawings
// ---------------------------------------------------------------------------
/// What is drawn are rows that are somewhere, each in its cells; a label that is longer
/// than its box is cut.
pub proof fn law_boxes_are_those_of_rows(
    shown: TuiModelView,
    canvas: CanvasView,
    n: int,
    b: int,
) -> (i: int)
    requires
        0 <= n <= shown.monitors.len(),
        0 <= b < view::boxes_of(shown, canvas, n).len(),
    ensures
        0 <= i < n,
        ({
            let drawn = view::boxes_of(shown, canvas, n)[b];
            &&& view::box_of(shown, canvas, i) == Some(drawn)
            &&& shown.monitors[i].enabled
            &&& drawn.selected == shown.monitors[i].selected
            &&& drawn.cells.width > 0 && drawn.cells.height > 0
            &&& drawn.label.len() <= drawn.cells.width
        }),
    decreases n,
{
    let before = view::boxes_of(shown, canvas, n - 1);
    if b < before.len() {
        law_boxes_are_those_of_rows(shown, canvas, n - 1, b)
    } else {
        n - 1
    }
}

/// A text that is cut keeps its beginning, and is not cut where there is room.
pub proof fn law_cut_texts_keep_their_beginning(value: Seq<char>, width: int)
    requires
        width >= 0,
    ensures
        view::cut(value, width).len() <= width,
        view::cut(value, width) == value.take(view::cut(value, width).len() as int),
        value.len() <= width ==> view::cut(value, width) == value,
        value.len() > width ==> view::cut(value, width).len() == width,
{
    assert(value.take(value.len() as int) =~= value);
}

/// The details that are shown are those of the first row that is marked: its name comes
/// first, and its identity behind.
pub proof fn law_marked_rows_are_shown_in_detail(rows: Seq<MonitorRowView>, i: int)
    requires
        0 <= i < rows.len(),
        rows[i].selected,
        forall|k: int| 0 <= k < i ==> !(#[trigger] rows[k]).selected,
    ensures
        text::begins(
            view::selected_details(rows),
            rows[i].output_name + "\nid: "@ + rows[i].id + "\nmode: "@ + rows[i].mode,
        ),
    decreases i,
{
    if i > 0 {
        assert(!rows[0].selected);
        let rest = rows.skip(1);
        assert forall|k: int| 0 <= k < i - 1 implies !(#[trigger] rest[k]).selected by {
            assert(rest[k] == rows[k + 1]);
        }
        assert(rest[i - 1] == rows[i]);
        law_marked_rows_are_shown_in_detail(rest, i - 1);
    } else {
        let part = rows[0].output_name + "\nid: "@ + rows[0].id + "\nmode: "@ + rows[0].mode;
        let all = view::output_details(rows[0]);
        assert(all.take(part.len() as int) =~= part);
    }
}

// ---------------------------------------------------------------------------
// Opening
// ---------------------------------------------------------------------------
/// The editor opens with the profile that would be applied, else with the first one, else
/// with the layout as it is, and without changes.
pub proof fn law_editor_opens_with_the_chosen_profile(
    profiles: Seq<ProfileView>,
    paths: PathsView,
    config: ConfigView,
    monitors: Seq<MonitorView>,
    decided: DecisionView,
    name: Seq<char>,
)
    requires
        profiles.len() <= usize::MAX,
    ensures
        ({
            let app = model::opening(profiles, paths, config, monitors, decided);
            &&& !app.dirty
            &&& app.mode is Normal
            &&& app.store == profiles
            &&& app.monitors == monitors
            &&& app.config == config
            &&& decided.profile_name() == Some(name) && (exists|i: int|
                0 <= i < profiles.len() && (#[trigger] profiles[i]).name == name) ==> app.draft.name
                == name && (app.selected_profile matches Some(k) && k < profiles.len()
                && profiles[k as int] == app.draft)
            &&& decided.profile_name() is None && profiles.len() > 0 ==> app.draft == profiles[0]
                && app.selected_profile == Some(0usize)
            &&& profiles.len() == 0 ==> app.selected_profile is None
        }),
{
    store::lemma_position_of(profiles, name);
    if let Some(found) = decided.profile_name() {
        store::lemma_position_of(profiles, found);
    }
}

} // verus!
