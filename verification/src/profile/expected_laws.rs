//! What a plan promises of the layout that it leads to.
use vstd::prelude::*;

use crate::hyprland::monitor::MonitorView;
use crate::number;
use crate::profile::layout_laws;
use crate::profile::matching::MonitorMatchMode;
use crate::profile::modes;
use crate::profile::plan;
use crate::profile::plan::{ExpectedView, PlanView};
use crate::profile::plan_laws;
use crate::profile::render;
use crate::profile::render::{RenderedView, RuleView};
use crate::profile::store::{ProfileOutputView, ProfileView};
use crate::profile::validation;
use crate::text;

verus! {

/// The commands and the way back that a plan is made of.
proof fn lemma_made_of(
    profile: ProfileView,
    current: Seq<MonitorView>,
    mode: MonitorMatchMode,
    planned: PlanView,
) -> (rendered: RenderedView)
    requires
        plan::is_plan(Ok(planned), profile, current, mode),
    ensures
        render::is_rendering(Ok(rendered), profile, current, mode),
        planned.mappings == rendered.mappings,
        planned.rules == rendered.rules,
        planned.batch == rendered.batch,
        planned.expected == plan::expected_layout(profile, current, planned.mappings, false),
        plan::scales_error(
            profile,
            current,
            planned.mappings,
            planned.mappings.len() as int,
        ) is None,
{
    let (rendered, way_back) = choose|
        rendered: Result<RenderedView, Seq<char>>,
        way_back: Result<plan::WayBack, Seq<char>>,
    |
        #![trigger plan::plan_with(profile, current, mode, rendered, way_back)]
        render::is_rendering(rendered, profile, current, mode) && plan::is_way_back(
            way_back,
            current,
        ) && Ok::<PlanView, Seq<char>>(planned) == plan::plan_with(
            profile,
            current,
            mode,
            rendered,
            way_back,
        );
    rendered->Ok_0
}

/// A monitor that a command sets for an output is expected on the connector of that
/// command, on or off, in the mode, in the place, with the scale and with the turn that
/// the output has.
pub proof fn law_set_outputs_are_expected_as_set(
    profile: ProfileView,
    current: Seq<MonitorView>,
    mode: MonitorMatchMode,
    planned: PlanView,
    k: int,
    i: int,
)
    requires
        plan::is_plan(Ok(planned), profile, current, mode),
        forall|i: int, j: int|
            0 <= i < j < profile.outputs.len() ==> (#[trigger] profile.outputs[i]).monitor_id != (
            #[trigger] profile.outputs[j]).monitor_id,
        0 <= k < planned.mappings.len(),
        0 <= i < profile.outputs.len(),
        planned.mappings[k].monitor_id == profile.outputs[i].monitor_id,
    ensures
        k < planned.expected.len(),
        planned.expected[k].output_name == planned.mappings[k].output_name,
        planned.expected[k].enabled == profile.outputs[i].enabled,
        planned.expected[k].mode == profile.outputs[i].mode,
        planned.expected[k].x == profile.outputs[i].x,
        planned.expected[k].y == profile.outputs[i].y,
        planned.expected[k].scale == profile.outputs[i].scale,
        planned.expected[k].transform == profile.outputs[i].transform,
{
    let rendered = lemma_made_of(profile, current, mode, planned);
    layout_laws::lemma_output_for(profile.outputs, i);
    assert(planned.expected[k] == plan::mapped_state(profile, current, planned.mappings[k], false));
}

proof fn lemma_no_output_for(outputs: Seq<ProfileOutputView>, id: Seq<char>)
    requires
        forall|i: int| 0 <= i < outputs.len() ==> (#[trigger] outputs[i]).monitor_id != id,
    ensures
        plan::output_for(outputs, id) is None,
    decreases outputs.len(),
{
    if outputs.len() > 0 {
        let rest = outputs.drop_first();
        assert forall|i: int| 0 <= i < rest.len() implies (#[trigger] rest[i]).monitor_id != id by {
            assert(rest[i] == outputs[i + 1]);
        }
        lemma_no_output_for(rest, id);
    }
}

/// A monitor that the profile has no output for, and that a command names, is expected to
/// be off.
pub proof fn law_other_monitors_are_expected_off(
    profile: ProfileView,
    current: Seq<MonitorView>,
    mode: MonitorMatchMode,
    planned: PlanView,
    k: int,
)
    requires
        plan::is_plan(Ok(planned), profile, current, mode),
        0 <= k < planned.mappings.len(),
        forall|i: int|
            0 <= i < profile.outputs.len() ==> (#[trigger] profile.outputs[i]).monitor_id
                != planned.mappings[k].monitor_id,
    ensures
        k < planned.expected.len(),
        planned.expected[k].output_name == planned.mappings[k].output_name,
        !planned.expected[k].enabled,
{
    let rendered = lemma_made_of(profile, current, mode, planned);
    lemma_no_output_for(profile.outputs, planned.mappings[k].monitor_id);
    assert(planned.expected[k] == plan::mapped_state(profile, current, planned.mappings[k], false));
}

/// On the connector of a command that monitor is expected that hangs on it now.
pub proof fn law_monitors_are_expected_to_stay_connected(
    profile: ProfileView,
    current: Seq<MonitorView>,
    mode: MonitorMatchMode,
    planned: PlanView,
    k: int,
    j: int,
)
    requires
        plan::is_plan(Ok(planned), profile, current, mode),
        forall|i: int, j: int|
            0 <= i < j < current.len() ==> (#[trigger] current[i]).output_name != (
            #[trigger] current[j]).output_name,
        0 <= k < planned.mappings.len(),
        0 <= j < current.len(),
        planned.mappings[k].output_name == current[j].output_name,
    ensures
        k < planned.expected.len(),
        planned.expected[k].output_name == current[j].output_name,
        planned.expected[k].monitor_id == current[j].id,
{
    let rendered = lemma_made_of(profile, current, mode, planned);
    layout_laws::lemma_monitor_on(current, j);
    assert(planned.expected[k] == plan::mapped_state(profile, current, planned.mappings[k], false));
}

/// `state` is `monitor` as it is.
pub open spec fn stays_as(state: ExpectedView, monitor: MonitorView) -> bool {
    &&& state.output_name == monitor.output_name
    &&& state.monitor_id == monitor.id
    &&& state.enabled == monitor.enabled
    &&& state.x == monitor.x
    &&& state.y == monitor.y
    &&& state.scale == monitor.scale
    &&& state.transform == monitor.transform
    &&& plan::spelled_size(state.mode) == Some((monitor.width as int, monitor.height as int))
    &&& text::ends(state.mode, "@"@ + number::decimal_text(monitor.refresh_rate))
}

proof fn lemma_unmapped(
    current: Seq<MonitorView>,
    mappings: Seq<RuleView>,
    details: bool,
    n: int,
    j: int,
) -> (e: int)
    requires
        0 <= j < n <= current.len(),
        forall|k: int|
            0 <= k < mappings.len() ==> (#[trigger] mappings[k]).output_name
                != current[j].output_name,
    ensures
        0 <= e < plan::unmapped_states(current, mappings, details, n).len(),
        stays_as(plan::unmapped_states(current, mappings, details, n)[e], current[j]),
    decreases n,
{
    if j == n - 1 {
        let rate = number::decimal_text(current[j].refresh_rate);
        let size = text::int_text(current[j].width as int) + "x"@ + text::int_text(
            current[j].height as int,
        );
        plan_laws::law_spelled_sizes_are_read(
            current[j].width as int,
            current[j].height as int,
            rate,
        );
        let mode = size + "@"@ + rate;
        assert(mode.skip(mode.len() - ("@"@ + rate).len()) =~= "@"@ + rate);
        plan::unmapped_states(current, mappings, details, n - 1).len() as int
    } else {
        lemma_unmapped(current, mappings, details, n - 1, j)
    }
}

/// A monitor that no command is for is expected to stay as it is.
pub proof fn law_uncommanded_monitors_are_expected_to_stay(
    profile: ProfileView,
    current: Seq<MonitorView>,
    mode: MonitorMatchMode,
    planned: PlanView,
    j: int,
)
    requires
        plan::is_plan(Ok(planned), profile, current, mode),
        0 <= j < current.len(),
        forall|k: int|
            0 <= k < planned.mappings.len() ==> (#[trigger] planned.mappings[k]).output_name
                != current[j].output_name,
    ensures
        exists|e: int|
            0 <= e < planned.expected.len() && stays_as(#[trigger] planned.expected[e], current[j]),
{
    let rendered = lemma_made_of(profile, current, mode, planned);
    let e = lemma_unmapped(current, planned.mappings, false, current.len() as int, j);
    let at = planned.mappings.len() + e;
    assert(planned.expected[at] == plan::unmapped_states(
        current,
        planned.mappings,
        false,
        current.len() as int,
    )[e]);
    assert(stays_as(planned.expected[at], current[j]));
}

proof fn lemma_scales_fit(
    profile: ProfileView,
    current: Seq<MonitorView>,
    mappings: Seq<RuleView>,
    n: int,
    k: int,
)
    requires
        0 <= k < n <= mappings.len(),
        plan::scales_error(profile, current, mappings, n) is None,
    ensures
        plan::scale_error(profile, current, mappings[k]) is None,
    decreases n,
{
    if k < n - 1 {
        lemma_scales_fit(profile, current, mappings, n - 1, k);
    }
}

/// Also where a mode is told by a word, the size that it has on the monitor comes to whole
/// logical pixels both ways.
pub proof fn law_chosen_modes_fit_the_scale(
    profile: ProfileView,
    current: Seq<MonitorView>,
    mode: MonitorMatchMode,
    planned: PlanView,
    k: int,
    i: int,
    j: int,
)
    requires
        plan::is_plan(Ok(planned), profile, current, mode),
        forall|i: int, j: int|
            0 <= i < j < profile.outputs.len() ==> (#[trigger] profile.outputs[i]).monitor_id != (
            #[trigger] profile.outputs[j]).monitor_id,
        forall|i: int, j: int|
            0 <= i < j < current.len() ==> (#[trigger] current[i]).output_name != (
            #[trigger] current[j]).output_name,
        0 <= k < planned.mappings.len(),
        0 <= i < profile.outputs.len(),
        0 <= j < current.len(),
        planned.mappings[k].monitor_id == profile.outputs[i].monitor_id,
        planned.mappings[k].output_name == current[j].output_name,
        validation::parsed_mode(profile.outputs[i].mode) is None,
    ensures
        modes::dimensions_of(profile.outputs[i].mode, current[j]) matches Ok((width, height))
            && validation::whole_pixels(width, profile.outputs[i].scale)
            && validation::whole_pixels(height, profile.outputs[i].scale),
{
    layout_laws::lemma_output_for(profile.outputs, i);
    layout_laws::lemma_monitor_on(current, j);
    let rendered = lemma_made_of(profile, current, mode, planned);
    lemma_scales_fit(profile, current, planned.mappings, planned.mappings.len() as int, k);
}

/// A plan bears the name of its profile and keeps the profile and the way in which its
/// monitors were matched, so that it can be made again.
pub proof fn law_plans_can_be_made_again(
    profile: ProfileView,
    current: Seq<MonitorView>,
    mode: MonitorMatchMode,
    planned: PlanView,
)
    requires
        plan::is_plan(Ok(planned), profile, current, mode),
    ensures
        planned.profile_name == profile.name,
        planned.profile == profile,
        planned.match_mode == mode,
        plan::is_plan(Ok(planned), planned.profile, current, planned.match_mode),
{
}

/// A plan is too dangerous to carry out exactly where it would leave every output of the
/// profile dark.
pub proof fn law_dark_plans_are_refused(
    profile: ProfileView,
    current: Seq<MonitorView>,
    mode: MonitorMatchMode,
    planned: PlanView,
)
    requires
        plan::is_plan(Ok(planned), profile, current, mode),
    ensures
        plan::unsafe_reason(planned) is Some <==> forall|i: int|
            0 <= i < profile.outputs.len() ==> !(#[trigger] profile.outputs[i]).enabled,
{
    plan_laws::law_warnings_are_due(profile, current, mode, planned, seq![], seq![]);
}

/// A monitor that shows a picture is remembered in the mode that it is in. One that has
/// no size is remembered in the first mode that it offers, or in the one it prefers where
/// it offers none.
pub proof fn law_dark_monitors_are_remembered_in_a_mode_they_have(monitor: MonitorView, mode: Seq<char>)
    requires
        monitor.width <= 0 || monitor.height <= 0,
    ensures
        monitor.available_modes.len() == 0 ==> ProfileOutputView::of(monitor).mode == "preferred"@,
        monitor.available_modes.len() > 0 && monitor.available_modes[0] == mode + "Hz"@
            ==> ProfileOutputView::of(monitor).mode == mode,
        monitor.available_modes.len() > 0 && !text::ends(monitor.available_modes[0], "Hz"@)
            ==> ProfileOutputView::of(monitor).mode == monitor.available_modes[0],
{
    reveal_strlit("Hz");
    if monitor.available_modes.len() > 0 && monitor.available_modes[0] == mode + "Hz"@ {
        let offered = monitor.available_modes[0];
        assert(offered.skip(offered.len() - 2) =~= "Hz"@);
        assert(offered.take(offered.len() - 2) =~= mode);
    }
}

} // verus!
