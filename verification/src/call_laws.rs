//! What the functions of the library return, told by the fields of what they are given.
use vstd::prelude::*;

use crate::hyprland::monitor;
use crate::hyprland::monitor::{MonitorState, RawHyprMonitor};
use crate::hyprland::monitor_laws;
use crate::profile::choice_laws;
use crate::profile::matching;
use crate::profile::matching::{
    BestProfileMatch, MatchConfidence, ProfileMatch, ProfileMatchView,
};
use crate::profile::pair_laws;
use crate::profile::store;
use crate::profile::store::{ProfileMonitor, ProfileOutput, ProfileStore};
use crate::sort;
use crate::tui::geometry;
use crate::tui::geometry::LogicalRect;
use crate::tui::geometry_laws;

verus! {

/// The score that is returned for a remembered and a connected monitor is one of eight;
/// one of 90, 50 or 45 means one make and one model, one of 90 one serial too, one of 50
/// one size; and where identity, description and connector differ, there is no other way
/// to score than one make and one model.
pub proof fn law_returned_scores_are_earned(
    saved: &ProfileMonitor,
    current: &MonitorState,
    result: (i32, &'static str),
)
    requires
        call_ensures(matching::profile_monitor_match_score, (saved, current), result),
    ensures
        result.0 == 100 || result.0 == 95 || result.0 == 90 || result.0 == 60 || result.0 == 50
            || result.0 == 45 || result.0 == 20 || result.0 == 0,
        result.0 == 90 || result.0 == 50 || result.0 == 45 ==> saved.make@ == current.make@
            && saved.model@ == current.model@,
        result.0 == 90 ==> saved.serial@ == current.serial@,
        result.0 == 60 ==> saved.description@ == current.description@,
        result.0 == 50 ==> saved.physical_width == current.physical_width && saved.physical_height
            == current.physical_height,
        result.0 == 20 ==> saved.name_hint@ == current.output_name@,
        result.0 == 100 || result.0 == 95 ==> saved.id@ == current.id@,
        saved.id@ != current.id@ && saved.description@ != current.description@ && saved.name_hint@
            != current.output_name@ && result.0 > 0 ==> saved.make@ == current.make@
            && saved.model@ == current.model@,
{
    pair_laws::law_scores_are_earned(saved@, current@);
    if saved.id@ != current.id@ && saved.description@ != current.description@ && saved.name_hint@
        != current.output_name@ {
        pair_laws::law_other_models_do_not_match(saved@, current@);
    }
}

/// The monitors that are read are those that are reported, in their order and field by
/// field.
pub proof fn law_returned_monitors_are_as_reported(
    raw: Vec<RawHyprMonitor>,
    result: Vec<MonitorState>,
    i: int,
)
    requires
        call_ensures(monitor::normalize_monitors, (raw,), result),
        0 <= i < raw@.len(),
    ensures
        result@.len() == raw@.len(),
        result@[i].output_name@ == raw@[i].name@,
        result@[i].description@ == raw@[i].description@,
        result@[i].make@ == raw@[i].make@,
        result@[i].model@ == raw@[i].model@,
        result@[i].serial@ == raw@[i].serial@,
        result@[i].enabled == !raw@[i].disabled,
        result@[i].x == raw@[i].x,
        result@[i].y == raw@[i].y,
        result@[i].width == raw@[i].width,
        result@[i].height == raw@[i].height,
        result@[i].refresh_rate.value() == raw@[i].refresh_rate.value(),
        result@[i].scale.value() == raw@[i].scale.value(),
        result@[i].transform == raw@[i].transform,
        result@[i].physical_width == raw@[i].physical_width,
        result@[i].physical_height == raw@[i].physical_height,
{
    monitor_laws::law_monitors_are_read_as_reported(raw@, i);
    assert(monitor::views(result@).len() == monitor::normalized(raw@).len());
    assert(monitor::views(result@)[i] == result@[i]@);
}

/// Two outputs that differ by a quarter turn alone are in one place in the editor, the one
/// as wide as the other is high.
pub proof fn law_returned_places_are_turned(
    output: &ProfileOutput,
    turned: &ProfileOutput,
    monitors: &Vec<MonitorState>,
    before: Option<LogicalRect>,
    after: Option<LogicalRect>,
)
    requires
        call_ensures(geometry::output_rect_with_monitors, (output, monitors), before),
        call_ensures(geometry::output_rect_with_monitors, (turned, monitors), after),
        0 <= output.transform <= 6,
        turned.transform == output.transform + 1,
        turned.monitor_id@ == output.monitor_id@,
        turned.enabled == output.enabled,
        turned.mode@ == output.mode@,
        turned.x == output.x,
        turned.y == output.y,
        turned.scale.value() == output.scale.value(),
    ensures
        before is Some <==> after is Some,
        before matches Some(b) ==> (after matches Some(a) && a.width == b.height && a.height
            == b.width && a.x == output.x && a.y == output.y && b.x == output.x && b.y == output.y),
{
    let views = monitor::views(monitors@);
    geometry_laws::law_quarter_turns_exchange_the_sides(output@, views, output.transform);
    assert(output@ == store::ProfileOutputView { transform: output.transform, ..output@ });
    assert(turned@ == store::ProfileOutputView {
        transform: (output.transform + 1) as i32,
        ..output@
    });
}

/// An output that is off is nowhere in the editor.
pub proof fn law_dark_outputs_are_nowhere(
    output: &ProfileOutput,
    monitors: &Vec<MonitorState>,
    result: Option<LogicalRect>,
)
    requires
        call_ensures(geometry::output_rect_with_monitors, (output, monitors), result),
        !output.enabled,
    ensures
        result is None,
{
}

/// Where one of the candidates that are returned matches exactly or confidently, the first
/// does; and where the first alone does, it is selected.
pub proof fn law_good_candidates_are_returned_first(
    kept: &ProfileStore,
    current: &Vec<MonitorState>,
    result: BestProfileMatch,
    k: int,
)
    requires
        call_ensures(matching::best_profile_match, (kept, current), result),
        0 <= k < result.candidates@.len(),
        result.candidates@[k].confidence is Exact || result.candidates@[k].confidence is High,
    ensures
        result.candidates@[0].confidence is Exact || result.candidates@[0].confidence is High,
        (forall|i: int|
            1 <= i < result.candidates@.len() ==> !((#[trigger] result.candidates@[i]).confidence
                is Exact || result.candidates@[i].confidence is High)) ==> (result.selected
            matches Some(selected) && selected.profile_name@
            == result.candidates@[0].profile_name@),
{
    let views = monitor::views(current@);
    let matches = choose|matches: Seq<ProfileMatchView>| #[trigger]
        matching::are_matches(matches, kept@, views) && result@ == matching::best_of(
            sort::sorted::<ProfileMatch>(matches),
        );
    let candidates = sort::sorted::<ProfileMatch>(matches);
    assert(result@.candidates == candidates);
    sort::law_sorted::<ProfileMatch>(matches);
    assert(sort::held(result.candidates@).len() == candidates.len());
    assert forall|i: int| 0 <= i < candidates.len() implies #[trigger] candidates[i]
        == result.candidates@[i]@ by {
        assert(sort::held(result.candidates@)[i] == result.candidates@[i]@);
    }
    assert(candidates[k].confidence is Exact || candidates[k].confidence is High);
    assert(candidates.to_multiset().contains(candidates[k])) by {
        candidates.to_multiset_ensures();
        assert(candidates.contains(candidates[k]));
    }
    matches.to_multiset_ensures();
    assert(matches.contains(candidates[k]));
    let m = choose|m: int| 0 <= m < matches.len() && matches[m] == candidates[k];
    choice_laws::law_good_matches_stand_in_front(kept@, views, matches, m);
    choice_laws::law_choice_among_candidates(candidates);
    assert(candidates[0] == result.candidates@[0]@);
}

/// The confidences that profiles are applied with by themselves are the two best.
pub proof fn law_only_good_confidences_are_eligible(confidence: MatchConfidence, result: bool)
    requires
        call_ensures(MatchConfidence::is_auto_apply_eligible, (confidence,), result),
    ensures
        result <==> confidence is Exact || confidence is High,
{
}

} // verus!
