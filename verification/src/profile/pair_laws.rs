//! What a score says of a remembered and a connected monitor.
use vstd::prelude::*;

use crate::hyprland::monitor;
use crate::hyprland::monitor::MonitorView;
use crate::hyprland::monitor_laws;
use crate::profile::matching;
use crate::profile::matching::MonitorMatchMode;
use crate::profile::matching_laws;
use crate::profile::store::ProfileMonitorView;
use crate::text;

verus! {

// ---------------------------------------------------------------------------
// What a score stands for
// ---------------------------------------------------------------------------
/// A pair scores only by what the two have in common: one of 90, 50 or 45 is of one
/// make and one model, one of 90 of one serial too, and one of 50 of one size; one
/// of 60 has one description; one of 100 or 95 has one identity, and make and model
/// or the description bear it out; one of 20 hangs on the connector it was saved on.
/// No pair has any other score but none.
pub proof fn law_scores_are_earned(saved: ProfileMonitorView, current: MonitorView)
    ensures
        ({
            let score = matching::pair_score(saved, current);
            &&& score == 100 || score == 95 || score == 90 || score == 60 || score == 50 || score
                == 45 || score == 20 || score == 0
            &&& score == 100 ==> saved.id == current.id && ((saved.make == current.make
                && saved.model == current.model && (saved.serial == current.serial
                || !monitor::informative(text::trimmed(saved.serial)))) || saved.description
                == current.description)
            &&& score == 95 ==> saved.id == current.id && ((saved.make == current.make
                && saved.model == current.model && saved.serial == current.serial)
                || saved.description == current.description)
            &&& score == 90 ==> saved.make == current.make && saved.model == current.model
                && saved.serial == current.serial && text::trimmed(saved.serial).len() > 0
            &&& score == 60 ==> saved.description == current.description && text::trimmed(
                saved.description,
            ).len() > 0
            &&& score == 50 ==> saved.make == current.make && saved.model == current.model
                && saved.physical_width == current.physical_width && saved.physical_height
                == current.physical_height && saved.physical_width > 0 && saved.physical_height > 0
            &&& score == 45 ==> saved.make == current.make && saved.model == current.model
            &&& score == 20 ==> saved.name_hint == current.output_name && text::trimmed(
                saved.name_hint,
            ).len() > 0
            &&& score == 90 || score == 50 || score == 45 ==> text::trimmed(saved.make).len() > 0
                && text::trimmed(saved.model).len() > 0
        }),
{
}

/// Monitors that differ in identity, description and connector score only where
/// they are of one make and one model.
pub proof fn law_other_models_do_not_match(saved: ProfileMonitorView, current: MonitorView)
    requires
        saved.id != current.id,
        saved.description != current.description,
        saved.name_hint != current.output_name,
    ensures
        matching::pair_score(saved, current) > 0 ==> saved.make == current.make && saved.model
            == current.model,
        saved.make != current.make || saved.model != current.model ==> matching::pair_match(
            saved,
            current,
        ) == (0int, "no match"@),
{
}

/// What two monitors have in common is never passed over: one make, model and
/// serial give at least 90, one description at least 60, one make, model and size at
/// least 50, one make and model at least 45, and one connector at least 20, where
/// these fields say something.
pub proof fn law_common_traits_score(saved: ProfileMonitorView, current: MonitorView)
    ensures
        ({
            let score = matching::pair_score(saved, current);
            let one_model = saved.make == current.make && saved.model == current.model
                && monitor::informative(saved.make) && monitor::informative(saved.model);
            &&& one_model && saved.serial == current.serial && monitor::informative(saved.serial)
                ==> score >= 90
            &&& saved.description == current.description && monitor::informative(saved.description)
                ==> score >= 60
            &&& one_model && saved.physical_width == current.physical_width
                && saved.physical_height == current.physical_height && saved.physical_width > 0
                && saved.physical_height > 0 ==> score >= 50
            &&& one_model ==> score >= 45
            &&& saved.name_hint == current.output_name && monitor::informative(saved.name_hint)
                ==> score >= 20
        }),
{
}

/// A monitor that is remembered as it is connected, with an identity made of its make
/// and model or of its description, is recognised by its identity, on whatever
/// connector and of whatever size it is now.
pub proof fn law_remembered_monitors_are_recognised(
    monitor: MonitorView,
    saved: ProfileMonitorView,
)
    requires
        saved.id == monitor.id,
        saved.make == monitor.make,
        saved.model == monitor.model,
        saved.serial == monitor.serial,
        saved.description == monitor.description,
        monitor::informative(monitor.id),
        monitor.id == monitor::stable_id(
            monitor.make,
            monitor.model,
            monitor.serial,
            monitor.description,
            seq![],
        ),
        (monitor::informative(text::trimmed(monitor.make)) && monitor::informative(
            text::trimmed(monitor.model),
        )) || monitor::informative(text::trimmed(monitor.description)),
    ensures
        matching::pair_match(saved, monitor) == (100int, "exact monitor id"@),
{
}

/// Where more than the connector speaks for a pair, its score is the same whatever
/// connector the monitor was saved on and whatever it hangs on now.
pub proof fn law_connectors_do_not_change_scores(
    saved: ProfileMonitorView,
    current: MonitorView,
    name_hint: Seq<char>,
    output_name: Seq<char>,
)
    ensures
        ({
            let replugged = matching::pair_score(
                ProfileMonitorView { name_hint, ..saved },
                MonitorView { output_name, ..current },
            );
            let score = matching::pair_score(saved, current);
            &&& score >= 45 || replugged >= 45 ==> replugged == score
            &&& score < 45 <==> replugged < 45
        }),
{
}

/// How a monitor is set does not change how it scores.
pub proof fn law_settings_do_not_change_scores(
    saved: ProfileMonitorView,
    current: MonitorView,
    other: MonitorView,
)
    requires
        other.id == current.id,
        other.output_name == current.output_name,
        other.description == current.description,
        other.make == current.make,
        other.model == current.model,
        other.serial == current.serial,
        other.physical_width == current.physical_width,
        other.physical_height == current.physical_height,
    ensures
        matching::pair_match(saved, other) == matching::pair_match(saved, current),
{
}

/// The words beside a score say what it stands for.
pub proof fn law_reasons_name_the_evidence(saved: ProfileMonitorView, current: MonitorView)
    ensures
        ({
            let (score, reason) = matching::pair_match(saved, current);
            reason == (if score >= 95 {
                "exact monitor id"@
            } else if score == 90 {
                "make/model/serial"@
            } else if score == 60 {
                "exact description"@
            } else if score == 50 {
                "make/model/physical size"@
            } else if score == 45 {
                "make/model"@
            } else if score == 20 {
                "output name hint"@
            } else {
                "no match"@
            })
        }),
{
}

/// An identity that begins as one of a connector, or that a connector was added to,
/// is never by itself a reason to recognise a monitor: such a pair scores as if the
/// identities differed.
pub proof fn law_connector_identities_do_not_count(
    saved: ProfileMonitorView,
    current: MonitorView,
    other: MonitorView,
)
    requires
        saved.provenance() is ConnectorFallback || saved.provenance() is ConnectorDisambiguated,
        other == (MonitorView { id: other.id, ..current }),
    ensures
        matching::pair_match(saved, other) == matching::pair_match(saved, current),
        matching::pair_score(saved, current) <= 90,
{
}

// ---------------------------------------------------------------------------
// Partners
// ---------------------------------------------------------------------------
/// The partner of a remembered monitor is a connected one, scores, and says how and
/// why.
pub proof fn law_partners_have_something_in_common(
    saved: Seq<ProfileMonitorView>,
    current: Seq<MonitorView>,
    mode: MonitorMatchMode,
    a: Seq<usize>,
    i: int,
)
    requires
        matching::best_pairing(saved, current, mode, a),
        0 <= i < saved.len(),
    ensures
        matching::partners(saved, current, mode, a).len() == saved.len(),
        matching::partners(saved, current, mode, a)[i] matches Some(found) ==> {
            let partner = current[found.current_index];
            &&& 0 <= found.current_index < current.len()
            &&& found.score > 0
            &&& (found.score, found.reason) == matching::pair_match(saved[i], partner)
            &&& saved[i].id == partner.id || saved[i].description == partner.description || (
            saved[i].make == partner.make && saved[i].model == partner.model)
                || saved[i].name_hint == partner.output_name
        },
{
    law_scores_are_earned(saved[i], current[a[i] as int]);
}

proof fn lemma_cell_weight(
    saved: Seq<ProfileMonitorView>,
    current: Seq<MonitorView>,
    mode: MonitorMatchMode,
    i: int,
    j: int,
)
    requires
        matching_laws::weighable(saved.len() as int),
        0 <= i < saved.len(),
        0 <= j < current.len(),
        matching::pair_score(saved[i], current[j]) > 0,
    ensures
        matching::cell(saved, current, mode, i, j) == (100 * saved.len() + 1) * (saved.len() + 1)
            + matching::pair_score(saved[i], current[j]) * (saved.len() + 1)
            + matching::tie_broken(saved[i], current[j], mode),
        matching::cell(saved, current, mode, i, j) > 0,
{
    let n = saved.len() as int;
    let score = matching::pair_score(saved[i], current[j]);
    matching_laws::lemma_unsaturated_weight(
        n,
        score,
        matching::tie_broken(saved[i], current[j], mode),
    );
    assert((100 * n + 1) * (n + 1) > 0) by (nonlinear_arith)
        requires
            n >= 0,
    ;
    assert(0 <= score * (n + 1) <= 100 * (n + 1)) by (nonlinear_arith)
        requires
            n >= 0,
            0 <= score <= 100,
    ;
}

/// A pair that scores higher weighs more, whatever the connectors. Pairs that score
/// alike weigh alike where the program chooses; where the user named the profile one
/// that keeps its connector weighs more than one that does not.
pub proof fn law_weights_follow_scores(
    saved: Seq<ProfileMonitorView>,
    current: Seq<MonitorView>,
    i: int,
    j: int,
    k: int,
    l: int,
)
    requires
        matching_laws::weighable(saved.len() as int),
        0 <= i < saved.len(),
        0 <= k < saved.len(),
        0 <= j < current.len(),
        0 <= l < current.len(),
        matching::pair_score(saved[i], current[j]) > 0,
        matching::pair_score(saved[k], current[l]) > 0,
    ensures
        ({
            let one = matching::pair_score(saved[i], current[j]);
            let other = matching::pair_score(saved[k], current[l]);
            let chosen = MonitorMatchMode::Automatic;
            let named = MonitorMatchMode::Explicit;
            &&& one > other ==> matching::cell(saved, current, chosen, i, j) > matching::cell(
                saved,
                current,
                chosen,
                k,
                l,
            ) && matching::cell(saved, current, named, i, j) > matching::cell(
                saved,
                current,
                named,
                k,
                l,
            )
            &&& one == other ==> matching::cell(saved, current, chosen, i, j) == matching::cell(
                saved,
                current,
                chosen,
                k,
                l,
            )
            &&& one == other && monitor::informative(saved[i].name_hint) && saved[i].name_hint
                == current[j].output_name && saved[k].name_hint != current[l].output_name
                ==> matching::cell(saved, current, named, i, j) > matching::cell(
                saved,
                current,
                named,
                k,
                l,
            )
        }),
{
    let n = saved.len() as int;
    let one = matching::pair_score(saved[i], current[j]);
    let other = matching::pair_score(saved[k], current[l]);
    lemma_cell_weight(saved, current, MonitorMatchMode::Automatic, i, j);
    lemma_cell_weight(saved, current, MonitorMatchMode::Automatic, k, l);
    lemma_cell_weight(saved, current, MonitorMatchMode::Explicit, i, j);
    lemma_cell_weight(saved, current, MonitorMatchMode::Explicit, k, l);
    if one > other {
        assert(one * (n + 1) >= other * (n + 1) + (n + 1)) by (nonlinear_arith)
            requires
                one >= other + 1,
                n >= 0,
        ;
    }
}

/// `s` is blank or the word unknown.
pub open spec fn says_nothing(s: Seq<char>) -> bool {
    text::trimmed(s).len() == 0 || monitor_laws::says_unknown(s)
}

/// Fields that say nothing match nothing: where make or model, the description, the
/// connector and the identity all are blank or unknown, a remembered monitor has no points
/// for any other, though its fields are the same.
pub proof fn law_fields_that_say_nothing_do_not_match(
    saved: ProfileMonitorView,
    current: MonitorView,
)
    requires
        says_nothing(saved.make) || says_nothing(saved.model),
        says_nothing(saved.description),
        says_nothing(saved.name_hint),
        says_nothing(saved.id),
    ensures
        matching::pair_score(saved, current) == 0,
{
    monitor_laws::law_unknown_says_nothing(saved.make);
    monitor_laws::law_unknown_says_nothing(saved.model);
    monitor_laws::law_unknown_says_nothing(saved.description);
    monitor_laws::law_unknown_says_nothing(saved.name_hint);
    monitor_laws::law_unknown_says_nothing(saved.id);
}

} // verus!
