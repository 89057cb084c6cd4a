//! A layout that is in force is left alone, and the way back leads back.
use vstd::prelude::*;

use crate::double;
use crate::assignment;
use crate::hyprland::monitor::MonitorView;
use crate::number::MAX_UNITS;
use crate::profile::apply::OutcomeView;
use crate::profile::matching;
use crate::profile::matching::{MonitorMatchMode, ResolvedView};
use crate::profile::modes;
use crate::profile::plan;
use crate::profile::plan::{ExpectedView, PlanView};
use crate::profile::recognition_laws;
use crate::profile::render;
use crate::profile::render::{RenderedView, RuleView};
use crate::profile::store::{ProfileMonitorView, ProfileOutputView, ProfileView};
use crate::profile::transaction;
use crate::profile::validation;

verus! {

// ---------------------------------------------------------------------------
// Order
// ---------------------------------------------------------------------------
/// The positions of those of the first `n` outputs that `enabled` asks for.
spec fn picked(outputs: Seq<ProfileOutputView>, enabled: bool, n: int) -> Seq<usize>
    decreases n,
{
    if n <= 0 {
        seq![]
    } else if outputs[n - 1].enabled == enabled {
        picked(outputs, enabled, n - 1).push((n - 1) as usize)
    } else {
        picked(outputs, enabled, n - 1)
    }
}

proof fn lemma_picked(outputs: Seq<ProfileOutputView>, enabled: bool, n: int)
    requires
        0 <= n <= outputs.len() <= usize::MAX,
    ensures
        ({
            let at = picked(outputs, enabled, n);
            let some = render::outputs_that(outputs, enabled, n);
            &&& at.len() == some.len()
            &&& forall|i: int|
                #![trigger at[i]]
                0 <= i < at.len() ==> at[i] < n && some[i] == outputs[at[i] as int]
                    && outputs[at[i] as int].enabled == enabled
            &&& forall|i: int, j: int| 0 <= i < j < at.len() ==> #[trigger] at[i] < #[trigger] at[j]
            &&& forall|k: int|
                0 <= k < n && (#[trigger] outputs[k]).enabled == enabled ==> at.contains(k as usize)
        }),
        picked(outputs, true, n).len() + picked(outputs, false, n).len() == n,
    decreases n,
{
    if n > 0 {
        lemma_picked(outputs, enabled, n - 1);
        let before = picked(outputs, enabled, n - 1);
        let at = picked(outputs, enabled, n);
        assert forall|k: int| 0 <= k < n && (#[trigger] outputs[k]).enabled == enabled implies at.contains(
            k as usize,
        ) by {
            if k < n - 1 {
                assert(before.contains(k as usize));
                let i = choose|i: int| 0 <= i < before.len() && before[i] == k as usize;
                assert(at[i] == k as usize);
            } else {
                assert(at[at.len() - 1] == k as usize);
            }
        }
    }
}

/// `k` is one of the positions.
spec fn reaches(at: Seq<usize>, k: int) -> bool {
    exists|i: int| 0 <= i < at.len() && #[trigger] at[i] == k
}

/// Where the outputs of a profile are, in the order in which they are set.
spec fn order_of(outputs: Seq<ProfileOutputView>) -> Seq<usize> {
    picked(outputs, true, outputs.len() as int) + picked(outputs, false, outputs.len() as int)
}

proof fn lemma_order(outputs: Seq<ProfileOutputView>)
    requires
        outputs.len() <= usize::MAX,
    ensures
        ({
            let at = order_of(outputs);
            let all = render::enabled_first(outputs);
            &&& at.len() == all.len() == outputs.len()
            &&& forall|i: int|
                #![trigger at[i]]
                0 <= i < at.len() ==> at[i] < outputs.len() && all[i] == outputs[at[i] as int]
            &&& forall|i: int, j: int|
                0 <= i < j < at.len() ==> #[trigger] at[i] != #[trigger] at[j]
            &&& forall|k: int| 0 <= k < outputs.len() ==> #[trigger] reaches(at, k)
        }),
{
    let n = outputs.len() as int;
    lemma_picked(outputs, true, n);
    lemma_picked(outputs, false, n);
    let on = picked(outputs, true, n);
    let off = picked(outputs, false, n);
    let at = order_of(outputs);
    let all = render::enabled_first(outputs);
    assert forall|i: int| #![trigger at[i]] 0 <= i < at.len() implies at[i] < outputs.len() && all[i]
        == outputs[at[i] as int] by {
        if i < on.len() {
            assert(at[i] == on[i]);
        } else {
            assert(at[i] == off[i - on.len()]);
        }
    }
    assert forall|i: int, j: int| 0 <= i < j < at.len() implies #[trigger] at[i] != #[trigger] at[j] by {
        if j < on.len() {
            assert(on[i] < on[j]);
        } else if i >= on.len() {
            assert(off[i - on.len()] < off[j - on.len()]);
        } else {
            assert(outputs[on[i] as int].enabled);
            assert(!outputs[off[j - on.len()] as int].enabled);
        }
    }
    assert forall|k: int| 0 <= k < outputs.len() implies #[trigger] reaches(at, k) by {
        if outputs[k].enabled {
            assert(on.contains(k as usize));
            let i = choose|i: int| 0 <= i < on.len() && on[i] == k as usize;
            assert(at[i] == k);
        } else {
            assert(off.contains(k as usize));
            let i = choose|i: int| 0 <= i < off.len() && off[i] == k as usize;
            assert(at[i + on.len()] == k);
        }
    }
}

// ---------------------------------------------------------------------------
// Finding
// ---------------------------------------------------------------------------
proof fn lemma_remembered(monitors: Seq<ProfileMonitorView>, k: int)
    requires
        0 <= k < monitors.len(),
        forall|i: int, j: int|
            0 <= i < j < monitors.len() ==> (#[trigger] monitors[i]).id != (#[trigger] monitors[j]).id,
    ensures
        render::remembered(monitors, monitors[k].id) == monitors[k],
    decreases monitors.len(),
{
    if k > 0 {
        assert(monitors[0].id != monitors[k].id);
        let rest = monitors.drop_first();
        assert forall|i: int, j: int| 0 <= i < j < rest.len() implies (#[trigger] rest[i]).id
            != (#[trigger] rest[j]).id by {
            assert(rest[i] == monitors[i + 1] && rest[j] == monitors[j + 1]);
        }
        assert(rest[k - 1] == monitors[k]);
        lemma_remembered(rest, k - 1);
    }
}

pub(crate) proof fn lemma_output_for(outputs: Seq<ProfileOutputView>, k: int)
    requires
        0 <= k < outputs.len(),
        forall|i: int, j: int|
            0 <= i < j < outputs.len() ==> (#[trigger] outputs[i]).monitor_id
                != (#[trigger] outputs[j]).monitor_id,
    ensures
        plan::output_for(outputs, outputs[k].monitor_id) == Some(outputs[k]),
    decreases outputs.len(),
{
    if k > 0 {
        assert(outputs[0].monitor_id != outputs[k].monitor_id);
        let rest = outputs.drop_first();
        assert forall|i: int, j: int| 0 <= i < j < rest.len() implies (#[trigger] rest[i]).monitor_id
            != (#[trigger] rest[j]).monitor_id by {
            assert(rest[i] == outputs[i + 1] && rest[j] == outputs[j + 1]);
        }
        assert(rest[k - 1] == outputs[k]);
        lemma_output_for(rest, k - 1);
    }
}

pub(crate) proof fn lemma_monitor_on(monitors: Seq<MonitorView>, k: int)
    requires
        0 <= k < monitors.len(),
        forall|i: int, j: int|
            0 <= i < j < monitors.len() ==> (#[trigger] monitors[i]).output_name
                != (#[trigger] monitors[j]).output_name,
    ensures
        plan::monitor_on(monitors, monitors[k].output_name) == Some(monitors[k]),
    decreases monitors.len(),
{
    if k > 0 {
        assert(monitors[0].output_name != monitors[k].output_name);
        let rest = monitors.drop_first();
        assert forall|i: int, j: int| 0 <= i < j < rest.len() implies (#[trigger] rest[i]).output_name
            != (#[trigger] rest[j]).output_name by {
            assert(rest[i] == monitors[i + 1] && rest[j] == monitors[j + 1]);
        }
        assert(rest[k - 1] == monitors[k]);
        lemma_monitor_on(rest, k - 1);
    }
}

// ---------------------------------------------------------------------------
// Commands
// ---------------------------------------------------------------------------
/// The command that sets `monitor` as `output` says.
pub open spec fn set_by(monitor: MonitorView, output: ProfileOutputView) -> RuleView {
    RuleView {
        monitor_id: output.monitor_id,
        output_name: monitor.output_name,
        rule: render::rule_text(monitor.output_name, output),
    }
}

proof fn lemma_wanted_rules(
    name: Seq<char>,
    outputs: Seq<ProfileOutputView>,
    current: Seq<MonitorView>,
    found: Seq<Option<ResolvedView>>,
    at: Seq<usize>,
    n: int,
)
    requires
        0 <= n <= outputs.len() == found.len() == at.len(),
        forall|i: int|
            0 <= i < found.len() ==> (#[trigger] found[i] matches Some(pair) && pair.current_index
                == at[i] && !pair.ambiguous),
        render::wanted_rules(name, outputs, current, found, n) is Ok,
    ensures
        ({
            let rules = render::wanted_rules(name, outputs, current, found, n)->Ok_0;
            &&& rules.len() == n
            &&& forall|i: int|
                0 <= i < n ==> #[trigger] rules[i] == set_by(current[at[i] as int], outputs[i])
        }),
    decreases n,
{
    if n > 0 {
        lemma_wanted_rules(name, outputs, current, found, at, n - 1);
        assert(found[n - 1] is Some);
    }
}

proof fn lemma_no_leftovers(
    current: Seq<MonitorView>,
    found: Seq<Option<ResolvedView>>,
    n: int,
)
    requires
        0 <= n <= current.len(),
        forall|j: int|
            0 <= j < current.len() ==> #[trigger] render::is_claimed(found, found.len() as int, j),
    ensures
        render::leftover_rules(current, found, n) == Ok::<Seq<RuleView>, Seq<char>>(seq![]),
    decreases n,
{
    if n > 0 {
        lemma_no_leftovers(current, found, n - 1);
        assert(render::is_claimed(found, found.len() as int, n - 1));
    }
}

proof fn lemma_nothing_unmapped(
    current: Seq<MonitorView>,
    mappings: Seq<RuleView>,
    details: bool,
    n: int,
)
    requires
        0 <= n <= current.len(),
        forall|j: int|
            0 <= j < current.len() ==> plan::is_mapped(
                mappings,
                (#[trigger] current[j]).output_name,
            ),
    ensures
        plan::unmapped_states(current, mappings, details, n) == Seq::<ExpectedView>::empty(),
    decreases n,
{
    if n > 0 {
        lemma_nothing_unmapped(current, mappings, details, n - 1);
        assert(plan::is_mapped(mappings, current[n - 1].output_name));
    }
}

pub(crate) proof fn lemma_no_mismatch(expected: Seq<ExpectedView>, actual: Seq<MonitorView>, n: int)
    requires
        0 <= n <= expected.len(),
        forall|i: int|
            0 <= i < expected.len() ==> plan::state_mismatch(#[trigger] expected[i], actual) is None,
    ensures
        plan::states_mismatch(expected, actual, n) is None,
    decreases n,
{
    if n > 0 {
        lemma_no_mismatch(expected, actual, n - 1);
        assert(plan::state_mismatch(expected[n - 1], actual) is None);
    }
}

// ---------------------------------------------------------------------------
// Pairing monitors with themselves
// ---------------------------------------------------------------------------
/// Monitors that can be told apart: each has a connector and an identity of its
/// own, whatever the identity was taken from.
pub open spec fn told_apart(monitors: Seq<MonitorView>) -> bool {
    &&& forall|i: int, j: int|
        0 <= i < j < monitors.len() ==> (#[trigger] monitors[i]).id != (#[trigger] monitors[j]).id
    &&& forall|i: int, j: int|
        0 <= i < j < monitors.len() ==> (#[trigger] monitors[i]).output_name
            != (#[trigger] monitors[j]).output_name
}

/// Monitors as a compositor reports them: each on a connector of its own and
/// with an identity of its own, and with a size where it is on.
pub open spec fn reported(monitors: Seq<MonitorView>) -> bool {
    &&& told_apart(monitors)
    &&& forall|i: int|
        0 <= i < monitors.len() ==> -MAX_UNITS <= (#[trigger] monitors[i]).refresh_rate
            <= MAX_UNITS && (monitors[i].enabled ==> monitors[i].width > 0 && monitors[i].height
            > 0)
}

/// `monitor` is recognised by what is remembered of it.
spec fn knows_itself(monitor: MonitorView) -> bool {
    matching::pair_score(ProfileMonitorView::of(monitor), monitor) > 0
}

/// What is remembered of a monitor fits no other better than the monitor itself.
proof fn lemma_fits_itself_best(monitor: MonitorView, other: MonitorView, mode: MonitorMatchMode)
    requires
        other == monitor || (other.id != monitor.id && other.output_name != monitor.output_name),
    ensures
        ({
            let saved = ProfileMonitorView::of(monitor);
            &&& matching::pair_score(saved, other) <= matching::pair_score(saved, monitor) <= 100
            &&& 0 <= matching::pair_score(saved, other)
            &&& matching::pair_score(saved, monitor) > 0 ==> matching::tie_broken(saved, other, mode)
                <= matching::tie_broken(saved, monitor, mode)
        }),
{
}

/// A pair that fits better weighs no less, and every pair weighs something.
proof fn lemma_weight_grows(monitors: int, s1: int, t1: int, s2: int, t2: int)
    requires
        0 <= monitors,
        0 <= s1 <= s2,
        0 <= t1 <= t2,
    ensures
        1 <= matching::pair_weight(monitors, s1, t1) <= matching::pair_weight(monitors, s2, t2)
            <= i64::MAX,
{
    let point = matching::point_weight(monitors);
    let scores = matching::capped(
        matching::capped(matching::counted(monitors) * matching::EXACT_ID_SCORE) + 1,
    );
    assert(point >= 1 && scores >= 1);
    assert(scores * point >= 1) by (nonlinear_arith)
        requires
            point >= 1,
            scores >= 1,
    ;
    assert(0 <= s1 * point <= s2 * point) by (nonlinear_arith)
        requires
            0 <= s1 <= s2,
            point >= 1,
    ;
}

/// An assignment that takes the best of every row is not exceeded, and one that
/// equals it takes as much of every row.
proof fn lemma_best_of_rows(w: Seq<Seq<i64>>, best: Seq<usize>, other: Seq<usize>, k: int)
    requires
        0 <= k <= best.len() == other.len(),
        forall|i: int|
            #![trigger best[i]]
            #![trigger other[i]]
            0 <= i < best.len() ==> w[i][other[i] as int] <= w[i][best[i] as int],
    ensures
        assignment::total_gain(w, None, other.take(k)) <= assignment::total_gain(
            w,
            None,
            best.take(k),
        ),
        assignment::total_gain(w, None, other.take(k)) == assignment::total_gain(
            w,
            None,
            best.take(k),
        ) ==> forall|i: int|
            #![trigger best[i]]
            #![trigger other[i]]
            0 <= i < k ==> w[i][other[i] as int] == w[i][best[i] as int],
    decreases k,
{
    if k > 0 {
        lemma_best_of_rows(w, best, other, k - 1);
        assert(best.take(k).drop_last() =~= best.take(k - 1));
        assert(other.take(k).drop_last() =~= other.take(k - 1));
        assert(best.take(k).last() == best[k - 1]);
        assert(other.take(k).last() == other[k - 1]);
    }
}

/// `saved` remembers the monitors of `current`, the one at `i` being the one at
/// `at[i]`.
spec fn remembers(
    saved: Seq<ProfileMonitorView>,
    current: Seq<MonitorView>,
    at: Seq<usize>,
) -> bool {
    &&& saved.len() == current.len() == at.len()
    &&& forall|i: int|
        #![trigger at[i]]
        0 <= i < at.len() ==> at[i] < current.len() && saved[i] == ProfileMonitorView::of(
            current[at[i] as int],
        )
    &&& forall|i: int, j: int| 0 <= i < j < at.len() ==> #[trigger] at[i] != #[trigger] at[j]
}

proof fn lemma_own_cell_is_best(
    saved: Seq<ProfileMonitorView>,
    current: Seq<MonitorView>,
    mode: MonitorMatchMode,
    at: Seq<usize>,
    i: int,
    j: int,
)
    requires
        told_apart(current),
        remembers(saved, current, at),
        0 <= i < saved.len(),
        0 <= j < current.len() + saved.len(),
    ensures
        matching::cell(saved, current, mode, i, j) <= matching::cell(
            saved,
            current,
            mode,
            i,
            at[i] as int,
        ),
        knows_itself(current[at[i] as int]) ==> matching::cell(
            saved,
            current,
            mode,
            i,
            at[i] as int,
        ) >= 1,
        !knows_itself(current[at[i] as int]) ==> matching::cell(
            saved,
            current,
            mode,
            i,
            at[i] as int,
        ) == 0,
{
    let n = saved.len() as int;
    let own = current[at[i] as int];
    assert(saved[i] == ProfileMonitorView::of(own));
    let score = matching::pair_score(saved[i], own);
    let tie = matching::tie_broken(saved[i], own, mode);
    lemma_fits_itself_best(own, own, mode);
    lemma_weight_grows(n, 0, 0, score, tie);
    lemma_weight_grows(n, score, tie, score, tie);
    if j < current.len() {
        let other = current[j];
        if j != at[i] {
            if j < at[i] {
                assert(current[j].id != current[at[i] as int].id);
                assert(current[j].output_name != current[at[i] as int].output_name);
            } else {
                assert(current[at[i] as int].id != current[j].id);
                assert(current[at[i] as int].output_name != current[j].output_name);
            }
        }
        lemma_fits_itself_best(own, other, mode);
        if score > 0 {
            lemma_weight_grows(
                n,
                matching::pair_score(saved[i], other),
                matching::tie_broken(saved[i], other, mode),
                score,
                tie,
            );
        }
    }
}

/// Pairing each monitor with itself is a best pairing, and every best pairing
/// pairs those that are recognised at all.
proof fn lemma_own_pairing_is_best(
    saved: Seq<ProfileMonitorView>,
    current: Seq<MonitorView>,
    mode: MonitorMatchMode,
    at: Seq<usize>,
    a: Seq<usize>,
)
    requires
        told_apart(current),
        remembers(saved, current, at),
        matching::best_pairing(saved, current, mode, a),
    ensures
        matching::best_pairing(saved, current, mode, at),
        forall|i: int|
            #![trigger at[i]]
            0 <= i < at.len() ==> (matching::partners(saved, current, mode, a)[i] is Some
                <==> knows_itself(current[at[i] as int])),
        forall|i: int|
            #![trigger at[i]]
            0 <= i < at.len() ==> (matching::partners(saved, current, mode, a)[i] matches Some(pair)
                ==> !pair.ambiguous ==> pair.current_index == at[i]),
{
    let n = saved.len() as int;
    let w = matching::weights(saved, current, mode);
    let columns = (current.len() + saved.len()) as nat;
    assert forall|b: Seq<usize>| #[trigger]
        assignment::is_assignment(b, w.len(), columns) implies assignment::total_gain(w, None, b)
        <= assignment::total_gain(w, None, at) by {
        assert forall|i: int|
            #![trigger at[i]]
            #![trigger b[i]]
            0 <= i < at.len() implies w[i][b[i] as int] <= w[i][at[i] as int] by {
            assert(b[i] < columns);
            lemma_own_cell_is_best(saved, current, mode, at, i, b[i] as int);
        }
        lemma_best_of_rows(w, at, b, n);
        assert(at.take(n) =~= at);
        assert(b.take(n) =~= b);
    }
    assert(assignment::is_assignment(at, w.len(), columns));
    assert(matching::best_pairing(saved, current, mode, at));
    assert(assignment::total_gain(w, None, at) <= assignment::total_gain(w, None, a));
    assert forall|i: int|
        #![trigger at[i]]
        #![trigger a[i]]
        0 <= i < at.len() implies w[i][a[i] as int] <= w[i][at[i] as int] by {
        assert(a[i] < columns);
        lemma_own_cell_is_best(saved, current, mode, at, i, a[i] as int);
    }
    lemma_best_of_rows(w, at, a, n);
    assert(at.take(n) =~= at);
    assert(a.take(n) =~= a);
    let found = matching::partners(saved, current, mode, a);
    assert forall|i: int| #![trigger at[i]] 0 <= i < at.len() implies (found[i] is Some
        <==> knows_itself(current[at[i] as int])) && (found[i] matches Some(pair)
        ==> !pair.ambiguous ==> pair.current_index == at[i]) by {
        assert(a[i] < columns);
        lemma_own_cell_is_best(saved, current, mode, at, i, a[i] as int);
        assert(w[i][a[i] as int] == matching::cell(saved, current, mode, i, a[i] as int));
        assert(w[i][at[i] as int] == matching::cell(saved, current, mode, i, at[i] as int));
        assert(found[i] == matching::partner(saved, current, mode, a, i));
        if found[i] is Some {
            let score = matching::pair_score(saved[i], current[a[i] as int]);
            lemma_weight_grows(
                n,
                score,
                matching::tie_broken(saved[i], current[a[i] as int], mode),
                score,
                matching::tie_broken(saved[i], current[a[i] as int], mode),
            );
            if !matching::has_alternative(saved, current, mode, a, i) {
                assert(at[i] == a[i]);
            }
        }
    }
}

/// What was rendered refused nothing.
proof fn lemma_no_step_refused(
    name: Seq<char>,
    outputs: Seq<ProfileOutputView>,
    current: Seq<MonitorView>,
    found: Seq<Option<ResolvedView>>,
    n: int,
    i: int,
)
    requires
        0 <= i < n <= outputs.len() == found.len(),
        render::wanted_rules(name, outputs, current, found, n) is Ok,
    ensures
        found[i] matches Some(pair) ==> !pair.ambiguous,
        outputs[i].enabled ==> found[i] is Some,
    decreases n,
{
    if i < n - 1 {
        lemma_no_step_refused(name, outputs, current, found, n - 1, i);
    }
}

// ---------------------------------------------------------------------------
// The laws
// ---------------------------------------------------------------------------
/// `profile` remembers `current` and has an output for each, in this order.
pub open spec fn describes(profile: ProfileView, current: Seq<MonitorView>) -> bool {
    &&& profile.monitors == current.map_values(
        |monitor: MonitorView| ProfileMonitorView::of(monitor),
    )
    &&& profile.outputs.len() == current.len()
    &&& forall|k: int|
        0 <= k < current.len() ==> (#[trigger] profile.outputs[k]).monitor_id == current[k].id
}

/// The pairing behind the commands of a profile that describes the connected
/// monitors.
proof fn lemma_described_in_order(profile: ProfileView, current: Seq<MonitorView>)
    requires
        told_apart(current),
        describes(profile, current),
        current.len() <= usize::MAX,
    ensures
        remembers(render::wanted_monitors(profile), current, order_of(profile.outputs)),
{
    let wanted = render::wanted_monitors(profile);
    let outputs = render::enabled_first(profile.outputs);
    let at = order_of(profile.outputs);
    lemma_order(profile.outputs);
    assert forall|i: int, j: int| 0 <= i < j < profile.monitors.len() implies (
    #[trigger] profile.monitors[i]).id != (#[trigger] profile.monitors[j]).id by {
        assert(current[i].id != current[j].id);
    }
    assert forall|i: int| #![trigger at[i]] 0 <= i < at.len() implies wanted[i]
        == ProfileMonitorView::of(current[at[i] as int]) by {
        let k = at[i] as int;
        assert(outputs[i] == profile.outputs[k]);
        assert(profile.monitors[k] == ProfileMonitorView::of(current[k]));
        lemma_remembered(profile.monitors, k);
    }
}

/// Monitors whose commands were rendered with every output on are recognised.
proof fn lemma_set_monitors_are_known(
    profile: ProfileView,
    current: Seq<MonitorView>,
    mode: MonitorMatchMode,
    rendered: RenderedView,
    k: int,
)
    requires
        told_apart(current),
        describes(profile, current),
        forall|i: int| 0 <= i < profile.outputs.len() ==> (#[trigger] profile.outputs[i]).enabled,
        current.len() <= usize::MAX,
        render::is_rendering(Ok(rendered), profile, current, mode),
        0 <= k < current.len(),
    ensures
        knows_itself(current[k]),
{
    let wanted = render::wanted_monitors(profile);
    let a = choose|a: Seq<usize>| #[trigger]
        matching::best_pairing(wanted, current, mode, a) && Ok::<RenderedView, Seq<char>>(rendered)
            == render::rendered_with(
            profile,
            current,
            matching::partners(wanted, current, mode, a),
        );
    let found = matching::partners(wanted, current, mode, a);
    let outputs = render::enabled_first(profile.outputs);
    let at = order_of(profile.outputs);
    lemma_order(profile.outputs);
    lemma_described_in_order(profile, current);
    lemma_own_pairing_is_best(wanted, current, mode, at, a);
    assert(reaches(at, k));
    let i = choose|i: int| 0 <= i < at.len() && #[trigger] at[i] == k;
    assert(outputs[i] == profile.outputs[k]);
    lemma_no_step_refused(profile.name, outputs, current, found, outputs.len() as int, i);
}

/// The commands of a profile that describes the connected monitors: one for
/// each of them, in the order in which they are set.
proof fn lemma_rendered_in_order(
    profile: ProfileView,
    current: Seq<MonitorView>,
    mode: MonitorMatchMode,
    rendered: RenderedView,
)
    requires
        told_apart(current),
        describes(profile, current),
        current.len() <= usize::MAX,
        forall|k: int| 0 <= k < current.len() ==> knows_itself(#[trigger] current[k]),
        render::is_rendering(Ok(rendered), profile, current, mode),
    ensures
        ({
            let at = order_of(profile.outputs);
            let mappings = rendered.mappings;
            &&& mappings.len() == current.len()
            &&& forall|i: int|
                0 <= i < mappings.len() ==> #[trigger] mappings[i] == set_by(
                    current[at[i] as int],
                    profile.outputs[at[i] as int],
                )
            &&& rendered.rules == render::commands_of(mappings)
            &&& rendered.batch == render::batch_text(rendered.rules)
        }),
{
    let n = current.len() as int;
    let wanted = render::wanted_monitors(profile);
    let a = choose|a: Seq<usize>| #[trigger]
        matching::best_pairing(wanted, current, mode, a) && Ok::<RenderedView, Seq<char>>(rendered)
            == render::rendered_with(
            profile,
            current,
            matching::partners(wanted, current, mode, a),
        );
    let outputs = render::enabled_first(profile.outputs);
    let at = order_of(profile.outputs);
    lemma_order(profile.outputs);
    lemma_described_in_order(profile, current);
    let found = matching::partners(wanted, current, mode, a);
    lemma_own_pairing_is_best(wanted, current, mode, at, a);
    assert forall|i: int| 0 <= i < found.len() implies (#[trigger] found[i] matches Some(pair)
        && pair.current_index == at[i] && !pair.ambiguous) by {
        assert(at[i] < current.len());
        assert(knows_itself(current[at[i] as int]));
        lemma_no_step_refused(profile.name, outputs, current, found, n, i);
    }
    lemma_wanted_rules(profile.name, outputs, current, found, at, n);
    assert forall|j: int| 0 <= j < current.len() implies #[trigger] render::is_claimed(
        found,
        found.len() as int,
        j,
    ) by {
        assert(reaches(at, j));
        let i = choose|i: int| 0 <= i < at.len() && #[trigger] at[i] == j;
        assert(found[i] matches Some(pair) && pair.current_index == j);
    }
    lemma_no_leftovers(current, found, n);
    let rules = render::wanted_rules(profile.name, outputs, current, found, n)->Ok_0;
    assert(rendered.mappings =~= rules);
}

/// Where there is a way back, every monitor is recognised by what is remembered
/// of it.
proof fn lemma_way_back_knows_all(
    current: Seq<MonitorView>,
    plain: Result<RenderedView, Seq<char>>,
    configured: Result<RenderedView, Seq<char>>,
)
    requires
        told_apart(current),
        current.len() <= usize::MAX,
        plan::way_back_with(current, plain, configured) is Ok,
        render::is_rendering(
            plain,
            plan::snapshot_profile(current),
            current,
            MonitorMatchMode::Explicit,
        ),
        render::is_rendering(
            configured,
            all_on(plan::snapshot_profile(current)),
            current,
            MonitorMatchMode::Explicit,
        ),
    ensures
        forall|k: int| 0 <= k < current.len() ==> knows_itself(#[trigger] current[k]),
{
    let profile = plan::snapshot_profile(current);
    let mode = MonitorMatchMode::Explicit;
    let n = current.len() as int;
    assert(describes(profile, current));
    assert forall|k: int| 0 <= k < n implies knows_itself(#[trigger] current[k]) by {
        if render::outputs_that(profile.outputs, false, n).len() == 0 {
            assert forall|i: int| 0 <= i < n implies (#[trigger] profile.outputs[i]).enabled by {
                lemma_none_disabled(profile.outputs, i, n);
            }
            lemma_set_monitors_are_known(profile, current, mode, plain->Ok_0, k);
        } else {
            assert(describes(all_on(profile), current)) by {
                assert forall|i: int| 0 <= i < n implies (#[trigger] all_on(
                    profile,
                ).outputs[i]).monitor_id == current[i].id by {
                    assert(profile.outputs[i].monitor_id == current[i].id);
                }
            }
            lemma_set_monitors_are_known(all_on(profile), current, mode, configured->Ok_0, k);
        }
    }
}

/// `profile` with every output switched on.
spec fn all_on(profile: ProfileView) -> ProfileView {
    ProfileView { outputs: plan::all_enabled(profile.outputs), ..profile }
}

/// A monitor is as the profile that was saved from it expects it.
proof fn lemma_as_expected(
    profile: ProfileView,
    current: Seq<MonitorView>,
    k: int,
    mapping: RuleView,
)
    requires
        reported(current),
        profile.outputs == current.map_values(|monitor: MonitorView| ProfileOutputView::of(monitor)),
        0 <= k < current.len(),
        mapping.monitor_id == current[k].id,
        mapping.output_name == current[k].output_name,
    ensures
        plan::state_mismatch(plan::mapped_state(profile, current, mapping, false), current) is None,
{
    let monitor = current[k];
    assert forall|i: int, j: int| 0 <= i < j < profile.outputs.len() implies (
    #[trigger] profile.outputs[i]).monitor_id != (#[trigger] profile.outputs[j]).monitor_id by {
        assert(current[i].id != current[j].id);
    }
    assert(profile.outputs[k] == ProfileOutputView::of(monitor));
    lemma_output_for(profile.outputs, k);
    lemma_monitor_on(current, k);
    if monitor.enabled {
        recognition_laws::law_written_modes_read_back(
            monitor.width as int,
            monitor.height as int,
            monitor.refresh_rate,
        );
        let parsed = validation::parsed_mode(ProfileOutputView::mode_of(monitor))->0;
        let rate = parsed.2->Finite_0;
        double::lemma_near_rates_are_within(monitor.refresh_rate, rate);
        double::lemma_within_itself(monitor.scale, plan::SCALE_TOLERANCE as int);
        assert(modes::mode_mismatch(ProfileOutputView::mode_of(monitor), monitor) is None);
    }
}

/// The command `first` is at `i` among `rules`, and the one that comes `later`,
/// where there is one, at `j` behind it.
pub open spec fn runs_then(
    rules: Seq<Seq<char>>,
    first: Seq<char>,
    later: Option<Seq<char>>,
    i: int,
    j: int,
) -> bool {
    &&& 0 <= i < rules.len()
    &&& rules[i] == first
    &&& later matches Some(rule) ==> i < j < rules.len() && rules[j] == rule
}

/// The command that sets the mode, place, scale and turn that `monitor` has.
pub open spec fn setting(monitor: MonitorView) -> Seq<char> {
    render::rule_text(
        monitor.output_name,
        ProfileOutputView { enabled: true, ..ProfileOutputView::of(monitor) },
    )
}

/// The command that switches `monitor` off, where it is off.
pub open spec fn switching_off(monitor: MonitorView) -> Option<Seq<char>> {
    if monitor.enabled {
        None
    } else {
        Some(render::disabled_rule(monitor.output_name))
    }
}

/// The commands `rules` put `monitor` back: one sets its mode, place, scale and
/// turn, and where it was off, a later one switches it off again.
pub open spec fn puts_back(rules: Seq<Seq<char>>, monitor: MonitorView) -> bool {
    exists|i: int, j: int| #[trigger]
        runs_then(rules, setting(monitor), switching_off(monitor), i, j)
}

proof fn lemma_disabling_rules(
    outputs: Seq<ProfileOutputView>,
    mappings: Seq<RuleView>,
    i: int,
    n: int,
)
    requires
        0 <= i < n <= mappings.len(),
        plan::is_disabled(outputs, mappings[i].monitor_id),
    ensures
        plan::disabling_rules(outputs, mappings, n).contains(mappings[i].rule),
    decreases n,
{
    let now = plan::disabling_rules(outputs, mappings, n);
    if i == n - 1 {
        assert(now[now.len() - 1] == mappings[i].rule);
    } else {
        lemma_disabling_rules(outputs, mappings, i, n - 1);
        let before = plan::disabling_rules(outputs, mappings, n - 1);
        let k = choose|k: int| 0 <= k < before.len() && before[k] == mappings[i].rule;
        assert(now[k] == mappings[i].rule);
    }
}

proof fn lemma_none_disabled(outputs: Seq<ProfileOutputView>, k: int, n: int)
    requires
        0 <= k < n <= outputs.len(),
        render::outputs_that(outputs, false, n).len() == 0,
    ensures
        outputs[k].enabled,
    decreases n,
{
    if k < n - 1 {
        lemma_none_disabled(outputs, k, n - 1);
    }
}

/// The way back from an application puts every monitor back: also those that
/// were off get the mode, place, scale and turn that they had before they are
/// switched off again.
pub proof fn law_way_back_puts_everything_back(
    current: Seq<MonitorView>,
    batch: Seq<char>,
    expected: Seq<ExpectedView>,
)
    requires
        told_apart(current),
        current.len() <= usize::MAX,
        plan::is_way_back(Ok((batch, expected)), current),
    ensures
        exists|rules: Seq<Seq<char>>|
            batch == #[trigger] render::batch_text(rules) && forall|k: int|
                0 <= k < current.len() ==> puts_back(rules, #[trigger] current[k]),
{
    let profile = plan::snapshot_profile(current);
    let all_on = all_on(profile);
    let mode = MonitorMatchMode::Explicit;
    let n = current.len() as int;
    let (plain, configured) = choose|
        plain: Result<RenderedView, Seq<char>>,
        configured: Result<RenderedView, Seq<char>>,
    |
        #![trigger plan::way_back_with(current, plain, configured)]
        render::is_rendering(plain, profile, current, mode) && render::is_rendering(
            configured,
            all_on,
            current,
            mode,
        ) && Ok::<plan::WayBack, Seq<char>>((batch, expected)) == plan::way_back_with(
            current,
            plain,
            configured,
        );
    let rendered = plain->Ok_0;
    lemma_way_back_knows_all(current, plain, configured);
    assert(describes(profile, current));
    lemma_order(profile.outputs);
    lemma_rendered_in_order(profile, current, mode, rendered);
    let at = order_of(profile.outputs);
    if render::outputs_that(profile.outputs, false, n).len() == 0 {
        let rules = rendered.rules;
        assert forall|k: int| 0 <= k < n implies puts_back(rules, #[trigger] current[k]) by {
            lemma_none_disabled(profile.outputs, k, n);
            assert(reaches(at, k));
            let i = choose|i: int| 0 <= i < at.len() && #[trigger] at[i] == k;
            assert(rendered.mappings[i] == set_by(current[k], profile.outputs[k]));
            assert(profile.outputs[k] == ProfileOutputView::of(current[k]));
            assert(rules[i] == rendered.mappings[i].rule);
            assert(profile.outputs[k] == ProfileOutputView {
                enabled: true,
                ..ProfileOutputView::of(current[k])
            });
            assert(runs_then(rules, setting(current[k]), switching_off(current[k]), i, i));
        }
        assert(batch == render::batch_text(rules));
    } else {
        let set = configured->Ok_0;
        assert(describes(all_on, current)) by {
            assert forall|k: int| 0 <= k < n implies (#[trigger] all_on.outputs[k]).monitor_id
                == current[k].id by {
                assert(profile.outputs[k].monitor_id == current[k].id);
            }
        }
        lemma_order(all_on.outputs);
        lemma_rendered_in_order(all_on, current, mode, set);
        let order = order_of(all_on.outputs);
        let off = plan::disabling_rules(profile.outputs, rendered.mappings, n);
        let rules = set.rules + off;
        assert forall|k: int| 0 <= k < n implies puts_back(rules, #[trigger] current[k]) by {
            assert(reaches(order, k));
            let i = choose|i: int| 0 <= i < order.len() && #[trigger] order[i] == k;
            let output = ProfileOutputView { enabled: true, ..ProfileOutputView::of(current[k]) };
            assert(profile.outputs[k] == ProfileOutputView::of(current[k]));
            assert(all_on.outputs[k] == output);
            assert(set.mappings[i] == set_by(current[k], output));
            assert(rules[i] == set.rules[i] && set.rules[i] == set.mappings[i].rule);
            let first = setting(current[k]);
            if current[k].enabled {
                assert(runs_then(rules, first, switching_off(current[k]), i, i));
            } else {
                assert(reaches(at, k));
                let p = choose|p: int| 0 <= p < at.len() && #[trigger] at[p] == k;
                assert(rendered.mappings[p] == set_by(current[k], profile.outputs[k]));
                assert(plan::is_disabled(profile.outputs, rendered.mappings[p].monitor_id));
                lemma_disabling_rules(profile.outputs, rendered.mappings, p, n);
                let last = render::disabled_rule(current[k].output_name);
                assert(rendered.mappings[p].rule == last);
                let q = choose|q: int| 0 <= q < off.len() && off[q] == last;
                assert(rules[set.rules.len() + q] == last);
                assert(runs_then(
                    rules,
                    first,
                    switching_off(current[k]),
                    i,
                    set.rules.len() + q,
                ));
            }
        }
        assert(batch == render::batch_text(rules));
    }
}

proof fn lemma_plans_know_all(
    current: Seq<MonitorView>,
    way_back: Result<plan::WayBack, Seq<char>>,
)
    requires
        told_apart(current),
        current.len() <= usize::MAX,
        way_back is Ok,
        plan::is_way_back(way_back, current),
    ensures
        forall|k: int| 0 <= k < current.len() ==> knows_itself(#[trigger] current[k]),
{
    let (plain, configured) = choose|
        plain: Result<RenderedView, Seq<char>>,
        configured: Result<RenderedView, Seq<char>>,
    |
        #![trigger plan::way_back_with(current, plain, configured)]
        render::is_rendering(
            plain,
            plan::snapshot_profile(current),
            current,
            MonitorMatchMode::Explicit,
        ) && render::is_rendering(
            configured,
            all_on(plan::snapshot_profile(current)),
            current,
            MonitorMatchMode::Explicit,
        ) && way_back == plan::way_back_with(current, plain, configured);
    lemma_way_back_knows_all(current, plain, configured);
}

/// A profile that was saved from the monitors as they are is already in force:
/// applying it, by name or by choice, would change nothing.
pub proof fn law_saved_layout_is_in_force(
    name: Seq<char>,
    created_at: Seq<char>,
    updated_at: Seq<char>,
    current: Seq<MonitorView>,
    mode: MonitorMatchMode,
    planned: PlanView,
)
    requires
        reported(current),
        current.len() <= usize::MAX,
        plan::is_plan(
            Ok(planned),
            ProfileView::of_monitors(name, current, created_at, updated_at),
            current,
            mode,
        ),
    ensures
        planned.is_noop,
{
    let profile = ProfileView::of_monitors(name, current, created_at, updated_at);
    let n = current.len() as int;
    let (rendered, way_back) = choose|
        rendered: Result<RenderedView, Seq<char>>,
        way_back: Result<plan::WayBack, Seq<char>>,
    |
        #![trigger plan::plan_with(profile, current, mode, rendered, way_back)]
        render::is_rendering(rendered, profile, current, mode) && plan::is_way_back(
            way_back,
            current,
        ) && Ok::<PlanView, Seq<char>>(planned) == plan::plan_with(
            profile,
            current,
            mode,
            rendered,
            way_back,
        );
    lemma_plans_know_all(current, way_back);
    let at = order_of(profile.outputs);
    let mappings = planned.mappings;
    lemma_order(profile.outputs);
    lemma_rendered_in_order(profile, current, mode, rendered->Ok_0);
    assert forall|j: int| 0 <= j < current.len() implies plan::is_mapped(
        mappings,
        (#[trigger] current[j]).output_name,
    ) by {
        assert(reaches(at, j));
        let i = choose|i: int| 0 <= i < at.len() && #[trigger] at[i] == j;
        assert(mappings[i].output_name == current[j].output_name);
    }
    lemma_nothing_unmapped(current, mappings, false, n);
    let expected = plan::expected_layout(profile, current, mappings, false);
    assert(expected.len() == n);
    assert forall|i: int| 0 <= i < expected.len() implies plan::state_mismatch(
        #[trigger] expected[i],
        current,
    ) is None by {
        let k = at[i] as int;
        assert(at[i] < n);
        assert(profile.outputs[k] == ProfileOutputView::of(current[k]));
        lemma_as_expected(profile, current, k, mappings[i]);
        assert(expected[i] == plan::mapped_state(profile, current, mappings[i], false));
    }
    lemma_no_mismatch(expected, current, n);
}

// ---------------------------------------------------------------------------
// Verification
// ---------------------------------------------------------------------------
pub(crate) proof fn lemma_state_found(
    expected: Seq<ExpectedView>,
    actual: Seq<MonitorView>,
    i: int,
    n: int,
)
    requires
        0 <= i < n <= expected.len(),
        plan::states_mismatch(expected, actual, n) is None,
    ensures
        plan::state_mismatch(expected[i], actual) is None,
    decreases n,
{
    if i < n - 1 {
        lemma_state_found(expected, actual, i, n - 1);
    }
}

/// Where a layout is found as expected there are as many monitors as expected,
/// and on each expected connector hangs the expected monitor, on or off as
/// expected; one that is on is in the expected place, turned and scaled as
/// expected, and in the expected mode.
pub proof fn law_verified_layouts_are_as_expected(
    expected: Seq<ExpectedView>,
    actual: Seq<MonitorView>,
    i: int,
)
    requires
        plan::layout_mismatch(expected, actual) is None,
        0 <= i < expected.len(),
    ensures
        actual.len() == expected.len(),
        plan::monitor_on(actual, expected[i].output_name) matches Some(found) && found.id
            == expected[i].monitor_id && found.enabled == expected[i].enabled && (found.enabled
            ==> found.x == expected[i].x && found.y == expected[i].y && found.transform
            == expected[i].transform && double::within(
            found.scale,
            expected[i].scale,
            plan::SCALE_TOLERANCE as int,
        ) && modes::mode_mismatch(expected[i].mode, found) is None),
{
    lemma_state_found(expected, actual, i, expected.len() as int);
}

/// On the connector of `captured` hangs that monitor in `actual`, on or off as it
/// was, in its place, turned and scaled as it was, and in the mode that it had,
/// also where it is off.
pub open spec fn stands_as_captured(actual: Seq<MonitorView>, captured: MonitorView) -> bool {
    plan::monitor_on(actual, captured.output_name) matches Some(found) && found.id == captured.id
        && found.enabled == captured.enabled && found.x == captured.x && found.y == captured.y
        && found.transform == captured.transform && double::within(
        found.scale,
        captured.scale,
        plan::SCALE_TOLERANCE as int,
    ) && modes::mode_mismatch(ProfileOutputView::mode_of(captured), found) is None
}

/// Where the way back was checked and nothing differed, there are as many
/// monitors as were captured, and each stands as it was captured.
pub proof fn law_verified_way_back_is_the_captured_layout(
    current: Seq<MonitorView>,
    batch: Seq<char>,
    expected: Seq<ExpectedView>,
    actual: Seq<MonitorView>,
    k: int,
)
    requires
        told_apart(current),
        current.len() <= usize::MAX,
        plan::is_way_back(Ok((batch, expected)), current),
        plan::layout_mismatch(expected, actual) is None,
        0 <= k < current.len(),
    ensures
        actual.len() == current.len(),
        stands_as_captured(actual, current[k]),
{
    let profile = plan::snapshot_profile(current);
    let mode = MonitorMatchMode::Explicit;
    let n = current.len() as int;
    let (plain, configured) = choose|
        plain: Result<RenderedView, Seq<char>>,
        configured: Result<RenderedView, Seq<char>>,
    |
        #![trigger plan::way_back_with(current, plain, configured)]
        render::is_rendering(plain, profile, current, mode) && render::is_rendering(
            configured,
            all_on(profile),
            current,
            mode,
        ) && Ok::<plan::WayBack, Seq<char>>((batch, expected)) == plan::way_back_with(
            current,
            plain,
            configured,
        );
    let rendered = plain->Ok_0;
    let mappings = rendered.mappings;
    let at = order_of(profile.outputs);
    lemma_way_back_knows_all(current, plain, configured);
    assert(describes(profile, current));
    lemma_order(profile.outputs);
    lemma_rendered_in_order(profile, current, mode, rendered);
    assert forall|j: int| 0 <= j < current.len() implies plan::is_mapped(
        mappings,
        (#[trigger] current[j]).output_name,
    ) by {
        assert(reaches(at, j));
        let i = choose|i: int| 0 <= i < at.len() && #[trigger] at[i] == j;
        assert(mappings[i].output_name == current[j].output_name);
    }
    lemma_nothing_unmapped(current, mappings, true, n);
    assert(expected == plan::expected_layout(profile, current, mappings, true));
    assert(expected.len() == n);
    assert(reaches(at, k));
    let i = choose|i: int| 0 <= i < at.len() && #[trigger] at[i] == k;
    assert(mappings[i] == set_by(current[k], profile.outputs[k]));
    assert(expected[i] == plan::mapped_state(profile, current, mappings[i], true));
    assert forall|i: int, j: int| 0 <= i < j < profile.outputs.len() implies (
    #[trigger] profile.outputs[i]).monitor_id != (#[trigger] profile.outputs[j]).monitor_id by {
        assert(current[i].id != current[j].id);
    }
    assert(profile.outputs[k] == ProfileOutputView::of(current[k]));
    lemma_output_for(profile.outputs, k);
    lemma_monitor_on(current, k);
    lemma_state_found(expected, actual, i, n);
}

/// An application that ends rolled back ends with every monitor as it was
/// captured before: whatever the profile, and whatever happened in between.
pub proof fn law_rolled_back_layouts_are_as_captured(
    profile: ProfileView,
    snapshot: Seq<MonitorView>,
    mode: MonitorMatchMode,
    planned: PlanView,
    reason: Seq<char>,
    monitors: Seq<MonitorView>,
    k: int,
)
    requires
        told_apart(snapshot),
        snapshot.len() <= usize::MAX,
        plan::is_plan(Ok(planned), profile, snapshot, mode),
        transaction::settled(planned, snapshot, OutcomeView::RolledBack { reason }, monitors),
        0 <= k < snapshot.len(),
    ensures
        monitors.len() == snapshot.len(),
        stands_as_captured(monitors, snapshot[k]),
{
    let (rendered, way_back) = choose|
        rendered: Result<RenderedView, Seq<char>>,
        way_back: Result<plan::WayBack, Seq<char>>,
    |
        #![trigger plan::plan_with(profile, snapshot, mode, rendered, way_back)]
        render::is_rendering(rendered, profile, snapshot, mode) && plan::is_way_back(
            way_back,
            snapshot,
        ) && Ok::<PlanView, Seq<char>>(planned) == plan::plan_with(
            profile,
            snapshot,
            mode,
            rendered,
            way_back,
        );
    let (batch, expected) = way_back->Ok_0;
    law_verified_way_back_is_the_captured_layout(snapshot, batch, expected, monitors, k);
}

// ---------------------------------------------------------------------------
// Layouts that are in force
// ---------------------------------------------------------------------------
/// `found` is set as `output` asks for: on or off, and where it is on, in its
/// place, turned and scaled as asked for, and in the mode.
pub open spec fn set_as(found: MonitorView, output: ProfileOutputView) -> bool {
    &&& found.enabled == output.enabled
    &&& output.enabled ==> {
        &&& found.x == output.x
        &&& found.y == output.y
        &&& found.transform == output.transform
        &&& double::within(found.scale, output.scale, plan::SCALE_TOLERANCE as int)
        &&& modes::mode_mismatch(output.mode, found) is None
    }
}

/// Where a plan would change nothing, the monitor of every output that it sets is
/// set already.
pub proof fn law_nothing_to_do_means_in_place(
    profile: ProfileView,
    current: Seq<MonitorView>,
    mode: MonitorMatchMode,
    planned: PlanView,
    i: int,
)
    requires
        plan::is_plan(Ok(planned), profile, current, mode),
        planned.is_noop,
        0 <= i < planned.mappings.len(),
    ensures
        plan::output_for(profile.outputs, planned.mappings[i].monitor_id) matches Some(output)
            ==> (plan::monitor_on(current, planned.mappings[i].output_name) matches Some(found)
            && set_as(found, output)),
{
    let expected = plan::expected_layout(profile, current, planned.mappings, false);
    assert(expected[i] == plan::mapped_state(profile, current, planned.mappings[i], false));
    lemma_state_found(expected, current, i, expected.len() as int);
}

/// A profile of the connected monitors that asks for one of them to be set otherwise
/// than it is, such as in another place, is not in force.
pub proof fn law_moved_layout_is_not_in_force(
    profile: ProfileView,
    current: Seq<MonitorView>,
    mode: MonitorMatchMode,
    planned: PlanView,
    k: int,
)
    requires
        told_apart(current),
        describes(profile, current),
        current.len() <= usize::MAX,
        plan::is_plan(Ok(planned), profile, current, mode),
        0 <= k < current.len(),
        !set_as(current[k], profile.outputs[k]),
    ensures
        !planned.is_noop,
{
    let (rendered, way_back) = choose|
        rendered: Result<RenderedView, Seq<char>>,
        way_back: Result<plan::WayBack, Seq<char>>,
    |
        #![trigger plan::plan_with(profile, current, mode, rendered, way_back)]
        render::is_rendering(rendered, profile, current, mode) && plan::is_way_back(
            way_back,
            current,
        ) && Ok::<PlanView, Seq<char>>(planned) == plan::plan_with(
            profile,
            current,
            mode,
            rendered,
            way_back,
        );
    lemma_plans_know_all(current, way_back);
    let at = order_of(profile.outputs);
    lemma_order(profile.outputs);
    lemma_rendered_in_order(profile, current, mode, rendered->Ok_0);
    assert(reaches(at, k));
    let i = choose|i: int| 0 <= i < at.len() && #[trigger] at[i] == k;
    assert(planned.mappings[i] == set_by(current[k], profile.outputs[k]));
    assert forall|i: int, j: int| 0 <= i < j < profile.outputs.len() implies (
    #[trigger] profile.outputs[i]).monitor_id != (#[trigger] profile.outputs[j]).monitor_id by {
        assert(current[i].id != current[j].id);
    }
    lemma_output_for(profile.outputs, k);
    lemma_monitor_on(current, k);
    if planned.is_noop {
        law_nothing_to_do_means_in_place(profile, current, mode, planned, i);
    }
}

} // verus!
