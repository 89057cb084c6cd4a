//! A layout that was saved is found again when its monitors are.
use vstd::prelude::*;

use crate::hyprland::monitor;
use crate::hyprland::monitor::{IdentityProvenance, MonitorView};
use crate::number;
use crate::number::{RateView, MAX_UNITS};
use crate::profile::matching;
use crate::profile::matching::{
    DecisionView, MatchConfidence, MonitorMatchMode, ProfileMatch, ProfileMatchView, ResolvedView,
    EXACT_ID_SCORE,
};
use crate::profile::matching_laws;
use crate::profile::store;
use crate::profile::store::{ProfileMonitorView, ProfileView};
use crate::profile::validation;
use crate::sort;
use crate::text;

verus! {

// ---------------------------------------------------------------------------
// The same monitors
// ---------------------------------------------------------------------------
/// `monitor` has an identity that was not taken from a connector.
pub open spec fn identifiable(monitor: MonitorView) -> bool {
    &&& monitor::informative(monitor.id)
    &&& match monitor.provenance() {
        IdentityProvenance::PhysicalSerial => true,
        IdentityProvenance::PhysicalNoSerial => true,
        IdentityProvenance::Description => true,
        _ => false,
    }
}

/// Both are one monitor, whatever it hangs on and however it is set.
pub open spec fn same_monitor(a: MonitorView, b: MonitorView) -> bool {
    &&& a.id == b.id
    &&& a.make == b.make
    &&& a.model == b.model
    &&& a.serial == b.serial
    &&& a.description == b.description
}

/// The monitors of `before` are those of `now`, the one at `i` being the one at
/// `place[i]`; each has an identity of its own that was not taken from a
/// connector.
pub open spec fn reconnected(
    before: Seq<MonitorView>,
    now: Seq<MonitorView>,
    place: Seq<usize>,
) -> bool {
    &&& before.len() == now.len() == place.len()
    &&& forall|i: int| 0 <= i < place.len() ==> #[trigger] place[i] < now.len()
    &&& forall|i: int, j: int|
        0 <= i < j < place.len() ==> #[trigger] place[i] != #[trigger] place[j]
    &&& forall|i: int|
        #![trigger place[i]]
        0 <= i < place.len() ==> identifiable(before[i]) && same_monitor(
            before[i],
            now[place[i] as int],
        )
    &&& forall|i: int, j: int|
        0 <= i < j < now.len() ==> (#[trigger] now[i]).id != (#[trigger] now[j]).id
}

/// Remembered monitors whose identities agree with connected ones, the one at
/// `i` with the one at `place[i]`.
pub open spec fn recognised(
    saved: Seq<ProfileMonitorView>,
    now: Seq<MonitorView>,
    place: Seq<usize>,
) -> bool {
    &&& saved.len() == now.len() == place.len()
    &&& forall|i: int| 0 <= i < place.len() ==> #[trigger] place[i] < now.len()
    &&& forall|i: int, j: int|
        0 <= i < j < place.len() ==> #[trigger] place[i] != #[trigger] place[j]
    &&& forall|i: int|
        #![trigger place[i]]
        0 <= i < place.len() ==> matching::identities_agree(saved[i], now[place[i] as int])
    &&& forall|i: int, j: int|
        0 <= i < j < now.len() ==> (#[trigger] now[i]).id != (#[trigger] now[j]).id
}

proof fn lemma_remembered_monitors_are_recognised(
    name: Seq<char>,
    created_at: Seq<char>,
    updated_at: Seq<char>,
    before: Seq<MonitorView>,
    now: Seq<MonitorView>,
    place: Seq<usize>,
)
    requires
        reconnected(before, now, place),
    ensures
        recognised(
            ProfileView::of_monitors(name, before, created_at, updated_at).monitors,
            now,
            place,
        ),
{
    let saved = ProfileView::of_monitors(name, before, created_at, updated_at).monitors;
    assert forall|i: int| #![trigger place[i]] 0 <= i < place.len() implies matching::identities_agree(
        saved[i],
        now[place[i] as int],
    ) by {
        assert(saved[i] == ProfileMonitorView::of(before[i]));
        assert(place[i] < now.len());
        assert(identifiable(before[i]) && same_monitor(before[i], now[place[i] as int]));
    }
}

// ---------------------------------------------------------------------------
// Pairings
// ---------------------------------------------------------------------------
/// Pairs of which none scores more than `most` and that score `most` each on
/// the whole score `most` each.
proof fn lemma_full_score(found: Seq<Option<ResolvedView>>, n: int, most: int)
    requires
        0 <= n <= found.len(),
        0 < most,
        forall|i: int|
            0 <= i < n ==> (#[trigger] found[i] matches Some(pair) ==> 0 < pair.score <= most),
    ensures
        matching::score_sum(found, n) <= most * n,
        matching::matched_count(found, n) <= n,
        matching::score_sum(found, n) == most * n ==> forall|i: int|
            0 <= i < n ==> (#[trigger] found[i] matches Some(pair) && pair.score == most),
    decreases n,
{
    if n > 0 {
        lemma_full_score(found, n - 1, most);
        assert(most * n == most * (n - 1) + most) by (nonlinear_arith);
        assert(found[n - 1] matches Some(pair) ==> 0 < pair.score <= most);
    } else {
        assert(most * 0 == 0) by (nonlinear_arith);
    }
}

proof fn lemma_exact_pairs_add_up(found: Seq<Option<ResolvedView>>, n: int)
    requires
        0 <= n <= found.len(),
        forall|i: int|
            0 <= i < n ==> (#[trigger] found[i] matches Some(pair) && pair.score == EXACT_ID_SCORE),
    ensures
        matching::score_sum(found, n) == EXACT_ID_SCORE * n,
        matching::matched_count(found, n) == n,
    decreases n,
{
    if n > 0 {
        lemma_exact_pairs_add_up(found, n - 1);
        assert(found[n - 1] is Some);
    }
}

/// Where the identities of remembered and connected monitors agree, every best
/// pairing brings the same monitors together, and no other is as good.
pub proof fn law_recognised_monitors_are_paired(
    saved: Seq<ProfileMonitorView>,
    now: Seq<MonitorView>,
    mode: MonitorMatchMode,
    place: Seq<usize>,
    a: Seq<usize>,
)
    requires
        recognised(saved, now, place),
        matching_laws::weighable(saved.len() as int),
        matching::best_pairing(saved, now, mode, a),
    ensures
        a == place,
        forall|i: int|
            0 <= i < saved.len() ==> #[trigger] matching::partners(saved, now, mode, a)[i] == Some(
                ResolvedView {
                    current_index: place[i] as int,
                    score: EXACT_ID_SCORE as int,
                    reason: "exact monitor id"@,
                    ambiguous: false,
                },
            ),
{
    lemma_recognised_pairing(saved, now, mode, place, a);
    let found = matching::partners(saved, now, mode, a);
    assert forall|i: int| 0 <= i < saved.len() implies #[trigger] found[i] == Some(
        ResolvedView {
            current_index: place[i] as int,
            score: EXACT_ID_SCORE as int,
            reason: "exact monitor id"@,
            ambiguous: false,
        },
    ) by {
        assert(matching::identities_agree(saved[i], now[place[i] as int]));
        if matching::has_alternative(saved, now, mode, a, i) {
            let b = choose|b: Seq<usize>| #[trigger]
                matching::best_pairing(saved, now, mode, b) && b[i] != a[i];
            lemma_recognised_pairing(saved, now, mode, place, b);
        }
    }
}

proof fn lemma_recognised_pairing(
    saved: Seq<ProfileMonitorView>,
    now: Seq<MonitorView>,
    mode: MonitorMatchMode,
    place: Seq<usize>,
    a: Seq<usize>,
)
    requires
        recognised(saved, now, place),
        matching_laws::weighable(saved.len() as int),
        matching::best_pairing(saved, now, mode, a),
    ensures
        a == place,
{
    let n = saved.len() as int;
    let best = matching::partners(saved, now, mode, a);
    let exact = matching::partners(saved, now, mode, place);
    assert forall|i: int| 0 <= i < n implies (#[trigger] exact[i] matches Some(pair) && pair.score
        == EXACT_ID_SCORE) by {
        assert(matching::identities_agree(saved[i], now[place[i] as int]));
        assert(exact[i] == matching::partner(saved, now, mode, place, i));
    }
    lemma_exact_pairs_add_up(exact, n);
    matching_laws::law_best_pairing_is_best(saved, now, mode, a, place);
    assert forall|i: int| 0 <= i < n implies (#[trigger] best[i] matches Some(pair) ==> 0
        < pair.score <= EXACT_ID_SCORE) by {
        assert(best[i] == matching::partner(saved, now, mode, a, i));
    }
    lemma_full_score(best, n, EXACT_ID_SCORE as int);
    assert forall|i: int| 0 <= i < n implies a[i] == place[i] by {
        assert(best[i] matches Some(pair) && pair.score == EXACT_ID_SCORE);
        assert(best[i] == matching::partner(saved, now, mode, a, i));
        assert(matching::identities_agree(saved[i], now[a[i] as int]));
        assert(matching::identities_agree(saved[i], now[place[i] as int]));
        assert(now[a[i] as int].id == now[place[i] as int].id);
    }
    assert(a =~= place);
}

// ---------------------------------------------------------------------------
// Matches and decisions
// ---------------------------------------------------------------------------
proof fn lemma_recognised_profiles_match_exactly(
    profile: ProfileView,
    now: Seq<MonitorView>,
    place: Seq<usize>,
    m: ProfileMatchView,
)
    requires
        recognised(profile.monitors, now, place),
        matching_laws::weighable(profile.monitors.len() as int),
        now.len() > 0,
        matching::is_match(m, profile, now),
    ensures
        m.confidence == MatchConfidence::Exact,
        m.score == EXACT_ID_SCORE * now.len(),
        m.matched_monitors == now.len(),
{
    let mode = MonitorMatchMode::Automatic;
    let saved = profile.monitors;
    let a = choose|a: Seq<usize>| #[trigger]
        matching::best_pairing(saved, now, mode, a) && m == matching::match_with(
            profile,
            now,
            matching::partners(saved, now, mode, a),
        );
    let found = matching::partners(saved, now, mode, a);
    law_recognised_monitors_are_paired(saved, now, mode, place, a);
    assert forall|i: int| 0 <= i < found.len() implies (#[trigger] found[i] matches Some(pair)
        && pair.score == EXACT_ID_SCORE && !pair.ambiguous) by {}
    lemma_exact_pairs_add_up(found, found.len() as int);
    assert(matching::all_score(found, EXACT_ID_SCORE as int));
    assert(!matching::any_ambiguous(found));
}

/// A profile that was saved matches its monitors exactly when they are
/// connected again, on whatever connectors, in whatever order and however they
/// are set by then.
pub proof fn law_saved_monitors_match_exactly(
    name: Seq<char>,
    created_at: Seq<char>,
    updated_at: Seq<char>,
    before: Seq<MonitorView>,
    now: Seq<MonitorView>,
    place: Seq<usize>,
    m: ProfileMatchView,
)
    requires
        reconnected(before, now, place),
        matching_laws::weighable(before.len() as int),
        now.len() > 0,
        matching::is_match(
            m,
            ProfileView::of_monitors(name, before, created_at, updated_at),
            now,
        ),
    ensures
        m.confidence == MatchConfidence::Exact,
        m.score == EXACT_ID_SCORE * now.len(),
        m.matched_monitors == now.len(),
{
    lemma_remembered_monitors_are_recognised(name, created_at, updated_at, before, now, place);
    lemma_recognised_profiles_match_exactly(
        ProfileView::of_monitors(name, before, created_at, updated_at),
        now,
        place,
        m,
    );
}

/// Some other profile than the one at `k` matches `now` exactly.
pub open spec fn has_rival(profiles: Seq<ProfileView>, now: Seq<MonitorView>, k: int) -> bool {
    exists|j: int, m: ProfileMatchView|
        0 <= j < profiles.len() && j != k && #[trigger] matching::is_match(m, profiles[j], now)
            && m.confidence == MatchConfidence::Exact
}

/// The profile that was saved from the connected monitors is the one that is
/// chosen for them, whatever the fallback, unless another matches exactly too.
pub proof fn law_saved_layout_is_chosen_again(
    profiles: Seq<ProfileView>,
    k: int,
    before: Seq<MonitorView>,
    now: Seq<MonitorView>,
    place: Seq<usize>,
    fallback: Option<Seq<char>>,
    decided: DecisionView,
)
    requires
        0 <= k < profiles.len(),
        profiles[k] == ProfileView::of_monitors(
            profiles[k].name,
            before,
            profiles[k].created_at,
            profiles[k].updated_at,
        ),
        reconnected(before, now, place),
        matching_laws::weighable(before.len() as int),
        now.len() > 0,
        !has_rival(profiles, now, k),
        matching::is_decision(decided, profiles, now, fallback),
    ensures
        decided.profile_name() == Some(profiles[k].name),
        decided matches DecisionView::Apply { confidence, .. } && confidence == "exact"@,
{
    broadcast use vstd::seq_lib::group_to_multiset_ensures;

    let matches = choose|matches: Seq<ProfileMatchView>| #[trigger]
        matching::are_matches(matches, profiles, now) && decided == matching::decision(
            profiles,
            matching::best_of(sort::sorted::<ProfileMatch>(matches)),
            fallback,
        );
    let candidates = sort::sorted::<ProfileMatch>(matches);
    let m = matches[k];
    assert(matching::is_match(m, profiles[k], now));
    law_saved_monitors_match_exactly(
        profiles[k].name,
        profiles[k].created_at,
        profiles[k].updated_at,
        before,
        now,
        place,
        m,
    );
    assert forall|j: int| 0 <= j < matches.len() && j != k implies (#[trigger] matches[j]).confidence
        != MatchConfidence::Exact by {
        assert(matching::is_match(matches[j], profiles[j], now));
    }
    matching_laws::law_front_candidate_is_best(profiles, now, matches);
    assert(!<ProfileMatch as sort::Ranked>::ahead(m, candidates[0]));
    assert(candidates[0].confidence == MatchConfidence::Exact);
    assert(matches.contains(candidates[0]));
    assert(candidates[0] == m);
    assert forall|i: int| 1 <= i < candidates.len() implies !matching::tie(
        candidates[0],
        #[trigger] candidates[i],
    ) by {
        assert(matches.contains(candidates[i]));
        if candidates[i].confidence == MatchConfidence::Exact {
            assert(candidates[i] == m);
            matching_laws::lemma_candidates_rank();
            sort::law_sorted::<ProfileMatch>(matches);
            assert(candidates.remove(0)[i - 1] == m);
            assert(candidates.remove(0).contains(m));
            assert(candidates.remove(0).to_multiset() =~= candidates.to_multiset().remove(m));
            assert(matches.remove(k).to_multiset() =~= matches.to_multiset().remove(m));
            assert(matches.remove(k).to_multiset().count(m) > 0);
            assert(matches.remove(k).contains(m));
            let j = choose|j: int| 0 <= j < matches.remove(k).len() && matches.remove(k)[j] == m;
            let original = if j < k {
                j
            } else {
                j + 1
            };
            assert(matches[original] == m);
        }
    }
    assert(!matching::undecided(candidates));
}

// ---------------------------------------------------------------------------
// Modes
// ---------------------------------------------------------------------------
/// A mode that was written down is read as one of the same size and, but for
/// little more than half a thousandth, the same rate.
pub proof fn law_written_modes_read_back(width: int, height: int, refresh_rate: int)
    requires
        i32::MIN <= width <= i32::MAX,
        i32::MIN <= height <= i32::MAX,
        -MAX_UNITS <= refresh_rate <= MAX_UNITS,
    ensures
        validation::parsed_mode(store::mode_text(width, height, refresh_rate)) matches Some(mode)
            && mode.0 == width && mode.1 == height && (mode.2 matches RateView::Finite(rate)
            && number::within(refresh_rate, rate, 510_000_000_000_000)),
{
    let w = text::int_text(width);
    let h = text::int_text(height);
    let r = number::short_decimal_text(refresh_rate);
    let dimensions = w + seq!['x'] + h;
    let mode = store::mode_text(width, height, refresh_rate);
    number::law_written_integers_read_back(width);
    number::law_written_integers_read_back(height);
    number::law_short_decimals_read_back(refresh_rate);
    assert(mode =~= dimensions + seq!['@'] + r) by {
        reveal_strlit("x");
        reveal_strlit("@");
    }
    assert(!w.contains('x') && !w.contains('@') && !h.contains('@'));
    assert(!dimensions.contains('@')) by {
        assert forall|i: int| 0 <= i < dimensions.len() implies dimensions[i] != '@' by {
            if i < w.len() {
                assert(dimensions[i] == w[i]);
            } else if i > w.len() {
                assert(dimensions[i] == h[i - w.len() - 1]);
            }
        }
    }
    assert(text::without_suffix(mode, "Hz"@) == mode) by {
        reveal_strlit("Hz");
        assert(mode.last() == r.last());
        if text::ends(mode, "Hz"@) {
            assert(mode.skip(mode.len() - 2)[1] == 'z');
            assert(mode.skip(mode.len() - 2)[1] == mode.last());
        }
    }
    text::law_split_at_first(dimensions, '@', r);
    text::law_split_at_first(w, 'x', h);
}

} // verus!
