//! Which profile is chosen for the connected monitors.
use vstd::prelude::*;

use crate::assignment;
use crate::hyprland::monitor::MonitorView;
use crate::profile::matching;
use crate::profile::matching::{
    DecisionView, MonitorMatchMode, ProfileMatch, ProfileMatchView, ResolvedView,
};
use crate::profile::matching_laws;
use crate::profile::pair_laws;
use crate::profile::store::{ProfileMonitorView, ProfileView};
use crate::sort;
use crate::text;

verus! {

// ---------------------------------------------------------------------------
// Confidence
// ---------------------------------------------------------------------------
/// A profile matches exactly where every remembered monitor has a partner of 100
/// points, and confidently where every one has a partner of at least 60, as many
/// monitors being connected as are remembered and no partner being ambiguous. It is
/// ambiguous where a partner is, and unmatched where there is no partner at all.
pub proof fn law_confidence_is_earned(found: Seq<Option<ResolvedView>>, connected: int)
    ensures
        ({
            let confidence = matching::confidence_of(found, connected);
            let complete = found.len() > 0 && found.len() == connected && forall|i: int|
                0 <= i < found.len() ==> (#[trigger] found[i] matches Some(pair)
                    && !pair.ambiguous);
            let least = |least: int|
                forall|i: int|
                    0 <= i < found.len() ==> (#[trigger] found[i] matches Some(pair) && pair.score
                        >= least);
            &&& confidence is Exact <==> complete && least(100)
            &&& confidence is High <==> complete && least(60) && !least(100)
            &&& confidence is Ambiguous <==> exists|i: int|
                0 <= i < found.len() && (#[trigger] found[i] matches Some(pair) && pair.ambiguous)
            &&& confidence is Unmatched <==> forall|i: int|
                0 <= i < found.len() ==> #[trigger] found[i] is None
        }),
{
    let n = found.len() as int;
    lemma_count_bounds(found, n);
    if n > 0 && matching::matched_count(found, n) == 0 {
        assert(found[0] is None);
    }
}

proof fn lemma_count_bounds(found: Seq<Option<ResolvedView>>, n: int)
    requires
        0 <= n <= found.len(),
    ensures
        0 <= matching::matched_count(found, n) <= n,
        matching::matched_count(found, n) == 0 <==> forall|i: int|
            0 <= i < n ==> #[trigger] found[i] is None,
    decreases n,
{
    if n > 0 {
        lemma_count_bounds(found, n - 1);
        if forall|i: int| 0 <= i < n ==> #[trigger] found[i] is None {
            assert(found[n - 1] is None);
        }
    }
}

proof fn lemma_added_partner(found: Seq<Option<ResolvedView>>, i: int, pair: ResolvedView, n: int)
    requires
        0 <= i < found.len(),
        0 <= n <= found.len(),
        found[i] is None,
    ensures
        ({
            let more = found.update(i, Some(pair));
            let (points, one): (int, int) = if i < n {
                (pair.score, 1)
            } else {
                (0, 0)
            };
            &&& matching::score_sum(more, n) == matching::score_sum(found, n) + points
            &&& matching::matched_count(more, n) == matching::matched_count(found, n) + one
        }),
    decreases n,
{
    if n > 0 {
        lemma_added_partner(found, i, pair, n - 1);
    }
}

/// A match without partners scores nothing; every partner adds its own points, and
/// counts as one monitor more.
pub proof fn law_scores_add_up(found: Seq<Option<ResolvedView>>, i: int, pair: ResolvedView)
    requires
        0 <= i < found.len(),
        found[i] is None,
    ensures
        ({
            let n = found.len() as int;
            let more = found.update(i, Some(pair));
            &&& matching::score_sum(more, n) == matching::score_sum(found, n) + pair.score
            &&& matching::matched_count(more, n) == matching::matched_count(found, n) + 1
            &&& (forall|j: int| 0 <= j < n ==> #[trigger] found[j] is None) ==> matching::score_sum(
                found,
                n,
            ) == 0 && matching::matched_count(found, n) == 0
        }),
{
    let n = found.len() as int;
    lemma_added_partner(found, i, pair, n);
    lemma_count_bounds(found, n);
    if forall|j: int| 0 <= j < n ==> #[trigger] found[j] is None {
        lemma_nothing_scores(found, n);
    }
}

proof fn lemma_nothing_scores(found: Seq<Option<ResolvedView>>, n: int)
    requires
        0 <= n <= found.len(),
        forall|j: int| 0 <= j < n ==> #[trigger] found[j] is None,
    ensures
        matching::score_sum(found, n) == 0,
    decreases n,
{
    if n > 0 {
        lemma_nothing_scores(found, n - 1);
        assert(found[n - 1] is None);
    }
}

/// A match is of the profile whose name it has, counts what the profile remembers and
/// what is connected, and says something of the whole and of every remembered monitor.
pub proof fn law_matches_are_of_their_profile(
    m: ProfileMatchView,
    profile: ProfileView,
    current: Seq<MonitorView>,
)
    requires
        matching::is_match(m, profile, current),
    ensures
        m.profile_name == profile.name,
        m.profile_monitors == profile.monitors.len(),
        m.current_monitors == current.len(),
        m.reasons.len() == profile.monitors.len() + 1,
        0 <= m.matched_monitors <= profile.monitors.len(),
        m.confidence is Unmatched <==> m.matched_monitors == 0,
        m.confidence is Exact || m.confidence is High ==> m.matched_monitors == current.len()
            && current.len() == profile.monitors.len(),
{
    let a = choose|a: Seq<usize>| #[trigger]
        matching::best_pairing(profile.monitors, current, MonitorMatchMode::Automatic, a) && m
            == matching::match_with(
            profile,
            current,
            matching::partners(profile.monitors, current, MonitorMatchMode::Automatic, a),
        );
    let found = matching::partners(profile.monitors, current, MonitorMatchMode::Automatic, a);
    lemma_count_bounds(found, found.len() as int);
    law_confidence_is_earned(found, current.len() as int);
    if m.confidence.eligible() {
        matching_laws::law_eligible_matches_are_complete(profile, current, a);
    }
}

// ---------------------------------------------------------------------------
// The order of candidates
// ---------------------------------------------------------------------------
/// An exact match goes before every other, a confident one before all that are
/// neither, an ambiguous one before those that are incomplete, and these before those
/// that do not match. Of two that are as confident the one with the higher score goes
/// first; of these the one with more monitors; of these the one whose name does.
pub proof fn law_order_of_candidates(a: ProfileMatchView, b: ProfileMatchView)
    ensures
        ({
            let first = <ProfileMatch as sort::Ranked>::ahead(a, b);
            let second = <ProfileMatch as sort::Ranked>::ahead(b, a);
            &&& !(first && second)
            &&& a.confidence is Exact && !(b.confidence is Exact) ==> first
            &&& a.confidence is High && !(b.confidence is Exact || b.confidence is High) ==> first
            &&& a.confidence is Ambiguous && (b.confidence is Partial || b.confidence is Unmatched)
                ==> first
            &&& a.confidence is Partial && b.confidence is Unmatched ==> first
            &&& a.confidence == b.confidence && a.score > b.score ==> first
            &&& a.confidence == b.confidence && a.score == b.score && a.matched_monitors
                > b.matched_monitors ==> first
            &&& a.confidence == b.confidence && a.score == b.score && a.matched_monitors
                == b.matched_monitors ==> first == text::precedes(a.profile_name, b.profile_name)
        }),
{
    text::lemma_precedes_order(a.profile_name, b.profile_name, a.profile_name);
}

proof fn lemma_candidates(
    profiles: Seq<ProfileView>,
    current: Seq<MonitorView>,
    matches: Seq<ProfileMatchView>,
)
    requires
        matching::are_matches(matches, profiles, current),
    ensures
        ({
            let candidates = sort::sorted::<ProfileMatch>(matches);
            &&& candidates.len() == matches.len()
            &&& forall|k: int|
                0 <= k < matches.len() ==> candidates.contains(#[trigger] matches[k])
            &&& forall|i: int|
                0 <= i < candidates.len() ==> matches.contains(#[trigger] candidates[i])
            &&& matches.len() > 0 ==> forall|k: int|
                0 <= k < matches.len() ==> !<ProfileMatch as sort::Ranked>::ahead(
                    #[trigger] matches[k],
                    candidates[0],
                )
        }),
{
    let candidates = sort::sorted::<ProfileMatch>(matches);
    sort::law_sorted::<ProfileMatch>(matches);
    if matches.len() > 0 {
        matching_laws::law_front_candidate_is_best(profiles, current, matches);
    }
    assert forall|k: int| 0 <= k < matches.len() implies candidates.contains(
        #[trigger] matches[k],
    ) by {
        matches.to_multiset_ensures();
        candidates.to_multiset_ensures();
        assert(matches.contains(matches[k]));
        assert(matches.to_multiset().count(matches[k]) > 0);
    }
}

/// Candidates in order are undecided exactly where the first is ambiguous, or another has
/// its confidence, its score and as many monitors, and they match at all. The first is
/// selected exactly where they are not and it matches at all.
pub proof fn law_choice_among_candidates(candidates: Seq<ProfileMatchView>)
    ensures
        ({
            let best = matching::best_of(candidates);
            &&& best.candidates == candidates
            &&& best.ambiguous <==> candidates.len() > 0 && (candidates[0].confidence is Ambiguous
                || exists|i: int|
                1 <= i < candidates.len() && (#[trigger] candidates[i]).confidence
                    == candidates[0].confidence && candidates[i].score == candidates[0].score
                    && candidates[i].matched_monitors == candidates[0].matched_monitors
                    && !(candidates[0].confidence is Unmatched))
            &&& best.selected is Some <==> candidates.len() > 0 && !best.ambiguous && !(
            candidates[0].confidence is Unmatched)
            &&& best.selected matches Some(selected) ==> selected == candidates[0]
        }),
{
    if candidates.len() > 0 && exists|i: int|
        1 <= i < candidates.len() && (#[trigger] candidates[i]).confidence
            == candidates[0].confidence && candidates[i].score == candidates[0].score
            && candidates[i].matched_monitors == candidates[0].matched_monitors && !(
        candidates[0].confidence is Unmatched) {
        let i = choose|i: int|
            1 <= i < candidates.len() && (#[trigger] candidates[i]).confidence
                == candidates[0].confidence && candidates[i].score == candidates[0].score
                && candidates[i].matched_monitors == candidates[0].matched_monitors && !(
            candidates[0].confidence is Unmatched);
        assert(matching::tie(candidates[0], candidates[i]));
    }
    if candidates.len() > 0 && exists|i: int|
        1 <= i < candidates.len() && matching::tie(candidates[0], #[trigger] candidates[i]) {
        let i = choose|i: int|
            1 <= i < candidates.len() && matching::tie(candidates[0], #[trigger] candidates[i]);
        assert(candidates[i].confidence == candidates[0].confidence);
    }
}

/// Where a remembered monitor has a partner, and another connected monitor that is
/// nobody's partner would do as well, the partner is ambiguous.
pub proof fn law_lookalikes_are_ambiguous(
    saved: Seq<ProfileMonitorView>,
    current: Seq<MonitorView>,
    a: Seq<usize>,
    i: int,
    k: usize,
)
    requires
        saved.len() + current.len() <= usize::MAX,
        matching::best_pairing(saved, current, MonitorMatchMode::Automatic, a),
        0 <= i < saved.len(),
        a[i] < current.len(),
        matching::pair_score(saved[i], current[a[i] as int]) > 0,
        k < current.len(),
        forall|m: int| 0 <= m < saved.len() ==> #[trigger] a[m] != k,
        matching::pair_score(saved[i], current[k as int]) == matching::pair_score(
            saved[i],
            current[a[i] as int],
        ),
    ensures
        matching::partners(saved, current, MonitorMatchMode::Automatic, a)[i]
            matches Some(pair) && pair.ambiguous,
{
    let mode = MonitorMatchMode::Automatic;
    let w = matching::weights(saved, current, mode);
    let b = a.update(i, k);
    let columns = (current.len() + saved.len()) as nat;
    assert(w.len() == saved.len());
    assert(assignment::is_assignment(b, w.len(), columns)) by {
        assert forall|x: int, y: int| 0 <= x < y < w.len() implies #[trigger] b[x]
            != #[trigger] b[y] by {
            assert(a[x] != a[y]);
        }
    }
    assignment::lemma_total_gain_update(w, None, a, i, k);
    assert(w[i][k as int] == matching::cell(saved, current, mode, i, k as int));
    assert(w[i][a[i] as int] == matching::cell(saved, current, mode, i, a[i] as int));
    assert(matching::best_pairing(saved, current, mode, b));
    assert(b[i] != a[i]);
}

/// Where some stored profile matches exactly or confidently, so does the candidate in
/// front; where one matches exactly, the one in front does.
pub proof fn law_good_matches_stand_in_front(
    profiles: Seq<ProfileView>,
    current: Seq<MonitorView>,
    matches: Seq<ProfileMatchView>,
    k: int,
)
    requires
        matching::are_matches(matches, profiles, current),
        0 <= k < matches.len(),
        matches[k].confidence is Exact || matches[k].confidence is High,
    ensures
        ({
            let front = sort::sorted::<ProfileMatch>(matches)[0];
            &&& front.confidence is Exact || front.confidence is High
            &&& matches[k].confidence is Exact ==> front.confidence is Exact
            &&& front.confidence == matches[k].confidence ==> front.score >= matches[k].score
        }),
{
    lemma_candidates(profiles, current, matches);
    law_order_of_candidates(matches[k], sort::sorted::<ProfileMatch>(matches)[0]);
}

// ---------------------------------------------------------------------------
// The decision
// ---------------------------------------------------------------------------
/// The one profile that matches exactly or confidently is applied, whatever else
/// matches in part or ambiguously and whatever the fallback.
pub proof fn law_only_good_match_is_applied(
    profiles: Seq<ProfileView>,
    current: Seq<MonitorView>,
    fallback: Option<Seq<char>>,
    decided: DecisionView,
    k: int,
)
    requires
        matching::is_decision(decided, profiles, current, fallback),
        0 <= k < profiles.len(),
        forall|m: ProfileMatchView| #[trigger]
            matching::is_match(m, profiles[k], current) ==> m.confidence is Exact || m.confidence
                is High,
        forall|i: int, m: ProfileMatchView|
            0 <= i < profiles.len() && i != k && #[trigger] matching::is_match(
                m,
                profiles[i],
                current,
            ) ==> !(m.confidence is Exact || m.confidence is High),
    ensures
        decided matches DecisionView::Apply { profile_name, confidence, .. } && profile_name
            == profiles[k].name && (confidence == "exact"@ || confidence == "high"@),
{
    let matches = choose|matches: Seq<ProfileMatchView>| #[trigger]
        matching::are_matches(matches, profiles, current) && decided == matching::decision(
            profiles,
            matching::best_of(sort::sorted::<ProfileMatch>(matches)),
            fallback,
        );
    let candidates = sort::sorted::<ProfileMatch>(matches);
    lemma_candidates(profiles, current, matches);
    law_good_matches_stand_in_front(profiles, current, matches, k);
    let front = candidates[0];
    let at = choose|i: int| 0 <= i < matches.len() && #[trigger] matches[i] == front;
    assert(matches.contains(front));
    assert(matching::is_match(matches[at], profiles[at], current));
    assert(at == k);
    law_matches_are_of_their_profile(matches[k], profiles[k], current);
    // No other candidate is as good, and the profile has one entry.
    if matching::undecided(candidates) {
        let i = choose|i: int|
            1 <= i < candidates.len() && matching::tie(candidates[0], #[trigger] candidates[i]);
        lemma_equal_candidates(matches, candidates, i);
    }
}

/// Two places of the sorted list stand for two places of the list.
proof fn lemma_equal_candidates(
    matches: Seq<ProfileMatchView>,
    candidates: Seq<ProfileMatchView>,
    i: int,
)
    requires
        candidates == sort::sorted::<ProfileMatch>(matches),
        1 <= i < candidates.len(),
    ensures
        exists|p: int, q: int|
            0 <= p < matches.len() && 0 <= q < matches.len() && p != q && #[trigger] matches[p]
                == candidates[0] && #[trigger] matches[q] == candidates[i],
{
    broadcast use vstd::multiset::group_multiset_axioms;

    sort::law_sorted::<ProfileMatch>(matches);
    matches.to_multiset_ensures();
    candidates.to_multiset_ensures();
    let x = candidates[0];
    let y = candidates[i];
    assert(candidates.contains(x) && candidates.contains(y));
    assert(candidates.to_multiset().count(x) > 0 && candidates.to_multiset().count(y) > 0);
    assert(matches.contains(x) && matches.contains(y));
    let p = choose|p: int| 0 <= p < matches.len() && matches[p] == x;
    if x != y {
        let q = choose|q: int| 0 <= q < matches.len() && matches[q] == y;
        assert(matches[p] == x && matches[q] == y);
    } else {
        let rest = candidates.remove(0);
        vstd::seq_lib::to_multiset_remove(candidates, 0);
        rest.to_multiset_ensures();
        assert(rest[i - 1] == x);
        assert(rest.contains(x));
        assert(rest.to_multiset().count(x) > 0);
        assert(candidates.to_multiset().count(x) >= 2);
        let others = matches.remove(p);
        vstd::seq_lib::to_multiset_remove(matches, p);
        others.to_multiset_ensures();
        assert(others.to_multiset().count(x) >= 1);
        assert(others.contains(x));
        let r = choose|r: int| 0 <= r < others.len() && others[r] == x;
        let q = if r < p {
            r
        } else {
            r + 1
        };
        assert(matches[q] == x);
        assert(matches[p] == x);
    }
}

/// Where a profile matches ambiguously and none matches exactly or confidently,
/// nothing is applied, not even the fallback.
pub proof fn law_ambiguous_match_blocks_the_fallback(
    profiles: Seq<ProfileView>,
    current: Seq<MonitorView>,
    fallback: Option<Seq<char>>,
    decided: DecisionView,
    k: int,
)
    requires
        matching::is_decision(decided, profiles, current, fallback),
        0 <= k < profiles.len(),
        forall|m: ProfileMatchView| #[trigger]
            matching::is_match(m, profiles[k], current) ==> m.confidence is Ambiguous,
        forall|i: int, m: ProfileMatchView|
            0 <= i < profiles.len() && #[trigger] matching::is_match(m, profiles[i], current)
                ==> !(m.confidence is Exact || m.confidence is High),
    ensures
        decided is Ambiguous,
{
    let matches = choose|matches: Seq<ProfileMatchView>| #[trigger]
        matching::are_matches(matches, profiles, current) && decided == matching::decision(
            profiles,
            matching::best_of(sort::sorted::<ProfileMatch>(matches)),
            fallback,
        );
    let candidates = sort::sorted::<ProfileMatch>(matches);
    lemma_candidates(profiles, current, matches);
    assert(matching::is_match(matches[k], profiles[k], current));
    let front = candidates[0];
    assert(matches.contains(front));
    let at = choose|i: int| 0 <= i < matches.len() && #[trigger] matches[i] == front;
    assert(matching::is_match(matches[at], profiles[at], current));
    law_order_of_candidates(matches[k], front);
}

/// Where two profiles of different names match equally well, exactly or confidently,
/// and none matches better, nothing is applied.
pub proof fn law_equally_good_profiles_apply_nothing(
    profiles: Seq<ProfileView>,
    current: Seq<MonitorView>,
    matches: Seq<ProfileMatchView>,
    fallback: Option<Seq<char>>,
    i: int,
    j: int,
)
    requires
        matching::are_matches(matches, profiles, current),
        0 <= i < profiles.len(),
        0 <= j < profiles.len(),
        profiles[i].name != profiles[j].name,
        matches[i].confidence is Exact || matches[i].confidence is High,
        matches[j].confidence == matches[i].confidence,
        matches[j].score == matches[i].score,
        matches[j].matched_monitors == matches[i].matched_monitors,
        forall|k: int|
            0 <= k < matches.len() && ((#[trigger] matches[k]).confidence is Exact
                || matches[k].confidence is High) ==> matches[k].confidence
                == matches[i].confidence && matches[k].score <= matches[i].score
                && matches[k].matched_monitors <= matches[i].matched_monitors,
    ensures
        matching::decision(
            profiles,
            matching::best_of(sort::sorted::<ProfileMatch>(matches)),
            fallback,
        ) is Ambiguous,
{
    let candidates = sort::sorted::<ProfileMatch>(matches);
    lemma_candidates(profiles, current, matches);
    law_good_matches_stand_in_front(profiles, current, matches, i);
    let front = candidates[0];
    assert(matches.contains(front));
    let at = choose|k: int| 0 <= k < matches.len() && #[trigger] matches[k] == front;
    law_order_of_candidates(matches[i], front);
    assert(matching::is_match(matches[i], profiles[i], current));
    assert(matching::is_match(matches[j], profiles[j], current));
    law_matches_are_of_their_profile(matches[i], profiles[i], current);
    law_matches_are_of_their_profile(matches[j], profiles[j], current);
    let rival = if matches[i].profile_name != front.profile_name {
        matches[i]
    } else {
        matches[j]
    };
    assert(candidates.contains(matches[i]) && candidates.contains(matches[j]));
    let p = choose|p: int| 0 <= p < candidates.len() && candidates[p] == rival;
    assert(p != 0);
    assert(matching::tie(candidates[0], candidates[p]));
}

/// Where at most one profile matches at all, and that in part, the fallback is applied
/// if it is stored; nothing is where it is not, or where there is none.
pub proof fn law_fallback_stands_in(
    profiles: Seq<ProfileView>,
    current: Seq<MonitorView>,
    fallback: Option<Seq<char>>,
    decided: DecisionView,
    k: int,
)
    requires
        matching::is_decision(decided, profiles, current, fallback),
        0 <= k < profiles.len(),
        forall|m: ProfileMatchView| #[trigger]
            matching::is_match(m, profiles[k], current) ==> m.confidence is Partial || m.confidence
                is Unmatched,
        forall|i: int, m: ProfileMatchView|
            0 <= i < profiles.len() && i != k && #[trigger] matching::is_match(
                m,
                profiles[i],
                current,
            ) ==> m.confidence is Unmatched,
    ensures
        match fallback {
            Some(name) if text::trimmed(name).len() > 0 => if exists|i: int|
                0 <= i < profiles.len() && (#[trigger] profiles[i]).name == text::trimmed(name) {
                decided matches DecisionView::Apply { profile_name, confidence, .. } && profile_name
                    == text::trimmed(name) && confidence == "fallback"@
            } else {
                decided == DecisionView::MissingFallback { profile_name: text::trimmed(name) }
            },
            _ => decided is NotEligible || decided is NoMatch,
        },
{
    let matches = choose|matches: Seq<ProfileMatchView>| #[trigger]
        matching::are_matches(matches, profiles, current) && decided == matching::decision(
            profiles,
            matching::best_of(sort::sorted::<ProfileMatch>(matches)),
            fallback,
        );
    let candidates = sort::sorted::<ProfileMatch>(matches);
    lemma_candidates(profiles, current, matches);
    let front = candidates[0];
    assert(matches.contains(front));
    let at = choose|i: int| 0 <= i < matches.len() && #[trigger] matches[i] == front;
    assert(matching::is_match(matches[at], profiles[at], current));
    assert(matching::is_match(matches[k], profiles[k], current));
    if matching::undecided(candidates) {
        let i = choose|i: int|
            1 <= i < candidates.len() && matching::tie(candidates[0], #[trigger] candidates[i]);
        lemma_equal_candidates(matches, candidates, i);
        let (p, q) = choose|p: int, q: int|
            0 <= p < matches.len() && 0 <= q < matches.len() && p != q && #[trigger] matches[p]
                == candidates[0] && #[trigger] matches[q] == candidates[i];
        assert(matching::is_match(matches[p], profiles[p], current));
        assert(matching::is_match(matches[q], profiles[q], current));
    }
}

/// A profile that is applied by itself, and not as the fallback, remembers as many
/// monitors as are connected. They are paired one to one, and each pair has one
/// identity, one make, model and serial, or one description.
pub proof fn law_applied_profiles_fit_the_monitors(
    profiles: Seq<ProfileView>,
    current: Seq<MonitorView>,
    fallback: Option<Seq<char>>,
    decided: DecisionView,
    name: Seq<char>,
)
    requires
        matching::is_decision(decided, profiles, current, fallback),
        decided.profile_name() == Some(name),
    ensures
        exists|k: int|
            0 <= k < profiles.len() && (#[trigger] profiles[k]).name == name && (fits_one_to_one(
                profiles[k],
                current,
            ) || (fallback matches Some(named) && text::trimmed(named) == name)),
{
    reveal_strlit("fallback");
    reveal_strlit("exact");
    reveal_strlit("high");
    let matches = choose|matches: Seq<ProfileMatchView>| #[trigger]
        matching::are_matches(matches, profiles, current) && decided == matching::decision(
            profiles,
            matching::best_of(sort::sorted::<ProfileMatch>(matches)),
            fallback,
        );
    let candidates = sort::sorted::<ProfileMatch>(matches);
    let best = matching::best_of(candidates);
    lemma_candidates(profiles, current, matches);
    if best.selected matches Some(selected) && selected.confidence.eligible() {
        let front = candidates[0];
        assert(matches.contains(front));
        let at = choose|i: int| 0 <= i < matches.len() && #[trigger] matches[i] == front;
        let m = matches[at];
        let profile = profiles[at];
        assert(matching::is_match(m, profile, current));
        law_matches_are_of_their_profile(m, profile, current);
        let a = choose|a: Seq<usize>| #[trigger]
            matching::best_pairing(profile.monitors, current, MonitorMatchMode::Automatic, a) && m
                == matching::match_with(
                profile,
                current,
                matching::partners(profile.monitors, current, MonitorMatchMode::Automatic, a),
            );
        matching_laws::law_eligible_matches_are_complete(profile, current, a);
        assert forall|i: int|
            #![trigger a[i]]
            0 <= i < profile.monitors.len() implies a[i] < current.len() && have_physical_trait(
            profile,
            current,
            i,
            a[i] as int,
        ) by {
            pair_laws::law_scores_are_earned(profile.monitors[i], current[a[i] as int]);
        }
        assert forall|i: int, j: int| 0 <= i < j < a.len() implies #[trigger] a[i]
            != #[trigger] a[j] by {}
        assert(pairs_one_to_one(profile, current, a));
    }
}

/// The remembered monitor `i` and the connected one `j` have an identity, a make,
/// model and serial, or a description in common.
pub open spec fn have_physical_trait(
    profile: ProfileView,
    current: Seq<MonitorView>,
    i: int,
    j: int,
) -> bool {
    let saved = profile.monitors[i];
    let now = current[j];
    ||| saved.id == now.id
    ||| saved.make == now.make && saved.model == now.model && saved.serial == now.serial
    ||| saved.description == now.description
}

/// `a` brings the remembered and the connected monitors together, one to one.
pub open spec fn pairs_one_to_one(
    profile: ProfileView,
    current: Seq<MonitorView>,
    a: Seq<usize>,
) -> bool {
    &&& a.len() == profile.monitors.len() == current.len()
    &&& forall|i: int|
        #![trigger a[i]]
        0 <= i < a.len() ==> a[i] < current.len() && have_physical_trait(
            profile,
            current,
            i,
            a[i] as int,
        )
    &&& forall|i: int, j: int| 0 <= i < j < a.len() ==> #[trigger] a[i] != #[trigger] a[j]
}

/// The remembered and the connected monitors can be brought together one to one, each
/// pair with a physical trait in common.
pub open spec fn fits_one_to_one(profile: ProfileView, current: Seq<MonitorView>) -> bool {
    exists|a: Seq<usize>| #[trigger] pairs_one_to_one(profile, current, a)
}

} // verus!
