//! What holds of every match.
use vstd::prelude::*;

use crate::assignment;
use crate::hyprland::monitor::{IdentityProvenance, MonitorView};
use crate::profile::matching;
use crate::profile::matching::{
    BestMatchView, DecisionView, MonitorMatchMode, ProfileMatch, ProfileMatchView, ResolvedView,
    HIGH_CONFIDENCE_PAIR_SCORE,
};
use crate::profile::store;
use crate::profile::store::{ProfileMonitorView, ProfileView};
use crate::sort;

verus! {

// ---------------------------------------------------------------------------
// Pairs
// ---------------------------------------------------------------------------
/// A pair that counts as confident agrees in more than its connector: in an
/// identity with fields that bear it out, in make, model and serial, or in the
/// description.
pub proof fn law_confident_pairs_agree(saved: ProfileMonitorView, current: MonitorView)
    ensures
        matching::pair_score(saved, current) >= HIGH_CONFIDENCE_PAIR_SCORE <==> {
            ||| matching::identities_agree(saved, current)
            ||| matching::legacy_identities_agree(saved, current)
            ||| matching::makes_agree(saved, current) && crate::hyprland::monitor::informative(
                saved.serial,
            ) && saved.serial == current.serial
            ||| matching::descriptions_agree(saved, current)
        },
{
}

/// An identity taken from a connector never makes an exact match, and where
/// nothing but the connector agrees the pair is not confident.
pub proof fn law_connectors_are_not_trusted(saved: ProfileMonitorView, current: MonitorView)
    ensures
        saved.provenance() == IdentityProvenance::ConnectorFallback || saved.provenance()
            == IdentityProvenance::ConnectorDisambiguated ==> matching::pair_score(saved, current)
            < matching::CORROBORATED_LEGACY_ID_SCORE,
        saved.id != current.id && saved.make != current.make && saved.description
            != current.description ==> matching::pair_score(saved, current)
            < HIGH_CONFIDENCE_PAIR_SCORE,
{
}

/// No two remembered monitors have one partner.
pub proof fn law_partners_are_distinct(
    saved: Seq<ProfileMonitorView>,
    current: Seq<MonitorView>,
    mode: MonitorMatchMode,
    a: Seq<usize>,
    i: int,
    j: int,
)
    requires
        matching::best_pairing(saved, current, mode, a),
        0 <= i < j < saved.len(),
    ensures
        matching::partners(saved, current, mode, a)[i] is Some && matching::partners(
            saved,
            current,
            mode,
            a,
        )[j] is Some ==> matching::partners(saved, current, mode, a)[i]->0.current_index
            != matching::partners(saved, current, mode, a)[j]->0.current_index,
{
    assert(a[i] != a[j]);
}

// ---------------------------------------------------------------------------
// Pairings
// ---------------------------------------------------------------------------
/// So few remembered monitors that no weight is cut short.
pub open spec fn weighable(monitors: int) -> bool {
    monitors < 0x1_0000_0000 && (100 * monitors + 1) * (monitors + 1) + 100 * (monitors + 1) + 1
        <= i64::MAX
}

/// How many of the first `n` pairs keep their connector, where connectors count.
pub open spec fn tie_sum(
    saved: Seq<ProfileMonitorView>,
    current: Seq<MonitorView>,
    mode: MonitorMatchMode,
    a: Seq<usize>,
    n: int,
) -> int
    decreases n,
{
    if n <= 0 {
        0
    } else {
        tie_sum(saved, current, mode, a, n - 1) + (if matching::partner(
            saved,
            current,
            mode,
            a,
            n - 1,
        ) is Some {
            matching::tie_broken(saved[n - 1], current[a[n - 1] as int], mode)
        } else {
            0
        })
    }
}

pub(crate) proof fn lemma_unsaturated_weight(monitors: int, score: int, tie: int)
    requires
        0 <= monitors,
        weighable(monitors),
        0 <= score <= 100,
        0 <= tie <= 1,
    ensures
        matching::point_weight(monitors) == monitors + 1,
        matching::pair_bonus(monitors) == (100 * monitors + 1) * (monitors + 1),
        matching::pair_weight(monitors, score, tie) == matching::pair_bonus(monitors) + score * (
        monitors + 1) + tie,
{
    assert((100 * monitors + 1) * (monitors + 1) >= monitors + 1) by (nonlinear_arith)
        requires
            monitors >= 0,
    ;
    assert((100 * monitors + 1) * (monitors + 1) >= 100 * monitors + 1) by (nonlinear_arith)
        requires
            monitors >= 0,
    ;
    assert(score * (monitors + 1) <= 100 * (monitors + 1)) by (nonlinear_arith)
        requires
            monitors >= 0,
            score <= 100,
    ;
    assert(score * (monitors + 1) >= 0) by (nonlinear_arith)
        requires
            monitors >= 0,
            score >= 0,
    ;
}

/// The gain of a pairing counts its pairs first, then its score, then its
/// connectors.
proof fn lemma_gain_of_pairing(
    saved: Seq<ProfileMonitorView>,
    current: Seq<MonitorView>,
    mode: MonitorMatchMode,
    a: Seq<usize>,
    k: int,
)
    requires
        weighable(saved.len() as int),
        assignment::is_assignment(a, saved.len(), (current.len() + saved.len()) as nat),
        0 <= k <= saved.len(),
    ensures
        ({
            let found = matching::partners(saved, current, mode, a);
            let n = saved.len() as int;
            &&& assignment::total_gain(matching::weights(saved, current, mode), None, a.take(k))
                == matching::pair_bonus(n) * matching::matched_count(found, k) + (n + 1)
                * matching::score_sum(found, k) + tie_sum(saved, current, mode, a, k)
            &&& 0 <= matching::matched_count(found, k) <= k
            &&& 0 <= matching::score_sum(found, k) <= 100 * k
            &&& 0 <= tie_sum(saved, current, mode, a, k) <= k
        }),
    decreases k,
{
    let n = saved.len() as int;
    let w = matching::weights(saved, current, mode);
    let found = matching::partners(saved, current, mode, a);
    let bonus = matching::pair_bonus(n);
    if k > 0 {
        lemma_gain_of_pairing(saved, current, mode, a, k - 1);
        assert(a.take(k).drop_last() =~= a.take(k - 1));
        assert(a.take(k).last() == a[k - 1]);
        let i = k - 1;
        let j = a[i] as int;
        assert(0 <= j < current.len() + n);
        assert(w[i][j] == matching::cell(saved, current, mode, i, j));
        assert(found[i] == matching::partner(saved, current, mode, a, i));
        let count = matching::matched_count(found, k - 1);
        let total = matching::score_sum(found, k - 1);
        if found[i] is Some {
            let score = matching::pair_score(saved[i], current[j]);
            let tie = matching::tie_broken(saved[i], current[j], mode);
            lemma_unsaturated_weight(n, score, tie);
            assert(bonus * (count + 1) == bonus * count + bonus) by (nonlinear_arith);
            assert((n + 1) * (total + score) == (n + 1) * total + score * (n + 1))
                by (nonlinear_arith);
        } else {
            assert(bonus * (count + 0) == bonus * count);
        }
    } else {
        assert(bonus * 0 == 0) by (nonlinear_arith);
        assert((n + 1) * 0 == 0) by (nonlinear_arith);
    }
}

/// A best pairing pairs as many monitors as any pairing does, has the highest
/// score among those that pair as many, and keeps the most connectors among those
/// that score as high, where connectors count.
pub proof fn law_best_pairing_is_best(
    saved: Seq<ProfileMonitorView>,
    current: Seq<MonitorView>,
    mode: MonitorMatchMode,
    a: Seq<usize>,
    b: Seq<usize>,
)
    requires
        weighable(saved.len() as int),
        matching::best_pairing(saved, current, mode, a),
        assignment::is_assignment(b, saved.len(), (current.len() + saved.len()) as nat),
    ensures
        ({
            let n = saved.len() as int;
            let best = matching::partners(saved, current, mode, a);
            let other = matching::partners(saved, current, mode, b);
            &&& matching::matched_count(other, n) <= matching::matched_count(best, n)
            &&& matching::matched_count(other, n) == matching::matched_count(best, n)
                ==> matching::score_sum(other, n) <= matching::score_sum(best, n)
            &&& matching::matched_count(other, n) == matching::matched_count(best, n)
                && matching::score_sum(other, n) == matching::score_sum(best, n) ==> tie_sum(
                saved,
                current,
                mode,
                b,
                n,
            ) <= tie_sum(saved, current, mode, a, n)
        }),
{
    let n = saved.len() as int;
    let w = matching::weights(saved, current, mode);
    let best = matching::partners(saved, current, mode, a);
    let other = matching::partners(saved, current, mode, b);
    lemma_gain_of_pairing(saved, current, mode, a, n);
    lemma_gain_of_pairing(saved, current, mode, b, n);
    assert(a.take(n) =~= a);
    assert(b.take(n) =~= b);
    assert(assignment::total_gain(w, None, b) <= assignment::total_gain(w, None, a));
    lemma_unsaturated_weight(n, 0, 0);
    lemma_lexicographic(
        n,
        matching::matched_count(best, n),
        matching::score_sum(best, n),
        tie_sum(saved, current, mode, a, n),
        matching::matched_count(other, n),
        matching::score_sum(other, n),
        tie_sum(saved, current, mode, b, n),
    );
}

proof fn lemma_lexicographic(n: int, c1: int, s1: int, t1: int, c2: int, s2: int, t2: int)
    requires
        n >= 0,
        0 <= s1 <= 100 * n,
        0 <= t1 <= n,
        0 <= s2 <= 100 * n,
        0 <= t2 <= n,
        ((100 * n + 1) * (n + 1)) * c2 + (n + 1) * s2 + t2 <= ((100 * n + 1) * (n + 1)) * c1 + (n
            + 1) * s1 + t1,
    ensures
        c2 <= c1,
        c2 == c1 ==> s2 <= s1,
        c2 == c1 && s2 == s1 ==> t2 <= t1,
{
    let point = n + 1;
    let bonus = (100 * n + 1) * point;
    assert(bonus == 100 * n * point + point) by (nonlinear_arith)
        requires
            bonus == (100 * n + 1) * point,
    ;
    assert(point * s1 <= 100 * n * point) by (nonlinear_arith)
        requires
            s1 <= 100 * n,
            point >= 1,
    ;
    assert(point * s2 >= 0) by (nonlinear_arith)
        requires
            s2 >= 0,
            point >= 1,
    ;
    if c2 > c1 {
        assert(bonus * c2 >= bonus * c1 + bonus) by (nonlinear_arith)
            requires
                c2 >= c1 + 1,
                bonus >= 0,
        ;
    } else if c2 == c1 && s2 > s1 {
        assert(point * s2 >= point * s1 + point) by (nonlinear_arith)
            requires
                s2 >= s1 + 1,
                point >= 1,
        ;
    }
}

/// Two lists of partners, the first of which has none that the second lacks,
/// and which count alike, have partners in the same places.
proof fn lemma_same_count(
    first: Seq<Option<ResolvedView>>,
    second: Seq<Option<ResolvedView>>,
    n: int,
)
    requires
        0 <= n <= first.len(),
        n <= second.len(),
        forall|i: int| 0 <= i < n && (#[trigger] first[i]) is Some ==> second[i] is Some,
    ensures
        matching::matched_count(first, n) <= matching::matched_count(second, n),
        matching::matched_count(first, n) == matching::matched_count(second, n) ==> forall|i: int|
            0 <= i < n ==> ((#[trigger] first[i]) is Some <==> second[i] is Some),
    decreases n,
{
    if n > 0 {
        lemma_same_count(first, second, n - 1);
        assert(first[n - 1] is Some ==> second[n - 1] is Some);
    }
}

/// Partners that are not ambiguous do not depend on the best pairing that gave
/// them.
pub proof fn law_unambiguous_partners_are_unique(
    saved: Seq<ProfileMonitorView>,
    current: Seq<MonitorView>,
    mode: MonitorMatchMode,
    a: Seq<usize>,
    b: Seq<usize>,
)
    requires
        weighable(saved.len() as int),
        matching::best_pairing(saved, current, mode, a),
        matching::best_pairing(saved, current, mode, b),
        !matching::any_ambiguous(matching::partners(saved, current, mode, a)),
    ensures
        matching::partners(saved, current, mode, a) == matching::partners(saved, current, mode, b),
{
    let n = saved.len() as int;
    let first = matching::partners(saved, current, mode, a);
    let second = matching::partners(saved, current, mode, b);
    law_best_pairing_is_best(saved, current, mode, a, b);
    law_best_pairing_is_best(saved, current, mode, b, a);
    assert forall|i: int| 0 <= i < n && (#[trigger] first[i]) is Some implies second[i]
        == first[i] by {
        assert(!first[i]->0.ambiguous);
        assert(!matching::has_alternative(saved, current, mode, a, i));
        assert(b[i] == a[i]);
        if matching::has_alternative(saved, current, mode, b, i) {
            let c = choose|c: Seq<usize>| #[trigger]
                matching::best_pairing(saved, current, mode, c) && c[i] != b[i];
            assert(matching::best_pairing(saved, current, mode, c) && c[i] != a[i]);
        }
    }
    lemma_same_count(first, second, n);
    assert(first =~= second);
}

/// How confident a match is, how many monitors it matches and how it scores
/// depend on the profile and the connected monitors alone.
pub proof fn law_match_is_determined(
    profile: ProfileView,
    current: Seq<MonitorView>,
    m1: ProfileMatchView,
    m2: ProfileMatchView,
)
    requires
        weighable(profile.monitors.len() as int),
        matching::is_match(m1, profile, current),
        matching::is_match(m2, profile, current),
    ensures
        m1.confidence == m2.confidence,
        m1.matched_monitors == m2.matched_monitors,
        m1.score == m2.score,
        m1.confidence.eligible() ==> m1 == m2,
{
    let mode = MonitorMatchMode::Automatic;
    let saved = profile.monitors;
    let a = choose|a: Seq<usize>| #[trigger]
        matching::best_pairing(saved, current, mode, a) && m1 == matching::match_with(
            profile,
            current,
            matching::partners(saved, current, mode, a),
        );
    let b = choose|b: Seq<usize>| #[trigger]
        matching::best_pairing(saved, current, mode, b) && m2 == matching::match_with(
            profile,
            current,
            matching::partners(saved, current, mode, b),
        );
    law_best_pairing_is_best(saved, current, mode, a, b);
    law_best_pairing_is_best(saved, current, mode, b, a);
    let first = matching::partners(saved, current, mode, a);
    let second = matching::partners(saved, current, mode, b);
    if !matching::any_ambiguous(first) {
        law_unambiguous_partners_are_unique(saved, current, mode, a, b);
    } else if !matching::any_ambiguous(second) {
        law_unambiguous_partners_are_unique(saved, current, mode, b, a);
    }
}

// ---------------------------------------------------------------------------
// Profiles
// ---------------------------------------------------------------------------
proof fn lemma_all_matched(found: Seq<Option<ResolvedView>>, n: int)
    requires
        0 <= n <= found.len(),
        forall|i: int| 0 <= i < n ==> (#[trigger] found[i]) is Some,
    ensures
        matching::matched_count(found, n) == n,
    decreases n,
{
    if n > 0 {
        lemma_all_matched(found, n - 1);
        assert(found[n - 1] is Some);
    }
}

/// The connected monitor `j` is the partner of some remembered one.
pub open spec fn has_partner(a: Seq<usize>, j: int) -> bool {
    exists|i: int| 0 <= i < a.len() && #[trigger] a[i] == j
}

/// A profile is good enough to be applied by itself only where every remembered
/// monitor and every connected one has a partner, none of them ambiguous, and
/// each pair is confident.
pub proof fn law_eligible_matches_are_complete(
    profile: ProfileView,
    current: Seq<MonitorView>,
    a: Seq<usize>,
)
    requires
        matching::best_pairing(profile.monitors, current, MonitorMatchMode::Automatic, a),
        matching::confidence_of(
            matching::partners(profile.monitors, current, MonitorMatchMode::Automatic, a),
            current.len() as int,
        ).eligible(),
    ensures
        profile.monitors.len() == current.len(),
        forall|i: int|
            #![trigger a[i]]
            0 <= i < profile.monitors.len() ==> a[i] < current.len() && matching::pair_score(
                profile.monitors[i],
                current[a[i] as int],
            ) >= HIGH_CONFIDENCE_PAIR_SCORE,
        forall|j: int| 0 <= j < current.len() ==> #[trigger] has_partner(a, j),
        !matching::any_ambiguous(
            matching::partners(profile.monitors, current, MonitorMatchMode::Automatic, a),
        ),
        matching::matched_count(
            matching::partners(profile.monitors, current, MonitorMatchMode::Automatic, a),
            profile.monitors.len() as int,
        ) == current.len(),
{
    let mode = MonitorMatchMode::Automatic;
    let saved = profile.monitors;
    let found = matching::partners(saved, current, mode, a);
    let n = saved.len() as int;
    assert forall|i: int| #![trigger a[i]] 0 <= i < n implies a[i] < current.len()
        && matching::pair_score(saved[i], current[a[i] as int]) >= HIGH_CONFIDENCE_PAIR_SCORE by {
        assert(found[i] is Some);
        assert(found[i] == matching::partner(saved, current, mode, a, i));
    }
    assert forall|i: int| 0 <= i < n implies (#[trigger] found[i]) is Some by {}
    lemma_all_matched(found, n);
    let used = a.map_values(|c: usize| c as int);
    assert(used.no_duplicates()) by {
        assert forall|i: int, j: int| 0 <= i < j < used.len() implies used[i] != used[j] by {
            assert(a[i] != a[j]);
        }
    }
    used.unique_seq_to_set();
    let all = vstd::set_lib::set_int_range(0, n);
    vstd::set_lib::lemma_int_range(0, n);
    assert(used.to_set().subset_of(all)) by {
        assert forall|x: int| used.to_set().contains(x) implies all.contains(x) by {
            let i = choose|i: int| 0 <= i < used.len() && used[i] == x;
            assert(a[i] < current.len());
        }
    }
    vstd::set_lib::lemma_subset_equality(used.to_set(), all);
    assert forall|j: int| 0 <= j < current.len() implies #[trigger] has_partner(a, j) by {
        assert(all.contains(j));
        assert(used.to_set().contains(j));
        let i = choose|i: int| 0 <= i < used.len() && used[i] == j;
        assert(a[i] == j);
    }
}

// ---------------------------------------------------------------------------
// Decisions
// ---------------------------------------------------------------------------
/// The order of candidates is a strict one.
pub proof fn lemma_candidates_rank()
    ensures
        sort::ranks::<ProfileMatch>(),
{
    assert forall|a: ProfileMatchView| !#[trigger]
        <ProfileMatch as sort::Ranked>::ahead(a, a) by {
        crate::text::lemma_precedes_order(a.profile_name, a.profile_name, a.profile_name);
    }
    assert forall|a: ProfileMatchView, b: ProfileMatchView, c: ProfileMatchView|
        #[trigger] <ProfileMatch as sort::Ranked>::ahead(a, b)
            && #[trigger] <ProfileMatch as sort::Ranked>::ahead(b, c) implies <ProfileMatch as sort::Ranked>::ahead(
        a,
        c,
    ) by {
        crate::text::lemma_precedes_order(a.profile_name, b.profile_name, c.profile_name);
    }
    assert forall|a: ProfileMatchView, b: ProfileMatchView, c: ProfileMatchView|
        !#[trigger] <ProfileMatch as sort::Ranked>::ahead(a, b)
            && !#[trigger] <ProfileMatch as sort::Ranked>::ahead(b, c) implies !<ProfileMatch as sort::Ranked>::ahead(
        a,
        c,
    ) by {
        crate::text::lemma_precedes_order(a.profile_name, b.profile_name, c.profile_name);
        crate::text::lemma_precedes_order(c.profile_name, b.profile_name, a.profile_name);
        crate::text::lemma_precedes_order(b.profile_name, c.profile_name, a.profile_name);
        crate::text::lemma_precedes_order(c.profile_name, a.profile_name, b.profile_name);
        crate::text::lemma_precedes_order(a.profile_name, c.profile_name, b.profile_name);
    }
}

/// The candidate in front is the one that no other goes before, and it is the
/// match of a stored profile.
pub proof fn law_front_candidate_is_best(
    profiles: Seq<ProfileView>,
    current: Seq<MonitorView>,
    matches: Seq<ProfileMatchView>,
)
    requires
        matching::are_matches(matches, profiles, current),
        matches.len() > 0,
    ensures
        ({
            let candidates = sort::sorted::<ProfileMatch>(matches);
            &&& candidates.len() == matches.len()
            &&& forall|k: int|
                0 <= k < matches.len() ==> !<ProfileMatch as sort::Ranked>::ahead(
                    #[trigger] matches[k],
                    candidates[0],
                )
            &&& forall|i: int|
                0 <= i < candidates.len() ==> matches.contains(#[trigger] candidates[i])
        }),
{
    broadcast use vstd::seq_lib::group_to_multiset_ensures;

    let candidates = sort::sorted::<ProfileMatch>(matches);
    lemma_candidates_rank();
    sort::law_sorted::<ProfileMatch>(matches);
    assert forall|i: int| 0 <= i < candidates.len() implies matches.contains(
        #[trigger] candidates[i],
    ) by {
        assert(candidates.contains(candidates[i]));
        assert(candidates.to_multiset().count(candidates[i]) > 0);
        assert(matches.to_multiset().count(candidates[i]) > 0);
    }
    assert forall|k: int| 0 <= k < matches.len() implies !<ProfileMatch as sort::Ranked>::ahead(
        #[trigger] matches[k],
        candidates[0],
    ) by {
        assert(matches.contains(matches[k]));
        assert(matches.to_multiset().count(matches[k]) > 0);
        assert(candidates.to_multiset().count(matches[k]) > 0);
        assert(candidates.contains(matches[k]));
        let i = choose|i: int| 0 <= i < candidates.len() && candidates[i] == matches[k];
        if i > 0 {
            assert(!<ProfileMatch as sort::Ranked>::ahead(candidates[i], candidates[0]));
        }
    }
}

/// Whatever profile is applied, a stored one has its name.
pub proof fn law_applied_profile_is_stored(
    profiles: Seq<ProfileView>,
    current: Seq<MonitorView>,
    matches: Seq<ProfileMatchView>,
    fallback: Option<Seq<char>>,
)
    requires
        matching::are_matches(matches, profiles, current),
    ensures
        matching::decision(
            profiles,
            matching::best_of(sort::sorted::<ProfileMatch>(matches)),
            fallback,
        ).profile_name() matches Some(name) ==> store::has_name(profiles, name),
{
    let candidates = sort::sorted::<ProfileMatch>(matches);
    if matches.len() > 0 {
        law_front_candidate_is_best(profiles, current, matches);
        assert(matches.contains(candidates[0]));
        let k = choose|k: int| 0 <= k < matches.len() && matches[k] == candidates[0];
        assert(matching::is_match(matches[k], profiles[k], current));
        assert(profiles[k].name == candidates[0].profile_name);
    } else {
        sort::law_sorted::<ProfileMatch>(matches);
    }
}

/// Where the match is ambiguous nothing is applied, not even the fallback.
pub proof fn law_ambiguity_applies_nothing(
    profiles: Seq<ProfileView>,
    candidates: Seq<ProfileMatchView>,
    fallback: Option<Seq<char>>,
)
    requires
        matching::undecided(candidates),
    ensures
        matching::decision(profiles, matching::best_of(candidates), fallback).profile_name()
            is None,
{
}

/// A match that is not good enough is never applied as such: what is applied
/// is the front candidate with an exact or confident match, or the fallback
/// where there is none and nothing is ambiguous.
pub proof fn law_only_eligible_or_fallback_is_applied(
    profiles: Seq<ProfileView>,
    best: BestMatchView,
    fallback: Option<Seq<char>>,
)
    ensures
        matching::decision(profiles, best, fallback) matches DecisionView::Apply {
            profile_name,
            confidence,
            reason,
        } ==> {
            ||| (best.selected matches Some(selected) && selected.confidence.eligible()
                && profile_name == selected.profile_name && confidence
                == selected.confidence.word())
            ||| (!best.ambiguous && confidence == "fallback"@ && matching::named_fallback(fallback)
                == Some(profile_name) && (best.selected matches Some(selected)
                ==> !selected.confidence.eligible()))
        },
{
}

} // verus!
