//! What modes mean on a monitor.
use vstd::prelude::*;

use crate::double_bounds;
use crate::hyprland::monitor::MonitorView;
use crate::number;
use crate::number::RateView;
use crate::profile::layout_laws;
use crate::profile::modes;
use crate::profile::modes::{Measure, ModeView};
use crate::profile::plan;
use crate::profile::plan::ExpectedView;
use crate::profile::validation;
use crate::text;

verus! {

// ---------------------------------------------------------------------------
// Tolerances
// ---------------------------------------------------------------------------
/// Two rates count as one where they are less than a fifth apart, and as two where they
/// are more, but for a thousandth either way; a rate that is no number is never reached.
pub proof fn law_rates_are_told_to_a_fifth(actual: int, rate: RateView)
    requires
        -number::MAX_UNITS <= actual <= number::MAX_UNITS,
        rate matches RateView::Finite(value) ==> -number::MAX_UNITS <= value <= number::MAX_UNITS,
    ensures
        match rate {
            RateView::Finite(value) => {
                &&& -199_000_000_000_000_000 <= actual - value <= 199_000_000_000_000_000
                    ==> modes::rate_reached(actual, rate)
                &&& actual - value >= 201_000_000_000_000_000 || actual - value
                    <= -201_000_000_000_000_000 ==> !modes::rate_reached(actual, rate)
            },
            _ => !modes::rate_reached(actual, rate),
        },
{
    if let RateView::Finite(value) = rate {
        double_bounds::lemma_within_bounds(
            actual,
            value,
            200_000_000_000_000_000,
            1_000_000_000_000_000,
        );
    }
}

/// A monitor that is on counts as found where its connector, identity, place and turn
/// are as expected, its mode is, and its scale is less than a thousandth off; and does
/// not where its scale is more off, or any of the others differs.
pub proof fn law_found_states_are_as_expected(expected: ExpectedView, actual: Seq<MonitorView>)
    requires
        expected.enabled,
        0 < expected.scale <= validation::MAX_SCALE,
        forall|i: int|
            0 <= i < actual.len() ==> 0 <= (#[trigger] actual[i]).scale <= 10
                * validation::MAX_SCALE,
    ensures
        match plan::monitor_on(actual, expected.output_name) {
            None => plan::state_mismatch(expected, actual) is Some,
            Some(found) => {
                let off = number::magnitude(found.scale - expected.scale);
                let alike = found.id == expected.monitor_id && found.enabled && found.x
                    == expected.x && found.y == expected.y && found.transform == expected.transform
                    && modes::mode_mismatch(expected.mode, found) is None;
                &&& !alike ==> plan::state_mismatch(expected, actual) is Some
                &&& alike && off <= 999_000_000_000_000 ==> plan::state_mismatch(expected, actual)
                    is None
                &&& off >= 1_001_000_000_000_000 ==> plan::state_mismatch(expected, actual) is Some
            },
        },
{
    if let Some(found) = plan::monitor_on(actual, expected.output_name) {
        let i = lemma_found_on(actual, expected.output_name);
        double_bounds::lemma_within_bounds(
            found.scale,
            expected.scale,
            1_000_000_000_000_000,
            1_000_000_000_000,
        );
    }
}

/// The monitor that is found on a connector is one that hangs on it.
proof fn lemma_found_on(monitors: Seq<MonitorView>, output_name: Seq<char>) -> (i: int)
    requires
        plan::monitor_on(monitors, output_name) is Some,
    ensures
        0 <= i < monitors.len(),
        monitors[i] == plan::monitor_on(monitors, output_name)->0,
        monitors[i].output_name == output_name,
    decreases monitors.len(),
{
    if monitors[0].output_name == output_name {
        0
    } else {
        1 + lemma_found_on(monitors.drop_first(), output_name)
    }
}

/// A monitor that is to be off is found where it is off, whatever else of it differs,
/// unless the details are to be looked at too.
pub proof fn law_dark_monitors_need_not_agree(expected: ExpectedView, actual: Seq<MonitorView>)
    requires
        !expected.enabled,
        !expected.verify_details_when_disabled,
    ensures
        plan::state_mismatch(expected, actual) is None <==> (plan::monitor_on(
            actual,
            expected.output_name,
        ) matches Some(found) && found.id == expected.monitor_id && !found.enabled),
{
}

/// A layout is found as expected exactly where there are as many monitors as expected
/// and each is found as expected.
pub proof fn law_layouts_are_found_monitor_by_monitor(
    expected: Seq<ExpectedView>,
    actual: Seq<MonitorView>,
)
    ensures
        plan::layout_mismatch(expected, actual) is None <==> actual.len() == expected.len()
            && forall|i: int|
            0 <= i < expected.len() ==> plan::state_mismatch(#[trigger] expected[i], actual)
                is None,
{
    if plan::layout_mismatch(expected, actual) is None {
        assert forall|i: int| 0 <= i < expected.len() implies plan::state_mismatch(
            #[trigger] expected[i],
            actual,
        ) is None by {
            layout_laws::lemma_state_found(expected, actual, i, expected.len() as int);
        }
    }
    if forall|i: int|
        0 <= i < expected.len() ==> plan::state_mismatch(#[trigger] expected[i], actual) is None {
        layout_laws::lemma_no_mismatch(expected, actual, expected.len() as int);
    }
}

// ---------------------------------------------------------------------------
// Modes
// ---------------------------------------------------------------------------
/// A monitor runs in a mode that is spelled out where it has its width and its height
/// and less than a fifth separates the rates; and does not where either side differs or
/// more separates them.
pub proof fn law_spelled_modes_are_verified(
    mode: Seq<char>,
    actual: MonitorView,
    width: int,
    height: int,
    rate: int,
)
    requires
        validation::parsed_mode(mode) == Some((width, height, RateView::Finite(rate))),
        -number::MAX_UNITS <= rate <= number::MAX_UNITS,
        -number::MAX_UNITS <= actual.refresh_rate <= number::MAX_UNITS,
    ensures
        ({
            let off = number::magnitude(actual.refresh_rate - rate);
            let runs = modes::mode_mismatch(mode, actual) is None;
            &&& actual.width == width && actual.height == height && off
                <= 199_000_000_000_000_000 ==> runs
            &&& runs ==> actual.width == width && actual.height == height && off
                < 201_000_000_000_000_000
        }),
{
    law_rates_are_told_to_a_fifth(actual.refresh_rate, RateView::Finite(rate));
}

/// The size of a mode that is spelled out is what it says, on every monitor.
pub proof fn law_spelled_modes_have_their_size(
    mode: Seq<char>,
    monitor: MonitorView,
    width: int,
    height: int,
    rate: RateView,
)
    requires
        validation::parsed_mode(mode) == Some((width, height, rate)),
    ensures
        modes::dimensions_of(mode, monitor) == Ok::<(int, int), Seq<char>>((width, height)),
{
}

proof fn lemma_greatest(measure: Measure, all: Seq<ModeView>, n: int)
    requires
        0 <= n <= all.len(),
        measure is Refresh ==> forall|i: int|
            0 <= i < all.len() ==> (#[trigger] all[i]).2 is Finite,
    ensures
        n > 0 ==> modes::greatest_mode(measure, all, n) is Some,
        modes::greatest_mode(measure, all, n) matches Some(best) ==> all.contains(best)
            && forall|i: int| 0 <= i < n ==> !modes::outdoes(measure, #[trigger] all[i], best),
    decreases n,
{
    if n > 0 {
        lemma_greatest(measure, all, n - 1);
        let best = modes::greatest_mode(measure, all, n)->0;
        assert(all[n - 1].2 is Finite || !(measure is Refresh));
        match modes::greatest_mode(measure, all, n - 1) {
            Some(before) => {
                assert(all.contains(before));
                let k = choose|k: int| 0 <= k < all.len() && all[k] == before;
                assert(all[k].2 is Finite || !(measure is Refresh));
                assert forall|i: int| 0 <= i < n implies !modes::outdoes(
                    measure,
                    #[trigger] all[i],
                    best,
                ) by {
                    if i < n - 1 {
                        assert(!modes::outdoes(measure, all[i], before));
                        assert(all[i].2 is Finite || !(measure is Refresh));
                    }
                }
            },
            None => {},
        }
    }
}

/// The word for the highest resolution means a mode that the monitor offers and that no
/// other has more pixels than; the one for the greatest width one that none is wider
/// than; the one for the highest rate, where rates are numbers, one that none is faster
/// than; and the preferred one is the first. Each means some mode where any is offered.
pub proof fn law_words_choose_the_greatest(all: Seq<ModeView>)
    requires
        all.len() > 0,
    ensures
        modes::selected_mode("preferred"@, all) == Some(all[0]),
        modes::selected_mode("highres"@, all) matches Some(best) && all.contains(best) && forall|
            i: int,
        |
            0 <= i < all.len() ==> (#[trigger] all[i]).0 * all[i].1 <= best.0 * best.1,
        modes::selected_mode("maxwidth"@, all) matches Some(best) && all.contains(best) && forall|
            i: int,
        |
            0 <= i < all.len() ==> (#[trigger] all[i]).0 <= best.0,
        (forall|i: int| 0 <= i < all.len() ==> (#[trigger] all[i]).2 is Finite) ==> (
        modes::selected_mode("highrr"@, all) matches Some(best) && all.contains(best) && best.2
            is Finite && forall|i: int|
            0 <= i < all.len() ==> (#[trigger] all[i]).2->0 <= best.2->0),
{
    let n = all.len() as int;
    lemma_words_differ();
    lemma_greatest(Measure::Area, all, n);
    lemma_greatest(Measure::Width, all, n);
    let high = modes::greatest_mode(Measure::Area, all, n)->0;
    assert forall|i: int| 0 <= i < all.len() implies (#[trigger] all[i]).0 * all[i].1 <= high.0
        * high.1 by {
        assert(!modes::outdoes(Measure::Area, all[i], high));
    }
    let wide = modes::greatest_mode(Measure::Width, all, n)->0;
    assert forall|i: int| 0 <= i < all.len() implies (#[trigger] all[i]).0 <= wide.0 by {
        assert(!modes::outdoes(Measure::Width, all[i], wide));
    }
    if forall|i: int| 0 <= i < all.len() ==> (#[trigger] all[i]).2 is Finite {
        lemma_greatest(Measure::Refresh, all, n);
        let fast = modes::greatest_mode(Measure::Refresh, all, n)->0;
        let k = choose|k: int| 0 <= k < all.len() && all[k] == fast;
        assert(all[k].2 is Finite);
        assert forall|i: int| 0 <= i < all.len() implies (#[trigger] all[i]).2->0
            <= fast.2->0 by {
            assert(!modes::outdoes(Measure::Refresh, all[i], fast));
            assert(all[i].2 is Finite);
        }
    }
}

/// What a monitor advertises and can be read is what it offers, in that order: the first
/// it advertises is the first it offers.
pub proof fn law_advertised_modes_are_offered(available: Seq<Seq<char>>)
    ensures
        forall|i: int|
            0 <= i < available.len() && validation::parsed_mode(#[trigger] available[i]) is Some
                ==> modes::readable_modes(available).contains(
                validation::parsed_mode(available[i])->0,
            ),
        forall|k: int|
            0 <= k < modes::readable_modes(available).len() ==> exists|i: int|
                0 <= i < available.len() && validation::parsed_mode(#[trigger] available[i])
                    == Some(#[trigger] modes::readable_modes(available)[k]),
        available.len() > 0 && validation::parsed_mode(available[0]) is Some
            ==> modes::readable_modes(available).len() > 0 && modes::readable_modes(available)[0]
            == validation::parsed_mode(available[0])->0,
    decreases available.len(),
{
    if available.len() > 0 {
        let front = available.drop_last();
        let read = modes::readable_modes(available);
        let before = modes::readable_modes(front);
        law_advertised_modes_are_offered(front);
        assert forall|i: int|
            0 <= i < available.len() && validation::parsed_mode(#[trigger] available[i])
                is Some implies read.contains(validation::parsed_mode(available[i])->0) by {
            let mode = validation::parsed_mode(available[i])->0;
            if i < front.len() {
                assert(front[i] == available[i]);
                let k = choose|k: int| 0 <= k < before.len() && before[k] == mode;
                assert(read[k] == mode);
            } else {
                assert(read[before.len() as int] == mode);
            }
        }
        assert forall|k: int| 0 <= k < read.len() implies exists|i: int|
            0 <= i < available.len() && validation::parsed_mode(#[trigger] available[i]) == Some(
                #[trigger] read[k],
            ) by {
            if k < before.len() {
                let i = choose|i: int|
                    0 <= i < front.len() && validation::parsed_mode(#[trigger] front[i]) == Some(
                        before[k],
                    );
                assert(available[i] == front[i]);
            } else {
                assert(validation::parsed_mode(available[available.len() - 1]) == Some(read[k]));
            }
        }
        if front.len() > 0 {
            assert(front[0] == available[0]);
        }
    }
}

proof fn lemma_greatest_rate(all: Seq<ModeView>, n: int)
    requires
        0 <= n <= all.len(),
        forall|i: int| 0 <= i < all.len() ==> (#[trigger] all[i]).2 is Finite,
    ensures
        n <= 0 ==> modes::greatest_rate(all, n) is NegativeInfinite,
        n > 0 ==> (modes::greatest_rate(all, n) matches RateView::Finite(most) && forall|i: int|
            0 <= i < n ==> (#[trigger] all[i]).2->0 <= most),
        n > 0 ==> exists|i: int|
            0 <= i < n && (#[trigger] all[i]).2 == modes::greatest_rate(all, n),
    decreases n,
{
    if n > 0 {
        lemma_greatest_rate(all, n - 1);
        assert(all[n - 1].2 is Finite);
        if modes::greatest_rate(all, n) != all[n - 1].2 {
            let i = choose|i: int|
                0 <= i < n - 1 && (#[trigger] all[i]).2 == modes::greatest_rate(all, n - 1);
            assert(all[i].2 == modes::greatest_rate(all, n));
        }
    }
}

/// A monitor runs in the mode that it prefers where it has the size and about the rate of
/// the first one that it offers; in its highest resolution where it has the size of one
/// that it offers and none has more pixels; in its greatest width where it is as wide as
/// one that it offers and none is wider; and at its highest rate where rates are numbers,
/// it is about as fast as one that it offers and none is faster, but for a fifth.
pub proof fn law_words_are_verified(actual: MonitorView)
    requires
        modes::readable_modes(actual.available_modes).len() > 0,
        -number::MAX_UNITS <= actual.refresh_rate <= number::MAX_UNITS,
        forall|i: int|
            0 <= i < modes::readable_modes(actual.available_modes).len() ==> ((
            #[trigger] modes::readable_modes(actual.available_modes)[i]).2
                matches RateView::Finite(rate) && -number::MAX_UNITS <= rate <= number::MAX_UNITS),
    ensures
        ({
            let all = modes::readable_modes(actual.available_modes);
            let fifth = 201_000_000_000_000_000int;
            let less = 199_000_000_000_000_000int;
            let sized = |i: int| all[i].0 == actual.width && all[i].1 == actual.height;
            &&& modes::mode_mismatch("preferred"@, actual) is None ==> sized(0)
                && number::magnitude(actual.refresh_rate - all[0].2->0) < fifth
            &&& sized(0) && number::magnitude(actual.refresh_rate - all[0].2->0) <= less
                ==> modes::mode_mismatch("preferred"@, actual) is None
            &&& modes::mode_mismatch("highres"@, actual) is None <==> (exists|i: int|
                0 <= i < all.len() && (#[trigger] all[i]).0 == actual.width && all[i].1
                    == actual.height) && forall|i: int|
                0 <= i < all.len() ==> (#[trigger] all[i]).0 * all[i].1 <= actual.width
                    * actual.height
            &&& modes::mode_mismatch("maxwidth"@, actual) is None <==> (exists|i: int|
                0 <= i < all.len() && (#[trigger] all[i]).0 == actual.width) && forall|i: int|
                0 <= i < all.len() ==> (#[trigger] all[i]).0 <= actual.width
            &&& modes::mode_mismatch("highrr"@, actual) is None ==> (exists|i: int|
                0 <= i < all.len() && number::magnitude(
                    actual.refresh_rate - (#[trigger] all[i]).2->0,
                ) < fifth) && forall|i: int|
                0 <= i < all.len() ==> (#[trigger] all[i]).2->0 < actual.refresh_rate + fifth
            &&& (exists|i: int|
                0 <= i < all.len() && number::magnitude(
                    actual.refresh_rate - (#[trigger] all[i]).2->0,
                ) <= less) && (forall|i: int|
                0 <= i < all.len() ==> (#[trigger] all[i]).2->0 <= actual.refresh_rate + less)
                ==> modes::mode_mismatch("highrr"@, actual) is None
        }),
{
    let all = modes::readable_modes(actual.available_modes);
    lemma_words_differ();
    lemma_words_are_no_modes();
    assert(all[0].2 is Finite);
    law_rates_are_told_to_a_fifth(actual.refresh_rate, all[0].2);
    lemma_greatest_rate(all, all.len() as int);
    let most = modes::greatest_rate(all, all.len() as int);
    let k = choose|k: int| 0 <= k < all.len() && (#[trigger] all[k]).2 == most;
    assert(all[k].2 is Finite);
    law_rates_are_told_to_a_fifth(actual.refresh_rate, most);
    if modes::mode_mismatch("highres"@, actual) is None {
        let i = choose|i: int|
            0 <= i < all.len() && (#[trigger] all[i]).0 == actual.width && all[i].1
                == actual.height && forall|j: int|
                0 <= j < all.len() ==> (#[trigger] all[j]).0 * all[j].1 <= all[i].0 * all[i].1;
        assert(all[i].0 * all[i].1 == actual.width * actual.height);
    }
    if (exists|i: int|
        0 <= i < all.len() && (#[trigger] all[i]).0 == actual.width && all[i].1 == actual.height)
        && forall|i: int|
        0 <= i < all.len() ==> (#[trigger] all[i]).0 * all[i].1 <= actual.width * actual.height {
        let i = choose|i: int|
            0 <= i < all.len() && (#[trigger] all[i]).0 == actual.width && all[i].1
                == actual.height;
        assert(all[i].0 * all[i].1 == actual.width * actual.height);
    }
}

proof fn lemma_words_are_no_modes()
    ensures
        validation::parsed_mode("preferred"@) is None,
        validation::parsed_mode("highres"@) is None,
        validation::parsed_mode("highrr"@) is None,
        validation::parsed_mode("maxwidth"@) is None,
{
    reveal_strlit("preferred");
    reveal_strlit("highres");
    reveal_strlit("highrr");
    reveal_strlit("maxwidth");
    lemma_word_is_no_mode("preferred"@);
    lemma_word_is_no_mode("highres"@);
    lemma_word_is_no_mode("highrr"@);
    lemma_word_is_no_mode("maxwidth"@);
}

proof fn lemma_word_is_no_mode(word: Seq<char>)
    requires
        word.len() > 0,
        word.last() != 'z',
        forall|i: int| 0 <= i < word.len() ==> #[trigger] word[i] != '@',
    ensures
        validation::parsed_mode(word) is None,
{
    reveal_strlit("Hz");
    if text::ends(word, "Hz"@) {
        assert(word.skip(word.len() - 2).last() == 'z');
    }
    text::lemma_first_of(word, '@');
}

proof fn lemma_words_differ()
    ensures
        "preferred"@ != "highres"@,
        "preferred"@ != "highrr"@,
        "preferred"@ != "maxwidth"@,
        "highres"@ != "highrr"@,
        "highres"@ != "maxwidth"@,
        "highrr"@ != "maxwidth"@,
{
    reveal_strlit("preferred");
    reveal_strlit("highres");
    reveal_strlit("highrr");
    reveal_strlit("maxwidth");
    assert("preferred"@.len() == 9);
    assert("highres"@.len() == 7);
    assert("highrr"@.len() == 6);
    assert("maxwidth"@.len() == 8);
}

} // verus!
