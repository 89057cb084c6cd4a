//! How exact doubles are.
use vstd::prelude::*;

use crate::double;
use crate::double::SPAN;
use crate::number;
use crate::range;

verus! {

// ---------------------------------------------------------------------------
// Exact values
// ---------------------------------------------------------------------------
/// A number that a double can hold rounds to itself.
proof fn lemma_doubles_stay(h: nat, e: nat)
    requires
        h < SPAN,
    ensures
        double::nearest(h * range::power(2, e), 1) == h * range::power(2, e),
{
    let p = range::power(2, e);
    let n = h * p;
    range::lemma_power_positive(2, e);
    assert(n / 1 == n);
    let k = double::dropped(n);
    let step = range::power(2, k);
    double::lemma_dropped_bits(n);
    range::lemma_power_positive(2, k);
    if k > e {
        range::lemma_power_add(2, (k - e - 1) as nat, e + 1);
        let rest = range::power(2, (k - e - 1) as nat);
        range::lemma_power_positive(2, (k - e - 1) as nat);
        assert(range::power(2, e + 1) == 2 * p);
        assert((k - e - 1) as nat + (e + 1) == k);
        assert(false) by (nonlinear_arith)
            requires
                2 * n >= SPAN * step,
                step == rest * (2 * p),
                rest >= 1,
                n == h * p,
                h < SPAN,
                p >= 1,
        ;
    }
    let more = range::power(2, (e - k) as nat);
    range::lemma_power_add(2, (e - k) as nat, k);
    assert((e - k) as nat + k == e);
    assert(n == (h * more) * step + 0) by (nonlinear_arith)
        requires
            n == h * p,
            p == more * step,
    ;
    assert(1 * step == step) by (nonlinear_arith);
    double::lemma_nearest_even_is(n, step, h * more, 0);
}

/// A whole number of ones rounds to itself.
pub proof fn lemma_whole_doubles_stay(k: nat)
    requires
        k < SPAN,
    ensures
        double::nearest(k * double::one(), 1) == k * double::one(),
{
    lemma_doubles_stay(k, 112);
}

/// The double of a scale of `scale` units is exactly that scale.
pub open spec fn held_exactly(scale: int) -> bool {
    scale > 0 && number::UNITS_PER_ONE * double::of_units(scale) == scale * double::one()
}

/// One is held exactly.
pub proof fn lemma_one_is_held_exactly()
    ensures
        held_exactly(number::UNITS_PER_ONE as int),
{
    let d = number::UNITS_PER_ONE as nat;
    double::lemma_one();
    lemma_whole_doubles_stay(1);
    assert(1 * double::one() == double::one()) by (nonlinear_arith);
    assert(d * double::one() * 1 == double::one() * d) by (nonlinear_arith);
    double::lemma_nearest_ratio(d * double::one(), d, double::one(), 1);
}

/// Where a scale is held exactly and `size` pixels at that scale are `length` whole
/// ones, the quotient is exactly that.
pub proof fn lemma_exact_quotient(size: nat, scale: int, length: nat)
    requires
        held_exactly(scale),
        size * number::UNITS_PER_ONE == length * scale,
        length < SPAN,
    ensures
        double::over_units(size, scale) == length * double::one(),
        double::whole(double::over_units(size, scale)) == length,
{
    let u = number::UNITS_PER_ONE as int;
    let g = double::of_units(scale);
    let o = double::one() as int;
    double::lemma_one();
    assert(g >= 1) by (nonlinear_arith)
        requires
            u * g == scale * o,
            scale >= 1,
            o >= 1,
            u > 0,
    ;
    let n = size * double::one() * double::one();
    assert(u * (size * o * o) == u * (length * o * g)) by (nonlinear_arith)
        requires
            u * g == scale * o,
            size * u == length * scale,
    ;
    assert(size * o * o == length * o * g) by (nonlinear_arith)
        requires
            u * (size * o * o) == u * (length * o * g),
            u > 0,
    ;
    assert(n * 1 == (length * double::one()) * (g as nat)) by (nonlinear_arith)
        requires
            n == size * o * o,
            size * o * o == length * o * g,
            g >= 1,
            o == double::one(),
    ;
    double::lemma_nearest_ratio(n, g as nat, length * double::one(), 1);
    lemma_whole_doubles_stay(length);
    let w = length * double::one();
    assert((2 * w + double::one()) / (2 * double::one()) == length) by {
        assert(2 * w + double::one() == length * (2 * double::one()) + double::one()) by (nonlinear_arith)
            requires
                w == length * double::one(),
        ;
        vstd::arithmetic::div_mod::lemma_fundamental_div_mod_converse(
            (2 * w + double::one()) as int,
            (2 * double::one()) as int,
            length as int,
            double::one() as int,
        );
    }
}

/// Where a scale is held exactly and `size` pixels at that scale are `length` whole
/// ones, they end that much behind where they begin.
pub proof fn lemma_exact_end(start: int, size: nat, scale: int, length: nat)
    requires
        held_exactly(scale),
        size * number::UNITS_PER_ONE == length * scale,
        length < 0x1000_0000_0000,
        -0x1000_0000_0000 < start < 0x1000_0000_0000,
    ensures
        double::ends_at(start, size, scale) == (start + length) * double::one(),
{
    reveal(double::ends_at);
    lemma_exact_quotient(size, scale, length);
    let end = start + length;
    assert(start * double::one() + length * double::one() == end * double::one()) by (nonlinear_arith)
        requires
            end == start + length,
    ;
    double::lemma_one();
    if end < 0 {
        lemma_whole_doubles_stay((-end) as nat);
        assert(((-end) as nat) * double::one() == -(end * double::one())) by (nonlinear_arith)
            requires
                end < 0,
        ;
        assert(end * double::one() < 0) by (nonlinear_arith)
            requires
                end < 0,
                double::one() >= 1,
        ;
    } else {
        lemma_whole_doubles_stay(end as nat);
        assert(end * double::one() >= 0) by (nonlinear_arith)
            requires
                end >= 0,
        ;
    }
}

// ---------------------------------------------------------------------------
// Bounds of quotients and ends
// ---------------------------------------------------------------------------
proof fn lemma_ratio_of_products(a: int, b: int, c: int)
    requires
        a >= 0,
        b >= 0,
        SPAN * (c - a) <= 2 * a,
        SPAN * (a - c) <= 2 * a,
        SPAN * (c - b) <= 2 * b,
        SPAN * (b - c) <= 2 * b,
    ensures
        SPAN * (a - b) <= 8 * b,
        SPAN * (b - a) <= 8 * b,
{
}

/// A quotient is off by no more than a few parts in the mantissa.
pub proof fn lemma_quotient_error(size: nat, scale: int)
    requires
        1 <= size < 0x1_0000_0000,
        100_000_000_000_000_000 <= scale <= 10_000_000_000_000_000_000,
    ensures
        SPAN * (double::over_units(size, scale) * scale - size * number::UNITS_PER_ONE * double::one()) <= 8 * (size
            * number::UNITS_PER_ONE * double::one()),
        SPAN * (size * number::UNITS_PER_ONE * double::one() - double::over_units(size, scale) * scale) <= 8 * (size
            * number::UNITS_PER_ONE * double::one()),
{
    let u = number::UNITS_PER_ONE as int;
    let o = double::one() as int;
    let g = double::of_units(scale);
    double::lemma_one();
    double::lemma_of_units_error(scale);
    let so = scale * o;
    assert(so >= 100_000_000_000_000_000 * o && so <= 10_000_000_000_000_000_000 * o)
        by (nonlinear_arith)
        requires
            100_000_000_000_000_000 <= scale <= 10_000_000_000_000_000_000,
            so == scale * o,
            o >= 0,
    ;
    let ug = u * g;
    assert(SPAN * (ug - so) <= 2 * so && SPAN * (so - ug) <= 2 * so);
    assert(1 <= g <= 20 * o);
    let n = size * double::one() * double::one();
    let q = double::over_units(size, scale);
    double::lemma_nearest_error(n, g as nat);
    assert(n >= o * o) by (nonlinear_arith)
        requires
            n == size * o * o,
            size >= 1,
            o >= 0,
    ;
    assert(SPAN * g <= n) by (nonlinear_arith)
        requires
            n >= o * o,
            g <= 20 * o,
            o == 5_192_296_858_534_827_628_530_496_329_220_096,
            SPAN == 9_007_199_254_740_992,
    ;
    let gq = g * q;
    assert(((g as nat) * q) as int == gq);
    assert(SPAN * (gq - n) <= 2 * n && SPAN * (n - gq) <= 2 * n);
    let a = q * so;
    let b = u * n;
    let c = q * ug;
    assert(SPAN * (c - a) <= 2 * a && SPAN * (a - c) <= 2 * a && a >= 0) by (nonlinear_arith)
        requires
            a == q * so,
            c == q * ug,
            q >= 0,
            so >= 0,
            SPAN * (ug - so) <= 2 * so,
            SPAN * (so - ug) <= 2 * so,
    ;
    assert(SPAN * (u * gq - b) <= 2 * b && SPAN * (b - u * gq) <= 2 * b && b >= 0)
        by (nonlinear_arith)
        requires
            b == u * n,
            u >= 0,
            n >= 0,
            SPAN * (gq - n) <= 2 * n,
            SPAN * (n - gq) <= 2 * n,
    ;
    assert(u * gq == c) by (nonlinear_arith)
        requires
            c == q * ug,
            ug == u * g,
            gq == g * q,
    ;
    lemma_ratio_of_products(a, b, c);
    let left = q * scale;
    let right = size * u * o;
    assert(a == o * left && b == o * right) by (nonlinear_arith)
        requires
            a == q * so,
            so == scale * o,
            left == q * scale,
            b == u * n,
            n == size * o * o,
            right == size * u * o,
    ;
    assert(SPAN * (left - right) <= 8 * right && SPAN * (right - left) <= 8 * right)
        by (nonlinear_arith)
        requires
            SPAN * (a - b) <= 8 * b,
            SPAN * (b - a) <= 8 * b,
            a == o * left,
            b == o * right,
            o >= 1,
    ;
}

/// Where something ends is told to a thousandth at least.
pub proof fn lemma_end_error(start: int, size: nat, scale: int, x: int)
    requires
        1 <= size < 0x1_0000_0000,
        100_000_000_000_000_000 <= scale <= 10_000_000_000_000_000_000,
        -0x8000_0000 <= start <= 0x8000_0000,
    ensures
        1000 * (start * scale + size * number::UNITS_PER_ONE) + scale <= 1000 * (x * scale)
            ==> double::ends_at(start, size, scale) <= x * double::one(),
        1000 * (start * scale + size * number::UNITS_PER_ONE) >= 1000 * (x * scale) + scale
            ==> double::ends_at(start, size, scale) > x * double::one(),
{
    reveal(double::ends_at);
    let u = number::UNITS_PER_ONE as int;
    let o = double::one() as int;
    let q = double::over_units(size, scale) as int;
    double::lemma_one();
    lemma_quotient_error(size, scale);
    let exact = start * o + q;
    let m = number::magnitude(exact);
    let end = double::ends_at(start, size, scale);
    double::lemma_nearest_error(m, 1);
    assert(1 * double::nearest(m, 1) == double::nearest(m, 1)) by (nonlinear_arith);
    assert(SPAN * (end - exact) <= m + SPAN && SPAN * (exact - end) <= m + SPAN);
    let su = size * u * o;
    let so = scale * o;
    let qs = q * scale;
    assert(su <= 0x1_0000_0000 * (10 * so) && so >= 0) by (nonlinear_arith)
        requires
            su == size * u * o,
            size < 0x1_0000_0000,
            so == scale * o,
            u <= 10 * scale,
            o >= 0,
            u >= 0,
            scale >= 0,
    ;
    // the quotient itself is bounded, so the rounding of the sum is small
    assert(qs <= 0x20_0000_0000 * so);
    assert(q <= 0x20_0000_0000 * o) by (nonlinear_arith)
        requires
            qs == q * scale,
            so == scale * o,
            qs <= 0x20_0000_0000 * so,
            scale >= 1,
    ;
    assert(-0x8000_0000 * o <= start * o <= 0x8000_0000 * o) by (nonlinear_arith)
        requires
            -0x8000_0000 <= start <= 0x8000_0000,
            o >= 0,
    ;
    assert(m <= 0x30_0000_0000 * o);
    assert(10_000 * (end - exact) <= o && 10_000 * (exact - end) <= o);
    let es = end * scale;
    let starts = start * o * scale;
    assert(10_000 * (es - (starts + qs)) <= so && 10_000 * ((starts + qs) - es) <= so)
        by (nonlinear_arith)
        requires
            10_000 * (end - exact) <= o,
            10_000 * (exact - end) <= o,
            exact == start * o + q,
            es == end * scale,
            starts == start * o * scale,
            qs == q * scale,
            so == scale * o,
            scale >= 1,
    ;
    // SPAN is far more than eighty thousand billion
    assert(10_000 * (qs - su) <= so && 10_000 * (su - qs) <= so);
    let near = start * scale + size * u;
    assert(starts + su == near * o) by (nonlinear_arith)
        requires
            starts == start * o * scale,
            su == size * u * o,
            near == start * scale + size * u,
    ;
    let no = near * o;
    let xs = x * scale;
    let xso = xs * o;
    assert(xso == x * o * scale) by (nonlinear_arith)
        requires
            xso == xs * o,
            xs == x * scale,
    ;
    if 1000 * near + scale <= 1000 * xs {
        assert(1000 * no + so <= 1000 * xso) by (nonlinear_arith)
            requires
                1000 * near + scale <= 1000 * xs,
                no == near * o,
                so == scale * o,
                xso == xs * o,
                o >= 0,
        ;
        assert(es <= xso);
        assert(end <= x * o) by (nonlinear_arith)
            requires
                es <= xso,
                es == end * scale,
                xso == x * o * scale,
                scale >= 1,
        ;
    }
    if 1000 * near >= 1000 * xs + scale {
        assert(1000 * no >= 1000 * xso + so) by (nonlinear_arith)
            requires
                1000 * near >= 1000 * xs + scale,
                no == near * o,
                so == scale * o,
                xso == xs * o,
                o >= 0,
        ;
        assert(so > 0) by (nonlinear_arith)
            requires
                so == scale * o,
                scale >= 1,
                o >= 1,
        ;
        assert(es > xso);
        assert(end > x * o) by (nonlinear_arith)
            requires
                es > xso,
                es == end * scale,
                xso == x * o * scale,
                scale >= 1,
        ;
    }
}

// ---------------------------------------------------------------------------
// Bounds of tolerances
// ---------------------------------------------------------------------------
/// The doubles of two decimals are apart as the decimals are, but for a quarter of the
/// slack.
proof fn lemma_difference_error(a: int, b: int, slack: int)
    requires
        slack >= 1_000,
        number::magnitude(a) <= 1_000_000_000_000_000 * slack,
        number::magnitude(b) <= 1_000_000_000_000_000 * slack,
    ensures
        4 * (number::UNITS_PER_ONE * (double::of_units(a) - double::of_units(b)) - (a - b)
            * double::one()) <= slack * double::one(),
        4 * ((a - b) * double::one() - number::UNITS_PER_ONE * (double::of_units(a)
            - double::of_units(b))) <= slack * double::one(),
        number::magnitude(a - b) * double::one() <= 2_000_000_000_000_000 * (slack
            * double::one()),
{
    double::lemma_one();
    double::lemma_of_units_error(a);
    double::lemma_of_units_error(b);
    let u = number::UNITS_PER_ONE as int;
    let o = double::one() as int;
    let x = double::of_units(a);
    let y = double::of_units(b);
    let ma = number::magnitude(a) * o;
    let mb = number::magnitude(b) * o;
    let so = slack * o;
    assert(0 <= ma <= 1_000_000_000_000_000 * so && 0 <= mb <= 1_000_000_000_000_000 * so && so
        >= 1_000 * o) by (nonlinear_arith)
        requires
            number::magnitude(a) <= 1_000_000_000_000_000 * slack,
            number::magnitude(b) <= 1_000_000_000_000_000 * slack,
            ma == number::magnitude(a) * o,
            mb == number::magnitude(b) * o,
            so == slack * o,
            slack >= 1_000,
            o >= 0,
    ;
    assert((a - b) * o == a * o - b * o && u * (x - y) == u * x - u * y) by (nonlinear_arith);
    assert(number::magnitude(a - b) * o <= ma + mb) by (nonlinear_arith)
        requires
            number::magnitude(a - b) <= number::magnitude(a) + number::magnitude(b),
            ma == number::magnitude(a) * o,
            mb == number::magnitude(b) * o,
            o >= 0,
    ;
}

/// The double of a tolerance is the tolerance, but for an eighth of the slack.
proof fn lemma_tolerance_error(tolerance: int, slack: int)
    requires
        0 <= tolerance <= number::UNITS_PER_ONE,
        slack >= 1_000,
    ensures
        8 * (number::UNITS_PER_ONE * double::of_units(tolerance) - tolerance * double::one())
            <= slack * double::one(),
        8 * (tolerance * double::one() - number::UNITS_PER_ONE * double::of_units(tolerance))
            <= slack * double::one(),
{
    double::lemma_one();
    double::lemma_of_units_error(tolerance);
    let o = double::one() as int;
    let to = tolerance * o;
    let so = slack * o;
    assert(0 <= to <= number::UNITS_PER_ONE * o && so >= 1_000 * o) by (nonlinear_arith)
        requires
            to == tolerance * o,
            0 <= tolerance <= number::UNITS_PER_ONE,
            so == slack * o,
            slack >= 1_000,
            o >= 0,
    ;
}

/// The double nearest to a distance is that distance, but for a quarter of the slack.
proof fn lemma_distance_error(m: nat, slack: int)
    requires
        slack >= 1_000,
        number::UNITS_PER_ONE * m <= 2_000_000_000_000_001 * (slack * double::one()),
    ensures
        4 * (number::UNITS_PER_ONE * double::nearest(m, 1) - number::UNITS_PER_ONE * m) <= slack
            * double::one(),
        4 * (number::UNITS_PER_ONE * m - number::UNITS_PER_ONE * double::nearest(m, 1)) <= slack
            * double::one(),
{
    double::lemma_one();
    double::lemma_nearest_error(m, 1);
    let near = double::nearest(m, 1) as int;
    let u = number::UNITS_PER_ONE as int;
    let o = double::one() as int;
    let so = slack * o;
    assert(1 * double::nearest(m, 1) == double::nearest(m, 1)) by (nonlinear_arith);
    let um = u * m;
    let un = u * near;
    assert(SPAN * (un - um) <= um + SPAN * u && SPAN * (um - un) <= um + SPAN * u)
        by (nonlinear_arith)
        requires
            SPAN * (near - m) <= m + SPAN,
            SPAN * (m - near) <= m + SPAN,
            un == u * near,
            um == u * m,
            u >= 0,
    ;
    assert(so >= 1_000 * o) by (nonlinear_arith)
        requires
            so == slack * o,
            slack >= 1_000,
            o >= 0,
    ;
}

proof fn lemma_compared(near: int, t: int, u: int)
    requires
        u > 0,
    ensures
        u * near <= u * t <==> near <= t,
{
    assert(u * near <= u * t <==> near <= t) by (nonlinear_arith)
        requires
            u > 0,
    ;
}

proof fn lemma_magnitude_times(n: int, u: int)
    requires
        u > 0,
    ensures
        number::magnitude(n) * u == number::magnitude(n * u),
        u * number::magnitude(n) == number::magnitude(u * n),
{
    assert(n * u == u * n && (n >= 0 <==> n * u >= 0) && (-n) * u == -(n * u) && u * (-n) == -(u
        * n)) by (nonlinear_arith)
        requires
            u > 0,
    ;
}

/// A tolerance is kept to `slack` units either way.
pub proof fn lemma_within_bounds(a: int, b: int, tolerance: int, slack: int)
    requires
        0 <= tolerance <= number::UNITS_PER_ONE,
        slack >= 1_000,
        number::magnitude(a) <= 1_000_000_000_000_000 * slack,
        number::magnitude(b) <= 1_000_000_000_000_000 * slack,
    ensures
        number::magnitude(a - b) + slack <= tolerance ==> double::within(a, b, tolerance),
        number::magnitude(a - b) >= tolerance + slack ==> !double::within(a, b, tolerance),
{
    reveal(double::within);
    let u = number::UNITS_PER_ONE as int;
    let o = double::one() as int;
    let x = double::of_units(a);
    let y = double::of_units(b);
    let t = double::of_units(tolerance);
    let m = number::magnitude(x - y);
    double::lemma_one();
    lemma_difference_error(a, b, slack);
    lemma_tolerance_error(tolerance, slack);
    lemma_magnitude_times(a - b, o);
    lemma_magnitude_times(x - y, u);
    lemma_distance_error(m, slack);
    let near = double::nearest(m, 1) as int;
    lemma_compared(near, t, u);
    let md = number::magnitude(a - b) * o;
    if number::magnitude(a - b) + slack <= tolerance {
        assert(md + slack * o <= tolerance * o) by (nonlinear_arith)
            requires
                number::magnitude(a - b) + slack <= tolerance,
                md == number::magnitude(a - b) * o,
                o >= 0,
        ;
        assert(u * near <= u * t);
    }
    if number::magnitude(a - b) >= tolerance + slack {
        assert(md >= tolerance * o + slack * o) by (nonlinear_arith)
            requires
                number::magnitude(a - b) >= tolerance + slack,
                md == number::magnitude(a - b) * o,
                o >= 0,
        ;
        assert(slack * o > 0) by (nonlinear_arith)
            requires
                slack >= 1,
                o >= 1,
        ;
        assert(u * near > u * t);
    }
}

// ---------------------------------------------------------------------------
// Bounds of sums
// ---------------------------------------------------------------------------
/// The shortest decimal of a double is close to it.
proof fn lemma_shortest_error(g: nat)
    requires
        g <= 100 * double::one(),
    ensures
        10 * (double::shortest(g) * double::one() - number::UNITS_PER_ONE * g) <= 200_000
            * double::one(),
        10 * (number::UNITS_PER_ONE * g - double::shortest(g) * double::one()) <= 200_000
            * double::one(),
{
    double::lemma_one();
    double::lemma_shortest_stands_for(g, 28);
    let w = double::shortest(g);
    let o = double::one();
    let u = number::UNITS_PER_ONE as int;
    assert(u * g <= 100 * u * o) by (nonlinear_arith)
        requires
            g <= 100 * o,
            u >= 0,
    ;
    if double::of_units(w as int) == g {
        double::lemma_of_units_error(w as int);
        assert(number::magnitude(w as int) * o == w * o);
    } else {
        assert(number::pow10(0) == 1);
        let d = o * number::pow10(0);
        let n = g * number::UNITS_PER_ONE as nat;
        assert(d == o) by (nonlinear_arith)
            requires
                d == o * number::pow10(0),
                number::pow10(0) == 1,
        ;
        double::lemma_nearest_even_error(n, d);
        let k = number::nearest_even(n, d);
        assert(w == k) by (nonlinear_arith)
            requires
                w == k * number::pow10(0),
                number::pow10(0) == 1,
        ;
        assert(n == u * g) by (nonlinear_arith)
            requires
                n == g * u,
        ;
    }
}

proof fn lemma_sum_in_grains(a: int, b: int)
    requires
        number::magnitude(a) <= 20_000_000_000_000_000_000,
        number::magnitude(b) <= 20_000_000_000_000_000_000,
    ensures
        10 * (number::UNITS_PER_ONE * double::sum(a, b) - (a + b) * double::one()) <= 200_000
            * double::one(),
        10 * ((a + b) * double::one() - number::UNITS_PER_ONE * double::sum(a, b)) <= 200_000
            * double::one(),
        number::magnitude(double::sum(a, b)) <= 100 * double::one(),
{
    double::lemma_one();
    double::lemma_of_units_error(a);
    double::lemma_of_units_error(b);
    let u = number::UNITS_PER_ONE as int;
    let o = double::one() as int;
    let x = double::of_units(a);
    let y = double::of_units(b);
    let s = x + y;
    let m = number::magnitude(s);
    double::lemma_nearest_error(m, 1);
    assert(1 * double::nearest(m, 1) == double::nearest(m, 1)) by (nonlinear_arith);
    let g = double::sum(a, b);
    assert(SPAN * (g - s) <= m + SPAN && SPAN * (s - g) <= m + SPAN);
    let ma = number::magnitude(a) * o;
    let mb = number::magnitude(b) * o;
    assert(0 <= ma <= 20_000_000_000_000_000_000 * o && 0 <= mb <= 20_000_000_000_000_000_000 * o)
        by (nonlinear_arith)
        requires
            number::magnitude(a) <= 20_000_000_000_000_000_000,
            number::magnitude(b) <= 20_000_000_000_000_000_000,
            ma == number::magnitude(a) * o,
            mb == number::magnitude(b) * o,
            o >= 0,
    ;
    lemma_magnitude_times(a, o);
    lemma_magnitude_times(b, o);
    assert((a + b) * o == a * o + b * o) by (nonlinear_arith);
    assert(-21 * o <= x <= 21 * o && -21 * o <= y <= 21 * o);
    let ug = u * g;
    let us = u * s;
    assert(us == u * x + u * y) by (nonlinear_arith)
        requires
            us == u * s,
            s == x + y,
    ;
    assert(SPAN * (ug - us) <= u * (m + SPAN) && SPAN * (us - ug) <= u * (m + SPAN))
        by (nonlinear_arith)
        requires
            SPAN * (g - s) <= m + SPAN,
            SPAN * (s - g) <= m + SPAN,
            ug == u * g,
            us == u * s,
            u >= 0,
    ;
    assert(u * (m + SPAN) <= u * (43 * o)) by (nonlinear_arith)
        requires
            m + SPAN <= 43 * o,
            u >= 0,
    ;
}

/// A sum of doubles is told to a tenth of a millionth of a millionth.
pub proof fn lemma_sum_error(a: int, b: int)
    requires
        number::magnitude(a) <= 20_000_000_000_000_000_000,
        number::magnitude(b) <= 20_000_000_000_000_000_000,
    ensures
        -100_000 <= double::shortest_signed(double::sum(a, b)) - (a + b) <= 100_000,
{
    double::lemma_one();
    lemma_sum_in_grains(a, b);
    let g = double::sum(a, b);
    let m = number::magnitude(g);
    lemma_shortest_error(m);
    let o = double::one() as int;
    let u = number::UNITS_PER_ONE as int;
    let w = double::shortest(m) as int;
    let r = double::shortest_signed(g);
    lemma_magnitude_times(g, u);
    assert((-w) * o == -(w * o)) by (nonlinear_arith);
    assert(r == w || r == -w);
    assert(10 * (r * o - u * g) <= 200_000 * o && 10 * (u * g - r * o) <= 200_000 * o) by {
        if g < 0 {
            assert(r == -w);
            assert(u * g == -(u * m)) by (nonlinear_arith)
                requires
                    g == -m,
            ;
        } else {
            assert(r == w && g == m);
        }
    }
    assert((r - (a + b)) * o == r * o - (a + b) * o) by (nonlinear_arith);
    let d = r - (a + b);
    assert(-40_000 * o <= d * o <= 40_000 * o);
    assert(-100_000 <= d <= 100_000) by (nonlinear_arith)
        requires
            -40_000 * o <= d * o <= 40_000 * o,
            o >= 1,
    ;
}

} // verus!
