//! Arithmetic that rounds as double precision does.
//!
//! A number is counted in grains of 2^-112. Doubles of at least 2^-60 are whole
//! numbers of grains.
use vstd::prelude::*;

use crate::number;
use crate::range;

verus! {

/// Two to the power of as many bits as a double keeps.
pub const SPAN: u128 = 9_007_199_254_740_992;

/// How many grains make one.
pub open spec fn one() -> nat {
    range::power(2, 112)
}

/// How many bits of `q` a double drops.
pub open spec fn dropped(q: nat) -> nat
    decreases q,
{
    if q < SPAN {
        0
    } else {
        1 + dropped(q / 2)
    }
}

/// The double nearest to `n / d` grains, of two equally near ones the even one.
pub open spec fn nearest(n: nat, d: nat) -> nat {
    let step = range::power(2, dropped(n / d));
    number::nearest_even(n, d * step) * step
}

/// The same with a sign.
pub open spec fn nearest_signed(n: int) -> int {
    if n < 0 {
        -(nearest((-n) as nat, 1) as int)
    } else {
        nearest(n as nat, 1) as int
    }
}

/// The double that a decimal of `v` units stands for.
pub open spec fn of_units(v: int) -> int {
    let grains = nearest(number::magnitude(v) * one(), number::UNITS_PER_ONE as nat) as int;
    if v < 0 {
        -grains
    } else {
        grains
    }
}

/// `value` divided by the double `g`.
pub open spec fn divided(value: nat, g: nat) -> nat {
    nearest(value * one() * one(), g)
}

// ---------------------------------------------------------------------------
// Ratios
// ---------------------------------------------------------------------------
proof fn lemma_nearest_even_scales(n: nat, d: nat, c: nat)
    requires
        d >= 1,
        c >= 1,
    ensures
        number::nearest_even(c * n, c * d) == number::nearest_even(n, d),
        (c * n) / (c * d) == n / d,
{
    let q = n / d;
    let r = n % d;
    vstd::arithmetic::div_mod::lemma_fundamental_div_mod(n as int, d as int);
    assert(c * n == (c * d) * q + c * r) by (nonlinear_arith)
        requires
            n == d * q + r,
    ;
    assert(c * r < c * d && c * d >= 1) by (nonlinear_arith)
        requires
            r < d,
            c >= 1,
            d >= 1,
    ;
    assert((c * d) * q == q * (c * d)) by (nonlinear_arith);
    vstd::arithmetic::div_mod::lemma_fundamental_div_mod_converse(
        (c * n) as int,
        (c * d) as int,
        q as int,
        (c * r) as int,
    );
    assert(2 * (c * r) == c * (2 * r)) by (nonlinear_arith);
    assert(c * (2 * r) > c * d <==> 2 * r > d) by (nonlinear_arith)
        requires
            c >= 1,
    ;
    assert(c * (2 * r) == c * d <==> 2 * r == d) by (nonlinear_arith)
        requires
            c >= 1,
    ;
}

/// Rounding goes by the ratio alone.
proof fn lemma_nearest_even_ratio(n: nat, d: nat, m: nat, e: nat)
    requires
        d >= 1,
        e >= 1,
        n * e == m * d,
    ensures
        number::nearest_even(n, d) == number::nearest_even(m, e),
        n / d == m / e,
{
    lemma_nearest_even_scales(n, d, e);
    lemma_nearest_even_scales(m, e, d);
    assert(e * n == d * m) by (nonlinear_arith)
        requires
            n * e == m * d,
    ;
    assert(e * d == d * e) by (nonlinear_arith);
}

pub(crate) proof fn lemma_nearest_even_error(n: nat, d: nat)
    requires
        d >= 1,
    ensures
        2 * (number::nearest_even(n, d) * d) <= 2 * n + d,
        2 * n <= 2 * (number::nearest_even(n, d) * d) + d,
{
    let q = n / d;
    vstd::arithmetic::div_mod::lemma_fundamental_div_mod(n as int, d as int);
    assert((q + 1) * d == d * q + d) by (nonlinear_arith);
    assert(q * d == d * q) by (nonlinear_arith);
}

/// The nearest double goes by the ratio alone.
pub proof fn lemma_nearest_ratio(n: nat, d: nat, m: nat, e: nat)
    requires
        d >= 1,
        e >= 1,
        n * e == m * d,
    ensures
        nearest(n, d) == nearest(m, e),
{
    lemma_nearest_even_ratio(n, d, m, e);
    let step = range::power(2, dropped(n / d));
    range::lemma_power_positive(2, dropped(n / d));
    assert(n * (e * step) == m * (d * step)) by (nonlinear_arith)
        requires
            n * e == m * d,
    ;
    assert(d * step >= 1 && e * step >= 1) by (nonlinear_arith)
        requires
            d >= 1,
            e >= 1,
            step >= 1,
    ;
    lemma_nearest_even_ratio(n, d * step, m, e * step);
}

proof fn lemma_dropped(q: nat, e: nat)
    requires
        q < SPAN * range::power(2, e),
        e > 0 ==> 2 * q >= SPAN * range::power(2, e),
    ensures
        dropped(q) == e,
    decreases e,
{
    if e == 0 {
    } else {
        let p = range::power(2, (e - 1) as nat);
        assert(range::power(2, e) == 2 * p);
        range::lemma_power_positive(2, (e - 1) as nat);
        assert(SPAN * (2 * p) == 2 * (SPAN * p)) by (nonlinear_arith);
        assert(SPAN * p >= SPAN) by (nonlinear_arith)
            requires
                p >= 1,
        ;
        if e > 1 {
            let h = range::power(2, (e - 2) as nat);
            assert(p == 2 * h);
            assert(SPAN * (2 * h) == 2 * (SPAN * h)) by (nonlinear_arith);
        }
        lemma_dropped(q / 2, (e - 1) as nat);
    }
}

/// What the nearest double is, once it is known how many bits are dropped.
proof fn lemma_nearest_at(n: nat, d: nat, e: nat)
    requires
        d >= 1,
        n < d * (SPAN * range::power(2, e)),
        e > 0 ==> 2 * n >= d * (SPAN * range::power(2, e)),
    ensures
        nearest(n, d) == number::nearest_even(n, d * range::power(2, e)) * range::power(2, e),
{
    let top = SPAN * range::power(2, e);
    let q = n / d;
    vstd::arithmetic::div_mod::lemma_fundamental_div_mod(n as int, d as int);
    assert(q < top) by (nonlinear_arith)
        requires
            n < d * top,
            n == d * q + n % d,
            n % d >= 0,
            d >= 1,
    ;
    if e > 0 {
        let half = SPAN * range::power(2, (e - 1) as nat);
        assert(top == 2 * half) by (nonlinear_arith)
            requires
                top == SPAN * range::power(2, e),
                half == SPAN * range::power(2, (e - 1) as nat),
                range::power(2, e) == 2 * range::power(2, (e - 1) as nat),
        ;
        assert(q >= half) by (nonlinear_arith)
            requires
                2 * n >= d * top,
                top == 2 * half,
                n == d * q + n % d,
                n % d < d,
                d >= 1,
        ;
    }
    lemma_dropped(q, e);
}

pub(crate) proof fn lemma_dropped_bits(q: nat)
    ensures
        dropped(q) > 0 ==> 2 * q >= SPAN * range::power(2, dropped(q)),
    decreases q,
{
    if q >= SPAN {
        lemma_dropped_bits(q / 2);
        let e = dropped(q / 2);
        let p = range::power(2, e);
        assert(range::power(2, e + 1) == 2 * p);
        if e == 0 {
            assert(p == 1);
        } else {
            assert(SPAN * (2 * p) == 2 * (SPAN * p)) by (nonlinear_arith);
        }
    }
}

/// A double lies no farther from the number than half its last bit.
pub proof fn lemma_nearest_error(n: nat, d: nat)
    requires
        d >= 1,
    ensures
        SPAN * (d * nearest(n, d)) <= SPAN * n + n + SPAN * d,
        SPAN * n <= SPAN * (d * nearest(n, d)) + n + SPAN * d,
        SPAN * n >= SPAN * SPAN * d ==> SPAN * (d * nearest(n, d)) <= SPAN * n + n,
        SPAN * n >= SPAN * SPAN * d ==> SPAN * n <= SPAN * (d * nearest(n, d)) + n,
{
    let q = n / d;
    let step = range::power(2, dropped(q));
    let whole = d * step;
    let k = number::nearest_even(n, whole);
    lemma_dropped_bits(q);
    range::lemma_power_positive(2, dropped(q));
    assert(whole >= 1) by (nonlinear_arith)
        requires
            d >= 1,
            step >= 1,
            whole == d * step,
    ;
    vstd::arithmetic::div_mod::lemma_fundamental_div_mod(n as int, whole as int);
    vstd::arithmetic::div_mod::lemma_fundamental_div_mod(n as int, d as int);
    let f = n / whole;
    let r = n % whole;
    assert(whole * f == f * whole) by (nonlinear_arith);
    assert((f + 1) * whole == f * whole + whole) by (nonlinear_arith);
    assert(2 * (k * whole) <= 2 * n + whole && 2 * n <= 2 * (k * whole) + whole);
    assert(d * (k * step) == k * (d * step)) by (nonlinear_arith);
    if dropped(q) > 0 {
        assert(SPAN * whole <= 2 * n) by (nonlinear_arith)
            requires
                whole == d * step,
                2 * q >= SPAN * step,
                n >= d * q,
                d >= 1,
        ;
    } else {
        assert(step == 1);
        assert(whole == d) by (nonlinear_arith)
            requires
                whole == d * step,
                step == 1,
        ;
        assert(q < SPAN);
        assert(n < SPAN * d) by (nonlinear_arith)
            requires
                n == d * q + n % d,
                n % d < d,
                q < SPAN,
                d >= 1,
        ;
        assert(SPAN * n < SPAN * SPAN * d) by (nonlinear_arith)
            requires
                n < SPAN * d,
        ;
    }
}

// ---------------------------------------------------------------------------
// Doubles
// ---------------------------------------------------------------------------
/// A double that is not negative: `mantissa * 2^exponent` grains.
#[derive(Debug, Clone, Copy, PartialEq, Eq, Structural)]
pub struct Double {
    mantissa: u64,
    exponent: u32,
}

impl Double {
    /// The number, in grains.
    pub closed spec fn grains(self) -> nat {
        self.mantissa as nat * range::power(2, self.exponent as nat)
    }

    /// All bits of the mantissa are in use.
    spec fn normal(self) -> bool {
        2 * self.mantissa >= SPAN
    }

    #[verifier::type_invariant]
    spec fn fits(self) -> bool {
        self.mantissa <= SPAN && self.exponent <= 1_000
    }
}

proof fn lemma_large_power()
    ensures
        range::power(2, 75) == 0x800_0000_0000_0000_0000,
{
    range::lemma_power_add(2, 25, 25);
    range::lemma_power_add(2, 25, 50);
    reveal_with_fuel(range::power, 26);
    assert(range::power(2, 25) == 0x200_0000);
}

proof fn lemma_exponent_bounded(e: nat)
    requires
        range::power(2, e) <= 0x400_0000_0000_0000_0000,
    ensures
        e <= 74,
{
    if e > 74 {
        range::lemma_power_add(2, 75, (e - 75) as nat);
        range::lemma_power_positive(2, (e - 75) as nat);
        lemma_large_power();
        let p = range::power(2, (e - 75) as nat);
        assert(0x800_0000_0000_0000_0000 * p >= 0x800_0000_0000_0000_0000) by (nonlinear_arith)
            requires
                p >= 1,
        ;
    }
}

/// The double nearest to `n * 2^a / d` grains.
fn round(n: u128, d: u128, a: u32) -> (result: Double)
    requires
        n < 0x8000_0000_0000_0000_0000_0000_0000_0000,
        1 <= d <= 0x400_0000_0000_0000_0000,
        a <= 300,
    ensures
        result.grains() == nearest(n as nat * range::power(2, a as nat), d as nat),
        2 * (n * range::power(2, a as nat)) >= d * SPAN ==> result.normal(),
        result.exponent <= a + 75,
        n == 0 ==> result.exponent == 0,
        result.exponent > 0 ==> result.normal(),
{
    let ghost whole = n as nat * range::power(2, a as nat);
    let ghost given = a;
    let ghost nothing = n == 0;
    let ghost divisor = d as nat;
    let mut n: u128 = n;
    let mut d: u128 = d;
    let mut a: u32 = a;
    while a > 0 && n < d * 4_503_599_627_370_496
        invariant
            1 <= d <= 0x400_0000_0000_0000_0000,
            d == divisor,
            n < 0x8000_0000_0000_0000_0000_0000_0000_0000,
            n * range::power(2, a as nat) == whole,
            a <= given <= 300,
            nothing ==> n == 0,
        ensures
            a == 0 || n >= d * 4_503_599_627_370_496,
        decreases a,
    {
        let p = Ghost(range::power(2, (a - 1) as nat));
        assert(range::power(2, a as nat) == 2 * p@);
        assert(n * (2 * p@) == (n * 2) * p@) by (nonlinear_arith);
        n = n * 2;
        a = a - 1;
    }
    assert(divisor * 1 == divisor) by (nonlinear_arith);
    let ghost mut up: nat = 0;
    let ghost first: nat = a as nat;
    assert(n * range::power(2, first) * 1 == whole) by (nonlinear_arith)
        requires
            n * range::power(2, first) == whole,
    ;
    while n >= d * 9_007_199_254_740_992
        invariant
            1 <= d < 0x800_0000_0000_0000_0000,
            d == divisor * range::power(2, up),
            a == first + up,
            first <= given <= 300,
            nothing ==> n == 0 && a == 0,
            up <= 75,
            divisor >= 1,
            d >= range::power(2, up),
            n < 0x8000_0000_0000_0000_0000_0000_0000_0000,
            n * range::power(2, first) == whole,
            a == 0 || n >= d * 4_503_599_627_370_496,
        decreases n - d,
    {
        assert(d < 0x400_0000_0000_0000_0000) by (nonlinear_arith)
            requires
                n >= d * 9_007_199_254_740_992,
                n < 0x8000_0000_0000_0000_0000_0000_0000_0000,
        ;
        proof {
            let p = range::power(2, up);
            assert(range::power(2, up + 1) == 2 * p);
            assert(divisor * (2 * p) == 2 * (divisor * p)) by (nonlinear_arith);
            lemma_exponent_bounded(up);
        }
        d = d * 2;
        a = a + 1;
        proof {
            up = up + 1;
        }
    }
    let quotient: u128 = n / d;
    let remainder: u128 = n % d;
    assert(quotient < SPAN) by (nonlinear_arith)
        requires
            n < d * SPAN,
            quotient == n / d,
            d >= 1,
    ;
    let twice: u128 = 2 * remainder;
    let mantissa: u128 = if twice > d || (twice == d && quotient % 2 == 1) {
        quotient + 1
    } else {
        quotient
    };
    proof {
        let e = a as nat;
        let pa = range::power(2, e);
        let pf = range::power(2, first);
        let pu = range::power(2, up);
        range::lemma_power_add(2, first, up);
        range::lemma_power_positive(2, e);
        range::lemma_power_positive(2, first);
        range::lemma_power_positive(2, up);
        // n / d == whole / (divisor * pa)
        assert(n * (divisor * pa) == whole * d) by (nonlinear_arith)
            requires
                n * pf == whole,
                pa == pf * pu,
                d == divisor * pu,
        ;
        assert(divisor * pa >= 1) by (nonlinear_arith)
            requires
                divisor >= 1,
                pa >= 1,
        ;
        lemma_nearest_even_ratio(n as nat, d as nat, whole, divisor * pa);
        assert(whole < divisor * (SPAN * pa)) by (nonlinear_arith)
            requires
                n * (divisor * pa) == whole * d,
                n < d * SPAN,
                d >= 1,
                divisor * pa >= 1,
        ;
        if e > 0 {
            assert(2 * whole >= divisor * (SPAN * pa)) by (nonlinear_arith)
                requires
                    n * (divisor * pa) == whole * d,
                    2 * n >= d * SPAN,
                    d >= 1,
                    divisor * pa >= 1,
            ;
        }
        lemma_nearest_at(whole, divisor, e);
        assert(mantissa == number::nearest_even(n as nat, d as nat));
        if e > 0 {
            assert(2 * quotient >= SPAN) by (nonlinear_arith)
                requires
                    n >= d * 4_503_599_627_370_496,
                    quotient == n / d,
                    d >= 1,
                    SPAN == 9_007_199_254_740_992,
            ;
        }
        if 2 * whole >= divisor * SPAN {
            assert(2 * n >= d * SPAN) by {
                if a == 0 {
                    assert(up == 0 && first == 0);
                    assert(pu == 1 && pf == 1);
                    assert(d == divisor && n == whole) by (nonlinear_arith)
                        requires
                            pu == 1,
                            pf == 1,
                            d == divisor * pu,
                            n * pf == whole,
                    ;
                    assert(d * SPAN == divisor * SPAN);
                }
            }
            assert(2 * quotient >= SPAN) by (nonlinear_arith)
                requires
                    n >= d * 4_503_599_627_370_496,
                    quotient == n / d,
                    d >= 1,
                    SPAN == 9_007_199_254_740_992,
            ;
        }
    }
    Double { mantissa: mantissa as u64, exponent: a }
}

proof fn lemma_power_at_most(k: nat)
    requires
        k <= 126,
    ensures
        range::power(2, k) <= 0x4000_0000_0000_0000_0000_0000_0000_0000,
{
    let p = range::power(2, k);
    let rest = range::power(2, (126 - k) as nat);
    range::lemma_power_add(2, k, (126 - k) as nat);
    range::lemma_power_positive(2, (126 - k) as nat);
    range::lemma_power_add(2, 21, 21);
    range::lemma_power_add(2, 21, 42);
    range::lemma_power_add(2, 63, 63);
    lemma_power_21();
    let a = range::power(2, 21);
    let b = range::power(2, 42);
    let c = range::power(2, 63);
    assert(b == 0x400_0000_0000 && c == 0x8000_0000_0000_0000) by (nonlinear_arith)
        requires
            a == 0x20_0000,
            b == a * a,
            c == a * b,
    ;
    assert(c * c == 0x4000_0000_0000_0000_0000_0000_0000_0000) by (nonlinear_arith)
        requires
            c == 0x8000_0000_0000_0000,
    ;
    assert(p <= p * rest) by (nonlinear_arith)
        requires
            rest >= 1,
    ;
}

proof fn lemma_power_21()
    ensures
        range::power(2, 21) == 0x20_0000,
{
    reveal_with_fuel(range::power, 22);
}

/// Two to the power of `k`.
fn two_to(k: u32) -> (result: u128)
    requires
        k <= 126,
    ensures
        result == range::power(2, k as nat),
        1 <= result <= 0x4000_0000_0000_0000_0000_0000_0000_0000,
{
    let mut result: u128 = 1;
    let mut i: u32 = 0;
    while i < k
        invariant
            i <= k <= 126,
            result == range::power(2, i as nat),
        decreases k - i,
    {
        proof {
            lemma_power_at_most((i + 1) as nat);
        }
        result = result * 2;
        i += 1;
    }
    proof {
        lemma_power_at_most(k as nat);
        range::lemma_power_positive(2, k as nat);
    }
    result
}

proof fn lemma_grains_apart(mantissa: nat, low: nat, k: nat)
    ensures
        mantissa * range::power(2, low + k) == (mantissa * range::power(2, k)) * range::power(
            2,
            low,
        ),
{
    range::lemma_power_add(2, low, k);
    let p = range::power(2, k);
    let q = range::power(2, low);
    assert(mantissa * (q * p) == (mantissa * p) * q) by (nonlinear_arith);
}

proof fn lemma_products_compare(a: nat, b: nat, p: nat)
    requires
        p >= 1,
    ensures
        a * p <= b * p <==> a <= b,
{
    assert(a * p <= b * p <==> a <= b) by (nonlinear_arith)
        requires
            p >= 1,
    ;
}

proof fn lemma_far_power(k: nat)
    requires
        k >= 64,
    ensures
        range::power(2, k) > SPAN,
{
    range::lemma_power_add(2, 63, (k - 63) as nat);
    range::lemma_power_positive(2, (k - 63) as nat);
    range::lemma_power_add(2, 21, 21);
    range::lemma_power_add(2, 21, 42);
    lemma_power_21();
    let a = range::power(2, 21);
    let b = range::power(2, 42);
    let c = range::power(2, 63);
    let rest = range::power(2, (k - 63) as nat);
    assert(c * rest > SPAN) by (nonlinear_arith)
        requires
            a == 0x20_0000,
            b == a * a,
            c == a * b,
            rest >= 1,
            SPAN == 9_007_199_254_740_992,
    ;
}

/// The sum of two numbers, or how far apart they are, in grains.
pub open spec fn combined(a: nat, b: nat, add: bool) -> nat {
    if add {
        a + b
    } else if a >= b {
        (a - b) as nat
    } else {
        (b - a) as nat
    }
}

impl Double {
    /// The double that a decimal of so many units stands for.
    fn of_magnitude(units: u128) -> (result: Self)
        requires
            units <= 40_000_000_000_000_000_000_000_000_000,
        ensures
            result.grains() == nearest(units as nat * one(), number::UNITS_PER_ONE as nat),
            units > 0 ==> result.normal(),
            units == 0 ==> result.exponent == 0,
            result.exponent <= 119,
            result.exponent > 0 ==> result.normal(),
            result.grains() <= 80_000_000_000 * one(),
    {
        proof {
            range::lemma_power_add(2, 42, 70);
            range::lemma_power_add(2, 21, 21);
            range::lemma_power_add(2, 21, 49);
            range::lemma_power_add(2, 21, 28);
            range::lemma_power_add(2, 21, 7);
            lemma_power_21();
            reveal_with_fuel(range::power, 8);
            let a = range::power(2, 21);
            let b = range::power(2, 42);
            let c = range::power(2, 28);
            let d = range::power(2, 49);
            let e = range::power(2, 70);
            assert(2 * (b * e) >= 1_000_000_000_000_000_000 * SPAN) by (nonlinear_arith)
                requires
                    a == 0x20_0000,
                    b == a * a,
                    c == a * 128,
                    d == a * c,
                    e == a * d,
                    SPAN == 9_007_199_254_740_992,
            ;
            if units > 0 {
                let p = range::power(2, 112);
                assert(2 * (units * p) >= 2 * p) by (nonlinear_arith)
                    requires
                        units >= 1,
                ;
            }
        }
        let result: Double = round(units, 1_000_000_000_000_000_000, 112);
        proof {
            let n = units as nat * one();
            let d = number::UNITS_PER_ONE as nat;
            let g = result.grains();
            lemma_one();
            lemma_nearest_error(n, d);
            assert(n <= 40_000_000_000_000_000_000_000_000_000 * one()) by (nonlinear_arith)
                requires
                    n == units * one(),
                    units <= 40_000_000_000_000_000_000_000_000_000,
            ;
            assert(g <= 80_000_000_000 * one()) by (nonlinear_arith)
                requires
                    SPAN * (d * g) <= SPAN * n + n + SPAN * d,
                    n <= 40_000_000_000_000_000_000_000_000_000 * one(),
                    d == 1_000_000_000_000_000_000,
                    SPAN == 9_007_199_254_740_992,
                    one() == 5_192_296_858_534_827_628_530_496_329_220_096,
            ;
            if units > 0 && result.exponent > 119 {
                let m = result.mantissa as nat;
                let rest = range::power(2, (result.exponent - 112) as nat);
                range::lemma_power_add(2, 112, (result.exponent - 112) as nat);
                range::lemma_power_add(2, 8, (result.exponent - 120) as nat);
                range::lemma_power_positive(2, (result.exponent - 120) as nat);
                let tail = range::power(2, (result.exponent - 120) as nat);
                lemma_power_8();
                assert(m * (one() * rest) > 80_000_000_000 * one()) by (nonlinear_arith)
                    requires
                        2 * m >= SPAN,
                        SPAN == 9_007_199_254_740_992,
                        rest == 256 * tail,
                        tail >= 1,
                        one() >= 1,
                ;
            }
        }
        result
    }

    /// Whether this number is no larger than another.
    pub fn at_most(&self, other: &Self) -> (result: bool)
        ensures
            result == (self.grains() <= other.grains()),
    {
        proof {
            use_type_invariant(self);
            use_type_invariant(other);
        }
        let ghost m = self.mantissa as nat;
        let ghost o = other.mantissa as nat;
        if self.exponent >= other.exponent {
            let k: u32 = self.exponent - other.exponent;
            let ghost low = other.exponent as nat;
            let ghost p = range::power(2, k as nat);
            proof {
                range::lemma_power_positive(2, low);
                lemma_grains_apart(m, low, k as nat);
                lemma_products_compare(m * p, o, range::power(2, low));
            }
            if k >= 64 {
                proof {
                    lemma_far_power(k as nat);
                    assert(m == 0 ==> m * p == 0) by (nonlinear_arith);
                    assert(m >= 1 ==> m * p >= p) by (nonlinear_arith);
                }
                self.mantissa == 0
            } else {
                let scale: u128 = two_to(k);
                proof {
                    lemma_small_shift(k as nat);
                    assert(m * p <= SPAN * 0x8000_0000_0000_0000) by (nonlinear_arith)
                        requires
                            m <= SPAN,
                            p <= 0x8000_0000_0000_0000,
                    ;
                }
                self.mantissa as u128 * scale <= other.mantissa as u128
            }
        } else {
            let k: u32 = other.exponent - self.exponent;
            let ghost low = self.exponent as nat;
            let ghost p = range::power(2, k as nat);
            proof {
                range::lemma_power_positive(2, low);
                lemma_grains_apart(o, low, k as nat);
                lemma_products_compare(m, o * p, range::power(2, low));
            }
            if k >= 64 {
                proof {
                    lemma_far_power(k as nat);
                    assert(o == 0 ==> o * p == 0) by (nonlinear_arith);
                    assert(o >= 1 ==> o * p >= p) by (nonlinear_arith);
                }
                self.mantissa == 0 || other.mantissa > 0
            } else {
                let scale: u128 = two_to(k);
                proof {
                    lemma_small_shift(k as nat);
                    assert(o * p <= SPAN * 0x8000_0000_0000_0000) by (nonlinear_arith)
                        requires
                            o <= SPAN,
                            p <= 0x8000_0000_0000_0000,
                    ;
                }
                self.mantissa as u128 <= other.mantissa as u128 * scale
            }
        }
    }

    /// The sum of two numbers, or how far apart they are, as a double.
    fn combine(&self, other: &Self, add: bool) -> (result: Self)
        requires
            self.exponent <= 300,
            other.exponent <= 300,
            self.mantissa * range::power(2, (self.exponent - other.exponent) as nat)
                < 0x4000_0000_0000_0000_0000_0000_0000_0000 || self.exponent <= other.exponent,
            other.mantissa * range::power(2, (other.exponent - self.exponent) as nat)
                < 0x4000_0000_0000_0000_0000_0000_0000_0000 || other.exponent <= self.exponent,
            self.exponent - other.exponent <= 126,
            other.exponent - self.exponent <= 126,
        ensures
            result.grains() == nearest(combined(self.grains(), other.grains(), add), 1),
            result.exponent > 0 ==> result.normal(),
    {
        proof {
            use_type_invariant(self);
            use_type_invariant(other);
        }
        let low: u32 = if self.exponent <= other.exponent {
            self.exponent
        } else {
            other.exponent
        };
        let ghost p = range::power(2, low as nat);
        let ghost shift = range::power(2, (self.exponent - low) as nat);
        let ghost other_shift = range::power(2, (other.exponent - low) as nat);
        proof {
            range::lemma_power_positive(2, low as nat);
            lemma_grains_apart(
                self.mantissa as nat,
                low as nat,
                (self.exponent - low) as nat,
            );
            lemma_grains_apart(
                other.mantissa as nat,
                low as nat,
                (other.exponent - low) as nat,
            );
            assert(self.mantissa * 1 == self.mantissa) by (nonlinear_arith);
            assert(other.mantissa * 1 == other.mantissa) by (nonlinear_arith);
        }
        let a: u128 = self.mantissa as u128 * two_to(self.exponent - low);
        let b: u128 = other.mantissa as u128 * two_to(other.exponent - low);
        let n: u128 = if add {
            a + b
        } else if a >= b {
            a - b
        } else {
            b - a
        };
        proof {
            lemma_products_compare(b as nat, a as nat, p);
            assert((a + b) * p == a * p + b * p) by (nonlinear_arith);
            assert((a - b) * p == a * p - b * p) by (nonlinear_arith);
            assert((b - a) * p == b * p - a * p) by (nonlinear_arith);
        }
        round(n, 1, low)
    }
}

proof fn lemma_small_shift(k: nat)
    requires
        k <= 63,
    ensures
        range::power(2, k) <= 0x8000_0000_0000_0000,
{
    let p = range::power(2, k);
    let rest = range::power(2, (63 - k) as nat);
    range::lemma_power_add(2, k, (63 - k) as nat);
    range::lemma_power_positive(2, (63 - k) as nat);
    range::lemma_power_add(2, 21, 21);
    range::lemma_power_add(2, 21, 42);
    lemma_power_21();
    let a = range::power(2, 21);
    let b = range::power(2, 42);
    let c = range::power(2, 63);
    assert(c == 0x8000_0000_0000_0000) by (nonlinear_arith)
        requires
            a == 0x20_0000,
            b == a * a,
            c == a * b,
    ;
    assert(p <= p * rest) by (nonlinear_arith)
        requires
            rest >= 1,
    ;
}

// ---------------------------------------------------------------------------
// Tolerances
// ---------------------------------------------------------------------------
/// The doubles that two decimals stand for differ by no more than the one that
/// `tolerance` stands for, the difference being a double too.
#[verifier::opaque]
pub open spec fn within(a: int, b: int, tolerance: int) -> bool {
    nearest(number::magnitude(of_units(a) - of_units(b)), 1) <= of_units(tolerance)
}

/// A number of another order stays far from the smaller one.
proof fn lemma_far_apart(high: Double, low: Double, add: bool, tolerance: nat)
    requires
        high.normal(),
        low.mantissa <= SPAN,
        high.exponent >= low.exponent + 73,
        0 <= tolerance <= number::UNITS_PER_ONE,
    ensures
        nearest(combined(high.grains(), low.grains(), add), 1) > nearest(
            tolerance * one(),
            number::UNITS_PER_ONE as nat,
        ),
        nearest(combined(low.grains(), high.grains(), add), 1) > nearest(
            tolerance * one(),
            number::UNITS_PER_ONE as nat,
        ),
{
    let c = combined(high.grains(), low.grains(), add);
    let n = nearest(c, 1);
    let d = number::UNITS_PER_ONE as nat;
    let t = nearest(tolerance * one(), d);
    let k = (high.exponent - low.exponent - 73) as nat;
    let q = range::power(2, low.exponent as nat);
    let p = range::power(2, 73);
    let r = range::power(2, k);
    let top = range::power(2, high.exponent as nat);
    range::lemma_power_add(2, low.exponent as nat, 73);
    range::lemma_power_add(2, (low.exponent + 73) as nat, k);
    range::lemma_power_positive(2, low.exponent as nat);
    range::lemma_power_positive(2, k);
    range::lemma_power_add(2, 73, 39);
    range::lemma_power_add(2, 21, 18);
    range::lemma_power_add(2, 21, 52);
    range::lemma_power_add(2, 21, 31);
    range::lemma_power_add(2, 21, 10);
    lemma_power_21();
    lemma_power_18();
    let a21 = range::power(2, 21);
    let a39 = range::power(2, 39);
    let a10 = range::power(2, 10);
    let a31 = range::power(2, 31);
    let a52 = range::power(2, 52);
    assert(a39 == 549_755_813_888) by (nonlinear_arith)
        requires
            a21 == 0x20_0000,
            a39 == a21 * 0x4_0000,
    ;
    assert(p == 9_444_732_965_739_290_427_392) by (nonlinear_arith)
        requires
            a21 == 0x20_0000,
            a10 == 1024,
            a31 == a21 * a10,
            a52 == a21 * a31,
            p == a21 * a52,
    ;
    assert(one() == 5_192_296_858_534_827_628_530_496_329_220_096) by (nonlinear_arith)
        requires
            one() == p * a39,
            p == 9_444_732_965_739_290_427_392,
            a39 == 549_755_813_888,
    ;
    assert(top >= p * q && top >= p) by (nonlinear_arith)
        requires
            top == (q * p) * r,
            q >= 1,
            r >= 1,
            p == 9_444_732_965_739_290_427_392,
    ;
    let h = high.mantissa as nat;
    let l = low.mantissa as nat;
    assert(2 * (h * top) >= SPAN * top) by (nonlinear_arith)
        requires
            2 * h >= SPAN,
    ;
    assert(4 * (l * q) <= top) by (nonlinear_arith)
        requires
            l <= SPAN,
            top >= p * q,
            p == 9_444_732_965_739_290_427_392,
            SPAN == 9_007_199_254_740_992,
    ;
    assert(4 * c >= SPAN * top) by (nonlinear_arith)
        requires
            2 * (h * top) >= SPAN * top,
            4 * (l * q) <= top,
            c >= h * top - l * q,
            SPAN == 9_007_199_254_740_992,
    ;
    lemma_nearest_error(c, 1);
    assert(1 * n == n) by (nonlinear_arith);
    lemma_nearest_error(tolerance * one(), d);
    assert(tolerance * one() <= d * one()) by (nonlinear_arith)
        requires
            tolerance <= d,
    ;
    assert(t <= 2 * one()) by (nonlinear_arith)
        requires
            SPAN * (d * t) <= SPAN * (tolerance * one()) + tolerance * one() + SPAN * d,
            tolerance * one() <= d * one(),
            d == 1_000_000_000_000_000_000,
            SPAN == 9_007_199_254_740_992,
            one() == 5_192_296_858_534_827_628_530_496_329_220_096,
    ;
    assert(combined(low.grains(), high.grains(), add) == c);
}

proof fn lemma_power_18()
    ensures
        range::power(2, 18) == 0x4_0000,
        range::power(2, 10) == 1024,
{
    reveal_with_fuel(range::power, 19);
}

fn magnitude_of(n: i128) -> (result: u128)
    requires
        -number::MAX_UNITS <= n <= number::MAX_UNITS,
    ensures
        result == number::magnitude(n as int),
{
    if n < 0 {
        (-n) as u128
    } else {
        n as u128
    }
}

/// Decides [`within`].
pub fn is_within(a: i128, b: i128, tolerance: i128) -> (result: bool)
    requires
        -number::MAX_UNITS <= a <= number::MAX_UNITS,
        -number::MAX_UNITS <= b <= number::MAX_UNITS,
        0 <= tolerance <= number::UNITS_PER_ONE,
    ensures
        result == within(a as int, b as int, tolerance as int),
{
    reveal(within);
    let x: Double = Double::of_magnitude(magnitude_of(a));
    let y: Double = Double::of_magnitude(magnitude_of(b));
    let limit: Double = Double::of_magnitude(magnitude_of(tolerance));
    let add: bool = (a < 0) != (b < 0);
    proof {
        use_type_invariant(&x);
        use_type_invariant(&y);
    }
    assert(number::magnitude(of_units(a as int) - of_units(b as int)) == combined(
        x.grains(),
        y.grains(),
        add,
    ));
    if x.exponent > y.exponent && x.exponent - y.exponent > 72 {
        proof {
            lemma_far_apart(x, y, add, tolerance as nat);
        }
        return false;
    }
    if y.exponent > x.exponent && y.exponent - x.exponent > 72 {
        proof {
            lemma_far_apart(y, x, add, tolerance as nat);
        }
        return false;
    }
    proof {
        lemma_aligned(x, y);
        lemma_aligned(y, x);
    }
    x.combine(&y, add).at_most(&limit)
}

proof fn lemma_aligned(high: Double, low: Double)
    requires
        high.mantissa <= SPAN,
        high.exponent - low.exponent <= 72,
    ensures
        high.exponent <= low.exponent || high.mantissa * range::power(
            2,
            (high.exponent - low.exponent) as nat,
        ) < 0x4000_0000_0000_0000_0000_0000_0000_0000,
{
    if high.exponent > low.exponent {
        let k = (high.exponent - low.exponent) as nat;
        let p = range::power(2, k);
        let rest = range::power(2, (75 - k) as nat);
        range::lemma_power_add(2, k, (75 - k) as nat);
        range::lemma_power_add(2, 3, (72 - k) as nat);
        range::lemma_power_positive(2, (72 - k) as nat);
        let less = range::power(2, (72 - k) as nat);
        reveal_with_fuel(range::power, 4);
        assert(range::power(2, 3) == 8);
        lemma_large_power();
        assert(p <= 0x100_0000_0000_0000_0000) by (nonlinear_arith)
            requires
                p * rest == 0x800_0000_0000_0000_0000,
                rest == 8 * less,
                less >= 1,
        ;
        let m = high.mantissa as nat;
        assert(m * p < 0x4000_0000_0000_0000_0000_0000_0000_0000) by (nonlinear_arith)
            requires
                m <= SPAN,
                SPAN == 9_007_199_254_740_992,
                p <= 0x100_0000_0000_0000_0000,
        ;
    }
}

// ---------------------------------------------------------------------------
// Errors
// ---------------------------------------------------------------------------
pub proof fn lemma_one()
    ensures
        one() == 5_192_296_858_534_827_628_530_496_329_220_096,
{
    range::lemma_power_add(2, 42, 70);
    range::lemma_power_add(2, 21, 21);
    range::lemma_power_add(2, 21, 49);
    range::lemma_power_add(2, 21, 28);
    range::lemma_power_add(2, 21, 7);
    lemma_power_21();
    reveal_with_fuel(range::power, 8);
    let a = range::power(2, 21);
    let b = range::power(2, 42);
    let c = range::power(2, 28);
    let d = range::power(2, 49);
    let e = range::power(2, 70);
    assert(b * e == 5_192_296_858_534_827_628_530_496_329_220_096) by (nonlinear_arith)
        requires
            a == 0x20_0000,
            b == a * a,
            c == a * 128,
            d == a * c,
            e == a * d,
    ;
}

/// How far a decimal is from the double that it stands for.
pub proof fn lemma_of_units_error(v: int)
    ensures
        SPAN * (number::UNITS_PER_ONE * of_units(v) - v * one()) <= number::magnitude(v) * one()
            + SPAN * number::UNITS_PER_ONE,
        SPAN * (v * one() - number::UNITS_PER_ONE * of_units(v)) <= number::magnitude(v) * one()
            + SPAN * number::UNITS_PER_ONE,
{
    let m = number::magnitude(v);
    let d = number::UNITS_PER_ONE as nat;
    let g = nearest(m * one(), d);
    lemma_nearest_error(m * one(), d);
    if v < 0 {
        assert(v * one() == -(m * one())) by (nonlinear_arith)
            requires
                v == -m,
        ;
        assert(number::UNITS_PER_ONE * -g == -(d * g)) by (nonlinear_arith)
            requires
                d == number::UNITS_PER_ONE,
        ;
    }
}

/// Nothing is far from itself.
pub proof fn lemma_within_itself(v: int, tolerance: int)
    requires
        0 <= tolerance,
    ensures
        within(v, v, tolerance),
{
    reveal(within);
    assert(dropped(0) == 0);
    assert(range::power(2, 0) == 1);
    assert(dropped(0nat / 1) == 0);
    assert(nearest(0, 1) == 0) by (nonlinear_arith)
        requires
            range::power(2, dropped(0nat / 1)) == 1,
    ;
}

/// Rates that differ by two thousandths or less are within a fifth.
pub proof fn lemma_near_rates_are_within(a: int, b: int)
    requires
        -number::MAX_UNITS <= a <= number::MAX_UNITS,
        -2_000_000_000_000_000 <= a - b <= 2_000_000_000_000_000,
    ensures
        within(a, b, 200_000_000_000_000_000),
{
    reveal(within);
    lemma_one();
    lemma_of_units_error(a);
    lemma_of_units_error(b);
    lemma_of_units_error(200_000_000_000_000_000);
    let x = of_units(a);
    let y = of_units(b);
    let n = number::magnitude(x - y);
    lemma_nearest_error(n, 1);
    assert(1 * nearest(n, 1) == nearest(n, 1)) by (nonlinear_arith);
    assert(a * one() - b * one() == (a - b) * one()) by (nonlinear_arith);
    assert(number::magnitude(a) * one() <= 10_000_000_000_000_000_000_000_000_000 * one())
        by (nonlinear_arith)
        requires
            number::magnitude(a) <= 10_000_000_000_000_000_000_000_000_000,
    ;
    assert(number::magnitude(b) * one() <= 20_000_000_000_000_000_000_000_000_000 * one())
        by (nonlinear_arith)
        requires
            number::magnitude(b) <= 20_000_000_000_000_000_000_000_000_000,
    ;
    assert(-2_000_000_000_000_000 * one() <= (a - b) * one() <= 2_000_000_000_000_000 * one())
        by (nonlinear_arith)
        requires
            -2_000_000_000_000_000 <= a - b <= 2_000_000_000_000_000,
    ;
}

proof fn lemma_power_8()
    ensures
        range::power(2, 8) == 256,
{
    reveal_with_fuel(range::power, 9);
}

// ---------------------------------------------------------------------------
// Quotients
// ---------------------------------------------------------------------------
proof fn lemma_power_53()
    ensures
        range::power(2, 53) == SPAN,
{
    range::lemma_power_add(2, 21, 32);
    range::lemma_power_add(2, 21, 11);
    lemma_power_21();
    reveal_with_fuel(range::power, 12);
    let a = range::power(2, 21);
    let b = range::power(2, 32);
    assert(a * b == SPAN) by (nonlinear_arith)
        requires
            a == 0x20_0000,
            b == a * 2048,
            SPAN == 9_007_199_254_740_992,
    ;
}

impl Double {
    /// `value` divided by this number.
    fn divide(&self, value: u32) -> (result: Self)
        requires
            self.normal(),
            self.exponent <= 119,
        ensures
            result.grains() == divided(value as nat, self.grains()),
            value > 0 ==> result.normal(),
            result.exponent <= 299,
    {
        proof {
            use_type_invariant(self);
            let m = self.mantissa as nat;
            let e = self.exponent as nat;
            let v = value as nat;
            let p = range::power(2, e);
            let rest = range::power(2, (224 - e) as nat);
            range::lemma_power_add(2, (224 - e) as nat, e);
            range::lemma_power_add(2, 112, 112);
            range::lemma_power_positive(2, e);
            assert(m * p >= 1) by (nonlinear_arith)
                requires
                    m >= 1,
                    p >= 1,
            ;
            assert((v * rest) * (m * p) == (v * one() * one()) * m) by (nonlinear_arith)
                requires
                    rest * p == one() * one(),
            ;
            lemma_nearest_ratio(v * rest, m, v * one() * one(), m * p);
            if v > 0 {
                lemma_power_53();
                range::lemma_power_add(2, 53, 52);
                range::lemma_power_add(2, 105, (119 - e) as nat);
                range::lemma_power_positive(2, (119 - e) as nat);
                let half = range::power(2, 52);
                let far = range::power(2, (119 - e) as nat);
                assert(2 * half == SPAN);
                assert(2 * (v * rest) >= m * SPAN) by (nonlinear_arith)
                    requires
                        v >= 1,
                        m <= SPAN,
                        rest == (SPAN * half) * far,
                        far >= 1,
                        2 * half == SPAN,
                        SPAN >= 1,
                ;
            }
        }
        round(value as u128, self.mantissa as u128, 224 - self.exponent)
    }
}

/// `value` divided by the double that a decimal of `scale` units stands for.
pub open spec fn over_units(value: nat, scale: int) -> nat {
    divided(value, of_units(scale) as nat)
}

fn quotient(value: u32, scale: i128) -> (result: Double)
    requires
        0 < scale <= number::MAX_UNITS,
    ensures
        result.grains() == over_units(value as nat, scale as int),
        value > 0 ==> result.normal() && 19 <= result.exponent <= 184,
{
    let by: Double = Double::of_magnitude(scale as u128);
    let result: Double = by.divide(value);
    proof {
        use_type_invariant(&by);
        use_type_invariant(&result);
        if value > 0 {
            lemma_quotient_range(by, value as nat, result);
        }
    }
    result
}

proof fn lemma_quotient_range(by: Double, value: nat, result: Double)
    requires
        by.normal(),
        by.grains() <= 80_000_000_000 * one(),
        1 <= value < 0x1_0000_0000,
        result.normal(),
        result.mantissa <= SPAN,
        result.grains() == divided(value, by.grains()),
    ensures
        19 <= result.exponent <= 184,
{
    let g = by.grains();
    let w = result.grains();
    let n = value * one() * one();
    let e = result.exponent as nat;
    let p = range::power(2, e);
    let m = result.mantissa as nat;
    let q = range::power(2, by.exponent as nat);
    range::lemma_power_positive(2, by.exponent as nat);
    assert(2 * g >= SPAN) by (nonlinear_arith)
        requires
            g == by.mantissa * q,
            2 * by.mantissa >= SPAN,
            q >= 1,
    ;
    lemma_one();
    lemma_nearest_error(n, g);
    assert(n >= one() * one()) by (nonlinear_arith)
        requires
            n == value * one() * one(),
            value >= 1,
    ;
    assert(n <= 0x1_0000_0000 * (one() * one())) by (nonlinear_arith)
        requires
            n == value * one() * one(),
            value <= 0x1_0000_0000,
    ;
    if e < 19 {
        range::lemma_power_add(2, e, (18 - e) as nat);
        range::lemma_power_positive(2, (18 - e) as nat);
        lemma_power_18();
        let rest = range::power(2, (18 - e) as nat);
        assert(p <= 0x4_0000) by (nonlinear_arith)
            requires
                p * rest == 0x4_0000,
                rest >= 1,
        ;
        assert(w <= SPAN * 0x4_0000) by (nonlinear_arith)
            requires
                w == m * p,
                m <= SPAN,
                p <= 0x4_0000,
        ;
        assert(g * w <= (80_000_000_000 * one()) * (SPAN * 0x4_0000)) by (nonlinear_arith)
            requires
                g <= 80_000_000_000 * one(),
                w <= SPAN * 0x4_0000,
        ;
        assert(false) by (nonlinear_arith)
            requires
                SPAN * n <= SPAN * (g * w) + n + SPAN * g,
                g * w <= (80_000_000_000 * one()) * (SPAN * 0x4_0000),
                g <= 80_000_000_000 * one(),
                n >= one() * one(),
                one() == 5_192_296_858_534_827_628_530_496_329_220_096,
                SPAN == 9_007_199_254_740_992,
        ;
    }
    if e > 184 {
        let rest = range::power(2, (e - 185) as nat);
        range::lemma_power_add(2, 185, (e - 185) as nat);
        range::lemma_power_positive(2, (e - 185) as nat);
        range::lemma_power_add(2, 112, 73);
        range::lemma_power_add(2, 53, 20);
        lemma_power_53();
        range::lemma_power_add(2, 18, 2);
        lemma_power_18();
        reveal_with_fuel(range::power, 3);
        let far = range::power(2, 73);
        assert(far == SPAN * 0x10_0000);
        let top = range::power(2, 185);
        assert(w >= 4_503_599_627_370_496 * (one() * far)) by (nonlinear_arith)
            requires
                w == m * p,
                2 * m >= 9_007_199_254_740_992,
                p == top * rest,
                top == one() * far,
                rest >= 1,
        ;
        assert(g * w >= g * (4_503_599_627_370_496 * (one() * far))) by (nonlinear_arith)
            requires
                w >= 4_503_599_627_370_496 * (one() * far),
        ;
        assert(g * (4_503_599_627_370_496 * (one() * far)) >= 4_503_599_627_370_496
            * (4_503_599_627_370_496 * (one() * far)) && g * (4_503_599_627_370_496 * (one() * far))
            >= 4 * g) by (nonlinear_arith)
            requires
                2 * g >= 9_007_199_254_740_992,
                one() >= 1,
                far >= 1,
        ;
        assert(false) by (nonlinear_arith)
            requires
                SPAN * (g * w) <= SPAN * n + n + SPAN * g,
                g * w >= 4_503_599_627_370_496 * (4_503_599_627_370_496 * (one() * far)),
                g * w >= 4 * g,
                n <= 0x1_0000_0000 * (one() * one()),
                far == SPAN * 0x10_0000,
                one() == 5_192_296_858_534_827_628_530_496_329_220_096,
                SPAN == 9_007_199_254_740_992,
        ;
    }
}

// ---------------------------------------------------------------------------
// Whole numbers
// ---------------------------------------------------------------------------
/// How far `g` grains are from the nearest whole number, in grains.
pub open spec fn off_whole(g: nat) -> nat {
    let rest = g % one();
    if rest <= one() - rest {
        rest
    } else {
        (one() - rest) as nat
    }
}

/// The whole number nearest to `g` grains, halves rounded up.
pub open spec fn whole(g: nat) -> nat {
    (2 * g + one()) / (2 * one())
}

/// The largest whole number that is told as it is.
pub const WHOLE_CAP: u128 = 0x100_0000_0000;

proof fn lemma_power_55(s: nat)
    requires
        s >= 55,
    ensures
        range::power(2, s) >= 4 * SPAN,
{
    lemma_power_53();
    range::lemma_power_add(2, 53, (s - 53) as nat);
    range::lemma_power_add(2, 2, (s - 55) as nat);
    range::lemma_power_positive(2, (s - 55) as nat);
    reveal_with_fuel(range::power, 3);
    let rest = range::power(2, (s - 53) as nat);
    let less = range::power(2, (s - 55) as nat);
    assert(SPAN * rest >= 4 * SPAN) by (nonlinear_arith)
        requires
            rest == 4 * less,
            less >= 1,
    ;
}

impl Double {
    /// How far this number is from the nearest whole one.
    fn to_off_whole(&self) -> (result: Self)
        ensures
            result.grains() == off_whole(self.grains()),
    {
        proof {
            use_type_invariant(self);
        }
        let ghost m = self.mantissa as nat;
        let ghost e = self.exponent as nat;
        let ghost q = range::power(2, e);
        if self.exponent >= 112 {
            proof {
                let rest = range::power(2, (e - 112) as nat);
                range::lemma_power_add(2, 112, (e - 112) as nat);
                range::lemma_power_positive(2, 112);
                assert(m * (one() * rest) == (m * rest) * one()) by (nonlinear_arith);
                vstd::arithmetic::div_mod::lemma_mod_multiples_basic(
                    (m * rest) as int,
                    one() as int,
                );
                assert(0 * range::power(2, 0) == 0) by (nonlinear_arith);
            }
            return Double { mantissa: 0, exponent: 0 };
        }
        let s: u32 = 112 - self.exponent;
        let ghost p = range::power(2, s as nat);
        proof {
            range::lemma_power_add(2, s as nat, e);
            range::lemma_power_positive(2, e);
            range::lemma_power_positive(2, s as nat);
            assert(one() == p * q);
        }
        if s >= 55 {
            proof {
                lemma_power_55(s as nat);
                assert(2 * (m * q) < p * q) by (nonlinear_arith)
                    requires
                        2 * m < p,
                        q >= 1,
                ;
                vstd::arithmetic::div_mod::lemma_small_mod(m * q, one());
            }
            return *self;
        }
        let part: u128 = two_to(s);
        proof {
            lemma_small_shift(s as nat);
        }
        let rest: u64 = self.mantissa % (part as u64);
        let off: u64 = if rest <= part as u64 - rest {
            rest
        } else {
            part as u64 - rest
        };
        proof {
            let r = rest as nat;
            let k = m / p;
            vstd::arithmetic::div_mod::lemma_fundamental_div_mod(m as int, p as int);
            assert(m * q == k * (p * q) + r * q) by (nonlinear_arith)
                requires
                    m == p * k + r,
            ;
            assert(r * q < p * q) by (nonlinear_arith)
                requires
                    r < p,
                    q >= 1,
            ;
            vstd::arithmetic::div_mod::lemma_fundamental_div_mod_converse(
                (m * q) as int,
                (p * q) as int,
                k as int,
                (r * q) as int,
            );
            assert((p - r) * q == p * q - r * q) by (nonlinear_arith);
            lemma_products_compare(r, (p - r) as nat, q);
            lemma_power_53();
            range::lemma_power_add(2, s as nat, (54 - s) as nat);
            range::lemma_power_positive(2, (54 - s) as nat);
            assert(range::power(2, 54) == 2 * SPAN);
            let tail = range::power(2, (54 - s) as nat);
            assert(p <= 2 * SPAN) by (nonlinear_arith)
                requires
                    p * tail == 2 * SPAN,
                    tail >= 1,
            ;
        }
        Double { mantissa: off, exponent: self.exponent }
    }

    /// The whole number nearest to this one, or the cap.
    fn to_whole(&self) -> (result: u128)
        ensures
            result == number::least(whole(self.grains()) as int, WHOLE_CAP as int),
    {
        proof {
            use_type_invariant(self);
            range::lemma_power_positive(2, 112);
        }
        let ghost m = self.mantissa as nat;
        let ghost e = self.exponent as nat;
        let ghost q = range::power(2, e);
        if self.exponent >= 112 {
            let k: u32 = self.exponent - 112;
            let ghost rest = range::power(2, k as nat);
            proof {
                range::lemma_power_add(2, 112, k as nat);
                assert(m * (one() * rest) == (m * rest) * one()) by (nonlinear_arith);
                let v = m * rest;
                assert(2 * (v * one()) + one() == v * (2 * one()) + one()) by (nonlinear_arith);
                vstd::arithmetic::div_mod::lemma_fundamental_div_mod_converse(
                    (2 * (v * one()) + one()) as int,
                    (2 * one()) as int,
                    v as int,
                    one() as int,
                );
            }
            if self.mantissa == 0 {
                assert(0 * rest == 0) by (nonlinear_arith);
                return 0;
            }
            if k >= 64 {
                proof {
                    lemma_far_power(k as nat);
                    assert(m * rest >= rest) by (nonlinear_arith)
                        requires
                            m >= 1,
                    ;
                }
                return WHOLE_CAP;
            }
            proof {
                lemma_small_shift(k as nat);
                assert(m * rest <= SPAN * 0x8000_0000_0000_0000) by (nonlinear_arith)
                    requires
                        m <= SPAN,
                        rest <= 0x8000_0000_0000_0000,
                ;
            }
            let value: u128 = self.mantissa as u128 * two_to(k);
            return if value <= WHOLE_CAP {
                value
            } else {
                WHOLE_CAP
            };
        }
        let s: u32 = 112 - self.exponent;
        let ghost p = range::power(2, s as nat);
        proof {
            range::lemma_power_add(2, s as nat, e);
            range::lemma_power_positive(2, e);
            range::lemma_power_positive(2, s as nat);
            assert(2 * (m * q) + p * q == q * (2 * m + p)) by (nonlinear_arith);
            assert(2 * (p * q) == q * (2 * p)) by (nonlinear_arith);
            lemma_nearest_even_scales(2 * m + p, 2 * p, q);
        }
        if s >= 55 {
            proof {
                lemma_power_55(s as nat);
                vstd::arithmetic::div_mod::lemma_basic_div((2 * m + p) as int, (2 * p) as int);
            }
            return 0;
        }
        let part: u128 = two_to(s);
        proof {
            lemma_small_shift(s as nat);
        }
        let value: u128 = (2 * self.mantissa as u128 + part) / (2 * part);
        if value <= WHOLE_CAP {
            value
        } else {
            WHOLE_CAP
        }
    }
}

/// Decides whether `value` over `scale` units is no farther than `tolerance` from a
/// whole number.
pub fn is_about_whole(value: u32, scale: i128, tolerance: i128) -> (result: bool)
    requires
        0 < scale <= number::MAX_UNITS,
        0 <= tolerance <= number::MAX_UNITS,
    ensures
        result == (off_whole(over_units(value as nat, scale as int)) <= of_units(tolerance as int)),
{
    quotient(value, scale).to_off_whole().at_most(&Double::of_magnitude(tolerance as u128))
}

/// The whole number nearest to `value` over `scale` units, or the cap.
pub fn whole_quotient(value: u32, scale: i128) -> (result: u128)
    requires
        0 < scale <= number::MAX_UNITS,
    ensures
        result == number::least(
            whole(over_units(value as nat, scale as int)) as int,
            WHOLE_CAP as int,
        ),
{
    quotient(value, scale).to_whole()
}

// ---------------------------------------------------------------------------
// Edges
// ---------------------------------------------------------------------------
/// Where `size` over `scale` units ends if it begins at the whole number `start`, in
/// grains.
#[verifier::opaque]
pub open spec fn ends_at(start: int, size: nat, scale: int) -> int {
    nearest_signed(start * one() + over_units(size, scale))
}

/// A whole number as a double.
fn of_whole(n: i32) -> (result: Double)
    ensures
        result.grains() == number::magnitude(n as int) * one(),
        result.mantissa <= 0x8000_0000,
        result.exponent == 112,
{
    let mantissa: i64 = if n < 0 {
        -(n as i64)
    } else {
        n as i64
    };
    Double { mantissa: mantissa as u64, exponent: 112 }
}

proof fn lemma_whole_aligned(high: Double, low: Double)
    requires
        high.mantissa <= 0x8000_0000,
        high.exponent == 112,
        19 <= low.exponent < 112,
    ensures
        high.mantissa * range::power(2, (high.exponent - low.exponent) as nat)
            < 0x4000_0000_0000_0000_0000_0000_0000_0000,
{
    let k = (112 - low.exponent) as nat;
    let p = range::power(2, k);
    let rest = range::power(2, (93 - k) as nat);
    range::lemma_power_add(2, k, (93 - k) as nat);
    range::lemma_power_positive(2, (93 - k) as nat);
    range::lemma_power_add(2, 75, 18);
    lemma_large_power();
    lemma_power_18();
    assert(p <= 0x800_0000_0000_0000_0000 * 0x4_0000) by (nonlinear_arith)
        requires
            p * rest == 0x800_0000_0000_0000_0000 * 0x4_0000,
            rest >= 1,
    ;
    let m = high.mantissa as nat;
    assert(m * p < 0x4000_0000_0000_0000_0000_0000_0000_0000) by (nonlinear_arith)
        requires
            m <= 0x8000_0000,
            p <= 0x800_0000_0000_0000_0000 * 0x4_0000,
    ;
}

/// Decides whether `size` over `scale` units that begins at `start` ends behind `x`.
pub fn ends_behind(start: i32, size: u32, scale: i128, x: i32) -> (result: bool)
    requires
        size > 0,
        0 < scale <= number::MAX_UNITS,
    ensures
        result == (ends_at(start as int, size as nat, scale as int) > x * one()),
{
    reveal(ends_at);
    let width: Double = quotient(size, scale);
    let begin: Double = of_whole(start);
    let place: Double = of_whole(x);
    proof {
        use_type_invariant(&width);
        range::lemma_power_positive(2, 112);
        if width.exponent < 112 {
            lemma_whole_aligned(begin, width);
        } else {
            lemma_aligned(width, begin);
        }
        let s = number::magnitude(start as int);
        let m = number::magnitude(x as int);
        assert(start >= 0 ==> start * one() == s * one());
        assert(start < 0 ==> start * one() == -(s * one())) by (nonlinear_arith)
            requires
                start < 0 ==> start == -s,
        ;
        assert(x >= 0 ==> x * one() == m * one());
        assert(x < 0 ==> x * one() == -(m * one()) && x * one() < 0) by (nonlinear_arith)
            requires
                x < 0 ==> x == -m,
                one() >= 1,
        ;
    }
    let edge: Double = width.combine(&begin, start >= 0);
    let behind: bool = start >= 0 || begin.at_most(&width);
    if behind {
        x < 0 || !edge.at_most(&place)
    } else {
        x < 0 && !place.at_most(&edge)
    }
}

// ---------------------------------------------------------------------------
// Steps
// ---------------------------------------------------------------------------
/// The double nearest to `n / d`, in grains.
pub open spec fn ratio(n: nat, d: nat) -> nat {
    nearest(n * one(), d)
}

/// `k` times the double `g`.
pub open spec fn times(k: nat, g: nat) -> nat {
    nearest(k * g, 1)
}

/// The larger of two numbers of grains.
pub open spec fn larger(a: nat, b: nat) -> nat {
    if a >= b {
        a
    } else {
        b
    }
}

/// The least of at least one with which `width` takes no more than `columns` steps
/// and `height` no more than `rows`.
pub open spec fn step_for(width: nat, columns: nat, height: nat, rows: nat) -> nat {
    larger(larger(ratio(width, columns), ratio(height, rows)), one())
}

/// A length in steps of which others are measured: one or more.
#[derive(Debug, Clone, Copy, PartialEq, Eq, Structural)]
pub struct Step {
    size: Double,
}

proof fn lemma_exponent_small(x: Double)
    requires
        x.normal(),
        x.grains() <= 0x100_0000_0000 * one(),
    ensures
        x.exponent <= 118,
{
    if x.exponent > 118 {
        let m = x.mantissa as nat;
        let rest = range::power(2, (x.exponent - 112) as nat);
        range::lemma_power_add(2, 112, (x.exponent - 112) as nat);
        range::lemma_power_positive(2, 112);
        range::lemma_power_positive(2, (x.exponent - 112) as nat);
        assert(m * (one() * rest) > 0x100_0000_0000 * one()) by (nonlinear_arith)
            requires
                2 * m >= SPAN,
                SPAN == 9_007_199_254_740_992,
                rest >= 1,
                one() >= 1,
        ;
    }
}

fn ratio_of(n: u32, d: u32) -> (result: Double)
    requires
        n >= 1,
        d >= 1,
    ensures
        result.grains() == ratio(n as nat, d as nat),
        result.normal(),
        result.exponent <= 118,
{
    let result: Double = round(n as u128, d as u128, 112);
    proof {
        let v = n as nat * one();
        let g = result.grains();
        let b = d as nat;
        lemma_one();
        lemma_nearest_error(v, b);
        assert(one() <= v <= 0x1_0000_0000 * one()) by (nonlinear_arith)
            requires
                v == n * one(),
                1 <= n <= 0x1_0000_0000,
        ;
        assert(2 * v >= d * SPAN) by (nonlinear_arith)
            requires
                v >= one(),
                d <= 0x1_0000_0000,
                one() == 5_192_296_858_534_827_628_530_496_329_220_096,
                SPAN == 9_007_199_254_740_992,
        ;
        assert(SPAN * (b * g) >= SPAN * g) by (nonlinear_arith)
            requires
                b >= 1,
        ;
        assert(g <= 0x100_0000_0000 * one()) by (nonlinear_arith)
            requires
                SPAN * g <= SPAN * v + v + SPAN * b,
                v <= 0x1_0000_0000 * one(),
                b <= 0x1_0000_0000,
                one() == 5_192_296_858_534_827_628_530_496_329_220_096,
                SPAN == 9_007_199_254_740_992,
        ;
        lemma_exponent_small(result);
    }
    result
}

fn larger_of(a: Double, b: Double) -> (result: Double)
    requires
        a.normal(),
        b.normal(),
        a.exponent <= 118,
        b.exponent <= 118,
    ensures
        result.grains() == larger(a.grains(), b.grains()),
        result.normal(),
        result.exponent <= 118,
{
    if b.at_most(&a) {
        a
    } else {
        b
    }
}

impl Step {
    /// The length, in grains.
    pub closed spec fn grains(self) -> nat {
        self.size.grains()
    }

    #[verifier::type_invariant]
    spec fn is_sound(self) -> bool {
        self.size.normal() && self.size.exponent <= 118
    }

    /// The least step of at least one with which `width` takes no more than `columns`
    /// and `height` no more than `rows`.
    pub fn fitting(width: u32, columns: u32, height: u32, rows: u32) -> (result: Self)
        requires
            width >= 1,
            columns >= 1,
            height >= 1,
            rows >= 1,
        ensures
            result.grains() == step_for(
                width as nat,
                columns as nat,
                height as nat,
                rows as nat,
            ),
    {
        proof {
            lemma_power_53();
            range::lemma_power_add(2, 52, 60);
        }
        let unit: Double = Double { mantissa: 4_503_599_627_370_496, exponent: 60 };
        Step {
            size: larger_of(larger_of(ratio_of(width, columns), ratio_of(height, rows)), unit),
        }
    }

    /// The length, or twice the length.
    pub open spec fn length(self, twice: bool) -> nat {
        if twice {
            2 * self.grains()
        } else {
            self.grains()
        }
    }

    fn taken(&self, twice: bool) -> (result: Double)
        ensures
            result.grains() == self.length(twice),
            result.normal(),
            result.exponent <= 119,
    {
        proof {
            use_type_invariant(self);
            use_type_invariant(&self.size);
            let m = self.size.mantissa as nat;
            let p = range::power(2, self.size.exponent as nat);
            assert(range::power(2, (self.size.exponent + 1) as nat) == 2 * p);
            assert(m * (2 * p) == 2 * (m * p)) by (nonlinear_arith);
        }
        if twice {
            Double { mantissa: self.size.mantissa, exponent: self.size.exponent + 1 }
        } else {
            self.size
        }
    }

    /// How many steps, or steps of twice the length, `n` takes, to the nearest one, or
    /// the cap.
    pub fn count(&self, n: u32, twice: bool) -> (result: u128)
        ensures
            result == number::least(
                whole(divided(n as nat, self.length(twice))) as int,
                WHOLE_CAP as int,
            ),
    {
        self.taken(twice).divide(n).to_whole()
    }

    /// How long `k` steps, or steps of twice the length, are, to the nearest whole
    /// number, or the cap.
    pub fn span(&self, k: u32, twice: bool) -> (result: u128)
        ensures
            result == number::least(
                whole(times(k as nat, self.length(twice))) as int,
                WHOLE_CAP as int,
            ),
    {
        let size: Double = self.taken(twice);
        proof {
            use_type_invariant(&size);
            let m = size.mantissa as nat;
            let n = k as nat;
            let p = range::power(2, size.exponent as nat);
            assert(n * m <= 0x1_0000_0000 * SPAN) by (nonlinear_arith)
                requires
                    n <= 0x1_0000_0000,
                    m <= SPAN,
            ;
            assert(n * (m * p) == (n * m) * p) by (nonlinear_arith);
        }
        round(k as u128 * size.mantissa as u128, 1, size.exponent).to_whole()
    }
}

// ---------------------------------------------------------------------------
// Shortest decimals
// ---------------------------------------------------------------------------
/// The decimal nearest to `g` grains among those with at least `j` zeros at the end,
/// in units.
pub open spec fn decimal_at(g: nat, j: nat) -> nat {
    number::nearest_even(g * number::UNITS_PER_ONE as nat, one() * number::pow10(j))
        * number::pow10(j)
}

/// The decimal with the most zeros at the end, up to `j`, that stands for the double
/// `g`, in units.
pub open spec fn shortest_from(g: nat, j: nat) -> nat
    decreases j,
{
    if j == 0 || of_units(decimal_at(g, j) as int) == g {
        decimal_at(g, j)
    } else {
        shortest_from(g, (j - 1) as nat)
    }
}

/// The shortest decimal that stands for the double `g`, in units.
pub open spec fn shortest(g: nat) -> nat {
    shortest_from(g, 28)
}

/// The same with a sign.
pub open spec fn shortest_signed(g: int) -> int {
    if g < 0 {
        -(shortest((-g) as nat) as int)
    } else {
        shortest(g as nat) as int
    }
}

/// Ten to the power of `j`.
fn ten_to(j: u32) -> (result: u128)
    requires
        j <= 28,
    ensures
        result == number::pow10(j as nat),
        1 <= result <= 10_000_000_000_000_000_000_000_000_000,
{
    let mut result: u128 = 1;
    let mut i: u32 = 0;
    while i < j
        invariant
            i <= j <= 28,
            result == number::pow10(i as nat),
        decreases j - i,
    {
        proof {
            lemma_ten_at_most((i + 1) as nat);
        }
        result = result * 10;
        i += 1;
    }
    proof {
        lemma_ten_at_most(j as nat);
        number::lemma_pow10_positive(j as nat);
    }
    result
}

proof fn lemma_ten_at_most(j: nat)
    requires
        j <= 28,
    ensures
        number::pow10(j) <= 10_000_000_000_000_000_000_000_000_000,
{
    number::lemma_pow10_add(j, (28 - j) as nat);
    number::lemma_pow10_positive((28 - j) as nat);
    number::lemma_pow10_add(14, 14);
    reveal_with_fuel(number::pow10, 15);
    let p = number::pow10(j);
    let rest = number::pow10((28 - j) as nat);
    assert(p <= p * rest) by (nonlinear_arith)
        requires
            rest >= 1,
    ;
}

impl Double {
    /// The decimal nearest to this number among those with `j` zeros at the end.
    fn to_decimal(&self, j: u32) -> (result: u128)
        requires
            j <= 28,
            self.exponent <= 112,
            self.grains() <= 21_000_000_000 * one(),
        ensures
            result == decimal_at(self.grains(), j as nat),
            result <= 40_000_000_000_000_000_000_000_000_000,
    {
        proof {
            use_type_invariant(self);
        }
        let s: u32 = 112 - self.exponent;
        let n: u128 = self.mantissa as u128 * 1_000_000_000_000_000_000;
        let part: u128 = two_to(s);
        let ten: u128 = ten_to(j);
        let ghost q = range::power(2, self.exponent as nat);
        let ghost m = self.mantissa as nat;
        let ghost divisor = part as nat * ten as nat;
        proof {
            range::lemma_power_positive(2, self.exponent as nat);
            range::lemma_power_add(2, s as nat, self.exponent as nat);
            assert((m * q) * 1_000_000_000_000_000_000 == q * n) by (nonlinear_arith)
                requires
                    n == m * 1_000_000_000_000_000_000,
            ;
            assert((part * q) * ten == q * divisor) by (nonlinear_arith)
                requires
                    divisor == part * ten,
            ;
            assert(divisor >= 1) by (nonlinear_arith)
                requires
                    divisor == part * ten,
                    part >= 1,
                    ten >= 1,
            ;
            lemma_nearest_even_scales(n as nat, divisor, q);
        }
        if ten > two_to(122 - s) {
            proof {
                let rest = range::power(2, (122 - s) as nat);
                range::lemma_power_add(2, s as nat, (122 - s) as nat);
                range::lemma_power_add(2, 112, 10);
                lemma_one();
                lemma_power_18();
                assert(divisor >= part * rest) by (nonlinear_arith)
                    requires
                        divisor == part * ten,
                        ten >= rest,
                ;
                assert(2 * n < divisor);
                vstd::arithmetic::div_mod::lemma_basic_div(n as int, divisor as int);
                vstd::arithmetic::div_mod::lemma_small_mod(n as nat, divisor);
                assert(0 * ten == 0) by (nonlinear_arith);
            }
            return 0;
        }
        proof {
            let rest = range::power(2, (122 - s) as nat);
            range::lemma_power_add(2, s as nat, (122 - s) as nat);
            range::lemma_power_add(2, 112, 10);
            lemma_one();
            lemma_power_18();
            assert(divisor <= part * rest) by (nonlinear_arith)
                requires
                    divisor == part * ten,
                    ten <= rest,
            ;
        }
        let d: u128 = part * ten;
        let quotient: u128 = n / d;
        let remainder: u128 = n % d;
        let twice: u128 = 2 * remainder;
        let kept: u128 = if twice > d || (twice == d && quotient % 2 == 1) {
            quotient + 1
        } else {
            quotient
        };
        proof {
            vstd::arithmetic::div_mod::lemma_fundamental_div_mod(n as int, d as int);
            assert((quotient + 1) * d == d * quotient + d) by (nonlinear_arith);
            assert(quotient * d == d * quotient) by (nonlinear_arith);
            assert(2 * (kept * d) <= 2 * n + d);
            let k = kept as nat;
            let t = ten as nat;
            let p = part as nat;
            assert(k * (p * t) == (k * t) * p) by (nonlinear_arith);
            // n <= 21e27 * part, since the number is no larger than 21e9
            assert(n <= 21_000_000_000_000_000_000_000_000_000 * p) by (nonlinear_arith)
                requires
                    n == m * 1_000_000_000_000_000_000,
                    m * q <= 21_000_000_000 * (p * q),
                    q >= 1,
            ;
            assert(k * t <= 30_000_000_000_000_000_000_000_000_000) by (nonlinear_arith)
                requires
                    2 * ((k * t) * p) <= 2 * n + p * t,
                    n <= 21_000_000_000_000_000_000_000_000_000 * p,
                    t <= 10_000_000_000_000_000_000_000_000_000,
                    p >= 1,
            ;
        }
        kept * ten
    }

    /// The shortest decimal that stands for this number, in units.
    fn to_shortest(&self) -> (result: u128)
        requires
            self.exponent <= 112,
            self.grains() <= 21_000_000_000 * one(),
        ensures
            result == shortest(self.grains()),
            result <= 40_000_000_000_000_000_000_000_000_000,
    {
        let mut j: u32 = 28;
        while j > 0
            invariant
                j <= 28,
                self.exponent <= 112,
                self.grains() <= 21_000_000_000 * one(),
                shortest(self.grains()) == shortest_from(self.grains(), j as nat),
            decreases j,
        {
            let candidate: u128 = self.to_decimal(j);
            let read: Double = Double::of_magnitude(candidate);
            if read.at_most(self) && self.at_most(&read) {
                return candidate;
            }
            j = j - 1;
        }
        self.to_decimal(0)
    }
}

pub(crate) proof fn lemma_nearest_even_is(n: nat, d: nat, q: nat, r: nat)
    requires
        d >= 1,
        n == q * d + r,
        r < d,
        2 * r != d,
    ensures
        number::nearest_even(n, d) == if 2 * r > d {
            q + 1
        } else {
            q
        },
{
    vstd::arithmetic::div_mod::lemma_fundamental_div_mod_converse(
        n as int,
        d as int,
        q as int,
        r as int,
    );
}

/// A number that is closer to a double than a quarter of its last bit rounds to it.
proof fn lemma_near_double(h: nat, e: nat, n: nat, d: nat)
    requires
        2 * h >= SPAN,
        h <= SPAN,
        e >= 1,
        d >= 1,
        4 * n < 4 * (h * (d * range::power(2, e))) + d * range::power(2, e),
        4 * (h * (d * range::power(2, e))) < 4 * n + d * range::power(2, e),
    ensures
        nearest(n, d) == h * range::power(2, e),
{
    let p = range::power(2, e);
    let half = range::power(2, (e - 1) as nat);
    let w = d * p;
    let v = d * half;
    range::lemma_power_positive(2, (e - 1) as nat);
    assert(p == 2 * half);
    assert(w == 2 * v && v >= 1) by (nonlinear_arith)
        requires
            w == d * p,
            v == d * half,
            p == 2 * half,
            d >= 1,
            half >= 1,
    ;
    let a = h * w;
    if n >= a {
        let b = (n - a) as nat;
        if h < SPAN {
            assert(a + w <= SPAN * w && 2 * a >= SPAN * w) by (nonlinear_arith)
                requires
                    a == h * w,
                    h + 1 <= SPAN,
                    2 * h >= SPAN,
            ;
            assert(d * (SPAN * p) == SPAN * w) by (nonlinear_arith)
                requires
                    w == d * p,
            ;
            lemma_nearest_at(n, d, e);
            lemma_nearest_even_is(n, w, h, b);
        } else {
            assert(range::power(2, e + 1) == 2 * p);
            assert(d * (SPAN * (2 * p)) == 2 * a && d * (2 * p) == 2 * w) by (nonlinear_arith)
                requires
                    w == d * p,
                    a == h * w,
                    h == SPAN,
            ;
            assert(2 * a >= 2 * w) by (nonlinear_arith)
                requires
                    a == h * w,
                    h >= 1,
            ;
            lemma_nearest_at(n, d, e + 1);
            let middle: nat = 4_503_599_627_370_496;
            assert(middle * (2 * w) == a && middle * (2 * p) == h * p) by (nonlinear_arith)
                requires
                    a == h * w,
                    h == SPAN,
                    middle == 4_503_599_627_370_496,
                    SPAN == 9_007_199_254_740_992,
            ;
            lemma_nearest_even_is(n, 2 * w, middle, b);
        }
    } else {
        let b = (a - n) as nat;
        if 2 * h > SPAN {
            assert(a <= SPAN * w && 2 * a >= SPAN * w + w) by (nonlinear_arith)
                requires
                    a == h * w,
                    h <= SPAN,
                    2 * h >= SPAN + 1,
            ;
            assert(d * (SPAN * p) == SPAN * w) by (nonlinear_arith)
                requires
                    w == d * p,
            ;
            lemma_nearest_at(n, d, e);
            assert((h - 1) * w == a - w) by (nonlinear_arith)
                requires
                    a == h * w,
            ;
            lemma_nearest_even_is(n, w, (h - 1) as nat, (w - b) as nat);
        } else {
            assert(a == SPAN * v && SPAN * half == h * p) by (nonlinear_arith)
                requires
                    a == h * w,
                    w == 2 * v,
                    2 * h == SPAN,
                    p == 2 * half,
            ;
            assert(d * (SPAN * half) == SPAN * v) by (nonlinear_arith)
                requires
                    v == d * half,
            ;
            assert(SPAN * v >= 4 * w) by (nonlinear_arith)
                requires
                    w == 2 * v,
                    SPAN == 9_007_199_254_740_992,
            ;
            lemma_nearest_at(n, d, (e - 1) as nat);
            assert((SPAN - 1) * v == SPAN * v - v) by (nonlinear_arith);
            lemma_nearest_even_is(n, v, (SPAN - 1) as nat, (v - b) as nat);
        }
    }
}

/// A number of another order swallows the smaller one.
proof fn lemma_far_sum(high: Double, low: Double, add: bool)
    requires
        high.normal(),
        high.mantissa <= SPAN,
        low.mantissa <= SPAN,
        high.exponent >= low.exponent + 73,
    ensures
        nearest(combined(high.grains(), low.grains(), add), 1) == high.grains(),
        nearest(combined(low.grains(), high.grains(), add), 1) == high.grains(),
{
    let h = high.mantissa as nat;
    let l = low.mantissa as nat;
    let e = high.exponent as nat;
    let p = range::power(2, e);
    let q = range::power(2, low.exponent as nat);
    let k = (high.exponent - low.exponent - 73) as nat;
    let r = range::power(2, k);
    range::lemma_power_add(2, low.exponent as nat, 73);
    range::lemma_power_add(2, (low.exponent + 73) as nat, k);
    range::lemma_power_positive(2, low.exponent as nat);
    range::lemma_power_positive(2, k);
    range::lemma_power_add(2, 53, 20);
    lemma_power_53();
    range::lemma_power_add(2, 18, 2);
    lemma_power_18();
    reveal_with_fuel(range::power, 3);
    let far = range::power(2, 73);
    assert(far == SPAN * 0x10_0000);
    let b = low.grains();
    assert(4 * b < p) by (nonlinear_arith)
        requires
            b == l * q,
            l <= SPAN,
            p == (q * far) * r,
            far == SPAN * 0x10_0000,
            r >= 1,
            q >= 1,
            SPAN >= 1,
    ;
    let n = combined(high.grains(), b, add);
    assert(combined(b, high.grains(), add) == n);
    assert(h * p >= p) by (nonlinear_arith)
        requires
            2 * h >= SPAN,
            SPAN == 9_007_199_254_740_992,
    ;
    assert(1 * p == p) by (nonlinear_arith);
    lemma_near_double(h, e, n, 1);
}

proof fn lemma_exponent_smaller(x: Double)
    requires
        x.exponent > 0 ==> x.normal(),
        x.grains() <= 21_000_000_000 * one(),
    ensures
        x.exponent <= 112,
{
    if x.exponent > 112 {
        let m = x.mantissa as nat;
        let rest = range::power(2, (x.exponent - 112) as nat);
        range::lemma_power_add(2, 112, (x.exponent - 112) as nat);
        range::lemma_power_positive(2, 112);
        range::lemma_power_positive(2, (x.exponent - 112) as nat);
        assert(m * (one() * rest) > 21_000_000_000 * one()) by (nonlinear_arith)
            requires
                2 * m >= SPAN,
                SPAN == 9_007_199_254_740_992,
                rest >= 1,
                one() >= 1,
        ;
    }
}

proof fn lemma_of_units_bounded(v: int)
    requires
        -number::MAX_UNITS <= v <= number::MAX_UNITS,
    ensures
        -10_400_000_000 * one() <= of_units(v) <= 10_400_000_000 * one(),
{
    lemma_one();
    lemma_of_units_error(v);
    let m = number::magnitude(v);
    assert(m * one() <= 10_000_000_000_000_000_000_000_000_000 * one()) by (nonlinear_arith)
        requires
            m <= 10_000_000_000_000_000_000_000_000_000,
    ;
    assert(-(m * one()) <= v * one() <= m * one()) by (nonlinear_arith)
        requires
            -m <= v <= m,
    ;
}

/// The double sum of the doubles that two decimals stand for.
pub open spec fn sum(a: int, b: int) -> int {
    nearest_signed(of_units(a) + of_units(b))
}

/// The shortest decimal for the double that a decimal of `v` units stands for.
pub open spec fn canonical(v: int) -> int {
    shortest_signed(of_units(v))
}

fn with_sign(negative: bool, size: u128) -> (result: i128)
    requires
        size <= 40_000_000_000_000_000_000_000_000_000,
    ensures
        result == if negative {
            -size
        } else {
            size as int
        },
{
    if negative {
        -(size as i128)
    } else {
        size as i128
    }
}

pub proof fn lemma_nothing_is_shortest()
    ensures
        shortest(0) == 0,
        canonical(0) == 0,
        nearest(0, 1) == 0,
        of_units(0) == 0,
{
    lemma_one();
    let d = number::UNITS_PER_ONE as nat;
    assert(0 * one() == 0) by (nonlinear_arith);
    assert(range::power(2, 0) == 1);
    assert(0nat / 1 == 0 && 0nat / d == 0);
    assert(dropped(0) == 0);
    assert(d * 1 == d && 1 * 1 == 1 && 0 * 1 == 0) by (nonlinear_arith);
    assert(of_units(0) == 0);
    let ten = number::pow10(28);
    number::lemma_pow10_positive(28);
    assert(one() * ten >= 1) by (nonlinear_arith)
        requires
            one() >= 1,
            ten >= 1,
    ;
    assert(0 * d == 0) by (nonlinear_arith);
    vstd::arithmetic::div_mod::lemma_small_mod(0, one() * ten);
    vstd::arithmetic::div_mod::lemma_basic_div(0, (one() * ten) as int);
    assert(0 * ten == 0) by (nonlinear_arith);
    assert(decimal_at(0, 28) == 0);
}

/// The shortest decimal for the double that a decimal stands for.
pub fn to_canonical(units: i128) -> (result: i128)
    requires
        -number::MAX_UNITS <= units <= number::MAX_UNITS,
    ensures
        result == canonical(units as int),
        -40_000_000_000_000_000_000_000_000_000 <= result
            <= 40_000_000_000_000_000_000_000_000_000,
{
    let value: Double = Double::of_magnitude(magnitude_of(units));
    proof {
        lemma_of_units_bounded(units as int);
        lemma_one();
        lemma_exponent_smaller(value);
        lemma_nothing_is_shortest();
    }
    with_sign(units < 0, value.to_shortest())
}

/// The shortest decimal for the sum of two numbers.
pub fn plus(a: i128, b: i128) -> (result: i128)
    requires
        -number::MAX_UNITS <= a <= number::MAX_UNITS,
        -number::MAX_UNITS <= b <= number::MAX_UNITS,
    ensures
        result == shortest_signed(sum(a as int, b as int)),
        -40_000_000_000_000_000_000_000_000_000 <= result
            <= 40_000_000_000_000_000_000_000_000_000,
{
    let x: Double = Double::of_magnitude(magnitude_of(a));
    let y: Double = Double::of_magnitude(magnitude_of(b));
    let same: bool = (a < 0) == (b < 0);
    proof {
        use_type_invariant(&x);
        use_type_invariant(&y);
    }
    let ghost exact = of_units(a as int) + of_units(b as int);
    let ghost size = combined(x.grains(), y.grains(), same);
    assert(size == number::magnitude(exact));
    let total: Double = if x.exponent > y.exponent && x.exponent - y.exponent > 72 {
        proof {
            lemma_far_sum(x, y, same);
        }
        x
    } else if y.exponent > x.exponent && y.exponent - x.exponent > 72 {
        proof {
            lemma_far_sum(y, x, same);
        }
        y
    } else {
        proof {
            lemma_aligned(x, y);
            lemma_aligned(y, x);
        }
        x.combine(&y, same)
    };
    let negative: bool = if same || y.at_most(&x) {
        a < 0
    } else {
        b < 0
    };
    proof {
        lemma_of_units_bounded(a as int);
        lemma_of_units_bounded(b as int);
        lemma_one();
        lemma_nearest_error(size, 1);
        assert(1 * nearest(size, 1) == nearest(size, 1)) by (nonlinear_arith);
        lemma_exponent_smaller(total);
        lemma_nothing_is_shortest();
    }
    with_sign(negative, total.to_shortest())
}

// ---------------------------------------------------------------------------
// Thousandths
// ---------------------------------------------------------------------------
/// The double that a decimal of `v` units stands for, rounded to thousandths, without
/// its sign.
pub open spec fn thousandths(v: int) -> nat {
    number::nearest_even(number::magnitude(of_units(v)) * 1000, one())
}

/// How far thousandths are from the decimal.
pub proof fn lemma_thousandths_error(v: int)
    requires
        -number::MAX_UNITS <= v <= number::MAX_UNITS,
    ensures
        -502_000_000_000_000 <= thousandths(v) * 1_000_000_000_000_000 - number::magnitude(v)
            <= 502_000_000_000_000,
        thousandths(v) * 1_000_000_000_000_000 <= number::MAX_UNITS,
{
    let m = number::magnitude(v);
    let g = number::magnitude(of_units(v));
    let t = thousandths(v);
    let d = one();
    lemma_one();
    lemma_of_units_error(v);
    assert(m * one() <= 10_000_000_000_000_000_000_000_000_000 * one()) by (nonlinear_arith)
        requires
            m <= 10_000_000_000_000_000_000_000_000_000,
    ;
    if v < 0 {
        assert(v * one() == -(m * one())) by (nonlinear_arith)
            requires
                v == -m,
        ;
    }
    lemma_nearest_even_error(g * 1000, d);
}

/// The double that a decimal stands for, rounded to thousandths, without its sign.
pub fn to_thousandths(units: i128) -> (result: u128)
    requires
        -number::MAX_UNITS <= units <= number::MAX_UNITS,
    ensures
        result == thousandths(units as int),
{
    let value: Double = Double::of_magnitude(magnitude_of(units));
    proof {
        use_type_invariant(&value);
        lemma_of_units_bounded(units as int);
        lemma_one();
        lemma_exponent_smaller(value);
        range::lemma_power_positive(2, value.exponent as nat);
        range::lemma_power_add(2, (112 - value.exponent) as nat, value.exponent as nat);
    }
    let part: u128 = two_to(112 - value.exponent);
    let n: u128 = value.mantissa as u128 * 1000;
    proof {
        let q = range::power(2, value.exponent as nat);
        let m = value.mantissa as nat;
        assert((m * q) * 1000 == q * n) by (nonlinear_arith)
            requires
                n == m * 1000,
        ;
        assert(part * q == q * part) by (nonlinear_arith);
        lemma_nearest_even_scales(n as nat, part as nat, q);
    }
    let quotient: u128 = n / part;
    let twice: u128 = 2 * (n % part);
    assert(quotient <= n) by (nonlinear_arith)
        requires
            quotient == n / part,
            part >= 1,
    ;
    if twice > part || (twice == part && quotient % 2 == 1) {
        quotient + 1
    } else {
        quotient
    }
}

pub(crate) proof fn lemma_shortest_stands_for(g: nat, j: nat)
    ensures
        of_units(shortest_from(g, j) as int) == g || shortest_from(g, j) == decimal_at(g, 0),
    decreases j,
{
    if j > 0 {
        lemma_shortest_stands_for(g, (j - 1) as nat);
    }
}

/// How far the shortest decimal is from another one for the same double.
pub proof fn lemma_canonical_error(v: int)
    requires
        0 <= v <= number::MAX_UNITS,
    ensures
        -3_000_000_000_000 <= canonical(v) - v <= 3_000_000_000_000,
        canonical(v) >= 0,
        canonical(-v) == -canonical(v),
{
    lemma_one();
    let g = of_units(v) as nat;
    let w = shortest(g);
    lemma_of_units_error(v);
    lemma_shortest_stands_for(g, 28);
    assert(v * one() <= 10_000_000_000_000_000_000_000_000_000 * one()) by (nonlinear_arith)
        requires
            v <= 10_000_000_000_000_000_000_000_000_000,
    ;
    if of_units(w as int) == g {
        lemma_of_units_error(w as int);
    } else {
        let d = one() * number::pow10(0);
        assert(number::pow10(0) == 1);
        assert(d == one()) by (nonlinear_arith)
            requires
                d == one() * number::pow10(0),
                number::pow10(0) == 1,
        ;
        let n = g * number::UNITS_PER_ONE as nat;
        lemma_nearest_even_error(n, d);
        let k = number::nearest_even(n, d);
        assert(w == k) by (nonlinear_arith)
            requires
                w == k * number::pow10(0),
                number::pow10(0) == 1,
        ;
    }
    if v == 0 {
        lemma_nothing_is_shortest();
    }
    if g == 0 {
        lemma_nothing_is_shortest();
    }
}

proof fn lemma_dropped_above(q: nat)
    ensures
        q < SPAN * range::power(2, dropped(q)),
    decreases q,
{
    if q >= SPAN {
        lemma_dropped_above(q / 2);
        let p = range::power(2, dropped(q / 2));
        assert(range::power(2, dropped(q)) == 2 * p);
        assert(SPAN * (2 * p) == 2 * (SPAN * p)) by (nonlinear_arith);
    } else {
        assert(range::power(2, 0) == 1);
    }
}

/// The shortest decimal of a number that is not too small stands for the same double.
pub proof fn lemma_canonical_stands_for(v: int)
    requires
        0 <= v <= number::MAX_UNITS,
        canonical(v) >= 40_000_000_000_000_000,
    ensures
        of_units(canonical(v)) == of_units(v),
        canonical(canonical(v)) == canonical(v),
{
    let d = number::UNITS_PER_ONE as nat;
    let n = v as nat * one();
    let g = of_units(v) as nat;
    let w = shortest(g);
    lemma_one();
    if g == 0 {
        lemma_nothing_is_shortest();
    }
    lemma_shortest_stands_for(g, 28);
    if of_units(w as int) != g {
        assert(number::pow10(0) == 1);
        assert(one() * 1 == one()) by (nonlinear_arith);
        lemma_nearest_even_error(g * d, one());
        let k = number::nearest_even(g * d, one());
        assert(k * 1 == k) by (nonlinear_arith);
        assert(w == k);
        assert(32 * g >= one());
        let q = n / d;
        let e = dropped(q);
        let step = range::power(2, e);
        let h = number::nearest_even(n, d * step);
        lemma_dropped_bits(q);
        range::lemma_power_positive(2, e);
        lemma_dropped_above(q);
        vstd::arithmetic::div_mod::lemma_fundamental_div_mod(n as int, d as int);
        let part = d * step;
        assert(part >= 1) by (nonlinear_arith)
            requires
                part == d * step,
                d >= 1,
                step >= 1,
        ;
        vstd::arithmetic::div_mod::lemma_fundamental_div_mod(n as int, part as int);
        let f = n / part;
        assert(f < SPAN) by (nonlinear_arith)
            requires
                q < SPAN * step,
                n == d * q + n % d,
                n % d < d,
                n == part * f + n % part,
                n % part >= 0,
                part == d * step,
                d >= 1,
                step >= 1,
        ;
        if e == 0 {
            assert(g <= SPAN) by (nonlinear_arith)
                requires
                    g == h * step,
                    step == 1,
                    h <= SPAN,
            ;
        }
        assert(2 * h >= SPAN) by {
            assert(2 * f + 1 >= SPAN) by (nonlinear_arith)
                requires
                    2 * q >= SPAN * step,
                    n == d * q + n % d,
                    n % d >= 0,
                    n == part * f + n % part,
                    n % part < part,
                    part == d * step,
                    d >= 1,
                    step >= 1,
            ;
        }
        // the last bit of the number is worth more than four units
        assert(step * SPAN >= g) by (nonlinear_arith)
            requires
                g == h * step,
                h <= SPAN,
        ;
        let m = w * one();
        assert(h * (d * step) == d * g) by (nonlinear_arith)
            requires
                g == h * step,
        ;
        assert(2 * m <= 2 * (d * g) + one() && 2 * (d * g) <= 2 * m + one());
        assert(d * step > 2 * one()) by (nonlinear_arith)
            requires
                step * SPAN >= g,
                32 * g >= one(),
                d == 1_000_000_000_000_000_000,
                one() == 5_192_296_858_534_827_628_530_496_329_220_096,
                SPAN == 9_007_199_254_740_992,
        ;
        lemma_near_double(h, e, m, d);
    }
}

} // verus!
