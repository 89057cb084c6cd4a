//! How large and how small a number in double precision can be.
use vstd::prelude::*;

use crate::number;

verus! {

/// `base` to the power of `n`.
pub open spec fn power(base: nat, n: nat) -> nat
    decreases n,
{
    if n == 0 {
        1
    } else {
        base * power(base, (n - 1) as nat)
    }
}

/// `2^1024 - 2^970`, which lies halfway between the largest double and the power
/// of two behind it: this number and all above it round to infinity.
pub open spec fn infinite_from() -> nat {
    power(2, 970) * 18_014_398_509_481_983
}

/// `d * 10^exponent` rounds to infinity.
pub open spec fn overflows(d: nat, exponent: int) -> bool {
    if exponent >= 0 {
        d * number::pow10(exponent as nat) >= infinite_from()
    } else {
        d >= infinite_from() * number::pow10((-exponent) as nat)
    }
}

/// `d * 10^exponent` rounds to zero: it is no more than `2^-1075`, half the least
/// double, which is `5^1075` divided by `10^1075`.
pub open spec fn vanishes(d: nat, exponent: int) -> bool {
    if exponent >= -1075 {
        d * number::pow10((exponent + 1075) as nat) <= power(5, 1075)
    } else {
        d <= power(5, 1075) * number::pow10((-1075 - exponent) as nat)
    }
}

// ---------------------------------------------------------------------------
// Powers
// ---------------------------------------------------------------------------
pub(crate) proof fn lemma_power_positive(base: nat, n: nat)
    requires
        base >= 1,
    ensures
        power(base, n) >= 1,
    decreases n,
{
    if n > 0 {
        lemma_power_positive(base, (n - 1) as nat);
        let p = power(base, (n - 1) as nat);
        assert(base * p >= 1) by (nonlinear_arith)
            requires
                base >= 1,
                p >= 1,
        ;
    }
}

pub(crate) proof fn lemma_power_add(base: nat, m: nat, n: nat)
    ensures
        power(base, m + n) == power(base, m) * power(base, n),
    decreases m,
{
    let q = power(base, n);
    if m == 0 {
        assert(1 * q == q) by (nonlinear_arith);
    } else {
        lemma_power_add(base, (m - 1) as nat, n);
        let p = power(base, (m - 1) as nat);
        assert((base * p) * q == base * (p * q)) by (nonlinear_arith);
    }
}

proof fn lemma_tens(n: nat)
    ensures
        number::pow10(n) == power(5, n) * power(2, n),
    decreases n,
{
    if n == 0 {
        assert(1 * 1 == 1) by (nonlinear_arith);
    } else {
        lemma_tens((n - 1) as nat);
        let p = power(5, (n - 1) as nat);
        let q = power(2, (n - 1) as nat);
        assert((5 * p) * (2 * q) == 10 * (p * q)) by (nonlinear_arith);
    }
}

/// Half the least double is less than a unit.
proof fn lemma_least_is_small()
    ensures
        power(5, 1075) < number::pow10(1057),
{
    let a = power(5, 1057);
    let b = power(5, 18);
    let c = power(2, 42);
    let d = power(2, 1015);
    lemma_power_add(5, 1057, 18);
    lemma_power_add(2, 42, 1015);
    lemma_tens(1057);
    lemma_power_positive(5, 1057);
    lemma_power_positive(2, 1015);
    reveal_with_fuel(power, 43);
    assert(b == 3_814_697_265_625);
    assert(c == 4_398_046_511_104);
    assert(a * b < a * (c * d)) by (nonlinear_arith)
        requires
            a >= 1,
            d >= 1,
            b < c,
    ;
}

/// A number of no less than one unit does not vanish.
pub proof fn lemma_units_stay(d: nat, exponent: int)
    requires
        if exponent >= -18 {
            d >= 1
        } else {
            d >= number::pow10((-18 - exponent) as nat)
        },
    ensures
        !vanishes(d, exponent),
{
    let least = power(5, 1075);
    let unit = number::pow10(1057);
    lemma_least_is_small();
    if exponent >= -18 {
        let more = (exponent + 18) as nat;
        number::lemma_pow10_add(1057, more);
        number::lemma_pow10_positive(more);
        let p = number::pow10(more);
        assert(d * (unit * p) >= unit) by (nonlinear_arith)
            requires
                d >= 1,
                p >= 1,
                unit >= 1,
        ;
    } else {
        let k = (-18 - exponent) as nat;
        if exponent >= -1075 {
            let up = (exponent + 1075) as nat;
            number::lemma_pow10_add(k, up);
            let p = number::pow10(up);
            let q = number::pow10(k);
            assert(d * p >= q * p) by (nonlinear_arith)
                requires
                    d >= q,
            ;
        } else {
            let down = (-1075 - exponent) as nat;
            number::lemma_pow10_add(1057, down);
            number::lemma_pow10_positive(down);
            let p = number::pow10(down);
            assert(least * p < unit * p) by (nonlinear_arith)
                requires
                    least < unit,
                    p >= 1,
            ;
        }
    }
}

/// A number that rounds to infinity is larger than any [`number::Decimal`].
pub proof fn lemma_overflow_is_capped(d: nat, exponent: int)
    requires
        overflows(d, exponent),
    ensures
        number::scaled(d, 18 + exponent) == number::MAX_UNITS,
        exponent >= -18 ==> d * number::pow10((18 + exponent) as nat) > number::MAX_UNITS,
{
    let bound = infinite_from();
    let p18 = number::pow10(18);
    lemma_power_positive(2, 970);
    let p = power(2, 970);
    assert(p * 18_014_398_509_481_983 >= 18_014_398_509_481_983) by (nonlinear_arith)
        requires
            p >= 1,
    ;
    number::lemma_eighteen_places();
    assert(bound * p18 > number::MAX_UNITS) by (nonlinear_arith)
        requires
            bound >= 18_014_398_509_481_983,
            p18 == 1_000_000_000_000_000_000,
            number::MAX_UNITS == 10_000_000_000_000_000_000_000_000_000,
    ;
    if exponent >= 0 {
        let t = number::pow10(exponent as nat);
        number::lemma_pow10_add(exponent as nat, 18);
        assert(d * (t * p18) >= bound * p18) by (nonlinear_arith)
            requires
                d * t >= bound,
        ;
    } else {
        let m = (-exponent) as nat;
        let t = number::pow10(m);
        if m <= 18 {
            let rest = number::pow10((18 - m) as nat);
            number::lemma_pow10_add(m, (18 - m) as nat);
            assert(d * rest >= bound * (t * rest)) by (nonlinear_arith)
                requires
                    d >= bound * t,
            ;
        } else {
            let divisor = number::pow10((m - 18) as nat);
            number::lemma_pow10_add(18, (m - 18) as nat);
            number::lemma_pow10_positive((m - 18) as nat);
            assert(d / divisor >= bound * p18) by (nonlinear_arith)
                requires
                    d >= bound * (p18 * divisor),
                    divisor >= 1,
            ;
        }
    }
}

// ---------------------------------------------------------------------------
// Long numbers
// ---------------------------------------------------------------------------
/// The number that the first `n` digits stand for, times `factor`, plus `more`.
fn times(digits: &Vec<char>, n: usize, factor: u64, more: u64) -> (result: Vec<char>)
    requires
        n <= digits@.len(),
        factor <= 10,
        more <= number::UNITS_PER_ONE,
    ensures
        number::digits_value(result@) == number::digits_value(digits@.take(n as int)) * factor
            + more,
    decreases n, more,
{
    let ghost before = digits@.take(n as int);
    if n == 0 && more == 0 {
        assert(0 * factor == 0) by (nonlinear_arith);
        return Vec::new();
    }
    let (rest, sum): (usize, u64) = if n == 0 {
        (0, more)
    } else {
        let digit: u64 = number::digit_number(digits[n - 1]) as u64;
        assert(digit * factor <= 90) by (nonlinear_arith)
            requires
                digit <= 9,
                factor <= 10,
        ;
        (n - 1, digit * factor + more)
    };
    let mut result: Vec<char> = times(digits, rest, factor, sum / 10);
    let ghost front = result@;
    let last: char = (48u8 + (sum % 10) as u8) as char;
    result.push(last);
    assert(result@.drop_last() =~= front);
    assert(number::digit_value(last) == sum % 10);
    proof {
        let v = number::digits_value(digits@.take(rest as int));
        if n > 0 {
            assert(before.drop_last() =~= digits@.take(rest as int));
            assert(before.last() == digits@[n - 1]);
            let digit = number::digit_value(digits@[n - 1]);
            assert((v * 10 + digit) * factor == 10 * (v * factor) + digit * factor)
                by (nonlinear_arith);
        } else {
            assert(0 * factor == 0) by (nonlinear_arith);
        }
    }
    result
}

/// The digits of `start * base^n`.
fn raised(start: u64, base: u64, n: u64) -> (result: Vec<char>)
    requires
        start <= number::UNITS_PER_ONE,
        base <= 10,
    ensures
        number::digits_value(result@) == power(base as nat, n as nat) * start,
{
    let none: Vec<char> = Vec::new();
    let mut result: Vec<char> = times(&none, 0, 1, start);
    let mut i: u64 = 0;
    assert(1 * start == start) by (nonlinear_arith);
    while i < n
        invariant
            i <= n,
            base <= 10,
            number::digits_value(result@) == power(base as nat, i as nat) * start,
        decreases n - i,
    {
        let p = Ghost(power(base as nat, i as nat));
        assert((p@ * start) * base == (base * p@) * start) by (nonlinear_arith);
        assert(result@.take(result@.len() as int) =~= result@);
        result = times(&result, result.len(), base, 0);
        i += 1;
    }
    result
}

/// The digits with `zeros` zeros behind them, if that is a number of zeros.
fn padded(digits: &Vec<char>, zeros: i128) -> (result: Vec<char>)
    ensures
        number::digits_value(result@) == if zeros >= 0 {
            number::digits_value(digits@) * number::pow10(zeros as nat)
        } else {
            number::digits_value(digits@)
        },
{
    let ghost d = number::digits_value(digits@);
    let mut result: Vec<char> = digits.clone();
    assert(result@ =~= digits@);
    let mut i: i128 = 0;
    assert(d * 1 == d) by (nonlinear_arith);
    while i < zeros
        invariant
            0 <= i,
            zeros >= 0 ==> i <= zeros,
            zeros < 0 ==> i == 0,
            d == number::digits_value(digits@),
            number::digits_value(result@) == d * number::pow10(i as nat),
        decreases zeros - i,
    {
        let ghost before = result@;
        let p = Ghost(number::pow10(i as nat));
        result.push('0');
        assert(result@.drop_last() =~= before);
        assert((d * p@) * 10 == d * (10 * p@)) by (nonlinear_arith);
        assert(number::pow10((i + 1) as nat) == 10 * p@);
        i += 1;
    }
    result
}

/// The digit at the place `i` of `width`, where the digits fill the last ones.
spec fn digit_at(digits: Seq<char>, width: int, i: int) -> nat {
    let j = i - (width - digits.len());
    if j < 0 {
        0
    } else {
        number::digit_value(digits[j])
    }
}

/// The number that the first `i` of `width` places stand for.
spec fn front_value(digits: Seq<char>, width: int, i: int) -> nat {
    let j = i - (width - digits.len());
    if j < 0 {
        0
    } else {
        number::digits_value(digits.take(j))
    }
}

proof fn lemma_front_grows(digits: Seq<char>, width: int, i: int)
    requires
        digits.len() <= width,
        0 <= i < width,
    ensures
        front_value(digits, width, i + 1) == front_value(digits, width, i) * 10 + digit_at(
            digits,
            width,
            i,
        ),
{
    let j = i - (width - digits.len());
    if j >= 0 {
        assert(digits.take(j + 1).drop_last() =~= digits.take(j));
        assert(digits.take(j + 1).last() == digits[j]);
    } else if j == -1 {
        assert(digits.take(0) =~= seq![]);
    }
}

proof fn lemma_front_bounds(digits: Seq<char>, width: int, i: int)
    requires
        digits.len() <= width,
        0 <= i <= width,
    ensures
        front_value(digits, width, i) * number::pow10((width - i) as nat) <= number::digits_value(
            digits,
        ) < (front_value(digits, width, i) + 1) * number::pow10((width - i) as nat),
{
    let j = i - (width - digits.len());
    let p = number::pow10((width - i) as nat);
    let v = front_value(digits, width, i);
    assert((v + 1) * p == v * p + p) by (nonlinear_arith);
    if j >= 0 {
        number::lemma_digits_value_split(digits, j);
        number::lemma_digits_value_bound(digits.skip(j));
    } else {
        number::lemma_digits_value_bound(digits);
        number::lemma_pow10_add(digits.len(), (-j) as nat);
        number::lemma_pow10_positive((-j) as nat);
        let a = number::pow10(digits.len());
        let b = number::pow10((-j) as nat);
        assert(a <= a * b) by (nonlinear_arith)
            requires
                b >= 1,
        ;
        assert(0 * p == 0) by (nonlinear_arith);
    }
}

proof fn lemma_front_decides(a: Seq<char>, b: Seq<char>, width: int, i: int)
    requires
        a.len() <= width,
        b.len() <= width,
        0 <= i <= width,
        front_value(a, width, i) > front_value(b, width, i),
    ensures
        number::digits_value(a) > number::digits_value(b),
{
    lemma_front_bounds(a, width, i);
    lemma_front_bounds(b, width, i);
    let v = front_value(a, width, i);
    let w = front_value(b, width, i);
    let p = number::pow10((width - i) as nat);
    assert(v * p >= (w + 1) * p) by (nonlinear_arith)
        requires
            v >= w + 1,
    ;
}

fn place(digits: &Vec<char>, width: usize, i: usize) -> (result: u128)
    requires
        digits@.len() <= width,
        i < width,
    ensures
        result == digit_at(digits@, width as int, i as int),
{
    let lead: usize = width - digits.len();
    if i < lead {
        0
    } else {
        number::digit_number(digits[i - lead])
    }
}

/// Whether the digits of `a` stand for no less than those of `b`.
fn at_least(a: &Vec<char>, b: &Vec<char>) -> (result: bool)
    ensures
        result == (number::digits_value(a@) >= number::digits_value(b@)),
{
    let width: usize = if a.len() > b.len() {
        a.len()
    } else {
        b.len()
    };
    let mut i: usize = 0;
    assert(a@.take(0) =~= seq![]);
    assert(b@.take(0) =~= seq![]);
    while i < width
        invariant
            i <= width,
            a@.len() <= width,
            b@.len() <= width,
            front_value(a@, width as int, i as int) == front_value(b@, width as int, i as int),
        decreases width - i,
    {
        let x: u128 = place(a, width, i);
        let y: u128 = place(b, width, i);
        proof {
            lemma_front_grows(a@, width as int, i as int);
            lemma_front_grows(b@, width as int, i as int);
        }
        if x != y {
            proof {
                if x > y {
                    lemma_front_decides(a@, b@, width as int, i + 1);
                } else {
                    lemma_front_decides(b@, a@, width as int, i + 1);
                }
            }
            return x > y;
        }
        i += 1;
    }
    assert(a@.take(a@.len() as int) =~= a@);
    assert(b@.take(b@.len() as int) =~= b@);
    true
}

/// Whether a number rounds to infinity.
pub fn is_too_large(digits: &Vec<char>, exponent: i128) -> (result: bool)
    requires
        -0x2_0000_0000_0000_0000 <= exponent <= 0x2_0000_0000_0000_0000,
    ensures
        result == overflows(number::digits_value(digits@), exponent as int),
{
    let bound: Vec<char> = raised(18_014_398_509_481_983, 2, 970);
    assert(infinite_from() * 1 == infinite_from()) by (nonlinear_arith);
    at_least(&padded(digits, exponent), &padded(&bound, -exponent))
}

/// Whether a number rounds to zero.
pub fn is_too_small(digits: &Vec<char>, exponent: i128) -> (result: bool)
    requires
        -0x2_0000_0000_0000_0000 <= exponent <= 0x2_0000_0000_0000_0000,
    ensures
        result == vanishes(number::digits_value(digits@), exponent as int),
{
    let bound: Vec<char> = raised(1, 5, 1075);
    assert(power(5, 1075) * 1 == power(5, 1075)) by (nonlinear_arith);
    at_least(&padded(&bound, -1075 - exponent), &padded(digits, exponent + 1075))
}

} // verus!
