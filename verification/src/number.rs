//! Decimal numbers, each standing for a double, and the texts that stand for numbers.
use vstd::prelude::*;

use crate::double;
use crate::range;
use crate::text;

verus! {

/// How many units make one.
pub const UNITS_PER_ONE: i128 = 1_000_000_000_000_000_000;

/// The largest number of units that a [`Decimal`] holds.
pub const MAX_UNITS: i128 = 10_000_000_000_000_000_000_000_000_000;

/// Ten to the power of `n`.
pub open spec fn pow10(n: nat) -> nat
    decreases n,
{
    if n == 0 {
        1
    } else {
        10 * pow10((n - 1) as nat)
    }
}

pub(crate) proof fn lemma_pow10_positive(n: nat)
    ensures
        pow10(n) >= 1,
    decreases n,
{
    if n > 0 {
        lemma_pow10_positive((n - 1) as nat);
    }
}

pub(crate) proof fn lemma_pow10_add(m: nat, n: nat)
    ensures
        pow10(m + n) == pow10(m) * pow10(n),
    decreases m,
{
    if m == 0 {
        assert(pow10(m) * pow10(n) == pow10(n)) by (nonlinear_arith)
            requires
                pow10(m) == 1,
        ;
    } else {
        lemma_pow10_add((m - 1) as nat, n);
        let a = pow10((m - 1) as nat);
        let b = pow10(n);
        assert((10 * a) * b == 10 * (a * b)) by (nonlinear_arith);
    }
}

// ---------------------------------------------------------------------------
// Digits
// ---------------------------------------------------------------------------
/// The number that `s`, all digits, stands for.
pub open spec fn digits_value(s: Seq<char>) -> nat
    decreases s.len(),
{
    if s.len() == 0 {
        0
    } else {
        digits_value(s.drop_last()) * 10 + digit_value(s.last())
    }
}

/// The value of one digit.
pub open spec fn digit_value(c: char) -> nat {
    if text::digit(c) {
        (c as u32 - '0' as u32) as nat
    } else {
        0
    }
}

/// `s` consists of digits.
pub open spec fn all_digits(s: Seq<char>) -> bool {
    forall|i: int| 0 <= i < s.len() ==> text::digit(#[trigger] s[i])
}

/// How many digits `s` begins with.
pub open spec fn leading_digits(s: Seq<char>) -> nat
    decreases s.len(),
{
    if s.len() > 0 && text::digit(s[0]) {
        1 + leading_digits(s.drop_first())
    } else {
        0
    }
}

/// The smaller of two numbers.
pub open spec fn least(a: int, b: int) -> int {
    if a <= b {
        a
    } else {
        b
    }
}

pub(crate) proof fn lemma_digits_value_bound(s: Seq<char>)
    ensures
        digits_value(s) < pow10(s.len()),
    decreases s.len(),
{
    if s.len() > 0 {
        lemma_digits_value_bound(s.drop_last());
    }
}

proof fn lemma_digits_value_zero(s: Seq<char>)
    ensures
        digits_value(s) == 0 <==> forall|i: int|
            0 <= i < s.len() ==> digit_value(#[trigger] s[i]) == 0,
    decreases s.len(),
{
    if s.len() > 0 {
        let rest = s.drop_last();
        lemma_digits_value_zero(rest);
        assert(s.last() == s[s.len() - 1]);
        if digits_value(s) == 0 {
            assert forall|i: int| 0 <= i < s.len() implies digit_value(#[trigger] s[i]) == 0 by {
                if i < s.len() - 1 {
                    assert(rest[i] == s[i]);
                }
            }
        } else if forall|i: int| 0 <= i < s.len() ==> digit_value(#[trigger] s[i]) == 0 {
            assert forall|i: int| 0 <= i < rest.len() implies digit_value(#[trigger] rest[i])
                == 0 by {
                assert(rest[i] == s[i]);
            }
        }
    }
}

/// Reading a number in two parts.
pub(crate) proof fn lemma_digits_value_split(s: Seq<char>, k: int)
    requires
        0 <= k <= s.len(),
    ensures
        digits_value(s) == digits_value(s.take(k)) * pow10((s.len() - k) as nat) + digits_value(
            s.skip(k),
        ),
    decreases s.len() - k,
{
    if k == s.len() {
        assert(s.take(k) =~= s);
        assert(s.skip(k) =~= seq![]);
        assert(digits_value(s) * 1 == digits_value(s)) by (nonlinear_arith);
    } else {
        let rest = s.drop_last();
        lemma_digits_value_split(rest, k);
        assert(rest.take(k) =~= s.take(k));
        assert(rest.skip(k) =~= s.skip(k).drop_last());
        assert(s.skip(k).last() == s.last());
        let v = digits_value(s.take(k));
        let p = pow10((rest.len() - k) as nat);
        assert((v * p) * 10 == v * (10 * p)) by (nonlinear_arith);
        assert(pow10((s.len() - k) as nat) == 10 * p);
    }
}

pub(crate) fn digit_number(c: char) -> (result: u128)
    ensures
        result == digit_value(c),
        result <= 9,
{
    if '0' <= c && c <= '9' {
        (c as u32 - '0' as u32) as u128
    } else {
        0
    }
}

fn is_digit(c: char) -> (result: bool)
    ensures
        result == text::digit(c),
{
    '0' <= c && c <= '9'
}

/// The number that the digits from `from` up to `to` stand for, or `cap` where
/// it is larger.
fn capped_value(s: &Vec<char>, from: usize, to: usize, cap: u128) -> (result: u128)
    requires
        from <= to <= s@.len(),
        cap <= MAX_UNITS,
    ensures
        result == least(digits_value(s@.subrange(from as int, to as int)) as int, cap as int),
{
    let mut value: u128 = 0;
    let mut i: usize = from;
    assert(s@.subrange(from as int, from as int) =~= seq![]);
    while i < to
        invariant
            from <= i <= to <= s@.len(),
            cap <= MAX_UNITS,
            value == least(digits_value(s@.subrange(from as int, i as int)) as int, cap as int),
        decreases to - i,
    {
        assert(s@.subrange(from as int, i + 1).drop_last() =~= s@.subrange(from as int, i as int));
        assert(s@.subrange(from as int, i + 1).last() == s@[i as int]);
        let next: u128 = value * 10 + digit_number(s[i]);
        value = if next <= cap {
            next
        } else {
            cap
        };
        i += 1;
    }
    value
}

/// Whether some digit from `from` up to `to` is not zero.
fn has_nonzero(s: &Vec<char>, from: usize, to: usize) -> (result: bool)
    requires
        from <= to <= s@.len(),
    ensures
        result == (digits_value(s@.subrange(from as int, to as int)) != 0),
{
    let ghost part = s@.subrange(from as int, to as int);
    proof {
        lemma_digits_value_zero(part);
    }
    let mut i: usize = from;
    while i < to
        invariant
            from <= i <= to <= s@.len(),
            part == s@.subrange(from as int, to as int),
            forall|j: int| 0 <= j < i - from ==> digit_value(#[trigger] part[j]) == 0,
        decreases to - i,
    {
        if digit_number(s[i]) != 0 {
            proof {
                lemma_digits_value_zero(part);
                assert(part[i - from] == s@[i as int]);
            }
            return true;
        }
        assert(part[i - from] == s@[i as int]);
        i += 1;
    }
    false
}

/// Counts the digits of `s` from `from` on.
fn count_digits(s: &Vec<char>, from: usize) -> (result: usize)
    requires
        from <= s@.len(),
    ensures
        result == leading_digits(s@.skip(from as int)),
        from + result <= s@.len(),
{
    let mut i: usize = from;
    while i < s.len() && is_digit(s[i])
        invariant
            from <= i <= s@.len(),
            leading_digits(s@.skip(from as int)) == (i - from) + leading_digits(s@.skip(i as int)),
        decreases s@.len() - i,
    {
        assert(s@.skip(i as int).drop_first() =~= s@.skip(i + 1));
        assert(s@.skip(i as int)[0] == s@[i as int]);
        i += 1;
    }
    i - from
}

// ---------------------------------------------------------------------------
// Integers
// ---------------------------------------------------------------------------
/// The number that `s` stands for: an optional sign, then digits.
pub open spec fn integer_of(s: Seq<char>) -> Option<int> {
    let unsigned = if s.len() > 0 && (s[0] == '+' || s[0] == '-') {
        s.skip(1)
    } else {
        s
    };
    if unsigned.len() > 0 && leading_digits(unsigned) == unsigned.len() {
        Some(
            if s[0] == '-' {
                -(digits_value(unsigned) as int)
            } else {
                digits_value(unsigned) as int
            },
        )
    } else {
        None
    }
}

/// The number that `s` stands for, where it lies between `min` and `max`.
pub open spec fn bounded_integer(s: Seq<char>, min: int, max: int) -> Option<int> {
    match integer_of(s) {
        Some(value) if min <= value <= max => Some(value),
        _ => None,
    }
}

/// Reads an integer between `min` and `max`.
pub fn parse_integer(s: &str, min: i64, max: i64) -> (result: Option<i64>)
    requires
        min <= 0 <= max,
    ensures
        match bounded_integer(s@, min as int, max as int) {
            Some(value) => result == Some(value as i64) && min <= value <= max,
            None => result is None,
        },
{
    let chars: Vec<char> = text::chars_of(s);
    let signed: bool = chars.len() > 0 && (chars[0] == '+' || chars[0] == '-');
    let start: usize = if signed {
        1
    } else {
        0
    };
    let ghost unsigned = s@.skip(start as int);
    assert(!signed ==> unsigned =~= s@);
    let count: usize = count_digits(&chars, start);
    if count == 0 || count != chars.len() - start {
        return None;
    }
    assert(s@.subrange(start as int, s@.len() as int) =~= unsigned);
    // One more than any admitted magnitude.
    let magnitude: u128 = capped_value(&chars, start, chars.len(), 0x1_0000_0000_0000_0000);
    let value: i128 = if chars[0] == '-' {
        -(magnitude as i128)
    } else {
        magnitude as i128
    };
    if value < min as i128 || value > max as i128 {
        None
    } else {
        Some(value as i64)
    }
}

proof fn lemma_radix_reads_back(n: nat)
    ensures
        digits_value(text::radix_text(n, 10)) == n,
    decreases n,
{
    let written = text::radix_text(n, 10);
    if n < 10 {
        assert(written =~= seq![text::digit_char(n)]);
        assert(digits_value(written.drop_last()) == 0);
        assert(written.last() == text::digit_char(n));
        assert(digit_value(text::digit_char(n)) == n);
    } else {
        lemma_radix_reads_back(n / 10);
        assert(written.drop_last() =~= text::radix_text(n / 10, 10));
        assert(written.last() == text::digit_char(n % 10));
        assert(digit_value(text::digit_char(n % 10)) == n % 10);
    }
}

proof fn lemma_leading_digits_of_digits(s: Seq<char>)
    requires
        all_digits(s),
    ensures
        leading_digits(s) == s.len(),
    decreases s.len(),
{
    if s.len() > 0 {
        assert(text::digit(s[0]));
        assert forall|i: int| 0 <= i < s.drop_first().len() implies text::digit(
            #[trigger] s.drop_first()[i],
        ) by {
            assert(s.drop_first()[i] == s[i + 1]);
        }
        lemma_leading_digits_of_digits(s.drop_first());
    }
}

/// An integer in decimal is read as that integer.
pub proof fn law_written_integers_read_back(n: int)
    ensures
        integer_of(text::int_text(n)) == Some(n),
        forall|i: int|
            0 <= i < text::int_text(n).len() ==> {
                ||| text::digit(#[trigger] text::int_text(n)[i])
                ||| text::int_text(n)[i] == '-'
            },
{
    let m = magnitude(n);
    let written = text::radix_text(m, 10);
    text::lemma_radix_text(m, m);
    lemma_radix_reads_back(m);
    lemma_leading_digits_of_digits(written);
    if n < 0 {
        let whole = seq!['-'] + written;
        assert(whole.skip(1) =~= written);
        assert forall|i: int| 0 <= i < whole.len() implies text::digit(#[trigger] whole[i])
            || whole[i] == '-' by {
            if i > 0 {
                assert(whole[i] == written[i - 1]);
            }
        }
    } else {
        assert(text::digit(written[0]));
    }
}

// ---------------------------------------------------------------------------
// Decimals
// ---------------------------------------------------------------------------
/// A decimal number with eighteen places, of at most ten thousand million. It stands
/// for the nearest double, and is compared and added as that.
#[derive(Debug, Clone, Copy, PartialEq, Eq, Structural)]
pub struct Decimal {
    units: i128,
}

/// `n` kept between the least and the largest number of units.
pub open spec fn clamped_units(n: int) -> int {
    if n < -MAX_UNITS {
        -MAX_UNITS as int
    } else if n > MAX_UNITS {
        MAX_UNITS as int
    } else {
        n
    }
}

impl Decimal {
    /// The number, in units.
    pub closed spec fn value(self) -> int {
        self.units as int
    }

    #[verifier::type_invariant]
    spec fn bounded(self) -> bool {
        -MAX_UNITS <= self.units <= MAX_UNITS
    }

    /// The number of `units` units, or the nearest one that can be held.
    pub fn from_units(units: i128) -> (result: Self)
        ensures
            result.value() == clamped_units(units as int),
    {
        let kept: i128 = if units < -MAX_UNITS {
            -MAX_UNITS
        } else if units > MAX_UNITS {
            MAX_UNITS
        } else {
            units
        };
        Decimal { units: kept }
    }

    /// The integer `n`.
    pub fn whole(n: i32) -> (result: Self)
        ensures
            result.value() == n * UNITS_PER_ONE,
    {
        Decimal { units: n as i128 * UNITS_PER_ONE }
    }

    /// The number, in units.
    pub fn units(&self) -> (result: i128)
        ensures
            result == self.value(),
            -MAX_UNITS <= result <= MAX_UNITS,
    {
        proof {
            use_type_invariant(self);
        }
        self.units
    }

    /// The sum of two numbers in double precision, kept in range.
    pub fn plus(&self, other: &Decimal) -> (result: Self)
        ensures
            result.value() == clamped_units(
                double::shortest_signed(double::sum(self.value(), other.value())),
            ),
    {
        Decimal::from_units(double::plus(self.units(), other.units()))
    }

    /// Whether two numbers differ by no more than `tolerance`, in double precision.
    pub fn close_to(&self, other: &Decimal, tolerance: &Decimal) -> (result: bool)
        requires
            0 <= tolerance.value() <= UNITS_PER_ONE,
        ensures
            result == double::within(self.value(), other.value(), tolerance.value()),
    {
        double::is_within(self.units(), other.units(), tolerance.units())
    }

    /// The number in full.
    pub fn text(&self) -> (result: String)
        ensures
            result@ == decimal_text(self.value()),
    {
        let units: i128 = self.units();
        let magnitude: u128 = if units < 0 {
            (-units) as u128
        } else {
            units as u128
        };
        proof {
            lemma_eighteen_places();
        }
        fixed(units < 0, magnitude, 18, UNITS_PER_ONE as u128)
    }

    /// The number rounded to thousandths.
    pub fn short_text(&self) -> (result: String)
        ensures
            result@ == short_decimal_text(self.value()),
    {
        let units: i128 = self.units();
        proof {
            lemma_three_places();
        }
        fixed(units < 0, double::to_thousandths(units), 3, 1000)
    }
}

/// `a` and `b` differ by no more than `tolerance`.
pub open spec fn within(a: int, b: int, tolerance: int) -> bool {
    -tolerance <= a - b <= tolerance
}

/// The digits of the fraction `f / 10^places`, trailing zeros left out.
pub open spec fn fraction_text(f: nat, places: nat) -> Seq<char>
    decreases places,
{
    if f == 0 || places == 0 {
        seq![]
    } else {
        let scale = pow10((places - 1) as nat);
        seq![text::digit_char(f / scale)] + fraction_text(f % scale, (places - 1) as nat)
    }
}

/// `n / 10^places` in decimal, trailing zeros left out.
pub open spec fn fixed_text(negative: bool, n: nat, places: nat) -> Seq<char> {
    let scale = pow10(places);
    let sign: Seq<char> = if negative {
        seq!['-']
    } else {
        seq![]
    };
    let fraction: Seq<char> = if n % scale == 0 {
        seq![]
    } else {
        seq!['.'] + fraction_text(n % scale, places)
    };
    sign + text::radix_text(n / scale, 10) + fraction
}

/// The magnitude of `n`.
pub open spec fn magnitude(n: int) -> nat {
    if n < 0 {
        (-n) as nat
    } else {
        n as nat
    }
}

/// A decimal of `v` units in full.
pub open spec fn decimal_text(v: int) -> Seq<char> {
    fixed_text(v < 0, magnitude(v), 18)
}

/// `n / d` rounded to the nearest integer, halves to the even one.
pub open spec fn nearest_even(n: nat, d: nat) -> nat {
    let quotient = n / d;
    let twice = 2 * (n % d);
    if twice > d || (twice == d && quotient % 2 == 1) {
        quotient + 1
    } else {
        quotient
    }
}

/// A decimal of `v` units rounded to thousandths.
pub open spec fn short_decimal_text(v: int) -> Seq<char> {
    fixed_text(v < 0, double::thousandths(v), 3)
}

pub(crate) proof fn lemma_eighteen_places()
    ensures
        pow10(18) == UNITS_PER_ONE,
{
    reveal_with_fuel(pow10, 19);
}

proof fn lemma_fifteen_places()
    ensures
        pow10(15) == 1_000_000_000_000_000,
{
    reveal_with_fuel(pow10, 16);
}

proof fn lemma_three_places()
    ensures
        pow10(3) == 1000,
{
    reveal_with_fuel(pow10, 4);
}

fn fraction(f: u128, places: u32, scale: u128) -> (result: String)
    requires
        scale == pow10(places as nat),
        f < scale,
    ensures
        result@ == fraction_text(f as nat, places as nat),
    decreases places,
{
    if f == 0 || places == 0 {
        return String::new();
    }
    let next: u128 = scale / 10;
    assert(next == pow10((places - 1) as nat));
    proof {
        lemma_pow10_positive((places - 1) as nat);
    }
    let leading: u128 = f / next;
    assert(leading < 10) by (nonlinear_arith)
        requires
            f < 10 * next,
            leading == f / next,
            next >= 1,
    ;
    let rest: String = fraction(f % next, places - 1, next);
    let head: String = text::radix(leading, 10);
    assert(head@ =~= seq![text::digit_char(leading as nat)]);
    head.concat(rest.as_str())
}

fn fixed(negative: bool, n: u128, places: u32, scale: u128) -> (result: String)
    requires
        scale == pow10(places as nat),
    ensures
        result@ == fixed_text(negative, n as nat, places as nat),
{
    proof {
        lemma_pow10_positive(places as nat);
    }
    let mut result = String::new();
    if negative {
        result.push('-');
        assert(result@ =~= seq!['-']);
    }
    result.append(text::radix(n / scale, 10).as_str());
    let rest: u128 = n % scale;
    if rest != 0 {
        let ghost before = result@;
        result.push('.');
        let digits: String = fraction(rest, places, scale);
        result.append(digits.as_str());
        assert(result@ =~= before + (seq!['.'] + digits@));
    } else {
        assert(result@ =~= result@ + Seq::<char>::empty());
    }
    result
}

// ---------------------------------------------------------------------------
// Numbers in general
// ---------------------------------------------------------------------------
/// A number as a text may give it.
#[derive(Debug, Clone, Copy, PartialEq, Eq, Structural)]
pub enum Rate {
    Finite(Decimal),
    Infinite,
    NegativeInfinite,
    NotANumber,
}

/// What a [`Rate`] stands for, in units.
pub enum RateView {
    Finite(int),
    Infinite,
    NegativeInfinite,
    NotANumber,
}

impl View for Rate {
    type V = RateView;

    open spec fn view(&self) -> RateView {
        match *self {
            Rate::Finite(value) => RateView::Finite(value.value()),
            Rate::Infinite => RateView::Infinite,
            Rate::NegativeInfinite => RateView::NegativeInfinite,
            Rate::NotANumber => RateView::NotANumber,
        }
    }
}

/// Exponents beyond this magnitude are read as this one.
pub const MAX_EXPONENT: i128 = 1_000_000;

/// `c` with an ASCII capital turned small.
pub open spec fn small(c: char) -> char {
    if 'A' <= c <= 'Z' {
        (c as u32 + 32) as char
    } else {
        c
    }
}

/// `s` is `word` but for capitals.
pub open spec fn spells(s: Seq<char>, word: Seq<char>) -> bool {
    s.len() == word.len() && forall|i: int| 0 <= i < s.len() ==> small(#[trigger] s[i]) == word[i]
}

/// `d * 10^shift` rounded up to an integer, and no more than [`MAX_UNITS`].
pub open spec fn scaled(d: nat, shift: int) -> int {
    if shift >= 0 {
        least((d * pow10(shift as nat)) as int, MAX_UNITS as int)
    } else {
        let divisor = pow10((-shift) as nat);
        least(
            (d / divisor + (if d % divisor == 0 {
                0nat
            } else {
                1nat
            })) as int,
            MAX_UNITS as int,
        )
    }
}

/// The exponent that `s` stands for, where `s` is empty or an `e` with an
/// integer behind it.
pub open spec fn exponent_of(s: Seq<char>) -> Option<int> {
    if s.len() == 0 {
        Some(0)
    } else if s[0] == 'e' || s[0] == 'E' {
        match integer_of(s.skip(1)) {
            Some(e) => Some(
                if e > MAX_EXPONENT {
                    MAX_EXPONENT as int
                } else if e < -MAX_EXPONENT {
                    -MAX_EXPONENT as int
                } else {
                    e
                },
            ),
            None => None,
        }
    } else {
        None
    }
}

/// The number `d * 10^exponent`, in units rounded up, as the shortest decimal for the
/// double that it stands for. Where double precision rounds it to infinity or to
/// zero, so does this.
#[verifier::opaque]
pub open spec fn measured(d: nat, exponent: int) -> RateView {
    if range::overflows(d, exponent) {
        RateView::Infinite
    } else if range::vanishes(d, exponent) {
        RateView::Finite(0)
    } else {
        RateView::Finite(clamped_units(double::canonical(scaled(d, 18 + exponent))))
    }
}

/// The number of the other sign.
pub open spec fn opposite(rate: RateView) -> RateView {
    match rate {
        RateView::Finite(units) => RateView::Finite(-units),
        RateView::Infinite => RateView::NegativeInfinite,
        RateView::NegativeInfinite => RateView::Infinite,
        RateView::NotANumber => RateView::NotANumber,
    }
}

/// The number that `s` stands for: digits with at most one point among or around
/// them, then an optional exponent.
pub open spec fn unsigned_rate(s: Seq<char>) -> Option<RateView> {
    let whole = leading_digits(s);
    let point = whole < s.len() && s[whole as int] == '.';
    let places = if point {
        leading_digits(s.skip((whole + 1) as int))
    } else {
        0
    };
    let end = if point {
        whole + 1 + places
    } else {
        whole
    };
    let digits = s.take(whole as int) + (if point {
        s.subrange((whole + 1) as int, end as int)
    } else {
        seq![]
    });
    if digits.len() == 0 {
        None
    } else {
        match exponent_of(s.skip(end as int)) {
            Some(e) => Some(measured(digits_value(digits), e - places)),
            None => None,
        }
    }
}

/// The number that `s` stands for.
pub open spec fn rate_of(s: Seq<char>) -> Option<RateView> {
    let negative = s.len() > 0 && s[0] == '-';
    let unsigned = if negative || (s.len() > 0 && s[0] == '+') {
        s.skip(1)
    } else {
        s
    };
    if spells(unsigned, "nan"@) {
        Some(RateView::NotANumber)
    } else if spells(unsigned, "inf"@) || spells(unsigned, "infinity"@) {
        Some(
            if negative {
                RateView::NegativeInfinite
            } else {
                RateView::Infinite
            },
        )
    } else {
        match unsigned_rate(unsigned) {
            Some(rate) => Some(
                if negative {
                    opposite(rate)
                } else {
                    rate
                },
            ),
            None => None,
        }
    }
}

fn is_spelled(s: &Vec<char>, from: usize, word: &str) -> (result: bool)
    requires
        from <= s@.len(),
    ensures
        result == spells(s@.skip(from as int), word@),
{
    let letters: Vec<char> = text::chars_of(word);
    if s.len() - from != letters.len() {
        return false;
    }
    let ghost part = s@.skip(from as int);
    let mut i: usize = 0;
    while i < letters.len()
        invariant
            i <= letters@.len(),
            letters@ == word@,
            from + letters.len() == s.len(),
            part == s@.skip(from as int),
            forall|j: int| 0 <= j < i ==> small(#[trigger] part[j]) == word@[j],
        decreases letters@.len() - i,
    {
        let c: char = s[from + i];
        assert(part[i as int] == c);
        let lowered: char = if 'A' <= c && c <= 'Z' {
            ((c as u8) + 32) as char
        } else {
            c
        };
        assert(lowered == small(c));
        if lowered != letters[i] {
            return false;
        }
        i += 1;
    }
    true
}

/// `digits * 10^shift` rounded up to an integer and capped.
fn scaled_digits(digits: &Vec<char>, shift: i128) -> (result: u128)
    requires
        -0x2_0000_0000_0000_0000 <= shift <= 2 * MAX_EXPONENT,
    ensures
        result == scaled(digits_value(digits@), shift as int),
        result <= MAX_UNITS,
{
    let cap: u128 = MAX_UNITS as u128;
    let size: usize = digits.len();
    let ghost d = digits_value(digits@);
    assert(digits@.subrange(0, size as int) =~= digits@);
    if shift >= 0 {
        let mut value: u128 = capped_value(digits, 0, size, cap);
        let mut done: i128 = 0;
        assert(d * 1 == d) by (nonlinear_arith);
        while done < shift
            invariant
                0 <= done <= shift,
                cap == MAX_UNITS,
                value == least((d * pow10(done as nat)) as int, cap as int),
            decreases shift - done,
        {
            let p = Ghost(pow10(done as nat));
            assert(d * (10 * p@) == 10 * (d * p@)) by (nonlinear_arith);
            assert(pow10((done + 1) as nat) == 10 * p@);
            value = if value * 10 <= cap {
                value * 10
            } else {
                cap
            };
            done += 1;
        }
        value
    } else {
        let dropped: i128 = -shift;
        let ghost divisor = pow10(dropped as nat);
        proof {
            lemma_pow10_positive(dropped as nat);
        }
        if dropped > size as i128 {
            let some: bool = has_nonzero(digits, 0, size);
            proof {
                lemma_digits_value_bound(digits@);
                lemma_pow10_add(size as nat, (dropped - size) as nat);
                lemma_pow10_positive((dropped - size) as nat);
                lemma_pow10_positive(size as nat);
                let a = pow10(size as nat);
                let b = pow10((dropped - size) as nat);
                assert(a <= a * b) by (nonlinear_arith)
                    requires
                        a >= 1,
                        b >= 1,
                ;
                assert(d < divisor);
                vstd::arithmetic::div_mod::lemma_basic_div(d as int, divisor as int);
                vstd::arithmetic::div_mod::lemma_small_mod(d, divisor);
            }
            if some {
                1
            } else {
                0
            }
        } else {
            let kept: usize = size - dropped as usize;
            let value: u128 = capped_value(digits, 0, kept, cap);
            let some: bool = has_nonzero(digits, kept, size);
            proof {
                lemma_digits_value_split(digits@, kept as int);
                lemma_digits_value_bound(digits@.skip(kept as int));
                let high = digits_value(digits@.take(kept as int));
                let low = digits_value(digits@.skip(kept as int));
                assert(digits@.take(kept as int) =~= digits@.subrange(0, kept as int));
                assert(digits@.skip(kept as int) =~= digits@.subrange(kept as int, size as int));
                assert(d == high * divisor + low);
                vstd::arithmetic::div_mod::lemma_fundamental_div_mod_converse(
                    d as int,
                    divisor as int,
                    high as int,
                    low as int,
                );
            }
            if some && value < cap {
                value + 1
            } else {
                value
            }
        }
    }
}

/// `digits * 10^exponent` as a number.
fn measured_digits(digits: &Vec<char>, exponent: i128) -> (result: Rate)
    requires
        -0x1_ffff_ffff_ffff_ff00 <= exponent <= MAX_EXPONENT,
    ensures
        result@ == measured(digits_value(digits@), exponent as int),
{
    reveal(measured);
    proof {
        double::lemma_nothing_is_shortest();
    }
    let ghost d = digits_value(digits@);
    let units: u128 = scaled_digits(digits, 18 + exponent);
    if units == MAX_UNITS as u128 && range::is_too_large(digits, exponent) {
        return Rate::Infinite;
    }
    proof {
        if range::overflows(d, exponent as int) {
            range::lemma_overflow_is_capped(d, exponent as int);
        }
    }
    if exponent < -18 && units <= 1 {
        if range::is_too_small(digits, exponent) {
            return Rate::Finite(Decimal::from_units(0));
        }
    } else {
        proof {
            if d > 0 {
                if exponent < -18 {
                    let divisor = pow10((-18 - exponent) as nat);
                    lemma_pow10_positive((-18 - exponent) as nat);
                    assert(d >= divisor) by {
                        if d < divisor {
                            vstd::arithmetic::div_mod::lemma_basic_div(d as int, divisor as int);
                        }
                    }
                }
                range::lemma_units_stay(d, exponent as int);
            } else if exponent >= -18 {
                assert(0 * pow10((18 + exponent) as nat) == 0) by (nonlinear_arith);
            } else {
                lemma_pow10_positive((-18 - exponent) as nat);
                vstd::arithmetic::div_mod::lemma_small_mod(0, pow10((-18 - exponent) as nat));
                vstd::arithmetic::div_mod::lemma_basic_div(
                    0,
                    pow10((-18 - exponent) as nat) as int,
                );
            }
        }
    }
    Rate::Finite(Decimal::from_units(double::to_canonical(units as i128)))
}

fn parse_exponent(s: &Vec<char>, from: usize) -> (result: Option<i128>)
    requires
        from <= s@.len(),
    ensures
        match exponent_of(s@.skip(from as int)) {
            Some(e) => result == Some(e as i128) && -MAX_EXPONENT <= e <= MAX_EXPONENT,
            None => result is None,
        },
{
    let ghost tail = s@.skip(from as int);
    if from == s.len() {
        return Some(0);
    }
    assert(tail[0] == s@[from as int]);
    if s[from] != 'e' && s[from] != 'E' {
        return None;
    }
    let ghost number = tail.skip(1);
    assert(number =~= s@.skip(from + 1));
    let signed: bool = from + 1 < s.len() && (s[from + 1] == '+' || s[from + 1] == '-');
    let start: usize = if signed {
        from + 2
    } else {
        from + 1
    };
    let ghost unsigned = s@.skip(start as int);
    assert(signed ==> number.skip(1) =~= unsigned && number[0] == s@[from + 1]);
    assert(!signed ==> number =~= unsigned);
    assert(number.len() > 0 ==> number[0] == s@[from + 1]);
    let count: usize = count_digits(s, start);
    if count == 0 || count != s.len() - start {
        return None;
    }
    assert(s@.subrange(start as int, s@.len() as int) =~= unsigned);
    let size: u128 = capped_value(s, start, s.len(), MAX_EXPONENT as u128);
    if s[from + 1] == '-' {
        Some(-(size as i128))
    } else {
        Some(size as i128)
    }
}

/// The characters from `from` up to `to`.
fn part(s: &Vec<char>, from: usize, to: usize) -> (result: Vec<char>)
    requires
        from <= to <= s@.len(),
    ensures
        result@ == s@.subrange(from as int, to as int),
{
    let mut result: Vec<char> = Vec::new();
    let mut i: usize = from;
    while i < to
        invariant
            from <= i <= to <= s@.len(),
            result@ == s@.subrange(from as int, i as int),
        decreases to - i,
    {
        result.push(s[i]);
        i += 1;
    }
    result
}

fn parse_unsigned(s: &Vec<char>, start: usize) -> (result: Option<Rate>)
    requires
        start <= s@.len(),
    ensures
        match unsigned_rate(s@.skip(start as int)) {
            Some(rate) => result is Some && result->0@ == rate,
            None => result is None,
        },
{
    let ghost unsigned = s@.skip(start as int);
    let size: usize = s.len();
    let whole: usize = count_digits(s, start);
    let after: usize = start + whole;
    let point: bool = after < size && s[after] == '.';
    assert(after < s@.len() ==> unsigned[whole as int] == s@[after as int]);
    let mut digits: Vec<char> = part(s, start, after);
    assert(digits@ =~= unsigned.take(whole as int));
    let ghost head = digits@;
    let mut places: usize = 0;
    let mut end: usize = after;
    if point {
        assert(unsigned.skip(whole + 1) =~= s@.skip(after + 1));
        places = count_digits(s, after + 1);
        end = after + 1 + places;
        let mut tail: Vec<char> = part(s, after + 1, end);
        assert(tail@ =~= unsigned.subrange(whole + 1, whole + 1 + places));
        digits.append(&mut tail);
    } else {
        assert(head =~= head + Seq::<char>::empty());
    }
    if digits.len() == 0 {
        return None;
    }
    assert(unsigned.skip(end - start) =~= s@.skip(end as int));
    match parse_exponent(s, end) {
        None => None,
        Some(e) => Some(measured_digits(&digits, e - places as i128)),
    }
}

fn negated(rate: Rate) -> (result: Rate)
    ensures
        result@ == opposite(rate@),
{
    match rate {
        Rate::Finite(value) => Rate::Finite(Decimal::from_units(-value.units())),
        Rate::Infinite => Rate::NegativeInfinite,
        Rate::NegativeInfinite => Rate::Infinite,
        Rate::NotANumber => Rate::NotANumber,
    }
}

/// Reads a number: digits with a point and an exponent, or one of the words
/// for infinity and for no number.
pub fn parse_rate(s: &str) -> (result: Option<Rate>)
    ensures
        match rate_of(s@) {
            Some(rate) => result is Some && result->0@ == rate,
            None => result is None,
        },
{
    let chars: Vec<char> = text::chars_of(s);
    let negative: bool = chars.len() > 0 && chars[0] == '-';
    let signed: bool = negative || (chars.len() > 0 && chars[0] == '+');
    let start: usize = if signed {
        1
    } else {
        0
    };
    let ghost unsigned = s@.skip(start as int);
    assert(!signed ==> unsigned =~= s@);
    if is_spelled(&chars, start, "nan") {
        return Some(Rate::NotANumber);
    }
    if is_spelled(&chars, start, "inf") || is_spelled(&chars, start, "infinity") {
        return if negative {
            Some(Rate::NegativeInfinite)
        } else {
            Some(Rate::Infinite)
        };
    }
    match parse_unsigned(&chars, start) {
        None => None,
        Some(rate) => Some(
            if negative {
                negated(rate)
            } else {
                rate
            },
        ),
    }
}

// ---------------------------------------------------------------------------
// Laws
// ---------------------------------------------------------------------------
proof fn lemma_leading_digits(digits: Seq<char>, rest: Seq<char>)
    requires
        all_digits(digits),
        rest.len() == 0 || !text::digit(rest[0]),
    ensures
        leading_digits(digits + rest) == digits.len(),
    decreases digits.len(),
{
    let s = digits + rest;
    if digits.len() == 0 {
        assert(s =~= rest);
    } else {
        assert(text::digit(digits[0]));
        assert(s[0] == digits[0]);
        assert forall|i: int| 0 <= i < digits.drop_first().len() implies text::digit(
            #[trigger] digits.drop_first()[i],
        ) by {
            assert(digits.drop_first()[i] == digits[i + 1]);
        }
        lemma_leading_digits(digits.drop_first(), rest);
        assert(s.drop_first() =~= digits.drop_first() + rest);
    }
}

/// The digits of a fraction read as an integer, with the zeros that were left
/// out put back.
proof fn lemma_fraction_reads_back(f: nat, places: nat)
    requires
        f < pow10(places),
    ensures
        all_digits(fraction_text(f, places)),
        fraction_text(f, places).len() <= places,
        f > 0 ==> fraction_text(f, places).len() > 0,
        digits_value(fraction_text(f, places)) * pow10(
            (places - fraction_text(f, places).len()) as nat,
        ) == f,
    decreases places,
{
    let t = fraction_text(f, places);
    if f == 0 || places == 0 {
        assert(t =~= seq![]);
        assert(digits_value(t) == 0);
        assert(0 * pow10(places) == 0) by (nonlinear_arith);
    } else {
        let scale = pow10((places - 1) as nat);
        lemma_pow10_positive((places - 1) as nat);
        let d = f / scale;
        let rest = f % scale;
        assert(d < 10 && rest < scale && f == d * scale + rest) by (nonlinear_arith)
            requires
                f < 10 * scale,
                scale >= 1,
                d == f / scale,
                rest == f % scale,
        ;
        lemma_fraction_reads_back(rest, (places - 1) as nat);
        let u = fraction_text(rest, (places - 1) as nat);
        assert(t =~= seq![text::digit_char(d)] + u);
        assert(digit_value(text::digit_char(d)) == d);
        assert forall|i: int| 0 <= i < t.len() implies text::digit(#[trigger] t[i]) by {
            if i > 0 {
                assert(t[i] == u[i - 1]);
            }
        }
        lemma_digits_value_split(t, 1);
        assert(t.take(1) =~= seq![text::digit_char(d)]);
        assert(t.take(1).drop_last() =~= seq![]);
        assert(digits_value(t.take(1).drop_last()) == 0);
        assert(digits_value(t.take(1)) == d);
        assert(t.skip(1) =~= u);
        let k = u.len();
        let pad = pow10((places - 1 - k) as nat);
        lemma_pow10_add(k, (places - 1 - k) as nat);
        assert((d * pow10(k) + digits_value(u)) * pad == d * (pow10(k) * pad) + digits_value(u)
            * pad) by (nonlinear_arith);
    }
}

/// What is written with `places` places is read as it is.
/// A number of so many units that a [`Decimal`] holds them.
proof fn lemma_measured_exactly(d: nat, exponent: int)
    requires
        exponent >= -18,
        d * pow10((18 + exponent) as nat) <= MAX_UNITS,
    ensures
        measured(d, exponent) == RateView::Finite(
            clamped_units(double::canonical((d * pow10((18 + exponent) as nat)) as int)),
        ),
{
    reveal(measured);
    if range::overflows(d, exponent) {
        range::lemma_overflow_is_capped(d, exponent);
    }
    if d > 0 {
        range::lemma_units_stay(d, exponent);
    } else {
        assert(0 * pow10((18 + exponent) as nat) == 0) by (nonlinear_arith);
        double::lemma_nothing_is_shortest();
    }
}

proof fn lemma_fixed_reads_back(negative: bool, n: nat, places: nat)
    requires
        places <= 18,
        n * pow10((18 - places) as nat) <= MAX_UNITS,
    ensures
        rate_of(fixed_text(negative, n, places)) == Some(
            RateView::Finite(
                if negative {
                    -clamped_units(
                        double::canonical((n * pow10((18 - places) as nat)) as int),
                    )
                } else {
                    clamped_units(double::canonical((n * pow10((18 - places) as nat)) as int))
                },
            ),
        ),
        fixed_text(negative, n, places).len() > 0,
        text::digit(fixed_text(negative, n, places).last()),
{
    let scale = pow10(places);
    lemma_pow10_positive(places);
    let q = n / scale;
    let f = n % scale;
    assert(f < scale && n == q * scale + f) by (nonlinear_arith)
        requires
            scale >= 1,
            q == n / scale,
            f == n % scale,
    ;
    let whole = text::radix_text(q, 10);
    text::lemma_radix_text(q, q);
    lemma_radix_reads_back(q);
    let fraction: Seq<char> = if f == 0 {
        seq![]
    } else {
        seq!['.'] + fraction_text(f, places)
    };
    let unsigned = whole + fraction;
    let s = fixed_text(negative, n, places);
    if negative {
        assert(s =~= seq!['-'] + unsigned);
        assert(s.skip(1) =~= unsigned);
    } else {
        assert(s =~= unsigned);
    }
    assert(text::digit(whole[0]));
    assert(unsigned[0] == whole[0]);
    reveal_strlit("nan");
    reveal_strlit("inf");
    reveal_strlit("infinity");
    assert(small(unsigned[0]) == unsigned[0]);
    assert(!spells(unsigned, "nan"@));
    assert(!spells(unsigned, "inf"@));
    assert(!spells(unsigned, "infinity"@));
    lemma_leading_digits(whole, fraction);
    let left = (18 - places) as nat;
    lemma_pow10_add(places, left);
    assert(n * pow10(left) == q * (scale * pow10(left)) + f * pow10(left)) by (nonlinear_arith)
        requires
            n == q * scale + f,
    ;
    if f == 0 {
        assert(unsigned =~= whole);
        assert(unsigned.take(whole.len() as int) + Seq::<char>::empty() =~= whole);
        assert(unsigned.skip(whole.len() as int) =~= seq![]);
        assert(0 * pow10(left) == 0) by (nonlinear_arith);
        lemma_measured_exactly(q, 0);
        assert(unsigned_rate(unsigned) == Some(
            RateView::Finite(clamped_units(double::canonical((n * pow10(left)) as int))),
        ));
    } else {
        lemma_fraction_reads_back(f, places);
        let t = fraction_text(f, places);
        let k = t.len();
        let from = whole.len() + 1;
        assert(unsigned[whole.len() as int] == '.');
        assert(unsigned.skip(from as int) =~= t);
        lemma_leading_digits(t, seq![]);
        assert(t + Seq::<char>::empty() =~= t);
        assert(unsigned.take(whole.len() as int) =~= whole);
        assert(unsigned.subrange(from as int, (from + k) as int) =~= t);
        assert(unsigned.skip((from + k) as int) =~= seq![]);
        let digits = whole + t;
        lemma_digits_value_split(digits, whole.len() as int);
        assert(digits.take(whole.len() as int) =~= whole);
        assert(digits.skip(whole.len() as int) =~= t);
        let v = digits_value(t);
        let rest = pow10((18 - k) as nat);
        lemma_pow10_add(k, (18 - k) as nat);
        lemma_pow10_add((places - k) as nat, left);
        assert((q * pow10(k) + v) * rest == q * (pow10(k) * rest) + v * rest) by (nonlinear_arith);
        assert(v * rest == (v * pow10((places - k) as nat)) * pow10(left)) by (nonlinear_arith)
            requires
                rest == pow10((places - k) as nat) * pow10(left),
        ;
        assert(digits_value(digits) * rest == n * pow10(left));
        lemma_measured_exactly(digits_value(digits), -k);
        assert(unsigned_rate(unsigned) == Some(
            RateView::Finite(clamped_units(double::canonical((n * pow10(left)) as int))),
        ));
        assert(text::digit(t[k - 1]));
        assert(s.last() == t[k - 1]);
    }
    if f == 0 {
        assert(text::digit(whole[whole.len() - 1]));
        assert(s.last() == whole[whole.len() - 1]);
    }
}

/// A decimal in full is read as that decimal, where it is the shortest one for the
/// double that it stands for.
pub proof fn law_written_decimals_read_back(v: int)
    requires
        -MAX_UNITS <= v <= MAX_UNITS,
        double::canonical(v) == v,
    ensures
        rate_of(decimal_text(v)) == Some(RateView::Finite(v)),
{
    let m = magnitude(v);
    assert((18 - 18) as nat == 0nat);
    assert(pow10(0) == 1);
    assert(m * pow10(0) == m) by (nonlinear_arith)
        requires
            pow10(0) == 1,
    ;
    lemma_fixed_reads_back(v < 0, m, 18);
    double::lemma_canonical_error(m as int);
}

/// A number that was read is the shortest decimal of another.
proof fn lemma_read_is_canonical(s: Seq<char>, v: int)
    requires
        rate_of(s) == Some(RateView::Finite(v)),
        0 < magnitude(v) < MAX_UNITS,
    ensures
        exists|x: int|
            0 <= x <= MAX_UNITS && magnitude(v) as int == #[trigger] double::canonical(x),
{
    reveal(measured);
    let negative = s.len() > 0 && s[0] == '-';
    let unsigned = if negative || (s.len() > 0 && s[0] == '+') {
        s.skip(1)
    } else {
        s
    };
    let whole = leading_digits(unsigned);
    let point = whole < unsigned.len() && unsigned[whole as int] == '.';
    let places = if point {
        leading_digits(unsigned.skip((whole + 1) as int))
    } else {
        0
    };
    let end = if point {
        whole + 1 + places
    } else {
        whole
    };
    let digits = unsigned.take(whole as int) + (if point {
        unsigned.subrange((whole + 1) as int, end as int)
    } else {
        seq![]
    });
    let e = exponent_of(unsigned.skip(end as int))->0;
    let x = scaled(digits_value(digits), 18 + (e - places));
    lemma_scaled_range(digits_value(digits), 18 + (e - places));
    double::lemma_canonical_error(x);
    assert(unsigned_rate(unsigned) == Some(measured(digits_value(digits), e - places)));
    assert(magnitude(v) as int == double::canonical(x));
}

proof fn lemma_scaled_range(d: nat, shift: int)
    ensures
        0 <= scaled(d, shift) <= MAX_UNITS,
{
    if shift < 0 {
        lemma_pow10_positive((-shift) as nat);
    }
}

/// A number that was read, if it is not too small, is read again as it was once it has
/// been written in full.
pub proof fn law_read_numbers_read_back(s: Seq<char>, v: int)
    requires
        rate_of(s) == Some(RateView::Finite(v)),
        40_000_000_000_000_000 <= magnitude(v) < MAX_UNITS,
    ensures
        rate_of(decimal_text(v)) == Some(RateView::Finite(v)),
{
    reveal(measured);
    let m = magnitude(v) as int;
    assert(exists|x: int| 0 <= x <= MAX_UNITS && m == #[trigger] double::canonical(x)) by {
        lemma_read_is_canonical(s, v);
    }
    let x = choose|x: int| 0 <= x <= MAX_UNITS && m == #[trigger] double::canonical(x);
    double::lemma_canonical_stands_for(x);
    double::lemma_canonical_error(m);
    law_written_decimals_read_back(v);
}

/// A decimal that was rounded to thousandths is read as one that is off by little
/// more than half a thousandth at most.
pub proof fn law_short_decimals_read_back(v: int)
    requires
        -MAX_UNITS <= v <= MAX_UNITS,
    ensures
        rate_of(short_decimal_text(v)) matches Some(RateView::Finite(w)) && within(
            v,
            w,
            510_000_000_000_000,
        ),
        short_decimal_text(v).len() > 0,
        text::digit(short_decimal_text(v).last()),
{
    let n = double::thousandths(v);
    lemma_fifteen_places();
    assert((18 - 3) as nat == 15nat);
    double::lemma_thousandths_error(v);
    double::lemma_canonical_error((n * pow10(15)) as int);
    lemma_fixed_reads_back(v < 0, n, 3);
}

} // verus!
