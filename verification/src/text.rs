//! Text as sequences of characters: classes, trimming, searching, number
//! rendering, and the escaping of control characters for terminals.
use vstd::prelude::*;

verus! {

/// `std::string::String::push` appends the character to the end of the string.
pub assume_specification[ std::string::String::push ](s: &mut String, ch: char)
    ensures
        final(s)@ == old(s)@.push(ch),
;

// ---------------------------------------------------------------------------
// Character classes
// ---------------------------------------------------------------------------
/// Whether `c` is a control character (general category Cc).
pub open spec fn control(c: char) -> bool {
    c as u32 <= 0x1f || 0x7f <= c as u32 <= 0x9f
}

/// Decides [`control`].
pub fn is_control(c: char) -> (result: bool)
    ensures
        result == control(c),
{
    let code: u32 = c as u32;
    code <= 0x1f || (0x7f <= code && code <= 0x9f)
}

/// Whether `c` has the Unicode property White_Space.
pub open spec fn whitespace(c: char) -> bool {
    let code = c as u32;
    ||| 0x09 <= code <= 0x0d
    ||| code == 0x20
    ||| code == 0x85
    ||| code == 0xa0
    ||| code == 0x1680
    ||| 0x2000 <= code <= 0x200a
    ||| code == 0x2028
    ||| code == 0x2029
    ||| code == 0x202f
    ||| code == 0x205f
    ||| code == 0x3000
}

/// Decides [`whitespace`].
pub fn is_whitespace(c: char) -> (result: bool)
    ensures
        result == whitespace(c),
{
    let code: u32 = c as u32;
    (0x09 <= code && code <= 0x0d) || code == 0x20 || code == 0x85 || code == 0xa0 || code == 0x1680
        || (0x2000 <= code && code <= 0x200a) || code == 0x2028 || code == 0x2029 || code == 0x202f
        || code == 0x205f || code == 0x3000
}

/// Whether `c` is one of the ten ASCII digits.
pub open spec fn digit(c: char) -> bool {
    '0' <= c <= '9'
}

/// Whether some character of `s` is a control character.
pub open spec fn has_control(s: Seq<char>) -> bool {
    exists|i: int| 0 <= i < s.len() && control(#[trigger] s[i])
}

// ---------------------------------------------------------------------------
// Characters of a string
// ---------------------------------------------------------------------------
/// The characters of `s`.
pub fn chars_of(s: &str) -> (result: Vec<char>)
    ensures
        result@ == s@,
{
    let mut result: Vec<char> = Vec::new();
    for c in it: s.chars()
        invariant
            result@ == s@.subrange(0, it.index()),
            it.seq() == s@,
    {
        result.push(c);
    }
    assert(s@.subrange(0, s@.len() as int) =~= s@);
    result
}

/// The string made of `s`.
pub fn string_of(s: &Vec<char>) -> (result: String)
    ensures
        result@ == s@,
{
    let mut result = String::new();
    let mut i: usize = 0;
    while i < s.len()
        invariant
            i <= s.len(),
            result@ == s@.subrange(0, i as int),
        decreases s.len() - i,
    {
        result.push(s[i]);
        i += 1;
    }
    assert(s@.subrange(0, s@.len() as int) =~= s@);
    result
}

/// Whether two strings hold the same characters.
pub fn same(a: &str, b: &str) -> (result: bool)
    ensures
        result == (a@ == b@),
{
    let a_chars: Vec<char> = chars_of(a);
    let b_chars: Vec<char> = chars_of(b);
    if a_chars.len() != b_chars.len() {
        return false;
    }
    let mut i: usize = 0;
    while i < a_chars.len()
        invariant
            i <= a_chars.len(),
            a_chars.len() == b_chars.len(),
            forall|j: int| 0 <= j < i ==> a_chars@[j] == b_chars@[j],
            a_chars@ == a@,
            b_chars@ == b@,
        decreases a_chars.len() - i,
    {
        if a_chars[i] != b_chars[i] {
            assert(a@[i as int] != b@[i as int]);
            return false;
        }
        i += 1;
    }
    assert(a@ =~= b@);
    true
}

/// Whether some character of `s` is a control character.
pub fn contains_control(s: &str) -> (result: bool)
    ensures
        result == has_control(s@),
{
    let chars: Vec<char> = chars_of(s);
    let mut i: usize = 0;
    while i < chars.len()
        invariant
            i <= chars.len(),
            chars@ == s@,
            forall|j: int| 0 <= j < i ==> !control(#[trigger] s@[j]),
        decreases chars.len() - i,
    {
        if is_control(chars[i]) {
            assert(control(s@[i as int]));
            return true;
        }
        i += 1;
    }
    false
}

/// Whether `s` holds the character `c`.
pub fn contains_char(s: &str, c: char) -> (result: bool)
    ensures
        result == s@.contains(c),
{
    let chars: Vec<char> = chars_of(s);
    let mut i: usize = 0;
    while i < chars.len()
        invariant
            i <= chars.len(),
            chars@ == s@,
            forall|j: int| 0 <= j < i ==> s@[j] != c,
        decreases chars.len() - i,
    {
        if chars[i] == c {
            assert(s@[i as int] == c);
            return true;
        }
        i += 1;
    }
    false
}

/// The number of bytes of `s` in UTF-8.
pub open spec fn byte_len(s: Seq<char>) -> nat {
    vstd::utf8::encode_utf8(s).len()
}

/// The number of bytes of `s` in UTF-8.
pub fn bytes_in(s: &str) -> (result: usize)
    ensures
        result == byte_len(s@),
{
    let bytes: &[u8] = s.as_bytes();
    bytes.len()
}

// ---------------------------------------------------------------------------
// Prefixes, suffixes, splitting
// ---------------------------------------------------------------------------
/// `s` begins with `prefix`.
pub open spec fn begins(s: Seq<char>, prefix: Seq<char>) -> bool {
    s.len() >= prefix.len() && s.take(prefix.len() as int) == prefix
}

/// `s` ends with `suffix`.
pub open spec fn ends(s: Seq<char>, suffix: Seq<char>) -> bool {
    s.len() >= suffix.len() && s.skip(s.len() - suffix.len()) == suffix
}

/// Some part of `s` is `part`.
pub open spec fn holds(s: Seq<char>, part: Seq<char>) -> bool {
    exists|i: int| 0 <= i <= s.len() - part.len() && #[trigger] s.subrange(i, i + part.len()) == part
}

/// Decides whether `part` stands at position `at` of `s`.
pub fn stands_at(s: &Vec<char>, part: &Vec<char>, at: usize) -> (result: bool)
    requires
        at + part@.len() <= s@.len(),
    ensures
        result == (s@.subrange(at as int, at + part@.len()) == part@),
{
    let mut i: usize = 0;
    while i < part.len()
        invariant
            i <= part.len(),
            at + part.len() <= s.len(),
            forall|j: int| 0 <= j < i ==> s@[at + j] == #[trigger] part@[j],
        decreases part.len() - i,
    {
        if s[at + i] != part[i] {
            assert(s@.subrange(at as int, at + part@.len())[i as int] != part@[i as int]);
            return false;
        }
        i += 1;
    }
    assert(s@.subrange(at as int, at + part@.len()) =~= part@);
    true
}

/// Decides [`begins`].
pub fn starts_with(s: &str, prefix: &str) -> (result: bool)
    ensures
        result == begins(s@, prefix@),
{
    let chars: Vec<char> = chars_of(s);
    let part: Vec<char> = chars_of(prefix);
    if chars.len() < part.len() {
        return false;
    }
    assert(s@.take(prefix@.len() as int) == s@.subrange(0, prefix@.len() as int));
    stands_at(&chars, &part, 0)
}

/// Decides [`ends`].
pub fn ends_with(s: &str, suffix: &str) -> (result: bool)
    ensures
        result == ends(s@, suffix@),
{
    let chars: Vec<char> = chars_of(s);
    let part: Vec<char> = chars_of(suffix);
    if chars.len() < part.len() {
        return false;
    }
    let at: usize = chars.len() - part.len();
    assert(s@.skip(at as int) == s@.subrange(at as int, at + part@.len()));
    stands_at(&chars, &part, at)
}

/// Decides [`holds`].
pub fn contains_text(s: &str, part: &str) -> (result: bool)
    ensures
        result == holds(s@, part@),
{
    let chars: Vec<char> = chars_of(s);
    let piece: Vec<char> = chars_of(part);
    if chars.len() < piece.len() {
        return false;
    }
    let last: usize = chars.len() - piece.len();
    let mut i: usize = 0;
    while i <= last
        invariant
            chars@ == s@,
            piece@ == part@,
            last == chars@.len() - piece@.len(),
            i <= last + 1,
            forall|j: int|
                0 <= j < i ==> #[trigger] s@.subrange(j, j + part@.len()) != part@,
        decreases last + 1 - i,
    {
        if stands_at(&chars, &piece, i) {
            assert(s@.subrange(i as int, i + part@.len()) == part@);
            return true;
        }
        if i == last {
            return false;
        }
        i += 1;
    }
    false
}

/// The position of the first `c` in `s`.
pub open spec fn first_of(s: Seq<char>, c: char) -> Option<int>
    decreases s.len(),
{
    if s.len() == 0 {
        None
    } else if s[0] == c {
        Some(0)
    } else {
        match first_of(s.drop_first(), c) {
            Some(i) => Some(i + 1),
            None => None,
        }
    }
}

/// [`first_of`] is the least position that holds `c`.
pub proof fn lemma_first_of(s: Seq<char>, c: char)
    ensures
        match first_of(s, c) {
            Some(i) => 0 <= i < s.len() && s[i] == c && forall|j: int|
                0 <= j < i ==> #[trigger] s[j] != c,
            None => forall|j: int| 0 <= j < s.len() ==> #[trigger] s[j] != c,
        },
    decreases s.len(),
{
    if s.len() > 0 && s[0] != c {
        let rest = s.drop_first();
        lemma_first_of(rest, c);
        assert forall|j: int| 1 <= j < s.len() implies #[trigger] s[j] == rest[j - 1] by {}
        match first_of(rest, c) {
            Some(i) => {
                assert forall|j: int| 0 <= j < i + 1 implies #[trigger] s[j] != c by {
                    if j > 0 {
                        assert(rest[j - 1] != c);
                    }
                }
            },
            None => {
                assert forall|j: int| 0 <= j < s.len() implies #[trigger] s[j] != c by {
                    if j > 0 {
                        assert(rest[j - 1] != c);
                    }
                }
            },
        }
    }
}

/// `s` split around its first `c`.
pub open spec fn split_at_first(s: Seq<char>, c: char) -> Option<(Seq<char>, Seq<char>)> {
    match first_of(s, c) {
        Some(i) => Some((s.take(i), s.skip(i + 1))),
        None => None,
    }
}

/// Two texts with `c` between them are split into these two, where the first
/// holds no `c`.
pub proof fn law_split_at_first(before: Seq<char>, c: char, after: Seq<char>)
    requires
        !before.contains(c),
    ensures
        split_at_first(before + seq![c] + after, c) == Some((before, after)),
{
    let s = before + seq![c] + after;
    let at = before.len() as int;
    lemma_first_of(s, c);
    assert(s[at] == c);
    assert forall|i: int| 0 <= i < at implies s[i] != c by {
        assert(s[i] == before[i]);
    }
    assert(s.take(at) =~= before);
    assert(s.skip(at + 1) =~= after);
}

/// Splits `s` around its first `c`.
pub fn split_once<'a>(s: &'a str, c: char) -> (result: Option<(&'a str, &'a str)>)
    ensures
        match (split_at_first(s@, c), result) {
            (Some((before, after)), Some((left, right))) => left@ == before && right@ == after,
            (None, None) => true,
            _ => false,
        },
{
    let chars: Vec<char> = chars_of(s);
    proof {
        lemma_first_of(s@, c);
    }
    let mut i: usize = 0;
    while i < chars.len()
        invariant
            i <= chars.len(),
            chars@ == s@,
            forall|j: int| 0 <= j < i ==> s@[j] != c,
        decreases chars.len() - i,
    {
        if chars[i] == c {
            proof {
                lemma_first_of(s@, c);
                assert(s@.take(i as int) == s@.subrange(0, i as int));
                assert(s@.skip(i + 1) == s@.subrange(i + 1, s@.len() as int));
            }
            return Some((s.substring_char(0, i), s.substring_char(i + 1, chars.len())));
        }
        i += 1;
    }
    proof {
        lemma_first_of(s@, c);
    }
    None
}

/// `s` without `suffix` at its end, where it stands there.
pub open spec fn without_suffix(s: Seq<char>, suffix: Seq<char>) -> Seq<char> {
    if ends(s, suffix) {
        s.take(s.len() - suffix.len())
    } else {
        s
    }
}

/// Takes `suffix` off the end of `s`.
pub fn strip_suffix<'a>(s: &'a str, suffix: &str) -> (result: &'a str)
    ensures
        result@ == without_suffix(s@, suffix@),
{
    if ends_with(s, suffix) {
        let size: usize = s.unicode_len();
        let cut: usize = suffix.unicode_len();
        assert(s@.take(size - cut) == s@.subrange(0, size - cut));
        s.substring_char(0, size - cut)
    } else {
        s
    }
}

// ---------------------------------------------------------------------------
// Trimming
// ---------------------------------------------------------------------------
/// `s` without the whitespace in front.
pub open spec fn trim_front(s: Seq<char>) -> Seq<char>
    decreases s.len(),
{
    if s.len() > 0 && whitespace(s[0]) {
        trim_front(s.drop_first())
    } else {
        s
    }
}

/// `s` without the whitespace at its end.
pub open spec fn trim_back(s: Seq<char>) -> Seq<char>
    decreases s.len(),
{
    if s.len() > 0 && whitespace(s.last()) {
        trim_back(s.drop_last())
    } else {
        s
    }
}

/// `s` without surrounding whitespace.
pub open spec fn trimmed(s: Seq<char>) -> Seq<char> {
    trim_back(trim_front(s))
}

proof fn lemma_trim_len(s: Seq<char>)
    ensures
        trim_front(s).len() <= s.len(),
        trim_back(s).len() <= s.len(),
        trim_front(s).len() == s.len() ==> trim_front(s) == s,
        trim_back(s).len() == s.len() ==> trim_back(s) == s,
        s.len() > 0 && whitespace(s[0]) ==> trim_front(s).len() < s.len(),
        s.len() > 0 && whitespace(s.last()) ==> trim_back(s).len() < s.len(),
    decreases s.len(),
{
    if s.len() > 0 {
        lemma_trim_len(s.drop_first());
        lemma_trim_len(s.drop_last());
    }
}

/// A text is its own trimmed form exactly when neither end is whitespace.
pub proof fn lemma_is_trimmed(s: Seq<char>)
    ensures
        (trimmed(s) == s) == (s.len() == 0 || (!whitespace(s[0]) && !whitespace(s.last()))),
{
    lemma_trim_len(s);
    lemma_trim_len(trim_front(s));
}

/// `s` without surrounding whitespace.
pub fn trim<'a>(s: &'a str) -> (result: &'a str)
    ensures
        result@ == trimmed(s@),
{
    let chars: Vec<char> = chars_of(s);
    let mut start: usize = 0;
    assert(s@.subrange(0, s@.len() as int) =~= s@);
    while start < chars.len() && is_whitespace(chars[start])
        invariant
            start <= chars.len(),
            chars@ == s@,
            trim_front(s@) == trim_front(s@.subrange(start as int, s@.len() as int)),
        decreases chars.len() - start,
    {
        assert(s@.subrange(start as int, s@.len() as int).drop_first() =~= s@.subrange(
            start + 1,
            s@.len() as int,
        ));
        start += 1;
    }
    let ghost front = s@.subrange(start as int, s@.len() as int);
    assert(trim_front(s@) == front);
    let mut end: usize = chars.len();
    assert(s@.subrange(start as int, end as int) =~= front);
    while start < end && is_whitespace(chars[end - 1])
        invariant
            start <= end <= chars.len(),
            chars@ == s@,
            trim_back(front) == trim_back(s@.subrange(start as int, end as int)),
        decreases end,
    {
        assert(s@.subrange(start as int, end as int).drop_last() =~= s@.subrange(
            start as int,
            end - 1,
        ));
        assert(s@.subrange(start as int, end as int).last() == s@[end - 1]);
        end -= 1;
    }
    assert(start < end ==> s@.subrange(start as int, end as int).last() == s@[end - 1]);
    s.substring_char(start, end)
}

/// Whether `s` is its own trimmed form.
pub fn is_trimmed(s: &str) -> (result: bool)
    ensures
        result == (trimmed(s@) == s@),
{
    let chars: Vec<char> = chars_of(s);
    proof {
        lemma_is_trimmed(s@);
    }
    chars.len() == 0 || (!is_whitespace(chars[0]) && !is_whitespace(chars[chars.len() - 1]))
}

// ---------------------------------------------------------------------------
// Order
// ---------------------------------------------------------------------------
/// `a` stands before `b` in the order of code points.
pub open spec fn precedes(a: Seq<char>, b: Seq<char>) -> bool
    decreases a.len(),
{
    if b.len() == 0 {
        false
    } else if a.len() == 0 {
        true
    } else if a[0] == b[0] {
        precedes(a.drop_first(), b.drop_first())
    } else {
        a[0] < b[0]
    }
}

proof fn lemma_precedes_irreflexive(a: Seq<char>)
    ensures
        !precedes(a, a),
    decreases a.len(),
{
    if a.len() > 0 {
        lemma_precedes_irreflexive(a.drop_first());
    }
}

/// [`precedes`] is a strict total order.
pub proof fn lemma_precedes_order(a: Seq<char>, b: Seq<char>, c: Seq<char>)
    ensures
        !precedes(a, a),
        precedes(a, b) ==> !precedes(b, a),
        precedes(a, b) && precedes(b, c) ==> precedes(a, c),
        precedes(a, b) || precedes(b, a) || a == b,
    decreases a.len() + b.len() + c.len(),
{
    lemma_precedes_irreflexive(a);
    if a.len() > 0 {
        if b.len() > 0 {
            let c_rest = if c.len() > 0 { c.drop_first() } else { c };
            lemma_precedes_order(a.drop_first(), b.drop_first(), c_rest);
            if a[0] == b[0] && a.drop_first() == b.drop_first() {
                assert(a =~= seq![a[0]] + a.drop_first());
                assert(b =~= seq![b[0]] + b.drop_first());
            }
        }
    } else if b.len() == 0 {
        assert(a =~= b);
    }
}

/// Decides [`precedes`].
pub fn comes_before(a: &str, b: &str) -> (result: bool)
    ensures
        result == precedes(a@, b@),
{
    let left: Vec<char> = chars_of(a);
    let right: Vec<char> = chars_of(b);
    let mut i: usize = 0;
    assert(a@.skip(0) =~= a@);
    assert(b@.skip(0) =~= b@);
    while i < left.len() && i < right.len()
        invariant
            i <= left.len(),
            i <= right.len(),
            left@ == a@,
            right@ == b@,
            precedes(a@, b@) == precedes(a@.skip(i as int), b@.skip(i as int)),
        decreases left.len() - i,
    {
        if left[i] != right[i] {
            return left[i] < right[i];
        }
        assert(a@.skip(i as int).drop_first() =~= a@.skip(i + 1));
        assert(b@.skip(i as int).drop_first() =~= b@.skip(i + 1));
        i += 1;
    }
    i < right.len()
}

// ---------------------------------------------------------------------------
// Numbers
// ---------------------------------------------------------------------------
/// The character that stands for the digit `d`.
pub open spec fn digit_char(d: nat) -> char {
    if d < 10 {
        ('0' as u32 + d) as char
    } else {
        ('a' as u32 + (d - 10)) as char
    }
}

pub proof fn lemma_quotient_shrinks(n: nat, base: nat)
    by (nonlinear_arith)
    requires
        2 <= base <= n,
    ensures
        n / base < n,
{
}

/// `n` written in base `base`, without leading zeros.
pub open spec fn radix_text(n: nat, base: nat) -> Seq<char>
    decreases n,
{
    if base < 2 || n < base {
        seq![digit_char(n)]
    } else {
        proof {
            lemma_quotient_shrinks(n, base);
        }
        radix_text(n / base, base).push(digit_char(n % base))
    }
}

/// `n` in decimal, with a sign where it is negative.
pub open spec fn int_text(n: int) -> Seq<char> {
    if n < 0 {
        seq!['-'] + radix_text((-n) as nat, 10)
    } else {
        radix_text(n as nat, 10)
    }
}

fn digit_of(d: u8) -> (result: char)
    requires
        d < 16,
    ensures
        result == digit_char(d as nat),
{
    if d < 10 {
        (0x30 + d) as char
    } else {
        (0x61 + (d - 10)) as char
    }
}

/// `n` in base `base`.
pub fn radix(n: u128, base: u8) -> (result: String)
    requires
        2 <= base <= 16,
    ensures
        result@ == radix_text(n as nat, base as nat),
    decreases n,
{
    if n < base as u128 {
        let mut result = String::new();
        result.push(digit_of(n as u8));
        assert(result@ =~= seq![digit_char(n as nat)]);
        result
    } else {
        proof {
            lemma_quotient_shrinks(n as nat, base as nat);
        }
        let mut result: String = radix(n / base as u128, base);
        let d: u128 = n % base as u128;
        result.push(digit_of(d as u8));
        result
    }
}

/// `n` in decimal.
pub fn decimal(n: i128) -> (result: String)
    ensures
        result@ == int_text(n as int),
{
    if n < 0 {
        let magnitude: u128 = (-(n + 1)) as u128 + 1;
        let digits: String = radix(magnitude, 10);
        let mut result = String::new();
        result.push('-');
        assert(result@ =~= seq!['-']);
        result.concat(digits.as_str())
    } else {
        radix(n as u128, 10)
    }
}

proof fn lemma_digit_char(d: nat, e: nat)
    requires
        d < 10,
        e < 10,
    ensures
        digit(digit_char(d)),
        digit_char(d) == digit_char(e) ==> d == e,
        digit_char(d) == '0' ==> d == 0,
{
}

/// A number in decimal consists of digits, and no two numbers share one text.
pub proof fn lemma_radix_text(n: nat, m: nat)
    ensures
        radix_text(n, 10).len() > 0,
        forall|i: int| 0 <= i < radix_text(n, 10).len() ==> digit(#[trigger] radix_text(n, 10)[i]),
        radix_text(n, 10) == radix_text(m, 10) ==> n == m,
    decreases n,
{
    lemma_digit_char(n % 10, m % 10);
    if n < 10 {
        assert(n % 10 == n);
        if m >= 10 {
            lemma_radix_text_len(m / 10);
            assert(radix_text(m, 10).len() == radix_text(m / 10, 10).len() + 1);
            assert(radix_text(n, 10).len() == 1);
        } else {
            assert(radix_text(n, 10)[0] == digit_char(n));
            assert(radix_text(m, 10)[0] == digit_char(m));
        }
    } else {
        lemma_radix_text(n / 10, m / 10);
        let text = radix_text(n, 10);
        assert(text == radix_text(n / 10, 10).push(digit_char(n % 10)));
        assert forall|i: int| 0 <= i < text.len() implies digit(#[trigger] text[i]) by {
            if i < text.len() - 1 {
                assert(text[i] == radix_text(n / 10, 10)[i]);
            }
        }
        if text == radix_text(m, 10) {
            if m < 10 {
                assert(radix_text(m, 10).len() == 1);
                lemma_radix_text_len(n / 10);
            } else {
                assert(text.drop_last() =~= radix_text(n / 10, 10));
                assert(radix_text(m, 10).drop_last() =~= radix_text(m / 10, 10));
                assert(text.last() == digit_char(n % 10));
                assert(radix_text(m, 10).last() == digit_char(m % 10));
                assert(n / 10 == m / 10 && n % 10 == m % 10);
            }
        }
    }
}

proof fn lemma_radix_text_len(n: nat)
    ensures
        radix_text(n, 10).len() > 0,
    decreases n,
{
    if n >= 10 {
        lemma_radix_text_len(n / 10);
    }
}

// ---------------------------------------------------------------------------
// Joining
// ---------------------------------------------------------------------------
/// `parts` with `separator` between them.
pub open spec fn joined(parts: Seq<Seq<char>>, separator: Seq<char>) -> Seq<char>
    decreases parts.len(),
{
    if parts.len() == 0 {
        seq![]
    } else if parts.len() == 1 {
        parts[0]
    } else {
        joined(parts.drop_last(), separator) + separator + parts.last()
    }
}

/// The views of strings.
pub open spec fn texts(parts: Seq<String>) -> Seq<Seq<char>> {
    parts.map_values(|part: String| part@)
}

/// Joins `parts`.
pub fn join(parts: &Vec<String>, separator: &str) -> (result: String)
    ensures
        result@ == joined(texts(parts@), separator@),
{
    let mut result = String::new();
    let mut i: usize = 0;
    while i < parts.len()
        invariant
            i <= parts.len(),
            result@ == joined(texts(parts@).take(i as int), separator@),
        decreases parts.len() - i,
    {
        let ghost before = texts(parts@).take(i as int);
        let ghost after = texts(parts@).take(i + 1);
        assert(after.drop_last() =~= before);
        assert(after.last() == parts@[i as int]@);
        if i > 0 {
            result.append(separator);
        } else {
            assert(after =~= seq![parts@[0]@]);
        }
        let ghost so_far = result@;
        result.append(parts[i].as_str());
        if i == 0 {
            assert(result@ =~= parts@[0]@);
        }
        i += 1;
    }
    assert(texts(parts@).take(parts@.len() as int) =~= texts(parts@));
    result
}

// ---------------------------------------------------------------------------
// Terminal output
// ---------------------------------------------------------------------------
/// Whether a character reaches the terminal as it is: layout characters only
/// where `layout` allows them, other control characters never.
pub open spec fn printable(c: char, layout: bool) -> bool {
    !control(c) || (layout && (c == '\n' || c == '\t'))
}

/// How `c` is shown: itself, or its code point spelled out.
pub open spec fn shown(c: char, layout: bool) -> Seq<char> {
    if printable(c, layout) {
        seq![c]
    } else {
        "\\u{"@ + radix_text(c as u32 as nat, 16) + "}"@
    }
}

/// `s` with every character shown.
pub open spec fn sanitized(s: Seq<char>, layout: bool) -> Seq<char>
    decreases s.len(),
{
    if s.len() == 0 {
        seq![]
    } else {
        sanitized(s.drop_last(), layout) + shown(s.last(), layout)
    }
}

/// Escapes every control character.
pub fn sanitize_terminal_text(value: &str) -> (result: String)
    ensures
        result@ == sanitized(value@, false),
{
    sanitize(value, false)
}

/// Escapes every control character but line breaks and tabs.
pub fn sanitize_multiline_text(value: &str) -> (result: String)
    ensures
        result@ == sanitized(value@, true),
{
    sanitize(value, true)
}

fn sanitize(value: &str, allow_layout_controls: bool) -> (result: String)
    ensures
        result@ == sanitized(value@, allow_layout_controls),
{
    let chars: Vec<char> = chars_of(value);
    let mut result = String::new();
    let mut i: usize = 0;
    while i < chars.len()
        invariant
            i <= chars.len(),
            chars@ == value@,
            result@ == sanitized(value@.take(i as int), allow_layout_controls),
        decreases chars.len() - i,
    {
        let c: char = chars[i];
        assert(value@.take(i + 1).drop_last() =~= value@.take(i as int));
        assert(value@.take(i + 1).last() == c);
        let ghost before = result@;
        if is_control(c) && !(allow_layout_controls && (c == '\n' || c == '\t')) {
            let code: u32 = c as u32;
            let escaped: String = "\\u{".to_owned().concat(radix(code as u128, 16).as_str()).concat(
                "}",
            );
            result.append(escaped.as_str());
        } else {
            result.push(c);
            assert(result@ =~= before + seq![c]);
        }
        i += 1;
    }
    assert(value@.take(value@.len() as int) =~= value@);
    result
}

/// Sanitized text holds no character that the terminal would act on.
pub proof fn law_sanitized_is_printable(s: Seq<char>, layout: bool)
    ensures
        forall|i: int|
            0 <= i < sanitized(s, layout).len() ==> printable(
                #[trigger] sanitized(s, layout)[i],
                layout,
            ),
    decreases s.len(),
{
    if s.len() > 0 {
        law_sanitized_is_printable(s.drop_last(), layout);
        lemma_shown_is_printable(s.last(), layout);
        let front = sanitized(s.drop_last(), layout);
        let tail = shown(s.last(), layout);
        assert forall|i: int| 0 <= i < (front + tail).len() implies printable(
            #[trigger] (front + tail)[i],
            layout,
        ) by {
            if i < front.len() {
                assert((front + tail)[i] == front[i]);
            } else {
                assert((front + tail)[i] == tail[i - front.len()]);
            }
        }
    }
}

proof fn lemma_shown_is_printable(c: char, layout: bool)
    ensures
        forall|i: int|
            0 <= i < shown(c, layout).len() ==> printable(#[trigger] shown(c, layout)[i], layout),
{
    if !printable(c, layout) {
        reveal_strlit("\\u{");
        reveal_strlit("}");
        lemma_hex_text_is_printable(c as u32 as nat, layout);
        let head = "\\u{"@;
        let digits = radix_text(c as u32 as nat, 16);
        let text = shown(c, layout);
        assert forall|i: int| 0 <= i < text.len() implies printable(#[trigger] text[i], layout) by {
            if i < head.len() {
                assert(text[i] == head[i]);
            } else if i < head.len() + digits.len() {
                assert(text[i] == digits[i - head.len()]);
            } else {
                assert(text[i] == '}');
            }
        }
    }
}

proof fn lemma_hex_text_is_printable(n: nat, layout: bool)
    ensures
        forall|i: int|
            0 <= i < radix_text(n, 16).len() ==> printable(#[trigger] radix_text(n, 16)[i], layout),
    decreases n,
{
    if n >= 16 {
        lemma_hex_text_is_printable(n / 16, layout);
        let text = radix_text(n, 16);
        assert forall|i: int| 0 <= i < text.len() implies printable(#[trigger] text[i], layout) by {
            if i < text.len() - 1 {
                assert(text[i] == radix_text(n / 16, 16)[i]);
            }
        }
    }
}

/// Text that holds nothing to escape is left as it is; in particular a second
/// pass changes nothing.
pub proof fn law_sanitizing_keeps_printable_text(s: Seq<char>, layout: bool)
    requires
        forall|i: int| 0 <= i < s.len() ==> printable(#[trigger] s[i], layout),
    ensures
        sanitized(s, layout) == s,
    decreases s.len(),
{
    if s.len() > 0 {
        law_sanitizing_keeps_printable_text(s.drop_last(), layout);
        assert(s =~= s.drop_last() + seq![s.last()]);
    } else {
        assert(s =~= seq![]);
    }
}

// ---------------------------------------------------------------------------
// Lists of names
// ---------------------------------------------------------------------------
/// Whether `names` holds `name`.
pub fn lists(names: &Vec<String>, name: &str) -> (result: bool)
    ensures
        result == texts(names@).contains(name@),
{
    let mut i: usize = 0;
    while i < names.len()
        invariant
            i <= names.len(),
            forall|j: int| 0 <= j < i ==> #[trigger] texts(names@)[j] != name@,
        decreases names.len() - i,
    {
        if same(names[i].as_str(), name) {
            assert(texts(names@)[i as int] == name@);
            return true;
        }
        i += 1;
    }
    false
}

/// A copy of `names`.
pub fn copied(names: &Vec<String>) -> (result: Vec<String>)
    ensures
        result@ == names@,
{
    let mut result: Vec<String> = Vec::new();
    let mut i: usize = 0;
    while i < names.len()
        invariant
            i <= names.len(),
            result@ == names@.take(i as int),
        decreases names.len() - i,
    {
        result.push(names[i].clone());
        i += 1;
    }
    assert(names@.take(names@.len() as int) =~= names@);
    result
}

/// The `k`-th variant of the name `base`: itself, `base-2`, `base-3`, ...
pub open spec fn numbered(base: Seq<char>, k: nat) -> Seq<char> {
    if k == 0 {
        base
    } else {
        base + "-"@ + radix_text(k + 1, 10)
    }
}

/// The number of the first variant of `base` that is not in `used`.
pub open spec fn is_first_free(base: Seq<char>, used: Seq<Seq<char>>, k: nat) -> bool {
    &&& !used.contains(numbered(base, k))
    &&& forall|j: nat| j < k ==> used.contains(#[trigger] numbered(base, j))
}

/// The first variant of `base` that is not in `used`.
pub open spec fn first_free(base: Seq<char>, used: Seq<Seq<char>>) -> Seq<char> {
    numbered(base, choose|k: nat| is_first_free(base, used, k))
}

proof fn lemma_numbered_injective(base: Seq<char>, j: nat, k: nat)
    requires
        numbered(base, j) == numbered(base, k),
    ensures
        j == k,
{
    reveal_strlit("-");
    lemma_radix_text(j + 1, k + 1);
    lemma_radix_text(k + 1, j + 1);
    if j > 0 && k > 0 {
        let head = base + "-"@;
        let left = radix_text(j + 1, 10);
        let right = radix_text(k + 1, 10);
        assert(left =~= (head + left).skip(head.len() as int));
        assert(right =~= (head + right).skip(head.len() as int));
    } else if j > 0 {
        assert(numbered(base, j).len() > base.len());
    } else if k > 0 {
        assert(numbered(base, k).len() > base.len());
    }
}

/// Among one more variant than there are used names, one is free.
pub(crate) proof fn lemma_some_number_is_free(base: Seq<char>, used: Seq<Seq<char>>)
    ensures
        exists|k: nat| k <= used.len() && !used.contains(#[trigger] numbered(base, k)),
{
    let variants = Seq::new((used.len() + 1) as nat, |k: int| numbered(base, k as nat));
    if forall|k: nat| k <= used.len() ==> used.contains(#[trigger] numbered(base, k)) {
        assert(variants.no_duplicates()) by {
            assert forall|i: int, j: int| 0 <= i < j < variants.len() implies variants[i]
                != variants[j] by {
                if variants[i] == variants[j] {
                    lemma_numbered_injective(base, i as nat, j as nat);
                }
            }
        }
        variants.unique_seq_to_set();
        used.lemma_cardinality_of_set();
        assert(variants.to_set().subset_of(used.to_set())) by {
            assert forall|x: Seq<char>| variants.to_set().contains(x) implies used.to_set().contains(
                x,
            ) by {
                let i = choose|i: int| 0 <= i < variants.len() && variants[i] == x;
                assert(used.contains(numbered(base, i as nat)));
            }
        }
        vstd::set_lib::lemma_len_subset(variants.to_set(), used.to_set());
    }
}

/// [`first_free`] is free, and is `base` itself where `base` is free.
pub proof fn law_first_free_is_free(base: Seq<char>, used: Seq<Seq<char>>)
    ensures
        !used.contains(first_free(base, used)),
        !used.contains(base) ==> first_free(base, used) == base,
{
    lemma_some_number_is_free(base, used);
    let some = choose|k: nat| k <= used.len() && !used.contains(#[trigger] numbered(base, k));
    lemma_least_number_is_free(base, used, some);
    let k = choose|k: nat| is_first_free(base, used, k);
    if !used.contains(base) && k > 0 {
        assert(used.contains(numbered(base, 0)));
    }
}

pub(crate) proof fn lemma_least_number_is_free(base: Seq<char>, used: Seq<Seq<char>>, k: nat)
    requires
        !used.contains(numbered(base, k)),
    ensures
        exists|j: nat| j <= k && #[trigger] is_first_free(base, used, j),
    decreases k,
{
    if exists|j: nat| j < k && !used.contains(#[trigger] numbered(base, j)) {
        let j = choose|j: nat| j < k && !used.contains(#[trigger] numbered(base, j));
        lemma_least_number_is_free(base, used, j);
    } else {
        assert(is_first_free(base, used, k));
    }
}

proof fn lemma_first_free_unique(base: Seq<char>, used: Seq<Seq<char>>, k: nat)
    requires
        is_first_free(base, used, k),
    ensures
        first_free(base, used) == numbered(base, k),
{
    let other = choose|j: nat| is_first_free(base, used, j);
    assert(is_first_free(base, used, other));
    if other < k {
        assert(used.contains(numbered(base, other)));
    } else if k < other {
        assert(used.contains(numbered(base, k)));
    }
}

/// The first of `base`, `base-2`, `base-3`, ... that is not in `used`.
pub fn unused_name(base: &str, used: &Vec<String>) -> (result: String)
    ensures
        result@ == first_free(base@, texts(used@)),
{
    let ghost names = texts(used@);
    if !lists(used, base) {
        proof {
            assert(is_first_free(base@, names, 0));
            lemma_first_free_unique(base@, names, 0);
        }
        return base.to_owned();
    }
    proof {
        lemma_some_number_is_free(base@, names);
    }
    let ghost bound = choose|k: nat| k <= names.len() && !names.contains(
        #[trigger] numbered(base@, k),
    );
    let mut suffix: u128 = 2;
    loop
        invariant
            names == texts(used@),
            names.len() == used.len(),
            bound <= names.len(),
            !names.contains(numbered(base@, bound)),
            2 <= suffix <= bound + 1,
            forall|j: nat| j + 1 < suffix ==> names.contains(#[trigger] numbered(base@, j)),
        decreases bound + 2 - suffix,
    {
        let candidate: String = base.to_owned().concat("-").concat(radix(suffix, 10).as_str());
        let ghost k = (suffix - 1) as nat;
        assert(candidate@ == numbered(base@, k));
        if !lists(used, candidate.as_str()) {
            proof {
                assert(is_first_free(base@, names, k));
                lemma_first_free_unique(base@, names, k);
            }
            return candidate;
        }
        assert(k != bound);
        suffix += 1;
    }
}

} // verus!
