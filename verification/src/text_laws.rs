//! What becomes of texts.
use vstd::prelude::*;

use crate::text;

verus! {

/// `s` is made of whitespace.
pub open spec fn is_blank(s: Seq<char>) -> bool {
    forall|i: int| 0 <= i < s.len() ==> text::whitespace(#[trigger] s[i])
}

proof fn lemma_trim_front(s: Seq<char>)
    ensures
        text::trim_front(s).len() <= s.len(),
        s == s.take(s.len() - text::trim_front(s).len()) + text::trim_front(s),
        is_blank(s.take(s.len() - text::trim_front(s).len())),
        text::trim_front(s).len() > 0 ==> !text::whitespace(text::trim_front(s)[0]),
    decreases s.len(),
{
    if s.len() > 0 && text::whitespace(s[0]) {
        let rest = s.drop_first();
        lemma_trim_front(rest);
        let kept = text::trim_front(s);
        let front = s.take(s.len() - kept.len());
        let inner = rest.take(rest.len() - kept.len());
        assert(front =~= seq![s[0]] + inner);
        assert(s =~= seq![s[0]] + rest);
        assert(seq![s[0]] + (inner + kept) =~= seq![s[0]] + inner + kept);
        assert forall|i: int| 0 <= i < front.len() implies text::whitespace(
            #[trigger] front[i],
        ) by {
            if i > 0 {
                assert(front[i] == inner[i - 1]);
            }
        }
    } else {
        assert(s.take(0) =~= seq![]);
        assert(s =~= s.take(0) + s);
    }
}

proof fn lemma_trim_back(s: Seq<char>)
    ensures
        text::trim_back(s).len() <= s.len(),
        s == text::trim_back(s) + s.skip(text::trim_back(s).len() as int),
        is_blank(s.skip(text::trim_back(s).len() as int)),
        text::trim_back(s).len() > 0 ==> !text::whitespace(text::trim_back(s).last()),
        text::trim_back(s).len() > 0 ==> text::trim_back(s)[0] == s[0],
    decreases s.len(),
{
    let kept = text::trim_back(s);
    let tail = s.skip(kept.len() as int);
    if s.len() > 0 && text::whitespace(s.last()) {
        let rest = s.drop_last();
        lemma_trim_back(rest);
        let inner = rest.skip(kept.len() as int);
        assert(tail =~= inner.push(s.last()));
        assert(s =~= rest.push(s.last()));
        assert((kept + inner).push(s.last()) =~= kept + inner.push(s.last()));
        assert forall|i: int| 0 <= i < tail.len() implies text::whitespace(#[trigger] tail[i]) by {
            if i < tail.len() - 1 {
                assert(tail[i] == inner[i]);
            }
        }
    } else {
        assert(tail =~= seq![]);
        assert(s =~= kept + tail);
    }
}

/// `before`, `kept` and `after` are `s` in three parts, of which the outer are blank.
pub open spec fn stands_between_blanks(
    s: Seq<char>,
    before: Seq<char>,
    kept: Seq<char>,
    after: Seq<char>,
) -> bool {
    s == before + kept + after && is_blank(before) && is_blank(after)
}

/// Trimming takes whitespace off both ends and nothing else: what is left stands in the
/// text between blanks, and neither begins nor ends with a space, a tabulator or a line
/// end.
pub proof fn law_trimming_takes_blanks_off(s: Seq<char>)
    ensures
        exists|before: Seq<char>, after: Seq<char>| #[trigger]
            stands_between_blanks(s, before, text::trimmed(s), after),
        text::trimmed(s).len() > 0 ==> {
            let first = text::trimmed(s)[0];
            let last = text::trimmed(s).last();
            &&& first != ' ' && first != '\t' && first != '\n' && first != '\r'
            &&& last != ' ' && last != '\t' && last != '\n' && last != '\r'
        },
{
    let front = text::trim_front(s);
    let kept = text::trimmed(s);
    lemma_trim_front(s);
    lemma_trim_back(front);
    let before = s.take(s.len() - front.len());
    let after = front.skip(kept.len() as int);
    assert(before + (kept + after) =~= before + kept + after);
    assert(stands_between_blanks(s, before, kept, after));
}

/// Letters, digits and signs are not trimmed: whitespace is made of no other ASCII
/// characters than the space and those from the tabulator to the carriage return.
pub proof fn law_visible_characters_are_not_blank(c: char)
    requires
        c as u32 <= 0x7f,
    ensures
        text::whitespace(c) <==> c == ' ' || '\t' <= c <= '\r',
{
}

/// Texts are told apart by their first characters that differ, and a text stands before
/// those that go on behind it.
pub proof fn law_texts_are_ordered_by_characters(
    common: Seq<char>,
    a: char,
    b: char,
    s: Seq<char>,
    t: Seq<char>,
)
    ensures
        a != b ==> (text::precedes(common + seq![a] + s, common + seq![b] + t) <==> a < b),
        text::precedes(common, common + seq![a] + s),
        !text::precedes(common + s, common),
    decreases common.len(),
{
    let x = common + seq![a] + s;
    let y = common + seq![b] + t;
    if common.len() > 0 {
        let rest = common.drop_first();
        law_texts_are_ordered_by_characters(rest, a, b, s, t);
        assert(x.drop_first() =~= rest + seq![a] + s);
        assert(y.drop_first() =~= rest + seq![b] + t);
        assert((common + s).drop_first() =~= rest + s);
        assert(x[0] == common[0] && y[0] == common[0] && (common + s)[0] == common[0]);
    } else {
        assert(x =~= seq![a] + s);
        assert(y =~= seq![b] + t);
    }
}

/// A name that is taken gets a number behind a dash, of which the first is two.
pub proof fn law_taken_names_get_a_number(base: Seq<char>, used: Seq<Seq<char>>)
    requires
        used.contains(base),
    ensures
        exists|k: int|
            k >= 2 && text::first_free(base, used) == base + "-"@ + #[trigger] text::int_text(k),
        !used.contains(base + "-"@ + text::int_text(2)) ==> text::first_free(base, used) == base
            + "-"@ + text::int_text(2),
{
    text::lemma_some_number_is_free(base, used);
    let some = choose|k: nat| k <= used.len() && !used.contains(#[trigger] text::numbered(base, k));
    text::lemma_least_number_is_free(base, used, some);
    let k = choose|k: nat| text::is_first_free(base, used, k);
    assert(text::is_first_free(base, used, k));
    assert(text::numbered(base, 0) == base);
    assert(k > 0);
    assert(text::int_text((k + 1) as int) == text::radix_text((k + 1) as nat, 10));
    if !used.contains(base + "-"@ + text::int_text(2)) && k > 1 {
        assert(used.contains(text::numbered(base, 1)));
        assert(text::int_text(2) == text::radix_text(2, 10));
    }
}

} // verus!
