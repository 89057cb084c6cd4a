//! Text in parts.
use vstd::prelude::*;

use crate::text;

verus! {

/// The parts of `s` between the `c` in it, of which there is always one.
pub open spec fn parts(s: Seq<char>, c: char) -> Seq<Seq<char>>
    decreases s.len(),
{
    if s.len() == 0 {
        seq![seq![]]
    } else {
        let front = parts(s.drop_last(), c);
        if s.last() == c {
            front.push(seq![])
        } else {
            front.drop_last().push(front.last().push(s.last()))
        }
    }
}

proof fn lemma_parts_exist(s: Seq<char>, c: char)
    ensures
        parts(s, c).len() >= 1,
    decreases s.len(),
{
    if s.len() > 0 {
        lemma_parts_exist(s.drop_last(), c);
    }
}

/// The parts of `s` between the `c` in it.
pub fn split(s: &str, c: char) -> (result: Vec<String>)
    ensures
        text::texts(result@) == parts(s@, c),
        result@.len() >= 1,
{
    let chars: Vec<char> = text::chars_of(s);
    let mut result: Vec<String> = Vec::new();
    let mut part = String::new();
    let mut i: usize = 0;
    assert(s@.take(0) =~= seq![]);
    assert(part@ =~= seq![]);
    assert(text::texts(result@).push(part@) =~= parts(seq![], c));
    while i < chars.len()
        invariant
            i <= chars@.len(),
            chars@ == s@,
            text::texts(result@).push(part@) == parts(s@.take(i as int), c),
        decreases chars@.len() - i,
    {
        let ghost before = parts(s@.take(i as int), c);
        let ghost done = text::texts(result@);
        assert(s@.take(i + 1).drop_last() =~= s@.take(i as int));
        assert(s@.take(i + 1).last() == s@[i as int]);
        assert(before.last() == part@);
        assert(before.drop_last() =~= done);
        if chars[i] == c {
            let ghost whole = part@;
            result.push(part);
            part = String::new();
            assert(part@ =~= seq![]);
            assert(text::texts(result@) =~= done.push(whole));
        } else {
            part.push(chars[i]);
        }
        i += 1;
    }
    assert(s@.take(s@.len() as int) =~= s@);
    let ghost done = text::texts(result@);
    let ghost whole = part@;
    result.push(part);
    assert(text::texts(result@) =~= done.push(whole));
    result
}

/// `line` without the carriage return at its end.
pub open spec fn without_return(line: Seq<char>) -> Seq<char> {
    if line.len() > 0 && line.last() == '\r' {
        line.drop_last()
    } else {
        line
    }
}

/// The lines of `s`: what each line feed ends, without a carriage return before
/// it, and what follows the last, where anything does.
pub open spec fn lines_of(s: Seq<char>) -> Seq<Seq<char>> {
    let split = parts(s, '\n');
    let ended = split.drop_last().map_values(|line: Seq<char>| without_return(line));
    if split.last().len() == 0 {
        ended
    } else {
        ended.push(split.last())
    }
}

fn strip_return(line: &str) -> (result: String)
    ensures
        result@ == without_return(line@),
{
    let size: usize = line.unicode_len();
    if size > 0 && line.get_char(size - 1) == '\r' {
        assert(line@.subrange(0, size - 1) =~= line@.drop_last());
        line.substring_char(0, size - 1).to_owned()
    } else {
        line.to_owned()
    }
}

/// The lines of `s`.
pub fn lines(s: &str) -> (result: Vec<String>)
    ensures
        text::texts(result@) == lines_of(s@),
{
    let all: Vec<String> = split(s, '\n');
    let ghost views = text::texts(all@);
    let ghost ended = views.drop_last().map_values(|line: Seq<char>| without_return(line));
    let mut result: Vec<String> = Vec::new();
    let mut i: usize = 0;
    while i < all.len() - 1
        invariant
            i < all@.len(),
            views == text::texts(all@),
            ended == views.drop_last().map_values(|line: Seq<char>| without_return(line)),
            text::texts(result@) == ended.take(i as int),
        decreases all@.len() - i,
    {
        let ghost before = text::texts(result@);
        result.push(strip_return(all[i].as_str()));
        assert(views.drop_last()[i as int] == all@[i as int]@);
        assert(text::texts(result@) =~= before.push(ended[i as int]));
        assert(text::texts(result@) =~= ended.take(i + 1));
        i += 1;
    }
    assert(ended.take(ended.len() as int) =~= ended);
    assert(views.last() == all@[all@.len() - 1]@);
    if all[i].as_str().unicode_len() > 0 {
        let ghost before = text::texts(result@);
        result.push(all[i].clone());
        assert(text::texts(result@) =~= before.push(views.last()));
    }
    result
}

/// Parts that are joined again are the text they came from.
pub proof fn law_parts_rejoin(s: Seq<char>, c: char)
    ensures
        text::joined(parts(s, c), seq![c]) == s,
        forall|i: int| 0 <= i < parts(s, c).len() ==> !(#[trigger] parts(s, c)[i]).contains(c),
    decreases s.len(),
{
    let all = parts(s, c);
    lemma_parts_exist(s, c);
    if s.len() == 0 {
        assert(text::joined(all, seq![c]) =~= s);
    } else {
        let front = parts(s.drop_last(), c);
        lemma_parts_exist(s.drop_last(), c);
        law_parts_rejoin(s.drop_last(), c);
        if s.last() == c {
            assert(all.drop_last() =~= front);
            assert(text::joined(all, seq![c]) =~= s.drop_last() + seq![c] + seq![]);
            assert(s =~= s.drop_last() + seq![c] + seq![]);
            assert forall|i: int| 0 <= i < all.len() implies !(#[trigger] all[i]).contains(c) by {
                if i < front.len() {
                    assert(all[i] == front[i]);
                }
            }
        } else {
            assert(all.drop_last() =~= front.drop_last());
            assert(all.last() =~= front.last() + seq![s.last()]);
            assert(text::joined(all, seq![c]) =~= text::joined(front, seq![c]) + seq![s.last()]);
            assert(s =~= s.drop_last() + seq![s.last()]);
            assert forall|i: int| 0 <= i < all.len() implies !(#[trigger] all[i]).contains(c) by {
                if i < front.len() - 1 {
                    assert(all[i] == front[i]);
                } else {
                    let old_last = front[front.len() - 1];
                    assert(!old_last.contains(c));
                    if all[i].contains(c) {
                        let k = choose|k: int| 0 <= k < all[i].len() && all[i][k] == c;
                        if k < old_last.len() {
                            assert(old_last[k] == c);
                        }
                    }
                }
            }
        }
    }
}

proof fn lemma_parts_extend(s: Seq<char>, t: Seq<char>, c: char)
    requires
        !t.contains(c),
    ensures
        parts(s + t, c) == parts(s, c).drop_last().push(parts(s, c).last() + t),
    decreases t.len(),
{
    let all = parts(s, c);
    lemma_parts_exist(s, c);
    if t.len() == 0 {
        assert(s + t =~= s);
        assert(all.last() + t =~= all.last());
        assert(all =~= all.drop_last().push(all.last()));
    } else {
        let rest = t.drop_last();
        assert forall|i: int| 0 <= i < rest.len() implies rest[i] != c by {
            assert(rest[i] == t[i]);
        }
        lemma_parts_extend(s, rest, c);
        assert((s + t).drop_last() =~= s + rest);
        assert((s + t).last() == t.last());
        assert(t.contains(t.last()));
        let front = parts(s + rest, c);
        assert(front.last() == all.last() + rest);
        assert(front.drop_last() =~= all.drop_last());
        assert((all.last() + rest).push(t.last()) =~= all.last() + t);
    }
}

/// Parts without `c` that are joined by it come apart again.
pub proof fn law_joined_parts_come_apart(all: Seq<Seq<char>>, c: char)
    requires
        all.len() >= 1,
        forall|i: int| 0 <= i < all.len() ==> !(#[trigger] all[i]).contains(c),
    ensures
        parts(text::joined(all, seq![c]), c) == all,
    decreases all.len(),
{
    let last = all.last();
    assert(!all[all.len() - 1].contains(c));
    if all.len() == 1 {
        lemma_parts_extend(seq![], last, c);
        assert(Seq::<char>::empty() + last =~= last);
        assert(parts(seq![], c) == seq![Seq::<char>::empty()]);
        assert(parts(last, c) =~= all);
    } else {
        let front = all.drop_last();
        assert forall|i: int| 0 <= i < front.len() implies !(#[trigger] front[i]).contains(c) by {
            assert(front[i] == all[i]);
        }
        law_joined_parts_come_apart(front, c);
        let before = text::joined(front, seq![c]);
        let cut = before + seq![c];
        assert(cut.drop_last() =~= before);
        assert(cut.last() == c);
        assert(parts(cut, c) == front.push(seq![]));
        lemma_parts_extend(cut, last, c);
        assert(parts(cut, c).drop_last() =~= front);
        assert(Seq::<char>::empty() + last =~= last);
        assert(front.push(last) =~= all);
    }
}

proof fn lemma_last_part(s: Seq<char>, c: char, p: int)
    requires
        0 <= p <= s.len(),
        p == 0 || s[p - 1] == c,
        !s.skip(p).contains(c),
    ensures
        parts(s, c).last() == s.skip(p),
    decreases s.len(),
{
    lemma_parts_exist(s, c);
    if s.len() == p {
        assert(s.skip(p) =~= seq![]);
    } else {
        let front = s.drop_last();
        assert(front.skip(p) =~= s.skip(p).drop_last());
        assert(s.skip(p)[s.len() - 1 - p] == s.last());
        assert forall|i: int| 0 <= i < front.skip(p).len() implies front.skip(p)[i] != c by {
            assert(front.skip(p)[i] == s.skip(p)[i]);
        }
        lemma_last_part(front, c, p);
        assert(s.skip(p) =~= front.skip(p).push(s.last()));
    }
}

proof fn lemma_part_begins(s: Seq<char>, c: char, p: int, beginning: Seq<char>)
    requires
        0 <= p <= p + beginning.len() <= s.len(),
        p == 0 || s[p - 1] == c,
        s.subrange(p, p + beginning.len()) == beginning,
        !beginning.contains(c),
    ensures
        exists|i: int|
            0 <= i < parts(s, c).len() && text::begins(#[trigger] parts(s, c)[i], beginning),
    decreases s.len(),
{
    let all = parts(s, c);
    lemma_parts_exist(s, c);
    if p + beginning.len() == s.len() {
        assert(s.skip(p) =~= beginning);
        lemma_last_part(s, c, p);
        assert(beginning.take(beginning.len() as int) =~= beginning);
        assert(text::begins(all[all.len() - 1], beginning));
    } else {
        let rest = s.drop_last();
        let front = parts(rest, c);
        lemma_parts_exist(rest, c);
        assert(rest.subrange(p, p + beginning.len()) =~= beginning);
        lemma_part_begins(rest, c, p, beginning);
        let i = choose|i: int|
            0 <= i < front.len() && text::begins(#[trigger] front[i], beginning);
        if s.last() == c || i < front.len() - 1 {
            assert(all[i] == front[i]);
        } else {
            assert(all[i] == front[i].push(s.last()));
            assert(all[i].take(beginning.len() as int) =~= front[i].take(beginning.len() as int));
        }
        assert(text::begins(all[i], beginning));
    }
}

/// What stands at the beginning of a text or behind the end of a line, and goes
/// on to no other line, is the beginning of a line.
pub proof fn law_line_begins(s: Seq<char>, p: int, beginning: Seq<char>)
    requires
        0 <= p <= p + beginning.len() <= s.len(),
        p == 0 || s[p - 1] == '\n',
        s.subrange(p, p + beginning.len()) == beginning,
        beginning.len() > 0,
        !beginning.contains('\n'),
        !beginning.contains('\r'),
    ensures
        exists|i: int|
            0 <= i < lines_of(s).len() && text::begins(#[trigger] lines_of(s)[i], beginning),
{
    lemma_part_begins(s, '\n', p, beginning);
    let all = parts(s, '\n');
    let i = choose|i: int| 0 <= i < all.len() && text::begins(#[trigger] all[i], beginning);
    let line = all[i];
    assert(line.len() >= beginning.len());
    if line.last() == '\r' {
        if line.len() == beginning.len() {
            assert(line.take(beginning.len() as int) =~= line);
            assert(beginning[beginning.len() - 1] == '\r');
        }
        assert(line.drop_last().take(beginning.len() as int) =~= line.take(
            beginning.len() as int,
        ));
    }
    assert(text::begins(without_return(line), beginning));
    assert(lines_of(s)[i] == if i < all.len() - 1 {
        without_return(line)
    } else {
        line
    });
}

} // verus!
