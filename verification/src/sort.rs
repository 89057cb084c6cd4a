//! Stable sorting of values by a rank of their own.
use vstd::prelude::*;

verus! {

/// A type whose values are ranked by what they hold.
pub trait Ranked: View + Sized {
    /// Whether `a` goes before `b`.
    spec fn ahead(a: Self::V, b: Self::V) -> bool;

    /// Decides [`Ranked::ahead`].
    fn is_ahead(&self, other: &Self) -> (result: bool)
        ensures
            result == Self::ahead(self@, other@),
    ;
}

/// What the values of a list hold.
pub open spec fn held<T: View>(items: Seq<T>) -> Seq<T::V> {
    items.map_values(|item: T| item@)
}

/// `s` with `x` put behind the values in front that go before it.
pub open spec fn placed<T: Ranked>(s: Seq<T::V>, x: T::V) -> Seq<T::V>
    decreases s.len(),
{
    if s.len() == 0 || !T::ahead(s[0], x) {
        seq![x] + s
    } else {
        seq![s[0]] + placed::<T>(s.drop_first(), x)
    }
}

/// `s` in order, values of one rank as they stood.
pub open spec fn sorted<T: Ranked>(s: Seq<T::V>) -> Seq<T::V>
    decreases s.len(),
{
    if s.len() == 0 {
        s
    } else {
        placed::<T>(sorted::<T>(s.drop_first()), s[0])
    }
}

proof fn lemma_placed_at<T: Ranked>(s: Seq<T::V>, x: T::V, at: int)
    requires
        0 <= at <= s.len(),
        forall|i: int| 0 <= i < at ==> T::ahead(#[trigger] s[i], x),
        at < s.len() ==> !T::ahead(s[at], x),
    ensures
        placed::<T>(s, x) == s.insert(at, x),
    decreases s.len(),
{
    if at == 0 {
        assert(s.insert(0, x) =~= seq![x] + s);
    } else {
        assert(T::ahead(s[0], x));
        let rest = s.drop_first();
        assert forall|i: int| 0 <= i < at - 1 implies T::ahead(#[trigger] rest[i], x) by {
            assert(rest[i] == s[i + 1]);
        }
        lemma_placed_at::<T>(rest, x, at - 1);
        assert(s.insert(at, x) =~= seq![s[0]] + rest.insert(at - 1, x));
    }
}

/// Sorts `items`, keeping the order of those of one rank.
pub fn sort<T: Ranked>(items: Vec<T>) -> (result: Vec<T>)
    ensures
        held(result@) == sorted::<T>(held(items@)),
{
    let ghost all = held(items@);
    let mut rest: Vec<T> = items;
    let mut result: Vec<T> = Vec::new();
    assert(all.skip(all.len() as int) =~= seq![]);
    assert(held(result@) =~= seq![]);
    assert(held(rest@) =~= all.take(rest@.len() as int));
    while rest.len() > 0
        invariant
            rest@.len() <= all.len(),
            held(rest@) == all.take(rest@.len() as int),
            held(result@) == sorted::<T>(all.skip(rest@.len() as int)),
        decreases rest@.len(),
    {
        let ghost before = rest@;
        let ghost size = rest@.len() as int;
        let x: T = rest.pop().unwrap();
        assert(x@ == held(before)[size - 1]);
        assert(x@ == all[size - 1]);
        assert(held(rest@) =~= all.take(size - 1));
        let mut at: usize = 0;
        while at < result.len() && result[at].is_ahead(&x)
            invariant
                at <= result@.len(),
                forall|i: int| 0 <= i < at ==> T::ahead(#[trigger] held(result@)[i], x@),
            decreases result@.len() - at,
        {
            at += 1;
        }
        let ghost ordered = held(result@);
        assert(at < result@.len() ==> ordered[at as int] == result@[at as int]@);
        let ghost x_view = x@;
        result.insert(at, x);
        proof {
            lemma_placed_at::<T>(ordered, x_view, at as int);
            assert(held(result@) =~= ordered.insert(at as int, x_view));
            assert(all.skip(size - 1).drop_first() =~= all.skip(size));
            assert(all.skip(size - 1)[0] == x_view);
        }
    }
    assert(all.skip(0) =~= all);
    result
}

/// Ranks form a strict weak order.
pub open spec fn ranks<T: Ranked>() -> bool {
    &&& forall|a: T::V| !#[trigger] T::ahead(a, a)
    &&& forall|a: T::V, b: T::V, c: T::V| #[trigger]
        T::ahead(a, b) && #[trigger] T::ahead(b, c) ==> T::ahead(a, c)
    &&& forall|a: T::V, b: T::V, c: T::V| !#[trigger]
        T::ahead(a, b) && !#[trigger] T::ahead(b, c) ==> !T::ahead(a, c)
}

/// No value of `s` goes before one that stands in front of it.
pub open spec fn in_order<T: Ranked>(s: Seq<T::V>) -> bool {
    forall|i: int, j: int| 0 <= i < j < s.len() ==> !T::ahead(#[trigger] s[j], #[trigger] s[i])
}

proof fn lemma_placed<T: Ranked>(s: Seq<T::V>, x: T::V)
    ensures
        placed::<T>(s, x).len() == s.len() + 1,
        placed::<T>(s, x).to_multiset() == s.to_multiset().insert(x),
        ranks::<T>() && in_order::<T>(s) ==> in_order::<T>(placed::<T>(s, x)),
        forall|y: T::V|
            (forall|i: int| 0 <= i < s.len() ==> !T::ahead(#[trigger] s[i], y)) && !T::ahead(x, y)
                ==> forall|i: int|
                0 <= i < placed::<T>(s, x).len() ==> !T::ahead(
                    #[trigger] placed::<T>(s, x)[i],
                    y,
                ),
    decreases s.len(),
{
    broadcast use vstd::seq_lib::group_to_multiset_ensures;

    let result = placed::<T>(s, x);
    if s.len() == 0 || !T::ahead(s[0], x) {
        assert(result =~= s.insert(0, x));
        if ranks::<T>() && in_order::<T>(s) {
            assert forall|i: int, j: int| 0 <= i < j < result.len() implies !T::ahead(
                #[trigger] result[j],
                #[trigger] result[i],
            ) by {
                assert(result[j] == s[j - 1]);
                if i == 0 {
                    if j > 1 {
                        assert(!T::ahead(s[j - 1], s[0]));
                        assert(!T::ahead(s[0], x));
                    }
                } else {
                    assert(result[i] == s[i - 1]);
                }
            }
        }
    } else {
        let rest = s.drop_first();
        lemma_placed::<T>(rest, x);
        let tail = placed::<T>(rest, x);
        assert(result =~= tail.insert(0, s[0]));
        assert(s =~= rest.insert(0, s[0]));
        assert(result.to_multiset() =~= s.to_multiset().insert(x));
        assert forall|y: T::V|
            (forall|i: int| 0 <= i < s.len() ==> !T::ahead(#[trigger] s[i], y)) && !T::ahead(
                x,
                y,
            ) implies forall|i: int|
            0 <= i < result.len() ==> !T::ahead(#[trigger] result[i], y) by {
            assert forall|i: int| 0 <= i < rest.len() implies !T::ahead(#[trigger] rest[i], y) by {
                assert(rest[i] == s[i + 1]);
            }
            assert forall|i: int| 0 <= i < result.len() implies !T::ahead(
                #[trigger] result[i],
                y,
            ) by {
                if i > 0 {
                    assert(result[i] == tail[i - 1]);
                } else {
                    assert(result[0] == s[0]);
                }
            }
        }
        if ranks::<T>() && in_order::<T>(s) {
            assert(in_order::<T>(rest)) by {
                assert forall|i: int, j: int| 0 <= i < j < rest.len() implies !T::ahead(
                    #[trigger] rest[j],
                    #[trigger] rest[i],
                ) by {
                    assert(rest[j] == s[j + 1] && rest[i] == s[i + 1]);
                }
            }
            let y = s[0];
            assert forall|i: int| 0 <= i < rest.len() implies !T::ahead(#[trigger] rest[i], y) by {
                assert(rest[i] == s[i + 1]);
            }
            assert(!T::ahead(x, y)) by {
                if T::ahead(x, y) {
                    assert(T::ahead(y, x));
                    assert(T::ahead(y, y));
                }
            }
            assert forall|i: int, j: int| 0 <= i < j < result.len() implies !T::ahead(
                #[trigger] result[j],
                #[trigger] result[i],
            ) by {
                assert(result[j] == tail[j - 1]);
                if i > 0 {
                    assert(result[i] == tail[i - 1]);
                } else {
                    assert(result[0] == y);
                }
            }
        }
    }
}

/// Sorting keeps every value as often as it occurs, and where ranks form an
/// order puts the values in order.
pub proof fn law_sorted<T: Ranked>(s: Seq<T::V>)
    ensures
        sorted::<T>(s).len() == s.len(),
        sorted::<T>(s).to_multiset() == s.to_multiset(),
        ranks::<T>() ==> in_order::<T>(sorted::<T>(s)),
    decreases s.len(),
{
    broadcast use vstd::seq_lib::group_to_multiset_ensures;

    if s.len() > 0 {
        let rest = s.drop_first();
        law_sorted::<T>(rest);
        lemma_placed::<T>(sorted::<T>(rest), s[0]);
        assert(s =~= rest.insert(0, s[0]));
    }
}

} // verus!
