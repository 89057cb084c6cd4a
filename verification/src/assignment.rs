//! Maximum-weight one-to-one assignment of rows to columns.
//!
//! The solver is the primal-dual shortest-path method. Columns and rows are
//! counted from one inside it, column zero being the root of the search tree.
use vstd::prelude::*;

verus! {

/// What assigning a row to the banned column costs.
pub const FORBIDDEN_COST: i64 = 576_460_752_303_423_487;

/// No cell of a matrix costs more than this, nor less than its negative.
pub const COST_LIMIT: i128 = 9_223_372_036_854_775_808;

/// The cells of a matrix given row by row.
pub open spec fn cells(rows: Seq<Vec<i64>>) -> Seq<Seq<i64>> {
    rows.map_values(|row: Vec<i64>| row@)
}

/// The gain of assigning row `i` to column `j`.
pub open spec fn gain(w: Seq<Seq<i64>>, banned: Option<(usize, usize)>, i: int, j: int) -> int {
    match banned {
        Some((row, column)) if row == i && column == j => -FORBIDDEN_COST,
        _ => w[i][j] as int,
    }
}

/// `a` gives each of `rows` rows a column of its own among `columns`.
pub open spec fn is_assignment(a: Seq<usize>, rows: nat, columns: nat) -> bool {
    &&& a.len() == rows
    &&& forall|i: int| 0 <= i < rows ==> #[trigger] a[i] < columns
    &&& forall|i: int, j: int| 0 <= i < j < rows ==> #[trigger] a[i] != #[trigger] a[j]
}

/// The gain of a whole assignment.
pub open spec fn total_gain(
    w: Seq<Seq<i64>>,
    banned: Option<(usize, usize)>,
    a: Seq<usize>,
) -> int
    decreases a.len(),
{
    if a.len() == 0 {
        0
    } else {
        total_gain(w, banned, a.drop_last()) + gain(w, banned, a.len() - 1, a.last() as int)
    }
}

/// `a` is an assignment that none exceeds.
pub open spec fn is_optimal(
    w: Seq<Seq<i64>>,
    banned: Option<(usize, usize)>,
    columns: nat,
    a: Seq<usize>,
) -> bool {
    &&& is_assignment(a, w.len(), columns)
    &&& forall|b: Seq<usize>| #[trigger]
        is_assignment(b, w.len(), columns) ==> total_gain(w, banned, b) <= total_gain(w, banned, a)
}

/// Every row of `w` has `columns` cells.
pub open spec fn is_matrix(w: Seq<Seq<i64>>, columns: nat) -> bool {
    forall|i: int| 0 <= i < w.len() ==> (#[trigger] w[i]).len() == columns
}

/// The cost of row `r` in column `c`, both counted from one.
spec fn cost(w: Seq<Seq<i64>>, banned: Option<(usize, usize)>, r: int, c: int) -> int {
    -gain(w, banned, r - 1, c - 1)
}

proof fn lemma_cost_bound(w: Seq<Seq<i64>>, banned: Option<(usize, usize)>)
    ensures
        forall|r: int, c: int| -COST_LIMIT <= #[trigger] cost(w, banned, r, c) <= COST_LIMIT,
{
}

/// The potentials of row `r` leave no column of it with a negative slack.
spec fn feasible(
    w: Seq<Seq<i64>>,
    banned: Option<(usize, usize)>,
    u: Seq<i128>,
    v: Seq<i128>,
    r: int,
) -> bool {
    forall|c: int| 1 <= c < v.len() ==> u[r] + v[c] <= #[trigger] cost(w, banned, r, c)
}

/// Row `r` stands in some column other than `hole`.
spec fn placed(p: Seq<usize>, hole: int, r: int) -> bool {
    exists|c: int| 0 <= c < p.len() && c != hole && #[trigger] p[c] == r
}

/// No row stands in two columns, `hole` left out.
spec fn apart(p: Seq<usize>, hole: int) -> bool {
    forall|c: int, d: int|
        0 <= c < d < p.len() && c != hole && d != hole && #[trigger] p[c] == #[trigger] p[d]
            ==> p[c] == 0
}

/// Rows up to `k` are matched to columns at no slack.
spec fn matched(
    w: Seq<Seq<i64>>,
    banned: Option<(usize, usize)>,
    u: Seq<i128>,
    v: Seq<i128>,
    p: Seq<usize>,
    k: int,
) -> bool {
    &&& u.len() == w.len() + 1
    &&& p.len() == v.len()
    &&& 0 <= k <= w.len() < p.len()
    &&& forall|c: int| 1 <= c < p.len() ==> #[trigger] p[c] <= k
    &&& forall|c: int| 1 <= c < p.len() ==> #[trigger] v[c] <= 0
    &&& forall|c: int| 1 <= c < p.len() && #[trigger] p[c] == 0 ==> v[c] == 0
    &&& forall|c: int|
        1 <= c < p.len() && #[trigger] p[c] != 0 ==> u[p[c] as int] + v[c] == cost(
            w,
            banned,
            p[c] as int,
            c,
        )
    &&& apart(p, 0)
    &&& forall|r: int| 1 <= r <= k ==> #[trigger] placed(p, 0, r)
    &&& forall|r: int| 1 <= r <= k ==> #[trigger] feasible(w, banned, u, v, r)
}

/// Rows above `k` have no potential yet.
spec fn idle(u: Seq<i128>, k: int) -> bool {
    forall|r: int| k < r < u.len() ==> #[trigger] u[r] == 0
}

/// While fewer rows than columns are matched, some column is free.
proof fn lemma_free_column(p: Seq<usize>, k: int)
    requires
        0 <= k < p.len() - 1,
        forall|c: int| 1 <= c < p.len() ==> #[trigger] p[c] <= k,
        apart(p, 0),
    ensures
        exists|c: int| 1 <= c < p.len() && #[trigger] p[c] == 0,
{
    if forall|c: int| 1 <= c < p.len() ==> #[trigger] p[c] != 0 {
        let rows = Seq::new((p.len() - 1) as nat, |i: int| p[i + 1] as int);
        assert(rows.no_duplicates()) by {
            assert forall|i: int, j: int| 0 <= i < j < rows.len() implies rows[i] != rows[j] by {
                assert(p[i + 1] != 0);
                assert(p[j + 1] != 0);
            }
        }
        rows.unique_seq_to_set();
        vstd::set_lib::lemma_int_range(1, k + 1);
        assert(rows.to_set().subset_of(vstd::set_lib::set_int_range(1, k + 1))) by {
            assert forall|x: int| rows.to_set().contains(x) implies 1 <= x < k + 1 by {
                let i = choose|i: int| 0 <= i < rows.len() && rows[i] == x;
                assert(p[i + 1] != 0);
            }
        }
        vstd::set_lib::lemma_len_subset(rows.to_set(), vstd::set_lib::set_int_range(1, k + 1));
    }
}

/// A free column bounds every potential.
proof fn lemma_potential_bounds(
    w: Seq<Seq<i64>>,
    banned: Option<(usize, usize)>,
    u: Seq<i128>,
    v: Seq<i128>,
    p: Seq<usize>,
    k: int,
)
    requires
        matched(w, banned, u, v, p, k),
        k < p.len() - 1,
    ensures
        forall|c: int| 1 <= c < p.len() ==> -2 * COST_LIMIT <= #[trigger] v[c] <= 0,
        forall|r: int| 1 <= r <= k ==> -COST_LIMIT <= #[trigger] u[r] <= COST_LIMIT,
{
    lemma_cost_bound(w, banned);
    lemma_free_column(p, k);
    let free = choose|c: int| 1 <= c < p.len() && #[trigger] p[c] == 0;
    assert forall|r: int| 1 <= r <= k implies -COST_LIMIT <= #[trigger] u[r] <= COST_LIMIT by {
        assert(feasible(w, banned, u, v, r));
        assert(u[r] + v[free] <= cost(w, banned, r, free));
        assert(placed(p, 0, r));
        let c = choose|c: int| 0 <= c < p.len() && c != 0 && #[trigger] p[c] == r;
        assert(u[r] + v[c] == cost(w, banned, r, c));
        assert(v[c] <= 0);
    }
    assert forall|c: int| 1 <= c < p.len() implies -2 * COST_LIMIT <= #[trigger] v[c] <= 0 by {
        if p[c] != 0 {
            assert(u[p[c] as int] + v[c] == cost(w, banned, p[c] as int, c));
            assert(u[p[c] as int] <= COST_LIMIT);
        }
    }
}

/// The slack of row `r` in column `c`.
spec fn slack(
    w: Seq<Seq<i64>>,
    banned: Option<(usize, usize)>,
    u: Seq<i128>,
    v: Seq<i128>,
    r: int,
    c: int,
) -> int {
    cost(w, banned, r, c) - u[r] - v[c]
}

fn cell_cost(
    weights: &Vec<Vec<i64>>,
    banned: Option<(usize, usize)>,
    row: usize,
    column: usize,
) -> (result: i128)
    requires
        row < cells(weights@).len(),
        column < weights@[row as int]@.len(),
    ensures
        result == cost(cells(weights@), banned, row + 1, column + 1),
{
    let forbidden: bool = match banned {
        Some((banned_row, banned_column)) => banned_row == row && banned_column == column,
        None => false,
    };
    if forbidden {
        FORBIDDEN_COST as i128
    } else {
        -(weights[row][column] as i128)
    }
}

/// Lowers the distances of the columns outside the tree by the slacks of the
/// row that has just joined it, and finds the nearest column.
fn relax(
    weights: &Vec<Vec<i64>>,
    banned: Option<(usize, usize)>,
    u: &Vec<i128>,
    v: &Vec<i128>,
    active_row: usize,
    column: usize,
    used: &Vec<bool>,
    minimum: &mut Vec<i128>,
    previous: &mut Vec<usize>,
) -> (result: (i128, usize))
    requires
        1 <= active_row <= cells(weights@).len(),
        u@.len() == cells(weights@).len() + 1,
        is_matrix(cells(weights@), (v@.len() - 1) as nat),
        used@.len() == v@.len(),
        old(minimum)@.len() == v@.len(),
        old(previous)@.len() == v@.len(),
        column < v@.len(),
        -COST_LIMIT <= u@[active_row as int] <= COST_LIMIT,
        forall|c: int| 1 <= c < v@.len() ==> -2 * COST_LIMIT <= #[trigger] v@[c] <= 0,
        exists|c: int| 1 <= c < v@.len() && !#[trigger] used@[c],
    ensures
        final(minimum)@.len() == v@.len(),
        final(previous)@.len() == v@.len(),
        1 <= result.1 < v@.len(),
        !used@[result.1 as int],
        final(minimum)@[result.1 as int] == result.0,
        forall|c: int|
            1 <= c < v@.len() && !#[trigger] used@[c] ==> {
                &&& result.0 <= final(minimum)@[c]
                &&& {
                    let reduced = slack(cells(weights@), banned, u@, v@, active_row as int, c);
                    if reduced < old(minimum)@[c] {
                        final(minimum)@[c] == reduced && final(previous)@[c] == column
                    } else {
                        final(minimum)@[c] == old(minimum)@[c] && final(previous)@[c] == old(
                            previous,
                        )@[c]
                    }
                }
            },
        forall|c: int|
            0 <= c < v@.len() && used@[c] ==> #[trigger] final(minimum)@[c] == old(minimum)@[c],
        forall|c: int|
            0 <= c < v@.len() && used@[c] ==> #[trigger] final(previous)@[c] == old(previous)@[c],
{
    proof {
        lemma_cost_bound(cells(weights@), banned);
    }
    let mut delta: i128 = i128::MAX;
    let mut next_column: usize = 0;
    let mut candidate: usize = 1;
    while candidate < v.len()
        invariant
            1 <= candidate <= v@.len(),
            1 <= active_row <= cells(weights@).len(),
            u@.len() == cells(weights@).len() + 1,
            is_matrix(cells(weights@), (v@.len() - 1) as nat),
            used@.len() == v@.len(),
            minimum@.len() == v@.len(),
            previous@.len() == v@.len(),
            column < v@.len(),
            -COST_LIMIT <= u@[active_row as int] <= COST_LIMIT,
            forall|c: int| 1 <= c < v@.len() ==> -2 * COST_LIMIT <= #[trigger] v@[c] <= 0,
            forall|r: int, c: int|
                -COST_LIMIT <= #[trigger] cost(cells(weights@), banned, r, c) <= COST_LIMIT,
            next_column < candidate,
            next_column == 0 ==> delta == i128::MAX,
            next_column == 0 ==> forall|c: int| 1 <= c < candidate ==> #[trigger] used@[c],
            next_column != 0 ==> !used@[next_column as int] && delta
                == minimum@[next_column as int],
            forall|c: int|
                1 <= c < candidate && !#[trigger] used@[c] ==> {
                    &&& delta <= minimum@[c]
                    &&& {
                        let reduced = slack(cells(weights@), banned, u@, v@, active_row as int, c);
                        if reduced < old(minimum)@[c] {
                            minimum@[c] == reduced && previous@[c] == column
                        } else {
                            minimum@[c] == old(minimum)@[c] && previous@[c] == old(previous)@[c]
                        }
                    }
                },
            forall|c: int|
                0 <= c < v@.len() && (used@[c] || c >= candidate) ==> #[trigger] minimum@[c]
                    == old(minimum)@[c],
            forall|c: int|
                0 <= c < v@.len() && (used@[c] || c >= candidate) ==> #[trigger] previous@[c]
                    == old(previous)@[c],
        decreases v@.len() - candidate,
    {
        if !used[candidate] {
            assert(cells(weights@)[active_row - 1].len() == v@.len() - 1);
            let price: i128 = cell_cost(weights, banned, active_row - 1, candidate - 1);
            assert(price == cost(cells(weights@), banned, active_row as int, candidate as int));
            assert(-2 * COST_LIMIT <= v@[candidate as int] <= 0);
            let reduced: i128 = price - u[active_row] - v[candidate];
            if reduced < minimum[candidate] {
                minimum.set(candidate, reduced);
                previous.set(candidate, column);
            }
            assert(minimum@[candidate as int] < i128::MAX);
            if minimum[candidate] < delta {
                delta = minimum[candidate];
                next_column = candidate;
            }
        }
        candidate += 1;
    }
    (delta, next_column)
}

/// Row `r` stands in a column of the tree.
spec fn in_tree(p: Seq<usize>, used: Seq<bool>, r: int) -> bool {
    exists|c: int| 0 <= c < p.len() && #[trigger] used[c] && p[c] == r
}

/// The alternating tree grown from row `k + 1`; `column` is about to join it.
spec fn tree(
    w: Seq<Seq<i64>>,
    banned: Option<(usize, usize)>,
    u: Seq<i128>,
    v: Seq<i128>,
    p: Seq<usize>,
    used: Seq<bool>,
    minimum: Seq<i128>,
    previous: Seq<usize>,
    rank: Seq<int>,
    column: int,
    k: int,
) -> bool {
    &&& matched(w, banned, u, v, p, k)
    &&& idle(u, k + 1)
    &&& k < w.len()
    &&& p[0] == k + 1
    &&& used.len() == p.len()
    &&& minimum.len() == p.len()
    &&& previous.len() == p.len()
    &&& rank.len() == p.len()
    &&& 0 <= column < p.len()
    &&& !used[column]
    &&& column != 0 ==> used[0] && feasible(w, banned, u, v, k + 1) && u[k + 1] >= -COST_LIMIT
    &&& column == 0 ==> u[k + 1] == 0 && (forall|c: int| 0 <= c < p.len() ==> !#[trigger] used[c])
        && (forall|c: int| 0 <= c < p.len() ==> #[trigger] minimum[c] == i128::MAX)
    &&& forall|c: int| 0 <= c < p.len() && #[trigger] used[c] ==> p[c] != 0
    &&& forall|c: int|
        1 <= c < p.len() && (used[c] || c == column) ==> {
            &&& (#[trigger] previous[c]) < p.len()
            &&& used[previous[c] as int]
            &&& rank[previous[c] as int] < rank[c]
            &&& slack(w, banned, u, v, p[previous[c] as int] as int, c) == 0
        }
    &&& column != 0 ==> forall|c: int|
        1 <= c < p.len() && !used[c] ==> {
            &&& (#[trigger] previous[c]) < p.len()
            &&& used[previous[c] as int]
            &&& minimum[c] == slack(w, banned, u, v, p[previous[c] as int] as int, c)
        }
    &&& forall|c: int, d: int|
        1 <= c < p.len() && !used[c] && 0 <= d < p.len() && #[trigger] used[d]
            ==> #[trigger] minimum[c] <= slack(w, banned, u, v, p[d] as int, c)
    &&& forall|c: int|
        0 <= c < p.len() && (used[c] || c == column) ==> 0 <= #[trigger] rank[c] <= rank[column]
}

/// What [`relax`] does to the distances.
spec fn relaxed(
    w: Seq<Seq<i64>>,
    banned: Option<(usize, usize)>,
    u: Seq<i128>,
    v: Seq<i128>,
    row: int,
    column: int,
    used: Seq<bool>,
    minimum: Seq<i128>,
    previous: Seq<usize>,
    minimum1: Seq<i128>,
    previous1: Seq<usize>,
    delta: i128,
    next: int,
) -> bool {
    &&& minimum1.len() == v.len()
    &&& previous1.len() == v.len()
    &&& 1 <= next < v.len()
    &&& !used[next]
    &&& minimum1[next] == delta
    &&& forall|c: int|
        1 <= c < v.len() && !#[trigger] used[c] ==> {
            &&& delta <= minimum1[c]
            &&& {
                let reduced = slack(w, banned, u, v, row, c);
                if reduced < minimum[c] {
                    minimum1[c] == reduced && previous1[c] == column
                } else {
                    minimum1[c] == minimum[c] && previous1[c] == previous[c]
                }
            }
        }
    &&& forall|c: int| 0 <= c < v.len() && used[c] ==> #[trigger] minimum1[c] == minimum[c]
    &&& forall|c: int| 0 <= c < v.len() && used[c] ==> #[trigger] previous1[c] == previous[c]
}

/// What [`shift`] does to the potentials and distances.
spec fn shifted(
    p: Seq<usize>,
    used: Seq<bool>,
    delta: i128,
    u: Seq<i128>,
    v: Seq<i128>,
    minimum: Seq<i128>,
    u1: Seq<i128>,
    v1: Seq<i128>,
    minimum1: Seq<i128>,
) -> bool {
    &&& u1.len() == u.len()
    &&& v1.len() == v.len()
    &&& minimum1.len() == minimum.len()
    &&& forall|r: int|
        0 <= r < u.len() ==> #[trigger] u1[r] == u[r] + (if in_tree(p, used, r) {
            delta as int
        } else {
            0
        })
    &&& forall|c: int|
        1 <= c < v.len() ==> #[trigger] v1[c] == v[c] - (if used[c] {
            delta as int
        } else {
            0
        })
    &&& forall|c: int|
        1 <= c < v.len() ==> #[trigger] minimum1[c] == minimum[c] - (if used[c] {
            0
        } else {
            delta as int
        })
}

#[verifier::rlimit(60)]
proof fn lemma_tree_step(
    w: Seq<Seq<i64>>,
    banned: Option<(usize, usize)>,
    u: Seq<i128>,
    v: Seq<i128>,
    p: Seq<usize>,
    used: Seq<bool>,
    minimum: Seq<i128>,
    previous: Seq<usize>,
    rank: Seq<int>,
    column: int,
    k: int,
    minimum1: Seq<i128>,
    previous1: Seq<usize>,
    delta: i128,
    next: int,
    u2: Seq<i128>,
    v2: Seq<i128>,
    minimum2: Seq<i128>,
)
    requires
        tree(w, banned, u, v, p, used, minimum, previous, rank, column, k),
        p[column] != 0,
        relaxed(
            w,
            banned,
            u,
            v,
            p[column] as int,
            column,
            used.update(column, true),
            minimum,
            previous,
            minimum1,
            previous1,
            delta,
            next,
        ),
        shifted(p, used.update(column, true), delta, u, v, minimum1, u2, v2, minimum2),
        column == 0 ==> forall|c: int|
            1 <= c < p.len() ==> #[trigger] minimum1[c] == slack(w, banned, u, v, k + 1, c),
    ensures
        tree(
            w,
            banned,
            u2,
            v2,
            p,
            used.update(column, true),
            minimum2,
            previous1,
            rank.update(next, rank[column] + 1),
            next,
            k,
        ),
{
    let used1 = used.update(column, true);
    let rank1 = rank.update(next, rank[column] + 1);
    lemma_cost_bound(w, banned);
    lemma_potential_bounds(w, banned, u, v, p, k);
    assert(used1[column]);
    assert(forall|c: int| 0 <= c < p.len() && #[trigger] used1[c] ==> p[c] != 0);
    // Rows of the tree are told apart by their columns.
    assert forall|c: int| 0 <= c < p.len() && p[c] != 0 implies in_tree(p, used1, p[c] as int)
        == #[trigger] used1[c] by {
        if in_tree(p, used1, p[c] as int) {
            let d = choose|d: int| 0 <= d < p.len() && #[trigger] used1[d] && p[d] == p[c];
            if d != c {
                assert(p[c] <= k || c == 0);
                assert(p[d] <= k || d == 0);
                assert(c != 0 && d != 0);
                assert(p[c] == p[d]);
            }
        }
    }
    assert(in_tree(p, used1, k + 1)) by {
        if column != 0 {
            assert(used1[0]);
        }
        assert(p[0] == k + 1 && used1[0]);
    }
    // After the first step the tree has no negative slack, so no shift is negative.
    assert(column != 0 ==> delta >= 0) by {
        if column != 0 {
            assert(!used1[next]);
            let r = p[column] as int;
            assert(feasible(w, banned, u, v, r));
            assert(slack(w, banned, u, v, r, next) >= 0) by {
                assert(u[r] + v[next] <= cost(w, banned, r, next));
            }
            let q = p[previous[next] as int] as int;
            assert(1 <= q <= k + 1);
            assert(feasible(w, banned, u, v, q));
            assert(u[q] + v[next] <= cost(w, banned, q, next));
            assert(minimum[next] >= 0);
        }
    }
    // The distances are the least slacks of the tree's rows.
    assert forall|c: int| 1 <= c < p.len() && !used1[c] implies {
        &&& (#[trigger] previous1[c]) < p.len()
        &&& used1[previous1[c] as int]
        &&& minimum1[c] == slack(w, banned, u, v, p[previous1[c] as int] as int, c)
        &&& minimum2[c] == slack(w, banned, u2, v2, p[previous1[c] as int] as int, c)
    } by {
        assert(!used[c]);
        if column == 0 {
            assert(minimum1[c] == slack(w, banned, u, v, k + 1, c));
            assert(-COST_LIMIT <= cost(w, banned, k + 1, c) <= COST_LIMIT);
            assert(u[k + 1] == 0);
            assert(-2 * COST_LIMIT <= v[c]);
            assert(minimum[c] == i128::MAX);
            assert(previous1[c] == column);
        } else {
            let old_previous = previous[c];
            assert(used[old_previous as int]);
        }
        let q = p[previous1[c] as int] as int;
        assert(used1[previous1[c] as int]);
        assert(in_tree(p, used1, q));
        assert(u2[q] == u[q] + delta);
    }
    assert forall|c: int, d: int|
        1 <= c < p.len() && !used1[c] && 0 <= d < p.len() && #[trigger] used1[d] implies #[trigger] minimum2[c]
        <= slack(w, banned, u2, v2, p[d] as int, c) by {
        assert(!used[c]);
        let q = p[d] as int;
        assert(in_tree(p, used1, q));
        assert(u2[q] == u[q] + delta);
        if d != column {
            assert(used[d]);
            assert(minimum[c] <= slack(w, banned, u, v, q, c));
        }
    }
    // Edges of the tree stay tight.
    assert forall|c: int| 1 <= c < p.len() && (used1[c] || c == next) implies {
        &&& (#[trigger] previous1[c]) < p.len()
        &&& used1[previous1[c] as int]
        &&& rank1[previous1[c] as int] < rank1[c]
        &&& slack(w, banned, u2, v2, p[previous1[c] as int] as int, c) == 0
    } by {
        if used1[c] {
            let q = p[previous[c] as int] as int;
            assert(used[c] || c == column);
            assert(previous1[c] == previous[c]);
            assert(used[previous[c] as int]);
            assert(in_tree(p, used1, q)) by {
                assert(used1[previous[c] as int]);
            }
            assert(u2[q] == u[q] + delta);
        } else {
            assert(minimum2[next] == minimum1[next] - delta);
        }
    }
    // Matched columns stay tight and every slack stays nonnegative.
    assert forall|c: int| 1 <= c < p.len() && #[trigger] p[c] != 0 implies u2[p[c] as int] + v2[c]
        == cost(w, banned, p[c] as int, c) by {
        assert(in_tree(p, used1, p[c] as int) == used1[c]);
        assert(u2[p[c] as int] == u[p[c] as int] + (if used1[c] { delta as int } else { 0 }));
    }
    assert forall|c: int| 1 <= c < p.len() implies #[trigger] v2[c] <= 0 by {
        assert(v[c] <= 0);
        if used1[c] && column == 0 {
            assert(!used[c]);
        }
    }
    assert forall|c: int| 1 <= c < p.len() && #[trigger] p[c] == 0 implies v2[c] == 0 by {
        assert(!used1[c]);
        assert(v2[c] == v[c]);
    }
    assert forall|r: int| 1 <= r <= k + 1 implies #[trigger] feasible(w, banned, u2, v2, r) by {
        assert forall|c: int| 1 <= c < v2.len() implies u2[r] + v2[c] <= #[trigger] cost(
            w,
            banned,
            r,
            c,
        ) by {
            if in_tree(p, used1, r) {
                let d = choose|d: int| 0 <= d < p.len() && #[trigger] used1[d] && p[d] == r;
                if used1[c] {
                    assert(column != 0 || c == 0);
                    assert(feasible(w, banned, u, v, r));
                } else {
                    assert(minimum2[c] <= slack(w, banned, u2, v2, p[d] as int, c));
                    assert(minimum2[c] == minimum1[c] - delta);
                    assert(delta <= minimum1[c]);
                }
            } else {
                assert(r != k + 1);
                assert(feasible(w, banned, u, v, r));
                assert(u2[r] == u[r]);
                if used1[c] {
                    assert(column != 0 || c == 0);
                }
            }
        }
    }
    assert(idle(u2, k + 1)) by {
        assert forall|r: int| k + 1 < r < u2.len() implies #[trigger] u2[r] == 0 by {
            if in_tree(p, used1, r) {
                let d = choose|d: int| 0 <= d < p.len() && #[trigger] used1[d] && p[d] == r;
                assert(p[d] <= k || d == 0);
            }
            assert(u[r] == 0);
        }
    }
    assert(u2[k + 1] >= -COST_LIMIT) by {
        assert(u2[k + 1] == u[k + 1] + delta);
        if column == 0 {
            assert(minimum1[next] == slack(w, banned, u, v, k + 1, next));
            assert(v[next] <= 0);
        }
    }
    assert forall|c: int| 0 <= c < p.len() && (used1[c] || c == next) implies 0
        <= #[trigger] rank1[c] <= rank1[next] by {
        assert(0 <= rank[column] <= rank[column]);
        if c != next {
            assert(used[c] || c == column);
            assert(0 <= rank[c] <= rank[column]);
        }
    }
    assert(matched(w, banned, u2, v2, p, k));
    assert(used1[0]) by {
        if column != 0 {
            assert(used[0]);
        }
    }
}

/// Raises the tree's rows, lowers its columns and shortens the distances by
/// `delta`.
fn shift(
    p: &Vec<usize>,
    used: &Vec<bool>,
    delta: i128,
    u: &mut Vec<i128>,
    v: &mut Vec<i128>,
    minimum: &mut Vec<i128>,
)
    requires
        p@.len() == used@.len() == old(v)@.len() == old(minimum)@.len(),
        p@.len() >= 1,
        used@[0],
        forall|c: int| 0 <= c < p@.len() ==> #[trigger] p@[c] < old(u)@.len(),
        forall|c: int, d: int|
            0 <= c < d < p@.len() && #[trigger] used@[c] && #[trigger] used@[d] ==> p@[c] != p@[d],
        -8 * COST_LIMIT <= delta <= 8 * COST_LIMIT,
        forall|r: int|
            0 <= r < old(u)@.len() && in_tree(p@, used@, r) ==> -8 * COST_LIMIT <= #[trigger] old(
                u,
            )@[r] <= 8 * COST_LIMIT,
        forall|c: int|
            1 <= c < p@.len() ==> -8 * COST_LIMIT <= #[trigger] old(v)@[c] <= 8 * COST_LIMIT,
        forall|c: int|
            1 <= c < p@.len() && !used@[c] ==> -8 * COST_LIMIT <= #[trigger] old(minimum)@[c] <= 8
                * COST_LIMIT,
    ensures
        shifted(
            p@,
            used@,
            delta,
            old(u)@,
            old(v)@,
            old(minimum)@,
            final(u)@,
            final(v)@,
            final(minimum)@,
        ),
{
    let ghost u0 = u@;
    let ghost v0 = v@;
    let ghost minimum0 = minimum@;
    assert(in_tree(p@, used@, p@[0] as int));
    let root: usize = p[0];
    u.set(root, u[root] + delta);
    let mut candidate: usize = 1;
    while candidate < p.len()
        invariant
            1 <= candidate <= p@.len(),
            p@.len() == used@.len() == v@.len() == minimum@.len(),
            v0.len() == minimum0.len() == p@.len(),
            u@.len() == u0.len(),
            used@[0],
            forall|c: int| 0 <= c < p@.len() ==> #[trigger] p@[c] < u@.len(),
            forall|c: int, d: int|
                0 <= c < d < p@.len() && #[trigger] used@[c] && #[trigger] used@[d] ==> p@[c]
                    != p@[d],
            -8 * COST_LIMIT <= delta <= 8 * COST_LIMIT,
            forall|r: int|
                0 <= r < u0.len() && in_tree(p@, used@, r) ==> -8 * COST_LIMIT <= #[trigger] u0[r]
                    <= 8 * COST_LIMIT,
            forall|c: int|
                1 <= c < p@.len() ==> -8 * COST_LIMIT <= #[trigger] v0[c] <= 8 * COST_LIMIT,
            forall|c: int|
                1 <= c < p@.len() && !used@[c] ==> -8 * COST_LIMIT <= #[trigger] minimum0[c] <= 8
                    * COST_LIMIT,
            forall|c: int|
                0 <= c < p@.len() && #[trigger] used@[c] ==> u@[p@[c] as int] == u0[p@[c] as int]
                    + (if c < candidate {
                    delta as int
                } else {
                    0
                }),
            forall|r: int|
                0 <= r < u0.len() && !in_tree(p@, used@, r) ==> #[trigger] u@[r] == u0[r],
            forall|c: int|
                1 <= c < p@.len() ==> #[trigger] v@[c] == v0[c] - (if used@[c] && c < candidate {
                    delta as int
                } else {
                    0
                }),
            forall|c: int|
                1 <= c < p@.len() ==> #[trigger] minimum@[c] == minimum0[c] - (if used@[c] || c
                    >= candidate {
                    0
                } else {
                    delta as int
                }),
        decreases p@.len() - candidate,
    {
        if used[candidate] {
            let row: usize = p[candidate];
            assert(in_tree(p@, used@, row as int));
            assert(u0[row as int] == u@[row as int]);
            u.set(row, u[row] + delta);
            assert(v@[candidate as int] == v0[candidate as int]);
            v.set(candidate, v[candidate] - delta);
        } else {
            assert(minimum@[candidate as int] == minimum0[candidate as int]);
            minimum.set(candidate, minimum[candidate] - delta);
        }
        candidate += 1;
    }
    assert forall|r: int| 0 <= r < u0.len() implies #[trigger] u@[r] == u0[r] + (if in_tree(
        p@,
        used@,
        r,
    ) {
        delta as int
    } else {
        0
    }) by {
        if in_tree(p@, used@, r) {
            let c = choose|c: int| 0 <= c < p@.len() && #[trigger] used@[c] && p@[c] == r;
            assert(u@[p@[c] as int] == u0[p@[c] as int] + delta);
        }
    }
}

/// Rows up to `k` are matched once the columns on the path from `column` to
/// the root have each taken the row of the column before them.
fn augment(
    p: &mut Vec<usize>,
    previous: &Vec<usize>,
    start: usize,
    Ghost(rank): Ghost<Seq<int>>,
    Ghost(used): Ghost<Seq<bool>>,
    Ghost(k): Ghost<int>,
)
    requires
        1 <= start < old(p)@.len(),
        previous@.len() == old(p)@.len() == rank.len() == used.len(),
        !used[start as int],
        old(p)@[start as int] == 0,
        apart(old(p)@, start as int),
        forall|r: int| 1 <= r <= k ==> #[trigger] placed(old(p)@, start as int, r),
        forall|c: int|
            1 <= c < old(p)@.len() && (used[c] || c == start) ==> {
                &&& (#[trigger] previous@[c]) < old(p)@.len()
                &&& used[previous@[c] as int]
                &&& 0 <= rank[previous@[c] as int] < rank[c]
            },
    ensures
        final(p)@.len() == old(p)@.len(),
        apart(final(p)@, 0),
        forall|r: int| 1 <= r <= k ==> #[trigger] placed(final(p)@, 0, r),
        forall|c: int|
            1 <= c < old(p)@.len() ==> #[trigger] final(p)@[c] == old(p)@[c] || ((used[c] || c
                == start) && final(p)@[c] == old(p)@[previous@[c] as int]),
{
    let ghost p0 = p@;
    assert(previous@[start as int] < p0.len());
    let mut column: usize = start;
    while column != 0
        invariant
            column < p@.len(),
            p@.len() == p0.len() == previous@.len() == rank.len() == used.len(),
            used[column as int] || column == start,
            0 <= rank[column as int],
            apart(p@, column as int),
            forall|r: int| 1 <= r <= k ==> #[trigger] placed(p@, column as int, r),
            forall|c: int|
                0 <= c < p0.len() && used[c] && rank[c] <= rank[column as int] ==> #[trigger] p@[c]
                    == p0[c],
            forall|c: int|
                1 <= c < p0.len() && (used[c] || c == start) ==> {
                    &&& (#[trigger] previous@[c]) < p0.len()
                    &&& used[previous@[c] as int]
                    &&& 0 <= rank[previous@[c] as int] < rank[c]
                },
            forall|c: int|
                1 <= c < p0.len() ==> #[trigger] p@[c] == p0[c] || ((used[c] || c == start)
                    && p@[c] == p0[previous@[c] as int]),
        decreases rank[column as int],
    {
        let parent: usize = previous[column];
        let ghost before = p@;
        assert(p@[parent as int] == p0[parent as int]);
        p.set(column, p[parent]);
        assert(apart(p@, parent as int));
        assert forall|r: int| 1 <= r <= k implies #[trigger] placed(p@, parent as int, r) by {
            assert(placed(before, column as int, r));
            let c = choose|c: int|
                0 <= c < before.len() && c != column && #[trigger] before[c] == r;
            if c == parent {
                assert(p@[column as int] == r);
            } else {
                assert(p@[c] == r);
            }
        }
        column = parent;
    }
}

/// Matches one row more.
#[verifier::rlimit(60)]
fn add_row(
    weights: &Vec<Vec<i64>>,
    banned: Option<(usize, usize)>,
    u: &mut Vec<i128>,
    v: &mut Vec<i128>,
    p: &mut Vec<usize>,
    row: usize,
)
    requires
        1 <= row <= cells(weights@).len(),
        is_matrix(cells(weights@), (old(v)@.len() - 1) as nat),
        matched(cells(weights@), banned, old(u)@, old(v)@, old(p)@, row - 1),
        idle(old(u)@, row - 1),
    ensures
        final(v)@.len() == old(v)@.len(),
        matched(cells(weights@), banned, final(u)@, final(v)@, final(p)@, row as int),
        idle(final(u)@, row as int),
{
    let ghost k = row - 1;
    let size: usize = p.len();
    p.set(0, row);
    let mut column: usize = 0;
    let mut minimum: Vec<i128> = vec![i128::MAX; size];
    let mut used: Vec<bool> = vec![false; size];
    let mut previous: Vec<usize> = vec![0; size];
    let ghost mut rank: Seq<int> = Seq::new(size as nat, |i: int| 0);
    let ghost mut left: int = size as int;
    proof {
        lemma_cost_bound(cells(weights@), banned);
        assert forall|r: int| 1 <= r <= k implies #[trigger] placed(p@, 0, r) by {
            assert(placed(old(p)@, 0, r));
            let c = choose|c: int| 0 <= c < old(p)@.len() && c != 0 && #[trigger] old(p)@[c] == r;
            assert(p@[c] == r);
        }
        assert(matched(cells(weights@), banned, u@, v@, p@, k));
        lemma_potential_bounds(cells(weights@), banned, u@, v@, p@, k);
        let range = vstd::set_lib::set_int_range(0, size as int);
        vstd::set_lib::lemma_int_range(0, size as int);
        vstd::set_lib::lemma_len_subset(range.filter(|c: int| !used@[c]), range);
    }
    while p[column] != 0
        invariant
            k == row - 1,
            1 <= row <= cells(weights@).len(),
            size == p@.len(),
            v@.len() == old(v)@.len(),
            is_matrix(cells(weights@), (v@.len() - 1) as nat),
            column < p@.len(),
            tree(
                cells(weights@),
                banned,
                u@,
                v@,
                p@,
                used@,
                minimum@,
                previous@,
                rank,
                column as int,
                k,
            ),
            left >= 0,
            left >= vstd::set_lib::set_int_range(0, size as int).filter(
                |c: int| !used@[c],
            ).len(),
        decreases left,
    {
        let ghost u1 = u@;
        let ghost v1 = v@;
        let ghost used1 = used@;
        let ghost minimum1 = minimum@;
        let ghost previous1 = previous@;
        proof {
            lemma_cost_bound(cells(weights@), banned);
            lemma_potential_bounds(cells(weights@), banned, u@, v@, p@, k);
            lemma_free_column(p@, k);
        }
        used.set(column, true);
        let active_row: usize = p[column];
        proof {
            let free = choose|c: int| 1 <= c < p@.len() && #[trigger] p@[c] == 0;
            assert(!used@[free]);
            if active_row == row && column != 0 {
                assert(p@[column as int] <= k);
            }
            if column != 0 {
                assert(feasible(cells(weights@), banned, u@, v@, k + 1));
                assert(u@[k + 1] + v@[free] <= cost(cells(weights@), banned, k + 1, free));
            }
        }
        let (delta, next) = relax(
            weights,
            banned,
            u,
            v,
            active_row,
            column,
            &used,
            &mut minimum,
            &mut previous,
        );
        let ghost minimum2 = minimum@;
        proof {
            assert(relaxed(
                cells(weights@),
                banned,
                u1,
                v1,
                active_row as int,
                column as int,
                used@,
                minimum1,
                previous1,
                minimum2,
                previous@,
                delta,
                next as int,
            ));
            assert forall|c: int| 1 <= c < p@.len() && !used@[c] implies -8 * COST_LIMIT
                <= #[trigger] minimum2[c] <= 8 * COST_LIMIT by {
                assert(!used1[c]);
                assert(-2 * COST_LIMIT <= v1[c] <= 0);
                if column != 0 {
                    let q = p@[previous1[c] as int] as int;
                    assert(used1[previous1[c] as int]);
                    assert(1 <= q <= k + 1) by {
                        assert(previous1[c] == 0 || p@[previous1[c] as int] <= k);
                    }
                    assert(minimum1[c] == slack(cells(weights@), banned, u1, v1, q, c));
                    assert(q <= k ==> -COST_LIMIT <= u1[q] <= COST_LIMIT);
                } else {
                    assert(minimum1[c] == i128::MAX);
                }
            }
            if column == 0 {
                assert forall|c: int| 1 <= c < p@.len() implies #[trigger] minimum2[c] == slack(
                    cells(weights@),
                    banned,
                    u1,
                    v1,
                    k + 1,
                    c,
                ) by {
                    assert(!used1[c]);
                    assert(!used@[c]);
                    assert(minimum1[c] == i128::MAX);
                    assert(-2 * COST_LIMIT <= v1[c] <= 0);
                }
            }
            assert(used@[0]);
            assert forall|c: int, d: int|
                0 <= c < d < p@.len() && #[trigger] used@[c] && #[trigger] used@[d] implies p@[c]
                != p@[d] by {
                assert(p@[d] <= k);
                assert(used1[d] || d == column);
                if c != 0 {
                    assert(used1[c] || c == column);
                    assert(p@[d] != 0);
                }
            }
            assert forall|r: int| 0 <= r < u1.len() && in_tree(p@, used@, r) implies -8 * COST_LIMIT
                <= #[trigger] u1[r] <= 8 * COST_LIMIT by {
                let c = choose|c: int| 0 <= c < p@.len() && #[trigger] used@[c] && p@[c] == r;
                assert(used1[c] || c == column);
                assert(c == 0 || p@[c] <= k);
            }
            assert(-8 * COST_LIMIT <= minimum2[next as int] <= 8 * COST_LIMIT);
            assert forall|c: int| 0 <= c < p@.len() implies #[trigger] p@[c] < u1.len() by {
                assert(c == 0 || p@[c] <= k);
            }
        }
        shift(p, &used, delta, u, v, &mut minimum);
        proof {
            lemma_tree_step(
                cells(weights@),
                banned,
                u1,
                v1,
                p@,
                used1,
                minimum1,
                previous1,
                rank,
                column as int,
                k,
                minimum2,
                previous@,
                delta,
                next as int,
                u@,
                v@,
                minimum@,
            );
            assert(used@ =~= used1.update(column as int, true));
            rank = rank.update(next as int, rank[column as int] + 1);
            let range = vstd::set_lib::set_int_range(0, size as int);
            vstd::set_lib::lemma_int_range(0, size as int);
            let outside1 = range.filter(|c: int| !used1[c]);
            let outside = range.filter(|c: int| !used@[c]);
            assert(outside =~= outside1.remove(column as int));
            assert(outside1.contains(column as int));
            left = left - 1;
        }
        column = next;
    }
    proof {
        assert forall|r: int| 1 <= r <= row implies #[trigger] placed(p@, column as int, r) by {
            if r == row {
                assert(p@[0] == r);
            } else {
                assert(placed(p@, 0, r));
                let c = choose|c: int| 0 <= c < p@.len() && c != 0 && #[trigger] p@[c] == r;
                assert(c != column);
            }
        }
        assert forall|c: int, d: int|
            0 <= c < d < p@.len() && c != column && d != column && #[trigger] p@[c]
                == #[trigger] p@[d] implies p@[c] == 0 by {
            if c == 0 {
                assert(p@[d] <= k);
            }
        }
    }
    let ghost p1 = p@;
    augment(p, &previous, column, Ghost(rank), Ghost(used@), Ghost(row as int));
    proof {
        assert forall|c: int| 1 <= c < p@.len() implies #[trigger] p@[c] <= row && (p@[c] == 0
            ==> v@[c] == 0) && (p@[c] != 0 ==> u@[p@[c] as int] + v@[c] == cost(
            cells(weights@),
            banned,
            p@[c] as int,
            c,
        )) by {
            assert(p1[c] <= k);
            if p@[c] != p1[c] {
                let parent = previous@[c] as int;
                assert(used@[parent]);
                assert(parent == 0 || p1[parent] <= k);
                assert(slack(cells(weights@), banned, u@, v@, p1[parent] as int, c) == 0);
            }
        }
        assert forall|r: int| 1 <= r <= row implies #[trigger] feasible(
            cells(weights@),
            banned,
            u@,
            v@,
            r,
        ) by {}
    }
}

/// The sum of the first `m` values of `v`, counted from one.
spec fn sum_of(v: Seq<i128>, m: int) -> int
    decreases m,
{
    if m <= 0 {
        0
    } else {
        sum_of(v, m - 1) + v[m]
    }
}

/// The sum of the values that `a`, counted from zero, picks out of `v`.
spec fn sum_at(v: Seq<i128>, a: Seq<usize>) -> int
    decreases a.len(),
{
    if a.len() == 0 {
        0
    } else {
        sum_at(v, a.drop_last()) + v[a.last() + 1]
    }
}

proof fn lemma_sum_at_remove(v: Seq<i128>, a: Seq<usize>, t: int)
    requires
        0 <= t < a.len(),
    ensures
        sum_at(v, a) == sum_at(v, a.remove(t)) + v[a[t] + 1],
    decreases a.len(),
{
    if t == a.len() - 1 {
        assert(a.remove(t) =~= a.drop_last());
    } else {
        lemma_sum_at_remove(v, a.drop_last(), t);
        assert(a.drop_last().remove(t) =~= a.remove(t).drop_last());
        assert(a.remove(t).last() == a.last());
    }
}

/// Values picked from different places add up to no less than all the values,
/// none of which is positive; where the places left out hold zero, to the same.
proof fn lemma_sum_at_bound(v: Seq<i128>, a: Seq<usize>, m: int)
    requires
        0 <= m < v.len(),
        forall|c: int| 1 <= c <= m ==> #[trigger] v[c] <= 0,
        forall|i: int| 0 <= i < a.len() ==> #[trigger] a[i] < m,
        forall|i: int, j: int| 0 <= i < j < a.len() ==> #[trigger] a[i] != #[trigger] a[j],
    ensures
        sum_at(v, a) >= sum_of(v, m),
        (forall|c: int|
            1 <= c <= m && v[c] != 0 ==> exists|i: int|
                0 <= i < a.len() && #[trigger] a[i] + 1 == c) ==> sum_at(v, a) == sum_of(v, m),
    decreases m,
{
    if m == 0 {
        if a.len() > 0 {
            assert(a[0] < m);
        }
    } else if exists|t: int| 0 <= t < a.len() && #[trigger] a[t] + 1 == m {
        let t = choose|t: int| 0 <= t < a.len() && #[trigger] a[t] + 1 == m;
        let rest = a.remove(t);
        lemma_sum_at_remove(v, a, t);
        assert forall|i: int| 0 <= i < rest.len() implies #[trigger] rest[i] < m - 1 by {
            let source = if i < t { i } else { i + 1 };
            assert(rest[i] == a[source]);
            assert(a[source] != a[t]);
        }
        assert forall|i: int, j: int| 0 <= i < j < rest.len() implies #[trigger] rest[i]
            != #[trigger] rest[j] by {
            let source_i = if i < t { i } else { i + 1 };
            let source_j = if j < t { j } else { j + 1 };
            assert(rest[i] == a[source_i]);
            assert(rest[j] == a[source_j]);
        }
        lemma_sum_at_bound(v, rest, m - 1);
        if forall|c: int|
            1 <= c <= m && v[c] != 0 ==> exists|i: int|
                0 <= i < a.len() && #[trigger] a[i] + 1 == c {
            assert forall|c: int| 1 <= c <= m - 1 && v[c] != 0 implies exists|i: int|
                0 <= i < rest.len() && #[trigger] rest[i] + 1 == c by {
                let i = choose|i: int| 0 <= i < a.len() && #[trigger] a[i] + 1 == c;
                let target = if i < t { i } else { i - 1 };
                assert(rest[target] == a[i]);
            }
        }
    } else {
        assert forall|i: int| 0 <= i < a.len() implies #[trigger] a[i] < m - 1 by {
            assert(a[i] + 1 != m);
        }
        lemma_sum_at_bound(v, a, m - 1);
        assert(v[m] <= 0);
        if forall|c: int|
            1 <= c <= m && v[c] != 0 ==> exists|i: int|
                0 <= i < a.len() && #[trigger] a[i] + 1 == c {
            assert(v[m] == 0);
        }
    }
}

/// Feasible potentials bound the gain of every assignment; where they are
/// tight they give it.
proof fn lemma_gain_bound(
    w: Seq<Seq<i64>>,
    banned: Option<(usize, usize)>,
    u: Seq<i128>,
    v: Seq<i128>,
    a: Seq<usize>,
)
    requires
        a.len() <= w.len(),
        u.len() == w.len() + 1,
        forall|i: int| 0 <= i < a.len() ==> #[trigger] a[i] + 1 < v.len(),
        forall|r: int| 1 <= r <= w.len() ==> #[trigger] feasible(w, banned, u, v, r),
    ensures
        -total_gain(w, banned, a) >= sum_of(u, a.len() as int) + sum_at(v, a),
        (forall|i: int|
            0 <= i < a.len() ==> u[i + 1] + v[#[trigger] a[i] + 1] == cost(
                w,
                banned,
                i + 1,
                a[i] + 1,
            )) ==> -total_gain(w, banned, a) == sum_of(u, a.len() as int) + sum_at(v, a),
    decreases a.len(),
{
    if a.len() > 0 {
        let rest = a.drop_last();
        assert forall|i: int| 0 <= i < rest.len() implies #[trigger] rest[i] + 1 < v.len() by {
            assert(rest[i] == a[i]);
        }
        lemma_gain_bound(w, banned, u, v, rest);
        let r = a.len() as int;
        assert(a[r - 1] == a.last());
        assert(feasible(w, banned, u, v, r));
        assert(u[r] + v[a.last() + 1] <= cost(w, banned, r, a.last() + 1));
        if forall|i: int|
            0 <= i < a.len() ==> u[i + 1] + v[#[trigger] a[i] + 1] == cost(
                w,
                banned,
                i + 1,
                a[i] + 1,
            ) {
            assert forall|i: int| 0 <= i < rest.len() implies u[i + 1] + v[#[trigger] rest[i] + 1]
                == cost(w, banned, i + 1, rest[i] + 1) by {
                assert(rest[i] == a[i]);
            }
        }
    }
}

/// Gives each row a column of its own so that no other choice gains more.
///
/// The pair `banned`, where there is one, costs [`FORBIDDEN_COST`]. The second
/// result adds up the weights themselves, a banned cell included.
pub fn maximum_weight_assignment(
    weights: &Vec<Vec<i64>>,
    columns: usize,
    banned: Option<(usize, usize)>,
) -> (result: (Vec<usize>, i128))
    requires
        is_matrix(cells(weights@), columns as nat),
        cells(weights@).len() <= columns < usize::MAX,
    ensures
        is_optimal(cells(weights@), banned, columns as nat, result.0@),
        result.1 == total_gain(cells(weights@), None, result.0@),
{
    let rows: usize = weights.len();
    let mut u: Vec<i128> = vec![0; rows + 1];
    let mut v: Vec<i128> = vec![0; columns + 1];
    let mut p: Vec<usize> = vec![0; columns + 1];
    let mut row: usize = 1;
    while row <= rows
        invariant
            1 <= row <= rows + 1,
            rows == cells(weights@).len(),
            rows < usize::MAX,
            is_matrix(cells(weights@), columns as nat),
            v@.len() == columns + 1,
            matched(cells(weights@), banned, u@, v@, p@, row - 1),
            idle(u@, row - 1),
        decreases rows + 1 - row,
    {
        add_row(weights, banned, &mut u, &mut v, &mut p, row);
        row += 1;
    }

    let mut assignment: Vec<usize> = vec![0; rows];
    let mut column: usize = 1;
    while column <= columns
        invariant
            1 <= column <= columns + 1,
            columns < usize::MAX,
            p@.len() == columns + 1,
            assignment@.len() == rows,
            forall|c: int| 1 <= c < p@.len() ==> #[trigger] p@[c] <= rows,
            apart(p@, 0),
            forall|c: int|
                1 <= c < column && #[trigger] p@[c] != 0 ==> assignment@[p@[c] - 1] == c - 1,
        decreases columns + 1 - column,
    {
        let placed_row: usize = p[column];
        if placed_row != 0 {
            assert(forall|c: int| 1 <= c < column && #[trigger] p@[c] != 0 ==> p@[c] != placed_row);
            assignment.set(placed_row - 1, column - 1);
        }
        column += 1;
    }
    proof {
        let a = assignment@;
        assert forall|i: int| 0 <= i < rows implies p@[#[trigger] a[i] + 1] == i + 1 && a[i]
            < columns by {
            assert(placed(p@, 0, i + 1));
            let c = choose|c: int| 0 <= c < p@.len() && c != 0 && #[trigger] p@[c] == i + 1;
            assert(a[p@[c] - 1] == c - 1);
        }
        assert(is_assignment(a, rows as nat, columns as nat));
        lemma_gain_bound(cells(weights@), banned, u@, v@, a);
        assert forall|c: int| 1 <= c <= columns && v@[c] != 0 implies exists|i: int|
            0 <= i < a.len() && #[trigger] a[i] + 1 == c by {
            assert(p@[c] != 0);
            assert(a[p@[c] - 1] + 1 == c);
        }
        lemma_sum_at_bound(v@, a, columns as int);
        assert forall|b: Seq<usize>| #[trigger]
            is_assignment(b, rows as nat, columns as nat) implies total_gain(cells(weights@), banned, b)
            <= total_gain(cells(weights@), banned, a) by {
            lemma_gain_bound(cells(weights@), banned, u@, v@, b);
            lemma_sum_at_bound(v@, b, columns as int);
        }
    }

    let mut total: i128 = 0;
    let mut index: usize = 0;
    while index < rows
        invariant
            index <= rows,
            rows == cells(weights@).len() == assignment@.len(),
            is_matrix(cells(weights@), columns as nat),
            forall|i: int| 0 <= i < rows ==> #[trigger] assignment@[i] < columns,
            total == total_gain(cells(weights@), None, assignment@.take(index as int)),
            -0x8000_0000_0000_0000 * index <= total <= 0x7fff_ffff_ffff_ffff * index,
        decreases rows - index,
    {
        assert(assignment@.take(index + 1).drop_last() =~= assignment@.take(index as int));
        let chosen: usize = assignment[index];
        assert(cells(weights@)[index as int].len() == columns);
        total += weights[index][chosen] as i128;
        index += 1;
    }
    assert(assignment@.take(rows as int) =~= assignment@);
    (assignment, total)
}

// ---------------------------------------------------------------------------
// Alternatives to an optimum
// ---------------------------------------------------------------------------
pub(crate) proof fn lemma_total_gain_update(
    w: Seq<Seq<i64>>,
    banned: Option<(usize, usize)>,
    a: Seq<usize>,
    i: int,
    c: usize,
)
    requires
        0 <= i < a.len(),
    ensures
        total_gain(w, banned, a.update(i, c)) == total_gain(w, banned, a) - gain(
            w,
            banned,
            i,
            a[i] as int,
        ) + gain(w, banned, i, c as int),
    decreases a.len(),
{
    let changed = a.update(i, c);
    if i == a.len() - 1 {
        assert(changed.drop_last() =~= a.drop_last());
    } else {
        lemma_total_gain_update(w, banned, a.drop_last(), i, c);
        assert(changed.drop_last() =~= a.drop_last().update(i, c));
    }
}

proof fn lemma_total_gain_banned(w: Seq<Seq<i64>>, banned: (usize, usize), a: Seq<usize>)
    ensures
        total_gain(w, Some(banned), a) == total_gain(w, None, a) - (if banned.0 < a.len()
            && a[banned.0 as int] == banned.1 {
            w[banned.0 as int][banned.1 as int] + FORBIDDEN_COST
        } else {
            0
        }),
    decreases a.len(),
{
    if a.len() > 0 {
        lemma_total_gain_banned(w, banned, a.drop_last());
    }
}

/// Some of `rows` spare columns is free for row `i`.
proof fn lemma_spare_column(a: Seq<usize>, rows: int, proper: int, i: int) -> (spare: int)
    requires
        a.len() == rows,
        0 <= i < rows,
        0 <= proper,
    ensures
        proper <= spare < proper + rows,
        forall|k: int| 0 <= k < rows && k != i ==> #[trigger] a[k] != spare,
{
    let others = a.remove(i).map_values(|c: usize| c as int);
    let spares = vstd::set_lib::set_int_range(proper, proper + rows);
    vstd::set_lib::lemma_int_range(proper, proper + rows);
    others.lemma_cardinality_of_set();
    if spares.subset_of(others.to_set()) {
        vstd::set_lib::lemma_len_subset(spares, others.to_set());
    }
    let spare = choose|c: int| spares.contains(c) && !others.to_set().contains(c);
    assert forall|k: int| 0 <= k < rows && k != i implies #[trigger] a[k] != spare by {
        let at = if k < i { k } else { k - 1 };
        assert(others[at] == a[k]);
        assert(others.contains(a[k] as int));
    }
    spare
}

/// There are `proper` columns, and as many spare ones of no weight as there are
/// rows.
pub open spec fn has_spares(w: Seq<Seq<i64>>, proper: int) -> bool {
    &&& 0 <= proper
    &&& is_matrix(w, (proper + w.len()) as nat)
    &&& forall|i: int, c: int|
        0 <= i < w.len() && proper <= c < proper + w.len() ==> #[trigger] w[i][c] == 0
}

/// Where there are spare columns, forbidding a pair of an optimum leaves the
/// best total as it is exactly when another optimum does without the pair.
pub proof fn lemma_alternative(
    w: Seq<Seq<i64>>,
    proper: int,
    a: Seq<usize>,
    i: usize,
    b: Seq<usize>,
)
    requires
        has_spares(w, proper),
        proper + w.len() <= usize::MAX,
        i < w.len(),
        is_optimal(w, None, (proper + w.len()) as nat, a),
        a[i as int] < proper,
        is_optimal(w, Some((i, a[i as int])), (proper + w.len()) as nat, b),
    ensures
        total_gain(w, None, b) == total_gain(w, None, a) <==> exists|c: Seq<usize>|
            #[trigger] is_optimal(w, None, (proper + w.len()) as nat, c) && c[i as int] != a[i as int],
{
    let columns = (proper + w.len()) as nat;
    let pair = (i, a[i as int]);
    let banned = Some(pair);
    lemma_total_gain_banned(w, pair, b);
    if b[i as int] == a[i as int] {
        let spare = lemma_spare_column(b, w.len() as int, proper, i as int) as usize;
        let moved = b.update(i as int, spare);
        lemma_total_gain_update(w, None, b, i as int, spare);
        lemma_total_gain_banned(w, pair, moved);
        assert(w[i as int][spare as int] == 0);
        assert(is_assignment(moved, w.len(), columns)) by {
            assert forall|k: int, l: int| 0 <= k < l < w.len() implies #[trigger] moved[k]
                != #[trigger] moved[l] by {
                assert(k != i ==> moved[k] == b[k] && b[k] != spare);
                assert(l != i ==> moved[l] == b[l] && b[l] != spare);
            }
        }
        assert(total_gain(w, banned, moved) <= total_gain(w, banned, b));
        assert(false);
    }
    if total_gain(w, None, b) == total_gain(w, None, a) {
        assert(is_optimal(w, None, columns, b));
    }
    if exists|c: Seq<usize>| #[trigger]
        is_optimal(w, None, columns, c) && c[i as int] != a[i as int] {
        let c = choose|c: Seq<usize>| #[trigger]
            is_optimal(w, None, columns, c) && c[i as int] != a[i as int];
        lemma_total_gain_banned(w, pair, c);
        assert(total_gain(w, banned, c) <= total_gain(w, banned, b));
        assert(total_gain(w, None, a) <= total_gain(w, None, c));
    }
}

} // verus!
