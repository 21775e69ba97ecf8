//! Mathematical model of the pairwise traversal: the sequence of index
//! pairs a comparer emits, the cursor states it moves through, and the
//! laws that hold of them.
use vstd::prelude::*;

verus! {

/// Number of unordered pairs among `n` elements: n·(n−1)/2.
pub open spec fn pair_count(n: int) -> int {
    n * (n - 1) / 2
}

/// A cursor a comparer over `n` elements can reach: either an active
/// position `i < j < n`, or the sticky terminal state.
pub open spec fn cursor_wf(n: int, i: int, j: int) -> bool {
    if n == 0 {
        i == 0 && j == 1
    } else {
        (0 <= i < j < n) || (i == n - 1 && j == n)
    }
}

/// The cursor after emitting from an active `(i, j)`: `j` moves right,
/// and past the end of the row the cursor drops to the next row.
pub open spec fn cursor_step(n: int, i: int, j: int) -> (int, int) {
    if j + 1 < n {
        (i, j + 1)
    } else {
        (i + 1, i + 2)
    }
}

/// The index pairs still to be emitted from cursor `(i, j)` over `n`
/// elements, in order of emission.
pub open spec fn pairs_from(n: int, i: int, j: int) -> Seq<(int, int)>
    decreases n - i, n - j,
{
    if 0 <= i < j < n {
        seq![(i, j)] + pairs_from(n, cursor_step(n, i, j).0, cursor_step(n, i, j).1)
    } else {
        Seq::empty()
    }
}

/// Every index pair over `n` elements, in order of emission:
/// lexicographic by `(i, j)`, each with `i < j`.
pub open spec fn all_pairs(n: int) -> Seq<(int, int)> {
    pairs_from(n, 0, 1)
}

/// An index pair as machine indices, for handing to a caller.
pub open spec fn pair_indices(p: (int, int)) -> (usize, usize) {
    (p.0 as usize, p.1 as usize)
}

/// Strict lexicographic order on index pairs.
pub open spec fn lex_lt(p: (int, int), q: (int, int)) -> bool {
    p.0 < q.0 || (p.0 == q.0 && p.1 < q.1)
}

/// The pairs of element values a full traversal over `s` hands out, in
/// order of emission, as long as nothing mutates the elements meanwhile.
pub open spec fn paired_values<T>(s: Seq<T>) -> Seq<(T, T)> {
    all_pairs(s.len() as int).map_values(|p: (int, int)| (s[p.0], s[p.1]))
}

/// How many pairs are left from cursor `(i, j)`: the rest of row `i`,
/// then every pair among the elements after `i`.
pub proof fn lemma_pairs_from_len(n: int, i: int, j: int)
    requires
        0 <= i < j <= n,
    ensures
        pairs_from(n, i, j).len() == if j < n {
            (n - j) + pair_count(n - 1 - i)
        } else {
            0
        },
    decreases n - i, n - j,
{
    if j < n {
        if j + 1 < n {
            lemma_pairs_from_len(n, i, j + 1);
        } else {
            lemma_pairs_from_len(n, i + 1, i + 2);
            let m = n - 1 - i;
            assert(m * (m - 1) / 2 == (m - 1) + (m - 1) * (m - 2) / 2) by (nonlinear_arith)
                requires m >= 1;
            if i + 2 == n {
                assert((m - 1) * (m - 2) / 2 == 0) by (nonlinear_arith)
                    requires m == 1;
            }
        }
    }
}

/// The pairs still to come from cursor `(i, j)` are exactly the pairs
/// `(a, b)` with `a < b < n` that lie at or after `(i, j)` in
/// lexicographic order.
pub proof fn lemma_pairs_from_contains(n: int, i: int, j: int, a: int, b: int)
    requires
        0 <= i < j <= n,
        j == n ==> i == n - 1,
    ensures
        pairs_from(n, i, j).contains((a, b)) <==> ((i < a < b < n) || (a == i && j <= b < n)),
    decreases n - i, n - j,
{
    let s = pairs_from(n, i, j);
    if j < n {
        let i2 = cursor_step(n, i, j).0;
        let j2 = cursor_step(n, i, j).1;
        let rest = pairs_from(n, i2, j2);
        lemma_pairs_from_contains(n, i2, j2, a, b);
        if s.contains((a, b)) {
            let k = choose|k: int| 0 <= k < s.len() && s[k] == (a, b);
            if k > 0 {
                assert(rest[k - 1] == (a, b));
                assert(rest.contains((a, b)));
            }
        }
        if (i < a < b < n) || (a == i && j <= b < n) {
            if a == i && b == j {
                assert(s[0] == (a, b));
                assert(s.contains((a, b)));
            } else {
                assert(rest.contains((a, b)));
                let k = choose|k: int| 0 <= k < rest.len() && rest[k] == (a, b);
                assert(s[k + 1] == (a, b));
                assert(s.contains((a, b)));
            }
        }
    }
}

/// From cursor `(i, j)` the pairs come out in strictly increasing
/// lexicographic order.
pub proof fn lemma_pairs_from_sorted(n: int, i: int, j: int)
    requires
        0 <= i < j <= n,
        j == n ==> i == n - 1,
    ensures
        forall|k1: int, k2: int|
            0 <= k1 < k2 < pairs_from(n, i, j).len() ==> lex_lt(
                #[trigger] pairs_from(n, i, j)[k1],
                #[trigger] pairs_from(n, i, j)[k2],
            ),
    decreases n - i, n - j,
{
    let s = pairs_from(n, i, j);
    if j < n {
        let i2 = cursor_step(n, i, j).0;
        let j2 = cursor_step(n, i, j).1;
        let rest = pairs_from(n, i2, j2);
        lemma_pairs_from_sorted(n, i2, j2);
        assert forall|k1: int, k2: int| 0 <= k1 < k2 < s.len() implies lex_lt(
            s[k1],
            s[k2],
        ) by {
            assert(s[k2] == rest[k2 - 1]);
            assert(rest.contains(rest[k2 - 1]));
            lemma_pairs_from_contains(n, i2, j2, rest[k2 - 1].0, rest[k2 - 1].1);
            if k1 > 0 {
                assert(s[k1] == rest[k1 - 1]);
            }
        }
    }
}

/// From an active cursor `(i, j)` whose remaining pairs are the tail of
/// the full traversal from position `m`, the pair emitted now is the
/// `m`-th of the traversal, and the cursor after it owns the tail from
/// `m + 1`.
pub proof fn lemma_pairs_step(n: int, i: int, j: int, m: int)
    requires
        0 <= i < j < n,
        0 <= m <= all_pairs(n).len(),
        pairs_from(n, i, j) == all_pairs(n).subrange(m, all_pairs(n).len() as int),
    ensures
        m < all_pairs(n).len(),
        all_pairs(n)[m] == (i, j),
        pairs_from(n, cursor_step(n, i, j).0, cursor_step(n, i, j).1) == all_pairs(n).subrange(
            m + 1,
            all_pairs(n).len() as int,
        ),
{
    let ps = all_pairs(n);
    let s = pairs_from(n, i, j);
    let i2 = cursor_step(n, i, j).0;
    let j2 = cursor_step(n, i, j).1;
    assert(s == seq![(i, j)] + pairs_from(n, i2, j2));
    assert(s.len() > 0);
    assert(s[0] == (i, j));
    assert(ps.subrange(m, ps.len() as int)[0] == ps[m]);
    assert(pairs_from(n, i2, j2) =~= s.drop_first());
    assert(s.drop_first() =~= ps.subrange(m + 1, ps.len() as int));
}

/// A full traversal over `n` elements emits exactly n·(n−1)/2 pairs.
pub proof fn lemma_all_pairs_count(n: int)
    requires
        0 <= n,
    ensures
        all_pairs(n).len() == pair_count(n),
{
    if n >= 1 {
        lemma_pairs_from_len(n, 0, 1);
        assert((n - 1) + (n - 1) * (n - 2) / 2 == n * (n - 1) / 2) by (nonlinear_arith)
            requires n >= 1;
    }
}

/// Every unordered index pair `{a, b}` with `a ≠ b` is emitted, as
/// `(min, max)`: the pair with the smaller index first.
pub proof fn lemma_all_pairs_complete(n: int, a: int, b: int)
    requires
        0 <= a < b < n,
    ensures
        all_pairs(n).contains((a, b)),
        !all_pairs(n).contains((b, a)),
{
    lemma_pairs_from_contains(n, 0, 1, a, b);
    lemma_pairs_from_contains(n, 0, 1, b, a);
}

/// Every entry of a full traversal is an in-bounds pair with the smaller
/// index first, and no pair is emitted twice.
pub proof fn lemma_all_pairs_unique(n: int)
    requires
        0 <= n,
    ensures
        forall|k: int|
            0 <= k < all_pairs(n).len() ==> 0 <= (#[trigger] all_pairs(n)[k]).0
                < all_pairs(n)[k].1 < n,
        forall|k1: int, k2: int|
            0 <= k1 < k2 < all_pairs(n).len() ==> #[trigger] all_pairs(n)[k1]
                != #[trigger] all_pairs(n)[k2],
{
    let s = all_pairs(n);
    if n >= 1 {
        assert forall|k: int| 0 <= k < s.len() implies 0 <= (#[trigger] s[k]).0 < s[k].1
            < n by {
            assert(s.contains(s[k]));
            lemma_pairs_from_contains(n, 0, 1, s[k].0, s[k].1);
        }
        lemma_pairs_from_sorted(n, 0, 1);
    }
}

/// The order of emission is lexicographic by `(i, j)`: `i` ascending
/// outermost, `j` ascending within each `i`.
pub proof fn lemma_all_pairs_lex(n: int)
    requires
        0 <= n,
    ensures
        forall|k1: int, k2: int|
            0 <= k1 < k2 < all_pairs(n).len() ==> lex_lt(
                #[trigger] all_pairs(n)[k1],
                #[trigger] all_pairs(n)[k2],
            ),
{
    if n >= 1 {
        lemma_pairs_from_sorted(n, 0, 1);
    }
}

} // verus!
