//! The order in which the pairs of bodies are visited.

use vstd::prelude::*;

verus! {

/// The pairs that start with body `i`, among `n` bodies: `(i, i + 1)` up to
/// `(i, n - 1)`.
pub open spec fn pair_row(n: int, i: int) -> Seq<(int, int)> {
    Seq::new((n - i - 1) as nat, |k: int| (i, i + 1 + k))
}

/// The pairs that start with a body before body `i`, among `n` bodies, row
/// after row.
pub open spec fn pairs_before(n: int, i: int) -> Seq<(int, int)>
    decreases i,
{
    if i <= 0 {
        Seq::empty()
    } else {
        pairs_before(n, i - 1) + pair_row(n, i - 1)
    }
}

/// The order in which the pairs of `n` bodies are visited.
pub open spec fn pair_schedule(n: int) -> Seq<(int, int)> {
    pairs_before(n, n)
}

/// Whether `p` comes before `q` when pairs are ordered by their first
/// index, then by their second.
pub open spec fn pair_precedes(p: (int, int), q: (int, int)) -> bool {
    p.0 < q.0 || (p.0 == q.0 && p.1 < q.1)
}

/// How many pairs start with a body before body `m`.
proof fn lemma_pairs_before_len(n: int, m: int)
    requires
        0 <= m <= n,
    ensures
        2 * pairs_before(n, m).len() == m * (2 * n - m - 1),
    decreases m,
{
    if m > 0 {
        lemma_pairs_before_len(n, m - 1);
        assert(pairs_before(n, m).len() == pairs_before(n, m - 1).len() + (n - m));
        assert(m * (2 * n - m - 1) == (m - 1) * (2 * n - (m - 1) - 1) + 2 * (n - m))
            by (nonlinear_arith);
    } else {
        assert(m * (2 * n - m - 1) == 0) by (nonlinear_arith)
            requires
                m == 0,
        ;
    }
}

/// The pairs that start before body `m` are pairs of two bodies, the first
/// before the second and before body `m`.
proof fn lemma_pairs_before_entries(n: int, m: int, k: int)
    requires
        0 <= m <= n,
        0 <= k < pairs_before(n, m).len(),
    ensures
        0 <= pairs_before(n, m)[k].0 < m,
        pairs_before(n, m)[k].0 < pairs_before(n, m)[k].1 < n,
    decreases m,
{
    if m > 0 {
        if k < pairs_before(n, m - 1).len() {
            lemma_pairs_before_entries(n, m - 1, k);
        }
    }
}

/// The pairs that start before body `m` come in ascending order.
proof fn lemma_pairs_before_ascend(n: int, m: int, k1: int, k2: int)
    requires
        0 <= m <= n,
        0 <= k1 < k2 < pairs_before(n, m).len(),
    ensures
        pair_precedes(pairs_before(n, m)[k1], pairs_before(n, m)[k2]),
    decreases m,
{
    if m > 0 {
        let split = pairs_before(n, m - 1).len() as int;
        if k2 < split {
            lemma_pairs_before_ascend(n, m - 1, k1, k2);
        } else if k1 < split {
            lemma_pairs_before_entries(n, m - 1, k1);
        }
    }
}

/// The pairs that start before body `i` are the first of those that start
/// before a later body `m`.
proof fn lemma_pairs_before_prefix(n: int, i: int, m: int)
    requires
        0 <= i <= m <= n,
    ensures
        pairs_before(n, i).len() <= pairs_before(n, m).len(),
        forall|k: int|
            0 <= k < pairs_before(n, i).len() ==> pairs_before(n, m)[k] == pairs_before(n, i)[k],
    decreases m,
{
    if i < m {
        lemma_pairs_before_prefix(n, i, m - 1);
    }
}

/// Among `n` bodies there are `n * (n - 1) / 2` pairs to visit.
pub proof fn lemma_schedule_len(n: int)
    requires
        0 <= n,
    ensures
        2 * pair_schedule(n).len() == n * (n - 1),
{
    lemma_pairs_before_len(n, n);
    assert(n * (2 * n - n - 1) == n * (n - 1)) by (nonlinear_arith);
}

/// Every visit is to a pair of two different bodies, the first before the
/// second.
pub proof fn lemma_schedule_entries(n: int, k: int)
    requires
        0 <= n,
        0 <= k < pair_schedule(n).len(),
    ensures
        0 <= pair_schedule(n)[k].0 < pair_schedule(n)[k].1 < n,
{
    lemma_pairs_before_entries(n, n, k);
}

/// Every pair of two different bodies is visited: the result is the place
/// of the pair `(i, j)` in the order.
pub proof fn lemma_schedule_visits_every_pair(n: int, i: int, j: int) -> (k: int)
    requires
        0 <= i < j < n,
    ensures
        0 <= k < pair_schedule(n).len(),
        pair_schedule(n)[k] == (i, j),
{
    lemma_pairs_before_prefix(n, i + 1, n);
    let k = pairs_before(n, i).len() + (j - i - 1);
    assert(pairs_before(n, i + 1)[k] == pair_row(n, i)[j - i - 1]);
    k
}

/// No pair is visited twice: the visits come in ascending order.
pub proof fn lemma_schedule_visits_once(n: int, k1: int, k2: int)
    requires
        0 <= n,
        0 <= k1 < k2 < pair_schedule(n).len(),
    ensures
        pair_precedes(pair_schedule(n)[k1], pair_schedule(n)[k2]),
        pair_schedule(n)[k1] != pair_schedule(n)[k2],
{
    lemma_pairs_before_ascend(n, n, k1, k2);
}

} // verus!
