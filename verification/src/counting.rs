//! Counting the positions of a range at which a predicate holds.
use vstd::prelude::*;

verus! {

/// Number of indices `i` in `0..n` at which `f(i)` holds.
#[verifier::opaque]
pub open spec fn count_upto(n: int, f: spec_fn(int) -> bool) -> nat
    decreases n,
{
    if n <= 0 {
        0
    } else {
        count_upto(n - 1, f) + if f(n - 1) { 1nat } else { 0nat }
    }
}

/// One more position adds one exactly when the predicate holds there.
pub proof fn lemma_count_upto_step(n: int, f: spec_fn(int) -> bool)
    requires
        0 <= n,
    ensures
        count_upto(n + 1, f) == count_upto(n, f) + if f(n) { 1nat } else { 0nat },
{
    reveal(count_upto);
}

/// Nothing is counted over a range that does not reach past zero.
pub proof fn lemma_count_upto_nonpositive(n: int, f: spec_fn(int) -> bool)
    requires
        n <= 0,
    ensures
        count_upto(n, f) == 0,
{
    reveal(count_upto);
}

/// Nothing is counted over an empty range.
pub proof fn lemma_count_upto_zero(f: spec_fn(int) -> bool)
    ensures
        count_upto(0, f) == 0,
{
    reveal(count_upto);
}

/// A count over `0..n` is at most `n`.
pub proof fn lemma_count_upto_bounded(n: int, f: spec_fn(int) -> bool)
    ensures
        count_upto(n, f) <= if n < 0 { 0 } else { n },
    decreases n,
{
    reveal(count_upto);
    if n > 0 {
        lemma_count_upto_bounded(n - 1, f);
    }
}

/// Two predicates that agree on `0..n` count the same.
pub proof fn lemma_count_upto_agree(n: int, f: spec_fn(int) -> bool, g: spec_fn(int) -> bool)
    requires
        forall|i: int| 0 <= i < n ==> #[trigger] f(i) == g(i),
    ensures
        count_upto(n, f) == count_upto(n, g),
    decreases n,
{
    reveal(count_upto);
    if n > 0 {
        lemma_count_upto_agree(n - 1, f, g);
    }
}

/// Counting a weaker predicate gives at least as much.
pub proof fn lemma_count_upto_implies(n: int, f: spec_fn(int) -> bool, g: spec_fn(int) -> bool)
    requires
        forall|i: int| 0 <= i < n && #[trigger] f(i) ==> g(i),
    ensures
        count_upto(n, f) <= count_upto(n, g),
    decreases n,
{
    reveal(count_upto);
    if n > 0 {
        lemma_count_upto_implies(n - 1, f, g);
    }
}

/// Counting over a longer prefix gives at least as much.
pub proof fn lemma_count_upto_prefix(m: int, n: int, f: spec_fn(int) -> bool)
    requires
        m <= n,
    ensures
        count_upto(m, f) <= count_upto(n, f),
    decreases n - m,
{
    reveal(count_upto);
    if m < n {
        lemma_count_upto_prefix(m, n - 1, f);
    }
}

/// Positions where `cond` holds and `key` takes the value `value`.
pub open spec fn keyed(cond: spec_fn(int) -> bool, key: spec_fn(int) -> int, value: int) -> spec_fn(int) -> bool {
    |i: int| cond(i) && key(i) == value
}

/// Positions where `cond` holds and `key` lies in `0..k`.
pub open spec fn keyed_below(cond: spec_fn(int) -> bool, key: spec_fn(int) -> int, k: int) -> spec_fn(int) -> bool {
    |i: int| cond(i) && 0 <= key(i) < k
}

/// Sum over the values `v` in `0..k` of the count over `0..n` of `keyed(cond, key, v)`.
#[verifier::opaque]
pub open spec fn sum_keyed_counts(n: int, cond: spec_fn(int) -> bool, key: spec_fn(int) -> int, k: int) -> nat
    decreases k,
{
    if k <= 0 {
        0
    } else {
        sum_keyed_counts(n, cond, key, k - 1) + count_upto(n, keyed(cond, key, k - 1))
    }
}

/// Counts of two predicates that never hold together add up to the count of their union.
pub proof fn lemma_count_upto_disjoint(n: int, f: spec_fn(int) -> bool, g: spec_fn(int) -> bool, h: spec_fn(int) -> bool)
    requires
        forall|i: int| 0 <= i < n ==> #[trigger] h(i) == (f(i) || g(i)),
        forall|i: int| 0 <= i < n ==> !(#[trigger] f(i) && g(i)),
    ensures
        count_upto(n, f) + count_upto(n, g) == count_upto(n, h),
    decreases n,
{
    reveal(count_upto);
    if n > 0 {
        lemma_count_upto_disjoint(n - 1, f, g, h);
        assert(h(n - 1) == (f(n - 1) || g(n - 1)));
        assert(!(f(n - 1) && g(n - 1)));
    }
}

/// Counting each key value separately and adding up counts each position once.
pub proof fn lemma_sum_keyed_counts(n: int, cond: spec_fn(int) -> bool, key: spec_fn(int) -> int, k: int)
    requires
        0 <= k,
    ensures
        sum_keyed_counts(n, cond, key, k) == count_upto(n, keyed_below(cond, key, k)),
    decreases k,
{
    reveal(sum_keyed_counts);
    if k == 0 {
        lemma_count_upto_agree(n, keyed_below(cond, key, 0), |i: int| false);
        lemma_count_none(n);
    } else {
        lemma_sum_keyed_counts(n, cond, key, k - 1);
        let f = keyed_below(cond, key, k - 1);
        let g = keyed(cond, key, k - 1);
        let h = keyed_below(cond, key, k);
        assert forall|i: int| 0 <= i < n implies #[trigger] h(i) == (f(i) || g(i)) by {}
        assert forall|i: int| 0 <= i < n implies !(#[trigger] f(i) && g(i)) by {}
        lemma_count_upto_disjoint(n, f, g, h);
    }
}

/// A predicate that never holds counts zero.
pub proof fn lemma_count_none(n: int)
    ensures
        count_upto(n, |i: int| false) == 0,
    decreases n,
{
    reveal(count_upto);
    if n > 0 {
        lemma_count_none(n - 1);
    }
}

/// A predicate that holds everywhere on `0..n` counts `n`.
pub proof fn lemma_count_upto_all(n: int, f: spec_fn(int) -> bool)
    requires
        0 <= n,
        forall|i: int| 0 <= i < n ==> #[trigger] f(i),
    ensures
        count_upto(n, f) == n,
    decreases n,
{
    reveal(count_upto);
    if n > 0 {
        lemma_count_upto_all(n - 1, f);
    }
}

} // verus!
