//! Which positions of a list qualify, listed in order.

use vstd::prelude::*;

verus! {

/// Each position is listed once, in order.
pub open spec fn rising(pick: Seq<int>) -> bool {
    forall|a: int, b: int| 0 <= a < b < pick.len() ==> #[trigger] pick[a] < #[trigger] pick[b]
}

/// `pick` lists, in order and each once, exactly the positions below `n` that
/// qualify.
pub open spec fn picks(pick: Seq<int>, n: int, qualifies: spec_fn(int) -> bool) -> bool {
    &&& rising(pick)
    &&& forall|a: int| 0 <= a < pick.len() ==> 0 <= #[trigger] pick[a] < n && qualifies(pick[a])
    &&& forall|i: int| 0 <= i < n && #[trigger] qualifies(i) ==> pick.contains(i)
}

/// Nothing qualifies below the first position.
pub proof fn lemma_picks_none(qualifies: spec_fn(int) -> bool)
    ensures
        picks(Seq::empty(), 0, qualifies),
{
}

/// One more position.
pub proof fn lemma_picks_next(pick: Seq<int>, n: int, qualifies: spec_fn(int) -> bool)
    requires
        0 <= n,
        picks(pick, n, qualifies),
    ensures
        picks(
            if qualifies(n) {
                pick.push(n)
            } else {
                pick
            },
            n + 1,
            qualifies,
        ),
{
    if qualifies(n) {
        let next = pick.push(n);
        assert forall|i: int| 0 <= i < n + 1 && #[trigger] qualifies(i) implies next.contains(i) by {
            if i < n {
                let a = pick.index_of(i);
                assert(pick.contains(i));
                assert(next[a] == i);
            } else {
                assert(next[pick.len() as int] == n);
            }
        }
    }
}

/// No more positions qualify than there are.
pub proof fn lemma_picks_short(pick: Seq<int>, n: int, qualifies: spec_fn(int) -> bool)
    requires
        0 <= n,
        picks(pick, n, qualifies),
    ensures
        pick.len() <= n,
{
    if pick.len() > 0 {
        lemma_rising(pick, pick.len() - 1);
        assert(pick[pick.len() - 1] < n);
        assert(0 <= pick[0]);
    }
}

proof fn lemma_rising(pick: Seq<int>, k: int)
    requires
        rising(pick),
        0 <= k < pick.len(),
    ensures
        pick[k] >= pick[0] + k,
    decreases k,
{
    if k > 0 {
        lemma_rising(pick, k - 1);
        assert(pick[k - 1] < pick[k]);
    }
}

} // verus!
