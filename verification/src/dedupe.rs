//! The pairs of memories whose descriptions are compared for near-duplicates.

use vstd::prelude::*;

verus! {

/// The pairs `(i, j)` with `i < j < n`, for one `i`, by increasing `j`.
pub open spec fn row(i: nat, n: nat) -> Seq<(usize, usize)> {
    Seq::new((n - i - 1) as nat, |k: int| (i as usize, (i + 1 + k) as usize))
}

/// The pairs `(i, j)` with `start <= i < j < n`, by `i`, then `j`.
pub open spec fn pairs_from(start: nat, n: nat) -> Seq<(usize, usize)>
    decreases n - start,
{
    if start >= n {
        seq![]
    } else {
        row(start, n) + pairs_from(start + 1, n)
    }
}

/// Every pair of distinct positions below `n`, each once, by first, then
/// second position.
pub fn pairs(n: usize) -> (r: Vec<(usize, usize)>)
    ensures
        r@ == pairs_from(0, n as nat),
{
    let mut r: Vec<(usize, usize)> = Vec::new();
    let mut i: usize = 0;
    assert(r@ + pairs_from(0, n as nat) =~= pairs_from(0, n as nat));
    while i < n
        invariant
            i <= n,
            r@ + pairs_from(i as nat, n as nat) == pairs_from(0, n as nat),
        decreases n - i,
    {
        let ghost start = r@;
        let mut j: usize = i + 1;
        while j < n
            invariant
                i < n,
                i + 1 <= j <= n,
                r@ == start + row(i as nat, n as nat).take(j - i - 1),
            decreases n - j,
        {
            r.push((i, j));
            assert(row(i as nat, n as nat).take(j - i) =~= row(i as nat, n as nat).take(j - i - 1).push(
                (i, j),
            ));
            j = j + 1;
        }
        assert(row(i as nat, n as nat).take(j - i - 1) =~= row(i as nat, n as nat));
        assert(pairs_from(i as nat, n as nat) == row(i as nat, n as nat) + pairs_from(
            (i + 1) as nat,
            n as nat,
        ));
        assert(r@ + pairs_from((i + 1) as nat, n as nat) =~= start + pairs_from(i as nat, n as nat));
        i = i + 1;
    }
    assert(pairs_from(i as nat, n as nat) =~= Seq::<(usize, usize)>::empty());
    assert(r@ + pairs_from(i as nat, n as nat) =~= r@);
    r
}

} // verus!
