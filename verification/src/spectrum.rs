//! Reading eigenvalues off a real quasi-triangular (Schur) form: the
//! diagonal splits into `1` x `1` blocks (real eigenvalues) and `2` x `2`
//! blocks (pairs from a quadratic), a pair starting wherever the entry below
//! the diagonal is significant.

use vstd::prelude::*;

verus! {

/// The diagonal blocks from position `i` on, for an `n` x `n` form whose
/// subdiagonal entry below row `k` is significant exactly when `coupled[k]`:
/// each block is `(start, size)`.
pub open spec fn blocks_from(coupled: Seq<bool>, n: nat, i: nat) -> Seq<(usize, usize)>
    decreases n - i,
{
    if i >= n {
        seq![]
    } else if i + 1 < n && coupled[i as int] {
        seq![(i as usize, 2usize)] + blocks_from(coupled, n, i + 2)
    } else {
        seq![(i as usize, 1usize)] + blocks_from(coupled, n, i + 1)
    }
}

/// Sum of the block sizes.
pub open spec fn total_size(blocks: Seq<(usize, usize)>) -> nat
    decreases blocks.len(),
{
    if blocks.len() == 0 {
        0
    } else {
        blocks[0].1 as nat + total_size(blocks.drop_first())
    }
}

/// Splits the diagonal of an `n` x `n` quasi-triangular form into blocks,
/// scanning from the top: a `2` x `2` block where the subdiagonal entry is
/// significant, a `1` x `1` block otherwise.
pub fn diagonal_blocks(coupled: &Vec<bool>, n: usize) -> (r: Vec<(usize, usize)>)
    requires
        coupled@.len() + 1 == n,
    ensures
        r@ == blocks_from(coupled@, n as nat, 0),
        r@.len() > 0,
        r@[0].0 == 0,
        r@.last().0 + r@.last().1 == n,
        forall|k: int|
            0 <= k < r@.len() ==> {
                let b = #[trigger] r@[k];
                &&& b.1 == 1 || b.1 == 2
                &&& b.1 == 2 <==> (b.0 + 1 < n && coupled@[b.0 as int])
                &&& k + 1 < r@.len() ==> r@[k + 1].0 == b.0 + b.1
            },
{
    proof {
        law_blocks_cover(coupled@, n as nat, 0);
    }
    let mut out: Vec<(usize, usize)> = Vec::new();
    let mut i: usize = 0;
    while i < n
        invariant
            coupled@.len() + 1 == n,
            i <= n + 1,
            i <= n || blocks_from(coupled@, n as nat, i as nat) == Seq::<(usize, usize)>::empty(),
            out@ + blocks_from(coupled@, n as nat, i as nat) == blocks_from(coupled@, n as nat, 0),
        decreases n + 1 - i,
    {
        if i + 1 < n && coupled[i] {
            out.push((i, 2));
            assert(out@ + blocks_from(coupled@, n as nat, (i + 2) as nat) =~= blocks_from(
                coupled@,
                n as nat,
                0,
            )) by {
                assert(blocks_from(coupled@, n as nat, i as nat) == seq![(i, 2usize)]
                    + blocks_from(coupled@, n as nat, (i + 2) as nat));
            }
            i = i + 2;
        } else {
            out.push((i, 1));
            assert(out@ + blocks_from(coupled@, n as nat, (i + 1) as nat) =~= blocks_from(
                coupled@,
                n as nat,
                0,
            )) by {
                assert(blocks_from(coupled@, n as nat, i as nat) == seq![(i, 1usize)]
                    + blocks_from(coupled@, n as nat, (i + 1) as nat));
            }
            i = i + 1;
        }
    }
    assert(blocks_from(coupled@, n as nat, i as nat) == Seq::<(usize, usize)>::empty());
    assert(out@ =~= out@ + Seq::<(usize, usize)>::empty());
    out
}

/// The blocks from position `i` on cover exactly the remaining `n - i`
/// diagonal positions, in order and without gaps: block `k` starts where
/// block `k - 1` ends, the last ends at `n`, and so an `n` x `n` form yields
/// `n` eigenvalues. A block has size 2 exactly when the subdiagonal entry
/// below its start is significant.
pub proof fn law_blocks_cover(coupled: Seq<bool>, n: nat, i: nat)
    requires
        i <= n,
        n <= usize::MAX,
    ensures
        total_size(blocks_from(coupled, n, i)) == n - i,
        blocks_from(coupled, n, i).len() > 0 ==> blocks_from(coupled, n, i)[0].0 == i,
        forall|k: int|
            0 <= k < blocks_from(coupled, n, i).len() ==> {
                let b = #[trigger] blocks_from(coupled, n, i)[k];
                &&& b.1 == 1 || b.1 == 2
                &&& b.1 == 2 <==> (b.0 + 1 < n && coupled[b.0 as int])
                &&& i <= b.0
                &&& b.0 + b.1 <= n
                &&& k + 1 < blocks_from(coupled, n, i).len() ==> blocks_from(coupled, n, i)[k
                    + 1].0 == b.0 + b.1
                &&& k + 1 == blocks_from(coupled, n, i).len() ==> b.0 + b.1 == n
            },
        i < n ==> blocks_from(coupled, n, i).len() > 0,
    decreases n - i,
{
    let bs = blocks_from(coupled, n, i);
    if i == n {
    } else {
        let step: nat = if i + 1 < n && coupled[i as int] {
            2
        } else {
            1
        };
        law_blocks_cover(coupled, n, i + step);
        let rest = blocks_from(coupled, n, i + step);
        assert(bs == seq![(i as usize, step as usize)] + rest);
        assert(bs.drop_first() =~= rest);
        assert forall|k: int| 0 <= k < bs.len() implies {
            let b = #[trigger] bs[k];
            &&& b.1 == 1 || b.1 == 2
            &&& b.1 == 2 <==> (b.0 + 1 < n && coupled[b.0 as int])
            &&& i <= b.0
            &&& b.0 + b.1 <= n
            &&& k + 1 < bs.len() ==> bs[k + 1].0 == b.0 + b.1
            &&& k + 1 == bs.len() ==> b.0 + b.1 == n
        } by {
            if k > 0 {
                assert(bs[k] == rest[k - 1]);
                if k + 1 < bs.len() {
                    assert(bs[k + 1] == rest[k]);
                }
            } else if bs.len() > 1 {
                assert(bs[1] == rest[0]);
            }
        }
    }
}

} // verus!
