//! Rank tests behind controllability and observability: the numerical rank
//! is the number of singular values judged significant.

use vstd::prelude::*;

verus! {

/// How many entries of `flags` are `true`.
pub open spec fn count_true(flags: Seq<bool>) -> nat
    decreases flags.len(),
{
    if flags.len() == 0 {
        0
    } else {
        count_true(flags.drop_last()) + if flags.last() {
            1nat
        } else {
            0nat
        }
    }
}

/// The numerical rank: how many singular values are flagged significant.
pub fn count_significant(flags: &Vec<bool>) -> (r: usize)
    ensures
        r == count_true(flags@),
{
    let mut count: usize = 0;
    let mut i: usize = 0;
    while i < flags.len()
        invariant
            i <= flags@.len(),
            count == count_true(flags@.subrange(0, i as int)),
            count <= i,
        decreases flags@.len() - i,
    {
        assert(flags@.subrange(0, (i + 1) as int).drop_last() =~= flags@.subrange(0, i as int));
        if flags[i] {
            count = count + 1;
        }
        i = i + 1;
    }
    assert(flags@.subrange(0, i as int) =~= flags@);
    count
}

/// Whether the significant singular values number exactly `n`, the number of states.
pub fn has_full_rank(flags: &Vec<bool>, n: usize) -> (r: bool)
    ensures
        r == (count_true(flags@) == n),
{
    count_significant(flags) == n
}

/// The rank never exceeds the number of singular values.
pub proof fn law_rank_at_most_count(flags: Seq<bool>)
    ensures
        count_true(flags) <= flags.len(),
    decreases flags.len(),
{
    if flags.len() > 0 {
        law_rank_at_most_count(flags.drop_last());
    }
}

/// No flags count zero.
pub proof fn law_count_empty()
    ensures
        count_true(Seq::<bool>::empty()) == 0,
{
}

/// Appending a flag raises the count by one exactly when the flag is set.
pub proof fn law_count_push(flags: Seq<bool>, b: bool)
    ensures
        count_true(flags.push(b)) == count_true(flags) + if b {
            1nat
        } else {
            0nat
        },
{
    assert(flags.push(b).drop_last() =~= flags);
}

/// `n` set flags count `n`, and `n` clear flags count zero.
pub proof fn law_count_uniform(n: nat)
    ensures
        count_true(Seq::new(n, |_i: int| true)) == n,
        count_true(Seq::new(n, |_i: int| false)) == 0,
    decreases n,
{
    if n > 0 {
        law_count_uniform((n - 1) as nat);
        assert(Seq::new(n, |_i: int| true).drop_last() =~= Seq::new((n - 1) as nat, |_i: int| true));
        assert(Seq::new(n, |_i: int| false).drop_last() =~= Seq::new(
            (n - 1) as nat,
            |_i: int| false,
        ));
    }
}

/// The count is the number of positions holding a set flag: it equals the
/// size of the set of those positions.
pub proof fn law_count_is_number_of_set_positions(flags: Seq<bool>)
    ensures
        count_true(flags) == Set::new(|i: int| 0 <= i < flags.len() && flags[i]).len(),
        Set::new(|i: int| 0 <= i < flags.len() && flags[i]).finite(),
    decreases flags.len(),
{
    let s = Set::new(|i: int| 0 <= i < flags.len() && flags[i]);
    if flags.len() == 0 {
        assert(s =~= Set::<int>::empty());
    } else {
        let prev = flags.drop_last();
        let k = flags.len() - 1;
        law_count_is_number_of_set_positions(prev);
        let t = Set::new(|i: int| 0 <= i < prev.len() && prev[i]);
        if flags.last() {
            assert(s =~= t.insert(k));
            assert(!t.contains(k));
        } else {
            assert(s =~= t);
        }
    }
}

} // verus!
