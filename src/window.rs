//! Summing a window of buckets and deciding admission.
use vstd::prelude::*;

verus! {

/// The outcome of an admission check.
#[derive(Clone, Copy, Debug, PartialEq, Eq, Structural)]
pub enum Decision {
    /// The cost fits in the quota and is counted.
    Admitted,
    /// The cost would exceed the quota; nothing is counted.
    Rejected,
}

/// The sum of a sequence of counts.
pub open spec fn count_sum(s: Seq<u32>) -> nat
    decreases s.len(),
{
    if s.len() == 0 {
        0
    } else {
        count_sum(s.drop_last()) + s.last() as nat
    }
}

/// The cost in the window if `size` more is admitted: the current bucket's
/// count, the cost asked for, and the counts of the window's other buckets.
pub open spec fn window_total(current: nat, size: nat, others: Seq<u32>) -> nat {
    current + size + count_sum(others)
}

/// A check is admitted exactly when the window's total stays within `rate_max`.
pub open spec fn decision_of(current: nat, size: nat, others: Seq<u32>, rate_max: nat) -> Decision {
    if window_total(current, size, others) <= rate_max {
        Decision::Admitted
    } else {
        Decision::Rejected
    }
}

proof fn lemma_sum_grows(s: Seq<u32>, i: int)
    requires
        0 <= i <= s.len(),
    ensures
        count_sum(s.take(i)) <= count_sum(s),
    decreases s.len() - i,
{
    if i < s.len() {
        lemma_sum_grows(s, i + 1);
        assert(s.take(i + 1).drop_last() =~= s.take(i));
    } else {
        assert(s.take(i) =~= s);
    }
}

/// Decides whether `size` more fits under `rate_max`, given the current
/// bucket's count and the counts of the window's other buckets.
pub fn decide(current: u32, size: u32, others: &Vec<u32>, rate_max: u32) -> (r: Decision)
    ensures
        r == decision_of(current as nat, size as nat, others@, rate_max as nat),
{
    let mut sum: u64 = current as u64 + size as u64;
    let mut i: usize = 0;
    while i < others.len()
        invariant
            i <= others@.len(),
            sum == current + size + count_sum(others@.take(i as int)),
            sum <= 2 * 0xffff_ffffu64,
        decreases others@.len() - i,
    {
        if sum > rate_max as u64 {
            proof {
                lemma_sum_grows(others@, i as int);
            }
            return Decision::Rejected;
        }
        assert(others@.take(i + 1).drop_last() =~= others@.take(i as int));
        sum = sum + others[i] as u64;
        i = i + 1;
    }
    assert(others@.take(i as int) =~= others@);
    if sum > rate_max as u64 {
        Decision::Rejected
    } else {
        Decision::Admitted
    }
}

} // verus!
