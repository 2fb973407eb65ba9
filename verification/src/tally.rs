//! Sums over sequences, kept within the range of the counters that hold them.

use vstd::prelude::*;

verus! {

/// The signed 64-bit integer nearest to `n`.
pub open spec fn clamp_i64(n: int) -> i64 {
    if n > i64::MAX {
        i64::MAX
    } else if n < i64::MIN {
        i64::MIN
    } else {
        n as i64
    }
}

/// The sum of `f` over the items of `s`.
pub open spec fn sum_of<A>(s: Seq<A>, f: spec_fn(A) -> int) -> int
    decreases s.len(),
{
    if s.len() == 0 {
        0
    } else {
        sum_of(s.drop_last(), f) + f(s.last())
    }
}

/// The sum over the first `k + 1` items is the sum over the first `k` and the next.
pub proof fn lemma_sum_take<A>(s: Seq<A>, k: int, f: spec_fn(A) -> int)
    requires
        0 <= k < s.len(),
    ensures
        sum_of(s.take(k + 1), f) == sum_of(s.take(k), f) + f(s[k]),
{
    assert(s.take(k + 1).drop_last() =~= s.take(k));
}

/// Computes `clamp_i64`.
pub fn clamp(n: i128) -> (r: i64)
    ensures
        r == clamp_i64(n as int),
{
    if n > 0x7fff_ffff_ffff_ffffi128 {
        0x7fff_ffff_ffff_ffffi64
    } else if n < -0x8000_0000_0000_0000i128 {
        -0x8000_0000_0000_0000i64
    } else {
        n as i64
    }
}

/// A length as a counter.
pub fn count(len: usize) -> (r: i64)
    ensures
        r == clamp_i64(len as int),
{
    clamp(len as i128)
}

} // verus!
