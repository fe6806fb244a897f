//! Pairs of coordinates in the order in which the board is walked.

use itertools::Itertools;
use vstd::prelude::*;

verus! {

/// Every pair of one element of `outer` with one element of `inner`: the
/// pairs of the first outer element come first, and within one outer
/// element the inner elements keep their order.
pub open spec fn product_pairs(outer: Seq<u32>, inner: Seq<u32>) -> Seq<(u32, u32)> {
    Seq::new(
        outer.len() * inner.len(),
        |k: int| (outer[k / (inner.len() as int)], inner[k % (inner.len() as int)]),
    )
}

/// The numbers `0, 1, .., n - 1`.
pub open spec fn counting(n: nat) -> Seq<u32> {
    Seq::new(n, |i: int| i as u32)
}

/// Calls `Itertools::cartesian_product` on the two lists and gathers what
/// it yields with `Itertools::collect_vec`.
///
/// Trusted: the adaptor yields each element of the first iterator paired
/// with every element of the second in turn, restarting the second for
/// each element of the first, which is the order of [`product_pairs`].
#[verifier::external_body]
pub(crate) fn cartesian_product(outer: &Vec<u32>, inner: &Vec<u32>) -> (pairs: Vec<(u32, u32)>)
    requires
        outer@.len() * inner@.len() <= usize::MAX,
    ensures
        pairs@ == product_pairs(outer@, inner@),
{
    outer.iter().copied().cartesian_product(inner.iter().copied()).collect_vec()
}

/// The list `0, 1, .., n - 1`.
pub fn count_up(n: u32) -> (numbers: Vec<u32>)
    ensures
        numbers@ == counting(n as nat),
{
    let mut numbers: Vec<u32> = Vec::new();
    let mut i: u32 = 0;
    while i < n
        invariant
            i <= n,
            numbers@ == counting(i as nat),
        decreases n - i,
    {
        numbers.push(i);
        i += 1;
        assert(numbers@ =~= counting(i as nat));
    }
    numbers
}

} // verus!
