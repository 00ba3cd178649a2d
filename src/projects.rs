//! Projects of a work queue, each with remaining work `h` and value `v`.
use vstd::prelude::*;
use vstd::arithmetic::power2::{lemma2_to64_rest, lemma_pow2_strictly_increases, lemma_pow2_unfold, pow2};

verus! {

#[derive(Clone, Copy, Debug, PartialEq, Eq, Structural)]
pub struct Project {
    pub h: usize,
    pub v: usize,
}

impl Project {
    /// Worth taking: it would be done within `2^boost_use_num` units of
    /// work, or it is worth more than the work it needs.
    pub fn is_good(&self, boost_use_num: usize) -> (r: bool)
        requires
            boost_use_num < 64,
        ensures
            r == (self.h < pow2(boost_use_num as nat) || self.v > self.h),
    {
        let mut p: u128 = 1;
        let mut k: usize = 0;
        proof {
            vstd::arithmetic::power2::lemma2_to64();
        }
        while k < boost_use_num
            invariant
                k <= boost_use_num,
                boost_use_num < 64,
                p == pow2(k as nat),
            decreases boost_use_num - k,
        {
            proof {
                lemma_pow2_unfold((k + 1) as nat);
                lemma_pow2_strictly_increases((k + 1) as nat, 64);
                lemma2_to64_rest();
            }
            p = p * 2;
            k += 1;
        }
        let done_soon = (self.h as u128) < p;
        let good_efficiency = self.v > self.h;
        done_soon || good_efficiency
    }

    /// Value minus remaining work.
    pub fn efficiency(&self) -> (r: isize)
        requires
            self.v <= isize::MAX,
            self.h <= isize::MAX,
        ensures
            r == self.v - self.h,
    {
        self.v as isize - self.h as isize
    }
}

} // verus!
