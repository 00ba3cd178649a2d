//! Sizing the search over placements of polyominoes on an `n` by `n` field.
use vstd::prelude::*;

verus! {

/// Placements that the enumeration may try at most.
pub const ENUM_LIMIT: u64 = 200_000_000;

pub open spec fn pow(b: int, e: nat) -> int
    decreases e,
{
    if e == 0 {
        1
    } else {
        b * pow(b, (e - 1) as nat)
    }
}

proof fn lemma_pow_pos(b: int, e: nat)
    requires
        b >= 1,
    ensures
        pow(b, e) >= 1,
    decreases e,
{
    if e > 0 {
        lemma_pow_pos(b, (e - 1) as nat);
        assert(b * pow(b, (e - 1) as nat) >= 1) by (nonlinear_arith)
            requires b >= 1, pow(b, (e - 1) as nat) >= 1;
    }
}

proof fn lemma_pow_grows(b: int, e1: nat, e2: nat)
    requires
        b >= 1,
        e1 <= e2,
    ensures
        pow(b, e1) <= pow(b, e2),
    decreases e2 - e1,
{
    if e1 < e2 {
        lemma_pow_grows(b, e1, (e2 - 1) as nat);
        lemma_pow_pos(b, (e2 - 1) as nat);
        assert(pow(b, (e2 - 1) as nat) <= b * pow(b, (e2 - 1) as nat)) by (nonlinear_arith)
            requires b >= 1, pow(b, (e2 - 1) as nat) >= 1;
    }
}

/// Whether placing every polyomino of `p` at every cell stays within
/// `ENUM_LIMIT`, checked with one more factor of `n * n` of room: true when
/// there is no polyomino, or when `(n * n)^(p.len() + 1)` is within the limit.
pub fn could_enumerate(n: usize, p: &Vec<Vec<(usize, usize)>>) -> (r: bool)
    requires
        n < 65536,
    ensures
        r == (p@.len() == 0 || pow(n * n, (p@.len() + 1) as nat) <= ENUM_LIMIT),
{
    assert((n as u64) * (n as u64) < 0x1_0000_0000) by (nonlinear_arith)
        requires n < 65536;
    let nn: u64 = (n as u64) * (n as u64);
    let mut ptrn: u64 = 1;
    let mut k: usize = 0;
    while k < p.len()
        invariant
            k <= p@.len(),
            nn == n * n,
            nn < 0x1_0000_0000,
            ptrn == pow(nn as int, k as nat),
            ptrn <= ENUM_LIMIT,
            k > 0 ==> pow(nn as int, (k + 1) as nat) <= ENUM_LIMIT,
        decreases p@.len() - k,
    {
        assert(ptrn * nn <= ENUM_LIMIT * 0x1_0000_0000) by (nonlinear_arith)
            requires ptrn <= ENUM_LIMIT, nn < 0x1_0000_0000;
        ptrn = ptrn * nn;
        assert(pow(nn as int, (k + 1) as nat) == nn * pow(nn as int, k as nat));
        assert((ptrn as u128) * (nn as u128) <= ENUM_LIMIT * 0x1_0000_0000 * 0x1_0000_0000) by (nonlinear_arith)
            requires ptrn <= ENUM_LIMIT * 0x1_0000_0000, nn < 0x1_0000_0000;
        if ptrn as u128 * nn as u128 > ENUM_LIMIT as u128 {
            proof {
                assert(nn >= 1) by (nonlinear_arith)
                    requires ptrn * nn > ENUM_LIMIT;
                assert(pow(nn as int, (k + 2) as nat) == nn * pow(nn as int, (k + 1) as nat));
                lemma_pow_grows(nn as int, (k + 2) as nat, (p@.len() + 1) as nat);
            }
            return false;
        }
        proof {
            assert(pow(nn as int, (k + 2) as nat) == nn * pow(nn as int, (k + 1) as nat));
            if nn >= 1 {
                lemma_pow_grows(nn as int, (k + 1) as nat, (k + 2) as nat);
            } else {
                assert(nn * pow(nn as int, k as nat) == 0) by (nonlinear_arith)
                    requires nn == 0;
            }
        }
        k += 1;
    }
    proof {
        if p@.len() > 0 {
            assert(pow(nn as int, (p@.len() + 1) as nat) <= ENUM_LIMIT);
        }
    }
    true
}

/// Whether every cell is either impossible or certain: its count of
/// placements covering it is 0 or all `candidates_num` of them.
pub fn could_answer_w_possible_map(candidates_num: usize, ptrn_map: &Vec<Vec<usize>>) -> (r: bool)
    requires
        forall|i: int| 0 <= i < ptrn_map@.len() ==> (#[trigger] ptrn_map@[i])@.len() >= ptrn_map@.len(),
    ensures
        r == forall|i: int, j: int|
            0 <= i < ptrn_map@.len() && 0 <= j < ptrn_map@.len() ==> #[trigger] ptrn_map@[i]@[j] == 0
                || ptrn_map@[i]@[j] == candidates_num,
{
    let n = ptrn_map.len();
    let mut i: usize = 0;
    while i < n
        invariant
            i <= n,
            n == ptrn_map@.len(),
            forall|a: int| 0 <= a < ptrn_map@.len() ==> (#[trigger] ptrn_map@[a])@.len() >= ptrn_map@.len(),
            forall|a: int, b: int|
                0 <= a < i && 0 <= b < n ==> #[trigger] ptrn_map@[a]@[b] == 0 || ptrn_map@[a]@[b] == candidates_num,
        decreases n - i,
    {
        let mut j: usize = 0;
        while j < n
            invariant
                i < n,
                j <= n,
                n == ptrn_map@.len(),
                ptrn_map@[i as int]@.len() >= n,
                forall|b: int| 0 <= b < j ==> #[trigger] ptrn_map@[i as int]@[b] == 0 || ptrn_map@[i as int]@[b] == candidates_num,
            decreases n - j,
        {
            if ptrn_map[i][j] != 0 && ptrn_map[i][j] != candidates_num {
                return false;
            }
            j += 1;
        }
        i += 1;
    }
    true
}

} // verus!
