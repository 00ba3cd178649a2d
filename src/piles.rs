//! Cards dealt onto piles, and how far each pile is from its target height.
use vstd::prelude::*;

verus! {

/// Number of cards.
pub const CARD_NUM: usize = 500;

/// Number of piles.
pub const PILE_NUM: usize = 50;

/// Height of pile `j` from the first `upto` cards; card `i` goes on pile
/// `distributed_to[i] - 1`, or nowhere when `distributed_to[i]` is 0.
pub open spec fn pile_sum(an: Seq<i64>, distributed_to: Seq<usize>, j: int, upto: int) -> int
    decreases upto,
{
    if upto <= 0 {
        0
    } else {
        pile_sum(an, distributed_to, j, upto - 1) + (if distributed_to[upto - 1] == j + 1 {
            an[upto - 1] as int
        } else {
            0
        })
    }
}

pub open spec fn abs_int(x: int) -> int {
    if x >= 0 { x } else { -x }
}

/// Sum over the first `k` piles of the distance between target and height.
pub open spec fn pile_error(an: Seq<i64>, bm: Seq<i64>, distributed_to: Seq<usize>, k: int) -> int
    decreases k,
{
    if k <= 0 {
        0
    } else {
        pile_error(an, bm, distributed_to, k - 1) + abs_int(bm[k - 1] - pile_sum(an, distributed_to, k - 1, CARD_NUM as int))
    }
}

pub open spec fn deal_ok(an: Seq<i64>, distributed_to: Seq<usize>) -> bool {
    &&& an.len() >= CARD_NUM
    &&& distributed_to.len() >= CARD_NUM
    &&& forall|i: int| 0 <= i < CARD_NUM ==> #[trigger] distributed_to[i] <= PILE_NUM
    &&& forall|j: int, u: int|
        0 <= j < PILE_NUM && 0 <= u <= CARD_NUM ==> i64::MIN <= #[trigger] pile_sum(an, distributed_to, j, u) <= i64::MAX
}

/// The height of every pile.
pub fn _calc_mountains(an: &Vec<i64>, distributed_to: &Vec<usize>) -> (r: Vec<i64>)
    requires
        deal_ok(an@, distributed_to@),
    ensures
        r@.len() == PILE_NUM,
        forall|j: int| 0 <= j < PILE_NUM ==> #[trigger] r@[j] == pile_sum(an@, distributed_to@, j, CARD_NUM as int),
{
    let mut ret: Vec<i64> = vec![0; PILE_NUM];
    let mut i: usize = 0;
    while i < CARD_NUM
        invariant
            i <= CARD_NUM,
            deal_ok(an@, distributed_to@),
            ret@.len() == PILE_NUM,
            forall|j: int| 0 <= j < PILE_NUM ==> #[trigger] ret@[j] == pile_sum(an@, distributed_to@, j, i as int),
        decreases CARD_NUM - i,
    {
        let d = distributed_to[i];
        if d != 0 {
            assert(pile_sum(an@, distributed_to@, d - 1, i as int + 1) == pile_sum(an@, distributed_to@, d - 1, i as int) + an@[i as int]);
            ret.set(d - 1, ret[d - 1] + an[i]);
        }
        i += 1;
    }
    ret
}

/// Sum over the piles of the distance between target `bm[j]` and height.
pub fn calc_score(an: &Vec<i64>, bm: &Vec<i64>, distributed_to: &Vec<usize>) -> (r: i64)
    requires
        deal_ok(an@, distributed_to@),
        bm@.len() >= PILE_NUM,
        pile_error(an@, bm@, distributed_to@, PILE_NUM as int) <= i64::MAX,
    ensures
        r == pile_error(an@, bm@, distributed_to@, PILE_NUM as int),
{
    let mountains = _calc_mountains(an, distributed_to);
    let mut ret: i128 = 0;
    let mut j: usize = 0;
    while j < PILE_NUM
        invariant
            j <= PILE_NUM,
            deal_ok(an@, distributed_to@),
            bm@.len() >= PILE_NUM,
            mountains@.len() == PILE_NUM,
            forall|q: int| 0 <= q < PILE_NUM ==> #[trigger] mountains@[q] == pile_sum(an@, distributed_to@, q, CARD_NUM as int),
            ret == pile_error(an@, bm@, distributed_to@, j as int),
            0 <= ret <= j as int * 0x2_0000_0000_0000_0000,
        decreases PILE_NUM - j,
    {
        let diff = bm[j] as i128 - mountains[j] as i128;
        let a = if diff >= 0 { diff } else { -diff };
        ret = ret + a;
        j += 1;
    }
    ret as i64
}

} // verus!
