//! Walking between cards laid out on an open square grid.
use vstd::prelude::*;
use std::collections::VecDeque;

verus! {

/// The cell one step from `p` in direction `dir`, with wrapping arithmetic
/// and no bounds check.
pub open spec fn step_wrapping(p: (usize, usize), dir: char) -> (usize, usize) {
    if dir == 'U' {
        ((if p.0 == 0 { usize::MAX as int } else { p.0 - 1 }) as usize, p.1)
    } else if dir == 'D' {
        ((if p.0 == usize::MAX { 0 } else { p.0 + 1 }) as usize, p.1)
    } else if dir == 'L' {
        (p.0, (if p.1 == 0 { usize::MAX as int } else { p.1 - 1 }) as usize)
    } else {
        (p.0, (if p.1 == usize::MAX { 0 } else { p.1 + 1 }) as usize)
    }
}

pub fn next_pos_wo_check(cur_pos: (usize, usize), dir: char) -> (r: (usize, usize))
    requires
        dir == 'U' || dir == 'D' || dir == 'L' || dir == 'R',
    ensures
        r == step_wrapping(cur_pos, dir),
{
    if dir == 'U' {
        (if cur_pos.0 == 0 { usize::MAX } else { cur_pos.0 - 1 }, cur_pos.1)
    } else if dir == 'D' {
        (if cur_pos.0 == usize::MAX { 0 } else { cur_pos.0 + 1 }, cur_pos.1)
    } else if dir == 'L' {
        (cur_pos.0, if cur_pos.1 == 0 { usize::MAX } else { cur_pos.1 - 1 })
    } else {
        (cur_pos.0, if cur_pos.1 == usize::MAX { 0 } else { cur_pos.1 + 1 })
    }
}

pub open spec fn repeat_char(c: char, n: nat) -> Seq<char> {
    Seq::new(n, |_i: int| c)
}

/// All vertical steps, then all horizontal steps, from `a` to `b`.
pub open spec fn plain_route(a: (usize, usize), b: (usize, usize)) -> Seq<char> {
    (if b.0 < a.0 {
        repeat_char('U', (a.0 - b.0) as nat)
    } else {
        repeat_char('D', (b.0 - a.0) as nat)
    }) + (if b.1 < a.1 {
        repeat_char('L', (a.1 - b.1) as nat)
    } else {
        repeat_char('R', (b.1 - a.1) as nat)
    })
}

fn push_chars(ans: &mut Vec<char>, c: char, n: usize)
    ensures
        final(ans)@ == old(ans)@ + repeat_char(c, n as nat),
{
    let ghost start = ans@;
    let mut k: usize = 0;
    while k < n
        invariant
            k <= n,
            ans@ == start + repeat_char(c, k as nat),
        decreases n - k,
    {
        ans.push(c);
        k += 1;
        assert(ans@ =~= start + repeat_char(c, k as nat));
    }
}

/// The moves from `start_pos` to `goal_pos` on a grid without obstacles.
pub fn shortest_path_plain(start_pos: (usize, usize), goal_pos: (usize, usize)) -> (r: Vec<char>)
    ensures
        r@ == plain_route(start_pos, goal_pos),
{
    let mut ans: Vec<char> = Vec::new();
    if goal_pos.0 < start_pos.0 {
        push_chars(&mut ans, 'U', start_pos.0 - goal_pos.0);
    } else {
        push_chars(&mut ans, 'D', goal_pos.0 - start_pos.0);
    }
    if goal_pos.1 < start_pos.1 {
        push_chars(&mut ans, 'L', start_pos.1 - goal_pos.1);
    } else {
        push_chars(&mut ans, 'R', goal_pos.1 - start_pos.1);
    }
    assert(ans@ =~= plain_route(start_pos, goal_pos));
    ans
}

/// The moves from `cur_pos` to the cell of card `card_no`.
pub fn shortest_path(cur_pos: (usize, usize), card_no: usize, card_pos: &Vec<(usize, usize)>) -> (r: Vec<char>)
    requires
        card_no < card_pos@.len(),
    ensures
        r@ == plain_route(cur_pos, card_pos@[card_no as int]),
{
    shortest_path_plain(cur_pos, card_pos[card_no])
}

pub open spec fn dist(a: (usize, usize), b: (usize, usize)) -> int {
    (if a.0 >= b.0 { a.0 - b.0 } else { b.0 - a.0 }) + (if a.1 >= b.1 { a.1 - b.1 } else { b.1 - a.1 })
}

/// Which of the two cells of a card pair is nearer to `cur_pos`: 0 for the
/// first (also on ties), 1 for the second.
pub fn choose_side_id(cur_pos: (usize, usize), card_pos0: (usize, usize), card_pos1: (usize, usize)) -> (r: u8)
    ensures
        r == (if dist(cur_pos, card_pos0) <= dist(cur_pos, card_pos1) { 0u8 } else { 1u8 }),
{
    let a0: u128 = if cur_pos.0 >= card_pos0.0 { (cur_pos.0 - card_pos0.0) as u128 } else { (card_pos0.0 - cur_pos.0) as u128 };
    let b0: u128 = if cur_pos.1 >= card_pos0.1 { (cur_pos.1 - card_pos0.1) as u128 } else { (card_pos0.1 - cur_pos.1) as u128 };
    let a1: u128 = if cur_pos.0 >= card_pos1.0 { (cur_pos.0 - card_pos1.0) as u128 } else { (card_pos1.0 - cur_pos.0) as u128 };
    let b1: u128 = if cur_pos.1 >= card_pos1.1 { (cur_pos.1 - card_pos1.1) as u128 } else { (card_pos1.1 - cur_pos.1) as u128 };
    if a0 + b0 <= a1 + b1 {
        0
    } else {
        1
    }
}

/// Visiting the cards of `deck` from its back to its front, starting at
/// `start`: the moves to each card's cell, each followed by a `'Z'`.
pub open spec fn pairs_route(start: (usize, usize), deck: Seq<(usize, (usize, usize))>) -> Seq<char>
    decreases deck.len(),
{
    if deck.len() == 0 {
        Seq::empty()
    } else {
        let t = deck.last().1;
        plain_route(start, t) + seq!['Z'] + pairs_route(t, deck.drop_last())
    }
}

/// The moves of `pairs_route`, the `'Z'`s not counted.
pub open spec fn pairs_moves(start: (usize, usize), deck: Seq<(usize, (usize, usize))>) -> int
    decreases deck.len(),
{
    if deck.len() == 0 {
        0
    } else {
        let t = deck.last().1;
        plain_route(start, t).len() + pairs_moves(t, deck.drop_last())
    }
}

/// Where `pairs_route` ends.
pub open spec fn pairs_end(start: (usize, usize), deck: Seq<(usize, (usize, usize))>) -> (usize, usize) {
    if deck.len() == 0 {
        start
    } else {
        deck[0].1
    }
}

proof fn lemma_pairs_moves_nonneg(start: (usize, usize), deck: Seq<(usize, (usize, usize))>)
    ensures
        pairs_moves(start, deck) >= 0,
    decreases deck.len(),
{
    if deck.len() > 0 {
        lemma_pairs_moves_nonneg(deck.last().1, deck.drop_last());
    }
}

proof fn lemma_pairs_step(start: (usize, usize), deck: Seq<(usize, (usize, usize))>)
    requires
        deck.len() > 0,
    ensures
        pairs_end(deck.last().1, deck.drop_last()) == pairs_end(start, deck),
{
}

/// Takes the cards of `deck` from its back, walking to each one's cell and
/// turning it with `'Z'`; counts the moves in `cur_move_len`.
pub fn make_pairs_move(
    ans: &mut Vec<char>,
    cur_move_len: &mut usize,
    deck: &mut VecDeque<(usize, (usize, usize))>,
    cur_pos: &mut (usize, usize),
)
    requires
        *old(cur_move_len) + pairs_moves(*old(cur_pos), old(deck)@) <= usize::MAX,
    ensures
        final(deck)@.len() == 0,
        final(ans)@ == old(ans)@ + pairs_route(*old(cur_pos), old(deck)@),
        *final(cur_move_len) == *old(cur_move_len) + pairs_moves(*old(cur_pos), old(deck)@),
        *final(cur_pos) == pairs_end(*old(cur_pos), old(deck)@),
{
    let ghost start_ans = ans@;
    let ghost start_pos = *cur_pos;
    let ghost start_deck = deck@;
    let ghost start_len = *cur_move_len;
    while deck.len() > 0
        invariant
            start_ans + pairs_route(start_pos, start_deck) == ans@ + pairs_route(*cur_pos, deck@),
            start_len + pairs_moves(start_pos, start_deck) == *cur_move_len + pairs_moves(*cur_pos, deck@),
            start_len + pairs_moves(start_pos, start_deck) <= usize::MAX,
            pairs_end(start_pos, start_deck) == pairs_end(*cur_pos, deck@),
            *cur_move_len >= 0,
        decreases deck@.len(),
    {
        let ghost d = deck@;
        let (_card_no, target_pos) = deck.pop_back().unwrap();
        assert(deck@ == d.drop_last());
        let p = shortest_path_plain(*cur_pos, target_pos);
        proof {
            lemma_pairs_step(*cur_pos, d);
            lemma_pairs_moves_nonneg(target_pos, deck@);
        }
        let ghost pos0 = *cur_pos;
        let ghost ans0 = ans@;
        let ghost len0 = *cur_move_len;
        assert(pairs_moves(pos0, d) == p@.len() + pairs_moves(target_pos, deck@));
        let mut q: usize = 0;
        while q < p.len()
            invariant
                q <= p@.len(),
                ans@ == ans0 + p@.take(q as int),
                *cur_move_len == len0 + q,
                len0 + p@.len() + pairs_moves(target_pos, deck@) <= usize::MAX,
                pairs_moves(target_pos, deck@) >= 0,
            decreases p@.len() - q,
        {
            ans.push(p[q]);
            *cur_move_len += 1;
            q += 1;
            assert(ans@ =~= ans0 + p@.take(q as int));
        }
        ans.push('Z');
        *cur_pos = target_pos;
        proof {
            assert(p@.take(p@.len() as int) =~= p@);
            assert(pairs_route(pos0, d) == plain_route(pos0, target_pos) + seq!['Z'] + pairs_route(target_pos, deck@));
            assert(ans@ + pairs_route(target_pos, deck@) =~= ans0 + pairs_route(pos0, d));
        }
    }
    assert(ans@ + pairs_route(*cur_pos, deck@) =~= ans@);
}

} // verus!
