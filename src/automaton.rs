//! Rules of a cell automaton that walks a fixed path over an `n` by `n`
//! grid: every visit of the path gets its own (colour, state) pair.
use vstd::prelude::*;
use crate::cells::{dir_between, ith_square_coord, move_dir_from_1d, square_coord, Dir};

verus! {

/// What a rule writes: the new colour of the cell, the new state, the move.
#[derive(Clone, Copy, Debug)]
pub struct TransitionRule {
    pub new_color: usize,
    pub new_state: usize,
    pub dir: Dir,
}

/// A rule: in (colour, state), do `out_rule`.
#[derive(Clone, Copy, Debug)]
pub struct OutRule {
    pub in_rule: (usize, usize),
    pub out_rule: TransitionRule,
}

/// Numbers of colours and states, the initial colour of each cell, and the
/// rules.
pub struct Solution {
    pub color_num: usize,
    pub state_num: usize,
    pub init_colors: Vec<usize>,
    pub rules: Vec<OutRule>,
}

/// The layer of index `i` in the square order: the `m` with
/// `m * m <= i < (m + 1) * (m + 1)`.
pub open spec fn layer(i: int) -> int {
    choose|m: int| #[trigger] is_layer(i, m)
}

pub open spec fn is_layer(i: int, m: int) -> bool {
    0 <= m && m * m <= i < (m + 1) * (m + 1)
}

proof fn lemma_layer_unique(i: int, m: int)
    requires
        0 <= m && m * m <= i < (m + 1) * (m + 1),
    ensures
        layer(i) == m,
{
    assert(is_layer(i, m));
    let l = layer(i);
    assert(is_layer(i, l));
    if l < m {
        assert((l + 1) * (l + 1) <= m * m) by (nonlinear_arith)
            requires 0 <= l < m;
    } else if l > m {
        assert((m + 1) * (m + 1) <= l * l) by (nonlinear_arith)
            requires 0 <= m < l;
    }
}

/// The (colour, state) pair of visit `i` of a path of `len` cells, counted
/// from the path's end: the last visit gets (0, 0), the others the `i`-th
/// pair of the square order.
pub open spec fn visit_pair(len: int, i: int) -> (int, int) {
    if i == len - 1 {
        (0, 0)
    } else {
        square_coord(i, layer(i))
    }
}

/// The cell of visit `i`, counted from the path's end.
pub open spec fn visit_cell(paths: Seq<usize>, i: int) -> usize {
    paths[paths.len() - 1 - i]
}

/// The latest visit before visit `i` (visit 0 not counted) of cell `x`.
pub open spec fn last_visit(paths: Seq<usize>, x: usize, i: int) -> Option<int>
    decreases i,
{
    if i <= 1 {
        None
    } else if visit_cell(paths, i - 1) == x {
        Some(i - 1)
    } else {
        last_visit(paths, x, i - 1)
    }
}

/// The colour left on cell `x` by the visits before visit `i`.
pub open spec fn color_left(paths: Seq<usize>, x: usize, i: int) -> int {
    match last_visit(paths, x, i) {
        Some(j) => visit_pair(paths.len() as int, j).0,
        None => 0,
    }
}

pub open spec fn max_int(a: int, b: int) -> int {
    if a >= b { a } else { b }
}

/// The largest colour (`.0`) or state (`.1`) among visits `1..i`, and at
/// least 1.
pub open spec fn max_color(len: int, i: int) -> int
    decreases i,
{
    if i <= 1 {
        1
    } else {
        max_int(max_color(len, i - 1), visit_pair(len, i - 1).0)
    }
}

pub open spec fn max_state(len: int, i: int) -> int
    decreases i,
{
    if i <= 1 {
        1
    } else {
        max_int(max_state(len, i - 1), visit_pair(len, i - 1).1)
    }
}

pub open spec fn cell_of_index(x: int, n: int) -> (int, int) {
    (x / n, x % n)
}

/// Rule `t` of the automaton, for visit `i = t + 1` counted from the path's
/// end: in the visit's own pair, repaint the cell with the colour that the
/// earlier visits left there, take the previous visit's state, and move
/// towards the cell visited next along the path.
pub open spec fn rule_ok(paths: Seq<usize>, n: int, t: int, rule: OutRule) -> bool {
    let len = paths.len() as int;
    let i = t + 1;
    &&& (rule.in_rule.0 as int, rule.in_rule.1 as int) == visit_pair(len, i)
    &&& rule.out_rule.new_color == color_left(paths, visit_cell(paths, i), i)
    &&& rule.out_rule.new_state == (if i == 1 { 0 } else { visit_pair(len, i - 1).1 })
    &&& rule.out_rule.dir == dir_between(
        cell_of_index(visit_cell(paths, i) as int, n),
        cell_of_index(visit_cell(paths, i - 1) as int, n),
    )
}

/// Gives every visit of the path its own (colour, state) pair and writes
/// one rule per step, walking the path from its end back to its start.
pub fn solve_dumpling(n: usize, paths: &Vec<usize>) -> (r: Solution)
    requires
        n > 0,
        n * n <= usize::MAX,
        paths@.len() < usize::MAX / 2,
        forall|j: int| 0 <= j < paths@.len() ==> #[trigger] paths@[j] < n * n,
    ensures
        r.rules@.len() == (if paths@.len() == 0 { 0 } else { paths@.len() - 1 }),
        forall|t: int| 0 <= t < r.rules@.len() ==> rule_ok(paths@, n as int, t, #[trigger] r.rules@[t]),
        r.init_colors@.len() == n * n,
        forall|x: int| 0 <= x < n * n ==> #[trigger] r.init_colors@[x] == color_left(paths@, x as usize, paths@.len() as int),
        r.color_num == max_color(paths@.len() as int, paths@.len() as int) + 1,
        r.state_num == max_state(paths@.len() as int, paths@.len() as int) + 1,
{
    let grid_size_1d = n * n;
    let len = paths.len();
    let ghost lenv = len as int;
    let mut color_num: usize = 1;
    let mut state_num: usize = 1;
    let mut state_last: usize = 0;
    let mut rules: Vec<OutRule> = Vec::new();
    let mut last_pair: Vec<Option<(usize, usize)>> = Vec::new();
    let mut x: usize = 0;
    while x < grid_size_1d
        invariant
            x <= grid_size_1d,
            last_pair@.len() == x,
            forall|q: int| 0 <= q < x ==> #[trigger] last_pair@[q] is None,
        decreases grid_size_1d - x,
    {
        last_pair.push(None);
        x += 1;
    }
    let mut i: usize = 1;
    while i < len
        invariant
            1 <= i,
            i <= len || len == 0,
            i <= len + 1,
            len == paths@.len(),
            lenv == len as int,
            len < usize::MAX / 2,
            grid_size_1d == n * n,
            n > 0,
            forall|j: int| 0 <= j < paths@.len() ==> #[trigger] paths@[j] < n * n,
            last_pair@.len() == grid_size_1d,
            forall|q: int| 0 <= q < grid_size_1d ==> (#[trigger] last_pair@[q] is None <==> last_visit(paths@, q as usize, i as int) is None),
            forall|q: int| 0 <= q < grid_size_1d && (#[trigger] last_pair@[q]) is Some ==> (last_pair@[q].unwrap().0 as int, last_pair@[q].unwrap().1 as int)
                == visit_pair(lenv, last_visit(paths@, q as usize, i as int).unwrap()),
            rules@.len() == i - 1,
            forall|t: int| 0 <= t < rules@.len() ==> rule_ok(paths@, n as int, t, #[trigger] rules@[t]),
            state_last == (if i == 1 { 0 } else { visit_pair(lenv, i - 1).1 }),
            color_num == max_color(lenv, i as int),
            state_num == max_state(lenv, i as int),
            color_num <= i,
            state_num <= i,
        decreases len - i,
    {
        let c = paths[len - 1 - i];
        let new_color = match last_pair[c] {
            Some(cc) => cc.0,
            None => 0,
        };
        let new_state = state_last;
        let dir = move_dir_from_1d(paths[len - 1 - i], paths[len - i], n);
        let coord = if i == len - 1 {
            (0, 0)
        } else {
            let q = ith_square_coord(i);
            proof {
                let m = choose|m: int|
                    0 <= m && m * m <= i && i < (m + 1) * (m + 1) && (q.0 as int, q.1 as int) == square_coord(i as int, m);
                lemma_layer_unique(i as int, m);
                if m > 0 {
                    assert(i - m * m <= 2 * m) by (nonlinear_arith)
                        requires i < (m + 1) * (m + 1), 0 <= m;
                }
                assert(q.0 <= m && q.1 <= m);
                assert(m <= i) by (nonlinear_arith)
                    requires 0 <= m, m * m <= i;
            }
            q
        };
        proof {
            assert((coord.0 as int, coord.1 as int) == visit_pair(lenv, i as int));
            assert(coord.0 <= i && coord.1 <= i);
            assert(visit_cell(paths@, i as int) == c);
            assert(visit_cell(paths@, i as int - 1) == paths@[len - i]);
        }
        last_pair.set(c, Some(coord));
        rules.push(OutRule { in_rule: coord, out_rule: TransitionRule { new_color, new_state, dir } });
        state_last = coord.1;
        if coord.0 > color_num {
            color_num = coord.0;
        }
        if coord.1 > state_num {
            state_num = coord.1;
        }
        i += 1;
    }
    proof {
        assert forall|q: usize| true implies last_visit(paths@, q, i as int) == last_visit(paths@, q, len as int) by {
            if len == 0 {
                assert(last_visit(paths@, q, 1) is None);
                assert(last_visit(paths@, q, 0) is None);
            }
        }
    }
    let mut init_colors: Vec<usize> = Vec::new();
    let mut x: usize = 0;
    while x < grid_size_1d
        invariant
            x <= grid_size_1d,
            grid_size_1d == n * n,
            last_pair@.len() == grid_size_1d,
            lenv == len as int,
            len == paths@.len(),
            forall|q: int| 0 <= q < grid_size_1d ==> (#[trigger] last_pair@[q] is None <==> last_visit(paths@, q as usize, len as int) is None),
            forall|q: int| 0 <= q < grid_size_1d && (#[trigger] last_pair@[q]) is Some ==> (last_pair@[q].unwrap().0 as int, last_pair@[q].unwrap().1 as int)
                == visit_pair(lenv, last_visit(paths@, q as usize, len as int).unwrap()),
            init_colors@.len() == x,
            forall|q: int| 0 <= q < x ==> #[trigger] init_colors@[q] == color_left(paths@, q as usize, len as int),
        decreases grid_size_1d - x,
    {
        let col = match last_pair[x] {
            Some(p) => p.0,
            None => 0,
        };
        init_colors.push(col);
        x += 1;
    }
    Solution { color_num: color_num + 1, state_num: state_num + 1, init_colors, rules }
}

} // verus!
