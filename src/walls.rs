//! A robot on a square grid with walls between neighbouring cells.
use vstd::prelude::*;

verus! {

/// Side length of the walled grid.
pub const WALL_GRID: usize = 30;

/// One robot operation: a step in one of four directions, or staying.
#[derive(Clone, Copy, Debug, PartialEq, Eq, Structural)]
pub enum Operation {
    L,
    R,
    U,
    D,
    S,
}

impl Operation {
    pub open spec fn spec_dir(self) -> (isize, isize) {
        match self {
            Operation::L => (0, -1isize),
            Operation::R => (0, 1),
            Operation::U => (-1isize, 0),
            Operation::D => (1, 0),
            Operation::S => (0, 0),
        }
    }

    /// The (row, column) offset of the operation.
    pub fn dir(&self) -> (r: (isize, isize))
        ensures
            r == self.spec_dir(),
    {
        match self {
            Operation::L => (0, -1),
            Operation::R => (0, 1),
            Operation::U => (-1, 0),
            Operation::D => (1, 0),
            Operation::S => (0, 0),
        }
    }
}

/// `vn[i][j]` is `'1'` when a wall separates (i, j) from (i, j + 1);
/// `hn[i][j]` is `'1'` when a wall separates (i, j) from (i + 1, j).
pub open spec fn walls_ok(vn: Seq<Vec<char>>, hn: Seq<Vec<char>>) -> bool {
    &&& vn.len() == WALL_GRID
    &&& forall|i: int| 0 <= i < WALL_GRID ==> (#[trigger] vn[i])@.len() == WALL_GRID - 1
    &&& hn.len() == WALL_GRID - 1
    &&& forall|i: int| 0 <= i < WALL_GRID - 1 ==> (#[trigger] hn[i])@.len() == WALL_GRID
}


pub open spec fn min_int(a: int, b: int) -> int {
    if a <= b { a } else { b }
}

/// Whether a robot at `v` may move by `d`: the target is on the grid and no
/// wall lies across the row change (checked at the upper row) nor across the
/// column change (checked at the left column).
pub open spec fn passable(v: (usize, usize), d: (isize, isize), vn: Seq<Vec<char>>, hn: Seq<Vec<char>>) -> bool {
    let ni = v.0 + d.0;
    let nj = v.1 + d.1;
    let is = min_int(v.0 as int, ni);
    let js = min_int(v.1 as int, nj);
    &&& 0 <= ni < WALL_GRID && 0 <= nj < WALL_GRID
    &&& !(ni != v.0 && hn[is]@[js] == '1')
    &&& !(nj != v.1 && vn[is]@[js] == '1')
}

pub fn could_move(vcur: (usize, usize), dij: (isize, isize), vn: &Vec<Vec<char>>, hn: &Vec<Vec<char>>) -> (r: bool)
    requires
        vcur.0 < WALL_GRID && vcur.1 < WALL_GRID,
        walls_ok(vn@, hn@),
    ensures
        r == passable(vcur, dij, vn@, hn@),
{
    let ni_w: i128 = vcur.0 as i128 + dij.0 as i128;
    let nj_w: i128 = vcur.1 as i128 + dij.1 as i128;
    if ni_w < 0 || nj_w < 0 || ni_w >= WALL_GRID as i128 || nj_w >= WALL_GRID as i128 {
        return false;
    }
    let ni = ni_w as usize;
    let nj = nj_w as usize;
    let is = if vcur.0 <= ni { vcur.0 } else { ni };
    let js = if vcur.1 <= nj { vcur.1 } else { nj };
    if (vcur.0 != ni && hn[is][js] == '1') || (vcur.1 != nj && vn[is][js] == '1') {
        return false;
    }
    true
}

/// Where a robot at `vcur` ends after trying to move by `dij`: the target
/// when the move is possible, else where it stood.
pub fn move_pos(vcur: (usize, usize), dij: (isize, isize), vn: &Vec<Vec<char>>, hn: &Vec<Vec<char>>) -> (r: (
    usize,
    usize,
))
    requires
        vcur.0 < WALL_GRID && vcur.1 < WALL_GRID,
        walls_ok(vn@, hn@),
    ensures
        passable(vcur, dij, vn@, hn@) ==> r.0 == vcur.0 + dij.0 && r.1 == vcur.1 + dij.1,
        !passable(vcur, dij, vn@, hn@) ==> r == vcur,
{
    if !could_move(vcur, dij, vn, hn) {
        return vcur;
    }
    ((vcur.0 as i128 + dij.0 as i128) as usize, (vcur.1 as i128 + dij.1 as i128) as usize)
}

/// The `k`-th cell of the snake order that starts in the corner `vbegin`
/// heading along `dir`: lane `k / WALL_GRID` runs across the heading, and
/// within it every other lane runs backwards.
pub open spec fn snake_cell(vbegin: (usize, usize), dir: (isize, isize), k: int) -> (usize, usize) {
    let n = WALL_GRID as int;
    let i = k / n;
    let j_raw = k % n;
    let j = if i % 2 == 0 { j_raw } else { n - 1 - j_raw };
    if dir.0 == 0 {
        let r = if vbegin.0 == 0 { i } else { n - 1 - i };
        let c = if dir.1 > 0 { j } else { n - 1 - j };
        (r as usize, c as usize)
    } else {
        let c = if vbegin.1 == 0 { i } else { n - 1 - i };
        let r = if dir.0 > 0 { j } else { n - 1 - j };
        (r as usize, c as usize)
    }
}

/// The order in which a robot starting at `vbegin` and first heading along
/// `dir` sweeps the grid, lane by lane; `None` when that first step leaves
/// the grid.
pub fn goal_order(vbegin: (usize, usize), dir: (isize, isize)) -> (r: Option<Vec<(usize, usize)>>)
    ensures
        r is None <==> !(0 <= vbegin.0 + dir.0 < WALL_GRID && 0 <= vbegin.1 + dir.1 < WALL_GRID),
        r is Some ==> r.unwrap()@.len() == WALL_GRID * WALL_GRID && forall|k: int|
            0 <= k < WALL_GRID * WALL_GRID ==> #[trigger] r.unwrap()@[k] == snake_cell(vbegin, dir, k),
{
    let ni: i128 = vbegin.0 as i128 + dir.0 as i128;
    let nj: i128 = vbegin.1 as i128 + dir.1 as i128;
    if ni < 0 || nj < 0 || ni >= WALL_GRID as i128 || nj >= WALL_GRID as i128 {
        return None;
    }
    let n = WALL_GRID;
    let mut ret: Vec<(usize, usize)> = Vec::new();
    let mut i: usize = 0;
    while i < n
        invariant
            n == WALL_GRID,
            i <= n,
            ret@.len() == i * n,
            forall|k: int| 0 <= k < i * n ==> #[trigger] ret@[k] == snake_cell(vbegin, dir, k),
        decreases n - i,
    {
        let mut j_raw: usize = 0;
        while j_raw < n
            invariant
                n == WALL_GRID,
                i < n,
                j_raw <= n,
                ret@.len() == i * n + j_raw,
                forall|k: int| 0 <= k < i * n + j_raw ==> #[trigger] ret@[k] == snake_cell(vbegin, dir, k),
            decreases n - j_raw,
        {
            let j = if i % 2 == 0 { j_raw } else { n - 1 - j_raw };
            let (r, c) = if dir.0 == 0 {
                (if vbegin.0 == 0 { i } else { n - 1 - i }, if dir.1 > 0 { j } else { n - 1 - j })
            } else {
                (if dir.0 > 0 { j } else { n - 1 - j }, if vbegin.1 == 0 { i } else { n - 1 - i })
            };
            proof {
                let k = i * n + j_raw;
                assert(k / WALL_GRID as int == i && k % WALL_GRID as int == j_raw) by (nonlinear_arith)
                    requires k == i * n + j_raw, j_raw < n, n == WALL_GRID, i < n;
            }
            ret.push((r, c));
            j_raw += 1;
        }
        i += 1;
    }
    Some(ret)
}

} // verus!
