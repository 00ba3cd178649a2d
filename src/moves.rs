//! Legality of a single crane step, and the two route planners.
use vstd::prelude::*;
use crate::crane::{BoardStatus, CraneMove, CraneStatus, Pos, CONTAINER_NUM, CRANE_NUM, GRID_SIZE};

verus! {

/// A board with `GRID_SIZE` rows of `GRID_SIZE` cells.
pub open spec fn board_ok(board: Seq<Vec<BoardStatus>>) -> bool {
    board.len() == GRID_SIZE && forall|i: int| 0 <= i < GRID_SIZE ==> (#[trigger] board[i])@.len()
        == GRID_SIZE
}

pub open spec fn in_grid(p: (int, int)) -> bool {
    0 <= p.0 < GRID_SIZE && 0 <= p.1 < GRID_SIZE
}

/// The cell one step away in the direction of `mv`; other actions stay put.
pub open spec fn shift(p: (int, int), mv: CraneMove) -> (int, int) {
    match mv {
        CraneMove::Up => (p.0 - 1, p.1),
        CraneMove::Down => (p.0 + 1, p.1),
        CraneMove::Left => (p.0, p.1 - 1),
        CraneMove::Right => (p.0, p.1 + 1),
        _ => p,
    }
}

pub open spec fn as_int(p: Pos) -> (int, int) {
    (p.0 as int, p.1 as int)
}

/// Whether crane `c` stands at `p`.
pub open spec fn stands_at(c: CraneStatus, p: (int, int)) -> bool {
    match c.spec_pos() {
        Some(q) => as_int(q) == p,
        None => false,
    }
}

/// Whether another crane, now in state `now` and a turn ago in `prev`, keeps a
/// crane at `from` from stepping onto `np`: it stands there, or the step would
/// exchange the two cranes' cells.
pub open spec fn blocks(now: CraneStatus, prev: CraneStatus, from: (int, int), np: (int, int)) -> bool {
    stands_at(now, np) || (stands_at(prev, np) && stands_at(now, from))
}

/// Whether crane `id`, standing at `from`, may take action `mv` this turn.
/// Only steps can be illegal: off the board, onto another crane, a swap with
/// another crane, or a loaded small crane onto a container.
pub open spec fn movable(
    id: int,
    from: (int, int),
    mv: CraneMove,
    board: Seq<Vec<BoardStatus>>,
    now: Seq<CraneStatus>,
    prev: Seq<CraneStatus>,
) -> bool {
    let np = shift(from, mv);
    !mv.is_step() || (in_grid(np) && (forall|i: int|
        0 <= i < CRANE_NUM && i != id ==> !#[trigger] blocks(now[i], prev[i], from, np))
        && !(now[id] is SmallLift && board[np.0]@[np.1] != BoardStatus::Empty))
}

/// The cell one step from `p` in the direction of `mv`.
pub fn next_pos(p: Pos, mv: CraneMove) -> (r: Pos)
    requires
        mv.is_step(),
        in_grid(shift(as_int(p), mv)),
    ensures
        as_int(r) == shift(as_int(p), mv),
{
    match mv {
        CraneMove::Up => (p.0 - 1, p.1),
        CraneMove::Down => (p.0 + 1, p.1),
        CraneMove::Left => (p.0, p.1 - 1),
        _ => (p.0, p.1 + 1),
    }
}

/// Decides `movable`: the one rule on which every planner and the driver rely.
pub fn could_move(
    crane_id: usize,
    move_from: Pos,
    mv: CraneMove,
    board: &Vec<Vec<BoardStatus>>,
    cranes_now: &Vec<CraneStatus>,
    cranes_prev: &Vec<CraneStatus>,
) -> (r: bool)
    requires
        crane_id < CRANE_NUM,
        board_ok(board@),
        cranes_now@.len() == CRANE_NUM,
        cranes_prev@.len() == CRANE_NUM,
    ensures
        r == movable(crane_id as int, as_int(move_from), mv, board@, cranes_now@, cranes_prev@),
{
    let ghost npi = shift(as_int(move_from), mv);
    let np: Pos = match mv {
        CraneMove::Up => {
            if move_from.0 == 0 || move_from.0 > GRID_SIZE || move_from.1 >= GRID_SIZE {
                return false;
            }
            (move_from.0 - 1, move_from.1)
        },
        CraneMove::Down => {
            if move_from.0 >= GRID_SIZE - 1 || move_from.1 >= GRID_SIZE {
                return false;
            }
            (move_from.0 + 1, move_from.1)
        },
        CraneMove::Left => {
            if move_from.1 == 0 || move_from.1 > GRID_SIZE || move_from.0 >= GRID_SIZE {
                return false;
            }
            (move_from.0, move_from.1 - 1)
        },
        CraneMove::Right => {
            if move_from.1 >= GRID_SIZE - 1 || move_from.0 >= GRID_SIZE {
                return false;
            }
            (move_from.0, move_from.1 + 1)
        },
        _ => {
            return true;
        },
    };
    assert(as_int(np) == npi && mv.is_step());
    let mut i: usize = 0;
    while i < CRANE_NUM
        invariant
            0 <= i <= CRANE_NUM,
            cranes_now@.len() == CRANE_NUM,
            cranes_prev@.len() == CRANE_NUM,
            as_int(np) == npi,
            in_grid(npi),
            mv.is_step(),
            npi == shift(as_int(move_from), mv),
            board_ok(board@),
            forall|k: int|
                0 <= k < i && k != crane_id ==> !#[trigger] blocks(
                    cranes_now@[k],
                    cranes_prev@[k],
                    as_int(move_from),
                    npi,
                ),
        decreases CRANE_NUM - i,
    {
        if i != crane_id {
            if let Some(other) = cranes_now[i].pos() {
                if other.0 == np.0 && other.1 == np.1 {
                    assert(blocks(cranes_now@[i as int], cranes_prev@[i as int], as_int(move_from), npi));
                    return false;
                }
            }
            if let Some(other_prev) = cranes_prev[i].pos() {
                if other_prev.0 == np.0 && other_prev.1 == np.1 {
                    if let Some(other) = cranes_now[i].pos() {
                        if other.0 == move_from.0 && other.1 == move_from.1 {
                            assert(blocks(cranes_now@[i as int], cranes_prev@[i as int], as_int(move_from), npi));
                            return false;
                        }
                    }
                }
            }
        }
        i += 1;
    }
    if let CraneStatus::SmallLift(_, _) = cranes_now[crane_id] {
        if board[np.0][np.1] != BoardStatus::Empty {
            return false;
        }
    }
    true
}

/// Whether a container may be put down at `pos`.
pub fn could_drop(pos: Pos, board: &Vec<Vec<BoardStatus>>) -> (r: bool)
    requires
        board_ok(board@),
        in_grid(as_int(pos)),
    ensures
        r == (board@[pos.0 as int]@[pos.1 as int] == BoardStatus::Empty),
{
    board[pos.0][pos.1] == BoardStatus::Empty
}

/// Where a crane starting at `p` ends after the actions of `path`.
pub open spec fn walk_end(p: (int, int), path: Seq<CraneMove>) -> (int, int)
    decreases path.len(),
{
    if path.len() == 0 {
        p
    } else {
        shift(walk_end(p, path.drop_last()), path.last())
    }
}

/// Every action of `path`, taken in turn from `from` on an unchanging board and
/// crane snapshot, is legal for crane `id`.
pub open spec fn valid_walk(
    id: int,
    from: (int, int),
    path: Seq<CraneMove>,
    board: Seq<Vec<BoardStatus>>,
    now: Seq<CraneStatus>,
    prev: Seq<CraneStatus>,
) -> bool {
    forall|j: int|
        0 <= j < path.len() ==> #[trigger] movable(
            id,
            walk_end(from, path.take(j)),
            path[j],
            board,
            now,
            prev,
        )
}

pub open spec fn repeat(mv: CraneMove, n: nat) -> Seq<CraneMove> {
    Seq::new(n, |_i: int| mv)
}

/// The vertical part of a direct route from row `a` to row `b`.
pub open spec fn vertical_route(a: int, b: int) -> Seq<CraneMove> {
    if a > b {
        repeat(CraneMove::Up, (a - b) as nat)
    } else {
        repeat(CraneMove::Down, (b - a) as nat)
    }
}

/// The horizontal part of a direct route from column `a` to column `b`.
pub open spec fn horizontal_route(a: int, b: int) -> Seq<CraneMove> {
    if a > b {
        repeat(CraneMove::Left, (a - b) as nat)
    } else {
        repeat(CraneMove::Right, (b - a) as nat)
    }
}

/// All vertical steps toward the target row, then all horizontal steps.
pub open spec fn direct_route(from: Pos, to: Pos) -> Seq<CraneMove> {
    vertical_route(from.0 as int, to.0 as int) + horizontal_route(from.1 as int, to.1 as int)
}

pub open spec fn abs_diff(a: int, b: int) -> int {
    if a >= b {
        a - b
    } else {
        b - a
    }
}

pub open spec fn manhattan(a: (int, int), b: (int, int)) -> int {
    abs_diff(a.0, b.0) + abs_diff(a.1, b.1)
}

/// Walking `a` then `b` ends where walking `b` from the end of `a` does.
pub proof fn lemma_walk_concat(p: (int, int), a: Seq<CraneMove>, b: Seq<CraneMove>)
    ensures
        walk_end(p, a + b) == walk_end(walk_end(p, a), b),
    decreases b.len(),
{
    if b.len() == 0 {
        assert(a + b =~= a);
    } else {
        lemma_walk_concat(p, a, b.drop_last());
        assert((a + b).drop_last() =~= a + b.drop_last());
    }
}

/// `n` steps in one direction move `n` cells that way.
pub proof fn lemma_walk_repeat(p: (int, int), mv: CraneMove, n: nat)
    ensures
        walk_end(p, repeat(mv, n)) == (match mv {
            CraneMove::Up => (p.0 - n, p.1),
            CraneMove::Down => (p.0 + n, p.1),
            CraneMove::Left => (p.0, p.1 - n),
            CraneMove::Right => (p.0, p.1 + n),
            _ => p,
        }),
    decreases n,
{
    if n > 0 {
        lemma_walk_repeat(p, mv, (n - 1) as nat);
        assert(repeat(mv, n).drop_last() =~= repeat(mv, (n - 1) as nat));
    }
}

/// The direct route from `from` reaches `to`, in as many actions as the
/// Manhattan distance between them.
pub proof fn lemma_direct_route_reaches(from: Pos, to: Pos)
    ensures
        walk_end(as_int(from), direct_route(from, to)) == as_int(to),
        direct_route(from, to).len() == manhattan(as_int(from), as_int(to)),
{
    let v = vertical_route(from.0 as int, to.0 as int);
    let h = horizontal_route(from.1 as int, to.1 as int);
    lemma_walk_concat(as_int(from), v, h);
    if from.0 > to.0 {
        lemma_walk_repeat(as_int(from), CraneMove::Up, (from.0 - to.0) as nat);
    } else {
        lemma_walk_repeat(as_int(from), CraneMove::Down, (to.0 - from.0) as nat);
    }
    let mid = walk_end(as_int(from), v);
    if from.1 > to.1 {
        lemma_walk_repeat(mid, CraneMove::Left, (from.1 - to.1) as nat);
    } else {
        lemma_walk_repeat(mid, CraneMove::Right, (to.1 - from.1) as nat);
    }
}

fn push_repeated(ret: &mut Vec<CraneMove>, mv: CraneMove, n: usize)
    ensures
        final(ret)@ == old(ret)@ + repeat(mv, n as nat),
{
    let ghost start = ret@;
    let mut k: usize = 0;
    while k < n
        invariant
            k <= n,
            ret@ == start + repeat(mv, k as nat),
        decreases n - k,
    {
        ret.push(mv);
        k += 1;
        assert(ret@ =~= start + repeat(mv, k as nat));
    }
}

/// Route for a crane that may pass over containers: the direct route.
pub fn min_move(move_from: Pos, move_to: Pos) -> (r: Vec<CraneMove>)
    ensures
        r@ == direct_route(move_from, move_to),
        forall|k: int| 0 <= k < r@.len() ==> (#[trigger] r@[k]).is_step(),
        walk_end(as_int(move_from), r@) == as_int(move_to),
        r@.len() == manhattan(as_int(move_from), as_int(move_to)),
{
    let mut ret: Vec<CraneMove> = Vec::new();
    if move_from.0 > move_to.0 {
        push_repeated(&mut ret, CraneMove::Up, move_from.0 - move_to.0);
    } else {
        push_repeated(&mut ret, CraneMove::Down, move_to.0 - move_from.0);
    }
    if move_from.1 > move_to.1 {
        push_repeated(&mut ret, CraneMove::Left, move_from.1 - move_to.1);
    } else {
        push_repeated(&mut ret, CraneMove::Right, move_to.1 - move_from.1);
    }
    proof {
        assert(ret@ =~= direct_route(move_from, move_to));
        lemma_direct_route_reaches(move_from, move_to);
    }
    ret
}

/// A legal walk extended by one more legal action stays legal.
pub proof fn lemma_walk_push(
    id: int,
    from: (int, int),
    path: Seq<CraneMove>,
    mv: CraneMove,
    board: Seq<Vec<BoardStatus>>,
    now: Seq<CraneStatus>,
    prev: Seq<CraneStatus>,
)
    requires
        valid_walk(id, from, path, board, now, prev),
        movable(id, walk_end(from, path), mv, board, now, prev),
    ensures
        valid_walk(id, from, path.push(mv), board, now, prev),
        walk_end(from, path.push(mv)) == shift(walk_end(from, path), mv),
{
    let q = path.push(mv);
    assert(q.drop_last() =~= path);
    assert forall|j: int| 0 <= j < q.len() implies #[trigger] movable(
        id,
        walk_end(from, q.take(j)),
        q[j],
        board,
        now,
        prev,
    ) by {
        if j < path.len() {
            assert(q.take(j) =~= path.take(j));
            assert(movable(id, walk_end(from, path.take(j)), path[j], board, now, prev));
        } else {
            assert(q.take(j) =~= path);
        }
    }
}

/// The cell of index `k` on a row-major numbering of the board.
pub open spec fn cell_of(k: int) -> (int, int) {
    (k / GRID_SIZE as int, k % GRID_SIZE as int)
}

fn copy_moves(v: &Vec<CraneMove>) -> (r: Vec<CraneMove>)
    ensures
        r@ == v@,
{
    let mut r: Vec<CraneMove> = Vec::new();
    let mut i: usize = 0;
    while i < v.len()
        invariant
            i <= v@.len(),
            r@ == v@.take(i as int),
        decreases v@.len() - i,
    {
        r.push(v[i]);
        i += 1;
        assert(r@ =~= v@.take(i as int));
    }
    assert(v@.take(v@.len() as int) =~= v@);
    r
}

/// The four step actions, in the order in which the planners try them.
pub open spec fn spec_step_dir(d: int) -> CraneMove {
    if d == 0 {
        CraneMove::Up
    } else if d == 1 {
        CraneMove::Down
    } else if d == 2 {
        CraneMove::Left
    } else {
        CraneMove::Right
    }
}

pub fn step_dir(d: usize) -> (r: CraneMove)
    requires
        d < 4,
    ensures
        r.is_step(),
        r == spec_step_dir(d as int),
{
    if d == 0 {
        CraneMove::Up
    } else if d == 1 {
        CraneMove::Down
    } else if d == 2 {
        CraneMove::Left
    } else {
        CraneMove::Right
    }
}

/// Crane `id` can go from `p` to `c` in one legal step.
pub open spec fn one_step(
    id: int,
    p: (int, int),
    c: (int, int),
    board: Seq<Vec<BoardStatus>>,
    now: Seq<CraneStatus>,
    prev: Seq<CraneStatus>,
) -> bool {
    exists|d: int| 0 <= d < 4 && #[trigger] movable(id, p, spec_step_dir(d), board, now, prev) && shift(p, spec_step_dir(d)) == c
}

/// Crane `id` can go from `from` to `c` by at most `r` legal actions on an
/// unchanging snapshot.
pub open spec fn reach_within(
    id: int,
    from: (int, int),
    c: (int, int),
    r: nat,
    board: Seq<Vec<BoardStatus>>,
    now: Seq<CraneStatus>,
    prev: Seq<CraneStatus>,
) -> bool {
    exists|w: Seq<CraneMove>| #[trigger] valid_walk(id, from, w, board, now, prev) && w.len() <= r && walk_end(from, w) == c
}

/// A prefix of a legal walk is a legal walk.
proof fn lemma_walk_drop_last(
    id: int,
    from: (int, int),
    w: Seq<CraneMove>,
    board: Seq<Vec<BoardStatus>>,
    now: Seq<CraneStatus>,
    prev: Seq<CraneStatus>,
)
    requires
        w.len() > 0,
        valid_walk(id, from, w, board, now, prev),
    ensures
        valid_walk(id, from, w.drop_last(), board, now, prev),
        movable(id, walk_end(from, w.drop_last()), w.last(), board, now, prev),
{
    let v = w.drop_last();
    assert forall|j: int| 0 <= j < v.len() implies #[trigger] movable(id, walk_end(from, v.take(j)), v[j], board, now, prev) by {
        assert(v.take(j) =~= w.take(j));
        assert(movable(id, walk_end(from, w.take(j)), w[j], board, now, prev));
    }
    assert(w.take(w.len() - 1) =~= v);
    assert(movable(id, walk_end(from, w.take(w.len() - 1)), w[w.len() - 1], board, now, prev));
}

proof fn lemma_walk_in_grid(
    id: int,
    from: (int, int),
    w: Seq<CraneMove>,
    board: Seq<Vec<BoardStatus>>,
    now: Seq<CraneStatus>,
    prev: Seq<CraneStatus>,
)
    requires
        in_grid(from),
        valid_walk(id, from, w, board, now, prev),
    ensures
        in_grid(walk_end(from, w)),
    decreases w.len(),
{
    if w.len() > 0 {
        lemma_walk_drop_last(id, from, w, board, now, prev);
        lemma_walk_in_grid(id, from, w.drop_last(), board, now, prev);
    }
}

pub proof fn lemma_reach_grows(
    id: int,
    from: (int, int),
    c: (int, int),
    a: nat,
    b: nat,
    board: Seq<Vec<BoardStatus>>,
    now: Seq<CraneStatus>,
    prev: Seq<CraneStatus>,
)
    requires
        a <= b,
        reach_within(id, from, c, a, board, now, prev),
    ensures
        reach_within(id, from, c, b, board, now, prev),
{
    let w = choose|w: Seq<CraneMove>| #[trigger] valid_walk(id, from, w, board, now, prev) && w.len() <= a && walk_end(from, w) == c;
    assert(valid_walk(id, from, w, board, now, prev) && w.len() <= b && walk_end(from, w) == c);
}

proof fn lemma_reach_step(
    id: int,
    from: (int, int),
    p: (int, int),
    c: (int, int),
    r: nat,
    board: Seq<Vec<BoardStatus>>,
    now: Seq<CraneStatus>,
    prev: Seq<CraneStatus>,
)
    requires
        reach_within(id, from, p, r, board, now, prev),
        one_step(id, p, c, board, now, prev),
    ensures
        reach_within(id, from, c, (r + 1) as nat, board, now, prev),
{
    let w = choose|w: Seq<CraneMove>| #[trigger] valid_walk(id, from, w, board, now, prev) && w.len() <= r && walk_end(from, w) == p;
    let d = choose|d: int| 0 <= d < 4 && #[trigger] movable(id, p, spec_step_dir(d), board, now, prev) && shift(p, spec_step_dir(d)) == c;
    lemma_walk_push(id, from, w, spec_step_dir(d), board, now, prev);
    let w2 = w.push(spec_step_dir(d));
    assert(valid_walk(id, from, w2, board, now, prev) && w2.len() <= r + 1 && walk_end(from, w2) == c);
}

proof fn lemma_reach_split(
    id: int,
    from: (int, int),
    c: (int, int),
    r: nat,
    board: Seq<Vec<BoardStatus>>,
    now: Seq<CraneStatus>,
    prev: Seq<CraneStatus>,
) -> (p: (int, int))
    requires
        reach_within(id, from, c, (r + 1) as nat, board, now, prev),
        !reach_within(id, from, c, r, board, now, prev),
    ensures
        reach_within(id, from, p, r, board, now, prev),
        one_step(id, p, c, board, now, prev),
{
    let w = choose|w: Seq<CraneMove>| #[trigger] valid_walk(id, from, w, board, now, prev) && w.len() <= r + 1 && walk_end(from, w) == c;
    if w.len() <= r {
        assert(valid_walk(id, from, w, board, now, prev) && w.len() <= r && walk_end(from, w) == c);
    }
    assert(w.len() == r + 1);
    lemma_walk_drop_last(id, from, w, board, now, prev);
    let v = w.drop_last();
    let p = walk_end(from, v);
    assert(valid_walk(id, from, v, board, now, prev) && v.len() <= r && walk_end(from, v) == p);
    let mv = w.last();
    assert(walk_end(from, w) == shift(p, mv));
    if !mv.is_step() {
        assert(shift(p, mv) == p);
        assert(valid_walk(id, from, v, board, now, prev) && v.len() <= r && walk_end(from, v) == c);
    }
    let d: int = if mv is Up { 0 } else if mv is Down { 1 } else if mv is Left { 2 } else { 3 };
    assert(spec_step_dir(d) == mv);
    assert(movable(id, p, spec_step_dir(d), board, now, prev) && shift(p, spec_step_dir(d)) == c);
    p
}

proof fn lemma_reach_in_grid(
    id: int,
    from: (int, int),
    c: (int, int),
    r: nat,
    board: Seq<Vec<BoardStatus>>,
    now: Seq<CraneStatus>,
    prev: Seq<CraneStatus>,
)
    requires
        in_grid(from),
        reach_within(id, from, c, r, board, now, prev),
    ensures
        in_grid(c),
{
    let w = choose|w: Seq<CraneMove>| #[trigger] valid_walk(id, from, w, board, now, prev) && w.len() <= r && walk_end(from, w) == c;
    lemma_walk_in_grid(id, from, w, board, now, prev);
}

pub open spec fn cell_index(c: (int, int)) -> int {
    c.0 * GRID_SIZE + c.1
}

/// Every legal step from cell `m` leads to a cell already reached.
pub open spec fn neighbours_reached(
    id: int,
    m: int,
    reached: Seq<bool>,
    board: Seq<Vec<BoardStatus>>,
    now: Seq<CraneStatus>,
    prev: Seq<CraneStatus>,
) -> bool {
    forall|d: int| 0 <= d < 4 && #[trigger] movable(id, cell_of(m), spec_step_dir(d), board, now, prev)
        ==> reached[cell_index(shift(cell_of(m), spec_step_dir(d)))]
}

/// Route for a loaded small crane, which may not pass over containers: a
/// breadth-first search over legal steps on the current snapshot. A route that
/// comes back is legal step by step, ends at `move_to`, and is as short as any
/// legal route; an empty one means that the crane is there already or that no
/// legal route of at most `CONTAINER_NUM` steps (every route on this board
/// can be shortened to that) exists.
pub fn min_move_small_lift(
    crane_id: usize,
    move_from: Pos,
    move_to: Pos,
    board: &Vec<Vec<BoardStatus>>,
    cranes: &Vec<CraneStatus>,
    cranes_prev: &Vec<CraneStatus>,
) -> (r: Vec<CraneMove>)
    requires
        crane_id < CRANE_NUM,
        board_ok(board@),
        cranes@.len() == CRANE_NUM,
        cranes_prev@.len() == CRANE_NUM,
        in_grid(as_int(move_from)),
        in_grid(as_int(move_to)),
    ensures
        r@.len() <= CONTAINER_NUM,
        forall|k: int| 0 <= k < r@.len() ==> (#[trigger] r@[k]).is_step(),
        r@.len() > 0 ==> valid_walk(crane_id as int, as_int(move_from), r@, board@, cranes@, cranes_prev@)
            && walk_end(as_int(move_from), r@) == as_int(move_to)
            && !reach_within(crane_id as int, as_int(move_from), as_int(move_to), (r@.len() - 1) as nat, board@, cranes@, cranes_prev@),
        r@.len() == 0 ==> move_from == move_to || !reach_within(
            crane_id as int,
            as_int(move_from),
            as_int(move_to),
            CONTAINER_NUM as nat,
            board@,
            cranes@,
            cranes_prev@,
        ),
{
    let ghost from = as_int(move_from);
    let ghost id = crane_id as int;
    let ghost bd = board@;
    let ghost cn = cranes@;
    let ghost cp = cranes_prev@;
    if move_from.0 == move_to.0 && move_from.1 == move_to.1 {
        return Vec::new();
    }
    let mut reached: Vec<bool> = Vec::new();
    let mut paths: Vec<Vec<CraneMove>> = Vec::new();
    let mut k: usize = 0;
    while k < CONTAINER_NUM
        invariant
            k <= CONTAINER_NUM,
            reached@.len() == k,
            paths@.len() == k,
            forall|m: int| 0 <= m < k ==> !reached@[m],
            forall|m: int| 0 <= m < k ==> (#[trigger] paths@[m])@.len() == 0,
        decreases CONTAINER_NUM - k,
    {
        reached.push(false);
        paths.push(Vec::new());
        k += 1;
    }
    let start = move_from.0 * GRID_SIZE + move_from.1;
    let goal = move_to.0 * GRID_SIZE + move_to.1;
    reached.set(start, true);
    proof {
        assert(cell_of(start as int) == from);
        assert(paths@[start as int]@ =~= Seq::<CraneMove>::empty());
        assert(walk_end(from, Seq::<CraneMove>::empty()) == from);
        assert(valid_walk(id, from, Seq::<CraneMove>::empty(), bd, cn, cp));
        assert(reach_within(id, from, from, 0, bd, cn, cp));
        assert forall|m: int| 0 <= m < CONTAINER_NUM && reach_within(id, from, #[trigger] cell_of(m), 0, bd, cn, cp) implies reached@[m] by {
            let w = choose|w: Seq<CraneMove>| #[trigger] valid_walk(id, from, w, bd, cn, cp) && w.len() <= 0 && walk_end(from, w) == cell_of(m);
            assert(w.len() == 0);
            assert(cell_of(m) == from);
            assert(m == start as int);
        }
    }
    let mut round: usize = 0;
    while round < CONTAINER_NUM
        invariant
            round <= CONTAINER_NUM,
            reached@.len() == CONTAINER_NUM,
            paths@.len() == CONTAINER_NUM,
            board_ok(board@),
            cranes@.len() == CRANE_NUM,
            cranes_prev@.len() == CRANE_NUM,
            crane_id < CRANE_NUM,
            goal < CONTAINER_NUM,
            cell_of(goal as int) == as_int(move_to),
            !reached@[goal as int],
            in_grid(from),
            id == crane_id as int,
            from == as_int(move_from),
            bd == board@,
            cn == cranes@,
            cp == cranes_prev@,
            forall|m: int, q: int| 0 <= m < CONTAINER_NUM && 0 <= q < paths@[m]@.len() ==> (#[trigger] paths@[m]@[q]).is_step(),
            forall|m: int|
                0 <= m < CONTAINER_NUM && #[trigger] reached@[m] ==> valid_walk(id, from, paths@[m]@, bd, cn, cp)
                    && walk_end(from, paths@[m]@) == cell_of(m) && paths@[m]@.len() <= round
                    && reach_within(id, from, cell_of(m), paths@[m]@.len() as nat, bd, cn, cp)
                    && (paths@[m]@.len() == 0 || !reach_within(id, from, cell_of(m), (paths@[m]@.len() - 1) as nat, bd, cn, cp)),
            forall|m: int|
                0 <= m < CONTAINER_NUM && reach_within(id, from, #[trigger] cell_of(m), round as nat, bd, cn, cp) ==> reached@[m],
            forall|m: int|
                0 <= m < CONTAINER_NUM && #[trigger] reached@[m] && paths@[m]@.len() < round ==> neighbours_reached(id, m, reached@, bd, cn, cp),
        decreases CONTAINER_NUM - round,
    {
        let mut k: usize = 0;
        while k < CONTAINER_NUM
            invariant
                round < CONTAINER_NUM,
                k <= CONTAINER_NUM,
                reached@.len() == CONTAINER_NUM,
                paths@.len() == CONTAINER_NUM,
                board_ok(board@),
                cranes@.len() == CRANE_NUM,
                cranes_prev@.len() == CRANE_NUM,
                crane_id < CRANE_NUM,
                goal < CONTAINER_NUM,
                cell_of(goal as int) == as_int(move_to),
                !reached@[goal as int],
                in_grid(from),
                id == crane_id as int,
                from == as_int(move_from),
                bd == board@,
                cn == cranes@,
                cp == cranes_prev@,
                forall|m: int, q: int| 0 <= m < CONTAINER_NUM && 0 <= q < paths@[m]@.len() ==> (#[trigger] paths@[m]@[q]).is_step(),
                forall|m: int|
                    0 <= m < CONTAINER_NUM && #[trigger] reached@[m] ==> valid_walk(id, from, paths@[m]@, bd, cn, cp)
                        && walk_end(from, paths@[m]@) == cell_of(m) && paths@[m]@.len() <= round + 1
                        && reach_within(id, from, cell_of(m), paths@[m]@.len() as nat, bd, cn, cp)
                        && (paths@[m]@.len() == 0 || !reach_within(id, from, cell_of(m), (paths@[m]@.len() - 1) as nat, bd, cn, cp)),
                forall|m: int|
                    0 <= m < CONTAINER_NUM && reach_within(id, from, #[trigger] cell_of(m), round as nat, bd, cn, cp) ==> reached@[m],
                forall|m: int|
                    0 <= m < CONTAINER_NUM && #[trigger] reached@[m] && (paths@[m]@.len() < round || (paths@[m]@.len() == round && m < k))
                        ==> neighbours_reached(id, m, reached@, bd, cn, cp),
            decreases CONTAINER_NUM - k,
        {
            if reached[k] && paths[k].len() == round {
                let cur: Pos = (k / GRID_SIZE, k % GRID_SIZE);
                let ghost len = round as int;
                let mut d: usize = 0;
                while d < 4
                    invariant
                        round < CONTAINER_NUM,
                        k < CONTAINER_NUM,
                        d <= 4,
                        reached@[k as int],
                        paths@[k as int]@.len() == round,
                        as_int(cur) == cell_of(k as int),
                        reached@.len() == CONTAINER_NUM,
                        paths@.len() == CONTAINER_NUM,
                        board_ok(board@),
                        cranes@.len() == CRANE_NUM,
                        cranes_prev@.len() == CRANE_NUM,
                        crane_id < CRANE_NUM,
                        goal < CONTAINER_NUM,
                        cell_of(goal as int) == as_int(move_to),
                        !reached@[goal as int],
                        in_grid(from),
                        id == crane_id as int,
                        from == as_int(move_from),
                        bd == board@,
                        cn == cranes@,
                        cp == cranes_prev@,
                        forall|m: int, q: int| 0 <= m < CONTAINER_NUM && 0 <= q < paths@[m]@.len() ==> (#[trigger] paths@[m]@[q]).is_step(),
                        forall|m: int|
                            0 <= m < CONTAINER_NUM && #[trigger] reached@[m] ==> valid_walk(id, from, paths@[m]@, bd, cn, cp)
                                && walk_end(from, paths@[m]@) == cell_of(m) && paths@[m]@.len() <= round + 1
                                && reach_within(id, from, cell_of(m), paths@[m]@.len() as nat, bd, cn, cp)
                                && (paths@[m]@.len() == 0 || !reach_within(id, from, cell_of(m), (paths@[m]@.len() - 1) as nat, bd, cn, cp)),
                        forall|m: int|
                            0 <= m < CONTAINER_NUM && reach_within(id, from, #[trigger] cell_of(m), round as nat, bd, cn, cp) ==> reached@[m],
                        forall|m: int|
                            0 <= m < CONTAINER_NUM && #[trigger] reached@[m] && (paths@[m]@.len() < round || (paths@[m]@.len() == round && m < k))
                                ==> neighbours_reached(id, m, reached@, bd, cn, cp),
                        forall|e: int| 0 <= e < d && #[trigger] movable(id, cell_of(k as int), spec_step_dir(e), bd, cn, cp)
                            ==> reached@[cell_index(shift(cell_of(k as int), spec_step_dir(e)))],
                    decreases 4 - d,
                {
                    let mv = step_dir(d);
                    if could_move(crane_id, cur, mv, board, cranes, cranes_prev) {
                        let np = next_pos(cur, mv);
                        let ni = np.0 * GRID_SIZE + np.1;
                        proof {
                            assert(cell_of(ni as int) == as_int(np));
                            assert(cell_index(shift(cell_of(k as int), spec_step_dir(d as int))) == ni as int);
                        }
                        if !reached[ni] {
                            let mut p = copy_moves(&paths[k]);
                            let ghost pk = paths@[k as int]@;
                            proof {
                                assert(reached@[k as int]);
                                lemma_walk_push(id, from, pk, mv, bd, cn, cp);
                                assert(one_step(id, cell_of(k as int), cell_of(ni as int), bd, cn, cp)) by {
                                    assert(movable(id, cell_of(k as int), spec_step_dir(d as int), bd, cn, cp));
                                }
                                assert(reach_within(id, from, cell_of(k as int), round as nat, bd, cn, cp));
                                lemma_reach_step(id, from, cell_of(k as int), cell_of(ni as int), round as nat, bd, cn, cp);
                                assert(!reach_within(id, from, cell_of(ni as int), round as nat, bd, cn, cp));
                            }
                            p.push(mv);
                            if ni == goal {
                                return p;
                            }
                            let ghost pv = p@;
                            let ghost before = reached@;
                            paths.set(ni, p);
                            reached.set(ni, true);
                            proof {
                                assert(paths@[ni as int]@ == pv);
                                assert forall|m: int|
                                    0 <= m < CONTAINER_NUM && #[trigger] reached@[m] && (paths@[m]@.len() < round || (paths@[m]@.len() == round && m < k))
                                        implies neighbours_reached(id, m, reached@, bd, cn, cp) by {
                                    assert(m != ni as int);
                                    assert(neighbours_reached(id, m, before, bd, cn, cp));
                                    assert forall|e: int| 0 <= e < 4 && #[trigger] movable(id, cell_of(m), spec_step_dir(e), bd, cn, cp)
                                        implies reached@[cell_index(shift(cell_of(m), spec_step_dir(e)))] by {
                                        assert(before[cell_index(shift(cell_of(m), spec_step_dir(e)))]);
                                    }
                                }
                            }
                        }
                    }
                    d += 1;
                }
                proof {
                    assert(neighbours_reached(id, k as int, reached@, bd, cn, cp));
                }
            }
            k += 1;
        }
        proof {
            assert forall|m: int|
                0 <= m < CONTAINER_NUM && reach_within(id, from, #[trigger] cell_of(m), (round + 1) as nat, bd, cn, cp) implies reached@[m] by {
                if !reach_within(id, from, cell_of(m), round as nat, bd, cn, cp) {
                    let p = lemma_reach_split(id, from, cell_of(m), round as nat, bd, cn, cp);
                    lemma_reach_in_grid(id, from, p, round as nat, bd, cn, cp);
                    let q = cell_index(p);
                    assert(cell_of(q) == p);
                    assert(reached@[q]);
                    let lq = paths@[q]@.len();
                    if lq > round {
                        lemma_reach_grows(id, from, p, round as nat, (lq - 1) as nat, bd, cn, cp);
                    }
                    assert(neighbours_reached(id, q, reached@, bd, cn, cp));
                    let d = choose|d: int| 0 <= d < 4 && #[trigger] movable(id, p, spec_step_dir(d), bd, cn, cp) && shift(p, spec_step_dir(d)) == cell_of(m);
                    assert(reached@[cell_index(shift(cell_of(q), spec_step_dir(d)))]);
                    assert(cell_index(cell_of(m)) == m);
                }
            }
        }
        round += 1;
    }
    proof {
        assert(!reach_within(id, from, cell_of(goal as int), CONTAINER_NUM as nat, bd, cn, cp));
    }
    Vec::new()
}

} // verus!
