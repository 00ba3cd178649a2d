//! Choosing a crane's next task when its plan has run out: which container to
//! fetch, and where to take the container it carries.
use vstd::prelude::*;
use crate::crane::{BoardStatus, ContainerStatus, CraneMove, Pos, CONTAINER_NUM, CRANE_NUM, GRID_SIZE};
use crate::moves::{abs_diff, as_int, in_grid, lemma_reach_grows, manhattan, min_move, min_move_small_lift, reach_within, valid_walk, walk_end, direct_route};
use crate::crane::CraneStatus;
use crate::yard::{cell_ok, Yard};

verus! {

/// Manhattan distance between two cells.
pub fn distance(a: Pos, b: Pos) -> (r: usize)
    requires
        in_grid(as_int(a)),
        in_grid(as_int(b)),
    ensures
        r == manhattan(as_int(a), as_int(b)),
{
    let di = if a.0 >= b.0 { a.0 - b.0 } else { b.0 - a.0 };
    let dj = if a.1 >= b.1 { a.1 - b.1 } else { b.1 - a.1 };
    di + dj
}

/// Score of a route of `route_len` actions ending at `end` for a crane that
/// carries container `container_id`: the route's length plus how far `end`
/// still is from the container's exit lane. Lower is better.
pub open spec fn spec_path_cost(container_id: int, route_len: int, end: (int, int)) -> int {
    route_len + abs_diff(container_id / GRID_SIZE as int, end.0) + (GRID_SIZE - 1 - end.1)
}

pub fn path_cost(container_id: usize, route_len: usize, end: Pos) -> (r: usize)
    requires
        container_id < CONTAINER_NUM,
        route_len <= CONTAINER_NUM,
        in_grid(as_int(end)),
    ensures
        r == spec_path_cost(container_id as int, route_len as int, as_int(end)),
{
    let goal_i = container_id / GRID_SIZE;
    let diff_i = if goal_i >= end.0 { goal_i - end.0 } else { end.0 - goal_i };
    route_len + diff_i + (GRID_SIZE - 1 - end.1)
}

/// Cell `cell` of the board holds container `c`.
pub open spec fn holds(y: &Yard, c: usize, cell: Pos) -> bool {
    in_grid(as_int(cell)) && y.board@[cell.0 as int]@[cell.1 as int] == BoardStatus::Container(c)
}

/// `cell` holds the container that lane `q` expects now, and nobody has
/// claimed it.
pub open spec fn due_at(y: &Yard, q: int, cell: Pos) -> bool {
    &&& 0 <= q < GRID_SIZE
    &&& y.goal_want@[q] is Some
    &&& y.containers@[y.goal_want@[q].unwrap() as int] is Free
    &&& holds(y, y.goal_want@[q].unwrap(), cell)
}

/// Row `row`'s entry cell holds a container that nobody has claimed.
pub open spec fn entry_at(y: &Yard, row: int) -> bool {
    &&& 0 <= row < GRID_SIZE
    &&& y.board@[row]@[0] is Container
    &&& y.containers@[y.board@[row]@[0]->Container_0 as int] is Free
}

/// `cell` holds the container that lane `q` expects now, while the one that
/// lane expects next is in the same row-group and unclaimed.
pub open spec fn aside_at(y: &Yard, q: int, cell: Pos) -> bool {
    &&& 0 <= q < GRID_SIZE
    &&& y.goal_want@[q] is Some
    &&& (y.goal_want@[q].unwrap() + 1) % GRID_SIZE as int != 0
    &&& y.containers@[y.goal_want@[q].unwrap() + 1] is Free
    &&& holds(y, y.goal_want@[q].unwrap(), cell)
}

/// The best pickup so far: a cell holding its container, at its distance.
pub open spec fn best_ok(y: &Yard, from: Pos, best: Option<(usize, Pos, usize)>) -> bool {
    best is Some ==> {
        let (c, cell, d) = best.unwrap();
        &&& c < CONTAINER_NUM
        &&& holds(y, c, cell)
        &&& d == manhattan(as_int(from), as_int(cell))
    }
}

/// `best` is at least as near to `from` as `cell`.
pub open spec fn no_farther(from: Pos, best: Option<(usize, Pos, usize)>, cell: Pos) -> bool {
    best is Some && best.unwrap().2 <= manhattan(as_int(from), as_int(cell))
}

pub open spec fn cell_before(cell: Pos, ii: int, jj: int) -> bool {
    cell.0 < ii || (cell.0 == ii && cell.1 < jj)
}

/// Lane `q`'s container is due and unclaimed at `cell`, and no such cell is
/// nearer to `from`.
pub open spec fn nearest_due(y: &Yard, from: Pos, c: usize, cell: Pos) -> bool {
    &&& exists|q: int| #[trigger] due_at(y, q, cell) && y.goal_want@[q] == Some(c)
    &&& forall|q: int, other: Pos| #[trigger] due_at(y, q, other) ==> manhattan(as_int(from), as_int(cell))
        <= manhattan(as_int(from), as_int(other))
}

pub open spec fn nearest_entry(y: &Yard, from: Pos, cell: Pos) -> bool {
    &&& cell.1 == 0 && entry_at(y, cell.0 as int)
    &&& forall|row: int| #[trigger] entry_at(y, row) ==> manhattan(as_int(from), as_int(cell)) <= manhattan(
        as_int(from),
        (row, 0),
    )
}

pub open spec fn nearest_aside(y: &Yard, from: Pos, c: usize, cell: Pos) -> bool {
    &&& exists|q: int| #[trigger] aside_at(y, q, cell) && y.goal_want@[q] == Some(c)
    &&& forall|q: int, other: Pos| #[trigger] aside_at(y, q, other) ==> manhattan(as_int(from), as_int(cell))
        <= manhattan(as_int(from), as_int(other))
}

pub open spec fn no_due(y: &Yard) -> bool {
    forall|q: int, other: Pos| !#[trigger] due_at(y, q, other)
}

pub open spec fn no_entry(y: &Yard) -> bool {
    forall|row: int| !#[trigger] entry_at(y, row)
}

pub open spec fn no_aside(y: &Yard) -> bool {
    forall|q: int, other: Pos| !#[trigger] aside_at(y, q, other)
}

/// The pickup choice that `plan_pickup` makes, in order of preference.
pub open spec fn pickup_choice(y: &Yard, from: Pos, c: usize, cell: Pos) -> bool {
    &&& c < CONTAINER_NUM
    &&& holds(y, c, cell)
    &&& {
        ||| nearest_due(y, from, c, cell)
        ||| no_due(y) && nearest_entry(y, from, cell)
        ||| no_due(y) && no_entry(y) && nearest_aside(y, from, c, cell)
    }
}

impl Yard {
    /// Offers every cell holding container `c` as a pickup for a crane at
    /// `from`, keeping the first of the nearest.
    fn scan_for(&self, c: usize, from: Pos, best: &mut Option<(usize, Pos, usize)>)
        requires
            self.wf(),
            c < CONTAINER_NUM,
            in_grid(as_int(from)),
            best_ok(self, from, *old(best)),
        ensures
            best_ok(self, from, *final(best)),
            *final(best) == *old(best) || final(best).unwrap().0 == c,
            old(best).is_some() ==> final(best).is_some() && final(best).unwrap().2 <= old(best).unwrap().2,
            forall|cell: Pos| #[trigger] holds(self, c, cell) ==> no_farther(from, *final(best), cell),
    {
        let ghost start = *best;
        let mut ii: usize = 0;
        while ii < GRID_SIZE
            invariant
                self.wf(),
                c < CONTAINER_NUM,
                ii <= GRID_SIZE,
                in_grid(as_int(from)),
                best_ok(self, from, *best),
                *best == start || best.unwrap().0 == c,
                start.is_some() ==> best.is_some() && best.unwrap().2 <= start.unwrap().2,
                forall|cell: Pos| #[trigger] holds(self, c, cell) && cell.0 < ii ==> no_farther(from, *best, cell),
            decreases GRID_SIZE - ii,
        {
            let mut jj: usize = 0;
            while jj < GRID_SIZE
                invariant
                    self.wf(),
                    c < CONTAINER_NUM,
                    ii < GRID_SIZE,
                    jj <= GRID_SIZE,
                    in_grid(as_int(from)),
                    best_ok(self, from, *best),
                    *best == start || best.unwrap().0 == c,
                    start.is_some() ==> best.is_some() && best.unwrap().2 <= start.unwrap().2,
                    forall|cell: Pos| #[trigger] holds(self, c, cell) && cell_before(cell, ii as int, jj as int) ==> no_farther(from, *best, cell),
                decreases GRID_SIZE - jj,
            {
                if self.board[ii][jj] == BoardStatus::Container(c) {
                    let d = distance(from, (ii, jj));
                    let better = match *best {
                        None => true,
                        Some((_, _, bd)) => d < bd,
                    };
                    if better {
                        *best = Some((c, (ii, jj), d));
                    }
                }
                jj += 1;
            }
            ii += 1;
        }
    }

    /// The container an empty crane at `from` should fetch, and its cell.
    /// First choice: a container that a lane expects now and nobody has
    /// claimed. Second: an unclaimed container on the entry column, to make
    /// room for arrivals. Third: a container that a lane expects now while
    /// the lane's next container is unclaimed (someone else is on the first,
    /// so the caller will stand aside). Within a choice the nearest cell
    /// wins, the first found on ties; `None` when no choice has a candidate.
    pub fn plan_pickup(&self, from: Pos) -> (r: Option<(usize, Pos)>)
        requires
            self.wf(),
            in_grid(as_int(from)),
        ensures
            r is Some ==> pickup_choice(self, from, r.unwrap().0, r.unwrap().1),
            r is None ==> no_due(self) && no_entry(self) && no_aside(self),
    {
        let mut best: Option<(usize, Pos, usize)> = None;
        let mut r: usize = 0;
        while r < GRID_SIZE
            invariant
                self.wf(),
                r <= GRID_SIZE,
                in_grid(as_int(from)),
                best_ok(self, from, best),
                best is Some ==> exists|q: int| #[trigger] due_at(self, q, best.unwrap().1) && self.goal_want@[q] == Some(best.unwrap().0),
                forall|q: int, other: Pos| #[trigger] due_at(self, q, other) && q < r ==> no_farther(from, best, other),
            decreases GRID_SIZE - r,
        {
            if let Some(g) = self.goal_want[r] {
                assert(g / GRID_SIZE == r);
                if self.containers[g] == ContainerStatus::Free {
                    let ghost before = best;
                    self.scan_for(g, from, &mut best);
                    proof {
                        if best is Some && best != before {
                            assert(due_at(self, r as int, best.unwrap().1));
                        }
                        assert forall|q: int, other: Pos| #[trigger] due_at(self, q, other) && q < r + 1 implies no_farther(from, best, other) by {
                            if q == r {
                                assert(holds(self, g, other));
                            }
                        }
                    }
                }
            }
            r += 1;
        }
        if best.is_some() {
            let (c, cell, _) = best.unwrap();
            proof {
                assert forall|q: int, other: Pos| #[trigger] due_at(self, q, other) implies manhattan(
                    as_int(from),
                    as_int(cell),
                ) <= manhattan(as_int(from), as_int(other)) by {
                    assert(no_farther(from, best, other));
                }
                let q = choose|q: int| #[trigger] due_at(self, q, best.unwrap().1) && self.goal_want@[q] == Some(best.unwrap().0);
                assert(due_at(self, q, cell) && self.goal_want@[q] == Some(c));
                assert(nearest_due(self, from, c, cell));
            }
            return Some((c, cell));
        }
        let mut ii: usize = 0;
        while ii < GRID_SIZE
            invariant
                self.wf(),
                ii <= GRID_SIZE,
                in_grid(as_int(from)),
                best_ok(self, from, best),
                forall|q: int, other: Pos| !#[trigger] due_at(self, q, other),
                best is Some ==> best.unwrap().1.1 == 0 && entry_at(self, best.unwrap().1.0 as int),
                forall|row: int| #[trigger] entry_at(self, row) && row < ii ==> no_farther(from, best, (row as usize, 0usize)),
            decreases GRID_SIZE - ii,
        {
            if let BoardStatus::Container(c) = self.board[ii][0] {
                assert(cell_ok(self.board@[ii as int]@[0]));
                if self.containers[c] == ContainerStatus::Free {
                    let d = distance(from, (ii, 0));
                    let better = match best {
                        None => true,
                        Some((_, _, bd)) => d < bd,
                    };
                    if better {
                        best = Some((c, (ii, 0), d));
                    }
                }
            }
            ii += 1;
        }
        if best.is_some() {
            let (c, cell, _) = best.unwrap();
            return Some((c, cell));
        }
        let mut r: usize = 0;
        while r < GRID_SIZE
            invariant
                self.wf(),
                r <= GRID_SIZE,
                in_grid(as_int(from)),
                best_ok(self, from, best),
                forall|q: int, other: Pos| !#[trigger] due_at(self, q, other),
                forall|row: int| !#[trigger] entry_at(self, row),
                best is Some ==> exists|q: int| #[trigger] aside_at(self, q, best.unwrap().1) && self.goal_want@[q] == Some(best.unwrap().0),
                forall|q: int, other: Pos| #[trigger] aside_at(self, q, other) && q < r ==> no_farther(from, best, other),
            decreases GRID_SIZE - r,
        {
            if let Some(g) = self.goal_want[r] {
                assert(g / GRID_SIZE == r);
                let next = g + 1;
                if next % GRID_SIZE != 0 && self.containers[next] == ContainerStatus::Free {
                    let ghost before = best;
                    self.scan_for(g, from, &mut best);
                    proof {
                        if best is Some && best != before {
                            assert(aside_at(self, r as int, best.unwrap().1));
                        }
                        assert forall|q: int, other: Pos| #[trigger] aside_at(self, q, other) && q < r + 1 implies no_farther(from, best, other) by {
                            if q == r {
                                assert(holds(self, g, other));
                            }
                        }
                    }
                }
            }
            r += 1;
        }
        match best {
            Some((c, cell, _)) => Some((c, cell)),
            None => None,
        }
    }

    /// Route for a crane that carries container `cid`: straight to its exit
    /// lane when the lane expects it; otherwise to the empty cell off the exit
    /// column (and off the entry column while that row still has arrivals)
    /// with the lowest `path_cost`, the first found on ties. The large crane
    /// takes the direct route, a small one a route around containers. An
    /// empty route means putting the container down where the crane stands.
    pub fn plan_delivery(&self, i: usize, cid: usize, from: Pos, prev: &Vec<CraneStatus>) -> (r: Vec<CraneMove>)
        requires
            self.wf(),
            i < CRANE_NUM,
            cid < CONTAINER_NUM,
            prev@.len() == CRANE_NUM,
            in_grid(as_int(from)),
        ensures
            r@.len() <= CONTAINER_NUM,
            forall|k: int| 0 <= k < r@.len() ==> (#[trigger] r@[k]).is_step(),
            r@.len() > 0 ==> exists|t: Pos| #[trigger] delivery_target(self, cid, t) && route_to(self, i, from, t, prev@, r@),
            self.cranes@[i as int].spec_is_big() && self.goal_want@.contains(Some(cid)) ==> r@ == direct_route(
                from,
                lane_of(cid),
            ),
            r@.len() > 0 ==> (self.goal_want@.contains(Some(cid)) && route_to(self, i, from, lane_of(cid), prev@, r@))
                || exists|t: Pos| #[trigger] cell_target(self, t) && route_to(self, i, from, t, prev@, r@)
                && cheapest_so_far(self, i, cid, from, prev@, true, spec_path_cost(cid as int, r@.len() as int, as_int(t)), GRID_SIZE as int, 0),
            r@.len() == 0 ==> (from == lane_of(cid) && self.goal_want@.contains(Some(cid))) || cheapest_so_far(
                self,
                i,
                cid,
                from,
                prev@,
                false,
                0,
                GRID_SIZE as int,
                0,
            ),
    {
        let big = self.cranes[i].is_big();
        let lane: Pos = (cid / GRID_SIZE, GRID_SIZE - 1);
        let mut r: usize = 0;
        while r < GRID_SIZE
            invariant
                self.wf(),
                i < CRANE_NUM,
                cid < CONTAINER_NUM,
                big == self.cranes@[i as int].spec_is_big(),
                lane == lane_of(cid),
                prev@.len() == CRANE_NUM,
                in_grid(as_int(from)),
                in_grid(as_int(lane)),
                forall|q: int| 0 <= q < r && #[trigger] self.goal_want@[q] == Some(cid) ==> !big,
            decreases GRID_SIZE - r,
        {
            if self.goal_want[r] == Some(cid) {
                assert(delivery_target(self, cid, lane));
                if big {
                    let mm = min_move(from, lane);
                    assert(route_to(self, i, from, lane, prev@, mm@));
                    return mm;
                } else {
                    let mm = min_move_small_lift(i, from, lane, &self.board, &self.cranes, prev);
                    if mm.len() > 0 && mm.len() <= CONTAINER_NUM {
                        assert(route_to(self, i, from, lane, prev@, mm@));
                        return mm;
                    }
                }
            }
            r += 1;
        }
        assert(!big || !self.goal_want@.contains(Some(cid)));
        let mut best: Vec<CraneMove> = Vec::new();
        let mut best_cost: usize = 0;
        let mut found = false;
        let ghost pv = prev@;
        let mut ii: usize = 0;
        while ii < GRID_SIZE
            invariant
                self.wf(),
                ii <= GRID_SIZE,
                i < CRANE_NUM,
                cid < CONTAINER_NUM,
                big == self.cranes@[i as int].spec_is_big(),
                prev@.len() == CRANE_NUM,
                pv == prev@,
                in_grid(as_int(from)),
                best@.len() <= CONTAINER_NUM,
                forall|q: int| 0 <= q < best@.len() ==> (#[trigger] best@[q]).is_step(),
                found == (best@.len() > 0),
                found ==> exists|t: Pos| #[trigger] cell_target(self, t) && route_to(self, i, from, t, prev@, best@)
                    && best_cost == spec_path_cost(cid as int, best@.len() as int, as_int(t)),
                cheapest_so_far(self, i, cid, from, pv, found, best_cost as int, ii as int, 0),
            decreases GRID_SIZE - ii,
        {
            let mut jj: usize = 0;
            while jj < GRID_SIZE - 1
                invariant
                    self.wf(),
                    i < CRANE_NUM,
                    ii < GRID_SIZE,
                    jj <= GRID_SIZE - 1,
                    cid < CONTAINER_NUM,
                    big == self.cranes@[i as int].spec_is_big(),
                    prev@.len() == CRANE_NUM,
                    pv == prev@,
                    in_grid(as_int(from)),
                    best@.len() <= CONTAINER_NUM,
                    forall|q: int| 0 <= q < best@.len() ==> (#[trigger] best@[q]).is_step(),
                    found == (best@.len() > 0),
                    found ==> exists|t: Pos| #[trigger] cell_target(self, t) && route_to(self, i, from, t, prev@, best@)
                        && best_cost == spec_path_cost(cid as int, best@.len() as int, as_int(t)),
                    cheapest_so_far(self, i, cid, from, pv, found, best_cost as int, ii as int, jj as int),
                decreases GRID_SIZE - 1 - jj,
            {
                let ghost old_found = found;
                let ghost old_cost = best_cost as int;
                let entry_busy = jj == 0 && self.next_in[ii] < GRID_SIZE;
                let t: Pos = (ii, jj);
                if !entry_busy && self.board[ii][jj] == BoardStatus::Empty {
                    assert(cell_target(self, t));
                    let mm = if big {
                        min_move(from, t)
                    } else {
                        min_move_small_lift(i, from, t, &self.board, &self.cranes, prev)
                    };
                    if mm.len() > 0 && mm.len() <= CONTAINER_NUM {
                        assert(route_to(self, i, from, t, prev@, mm@));
                        let cost = path_cost(cid, mm.len(), t);
                        proof {
                            assert forall|len: int| #[trigger] route_len(self, i, from, t, pv, len) implies cost
                                <= spec_path_cost(cid as int, len, as_int(t)) by {
                                if !big && len < mm@.len() {
                                    lemma_reach_grows(i as int, as_int(from), as_int(t), len as nat, (mm@.len() - 1) as nat, self.board@, self.cranes@, pv);
                                }
                            }
                        }
                        if !found || cost < best_cost {
                            best = mm;
                            best_cost = cost;
                            found = true;
                        }
                        proof {
                            assert forall|u: Pos, len: int|
                                cell_target(self, u) && u != from && cell_before(u, ii as int, jj as int + 1)
                                    && #[trigger] route_len(self, i, from, u, pv, len) implies found && best_cost
                                    <= spec_path_cost(cid as int, len, as_int(u)) by {
                                if !cell_before(u, ii as int, jj as int) {
                                    assert(u == t);
                                }
                            }
                        }
                    } else {
                        proof {
                            assert forall|u: Pos, len: int|
                                cell_target(self, u) && u != from && cell_before(u, ii as int, jj as int + 1)
                                    && #[trigger] route_len(self, i, from, u, pv, len) implies found && best_cost
                                    <= spec_path_cost(cid as int, len, as_int(u)) by {
                                if !cell_before(u, ii as int, jj as int) {
                                    assert(u == t);
                                    if !big {
                                        lemma_reach_grows(i as int, as_int(from), as_int(t), len as nat, CONTAINER_NUM as nat, self.board@, self.cranes@, pv);
                                    }
                                }
                            }
                        }
                    }
                } else {
                    proof {
                        assert forall|u: Pos, len: int|
                            cell_target(self, u) && u != from && cell_before(u, ii as int, jj as int + 1)
                                && #[trigger] route_len(self, i, from, u, pv, len) implies found && best_cost
                                <= spec_path_cost(cid as int, len, as_int(u)) by {
                            if !cell_before(u, ii as int, jj as int) {
                                assert(u == t);
                            }
                        }
                    }
                }
                jj += 1;
            }
            proof {
                assert forall|u: Pos, len: int|
                    cell_target(self, u) && u != from && cell_before(u, ii as int + 1, 0)
                        && #[trigger] route_len(self, i, from, u, pv, len) implies found && best_cost
                        <= spec_path_cost(cid as int, len, as_int(u)) by {
                    assert(cell_before(u, ii as int, (GRID_SIZE - 1) as int));
                }
            }
            ii += 1;
        }
        proof {
            if found {
                let t0 = choose|t: Pos| #[trigger] cell_target(self, t) && route_to(self, i, from, t, prev@, best@)
                    && best_cost == spec_path_cost(cid as int, best@.len() as int, as_int(t));
                assert(delivery_target(self, cid, t0));
            }
        }
        best
    }
}

/// The exit cell of container `c`'s row-group.
pub open spec fn lane_of(c: usize) -> Pos {
    ((c / GRID_SIZE) as usize, (GRID_SIZE - 1) as usize)
}

/// Where a loaded crane may head for: the exit cell of its container's
/// row-group while that lane expects it, or an empty cell off the exit column
/// and off the entry column of a row that still has arrivals.
pub open spec fn delivery_target(y: &Yard, cid: usize, t: Pos) -> bool {
    &&& in_grid(as_int(t))
    &&& {
        ||| t == lane_of(cid) && y.goal_want@.contains(Some(cid))
        ||| t.1 < GRID_SIZE - 1 && y.board@[t.0 as int]@[t.1 as int] == BoardStatus::Empty && (t.1 > 0
            || y.next_in@[t.0 as int] >= GRID_SIZE)
    }
}

/// An empty cell off the exit column, and off the entry column while that
/// row still has arrivals: where a loaded crane may set its container aside.
pub open spec fn cell_target(y: &Yard, t: Pos) -> bool {
    &&& in_grid(as_int(t))
    &&& t.1 < GRID_SIZE - 1
    &&& y.board@[t.0 as int]@[t.1 as int] == BoardStatus::Empty
    &&& (t.1 > 0 || y.next_in@[t.0 as int] >= GRID_SIZE)
}

/// Crane `i` can get from `from` to `t` in `len` actions: by the direct
/// route for the large crane, by a legal route of at most `len` actions for
/// a small one.
pub open spec fn route_len(y: &Yard, i: usize, from: Pos, t: Pos, prev: Seq<CraneStatus>, len: int) -> bool {
    if y.cranes@[i as int].spec_is_big() {
        len == manhattan(as_int(from), as_int(t))
    } else {
        0 <= len <= CONTAINER_NUM && reach_within(i as int, as_int(from), as_int(t), len as nat, y.board@, y.cranes@, prev)
    }
}

/// No cell target other than `from` is reachable, nor, scanned so far,
/// cheaper than `cost`.
pub open spec fn cheapest_so_far(
    y: &Yard,
    i: usize,
    cid: usize,
    from: Pos,
    prev: Seq<CraneStatus>,
    found: bool,
    cost: int,
    ii: int,
    jj: int,
) -> bool {
    forall|t: Pos, len: int|
        cell_target(y, t) && t != from && cell_before(t, ii, jj) && #[trigger] route_len(y, i, from, t, prev, len)
            ==> found && cost <= spec_path_cost(cid as int, len, as_int(t))
}

/// `route` takes crane `i` from `from` to `t`: the direct route for the large
/// crane, a route legal at every step on the current snapshot for a small one.
pub open spec fn route_to(y: &Yard, i: usize, from: Pos, t: Pos, prev: Seq<CraneStatus>, route: Seq<CraneMove>) -> bool {
    &&& walk_end(as_int(from), route) == as_int(t)
    &&& y.cranes@[i as int].spec_is_big() ==> route == direct_route(from, t)
    &&& !y.cranes@[i as int].spec_is_big() ==> valid_walk(i as int, as_int(from), route, y.board@, y.cranes@, prev)
}

} // verus!
