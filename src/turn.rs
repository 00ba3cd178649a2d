//! One turn of the yard: every active crane, in index order, continues its
//! plan or picks a new task, and recovers locally when its next action is
//! blocked.
use vstd::prelude::*;
use rand::rngs::SmallRng;
use crate::actions::{acted, can_lift, cell_at, legal_change, same_plans, status_step, statuses_step};
use crate::chance::draw;
use crate::crane::{BoardStatus, ContainerStatus, CraneMove, CraneStatus, Pos, CRANE_NUM, GRID_SIZE};
use crate::moves::{as_int, blocks, could_move, direct_route, min_move, movable, spec_step_dir, step_dir};
use crate::plan::{no_aside, no_due, no_entry, pickup_choice};
use crate::yard::Yard;

verus! {

/// How a turn ended.
#[derive(Clone, Copy, Debug, PartialEq, Eq, Structural)]
pub enum TurnEnd {
    /// The run goes on.
    Continue,
    /// Every container was delivered before the cranes moved.
    Finished,
    /// A contradiction was found; the run is discarded.
    Abort,
}

/// Crane `a` went from `pa` to `na` while crane `b` went from `pb` to `nb`,
/// and the two exchanged their cells.
pub open spec fn swapped(pa: CraneStatus, na: CraneStatus, pb: CraneStatus, nb: CraneStatus) -> bool {
    &&& pa.spec_pos() is Some && na.spec_pos() is Some
    &&& pb.spec_pos() is Some && nb.spec_pos() is Some
    &&& na.spec_pos() == pb.spec_pos() && nb.spec_pos() == pa.spec_pos()
    &&& pa.spec_pos() != pb.spec_pos()
}

/// No two cranes exchanged their cells between `prev` and `now`.
pub open spec fn no_swap(prev: Seq<CraneStatus>, now: Seq<CraneStatus>) -> bool {
    forall|a: int, b: int|
        0 <= a < CRANE_NUM && 0 <= b < CRANE_NUM && a != b ==> !#[trigger] swapped(
            prev[a],
            now[a],
            prev[b],
            now[b],
        )
}

/// The cranes act in index order, so when crane `i` acts the later ones have
/// not moved yet; a legal change of crane `i` then creates no swap.
pub proof fn lemma_legal_change_no_swap(
    i: int,
    before: Seq<CraneStatus>,
    after: Seq<CraneStatus>,
    prev: Seq<CraneStatus>,
)
    requires
        0 <= i < CRANE_NUM,
        prev.len() == CRANE_NUM,
        no_swap(prev, before),
        forall|k: int| i <= k < CRANE_NUM ==> #[trigger] before[k] == prev[k],
        legal_change(i, before, after, prev),
    ensures
        no_swap(prev, after),
{
    assert forall|a: int, b: int| 0 <= a < CRANE_NUM && 0 <= b < CRANE_NUM && a != b implies !#[trigger] swapped(
        prev[a],
        after[a],
        prev[b],
        after[b],
    ) by {
        if a == i {
            assert(after[b] == before[b]);
            assert(before[i] == prev[i]);
            if after[i].spec_pos() != before[i].spec_pos() && !(after[i] is Removed) {
                assert(!blocks(
                    before[b],
                    prev[b],
                    as_int(before[i].spec_pos().unwrap()),
                    as_int(after[i].spec_pos().unwrap()),
                ));
            }
        } else if b == i {
            assert(after[a] == before[a]);
            assert(before[i] == prev[i]);
            if after[i].spec_pos() != before[i].spec_pos() && !(after[i] is Removed) {
                assert(!blocks(
                    before[a],
                    prev[a],
                    as_int(before[i].spec_pos().unwrap()),
                    as_int(after[i].spec_pos().unwrap()),
                ));
            }
        } else {
            assert(after[a] == before[a]);
            assert(after[b] == before[b]);
            assert(!swapped(prev[a], before[a], prev[b], before[b]));
        }
    }
}

/// A claim of a free container by crane `i`, followed by any changes crane
/// `i` may make, is still a change crane `i` may make.
proof fn lemma_claim_then_step(
    a: Seq<ContainerStatus>,
    b: Seq<ContainerStatus>,
    d: Seq<ContainerStatus>,
    c: int,
    i: usize,
)
    requires
        0 <= c < a.len(),
        a[c] is Free,
        b == a.update(c, ContainerStatus::Accepted(i)),
        statuses_step(b, d, i),
    ensures
        statuses_step(a, d, i),
{
    assert forall|k: int| 0 <= k < a.len() implies status_step(#[trigger] a[k], d[k], i) by {
        assert(status_step(b[k], d[k], i));
    }
}

fn reversed(v: &Vec<CraneMove>) -> (r: Vec<CraneMove>)
    ensures
        r@.len() == v@.len(),
        forall|j: int| 0 <= j < v@.len() ==> #[trigger] r@[j] == v@[v@.len() - 1 - j],
{
    let mut r: Vec<CraneMove> = Vec::new();
    let mut k: usize = v.len();
    while k > 0
        invariant
            k <= v@.len(),
            r@.len() == v@.len() - k,
            forall|j: int| 0 <= j < r@.len() ==> #[trigger] r@[j] == v@[v@.len() - 1 - j],
        decreases k,
    {
        k -= 1;
        r.push(v[k]);
    }
    r
}

/// The next action of crane `i`'s plan, if any.
pub open spec fn next_planned(y: &Yard, i: int) -> Option<CraneMove> {
    if y.scheduled@[i]@.len() == 0 {
        None
    } else {
        Some(y.scheduled@[i]@.last())
    }
}

/// No step of crane `i` is legal on `board` among `cranes`.
pub open spec fn no_step(board: Seq<Vec<BoardStatus>>, cranes: Seq<CraneStatus>, i: int, prev: Seq<CraneStatus>) -> bool {
    forall|d: int|
        0 <= d < 4 ==> !#[trigger] movable(i, as_int(cranes[i].spec_pos().unwrap()), spec_step_dir(d), board, cranes, prev)
}

/// A step in a random direction, or a wait when no step is legal.
pub open spec fn random_or_wait(
    board: Seq<Vec<BoardStatus>>,
    cranes: Seq<CraneStatus>,
    i: int,
    prev: Seq<CraneStatus>,
    r: Option<CraneMove>,
) -> bool {
    r is Some && (r.unwrap().is_step() || (r.unwrap() is Wait && no_step(board, cranes, i, prev)))
}

/// What crane `i` does on a board `board`, with cranes `cranes` and
/// container statuses `containers`, when `next` is the next action of its
/// plan: no action means a wait; a wait, a legal step, a possible lift, drop
/// or retirement is taken as planned; a lift of anything but a claimed or
/// unclaimed container, a drop or retirement in the wrong load state, end
/// the run. A drop onto a taken cell becomes a random step or a wait. A
/// blocked step makes the large crane wait; a loaded small crane steps aside
/// at random on the exit column (the run ends when it cannot) and puts its
/// container down elsewhere (the run ends when its cell is taken); an empty
/// small crane steps at random or waits.
pub open spec fn executes(
    board: Seq<Vec<BoardStatus>>,
    cranes: Seq<CraneStatus>,
    containers: Seq<ContainerStatus>,
    i: int,
    prev: Seq<CraneStatus>,
    next: Option<CraneMove>,
    r: Option<CraneMove>,
) -> bool {
    let c = cranes[i];
    let p = c.spec_pos().unwrap();
    let cell = cell_at(board, p);
    match next {
        None => r == Some(CraneMove::Wait),
        Some(CraneMove::Wait) => r == Some(CraneMove::Wait),
        Some(CraneMove::Lift) => if c.spec_is_empty() && cell is Container && (containers[cell->Container_0 as int]
            == ContainerStatus::Accepted(i as usize) || containers[cell->Container_0 as int] is Free) {
            r == Some(CraneMove::Lift)
        } else {
            r is None
        },
        Some(CraneMove::Drop) => if c.spec_is_empty() {
            r is None
        } else if cell == BoardStatus::Empty {
            r == Some(CraneMove::Drop)
        } else {
            random_or_wait(board, cranes, i, prev, r)
        },
        Some(CraneMove::Remove) => if c.spec_is_empty() { r == Some(CraneMove::Remove) } else { r is None },
        Some(mv) => if movable(i, as_int(p), mv, board, cranes, prev) {
            r == Some(mv)
        } else if c.spec_is_big() {
            r == Some(CraneMove::Wait)
        } else if !c.spec_is_empty() && p.1 == GRID_SIZE - 1 {
            (r is None && no_step(board, cranes, i, prev)) || (r is Some && r.unwrap().is_step())
        } else if !c.spec_is_empty() {
            if cell == BoardStatus::Empty { r == Some(CraneMove::Drop) } else { r is None }
        } else {
            random_or_wait(board, cranes, i, prev, r)
        },
    }
}

pub open spec fn executes_plan(y: &Yard, i: int, prev: Seq<CraneStatus>, r: Option<CraneMove>) -> bool {
    executes(y.board@, y.cranes@, y.containers@, i, prev, next_planned(y, i), r)
}

/// The plan of crane `i` after its turn begins: a retirement goes on top
/// when it is due to retire and carries nothing.
pub open spec fn plan_at_start(y: &Yard, i: int, remove_first: bool) -> Seq<CraneMove> {
    if remove_first && y.cranes@[i].spec_is_empty() {
        y.scheduled@[i]@.push(CraneMove::Remove)
    } else {
        y.scheduled@[i]@
    }
}

/// What crane `i` does on its turn, as `crane_turn` describes: with a plan,
/// its next action as `executes` says; without one and empty, the pickup
/// that `plan_pickup` chooses (standing aside when someone else has it, or
/// starting the direct route and lift after claiming it), or a random step
/// or a wait when there is nothing to fetch; without one and loaded, the
/// first action of a route and drop, or of two filler steps.
pub open spec fn turn_decision(y: &Yard, i: int, prev: Seq<CraneStatus>, remove_first: bool, r: Option<CraneMove>) -> bool {
    let plan = plan_at_start(y, i, remove_first);
    let c = y.cranes@[i];
    let pos = c.spec_pos().unwrap();
    if plan.len() > 0 {
        executes(y.board@, y.cranes@, y.containers@, i, prev, Some(plan.last()), r)
    } else if c.spec_is_empty() {
        if no_due(y) && no_entry(y) && no_aside(y) {
            random_or_wait(y.board@, y.cranes@, i, prev, r)
        } else {
            exists|cid: usize, cell: Pos| #[trigger] pickup_choice(y, pos, cid, cell) && if y.containers@[cid as int] is Free {
                executes(
                    y.board@,
                    y.cranes@,
                    y.containers@.update(cid as int, ContainerStatus::Accepted(i as usize)),
                    i,
                    prev,
                    Some(direct_route(pos, cell).push(CraneMove::Lift)[0]),
                    r,
                )
            } else if c.spec_is_big() {
                r == Some(CraneMove::Wait)
            } else {
                r == Some(CraneMove::Remove)
            }
        }
    } else {
        exists|mv: CraneMove| (mv is Drop || mv.is_step()) && #[trigger] executes(y.board@, y.cranes@, y.containers@, i, prev, Some(mv), r)
    }
}

impl Yard {
    /// The action of active crane `i` on this turn. When its plan is empty it
    /// first picks a task: an empty crane claims the container chosen by
    /// `plan_pickup` and plans the direct route to it and a lift; when that
    /// container is already claimed, the large crane waits and a small one
    /// retires; when there is nothing to fetch it takes a random legal step.
    /// A loaded crane plans the route of `plan_delivery` and a drop, with two
    /// filler steps before a drop in place. Then it takes the plan's next
    /// action, recovering when it cannot: a blocked drop becomes a random
    /// step and is kept for later; a blocked step makes the large crane wait
    /// and keep the step, a loaded small crane on the exit column step aside,
    /// a loaded small crane elsewhere put its container down, and an empty
    /// small crane step at random. Returns the action taken, or `None` on a
    /// contradiction that ends the run.
    pub fn crane_turn(
        &mut self,
        i: usize,
        prev: &Vec<CraneStatus>,
        remove_first: bool,
        rng: &mut SmallRng,
    ) -> (r: Option<CraneMove>)
        requires
            old(self).wf(),
            i < CRANE_NUM,
            prev@.len() == CRANE_NUM,
            old(self).cranes@[i as int].spec_pos() is Some,
        ensures
            r is Some ==> {
                &&& final(self).wf()
                &&& same_plans(old(self), final(self))
                &&& legal_change(i as int, old(self).cranes@, final(self).cranes@, prev@)
                &&& statuses_step(old(self).containers@, final(self).containers@, i)
                &&& acted(old(self), final(self), i as int, r.unwrap())
            },
            turn_decision(old(self), i as int, prev@, remove_first, r),
    {
        let ghost start = *self;
        let my_pos = self.cranes[i].pos().unwrap();
        if remove_first && self.cranes[i].is_empty() {
            self.scheduled[i].push(CraneMove::Remove);
        }
        if self.scheduled[i].len() == 0 {
            if self.cranes[i].is_empty() {
                match self.plan_pickup(my_pos) {
                    None => {
                        return match self.random_step(i, prev, rng) {
                            Some(mv) => Some(mv),
                            None => Some(CraneMove::Wait),
                        };
                    },
                    Some((c, cell)) => {
                        if self.containers[c] != ContainerStatus::Free {
                            self.scheduled.set(i, Vec::new());
                            if self.cranes[i].is_big() {
                                return Some(CraneMove::Wait);
                            } else {
                                self.retire(i);
                                return Some(CraneMove::Remove);
                            }
                        }
                        let mut route = min_move(my_pos, cell);
                        route.push(CraneMove::Lift);
                        let plan = reversed(&route);
                        self.scheduled.set(i, plan);
                        let ghost pre = *self;
                        self.containers.set(c, ContainerStatus::Accepted(i));
                        proof {
                            assert forall|j: int|
                                0 <= j < CRANE_NUM && (#[trigger] self.cranes@[j]).spec_lifting_cid() is Some implies self.containers@[self.cranes@[j].spec_lifting_cid().unwrap() as int]
                                == ContainerStatus::BeingMoved(j as usize) by {
                                let cid = self.cranes@[j].spec_lifting_cid().unwrap() as int;
                                assert(pre.containers@[cid] == ContainerStatus::BeingMoved(j as usize));
                            }
                        }
                        let ghost claimed = *self;
                        let r = self.execute(i, prev, rng);
                        proof {
                            if r is Some {
                                lemma_claim_then_step(
                                    start.containers@,
                                    claimed.containers@,
                                    self.containers@,
                                    c as int,
                                    i,
                                );
                            }
                        }
                        return r;
                    },
                }
            } else {
                let cid = self.cranes[i].lifting_cid().unwrap();
                let mut route = self.plan_delivery(i, cid, my_pos, prev);
                route.push(CraneMove::Drop);
                if route.len() == 1 {
                    let mv = step_dir(draw(rng) % 4);
                    route.push(mv);
                    route.push(mv);
                }
                let plan = reversed(&route);
                self.scheduled.set(i, plan);
            }
        }
        self.execute(i, prev, rng)
    }

    /// Crane `i` takes the next action of its plan, as `crane_turn` describes.
    pub fn execute(&mut self, i: usize, prev: &Vec<CraneStatus>, rng: &mut SmallRng) -> (r: Option<
        CraneMove,
    >)
        requires
            old(self).wf(),
            i < CRANE_NUM,
            prev@.len() == CRANE_NUM,
            old(self).cranes@[i as int].spec_pos() is Some,
        ensures
            r is Some ==> {
                &&& final(self).wf()
                &&& same_plans(old(self), final(self))
                &&& legal_change(i as int, old(self).cranes@, final(self).cranes@, prev@)
                &&& statuses_step(old(self).containers@, final(self).containers@, i)
                &&& acted(old(self), final(self), i as int, r.unwrap())
            },
            executes_plan(old(self), i as int, prev@, r),
    {
        let my_pos = self.cranes[i].pos().unwrap();
        let cur = match self.scheduled[i].pop() {
            Some(m) => m,
            None => {
                return Some(CraneMove::Wait);
            },
        };
        match cur {
            CraneMove::Lift => {
                if self.cranes[i].is_empty() && self.lift(i) {
                    Some(CraneMove::Lift)
                } else {
                    None
                }
            },
            CraneMove::Drop => {
                if self.cranes[i].is_empty() {
                    return None;
                }
                if self.put_down(i) {
                    Some(CraneMove::Drop)
                } else {
                    let r = self.random_step(i, prev, rng);
                    self.scheduled[i].push(CraneMove::Drop);
                    match r {
                        Some(mv) => Some(mv),
                        None => Some(CraneMove::Wait),
                    }
                }
            },
            CraneMove::Up | CraneMove::Down | CraneMove::Left | CraneMove::Right => {
                if could_move(i, my_pos, cur, &self.board, &self.cranes, prev) {
                    self.step_crane(i, cur, prev);
                    Some(cur)
                } else if self.cranes[i].is_big() {
                    self.scheduled[i].push(cur);
                    Some(CraneMove::Wait)
                } else if !self.cranes[i].is_empty() {
                    if my_pos.1 == GRID_SIZE - 1 {
                        self.random_step(i, prev, rng)
                    } else if self.put_down(i) {
                        self.scheduled.set(i, Vec::new());
                        Some(CraneMove::Drop)
                    } else {
                        None
                    }
                } else {
                    match self.random_step(i, prev, rng) {
                        Some(mv) => Some(mv),
                        None => Some(CraneMove::Wait),
                    }
                }
            },
            CraneMove::Wait => Some(CraneMove::Wait),
            CraneMove::Remove => {
                if self.cranes[i].is_empty() {
                    self.retire(i);
                    self.scheduled.set(i, Vec::new());
                    Some(CraneMove::Remove)
                } else {
                    None
                }
            },
        }
    }
}

} // verus!
