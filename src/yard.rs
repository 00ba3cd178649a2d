//! The state of one simulated run of the yard, and the bookkeeping done at the
//! head of every turn: arrivals at the left edge and deliveries at the right.
use vstd::prelude::*;
use crate::crane::{BoardStatus, ContainerStatus, CraneMove, CraneStatus, Pos, CONTAINER_NUM, CRANE_NUM, GRID_SIZE};
use crate::moves::{as_int, board_ok, in_grid};

verus! {

/// Number of turns a run may take.
pub const TURN_MAX: usize = 350;

/// Everything one run of the simulation reads and changes.
pub struct Yard {
    /// Per row, the containers in the order in which they arrive.
    pub incoming: Vec<Vec<usize>>,
    /// How many containers of each row have arrived.
    pub next_in: Vec<usize>,
    pub board: Vec<Vec<BoardStatus>>,
    pub cranes: Vec<CraneStatus>,
    pub containers: Vec<ContainerStatus>,
    /// Per exit lane, the container it expects next; `None` once its whole
    /// row-group has been delivered.
    pub goal_want: Vec<Option<usize>>,
    /// Per crane, the actions taken so far, one character per turn.
    pub ans: Vec<Vec<char>>,
    /// Per crane, the planned actions, the next one last.
    pub scheduled: Vec<Vec<CraneMove>>,
    /// The current turn.
    pub turn: usize,
}

/// `incoming` holds one row of `GRID_SIZE` container ids for each row.
pub open spec fn incoming_ok(incoming: Seq<Vec<usize>>) -> bool {
    &&& incoming.len() == GRID_SIZE
    &&& forall|r: int| 0 <= r < GRID_SIZE ==> (#[trigger] incoming[r])@.len() == GRID_SIZE
    &&& forall|r: int, k: int|
        0 <= r < GRID_SIZE && 0 <= k < GRID_SIZE ==> #[trigger] incoming[r]@[k] < CONTAINER_NUM
}

/// Two distinct cranes that are still active never stand on the same cell.
pub open spec fn no_collision(cranes: Seq<CraneStatus>) -> bool {
    forall|i: int, j: int|
        0 <= i < CRANE_NUM && 0 <= j < CRANE_NUM && i != j && (#[trigger] cranes[i]).spec_pos()
            is Some && (#[trigger] cranes[j]).spec_pos() is Some ==> cranes[i].spec_pos()
            != cranes[j].spec_pos()
}

pub open spec fn crane_ok(c: CraneStatus) -> bool {
    &&& (c.spec_pos() is Some ==> in_grid(as_int(c.spec_pos().unwrap())))
    &&& (c.spec_lifting_cid() is Some ==> c.spec_lifting_cid().unwrap() < CONTAINER_NUM)
}

pub open spec fn cell_ok(b: BoardStatus) -> bool {
    b is Container ==> b->Container_0 < CONTAINER_NUM
}

/// The lane of row `r` expects a container of its own row-group.
pub open spec fn cursor_ok(r: int, g: Option<usize>) -> bool {
    g is Some ==> g.unwrap() / GRID_SIZE == r
}

/// A container that a crane carries is marked as being moved by that crane.
pub open spec fn carry_ok(cranes: Seq<CraneStatus>, containers: Seq<ContainerStatus>) -> bool {
    forall|i: int|
        0 <= i < CRANE_NUM && (#[trigger] cranes[i]).spec_lifting_cid() is Some ==> containers[cranes[i].spec_lifting_cid().unwrap() as int]
            == ContainerStatus::BeingMoved(i as usize)
}

/// The characters that write crane actions.
pub open spec fn is_action_char(c: char) -> bool {
    c == 'P' || c == 'Q' || c == 'U' || c == 'D' || c == 'L' || c == 'R' || c == '.' || c == 'B'
}

pub open spec fn all_completed(containers: Seq<ContainerStatus>) -> bool {
    forall|c: int| 0 <= c < containers.len() ==> #[trigger] containers[c] is Completed
}

pub open spec fn all_lanes_done(goal_want: Seq<Option<usize>>) -> bool {
    forall|r: int| 0 <= r < goal_want.len() ==> #[trigger] goal_want[r] is None
}

impl Yard {
    pub open spec fn wf(&self) -> bool {
        &&& incoming_ok(self.incoming@)
        &&& self.next_in@.len() == GRID_SIZE
        &&& forall|r: int| 0 <= r < GRID_SIZE ==> #[trigger] self.next_in@[r] <= GRID_SIZE
        &&& board_ok(self.board@)
        &&& forall|r: int, c: int|
            0 <= r < GRID_SIZE && 0 <= c < GRID_SIZE ==> cell_ok(#[trigger] self.board@[r]@[c])
        &&& self.cranes@.len() == CRANE_NUM
        &&& forall|i: int| 0 <= i < CRANE_NUM ==> crane_ok(#[trigger] self.cranes@[i])
        &&& no_collision(self.cranes@)
        &&& self.containers@.len() == CONTAINER_NUM
        &&& carry_ok(self.cranes@, self.containers@)
        &&& self.goal_want@.len() == GRID_SIZE
        &&& forall|r: int| 0 <= r < GRID_SIZE ==> cursor_ok(r, #[trigger] self.goal_want@[r])
        &&& self.ans@.len() == CRANE_NUM
        &&& forall|k: int| 0 <= k < CRANE_NUM ==> (#[trigger] self.ans@[k])@.len() <= self.turn
        &&& forall|k: int, j: int|
            0 <= k < CRANE_NUM && 0 <= j < self.ans@[k]@.len() ==> is_action_char(#[trigger] self.ans@[k]@[j])
        &&& self.scheduled@.len() == CRANE_NUM
        &&& self.turn < TURN_MAX
    }

    /// Containers slide in at the left edge: each row whose entry cell is
    /// empty, not under a loaded crane, and whose queue is not used up
    /// receives its next container.
    pub fn receive(&mut self)
        requires
            old(self).wf(),
        ensures
            final(self).wf(),
            final(self).incoming == old(self).incoming,
            final(self).cranes == old(self).cranes,
            final(self).containers == old(self).containers,
            final(self).goal_want == old(self).goal_want,
            final(self).turn == old(self).turn,
            final(self).ans == old(self).ans,
            final(self).scheduled == old(self).scheduled,
            forall|r: int| 0 <= r < GRID_SIZE ==> arrival(old(self), final(self), #[trigger] final(self).next_in@[r], r),
            forall|r: int, c: int| 0 <= r < GRID_SIZE && 1 <= c < GRID_SIZE ==> #[trigger] final(self).board@[r]@[c] == old(self).board@[r]@[c],
    {
        let mut r: usize = 0;
        while r < GRID_SIZE
            invariant
                self.wf(),
                r <= GRID_SIZE,
                self.incoming == old(self).incoming,
                self.cranes == old(self).cranes,
                self.containers == old(self).containers,
                self.goal_want == old(self).goal_want,
                self.turn == old(self).turn,
                self.ans == old(self).ans,
                self.scheduled == old(self).scheduled,
                old(self).wf(),
                forall|q: int| 0 <= q < r ==> arrival(old(self), self, #[trigger] self.next_in@[q], q),
                forall|q: int| r <= q < GRID_SIZE ==> #[trigger] self.next_in@[q] == old(self).next_in@[q] && self.board@[q]@[0] == old(self).board@[q]@[0],
                forall|q: int, c: int| 0 <= q < GRID_SIZE && 1 <= c < GRID_SIZE ==> #[trigger] self.board@[q]@[c] == old(self).board@[q]@[c],
            decreases GRID_SIZE - r,
        {
            let k = self.next_in[r];
            let ghost pre = *self;
            if self.board[r][0] == BoardStatus::Empty && !self.loaded_crane_at((r, 0)) && k < GRID_SIZE {
                let c = self.incoming[r][k];
                self.board[r].set(0, BoardStatus::Container(c));
                self.next_in.set(r, k + 1);
                assert(forall|rr: int, cc: int|
                    0 <= rr < GRID_SIZE && 0 <= cc < GRID_SIZE ==> cell_ok(
                        #[trigger] self.board@[rr]@[cc],
                    ));
            }
            proof {
                assert forall|q: int| r < q < GRID_SIZE implies #[trigger] self.next_in@[q] == old(self).next_in@[q]
                    && self.board@[q]@[0] == old(self).board@[q]@[0] by {
                    assert(pre.next_in@[q] == old(self).next_in@[q]);
                    assert(self.board@[q] == pre.board@[q]);
                }
                assert forall|q: int| 0 <= q < r + 1 implies arrival(old(self), self, #[trigger] self.next_in@[q], q) by {
                    if q < r {
                        assert(arrival(old(self), &pre, pre.next_in@[q], q));
                        assert(self.board@[q] == pre.board@[q]);
                    } else {
                        assert(pre.next_in@[q] == old(self).next_in@[q]);
                    }
                }
            }
            r += 1;
        }
    }

    /// Whether some crane carrying a container stands at `p`.
    pub fn loaded_crane_at(&self, p: Pos) -> (r: bool)
        requires
            self.cranes@.len() == CRANE_NUM,
        ensures
            r == exists|i: int|
                0 <= i < CRANE_NUM && !(#[trigger] self.cranes@[i]).spec_is_empty()
                    && self.cranes@[i].spec_pos() == Some(p),
    {
        let mut i: usize = 0;
        while i < CRANE_NUM
            invariant
                i <= CRANE_NUM,
                self.cranes@.len() == CRANE_NUM,
                forall|k: int|
                    0 <= k < i ==> !(!(#[trigger] self.cranes@[k]).spec_is_empty()
                        && self.cranes@[k].spec_pos() == Some(p)),
            decreases CRANE_NUM - i,
        {
            if !self.cranes[i].is_empty() {
                if let Some(q) = self.cranes[i].pos() {
                    if q.0 == p.0 && q.1 == p.1 {
                        return true;
                    }
                }
            }
            i += 1;
        }
        false
    }

    /// Containers that reached the right edge leave the board. Each must be
    /// the one its lane expects; the lane then expects the next id of its
    /// row-group, or nothing after the group's last id. Returns `false`, a
    /// contradiction that ends the run, on any other delivery.
    pub fn collect(&mut self) -> (ok: bool)
        requires
            old(self).wf(),
        ensures
            final(self).wf(),
            final(self).incoming == old(self).incoming,
            final(self).next_in == old(self).next_in,
            final(self).cranes == old(self).cranes,
            final(self).containers == old(self).containers,
            final(self).turn == old(self).turn,
            final(self).ans == old(self).ans,
            final(self).scheduled == old(self).scheduled,
            ok == forall|r: int| 0 <= r < GRID_SIZE ==> #[trigger] delivery_expected(old(self).board@[r]@[GRID_SIZE - 1], old(self).goal_want@[r]),
            ok ==> forall|r: int|
                0 <= r < GRID_SIZE ==> lane_step(
                    #[trigger] old(self).goal_want@[r],
                    final(self).goal_want@[r],
                ) && final(self).goal_want@[r] == lane_after(old(self).board@[r]@[GRID_SIZE - 1], old(self).goal_want@[r])
                    && final(self).board@[r]@[GRID_SIZE - 1] == BoardStatus::Empty,
            ok ==> forall|r: int, c: int|
                0 <= r < GRID_SIZE && 0 <= c < GRID_SIZE - 1 ==> #[trigger] final(self).board@[r]@[c] == old(self).board@[r]@[c],
    {
        let mut r: usize = 0;
        while r < GRID_SIZE
            invariant
                self.wf(),
                r <= GRID_SIZE,
                old(self).wf(),
                self.incoming == old(self).incoming,
                self.next_in == old(self).next_in,
                self.cranes == old(self).cranes,
                self.containers == old(self).containers,
                self.turn == old(self).turn,
                self.ans == old(self).ans,
                self.scheduled == old(self).scheduled,
                forall|q: int| 0 <= q < r ==> #[trigger] delivery_expected(old(self).board@[q]@[GRID_SIZE - 1], old(self).goal_want@[q]),
                forall|q: int|
                    0 <= q < r ==> lane_step(
                        #[trigger] old(self).goal_want@[q],
                        self.goal_want@[q],
                    ) && self.goal_want@[q] == lane_after(old(self).board@[q]@[GRID_SIZE - 1], old(self).goal_want@[q])
                        && self.board@[q]@[GRID_SIZE - 1] == BoardStatus::Empty,
                forall|q: int| r <= q < GRID_SIZE ==> #[trigger] self.goal_want@[q] == old(self).goal_want@[q]
                    && self.board@[q]@[GRID_SIZE - 1] == old(self).board@[q]@[GRID_SIZE - 1],
                forall|q: int, c: int|
                    0 <= q < GRID_SIZE && 0 <= c < GRID_SIZE - 1 ==> #[trigger] self.board@[q]@[c] == old(self).board@[q]@[c],
            decreases GRID_SIZE - r,
        {
            let ghost pre = *self;
            if let BoardStatus::Container(c) = self.board[r][GRID_SIZE - 1] {
                match self.goal_want[r] {
                    None => {
                        assert(!delivery_expected(old(self).board@[r as int]@[GRID_SIZE - 1], old(self).goal_want@[r as int]));
                        return false;
                    },
                    Some(g) => {
                        if c != g {
                            assert(!delivery_expected(old(self).board@[r as int]@[GRID_SIZE - 1], old(self).goal_want@[r as int]));
                            return false;
                        }
                        if c % GRID_SIZE == GRID_SIZE - 1 {
                            self.goal_want.set(r, None);
                        } else {
                            self.goal_want.set(r, Some(g + 1));
                        }
                    },
                }
                self.board[r].set(GRID_SIZE - 1, BoardStatus::Empty);
                assert(forall|rr: int, cc: int|
                    0 <= rr < GRID_SIZE && 0 <= cc < GRID_SIZE ==> cell_ok(
                        #[trigger] self.board@[rr]@[cc],
                    ));
            }
            proof {
                assert forall|q: int| 0 <= q < r + 1 implies lane_step(
                    #[trigger] old(self).goal_want@[q],
                    self.goal_want@[q],
                ) && self.goal_want@[q] == lane_after(old(self).board@[q]@[GRID_SIZE - 1], old(self).goal_want@[q])
                    && self.board@[q]@[GRID_SIZE - 1] == BoardStatus::Empty by {
                    if q < r {
                        assert(pre.goal_want@[q] == self.goal_want@[q]);
                        assert(pre.board@[q] == self.board@[q]);
                    }
                }
                assert forall|q: int| r < q < GRID_SIZE implies #[trigger] self.goal_want@[q] == old(self).goal_want@[q]
                    && self.board@[q]@[GRID_SIZE - 1] == old(self).board@[q]@[GRID_SIZE - 1] by {
                    assert(pre.goal_want@[q] == old(self).goal_want@[q]);
                    assert(pre.board@[q] == self.board@[q]);
                }
                assert forall|q: int, cc: int|
                    0 <= q < GRID_SIZE && 0 <= cc < GRID_SIZE - 1 implies #[trigger] self.board@[q]@[cc] == old(self).board@[q]@[cc] by {
                    assert(pre.board@[q]@[cc] == old(self).board@[q]@[cc]);
                }
            }
            r += 1;
        }
        true
    }

    /// Whether every container has been delivered.
    pub fn is_all_completed(&self) -> (r: bool)
        ensures
            r == all_completed(self.containers@),
    {
        let mut c: usize = 0;
        while c < self.containers.len()
            invariant
                c <= self.containers@.len(),
                forall|k: int| 0 <= k < c ==> #[trigger] self.containers@[k] is Completed,
            decreases self.containers@.len() - c,
        {
            if self.containers[c] != ContainerStatus::Completed {
                return false;
            }
            c += 1;
        }
        true
    }

    /// Whether every exit lane has received its whole row-group.
    pub fn is_all_lanes_done(&self) -> (r: bool)
        ensures
            r == all_lanes_done(self.goal_want@),
    {
        let mut k: usize = 0;
        while k < self.goal_want.len()
            invariant
                k <= self.goal_want@.len(),
                forall|q: int| 0 <= q < k ==> #[trigger] self.goal_want@[q] is None,
            decreases self.goal_want@.len() - k,
        {
            if self.goal_want[k].is_some() {
                return false;
            }
            k += 1;
        }
        true
    }
}

/// Row `r` receives its next container this turn: its entry cell is empty,
/// no loaded crane stands on it, and its queue is not used up.
pub open spec fn arrives(y: &Yard, r: int) -> bool {
    &&& y.board@[r]@[0] == BoardStatus::Empty
    &&& y.next_in@[r] < GRID_SIZE
    &&& !(exists|i: int|
        0 <= i < CRANE_NUM && !(#[trigger] y.cranes@[i]).spec_is_empty() && y.cranes@[i].spec_pos() == Some(
            (r as usize, 0usize),
        ))
}

/// Row `r`'s entry cell after arrivals: when it was empty, no loaded crane
/// stood on it and the row's queue was not used up, the row's next container
/// arrived there and the queue advanced (to `next`); otherwise nothing changed.
pub open spec fn arrival(before: &Yard, after: &Yard, next: usize, r: int) -> bool {
    let k = before.next_in@[r];
    if arrives(before, r) {
        next == k + 1 && after.board@[r]@[0] == BoardStatus::Container(before.incoming@[r]@[k as int])
    } else {
        next == k && after.board@[r]@[0] == before.board@[r]@[0]
    }
}

/// The right-edge cell of a lane holds nothing, or the container that the
/// lane expects.
pub open spec fn delivery_expected(cell: BoardStatus, cursor: Option<usize>) -> bool {
    cell is Container ==> cursor == Some(cell->Container_0)
}

/// A lane's cursor after the container on its right-edge cell, if any, has
/// left: the next id of the row-group, or none after the group's last id.
pub open spec fn lane_after(cell: BoardStatus, cursor: Option<usize>) -> Option<usize> {
    match cell {
        BoardStatus::Container(c) => if c % GRID_SIZE == GRID_SIZE - 1 {
            None
        } else {
            Some((c + 1) as usize)
        },
        BoardStatus::Empty => cursor,
    }
}

/// One turn's change of an exit lane's cursor: unchanged, one id further
/// within the row-group, or done after the group's last id.
pub open spec fn lane_step(before: Option<usize>, after: Option<usize>) -> bool {
    after == before || (before is Some && before.unwrap() % GRID_SIZE != GRID_SIZE - 1 && after
        == Some((before.unwrap() + 1) as usize)) || (before is Some && before.unwrap() % GRID_SIZE
        == GRID_SIZE - 1 && after is None)
}

} // verus!
