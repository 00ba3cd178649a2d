//! The primitive actions of one crane on one turn, each keeping the yard
//! well formed: a step, a lift, a drop, retiring, and a random legal step.
use vstd::prelude::*;
use rand::rngs::SmallRng;
use crate::chance::shuffle;
use crate::crane::{BoardStatus, ContainerStatus, CraneMove, CraneStatus, Pos, CONTAINER_NUM, CRANE_NUM, GRID_SIZE};
use crate::moves::{as_int, blocks, board_ok, could_move, movable, next_pos, shift, spec_step_dir, stands_at};
use crate::yard::{carry_ok, cell_ok, crane_ok, no_collision, Yard};

verus! {

/// The changes of a container's status that crane `i` may make in one turn:
/// claim a free container (and lift it at once), lift the container it
/// claimed, deliver or put down the one it carries, or release its claim.
/// A delivered container never changes again.
pub open spec fn status_step(a: ContainerStatus, b: ContainerStatus, i: usize) -> bool {
    ||| b == a
    ||| (a is Free && (b == ContainerStatus::Accepted(i) || b == ContainerStatus::BeingMoved(i)))
    ||| (a == ContainerStatus::Accepted(i) && (b == ContainerStatus::BeingMoved(i) || b is Free))
    ||| (a == ContainerStatus::BeingMoved(i) && (b is Completed || b is Free))
}

pub open spec fn statuses_step(a: Seq<ContainerStatus>, b: Seq<ContainerStatus>, i: usize) -> bool {
    a.len() == b.len() && forall|c: int| 0 <= c < a.len() ==> status_step(#[trigger] a[c], b[c], i)
}

/// Crane `i` went from `before` to `after` while every other crane kept its
/// state: it stayed on its cell, retired, or stepped to a cell that no other
/// crane holds and that no other crane is leaving for its cell.
pub open spec fn legal_change(
    i: int,
    before: Seq<CraneStatus>,
    after: Seq<CraneStatus>,
    prev: Seq<CraneStatus>,
) -> bool {
    &&& before.len() == CRANE_NUM && after.len() == CRANE_NUM
    &&& forall|j: int| 0 <= j < CRANE_NUM && j != i ==> #[trigger] after[j] == before[j]
    &&& (after[i].spec_pos() == before[i].spec_pos() || after[i] is Removed || (
    before[i].spec_pos() is Some && after[i].spec_pos() is Some && forall|j: int|
        0 <= j < CRANE_NUM && j != i ==> !#[trigger] blocks(
            before[j],
            prev[j],
            as_int(before[i].spec_pos().unwrap()),
            as_int(after[i].spec_pos().unwrap()),
        )))
}

pub open spec fn cell_at(board: Seq<Vec<BoardStatus>>, p: Pos) -> BoardStatus {
    board[p.0 as int]@[p.1 as int]
}

/// `b` holds what `a` holds on every cell but `p`.
pub open spec fn same_board_except(a: Seq<Vec<BoardStatus>>, b: Seq<Vec<BoardStatus>>, p: Pos) -> bool {
    forall|r: int, c: int|
        0 <= r < GRID_SIZE && 0 <= c < GRID_SIZE && (r != p.0 || c != p.1) ==> #[trigger] b[r]@[c] == a[r]@[c]
}

/// Crane `i` did exactly what action `mv` says, as far as the crane and the
/// board show: a step moves it one cell with its load; a lift takes the
/// container of its cell; a drop puts its container on its (empty) cell; a
/// wait changes neither; a retirement removes the empty crane.
pub open spec fn acted(before: &Yard, after: &Yard, i: int, mv: CraneMove) -> bool {
    let bc = before.cranes@[i];
    let ac = after.cranes@[i];
    let p = bc.spec_pos().unwrap();
    match mv {
        CraneMove::Lift => {
            &&& bc.spec_is_empty()
            &&& ac.spec_pos() == bc.spec_pos()
            &&& ac.spec_is_big() == bc.spec_is_big()
            &&& ac.spec_lifting_cid() is Some
            &&& cell_at(before.board@, p) == BoardStatus::Container(ac.spec_lifting_cid().unwrap())
            &&& cell_at(after.board@, p) == BoardStatus::Empty
            &&& same_board_except(before.board@, after.board@, p)
        },
        CraneMove::Drop => {
            &&& bc.spec_lifting_cid() is Some
            &&& ac.spec_pos() == bc.spec_pos()
            &&& ac.spec_is_big() == bc.spec_is_big()
            &&& ac.spec_lifting_cid() is None
            &&& cell_at(before.board@, p) == BoardStatus::Empty
            &&& cell_at(after.board@, p) == BoardStatus::Container(bc.spec_lifting_cid().unwrap())
            &&& same_board_except(before.board@, after.board@, p)
        },
        CraneMove::Wait => ac == bc && after.board == before.board,
        CraneMove::Remove => bc.spec_is_empty() && ac is Removed && after.board == before.board,
        _ => {
            &&& ac.spec_pos() is Some
            &&& as_int(ac.spec_pos().unwrap()) == shift(as_int(p), mv)
            &&& ac.spec_lifting_cid() == bc.spec_lifting_cid()
            &&& ac.spec_is_big() == bc.spec_is_big()
            &&& after.board == before.board
        },
    }
}

/// A crane is fixed by its position, its kind and its load.
proof fn lemma_crane_fields(a: CraneStatus, b: CraneStatus)
    requires
        a.spec_pos() is Some,
        a.spec_pos() == b.spec_pos(),
        a.spec_is_big() == b.spec_is_big(),
        a.spec_lifting_cid() == b.spec_lifting_cid(),
    ensures
        a == b,
{
    match a {
        CraneStatus::BigEmpty(_) => {
            assert(b is BigEmpty);
        },
        CraneStatus::BigLift(_, _) => {
            assert(b is BigLift);
        },
        CraneStatus::SmallEmpty(_) => {
            assert(b is SmallEmpty);
        },
        CraneStatus::SmallLift(_, _) => {
            assert(b is SmallLift);
        },
        CraneStatus::Removed => {},
    }
}

/// Replaying a recorded action is deterministic: when crane `i` takes
/// action `mv` from one state twice, the crane and every cell of the board
/// end up the same both times.
pub proof fn lemma_action_replay_deterministic(before: &Yard, a1: &Yard, a2: &Yard, i: int, mv: CraneMove)
    requires
        0 <= i < CRANE_NUM,
        before.cranes@.len() == CRANE_NUM,
        before.cranes@[i].spec_pos() is Some,
        acted(before, a1, i, mv),
        acted(before, a2, i, mv),
    ensures
        a1.cranes@[i] == a2.cranes@[i],
        forall|r: int, c: int| 0 <= r < GRID_SIZE && 0 <= c < GRID_SIZE ==> #[trigger] a1.board@[r]@[c] == a2.board@[r]@[c],
{
    let p = before.cranes@[i].spec_pos().unwrap();
    match mv {
        CraneMove::Wait => {},
        CraneMove::Remove => {},
        CraneMove::Lift => {
            lemma_crane_fields(a1.cranes@[i], a2.cranes@[i]);
            assert forall|r: int, c: int| 0 <= r < GRID_SIZE && 0 <= c < GRID_SIZE implies #[trigger] a1.board@[r]@[c] == a2.board@[r]@[c] by {
                if r != p.0 || c != p.1 {
                    assert(a1.board@[r]@[c] == before.board@[r]@[c]);
                    assert(a2.board@[r]@[c] == before.board@[r]@[c]);
                }
            }
        },
        CraneMove::Drop => {
            lemma_crane_fields(a1.cranes@[i], a2.cranes@[i]);
            assert forall|r: int, c: int| 0 <= r < GRID_SIZE && 0 <= c < GRID_SIZE implies #[trigger] a1.board@[r]@[c] == a2.board@[r]@[c] by {
                if r != p.0 || c != p.1 {
                    assert(a1.board@[r]@[c] == before.board@[r]@[c]);
                    assert(a2.board@[r]@[c] == before.board@[r]@[c]);
                }
            }
        },
        _ => {
            lemma_crane_fields(a1.cranes@[i], a2.cranes@[i]);
        },
    }
}

/// The cell under crane `i` holds a container that it claimed or that
/// nobody claimed, and the crane carries nothing.
pub open spec fn can_lift(y: &Yard, i: int) -> bool {
    let cell = cell_at(y.board@, y.cranes@[i].spec_pos().unwrap());
    &&& y.cranes@[i].spec_is_empty()
    &&& cell is Container
    &&& (y.containers@[cell->Container_0 as int] == ContainerStatus::Accepted(i as usize)
        || y.containers@[cell->Container_0 as int] is Free)
}

/// No step of crane `i` is legal on this turn.
pub open spec fn stuck(y: &Yard, i: int, prev: Seq<CraneStatus>) -> bool {
    forall|d: int|
        0 <= d < 4 ==> !#[trigger] movable(
            i,
            as_int(y.cranes@[i].spec_pos().unwrap()),
            spec_step_dir(d),
            y.board@,
            y.cranes@,
            prev,
        )
}

/// What a crane action leaves alone.
pub open spec fn same_plans(a: &Yard, b: &Yard) -> bool {
    &&& a.incoming == b.incoming
    &&& a.next_in == b.next_in
    &&& a.goal_want == b.goal_want
    &&& a.ans == b.ans
    &&& a.turn == b.turn
}

impl Yard {
    /// Crane `i` takes the legal step `mv`.
    pub fn step_crane(&mut self, i: usize, mv: CraneMove, prev: &Vec<CraneStatus>)
        requires
            old(self).wf(),
            i < CRANE_NUM,
            prev@.len() == CRANE_NUM,
            mv.is_step(),
            old(self).cranes@[i as int].spec_pos() is Some,
            movable(
                i as int,
                as_int(old(self).cranes@[i as int].spec_pos().unwrap()),
                mv,
                old(self).board@,
                old(self).cranes@,
                prev@,
            ),
        ensures
            final(self).wf(),
            same_plans(old(self), final(self)),
            final(self).board == old(self).board,
            final(self).containers == old(self).containers,
            final(self).scheduled == old(self).scheduled,
            legal_change(i as int, old(self).cranes@, final(self).cranes@, prev@),
            final(self).cranes@[i as int].spec_pos() is Some,
            as_int(final(self).cranes@[i as int].spec_pos().unwrap()) == shift(
                as_int(old(self).cranes@[i as int].spec_pos().unwrap()),
                mv,
            ),
            final(self).cranes@[i as int].spec_lifting_cid() == old(self).cranes@[i as int].spec_lifting_cid(),
            final(self).cranes@[i as int].spec_is_big() == old(self).cranes@[i as int].spec_is_big(),
            acted(old(self), final(self), i as int, mv),
    {
        let p = self.cranes[i].pos().unwrap();
        let np = next_pos(p, mv);
        let c = self.cranes[i].move_to(np);
        let ghost before = self.cranes@;
        self.cranes.set(i, c);
        proof {
            let from = as_int(p);
            let to = as_int(np);
            assert forall|j: int| 0 <= j < CRANE_NUM && j != i implies !#[trigger] blocks(
                before[j],
                prev@[j],
                from,
                to,
            ) by {
                assert(!blocks(before[j], prev@[j], from, shift(from, mv)));
            }
            assert forall|a: int, b: int|
                0 <= a < CRANE_NUM && 0 <= b < CRANE_NUM && a != b && (
                #[trigger] self.cranes@[a]).spec_pos() is Some && (
                #[trigger] self.cranes@[b]).spec_pos() is Some implies self.cranes@[a].spec_pos()
                != self.cranes@[b].spec_pos() by {
                if a == i {
                    assert(!blocks(before[b], prev@[b], from, to));
                    assert(!stands_at(before[b], to));
                } else if b == i {
                    assert(!blocks(before[a], prev@[a], from, to));
                    assert(!stands_at(before[a], to));
                }
            }
            assert(forall|k: int| 0 <= k < CRANE_NUM ==> crane_ok(#[trigger] self.cranes@[k]));
            assert(carry_ok(self.cranes@, self.containers@));
        }
    }

    /// Crane `i` gives up the container it claimed but has not lifted.
    pub fn release_accepted(&mut self, i: usize)
        requires
            old(self).wf(),
            i < CRANE_NUM,
        ensures
            final(self).wf(),
            same_plans(old(self), final(self)),
            final(self).board == old(self).board,
            final(self).cranes == old(self).cranes,
            final(self).scheduled == old(self).scheduled,
            statuses_step(old(self).containers@, final(self).containers@, i),
            forall|c: int| 0 <= c < CONTAINER_NUM ==> #[trigger] final(self).containers@[c] != ContainerStatus::Accepted(i),
    {
        let mut c: usize = 0;
        while c < CONTAINER_NUM
            invariant
                self.wf(),
                i < CRANE_NUM,
                same_plans(old(self), self),
                self.board == old(self).board,
                self.cranes == old(self).cranes,
                self.scheduled == old(self).scheduled,
                statuses_step(old(self).containers@, self.containers@, i),
                forall|k: int| 0 <= k < c ==> #[trigger] self.containers@[k] != ContainerStatus::Accepted(i),
            decreases CONTAINER_NUM - c,
        {
            if self.containers[c] == ContainerStatus::Accepted(i) {
                let ghost pre = *self;
                self.containers.set(c, ContainerStatus::Free);
                proof {
                    assert forall|j: int|
                        0 <= j < CRANE_NUM && (#[trigger] self.cranes@[j]).spec_lifting_cid() is Some implies self.containers@[self.cranes@[j].spec_lifting_cid().unwrap() as int]
                        == ContainerStatus::BeingMoved(j as usize) by {
                        let cid = self.cranes@[j].spec_lifting_cid().unwrap() as int;
                        assert(pre.cranes@[j] == self.cranes@[j]);
                        assert(pre.containers@[cid] == ContainerStatus::BeingMoved(j as usize));
                    }
                }
            }
            c += 1;
        }
    }

    /// Crane `i`, carrying nothing, retires; every container it had claimed
    /// becomes free again.
    pub fn retire(&mut self, i: usize)
        requires
            old(self).wf(),
            i < CRANE_NUM,
            old(self).cranes@[i as int].spec_is_empty(),
        ensures
            final(self).wf(),
            same_plans(old(self), final(self)),
            final(self).board == old(self).board,
            final(self).scheduled == old(self).scheduled,
            final(self).cranes@ == old(self).cranes@.update(i as int, CraneStatus::Removed),
            statuses_step(old(self).containers@, final(self).containers@, i),
            acted(old(self), final(self), i as int, CraneMove::Remove),
            forall|c: int|
                0 <= c < CONTAINER_NUM ==> #[trigger] final(self).containers@[c] == (if old(self).containers@[c].spec_moved_by()
                    == Some(i) {
                    ContainerStatus::Free
                } else {
                    old(self).containers@[c]
                }),
    {
        self.cranes.set(i, CraneStatus::Removed);
        assert(no_collision(self.cranes@));
        assert(forall|k: int| 0 <= k < CRANE_NUM ==> crane_ok(#[trigger] self.cranes@[k]));
        assert(carry_ok(self.cranes@, self.containers@));
        let mut c: usize = 0;
        while c < CONTAINER_NUM
            invariant
                self.wf(),
                i < CRANE_NUM,
                same_plans(old(self), self),
                self.board == old(self).board,
                self.scheduled == old(self).scheduled,
                old(self).cranes@.len() == CRANE_NUM,
                self.cranes@ == old(self).cranes@.update(i as int, CraneStatus::Removed),
                statuses_step(old(self).containers@, self.containers@, i),
                c <= CONTAINER_NUM,
                old(self).containers@.len() == CONTAINER_NUM,
                forall|q: int|
                    0 <= q < c ==> #[trigger] self.containers@[q] == (if old(self).containers@[q].spec_moved_by() == Some(i) {
                        ContainerStatus::Free
                    } else {
                        old(self).containers@[q]
                    }),
                forall|q: int| c <= q < CONTAINER_NUM ==> #[trigger] self.containers@[q] == old(self).containers@[q],
            decreases CONTAINER_NUM - c,
        {
            if self.containers[c].moved_by() == Some(i) {
                let ghost pre = *self;
                self.containers.set(c, ContainerStatus::Free);
                proof {
                    assert forall|j: int|
                        0 <= j < CRANE_NUM && (#[trigger] self.cranes@[j]).spec_lifting_cid() is Some implies self.containers@[self.cranes@[j].spec_lifting_cid().unwrap() as int]
                        == ContainerStatus::BeingMoved(j as usize) by {
                        let cid = self.cranes@[j].spec_lifting_cid().unwrap() as int;
                        assert(j != i);
                        assert(pre.cranes@[j] == self.cranes@[j]);
                        assert(pre.containers@[cid] == ContainerStatus::BeingMoved(j as usize));
                    }
                }
            }
            c += 1;
        }
    }

    /// Crane `i` takes the first legal step among the four directions in a
    /// random order, drops its plan and releases its claim. Returns the step,
    /// or `None`, with nothing changed, when no step is legal.
    pub fn random_step(&mut self, i: usize, prev: &Vec<CraneStatus>, rng: &mut SmallRng) -> (r:
        Option<CraneMove>)
        requires
            old(self).wf(),
            i < CRANE_NUM,
            prev@.len() == CRANE_NUM,
            old(self).cranes@[i as int].spec_pos() is Some,
        ensures
            final(self).wf(),
            same_plans(old(self), final(self)),
            final(self).board == old(self).board,
            legal_change(i as int, old(self).cranes@, final(self).cranes@, prev@),
            statuses_step(old(self).containers@, final(self).containers@, i),
            final(self).cranes@[i as int].spec_lifting_cid() == old(self).cranes@[i as int].spec_lifting_cid(),
            final(self).cranes@[i as int].spec_pos() is Some,
            r is None ==> *final(self) == *old(self),
            r is None ==> stuck(old(self), i as int, prev@),
            r is Some ==> acted(old(self), final(self), i as int, r.unwrap()),
            r is Some ==> r.unwrap().is_step() && final(self).scheduled@[i as int]@.len() == 0
                && (forall|k: int| 0 <= k < CRANE_NUM && k != i ==> #[trigger] final(self).scheduled@[k] == old(self).scheduled@[k]),
    {
        let mut dirs: Vec<CraneMove> = vec![CraneMove::Up, CraneMove::Down, CraneMove::Left, CraneMove::Right];
        let ghost all_dirs = dirs@;
        shuffle(&mut dirs, rng);
        let ghost shuffled = dirs@;
        let mut d: usize = 0;
        while d < dirs.len()
            invariant
                self == old(self),
                dirs@ == shuffled,
                d <= dirs@.len(),
                forall|k: int| 0 <= k < d ==> !#[trigger] movable(
                    i as int,
                    as_int(old(self).cranes@[i as int].spec_pos().unwrap()),
                    dirs@[k],
                    old(self).board@,
                    old(self).cranes@,
                    prev@,
                ),
                old(self).wf(),
                i < CRANE_NUM,
                prev@.len() == CRANE_NUM,
                old(self).cranes@[i as int].spec_pos() is Some,
                forall|k: int| 0 <= k < dirs@.len() ==> all_dirs.contains(#[trigger] dirs@[k]),
                all_dirs == seq![CraneMove::Up, CraneMove::Down, CraneMove::Left, CraneMove::Right],
            decreases dirs@.len() - d,
        {
            let mv = dirs[d];
            assert(all_dirs.contains(mv));
            assert(mv.is_step());
            let p = self.cranes[i].pos().unwrap();
            if could_move(i, p, mv, &self.board, &self.cranes, prev) {
                self.step_crane(i, mv, prev);
                self.scheduled.set(i, Vec::new());
                let ghost mid = *self;
                self.release_accepted(i);
                assert(self.cranes == mid.cranes);
                return Some(mv);
            }
            d += 1;
        }
        proof {
            broadcast use vstd::seq_lib::group_to_multiset_ensures;

            assert forall|e: int| 0 <= e < 4 implies !#[trigger] movable(
                i as int,
                as_int(old(self).cranes@[i as int].spec_pos().unwrap()),
                spec_step_dir(e),
                old(self).board@,
                old(self).cranes@,
                prev@,
            ) by {
                assert(all_dirs[e] == spec_step_dir(e));
                assert(all_dirs.contains(spec_step_dir(e)));
                assert(all_dirs.to_multiset().count(spec_step_dir(e)) > 0);
                assert(shuffled.to_multiset().count(spec_step_dir(e)) > 0);
                assert(shuffled.contains(spec_step_dir(e)));
                let k = choose|k: int| 0 <= k < shuffled.len() && shuffled[k] == spec_step_dir(e);
                assert(!movable(
                    i as int,
                    as_int(old(self).cranes@[i as int].spec_pos().unwrap()),
                    dirs@[k],
                    old(self).board@,
                    old(self).cranes@,
                    prev@,
                ));
            }
        }
        None
    }

    /// Crane `i`, carrying nothing, lifts the container under it, which must
    /// be the one it claimed or one that nobody claimed (in a scripted
    /// opening). Returns `false`, with nothing changed, when the cell holds
    /// anything else: a contradiction that ends the run.
    pub fn lift(&mut self, i: usize) -> (ok: bool)
        requires
            old(self).wf(),
            i < CRANE_NUM,
            old(self).cranes@[i as int].spec_pos() is Some,
            old(self).cranes@[i as int].spec_is_empty(),
        ensures
            final(self).wf(),
            same_plans(old(self), final(self)),
            final(self).scheduled == old(self).scheduled,
            final(self).cranes@.len() == CRANE_NUM,
            final(self).cranes@[i as int].spec_pos() == old(self).cranes@[i as int].spec_pos(),
            forall|j: int| 0 <= j < CRANE_NUM && j != i ==> #[trigger] final(self).cranes@[j] == old(self).cranes@[j],
            statuses_step(old(self).containers@, final(self).containers@, i),
            !ok ==> *final(self) == *old(self),
            ok ==> acted(old(self), final(self), i as int, CraneMove::Lift),
            ok == can_lift(old(self), i as int),
    {
        let p = self.cranes[i].pos().unwrap();
        let cell = self.board[p.0][p.1];
        let c = match cell {
            BoardStatus::Container(c) => c,
            BoardStatus::Empty => {
                return false;
            },
        };
        if self.containers[c] != ContainerStatus::Accepted(i) && self.containers[c] != ContainerStatus::Free {
            return false;
        }
        let lifted = match self.cranes[i] {
            CraneStatus::BigEmpty(q) => CraneStatus::BigLift(q, c),
            CraneStatus::SmallEmpty(q) => CraneStatus::SmallLift(q, c),
            _ => {
                return false;
            },
        };
        let ghost pre = *self;
        self.cranes.set(i, lifted);
        self.board[p.0].set(p.1, BoardStatus::Empty);
        self.containers.set(c, ContainerStatus::BeingMoved(i));
        proof {
            assert(board_ok(self.board@));
            assert(forall|rr: int, cc: int|
                0 <= rr < GRID_SIZE && 0 <= cc < GRID_SIZE ==> cell_ok(#[trigger] self.board@[rr]@[cc]));
            assert(forall|k: int| 0 <= k < CRANE_NUM ==> crane_ok(#[trigger] self.cranes@[k]));
            assert(no_collision(self.cranes@));
            assert forall|j: int|
                0 <= j < CRANE_NUM && (#[trigger] self.cranes@[j]).spec_lifting_cid() is Some implies self.containers@[self.cranes@[j].spec_lifting_cid().unwrap() as int]
                == ContainerStatus::BeingMoved(j as usize) by {
                if j != i {
                    let cid = self.cranes@[j].spec_lifting_cid().unwrap() as int;
                    assert(pre.cranes@[j] == self.cranes@[j]);
                    assert(pre.containers@[cid] == ContainerStatus::BeingMoved(j as usize));
                }
            }
        }
        true
    }

    /// Crane `i` puts the container it carries down on its own cell: it is
    /// delivered on the right edge and free anywhere else. Returns `false`,
    /// with nothing changed, when the cell is taken.
    pub fn put_down(&mut self, i: usize) -> (ok: bool)
        requires
            old(self).wf(),
            i < CRANE_NUM,
            old(self).cranes@[i as int].spec_pos() is Some,
            !old(self).cranes@[i as int].spec_is_empty(),
        ensures
            final(self).wf(),
            same_plans(old(self), final(self)),
            final(self).scheduled == old(self).scheduled,
            final(self).cranes@.len() == CRANE_NUM,
            final(self).cranes@[i as int].spec_pos() == old(self).cranes@[i as int].spec_pos(),
            forall|j: int| 0 <= j < CRANE_NUM && j != i ==> #[trigger] final(self).cranes@[j] == old(self).cranes@[j],
            statuses_step(old(self).containers@, final(self).containers@, i),
            !ok ==> *final(self) == *old(self),
            ok ==> acted(old(self), final(self), i as int, CraneMove::Drop),
            ok ==> {
                let c = old(self).cranes@[i as int].spec_lifting_cid().unwrap() as int;
                &&& final(self).containers@[c] == (if old(self).cranes@[i as int].spec_pos().unwrap().1 == GRID_SIZE - 1 {
                    ContainerStatus::Completed
                } else {
                    ContainerStatus::Free
                })
                &&& forall|q: int| 0 <= q < CONTAINER_NUM && q != c ==> #[trigger] final(self).containers@[q] == old(self).containers@[q]
            },
            ok == (cell_at(old(self).board@, old(self).cranes@[i as int].spec_pos().unwrap()) == BoardStatus::Empty),
    {
        let p = self.cranes[i].pos().unwrap();
        if self.board[p.0][p.1] != BoardStatus::Empty {
            return false;
        }
        let (emptied, c) = match self.cranes[i] {
            CraneStatus::BigLift(q, c) => (CraneStatus::BigEmpty(q), c),
            CraneStatus::SmallLift(q, c) => (CraneStatus::SmallEmpty(q), c),
            _ => {
                return false;
            },
        };
        let ghost pre = *self;
        self.cranes.set(i, emptied);
        self.board[p.0].set(p.1, BoardStatus::Container(c));
        if p.1 == GRID_SIZE - 1 {
            self.containers.set(c, ContainerStatus::Completed);
        } else {
            self.containers.set(c, ContainerStatus::Free);
        }
        proof {
            assert(pre.containers@[c as int] == ContainerStatus::BeingMoved(i));
            assert(board_ok(self.board@));
            assert(forall|rr: int, cc: int|
                0 <= rr < GRID_SIZE && 0 <= cc < GRID_SIZE ==> cell_ok(#[trigger] self.board@[rr]@[cc]));
            assert(forall|k: int| 0 <= k < CRANE_NUM ==> crane_ok(#[trigger] self.cranes@[k]));
            assert(no_collision(self.cranes@));
            assert forall|j: int|
                0 <= j < CRANE_NUM && (#[trigger] self.cranes@[j]).spec_lifting_cid() is Some implies self.containers@[self.cranes@[j].spec_lifting_cid().unwrap() as int]
                == ContainerStatus::BeingMoved(j as usize) by {
                let cid = self.cranes@[j].spec_lifting_cid().unwrap() as int;
                assert(pre.cranes@[j] == self.cranes@[j]);
                assert(pre.containers@[cid] == ContainerStatus::BeingMoved(j as usize));
            }
        }
        true
    }
}

} // verus!
