//! Running whole simulations: the two openings, the turn loop, the random
//! choices of one attempt, and keeping the best schedule of many attempts.
use vstd::prelude::*;
use rand::rngs::SmallRng;

use crate::chance::{draw, shuffle};
use crate::judge::{delivers_all, replays_all};
use crate::crane::{BoardStatus, ContainerStatus, CraneMove, CraneStatus, CONTAINER_NUM, CRANE_NUM, GRID_SIZE};
use crate::moves::{as_int, in_grid};
use crate::turn::{lemma_legal_change_no_swap, no_swap, TurnEnd};
use crate::yard::{
    all_completed, all_lanes_done, arrives, cell_ok, crane_ok, delivery_expected, incoming_ok, is_action_char, lane_after,
    no_collision, Yard, TURN_MAX,
};

verus! {

/// The actions of the opening that moves the first three containers of
/// every row to columns 3, 2 and 1.
pub open spec fn sweep_opening() -> Seq<char> {
    seq!['P', 'R', 'R', 'R', 'Q', 'L', 'L', 'L', 'P', 'R', 'R', 'Q', 'L', 'L', 'P', 'R', 'Q']
}

/// The planned E-shaped sweep of cranes 0, 2 and 4, next action last: lift
/// and carry three cells right, come back, lift and carry two cells right,
/// come back, lift.
pub open spec fn e_sweep() -> Seq<CraneMove> {
    seq![
        CraneMove::Lift, CraneMove::Left, CraneMove::Left, CraneMove::Drop,
        CraneMove::Right, CraneMove::Right, CraneMove::Lift, CraneMove::Left,
        CraneMove::Left, CraneMove::Left, CraneMove::Drop, CraneMove::Right,
        CraneMove::Right, CraneMove::Right, CraneMove::Lift,
    ]
}

/// Row `k` of the board that an opening leaves.
pub open spec fn opening_row(incoming: Seq<Vec<usize>>, k: int, sweep_first: bool) -> Seq<BoardStatus> {
    if sweep_first {
        seq![
            BoardStatus::Empty,
            BoardStatus::Container(incoming[k]@[2]),
            BoardStatus::Container(incoming[k]@[1]),
            BoardStatus::Container(incoming[k]@[0]),
            BoardStatus::Empty,
        ]
    } else {
        seq![BoardStatus::Empty, BoardStatus::Empty, BoardStatus::Empty, BoardStatus::Empty, BoardStatus::Empty]
    }
}

pub open spec fn opening_crane(k: int, sweep_first: bool) -> CraneStatus {
    let col: usize = if sweep_first { 1 } else { 0 };
    if k == 0 {
        CraneStatus::BigEmpty((0, col))
    } else {
        CraneStatus::SmallEmpty((k as usize, col))
    }
}

/// The schedule that only carries each row's containers straight across, in
/// arrival order.
pub open spec fn shuttle_line() -> Seq<char> {
    seq![
        'P', 'R', 'R', 'R', 'R', 'Q', 'L', 'L', 'L', 'L',
        'P', 'R', 'R', 'R', 'R', 'Q', 'L', 'L', 'L', 'L',
        'P', 'R', 'R', 'R', 'R', 'Q', 'L', 'L', 'L', 'L',
        'P', 'R', 'R', 'R', 'R', 'Q', 'L', 'L', 'L', 'L',
        'P', 'R', 'R', 'R', 'R', 'Q',
    ]
}

pub open spec fn same_lengths(s: Seq<Vec<char>>) -> bool {
    forall|k: int| 0 <= k < s.len() ==> (#[trigger] s[k])@.len() == s[0]@.len()
}

/// Total number of actions of a schedule, over all cranes.
pub open spec fn total_actions(s: Seq<Vec<char>>) -> int
    decreases s.len(),
{
    if s.len() == 0 {
        0
    } else {
        total_actions(s.drop_last()) + s.last()@.len()
    }
}

fn chars_of(text: &str) -> (r: Vec<char>)
    ensures
        r@ == text@,
{
    let mut r: Vec<char> = Vec::new();
    let n = text.unicode_len();
    let mut k: usize = 0;
    while k < n
        invariant
            k <= n,
            n == text@.len(),
            r@ == text@.take(k as int),
        decreases n - k,
    {
        r.push(text.get_char(k));
        k += 1;
        assert(r@ =~= text@.take(k as int));
    }
    assert(text@.take(n as int) =~= text@);
    r
}

/// The fallback schedule: every crane carries its row's containers straight
/// across to the exit, one by one.
pub fn fallback_schedule() -> (r: Vec<Vec<char>>)
    ensures
        r@.len() == CRANE_NUM,
        forall|k: int| 0 <= k < CRANE_NUM ==> (#[trigger] r@[k])@ == shuttle_line(),
{
    let mut r: Vec<Vec<char>> = Vec::new();
    let mut k: usize = 0;
    while k < CRANE_NUM
        invariant
            k <= CRANE_NUM,
            r@.len() == k,
            forall|m: int| 0 <= m < k ==> (#[trigger] r@[m])@ == shuttle_line(),
        decreases CRANE_NUM - k,
    {
        let line = chars_of("PRRRRQLLLLPRRRRQLLLLPRRRRQLLLLPRRRRQLLLLPRRRRQ");
        proof {
            reveal_strlit("PRRRRQLLLLPRRRRQLLLLPRRRRQLLLLPRRRRQLLLLPRRRRQ");
            assert(line@ =~= shuttle_line());
        }
        r.push(line);
        k += 1;
    }
    r
}

impl Yard {
    /// The yard before the first turn. With `sweep_first` the opening has
    /// already moved each row's first three containers to columns 3, 2 and 1
    /// and left every crane on column 1; otherwise every crane stands on the
    /// entry column, and cranes 0, 2 and 4 have an E-shaped sweep planned.
    pub fn start(incoming: Vec<Vec<usize>>, sweep_first: bool) -> (r: Yard)
        requires
            incoming_ok(incoming@),
        ensures
            r.wf(),
            r.incoming@ == incoming@,
            forall|c: int| 0 <= c < CONTAINER_NUM ==> #[trigger] r.containers@[c] is Free,
            forall|k: int| 0 <= k < GRID_SIZE ==> #[trigger] r.goal_want@[k] == Some((k * GRID_SIZE) as usize),
            forall|k: int| 0 <= k < CRANE_NUM ==> (#[trigger] r.ans@[k])@ == (if sweep_first {
                sweep_opening()
            } else {
                Seq::<char>::empty()
            }),
            forall|k: int| 0 <= k < GRID_SIZE ==> (#[trigger] r.board@[k])@ == opening_row(incoming@, k, sweep_first),
            forall|k: int| 0 <= k < GRID_SIZE ==> #[trigger] r.next_in@[k] == (if sweep_first { 3usize } else { 0usize }),
            forall|k: int| 0 <= k < CRANE_NUM ==> #[trigger] r.cranes@[k] == opening_crane(k, sweep_first),
            forall|k: int| 0 <= k < CRANE_NUM ==> (#[trigger] r.scheduled@[k])@ == (if !sweep_first && k % 2 == 0 {
                e_sweep()
            } else {
                Seq::<CraneMove>::empty()
            }),
    {
        let col: usize = if sweep_first { 1 } else { 0 };
        let mut board: Vec<Vec<BoardStatus>> = Vec::new();
        let mut cranes: Vec<CraneStatus> = Vec::new();
        let mut goal_want: Vec<Option<usize>> = Vec::new();
        let mut next_in: Vec<usize> = Vec::new();
        let mut ans: Vec<Vec<char>> = Vec::new();
        let mut scheduled: Vec<Vec<CraneMove>> = Vec::new();
        let mut r: usize = 0;
        while r < GRID_SIZE
            invariant
                r <= GRID_SIZE,
                col <= 1,
                incoming_ok(incoming@),
                board@.len() == r,
                cranes@.len() == r,
                goal_want@.len() == r,
                next_in@.len() == r,
                ans@.len() == r,
                scheduled@.len() == r,
                forall|k: int| 0 <= k < r ==> (#[trigger] board@[k])@.len() == GRID_SIZE,
                forall|k: int, c: int| 0 <= k < r && 0 <= c < GRID_SIZE ==> cell_ok(#[trigger] board@[k]@[c]),
                forall|k: int| 0 <= k < r ==> #[trigger] cranes@[k] == (if k == 0 {
                    CraneStatus::BigEmpty((0, col))
                } else {
                    CraneStatus::SmallEmpty((k as usize, col))
                }),
                forall|k: int| 0 <= k < r ==> #[trigger] goal_want@[k] == Some((k * GRID_SIZE) as usize),
                forall|k: int| 0 <= k < r ==> #[trigger] next_in@[k] <= GRID_SIZE,
                forall|k: int| 0 <= k < r ==> (#[trigger] ans@[k])@ == (if sweep_first {
                    sweep_opening()
                } else {
                    Seq::<char>::empty()
                }),
                forall|k: int, j: int| 0 <= k < r && 0 <= j < ans@[k]@.len() ==> is_action_char(#[trigger] ans@[k]@[j]),
                col == (if sweep_first { 1usize } else { 0usize }),
                forall|k: int| 0 <= k < r ==> (#[trigger] board@[k])@ == opening_row(incoming@, k, sweep_first),
                forall|k: int| 0 <= k < r ==> #[trigger] next_in@[k] == (if sweep_first { 3usize } else { 0usize }),
                forall|k: int| 0 <= k < r ==> (#[trigger] scheduled@[k])@ == (if !sweep_first && k % 2 == 0 {
                    e_sweep()
                } else {
                    Seq::<CraneMove>::empty()
                }),
            decreases GRID_SIZE - r,
        {
            let mut row: Vec<BoardStatus> = vec![BoardStatus::Empty; GRID_SIZE];
            let mut plan: Vec<CraneMove> = Vec::new();
            let mut line: Vec<char> = Vec::new();
            if sweep_first {
                row.set(3, BoardStatus::Container(incoming[r][0]));
                row.set(2, BoardStatus::Container(incoming[r][1]));
                row.set(1, BoardStatus::Container(incoming[r][2]));
                next_in.push(3);
                line = chars_of("PRRRQLLLPRRQLLPRQ");
                proof {
                    reveal_strlit("PRRRQLLLPRRQLLPRQ");
                    assert(line@ =~= sweep_opening());
                }
            } else {
                next_in.push(0);
                if r % 2 == 0 {
                    plan = vec![
                        CraneMove::Lift, CraneMove::Left, CraneMove::Left, CraneMove::Drop,
                        CraneMove::Right, CraneMove::Right, CraneMove::Lift, CraneMove::Left,
                        CraneMove::Left, CraneMove::Left, CraneMove::Drop, CraneMove::Right,
                        CraneMove::Right, CraneMove::Right, CraneMove::Lift,
                    ];
                }
            }
            assert(forall|c: int| 0 <= c < GRID_SIZE ==> cell_ok(#[trigger] row@[c]));
            assert(row@ =~= opening_row(incoming@, r as int, sweep_first));
            assert(plan@ =~= (if !sweep_first && r % 2 == 0 { e_sweep() } else { Seq::<CraneMove>::empty() }));
            board.push(row);
            if r == 0 {
                cranes.push(CraneStatus::BigEmpty((0, col)));
            } else {
                cranes.push(CraneStatus::SmallEmpty((r, col)));
            }
            goal_want.push(Some(r * GRID_SIZE));
            ans.push(line);
            scheduled.push(plan);
            r += 1;
        }
        let mut containers: Vec<ContainerStatus> = Vec::new();
        let mut c: usize = 0;
        while c < CONTAINER_NUM
            invariant
                c <= CONTAINER_NUM,
                containers@.len() == c,
                forall|k: int| 0 <= k < c ==> #[trigger] containers@[k] is Free,
            decreases CONTAINER_NUM - c,
        {
            containers.push(ContainerStatus::Free);
            c += 1;
        }
        let turn: usize = if sweep_first { 17 } else { 0 };
        let y = Yard { incoming, next_in, board, cranes, containers, goal_want, ans, scheduled, turn };
        proof {
            assert forall|i: int| 0 <= i < CRANE_NUM implies crane_ok(#[trigger] y.cranes@[i]) by {}
            assert forall|i: int| 0 <= i < GRID_SIZE implies crate::yard::cursor_ok(i, #[trigger] y.goal_want@[i]) by {
                assert((i * GRID_SIZE) / GRID_SIZE as int == i);
            }
        }
        y
    }

    /// One turn: the counter advances, containers arrive and leave, and then
    /// every active crane acts once, in index order; its action is appended
    /// to its schedule, after padding with waits. Ends early with `Finished`
    /// when every container has been delivered, and with `Abort` on a
    /// contradiction.
    pub fn run_turn(&mut self, removal: &Vec<bool>, rng: &mut SmallRng) -> (r: TurnEnd)
        requires
            old(self).wf(),
            old(self).turn + 1 < TURN_MAX,
            removal@.len() == CRANE_NUM,
        ensures
            r != TurnEnd::Abort ==> final(self).wf(),
            r != TurnEnd::Abort ==> no_collision(final(self).cranes@),
            r != TurnEnd::Abort ==> final(self).turn == old(self).turn + 1,
            r != TurnEnd::Abort ==> final(self).incoming == old(self).incoming,
            r == TurnEnd::Continue ==> no_swap(old(self).cranes@, final(self).cranes@),
            r != TurnEnd::Abort ==> forall|c: int|
                0 <= c < CONTAINER_NUM && (#[trigger] old(self).containers@[c]) is Completed
                    ==> final(self).containers@[c] is Completed,
            r == TurnEnd::Finished ==> all_completed(final(self).containers@),
            r != TurnEnd::Abort ==> forall|q: int|
                0 <= q < GRID_SIZE ==> #[trigger] final(self).next_in@[q] == (if arrives(old(self), q) {
                    old(self).next_in@[q] + 1
                } else {
                    old(self).next_in@[q] as int
                }),
            r != TurnEnd::Abort ==> forall|q: int|
                0 <= q < GRID_SIZE ==> #[trigger] final(self).goal_want@[q] == lane_after(
                    old(self).board@[q]@[GRID_SIZE - 1],
                    old(self).goal_want@[q],
                ),
            !(forall|q: int|
                0 <= q < GRID_SIZE ==> #[trigger] delivery_expected(old(self).board@[q]@[GRID_SIZE - 1], old(self).goal_want@[q]))
                ==> r == TurnEnd::Abort,
            r == TurnEnd::Finished ==> final(self).ans == old(self).ans,
            r == TurnEnd::Continue ==> forall|k: int|
                0 <= k < CRANE_NUM ==> #[trigger] schedule_grows(
                    old(self).ans@[k]@,
                    final(self).ans@[k]@,
                    old(self).cranes@[k] is Removed,
                    final(self).turn as int,
                ),
    {
        let ghost start = *self;
        self.turn = self.turn + 1;
        proof {
            assert forall|q: int| 0 <= q < GRID_SIZE implies arrives(&start, q) == arrives(self, q) by {}
        }
        self.receive();
        if !self.collect() {
            return TurnEnd::Abort;
        }
        if self.is_all_completed() {
            return TurnEnd::Finished;
        }
        let mut prev: Vec<CraneStatus> = Vec::new();
        let mut k: usize = 0;
        while k < CRANE_NUM
            invariant
                k <= CRANE_NUM,
                self.cranes@.len() == CRANE_NUM,
                prev@ == self.cranes@.take(k as int),
            decreases CRANE_NUM - k,
        {
            prev.push(self.cranes[k]);
            k += 1;
            assert(prev@ =~= self.cranes@.take(k as int));
        }
        assert(prev@ =~= self.cranes@.take(CRANE_NUM as int));
        assert(prev@ =~= self.cranes@);
        assert(no_swap(prev@, self.cranes@));
        let ghost turn_start = *self;
        let mut i: usize = 0;
        while i < CRANE_NUM
            invariant
                i <= CRANE_NUM,
                self.wf(),
                old(self).wf(),
                self.next_in == turn_start.next_in,
                self.goal_want == turn_start.goal_want,
                forall|k: int| 0 <= k < i ==> #[trigger] schedule_grows(
                    old(self).ans@[k]@,
                    self.ans@[k]@,
                    prev@[k] is Removed,
                    self.turn as int,
                ),
                forall|k: int| i <= k < CRANE_NUM ==> #[trigger] self.ans@[k] == old(self).ans@[k],
                removal@.len() == CRANE_NUM,
                prev@.len() == CRANE_NUM,
                prev@ == old(self).cranes@,
                old(self).containers@.len() == CONTAINER_NUM,
                self.turn == old(self).turn + 1,
                self.incoming == old(self).incoming,
                forall|k: int| i <= k < CRANE_NUM ==> #[trigger] self.cranes@[k] == prev@[k],
                no_swap(prev@, self.cranes@),
                forall|c: int|
                    0 <= c < CONTAINER_NUM && (#[trigger] old(self).containers@[c]) is Completed
                        ==> self.containers@[c] is Completed,
            decreases CRANE_NUM - i,
        {
            if !self.cranes[i].is_removed() {
                let ghost pre_pad = *self;
                while self.ans[i].len() < self.turn - 1
                    invariant
                        self.wf(),
                        i < CRANE_NUM,
                        self.turn == old(self).turn + 1,
                        self.ans@[i as int]@.len() < self.turn,
                        self.cranes == pre_pad.cranes,
                        self.containers == pre_pad.containers,
                        self.incoming == pre_pad.incoming,
                        self.next_in == pre_pad.next_in,
                        self.goal_want == pre_pad.goal_want,
                        forall|k: int| 0 <= k < CRANE_NUM && k != i ==> #[trigger] self.ans@[k] == pre_pad.ans@[k],
                        self.ans@[i as int]@.len() >= pre_pad.ans@[i as int]@.len(),
                        self.ans@[i as int]@.subrange(0, pre_pad.ans@[i as int]@.len() as int) == pre_pad.ans@[i as int]@,
                        forall|j: int| pre_pad.ans@[i as int]@.len() <= j < self.ans@[i as int]@.len() ==> #[trigger] self.ans@[i as int]@[j] == '.',
                    decreases self.turn - self.ans@[i as int]@.len(),
                {
                    let ghost before_pad = *self;
                    self.ans[i].push('.');
                    assert(self.ans@[i as int]@.subrange(0, pre_pad.ans@[i as int]@.len() as int) =~= before_pad.ans@[i as int]@.subrange(0, pre_pad.ans@[i as int]@.len() as int));
                    assert(forall|k: int| 0 <= k < CRANE_NUM ==> (#[trigger] self.ans@[k])@.len() <= self.turn);
                    assert forall|k: int, j: int|
                        0 <= k < CRANE_NUM && 0 <= j < self.ans@[k]@.len() implies is_action_char(
                            #[trigger] self.ans@[k]@[j],
                        ) by {
                        if k != i || j < self.ans@[k]@.len() - 1 {
                            assert(self.ans@[k]@[j] == before_pad.ans@[k]@[j]);
                        }
                    }
                }
                let ghost before = *self;
                match self.crane_turn(i, &prev, removal[i], rng) {
                    None => {
                        return TurnEnd::Abort;
                    },
                    Some(mv) => {
                        proof {
                            lemma_legal_change_no_swap(i as int, before.cranes@, self.cranes@, prev@);
                            assert forall|c: int|
                                0 <= c < CONTAINER_NUM && (#[trigger] old(self).containers@[c]) is Completed
                                    implies self.containers@[c] is Completed by {
                                assert(before.containers@[c] is Completed);
                                assert(crate::actions::status_step(before.containers@[c], self.containers@[c], i));
                            }
                        }
                        let ghost before_push = *self;
                        self.ans[i].push(mv.to_ans());
                        proof {
                            assert(self.ans@[i as int]@.subrange(0, old(self).ans@[i as int]@.len() as int) =~= before_push.ans@[i as int]@.subrange(0, old(self).ans@[i as int]@.len() as int));
                            assert(schedule_grows(old(self).ans@[i as int]@, self.ans@[i as int]@, prev@[i as int] is Removed, self.turn as int));
                            assert(forall|k: int| 0 <= k < CRANE_NUM ==> (#[trigger] self.ans@[k])@.len() <= self.turn);
                            assert forall|k: int, j: int|
                                0 <= k < CRANE_NUM && 0 <= j < self.ans@[k]@.len() implies is_action_char(
                                    #[trigger] self.ans@[k]@[j],
                                ) by {
                                if k != i || j < self.ans@[k]@.len() - 1 {
                                    assert(self.ans@[k]@[j] == before.ans@[k]@[j]);
                                }
                            }
                        }
                    },
                }
            }
            i += 1;
        }
        TurnEnd::Continue
    }

    /// Runs turns until every lane is done, the turn budget is spent, or a
    /// contradiction ends the run. Succeeds when every container has been
    /// delivered and every lane has received its whole row-group.
    pub fn run(&mut self, removal: &Vec<bool>, rng: &mut SmallRng) -> (ok: bool)
        requires
            old(self).wf(),
            removal@.len() == CRANE_NUM,
        ensures
            ok ==> final(self).wf(),
            ok ==> all_completed(final(self).containers@),
            ok ==> all_lanes_done(final(self).goal_want@),
            old(self).turn + 1 >= TURN_MAX || all_lanes_done(old(self).goal_want@) ==> *final(self) == *old(self)
                && ok == (all_completed(old(self).containers@) && all_lanes_done(old(self).goal_want@)),
    {
        let ghost start = *self;
        while self.turn + 1 < TURN_MAX && !self.is_all_lanes_done()
            invariant
                self.wf(),
                removal@.len() == CRANE_NUM,
                start == *old(self),
                start.turn + 1 >= TURN_MAX || all_lanes_done(start.goal_want@) ==> *self == start,
            decreases TURN_MAX - self.turn,
        {
            match self.run_turn(removal, rng) {
                TurnEnd::Abort => {
                    return false;
                },
                TurnEnd::Finished => {
                    break;
                },
                TurnEnd::Continue => {},
            }
        }
        self.is_all_completed() && self.is_all_lanes_done()
    }

    /// The cranes' schedules, padded with waits to a common length.
    pub fn schedules(&self) -> (r: Vec<Vec<char>>)
        requires
            self.wf(),
        ensures
            r@.len() == CRANE_NUM,
            same_lengths(r@),
            forall|k: int| 0 <= k < CRANE_NUM ==> (#[trigger] r@[k])@.len() <= TURN_MAX,
            forall|k: int, j: int|
                0 <= k < CRANE_NUM && 0 <= j < r@[k]@.len() ==> is_action_char(#[trigger] r@[k]@[j]),
            forall|k: int, j: int|
                0 <= k < CRANE_NUM && 0 <= j < self.ans@[k]@.len() ==> #[trigger] r@[k]@[j] == self.ans@[k]@[j],
    {
        let mut width: usize = 0;
        let mut k: usize = 0;
        while k < CRANE_NUM
            invariant
                self.wf(),
                k <= CRANE_NUM,
                width <= self.turn,
                forall|m: int| 0 <= m < k ==> (#[trigger] self.ans@[m])@.len() <= width,
            decreases CRANE_NUM - k,
        {
            if self.ans[k].len() > width {
                width = self.ans[k].len();
            }
            k += 1;
        }
        let mut r: Vec<Vec<char>> = Vec::new();
        let mut k: usize = 0;
        while k < CRANE_NUM
            invariant
                self.wf(),
                k <= CRANE_NUM,
                width <= self.turn,
                forall|m: int| 0 <= m < CRANE_NUM ==> (#[trigger] self.ans@[m])@.len() <= width,
                r@.len() == k,
                forall|m: int| 0 <= m < k ==> (#[trigger] r@[m])@.len() == width,
                forall|m: int, j: int|
                    0 <= m < k && 0 <= j < r@[m]@.len() ==> is_action_char(#[trigger] r@[m]@[j]),
                forall|m: int, j: int|
                    0 <= m < k && 0 <= j < self.ans@[m]@.len() ==> #[trigger] r@[m]@[j] == self.ans@[m]@[j],
            decreases CRANE_NUM - k,
        {
            let mut line: Vec<char> = Vec::new();
            let mut j: usize = 0;
            while j < width
                invariant
                    self.wf(),
                    k < CRANE_NUM,
                    j <= width,
                    self.ans@[k as int]@.len() <= width,
                    line@.len() == j,
                    forall|t: int| 0 <= t < j ==> is_action_char(#[trigger] line@[t]),
                    forall|t: int| 0 <= t < j && t < self.ans@[k as int]@.len() ==> #[trigger] line@[t] == self.ans@[k as int]@[t],
                decreases width - j,
            {
                if j < self.ans[k].len() {
                    line.push(self.ans[k][j]);
                } else {
                    line.push('.');
                }
                j += 1;
            }
            r.push(line);
            k += 1;
        }
        proof {
            assert forall|m: int| 0 <= m < r@.len() implies (#[trigger] r@[m])@.len() == r@[0]@.len() by {}
        }
        r
    }
}

fn copy_incoming(incoming: &Vec<Vec<usize>>) -> (r: Vec<Vec<usize>>)
    ensures
        r@.len() == incoming@.len(),
        forall|q: int| 0 <= q < incoming@.len() ==> (#[trigger] r@[q])@ == incoming@[q]@,
{
    let mut r: Vec<Vec<usize>> = Vec::new();
    let mut q: usize = 0;
    while q < incoming.len()
        invariant
            q <= incoming@.len(),
            r@.len() == q,
            forall|m: int| 0 <= m < q ==> (#[trigger] r@[m])@ == incoming@[m]@,
        decreases incoming@.len() - q,
    {
        let mut row: Vec<usize> = Vec::new();
        let mut j: usize = 0;
        while j < incoming[q].len()
            invariant
                q < incoming@.len(),
                j <= incoming@[q as int]@.len(),
                row@ == incoming@[q as int]@.take(j as int),
            decreases incoming@[q as int]@.len() - j,
        {
            row.push(incoming[q][j]);
            j += 1;
            assert(row@ =~= incoming@[q as int]@.take(j as int));
        }
        assert(incoming@[q as int]@.take(incoming@[q as int]@.len() as int) =~= incoming@[q as int]@);
        r.push(row);
        q += 1;
    }
    r
}

/// One simulation from the given opening and retirement pattern: the padded
/// schedules when the run succeeds and replaying them from the empty board
/// delivers every container in lane order; `None` when it is discarded.
pub fn simulate(incoming: &Vec<Vec<usize>>, sweep_first: bool, removal: &Vec<bool>, rng: &mut SmallRng) -> (r: Option<Vec<Vec<char>>>)
    requires
        incoming_ok(incoming@),
        removal@.len() == CRANE_NUM,
    ensures
        r is Some ==> well_formed_schedule(r.unwrap()@),
        r is Some ==> delivers_all(incoming@, r.unwrap()@),
{
    let own = copy_incoming(incoming);
    let mut yard = Yard::start(own, sweep_first);
    if yard.run(removal, rng) {
        let s = yard.schedules();
        if replays_all(incoming, &s) {
            Some(s)
        } else {
            None
        }
    } else {
        None
    }
}

/// A crane's schedule over one turn: a crane retired at its start keeps its
/// schedule; any other is padded with waits and gets one more action, so
/// that it covers every turn so far.
pub open spec fn schedule_grows(before: Seq<char>, after: Seq<char>, removed: bool, turn: int) -> bool {
    if removed {
        after == before
    } else {
        &&& after.len() == turn
        &&& before.len() < turn
        &&& after.subrange(0, before.len() as int) == before
        &&& forall|j: int| before.len() <= j < turn - 1 ==> #[trigger] after[j] == '.'
    }
}

/// One schedule string per crane, all of one length of at most `TURN_MAX`,
/// written in the action alphabet.
pub open spec fn well_formed_schedule(s: Seq<Vec<char>>) -> bool {
    &&& s.len() == CRANE_NUM
    &&& same_lengths(s)
    &&& forall|k: int| 0 <= k < CRANE_NUM ==> (#[trigger] s[k])@.len() <= TURN_MAX
    &&& forall|k: int, j: int| 0 <= k < CRANE_NUM && 0 <= j < s[k]@.len() ==> is_action_char(#[trigger] s[k]@[j])
}

/// How many small cranes retire on their first turn for a draw `choice`:
/// two, one or none.
pub open spec fn retiring(choice: usize) -> nat {
    if choice % 3 == 0 {
        2
    } else if choice % 3 == 1 {
        1
    } else {
        0
    }
}

/// Which cranes retire on their first turn: crane 0, the large one, never;
/// of the four small ones `retiring(choice)`, in a random order, so that at
/// least two small cranes stay.
pub fn removal_pattern(choice: usize, rng: &mut SmallRng) -> (r: Vec<bool>)
    ensures
        r@.len() == CRANE_NUM,
        !r@[0],
        r@.to_multiset().count(true) == retiring(choice),
{
    broadcast use vstd::seq_lib::group_to_multiset_ensures;

    let mut small = match choice % 3 {
        0 => vec![false, false, true, true],
        1 => vec![false, false, false, true],
        _ => vec![false, false, false, false],
    };
    proof {
        let s = small@;
        assert(s =~= Seq::<bool>::empty().push(s[0]).push(s[1]).push(s[2]).push(s[3]));
        assert(Seq::<bool>::empty().to_multiset().count(true) == 0) by {
            assert(Seq::<bool>::empty().to_multiset().len() == 0);
        }
    }
    let ghost start = small@;
    shuffle(&mut small, rng);
    let mut r: Vec<bool> = vec![false];
    let mut k: usize = 0;
    proof {
        assert(small@.take(0) =~= Seq::<bool>::empty());
        assert(r@ =~= Seq::<bool>::empty().push(false));
        assert(Seq::<bool>::empty().to_multiset().count(true) == 0) by {
            assert(Seq::<bool>::empty().to_multiset().len() == 0);
        }
    }
    while k < small.len()
        invariant
            k <= small@.len(),
            small@.len() == 4,
            r@.len() == k + 1,
            !r@[0],
            r@.to_multiset().count(true) == small@.take(k as int).to_multiset().count(true),
        decreases small@.len() - k,
    {
        let ghost r0 = r@;
        proof {
            assert(small@.take(k as int + 1) =~= small@.take(k as int).push(small@[k as int]));
        }
        r.push(small[k]);
        proof {
            assert(r@ == r0.push(small@[k as int]));
            vstd::seq_lib::to_multiset_build(r0, small@[k as int]);
            vstd::seq_lib::to_multiset_build(small@.take(k as int), small@[k as int]);
        }
        k += 1;
    }
    proof {
        assert(small@.take(4) =~= small@);
    }
    r
}

/// One randomized attempt: a random opening and a random retirement pattern.
pub fn attempt(incoming: &Vec<Vec<usize>>, rng: &mut SmallRng) -> (r: Option<Vec<Vec<char>>>)
    requires
        incoming_ok(incoming@),
    ensures
        r is Some ==> well_formed_schedule(r.unwrap()@),
        r is Some ==> delivers_all(incoming@, r.unwrap()@),
{
    let sweep_first = draw(rng) % 2 == 0;
    let choice = draw(rng);
    let removal = removal_pattern(choice, rng);
    simulate(incoming, sweep_first, &removal, rng)
}

/// Total number of actions over all cranes.
pub fn schedule_total(s: &Vec<Vec<char>>) -> (r: u128)
    ensures
        r == total_actions(s@),
{
    let mut sum: u128 = 0;
    let mut k: usize = 0;
    while k < s.len()
        invariant
            k <= s@.len(),
            sum == total_actions(s@.take(k as int)),
            sum <= k * 0x1_0000_0000_0000_0000,
        decreases s@.len() - k,
    {
        proof {
            assert(s@.take(k as int + 1).drop_last() =~= s@.take(k as int));
            assert((k + 1) * 0x1_0000_0000_0000_0000 <= 0x1_0000_0000_0000_0000 * 0x1_0000_0000_0000_0000) by (nonlinear_arith)
                requires k < 0x1_0000_0000_0000_0000;
            assert(k * 0x1_0000_0000_0000_0000 + 0x1_0000_0000_0000_0000 == (k + 1) * 0x1_0000_0000_0000_0000) by (nonlinear_arith);
        }
        sum = sum + s[k].len() as u128;
        k += 1;
    }
    assert(s@.take(s@.len() as int) =~= s@);
    sum
}

/// Keeps the better of the best schedule so far and a new attempt's: the one
/// with fewer actions in total, the old one on ties. The total of what is
/// kept never grows.
pub fn keep_best(best: Option<Vec<Vec<char>>>, candidate: Option<Vec<Vec<char>>>) -> (r: Option<Vec<Vec<char>>>)
    ensures
        best is Some ==> r is Some && total_actions(r.unwrap()@) <= total_actions(best.unwrap()@),
        best is Some && candidate is Some ==> total_actions(r.unwrap()@) <= total_actions(candidate.unwrap()@),
        best is Some ==> (r == best || r == candidate),
        best is None ==> r == candidate,
{
    match (best, candidate) {
        (Some(b), Some(c)) => {
            if schedule_total(&c) < schedule_total(&b) {
                Some(c)
            } else {
                Some(b)
            }
        },
        (Some(b), None) => Some(b),
        (None, c) => c,
    }
}

} // verus!
