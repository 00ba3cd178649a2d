//! Replaying schedules: what a set of crane schedules does to the yard when
//! the turns are played one by one from the empty board, and a verified
//! replay that decides whether a schedule delivers every container.
use vstd::prelude::*;
use crate::crane::{BoardStatus, CraneMove, Pos, CONTAINER_NUM, CRANE_NUM, GRID_SIZE};
use crate::moves::{in_grid, shift};
use crate::yard::incoming_ok;

verus! {

/// The state of a replay: the board, cell `r * GRID_SIZE + c` for row `r`
/// and column `c`; each crane's position (`None` once retired) and load; how
/// many containers of each row have arrived; how many each lane has
/// received, in order; and whether every rule has held so far.
pub type JudgeState = (Seq<BoardStatus>, Seq<Option<Pos>>, Seq<Option<usize>>, Seq<usize>, Seq<usize>, bool);

pub open spec fn cell_index(p: Pos) -> int {
    p.0 * GRID_SIZE + p.1
}

pub open spec fn judge_ok(s: JudgeState) -> bool {
    &&& s.0.len() == CONTAINER_NUM
    &&& s.1.len() == CRANE_NUM
    &&& s.2.len() == CRANE_NUM
    &&& s.3.len() == GRID_SIZE
    &&& s.4.len() == GRID_SIZE
    &&& forall|k: int| 0 <= k < CRANE_NUM && (#[trigger] s.1[k]) is Some ==> s.1[k].unwrap().0 < GRID_SIZE
        && s.1[k].unwrap().1 < GRID_SIZE
    &&& forall|r: int| 0 <= r < GRID_SIZE ==> #[trigger] s.3[r] <= GRID_SIZE
    &&& forall|r: int| 0 <= r < GRID_SIZE ==> #[trigger] s.4[r] <= GRID_SIZE
}

/// Before the first turn: an empty board, crane `k` on cell (k, 0), nothing
/// arrived or delivered.
pub open spec fn judge_start() -> JudgeState {
    (
        Seq::new(CONTAINER_NUM as nat, |_i: int| BoardStatus::Empty),
        Seq::new(CRANE_NUM as nat, |k: int| Some((k as usize, 0usize))),
        Seq::new(CRANE_NUM as nat, |_k: int| None),
        Seq::new(GRID_SIZE as nat, |_r: int| 0usize),
        Seq::new(GRID_SIZE as nat, |_r: int| 0usize),
        true,
    )
}

pub open spec fn failed(s: JudgeState) -> JudgeState {
    (s.0, s.1, s.2, s.3, s.4, false)
}

/// Whether one of the first `m` cranes stands loaded on cell `p`.
pub open spec fn loaded_at(s: JudgeState, p: Pos, m: int) -> bool
    decreases m,
{
    if m <= 0 {
        false
    } else {
        loaded_at(s, p, m - 1) || (s.2[m - 1] is Some && s.1[m - 1] == Some(p))
    }
}

/// Row `r` receives its next container when its entry cell is empty, no
/// loaded crane stands on it and its queue is not used up.
pub open spec fn arrive(incoming: Seq<Vec<usize>>, s: JudgeState, r: int) -> JudgeState {
    let idx = r * GRID_SIZE;
    if s.0[idx] == BoardStatus::Empty && s.3[r] < GRID_SIZE && !loaded_at(s, (r as usize, 0usize), CRANE_NUM as int) {
        (
            s.0.update(idx, BoardStatus::Container(incoming[r]@[s.3[r] as int])),
            s.1,
            s.2,
            s.3.update(r, (s.3[r] + 1) as usize),
            s.4,
            s.5,
        )
    } else {
        s
    }
}

pub open spec fn arrivals(incoming: Seq<Vec<usize>>, s: JudgeState, r: int) -> JudgeState
    decreases r,
{
    if r <= 0 {
        s
    } else {
        arrive(incoming, arrivals(incoming, s, r - 1), r - 1)
    }
}

pub open spec fn move_of(ch: char) -> CraneMove {
    if ch == 'U' {
        CraneMove::Up
    } else if ch == 'D' {
        CraneMove::Down
    } else if ch == 'L' {
        CraneMove::Left
    } else {
        CraneMove::Right
    }
}

/// Crane `k` takes the action written `ch`; a broken rule fails the replay.
/// A lift needs an empty crane on a container, a drop a loaded crane on an
/// empty cell; a step must stay on the board, and a loaded small crane may
/// not step onto a container; only an empty crane retires; a retired crane
/// only waits.
pub open spec fn act(s: JudgeState, k: int, ch: char) -> JudgeState {
    match s.1[k] {
        None => if ch == '.' { s } else { failed(s) },
        Some(p) => {
            let idx = cell_index(p);
            if ch == 'P' {
                if s.2[k] is None && s.0[idx] is Container {
                    (s.0.update(idx, BoardStatus::Empty), s.1, s.2.update(k, Some(s.0[idx]->Container_0)), s.3, s.4, s.5)
                } else {
                    failed(s)
                }
            } else if ch == 'Q' {
                if s.2[k] is Some && s.0[idx] == BoardStatus::Empty {
                    (s.0.update(idx, BoardStatus::Container(s.2[k].unwrap())), s.1, s.2.update(k, None), s.3, s.4, s.5)
                } else {
                    failed(s)
                }
            } else if ch == 'U' || ch == 'D' || ch == 'L' || ch == 'R' {
                let np = shift((p.0 as int, p.1 as int), move_of(ch));
                let q = (np.0 as usize, np.1 as usize);
                if in_grid(np) && !(k != 0 && s.2[k] is Some && s.0[cell_index(q)] != BoardStatus::Empty) {
                    (s.0, s.1.update(k, Some(q)), s.2, s.3, s.4, s.5)
                } else {
                    failed(s)
                }
            } else if ch == 'B' {
                if s.2[k] is None {
                    (s.0, s.1.update(k, None), s.2, s.3, s.4, s.5)
                } else {
                    failed(s)
                }
            } else if ch == '.' {
                s
            } else {
                failed(s)
            }
        },
    }
}

/// The action of crane `k` on turn `t`: a wait past the end of its schedule.
pub open spec fn action_at(sched: Seq<Vec<char>>, k: int, t: int) -> char {
    if t < sched[k]@.len() {
        sched[k]@[t]
    } else {
        '.'
    }
}

/// The first `k` cranes act, in index order.
pub open spec fn acts(s: JudgeState, sched: Seq<Vec<char>>, t: int, k: int) -> JudgeState
    decreases k,
{
    if k <= 0 {
        s
    } else {
        act(acts(s, sched, t, k - 1), k - 1, action_at(sched, k - 1, t))
    }
}

/// Cranes `a` and `b` collide after the turn, or exchanged their cells.
pub open spec fn bad_pair(start: Seq<Option<Pos>>, end: Seq<Option<Pos>>, a: int, b: int) -> bool {
    &&& a != b
    &&& end[a] is Some
    &&& (end[a] == end[b] || (end[a] == start[b] && end[b] == start[a] && start[a] != start[b]))
}

pub open spec fn positions_ok(start: Seq<Option<Pos>>, end: Seq<Option<Pos>>) -> bool {
    forall|a: int, b: int| 0 <= a < CRANE_NUM && 0 <= b < CRANE_NUM ==> !#[trigger] bad_pair(start, end, a, b)
}

/// The container on lane `r`'s exit cell leaves; it must be the next of the
/// row-group `r`, in ascending order.
pub open spec fn deliver(s: JudgeState, r: int) -> JudgeState {
    let idx = r * GRID_SIZE + GRID_SIZE - 1;
    if s.0[idx] is Container {
        let c = s.0[idx]->Container_0;
        if s.4[r] < GRID_SIZE && c == r * GRID_SIZE + s.4[r] {
            (s.0.update(idx, BoardStatus::Empty), s.1, s.2, s.3, s.4.update(r, (s.4[r] + 1) as usize), s.5)
        } else {
            (s.0.update(idx, BoardStatus::Empty), s.1, s.2, s.3, s.4, false)
        }
    } else {
        s
    }
}

pub open spec fn deliveries(s: JudgeState, r: int) -> JudgeState
    decreases r,
{
    if r <= 0 {
        s
    } else {
        deliver(deliveries(s, r - 1), r - 1)
    }
}

/// Turn `t`: arrivals, the cranes' actions, the check that no two cranes
/// collide or exchange cells, then deliveries.
pub open spec fn judge_turn(incoming: Seq<Vec<usize>>, sched: Seq<Vec<char>>, s: JudgeState, t: int) -> JudgeState {
    let a = arrivals(incoming, s, GRID_SIZE as int);
    let b = acts(a, sched, t, CRANE_NUM as int);
    let c = if positions_ok(a.1, b.1) { b } else { failed(b) };
    deliveries(c, GRID_SIZE as int)
}

/// The state after the first `t` turns.
pub open spec fn judge(incoming: Seq<Vec<usize>>, sched: Seq<Vec<char>>, t: nat) -> JudgeState
    decreases t,
{
    if t == 0 {
        judge_start()
    } else {
        judge_turn(incoming, sched, judge(incoming, sched, (t - 1) as nat), t - 1)
    }
}

/// The length of the longest of the first `k` schedules.
pub open spec fn sched_len(sched: Seq<Vec<char>>, k: int) -> nat
    decreases k,
{
    if k <= 0 {
        0
    } else {
        let m = sched_len(sched, k - 1);
        let l = sched[k - 1]@.len();
        if l > m { l } else { m }
    }
}

/// Replayed turn by turn from the empty board, the schedules break no rule,
/// and every lane `r` receives its whole row-group `5r .. 5r + 4` in
/// ascending order (so every container is delivered).
pub open spec fn delivers_all(incoming: Seq<Vec<usize>>, sched: Seq<Vec<char>>) -> bool {
    let f = judge(incoming, sched, sched_len(sched, CRANE_NUM as int));
    &&& f.5
    &&& forall|r: int| 0 <= r < GRID_SIZE ==> #[trigger] f.4[r] == GRID_SIZE
}

/// A replay in progress; see `JudgeState`.
pub struct Replay {
    pub board: Vec<BoardStatus>,
    pub pos: Vec<Option<Pos>>,
    pub load: Vec<Option<usize>>,
    pub next_in: Vec<usize>,
    pub got: Vec<usize>,
    pub ok: bool,
}

impl Replay {
    pub open spec fn view(&self) -> JudgeState {
        (self.board@, self.pos@, self.load@, self.next_in@, self.got@, self.ok)
    }
}

fn same_pos(a: Option<Pos>, b: Option<Pos>) -> (r: bool)
    ensures
        r == (a == b),
{
    match (a, b) {
        (Some(x), Some(y)) => x.0 == y.0 && x.1 == y.1,
        (None, None) => true,
        _ => false,
    }
}

impl Replay {
    pub fn new() -> (r: Replay)
        ensures
            r.view() == judge_start(),
            judge_ok(r.view()),
    {
        let mut board: Vec<BoardStatus> = Vec::new();
        let mut q: usize = 0;
        while q < CONTAINER_NUM
            invariant
                q <= CONTAINER_NUM,
                board@ == Seq::new(q as nat, |_i: int| BoardStatus::Empty),
            decreases CONTAINER_NUM - q,
        {
            board.push(BoardStatus::Empty);
            q += 1;
            assert(board@ =~= Seq::new(q as nat, |_i: int| BoardStatus::Empty));
        }
        let mut pos: Vec<Option<Pos>> = Vec::new();
        let mut load: Vec<Option<usize>> = Vec::new();
        let mut next_in: Vec<usize> = Vec::new();
        let mut got: Vec<usize> = Vec::new();
        let mut k: usize = 0;
        while k < CRANE_NUM
            invariant
                k <= CRANE_NUM,
                pos@ == Seq::new(k as nat, |m: int| Some((m as usize, 0usize))),
                load@ == Seq::new(k as nat, |_m: int| None::<usize>),
                next_in@ == Seq::new(k as nat, |_m: int| 0usize),
                got@ == Seq::new(k as nat, |_m: int| 0usize),
            decreases CRANE_NUM - k,
        {
            pos.push(Some((k, 0)));
            load.push(None);
            next_in.push(0);
            got.push(0);
            k += 1;
            assert(pos@ =~= Seq::new(k as nat, |m: int| Some((m as usize, 0usize))));
            assert(load@ =~= Seq::new(k as nat, |_m: int| None::<usize>));
            assert(next_in@ =~= Seq::new(k as nat, |_m: int| 0usize));
            assert(got@ =~= Seq::new(k as nat, |_m: int| 0usize));
        }
        Replay { board, pos, load, next_in, got, ok: true }
    }

    fn loaded_here(&self, p: Pos) -> (r: bool)
        requires
            judge_ok(self.view()),
        ensures
            r == loaded_at(self.view(), p, CRANE_NUM as int),
    {
        let mut found = false;
        let mut k: usize = 0;
        while k < CRANE_NUM
            invariant
                k <= CRANE_NUM,
                judge_ok(self.view()),
                found == loaded_at(self.view(), p, k as int),
            decreases CRANE_NUM - k,
        {
            if self.load[k].is_some() && same_pos(self.pos[k], Some(p)) {
                found = true;
            }
            k += 1;
        }
        found
    }

    fn arrive(&mut self, incoming: &Vec<Vec<usize>>, r: usize)
        requires
            judge_ok(old(self).view()),
            incoming_ok(incoming@),
            r < GRID_SIZE,
        ensures
            judge_ok(final(self).view()),
            final(self).view() == arrive(incoming@, old(self).view(), r as int),
    {
        let idx = r * GRID_SIZE;
        let k = self.next_in[r];
        if self.board[idx] == BoardStatus::Empty && k < GRID_SIZE && !self.loaded_here((r, 0)) {
            self.board.set(idx, BoardStatus::Container(incoming[r][k]));
            self.next_in.set(r, k + 1);
        }
    }

    fn act(&mut self, k: usize, ch: char)
        requires
            judge_ok(old(self).view()),
            k < CRANE_NUM,
        ensures
            judge_ok(final(self).view()),
            final(self).view() == act(old(self).view(), k as int, ch),
    {
        match self.pos[k] {
            None => {
                if ch != '.' {
                    self.ok = false;
                }
            },
            Some(p) => {
                let idx = p.0 * GRID_SIZE + p.1;
                if ch == 'P' {
                    if self.load[k].is_none() {
                        if let BoardStatus::Container(c) = self.board[idx] {
                            self.board.set(idx, BoardStatus::Empty);
                            self.load.set(k, Some(c));
                            return;
                        }
                    }
                    self.ok = false;
                } else if ch == 'Q' {
                    if let Some(c) = self.load[k] {
                        if self.board[idx] == BoardStatus::Empty {
                            self.board.set(idx, BoardStatus::Container(c));
                            self.load.set(k, None);
                            return;
                        }
                    }
                    self.ok = false;
                } else if ch == 'U' || ch == 'D' || ch == 'L' || ch == 'R' {
                    let inside = if ch == 'U' {
                        p.0 > 0
                    } else if ch == 'D' {
                        p.0 + 1 < GRID_SIZE
                    } else if ch == 'L' {
                        p.1 > 0
                    } else {
                        p.1 + 1 < GRID_SIZE
                    };
                    if !inside {
                        self.ok = false;
                        return;
                    }
                    let q: Pos = if ch == 'U' {
                        (p.0 - 1, p.1)
                    } else if ch == 'D' {
                        (p.0 + 1, p.1)
                    } else if ch == 'L' {
                        (p.0, p.1 - 1)
                    } else {
                        (p.0, p.1 + 1)
                    };
                    if k != 0 && self.load[k].is_some() && self.board[q.0 * GRID_SIZE + q.1] != BoardStatus::Empty {
                        self.ok = false;
                        return;
                    }
                    self.pos.set(k, Some(q));
                } else if ch == 'B' {
                    if self.load[k].is_none() {
                        self.pos.set(k, None);
                    } else {
                        self.ok = false;
                    }
                } else if ch != '.' {
                    self.ok = false;
                }
            },
        }
    }

    fn deliver(&mut self, r: usize)
        requires
            judge_ok(old(self).view()),
            r < GRID_SIZE,
        ensures
            judge_ok(final(self).view()),
            final(self).view() == deliver(old(self).view(), r as int),
    {
        let idx = r * GRID_SIZE + GRID_SIZE - 1;
        if let BoardStatus::Container(c) = self.board[idx] {
            let g = self.got[r];
            self.board.set(idx, BoardStatus::Empty);
            if g < GRID_SIZE && c == r * GRID_SIZE + g {
                self.got.set(r, g + 1);
            } else {
                self.ok = false;
            }
        }
    }
}

fn positions_fine(start: &Vec<Option<Pos>>, end: &Vec<Option<Pos>>) -> (r: bool)
    requires
        start@.len() == CRANE_NUM,
        end@.len() == CRANE_NUM,
    ensures
        r == positions_ok(start@, end@),
{
    let mut a: usize = 0;
    while a < CRANE_NUM
        invariant
            a <= CRANE_NUM,
            start@.len() == CRANE_NUM,
            end@.len() == CRANE_NUM,
            forall|x: int, y: int| 0 <= x < a && 0 <= y < CRANE_NUM ==> !#[trigger] bad_pair(start@, end@, x, y),
        decreases CRANE_NUM - a,
    {
        let mut b: usize = 0;
        while b < CRANE_NUM
            invariant
                a < CRANE_NUM,
                b <= CRANE_NUM,
                start@.len() == CRANE_NUM,
                end@.len() == CRANE_NUM,
                forall|x: int, y: int| 0 <= x < a && 0 <= y < CRANE_NUM ==> !#[trigger] bad_pair(start@, end@, x, y),
                forall|y: int| 0 <= y < b ==> !#[trigger] bad_pair(start@, end@, a as int, y),
            decreases CRANE_NUM - b,
        {
            if a != b && end[a].is_some() {
                if same_pos(end[a], end[b])
                    || (same_pos(end[a], start[b]) && same_pos(end[b], start[a]) && !same_pos(start[a], start[b])) {
                    assert(bad_pair(start@, end@, a as int, b as int));
                    return false;
                }
            }
            b += 1;
        }
        a += 1;
    }
    true
}

/// Replays the schedules from the empty board and decides whether they
/// deliver every container; see `delivers_all`.
pub fn replays_all(incoming: &Vec<Vec<usize>>, sched: &Vec<Vec<char>>) -> (r: bool)
    requires
        incoming_ok(incoming@),
        sched@.len() == CRANE_NUM,
    ensures
        r == delivers_all(incoming@, sched@),
{
    let mut len: usize = 0;
    let mut k: usize = 0;
    while k < CRANE_NUM
        invariant
            k <= CRANE_NUM,
            sched@.len() == CRANE_NUM,
            len == sched_len(sched@, k as int),
        decreases CRANE_NUM - k,
    {
        if sched[k].len() > len {
            len = sched[k].len();
        }
        k += 1;
    }
    let mut st = Replay::new();
    let mut t: usize = 0;
    while t < len
        invariant
            t <= len,
            len == sched_len(sched@, CRANE_NUM as int),
            incoming_ok(incoming@),
            sched@.len() == CRANE_NUM,
            judge_ok(st.view()),
            st.view() == judge(incoming@, sched@, t as nat),
        decreases len - t,
    {
        let ghost s0 = st.view();
        let mut r: usize = 0;
        while r < GRID_SIZE
            invariant
                r <= GRID_SIZE,
                incoming_ok(incoming@),
                judge_ok(st.view()),
                st.view() == arrivals(incoming@, s0, r as int),
            decreases GRID_SIZE - r,
        {
            st.arrive(incoming, r);
            r += 1;
        }
        let ghost a = st.view();
        let mut start_pos: Vec<Option<Pos>> = Vec::new();
        let mut q: usize = 0;
        while q < CRANE_NUM
            invariant
                q <= CRANE_NUM,
                judge_ok(st.view()),
                st.view() == a,
                start_pos@ == a.1.take(q as int),
            decreases CRANE_NUM - q,
        {
            start_pos.push(st.pos[q]);
            q += 1;
            assert(start_pos@ =~= a.1.take(q as int));
        }
        assert(start_pos@ =~= a.1);
        let mut c: usize = 0;
        while c < CRANE_NUM
            invariant
                c <= CRANE_NUM,
                sched@.len() == CRANE_NUM,
                judge_ok(st.view()),
                st.view() == acts(a, sched@, t as int, c as int),
            decreases CRANE_NUM - c,
        {
            let ch = if t < sched[c].len() { sched[c][t] } else { '.' };
            st.act(c, ch);
            c += 1;
        }
        if !positions_fine(&start_pos, &st.pos) {
            st.ok = false;
        }
        let ghost cc = st.view();
        let mut r: usize = 0;
        while r < GRID_SIZE
            invariant
                r <= GRID_SIZE,
                judge_ok(st.view()),
                st.view() == deliveries(cc, r as int),
            decreases GRID_SIZE - r,
        {
            st.deliver(r);
            r += 1;
        }
        t += 1;
    }
    let mut all = st.ok;
    let mut r: usize = 0;
    while r < GRID_SIZE
        invariant
            r <= GRID_SIZE,
            judge_ok(st.view()),
            all == (st.ok && forall|q: int| 0 <= q < r ==> #[trigger] st.got@[q] == GRID_SIZE),
        decreases GRID_SIZE - r,
    {
        if st.got[r] != GRID_SIZE {
            all = false;
        }
        r += 1;
    }
    all
}

} // verus!
