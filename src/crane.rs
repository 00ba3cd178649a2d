//! Cranes, containers and the board of the container yard, with the rules
//! that say which single crane action is legal on a given turn.
use vstd::prelude::*;

verus! {

/// Side length of the yard.
pub const GRID_SIZE: usize = 5;

/// Number of cranes: crane 0 is the large one, the others are small.
pub const CRANE_NUM: usize = 5;

/// Number of containers, `GRID_SIZE` per row.
pub const CONTAINER_NUM: usize = 25;

/// Position on the board: (row, column).
pub type Pos = (usize, usize);

/// What one cell of the board holds.
#[derive(Clone, Copy, Debug, PartialEq, Eq, Structural)]
pub enum BoardStatus {
    Container(usize),
    Empty,
}

/// Where a container stands in its life: waiting, claimed by a crane,
/// being carried by a crane, or delivered.
#[derive(Clone, Copy, Debug, PartialEq, Eq, Structural)]
pub enum ContainerStatus {
    Free,
    Accepted(usize),
    BeingMoved(usize),
    Completed,
}

/// A crane: its kind, its position and its load, or retired.
#[derive(Clone, Copy, Debug, PartialEq, Eq)]
pub enum CraneStatus {
    BigEmpty(Pos),
    BigLift(Pos, usize),
    SmallEmpty(Pos),
    SmallLift(Pos, usize),
    Removed,
}

/// One primitive crane action for one turn.
#[derive(Clone, Copy, Debug, PartialEq, Eq, Structural)]
pub enum CraneMove {
    Lift,
    Drop,
    Up,
    Down,
    Left,
    Right,
    Wait,
    Remove,
}

impl ContainerStatus {
    pub open spec fn spec_moved_by(self) -> Option<usize> {
        match self {
            ContainerStatus::Accepted(c) => Some(c),
            ContainerStatus::BeingMoved(c) => Some(c),
            _ => None,
        }
    }

    /// The crane that has claimed or is carrying this container.
    pub fn moved_by(&self) -> (r: Option<usize>)
        ensures
            r == self.spec_moved_by(),
    {
        match *self {
            ContainerStatus::Accepted(c) => Some(c),
            ContainerStatus::BeingMoved(c) => Some(c),
            _ => None,
        }
    }
}

impl CraneStatus {
    pub open spec fn spec_pos(self) -> Option<Pos> {
        match self {
            CraneStatus::BigEmpty(p) => Some(p),
            CraneStatus::BigLift(p, _) => Some(p),
            CraneStatus::SmallEmpty(p) => Some(p),
            CraneStatus::SmallLift(p, _) => Some(p),
            CraneStatus::Removed => None,
        }
    }

    pub open spec fn spec_is_empty(self) -> bool {
        !(self is BigLift || self is SmallLift)
    }

    pub open spec fn spec_is_big(self) -> bool {
        self is BigEmpty || self is BigLift
    }

    pub open spec fn spec_lifting_cid(self) -> Option<usize> {
        match self {
            CraneStatus::BigLift(_, c) => Some(c),
            CraneStatus::SmallLift(_, c) => Some(c),
            _ => None,
        }
    }

    /// The same crane, with the same kind and load, standing at `pos`.
    pub open spec fn spec_move_to(self, pos: Pos) -> CraneStatus {
        match self {
            CraneStatus::BigEmpty(_) => CraneStatus::BigEmpty(pos),
            CraneStatus::BigLift(_, c) => CraneStatus::BigLift(pos, c),
            CraneStatus::SmallEmpty(_) => CraneStatus::SmallEmpty(pos),
            CraneStatus::SmallLift(_, c) => CraneStatus::SmallLift(pos, c),
            CraneStatus::Removed => CraneStatus::Removed,
        }
    }

    /// Where the crane stands; `None` once it is retired.
    pub fn pos(&self) -> (r: Option<Pos>)
        ensures
            r == self.spec_pos(),
    {
        match *self {
            CraneStatus::BigEmpty(p) => Some(p),
            CraneStatus::BigLift(p, _) => Some(p),
            CraneStatus::SmallEmpty(p) => Some(p),
            CraneStatus::SmallLift(p, _) => Some(p),
            CraneStatus::Removed => None,
        }
    }

    /// Whether the crane carries nothing (a retired crane carries nothing).
    pub fn is_empty(&self) -> (r: bool)
        ensures
            r == self.spec_is_empty(),
    {
        match *self {
            CraneStatus::BigLift(..) | CraneStatus::SmallLift(..) => false,
            _ => true,
        }
    }

    /// Whether this is the large crane.
    pub fn is_big(&self) -> (r: bool)
        ensures
            r == self.spec_is_big(),
    {
        match *self {
            CraneStatus::BigEmpty(..) | CraneStatus::BigLift(..) => true,
            _ => false,
        }
    }

    /// Whether the crane has retired.
    pub fn is_removed(&self) -> (r: bool)
        ensures
            r == (*self is Removed),
    {
        match *self {
            CraneStatus::Removed => true,
            _ => false,
        }
    }

    /// The container the crane carries, if any.
    pub fn lifting_cid(&self) -> (r: Option<usize>)
        ensures
            r == self.spec_lifting_cid(),
    {
        match *self {
            CraneStatus::BigLift(_, c) | CraneStatus::SmallLift(_, c) => Some(c),
            _ => None,
        }
    }

    /// The crane moved to `pos`, keeping its kind and load.
    pub fn move_to(&self, pos: Pos) -> (r: CraneStatus)
        requires
            !(*self is Removed),
        ensures
            r == self.spec_move_to(pos),
            r.spec_pos() == Some(pos),
            r.spec_is_big() == self.spec_is_big(),
            r.spec_lifting_cid() == self.spec_lifting_cid(),
    {
        match *self {
            CraneStatus::BigEmpty(_) => CraneStatus::BigEmpty(pos),
            CraneStatus::BigLift(_, c) => CraneStatus::BigLift(pos, c),
            CraneStatus::SmallEmpty(_) => CraneStatus::SmallEmpty(pos),
            CraneStatus::SmallLift(_, c) => CraneStatus::SmallLift(pos, c),
            CraneStatus::Removed => CraneStatus::Removed,
        }
    }
}

impl CraneMove {
    /// The character that writes this action in a schedule.
    pub open spec fn spec_to_ans(self) -> char {
        match self {
            CraneMove::Lift => 'P',
            CraneMove::Drop => 'Q',
            CraneMove::Up => 'U',
            CraneMove::Down => 'D',
            CraneMove::Left => 'L',
            CraneMove::Right => 'R',
            CraneMove::Wait => '.',
            CraneMove::Remove => 'B',
        }
    }

    pub open spec fn is_step(self) -> bool {
        self is Up || self is Down || self is Left || self is Right
    }

    pub fn to_ans(&self) -> (r: char)
        ensures
            r == self.spec_to_ans(),
    {
        match self {
            CraneMove::Lift => 'P',
            CraneMove::Drop => 'Q',
            CraneMove::Up => 'U',
            CraneMove::Down => 'D',
            CraneMove::Left => 'L',
            CraneMove::Right => 'R',
            CraneMove::Wait => '.',
            CraneMove::Remove => 'B',
        }
    }
}

} // verus!
