//! Scheduling cranes in a small container yard: containers stream in at the
//! left edge and must leave at the right edge, row by row and in ascending
//! order, moved by one large and several small cranes that never collide.
//! The other modules hold grid and routing helpers of related planners.
pub mod actions;
pub mod automaton;
pub mod cables;
pub mod cards;
pub mod cells;
pub mod chance;
pub mod crane;
pub mod driver;
pub mod judge;
pub mod moves;
pub mod piles;
pub mod plan;
pub mod polyominoes;
pub mod projects;
pub mod tour;
pub mod turn;
pub mod walls;
pub mod yard;
