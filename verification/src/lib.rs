//! A gravity-driven grid puzzle: falling rocks, sand, ghosts, stairs and
//! heroes, with a move-resolution engine and a shortest-path solver.

pub mod block;
pub mod direction;
pub mod error;
pub mod stage;
pub mod state;
pub mod gravity;
pub mod moves;
pub mod level;
pub mod solver;
pub mod amazonas;
