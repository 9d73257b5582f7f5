//! A board puzzle of its own: place as many amazons on a square board as it
//! has rows, none threatening another, with as few trees as possible to
//! block their lines of sight.

pub mod threat;
pub mod board;
pub mod search;
pub mod text;
