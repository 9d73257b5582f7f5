//! What the library reports instead of aborting.

use vstd::prelude::*;

verus! {

/// Why a level's text cannot be read.
#[derive(Clone, Copy, Debug, PartialEq, Eq, Structural)]
pub enum ParseError {
    /// A character that stands for no block.
    UnknownGlyph(char),
    /// A character at this line and column, both counted from zero, lies
    /// beyond the grid.
    OutsideGrid(usize, usize),
}

/// Why a cell cannot be written.
#[derive(Clone, Copy, Debug, PartialEq, Eq, Structural)]
pub enum StageError {
    /// `Hero` is an overlay that a state derives; a grid never stores it.
    HeroNotStorable,
    /// The point lies beyond the grid.
    OutOfBounds,
}

} // verus!
