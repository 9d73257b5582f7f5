//! The kinds of cell content and their predicates.

use vstd::prelude::*;
use crate::error::ParseError;

verus! {

/// What a cell of the grid can show.
///
/// `Hero` is never stored in a grid: it is what a state reports for an
/// empty cell on which a hero stands.
#[derive(Clone, Copy, Debug, PartialEq, Eq, Hash, Structural)]
pub enum Block {
    Wall,
    SandWall,
    FallingGhost,
    StillGhost,
    Rock,
    Stair,
    Hero,
    Empty,
}

/// The glyph that stands for a block in a level's text.
pub open spec fn glyph_of(block: Block) -> char {
    match block {
        Block::Wall => 'W',
        Block::SandWall => '*',
        Block::FallingGhost => 'F',
        Block::StillGhost => 'G',
        Block::Rock => 'R',
        Block::Stair => '=',
        Block::Empty => ' ',
        Block::Hero => '@',
    }
}

/// The block that a glyph stands for, if it stands for one.
pub open spec fn block_of(c: char) -> Option<Block> {
    if c == 'W' {
        Some(Block::Wall)
    } else if c == '*' {
        Some(Block::SandWall)
    } else if c == 'F' {
        Some(Block::FallingGhost)
    } else if c == 'G' {
        Some(Block::StillGhost)
    } else if c == 'R' {
        Some(Block::Rock)
    } else if c == '=' {
        Some(Block::Stair)
    } else if c == ' ' {
        Some(Block::Empty)
    } else if c == '@' {
        Some(Block::Hero)
    } else {
        None
    }
}

/// Blocks that must all be eliminated to solve a level.
pub open spec fn ghostly(block: Block) -> bool {
    block is StillGhost || block is FallingGhost
}

/// Blocks that fall when nothing supports them.
pub open spec fn fallable(block: Block) -> bool {
    block is FallingGhost || block is Rock || block is Hero
}

impl Default for Block {
    fn default() -> (r: Block)
        ensures
            r == Block::Wall,
    {
        Block::Wall
    }
}

impl Block {
    pub fn is_empty(block: Block) -> (r: bool)
        ensures
            r == (block is Empty),
    {
        match block {
            Block::Empty => true,
            _ => false,
        }
    }

    /// Reads a glyph of a level's text; a glyph that stands for no block is
    /// reported, not accepted.
    pub fn from_char(c: char) -> (r: Result<Block, ParseError>)
        ensures
            r == match block_of(c) {
                Some(b) => Ok::<Block, ParseError>(b),
                None => Err::<Block, ParseError>(ParseError::UnknownGlyph(c)),
            },
    {
        match c {
            'W' => Ok(Block::Wall),
            '*' => Ok(Block::SandWall),
            'F' => Ok(Block::FallingGhost),
            'G' => Ok(Block::StillGhost),
            'R' => Ok(Block::Rock),
            '=' => Ok(Block::Stair),
            ' ' => Ok(Block::Empty),
            '@' => Ok(Block::Hero),
            _ => Err(ParseError::UnknownGlyph(c)),
        }
    }

    pub fn to_char(&self) -> (r: char)
        ensures
            r == glyph_of(*self),
    {
        match *self {
            Block::Wall => 'W',
            Block::SandWall => '*',
            Block::FallingGhost => 'F',
            Block::StillGhost => 'G',
            Block::Rock => 'R',
            Block::Stair => '=',
            Block::Empty => ' ',
            Block::Hero => '@',
        }
    }

    pub fn is_fall(block: Block) -> (r: bool)
        ensures
            r == fallable(block),
    {
        match block {
            Block::FallingGhost => true,
            Block::Rock => true,
            Block::Hero => true,
            _ => false,
        }
    }

    pub fn is_hero(block: Block) -> (r: bool)
        ensures
            r == (block is Hero),
    {
        match block {
            Block::Hero => true,
            _ => false,
        }
    }

    pub fn is_ghost(block: Block) -> (r: bool)
        ensures
            r == ghostly(block),
    {
        match block {
            Block::FallingGhost => true,
            Block::StillGhost => true,
            _ => false,
        }
    }
}

/// Reading the glyph that a block is written as gives the block back.
pub proof fn lemma_glyph_round_trip(block: Block)
    ensures
        block_of(glyph_of(block)) == Some(block),
{
}

} // verus!
