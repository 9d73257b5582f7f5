//! A board that is filled cell by cell, row after row.

use vstd::prelude::*;
use crate::amazonas::threat::{
    Cell, Coordinates, Number, cell_of, cells_of, is_threatened, lemma_threat_symmetric,
    lemma_tree_never_harms, threatened,
};

verus! {

/// What a board is, as plain mathematical values.
pub struct BoardView {
    /// The board has `size` rows of `size` cells.
    pub size: int,
    /// The amazons, in the order in which they were placed.
    pub amazons: Seq<Cell>,
    /// The trees, in the order in which they were placed.
    pub trees: Seq<Cell>,
    /// The cell to fill next; `None` once every cell is filled.
    pub next: Option<Cell>,
}

impl BoardView {
    /// An empty board, with its first cell to fill.
    pub open spec fn empty(size: int) -> BoardView {
        BoardView { size, amazons: Seq::empty(), trees: Seq::empty(), next: Some((0int, 0int)) }
    }

    /// The cell lies on the board.
    pub open spec fn holds(self, c: Cell) -> bool {
        0 <= c.0 < self.size && 0 <= c.1 < self.size
    }

    /// The size is not negative, and the cell to fill next lies on the
    /// board. The one exception is the board without rows: it starts with
    /// a first cell to fill that it does not have.
    pub open spec fn wf(self) -> bool {
        &&& 0 <= self.size
        &&& self.next matches Some(c) ==> self.holds(c) || (self.size == 0 && c == (0int, 0int))
    }

    /// The cell that is filled after `c`: the next one of its row, then the
    /// first one of the next row; none after the last cell.
    pub open spec fn after(self, c: Cell) -> Option<Cell> {
        if c.0 == self.size - 1 && c.1 == self.size - 1 {
            None
        } else if c.0 == self.size - 1 {
            Some((0int, c.1 + 1))
        } else {
            Some((c.0 + 1, c.1))
        }
    }

    /// The board with its next cell left empty.
    pub open spec fn with_empty(self) -> BoardView {
        BoardView { next: self.after(self.next->0), ..self }
    }

    /// The board with an amazon on its next cell.
    pub open spec fn with_amazon(self) -> BoardView {
        BoardView {
            amazons: self.amazons.push(self.next->0),
            next: self.after(self.next->0),
            ..self
        }
    }

    /// The board with a tree on its next cell.
    pub open spec fn with_tree(self) -> BoardView {
        BoardView { trees: self.trees.push(self.next->0), next: self.after(self.next->0), ..self }
    }

    /// Amazon `i` is the first one that threatens `cell`.
    pub open spec fn is_first_threat(self, i: int, cell: Cell) -> bool {
        &&& 0 <= i < self.amazons.len()
        &&& threatened(self.amazons[i], cell, self.trees)
        &&& forall|j: int| 0 <= j < i ==> !threatened(self.amazons[j], cell, self.trees)
    }

    /// Some amazon threatens `cell`.
    pub open spec fn threatens(self, cell: Cell) -> bool {
        exists|i: int| 0 <= i < self.amazons.len() && threatened(
            #[trigger] self.amazons[i],
            cell,
            self.trees,
        )
    }

    /// No amazon threatens another.
    pub open spec fn peaceful(self) -> bool {
        forall|i: int, j: int|
            0 <= i < self.amazons.len() && 0 <= j < self.amazons.len() ==> !threatened(
                #[trigger] self.amazons[i],
                #[trigger] self.amazons[j],
                self.trees,
            )
    }

    /// The boards that follow from filling the next cell: with an amazon, if
    /// none threatens the cell; with a tree, on boards of less than twelve
    /// rows; and left empty. None, once every cell is filled.
    pub open spec fn children(self) -> Seq<BoardView> {
        if self.next is None {
            Seq::empty()
        } else {
            let amazon = if self.threatens(self.next->0) {
                Seq::empty()
            } else {
                seq![self.with_amazon()]
            };
            let tree = if self.size < 12 {
                seq![self.with_tree()]
            } else {
                Seq::empty()
            };
            amazon + tree + seq![self.with_empty()]
        }
    }
}

/// Filling the next cell of a board with rows gives a board again.
pub proof fn lemma_fill_wf(b: BoardView)
    requires
        b.wf(),
        b.size >= 1,
        b.next is Some,
    ensures
        b.with_empty().wf(),
        b.with_amazon().wf(),
        b.with_tree().wf(),
{
}

/// A tree keeps the peace, and so does an amazon on a cell that no amazon
/// threatens.
pub proof fn lemma_fill_peaceful(b: BoardView)
    requires
        b.peaceful(),
        b.next is Some,
    ensures
        b.with_empty().peaceful(),
        b.with_tree().peaceful(),
        !b.threatens(b.next->0) ==> b.with_amazon().peaceful(),
{
    let c = b.next->0;
    let t = b.with_tree();
    assert forall|i: int, j: int|
        0 <= i < t.amazons.len() && 0 <= j < t.amazons.len() implies !threatened(
        #[trigger] t.amazons[i],
        #[trigger] t.amazons[j],
        t.trees,
    ) by {
        lemma_tree_never_harms(b.amazons[i], b.amazons[j], b.trees, c);
    }
    if !b.threatens(c) {
        let a = b.with_amazon();
        assert forall|i: int, j: int|
            0 <= i < a.amazons.len() && 0 <= j < a.amazons.len() implies !threatened(
            #[trigger] a.amazons[i],
            #[trigger] a.amazons[j],
            a.trees,
        ) by {
            if i < b.amazons.len() && j < b.amazons.len() {
                assert(!threatened(b.amazons[i], b.amazons[j], b.trees));
            } else if i < b.amazons.len() {
                assert(!threatened(b.amazons[i], c, b.trees));
            } else if j < b.amazons.len() {
                assert(!threatened(b.amazons[j], c, b.trees));
                lemma_threat_symmetric(b.amazons[j], c, b.trees);
            }
        }
    }
}

#[derive(Clone, Debug, PartialEq, Eq)]
pub struct Board {
    board_size: Number,
    amazons: Vec<Coordinates>,
    trees: Vec<Coordinates>,
    next_cell_to_fill: Option<Coordinates>,
}

impl View for Board {
    type V = BoardView;

    closed spec fn view(&self) -> BoardView {
        BoardView {
            size: self.board_size as int,
            amazons: cells_of(self.amazons@),
            trees: cells_of(self.trees@),
            next: match self.next_cell_to_fill {
                Some(c) => Some(cell_of(c)),
                None => None,
            },
        }
    }
}

/// The cell that coordinates denote, if there are any.
pub open spec fn cell_of_option(c: Option<Coordinates>) -> Option<Cell> {
    match c {
        Some(c) => Some(cell_of(c)),
        None => None,
    }
}

impl Board {
    /// See [`BoardView::wf`].
    pub open spec fn wf(&self) -> bool {
        self@.wf()
    }

    /// An empty board of `board_size` rows of `board_size` cells.
    pub fn new(board_size: Number) -> (r: Board)
        ensures
            r@ == BoardView::empty(board_size as int),
            board_size >= 0 ==> r.wf(),
    {
        let r = Board {
            board_size,
            amazons: Vec::new(),
            trees: Vec::new(),
            next_cell_to_fill: Some((0, 0)),
        };
        assert(r@.amazons =~= Seq::empty());
        assert(r@.trees =~= Seq::empty());
        r
    }

    pub fn board_size(&self) -> (r: Number)
        ensures
            r == self@.size,
    {
        self.board_size
    }

    /// How many amazons stand on the board.
    pub fn amazons_count(&self) -> (r: usize)
        ensures
            r == self@.amazons.len(),
    {
        self.amazons.len()
    }

    /// How many trees stand on the board.
    pub fn trees_count(&self) -> (r: usize)
        ensures
            r == self@.trees.len(),
    {
        self.trees.len()
    }

    /// The cell to fill next, if any is left.
    pub fn next_cell_to_fill(&self) -> (r: Option<Coordinates>)
        ensures
            cell_of_option(r) == self@.next,
    {
        self.next_cell_to_fill
    }

    /// Whether an amazon stands on the cell.
    pub fn has_amazon(&self, c: &Coordinates) -> (r: bool)
        ensures
            r == self@.amazons.contains(cell_of(*c)),
    {
        has(&self.amazons, c)
    }

    /// Whether a tree stands on the cell.
    pub fn has_tree(&self, c: &Coordinates) -> (r: bool)
        ensures
            r == self@.trees.contains(cell_of(*c)),
    {
        has(&self.trees, c)
    }

    /// An independent copy of the board.
    pub fn duplicate(&self) -> (r: Board)
        ensures
            r@ == self@,
    {
        Board {
            board_size: self.board_size,
            amazons: copy_of(&self.amazons),
            trees: copy_of(&self.trees),
            next_cell_to_fill: self.next_cell_to_fill,
        }
    }

    /// The cell that is filled after `c`.
    pub fn next_coordinates(&self, c: &Coordinates) -> (r: Option<Coordinates>)
        requires
            self.wf(),
            self@.holds(cell_of(*c)) || (self@.size == 0 && cell_of(*c) == (0int, 0int)),
        ensures
            cell_of_option(r) == self@.after(cell_of(*c)),
    {
        let (x, y) = *c;
        if x == self.board_size - 1 && y == self.board_size - 1 {
            None
        } else if x == self.board_size - 1 {
            Some((0, y + 1))
        } else {
            Some((x + 1, y))
        }
    }

    /// The first amazon on a board, in the order of placing, that some
    /// amazon threatens, with the first amazon that threatens it.
    pub fn find_threat(&self) -> (r: Option<(Coordinates, Coordinates)>)
        ensures
            match r {
                Some((amazon, threat)) => exists|i: int, k: int|
                    {
                        &&& 0 <= i < self@.amazons.len()
                        &&& #[trigger] self@.amazons[i] == cell_of(amazon)
                        &&& self@.is_first_threat(k, cell_of(amazon))
                        &&& #[trigger] self@.amazons[k] == cell_of(threat)
                        &&& forall|j: int| 0 <= j < i ==> !self@.threatens(self@.amazons[j])
                    },
                None => self@.peaceful(),
            },
    {
        let mut i: usize = 0;
        while i < self.amazons.len()
            invariant
                0 <= i <= self.amazons.len(),
                forall|j: int| 0 <= j < i ==> !self@.threatens(#[trigger] self@.amazons[j]),
            decreases self.amazons.len() - i,
        {
            let amazon = self.amazons[i];
            assert(self@.amazons[i as int] == cell_of(amazon));
            match self.cell_is_threatened(&amazon) {
                Some(t) => {
                    return Some((amazon, t));
                },
                None => {},
            }
            i += 1;
        }
        proof {
            assert forall|i: int, j: int|
                0 <= i < self@.amazons.len() && 0 <= j < self@.amazons.len() implies !threatened(
                #[trigger] self@.amazons[i],
                #[trigger] self@.amazons[j],
                self@.trees,
            ) by {
                assert(!self@.threatens(self@.amazons[j]));
            }
        }
        None
    }

    /// The first amazon, in the order of placing, that threatens `cell`.
    pub fn cell_is_threatened(&self, cell: &Coordinates) -> (r: Option<Coordinates>)
        ensures
            match r {
                Some(amazon) => exists|i: int|
                    self@.is_first_threat(i, cell_of(*cell)) && #[trigger] self@.amazons[i]
                        == cell_of(amazon),
                None => !self@.threatens(cell_of(*cell)),
            },
    {
        let mut i: usize = 0;
        while i < self.amazons.len()
            invariant
                0 <= i <= self.amazons.len(),
                forall|j: int|
                    0 <= j < i ==> !threatened(
                        #[trigger] self@.amazons[j],
                        cell_of(*cell),
                        self@.trees,
                    ),
            decreases self.amazons.len() - i,
        {
            let amazon = self.amazons[i];
            assert(self@.amazons[i as int] == cell_of(amazon));
            if is_threatened(&amazon, cell, &self.trees) {
                assert(self@.is_first_threat(i as int, cell_of(*cell)));
                return Some(amazon);
            }
            i += 1;
        }
        None
    }

    /// The board with its next cell left empty.
    pub fn fill_next_cell_with_empty(&self) -> (r: Board)
        requires
            self.wf(),
            self@.next is Some,
        ensures
            r@ == self@.with_empty(),
            self@.size >= 1 ==> r.wf(),
    {
        let here = self.next_cell_to_fill.unwrap();
        let next = self.next_coordinates(&here);
        let mut b = self.duplicate();
        b.next_cell_to_fill = next;
        b
    }

    /// The board with an amazon on its next cell.
    pub fn fill_next_cell_with_amazon(&self) -> (r: Board)
        requires
            self.wf(),
            self@.next is Some,
        ensures
            r@ == self@.with_amazon(),
            self@.size >= 1 ==> r.wf(),
    {
        let here = self.next_cell_to_fill.unwrap();
        let next = self.next_coordinates(&here);
        let mut b = self.duplicate();
        b.amazons.push(here);
        b.next_cell_to_fill = next;
        assert(b@.amazons =~= self@.amazons.push(cell_of(here)));
        b
    }

    /// The board with a tree on its next cell.
    pub fn fill_next_cell_with_tree(&self) -> (r: Board)
        requires
            self.wf(),
            self@.next is Some,
        ensures
            r@ == self@.with_tree(),
            self@.size >= 1 ==> r.wf(),
    {
        let here = self.next_cell_to_fill.unwrap();
        let next = self.next_coordinates(&here);
        let mut b = self.duplicate();
        b.trees.push(here);
        b.next_cell_to_fill = next;
        assert(b@.trees =~= self@.trees.push(cell_of(here)));
        b
    }

    /// Puts an amazon on the next cell of this board.
    pub(crate) fn place_amazon(&mut self)
        requires
            old(self).wf(),
            old(self)@.size >= 1,
            old(self)@.next is Some,
        ensures
            final(self)@ == old(self)@.with_amazon(),
            final(self).wf(),
    {
        let here = self.next_cell_to_fill.unwrap();
        let next = self.next_coordinates(&here);
        self.amazons.push(here);
        self.next_cell_to_fill = next;
        assert(self@.amazons =~= old(self)@.amazons.push(cell_of(here)));
    }

    /// Puts a tree on the next cell of this board.
    pub(crate) fn place_tree(&mut self)
        requires
            old(self).wf(),
            old(self)@.size >= 1,
            old(self)@.next is Some,
        ensures
            final(self)@ == old(self)@.with_tree(),
            final(self).wf(),
    {
        let here = self.next_cell_to_fill.unwrap();
        let next = self.next_coordinates(&here);
        self.trees.push(here);
        self.next_cell_to_fill = next;
        assert(self@.trees =~= old(self)@.trees.push(cell_of(here)));
    }

    /// Leaves the next cell of this board empty.
    pub(crate) fn leave_empty(&mut self)
        requires
            old(self).wf(),
            old(self)@.size >= 1,
            old(self)@.next is Some,
        ensures
            final(self)@ == old(self)@.with_empty(),
            final(self).wf(),
    {
        let here = self.next_cell_to_fill.unwrap();
        self.next_cell_to_fill = self.next_coordinates(&here);
    }

    /// Takes back the amazon that was placed last, on `cell`.
    pub(crate) fn take_back_amazon(&mut self, cell: Coordinates)
        requires
            old(self)@.amazons.len() > 0,
        ensures
            final(self)@ == (BoardView {
                amazons: old(self)@.amazons.drop_last(),
                next: Some(cell_of(cell)),
                ..old(self)@
            }),
    {
        self.amazons.pop();
        self.next_cell_to_fill = Some(cell);
        assert(self@.amazons =~= old(self)@.amazons.drop_last());
    }

    /// Takes back the tree that was placed last, on `cell`.
    pub(crate) fn take_back_tree(&mut self, cell: Coordinates)
        requires
            old(self)@.trees.len() > 0,
        ensures
            final(self)@ == (BoardView {
                trees: old(self)@.trees.drop_last(),
                next: Some(cell_of(cell)),
                ..old(self)@
            }),
    {
        self.trees.pop();
        self.next_cell_to_fill = Some(cell);
        assert(self@.trees =~= old(self)@.trees.drop_last());
    }

    /// Makes `cell` the next one to fill again.
    pub(crate) fn take_back_empty(&mut self, cell: Coordinates)
        ensures
            final(self)@ == (BoardView { next: Some(cell_of(cell)), ..old(self)@ }),
    {
        self.next_cell_to_fill = Some(cell);
    }

    /// The boards that follow from filling the next cell, see
    /// [`BoardView::children`].
    pub fn fill_next_cell_with_possible(&self) -> (r: Vec<Board>)
        requires
            self.wf(),
        ensures
            r@.map_values(|b: Board| b@) == self@.children(),
            self@.size >= 1 ==> forall|i: int| 0 <= i < r.len() ==> (#[trigger] r[i]).wf(),
    {
        let mut ret: Vec<Board> = Vec::new();
        let here = match self.next_cell_to_fill {
            Some(c) => c,
            None => {
                assert(ret@.map_values(|b: Board| b@) =~= self@.children());
                return ret;
            },
        };
        let threatened = self.cell_is_threatened(&here);
        if threatened.is_none() {
            ret.push(self.fill_next_cell_with_amazon());
        }
        if self.board_size < 12 {
            ret.push(self.fill_next_cell_with_tree());
        }
        ret.push(self.fill_next_cell_with_empty());
        assert(ret@.map_values(|b: Board| b@) =~= self@.children());
        ret
    }
}

/// Whether the coordinates are among those of the vector.
fn has(v: &Vec<Coordinates>, c: &Coordinates) -> (r: bool)
    ensures
        r == cells_of(v@).contains(cell_of(*c)),
{
    let mut i: usize = 0;
    while i < v.len()
        invariant
            0 <= i <= v.len(),
            forall|j: int| 0 <= j < i ==> cells_of(v@)[j] != cell_of(*c),
        decreases v.len() - i,
    {
        let here = v[i];
        assert(cells_of(v@)[i as int] == cell_of(here));
        if here.0 == c.0 && here.1 == c.1 {
            return true;
        }
        i += 1;
    }
    false
}

/// A copy of a vector of coordinates.
fn copy_of(v: &Vec<Coordinates>) -> (r: Vec<Coordinates>)
    ensures
        r@ == v@,
{
    let mut r: Vec<Coordinates> = Vec::new();
    let mut i: usize = 0;
    while i < v.len()
        invariant
            0 <= i <= v.len(),
            r@ == v@.subrange(0, i as int),
        decreases v.len() - i,
    {
        r.push(v[i]);
        assert(r@ =~= v@.subrange(0, i + 1));
        i += 1;
    }
    assert(r@ =~= v@);
    r
}

} // verus!
