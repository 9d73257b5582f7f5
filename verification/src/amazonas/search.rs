//! The search for a board with as many amazons as rows, none threatening
//! another, and for one such board with few trees.

use vstd::prelude::*;
use crate::amazonas::board::{Board, BoardView, lemma_fill_peaceful, lemma_fill_wf};
use crate::amazonas::threat::Number;

verus! {

/// The board has as many amazons as rows.
pub open spec fn complete(b: BoardView) -> bool {
    b.amazons.len() == b.size
}

/// The board has no more amazons than rows and no more trees than allowed.
pub open spec fn admissible(b: BoardView, max_trees: nat) -> bool {
    b.amazons.len() <= b.size && b.trees.len() <= max_trees
}

/// How many rows are left to fill, the one of the next cell included.
pub open spec fn rows_left(b: BoardView) -> int {
    match b.next {
        Some(c) => b.size - c.1,
        None => 0,
    }
}

/// How many cells of its row are left to fill, the next cell included.
pub open spec fn cells_left(b: BoardView) -> int {
    match b.next {
        Some(c) => b.size - c.0,
        None => 0,
    }
}

/// The first complete board that a search in depth finds from `b`: `b`
/// itself if it is complete; otherwise what the search finds from the first
/// of the boards that follow from `b`, in their order and the admissible
/// ones only, from which it finds anything.
pub open spec fn search(b: BoardView, max_trees: nat) -> Option<BoardView>
    decreases rows_left(b), cells_left(b), 1int, 0int,
{
    if complete(b) {
        Some(b)
    } else if !(b.wf() && b.size >= 1) {
        None
    } else {
        search_children(b, max_trees, 0)
    }
}

/// What the search finds from the boards that follow from `b`, from the one
/// at index `i` on.
pub open spec fn search_children(b: BoardView, max_trees: nat, i: int) -> Option<BoardView>
    decreases rows_left(b), cells_left(b), 0int, b.children().len() - i,
{
    if !(b.wf() && b.size >= 1) || i < 0 || i >= b.children().len() {
        None
    } else {
        let child = b.children()[i];
        let found = if admissible(child, max_trees) {
            search(child, max_trees)
        } else {
            None
        };
        if found is Some {
            found
        } else {
            search_children(b, max_trees, i + 1)
        }
    }
}

/// The search from the complete board `found` for one with fewer trees:
/// as long as a board with at least one tree less is found, the search goes
/// on from that one.
pub open spec fn fewest_trees(size: int, found: BoardView) -> BoardView
    decreases found.trees.len(),
{
    if found.trees.len() == 0 {
        found
    } else {
        match search(BoardView::empty(size), (found.trees.len() - 1) as nat) {
            Some(next) => if next.trees.len() < found.trees.len() {
                fewest_trees(size, next)
            } else {
                found
            },
            None => found,
        }
    }
}

/// What a board holds, if there is one.
pub open spec fn view_of(r: Option<Board>) -> Option<BoardView> {
    match r {
        Some(b) => Some(b@),
        None => None,
    }
}

/// Each board that follows from `b` has its next cell after that of `b`.
pub proof fn lemma_children_follow(b: BoardView, i: int)
    requires
        b.wf(),
        b.size >= 1,
        0 <= i < b.children().len(),
    ensures
        b.next is Some,
        b.children()[i].size == b.size,
        b.children()[i].wf(),
        b.children()[i].next == b.after(b.next->0),
        b.peaceful() ==> b.children()[i].peaceful(),
        b.children()[i].trees.len() >= b.trees.len(),
{
    lemma_fill_wf(b);
    if b.peaceful() {
        lemma_fill_peaceful(b);
    }
}

/// What the search finds is complete and of the same size. If it starts
/// from a board where no amazon threatens another, the same holds of what
/// it finds; and if it starts from a board with no more trees than allowed,
/// it finds one with no more trees than allowed.
pub proof fn lemma_search_sound(b: BoardView, max_trees: nat)
    requires
        b.wf(),
        search(b, max_trees) is Some,
    ensures
        complete(search(b, max_trees)->0),
        search(b, max_trees)->0.wf(),
        search(b, max_trees)->0.size == b.size,
        b.peaceful() ==> search(b, max_trees)->0.peaceful(),
        b.trees.len() <= max_trees ==> search(b, max_trees)->0.trees.len() <= max_trees,
    decreases rows_left(b), cells_left(b), 1int, 0int,
{
    if !complete(b) {
        lemma_search_children_sound(b, max_trees, 0);
    }
}

proof fn lemma_search_children_sound(b: BoardView, max_trees: nat, i: int)
    requires
        b.wf(),
        b.size >= 1,
        search_children(b, max_trees, i) is Some,
    ensures
        complete(search_children(b, max_trees, i)->0),
        search_children(b, max_trees, i)->0.wf(),
        search_children(b, max_trees, i)->0.size == b.size,
        b.peaceful() ==> search_children(b, max_trees, i)->0.peaceful(),
        search_children(b, max_trees, i)->0.trees.len() <= max_trees,
    decreases rows_left(b), cells_left(b), 0int, b.children().len() - i,
{
    let child = b.children()[i];
    lemma_children_follow(b, i);
    if admissible(child, max_trees) && search(child, max_trees) is Some {
        lemma_search_sound(child, max_trees);
    } else {
        lemma_search_children_sound(b, max_trees, i + 1);
    }
}

/// The board with the fewest trees that the repeated search reaches is
/// complete and of the same size, none of its amazons threatens another,
/// and the search finds no board with fewer trees.
pub proof fn lemma_fewest_trees_sound(size: int, found: BoardView)
    requires
        0 <= size,
        complete(found),
        found.wf(),
        found.size == size,
        found.peaceful(),
    ensures
        complete(fewest_trees(size, found)),
        fewest_trees(size, found).wf(),
        fewest_trees(size, found).size == size,
        fewest_trees(size, found).peaceful(),
        fewest_trees(size, found).trees.len() <= found.trees.len(),
        fewest_trees(size, found).trees.len() > 0 ==> search(
            BoardView::empty(size),
            (fewest_trees(size, found).trees.len() - 1) as nat,
        ) is None,
    decreases found.trees.len(),
{
    if found.trees.len() > 0 {
        let fewer = (found.trees.len() - 1) as nat;
        if search(BoardView::empty(size), fewer) is Some {
            lemma_search_sound(BoardView::empty(size), fewer);
            let next = search(BoardView::empty(size), fewer)->0;
            lemma_fewest_trees_sound(size, next);
        }
    }
}

/// The search from a board that is not complete takes the boards that follow
/// one by one: with an amazon, with a tree, with the cell left empty.
pub proof fn lemma_search_unfold(b: BoardView, max_trees: nat)
    requires
        b.wf(),
        b.size >= 1,
        !complete(b),
    ensures
        b.next is None ==> search(b, max_trees) is None,
        b.next is Some ==> search(b, max_trees) == ({
            let by_amazon = if !b.threatens(b.next->0) && admissible(b.with_amazon(), max_trees) {
                search(b.with_amazon(), max_trees)
            } else {
                None
            };
            let by_tree = if b.size < 12 && admissible(b.with_tree(), max_trees) {
                search(b.with_tree(), max_trees)
            } else {
                None
            };
            let by_empty = if admissible(b.with_empty(), max_trees) {
                search(b.with_empty(), max_trees)
            } else {
                None
            };
            if by_amazon is Some {
                by_amazon
            } else if by_tree is Some {
                by_tree
            } else {
                by_empty
            }
        }),
{
    let children = b.children();
    lemma_search_children_step(b, max_trees, 0);
    lemma_search_children_step(b, max_trees, 1);
    lemma_search_children_step(b, max_trees, 2);
    lemma_search_children_step(b, max_trees, 3);
    if b.next is Some {
        if !b.threatens(b.next->0) {
            assert(children[0] == b.with_amazon());
            if b.size < 12 {
                assert(children[1] == b.with_tree());
                assert(children[2] == b.with_empty());
                assert(children.len() == 3);
            } else {
                assert(children[1] == b.with_empty());
                assert(children.len() == 2);
            }
        } else {
            if b.size < 12 {
                assert(children[0] == b.with_tree());
                assert(children[1] == b.with_empty());
                assert(children.len() == 2);
            } else {
                assert(children[0] == b.with_empty());
                assert(children.len() == 1);
            }
        }
    }
}

proof fn lemma_search_children_step(b: BoardView, max_trees: nat, i: int)
    requires
        b.wf(),
        b.size >= 1,
        0 <= i,
    ensures
        search_children(b, max_trees, i) == if i >= b.children().len() {
            None
        } else {
            let found = if admissible(b.children()[i], max_trees) {
                search(b.children()[i], max_trees)
            } else {
                None
            };
            if found is Some {
                found
            } else {
                search_children(b, max_trees, i + 1)
            }
        },
{
}

/// Searches in depth from `b` for a complete board. The board is filled in
/// place: where the search finds a complete board, `b` is that board, and
/// where it finds none, `b` is as it was.
pub fn search_from(b: &mut Board, max_number_of_trees: usize) -> (found: bool)
    requires
        old(b).wf(),
        old(b)@.size >= 1 || complete(old(b)@),
    ensures
        found == (search(old(b)@, max_number_of_trees as nat) is Some),
        found ==> Some(final(b)@) == search(old(b)@, max_number_of_trees as nat),
        !found ==> final(b)@ == old(b)@,
    decreases rows_left(old(b)@), cells_left(old(b)@),
{
    let size = b.board_size() as usize;
    if b.amazons_count() == size {
        return true;
    }
    let ghost start = b@;
    proof {
        lemma_search_unfold(start, max_number_of_trees as nat);
        if start.next is Some {
            lemma_fill_wf(start);
        }
    }
    let here = match b.next_cell_to_fill() {
        Some(c) => c,
        None => {
            return false;
        },
    };
    let trees_allowed = b.trees_count() <= max_number_of_trees;
    if b.cell_is_threatened(&here).is_none() && b.amazons_count() < size && trees_allowed {
        b.place_amazon();
        if search_from(b, max_number_of_trees) {
            return true;
        }
        b.take_back_amazon(here);
        assert(b@.amazons =~= start.amazons);
    }
    if b.board_size() < 12 && b.amazons_count() <= size && b.trees_count() < max_number_of_trees {
        b.place_tree();
        if search_from(b, max_number_of_trees) {
            return true;
        }
        b.take_back_tree(here);
        assert(b@.trees =~= start.trees);
    }
    if b.amazons_count() <= size && trees_allowed {
        b.leave_empty();
        if search_from(b, max_number_of_trees) {
            return true;
        }
        b.take_back_empty(here);
    }
    false
}

/// Looks for a board of `board_size` rows with as many amazons, none
/// threatening another, and at most `max_number_of_trees` trees. The search
/// fills the board cell by cell, tries an amazon first, then a tree, then
/// nothing, and returns the first board that it completes.
pub fn find_board(board_size: Number, max_number_of_trees: usize) -> (r: Option<Board>)
    requires
        board_size >= 0,
    ensures
        view_of(r) == search(BoardView::empty(board_size as int), max_number_of_trees as nat),
        r matches Some(b) ==> {
            &&& b.wf()
            &&& b@.size == board_size
            &&& complete(b@)
            &&& b@.peaceful()
            &&& b@.trees.len() <= max_number_of_trees
        },
{
    let mut root = Board::new(board_size);
    let ghost start = root@;
    if search_from(&mut root, max_number_of_trees) {
        proof {
            lemma_search_sound(start, max_number_of_trees as nat);
        }
        Some(root)
    } else {
        None
    }
}

/// Looks for a complete board, and then again and again for one with
/// fewer trees than the last one found, until the search finds none.
pub fn find_board_minimize_trees(board_size: Number) -> (r: Option<Board>)
    requires
        board_size >= 0,
        board_size * board_size <= i32::MAX,
    ensures
        view_of(r) == match search(
            BoardView::empty(board_size as int),
            (board_size * board_size) as nat,
        ) {
            Some(found) => Some(fewest_trees(board_size as int, found)),
            None => None,
        },
        r matches Some(b) ==> {
            &&& b.wf()
            &&& b@.size == board_size
            &&& complete(b@)
            &&& b@.peaceful()
            &&& b@.trees.len() > 0 ==> search(
                BoardView::empty(board_size as int),
                (b@.trees.len() - 1) as nat,
            ) is None
        },
{
    assert(board_size * board_size >= 0) by (nonlinear_arith)
        requires
            board_size >= 0,
    ;
    let max_number_of_trees = (board_size * board_size) as usize;
    let mut last_found = match find_board(board_size, max_number_of_trees) {
        Some(found) => found,
        None => {
            return None;
        },
    };
    let ghost first = last_found@;
    proof {
        lemma_fewest_trees_sound(board_size as int, first);
    }
    loop
        invariant
            board_size >= 0,
            last_found.wf(),
            last_found@.size == board_size,
            complete(last_found@),
            last_found@.peaceful(),
            search(BoardView::empty(board_size as int), (board_size * board_size) as nat) == Some(
                first,
            ),
            fewest_trees(board_size as int, first) == fewest_trees(board_size as int, last_found@),
        decreases last_found@.trees.len(),
    {
        if last_found.trees_count() == 0 {
            return Some(last_found);
        }
        let fewer = last_found.trees_count() - 1;
        match find_board(board_size, fewer) {
            Some(next) => {
                last_found = next;
            },
            None => {
                return Some(last_found);
            },
        }
    }
}

} // verus!
