use crate::{BoardModel, Cell, GameBoard};
use vstd::prelude::*;

verus! {

/// One item of a board traversal: a grid position together with the state
/// of the cell at that position.
#[derive(PartialEq, Eq, Structural, Copy, Clone, Debug)]
pub struct Coordinate {
    pub x: usize,
    pub y: usize,
    pub cell: Cell,
}

/// The item a traversal of a board in the given state yields at position
/// `i`: the row-major coordinates of index `i` and the cell stored there.
pub open spec fn spec_traversal_item(m: BoardModel, i: int) -> Coordinate {
    Coordinate {
        x: (i % (m.width as int)) as usize,
        y: (i / (m.width as int)) as usize,
        cell: Cell(m.cells[i]),
    }
}

/// A lazy, single-pass traversal over all cells of a board, in row-major
/// order. A fresh traversal starts at index 0 and yields one item per call
/// to `next` until `size` items have been produced; it reads the board and
/// never mutates it.
pub struct CoordinateIter<'a> {
    pub size: usize,
    pub index: usize,
    pub game_board: &'a GameBoard,
}

impl<'a> CoordinateIter<'a> {
    /// The traversal reads a well-formed board and carries its cell count.
    pub open spec fn wf(&self) -> bool {
        &&& self.game_board.wf()
        &&& self.size == self.game_board@.size()
    }

    /// The next item of the traversal: the cell at the current position,
    /// with its coordinates, or `None` once all cells have been produced.
    pub fn next(&mut self) -> (r: Option<Coordinate>)
        requires
            old(self).wf(),
        ensures
            final(self).wf(),
            final(self).game_board == old(self).game_board,
            final(self).size == old(self).size,
            old(self).index < old(self).size ==> {
                &&& final(self).index == old(self).index + 1
                &&& r == Some(
                    spec_traversal_item(old(self).game_board@, old(self).index as int),
                )
            },
            old(self).index >= old(self).size ==> {
                &&& r is None
                &&& final(self).index == old(self).index
            },
    {
        if self.index >= self.size {
            None
        } else {
            proof {
                assert(self.game_board@.width > 0) by (nonlinear_arith)
                    requires
                        (self.index as int) < self.game_board@.width * self.game_board@.height,
                        0 <= self.index,
                ;
                crate::lemma_index_to_coords(
                    self.game_board@.width as int,
                    self.game_board@.height as int,
                    self.index as int,
                );
            }
            let w = self.game_board.grid_width();
            let x = self.index % w;
            let y = self.index / w;
            let cell = self.game_board.cell_at(self.index);
            self.index = self.index + 1;
            Some(Coordinate { x, y, cell })
        }
    }
}

impl GameBoard {
    /// A fresh traversal over this board, positioned at the first cell.
    pub fn into_iter<'a>(&'a self) -> (r: CoordinateIter<'a>)
        requires
            self.wf(),
        ensures
            r.wf(),
            r.index == 0,
            r.size == self@.size(),
            r.game_board == self,
    {
        CoordinateIter { size: self.size(), index: 0, game_board: self }
    }
}

/// Law: a traversal item depends only on the board's state and the
/// position in the traversal, so traversals of boards in the same state
/// yield identical sequences — in particular, two traversals created one
/// after the other from the same unmutated board.
pub proof fn lemma_traversal_restartable(a: BoardModel, b: BoardModel, i: int)
    requires
        a.width == b.width,
        a.height == b.height,
        a.cells =~= b.cells,
    ensures
        spec_traversal_item(a, i) == spec_traversal_item(b, i),
{
    assert(a =~= b);
}

/// Law: a traversal of a freshly constructed board yields exactly
/// `width * height` items, every one a dead cell, in row-major order:
/// the item at position `i` carries the coordinates (i % width, i / width).
pub proof fn lemma_fresh_board_traversal(w: nat, h: nat, i: int)
    requires
        0 <= i < w * h,
    ensures
        spec_traversal_item(BoardModel::empty(w, h), i) == (Coordinate {
            x: (i % (w as int)) as usize,
            y: (i / (w as int)) as usize,
            cell: Cell(false),
        }),
        0 <= i % (w as int) < w,
        0 <= i / (w as int) < h,
        (i / (w as int)) * w + (i % (w as int)) == i,
{
    assert(0 < w) by (nonlinear_arith)
        requires
            0 <= i < w * h,
    ;
    crate::lemma_index_to_coords(w as int, h as int, i);
}

} // verus!
