//! Walks over the hexagonal board: over all cells, and along one direction.

use vstd::prelude::*;
use crate::chessboard::{cell_at, ChessBoard};
use crate::hexboard::{hex_x, hex_y, stored_at, Coord, Dir, Hexboard};
use crate::offset::plus;
use crate::pieces::Square;

verus! {

/// Whether one stored place comes before another when the rows are read one
/// after the other.
pub open spec fn stored_before(x: int, y: int, other_x: int, other_y: int) -> bool {
    y < other_y || (y == other_y && x < other_x)
}

/// A walk over the cells of a hexagonal board, row by row. `x` and `y` are
/// the column and row of the grid from which the walk goes on.
pub struct HexIter<'r> {
    pub board: &'r Hexboard,
    pub x: usize,
    pub y: usize,
}

impl<'r> HexIter<'r> {
    /// The next cell of the walk with what it holds: the first cell that is
    /// stored at or after column `x` of row `y`. The walk then goes on behind
    /// that cell. `None` once no cell is left.
    pub fn next(&mut self) -> (item: Option<(Coord, Square)>)
        ensures
            final(self).board == old(self).board,
            match item {
                Some((at, square)) => {
                    &&& cell_at(old(self).board@, at@) == Some(square)
                    &&& !stored_before(
                        hex_x(at@, 5),
                        hex_y(at@, 5),
                        old(self).x as int,
                        old(self).y as int,
                    )
                    &&& forall|p: (int, int)|
                        old(self).board@.dom().contains(p) && stored_before(
                            hex_x(p, 5),
                            hex_y(p, 5),
                            hex_x(at@, 5),
                            hex_y(at@, 5),
                        ) ==> stored_before(
                            hex_x(p, 5),
                            hex_y(p, 5),
                            old(self).x as int,
                            old(self).y as int,
                        )
                    &&& final(self).x == hex_x(at@, 5) + 1
                    &&& final(self).y == hex_y(at@, 5)
                },
                None => forall|p: (int, int)|
                    old(self).board@.dom().contains(p) ==> stored_before(
                        hex_x(p, 5),
                        hex_y(p, 5),
                        old(self).x as int,
                        old(self).y as int,
                    ),
            },
    {
        let ghost x0 = self.x as int;
        let ghost y0 = self.y as int;
        while self.y < self.board.grid.len()
            invariant
                self.board == old(self).board,
                x0 == old(self).x,
                y0 == old(self).y,
                !stored_before(self.x as int, self.y as int, x0, y0),
                forall|p: (int, int)|
                    self.board@.dom().contains(p) && stored_before(
                        hex_x(p, 5),
                        hex_y(p, 5),
                        self.x as int,
                        self.y as int,
                    ) ==> stored_before(hex_x(p, 5), hex_y(p, 5), x0, y0),
            decreases self.board.grid@.len() - self.y, self.board.grid@[self.y as int]@.len() - self.x,
        {
            let row = &self.board.grid[self.y];
            if self.x < row.len() {
                let x = self.x;
                self.x = self.x + 1;
                match stored_at(x, self.y) {
                    Some(at) => {
                        return Some((at, row[x]));
                    },
                    None => {},
                }
            } else {
                self.x = 0;
                self.y = self.y + 1;
            }
        }
        None
    }
}

/// A walk from a square of a hexagonal board in one direction.
pub struct DirHexIter<'r> {
    pub board: &'r Hexboard,
    pub at: Coord,
    pub dir: Dir,
}

impl<'r> DirHexIter<'r> {
    /// Takes one step: the square one step further with what it holds, or
    /// `None` where that square is off the board. The walk stands on the new
    /// square wherever a location can hold it, on the board or off it.
    pub fn next(&mut self) -> (item: Option<(Coord, Square)>)
        ensures
            final(self).board == old(self).board,
            final(self).dir == old(self).dir,
            match item {
                Some((at, square)) => {
                    &&& at@ == plus(old(self).at@, old(self).dir@)
                    &&& cell_at(old(self).board@, at@) == Some(square)
                    &&& final(self).at == at
                },
                None => {
                    &&& cell_at(old(self).board@, plus(old(self).at@, old(self).dir@)) is None
                    &&& final(self).at@ == if Hexboard::locatable(
                        plus(old(self).at@, old(self).dir@),
                    ) {
                        plus(old(self).at@, old(self).dir@)
                    } else {
                        old(self).at@
                    }
                },
            },
    {
        match Hexboard::offset(self.at, self.dir) {
            Some(at) => {
                self.at = at;
                match self.board.get(at) {
                    Some(square) => Some((at, square)),
                    None => None,
                }
            },
            None => None,
        }
    }
}

} // verus!
