//! The capability that a board topology offers to the move generator.

use vstd::prelude::*;
use crate::offset::{minus, plus, times, Castle, CastleView, Offset};
use crate::pieces::{Color, Square};

verus! {

/// What a board holds at a point: `None` off the board.
pub open spec fn cell_at(cells: Map<(int, int), Square>, p: (int, int)) -> Option<Square> {
    if cells.dom().contains(p) {
        Some(cells[p])
    } else {
        None
    }
}

/// The cells after a write at a point: changed there where the point is on
/// the board, and untouched where it is not.
pub open spec fn written(cells: Map<(int, int), Square>, p: (int, int), square: Square) -> Map<
    (int, int),
    Square,
> {
    if cells.dom().contains(p) {
        cells.insert(p, square)
    } else {
        cells
    }
}

/// The pairs that a list of offsets stands for.
pub open spec fn vectors<R: Offset>(rels: Seq<R>) -> Seq<(int, int)> {
    rels.map_values(|r: R| r.vector())
}

/// The castlings that a list of castlings stands for.
pub open spec fn castle_views<R: Offset>(castles: Seq<Castle<R>>) -> Seq<CastleView> {
    castles.map_values(|c: Castle<R>| c@)
}

/// A board topology: its cells and the geometry of the pieces' moves on it.
///
/// A location stands for a pair of integers, its [`point`](ChessBoard::point),
/// and an offset for another pair; a location plus an offset is the
/// componentwise sum. The board's content is a finite map from the points
/// that are on the board to what each holds.
pub trait ChessBoard: Sized {
    /// An absolute location.
    type Loc: Copy + core::fmt::Debug + core::hash::Hash + PartialEq + Eq;

    /// A relative offset between two locations.
    type Rel: Offset + core::fmt::Debug + core::hash::Hash + PartialEq + Eq;

    /// The pair of integers that a location stands for.
    spec fn point(loc: Self::Loc) -> (int, int);

    /// Whether some location stands for the given pair.
    spec fn locatable(p: (int, int)) -> bool;

    /// What the board holds, point by point.
    spec fn cells(&self) -> Map<(int, int), Square>;

    /// Whether the board has a shape that this topology accepts.
    spec fn wf(&self) -> bool;

    /// The layout at the start of a game.
    spec fn start() -> Map<(int, int), Square>;

    /// The leaps of a knight.
    spec fn knight_vectors() -> Seq<(int, int)>;

    /// The directions in which a rook slides.
    spec fn rook_vectors() -> Seq<(int, int)>;

    /// The directions in which a bishop slides.
    spec fn bishop_vectors() -> Seq<(int, int)>;

    /// A pawn's single step.
    spec fn forward_vector(color: Color) -> (int, int);

    /// The steps by which a pawn captures.
    spec fn capture_vectors(color: Color) -> Seq<(int, int)>;

    /// Whether a pawn at the point may advance two steps at once.
    spec fn is_home(color: Color, p: (int, int)) -> bool;

    /// Whether a pawn that arrives at the point is promoted.
    spec fn is_promotion(color: Color, p: (int, int)) -> bool;

    /// The castlings of this topology, in the order in which they are tried.
    spec fn castlings() -> Seq<CastleView>;

    /// Every point of a board has a location.
    proof fn lemma_cells_locatable(&self, p: (int, int))
        requires
            self.cells().dom().contains(p),
        ensures
            Self::locatable(p),
    ;

    /// The offset type can hold the way from any point of a board to any
    /// other.
    proof fn lemma_displacement_fits(&self, p: (int, int), q: (int, int))
        requires
            self.wf(),
            self.cells().dom().contains(p),
            self.cells().dom().contains(q),
        ensures
            Self::Rel::fits(minus(q, p)),
    ;

    /// The board in the layout at the start of a game.
    fn initial() -> (board: Self)
        ensures
            board.wf(),
            board.cells() == Self::start(),
            forall|p: (int, int)| cell_at(board.cells(), p) != Some(Square::Duck),
    ;

    /// Whether the board has a shape that this topology accepts.
    fn well_formed(&self) -> (ok: bool)
        ensures
            ok == self.wf(),
    ;

    /// A copy of the board.
    fn duplicate(&self) -> (copy: Self)
        ensures
            copy.cells() == self.cells(),
            copy.wf() == self.wf(),
    ;

    /// What the board holds at a location: `None` off the board.
    fn get(&self, loc: Self::Loc) -> (content: Option<Square>)
        ensures
            content == cell_at(self.cells(), Self::point(loc)),
    ;

    /// The square at a location, to read and to write: `None` off the board.
    fn get_mut(&mut self, loc: Self::Loc) -> (cell: Option<&mut Square>)
        ensures
            match cell {
                Some(c) => {
                    &&& cell_at(old(self).cells(), Self::point(loc)) == Some(*c)
                    &&& final(self).cells() == old(self).cells().insert(
                        Self::point(loc),
                        *final(c),
                    )
                    &&& final(self).wf() == old(self).wf()
                },
                None => {
                    &&& cell_at(old(self).cells(), Self::point(loc)) is None
                    &&& *final(self) == *old(self)
                },
            },
    ;

    /// Writes a square. Off the board nothing is written.
    fn set_at(&mut self, loc: Self::Loc, square: Square)
        ensures
            final(self).cells() == written(old(self).cells(), Self::point(loc), square),
            final(self).wf() == old(self).wf(),
    ;

    /// Every cell of the board with its content, each cell once.
    fn iter(&self) -> (all: Vec<(Self::Loc, Square)>)
        ensures
            forall|i: int|
                0 <= i < all@.len() ==> cell_at(self.cells(), Self::point(#[trigger] all@[i].0))
                    == Some(all@[i].1),
            forall|p: (int, int)|
                self.cells().dom().contains(p) ==> exists|i: int|
                    0 <= i < all@.len() && Self::point(#[trigger] all@[i].0) == p,
            forall|i: int, j: int|
                0 <= i < j < all@.len() ==> Self::point(#[trigger] all@[i].0) != Self::point(
                    #[trigger] all@[j].0,
                ),
    ;

    /// A number of steps after which every ray has left the board.
    fn reach(&self) -> (steps: u32)
        requires
            self.wf(),
        ensures
            forall|p: (int, int), v: (int, int), k: int|
                self.cells().dom().contains(p) && v != (0int, 0int) && k > steps
                    ==> !#[trigger] self.cells().dom().contains(plus(p, times(v, k))),
    ;

    /// The location at an offset from another, if there is one.
    fn offset(loc: Self::Loc, rel: Self::Rel) -> (sum: Option<Self::Loc>)
        ensures
            match sum {
                Some(l) => Self::point(l) == plus(Self::point(loc), rel.vector()),
                None => !Self::locatable(plus(Self::point(loc), rel.vector())),
            },
    ;

    /// Whether two locations are the same place.
    fn same_loc(a: &Self::Loc, b: &Self::Loc) -> (equal: bool)
        ensures
            equal == (Self::point(*a) == Self::point(*b)),
    ;

    /// The leaps of a knight.
    fn knight_moves() -> (leaps: Vec<Self::Rel>)
        ensures
            vectors(leaps@) == Self::knight_vectors(),
    ;

    /// A pawn's single step.
    fn forward_one(color: Color) -> (step: Self::Rel)
        ensures
            step.vector() == Self::forward_vector(color),
    ;

    /// Whether a pawn at the location may advance two steps at once.
    fn home_for(&self, color: Color, loc: Self::Loc) -> (home: bool)
        ensures
            home == Self::is_home(color, Self::point(loc)),
    ;

    /// The steps by which a pawn captures.
    fn takeable(&self, color: Color) -> (steps: Vec<Self::Rel>)
        ensures
            vectors(steps@) == Self::capture_vectors(color),
    ;

    /// Whether a pawn that arrives at the location is promoted.
    fn can_promote(&self, color: Color, loc: Self::Loc) -> (promotes: bool)
        ensures
            promotes == Self::is_promotion(color, Self::point(loc)),
    ;

    /// The directions in which a rook slides.
    fn rook_dirs(&self) -> (dirs: Vec<Self::Rel>)
        ensures
            vectors(dirs@) == Self::rook_vectors(),
    ;

    /// The castlings of this topology, in the order in which they are tried.
    fn castle_rooks(&self) -> (castles: Vec<Castle<Self::Rel>>)
        ensures
            castle_views(castles@) == Self::castlings(),
    ;

    /// The directions in which a bishop slides.
    fn bishop_dirs(&self) -> (dirs: Vec<Self::Rel>)
        ensures
            vectors(dirs@) == Self::bishop_vectors(),
    ;
}

} // verus!
