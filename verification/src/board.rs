//! The square grid: locations, offsets and the board itself.

use vstd::prelude::*;
use crate::action::{ActionRaw, SingleAction};
use crate::chessboard::{castle_views, cell_at, vectors, written, ChessBoard};
use crate::menuboard::MenuBoard;
use crate::offset::{plus, times, Castle, CastleView, Offset, RelIter, RunView};
use crate::pieces::{Color, Piece, Square};

verus! {

/// A location on the square grid: column and row, counted from the top left.
#[derive(Debug, Hash, Copy, Clone, PartialEq, Eq, Structural)]
pub struct Loc {
    pub right: usize,
    pub down: usize,
}

impl Loc {
    pub open spec fn view(self) -> (int, int) {
        (self.right as int, self.down as int)
    }

    pub fn new(right: usize, down: usize) -> (loc: Loc)
        ensures
            loc == (Loc { right, down }),
    {
        Loc { right, down }
    }
}

impl Default for Loc {
    fn default() -> (loc: Loc)
        ensures
            loc == (Loc { right: 0, down: 0 }),
    {
        Loc { right: 0, down: 0 }
    }
}

/// An offset on the square grid: columns to the right and rows down.
#[derive(Debug, Hash, Copy, Clone, PartialEq, Eq, Structural)]
pub struct Rel {
    pub right: i32,
    pub down: i32,
}

/// An action on the square grid.
pub type Action = SingleAction<Rel>;

/// An offer on the square grid.
pub type Actions = ActionRaw<Rel>;

/// Whether both parts of a pair fit a signed 32-bit integer.
pub open spec fn fits_i32(v: (int, int)) -> bool {
    i32::MIN <= v.0 <= i32::MAX && i32::MIN <= v.1 <= i32::MAX
}

impl Rel {
    pub open spec fn view(self) -> (int, int) {
        (self.right as int, self.down as int)
    }

    pub fn new(right: i32, down: i32) -> (rel: Rel)
        ensures
            rel == (Rel { right, down }),
    {
        Rel { right, down }
    }

    pub fn origin() -> (rel: Rel)
        ensures
            rel == (Rel { right: 0, down: 0 }),
    {
        Rel { right: 0, down: 0 }
    }

    /// The offset moved by the given columns and rows.
    pub fn shift(&self, right: i32, down: i32) -> (rel: Rel)
        requires
            fits_i32((self.right + right, self.down + down)),
        ensures
            rel@ == plus(self@, (right as int, down as int)),
    {
        Rel::new(self.right + right, self.down + down)
    }
}

impl Default for Rel {
    fn default() -> (rel: Rel)
        ensures
            rel == (Rel { right: 0, down: 0 }),
    {
        Rel { right: 0, down: 0 }
    }
}

impl Offset for Rel {
    open spec fn vector(self) -> (int, int) {
        self@
    }

    open spec fn fits(v: (int, int)) -> bool {
        fits_i32(v)
    }

    fn origin() -> (zero: Rel) {
        Rel { right: 0, down: 0 }
    }

    fn same(&self, other: &Rel) -> (equal: bool) {
        self.right == other.right && self.down == other.down
    }

    fn checked_sum(self, other: Rel) -> (sum: Option<Rel>) {
        let right: i64 = self.right as i64 + other.right as i64;
        let down: i64 = self.down as i64 + other.down as i64;
        if right < i32::MIN as i64 || right > i32::MAX as i64 || down < i32::MIN as i64 || down
            > i32::MAX as i64 {
            None
        } else {
            Some(Rel { right: right as i32, down: down as i32 })
        }
    }

    fn checked_stride(self, step: Rel, k: u32) -> (end: Option<Rel>) {
        let right = stride_i32(self.right, step.right, k);
        let down = stride_i32(self.down, step.down, k);
        match (right, down) {
            (Some(right), Some(down)) => Some(Rel { right, down }),
            _ => None,
        }
    }
}

/// `from + k * step`, if it fits a signed 32-bit integer.
pub fn stride_i32(from: i32, step: i32, k: u32) -> (end: Option<i32>)
    ensures
        match end {
            Some(e) => e == from + step * k,
            None => !(i32::MIN <= from + step * k <= i32::MAX),
        },
{
    assert(-0x8000_0000_0000_0000 <= (step as int) * (k as int) <= 0x8000_0000_0000_0000)
        by (nonlinear_arith)
        requires
            -0x8000_0000 <= step <= 0x8000_0000,
            0 <= k <= 0x1_0000_0000,
    ;
    let whole: i128 = from as i128 + (step as i128) * (k as i128);
    if whole < i32::MIN as i128 || whole > i32::MAX as i128 {
        None
    } else {
        Some(whole as i32)
    }
}

/// One of the two wings on which a king castles on the square grid.
#[derive(Debug, Hash, Copy, Clone, PartialEq, Eq, Structural)]
pub enum Side {
    King,
    Queen,
}

impl Side {
    /// Where the rook of this wing stands, counted from the king.
    pub open spec fn spec_rook(self) -> (int, int) {
        match self {
            Side::King => (3, 0),
            Side::Queen => (-4, 0),
        }
    }

    /// Where the rook of this wing goes, counted from the rook.
    pub open spec fn spec_rook_to(self) -> (int, int) {
        match self {
            Side::King => (-2, 0),
            Side::Queen => (3, 0),
        }
    }

    /// The king's step towards this wing.
    pub open spec fn spec_dir(self) -> (int, int) {
        match self {
            Side::King => (1, 0),
            Side::Queen => (-1, 0),
        }
    }

    /// The castling towards this wing: the king takes two steps.
    pub open spec fn castling(self) -> CastleView {
        CastleView {
            rook: self.spec_rook(),
            rook_to: self.spec_rook_to(),
            steps: RunView { from: (0, 0), fuel: 2, step: self.spec_dir() },
        }
    }

    pub fn all() -> (sides: [Side; 2])
        ensures
            sides@ == seq![Side::King, Side::Queen],
    {
        [Side::King, Side::Queen]
    }

    pub fn rook(&self) -> (rel: Rel)
        ensures
            rel@ == self.spec_rook(),
    {
        match self {
            Side::King => Rel::new(3, 0),
            Side::Queen => Rel::new(-4, 0),
        }
    }

    pub fn rook_to(&self) -> (rel: Rel)
        ensures
            rel@ == self.spec_rook_to(),
    {
        match self {
            Side::King => Rel::new(-2, 0),
            Side::Queen => Rel::new(3, 0),
        }
    }

    pub fn dir(&self) -> (rel: Rel)
        ensures
            rel@ == self.spec_dir(),
    {
        match self {
            Side::King => Rel::new(1, 0),
            Side::Queen => Rel::new(-1, 0),
        }
    }
}

impl Square {
    /// What a piece is after a move by the given offset: a king or rook has
    /// moved, and a pawn can be captured in passing exactly if it went two
    /// rows up or down. Anything else stays what it is.
    pub open spec fn spec_moves(self, rel: (int, int)) -> Square {
        match self {
            Square::Piece(color, Piece::King { .. }) => Square::Piece(
                color,
                Piece::King { moved: true },
            ),
            Square::Piece(color, Piece::Rook { .. }) => Square::Piece(
                color,
                Piece::Rook { moved: true },
            ),
            Square::Piece(color, Piece::Pawn { .. }) => Square::Piece(
                color,
                Piece::Pawn { passantable: rel.1 == 2 || rel.1 == -2 },
            ),
            other => other,
        }
    }

    pub fn moves(self, rel: Rel) -> (after: Square)
        ensures
            after == self.spec_moves(rel@),
    {
        match self {
            Square::Piece(color, Piece::King { .. }) => Square::Piece(
                color,
                Piece::King { moved: true },
            ),
            Square::Piece(color, Piece::Rook { .. }) => Square::Piece(
                color,
                Piece::Rook { moved: true },
            ),
            Square::Piece(color, Piece::Pawn { .. }) => {
                if rel.down == 2 || rel.down == -2 {
                    Square::Piece(color, Piece::Pawn { passantable: true })
                } else {
                    Square::Piece(color, Piece::Pawn { passantable: false })
                }
            },
            piece => piece,
        }
    }
}

/// The square grid: rows of squares, the first row at the top.
///
/// The rows need not be of one length; a location is on the board where its
/// row exists and is long enough.
#[derive(Debug, Hash, Clone, PartialEq, Eq)]
pub struct Board {
    pub grid: Vec<Vec<Square>>,
}

/// Whether two grids have the same number of rows and, row by row, the same
/// number of squares.
pub open spec fn same_shape(a: Seq<Vec<Square>>, b: Seq<Vec<Square>>) -> bool {
    &&& a.len() == b.len()
    &&& forall|r: int| 0 <= r < a.len() ==> (#[trigger] a[r])@.len() == b[r]@.len()
    &&& forall|r: int| 0 <= r < a.len() ==> a[r]@.len() == (#[trigger] b[r])@.len()
}

/// The squares of all rows, one row after the other.
pub open spec fn flat(rows: Seq<Vec<Square>>) -> Seq<Square>
    decreases rows.len(),
{
    if rows.len() == 0 {
        Seq::empty()
    } else {
        flat(rows.drop_last()) + rows.last()@
    }
}

/// Whether one point comes before another when the rows are read one after
/// the other.
pub open spec fn reads_before(p: (int, int), q: (int, int)) -> bool {
    p.1 < q.1 || (p.1 == q.1 && p.0 < q.0)
}

/// The piece that stands in a column of the back rank at the start.
pub open spec fn back_rank(column: int) -> Piece {
    if column == 0 || column == 7 {
        Piece::Rook { moved: false }
    } else if column == 1 || column == 6 {
        Piece::Knight
    } else if column == 2 || column == 5 {
        Piece::Bishop
    } else if column == 3 {
        Piece::Queen
    } else {
        Piece::King { moved: false }
    }
}

/// What a square of the standard chess layout holds: Black on the two top
/// rows, White on the two bottom rows.
pub open spec fn start_square(p: (int, int)) -> Square {
    if p.1 == 0 {
        Square::Piece(Color::Black, back_rank(p.0))
    } else if p.1 == 1 {
        Square::Piece(Color::Black, Piece::Pawn { passantable: false })
    } else if p.1 == 6 {
        Square::Piece(Color::White, Piece::Pawn { passantable: false })
    } else if p.1 == 7 {
        Square::Piece(Color::White, back_rank(p.0))
    } else {
        Square::Empty
    }
}

impl Board {
    /// What the board holds, point by point.
    pub open spec fn view(&self) -> Map<(int, int), Square> {
        Map::new(
            |p: (int, int)| 0 <= p.1 < self.grid@.len() && 0 <= p.0 < self.grid@[p.1]@.len(),
            |p: (int, int)| self.grid@[p.1]@[p.0],
        )
    }

    /// Whether no row and no column count exceeds what an offset can span.
    pub open spec fn spec_wf(&self) -> bool {
        &&& self.grid@.len() <= i32::MAX
        &&& forall|r: int| 0 <= r < self.grid@.len() ==> (#[trigger] self.grid@[r])@.len() <= i32::MAX
    }

    /// The square at a location, to read and to write: `None` off the board.
    /// Writing through it changes that square and leaves the shape of the
    /// grid as it is.
    pub fn cell_mut(&mut self, loc: Loc) -> (cell: Option<&mut Square>)
        ensures
            match cell {
                Some(c) => {
                    &&& cell_at(old(self)@, loc@) == Some(*c)
                    &&& final(self)@ == old(self)@.insert(loc@, *final(c))
                    &&& same_shape(final(self).grid@, old(self).grid@)
                },
                None => cell_at(old(self)@, loc@) is None && *final(self) == *old(self),
            },
    {
        if loc.down < self.grid.len() {
            if loc.right < self.grid[loc.down].len() {
                let cell = &mut self.grid[loc.down][loc.right];
                return Some(cell);
            }
        }
        None
    }

    /// All squares, one row after the other.
    pub fn squares(&self) -> (all: Vec<Square>)
        ensures
            all@ == flat(self.grid@),
    {
        let mut all: Vec<Square> = Vec::new();
        let mut down: usize = 0;
        assert(self.grid@.take(0) =~= Seq::<Vec<Square>>::empty());
        while down < self.grid.len()
            invariant
                down <= self.grid@.len(),
                all@ == flat(self.grid@.take(down as int)),
            decreases self.grid@.len() - down,
        {
            let row = &self.grid[down];
            let ghost before = all@;
            let mut right: usize = 0;
            while right < row.len()
                invariant
                    right <= row@.len(),
                    all@ == before + row@.take(right as int),
                decreases row@.len() - right,
            {
                all.push(row[right]);
                assert(row@.take(right + 1) =~= row@.take(right as int).push(row@[right as int]));
                right += 1;
            }
            proof {
                assert(row@.take(row@.len() as int) =~= row@);
                let next = self.grid@.take(down + 1);
                assert(next.drop_last() =~= self.grid@.take(down as int));
                assert(next.last() == self.grid@[down as int]);
            }
            down += 1;
        }
        assert(self.grid@.take(self.grid@.len() as int) =~= self.grid@);
        all
    }

    /// The rows, the top one first.
    pub fn rows(&self) -> (rows: &Vec<Vec<Square>>)
        ensures
            rows == &self.grid,
    {
        &self.grid
    }

    /// The length of the first row; 0 where there is none.
    pub fn width(&self) -> (columns: usize)
        ensures
            columns == if self.grid@.len() == 0 {
                0
            } else {
                self.grid@[0]@.len()
            },
    {
        if self.grid.len() == 0 {
            0
        } else {
            self.grid[0].len()
        }
    }

    /// The number of rows.
    pub fn height(&self) -> (rows: usize)
        ensures
            rows == self.grid@.len(),
    {
        self.grid.len()
    }

    /// The empty squares, in the order in which the rows are read.
    pub fn empties(&self) -> (found: Vec<Loc>)
        ensures
            forall|i: int| 0 <= i < found@.len() ==> cell_at(self@, (#[trigger] found@[i])@) == Some(Square::Empty),
            forall|p: (int, int)|
                cell_at(self@, p) == Some(Square::Empty) ==> exists|i: int|
                    0 <= i < found@.len() && (#[trigger] found@[i])@ == p,
            forall|i: int, j: int|
                0 <= i < j < found@.len() ==> reads_before(
                    (#[trigger] found@[i])@,
                    (#[trigger] found@[j])@,
                ),
    {
        let mut found: Vec<Loc> = Vec::new();
        let mut down: usize = 0;
        while down < self.grid.len()
            invariant
                down <= self.grid@.len(),
                forall|i: int| 0 <= i < found@.len() ==> cell_at(self@, (#[trigger] found@[i])@) == Some(Square::Empty),
                forall|i: int| 0 <= i < found@.len() ==> (#[trigger] found@[i]).down < down,
                forall|p: (int, int)|
                    cell_at(self@, p) == Some(Square::Empty) && p.1 < down ==> exists|i: int|
                        0 <= i < found@.len() && (#[trigger] found@[i])@ == p,
                forall|i: int, j: int|
                    0 <= i < j < found@.len() ==> reads_before(
                        (#[trigger] found@[i])@,
                        (#[trigger] found@[j])@,
                    ),
            decreases self.grid@.len() - down,
        {
            let row = &self.grid[down];
            let mut right: usize = 0;
            while right < row.len()
                invariant
                    down < self.grid@.len(),
                    row == &self.grid@[down as int],
                    right <= row@.len(),
                    forall|i: int| 0 <= i < found@.len() ==> cell_at(self@, (#[trigger] found@[i])@) == Some(Square::Empty),
                    forall|i: int|
                        0 <= i < found@.len() ==> reads_before(
                            (#[trigger] found@[i])@,
                            (right as int, down as int),
                        ),
                    forall|p: (int, int)|
                        cell_at(self@, p) == Some(Square::Empty) && reads_before(
                            p,
                            (right as int, down as int),
                        ) ==> exists|i: int| 0 <= i < found@.len() && (#[trigger] found@[i])@ == p,
                    forall|i: int, j: int|
                        0 <= i < j < found@.len() ==> reads_before(
                            (#[trigger] found@[i])@,
                            (#[trigger] found@[j])@,
                        ),
                decreases row@.len() - right,
            {
                let ghost before = found@;
                if let Square::Empty = row[right] {
                    found.push(Loc::new(right, down));
                }
                proof {
                    assert forall|p: (int, int)|
                        cell_at(self@, p) == Some(Square::Empty) && reads_before(
                            p,
                            (right + 1, down as int),
                        ) implies exists|i: int|
                        0 <= i < found@.len() && (#[trigger] found@[i])@ == p by {
                        if reads_before(p, (right as int, down as int)) {
                            let i = choose|i: int| 0 <= i < before.len() && (#[trigger] before[i])@ == p;
                            assert(found@[i] == before[i]);
                        } else {
                            assert(p == (right as int, down as int));
                            assert(found@[found@.len() - 1]@ == p);
                        }
                    }
                }
                right += 1;
            }
            proof {
                assert forall|p: (int, int)|
                    cell_at(self@, p) == Some(Square::Empty) && p.1 < down + 1 implies exists|i: int|
                    0 <= i < found@.len() && (#[trigger] found@[i])@ == p by {
                    assert(reads_before(p, (row@.len() as int, down as int)));
                }
            }
            down += 1;
        }
        found
    }

    /// The first square that holds the duck, in the order in which the rows
    /// are read.
    pub fn duck(&self) -> (found: Option<Loc>)
        ensures
            match found {
                Some(loc) => {
                    &&& cell_at(self@, loc@) == Some(Square::Duck)
                    &&& forall|p: (int, int)|
                        reads_before(p, loc@) ==> cell_at(self@, p) != Some(Square::Duck)
                },
                None => forall|p: (int, int)| cell_at(self@, p) != Some(Square::Duck),
            },
    {
        let mut down: usize = 0;
        while down < self.grid.len()
            invariant
                down <= self.grid@.len(),
                forall|p: (int, int)| p.1 < down ==> cell_at(self@, p) != Some(Square::Duck),
            decreases self.grid@.len() - down,
        {
            let row = &self.grid[down];
            let mut right: usize = 0;
            while right < row.len()
                invariant
                    down < self.grid@.len(),
                    row == &self.grid@[down as int],
                    right <= row@.len(),
                    forall|p: (int, int)|
                        reads_before(p, (right as int, down as int)) ==> cell_at(self@, p) != Some(
                            Square::Duck,
                        ),
                decreases row@.len() - right,
            {
                if let Square::Duck = row[right] {
                    return Some(Loc::new(right, down));
                }
                right += 1;
            }
            down += 1;
        }
        None
    }
}

/// The eight leaps of a knight on the square grid.
pub open spec fn square_knight_vectors() -> Seq<(int, int)> {
    seq![(2, 1), (2, -1), (-2, 1), (-2, -1), (1, 2), (1, -2), (-1, 2), (-1, -2)]
}

impl ChessBoard for Board {
    type Loc = Loc;

    type Rel = Rel;

    open spec fn point(loc: Loc) -> (int, int) {
        loc@
    }

    open spec fn locatable(p: (int, int)) -> bool {
        0 <= p.0 <= usize::MAX && 0 <= p.1 <= usize::MAX
    }

    open spec fn cells(&self) -> Map<(int, int), Square> {
        self@
    }

    open spec fn wf(&self) -> bool {
        self.spec_wf()
    }

    open spec fn start() -> Map<(int, int), Square> {
        Map::new(|p: (int, int)| 0 <= p.0 < 8 && 0 <= p.1 < 8, |p: (int, int)| start_square(p))
    }

    open spec fn knight_vectors() -> Seq<(int, int)> {
        square_knight_vectors()
    }

    open spec fn rook_vectors() -> Seq<(int, int)> {
        seq![(1, 0), (-1, 0), (0, 1), (0, -1)]
    }

    open spec fn bishop_vectors() -> Seq<(int, int)> {
        seq![(1, 1), (-1, 1), (1, -1), (-1, -1)]
    }

    open spec fn forward_vector(color: Color) -> (int, int) {
        (0, color.spec_dir())
    }

    open spec fn capture_vectors(color: Color) -> Seq<(int, int)> {
        seq![(1, color.spec_dir()), (-1, color.spec_dir())]
    }

    /// A pawn is at home on the second row from its own back rank.
    open spec fn is_home(color: Color, p: (int, int)) -> bool {
        match color {
            Color::Black => p.1 == 1,
            Color::White => p.1 == 6,
        }
    }

    /// A pawn is promoted on the back rank of the other side.
    open spec fn is_promotion(color: Color, p: (int, int)) -> bool {
        match color {
            Color::Black => p.1 == 7,
            Color::White => p.1 == 0,
        }
    }

    open spec fn castlings() -> Seq<CastleView> {
        seq![Side::King.castling(), Side::Queen.castling()]
    }

    proof fn lemma_cells_locatable(&self, p: (int, int)) {
        assert(self.grid.len() <= usize::MAX);
        assert(self.grid[p.1].len() <= usize::MAX);
    }

    proof fn lemma_displacement_fits(&self, p: (int, int), q: (int, int)) {
        assert(self.grid@[p.1]@.len() <= i32::MAX);
        assert(self.grid@[q.1]@.len() <= i32::MAX);
    }

    fn initial() -> (board: Board) {
        Board::default()
    }

    fn well_formed(&self) -> (ok: bool) {
        if self.grid.len() > 0x7fff_ffff {
            return false;
        }
        let mut down: usize = 0;
        while down < self.grid.len()
            invariant
                down <= self.grid@.len(),
                self.grid@.len() <= i32::MAX,
                forall|r: int| 0 <= r < down ==> (#[trigger] self.grid@[r])@.len() <= i32::MAX,
            decreases self.grid@.len() - down,
        {
            if self.grid[down].len() > 0x7fff_ffff {
                return false;
            }
            down += 1;
        }
        true
    }

    fn duplicate(&self) -> (copy: Board) {
        let mut grid: Vec<Vec<Square>> = Vec::new();
        let mut down: usize = 0;
        while down < self.grid.len()
            invariant
                down <= self.grid@.len(),
                grid@.len() == down,
                forall|r: int| 0 <= r < down ==> (#[trigger] grid@[r])@ == self.grid@[r]@,
            decreases self.grid@.len() - down,
        {
            let row = &self.grid[down];
            let mut copy: Vec<Square> = Vec::new();
            let mut right: usize = 0;
            while right < row.len()
                invariant
                    right <= row@.len(),
                    copy@ == row@.take(right as int),
                decreases row@.len() - right,
            {
                copy.push(row[right]);
                assert(row@.take(right + 1) =~= row@.take(right as int).push(row@[right as int]));
                right += 1;
            }
            assert(row@.take(row@.len() as int) =~= row@);
            grid.push(copy);
            down += 1;
        }
        let copy = Board { grid };
        proof {
            assert(copy@ =~= self@);
            assert forall|r: int| 0 <= r < self.grid@.len() implies (#[trigger] copy.grid@[r])@.len()
                == self.grid@[r]@.len() by {}
            assert forall|r: int| 0 <= r < self.grid@.len() implies copy.grid@[r]@.len() == (
            #[trigger] self.grid@[r])@.len() by {}
        }
        copy
    }

    fn get(&self, i: Loc) -> (content: Option<Square>) {
        if i.down < self.grid.len() {
            let row = &self.grid[i.down];
            if i.right < row.len() {
                return Some(row[i.right]);
            }
        }
        None
    }

    fn get_mut(&mut self, i: Loc) -> (cell: Option<&mut Square>) {
        self.cell_mut(i)
    }

    fn set_at(&mut self, loc: Loc, square: Square) {
        if loc.down < self.grid.len() {
            if loc.right < self.grid[loc.down].len() {
                self.grid[loc.down][loc.right] = square;
                proof {
                    assert(self@ =~= written(old(self)@, loc@, square));
                    assert forall|r: int| 0 <= r < self.grid@.len() implies (#[trigger] self.grid@[r])@.len()
                        == old(self).grid@[r]@.len() by {}
                    assert forall|r: int| 0 <= r < self.grid@.len() implies self.grid@[r]@.len() == (
                    #[trigger] old(self).grid@[r])@.len() by {}
                }
            }
        }
    }

    fn iter(&self) -> (all: Vec<(Loc, Square)>) {
        let mut all: Vec<(Loc, Square)> = Vec::new();
        let mut down: usize = 0;
        while down < self.grid.len()
            invariant
                down <= self.grid@.len(),
                forall|i: int|
                    0 <= i < all@.len() ==> cell_at(self@, (#[trigger] all@[i].0)@) == Some(all@[i].1),
                forall|p: (int, int)|
                    self@.dom().contains(p) && p.1 < down ==> exists|i: int|
                        0 <= i < all@.len() && (#[trigger] all@[i].0)@ == p,
                forall|i: int| 0 <= i < all@.len() ==> (#[trigger] all@[i].0).down < down,
                forall|i: int, j: int|
                    0 <= i < j < all@.len() ==> (#[trigger] all@[i].0)@ != (#[trigger] all@[j].0)@,
            decreases self.grid@.len() - down,
        {
            let row = &self.grid[down];
            let mut right: usize = 0;
            while right < row.len()
                invariant
                    down < self.grid@.len(),
                    row == &self.grid@[down as int],
                    right <= row@.len(),
                    forall|i: int|
                        0 <= i < all@.len() ==> cell_at(self@, (#[trigger] all@[i].0)@) == Some(
                            all@[i].1,
                        ),
                    forall|p: (int, int)|
                        self@.dom().contains(p) && reads_before(p, (right as int, down as int))
                            ==> exists|i: int| 0 <= i < all@.len() && (#[trigger] all@[i].0)@ == p,
                    forall|i: int|
                        0 <= i < all@.len() ==> reads_before(
                            (#[trigger] all@[i].0)@,
                            (right as int, down as int),
                        ),
                    forall|i: int, j: int|
                        0 <= i < j < all@.len() ==> (#[trigger] all@[i].0)@ != (#[trigger] all@[j].0)@,
                decreases row@.len() - right,
            {
                let ghost before = all@;
                all.push((Loc::new(right, down), row[right]));
                proof {
                    assert forall|p: (int, int)|
                        self@.dom().contains(p) && reads_before(
                            p,
                            (right + 1, down as int),
                        ) implies exists|i: int|
                        0 <= i < all@.len() && (#[trigger] all@[i].0)@ == p by {
                        if reads_before(p, (right as int, down as int)) {
                            let i = choose|i: int|
                                0 <= i < before.len() && (#[trigger] before[i].0)@ == p;
                            assert(all@[i] == before[i]);
                        } else {
                            assert(all@[all@.len() - 1].0@ == p);
                        }
                    }
                }
                right += 1;
            }
            proof {
                assert forall|p: (int, int)|
                    self@.dom().contains(p) && p.1 < down + 1 implies exists|i: int|
                    0 <= i < all@.len() && (#[trigger] all@[i].0)@ == p by {
                    assert(reads_before(p, (row@.len() as int, down as int)));
                }
            }
            down += 1;
        }
        all
    }

    fn reach(&self) -> (steps: u32) {
        let mut steps: u32 = self.grid.len() as u32;
        let mut down: usize = 0;
        while down < self.grid.len()
            invariant
                down <= self.grid@.len(),
                self.spec_wf(),
                self.grid@.len() <= steps,
                forall|r: int| 0 <= r < down ==> (#[trigger] self.grid@[r])@.len() <= steps,
            decreases self.grid@.len() - down,
        {
            if self.grid[down].len() > steps as usize {
                steps = self.grid[down].len() as u32;
            }
            down += 1;
        }
        proof {
            assert forall|p: (int, int), v: (int, int), k: int|
                self@.dom().contains(p) && v != (0int, 0int) && k > steps implies !#[trigger] self@.dom().contains(
                plus(p, times(v, k)),
            ) by {
                let q = plus(p, times(v, k));
                if self@.dom().contains(q) {
                    assert(self.grid@[p.1]@.len() <= steps);
                    assert(self.grid@[q.1]@.len() <= steps);
                    if v.0 != 0 {
                        assert(v.0 * k >= k || v.0 * k <= -k) by (nonlinear_arith)
                            requires
                                v.0 != 0,
                                k > 0,
                        ;
                    } else {
                        assert(v.1 * k >= k || v.1 * k <= -k) by (nonlinear_arith)
                            requires
                                v.1 != 0,
                                k > 0,
                        ;
                    }
                }
            }
        }
        steps
    }

    fn offset(loc: Loc, rel: Rel) -> (sum: Option<Loc>) {
        let right: i128 = loc.right as i128 + rel.right as i128;
        let down: i128 = loc.down as i128 + rel.down as i128;
        if right < 0 || right > usize::MAX as i128 || down < 0 || down > usize::MAX as i128 {
            None
        } else {
            Some(Loc { right: right as usize, down: down as usize })
        }
    }

    fn same_loc(a: &Loc, b: &Loc) -> (equal: bool) {
        a.right == b.right && a.down == b.down
    }

    fn knight_moves() -> (leaps: Vec<Rel>) {
        let leaps = vec![
            Rel::new(2, 1),
            Rel::new(2, -1),
            Rel::new(-2, 1),
            Rel::new(-2, -1),
            Rel::new(1, 2),
            Rel::new(1, -2),
            Rel::new(-1, 2),
            Rel::new(-1, -2),
        ];
        assert(vectors(leaps@) =~= square_knight_vectors());
        leaps
    }

    fn forward_one(color: Color) -> (step: Rel) {
        Rel::new(0, color.dir())
    }

    fn home_for(&self, color: Color, loc: Loc) -> (home: bool) {
        let home: usize = match color {
            Color::Black => 1,
            Color::White => 6,
        };
        loc.down == home
    }

    fn takeable(&self, color: Color) -> (steps: Vec<Rel>) {
        let steps = vec![Rel::new(1, color.dir()), Rel::new(-1, color.dir())];
        assert(vectors(steps@) =~= Self::capture_vectors(color));
        steps
    }

    fn can_promote(&self, color: Color, loc: Loc) -> (promotes: bool) {
        let goal: usize = match color {
            Color::Black => 7,
            Color::White => 0,
        };
        loc.down == goal
    }

    fn rook_dirs(&self) -> (dirs: Vec<Rel>) {
        let dirs = vec![Rel::new(1, 0), Rel::new(-1, 0), Rel::new(0, 1), Rel::new(0, -1)];
        assert(vectors(dirs@) =~= Self::rook_vectors());
        dirs
    }

    fn castle_rooks(&self) -> (castles: Vec<Castle<Rel>>) {
        let sides = Side::all();
        let king = Castle {
            rook: sides[0].rook(),
            rook_to: sides[0].rook_to(),
            steps: RelIter::new(sides[0].dir(), 2),
        };
        let queen = Castle {
            rook: sides[1].rook(),
            rook_to: sides[1].rook_to(),
            steps: RelIter::new(sides[1].dir(), 2),
        };
        let castles = vec![king, queen];
        assert(castle_views(castles@) =~= Self::castlings());
        castles
    }

    fn bishop_dirs(&self) -> (dirs: Vec<Rel>) {
        let dirs = vec![Rel::new(1, 1), Rel::new(-1, 1), Rel::new(1, -1), Rel::new(-1, -1)];
        assert(vectors(dirs@) =~= Self::bishop_vectors());
        dirs
    }
}

impl Default for Board {
    /// The standard chess layout.
    fn default() -> (board: Board)
        ensures
            board@ == <Board as ChessBoard>::start(),
            board.spec_wf(),
    {
        let rook = Piece::Rook { moved: false };
        let king = Piece::King { moved: false };
        let back = [rook, Piece::Knight, Piece::Bishop, Piece::Queen, king, Piece::Bishop, Piece::Knight, rook];
        let mut grid: Vec<Vec<Square>> = Vec::new();
        let mut down: usize = 0;
        while down < 8
            invariant
                down <= 8,
                grid@.len() == down,
                back@.len() == 8,
                forall|c: int| 0 <= c < 8 ==> back@[c] == back_rank(c),
                forall|r: int| 0 <= r < down ==> (#[trigger] grid@[r])@.len() == 8,
                forall|r: int, c: int|
                    0 <= r < down && 0 <= c < 8 ==> (#[trigger] grid@[r]@[c]) == start_square((c, r)),
            decreases 8 - down,
        {
            let mut row: Vec<Square> = Vec::new();
            let mut right: usize = 0;
            while right < 8
                invariant
                    right <= 8,
                    down < 8,
                    row@.len() == right,
                    back@.len() == 8,
                    forall|c: int| 0 <= c < 8 ==> back@[c] == back_rank(c),
                    forall|c: int| 0 <= c < right ==> (#[trigger] row@[c]) == start_square((c, down as int)),
                decreases 8 - right,
            {
                let square = if down == 0 {
                    Square::Piece(Color::Black, back[right])
                } else if down == 1 {
                    Square::Piece(Color::Black, Piece::Pawn { passantable: false })
                } else if down == 6 {
                    Square::Piece(Color::White, Piece::Pawn { passantable: false })
                } else if down == 7 {
                    Square::Piece(Color::White, back[right])
                } else {
                    Square::Empty
                };
                row.push(square);
                right += 1;
            }
            grid.push(row);
            down += 1;
        }
        let board = Board { grid };
        assert(board@ =~= <Board as ChessBoard>::start());
        board
    }
}

impl From<MenuBoard> for Board {
    /// The one-row board that shows a menu.
    fn from(value: MenuBoard) -> (board: Board)
        ensures
            board.grid@.len() == 1,
            board.grid@[0] == value.grid,
    {
        let mut grid: Vec<Vec<Square>> = Vec::new();
        grid.push(value.grid);
        Board { grid }
    }
}

impl vstd::std_specs::convert::FromSpecImpl<MenuBoard> for Board {
    /// The conversion is stated by the clauses of `from` itself: a board
    /// cannot be written down as a value in a specification.
    open spec fn obeys_from_spec() -> bool {
        false
    }

    open spec fn from_spec(value: MenuBoard) -> Board {
        arbitrary()
    }
}

/// A walk over the cells of a board in the order in which the rows are read.
pub struct BoardIter<'a> {
    loc: Loc,
    board: &'a Board,
}

impl<'a> BoardIter<'a> {
    /// The board that is walked.
    pub closed spec fn board(&self) -> &'a Board {
        self.board
    }

    /// The point from which the walk goes on: no cell before it is still to
    /// come.
    pub closed spec fn cursor(&self) -> (int, int) {
        self.loc@
    }

    /// A walk from the first cell of the board.
    pub fn new(board: &'a Board) -> (walk: BoardIter<'a>)
        ensures
            walk.board() == board,
            walk.cursor() == (0int, 0int),
    {
        BoardIter { loc: Loc { right: 0, down: 0 }, board }
    }

    /// The next cell of the walk with what it holds: the first cell at or
    /// after the cursor, in the order in which the rows are read. The cursor
    /// then stands behind that cell. `None` once no cell is left.
    pub fn next(&mut self) -> (item: Option<(Loc, Square)>)
        ensures
            final(self).board() == old(self).board(),
            match item {
                Some((at, square)) => {
                    &&& cell_at(old(self).board()@, at@) == Some(square)
                    &&& !reads_before(at@, old(self).cursor())
                    &&& forall|p: (int, int)|
                        old(self).board()@.dom().contains(p) && reads_before(p, at@)
                            ==> reads_before(p, old(self).cursor())
                    &&& final(self).cursor() == (at.right + 1, at.down as int)
                },
                None => forall|p: (int, int)|
                    old(self).board()@.dom().contains(p) ==> reads_before(p, old(self).cursor()),
            },
    {
        let ghost start = self.loc@;
        while self.loc.down < self.board.grid.len()
            invariant
                self.board == old(self).board,
                start == old(self).loc@,
                !reads_before(self.loc@, start),
                forall|p: (int, int)|
                    self.board@.dom().contains(p) && reads_before(p, self.loc@) ==> reads_before(
                        p,
                        start,
                    ),
            decreases self.board.grid@.len() - self.loc.down,
        {
            let row = &self.board.grid[self.loc.down];
            if self.loc.right < row.len() {
                let at = self.loc;
                self.loc.right = self.loc.right + 1;
                return Some((at, row[at.right]));
            }
            self.loc.right = 0;
            self.loc.down = self.loc.down + 1;
        }
        None
    }
}

} // verus!
