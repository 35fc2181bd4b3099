//! The hexagonal grid: a hexagon of radius 5, stored row by row.

pub mod coord;
pub mod dir;
pub mod iter;

use vstd::prelude::*;
use crate::board::{fits_i32, same_shape};
use crate::chessboard::{castle_views, cell_at, vectors, written, ChessBoard};
use crate::menuboard::MenuBoard;
use crate::offset::{plus, times, Castle, CastleView};
use crate::pieces::{Color, Piece, Square};
pub use coord::{hex_x, hex_y, Coord};
pub use dir::Dir;
pub use iter::{DirHexIter, HexIter};

verus! {

/// The number of rows of the hexagon.
pub const HEX_ROWS: usize = 11;

/// The length of a row of the hexagon: 6 at the top and bottom, 11 in the
/// middle.
pub open spec fn hex_row_len(y: int) -> int {
    if y <= 5 {
        6 + y
    } else {
        16 - y
    }
}

/// Whether a point lies in the hexagon of radius 5 around the centre.
pub open spec fn in_hexagon(p: (int, int)) -> bool {
    &&& -5 <= p.0 <= 5
    &&& -5 <= p.1 <= 5
    &&& -5 <= p.0 + p.1 <= 5
}

/// A count of rows or columns turned the way a side advances: as it is for
/// Black, who moves down, and negated for White, who moves up.
pub open spec fn toward(color: Color, steps: int) -> int {
    match color {
        Color::White => -steps,
        Color::Black => steps,
    }
}

/// The squares on which the pawns of a side start, and from which a pawn may
/// advance two steps: a wedge of nine squares that points at the other side.
pub open spec fn hex_pawn_points(color: Color) -> Seq<(int, int)> {
    Seq::new(
        9,
        |i: int|
            if i <= 4 {
                (toward(color, -i), toward(color, -1))
            } else {
                (toward(color, i - 4), toward(color, 3 - i))
            },
    )
}

/// The squares on which a pawn of a side is promoted: the two far edges of
/// the hexagon, eleven squares that meet in the far corner.
pub open spec fn hex_promote_points(color: Color) -> Seq<(int, int)> {
    Seq::new(
        11,
        |i: int|
            if i <= 5 {
                (toward(color, -i), toward(color, 5))
            } else {
                (toward(color, i - 5), toward(color, 10 - i))
            },
    )
}

/// What a square of the hexagon holds at the start of a game.
pub open spec fn hex_start_square(p: (int, int)) -> Square {
    if hex_pawn_points(Color::White).contains(p) {
        Square::Piece(Color::White, Piece::Pawn { passantable: false })
    } else if hex_pawn_points(Color::Black).contains(p) {
        Square::Piece(Color::Black, Piece::Pawn { passantable: false })
    } else if p.0 == 0 && 3 <= p.1 <= 5 {
        Square::Piece(Color::White, Piece::Bishop)
    } else if p.0 == 0 && -5 <= p.1 <= -3 {
        Square::Piece(Color::Black, Piece::Bishop)
    } else if p == (1int, 4int) {
        Square::Piece(Color::White, Piece::King { moved: false })
    } else if p == (1int, -5int) {
        Square::Piece(Color::Black, Piece::King { moved: false })
    } else if p == (-1int, 5int) {
        Square::Piece(Color::White, Piece::Queen)
    } else if p == (-1int, -4int) {
        Square::Piece(Color::Black, Piece::Queen)
    } else if p == (2int, 3int) || p == (-2int, 5int) {
        Square::Piece(Color::White, Piece::Knight)
    } else if p == (2int, -5int) || p == (-2int, -3int) {
        Square::Piece(Color::Black, Piece::Knight)
    } else if p == (3int, 2int) || p == (-3int, 5int) {
        Square::Piece(Color::White, Piece::Rook { moved: false })
    } else if p == (3int, -5int) || p == (-3int, -2int) {
        Square::Piece(Color::Black, Piece::Rook { moved: false })
    } else {
        Square::Empty
    }
}

/// The twelve leaps of a knight on the hexagonal grid.
pub open spec fn hex_knight_vectors() -> Seq<(int, int)> {
    seq![
        (-2, -1),
        (-1, -2),
        (1, -3),
        (2, -3),
        (3, -2),
        (3, -1),
        (2, 1),
        (1, 2),
        (-1, 3),
        (-2, 3),
        (-3, 2),
        (-3, 1),
    ]
}

/// The hexagonal board.
#[derive(Clone, Hash, PartialEq, Eq, Debug)]
pub struct Hexboard {
    pub grid: Vec<Vec<Square>>,
}

/// The locations that a list of locations stands for.
pub open spec fn coord_points(coords: Seq<Coord>) -> Seq<(int, int)> {
    coords.map_values(|c: Coord| c@)
}

impl Hexboard {
    /// What the board holds, point by point.
    pub open spec fn view(&self) -> Map<(int, int), Square> {
        Map::new(
            |p: (int, int)|
                fits_i32(p) && 0 <= hex_y(p, 5) < self.grid@.len() && 0 <= hex_x(p, 5)
                    < self.grid@[hex_y(p, 5)]@.len(),
            |p: (int, int)| self.grid@[hex_y(p, 5)]@[hex_x(p, 5)],
        )
    }

    /// Whether the rows make up the hexagon of radius 5.
    pub open spec fn spec_wf(&self) -> bool {
        &&& self.grid@.len() == HEX_ROWS
        &&& forall|y: int| 0 <= y < HEX_ROWS ==> (#[trigger] self.grid@[y])@.len() == hex_row_len(y)
    }

    /// The board in the layout at the start of a game.
    pub fn new() -> (board: Hexboard)
        ensures
            board.spec_wf(),
            board@ == <Hexboard as ChessBoard>::start(),
    {
        let mut grid: Vec<Vec<Square>> = Vec::new();
        let mut y: usize = 0;
        while y < HEX_ROWS
            invariant
                y <= HEX_ROWS,
                grid@.len() == y,
                forall|i: int| 0 <= i < y ==> (#[trigger] grid@[i])@.len() == hex_row_len(i),
                forall|i: int, j: int|
                    0 <= i < y && 0 <= j < hex_row_len(i) ==> (#[trigger] grid@[i]@[j])
                        == Square::Empty,
            decreases HEX_ROWS - y,
        {
            let inner_size: usize = if y <= 5 {
                6 + y
            } else {
                16 - y
            };
            let mut row: Vec<Square> = Vec::new();
            let mut x: usize = 0;
            while x < inner_size
                invariant
                    x <= inner_size,
                    row@.len() == x,
                    forall|j: int| 0 <= j < x ==> (#[trigger] row@[j]) == Square::Empty,
                decreases inner_size - x,
            {
                row.push(Square::Empty);
                x += 1;
            }
            grid.push(row);
            y += 1;
        }
        let mut board = Hexboard { grid };
        proof {
            lemma_hexagon_is_domain(&board);
        }
        let colors = Color::all();
        let mut c: usize = 0;
        while c < 2
            invariant
                c <= 2,
                colors@ == seq![Color::White, Color::Black],
                board.spec_wf(),
                forall|p: (int, int)|
                    in_hexagon(p) ==> #[trigger] board@[p] == (if hex_pawn_points(Color::White).contains(p)
                        || (p.0 == 0 && 3 <= p.1 <= 5) {
                        if c >= 1 {
                            hex_start_square(p)
                        } else {
                            Square::Empty
                        }
                    } else if hex_pawn_points(Color::Black).contains(p) || (p.0 == 0 && -5 <= p.1
                        <= -3) {
                        if c >= 2 {
                            hex_start_square(p)
                        } else {
                            Square::Empty
                        }
                    } else {
                        Square::Empty
                    }),
            decreases 2 - c,
        {
            let color = colors[c];
            let ghost before = board@;
            let pawns = Hexboard::pawn_squares(color);
            let mut i: usize = 0;
            while i < pawns.len()
                invariant
                    i <= pawns@.len(),
                    pawns@.len() == 9,
                    coord_points(pawns@) == hex_pawn_points(color),
                    board.spec_wf(),
                    forall|p: (int, int)|
                        in_hexagon(p) ==> #[trigger] board@[p] == (if exists|j: int|
                            0 <= j < i && hex_pawn_points(color)[j] == p {
                            Square::Piece(color, Piece::Pawn { passantable: false })
                        } else {
                            before[p]
                        }),
                decreases pawns@.len() - i,
            {
                proof {
                    lemma_hexagon_is_domain(&board);
                    assert(coord_points(pawns@)[i as int] == pawns@[i as int]@);
                    lemma_pawn_points_in_hexagon(color, i as int);
                }
                let ghost prior = board@;
                board.set_at(pawns[i], Square::piece(color, Piece::Pawn { passantable: false }));
                proof {
                    lemma_hexagon_is_domain(&board);
                    assert forall|p: (int, int)| in_hexagon(p) implies #[trigger] board@[p] == (if exists|
                        j: int,
                    |
                        0 <= j < i + 1 && hex_pawn_points(color)[j] == p {
                        Square::Piece(color, Piece::Pawn { passantable: false })
                    } else {
                        before[p]
                    }) by {
                        if p == pawns@[i as int]@ {
                            assert(hex_pawn_points(color)[i as int] == p);
                        } else {
                            assert(board@[p] == prior[p]);
                            if exists|j: int| 0 <= j < i + 1 && hex_pawn_points(color)[j] == p {
                                let j = choose|j: int| 0 <= j < i + 1 && hex_pawn_points(color)[j] == p;
                                assert(0 <= j < i && hex_pawn_points(color)[j] == p);
                            }
                        }
                    }
                }
                i += 1;
            }
            let ghost pawned = board@;
            let mut bishop: i32 = 3;
            while bishop <= 5
                invariant
                    3 <= bishop <= 6,
                    board.spec_wf(),
                    forall|p: (int, int)|
                        in_hexagon(p) ==> #[trigger] board@[p] == (if p.0 == 0 && 3 <= toward(
                            color,
                            -p.1,
                        ) < bishop {
                            Square::Piece(color, Piece::Bishop)
                        } else {
                            pawned[p]
                        }),
                decreases 6 - bishop,
            {
                proof {
                    lemma_hexagon_is_domain(&board);
                }
                let coord = Coord::new(0, steps_toward(color, -bishop));
                board.set_at(coord, Square::piece(color, Piece::Bishop));
                proof {
                    lemma_hexagon_is_domain(&board);
                }
                bishop += 1;
            }
            proof {
                assert forall|p: (int, int)|
                    hex_pawn_points(color).contains(p) <==> exists|j: int|
                        0 <= j < 9 && hex_pawn_points(color)[j] == p by {
                    if hex_pawn_points(color).contains(p) {
                        let j = choose|j: int|
                            0 <= j < hex_pawn_points(color).len() && hex_pawn_points(color)[j] == p;
                        assert(0 <= j < 9 && hex_pawn_points(color)[j] == p);
                    }
                }
                lemma_start_squares_apart();
            }
            c += 1;
        }
        proof {
            lemma_hexagon_is_domain(&board);
        }
        board.set_at(Coord::new(1, 4), Square::piece(Color::White, Piece::King { moved: false }));
        board.set_at(Coord::new(1, -5), Square::piece(Color::Black, Piece::King { moved: false }));
        board.set_at(Coord::new(-1, 5), Square::piece(Color::White, Piece::Queen));
        board.set_at(Coord::new(-1, -4), Square::piece(Color::Black, Piece::Queen));
        board.set_at(Coord::new(2, 3), Square::piece(Color::White, Piece::Knight));
        board.set_at(Coord::new(-2, 5), Square::piece(Color::White, Piece::Knight));
        board.set_at(Coord::new(2, -5), Square::piece(Color::Black, Piece::Knight));
        board.set_at(Coord::new(-2, -3), Square::piece(Color::Black, Piece::Knight));
        board.set_at(Coord::new(3, 2), Square::piece(Color::White, Piece::Rook { moved: false }));
        board.set_at(Coord::new(-3, 5), Square::piece(Color::White, Piece::Rook { moved: false }));
        board.set_at(Coord::new(3, -5), Square::piece(Color::Black, Piece::Rook { moved: false }));
        board.set_at(Coord::new(-3, -2), Square::piece(Color::Black, Piece::Rook { moved: false }));
        proof {
            lemma_hexagon_is_domain(&board);
            lemma_start_squares_apart();
            assert(board@ =~= <Hexboard as ChessBoard>::start());
        }
        board
    }

    /// The square at a location, to read and to write: `None` off the board.
    /// Writing through it changes that square and leaves the shape of the
    /// grid as it is.
    pub fn cell_mut(&mut self, coord: Coord) -> (cell: Option<&mut Square>)
        ensures
            match cell {
                Some(c) => {
                    &&& cell_at(old(self)@, coord@) == Some(*c)
                    &&& final(self)@ == old(self)@.insert(coord@, *final(c))
                    &&& same_shape(final(self).grid@, old(self).grid@)
                },
                None => cell_at(old(self)@, coord@) is None && *final(self) == *old(self),
            },
    {
        match coord.to_xy(5) {
            Some((x, y)) => {
                if y < self.grid.len() {
                    if x < self.grid[y].len() {
                        let cell = &mut self.grid[y][x];
                        return Some(cell);
                    }
                }
                None
            },
            None => None,
        }
    }

    /// The squares on which the pawns of a side start.
    pub fn pawn_squares(color: Color) -> (locs: Vec<Coord>)
        ensures
            coord_points(locs@) == hex_pawn_points(color),
            locs@.len() == 9,
    {
        let start = Coord { q: 0, r: steps_toward(color, -1) };
        let mut locs: Vec<Coord> = Vec::new();
        locs.push(start);
        let mut i: i32 = 1;
        while i <= 4
            invariant
                1 <= i <= 5,
                locs@.len() == i,
                forall|j: int| 0 <= j < i ==> (#[trigger] locs@[j])@ == hex_pawn_points(color)[j],
            decreases 5 - i,
        {
            locs.push(Coord { q: steps_toward(color, -i), r: steps_toward(color, -1) });
            i += 1;
        }
        let mut i: i32 = 1;
        while i <= 4
            invariant
                1 <= i <= 5,
                locs@.len() == 4 + i,
                forall|j: int| 0 <= j < 4 + i ==> (#[trigger] locs@[j])@ == hex_pawn_points(color)[j],
            decreases 5 - i,
        {
            locs.push(Coord { q: steps_toward(color, i), r: steps_toward(color, -1 - i) });
            i += 1;
        }
        assert(coord_points(locs@) =~= hex_pawn_points(color));
        locs
    }

    /// The squares on which a pawn of a side is promoted.
    pub fn promote_squares(color: Color) -> (locs: Vec<Coord>)
        ensures
            coord_points(locs@) == hex_promote_points(color),
            locs@.len() == 11,
    {
        let start = Coord { q: 0, r: steps_toward(color, 5) };
        let mut locs: Vec<Coord> = Vec::new();
        locs.push(start);
        let mut i: i32 = 1;
        while i <= 5
            invariant
                1 <= i <= 6,
                locs@.len() == i,
                forall|j: int| 0 <= j < i ==> (#[trigger] locs@[j])@ == hex_promote_points(color)[j],
            decreases 6 - i,
        {
            locs.push(Coord { q: steps_toward(color, -i), r: steps_toward(color, 5) });
            i += 1;
        }
        let mut i: i32 = 1;
        while i <= 5
            invariant
                1 <= i <= 6,
                locs@.len() == 5 + i,
                forall|j: int|
                    0 <= j < 5 + i ==> (#[trigger] locs@[j])@ == hex_promote_points(color)[j],
            decreases 6 - i,
        {
            locs.push(Coord { q: steps_toward(color, i), r: steps_toward(color, 5 - i) });
            i += 1;
        }
        assert(coord_points(locs@) =~= hex_promote_points(color));
        locs
    }
}

/// A count of rows or columns turned the way a side advances.
pub fn steps_toward(color: Color, steps: i32) -> (turned: i32)
    requires
        steps > i32::MIN,
    ensures
        turned == toward(color, steps as int),
{
    match color {
        Color::White => -steps,
        Color::Black => steps,
    }
}

/// Whether a location occurs in a list of locations.
pub fn has_coord(coords: &Vec<Coord>, coord: Coord) -> (found: bool)
    ensures
        found == coord_points(coords@).contains(coord@),
{
    let mut i: usize = 0;
    while i < coords.len()
        invariant
            i <= coords@.len(),
            forall|j: int| 0 <= j < i ==> coord_points(coords@)[j] != coord@,
        decreases coords@.len() - i,
    {
        if coords[i].q == coord.q && coords[i].r == coord.r {
            assert(coord_points(coords@)[i as int] == coord@);
            return true;
        }
        i += 1;
    }
    false
}

/// On a well-formed board the points of the board are those of the hexagon.
pub proof fn lemma_hexagon_is_domain(board: &Hexboard)
    requires
        board.spec_wf(),
    ensures
        forall|p: (int, int)| board@.dom().contains(p) <==> in_hexagon(p),
{
    assert forall|p: (int, int)| board@.dom().contains(p) <==> in_hexagon(p) by {
        if 0 <= hex_y(p, 5) < 11 {
            assert(board.grid@[hex_y(p, 5)]@.len() == hex_row_len(hex_y(p, 5)));
        }
    }
}

/// Every square on which a pawn starts lies in the hexagon.
pub proof fn lemma_pawn_points_in_hexagon(color: Color, i: int)
    requires
        0 <= i < 9,
    ensures
        in_hexagon(hex_pawn_points(color)[i]),
{
}

/// The squares on which the pawns start are those of the two wedges, and no
/// other piece starts on one of them.
pub proof fn lemma_start_squares_apart()
    ensures
        forall|p: (int, int)|
            #![trigger hex_pawn_points(Color::White).contains(p)]
            hex_pawn_points(Color::White).contains(p) <==> (p.1 == 1 && 0 <= p.0 <= 4) || (-4
                <= p.0 <= -1 && p.1 == 1 - p.0),
        forall|p: (int, int)|
            #![trigger hex_pawn_points(Color::Black).contains(p)]
            hex_pawn_points(Color::Black).contains(p) <==> (p.1 == -1 && -4 <= p.0 <= 0) || (1
                <= p.0 <= 4 && p.1 == -1 - p.0),
{
    assert forall|p: (int, int)|
        #![trigger hex_pawn_points(Color::White).contains(p)]
        hex_pawn_points(Color::White).contains(p) <==> (p.1 == 1 && 0 <= p.0 <= 4) || (-4 <= p.0
            <= -1 && p.1 == 1 - p.0) by {
        let s = hex_pawn_points(Color::White);
        if p.1 == 1 && 0 <= p.0 <= 4 {
            assert(s[p.0] == p);
        }
        if -4 <= p.0 <= -1 && p.1 == 1 - p.0 {
            assert(s[4 - p.0] == p);
        }
    }
    assert forall|p: (int, int)|
        #![trigger hex_pawn_points(Color::Black).contains(p)]
        hex_pawn_points(Color::Black).contains(p) <==> (p.1 == -1 && -4 <= p.0 <= 0) || (1 <= p.0
            <= 4 && p.1 == -1 - p.0) by {
        let s = hex_pawn_points(Color::Black);
        if p.1 == -1 && -4 <= p.0 <= 0 {
            assert(s[-p.0] == p);
        }
        if 1 <= p.0 <= 4 && p.1 == -1 - p.0 {
            assert(s[4 + p.0] == p);
        }
    }
}

impl From<MenuBoard> for Hexboard {
    /// The one-row board that shows a menu. It is no hexagon, and no game is
    /// played on it.
    fn from(value: MenuBoard) -> (board: Hexboard)
        ensures
            board.grid@.len() == 1,
            board.grid@[0] == value.grid,
    {
        let mut grid: Vec<Vec<Square>> = Vec::new();
        grid.push(value.grid);
        Hexboard { grid }
    }
}

impl vstd::std_specs::convert::FromSpecImpl<MenuBoard> for Hexboard {
    /// The conversion is stated by the clauses of `from` itself: a board
    /// cannot be written down as a value in a specification.
    open spec fn obeys_from_spec() -> bool {
        false
    }

    open spec fn from_spec(value: MenuBoard) -> Hexboard {
        arbitrary()
    }
}

impl Default for Hexboard {
    fn default() -> (board: Hexboard)
        ensures
            board.spec_wf(),
            board@ == <Hexboard as ChessBoard>::start(),
    {
        Hexboard::new()
    }
}

impl ChessBoard for Hexboard {
    type Loc = Coord;

    type Rel = Dir;

    open spec fn point(loc: Coord) -> (int, int) {
        loc@
    }

    open spec fn locatable(p: (int, int)) -> bool {
        fits_i32(p)
    }

    open spec fn cells(&self) -> Map<(int, int), Square> {
        self@
    }

    open spec fn wf(&self) -> bool {
        self.spec_wf()
    }

    open spec fn start() -> Map<(int, int), Square> {
        Map::new(|p: (int, int)| in_hexagon(p), |p: (int, int)| hex_start_square(p))
    }

    open spec fn knight_vectors() -> Seq<(int, int)> {
        hex_knight_vectors()
    }

    open spec fn rook_vectors() -> Seq<(int, int)> {
        seq![(0, 1), (0, -1), (1, 0), (-1, 0), (1, -1), (-1, 1)]
    }

    open spec fn bishop_vectors() -> Seq<(int, int)> {
        seq![(-1, -1), (1, -2), (2, -1), (1, 1), (-1, 2), (-2, 1)]
    }

    open spec fn forward_vector(color: Color) -> (int, int) {
        (0, color.spec_dir())
    }

    open spec fn capture_vectors(color: Color) -> Seq<(int, int)> {
        seq![(color.spec_dir(), 0), (-color.spec_dir(), color.spec_dir())]
    }

    open spec fn is_home(color: Color, p: (int, int)) -> bool {
        hex_pawn_points(color).contains(p)
    }

    open spec fn is_promotion(color: Color, p: (int, int)) -> bool {
        hex_promote_points(color).contains(p)
    }

    /// There is no castling on the hexagonal grid.
    open spec fn castlings() -> Seq<CastleView> {
        Seq::empty()
    }

    proof fn lemma_cells_locatable(&self, p: (int, int)) {
    }

    proof fn lemma_displacement_fits(&self, p: (int, int), q: (int, int)) {
        lemma_hexagon_is_domain(self);
    }

    fn initial() -> (board: Hexboard) {
        let board = Hexboard::new();
        proof {
            lemma_hexagon_is_domain(&board);
        }
        board
    }

    fn well_formed(&self) -> (ok: bool) {
        if self.grid.len() != HEX_ROWS {
            return false;
        }
        let mut y: usize = 0;
        while y < HEX_ROWS
            invariant
                y <= HEX_ROWS,
                self.grid@.len() == HEX_ROWS,
                forall|i: int| 0 <= i < y ==> (#[trigger] self.grid@[i])@.len() == hex_row_len(i),
            decreases HEX_ROWS - y,
        {
            let expected: usize = if y <= 5 {
                6 + y
            } else {
                16 - y
            };
            if self.grid[y].len() != expected {
                return false;
            }
            y += 1;
        }
        true
    }

    fn duplicate(&self) -> (copy: Hexboard) {
        let mut grid: Vec<Vec<Square>> = Vec::new();
        let mut down: usize = 0;
        while down < self.grid.len()
            invariant
                down <= self.grid@.len(),
                grid@.len() == down,
                forall|r: int| 0 <= r < down ==> (#[trigger] grid@[r])@ == self.grid@[r]@,
            decreases self.grid@.len() - down,
        {
            let row = &self.grid[down];
            let mut copy: Vec<Square> = Vec::new();
            let mut right: usize = 0;
            while right < row.len()
                invariant
                    right <= row@.len(),
                    copy@ == row@.take(right as int),
                decreases row@.len() - right,
            {
                copy.push(row[right]);
                assert(row@.take(right + 1) =~= row@.take(right as int).push(row@[right as int]));
                right += 1;
            }
            assert(row@.take(row@.len() as int) =~= row@);
            grid.push(copy);
            down += 1;
        }
        let copy = Hexboard { grid };
        proof {
            assert(copy@ =~= self@);
            assert forall|r: int| 0 <= r < self.grid@.len() implies (#[trigger] copy.grid@[r])@.len()
                == self.grid@[r]@.len() by {}
            assert forall|r: int| 0 <= r < self.grid@.len() implies copy.grid@[r]@.len() == (
            #[trigger] self.grid@[r])@.len() by {}
        }
        copy
    }

    fn get(&self, coord: Coord) -> (content: Option<Square>) {
        match coord.to_xy(5) {
            Some((x, y)) => {
                if y < self.grid.len() {
                    let inner = &self.grid[y];
                    if x < inner.len() {
                        return Some(inner[x]);
                    }
                }
                None
            },
            None => None,
        }
    }

    fn get_mut(&mut self, coord: Coord) -> (cell: Option<&mut Square>) {
        self.cell_mut(coord)
    }

    fn set_at(&mut self, coord: Coord, square: Square) {
        match coord.to_xy(5) {
            Some((x, y)) => {
                if y < self.grid.len() {
                    if x < self.grid[y].len() {
                        self.grid[y][x] = square;
                        proof {
                            assert(self@ =~= written(old(self)@, coord@, square));
                            assert forall|r: int| 0 <= r < self.grid@.len() implies (
                            #[trigger] self.grid@[r])@.len() == old(self).grid@[r]@.len() by {}
                            assert forall|r: int| 0 <= r < self.grid@.len() implies self.grid@[r]@.len()
                                == (#[trigger] old(self).grid@[r])@.len() by {}
                        }
                    }
                }
            },
            None => {},
        }
    }

    fn iter(&self) -> (all: Vec<(Coord, Square)>) {
        let mut all: Vec<(Coord, Square)> = Vec::new();
        let mut y: usize = 0;
        while y < self.grid.len()
            invariant
                y <= self.grid@.len(),
                forall|i: int|
                    0 <= i < all@.len() ==> cell_at(self@, (#[trigger] all@[i].0)@) == Some(all@[i].1),
                forall|p: (int, int)|
                    self@.dom().contains(p) && hex_y(p, 5) < y ==> exists|i: int|
                        0 <= i < all@.len() && (#[trigger] all@[i].0)@ == p,
                forall|i: int| 0 <= i < all@.len() ==> hex_y((#[trigger] all@[i].0)@, 5) < y,
                forall|i: int, j: int|
                    0 <= i < j < all@.len() ==> (#[trigger] all@[i].0)@ != (#[trigger] all@[j].0)@,
            decreases self.grid@.len() - y,
        {
            let row = &self.grid[y];
            let mut x: usize = 0;
            while x < row.len()
                invariant
                    y < self.grid@.len(),
                    row == &self.grid@[y as int],
                    x <= row@.len(),
                    forall|i: int|
                        0 <= i < all@.len() ==> cell_at(self@, (#[trigger] all@[i].0)@) == Some(
                            all@[i].1,
                        ),
                    forall|p: (int, int)|
                        self@.dom().contains(p) && (hex_y(p, 5) < y || (hex_y(p, 5) == y && hex_x(
                            p,
                            5,
                        ) < x)) ==> exists|i: int|
                            0 <= i < all@.len() && (#[trigger] all@[i].0)@ == p,
                    forall|i: int|
                        0 <= i < all@.len() ==> hex_y((#[trigger] all@[i].0)@, 5) < y || (hex_y(
                            all@[i].0@,
                            5,
                        ) == y && hex_x(all@[i].0@, 5) < x),
                    forall|i: int, j: int|
                        0 <= i < j < all@.len() ==> (#[trigger] all@[i].0)@ != (#[trigger] all@[j].0)@,
                decreases row@.len() - x,
            {
                let at = stored_at(x, y);
                if let Some(coord) = at {
                    let ghost before = all@;
                    all.push((coord, row[x]));
                    proof {
                        assert forall|p: (int, int)|
                            self@.dom().contains(p) && (hex_y(p, 5) < y || (hex_y(p, 5) == y
                                && hex_x(p, 5) < x + 1)) implies exists|i: int|
                            0 <= i < all@.len() && (#[trigger] all@[i].0)@ == p by {
                            if hex_y(p, 5) < y || (hex_y(p, 5) == y && hex_x(p, 5) < x) {
                                let i = choose|i: int|
                                    0 <= i < before.len() && (#[trigger] before[i].0)@ == p;
                                assert(all@[i] == before[i]);
                            } else {
                                assert(all@[all@.len() - 1].0@ == p);
                            }
                        }
                    }
                }
                x += 1;
            }
            y += 1;
        }
        all
    }

    fn reach(&self) -> (steps: u32) {
        proof {
            lemma_hexagon_is_domain(self);
            assert forall|p: (int, int), v: (int, int), k: int|
                self@.dom().contains(p) && v != (0int, 0int) && k > 11 implies !#[trigger] self@.dom().contains(
                plus(p, times(v, k)),
            ) by {
                if v.0 != 0 {
                    assert(v.0 * k >= k || v.0 * k <= -k) by (nonlinear_arith)
                        requires
                            v.0 != 0,
                            k > 0,
                    ;
                } else {
                    assert(v.1 * k >= k || v.1 * k <= -k) by (nonlinear_arith)
                        requires
                            v.1 != 0,
                            k > 0,
                    ;
                }
            }
        }
        11
    }

    fn offset(loc: Coord, rel: Dir) -> (sum: Option<Coord>) {
        let q: i64 = loc.q as i64 + rel.q as i64;
        let r: i64 = loc.r as i64 + rel.r as i64;
        if q < i32::MIN as i64 || q > i32::MAX as i64 || r < i32::MIN as i64 || r > i32::MAX as i64 {
            None
        } else {
            Some(Coord { q: q as i32, r: r as i32 })
        }
    }

    fn same_loc(a: &Coord, b: &Coord) -> (equal: bool) {
        a.q == b.q && a.r == b.r
    }

    fn knight_moves() -> (leaps: Vec<Dir>) {
        let leaps = vec![
            Dir::new(-2, -1),
            Dir::new(-1, -2),
            Dir::new(1, -3),
            Dir::new(2, -3),
            Dir::new(3, -2),
            Dir::new(3, -1),
            Dir::new(2, 1),
            Dir::new(1, 2),
            Dir::new(-1, 3),
            Dir::new(-2, 3),
            Dir::new(-3, 2),
            Dir::new(-3, 1),
        ];
        assert(vectors(leaps@) =~= hex_knight_vectors());
        leaps
    }

    fn forward_one(color: Color) -> (step: Dir) {
        Dir::new(0, color.dir())
    }

    fn home_for(&self, color: Color, loc: Coord) -> (home: bool) {
        has_coord(&Hexboard::pawn_squares(color), loc)
    }

    fn takeable(&self, color: Color) -> (steps: Vec<Dir>) {
        let ahead: i32 = color.dir();
        let back: i32 = -ahead;
        let steps = vec![Dir::new(ahead, 0), Dir::new(back, ahead)];
        assert(vectors(steps@) =~= Self::capture_vectors(color));
        steps
    }

    fn can_promote(&self, color: Color, loc: Coord) -> (promotes: bool) {
        has_coord(&Hexboard::promote_squares(color), loc)
    }

    fn rook_dirs(&self) -> (dirs: Vec<Dir>) {
        let dirs = vec![
            Dir::new(0, 1),
            Dir::new(0, -1),
            Dir::new(1, 0),
            Dir::new(-1, 0),
            Dir::new(1, -1),
            Dir::new(-1, 1),
        ];
        assert(vectors(dirs@) =~= Self::rook_vectors());
        dirs
    }

    fn castle_rooks(&self) -> (castles: Vec<Castle<Dir>>) {
        let castles: Vec<Castle<Dir>> = Vec::new();
        assert(castle_views(castles@) =~= Self::castlings());
        castles
    }

    fn bishop_dirs(&self) -> (dirs: Vec<Dir>) {
        let dirs = vec![
            Dir::new(-1, -1),
            Dir::new(1, -2),
            Dir::new(2, -1),
            Dir::new(1, 1),
            Dir::new(-1, 2),
            Dir::new(-2, 1),
        ];
        assert(vectors(dirs@) =~= Self::bishop_vectors());
        dirs
    }
}

/// The location that is stored at a column and row of the hexagon's grid, if
/// a location can hold it.
pub fn stored_at(x: usize, y: usize) -> (coord: Option<Coord>)
    ensures
        match coord {
            Some(c) => hex_x(c@, 5) == x && hex_y(c@, 5) == y,
            None => forall|p: (int, int)| fits_i32(p) ==> !(hex_x(p, 5) == x && hex_y(p, 5) == y),
        },
{
    let r: i128 = y as i128 - 5;
    let lead: i128 = if r < 0 {
        r
    } else {
        0
    };
    let q: i128 = x as i128 - lead - 5;
    if q > i32::MAX as i128 || r > i32::MAX as i128 {
        None
    } else {
        Some(Coord { q: q as i32, r: r as i32 })
    }
}

} // verus!
