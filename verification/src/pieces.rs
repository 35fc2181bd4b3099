//! The values that sit on a board: colors, piece kinds and square contents.

use vstd::prelude::*;
use vstd::string::StringExecFns;

verus! {

/// One of the two sides.
#[derive(Debug, Hash, Copy, Clone, PartialEq, Eq, Structural)]
pub enum Color {
    White,
    Black,
}

impl Color {
    /// The opposing side.
    pub open spec fn spec_other(self) -> Color {
        match self {
            Color::White => Color::Black,
            Color::Black => Color::White,
        }
    }

    /// The sign of a pawn's advance along the vertical axis: White moves
    /// towards lower rows, Black towards higher ones.
    pub open spec fn spec_dir(self) -> int {
        match self {
            Color::White => -1,
            Color::Black => 1,
        }
    }

    /// The letter that stands for this side in a square's name.
    pub open spec fn spec_short_name(self) -> char {
        match self {
            Color::White => 'w',
            Color::Black => 'b',
        }
    }

    pub fn short_name(&self) -> (c: char)
        ensures
            c == self.spec_short_name(),
    {
        match self {
            Color::Black => 'b',
            Color::White => 'w',
        }
    }

    pub fn dir(&self) -> (d: i32)
        ensures
            d == self.spec_dir(),
    {
        match self {
            Color::Black => 1,
            Color::White => -1,
        }
    }

    pub fn other(&self) -> (c: Color)
        ensures
            c == self.spec_other(),
    {
        match self {
            Color::Black => Color::White,
            Color::White => Color::Black,
        }
    }

    /// Both sides, the side that moves first in front.
    pub fn all() -> (colors: [Color; 2])
        ensures
            colors@ == seq![Color::White, Color::Black],
    {
        [Color::White, Color::Black]
    }
}

/// A kind of piece, with the flags that its rules need.
///
/// `moved` records that a king or rook has left its first square, which
/// forbids castling. `passantable` marks a pawn that has just advanced two
/// squares and may be captured in passing by the very next action.
#[derive(Debug, Hash, Copy, Clone, PartialEq, Eq, Structural)]
pub enum Piece {
    King { moved: bool },
    Queen,
    Bishop,
    Knight,
    Rook { moved: bool },
    Pawn { passantable: bool },
}

impl Piece {
    /// The letter that stands for this kind in a square's name.
    pub open spec fn spec_short_name(self) -> char {
        match self {
            Piece::King { .. } => 'K',
            Piece::Queen => 'Q',
            Piece::Bishop => 'B',
            Piece::Knight => 'N',
            Piece::Rook { .. } => 'R',
            Piece::Pawn { .. } => 'P',
        }
    }

    pub fn short_name(&self) -> (c: char)
        ensures
            c == self.spec_short_name(),
    {
        match self {
            Piece::King { .. } => 'K',
            Piece::Queen => 'Q',
            Piece::Bishop => 'B',
            Piece::Knight => 'N',
            Piece::Rook { .. } => 'R',
            Piece::Pawn { .. } => 'P',
        }
    }

    /// One piece of every kind, with all flags down.
    pub fn all() -> (kinds: [Piece; 6])
        ensures
            kinds@ == seq![
                Piece::King { moved: false },
                Piece::Queen,
                Piece::Knight,
                Piece::Rook { moved: false },
                Piece::Bishop,
                Piece::Pawn { passantable: false },
            ],
    {
        [
            Piece::King { moved: false },
            Piece::Queen,
            Piece::Knight,
            Piece::Rook { moved: false },
            Piece::Bishop,
            Piece::Pawn { passantable: false },
        ]
    }
}

/// The set of sides that one participant controls.
#[derive(Copy, Clone, Debug, PartialEq, Eq, Structural)]
pub enum PlayerColor {
    Neither,
    White,
    Black,
    Both,
}

impl PlayerColor {
    /// The sides in this set.
    pub open spec fn colors(self) -> Set<Color> {
        match self {
            PlayerColor::Neither => set![],
            PlayerColor::White => set![Color::White],
            PlayerColor::Black => set![Color::Black],
            PlayerColor::Both => set![Color::White, Color::Black],
        }
    }

    /// The set that holds one side only.
    pub open spec fn only(color: Color) -> PlayerColor {
        match color {
            Color::White => PlayerColor::White,
            Color::Black => PlayerColor::Black,
        }
    }

    /// Adds a side to the set.
    pub fn push(self, rhs: Color) -> (sum: PlayerColor)
        ensures
            sum.colors() == self.colors().insert(rhs),
    {
        let single = PlayerColor::from(rhs);
        let sum = match self {
            PlayerColor::Neither => single,
            PlayerColor::Both => PlayerColor::Both,
            _ => {
                if self != single {
                    PlayerColor::Both
                } else {
                    self
                }
            },
        };
        assert(sum.colors() =~= self.colors().insert(rhs));
        sum
    }

    /// Whether a side is in the set.
    pub fn contains(self, target: &Color) -> (found: bool)
        ensures
            found == self.colors().contains(*target),
    {
        match self {
            PlayerColor::Neither => false,
            PlayerColor::Both => true,
            _ => self == PlayerColor::from(*target),
        }
    }
}

impl Default for PlayerColor {
    fn default() -> (empty: PlayerColor)
        ensures
            empty == PlayerColor::Neither,
    {
        PlayerColor::Neither
    }
}

impl From<Color> for PlayerColor {
    fn from(value: Color) -> (single: PlayerColor) {
        match value {
            Color::Black => PlayerColor::Black,
            Color::White => PlayerColor::White,
        }
    }
}

impl vstd::std_specs::convert::FromSpecImpl<Color> for PlayerColor {
    open spec fn obeys_from_spec() -> bool {
        true
    }

    open spec fn from_spec(value: Color) -> PlayerColor {
        PlayerColor::only(value)
    }
}

/// What one square of a board holds.
#[derive(Debug, Hash, Copy, Clone, PartialEq, Eq, Structural)]
pub enum Square {
    Empty,
    Duck,
    Piece(Color, Piece),
}

impl Square {
    /// Whether the square holds a piece of the given side.
    pub open spec fn held_by(self, color: Color) -> bool {
        self matches Square::Piece(c, _) && c == color
    }

    /// Whether the square holds a king of the given side.
    pub open spec fn spec_is_king(self, color: Color) -> bool {
        self matches Square::Piece(c, Piece::King { .. }) && c == color
    }

    /// The square with a pawn's `passantable` flag taken down; any other
    /// content is left as it is.
    pub open spec fn unpassanted(self) -> Square {
        match self {
            Square::Piece(color, Piece::Pawn { .. }) => Square::Piece(
                color,
                Piece::Pawn { passantable: false },
            ),
            other => other,
        }
    }

    /// The text that names the content: `duck`, `empty`, or the letter of the
    /// side followed by the letter of the kind.
    pub open spec fn spec_name(self) -> Seq<char> {
        match self {
            Square::Piece(color, piece) => seq![color.spec_short_name(), piece.spec_short_name()],
            Square::Duck => seq!['d', 'u', 'c', 'k'],
            Square::Empty => seq!['e', 'm', 'p', 't', 'y'],
        }
    }

    /// A square that holds the given piece.
    pub fn piece(color: Color, piece: Piece) -> (square: Square)
        ensures
            square == Square::Piece(color, piece),
    {
        Square::Piece(color, piece)
    }

    /// Takes a pawn's `passantable` flag down.
    pub fn unpassant_pawns(&mut self)
        ensures
            *final(self) == old(self).unpassanted(),
    {
        if let Square::Piece(color, Piece::Pawn { .. }) = *self {
            *self = Square::Piece(color, Piece::Pawn { passantable: false });
        }
    }

    pub fn name(&self) -> (text: String)
        ensures
            text@ == self.spec_name(),
    {
        match self {
            Square::Piece(color, piece) => {
                let side = match color {
                    Color::White => "w",
                    Color::Black => "b",
                };
                let kind = match piece {
                    Piece::King { .. } => "K",
                    Piece::Queen => "Q",
                    Piece::Bishop => "B",
                    Piece::Knight => "N",
                    Piece::Rook { .. } => "R",
                    Piece::Pawn { .. } => "P",
                };
                proof {
                    reveal_strlit("w");
                    reveal_strlit("b");
                    reveal_strlit("K");
                    reveal_strlit("Q");
                    reveal_strlit("B");
                    reveal_strlit("N");
                    reveal_strlit("R");
                    reveal_strlit("P");
                    assert(side@ =~= seq![color.spec_short_name()]);
                    assert(kind@ =~= seq![piece.spec_short_name()]);
                }
                let text = String::from_str(side).concat(kind);
                assert(text@ =~= self.spec_name());
                text
            },
            Square::Duck => {
                proof {
                    reveal_strlit("duck");
                    assert("duck"@ =~= seq!['d', 'u', 'c', 'k']);
                }
                String::from_str("duck")
            },
            Square::Empty => {
                proof {
                    reveal_strlit("empty");
                    assert("empty"@ =~= seq!['e', 'm', 'p', 't', 'y']);
                }
                String::from_str("empty")
            },
        }
    }

    pub fn is_king(&self, color: Color) -> (found: bool)
        ensures
            found == self.spec_is_king(color),
    {
        if let Square::Piece(piece_color, Piece::King { .. }) = self {
            *piece_color == color
        } else {
            false
        }
    }

    /// The side and kind of the piece on the square, if there is one.
    pub fn get_piece(self) -> (held: Option<(Color, Piece)>)
        ensures
            held == match self {
                Square::Piece(color, piece) => Some((color, piece)),
                _ => None::<(Color, Piece)>,
            },
    {
        if let Square::Piece(color, piece) = self {
            Some((color, piece))
        } else {
            None
        }
    }
}

} // verus!
