//! The game: whose turn it is, what a submitted turn does, and who has won.

use vstd::prelude::*;
use crate::action::{ActionRawView, SingleAction, SingleActionView};
use crate::actionmap::ActionMap;
use crate::board::Board;
use crate::boardfocus::BoardFocus;
use crate::chessboard::{cell_at, written, ChessBoard};
use crate::hexboard::Hexboard;
use crate::pieces::{Color, Piece, PlayerColor, Square};
use crate::player::Player;
use crate::rules::{
    applied, has_king, is_empty, legal_actions, promotion_pieces, unpassanted, winner,
};

verus! {

/// One turn as a player submits it: the square of the piece that acts, the
/// action, and the square on which the duck is put down afterwards.
#[derive(Debug, Hash, PartialEq, Eq)]
pub struct TurnRaw<B: ChessBoard> {
    pub from: B::Loc,
    pub action: SingleAction<B::Rel>,
    pub duck_to: B::Loc,
}

impl<B: ChessBoard> Clone for TurnRaw<B> {
    fn clone(&self) -> (copy: Self)
        ensures
            copy == *self,
    {
        TurnRaw { from: self.from, action: self.action, duck_to: self.duck_to }
    }
}

impl<B: ChessBoard> Copy for TurnRaw<B> {

}

/// A turn on the square grid.
pub type Turn = TurnRaw<Board>;

/// A turn on either board.
#[derive(Debug, Copy, Clone, Hash, PartialEq, Eq)]
pub enum SomeTurn {
    Square(TurnRaw<Board>),
    Hex(TurnRaw<Hexboard>),
}

/// Why a submitted turn is turned down. A turn that is turned down changes
/// nothing.
#[derive(Debug, Copy, Clone, PartialEq, Eq, Structural)]
pub enum TurnError {
    /// The player does not control the side that is to move.
    NotYourTurn,
    /// The square holds no piece of the side that is to move, or the action
    /// is none of the piece's legal actions, or the turn is for the other
    /// board.
    InvalidAction,
    /// The square for the duck is not empty after the action.
    InvalidDuck,
}

impl TurnError {
    /// The text that names the error.
    pub open spec fn spec_message(self) -> Seq<char> {
        match self {
            TurnError::NotYourTurn => "Not your turn"@,
            TurnError::InvalidAction => "Invalid Action"@,
            TurnError::InvalidDuck => "Invalid Duck"@,
        }
    }

    pub fn message(&self) -> (text: &'static str)
        ensures
            text@ == self.spec_message(),
    {
        match self {
            TurnError::NotYourTurn => "Not your turn",
            TurnError::InvalidAction => "Invalid Action",
            TurnError::InvalidDuck => "Invalid Duck",
        }
    }
}

/// The board after the duck has gone from its earlier square, if it had one,
/// to a new square.
pub open spec fn with_duck(
    cells: Map<(int, int), Square>,
    prior: Option<(int, int)>,
    to: (int, int),
) -> Map<(int, int), Square> {
    written(
        match prior {
            Some(q) => written(cells, q, Square::Empty),
            None => cells,
        },
        to,
        Square::Duck,
    )
}

/// A game on one board: the board, the turns played so far, and where the
/// duck stands.
#[derive(Debug, Hash, Clone, PartialEq, Eq)]
pub struct GameRaw<B: ChessBoard> {
    pub board: B,
    pub turns: Vec<TurnRaw<B>>,
    pub duck_loc: Option<B::Loc>,
}

impl<B: ChessBoard> GameRaw<B> {
    /// What the board holds.
    pub open spec fn cells(&self) -> Map<(int, int), Square> {
        self.board.cells()
    }

    /// The point on which the duck was put down last.
    pub open spec fn duck_point(&self) -> Option<(int, int)> {
        match self.duck_loc {
            Some(loc) => Some(B::point(loc)),
            None => None,
        }
    }

    /// Whether the board is well formed and no square but the one that the
    /// game names holds the duck.
    pub open spec fn wf(&self) -> bool {
        &&& self.board.wf()
        &&& forall|p: (int, int)|
            cell_at(self.cells(), p) == Some(Square::Duck) ==> self.duck_point() == Some(p)
    }

    /// The side that is to move: White before an even number of turns, Black
    /// before an odd one.
    pub open spec fn spec_turn(&self) -> Color {
        if self.turns@.len() % 2 == 0 {
            Color::White
        } else {
            Color::Black
        }
    }

    /// Whether the action of a turn is one of the legal actions from its
    /// square for the side that is to move.
    pub open spec fn action_is_legal(&self, turn: TurnRaw<B>) -> bool {
        let offers = legal_actions::<B>(self.cells(), B::point(turn.from), self.spec_turn());
        exists|p: (int, int)| offers.dom().contains(p) && (#[trigger] offers[p]).contains(turn.action@)
    }

    /// The board after the action of a turn, before the duck is moved.
    pub open spec fn after_action(&self, turn: TurnRaw<B>) -> Map<(int, int), Square> {
        applied::<B>(self.cells(), B::point(turn.from), self.spec_turn(), turn.action@)
    }

    /// Whether the square for the duck is empty after the action of a turn.
    pub open spec fn duck_is_valid(&self, turn: TurnRaw<B>) -> bool {
        is_empty(self.after_action(turn), B::point(turn.duck_to))
    }

    /// The board after a whole turn.
    pub open spec fn after_turn(&self, turn: TurnRaw<B>) -> Map<(int, int), Square> {
        with_duck(self.after_action(turn), self.duck_point(), B::point(turn.duck_to))
    }

    /// Why a turn is turned down, if it is: its action is not legal, or the
    /// square for the duck is not empty once the action is done.
    pub open spec fn turn_error(&self, turn: TurnRaw<B>) -> Option<TurnError> {
        if !self.action_is_legal(turn) {
            Some(TurnError::InvalidAction)
        } else if !self.duck_is_valid(turn) {
            Some(TurnError::InvalidDuck)
        } else {
            None
        }
    }

    /// Whether `next` is this game after the given turn: the board holds the
    /// outcome of the action and the duck on its new square, and the turn is
    /// the last of the history.
    pub open spec fn played(&self, turn: TurnRaw<B>, next: &GameRaw<B>) -> bool {
        &&& next.cells() == self.after_turn(turn)
        &&& next.turns@ == self.turns@.push(turn)
        &&& next.duck_loc == Some(turn.duck_to)
        &&& next.wf()
    }

    /// Whether the game is well formed.
    pub fn well_formed(&self) -> (ok: bool)
        ensures
            ok == self.wf(),
    {
        if !self.board.well_formed() {
            return false;
        }
        let all = self.board.iter();
        let mut i: usize = 0;
        while i < all.len()
            invariant
                i <= all@.len(),
                forall|k: int|
                    0 <= k < all@.len() ==> cell_at(self.cells(), B::point(#[trigger] all@[k].0))
                        == Some(all@[k].1),
                forall|k: int|
                    0 <= k < i && (#[trigger] all@[k]).1 == Square::Duck ==> self.duck_point()
                        == Some(B::point(all@[k].0)),
            decreases all@.len() - i,
        {
            if let Square::Duck = all[i].1 {
                let here = match self.duck_loc {
                    Some(loc) => B::same_loc(&loc, &all[i].0),
                    None => false,
                };
                if !here {
                    proof {
                        let p = B::point(all@[i as int].0);
                        assert(cell_at(self.cells(), p) == Some(Square::Duck));
                        assert(self.duck_point() != Some(p));
                    }
                    return false;
                }
            }
            i += 1;
        }
        proof {
            assert forall|p: (int, int)|
                cell_at(self.cells(), p) == Some(Square::Duck) implies self.duck_point() == Some(
                p,
            ) by {
                let k = choose|k: int| 0 <= k < all@.len() && B::point(#[trigger] all@[k].0) == p;
                assert(all@[k].1 == Square::Duck);
            }
        }
        true
    }

    /// The side that is to move.
    pub fn turn(&self) -> (color: Color)
        ensures
            color == self.spec_turn(),
            color == Color::White <==> self.turns@.len() % 2 == 0,
    {
        if self.turns.len() % 2 == 0 {
            Color::White
        } else {
            Color::Black
        }
    }

    /// What the board holds at a location.
    pub fn get(&self, loc: B::Loc) -> (content: Option<Square>)
        ensures
            content == cell_at(self.cells(), B::point(loc)),
    {
        self.board.get(loc)
    }

    /// The square at a location of the board, to read and to write.
    pub fn get_mut(&mut self, loc: B::Loc) -> (cell: &mut Square)
        requires
            old(self).cells().dom().contains(B::point(loc)),
        ensures
            *cell == old(self).cells()[B::point(loc)],
            final(self).cells() == old(self).cells().insert(B::point(loc), *final(cell)),
            final(self).board.wf() == old(self).board.wf(),
            final(self).turns == old(self).turns,
            final(self).duck_loc == old(self).duck_loc,
    {
        self.board.get_mut(loc).unwrap()
    }

    /// Whether the duck may be put down on a location: the square is empty.
    pub fn valid_duck(&self, loc: B::Loc) -> (valid: bool)
        ensures
            valid == is_empty(self.cells(), B::point(loc)),
    {
        match self.get(loc) {
            Some(Square::Empty) => true,
            _ => false,
        }
    }

    /// The legal actions from a location for the side that is to move.
    pub fn valid_locations_from(&self, loc: B::Loc) -> (locations: ActionMap<B>)
        requires
            self.board.wf(),
        ensures
            locations.wf(),
            locations@ == legal_actions::<B>(self.cells(), B::point(loc), self.spec_turn()),
    {
        match BoardFocus::new(self.board.duplicate(), loc) {
            Some(focus) => focus.valid_locations_for(self.turn()),
            None => ActionMap::new(),
        }
    }

    /// Squares that hold the given pieces for the side that is to move.
    pub fn mk_squares_for(&self, pieces: &[Piece]) -> (squares: Vec<Square>)
        ensures
            squares@.len() == pieces@.len(),
            forall|i: int|
                0 <= i < pieces@.len() ==> squares@[i] == Square::Piece(self.spec_turn(), pieces@[i]),
    {
        let color = self.turn();
        let mut squares: Vec<Square> = Vec::new();
        let mut i: usize = 0;
        while i < pieces.len()
            invariant
                i <= pieces@.len(),
                squares@.len() == i,
                color == self.spec_turn(),
                forall|j: int| 0 <= j < i ==> squares@[j] == Square::Piece(color, pieces@[j]),
            decreases pieces@.len() - i,
        {
            squares.push(Square::Piece(color, pieces[i]));
            i += 1;
        }
        squares
    }

    /// The empty squares of the board, each once.
    pub fn empties(&self) -> (found: Vec<B::Loc>)
        ensures
            forall|i: int|
                0 <= i < found@.len() ==> is_empty(self.cells(), B::point(#[trigger] found@[i])),
            forall|p: (int, int)|
                is_empty(self.cells(), p) ==> exists|i: int|
                    0 <= i < found@.len() && B::point(#[trigger] found@[i]) == p,
            forall|i: int, j: int|
                0 <= i < j < found@.len() ==> B::point(#[trigger] found@[i]) != B::point(
                    #[trigger] found@[j],
                ),
    {
        let all = self.board.iter();
        let mut found: Vec<B::Loc> = Vec::new();
        let ghost mut source: Seq<int> = Seq::empty();
        let mut i: usize = 0;
        while i < all.len()
            invariant
                i <= all@.len(),
                forall|k: int|
                    0 <= k < all@.len() ==> cell_at(self.cells(), B::point(#[trigger] all@[k].0))
                        == Some(all@[k].1),
                forall|a: int, b: int|
                    0 <= a < b < all@.len() ==> B::point(#[trigger] all@[a].0) != B::point(
                        #[trigger] all@[b].0,
                    ),
                source.len() == found@.len(),
                forall|k: int|
                    0 <= k < found@.len() ==> 0 <= #[trigger] source[k] < i && found@[k]
                        == all@[source[k]].0 && all@[source[k]].1 == Square::Empty,
                forall|a: int, b: int| 0 <= a < b < found@.len() ==> source[a] < source[b],
                forall|k: int|
                    0 <= k < i && (#[trigger] all@[k]).1 == Square::Empty ==> exists|t: int|
                        0 <= t < found@.len() && #[trigger] source[t] == k,
            decreases all@.len() - i,
        {
            if let Square::Empty = all[i].1 {
                let ghost before = source;
                found.push(all[i].0);
                proof {
                    source = source.push(i as int);
                    assert forall|k: int|
                        0 <= k < i + 1 && (#[trigger] all@[k]).1 == Square::Empty implies exists|
                        t: int,
                    |
                        0 <= t < found@.len() && #[trigger] source[t] == k by {
                        if k < i {
                            let t = choose|t: int| 0 <= t < before.len() && #[trigger] before[t] == k;
                            assert(source[t] == k);
                        } else {
                            assert(source[found@.len() - 1] == k);
                        }
                    }
                }
            }
            i += 1;
        }
        proof {
            assert forall|k: int| 0 <= k < found@.len() implies is_empty(
                self.cells(),
                B::point(#[trigger] found@[k]),
            ) by {
                assert(found@[k] == all@[source[k]].0);
            }
            assert forall|p: (int, int)| is_empty(self.cells(), p) implies exists|t: int|
                0 <= t < found@.len() && B::point(#[trigger] found@[t]) == p by {
                let k = choose|k: int| 0 <= k < all@.len() && B::point(#[trigger] all@[k].0) == p;
                assert(all@[k].1 == Square::Empty);
                let t = choose|t: int| 0 <= t < found@.len() && #[trigger] source[t] == k;
                assert(found@[t] == all@[source[t]].0);
            }
            assert forall|a: int, b: int| 0 <= a < b < found@.len() implies B::point(
                #[trigger] found@[a],
            ) != B::point(#[trigger] found@[b]) by {
                assert(found@[a] == all@[source[a]].0);
                assert(found@[b] == all@[source[b]].0);
                assert(source[a] < source[b]);
            }
        }
        found
    }

    /// A game at its start: the opening layout, no turns, no duck.
    pub fn empty_board() -> (game: GameRaw<B>)
        ensures
            game.wf(),
            game.cells() == B::start(),
            game.turns@.len() == 0,
            game.duck_loc is None,
    {
        GameRaw { turns: Vec::new(), board: B::initial(), duck_loc: None }
    }

    /// Moves the duck: its earlier square, if it had one, is emptied, and the
    /// new square holds the duck.
    pub fn apply_duck(&mut self, loc: B::Loc)
        ensures
            final(self).cells() == with_duck(old(self).cells(), old(self).duck_point(), B::point(loc)),
            final(self).duck_loc == Some(loc),
            final(self).turns == old(self).turns,
            final(self).board.wf() == old(self).board.wf(),
            old(self).wf() ==> final(self).wf(),
    {
        if let Some(duck_loc) = self.duck_loc {
            self.board.set_at(duck_loc, Square::Empty);
        }
        let ghost cleared = self.cells();
        self.duck_loc = Some(loc);
        self.board.set_at(loc, Square::Duck);
        proof {
            if old(self).wf() {
                assert forall|p: (int, int)| cell_at(cleared, p) != Some(Square::Duck) by {
                    if cell_at(old(self).cells(), p) == Some(Square::Duck) {
                        assert(old(self).duck_point() == Some(p));
                    }
                }
                assert forall|p: (int, int)|
                    cell_at(self.cells(), p) == Some(Square::Duck) implies self.duck_point()
                    == Some(p) by {
                    if p != B::point(loc) {
                        assert(cell_at(self.cells(), p) == cell_at(cleared, p));
                    }
                }
            }
        }
    }

    /// Applies an action from a location for the side of the piece that
    /// stands there. Nothing happens where no piece stands.
    pub fn apply_from(&mut self, loc: B::Loc, action: SingleAction<B::Rel>)
        requires
            old(self).board.wf(),
        ensures
            final(self).cells() == match cell_at(old(self).cells(), B::point(loc)) {
                Some(Square::Piece(color, _)) => applied::<B>(
                    old(self).cells(),
                    B::point(loc),
                    color,
                    action@,
                ),
                _ => old(self).cells(),
            },
            final(self).board.wf(),
            final(self).turns == old(self).turns,
            final(self).duck_loc == old(self).duck_loc,
    {
        match BoardFocus::new(self.board.duplicate(), loc) {
            Some(mut focus) => {
                focus.apply(action);
                self.board = focus.board;
            },
            None => {},
        }
    }

    /// Who has won: the side whose opponent has no king on the board.
    pub fn game_over(&self) -> (won: Option<Color>)
        ensures
            won == winner(self.cells()),
    {
        let all = self.board.iter();
        let mut found_white = false;
        let mut found_black = false;
        let mut i: usize = 0;
        while i < all.len()
            invariant
                i <= all@.len(),
                found_white <==> exists|j: int|
                    0 <= j < i && (#[trigger] all@[j]).1.spec_is_king(Color::White),
                found_black <==> exists|j: int|
                    0 <= j < i && (#[trigger] all@[j]).1.spec_is_king(Color::Black),
            decreases all@.len() - i,
        {
            let white = all[i].1.is_king(Color::White);
            let black = all[i].1.is_king(Color::Black);
            found_white = found_white || white;
            found_black = found_black || black;
            i += 1;
        }
        proof {
            lemma_kings_found::<B>(self.cells(), all@, Color::White);
            lemma_kings_found::<B>(self.cells(), all@, Color::Black);
        }
        if !found_white {
            Some(Color::Black)
        } else if !found_black {
            Some(Color::White)
        } else {
            None
        }
    }

    /// Plays a turn for the side that is to move.
    ///
    /// The turn is accepted exactly if its action is legal from its square
    /// and the square for the duck is empty once the action is done. The
    /// board then holds the outcome of the action and the duck on its new
    /// square, and the turn is the last of the history. A turn that is not
    /// accepted leaves the game as it was.
    pub fn apply_turn(&mut self, turn: TurnRaw<B>) -> (done: Result<(), TurnError>)
        requires
            old(self).wf(),
        ensures
            done == match old(self).turn_error(turn) {
                Some(e) => Err::<(), TurnError>(e),
                None => Ok(()),
            },
            done is Ok ==> old(self).played(turn, final(self)),
            done is Err ==> *final(self) == *old(self),
    {
        let turn_color = self.turn();
        let ghost cells = self.cells();
        let ghost origin = B::point(turn.from);
        let ghost offers = legal_actions::<B>(cells, origin, self.spec_turn());
        let mut focus = match BoardFocus::new(self.board.duplicate(), turn.from) {
            Some(focus) => focus,
            None => {
                assert(offers =~= Map::<(int, int), ActionRawView>::empty());
                return Err(TurnError::InvalidAction);
            },
        };
        assert(focus.cells() == cells);
        let actions = focus.valid_locations_for(turn_color);
        assert(actions@ == offers);
        if !actions.offers(&turn.action) {
            return Err(TurnError::InvalidAction);
        }
        proof {
            let p = choose|p: (int, int)|
                offers.dom().contains(p) && (#[trigger] offers[p]).contains(turn.action@);
            assert(offers.dom().contains(p));
            assert(focus.player == turn_color);
        }
        assert(self.action_is_legal(turn));
        focus.apply(turn.action);
        assert(focus.cells() == self.after_action(turn));
        match focus.board.get(turn.duck_to) {
            Some(Square::Empty) => {},
            _ => {
                return Err(TurnError::InvalidDuck);
            },
        }
        proof {
            assert forall|p: (int, int)|
                cell_at(focus.cells(), p) == Some(Square::Duck) implies self.duck_point() == Some(
                p,
            ) by {
                lemma_applied_brings_no_duck::<B>(cells, origin, turn_color, turn.action@, p);
            }
        }
        self.board = focus.board;
        self.apply_duck(turn.duck_to);
        self.turns.push(turn);
        Ok(())
    }
}

/// An action puts the duck on no square: where the duck stands after an
/// action, it stood before.
pub proof fn lemma_applied_brings_no_duck<B: ChessBoard>(
    cells: Map<(int, int), Square>,
    origin: (int, int),
    color: Color,
    action: SingleActionView,
    p: (int, int),
)
    requires
        cell_at(applied::<B>(cells, origin, color, action), p) == Some(Square::Duck),
    ensures
        cell_at(cells, p) == Some(Square::Duck),
{
    let base = unpassanted(cells);
    assert(base.dom() =~= cells.dom());
    if cells.dom().contains(p) {
        assert(base[p] == cells[p].unpassanted());
    }
}

/// A scan of all cells finds a king exactly if one stands on the board.
pub proof fn lemma_kings_found<B: ChessBoard>(
    cells: Map<(int, int), Square>,
    all: Seq<(B::Loc, Square)>,
    color: Color,
)
    requires
        forall|i: int|
            0 <= i < all.len() ==> cell_at(cells, B::point(#[trigger] all[i].0)) == Some(all[i].1),
        forall|p: (int, int)|
            cells.dom().contains(p) ==> exists|i: int|
                0 <= i < all.len() && B::point(#[trigger] all[i].0) == p,
    ensures
        has_king(cells, color) <==> exists|j: int|
            0 <= j < all.len() && (#[trigger] all[j]).1.spec_is_king(color),
{
    if has_king(cells, color) {
        let p = choose|p: (int, int)|
            cells.dom().contains(p) && (#[trigger] cells[p]).spec_is_king(color);
        let i = choose|i: int| 0 <= i < all.len() && B::point(#[trigger] all[i].0) == p;
        assert(all[i].1.spec_is_king(color));
    }
    if exists|j: int| 0 <= j < all.len() && (#[trigger] all[j]).1.spec_is_king(color) {
        let j = choose|j: int| 0 <= j < all.len() && (#[trigger] all[j]).1.spec_is_king(color);
        let p = B::point(all[j].0);
        assert(cells.dom().contains(p) && cells[p].spec_is_king(color));
    }
}

/// A game on either board.
#[derive(Debug, Hash, Clone, PartialEq, Eq)]
pub enum SomeGame {
    Square(GameRaw<Board>),
    Hex(GameRaw<Hexboard>),
}

/// The board of a game on either board.
#[derive(Debug, Clone, PartialEq, Eq)]
pub enum SomeBoard<'a> {
    Square(&'a Board),
    Hex(&'a Hexboard),
}

impl SomeGame {
    /// Whether the game is well formed.
    pub open spec fn wf(&self) -> bool {
        match self {
            SomeGame::Square(game) => game.wf(),
            SomeGame::Hex(game) => game.wf(),
        }
    }

    /// What the board holds.
    pub open spec fn cells(&self) -> Map<(int, int), Square> {
        match self {
            SomeGame::Square(game) => game.cells(),
            SomeGame::Hex(game) => game.cells(),
        }
    }

    /// The number of turns played.
    pub open spec fn turn_count(&self) -> nat {
        match self {
            SomeGame::Square(game) => game.turns@.len(),
            SomeGame::Hex(game) => game.turns@.len(),
        }
    }

    /// The side that is to move.
    pub open spec fn spec_turn(&self) -> Color {
        match self {
            SomeGame::Square(game) => game.spec_turn(),
            SomeGame::Hex(game) => game.spec_turn(),
        }
    }

    /// Why a turn is turned down, if it is. A turn for the other board is no
    /// legal action.
    pub open spec fn turn_error(&self, turn: SomeTurn) -> Option<TurnError> {
        match (*self, turn) {
            (SomeGame::Square(game), SomeTurn::Square(turn)) => game.turn_error(turn),
            (SomeGame::Hex(game), SomeTurn::Hex(turn)) => game.turn_error(turn),
            _ => Some(TurnError::InvalidAction),
        }
    }

    /// Whether `next` is this game after the given turn.
    pub open spec fn played(&self, turn: SomeTurn, next: &SomeGame) -> bool {
        match (*self, turn, *next) {
            (SomeGame::Square(game), SomeTurn::Square(turn), SomeGame::Square(after)) => game.played(
                turn,
                &after,
            ),
            (SomeGame::Hex(game), SomeTurn::Hex(turn), SomeGame::Hex(after)) => game.played(
                turn,
                &after,
            ),
            _ => false,
        }
    }

    /// The board of the game.
    pub fn board(&self) -> (board: SomeBoard<'_>)
        ensures
            match (*self, board) {
                (SomeGame::Square(game), SomeBoard::Square(b)) => *b == game.board,
                (SomeGame::Hex(game), SomeBoard::Hex(b)) => *b == game.board,
                _ => false,
            },
    {
        match self {
            SomeGame::Square(game) => SomeBoard::Square(&game.board),
            SomeGame::Hex(game) => SomeBoard::Hex(&game.board),
        }
    }
}

impl From<GameRaw<Board>> for SomeGame {
    fn from(value: GameRaw<Board>) -> (game: SomeGame) {
        SomeGame::Square(value)
    }
}

impl vstd::std_specs::convert::FromSpecImpl<GameRaw<Board>> for SomeGame {
    open spec fn obeys_from_spec() -> bool {
        true
    }

    open spec fn from_spec(value: GameRaw<Board>) -> SomeGame {
        SomeGame::Square(value)
    }
}

impl From<GameRaw<Hexboard>> for SomeGame {
    fn from(value: GameRaw<Hexboard>) -> (game: SomeGame) {
        SomeGame::Hex(value)
    }
}

impl vstd::std_specs::convert::FromSpecImpl<GameRaw<Hexboard>> for SomeGame {
    open spec fn obeys_from_spec() -> bool {
        true
    }

    open spec fn from_spec(value: GameRaw<Hexboard>) -> SomeGame {
        SomeGame::Hex(value)
    }
}

/// A game between two participants: who made it, who joined, the game
/// itself, and the side that the maker plays. The joiner plays the other
/// side; one participant may be both.
#[derive(Debug, Clone, PartialEq, Eq)]
pub struct Game {
    pub maker: Player,
    pub joiner: Player,
    pub some_game: SomeGame,
    pub maker_color: Color,
}

impl Game {
    /// Whether the game is well formed.
    pub open spec fn wf(&self) -> bool {
        self.some_game.wf()
    }

    /// The sides that a participant controls: the maker's side if the
    /// participant has the maker's identity, and the other side if the
    /// participant has the joiner's.
    pub open spec fn spec_player(&self, player: &Player) -> Set<Color> {
        Set::new(
            |c: Color|
                (self.maker.id == player.id && c == self.maker_color) || (self.joiner.id
                    == player.id && c == self.maker_color.spec_other()),
        )
    }

    /// The side that is to move.
    pub open spec fn spec_turn(&self) -> Color {
        self.some_game.spec_turn()
    }

    /// Why a turn of a participant is turned down, if it is: the participant
    /// does not control the side that is to move, or the game turns the turn
    /// down.
    pub open spec fn turn_error(&self, player: &Player, turn: SomeTurn) -> Option<TurnError> {
        if !self.spec_player(player).contains(self.spec_turn()) {
            Some(TurnError::NotYourTurn)
        } else {
            self.some_game.turn_error(turn)
        }
    }

    /// Whether the game is well formed.
    pub fn well_formed(&self) -> (ok: bool)
        ensures
            ok == self.wf(),
    {
        match &self.some_game {
            SomeGame::Square(game) => game.well_formed(),
            SomeGame::Hex(game) => game.well_formed(),
        }
    }

    /// The pieces that a pawn may be promoted to.
    pub fn mk_promotion_pieces() -> (pieces: [Piece; 4])
        ensures
            pieces@ == promotion_pieces(),
    {
        let pieces = [Piece::Queen, Piece::Knight, Piece::Rook { moved: true }, Piece::Bishop];
        assert(pieces@ =~= promotion_pieces());
        pieces
    }

    /// The sides that a participant controls.
    pub fn player(&self, player: &Player) -> (sides: PlayerColor)
        ensures
            sides.colors() == self.spec_player(player),
    {
        let mut result = PlayerColor::default();
        if self.maker.same_id(player) {
            result = result.push(self.maker_color);
        }
        if self.joiner.same_id(player) {
            result = result.push(self.maker_color.other());
        }
        assert(result.colors() =~= self.spec_player(player));
        result
    }

    /// Who has won: the side whose opponent has no king on the board.
    pub fn game_over(&self) -> (won: Option<Color>)
        ensures
            won == winner(self.some_game.cells()),
    {
        match &self.some_game {
            SomeGame::Square(game) => game.game_over(),
            SomeGame::Hex(game) => game.game_over(),
        }
    }

    /// The side that is to move: White before an even number of turns, Black
    /// before an odd one.
    pub fn turn(&self) -> (color: Color)
        ensures
            color == self.spec_turn(),
            color == Color::White <==> self.some_game.turn_count() % 2 == 0,
    {
        match &self.some_game {
            SomeGame::Square(game) => game.turn(),
            SomeGame::Hex(game) => game.turn(),
        }
    }

    /// Whether a participant controls the side that is to move.
    pub fn is_player_turn(&self, player: &Player) -> (theirs: bool)
        ensures
            theirs == self.spec_player(player).contains(self.spec_turn()),
    {
        let color = self.turn();
        self.player(player).contains(&color)
    }

    /// Plays a turn for a participant.
    ///
    /// The turn is accepted exactly if the participant controls the side
    /// that is to move, the turn is for the board of the game, its action is
    /// legal and the square for the duck is empty once the action is done. A
    /// turn that is not accepted leaves the game as it was.
    pub fn apply_turn(&mut self, player: &Player, turn: SomeTurn) -> (done: Result<(), TurnError>)
        requires
            old(self).wf(),
        ensures
            done == match old(self).turn_error(player, turn) {
                Some(e) => Err::<(), TurnError>(e),
                None => Ok(()),
            },
            done is Ok ==> old(self).some_game.played(turn, &final(self).some_game),
            done is Ok ==> final(self).wf(),
            done is Err ==> *final(self) == *old(self),
            final(self).maker == old(self).maker,
            final(self).joiner == old(self).joiner,
            final(self).maker_color == old(self).maker_color,
    {
        if !self.is_player_turn(player) {
            return Err(TurnError::NotYourTurn);
        }
        match (&mut self.some_game, turn) {
            (SomeGame::Square(game), SomeTurn::Square(turn)) => game.apply_turn(turn),
            (SomeGame::Hex(game), SomeTurn::Hex(turn)) => game.apply_turn(turn),
            _ => Err(TurnError::InvalidAction),
        }
    }
}

/// The kind of board on which a game is played.
#[derive(Copy, Debug, Clone, PartialEq, Eq, Structural)]
pub enum GameTypes {
    Square,
    Hex,
}

impl GameTypes {
    /// A game of this kind at its start.
    pub fn mk_game(&self, maker: Player, joiner: Player, maker_color: Color) -> (game: Game)
        ensures
            game.maker == maker,
            game.joiner == joiner,
            game.maker_color == maker_color,
            game.wf(),
            game.some_game.turn_count() == 0,
            match (*self, game.some_game) {
                (GameTypes::Square, SomeGame::Square(raw)) => raw.cells() == Board::start()
                    && raw.duck_loc is None,
                (GameTypes::Hex, SomeGame::Hex(raw)) => raw.cells() == Hexboard::start()
                    && raw.duck_loc is None,
                _ => false,
            },
    {
        match self {
            GameTypes::Square => Game {
                maker,
                joiner,
                maker_color,
                some_game: SomeGame::Square(GameRaw::empty_board()),
            },
            GameTypes::Hex => Game {
                maker,
                joiner,
                maker_color,
                some_game: SomeGame::Hex(GameRaw::empty_board()),
            },
        }
    }
}

} // verus!
