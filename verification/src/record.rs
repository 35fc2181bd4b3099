//! Game records as a server keeps them: open requests, running games and
//! completed games, and what a submitted turn does to a record.

use vstd::prelude::*;
use crate::board::Board;
use crate::chessboard::ChessBoard;
use crate::game::{Game, GameTypes, SomeGame, SomeTurn, TurnError};
use crate::hexboard::Hexboard;
use crate::pieces::Color;
use crate::player::{Player, PlayerId};
use crate::rules::winner;

verus! {

/// An open request for a game: the kind of board and who asks.
#[derive(Debug, Clone)]
pub struct GameRequest {
    pub game_type: GameTypes,
    pub maker: Player,
}

/// Draws a lot by a call of `rand::random::<bool>()`. Nothing is claimed of
/// the outcome.
#[verifier::external_body]
fn toss() -> (heads: bool) {
    rand::random::<bool>()
}

impl GameRequest {
    /// The game that starts when a participant joins the request. The maker
    /// plays White if `maker_first` is set and Black if not.
    pub fn accept(self, joiner: Player, maker_first: bool) -> (game: Game)
        ensures
            game.maker == self.maker,
            game.joiner == joiner,
            game.maker_color == if maker_first {
                Color::White
            } else {
                Color::Black
            },
            game.wf(),
            game.some_game.turn_count() == 0,
            match (self.game_type, game.some_game) {
                (GameTypes::Square, SomeGame::Square(raw)) => raw.cells() == Board::start()
                    && raw.duck_loc is None,
                (GameTypes::Hex, SomeGame::Hex(raw)) => raw.cells() == Hexboard::start()
                    && raw.duck_loc is None,
                _ => false,
            },
    {
        let maker_color = if maker_first {
            Color::White
        } else {
            Color::Black
        };
        self.game_type.mk_game(self.maker, joiner, maker_color)
    }

    /// The game that starts when a participant joins the request, with the
    /// sides drawn by lot.
    pub fn accept_by_lot(self, joiner: Player) -> (game: Game)
        ensures
            game.maker == self.maker,
            game.joiner == joiner,
            game.wf(),
            game.some_game.turn_count() == 0,
            match (self.game_type, game.some_game) {
                (GameTypes::Square, SomeGame::Square(raw)) => raw.cells() == Board::start()
                    && raw.duck_loc is None,
                (GameTypes::Hex, SomeGame::Hex(raw)) => raw.cells() == Hexboard::start()
                    && raw.duck_loc is None,
                _ => false,
            },
    {
        let maker_first = toss();
        self.accept(joiner, maker_first)
    }
}

/// A record of the store: a running game, a completed game, or an open
/// request.
#[derive(Debug, Clone)]
pub enum GameOrRequest {
    Game(Game),
    Completed(Game),
    Request(GameRequest),
}

/// What a participant is told after a turn.
#[derive(Debug, Copy, Clone, PartialEq, Eq, Structural)]
pub enum Notice {
    YourTurn,
    GameEnded,
}

impl Notice {
    /// The text of the notice.
    pub open spec fn spec_text(self) -> Seq<char> {
        match self {
            Notice::YourTurn => "It's your turn in a Duck Chess game!"@,
            Notice::GameEnded => "A Duck Chess game has ended!"@,
        }
    }

    pub fn text(&self) -> (text: &'static str)
        ensures
            text@ == self.spec_text(),
    {
        match self {
            Notice::YourTurn => "It's your turn in a Duck Chess game!",
            Notice::GameEnded => "A Duck Chess game has ended!",
        }
    }
}

/// Why a turn on a record is turned down.
#[derive(Debug, Copy, Clone, PartialEq, Eq, Structural)]
pub enum PlayError {
    /// The record is no running game.
    NotAGame,
    /// The game turns the turn down.
    Turn(TurnError),
}

/// The outcome of a turn on a record: the record to store, whom to tell, and
/// what.
#[derive(Debug, Clone)]
pub struct Played {
    pub record: GameOrRequest,
    pub notify: Option<PlayerId>,
    pub notice: Notice,
}

impl Played {
    /// Whether this is the outcome of a turn on a running game.
    ///
    /// The record holds the game after the turn, as completed if the turn has
    /// left a side without its king and as running if not. The participant
    /// whose side is to move next is told: that the game has ended, or that
    /// it is their turn.
    pub open spec fn follows(&self, game: &Game, turn: SomeTurn) -> bool {
        let next = match self.record {
            GameOrRequest::Game(next) => next,
            GameOrRequest::Completed(next) => next,
            GameOrRequest::Request(_) => *game,
        };
        let ended = winner(next.some_game.cells()) is Some;
        &&& !(self.record is Request)
        &&& self.record is Completed <==> ended
        &&& game.some_game.played(turn, &next.some_game)
        &&& next.maker == game.maker
        &&& next.joiner == game.joiner
        &&& next.maker_color == game.maker_color
        &&& self.notify == if next.spec_turn() == next.maker_color {
            next.maker.id
        } else {
            next.joiner.id
        }
        &&& self.notice == if ended {
            Notice::GameEnded
        } else {
            Notice::YourTurn
        }
    }
}

impl GameOrRequest {
    /// Whether a participant may follow the record: a request is open to
    /// all, a game to its maker and its joiner.
    pub open spec fn spec_in_game(&self, player: &Player) -> bool {
        match self {
            GameOrRequest::Game(game) => player.spec_same(&game.maker) || player.spec_same(
                &game.joiner,
            ),
            GameOrRequest::Completed(game) => player.spec_same(&game.maker) || player.spec_same(
                &game.joiner,
            ),
            GameOrRequest::Request(_) => true,
        }
    }

    pub fn in_game(&self, player: &Player) -> (allowed: bool)
        ensures
            allowed == self.spec_in_game(player),
    {
        match self {
            GameOrRequest::Game(game) => player.same(&game.maker) || player.same(&game.joiner),
            GameOrRequest::Completed(game) => player.same(&game.maker) || player.same(&game.joiner),
            GameOrRequest::Request(_) => true,
        }
    }

    /// Plays a turn of a participant on the record.
    ///
    /// Only a running game takes a turn. The turn is accepted exactly if the
    /// game accepts it.
    pub fn play(self, player: &Player, turn: SomeTurn) -> (done: Result<Played, PlayError>)
        requires
            self matches GameOrRequest::Game(game) ==> game.wf(),
        ensures
            match self {
                GameOrRequest::Game(game) => match game.turn_error(player, turn) {
                    Some(e) => done == Err::<Played, PlayError>(PlayError::Turn(e)),
                    None => done matches Ok(played) && played.follows(&game, turn),
                },
                _ => done == Err::<Played, PlayError>(PlayError::NotAGame),
            },
    {
        match self {
            GameOrRequest::Game(mut game) => {
                match game.apply_turn(player, turn) {
                    Ok(()) => {},
                    Err(e) => {
                        return Err(PlayError::Turn(e));
                    },
                }
                let notify = if game.turn() == game.maker_color {
                    game.maker.id
                } else {
                    game.joiner.id
                };
                if game.game_over().is_none() {
                    Ok(Played { record: GameOrRequest::Game(game), notify, notice: Notice::YourTurn })
                } else {
                    Ok(
                        Played {
                            record: GameOrRequest::Completed(game),
                            notify,
                            notice: Notice::GameEnded,
                        },
                    )
                }
            },
            _ => Err(PlayError::NotAGame),
        }
    }
}

} // verus!
