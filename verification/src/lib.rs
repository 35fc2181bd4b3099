//! Rule engine for duck chess on square and hexagonal boards.
//!
//! Duck chess is chess with one extra marker, the duck: after every action the
//! mover places the duck on an empty square, which nobody can enter until the
//! duck has moved again. There is no check; a side loses when its king is
//! captured.
//!
//! The engine is written once against the [`ChessBoard`] capability and runs
//! unchanged on the square grid ([`Board`]) and the hexagonal grid
//! ([`Hexboard`]).

pub mod action;
pub mod actionmap;
pub mod board;
pub mod boardfocus;
pub mod chessboard;
pub mod game;
pub mod hexboard;
pub mod laws;
pub mod menuboard;
pub mod offset;
pub mod pieces;
pub mod player;
pub mod record;
pub mod rules;

pub use action::{ActionRaw, SingleAction};
pub use actionmap::ActionMap;
pub use board::{Action, Actions, Board, BoardIter, Loc, Rel, Side};
pub use chessboard::ChessBoard;
pub use game::{Game, GameRaw, GameTypes, SomeBoard, SomeGame, SomeTurn, Turn, TurnError, TurnRaw};
pub use hexboard::{Coord, Dir, DirHexIter, HexIter, Hexboard};
pub use menuboard::MenuBoard;
pub use offset::{Castle, Offset, RelIter};
pub use pieces::{Color, Piece, PlayerColor, Square};
pub use player::{Player, PlayerId};
pub use record::{GameOrRequest, GameRequest, Notice, PlayError, Played};
