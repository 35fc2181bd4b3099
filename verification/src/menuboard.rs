//! The one-row board that offers a pawn's promotion choices.

use vstd::prelude::*;
use crate::pieces::Square;

verus! {

/// A row of squares to choose from. It is shown to the player and is no part
/// of a game.
#[derive(Debug, Hash, Clone, PartialEq, Eq)]
pub struct MenuBoard {
    pub grid: Vec<Square>,
}

impl MenuBoard {
    pub fn new(pieces: Vec<Square>) -> (menu: MenuBoard)
        ensures
            menu.grid == pieces,
    {
        MenuBoard { grid: pieces }
    }
}

} // verus!
