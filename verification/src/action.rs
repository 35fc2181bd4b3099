//! The actions that a piece can take, as submitted and as offered.

use vstd::prelude::*;
use crate::offset::{Castle, CastleView, Offset};
use crate::pieces::Piece;

verus! {

/// One complete action, as a player submits it.
///
/// Offsets are counted from the square of the piece that acts.
#[derive(Debug, Hash, Copy, Clone, PartialEq, Eq)]
pub enum SingleAction<R> {
    /// The piece goes to the square at the offset and is from then on the
    /// given piece: a king or rook with `moved` set, a pawn with its
    /// `passantable` flag, or the piece that a pawn is promoted to.
    Move(R, Piece),
    /// A pawn captures in passing and lands on the square at the offset.
    EnPassant(R),
    /// King and rook castle.
    Castle(Castle<R>),
}

/// What a [`SingleAction`] stands for, over pairs of integers.
pub enum SingleActionView {
    Move((int, int), Piece),
    EnPassant((int, int)),
    Castle(CastleView),
}

impl<R: Offset> SingleAction<R> {
    pub open spec fn view(self) -> SingleActionView {
        match self {
            SingleAction::Move(rel, piece) => SingleActionView::Move(rel.vector(), piece),
            SingleAction::EnPassant(rel) => SingleActionView::EnPassant(rel.vector()),
            SingleAction::Castle(castle) => SingleActionView::Castle(castle@),
        }
    }

    /// Whether two actions are the same action.
    pub fn same(&self, other: &Self) -> (equal: bool)
        ensures
            equal == (self@ == other@),
    {
        match (self, other) {
            (SingleAction::Move(a, p), SingleAction::Move(b, q)) => a.same(b) && *p == *q,
            (SingleAction::EnPassant(a), SingleAction::EnPassant(b)) => a.same(b),
            (SingleAction::Castle(a), SingleAction::Castle(b)) => a.same(b),
            _ => false,
        }
    }
}

/// What the move generator offers for one destination: a complete action, or
/// a pawn's move into its promotion zone, for which the player still has to
/// choose the new piece.
#[derive(Debug, Hash, Clone, PartialEq, Eq)]
pub enum ActionRaw<R> {
    Just(SingleAction<R>),
    Promotion(R, Vec<Piece>),
}

/// What an [`ActionRaw`] stands for, over pairs of integers.
pub enum ActionRawView {
    Just(SingleActionView),
    Promotion((int, int), Seq<Piece>),
}

impl ActionRawView {
    /// Whether a submitted action takes up this offer: it is the offered
    /// action itself, or a move by the offered offset that ends as one of the
    /// pieces a pawn may be promoted to.
    pub open spec fn contains(self, item: SingleActionView) -> bool {
        match self {
            ActionRawView::Just(action) => action == item,
            ActionRawView::Promotion(prom_rel, options) => item matches SingleActionView::Move(
                mov_rel,
                piece,
            ) && prom_rel == mov_rel && options.contains(piece),
        }
    }
}

impl<R: Offset> ActionRaw<R> {
    pub open spec fn view(self) -> ActionRawView {
        match self {
            ActionRaw::Just(action) => ActionRawView::Just(action@),
            ActionRaw::Promotion(rel, options) => ActionRawView::Promotion(rel.vector(), options@),
        }
    }

    /// Whether a submitted action takes up this offer.
    pub fn contains(&self, item: &SingleAction<R>) -> (found: bool)
        ensures
            found == self@.contains(item@),
    {
        match self {
            ActionRaw::Just(action) => action.same(item),
            ActionRaw::Promotion(prom_rel, options) => {
                if let SingleAction::Move(mov_rel, piece) = item {
                    prom_rel.same(mov_rel) && has_piece(options, *piece)
                } else {
                    false
                }
            },
        }
    }

    /// The offer of a plain move.
    pub fn move_it(rel: R, to: Piece) -> (offer: ActionRaw<R>)
        ensures
            offer == ActionRaw::Just(SingleAction::Move(rel, to)),
    {
        ActionRaw::Just(SingleAction::Move(rel, to))
    }

    /// The offer of a capture in passing.
    pub fn en_passant(rel: R) -> (offer: ActionRaw<R>)
        ensures
            offer == ActionRaw::Just(SingleAction::<R>::EnPassant(rel)),
    {
        ActionRaw::Just(SingleAction::EnPassant(rel))
    }

    /// The offer of a castling.
    pub fn castle(castle: Castle<R>) -> (offer: ActionRaw<R>)
        ensures
            offer == ActionRaw::Just(SingleAction::Castle(castle)),
    {
        ActionRaw::Just(SingleAction::Castle(castle))
    }

    /// A copy of the offer.
    pub fn duplicate(&self) -> (copy: ActionRaw<R>)
        ensures
            copy@ == self@,
    {
        match self {
            ActionRaw::Just(action) => ActionRaw::Just(*action),
            ActionRaw::Promotion(rel, options) => {
                let mut pieces: Vec<Piece> = Vec::new();
                let mut i: usize = 0;
                while i < options.len()
                    invariant
                        i <= options.len(),
                        pieces@ == options@.take(i as int),
                    decreases options.len() - i,
                {
                    pieces.push(options[i]);
                    assert(options@.take(i + 1) =~= options@.take(i as int).push(options@[i as int]));
                    i += 1;
                }
                assert(options@.take(options.len() as int) =~= options@);
                ActionRaw::Promotion(*rel, pieces)
            },
        }
    }
}

/// Whether a piece occurs in a list of pieces.
pub fn has_piece(pieces: &Vec<Piece>, piece: Piece) -> (found: bool)
    ensures
        found == pieces@.contains(piece),
{
    let mut i: usize = 0;
    while i < pieces.len()
        invariant
            i <= pieces.len(),
            forall|j: int| 0 <= j < i ==> pieces@[j] != piece,
        decreases pieces.len() - i,
    {
        if pieces[i] == piece {
            return true;
        }
        i += 1;
    }
    false
}

} // verus!
