//! Laws of the game, proved from the rules of movement.

use vstd::prelude::*;
use crate::action::{ActionRawView, SingleActionView};
use crate::chessboard::{cell_at, ChessBoard};
use crate::game::{lemma_applied_brings_no_duck, with_duck, GameRaw, TurnError, TurnRaw};
use crate::offset::{lemma_times_succ, minus, plus, times, CastleView};
use crate::pieces::{Color, Piece, Square};
use crate::rules::{
    applied, can_enter, castle_map, has_king, holds_enemy, is_empty, legal_actions, passing_map,
    pawn_map, piece_actions, promotion_pieces, ray_hits, ray_map, ray_reaches, slide_hits,
    slide_map, unpassanted, winner, within,
};

verus! {

/// At most one square of a well-formed game holds the duck.
pub proof fn lemma_at_most_one_duck<B: ChessBoard>(game: &GameRaw<B>, p: (int, int), q: (int, int))
    requires
        game.wf(),
        cell_at(game.cells(), p) == Some(Square::Duck),
        cell_at(game.cells(), q) == Some(Square::Duck),
    ensures
        p == q,
{
    assert(game.duck_point() == Some(p));
    assert(game.duck_point() == Some(q));
}

/// A turn keeps the duck single: where no square but the duck's own held the
/// duck before, the only square that holds it after the turn is the one on
/// which the turn has put it down.
pub proof fn lemma_turn_keeps_one_duck<B: ChessBoard>(
    cells: Map<(int, int), Square>,
    duck: Option<(int, int)>,
    origin: (int, int),
    color: Color,
    action: SingleActionView,
    duck_to: (int, int),
    p: (int, int),
)
    requires
        forall|q: (int, int)| cell_at(cells, q) == Some(Square::Duck) ==> duck == Some(q),
        cell_at(with_duck(applied::<B>(cells, origin, color, action), duck, duck_to), p) == Some(
            Square::Duck,
        ),
    ensures
        p == duck_to,
{
    let moved = applied::<B>(cells, origin, color, action);
    if p != duck_to {
        assert(cell_at(moved, p) == Some(Square::Duck));
        lemma_applied_brings_no_duck::<B>(cells, origin, color, action, p);
        assert(duck == Some(p));
    }
}

/// A sliding piece with a piece of the other side `k` steps away and nothing
/// but empty squares before it may go to exactly the `k` squares up to and
/// including that piece's square.
pub proof fn lemma_ray_ends_with_capture(
    cells: Map<(int, int), Square>,
    origin: (int, int),
    color: Color,
    dir: (int, int),
    k: int,
    piece: Piece,
    p: (int, int),
)
    requires
        k >= 1,
        forall|j: int| 1 <= j < k ==> is_empty(cells, plus(origin, #[trigger] times(dir, j))),
        holds_enemy(cells, color, plus(origin, times(dir, k))),
    ensures
        ray_map(cells, origin, color, dir, None, piece).dom().contains(p) <==> exists|j: int|
            1 <= j <= k && p == plus(origin, #[trigger] times(dir, j)),
{
    if ray_hits(cells, origin, color, dir, None, p) {
        let n = choose|n: int|
            within(None, n) && #[trigger] ray_reaches(cells, origin, color, dir, n) && p == plus(
                origin,
                times(dir, n),
            );
        if n > k {
            assert(is_empty(cells, plus(origin, times(dir, k))));
        }
        assert(1 <= n <= k && p == plus(origin, times(dir, n)));
    }
    if exists|j: int| 1 <= j <= k && p == plus(origin, #[trigger] times(dir, j)) {
        let j = choose|j: int| 1 <= j <= k && p == plus(origin, #[trigger] times(dir, j));
        assert(ray_reaches(cells, origin, color, dir, j));
        assert(within(None, j));
    }
}

/// A sliding piece stops before the first square that it cannot enter: a
/// piece of its own side, the duck, or the edge of the board `k` steps away
/// leaves it exactly the `k - 1` empty squares before.
pub proof fn lemma_ray_stops_before_block(
    cells: Map<(int, int), Square>,
    origin: (int, int),
    color: Color,
    dir: (int, int),
    k: int,
    piece: Piece,
    p: (int, int),
)
    requires
        k >= 1,
        forall|j: int| 1 <= j < k ==> is_empty(cells, plus(origin, #[trigger] times(dir, j))),
        !can_enter(cells, color, plus(origin, times(dir, k))),
    ensures
        ray_map(cells, origin, color, dir, None, piece).dom().contains(p) <==> exists|j: int|
            1 <= j < k && p == plus(origin, #[trigger] times(dir, j)),
        !ray_map(cells, origin, color, dir, None, piece).dom().contains(
            plus(origin, times(dir, k)),
        ),
{
    let blocked = plus(origin, times(dir, k));
    assert forall|q: (int, int)| ray_hits(cells, origin, color, dir, None, q) implies exists|j: int|
        1 <= j < k && q == plus(origin, #[trigger] times(dir, j)) by {
        let n = choose|n: int|
            within(None, n) && #[trigger] ray_reaches(cells, origin, color, dir, n) && q == plus(
                origin,
                times(dir, n),
            );
        if n > k {
            assert(is_empty(cells, plus(origin, times(dir, k))));
        }
        assert(1 <= n < k && q == plus(origin, times(dir, n)));
    }
    if exists|j: int| 1 <= j < k && p == plus(origin, #[trigger] times(dir, j)) {
        let j = choose|j: int| 1 <= j < k && p == plus(origin, #[trigger] times(dir, j));
        assert(ray_reaches(cells, origin, color, dir, j));
        assert(within(None, j));
    }
    if ray_hits(cells, origin, color, dir, None, blocked) {
        let j = choose|j: int| 1 <= j < k && blocked == plus(origin, #[trigger] times(dir, j));
        assert(is_empty(cells, plus(origin, times(dir, j))));
    }
}

/// After any action the only pawn that can be captured in passing is the one
/// that the action has just put down with its flag up.
pub proof fn lemma_flags_last_one_action<B: ChessBoard>(
    cells: Map<(int, int), Square>,
    origin: (int, int),
    color: Color,
    action: SingleActionView,
    p: (int, int),
)
    requires
        cell_at(applied::<B>(cells, origin, color, action), p) matches Some(
            Square::Piece(_, Piece::Pawn { passantable: true }),
        ),
    ensures
        action matches SingleActionView::Move(rel, Piece::Pawn { passantable: true }) && p == plus(
            origin,
            rel,
        ),
        cell_at(applied::<B>(cells, origin, color, action), p) == Some(
            Square::Piece(color, Piece::Pawn { passantable: true }),
        ),
{
    let base = unpassanted(cells);
    assert(base.dom() =~= cells.dom());
    if cells.dom().contains(p) {
        assert(base[p] == cells[p].unpassanted());
    }
}

/// A capture in passing is legal after an action only if that action put
/// down, with its flag up, the very pawn that is captured: the window closes
/// with the next action, whatever it is.
pub proof fn lemma_en_passant_window<B: ChessBoard>(
    cells: Map<(int, int), Square>,
    origin: (int, int),
    color: Color,
    action: SingleActionView,
    hunter: (int, int),
    hunter_color: Color,
    target: (int, int),
)
    requires
        passing_map(
            applied::<B>(cells, origin, color, action),
            hunter,
            hunter_color,
            B::capture_vectors(hunter_color),
            B::forward_vector(hunter_color.spec_other()),
        ).dom().contains(target),
    ensures
        hunter_color != color,
        action matches SingleActionView::Move(rel, Piece::Pawn { passantable: true }) && plus(
            origin,
            rel,
        ) == plus(target, B::forward_vector(hunter_color.spec_other())),
{
    let taken = plus(target, B::forward_vector(hunter_color.spec_other()));
    lemma_flags_last_one_action::<B>(cells, origin, color, action, taken);
}

/// Every offer of a piece that a plain move takes up stands under the square
/// to which the move leads.
pub proof fn lemma_moves_are_keyed_by_target<B: ChessBoard>(
    cells: Map<(int, int), Square>,
    origin: (int, int),
    color: Color,
    piece: Piece,
    p: (int, int),
    rel: (int, int),
    to: Piece,
)
    requires
        piece_actions::<B>(cells, origin, color, piece).dom().contains(p),
        piece_actions::<B>(cells, origin, color, piece)[p].contains(
            SingleActionView::Move(rel, to),
        ),
    ensures
        p == plus(origin, rel),
{
    match piece {
        Piece::King { moved } => {
            if castle_map(cells, origin, color, moved, B::castlings()).dom().contains(p) {
                lemma_castle_map_offers(cells, origin, color, moved, B::castlings(), p);
            }
        },
        Piece::Pawn { .. } => {
            let forward = B::forward_vector(color);
            lemma_times_succ(forward, 1);
        },
        _ => {},
    }
}

/// Every offer of the castling map is a castling.
pub proof fn lemma_castle_map_offers(
    cells: Map<(int, int), Square>,
    origin: (int, int),
    color: Color,
    king_moved: bool,
    castles: Seq<CastleView>,
    p: (int, int),
)
    requires
        castle_map(cells, origin, color, king_moved, castles).dom().contains(p),
    ensures
        castle_map(cells, origin, color, king_moved, castles)[p] matches ActionRawView::Just(
            SingleActionView::Castle(_),
        ),
    decreases castles.len(),
{
    if castles.len() > 0 {
        let front = castles.drop_last();
        if castle_map(cells, origin, color, king_moved, front).dom().contains(p) {
            lemma_castle_map_offers(cells, origin, color, king_moved, front, p);
        }
    }
}

/// A pawn enters its promotion zone only as one of the four pieces that it
/// may be promoted to: a move there that ends as any other piece is no legal
/// action.
pub proof fn lemma_promotion_needs_choice<B: ChessBoard>(
    cells: Map<(int, int), Square>,
    origin: (int, int),
    turn: Color,
    rel: (int, int),
    to: Piece,
)
    requires
        cell_at(cells, origin) matches Some(Square::Piece(c, Piece::Pawn { .. })) && c == turn,
        B::is_promotion(turn, plus(origin, rel)),
        exists|p: (int, int)|
            legal_actions::<B>(cells, origin, turn).dom().contains(p) && (#[trigger] legal_actions::<
                B,
            >(cells, origin, turn)[p]).contains(SingleActionView::Move(rel, to)),
    ensures
        promotion_pieces().contains(to),
{
    let legal = legal_actions::<B>(cells, origin, turn);
    let p = choose|p: (int, int)|
        legal.dom().contains(p) && (#[trigger] legal[p]).contains(SingleActionView::Move(rel, to));
    let piece = cell_at(cells, origin)->0->1;
    lemma_moves_are_keyed_by_target::<B>(cells, origin, turn, piece, p, rel, to);
}

/// Where a pawn can go to a square of its promotion zone, it may go there as
/// each of the four pieces that it may be promoted to.
pub proof fn lemma_promotion_offers_choice<B: ChessBoard>(
    cells: Map<(int, int), Square>,
    origin: (int, int),
    turn: Color,
    rel: (int, int),
    to: Piece,
)
    requires
        cell_at(cells, origin) matches Some(Square::Piece(c, Piece::Pawn { .. })) && c == turn,
        B::is_promotion(turn, plus(origin, rel)),
        pawn_map::<B>(cells, origin, turn).dom().contains(plus(origin, rel)),
        pawn_map::<B>(cells, origin, turn)[plus(origin, rel)] matches ActionRawView::Just(
            SingleActionView::Move(_, _),
        ),
        promotion_pieces().contains(to),
    ensures
        legal_actions::<B>(cells, origin, turn).dom().contains(plus(origin, rel)),
        legal_actions::<B>(cells, origin, turn)[plus(origin, rel)].contains(
            SingleActionView::Move(rel, to),
        ),
{
    let forward = B::forward_vector(turn);
    lemma_times_succ(forward, 1);
    let p = plus(origin, rel);
    assert(minus(p, origin) == rel);
}

/// Writing an empty square or the duck brings no king onto the board.
pub proof fn lemma_duck_brings_no_king(
    cells: Map<(int, int), Square>,
    prior: Option<(int, int)>,
    to: (int, int),
    color: Color,
)
    requires
        has_king(with_duck(cells, prior, to), color),
    ensures
        has_king(cells, color),
{
    let after = with_duck(cells, prior, to);
    let p = choose|p: (int, int)| after.dom().contains(p) && (#[trigger] after[p]).spec_is_king(color);
    assert(cells.dom().contains(p) && cells[p].spec_is_king(color));
}

/// A move onto the square of the last king of the other side ends the game:
/// after the turn that side has no king, so the query for the winner names a
/// winner at once, and it names the mover if the mover still has a king.
pub proof fn lemma_king_capture_wins<B: ChessBoard>(
    cells: Map<(int, int), Square>,
    origin: (int, int),
    color: Color,
    rel: (int, int),
    piece: Piece,
    prior_duck: Option<(int, int)>,
    duck_to: (int, int),
)
    requires
        cells.dom().contains(plus(origin, rel)),
        forall|q: (int, int)|
            cells.dom().contains(q) && (#[trigger] cells[q]).spec_is_king(color.spec_other()) ==> q
                == plus(origin, rel),
    ensures
        !has_king(
            with_duck(
                applied::<B>(cells, origin, color, SingleActionView::Move(rel, piece)),
                prior_duck,
                duck_to,
            ),
            color.spec_other(),
        ),
        winner(
            with_duck(
                applied::<B>(cells, origin, color, SingleActionView::Move(rel, piece)),
                prior_duck,
                duck_to,
            ),
        ) is Some,
        has_king(
            with_duck(
                applied::<B>(cells, origin, color, SingleActionView::Move(rel, piece)),
                prior_duck,
                duck_to,
            ),
            color,
        ) ==> winner(
            with_duck(
                applied::<B>(cells, origin, color, SingleActionView::Move(rel, piece)),
                prior_duck,
                duck_to,
            ),
        ) == Some(color),
{
    let other = color.spec_other();
    let moved = applied::<B>(cells, origin, color, SingleActionView::Move(rel, piece));
    let after = with_duck(moved, prior_duck, duck_to);
    let base = unpassanted(cells);
    assert(base.dom() =~= cells.dom());
    if has_king(after, other) {
        lemma_duck_brings_no_king(moved, prior_duck, duck_to, other);
        let q = choose|q: (int, int)| moved.dom().contains(q) && (#[trigger] moved[q]).spec_is_king(other);
        assert(cells.dom().contains(q));
        assert(base[q] == cells[q].unpassanted());
        if q != plus(origin, rel) && q != origin {
            assert(moved[q] == base[q]);
            assert(cells[q].spec_is_king(other));
        }
    }
}

/// A legal plain move names the piece as it is after the move: a king or a
/// rook has moved, a queen, bishop or knight is what it was, and a pawn has
/// its flag up only after two steps forward from a home square.
pub proof fn lemma_legal_move_sets_flags<B: ChessBoard>(
    cells: Map<(int, int), Square>,
    origin: (int, int),
    color: Color,
    piece: Piece,
    p: (int, int),
    rel: (int, int),
    to: Piece,
)
    requires
        piece_actions::<B>(cells, origin, color, piece).dom().contains(p),
        piece_actions::<B>(cells, origin, color, piece)[p] == ActionRawView::Just(
            SingleActionView::Move(rel, to),
        ),
    ensures
        match piece {
            Piece::King { .. } => to == Piece::King { moved: true },
            Piece::Rook { .. } => to == Piece::Rook { moved: true },
            Piece::Pawn { .. } => {
                &&& to matches Piece::Pawn { .. }
                &&& to == Piece::Pawn { passantable: true } ==> rel == times(
                    B::forward_vector(color),
                    2,
                ) && B::is_home(color, origin)
            },
            _ => to == piece,
        },
{
    match piece {
        Piece::King { moved } => {
            if castle_map(cells, origin, color, moved, B::castlings()).dom().contains(p) {
                lemma_castle_map_offers(cells, origin, color, moved, B::castlings(), p);
            }
        },
        _ => {},
    }
}

/// No legal action but a castling leads onto the duck: every other offer
/// stands under a square that is empty or holds a piece of the other side.
pub proof fn lemma_offers_spare_the_duck<B: ChessBoard>(
    cells: Map<(int, int), Square>,
    origin: (int, int),
    color: Color,
    piece: Piece,
    p: (int, int),
)
    requires
        piece_actions::<B>(cells, origin, color, piece).dom().contains(p),
        !(piece_actions::<B>(cells, origin, color, piece)[p] matches ActionRawView::Just(
            SingleActionView::Castle(_),
        )),
    ensures
        can_enter(cells, color, p),
{
    match piece {
        Piece::King { moved } => {
            let kings = Piece::King { moved: true };
            if castle_map(cells, origin, color, moved, B::castlings()).dom().contains(p) {
                lemma_castle_map_offers(cells, origin, color, moved, B::castlings(), p);
            }
            lemma_slide_enters(cells, origin, color, B::rook_vectors(), Some(1int), kings, p);
            lemma_slide_enters(cells, origin, color, B::bishop_vectors(), Some(1int), kings, p);
        },
        Piece::Queen => {
            lemma_slide_enters(cells, origin, color, B::rook_vectors(), None, piece, p);
            lemma_slide_enters(cells, origin, color, B::bishop_vectors(), None, piece, p);
        },
        Piece::Rook { .. } => {
            lemma_slide_enters(
                cells,
                origin,
                color,
                B::rook_vectors(),
                None,
                Piece::Rook { moved: true },
                p,
            );
        },
        Piece::Bishop => {
            lemma_slide_enters(cells, origin, color, B::bishop_vectors(), None, piece, p);
        },
        _ => {},
    }
}

/// A sliding piece gets only to squares that it can enter.
pub proof fn lemma_slide_enters(
    cells: Map<(int, int), Square>,
    origin: (int, int),
    color: Color,
    dirs: Seq<(int, int)>,
    limit: Option<int>,
    piece: Piece,
    p: (int, int),
)
    ensures
        slide_map(cells, origin, color, dirs, limit, piece).dom().contains(p) ==> can_enter(
            cells,
            color,
            p,
        ),
{
    if slide_hits(cells, origin, color, dirs, limit, p) {
        let i = choose|i: int|
            0 <= i < dirs.len() && ray_hits(cells, origin, color, #[trigger] dirs[i], limit, p);
        let n = choose|n: int|
            within(limit, n) && #[trigger] ray_reaches(cells, origin, color, dirs[i], n) && p
                == plus(origin, times(dirs[i], n));
    }
}

/// A turn that moves a pawn into its promotion zone as a piece that is none
/// of the four is turned down as no legal action.
pub proof fn lemma_promotion_gate<B: ChessBoard>(
    game: &GameRaw<B>,
    turn: TurnRaw<B>,
    rel: (int, int),
    to: Piece,
)
    requires
        cell_at(game.cells(), B::point(turn.from)) matches Some(
            Square::Piece(c, Piece::Pawn { .. }),
        ) && c == game.spec_turn(),
        turn.action@ == SingleActionView::Move(rel, to),
        B::is_promotion(game.spec_turn(), plus(B::point(turn.from), rel)),
        !promotion_pieces().contains(to),
    ensures
        game.turn_error(turn) == Some(TurnError::InvalidAction),
{
    if game.action_is_legal(turn) {
        lemma_promotion_needs_choice::<B>(
            game.cells(),
            B::point(turn.from),
            game.spec_turn(),
            rel,
            to,
        );
    }
}

/// A turn that moves a pawn to a square of its promotion zone that it can go
/// to, as one of the four pieces, is accepted as soon as the square for the
/// duck is empty.
pub proof fn lemma_promotion_passes<B: ChessBoard>(
    game: &GameRaw<B>,
    turn: TurnRaw<B>,
    rel: (int, int),
    to: Piece,
)
    requires
        cell_at(game.cells(), B::point(turn.from)) matches Some(
            Square::Piece(c, Piece::Pawn { .. }),
        ) && c == game.spec_turn(),
        turn.action@ == SingleActionView::Move(rel, to),
        B::is_promotion(game.spec_turn(), plus(B::point(turn.from), rel)),
        pawn_map::<B>(game.cells(), B::point(turn.from), game.spec_turn()).dom().contains(
            plus(B::point(turn.from), rel),
        ),
        pawn_map::<B>(game.cells(), B::point(turn.from), game.spec_turn())[plus(
            B::point(turn.from),
            rel,
        )] matches ActionRawView::Just(SingleActionView::Move(_, _)),
        promotion_pieces().contains(to),
        game.duck_is_valid(turn),
    ensures
        game.turn_error(turn) is None,
{
    lemma_promotion_offers_choice::<B>(
        game.cells(),
        B::point(turn.from),
        game.spec_turn(),
        rel,
        to,
    );
    let legal = legal_actions::<B>(game.cells(), B::point(turn.from), game.spec_turn());
    let p = plus(B::point(turn.from), rel);
    assert(legal.dom().contains(p) && legal[p].contains(turn.action@));
}

} // verus!
