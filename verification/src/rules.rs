//! The rules of movement, stated over points and maps.
//!
//! Everything here is mathematics: a board is a map from points to squares,
//! and the legal actions of a piece are a map from destinations to offers.
//! The move generator is proved against these definitions.

use vstd::prelude::*;
use crate::action::{ActionRawView, SingleActionView};
use crate::chessboard::{cell_at, written, ChessBoard};
use crate::offset::{minus, plus, times, CastleView};
use crate::pieces::{Color, Piece, Square};

verus! {

/// Whether a point is on the board and holds nothing.
pub open spec fn is_empty(cells: Map<(int, int), Square>, p: (int, int)) -> bool {
    cell_at(cells, p) == Some(Square::Empty)
}

/// Whether a point is on the board and holds a piece of the other side.
pub open spec fn holds_enemy(cells: Map<(int, int), Square>, color: Color, p: (int, int)) -> bool {
    cell_at(cells, p) matches Some(Square::Piece(c, _)) && c != color
}

/// Whether a piece of the given side may go to a point: the point is on the
/// board and is empty or holds a piece of the other side.
pub open spec fn can_enter(cells: Map<(int, int), Square>, color: Color, p: (int, int)) -> bool {
    is_empty(cells, p) || holds_enemy(cells, color, p)
}

/// Whether a point holds a pawn of the other side that has just advanced two
/// steps.
pub open spec fn holds_passing_pawn(
    cells: Map<(int, int), Square>,
    color: Color,
    p: (int, int),
) -> bool {
    cell_at(cells, p) matches Some(Square::Piece(c, Piece::Pawn { passantable: true })) && c
        != color
}

/// Whether a count of steps is within a limit; `None` is no limit.
pub open spec fn within(limit: Option<int>, k: int) -> bool {
    match limit {
        Some(n) => k <= n,
        None => true,
    }
}

/// Whether a sliding piece gets `k` steps far in a direction: the squares
/// before the `k`-th are empty and the `k`-th can be entered.
pub open spec fn ray_reaches(
    cells: Map<(int, int), Square>,
    origin: (int, int),
    color: Color,
    dir: (int, int),
    k: int,
) -> bool {
    &&& k >= 1
    &&& forall|j: int| 1 <= j < k ==> is_empty(cells, plus(origin, #[trigger] times(dir, j)))
    &&& can_enter(cells, color, plus(origin, times(dir, k)))
}

/// Whether a sliding piece gets to a point in a direction.
pub open spec fn ray_hits(
    cells: Map<(int, int), Square>,
    origin: (int, int),
    color: Color,
    dir: (int, int),
    limit: Option<int>,
    p: (int, int),
) -> bool {
    exists|k: int|
        within(limit, k) && #[trigger] ray_reaches(cells, origin, color, dir, k) && p == plus(
            origin,
            times(dir, k),
        )
}

/// The offer of a plain move from the origin to a point.
pub open spec fn move_offer(origin: (int, int), p: (int, int), piece: Piece) -> ActionRawView {
    ActionRawView::Just(SingleActionView::Move(minus(p, origin), piece))
}

/// The moves of a sliding piece in one direction.
pub open spec fn ray_map(
    cells: Map<(int, int), Square>,
    origin: (int, int),
    color: Color,
    dir: (int, int),
    limit: Option<int>,
    piece: Piece,
) -> Map<(int, int), ActionRawView> {
    Map::new(
        |p: (int, int)| ray_hits(cells, origin, color, dir, limit, p),
        |p: (int, int)| move_offer(origin, p, piece),
    )
}

/// Whether a sliding piece gets to a point in one of several directions.
pub open spec fn slide_hits(
    cells: Map<(int, int), Square>,
    origin: (int, int),
    color: Color,
    dirs: Seq<(int, int)>,
    limit: Option<int>,
    p: (int, int),
) -> bool {
    exists|i: int|
        0 <= i < dirs.len() && ray_hits(cells, origin, color, #[trigger] dirs[i], limit, p)
}

/// The moves of a sliding piece: in each direction it walks over empty
/// squares, may capture the first piece of the other side that it meets, and
/// stops before a piece of its own side, before the duck and at the edge.
pub open spec fn slide_map(
    cells: Map<(int, int), Square>,
    origin: (int, int),
    color: Color,
    dirs: Seq<(int, int)>,
    limit: Option<int>,
    piece: Piece,
) -> Map<(int, int), ActionRawView> {
    Map::new(
        |p: (int, int)| slide_hits(cells, origin, color, dirs, limit, p),
        |p: (int, int)| move_offer(origin, p, piece),
    )
}

/// Whether one of the given steps leads from the origin to a point.
pub open spec fn steps_to(origin: (int, int), steps: Seq<(int, int)>, p: (int, int)) -> bool {
    exists|i: int| 0 <= i < steps.len() && p == plus(origin, #[trigger] steps[i])
}

/// The moves of a leaping piece: it may go by each of its leaps to a square
/// that it can enter, whatever stands between.
pub open spec fn leap_map(
    cells: Map<(int, int), Square>,
    origin: (int, int),
    color: Color,
    leaps: Seq<(int, int)>,
    piece: Piece,
) -> Map<(int, int), ActionRawView> {
    Map::new(
        |p: (int, int)| can_enter(cells, color, p) && steps_to(origin, leaps, p),
        |p: (int, int)| move_offer(origin, p, piece),
    )
}

/// The captures of a pawn: by each of its capturing steps it may take a piece
/// of the other side.
pub open spec fn capture_map(
    cells: Map<(int, int), Square>,
    origin: (int, int),
    color: Color,
    steps: Seq<(int, int)>,
) -> Map<(int, int), ActionRawView> {
    Map::new(
        |p: (int, int)| holds_enemy(cells, color, p) && steps_to(origin, steps, p),
        |p: (int, int)| move_offer(origin, p, Piece::Pawn { passantable: false }),
    )
}

/// The captures in passing of a pawn: by each of its capturing steps it may
/// go to an empty square, if on the square one step back from there stands a
/// pawn of the other side that has just advanced two steps. `back` is that
/// step back: the step forward of the other side.
pub open spec fn passing_map(
    cells: Map<(int, int), Square>,
    origin: (int, int),
    color: Color,
    steps: Seq<(int, int)>,
    back: (int, int),
) -> Map<(int, int), ActionRawView> {
    Map::new(
        |p: (int, int)|
            is_empty(cells, p) && holds_passing_pawn(cells, color, plus(p, back)) && steps_to(
                origin,
                steps,
                p,
            ),
        |p: (int, int)| ActionRawView::Just(SingleActionView::EnPassant(minus(p, origin))),
    )
}

/// The map that holds one offer if a condition is met, and nothing if not.
pub open spec fn entry_if(cond: bool, p: (int, int), offer: ActionRawView) -> Map<
    (int, int),
    ActionRawView,
> {
    if cond {
        Map::empty().insert(p, offer)
    } else {
        Map::empty()
    }
}

/// The advances of a pawn: one step onto an empty square, and from its home
/// squares two steps over an empty square onto an empty square, after which
/// it can be captured in passing.
pub open spec fn forward_map(
    cells: Map<(int, int), Square>,
    origin: (int, int),
    forward: (int, int),
    home: bool,
) -> Map<(int, int), ActionRawView> {
    let one = plus(origin, forward);
    let two = plus(origin, times(forward, 2));
    entry_if(
        is_empty(cells, one),
        one,
        ActionRawView::Just(SingleActionView::Move(forward, Piece::Pawn { passantable: false })),
    ).union_prefer_right(
        entry_if(
            home && is_empty(cells, one) && is_empty(cells, two),
            two,
            ActionRawView::Just(
                SingleActionView::Move(times(forward, 2), Piece::Pawn { passantable: true }),
            ),
        ),
    )
}

/// Whether a king that stands on the origin may castle in the given way: it
/// has not moved, the rook's square holds a rook of its side that has not
/// moved, every square of the king's path is empty, and the path ends on the
/// board.
pub open spec fn castle_ok(
    cells: Map<(int, int), Square>,
    origin: (int, int),
    color: Color,
    king_moved: bool,
    castle: CastleView,
) -> bool {
    &&& !king_moved
    &&& cell_at(cells, plus(origin, castle.rook)) == Some(
        Square::Piece(color, Piece::Rook { moved: false }),
    )
    &&& forall|j: int|
        1 <= j <= castle.steps.fuel ==> is_empty(
            cells,
            plus(origin, #[trigger] castle.steps.nth(j)),
        )
    &&& cells.dom().contains(plus(origin, castle.steps.total()))
}

/// The castlings of a king, keyed by the square on which the king ends. Of
/// two castlings that end on one square the later in the list is offered.
pub open spec fn castle_map(
    cells: Map<(int, int), Square>,
    origin: (int, int),
    color: Color,
    king_moved: bool,
    castles: Seq<CastleView>,
) -> Map<(int, int), ActionRawView>
    decreases castles.len(),
{
    if castles.len() == 0 {
        Map::empty()
    } else {
        castle_map(cells, origin, color, king_moved, castles.drop_last()).union_prefer_right(
            entry_if(
                castle_ok(cells, origin, color, king_moved, castles.last()),
                plus(origin, castles.last().steps.total()),
                ActionRawView::Just(SingleActionView::Castle(castles.last())),
            ),
        )
    }
}

/// The pieces that a pawn may be promoted to.
pub open spec fn promotion_pieces() -> Seq<Piece> {
    seq![Piece::Queen, Piece::Knight, Piece::Rook { moved: true }, Piece::Bishop]
}

/// An offer after the promotion rule: a plain move into the promotion zone
/// becomes the offer to choose a piece.
pub open spec fn promoted(offer: ActionRawView, in_zone: bool) -> ActionRawView {
    match offer {
        ActionRawView::Just(SingleActionView::Move(rel, _)) => if in_zone {
            ActionRawView::Promotion(rel, promotion_pieces())
        } else {
            offer
        },
        _ => offer,
    }
}

/// The offers of a pawn after the promotion rule.
pub open spec fn promotions<B: ChessBoard>(color: Color, raw: Map<(int, int), ActionRawView>) -> Map<
    (int, int),
    ActionRawView,
> {
    Map::new(
        |p: (int, int)| raw.dom().contains(p),
        |p: (int, int)| promoted(raw[p], B::is_promotion(color, p)),
    )
}

/// The offers of a pawn before the promotion rule: its advances, then its
/// captures, then its captures in passing.
pub open spec fn pawn_map<B: ChessBoard>(
    cells: Map<(int, int), Square>,
    origin: (int, int),
    color: Color,
) -> Map<(int, int), ActionRawView> {
    forward_map(
        cells,
        origin,
        B::forward_vector(color),
        B::is_home(color, origin),
    ).union_prefer_right(
        capture_map(cells, origin, color, B::capture_vectors(color)),
    ).union_prefer_right(
        passing_map(
            cells,
            origin,
            color,
            B::capture_vectors(color),
            B::forward_vector(color.spec_other()),
        ),
    )
}

/// What a piece of the given side and kind on the origin may do, keyed by
/// destination.
pub open spec fn piece_actions<B: ChessBoard>(
    cells: Map<(int, int), Square>,
    origin: (int, int),
    color: Color,
    piece: Piece,
) -> Map<(int, int), ActionRawView> {
    match piece {
        Piece::King { moved } => slide_map(
            cells,
            origin,
            color,
            B::rook_vectors(),
            Some(1int),
            Piece::King { moved: true },
        ).union_prefer_right(
            slide_map(
                cells,
                origin,
                color,
                B::bishop_vectors(),
                Some(1int),
                Piece::King { moved: true },
            ),
        ).union_prefer_right(castle_map(cells, origin, color, moved, B::castlings())),
        Piece::Queen => slide_map(
            cells,
            origin,
            color,
            B::rook_vectors(),
            None,
            Piece::Queen,
        ).union_prefer_right(
            slide_map(cells, origin, color, B::bishop_vectors(), None, Piece::Queen),
        ),
        Piece::Rook { .. } => slide_map(
            cells,
            origin,
            color,
            B::rook_vectors(),
            None,
            Piece::Rook { moved: true },
        ),
        Piece::Bishop => slide_map(cells, origin, color, B::bishop_vectors(), None, Piece::Bishop),
        Piece::Knight => leap_map(cells, origin, color, B::knight_vectors(), Piece::Knight),
        Piece::Pawn { .. } => promotions::<B>(color, pawn_map::<B>(cells, origin, color)),
    }
}

/// The legal actions from a square for the side that is to move: those of the
/// piece on the square if it is of that side, and none otherwise.
pub open spec fn legal_actions<B: ChessBoard>(
    cells: Map<(int, int), Square>,
    origin: (int, int),
    turn: Color,
) -> Map<(int, int), ActionRawView> {
    match cell_at(cells, origin) {
        Some(Square::Piece(color, piece)) => if color == turn {
            piece_actions::<B>(cells, origin, color, piece)
        } else {
            Map::empty()
        },
        _ => Map::empty(),
    }
}

/// The board with every pawn's `passantable` flag taken down.
pub open spec fn unpassanted(cells: Map<(int, int), Square>) -> Map<(int, int), Square> {
    cells.map_values(|s: Square| s.unpassanted())
}

/// The board after a piece has gone from one point to another: the target
/// holds the piece and the source is empty.
pub open spec fn relocated(
    cells: Map<(int, int), Square>,
    from: (int, int),
    to: (int, int),
    color: Color,
    piece: Piece,
) -> Map<(int, int), Square> {
    written(written(cells, to, Square::Piece(color, piece)), from, Square::Empty)
}

/// The board after an action of the given side from the origin.
///
/// First every pawn loses its `passantable` flag. A move then puts the piece
/// that the action names on the target. A capture in passing puts the pawn on
/// the target and empties the square one step back from there. A castling
/// puts the king on the end of its path and the rook on its new square, both
/// as moved.
pub open spec fn applied<B: ChessBoard>(
    cells: Map<(int, int), Square>,
    origin: (int, int),
    color: Color,
    action: SingleActionView,
) -> Map<(int, int), Square> {
    let base = unpassanted(cells);
    match action {
        SingleActionView::Move(rel, piece) => relocated(
            base,
            origin,
            plus(origin, rel),
            color,
            piece,
        ),
        SingleActionView::Castle(castle) => relocated(
            relocated(
                base,
                origin,
                plus(origin, castle.steps.total()),
                color,
                Piece::King { moved: true },
            ),
            plus(origin, castle.rook),
            plus(origin, plus(castle.rook, castle.rook_to)),
            color,
            Piece::Rook { moved: true },
        ),
        SingleActionView::EnPassant(rel) => written(
            relocated(base, origin, plus(origin, rel), color, Piece::Pawn { passantable: false }),
            plus(origin, plus(rel, B::forward_vector(color.spec_other()))),
            Square::Empty,
        ),
    }
}

/// Who has won on a board: the side whose opponent has no king left. Where
/// neither side has a king, Black is named.
pub open spec fn winner(cells: Map<(int, int), Square>) -> Option<Color> {
    if !has_king(cells, Color::White) {
        Some(Color::Black)
    } else if !has_king(cells, Color::Black) {
        Some(Color::White)
    } else {
        None
    }
}

/// Whether a king of the given side stands on the board.
pub open spec fn has_king(cells: Map<(int, int), Square>, color: Color) -> bool {
    exists|p: (int, int)| cells.dom().contains(p) && (#[trigger] cells[p]).spec_is_king(color)
}

/// A ray of no steps offers nothing.
pub proof fn lemma_ray_none(
    cells: Map<(int, int), Square>,
    origin: (int, int),
    color: Color,
    dir: (int, int),
    piece: Piece,
)
    ensures
        ray_map(cells, origin, color, dir, Some(0int), piece) == Map::<
            (int, int),
            ActionRawView,
        >::empty(),
{
    assert(ray_map(cells, origin, color, dir, Some(0int), piece) =~= Map::<
        (int, int),
        ActionRawView,
    >::empty());
}

/// One more step along a ray whose first `k` squares are empty: the next
/// square is offered if it can be entered, and nothing else changes.
pub proof fn lemma_ray_step(
    cells: Map<(int, int), Square>,
    origin: (int, int),
    color: Color,
    dir: (int, int),
    k: int,
    piece: Piece,
)
    requires
        k >= 0,
        forall|j: int| 1 <= j <= k ==> is_empty(cells, plus(origin, #[trigger] times(dir, j))),
    ensures
        ray_map(cells, origin, color, dir, Some(k + 1), piece) == ray_map(
            cells,
            origin,
            color,
            dir,
            Some(k),
            piece,
        ).union_prefer_right(
            entry_if(
                can_enter(cells, color, plus(origin, times(dir, k + 1))),
                plus(origin, times(dir, k + 1)),
                move_offer(origin, plus(origin, times(dir, k + 1)), piece),
            ),
        ),
{
    let next = plus(origin, times(dir, k + 1));
    let longer = ray_map(cells, origin, color, dir, Some(k + 1), piece);
    let shorter = ray_map(cells, origin, color, dir, Some(k), piece);
    let joined = shorter.union_prefer_right(
        entry_if(can_enter(cells, color, next), next, move_offer(origin, next, piece)),
    );
    assert forall|p: (int, int)| longer.dom().contains(p) <==> joined.dom().contains(p) by {
        if ray_hits(cells, origin, color, dir, Some(k + 1), p) {
            let n = choose|n: int|
                within(Some(k + 1), n) && #[trigger] ray_reaches(cells, origin, color, dir, n) && p
                    == plus(origin, times(dir, n));
            if n <= k {
                assert(within(Some(k), n));
            }
        }
        if ray_hits(cells, origin, color, dir, Some(k), p) {
            let n = choose|n: int|
                within(Some(k), n) && #[trigger] ray_reaches(cells, origin, color, dir, n) && p
                    == plus(origin, times(dir, n));
            assert(within(Some(k + 1), n));
        }
        if can_enter(cells, color, next) && p == next {
            assert(ray_reaches(cells, origin, color, dir, k + 1));
            assert(within(Some(k + 1), k + 1));
        }
    }
    assert(longer =~= joined);
}

/// A ray ends at the first square that is not empty: a higher limit, or none,
/// offers no more.
pub proof fn lemma_ray_stops(
    cells: Map<(int, int), Square>,
    origin: (int, int),
    color: Color,
    dir: (int, int),
    k: int,
    limit: Option<int>,
    piece: Piece,
)
    requires
        k >= 0,
        !is_empty(cells, plus(origin, times(dir, k + 1))),
        within(limit, k + 1),
    ensures
        ray_map(cells, origin, color, dir, limit, piece) == ray_map(
            cells,
            origin,
            color,
            dir,
            Some(k + 1),
            piece,
        ),
{
    let left = ray_map(cells, origin, color, dir, limit, piece);
    let right = ray_map(cells, origin, color, dir, Some(k + 1), piece);
    assert forall|p: (int, int)| left.dom().contains(p) <==> right.dom().contains(p) by {
        if ray_hits(cells, origin, color, dir, limit, p) {
            let n = choose|n: int|
                within(limit, n) && #[trigger] ray_reaches(cells, origin, color, dir, n) && p
                    == plus(origin, times(dir, n));
            if n > k + 1 {
                assert(is_empty(cells, plus(origin, times(dir, k + 1))));
            }
            assert(within(Some(k + 1), n));
        }
        if ray_hits(cells, origin, color, dir, Some(k + 1), p) {
            let n = choose|n: int|
                within(Some(k + 1), n) && #[trigger] ray_reaches(cells, origin, color, dir, n) && p
                    == plus(origin, times(dir, n));
            assert(within(limit, n));
        }
    }
    assert(left =~= right);
}

/// On a board that every ray has left after `steps` steps, a ray from a point
/// of the board offers the same with a limit of at least `steps` (and at
/// least 1) as with none.
pub proof fn lemma_ray_unbounded(
    cells: Map<(int, int), Square>,
    origin: (int, int),
    color: Color,
    dir: (int, int),
    steps: int,
    limit: int,
    piece: Piece,
)
    requires
        cells.dom().contains(origin),
        forall|p: (int, int), v: (int, int), k: int|
            cells.dom().contains(p) && v != (0int, 0int) && k > steps ==> !#[trigger] cells.dom().contains(
                plus(p, times(v, k)),
            ),
        limit >= steps,
        limit >= 1,
    ensures
        ray_map(cells, origin, color, dir, Some(limit), piece) == ray_map(
            cells,
            origin,
            color,
            dir,
            None,
            piece,
        ),
{
    let left = ray_map(cells, origin, color, dir, Some(limit), piece);
    let right = ray_map(cells, origin, color, dir, None, piece);
    assert forall|p: (int, int)| left.dom().contains(p) <==> right.dom().contains(p) by {
        if ray_hits(cells, origin, color, dir, Some(limit), p) {
            let n = choose|n: int|
                within(Some(limit), n) && #[trigger] ray_reaches(cells, origin, color, dir, n) && p
                    == plus(origin, times(dir, n));
            assert(within(None, n));
        }
        if ray_hits(cells, origin, color, dir, None, p) {
            let n = choose|n: int|
                within(None, n) && #[trigger] ray_reaches(cells, origin, color, dir, n) && p == plus(
                    origin,
                    times(dir, n),
                );
            if dir == (0int, 0int) {
                assert(times(dir, n) == (0int, 0int));
                assert(times(dir, 1) == (0int, 0int));
                assert(ray_reaches(cells, origin, color, dir, 1));
                assert(within(Some(limit), 1));
            } else {
                assert(cells.dom().contains(plus(origin, times(dir, n))));
                assert(within(Some(limit), n));
            }
        }
    }
    assert(left =~= right);
}

/// Sliding in no direction offers nothing.
pub proof fn lemma_slide_none(
    cells: Map<(int, int), Square>,
    origin: (int, int),
    color: Color,
    limit: Option<int>,
    piece: Piece,
)
    ensures
        slide_map(cells, origin, color, Seq::empty(), limit, piece) == Map::<
            (int, int),
            ActionRawView,
        >::empty(),
{
    assert(slide_map(cells, origin, color, Seq::empty(), limit, piece) =~= Map::<
        (int, int),
        ActionRawView,
    >::empty());
}

/// Sliding in one more direction adds the moves along that ray.
pub proof fn lemma_slide_step(
    cells: Map<(int, int), Square>,
    origin: (int, int),
    color: Color,
    dirs: Seq<(int, int)>,
    i: int,
    limit: Option<int>,
    piece: Piece,
)
    requires
        0 <= i < dirs.len(),
    ensures
        slide_map(cells, origin, color, dirs.take(i + 1), limit, piece) == slide_map(
            cells,
            origin,
            color,
            dirs.take(i),
            limit,
            piece,
        ).union_prefer_right(ray_map(cells, origin, color, dirs[i], limit, piece)),
{
    let more = dirs.take(i + 1);
    let fewer = dirs.take(i);
    let left = slide_map(cells, origin, color, more, limit, piece);
    let right = slide_map(cells, origin, color, fewer, limit, piece).union_prefer_right(
        ray_map(cells, origin, color, dirs[i], limit, piece),
    );
    assert forall|p: (int, int)| left.dom().contains(p) <==> right.dom().contains(p) by {
        if slide_hits(cells, origin, color, more, limit, p) {
            let j = choose|j: int|
                0 <= j < more.len() && ray_hits(cells, origin, color, #[trigger] more[j], limit, p);
            if j < i {
                assert(fewer[j] == more[j]);
            }
        }
        if slide_hits(cells, origin, color, fewer, limit, p) {
            let j = choose|j: int|
                0 <= j < fewer.len() && ray_hits(cells, origin, color, #[trigger] fewer[j], limit, p);
            assert(more[j] == fewer[j]);
        }
        if ray_hits(cells, origin, color, dirs[i], limit, p) {
            assert(more[i] == dirs[i]);
        }
    }
    assert(left =~= right);
}

/// On a board that every ray has left after `steps` steps, sliding from a
/// point of the board offers the same with a limit of at least `steps` (and
/// at least 1) as with none.
pub proof fn lemma_slide_unbounded(
    cells: Map<(int, int), Square>,
    origin: (int, int),
    color: Color,
    dirs: Seq<(int, int)>,
    steps: int,
    limit: int,
    piece: Piece,
)
    requires
        cells.dom().contains(origin),
        forall|p: (int, int), v: (int, int), k: int|
            cells.dom().contains(p) && v != (0int, 0int) && k > steps ==> !#[trigger] cells.dom().contains(
                plus(p, times(v, k)),
            ),
        limit >= steps,
        limit >= 1,
    ensures
        slide_map(cells, origin, color, dirs, Some(limit), piece) == slide_map(
            cells,
            origin,
            color,
            dirs,
            None,
            piece,
        ),
{
    let left = slide_map(cells, origin, color, dirs, Some(limit), piece);
    let right = slide_map(cells, origin, color, dirs, None, piece);
    assert forall|p: (int, int)| left.dom().contains(p) <==> right.dom().contains(p) by {
        if slide_hits(cells, origin, color, dirs, Some(limit), p) {
            let j = choose|j: int|
                0 <= j < dirs.len() && ray_hits(
                    cells,
                    origin,
                    color,
                    #[trigger] dirs[j],
                    Some(limit),
                    p,
                );
            lemma_ray_unbounded(cells, origin, color, dirs[j], steps, limit, piece);
            assert(ray_map(cells, origin, color, dirs[j], Some(limit), piece).dom().contains(p));
            assert(ray_map(cells, origin, color, dirs[j], None, piece).dom().contains(p));
        }
        if slide_hits(cells, origin, color, dirs, None, p) {
            let j = choose|j: int|
                0 <= j < dirs.len() && ray_hits(cells, origin, color, #[trigger] dirs[j], None, p);
            lemma_ray_unbounded(cells, origin, color, dirs[j], steps, limit, piece);
            assert(ray_map(cells, origin, color, dirs[j], None, piece).dom().contains(p));
            assert(ray_map(cells, origin, color, dirs[j], Some(limit), piece).dom().contains(p));
        }
    }
    assert(left =~= right);
}

/// One more step in a list of steps leads to one more point.
pub proof fn lemma_steps_to_step(origin: (int, int), steps: Seq<(int, int)>, i: int, p: (int, int))
    requires
        0 <= i < steps.len(),
    ensures
        steps_to(origin, steps.take(i + 1), p) <==> steps_to(origin, steps.take(i), p) || p == plus(
            origin,
            steps[i],
        ),
        !steps_to(origin, steps.take(0), p),
{
    let more = steps.take(i + 1);
    let fewer = steps.take(i);
    if steps_to(origin, more, p) {
        let j = choose|j: int| 0 <= j < more.len() && p == plus(origin, #[trigger] more[j]);
        if j < i {
            assert(fewer[j] == more[j]);
        }
    }
    if steps_to(origin, fewer, p) {
        let j = choose|j: int| 0 <= j < fewer.len() && p == plus(origin, #[trigger] fewer[j]);
        assert(more[j] == fewer[j]);
    }
    if p == plus(origin, steps[i]) {
        assert(more[i] == steps[i]);
    }
}

/// One more leap adds the offer of its target, if the target can be entered.
pub proof fn lemma_leap_step(
    cells: Map<(int, int), Square>,
    origin: (int, int),
    color: Color,
    leaps: Seq<(int, int)>,
    i: int,
    piece: Piece,
)
    requires
        0 <= i < leaps.len(),
    ensures
        leap_map(cells, origin, color, leaps.take(i + 1), piece) == leap_map(
            cells,
            origin,
            color,
            leaps.take(i),
            piece,
        ).union_prefer_right(
            entry_if(
                can_enter(cells, color, plus(origin, leaps[i])),
                plus(origin, leaps[i]),
                move_offer(origin, plus(origin, leaps[i]), piece),
            ),
        ),
        leap_map(cells, origin, color, leaps.take(0), piece) == Map::<
            (int, int),
            ActionRawView,
        >::empty(),
{
    let target = plus(origin, leaps[i]);
    let left = leap_map(cells, origin, color, leaps.take(i + 1), piece);
    let right = leap_map(cells, origin, color, leaps.take(i), piece).union_prefer_right(
        entry_if(can_enter(cells, color, target), target, move_offer(origin, target, piece)),
    );
    assert forall|p: (int, int)| left.dom().contains(p) <==> right.dom().contains(p) by {
        lemma_steps_to_step(origin, leaps, i, p);
    }
    assert(left =~= right);
    assert forall|p: (int, int)| !leap_map(cells, origin, color, leaps.take(0), piece).dom().contains(
        p,
    ) by {
        lemma_steps_to_step(origin, leaps, i, p);
    }
    assert(leap_map(cells, origin, color, leaps.take(0), piece) =~= Map::<
        (int, int),
        ActionRawView,
    >::empty());
}

/// One more capturing step adds the offer of its target, if a piece of the
/// other side stands there.
pub proof fn lemma_capture_step(
    cells: Map<(int, int), Square>,
    origin: (int, int),
    color: Color,
    steps: Seq<(int, int)>,
    i: int,
)
    requires
        0 <= i < steps.len(),
    ensures
        capture_map(cells, origin, color, steps.take(i + 1)) == capture_map(
            cells,
            origin,
            color,
            steps.take(i),
        ).union_prefer_right(
            entry_if(
                holds_enemy(cells, color, plus(origin, steps[i])),
                plus(origin, steps[i]),
                move_offer(origin, plus(origin, steps[i]), Piece::Pawn { passantable: false }),
            ),
        ),
        capture_map(cells, origin, color, steps.take(0)) == Map::<
            (int, int),
            ActionRawView,
        >::empty(),
{
    let target = plus(origin, steps[i]);
    let left = capture_map(cells, origin, color, steps.take(i + 1));
    let right = capture_map(cells, origin, color, steps.take(i)).union_prefer_right(
        entry_if(
            holds_enemy(cells, color, target),
            target,
            move_offer(origin, target, Piece::Pawn { passantable: false }),
        ),
    );
    assert forall|p: (int, int)| left.dom().contains(p) <==> right.dom().contains(p) by {
        lemma_steps_to_step(origin, steps, i, p);
    }
    assert(left =~= right);
    assert forall|p: (int, int)| !capture_map(cells, origin, color, steps.take(0)).dom().contains(
        p,
    ) by {
        lemma_steps_to_step(origin, steps, i, p);
    }
    assert(capture_map(cells, origin, color, steps.take(0)) =~= Map::<
        (int, int),
        ActionRawView,
    >::empty());
}

/// One more capturing step adds the offer of a capture in passing, if its
/// target is empty and the pawn to capture stands one step back from there.
pub proof fn lemma_passing_step(
    cells: Map<(int, int), Square>,
    origin: (int, int),
    color: Color,
    steps: Seq<(int, int)>,
    back: (int, int),
    i: int,
)
    requires
        0 <= i < steps.len(),
    ensures
        passing_map(cells, origin, color, steps.take(i + 1), back) == passing_map(
            cells,
            origin,
            color,
            steps.take(i),
            back,
        ).union_prefer_right(
            entry_if(
                is_empty(cells, plus(origin, steps[i])) && holds_passing_pawn(
                    cells,
                    color,
                    plus(plus(origin, steps[i]), back),
                ),
                plus(origin, steps[i]),
                ActionRawView::Just(SingleActionView::EnPassant(steps[i])),
            ),
        ),
        passing_map(cells, origin, color, steps.take(0), back) == Map::<
            (int, int),
            ActionRawView,
        >::empty(),
{
    let target = plus(origin, steps[i]);
    let left = passing_map(cells, origin, color, steps.take(i + 1), back);
    let right = passing_map(cells, origin, color, steps.take(i), back).union_prefer_right(
        entry_if(
            is_empty(cells, target) && holds_passing_pawn(cells, color, plus(target, back)),
            target,
            ActionRawView::Just(SingleActionView::EnPassant(steps[i])),
        ),
    );
    assert forall|p: (int, int)| left.dom().contains(p) <==> right.dom().contains(p) by {
        lemma_steps_to_step(origin, steps, i, p);
    }
    assert(left =~= right);
    assert forall|p: (int, int)| !passing_map(
        cells,
        origin,
        color,
        steps.take(0),
        back,
    ).dom().contains(p) by {
        lemma_steps_to_step(origin, steps, i, p);
    }
    assert(passing_map(cells, origin, color, steps.take(0), back) =~= Map::<
        (int, int),
        ActionRawView,
    >::empty());
}

} // verus!
