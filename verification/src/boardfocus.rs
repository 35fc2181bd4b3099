//! The move generator: what the piece on one square may do, and what an
//! action does to the board. It is written once for every board topology.

use vstd::prelude::*;
use crate::action::{ActionRaw, ActionRawView, SingleAction, SingleActionView};
use crate::actionmap::ActionMap;
use crate::chessboard::{castle_views, cell_at, vectors, written, ChessBoard};
use crate::offset::{lemma_times_succ, minus, plus, times, Castle, Offset};
use crate::pieces::{Color, Piece, Square};
use crate::rules::{
    applied, can_enter, capture_map, castle_map, castle_ok, entry_if, forward_map, holds_enemy,
    holds_passing_pawn, is_empty, leap_map, lemma_capture_step, lemma_leap_step,
    lemma_passing_step, lemma_ray_none, lemma_ray_step, lemma_ray_stops, lemma_slide_none,
    lemma_slide_step, lemma_slide_unbounded, move_offer, passing_map, pawn_map, piece_actions,
    promoted, promotion_pieces, promotions, ray_map, relocated, slide_map, unpassanted,
};

verus! {

/// How a piece gets onto a square: by moving onto an empty square or by
/// taking what stands there.
#[derive(Debug, Copy, Clone, PartialEq, Eq)]
pub enum MoveType<R> {
    Move(R),
    Take(R),
}

impl<R: Copy> MoveType<R> {
    /// The offset of the move, whichever way it is made.
    pub fn get(&self) -> (rel: R)
        ensures
            rel == match *self {
                MoveType::Move(r) => r,
                MoveType::Take(r) => r,
            },
    {
        match self {
            MoveType::Move(rel) => *rel,
            MoveType::Take(rel) => *rel,
        }
    }
}

/// The pieces that a pawn may be promoted to.
pub fn promotion_choices() -> (pieces: Vec<Piece>)
    ensures
        pieces@ == promotion_pieces(),
{
    let mut pieces: Vec<Piece> = Vec::new();
    pieces.push(Piece::Queen);
    pieces.push(Piece::Knight);
    pieces.push(Piece::Rook { moved: true });
    pieces.push(Piece::Bishop);
    assert(pieces@ =~= promotion_pieces());
    pieces
}

/// A board seen from one of its squares, for the piece that stood there when
/// the focus was made.
pub struct BoardFocus<B: ChessBoard> {
    pub board: B,
    pub loc: B::Loc,
    pub player: Color,
    pub started_on: Piece,
}

impl<B: ChessBoard> BoardFocus<B> {
    /// The point of the square in focus.
    pub open spec fn origin(&self) -> (int, int) {
        B::point(self.loc)
    }

    /// What the board holds.
    pub open spec fn cells(&self) -> Map<(int, int), Square> {
        self.board.cells()
    }

    /// Whether the board is well formed and the square in focus is on it.
    pub open spec fn wf(&self) -> bool {
        self.board.wf() && self.cells().dom().contains(self.origin())
    }

    /// The focus on a square, if a piece stands there.
    pub fn new(board: B, loc: B::Loc) -> (focus: Option<Self>)
        ensures
            match focus {
                Some(f) => {
                    &&& f.board == board
                    &&& f.loc == loc
                    &&& cell_at(board.cells(), B::point(loc)) == Some(
                        Square::Piece(f.player, f.started_on),
                    )
                },
                None => !(cell_at(board.cells(), B::point(loc)) matches Some(Square::Piece(_, _))),
            },
    {
        match board.get(loc) {
            Some(Square::Piece(player, started_on)) => Some(
                BoardFocus { board, loc, player, started_on },
            ),
            _ => None,
        }
    }

    /// The legal actions of the piece in focus when the given side is to
    /// move: none where the piece is of the other side.
    pub fn valid_locations_for(&self, turn: Color) -> (locations: ActionMap<B>)
        requires
            self.wf(),
        ensures
            locations.wf(),
            locations@ == if turn == self.player {
                piece_actions::<B>(self.cells(), self.origin(), self.player, self.started_on)
            } else {
                Map::empty()
            },
    {
        if turn == self.player {
            self.valid_locations()
        } else {
            ActionMap::new()
        }
    }

    /// Moves the focus by an offset, keeping the piece it was made for.
    /// Returns whether there is a location at the offset; the focus stays
    /// where it is if there is none.
    pub fn shift(&mut self, rel: B::Rel) -> (moved: bool)
        ensures
            final(self).board == old(self).board,
            final(self).player == old(self).player,
            final(self).started_on == old(self).started_on,
            moved ==> final(self).origin() == plus(old(self).origin(), rel.vector()),
            !moved ==> final(self).loc == old(self).loc && !B::locatable(
                plus(old(self).origin(), rel.vector()),
            ),
    {
        match B::offset(self.loc, rel) {
            Some(loc) => {
                self.loc = loc;
                true
            },
            None => false,
        }
    }

    /// The location at an offset and what it holds, if it is on the board.
    pub fn spot(&self, rel: B::Rel) -> (found: Option<(B::Loc, Square)>)
        ensures
            match found {
                Some((loc, square)) => {
                    &&& B::point(loc) == plus(self.origin(), rel.vector())
                    &&& cell_at(self.cells(), B::point(loc)) == Some(square)
                },
                None => cell_at(self.cells(), plus(self.origin(), rel.vector())) is None,
            },
    {
        match B::offset(self.loc, rel) {
            Some(loc) => match self.board.get(loc) {
                Some(square) => Some((loc, square)),
                None => None,
            },
            None => {
                proof {
                    let p = plus(self.origin(), rel.vector());
                    if self.cells().dom().contains(p) {
                        self.board.lemma_cells_locatable(p);
                    }
                }
                None
            },
        }
    }

    /// What the board holds at an offset: `None` off the board.
    pub fn get(&self, rel: B::Rel) -> (content: Option<Square>)
        ensures
            content == cell_at(self.cells(), plus(self.origin(), rel.vector())),
    {
        match self.spot(rel) {
            Some((_, square)) => Some(square),
            None => None,
        }
    }

    /// How the piece gets onto the square at an offset, if it does: by a
    /// move where the square is empty, by a capture where it holds a piece of
    /// the other side.
    pub fn can_move_to(&self, rel: B::Rel) -> (way: Option<MoveType<B::Rel>>)
        ensures
            way == if is_empty(self.cells(), plus(self.origin(), rel.vector())) {
                Some(MoveType::Move(rel))
            } else if holds_enemy(self.cells(), self.player, plus(self.origin(), rel.vector())) {
                Some(MoveType::Take(rel))
            } else {
                None
            },
    {
        match self.get(rel) {
            Some(Square::Empty) => Some(MoveType::Move(rel)),
            Some(Square::Piece(to_color, _)) => {
                if self.player != to_color {
                    Some(MoveType::Take(rel))
                } else {
                    None
                }
            },
            Some(Square::Duck) => None,
            None => None,
        }
    }

    /// Enters the moves along one ray of at most `len` steps.
    pub fn can_move_line(&self, piece: Piece, locations: &mut ActionMap<B>, dir: B::Rel, len: u32)
        requires
            self.wf(),
            old(locations).wf(),
        ensures
            final(locations).wf(),
            final(locations)@ == old(locations)@.union_prefer_right(
                ray_map(
                    self.cells(),
                    self.origin(),
                    self.player,
                    dir.vector(),
                    Some(len as int),
                    piece,
                ),
            ),
    {
        let ghost cells = self.cells();
        let ghost origin = self.origin();
        let ghost before = locations@;
        let ghost way = dir.vector();
        let mut k: u32 = 0;
        let mut rel = B::Rel::origin();
        let mut open = true;
        proof {
            lemma_times_succ(way, 0);
            lemma_ray_none(cells, origin, self.player, way, piece);
            assert(before.union_prefer_right(Map::empty()) =~= before);
        }
        while open && k < len
            invariant
                self.wf(),
                cells == self.cells(),
                origin == self.origin(),
                way == dir.vector(),
                locations.wf(),
                k <= len,
                rel.vector() == times(way, k as int),
                forall|j: int| 1 <= j <= k ==> is_empty(cells, plus(origin, #[trigger] times(way, j))),
                open ==> locations@ == before.union_prefer_right(
                    ray_map(cells, origin, self.player, way, Some(k as int), piece),
                ),
                !open ==> locations@ == before.union_prefer_right(
                    ray_map(cells, origin, self.player, way, Some(len as int), piece),
                ),
            decreases (if open { 1int } else { 0int }), len - k,
        {
            let ghost next = plus(origin, times(way, k + 1));
            let ghost shorter = ray_map(cells, origin, self.player, way, Some(k as int), piece);
            proof {
                lemma_times_succ(way, k as int);
                lemma_ray_step(cells, origin, self.player, way, k as int, piece);
            }
            let found = match rel.checked_sum(dir) {
                Some(further) => match self.spot(further) {
                    Some((loc, square)) => Some((further, loc, square)),
                    None => None,
                },
                None => {
                    proof {
                        if cells.dom().contains(next) {
                            self.board.lemma_displacement_fits(origin, next);
                            assert(minus(next, origin) == times(way, k + 1));
                        }
                    }
                    None
                },
            };
            assert(found is None ==> cell_at(cells, next) is None);
            match found {
                Some((further, loc, Square::Empty)) => {
                    locations.insert(loc, ActionRaw::move_it(further, piece));
                    proof {
                        assert(minus(next, origin) == times(way, k + 1));
                        assert(locations@ =~= before.union_prefer_right(
                            shorter.union_prefer_right(
                                entry_if(true, next, move_offer(origin, next, piece)),
                            ),
                        ));
                    }
                    rel = further;
                    k = k + 1;
                },
                Some((further, loc, Square::Piece(to_color, _))) => {
                    if self.player != to_color {
                        locations.insert(loc, ActionRaw::move_it(further, piece));
                        proof {
                            assert(minus(next, origin) == times(way, k + 1));
                            assert(locations@ =~= before.union_prefer_right(
                                shorter.union_prefer_right(
                                    entry_if(true, next, move_offer(origin, next, piece)),
                                ),
                            ));
                        }
                    } else {
                        proof {
                            assert(shorter.union_prefer_right(
                                entry_if(false, next, move_offer(origin, next, piece)),
                            ) =~= shorter);
                        }
                    }
                    proof {
                        lemma_ray_stops(
                            cells,
                            origin,
                            self.player,
                            way,
                            k as int,
                            Some(len as int),
                            piece,
                        );
                    }
                    open = false;
                },
                _ => {
                    proof {
                        assert(shorter.union_prefer_right(
                            entry_if(false, next, move_offer(origin, next, piece)),
                        ) =~= shorter);
                        lemma_ray_stops(
                            cells,
                            origin,
                            self.player,
                            way,
                            k as int,
                            Some(len as int),
                            piece,
                        );
                    }
                    open = false;
                },
            }
        }
    }

    /// Enters the moves along every ray of a list of directions.
    fn slide(&self, piece: Piece, locations: &mut ActionMap<B>, dirs: &Vec<B::Rel>, len: u32)
        requires
            self.wf(),
            old(locations).wf(),
        ensures
            final(locations).wf(),
            final(locations)@ == old(locations)@.union_prefer_right(
                slide_map(
                    self.cells(),
                    self.origin(),
                    self.player,
                    vectors(dirs@),
                    Some(len as int),
                    piece,
                ),
            ),
    {
        let ghost before = locations@;
        let ghost ways = vectors(dirs@);
        let limit = Ghost(Some(len as int));
        proof {
            lemma_slide_none(self.cells(), self.origin(), self.player, limit@, piece);
            assert(ways.take(0) =~= Seq::<(int, int)>::empty());
            assert(before.union_prefer_right(Map::empty()) =~= before);
        }
        let mut i: usize = 0;
        while i < dirs.len()
            invariant
                self.wf(),
                locations.wf(),
                i <= dirs@.len(),
                ways == vectors(dirs@),
                limit@ == Some(len as int),
                locations@ == before.union_prefer_right(
                    slide_map(
                        self.cells(),
                        self.origin(),
                        self.player,
                        ways.take(i as int),
                        limit@,
                        piece,
                    ),
                ),
            decreases dirs@.len() - i,
        {
            let ghost so_far = slide_map(
                self.cells(),
                self.origin(),
                self.player,
                ways.take(i as int),
                limit@,
                piece,
            );
            self.can_move_line(piece, locations, dirs[i], len);
            proof {
                lemma_slide_step(
                    self.cells(),
                    self.origin(),
                    self.player,
                    ways,
                    i as int,
                    limit@,
                    piece,
                );
                let ray = ray_map(
                    self.cells(),
                    self.origin(),
                    self.player,
                    ways[i as int],
                    limit@,
                    piece,
                );
                assert(before.union_prefer_right(so_far).union_prefer_right(ray)
                    =~= before.union_prefer_right(so_far.union_prefer_right(ray)));
            }
            i += 1;
        }
        assert(ways.take(dirs@.len() as int) =~= ways);
    }

    /// Enters the moves along the rook's directions, at most `len` steps far.
    pub fn move_with_adj(&self, piece: Piece, locations: &mut ActionMap<B>, len: u32)
        requires
            self.wf(),
            old(locations).wf(),
        ensures
            final(locations).wf(),
            final(locations)@ == old(locations)@.union_prefer_right(
                slide_map(
                    self.cells(),
                    self.origin(),
                    self.player,
                    B::rook_vectors(),
                    Some(len as int),
                    piece,
                ),
            ),
    {
        let dirs = self.board.rook_dirs();
        self.slide(piece, locations, &dirs, len);
    }

    /// Enters the moves along the bishop's directions, at most `len` steps
    /// far.
    pub fn move_with_diag(&self, piece: Piece, locations: &mut ActionMap<B>, len: u32)
        requires
            self.wf(),
            old(locations).wf(),
        ensures
            final(locations).wf(),
            final(locations)@ == old(locations)@.union_prefer_right(
                slide_map(
                    self.cells(),
                    self.origin(),
                    self.player,
                    B::bishop_vectors(),
                    Some(len as int),
                    piece,
                ),
            ),
    {
        let dirs = self.board.bishop_dirs();
        self.slide(piece, locations, &dirs, len);
    }

    /// Enters a move by an offset if the piece can enter the square there.
    pub fn add_if_movable(&self, rel: B::Rel, piece: Piece, locations: &mut ActionMap<B>)
        requires
            old(locations).wf(),
        ensures
            final(locations).wf(),
            final(locations)@ == old(locations)@.union_prefer_right(
                entry_if(
                    can_enter(self.cells(), self.player, plus(self.origin(), rel.vector())),
                    plus(self.origin(), rel.vector()),
                    move_offer(self.origin(), plus(self.origin(), rel.vector()), piece),
                ),
            ),
    {
        let ghost target = plus(self.origin(), rel.vector());
        let ghost offer = move_offer(self.origin(), target, piece);
        assert(minus(target, self.origin()) == rel.vector());
        match self.spot(rel) {
            Some((loc, square)) => {
                let enters = match square {
                    Square::Empty => true,
                    Square::Piece(to_color, _) => self.player != to_color,
                    Square::Duck => false,
                };
                if enters {
                    locations.insert(loc, ActionRaw::move_it(rel, piece));
                    assert(locations@ =~= old(locations)@.union_prefer_right(
                        entry_if(true, target, offer),
                    ));
                } else {
                    assert(locations@ =~= old(locations)@.union_prefer_right(
                        entry_if(false, target, offer),
                    ));
                }
            },
            None => {
                assert(locations@ =~= old(locations)@.union_prefer_right(
                    entry_if(false, target, offer),
                ));
            },
        }
    }

    /// Enters a move by an offset if a piece of the other side stands there.
    pub fn add_if_takable(&self, rel: B::Rel, piece: Piece, locations: &mut ActionMap<B>)
        requires
            old(locations).wf(),
        ensures
            final(locations).wf(),
            final(locations)@ == old(locations)@.union_prefer_right(
                entry_if(
                    holds_enemy(self.cells(), self.player, plus(self.origin(), rel.vector())),
                    plus(self.origin(), rel.vector()),
                    move_offer(self.origin(), plus(self.origin(), rel.vector()), piece),
                ),
            ),
    {
        let ghost target = plus(self.origin(), rel.vector());
        let ghost offer = move_offer(self.origin(), target, piece);
        assert(minus(target, self.origin()) == rel.vector());
        match self.spot(rel) {
            Some((loc, Square::Piece(to_color, _))) => {
                if self.player != to_color {
                    locations.insert(loc, ActionRaw::move_it(rel, piece));
                    assert(locations@ =~= old(locations)@.union_prefer_right(
                        entry_if(true, target, offer),
                    ));
                } else {
                    assert(locations@ =~= old(locations)@.union_prefer_right(
                        entry_if(false, target, offer),
                    ));
                }
            },
            _ => {
                assert(locations@ =~= old(locations)@.union_prefer_right(
                    entry_if(false, target, offer),
                ));
            },
        }
    }

    /// Enters a move by an offset if the square there is empty.
    pub fn add_if_no_take(&self, rel: B::Rel, piece: Piece, locations: &mut ActionMap<B>)
        requires
            old(locations).wf(),
        ensures
            final(locations).wf(),
            final(locations)@ == old(locations)@.union_prefer_right(
                entry_if(
                    is_empty(self.cells(), plus(self.origin(), rel.vector())),
                    plus(self.origin(), rel.vector()),
                    move_offer(self.origin(), plus(self.origin(), rel.vector()), piece),
                ),
            ),
    {
        let ghost target = plus(self.origin(), rel.vector());
        let ghost offer = move_offer(self.origin(), target, piece);
        assert(minus(target, self.origin()) == rel.vector());
        match self.spot(rel) {
            Some((loc, Square::Empty)) => {
                locations.insert(loc, ActionRaw::move_it(rel, piece));
                assert(locations@ =~= old(locations)@.union_prefer_right(
                    entry_if(true, target, offer),
                ));
            },
            _ => {
                assert(locations@ =~= old(locations)@.union_prefer_right(
                    entry_if(false, target, offer),
                ));
            },
        }
    }

    /// Where the king ends in a castling, if the castling is allowed.
    pub fn castle_target(&self, castle: &Castle<B::Rel>, king_moved: bool) -> (end: Option<B::Loc>)
        requires
            self.wf(),
        ensures
            match end {
                Some(loc) => {
                    &&& castle_ok(self.cells(), self.origin(), self.player, king_moved, castle@)
                    &&& B::point(loc) == plus(self.origin(), castle@.steps.total())
                },
                None => !castle_ok(self.cells(), self.origin(), self.player, king_moved, castle@),
            },
    {
        if king_moved {
            return None;
        }
        match self.get(castle.rook) {
            Some(Square::Piece(color, Piece::Rook { moved: false })) => {
                if color != self.player {
                    return None;
                }
            },
            _ => {
                return None;
            },
        }
        let ghost cells = self.cells();
        let ghost origin = self.origin();
        let ghost run = castle@.steps;
        let mut rel = castle.steps.from;
        let mut j: u32 = 0;
        proof {
            lemma_times_succ(run.step, 0);
        }
        while j < castle.steps.fuel
            invariant
                self.wf(),
                cells == self.cells(),
                origin == self.origin(),
                run == castle@.steps,
                j <= castle.steps.fuel,
                rel.vector() == run.nth(j as int),
                forall|t: int| 1 <= t <= j ==> is_empty(cells, plus(origin, #[trigger] run.nth(t))),
            decreases castle.steps.fuel - j,
        {
            proof {
                lemma_times_succ(run.step, j as int);
                assert(run.nth(j + 1) == plus(run.nth(j as int), run.step));
            }
            match rel.checked_sum(castle.steps.step) {
                Some(next) => match self.get(next) {
                    Some(Square::Empty) => {
                        rel = next;
                        j = j + 1;
                    },
                    _ => {
                        assert(!is_empty(cells, plus(origin, run.nth(j + 1))));
                        return None;
                    },
                },
                None => {
                    proof {
                        let p = plus(origin, run.nth(j + 1));
                        if cells.dom().contains(p) {
                            self.board.lemma_displacement_fits(origin, p);
                            assert(minus(p, origin) == run.nth(j + 1));
                        }
                        assert(!is_empty(cells, plus(origin, run.nth(j + 1))));
                    }
                    return None;
                },
            }
        }
        match self.spot(rel) {
            Some((loc, _)) => Some(loc),
            None => None,
        }
    }

    /// Enters the castlings of a king.
    pub fn castle_move(&self, has_king_moved: bool, locations: &mut ActionMap<B>)
        requires
            self.wf(),
            old(locations).wf(),
        ensures
            final(locations).wf(),
            final(locations)@ == old(locations)@.union_prefer_right(
                castle_map(
                    self.cells(),
                    self.origin(),
                    self.player,
                    has_king_moved,
                    B::castlings(),
                ),
            ),
    {
        let ghost before = locations@;
        let castles = self.board.castle_rooks();
        let ghost views = castle_views(castles@);
        proof {
            assert(views.take(0) =~= Seq::empty());
            assert(before.union_prefer_right(Map::empty()) =~= before);
        }
        let mut i: usize = 0;
        while i < castles.len()
            invariant
                self.wf(),
                locations.wf(),
                i <= castles@.len(),
                views == castle_views(castles@),
                locations@ == before.union_prefer_right(
                    castle_map(
                        self.cells(),
                        self.origin(),
                        self.player,
                        has_king_moved,
                        views.take(i as int),
                    ),
                ),
            decreases castles@.len() - i,
        {
            let castle = castles[i];
            let ghost so_far = castle_map(
                self.cells(),
                self.origin(),
                self.player,
                has_king_moved,
                views.take(i as int),
            );
            let ghost end = plus(self.origin(), castle@.steps.total());
            let ghost offer = ActionRawView::Just(SingleActionView::Castle(castle@));
            proof {
                assert(views.take(i + 1).drop_last() =~= views.take(i as int));
                assert(views.take(i + 1).last() == castle@);
            }
            match self.castle_target(&castle, has_king_moved) {
                Some(loc) => {
                    locations.insert(loc, ActionRaw::castle(castle));
                    assert(locations@ =~= before.union_prefer_right(
                        so_far.union_prefer_right(entry_if(true, end, offer)),
                    ));
                },
                None => {
                    assert(locations@ =~= before.union_prefer_right(
                        so_far.union_prefer_right(entry_if(false, end, offer)),
                    ));
                },
            }
            i += 1;
        }
        assert(views.take(castles@.len() as int) =~= views);
    }

    /// Enters the advances of a pawn.
    pub fn forward_pawn(&self, locations: &mut ActionMap<B>)
        requires
            self.wf(),
            old(locations).wf(),
        ensures
            final(locations).wf(),
            final(locations)@ == old(locations)@.union_prefer_right(
                forward_map(
                    self.cells(),
                    self.origin(),
                    B::forward_vector(self.player),
                    B::is_home(self.player, self.origin()),
                ),
            ),
    {
        let ghost before = locations@;
        let ghost cells = self.cells();
        let ghost origin = self.origin();
        let ghost forward = B::forward_vector(self.player);
        let ghost one = plus(origin, forward);
        let ghost two = plus(origin, times(forward, 2));
        let ghost single = entry_if(
            is_empty(cells, one),
            one,
            ActionRawView::Just(SingleActionView::Move(forward, Piece::Pawn { passantable: false })),
        );
        let ghost double = ActionRawView::Just(
            SingleActionView::Move(times(forward, 2), Piece::Pawn { passantable: true }),
        );
        let one_step = B::forward_one(self.player);
        proof {
            lemma_times_succ(forward, 1);
            assert(minus(one, origin) == forward);
            assert(minus(two, origin) == times(forward, 2));
        }
        self.add_if_no_take(one_step, Piece::Pawn { passantable: false }, locations);
        let ghost mut entered = false;
        if self.board.home_for(self.player, self.loc) {
            if let Some(Square::Empty) = self.get(one_step) {
                match one_step.checked_sum(one_step) {
                    Some(two_steps) => {
                        self.add_if_no_take(two_steps, Piece::Pawn { passantable: true }, locations);
                        proof {
                            entered = true;
                            assert(locations@ =~= before.union_prefer_right(
                                single.union_prefer_right(
                                    entry_if(is_empty(cells, two), two, double),
                                ),
                            ));
                        }
                    },
                    None => {
                        proof {
                            if cells.dom().contains(two) {
                                self.board.lemma_displacement_fits(origin, two);
                            }
                        }
                    },
                }
            }
        }
        proof {
            if !entered {
                assert(locations@ =~= before.union_prefer_right(
                    single.union_prefer_right(entry_if(false, two, double)),
                ));
            }
        }
    }

    /// Enters the captures of a pawn.
    pub fn capture_pawn(&self, locations: &mut ActionMap<B>)
        requires
            self.wf(),
            old(locations).wf(),
        ensures
            final(locations).wf(),
            final(locations)@ == old(locations)@.union_prefer_right(
                capture_map(
                    self.cells(),
                    self.origin(),
                    self.player,
                    B::capture_vectors(self.player),
                ),
            ),
    {
        let ghost before = locations@;
        let steps = self.board.takeable(self.player);
        let ghost ways = vectors(steps@);
        if steps.len() == 0 {
            proof {
                assert(capture_map(self.cells(), self.origin(), self.player, ways) =~= Map::<
                    (int, int),
                    ActionRawView,
                >::empty()) by {
                    assert forall|p: (int, int)|
                        !capture_map(self.cells(), self.origin(), self.player, ways).dom().contains(
                            p,
                        ) by {}
                }
                assert(before.union_prefer_right(Map::empty()) =~= before);
            }
            return ;
        }
        proof {
            lemma_capture_step(self.cells(), self.origin(), self.player, ways, 0);
            assert(before.union_prefer_right(Map::empty()) =~= before);
        }
        let mut i: usize = 0;
        while i < steps.len()
            invariant
                self.wf(),
                locations.wf(),
                i <= steps@.len(),
                ways == vectors(steps@),
                locations@ == before.union_prefer_right(
                    capture_map(self.cells(), self.origin(), self.player, ways.take(i as int)),
                ),
            decreases steps@.len() - i,
        {
            let ghost so_far = capture_map(
                self.cells(),
                self.origin(),
                self.player,
                ways.take(i as int),
            );
            let ghost target = plus(self.origin(), ways[i as int]);
            self.add_if_takable(steps[i], Piece::Pawn { passantable: false }, locations);
            proof {
                lemma_capture_step(self.cells(), self.origin(), self.player, ways, i as int);
                let entry = entry_if(
                    holds_enemy(self.cells(), self.player, target),
                    target,
                    move_offer(self.origin(), target, Piece::Pawn { passantable: false }),
                );
                assert(before.union_prefer_right(so_far).union_prefer_right(entry)
                    =~= before.union_prefer_right(so_far.union_prefer_right(entry)));
            }
            i += 1;
        }
        assert(ways.take(steps@.len() as int) =~= ways);
    }

    /// Whether the pawn in focus may capture in passing by the given step:
    /// the target is empty and one step back from it stands a pawn of the
    /// other side that has just advanced two steps. Where it may, the target
    /// is returned.
    pub fn passing_target(&self, take_dir: B::Rel) -> (end: Option<B::Loc>)
        requires
            self.wf(),
        ensures
            match end {
                Some(loc) => {
                    &&& B::point(loc) == plus(self.origin(), take_dir.vector())
                    &&& is_empty(self.cells(), B::point(loc))
                    &&& holds_passing_pawn(
                        self.cells(),
                        self.player,
                        plus(B::point(loc), B::forward_vector(self.player.spec_other())),
                    )
                },
                None => !(is_empty(self.cells(), plus(self.origin(), take_dir.vector()))
                    && holds_passing_pawn(
                    self.cells(),
                    self.player,
                    plus(
                        plus(self.origin(), take_dir.vector()),
                        B::forward_vector(self.player.spec_other()),
                    ),
                )),
            },
    {
        let passed = B::forward_one(self.player.other());
        let ghost behind_point = plus(plus(self.origin(), take_dir.vector()), passed.vector());
        match self.spot(take_dir) {
            Some((loc, Square::Empty)) => match take_dir.checked_sum(passed) {
                Some(behind) => {
                    assert(plus(self.origin(), behind.vector()) == behind_point);
                    match self.get(behind) {
                        Some(Square::Piece(other_player, Piece::Pawn { passantable: true })) => {
                            if self.player != other_player {
                                Some(loc)
                            } else {
                                None
                            }
                        },
                        _ => None,
                    }
                },
                None => {
                    proof {
                        if self.cells().dom().contains(behind_point) {
                            self.board.lemma_displacement_fits(self.origin(), behind_point);
                            assert(minus(behind_point, self.origin()) == plus(
                                take_dir.vector(),
                                passed.vector(),
                            ));
                        }
                    }
                    None
                },
            },
            _ => None,
        }
    }

    /// Enters the captures in passing of a pawn.
    pub fn en_passant(&self, locations: &mut ActionMap<B>)
        requires
            self.wf(),
            old(locations).wf(),
        ensures
            final(locations).wf(),
            final(locations)@ == old(locations)@.union_prefer_right(
                passing_map(
                    self.cells(),
                    self.origin(),
                    self.player,
                    B::capture_vectors(self.player),
                    B::forward_vector(self.player.spec_other()),
                ),
            ),
    {
        let ghost before = locations@;
        let ghost back = B::forward_vector(self.player.spec_other());
        let steps = self.board.takeable(self.player);
        let ghost ways = vectors(steps@);
        if steps.len() == 0 {
            proof {
                assert(passing_map(self.cells(), self.origin(), self.player, ways, back) =~= Map::<
                    (int, int),
                    ActionRawView,
                >::empty()) by {
                    assert forall|p: (int, int)|
                        !passing_map(
                            self.cells(),
                            self.origin(),
                            self.player,
                            ways,
                            back,
                        ).dom().contains(p) by {}
                }
                assert(before.union_prefer_right(Map::empty()) =~= before);
            }
            return ;
        }
        proof {
            lemma_passing_step(self.cells(), self.origin(), self.player, ways, back, 0);
            assert(before.union_prefer_right(Map::empty()) =~= before);
        }
        let mut i: usize = 0;
        while i < steps.len()
            invariant
                self.wf(),
                locations.wf(),
                i <= steps@.len(),
                ways == vectors(steps@),
                back == B::forward_vector(self.player.spec_other()),
                locations@ == before.union_prefer_right(
                    passing_map(
                        self.cells(),
                        self.origin(),
                        self.player,
                        ways.take(i as int),
                        back,
                    ),
                ),
            decreases steps@.len() - i,
        {
            let take_dir = steps[i];
            let ghost so_far = passing_map(
                self.cells(),
                self.origin(),
                self.player,
                ways.take(i as int),
                back,
            );
            let ghost target = plus(self.origin(), ways[i as int]);
            let ghost offer = ActionRawView::Just(SingleActionView::EnPassant(ways[i as int]));
            proof {
                lemma_passing_step(self.cells(), self.origin(), self.player, ways, back, i as int);
            }
            match self.passing_target(take_dir) {
                Some(loc) => {
                    locations.insert(loc, ActionRaw::en_passant(take_dir));
                    assert(locations@ =~= before.union_prefer_right(
                        so_far.union_prefer_right(entry_if(true, target, offer)),
                    ));
                },
                None => {
                    assert(locations@ =~= before.union_prefer_right(
                        so_far.union_prefer_right(entry_if(false, target, offer)),
                    ));
                },
            }
            i += 1;
        }
        assert(ways.take(steps@.len() as int) =~= ways);
    }

    /// Applies the promotion rule to the offers of a pawn: a plain move onto
    /// a square of the promotion zone becomes the offer to choose a piece.
    pub fn mk_promotions(&self, actions: &mut ActionMap<B>)
        requires
            old(actions).wf(),
        ensures
            final(actions).wf(),
            final(actions)@ == promotions::<B>(self.player, old(actions)@),
    {
        let ghost before = actions@;
        let ghost keys = actions.keys();
        proof {
            actions.lemma_keys();
        }
        let n = actions.len();
        let mut i: usize = 0;
        while i < n
            invariant
                actions.wf(),
                actions.keys() == keys,
                n == keys.len(),
                i <= n,
                keys.no_duplicates(),
                forall|p: (int, int)| before.dom().contains(p) <==> keys.contains(p),
                forall|p: (int, int)| actions@.dom().contains(p) <==> keys.contains(p),
                forall|j: int|
                    0 <= j < n ==> actions@[#[trigger] keys[j]] == if j < i {
                        promoted(before[keys[j]], B::is_promotion(self.player, keys[j]))
                    } else {
                        before[keys[j]]
                    },
            decreases n - i,
        {
            let loc = actions.key_at(i);
            let ghost p = keys[i as int];
            let ghost prior = actions@;
            assert(keys.contains(p));
            let change = match actions.value_at(i) {
                ActionRaw::Just(SingleAction::Move(rel, _)) => {
                    if self.board.can_promote(self.player, loc) {
                        Some(*rel)
                    } else {
                        None
                    }
                },
                _ => None,
            };
            match change {
                Some(rel) => {
                    actions.insert(loc, ActionRaw::Promotion(rel, promotion_choices()));
                },
                None => {},
            }
            proof {
                assert forall|j: int| 0 <= j < n implies actions@[#[trigger] keys[j]] == if j < i + 1 {
                    promoted(before[keys[j]], B::is_promotion(self.player, keys[j]))
                } else {
                    before[keys[j]]
                } by {
                    if j != i {
                        assert(keys[j] != keys[i as int]);
                        assert(actions@[keys[j]] == prior[keys[j]]);
                    }
                }
                assert forall|q: (int, int)| actions@.dom().contains(q) <==> keys.contains(q) by {
                    assert(prior.dom().contains(q) <==> keys.contains(q));
                }
            }
            i += 1;
        }
        proof {
            let goal = promotions::<B>(self.player, before);
            assert forall|q: (int, int)| actions@.dom().contains(q) implies actions@[q] == goal[q] by {
                assert(keys.contains(q));
                let j = choose|j: int| 0 <= j < keys.len() && keys[j] == q;
                assert(actions@[keys[j]] == promoted(
                    before[keys[j]],
                    B::is_promotion(self.player, keys[j]),
                ));
            }
            assert forall|q: (int, int)| actions@.dom().contains(q) <==> goal.dom().contains(q) by {
                assert(actions@.dom().contains(q) <==> keys.contains(q));
                assert(before.dom().contains(q) <==> keys.contains(q));
            }
            assert(actions@ =~= goal);
        }
    }

    /// The legal actions of the piece in focus.
    pub fn valid_locations(&self) -> (locations: ActionMap<B>)
        requires
            self.wf(),
        ensures
            locations.wf(),
            locations@ == piece_actions::<B>(
                self.cells(),
                self.origin(),
                self.player,
                self.started_on,
            ),
    {
        let mut locations = ActionMap::new();
        let ghost cells = self.cells();
        let ghost origin = self.origin();
        let ghost nothing = Map::<(int, int), ActionRawView>::empty();
        match self.started_on {
            Piece::King { moved } => {
                let king = Piece::King { moved: true };
                self.move_with_adj(king, &mut locations, 1);
                self.move_with_diag(king, &mut locations, 1);
                self.castle_move(moved, &mut locations);
                proof {
                    let adj = slide_map(cells, origin, self.player, B::rook_vectors(), Some(1int), king);
                    assert(nothing.union_prefer_right(adj) =~= adj);
                }
            },
            Piece::Queen => {
                let far = self.far();
                self.move_with_adj(Piece::Queen, &mut locations, far);
                self.move_with_diag(Piece::Queen, &mut locations, far);
                proof {
                    let adj = slide_map(
                        cells,
                        origin,
                        self.player,
                        B::rook_vectors(),
                        Some(far as int),
                        Piece::Queen,
                    );
                    assert(nothing.union_prefer_right(adj) =~= adj);
                }
            },
            Piece::Rook { .. } => {
                let far = self.far();
                let rook = Piece::Rook { moved: true };
                self.move_with_adj(rook, &mut locations, far);
                proof {
                    let adj = slide_map(
                        cells,
                        origin,
                        self.player,
                        B::rook_vectors(),
                        Some(far as int),
                        rook,
                    );
                    assert(nothing.union_prefer_right(adj) =~= adj);
                }
            },
            Piece::Bishop => {
                let far = self.far();
                self.move_with_diag(Piece::Bishop, &mut locations, far);
                proof {
                    let diag = slide_map(
                        cells,
                        origin,
                        self.player,
                        B::bishop_vectors(),
                        Some(far as int),
                        Piece::Bishop,
                    );
                    assert(nothing.union_prefer_right(diag) =~= diag);
                }
            },
            Piece::Knight => {
                let leaps = B::knight_moves();
                let ghost ways = vectors(leaps@);
                if leaps.len() == 0 {
                    proof {
                        assert forall|p: (int, int)|
                            !leap_map(cells, origin, self.player, ways, Piece::Knight).dom().contains(
                                p,
                            ) by {}
                        assert(leap_map(cells, origin, self.player, ways, Piece::Knight)
                            =~= nothing);
                    }
                    return locations;
                }
                proof {
                    lemma_leap_step(cells, origin, self.player, ways, 0, Piece::Knight);
                }
                let mut i: usize = 0;
                while i < leaps.len()
                    invariant
                        self.wf(),
                        cells == self.cells(),
                        origin == self.origin(),
                        locations.wf(),
                        i <= leaps@.len(),
                        ways == vectors(leaps@),
                        locations@ == leap_map(
                            cells,
                            origin,
                            self.player,
                            ways.take(i as int),
                            Piece::Knight,
                        ),
                    decreases leaps@.len() - i,
                {
                    self.add_if_movable(leaps[i], Piece::Knight, &mut locations);
                    proof {
                        lemma_leap_step(cells, origin, self.player, ways, i as int, Piece::Knight);
                    }
                    i += 1;
                }
                assert(ways.take(leaps@.len() as int) =~= ways);
            },
            Piece::Pawn { .. } => {
                self.forward_pawn(&mut locations);
                proof {
                    let ahead = forward_map(
                        cells,
                        origin,
                        B::forward_vector(self.player),
                        B::is_home(self.player, origin),
                    );
                    assert(nothing.union_prefer_right(ahead) =~= ahead);
                }
                self.capture_pawn(&mut locations);
                self.en_passant(&mut locations);
                assert(locations@ == pawn_map::<B>(cells, origin, self.player));
                self.mk_promotions(&mut locations);
            },
        }
        locations
    }

    /// A number of steps that no ray on the board exceeds, and at least 1.
    /// Sliding with this limit is sliding without a limit.
    pub fn far(&self) -> (steps: u32)
        requires
            self.wf(),
        ensures
            steps >= 1,
            forall|dirs: Seq<(int, int)>, piece: Piece| #[trigger]
                slide_map(
                    self.cells(),
                    self.origin(),
                    self.player,
                    dirs,
                    Some(steps as int),
                    piece,
                ) == slide_map(self.cells(), self.origin(), self.player, dirs, None, piece),
    {
        let reach = self.board.reach();
        let steps = if reach == 0 {
            1
        } else {
            reach
        };
        proof {
            assert forall|dirs: Seq<(int, int)>, piece: Piece| #[trigger]
                slide_map(
                    self.cells(),
                    self.origin(),
                    self.player,
                    dirs,
                    Some(steps as int),
                    piece,
                ) == slide_map(self.cells(), self.origin(), self.player, dirs, None, piece) by {
                lemma_slide_unbounded(
                    self.cells(),
                    self.origin(),
                    self.player,
                    dirs,
                    reach as int,
                    steps as int,
                    piece,
                );
            }
        }
        steps
    }

    /// Empties the square at an offset.
    pub fn remove_at(&mut self, rel: B::Rel)
        ensures
            final(self).cells() == written(
                old(self).cells(),
                plus(old(self).origin(), rel.vector()),
                Square::Empty,
            ),
            final(self).board.wf() == old(self).board.wf(),
            final(self).loc == old(self).loc,
            final(self).player == old(self).player,
            final(self).started_on == old(self).started_on,
    {
        match B::offset(self.loc, rel) {
            Some(loc) => {
                self.board.set_at(loc, Square::Empty);
            },
            None => {
                proof {
                    let p = plus(self.origin(), rel.vector());
                    if self.cells().dom().contains(p) {
                        self.board.lemma_cells_locatable(p);
                    }
                }
            },
        }
    }

    /// Puts a piece of the focus's side on the square at an offset and
    /// empties the square in focus.
    pub fn move_to(&mut self, rel: B::Rel, piece: Piece)
        ensures
            final(self).cells() == relocated(
                old(self).cells(),
                old(self).origin(),
                plus(old(self).origin(), rel.vector()),
                old(self).player,
                piece,
            ),
            final(self).board.wf() == old(self).board.wf(),
            final(self).loc == old(self).loc,
            final(self).player == old(self).player,
            final(self).started_on == old(self).started_on,
    {
        match B::offset(self.loc, rel) {
            Some(loc) => {
                self.board.set_at(loc, Square::Piece(self.player, piece));
            },
            None => {
                proof {
                    let p = plus(self.origin(), rel.vector());
                    if self.cells().dom().contains(p) {
                        self.board.lemma_cells_locatable(p);
                    }
                }
            },
        }
        self.board.set_at(self.loc, Square::Empty);
    }

    /// Takes the `passantable` flag of every pawn on the board down.
    pub fn clear_passing(&mut self)
        ensures
            final(self).cells() == unpassanted(old(self).cells()),
            final(self).board.wf() == old(self).board.wf(),
            final(self).loc == old(self).loc,
            final(self).player == old(self).player,
            final(self).started_on == old(self).started_on,
    {
        let ghost before = self.cells();
        let all = self.board.iter();
        let mut i: usize = 0;
        while i < all.len()
            invariant
                i <= all@.len(),
                self.loc == old(self).loc,
                self.player == old(self).player,
                self.started_on == old(self).started_on,
                self.board.wf() == old(self).board.wf(),
                self.cells().dom() == before.dom(),
                forall|j: int|
                    0 <= j < all@.len() ==> cell_at(before, B::point(#[trigger] all@[j].0)) == Some(
                        all@[j].1,
                    ),
                forall|p: (int, int)|
                    before.dom().contains(p) ==> exists|j: int|
                        0 <= j < all@.len() && B::point(#[trigger] all@[j].0) == p,
                forall|p: (int, int)|
                    before.dom().contains(p) ==> #[trigger] self.cells()[p] == if exists|j: int|
                        0 <= j < i && B::point(#[trigger] all@[j].0) == p {
                        before[p].unpassanted()
                    } else {
                        before[p]
                    },
            decreases all@.len() - i,
        {
            let loc = all[i].0;
            let mut square = all[i].1;
            square.unpassant_pawns();
            let ghost prior = self.cells();
            self.board.set_at(loc, square);
            proof {
                let here = B::point(loc);
                assert(cell_at(before, B::point(all@[i as int].0)) == Some(all@[i as int].1));
                assert(self.cells().dom() =~= before.dom());
                assert forall|p: (int, int)| before.dom().contains(p) implies #[trigger] self.cells()[p]
                    == if exists|j: int| 0 <= j < i + 1 && B::point(#[trigger] all@[j].0) == p {
                    before[p].unpassanted()
                } else {
                    before[p]
                } by {
                    if p == here {
                        assert(B::point(all@[i as int].0) == p);
                    } else {
                        assert(self.cells()[p] == prior[p]);
                        if exists|j: int| 0 <= j < i + 1 && B::point(#[trigger] all@[j].0) == p {
                            let j = choose|j: int|
                                0 <= j < i + 1 && B::point(#[trigger] all@[j].0) == p;
                            assert(0 <= j < i && B::point(all@[j].0) == p);
                        }
                    }
                }
            }
            i += 1;
        }
        proof {
            assert forall|p: (int, int)| before.dom().contains(p) implies self.cells()[p]
                == before[p].unpassanted() by {
                let j = choose|j: int| 0 <= j < all@.len() && B::point(#[trigger] all@[j].0) == p;
                assert(0 <= j < i && B::point(all@[j].0) == p);
            }
            assert(self.cells() =~= unpassanted(before));
        }
    }

    /// Applies an action of the focus's side from the square in focus.
    pub fn apply(&mut self, action: SingleAction<B::Rel>)
        requires
            old(self).wf(),
        ensures
            final(self).cells() == applied::<B>(
                old(self).cells(),
                old(self).origin(),
                old(self).player,
                action@,
            ),
            final(self).board.wf(),
            final(self).loc == old(self).loc,
            final(self).player == old(self).player,
            final(self).started_on == old(self).started_on,
    {
        let ghost origin = self.origin();
        self.clear_passing();
        let ghost base = self.cells();
        assert(base.dom() =~= old(self).cells().dom());
        match action {
            SingleAction::Move(rel, piece) => {
                self.move_to(rel, piece);
            },
            SingleAction::Castle(side) => {
                match side.steps.total() {
                    Some(end) => {
                        self.move_to(end, Piece::King { moved: true });
                    },
                    None => {
                        proof {
                            let p = plus(origin, side@.steps.total());
                            if base.dom().contains(p) {
                                self.board.lemma_displacement_fits(origin, p);
                                assert(minus(p, origin) == side@.steps.total());
                            }
                        }
                        self.board.set_at(self.loc, Square::Empty);
                    },
                }
                let ghost kinged = self.cells();
                assert(kinged.dom() =~= base.dom());
                let ghost rook_from = plus(origin, side.rook.vector());
                let ghost rook_end = plus(origin, plus(side.rook.vector(), side.rook_to.vector()));
                match side.rook.checked_sum(side.rook_to) {
                    Some(way) => match B::offset(self.loc, way) {
                        Some(loc) => {
                            self.board.set_at(loc, Square::Piece(self.player, Piece::Rook { moved: true }));
                        },
                        None => {
                            proof {
                                if kinged.dom().contains(rook_end) {
                                    self.board.lemma_cells_locatable(rook_end);
                                }
                            }
                        },
                    },
                    None => {
                        proof {
                            if kinged.dom().contains(rook_end) {
                                self.board.lemma_displacement_fits(origin, rook_end);
                                assert(minus(rook_end, origin) == plus(
                                    side.rook.vector(),
                                    side.rook_to.vector(),
                                ));
                            }
                        }
                    },
                }
                self.remove_at(side.rook);
            },
            SingleAction::EnPassant(target) => {
                self.move_to(target, Piece::Pawn { passantable: false });
                let passed = B::forward_one(self.player.other());
                let ghost taken = plus(origin, plus(target.vector(), passed.vector()));
                match target.checked_sum(passed) {
                    Some(behind) => {
                        self.remove_at(behind);
                    },
                    None => {
                        proof {
                            assert(self.cells().dom() =~= base.dom());
                            if base.dom().contains(taken) {
                                self.board.lemma_displacement_fits(origin, taken);
                                assert(minus(taken, origin) == plus(
                                    target.vector(),
                                    passed.vector(),
                                ));
                            }
                        }
                    },
                }
            },
        }
    }
}

} // verus!
