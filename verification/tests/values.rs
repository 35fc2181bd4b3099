use duck_chess::boardfocus::{promotion_choices, BoardFocus, MoveType};
use duck_chess::menuboard::MenuBoard;
use duck_chess::{
    ActionMap, ActionRaw, Board, Castle, ChessBoard, Color, Coord, Dir, Loc, Offset, Piece, Rel,
    RelIter, Side, SingleAction, Square,
};

#[test]
fn piece_short_names_and_kinds() {
    let names: Vec<char> = Piece::all().iter().map(|p| p.short_name()).collect();
    assert_eq!(names, vec!['K', 'Q', 'N', 'R', 'B', 'P']);
    assert_eq!(Color::White.short_name(), 'w');
    assert_eq!(Color::Black.short_name(), 'b');
    assert_eq!(Color::all(), [Color::White, Color::Black]);
}

#[test]
fn square_helpers() {
    let king = Square::piece(Color::Black, Piece::King { moved: true });
    assert!(king.is_king(Color::Black));
    assert!(!king.is_king(Color::White));
    assert!(!Square::Duck.is_king(Color::White));
    assert_eq!(king.get_piece(), Some((Color::Black, Piece::King { moved: true })));
    assert_eq!(Square::Empty.get_piece(), None);
    let mut pawn = Square::piece(Color::White, Piece::Pawn { passantable: true });
    pawn.unpassant_pawns();
    assert_eq!(pawn, Square::piece(Color::White, Piece::Pawn { passantable: false }));
    let mut rook = Square::piece(Color::White, Piece::Rook { moved: false });
    rook.unpassant_pawns();
    assert_eq!(rook, Square::piece(Color::White, Piece::Rook { moved: false }));
}

#[test]
fn square_moves_sets_the_flags() {
    let pawn = Square::piece(Color::White, Piece::Pawn { passantable: false });
    assert_eq!(
        pawn.moves(Rel::new(0, -2)),
        Square::piece(Color::White, Piece::Pawn { passantable: true })
    );
    assert_eq!(
        pawn.moves(Rel::new(0, 2)),
        Square::piece(Color::White, Piece::Pawn { passantable: true })
    );
    assert_eq!(pawn.moves(Rel::new(0, -1)), pawn);
    assert_eq!(pawn.moves(Rel::new(2, 0)), pawn);
    let king = Square::piece(Color::Black, Piece::King { moved: false });
    assert_eq!(
        king.moves(Rel::new(1, 0)),
        Square::piece(Color::Black, Piece::King { moved: true })
    );
    let rook = Square::piece(Color::Black, Piece::Rook { moved: false });
    assert_eq!(
        rook.moves(Rel::new(0, 3)),
        Square::piece(Color::Black, Piece::Rook { moved: true })
    );
    assert_eq!(Square::Duck.moves(Rel::new(0, 2)), Square::Duck);
    let knight = Square::piece(Color::Black, Piece::Knight);
    assert_eq!(knight.moves(Rel::new(1, 2)), knight);
}

#[test]
fn rel_arithmetic() {
    assert_eq!(Rel::origin(), Rel::new(0, 0));
    assert_eq!(Rel::default(), Rel::new(0, 0));
    assert_eq!(Rel::new(1, -2).shift(3, 4), Rel::new(4, 2));
    assert_eq!(Rel::new(1, -2).checked_sum(Rel::new(-1, 2)), Some(Rel::new(0, 0)));
    assert_eq!(Rel::new(i32::MAX, 0).checked_sum(Rel::new(1, 0)), None);
    assert_eq!(Rel::new(0, i32::MIN).checked_sum(Rel::new(0, -1)), None);
    assert_eq!(Rel::new(1, 1).checked_stride(Rel::new(2, -3), 4), Some(Rel::new(9, -11)));
    assert_eq!(Rel::new(0, 0).checked_stride(Rel::new(1, 0), u32::MAX), None);
    assert_eq!(Rel::new(-5, 0).checked_stride(Rel::new(1, 0), 5), Some(Rel::new(0, 0)));
    assert!(Rel::new(2, 3).same(&Rel::new(2, 3)));
    assert!(!Rel::new(2, 3).same(&Rel::new(3, 2)));
    assert_eq!(Dir::new(1, 2).checked_sum(Dir::new(3, 4)), Some(Dir::new(4, 6)));
    assert_eq!(Dir::new(i32::MIN, 0).checked_sum(Dir::new(-1, 0)), None);
    assert_eq!(Dir::new(1, 2).checked_stride(Dir::new(1, -1), 3), Some(Dir::new(4, -1)));
    assert_eq!(<Dir as Offset>::origin(), Dir::default());
}

#[test]
fn location_plus_offset() {
    assert_eq!(Board::offset(Loc::new(4, 6), Rel::new(0, -2)), Some(Loc::new(4, 4)));
    assert_eq!(Board::offset(Loc::new(0, 0), Rel::new(-1, 0)), None);
    assert_eq!(Board::offset(Loc::new(0, 0), Rel::new(0, -1)), None);
    assert_eq!(Board::offset(Loc::new(usize::MAX, 0), Rel::new(1, 0)), None);
    assert_eq!(Board::offset(Loc::new(7, 7), Rel::new(5, 5)), Some(Loc::new(12, 12)));
    assert!(Board::same_loc(&Loc::new(1, 2), &Loc::new(1, 2)));
    assert!(!Board::same_loc(&Loc::new(1, 2), &Loc::new(2, 1)));
    assert_eq!(Loc::default(), Loc::new(0, 0));
}

#[test]
fn run_of_offsets() {
    let mut run = RelIter::new(Rel::new(1, 0), 2);
    assert_eq!(run.from, Rel::new(0, 0));
    assert_eq!(run.total(), Some(Rel::new(2, 0)));
    assert_eq!(run.next(), Some(Rel::new(1, 0)));
    assert_eq!(run.next(), Some(Rel::new(2, 0)));
    assert_eq!(run.next(), None);
    assert_eq!(run.fuel, 0);
    assert_eq!(run.total(), Some(Rel::new(2, 0)));
    assert_eq!(RelIter::new(Rel::new(1, 1), 0).total(), Some(Rel::new(0, 0)));
    assert_eq!(RelIter::new(Rel::new(i32::MAX, 0), 2).total(), None);
    let mut stuck = RelIter { from: Rel::new(i32::MAX, 0), fuel: 1, step: Rel::new(1, 0) };
    assert_eq!(stuck.next(), None);
    assert_eq!(stuck.fuel, 1);
    assert!(RelIter::new(Rel::new(1, 0), 2).same(&RelIter::new(Rel::new(1, 0), 2)));
    assert!(!RelIter::new(Rel::new(1, 0), 2).same(&RelIter::new(Rel::new(1, 0), 3)));
}

#[test]
fn sides_give_the_castle_geometry() {
    assert_eq!(Side::all(), [Side::King, Side::Queen]);
    assert_eq!(Side::King.rook(), Rel::new(3, 0));
    assert_eq!(Side::Queen.rook(), Rel::new(-4, 0));
    assert_eq!(Side::King.rook_to(), Rel::new(-2, 0));
    assert_eq!(Side::Queen.rook_to(), Rel::new(3, 0));
    assert_eq!(Side::King.dir(), Rel::new(1, 0));
    assert_eq!(Side::Queen.dir(), Rel::new(-1, 0));
    let board = Board::default();
    assert_eq!(
        board.castle_rooks(),
        vec![
            Castle {
                rook: Rel::new(3, 0),
                rook_to: Rel::new(-2, 0),
                steps: RelIter::new(Rel::new(1, 0), 2)
            },
            Castle {
                rook: Rel::new(-4, 0),
                rook_to: Rel::new(3, 0),
                steps: RelIter::new(Rel::new(-1, 0), 2)
            },
        ]
    );
}

#[test]
fn square_geometry() {
    let board = Board::default();
    assert_eq!(Board::knight_moves().len(), 8);
    assert_eq!(
        board.rook_dirs(),
        vec![Rel::new(1, 0), Rel::new(-1, 0), Rel::new(0, 1), Rel::new(0, -1)]
    );
    assert_eq!(
        board.bishop_dirs(),
        vec![Rel::new(1, 1), Rel::new(-1, 1), Rel::new(1, -1), Rel::new(-1, -1)]
    );
    assert_eq!(Board::forward_one(Color::White), Rel::new(0, -1));
    assert_eq!(Board::forward_one(Color::Black), Rel::new(0, 1));
    assert_eq!(board.takeable(Color::White), vec![Rel::new(1, -1), Rel::new(-1, -1)]);
    assert_eq!(board.takeable(Color::Black), vec![Rel::new(1, 1), Rel::new(-1, 1)]);
    assert!(board.home_for(Color::White, Loc::new(3, 6)));
    assert!(!board.home_for(Color::White, Loc::new(3, 1)));
    assert!(board.home_for(Color::Black, Loc::new(3, 1)));
    assert!(board.can_promote(Color::White, Loc::new(3, 0)));
    assert!(!board.can_promote(Color::White, Loc::new(3, 7)));
    assert!(board.can_promote(Color::Black, Loc::new(3, 7)));
    assert_eq!(board.reach(), 8);
}

#[test]
fn offers_take_up_submitted_actions() {
    let plain = ActionRaw::move_it(Rel::new(0, -1), Piece::Queen);
    assert!(plain.contains(&SingleAction::Move(Rel::new(0, -1), Piece::Queen)));
    assert!(!plain.contains(&SingleAction::Move(Rel::new(0, -1), Piece::Knight)));
    assert!(!plain.contains(&SingleAction::Move(Rel::new(0, -2), Piece::Queen)));
    assert!(!plain.contains(&SingleAction::EnPassant(Rel::new(0, -1))));
    let passing = ActionRaw::en_passant(Rel::new(1, -1));
    assert!(passing.contains(&SingleAction::EnPassant(Rel::new(1, -1))));
    assert!(!passing.contains(&SingleAction::EnPassant(Rel::new(-1, -1))));
    let promotion = ActionRaw::Promotion(Rel::new(0, -1), promotion_choices());
    assert!(promotion.contains(&SingleAction::Move(Rel::new(0, -1), Piece::Queen)));
    assert!(promotion.contains(&SingleAction::Move(Rel::new(0, -1), Piece::Rook { moved: true })));
    assert!(!promotion.contains(&SingleAction::Move(Rel::new(0, -1), Piece::Rook { moved: false })));
    assert!(!promotion.contains(&SingleAction::Move(Rel::new(0, -1), Piece::King { moved: true })));
    assert!(!promotion.contains(&SingleAction::Move(Rel::new(1, -1), Piece::Queen)));
    assert!(!promotion.contains(&SingleAction::EnPassant(Rel::new(0, -1))));
    let castle = Castle {
        rook: Rel::new(3, 0),
        rook_to: Rel::new(-2, 0),
        steps: RelIter::new(Rel::new(1, 0), 2),
    };
    let other = Castle { rook_to: Rel::new(-1, 0), ..castle };
    assert!(ActionRaw::castle(castle).contains(&SingleAction::Castle(castle)));
    assert!(!ActionRaw::castle(castle).contains(&SingleAction::Castle(other)));
    assert_eq!(promotion.duplicate(), promotion);
}

#[test]
fn action_map_keeps_one_offer_per_destination() {
    let mut map: ActionMap<Board> = ActionMap::new();
    assert_eq!(map.len(), 0);
    map.insert(Loc::new(1, 1), ActionRaw::move_it(Rel::new(1, 1), Piece::Queen));
    map.insert(Loc::new(2, 2), ActionRaw::move_it(Rel::new(2, 2), Piece::Queen));
    map.insert(Loc::new(1, 1), ActionRaw::en_passant(Rel::new(1, 1)));
    assert_eq!(map.len(), 2);
    assert_eq!(map.get(Loc::new(1, 1)), Some(&ActionRaw::en_passant(Rel::new(1, 1))));
    assert_eq!(map.get(Loc::new(3, 3)), None);
    assert!(map.contains_key(Loc::new(2, 2)));
    assert_eq!(map.locations(), vec![Loc::new(1, 1), Loc::new(2, 2)]);
    assert_eq!(map.key_at(1), Loc::new(2, 2));
    assert_eq!(map.value_at(0), &ActionRaw::en_passant(Rel::new(1, 1)));
    assert!(map.offers(&SingleAction::EnPassant(Rel::new(1, 1))));
    assert!(!map.offers(&SingleAction::Move(Rel::new(1, 1), Piece::Queen)));
}

#[test]
fn move_type_gives_its_offset() {
    assert_eq!(MoveType::Move(Rel::new(1, 2)).get(), Rel::new(1, 2));
    assert_eq!(MoveType::Take(Rel::new(3, 4)).get(), Rel::new(3, 4));
}

#[test]
fn focus_reads_and_writes_around_its_square() {
    assert!(BoardFocus::new(Board::default(), Loc::new(4, 4)).is_none());
    assert!(BoardFocus::new(Board::default(), Loc::new(9, 9)).is_none());
    let mut focus = match BoardFocus::new(Board::default(), Loc::new(4, 6)) {
        Some(focus) => focus,
        None => panic!("a pawn stands on e2"),
    };
    assert_eq!(focus.player, Color::White);
    assert_eq!(focus.started_on, Piece::Pawn { passantable: false });
    assert_eq!(focus.get(Rel::new(0, -1)), Some(Square::Empty));
    assert_eq!(focus.get(Rel::new(0, 2)), None);
    assert_eq!(focus.can_move_to(Rel::new(0, -1)), Some(MoveType::Move(Rel::new(0, -1))));
    assert_eq!(focus.can_move_to(Rel::new(0, -5)), Some(MoveType::Take(Rel::new(0, -5))));
    assert_eq!(focus.can_move_to(Rel::new(1, 0)), None);
    assert_eq!(focus.can_move_to(Rel::new(0, 5)), None);
    assert_eq!(focus.valid_locations_for(Color::Black).len(), 0);
    assert_eq!(focus.valid_locations_for(Color::White).len(), 2);
    assert_eq!(focus.far(), 8);
    focus.move_to(Rel::new(0, -1), Piece::Queen);
    assert_eq!(focus.get(Rel::new(0, -1)), Some(Square::piece(Color::White, Piece::Queen)));
    assert_eq!(focus.get(Rel::new(0, 0)), Some(Square::Empty));
    focus.remove_at(Rel::new(0, -1));
    assert_eq!(focus.get(Rel::new(0, -1)), Some(Square::Empty));
    focus.remove_at(Rel::new(0, 9));
    assert!(focus.shift(Rel::new(0, 1)));
    assert_eq!(focus.loc, Loc::new(4, 7));
    assert!(!focus.shift(Rel::new(-5, 0)));
    assert_eq!(focus.loc, Loc::new(4, 7));
}

#[test]
fn coordinates_are_stored_by_row() {
    assert_eq!(Coord::center(), Coord::new(0, 0));
    assert_eq!(Coord::new(0, 0).to_xy(5), Some((5, 5)));
    assert_eq!(Coord::new(-5, 0).to_xy(5), Some((0, 5)));
    assert_eq!(Coord::new(0, -5).to_xy(5), Some((0, 0)));
    assert_eq!(Coord::new(5, -5).to_xy(5), Some((5, 0)));
    assert_eq!(Coord::new(-5, 5).to_xy(5), Some((0, 10)));
    assert_eq!(Coord::new(-6, 0).to_xy(5), None);
    assert_eq!(Coord::new(0, -6).to_xy(5), None);
    assert_eq!(Coord::new(-1, -5).to_xy(5), None);
    assert_eq!(Coord::from_xy(5, 5, 5), Coord::new(0, 0));
    assert_eq!(Coord::from_xy(0, 0, 5), Coord::new(0, -5));
    assert_eq!(Coord::from_xy(5, 0, 5), Coord::new(5, -5));
    assert_eq!(Coord::from_xy(0, 10, 5), Coord::new(-5, 5));
    assert_eq!(Coord::from_xy(3, 2, 5), Coord::new(1, -3));
    assert_eq!(Coord::new(1, -3).to_xy(5), Some((3, 2)));
}

#[test]
fn menu_board_becomes_a_one_row_board() {
    let row = vec![
        Square::piece(Color::White, Piece::Queen),
        Square::piece(Color::White, Piece::Knight),
    ];
    let menu = MenuBoard::new(row.clone());
    assert_eq!(menu.grid, row);
    let board = Board::from(menu);
    assert_eq!(board.height(), 1);
    assert_eq!(board.width(), 2);
    assert_eq!(board.rows(), &vec![row]);
    assert_eq!(board.get(Loc::new(1, 0)), Some(Square::piece(Color::White, Piece::Knight)));
    assert_eq!(board.get(Loc::new(0, 1)), None);
}

#[test]
fn board_of_uneven_rows() {
    let board = Board {
        grid: vec![
            vec![Square::Empty, Square::Duck],
            vec![],
            vec![Square::Empty, Square::Empty, Square::Duck],
        ],
    };
    assert_eq!(board.width(), 2);
    assert_eq!(board.height(), 3);
    assert_eq!(board.duck(), Some(Loc::new(1, 0)));
    assert_eq!(board.empties(), vec![Loc::new(0, 0), Loc::new(0, 2), Loc::new(1, 2)]);
    assert_eq!(board.iter().len(), 5);
    assert_eq!(board.reach(), 3);
    assert_eq!(
        board.squares(),
        vec![Square::Empty, Square::Duck, Square::Empty, Square::Empty, Square::Duck]
    );
    assert_eq!(board.duplicate(), board);
    assert_eq!(Board { grid: vec![] }.width(), 0);
    assert_eq!(Board { grid: vec![] }.reach(), 0);
}
