use duck_chess::{
    ActionRaw, ChessBoard, Color, Coord, Dir, GameRaw, Hexboard, Piece, SingleAction, Square,
    TurnError, TurnRaw,
};

fn empty_hexagon() -> Hexboard {
    let mut board = Hexboard::new();
    for (coord, _) in board.iter() {
        board.set_at(coord, Square::Empty);
    }
    board
}

fn hex_game_on(board: Hexboard, turns_played: usize) -> GameRaw<Hexboard> {
    let filler = TurnRaw {
        from: Coord::new(0, 0),
        action: SingleAction::Move(Dir::new(0, 0), Piece::Queen),
        duck_to: Coord::new(0, 0),
    };
    GameRaw { board, turns: vec![filler; turns_played], duck_loc: None }
}

fn hex_pawn() -> Piece {
    Piece::Pawn { passantable: false }
}

#[test]
fn hexagon_has_91_cells_in_rows_of_6_to_11() {
    let board = Hexboard::new();
    assert_eq!(board.grid.len(), 11);
    let lengths: Vec<usize> = board.grid.iter().map(|row| row.len()).collect();
    assert_eq!(lengths, vec![6, 7, 8, 9, 10, 11, 10, 9, 8, 7, 6]);
    assert_eq!(board.iter().len(), 91);
}

#[test]
fn hexagon_opening_layout_is_in_place() {
    let board = Hexboard::default();
    let white = |p| Some(Square::piece(Color::White, p));
    let black = |p| Some(Square::piece(Color::Black, p));
    assert_eq!(board.get(Coord::new(1, 4)), white(Piece::King { moved: false }));
    assert_eq!(board.get(Coord::new(1, -5)), black(Piece::King { moved: false }));
    assert_eq!(board.get(Coord::new(-1, 5)), white(Piece::Queen));
    assert_eq!(board.get(Coord::new(-1, -4)), black(Piece::Queen));
    assert_eq!(board.get(Coord::new(2, 3)), white(Piece::Knight));
    assert_eq!(board.get(Coord::new(-2, 5)), white(Piece::Knight));
    assert_eq!(board.get(Coord::new(2, -5)), black(Piece::Knight));
    assert_eq!(board.get(Coord::new(-2, -3)), black(Piece::Knight));
    assert_eq!(board.get(Coord::new(3, 2)), white(Piece::Rook { moved: false }));
    assert_eq!(board.get(Coord::new(-3, 5)), white(Piece::Rook { moved: false }));
    assert_eq!(board.get(Coord::new(3, -5)), black(Piece::Rook { moved: false }));
    assert_eq!(board.get(Coord::new(-3, -2)), black(Piece::Rook { moved: false }));
    for r in 3..=5 {
        assert_eq!(board.get(Coord::new(0, r)), white(Piece::Bishop));
        assert_eq!(board.get(Coord::new(0, -r)), black(Piece::Bishop));
    }
    for (q, r) in [(0, 1), (1, 1), (2, 1), (3, 1), (4, 1), (-1, 2), (-2, 3), (-3, 4), (-4, 5)] {
        assert_eq!(board.get(Coord::new(q, r)), white(hex_pawn()));
        assert_eq!(board.get(Coord::new(-q, -r)), black(hex_pawn()));
    }
    assert_eq!(board.get(Coord::new(0, 0)), Some(Square::Empty));
    assert_eq!(board.get(Coord::new(0, 2)), Some(Square::Empty));
    let pieces = board.iter().into_iter().filter(|(_, s)| *s != Square::Empty).count();
    assert_eq!(pieces, 36);
}

#[test]
fn hexagon_edges_are_the_edges_of_the_board() {
    let board = Hexboard::new();
    assert!(board.get(Coord::new(5, 0)).is_some());
    assert!(board.get(Coord::new(6, 0)).is_none());
    assert!(board.get(Coord::new(-5, 5)).is_some());
    assert!(board.get(Coord::new(-5, -1)).is_none());
    assert!(board.get(Coord::new(5, -5)).is_some());
    assert!(board.get(Coord::new(5, 1)).is_none());
    assert!(board.get(Coord::new(0, 6)).is_none());
    assert!(board.get(Coord::new(0, -6)).is_none());
    assert!(board.get(Coord::new(i32::MAX, i32::MAX)).is_none());
    assert!(board.get(Coord::new(i32::MIN, i32::MIN)).is_none());
}

#[test]
fn hexagon_pawn_squares_and_promotion_squares() {
    assert_eq!(
        Hexboard::pawn_squares(Color::White),
        vec![
            Coord::new(0, 1),
            Coord::new(1, 1),
            Coord::new(2, 1),
            Coord::new(3, 1),
            Coord::new(4, 1),
            Coord::new(-1, 2),
            Coord::new(-2, 3),
            Coord::new(-3, 4),
            Coord::new(-4, 5),
        ]
    );
    assert_eq!(Hexboard::pawn_squares(Color::Black)[8], Coord::new(4, -5));
    let white = Hexboard::promote_squares(Color::White);
    assert_eq!(white.len(), 11);
    assert_eq!(white[0], Coord::new(0, -5));
    assert_eq!(white[5], Coord::new(5, -5));
    assert_eq!(white[10], Coord::new(-5, 0));
    let black = Hexboard::promote_squares(Color::Black);
    assert_eq!(black[0], Coord::new(0, 5));
    assert_eq!(black[5], Coord::new(-5, 5));
    assert_eq!(black[10], Coord::new(5, 0));
    let board = Hexboard::new();
    for coord in white.into_iter().chain(black) {
        assert!(board.get(coord).is_some());
        let ring = coord.q.abs().max(coord.r.abs()).max((coord.q + coord.r).abs());
        assert_eq!(ring, 5);
    }
    assert!(board.can_promote(Color::White, Coord::new(3, -5)));
    assert!(!board.can_promote(Color::White, Coord::new(3, -4)));
    assert!(!board.can_promote(Color::Black, Coord::new(3, -5)));
    assert!(board.home_for(Color::White, Coord::new(-2, 3)));
    assert!(!board.home_for(Color::Black, Coord::new(-2, 3)));
}

#[test]
fn hexagon_geometry_has_twelve_leaps_and_six_directions_each() {
    let board = Hexboard::new();
    assert_eq!(Hexboard::knight_moves().len(), 12);
    assert_eq!(board.rook_dirs().len(), 6);
    assert_eq!(board.bishop_dirs().len(), 6);
    assert_eq!(board.castle_rooks().len(), 0);
    assert_eq!(Hexboard::forward_one(Color::White), Dir::new(0, -1));
    assert_eq!(Hexboard::forward_one(Color::Black), Dir::new(0, 1));
    assert_eq!(board.takeable(Color::White), vec![Dir::new(-1, 0), Dir::new(1, -1)]);
    assert_eq!(board.takeable(Color::Black), vec![Dir::new(1, 0), Dir::new(-1, 1)]);
}

#[test]
fn hexagon_pieces_in_the_centre_of_an_empty_board() {
    for (piece, count) in [
        (Piece::Rook { moved: true }, 30),
        (Piece::Bishop, 12),
        (Piece::Queen, 42),
        (Piece::Knight, 12),
        (Piece::King { moved: true }, 12),
        (Piece::King { moved: false }, 12),
    ] {
        let mut board = empty_hexagon();
        board.set_at(Coord::new(0, 0), Square::piece(Color::White, piece));
        let game = hex_game_on(board, 0);
        assert_eq!(game.valid_locations_from(Coord::new(0, 0)).len(), count);
    }
}

#[test]
fn hexagon_rook_slides_the_whole_file_of_ten_squares() {
    let mut board = empty_hexagon();
    board.set_at(Coord::new(0, -5), Square::piece(Color::White, Piece::Rook { moved: false }));
    let game = hex_game_on(board, 0);
    let offers = game.valid_locations_from(Coord::new(0, -5));
    assert_eq!(offers.len(), 20);
    assert_eq!(
        offers.get(Coord::new(0, 5)),
        Some(&ActionRaw::move_it(Dir::new(0, 10), Piece::Rook { moved: true }))
    );
    assert_eq!(
        offers.get(Coord::new(5, -5)),
        Some(&ActionRaw::move_it(Dir::new(5, 0), Piece::Rook { moved: true }))
    );
}

#[test]
fn hexagon_pawn_advances_one_or_two_from_home() {
    let game = GameRaw::<Hexboard>::empty_board();
    let facing = game.valid_locations_from(Coord::new(0, 1));
    assert_eq!(facing.len(), 1);
    assert_eq!(
        facing.get(Coord::new(0, 0)),
        Some(&ActionRaw::move_it(Dir::new(0, -1), hex_pawn()))
    );
    assert_eq!(facing.get(Coord::new(0, -1)), None);
    let free = game.valid_locations_from(Coord::new(-1, 2));
    assert_eq!(free.len(), 2);
    assert_eq!(
        free.get(Coord::new(-1, 1)),
        Some(&ActionRaw::move_it(Dir::new(0, -1), hex_pawn()))
    );
    assert_eq!(
        free.get(Coord::new(-1, 0)),
        Some(&ActionRaw::move_it(Dir::new(0, -2), Piece::Pawn { passantable: true }))
    );
}

#[test]
fn hexagon_first_turn_is_played() {
    let mut game = GameRaw::<Hexboard>::empty_board();
    let turn = TurnRaw {
        from: Coord::new(1, 1),
        action: SingleAction::Move(Dir::new(0, -2), Piece::Pawn { passantable: true }),
        duck_to: Coord::new(0, 0),
    };
    assert_eq!(game.apply_turn(turn), Ok(()));
    assert_eq!(
        game.get(Coord::new(1, -1)),
        Some(Square::piece(Color::White, Piece::Pawn { passantable: true }))
    );
    assert_eq!(game.get(Coord::new(1, 1)), Some(Square::Empty));
    assert_eq!(game.get(Coord::new(0, 0)), Some(Square::Duck));
    assert_eq!(game.turn(), Color::Black);
    assert_eq!(game.game_over(), None);
}

#[test]
fn hexagon_en_passant_takes_the_pawn_that_passed() {
    let mut board = empty_hexagon();
    board.set_at(Coord::new(0, 5), Square::piece(Color::White, Piece::King { moved: false }));
    board.set_at(Coord::new(0, -5), Square::piece(Color::Black, Piece::King { moved: false }));
    board.set_at(Coord::new(-1, -1), Square::piece(Color::Black, hex_pawn()));
    board.set_at(Coord::new(0, 0), Square::piece(Color::White, hex_pawn()));
    let mut game = hex_game_on(board, 1);
    let push = TurnRaw {
        from: Coord::new(-1, -1),
        action: SingleAction::Move(Dir::new(0, 2), Piece::Pawn { passantable: true }),
        duck_to: Coord::new(4, 0),
    };
    assert_eq!(game.apply_turn(push), Ok(()));
    let offers = game.valid_locations_from(Coord::new(0, 0));
    assert_eq!(offers.get(Coord::new(-1, 0)), Some(&ActionRaw::en_passant(Dir::new(-1, 0))));
    let capture = TurnRaw {
        from: Coord::new(0, 0),
        action: SingleAction::EnPassant(Dir::new(-1, 0)),
        duck_to: Coord::new(4, 1),
    };
    assert_eq!(game.apply_turn(capture), Ok(()));
    assert_eq!(game.get(Coord::new(-1, 0)), Some(Square::piece(Color::White, hex_pawn())));
    assert_eq!(game.get(Coord::new(-1, 1)), Some(Square::Empty));
    assert_eq!(game.get(Coord::new(0, 0)), Some(Square::Empty));
}

#[test]
fn hexagon_pawn_is_promoted_on_the_far_edge() {
    let mut board = empty_hexagon();
    board.set_at(Coord::new(2, -4), Square::piece(Color::White, hex_pawn()));
    board.set_at(Coord::new(0, 5), Square::piece(Color::White, Piece::King { moved: false }));
    board.set_at(Coord::new(0, -5), Square::piece(Color::Black, Piece::King { moved: false }));
    let mut game = hex_game_on(board, 0);
    let offers = game.valid_locations_from(Coord::new(2, -4));
    assert_eq!(
        offers.get(Coord::new(2, -5)),
        Some(&ActionRaw::Promotion(
            Dir::new(0, -1),
            vec![Piece::Queen, Piece::Knight, Piece::Rook { moved: true }, Piece::Bishop]
        ))
    );
    let as_pawn = TurnRaw {
        from: Coord::new(2, -4),
        action: SingleAction::Move(Dir::new(0, -1), hex_pawn()),
        duck_to: Coord::new(0, 0),
    };
    assert_eq!(game.apply_turn(as_pawn), Err(TurnError::InvalidAction));
    let as_knight = TurnRaw { action: SingleAction::Move(Dir::new(0, -1), Piece::Knight), ..as_pawn };
    assert_eq!(game.apply_turn(as_knight), Ok(()));
    assert_eq!(game.get(Coord::new(2, -5)), Some(Square::piece(Color::White, Piece::Knight)));
}

#[test]
fn hexagon_king_capture_ends_the_game() {
    let mut board = empty_hexagon();
    board.set_at(Coord::new(0, 5), Square::piece(Color::White, Piece::King { moved: false }));
    board.set_at(Coord::new(0, -5), Square::piece(Color::Black, Piece::King { moved: false }));
    board.set_at(Coord::new(0, 0), Square::piece(Color::Black, Piece::Queen));
    let mut game = hex_game_on(board, 1);
    let turn = TurnRaw {
        from: Coord::new(0, 0),
        action: SingleAction::Move(Dir::new(0, 5), Piece::Queen),
        duck_to: Coord::new(0, 0),
    };
    assert_eq!(game.apply_turn(turn), Ok(()));
    assert_eq!(game.game_over(), Some(Color::Black));
}
