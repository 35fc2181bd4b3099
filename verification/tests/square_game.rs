use duck_chess::{
    ActionRaw, Board, Castle, ChessBoard, Color, GameRaw, Loc, Piece, Rel, RelIter, SingleAction,
    Square, TurnError, TurnRaw,
};

fn empty_grid() -> Board {
    Board { grid: vec![vec![Square::Empty; 8]; 8] }
}

fn game_on(board: Board, turns_played: usize) -> GameRaw<Board> {
    let filler = TurnRaw {
        from: Loc::new(0, 0),
        action: SingleAction::Move(Rel::new(0, 0), Piece::Queen),
        duck_to: Loc::new(0, 0),
    };
    GameRaw { board, turns: vec![filler; turns_played], duck_loc: None }
}

fn white(piece: Piece) -> Square {
    Square::piece(Color::White, piece)
}

fn black(piece: Piece) -> Square {
    Square::piece(Color::Black, piece)
}

fn pawn() -> Piece {
    Piece::Pawn { passantable: false }
}

fn king() -> Piece {
    Piece::King { moved: false }
}

#[test]
fn new_game_has_white_to_move() {
    let game = GameRaw::<Board>::empty_board();
    assert_eq!(game.turn(), Color::White);
    assert_eq!(game.turns.len(), 0);
    assert_eq!(game.duck_loc, None);
    assert_eq!(game.game_over(), None);
}

#[test]
fn standard_layout_is_in_place() {
    let board = Board::default();
    assert_eq!(board.height(), 8);
    assert_eq!(board.width(), 8);
    assert_eq!(board.get(Loc::new(0, 0)), Some(black(Piece::Rook { moved: false })));
    assert_eq!(board.get(Loc::new(4, 0)), Some(black(king())));
    assert_eq!(board.get(Loc::new(3, 0)), Some(black(Piece::Queen)));
    assert_eq!(board.get(Loc::new(3, 1)), Some(black(pawn())));
    assert_eq!(board.get(Loc::new(3, 3)), Some(Square::Empty));
    assert_eq!(board.get(Loc::new(6, 6)), Some(white(pawn())));
    assert_eq!(board.get(Loc::new(4, 7)), Some(white(king())));
    assert_eq!(board.get(Loc::new(1, 7)), Some(white(Piece::Knight)));
    assert_eq!(board.get(Loc::new(2, 7)), Some(white(Piece::Bishop)));
    assert_eq!(board.get(Loc::new(8, 0)), None);
    assert_eq!(board.get(Loc::new(0, 8)), None);
    assert_eq!(board.empties().len(), 32);
    assert_eq!(board.duck(), None);
    assert_eq!(board.squares().len(), 64);
}

#[test]
fn pawn_double_push_sets_flag_and_passes_the_turn() {
    let mut game = GameRaw::<Board>::empty_board();
    let turn = TurnRaw {
        from: Loc::new(4, 6),
        action: SingleAction::Move(Rel::new(0, -2), Piece::Pawn { passantable: true }),
        duck_to: Loc::new(0, 4),
    };
    assert_eq!(game.apply_turn(turn), Ok(()));
    assert_eq!(game.get(Loc::new(4, 4)), Some(white(Piece::Pawn { passantable: true })));
    assert_eq!(game.get(Loc::new(4, 6)), Some(Square::Empty));
    assert_eq!(game.get(Loc::new(0, 4)), Some(Square::Duck));
    assert_eq!(game.duck_loc, Some(Loc::new(0, 4)));
    assert_eq!(game.turns.len(), 1);
    assert_eq!(game.turn(), Color::Black);
}

#[test]
fn pawn_at_home_is_offered_one_and_two_steps() {
    let game = GameRaw::<Board>::empty_board();
    let offers = game.valid_locations_from(Loc::new(4, 6));
    assert_eq!(offers.len(), 2);
    assert_eq!(
        offers.get(Loc::new(4, 5)),
        Some(&ActionRaw::move_it(Rel::new(0, -1), pawn()))
    );
    assert_eq!(
        offers.get(Loc::new(4, 4)),
        Some(&ActionRaw::move_it(Rel::new(0, -2), Piece::Pawn { passantable: true }))
    );
}

#[test]
fn en_passant_is_legal_right_after_the_double_push() {
    let mut game = GameRaw::<Board>::empty_board();
    game.board.set_at(Loc::new(3, 4), black(pawn()));
    let push = TurnRaw {
        from: Loc::new(4, 6),
        action: SingleAction::Move(Rel::new(0, -2), Piece::Pawn { passantable: true }),
        duck_to: Loc::new(0, 4),
    };
    assert_eq!(game.apply_turn(push), Ok(()));
    let offers = game.valid_locations_from(Loc::new(3, 4));
    assert_eq!(offers.get(Loc::new(4, 5)), Some(&ActionRaw::en_passant(Rel::new(1, 1))));
    let capture = TurnRaw {
        from: Loc::new(3, 4),
        action: SingleAction::EnPassant(Rel::new(1, 1)),
        duck_to: Loc::new(0, 3),
    };
    assert_eq!(game.apply_turn(capture), Ok(()));
    assert_eq!(game.get(Loc::new(4, 5)), Some(black(pawn())));
    assert_eq!(game.get(Loc::new(4, 4)), Some(Square::Empty));
    assert_eq!(game.get(Loc::new(3, 4)), Some(Square::Empty));
    assert_eq!(game.get(Loc::new(0, 4)), Some(Square::Empty));
    assert_eq!(game.get(Loc::new(0, 3)), Some(Square::Duck));
    assert_eq!(game.turn(), Color::White);
}

#[test]
fn en_passant_is_not_legal_before_the_double_push() {
    let mut board = Board::default();
    board.set_at(Loc::new(3, 4), black(pawn()));
    board.set_at(Loc::new(4, 6), Square::Empty);
    board.set_at(Loc::new(4, 4), white(pawn()));
    let mut game = game_on(board, 1);
    assert_eq!(game.turn(), Color::Black);
    let offers = game.valid_locations_from(Loc::new(3, 4));
    assert_eq!(offers.get(Loc::new(4, 5)), None);
    let capture = TurnRaw {
        from: Loc::new(3, 4),
        action: SingleAction::EnPassant(Rel::new(1, 1)),
        duck_to: Loc::new(0, 3),
    };
    assert_eq!(game.apply_turn(capture), Err(TurnError::InvalidAction));
}

#[test]
fn en_passant_is_not_legal_one_move_later() {
    let mut game = GameRaw::<Board>::empty_board();
    game.board.set_at(Loc::new(3, 4), black(pawn()));
    let push = TurnRaw {
        from: Loc::new(4, 6),
        action: SingleAction::Move(Rel::new(0, -2), Piece::Pawn { passantable: true }),
        duck_to: Loc::new(0, 4),
    };
    assert_eq!(game.apply_turn(push), Ok(()));
    let black_knight = TurnRaw {
        from: Loc::new(1, 0),
        action: SingleAction::Move(Rel::new(-1, 2), Piece::Knight),
        duck_to: Loc::new(7, 4),
    };
    assert_eq!(game.apply_turn(black_knight), Ok(()));
    assert_eq!(game.get(Loc::new(4, 4)), Some(white(pawn())));
    let white_knight = TurnRaw {
        from: Loc::new(1, 7),
        action: SingleAction::Move(Rel::new(-1, -2), Piece::Knight),
        duck_to: Loc::new(7, 3),
    };
    assert_eq!(game.apply_turn(white_knight), Ok(()));
    let offers = game.valid_locations_from(Loc::new(3, 4));
    assert_eq!(offers.get(Loc::new(4, 5)), None);
    let capture = TurnRaw {
        from: Loc::new(3, 4),
        action: SingleAction::EnPassant(Rel::new(1, 1)),
        duck_to: Loc::new(0, 3),
    };
    assert_eq!(game.apply_turn(capture), Err(TurnError::InvalidAction));
}

#[test]
fn en_passant_is_blocked_by_the_duck_on_the_landing_square() {
    let mut game = GameRaw::<Board>::empty_board();
    game.board.set_at(Loc::new(3, 4), black(pawn()));
    let push = TurnRaw {
        from: Loc::new(4, 6),
        action: SingleAction::Move(Rel::new(0, -2), Piece::Pawn { passantable: true }),
        duck_to: Loc::new(4, 5),
    };
    assert_eq!(game.apply_turn(push), Ok(()));
    let offers = game.valid_locations_from(Loc::new(3, 4));
    assert_eq!(offers.get(Loc::new(4, 5)), None);
}

#[test]
fn king_side_castle_moves_king_and_rook() {
    let mut game = GameRaw::<Board>::empty_board();
    game.board.set_at(Loc::new(5, 7), Square::Empty);
    game.board.set_at(Loc::new(6, 7), Square::Empty);
    let castle = Castle {
        rook: Rel::new(3, 0),
        rook_to: Rel::new(-2, 0),
        steps: RelIter::new(Rel::new(1, 0), 2),
    };
    let offers = game.valid_locations_from(Loc::new(4, 7));
    assert_eq!(offers.get(Loc::new(6, 7)), Some(&ActionRaw::castle(castle)));
    assert_eq!(
        offers.get(Loc::new(5, 7)),
        Some(&ActionRaw::move_it(Rel::new(1, 0), Piece::King { moved: true }))
    );
    assert_eq!(offers.len(), 2);
    let turn = TurnRaw {
        from: Loc::new(4, 7),
        action: SingleAction::Castle(castle),
        duck_to: Loc::new(4, 7),
    };
    assert_eq!(game.apply_turn(turn), Ok(()));
    assert_eq!(game.get(Loc::new(6, 7)), Some(white(Piece::King { moved: true })));
    assert_eq!(game.get(Loc::new(5, 7)), Some(white(Piece::Rook { moved: true })));
    assert_eq!(game.get(Loc::new(7, 7)), Some(Square::Empty));
    assert_eq!(game.get(Loc::new(4, 7)), Some(Square::Duck));
}

#[test]
fn queen_side_castle_needs_an_empty_path_only() {
    let mut game = GameRaw::<Board>::empty_board();
    game.board.set_at(Loc::new(3, 7), Square::Empty);
    game.board.set_at(Loc::new(2, 7), Square::Empty);
    let castle = Castle {
        rook: Rel::new(-4, 0),
        rook_to: Rel::new(3, 0),
        steps: RelIter::new(Rel::new(-1, 0), 2),
    };
    let offers = game.valid_locations_from(Loc::new(4, 7));
    assert_eq!(offers.get(Loc::new(2, 7)), Some(&ActionRaw::castle(castle)));
    game.apply_from(Loc::new(4, 7), SingleAction::Castle(castle));
    assert_eq!(game.get(Loc::new(2, 7)), Some(white(Piece::King { moved: true })));
    assert_eq!(game.get(Loc::new(3, 7)), Some(white(Piece::Rook { moved: true })));
    assert_eq!(game.get(Loc::new(0, 7)), Some(Square::Empty));
    assert_eq!(game.get(Loc::new(1, 7)), Some(white(Piece::Knight)));
}

#[test]
fn castle_is_not_offered_after_the_king_or_rook_has_moved() {
    let mut game = GameRaw::<Board>::empty_board();
    game.board.set_at(Loc::new(5, 7), Square::Empty);
    game.board.set_at(Loc::new(6, 7), Square::Empty);
    game.board.set_at(Loc::new(7, 7), white(Piece::Rook { moved: true }));
    assert_eq!(game.valid_locations_from(Loc::new(4, 7)).get(Loc::new(6, 7)), None);
    game.board.set_at(Loc::new(7, 7), white(Piece::Rook { moved: false }));
    game.board.set_at(Loc::new(4, 7), white(Piece::King { moved: true }));
    assert_eq!(game.valid_locations_from(Loc::new(4, 7)).get(Loc::new(6, 7)), None);
    game.board.set_at(Loc::new(4, 7), white(king()));
    game.board.set_at(Loc::new(7, 7), black(Piece::Rook { moved: false }));
    assert_eq!(game.valid_locations_from(Loc::new(4, 7)).get(Loc::new(6, 7)), None);
    game.board.set_at(Loc::new(7, 7), white(Piece::Rook { moved: false }));
    game.board.set_at(Loc::new(6, 7), Square::Duck);
    assert_eq!(game.valid_locations_from(Loc::new(4, 7)).get(Loc::new(6, 7)), None);
}

fn promotion_position() -> GameRaw<Board> {
    let mut board = empty_grid();
    board.set_at(Loc::new(0, 1), white(pawn()));
    board.set_at(Loc::new(4, 7), white(king()));
    board.set_at(Loc::new(4, 0), black(king()));
    game_on(board, 0)
}

#[test]
fn pawn_on_the_last_row_is_offered_a_promotion() {
    let game = promotion_position();
    let offers = game.valid_locations_from(Loc::new(0, 1));
    assert_eq!(offers.len(), 1);
    assert_eq!(
        offers.get(Loc::new(0, 0)),
        Some(&ActionRaw::Promotion(
            Rel::new(0, -1),
            vec![Piece::Queen, Piece::Knight, Piece::Rook { moved: true }, Piece::Bishop]
        ))
    );
}

#[test]
fn promotion_to_a_king_is_rejected() {
    let mut game = promotion_position();
    let before = game.board.clone();
    for piece in [
        Piece::King { moved: true },
        Piece::King { moved: false },
        Piece::Pawn { passantable: false },
        Piece::Rook { moved: false },
    ] {
        let turn = TurnRaw {
            from: Loc::new(0, 1),
            action: SingleAction::Move(Rel::new(0, -1), piece),
            duck_to: Loc::new(7, 7),
        };
        assert_eq!(game.apply_turn(turn), Err(TurnError::InvalidAction));
        assert_eq!(game.board, before);
        assert_eq!(game.turns.len(), 0);
    }
}

#[test]
fn promotion_to_each_allowed_piece_succeeds() {
    for piece in [Piece::Queen, Piece::Knight, Piece::Rook { moved: true }, Piece::Bishop] {
        let mut game = promotion_position();
        let turn = TurnRaw {
            from: Loc::new(0, 1),
            action: SingleAction::Move(Rel::new(0, -1), piece),
            duck_to: Loc::new(7, 7),
        };
        assert_eq!(game.apply_turn(turn), Ok(()));
        assert_eq!(game.get(Loc::new(0, 0)), Some(white(piece)));
        assert_eq!(game.get(Loc::new(0, 1)), Some(Square::Empty));
    }
}

#[test]
fn duck_on_an_occupied_square_is_rejected_and_nothing_changes() {
    let mut game = GameRaw::<Board>::empty_board();
    let before = game.board.clone();
    let turn = TurnRaw {
        from: Loc::new(4, 6),
        action: SingleAction::Move(Rel::new(0, -2), Piece::Pawn { passantable: true }),
        duck_to: Loc::new(4, 4),
    };
    assert_eq!(game.apply_turn(turn), Err(TurnError::InvalidDuck));
    assert_eq!(game.board, before);
    assert_eq!(game.turns.len(), 0);
    assert_eq!(game.duck_loc, None);
    assert_eq!(game.turn(), Color::White);
    let off_board = TurnRaw { duck_to: Loc::new(8, 8), ..turn };
    assert_eq!(game.apply_turn(off_board), Err(TurnError::InvalidDuck));
    let on_a_piece = TurnRaw { duck_to: Loc::new(0, 0), ..turn };
    assert_eq!(game.apply_turn(on_a_piece), Err(TurnError::InvalidDuck));
    assert_eq!(game.board, before);
}

#[test]
fn duck_may_go_to_the_square_that_the_piece_has_left() {
    let mut game = GameRaw::<Board>::empty_board();
    let turn = TurnRaw {
        from: Loc::new(4, 6),
        action: SingleAction::Move(Rel::new(0, -1), pawn()),
        duck_to: Loc::new(4, 6),
    };
    assert_eq!(game.apply_turn(turn), Ok(()));
    assert_eq!(game.get(Loc::new(4, 6)), Some(Square::Duck));
}

#[test]
fn duck_leaves_its_earlier_square() {
    let mut game = GameRaw::<Board>::empty_board();
    let first = TurnRaw {
        from: Loc::new(4, 6),
        action: SingleAction::Move(Rel::new(0, -1), pawn()),
        duck_to: Loc::new(0, 3),
    };
    assert_eq!(game.apply_turn(first), Ok(()));
    let second = TurnRaw {
        from: Loc::new(4, 1),
        action: SingleAction::Move(Rel::new(0, 1), pawn()),
        duck_to: Loc::new(7, 4),
    };
    assert_eq!(game.apply_turn(second), Ok(()));
    assert_eq!(game.get(Loc::new(0, 3)), Some(Square::Empty));
    assert_eq!(game.get(Loc::new(7, 4)), Some(Square::Duck));
    let ducks = game.board.squares().into_iter().filter(|s| *s == Square::Duck).count();
    assert_eq!(ducks, 1);
    assert_eq!(game.board.duck(), Some(Loc::new(7, 4)));
}

#[test]
fn capturing_the_black_king_ends_the_game() {
    let mut board = empty_grid();
    board.set_at(Loc::new(4, 7), white(king()));
    board.set_at(Loc::new(0, 4), white(Piece::Rook { moved: true }));
    board.set_at(Loc::new(0, 0), black(king()));
    let mut game = game_on(board, 0);
    assert_eq!(game.game_over(), None);
    let turn = TurnRaw {
        from: Loc::new(0, 4),
        action: SingleAction::Move(Rel::new(0, -4), Piece::Rook { moved: true }),
        duck_to: Loc::new(5, 5),
    };
    assert_eq!(game.apply_turn(turn), Ok(()));
    assert_eq!(game.game_over(), Some(Color::White));
}

#[test]
fn game_over_names_black_when_white_has_no_king() {
    let mut board = empty_grid();
    board.set_at(Loc::new(0, 0), black(king()));
    assert_eq!(game_on(board, 0).game_over(), Some(Color::Black));
    assert_eq!(game_on(empty_grid(), 0).game_over(), Some(Color::Black));
}

#[test]
fn moving_a_piece_of_the_other_side_is_rejected() {
    let mut game = GameRaw::<Board>::empty_board();
    let turn = TurnRaw {
        from: Loc::new(4, 1),
        action: SingleAction::Move(Rel::new(0, 1), pawn()),
        duck_to: Loc::new(0, 4),
    };
    assert_eq!(game.apply_turn(turn), Err(TurnError::InvalidAction));
    assert_eq!(game.valid_locations_from(Loc::new(4, 1)).len(), 0);
}

#[test]
fn moving_from_an_empty_square_is_rejected() {
    let mut game = GameRaw::<Board>::empty_board();
    let turn = TurnRaw {
        from: Loc::new(4, 4),
        action: SingleAction::Move(Rel::new(0, 1), pawn()),
        duck_to: Loc::new(0, 4),
    };
    assert_eq!(game.apply_turn(turn), Err(TurnError::InvalidAction));
    let off = TurnRaw { from: Loc::new(9, 9), ..turn };
    assert_eq!(game.apply_turn(off), Err(TurnError::InvalidAction));
}

#[test]
fn rook_ray_ends_on_the_first_enemy_piece() {
    let mut board = empty_grid();
    board.set_at(Loc::new(0, 7), white(Piece::Rook { moved: false }));
    board.set_at(Loc::new(3, 7), black(Piece::Knight));
    board.set_at(Loc::new(5, 7), black(Piece::Knight));
    let game = game_on(board, 0);
    let offers = game.valid_locations_from(Loc::new(0, 7));
    let rook = Piece::Rook { moved: true };
    assert_eq!(offers.get(Loc::new(1, 7)), Some(&ActionRaw::move_it(Rel::new(1, 0), rook)));
    assert_eq!(offers.get(Loc::new(2, 7)), Some(&ActionRaw::move_it(Rel::new(2, 0), rook)));
    assert_eq!(offers.get(Loc::new(3, 7)), Some(&ActionRaw::move_it(Rel::new(3, 0), rook)));
    assert_eq!(offers.get(Loc::new(4, 7)), None);
    assert_eq!(offers.get(Loc::new(5, 7)), None);
    assert_eq!(offers.get(Loc::new(0, 0)), Some(&ActionRaw::move_it(Rel::new(0, -7), rook)));
    assert_eq!(offers.len(), 10);
}

#[test]
fn rook_ray_stops_before_an_own_piece_and_before_the_duck() {
    let mut board = empty_grid();
    board.set_at(Loc::new(0, 7), white(Piece::Rook { moved: false }));
    board.set_at(Loc::new(3, 7), white(Piece::Knight));
    board.set_at(Loc::new(0, 5), Square::Duck);
    let game = game_on(board, 0);
    let offers = game.valid_locations_from(Loc::new(0, 7));
    assert!(offers.contains_key(Loc::new(1, 7)));
    assert!(offers.contains_key(Loc::new(2, 7)));
    assert!(!offers.contains_key(Loc::new(3, 7)));
    assert!(!offers.contains_key(Loc::new(4, 7)));
    assert!(offers.contains_key(Loc::new(0, 6)));
    assert!(!offers.contains_key(Loc::new(0, 5)));
    assert!(!offers.contains_key(Loc::new(0, 4)));
    assert_eq!(offers.len(), 3);
}

#[test]
fn queen_in_the_middle_of_an_empty_board_reaches_27_squares() {
    let mut board = empty_grid();
    board.set_at(Loc::new(3, 4), white(Piece::Queen));
    let game = game_on(board, 0);
    assert_eq!(game.valid_locations_from(Loc::new(3, 4)).len(), 27);
}

#[test]
fn bishop_and_knight_and_king_counts_on_an_empty_board() {
    let mut board = empty_grid();
    board.set_at(Loc::new(0, 7), white(Piece::Bishop));
    board.set_at(Loc::new(4, 4), white(Piece::Knight));
    board.set_at(Loc::new(7, 7), white(Piece::King { moved: true }));
    let game = game_on(board, 0);
    assert_eq!(game.valid_locations_from(Loc::new(0, 7)).len(), 7);
    assert_eq!(game.valid_locations_from(Loc::new(4, 4)).len(), 8);
    assert_eq!(game.valid_locations_from(Loc::new(7, 7)).len(), 3);
    let knight = game.valid_locations_from(Loc::new(4, 4));
    assert_eq!(
        knight.get(Loc::new(6, 5)),
        Some(&ActionRaw::move_it(Rel::new(2, 1), Piece::Knight))
    );
}

#[test]
fn knight_leaps_over_pieces_at_the_start() {
    let game = GameRaw::<Board>::empty_board();
    let offers = game.valid_locations_from(Loc::new(1, 7));
    assert_eq!(offers.len(), 2);
    assert!(offers.contains_key(Loc::new(0, 5)));
    assert!(offers.contains_key(Loc::new(2, 5)));
}

#[test]
fn pawn_captures_diagonally_and_not_straight() {
    let mut board = empty_grid();
    board.set_at(Loc::new(3, 4), white(pawn()));
    board.set_at(Loc::new(3, 3), black(pawn()));
    board.set_at(Loc::new(4, 3), black(Piece::Knight));
    board.set_at(Loc::new(2, 3), white(Piece::Knight));
    let game = game_on(board, 0);
    let offers = game.valid_locations_from(Loc::new(3, 4));
    assert_eq!(offers.len(), 1);
    assert_eq!(offers.get(Loc::new(4, 3)), Some(&ActionRaw::move_it(Rel::new(1, -1), pawn())));
}

#[test]
fn pawn_double_push_needs_both_squares_empty() {
    let mut game = GameRaw::<Board>::empty_board();
    game.board.set_at(Loc::new(4, 5), Square::Duck);
    assert_eq!(game.valid_locations_from(Loc::new(4, 6)).len(), 0);
    game.board.set_at(Loc::new(4, 5), Square::Empty);
    game.board.set_at(Loc::new(4, 4), Square::Duck);
    let offers = game.valid_locations_from(Loc::new(4, 6));
    assert_eq!(offers.len(), 1);
    assert!(offers.contains_key(Loc::new(4, 5)));
}

#[test]
fn any_action_clears_the_flags_of_all_pawns() {
    let mut board = empty_grid();
    board.set_at(Loc::new(0, 3), black(Piece::Pawn { passantable: true }));
    board.set_at(Loc::new(7, 4), white(Piece::Pawn { passantable: true }));
    board.set_at(Loc::new(4, 7), white(king()));
    let mut game = game_on(board, 0);
    game.apply_from(Loc::new(4, 7), SingleAction::Move(Rel::new(0, -1), Piece::King { moved: true }));
    assert_eq!(game.get(Loc::new(0, 3)), Some(black(pawn())));
    assert_eq!(game.get(Loc::new(7, 4)), Some(white(pawn())));
    assert_eq!(game.get(Loc::new(4, 6)), Some(white(Piece::King { moved: true })));
}

#[test]
fn apply_from_an_empty_square_does_nothing() {
    let mut game = GameRaw::<Board>::empty_board();
    let before = game.board.clone();
    game.apply_from(Loc::new(4, 4), SingleAction::Move(Rel::new(0, 1), pawn()));
    assert_eq!(game.board, before);
}

#[test]
fn valid_duck_is_true_on_empty_squares_only() {
    let mut game = GameRaw::<Board>::empty_board();
    assert!(game.valid_duck(Loc::new(0, 4)));
    assert!(!game.valid_duck(Loc::new(0, 0)));
    assert!(!game.valid_duck(Loc::new(8, 0)));
    game.apply_duck(Loc::new(0, 4));
    assert!(!game.valid_duck(Loc::new(0, 4)));
    assert_eq!(game.empties().len(), 31);
}

#[test]
fn mk_squares_for_uses_the_side_to_move() {
    let game = game_on(empty_grid(), 1);
    assert_eq!(
        game.mk_squares_for(&[Piece::Queen, Piece::Bishop]),
        vec![black(Piece::Queen), black(Piece::Bishop)]
    );
}
