use duck_chess::menuboard::MenuBoard;
use duck_chess::{
    Board, ChessBoard, Color, Coord, Game, GameRaw, GameTypes, Hexboard, Loc, Piece, Player,
    PlayerId, Rel, SingleAction, SomeGame, Square, TurnRaw,
};

fn knight_turn(from: (usize, usize), rel: (i32, i32), duck: (usize, usize)) -> TurnRaw<Board> {
    TurnRaw {
        from: Loc::new(from.0, from.1),
        action: SingleAction::Move(Rel::new(rel.0, rel.1), Piece::Knight),
        duck_to: Loc::new(duck.0, duck.1),
    }
}

#[test]
fn side_to_move_follows_the_parity_of_the_history() {
    let mut game = GameRaw::<Board>::empty_board();
    let turns = [
        knight_turn((1, 7), (1, -2), (0, 4)),
        knight_turn((1, 0), (1, 2), (0, 3)),
        knight_turn((2, 5), (-1, 2), (0, 4)),
        knight_turn((2, 2), (-1, -2), (0, 3)),
        knight_turn((6, 7), (1, -2), (0, 4)),
    ];
    for (played, turn) in turns.into_iter().enumerate() {
        assert_eq!(game.turns.len(), played);
        let expected = if played % 2 == 0 { Color::White } else { Color::Black };
        assert_eq!(game.turn(), expected);
        assert_eq!(game.apply_turn(turn), Ok(()));
        assert!(game.well_formed());
        let ducks = game.board.squares().into_iter().filter(|s| *s == Square::Duck).count();
        assert_eq!(ducks, 1);
    }
    assert_eq!(game.turns.len(), 5);
    assert_eq!(game.turn(), Color::Black);
    assert_eq!(game.turns[4], turns[4]);
}

#[test]
fn well_formed_games_have_their_duck_where_they_say() {
    let mut game = GameRaw::<Board>::empty_board();
    assert!(game.well_formed());
    game.board.set_at(Loc::new(0, 4), Square::Duck);
    assert!(!game.well_formed());
    game.duck_loc = Some(Loc::new(0, 4));
    assert!(game.well_formed());
    game.board.set_at(Loc::new(1, 4), Square::Duck);
    assert!(!game.well_formed());
    game.board.set_at(Loc::new(1, 4), Square::Empty);
    game.board.set_at(Loc::new(0, 4), Square::Empty);
    assert!(game.well_formed());
}

#[test]
fn well_formed_boards_have_the_shape_of_their_kind() {
    assert!(Board::default().well_formed());
    assert!(Board { grid: vec![] }.well_formed());
    assert!(Board { grid: vec![vec![], vec![Square::Empty]] }.well_formed());
    assert!(Hexboard::new().well_formed());
    assert!(!Hexboard { grid: vec![] }.well_formed());
    let mut short = Hexboard::new();
    short.grid[3].pop();
    assert!(!short.well_formed());
    let mut tall = Hexboard::new();
    tall.grid.push(vec![Square::Empty; 5]);
    assert!(!tall.well_formed());
    let menu = Hexboard::from(MenuBoard::new(vec![Square::Empty, Square::Duck]));
    assert!(!menu.well_formed());
    assert_eq!(menu.get(Coord::new(1, -5)), Some(Square::Duck));
    assert_eq!(menu.get(Coord::new(2, -5)), None);
}

#[test]
fn well_formed_game_between_players() {
    let ann = Player { id: Some(PlayerId(7)), name: "ann".to_string() };
    let mut game: Game = GameTypes::Hex.mk_game(ann.clone(), Player::default(), Color::White);
    assert!(game.well_formed());
    assert_eq!(game.joiner.id, None);
    assert_eq!(game.joiner.name, "");
    if let SomeGame::Hex(raw) = &mut game.some_game {
        raw.board.grid.pop();
    }
    assert!(!game.well_formed());
    let copy = game.clone();
    assert_eq!(copy, game);
}

#[test]
fn cells_are_written_through_get_mut() {
    let mut board = Board::default();
    match board.get_mut(Loc::new(4, 4)) {
        Some(cell) => {
            assert_eq!(*cell, Square::Empty);
            *cell = Square::Duck;
        },
        None => panic!("e4 is on the board"),
    }
    assert_eq!(board.get(Loc::new(4, 4)), Some(Square::Duck));
    assert!(board.get_mut(Loc::new(8, 0)).is_none());
    assert!(board.cell_mut(Loc::new(0, 8)).is_none());
    let mut hex = Hexboard::new();
    match hex.get_mut(Coord::new(0, 0)) {
        Some(cell) => *cell = Square::Duck,
        None => panic!("the centre is on the board"),
    }
    assert_eq!(hex.get(Coord::new(0, 0)), Some(Square::Duck));
    assert!(hex.get_mut(Coord::new(6, 0)).is_none());
    assert!(hex.well_formed());
    let mut game = GameRaw::<Board>::empty_board();
    *game.get_mut(Loc::new(0, 0)) = Square::Empty;
    assert_eq!(game.get(Loc::new(0, 0)), Some(Square::Empty));
    assert_eq!(game.empties().len(), 33);
}
