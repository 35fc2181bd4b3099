use duck_chess::{Board, BoardIter, Color, Coord, Dir, DirHexIter, HexIter, Hexboard, Loc, Piece, Square};

#[test]
fn board_walk_visits_every_cell_once_in_reading_order() {
    let board = Board {
        grid: vec![
            vec![Square::Empty, Square::Duck],
            vec![],
            vec![],
            vec![Square::Empty, Square::Empty, Square::Duck],
        ],
    };
    let mut walk = BoardIter::new(&board);
    let mut seen = Vec::new();
    while let Some(item) = walk.next() {
        seen.push(item);
    }
    assert_eq!(
        seen,
        vec![
            (Loc::new(0, 0), Square::Empty),
            (Loc::new(1, 0), Square::Duck),
            (Loc::new(0, 3), Square::Empty),
            (Loc::new(1, 3), Square::Empty),
            (Loc::new(2, 3), Square::Duck),
        ]
    );
    assert_eq!(walk.next(), None);
}

#[test]
fn board_walk_of_the_standard_board_has_64_cells() {
    let board = Board::default();
    let mut walk = BoardIter::new(&board);
    let mut count = 0;
    let mut last = None;
    while let Some(item) = walk.next() {
        count += 1;
        last = Some(item);
    }
    assert_eq!(count, 64);
    assert_eq!(
        last,
        Some((Loc::new(7, 7), Square::piece(Color::White, Piece::Rook { moved: false })))
    );
}

#[test]
fn hex_walk_visits_91_cells_from_the_top_corner() {
    let board = Hexboard::new();
    let mut walk = HexIter { board: &board, x: 0, y: 0 };
    let first = walk.next();
    assert_eq!(first, Some((Coord::new(0, -5), Square::piece(Color::Black, Piece::Bishop))));
    let mut count = 1;
    let mut last = first;
    while let Some(item) = walk.next() {
        count += 1;
        last = Some(item);
    }
    assert_eq!(count, 91);
    assert_eq!(last, Some((Coord::new(0, 5), Square::piece(Color::White, Piece::Bishop))));
    let mut late = HexIter { board: &board, x: 5, y: 10 };
    assert_eq!(late.next(), Some((Coord::new(0, 5), Square::piece(Color::White, Piece::Bishop))));
    assert_eq!(late.next(), None);
}

#[test]
fn hex_ray_walk_ends_at_the_edge() {
    let board = Hexboard::new();
    let mut walk = DirHexIter { board: &board, at: Coord::new(0, 0), dir: Dir::new(1, 0) };
    let mut seen = Vec::new();
    while let Some((coord, _)) = walk.next() {
        seen.push(coord);
    }
    assert_eq!(
        seen,
        vec![
            Coord::new(1, 0),
            Coord::new(2, 0),
            Coord::new(3, 0),
            Coord::new(4, 0),
            Coord::new(5, 0),
        ]
    );
    assert_eq!(walk.at, Coord::new(6, 0));
    let mut stuck = DirHexIter { board: &board, at: Coord::new(i32::MAX, 0), dir: Dir::new(1, 0) };
    assert_eq!(stuck.next(), None);
    assert_eq!(stuck.at, Coord::new(i32::MAX, 0));
}
