use duck_chess::{Color, Piece, PlayerColor, Square};

#[test]
fn color_other_swaps_sides() {
    assert_eq!(Color::White.other(), Color::Black);
    assert_eq!(Color::Black.other(), Color::White);
}

#[test]
fn color_dir_white_moves_up() {
    assert_eq!(Color::White.dir(), -1);
    assert_eq!(Color::Black.dir(), 1);
}

#[test]
fn square_names() {
    assert_eq!(Square::Empty.name(), "empty");
    assert_eq!(Square::Duck.name(), "duck");
    assert_eq!(Square::piece(Color::White, Piece::Knight).name(), "wN");
    assert_eq!(Square::piece(Color::Black, Piece::King { moved: true }).name(), "bK");
}

#[test]
fn player_color_push_and_contains() {
    let none = PlayerColor::default();
    assert_eq!(none, PlayerColor::Neither);
    assert!(!none.contains(&Color::White));
    let white = none.push(Color::White);
    assert_eq!(white, PlayerColor::White);
    assert_eq!(white.push(Color::White), PlayerColor::White);
    assert_eq!(white.push(Color::Black), PlayerColor::Both);
    assert!(PlayerColor::Both.contains(&Color::Black));
    assert!(!PlayerColor::Black.contains(&Color::White));
}
