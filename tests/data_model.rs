use quoridor::data_model::{Board, Direction, Game, MovePiece, PiecePosition, Player, WallOrientation};

#[test]
fn positions_round_trip() {
    let p = PiecePosition::new(7, 3);
    assert_eq!(p.index, 34);
    assert_eq!((p.x(), p.y()), (7, 3));
}

#[test]
fn initial_positions() {
    let game = Game::new();
    assert_eq!(*game.board.player_position(Player::White), PiecePosition::new(4, 0));
    assert_eq!(*game.board.player_position(Player::Black), PiecePosition::new(4, 8));
    assert_eq!(game.walls_left, [10, 10]);
    assert_eq!(game.player, Player::White);
    let skipped = Game::new_with_initial_moves_skipped();
    assert_eq!(skipped.board.player_positions, [PiecePosition::new(4, 3), PiecePosition::new(4, 5)]);
    let board = Board::new_with_initial_moves_skipped();
    assert!(!board.wall_at(WallOrientation::Horizontal, 0, 0));
}

#[test]
fn players_and_directions() {
    assert_eq!(Player::White.opponent(), Player::Black);
    assert_eq!(Player::Black.opponent().opponent(), Player::Black);
    assert_eq!(Player::Black.as_index(), 1);
    assert_eq!(Player::White.to_string(), "White");
    assert_eq!(Player::Black.to_string(), "Black");
    assert_eq!(Direction::Left.to_offset(), (-1, 0));
    assert_eq!(Direction::Down.to_offset(), (0, 1));
    assert_eq!(Direction::Right.to_char(), 'r');
    assert_eq!(WallOrientation::Vertical.to_char(), 'v');
    assert_eq!(WallOrientation::Horizontal.to_char(), 'h');
    assert_eq!(Direction::iter(), vec![Direction::Up, Direction::Down, Direction::Left, Direction::Right]);
}

#[test]
fn every_piece_move_listed_once() {
    let all = MovePiece::iter();
    assert_eq!(all.len(), 16);
    assert_eq!(all[0], MovePiece { direction: Direction::Up, direction_on_collision: Direction::Up });
    assert_eq!(all[6], MovePiece { direction: Direction::Down, direction_on_collision: Direction::Left });
    assert_eq!(all[15], MovePiece { direction: Direction::Right, direction_on_collision: Direction::Right });
}
