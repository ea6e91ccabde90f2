use quoridor::data_model::{
    Board, Direction, Game, MovePiece, PiecePosition, Player, PlayerMove, WallOrientation, WallPosition,
};
use quoridor::game_logic::{
    execute_move_unchecked, is_move_direction_legal_with_player_at_position, is_move_legal,
    is_move_legal_with_player_at_position, is_move_piece_legal_with_player_at_position,
    new_position_after_direction_unchecked, new_position_after_move_piece_unchecked, room_for_wall_placement,
};

fn piece(direction: Direction, direction_on_collision: Direction) -> PlayerMove {
    PlayerMove::MovePiece(MovePiece { direction, direction_on_collision })
}

fn wall(orientation: WallOrientation, x: usize, y: usize) -> PlayerMove {
    PlayerMove::PlaceWall { orientation, position: WallPosition { x, y } }
}

fn centre_game() -> Game {
    let mut game = Game::new();
    game.board.player_positions[0] = PiecePosition::new(4, 4);
    game.board.player_positions[1] = PiecePosition::new(4, 5);
    game
}

#[test]
fn collision_offers_only_open_landing_cells() {
    let mut game = centre_game();
    assert!(is_move_legal(&game, Player::White, &piece(Direction::Down, Direction::Down)));
    game.board.walls[4][5] = Some(WallOrientation::Horizontal);
    assert!(!is_move_legal(&game, Player::White, &piece(Direction::Down, Direction::Down)));
    assert!(is_move_legal(&game, Player::White, &piece(Direction::Down, Direction::Left)));
    assert!(is_move_legal(&game, Player::White, &piece(Direction::Down, Direction::Right)));
    game.board.walls[4][4] = Some(WallOrientation::Vertical);
    assert!(!is_move_legal(&game, Player::White, &piece(Direction::Down, Direction::Right)));
    assert!(is_move_legal(&game, Player::White, &piece(Direction::Down, Direction::Left)));
}

#[test]
fn collision_at_board_edge_cannot_jump_off_the_board() {
    let mut game = Game::new();
    game.board.player_positions[0] = PiecePosition::new(4, 7);
    game.board.player_positions[1] = PiecePosition::new(4, 8);
    assert!(!is_move_legal(&game, Player::White, &piece(Direction::Down, Direction::Down)));
    assert!(is_move_legal(&game, Player::White, &piece(Direction::Down, Direction::Left)));
    game.board.player_positions[0] = PiecePosition::new(8, 4);
    game.board.player_positions[1] = PiecePosition::new(0, 0);
    assert!(!is_move_legal(&game, Player::White, &piece(Direction::Right, Direction::Up)));
}

#[test]
fn jump_lands_behind_the_opponent() {
    let game = centre_game();
    let mut after = game;
    execute_move_unchecked(&mut after, Player::White, &piece(Direction::Down, Direction::Down));
    assert_eq!(after.board.player_positions[0], PiecePosition::new(4, 6));
    assert_eq!(after.player, Player::Black);
    let moved = new_position_after_move_piece_unchecked(
        &PiecePosition::new(4, 4),
        &MovePiece { direction: Direction::Down, direction_on_collision: Direction::Left },
        &PiecePosition::new(4, 5),
    );
    assert_eq!(moved, PiecePosition::new(3, 5));
}

#[test]
fn walls_block_steps_from_both_slots() {
    let mut board = Board::new();
    board.walls[3][3] = Some(WallOrientation::Horizontal);
    let below = PiecePosition::new(4, 3);
    assert!(!is_move_direction_legal_with_player_at_position(&board, &below, &Direction::Down));
    let other = PiecePosition::new(3, 3);
    assert!(!is_move_direction_legal_with_player_at_position(&board, &other, &Direction::Down));
    let free = PiecePosition::new(5, 3);
    assert!(is_move_direction_legal_with_player_at_position(&board, &free, &Direction::Down));
    board.walls[3][3] = Some(WallOrientation::Vertical);
    assert!(!is_move_direction_legal_with_player_at_position(&board, &other, &Direction::Right));
    let corner = PiecePosition::new(0, 0);
    assert!(!is_move_direction_legal_with_player_at_position(&board, &corner, &Direction::Up));
    assert!(!is_move_direction_legal_with_player_at_position(&board, &corner, &Direction::Left));
}

#[test]
fn crossing_wall_is_illegal() {
    let mut game = Game::new();
    game.board.walls[3][3] = Some(WallOrientation::Vertical);
    assert!(!is_move_legal(&game, Player::White, &wall(WallOrientation::Horizontal, 3, 3)));
    assert!(!room_for_wall_placement(&game.board, WallOrientation::Horizontal, 3, 3));
    assert!(room_for_wall_placement(&game.board, WallOrientation::Horizontal, 3, 5));
}

#[test]
fn overlapping_wall_is_illegal() {
    let mut game = Game::new();
    game.board.walls[3][3] = Some(WallOrientation::Horizontal);
    assert!(!is_move_legal(&game, Player::White, &wall(WallOrientation::Horizontal, 4, 3)));
    assert!(!is_move_legal(&game, Player::White, &wall(WallOrientation::Horizontal, 2, 3)));
    assert!(is_move_legal(&game, Player::White, &wall(WallOrientation::Horizontal, 5, 3)));
    assert!(is_move_legal(&game, Player::White, &wall(WallOrientation::Vertical, 3, 4)));
    assert!(!room_for_wall_placement(&game.board, WallOrientation::Horizontal, 8, 3));
    assert!(!room_for_wall_placement(&game.board, WallOrientation::Vertical, -1, 0));
}

#[test]
fn no_wall_left_means_no_wall_move() {
    let mut game = Game::new();
    game.walls_left[0] = 0;
    assert!(!is_move_legal(&game, Player::White, &wall(WallOrientation::Horizontal, 0, 4)));
    assert!(is_move_legal(&game, Player::Black, &wall(WallOrientation::Horizontal, 0, 4)));
}

#[test]
fn sealing_wall_is_illegal_for_either_player() {
    let mut game = Game::new();
    game.board.player_positions[0] = PiecePosition::new(0, 0);
    assert!(is_move_legal(&game, Player::Black, &wall(WallOrientation::Horizontal, 0, 0)));
    execute_move_unchecked(&mut game, Player::Black, &wall(WallOrientation::Horizontal, 0, 0));
    assert_eq!(game.walls_left, [10, 9]);
    assert!(!is_move_legal(&game, Player::Black, &wall(WallOrientation::Vertical, 1, 0)));
    assert!(!is_move_legal(&game, Player::White, &wall(WallOrientation::Vertical, 1, 0)));
    assert!(is_move_legal(&game, Player::White, &wall(WallOrientation::Vertical, 2, 0)));
}

#[test]
fn wall_move_fills_slot_and_uses_a_wall() {
    let mut game = Game::new();
    execute_move_unchecked(&mut game, Player::White, &wall(WallOrientation::Vertical, 7, 6));
    assert_eq!(game.board.walls[7][6], Some(WallOrientation::Vertical));
    assert_eq!(game.walls_left, [9, 10]);
    assert_eq!(game.player, Player::Black);
    assert!(game.board.wall_at(WallOrientation::Vertical, 7, 6));
    assert!(!game.board.wall_at(WallOrientation::Horizontal, 7, 6));
    assert!(!game.board.wall_at(WallOrientation::Vertical, 8, 6));
    assert!(!game.board.wall_at(WallOrientation::Vertical, -1, -1));
}

#[test]
fn piece_legality_at_given_position() {
    let game = Game::new();
    let m = MovePiece { direction: Direction::Up, direction_on_collision: Direction::Up };
    assert!(!is_move_piece_legal_with_player_at_position(&game.board, Player::White, &PiecePosition::new(4, 0), &m));
    assert!(is_move_piece_legal_with_player_at_position(&game.board, Player::White, &PiecePosition::new(4, 1), &m));
    assert!(is_move_legal_with_player_at_position(&game, Player::White, &PiecePosition::new(4, 1), &PlayerMove::MovePiece(m)));
    assert_eq!(new_position_after_direction_unchecked(&PiecePosition::new(4, 1), Direction::Up), PiecePosition::new(4, 0));
    assert_eq!(new_position_after_direction_unchecked(&PiecePosition::new(4, 1), Direction::Right), PiecePosition::new(5, 1));
}
