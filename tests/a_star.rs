use quoridor::a_star::{a_star, heuristic, PriorityQueue};
use quoridor::data_model::{Direction, Game, MovePiece, PiecePosition, Player, WallOrientation};
use quoridor::game_logic::{is_move_piece_legal_with_player_at_position, new_position_after_move_piece_unchecked};

#[test]
fn single_wall_test() {
    let mut game = Game::new();
    game.board.walls[3][2] = Some(WallOrientation::Horizontal);
    let path = a_star(&game.board, Player::White);
    assert!(path.is_some());
    let path = path.unwrap();
    assert_eq!(
        path,
        vec![
            PiecePosition::new(4, 1),
            PiecePosition::new(4, 2),
            PiecePosition::new(5, 2),
            PiecePosition::new(5, 3),
            PiecePosition::new(5, 4),
            PiecePosition::new(5, 5),
            PiecePosition::new(5, 6),
            PiecePosition::new(5, 7),
            PiecePosition::new(5, 8),
        ]
    );
}

#[test]
fn complex_wall_test() {
    let mut game = Game::new();
    game.board.player_positions[Player::White.as_index()] = PiecePosition::new(4, 4);
    game.board.player_positions[Player::Black.as_index()] = PiecePosition::new(3, 4);
    game.board.walls[2][3] = Some(WallOrientation::Vertical);
    game.board.walls[3][3] = Some(WallOrientation::Vertical);
    game.board.walls[2][5] = Some(WallOrientation::Vertical);
    game.board.walls[4][3] = Some(WallOrientation::Horizontal);
    game.board.walls[4][4] = Some(WallOrientation::Horizontal);
    game.board.walls[5][5] = Some(WallOrientation::Vertical);
    let path = a_star(&game.board, Player::White);
    assert!(path.is_some());
}

#[test]
fn on_goal_test() {
    let mut game = Game::new();
    game.board.player_positions[0] = PiecePosition::new(4, 8);
    let path = a_star(&game.board, Player::White);
    assert!(path.is_some());
    let path = path.unwrap();
    assert_eq!(path.len(), 0);
}

#[test]
fn black_on_goal_row_has_empty_path() {
    let mut game = Game::new();
    game.board.player_positions[1] = PiecePosition::new(2, 0);
    assert_eq!(a_star(&game.board, Player::Black), Some(vec![]));
}

#[test]
fn straight_path_on_empty_board() {
    let mut game = Game::new();
    game.board.player_positions[1] = PiecePosition::new(0, 8);
    let path = a_star(&game.board, Player::White).unwrap();
    let expected: Vec<PiecePosition> = (1..9).map(|y| PiecePosition::new(4, y)).collect();
    assert_eq!(path, expected);
    assert_eq!(path.len(), 8);
    game.board.player_positions[0] = PiecePosition::new(0, 0);
    game.board.player_positions[1] = PiecePosition::new(4, 8);
    let black = a_star(&game.board, Player::Black).unwrap();
    let expected: Vec<PiecePosition> = (0..8).rev().map(|y| PiecePosition::new(4, y)).collect();
    assert_eq!(black, expected);
}

#[test]
fn opponent_on_the_last_cell_is_passed_diagonally() {
    let game = Game::new();
    let path = a_star(&game.board, Player::White).unwrap();
    assert_eq!(path.len(), 8);
    assert_eq!(path[6], PiecePosition::new(4, 7));
    assert_eq!(path[7], PiecePosition::new(3, 8));
}

#[test]
fn sealed_pocket_has_no_path() {
    let mut game = Game::new();
    game.board.player_positions[0] = PiecePosition::new(0, 0);
    game.board.walls[0][0] = Some(WallOrientation::Horizontal);
    game.board.walls[1][0] = Some(WallOrientation::Vertical);
    assert_eq!(a_star(&game.board, Player::White), None);
    assert!(a_star(&game.board, Player::Black).is_some());
}

#[test]
fn jump_over_opponent_shortens_path() {
    let mut game = Game::new();
    game.board.player_positions[0] = PiecePosition::new(4, 3);
    game.board.player_positions[1] = PiecePosition::new(4, 4);
    let path = a_star(&game.board, Player::White).unwrap();
    assert_eq!(path.len(), 4);
    assert_eq!(path[0], PiecePosition::new(4, 5));
}

#[test]
fn heuristic_counts_rows_to_goal() {
    assert_eq!(heuristic(&PiecePosition::new(3, 2), Player::White), 6);
    assert_eq!(heuristic(&PiecePosition::new(3, 2), Player::Black), 2);
    assert_eq!(heuristic(&PiecePosition::new(0, 8), Player::White), 0);
}

#[test]
fn priority_queue_pops_smallest_key_first_in_insertion_order() {
    let mut q = PriorityQueue::new();
    assert_eq!(q.peek(), None);
    assert!(q.insert(5, PiecePosition::new(1, 1)));
    assert!(q.insert(3, PiecePosition::new(2, 2)));
    assert!(q.insert(3, PiecePosition::new(0, 0)));
    assert!(!q.insert(7, PiecePosition::new(1, 1)));
    assert!(q.contains(&PiecePosition::new(0, 0)));
    assert_eq!(q.peek(), Some((3, PiecePosition::new(2, 2))));
    assert_eq!(q.pop(), Some((3, PiecePosition::new(2, 2))));
    assert_eq!(q.pop(), Some((3, PiecePosition::new(0, 0))));
    q.remove(&PiecePosition::new(1, 1));
    assert!(!q.contains(&PiecePosition::new(1, 1)));
    assert_eq!(q.pop(), None);
}

#[test]
fn straight_jump_can_make_the_search_miss_a_shorter_walk() {
    let mut game = Game::new();
    game.board.player_positions[Player::White.as_index()] = PiecePosition::new(6, 1);
    game.board.player_positions[Player::Black.as_index()] = PiecePosition::new(4, 7);
    game.board.walls[2][0] = Some(WallOrientation::Horizontal);
    game.board.walls[4][5] = Some(WallOrientation::Horizontal);
    let path = a_star(&game.board, Player::Black).unwrap();
    assert_eq!(path.len(), 9);
    let walk = [
        Direction::Up,
        Direction::Right,
        Direction::Right,
        Direction::Up,
        Direction::Up,
        Direction::Up,
        Direction::Up,
        Direction::Up,
    ];
    let white = *game.board.player_position(Player::White);
    let mut at = *game.board.player_position(Player::Black);
    for direction in walk {
        let m = MovePiece { direction, direction_on_collision: Direction::Up };
        assert!(is_move_piece_legal_with_player_at_position(&game.board, Player::Black, &at, &m));
        at = new_position_after_move_piece_unchecked(&at, &m, &white);
    }
    assert_eq!(at, PiecePosition::new(6, 0));
}

fn breadth_first_distance(game: &Game, player: Player) -> Option<usize> {
    let opponent = *game.board.player_position(player.opponent());
    let start = *game.board.player_position(player);
    let goal_row = match player {
        Player::White => 8,
        Player::Black => 0,
    };
    let mut distance = vec![usize::MAX; 81];
    let mut queue = std::collections::VecDeque::new();
    distance[start.index] = 0;
    queue.push_back(start);
    while let Some(cell) = queue.pop_front() {
        if cell.y() == goal_row {
            return Some(distance[cell.index]);
        }
        for m in MovePiece::iter() {
            if is_move_piece_legal_with_player_at_position(&game.board, player, &cell, &m) {
                let next = new_position_after_move_piece_unchecked(&cell, &m, &opponent);
                if distance[next.index] == usize::MAX {
                    distance[next.index] = distance[cell.index] + 1;
                    queue.push_back(next);
                }
            }
        }
    }
    None
}

#[test]
fn search_matches_breadth_first_distance_when_no_jump_gains_two_rows() {
    let mut seed: u64 = 12345;
    let mut next = move |bound: u64| {
        seed = seed.wrapping_mul(6364136223846793005).wrapping_add(1442695040888963407);
        ((seed >> 33) % bound) as usize
    };
    for _ in 0..300 {
        let mut game = Game::new();
        for _ in 0..next(24) {
            let x = next(8);
            let y = next(8);
            game.board.walls[x][y] =
                Some(if next(2) == 0 { WallOrientation::Horizontal } else { WallOrientation::Vertical });
        }
        game.board.player_positions[0] = PiecePosition::new(next(9), 1 + next(8));
        game.board.player_positions[1] = PiecePosition::new(next(9), 0);
        let found = a_star(&game.board, Player::White).map(|p| p.len());
        assert_eq!(found, breadth_first_distance(&game, Player::White));
    }
}
