use quoridor::a_star::a_star;
use quoridor::bot::{
    alpha_beta, best_move_alpha_beta, board_score, heuristic_board_score, LOSING_SCORE, WINNING_SCORE,
};
use quoridor::data_model::{
    Direction, Game, MovePiece, PiecePosition, Player, PlayerMove, WallOrientation, WallPosition,
};
use quoridor::game_logic::{execute_move_unchecked, is_move_legal, room_for_wall_placement};

fn all_candidate_moves(game: &Game, player: Player) -> Vec<PlayerMove> {
    let mut moves = Vec::new();
    for m in MovePiece::iter() {
        let pm = PlayerMove::MovePiece(m);
        if is_move_legal(game, player, &pm) {
            moves.push(pm);
        }
    }
    for x in 0..8usize {
        for y in 0..8usize {
            for orientation in [WallOrientation::Horizontal, WallOrientation::Vertical] {
                if game.walls_left[player.as_index()] > 0
                    && room_for_wall_placement(&game.board, orientation, x as isize, y as isize)
                {
                    moves.push(PlayerMove::PlaceWall { orientation, position: WallPosition { x, y } });
                }
            }
        }
    }
    moves
}

fn full_minimax(game: &Game, player: Player, depth: usize) -> isize {
    if depth == 0 {
        return heuristic_board_score(game);
    }
    let mut value = match player {
        Player::White => LOSING_SCORE,
        Player::Black => WINNING_SCORE,
    };
    for m in all_candidate_moves(game, player) {
        let mut child = *game;
        execute_move_unchecked(&mut child, player, &m);
        if a_star(&child.board, Player::White).is_none() || a_star(&child.board, Player::Black).is_none() {
            continue;
        }
        let score = full_minimax(&child, player.opponent(), depth - 1);
        value = match player {
            Player::White => value.max(score),
            Player::Black => value.min(score),
        };
    }
    value
}

#[test]
fn scores_from_distances_and_walls() {
    assert_eq!(board_score(8, 8, 10, 10), 0);
    assert_eq!(board_score(3, 7, 4, 6), 2);
    assert_eq!(board_score(5, 0, 10, 10), LOSING_SCORE);
    assert_eq!(board_score(0, 4, 10, 10), WINNING_SCORE);
    assert_eq!(board_score(0, 0, 10, 10), LOSING_SCORE);
    assert_eq!(WINNING_SCORE, -LOSING_SCORE);
}

#[test]
fn static_score_of_positions() {
    let game = Game::new();
    assert_eq!(heuristic_board_score(&game), 0);
    let mut game = Game::new();
    game.board.player_positions[0] = PiecePosition::new(2, 5);
    game.walls_left = [7, 9];
    assert_eq!(heuristic_board_score(&game), 8 - 3 + 7 - 9);
    game.board.player_positions[0] = PiecePosition::new(4, 5);
    assert_eq!(heuristic_board_score(&game), 7 - 3 + 7 - 9);
    game.board.player_positions[0] = PiecePosition::new(4, 8);
    assert_eq!(heuristic_board_score(&game), WINNING_SCORE);
}

#[test]
fn depth_one_search_finds_a_move_from_the_start() {
    let game = Game::new();
    let (_, best) = best_move_alpha_beta(&game, Player::White, 1);
    let best = best.expect("a move");
    assert!(is_move_legal(&game, Player::White, &best));
    let (_, best) = best_move_alpha_beta(&game, Player::Black, 1);
    assert!(best.is_some());
}

#[test]
fn depth_one_search_steps_towards_the_goal() {
    let game = Game::new();
    let (score, best) = best_move_alpha_beta(&game, Player::White, 1);
    let mut after = game;
    execute_move_unchecked(&mut after, Player::White, &best.unwrap());
    assert_eq!(score, heuristic_board_score(&after));
    assert_eq!(score, full_minimax(&game, Player::White, 1));
}

#[test]
fn depth_zero_search_gives_static_score_and_no_move() {
    let game = Game::new_with_initial_moves_skipped();
    assert_eq!(best_move_alpha_beta(&game, Player::White, 0), (heuristic_board_score(&game), None));
}

#[test]
fn pruning_keeps_the_minimax_score_at_depth_two() {
    let game = Game::new_with_initial_moves_skipped();
    for player in [Player::White, Player::Black] {
        let (score, best) = best_move_alpha_beta(&game, player, 2);
        assert!(best.is_some());
        assert_eq!(score, full_minimax(&game, player, 2));
    }
}

#[test]
fn pruning_keeps_the_minimax_score_with_walls() {
    let mut game = Game::new();
    game.board.player_positions[0] = PiecePosition::new(2, 6);
    game.board.player_positions[1] = PiecePosition::new(3, 6);
    game.board.walls[2][6] = Some(WallOrientation::Horizontal);
    game.board.walls[4][4] = Some(WallOrientation::Vertical);
    game.walls_left = [1, 2];
    for player in [Player::White, Player::Black] {
        let (score, _) = alpha_beta(&game, 2, LOSING_SCORE, WINNING_SCORE, player);
        assert_eq!(score, full_minimax(&game, player, 2));
    }
}

#[test]
fn search_on_won_race_prefers_the_winning_step() {
    let mut game = Game::new();
    game.board.player_positions[0] = PiecePosition::new(0, 7);
    let (score, best) = best_move_alpha_beta(&game, Player::White, 1);
    assert_eq!(score, WINNING_SCORE);
    assert_eq!(
        best,
        Some(PlayerMove::MovePiece(MovePiece { direction: Direction::Down, direction_on_collision: Direction::Up }))
    );
}
