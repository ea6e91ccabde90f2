use quoridor::commands::{execute_command, parse_player_move, AuxCommand, Command, Session};
use quoridor::data_model::{
    Direction, Game, MovePiece, PiecePosition, Player, PlayerMove, WallOrientation, WallPosition,
};
use quoridor::game_logic::is_move_legal;

#[test]
fn parses_piece_moves() {
    assert_eq!(
        parse_player_move("mu"),
        Some(PlayerMove::MovePiece(MovePiece { direction: Direction::Up, direction_on_collision: Direction::Up }))
    );
    assert_eq!(
        parse_player_move("mdl"),
        Some(PlayerMove::MovePiece(MovePiece { direction: Direction::Down, direction_on_collision: Direction::Left }))
    );
    assert_eq!(
        parse_player_move("mrx"),
        Some(PlayerMove::MovePiece(MovePiece { direction: Direction::Right, direction_on_collision: Direction::Right }))
    );
    assert_eq!(parse_player_move("m"), None);
    assert_eq!(parse_player_move("mx"), None);
}

#[test]
fn parses_wall_moves() {
    assert_eq!(
        parse_player_move("h34"),
        Some(PlayerMove::PlaceWall { orientation: WallOrientation::Horizontal, position: WallPosition { x: 3, y: 4 } })
    );
    assert_eq!(
        parse_player_move("v07trailing"),
        Some(PlayerMove::PlaceWall { orientation: WallOrientation::Vertical, position: WallPosition { x: 0, y: 7 } })
    );
    assert_eq!(
        parse_player_move("h99"),
        Some(PlayerMove::PlaceWall { orientation: WallOrientation::Horizontal, position: WallPosition { x: 9, y: 9 } })
    );
    assert_eq!(parse_player_move("h3"), None);
    assert_eq!(parse_player_move("v3a"), None);
    assert_eq!(parse_player_move(""), None);
    assert_eq!(parse_player_move("x12"), None);
}

#[test]
fn session_plays_resets_and_undoes() {
    let mut session = Session { game_states: vec![Game::new()] };
    let step = PlayerMove::MovePiece(MovePiece { direction: Direction::Down, direction_on_collision: Direction::Up });
    assert!(is_move_legal(&session.game_states[0], Player::White, &step));
    assert_eq!(execute_command(&mut session, Command::PlayMove(step)), None);
    assert_eq!(session.game_states.len(), 2);
    assert_eq!(session.game_states[1].board.player_positions[0], PiecePosition::new(4, 1));
    assert_eq!(session.game_states[1].player, Player::Black);
    execute_command(&mut session, Command::AuxCommand(AuxCommand::Reset { skip_initial_moves: true }));
    assert_eq!(session.game_states.len(), 3);
    assert_eq!(session.game_states[2].board.player_positions[0], PiecePosition::new(4, 3));
    execute_command(&mut session, Command::AuxCommand(AuxCommand::Undo { moves: 1 }));
    assert_eq!(session.game_states.len(), 2);
    execute_command(&mut session, Command::AuxCommand(AuxCommand::Undo { moves: 5 }));
    assert_eq!(session.game_states.len(), 1);
}

#[test]
fn bot_commands_search_and_play() {
    let mut session = Session { game_states: vec![Game::new()] };
    let found = execute_command(&mut session, Command::AuxCommand(AuxCommand::BotMove { depth: 1 }));
    assert!(matches!(found, Some((_, Some(_)))));
    assert_eq!(session.game_states.len(), 1);
    let played = execute_command(&mut session, Command::AuxCommand(AuxCommand::PlayBotMove { depth: 1 }));
    let (_, m) = played.unwrap();
    assert!(is_move_legal(&session.game_states[0], Player::White, &m.unwrap()));
    assert_eq!(session.game_states.len(), 2);
    assert_eq!(session.game_states[1].player, Player::Black);
}
