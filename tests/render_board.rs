use quoridor::data_model::{Game, WallOrientation};
use quoridor::render_board::render_board;

#[test]
fn start_position_drawing() {
    let game = Game::new();
    let text = render_board(&game.board);
    let lines: Vec<&str> = text.split('\n').collect();
    assert_eq!(lines.len(), 9 * 3 + 8);
    assert_eq!(lines[0], "┌───┐   ".repeat(9));
    assert_eq!(lines[1], format!("{}│ A │   {}", "│   │   ".repeat(4), "│   │   ".repeat(4)));
    assert_eq!(lines[2], "└───┘   ".repeat(9));
    let gap: String = (0..8).map(|x| format!("     {} 0", x)).collect::<String>() + "        ";
    assert_eq!(lines[3], gap);
    assert_eq!(lines[33], format!("{}│ B │   {}", "│   │   ".repeat(4), "│   │   ".repeat(4)));
    assert!(!text.ends_with('\n'));
}

#[test]
fn walls_are_drawn_as_lines() {
    let mut game = Game::new();
    game.board.walls[3][2] = Some(WallOrientation::Horizontal);
    game.board.walls[6][5] = Some(WallOrientation::Vertical);
    let text = render_board(&game.board);
    let lines: Vec<&str> = text.split('\n').collect();
    let gap_row_2: String = (0..3).map(|x| format!("     {} 2", x)).collect::<String>()
        + "────────"
        + "─────4 2"
        + &(5..8).map(|x| format!("     {} 2", x)).collect::<String>()
        + "        ";
    assert_eq!(lines[2 * 4 + 3], gap_row_2);
    let gap_row_5: String = (0..6).map(|x| format!("     {} 5", x)).collect::<String>()
        + "      │ "
        + "     7 5"
        + "        ";
    assert_eq!(lines[5 * 4 + 3], gap_row_5);
    let boxes_row_5 = format!("{}┌───┐ │ {}", "┌───┐   ".repeat(6), "┌───┐   ".repeat(2));
    assert_eq!(lines[5 * 4], boxes_row_5);
    assert_eq!(lines[6 * 4], boxes_row_5);
    assert_eq!(lines[7 * 4], "┌───┐   ".repeat(9));
}
