use vstd::prelude::*;
use vstd::string::StringExecFns;
use crate::data_model::{cell_of, Board, Player, WallOrientation, PIECE_GRID_HEIGHT, PIECE_GRID_WIDTH, WALL_GRID_HEIGHT};

verus! {

/// The mark between cells `x` and `x + 1` of row `y`: a line where a vertical wall runs.
pub open spec fn vertical_mark(b: Board, x: int, y: int) -> Seq<char> {
    if (x < 8 && y > 0 && b.slot(x, y - 1) == Some(WallOrientation::Vertical)) || (x < 8 && y < 8 && b.slot(x, y)
        == Some(WallOrientation::Vertical)) {
        "│"@
    } else {
        " "@
    }
}

/// The letter of the piece on cell `(x, y)`: `A` for White, `B` for Black.
pub open spec fn piece_mark(b: Board, x: int, y: int) -> Seq<char> {
    if b.pos(Player::White).index == cell_of(x, y) {
        "A"@
    } else if b.pos(Player::Black).index == cell_of(x, y) {
        "B"@
    } else {
        " "@
    }
}

pub open spec fn digit_text(n: int) -> Seq<char> {
    if n == 0 {
        "0"@
    } else if n == 1 {
        "1"@
    } else if n == 2 {
        "2"@
    } else if n == 3 {
        "3"@
    } else if n == 4 {
        "4"@
    } else if n == 5 {
        "5"@
    } else if n == 6 {
        "6"@
    } else {
        "7"@
    }
}

/// The text of the gap below cell `(x, y)`: a horizontal wall as a line, else the coordinates
/// of the wall slot to its lower right, split by the mark of a vertical wall there.
pub open spec fn gap_text(b: Board, x: int, y: int) -> Seq<char> {
    let wall_right = x < 8 && b.slot(x, y) == Some(WallOrientation::Horizontal);
    let wall_left = x > 0 && b.slot(x - 1, y) == Some(WallOrientation::Horizontal);
    let vertical_wall = x < 8 && b.slot(x, y) == Some(WallOrientation::Vertical);
    let mark = if vertical_wall {
        "│"@
    } else {
        " "@
    };
    let (xs, ys) = if x < 8 && !vertical_wall {
        (digit_text(x), digit_text(y))
    } else {
        (" "@, " "@)
    };
    if wall_right {
        "────────"@
    } else if wall_left {
        "─────"@ + xs + mark + ys
    } else {
        "     "@ + xs + mark + ys
    }
}

/// The text of cell `(x, y)` on line `kind` of its row: 0 the top of the box, 1 its middle,
/// 2 its bottom, 3 the gap below it.
pub open spec fn cell_text(b: Board, kind: int, x: int, y: int) -> Seq<char> {
    if kind == 0 {
        "┌───┐ "@ + vertical_mark(b, x, y) + " "@
    } else if kind == 1 {
        "│ "@ + piece_mark(b, x, y) + " │ "@ + vertical_mark(b, x, y) + " "@
    } else if kind == 2 {
        "└───┘ "@ + vertical_mark(b, x, y) + " "@
    } else {
        gap_text(b, x, y)
    }
}

/// The first `n` cells of line `kind` of row `y`.
pub open spec fn line_text(b: Board, kind: int, y: int, n: int) -> Seq<char>
    decreases n,
{
    if n <= 0 {
        seq![]
    } else {
        line_text(b, kind, y, n - 1) + cell_text(b, kind, n - 1, y)
    }
}

/// The text of row `y`: the three lines of its boxes, then the gap line below all but the last
/// row, each but the first line after a line break.
pub open spec fn row_text(b: Board, y: int) -> Seq<char> {
    let boxes = line_text(b, 0, y, 9) + "\n"@ + line_text(b, 1, y, 9) + "\n"@ + line_text(b, 2, y, 9);
    if y < 8 {
        boxes + "\n"@ + line_text(b, 3, y, 9)
    } else {
        boxes
    }
}

/// The first `n` rows of the drawing, a line break between rows.
pub open spec fn rows_text(b: Board, n: int) -> Seq<char>
    decreases n,
{
    if n <= 0 {
        seq![]
    } else if n == 1 {
        row_text(b, 0)
    } else {
        rows_text(b, n - 1) + "\n"@ + row_text(b, n - 1)
    }
}

fn digit_str(n: usize) -> (r: &'static str)
    requires
        n < 8,
    ensures
        r@ == digit_text(n as int),
{
    match n {
        0 => "0",
        1 => "1",
        2 => "2",
        3 => "3",
        4 => "4",
        5 => "5",
        6 => "6",
        _ => "7",
    }
}

fn is_wall(board: &Board, x: usize, y: usize, orientation: WallOrientation) -> (r: bool)
    requires
        x < 8,
        y < 8,
    ensures
        r == (board.slot(x as int, y as int) == Some(orientation)),
{
    match board.walls[x][y] {
        Some(o) => o == orientation,
        None => false,
    }
}

fn append_vertical_mark(output: &mut String, board: &Board, x: usize, y: usize)
    requires
        x < 9,
        y < 9,
    ensures
        final(output)@ == old(output)@ + vertical_mark(*board, x as int, y as int),
{
    let wall_above = x < 8 && y > 0 && is_wall(board, x, y - 1, WallOrientation::Vertical);
    let wall_below = x < 8 && y < 8 && is_wall(board, x, y, WallOrientation::Vertical);
    if wall_above || wall_below {
        output.append("│");
    } else {
        output.append(" ");
    }
}

fn append_cell(output: &mut String, board: &Board, kind: usize, x: usize, y: usize)
    requires
        board.wf(),
        kind < 4,
        x < 9,
        y < 9,
        kind == 3 ==> y < 8,
    ensures
        final(output)@ == old(output)@ + cell_text(*board, kind as int, x as int, y as int),
{
    let ghost start = output@;
    if kind == 0 {
        output.append("┌───┐ ");
        append_vertical_mark(output, board, x, y);
        output.append(" ");
    } else if kind == 1 {
        output.append("│ ");
        let white = board.player_position(Player::White);
        let black = board.player_position(Player::Black);
        if white.x() == x && white.y() == y {
            output.append("A");
        } else if black.x() == x && black.y() == y {
            output.append("B");
        } else {
            output.append(" ");
        }
        output.append(" │ ");
        append_vertical_mark(output, board, x, y);
        output.append(" ");
    } else if kind == 2 {
        output.append("└───┘ ");
        append_vertical_mark(output, board, x, y);
        output.append(" ");
    } else {
        let wall_right = x < 8 && is_wall(board, x, y, WallOrientation::Horizontal);
        let wall_left = x > 0 && is_wall(board, x - 1, y, WallOrientation::Horizontal);
        let vertical_wall = x < 8 && is_wall(board, x, y, WallOrientation::Vertical);
        if wall_right {
            output.append("────────");
        } else {
            if wall_left {
                output.append("─────");
            } else {
                output.append("     ");
            }
            if x < 8 && !vertical_wall {
                output.append(digit_str(x));
            } else {
                output.append(" ");
            }
            if vertical_wall {
                output.append("│");
            } else {
                output.append(" ");
            }
            if x < 8 && !vertical_wall {
                output.append(digit_str(y));
            } else {
                output.append(" ");
            }
        }
    }
    assert(output@ =~= start + cell_text(*board, kind as int, x as int, y as int));
}

fn append_line(output: &mut String, board: &Board, kind: usize, y: usize)
    requires
        board.wf(),
        kind < 4,
        y < 9,
        kind == 3 ==> y < 8,
    ensures
        final(output)@ == old(output)@ + line_text(*board, kind as int, y as int, 9),
{
    let ghost start = output@;
    let mut x: usize = 0;
    while x < PIECE_GRID_WIDTH
        invariant
            board.wf(),
            kind < 4,
            y < 9,
            kind == 3 ==> y < 8,
            x <= 9,
            output@ == start + line_text(*board, kind as int, y as int, x as int),
        decreases 9 - x,
    {
        append_cell(output, board, kind, x, y);
        assert(output@ =~= start + line_text(*board, kind as int, y as int, x + 1));
        x += 1;
    }
}

/// Draws the board as text: each cell a box holding the letter of the piece on it, walls as
/// lines between the boxes, and the coordinates of each free wall slot.
pub fn render_board(board: &Board) -> (r: String)
    requires
        board.wf(),
    ensures
        r@ == rows_text(*board, 9),
{
    let mut output = String::new();
    let mut y: usize = 0;
    while y < PIECE_GRID_HEIGHT
        invariant
            board.wf(),
            y <= 9,
            output@ == rows_text(*board, y as int),
        decreases 9 - y,
    {
        let ghost before = output@;
        if y > 0 {
            output.append("\n");
        }
        append_line(&mut output, board, 0, y);
        output.append("\n");
        append_line(&mut output, board, 1, y);
        output.append("\n");
        append_line(&mut output, board, 2, y);
        if y < WALL_GRID_HEIGHT {
            output.append("\n");
            append_line(&mut output, board, 3, y);
        }
        proof {
            if y == 0 {
                assert(output@ =~= row_text(*board, 0));
            } else {
                assert(output@ =~= before + "\n"@ + row_text(*board, y as int));
            }
        }
        y += 1;
    }
    output
}

} // verus!
