use vstd::prelude::*;
use crate::a_star::{a_star, goal_reachable};
use crate::data_model::{
    cell_of, cell_x, cell_y, Board, Direction, Game, MovePiece, WallPosition, PiecePosition, Player, PlayerMove,
    WallOrientation, PIECE_GRID_HEIGHT, PIECE_GRID_WIDTH, WALL_GRID_HEIGHT, WALL_GRID_WIDTH,
};

verus! {

/// Whether a step from cell `c` in direction `d` stays on the grid and crosses no wall.
pub open spec fn direction_legal(board: Board, c: int, d: Direction) -> bool {
    let x = cell_x(c);
    let y = cell_y(c);
    match d {
        Direction::Up => y > 0 && !board.spec_wall_at(WallOrientation::Horizontal, x - 1, y - 1)
            && !board.spec_wall_at(WallOrientation::Horizontal, x, y - 1),
        Direction::Down => y < 8 && !board.spec_wall_at(WallOrientation::Horizontal, x - 1, y)
            && !board.spec_wall_at(WallOrientation::Horizontal, x, y),
        Direction::Left => x > 0 && !board.spec_wall_at(WallOrientation::Vertical, x - 1, y)
            && !board.spec_wall_at(WallOrientation::Vertical, x - 1, y - 1),
        Direction::Right => x < 8 && !board.spec_wall_at(WallOrientation::Vertical, x, y)
            && !board.spec_wall_at(WallOrientation::Vertical, x, y - 1),
    }
}

/// Whether the cell one step from `c` in direction `d` lies on the grid.
pub open spec fn step_in_bounds(c: int, d: Direction) -> bool {
    0 <= cell_x(c) + d.dx() < 9 && 0 <= cell_y(c) + d.dy() < 9
}

/// The cell one step from `c` in direction `d`.
pub open spec fn step(c: int, d: Direction) -> int {
    cell_of(cell_x(c) + d.dx(), cell_y(c) + d.dy())
}

/// Whether `player`, standing on cell `c`, may make the piece move `m`; the opponent stays
/// where the board has it.
pub open spec fn piece_move_legal(board: Board, player: Player, c: int, m: MovePiece) -> bool {
    let target = step(c, m.direction);
    &&& direction_legal(board, c, m.direction)
    &&& target == board.pos(player.spec_opponent()).index ==> direction_legal(
        board,
        target,
        m.direction_on_collision,
    )
}

/// The cell that a piece on `c` reaches with the move `m` when the opponent stands on `opp`.
pub open spec fn piece_target(c: int, m: MovePiece, opp: int) -> int {
    let target = step(c, m.direction);
    if target == opp {
        step(opp, m.direction_on_collision)
    } else {
        target
    }
}

/// The board after a wall of orientation `o` is put in the slot `(x, y)`.
pub open spec fn board_with_wall(b: Board, o: WallOrientation, x: int, y: int) -> Board {
    Board {
        walls: vstd::array::spec_array_update(
            b.walls,
            x,
            vstd::array::spec_array_update(b.walls[x], y, Some(o)),
        ),
        player_positions: b.player_positions,
    }
}

pub open spec fn other_orientation(o: WallOrientation) -> WallOrientation {
    match o {
        WallOrientation::Horizontal => WallOrientation::Vertical,
        WallOrientation::Vertical => WallOrientation::Horizontal,
    }
}

/// Whether a wall of orientation `o` fits in slot `(x, y)`: the slot is on the wall grid,
/// holds no crossing wall, and no wall of the same orientation lies in it or next to it
/// along the wall's length.
pub open spec fn room_for_wall(board: Board, o: WallOrientation, x: int, y: int) -> bool {
    let (dx, dy) = match o {
        WallOrientation::Horizontal => (1int, 0int),
        WallOrientation::Vertical => (0int, 1int),
    };
    &&& 0 <= x < 8
    &&& 0 <= y < 8
    &&& !board.spec_wall_at(other_orientation(o), x, y)
    &&& !board.spec_wall_at(o, x - dx, y - dy)
    &&& !board.spec_wall_at(o, x, y)
    &&& !board.spec_wall_at(o, x + dx, y + dy)
}

/// Whether `player` may place a wall of orientation `o` at `(x, y)` in `game`.
pub open spec fn wall_move_legal(game: Game, player: Player, o: WallOrientation, x: int, y: int) -> bool {
    let after = board_with_wall(game.board, o, x, y);
    &&& game.walls_left[player.index()] > 0
    &&& room_for_wall(game.board, o, x, y)
    &&& goal_reachable(after, player)
    &&& goal_reachable(after, player.spec_opponent())
}

/// Whether `player`, standing on `c`, may make the move `m` in `game`.
pub open spec fn move_legal_at(game: Game, player: Player, c: int, m: PlayerMove) -> bool {
    match m {
        PlayerMove::MovePiece(mp) => piece_move_legal(game.board, player, c, mp),
        PlayerMove::PlaceWall { orientation, position } => wall_move_legal(
            game,
            player,
            orientation,
            position.x as int,
            position.y as int,
        ),
    }
}

pub open spec fn move_legal(game: Game, player: Player, m: PlayerMove) -> bool {
    move_legal_at(game, player, game.board.pos(player).index as int, m)
}

/// Whether `execute_move_unchecked` can apply `m`: a wall goes to a slot on the grid and the
/// mover has a wall left; a piece move lands on the grid.
pub open spec fn move_applicable(game: Game, player: Player, m: PlayerMove) -> bool {
    match m {
        PlayerMove::PlaceWall { orientation, position } => {
            &&& position.x < 8
            &&& position.y < 8
            &&& game.walls_left[player.index()] > 0
        },
        PlayerMove::MovePiece(mp) => {
            let c = game.board.pos(player).index as int;
            let opp = game.board.pos(player.spec_opponent()).index as int;
            &&& step_in_bounds(c, mp.direction)
            &&& step(c, mp.direction) == opp ==> step_in_bounds(opp, mp.direction_on_collision)
        },
    }
}

/// The game after `player` makes the move `m`; the turn passes to the opponent.
pub open spec fn game_after_move(game: Game, player: Player, m: PlayerMove) -> Game {
    match m {
        PlayerMove::PlaceWall { orientation, position } => Game {
            player: player.spec_opponent(),
            board: board_with_wall(game.board, orientation, position.x as int, position.y as int),
            walls_left: vstd::array::spec_array_update(
                game.walls_left,
                player.index(),
                (game.walls_left[player.index()] - 1) as usize,
            ),
        },
        PlayerMove::MovePiece(mp) => Game {
            player: player.spec_opponent(),
            board: Board {
                walls: game.board.walls,
                player_positions: vstd::array::spec_array_update(
                    game.board.player_positions,
                    player.index(),
                    PiecePosition {
                        index: piece_target(
                            game.board.pos(player).index as int,
                            mp,
                            game.board.pos(player.spec_opponent()).index as int,
                        ) as usize,
                    },
                ),
            },
            walls_left: game.walls_left,
        },
    }
}

pub proof fn lemma_step_cell(c: int, d: Direction)
    requires
        0 <= c < 81,
        step_in_bounds(c, d),
    ensures
        0 <= step(c, d) < 81,
        cell_x(step(c, d)) == cell_x(c) + d.dx(),
        cell_y(step(c, d)) == cell_y(c) + d.dy(),
{
}

/// A step that `direction_legal` allows stays on the grid.
pub proof fn lemma_legal_step_in_bounds(board: Board, c: int, d: Direction)
    requires
        0 <= c < 81,
        direction_legal(board, c, d),
    ensures
        step_in_bounds(c, d),
        0 <= step(c, d) < 81,
{
}

/// A legal piece move is applicable and lands on a cell of the grid.
pub proof fn lemma_legal_piece_move_lands(board: Board, player: Player, c: int, m: MovePiece)
    requires
        board.wf(),
        0 <= c < 81,
        piece_move_legal(board, player, c, m),
    ensures
        step_in_bounds(c, m.direction),
        step(c, m.direction) == board.pos(player.spec_opponent()).index ==> step_in_bounds(
            board.pos(player.spec_opponent()).index as int,
            m.direction_on_collision,
        ),
        0 <= piece_target(c, m, board.pos(player.spec_opponent()).index as int) < 81,
{
    lemma_legal_step_in_bounds(board, c, m.direction);
    let t = step(c, m.direction);
    if t == board.pos(player.spec_opponent()).index {
        lemma_legal_step_in_bounds(board, t, m.direction_on_collision);
    }
}

pub fn execute_move_unchecked(game: &mut Game, player: Player, player_move: &PlayerMove)
    requires
        old(game).wf(),
        move_applicable(*old(game), player, *player_move),
    ensures
        final(game).wf(),
        *final(game) == game_after_move(*old(game), player, *player_move),
{
    let ghost g0 = *game;
    match player_move {
        PlayerMove::PlaceWall { orientation, position } => {
            let mut column = game.board.walls[position.x];
            column[position.y] = Some(*orientation);
            game.board.walls[position.x] = column;
            let i = player.as_index();
            game.walls_left[i] = game.walls_left[i] - 1;
            proof {
                let b1 = board_with_wall(g0.board, *orientation, position.x as int, position.y as int);
                assert(game.board.walls =~= b1.walls);
            }
        },
        PlayerMove::MovePiece(move_piece) => {
            let new_position = new_position_after_move_piece_unchecked(
                game.board.player_position(player),
                move_piece,
                game.board.player_position(player.opponent()),
            );
            proof {
                let c = g0.board.pos(player).index as int;
                let opp = g0.board.pos(player.spec_opponent()).index as int;
                lemma_step_cell(c, move_piece.direction);
                if step(c, move_piece.direction) == opp {
                    lemma_step_cell(opp, move_piece.direction_on_collision);
                }
            }
            game.board.player_positions[player.as_index()] = new_position;
        },
    }
    game.player = player.opponent();
    proof {
        let g1 = game_after_move(g0, player, *player_move);
        assert(game.walls_left =~= g1.walls_left);
        assert(game.board.player_positions =~= g1.board.player_positions);
    }
}

/// Whatever wall a player legally places, both players can still reach their goal rows
/// afterwards.
pub proof fn lemma_legal_wall_keeps_paths(
    game: Game,
    player: Player,
    orientation: WallOrientation,
    position: WallPosition,
)
    requires
        game.wf(),
        move_legal(game, player, PlayerMove::PlaceWall { orientation, position }),
    ensures
        goal_reachable(
            game_after_move(game, player, PlayerMove::PlaceWall { orientation, position }).board,
            Player::White,
        ),
        goal_reachable(
            game_after_move(game, player, PlayerMove::PlaceWall { orientation, position }).board,
            Player::Black,
        ),
{
}

/// A legal move can be carried out.
pub proof fn lemma_legal_move_applicable(game: Game, player: Player, m: PlayerMove)
    requires
        game.wf(),
        move_legal(game, player, m),
    ensures
        move_applicable(game, player, m),
{
    if let PlayerMove::MovePiece(mp) = m {
        lemma_legal_piece_move_lands(game.board, player, game.board.pos(player).index as int, mp);
    }
}

pub fn is_move_legal(game: &Game, player: Player, player_move: &PlayerMove) -> (r: bool)
    requires
        game.wf(),
    ensures
        r == move_legal(*game, player, *player_move),
{
    is_move_legal_with_player_at_position(game, player, game.board.player_position(player), player_move)
}

pub fn is_move_piece_legal_with_player_at_position(
    board: &Board,
    player: Player,
    player_position: &PiecePosition,
    move_piece: &MovePiece,
) -> (r: bool)
    requires
        board.wf(),
        player_position.wf(),
    ensures
        r == piece_move_legal(*board, player, player_position.index as int, *move_piece),
{
    if is_move_direction_legal_with_player_at_position(board, player_position, &move_piece.direction) {
        let new_position = new_position_after_direction_unchecked(player_position, move_piece.direction);
        if new_position == *board.player_position(player.opponent()) {
            is_move_direction_legal_with_player_at_position(
                board,
                &new_position,
                &move_piece.direction_on_collision,
            )
        } else {
            true
        }
    } else {
        false
    }
}

pub fn is_move_direction_legal_with_player_at_position(
    board: &Board,
    player_position: &PiecePosition,
    direction: &Direction,
) -> (r: bool)
    requires
        player_position.wf(),
    ensures
        r == direction_legal(*board, player_position.index as int, *direction),
{
    let x = player_position.x() as isize;
    let y = player_position.y() as isize;
    match direction {
        Direction::Up => {
            y > 0 && !board.wall_at(WallOrientation::Horizontal, x - 1, y - 1) && !board.wall_at(
                WallOrientation::Horizontal,
                x,
                y - 1,
            )
        },
        Direction::Down => {
            y < PIECE_GRID_HEIGHT as isize - 1 && !board.wall_at(WallOrientation::Horizontal, x - 1, y)
                && !board.wall_at(WallOrientation::Horizontal, x, y)
        },
        Direction::Left => {
            x > 0 && !board.wall_at(WallOrientation::Vertical, x - 1, y) && !board.wall_at(
                WallOrientation::Vertical,
                x - 1,
                y - 1,
            )
        },
        Direction::Right => {
            x < PIECE_GRID_WIDTH as isize - 1 && !board.wall_at(WallOrientation::Vertical, x, y)
                && !board.wall_at(WallOrientation::Vertical, x, y - 1)
        },
    }
}

pub fn room_for_wall_placement(board: &Board, orientation: WallOrientation, x: isize, y: isize) -> (r: bool)
    ensures
        r == room_for_wall(*board, orientation, x as int, y as int),
{
    if !(x >= 0 && y >= 0 && x < WALL_GRID_WIDTH as isize && y < WALL_GRID_HEIGHT as isize) {
        return false;
    }
    let (offsets_to_check, other) = match orientation {
        WallOrientation::Horizontal => ([(-1isize, 0isize), (0, 0), (1, 0)], WallOrientation::Vertical),
        WallOrientation::Vertical => ([(0isize, -1isize), (0, 0), (0, 1)], WallOrientation::Horizontal),
    };
    let mut k: usize = 0;
    while k < 3
        invariant
            0 <= x < 8,
            0 <= y < 8,
            k <= 3,
            offsets_to_check@ == (match orientation {
                WallOrientation::Horizontal => seq![(-1isize, 0isize), (0isize, 0isize), (1isize, 0isize)],
                WallOrientation::Vertical => seq![(0isize, -1isize), (0isize, 0isize), (0isize, 1isize)],
            }),
            forall|j: int|
                0 <= j < k ==> !board.spec_wall_at(
                    orientation,
                    x + offsets_to_check@[j].0,
                    y + offsets_to_check@[j].1,
                ),
        decreases 3 - k,
    {
        let (dx, dy) = offsets_to_check[k];
        if board.wall_at(orientation, x + dx, y + dy) {
            return false;
        }
        k += 1;
    }
    assert(other == other_orientation(orientation));
    !board.wall_at(other, x, y)
}

pub fn is_move_legal_with_player_at_position(
    game: &Game,
    player: Player,
    player_position: &PiecePosition,
    player_move: &PlayerMove,
) -> (r: bool)
    requires
        game.wf(),
        player_position.wf(),
    ensures
        r == move_legal_at(*game, player, player_position.index as int, *player_move),
{
    match player_move {
        PlayerMove::MovePiece(move_piece) => is_move_piece_legal_with_player_at_position(
            &game.board,
            player,
            player_position,
            move_piece,
        ),
        PlayerMove::PlaceWall { orientation, position } => {
            if !(game.walls_left[player.as_index()] > 0 && position.x < WALL_GRID_WIDTH
                && position.y < WALL_GRID_HEIGHT) {
                return false;
            }
            if !room_for_wall_placement(&game.board, *orientation, position.x as isize, position.y as isize) {
                return false;
            }
            let mut game_copy = *game;
            execute_move_unchecked(&mut game_copy, player, player_move);
            let ghost after = board_with_wall(game.board, *orientation, position.x as int, position.y as int);
            assert(game_copy.board == after);
            if a_star(&game_copy.board, player).is_none() {
                return false;
            }
            a_star(&game_copy.board, player.opponent()).is_some()
        },
    }
}

pub fn new_position_after_direction_unchecked(player_position: &PiecePosition, direction: Direction) -> (r: PiecePosition)
    requires
        player_position.wf(),
        step_in_bounds(player_position.index as int, direction),
    ensures
        r.wf(),
        r.index == step(player_position.index as int, direction),
{
    let (dx, dy) = direction.to_offset();
    PiecePosition::new((player_position.x() as isize + dx) as usize, (player_position.y() as isize + dy) as usize)
}

pub fn new_position_after_move_piece_unchecked(
    player_position: &PiecePosition,
    move_piece: &MovePiece,
    opponent_position: &PiecePosition,
) -> (r: PiecePosition)
    requires
        player_position.wf(),
        opponent_position.wf(),
        step_in_bounds(player_position.index as int, move_piece.direction),
        step(player_position.index as int, move_piece.direction) == opponent_position.index
            ==> step_in_bounds(opponent_position.index as int, move_piece.direction_on_collision),
    ensures
        r.wf(),
        r.index == piece_target(player_position.index as int, *move_piece, opponent_position.index as int),
{
    let new_position = new_position_after_direction_unchecked(player_position, move_piece.direction);
    if *opponent_position == new_position {
        new_position_after_direction_unchecked(opponent_position, move_piece.direction_on_collision)
    } else {
        new_position
    }
}

} // verus!
