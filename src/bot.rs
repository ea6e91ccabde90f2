use vstd::prelude::*;
use crate::a_star::{a_star, astar_path, goal_reachable, lemma_astar_path_len, reaches_goal};
use crate::data_model::{
    Direction, Game, MovePiece, PiecePosition, Player, PlayerMove, WallOrientation,
    WallPosition, CELL_COUNT, WALLS_PER_PLAYER, WALL_GRID_HEIGHT, WALL_GRID_WIDTH,
};
use crate::game_logic::{
    execute_move_unchecked, game_after_move, is_move_piece_legal_with_player_at_position,
    lemma_legal_piece_move_lands, lemma_step_cell, move_applicable, move_legal, piece_move_legal,
    room_for_wall, room_for_wall_placement, step, step_in_bounds,
};
use crate::square_outline_iterator::{outline_len, outline_point, SquareOutlineIterator};

verus! {

/// The score of a lost position, the smallest score there is.
pub const LOSING_SCORE: isize = isize::MIN + 1;

/// The score of a won position, the largest score there is.
pub const WINNING_SCORE: isize = -LOSING_SCORE;

/// The static score of a position, from White's side: a lost or won race gives the sentinel
/// scores, else the opponent's distance less White's, plus White's walls less the opponent's.
pub open spec fn score_of(white_distance: int, black_distance: int, white_walls: int, black_walls: int) -> int {
    if black_distance == 0 {
        LOSING_SCORE as int
    } else if white_distance == 0 {
        WINNING_SCORE as int
    } else {
        black_distance - white_distance + white_walls - black_walls
    }
}

/// Whether both players can still reach their goal rows.
pub open spec fn both_can_finish(game: Game) -> bool {
    &&& goal_reachable(game.board, Player::White)
    &&& goal_reachable(game.board, Player::Black)
}

/// Whether the search considers the move `m` of `player`: a piece move that the rules allow,
/// or a wall that fits and that the player has in hand.
pub open spec fn candidate_move(game: Game, player: Player, m: PlayerMove) -> bool {
    match m {
        PlayerMove::MovePiece(mp) => piece_move_legal(game.board, player, game.board.pos(player).index as int, mp),
        PlayerMove::PlaceWall { orientation, position } => wall_candidate(
            game,
            player,
            orientation,
            position.x as int,
            position.y as int,
        ),
    }
}

pub open spec fn wall_candidate(game: Game, player: Player, o: WallOrientation, x: int, y: int) -> bool {
    game.walls_left[player.index()] > 0 && room_for_wall(game.board, o, x, y)
}

pub proof fn lemma_candidate_applicable(game: Game, player: Player, m: PlayerMove)
    requires
        game.wf(),
        candidate_move(game, player, m),
    ensures
        move_applicable(game, player, m),
        game_after_move(game, player, m).wf(),
{
    match m {
        PlayerMove::MovePiece(mp) => {
            lemma_legal_piece_move_lands(game.board, player, game.board.pos(player).index as int, mp);
        },
        PlayerMove::PlaceWall { orientation, position } => {},
    }
}

/// The number of moves on the path that the route search finds for `player`; 0 when it finds
/// none.
pub open spec fn path_len(game: Game, player: Player) -> int {
    match astar_path(game.board, player) {
        Some(p) => p.len() as int,
        None => 0,
    }
}

/// The static score of `game`, from White's side.
pub open spec fn static_score(game: Game) -> int {
    score_of(
        path_len(game, Player::White),
        path_len(game, Player::Black),
        game.walls_left[0] as int,
        game.walls_left[1] as int,
    )
}

/// The static score of a position from the distances of both players to their goal rows and
/// the walls that each has left.
pub fn board_score(white_distance: usize, black_distance: usize, white_walls: usize, black_walls: usize) -> (r: isize)
    requires
        white_distance < CELL_COUNT,
        black_distance < CELL_COUNT,
        white_walls <= WALLS_PER_PLAYER,
        black_walls <= WALLS_PER_PLAYER,
    ensures
        r == score_of(white_distance as int, black_distance as int, white_walls as int, black_walls as int),
        LOSING_SCORE <= r <= WINNING_SCORE,
{
    if black_distance == 0 {
        return LOSING_SCORE;
    }
    if white_distance == 0 {
        return WINNING_SCORE;
    }
    let distance_score = black_distance as isize - white_distance as isize;
    let wall_score = white_walls as isize - black_walls as isize;
    distance_score + wall_score
}

/// The static score of `game`, from White's side, with the distances that the route search
/// finds.
pub fn heuristic_board_score(game: &Game) -> (r: isize)
    requires
        game.wf(),
        both_can_finish(*game),
    ensures
        LOSING_SCORE <= r <= WINNING_SCORE,
        r == static_score(*game),
        exists|pw: Seq<PiecePosition>, pb: Seq<PiecePosition>|
            reaches_goal(game.board, Player::White, pw) && reaches_goal(game.board, Player::Black, pb)
                && r == score_of(pw.len() as int, pb.len() as int, game.walls_left[0] as int, game.walls_left[1] as int),
{
    let white_path = a_star(&game.board, Player::White);
    let black_path = a_star(&game.board, Player::Black);
    let white_distance = match &white_path {
        Some(p) => p.len(),
        None => 0,
    };
    let black_distance = match &black_path {
        Some(p) => p.len(),
        None => 0,
    };
    proof {
        let pw = white_path->0@;
        let pb = black_path->0@;
        assert(reaches_goal(game.board, Player::White, pw) && reaches_goal(game.board, Player::Black, pb));
    }
    board_score(
        white_distance,
        black_distance,
        game.walls_left[Player::White.as_index()],
        game.walls_left[Player::Black.as_index()],
    )
}

pub open spec fn max2(a: int, b: int) -> int {
    if a >= b {
        a
    } else {
        b
    }
}

/// The ring, counted from 1, in which the wall slot `(x, y)` lies around the cell `(ox, oy)`:
/// ring `i` is the outline of the square of side `2 * i` whose top left slot is
/// `(ox - i, oy - i)`.
pub open spec fn ring_of(ox: int, oy: int, x: int, y: int) -> int {
    max2(max2(ox - x, x - ox + 1), max2(oy - y, y - oy + 1))
}

pub open spec fn slot_in_grid(x: int, y: int) -> bool {
    0 <= x < 8 && 0 <= y < 8
}

/// Each slot of ring `i` is a point of the outline that makes that ring.
proof fn lemma_ring_point(ox: int, oy: int, i: int, x: int, y: int)
    requires
        i >= 1,
        ring_of(ox, oy, x, y) == i,
    ensures
        exists|k: int|
            0 <= k < outline_len(2 * i) && #[trigger] outline_point(ox - i, oy - i, 2 * i, k) == (x, y),
{
    let l = 2 * i - 1;
    let a = x - (ox - i);
    let b = y - (oy - i);
    assert(0 <= a <= l && 0 <= b <= l);
    let (q, p) = if b == 0 && a < l {
        (0int, a)
    } else if a == l && b < l {
        (1int, b)
    } else if b == l && a > 0 {
        (2int, l - a)
    } else {
        (3int, l - b)
    };
    let k = q * l + p;
    vstd::arithmetic::div_mod::lemma_fundamental_div_mod_converse(k, l, q, p);
    assert(outline_point(ox - i, oy - i, 2 * i, k) == (x, y));
}

/// A slot of the grid in ring `r` means that every ring up to `r` holds a slot of the grid.
proof fn lemma_inner_ring_in_grid(ox: int, oy: int, x: int, y: int, j: int)
    requires
        0 <= ox < 9,
        0 <= oy < 9,
        slot_in_grid(x, y),
        1 <= j <= ring_of(ox, oy, x, y),
    ensures
        exists|x2: int, y2: int| slot_in_grid(x2, y2) && #[trigger] ring_of(ox, oy, x2, y2) == j,
{
    let x2 = if x < ox - j {
        ox - j
    } else if x > ox + j - 1 {
        ox + j - 1
    } else {
        x
    };
    let y2 = if y < oy - j {
        oy - j
    } else if y > oy + j - 1 {
        oy + j - 1
    } else {
        y
    };
    assert(slot_in_grid(x2, y2) && ring_of(ox, oy, x2, y2) == j);
}

/// A ring that holds a slot of the grid has a radius of at most 8.
proof fn lemma_ring_bound(ox: int, oy: int, i: int, k: int)
    requires
        0 <= ox < 9,
        0 <= oy < 9,
        i >= 1,
        0 <= k < outline_len(2 * i),
        slot_in_grid(outline_point(ox - i, oy - i, 2 * i, k).0, outline_point(ox - i, oy - i, 2 * i, k).1),
    ensures
        i <= 8,
{
    let l = 2 * i - 1;
    assert(0 <= k / l < 4 && 0 <= k % l < l) by (nonlinear_arith)
        requires
            0 <= k < 4 * l,
            l > 0,
    ;
}

proof fn lemma_outline_parts(l: int, k: int)
    requires
        l >= 1,
        0 <= k < 4 * l,
    ensures
        0 <= k / l < 4,
        0 <= k % l < l,
        k == (k / l) * l + k % l,
{
    assert(0 <= k / l < 4 && 0 <= k % l < l) by (nonlinear_arith)
        requires
            0 <= k < 4 * l,
            l > 0,
    ;
    vstd::arithmetic::div_mod::lemma_fundamental_div_mod(k, l);
    assert(l * (k / l) == (k / l) * l) by (nonlinear_arith);
}

/// Each point of the outline that makes ring `i` lies in ring `i`.
proof fn lemma_outline_point_ring(ox: int, oy: int, i: int, k: int)
    requires
        i >= 1,
        0 <= k < outline_len(2 * i),
    ensures
        ring_of(ox, oy, outline_point(ox - i, oy - i, 2 * i, k).0, outline_point(ox - i, oy - i, 2 * i, k).1) == i,
{
    lemma_outline_parts(2 * i - 1, k);
}

/// Different points of an outline are different slots.
proof fn lemma_outline_injective(tlx: int, tly: int, side: int, k1: int, k2: int)
    requires
        side >= 2,
        0 <= k1 < outline_len(side),
        0 <= k2 < outline_len(side),
        k1 != k2,
    ensures
        outline_point(tlx, tly, side, k1) != outline_point(tlx, tly, side, k2),
{
    let l = side - 1;
    lemma_outline_parts(l, k1);
    lemma_outline_parts(l, k2);
    if k1 / l == k2 / l && k1 % l == k2 % l {
        assert(k1 == k2);
    }
}

/// Whether every wall among `moves` lies in a ring inside ring `i` around `(ox, oy)`, or on one
/// of the first `k` points of `points`.
pub open spec fn walls_placed_before(
    moves: Seq<PlayerMove>,
    ox: int,
    oy: int,
    i: int,
    points: Seq<(isize, isize)>,
    k: int,
) -> bool {
    forall|j: int|
        0 <= j < moves.len() ==> match #[trigger] moves[j] {
            PlayerMove::MovePiece(_) => true,
            PlayerMove::PlaceWall { orientation, position } => ring_of(ox, oy, position.x as int, position.y as int) < i
                || exists|t: int|
                0 <= t < k && position.x == points[t].0 && position.y == points[t].1,
        }
}

/// The wall at the `k`-th point of ring `i` is not among walls placed before that point.
proof fn lemma_fresh_wall(
    moves: Seq<PlayerMove>,
    ox: int,
    oy: int,
    i: int,
    points: Seq<(isize, isize)>,
    k: int,
    o: WallOrientation,
)
    requires
        i >= 1,
        walls_placed_before(moves, ox, oy, i, points, k),
        points.len() == outline_len(2 * i),
        forall|t: int| 0 <= t < points.len() ==> (#[trigger] points[t]).0 == outline_point(ox - i, oy - i, 2 * i, t).0
            && points[t].1 == outline_point(ox - i, oy - i, 2 * i, t).1,
        0 <= k < points.len(),
        slot_in_grid(points[k].0 as int, points[k].1 as int),
    ensures
        !moves.contains(PlayerMove::PlaceWall { orientation: o, position: WallPosition { x: points[k].0 as usize, y: points[k].1 as usize } }),
{
    let w = PlayerMove::PlaceWall { orientation: o, position: WallPosition { x: points[k].0 as usize, y: points[k].1 as usize } };
    lemma_outline_point_ring(ox, oy, i, k);
    if moves.contains(w) {
        let j = choose|j: int| 0 <= j < moves.len() && moves[j] == w;
        assert(walls_placed_before(moves, ox, oy, i, points, k));
        let t = choose|t: int| 0 <= t < k && points[k].0 as usize == points[t].0 && points[k].1 as usize == points[t].1;
        lemma_outline_injective(ox - i, oy - i, 2 * i, t, k);
    }
}

proof fn lemma_walls_placed_push(
    moves: Seq<PlayerMove>,
    ox: int,
    oy: int,
    i: int,
    points: Seq<(isize, isize)>,
    k: int,
    o: WallOrientation,
)
    requires
        walls_placed_before(moves, ox, oy, i, points, k + 1),
        0 <= k < points.len(),
        slot_in_grid(points[k].0 as int, points[k].1 as int),
    ensures
        walls_placed_before(
            moves.push(PlayerMove::PlaceWall { orientation: o, position: WallPosition { x: points[k].0 as usize, y: points[k].1 as usize } }),
            ox,
            oy,
            i,
            points,
            k + 1,
        ),
{
    let w = PlayerMove::PlaceWall { orientation: o, position: WallPosition { x: points[k].0 as usize, y: points[k].1 as usize } };
    let m2 = moves.push(w);
    assert forall|j: int| 0 <= j < m2.len() implies match #[trigger] m2[j] {
        PlayerMove::MovePiece(_) => true,
        PlayerMove::PlaceWall { orientation, position } => ring_of(ox, oy, position.x as int, position.y as int) < i
            || exists|t: int| 0 <= t < k + 1 && position.x == points[t].0 && position.y == points[t].1,
    } by {
        if j < moves.len() {
            assert(m2[j] == moves[j]);
        } else {
            assert(m2[j] == w);
        }
    }
}

proof fn lemma_walls_placed_next(moves: Seq<PlayerMove>, ox: int, oy: int, i: int, points: Seq<(isize, isize)>, k: int)
    requires
        walls_placed_before(moves, ox, oy, i, points, k),
    ensures
        walls_placed_before(moves, ox, oy, i, points, k + 1),
{
    assert forall|j: int| 0 <= j < moves.len() implies match #[trigger] moves[j] {
        PlayerMove::MovePiece(_) => true,
        PlayerMove::PlaceWall { orientation, position } => ring_of(ox, oy, position.x as int, position.y as int) < i
            || exists|t: int| 0 <= t < k + 1 && position.x == points[t].0 && position.y == points[t].1,
    } by {
        if let PlayerMove::PlaceWall { orientation, position } = moves[j] {
            if ring_of(ox, oy, position.x as int, position.y as int) >= i {
                let t = choose|t: int| 0 <= t < k && position.x == points[t].0 && position.y == points[t].1;
            }
        }
    }
}

/// Once the points of ring `i` are done, every wall lies inside ring `i + 1`.
proof fn lemma_walls_placed_ring_done(moves: Seq<PlayerMove>, ox: int, oy: int, i: int, points: Seq<(isize, isize)>)
    requires
        i >= 1,
        walls_placed_before(moves, ox, oy, i, points, points.len() as int),
        points.len() == outline_len(2 * i),
        forall|t: int| 0 <= t < points.len() ==> (#[trigger] points[t]).0 == outline_point(ox - i, oy - i, 2 * i, t).0
            && points[t].1 == outline_point(ox - i, oy - i, 2 * i, t).1,
    ensures
        walls_placed_before(moves, ox, oy, i + 1, Seq::empty(), 0),
{
    assert forall|j: int| 0 <= j < moves.len() implies match #[trigger] moves[j] {
        PlayerMove::MovePiece(_) => true,
        PlayerMove::PlaceWall { orientation, position } => ring_of(ox, oy, position.x as int, position.y as int) < i + 1
            || exists|t: int| 0 <= t < 0 && position.x == Seq::<(isize, isize)>::empty()[t].0 && position.y == Seq::<(isize, isize)>::empty()[t].1,
    } by {
        if let PlayerMove::PlaceWall { orientation, position } = moves[j] {
            if ring_of(ox, oy, position.x as int, position.y as int) >= i {
                let t = choose|t: int| 0 <= t < points.len() && position.x == points[t].0 && position.y == points[t].1;
                lemma_outline_point_ring(ox, oy, i, t);
            }
        }
    }
}

fn push_if_move_piece_is_legal(
    moves: &mut Vec<PlayerMove>,
    game: &Game,
    player: Player,
    direction: Direction,
    direction_on_collision: Direction,
)
    requires
        game.wf(),
    ensures
        final(moves)@ == (if piece_move_legal(
            game.board,
            player,
            game.board.pos(player).index as int,
            MovePiece { direction, direction_on_collision },
        ) {
            old(moves)@.push(PlayerMove::MovePiece(MovePiece { direction, direction_on_collision }))
        } else {
            old(moves)@
        }),
{
    let move_piece = MovePiece { direction, direction_on_collision };
    if is_move_piece_legal_with_player_at_position(
        &game.board,
        player,
        game.board.player_position(player),
        &move_piece,
    ) {
        moves.push(PlayerMove::MovePiece(move_piece));
    }
}

/// Two steps in different directions that stay on the grid end on different cells.
proof fn lemma_steps_differ(c: int, d1: Direction, d2: Direction)
    requires
        0 <= c < 81,
        step_in_bounds(c, d1),
        step_in_bounds(c, d2),
        step(c, d1) == step(c, d2),
    ensures
        d1 == d2,
{
    lemma_step_cell(c, d1);
    lemma_step_cell(c, d2);
}

/// Whether `moves` holds a move of `player` that leads to the same game as `m`.
pub open spec fn covers(game: Game, player: Player, moves: Seq<PlayerMove>, m: PlayerMove) -> bool {
    exists|i: int|
        0 <= i < moves.len() && game_after_move(game, player, #[trigger] moves[i]) == game_after_move(
            game,
            player,
            m,
        )
}

proof fn lemma_covers_push(game: Game, player: Player, moves: Seq<PlayerMove>, x: PlayerMove, m: PlayerMove)
    requires
        covers(game, player, moves, m),
    ensures
        covers(game, player, moves.push(x), m),
{
    let i = choose|i: int|
        0 <= i < moves.len() && game_after_move(game, player, #[trigger] moves[i]) == game_after_move(game, player, m);
    assert(moves.push(x)[i] == moves[i]);
}

proof fn lemma_covers_last(game: Game, player: Player, moves: Seq<PlayerMove>, x: PlayerMove)
    ensures
        covers(game, player, moves.push(x), x),
{
    assert(moves.push(x)[moves.len() as int] == x);
}

/// Appends to `moves` each piece move of `list` that the rules allow.
fn push_legal_piece_moves(moves: &mut Vec<PlayerMove>, game: &Game, player: Player, list: &Vec<MovePiece>)
    requires
        game.wf(),
        old(moves)@.len() == 0,
        list@.no_duplicates(),
    ensures
        final(moves)@.no_duplicates(),
        forall|i: int| 0 <= i < final(moves)@.len() ==> (#[trigger] final(moves)@[i]) is MovePiece,
        forall|i: int| 0 <= i < final(moves)@.len() ==> candidate_move(*game, player, #[trigger] final(moves)@[i]),
        forall|m: PlayerMove| covers(*game, player, old(moves)@, m) ==> #[trigger] covers(*game, player, final(moves)@, m),
        forall|t: int|
            0 <= t < list@.len() && piece_move_legal(game.board, player, game.board.pos(player).index as int, #[trigger] list@[t])
                ==> covers(*game, player, final(moves)@, PlayerMove::MovePiece(list@[t])),
{
    let ghost start = moves@;
    let mut k: usize = 0;
    while k < list.len()
        invariant
            game.wf(),
            k <= list@.len(),
            forall|i: int| 0 <= i < moves@.len() ==> candidate_move(*game, player, #[trigger] moves@[i]),
            forall|m: PlayerMove| covers(*game, player, start, m) ==> #[trigger] covers(*game, player, moves@, m),
            forall|t: int|
                0 <= t < k && piece_move_legal(game.board, player, game.board.pos(player).index as int, #[trigger] list@[t])
                    ==> covers(*game, player, moves@, PlayerMove::MovePiece(list@[t])),
            list@.no_duplicates(),
            moves@.no_duplicates(),
            forall|i: int| 0 <= i < moves@.len() ==> exists|t: int| 0 <= t < k && #[trigger] moves@[i] == PlayerMove::MovePiece(list@[t]),
        decreases list@.len() - k,
    {
        let ghost m0 = moves@;
        push_if_move_piece_is_legal(moves, game, player, list[k].direction, list[k].direction_on_collision);
        proof {
            let mp = list@[k as int];
            assert(MovePiece { direction: mp.direction, direction_on_collision: mp.direction_on_collision } == mp);
            if moves@ != m0 {
                let x = PlayerMove::MovePiece(mp);
                assert(moves@ == m0.push(x));
                assert forall|m: PlayerMove| covers(*game, player, start, m) implies #[trigger] covers(*game, player, moves@, m) by {
                    lemma_covers_push(*game, player, m0, x, m);
                }
                assert forall|t: int|
                    0 <= t < k && piece_move_legal(game.board, player, game.board.pos(player).index as int, #[trigger] list@[t])
                        implies covers(*game, player, moves@, PlayerMove::MovePiece(list@[t])) by {
                    lemma_covers_push(*game, player, m0, x, PlayerMove::MovePiece(list@[t]));
                }
                lemma_covers_last(*game, player, m0, x);
                assert(forall|i: int| 0 <= i < m0.len() ==> moves@[i] == m0[i]);
                assert forall|i: int| 0 <= i < moves@.len() implies exists|t: int| 0 <= t < k + 1 && #[trigger] moves@[i] == PlayerMove::MovePiece(list@[t]) by {
                    if i < m0.len() {
                        assert(moves@[i] == m0[i]);
                    } else {
                        assert(moves@[i] == PlayerMove::MovePiece(list@[k as int]));
                    }
                }
                assert forall|i: int, j: int| 0 <= i < moves@.len() && 0 <= j < moves@.len() && i != j implies moves@[i] != moves@[j] by {
                    if i < m0.len() && j < m0.len() {
                        assert(moves@[i] == m0[i] && moves@[j] == m0[j]);
                    } else if i < m0.len() {
                        assert(moves@[i] == m0[i]);
                        let t = choose|t: int| 0 <= t < k && #[trigger] m0[i] == PlayerMove::MovePiece(list@[t]);
                    } else {
                        assert(moves@[j] == m0[j]);
                        let t = choose|t: int| 0 <= t < k && #[trigger] m0[j] == PlayerMove::MovePiece(list@[t]);
                    }
                }
            } else {
                assert forall|i: int| 0 <= i < moves@.len() implies exists|t: int| 0 <= t < k + 1 && #[trigger] moves@[i] == PlayerMove::MovePiece(list@[t]) by {
                    let t = choose|t: int| 0 <= t < k && #[trigger] moves@[i] == PlayerMove::MovePiece(list@[t]);
                }
            }
        }
        k += 1;
    }
}

fn push_wall_if_it_fits(moves: &mut Vec<PlayerMove>, game: &Game, player: Player, orientation: WallOrientation, x: isize, y: isize)
    requires
        game.wf(),
        slot_in_grid(x as int, y as int),
        forall|i: int| 0 <= i < old(moves)@.len() ==> candidate_move(*game, player, #[trigger] old(moves)@[i]),
        old(moves)@.no_duplicates(),
        !old(moves)@.contains(PlayerMove::PlaceWall { orientation, position: WallPosition { x: x as usize, y: y as usize } }),
    ensures
        final(moves)@.no_duplicates(),
        final(moves)@ == old(moves)@ || final(moves)@ == old(moves)@.push(
            PlayerMove::PlaceWall { orientation, position: WallPosition { x: x as usize, y: y as usize } },
        ),
        forall|i: int| 0 <= i < final(moves)@.len() ==> candidate_move(*game, player, #[trigger] final(moves)@[i]),
        forall|m: PlayerMove| covers(*game, player, old(moves)@, m) ==> #[trigger] covers(*game, player, final(moves)@, m),
        wall_candidate(*game, player, orientation, x as int, y as int) ==> covers(
            *game,
            player,
            final(moves)@,
            PlayerMove::PlaceWall { orientation, position: WallPosition { x: x as usize, y: y as usize } },
        ),
{
    if game.walls_left[player.as_index()] > 0 && room_for_wall_placement(&game.board, orientation, x, y) {
        let m = PlayerMove::PlaceWall { orientation, position: WallPosition { x: x as usize, y: y as usize } };
        let ghost m0 = moves@;
        moves.push(m);
        proof {
            assert forall|mm: PlayerMove| covers(*game, player, m0, mm) implies covers(*game, player, moves@, mm) by {
                lemma_covers_push(*game, player, m0, m, mm);
            }
            lemma_covers_last(*game, player, m0, m);
            assert(forall|i: int| 0 <= i < m0.len() ==> moves@[i] == m0[i]);
            assert forall|i: int, j: int| 0 <= i < moves@.len() && 0 <= j < moves@.len() && i != j implies moves@[i] != moves@[j] by {
                if i < m0.len() && j < m0.len() {
                } else if i < m0.len() {
                    assert(m0[i] != m);
                } else {
                    assert(m0[j] != m);
                }
            }
        }
    }
}

/// The direction in which the opponent stands next to the player, if it does.
fn jump_direction_towards(player_position: &PiecePosition, opponent_position: &PiecePosition) -> (r: Option<Direction>)
    requires
        player_position.wf(),
        opponent_position.wf(),
    ensures
        r matches Some(jd) ==> step_in_bounds(player_position.index as int, jd) && step(player_position.index as int, jd)
            == opponent_position.index,
        r is None ==> forall|d: Direction|
            #[trigger] step_in_bounds(player_position.index as int, d) ==> step(player_position.index as int, d)
                != opponent_position.index,
{
    let x_diff = opponent_position.x() as isize - player_position.x() as isize;
    let y_diff = opponent_position.y() as isize - player_position.y() as isize;
    proof {
        assert forall|d: Direction| #[trigger] step_in_bounds(player_position.index as int, d) implies (step(player_position.index as int, d)
            == opponent_position.index <==> (x_diff == d.dx() && y_diff == d.dy())) by {
            lemma_step_cell(player_position.index as int, d);
        }
    }
    if x_diff == 0 && y_diff == 1 {
        Some(Direction::Down)
    } else if x_diff == 0 && y_diff == -1 {
        Some(Direction::Up)
    } else if x_diff == 1 && y_diff == 0 {
        Some(Direction::Right)
    } else if x_diff == -1 && y_diff == 0 {
        Some(Direction::Left)
    } else {
        None
    }
}

/// The piece moves to try, in order: a jump over the opponent in each direction of collision,
/// then a step in each other direction.
fn piece_move_list(jump_direction: Option<Direction>) -> (r: Vec<MovePiece>)
    ensures
        jump_direction matches Some(jd) ==> forall|dc: Direction|
            #[trigger] r@.contains(MovePiece { direction: jd, direction_on_collision: dc }),
        forall|d: Direction|
            jump_direction != Some(d) ==> #[trigger] r@.contains(MovePiece { direction: d, direction_on_collision: Direction::Up }),
        r@.no_duplicates(),
{
    let directions = Direction::iter();
    let mut list: Vec<MovePiece> = Vec::new();
    match jump_direction {
        Some(jd) => {
            list.push(MovePiece { direction: jd, direction_on_collision: Direction::Up });
            list.push(MovePiece { direction: jd, direction_on_collision: Direction::Down });
            list.push(MovePiece { direction: jd, direction_on_collision: Direction::Left });
            list.push(MovePiece { direction: jd, direction_on_collision: Direction::Right });
            proof {
                assert forall|dc: Direction| #[trigger] list@.contains(MovePiece { direction: jd, direction_on_collision: dc }) by {
                    match dc {
                        Direction::Up => assert(list@[0] == MovePiece { direction: jd, direction_on_collision: dc }),
                        Direction::Down => assert(list@[1] == MovePiece { direction: jd, direction_on_collision: dc }),
                        Direction::Left => assert(list@[2] == MovePiece { direction: jd, direction_on_collision: dc }),
                        Direction::Right => assert(list@[3] == MovePiece { direction: jd, direction_on_collision: dc }),
                    }
                }
            }
        },
        None => {},
    }
    let mut k: usize = 0;
    while k < 4
        invariant
            directions@ == Direction::all(),
            k <= 4,
            jump_direction matches Some(jd) ==> forall|dc: Direction|
                #[trigger] list@.contains(MovePiece { direction: jd, direction_on_collision: dc }),
            forall|t: int|
                0 <= t < k && jump_direction != Some(#[trigger] directions@[t]) ==> list@.contains(
                    MovePiece { direction: directions@[t], direction_on_collision: Direction::Up },
                ),
            list@.no_duplicates(),
            forall|i: int, t: int|
                0 <= i < list@.len() && k <= t < 4 && jump_direction != Some(directions@[t]) ==> (#[trigger] list@[i]).direction
                    != #[trigger] directions@[t],
        decreases 4 - k,
    {
        let d = directions[k];
        let is_jump = match jump_direction {
            Some(jd) => jd == d,
            None => false,
        };
        if !is_jump {
            let ghost l0 = list@;
            list.push(MovePiece { direction: d, direction_on_collision: Direction::Up });
            proof {
                assert(list@[list@.len() - 1] == MovePiece { direction: d, direction_on_collision: Direction::Up });
                assert(forall|i: int| 0 <= i < l0.len() ==> list@[i] == l0[i]);
                assert forall|i: int, j: int| 0 <= i < list@.len() && 0 <= j < list@.len() && i != j implies list@[i] != list@[j] by {
                    if i < l0.len() && j < l0.len() {
                    } else if i < l0.len() {
                        assert(l0[i].direction != directions@[k as int]);
                    } else {
                        assert(l0[j].direction != directions@[k as int]);
                    }
                }
                assert forall|x: MovePiece| l0.contains(x) implies list@.contains(x) by {
                    let i = choose|i: int| 0 <= i < l0.len() && l0[i] == x;
                    assert(list@[i] == x);
                }
                if let Some(jd) = jump_direction {
                    assert forall|dc: Direction| #[trigger] list@.contains(MovePiece { direction: jd, direction_on_collision: dc }) by {
                        assert(l0.contains(MovePiece { direction: jd, direction_on_collision: dc }));
                    }
                }
            }
        }
        k += 1;
    }
    proof {
        assert forall|d: Direction| jump_direction != Some(d) implies #[trigger] list@.contains(
            MovePiece { direction: d, direction_on_collision: Direction::Up },
        ) by {
            let t = match d {
                Direction::Up => 0int,
                Direction::Down => 1int,
                Direction::Left => 2int,
                Direction::Right => 3int,
            };
            assert(directions@[t] == d);
        }
    }
    list
}

/// The piece moves that the rules allow, those towards the opponent first.
fn ordered_piece_moves(game: &Game, player: Player) -> (r: Vec<PlayerMove>)
    requires
        game.wf(),
    ensures
        forall|i: int| 0 <= i < r@.len() ==> candidate_move(*game, player, #[trigger] r@[i]),
        forall|mp: MovePiece| #[trigger] piece_move_legal(game.board, player, game.board.pos(player).index as int, mp) ==> covers(
            *game,
            player,
            r@,
            PlayerMove::MovePiece(mp),
        ),
        r@.no_duplicates(),
        forall|i: int| 0 <= i < r@.len() ==> (#[trigger] r@[i]) is MovePiece,
{
    let mut moves: Vec<PlayerMove> = Vec::new();
    let player_position = game.board.player_position(player);
    let opponent_position = game.board.player_position(player.opponent());
    let ghost c = player_position.index as int;
    let ghost opp = opponent_position.index as int;
    let jump_direction = jump_direction_towards(player_position, opponent_position);
    let list = piece_move_list(jump_direction);
    push_legal_piece_moves(&mut moves, game, player, &list);
    proof {
        assert forall|mp: MovePiece| #[trigger] piece_move_legal(game.board, player, c, mp) implies covers(
            *game,
            player,
            moves@,
            PlayerMove::MovePiece(mp),
        ) by {
            let d = mp.direction;
            lemma_legal_piece_move_lands(game.board, player, c, mp);
            lemma_step_cell(c, d);
            let straight = MovePiece { direction: d, direction_on_collision: Direction::Up };
            assert(step_in_bounds(c, d));
            match jump_direction {
                Some(jd) => {
                    if d == jd {
                        assert(list@.contains(MovePiece { direction: jd, direction_on_collision: mp.direction_on_collision }));
                        let w = choose|w: int| 0 <= w < list@.len() && list@[w] == mp;
                        assert(piece_move_legal(game.board, player, c, list@[w]));
                    } else {
                        if step(c, d) == opp {
                            lemma_steps_differ(c, d, jd);
                        }
                        assert(list@.contains(straight));
                        let w = choose|w: int| 0 <= w < list@.len() && list@[w] == straight;
                        assert(piece_move_legal(game.board, player, c, list@[w]));
                        assert(game_after_move(*game, player, PlayerMove::MovePiece(straight))
                            == game_after_move(*game, player, PlayerMove::MovePiece(mp)));
                        let v = choose|v: int| 0 <= v < moves@.len() && game_after_move(*game, player, #[trigger] moves@[v])
                            == game_after_move(*game, player, PlayerMove::MovePiece(straight));
                    }
                },
                None => {
                    assert(list@.contains(straight));
                    let w = choose|w: int| 0 <= w < list@.len() && list@[w] == straight;
                    assert(piece_move_legal(game.board, player, c, list@[w]));
                    assert(game_after_move(*game, player, PlayerMove::MovePiece(straight))
                        == game_after_move(*game, player, PlayerMove::MovePiece(mp)));
                    let v = choose|v: int| 0 <= v < moves@.len() && game_after_move(*game, player, #[trigger] moves@[v])
                        == game_after_move(*game, player, PlayerMove::MovePiece(straight));
                },
            }
        }
    }
    moves
}

/// The moves that the search tries, best guesses first: piece moves towards the opponent, the
/// other piece moves, then walls ring by ring around the opponent.
fn moves_ordered_by_heuristic_quality(game: &Game, player: Player) -> (r: Vec<PlayerMove>)
    requires
        game.wf(),
    ensures
        forall|i: int| 0 <= i < r@.len() ==> candidate_move(*game, player, #[trigger] r@[i]),
        forall|m: PlayerMove| #[trigger] candidate_move(*game, player, m) ==> covers(*game, player, r@, m),
        r@.no_duplicates(),
{
    let mut moves = ordered_piece_moves(game, player);
    let ghost c = game.board.pos(player).index as int;
    let opponent_position = game.board.player_position(player.opponent());
    let origin = opponent_position;
    let ox = origin.x() as isize;
    let oy = origin.y() as isize;
    let mut i: usize = 1;
    proof {
        assert(walls_placed_before(moves@, ox as int, oy as int, 1, Seq::empty(), 0)) by {
            assert forall|j: int| 0 <= j < moves@.len() implies match #[trigger] moves@[j] {
                PlayerMove::MovePiece(_) => true,
                PlayerMove::PlaceWall { orientation, position } => ring_of(ox as int, oy as int, position.x as int, position.y as int) < 1
                    || exists|t: int| 0 <= t < 0 && position.x == Seq::<(isize, isize)>::empty()[t].0 && position.y == Seq::<(isize, isize)>::empty()[t].1,
            } by {
                assert(moves@[j] is MovePiece);
            }
        }
    }
    loop
        invariant_except_break
            walls_placed_before(moves@, ox as int, oy as int, i as int, Seq::empty(), 0),
        invariant
            game.wf(),
            c == game.board.pos(player).index,
            moves@.no_duplicates(),
            0 <= ox < 9,
            0 <= oy < 9,
            1 <= i <= 9,
            forall|j: int| 0 <= j < moves@.len() ==> candidate_move(*game, player, #[trigger] moves@[j]),
            forall|mp: MovePiece| #[trigger] piece_move_legal(game.board, player, c, mp) ==> covers(
                *game,
                player,
                moves@,
                PlayerMove::MovePiece(mp),
            ),
            forall|x: int, y: int, o: WallOrientation|
                slot_in_grid(x, y) && ring_of(ox as int, oy as int, x, y) < i && #[trigger] wall_candidate(*game, player, o, x, y)
                    ==> covers(*game, player, moves@, PlayerMove::PlaceWall { orientation: o, position: WallPosition { x: x as usize, y: y as usize } }),
        ensures
            moves@.no_duplicates(),
            forall|j: int| 0 <= j < moves@.len() ==> candidate_move(*game, player, #[trigger] moves@[j]),
            forall|mp: MovePiece| #[trigger] piece_move_legal(game.board, player, c, mp) ==> covers(
                *game,
                player,
                moves@,
                PlayerMove::MovePiece(mp),
            ),
            forall|x: int, y: int, o: WallOrientation|
                slot_in_grid(x, y) && #[trigger] wall_candidate(*game, player, o, x, y)
                    ==> covers(*game, player, moves@, PlayerMove::PlaceWall { orientation: o, position: WallPosition { x: x as usize, y: y as usize } }),
        decreases 10 - i,
    {
        let top_left_x = ox - i as isize;
        let top_left_y = oy - i as isize;
        let side_length = 2 * i;
        let points = SquareOutlineIterator::new(top_left_x, top_left_y, side_length).collect();
        let ghost tlx = top_left_x as int;
        let ghost tly = top_left_y as int;
        let ghost m_ring = moves@;
        let mut some_in_bounds = false;
        let mut k: usize = 0;
        proof {
            assert(walls_placed_before(moves@, ox as int, oy as int, i as int, points@, 0));
        }
        while k < points.len()
            invariant
                game.wf(),
                c == game.board.pos(player).index,
                1 <= i <= 9,
                tlx == ox - i,
                tly == oy - i,
                side_length == 2 * i,
                moves@.no_duplicates(),
                walls_placed_before(moves@, ox as int, oy as int, i as int, points@, k as int),
                points@.len() == outline_len(side_length as int),
                forall|t: int| 0 <= t < points@.len() ==> (#[trigger] points@[t]).0 == outline_point(tlx, tly, side_length as int, t).0
                    && points@[t].1 == outline_point(tlx, tly, side_length as int, t).1,
                k <= points@.len(),
                forall|j: int| 0 <= j < moves@.len() ==> candidate_move(*game, player, #[trigger] moves@[j]),
                forall|m: PlayerMove| covers(*game, player, m_ring, m) ==> #[trigger] covers(*game, player, moves@, m),
                forall|t: int, o: WallOrientation|
                    0 <= t < k && slot_in_grid(points@[t].0 as int, points@[t].1 as int) && #[trigger] wall_candidate(*game, player, o, points@[t].0 as int, points@[t].1 as int)
                        ==> covers(*game, player, moves@, PlayerMove::PlaceWall { orientation: o, position: WallPosition { x: points@[t].0 as usize, y: points@[t].1 as usize } }),
                some_in_bounds == exists|t: int| 0 <= t < k && #[trigger] slot_in_grid(points@[t].0 as int, points@[t].1 as int),
            decreases points@.len() - k,
        {
            let (x, y) = points[k];
            let ghost m0 = moves@;
            if x >= 0 && y >= 0 && x < WALL_GRID_WIDTH as isize && y < WALL_GRID_HEIGHT as isize {
                some_in_bounds = true;
                proof {
                    lemma_fresh_wall(moves@, ox as int, oy as int, i as int, points@, k as int, WallOrientation::Horizontal);
                    lemma_fresh_wall(moves@, ox as int, oy as int, i as int, points@, k as int, WallOrientation::Vertical);
                    lemma_walls_placed_next(moves@, ox as int, oy as int, i as int, points@, k as int);
                    lemma_walls_placed_push(moves@, ox as int, oy as int, i as int, points@, k as int, WallOrientation::Horizontal);
                }
                push_wall_if_it_fits(&mut moves, game, player, WallOrientation::Horizontal, x, y);
                let ghost m1 = moves@;
                proof {
                    let v = PlayerMove::PlaceWall { orientation: WallOrientation::Vertical, position: WallPosition { x: x as usize, y: y as usize } };
                    if m1 != m0 {
                        if m1.contains(v) {
                            let j = choose|j: int| 0 <= j < m1.len() && m1[j] == v;
                            if j < m0.len() {
                                assert(m0[j] == v);
                            }
                        }
                    }
                    lemma_walls_placed_push(m1, ox as int, oy as int, i as int, points@, k as int, WallOrientation::Vertical);
                }
                push_wall_if_it_fits(&mut moves, game, player, WallOrientation::Vertical, x, y);
                proof {
                    assert(slot_in_grid(points@[k as int].0 as int, points@[k as int].1 as int));
                }
            } else {
                proof {
                    lemma_walls_placed_next(moves@, ox as int, oy as int, i as int, points@, k as int);
                }
            }
            proof {
                assert forall|t: int, o: WallOrientation|
                    0 <= t < k + 1 && slot_in_grid(points@[t].0 as int, points@[t].1 as int) && #[trigger] wall_candidate(*game, player, o, points@[t].0 as int, points@[t].1 as int)
                        implies covers(*game, player, moves@, PlayerMove::PlaceWall { orientation: o, position: WallPosition { x: points@[t].0 as usize, y: points@[t].1 as usize } }) by {
                    if t < k {
                        assert(covers(*game, player, m0, PlayerMove::PlaceWall { orientation: o, position: WallPosition { x: points@[t].0 as usize, y: points@[t].1 as usize } }));
                    } else {
                        match o {
                            WallOrientation::Horizontal => {},
                            WallOrientation::Vertical => {},
                        }
                    }
                }
            }
            k += 1;
        }
        proof {
            lemma_walls_placed_ring_done(moves@, ox as int, oy as int, i as int, points@);
            assert forall|x: int, y: int, o: WallOrientation|
                slot_in_grid(x, y) && ring_of(ox as int, oy as int, x, y) < i + 1 && #[trigger] wall_candidate(*game, player, o, x, y)
                    implies covers(*game, player, moves@, PlayerMove::PlaceWall { orientation: o, position: WallPosition { x: x as usize, y: y as usize } }) by {
                if ring_of(ox as int, oy as int, x, y) == i {
                    lemma_ring_point(ox as int, oy as int, i as int, x, y);
                    let t = choose|t: int| 0 <= t < outline_len(2 * i as int) && #[trigger] outline_point(ox - i, oy - i, 2 * i as int, t) == (x, y);
                    assert(points@[t].0 == x && points@[t].1 == y);
                } else {
                    assert(covers(*game, player, m_ring, PlayerMove::PlaceWall { orientation: o, position: WallPosition { x: x as usize, y: y as usize } }));
                }
            }
        }
        if !some_in_bounds {
            proof {
                assert forall|x: int, y: int, o: WallOrientation|
                    slot_in_grid(x, y) && #[trigger] wall_candidate(*game, player, o, x, y)
                        implies covers(*game, player, moves@, PlayerMove::PlaceWall { orientation: o, position: WallPosition { x: x as usize, y: y as usize } }) by {
                    if ring_of(ox as int, oy as int, x, y) >= i {
                        lemma_inner_ring_in_grid(ox as int, oy as int, x, y, i as int);
                        let (x2, y2) = choose|x2: int, y2: int| slot_in_grid(x2, y2) && #[trigger] ring_of(ox as int, oy as int, x2, y2) == i;
                        lemma_ring_point(ox as int, oy as int, i as int, x2, y2);
                        let t = choose|t: int| 0 <= t < outline_len(2 * i as int) && #[trigger] outline_point(ox - i, oy - i, 2 * i as int, t) == (x2, y2);
                        assert(slot_in_grid(points@[t].0 as int, points@[t].1 as int));
                    }
                }
            }
            break;
        }
        proof {
            let t = choose|t: int| 0 <= t < points@.len() && #[trigger] slot_in_grid(points@[t].0 as int, points@[t].1 as int);
            lemma_ring_bound(ox as int, oy as int, i as int, t);
        }
        i += 1;
    }
    proof {
        assert forall|m: PlayerMove| #[trigger] candidate_move(*game, player, m) implies covers(*game, player, moves@, m) by {
            match m {
                PlayerMove::MovePiece(mp) => {
                    assert(piece_move_legal(game.board, player, c, mp));
                },
                PlayerMove::PlaceWall { orientation, position } => {
                    assert(wall_candidate(*game, player, orientation, position.x as int, position.y as int));
                    assert(WallPosition { x: position.x as int as usize, y: position.y as int as usize } == position);
                },
            }
        }
    }
    moves
}

/// Every move that a player could try: the sixteen piece moves, then both walls in each slot,
/// slot by slot along the rows.
pub open spec fn all_moves() -> Seq<PlayerMove> {
    Seq::new(
        144,
        |k: int|
            if k < 16 {
                PlayerMove::MovePiece(MovePiece::all()[k])
            } else {
                PlayerMove::PlaceWall {
                    orientation: if (k - 16) % 2 == 0 {
                        WallOrientation::Horizontal
                    } else {
                        WallOrientation::Vertical
                    },
                    position: WallPosition { x: (((k - 16) / 2) % 8) as usize, y: (((k - 16) / 2) / 8) as usize },
                }
            },
    )
}

proof fn lemma_candidate_listed(game: Game, player: Player, m: PlayerMove)
    requires
        candidate_move(game, player, m),
    ensures
        exists|k: int| 0 <= k < 144 && all_moves()[k] == m,
{
    match m {
        PlayerMove::MovePiece(mp) => {
            crate::a_star::lemma_move_listed(mp);
            let k = choose|k: int| 0 <= k < 16 && MovePiece::all()[k] == mp;
            assert(all_moves()[k] == m);
        },
        PlayerMove::PlaceWall { orientation, position } => {
            let o = match orientation {
                WallOrientation::Horizontal => 0int,
                WallOrientation::Vertical => 1int,
            };
            let w = position.x as int + 8 * position.y as int;
            let k = 16 + 2 * w + o;
            assert((k - 16) % 2 == o && (k - 16) / 2 == w);
            assert(w % 8 == position.x && w / 8 == position.y);
            assert(all_moves()[k] == m);
        },
    }
}

/// The better of two scores for `player`: the larger for White, the smaller for Black.
pub open spec fn better(player: Player, a: int, b: int) -> int {
    match player {
        Player::White => if a >= b {
            a
        } else {
            b
        },
        Player::Black => if a <= b {
            a
        } else {
            b
        },
    }
}

/// Whether score `a` is at least as good as score `b` for `player`.
pub open spec fn at_least_as_good(player: Player, a: int, b: int) -> bool {
    match player {
        Player::White => a >= b,
        Player::Black => a <= b,
    }
}

/// The score of `game` searched `depth` plies deep without pruning, `player` to move.
pub open spec fn minimax(game: Game, player: Player, depth: nat) -> int
    decreases depth, 145int,
{
    if depth == 0 {
        static_score(game)
    } else {
        best_of(game, player, depth, all_moves(), 144)
    }
}

/// The best score for `player` over the moves among the first `n` of `moves` that the search
/// may choose, each scored `depth - 1` plies deeper; the no-move score when there is none.
pub open spec fn best_of(game: Game, player: Player, depth: nat, moves: Seq<PlayerMove>, n: int) -> int
    decreases depth, n,
{
    if n <= 0 || depth == 0 {
        no_move_score(player)
    } else {
        let prev = best_of(game, player, depth, moves, n - 1);
        let m = moves[n - 1];
        if viable_move(game, player, m) {
            better(
                player,
                prev,
                minimax(game_after_move(game, player, m), player.spec_opponent(), (depth - 1) as nat),
            )
        } else {
            prev
        }
    }
}

proof fn lemma_best_of_bounds(game: Game, player: Player, depth: nat, moves: Seq<PlayerMove>, n: int)
    requires
        depth > 0,
        0 <= n <= moves.len(),
    ensures
        at_least_as_good(player, best_of(game, player, depth, moves, n), no_move_score(player)),
        forall|i: int|
            0 <= i < n && viable_move(game, player, #[trigger] moves[i]) ==> at_least_as_good(
                player,
                best_of(game, player, depth, moves, n),
                minimax(game_after_move(game, player, moves[i]), player.spec_opponent(), (depth - 1) as nat),
            ),
        best_of(game, player, depth, moves, n) == no_move_score(player) || exists|i: int|
            0 <= i < n && viable_move(game, player, #[trigger] moves[i]) && best_of(game, player, depth, moves, n)
                == minimax(game_after_move(game, player, moves[i]), player.spec_opponent(), (depth - 1) as nat),
    decreases n,
{
    if n > 0 {
        lemma_best_of_bounds(game, player, depth, moves, n - 1);
        let prev = best_of(game, player, depth, moves, n - 1);
        if prev != no_move_score(player) {
            let i = choose|i: int|
                0 <= i < n - 1 && viable_move(game, player, #[trigger] moves[i]) && prev == minimax(
                    game_after_move(game, player, moves[i]),
                    player.spec_opponent(),
                    (depth - 1) as nat,
                );
        }
    }
}

proof fn lemma_best_of_monotone(game: Game, player: Player, depth: nat, moves: Seq<PlayerMove>, m: int, n: int)
    requires
        depth > 0,
        0 <= m <= n <= moves.len(),
    ensures
        at_least_as_good(player, best_of(game, player, depth, moves, n), best_of(game, player, depth, moves, m)),
    decreases n,
{
    if m < n {
        lemma_best_of_monotone(game, player, depth, moves, m, n - 1);
    }
}

/// Two lists of moves whose choosable moves lead to the same positions give the same best score.
proof fn lemma_best_of_same(
    game: Game,
    player: Player,
    depth: nat,
    a: Seq<PlayerMove>,
    na: int,
    b: Seq<PlayerMove>,
    nb: int,
)
    requires
        depth > 0,
        0 <= na <= a.len(),
        0 <= nb <= b.len(),
        forall|i: int|
            0 <= i < na && viable_move(game, player, #[trigger] a[i]) ==> exists|j: int|
                0 <= j < nb && viable_move(game, player, b[j]) && game_after_move(game, player, #[trigger] b[j])
                    == game_after_move(game, player, a[i]),
        forall|j: int|
            0 <= j < nb && viable_move(game, player, #[trigger] b[j]) ==> exists|i: int|
                0 <= i < na && viable_move(game, player, a[i]) && game_after_move(game, player, #[trigger] a[i])
                    == game_after_move(game, player, b[j]),
    ensures
        best_of(game, player, depth, a, na) == best_of(game, player, depth, b, nb),
{
    lemma_best_of_bounds(game, player, depth, a, na);
    lemma_best_of_bounds(game, player, depth, b, nb);
    let x = best_of(game, player, depth, a, na);
    let y = best_of(game, player, depth, b, nb);
    if x != no_move_score(player) {
        let i = choose|i: int|
            0 <= i < na && viable_move(game, player, #[trigger] a[i]) && x == minimax(
                game_after_move(game, player, a[i]),
                player.spec_opponent(),
                (depth - 1) as nat,
            );
        let j = choose|j: int|
            0 <= j < nb && viable_move(game, player, b[j]) && game_after_move(game, player, #[trigger] b[j])
                == game_after_move(game, player, a[i]);
        assert(at_least_as_good(player, y, x));
    }
    if y != no_move_score(player) {
        let j = choose|j: int|
            0 <= j < nb && viable_move(game, player, #[trigger] b[j]) && y == minimax(
                game_after_move(game, player, b[j]),
                player.spec_opponent(),
                (depth - 1) as nat,
            );
        let i = choose|i: int|
            0 <= i < na && viable_move(game, player, a[i]) && game_after_move(game, player, #[trigger] a[i])
                == game_after_move(game, player, b[j]);
        assert(at_least_as_good(player, x, y));
    }
}

/// Every score of a well-formed game lies between the two sentinels.
pub proof fn lemma_minimax_in_range(game: Game, player: Player, depth: nat)
    requires
        game.wf(),
    ensures
        LOSING_SCORE <= minimax(game, player, depth) <= WINNING_SCORE,
    decreases depth,
{
    if depth == 0 {
        lemma_astar_path_len(game.board, Player::White);
        lemma_astar_path_len(game.board, Player::Black);
    } else {
        lemma_best_of_bounds(game, player, depth, all_moves(), 144);
        let x = minimax(game, player, depth);
        if x != no_move_score(player) {
            let i = choose|i: int|
                0 <= i < 144 && viable_move(game, player, #[trigger] all_moves()[i]) && x == minimax(
                    game_after_move(game, player, all_moves()[i]),
                    player.spec_opponent(),
                    (depth - 1) as nat,
                );
            lemma_candidate_applicable(game, player, all_moves()[i]);
            lemma_minimax_in_range(game_after_move(game, player, all_moves()[i]), player.spec_opponent(), (depth - 1) as nat);
        }
    }
}

pub open spec fn clamp(x: int, lo: int, hi: int) -> int {
    if x < lo {
        lo
    } else if x > hi {
        hi
    } else {
        x
    }
}

/// One more child at a node of White: with the running score `v` below `b0` and the child searched
/// in the window from `max(a0, v)` to `b0`, the clamped scores still agree.
proof fn lemma_clamp_max_step(v: int, big: int, s: int, m: int, a0: int, b0: int)
    requires
        a0 < b0,
        v < b0,
        clamp(v, a0, b0) == clamp(big, a0, b0),
        clamp(s, if a0 >= v { a0 } else { v }, b0) == clamp(m, if a0 >= v { a0 } else { v }, b0),
    ensures
        clamp(if v >= s { v } else { s }, a0, b0) == clamp(if big >= m { big } else { m }, a0, b0),
{
}

/// One more child at a node of Black, the mirror of `lemma_clamp_max_step`.
proof fn lemma_clamp_min_step(v: int, small: int, s: int, m: int, a0: int, b0: int)
    requires
        a0 < b0,
        v > a0,
        clamp(v, a0, b0) == clamp(small, a0, b0),
        clamp(s, a0, if b0 <= v { b0 } else { v }) == clamp(m, a0, if b0 <= v { b0 } else { v }),
    ensures
        clamp(if v <= s { v } else { s }, a0, b0) == clamp(if small <= m { small } else { m }, a0, b0),
{
}

proof fn lemma_tried_moves_listed(game: Game, player: Player, moves: Seq<PlayerMove>)
    requires
        forall|i: int| 0 <= i < moves.len() ==> candidate_move(game, player, #[trigger] moves[i]),
    ensures
        forall|i: int|
            0 <= i < moves.len() && viable_move(game, player, #[trigger] moves[i]) ==> exists|j: int|
                0 <= j < 144 && viable_move(game, player, all_moves()[j]) && game_after_move(game, player, #[trigger] all_moves()[j])
                    == game_after_move(game, player, moves[i]),
{
    assert forall|i: int| 0 <= i < moves.len() && viable_move(game, player, #[trigger] moves[i]) implies exists|j: int|
        0 <= j < 144 && viable_move(game, player, all_moves()[j]) && game_after_move(game, player, #[trigger] all_moves()[j])
            == game_after_move(game, player, moves[i]) by {
        lemma_candidate_listed(game, player, moves[i]);
    }
}

proof fn lemma_listed_moves_tried(game: Game, player: Player, moves: Seq<PlayerMove>)
    requires
        forall|i: int| 0 <= i < moves.len() ==> candidate_move(game, player, #[trigger] moves[i]),
        forall|m: PlayerMove| #[trigger] candidate_move(game, player, m) ==> covers(game, player, moves, m),
    ensures
        forall|j: int|
            0 <= j < 144 && viable_move(game, player, #[trigger] all_moves()[j]) ==> exists|i: int|
                0 <= i < moves.len() && viable_move(game, player, moves[i]) && game_after_move(game, player, #[trigger] moves[i])
                    == game_after_move(game, player, all_moves()[j]),
{
    assert forall|j: int| 0 <= j < 144 && viable_move(game, player, #[trigger] all_moves()[j]) implies exists|i: int|
        0 <= i < moves.len() && viable_move(game, player, moves[i]) && game_after_move(game, player, #[trigger] moves[i])
            == game_after_move(game, player, all_moves()[j]) by {
        let m = all_moves()[j];
        assert(covers(game, player, moves, m));
        let i = choose|i: int| 0 <= i < moves.len() && game_after_move(game, player, #[trigger] moves[i]) == game_after_move(game, player, m);
        assert(candidate_move(game, player, moves[i]));
    }
}

/// Scoring the moves that the search tries gives the score of all moves.
proof fn lemma_ordered_moves_score(game: Game, player: Player, depth: nat, moves: Seq<PlayerMove>)
    requires
        depth > 0,
        forall|i: int| 0 <= i < moves.len() ==> candidate_move(game, player, #[trigger] moves[i]),
        forall|m: PlayerMove| #[trigger] candidate_move(game, player, m) ==> covers(game, player, moves, m),
    ensures
        best_of(game, player, depth, moves, moves.len() as int) == minimax(game, player, depth),
{
    lemma_tried_moves_listed(game, player, moves);
    lemma_listed_moves_tried(game, player, moves);
    lemma_best_of_same(game, player, depth, moves, moves.len() as int, all_moves(), 144);
}

/// The score that a player starts from when it has no move: a loss for White, the maximiser,
/// and a win for Black, the minimiser.
pub open spec fn no_move_score(player: Player) -> int {
    match player {
        Player::White => LOSING_SCORE as int,
        Player::Black => WINNING_SCORE as int,
    }
}

/// Whether `m` is a move that the search may choose: one it tries and after which both players
/// can still reach their goal rows.
pub open spec fn viable_move(game: Game, player: Player, m: PlayerMove) -> bool {
    candidate_move(game, player, m) && both_can_finish(game_after_move(game, player, m))
}

/// The best move for `player` in `game`, searched `depth` plies deep, and its score from
/// White's side.
pub fn best_move_alpha_beta(game: &Game, player: Player, depth: usize) -> (r: (isize, Option<PlayerMove>))
    requires
        game.wf(),
        depth == 0 ==> both_can_finish(*game),
    ensures
        LOSING_SCORE <= r.0 <= WINNING_SCORE,
        depth == 0 ==> r.1 is None,
        r.1 matches Some(m) ==> viable_move(*game, player, m) && move_legal(*game, player, m),
        depth > 0 ==> (r.1 is Some <==> exists|m: PlayerMove| #[trigger] viable_move(*game, player, m)),
        depth > 0 && r.1 is None ==> r.0 == no_move_score(player),
        r.0 == minimax(*game, player, depth as nat),
        r.1 matches Some(m) ==> minimax(game_after_move(*game, player, m), player.spec_opponent(), (depth - 1) as nat)
            == r.0,
{
    let r = alpha_beta(game, depth, LOSING_SCORE, WINNING_SCORE, player);
    proof {
        lemma_minimax_in_range(*game, player, depth as nat);
    }
    r
}

/// Minimax search with alpha-beta pruning: White maximises the score and Black minimises it.
/// `alpha` is the score that White is already sure of, `beta` the one that Black is. Within
/// that window the score is the one that a search without pruning gives; outside it, it is on
/// the same side of the window.
#[verifier::rlimit(50)]
pub fn alpha_beta(game: &Game, depth: usize, alpha: isize, beta: isize, player: Player) -> (r: (isize, Option<PlayerMove>))
    requires
        game.wf(),
        depth == 0 ==> both_can_finish(*game),
        LOSING_SCORE <= alpha < beta <= WINNING_SCORE,
    ensures
        LOSING_SCORE <= r.0 <= WINNING_SCORE,
        depth == 0 ==> r.1 is None,
        r.1 matches Some(m) ==> viable_move(*game, player, m) && move_legal(*game, player, m),
        depth > 0 ==> (r.1 is Some <==> exists|m: PlayerMove| #[trigger] viable_move(*game, player, m)),
        depth > 0 && r.1 is None ==> r.0 == no_move_score(player),
        clamp(r.0 as int, alpha as int, beta as int) == clamp(minimax(*game, player, depth as nat), alpha as int, beta as int),
        alpha == LOSING_SCORE && beta == WINNING_SCORE ==> (r.1 matches Some(m) ==> minimax(
            game_after_move(*game, player, m),
            player.spec_opponent(),
            (depth - 1) as nat,
        ) == r.0),
    decreases depth,
{
    if depth == 0 {
        return (heuristic_board_score(game), None);
    }
    let ghost alpha0 = alpha as int;
    let ghost beta0 = beta as int;
    let mut alpha = alpha;
    let mut beta = beta;
    let mut best_move: Option<PlayerMove> = None;
    let moves = moves_ordered_by_heuristic_quality(game, player);
    let mut value = match player {
        Player::White => LOSING_SCORE,
        Player::Black => WINNING_SCORE,
    };
    let mut idx: usize = 0;
    while idx < moves.len()
        invariant_except_break
            player == Player::White ==> beta == beta0 && alpha == (if alpha0 >= value { alpha0 } else { value as int }) && value < beta0,
            player == Player::Black ==> alpha == alpha0 && beta == (if beta0 <= value { beta0 } else { value as int }) && value > alpha0,
            clamp(value as int, alpha0, beta0) == clamp(best_of(*game, player, depth as nat, moves@, idx as int), alpha0, beta0),
        invariant
            game.wf(),
            depth > 0,
            idx <= moves@.len(),
            forall|i: int| 0 <= i < moves@.len() ==> candidate_move(*game, player, #[trigger] moves@[i]),
            LOSING_SCORE <= value <= WINNING_SCORE,
            best_move matches Some(m) ==> viable_move(*game, player, m),
            best_move is None ==> value == no_move_score(player),
            best_move is None ==> forall|t: int| 0 <= t < idx ==> !both_can_finish(game_after_move(*game, player, #[trigger] moves@[t])),
            LOSING_SCORE <= alpha0 < beta0 <= WINNING_SCORE,
            alpha0 == LOSING_SCORE && beta0 == WINNING_SCORE ==> (best_move matches Some(bm) ==> minimax(
                game_after_move(*game, player, bm),
                player.spec_opponent(),
                (depth - 1) as nat,
            ) == value),
        ensures
            alpha0 == LOSING_SCORE && beta0 == WINNING_SCORE ==> (best_move matches Some(bm) ==> minimax(
                game_after_move(*game, player, bm),
                player.spec_opponent(),
                (depth - 1) as nat,
            ) == value),
            clamp(value as int, alpha0, beta0) == clamp(best_of(*game, player, depth as nat, moves@, moves@.len() as int), alpha0, beta0),
            LOSING_SCORE <= value <= WINNING_SCORE,
            best_move matches Some(m) ==> viable_move(*game, player, m),
            best_move is None ==> value == no_move_score(player),
            best_move is None ==> forall|t: int| 0 <= t < moves@.len() ==> !both_can_finish(game_after_move(*game, player, #[trigger] moves@[t])),
        decreases moves@.len() - idx,
    {
        let player_move = moves[idx];
        proof {
            lemma_candidate_applicable(*game, player, player_move);
        }
        let mut child_game_state = *game;
        execute_move_unchecked(&mut child_game_state, player, &player_move);
        if a_star(&child_game_state.board, player).is_none() || a_star(&child_game_state.board, player.opponent()).is_none() {
            proof {
                assert(!viable_move(*game, player, player_move)) by {
                    match player {
                        Player::White => {},
                        Player::Black => {},
                    }
                }
                assert(best_of(*game, player, depth as nat, moves@, idx + 1) == best_of(*game, player, depth as nat, moves@, idx as int));
            }
            idx += 1;
            continue;
        }
        proof {
            assert(both_can_finish(child_game_state)) by {
                match player {
                    Player::White => {},
                    Player::Black => {},
                }
            }
            assert(viable_move(*game, player, player_move));
        }
        let (score, _) = alpha_beta(&child_game_state, depth - 1, alpha, beta, player.opponent());
        let ghost v_old = value as int;
        let ghost m_child = minimax(child_game_state, player.spec_opponent(), (depth - 1) as nat);
        let ghost big = best_of(*game, player, depth as nat, moves@, idx as int);
        proof {
            lemma_minimax_in_range(child_game_state, player.spec_opponent(), (depth - 1) as nat);
            assert(best_of(*game, player, depth as nat, moves@, idx + 1) == better(player, big, m_child));
            match player {
                Player::White => lemma_clamp_max_step(v_old, big, score as int, m_child, alpha0, beta0),
                Player::Black => lemma_clamp_min_step(v_old, big, score as int, m_child, alpha0, beta0),
            }
        }
        match player {
            Player::White => {
                if best_move.is_none() || score > value {
                    best_move = Some(player_move);
                }
                if score > value {
                    value = score;
                }
                if value >= beta {
                    proof {
                        lemma_best_of_monotone(*game, player, depth as nat, moves@, idx + 1, moves@.len() as int);
                    }
                    break;
                }
                if value > alpha {
                    alpha = value;
                }
            },
            Player::Black => {
                if best_move.is_none() || score < value {
                    best_move = Some(player_move);
                }
                if score < value {
                    value = score;
                }
                if value <= alpha {
                    proof {
                        lemma_best_of_monotone(*game, player, depth as nat, moves@, idx + 1, moves@.len() as int);
                    }
                    break;
                }
                if value < beta {
                    beta = value;
                }
            },
        }
        idx += 1;
    }
    proof {
        lemma_ordered_moves_score(*game, player, depth as nat, moves@);
        if best_move is None {
            assert forall|m: PlayerMove| !#[trigger] viable_move(*game, player, m) by {
                if viable_move(*game, player, m) {
                    let t = choose|t: int| 0 <= t < moves@.len() && game_after_move(*game, player, #[trigger] moves@[t]) == game_after_move(*game, player, m);
                }
            }
        }
    }
    (value, best_move)
}

} // verus!
