use vstd::prelude::*;

verus! {

pub const PIECE_GRID_WIDTH: usize = 9;

pub const PIECE_GRID_HEIGHT: usize = 9;

pub const WALL_GRID_WIDTH: usize = 8;

pub const WALL_GRID_HEIGHT: usize = 8;

pub const PLAYER_COUNT: usize = 2;

/// Walls that each player holds at the start of a game.
pub const WALLS_PER_PLAYER: usize = 10;

/// Number of cells of the piece grid.
pub const CELL_COUNT: usize = 81;

#[derive(Debug, Clone, Copy, PartialEq, Eq, Structural)]
pub enum WallOrientation {
    Horizontal,
    Vertical,
}

impl WallOrientation {
    pub fn to_char(&self) -> (r: char)
        ensures
            r == (match *self {
                WallOrientation::Horizontal => 'h',
                WallOrientation::Vertical => 'v',
            }),
    {
        match self {
            WallOrientation::Horizontal => 'h',
            WallOrientation::Vertical => 'v',
        }
    }
}

/// A cell of the piece grid, stored as `y * 9 + x`.
#[derive(Default, Debug, Clone, Copy, PartialEq, Eq, Structural, Hash, Ord, PartialOrd)]
pub struct PiecePosition {
    pub index: usize,
}

pub open spec fn cell_of(x: int, y: int) -> int {
    y * 9 + x
}

pub open spec fn cell_x(c: int) -> int {
    c % 9
}

pub open spec fn cell_y(c: int) -> int {
    c / 9
}

impl PiecePosition {
    pub open spec fn wf(self) -> bool {
        self.index < CELL_COUNT
    }

    pub open spec fn sx(self) -> int {
        cell_x(self.index as int)
    }

    pub open spec fn sy(self) -> int {
        cell_y(self.index as int)
    }

    pub fn new(x: usize, y: usize) -> (r: Self)
        requires
            x < PIECE_GRID_WIDTH,
            y < PIECE_GRID_HEIGHT,
        ensures
            r.index == cell_of(x as int, y as int),
            r.wf(),
            r.sx() == x,
            r.sy() == y,
    {
        Self { index: y * PIECE_GRID_WIDTH + x }
    }

    pub fn x(&self) -> (r: usize)
        ensures
            r == self.sx(),
    {
        self.index % PIECE_GRID_WIDTH
    }

    pub fn y(&self) -> (r: usize)
        ensures
            r == self.sy(),
    {
        self.index / PIECE_GRID_WIDTH
    }
}

#[derive(Default, Debug, Clone, Copy, PartialEq, Eq, Structural)]
pub struct WallPosition {
    pub x: usize,
    pub y: usize,
}

pub type Walls = [[Option<WallOrientation>; 8]; 8];

#[derive(Debug, Clone, Copy)]
pub struct Board {
    pub walls: Walls,
    pub player_positions: [PiecePosition; 2],
}

#[derive(Debug, Clone, Copy)]
pub struct Game {
    pub player: Player,
    pub board: Board,
    pub walls_left: [usize; 2],
}

#[derive(Debug, Clone, Copy, PartialEq, Eq, Structural)]
pub enum Direction {
    Up,
    Down,
    Left,
    Right,
}

#[derive(Debug, Clone, Copy, PartialEq, Eq, Structural)]
pub struct MovePiece {
    pub direction: Direction,
    pub direction_on_collision: Direction,
}

#[derive(Debug, Clone, Copy, PartialEq, Eq, Structural)]
pub enum PlayerMove {
    PlaceWall { orientation: WallOrientation, position: WallPosition },
    MovePiece(MovePiece),
}

#[derive(Debug, Default, Clone, Copy, PartialEq, Eq, Structural, Hash)]
pub enum Player {
    #[default]
    White,
    Black,
}

/// An empty wall grid.
fn no_walls() -> (r: Walls)
    ensures
        forall|x: int, y: int| 0 <= x < 8 && 0 <= y < 8 ==> r[x][y].is_none(),
{
    let column: [Option<WallOrientation>; 8] = [None, None, None, None, None, None, None, None];
    [column, column, column, column, column, column, column, column]
}

impl Board {
    /// The value of the wall slot `(x, y)`; `None` outside the wall grid.
    pub open spec fn slot(self, x: int, y: int) -> Option<WallOrientation> {
        if 0 <= x < 8 && 0 <= y < 8 {
            self.walls[x][y]
        } else {
            None
        }
    }

    pub open spec fn spec_wall_at(self, o: WallOrientation, x: int, y: int) -> bool {
        self.slot(x, y) == Some(o)
    }

    pub open spec fn pos(self, p: Player) -> PiecePosition {
        self.player_positions[p.index()]
    }

    /// Both pieces stand on the grid, never on the same cell.
    pub open spec fn wf(self) -> bool {
        &&& self.player_positions[0].wf()
        &&& self.player_positions[1].wf()
        &&& self.player_positions[0] != self.player_positions[1]
    }

    pub open spec fn is_empty(self) -> bool {
        forall|x: int, y: int| 0 <= x < 8 && 0 <= y < 8 ==> self.walls[x][y].is_none()
    }

    pub fn new() -> (r: Self)
        ensures
            r.wf(),
            r.is_empty(),
            r.pos(Player::White).index == cell_of(4, 0),
            r.pos(Player::Black).index == cell_of(4, 8),
    {
        Self {
            walls: no_walls(),
            player_positions: [PiecePosition::new(4, 0), PiecePosition::new(4, 8)],
        }
    }

    pub fn new_with_initial_moves_skipped() -> (r: Self)
        ensures
            r.wf(),
            r.is_empty(),
            r.pos(Player::White).index == cell_of(4, 3),
            r.pos(Player::Black).index == cell_of(4, 5),
    {
        Self {
            walls: no_walls(),
            player_positions: [PiecePosition::new(4, 3), PiecePosition::new(4, 5)],
        }
    }

    pub fn wall_at(&self, wall_orientation: WallOrientation, wall_pos_x: isize, wall_pos_y: isize) -> (r: bool)
        ensures
            r == self.spec_wall_at(wall_orientation, wall_pos_x as int, wall_pos_y as int),
    {
        if wall_pos_x >= 0 && wall_pos_y >= 0 && wall_pos_x < WALL_GRID_WIDTH as isize
            && wall_pos_y < WALL_GRID_HEIGHT as isize {
            match self.walls[wall_pos_x as usize][wall_pos_y as usize] {
                Some(o) => o == wall_orientation,
                None => false,
            }
        } else {
            false
        }
    }

    pub fn player_position(&self, player: Player) -> (r: &PiecePosition)
        ensures
            *r == self.pos(player),
    {
        &self.player_positions[player.as_index()]
    }
}

impl Game {
    pub open spec fn wf(self) -> bool {
        &&& self.board.wf()
        &&& self.walls_left[0] <= WALLS_PER_PLAYER
        &&& self.walls_left[1] <= WALLS_PER_PLAYER
    }

    pub fn new() -> (r: Self)
        ensures
            r.wf(),
            r.player == Player::White,
            r.board.is_empty(),
            r.board.pos(Player::White).index == cell_of(4, 0),
            r.board.pos(Player::Black).index == cell_of(4, 8),
            r.walls_left[0] == 10,
            r.walls_left[1] == 10,
    {
        Self { player: Player::White, board: Board::new(), walls_left: [WALLS_PER_PLAYER, WALLS_PER_PLAYER] }
    }

    pub fn new_with_initial_moves_skipped() -> (r: Self)
        ensures
            r.wf(),
            r.player == Player::White,
            r.board.is_empty(),
            r.board.pos(Player::White).index == cell_of(4, 3),
            r.board.pos(Player::Black).index == cell_of(4, 5),
            r.walls_left[0] == 10,
            r.walls_left[1] == 10,
    {
        Self {
            player: Player::White,
            board: Board::new_with_initial_moves_skipped(),
            walls_left: [WALLS_PER_PLAYER, WALLS_PER_PLAYER],
        }
    }
}

impl Direction {
    pub open spec fn dx(self) -> int {
        match self {
            Direction::Left => -1,
            Direction::Right => 1,
            _ => 0,
        }
    }

    pub open spec fn dy(self) -> int {
        match self {
            Direction::Up => -1,
            Direction::Down => 1,
            _ => 0,
        }
    }

    /// The four directions, in the order up, down, left, right.
    pub open spec fn all() -> Seq<Direction> {
        seq![Direction::Up, Direction::Down, Direction::Left, Direction::Right]
    }

    pub fn iter() -> (r: Vec<Self>)
        ensures
            r@ == Self::all(),
    {
        let r = vec![Direction::Up, Direction::Down, Direction::Left, Direction::Right];
        assert(r@ =~= Self::all());
        r
    }

    pub fn to_offset(&self) -> (r: (isize, isize))
        ensures
            r.0 == self.dx(),
            r.1 == self.dy(),
    {
        match self {
            Direction::Up => (0, -1),
            Direction::Down => (0, 1),
            Direction::Left => (-1, 0),
            Direction::Right => (1, 0),
        }
    }

    pub fn to_char(&self) -> (r: char)
        ensures
            r == (match *self {
                Direction::Up => 'u',
                Direction::Down => 'd',
                Direction::Left => 'l',
                Direction::Right => 'r',
            }),
    {
        match self {
            Direction::Up => 'u',
            Direction::Down => 'd',
            Direction::Left => 'l',
            Direction::Right => 'r',
        }
    }
}

impl Player {
    pub open spec fn index(self) -> int {
        match self {
            Player::White => 0,
            Player::Black => 1,
        }
    }

    pub open spec fn spec_opponent(self) -> Player {
        match self {
            Player::White => Player::Black,
            Player::Black => Player::White,
        }
    }

    /// The row that the player races to.
    pub open spec fn goal_row(self) -> int {
        match self {
            Player::White => 8,
            Player::Black => 0,
        }
    }

    pub fn opponent(&self) -> (r: Player)
        ensures
            r == self.spec_opponent(),
            r != *self,
            r.spec_opponent() == *self,
    {
        match self {
            Player::White => Player::Black,
            Player::Black => Player::White,
        }
    }

    pub fn as_index(self) -> (r: usize)
        ensures
            r == self.index(),
            r < PLAYER_COUNT,
    {
        match self {
            Player::White => 0,
            Player::Black => 1,
        }
    }

    pub fn to_string(self) -> (r: &'static str)
        ensures
            r@ == (match self {
                Player::White => "White"@,
                Player::Black => "Black"@,
            }),
    {
        match self {
            Player::White => "White",
            Player::Black => "Black",
        }
    }
}

impl MovePiece {
    /// Every pair of a direction and a direction on collision, the first one varying slowest.
    pub open spec fn all() -> Seq<MovePiece> {
        Seq::new(16, |k: int| MovePiece {
            direction: Direction::all()[k / 4],
            direction_on_collision: Direction::all()[k % 4],
        })
    }

    pub fn iter() -> (r: Vec<Self>)
        ensures
            r@ == Self::all(),
    {
        let directions = Direction::iter();
        let mut r: Vec<MovePiece> = Vec::new();
        let mut i: usize = 0;
        while i < 4
            invariant
                i <= 4,
                directions@ == Direction::all(),
                r@ == Self::all().take(4 * i as int),
            decreases 4 - i,
        {
            let mut j: usize = 0;
            while j < 4
                invariant
                    i < 4,
                    j <= 4,
                    directions@ == Direction::all(),
                    r@ == Self::all().take(4 * i + j as int),
                decreases 4 - j,
            {
                r.push(MovePiece { direction: directions[i], direction_on_collision: directions[j] });
                proof {
                    let k = 4 * i + j as int;
                    assert(k / 4 == i as int && k % 4 == j as int);
                    assert(r@ =~= Self::all().take(k + 1));
                }
                j += 1;
            }
            i += 1;
        }
        assert(r@ =~= Self::all());
        r
    }
}

} // verus!
