use vstd::prelude::*;
use crate::data_model::{cell_y, Board, Direction, MovePiece, PiecePosition, Player, CELL_COUNT, PIECE_GRID_HEIGHT};
use crate::game_logic::{
    is_move_piece_legal_with_player_at_position, lemma_legal_piece_move_lands,
    new_position_after_move_piece_unchecked, piece_move_legal, piece_target,
};
use vstd::set_lib::{lemma_int_range, lemma_len_subset, set_int_range};

verus! {

/// Rows left between cell `c` and the goal row of `player`.
pub open spec fn rows_to_goal(c: int, player: Player) -> int {
    match player {
        Player::White => 8 - cell_y(c),
        Player::Black => cell_y(c),
    }
}

/// Whether one piece move takes `player` from cell `u` to cell `v`.
pub open spec fn edge(board: Board, player: Player, u: int, v: int) -> bool {
    &&& 0 <= u < 81
    &&& 0 <= v < 81
    &&& exists|m: MovePiece|
        #[trigger] piece_move_legal(board, player, u, m) && piece_target(
            u,
            m,
            board.pos(player.spec_opponent()).index as int,
        ) == v
}

/// The cell that a walk `p` starting on `s` occupies before its `i`-th move.
pub open spec fn walk_prev(s: int, p: Seq<PiecePosition>, i: int) -> int {
    if i == 0 {
        s
    } else {
        p[i - 1].index as int
    }
}

pub open spec fn walk_step(board: Board, player: Player, s: int, p: Seq<PiecePosition>, i: int) -> bool {
    edge(board, player, walk_prev(s, p, i), p[i].index as int)
}

/// Whether `p` lists the cells, the start `s` excluded, that a sequence of legal piece moves
/// of `player` visits.
pub open spec fn is_walk(board: Board, player: Player, s: int, p: Seq<PiecePosition>) -> bool {
    forall|i: int| 0 <= i < p.len() ==> #[trigger] walk_step(board, player, s, p, i)
}

pub open spec fn walk_end(s: int, p: Seq<PiecePosition>) -> int {
    if p.len() == 0 {
        s
    } else {
        p.last().index as int
    }
}

/// Whether `p` is a walk of `player` from where it stands to its goal row.
pub open spec fn reaches_goal(board: Board, player: Player, p: Seq<PiecePosition>) -> bool {
    &&& is_walk(board, player, board.pos(player).index as int, p)
    &&& cell_y(walk_end(board.pos(player).index as int, p)) == player.goal_row()
}

pub open spec fn goal_reachable(board: Board, player: Player) -> bool {
    exists|p: Seq<PiecePosition>| reaches_goal(board, player, p)
}

pub fn heuristic(pos: &PiecePosition, player: Player) -> (r: usize)
    requires
        pos.wf(),
    ensures
        r == rows_to_goal(pos.index as int, player),
{
    match player {
        Player::White => PIECE_GRID_HEIGHT - 1 - pos.y(),
        Player::Black => pos.y(),
    }
}

/// A queue of items by key: the first of the entries with the smallest key leaves first.
pub struct PriorityQueue {
    entries: Vec<(usize, PiecePosition)>,
}

/// Whether entry `i` has the smallest key of `s` and no earlier entry has that key.
pub open spec fn is_first_min(s: Seq<(usize, PiecePosition)>, i: int) -> bool {
    &&& 0 <= i < s.len()
    &&& forall|j: int| 0 <= j < s.len() ==> s[i].0 <= #[trigger] s[j].0
    &&& forall|j: int| 0 <= j < i ==> s[i].0 < #[trigger] s[j].0
}

pub open spec fn holds_item(s: Seq<(usize, PiecePosition)>, t: PiecePosition) -> bool {
    exists|i: int| 0 <= i < s.len() && #[trigger] s[i].1 == t
}

impl View for PriorityQueue {
    type V = Seq<(usize, PiecePosition)>;

    closed spec fn view(&self) -> Seq<(usize, PiecePosition)> {
        self.entries@
    }
}

impl PriorityQueue {
    pub fn new() -> (r: Self)
        ensures
            r@ == Seq::<(usize, PiecePosition)>::empty(),
    {
        Self { entries: Vec::new() }
    }

    fn first_min_index(&self) -> (i: usize)
        requires
            self@.len() > 0,
        ensures
            is_first_min(self@, i as int),
    {
        let mut best: usize = 0;
        let mut j: usize = 1;
        while j < self.entries.len()
            invariant
                self@ == self.entries@,
                1 <= j <= self.entries@.len(),
                best < j,
                forall|k: int| 0 <= k < j ==> self.entries@[best as int].0 <= #[trigger] self.entries@[k].0,
                forall|k: int| 0 <= k < best ==> self.entries@[best as int].0 < #[trigger] self.entries@[k].0,
            decreases self.entries@.len() - j,
        {
            if self.entries[j].0 < self.entries[best].0 {
                best = j;
            }
            j += 1;
        }
        best
    }

    pub fn peek(&self) -> (r: Option<(usize, PiecePosition)>)
        ensures
            r is None <==> self@.len() == 0,
            r matches Some(e) ==> exists|i: int| is_first_min(self@, i) && e == self@[i],
    {
        if self.entries.len() == 0 {
            return None;
        }
        let i = self.first_min_index();
        Some(self.entries[i])
    }

    pub fn pop(&mut self) -> (r: Option<(usize, PiecePosition)>)
        ensures
            r is None <==> old(self)@.len() == 0,
            r is None ==> final(self)@ == old(self)@,
            r matches Some(e) ==> exists|i: int|
                is_first_min(old(self)@, i) && e == old(self)@[i] && final(self)@ == old(self)@.remove(i),
    {
        if self.entries.len() == 0 {
            return None;
        }
        let i = self.first_min_index();
        let e = self.entries.remove(i);
        Some(e)
    }

    pub fn insert(&mut self, k: usize, t: PiecePosition) -> (r: bool)
        ensures
            final(self)@ == old(self)@.push((k, t)),
            r == !holds_item(old(self)@, t),
    {
        let r = !self.contains(&t);
        self.entries.push((k, t));
        r
    }

    pub fn contains(&self, t: &PiecePosition) -> (r: bool)
        ensures
            r == holds_item(self@, *t),
    {
        let mut j: usize = 0;
        while j < self.entries.len()
            invariant
                self@ == self.entries@,
                j <= self.entries@.len(),
                forall|k: int| 0 <= k < j ==> (#[trigger] self.entries@[k]).1 != *t,
            decreases self.entries@.len() - j,
        {
            if self.entries[j].1 == *t {
                return true;
            }
            j += 1;
        }
        false
    }

    pub fn remove(&mut self, t: &PiecePosition)
        ensures
            final(self)@ == old(self)@.filter(|e: (usize, PiecePosition)| e.1 != *t),
    {
        let ghost pred = |e: (usize, PiecePosition)| e.1 != *t;
        let mut kept: Vec<(usize, PiecePosition)> = Vec::new();
        let mut j: usize = 0;
        while j < self.entries.len()
            invariant
                j <= self.entries@.len(),
                kept@ == self.entries@.take(j as int).filter(pred),
                pred == (|e: (usize, PiecePosition)| e.1 != *t),
            decreases self.entries@.len() - j,
        {
            let e = self.entries[j];
            proof {
                let s = self.entries@.take(j as int + 1);
                assert(s.drop_last() =~= self.entries@.take(j as int));
                reveal(Seq::filter);
            }
            if e.1 != *t {
                kept.push(e);
            }
            j += 1;
        }
        assert(self.entries@.take(self.entries@.len() as int) =~= self.entries@);
        self.entries = kept;
    }
}

spec fn direction_index(d: Direction) -> int {
    match d {
        Direction::Up => 0,
        Direction::Down => 1,
        Direction::Left => 2,
        Direction::Right => 3,
    }
}

pub proof fn lemma_move_listed(m: MovePiece)
    ensures
        exists|k: int| 0 <= k < 16 && MovePiece::all()[k] == m,
{
    let k = 4 * direction_index(m.direction) + direction_index(m.direction_on_collision);
    assert(MovePiece::all()[k] == m);
}

/// The cells that the legal ones among the first `k` piece moves of `MovePiece::all()` take
/// `player` to from cell `u`, in that order.
pub open spec fn neighbor_prefix(board: Board, player: Player, u: int, k: int) -> Seq<PiecePosition>
    decreases k,
{
    if k <= 0 {
        seq![]
    } else {
        let prev = neighbor_prefix(board, player, u, k - 1);
        let m = MovePiece::all()[k - 1];
        if piece_move_legal(board, player, u, m) {
            prev.push(
                PiecePosition {
                    index: piece_target(u, m, board.pos(player.spec_opponent()).index as int) as usize,
                },
            )
        } else {
            prev
        }
    }
}

/// The cells that one legal piece move takes `player` to from `player_position`.
fn neighbors(board: &Board, player: Player, player_position: &PiecePosition) -> (r: Vec<PiecePosition>)
    requires
        board.wf(),
        player_position.wf(),
    ensures
        forall|i: int|
            0 <= i < r@.len() ==> (#[trigger] r@[i]).wf() && edge(
                *board,
                player,
                player_position.index as int,
                r@[i].index as int,
            ),
        forall|v: int|
            edge(*board, player, player_position.index as int, v) ==> exists|i: int|
                0 <= i < r@.len() && (#[trigger] r@[i]).index == v,
        r@ == neighbor_prefix(*board, player, player_position.index as int, 16),
{
    let ghost u = player_position.index as int;
    let moves = MovePiece::iter();
    let opponent_position = board.player_position(player.opponent());
    let ghost opp = opponent_position.index as int;
    let mut r: Vec<PiecePosition> = Vec::new();
    let mut k: usize = 0;
    while k < moves.len()
        invariant
            board.wf(),
            player_position.wf(),
            u == player_position.index,
            *opponent_position == board.pos(player.spec_opponent()),
            opp == opponent_position.index,
            moves@ == MovePiece::all(),
            k <= moves@.len(),
            r@ == neighbor_prefix(*board, player, u, k as int),
            forall|i: int| 0 <= i < r@.len() ==> (#[trigger] r@[i]).wf() && edge(*board, player, u, r@[i].index as int),
            forall|j: int|
                0 <= j < k && piece_move_legal(*board, player, u, #[trigger] MovePiece::all()[j]) ==> exists|i: int|
                    0 <= i < r@.len() && (#[trigger] r@[i]).index == piece_target(u, MovePiece::all()[j], opp),
        decreases moves@.len() - k,
    {
        let m = moves[k];
        assert(m == MovePiece::all()[k as int]);
        if is_move_piece_legal_with_player_at_position(board, player, player_position, &m) {
            proof {
                lemma_legal_piece_move_lands(*board, player, u, m);
            }
            let t = new_position_after_move_piece_unchecked(player_position, &m, opponent_position);
            let ghost r0 = r@;
            r.push(t);
            proof {
                assert(piece_move_legal(*board, player, u, m));
                assert(r@[r@.len() - 1] == t);
                assert(forall|i: int| 0 <= i < r0.len() ==> r@[i] == r0[i]);
            }
        }
        k += 1;
    }
    proof {
        assert forall|v: int| edge(*board, player, u, v) implies exists|i: int|
            0 <= i < r@.len() && (#[trigger] r@[i]).index == v by {
            let m = choose|m: MovePiece| #[trigger] piece_move_legal(*board, player, u, m) && piece_target(u, m, opp) == v;
            lemma_move_listed(m);
            let j = choose|j: int| 0 <= j < 16 && MovePiece::all()[j] == m;
            assert(piece_move_legal(*board, player, u, MovePiece::all()[j]));
        }
    }
    r
}

/// The distance of a cell that the search has not reached.
pub const UNSEEN: usize = usize::MAX;

/// The links that the search keeps: each cell reached, but the start, names a cell with a
/// smaller distance from which one move leads to it.
spec fn chain_ok(board: Board, player: Player, s: int, came: Seq<Option<usize>>, g: Seq<usize>) -> bool {
    &&& came.len() == 81
    &&& g.len() == 81
    &&& 0 <= s < 81
    &&& g[s] == 0
    &&& came[s] is None
    &&& forall|v: int|
        0 <= v < 81 && g[v] != UNSEEN && v != s ==> match #[trigger] came[v] {
            Some(u) => u < 81 && g[u as int] != UNSEEN && g[u as int] < g[v] && edge(board, player, u as int, v),
            None => false,
        }
}

spec fn back_step(board: Board, player: Player, back: Seq<PiecePosition>, last: int, i: int) -> bool {
    edge(
        board,
        player,
        if i + 1 < back.len() {
            back[i + 1].index as int
        } else {
            last
        },
        back[i].index as int,
    )
}

proof fn lemma_reversed_walk(board: Board, player: Player, s: int, back: Seq<PiecePosition>, path: Seq<PiecePosition>)
    requires
        forall|i: int| 0 <= i < back.len() ==> #[trigger] back_step(board, player, back, s, i),
        path == Seq::new(back.len(), |t: int| back[back.len() - 1 - t]),
    ensures
        is_walk(board, player, s, path),
        back.len() > 0 ==> walk_end(s, path) == back[0].index,
{
    let n = back.len() as int;
    assert forall|i: int| 0 <= i < path.len() implies #[trigger] walk_step(board, player, s, path, i) by {
        assert(back_step(board, player, back, s, n - 1 - i));
        if i > 0 {
            assert(path[i - 1] == back[n - i]);
        }
    }
}

/// The cells met when following the links back from `v`, `v` first and the start left out, for
/// at most `fuel` links.
pub open spec fn back_chain(came: Seq<Option<usize>>, v: int, fuel: nat) -> Seq<PiecePosition>
    decreases fuel,
{
    if fuel == 0 {
        seq![]
    } else {
        match came[v] {
            None => seq![],
            Some(u) => seq![PiecePosition { index: v as usize }] + back_chain(came, u as int, (fuel - 1) as nat),
        }
    }
}

pub open spec fn reversed(s: Seq<PiecePosition>) -> Seq<PiecePosition> {
    Seq::new(s.len(), |t: int| s[s.len() - 1 - t])
}

fn reconstruct_path(
    came_from: &Vec<Option<usize>>,
    current: &PiecePosition,
    Ghost(board): Ghost<Board>,
    Ghost(player): Ghost<Player>,
    Ghost(s): Ghost<int>,
    Ghost(g): Ghost<Seq<usize>>,
) -> (r: Vec<PiecePosition>)
    requires
        chain_ok(board, player, s, came_from@, g),
        current.wf(),
        g[current.index as int] <= 80,
    ensures
        r@.len() <= g[current.index as int],
        r@ == reversed(back_chain(came_from@, current.index as int, 81)),
        is_walk(board, player, s, r@),
        walk_end(s, r@) == current.index,
        forall|i: int| 0 <= i < r@.len() ==> (#[trigger] r@[i]).wf(),
{
    let mut back: Vec<PiecePosition> = Vec::new();
    let mut cur: usize = current.index;
    while came_from[cur].is_some()
        invariant
            chain_ok(board, player, s, came_from@, g),
            cur < 81,
            g[cur as int] != UNSEEN,
            back@.len() + g[cur as int] <= g[current.index as int],
            g[current.index as int] <= 80,
            back@ + back_chain(came_from@, cur as int, (81 - back@.len()) as nat) == back_chain(
                came_from@,
                current.index as int,
                81,
            ),
            back@.len() > 0 ==> back@[0].index == current.index,
            back@.len() == 0 ==> cur == current.index,
            forall|i: int| 0 <= i < back@.len() ==> (#[trigger] back@[i]).wf(),
            forall|i: int| 0 <= i < back@.len() ==> #[trigger] back_step(board, player, back@, cur as int, i),
        decreases g[cur as int],
    {
        {
            let prev = came_from[cur].unwrap();
            {
                proof {
                    assert(cur != s);
                }
                let ghost b0 = back@;
                proof {
                    let f = (81 - b0.len()) as nat;
                    assert(back_chain(came_from@, cur as int, f) == seq![PiecePosition { index: cur }] + back_chain(
                        came_from@,
                        prev as int,
                        (f - 1) as nat,
                    ));
                }
                back.push(PiecePosition { index: cur });
                proof {
                    assert(back@ + back_chain(came_from@, prev as int, (81 - back@.len()) as nat) =~= b0 + back_chain(
                        came_from@,
                        cur as int,
                        (81 - b0.len()) as nat,
                    ));
                }
                proof {
                    assert forall|i: int| 0 <= i < back@.len() implies #[trigger] back_step(board, player, back@, prev as int, i) by {
                        if i + 1 < back@.len() {
                            assert(back_step(board, player, b0, cur as int, i));
                        }
                    }
                }
                cur = prev;
            }
        }
    }
    assert(cur == s);
    assert(back@ =~= back_chain(came_from@, current.index as int, 81)) by {
        assert(back@ + back_chain(came_from@, cur as int, (81 - back@.len()) as nat) =~= back@);
    }
    let n = back.len();
    let mut path: Vec<PiecePosition> = Vec::new();
    let mut j: usize = n;
    while j > 0
        invariant
            n == back@.len(),
            j <= n,
            path@ == Seq::new((n - j) as nat, |t: int| back@[n - 1 - t]),
        decreases j,
    {
        j -= 1;
        path.push(back[j]);
        assert(path@ =~= Seq::new((n - j) as nat, |t: int| back@[n - 1 - t]));
    }
    proof {
        lemma_reversed_walk(board, player, s, back@, path@);
    }
    path
}

spec fn capped(x: usize) -> int {
    if x >= 81 {
        81
    } else {
        x as int
    }
}

/// The distances found so far, each unseen cell counted as 81.
spec fn distance_sum(g: Seq<usize>, n: int) -> int
    decreases n,
{
    if n <= 0 {
        0
    } else {
        distance_sum(g, n - 1) + capped(g[n - 1])
    }
}

proof fn lemma_distance_sum_nonneg(g: Seq<usize>, n: int)
    ensures
        distance_sum(g, n) >= 0,
    decreases n,
{
    if n > 0 {
        lemma_distance_sum_nonneg(g, n - 1);
    }
}

proof fn lemma_distance_sum_update(g: Seq<usize>, n: int, k: int, x: usize)
    requires
        0 <= k < n <= g.len(),
    ensures
        distance_sum(g.update(k, x), n) == distance_sum(g, n) - capped(g[k]) + capped(x),
    decreases n,
{
    if k < n - 1 {
        lemma_distance_sum_update(g, n - 1, k, x);
    } else {
        assert(g.update(k, x)[n - 1] == x);
        lemma_distance_sum_same(g, g.update(k, x), n - 1);
    }
}

proof fn lemma_distance_sum_same(g1: Seq<usize>, g2: Seq<usize>, n: int)
    requires
        n <= g1.len(),
        n <= g2.len(),
        forall|i: int| 0 <= i < n ==> g1[i] == g2[i],
    ensures
        distance_sum(g1, n) == distance_sum(g2, n),
    decreases n,
{
    if n > 0 {
        lemma_distance_sum_same(g1, g2, n - 1);
    }
}

pub open spec fn holds_cell(q: Seq<(usize, PiecePosition)>, v: int) -> bool {
    exists|i: int| 0 <= i < q.len() && (#[trigger] q[i]).1.index == v
}

/// Every walk from `s` stays in a set of cells that holds `s` and that no move leaves.
proof fn lemma_walk_stays(board: Board, player: Player, s: int, closed: Set<int>, p: Seq<PiecePosition>, n: int)
    requires
        closed.contains(s),
        forall|v: int, w: int| closed.contains(v) && #[trigger] edge(board, player, v, w) ==> closed.contains(w),
        is_walk(board, player, s, p),
        0 <= n <= p.len(),
    ensures
        forall|i: int| 0 <= i < n ==> closed.contains(#[trigger] p[i].index as int),
    decreases n,
{
    if n > 0 {
        lemma_walk_stays(board, player, s, closed, p, n - 1);
        assert(walk_step(board, player, s, p, n - 1));
    }
}

/// Whether no move takes `player` more than one row closer to its goal row: then the number
/// of rows left never overestimates the moves left. A straight jump over the opponent towards
/// the goal row is the one move that can break this.
pub open spec fn heuristic_consistent(board: Board, player: Player) -> bool {
    forall|u: int, v: int|
        #[trigger] edge(board, player, u, v) ==> rows_to_goal(u, player) <= rows_to_goal(v, player) + 1
}

/// Whether the queue holds an entry for cell `v` whose key is its distance found so far plus
/// the rows it has left.
spec fn current_entry(q: Seq<(usize, PiecePosition)>, g: Seq<usize>, player: Player, v: int) -> bool {
    exists|i: int|
        0 <= i < q.len() && (#[trigger] q[i]).1.index == v && q[i].0 == g[v] + rows_to_goal(v, player)
}

/// Whether every cell one move away from `v` has been reached with at most one move more.
spec fn settled(board: Board, player: Player, g: Seq<usize>, v: int) -> bool {
    forall|w: int| #[trigger] edge(board, player, v, w) ==> g[w] <= g[v] + 1
}

proof fn lemma_rows_left_on_walk(board: Board, player: Player, s: int, q: Seq<PiecePosition>, j: int)
    requires
        heuristic_consistent(board, player),
        is_walk(board, player, s, q),
        rows_to_goal(walk_end(s, q), player) == 0,
        0 <= j <= q.len(),
    ensures
        rows_to_goal(walk_prev(s, q, j), player) <= q.len() - j,
    decreases q.len() - j,
{
    if j < q.len() {
        lemma_rows_left_on_walk(board, player, s, q, j + 1);
        assert(walk_step(board, player, s, q, j));
    }
}

/// Along a walk to the goal row, the first cell that is not settled has an entry in the queue
/// whose key is at most the length of the walk.
proof fn lemma_entry_within_walk(
    board: Board,
    player: Player,
    s: int,
    q: Seq<PiecePosition>,
    g: Seq<usize>,
    queue: Seq<(usize, PiecePosition)>,
    closed: Set<int>,
    j: int,
)
    requires
        heuristic_consistent(board, player),
        is_walk(board, player, s, q),
        rows_to_goal(walk_end(s, q), player) == 0,
        g.len() == 81,
        forall|v: int| 0 <= v < 81 && #[trigger] g[v] != UNSEEN ==> g[v] <= 80,
        forall|v: int|
            0 <= v < 81 && #[trigger] g[v] != UNSEEN ==> current_entry(queue, g, player, v) || (closed.contains(v)
                && settled(board, player, g, v)),
        forall|v: int| #[trigger] closed.contains(v) ==> rows_to_goal(v, player) != 0,
        0 <= j <= q.len(),
        0 <= walk_prev(s, q, j) < 81,
        g[walk_prev(s, q, j)] != UNSEEN,
        g[walk_prev(s, q, j)] <= j,
    ensures
        exists|i: int| 0 <= i < queue.len() && #[trigger] queue[i].0 <= q.len(),
    decreases q.len() - j,
{
    let u = walk_prev(s, q, j);
    lemma_rows_left_on_walk(board, player, s, q, j);
    if current_entry(queue, g, player, u) {
        let i = choose|i: int|
            0 <= i < queue.len() && (#[trigger] queue[i]).1.index == u && queue[i].0 == g[u] + rows_to_goal(u, player);
        assert(queue[i].0 <= q.len());
    } else {
        assert(closed.contains(u) && settled(board, player, g, u));
        if j == q.len() {
            assert(walk_end(s, q) == u);
        } else {
            assert(walk_step(board, player, s, q, j));
            let w = q[j].index as int;
            assert(edge(board, player, u, w));
            assert(walk_prev(s, q, j + 1) == w);
            lemma_entry_within_walk(board, player, s, q, g, queue, closed, j + 1);
        }
    }
}

/// What the route search holds between rounds: the queue, the distance found to each cell
/// (`UNSEEN` for none) and the cell each reached cell was reached from.
pub struct SearchState {
    pub queue: Seq<(usize, PiecePosition)>,
    pub dist: Seq<usize>,
    pub came: Seq<Option<usize>>,
}

pub open spec fn first_min(q: Seq<(usize, PiecePosition)>) -> int {
    choose|i: int| is_first_min(q, i)
}

proof fn lemma_first_min_unique(q: Seq<(usize, PiecePosition)>, i: int)
    requires
        is_first_min(q, i),
    ensures
        first_min(q) == i,
{
    let j = first_min(q);
    assert(is_first_min(q, j));
    if j < i {
        assert(q[i].0 < q[j].0);
    } else if i < j {
        assert(q[j].0 < q[i].0);
    }
}

/// The state after the first `k` cells of `nbrs` are offered a route through cell `c`, which was
/// reached in `gc` moves: a cell reached in fewer moves that way gets the new distance, the link
/// and a new queue entry.
pub open spec fn relax_prefix(
    player: Player,
    st: SearchState,
    c: int,
    gc: int,
    nbrs: Seq<PiecePosition>,
    k: int,
) -> SearchState
    decreases k,
{
    if k <= 0 {
        st
    } else {
        let prev = relax_prefix(player, st, c, gc, nbrs, k - 1);
        let n = nbrs[k - 1].index as int;
        if gc + 1 < prev.dist[n] {
            SearchState {
                queue: prev.queue.push(((gc + 1 + rows_to_goal(n, player)) as usize, nbrs[k - 1])),
                dist: prev.dist.update(n, (gc + 1) as usize),
                came: prev.came.update(n, Some(c as usize)),
            }
        } else {
            prev
        }
    }
}

/// The rounds of the search from `st`, at most `fuel` of them: each takes the first entry with
/// the smallest key; the search ends with that cell and the links when the cell is on the goal
/// row, and with `None` when the queue runs empty.
pub open spec fn search_run(board: Board, player: Player, st: SearchState, fuel: nat) -> Option<
    (int, Seq<Option<usize>>),
>
    decreases fuel,
{
    if fuel == 0 || st.queue.len() == 0 {
        None
    } else {
        let i = first_min(st.queue);
        let c = st.queue[i].1.index as int;
        if rows_to_goal(c, player) == 0 {
            Some((c, st.came))
        } else {
            let popped = SearchState { queue: st.queue.remove(i), dist: st.dist, came: st.came };
            let nbrs = neighbor_prefix(board, player, c, 16);
            search_run(
                board,
                player,
                relax_prefix(player, popped, c, st.dist[c] as int, nbrs, nbrs.len() as int),
                (fuel - 1) as nat,
            )
        }
    }
}

/// More rounds than any search takes.
pub open spec fn search_fuel() -> nat {
    200000
}

pub open spec fn initial_state(board: Board, player: Player) -> SearchState {
    let s = board.pos(player).index as int;
    SearchState {
        queue: seq![(rows_to_goal(s, player) as usize, board.pos(player))],
        dist: Seq::new(81, |v: int| if v == s { 0usize } else { UNSEEN }),
        came: Seq::new(81, |v: int| None),
    }
}

/// The path that the route search returns.
pub open spec fn astar_path(board: Board, player: Player) -> Option<Seq<PiecePosition>> {
    if rows_to_goal(board.pos(player).index as int, player) == 0 {
        Some(seq![])
    } else {
        match search_run(board, player, initial_state(board, player), search_fuel()) {
            None => None,
            Some((c, came)) => Some(reversed(back_chain(came, c, 81))),
        }
    }
}

proof fn lemma_back_chain_len(came: Seq<Option<usize>>, v: int, fuel: nat)
    ensures
        back_chain(came, v, fuel).len() <= fuel,
    decreases fuel,
{
    if fuel > 0 {
        if let Some(u) = came[v] {
            lemma_back_chain_len(came, u as int, (fuel - 1) as nat);
        }
    }
}

/// The path that the route search returns has at most 81 cells.
pub proof fn lemma_astar_path_len(board: Board, player: Player)
    ensures
        astar_path(board, player) matches Some(p) ==> p.len() <= 81,
{
    if let Some((c, came)) = search_run(board, player, initial_state(board, player), search_fuel()) {
        lemma_back_chain_len(came, c, 81);
    }
}

proof fn lemma_distance_sum_bound(g: Seq<usize>, n: int)
    requires
        n >= 0,
    ensures
        distance_sum(g, n) <= 81 * n,
    decreases n,
{
    if n > 0 {
        lemma_distance_sum_bound(g, n - 1);
    }
}

/// A* search for a walk of `player` to its goal row, with the rows left as the estimate: the
/// cells of the walk, the start excluded, or `None` when no walk reaches the goal row. The walk
/// is a shortest one when no move takes the player two rows closer at once.
pub fn a_star(board: &Board, player: Player) -> (r: Option<Vec<PiecePosition>>)
    requires
        board.wf(),
    ensures
        r matches Some(p) ==> reaches_goal(*board, player, p@),
        r matches Some(p) ==> forall|i: int| 0 <= i < p@.len() ==> (#[trigger] p@[i]).wf(),
        r matches Some(p) ==> p@.len() <= 80,
        r is None <==> !goal_reachable(*board, player),
        rows_to_goal(board.pos(player).index as int, player) == 0 ==> (r matches Some(p) && p@.len() == 0),
        heuristic_consistent(*board, player) ==> (r matches Some(p) ==> forall|q: Seq<PiecePosition>|
            reaches_goal(*board, player, q) ==> p@.len() <= q.len()),
        match r {
            Some(p) => astar_path(*board, player) == Some(p@),
            None => astar_path(*board, player) is None,
        },
{
    let start = *board.player_position(player);
    let ghost s = start.index as int;
    let h = heuristic(&start, player);
    if h == 0 {
        let p: Vec<PiecePosition> = Vec::new();
        assert(reaches_goal(*board, player, p@));
        return Some(p);
    }
    let mut open_set = PriorityQueue::new();
    let mut came_from: Vec<Option<usize>> = Vec::new();
    let mut g_score: Vec<usize> = Vec::new();
    let mut i: usize = 0;
    while i < CELL_COUNT
        invariant
            i <= 81,
            came_from@.len() == i,
            g_score@.len() == i,
            forall|v: int| 0 <= v < i ==> (#[trigger] came_from@[v]) is None,
            forall|v: int| 0 <= v < i ==> #[trigger] g_score@[v] == UNSEEN,
        decreases 81 - i,
    {
        let ghost c0 = came_from@;
        let ghost g0 = g_score@;
        came_from.push(None);
        g_score.push(UNSEEN);
        assert(came_from@ == c0.push(None) && g_score@ == g0.push(UNSEEN));
        assert forall|v: int| 0 <= v < i + 1 implies #[trigger] g_score@[v] == UNSEEN by {
            if v < i {
                assert(g_score@[v] == g0[v]);
            }
        }
        assert forall|v: int| 0 <= v < i + 1 implies (#[trigger] came_from@[v]) is None by {
            if v < i {
                assert(came_from@[v] == c0[v]);
            }
        }
        i += 1;
    }
    g_score[start.index] = 0;
    open_set.insert(h, start);
    let ghost mut closed: Set<int> = Set::empty();
    let ghost mut seen: Set<int> = set![s];
    let ghost mut rounds: nat = 0;
    proof {
        let init = initial_state(*board, player);
        assert(g_score@ =~= init.dist);
        assert(came_from@ =~= init.came);
        assert(open_set@ =~= init.queue);
        lemma_distance_sum_bound(g_score@, 81);
        assert(seen.len() == 1) by {
            assert(seen =~= Set::<int>::empty().insert(s));
        }
        assert(open_set@[0].1 == start);
    }
    loop
        invariant
            board.wf(),
            start == board.pos(player),
            s == start.index,
            rows_to_goal(s, player) != 0,
            chain_ok(*board, player, s, came_from@, g_score@),
            seen.finite(),
            forall|v: int| #[trigger] seen.contains(v) ==> 0 <= v < 81,
            forall|v: int| 0 <= v < 81 ==> (#[trigger] seen.contains(v) <==> g_score@[v] != UNSEEN),
            forall|v: int| 0 <= v < 81 && #[trigger] g_score@[v] != UNSEEN ==> g_score@[v] < seen.len(),
            forall|i: int|
                0 <= i < open_set@.len() ==> (#[trigger] open_set@[i]).1.wf() && g_score@[open_set@[i].1.index as int]
                    != UNSEEN,
            forall|v: int|
                0 <= v < 81 && #[trigger] g_score@[v] != UNSEEN ==> holds_cell(open_set@, v) || closed.contains(v),
            forall|v: int|
                #[trigger] closed.contains(v) ==> 0 <= v < 81 && g_score@[v] != UNSEEN && rows_to_goal(v, player) != 0,
            forall|v: int, w: int|
                closed.contains(v) && #[trigger] edge(*board, player, v, w) ==> g_score@[w] != UNSEEN,
            forall|i: int|
                0 <= i < open_set@.len() ==> (#[trigger] open_set@[i]).0 >= g_score@[open_set@[i].1.index as int]
                    + rows_to_goal(open_set@[i].1.index as int, player),
            forall|v: int|
                0 <= v < 81 && #[trigger] g_score@[v] != UNSEEN ==> current_entry(open_set@, g_score@, player, v) || (
                closed.contains(v) && settled(*board, player, g_score@, v)),
            rounds + 17 * distance_sum(g_score@, 81) + open_set@.len() <= 17 * 81 * 81 + 1,
            search_run(*board, player, initial_state(*board, player), search_fuel()) == search_run(
                *board,
                player,
                (SearchState { queue: open_set@, dist: g_score@, came: came_from@ }),
                (search_fuel() - rounds) as nat,
            ),
        decreases 17 * distance_sum(g_score@, 81) + open_set@.len(),
    {
        proof {
            lemma_distance_sum_nonneg(g_score@, 81);
        }
        let ghost measure = 17 * distance_sum(g_score@, 81) + open_set@.len();
        let ghost q0 = open_set@;
        let ghost st0 = SearchState { queue: open_set@, dist: g_score@, came: came_from@ };
        let ghost fuel = (search_fuel() - rounds) as nat;
        assert(fuel > 0);
        match open_set.pop() {
            None => {
                proof {
                    assert forall|v: int, w: int| closed.contains(v) && #[trigger] edge(*board, player, v, w) implies closed.contains(w) by {
                        assert(g_score@[w] != UNSEEN);
                    }
                    assert(g_score@[s] != UNSEEN);
                    assert forall|p: Seq<PiecePosition>| !reaches_goal(*board, player, p) by {
                        if reaches_goal(*board, player, p) {
                            lemma_walk_stays(*board, player, s, closed, p, p.len() as int);
                            if p.len() > 0 {
                                assert(closed.contains(p[p.len() - 1].index as int));
                            }
                        }
                    }
                }
                return None;
            },
            Some((_, current)) => {
                let ghost qi = choose|i: int|
                    is_first_min(q0, i) && (q0[i].0, current) == q0[i] && open_set@ == q0.remove(i);
                assert(q0[qi].1 == current);
                let ghost c = current.index as int;
                proof {
                    lemma_first_min_unique(q0, qi);
                }
                if heuristic(&current, player) == 0 {
                    proof {
                        assert(seen.subset_of(set_int_range(0, 81)));
                        lemma_int_range(0, 81);
                        lemma_len_subset(seen, set_int_range(0, 81));
                    }
                    let p = reconstruct_path(&came_from, &current, Ghost(*board), Ghost(player), Ghost(s), Ghost(g_score@));
                    assert(reaches_goal(*board, player, p@));
                    proof {
                        if heuristic_consistent(*board, player) {
                            assert forall|q: Seq<PiecePosition>| reaches_goal(*board, player, q) implies p@.len() <= q.len() by {
                                lemma_entry_within_walk(*board, player, s, q, g_score@, q0, closed, 0);
                                let i = choose|i: int| 0 <= i < q0.len() && #[trigger] q0[i].0 <= q.len();
                                assert(q0[qi].0 <= q0[i].0);
                                assert(q0[qi].0 >= g_score@[c] + rows_to_goal(c, player));
                            }
                        }
                    }
                    return Some(p);
                }
                let nbrs = neighbors(board, player, &current);
                let g_cur = g_score[current.index];
                let ghost popped = SearchState { queue: open_set@, dist: g_score@, came: came_from@ };
                proof {
                    assert(popped.queue == q0.remove(first_min(q0)));
                    assert(search_run(*board, player, st0, fuel) == search_run(
                        *board,
                        player,
                        relax_prefix(player, popped, c, g_cur as int, nbrs@, nbrs@.len() as int),
                        (fuel - 1) as nat,
                    ));
                    assert(relax_prefix(player, popped, c, g_cur as int, nbrs@, 0) == popped);
                }
                let mut k: usize = 0;
                proof {
                    assert forall|v: int|
                        0 <= v < 81 && #[trigger] g_score@[v] != UNSEEN && v != c implies holds_cell(open_set@, v) || closed.contains(v) by {
                        if holds_cell(q0, v) {
                            let j = choose|j: int| 0 <= j < q0.len() && (#[trigger] q0[j]).1.index == v;
                            if j < qi {
                                assert(open_set@[j] == q0[j]);
                            } else {
                                assert(open_set@[j - 1] == q0[j]);
                            }
                        }
                    }
                    assert forall|i: int| 0 <= i < open_set@.len() implies (#[trigger] open_set@[i]).1.wf() && g_score@[open_set@[i].1.index as int] != UNSEEN by {
                        if i < qi {
                            assert(open_set@[i] == q0[i]);
                        } else {
                            assert(open_set@[i] == q0[i + 1]);
                        }
                    }
                    assert forall|i: int| 0 <= i < open_set@.len() implies (#[trigger] open_set@[i]).0 >= g_score@[open_set@[i].1.index as int]
                        + rows_to_goal(open_set@[i].1.index as int, player) by {
                        if i < qi {
                            assert(open_set@[i] == q0[i]);
                        } else {
                            assert(open_set@[i] == q0[i + 1]);
                        }
                    }
                    assert forall|v: int|
                        0 <= v < 81 && #[trigger] g_score@[v] != UNSEEN && v != c implies current_entry(open_set@, g_score@, player, v) || (
                        closed.contains(v) && settled(*board, player, g_score@, v)) by {
                        if current_entry(q0, g_score@, player, v) {
                            let j = choose|j: int| 0 <= j < q0.len() && (#[trigger] q0[j]).1.index == v && q0[j].0 == g_score@[v] + rows_to_goal(v, player);
                            if j < qi {
                                assert(open_set@[j] == q0[j]);
                            } else {
                                assert(open_set@[j - 1] == q0[j]);
                            }
                        }
                    }
                    assert(seen.subset_of(set_int_range(0, 81)));
                    lemma_int_range(0, 81);
                    lemma_len_subset(seen, set_int_range(0, 81));
                }
                while k < nbrs.len()
                    invariant
                        board.wf(),
                        start == board.pos(player),
                        s == start.index,
                        current.wf(),
                        c == current.index,
                        c != s || g_cur == 0,
                        rows_to_goal(c, player) != 0,
                        g_score@[c] == g_cur,
                        g_cur != UNSEEN,
                        k <= nbrs@.len(),
                        forall|i: int|
                            0 <= i < nbrs@.len() ==> (#[trigger] nbrs@[i]).wf() && edge(*board, player, c, nbrs@[i].index as int),
                        forall|t: int| 0 <= t < k ==> g_score@[(#[trigger] nbrs@[t]).index as int] != UNSEEN,
                        chain_ok(*board, player, s, came_from@, g_score@),
                        seen.finite(),
                        forall|v: int| #[trigger] seen.contains(v) ==> 0 <= v < 81,
                        forall|v: int| 0 <= v < 81 ==> (#[trigger] seen.contains(v) <==> g_score@[v] != UNSEEN),
                        forall|v: int| 0 <= v < 81 && #[trigger] g_score@[v] != UNSEEN ==> g_score@[v] < seen.len(),
                        forall|i: int|
                            0 <= i < open_set@.len() ==> (#[trigger] open_set@[i]).1.wf() && g_score@[open_set@[i].1.index as int]
                                != UNSEEN,
                        forall|v: int|
                            0 <= v < 81 && #[trigger] g_score@[v] != UNSEEN && v != c ==> holds_cell(open_set@, v) || closed.contains(v),
                        forall|v: int|
                            #[trigger] closed.contains(v) ==> 0 <= v < 81 && g_score@[v] != UNSEEN && rows_to_goal(v, player) != 0,
                        forall|v: int, w: int|
                            closed.contains(v) && #[trigger] edge(*board, player, v, w) ==> g_score@[w] != UNSEEN,
                        17 * distance_sum(g_score@, 81) + open_set@.len() < measure,
                        forall|t: int| 0 <= t < k ==> g_score@[(#[trigger] nbrs@[t]).index as int] <= g_cur + 1,
                        g_cur < 81,
                        (SearchState { queue: open_set@, dist: g_score@, came: came_from@ }) == relax_prefix(
                            player,
                            popped,
                            c,
                            g_cur as int,
                            nbrs@,
                            k as int,
                        ),
                        fuel > 0,
                        rounds + 1 + 17 * distance_sum(g_score@, 81) + open_set@.len() <= 17 * 81 * 81 + 1,
                        search_run(*board, player, initial_state(*board, player), search_fuel()) == search_run(
                            *board,
                            player,
                            relax_prefix(player, popped, c, g_cur as int, nbrs@, nbrs@.len() as int),
                            (fuel - 1) as nat,
                        ),
                        fuel == search_fuel() - rounds,
                        forall|i: int|
                            0 <= i < open_set@.len() ==> (#[trigger] open_set@[i]).0 >= g_score@[open_set@[i].1.index as int]
                                + rows_to_goal(open_set@[i].1.index as int, player),
                        forall|v: int|
                            0 <= v < 81 && #[trigger] g_score@[v] != UNSEEN && v != c ==> current_entry(open_set@, g_score@, player, v) || (
                            closed.contains(v) && settled(*board, player, g_score@, v)),
                    decreases nbrs@.len() - k,
                {
                    let nb = nbrs[k];
                    let ghost n = nb.index as int;
                    proof {
                        assert(seen.subset_of(set_int_range(0, 81)));
                        lemma_int_range(0, 81);
                        lemma_len_subset(seen, set_int_range(0, 81));
                        if g_score@[n] == UNSEEN {
                            assert(seen.subset_of(set_int_range(0, 81).remove(n)));
                            lemma_len_subset(seen, set_int_range(0, 81).remove(n));
                        }
                    }
                    let tentative = g_cur + 1;
                    let ghost before = SearchState { queue: open_set@, dist: g_score@, came: came_from@ };
                    if tentative < g_score[nb.index] {
                        let ghost g0 = g_score@;
                        let ghost q1 = open_set@;
                        came_from[nb.index] = Some(current.index);
                        g_score[nb.index] = tentative;
                        open_set.insert(tentative + heuristic(&nb, player), nb);
                        proof {
                            lemma_distance_sum_update(g0, 81, n, tentative);
                            if g0[n] == UNSEEN {
                                assert(seen.insert(n).len() == seen.len() + 1);
                                seen = seen.insert(n);
                            }
                            assert(open_set@[open_set@.len() - 1].1 == nb);
                            assert forall|v: int|
                                0 <= v < 81 && #[trigger] g_score@[v] != UNSEEN && v != c implies holds_cell(open_set@, v) || closed.contains(v) by {
                                if v != n && holds_cell(q1, v) {
                                    let j = choose|j: int| 0 <= j < q1.len() && (#[trigger] q1[j]).1.index == v;
                                    assert(open_set@[j] == q1[j]);
                                }
                            }
                            assert forall|i: int| 0 <= i < open_set@.len() implies (#[trigger] open_set@[i]).1.wf() && g_score@[open_set@[i].1.index as int] != UNSEEN by {
                                if i < q1.len() {
                                    assert(open_set@[i] == q1[i]);
                                }
                            }
                            assert forall|i: int| 0 <= i < open_set@.len() implies (#[trigger] open_set@[i]).0 >= g_score@[open_set@[i].1.index as int]
                                + rows_to_goal(open_set@[i].1.index as int, player) by {
                                if i < q1.len() {
                                    assert(open_set@[i] == q1[i]);
                                }
                            }
                            assert forall|v: int|
                                0 <= v < 81 && #[trigger] g_score@[v] != UNSEEN && v != c implies current_entry(open_set@, g_score@, player, v) || (
                                closed.contains(v) && settled(*board, player, g_score@, v)) by {
                                if v == n {
                                    assert(open_set@[open_set@.len() - 1].1.index == v);
                                } else {
                                    assert(g0[v] != UNSEEN);
                                    if current_entry(q1, g0, player, v) {
                                        let j = choose|j: int| 0 <= j < q1.len() && (#[trigger] q1[j]).1.index == v && q1[j].0 == g0[v] + rows_to_goal(v, player);
                                        assert(open_set@[j] == q1[j]);
                                    } else {
                                        assert forall|w: int| #[trigger] edge(*board, player, v, w) implies g_score@[w] <= g_score@[v] + 1 by {
                                            assert(settled(*board, player, g0, v));
                                        }
                                    }
                                }
                            }
                            assert forall|v: int| 0 <= v < 81 && g_score@[v] != UNSEEN && v != s implies match #[trigger] came_from@[v] {
                                Some(u) => u < 81 && g_score@[u as int] != UNSEEN && g_score@[u as int] < g_score@[v] && edge(*board, player, u as int, v),
                                None => false,
                            } by {
                                if v != n {
                                    assert(g0[v] != UNSEEN);
                                }
                            }
                        }
                    }
                    proof {
                        let after = relax_prefix(player, popped, c, g_cur as int, nbrs@, k + 1);
                        assert(nbrs@[k as int] == nb);
                        assert(open_set@ =~= after.queue);
                        assert(g_score@ =~= after.dist);
                        assert(came_from@ =~= after.came);
                    }
                    k += 1;
                }
                proof {
                    assert forall|v: int, w: int|
                        closed.insert(c).contains(v) && #[trigger] edge(*board, player, v, w) implies g_score@[w] != UNSEEN by {
                        if v == c {
                            let i = choose|i: int| 0 <= i < nbrs@.len() && (#[trigger] nbrs@[i]).index == w;
                        }
                    }
                    assert forall|w: int| #[trigger] edge(*board, player, c, w) implies g_score@[w] <= g_score@[c] + 1 by {
                        let i = choose|i: int| 0 <= i < nbrs@.len() && (#[trigger] nbrs@[i]).index == w;
                    }
                    closed = closed.insert(c);
                    lemma_distance_sum_nonneg(g_score@, 81);
                    rounds = rounds + 1;
                }
            },
        }
    }
}

} // verus!
