use vstd::prelude::*;
use crate::bot::{best_move_alpha_beta, no_move_score, viable_move, LOSING_SCORE, WINNING_SCORE};
use crate::data_model::{
    cell_of, Direction, Game, MovePiece, Player, PlayerMove, WallOrientation, WallPosition,
};
use crate::game_logic::{execute_move_unchecked, game_after_move, move_legal};
use vstd::std_specs::iter::IteratorSpec;

verus! {

#[derive(Debug, Clone, Copy, PartialEq, Eq, Structural)]
pub enum AuxCommand {
    Reset { skip_initial_moves: bool },
    BotMove { depth: usize },
    PlayBotMove { depth: usize },
    Undo { moves: usize },
}

#[derive(Debug, Clone, Copy, PartialEq, Eq, Structural)]
pub enum Command {
    PlayMove(PlayerMove),
    AuxCommand(AuxCommand),
}

/// The games of a session, oldest first; the last one is the current position.
pub struct Session {
    pub game_states: Vec<Game>,
}

impl Session {
    pub open spec fn wf(&self) -> bool {
        &&& self.game_states@.len() > 0
        &&& forall|i: int| 0 <= i < self.game_states@.len() ==> (#[trigger] self.game_states@[i]).wf()
    }

    pub open spec fn current(&self) -> Game {
        self.game_states@.last()
    }
}

/// Whether `g` is the position a game starts from, or the one after the first three moves of
/// each player when `skip_initial_moves` holds.
pub open spec fn is_start_position(g: Game, skip_initial_moves: bool) -> bool {
    &&& g.wf()
    &&& g.player == Player::White
    &&& g.board.is_empty()
    &&& g.walls_left[0] == 10
    &&& g.walls_left[1] == 10
    &&& g.board.pos(Player::White).index == (if skip_initial_moves {
        cell_of(4, 3)
    } else {
        cell_of(4, 0)
    })
    &&& g.board.pos(Player::Black).index == (if skip_initial_moves {
        cell_of(4, 5)
    } else {
        cell_of(4, 8)
    })
}

/// What a search that a bot command ran returned: a score and a move that the search may
/// choose, or the no-move score when no such move exists.
pub open spec fn search_result_ok(game: Game, result: (isize, Option<PlayerMove>)) -> bool {
    &&& LOSING_SCORE <= result.0 <= WINNING_SCORE
    &&& result.1 matches Some(m) ==> viable_move(game, game.player, m) && move_legal(game, game.player, m)
    &&& result.1 is None <==> !exists|m: PlayerMove| #[trigger] viable_move(game, game.player, m)
    &&& result.1 is None ==> result.0 == no_move_score(game.player)
}

/// Carries out `command` on the session. A bot command returns what the search found; a move
/// that a bot plays is appended to the session, and when the search finds none the session
/// stays as it was.
pub fn execute_command(session: &mut Session, command: Command) -> (r: Option<(isize, Option<PlayerMove>)>)
    requires
        old(session).wf(),
        command matches Command::PlayMove(m) ==> move_legal(old(session).current(), old(session).current().player, m),
        command matches Command::AuxCommand(AuxCommand::BotMove { depth }) ==> depth > 0,
        command matches Command::AuxCommand(AuxCommand::PlayBotMove { depth }) ==> depth > 0,
    ensures
        final(session).wf(),
        match command {
            Command::PlayMove(m) => {
                &&& r is None
                &&& final(session).game_states@ == old(session).game_states@.push(
                    game_after_move(old(session).current(), old(session).current().player, m),
                )
            },
            Command::AuxCommand(AuxCommand::Reset { skip_initial_moves }) => {
                &&& r is None
                &&& final(session).game_states@.drop_last() == old(session).game_states@
                &&& final(session).game_states@.len() == old(session).game_states@.len() + 1
                &&& is_start_position(final(session).current(), skip_initial_moves)
            },
            Command::AuxCommand(AuxCommand::BotMove { depth }) => {
                &&& r matches Some(res) && search_result_ok(old(session).current(), res)
                &&& final(session).game_states@ == old(session).game_states@
            },
            Command::AuxCommand(AuxCommand::PlayBotMove { depth }) => {
                &&& r matches Some(res) && search_result_ok(old(session).current(), res)
                &&& match r {
                    Some((_, Some(m))) => final(session).game_states@ == old(session).game_states@.push(
                        game_after_move(old(session).current(), old(session).current().player, m),
                    ),
                    _ => final(session).game_states@ == old(session).game_states@,
                }
            },
            Command::AuxCommand(AuxCommand::Undo { moves }) => {
                &&& r is None
                &&& final(session).game_states@ == old(session).game_states@.take(
                    if old(session).game_states@.len() - moves >= 1 {
                        old(session).game_states@.len() - moves
                    } else {
                        1
                    },
                )
            },
        },
{
    let last = session.game_states.len() - 1;
    let current_game_state = session.game_states[last];
    let player = current_game_state.player;
    let ghost s0 = session.game_states@;
    match command {
        Command::PlayMove(player_move) => {
            let mut next_game_state = current_game_state;
            proof {
                crate::game_logic::lemma_legal_move_applicable(current_game_state, player, player_move);
            }
            execute_move_unchecked(&mut next_game_state, player, &player_move);
            session.game_states.push(next_game_state);
            proof {
                assert forall|i: int| 0 <= i < session.game_states@.len() implies (#[trigger] session.game_states@[i]).wf() by {
                    if i < s0.len() {
                        assert(session.game_states@[i] == s0[i]);
                    }
                }
            }
            None
        },
        Command::AuxCommand(aux_command) => match aux_command {
            AuxCommand::Reset { skip_initial_moves } => {
                let next_game_state = if skip_initial_moves {
                    Game::new_with_initial_moves_skipped()
                } else {
                    Game::new()
                };
                session.game_states.push(next_game_state);
                proof {
                    assert(session.game_states@.drop_last() =~= s0);
                    assert forall|i: int| 0 <= i < session.game_states@.len() implies (#[trigger] session.game_states@[i]).wf() by {
                        if i < s0.len() {
                            assert(session.game_states@[i] == s0[i]);
                        }
                    }
                }
                None
            },
            AuxCommand::BotMove { depth } => {
                let result = best_move_alpha_beta(&current_game_state, player, depth);
                Some(result)
            },
            AuxCommand::PlayBotMove { depth } => {
                let result = best_move_alpha_beta(&current_game_state, player, depth);
                if let Some(bot_move) = result.1 {
                    let mut next_game_state = current_game_state;
                    proof {
                        crate::game_logic::lemma_legal_move_applicable(current_game_state, player, bot_move);
                    }
                    execute_move_unchecked(&mut next_game_state, player, &bot_move);
                    session.game_states.push(next_game_state);
                    proof {
                        assert forall|i: int| 0 <= i < session.game_states@.len() implies (#[trigger] session.game_states@[i]).wf() by {
                            if i < s0.len() {
                                assert(session.game_states@[i] == s0[i]);
                            }
                        }
                    }
                }
                Some(result)
            },
            AuxCommand::Undo { moves } => {
                let ghost n: int = if s0.len() - moves >= 1 {
                    s0.len() - moves
                } else {
                    1
                };
                let mut k: usize = 0;
                while k < moves
                    invariant
                        session.wf(),
                        k <= moves,
                        s0.len() >= 1,
                        n == (if s0.len() - moves >= 1 {
                            s0.len() - moves
                        } else {
                            1
                        }),
                        session.game_states@ == s0.take(
                            if s0.len() - k >= 1 {
                                s0.len() - k
                            } else {
                                1
                            },
                        ),
                    ensures
                        session.wf(),
                        session.game_states@ == s0.take(n),
                    decreases moves - k,
                {
                    if session.game_states.len() == 1 {
                        assert(session.game_states@ =~= s0.take(n));
                        break;
                    }
                    assert(s0.len() - k > 1);
                    session.game_states.pop();
                    proof {
                        assert(session.game_states@ =~= s0.take(s0.len() - k - 1));
                    }
                    k += 1;
                }
                None
            },
        },
    }
}

/// The direction that a letter of the move notation names.
pub open spec fn direction_of(c: char) -> Option<Direction> {
    if c == 'u' {
        Some(Direction::Up)
    } else if c == 'd' {
        Some(Direction::Down)
    } else if c == 'l' {
        Some(Direction::Left)
    } else if c == 'r' {
        Some(Direction::Right)
    } else {
        None
    }
}

/// The value of a decimal digit.
pub open spec fn digit_of(c: char) -> Option<usize> {
    if c == '0' {
        Some(0)
    } else if c == '1' {
        Some(1)
    } else if c == '2' {
        Some(2)
    } else if c == '3' {
        Some(3)
    } else if c == '4' {
        Some(4)
    } else if c == '5' {
        Some(5)
    } else if c == '6' {
        Some(6)
    } else if c == '7' {
        Some(7)
    } else if c == '8' {
        Some(8)
    } else if c == '9' {
        Some(9)
    } else {
        None
    }
}

/// The move that a text of the move notation names: `m` and a direction, then optionally the
/// direction on collision (the same direction when left out); or `h` or `v` and the two digits
/// of a wall slot. Characters after those are ignored.
pub open spec fn parsed_move(s: Seq<char>) -> Option<PlayerMove> {
    if s.len() == 0 {
        None
    } else if s[0] == 'm' {
        if s.len() < 2 {
            None
        } else {
            match direction_of(s[1]) {
                None => None,
                Some(d) => Some(
                    PlayerMove::MovePiece(
                        MovePiece {
                            direction: d,
                            direction_on_collision: if s.len() >= 3 && direction_of(s[2]) is Some {
                                direction_of(s[2])->0
                            } else {
                                d
                            },
                        },
                    ),
                ),
            }
        }
    } else if s[0] == 'h' || s[0] == 'v' {
        if s.len() < 3 {
            None
        } else {
            match (digit_of(s[1]), digit_of(s[2])) {
                (Some(x), Some(y)) => Some(
                    PlayerMove::PlaceWall {
                        orientation: if s[0] == 'h' {
                            WallOrientation::Horizontal
                        } else {
                            WallOrientation::Vertical
                        },
                        position: WallPosition { x, y },
                    },
                ),
                _ => None,
            }
        }
    } else {
        None
    }
}

fn direction_from_char(c: Option<char>) -> (r: Option<Direction>)
    ensures
        r == (match c {
            Some(ch) => direction_of(ch),
            None => None,
        }),
{
    match c {
        Some('u') => Some(Direction::Up),
        Some('d') => Some(Direction::Down),
        Some('l') => Some(Direction::Left),
        Some('r') => Some(Direction::Right),
        _ => None,
    }
}

fn digit_from_char(c: char) -> (r: Option<usize>)
    ensures
        r == digit_of(c),
{
    match c {
        '0' => Some(0),
        '1' => Some(1),
        '2' => Some(2),
        '3' => Some(3),
        '4' => Some(4),
        '5' => Some(5),
        '6' => Some(6),
        '7' => Some(7),
        '8' => Some(8),
        '9' => Some(9),
        _ => None,
    }
}

pub fn parse_player_move(input: &str) -> (r: Option<PlayerMove>)
    ensures
        r == parsed_move(input@),
{
    let ghost s = input@;
    let mut chars = input.chars();
    proof {
        assert(chars.remaining() == s);
    }
    let first = chars.next();
    match first {
        Some('m') => {
            let direction = match direction_from_char(chars.next()) {
                Some(d) => d,
                None => {
                    return None;
                },
            };
            let direction_on_collision = match direction_from_char(chars.next()) {
                Some(d) => d,
                None => direction,
            };
            Some(PlayerMove::MovePiece(MovePiece { direction, direction_on_collision }))
        },
        Some(c) => {
            if c != 'h' && c != 'v' {
                return None;
            }
            let orientation = if c == 'h' {
                WallOrientation::Horizontal
            } else {
                WallOrientation::Vertical
            };
            match (chars.next(), chars.next()) {
                (Some(x), Some(y)) => {
                    let x = match digit_from_char(x) {
                        Some(v) => v,
                        None => {
                            return None;
                        },
                    };
                    let y = match digit_from_char(y) {
                        Some(v) => v,
                        None => {
                            return None;
                        },
                    };
                    Some(PlayerMove::PlaceWall { orientation, position: WallPosition { x, y } })
                },
                _ => None,
            }
        },
        None => None,
    }
}

} // verus!
