use vstd::prelude::*;
use crate::clock::{committed, Clock, MoveTiming};
use crate::protocol::Reply;

verus! {

#[derive(Clone, Copy, Debug, PartialEq, Eq, Structural)]
pub enum Color {
    White,
    Black,
}

pub open spec fn opponent(c: Color) -> Color {
    match c {
        Color::White => Color::Black,
        Color::Black => Color::White,
    }
}

/// Why a game ended.
#[derive(Clone, Copy, Debug, PartialEq, Eq, Structural)]
pub enum Reason {
    /// The rules ended it: a road, a full board, or no pieces left.
    Normal,
    /// A side resigned.
    Resignation,
    /// A side's flag fell.
    Timeout,
    /// A side's reply was not a well-formed move.
    ProtocolError,
    /// A side's move was not legal in the position.
    IllegalMove,
    /// A side's process exited or closed its output.
    EngineExited,
    /// A side never became ready to play.
    StartupFailure,
}

/// The winner, `None` for a draw or a void game, and why it ended.
#[derive(Clone, Copy, Debug, PartialEq, Eq, Structural)]
pub struct GameResult {
    pub winner: Option<Color>,
    pub reason: Reason,
}

/// What the rules say of the position after a legal move.
#[derive(Clone, Copy, Debug, PartialEq, Eq, Structural)]
pub enum PositionStatus {
    Ongoing,
    Won(Color),
    Drawn,
}

/// How the turn of the side to move went.
#[derive(Clone, Debug, PartialEq, Eq)]
pub enum TurnEvent {
    /// A legal move arrived after `elapsed_ms`, leaving the position in `status`.
    Played { mv: String, elapsed_ms: u64, status: PositionStatus },
    /// The engine resigned.
    Resigned,
    /// A well-formed move arrived that is illegal in the position.
    Illegal,
    /// The reply was not a well-formed move.
    Malformed,
    /// No reply came before the deadline.
    TimedOut,
    /// The engine's process exited or closed its output.
    Exited,
}

/// What the rules say of a well-formed move in the current position.
#[derive(Clone, Copy, Debug, PartialEq, Eq, Structural)]
pub enum Verdict {
    Legal(PositionStatus),
    Illegal,
}

/// The turn a reply makes, given the time it took and, for a move, what the
/// rules say of it; the verdict counts only for a move.
pub fn turn_event(reply: Reply, elapsed_ms: u64, verdict: Verdict) -> (r: TurnEvent)
    ensures
        r == match reply {
            Reply::Move(mv) => match verdict {
                Verdict::Legal(status) => TurnEvent::Played { mv, elapsed_ms, status },
                Verdict::Illegal => TurnEvent::Illegal,
            },
            Reply::Resigned => TurnEvent::Resigned,
            Reply::Malformed => TurnEvent::Malformed,
            Reply::TimedOut => TurnEvent::TimedOut,
            Reply::Exited => TurnEvent::Exited,
        },
{
    match reply {
        Reply::Move(mv) => match verdict {
            Verdict::Legal(status) => TurnEvent::Played { mv, elapsed_ms, status },
            Verdict::Illegal => TurnEvent::Illegal,
        },
        Reply::Resigned => TurnEvent::Resigned,
        Reply::Malformed => TurnEvent::Malformed,
        Reply::TimedOut => TurnEvent::TimedOut,
        Reply::Exited => TurnEvent::Exited,
    }
}

/// What the runner does next.
#[derive(Clone, Copy, Debug, PartialEq, Eq, Structural)]
pub enum Action {
    /// Tell the idle side the move just played, then ask the side to move.
    NextTurn,
    /// Stop both engines; the game is over.
    GameOver(GameResult),
}

/// The side to move after `n` moves.
pub open spec fn side_after(n: nat) -> Color {
    if n % 2 == 0 {
        Color::White
    } else {
        Color::Black
    }
}

/// The result when the side `side` forfeits for `reason`.
pub open spec fn forfeit(side: Color, reason: Reason) -> GameResult {
    GameResult { winner: Some(opponent(side)), reason }
}

/// How one turn changes the game: what became of the side to move, its clock
/// and the moves, and what the runner does next.
pub open spec fn turn_settled(
    before: GameState,
    ev: TurnEvent,
    after: GameState,
    a: Action,
) -> bool {
    let side = before.to_move;
    &&& after.clock_of(opponent(side)) == before.clock_of(opponent(side))
    &&& !(ev is Played) ==> after.clock_of(side) == before.clock_of(side)
    &&& !(ev is Played) ==> after.moves@ == before.moves@
    &&& match ev {
        TurnEvent::Resigned => a == Action::GameOver(forfeit(side, Reason::Resignation)),
        TurnEvent::Played { mv, elapsed_ms, status } => match committed(
            before.clock_of(side),
            elapsed_ms as nat,
        ) {
            None => {
                &&& a == Action::GameOver(forfeit(side, Reason::Timeout))
                &&& after.clock_of(side) == before.clock_of(side)
                &&& after.moves@ == before.moves@
            },
            Some(c) => {
                &&& after.clock_of(side) == c
                &&& after.moves@ == before.moves@.push(mv)
                &&& a == match status {
                    PositionStatus::Ongoing => Action::NextTurn,
                    PositionStatus::Won(w) => Action::GameOver(
                        GameResult { winner: Some(w), reason: Reason::Normal },
                    ),
                    PositionStatus::Drawn => Action::GameOver(
                        GameResult { winner: None, reason: Reason::Normal },
                    ),
                }
            },
        },
        TurnEvent::Illegal => a == Action::GameOver(
            forfeit(side, Reason::IllegalMove),
        ),
        TurnEvent::Malformed => a == Action::GameOver(
            forfeit(side, Reason::ProtocolError),
        ),
        TurnEvent::TimedOut => a == Action::GameOver(forfeit(side, Reason::Timeout)),
        TurnEvent::Exited => a == Action::GameOver(
            forfeit(side, Reason::EngineExited),
        ),
    }
}

/// One game between two engines, from the runner's side.
pub struct GameState {
    pub to_move: Color,
    pub white_clock: Clock,
    pub black_clock: Clock,
    pub moves: Vec<String>,
    pub result: Option<GameResult>,
}

impl GameState {
    pub open spec fn clock_of(&self, c: Color) -> Clock {
        match c {
            Color::White => self.white_clock,
            Color::Black => self.black_clock,
        }
    }

    /// A game that starts after `opening` was played without the engines,
    /// each side with `time_ms` and `increment_ms` per move.
    pub fn new(opening: Vec<String>, time_ms: u64, increment_ms: u64) -> (r: GameState)
        ensures
            r.moves@ == opening@,
            r.to_move == side_after(opening@.len()),
            r.white_clock == (Clock { time_remaining_ms: time_ms, increment_ms }),
            r.black_clock == (Clock { time_remaining_ms: time_ms, increment_ms }),
            (r.result is None),
    {
        let to_move = if opening.len() % 2 == 0 {
            Color::White
        } else {
            Color::Black
        };
        GameState {
            to_move,
            white_clock: Clock::new(time_ms, increment_ms),
            black_clock: Clock::new(time_ms, increment_ms),
            moves: opening,
            result: None,
        }
    }

    /// The time the side to move may think.
    pub fn move_budget_ms(&self) -> (r: u64)
        ensures
            r == self.clock_of(self.to_move).time_remaining_ms,
    {
        match self.to_move {
            Color::White => self.white_clock.move_budget_ms(),
            Color::Black => self.black_clock.move_budget_ms(),
        }
    }

    fn finish(&mut self, r: GameResult) -> (a: Action)
        ensures
            final(self).result == Some(r),
            a == Action::GameOver(r),
            final(self).to_move == old(self).to_move,
            final(self).white_clock == old(self).white_clock,
            final(self).black_clock == old(self).black_clock,
            final(self).moves@ == old(self).moves@,
    {
        self.result = Some(r);
        Action::GameOver(r)
    }

    /// Settles the turn of the side to move. A legal move in time is booked on
    /// its clock and passes the turn; any failure forfeits the game to the
    /// other side and leaves both clocks as they were.
    pub fn play_turn(&mut self, ev: TurnEvent) -> (a: Action)
        requires
            old(self).result is None,
        ensures
            turn_settled(*old(self), ev, *final(self), a),
            a == Action::NextTurn <==> (final(self).result is None),
            a == Action::NextTurn ==> final(self).to_move == opponent(old(self).to_move),
            a is GameOver ==> final(self).result == Some(a->GameOver_0),
            a is GameOver ==> final(self).to_move == old(self).to_move,
    {
        let side = self.to_move;
        let other = match side {
            Color::White => Color::Black,
            Color::Black => Color::White,
        };
        match ev {
            TurnEvent::Played { mv, elapsed_ms, status } => {
                let timing = match side {
                    Color::White => self.white_clock.commit_move(elapsed_ms),
                    Color::Black => self.black_clock.commit_move(elapsed_ms),
                };
                match timing {
                    MoveTiming::Timeout => {
                        self.finish(GameResult { winner: Some(other), reason: Reason::Timeout })
                    },
                    MoveTiming::InTime => {
                        self.moves.push(mv);
                        match status {
                            PositionStatus::Ongoing => {
                                self.to_move = other;
                                Action::NextTurn
                            },
                            PositionStatus::Won(w) => self.finish(
                                GameResult { winner: Some(w), reason: Reason::Normal },
                            ),
                            PositionStatus::Drawn => self.finish(
                                GameResult { winner: None, reason: Reason::Normal },
                            ),
                        }
                    },
                }
            },
            TurnEvent::Resigned => self.finish(
                GameResult { winner: Some(other), reason: Reason::Resignation },
            ),
            TurnEvent::Illegal => self.finish(
                GameResult { winner: Some(other), reason: Reason::IllegalMove },
            ),
            TurnEvent::Malformed => self.finish(
                GameResult { winner: Some(other), reason: Reason::ProtocolError },
            ),
            TurnEvent::TimedOut => self.finish(
                GameResult { winner: Some(other), reason: Reason::Timeout },
            ),
            TurnEvent::Exited => self.finish(
                GameResult { winner: Some(other), reason: Reason::EngineExited },
            ),
        }
    }
}

/// An engine whose process exits, or closes its output, while it is to move
/// forfeits the game for that reason, and neither clock changes.
pub proof fn lemma_exit_forfeits(before: GameState, after: GameState, a: Action)
    requires
        turn_settled(before, TurnEvent::Exited, after, a),
    ensures
        a == Action::GameOver(
            GameResult { winner: Some(opponent(before.to_move)), reason: Reason::EngineExited },
        ),
        after.clock_of(opponent(before.to_move)) == before.clock_of(opponent(before.to_move)),
        after.clock_of(before.to_move) == before.clock_of(before.to_move),
{
}

/// The result of a game that could not start because an engine never became
/// ready: the other side wins, and where neither did the game is void.
pub fn startup_result(white_ready: bool, black_ready: bool) -> (r: Option<GameResult>)
    ensures
        r == (if white_ready && black_ready {
            None
        } else if white_ready {
            Some(forfeit(Color::Black, Reason::StartupFailure))
        } else if black_ready {
            Some(forfeit(Color::White, Reason::StartupFailure))
        } else {
            Some(GameResult { winner: None, reason: Reason::StartupFailure })
        }),
{
    if white_ready && black_ready {
        None
    } else if white_ready {
        Some(GameResult { winner: Some(Color::White), reason: Reason::StartupFailure })
    } else if black_ready {
        Some(GameResult { winner: Some(Color::Black), reason: Reason::StartupFailure })
    } else {
        Some(GameResult { winner: None, reason: Reason::StartupFailure })
    }
}

} // verus!
