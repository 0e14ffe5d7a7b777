use vstd::prelude::*;
use vstd::string::{StrSliceExecFns, StringExecFns};
use crate::decimal::{all_digits, digit_value, digits_value, is_digit};

verus! {

/// Where an engine stands in its life as seen by its driver.
#[derive(Clone, Copy, Debug, PartialEq, Eq, Structural)]
pub enum DriverState {
    Created,
    Initializing,
    Ready,
    AwaitingMove,
    Terminated,
}

/// What happens to a driver.
#[derive(Clone, Copy, Debug, PartialEq, Eq, Structural)]
pub enum DriverEvent {
    /// The process started and the handshake was sent.
    Launched,
    /// The engine confirmed it is ready.
    ReadyAcknowledged,
    /// The engine failed to start or to become ready in time.
    StartupFailed,
    /// The position and the time left were sent, and a move asked for.
    MoveRequested,
    /// A well-formed, legal move came in time.
    MoveReceived,
    /// A malformed or illegal reply, a timeout, or the end of the output.
    Violation,
    /// The runner stops the engine.
    Shutdown,
}

/// The driver's next state, or `None` where the event cannot happen in `s`.
pub open spec fn driver_next(s: DriverState, e: DriverEvent) -> Option<DriverState> {
    match (s, e) {
        (_, DriverEvent::Shutdown) => Some(DriverState::Terminated),
        (DriverState::Created, DriverEvent::Launched) => Some(DriverState::Initializing),
        (DriverState::Created, DriverEvent::StartupFailed) => Some(DriverState::Terminated),
        (DriverState::Initializing, DriverEvent::ReadyAcknowledged) => Some(DriverState::Ready),
        (DriverState::Initializing, DriverEvent::StartupFailed) => Some(DriverState::Terminated),
        (DriverState::Ready, DriverEvent::MoveRequested) => Some(DriverState::AwaitingMove),
        (DriverState::AwaitingMove, DriverEvent::MoveReceived) => Some(DriverState::Ready),
        (DriverState::AwaitingMove, DriverEvent::Violation) => Some(DriverState::Terminated),
        _ => None,
    }
}

/// Moves a driver on by one event; `None` where the event is out of place.
pub fn driver_step(s: DriverState, e: DriverEvent) -> (r: Option<DriverState>)
    ensures
        r == driver_next(s, e),
{
    match (s, e) {
        (_, DriverEvent::Shutdown) => Some(DriverState::Terminated),
        (DriverState::Created, DriverEvent::Launched) => Some(DriverState::Initializing),
        (DriverState::Created, DriverEvent::StartupFailed) => Some(DriverState::Terminated),
        (DriverState::Initializing, DriverEvent::ReadyAcknowledged) => Some(DriverState::Ready),
        (DriverState::Initializing, DriverEvent::StartupFailed) => Some(DriverState::Terminated),
        (DriverState::Ready, DriverEvent::MoveRequested) => Some(DriverState::AwaitingMove),
        (DriverState::AwaitingMove, DriverEvent::MoveReceived) => Some(DriverState::Ready),
        (DriverState::AwaitingMove, DriverEvent::Violation) => Some(DriverState::Terminated),
        _ => None,
    }
}

/// A terminated driver stays terminated: no engine is used again after it
/// stopped.
pub proof fn lemma_terminated_is_final(e: DriverEvent)
    ensures
        driver_next(DriverState::Terminated, e) is None || driver_next(
            DriverState::Terminated,
            e,
        ) == Some(DriverState::Terminated),
{
}

pub open spec fn bestmove_prefix() -> Seq<char> {
    seq!['b', 'e', 's', 't', 'm', 'o', 'v', 'e', ' ']
}

pub open spec fn resign_line() -> Seq<char> {
    bestmove_prefix() + seq!['r', 'e', 's', 'i', 'g', 'n']
}

pub open spec fn ready_ack() -> Seq<char> {
    seq!['r', 'e', 'a', 'd', 'y', 'o', 'k']
}

/// The move in a reply `bestmove <move>`, where the move is one non-empty
/// word; `None` for any other line.
pub open spec fn reply_move(line: Seq<char>) -> Option<Seq<char>> {
    let n = bestmove_prefix().len();
    if line.len() > n && line.subrange(0, n as int) == bestmove_prefix() && (forall|i: int|
        n <= i < line.len() ==> line[i] != ' ') {
        Some(line.subrange(n as int, line.len() as int))
    } else {
        None
    }
}

/// What waiting for an engine's reply gave.
#[derive(Clone, Debug, PartialEq, Eq)]
pub enum EngineOutput {
    /// A full line, without its line ending.
    Line(String),
    /// The deadline passed first.
    TimedOut,
    /// The process exited or closed its output.
    Closed,
}

/// An engine's reply to a request for a move, sorted into what a driver acts on.
#[derive(Clone, Debug, PartialEq, Eq)]
pub enum Reply {
    /// A well-formed move, still to be checked against the rules.
    Move(String),
    /// The engine gave up the game.
    Resigned,
    Malformed,
    TimedOut,
    Exited,
}

/// Sorts what came back while a move was awaited. Nothing is retried: a
/// line that is not a well-formed move is malformed.
pub fn classify_output(out: EngineOutput) -> (r: Reply)
    ensures
        match out {
            EngineOutput::Line(l) => if l@ == resign_line() {
                r == Reply::Resigned
            } else {
                match reply_move(l@) {
                    Some(m) => r is Move && r->Move_0@ == m,
                    None => r == Reply::Malformed,
                }
            },
            EngineOutput::TimedOut => r == Reply::TimedOut,
            EngineOutput::Closed => r == Reply::Exited,
        },
{
    match out {
        EngineOutput::Line(l) => if is_resignation(l.as_str()) {
            Reply::Resigned
        } else {
            match parse_reply(l.as_str()) {
                Some(m) => Reply::Move(m),
                None => Reply::Malformed,
            }
        },
        EngineOutput::TimedOut => Reply::TimedOut,
        EngineOutput::Closed => Reply::Exited,
    }
}

/// Whether `s` starts with the characters `p`.
fn starts_with(s: &str, p: &str) -> (r: bool)
    ensures
        r == (p@.len() <= s@.len() && s@.subrange(0, p@.len() as int) == p@),
{
    let n = p.unicode_len();
    if n > s.unicode_len() {
        return false;
    }
    let mut i: usize = 0;
    while i < n
        invariant
            n == p@.len() <= s@.len(),
            i <= n,
            forall|j: int| 0 <= j < i ==> s@[j] == p@[j],
        decreases n - i,
    {
        if s.get_char(i) != p.get_char(i) {
            assert(s@.subrange(0, n as int)[i as int] != p@[i as int]);
            return false;
        }
        i = i + 1;
    }
    assert(s@.subrange(0, n as int) =~= p@);
    true
}

/// Whether the line is the engine's resignation, `bestmove resign`.
pub fn is_resignation(line: &str) -> (r: bool)
    ensures
        r == (line@ == resign_line()),
{
    let word = "bestmove resign";
    proof {
        reveal_strlit("bestmove resign");
        assert(word@ =~= resign_line());
    }
    let r = line.unicode_len() == word.unicode_len() && starts_with(line, word);
    proof {
        if line@.len() == word@.len() {
            assert(line@.subrange(0, line@.len() as int) =~= line@);
        }
    }
    r
}

/// The command an engine is started with, asking it to name itself.
pub fn identify_command() -> (r: String)
    ensures
        r@ == seq!['t', 'e', 'i'],
{
    let c = "tei";
    proof {
        reveal_strlit("tei");
    }
    String::from_str(c)
}

/// The command that asks an engine whether it is ready.
pub fn ready_query() -> (r: String)
    ensures
        r@ == seq!['i', 's', 'r', 'e', 'a', 'd', 'y'],
{
    let c = "isready";
    proof {
        reveal_strlit("isready");
    }
    String::from_str(c)
}

/// Whether the line is the engine's confirmation that it is ready.
pub fn is_ready_ack(line: &str) -> (r: bool)
    ensures
        r == (line@ == ready_ack()),
{
    let ack = "readyok";
    proof {
        reveal_strlit("readyok");
        assert(ack@ =~= ready_ack());
    }
    let r = line.unicode_len() == ack.unicode_len() && starts_with(line, ack);
    proof {
        if line@.len() == ack@.len() {
            assert(line@.subrange(0, line@.len() as int) =~= line@);
        }
    }
    r
}

/// The move an engine named in its reply line, or `None` where the line is
/// not a well-formed reply.
pub fn parse_reply(line: &str) -> (r: Option<String>)
    ensures
        r is None <==> reply_move(line@) is None,
        r is Some ==> Some(r->0@) == reply_move(line@),
{
    let prefix = "bestmove ";
    proof {
        reveal_strlit("bestmove ");
        assert(prefix@ =~= bestmove_prefix());
    }
    let n = line.unicode_len();
    if n <= 9 || !starts_with(line, prefix) {
        return None;
    }
    let mut i: usize = 9;
    while i < n
        invariant
            9 <= i <= n,
            n == line@.len(),
            forall|j: int| 9 <= j < i ==> line@[j] != ' ',
        decreases n - i,
    {
        if line.get_char(i) == ' ' {
            return None;
        }
        i = i + 1;
    }
    let mv = line.substring_char(9, n);
    Some(String::from_str(mv))
}

pub open spec fn decimal_digits() -> Seq<char> {
    seq!['0', '1', '2', '3', '4', '5', '6', '7', '8', '9']
}

/// `n` written in decimal, without leading zeros.
pub open spec fn decimal_of(n: nat) -> Seq<char>
    decreases n,
{
    if n < 10 {
        seq![decimal_digits()[n as int]]
    } else {
        decimal_of(n / 10).push(decimal_digits()[(n % 10) as int])
    }
}

/// The decimal text of `n`.
pub fn decimal_text(n: u64) -> (r: String)
    ensures
        r@ == decimal_of(n as nat),
        r@.len() > 0,
        all_digits(r@),
        digits_value(r@) == n,
    decreases n,
{
    let digits = "0123456789";
    proof {
        reveal_strlit("0123456789");
    }
    let d = (n % 10) as usize;
    let one = digits.substring_char(d, d + 1);
    proof {
        let ds = decimal_digits();
        assert(digits@ =~= ds);
        assert(forall|k: int| 0 <= k < 10 ==> is_digit(#[trigger] ds[k]) && digit_value(ds[k]) == k);
        assert(one@ =~= seq![ds[d as int]]);
    }
    if n < 10 {
        let r = String::from_str(one);
        assert(r@.drop_last() =~= Seq::<char>::empty());
        assert(digits_value(r@) == digits_value(r@.drop_last()) * 10 + digit_value(r@.last()));
        assert(digits_value(Seq::<char>::empty()) == 0);
        assert(r@ =~= decimal_of(n as nat));
        r
    } else {
        let mut r = decimal_text(n / 10);
        let ghost head = r@;
        r.append(one);
        assert(r@.drop_last() =~= head);
        assert(r@.last() == digits@[d as int]);
        assert(r@ =~= head.push(one@[0]));
        assert(digits_value(r@) == digits_value(head) * 10 + digit_value(r@.last()));
        assert(n == (n / 10) * 10 + n % 10);
        assert forall|k: int| 0 <= k < r@.len() implies is_digit(#[trigger] r@[k]) by {
            if k < head.len() {
                assert(r@[k] == head[k]);
            }
        }
        r
    }
}

/// The moves of a game, each after a space.
pub open spec fn spaced(moves: Seq<String>) -> Seq<char>
    decreases moves.len(),
{
    if moves.len() == 0 {
        Seq::empty()
    } else {
        spaced(moves.drop_last()) + seq![' '] + moves.last()@
    }
}

pub open spec fn startpos() -> Seq<char> {
    seq!['p', 'o', 's', 'i', 't', 'i', 'o', 'n', ' ', 's', 't', 'a', 'r', 't', 'p', 'o', 's']
}

pub open spec fn moves_word() -> Seq<char> {
    seq![' ', 'm', 'o', 'v', 'e', 's']
}

/// The command that sets an engine's position to the game so far.
pub open spec fn position_text(moves: Seq<String>) -> Seq<char> {
    if moves.len() == 0 {
        startpos()
    } else {
        startpos() + moves_word() + spaced(moves)
    }
}

/// The command that sets an engine's position: `position startpos`, followed by
/// `moves` and the moves where there are any.
pub fn position_command(moves: &Vec<String>) -> (r: String)
    ensures
        r@ == position_text(moves@),
{
    let start = "position startpos";
    let word = " moves";
    proof {
        reveal_strlit("position startpos");
        reveal_strlit(" moves");
        assert(start@ =~= startpos());
        assert(word@ =~= moves_word());
    }
    let mut r = String::from_str(start);
    if moves.len() == 0 {
        return r;
    }
    r.append(word);
    let space = " ";
    proof {
        reveal_strlit(" ");
    }
    let mut i: usize = 0;
    while i < moves.len()
        invariant
            i <= moves@.len(),
            space@ == seq![' '],
            r@ == startpos() + moves_word() + spaced(moves@.subrange(0, i as int)),
        decreases moves.len() - i,
    {
        let ghost before = r@;
        r.append(space);
        r.append(moves[i].as_str());
        proof {
            let s = moves@.subrange(0, i + 1);
            assert(s.drop_last() =~= moves@.subrange(0, i as int));
            assert(before + seq![' '] + moves@[i as int]@ =~= startpos() + moves_word() + (
            spaced(moves@.subrange(0, i as int)) + seq![' '] + moves@[i as int]@));
        }
        i = i + 1;
    }
    assert(moves@.subrange(0, moves@.len() as int) =~= moves@);
    r
}

pub open spec fn go_text(wtime: nat, btime: nat, winc: nat, binc: nat) -> Seq<char> {
    seq!['g', 'o', ' ', 'w', 't', 'i', 'm', 'e', ' '] + decimal_of(wtime) + seq![
        ' ',
        'b',
        't',
        'i',
        'm',
        'e',
        ' ',
    ] + decimal_of(btime) + seq![' ', 'w', 'i', 'n', 'c', ' '] + decimal_of(winc) + seq![
        ' ',
        'b',
        'i',
        'n',
        'c',
        ' ',
    ] + decimal_of(binc)
}

/// The command that asks an engine for a move, with each side's time left and
/// increment in milliseconds.
pub fn go_command(wtime: u64, btime: u64, winc: u64, binc: u64) -> (r: String)
    ensures
        r@ == go_text(wtime as nat, btime as nat, winc as nat, binc as nat),
{
    let a = "go wtime ";
    let b = " btime ";
    let c = " winc ";
    let d = " binc ";
    proof {
        reveal_strlit("go wtime ");
        reveal_strlit(" btime ");
        reveal_strlit(" winc ");
        reveal_strlit(" binc ");
    }
    let mut r = String::from_str(a);
    r.append(decimal_text(wtime).as_str());
    r.append(b);
    r.append(decimal_text(btime).as_str());
    r.append(c);
    r.append(decimal_text(winc).as_str());
    r.append(d);
    r.append(decimal_text(binc).as_str());
    assert(r@ =~= go_text(wtime as nat, btime as nat, winc as nat, binc as nat));
    r
}

} // verus!
