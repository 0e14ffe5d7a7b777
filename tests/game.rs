use tak_match::clock::{Clock, MoveTiming};
use tak_match::game::{
    startup_result, turn_event, Action, Color, GameResult, GameState, PositionStatus, Reason,
    TurnEvent, Verdict,
};
use tak_match::protocol::{classify_output, EngineOutput, Reply};

#[test]
fn clock_adds_increment_after_each_move() {
    let mut c = Clock::new(10_000, 500);
    let spent = [1200u64, 300, 4000];
    for e in spent {
        assert_eq!(c.commit_move(e), MoveTiming::InTime);
    }
    assert_eq!(c.time_remaining_ms, 10_000 - (1200 + 300 + 4000) + 3 * 500);
    assert_eq!(c.move_budget_ms(), 6000);
}

#[test]
fn clock_flag_fall_leaves_clock_alone() {
    let mut c = Clock::new(1000, 100);
    assert_eq!(c.commit_move(1000), MoveTiming::InTime);
    assert_eq!(c.time_remaining_ms, 100);
    assert_eq!(c.commit_move(101), MoveTiming::Timeout);
    assert_eq!(c, Clock::new(100, 100));
}

#[test]
fn clock_saturates() {
    let mut c = Clock::new(u64::MAX, 10);
    assert_eq!(c.commit_move(0), MoveTiming::InTime);
    assert_eq!(c.time_remaining_ms, u64::MAX);
}

fn played(mv: &str, elapsed_ms: u64) -> TurnEvent {
    TurnEvent::Played { mv: mv.to_string(), elapsed_ms, status: PositionStatus::Ongoing }
}

#[test]
fn malformed_reply_forfeits_to_other_side() {
    let mut g = GameState::new(vec![], 5000, 0);
    assert_eq!(g.play_turn(played("a1", 100)), Action::NextTurn);
    assert_eq!(g.to_move, Color::Black);
    let reply = classify_output(EngineOutput::Line("bestmove".to_string()));
    assert_eq!(reply, Reply::Malformed);
    let ev = turn_event(reply, 20, Verdict::Legal(PositionStatus::Ongoing));
    assert_eq!(ev, TurnEvent::Malformed);
    let a = g.play_turn(ev);
    let r = GameResult { winner: Some(Color::White), reason: Reason::ProtocolError };
    assert_eq!(a, Action::GameOver(r));
    assert_eq!(g.result, Some(r));
    assert_eq!(g.moves, vec!["a1".to_string()]);
}

#[test]
fn exit_forfeits_and_keeps_clocks() {
    let mut g = GameState::new(vec!["a1".to_string()], 5000, 100);
    assert_eq!(g.to_move, Color::Black);
    assert_eq!(g.play_turn(played("e5", 700)), Action::NextTurn);
    let (w, b) = (g.white_clock, g.black_clock);
    assert_eq!(b.time_remaining_ms, 4400);
    let a = g.play_turn(TurnEvent::Exited);
    assert_eq!(
        a,
        Action::GameOver(GameResult { winner: Some(Color::Black), reason: Reason::EngineExited })
    );
    assert_eq!((g.white_clock, g.black_clock), (w, b));
}

#[test]
fn each_failure_has_its_reason() {
    let cases = [
        (TurnEvent::Illegal, Reason::IllegalMove),
        (TurnEvent::Resigned, Reason::Resignation),
        (TurnEvent::TimedOut, Reason::Timeout),
        (played("a1", 5001), Reason::Timeout),
    ];
    for (ev, reason) in cases {
        let mut g = GameState::new(vec![], 5000, 0);
        assert_eq!(
            g.play_turn(ev),
            Action::GameOver(GameResult { winner: Some(Color::Black), reason })
        );
        assert_eq!(g.white_clock, Clock::new(5000, 0));
        assert!(g.moves.is_empty());
    }
}

#[test]
fn rules_end_the_game() {
    let mut g = GameState::new(vec![], 5000, 0);
    let ev = TurnEvent::Played {
        mv: "a1".to_string(),
        elapsed_ms: 10,
        status: PositionStatus::Won(Color::White),
    };
    assert_eq!(
        g.play_turn(ev),
        Action::GameOver(GameResult { winner: Some(Color::White), reason: Reason::Normal })
    );
    let mut g = GameState::new(vec![], 5000, 0);
    let ev = TurnEvent::Played { mv: "a1".to_string(), elapsed_ms: 10, status: PositionStatus::Drawn };
    assert_eq!(g.play_turn(ev), Action::GameOver(GameResult { winner: None, reason: Reason::Normal }));
    assert_eq!(g.white_clock.time_remaining_ms, 4990);
}

#[test]
fn startup_failures() {
    assert_eq!(startup_result(true, true), None);
    assert_eq!(
        startup_result(true, false),
        Some(GameResult { winner: Some(Color::White), reason: Reason::StartupFailure })
    );
    assert_eq!(
        startup_result(false, true),
        Some(GameResult { winner: Some(Color::Black), reason: Reason::StartupFailure })
    );
    assert_eq!(
        startup_result(false, false),
        Some(GameResult { winner: None, reason: Reason::StartupFailure })
    );
}

#[test]
fn replies_become_turns() {
    let reply = classify_output(EngineOutput::Line("bestmove c3".to_string()));
    assert_eq!(reply, Reply::Move("c3".to_string()));
    assert_eq!(
        turn_event(reply.clone(), 40, Verdict::Legal(PositionStatus::Ongoing)),
        TurnEvent::Played { mv: "c3".to_string(), elapsed_ms: 40, status: PositionStatus::Ongoing }
    );
    assert_eq!(turn_event(reply, 40, Verdict::Illegal), TurnEvent::Illegal);
    let closed = classify_output(EngineOutput::Closed);
    assert_eq!(closed, Reply::Exited);
    assert_eq!(turn_event(closed, 0, Verdict::Illegal), TurnEvent::Exited);
    let resigned = classify_output(EngineOutput::Line("bestmove resign".to_string()));
    assert_eq!(turn_event(resigned, 5, Verdict::Illegal), TurnEvent::Resigned);
    let late = classify_output(EngineOutput::TimedOut);
    assert_eq!(turn_event(late, 0, Verdict::Illegal), TurnEvent::TimedOut);
}
