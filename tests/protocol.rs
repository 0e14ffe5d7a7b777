use tak_match::protocol::{
    classify_output, decimal_text, driver_step, go_command, identify_command, is_ready_ack,
    is_resignation, parse_reply, position_command, ready_query, DriverEvent, DriverState,
    EngineOutput, Reply,
};

#[test]
fn replies() {
    assert_eq!(parse_reply("bestmove a1"), Some("a1".to_string()));
    assert_eq!(parse_reply("bestmove 3c3>12"), Some("3c3>12".to_string()));
    assert_eq!(parse_reply("bestmove "), None);
    assert_eq!(parse_reply("bestmove a1 b2"), None);
    assert_eq!(parse_reply("info depth 3"), None);
    assert_eq!(parse_reply(""), None);
}

#[test]
fn ready_acknowledgement() {
    assert!(is_ready_ack("readyok"));
    assert!(!is_ready_ack("readyok "));
    assert!(!is_ready_ack("ready"));
}

#[test]
fn commands() {
    assert_eq!(position_command(&vec![]), "position startpos");
    assert_eq!(
        position_command(&vec!["a1".to_string(), "e5".to_string()]),
        "position startpos moves a1 e5"
    );
    assert_eq!(go_command(60000, 59000, 0, 500), "go wtime 60000 btime 59000 winc 0 binc 500");
    assert_eq!(decimal_text(0), "0");
    assert_eq!(decimal_text(u64::MAX), u64::MAX.to_string());
}

#[test]
fn driver_lifecycle() {
    let mut s = DriverState::Created;
    for e in [
        DriverEvent::Launched,
        DriverEvent::ReadyAcknowledged,
        DriverEvent::MoveRequested,
        DriverEvent::MoveReceived,
        DriverEvent::MoveRequested,
    ] {
        s = driver_step(s, e).unwrap();
    }
    assert_eq!(s, DriverState::AwaitingMove);
    assert_eq!(driver_step(s, DriverEvent::Violation), Some(DriverState::Terminated));
    assert_eq!(driver_step(DriverState::Ready, DriverEvent::MoveReceived), None);
    assert_eq!(driver_step(DriverState::Terminated, DriverEvent::MoveRequested), None);
    assert_eq!(
        driver_step(DriverState::Initializing, DriverEvent::StartupFailed),
        Some(DriverState::Terminated)
    );
    assert_eq!(driver_step(DriverState::Ready, DriverEvent::Shutdown), Some(DriverState::Terminated));
}

#[test]
fn handshake_commands() {
    assert_eq!(identify_command(), "tei");
    assert_eq!(ready_query(), "isready");
}

#[test]
fn resignation_is_not_a_move() {
    assert!(is_resignation("bestmove resign"));
    assert!(!is_resignation("bestmove resigns"));
    assert_eq!(
        classify_output(EngineOutput::Line("bestmove resign".to_string())),
        Reply::Resigned
    );
}
