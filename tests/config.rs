use tak_match::config::{parse_time_control, tournament_settings, ConfigError};
use tak_match::{parse_cli_arguments, CliOptions};

fn engines() -> Vec<String> {
    vec!["./a".to_string(), "./b".to_string()]
}

#[test]
fn cli_options_from_values() {
    let o = parse_cli_arguments("4", "10", Some("60"), engines(), Some("out.pgn".to_string()), None)
        .unwrap();
    assert_eq!(
        o,
        CliOptions {
            concurrency: 4,
            games: 10,
            time_ms: 60000,
            increment_ms: 0,
            engine_paths: engines(),
            pgnout: Some("out.pgn".to_string()),
            book_path: None,
        }
    );
}

#[test]
fn cli_options_with_increment_and_fraction() {
    let o = parse_cli_arguments("1", "2", Some("2.5+0.1"), engines(), None, Some("b.txt".to_string()))
        .unwrap();
    assert_eq!(o.time_ms, 2500);
    assert_eq!(o.increment_ms, 100);
    assert_eq!(o.book_path, Some("b.txt".to_string()));
}

#[test]
fn cli_rejects_zero_concurrency() {
    assert_eq!(
        parse_cli_arguments("0", "2", Some("1"), engines(), None, None),
        Err(ConfigError::BadConcurrency)
    );
    assert_eq!(
        parse_cli_arguments("x", "2", Some("1"), engines(), None, None),
        Err(ConfigError::BadConcurrency)
    );
}

#[test]
fn cli_rejects_bad_game_count() {
    assert_eq!(
        parse_cli_arguments("1", "-3", Some("1"), engines(), None, None),
        Err(ConfigError::BadGameCount)
    );
    assert_eq!(
        parse_cli_arguments("1", "18446744073709551616", Some("1"), engines(), None, None),
        Err(ConfigError::BadGameCount)
    );
}

#[test]
fn cli_rejects_bad_time_control() {
    assert_eq!(
        parse_cli_arguments("1", "2", None, engines(), None, None),
        Err(ConfigError::BadTimeControl)
    );
    assert_eq!(
        parse_cli_arguments("1", "2", Some("1.x"), engines(), None, None),
        Err(ConfigError::BadTimeControl)
    );
}

#[test]
fn cli_rejects_single_engine() {
    assert_eq!(
        parse_cli_arguments("1", "2", Some("1"), vec!["./a".to_string()], None, None),
        Err(ConfigError::TooFewEngines)
    );
}

#[test]
fn time_control_values() {
    assert_eq!(parse_time_control("10"), Some((10000, 0)));
    assert_eq!(parse_time_control("0.5"), Some((500, 0)));
    assert_eq!(parse_time_control("1.2345"), Some((1234, 0)));
    assert_eq!(parse_time_control("1.05"), Some((1050, 0)));
    assert_eq!(parse_time_control("4.35"), Some((4350, 0)));
    assert_eq!(parse_time_control("60+0.5"), Some((60000, 500)));
    assert_eq!(parse_time_control("5."), Some((5000, 0)));
    assert_eq!(parse_time_control(".5"), Some((500, 0)));
    assert_eq!(parse_time_control("+5"), Some((5000, 0)));
    assert_eq!(parse_time_control("1e3"), Some((1_000_000, 0)));
    assert_eq!(parse_time_control("2.5E-1"), Some((250, 0)));
    assert_eq!(parse_time_control("1e-4"), Some((0, 0)));
    assert_eq!(parse_time_control("1e+3+2"), Some((1_000_000, 2000)));
    assert_eq!(parse_time_control("+5++1"), Some((5000, 1000)));
    assert_eq!(parse_time_control("0e99999999999999999999"), Some((0, 0)));
    assert_eq!(parse_time_control("1e-99999999999999999999"), Some((0, 0)));
    assert_eq!(parse_time_control("1e99999999999999999999"), None);
    assert_eq!(parse_time_control(""), None);
    assert_eq!(parse_time_control("."), None);
    assert_eq!(parse_time_control("e5"), None);
    assert_eq!(parse_time_control("1e"), None);
    assert_eq!(parse_time_control("-1"), None);
    assert_eq!(parse_time_control("inf"), None);
    assert_eq!(parse_time_control("1.2.3"), None);
    assert_eq!(parse_time_control("1+"), None);
    assert_eq!(parse_time_control("1+2+3"), None);
    assert_eq!(parse_time_control("18446744073709551.615"), Some((u64::MAX, 0)));
    assert_eq!(parse_time_control("18446744073709552"), None);
}

#[test]
fn counts_may_carry_a_plus() {
    let o = parse_cli_arguments("+2", "+4", Some("5."), engines(), None, None).unwrap();
    assert_eq!((o.concurrency, o.games, o.time_ms), (2, 4, 5000));
    assert_eq!(
        parse_cli_arguments("1", "+", Some("1"), engines(), None, None),
        Err(ConfigError::BadGameCount)
    );
}

fn options(games: u64) -> CliOptions {
    parse_cli_arguments("2", &games.to_string(), Some("5"), engines(), None, None).unwrap()
}

#[test]
fn settings_count_minimatches() {
    let s = tournament_settings(options(4), vec![vec![]]).unwrap();
    assert_eq!(s.num_minimatches, 2);
    let s = tournament_settings(options(3), vec![vec![]]).unwrap();
    assert_eq!(s.num_minimatches, 2);
    assert_eq!(s.games, 3);
    let s = tournament_settings(options(u64::MAX), vec![vec![]]).unwrap();
    assert_eq!(s.num_minimatches, 1u64 << 63);
}

#[test]
fn settings_without_book_play_the_initial_position() {
    let s = tournament_settings(options(2), vec![]).unwrap();
    assert_eq!(s.openings, vec![Vec::<String>::new()]);
    let book = vec![vec!["a1".to_string(), "e5".to_string()]];
    let s = tournament_settings(options(2), book.clone()).unwrap();
    assert_eq!(s.openings, book);
    assert_eq!(s.concurrency, 2);
    assert_eq!(s.time_ms, 5000);
}

#[test]
fn settings_reject_bad_options() {
    let mut o = options(2);
    o.engine_paths.pop();
    assert_eq!(tournament_settings(o, vec![]), Err(ConfigError::TooFewEngines));
    let mut o = options(2);
    o.concurrency = 0;
    assert_eq!(tournament_settings(o, vec![]), Err(ConfigError::BadConcurrency));
}
