use tak_match::game::{Color, GameResult, Reason};
use tak_match::pool::Pool;
use tak_match::schedule::{game_assignment, schedule_games, GameAssignment};
use tak_match::tally::Tally;

#[test]
fn four_games_one_opening() {
    let s = schedule_games(4, 1);
    assert_eq!(s.len(), 4);
    let minimatches: std::collections::BTreeSet<u64> = s.iter().map(|g| g.minimatch).collect();
    assert_eq!(minimatches.len(), 2);
    for e in 0..2usize {
        assert_eq!(s.iter().filter(|g| g.white_engine == e).count(), 2);
        assert_eq!(s.iter().filter(|g| g.black_engine == e).count(), 2);
    }
    assert!(s.iter().all(|g| g.opening_index == 0));
}

#[test]
fn odd_game_count_leaves_last_minimatch_half_played() {
    let s = schedule_games(3, 1);
    assert_eq!(s.len(), 3);
    assert!(s.len() <= 2 * 2);
    assert_eq!(s[2].minimatch, 1);
    assert_eq!(s[2].white_engine, 0);
}

#[test]
fn minimatch_pairs_swap_colours() {
    let s = schedule_games(6, 2);
    for m in 0..3 {
        let (a, b) = (s[2 * m], s[2 * m + 1]);
        assert_eq!(a.opening_index, b.opening_index);
        assert_eq!(a.white_engine, b.black_engine);
        assert_eq!(a.black_engine, b.white_engine);
    }
    assert_eq!(s[0].opening_index, 0);
    assert_eq!(s[2].opening_index, 1);
    assert_eq!(s[4].opening_index, 0);
}

#[test]
fn single_assignment() {
    assert_eq!(
        game_assignment(7, 3),
        GameAssignment { minimatch: 3, opening_index: 0, white_engine: 1, black_engine: 0 }
    );
    assert!(schedule_games(0, 1).is_empty());
}

#[test]
fn pool_never_exceeds_concurrency() {
    let mut p = Pool::new(2, 5);
    let mut most = 0;
    let mut started = Vec::new();
    loop {
        while let Some(g) = p.try_start() {
            started.push(g);
            most = most.max(p.active);
        }
        if p.is_done() {
            break;
        }
        p.finish();
    }
    assert_eq!(most, 2);
    assert_eq!(started, vec![0, 1, 2, 3, 4]);
    assert_eq!(p.completed, 5);
    assert_eq!(p.try_start(), None);
}

#[test]
fn tally_credits_winning_colour() {
    let mut t = Tally::new();
    let first = game_assignment(0, 1);
    let second = game_assignment(1, 1);
    t.record(first, GameResult { winner: Some(Color::White), reason: Reason::Normal });
    t.record(second, GameResult { winner: Some(Color::White), reason: Reason::Timeout });
    t.record(second, GameResult { winner: Some(Color::Black), reason: Reason::EngineExited });
    t.record(first, GameResult { winner: None, reason: Reason::Normal });
    t.record(first, GameResult { winner: None, reason: Reason::StartupFailure });
    assert_eq!(
        t,
        Tally { first_wins: 2, second_wins: 1, draws: 1, voids: 1 }
    );
}
