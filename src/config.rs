use vstd::prelude::*;
use crate::decimal::{decimal_u64, parse_decimal};
use crate::seconds::{parse_seconds_ms, seconds_ms_u64};

verus! {

/// Index of the first `+` at or after `i` that separates a base time from
/// an increment: one that neither starts the text nor follows `e` or `E`.
/// `s.len()` where there is none.
pub open spec fn separator_from(s: Seq<char>, i: int) -> int
    decreases s.len() - i,
{
    if i >= s.len() {
        s.len() as int
    } else if i >= 1 && s[i] == '+' && s[i - 1] != 'e' && s[i - 1] != 'E' {
        i
    } else {
        separator_from(s, i + 1)
    }
}

/// A time control `base` or `base+increment`, both in seconds (see
/// `seconds_ms`), as (base, increment) in milliseconds.
pub open spec fn time_control(s: Seq<char>) -> Option<(u64, u64)> {
    let q = separator_from(s, 1);
    if q == s.len() {
        match seconds_ms_u64(s) {
            Some(b) => Some((b, 0u64)),
            None => None,
        }
    } else {
        match (
            seconds_ms_u64(s.subrange(0, q)),
            seconds_ms_u64(s.subrange(q + 1, s.len() as int)),
        ) {
            (Some(b), Some(i)) => Some((b, i)),
            _ => None,
        }
    }
}

/// Parses a time control (see `time_control`).
pub fn parse_time_control(s: &str) -> (r: Option<(u64, u64)>)
    ensures
        r == time_control(s@),
{
    let n = s.unicode_len();
    proof {
        assert(s@.subrange(0, n as int) =~= s@);
    }
    let mut q: usize = 1;
    while q < n
        invariant
            n == s@.len(),
            1 <= q,
            separator_from(s@, 1) == separator_from(s@, q as int),
        ensures
            separator_from(s@, 1) == q || (q >= n && separator_from(s@, 1) == n),
        decreases n - q,
    {
        let c = s.get_char(q);
        if c == '+' {
            let prev = s.get_char(q - 1);
            if prev != 'e' && prev != 'E' {
                break;
            }
        }
        q = q + 1;
    }
    if q > n {
        q = n;
    }
    if q == n {
        match parse_seconds_ms(s, 0, n) {
            Some(b) => Some((b, 0)),
            None => None,
        }
    } else {
        match (parse_seconds_ms(s, 0, q), parse_seconds_ms(s, q + 1, n)) {
            (Some(b), Some(i)) => Some((b, i)),
            _ => None,
        }
    }
}

/// Why a tournament's configuration was rejected before any game started.
#[derive(Clone, Copy, Debug, PartialEq, Eq, Structural)]
pub enum ConfigError {
    /// The concurrency is not a whole number of at least one.
    BadConcurrency,
    /// The game count is not a whole number.
    BadGameCount,
    /// The time control is absent or malformed.
    BadTimeControl,
    /// Fewer than two engines were named.
    TooFewEngines,
}

/// The options a tournament is started with; times are in milliseconds.
#[derive(Clone, Debug, PartialEq, Eq)]
pub struct CliOptions {
    pub concurrency: usize,
    pub games: u64,
    pub time_ms: u64,
    pub increment_ms: u64,
    pub engine_paths: Vec<String>,
    pub pgnout: Option<String>,
    pub book_path: Option<String>,
}

/// A count: decimal digits after an optional `+`.
pub open spec fn count_value(s: Seq<char>) -> Option<u64> {
    if s.len() > 0 && s[0] == '+' {
        decimal_u64(s.drop_first())
    } else {
        decimal_u64(s)
    }
}

/// Reads a count (see `count_value`).
pub fn parse_count(s: &str) -> (r: Option<u64>)
    ensures
        r == count_value(s@),
{
    let n = s.unicode_len();
    if n > 0 && s.get_char(0) == '+' {
        assert(s@.drop_first() =~= s@.subrange(1, n as int));
        parse_decimal(s, 1, n)
    } else {
        assert(s@ =~= s@.subrange(0, n as int));
        parse_decimal(s, 0, n)
    }
}

pub open spec fn concurrency_value(s: Seq<char>) -> Option<usize> {
    match count_value(s) {
        Some(v) => if 1 <= v && v <= usize::MAX {
            Some(v as usize)
        } else {
            None
        },
        None => None,
    }
}

pub open spec fn opt_view(s: Option<&str>) -> Option<Seq<char>> {
    match s {
        Some(t) => Some(t@),
        None => None,
    }
}

/// The first thing wrong with the raw option values, checked in the order
/// concurrency, game count, time control, engines.
pub open spec fn cli_error(
    concurrency: Seq<char>,
    games: Seq<char>,
    tc: Option<Seq<char>>,
    n_engines: nat,
) -> Option<ConfigError> {
    if concurrency_value(concurrency) is None {
        Some(ConfigError::BadConcurrency)
    } else if count_value(games) is None {
        Some(ConfigError::BadGameCount)
    } else if tc is None || time_control(tc->0) is None {
        Some(ConfigError::BadTimeControl)
    } else if n_engines < 2 {
        Some(ConfigError::TooFewEngines)
    } else {
        None
    }
}

/// Builds the tournament options from the raw values given on the command line.
pub fn parse_cli_arguments(
    concurrency: &str,
    games: &str,
    tc: Option<&str>,
    engine_paths: Vec<String>,
    pgnout: Option<String>,
    book_path: Option<String>,
) -> (r: Result<CliOptions, ConfigError>)
    ensures
        r is Err <==> cli_error(concurrency@, games@, opt_view(tc), engine_paths@.len()) is Some,
        r is Err ==> r->Err_0 == cli_error(
            concurrency@,
            games@,
            opt_view(tc),
            engine_paths@.len(),
        )->0,
        r is Ok ==> {
            let o = r->Ok_0;
            &&& Some(o.concurrency) == concurrency_value(concurrency@)
            &&& Some(o.games) == count_value(games@)
            &&& Some((o.time_ms, o.increment_ms)) == time_control(opt_view(tc)->0)
            &&& o.engine_paths@ == engine_paths@
            &&& o.pgnout == pgnout
            &&& o.book_path == book_path
        },
{
    let c = match parse_count(concurrency) {
        Some(c) => c,
        None => return Err(ConfigError::BadConcurrency),
    };
    if c == 0 || c > usize::MAX as u64 {
        return Err(ConfigError::BadConcurrency);
    }
    let g = match parse_count(games) {
        Some(g) => g,
        None => return Err(ConfigError::BadGameCount),
    };
    let (time_ms, increment_ms) = match tc {
        Some(t) => match parse_time_control(t) {
            Some(p) => p,
            None => return Err(ConfigError::BadTimeControl),
        },
        None => return Err(ConfigError::BadTimeControl),
    };
    if engine_paths.len() < 2 {
        return Err(ConfigError::TooFewEngines);
    }
    Ok(CliOptions {
        concurrency: c as usize,
        games: g,
        time_ms,
        increment_ms,
        engine_paths,
        pgnout,
        book_path,
    })
}

/// Minimatches needed for `games` games: each holds two, the last maybe one.
pub open spec fn minimatches_for(games: nat) -> nat {
    (games + 1) / 2
}

/// What a tournament runs with, fixed before the first game starts.
#[derive(Clone, Debug, PartialEq, Eq)]
pub struct TournamentSettings {
    pub concurrency: usize,
    pub time_ms: u64,
    pub increment_ms: u64,
    pub openings: Vec<Vec<String>>,
    pub num_minimatches: u64,
    pub games: u64,
    pub engine_paths: Vec<String>,
    pub pgnout: Option<String>,
}

impl TournamentSettings {
    pub open spec fn wf(&self) -> bool {
        &&& self.concurrency >= 1
        &&& self.engine_paths@.len() >= 2
        &&& self.openings@.len() >= 1
        &&& self.num_minimatches == minimatches_for(self.games as nat)
    }
}

/// Settles a tournament from its options and the openings of its book; with no
/// opening at all, every game starts from the initial position.
pub fn tournament_settings(cli: CliOptions, openings: Vec<Vec<String>>) -> (r: Result<
    TournamentSettings,
    ConfigError,
>)
    ensures
        r is Err <==> cli.concurrency == 0 || cli.engine_paths@.len() < 2,
        r is Err ==> r->Err_0 == (if cli.concurrency == 0 {
            ConfigError::BadConcurrency
        } else {
            ConfigError::TooFewEngines
        }),
        r is Ok ==> {
            let t = r->Ok_0;
            &&& t.wf()
            &&& t.concurrency == cli.concurrency
            &&& t.time_ms == cli.time_ms
            &&& t.increment_ms == cli.increment_ms
            &&& t.games == cli.games
            &&& t.engine_paths@ == cli.engine_paths@
            &&& t.pgnout == cli.pgnout
            &&& if openings@.len() == 0 {
                t.openings@.len() == 1 && t.openings@[0]@.len() == 0
            } else {
                t.openings@ == openings@
            }
        },
{
    if cli.concurrency == 0 {
        return Err(ConfigError::BadConcurrency);
    }
    if cli.engine_paths.len() < 2 {
        return Err(ConfigError::TooFewEngines);
    }
    let openings = if openings.len() == 0 {
        let mut v: Vec<Vec<String>> = Vec::new();
        v.push(Vec::new());
        v
    } else {
        openings
    };
    let num_minimatches = cli.games / 2 + cli.games % 2;
    Ok(TournamentSettings {
        concurrency: cli.concurrency,
        time_ms: cli.time_ms,
        increment_ms: cli.increment_ms,
        openings,
        num_minimatches,
        games: cli.games,
        engine_paths: cli.engine_paths,
        pgnout: cli.pgnout,
    })
}

} // verus!
