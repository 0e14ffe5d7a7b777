//! Running matches between Tak engines: the configuration of a tournament,
//! the order and colours of its games, the clocks, the engine protocol, and
//! the decisions a game runner makes on each turn.
use vstd::prelude::*;

pub mod book;
pub mod clock;
pub mod config;
pub mod decimal;
pub mod game;
pub mod pool;
pub mod protocol;
pub mod schedule;
pub mod seconds;
pub mod tally;

pub use config::{parse_cli_arguments, CliOptions};
