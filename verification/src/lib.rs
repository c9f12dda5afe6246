//! Launch planning for a personal game catalog: a tag query language, the
//! compilation of per-game configuration into argument vectors and
//! environments, and the play-time ledger.

pub mod catalog;
pub mod config;
pub mod game;
pub mod game_builder;
pub mod ledger;
pub mod order;
pub mod parse_error;
pub mod report;
pub mod stats;
pub mod tag;
pub mod text;
pub mod timestamp;
pub mod value;
