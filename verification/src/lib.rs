//! The scouting engine of a robotics competition: field observations of teams
//! are merged record by record, joined with cached outside statistics and
//! reduced, metric by metric, to the entries of a ranking table.
//!
//! Every real number of this library is an `i64` that counts millionths, so
//! that each rule on numbers is a rule on integers.
pub mod analysis;
pub mod api;
pub mod cache;
pub mod config;
pub mod data;
pub mod data_validation;
pub mod database;
pub mod leaderboard;
pub mod number;
pub mod order;
pub mod statbotics;
pub mod str_map;
pub mod tally;
pub mod tba;
pub mod text;
