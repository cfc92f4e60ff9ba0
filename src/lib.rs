//! Retention-driven pruning of directory trees whose entries are named after
//! timestamps: configuration parsing, name transformation, date matching,
//! retention decisions and the per-entry rules of the directory walk.


pub mod config;
pub mod dates;
pub mod names;
pub mod text;
pub mod walk;
