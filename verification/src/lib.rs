//! Rule-based file organisation: an ordered rule list decides where a newly
//! detected file belongs, a collision-safe naming scheme decides what it is
//! called there, and a queue holds the files that await a manual
//! decision.

pub mod commands;
pub mod config;
pub mod organizer;
pub mod pattern;
pub mod text;
pub mod watcher;
