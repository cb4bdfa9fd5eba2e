//! Keeps at most one of several identically named audio capture streams
//! audible: the session graph is read from a textual dump, compared with the
//! previous observation, and every matching stream but the one with the
//! smallest identifier is muted.
//!
//! The library decides and the caller acts. It runs no command and takes no
//! pause itself: it says which command to run, reads what came back, and
//! says what is to be done next.
//!
//! - `text`: characters, white space, searching, and decimal numbers.
//! - `snapshot`: the set of streams seen in one observation.
//! - `parser`: from the dump of the session graph to a snapshot.
//! - `engine`: from a snapshot to the decisions, and to the arrivals.
//! - `command`: the commands of the control tool and their outcomes.
//! - `config`: the settings and their defaults.
//! - `limiter`: the driver of the polling loop.

pub mod command;
pub mod config;
pub mod engine;
pub mod limiter;
pub mod parser;
pub mod snapshot;
pub mod text;
