//! The settings: which streams to watch, how often, and how much to log.

use crate::text::{chars_of, same_text};
use vstd::prelude::*;

verus! {

/// The settings, as a configuration file gives them.
#[derive(Debug, PartialEq, Eq)]
pub struct Config {
    /// The name that a node must have to be watched.
    pub target_node_name: String,
    /// The name of the log level.
    pub log_level: String,
    /// The pause between two observations, in milliseconds.
    pub check_interval_ms: u64,
}

/// The node name that is watched unless the settings say otherwise.
pub fn default_target_name() -> (name: String)
    ensures
        name@ == "discord_capture"@,
{
    "discord_capture".to_owned()
}

/// The log level that is used unless the settings say otherwise.
pub fn default_log_level() -> (level: String)
    ensures
        level@ == "info"@,
{
    "info".to_owned()
}

/// The pause between two observations unless the settings say otherwise.
pub fn default_check_interval() -> (ms: u64)
    ensures
        ms == 1000,
{
    1000
}

/// The media class that a node must have to be watched: a stream that
/// captures audio.
pub fn capture_media_class() -> (class: &'static str)
    ensures
        class@ == "Stream/Input/Audio"@,
{
    "Stream/Input/Audio"
}

impl Default for Config {
    fn default() -> (c: Config)
        ensures
            c.target_node_name@ == "discord_capture"@,
            c.log_level@ == "info"@,
            c.check_interval_ms == 1000,
    {
        Config {
            target_node_name: default_target_name(),
            log_level: default_log_level(),
            check_interval_ms: default_check_interval(),
        }
    }
}

/// How much is logged, from the least to the most.
#[derive(Clone, Copy, Debug, PartialEq, Eq, Structural)]
pub enum LogLevel {
    Error,
    Warn,
    Info,
    Debug,
    Trace,
}

/// The level that a name stands for. A name that is none of the five
/// stands for `Info`.
pub open spec fn level_named(name: Seq<char>) -> LogLevel {
    if name == "error"@ {
        LogLevel::Error
    } else if name == "warn"@ {
        LogLevel::Warn
    } else if name == "debug"@ {
        LogLevel::Debug
    } else if name == "trace"@ {
        LogLevel::Trace
    } else {
        LogLevel::Info
    }
}

impl LogLevel {
    /// Reads the name of a level.
    pub fn from_name(name: &str) -> (level: LogLevel)
        ensures
            level == level_named(name@),
    {
        let chars = chars_of(name);
        if same_text(chars.as_slice(), chars_of("error").as_slice()) {
            LogLevel::Error
        } else if same_text(chars.as_slice(), chars_of("warn").as_slice()) {
            LogLevel::Warn
        } else if same_text(chars.as_slice(), chars_of("debug").as_slice()) {
            LogLevel::Debug
        } else if same_text(chars.as_slice(), chars_of("trace").as_slice()) {
            LogLevel::Trace
        } else {
            LogLevel::Info
        }
    }
}

impl Config {
    /// The level at which these settings ask to log.
    pub fn level(&self) -> (level: LogLevel)
        ensures
            level == level_named(self.log_level@),
    {
        LogLevel::from_name(self.log_level.as_str())
    }
}

} // verus!
