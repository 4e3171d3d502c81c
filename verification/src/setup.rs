//! The launch settings of a node and what is derived from them before the
//! node starts serving.

use crate::schema::text_of;
use vstd::prelude::*;

verus! {

/// How much the node logs.
#[derive(Clone, Copy, Debug, PartialEq, Eq, Structural)]
pub enum LogLevel {
    Off,
    Error,
    Warn,
    Info,
    Debug,
    Trace,
}

/// The settings a node is launched with.
#[derive(Debug)]
pub struct Settings {
    /// Messages above this level are not logged.
    pub log_level: LogLevel,
    /// Whether log levels are coloured; unset means coloured.
    pub pretty_logs: Option<bool>,
    /// The host to bind to.
    pub host: String,
    /// The port to bind to.
    pub port: u16,
    /// The allowed origins, separated by commas, or `*` for any.
    pub cors_origins: String,
    /// The allowed methods, separated by commas, or `*` for any.
    pub cors_methods: String,
    /// The super user key; setting it switches authorisation on.
    pub super_user_key: Option<String>,
    /// The number of runtime threads; unset means one per logical core.
    pub runtime_threads: Option<usize>,
    /// A file that receives a copy of the log.
    pub log_file: Option<String>,
    /// Whether search requests go unlogged.
    pub silent_search: bool,
}

/// How the logger is to be installed.
#[derive(Debug)]
pub struct LoggerSetup {
    pub level: LogLevel,
    pub log_file: Option<String>,
    pub pretty: bool,
}

/// Derives the logger configuration from the launch settings: the level and
/// the log file are taken over, and colours are on unless switched off.
pub fn setup(config: &Settings) -> (logger: LoggerSetup)
    ensures
        logger.level == config.log_level,
        text_of(logger.log_file) == text_of(config.log_file),
        logger.pretty == (config.pretty_logs != Some(false)),
{
    let pretty = match config.pretty_logs {
        Some(choice) => choice,
        None => true,
    };
    let log_file = match &config.log_file {
        Some(path) => Some(path.clone()),
        None => None,
    };
    LoggerSetup { level: config.log_level, log_file, pretty }
}

/// The number of runtime threads to start: the configured number, or one per
/// logical core where none is configured.
pub fn runtime_threads(config: &Settings, logical_cores: usize) -> (threads: usize)
    ensures
        threads == match config.runtime_threads {
            Some(n) => n,
            None => logical_cores,
        },
{
    match config.runtime_threads {
        Some(n) => n,
        None => logical_cores,
    }
}

/// Whether authorisation is enforced, and the super user key if it is.
pub fn auth_settings(config: &Settings) -> (r: (bool, String))
    ensures
        r.0 == (config.super_user_key is Some),
        r.1@ == match config.super_user_key {
            Some(key) => key@,
            None => Seq::<char>::empty(),
        },
{
    match &config.super_user_key {
        Some(key) => (true, key.clone()),
        None => (false, String::new()),
    }
}

/// Whether search requests are logged.
pub fn log_search(config: &Settings) -> (r: bool)
    ensures
        r == !config.silent_search,
{
    !config.silent_search
}

} // verus!
