//! Logging settings and the labels of log levels.
use vstd::prelude::*;

verus! {

/// How much to log.
#[derive(Debug, Clone, Copy, PartialEq, Eq, Structural)]
pub enum LogLevel {
    Error,
    Warn,
    Info,
    Debug,
    Trace,
}

/// Logging to files.
#[derive(Debug, Clone)]
pub struct FileLoggingConfig {
    pub enabled: bool,
    pub path: String,
    pub max_size: usize,
    pub max_files: usize,
}

/// Logging settings.
#[derive(Debug, Clone)]
pub struct LoggerConfig {
    pub level: LogLevel,
    pub show_timestamps: bool,
    pub show_target: bool,
    pub file_logging: Option<FileLoggingConfig>,
}

impl Default for LoggerConfig {
    /// Informational messages with timestamps, without targets, to the
    /// terminal only.
    fn default() -> (r: Self)
        ensures
            r.level == LogLevel::Info,
            r.show_timestamps,
            !r.show_target,
            r.file_logging is None,
    {
        LoggerConfig { level: LogLevel::Info, show_timestamps: true, show_target: false, file_logging: None }
    }
}

/// The label of each log level in formatted log lines.
pub open spec fn label_spec(level: LogLevel) -> Seq<char> {
    match level {
        LogLevel::Error => "ERROR"@,
        LogLevel::Warn => "WARN"@,
        LogLevel::Info => "INFO"@,
        LogLevel::Debug => "DEBUG"@,
        LogLevel::Trace => "TRACE"@,
    }
}

/// Formats log lines: the level's label, then the message.
#[derive(Debug, Clone, Copy)]
pub struct DiemFormatter;

impl DiemFormatter {
    pub fn new() -> (r: Self) {
        DiemFormatter
    }

    /// The label of a log level.
    pub fn label(&self, level: LogLevel) -> (r: String)
        ensures
            r@ == label_spec(level),
    {
        match level {
            LogLevel::Error => String::from_str("ERROR"),
            LogLevel::Warn => String::from_str("WARN"),
            LogLevel::Info => String::from_str("INFO"),
            LogLevel::Debug => String::from_str("DEBUG"),
            LogLevel::Trace => String::from_str("TRACE"),
        }
    }
}

} // verus!
