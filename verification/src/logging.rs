//! The logging configuration.
//!
//! Only the choices live here: where log files go, how they are named, how
//! much is recorded, and whether the terminal sees it too. Installing the
//! subscriber that honours them is I/O and happens outside the library.

use vstd::prelude::*;

verus! {

/// How much the logger records, from quietest to loudest.
#[derive(Debug, Clone, Copy, PartialEq, Eq, Structural)]
pub enum LogLevel {
    Error,
    Warn,
    Info,
    Debug,
    Trace,
}

/// The logging configuration.
#[derive(Debug)]
pub struct LoggerConfig {
    pub log_dir: String,
    pub file_prefix: String,
    pub level: LogLevel,
    pub console_output: bool,
}

impl Default for LoggerConfig {
    /// The stock configuration: daily files under `logs`, informational
    /// level, terminal output on.
    fn default() -> (r: LoggerConfig)
        ensures
            r.log_dir@ == "logs"@,
            r.file_prefix@ == "agent"@,
            r.level == LogLevel::Info,
            r.console_output,
    {
        let d: &str = "logs";
        let p: &str = "agent";
        LoggerConfig {
            log_dir: d.to_owned(),
            file_prefix: p.to_owned(),
            level: LogLevel::Info,
            console_output: true,
        }
    }
}

impl LoggerConfig {
    /// A configuration from explicit values, with terminal output on.
    pub fn new(log_dir: String, file_prefix: String, level: LogLevel) -> (r: LoggerConfig)
        ensures
            r.log_dir == log_dir,
            r.file_prefix == file_prefix,
            r.level == level,
            r.console_output,
    {
        LoggerConfig { log_dir, file_prefix, level, console_output: true }
    }

    /// The same configuration with another log directory.
    pub fn with_log_dir(self, log_dir: String) -> (r: LoggerConfig)
        ensures
            r.log_dir == log_dir,
            r.file_prefix == self.file_prefix,
            r.level == self.level,
            r.console_output == self.console_output,
    {
        LoggerConfig { log_dir, ..self }
    }

    /// The same configuration with another file name prefix.
    pub fn with_file_prefix(self, prefix: String) -> (r: LoggerConfig)
        ensures
            r.log_dir == self.log_dir,
            r.file_prefix == prefix,
            r.level == self.level,
            r.console_output == self.console_output,
    {
        LoggerConfig { file_prefix: prefix, ..self }
    }

    /// The same configuration at another level.
    pub fn with_level(self, level: LogLevel) -> (r: LoggerConfig)
        ensures
            r.log_dir == self.log_dir,
            r.file_prefix == self.file_prefix,
            r.level == level,
            r.console_output == self.console_output,
    {
        LoggerConfig { level, ..self }
    }

    /// The same configuration with terminal output switched on or off.
    pub fn with_console_output(self, enable: bool) -> (r: LoggerConfig)
        ensures
            r.log_dir == self.log_dir,
            r.file_prefix == self.file_prefix,
            r.level == self.level,
            r.console_output == enable,
    {
        LoggerConfig { console_output: enable, ..self }
    }
}

} // verus!
