//! What is reported to the user, and how much of it.

use vstd::prelude::*;

verus! {

/// How much a logger reports. The levels are ordered as they stand here,
/// `Error` first.
#[derive(Debug, Clone, Copy, PartialEq, Eq, PartialOrd, Ord, Structural)]
pub enum LoggingVerbosity {
    Error,
    Warn,
    Info,
}

/// Something that reports what happens, each message under a headline.
pub trait Logging {
    /// Reports what went well.
    fn info(&self, headline: &str, message: &str);

    /// Reports what needs attention.
    fn warn(&self, headline: &str, message: &str);

    /// Reports what went wrong.
    fn error(&self, headline: &str, message: &str);

    /// Reports whatever the verbosity.
    fn log(&self, headline: &str, message: &str);
}

/// Decides what is reported.
#[derive(Debug)]
pub struct Logger {
    verbosity: LoggingVerbosity,
}

/// The place of a level in the order of the levels.
pub open spec fn rank(level: LoggingVerbosity) -> int {
    match level {
        LoggingVerbosity::Error => 0,
        LoggingVerbosity::Warn => 1,
        LoggingVerbosity::Info => 2,
    }
}

impl Default for LoggingVerbosity {
    fn default() -> (level: Self)
        ensures
            level == LoggingVerbosity::Error,
    {
        LoggingVerbosity::Error
    }
}

impl LoggingVerbosity {
    fn rank(&self) -> (r: u8)
        ensures
            r == rank(*self),
    {
        match self {
            LoggingVerbosity::Error => 0,
            LoggingVerbosity::Warn => 1,
            LoggingVerbosity::Info => 2,
        }
    }
}

impl View for Logger {
    type V = LoggingVerbosity;

    closed spec fn view(&self) -> LoggingVerbosity {
        self.verbosity
    }
}

impl Default for Logger {
    fn default() -> (logger: Self)
        ensures
            logger@ == LoggingVerbosity::Error,
    {
        Logger { verbosity: LoggingVerbosity::Error }
    }
}

impl Logger {
    /// A logger of the given verbosity.
    pub fn new(verbosity: LoggingVerbosity) -> (logger: Self)
        ensures
            logger@ == verbosity,
    {
        Logger { verbosity }
    }

    /// Whether a message of the given level is reported: it is where the
    /// verbosity of the logger comes no later in the order than the level.
    pub fn reports(&self, level: LoggingVerbosity) -> (reported: bool)
        ensures
            reported == (rank(self@) <= rank(level)),
    {
        self.verbosity.rank() <= level.rank()
    }
}

} // verus!
