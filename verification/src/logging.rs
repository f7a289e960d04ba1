//! Collection of tagged log lines for one build run.
//!
//! Lines are formatted as `[timestamp] [level] message` and kept in
//! emission order. Timestamps are plain strings handed in by the
//! caller, so formatting stays a pure function.

use vstd::prelude::*;

verus! {

/// Severity of one log line.
#[derive(Debug)]
pub enum LogLevel {
    Debug,
    Warning,
    Info,
    Error,
}

/// The tag a level prints as.
pub open spec fn level_tag(level: LogLevel) -> Seq<char> {
    match level {
        LogLevel::Debug => "Debug"@,
        LogLevel::Warning => "Warning"@,
        LogLevel::Info => "Info"@,
        LogLevel::Error => "Error"@,
    }
}

/// Whether a message of this level is recorded; every level is.
pub fn should_log(_level: &LogLevel) -> (r: bool)
    ensures
        r,
{
    true
}

/// The full line for a timestamp, a level and a message.
pub open spec fn log_line_spec(ts: Seq<char>, level: LogLevel, msg: Seq<char>) -> Seq<char> {
    "["@ + ts + "] ["@ + level_tag(level) + "] "@ + msg
}

fn level_tag_exec(level: &LogLevel) -> (r: &'static str)
    ensures
        r@ == level_tag(*level),
{
    match level {
        LogLevel::Debug => "Debug",
        LogLevel::Warning => "Warning",
        LogLevel::Info => "Info",
        LogLevel::Error => "Error",
    }
}

/// Formats one line as `[timestamp] [level] message`.
pub fn log_with_timestamp(timestamp: &str, msg: &str, level: LogLevel) -> (r: String)
    ensures
        r@ == log_line_spec(timestamp@, level, msg@),
{
    let mut m = String::new();
    m.append("[");
    m.append(timestamp);
    m.append("] [");
    m.append(level_tag_exec(&level));
    m.append("] ");
    m.append(msg);
    proof {
        assert(m@ =~= log_line_spec(timestamp@, level, msg@));
    }
    m
}

/// Collects the log lines of one run, in emission order.
#[derive(Debug)]
pub struct Logger {
    pub logs: Vec<String>,
}

impl Logger {
    /// An empty log.
    pub fn new() -> (r: Logger)
        ensures
            r.logs@.len() == 0,
    {
        Logger { logs: Vec::new() }
    }

    /// Formats a line, appends it to the log and returns it.
    pub fn log(&mut self, timestamp: &str, message: &str, level: LogLevel) -> (r: String)
        ensures
            r@ == log_line_spec(timestamp@, level, message@),
            final(self).logs@ == old(self).logs@.push(r),
    {
        let line = log_with_timestamp(timestamp, message, level);
        let copy = line.clone();
        self.logs.push(copy);
        line
    }

    /// Records a line at the informational level.
    pub fn info(&mut self, timestamp: &str, message: &str) -> (r: String)
        ensures
            r@ == log_line_spec(timestamp@, LogLevel::Info, message@),
            final(self).logs@ == old(self).logs@.push(r),
    {
        self.log(timestamp, message, LogLevel::Info)
    }

    /// Records a line at the error level.
    pub fn error(&mut self, timestamp: &str, message: &str) -> (r: String)
        ensures
            r@ == log_line_spec(timestamp@, LogLevel::Error, message@),
            final(self).logs@ == old(self).logs@.push(r),
    {
        self.log(timestamp, message, LogLevel::Error)
    }

    /// Records a line at the debug level.
    pub fn debug(&mut self, timestamp: &str, message: &str) -> (r: String)
        ensures
            r@ == log_line_spec(timestamp@, LogLevel::Debug, message@),
            final(self).logs@ == old(self).logs@.push(r),
    {
        self.log(timestamp, message, LogLevel::Debug)
    }

    /// Records a line at the warning level.
    pub fn warning(&mut self, timestamp: &str, message: &str) -> (r: String)
        ensures
            r@ == log_line_spec(timestamp@, LogLevel::Warning, message@),
            final(self).logs@ == old(self).logs@.push(r),
    {
        self.log(timestamp, message, LogLevel::Warning)
    }

    /// The lines collected so far.
    pub fn get_logs(&self) -> (r: &Vec<String>)
        ensures
            r@ == self.logs@,
    {
        &self.logs
    }
}

} // verus!