//! Forwarding of log records to a host-registered sink.
//!
//! The host hands a callback in as an opaque token; the logger keeps one
//! slot for it and decides, per record, whether and how a line is emitted.
//! The host performs the actual call on the token this module hands back.

use vstd::prelude::*;

verus! {

/// A log record's severity, most severe first.
#[derive(Clone, Copy, Debug, PartialEq, Eq, Structural)]
pub enum LogLevel {
    Error,
    Warn,
    Info,
    Debug,
    Trace,
}

/// The rank of a severity: lower is more severe.
pub open spec fn level_rank(l: LogLevel) -> int {
    match l {
        LogLevel::Error => 1,
        LogLevel::Warn => 2,
        LogLevel::Info => 3,
        LogLevel::Debug => 4,
        LogLevel::Trace => 5,
    }
}

/// The tag a severity is reported under.
pub open spec fn level_tag(l: LogLevel) -> Seq<char> {
    match l {
        LogLevel::Error => "error"@,
        LogLevel::Warn => "warn"@,
        LogLevel::Info => "info"@,
        LogLevel::Debug => "debug"@,
        LogLevel::Trace => "trace"@,
    }
}

/// The sink slot log records are forwarded through.
pub struct JsLogger {
    /// The host's callback, when one is registered.
    pub sink: Option<u64>,
    /// The least severe rank still emitted.
    pub max_rank: u8,
}

impl JsLogger {
    /// A logger with no sink: nothing is emitted.
    pub fn new() -> (r: JsLogger)
        ensures
            r.sink is None,
            r.max_rank == 5,
    {
        JsLogger { sink: None, max_rank: 5 }
    }

    /// Registers the host's callback. The report whether this is the
    /// first registration tells the host to install the process-wide
    /// forwarding hook exactly once.
    pub fn set_logger(&mut self, log_cb: u64) -> (init: bool)
        ensures
            final(self).sink == Some(log_cb),
            final(self).max_rank == 5,
            init == (old(self).sink is None),
    {
        let init = self.sink.is_none();
        self.sink = Some(log_cb);
        self.max_rank = 5;
        init
    }

    /// Whether a record of this severity is emitted at all.
    pub fn enabled(&self, level: LogLevel) -> (r: bool)
        ensures
            r == (level_rank(level) <= self.max_rank as int),
    {
        let rank: u8 = match level {
            LogLevel::Error => 1,
            LogLevel::Warn => 2,
            LogLevel::Info => 3,
            LogLevel::Debug => 4,
            LogLevel::Trace => 5,
        };
        rank <= self.max_rank
    }

    /// Decides a record's fate: the sink token to call and the severity
    /// tag to pass, or nothing when no sink is registered or the record
    /// is filtered out.
    pub fn route(&self, level: LogLevel) -> (r: Option<(u64, &'static str)>)
        ensures
            match r {
                Some(t) => {
                    &&& self.sink == Some(t.0)
                    &&& level_rank(level) <= self.max_rank as int
                    &&& t.1@ == level_tag(level)
                },
                None => self.sink is None || level_rank(level) > self.max_rank as int,
            },
    {
        match self.sink {
            None => None,
            Some(cb) => {
                if !self.enabled(level) {
                    return None;
                }
                let tag: &'static str = match level {
                    LogLevel::Error => "error",
                    LogLevel::Warn => "warn",
                    LogLevel::Info => "info",
                    LogLevel::Debug => "debug",
                    LogLevel::Trace => "trace",
                };
                Some((cb, tag))
            },
        }
    }
}

} // verus!
