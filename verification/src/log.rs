//! Structured logging: JSON lines on stderr, with correlation fields.

use vstd::prelude::*;
use std::io::Write;
use crate::jsontext::{keys_sorted, object_of, object_text, pair_texts, set_member, sorted_map};
use crate::time::now_iso8601;

verus! {

/// Log severity, from least to most severe.
#[derive(Clone, Copy, Debug, PartialEq, Eq, Structural)]
pub enum LogLevel {
    Trace,
    Debug,
    Info,
    Warn,
    Error,
}

/// The severity rank of a level (Trace lowest).
pub open spec fn level_rank(l: LogLevel) -> int {
    match l {
        LogLevel::Trace => 0,
        LogLevel::Debug => 1,
        LogLevel::Info => 2,
        LogLevel::Warn => 3,
        LogLevel::Error => 4,
    }
}

/// The name of a level.
pub open spec fn level_name(l: LogLevel) -> Seq<char> {
    match l {
        LogLevel::Trace => "TRACE"@,
        LogLevel::Debug => "DEBUG"@,
        LogLevel::Info => "INFO"@,
        LogLevel::Warn => "WARN"@,
        LogLevel::Error => "ERROR"@,
    }
}

impl LogLevel {
    /// The name of the level.
    pub fn as_str(&self) -> (r: &'static str)
        ensures
            r@ == level_name(*self),
    {
        match self {
            LogLevel::Trace => "TRACE",
            LogLevel::Debug => "DEBUG",
            LogLevel::Info => "INFO",
            LogLevel::Warn => "WARN",
            LogLevel::Error => "ERROR",
        }
    }

    /// The severity rank of the level.
    pub fn rank(&self) -> (r: u8)
        ensures
            r == level_rank(*self),
    {
        match self {
            LogLevel::Trace => 0,
            LogLevel::Debug => 1,
            LogLevel::Info => 2,
            LogLevel::Warn => 3,
            LogLevel::Error => 4,
        }
    }
}

/// A destination for log entries.
pub trait Logger {
    /// The lowest level the logger writes.
    spec fn threshold(&self) -> LogLevel;

    /// Write an entry with correlation fields.
    fn log(&self, level: LogLevel, fields: &[(&str, &str)], message: &str);

    /// The lowest level the logger writes.
    fn min_level(&self) -> (l: LogLevel)
        ensures
            l == self.threshold(),
    ;

    /// Whether entries of a level are written: those at or above the
    /// lowest level.
    fn is_enabled(&self, level: LogLevel) -> (r: bool)
        ensures
            r == (level_rank(level) >= level_rank(self.threshold())),
    {
        level.rank() >= self.min_level().rank()
    }
}

/// The members of a log entry, in the order they are set: time, level,
/// message, then the fields (a later member of the same key wins).
pub open spec fn entry_members(ts: Seq<char>, level: LogLevel, fields: Seq<(&str, &str)>, message: Seq<char>) -> Map<
    Seq<char>,
    Seq<char>,
> {
    fields_map(
        Map::empty().insert("ts"@, ts).insert("level"@, level_name(level)).insert("msg"@, message),
        fields,
    )
}

/// A map with a sequence of fields set in order.
pub open spec fn fields_map(m: Map<Seq<char>, Seq<char>>, fields: Seq<(&str, &str)>) -> Map<Seq<char>, Seq<char>>
    decreases fields.len(),
{
    if fields.len() == 0 {
        m
    } else {
        fields_map(m, fields.drop_last()).insert(fields.last().0@, fields.last().1@)
    }
}

/// `s` is the JSON line of a log entry: an object of its members in order
/// of key.
pub open spec fn is_log_line(s: Seq<char>, ts: Seq<char>, level: LogLevel, fields: Seq<(&str, &str)>, message: Seq<char>) -> bool {
    exists|pairs: Seq<(String, String)>| keys_sorted(pairs) && sorted_map(pairs) == entry_members(ts, level, fields, message)
        && s == object_text(pair_texts(pairs))
}

/// The JSON line of a log entry: an object of its members in order of key.
pub fn log_line(ts: &str, level: LogLevel, fields: &[(&str, &str)], message: &str) -> (s: String)
    ensures
        is_log_line(s@, ts@, level, fields@, message@),
{
    let mut pairs: Vec<(String, String)> = Vec::new();
    proof {
        assert(sorted_map(pairs@) =~= Map::empty());
    }
    set_member(&mut pairs, "ts".to_string(), ts.to_string());
    set_member(&mut pairs, "level".to_string(), level.as_str().to_string());
    set_member(&mut pairs, "msg".to_string(), message.to_string());
    let mut i: usize = 0;
    while i < fields.len()
        invariant
            i <= fields@.len(),
            keys_sorted(pairs@),
            sorted_map(pairs@) == fields_map(
                Map::empty().insert("ts"@, ts@).insert("level"@, level_name(level)).insert("msg"@, message@),
                fields@.take(i as int),
            ),
        decreases fields@.len() - i,
    {
        let (k, v) = fields[i];
        set_member(&mut pairs, k.to_string(), v.to_string());
        proof {
            assert(fields@.take(i + 1).drop_last() =~= fields@.take(i as int));
            assert(fields@.take(i + 1).last() == fields@[i as int]);
        }
        i += 1;
    }
    assert(fields@.take(fields@.len() as int) =~= fields@);
    object_of(&pairs)
}

/// Write a line to standard error (`writeln!` on `std::io::stderr()`);
/// a failed write is ignored.
#[verifier::external_body]
fn write_stderr_line(line: &str) {
    let _ = writeln!(std::io::stderr(), "{}", line);
}

/// JSON-lines logger that writes to stderr.
pub struct StderrJsonLogger {
    min_level: LogLevel,
}

impl StderrJsonLogger {
    /// A logger that writes entries at or above a level.
    pub fn new(min_level: LogLevel) -> (l: Self)
        ensures
            l.threshold() == min_level,
    {
        StderrJsonLogger { min_level }
    }
}

impl StderrJsonLogger {
    /// The line the logger writes for an entry at time `ts`: none below
    /// its level, else the entry's JSON line.
    pub fn entry(&self, ts: &str, level: LogLevel, fields: &[(&str, &str)], message: &str) -> (r: Option<String>)
        ensures
            r is Some <==> level_rank(level) >= level_rank(self.threshold()),
            r matches Some(s) ==> is_log_line(s@, ts@, level, fields@, message@),
    {
        if !self.is_enabled(level) {
            return None;
        }
        Some(log_line(ts, level, fields, message))
    }
}

impl Logger for StderrJsonLogger {
    closed spec fn threshold(&self) -> LogLevel {
        self.min_level
    }

    fn log(&self, level: LogLevel, fields: &[(&str, &str)], message: &str) {
        if !self.is_enabled(level) {
            return;
        }
        let ts = now_iso8601();
        if let Some(line) = self.entry(ts.as_str(), level, fields, message) {
            write_stderr_line(line.as_str());
        }
    }

    fn min_level(&self) -> (l: LogLevel) {
        self.min_level
    }
}

impl Default for StderrJsonLogger {
    fn default() -> (l: Self)
        ensures
            l.threshold() == LogLevel::Info,
    {
        Self::new(LogLevel::Info)
    }
}

/// Logger that discards all output.
pub struct NullLogger;

impl Logger for NullLogger {
    open spec fn threshold(&self) -> LogLevel {
        LogLevel::Error
    }

    fn log(&self, level: LogLevel, fields: &[(&str, &str)], message: &str) {
    }

    fn min_level(&self) -> (l: LogLevel) {
        LogLevel::Error
    }
}

} // verus!
