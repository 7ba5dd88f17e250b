//! Severity of a log record, with its total order.

use crate::text::{same_text, to_upper, uppercase};
use vstd::prelude::*;
use vstd::std_specs::cmp::{PartialOrdSpec, PartialOrdSpecImpl};

verus! {

/// The six severities, from least to most severe.
#[derive(Debug, Clone, Copy, PartialEq, Eq, Structural, Ord, Hash)]
pub enum LogLevel {
    Trace,
    Debug,
    Info,
    Warn,
    Error,
    Fatal,
}

impl LogLevel {
    /// Position of the severity in the order: 0 for `Trace` up to 5 for `Fatal`.
    pub open spec fn rank(self) -> int {
        match self {
            LogLevel::Trace => 0,
            LogLevel::Debug => 1,
            LogLevel::Info => 2,
            LogLevel::Warn => 3,
            LogLevel::Error => 4,
            LogLevel::Fatal => 5,
        }
    }

    /// Executable form of [`LogLevel::rank`].
    pub fn rank_value(self) -> (r: u8)
        ensures
            r as int == self.rank(),
    {
        match self {
            LogLevel::Trace => 0,
            LogLevel::Debug => 1,
            LogLevel::Info => 2,
            LogLevel::Warn => 3,
            LogLevel::Error => 4,
            LogLevel::Fatal => 5,
        }
    }

    /// The three-letter badge of the severity.
    pub open spec fn badge(self) -> Seq<char> {
        match self {
            LogLevel::Trace => "TRC"@,
            LogLevel::Debug => "DBG"@,
            LogLevel::Info => "INF"@,
            LogLevel::Warn => "WRN"@,
            LogLevel::Error => "ERR"@,
            LogLevel::Fatal => "FTL"@,
        }
    }

    /// The three-letter badge shown for the severity.
    pub fn short_name(self) -> (r: &'static str)
        ensures
            r@ == self.badge(),
    {
        match self {
            LogLevel::Trace => "TRC",
            LogLevel::Debug => "DBG",
            LogLevel::Info => "INF",
            LogLevel::Warn => "WRN",
            LogLevel::Error => "ERR",
            LogLevel::Fatal => "FTL",
        }
    }

    /// Whether `self` is at least as severe as `min`.
    pub fn at_least(self, min: LogLevel) -> (r: bool)
        ensures
            r == (self.rank() >= min.rank()),
    {
        self.rank_value() >= min.rank_value()
    }
}

impl PartialOrd for LogLevel {
    fn partial_cmp(&self, other: &LogLevel) -> (r: Option<core::cmp::Ordering>) {
        let a = self.rank_value();
        let b = other.rank_value();
        if a < b {
            Some(core::cmp::Ordering::Less)
        } else if a == b {
            Some(core::cmp::Ordering::Equal)
        } else {
            Some(core::cmp::Ordering::Greater)
        }
    }
}

impl PartialOrdSpecImpl for LogLevel {
    open spec fn obeys_partial_cmp_spec() -> bool {
        true
    }

    open spec fn partial_cmp_spec(&self, other: &LogLevel) -> Option<core::cmp::Ordering> {
        if self.rank() < other.rank() {
            Some(core::cmp::Ordering::Less)
        } else if self.rank() == other.rank() {
            Some(core::cmp::Ordering::Equal)
        } else {
            Some(core::cmp::Ordering::Greater)
        }
    }
}

/// The severity that an upper-case keyword stands for.
pub open spec fn level_of_keyword(word: Seq<char>) -> Option<LogLevel> {
    if word == "TRACE"@ {
        Some(LogLevel::Trace)
    } else if word == "DEBUG"@ {
        Some(LogLevel::Debug)
    } else if word == "INFO"@ || word == "NOTICE"@ {
        Some(LogLevel::Info)
    } else if word == "WARN"@ || word == "WARNING"@ {
        Some(LogLevel::Warn)
    } else if word == "ERROR"@ || word == "SEVERE"@ {
        Some(LogLevel::Error)
    } else if word == "FATAL"@ || word == "CRITICAL"@ || word == "EMERGENCY"@ || word == "EMERG"@
        || word == "ALERT"@ || word == "PANIC"@ {
        Some(LogLevel::Fatal)
    } else {
        None
    }
}

/// The severity named by `word`, whatever its case.
pub open spec fn level_of_word(word: Seq<char>) -> Option<LogLevel> {
    level_of_keyword(uppercase(word))
}

/// The severity that an upper-case keyword stands for, if it is one of the
/// known keywords.
pub fn keyword_level(word: &str) -> (r: Option<LogLevel>)
    ensures
        r == level_of_keyword(word@),
{
    if same_text(word, "TRACE") {
        Some(LogLevel::Trace)
    } else if same_text(word, "DEBUG") {
        Some(LogLevel::Debug)
    } else if same_text(word, "INFO") || same_text(word, "NOTICE") {
        Some(LogLevel::Info)
    } else if same_text(word, "WARN") || same_text(word, "WARNING") {
        Some(LogLevel::Warn)
    } else if same_text(word, "ERROR") || same_text(word, "SEVERE") {
        Some(LogLevel::Error)
    } else if same_text(word, "FATAL") || same_text(word, "CRITICAL") || same_text(
        word,
        "EMERGENCY",
    ) || same_text(word, "EMERG") || same_text(word, "ALERT") || same_text(word, "PANIC") {
        Some(LogLevel::Fatal)
    } else {
        None
    }
}

/// The severity named by `word`, whatever its case: the word is put in upper
/// case and looked up among the keywords.
pub fn parse_level_str(word: &str) -> (r: Option<LogLevel>)
    ensures
        r == level_of_word(word@),
{
    let upper = to_upper(word);
    keyword_level(upper.as_str())
}

/// The severity of a numeric level, by tens: 1 to 10 is `Trace`, 11 to 20
/// `Debug`, and so on up to 51 to 60, `Fatal`.
pub open spec fn level_of_number(n: int) -> Option<LogLevel> {
    if 1 <= n <= 10 {
        Some(LogLevel::Trace)
    } else if 11 <= n <= 20 {
        Some(LogLevel::Debug)
    } else if 21 <= n <= 30 {
        Some(LogLevel::Info)
    } else if 31 <= n <= 40 {
        Some(LogLevel::Warn)
    } else if 41 <= n <= 50 {
        Some(LogLevel::Error)
    } else if 51 <= n <= 60 {
        Some(LogLevel::Fatal)
    } else {
        None
    }
}

/// The severity of a numeric level as structured loggers write it.
pub fn parse_numeric_level(n: u64) -> (r: Option<LogLevel>)
    ensures
        r == level_of_number(n as int),
{
    if n == 0 || n > 60 {
        None
    } else if n <= 10 {
        Some(LogLevel::Trace)
    } else if n <= 20 {
        Some(LogLevel::Debug)
    } else if n <= 30 {
        Some(LogLevel::Info)
    } else if n <= 40 {
        Some(LogLevel::Warn)
    } else if n <= 50 {
        Some(LogLevel::Error)
    } else {
        Some(LogLevel::Fatal)
    }
}

/// The severity of an HTTP status: server errors are `Error`, client errors
/// `Warn`, everything else `Info`.
pub open spec fn level_of_status(status: int) -> LogLevel {
    if 500 <= status <= 599 {
        LogLevel::Error
    } else if 400 <= status <= 499 {
        LogLevel::Warn
    } else {
        LogLevel::Info
    }
}

/// The severity of an HTTP status.
pub fn status_to_level(status: u16) -> (r: Option<LogLevel>)
    ensures
        r == Some(level_of_status(status as int)),
{
    if 500 <= status && status <= 599 {
        Some(LogLevel::Error)
    } else if 400 <= status && status <= 499 {
        Some(LogLevel::Warn)
    } else {
        Some(LogLevel::Info)
    }
}

/// What comparing two severities with `<`, `==` and `>` gives.
pub open spec fn order_of(a: LogLevel, b: LogLevel) -> Option<core::cmp::Ordering> {
    PartialOrdSpec::partial_cmp_spec(&a, &b)
}

/// The severities are totally ordered: of two severities exactly one of
/// less, equal and greater holds, and `Trace < Debug < Info < Warn < Error
/// < Fatal`.
pub proof fn lemma_level_order_total(a: LogLevel, b: LogLevel)
    ensures
        order_of(a, b) is Some,
        (order_of(a, b) == Some(core::cmp::Ordering::Less)) <==> a.rank() < b.rank(),
        (order_of(a, b) == Some(core::cmp::Ordering::Equal)) <==> a == b,
        (order_of(a, b) == Some(core::cmp::Ordering::Greater)) <==> a.rank() > b.rank(),
        (order_of(a, b) == Some(core::cmp::Ordering::Less)) <==> (order_of(b, a) == Some(
            core::cmp::Ordering::Greater,
        )),
        order_of(LogLevel::Trace, LogLevel::Debug) == Some(core::cmp::Ordering::Less),
        order_of(LogLevel::Debug, LogLevel::Info) == Some(core::cmp::Ordering::Less),
        order_of(LogLevel::Info, LogLevel::Warn) == Some(core::cmp::Ordering::Less),
        order_of(LogLevel::Warn, LogLevel::Error) == Some(core::cmp::Ordering::Less),
        order_of(LogLevel::Error, LogLevel::Fatal) == Some(core::cmp::Ordering::Less),
{
}

/// The order of the severities is transitive.
pub proof fn lemma_level_order_transitive(a: LogLevel, b: LogLevel, c: LogLevel)
    requires
        order_of(a, b) == Some(core::cmp::Ordering::Less),
        order_of(b, c) == Some(core::cmp::Ordering::Less),
    ensures
        order_of(a, c) == Some(core::cmp::Ordering::Less),
{
}

} // verus!
