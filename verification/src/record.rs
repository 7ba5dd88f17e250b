//! The normalised record that every input line becomes.

use crate::level::LogLevel;
use crate::text::owned;
use vstd::prelude::*;

verus! {

/// The formats that the engine recognises.
#[derive(Debug, Clone, Copy, PartialEq, Eq, Structural)]
pub enum LogFormat {
    Json,
    Syslog,
    Logfmt,
    Klog,
    Log4j,
    PythonLog,
    AccessLog,
    Plain,
}

impl LogFormat {
    /// The name of the format as the viewer shows it.
    pub open spec fn label_of(self) -> Seq<char> {
        match self {
            LogFormat::Json => "JSON"@,
            LogFormat::Syslog => "Syslog"@,
            LogFormat::Logfmt => "Logfmt"@,
            LogFormat::Klog => "Klog"@,
            LogFormat::Log4j => "Log4j"@,
            LogFormat::PythonLog => "Python"@,
            LogFormat::AccessLog => "Access"@,
            LogFormat::Plain => "Plain"@,
        }
    }

    /// The name of the format as the viewer shows it.
    pub fn label(self) -> (r: &'static str)
        ensures
            r@ == self.label_of(),
    {
        match self {
            LogFormat::Json => "JSON",
            LogFormat::Syslog => "Syslog",
            LogFormat::Logfmt => "Logfmt",
            LogFormat::Klog => "Klog",
            LogFormat::Log4j => "Log4j",
            LogFormat::PythonLog => "Python",
            LogFormat::AccessLog => "Access",
            LogFormat::Plain => "Plain",
        }
    }
}

/// One input line, parsed.
#[derive(Debug, Clone)]
pub struct ParsedLine {
    /// The line as it was read.
    pub raw: String,
    pub level: Option<LogLevel>,
    /// The timestamp as the line writes it, not yet parsed.
    pub timestamp: Option<String>,
    pub message: String,
    /// The format under which the line was parsed.
    pub format: LogFormat,
    /// The pretty-printed document, for lines that hold JSON.
    pub pretty_json: Option<String>,
    /// The fields that are not level, timestamp or message, in order.
    pub extra_fields: Vec<(String, String)>,
    /// The line with each variable token replaced by a placeholder.
    pub template: String,
}

/// What a [`ParsedLine`] holds, as mathematical values.
pub struct Record {
    pub raw: Seq<char>,
    pub level: Option<LogLevel>,
    pub timestamp: Option<Seq<char>>,
    pub message: Seq<char>,
    pub format: LogFormat,
    pub pretty_json: Option<Seq<char>>,
    pub extra_fields: Seq<(Seq<char>, Seq<char>)>,
    pub template: Seq<char>,
}

impl View for ParsedLine {
    type V = Record;

    open spec fn view(&self) -> Record {
        Record {
            raw: self.raw@,
            level: self.level,
            timestamp: self.timestamp.deep_view(),
            message: self.message@,
            format: self.format,
            pretty_json: self.pretty_json.deep_view(),
            extra_fields: self.extra_fields.deep_view(),
            template: self.template@,
        }
    }
}

/// The record of a line in which nothing was recognised: the whole line is
/// the message.
pub open spec fn bare_record(raw: Seq<char>, format: LogFormat) -> Record {
    Record {
        raw,
        level: None,
        timestamp: None,
        message: raw,
        format,
        pretty_json: None,
        extra_fields: Seq::empty(),
        template: Seq::empty(),
    }
}

/// The views of the lines of a slice.
pub open spec fn records_of(lines: Seq<ParsedLine>) -> Seq<Record> {
    Seq::new(lines.len(), |i: int| lines[i]@)
}

impl ParsedLine {
    /// The record of a line in which nothing was recognised.
    pub fn bare(raw: &str, format: LogFormat) -> (r: ParsedLine)
        ensures
            r@ == bare_record(raw@, format),
    {
        let r = ParsedLine {
            raw: owned(raw),
            level: None,
            timestamp: None,
            message: owned(raw),
            format,
            pretty_json: None,
            extra_fields: Vec::new(),
            template: String::new(),
        };
        assert(r.extra_fields.deep_view() =~= Seq::empty());
        r
    }
}

} // verus!
