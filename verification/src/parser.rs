//! Format detection and the per-format parsers.

use crate::json::{json_document, pick, read_json, Document, JsonDoc, JsonMember, Member};
use crate::level::{
    level_of_number, level_of_status, level_of_word, parse_level_str, parse_numeric_level,
    status_to_level,
};
use crate::pattern::{
    all_captures, all_matches, capture_all, capture_texts, captured, find_all, first_match,
    first_text, gaps_of, group_texts, groups_in_text, has_match, leading_groups, match_text,
    replace_each, required_groups, spliced, texts_of, Span,
};
use crate::record::{bare_record, Record};
use crate::text::{
    decimal, decimal_of, decimal_text, owned, parse_decimal, same_text, starts_with_char, trim,
    trim_final_newlines,
    trimmed, without_final_newlines,
};
use vstd::prelude::*;
use vstd::string::StringExecFns;

pub use crate::level::LogLevel;
pub use crate::record::{LogFormat, ParsedLine};

verus! {

/// BSD syslog header: `Mon DD HH:MM:SS host rest`.
pub const SYSLOG_PATTERN: &'static str =
    r"^([A-Z][a-z]{2}\s+\d{1,2}\s+\d{2}:\d{2}:\d{2})\s+(\S+)\s+(.+)$";

/// A leading ISO-8601-like timestamp.
pub const PLAIN_TIMESTAMP_PATTERN: &'static str = r"^(\d{4}-\d{2}-\d{2}[T ]\d{2}:\d{2}:\d{2}[^\s]*)";

/// One `key=value` token of a logfmt line.
pub const LOGFMT_TOKEN_PATTERN: &'static str = r"(?:^|\s)\w[\w.]*=\S+";

/// A level keyword, in any case.
pub const LEVEL_PATTERN: &'static str =
    r"(?i)\b(TRACE|DEBUG|INFO|NOTICE|WARN(?:ING)?|ERROR|FATAL|CRITICAL|SEVERE|EMERGENCY|EMERG|ALERT|PANIC)\b";

/// Kubernetes klog: `I0115 08:30:00.000000 12345 file.go:42] message`.
pub const KLOG_PATTERN: &'static str =
    r"^([IWEF])(\d{4}) (\d{2}:\d{2}:\d{2}\.\d+)\s+(\d+) ([^\]]+)\] (.*)$";

/// Log4j: `2024-01-15 08:30:00.123 [thread] LEVEL com.example.Class - message`.
pub const LOG4J_PATTERN: &'static str =
    r"^(\d{4}-\d{2}-\d{2}[T ]\d{2}:\d{2}:\d{2}[.,]\d+)\s+\[([^\]]+)\]\s+(\w+)\s+(\S+)\s+-\s+(.*)$";

/// Python logging: `2024-01-15 08:30:00,123 - module - LEVEL - message`.
pub const PYTHON_PATTERN: &'static str =
    r"^(\d{4}-\d{2}-\d{2} \d{2}:\d{2}:\d{2},\d+) - (\S+) - (\w+) - (.*)$";

/// Apache and Nginx combined access log.
pub const ACCESS_PATTERN: &'static str =
    r#"^(\S+) \S+ (\S+) \[([^\]]+)\] "(\S+) (\S+)[^"]*" (\d{3}) (\d+|-)(?:\s+"([^"]*)" "([^"]*)")?$"#;

/// One `key=value` pair of a logfmt line: the key, then the value between
/// double quotes or as a run without white space.
pub const LOGFMT_PAIR_PATTERN: &'static str = r#"(\w[\w.]*)=(?:"([^"]*)"|([\S]*))"#;

/// The severity of the first level keyword in `text`.
pub open spec fn level_in(text: Seq<char>) -> Option<LogLevel> {
    match match_text(LEVEL_PATTERN@, text) {
        Some(word) => level_of_word(word),
        None => None,
    }
}

/// The severity of the first level keyword in `text`, if it holds one.
pub fn scan_level(text: &str) -> (r: Option<LogLevel>)
    ensures
        r == level_in(text@),
{
    match first_text(LEVEL_PATTERN, text) {
        Some(word) => parse_level_str(word.as_str()),
        None => None,
    }
}

/// The three texts, one after the other.
pub fn join3(a: &str, b: &str, c: &str) -> (r: String)
    ensures
        r@ == a@ + b@ + c@,
{
    let mut s = owned(a);
    s.append(b);
    s.append(c);
    s
}

/// Adds the field `key` with `value` to the end of `fields`.
pub fn push_field(fields: &mut Vec<(String, String)>, key: &str, value: &str)
    ensures
        final(fields).deep_view() == old(fields).deep_view().push((key@, value@)),
{
    fields.push((owned(key), owned(value)));
    assert(fields.deep_view() =~= old(fields).deep_view().push((key@, value@)));
}

/// The record of a syslog line, from the groups of the header and the
/// severity found in the line.
pub open spec fn syslog_record_of(
    raw: Seq<char>,
    groups: Option<Seq<Option<Seq<char>>>>,
    level: Option<LogLevel>,
) -> Record {
    match leading_groups(groups, 3, 3) {
        Some(g) => Record { level, timestamp: Some(g[1]), message: g[3], ..bare_record(
            raw,
            LogFormat::Syslog,
        ) },
        None => Record { level, ..bare_record(raw, LogFormat::Syslog) },
    }
}

/// The record of a syslog line: the timestamp of the header and what follows
/// the host as the message, or the whole line where there is no header.
pub fn syslog_record(raw: &str, groups: &Option<Vec<Option<String>>>, level: Option<LogLevel>) -> (r:
    ParsedLine)
    ensures
        r@ == syslog_record_of(raw@, groups.deep_view(), level),
{
    let mut r = ParsedLine::bare(raw, LogFormat::Syslog);
    r.level = level;
    match required_groups(groups, 3, 3) {
        Some(g) => {
            r.timestamp = Some(g[1].clone());
            r.message = g[3].clone();
        },
        None => {},
    }
    r
}

/// A syslog line, parsed.
pub fn parse_syslog_line(raw: &str) -> (r: ParsedLine)
    ensures
        r@ == syslog_record_of(raw@, capture_texts(SYSLOG_PATTERN@, raw@), level_in(raw@)),
{
    let groups = captured(SYSLOG_PATTERN, raw);
    let level = scan_level(raw);
    syslog_record(raw, &groups, level)
}

/// The record of an unstructured line, from its leading timestamp and the
/// severity found in it.
pub open spec fn plain_record_of(
    raw: Seq<char>,
    timestamp: Option<Seq<char>>,
    level: Option<LogLevel>,
) -> Record {
    Record { level, timestamp, ..bare_record(raw, LogFormat::Plain) }
}

/// The record of an unstructured line: the whole line is the message.
pub fn plain_record(raw: &str, timestamp: Option<String>, level: Option<LogLevel>) -> (r:
    ParsedLine)
    ensures
        r@ == plain_record_of(raw@, timestamp.deep_view(), level),
{
    let mut r = ParsedLine::bare(raw, LogFormat::Plain);
    r.level = level;
    r.timestamp = timestamp;
    r
}

/// An unstructured line, parsed.
pub fn parse_plain_line(raw: &str) -> (r: ParsedLine)
    ensures
        r@ == plain_record_of(raw@, match_text(PLAIN_TIMESTAMP_PATTERN@, raw@), level_in(raw@)),
{
    let timestamp = first_text(PLAIN_TIMESTAMP_PATTERN, raw);
    let level = scan_level(raw);
    plain_record(raw, timestamp, level)
}

/// The severity that the leading letter of a klog line stands for.
pub open spec fn klog_level_of(letter: Seq<char>) -> Option<LogLevel> {
    if letter == "I"@ {
        Some(LogLevel::Info)
    } else if letter == "W"@ {
        Some(LogLevel::Warn)
    } else if letter == "E"@ {
        Some(LogLevel::Error)
    } else if letter == "F"@ {
        Some(LogLevel::Fatal)
    } else {
        None
    }
}

/// The severity that the leading letter of a klog line stands for.
pub fn klog_level(letter: &str) -> (r: Option<LogLevel>)
    ensures
        r == klog_level_of(letter@),
{
    if same_text(letter, "I") {
        Some(LogLevel::Info)
    } else if same_text(letter, "W") {
        Some(LogLevel::Warn)
    } else if same_text(letter, "E") {
        Some(LogLevel::Error)
    } else if same_text(letter, "F") {
        Some(LogLevel::Fatal)
    } else {
        None
    }
}

/// The record of a klog line, from the groups of its header: letter, month
/// and day, time, process id, source place and message.
pub open spec fn klog_record_of(raw: Seq<char>, groups: Option<Seq<Option<Seq<char>>>>) -> Record {
    match leading_groups(groups, 6, 6) {
        Some(g) => Record {
            level: klog_level_of(g[1]),
            timestamp: Some(g[2] + " "@ + g[3]),
            message: g[6],
            extra_fields: seq![("pid"@, g[4]), ("source"@, g[5])],
            ..bare_record(raw, LogFormat::Klog)
        },
        None => bare_record(raw, LogFormat::Klog),
    }
}

/// The record of a klog line: severity from the leading letter, the
/// timestamp as month-day and time, and the process id and source place as
/// extra fields; the bare record where the line has no klog header.
pub fn klog_record(raw: &str, groups: &Option<Vec<Option<String>>>) -> (r: ParsedLine)
    ensures
        r@ == klog_record_of(raw@, groups.deep_view()),
{
    let mut r = ParsedLine::bare(raw, LogFormat::Klog);
    match required_groups(groups, 6, 6) {
        Some(g) => {
            r.level = klog_level(g[1].as_str());
            r.timestamp = Some(join3(g[2].as_str(), " ", g[3].as_str()));
            r.message = g[6].clone();
            push_field(&mut r.extra_fields, "pid", g[4].as_str());
            push_field(&mut r.extra_fields, "source", g[5].as_str());
            assert(r.extra_fields.deep_view() =~= seq![("pid"@, g[4]@), ("source"@, g[5]@)]);
        },
        None => {},
    }
    r
}

/// A klog line, parsed.
pub fn parse_klog_line(raw: &str) -> (r: ParsedLine)
    ensures
        r@ == klog_record_of(raw@, capture_texts(KLOG_PATTERN@, raw@)),
{
    let groups = captured(KLOG_PATTERN, raw);
    klog_record(raw, &groups)
}

/// The record of a Log4j line, from the groups of its header: timestamp,
/// thread, level word, class and message.
pub open spec fn log4j_record_of(raw: Seq<char>, groups: Option<Seq<Option<Seq<char>>>>) -> Record {
    match leading_groups(groups, 5, 5) {
        Some(g) => Record {
            level: level_of_word(g[3]),
            timestamp: Some(g[1]),
            message: g[5],
            extra_fields: seq![("thread"@, g[2]), ("class"@, g[4])],
            ..bare_record(raw, LogFormat::Log4j)
        },
        None => bare_record(raw, LogFormat::Log4j),
    }
}

/// The record of a Log4j line: the fields of the header, with thread and
/// class as extra fields; the bare record where the line has no such header.
pub fn log4j_record(raw: &str, groups: &Option<Vec<Option<String>>>) -> (r: ParsedLine)
    ensures
        r@ == log4j_record_of(raw@, groups.deep_view()),
{
    let mut r = ParsedLine::bare(raw, LogFormat::Log4j);
    match required_groups(groups, 5, 5) {
        Some(g) => {
            r.level = parse_level_str(g[3].as_str());
            r.timestamp = Some(g[1].clone());
            r.message = g[5].clone();
            push_field(&mut r.extra_fields, "thread", g[2].as_str());
            push_field(&mut r.extra_fields, "class", g[4].as_str());
            assert(r.extra_fields.deep_view() =~= seq![("thread"@, g[2]@), ("class"@, g[4]@)]);
        },
        None => {},
    }
    r
}

/// A Log4j line, parsed.
pub fn parse_log4j_line(raw: &str) -> (r: ParsedLine)
    ensures
        r@ == log4j_record_of(raw@, capture_texts(LOG4J_PATTERN@, raw@)),
{
    let groups = captured(LOG4J_PATTERN, raw);
    log4j_record(raw, &groups)
}

/// The record of a Python logging line, from the groups of its header:
/// timestamp, module, level word and message.
pub open spec fn python_record_of(raw: Seq<char>, groups: Option<Seq<Option<Seq<char>>>>) -> Record {
    match leading_groups(groups, 4, 4) {
        Some(g) => Record {
            level: level_of_word(g[3]),
            timestamp: Some(g[1]),
            message: g[4],
            extra_fields: seq![("module"@, g[2])],
            ..bare_record(raw, LogFormat::PythonLog)
        },
        None => bare_record(raw, LogFormat::PythonLog),
    }
}

/// The record of a Python logging line: the fields of the header, with the
/// module as an extra field; the bare record where the line has no such
/// header.
pub fn python_record(raw: &str, groups: &Option<Vec<Option<String>>>) -> (r: ParsedLine)
    ensures
        r@ == python_record_of(raw@, groups.deep_view()),
{
    let mut r = ParsedLine::bare(raw, LogFormat::PythonLog);
    match required_groups(groups, 4, 4) {
        Some(g) => {
            r.level = parse_level_str(g[3].as_str());
            r.timestamp = Some(g[1].clone());
            r.message = g[4].clone();
            push_field(&mut r.extra_fields, "module", g[2].as_str());
        },
        None => {},
    }
    r
}

/// A Python logging line, parsed.
pub fn parse_python_log_line(raw: &str) -> (r: ParsedLine)
    ensures
        r@ == python_record_of(raw@, capture_texts(PYTHON_PATTERN@, raw@)),
{
    let groups = captured(PYTHON_PATTERN, raw);
    python_record(raw, &groups)
}

/// The status that the three characters of an access-log line write; 0
/// where they are not three digits `0` to `9`.
pub open spec fn status_of(text: Seq<char>) -> u16 {
    match decimal_of(text) {
        Some(n) => if n <= 0xffff {
            n as u16
        } else {
            0
        },
        None => 0,
    }
}

/// The status that an access-log line writes, 0 where it is no number.
pub fn status_code(text: &str) -> (r: u16)
    ensures
        r == status_of(text@),
{
    match parse_decimal(text) {
        Some(n) => if n <= 0xffff {
            n as u16
        } else {
            0
        },
        None => 0,
    }
}

/// A field that is left out where its value is a lone hyphen or absent.
pub open spec fn optional_field(key: Seq<char>, value: Option<Seq<char>>) -> Seq<
    (Seq<char>, Seq<char>),
> {
    match value {
        Some(v) => if v == "-"@ {
            Seq::empty()
        } else {
            seq![(key, v)]
        },
        None => Seq::empty(),
    }
}

/// The record of an access-log line, from the groups of the combined format:
/// address, user, timestamp, method, path, status, size and, where the line
/// has them, referer and user agent.
pub open spec fn access_record_of(raw: Seq<char>, groups: Option<Seq<Option<Seq<char>>>>) -> Record {
    match leading_groups(groups, 7, 9) {
        Some(g) => Record {
            level: Some(level_of_status(status_of(g[6]) as int)),
            timestamp: Some(g[3]),
            message: g[4] + " "@ + g[5] + " "@ + decimal_text(status_of(g[6]) as nat),
            extra_fields: seq![("ip"@, g[1])] + optional_field("user"@, Some(g[2])) + seq![
                ("bytes"@, g[7]),
            ] + optional_field("referer"@, groups->0[8]) + optional_field("ua"@, groups->0[9]),
            ..bare_record(raw, LogFormat::AccessLog)
        },
        None => bare_record(raw, LogFormat::AccessLog),
    }
}

/// Adds the field `key` to `fields` unless its value is a lone hyphen or
/// absent.
pub fn push_optional_field(fields: &mut Vec<(String, String)>, key: &str, value: &Option<String>)
    ensures
        final(fields).deep_view() == old(fields).deep_view() + optional_field(
            key@,
            value.deep_view(),
        ),
{
    match value {
        Some(v) => {
            if !same_text(v.as_str(), "-") {
                push_field(fields, key, v.as_str());
                assert(fields.deep_view() =~= old(fields).deep_view() + seq![(key@, v@)]);
            } else {
                assert(fields.deep_view() =~= old(fields).deep_view() + Seq::empty());
            }
        },
        None => {
            assert(fields.deep_view() =~= old(fields).deep_view() + Seq::empty());
        },
    }
}

/// The record of an access-log line: severity from the status, the message
/// as method, path and status, and the rest as extra fields; the bare record
/// where the line is not in the combined format.
pub fn access_record(raw: &str, groups: &Option<Vec<Option<String>>>) -> (r: ParsedLine)
    ensures
        r@ == access_record_of(raw@, groups.deep_view()),
{
    let mut r = ParsedLine::bare(raw, LogFormat::AccessLog);
    match (required_groups(groups, 7, 9), groups) {
        (Some(g), Some(all)) => {
            assert(all.deep_view().len() == all.len());
            let status = status_code(g[6].as_str());
            let status_text = decimal(status as u64);
            let mut message = join3(g[4].as_str(), " ", g[5].as_str());
            message.append(" ");
            message.append(status_text.as_str());
            r.level = status_to_level(status);
            r.timestamp = Some(g[3].clone());
            r.message = message;
            let user = Some(g[2].clone());
            let ghost f0 = r.extra_fields.deep_view();
            push_field(&mut r.extra_fields, "ip", g[1].as_str());
            push_optional_field(&mut r.extra_fields, "user", &user);
            push_field(&mut r.extra_fields, "bytes", g[7].as_str());
            push_optional_field(&mut r.extra_fields, "referer", &all[8]);
            push_optional_field(&mut r.extra_fields, "ua", &all[9]);
            assert(f0 =~= Seq::empty());
            assert(r.extra_fields.deep_view() =~= seq![("ip"@, g[1]@)] + optional_field(
                "user"@,
                Some(g[2]@),
            ) + seq![("bytes"@, g[7]@)] + optional_field("referer"@, all.deep_view()[8])
                + optional_field("ua"@, all.deep_view()[9]));
        },
        _ => {},
    }
    r
}

/// An access-log line, parsed.
pub fn parse_access_log_line(raw: &str) -> (r: ParsedLine)
    ensures
        r@ == access_record_of(raw@, capture_texts(ACCESS_PATTERN@, raw@)),
{
    let groups = captured(ACCESS_PATTERN, raw);
    access_record(raw, &groups)
}

/// Whether a logfmt key names the level.
pub open spec fn is_level_key(key: Seq<char>) -> bool {
    key == "level"@ || key == "severity"@ || key == "log.level"@
}

/// Whether a logfmt key names the timestamp.
pub open spec fn is_time_key(key: Seq<char>) -> bool {
    key == "ts"@ || key == "time"@ || key == "timestamp"@ || key == "@timestamp"@
}

/// Whether a logfmt key names the message.
pub open spec fn is_message_key(key: Seq<char>) -> bool {
    key == "msg"@ || key == "message"@
}

/// Whether a logfmt key names the level.
pub fn level_key(key: &str) -> (r: bool)
    ensures
        r == is_level_key(key@),
{
    same_text(key, "level") || same_text(key, "severity") || same_text(key, "log.level")
}

/// Whether a logfmt key names the timestamp.
pub fn time_key(key: &str) -> (r: bool)
    ensures
        r == is_time_key(key@),
{
    same_text(key, "ts") || same_text(key, "time") || same_text(key, "timestamp") || same_text(
        key,
        "@timestamp",
    )
}

/// Whether a logfmt key names the message.
pub fn message_key(key: &str) -> (r: bool)
    ensures
        r == is_message_key(key@),
{
    same_text(key, "msg") || same_text(key, "message")
}

/// The key and the value of one logfmt match: the key is group 1, the value
/// the quoted group 2, else the bare group 3, else empty. `None` for a match
/// that does not have these groups.
pub open spec fn pair_of(groups: Seq<Option<Seq<char>>>) -> Option<(Seq<char>, Seq<char>)> {
    if groups.len() == 4 && groups[1] is Some {
        Some(
            (
                groups[1]->0,
                match groups[2] {
                    Some(v) => v,
                    None => match groups[3] {
                        Some(v) => v,
                        None => Seq::empty(),
                    },
                },
            ),
        )
    } else {
        None
    }
}

/// The pairs of a logfmt line, from the groups of its successive matches.
pub open spec fn pairs_of(text: Seq<char>, all: Seq<Seq<Option<Span>>>) -> Seq<
    (Seq<char>, Seq<char>),
>
    decreases all.len(),
{
    if all.len() == 0 {
        Seq::empty()
    } else {
        match pair_of(texts_of(text, all.last())) {
            Some(p) => pairs_of(text, all.drop_last()).push(p),
            None => pairs_of(text, all.drop_last()),
        }
    }
}

/// The pairs of a logfmt line, from the groups of its successive matches.
pub fn logfmt_pairs(text: &str, all: &Vec<Vec<Option<Span>>>) -> (r: Vec<(String, String)>)
    requires
        forall|i: int| 0 <= i < all.len() ==> groups_in_text(text@, (#[trigger] all[i])@),
    ensures
        r.deep_view() == pairs_of(text@, all.deep_view()),
{
    let mut out: Vec<(String, String)> = Vec::new();
    let mut i: usize = 0;
    assert(all.deep_view().subrange(0, 0) =~= Seq::empty());
    while i < all.len()
        invariant
            i <= all.len(),
            forall|k: int| 0 <= k < all.len() ==> groups_in_text(text@, (#[trigger] all[k])@),
            out.deep_view() == pairs_of(text@, all.deep_view().subrange(0, i as int)),
        decreases all.len() - i,
    {
        let texts = group_texts(text, &all[i]);
        proof {
            let upto = all.deep_view().subrange(0, i + 1);
            assert(upto.drop_last() =~= all.deep_view().subrange(0, i as int));
            assert(upto.last() == all[i as int]@);
            assert(texts.deep_view().len() == texts.len());
        }
        if texts.len() == 4 {
            match &texts[1] {
                Some(key) => {
                    let value = match &texts[2] {
                        Some(v) => v.as_str(),
                        None => match &texts[3] {
                            Some(v) => v.as_str(),
                            None => "",
                        },
                    };
                    proof {
                        reveal_strlit("");
                        assert(""@ =~= Seq::<char>::empty());
                        assert(texts.deep_view()[1] == Some(key@));
                        assert(texts.deep_view()[2] == texts[2].deep_view());
                        assert(texts.deep_view()[3] == texts[3].deep_view());
                    }
                    push_field(&mut out, key.as_str(), value);
                },
                None => {
                    assert(texts.deep_view()[1] is None);
                },
            }
        }
        i += 1;
    }
    assert(all.deep_view().subrange(0, all.len() as int) =~= all.deep_view());
    out
}

/// The fields that a logfmt line fills.
pub struct LogfmtFields {
    pub level: Option<LogLevel>,
    pub timestamp: Option<Seq<char>>,
    pub message: Option<Seq<char>>,
    pub extra_fields: Seq<(Seq<char>, Seq<char>)>,
}

/// What one more pair makes of the fields: a level key sets the level while
/// none is set, a time key the timestamp, a message key the message; any
/// other pair is an extra field.
pub open spec fn logfmt_step(fields: LogfmtFields, pair: (Seq<char>, Seq<char>)) -> LogfmtFields {
    if is_level_key(pair.0) && fields.level is None {
        LogfmtFields { level: level_of_word(pair.1), ..fields }
    } else if is_time_key(pair.0) && fields.timestamp is None {
        LogfmtFields { timestamp: Some(pair.1), ..fields }
    } else if is_message_key(pair.0) && fields.message is None {
        LogfmtFields { message: Some(pair.1), ..fields }
    } else {
        LogfmtFields { extra_fields: fields.extra_fields.push(pair), ..fields }
    }
}

/// The fields that the pairs of a logfmt line fill, taken in order.
pub open spec fn logfmt_fields(pairs: Seq<(Seq<char>, Seq<char>)>) -> LogfmtFields
    decreases pairs.len(),
{
    if pairs.len() == 0 {
        LogfmtFields { level: None, timestamp: None, message: None, extra_fields: Seq::empty() }
    } else {
        logfmt_step(logfmt_fields(pairs.drop_last()), pairs.last())
    }
}

/// The record of a logfmt line, from its pairs.
pub open spec fn logfmt_record_of(raw: Seq<char>, pairs: Seq<(Seq<char>, Seq<char>)>) -> Record {
    let fields = logfmt_fields(pairs);
    Record {
        level: fields.level,
        timestamp: fields.timestamp,
        message: match fields.message {
            Some(m) => m,
            None => raw,
        },
        extra_fields: fields.extra_fields,
        ..bare_record(raw, LogFormat::Logfmt)
    }
}

/// The record of a logfmt line: the first pair of each kind gives level,
/// timestamp and message, the other pairs are the extra fields in the order
/// of the line; without a message pair the whole line is the message.
pub fn logfmt_record(raw: &str, pairs: &Vec<(String, String)>) -> (r: ParsedLine)
    ensures
        r@ == logfmt_record_of(raw@, pairs.deep_view()),
{
    let mut r = ParsedLine::bare(raw, LogFormat::Logfmt);
    let mut message: Option<String> = None;
    let mut i: usize = 0;
    assert(pairs.deep_view().subrange(0, 0) =~= Seq::empty());
    while i < pairs.len()
        invariant
            i <= pairs.len(),
            r.raw@ == raw@,
            r.message@ == raw@,
            r.format == LogFormat::Logfmt,
            r.pretty_json is None,
            r.template@ == Seq::<char>::empty(),
            logfmt_fields(pairs.deep_view().subrange(0, i as int)) == (LogfmtFields {
                level: r.level,
                timestamp: r.timestamp.deep_view(),
                message: message.deep_view(),
                extra_fields: r.extra_fields.deep_view(),
            }),
        decreases pairs.len() - i,
    {
        let key = pairs[i].0.as_str();
        let value = pairs[i].1.as_str();
        proof {
            let upto = pairs.deep_view().subrange(0, i + 1);
            assert(upto.drop_last() =~= pairs.deep_view().subrange(0, i as int));
            assert(upto.last() == (key@, value@));
        }
        if level_key(key) && r.level.is_none() {
            r.level = parse_level_str(value);
        } else if time_key(key) && r.timestamp.is_none() {
            r.timestamp = Some(owned(value));
        } else if message_key(key) && message.is_none() {
            message = Some(owned(value));
        } else {
            push_field(&mut r.extra_fields, key, value);
        }
        i += 1;
    }
    assert(pairs.deep_view().subrange(0, pairs.len() as int) =~= pairs.deep_view());
    match message {
        Some(m) => {
            r.message = m;
        },
        None => {},
    }
    r
}

/// A logfmt line, parsed.
pub fn parse_logfmt_line(raw: &str) -> (r: ParsedLine)
    ensures
        r@ == logfmt_record_of(raw@, pairs_of(raw@, all_captures(LOGFMT_PAIR_PATTERN@, raw@))),
{
    let all = capture_all(LOGFMT_PAIR_PATTERN, raw);
    let pairs = logfmt_pairs(raw, &all);
    logfmt_record(raw, &pairs)
}

/// A variable token of a line: a URL, a UUID, a date, a hexadecimal address,
/// an IPv4 address, a path, or a number with its unit.
pub const TEMPLATE_PATTERN: &'static str =
    r#"(?i)https?://[^\s,\]>)"']+|[0-9a-f]{8}-[0-9a-f]{4}-[0-9a-f]{4}-[0-9a-f]{4}-[0-9a-f]{12}|\d{4}-\d{2}-\d{2}(?:[T ]\d{2}:\d{2}:\d{2}(?:[.,]\d+)?(?:Z|[+-]\d{2}:?\d{2})?)?|0x[0-9a-f]{4,16}|\d{1,3}\.\d{1,3}\.\d{1,3}\.\d{1,3}(?::\d{1,5})?|(?:\./|~/|/)[\w.\-]+(?:/[\w.\-]+)+|\d+(?:\.\d+)?(?:ns|µs|us|ms|s|m|h|d|KB|MB|GB|TB|%|B)?"#;

/// The variable tokens of a line, in the order of the line.
pub open spec fn tokens_of(raw: Seq<char>) -> Seq<Span> {
    all_matches(TEMPLATE_PATTERN@, raw)
}

/// The template of a line: the line with each variable token replaced by
/// one `*`.
pub open spec fn template_of(raw: Seq<char>) -> Seq<char> {
    spliced(raw, tokens_of(raw), "*"@)
}

/// The structural template of a line: the line with every variable token
/// replaced by one `*`. Two lines are similar where their templates are the
/// same.
pub fn compute_template(raw: &str) -> (r: String)
    ensures
        r@ == template_of(raw@),
{
    replace_each(TEMPLATE_PATTERN, raw, "*")
}

/// Two lines that have the same text around their variable tokens, piece by
/// piece, have the same template, whatever the tokens hold.
pub proof fn lemma_template_equal(a: Seq<char>, b: Seq<char>)
    requires
        gaps_of(a, tokens_of(a)) == gaps_of(b, tokens_of(b)),
    ensures
        template_of(a) == template_of(b),
{
}

/// The template speaks of the line alone: under every format a line has the
/// same template.
pub proof fn lemma_template_of_line_alone(raw: Seq<char>, f: LogFormat, g: LogFormat)
    ensures
        parsed(raw, f).template == parsed(raw, g).template,
        parsed(raw, f).template == template_of(raw),
{
}

/// The members under which a JSON line writes its level.
pub open spec fn level_member(members: Seq<Member>) -> Option<Member> {
    match pick(members, "level"@) {
        Some(m) => Some(m),
        None => match pick(members, "severity"@) {
            Some(m) => Some(m),
            None => pick(members, "log.level"@),
        },
    }
}

/// The member under which a JSON line writes its timestamp.
pub open spec fn time_member(members: Seq<Member>) -> Option<Member> {
    match pick(members, "timestamp"@) {
        Some(m) => Some(m),
        None => match pick(members, "time"@) {
            Some(m) => Some(m),
            None => match pick(members, "@timestamp"@) {
                Some(m) => Some(m),
                None => pick(members, "ts"@),
            },
        },
    }
}

/// The member under which a JSON line writes its message.
pub open spec fn message_member(members: Seq<Member>) -> Option<Member> {
    match pick(members, "message"@) {
        Some(m) => Some(m),
        None => match pick(members, "msg"@) {
            Some(m) => Some(m),
            None => pick(members, "log"@),
        },
    }
}

/// The text of a member, where it is a string.
pub open spec fn text_of(member: Option<Member>) -> Option<Seq<char>> {
    match member {
        Some(m) => m.text,
        None => None,
    }
}

/// The level that a member writes: a keyword where it is a string that is
/// one, else a number by tens.
pub open spec fn level_of_member(member: Option<Member>) -> Option<LogLevel> {
    match member {
        Some(m) => {
            let by_word = match m.text {
                Some(t) => level_of_word(t),
                None => None,
            };
            match by_word {
                Some(l) => Some(l),
                None => match m.unsigned {
                    Some(n) => level_of_number(n as int),
                    None => None,
                },
            }
        },
        None => None,
    }
}

/// Whether a key of a JSON line is one of those that the record has a place
/// for, and so no extra field.
pub open spec fn is_known_key(key: Seq<char>) -> bool {
    is_level_key(key) || is_time_key(key) || is_message_key(key) || key == "log"@ || key
        == "stream"@
}

/// How the value of an extra field is shown: a string between double quotes,
/// anything else as compact JSON.
pub open spec fn shown(member: Member) -> Seq<char> {
    match member.text {
        Some(t) => "\""@ + t + "\""@,
        None => member.compact,
    }
}

/// The extra fields of a JSON line: its members without the known keys, in
/// the order of the members, which is that of their keys.
pub open spec fn extra_members(members: Seq<Member>) -> Seq<(Seq<char>, Seq<char>)>
    decreases members.len(),
{
    if members.len() == 0 {
        Seq::empty()
    } else if is_known_key(members.last().key) {
        extra_members(members.drop_last())
    } else {
        extra_members(members.drop_last()).push((members.last().key, shown(members.last())))
    }
}

/// The record of a JSON line, from the line without its outer white space,
/// the document it holds, and the severity found in the text of its message.
pub open spec fn json_record_of(
    raw: Seq<char>,
    inner: Seq<char>,
    doc: Option<Document>,
    message_level: Option<LogLevel>,
) -> Record {
    match doc {
        Some(d) => Record {
            raw,
            level: match level_of_member(level_member(d.members)) {
                Some(l) => Some(l),
                None => message_level,
            },
            timestamp: text_of(time_member(d.members)),
            message: match text_of(message_member(d.members)) {
                Some(t) => without_final_newlines(t),
                None => inner,
            },
            format: LogFormat::Json,
            pretty_json: d.pretty,
            extra_fields: extra_members(d.members),
            template: Seq::empty(),
        },
        None => bare_record(raw, LogFormat::Json),
    }
}

/// The member of `doc` under the first of three keys that it has.
pub fn first_of3<'a>(doc: &'a JsonDoc, a: &str, b: &str, c: &str) -> (r: Option<&'a JsonMember>)
    ensures
        (match r {
            Some(m) => Some(m@),
            None => None,
        }) == (match pick(doc@.members, a@) {
            Some(m) => Some(m),
            None => match pick(doc@.members, b@) {
                Some(m) => Some(m),
                None => pick(doc@.members, c@),
            },
        }),
{
    match doc.get(a) {
        Some(m) => Some(m),
        None => match doc.get(b) {
            Some(m) => Some(m),
            None => doc.get(c),
        },
    }
}

/// The text of the message of a JSON document, where it has one.
pub fn json_message<'a>(doc: &'a JsonDoc) -> (r: Option<&'a String>)
    ensures
        r.deep_view() == text_of(message_member(doc@.members)),
{
    match first_of3(doc, "message", "msg", "log") {
        Some(m) => match &m.text {
            Some(t) => Some(t),
            None => None,
        },
        None => None,
    }
}

/// The extra fields of a JSON document.
pub fn json_extra_fields(doc: &JsonDoc) -> (r: Vec<(String, String)>)
    ensures
        r.deep_view() == extra_members(doc@.members),
{
    let mut out: Vec<(String, String)> = Vec::new();
    let mut i: usize = 0;
    let ghost all = doc@.members;
    assert(all.subrange(0, 0) =~= Seq::empty());
    while i < doc.members.len()
        invariant
            i <= doc.members.len(),
            all == doc@.members,
            all.len() == doc.members.len(),
            out.deep_view() == extra_members(all.subrange(0, i as int)),
        decreases doc.members.len() - i,
    {
        let m = &doc.members[i];
        proof {
            let upto = all.subrange(0, i + 1);
            assert(upto.drop_last() =~= all.subrange(0, i as int));
            assert(upto.last() == m@);
        }
        let key = m.key.as_str();
        let known = level_key(key) || time_key(key) || message_key(key) || same_text(key, "log")
            || same_text(key, "stream");
        if !known {
            match &m.text {
                Some(t) => {
                    let quoted = join3("\"", t.as_str(), "\"");
                    push_field(&mut out, key, quoted.as_str());
                },
                None => {
                    push_field(&mut out, key, m.compact.as_str());
                },
            }
        }
        i += 1;
    }
    assert(all.subrange(0, all.len() as int) =~= all);
    out
}

/// The record of a JSON line: level from the level member, as a keyword or
/// a number, else from the text of the message; timestamp and message from
/// their members; every other member an extra field. A line that holds no
/// valid JSON gives the bare record.
pub fn json_record(raw: &str, inner: &str, doc: &Option<JsonDoc>, message_level: Option<LogLevel>) -> (r:
    ParsedLine)
    ensures
        r@ == json_record_of(
            raw@,
            inner@,
            match doc {
                Some(d) => Some(d@),
                None => None,
            },
            message_level,
        ),
{
    let mut r = ParsedLine::bare(raw, LogFormat::Json);
    match doc {
        Some(d) => {
            let explicit = match first_of3(d, "level", "severity", "log.level") {
                Some(m) => {
                    let by_word = match &m.text {
                        Some(t) => parse_level_str(t.as_str()),
                        None => None,
                    };
                    match by_word {
                        Some(l) => Some(l),
                        None => match m.unsigned {
                            Some(n) => parse_numeric_level(n),
                            None => None,
                        },
                    }
                },
                None => None,
            };
            r.level = match explicit {
                Some(l) => Some(l),
                None => message_level,
            };
            let time = match d.get("timestamp") {
                Some(m) => Some(m),
                None => first_of3(d, "time", "@timestamp", "ts"),
            };
            r.timestamp = match time {
                Some(m) => m.text.clone(),
                None => None,
            };
            r.message = match json_message(d) {
                Some(t) => owned(trim_final_newlines(t.as_str())),
                None => owned(inner),
            };
            r.pretty_json = d.pretty.clone();
            r.extra_fields = json_extra_fields(d);
        },
        None => {},
    }
    r
}

/// The record of a JSON line.
pub open spec fn json_line_record(raw: Seq<char>) -> Record {
    let inner = trimmed(raw);
    let doc = json_document(inner);
    json_record_of(
        raw,
        inner,
        doc,
        match doc {
            Some(d) => match text_of(message_member(d.members)) {
                Some(t) => level_in(t),
                None => None,
            },
            None => None,
        },
    )
}

/// A JSON line, parsed.
pub fn parse_json_line(raw: &str) -> (r: ParsedLine)
    ensures
        r@ == json_line_record(raw@),
{
    let inner = trim(raw);
    let doc = read_json(inner);
    let message_level = match &doc {
        Some(d) => match json_message(d) {
            Some(t) => scan_level(t.as_str()),
            None => None,
        },
        None => None,
    };
    json_record(raw, inner, &doc, message_level)
}

/// The record of a line under a format, before its template is filled in.
pub open spec fn record_of(raw: Seq<char>, format: LogFormat) -> Record {
    match format {
        LogFormat::Json => json_line_record(raw),
        LogFormat::Syslog => syslog_record_of(
            raw,
            capture_texts(SYSLOG_PATTERN@, raw),
            level_in(raw),
        ),
        LogFormat::Logfmt => logfmt_record_of(
            raw,
            pairs_of(raw, all_captures(LOGFMT_PAIR_PATTERN@, raw)),
        ),
        LogFormat::Klog => klog_record_of(raw, capture_texts(KLOG_PATTERN@, raw)),
        LogFormat::Log4j => log4j_record_of(raw, capture_texts(LOG4J_PATTERN@, raw)),
        LogFormat::PythonLog => python_record_of(raw, capture_texts(PYTHON_PATTERN@, raw)),
        LogFormat::AccessLog => access_record_of(raw, capture_texts(ACCESS_PATTERN@, raw)),
        LogFormat::Plain => plain_record_of(
            raw,
            match_text(PLAIN_TIMESTAMP_PATTERN@, raw),
            level_in(raw),
        ),
    }
}

/// The record of a line under a format.
pub open spec fn parsed(raw: Seq<char>, format: LogFormat) -> Record {
    Record { template: template_of(raw), ..record_of(raw, format) }
}

/// Parses one line under the given format. Parsing never fails: a line that
/// does not have the shape of its format becomes a record with the whole
/// line as its message.
pub fn parse_line(raw: &str, format: LogFormat) -> (r: ParsedLine)
    ensures
        r@ == parsed(raw@, format),
        r.raw@ == raw@,
        r.format == format,
        r.template@ == template_of(raw@),
{
    let mut r = match format {
        LogFormat::Json => parse_json_line(raw),
        LogFormat::Syslog => parse_syslog_line(raw),
        LogFormat::Logfmt => parse_logfmt_line(raw),
        LogFormat::Klog => parse_klog_line(raw),
        LogFormat::Log4j => parse_log4j_line(raw),
        LogFormat::PythonLog => parse_python_log_line(raw),
        LogFormat::AccessLog => parse_access_log_line(raw),
        LogFormat::Plain => parse_plain_line(raw),
    };
    r.template = compute_template(raw);
    r
}

/// How many lines at the head of the input the detection looks at.
pub const SAMPLE_SIZE: usize = 10;

/// Whether a line holds a JSON object: without its outer white space it
/// starts with `{` and is valid JSON.
pub open spec fn is_json_line(line: Seq<char>) -> bool {
    let inner = trimmed(line);
    inner.len() > 0 && inner[0] == '{' && json_document(inner) is Some
}

/// Whether a line has the shape of a format. No line has the shape of
/// `Plain`: it is what is left.
pub open spec fn is_recognized(format: LogFormat, line: Seq<char>) -> bool {
    match format {
        LogFormat::Json => is_json_line(line),
        LogFormat::Syslog => first_match(SYSLOG_PATTERN@, line) is Some,
        LogFormat::Logfmt => all_matches(LOGFMT_TOKEN_PATTERN@, line).len() >= 3,
        LogFormat::Klog => first_match(KLOG_PATTERN@, line) is Some,
        LogFormat::Log4j => first_match(LOG4J_PATTERN@, line) is Some,
        LogFormat::PythonLog => first_match(PYTHON_PATTERN@, line) is Some,
        LogFormat::AccessLog => first_match(ACCESS_PATTERN@, line) is Some,
        LogFormat::Plain => false,
    }
}

/// Whether a line has the shape of a format.
pub fn recognizes(format: LogFormat, line: &str) -> (r: bool)
    ensures
        r == is_recognized(format, line@),
{
    match format {
        LogFormat::Json => {
            let inner = trim(line);
            starts_with_char(inner, '{') && read_json(inner).is_some()
        },
        LogFormat::Syslog => has_match(SYSLOG_PATTERN, line),
        LogFormat::Logfmt => find_all(LOGFMT_TOKEN_PATTERN, line).len() >= 3,
        LogFormat::Klog => has_match(KLOG_PATTERN, line),
        LogFormat::Log4j => has_match(LOG4J_PATTERN, line),
        LogFormat::PythonLog => has_match(PYTHON_PATTERN, line),
        LogFormat::AccessLog => has_match(ACCESS_PATTERN, line),
        LogFormat::Plain => false,
    }
}

/// How many of the lines have the shape of a format.
pub open spec fn count_recognized(format: LogFormat, lines: Seq<Seq<char>>) -> nat
    decreases lines.len(),
{
    if lines.len() == 0 {
        0
    } else {
        count_recognized(format, lines.drop_last()) + if is_recognized(format, lines.last()) {
            1nat
        } else {
            0nat
        }
    }
}

/// The lines that the detection looks at: the first ten.
pub open spec fn sample_of(lines: Seq<Seq<char>>) -> Seq<Seq<char>> {
    if lines.len() <= SAMPLE_SIZE {
        lines
    } else {
        lines.subrange(0, SAMPLE_SIZE as int)
    }
}

/// Whether more than half of the sample has the shape of a format.
pub open spec fn wins(format: LogFormat, sample: Seq<Seq<char>>) -> bool {
    count_recognized(format, sample) > sample.len() / 2
}

/// The format of the input: the first, in the order JSON, syslog, logfmt,
/// klog, Log4j, Python, access log, whose shape more than half of the sample
/// has; `Plain` where there is none, and for an empty input.
pub open spec fn detected(lines: Seq<Seq<char>>) -> LogFormat {
    let sample = sample_of(lines);
    if wins(LogFormat::Json, sample) {
        LogFormat::Json
    } else if wins(LogFormat::Syslog, sample) {
        LogFormat::Syslog
    } else if wins(LogFormat::Logfmt, sample) {
        LogFormat::Logfmt
    } else if wins(LogFormat::Klog, sample) {
        LogFormat::Klog
    } else if wins(LogFormat::Log4j, sample) {
        LogFormat::Log4j
    } else if wins(LogFormat::PythonLog, sample) {
        LogFormat::PythonLog
    } else if wins(LogFormat::AccessLog, sample) {
        LogFormat::AccessLog
    } else {
        LogFormat::Plain
    }
}

/// Whether more than half of the first `n` lines have the shape of a format.
pub fn majority(format: LogFormat, lines: &[String], n: usize) -> (r: bool)
    requires
        n <= lines.len(),
    ensures
        r == wins(format, lines.deep_view().subrange(0, n as int)),
{
    let mut count: usize = 0;
    let mut i: usize = 0;
    let ghost all = lines.deep_view();
    while i < n
        invariant
            i <= n <= lines.len(),
            all == lines.deep_view(),
            count <= i,
            count as nat == count_recognized(format, all.subrange(0, i as int)),
        decreases n - i,
    {
        proof {
            let upto = all.subrange(0, i + 1);
            assert(upto.drop_last() =~= all.subrange(0, i as int));
            assert(upto.last() == lines[i as int]@);
        }
        if recognizes(format, lines[i].as_str()) {
            count += 1;
        }
        i += 1;
    }
    count > n / 2
}

/// Detects the format of the input from its first ten lines.
pub fn detect_format(lines: &[String]) -> (r: LogFormat)
    ensures
        r == detected(lines.deep_view()),
        lines.len() == 0 ==> r == LogFormat::Plain,
{
    let n = if lines.len() <= SAMPLE_SIZE {
        lines.len()
    } else {
        SAMPLE_SIZE
    };
    proof {
        assert(lines.deep_view().len() == lines.len());
        if lines.len() <= SAMPLE_SIZE {
            assert(lines.deep_view().subrange(0, n as int) =~= lines.deep_view());
        }
    }
    if majority(LogFormat::Json, lines, n) {
        LogFormat::Json
    } else if majority(LogFormat::Syslog, lines, n) {
        LogFormat::Syslog
    } else if majority(LogFormat::Logfmt, lines, n) {
        LogFormat::Logfmt
    } else if majority(LogFormat::Klog, lines, n) {
        LogFormat::Klog
    } else if majority(LogFormat::Log4j, lines, n) {
        LogFormat::Log4j
    } else if majority(LogFormat::PythonLog, lines, n) {
        LogFormat::PythonLog
    } else if majority(LogFormat::AccessLog, lines, n) {
        LogFormat::AccessLog
    } else {
        LogFormat::Plain
    }
}

/// A format wins on one line exactly where it wins on that line twice.
pub proof fn lemma_wins_repeated(format: LogFormat, line: Seq<char>)
    ensures
        wins(format, seq![line]) == is_recognized(format, line),
        wins(format, seq![line, line]) == is_recognized(format, line),
{
    let one = seq![line];
    let two = seq![line, line];
    assert(one.drop_last() =~= Seq::<Seq<char>>::empty());
    assert(two.drop_last() =~= one);
    assert(count_recognized(format, Seq::<Seq<char>>::empty()) == 0);
    assert(count_recognized(format, one) == if is_recognized(format, line) {
        1nat
    } else {
        0nat
    });
}

/// Detection is stable under repetition: a line alone and the same line
/// twice are detected as the same format.
pub proof fn lemma_detect_repeated(line: Seq<char>)
    ensures
        detected(seq![line]) == detected(seq![line, line]),
{
    lemma_wins_repeated(LogFormat::Json, line);
    lemma_wins_repeated(LogFormat::Syslog, line);
    lemma_wins_repeated(LogFormat::Logfmt, line);
    lemma_wins_repeated(LogFormat::Klog, line);
    lemma_wins_repeated(LogFormat::Log4j, line);
    lemma_wins_repeated(LogFormat::PythonLog, line);
    lemma_wins_repeated(LogFormat::AccessLog, line);
}

} // verus!
