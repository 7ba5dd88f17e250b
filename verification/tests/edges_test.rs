use lumolog::highlighter::{
    apply_search_highlight, highlight_line, highlight_line_expanded, tokenize_with_patterns,
};
use lumolog::instant::Instant;
use lumolog::level::{keyword_level, parse_level_str, parse_numeric_level, status_to_level};
use lumolog::parser::{parse_line, LogFormat, LogLevel};
use lumolog::style::{Color, Line, Modifier, Span, Style};
use lumolog::text::{contains_text, decimal, parse_decimal, same_text, starts_with_char, substr};
use lumolog::timeindex::{format_sparkline_time, is_multi_day};
use lumolog::timestamp::{parse_timestamp_in, try_parse_with_format, Normalizer};

fn fields(pairs: &[(&str, &str)]) -> Vec<(String, String)> {
    pairs
        .iter()
        .map(|(k, v)| (k.to_string(), v.to_string()))
        .collect()
}

fn at(secs: i64) -> Option<Instant> {
    Some(Instant { secs, nanos: 0 })
}

#[test]
fn numeric_levels_go_by_tens() {
    assert_eq!(parse_numeric_level(0), None);
    assert_eq!(parse_numeric_level(1), Some(LogLevel::Trace));
    assert_eq!(parse_numeric_level(10), Some(LogLevel::Trace));
    assert_eq!(parse_numeric_level(11), Some(LogLevel::Debug));
    assert_eq!(parse_numeric_level(20), Some(LogLevel::Debug));
    assert_eq!(parse_numeric_level(21), Some(LogLevel::Info));
    assert_eq!(parse_numeric_level(30), Some(LogLevel::Info));
    assert_eq!(parse_numeric_level(31), Some(LogLevel::Warn));
    assert_eq!(parse_numeric_level(40), Some(LogLevel::Warn));
    assert_eq!(parse_numeric_level(41), Some(LogLevel::Error));
    assert_eq!(parse_numeric_level(50), Some(LogLevel::Error));
    assert_eq!(parse_numeric_level(51), Some(LogLevel::Fatal));
    assert_eq!(parse_numeric_level(60), Some(LogLevel::Fatal));
    assert_eq!(parse_numeric_level(61), None);
    assert_eq!(parse_numeric_level(u64::MAX), None);
}

#[test]
fn a_status_gives_a_severity() {
    assert_eq!(status_to_level(0), Some(LogLevel::Info));
    assert_eq!(status_to_level(200), Some(LogLevel::Info));
    assert_eq!(status_to_level(399), Some(LogLevel::Info));
    assert_eq!(status_to_level(400), Some(LogLevel::Warn));
    assert_eq!(status_to_level(401), Some(LogLevel::Warn));
    assert_eq!(status_to_level(499), Some(LogLevel::Warn));
    assert_eq!(status_to_level(500), Some(LogLevel::Error));
    assert_eq!(status_to_level(599), Some(LogLevel::Error));
    assert_eq!(status_to_level(600), Some(LogLevel::Info));
}

#[test]
fn level_keywords_are_read_in_any_case() {
    let table = [
        ("trace", LogLevel::Trace),
        ("Debug", LogLevel::Debug),
        ("INFO", LogLevel::Info),
        ("notice", LogLevel::Info),
        ("warn", LogLevel::Warn),
        ("Warning", LogLevel::Warn),
        ("error", LogLevel::Error),
        ("severe", LogLevel::Error),
        ("fatal", LogLevel::Fatal),
        ("critical", LogLevel::Fatal),
        ("EMERGENCY", LogLevel::Fatal),
        ("emerg", LogLevel::Fatal),
        ("alert", LogLevel::Fatal),
        ("Panic", LogLevel::Fatal),
    ];
    for (word, level) in table {
        assert_eq!(parse_level_str(word), Some(level), "{word}");
    }
    assert_eq!(parse_level_str("information"), None);
    assert_eq!(parse_level_str(""), None);
    assert_eq!(keyword_level("ERROR"), Some(LogLevel::Error));
    assert_eq!(keyword_level("error"), None);
    assert_eq!(LogLevel::Warn.short_name(), "WRN");
    assert_eq!(LogLevel::Trace.short_name(), "TRC");
}

#[test]
fn a_json_level_is_a_word_then_a_number_then_a_word_of_the_message() {
    let word = parse_line(r#"{"level":"warn","msg":"error in text"}"#, LogFormat::Json);
    assert_eq!(word.level, Some(LogLevel::Warn));
    let number = parse_line(r#"{"severity":50,"msg":"x"}"#, LogFormat::Json);
    assert_eq!(number.level, Some(LogLevel::Error));
    let unknown = parse_line(r#"{"level":99,"msg":"x"}"#, LogFormat::Json);
    assert_eq!(unknown.level, None);
    let from_text = parse_line(r#"{"level":99,"msg":"fatal: disk gone"}"#, LogFormat::Json);
    assert_eq!(from_text.level, Some(LogLevel::Fatal));
    let docker = parse_line(
        r#"{"log":"2024-01-15 ERROR boom\n","stream":"stderr","time":"2024-01-15T08:30:00Z"}"#,
        LogFormat::Json,
    );
    assert_eq!(docker.level, Some(LogLevel::Error));
    assert_eq!(docker.message, "2024-01-15 ERROR boom");
    assert_eq!(docker.timestamp.as_deref(), Some("2024-01-15T08:30:00Z"));
    assert!(docker.extra_fields.is_empty());
    let first_key_wins = parse_line(r#"{"level":"nonsense","severity":"error"}"#, LogFormat::Json);
    assert_eq!(first_key_wins.level, None);
}

#[test]
fn the_other_members_of_a_json_line_are_its_extra_fields() {
    let parsed = parse_line(
        r#"  {"msg":"m","b":true,"a":"text","n":null,"k":1.5,"list":[1,"x"],"o":{"y":2}}  "#,
        LogFormat::Json,
    );
    assert_eq!(parsed.message, "m");
    assert_eq!(
        parsed.extra_fields,
        fields(&[
            ("a", "\"text\""),
            ("b", "true"),
            ("k", "1.5"),
            ("list", "[1,\"x\"]"),
            ("n", "null"),
            ("o", "{\"y\":2}"),
        ])
    );
    let pretty = parsed.pretty_json.unwrap();
    assert!(pretty.starts_with("{\n  \"a\": \"text\","));
}

#[test]
fn a_json_line_that_holds_no_object_degrades() {
    let list = parse_line(" [1, 2] ", LogFormat::Json);
    assert_eq!(list.message, "[1, 2]");
    assert_eq!(list.level, None);
    assert_eq!(list.timestamp, None);
    assert!(list.extra_fields.is_empty());
    assert_eq!(list.pretty_json.as_deref(), Some("[\n  1,\n  2\n]"));

    let broken = parse_line(" {not json ", LogFormat::Json);
    assert_eq!(broken.message, " {not json ");
    assert_eq!(broken.level, None);
    assert_eq!(broken.timestamp, None);
    assert_eq!(broken.pretty_json, None);
    assert!(broken.extra_fields.is_empty());
    assert_eq!(broken.format, LogFormat::Json);
}

#[test]
fn a_line_without_the_shape_of_its_format_is_all_message() {
    let raw = "ERROR 2024-01-15 08:30:00 nothing of a header";
    for format in [
        LogFormat::Klog,
        LogFormat::Log4j,
        LogFormat::PythonLog,
        LogFormat::AccessLog,
    ] {
        let parsed = parse_line(raw, format);
        assert_eq!(parsed.level, None, "{format:?}");
        assert_eq!(parsed.timestamp, None, "{format:?}");
        assert_eq!(parsed.message, raw);
        assert!(parsed.extra_fields.is_empty());
        assert_eq!(parsed.pretty_json, None);
        assert_eq!(parsed.format, format);
    }
    let syslog = parse_line(raw, LogFormat::Syslog);
    assert_eq!(syslog.level, Some(LogLevel::Error));
    assert_eq!(syslog.timestamp, None);
    assert_eq!(syslog.message, raw);
    let logfmt = parse_line("no pairs at all", LogFormat::Logfmt);
    assert_eq!(logfmt.message, "no pairs at all");
    assert_eq!(logfmt.level, None);
    let plain = parse_line("2024-01-15T08:30:00.5Z warning: low disk", LogFormat::Plain);
    assert_eq!(plain.timestamp.as_deref(), Some("2024-01-15T08:30:00.5Z"));
    assert_eq!(plain.level, Some(LogLevel::Warn));
    assert_eq!(plain.message, "2024-01-15T08:30:00.5Z warning: low disk");
}

#[test]
fn an_access_line_gives_its_fields_and_leaves_out_hyphens() {
    let full = parse_line(
        r#"10.0.0.5 - bob [10/Oct/2024:13:55:36 +0000] "POST /login HTTP/1.1" 401 512 "https://example.com/" "curl/8.1.2""#,
        LogFormat::AccessLog,
    );
    assert_eq!(full.level, Some(LogLevel::Warn));
    assert_eq!(full.message, "POST /login 401");
    assert_eq!(full.timestamp.as_deref(), Some("10/Oct/2024:13:55:36 +0000"));
    assert_eq!(
        full.extra_fields,
        fields(&[
            ("ip", "10.0.0.5"),
            ("user", "bob"),
            ("bytes", "512"),
            ("referer", "https://example.com/"),
            ("ua", "curl/8.1.2"),
        ])
    );
    let bare = parse_line(
        r#"10.0.0.5 - - [10/Oct/2024:13:55:36 +0000] "GET / HTTP/1.1" 500 - "-" "-""#,
        LogFormat::AccessLog,
    );
    assert_eq!(bare.level, Some(LogLevel::Error));
    assert_eq!(bare.message, "GET / 500");
    assert_eq!(bare.extra_fields, fields(&[("ip", "10.0.0.5"), ("bytes", "-")]));
    let short = parse_line(
        r#"10.0.0.5 - - [10/Oct/2024:13:55:36 +0000] "GET / HTTP/1.1" 007 3"#,
        LogFormat::AccessLog,
    );
    assert_eq!(short.level, Some(LogLevel::Info));
    assert_eq!(short.message, "GET / 7");
}

#[test]
fn the_first_pair_of_each_kind_fills_a_logfmt_record() {
    let parsed = parse_line(
        r#"level=bogus level=warn level=error ts=1 time=2 msg="a b" message=c x= y="" z=1"#,
        LogFormat::Logfmt,
    );
    assert_eq!(parsed.level, Some(LogLevel::Warn));
    assert_eq!(parsed.timestamp.as_deref(), Some("1"));
    assert_eq!(parsed.message, "a b");
    assert_eq!(
        parsed.extra_fields,
        fields(&[
            ("level", "error"),
            ("time", "2"),
            ("message", "c"),
            ("x", ""),
            ("y", ""),
            ("z", "1"),
        ])
    );
}

#[test]
fn a_klog_line_gives_its_header() {
    let parsed = parse_line(
        "W0115 08:30:02.234567       1 config.go:18] Deprecated flag",
        LogFormat::Klog,
    );
    assert_eq!(parsed.level, Some(LogLevel::Warn));
    assert_eq!(parsed.timestamp.as_deref(), Some("0115 08:30:02.234567"));
    assert_eq!(parsed.message, "Deprecated flag");
    assert_eq!(
        parsed.extra_fields,
        fields(&[("pid", "1"), ("source", "config.go:18")])
    );
}

#[test]
fn timestamps_are_read_in_each_of_their_forms() {
    let base = 1705307400;
    let cases = [
        ("2024-01-15T08:30:00Z", at(base)),
        ("2024-01-15T08:30:00+05:30", at(base - 19800)),
        ("2024-01-15T08:30:00-0100", at(base + 3600)),
        ("2024-01-15T08:30:00", at(base)),
        ("2024-01-15 08:30:00", at(base)),
        ("  2024-01-15 08:30:00  ", at(base)),
        ("10/Oct/2024:13:55:36 +0000", at(1728568536)),
        ("1705307400", at(base)),
        ("9999999999", at(9999999999)),
        ("999999999", None),
        ("10000000000", None),
        ("1705307400000", at(base)),
        ("100000000000000", None),
        ("Jan 15 08:30:00", at(base)),
        ("Jan  5 08:30:00", at(base - 10 * 86400)),
        ("Feb 30 08:30:00", None),
        ("Foo 15 08:30:00", None),
        ("0115 08:30:00", None),
        ("1315 08:30:00.000000", None),
        ("0100 08:30:00.000000", None),
        ("", None),
        ("   ", None),
        ("not a timestamp", None),
    ];
    for (text, expected) in cases {
        assert_eq!(parse_timestamp_in(text, 2024), expected, "{text:?}");
    }
    assert_eq!(
        parse_timestamp_in("2024-01-15T08:30:00.250Z", 2024),
        Some(Instant { secs: base, nanos: 250_000_000 })
    );
    assert_eq!(parse_timestamp_in("2024-01-15 08:30:00,123", 2024), at(base));
    assert_eq!(
        try_parse_with_format("2024-01-15 08:30:00,123", 9),
        Some(Instant { secs: base, nanos: 123 })
    );
    assert_eq!(
        parse_timestamp_in("1705307400123", 2024),
        Some(Instant { secs: base, nanos: 123_000_000 })
    );
    assert_eq!(
        parse_timestamp_in("1705307400.5", 2024),
        Some(Instant { secs: base, nanos: 500_000_000 })
    );
    assert_eq!(
        parse_timestamp_in("1705307400.123456789123", 2024),
        Some(Instant { secs: base, nanos: 123_456_789 })
    );
    assert_eq!(
        parse_timestamp_in("0115 08:30:00.25", 2024),
        Some(Instant { secs: base, nanos: 250_000_000 })
    );
    assert_eq!(
        parse_timestamp_in("0115 08:30:00.123456789", 2024),
        Some(Instant { secs: base, nanos: 123_456_000 })
    );
    assert_eq!(
        parse_timestamp_in("0115 08:30:00.12ab", 2024),
        Some(Instant { secs: base, nanos: 0 })
    );
    assert_eq!(parse_timestamp_in("Jan 15 08:30:00", 2023), at(base - 365 * 86400));
    assert_eq!(parse_timestamp_in("Feb 29 00:00:00", 2024), at(1709164800));
    assert_eq!(parse_timestamp_in("Feb 29 00:00:00", 2023), None);
}

#[test]
fn what_follows_a_timestamp_does_no_harm() {
    let base = 1705307400;
    assert_eq!(
        parse_timestamp_in("2024-01-15T08:30:00+00:00 and more text", 2024),
        at(base)
    );
    assert_eq!(parse_timestamp_in("2024-01-15 08:30:00 and more text", 2024), at(base));
    assert_eq!(try_parse_with_format("2024-01-15 08:30:00", 10), at(base));
    assert_eq!(try_parse_with_format("2024-01-15 08:30:00 tail", 10), at(base));
    assert_eq!(try_parse_with_format("2024-01-15 08:30:00", 7), None);
    assert_eq!(try_parse_with_format("2024-01-15T08:30:00+01:00", 2), at(base - 3600));
}

#[test]
fn the_format_that_read_a_timestamp_is_tried_first_on_the_next() {
    let mut reader = Normalizer::new();
    assert_eq!(reader.last_format, None);
    assert_eq!(reader.parse("", 2024), None);
    assert_eq!(reader.last_format, None);
    assert_eq!(reader.parse("1705307400", 2024), at(1705307400));
    assert_eq!(reader.last_format, None);
    assert_eq!(reader.parse("10/Oct/2024:13:55:36 +0000", 2024), at(1728568536));
    assert_eq!(reader.last_format, Some(11));
    assert_eq!(reader.parse("11/Oct/2024:13:55:36 +0000", 2024), at(1728568536 + 86400));
    assert_eq!(reader.last_format, Some(11));
    assert_eq!(reader.parse("Jan 15 08:30:00", 2024), at(1705307400));
    assert_eq!(reader.last_format, Some(11));
    assert_eq!(reader.parse("nothing", 2024), None);
    assert_eq!(reader.last_format, Some(11));
    let read = reader.parse("2024-01-15T08:30:00", 2024);
    assert_eq!(read, at(1705307400));
    let kept = reader.last_format;
    assert!(kept.is_some() && kept != Some(11));
    assert_eq!(reader.parse("2024-01-15T08:30:01", 2024), at(1705307401));
    assert_eq!(reader.last_format, kept);
}

#[test]
fn instants_are_ordered_by_seconds_then_nanoseconds() {
    let a = Instant { secs: 10, nanos: 999_999_999 };
    let b = Instant { secs: 11, nanos: 0 };
    let c = Instant { secs: 11, nanos: 1 };
    assert!(a < b && b < c && a < c);
    assert!(a.before(b) && !b.before(a) && !a.before(a));
    assert!(a.at_or_before(a) && a.at_or_before(b) && !c.at_or_before(b));
    assert_eq!(b.seconds_since(a), 0);
    assert_eq!(c.seconds_since(a), 0);
    assert_eq!(a.seconds_since(c), -1);
    assert_eq!(Instant { secs: 12, nanos: 0 }.seconds_since(a), 1);
    assert_eq!(a.seconds_since(Instant { secs: 12, nanos: 0 }), -2);
    assert_eq!(b.seconds_since(Instant { secs: -5, nanos: 0 }), 16);
    assert_eq!(a.plus_seconds(-20), Instant { secs: -10, nanos: 999_999_999 });
    assert_eq!(Instant { secs: 86_399, nanos: 5 }.day_number(), 0);
    assert_eq!(Instant { secs: 86_400, nanos: 0 }.day_number(), 1);
    assert_eq!(Instant { secs: -1, nanos: 0 }.day_number(), -1);
    assert_eq!(Instant { secs: -86_400, nanos: 0 }.day_number(), -1);
    assert_eq!(Instant { secs: -86_401, nanos: 0 }.day_number(), -2);
}

#[test]
fn the_label_of_a_bucket_shows_the_day_where_there_are_several() {
    let morning = Instant { secs: 1705307400, nanos: 0 };
    let night = Instant { secs: 1705307400 + 15 * 3600, nanos: 0 };
    let next_day = Instant { secs: 1705307400 + 16 * 3600, nanos: 0 };
    assert_eq!(format_sparkline_time(morning, false), "08:30");
    assert_eq!(format_sparkline_time(morning, true), "01-15 08:30");
    assert_eq!(format_sparkline_time(next_day, true), "01-16 00:30");
    assert!(!is_multi_day(morning, night));
    assert!(is_multi_day(morning, next_day));
    assert!(is_multi_day(next_day, morning));
}

#[test]
fn numbers_are_read_and_written_in_base_ten() {
    assert_eq!(parse_decimal("0"), Some(0));
    assert_eq!(parse_decimal("007"), Some(7));
    assert_eq!(parse_decimal("1705307400"), Some(1705307400));
    assert_eq!(parse_decimal("999999999999999999"), Some(999_999_999_999_999_999));
    assert_eq!(parse_decimal("1000000000000000000"), None);
    assert_eq!(parse_decimal("99999999999999999999999"), None);
    assert_eq!(parse_decimal(""), None);
    assert_eq!(parse_decimal("+5"), None);
    assert_eq!(parse_decimal("-5"), None);
    assert_eq!(parse_decimal("12a"), None);
    assert_eq!(parse_decimal("١٢٣"), None);
    assert_eq!(decimal(0), "0");
    assert_eq!(decimal(9), "9");
    assert_eq!(decimal(10), "10");
    assert_eq!(decimal(65535), "65535");
    assert_eq!(decimal(u64::MAX), "18446744073709551615");
}

#[test]
fn texts_are_compared_searched_and_cut_by_their_bytes() {
    assert!(same_text("abc", "abc"));
    assert!(!same_text("abc", "abd"));
    assert!(!same_text("abc", "ab"));
    assert!(same_text("", ""));
    assert!(contains_text("connection refused", "ion ref"));
    assert!(contains_text("abc", ""));
    assert!(contains_text("", ""));
    assert!(!contains_text("abc", "abcd"));
    assert!(!contains_text("abc", "ca"));
    assert!(contains_text("naïve café", "café"));
    assert!(starts_with_char("{x", '{'));
    assert!(!starts_with_char("", '{'));
    assert!(!starts_with_char(" {", '{'));
    assert_eq!(substr("naïve", 0, 2), "na");
    assert_eq!(substr("naïve", 2, 4), "ï");
    assert_eq!(substr("naïve", 4, 6), "ve");
    assert_eq!(substr("naïve", 4, 4), "");
}

#[test]
fn a_text_without_tokens_is_one_span() {
    let spans = tokenize_with_patterns("just words", Style::default().fg(Color::Green));
    assert_eq!(spans.len(), 1);
    assert_eq!(spans[0].content, "just words");
    assert_eq!(spans[0].style, Style::default().fg(Color::Green));
    let empty = tokenize_with_patterns("", Style::default());
    assert_eq!(empty.len(), 1);
    assert_eq!(empty[0].content, "");
}

#[test]
fn tokens_and_the_text_between_them_make_up_the_text() {
    let base = Style::default().fg(Color::Red);
    let spans = tokenize_with_patterns("retry 12 of 10.0.0.5 failed", base);
    let parts: Vec<(&str, Style)> = spans.iter().map(|s| (s.content.as_str(), s.style)).collect();
    assert_eq!(
        parts,
        vec![
            ("retry ", base),
            ("12", Style::default().fg(Color::Cyan)),
            (" of ", base),
            (
                "10.0.0.5",
                Style::default().fg(Color::Cyan).add_modifier(Modifier::Bold)
            ),
            (" failed", base),
        ]
    );
}

#[test]
fn a_search_leaves_the_line_alone_where_it_cannot_be_shown() {
    let line = || {
        Line::from(vec![
            Span::styled("İstanbul".to_string(), Style::default().fg(Color::Red)),
            Span::styled(" calling".to_string(), Style::default()),
        ])
    };
    let texts = |l: &Line| -> Vec<String> { l.spans.iter().map(|s| s.content.clone()).collect() };
    assert_eq!(texts(&apply_search_highlight(line(), "call")), texts(&line()));
    assert_eq!(texts(&apply_search_highlight(line(), "")), texts(&line()));
    let plain = Line::from(vec![Span::styled("abc".to_string(), Style::default())]);
    let same = apply_search_highlight(plain, "x");
    assert_eq!(same.spans.len(), 1);
    assert_eq!(same.spans[0].style, Style::default());
}

#[test]
fn a_search_match_is_cut_out_of_the_spans_it_crosses() {
    let red = Style::default().fg(Color::Red);
    let blue = Style::default().fg(Color::Blue);
    let found = Style::default().bg(Color::Yellow).fg(Color::Black);
    let line = Line::from(vec![
        Span::styled("say ab".to_string(), red),
        Span::styled("".to_string(), blue),
        Span::styled("cab".to_string(), blue),
        Span::styled("c!".to_string(), red),
    ]);
    let result = apply_search_highlight(line, "ABC");
    let parts: Vec<(&str, Style)> = result
        .spans
        .iter()
        .map(|s| (s.content.as_str(), s.style))
        .collect();
    assert_eq!(
        parts,
        vec![
            ("say ", red),
            ("ab", found),
            ("c", found),
            ("ab", found),
            ("c", found),
            ("!", red),
        ]
    );
}

#[test]
fn a_json_record_expands_into_the_lines_of_its_document() {
    let parsed = parse_line(r#"{"level":"error","msg":"x"}"#, LogFormat::Json);
    let lines = highlight_line_expanded(&parsed, true);
    let texts: Vec<String> = lines
        .iter()
        .map(|l| l.spans.iter().map(|s| s.content.as_str()).collect())
        .collect();
    assert_eq!(
        texts,
        vec!["--- [ERR] ", "  {", "    \"level\": \"error\",", "    \"msg\": \"x\"", "  }"]
    );
    let red = Style::default().fg(Color::Red);
    assert_eq!(lines[0].spans[0].style, red.add_modifier(Modifier::Bold));
    assert_eq!(lines[1].spans[0].style, red);

    let compact = highlight_line_expanded(&parsed, false);
    assert_eq!(compact.len(), 1);
    let one: String = compact[0].spans.iter().map(|s| s.content.as_str()).collect();
    assert_eq!(one, "[ERR] x");

    let plain = parse_line("plain words", LogFormat::Plain);
    assert_eq!(highlight_line_expanded(&plain, true).len(), 1);
}

#[test]
fn a_structured_line_shows_badge_timestamp_message_and_fields() {
    let parsed = parse_line(
        r#"{"level":"warn","ts":"2024-01-15T08:30:00Z","msg":"slow","user":"bob","n":3}"#,
        LogFormat::Json,
    );
    let line = highlight_line(&parsed);
    let text: String = line.spans.iter().map(|s| s.content.as_str()).collect();
    assert_eq!(text, "[WRN] 2024-01-15T08:30:00Z slow  n=3 user=\"bob\"");
    let yellow = Style::default().fg(Color::Yellow);
    assert_eq!(
        line.spans[0].style,
        yellow.add_modifier(Modifier::Bold).bg(Color::Yellow)
    );
    assert_eq!(line.spans[1].style, Style::default().fg(Color::DarkGray));
    assert_eq!(line.spans[2].content, "slow");
    assert_eq!(line.spans[2].style, yellow);
    let unknown = parse_line(r#"{"msg":"x"}"#, LogFormat::Json);
    let line = highlight_line(&unknown);
    assert_eq!(line.spans[0].content, "[???] ");
    assert_eq!(line.spans[0].style, Style::default().add_modifier(Modifier::Bold));
}

#[test]
fn the_level_keyword_of_a_plain_line_is_a_badge() {
    let parsed = parse_line("2024-01-15 08:30:00 ERROR disk 42 full", LogFormat::Plain);
    let line = highlight_line(&parsed);
    let red = Style::default().fg(Color::Red);
    let parts: Vec<(&str, Style)> = line.spans.iter().map(|s| (s.content.as_str(), s.style)).collect();
    assert_eq!(
        parts,
        vec![
            ("2024-01-15 08:30:00", Style::default().fg(Color::DarkGray)),
            (" ", red),
            ("ERROR", red.add_modifier(Modifier::Bold)),
            (" disk ", red),
            ("42", Style::default().fg(Color::Cyan)),
            (" full", red),
        ]
    );
}
