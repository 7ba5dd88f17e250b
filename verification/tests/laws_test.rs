use lumolog::filter::{
    apply_filters, filter_by_template, filter_lines, fits_matcher, fuzzy_score_within,
    WORD_LIMIT,
};
use lumolog::highlighter::{
    apply_search_highlight, collect_all_regions, tokenize_with_metadata, TokenKind,
};
use lumolog::instant::Instant;
use lumolog::parser::{
    compute_template, detect_format, parse_line, LogFormat, LogLevel, ParsedLine,
};
use lumolog::style::{Color, Line, Span, Style};
use lumolog::timeindex::{
    bucket_range_to_time_range, build_time_index_in, compute_sparkline, filter_by_time_range,
    TimeRange,
};

const LEVELS: [LogLevel; 6] = [
    LogLevel::Trace,
    LogLevel::Debug,
    LogLevel::Info,
    LogLevel::Warn,
    LogLevel::Error,
    LogLevel::Fatal,
];

fn plain(raw: &str, level: Option<LogLevel>) -> ParsedLine {
    let mut line = parse_line(raw, LogFormat::Plain);
    line.level = level;
    line
}

fn json_lines(raw: &[&str]) -> Vec<ParsedLine> {
    raw.iter().map(|l| parse_line(l, LogFormat::Json)).collect()
}

#[test]
fn lines_that_differ_in_their_tokens_have_one_template() {
    let a = compute_template("Failed to connect to 10.0.0.5:3306 after 3 retries");
    let b = compute_template("Failed to connect to 192.168.1.1:5432 after 10 retries");
    assert_eq!(a, "Failed to connect to * after * retries");
    assert_eq!(a, b);

    let c = compute_template(
        "GET https://example.com/a?b=1 from 550e8400-e29b-41d4-a716-446655440000 took 35ms",
    );
    let d = compute_template(
        "GET http://other.org/x/y from 123e4567-e89b-12d3-a456-426614174000 took 2.5s",
    );
    assert_eq!(c, "GET * from * took *");
    assert_eq!(c, d);

    let e = compute_template("2024-01-15T08:30:00Z wrote /var/log/app.log at 0xdeadbeef");
    assert_eq!(e, "* wrote * at *");
}

#[test]
fn lines_that_differ_in_their_words_have_different_templates() {
    let a = compute_template("Failed to connect to 10.0.0.5");
    let b = compute_template("Failed to listen on 10.0.0.5");
    assert_ne!(a, b);
    assert_eq!(compute_template("no tokens here"), "no tokens here");
    assert_eq!(compute_template(""), "");
}

#[test]
fn the_template_of_a_line_is_the_same_under_every_format() {
    let raw = r#"{"level":"info","msg":"took 35ms","ts":"2024-01-15T08:30:00Z"}"#;
    let formats = [
        LogFormat::Json,
        LogFormat::Syslog,
        LogFormat::Logfmt,
        LogFormat::Klog,
        LogFormat::Log4j,
        LogFormat::PythonLog,
        LogFormat::AccessLog,
        LogFormat::Plain,
    ];
    for format in formats {
        let parsed = parse_line(raw, format);
        assert_eq!(parsed.template, compute_template(raw));
        assert_eq!(parsed.format, format);
        assert_eq!(parsed.raw, raw);
    }
}

#[test]
fn detection_is_stable_under_repetition() {
    let lines = [
        (r#"{"level":"info","msg":"x"}"#, LogFormat::Json),
        ("Jan 15 08:30:00 host sshd[1]: hello", LogFormat::Syslog),
        ("level=info ts=2024-01-15T08:30:00Z msg=hello", LogFormat::Logfmt),
        ("I0115 08:30:00.000000   12345 server.go:42] Starting", LogFormat::Klog),
        ("2024-01-15 08:30:00.123 [main] INFO com.example.App - Started", LogFormat::Log4j),
        ("2024-01-15 08:30:00,123 - myapp - INFO - Started", LogFormat::PythonLog),
        (
            r#"1.2.3.4 - bob [10/Oct/2024:13:55:36 +0000] "GET / HTTP/1.1" 200 12"#,
            LogFormat::AccessLog,
        ),
        ("just some words", LogFormat::Plain),
        ("", LogFormat::Plain),
    ];
    for (line, expected) in lines {
        let once = detect_format(&[line.to_string()]);
        let twice = detect_format(&[line.to_string(), line.to_string()]);
        assert_eq!(once, twice, "{line}");
        assert_eq!(once, expected, "{line}");
    }
}

#[test]
fn a_format_needs_more_than_half_of_the_sample() {
    let json = r#"{"a":1}"#.to_string();
    let words = "plain words".to_string();
    assert_eq!(detect_format(&[]), LogFormat::Plain);
    assert_eq!(detect_format(&[json.clone(), words.clone()]), LogFormat::Plain);
    assert_eq!(
        detect_format(&[json.clone(), json.clone(), words.clone()]),
        LogFormat::Json
    );
    let mut many = vec![words.clone(); 10];
    many.extend(vec![json.clone(); 50]);
    assert_eq!(detect_format(&many), LogFormat::Plain);
    let mut six = vec![json.clone(); 6];
    six.extend(vec![words.clone(); 4]);
    assert_eq!(detect_format(&six), LogFormat::Json);
    let mut five = vec![json; 5];
    five.extend(vec![words; 5]);
    assert_eq!(detect_format(&five), LogFormat::Plain);
}

#[test]
fn severities_are_totally_ordered() {
    for (i, a) in LEVELS.iter().enumerate() {
        for (j, b) in LEVELS.iter().enumerate() {
            let holds = [a < b, a == b, a > b];
            assert_eq!(holds.iter().filter(|h| **h).count(), 1);
            assert_eq!(a < b, i < j);
            assert_eq!(a == b, i == j);
            assert_eq!(a > b, i > j);
            assert_eq!(a.at_least(*b), i >= j);
        }
    }
}

#[test]
fn raising_the_threshold_lets_no_more_lines_through() {
    let lines = vec![
        plain("trace connection opened", Some(LogLevel::Trace)),
        plain("debug connection refused", Some(LogLevel::Debug)),
        plain("no severity, connection refused", None),
        plain("info all good", Some(LogLevel::Info)),
        plain("warn connection slow", Some(LogLevel::Warn)),
        plain("error connection refused", Some(LogLevel::Error)),
        plain("fatal connection lost", Some(LogLevel::Fatal)),
    ];
    for pattern in ["", "connection", "refused", "cnnctn", "zzzz"] {
        let mut before = filter_lines(&lines, pattern, None);
        for level in LEVELS {
            let after = filter_lines(&lines, pattern, Some(level));
            assert!(
                after.indices.len() <= before.indices.len()
                    || (after.is_fuzzy && !before.is_fuzzy),
                "{pattern} {level:?}"
            );
            before = after;
        }
    }
    assert_eq!(filter_lines(&lines, "", None).indices, vec![0, 1, 2, 3, 4, 5, 6]);
    assert_eq!(
        filter_lines(&lines, "", Some(LogLevel::Warn)).indices,
        vec![2, 4, 5, 6]
    );
    assert_eq!(
        filter_lines(&lines, "refused", Some(LogLevel::Info)).indices,
        vec![2, 5]
    );
}

#[test]
fn a_raise_that_turns_exact_into_fuzzy_may_let_more_through() {
    let lines = vec![
        plain("saw conref in the input", Some(LogLevel::Info)),
        plain("connection refused", Some(LogLevel::Error)),
        plain("connection refused again", Some(LogLevel::Error)),
    ];
    let low = filter_lines(&lines, "conref", Some(LogLevel::Info));
    assert_eq!(low.indices, vec![0]);
    assert!(!low.is_fuzzy);
    let high = filter_lines(&lines, "conref", Some(LogLevel::Error));
    assert_eq!(high.indices, vec![1, 2]);
    assert!(high.is_fuzzy);
}

#[test]
fn an_exact_match_keeps_the_fuzzy_matches_out() {
    let lines = vec![
        plain("connection refused", None),
        plain("literal conref here", None),
        plain("CONREF in capitals", None),
    ];
    let result = filter_lines(&lines, "conref", None);
    assert_eq!(result.indices, vec![1, 2]);
    assert!(!result.is_fuzzy);

    let only_fuzzy = filter_lines(&lines[..1], "conref", None);
    assert_eq!(only_fuzzy.indices, vec![0]);
    assert!(only_fuzzy.is_fuzzy);

    let nothing = filter_lines(&lines, "qqqqzzzz", None);
    assert!(nothing.indices.is_empty());
    assert!(!nothing.is_fuzzy);
}

#[test]
fn a_number_above_255_makes_no_address() {
    let tokens = tokenize_with_metadata("host 999.999.999.999 is down", Style::default());
    assert!(tokens.iter().all(|t| t.1 != Some(TokenKind::Ip)));
    let whole: String = tokens.iter().map(|t| t.2.as_str()).collect();
    assert_eq!(whole, "host 999.999.999.999 is down");

    let tokens = tokenize_with_metadata("host 10.0.0.256 and 10.0.0.255", Style::default());
    let ips: Vec<&str> = tokens
        .iter()
        .filter(|t| t.1 == Some(TokenKind::Ip))
        .map(|t| t.2.as_str())
        .collect();
    assert_eq!(ips, vec!["10.0.0.255"]);

    let tokens = tokenize_with_metadata("to 10.0.0.5:3306 now", Style::default());
    let ips: Vec<&str> = tokens
        .iter()
        .filter(|t| t.1 == Some(TokenKind::Ip))
        .map(|t| t.2.as_str())
        .collect();
    assert_eq!(ips, vec!["10.0.0.5:3306"]);
}

#[test]
fn tokens_lie_apart_and_in_the_order_of_the_text() {
    let text = r#"GET https://example.com/a/b from 10.0.0.5 id=550e8400-e29b-41d4-a716-446655440000 "quoted 42" took 35ms v1.2.3 HTTP/1.1 true /etc/app/conf sshd[123] 0xdeadbeef 2024-01-15"#;
    let regions = collect_all_regions(text);
    assert!(!regions.is_empty());
    for pair in regions.windows(2) {
        assert!(pair[0].start <= pair[1].start);
        assert!(pair[0].end <= pair[1].start);
    }
    for region in &regions {
        assert!(region.start < region.end && region.end <= text.len());
    }
    let kind_of = |needle: &str| {
        regions
            .iter()
            .find(|r| &text[r.start..r.end] == needle)
            .map(|r| r.kind)
    };
    assert_eq!(kind_of("https://example.com/a/b"), Some(TokenKind::Url));
    assert_eq!(kind_of("10.0.0.5"), Some(TokenKind::Ip));
    assert_eq!(kind_of("id="), Some(TokenKind::KeyValue));
    assert_eq!(
        kind_of("550e8400-e29b-41d4-a716-446655440000"),
        Some(TokenKind::Uuid)
    );
    assert_eq!(kind_of("\"quoted 42\""), Some(TokenKind::QuotedString));
    assert_eq!(kind_of("GET"), Some(TokenKind::HttpMethod));
    assert_eq!(kind_of("/etc/app/conf"), Some(TokenKind::Path));
    assert_eq!(kind_of("sshd[123]"), Some(TokenKind::Process));
    assert_eq!(kind_of("35ms"), Some(TokenKind::Other));
    assert_eq!(kind_of("v1.2.3"), Some(TokenKind::Other));
    assert_eq!(kind_of("HTTP/1.1"), Some(TokenKind::Other));
    assert_eq!(kind_of("0xdeadbeef"), Some(TokenKind::Other));
    assert_eq!(kind_of("2024-01-15"), Some(TokenKind::Other));
    assert_eq!(kind_of("42"), None);
    assert_eq!(kind_of("true"), Some(TokenKind::Other));
}

#[test]
fn an_address_of_either_family_is_an_ip_token() {
    let cases = [
        ("2001:db8:85a3:0:0:8a2e:370:7334", "2001:db8:85a3:0:0:8a2e:370:7334"),
        ("fe80::", "fe80::"),
        ("fe80::1", "fe80::"),
        ("10.1.2.3", "10.1.2.3"),
    ];
    for (address, token) in cases {
        let text = format!("from {address} now");
        let tokens = tokenize_with_metadata(&text, Style::default());
        let ips: Vec<&str> = tokens
            .iter()
            .filter(|t| t.1 == Some(TokenKind::Ip))
            .map(|t| t.2.as_str())
            .collect();
        assert_eq!(ips, vec![token], "{text}");
    }
}

#[test]
fn a_line_without_a_timestamp_takes_the_instant_before_it() {
    let lines = json_lines(&[
        r#"{"msg":"before any timestamp"}"#,
        r#"{"ts":"2024-01-15T08:30:00Z","msg":"a"}"#,
        r#"{"msg":"no timestamp"}"#,
        r#"{"ts":"not a timestamp","msg":"unreadable"}"#,
        r#"{"ts":"2024-01-15T08:31:00Z","msg":"b"}"#,
        r#"{"msg":"no timestamp again"}"#,
    ]);
    let index = build_time_index_in(&lines, 2024);
    let first = Instant { secs: 1705307400, nanos: 0 };
    let second = Instant { secs: 1705307460, nanos: 0 };
    assert_eq!(index.len(), 6);
    assert_eq!(index.timestamp_at(0), None);
    assert_eq!(index.timestamp_at(1), Some(first));
    assert_eq!(index.timestamp_at(2), Some(first));
    assert_eq!(index.timestamp_at(3), Some(first));
    assert_eq!(index.timestamp_at(4), Some(second));
    assert_eq!(index.timestamp_at(5), Some(second));
    assert_eq!(index.timestamp_at(6), None);
    assert_eq!(index.min_ts, Some(first));
    assert_eq!(index.max_ts, Some(second));
    let resolved: Vec<Instant> = (0..6).filter_map(|i| index.timestamp_at(i)).collect();
    assert!(resolved.windows(2).all(|w| w[0] <= w[1]));
}

#[test]
fn appending_fills_forward_from_the_last_instant() {
    let lines = json_lines(&[r#"{"ts":"2024-01-15T08:30:00Z","msg":"a"}"#]);
    let mut index = build_time_index_in(&lines, 2024);
    let more = json_lines(&[
        r#"{"msg":"no timestamp"}"#,
        r#"{"ts":"2024-01-15T08:29:00Z","msg":"earlier"}"#,
        r#"{"msg":"no timestamp again"}"#,
    ]);
    index.append_in(&more, 2024);
    let first = Instant { secs: 1705307400, nanos: 0 };
    let earlier = Instant { secs: 1705307340, nanos: 0 };
    assert_eq!(index.len(), 4);
    assert_eq!(index.timestamp_at(1), Some(first));
    assert_eq!(index.timestamp_at(2), Some(earlier));
    assert_eq!(index.timestamp_at(3), Some(earlier));
    assert_eq!(index.min_ts, Some(earlier));
    assert_eq!(index.max_ts, Some(first));
}

#[test]
fn the_counts_of_a_histogram_sum_to_the_lines_with_an_instant() {
    let lines = json_lines(&[
        r#"{"msg":"before any timestamp"}"#,
        r#"{"ts":"2024-01-15T08:30:00Z","msg":"a"}"#,
        r#"{"msg":"filled"}"#,
        r#"{"ts":"2024-01-15T08:30:03Z","msg":"b"}"#,
        r#"{"ts":"2024-01-15T08:30:10Z","msg":"c"}"#,
    ]);
    let index = build_time_index_in(&lines, 2024);
    for buckets in [1usize, 2, 3, 4, 7, 10, 11, 100] {
        let sparkline = compute_sparkline(&index, buckets).unwrap();
        assert_eq!(sparkline.num_buckets, buckets);
        assert_eq!(sparkline.buckets.len(), buckets);
        assert_eq!(sparkline.bucket_starts.len(), buckets);
        assert_eq!(sparkline.buckets.iter().sum::<u64>(), 4);
    }
    let sparkline = compute_sparkline(&index, 4).unwrap();
    assert_eq!(sparkline.bucket_duration_secs, 3);
    assert_eq!(sparkline.buckets, vec![2, 1, 0, 1]);
    let start = 1705307400;
    let starts: Vec<i64> = sparkline.bucket_starts.iter().map(|t| t.secs).collect();
    assert_eq!(starts, vec![start, start + 3, start + 6, start + 9]);

    let wide = compute_sparkline(&index, 100).unwrap();
    assert_eq!(wide.bucket_duration_secs, 1);
    assert_eq!(wide.buckets[0], 2);
    assert_eq!(wide.buckets[3], 1);
    assert_eq!(wide.buckets[10], 1);

    assert!(compute_sparkline(&index, 0).is_none());
    let empty = build_time_index_in(&json_lines(&[r#"{"msg":"x"}"#]), 2024);
    assert!(compute_sparkline(&empty, 10).is_none());
}

#[test]
fn a_range_of_buckets_covers_from_the_first_start_to_the_last_end() {
    let lines = json_lines(&[
        r#"{"ts":"2024-01-15T08:30:00Z","msg":"a"}"#,
        r#"{"ts":"2024-01-15T08:30:10Z","msg":"c"}"#,
    ]);
    let index = build_time_index_in(&lines, 2024);
    let sparkline = compute_sparkline(&index, 4).unwrap();
    let start = 1705307400;
    let range = bucket_range_to_time_range(&sparkline, 1, 2).unwrap();
    assert_eq!(range.start, Instant { secs: start + 3, nanos: 0 });
    assert_eq!(range.end, Instant { secs: start + 9, nanos: 0 });
    let clamped = bucket_range_to_time_range(&sparkline, 3, 100).unwrap();
    assert_eq!(clamped.start, Instant { secs: start + 9, nanos: 0 });
    assert_eq!(clamped.end, Instant { secs: start + 12, nanos: 0 });
    assert!(bucket_range_to_time_range(&sparkline, 2, 1).is_none());
    assert!(bucket_range_to_time_range(&sparkline, 4, 5).is_none());
}

#[test]
fn a_time_range_includes_both_its_ends() {
    let lines = json_lines(&[
        r#"{"msg":"no instant"}"#,
        r#"{"ts":"2024-01-15T08:30:00Z","msg":"a"}"#,
        r#"{"ts":"2024-01-15T08:30:05Z","msg":"b"}"#,
        r#"{"ts":"2024-01-15T08:30:10Z","msg":"c"}"#,
    ]);
    let index = build_time_index_in(&lines, 2024);
    let range = TimeRange {
        start: Instant { secs: 1705307400, nanos: 0 },
        end: Instant { secs: 1705307405, nanos: 0 },
    };
    assert_eq!(filter_by_time_range(&index, &range, &[0, 1, 2, 3, 9]), vec![1, 2]);
    assert_eq!(filter_by_time_range(&index, &range, &[3, 2, 2]), vec![2, 2]);
    assert!(range.contains(range.start) && range.contains(range.end));
    assert!(!range.contains(Instant { secs: 1705307405, nanos: 1 }));
}

#[test]
fn the_filters_apply_one_after_the_other() {
    let raw = [
        r#"{"ts":"2024-01-15T08:30:00Z","level":"info","msg":"took 35ms"}"#,
        r#"{"ts":"2024-01-15T08:30:05Z","level":"error","msg":"took 1200ms"}"#,
        r#"{"ts":"2024-01-15T08:30:10Z","level":"error","msg":"took 7ms"}"#,
        r#"{"ts":"2024-01-15T08:30:10Z","level":"error","msg":"failed"}"#,
    ];
    let lines = json_lines(&raw);
    let index = build_time_index_in(&lines, 2024);
    let range = TimeRange {
        start: Instant { secs: 1705307405, nanos: 0 },
        end: Instant { secs: 1705307410, nanos: 0 },
    };
    let template = lines[1].template.clone();
    assert_eq!(lines[2].template, template);
    assert_ne!(lines[0].template, template);
    assert_ne!(lines[3].template, template);

    let all = apply_filters(&lines, "", None, None, None, None);
    assert_eq!(all.indices, vec![0, 1, 2, 3]);
    let by_text = apply_filters(&lines, "took", None, None, None, None);
    assert_eq!(by_text.indices, vec![0, 1, 2]);
    let by_time = apply_filters(&lines, "took", None, Some(&index), Some(&range), None);
    assert_eq!(by_time.indices, vec![1, 2]);
    let without_index = apply_filters(&lines, "took", None, None, Some(&range), None);
    assert_eq!(without_index.indices, vec![0, 1, 2]);
    let by_all = apply_filters(
        &lines,
        "",
        Some(LogLevel::Error),
        Some(&index),
        Some(&range),
        Some(&template),
    );
    assert_eq!(by_all.indices, vec![1, 2]);
    assert!(!by_all.is_fuzzy);
    assert_eq!(filter_by_template(&lines, &template, &[3, 2, 0, 1, 7]), vec![2, 1]);
}

#[test]
fn the_heaviest_word_that_the_matcher_takes_still_matches_fuzzily() {
    assert_eq!(WORD_LIMIT, 2520);
    let pattern = "a".repeat(WORD_LIMIT);
    assert!(fits_matcher(&pattern));
    let run = format!("{}-", "a".repeat(WORD_LIMIT));
    assert_eq!(fuzzy_score_within(&pattern, &run), Some(65530));

    let raw = format!("{}-{}", "a".repeat(1260), "a".repeat(1260));
    assert!(fuzzy_score_within(&pattern, &raw).is_some());
    let lines = vec![plain(&raw, None), plain("no such letter", None)];
    let result = filter_lines(&lines, &pattern, None);
    assert_eq!(result.indices, vec![0]);
    assert!(result.is_fuzzy);
}

#[test]
fn a_word_too_heavy_for_the_matcher_matches_nothing_fuzzily() {
    let pattern = "a".repeat(WORD_LIMIT + 1);
    assert!(!fits_matcher(&pattern));
    let raw = format!("{}-{}", "a".repeat(1261), "a".repeat(1260));
    assert_eq!(fuzzy_score_within(&pattern, &raw), None);
    let lines = vec![plain(&raw, None)];
    let result = filter_lines(&lines, &pattern, None);
    assert!(result.indices.is_empty());
    assert!(!result.is_fuzzy);

    let whole = "a".repeat(WORD_LIMIT + 1);
    let exact = filter_lines(&[plain(&whole, None)], &pattern, None);
    assert_eq!(exact.indices, vec![0]);
    assert!(!exact.is_fuzzy);
}

#[test]
fn a_long_pattern_of_short_words_matches_fuzzily() {
    let pattern = "ab ".repeat(700);
    assert_eq!(pattern.chars().count(), 2100);
    assert!(fits_matcher(&pattern));
    let lines = vec![plain("a-b", None), plain("b-a", None)];
    let result = filter_lines(&lines, &pattern, None);
    assert_eq!(result.indices, vec![0]);
    assert!(result.is_fuzzy);

    assert!(fuzzy_score_within("conref", "connection refused").is_some());
    assert_eq!(fuzzy_score_within("conref", "nothing alike"), None);
    assert_eq!(fuzzy_score_within("ab ab", "a-b"), Some(2 * fuzzy_score_within("ab", "a-b").unwrap()));
}

#[test]
fn words_are_parted_by_spaces_that_no_backslash_stands_before() {
    let half = "a".repeat(1500);
    assert!(fits_matcher(&format!("{half} {half}")));
    assert!(!fits_matcher(&format!("{half}\\ {half}")));
    assert!(fits_matcher(&format!("{half}\\\\ {half}")) == false);
    assert!(fits_matcher(&format!("{half}\t{half}")) == false);
    assert!(fits_matcher(""));
    assert!(fits_matcher(&" ".repeat(5000)));
    assert!(fits_matcher(&format!(" {}", "a".repeat(WORD_LIMIT))));
    assert!(fits_matcher(&format!("{} ", "a".repeat(WORD_LIMIT))));
    assert!(!fits_matcher(&format!(" {} ", "a".repeat(WORD_LIMIT + 1))));
}

#[test]
fn a_backslash_weighs_twice_in_its_word() {
    assert!(fits_matcher(&"\\".repeat(1260)));
    assert!(!fits_matcher(&"\\".repeat(1261)));
    assert!(fits_matcher(&format!("{}\\", "a".repeat(2518))));
    assert!(!fits_matcher(&format!("{}\\", "a".repeat(2519))));

    let pattern = format!("é{}", "\\".repeat(1259));
    assert!(fits_matcher(&pattern));
    let raw = format!("é{}", "\\".repeat(2600));
    assert!(fuzzy_score_within(&pattern, &raw).is_some());
}

#[test]
fn no_two_tokens_have_a_byte_in_common() {
    let text = "GET https://example.com/a/b?x=10.0.0.1 from 10.0.0.2:8080 v1.2.3 took 35ms \
                id=550e8400-e29b-41d4-a716-446655440000 path=/var/log/app.log at 2024-01-15 \
                \"quoted 42\" 0xdeadbeef nginx[1234] true 99.5%";
    let regions = collect_all_regions(text);
    assert!(regions.len() > 8);
    for i in 0..regions.len() {
        assert!(regions[i].start < regions[i].end);
        assert!(text.is_char_boundary(regions[i].start));
        assert!(text.is_char_boundary(regions[i].end));
        for j in (i + 1)..regions.len() {
            assert!(regions[i].start <= regions[j].start);
            assert!(regions[i].end <= regions[j].start);
        }
    }
    let tokens = tokenize_with_metadata(text, Style::default());
    let whole: String = tokens.iter().map(|t| t.2.as_str()).collect();
    assert_eq!(whole, text);
}

#[test]
fn a_search_changes_no_text() {
    let line = || {
        Line::from(vec![
            Span::styled("say ab".to_string(), Style::default().fg(Color::Red)),
            Span::styled("".to_string(), Style::default()),
            Span::styled("cab".to_string(), Style::default().fg(Color::Blue)),
            Span::styled("c! héllo abc".to_string(), Style::default()),
        ])
    };
    let text = |l: &Line| -> String { l.spans.iter().map(|s| s.content.as_str()).collect() };
    for pattern in ["abc", "ABC", "a", "c! h", "say abcabc! héllo abc", "zzz", "", "é"] {
        let result = apply_search_highlight(line(), pattern);
        assert_eq!(text(&result), "say abcabc! héllo abc", "pattern {pattern:?}");
    }
    let matched = apply_search_highlight(line(), "abc");
    let found = Style::default().bg(Color::Yellow).fg(Color::Black);
    let shown: String = matched
        .spans
        .iter()
        .filter(|s| s.style == found)
        .map(|s| s.content.as_str())
        .collect();
    assert_eq!(shown, "abcabcabc");
}
