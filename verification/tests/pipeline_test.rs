use lumolog::highlighter::highlight_line;
use lumolog::parser::{LogFormat, LogLevel, ParsedLine, detect_format, parse_line};
use lumolog::style::{Color, Line, Modifier, Span};

/// Result of running a log file through the full pipeline.
struct PipelineResult {
    pub format: LogFormat,
    pub parsed: Vec<ParsedLine>,
    pub highlighted: Vec<Line>,
}

/// Run raw lines (not from a file) through detect → parse → highlight.
fn pipeline_from_lines(lines: &[&str]) -> PipelineResult {
    let raw_lines: Vec<String> = lines.iter().map(|s| s.to_string()).collect();
    let format = detect_format(&raw_lines);
    let parsed: Vec<ParsedLine> = raw_lines.iter().map(|l| parse_line(l, format)).collect();
    let highlighted: Vec<Line> = parsed
        .iter()
        .map(|p| {
            let line = highlight_line(p);
            Line::from(
                line.spans
                    .iter()
                    .map(|s| Span::styled(s.content.to_string(), s.style))
                    .collect::<Vec<_>>(),
            )
        })
        .collect();
    PipelineResult {
        format,
        parsed,
        highlighted,
    }
}

/// Check if a highlighted line contains a span with the given text and foreground color.
fn has_span(line: &Line, text: &str, color: Color) -> bool {
    line.spans
        .iter()
        .any(|s| s.content.contains(text) && s.style.fg == Some(color))
}

/// Get the full text content of a highlighted line (all spans concatenated).
fn line_text(line: &Line) -> String {
    line.spans.iter().map(|s| s.content.to_string()).collect()
}

/// Check if any span in the line has the given foreground color.
fn has_color(line: &Line, color: Color) -> bool {
    line.spans.iter().any(|s| s.style.fg == Some(color))
}

/// Check if a highlighted line contains a span with the given text, foreground color, and modifier.
fn has_span_with_modifier(
    line: &Line,
    text: &str,
    color: Color,
    modifier: Modifier,
) -> bool {
    line.spans.iter().any(|s| {
        s.content.contains(text)
            && s.style.fg == Some(color)
            && s.style.add_modifier.contains(modifier)
    })
}

/// Check if a highlighted line contains a span with the given text and background color.
fn has_span_with_bg(line: &Line, text: &str, bg: Color) -> bool {
    line.spans
        .iter()
        .any(|s| s.content.contains(text) && s.style.bg == Some(bg))
}

/// Dump a highlighted line as a human-readable string showing each span's text and color.
/// Useful for debugging test failures.
fn debug_spans(line: &Line) -> String {
    line.spans
        .iter()
        .map(|s| {
            let color = match s.style.fg {
                Some(c) => format!("{:?}", c),
                None => "default".to_string(),
            };
            format!("[{}: {:?}]", color, s.content.as_str())
        })
        .collect::<Vec<_>>()
        .join(" ")
}

/// Assert that a parsed line has the expected log level.
fn assert_level(parsed: &ParsedLine, expected: Option<LogLevel>, line_num: usize) {
    assert_eq!(
        parsed.level, expected,
        "Line {}: expected level {:?}, got {:?} (raw: {:?})",
        line_num, expected, parsed.level, parsed.raw
    );
}

/// Assert that an error-level line is colored red.
fn assert_error_is_red(line: &Line, line_num: usize) {
    assert!(
        has_color(line, Color::Red),
        "Line {}: error line should have red spans. Spans: {}",
        line_num,
        debug_spans(line)
    );
}

/// Assert that a warn-level line is colored yellow.
fn assert_warn_is_yellow(line: &Line, line_num: usize) {
    assert!(
        has_color(line, Color::Yellow),
        "Line {}: warn line should have yellow spans. Spans: {}",
        line_num,
        debug_spans(line)
    );
}

/// Assert that an info-level line is colored green.
fn assert_info_is_green(line: &Line, line_num: usize) {
    assert!(
        has_color(line, Color::Green),
        "Line {}: info line should have green spans. Spans: {}",
        line_num,
        debug_spans(line)
    );
}

#[test]
fn test_version_number_with_v_prefix() {
    let result = pipeline_from_lines(&["Starting myapp v2.4.1"]);
    let line = &result.highlighted[0];
    assert!(
        has_span(line, "v2.4.1", Color::Cyan),
        "v-prefixed version should be a single cyan span. Spans: {}",
        debug_spans(line)
    );
}

#[test]
fn test_decimal_with_unit_single_span() {
    let result = pipeline_from_lines(&["response time 2.3s"]);
    let line = &result.highlighted[0];
    assert!(
        has_span(line, "2.3s", Color::Cyan),
        "Decimal with unit '2.3s' should be a single cyan span. Spans: {}",
        debug_spans(line)
    );
}

#[test]
fn test_percent_attached_to_number() {
    let result = pipeline_from_lines(&["cache hit rate 45%"]);
    let line = &result.highlighted[0];
    assert!(
        has_span(line, "45%", Color::Cyan),
        "Percent '45%' should be a single cyan span. Spans: {}",
        debug_spans(line)
    );
}

#[test]
fn test_http_protocol_version_not_number_highlighted() {
    // "HTTP/1.1" — the "1.1" should not be highlighted as a separate number
    let result = pipeline_from_lines(&[
        r#"2024-01-01 INFO GET /api/users HTTP/1.1 200 OK"#,
        r#"2024-01-01 INFO GET /api/users HTTP/1.1 200 OK"#,
    ]);
    let line = &result.highlighted[0];
    let text = line_text(line);
    assert!(text.contains("HTTP/1.1"), "Should contain HTTP/1.1");
    // "1.1" should NOT be in a Cyan span by itself
    let has_cyan_11 = line.spans.iter().any(|s| {
        s.content.as_str() == "1.1" && s.style.fg == Some(Color::Cyan)
    });
    assert!(
        !has_cyan_11,
        "HTTP/1.1 version should not have '1.1' as separate cyan span. Spans: {}",
        debug_spans(line)
    );
}

#[test]
fn test_number_with_unit_still_highlighted() {
    // Numbers with units should still be highlighted even if single digit
    let result = pipeline_from_lines(&["2024-01-01 INFO response time 5ms"]);
    let line = &result.highlighted[0];
    assert!(
        has_span(line, "5ms", Color::Cyan),
        "Number with unit '5ms' should be cyan. Spans: {}",
        debug_spans(line)
    );
}

#[test]
fn test_ip_is_cyan_bold() {
    let result = pipeline_from_lines(&["2024-01-15 INFO connected to 192.168.1.100"]);
    let line = &result.highlighted[0];
    assert!(
        has_span_with_modifier(line, "192.168.1.100", Color::Cyan, Modifier::Bold),
        "IP should be cyan+bold. Spans: {}",
        debug_spans(line)
    );
}

#[test]
fn test_path_is_muted_green() {
    let result = pipeline_from_lines(&["2024-01-15 INFO loaded /etc/app/config.yaml"]);
    let line = &result.highlighted[0];
    assert!(
        has_span(line, "/etc/app/config.yaml", Color::Indexed(108)),
        "Path should be Indexed(108) muted green. Spans: {}",
        debug_spans(line)
    );
}

#[test]
fn test_pointer_is_orange() {
    let result = pipeline_from_lines(&["2024-01-15 ERROR segfault at 0x7fff5fbff8c0"]);
    let line = &result.highlighted[0];
    assert!(
        has_span(line, "0x7fff5fbff8c0", Color::Indexed(208)),
        "Pointer should be Indexed(208) orange. Spans: {}",
        debug_spans(line)
    );
}

#[test]
fn test_json_error_badge_has_red_background() {
    let result = pipeline_from_lines(&[r#"{"level":"error","msg":"fail","ts":"2024-01-15T00:00:00Z"}"#]);
    let line = &result.highlighted[0];
    assert!(
        has_span_with_bg(line, "ERR", Color::Red),
        "Error badge should have red background. Spans: {}",
        debug_spans(line)
    );
}

#[test]
fn test_json_warn_badge_has_yellow_background() {
    let result = pipeline_from_lines(&[r#"{"level":"warn","msg":"slow","ts":"2024-01-15T00:00:00Z"}"#]);
    let line = &result.highlighted[0];
    assert!(
        has_span_with_bg(line, "WRN", Color::Yellow),
        "Warn badge should have yellow background. Spans: {}",
        debug_spans(line)
    );
}

#[test]
fn test_json_info_badge_has_green_background() {
    let result = pipeline_from_lines(&[r#"{"level":"info","msg":"ok","ts":"2024-01-15T00:00:00Z"}"#]);
    let line = &result.highlighted[0];
    assert!(
        has_span_with_bg(line, "INF", Color::Green),
        "Info badge should have green background. Spans: {}",
        debug_spans(line)
    );
}

#[test]
fn test_adhoc_json_lines() {
    let result = pipeline_from_lines(&[
        r#"{"level":"error","message":"disk full","timestamp":"2024-01-01T00:00:00Z"}"#,
        r#"{"level":"info","message":"recovered","timestamp":"2024-01-01T00:00:01Z"}"#,
    ]);
    assert_eq!(result.format, LogFormat::Json);
    assert_level(&result.parsed[0], Some(LogLevel::Error), 0);
    assert_level(&result.parsed[1], Some(LogLevel::Info), 1);
    assert_error_is_red(&result.highlighted[0], 0);
    assert_info_is_green(&result.highlighted[1], 1);
}

#[test]
fn test_adhoc_plain_lines() {
    let result = pipeline_from_lines(&[
        "2024-01-01 00:00:00 WARN  disk space low",
        "2024-01-01 00:00:01 ERROR disk full",
    ]);
    assert_eq!(result.format, LogFormat::Plain);
    assert_warn_is_yellow(&result.highlighted[0], 0);
    assert_error_is_red(&result.highlighted[1], 1);
}

#[test]
fn test_debug_spans_produces_readable_output() {
    let result = pipeline_from_lines(&["2024-01-01 ERROR something broke"]);
    let debug = debug_spans(&result.highlighted[0]);
    // Should contain color names and quoted text
    assert!(debug.contains("Red"), "debug output should mention Red");
    assert!(
        debug.contains("DarkGray") || debug.contains("Indexed"),
        "debug output should mention a gray color for timestamp"
    );
}
