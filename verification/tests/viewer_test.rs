use lumolog::app::{App, AppMode, MenuAction};
use lumolog::command::{commands, Action};
use lumolog::highlighter::TokenKind;
use lumolog::instant::Instant;
use lumolog::parser::{LogFormat, LogLevel};
use lumolog::ui::{
    find_token_at_col, get_highlight_prefix_len, get_timestamp_prefix_len, get_tokenizable_text,
    line_number_width, menu_item_at_position, token_at_position, Area,
};

fn json_app() -> App {
    App::new(vec![
        r#"{"level":"info","msg":"a 10.0.0.5","ts":"2024-01-15T08:30:00Z"}"#.to_string(),
        r#"{"level":"warn","msg":"b","ts":"2024-01-15T08:30:05Z"}"#.to_string(),
        r#"{"level":"error","msg":"c","ts":"2024-01-15T08:30:10Z"}"#.to_string(),
        r#"{"level":"fatal","msg":"d"}"#.to_string(),
    ])
}

fn screen() -> Area {
    Area { x: 0, y: 0, width: 80, height: 24 }
}

#[test]
fn a_new_viewer_shows_every_line() {
    let app = json_app();
    assert_eq!(app.format(), LogFormat::Json);
    assert_eq!(app.format().label(), "JSON");
    assert_eq!(LogFormat::AccessLog.label(), "Access");
    assert_eq!(app.total_lines(), 4);
    assert_eq!(app.total_lines_unfiltered(), 4);
    assert_eq!(app.scroll_offset(), 0);
    assert_eq!(app.mode(), AppMode::Normal);
    assert_eq!(app.filter_pattern(), "");
    assert_eq!(app.source_name(), "stdin");
    assert_eq!(app.min_level(), None);
    assert!(!app.is_fuzzy() && !app.is_pretty() && !app.is_wrap() && !app.should_quit());
    assert!(app.is_sparkline_visible());
    assert!(app.sparkline_data().is_none());
    assert!(app.time_range().is_none() && app.time_mode_state().is_none());
    assert_eq!(app.time_index().unwrap().len(), 4);
    assert_eq!(app.palette_filtered().len(), commands().len());
    assert_eq!(
        app.available_levels,
        vec![LogLevel::Info, LogLevel::Warn, LogLevel::Error, LogLevel::Fatal]
    );
    assert_eq!(
        app.level_counts(),
        vec![
            (LogLevel::Info, 1),
            (LogLevel::Warn, 1),
            (LogLevel::Error, 1),
            (LogLevel::Fatal, 1)
        ]
    );
    let words = App::new(vec!["plain".to_string()]);
    assert!(!words.is_sparkline_visible());
    assert!(words.time_index().is_none());
}

#[test]
fn the_threshold_steps_through_the_severities_that_there_are() {
    let mut app = json_app();
    let mut seen = Vec::new();
    for _ in 0..5 {
        app.cycle_level_up();
        seen.push((app.min_level(), app.total_lines()));
    }
    assert_eq!(
        seen,
        vec![
            (Some(LogLevel::Warn), 3),
            (Some(LogLevel::Error), 2),
            (Some(LogLevel::Fatal), 1),
            (None, 4),
            (Some(LogLevel::Warn), 3),
        ]
    );
    app.set_min_level(LogLevel::Warn);
    assert_eq!(app.min_level(), None);
    let mut seen = Vec::new();
    for _ in 0..5 {
        app.cycle_level_down();
        seen.push(app.min_level());
    }
    assert_eq!(
        seen,
        vec![
            Some(LogLevel::Fatal),
            Some(LogLevel::Error),
            Some(LogLevel::Warn),
            None,
            Some(LogLevel::Fatal),
        ]
    );
    let mut one = App::new(vec![r#"{"level":"info","msg":"x"}"#.to_string()]);
    one.cycle_level_up();
    assert_eq!(one.min_level(), None);
    one.cycle_level_down();
    assert_eq!(one.min_level(), None);
}

#[test]
fn the_filter_follows_its_pattern() {
    let mut app = json_app();
    app.enter_filter_mode();
    assert!(app.is_filter_mode());
    app.scroll_to_bottom();
    for c in "10.0".chars() {
        app.filter_input(c);
    }
    assert_eq!(app.filter_pattern(), "10.0");
    assert_eq!(app.total_lines(), 1);
    assert_eq!(app.scroll_offset(), 0);
    assert!(!app.is_fuzzy());
    app.filter_backspace();
    assert_eq!(app.filter_pattern(), "10.");
    app.set_filter("ftl".to_string());
    assert_eq!(app.total_lines(), 1);
    assert!(app.is_fuzzy());
    assert_eq!(app.cursor_line_raw(), Some(r#"{"level":"fatal","msg":"d"}"#));
    app.clear_filter();
    assert_eq!(app.filter_pattern(), "");
    assert_eq!(app.total_lines(), 4);
    assert_eq!(app.mode(), AppMode::Normal);
    app.filter_backspace();
    assert_eq!(app.filter_pattern(), "");
}

#[test]
fn similar_lines_have_the_template_of_the_line_under_the_cursor() {
    let mut app = App::new(vec![
        "connect to 10.0.0.5 failed".to_string(),
        "all good".to_string(),
        "connect to 10.0.0.9 failed".to_string(),
    ]);
    app.enter_cursor_mode();
    app.cursor_down(2);
    assert_eq!(app.cursor_position(), 2);
    app.filter_by_similar();
    assert!(app.is_similar_filter());
    assert_eq!(app.mode(), AppMode::Normal);
    assert_eq!(app.total_lines(), 2);
    assert_eq!(
        app.all_filtered_lines_raw(),
        "connect to 10.0.0.5 failed\nconnect to 10.0.0.9 failed"
    );
    app.clear_similar();
    assert!(!app.is_similar_filter());
    assert_eq!(app.total_lines(), 3);
}

#[test]
fn the_screen_scrolls_no_further_than_its_lines() {
    let lines: Vec<String> = (0..10).map(|i| format!("Line {}", i)).collect();
    let mut app = App::new(lines);
    app.set_viewport_height(4);
    assert_eq!(app.visible_entry_count(), 4);
    assert!(!app.is_at_bottom());
    app.page_down();
    assert_eq!(app.scroll_offset(), 3);
    app.page_down();
    assert_eq!(app.scroll_offset(), 6);
    app.page_down();
    assert_eq!(app.scroll_offset(), 6);
    assert!(app.is_at_bottom());
    let numbers: Vec<usize> = app
        .visible_parsed_lines_numbered()
        .iter()
        .map(|(n, _)| *n)
        .collect();
    assert_eq!(numbers, vec![7, 8, 9, 10]);
    app.page_up();
    assert_eq!(app.scroll_offset(), 3);
    app.scroll_to_top();
    assert_eq!(app.scroll_offset(), 0);
    app.scroll_to_bottom();
    assert_eq!(app.scroll_offset(), 10);
    app.set_viewport_height(0);
    assert_eq!(app.scroll_offset(), 9);
    app.scroll_right(3);
    app.scroll_left(1);
    assert_eq!(app.h_scroll(), 2);
    app.toggle_wrap();
    assert!(app.is_wrap());
    assert_eq!(app.h_scroll(), 0);
    app.scroll_left(5);
    assert_eq!(app.h_scroll(), 0);
}

#[test]
fn a_pretty_line_takes_the_rows_of_its_document() {
    let mut app = App::new(vec![
        r#"{"level":"info","msg":"a"}"#.to_string(),
        r#"{"level":"info","msg":"b"}"#.to_string(),
        r#"{"level":"info","msg":"c"}"#.to_string(),
    ]);
    app.set_viewport_height(6);
    assert_eq!(app.visible_entry_count(), 3);
    app.toggle_pretty();
    assert!(app.is_pretty());
    assert_eq!(app.visible_entry_count(), 2);
    app.enter_cursor_mode();
    app.cursor_down(2);
    assert_eq!(app.cursor_position(), 2);
    assert_eq!(app.scroll_offset(), 2);
    app.cursor_up(1);
    assert_eq!(app.scroll_offset(), 1);
    app.exit_cursor_mode();
    assert!(!app.is_cursor_mode());
}

#[test]
fn new_lines_keep_the_screen_at_the_end() {
    let mut app = json_app();
    app.set_viewport_height(2);
    app.set_sparkline_width(4);
    app.scroll_down(100);
    assert_eq!(app.scroll_offset(), 2);
    app.append_lines(vec![
        r#"{"level":"debug","msg":"e","ts":"2024-01-15T08:30:20Z"}"#.to_string(),
    ]);
    assert_eq!(app.total_lines_unfiltered(), 5);
    assert_eq!(app.total_lines(), 5);
    assert_eq!(app.scroll_offset(), 5);
    assert_eq!(app.time_index().unwrap().len(), 5);
    assert_eq!(
        app.time_index().unwrap().max_ts,
        Some(Instant { secs: 1705307420, nanos: 0 })
    );
    assert_eq!(app.sparkline_data().unwrap().buckets.iter().sum::<u64>(), 5);
    assert_eq!(app.sparkline_data().unwrap().bucket_duration_secs, 5);
    app.scroll_to_top();
    app.append_lines(vec!["not json".to_string()]);
    assert_eq!(app.scroll_offset(), 0);
    assert_eq!(app.format(), LogFormat::Json);
    assert_eq!(app.available_levels.len(), 4);
}

#[test]
fn the_menu_of_a_token_offers_what_suits_its_kind() {
    let mut app = json_app();
    assert!(app.execute_menu_action().is_none());
    app.open_context_menu("10.0.0.5".to_string(), TokenKind::Ip, (10, 5));
    assert_eq!(app.mode(), AppMode::ContextMenu);
    assert_eq!(
        app.context_menu().unwrap().items,
        vec![MenuAction::FilterByValue, MenuAction::LookupAbuseIPDB]
    );
    app.menu_up();
    assert_eq!(app.context_menu().unwrap().selected, 0);
    app.menu_down();
    app.menu_down();
    assert_eq!(app.context_menu().unwrap().selected, 1);
    assert_eq!(menu_item_at_position(&app, 12, 6, screen()), Some(0));
    assert_eq!(menu_item_at_position(&app, 12, 7, screen()), Some(1));
    assert_eq!(menu_item_at_position(&app, 12, 8, screen()), None);
    assert_eq!(menu_item_at_position(&app, 12, 5, screen()), None);
    assert_eq!(menu_item_at_position(&app, 10, 6, screen()), None);
    assert_eq!(menu_item_at_position(&app, 11, 6, screen()), Some(0));
    assert_eq!(menu_item_at_position(&app, 32, 6, screen()), Some(0));
    assert_eq!(menu_item_at_position(&app, 33, 6, screen()), None);
    assert_eq!(
        app.execute_menu_action(),
        Some((MenuAction::LookupAbuseIPDB, "10.0.0.5".to_string()))
    );
    assert_eq!(app.mode(), AppMode::Normal);
    assert!(app.context_menu().is_none());
    assert_eq!(menu_item_at_position(&app, 12, 6, screen()), None);

    app.open_context_menu("http://x.org".to_string(), TokenKind::Url, (70, 23));
    assert_eq!(
        app.context_menu().unwrap().items,
        vec![MenuAction::FilterByValue, MenuAction::OpenInBrowser]
    );
    assert_eq!(menu_item_at_position(&app, 57, 21, screen()), Some(0));
    assert_eq!(app.execute_menu_item(5), None);
    assert!(app.context_menu().is_none());
    app.open_context_menu("x".to_string(), TokenKind::Path, (0, 0));
    assert_eq!(app.context_menu().unwrap().items, vec![MenuAction::FilterByValue]);
    assert_eq!(
        app.execute_menu_item(0),
        Some((MenuAction::FilterByValue, "x".to_string()))
    );
    app.open_context_menu("x".to_string(), TokenKind::Other, (0, 0));
    app.close_context_menu();
    assert!(app.context_menu().is_none());
    assert_eq!(MenuAction::FilterByValue.label(), "Filter by this value");
    assert_eq!(MenuAction::OpenInBrowser.label(), "Open in browser");
    assert_eq!(MenuAction::LookupAbuseIPDB.label(), "Lookup on AbuseIPDB");
}

#[test]
fn the_palette_shows_the_commands_that_match_best_first() {
    let table = commands();
    assert_eq!(table.len(), 28);
    assert_eq!(table[0].name, "Filter / search");
    assert_eq!(table[0].keybinding, Some("/"));
    assert_eq!(table[0].action, Action::OpenFilter);
    assert_eq!(table[16].name, "Toggle sparkline");
    assert_eq!(table[16].keybinding, None);
    assert_eq!(table[27].action, Action::ScrollToBottom);

    let mut app = json_app();
    app.open_palette();
    assert_eq!(app.mode(), AppMode::CommandPalette);
    assert_eq!(app.palette_filtered().len(), 28);
    app.palette_down();
    app.palette_down();
    assert_eq!(app.palette_selected(), 2);
    app.palette_up();
    assert_eq!(app.palette_selected(), 1);
    for c in "quit".chars() {
        app.palette_type(c);
    }
    assert_eq!(app.palette_input(), "quit");
    assert_eq!(app.palette_selected(), 0);
    assert_eq!(table[app.palette_filtered()[0]].name, "Quit");
    assert_eq!(app.palette_execute(), Some(Action::Quit));
    assert_eq!(app.mode(), AppMode::Normal);

    app.open_palette();
    for c in "zzzzqq".chars() {
        app.palette_type(c);
    }
    assert!(app.palette_filtered().is_empty());
    assert_eq!(app.palette_execute(), None);
    assert_eq!(app.mode(), AppMode::CommandPalette);
    app.palette_down();
    assert_eq!(app.palette_selected(), 0);
    for _ in 0..6 {
        app.palette_backspace();
    }
    assert_eq!(app.palette_filtered().len(), 28);
    app.close_palette();
    assert_eq!(app.mode(), AppMode::Normal);
}

#[test]
fn a_selection_of_buckets_filters_by_their_time() {
    let mut app = json_app();
    app.enter_time_mode();
    assert_eq!(app.mode(), AppMode::Normal);
    app.set_sparkline_width(5);
    assert_eq!(app.sparkline_data().unwrap().bucket_duration_secs, 2);
    assert_eq!(app.sparkline_data().unwrap().buckets, vec![1, 0, 1, 0, 2]);
    app.enter_time_mode();
    assert_eq!(app.mode(), AppMode::TimeRange);
    assert_eq!(app.time_mode_state().unwrap().cursor_bucket, 2);
    app.time_cursor_left(5);
    assert_eq!(app.time_mode_state().unwrap().cursor_bucket, 0);
    app.time_cursor_right(1);
    app.time_mark_start();
    assert_eq!(app.time_mode_state().unwrap().range_start, Some(1));
    app.time_cursor_right(100);
    assert_eq!(app.time_mode_state().unwrap().cursor_bucket, 4);
    app.time_cursor_left(1);
    app.time_mark_end_and_apply();
    assert_eq!(app.mode(), AppMode::Normal);
    assert!(app.time_mode_state().is_none());
    let range = *app.time_range().unwrap();
    assert_eq!(range.start, Instant { secs: 1705307402, nanos: 0 });
    assert_eq!(range.end, Instant { secs: 1705307408, nanos: 0 });
    assert_eq!(app.total_lines(), 1);
    app.clear_time_range();
    assert!(app.time_range().is_none());
    assert_eq!(app.total_lines(), 4);

    app.time_preset(5);
    let range = *app.time_range().unwrap();
    assert_eq!(range.end, Instant { secs: 1705307410, nanos: 0 });
    assert_eq!(range.start, Instant { secs: 1705307410 - 300, nanos: 0 });
    assert_eq!(app.total_lines(), 4);
    app.clear_time_range();

    app.time_mouse_up(3);
    assert!(app.time_range().is_none());
    app.time_mouse_down(4);
    assert_eq!(app.mode(), AppMode::TimeRange);
    assert!(app.time_mode_state().unwrap().dragging);
    app.time_mouse_drag(2);
    assert_eq!(app.time_mode_state().unwrap().cursor_bucket, 2);
    app.time_mouse_up(2);
    let range = *app.time_range().unwrap();
    assert_eq!(range.start, Instant { secs: 1705307404, nanos: 0 });
    assert_eq!(range.end, Instant { secs: 1705307410, nanos: 0 });
    assert_eq!(app.total_lines(), 3);
    app.toggle_sparkline();
    assert!(!app.is_sparkline_visible());
    app.enter_time_mode();
    assert_eq!(app.mode(), AppMode::Normal);
    app.exit_time_mode();
    app.set_sparkline_width(0);
    assert_eq!(app.sparkline_data().unwrap().num_buckets, 5);
}

#[test]
fn following_and_the_notice_of_a_copy_are_kept() {
    let mut app = json_app();
    app.set_follow_mode(true);
    assert!(app.is_follow_mode());
    app.toggle_follow_pause();
    assert!(app.is_follow_paused());
    app.set_source_name("app.log".to_string());
    assert_eq!(app.source_name(), "app.log");
    assert!(!app.show_yank_flash());
    app.set_yank_flash();
    app.tick_yank_flash();
    app.tick_yank_flash();
    assert!(app.show_yank_flash());
    app.tick_yank_flash();
    app.tick_yank_flash();
    assert!(!app.show_yank_flash());
    app.exit_filter_mode();
    app.quit();
    assert!(app.should_quit());
}

#[test]
fn a_cell_of_the_screen_leads_to_the_token_drawn_there() {
    let mut app = App::new(vec![
        "connect to 10.0.0.5 failed".to_string(),
        "2024-01-15 08:30:00 GET /api/users/42 done".to_string(),
    ]);
    app.set_viewport_height(22);
    let ip = Some((TokenKind::Ip, "10.0.0.5".to_string()));
    assert_eq!(token_at_position(&app, 16, 1, screen()), ip);
    assert_eq!(token_at_position(&app, 23, 1, screen()), ip);
    assert_eq!(token_at_position(&app, 24, 1, screen()), None);
    assert_eq!(token_at_position(&app, 15, 1, screen()), None);
    assert_eq!(token_at_position(&app, 4, 1, screen()), None);
    assert_eq!(token_at_position(&app, 16, 0, screen()), None);
    assert_eq!(token_at_position(&app, 0, 1, screen()), None);
    assert_eq!(token_at_position(&app, 16, 3, screen()), None);
    assert_eq!(token_at_position(&app, 79, 1, screen()), None);
    assert_eq!(
        token_at_position(&app, 5 + 20, 2, screen()),
        Some((TokenKind::HttpMethod, "GET".to_string()))
    );
    assert_eq!(
        token_at_position(&app, 5 + 24, 2, screen()),
        Some((TokenKind::Path, "/api/users/42".to_string()))
    );
    assert_eq!(token_at_position(&app, 5 + 3, 2, screen()), None);

    app.toggle_wrap();
    let narrow = Area { x: 0, y: 0, width: 12, height: 24 };
    assert_eq!(token_at_position(&app, 1 + 4, 2, narrow), None);
    assert_eq!(token_at_position(&app, 1 + 5, 2, narrow), ip);
    assert_eq!(token_at_position(&app, 1, 3, narrow), ip);
    assert_eq!(token_at_position(&app, 1 + 3, 3, narrow), None);
    assert_eq!(
        token_at_position(&app, 1 + 4, 6, narrow),
        Some((TokenKind::HttpMethod, "GET".to_string()))
    );
    let closed = Area { x: 0, y: 0, width: 2, height: 24 };
    assert_eq!(token_at_position(&app, 1, 1, closed), None);
}

#[test]
fn a_cell_of_a_pretty_line_leads_to_a_token_of_its_message() {
    let mut app = App::new(vec![
        r#"{"level":"info","msg":"from 10.0.0.5"}"#.to_string(),
        r#"{"level":"info","msg":"GET it"}"#.to_string(),
    ]);
    app.set_viewport_height(22);
    let ip = Some((TokenKind::Ip, "10.0.0.5".to_string()));
    assert_eq!(token_at_position(&app, 5 + 6 + 5, 1, screen()), ip);
    assert_eq!(token_at_position(&app, 5 + 5, 1, screen()), None);
    app.toggle_pretty();
    for row in 1..=5 {
        assert_eq!(token_at_position(&app, 5 + 5, row, screen()), ip);
    }
    assert_eq!(
        token_at_position(&app, 5, 6, screen()),
        Some((TokenKind::HttpMethod, "GET".to_string()))
    );
}

#[test]
fn the_prefix_of_a_shown_line_depends_on_its_format() {
    let app = App::new(vec![
        "2024-01-15 08:30:00 ERROR disk full".to_string(),
        "no timestamp".to_string(),
    ]);
    let with_stamp = &app.parsed_lines[0];
    assert_eq!(get_tokenizable_text(with_stamp), " ERROR disk full");
    assert_eq!(get_timestamp_prefix_len(with_stamp), 19);
    assert_eq!(get_highlight_prefix_len(with_stamp), 0);
    let without = &app.parsed_lines[1];
    assert_eq!(get_tokenizable_text(without), "no timestamp");
    assert_eq!(get_timestamp_prefix_len(without), 0);

    let json = json_app();
    let stamped = &json.parsed_lines[0];
    assert_eq!(get_tokenizable_text(stamped), "a 10.0.0.5");
    assert_eq!(get_timestamp_prefix_len(stamped), 0);
    assert_eq!(get_highlight_prefix_len(stamped), 6 + 20 + 1);
    assert_eq!(get_highlight_prefix_len(&json.parsed_lines[3]), 6);

    assert_eq!(line_number_width(0), 3);
    assert_eq!(line_number_width(999), 3);
    assert_eq!(line_number_width(1000), 4);
    assert_eq!(line_number_width(123456), 6);

    let tokens = lumolog::highlighter::tokenize_with_metadata("ab 10.0.0.5", Default::default());
    assert_eq!(find_token_at_col(0, &tokens), None);
    assert_eq!(
        find_token_at_col(3, &tokens),
        Some((TokenKind::Ip, "10.0.0.5".to_string()))
    );
    assert_eq!(find_token_at_col(11, &tokens), None);
}
