use ogent::tui::{
    FileSelector,
    file_popup_height, popup_origin, popup_width, LogScroll, parse_steer_event, selection_down, selection_up, skill_completion, SteerEvent};

#[test]
fn parses_steer_commands() {
    assert_eq!(parse_steer_event("/cancel"), SteerEvent::Cancel);
    assert_eq!(parse_steer_event("/complete"), SteerEvent::Complete);
    assert_eq!(parse_steer_event("/compact"), SteerEvent::Compact(None));
    assert_eq!(
        parse_steer_event("/compact fix auth"),
        SteerEvent::Compact(Some("fix auth".into()))
    );
    assert_eq!(parse_steer_event("/new"), SteerEvent::New);
    assert_eq!(parse_steer_event("/q"), SteerEvent::Exit(None));
    assert_eq!(parse_steer_event("/quit"), SteerEvent::Exit(None));
    assert_eq!(parse_steer_event("quit"), SteerEvent::Exit(None));
    assert_eq!(parse_steer_event("exit"), SteerEvent::Exit(None));
    assert_eq!(parse_steer_event("hi"), SteerEvent::Message("hi".into()));
}

#[test]
fn selection_moves_within_bounds() {
    assert_eq!(selection_up(3, 5), 0);
    assert_eq!(selection_up(7, 2), 5);
    assert_eq!(selection_down(2, 3, 4), 3);
    assert_eq!(selection_down(0, 1, 0), 0);
    assert_eq!(skill_completion("review"), "review skill");
}

#[test]
fn markdown_reply_counts_each_pushed_line() {
    let mut log = ogent::tui::UiLog::new();
    log.push_assistant_markdown("a\nb\n");
    assert_eq!(log.lines, vec!["ogent: a".to_string(), "ogent: b".to_string(), "ogent:".to_string()]);
    assert_eq!(log.len, 3);
    assert_eq!(log.generation(), 3);
    log.push_assistant_markdown("c");
    assert_eq!(log.len, 4);
    assert_eq!(log.generation(), 4);
}

#[test]
fn log_scroll_follows_the_bottom_until_scrolled_up() {
    let mut s = LogScroll::new();
    assert_eq!(s.settle(50, 20), 30);
    s.up(20);
    assert_eq!(s.y, 10);
    assert!(!s.follow_bottom);
    assert_eq!(s.settle(60, 20), 10);
    s.down(3, 40);
    assert_eq!(s.y, 13);
    assert!(!s.follow_bottom);
    s.down(30, 40);
    assert!(s.follow_bottom);
    assert_eq!(s.settle(70, 20), 50);
    s.up(100);
    assert_eq!(s.y, 0);
    assert_eq!(s.settle(10, 20), 0);
}

#[test]
fn popups_are_centred_and_bounded() {
    assert_eq!(popup_width(100), 60);
    assert_eq!(popup_width(50), 40);
    assert_eq!(popup_width(200), 80);
    assert_eq!(file_popup_height(4), 7);
    assert_eq!(file_popup_height(40), 18);
    assert_eq!(popup_origin(100, 30, 60, 7), (20, 11));
    assert_eq!(popup_origin(30, 5, 40, 7), (0, 0));
}

#[test]
fn file_picker_filters_by_query() {
    let files = vec!["src/main.rs".to_string(), "README.md".to_string(), "lib/util.rs".to_string()];
    let mut sel = FileSelector::new(files.clone());
    assert_eq!(sel.filtered(), &files);
    sel.move_down(5);
    assert_eq!(sel.selected(), 2);
    assert_eq!(sel.completion(), Some("lib/util.rs".to_string()));
    for c in "main".chars() {
        sel.update_query(c);
    }
    assert_eq!(sel.selected(), 0);
    assert_eq!(sel.filtered(), &vec!["src/main.rs".to_string()]);
    assert_eq!(sel.completion(), Some("src/main.rs".to_string()));
    sel.update_query('z');
    assert!(sel.filtered().is_empty());
    assert_eq!(sel.completion(), None);
    for _ in 0..6 {
        sel.backspace();
    }
    assert_eq!(sel.filtered(), &files);
}
