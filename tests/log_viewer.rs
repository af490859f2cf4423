use crossterm::style::Color;
use logpager::log_file::Line;
use logpager::log_viewer::{layout_screen, HighlightError, LogViewer, Segment};

fn seg(start: usize, end: usize, fg: Option<Color>, bg: bool) -> Segment {
    Segment { start, end, fg, bg }
}

#[test]
fn segments_of_plain_line() {
    let lv = LogViewer::new();
    assert_eq!(lv.line_segments(b"hello"), vec![seg(0, 5, None, false)]);
    assert_eq!(lv.line_segments(b""), vec![]);
}

#[test]
fn segments_of_identical_highlight_and_search() {
    let mut lv = LogViewer::new();
    lv.set_highlight("ERROR".to_string(), Some("green".to_string())).unwrap();
    lv.set_search_pattern("ERROR".to_string());
    let segs = lv.line_segments(b"x ERROR y");
    assert_eq!(
        segs,
        vec![
            seg(0, 2, None, false),
            seg(2, 7, Some(Color::Green), true),
            seg(7, 9, None, false),
        ]
    );
}

#[test]
fn segments_of_overlapping_highlight_and_search() {
    let mut lv = LogViewer::new();
    lv.set_highlight("lo w".to_string(), Some("blue".to_string())).unwrap();
    lv.set_search_pattern("world".to_string());
    let segs = lv.line_segments(b"hello world");
    assert_eq!(
        segs,
        vec![
            seg(0, 3, None, false),
            seg(3, 6, Some(Color::Blue), false),
            seg(6, 7, Some(Color::Blue), true),
            seg(7, 11, None, true),
        ]
    );
}

#[test]
fn segments_of_repeated_matches() {
    let mut lv = LogViewer::new();
    lv.set_highlight("aa".to_string(), Some("red".to_string())).unwrap();
    let segs = lv.line_segments(b"aaaaa");
    assert_eq!(
        segs,
        vec![
            seg(0, 2, Some(Color::Red), false),
            seg(2, 4, Some(Color::Red), false),
            seg(4, 5, None, false),
        ]
    );
}

#[test]
fn first_registered_rule_wins() {
    let mut lv = LogViewer::new();
    lv.set_highlight("bcd".to_string(), Some("red".to_string())).unwrap();
    lv.set_highlight("abc".to_string(), Some("cyan".to_string())).unwrap();
    let segs = lv.line_segments(b"abcde");
    assert_eq!(
        segs,
        vec![
            seg(0, 1, Some(Color::Cyan), false),
            seg(1, 3, Some(Color::Red), false),
            seg(3, 4, Some(Color::Red), false),
            seg(4, 5, None, false),
        ]
    );
}

#[test]
fn empty_highlight_pattern_matches_nothing() {
    let mut lv = LogViewer::new();
    lv.set_highlight(String::new(), Some("red".to_string())).unwrap();
    assert_eq!(lv.line_segments(b"abc"), vec![seg(0, 3, None, false)]);
}

#[test]
fn highlight_with_named_color_leaves_palette() {
    let mut lv = LogViewer::new();
    assert_eq!(lv.set_highlight("a".to_string(), Some("Dark_Green".to_string())), Ok(()));
    assert_eq!(lv.highlights()[0], ("a".to_string(), Color::DarkGreen));
    // DarkGreen was the next colour to hand out; now DarkCyan is.
    assert_eq!(lv.set_highlight("b".to_string(), None), Ok(()));
    assert_eq!(lv.highlights()[1], ("b".to_string(), Color::DarkCyan));
}

#[test]
fn highlight_with_unknown_color_fails() {
    let mut lv = LogViewer::new();
    assert_eq!(
        lv.set_highlight("a".to_string(), Some("mauve".to_string())),
        Err(HighlightError::InvalidColor)
    );
    assert!(lv.highlights().is_empty());
}

#[test]
fn highlight_palette_runs_out() {
    let mut lv = LogViewer::new();
    for i in 0..9 {
        assert_eq!(lv.set_highlight(format!("p{}", i), None), Ok(()));
    }
    assert_eq!(lv.highlights()[0].1, Color::DarkGreen);
    assert_eq!(lv.highlights()[8].1, Color::Red);
    assert_eq!(lv.set_highlight("more".to_string(), None), Err(HighlightError::NoUnusedColors));
}

#[test]
fn search_color_follows_valid_names_only() {
    let mut lv = LogViewer::new();
    assert_eq!(lv.search_color(), Color::Red);
    lv.set_search_color("blue");
    assert_eq!(lv.search_color(), Color::Blue);
    lv.set_search_color("no-such-colour");
    assert_eq!(lv.search_color(), Color::Blue);
}

#[test]
fn cursor_is_kept_on_screen() {
    let mut lv = LogViewer::new();
    assert_eq!(lv.set_cursor(5, 2, 10, 80), (5, 2));
    assert_eq!(lv.set_cursor(90, 20, 10, 80), (79, 9));
    assert_eq!(lv.cursor_position(), (79, 9));
}

#[test]
fn long_line_is_truncated_to_three_rows() {
    let text = "y".repeat(500);
    let lines = vec![Line::new(4, &text)];
    let layout = layout_screen(&lines, 24, 80);
    assert_eq!(layout.lines.len(), 1);
    assert_eq!(layout.lines[0].rows, 3);
    assert!(layout.lines[0].truncated);
    assert_eq!(layout.lines[0].shown, 3 * 80 - 5);
    assert_eq!(layout.line_numbers, vec![4, 4, 4]);
}

#[test]
fn layout_stops_when_rows_run_out() {
    let long = "z".repeat(170);
    let lines = vec![Line::new(0, "a"), Line::new(2, &long), Line::new(5, "b")];
    let layout = layout_screen(&lines, 3, 80);
    assert_eq!(layout.lines.len(), 2);
    assert_eq!(layout.lines[1].rows, 2);
    assert!(layout.lines[1].truncated);
    assert_eq!(layout.lines[1].shown, 155);
    assert_eq!(layout.line_numbers, vec![0, 2, 2]);
}

#[test]
fn layout_of_short_lines() {
    let lines = vec![Line::new(0, "a"), Line::new(1, ""), Line::new(3, "ccc")];
    let layout = layout_screen(&lines, 10, 80);
    assert_eq!(layout.lines.len(), 3);
    assert!(!layout.lines[2].truncated);
    assert_eq!(layout.lines[2].shown, 3);
    assert_eq!(layout.line_numbers, vec![0, 1, 3]);
}
