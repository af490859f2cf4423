use logpager::log_file::{Line, LogFile, SearchDirection};
use memmap2::MmapMut;

fn create_test_file(content: &str) -> LogFile {
    create_test_bytes(content.as_bytes())
}

fn create_test_bytes(content: &[u8]) -> LogFile {
    let mut map = MmapMut::map_anon(content.len()).unwrap();
    map.copy_from_slice(content);
    LogFile::new(map.make_read_only().unwrap())
}

#[test]
fn test_basic_functionality() {
    let test_content = "Line 1\nLine 2\nLine 3\n";
    let viewer = create_test_file(test_content);

    assert_eq!(viewer.total_lines(), 3);
    assert_eq!(viewer.get_line(0), Some("Line 1"));
    assert_eq!(viewer.get_line(1), Some("Line 2"));
    assert_eq!(viewer.get_line(2), Some("Line 3"));
    assert_eq!(viewer.get_line(3), None);
}

#[test]
fn test_hide_show_lines() {
    let test_content = "Line 1\nLine 2\nLine 3\n";
    let mut viewer = create_test_file(test_content);

    assert_eq!(viewer.visible_lines(), 3);

    viewer.hide_line(1);
    assert_eq!(viewer.visible_lines(), 2);
    assert!(!viewer.is_line_visible(1));

    viewer.show_line(1);
    assert_eq!(viewer.visible_lines(), 3);
    assert!(viewer.is_line_visible(1));
}

#[test]
fn test_get_visible_lines() {
    let test_content = "Line 1\nLine 2\nLine 3\nLine 4\n";
    let mut viewer = create_test_file(test_content);
    viewer.hide_line(1);
    let visible = viewer.get_visible_lines(0, 10);
    assert_eq!(visible.len(), 3);
    assert_eq!(visible[0], Line::new(0, "Line 1"));
    assert_eq!(visible[1], Line::new(2, "Line 3"));
    assert_eq!(visible[2], Line::new(3, "Line 4"));
}

#[test]
fn test_search() {
    let test_content = "Error: something bad
Info: all good
Error: another issue
";
    let viewer = create_test_file(test_content);

    let error_lines = viewer.search("Error", 0, true, SearchDirection::Forward);
    assert_eq!(error_lines, Some(0));

    let info_lines = viewer.search("Info", 0, true, SearchDirection::Forward);
    assert_eq!(info_lines, Some(1));
}

#[test]
fn test_line_lengths() {
    let viewer_lf = create_test_file("line 1\nline 22\nline 333\n");
    assert_eq!(*viewer_lf.line_lengths(), vec![6, 7, 8]);

    let viewer_crlf = create_test_file("line 1\r\nline 22\r\nline 333\r\n");
    assert_eq!(*viewer_crlf.line_lengths(), vec![6, 7, 8]);

    let viewer_mixed = create_test_file("line 1\nline 22\r\nline 333\n");
    assert_eq!(*viewer_mixed.line_lengths(), vec![6, 7, 8]);

    let viewer_no_newline = create_test_file("line 1\nline 22");
    assert_eq!(*viewer_no_newline.line_lengths(), vec![6, 7]);

    let viewer_empty = create_test_file("");
    assert_eq!(*viewer_empty.line_lengths(), vec![0]);
}

#[test]
fn empty_file_has_one_empty_line() {
    let lf = create_test_file("");
    assert_eq!(lf.total_lines(), 1);
    assert_eq!(lf.get_line(0), Some(""));
    assert_eq!(lf.file_size(), 0);
    assert_eq!(lf.line_byte_length(0), 0);
}

#[test]
fn line_count_is_at_least_one() {
    for content in ["", "x", "\n", "a\nb", "a\r\nb\r\n", "\n\n\n"] {
        assert!(create_test_file(content).total_lines() >= 1);
    }
    assert_eq!(create_test_file("\n\n\n").total_lines(), 3);
    assert_eq!(create_test_file("a\nb").total_lines(), 2);
}

#[test]
fn terminators_give_same_lengths() {
    let lf = create_test_file("alpha\nbeta\ngamma\n");
    let crlf = create_test_file("alpha\r\nbeta\r\ngamma\r\n");
    let mixed = create_test_file("alpha\r\nbeta\ngamma\r\n");
    assert_eq!(*lf.line_lengths(), vec![5, 4, 5]);
    assert_eq!(*crlf.line_lengths(), *lf.line_lengths());
    assert_eq!(*mixed.line_lengths(), *lf.line_lengths());
    assert_eq!(crlf.get_line(1), Some("beta"));
}

#[test]
fn only_the_carriage_return_of_a_crlf_is_dropped() {
    let lf = create_test_file("ab\ncd\r");
    assert_eq!(*lf.line_lengths(), vec![2, 3]);
    assert_eq!(lf.get_line(1), Some("cd\r"));
    assert_eq!(lf.get_line_bytes(1), Some(&b"cd\r"[..]));
    let lf = create_test_file("ab\r\r\nc\r");
    assert_eq!(lf.get_line(0), Some("ab\r"));
    assert_eq!(lf.line_byte_length(0), 3);
    assert_eq!(lf.get_line(1), Some("c\r"));
    let lf = create_test_file("a\r");
    assert_eq!(lf.get_line(0), Some("a\r"));
}

#[test]
fn raw_line_bytes_keep_carriage_returns() {
    let lf = create_test_file("ab\r\ncd\n");
    assert_eq!(lf.get_line_bytes(0), Some(&b"ab\r"[..]));
    assert_eq!(lf.get_line_bytes(1), Some(&b"cd\n"[..]));
    assert_eq!(lf.get_line_bytes(2), None);
}

#[test]
fn invalid_utf8_line_is_unreadable() {
    let lf = create_test_bytes(b"ok\n\xff\xfe\nfine\n");
    assert_eq!(lf.total_lines(), 3);
    assert_eq!(lf.get_line(0), Some("ok"));
    assert_eq!(lf.get_line(1), None);
    assert_eq!(lf.get_line(2), Some("fine"));
    assert_eq!(lf.line_byte_length(1), 2);
    let window = lf.get_visible_lines(0, 10);
    let numbers: Vec<usize> = window.iter().map(|l| l.line_number).collect();
    assert_eq!(numbers, vec![0, 2]);
}

#[test]
fn multibyte_text_decodes() {
    let lf = create_test_file("héllo wörld\n");
    assert_eq!(lf.get_line(0), Some("héllo wörld"));
    assert_eq!(lf.line_byte_length(0), 13);
    assert_eq!(lf.search("wörld", 0, true, SearchDirection::Forward), Some(0));
}

#[test]
fn show_matching_leaves_only_matches_visible() {
    let mut lf = create_test_file("Error: a\nInfo: b\nError: c\nDebug: d\n");
    lf.show_lines_matching(|line: &str| line.contains("Error"));
    assert_eq!(lf.visible_lines(), 2);
    assert!(lf.is_line_visible(0));
    assert!(!lf.is_line_visible(1));
    assert!(lf.is_line_visible(2));
    assert!(!lf.is_line_visible(3));
}

#[test]
fn show_matching_hides_unreadable_lines() {
    let mut lf = create_test_bytes(b"Error: a\n\xff\nInfo\n");
    lf.show_lines_containing("Error");
    assert!(lf.is_line_visible(0));
    assert!(!lf.is_line_visible(1));
    assert!(!lf.is_line_visible(2));
    assert_eq!(lf.visible_lines(), 1);
}

#[test]
fn hide_matching_is_not_the_inverse_of_show() {
    let mut lf = create_test_file("Error: a\nInfo: b\nError: c\n");
    lf.hide_line(1);
    lf.hide_lines_matching(|line: &str| line.starts_with("Error"));
    assert_eq!(lf.visible_lines(), 0);
    lf.show_all();
    lf.hide_lines_containing("Error");
    assert!(!lf.is_line_visible(0));
    assert!(lf.is_line_visible(1));
    assert!(!lf.is_line_visible(2));
}

#[test]
fn hide_then_show_restores_the_line() {
    let mut lf = create_test_file("a\nb\nc\nd\n");
    lf.hide_line(3);
    let before: Vec<bool> = (0..4).map(|i| lf.is_line_visible(i)).collect();
    lf.hide_line(1);
    lf.show_line(1);
    let after: Vec<bool> = (0..4).map(|i| lf.is_line_visible(i)).collect();
    assert_eq!(before, after);
    assert!(lf.is_line_visible(1));
}

#[test]
fn out_of_range_visibility_is_false_and_ignored() {
    let mut lf = create_test_file("a\nb\n");
    assert!(!lf.is_line_visible(2));
    lf.hide_line(5);
    lf.show_line(7);
    assert_eq!(lf.visible_lines(), 2);
}

#[test]
fn hide_all_and_show_all() {
    let mut lf = create_test_file("a\nb\nc\n");
    lf.hide_all();
    assert_eq!(lf.visible_lines(), 0);
    lf.show_all();
    assert_eq!(lf.visible_lines(), 3);
}

#[test]
fn isolate_then_restore() {
    let mut lf = create_test_file("a\nb\nc\n");
    lf.hide_line(0);
    lf.show_single_line(2);
    assert_eq!(lf.visible_lines(), 1);
    assert!(lf.is_line_visible(2));
    lf.restore_visibility();
    assert!(!lf.is_line_visible(0));
    assert!(lf.is_line_visible(1));
    assert!(lf.is_line_visible(2));
}

#[test]
fn isolate_twice_keeps_the_latest_mask() {
    let mut lf = create_test_file("a\nb\nc\n");
    lf.show_single_line(0);
    lf.show_single_line(1);
    lf.restore_visibility();
    assert_eq!(lf.visible_lines(), 1);
    assert!(lf.is_line_visible(0));
}

#[test]
fn window_from_start_with_all_visible() {
    let lf = create_test_file("l0\nl1\nl2\nl3\nl4\n");
    let w = lf.get_visible_lines(0, 3);
    let numbers: Vec<usize> = w.iter().map(|l| l.line_number).collect();
    assert_eq!(numbers, vec![0, 1, 2]);
    let w = lf.get_visible_lines(0, 9);
    let numbers: Vec<usize> = w.iter().map(|l| l.line_number).collect();
    assert_eq!(numbers, vec![0, 1, 2, 3, 4]);
    assert_eq!(w[4].data, "l4");
}

#[test]
fn window_of_zero_lines_falls_back_before_start() {
    let lf = create_test_file("l0\nl1\nl2\n");
    let w = lf.get_visible_lines(0, 0);
    assert_eq!(w, vec![Line::new(0, "No visible lines")]);
    let w = lf.get_visible_lines(2, 0);
    assert_eq!(w, vec![Line::new(1, "l1")]);
}

#[test]
fn window_falls_back_to_line_before_start() {
    let mut lf = create_test_file("l0\nl1\nl2\nl3\n");
    lf.hide_line(2);
    lf.hide_line(3);
    let w = lf.get_visible_lines(3, 5);
    assert_eq!(w, vec![Line::new(1, "l1")]);
    let w = lf.get_visible_lines(100, 5);
    assert_eq!(w, vec![Line::new(1, "l1")]);
}

#[test]
fn window_placeholder_when_nothing_visible() {
    let mut lf = create_test_file("l0\nl1\n");
    lf.hide_all();
    let w = lf.get_visible_lines(0, 5);
    assert_eq!(w, vec![Line::new(0, "No visible lines")]);
}

#[test]
fn forward_search_skips_hidden_lines() {
    let mut lf = create_test_file("Error: a\nInfo: b\nError: c\n");
    lf.hide_line(1);
    assert_eq!(lf.search("Error", 0, false, SearchDirection::Forward), Some(2));
    assert_eq!(lf.search("Error", 0, true, SearchDirection::Forward), Some(0));
    lf.hide_line(2);
    assert_eq!(lf.search("Error", 0, false, SearchDirection::Forward), None);
}

#[test]
fn backward_search() {
    let lf = create_test_file("Error: a\nInfo: b\nError: c\n");
    assert_eq!(lf.search("Error", 2, false, SearchDirection::Backward), Some(0));
    assert_eq!(lf.search("Error", 2, true, SearchDirection::Backward), Some(2));
    assert_eq!(lf.search("Error", 50, true, SearchDirection::Backward), Some(2));
    assert_eq!(lf.search("Info", 0, true, SearchDirection::Backward), None);
}

#[test]
fn backward_search_from_first_line_excluding_it_finds_nothing() {
    let lf = create_test_file("Error: a\nError: b\n");
    assert_eq!(lf.search("Error", 0, false, SearchDirection::Backward), None);
}

#[test]
fn forward_search_past_the_end() {
    let lf = create_test_file("Error: a\n");
    assert_eq!(lf.search("Error", 5, true, SearchDirection::Forward), None);
    assert_eq!(lf.search("Error", usize::MAX, false, SearchDirection::Forward), None);
}

#[test]
fn rows_for_a_line() {
    assert_eq!(LogFile::num_lines_to_print(0, 80, 3, 10), 1);
    assert_eq!(LogFile::num_lines_to_print(80, 80, 3, 10), 1);
    assert_eq!(LogFile::num_lines_to_print(81, 80, 3, 10), 2);
    assert_eq!(LogFile::num_lines_to_print(500, 80, 3, 10), 3);
    assert_eq!(LogFile::num_lines_to_print(500, 80, 10, 10), 7);
    assert_eq!(LogFile::num_lines_to_print(500, 80, 10, 4), 4);
}

#[test]
fn end_of_file_window_of_single_row_lines() {
    let content: String = (0..10).map(|i| format!("line {}\n", i)).collect();
    let lf = create_test_file(&content);
    assert_eq!(lf.get_end_of_file(3, 80, 3), (7, 9));
}

#[test]
fn end_of_file_window_with_wrapped_and_hidden_lines() {
    let long = "x".repeat(200);
    let content = format!("a\nb\n{}\nc\nd\n", long);
    let mut lf = create_test_file(&content);
    // d(1) + c(1) + long(3) = 5 rows: the long line fits a 5-row screen.
    assert_eq!(lf.get_end_of_file(5, 80, 3), (2, 4));
    // 4 rows: the long line would overflow, so the window starts at c.
    assert_eq!(lf.get_end_of_file(4, 80, 3), (3, 4));
    lf.hide_line(4);
    assert_eq!(lf.get_end_of_file(4, 80, 3), (2, 3));
    assert_eq!(lf.get_pos_from_end_line(2, 4, 80, 3), (0, 1));
}

#[test]
fn end_of_file_window_when_anchor_fills_the_screen() {
    let long = "x".repeat(400);
    let content = format!("a\n{}\n", long);
    let lf = create_test_file(&content);
    assert_eq!(lf.get_end_of_file(3, 80, 3), (1, 1));
}

#[test]
fn end_of_file_window_with_nothing_visible() {
    let mut lf = create_test_file("a\nb\n");
    lf.hide_all();
    assert_eq!(lf.get_end_of_file(3, 80, 3), (0, 0));
}

#[test]
fn predicates_hide_and_show_by_text() {
    let mut lf = create_test_bytes(b"short\na much longer line\n\xff\nmid line\n");
    lf.hide_lines_matching(|line: &str| line.len() > 8);
    assert!(lf.is_line_visible(0));
    assert!(!lf.is_line_visible(1));
    assert!(lf.is_line_visible(2));
    assert!(lf.is_line_visible(3));
    lf.show_lines_matching(|line: &str| line.ends_with("line"));
    assert!(!lf.is_line_visible(0));
    assert!(lf.is_line_visible(1));
    assert!(!lf.is_line_visible(2));
    assert!(lf.is_line_visible(3));
}

#[test]
fn carriage_returns_inside_lines_are_content() {
    let crlf = create_test_file("a\rb\r\nc\r\n");
    let lf = create_test_file("a\rb\nc\n");
    assert_eq!(crlf.total_lines(), lf.total_lines());
    assert_eq!(*crlf.line_lengths(), vec![3, 1]);
    assert_eq!(*crlf.line_lengths(), *lf.line_lengths());
    assert_eq!(crlf.get_line(0), Some("a\rb"));
    assert_eq!(crlf.get_line(0), lf.get_line(0));
    assert_eq!(crlf.get_line(1), lf.get_line(1));
}
