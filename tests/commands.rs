use crossterm::style::Color;
use logpager::command_handler::{handle_command, search, CommandError};
use logpager::log_file::{LogFile, SearchDirection};
use logpager::log_viewer::LogViewer;
use memmap2::MmapMut;

fn file_of(content: &str) -> LogFile {
    let mut map = MmapMut::map_anon(content.len()).unwrap();
    map.copy_from_slice(content.as_bytes());
    LogFile::new(map.make_read_only().unwrap())
}

const LOG: &str = "Error: a\nInfo: b\nError: c\nDebug: d\n";

#[test]
fn blank_command_does_nothing() {
    let mut lf = file_of(LOG);
    let mut lv = LogViewer::new();
    assert_eq!(handle_command("   ", 0, &mut lf, &mut lv), Ok(None));
    assert_eq!(lf.visible_lines(), 4);
}

#[test]
fn slash_searches_forward_and_remembers() {
    let mut lf = file_of(LOG);
    let mut lv = LogViewer::new();
    assert_eq!(handle_command("  /Error  ", 0, &mut lf, &mut lv), Ok(Some(0)));
    assert_eq!(lv.search_pattern(), Some(&"Error".to_string()));
    // An empty pattern repeats the last one from the next line on.
    assert_eq!(handle_command("/", 0, &mut lf, &mut lv), Ok(Some(2)));
    assert_eq!(handle_command("/", 2, &mut lf, &mut lv), Ok(None));
}

#[test]
fn question_mark_searches_backward() {
    let mut lf = file_of(LOG);
    let mut lv = LogViewer::new();
    assert_eq!(handle_command("?Error", 3, &mut lf, &mut lv), Ok(Some(2)));
    assert_eq!(handle_command("?", 2, &mut lf, &mut lv), Ok(Some(0)));
    assert_eq!(handle_command("?", 0, &mut lf, &mut lv), Ok(None));
}

#[test]
fn quoted_search_pattern() {
    let mut lf = file_of(LOG);
    let mut lv = LogViewer::new();
    assert_eq!(handle_command("/'Info: b'", 0, &mut lf, &mut lv), Ok(Some(1)));
    assert_eq!(lv.search_pattern(), Some(&"Info: b".to_string()));
}

#[test]
fn empty_search_without_memory_finds_nothing() {
    let lf = file_of(LOG);
    let mut lv = LogViewer::new();
    assert_eq!(search("", 0, &lf, &mut lv, SearchDirection::Forward), None);
    assert_eq!(lv.search_pattern(), None);
}

#[test]
fn broken_quoting_is_an_error() {
    let mut lf = file_of(LOG);
    let mut lv = LogViewer::new();
    assert_eq!(handle_command("hd \"Error", 0, &mut lf, &mut lv), Err(CommandError::ParseFailed));
    assert_eq!(handle_command("/\"Error", 0, &mut lf, &mut lv), Err(CommandError::ParseFailed));
    assert_eq!(lf.visible_lines(), 4);
}

#[test]
fn hide_and_show_commands() {
    let mut lf = file_of(LOG);
    let mut lv = LogViewer::new();
    assert_eq!(handle_command("hd Error", 0, &mut lf, &mut lv), Ok(None));
    assert_eq!(lf.visible_lines(), 2);
    assert!(!lf.is_line_visible(0));
    assert_eq!(handle_command("show Debug", 0, &mut lf, &mut lv), Ok(None));
    assert_eq!(lf.visible_lines(), 1);
    assert!(lf.is_line_visible(3));
    assert_eq!(handle_command("hide", 0, &mut lf, &mut lv), Ok(None));
    assert_eq!(lf.visible_lines(), 1);
}

#[test]
fn highlight_command_with_quoted_pattern() {
    let mut lf = file_of(LOG);
    let mut lv = LogViewer::new();
    assert_eq!(handle_command("hl 'two words' yellow", 0, &mut lf, &mut lv), Ok(None));
    assert_eq!(lv.highlights()[0], ("two words".to_string(), Color::Yellow));
    assert_eq!(handle_command("highlight x", 0, &mut lf, &mut lv), Ok(None));
    assert_eq!(lv.highlights()[1], ("x".to_string(), Color::DarkGreen));
    assert_eq!(handle_command("hl y nonsense", 0, &mut lf, &mut lv), Ok(None));
    assert_eq!(lv.highlights().len(), 2);
}

#[test]
fn set_search_color_command() {
    let mut lf = file_of(LOG);
    let mut lv = LogViewer::new();
    assert_eq!(handle_command("set search_color cyan", 0, &mut lf, &mut lv), Ok(None));
    assert_eq!(lv.search_color(), Color::Cyan);
    assert_eq!(handle_command("set other cyan", 0, &mut lf, &mut lv), Ok(None));
    assert_eq!(handle_command("set search_color", 0, &mut lf, &mut lv), Ok(None));
    assert_eq!(lv.search_color(), Color::Cyan);
}

#[test]
fn unknown_and_comment_commands_are_ignored() {
    let mut lf = file_of(LOG);
    let mut lv = LogViewer::new();
    assert_eq!(handle_command("frobnicate now", 0, &mut lf, &mut lv), Ok(None));
    assert_eq!(handle_command("# only a comment", 0, &mut lf, &mut lv), Ok(None));
    assert_eq!(lf.visible_lines(), 4);
    assert!(lv.highlights().is_empty());
}

#[test]
fn unicode_white_space_is_trimmed() {
    let mut lf = file_of(LOG);
    let mut lv = LogViewer::new();
    assert_eq!(handle_command("\u{3000}\t/Info\u{a0}", 0, &mut lf, &mut lv), Ok(Some(1)));
}
