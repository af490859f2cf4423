use logpager::controller::{
    prompt_step, Controller, KeyAction, KeyCode, KeyEvent, PromptStep, ViewMode,
};
use logpager::log_file::LogFile;
use memmap2::MmapMut;

fn log_of(content: &str) -> LogFile {
    let mut map = MmapMut::map_anon(content.len()).unwrap();
    map.copy_from_slice(content.as_bytes());
    LogFile::new(map.make_read_only().unwrap())
}

fn key(c: char) -> KeyEvent {
    KeyEvent { code: KeyCode::Char(c), ctrl: false }
}

fn numbered(n: usize) -> String {
    (0..n).map(|i| format!("line {}\n", i)).collect()
}

#[test]
fn quit_key_stops() {
    let mut c = Controller::new(log_of("a\n"), 10, 80);
    assert_eq!(c.handle_key_event(key('q')), (true, KeyAction::Quit));
    assert!(!c.running);
}

#[test]
fn prompt_keys() {
    let mut c = Controller::new(log_of("a\n"), 10, 80);
    assert_eq!(c.handle_key_event(key('/')), (true, KeyAction::Prompt(Some('/'))));
    assert_eq!(
        c.handle_key_event(KeyEvent { code: KeyCode::Esc, ctrl: false }),
        (true, KeyAction::Prompt(None))
    );
}

#[test]
fn paging_through_a_file() {
    let mut c = Controller::new(log_of(&numbered(30)), 10, 80);
    c.reset_view();
    assert_eq!((c.start_line, c.end_line), (0, 10));
    c.handle_key_event(key('f'));
    assert_eq!((c.start_line, c.end_line), (11, 21));
    c.handle_key_event(key('b'));
    assert_eq!((c.start_line, c.end_line), (1, 11));
    c.handle_key_event(KeyEvent { code: KeyCode::Char(' '), ctrl: true });
    assert_eq!((c.start_line, c.end_line), (0, 10));
}

#[test]
fn drawing_records_rows_and_moves_cursor_up() {
    let mut c = Controller::new(log_of(&numbered(30)), 10, 80);
    c.reset_view();
    let lines = c.visible_window();
    let numbers: Vec<usize> = lines.iter().map(|l| l.line_number).collect();
    assert_eq!(numbers, (0..10).collect::<Vec<usize>>());
    c.cursor = (3, 7);
    assert_eq!(c.after_draw(vec![4, 5, 5]), Some((3, 2)));
    assert_eq!((c.start_line, c.end_line), (4, 5));
    assert_eq!(c.get_current_line_number(), 5);
}

#[test]
fn cursor_moves_and_scrolls() {
    let mut c = Controller::new(log_of(&numbered(30)), 5, 80);
    c.reset_view();
    c.after_draw(vec![0, 1, 2, 3, 4]);
    assert_eq!(c.handle_key_event(key('j')), (false, KeyAction::SetCursor(0, 1)));
    assert_eq!(c.handle_key_event(key('l')), (false, KeyAction::SetCursor(1, 1)));
    assert_eq!(c.handle_key_event(key('k')), (false, KeyAction::SetCursor(1, 0)));
    assert_eq!(c.handle_key_event(key('k')), (true, KeyAction::Nothing));
    assert_eq!((c.start_line, c.end_line), (0, 5));
    c.cursor = (0, 4);
    assert_eq!(c.handle_key_event(key('j')), (true, KeyAction::Nothing));
    assert_eq!((c.start_line, c.end_line), (1, 6));
}

#[test]
fn go_to_end_and_top() {
    let mut c = Controller::new(log_of(&numbered(10)), 3, 80);
    assert_eq!(c.handle_key_event(key('G')), (true, KeyAction::SetCursor(0, 0)));
    assert_eq!((c.start_line, c.end_line), (7, 9));
    assert_eq!(c.handle_key_event(key('g')), (true, KeyAction::SetCursor(0, 0)));
    assert_eq!((c.start_line, c.end_line), (0, 3));
}

#[test]
fn x_hides_the_line_under_the_cursor() {
    let mut c = Controller::new(log_of(&numbered(5)), 5, 80);
    c.after_draw(vec![0, 1, 2, 3, 4]);
    c.cursor = (0, 2);
    c.handle_key_event(key('x'));
    assert!(!c.log_file.is_line_visible(2));
    assert_eq!(c.log_file.visible_lines(), 4);
}

#[test]
fn expanded_view_round_trip() {
    let mut c = Controller::new(log_of("abcdefghij\nshort\n"), 5, 4);
    c.after_draw(vec![0, 1]);
    assert_eq!(c.expanded_text(), b"abcd\nefgh\nij\n".to_vec());
    assert_eq!(c.handle_key_event(key('e')), (true, KeyAction::Expand));
    let text = c.expanded_text();
    c.enter_expanded_mode(log_of(std::str::from_utf8(&text).unwrap()));
    assert_eq!(c.mode, ViewMode::Expanded);
    assert_eq!(c.get_active_log_file().total_lines(), 3);
    assert_eq!(c.handle_key_event(key('e')), (true, KeyAction::SetCursor(0, 0)));
    assert_eq!(c.mode, ViewMode::Normal);
    assert_eq!((c.start_line, c.end_line), (0, 1));
}

#[test]
fn submitted_search_jumps_to_the_line() {
    let mut c = Controller::new(log_of("a\nb\nneedle\nc\n"), 2, 80);
    assert_eq!(c.submit_command("/needle"), (0, 0));
    assert_eq!((c.start_line, c.end_line), (2, 4));
    c.cursor = (1, 1);
    assert_eq!(c.submit_command("hd zzz"), (1, 1));
    assert_eq!(c.submit_command("hd 'broken"), (1, 1));
}

#[test]
fn prompt_keys_edit_the_command_line() {
    assert_eq!(prompt_step(KeyCode::Char('x')), PromptStep::Append('x'));
    assert_eq!(prompt_step(KeyCode::Backspace), PromptStep::Erase);
    assert_eq!(prompt_step(KeyCode::Enter), PromptStep::Submit);
    assert_eq!(prompt_step(KeyCode::Esc), PromptStep::Cancel);
    assert_eq!(prompt_step(KeyCode::Up), PromptStep::Ignore);
}
