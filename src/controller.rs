//! The decisions of an interactive view: what each key does to the window,
//! the cursor and the visibility of lines. The terminal work they call for
//! (prompting, drawing, moving the terminal cursor) is named by a `KeyAction`
//! and done by the caller.

use vstd::prelude::*;
use crate::command_handler::{command_line_effect, handle_command, CommandError};
use crate::log_file::{Line, LogFile, NL};
use crate::log_viewer::{LogViewer, RENDER_ROW_CAP};

verus! {

/// Which file the view shows: the log itself, or one of its lines written out
/// as a file of its own, one screen row per line.
#[derive(Debug, Clone, Copy, PartialEq, Eq, Structural)]
pub enum ViewMode {
    Normal,
    Expanded,
}

/// Where a view stood: its first and last line and its cursor.
#[derive(Debug, Clone, Copy, PartialEq, Eq)]
pub struct ViewState {
    pub start_line: usize,
    pub end_line: usize,
    pub cursor: (u16, u16),
}

/// A key, as far as the view tells keys apart.
#[derive(Debug, Clone, Copy, PartialEq, Eq, Structural)]
pub enum KeyCode {
    Char(char),
    Esc,
    Enter,
    Backspace,
    Up,
    Down,
    Left,
    Right,
    PageUp,
    PageDown,
    Other,
}

/// A key press, with whether Control was held.
#[derive(Debug, Clone, Copy, PartialEq, Eq, Structural)]
pub struct KeyEvent {
    pub code: KeyCode,
    pub ctrl: bool,
}

/// The terminal work that a key calls for.
#[derive(Debug, Clone, Copy, PartialEq, Eq, Structural)]
pub enum KeyAction {
    Nothing,
    /// Move the terminal cursor there.
    SetCursor(u16, u16),
    /// Read a command line, starting with this character.
    Prompt(Option<char>),
    /// Write the current line out and show it expanded.
    Expand,
    /// Clear the screen and stop.
    Quit,
}

/// What a key means.
#[derive(Debug, Clone, Copy, PartialEq, Eq, Structural)]
pub enum KeyCommand {
    Prompt(Option<char>),
    Quit,
    Move(i32, i32),
    PageUp,
    PageDown,
    ToggleExpanded,
    Top,
    Bottom,
    HideLine,
    Ignore,
}

/// The key bindings.
pub open spec fn key_command(key: KeyEvent) -> KeyCommand {
    match key.code {
        KeyCode::Esc => KeyCommand::Prompt(None),
        KeyCode::Char(c) => if c == '/' || c == '?' {
            KeyCommand::Prompt(Some(c))
        } else if c == 'q' {
            KeyCommand::Quit
        } else if c == 'j' {
            KeyCommand::Move(0i32, 1)
        } else if c == 'k' {
            KeyCommand::Move(0, -1i32)
        } else if c == 'h' {
            KeyCommand::Move(-1i32, 0)
        } else if c == 'l' {
            KeyCommand::Move(1i32, 0)
        } else if c == ' ' && key.ctrl {
            KeyCommand::PageUp
        } else if c == 'b' {
            KeyCommand::PageUp
        } else if c == ' ' || c == 'f' {
            KeyCommand::PageDown
        } else if c == 'e' {
            KeyCommand::ToggleExpanded
        } else if c == 'g' || c == '<' {
            KeyCommand::Top
        } else if c == 'G' || c == '>' {
            KeyCommand::Bottom
        } else if c == 'x' {
            KeyCommand::HideLine
        } else {
            KeyCommand::Ignore
        },
        KeyCode::Down => KeyCommand::Move(0i32, 1),
        KeyCode::Up => KeyCommand::Move(0, -1i32),
        KeyCode::Left => KeyCommand::Move(-1i32, 0),
        KeyCode::Right => KeyCommand::Move(1i32, 0),
        KeyCode::PageUp => KeyCommand::PageUp,
        KeyCode::PageDown => KeyCommand::PageDown,
        _ => KeyCommand::Ignore,
    }
}

/// What `key` means.
pub fn command_for_key(key: &KeyEvent) -> (r: KeyCommand)
    ensures
        r == key_command(*key),
{
    match key.code {
        KeyCode::Esc => KeyCommand::Prompt(None),
        KeyCode::Char(c) => if c == '/' || c == '?' {
            KeyCommand::Prompt(Some(c))
        } else if c == 'q' {
            KeyCommand::Quit
        } else if c == 'j' {
            KeyCommand::Move(0, 1)
        } else if c == 'k' {
            KeyCommand::Move(0, -1)
        } else if c == 'h' {
            KeyCommand::Move(-1, 0)
        } else if c == 'l' {
            KeyCommand::Move(1, 0)
        } else if c == ' ' && key.ctrl {
            KeyCommand::PageUp
        } else if c == 'b' {
            KeyCommand::PageUp
        } else if c == ' ' || c == 'f' {
            KeyCommand::PageDown
        } else if c == 'e' {
            KeyCommand::ToggleExpanded
        } else if c == 'g' || c == '<' {
            KeyCommand::Top
        } else if c == 'G' || c == '>' {
            KeyCommand::Bottom
        } else if c == 'x' {
            KeyCommand::HideLine
        } else {
            KeyCommand::Ignore
        },
        KeyCode::Down => KeyCommand::Move(0, 1),
        KeyCode::Up => KeyCommand::Move(0, -1),
        KeyCode::Left => KeyCommand::Move(-1, 0),
        KeyCode::Right => KeyCommand::Move(1, 0),
        KeyCode::PageUp => KeyCommand::PageUp,
        KeyCode::PageDown => KeyCommand::PageDown,
        _ => KeyCommand::Ignore,
    }
}

/// What a key does to the command line being typed.
#[derive(Debug, Clone, Copy, PartialEq, Eq, Structural)]
pub enum PromptStep {
    /// Add the character at the end.
    Append(char),
    /// Remove the last character, if any.
    Erase,
    /// Run the command line.
    Submit,
    /// Drop the command line.
    Cancel,
    /// Nothing.
    Ignore,
}

/// What `code` does to the command line being typed.
pub fn prompt_step(code: KeyCode) -> (r: PromptStep)
    ensures
        r == match code {
            KeyCode::Char(c) => PromptStep::Append(c),
            KeyCode::Backspace => PromptStep::Erase,
            KeyCode::Enter => PromptStep::Submit,
            KeyCode::Esc => PromptStep::Cancel,
            _ => PromptStep::Ignore,
        },
{
    match code {
        KeyCode::Char(c) => PromptStep::Append(c),
        KeyCode::Backspace => PromptStep::Erase,
        KeyCode::Enter => PromptStep::Submit,
        KeyCode::Esc => PromptStep::Cancel,
        _ => PromptStep::Ignore,
    }
}

/// `b` cut into rows of `cols` bytes, each followed by a line feed.
pub open spec fn wrapped_bytes(b: Seq<u8>, cols: int) -> Seq<u8>
    decreases b.len(),
{
    if b.len() == 0 || cols <= 0 {
        seq![]
    } else if b.len() <= cols {
        b.push(NL)
    } else {
        b.take(cols).push(NL) + wrapped_bytes(b.skip(cols), cols)
    }
}

/// The smaller of two integers.
pub open spec fn min_of(a: int, b: int) -> int {
    if a < b {
        a
    } else {
        b
    }
}

/// The state of an interactive view of a log file.
pub struct Controller {
    pub log_file: LogFile,
    pub log_viewer: LogViewer,
    pub running: bool,
    pub start_line: usize,
    pub end_line: usize,
    pub rows: usize,
    pub cols: usize,
    pub cursor: (u16, u16),
    pub line_numbers: Vec<usize>,
    pub expanded_log_file: Option<LogFile>,
    pub mode: ViewMode,
    pub normal_view_state: ViewState,
}

impl Controller {
    /// The files are indexed, an expanded view has its file, and the screen
    /// has a size that a terminal reports.
    pub open spec fn wf(&self) -> bool {
        &&& self.log_file.wf()
        &&& (self.expanded_log_file matches Some(f) ==> f.wf())
        &&& (self.mode == ViewMode::Expanded ==> self.expanded_log_file is Some)
        &&& 1 <= self.cols <= u16::MAX
        &&& self.rows <= u16::MAX
    }

    /// The file the view shows.
    pub open spec fn active(&self) -> LogFile {
        match self.mode {
            ViewMode::Expanded => match self.expanded_log_file {
                Some(f) => f,
                None => self.log_file,
            },
            ViewMode::Normal => self.log_file,
        }
    }

    /// `self` is `other` but for where the view stands.
    pub open spec fn same_but_view(&self, other: &Controller) -> bool {
        &&& self.log_file == other.log_file
        &&& self.log_viewer == other.log_viewer
        &&& self.running == other.running
        &&& self.rows == other.rows
        &&& self.cols == other.cols
        &&& self.line_numbers == other.line_numbers
        &&& self.expanded_log_file == other.expanded_log_file
        &&& self.mode == other.mode
        &&& self.normal_view_state == other.normal_view_state
    }

    /// The line under the cursor: the line number of its screen row, or 0 off
    /// the drawn rows.
    pub open spec fn current_line(&self) -> int {
        if (self.cursor.1 as int) < self.line_numbers@.len() {
            self.line_numbers@[self.cursor.1 as int] as int
        } else {
            0
        }
    }

    /// A view of `log_file` on a screen of `rows` rows and `cols` columns.
    pub fn new(log_file: LogFile, rows: usize, cols: usize) -> (r: Self)
        requires
            log_file.wf(),
            1 <= cols <= u16::MAX,
            rows <= u16::MAX,
        ensures
            r.wf(),
            r.log_file == log_file,
            r.running,
            r.rows == rows,
            r.cols == cols,
            r.start_line == 0,
            r.end_line == 0,
            r.cursor == (0u16, 0u16),
            r.line_numbers@.len() == 0,
            r.mode == ViewMode::Normal,
            r.expanded_log_file is None,
    {
        Controller {
            log_file,
            log_viewer: LogViewer::new(),
            running: true,
            start_line: 0,
            end_line: 0,
            rows,
            cols,
            cursor: (0, 0),
            line_numbers: Vec::new(),
            expanded_log_file: None,
            mode: ViewMode::Normal,
            normal_view_state: ViewState { start_line: 0, end_line: 0, cursor: (0, 0) },
        }
    }

    /// The file the view shows.
    pub fn get_active_log_file(&self) -> (r: &LogFile)
        requires
            self.wf(),
        ensures
            *r == self.active(),
            r.wf(),
    {
        match self.mode {
            ViewMode::Normal => &self.log_file,
            ViewMode::Expanded => match &self.expanded_log_file {
                Some(f) => f,
                None => &self.log_file,
            },
        }
    }

    /// The line under the cursor.
    pub fn get_current_line_number(&self) -> (r: usize)
        ensures
            r == self.current_line(),
    {
        if self.cursor.1 as usize >= self.line_numbers.len() {
            return 0;
        }
        self.line_numbers[self.cursor.1 as usize]
    }

    /// The lines to draw: a screen's worth of visible lines from the first
    /// line of the view.
    pub fn visible_window(&self) -> (r: Vec<Line<'_>>)
        requires
            self.wf(),
        ensures
            self.active().window(self.start_line as int, self.rows as int).len() > 0 ==> crate::log_file::numbers_of(
                r@,
            ) == self.active().window(self.start_line as int, self.rows as int),
            self.active().window(self.start_line as int, self.rows as int).len() == 0 ==> r@.len() == 1
                && r@[0].line_number == 0,
    {
        self.get_active_log_file().get_visible_lines(self.start_line, self.rows)
    }

    /// Start the view at the top of the file.
    pub fn reset_view(&mut self)
        ensures
            final(self).same_but_view(old(self)),
            final(self).start_line == 0,
            final(self).end_line == old(self).rows,
            final(self).cursor == old(self).cursor,
    {
        self.start_line = 0;
        self.end_line = self.rows;
    }

    /// The contents of the file that shows the current line expanded: its
    /// text cut into rows of the screen's width.
    pub fn expanded_text(&self) -> (r: Vec<u8>)
        requires
            self.wf(),
        ensures
            r@ == wrapped_bytes(
                match self.log_file.text(self.current_line()) {
                    Some(t) => if self.current_line() < self.log_file.total() {
                        vstd::utf8::encode_utf8(t)
                    } else {
                        Seq::empty()
                    },
                    None => Seq::empty(),
                },
                self.cols as int,
            ),
    {
        let k = self.get_current_line_number();
        let line = self.log_file.get_line(k);
        let b: &[u8] = match line {
            Some(s) => s.as_bytes(),
            None => &[],
        };
        assert(b@ == match self.log_file.text(self.current_line()) {
            Some(t) => if self.current_line() < self.log_file.total() {
                vstd::utf8::encode_utf8(t)
            } else {
                Seq::<u8>::empty()
            },
            None => Seq::<u8>::empty(),
        }) by {
            if line is None {
                assert(b@ =~= Seq::<u8>::empty());
            }
        }
        let cols = self.cols;
        let n = b.len();
        let mut out: Vec<u8> = Vec::new();
        let mut i: usize = 0;
        assert(b@.skip(0) =~= b@);
        while i < n
            invariant
                n == b@.len(),
                cols >= 1,
                i <= n,
                out@ + wrapped_bytes(b@.skip(i as int), cols as int) == wrapped_bytes(b@, cols as int),
            decreases n - i,
        {
            let ghost rest = b@.skip(i as int);
            let end = if n - i <= cols {
                n
            } else {
                i + cols
            };
            let ghost before = out@;
            let mut j = i;
            while j < end
                invariant
                    i <= j <= end <= n,
                    n == b@.len(),
                    out@ == before + b@.subrange(i as int, j as int),
                decreases end - j,
            {
                out.push(b[j]);
                j += 1;
                assert(out@ =~= before + b@.subrange(i as int, j as int));
            }
            out.push(NL);
            proof {
                if n - i <= cols {
                    assert(rest =~= b@.subrange(i as int, end as int));
                    assert(b@.skip(end as int).len() == 0);
                    assert(wrapped_bytes(b@.skip(end as int), cols as int) =~= Seq::<u8>::empty());
                    assert(out@ + wrapped_bytes(b@.skip(end as int), cols as int) =~= before + rest.push(
                        NL,
                    ));
                } else {
                    assert(rest.take(cols as int) =~= b@.subrange(i as int, end as int));
                    assert(rest.skip(cols as int) =~= b@.skip(end as int));
                    assert(out@ + wrapped_bytes(b@.skip(end as int), cols as int) =~= before + (rest.take(
                        cols as int,
                    ).push(NL) + wrapped_bytes(rest.skip(cols as int), cols as int)));
                }
            }
            i = end;
        }
        assert(out@ + wrapped_bytes(b@.skip(i as int), cols as int) =~= out@);
        out
    }

    /// Show `expanded`, the file that holds the current line expanded, from
    /// its top; the view of the log is kept to come back to.
    pub fn enter_expanded_mode(&mut self, expanded: LogFile)
        requires
            old(self).wf(),
            expanded.wf(),
        ensures
            final(self).wf(),
            final(self).mode == ViewMode::Expanded,
            final(self).expanded_log_file == Some(expanded),
            final(self).normal_view_state == (ViewState {
                start_line: old(self).start_line,
                end_line: old(self).end_line,
                cursor: old(self).cursor,
            }),
            final(self).start_line == 0,
            final(self).end_line == old(self).rows,
            final(self).cursor == (0u16, 0u16),
            final(self).log_file == old(self).log_file,
            final(self).log_viewer == old(self).log_viewer,
            final(self).running == old(self).running,
            final(self).rows == old(self).rows,
            final(self).cols == old(self).cols,
            final(self).line_numbers == old(self).line_numbers,
    {
        self.normal_view_state = ViewState {
            start_line: self.start_line,
            end_line: self.end_line,
            cursor: self.cursor,
        };
        self.expanded_log_file = Some(expanded);
        self.mode = ViewMode::Expanded;
        self.start_line = 0;
        self.end_line = self.rows;
        self.cursor = (0, 0);
    }

    /// Go back to the view of the log as it was before expanding.
    pub fn switch_to_normal_mode(&mut self)
        requires
            old(self).wf(),
        ensures
            final(self).wf(),
            final(self).mode == ViewMode::Normal,
            final(self).expanded_log_file is None,
            final(self).start_line == old(self).normal_view_state.start_line,
            final(self).end_line == old(self).normal_view_state.end_line,
            final(self).cursor == old(self).normal_view_state.cursor,
            final(self).log_file == old(self).log_file,
            final(self).log_viewer == old(self).log_viewer,
            final(self).running == old(self).running,
            final(self).rows == old(self).rows,
            final(self).cols == old(self).cols,
            final(self).line_numbers == old(self).line_numbers,
            final(self).normal_view_state == old(self).normal_view_state,
    {
        self.start_line = self.normal_view_state.start_line;
        self.end_line = self.normal_view_state.end_line;
        self.cursor = self.normal_view_state.cursor;
        self.mode = ViewMode::Normal;
        self.expanded_log_file = None;
    }

    /// `after` is this view after moving the cursor by `(dx, dy)`, which
    /// returned `r`: see `move_cursor`.
    pub open spec fn cursor_moved(&self, after: &Controller, dx: int, dy: int, r: (bool, KeyAction)) -> bool {
        &&& after.same_but_view(self)
        &&& {
            let x = self.cursor.0 + dx;
            let y = self.cursor.1 + dy;
            let total = self.active().total();
            if y < 0 {
                &&& r == (true, KeyAction::Nothing)
                &&& after.start_line == if self.start_line > 0 {
                    self.start_line - 1
                } else {
                    0
                }
                &&& after.end_line == min_of(after.start_line + self.rows, usize::MAX as int)
                &&& after.cursor == self.cursor
            } else if y >= self.line_numbers@.len() {
                if self.end_line + 1 >= total {
                    r == (false, KeyAction::Nothing) && *after == *self
                } else {
                    &&& r == (true, KeyAction::Nothing)
                    &&& after.start_line == min_of(self.start_line + 1, total)
                    &&& after.end_line == self.end_line + 1
                    &&& after.cursor == self.cursor
                }
            } else {
                let cx = if x < 0 {
                    0
                } else if x >= self.cols {
                    self.cols - 1
                } else {
                    x
                };
                let cy = if y >= self.rows {
                    if self.rows > 0 {
                        self.rows - 1
                    } else {
                        0
                    }
                } else {
                    y
                };
                &&& after.cursor == (cx as u16, cy as u16)
                &&& r == (false, KeyAction::SetCursor(cx as u16, cy as u16))
                &&& after.start_line == self.start_line
                &&& after.end_line == self.end_line
            }
        }
    }

    /// Move the cursor by `(dx, dy)`. Moving above the first drawn row scrolls
    /// up a line; moving below the last one scrolls down a line unless the
    /// view already ends at the last line; otherwise the cursor moves, kept on
    /// the screen. Returns whether the screen must be redrawn.
    pub fn move_cursor(&mut self, dx: i32, dy: i32) -> (r: (bool, KeyAction))
        requires
            old(self).wf(),
            -1 <= dx <= 1,
            -1 <= dy <= 1,
        ensures
            final(self).wf(),
            old(self).cursor_moved(&*final(self), dx as int, dy as int, r),
    {
        let x = self.cursor.0 as i32 + dx;
        let y = self.cursor.1 as i32 + dy;
        if y < 0 {
            self.start_line = self.start_line.saturating_sub(1);
            self.end_line = self.start_line.saturating_add(self.rows);
            return (true, KeyAction::Nothing);
        }
        if y as usize >= self.line_numbers.len() {
            let total = self.get_active_log_file().total_lines();
            if self.end_line >= total - 1 {
                return (false, KeyAction::Nothing);
            }
            self.start_line = if self.start_line < total {
                self.start_line + 1
            } else {
                total
            };
            self.end_line = self.end_line + 1;
            return (true, KeyAction::Nothing);
        }
        let cx: u16 = if x < 0 {
            0
        } else if x as usize >= self.cols {
            (self.cols - 1) as u16
        } else {
            x as u16
        };
        let cy: u16 = if y as usize >= self.rows {
            if self.rows > 0 {
                (self.rows - 1) as u16
            } else {
                0
            }
        } else {
            y as u16
        };
        self.cursor = (cx, cy);
        (false, KeyAction::SetCursor(cx, cy))
    }

    /// `after` is this view one screen back: see `page_up`.
    pub open spec fn paged_up(&self, after: &Controller) -> bool {
        &&& after.same_but_view(self)
        &&& after.cursor == self.cursor
        &&& self.start_line == 0 ==> *after == *self
        &&& self.start_line > 0 ==> after.start_line == (if self.start_line > self.rows {
            self.start_line - self.rows
        } else {
            0
        }) && after.end_line == min_of(after.start_line + self.rows, self.active().total())
    }

    /// `after` is this view one screen on: see `page_down`.
    pub open spec fn paged_down(&self, after: &Controller) -> bool {
        &&& after.same_but_view(self)
        &&& after.cursor == self.cursor
        &&& self.end_line + 1 >= self.active().total() ==> *after == *self
        &&& self.end_line + 1 < self.active().total() ==> after.start_line == self.end_line + 1
            && after.end_line == min_of(after.start_line + self.rows, self.active().total())
    }

    /// `after` is this view after a command line that found `found`, and the
    /// terminal cursor goes to `r`: see `command_finished`.
    pub open spec fn jumped(&self, after: &Controller, found: Option<usize>, r: (u16, u16)) -> bool {
        &&& after.same_but_view(self)
        &&& match found {
            Some(v) => after.start_line == v && after.end_line == min_of(
                v + self.rows,
                self.active().total(),
            ) && after.cursor == (0u16, 0u16) && r == (0u16, 0u16),
            None => *after == *self && r == self.cursor,
        }
    }

    /// `after` is this view but for the log file.
    pub open spec fn same_but_log(&self, after: &Controller) -> bool {
        &&& after.log_viewer == self.log_viewer
        &&& after.running == self.running
        &&& after.start_line == self.start_line
        &&& after.end_line == self.end_line
        &&& after.rows == self.rows
        &&& after.cols == self.cols
        &&& after.cursor == self.cursor
        &&& after.line_numbers == self.line_numbers
        &&& after.expanded_log_file == self.expanded_log_file
        &&& after.mode == self.mode
        &&& after.normal_view_state == self.normal_view_state
    }

    /// Show the screen before this one, unless the view starts at line 0.
    pub fn page_up(&mut self)
        requires
            old(self).wf(),
        ensures
            final(self).wf(),
            old(self).paged_up(&*final(self)),
    {
        if self.start_line > 0 {
            self.start_line = self.start_line.saturating_sub(self.rows);
            let total = self.get_active_log_file().total_lines();
            let end = self.start_line.saturating_add(self.rows);
            self.end_line = if end < total {
                end
            } else {
                total
            };
        }
    }

    /// Show the screen after this one, unless the view ends at the last line.
    pub fn page_down(&mut self)
        requires
            old(self).wf(),
        ensures
            final(self).wf(),
            old(self).paged_down(&*final(self)),
    {
        let total = self.get_active_log_file().total_lines();
        if self.end_line < total - 1 {
            self.start_line = self.end_line + 1;
            let end = self.start_line.saturating_add(self.rows);
            self.end_line = if end < total {
                end
            } else {
                total
            };
        }
    }

    /// Take in the screen size after a resize; the cursor goes to the top left.
    pub fn handle_resize(&mut self, rows: usize, cols: usize) -> (r: KeyAction)
        requires
            old(self).wf(),
            1 <= cols <= u16::MAX,
            rows <= u16::MAX,
        ensures
            final(self).wf(),
            final(self).rows == rows,
            final(self).cols == cols,
            r == KeyAction::SetCursor(0, 0),
            final(self).start_line == old(self).start_line,
            final(self).end_line == old(self).end_line,
            final(self).cursor == old(self).cursor,
            final(self).log_file == old(self).log_file,
            final(self).mode == old(self).mode,
            final(self).expanded_log_file == old(self).expanded_log_file,
    {
        self.rows = rows;
        self.cols = cols;
        KeyAction::SetCursor(0, 0)
    }

    /// Take in the line number of each row just drawn: the view now runs from
    /// the first to the last of them, and a cursor below the last row moves
    /// up to it. Returns where the terminal cursor must go, if it moved.
    pub fn after_draw(&mut self, line_numbers: Vec<usize>) -> (r: Option<(u16, u16)>)
        requires
            old(self).wf(),
        ensures
            final(self).wf(),
            final(self).line_numbers == line_numbers,
            final(self).start_line == if line_numbers@.len() > 0 {
                line_numbers@[0]
            } else {
                0
            },
            final(self).end_line == if line_numbers@.len() > 0 {
                line_numbers@.last()
            } else {
                0
            },
            old(self).cursor.1 < line_numbers@.len() ==> r is None && final(self).cursor == old(self).cursor,
            old(self).cursor.1 >= line_numbers@.len() ==> ({
                let y = if line_numbers@.len() > 0 {
                    line_numbers@.len() - 1
                } else {
                    0
                };
                final(self).cursor == (old(self).cursor.0, y as u16) && r == Some(final(self).cursor)
            }),
            final(self).log_file == old(self).log_file,
            final(self).log_viewer == old(self).log_viewer,
            final(self).running == old(self).running,
            final(self).rows == old(self).rows,
            final(self).cols == old(self).cols,
            final(self).expanded_log_file == old(self).expanded_log_file,
            final(self).mode == old(self).mode,
            final(self).normal_view_state == old(self).normal_view_state,
    {
        let n = line_numbers.len();
        self.start_line = if n > 0 {
            line_numbers[0]
        } else {
            0
        };
        self.end_line = if n > 0 {
            line_numbers[n - 1]
        } else {
            0
        };
        self.line_numbers = line_numbers;
        if self.cursor.1 as usize >= n {
            let y: u16 = if n > 0 {
                (n - 1) as u16
            } else {
                0
            };
            self.cursor = (self.cursor.0, y);
            return Some(self.cursor);
        }
        None
    }

    /// Jump to the line a search found, or stay where the view is: returns
    /// where the terminal cursor must go.
    pub fn command_finished(&mut self, found: Option<usize>) -> (r: (u16, u16))
        requires
            old(self).wf(),
        ensures
            final(self).wf(),
            old(self).jumped(&*final(self), found, r),
    {
        match found {
            Some(v) => {
                let total = self.get_active_log_file().total_lines();
                self.start_line = v;
                let end = v.saturating_add(self.rows);
                self.end_line = if end < total {
                    end
                } else {
                    total
                };
                self.cursor = (0, 0);
                (0, 0)
            },
            None => self.cursor,
        }
    }

    /// Run a command line typed at the prompt on the log (see
    /// `handle_command`) from the line under the cursor, then jump to the line
    /// a search found. A command line that does not parse changes nothing.
    /// Returns where the terminal cursor must go.
    pub fn submit_command(&mut self, input: &str) -> (r: (u16, u16))
        requires
            old(self).wf(),
        ensures
            final(self).wf(),
            exists|res: Result<Option<usize>, CommandError>|
                #[trigger] command_line_effect(
                    input@,
                    old(self).current_line(),
                    old(self).log_file,
                    old(self).log_viewer,
                    final(self).log_file,
                    final(self).log_viewer,
                    res,
                ) && (Controller { log_file: final(self).log_file, log_viewer: final(self).log_viewer, ..*old(self) }).jumped(
                    &*final(self),
                    match res {
                        Ok(v) => v,
                        Err(_) => None,
                    },
                    r,
                ),
    {
        let line = self.get_current_line_number();
        let res = handle_command(input, line, &mut self.log_file, &mut self.log_viewer);
        assert(command_line_effect(
            input@,
            old(self).current_line(),
            old(self).log_file,
            old(self).log_viewer,
            self.log_file,
            self.log_viewer,
            res,
        ));
        let found = match res {
            Ok(v) => v,
            Err(_) => None,
        };
        self.command_finished(found)
    }

    /// Act on a key. Returns whether the screen must be redrawn and the
    /// terminal work the key calls for.
    pub fn handle_key_event(&mut self, key: KeyEvent) -> (r: (bool, KeyAction))
        requires
            old(self).wf(),
        ensures
            final(self).wf(),
            match key_command(key) {
                KeyCommand::Prompt(c) => r == (true, KeyAction::Prompt(c)) && *final(self) == *old(self),
                KeyCommand::Quit => r == (true, KeyAction::Quit) && *final(self) == (Controller {
                    running: false,
                    ..*old(self)
                }),
                KeyCommand::Move(dx, dy) => old(self).cursor_moved(&*final(self), dx as int, dy as int, r),
                KeyCommand::PageUp => r == (true, KeyAction::Nothing) && old(self).paged_up(&*final(self)),
                KeyCommand::PageDown => r == (true, KeyAction::Nothing) && old(self).paged_down(&*final(self)),
                KeyCommand::ToggleExpanded => match old(self).mode {
                    ViewMode::Normal => r == (true, KeyAction::Expand) && *final(self) == *old(self),
                    ViewMode::Expanded => r == (true, KeyAction::SetCursor(0, 0)) && *final(self) == (
                    Controller {
                        mode: ViewMode::Normal,
                        expanded_log_file: None,
                        start_line: old(self).normal_view_state.start_line,
                        end_line: old(self).normal_view_state.end_line,
                        cursor: (0u16, 0u16),
                        ..*old(self)
                    }),
                },
                KeyCommand::Top => r == (true, KeyAction::SetCursor(0, 0)) && final(self).same_but_view(
                    &*old(self),
                ) && final(self).start_line == 0 && final(self).end_line == old(self).rows
                    && final(self).cursor == (0u16, 0u16),
                KeyCommand::Bottom => r == (true, KeyAction::SetCursor(0, 0)) && final(self).same_but_view(
                    &*old(self),
                ) && final(self).cursor == (0u16, 0u16) && old(self).log_file.end_window(
                    old(self).log_file.total(),
                    old(self).rows as int,
                    old(self).cols as int,
                    RENDER_ROW_CAP as int,
                    (final(self).start_line, final(self).end_line),
                ),
                KeyCommand::HideLine => {
                    let k = old(self).current_line();
                    &&& r == (true, KeyAction::Nothing)
                    &&& old(self).same_but_log(&*final(self))
                    &&& final(self).log_file.bytes() == old(self).log_file.bytes()
                    &&& k < old(self).log_file.total() ==> final(self).log_file.visibility() == old(self).log_file.visibility().update(k, false)
                        && final(self).log_file.saved_visibility() is None
                    &&& k >= old(self).log_file.total() ==> final(self).log_file == old(self).log_file
                },
                KeyCommand::Ignore => r == (true, KeyAction::Nothing) && *final(self) == *old(self),
            },
    {
        match command_for_key(&key) {
            KeyCommand::Prompt(c) => (true, KeyAction::Prompt(c)),
            KeyCommand::Quit => {
                self.running = false;
                (true, KeyAction::Quit)
            },
            KeyCommand::Move(dx, dy) => self.move_cursor(dx, dy),
            KeyCommand::PageUp => {
                self.page_up();
                (true, KeyAction::Nothing)
            },
            KeyCommand::PageDown => {
                self.page_down();
                (true, KeyAction::Nothing)
            },
            KeyCommand::ToggleExpanded => match self.mode {
                ViewMode::Normal => (true, KeyAction::Expand),
                ViewMode::Expanded => {
                    self.switch_to_normal_mode();
                    self.cursor = (0, 0);
                    (true, KeyAction::SetCursor(0, 0))
                },
            },
            KeyCommand::Top => {
                self.start_line = 0;
                self.end_line = self.rows;
                self.cursor = (0, 0);
                (true, KeyAction::SetCursor(0, 0))
            },
            KeyCommand::Bottom => {
                let (s, e) = self.log_file.get_end_of_file(self.rows, self.cols, RENDER_ROW_CAP);
                self.start_line = s;
                self.end_line = e;
                self.cursor = (0, 0);
                (true, KeyAction::SetCursor(0, 0))
            },
            KeyCommand::HideLine => {
                let k = self.get_current_line_number();
                self.log_file.hide_line(k);
                (true, KeyAction::Nothing)
            },
            KeyCommand::Ignore => (true, KeyAction::Nothing),
        }
    }
}

} // verus!
