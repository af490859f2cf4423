//! What a terminal view of a log file shows: highlight rules and the search
//! pattern, the styled segments of a line, and how lines fill the screen rows.

use vstd::prelude::*;
use vstd::utf8::encode_utf8;
use crossterm::style::Color;
use crate::text::{collect_occurrences, occurrences, span_ints};
use crate::log_file::{Line, LogFile, wrap_rows};

verus! {

#[verifier::external_type_specification]
pub struct ExColor(crossterm::style::Color);

/// The colour that a colour name denotes, if any.
pub uninterp spec fn color_named(name: Seq<char>) -> Option<Color>;

/// Relies on crossterm's `TryFrom<&str> for Color`: the result depends on the
/// name alone (its letters lowercased), and a name outside crossterm's list of
/// colour names gives none.
#[verifier::external_body]
fn color_from_name(name: &str) -> (r: Option<Color>)
    ensures
        r == color_named(name@),
{
    Color::try_from(name).ok()
}

/// Whether two colours are the same.
pub fn same_color(a: &Color, b: &Color) -> (r: bool)
    ensures
        r == (*a == *b),
{
    match (a, b) {
        (Color::Reset, Color::Reset) => true,
        (Color::Black, Color::Black) => true,
        (Color::DarkGrey, Color::DarkGrey) => true,
        (Color::Red, Color::Red) => true,
        (Color::DarkRed, Color::DarkRed) => true,
        (Color::Green, Color::Green) => true,
        (Color::DarkGreen, Color::DarkGreen) => true,
        (Color::Yellow, Color::Yellow) => true,
        (Color::DarkYellow, Color::DarkYellow) => true,
        (Color::Blue, Color::Blue) => true,
        (Color::DarkBlue, Color::DarkBlue) => true,
        (Color::Magenta, Color::Magenta) => true,
        (Color::DarkMagenta, Color::DarkMagenta) => true,
        (Color::Cyan, Color::Cyan) => true,
        (Color::DarkCyan, Color::DarkCyan) => true,
        (Color::White, Color::White) => true,
        (Color::Grey, Color::Grey) => true,
        (Color::Rgb { r: r1, g: g1, b: b1 }, Color::Rgb { r: r2, g: g2, b: b2 }) => *r1 == *r2 && *g1
            == *g2 && *b1 == *b2,
        (Color::AnsiValue(x), Color::AnsiValue(y)) => *x == *y,
        _ => false,
    }
}

/// The colours handed out, last first, to highlight rules given without one.
pub open spec fn default_palette() -> Seq<Color> {
    seq![
        Color::Red,
        Color::Green,
        Color::Yellow,
        Color::Blue,
        Color::Magenta,
        Color::Cyan,
        Color::DarkYellow,
        Color::DarkCyan,
        Color::DarkGreen,
    ]
}

/// The spans that the highlight rules colour in `h`: for each rule in turn,
/// oldest first, the occurrences of its pattern, tagged with its colour.
pub open spec fn fg_spans(h: Seq<u8>, rules: Seq<(Seq<char>, Color)>) -> Seq<(int, int, Color)>
    decreases rules.len(),
{
    if rules.len() == 0 {
        seq![]
    } else {
        let rule = rules.last();
        fg_spans(h, rules.drop_last()) + occurrences(h, encode_utf8(rule.0), 0).map_values(
            |sp: (int, int)| (sp.0, sp.1, rule.1),
        )
    }
}

/// The spans of `h` that match the search pattern.
pub open spec fn bg_spans(h: Seq<u8>, search: Option<Seq<char>>) -> Seq<(int, int)> {
    match search {
        Some(p) => occurrences(h, encode_utf8(p), 0),
        None => seq![],
    }
}

/// Byte `x` of a line of `n` bytes is where styling may change: an end of the
/// line or of some span.
pub open spec fn is_break(n: int, fg: Seq<(int, int, Color)>, bg: Seq<(int, int)>, x: int) -> bool {
    ||| x == 0
    ||| x == n
    ||| exists|j: int| 0 <= j < fg.len() && (fg[j].0 == x || fg[j].1 == x)
    ||| exists|j: int| 0 <= j < bg.len() && (bg[j].0 == x || bg[j].1 == x)
}

/// The colour of the first span, in rule order, that covers byte `x`.
pub open spec fn cover_color(fg: Seq<(int, int, Color)>, x: int) -> Option<Color>
    decreases fg.len(),
{
    if fg.len() == 0 {
        None
    } else if fg[0].0 <= x < fg[0].1 {
        Some(fg[0].2)
    } else {
        cover_color(fg.drop_first(), x)
    }
}

/// Some span covers byte `x`.
pub open spec fn covered(bg: Seq<(int, int)>, x: int) -> bool {
    exists|j: int| 0 <= j < bg.len() && #[trigger] bg[j].0 <= x < bg[j].1
}

/// `s` cuts the first `upto` bytes of a line of `n` bytes at every break and
/// nowhere else, and styles each piece by what covers its first byte.
pub open spec fn tiles(
    s: Seq<Segment>,
    n: int,
    fg: Seq<(int, int, Color)>,
    bg: Seq<(int, int)>,
    upto: int,
) -> bool {
    &&& (s.len() == 0 <==> upto == 0)
    &&& s.len() > 0 ==> s[0].start == 0 && s.last().end == upto
    &&& forall|j: int|
        0 <= j < s.len() ==> {
            &&& #[trigger] s[j].start < s[j].end
            &&& is_break(n, fg, bg, s[j].start as int)
            &&& is_break(n, fg, bg, s[j].end as int)
            &&& s[j].bg == covered(bg, s[j].start as int)
            &&& s[j].fg == cover_color(fg, s[j].start as int)
        }
    &&& forall|j: int| 0 <= j < s.len() - 1 ==> #[trigger] s[j].end == s[j + 1].start
    &&& forall|j: int, x: int|
        #![trigger s[j], is_break(n, fg, bg, x)]
        0 <= j < s.len() && s[j].start < x < s[j].end ==> !is_break(n, fg, bg, x)
}

/// Coloured spans read as ranges of mathematical integers.
pub open spec fn tagged_ints(v: Seq<(usize, usize, Color)>) -> Seq<(int, int, Color)> {
    v.map_values(|sp: (usize, usize, Color)| (sp.0 as int, sp.1 as int, sp.2))
}

/// A piece of a line, `[start, end)` in bytes, with its foreground colour and
/// whether it has the search background.
#[derive(Debug, Clone, Copy, PartialEq, Eq)]
pub struct Segment {
    pub start: usize,
    pub end: usize,
    pub fg: Option<Color>,
    pub bg: bool,
}

/// The first break after `pos`.
fn next_break(n: usize, fg: &Vec<(usize, usize, Color)>, bg: &Vec<(usize, usize)>, pos: usize) -> (r: usize)
    requires
        pos < n,
    ensures
        pos < r <= n,
        is_break(n as int, tagged_ints(fg@), span_ints(bg@), r as int),
        forall|x: int| pos < x < r ==> !is_break(n as int, tagged_ints(fg@), span_ints(bg@), x),
{
    let ghost f = tagged_ints(fg@);
    let ghost g = span_ints(bg@);
    let mut best = n;
    let mut j: usize = 0;
    while j < fg.len()
        invariant
            pos < best <= n,
            j <= fg@.len(),
            f == tagged_ints(fg@),
            is_break(n as int, f, g, best as int),
            forall|t: int| 0 <= t < j ==> !(pos < #[trigger] f[t].0 < best) && !(pos < f[t].1 < best),
        decreases fg@.len() - j,
    {
        let (a, b, _) = fg[j];
        assert(f[j as int].0 == a && f[j as int].1 == b);
        if pos < a && a < best {
            best = a;
        }
        if pos < b && b < best {
            best = b;
        }
        j += 1;
    }
    let mut j: usize = 0;
    while j < bg.len()
        invariant
            pos < best <= n,
            j <= bg@.len(),
            f == tagged_ints(fg@),
            g == span_ints(bg@),
            is_break(n as int, f, g, best as int),
            forall|t: int| 0 <= t < fg@.len() ==> !(pos < #[trigger] f[t].0 < best) && !(pos < f[t].1 < best),
            forall|t: int| 0 <= t < j ==> !(pos < #[trigger] g[t].0 < best) && !(pos < g[t].1 < best),
        decreases bg@.len() - j,
    {
        let (a, b) = bg[j];
        assert(g[j as int].0 == a && g[j as int].1 == b);
        if pos < a && a < best {
            best = a;
        }
        if pos < b && b < best {
            best = b;
        }
        j += 1;
    }
    best
}

/// Whether some span covers byte `x`.
fn any_cover(bg: &Vec<(usize, usize)>, x: usize) -> (r: bool)
    ensures
        r == covered(span_ints(bg@), x as int),
{
    let ghost g = span_ints(bg@);
    let mut j: usize = 0;
    while j < bg.len()
        invariant
            j <= bg@.len(),
            g == span_ints(bg@),
            forall|t: int| 0 <= t < j ==> !(#[trigger] g[t].0 <= x < g[t].1),
        decreases bg@.len() - j,
    {
        let (a, b) = bg[j];
        if a <= x && x < b {
            assert(g[j as int].0 <= x < g[j as int].1);
            return true;
        }
        j += 1;
    }
    false
}

/// The colour of the first span that covers byte `x`.
fn first_cover(fg: &Vec<(usize, usize, Color)>, x: usize) -> (r: Option<Color>)
    ensures
        r == cover_color(tagged_ints(fg@), x as int),
{
    let ghost f = tagged_ints(fg@);
    let mut j: usize = 0;
    assert(f.skip(0) =~= f);
    while j < fg.len()
        invariant
            j <= fg@.len(),
            f == tagged_ints(fg@),
            cover_color(f, x as int) == cover_color(f.skip(j as int), x as int),
        decreases fg@.len() - j,
    {
        let (a, b, c) = fg[j];
        if a <= x && x < b {
            return Some(c);
        }
        assert(f.skip(j as int).drop_first() =~= f.skip(j + 1));
        j += 1;
    }
    None
}

/// The most rows that one line takes on screen.
pub const RENDER_ROW_CAP: usize = 3;

/// What stands after a line cut short on screen.
pub const TRUNCATION_MARKER: &'static str = "[...]";

/// The byte lengths of the texts of some lines.
pub open spec fn lens_of(lines: Seq<Line>) -> Seq<int> {
    lines.map_values(|l: Line| l.data.len() as int)
}

/// The rows each line takes when lines of these lengths fill `left` rows in
/// order, each taking at most `RENDER_ROW_CAP` rows: the line that takes the
/// last free rows is the last one drawn.
pub open spec fn layout_rows(lens: Seq<int>, left: int, cols: int) -> Seq<int>
    decreases lens.len(),
{
    if lens.len() == 0 {
        seq![]
    } else {
        let w = wrap_rows(lens[0], cols, RENDER_ROW_CAP as int, left);
        if w >= left {
            seq![w]
        } else {
            seq![w] + layout_rows(lens.drop_first(), left - w, cols)
        }
    }
}

/// Each line number repeated once per row its line takes.
pub open spec fn row_map(numbers: Seq<usize>, counts: Seq<int>) -> Seq<usize>
    decreases counts.len(),
{
    if counts.len() == 0 {
        seq![]
    } else {
        row_map(numbers.drop_last(), counts.drop_last()) + Seq::new(
            counts.last() as nat,
            |_i: int| numbers.last(),
        )
    }
}

/// How many bytes of a line of `len` bytes are drawn in `rows` rows of `cols`
/// columns: all of them if they fit, else five fewer than fit, to leave room
/// for the marker.
pub open spec fn shown_len(len: int, rows: int, cols: int) -> int {
    if len > rows * cols {
        if rows * cols >= 5 {
            rows * cols - 5
        } else {
            0
        }
    } else {
        len
    }
}

/// How one line is drawn: the rows it takes, how many of its bytes are drawn,
/// and whether the truncation marker follows them.
#[derive(Debug, Clone, Copy, PartialEq, Eq, Structural)]
pub struct LineLayout {
    pub line_number: usize,
    pub rows: usize,
    pub shown: usize,
    pub truncated: bool,
}

/// How a screen is drawn: the lines drawn, in order, and the line number
/// shown on each screen row.
pub struct ScreenLayout {
    pub lines: Vec<LineLayout>,
    pub line_numbers: Vec<usize>,
}

/// Lay out `lines` on a screen of `rows` rows and `cols` columns: each line
/// takes the rows its length needs, at most `RENDER_ROW_CAP` and at most the
/// rows left; a line longer than its rows hold is cut five bytes short of
/// them and marked. The last line drawn is the one that uses up the rows.
pub fn layout_screen(lines: &[Line], rows: usize, cols: usize) -> (r: ScreenLayout)
    requires
        cols > 0,
    ensures
        ({
            let lens = lens_of(lines@);
            let rr = layout_rows(lens, rows as int, cols as int);
            &&& r.lines@.len() == rr.len()
            &&& forall|t: int|
                0 <= t < rr.len() ==> {
                    &&& #[trigger] r.lines@[t].line_number == lines@[t].line_number
                    &&& r.lines@[t].rows == rr[t]
                    &&& r.lines@[t].truncated == (lens[t] > rr[t] * cols)
                    &&& r.lines@[t].shown == shown_len(lens[t], rr[t], cols as int)
                }
            &&& r.line_numbers@ == row_map(numbers_in(lines@).take(rr.len() as int), rr)
        }),
{
    let ghost lens = lens_of(lines@);
    let ghost rr = layout_rows(lens, rows as int, cols as int);
    let mut out: Vec<LineLayout> = Vec::new();
    let mut numbers: Vec<usize> = Vec::new();
    let mut left = rows;
    let mut j: usize = 0;
    let mut done = false;
    proof {
        lemma_layout_rows_len(lens, rows as int, cols as int);
    }
    assert(lens.skip(0) =~= lens);
    assert(rr.take(0) =~= Seq::<int>::empty());
    assert(numbers@ =~= row_map(numbers_in(lines@).take(0), rr.take(0)));
    while j < lines.len() && !done
        invariant
            cols > 0,
            lens == lens_of(lines@),
            rr == layout_rows(lens, rows as int, cols as int),
            j <= lines@.len(),
            out@.len() == j,
            j <= rr.len(),
            !done ==> rr == rr.take(j as int) + layout_rows(lens.skip(j as int), left as int, cols as int),
            done ==> rr.len() == j,
            forall|t: int|
                0 <= t < j ==> {
                    &&& #[trigger] out@[t].line_number == lines@[t].line_number
                    &&& out@[t].rows == rr[t]
                    &&& out@[t].truncated == (lens[t] > rr[t] * cols)
                    &&& out@[t].shown == shown_len(lens[t], rr[t], cols as int)
                },
            numbers@ == row_map(numbers_in(lines@).take(j as int), rr.take(j as int)),
        decreases lines@.len() - j,
    {
        let line = &lines[j];
        let len = line.data.len();
        assert(lens.len() == lines@.len());
        assert(lens[j as int] == len as int);
        assert(lens.skip(j as int).len() > 0);
        assert(lens.skip(j as int)[0] == lens[j as int]);
        let w = LogFile::num_lines_to_print(len, cols, RENDER_ROW_CAP, left);
        proof {
            let rest = layout_rows(lens.skip(j as int), left as int, cols as int);
            assert(rest[0] == w);
            assert(rr[j as int] == rest[0]);
            assert(w as int * cols as int <= 3 * cols as int) by (nonlinear_arith)
                requires
                    w <= 3,
                    cols >= 0,
            ;
        }
        let wc: u128 = (w as u128) * (cols as u128);
        let truncated = (len as u128) > wc;
        let shown = if truncated {
            if wc >= 5 {
                (wc - 5) as usize
            } else {
                0
            }
        } else {
            len
        };
        proof {
            assert(lens.skip(j as int).drop_first() =~= lens.skip(j + 1));
        }
        let ghost out0 = out@;
        out.push(LineLayout { line_number: line.line_number, rows: w, shown, truncated });
        assert(forall|t: int| 0 <= t < j ==> out@[t] == out0[t]);
        let ghost base = numbers@;
        let mut m: usize = 0;
        while m < w
            invariant
                m <= w,
                numbers@ == base + Seq::new(m as nat, |_i: int| line.line_number),
            decreases w - m,
        {
            numbers.push(line.line_number);
            m += 1;
            assert(numbers@ =~= base + Seq::new(m as nat, |_i: int| line.line_number));
        }
        proof {
            let nums = numbers_in(lines@).take(j + 1);
            let cnt = rr.take(j + 1);
            assert(nums.drop_last() =~= numbers_in(lines@).take(j as int));
            assert(cnt.drop_last() =~= rr.take(j as int));
            assert(nums.last() == line.line_number);
        }
        if w >= left {
            done = true;
        } else {
            left = left - w;
        }
        j += 1;
        proof {
            if !done {
                assert(rr =~= rr.take(j as int) + layout_rows(lens.skip(j as int), left as int, cols as int));
            }
        }
    }
    proof {
        if !done {
            assert(lens.skip(j as int).len() == 0);
            assert(rr =~= rr.take(j as int));
        }
        assert(rr.take(j as int) =~= rr);
    }
    ScreenLayout { lines: out, line_numbers: numbers }
}

/// The line numbers of a sequence of lines.
pub open spec fn numbers_in(lines: Seq<Line>) -> Seq<usize> {
    lines.map_values(|l: Line| l.line_number)
}

/// A layout draws at most as many lines as it is given.
proof fn lemma_layout_rows_len(lens: Seq<int>, left: int, cols: int)
    ensures
        layout_rows(lens, left, cols).len() <= lens.len(),
    decreases lens.len(),
{
    if lens.len() > 0 {
        lemma_layout_rows_len(lens.drop_first(), left - wrap_rows(lens[0], cols, RENDER_ROW_CAP as int, left), cols);
    }
}

/// Why a highlight rule was not added.
#[derive(Debug, PartialEq, Eq, Structural)]
pub enum HighlightError {
    /// The colour name names no colour.
    InvalidColor,
    /// Every colour of the palette is already in use.
    NoUnusedColors,
}

/// The highlight rules, the search pattern and its colour, and where the
/// cursor stands.
pub struct LogViewer {
    cursor_position: (u16, u16),
    search_pattern: Option<String>,
    search_color: Color,
    unused_colors: Vec<Color>,
    highlight: Vec<(String, Color)>,
}

impl LogViewer {
    /// The highlight rules, oldest first: the pattern and its colour.
    pub closed spec fn rules(&self) -> Seq<(Seq<char>, Color)> {
        self.highlight@.map_values(|r: (String, Color)| (r.0@, r.1))
    }

    /// The last search pattern, if any.
    pub closed spec fn pattern(&self) -> Option<Seq<char>> {
        match self.search_pattern {
            Some(p) => Some(p@),
            None => None,
        }
    }

    /// The palette colours not yet given to a rule.
    pub closed spec fn palette(&self) -> Seq<Color> {
        self.unused_colors@
    }

    /// The colour behind matches of the search pattern.
    pub closed spec fn search_color_spec(&self) -> Color {
        self.search_color
    }

    /// The cursor position, column first.
    pub closed spec fn cursor(&self) -> (u16, u16) {
        self.cursor_position
    }

    pub fn new() -> (r: Self)
        ensures
            r.rules().len() == 0,
            r.palette() == default_palette(),
            r.search_color_spec() == Color::Red,
            r.pattern() is None,
            r.cursor() == (0u16, 0u16),
    {
        let unused_colors = vec![
            Color::Red,
            Color::Green,
            Color::Yellow,
            Color::Blue,
            Color::Magenta,
            Color::Cyan,
            Color::DarkYellow,
            Color::DarkCyan,
            Color::DarkGreen,
        ];
        let r = LogViewer {
            cursor_position: (0, 0),
            search_pattern: None,
            search_color: Color::Red,
            unused_colors,
            highlight: Vec::new(),
        };
        assert(r.rules() =~= Seq::<(Seq<char>, Color)>::empty());
        assert(r.palette() =~= default_palette());
        r
    }

    /// The colour behind matches of the search pattern.
    pub fn search_color(&self) -> (r: Color)
        ensures
            r == self.search_color_spec(),
    {
        self.search_color
    }

    /// The last search pattern, if any.
    pub fn search_pattern(&self) -> (r: Option<&String>)
        ensures
            match r {
                Some(p) => self.pattern() == Some(p@),
                None => self.pattern() is None,
            },
    {
        self.search_pattern.as_ref()
    }

    /// Remember `pattern` as the last search pattern.
    pub fn set_search_pattern(&mut self, pattern: String)
        ensures
            final(self).pattern() == Some(pattern@),
            final(self).rules() == old(self).rules(),
            final(self).palette() == old(self).palette(),
            final(self).search_color_spec() == old(self).search_color_spec(),
            final(self).cursor() == old(self).cursor(),
    {
        self.search_pattern = Some(pattern);
    }

    /// The highlight rules, oldest first.
    pub fn highlights(&self) -> (r: &Vec<(String, Color)>)
        ensures
            r@.map_values(|x: (String, Color)| (x.0@, x.1)) == self.rules(),
    {
        &self.highlight
    }

    /// The rules and the palette after adding a rule for `pattern`, coloured
    /// as `name` says or else with the last palette colour.
    pub open spec fn after_highlight(&self, pattern: Seq<char>, name: Option<Seq<char>>) -> (
        Seq<(Seq<char>, Color)>,
        Seq<Color>,
    ) {
        match name {
            Some(n) => match color_named(n) {
                Some(c) => (self.rules().push((pattern, c)), self.palette().filter(|x: Color| x != c)),
                None => (self.rules(), self.palette()),
            },
            None => if self.palette().len() > 0 {
                (self.rules().push((pattern, self.palette().last())), self.palette().drop_last())
            } else {
                (self.rules(), self.palette())
            },
        }
    }

    /// Whether a rule can be added with the colour `name` says, or without one.
    pub open spec fn highlight_outcome(&self, name: Option<Seq<char>>) -> Result<(), HighlightError> {
        match name {
            Some(n) => if color_named(n) is Some {
                Ok(())
            } else {
                Err(HighlightError::InvalidColor)
            },
            None => if self.palette().len() > 0 {
                Ok(())
            } else {
                Err(HighlightError::NoUnusedColors)
            },
        }
    }

    /// Move the cursor to `(x, y)`, kept inside a screen of `rows` rows and
    /// `cols` columns; returns where it ends up.
    pub fn set_cursor(&mut self, x: u16, y: u16, rows: usize, cols: usize) -> (r: (u16, u16))
        requires
            rows >= 1,
            cols >= 1,
        ensures
            r.0 == if x as int >= cols {
                cols - 1
            } else {
                x as int
            },
            r.1 == if y as int >= rows {
                rows - 1
            } else {
                y as int
            },
            final(self).cursor() == r,
            final(self).rules() == old(self).rules(),
            final(self).palette() == old(self).palette(),
            final(self).search_color_spec() == old(self).search_color_spec(),
            final(self).pattern() == old(self).pattern(),
    {
        let x = if x as usize >= cols {
            (cols - 1) as u16
        } else {
            x
        };
        let y = if y as usize >= rows {
            (rows - 1) as u16
        } else {
            y
        };
        self.cursor_position = (x, y);
        (x, y)
    }

    /// Where the cursor stands, column first.
    pub fn cursor_position(&self) -> (r: (u16, u16))
        ensures
            r == self.cursor(),
    {
        self.cursor_position
    }

    /// Use the colour that `name` denotes for search matches; an unknown name
    /// changes nothing.
    pub fn set_search_color(&mut self, name: &str)
        ensures
            final(self).search_color_spec() == match color_named(name@) {
                Some(c) => c,
                None => old(self).search_color_spec(),
            },
            final(self).rules() == old(self).rules(),
            final(self).palette() == old(self).palette(),
            final(self).pattern() == old(self).pattern(),
            final(self).cursor() == old(self).cursor(),
    {
        if let Some(c) = color_from_name(name) {
            self.search_color = c;
        }
    }

    /// Add a rule that shows `pattern` in a colour: the one `color_str` names,
    /// which then leaves the palette, or else the last colour left in the
    /// palette.
    pub fn set_highlight(&mut self, pattern: String, color_str: Option<String>) -> (r: Result<(), HighlightError>)
        ensures
            final(self).search_color_spec() == old(self).search_color_spec(),
            final(self).pattern() == old(self).pattern(),
            final(self).cursor() == old(self).cursor(),
            (final(self).rules(), final(self).palette()) == old(self).after_highlight(
                pattern@,
                match color_str {
                    Some(name) => Some(name@),
                    None => None,
                },
            ),
            r == old(self).highlight_outcome(match color_str {
                Some(name) => Some(name@),
                None => None,
            }),
    {
        match color_str {
            Some(name) => match color_from_name(name.as_str()) {
                Some(c) => {
                    let ghost p = pattern@;
                    self.highlight.push((pattern, c));
                    assert(self.rules() =~= old(self).rules().push((p, c)));
                    let mut kept: Vec<Color> = Vec::new();
                    let mut i: usize = 0;
                    let ghost pred = |x: Color| x != c;
                    while i < self.unused_colors.len()
                        invariant
                            i <= self.unused_colors@.len(),
                            self.unused_colors@ == old(self).unused_colors@,
                            pred == (|x: Color| x != c),
                            kept@ == self.unused_colors@.take(i as int).filter(pred),
                        decreases self.unused_colors@.len() - i,
                    {
                        let ghost before = self.unused_colors@.take(i as int);
                        assert(self.unused_colors@.take(i + 1) =~= before.push(self.unused_colors@[i as int]));
                        proof {
                            before.lemma_filter_push(self.unused_colors@[i as int], pred);
                        }
                        if !same_color(&self.unused_colors[i], &c) {
                            kept.push(self.unused_colors[i]);
                        }
                        i += 1;
                    }
                    assert(self.unused_colors@.take(i as int) =~= self.unused_colors@);
                    self.unused_colors = kept;
                    Ok(())
                },
                None => Err(HighlightError::InvalidColor),
            },
            None => match self.unused_colors.pop() {
                Some(c) => {
                    let ghost p = pattern@;
                    self.highlight.push((pattern, c));
                    assert(self.rules() =~= old(self).rules().push((p, c)));
                    Ok(())
                },
                None => Err(HighlightError::NoUnusedColors),
            },
        }
    }

    /// The coloured spans of the highlight rules in `h`, in rule order.
    fn collect_fg_spans(&self, h: &[u8]) -> (r: Vec<(usize, usize, Color)>)
        ensures
            tagged_ints(r@) == fg_spans(h@, self.rules()),
    {
        let mut r: Vec<(usize, usize, Color)> = Vec::new();
        let mut k: usize = 0;
        assert(tagged_ints(r@) =~= fg_spans(h@, self.rules().take(0)));
        while k < self.highlight.len()
            invariant
                k <= self.highlight@.len(),
                self.rules().len() == self.highlight@.len(),
                tagged_ints(r@) == fg_spans(h@, self.rules().take(k as int)),
            decreases self.highlight@.len() - k,
        {
            let pat = self.highlight[k].0.as_str().as_bytes();
            let color = self.highlight[k].1;
            let occ = collect_occurrences(h, pat);
            let ghost base = tagged_ints(r@);
            let ghost tag = |sp: (int, int)| (sp.0, sp.1, color);
            let mut m: usize = 0;
            assert(tagged_ints(r@) =~= base + span_ints(occ@).take(0).map_values(tag));
            while m < occ.len()
                invariant
                    m <= occ@.len(),
                    tag == (|sp: (int, int)| (sp.0, sp.1, color)),
                    tagged_ints(r@) == base + span_ints(occ@).take(m as int).map_values(tag),
                decreases occ@.len() - m,
            {
                let (a, b) = occ[m];
                let ghost before = r@;
                r.push((a, b, color));
                assert(tagged_ints(r@) =~= tagged_ints(before).push((a as int, b as int, color)));
                assert(span_ints(occ@).take(m + 1).map_values(tag) =~= span_ints(occ@).take(
                    m as int,
                ).map_values(tag).push(tag(span_ints(occ@)[m as int])));
                m += 1;
            }
            proof {
                let rules = self.rules().take(k + 1);
                assert(rules.drop_last() =~= self.rules().take(k as int));
                assert(rules.last() == (self.highlight@[k as int].0@, color));
                assert(span_ints(occ@).take(m as int) =~= span_ints(occ@));
            }
            k += 1;
        }
        assert(self.rules().take(k as int) =~= self.rules());
        r
    }

    /// The pieces in which `h`, a line or a prefix of one, is drawn: cut at
    /// every start and end of a highlight or search match, each piece with the
    /// colour of the first rule (oldest first) whose match covers its first
    /// byte and with the search background where a search match covers it.
    pub fn line_segments(&self, h: &[u8]) -> (r: Vec<Segment>)
        ensures
            tiles(
                r@,
                h@.len() as int,
                fg_spans(h@, self.rules()),
                bg_spans(h@, self.pattern()),
                h@.len() as int,
            ),
    {
        let fg = self.collect_fg_spans(h);
        let bg = match &self.search_pattern {
            Some(p) => collect_occurrences(h, p.as_str().as_bytes()),
            None => Vec::new(),
        };
        let ghost f = tagged_ints(fg@);
        let ghost g = span_ints(bg@);
        assert(g == bg_spans(h@, self.pattern())) by {
            if self.pattern() is None {
                assert(g =~= Seq::<(int, int)>::empty());
            }
        }
        let n = h.len();
        let mut segs: Vec<Segment> = Vec::new();
        let mut pos: usize = 0;
        while pos < n
            invariant
                n == h@.len(),
                pos <= n,
                f == tagged_ints(fg@),
                g == span_ints(bg@),
                tiles(segs@, n as int, f, g, pos as int),
                is_break(n as int, f, g, pos as int),
            decreases n - pos,
        {
            let next = next_break(n, &fg, &bg, pos);
            let seg = Segment { start: pos, end: next, fg: first_cover(&fg, pos), bg: any_cover(&bg, pos) };
            let ghost before = segs@;
            segs.push(seg);
            assert(segs@ == before.push(seg));
            assert(forall|j: int| 0 <= j < before.len() ==> segs@[j] == before[j]);
            pos = next;
        }
        segs
    }
}

} // verus!
