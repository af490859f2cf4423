//! The line index over a mapped log file and the visibility overlay on top of it.

use vstd::prelude::*;
use vstd::slice::slice_subrange;
use vstd::string::StringSliceAdditionalSpecFns;
use vstd::utf8::*;
use memmap2::Mmap;
use crate::text::{contains_bytes, contains_seq, decode_utf8_bytes};

verus! {

/// Line feed.
pub const NL: u8 = 10;

/// Carriage return.
pub const CR: u8 = 13;

#[verifier::external_type_specification]
#[verifier::external_body]
pub struct ExMmap(memmap2::Mmap);

/// The bytes that a read-only map holds (its file must not be modified while
/// it is mapped).
pub uninterp spec fn mapped_contents(m: Mmap) -> Seq<u8>;

/// Relies on memmap2's `Deref for Mmap`: a read-only map hands out the same
/// bytes as long as the mapped file is not modified, which is the condition
/// under which memmap2's map constructors may be called.
#[verifier::external_body]
fn mapped_bytes(m: &Mmap) -> (r: &[u8])
    ensures
        r@ == mapped_contents(*m),
{
    &m[..]
}

/// A sequence of machine integers read as mathematical integers.
pub open spec fn as_ints(v: Seq<usize>) -> Seq<int> {
    v.map_values(|x: usize| x as int)
}

/// Byte `i` begins a line: it is the first byte, or follows a line feed.
pub open spec fn is_line_start(b: Seq<u8>, i: int) -> bool {
    i == 0 || (0 < i <= b.len() && b[i - 1] == NL)
}

/// The line starts among the bytes before `n`, ascending.
pub open spec fn starts_below(b: Seq<u8>, n: int) -> Seq<int>
    decreases n,
{
    if n <= 0 {
        seq![]
    } else if is_line_start(b, n - 1) {
        starts_below(b, n - 1).push(n - 1)
    } else {
        starts_below(b, n - 1)
    }
}

/// Where each logical line of `b` starts. A line feed that ends the buffer
/// starts no line; an empty buffer holds one empty line.
pub open spec fn line_starts_of(b: Seq<u8>) -> Seq<int> {
    if b.len() == 0 {
        seq![0]
    } else {
        starts_below(b, b.len() as int)
    }
}

/// The length of the line that the line feed at `p` ends, without the line
/// feed and without one carriage return just before it.
pub open spec fn terminated_len(b: Seq<u8>, p: int) -> int {
    let raw = p - starts_below(b, p + 1).last();
    if raw > 0 && b[p - 1] == CR {
        raw - 1
    } else {
        raw
    }
}

/// The lengths of the lines ended by the line feeds before byte `n`.
pub open spec fn lengths_below(b: Seq<u8>, n: int) -> Seq<int>
    decreases n,
{
    if n <= 0 {
        seq![]
    } else if b[n - 1] == NL {
        lengths_below(b, n - 1).push(terminated_len(b, n - 1))
    } else {
        lengths_below(b, n - 1)
    }
}

/// The length of each logical line of `b`, as used to count wrapped rows. A
/// last line without a line feed keeps all its bytes.
pub open spec fn line_lengths_of(b: Seq<u8>) -> Seq<int> {
    if b.len() == 0 {
        seq![0]
    } else if b.last() == NL {
        lengths_below(b, b.len() as int)
    } else {
        lengths_below(b, b.len() as int).push(b.len() - starts_below(b, b.len() as int).last())
    }
}

/// Where the bytes of line `k` end: just before the line feed that precedes
/// the next line, or at the end of the buffer for the last line.
pub open spec fn span_end(b: Seq<u8>, starts: Seq<int>, k: int) -> int {
    if k + 1 < starts.len() {
        starts[k + 1] - 1
    } else {
        b.len() as int
    }
}

/// Line `k` ends with a line feed: it is not the last line, or the buffer
/// ends with a line feed.
pub open spec fn is_terminated(b: Seq<u8>, starts: Seq<int>, k: int) -> bool {
    k + 1 < starts.len() || (b.len() > 0 && b.last() == NL)
}

/// Where the text of line `k` ends: before the line feed that ends it and
/// before one carriage return directly in front of that line feed. A last line
/// without a line feed keeps all its bytes.
pub open spec fn text_end(b: Seq<u8>, starts: Seq<int>, k: int) -> int {
    if is_terminated(b, starts, k) {
        let lf = if k + 1 < starts.len() {
            starts[k + 1] - 1
        } else {
            b.len() - 1
        };
        if lf > starts[k] && b[lf - 1] == CR {
            lf - 1
        } else {
            lf
        }
    } else {
        b.len() as int
    }
}

/// The raw bytes of line `k`.
pub open spec fn line_bytes_of(b: Seq<u8>, k: int) -> Seq<u8> {
    let starts = line_starts_of(b);
    b.subrange(starts[k], span_end(b, starts, k))
}

/// The bytes of the text of line `k`: its bytes without the line feed or the
/// carriage-return line feed that ends it.
pub open spec fn text_bytes_of(b: Seq<u8>, k: int) -> Seq<u8> {
    let starts = line_starts_of(b);
    b.subrange(starts[k], text_end(b, starts, k))
}

/// The text of line `k`, if its bytes are well-formed UTF-8.
pub open spec fn line_text_of(b: Seq<u8>, k: int) -> Option<Seq<char>> {
    if valid_utf8(text_bytes_of(b, k)) {
        Some(decode_utf8(text_bytes_of(b, k)))
    } else {
        None
    }
}

/// Line starts are ascending, within the buffer, and begin at 0.
pub proof fn lemma_starts_below(b: Seq<u8>, n: int)
    requires
        n <= b.len(),
    ensures
        n >= 1 ==> starts_below(b, n).len() >= 1 && starts_below(b, n)[0] == 0,
        forall|k: int| 0 <= k < starts_below(b, n).len() ==> 0 <= #[trigger] starts_below(b, n)[k] < n,
        forall|k: int, l: int|
            0 <= k < l < starts_below(b, n).len() ==> starts_below(b, n)[k] < starts_below(b, n)[l],
        forall|k: int|
            0 < k < starts_below(b, n).len() ==> b[#[trigger] starts_below(b, n)[k] - 1] == NL,
    decreases n,
{
    if n > 0 {
        lemma_starts_below(b, n - 1);
        let prev = starts_below(b, n - 1);
        let cur = starts_below(b, n);
        if is_line_start(b, n - 1) {
            assert(cur == prev.push(n - 1));
            assert forall|k: int| 0 <= k < cur.len() implies 0 <= #[trigger] cur[k] < n by {
                if k < prev.len() {
                    assert(cur[k] == prev[k]);
                }
            }
            assert forall|k: int| 0 < k < cur.len() implies b[#[trigger] cur[k] - 1] == NL by {
                if k < prev.len() {
                    assert(cur[k] == prev[k]);
                }
            }
            if n == 1 {
                assert(prev.len() == 0);
            }
        } else {
            assert(cur == prev);
        }
    }
}

/// There is one more line start below `n` than there are line feeds before `n - 1`.
proof fn lemma_counts_agree(b: Seq<u8>, n: int)
    requires
        1 <= n <= b.len(),
    ensures
        starts_below(b, n).len() == lengths_below(b, n - 1).len() + 1,
    decreases n,
{
    if n > 1 {
        lemma_counts_agree(b, n - 1);
        assert(starts_below(b, n).len() == starts_below(b, n - 1).len() + if b[n - 2] == NL {
            1int
        } else {
            0
        });
        assert(lengths_below(b, n - 1).len() == lengths_below(b, n - 2).len() + if b[n - 2] == NL {
            1int
        } else {
            0
        });
    } else {
        assert(starts_below(b, 0).len() == 0);
        assert(lengths_below(b, 0).len() == 0);
    }
}

/// The shape of the line index of any buffer.
pub proof fn lemma_line_index(b: Seq<u8>)
    ensures
        line_starts_of(b).len() >= 1,
        line_starts_of(b)[0] == 0,
        line_lengths_of(b).len() == line_starts_of(b).len(),
        forall|k: int, l: int|
            0 <= k < l < line_starts_of(b).len() ==> line_starts_of(b)[k] < line_starts_of(b)[l],
        forall|k: int|
            0 <= k < line_starts_of(b).len() ==> 0 <= #[trigger] line_starts_of(b)[k] <= b.len(),
        forall|k: int|
            0 <= k < line_starts_of(b).len() && b.len() > 0 ==> #[trigger] line_starts_of(b)[k] < b.len(),
        forall|k: int|
            0 <= k < line_starts_of(b).len() ==> #[trigger] line_starts_of(b)[k] <= span_end(
                b,
                line_starts_of(b),
                k,
            ) <= b.len(),
{
    if b.len() > 0 {
        let n = b.len() as int;
        lemma_starts_below(b, n);
        lemma_counts_agree(b, n);
        assert(lengths_below(b, n).len() == lengths_below(b, n - 1).len() + if b[n - 1] == NL {
            1int
        } else {
            0
        });
        let s = line_starts_of(b);
        assert forall|k: int| 0 <= k < s.len() implies #[trigger] s[k] <= span_end(b, s, k) <= b.len() by {
            if k + 1 < s.len() {
                assert(s[k] < s[k + 1]);
            }
        }
    }
}

/// A mask of `n` entries, all equal to `value`.
fn mask_of(n: usize, value: bool) -> (r: Vec<bool>)
    ensures
        r@ == Seq::new(n as nat, |_i: int| value),
{
    let mut r: Vec<bool> = Vec::new();
    let mut i: usize = 0;
    while i < n
        invariant
            i <= n,
            r@ == Seq::new(i as nat, |_i: int| value),
        decreases n - i,
    {
        r.push(value);
        i += 1;
        assert(r@ =~= Seq::new(i as nat, |_i: int| value));
    }
    r
}

/// The number of `true` entries in a mask.
pub open spec fn count_true(s: Seq<bool>) -> nat
    decreases s.len(),
{
    if s.len() == 0 {
        0
    } else {
        count_true(s.drop_last()) + if s.last() {
            1nat
        } else {
            0
        }
    }
}

/// The rows a line of `len` bytes takes at `cols` columns: `len / cols`
/// rounded up, and one row for an empty line.
pub open spec fn rows_needed(len: int, cols: int) -> int {
    if len <= 0 {
        1
    } else {
        len / cols + if len % cols > 0 {
            1int
        } else {
            0
        }
    }
}

/// The rows a line of `len` bytes takes, capped at `cap` rows per line and at
/// the `left` rows still free.
pub open spec fn wrap_rows(len: int, cols: int, cap: int, left: int) -> int {
    let n = rows_needed(len, cols);
    let n = if n < cap {
        n
    } else {
        cap
    };
    if n < left {
        n
    } else {
        left
    }
}

/// A line takes at least one row.
pub proof fn lemma_rows_needed_nonneg(len: int, cols: int)
    requires
        cols > 0,
    ensures
        rows_needed(len, cols) >= 1,
{
    if len > 0 {
        assert(len / cols >= 0) by (nonlinear_arith)
            requires
                len > 0,
                cols > 0,
        ;
        if len / cols == 0 {
            assert(len % cols == len) by (nonlinear_arith)
                requires
                    len > 0,
                    cols > 0,
                    len / cols == 0,
            ;
        }
    }
}

/// The line numbers of a sequence of lines.
pub open spec fn numbers_of(v: Seq<Line>) -> Seq<int> {
    v.map_values(|l: Line| l.line_number as int)
}

/// The text that stands in for a window when no line is visible.
pub const NO_VISIBLE_LINES: &'static str = "No visible lines";

/// Which way a search walks through the lines.
#[derive(Debug, Clone, Copy, PartialEq, Eq, Structural)]
pub enum SearchDirection {
    Forward,
    Backward,
}

/// A logical line handed out by a `LogFile`: its number and its text.
#[derive(Debug, Clone, Copy, PartialEq, Eq)]
pub struct Line<'a> {
    pub line_number: usize,
    pub data: &'a str,
}

impl<'a> Line<'a> {
    pub fn new(line_number: usize, data: &'a str) -> (r: Self)
        ensures
            r.line_number == line_number,
            r.data == data,
    {
        Line { line_number, data }
    }
}

/// A log file: the mapped bytes, the index of its logical lines, and which of
/// them are visible.
pub struct LogFile {
    mmap: Mmap,
    line_starts: Vec<usize>,
    line_lengths: Vec<usize>,
    line_visibility: Vec<bool>,
    backup_visibility: Option<Vec<bool>>,
    total_lines: usize,
}

impl LogFile {
    /// The bytes of the file.
    pub closed spec fn bytes(&self) -> Seq<u8> {
        mapped_contents(self.mmap)
    }

    /// Which lines are visible.
    pub closed spec fn visibility(&self) -> Seq<bool> {
        self.line_visibility@
    }

    /// The mask saved by the last isolation of a single line, if any.
    pub closed spec fn saved_visibility(&self) -> Option<Seq<bool>> {
        match self.backup_visibility {
            Some(v) => Some(v@),
            None => None,
        }
    }

    /// The stored index is the index of the mapped bytes.
    pub closed spec fn index_ok(&self) -> bool {
        &&& as_ints(self.line_starts@) == line_starts_of(self.bytes())
        &&& as_ints(self.line_lengths@) == line_lengths_of(self.bytes())
        &&& self.total_lines == self.line_starts@.len()
    }

    /// The number of logical lines.
    pub open spec fn total(&self) -> int {
        line_starts_of(self.bytes()).len() as int
    }

    /// The index is that of the mapped bytes, and there is one mask entry per line.
    pub open spec fn wf(&self) -> bool {
        &&& self.index_ok()
        &&& self.visibility().len() == self.total()
        &&& (self.saved_visibility() matches Some(v) ==> v.len() == self.total())
    }

    /// Line `k` exists and is visible.
    pub open spec fn visible_at(&self, k: int) -> bool {
        0 <= k < self.total() && self.visibility()[k]
    }

    /// The text of line `k`, if it is well-formed UTF-8.
    pub open spec fn text(&self, k: int) -> Option<Seq<char>> {
        line_text_of(self.bytes(), k)
    }

    /// The length of line `k` used to count its wrapped rows.
    pub open spec fn length_of(&self, k: int) -> int {
        line_lengths_of(self.bytes())[k]
    }

    /// Line `k` is visible and has a readable text.
    pub open spec fn eligible(&self, k: int) -> bool {
        self.visible_at(k) && self.text(k) is Some
    }

    /// Index a mapped file; every line starts out visible.
    pub fn new(mmap: Mmap) -> (r: Self)
        ensures
            r.wf(),
            r.bytes() == mapped_contents(mmap),
            r.visibility() == Seq::new(r.total() as nat, |_i: int| true),
            r.saved_visibility() is None,
    {
        let b = mapped_bytes(&mmap);
        let n = b.len();
        proof {
            lemma_line_index(b@);
        }
        if n == 0 {
            let line_starts = vec![0usize];
            let line_lengths = vec![0usize];
            let r = LogFile {
                mmap,
                line_starts,
                line_lengths,
                line_visibility: mask_of(1, true),
                backup_visibility: None,
                total_lines: 1,
            };
            assert(as_ints(r.line_starts@) =~= line_starts_of(r.bytes()));
            assert(as_ints(r.line_lengths@) =~= line_lengths_of(r.bytes()));
            return r;
        }
        let mut line_starts: Vec<usize> = vec![0usize];
        let mut line_lengths: Vec<usize> = Vec::new();
        let mut pos: usize = 0;
        assert(starts_below(b@, 0).len() == 0);
        assert(as_ints(line_starts@) =~= starts_below(b@, 1));
        assert(as_ints(line_lengths@) =~= lengths_below(b@, 0));
        while pos < n
            invariant
                n == b@.len(),
                n > 0,
                pos <= n,
                as_ints(line_starts@) == starts_below(b@, if pos < n { pos + 1 } else { pos as int }),
                as_ints(line_lengths@) == lengths_below(b@, pos as int),
            decreases n - pos,
        {
            proof {
                lemma_starts_below(b@, pos + 1);
            }
            let ghost starts0 = line_starts@;
            let ghost lengths0 = line_lengths@;
            if b[pos] == NL {
                let last = line_starts[line_starts.len() - 1];
                assert(last as int == starts_below(b@, pos + 1).last());
                let mut len = pos - last;
                if len > 0 && b[pos - 1] == CR {
                    len -= 1;
                }
                line_lengths.push(len);
                assert(as_ints(line_lengths@) =~= as_ints(lengths0).push(len as int));
                if pos + 1 < n {
                    line_starts.push(pos + 1);
                    assert(as_ints(line_starts@) =~= as_ints(starts0).push(pos + 1));
                }
            }
            pos += 1;
        }
        proof {
            lemma_starts_below(b@, n as int);
        }
        if b[n - 1] != NL {
            let last = line_starts[line_starts.len() - 1];
            let ghost lengths0 = line_lengths@;
            line_lengths.push(n - last);
            assert(as_ints(line_lengths@) =~= as_ints(lengths0).push(n - last));
        }
        let total_lines = line_starts.len();
        LogFile {
            mmap,
            line_starts,
            line_lengths,
            line_visibility: mask_of(total_lines, true),
            backup_visibility: None,
            total_lines,
        }
    }

    /// Line `k` is readable and its text contains the bytes `p`.
    pub open spec fn line_contains(&self, k: int, p: Seq<u8>) -> bool {
        self.text(k) is Some && contains_seq(text_bytes_of(self.bytes(), k), p)
    }

    /// The mask after hiding the readable lines that contain `p`.
    pub open spec fn hidden_matching(&self, p: Seq<u8>) -> Seq<bool> {
        Seq::new(
            self.total() as nat,
            |k: int|
                if self.line_contains(k, p) {
                    false
                } else {
                    self.visibility()[k]
                },
        )
    }

    /// The mask after showing the readable lines that contain `p` and hiding
    /// every other line.
    pub open spec fn shown_matching(&self, p: Seq<u8>) -> Seq<bool> {
        Seq::new(self.total() as nat, |k: int| self.line_contains(k, p))
    }

    /// `r` is what a search for `p` returns: the first hit at or after `lo`
    /// going forward, the last hit at or before `hi` going backward, where
    /// `lo` and `hi` are `line_num`, moved one line on when the current line
    /// is skipped.
    pub open spec fn search_result(
        &self,
        p: Seq<u8>,
        line_num: int,
        search_current_line: bool,
        direction: SearchDirection,
        r: Option<usize>,
    ) -> bool {
        let step = if search_current_line {
            0int
        } else {
            1
        };
        match direction {
            SearchDirection::Forward => {
                let lo = line_num + step;
                match r {
                    Some(i) => lo <= i < self.total() && self.search_hit(i as int, p) && forall|j: int|
                        lo <= j < i ==> !#[trigger] self.search_hit(j, p),
                    None => forall|j: int| lo <= j < self.total() ==> !#[trigger] self.search_hit(j, p),
                }
            },
            SearchDirection::Backward => {
                let hi = line_num - step;
                match r {
                    Some(i) => i <= hi && self.search_hit(i as int, p) && forall|j: int|
                        i < j <= hi ==> !#[trigger] self.search_hit(j, p),
                    None => forall|j: int| 0 <= j <= hi ==> !#[trigger] self.search_hit(j, p),
                }
            },
        }
    }

    /// The mask after isolating line `k`.
    pub open spec fn isolated(&self, k: int) -> Seq<bool> {
        Seq::new(self.total() as nat, |i: int| i == k)
    }

    /// The start and the end of the raw bytes of line `k`.
    fn line_span(&self, b: &[u8], k: usize) -> (r: (usize, usize))
        requires
            self.wf(),
            b@ == self.bytes(),
            k < self.total(),
        ensures
            r.0 == line_starts_of(b@)[k as int],
            r.1 == span_end(b@, line_starts_of(b@), k as int),
            r.0 <= r.1 <= b@.len(),
    {
        proof {
            lemma_line_index(b@);
        }
        let start = self.line_starts[k];
        assert(as_ints(self.line_starts@)[k as int] == self.line_starts@[k as int] as int);
        let end = if k + 1 < self.total_lines {
            assert(as_ints(self.line_starts@)[k + 1] == self.line_starts@[k + 1] as int);
            self.line_starts[k + 1] - 1
        } else {
            b.len()
        };
        (start, end)
    }

    /// The start and the end of the text bytes of line `k`.
    fn text_span(&self, b: &[u8], k: usize) -> (r: (usize, usize))
        requires
            self.wf(),
            b@ == self.bytes(),
            k < self.total(),
        ensures
            b@.subrange(r.0 as int, r.1 as int) == text_bytes_of(b@, k as int),
            r.0 <= r.1 <= b@.len(),
    {
        let (start, end) = self.line_span(b, k);
        let n = b.len();
        proof {
            lemma_line_index(b@);
        }
        let lf = if k + 1 < self.total_lines {
            end
        } else if n > 0 && b[n - 1] == NL {
            n - 1
        } else {
            return (start, end);
        };
        if lf > start && b[lf - 1] == CR {
            (start, lf - 1)
        } else {
            (start, lf)
        }
    }

    /// The number of logical lines; at least 1.
    pub fn total_lines(&self) -> (r: usize)
        requires
            self.wf(),
        ensures
            r == self.total(),
            r >= 1,
    {
        proof {
            lemma_line_index(self.bytes());
        }
        self.total_lines
    }

    /// The length of each line, as used to count its wrapped rows.
    pub fn line_lengths(&self) -> (r: &Vec<usize>)
        requires
            self.wf(),
        ensures
            as_ints(r@) == line_lengths_of(self.bytes()),
    {
        &self.line_lengths
    }

    /// The length of line `k` used to count its wrapped rows; 0 past the last line.
    pub fn line_byte_length(&self, k: usize) -> (r: usize)
        requires
            self.wf(),
        ensures
            k < self.total() ==> r == self.length_of(k as int),
            k >= self.total() ==> r == 0,
    {
        proof {
            lemma_line_index(self.bytes());
        }
        if k < self.line_lengths.len() {
            assert(as_ints(self.line_lengths@)[k as int] == self.line_lengths@[k as int] as int);
            self.line_lengths[k]
        } else {
            0
        }
    }

    /// The number of visible lines.
    pub fn visible_lines(&self) -> (r: usize)
        requires
            self.wf(),
        ensures
            r == count_true(self.visibility()),
    {
        let v = &self.line_visibility;
        let mut count: usize = 0;
        let mut i: usize = 0;
        while i < v.len()
            invariant
                i <= v@.len(),
                count == count_true(v@.take(i as int)),
                count <= i,
            decreases v@.len() - i,
        {
            assert(v@.take(i + 1).drop_last() =~= v@.take(i as int));
            if v[i] {
                count += 1;
            }
            i += 1;
        }
        assert(v@.take(i as int) =~= v@);
        count
    }

    /// The text of line `k`; `None` past the last line or where the bytes are
    /// not well-formed UTF-8.
    pub fn get_line(&self, k: usize) -> (r: Option<&str>)
        requires
            self.wf(),
        ensures
            k >= self.total() ==> r is None,
            k < self.total() ==> (r is Some <==> self.text(k as int) is Some),
            r matches Some(s) ==> self.text(k as int) == Some(s@),
    {
        if k >= self.total_lines {
            return None;
        }
        let b = mapped_bytes(&self.mmap);
        let (start, end) = self.text_span(b, k);
        decode_utf8_bytes(slice_subrange(b, start, end))
    }

    /// Whether line `k` is visible; `false` past the last line.
    pub fn is_line_visible(&self, k: usize) -> (r: bool)
        requires
            self.wf(),
        ensures
            r == self.visible_at(k as int),
    {
        if k < self.line_visibility.len() {
            self.line_visibility[k]
        } else {
            false
        }
    }

    /// Hide line `k`; nothing changes past the last line.
    pub fn hide_line(&mut self, k: usize)
        requires
            old(self).wf(),
        ensures
            final(self).wf(),
            final(self).bytes() == old(self).bytes(),
            k < old(self).total() ==> final(self).visibility() == old(self).visibility().update(
                k as int,
                false,
            ) && final(self).saved_visibility() is None,
            k >= old(self).total() ==> *final(self) == *old(self),
    {
        if k < self.total_lines {
            self.line_visibility.set(k, false);
            self.backup_visibility = None;
        }
    }

    /// Show line `k`; nothing changes past the last line.
    pub fn show_line(&mut self, k: usize)
        requires
            old(self).wf(),
        ensures
            final(self).wf(),
            final(self).bytes() == old(self).bytes(),
            k < old(self).total() ==> final(self).visibility() == old(self).visibility().update(
                k as int,
                true,
            ) && final(self).saved_visibility() is None,
            k >= old(self).total() ==> *final(self) == *old(self),
    {
        if k < self.total_lines {
            self.line_visibility.set(k, true);
            self.backup_visibility = None;
        }
    }

    /// Hide every line.
    pub fn hide_all(&mut self)
        requires
            old(self).wf(),
        ensures
            final(self).wf(),
            final(self).bytes() == old(self).bytes(),
            final(self).visibility() == Seq::new(old(self).total() as nat, |_i: int| false),
            final(self).saved_visibility() is None,
    {
        self.line_visibility = mask_of(self.total_lines, false);
        self.backup_visibility = None;
    }

    /// Show every line.
    pub fn show_all(&mut self)
        requires
            old(self).wf(),
        ensures
            final(self).wf(),
            final(self).bytes() == old(self).bytes(),
            final(self).visibility() == Seq::new(old(self).total() as nat, |_i: int| true),
            final(self).saved_visibility() is None,
    {
        self.line_visibility = mask_of(self.total_lines, true);
        self.backup_visibility = None;
    }

    /// Show line `k` alone, saving the mask it replaces; nothing changes past
    /// the last line. A second isolation replaces the saved mask.
    pub fn show_single_line(&mut self, k: usize)
        requires
            old(self).wf(),
        ensures
            final(self).wf(),
            final(self).bytes() == old(self).bytes(),
            k < old(self).total() ==> final(self).visibility() == old(self).isolated(k as int)
                && final(self).saved_visibility() == Some(old(self).visibility()),
            k >= old(self).total() ==> *final(self) == *old(self),
    {
        if k < self.total_lines {
            let mut mask = mask_of(self.total_lines, false);
            mask.set(k, true);
            std::mem::swap(&mut self.line_visibility, &mut mask);
            self.backup_visibility = Some(mask);
            assert(self.line_visibility@ =~= old(self).isolated(k as int));
        }
    }

    /// Put back the mask saved by the last isolation, if it is still held.
    pub fn restore_visibility(&mut self)
        requires
            old(self).wf(),
        ensures
            final(self).wf(),
            final(self).bytes() == old(self).bytes(),
            final(self).saved_visibility() is None,
            final(self).visibility() == match old(self).saved_visibility() {
                Some(v) => v,
                None => old(self).visibility(),
            },
    {
        if let Some(saved) = self.backup_visibility.take() {
            self.line_visibility = saved;
        }
    }

    /// Hide every readable line whose text contains `pattern`; other lines keep
    /// their visibility.
    pub fn hide_lines_containing(&mut self, pattern: &str)
        requires
            old(self).wf(),
        ensures
            final(self).wf(),
            final(self).bytes() == old(self).bytes(),
            final(self).saved_visibility() is None,
            final(self).visibility() == old(self).hidden_matching(pattern.spec_bytes()),
    {
        self.backup_visibility = None;
        let p = pattern.as_bytes();
        let b = mapped_bytes(&self.mmap);
        let n = self.total_lines;
        let mut i: usize = 0;
        while i < n
            invariant
                self.wf(),
                b@ == self.bytes(),
                self.bytes() == old(self).bytes(),
                self.saved_visibility() is None,
                n == self.total(),
                p@ == pattern.spec_bytes(),
                i <= n,
                forall|k: int|
                    0 <= k < n ==> #[trigger] self.visibility()[k] == if k < i && old(
                        self,
                    ).line_contains(k, p@) {
                        false
                    } else {
                        old(self).visibility()[k]
                    },
            decreases n - i,
        {
            let (start, end) = self.text_span(b, i);
            let t = slice_subrange(b, start, end);
            if decode_utf8_bytes(t).is_some() && contains_bytes(t, p) {
                self.line_visibility.set(i, false);
            }
            i += 1;
        }
        assert(self.visibility() =~= old(self).hidden_matching(p@));
    }

    /// Show every readable line whose text contains `pattern` and hide every
    /// other line.
    pub fn show_lines_containing(&mut self, pattern: &str)
        requires
            old(self).wf(),
        ensures
            final(self).wf(),
            final(self).bytes() == old(self).bytes(),
            final(self).saved_visibility() is None,
            final(self).visibility() == old(self).shown_matching(pattern.spec_bytes()),
    {
        self.backup_visibility = None;
        let p = pattern.as_bytes();
        let b = mapped_bytes(&self.mmap);
        let n = self.total_lines;
        let mut i: usize = 0;
        while i < n
            invariant
                self.wf(),
                b@ == self.bytes(),
                self.bytes() == old(self).bytes(),
                self.saved_visibility() is None,
                n == self.total(),
                p@ == pattern.spec_bytes(),
                i <= n,
                forall|k: int|
                    0 <= k < n ==> #[trigger] self.visibility()[k] == if k < i {
                        old(self).line_contains(k, p@)
                    } else {
                        old(self).visibility()[k]
                    },
            decreases n - i,
        {
            let (start, end) = self.text_span(b, i);
            let t = slice_subrange(b, start, end);
            let found = decode_utf8_bytes(t).is_some() && contains_bytes(t, p);
            self.line_visibility.set(i, found);
            i += 1;
        }
        assert(self.visibility() =~= old(self).shown_matching(p@));
    }

    /// `v` is what `predicate` says of the text of line `k`, which is readable.
    pub open spec fn verdict<F: Fn(&str) -> bool>(&self, predicate: F, k: int, v: bool) -> bool {
        exists|s: &str| s@ == self.text(k)->0 && #[trigger] predicate.ensures((s,), v)
    }

    /// `now` is the visibility of line `k` after hiding the readable lines of
    /// which `predicate` holds.
    pub open spec fn hidden_by<F: Fn(&str) -> bool>(&self, predicate: F, k: int, now: bool) -> bool {
        if self.text(k) is Some {
            exists|v: bool| #[trigger] self.verdict(predicate, k, v) && now == (self.visibility()[k] && !v)
        } else {
            now == self.visibility()[k]
        }
    }

    /// `now` is the visibility of line `k` after showing the readable lines of
    /// which `predicate` holds and hiding every other line.
    pub open spec fn shown_by<F: Fn(&str) -> bool>(&self, predicate: F, k: int, now: bool) -> bool {
        if self.text(k) is Some {
            self.verdict(predicate, k, now)
        } else {
            !now
        }
    }

    /// Hide every readable line of which `predicate` holds; other lines keep
    /// their visibility.
    pub fn hide_lines_matching<F: Fn(&str) -> bool>(&mut self, predicate: F)
        requires
            old(self).wf(),
            forall|s: &str| #[trigger] predicate.requires((s,)),
        ensures
            final(self).wf(),
            final(self).bytes() == old(self).bytes(),
            final(self).saved_visibility() is None,
            final(self).visibility().len() == old(self).total(),
            forall|k: int|
                0 <= k < old(self).total() ==> old(self).hidden_by(
                    predicate,
                    k,
                    #[trigger] final(self).visibility()[k],
                ),
    {
        self.backup_visibility = None;
        let n = self.total_lines;
        let mut i: usize = 0;
        while i < n
            invariant
                self.wf(),
                self.bytes() == old(self).bytes(),
                self.saved_visibility() is None,
                n == self.total(),
                i <= n,
                forall|s: &str| #[trigger] predicate.requires((s,)),
                forall|k: int| i <= k < n ==> #[trigger] self.visibility()[k] == old(self).visibility()[k],
                forall|k: int|
                    0 <= k < i ==> old(self).hidden_by(predicate, k, #[trigger] self.visibility()[k]),
            decreases n - i,
        {
            if let Some(line) = self.get_line(i) {
                let v = predicate(line);
                if v {
                    self.line_visibility.set(i, false);
                }
                assert(old(self).verdict(predicate, i as int, v));
            }
            assert(old(self).hidden_by(predicate, i as int, self.visibility()[i as int]));
            i += 1;
        }
    }

    /// Show every readable line of which `predicate` holds and hide every
    /// other line.
    pub fn show_lines_matching<F: Fn(&str) -> bool>(&mut self, predicate: F)
        requires
            old(self).wf(),
            forall|s: &str| #[trigger] predicate.requires((s,)),
        ensures
            final(self).wf(),
            final(self).bytes() == old(self).bytes(),
            final(self).saved_visibility() is None,
            final(self).visibility().len() == old(self).total(),
            forall|k: int|
                0 <= k < old(self).total() ==> old(self).shown_by(
                    predicate,
                    k,
                    #[trigger] final(self).visibility()[k],
                ),
    {
        self.backup_visibility = None;
        let n = self.total_lines;
        let mut i: usize = 0;
        while i < n
            invariant
                self.wf(),
                self.bytes() == old(self).bytes(),
                self.saved_visibility() is None,
                n == self.total(),
                i <= n,
                forall|s: &str| #[trigger] predicate.requires((s,)),
                forall|k: int|
                    0 <= k < i ==> old(self).shown_by(predicate, k, #[trigger] self.visibility()[k]),
            decreases n - i,
        {
            let v = match self.get_line(i) {
                Some(line) => {
                    let v = predicate(line);
                    assert(old(self).verdict(predicate, i as int, v));
                    v
                },
                None => false,
            };
            self.line_visibility.set(i, v);
            i += 1;
        }
    }

    /// The size of the file in bytes.
    pub fn file_size(&self) -> (r: usize)
        requires
            self.wf(),
        ensures
            r == self.bytes().len(),
    {
        mapped_bytes(&self.mmap).len()
    }

    /// The raw bytes of line `k`, up to the line feed that ends it (for the
    /// last line, up to the end of the file); `None` past the last line.
    pub fn get_line_bytes(&self, k: usize) -> (r: Option<&[u8]>)
        requires
            self.wf(),
        ensures
            k >= self.total() ==> r is None,
            k < self.total() ==> (r matches Some(s) && s@ == line_bytes_of(self.bytes(), k as int)),
    {
        if k >= self.total_lines {
            return None;
        }
        let b = mapped_bytes(&self.mmap);
        let (start, end) = self.line_span(b, k);
        Some(slice_subrange(b, start, end))
    }

    /// The readable visible lines in `[lo, hi)`, ascending.
    pub open spec fn eligible_in(&self, lo: int, hi: int) -> Seq<int>
        decreases hi - lo,
    {
        if hi <= lo {
            seq![]
        } else if self.eligible(hi - 1) {
            self.eligible_in(lo, hi - 1).push(hi - 1)
        } else {
            self.eligible_in(lo, hi - 1)
        }
    }

    /// The line numbers that `get_visible_lines(start, count)` returns when
    /// some line is readable and visible: up to `count` such lines from
    /// `start` on, or, where that gives none, the nearest one before `start`.
    pub open spec fn window(&self, start: int, count: int) -> Seq<int> {
        let s = if start < self.total() {
            start
        } else {
            self.total()
        };
        let fwd = self.eligible_in(s, self.total());
        let m = if fwd.len() < count {
            fwd.len() as int
        } else {
            count
        };
        if m > 0 {
            fwd.take(m)
        } else {
            let back = self.eligible_in(0, s);
            if back.len() > 0 {
                seq![back.last()]
            } else {
                seq![]
            }
        }
    }

    /// The readable visible lines of `[lo, hi)` split at `mid`.
    pub proof fn lemma_eligible_split(&self, lo: int, mid: int, hi: int)
        requires
            lo <= mid <= hi,
        ensures
            self.eligible_in(lo, hi) == self.eligible_in(lo, mid) + self.eligible_in(mid, hi),
        decreases hi - mid,
    {
        if hi > mid {
            self.lemma_eligible_split(lo, mid, hi - 1);
            if self.eligible(hi - 1) {
                assert(self.eligible_in(lo, mid) + self.eligible_in(mid, hi) =~= (self.eligible_in(
                    lo,
                    mid,
                ) + self.eligible_in(mid, hi - 1)).push(hi - 1));
            }
        } else {
            assert(self.eligible_in(lo, mid) + self.eligible_in(mid, hi) =~= self.eligible_in(
                lo,
                mid,
            ));
        }
    }

    /// Up to `count` readable visible lines from `start` on. Where that gives
    /// none, the nearest such line before `start`; where there is none either,
    /// one placeholder line 0.
    pub fn get_visible_lines(&self, start: usize, count: usize) -> (r: Vec<Line<'_>>)
        requires
            self.wf(),
        ensures
            self.window(start as int, count as int).len() > 0 ==> numbers_of(r@) == self.window(
                start as int,
                count as int,
            ) && forall|j: int|
                0 <= j < r@.len() ==> self.text(#[trigger] r@[j].line_number as int) == Some(
                    r@[j].data@,
                ),
            self.window(start as int, count as int).len() == 0 ==> r@.len() == 1
                && r@[0].line_number == 0 && r@[0].data@ == NO_VISIBLE_LINES@,
    {
        let total = self.total_lines;
        let s = if start < total {
            start
        } else {
            total
        };
        let want = count;
        let mut result: Vec<Line<'_>> = Vec::new();
        let mut i = s;
        while i < total && result.len() < want
            invariant
                self.wf(),
                total == self.total(),
                s <= i <= total,
                want == count,
                result@.len() <= want,
                numbers_of(result@) == self.eligible_in(s as int, i as int),
                forall|j: int|
                    0 <= j < result@.len() ==> self.text(#[trigger] result@[j].line_number as int)
                        == Some(result@[j].data@),
            decreases total - i,
        {
            let ghost before = result@;
            if self.is_line_visible(i) {
                if let Some(line) = self.get_line(i) {
                    result.push(Line::new(i, line));
                    assert(numbers_of(result@) =~= numbers_of(before).push(i as int));
                }
            }
            i += 1;
        }
        proof {
            self.lemma_eligible_split(s as int, i as int, total as int);
        }
        if result.len() > 0 {
            assert(numbers_of(result@) =~= self.window(start as int, count as int));
            return result;
        }
        assert(count == 0 || self.eligible_in(s as int, total as int).len() == 0);
        let mut j = s;
        assert(self.eligible_in(s as int, s as int).len() == 0);
        while j > 0
            invariant
                self.wf(),
                total == self.total(),
                j <= s <= total,
                s == (if start < total {
                    start
                } else {
                    total
                }),
                result@.len() == 0,
                count == 0 || self.eligible_in(s as int, total as int).len() == 0,
                self.eligible_in(j as int, s as int).len() == 0,
            decreases j,
        {
            j -= 1;
            if self.is_line_visible(j) {
                if let Some(line) = self.get_line(j) {
                    proof {
                        self.lemma_eligible_split(0, j + 1, s as int);
                        self.lemma_eligible_split(j as int, j + 1, s as int);
                        assert(self.eligible_in(j as int, j as int).len() == 0);
                        assert(self.eligible_in(0, j + 1).last() == j);
                    }
                    result.push(Line::new(j, line));
                    assert(numbers_of(result@) =~= self.window(start as int, count as int));
                    return result;
                }
            }
            assert(self.eligible_in(j as int, s as int) =~= self.eligible_in(j + 1, s as int)) by {
                self.lemma_eligible_split(j as int, j + 1, s as int);
                assert(self.eligible_in(j as int, j as int).len() == 0);
                assert(self.eligible_in(j as int, j + 1).len() == 0);
            }
        }
        result.push(Line::new(0, NO_VISIBLE_LINES));
        result
    }

    /// Lines that a search for `p` stops at: visible, readable, and holding `p`.
    pub open spec fn search_hit(&self, k: int, p: Seq<u8>) -> bool {
        self.visible_at(k) && self.line_contains(k, p)
    }

    /// The first visible readable line holding `pattern` at or after
    /// `line_num` (after it, when `search_current_line` is false) for a forward
    /// search; the last one at or before `line_num` (before it) for a backward
    /// search. A backward search from line 0 that skips the current line finds
    /// nothing.
    pub fn search(
        &self,
        pattern: &str,
        line_num: usize,
        search_current_line: bool,
        direction: SearchDirection,
    ) -> (r: Option<usize>)
        requires
            self.wf(),
        ensures
            self.search_result(pattern.spec_bytes(), line_num as int, search_current_line, direction, r),
    {
        let offset: usize = if search_current_line {
            0
        } else {
            1
        };
        let p = pattern.as_bytes();
        let b = mapped_bytes(&self.mmap);
        let total = self.total_lines;
        match direction {
            SearchDirection::Forward => {
                if line_num >= total {
                    return None;
                }
                let mut i = line_num + offset;
                while i < total
                    invariant
                        self.wf(),
                        b@ == self.bytes(),
                        p@ == pattern.spec_bytes(),
                        total == self.total(),
                        direction == SearchDirection::Forward,
                        offset == (if search_current_line {
                            0usize
                        } else {
                            1usize
                        }),
                        line_num + offset <= i,
                        forall|j: int| line_num + offset <= j < i ==> !#[trigger] self.search_hit(j, p@),
                    decreases total - i,
                {
                    if self.line_visibility[i] {
                        let (start, end) = self.text_span(b, i);
                        let t = slice_subrange(b, start, end);
                        if decode_utf8_bytes(t).is_some() && contains_bytes(t, p) {
                            return Some(i);
                        }
                    }
                    i += 1;
                }
                None
            },
            SearchDirection::Backward => {
                if line_num < offset {
                    return None;
                }
                let top = line_num - offset;
                let mut i = if top < total {
                    top + 1
                } else {
                    total
                };
                while i > 0
                    invariant
                        self.wf(),
                        b@ == self.bytes(),
                        p@ == pattern.spec_bytes(),
                        total == self.total(),
                        direction == SearchDirection::Backward,
                        top == line_num - (if search_current_line {
                            0usize
                        } else {
                            1usize
                        }),
                        i <= total,
                        i <= top + 1,
                        forall|j: int| i <= j <= top ==> !#[trigger] self.search_hit(j, p@),
                    decreases i,
                {
                    i -= 1;
                    if self.line_visibility[i] {
                        let (start, end) = self.text_span(b, i);
                        let t = slice_subrange(b, start, end);
                        if decode_utf8_bytes(t).is_some() && contains_bytes(t, p) {
                            return Some(i);
                        }
                    }
                }
                None
            },
        }
    }

    /// The rows that the visible lines of `[lo, hi)` take, each capped at `cap`.
    pub open spec fn rows_between(&self, lo: int, hi: int, cols: int, cap: int) -> int
        decreases hi - lo,
    {
        if hi <= lo {
            0
        } else {
            (if self.visible_at(lo) {
                wrap_rows(self.length_of(lo), cols, cap, cap)
            } else {
                0
            }) + self.rows_between(lo + 1, hi, cols, cap)
        }
    }

    /// The rows that a window from line `k` down to the anchor line `a` takes:
    /// the anchor capped at `cap` and at `rows`, the visible lines below it at `cap`.
    pub open spec fn fill(&self, k: int, a: int, rows: int, cols: int, cap: int) -> int {
        wrap_rows(self.length_of(a), cols, cap, rows) + self.rows_between(k, a, cols, cap)
    }

    /// `a` is the last visible line before `e`.
    pub open spec fn is_anchor(&self, e: int, a: int) -> bool {
        0 <= a < e && self.visible_at(a) && forall|j: int| a < j < e ==> !#[trigger] self.visible_at(j)
    }

    /// `r` is the window that ends with the last visible line before
    /// `end_pos` and reaches back as far as the walk described at
    /// `get_pos_from_end_line` goes; `(0, 0)` when no line before `end_pos` is
    /// visible.
    pub open spec fn end_window(&self, end_pos: int, rows: int, cols: int, cap: int, r: (usize, usize)) -> bool {
        let e = if end_pos < self.total() {
            end_pos
        } else {
            self.total()
        };
        let (s, a) = (r.0 as int, r.1 as int);
        let fill = |k: int| self.fill(k, a, rows, cols, cap);
        &&& (forall|j: int| 0 <= j < e ==> !#[trigger] self.visible_at(j)) ==> r == (0usize, 0usize)
        &&& (exists|j: int| 0 <= j < e && #[trigger] self.visible_at(j)) ==> {
            &&& self.is_anchor(e, a)
            &&& s <= a
            &&& s < a ==> self.visible_at(s) && fill(s) <= rows
            &&& forall|k: int| s < k < a && #[trigger] self.visible_at(k) ==> fill(k) < rows
            &&& forall|k: int|
                0 <= k < s && #[trigger] self.visible_at(k) ==> fill(k) > rows || (s < a && fill(s)
                    >= rows)
        }
    }

    /// Taking in more lines never takes fewer rows.
    pub proof fn lemma_rows_between_grow(&self, lo1: int, lo2: int, hi: int, cols: int, cap: int)
        requires
            lo1 <= lo2,
            cols > 0,
            cap >= 0,
        ensures
            self.rows_between(lo1, hi, cols, cap) >= self.rows_between(lo2, hi, cols, cap),
        decreases lo2 - lo1,
    {
        if lo1 < lo2 {
            self.lemma_rows_between_grow(lo1 + 1, lo2, hi, cols, cap);
            assert(self.rows_between(lo1, hi, cols, cap) >= self.rows_between(lo1 + 1, hi, cols, cap)) by {
                if lo1 < hi {
                    assert(rows_needed(self.length_of(lo1), cols) >= 0) by {
                        lemma_rows_needed_nonneg(self.length_of(lo1), cols);
                    }
                }
            }
        }
    }

    /// The rows a line of `line_len` bytes takes at `cols` columns, capped at
    /// `max_lines` and at `rows_left`.
    pub fn num_lines_to_print(line_len: usize, cols: usize, max_lines: usize, rows_left: usize) -> (r: usize)
        requires
            cols > 0,
        ensures
            r == wrap_rows(line_len as int, cols as int, max_lines as int, rows_left as int),
    {
        let n = if line_len == 0 {
            1
        } else {
            let q = line_len / cols;
            if line_len % cols > 0 {
                assert(q < usize::MAX) by (nonlinear_arith)
                    requires
                        q == line_len / cols,
                        line_len % cols > 0,
                        cols > 0,
                        line_len <= usize::MAX,
                ;
                q + 1
            } else {
                q
            }
        };
        let n = if n < max_lines {
            n
        } else {
            max_lines
        };
        if n < rows_left {
            n
        } else {
            rows_left
        }
    }

    /// The window that ends with the last visible line before `end_pos` and
    /// holds as many visible lines before it as fit in `rows` rows: walking
    /// back from that anchor line, each visible line adds its rows (capped at
    /// `max_row_per_line`); the walk keeps the lowest line reached while the
    /// total is at most `rows`, and stops once the total reaches `rows`.
    /// Returns `(0, 0)` when no line before `end_pos` is visible.
    pub fn get_pos_from_end_line(&self, end_pos: usize, rows: usize, cols: usize, max_row_per_line: usize) -> (r: (usize, usize))
        requires
            self.wf(),
            cols > 0,
        ensures
            self.end_window(end_pos as int, rows as int, cols as int, max_row_per_line as int, r),
    {
        let total = self.total_lines;
        let e = if end_pos < total {
            end_pos
        } else {
            total
        };
        let mut j = e;
        let mut found = false;
        while j > 0 && !found
            invariant
                self.wf(),
                total == self.total(),
                e <= total,
                j <= e,
                found ==> j < e && self.visible_at(j as int),
                forall|t: int| j < t < e ==> !#[trigger] self.visible_at(t),
                !found ==> !self.visible_at(j as int) || j == e,
            decreases j,
        {
            j -= 1;
            if self.line_visibility[j] {
                found = true;
            }
        }
        if !found {
            assert forall|t: int| 0 <= t < e implies !#[trigger] self.visible_at(t) by {
                if t == j {
                }
            }
            return (0, 0);
        }
        let a = j;
        let cap = max_row_per_line;
        let ghost fill = |k: int| self.fill(k, a as int, rows as int, cols as int, cap as int);
        proof {
            lemma_line_index(self.bytes());
            assert(as_ints(self.line_lengths@)[a as int] == self.line_lengths@[a as int] as int);
        }
        let mut acc = LogFile::num_lines_to_print(self.line_lengths[a], cols, cap, rows);
        let mut best: Option<usize> = None;
        let mut i = a;
        assert(acc == fill(a as int));
        while i > 0
            invariant
                self.wf(),
                total == self.total(),
                a < total,
                cols > 0,
                i <= a,
                self.is_anchor(e as int, a as int),
                e == (if end_pos < total {
                    end_pos
                } else {
                    total
                }),
                cap == max_row_per_line,
                self.line_lengths@.len() == total,
                fill == (|k: int| self.fill(k, a as int, rows as int, cols as int, cap as int)),
                acc == fill(i as int),
                acc <= rows,
                match best {
                    Some(bb) => i <= bb < a && self.visible_at(bb as int) && fill(bb as int) <= rows
                        && forall|k: int| i <= k < bb ==> !#[trigger] self.visible_at(k),
                    None => forall|k: int| i <= k < a ==> !#[trigger] self.visible_at(k),
                },
                forall|k: int| i <= k < a && #[trigger] self.visible_at(k) ==> fill(k) < rows,
            decreases i,
        {
            let k = i - 1;
            if self.line_visibility[k] {
                proof {
                    assert(as_ints(self.line_lengths@)[k as int] == self.line_lengths@[k as int] as int);
                }
                let w = LogFile::num_lines_to_print(self.line_lengths[k], cols, cap, cap);
                assert(fill(k as int) == acc + w);
                if w >= rows - acc {
                    let s = if w == rows - acc {
                        k
                    } else {
                        match best {
                            Some(bb) => bb,
                            None => a,
                        }
                    };
                    proof {
                        assert forall|t: int| 0 <= t < s && #[trigger] self.visible_at(t) implies fill(t) > rows
                            || (s < a && fill(s as int) >= rows) by {
                            if w != rows - acc {
                                assert(t <= k);
                                self.lemma_rows_between_grow(t, k as int, a as int, cols as int, cap as int);
                            }
                        }
                    }
                    return (s, a);
                }
                acc = acc + w;
                best = Some(k);
            }
            i = k;
        }
        let s = match best {
            Some(bb) => bb,
            None => a,
        };
        (s, a)
    }

    /// The window at the end of the file: `get_pos_from_end_line` from the
    /// last line.
    pub fn get_end_of_file(&self, rows: usize, cols: usize, max_row_per_line: usize) -> (r: (usize, usize))
        requires
            self.wf(),
            cols > 0,
        ensures
            self.end_window(self.total(), rows as int, cols as int, max_row_per_line as int, r),
    {
        self.get_pos_from_end_line(self.total_lines, rows, cols, max_row_per_line)
    }
}

} // verus!
