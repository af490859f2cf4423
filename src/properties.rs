//! Properties that hold across the operations of a log file.

use vstd::prelude::*;
use vstd::utf8::*;
use crate::log_file::{
    count_true, is_line_start, lemma_line_index, lengths_below, line_lengths_of, line_starts_of,
    line_text_of, starts_below, terminated_len, text_bytes_of, text_end, LogFile, CR, NL,
};

verus! {

/// Every file has at least one line, and an empty file has exactly one line,
/// whose text is empty.
pub proof fn law_line_count(lf: LogFile)
    requires
        lf.wf(),
    ensures
        lf.total() >= 1,
        lf.bytes().len() == 0 ==> lf.total() == 1 && lf.text(0) == Some(Seq::<char>::empty()),
{
    lemma_line_index(lf.bytes());
    if lf.bytes().len() == 0 {
        let b = lf.bytes();
        assert(text_bytes_of(b, 0) =~= Seq::<u8>::empty());
        assert(valid_utf8(Seq::<u8>::empty()));
        assert(decode_utf8(Seq::<u8>::empty()) =~= Seq::<char>::empty());
    }
}

/// After showing the lines that contain `p` (and hiding the others), the
/// visible lines are exactly those that contain `p`, so their number is the
/// number of matching lines.
pub proof fn law_show_matching_count(before: LogFile, after: LogFile, p: Seq<u8>)
    requires
        before.wf(),
        after.wf(),
        after.bytes() == before.bytes(),
        after.visibility() == before.shown_matching(p),
    ensures
        count_true(after.visibility()) == count_true(
            Seq::new(before.total() as nat, |k: int| before.line_contains(k, p)),
        ),
        forall|k: int| 0 <= k < after.total() && !before.line_contains(k, p) ==> !after.visible_at(k),
{
    assert(after.visibility() =~= Seq::new(before.total() as nat, |k: int| before.line_contains(k, p)));
}

/// Hiding line `i` and then showing it leaves line `i` visible and every other
/// line as it was.
pub proof fn law_hide_then_show(before: LogFile, hidden: LogFile, after: LogFile, i: int)
    requires
        before.wf(),
        hidden.wf(),
        after.wf(),
        0 <= i < before.total(),
        hidden.bytes() == before.bytes(),
        after.bytes() == hidden.bytes(),
        hidden.visibility() == before.visibility().update(i, false),
        after.visibility() == hidden.visibility().update(i, true),
    ensures
        after.visible_at(i),
        forall|k: int| 0 <= k < after.total() && k != i ==> after.visible_at(k) == before.visible_at(k),
{
}

/// With every line visible and readable, a window of `n >= 1` lines from line
/// 0 is lines `0, 1, ...`, as many as `n` and the file allow.
pub proof fn law_window_from_start(lf: LogFile, n: int)
    requires
        lf.wf(),
        n >= 1,
        forall|k: int| 0 <= k < lf.total() ==> #[trigger] lf.visible_at(k),
        forall|k: int| 0 <= k < lf.total() ==> #[trigger] lf.text(k) is Some,
    ensures
        lf.window(0, n) == Seq::new(
            (if n < lf.total() {
                n
            } else {
                lf.total()
            }) as nat,
            |k: int| k,
        ),
{
    law_line_count(lf);
    lemma_all_eligible(lf, lf.total());
    let all = lf.eligible_in(0, lf.total());
    assert(all.len() > 0);
    let m = if n < lf.total() {
        n
    } else {
        lf.total()
    };
    assert(lf.window(0, n) == all.take(m));
    assert(all.take(m) =~= Seq::new(m as nat, |k: int| k));
}

proof fn lemma_all_eligible(lf: LogFile, hi: int)
    requires
        0 <= hi <= lf.total(),
        forall|k: int| 0 <= k < lf.total() ==> #[trigger] lf.visible_at(k),
        forall|k: int| 0 <= k < lf.total() ==> #[trigger] lf.text(k) is Some,
    ensures
        lf.eligible_in(0, hi) == Seq::new(hi as nat, |k: int| k),
    decreases hi,
{
    if hi > 0 {
        lemma_all_eligible(lf, hi - 1);
        assert(lf.visible_at(hi - 1));
        assert(lf.text(hi - 1) is Some);
        assert(lf.eligible_in(0, hi) =~= Seq::new(hi as nat, |k: int| k));
    } else {
        assert(lf.eligible_in(0, hi) =~= Seq::new(hi as nat, |k: int| k));
    }
}

/// A line terminator: a line feed, or a carriage return and a line feed.
pub open spec fn is_terminator(t: Seq<u8>) -> bool {
    t == seq![NL] || t == seq![CR, NL]
}

/// A line's content: no line feed, and no carriage return at its end (one
/// there would read as part of a carriage-return line feed).
pub open spec fn is_plain_line(l: Seq<u8>) -> bool {
    &&& forall|i: int| 0 <= i < l.len() ==> l[i] != NL
    &&& l.len() > 0 ==> l.last() != CR
}

/// The lines `ls`, each followed by its terminator in `ts`.
pub open spec fn joined(ls: Seq<Seq<u8>>, ts: Seq<Seq<u8>>) -> Seq<u8>
    decreases ls.len(),
{
    if ls.len() == 0 {
        seq![]
    } else {
        joined(ls.drop_last(), ts.drop_last()) + ls.last() + ts.last()
    }
}

/// The same lines joined with line feeds, with carriage-return line feeds, or
/// with any mix of the two, have the same line lengths: those of the lines.
pub proof fn law_terminators(ls: Seq<Seq<u8>>, ts1: Seq<Seq<u8>>, ts2: Seq<Seq<u8>>)
    requires
        ts1.len() == ls.len(),
        ts2.len() == ls.len(),
        forall|i: int| 0 <= i < ls.len() ==> is_plain_line(#[trigger] ls[i]),
        forall|i: int| 0 <= i < ls.len() ==> is_terminator(#[trigger] ts1[i]),
        forall|i: int| 0 <= i < ls.len() ==> is_terminator(#[trigger] ts2[i]),
    ensures
        line_lengths_of(joined(ls, ts1)) == line_lengths_of(joined(ls, ts2)),
        ls.len() > 0 ==> line_lengths_of(joined(ls, ts1)) == ls.map_values(|l: Seq<u8>| l.len() as int),
{
    lemma_joined(ls, ts1);
    lemma_joined(ls, ts2);
}

/// Where each of the joined lines starts, and, last, where the joined bytes end.
pub open spec fn line_offsets(ls: Seq<Seq<u8>>, ts: Seq<Seq<u8>>) -> Seq<int>
    decreases ls.len(),
{
    if ls.len() == 0 {
        seq![0]
    } else {
        line_offsets(ls.drop_last(), ts.drop_last()).push(joined(ls, ts).len() as int)
    }
}

/// Whatever ends each line, the text of line `k` of the joined bytes is the
/// `k`-th line: the same lines joined with line feeds, carriage-return line
/// feeds or a mix of the two give the same texts.
pub proof fn law_terminators_text(ls: Seq<Seq<u8>>, ts1: Seq<Seq<u8>>, ts2: Seq<Seq<u8>>)
    requires
        ls.len() > 0,
        ts1.len() == ls.len(),
        ts2.len() == ls.len(),
        forall|i: int| 0 <= i < ls.len() ==> is_plain_line(#[trigger] ls[i]),
        forall|i: int| 0 <= i < ls.len() ==> is_terminator(#[trigger] ts1[i]),
        forall|i: int| 0 <= i < ls.len() ==> is_terminator(#[trigger] ts2[i]),
    ensures
        line_starts_of(joined(ls, ts1)).len() == ls.len(),
        line_starts_of(joined(ls, ts2)).len() == ls.len(),
        forall|k: int| 0 <= k < ls.len() ==> #[trigger] text_bytes_of(joined(ls, ts1), k) == ls[k],
        forall|k: int|
            0 <= k < ls.len() ==> #[trigger] line_text_of(joined(ls, ts1), k) == line_text_of(
                joined(ls, ts2),
                k,
            ),
{
    lemma_joined_text(ls, ts1);
    lemma_joined_text(ls, ts2);
    assert forall|k: int| 0 <= k < ls.len() implies #[trigger] line_text_of(joined(ls, ts1), k)
        == line_text_of(joined(ls, ts2), k) by {
        assert(text_bytes_of(joined(ls, ts1), k) == text_bytes_of(joined(ls, ts2), k));
    }
}

proof fn lemma_joined_text(ls: Seq<Seq<u8>>, ts: Seq<Seq<u8>>)
    requires
        ls.len() > 0,
        ts.len() == ls.len(),
        forall|i: int| 0 <= i < ls.len() ==> is_plain_line(#[trigger] ls[i]),
        forall|i: int| 0 <= i < ls.len() ==> is_terminator(#[trigger] ts[i]),
    ensures
        line_starts_of(joined(ls, ts)).len() == ls.len(),
        forall|k: int| 0 <= k < ls.len() ==> #[trigger] text_bytes_of(joined(ls, ts), k) == ls[k],
{
    lemma_joined(ls, ts);
    lemma_offsets(ls, ts);
    let b = joined(ls, ts);
    let o = line_offsets(ls, ts);
    let n = b.len() as int;
    let st = line_starts_of(b);
    assert(is_line_start(b, n));
    assert(starts_below(b, n + 1) == starts_below(b, n).push(n));
    assert(st == starts_below(b, n));
    assert(st =~= o.drop_last());
    assert forall|k: int| 0 <= k < ls.len() implies #[trigger] text_bytes_of(b, k) == ls[k] by {
        let l = ls[k];
        let t = ts[k];
        assert(is_plain_line(l));
        assert(is_terminator(t));
        let part = b.subrange(o[k], o[k + 1]);
        assert(part == l + t);
        assert(o[k + 1] == o[k] + l.len() + t.len());
        assert(0 <= o[k] && o[k + 1] <= n);
        assert(t.len() == 1 || t.len() == 2);
        assert(part[part.len() - 1] == NL);
        assert(st[k] == o[k]);
        let lf = o[k + 1] - 1;
        if k + 1 < st.len() {
            assert(st[k + 1] == o[k + 1]);
        }
        assert(b[lf] == part[lf - o[k]]);
        if t == seq![NL] {
            if l.len() > 0 {
                assert(b[lf - 1] == part[l.len() - 1]);
                assert(part[l.len() - 1] == l.last());
            }
            assert(text_end(b, st, k) == o[k] + l.len());
        } else {
            assert(b[lf - 1] == part[l.len() as int]);
            assert(text_end(b, st, k) == o[k] + l.len());
        }
        assert(b.subrange(o[k], o[k] + l.len()) =~= l) by {
            assert forall|i: int| 0 <= i < l.len() implies b.subrange(o[k], o[k] + l.len())[i] == l[i] by {
                assert(b[o[k] + i] == part[i]);
            }
        }
    }
}

/// The offsets of joined lines: each line and its terminator follow the
/// previous ones.
proof fn lemma_offsets(ls: Seq<Seq<u8>>, ts: Seq<Seq<u8>>)
    requires
        ts.len() == ls.len(),
    ensures
        line_offsets(ls, ts).len() == ls.len() + 1,
        line_offsets(ls, ts)[0] == 0,
        line_offsets(ls, ts).last() == joined(ls, ts).len(),
        forall|k: int|
            0 <= k <= ls.len() ==> 0 <= #[trigger] line_offsets(ls, ts)[k] <= joined(ls, ts).len(),
        forall|k: int|
            0 <= k < ls.len() ==> #[trigger] line_offsets(ls, ts)[k + 1] == line_offsets(ls, ts)[k]
                + ls[k].len() + ts[k].len(),
        forall|k: int|
            0 <= k < ls.len() ==> #[trigger] joined(ls, ts).subrange(
                line_offsets(ls, ts)[k],
                line_offsets(ls, ts)[k + 1],
            ) == ls[k] + ts[k],
    decreases ls.len(),
{
    if ls.len() > 0 {
        let ls0 = ls.drop_last();
        let ts0 = ts.drop_last();
        lemma_offsets(ls0, ts0);
        let o0 = line_offsets(ls0, ts0);
        let o = line_offsets(ls, ts);
        let b0 = joined(ls0, ts0);
        let b = joined(ls, ts);
        let l = ls.last();
        let t = ts.last();
        assert(o == o0.push(b.len() as int));
        assert(b =~= b0 + (l + t));
        assert forall|k: int| 0 <= k <= ls.len() implies 0 <= #[trigger] o[k] <= b.len() by {
            if k < ls.len() {
                assert(o[k] == o0[k]);
            }
        }
        assert forall|k: int| 0 <= k < ls.len() implies #[trigger] o[k + 1] == o[k] + ls[k].len()
            + ts[k].len() by {
            if k < ls.len() - 1 {
                assert(o[k] == o0[k]);
                assert(o[k + 1] == o0[k + 1]);
                assert(ls[k] == ls0[k]);
                assert(ts[k] == ts0[k]);
            } else {
                assert(o[k] == o0.last());
            }
        }
        assert forall|k: int| 0 <= k < ls.len() implies #[trigger] b.subrange(o[k], o[k + 1])
            == ls[k] + ts[k] by {
            if k < ls.len() - 1 {
                assert(o[k] == o0[k]);
                assert(o[k + 1] == o0[k + 1]);
                assert(0 <= o0[k] <= b0.len());
                assert(0 <= o0[k + 1] <= b0.len());
                assert(ls[k] == ls0[k]);
                assert(ts[k] == ts0[k]);
                assert(b.subrange(o[k], o[k + 1]) =~= b0.subrange(o0[k], o0[k + 1]));
            } else {
                assert(o[k] == o0.last());
                assert(b.subrange(o[k], o[k + 1]) =~= l + t);
            }
        }
    }
}

/// The same holds when the last line has no terminator: whatever ends the
/// lines before it, the line lengths are those of the lines.
pub proof fn law_terminators_open_end(
    ls: Seq<Seq<u8>>,
    ts1: Seq<Seq<u8>>,
    ts2: Seq<Seq<u8>>,
    last: Seq<u8>,
)
    requires
        ts1.len() == ls.len(),
        ts2.len() == ls.len(),
        forall|i: int| 0 <= i < ls.len() ==> is_plain_line(#[trigger] ls[i]),
        forall|i: int| 0 <= i < ls.len() ==> is_terminator(#[trigger] ts1[i]),
        forall|i: int| 0 <= i < ls.len() ==> is_terminator(#[trigger] ts2[i]),
        is_plain_line(last),
        last.len() > 0,
    ensures
        line_lengths_of(joined(ls, ts1) + last) == line_lengths_of(joined(ls, ts2) + last),
        line_lengths_of(joined(ls, ts1) + last) == ls.map_values(|l: Seq<u8>| l.len() as int).push(
            last.len() as int,
        ),
{
    lemma_open_end(ls, ts1, last);
    lemma_open_end(ls, ts2, last);
}

proof fn lemma_open_end(ls: Seq<Seq<u8>>, ts: Seq<Seq<u8>>, last: Seq<u8>)
    requires
        ts.len() == ls.len(),
        forall|i: int| 0 <= i < ls.len() ==> is_plain_line(#[trigger] ls[i]),
        forall|i: int| 0 <= i < ls.len() ==> is_terminator(#[trigger] ts[i]),
        is_plain_line(last),
        last.len() > 0,
    ensures
        line_lengths_of(joined(ls, ts) + last) == ls.map_values(|l: Seq<u8>| l.len() as int).push(
            last.len() as int,
        ),
{
    lemma_joined(ls, ts);
    let b = joined(ls, ts);
    let b2 = b + last;
    let m = b.len() as int;
    let n = b2.len() as int;
    assert forall|i: int| m <= i < n implies b2[i] != NL by {
        assert(b2[i] == last[i - m]);
    }
    assert(b2.last() == last[last.len() - 1]);
    lemma_starts_extend(b, last, m + 1);
    assert(is_line_start(b, m));
    assert(starts_below(b, m + 1).last() == m);
    lemma_no_new_starts(b2, m, n);
    lemma_lengths_extend(b, last, m);
    lemma_no_new_lengths(b2, m, n);
}

/// The line lengths of joined lines are the lengths of the lines.
proof fn lemma_joined(ls: Seq<Seq<u8>>, ts: Seq<Seq<u8>>)
    requires
        ts.len() == ls.len(),
        forall|i: int| 0 <= i < ls.len() ==> is_plain_line(#[trigger] ls[i]),
        forall|i: int| 0 <= i < ls.len() ==> is_terminator(#[trigger] ts[i]),
    ensures
        (joined(ls, ts).len() == 0) == (ls.len() == 0),
        ls.len() > 0 ==> joined(ls, ts).last() == NL,
        lengths_below(joined(ls, ts), joined(ls, ts).len() as int) == ls.map_values(
            |l: Seq<u8>| l.len() as int,
        ),
        ls.len() > 0 ==> line_lengths_of(joined(ls, ts)) == ls.map_values(|l: Seq<u8>| l.len() as int),
        starts_below(joined(ls, ts), joined(ls, ts).len() + 1int) == line_offsets(ls, ts),
    decreases ls.len(),
{
    if ls.len() == 0 {
        assert(ls.map_values(|l: Seq<u8>| l.len() as int) =~= Seq::<int>::empty());
        assert(starts_below(joined(ls, ts), 0) == Seq::<int>::empty());
        assert(starts_below(joined(ls, ts), 1) =~= seq![0int]);
    } else {
        let ls0 = ls.drop_last();
        let ts0 = ts.drop_last();
        assert forall|i: int| 0 <= i < ls0.len() implies is_plain_line(#[trigger] ls0[i]) by {
            assert(ls0[i] == ls[i]);
        }
        assert forall|i: int| 0 <= i < ls0.len() implies is_terminator(#[trigger] ts0[i]) by {
            assert(ts0[i] == ts[i]);
        }
        lemma_joined(ls0, ts0);
        let b = joined(ls0, ts0);
        let l = ls.last();
        let t = ts.last();
        assert(is_plain_line(ls[ls.len() - 1]));
        assert(is_terminator(ts[ts.len() - 1]));
        let e = l + t;
        let b2 = joined(ls, ts);
        assert(b2 =~= b + e);
        let m = b.len() as int;
        let p = b2.len() - 1;
        assert(b2[p] == NL);
        assert forall|i: int| m <= i < p implies b2[i] != NL by {
            if i < m + l.len() {
                assert(b2[i] == l[i - m]);
            } else {
                assert(b2[i] == t[i - m - l.len()]);
            }
        }
        lemma_starts_extend(b, e, m + 1);
        assert(is_line_start(b, m));
        assert(starts_below(b, m + 1).last() == m);
        lemma_no_new_starts(b2, m, p + 1);
        assert(starts_below(b2, p + 1).last() == m);
        assert(is_line_start(b2, p + 1));
        assert(starts_below(b2, p + 2) == starts_below(b2, p + 1).push(p + 1));
        lemma_lengths_extend(b, e, m);
        lemma_no_new_lengths(b2, m, p);
        assert(lengths_below(b2, p + 1) == lengths_below(b2, p).push(terminated_len(b2, p)));
        assert(terminated_len(b2, p) == l.len()) by {
            if t == seq![NL] {
                if l.len() > 0 {
                    assert(b2[p - 1] == l.last());
                }
            } else {
                assert(b2[p - 1] == CR);
            }
        }
        assert(ls.map_values(|x: Seq<u8>| x.len() as int) =~= ls0.map_values(
            |x: Seq<u8>| x.len() as int,
        ).push(l.len() as int));
    }
}

/// Bytes appended to a buffer do not move the line starts before its end.
proof fn lemma_starts_extend(b: Seq<u8>, e: Seq<u8>, n: int)
    requires
        0 <= n <= b.len() + 1,
    ensures
        starts_below(b + e, n) == starts_below(b, n),
    decreases n,
{
    if n > 0 {
        lemma_starts_extend(b, e, n - 1);
        if n - 1 > 0 {
            assert((b + e)[n - 2] == b[n - 2]);
        }
        assert(is_line_start(b + e, n - 1) == is_line_start(b, n - 1));
    }
}

/// Bytes appended to a buffer do not change the lengths of the lines it ends.
proof fn lemma_lengths_extend(b: Seq<u8>, e: Seq<u8>, n: int)
    requires
        0 <= n <= b.len(),
    ensures
        lengths_below(b + e, n) == lengths_below(b, n),
    decreases n,
{
    if n > 0 {
        lemma_lengths_extend(b, e, n - 1);
        lemma_starts_extend(b, e, n);
        assert((b + e)[n - 1] == b[n - 1]);
        if n >= 2 {
            assert((b + e)[n - 2] == b[n - 2]);
        }
        assert(terminated_len(b + e, n - 1) == terminated_len(b, n - 1));
    }
}

/// No line starts after `m` where no line feed precedes.
proof fn lemma_no_new_starts(b: Seq<u8>, m: int, q: int)
    requires
        0 <= m < q <= b.len(),
        forall|i: int| m <= i < q - 1 ==> b[i] != NL,
    ensures
        starts_below(b, q) == starts_below(b, m + 1),
    decreases q - m,
{
    if q > m + 1 {
        lemma_no_new_starts(b, m, q - 1);
        assert(b[q - 2] != NL);
        assert(!is_line_start(b, q - 1));
    }
}

/// No line ends where there is no line feed.
proof fn lemma_no_new_lengths(b: Seq<u8>, m: int, q: int)
    requires
        0 <= m <= q <= b.len(),
        forall|i: int| m <= i < q ==> b[i] != NL,
    ensures
        lengths_below(b, q) == lengths_below(b, m),
    decreases q - m,
{
    if q > m {
        lemma_no_new_lengths(b, m, q - 1);
    }
}

} // verus!
