//! Byte-level substring matching and UTF-8 decoding.

use vstd::prelude::*;
use vstd::utf8::*;

verus! {

/// `p` occurs in `h` starting at byte `i`.
pub open spec fn matches_at(h: Seq<u8>, p: Seq<u8>, i: int) -> bool {
    0 <= i && i + p.len() <= h.len() && h.subrange(i, i + p.len()) == p
}

/// `p` occurs somewhere in `h`.
pub open spec fn contains_seq(h: Seq<u8>, p: Seq<u8>) -> bool {
    exists|i: int| matches_at(h, p, i)
}

/// The greedy left-to-right, non-overlapping occurrences of a non-empty `p`
/// in `h` at or after byte `from`, as half-open byte ranges. Each search resumes
/// right after the previous occurrence. An empty pattern has no occurrences.
pub open spec fn occurrences(h: Seq<u8>, p: Seq<u8>, from: int) -> Seq<(int, int)>
    decreases h.len() - from,
{
    if p.len() == 0 || from < 0 || from + p.len() > h.len() {
        seq![]
    } else if matches_at(h, p, from) {
        seq![(from, from + p.len())] + occurrences(h, p, from + p.len())
    } else {
        occurrences(h, p, from + 1)
    }
}

/// Skipping a stretch without a match does not change the occurrences found.
pub proof fn lemma_occurrences_skip(h: Seq<u8>, p: Seq<u8>, from: int, to: int)
    requires
        0 <= from <= to,
        p.len() > 0,
        forall|j: int| from <= j < to ==> !matches_at(h, p, j),
    ensures
        occurrences(h, p, from) == occurrences(h, p, to),
    decreases to - from,
{
    if from < to {
        if from + p.len() > h.len() {
            lemma_no_occurrences_past_end(h, p, to);
        } else {
            lemma_occurrences_skip(h, p, from + 1, to);
        }
    }
}

/// Without a match at or after `from` there are no occurrences there.
pub proof fn lemma_occurrences_none(h: Seq<u8>, p: Seq<u8>, from: int)
    requires
        0 <= from,
        forall|j: int| from <= j ==> !matches_at(h, p, j),
    ensures
        occurrences(h, p, from) == Seq::<(int, int)>::empty(),
{
    if p.len() > 0 {
        let to = if from + p.len() > h.len() {
            from
        } else {
            h.len() - p.len() + 1
        };
        lemma_occurrences_skip(h, p, from, to);
        lemma_no_occurrences_past_end(h, p, to);
    }
}

/// At a match, the occurrences begin with it and resume right after it.
pub proof fn lemma_occurrences_at(h: Seq<u8>, p: Seq<u8>, i: int)
    requires
        p.len() > 0,
        matches_at(h, p, i),
    ensures
        occurrences(h, p, i) == seq![(i, i + p.len())] + occurrences(h, p, i + p.len()),
{
}

proof fn lemma_no_occurrences_past_end(h: Seq<u8>, p: Seq<u8>, from: int)
    requires
        from + p.len() > h.len(),
    ensures
        occurrences(h, p, from) == Seq::<(int, int)>::empty(),
{
}

/// The first byte at or after `from` where `p` occurs in `h`.
pub fn find_from(h: &[u8], p: &[u8], from: usize) -> (r: Option<usize>)
    ensures
        match r {
            Some(i) => from <= i && matches_at(h@, p@, i as int) && forall|j: int|
                from <= j < i ==> !matches_at(h@, p@, j),
            None => forall|j: int| from <= j ==> !matches_at(h@, p@, j),
        },
{
    let hl = h.len();
    let pl = p.len();
    if pl > hl {
        return None;
    }
    let last = hl - pl;
    let mut i = from;
    while i <= last
        invariant
            hl == h@.len(),
            pl == p@.len(),
            last == hl - pl,
            from <= i,
            forall|j: int| from <= j < i ==> !matches_at(h@, p@, j),
        decreases last + 1 - i,
    {
        let mut k: usize = 0;
        let mut same = true;
        while k < pl
            invariant
                hl == h@.len(),
                pl == p@.len(),
                i <= last,
                last == hl - pl,
                k <= pl,
                same == (forall|t: int| 0 <= t < k ==> h@[i + t] == p@[t]),
            decreases pl - k,
        {
            if h[i + k] != p[k] {
                same = false;
            }
            k += 1;
        }
        if same {
            assert(h@.subrange(i as int, i + pl) =~= p@);
            return Some(i);
        }
        assert(!matches_at(h@, p@, i as int)) by {
            let t = choose|t: int| 0 <= t < pl && h@[i + t] != p@[t];
            assert(h@.subrange(i as int, i + pl)[t] == h@[i + t]);
        }
        i += 1;
    }
    None
}

/// Byte ranges read as ranges of mathematical integers.
pub open spec fn span_ints(v: Seq<(usize, usize)>) -> Seq<(int, int)> {
    v.map_values(|sp: (usize, usize)| (sp.0 as int, sp.1 as int))
}

/// The greedy non-overlapping occurrences of `p` in `h`.
pub fn collect_occurrences(h: &[u8], p: &[u8]) -> (r: Vec<(usize, usize)>)
    ensures
        span_ints(r@) == occurrences(h@, p@, 0),
{
    let mut r: Vec<(usize, usize)> = Vec::new();
    if p.len() == 0 {
        assert(span_ints(r@) =~= occurrences(h@, p@, 0));
        return r;
    }
    let hl = h.len();
    let pl = p.len();
    let mut pos: usize = 0;
    let mut done = false;
    assert(span_ints(r@) + occurrences(h@, p@, 0) =~= occurrences(h@, p@, 0));
    while !done
        invariant
            p@.len() > 0,
            hl == h@.len(),
            pl == p@.len(),
            pos <= h@.len(),
            span_ints(r@) + occurrences(h@, p@, pos as int) == occurrences(h@, p@, 0),
            done ==> occurrences(h@, p@, pos as int) == Seq::<(int, int)>::empty(),
        decreases h@.len() - pos, if done {
            0int
        } else {
            1int
        },
    {
        match find_from(h, p, pos) {
            Some(i) => {
                let end = i + pl;
                proof {
                    lemma_occurrences_skip(h@, p@, pos as int, i as int);
                    lemma_occurrences_at(h@, p@, i as int);
                }
                let ghost before = r@;
                r.push((i, end));
                assert(span_ints(r@) =~= span_ints(before).push((i as int, end as int)));
                assert(span_ints(r@) + occurrences(h@, p@, end as int) =~= span_ints(before)
                    + occurrences(h@, p@, pos as int));
                pos = end;
            },
            None => {
                proof {
                    lemma_occurrences_none(h@, p@, pos as int);
                }
                done = true;
            },
        }
    }
    assert(span_ints(r@) =~= span_ints(r@) + occurrences(h@, p@, pos as int));
    r
}

/// Whether `p` occurs in `h`.
pub fn contains_bytes(h: &[u8], p: &[u8]) -> (r: bool)
    ensures
        r == contains_seq(h@, p@),
{
    match find_from(h, p, 0) {
        Some(_) => true,
        None => {
            assert forall|i: int| !matches_at(h@, p@, i) by {
                if i < 0 {
                }
            }
            false
        },
    }
}

/// Relies on `std::str::from_utf8`: it succeeds exactly on well-formed UTF-8,
/// and the string it returns holds the characters that the bytes encode.
#[verifier::external_body]
pub fn decode_utf8_bytes(b: &[u8]) -> (r: Option<&str>)
    ensures
        r.is_some() == valid_utf8(b@),
        r matches Some(s) ==> s@ == decode_utf8(b@),
{
    std::str::from_utf8(b).ok()
}

} // verus!
