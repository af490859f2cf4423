//! The commands typed at the prompt: searches, and rules that hide, show or
//! highlight lines.

use vstd::prelude::*;
use vstd::string::{StrSliceExecFns, StringSliceAdditionalSpecFns};
use vstd::utf8::{encode_utf8, encode_utf8_decode_utf8};
use crate::log_file::{LogFile, SearchDirection};
use crate::log_viewer::{color_named, LogViewer};

verus! {

/// The words that a command line splits into under shell quoting rules, or
/// none where its quoting is broken.
pub uninterp spec fn shell_words(s: Seq<char>) -> Option<Seq<Seq<char>>>;

/// Relies on `shlex::split`: the words depend on the text alone, and a text
/// with unbalanced quoting or a trailing backslash gives none.
#[verifier::external_body]
fn split_words(s: &str) -> (r: Option<Vec<String>>)
    ensures
        match r {
            Some(v) => shell_words(s@) == Some(v@.map_values(|w: String| w@)),
            None => shell_words(s@) is None,
        },
{
    shlex::split(s)
}

/// A character with the Unicode `White_Space` property.
pub open spec fn is_white_space(c: char) -> bool {
    let u = c as u32;
    ||| 0x9 <= u <= 0xd
    ||| u == 0x20
    ||| u == 0x85
    ||| u == 0xa0
    ||| u == 0x1680
    ||| 0x2000 <= u <= 0x200a
    ||| u == 0x2028
    ||| u == 0x2029
    ||| u == 0x202f
    ||| u == 0x205f
    ||| u == 0x3000
}

/// `s` without its leading white space.
pub open spec fn trim_start_white(s: Seq<char>) -> Seq<char>
    decreases s.len(),
{
    if s.len() > 0 && is_white_space(s[0]) {
        trim_start_white(s.drop_first())
    } else {
        s
    }
}

/// `s` without its trailing white space.
pub open spec fn trim_end_white(s: Seq<char>) -> Seq<char>
    decreases s.len(),
{
    if s.len() > 0 && is_white_space(s.last()) {
        trim_end_white(s.drop_last())
    } else {
        s
    }
}

/// A text without its leading and trailing white space.
pub open spec fn trimmed(s: Seq<char>) -> Seq<char> {
    trim_end_white(trim_start_white(s))
}

/// Relies on `str::trim`: it drops leading and trailing characters with the
/// Unicode `White_Space` property.
#[verifier::external_body]
fn trim_text(s: &str) -> (r: &str)
    ensures
        r@ == trimmed(s@),
{
    s.trim()
}

/// Whether two texts are equal.
pub fn same_text(a: &str, b: &str) -> (r: bool)
    ensures
        r == (a@ == b@),
{
    let x = a.as_bytes();
    let y = b.as_bytes();
    proof {
        encode_utf8_decode_utf8(a@);
        encode_utf8_decode_utf8(b@);
    }
    if x.len() != y.len() {
        return false;
    }
    let mut i: usize = 0;
    while i < x.len()
        invariant
            x@ == a.spec_bytes(),
            y@ == b.spec_bytes(),
            x@.len() == y@.len(),
            i <= x@.len(),
            forall|t: int| 0 <= t < i ==> x@[t] == y@[t],
        decreases x@.len() - i,
    {
        if x[i] != y[i] {
            return false;
        }
        i += 1;
    }
    assert(x@ =~= y@);
    true
}

/// The command `w` is `a` or `b` and comes with at least one argument.
pub open spec fn is_command(w: Seq<Seq<char>>, a: Seq<char>, b: Seq<char>) -> bool {
    w.len() >= 2 && (w[0] == a || w[0] == b)
}

/// `w` sets the search colour.
pub open spec fn sets_search_color(w: Seq<Seq<char>>) -> bool {
    w.len() >= 3 && w[0] == "set"@ && w[1] == "search_color"@
}

/// What running the command words `w` does to a log file and a viewer.
pub open spec fn command_effect(
    w: Seq<Seq<char>>,
    lf0: LogFile,
    lv0: LogViewer,
    lf1: LogFile,
    lv1: LogViewer,
) -> bool {
    if is_command(w, "hl"@, "highlight"@) {
        &&& lf1 == lf0
        &&& (lv1.rules(), lv1.palette()) == lv0.after_highlight(
            w[1],
            if w.len() > 2 {
                Some(w[2])
            } else {
                None
            },
        )
        &&& lv1.search_color_spec() == lv0.search_color_spec()
        &&& lv1.pattern() == lv0.pattern()
        &&& lv1.cursor() == lv0.cursor()
    } else if is_command(w, "hd"@, "hide"@) {
        &&& lv1 == lv0
        &&& lf1.wf()
        &&& lf1.bytes() == lf0.bytes()
        &&& lf1.saved_visibility() is None
        &&& lf1.visibility() == lf0.hidden_matching(encode_utf8(w[1]))
    } else if is_command(w, "sh"@, "show"@) {
        &&& lv1 == lv0
        &&& lf1.wf()
        &&& lf1.bytes() == lf0.bytes()
        &&& lf1.saved_visibility() is None
        &&& lf1.visibility() == lf0.shown_matching(encode_utf8(w[1]))
    } else if sets_search_color(w) {
        &&& lf1 == lf0
        &&& lv1.search_color_spec() == match color_named(w[2]) {
            Some(c) => c,
            None => lv0.search_color_spec(),
        }
        &&& lv1.rules() == lv0.rules()
        &&& lv1.palette() == lv0.palette()
        &&& lv1.pattern() == lv0.pattern()
        &&& lv1.cursor() == lv0.cursor()
    } else {
        lf1 == lf0 && lv1 == lv0
    }
}

/// What a search for `pattern` does: an empty pattern stands for the last one,
/// searched from the line after the current one; a new pattern is searched
/// from the current line and remembered.
pub open spec fn search_effect(
    pattern: Seq<char>,
    line_num: int,
    direction: SearchDirection,
    lf: LogFile,
    lv0: LogViewer,
    lv1: LogViewer,
    r: Option<usize>,
) -> bool {
    &&& lv1.rules() == lv0.rules()
    &&& lv1.palette() == lv0.palette()
    &&& lv1.search_color_spec() == lv0.search_color_spec()
    &&& lv1.cursor() == lv0.cursor()
    &&& if pattern.len() == 0 {
        match lv0.pattern() {
            Some(p) => lv1.pattern() == Some(p) && lf.search_result(
                encode_utf8(p),
                line_num,
                false,
                direction,
                r,
            ),
            None => r is None && lv1.pattern() == lv0.pattern(),
        }
    } else {
        lv1.pattern() == Some(pattern) && lf.search_result(
            encode_utf8(pattern),
            line_num,
            true,
            direction,
            r,
        )
    }
}

/// Run the command words `parts`: `hl`/`highlight PATTERN [COLOR]`,
/// `hd`/`hide PATTERN`, `sh`/`show PATTERN`, `set search_color COLOR`; any
/// other words, or a command without its arguments, do nothing.
pub fn run_command(parts: &Vec<String>, lf: &mut LogFile, lv: &mut LogViewer)
    requires
        old(lf).wf(),
    ensures
        final(lf).wf(),
        command_effect(parts@.map_values(|w: String| w@), *old(lf), *old(lv), *final(lf), *final(lv)),
{
    let ghost w = parts@.map_values(|s: String| s@);
    if parts.len() < 2 {
        return;
    }
    assert(w[0] == parts@[0]@ && w[1] == parts@[1]@);
    let command = parts[0].as_str();
    let arg = parts[1].as_str();
    if same_text(command, "hl") || same_text(command, "highlight") {
        let color = if parts.len() > 2 {
            assert(w[2] == parts@[2]@);
            Some(parts[2].clone())
        } else {
            None
        };
        let _ = lv.set_highlight(parts[1].clone(), color);
    } else if same_text(command, "hd") || same_text(command, "hide") {
        lf.hide_lines_containing(arg);
    } else if same_text(command, "sh") || same_text(command, "show") {
        lf.show_lines_containing(arg);
    } else if parts.len() > 2 && same_text(command, "set") && same_text(arg, "search_color") {
        assert(w[2] == parts@[2]@);
        lv.set_search_color(parts[2].as_str());
    }
}

/// Search for `pattern` from line `line_num` (see `search_effect`).
pub fn search(
    pattern: &str,
    line_num: usize,
    lf: &LogFile,
    lv: &mut LogViewer,
    direction: SearchDirection,
) -> (r: Option<usize>)
    requires
        lf.wf(),
    ensures
        search_effect(pattern@, line_num as int, direction, *lf, *old(lv), *final(lv), r),
{
    if pattern.is_empty() {
        match lv.search_pattern() {
            Some(p) => {
                let p = p.clone();
                let r = lf.search(p.as_str(), line_num, false, direction);
                lv.set_search_pattern(p);
                r
            },
            None => None,
        }
    } else {
        lv.set_search_pattern(pattern.to_owned());
        lf.search(pattern, line_num, true, direction)
    }
}

/// Why a command line could not be run.
#[derive(Debug, PartialEq, Eq, Structural)]
pub enum CommandError {
    /// Its quoting is broken.
    ParseFailed,
}

/// What running the command line `input` from line `line_num` does to a log
/// file and a viewer, and what it returns.
pub open spec fn command_line_effect(
    input: Seq<char>,
    line_num: int,
    lf0: LogFile,
    lv0: LogViewer,
    lf1: LogFile,
    lv1: LogViewer,
    r: Result<Option<usize>, CommandError>,
) -> bool {
    let t = trimmed(input);
    if t.len() == 0 {
        r == Ok::<Option<usize>, CommandError>(None) && lf1 == lf0 && lv1 == lv0
    } else if t[0] == '/' || t[0] == '?' {
        let dir = if t[0] == '/' {
            SearchDirection::Forward
        } else {
            SearchDirection::Backward
        };
        lf1 == lf0 && match shell_words(t.subrange(1, t.len() as int)) {
            None => r == Err::<Option<usize>, CommandError>(CommandError::ParseFailed) && lv1
                == lv0,
            Some(w) => r matches Ok(found) && search_effect(
                if w.len() > 0 {
                    w[0]
                } else {
                    Seq::empty()
                },
                line_num,
                dir,
                lf0,
                lv0,
                lv1,
                found,
            ),
        }
    } else {
        match shell_words(t) {
            None => r == Err::<Option<usize>, CommandError>(CommandError::ParseFailed) && lf1
                == lf0 && lv1 == lv0,
            Some(w) => r == Ok::<Option<usize>, CommandError>(None) && command_effect(
                w,
                lf0,
                lv0,
                lf1,
                lv1,
            ),
        }
    }
}

/// Run a command line typed at the prompt. `/PATTERN` searches forward and
/// `?PATTERN` backward from line `line_num`, returning the line found; any
/// other line is split into command words and run. A blank line does nothing.
pub fn handle_command(input: &str, line_num: usize, lf: &mut LogFile, lv: &mut LogViewer) -> (r: Result<Option<usize>, CommandError>)
    requires
        old(lf).wf(),
    ensures
        final(lf).wf(),
        command_line_effect(input@, line_num as int, *old(lf), *old(lv), *final(lf), *final(lv), r),
{
    let t = trim_text(input);
    if t.is_empty() {
        return Ok(None);
    }
    let first = t.get_char(0);
    if first == '/' || first == '?' {
        let direction = if first == '/' {
            SearchDirection::Forward
        } else {
            SearchDirection::Backward
        };
        let rest = t.substring_char(1, t.unicode_len());
        match split_words(rest) {
            None => Err(CommandError::ParseFailed),
            Some(parts) => {
                let ghost w = parts@.map_values(|s: String| s@);
                let found = if parts.len() > 0 {
                    assert(w[0] == parts@[0]@);
                    search(parts[0].as_str(), line_num, lf, lv, direction)
                } else {
                    proof {
                        reveal_strlit("");
                    }
                    assert(""@ =~= Seq::<char>::empty());
                    search("", line_num, lf, lv, direction)
                };
                Ok(found)
            },
        }
    } else {
        match split_words(t) {
            None => Err(CommandError::ParseFailed),
            Some(parts) => {
                run_command(&parts, lf, lv);
                Ok(None)
            },
        }
    }
}

} // verus!
