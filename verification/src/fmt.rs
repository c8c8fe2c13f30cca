//! Plain-text rendering of diagnostics: the file position, the offending
//! line, and an underline sized to the span.

use vstd::prelude::*;
use vstd::string::StringSliceAdditionalSpecFns;

use crate::error::{Error, Warning};
use crate::lex::{not_nl_pred, run_end, lemma_run_end_bounds};
use crate::span::Span;
use crate::text::{dec_nat, push_dec_u128, push_repeat, push_str_bytes, repeated};

verus! {

/// The display width of text, a function of its characters alone.
pub uninterp spec fn unicode_width_of(b: Seq<u8>) -> usize;

/// Relies on unicode_width::UnicodeWidthStr::width: the display width of a
/// string, a function of its characters alone (the bytes are read as UTF-8).
#[verifier::external_body]
fn display_width(b: &[u8]) -> (r: usize)
    ensures
        r == unicode_width_of(b@),
{
    unicode_width::UnicodeWidthStr::width(&*String::from_utf8_lossy(b))
}

#[via_fn]
proof fn split_lines_decreases(s: Seq<u8>, i: int) {
    if 0 <= i <= s.len() {
        lemma_run_end_bounds(s, i, not_nl_pred());
    }
}

/// The line ranges of the input, split at LF, a trailing LF ending the last
/// line.
pub open spec fn split_lines(s: Seq<u8>, i: int) -> Seq<(int, int)>
    decreases s.len() - i,
    when 0 <= i <= s.len()
    via split_lines_decreases
{
    if i >= s.len() {
        Seq::empty()
    } else {
        let e = run_end(s, i, not_nl_pred());
        seq![(i, e)] + (if e < s.len() {
            split_lines(s, e + 1)
        } else {
            Seq::empty()
        })
    }
}

/// The 0-based line and column (in display columns) of a byte offset,
/// walking the lines and counting each line's width plus one for its
/// newline.
pub open spec fn spec_line_col(
    s: Seq<u8>,
    lines: Seq<(int, int)>,
    k: int,
    n: int,
    offset: int,
) -> (int, int)
    decreases lines.len() - k,
{
    if k < 0 || k >= lines.len() {
        (
            lines.len() as int,
            if lines.len() == 0 {
                0
            } else {
                unicode_width_of(s.subrange(lines.last().0, lines.last().1)) as int
            },
        )
    } else {
        let len = unicode_width_of(s.subrange(lines[k].0, lines[k].1)) + 1;
        if n + len > offset {
            (k, offset - n)
        } else {
            spec_line_col(s, lines, k + 1, n + len, offset)
        }
    }
}

pub open spec fn spec_max(a: int, b: int) -> int {
    if a >= b {
        a
    } else {
        b
    }
}

/// The rendered diagnostic: a leading blank, the `--> file:line:col` arrow
/// line, a margin, the offending line, and an underline of carets (at least
/// one) under the span, followed by the message.
pub open spec fn spec_render(s: Seq<u8>, filename: Seq<u8>, msg: Seq<u8>, span: Span) -> Seq<u8> {
    let lines = split_lines(s, 0);
    let lc = spec_line_col(s, lines, 0, 0, span.m as int);
    let line = lc.0;
    let col = lc.1;
    let width = spec_max(1, unicode_width_of(s.subrange(span.m as int, span.n as int)) as int);
    let code_range = if line < lines.len() {
        lines[line]
    } else {
        lines.last()
    };
    let code = s.subrange(code_range.0, code_range.1);
    let num = dec_nat((line + 1) as nat);
    let pad = num.len() as int;
    "\n".spec_bytes() + repeated(32, pad as nat) + " --> ".spec_bytes() + filename
        + ":".spec_bytes() + dec_nat((line + 1) as nat) + ":".spec_bytes() + dec_nat(
        (col + 1) as nat,
    ) + "\n ".spec_bytes() + repeated(32, pad as nat) + " |\n ".spec_bytes() + num
        + " | ".spec_bytes() + code + "\n ".spec_bytes() + repeated(32, pad as nat)
        + " | ".spec_bytes() + repeated(32, col as nat) + repeated(94, width as nat)
        + " ".spec_bytes() + msg + "\n".spec_bytes()
}

/// A non-empty input has at least one line.
pub proof fn lemma_lines_nonempty(s: Seq<u8>)
    requires
        s.len() > 0,
    ensures
        split_lines(s, 0).len() > 0,
{
}

/// The computed line/column stay in range: the line is at most the line
/// count and the column never exceeds the offset.
pub proof fn lemma_line_col_bounds(s: Seq<u8>, lines: Seq<(int, int)>, k: int, n: int, offset: int)
    requires
        0 <= k <= lines.len(),
        0 <= n <= offset,
    ensures
        ({
            let lc = spec_line_col(s, lines, k, n, offset);
            &&& k <= lc.0 <= lines.len()
            &&& lc.0 < lines.len() ==> 0 <= lc.1 <= offset
        }),
    decreases lines.len() - k,
{
    if k < lines.len() {
        let len = unicode_width_of(s.subrange(lines[k].0, lines[k].1)) + 1;
        if !(n + len > offset) {
            lemma_line_col_bounds(s, lines, k + 1, n + len, offset);
        }
    }
}

/// Every line range lies inside the input, in order.
pub proof fn lemma_lines_wf(s: Seq<u8>, i: int)
    requires
        0 <= i <= s.len(),
    ensures
        forall|k: int|
            0 <= k < split_lines(s, i).len() ==> {
                let p = #[trigger] split_lines(s, i)[k];
                0 <= p.0 <= p.1 <= s.len()
            },
    decreases s.len() - i,
{
    if i < s.len() {
        let e = run_end(s, i, not_nl_pred());
        lemma_run_end_bounds(s, i, not_nl_pred());
        if e < s.len() {
            lemma_lines_wf(s, e + 1);
            assert forall|k: int|
                0 <= k < split_lines(s, i).len() implies {
                let p = #[trigger] split_lines(s, i)[k];
                0 <= p.0 <= p.1 <= s.len()
            } by {
                if k > 0 {
                    assert(split_lines(s, i)[k] == split_lines(s, e + 1)[k - 1]);
                }
            }
        }
    }
}

/// Renders diagnostics for one input as plain text.
pub struct Plain<'i> {
    pub input: &'i [u8],
    pub filename: Vec<u8>,
}

impl<'i> Plain<'i> {
    /// A renderer for the input, labelled `<input>`.
    pub fn new(input: &'i str) -> (r: Plain<'i>)
        ensures
            r.input@ == input.spec_bytes(),
            r.filename@ == "<input>".spec_bytes(),
    {
        Plain {
            input: input.as_bytes(),
            filename: vstd::slice::slice_to_vec("<input>".as_bytes()),
        }
    }

    /// A renderer labelled with the given file name.
    pub fn with_filename(input: &'i str, filename: &str) -> (r: Plain<'i>)
        ensures
            r.input@ == input.spec_bytes(),
            r.filename@ == filename.spec_bytes(),
    {
        Plain { input: input.as_bytes(), filename: vstd::slice::slice_to_vec(filename.as_bytes()) }
    }

    /// Renders a message with its span.
    #[verifier::rlimit(100)]
    pub fn render(&self, msg: &[u8], span: Span) -> (r: Vec<u8>)
        requires
            self.input@.len() > 0,
            span.m <= span.n <= self.input@.len(),
        ensures
            r@ == spec_render(self.input@, self.filename@, msg@, span),
    {
        let ghost s = self.input@;
        proof {
            assert(vstd::slice::spec_slice_len(self.input) == s.len());
            lemma_lines_nonempty(s);
            lemma_lines_wf(s, 0);
        }
        let lines = compute_lines(self.input);
        let ghost lv = split_lines(s, 0);
        // Line and column of the span's start.
        let offset = span.m;
        let mut k: usize = 0;
        let mut n: u128 = 0;
        let mut line: usize = 0;
        let mut col: u128 = 0;
        let mut found = false;
        while k < lines.len() && !found
            invariant
                0 <= k <= lines.len(),
                lines@.len() == lv.len(),
                forall|t: int|
                    0 <= t < lv.len() ==> (#[trigger] lines@[t]).0 == lv[t].0 && lines@[t].1
                        == lv[t].1,
                forall|t: int| 0 <= t < lv.len() ==> 0 <= (#[trigger] lv[t]).0 <= lv[t].1 <= s.len(),
                s == self.input@,
                !found ==> n <= offset,
                !found ==> spec_line_col(s, lv, 0, 0, offset as int) == spec_line_col(
                    s,
                    lv,
                    k as int,
                    n as int,
                    offset as int,
                ),
                found ==> spec_line_col(s, lv, 0, 0, offset as int) == (line as int, col as int),
                found ==> line < lv.len(),
                col <= usize::MAX as u128,
            decreases lines@.len() - k + (if found {
                0int
            } else {
                1int
            }),
        {
            let (a, b) = lines[k];
            let w = display_width(vstd::slice::slice_subrange(self.input, a, b));
            let len: u128 = w as u128 + 1;
            if n + len > offset as u128 {
                line = k;
                col = offset as u128 - n;
                found = true;
            } else {
                n = n + len;
                k = k + 1;
            }
        }
        if !found {
            proof {
                lemma_line_col_bounds(s, lv, k as int, n as int, offset as int);
            }
            line = lines.len();
            let lastr = lines[lines.len() - 1];
            col = display_width(
                vstd::slice::slice_subrange(self.input, lastr.0, lastr.1),
            ) as u128;
        }
        // Underline width.
        let wspan = display_width(vstd::slice::slice_subrange(self.input, span.m, span.n));
        let width: usize = if wspan >= 1 {
            wspan
        } else {
            1
        };
        // The line shown.
        let code_range: (usize, usize) = if line < lines.len() {
            lines[line]
        } else {
            lines[lines.len() - 1]
        };
        let code = vstd::slice::slice_subrange(self.input, code_range.0, code_range.1);
        // The number column.
        let mut num: Vec<u8> = Vec::new();
        push_dec_u128(&mut num, line as u128 + 1);
        let pad = num.len();
        // Assemble.
        let mut out: Vec<u8> = Vec::new();
        push_str_bytes(&mut out, "\n");
        push_repeat(&mut out, 32, pad);
        push_str_bytes(&mut out, " --> ");
        out.extend_from_slice(self.filename.as_slice());
        push_str_bytes(&mut out, ":");
        push_dec_u128(&mut out, line as u128 + 1);
        push_str_bytes(&mut out, ":");
        push_dec_u128(&mut out, col + 1);
        push_str_bytes(&mut out, "\n ");
        push_repeat(&mut out, 32, pad);
        push_str_bytes(&mut out, " |\n ");
        out.extend_from_slice(num.as_slice());
        push_str_bytes(&mut out, " | ");
        out.extend_from_slice(code);
        push_str_bytes(&mut out, "\n ");
        push_repeat(&mut out, 32, pad);
        push_str_bytes(&mut out, " | ");
        proof {
            assert(col <= usize::MAX);
        }
        push_repeat(&mut out, 32, col as usize);
        push_repeat(&mut out, 94, width);
        push_str_bytes(&mut out, " ");
        out.extend_from_slice(msg);
        push_str_bytes(&mut out, "\n");
        proof {
            assert(out@ =~= spec_render(self.input@, self.filename@, msg@, span));
        }
        out
    }

    /// Renders an error.
    pub fn error(&self, e: &Error) -> (r: Vec<u8>)
        requires
            self.input@.len() > 0,
            e.span.m <= e.span.n <= self.input@.len(),
        ensures
            r@ == spec_render(self.input@, self.filename@, e@.msg, e.span),
    {
        self.render(e.msg.as_slice(), e.span)
    }

    /// Renders a warning.
    pub fn warning(&self, w: &Warning) -> (r: Vec<u8>)
        requires
            self.input@.len() > 0,
            w.span.m <= w.span.n <= self.input@.len(),
        ensures
            r@ == spec_render(self.input@, self.filename@, w@.msg, w.span),
    {
        self.render(w.msg.as_slice(), w.span)
    }
}

/// The input's line ranges.
fn compute_lines(s: &[u8]) -> (r: Vec<(usize, usize)>)
    ensures
        r@.len() == split_lines(s@, 0).len(),
        forall|k: int|
            0 <= k < r@.len() ==> (#[trigger] r@[k]).0 == split_lines(s@, 0)[k].0 && r@[k].1
                == split_lines(s@, 0)[k].1,
{
    let len = s.len();
    let mut out: Vec<(usize, usize)> = Vec::new();
    if len == 0 {
        return out;
    }
    let ghost sl = split_lines(s@, 0);
    let mut i: usize = 0;
    loop
        invariant
            0 <= i < len,
            len == s@.len(),
            sl == split_lines(s@, 0),
            ({
                let rest = split_lines(s@, i as int);
                &&& sl.len() == out@.len() + rest.len()
                &&& forall|k: int|
                    0 <= k < out@.len() ==> (#[trigger] out@[k]).0 == sl[k].0 && out@[k].1
                        == sl[k].1
                &&& forall|k: int|
                    0 <= k < rest.len() ==> #[trigger] sl[out@.len() + k] == rest[k]
            }),
        decreases len - i,
    {
        proof {
            lemma_run_end_bounds(s@, i as int, not_nl_pred());
        }
        let mut e: usize = i;
        while e < len && *vstd::slice::slice_index_get(s, e) != 10
            invariant
                i <= e <= len,
                len == s@.len(),
                run_end(s@, i as int, not_nl_pred()) == run_end(s@, e as int, not_nl_pred()),
            decreases len - e,
        {
            e = e + 1;
        }
        let ghost rest0 = split_lines(s@, i as int);
        let ghost out0 = out@;
        proof {
            assert(e as int == run_end(s@, i as int, not_nl_pred()));
            assert(rest0[0] == (i as int, e as int));
            assert(sl[out0.len() as int + 0] == rest0[0]);
        }
        out.push((i, e));
        proof {
            assert forall|k: int|
                0 <= k < out@.len() implies (#[trigger] out@[k]).0 == sl[k].0 && out@[k].1
                == sl[k].1 by {
                if k == out0.len() {
                    assert(sl[out0.len() as int + 0] == rest0[0]);
                    assert(out@[k] == (i, e));
                }
            }
        }
        if e < len && e + 1 < len {
            proof {
                let restn = split_lines(s@, e + 1);
                assert(rest0 =~= seq![(i as int, e as int)] + restn);
                assert forall|k: int| 0 <= k < restn.len() implies #[trigger] sl[out@.len() + k]
                    == restn[k] by {
                    assert(rest0[k + 1] == restn[k]);
                    assert(sl[out0.len() as int + (k + 1)] == rest0[k + 1]);
                }
            }
            i = e + 1;
        } else {
            proof {
                if e < len {
                    assert(split_lines(s@, e + 1) =~= Seq::<(int, int)>::empty());
                    assert(rest0 =~= seq![(i as int, e as int)]);
                } else {
                    assert(rest0 =~= seq![(i as int, e as int)]);
                }
                assert(sl.len() == out@.len());
            }
            return out;
        }
    }
}

} // verus!
