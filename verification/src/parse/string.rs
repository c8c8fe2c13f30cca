//! Parse an escaped string literal.

use vstd::prelude::*;
use vstd::string::StringSliceAdditionalSpecFns;

use crate::ast::{Str, StrV};
use crate::error::{DiagView, Error};
use crate::lex::{string_end, utf8_len, StrScan};
use crate::span::Span;

verus! {

/// True when `raw` holds a backslash.
pub open spec fn has_backslash(raw: Seq<u8>) -> bool {
    exists|i: int| 0 <= i < raw.len() && raw[i] == 92
}

/// The escape an escape character stands for, or -1 for an unknown escape.
pub open spec fn escape_val(b: u8) -> int {
    if b == 110 {
        10
    } else if b == 114 {
        13
    } else if b == 116 {
        9
    } else if b == 92 {
        92
    } else if b == 34 {
        34
    } else {
        -1
    }
}

/// Walks the bytes of the literal from absolute index `i` to `n`, skipping
/// quotes, resolving `\n \r \t \\ \"` escapes, and failing on any other
/// escape, whose span covers the escaped character.
pub open spec fn unescape(s: Seq<u8>, i: int, n: int, acc: Seq<u8>) -> Result<Seq<u8>, DiagView>
    decreases n - i,
{
    if i < 0 || i >= n {
        Result::Ok(acc)
    } else if s[i] == 34 {
        unescape(s, i + 1, n, acc)
    } else if s[i] == 92 {
        if i + 1 >= n {
            Result::Ok(acc)
        } else {
            let e = s[i + 1];
            let ev = escape_val(e);
            if ev >= 0 {
                unescape(s, i + 2, n, acc.push(ev as u8))
            } else {
                let j = if i + 1 + utf8_len(e) <= n {
                    i + 1 + utf8_len(e)
                } else {
                    n
                };
                Result::Err(
                    DiagView {
                        msg: "unknown escape character".spec_bytes(),
                        span: Span { m: (i + 1) as usize, n: j as usize },
                    },
                )
            }
        }
    } else {
        unescape(s, i + 1, n, acc.push(s[i]))
    }
}

/// What parsing the string literal held in `[m, n)` yields: a borrowed slice
/// excluding the quotes when no backslash occurs, an owned escape-processed
/// buffer otherwise.
pub open spec fn spec_string(s: Seq<u8>, span: Span) -> Result<StrV, DiagView> {
    let raw = s.subrange(span.m as int, span.n as int);
    if !has_backslash(raw) {
        Result::Ok(StrV::Borrowed(s.subrange(span.m + 1, span.n - 1)))
    } else {
        match unescape(s, span.m as int, span.n as int, Seq::empty()) {
            Result::Ok(bytes) => Result::Ok(StrV::Owned(bytes)),
            Result::Err(e) => Result::Err(e),
        }
    }
}

/// The span is a string token as the lexer produces it: it starts with a
/// quote and the scan from just inside closes exactly at its end.
pub open spec fn is_string_token(s: Seq<u8>, span: Span) -> bool {
    &&& span.m + 2 <= span.n <= s.len()
    &&& s[span.m as int] == 34
    &&& string_end(s, span.m + 1, 34) == (StrScan { kind: 0, at: span.n as int })
}

/// A closed string scan ends just after a quote.
pub proof fn lemma_string_closed_quote(s: Seq<u8>, pos: int, prev: u8)
    requires
        0 <= pos <= s.len(),
        string_end(s, pos, prev).kind == 0,
    ensures
        s[string_end(s, pos, prev).at - 1] == 34,
    decreases s.len() - pos,
{
    if pos < s.len() && !(s[pos] == 10) && !(s[pos] == 34 && prev != 92) {
        lemma_string_closed_quote(s, pos + 1, s[pos]);
    }
}

/// Parses the string literal held in `span` of `input`.
pub fn parse<'i>(input: &'i [u8], span: Span) -> (r: Result<Str<'i>, Error>)
    requires
        is_string_token(input@, span),
    ensures
        ({
            let sp = spec_string(input@, span);
            &&& (r matches Ok(v) ==> sp == Result::<StrV, DiagView>::Ok(v@))
            &&& (r matches Err(e) ==> sp == Result::<StrV, DiagView>::Err(e@))
        }),
{
    let m = span.m;
    let n = span.n;
    let ghost raw = input@.subrange(m as int, n as int);
    // First scan for a backslash.
    let mut k: usize = m;
    let mut found = false;
    while k < n && !found
        invariant
            m == span.m,
            n == span.n,
            m <= k <= n <= input@.len(),
            raw == input@.subrange(m as int, n as int),
            found ==> (k < n && input@[k as int] == 92),
            !found ==> forall|t: int| m <= t < k ==> input@[t] != 92,
        decreases n - k + (if found { 0int } else { 1int }),
    {
        if *vstd::slice::slice_index_get(input, k) == 92 {
            found = true;
        } else {
            k = k + 1;
        }
    }
    if !found {
        proof {
            assert forall|i: int| 0 <= i < raw.len() implies raw[i] != 92 by {
                assert(raw[i] == input@[m + i]);
            }
            assert(!has_backslash(raw));
        }
        let out = vstd::slice::slice_subrange(input, m + 1, n - 1);
        return Ok(Str::Borrowed(out));
    }
    proof {
        assert(raw[k - m] == 92);
        assert(has_backslash(raw));
        lemma_string_closed_quote(input@, m + 1, 34);
        assert(input@[n - 1] == 34);
    }
    // Escape processing.
    let mut value: Vec<u8> = Vec::new();
    let mut i: usize = m;
    while i < n
        invariant
            m == span.m,
            n == span.n,
            m <= i <= n <= input@.len(),
            input@[n - 1] == 34,
            has_backslash(input@.subrange(m as int, n as int)),
            unescape(input@, m as int, n as int, Seq::empty()) == unescape(
                input@,
                i as int,
                n as int,
                value@,
            ),
        decreases n - i,
    {
        let b = *vstd::slice::slice_index_get(input, i);
        if b == 34 {
            i = i + 1;
        } else if b == 92 {
            proof {
                assert(i != n - 1);
            }
            let e = *vstd::slice::slice_index_get(input, i + 1);
            if e == 110 {
                value.push(10);
                i = i + 2;
            } else if e == 114 {
                value.push(13);
                i = i + 2;
            } else if e == 116 {
                value.push(9);
                i = i + 2;
            } else if e == 92 {
                value.push(92);
                i = i + 2;
            } else if e == 34 {
                value.push(34);
                i = i + 2;
            } else {
                let l: usize = if e < 0x80 {
                    1
                } else if e < 0xe0 {
                    2
                } else if e < 0xf0 {
                    3
                } else {
                    4
                };
                let j: usize = if n - (i + 1) >= l {
                    i + 1 + l
                } else {
                    n
                };
                proof {
                    assert(input@[i as int] == 92);
                    assert(i + 1 < n);
                    assert(escape_val(input@[i + 1]) == -1);
                    assert(l == utf8_len(input@[i + 1]));
                    assert(unescape(input@, i as int, n as int, value@)
                        == Result::<Seq<u8>, DiagView>::Err(
                        DiagView {
                            msg: "unknown escape character".spec_bytes(),
                            span: Span { m: (i + 1) as usize, n: j },
                        },
                    ));
                    assert(m == span.m && n == span.n);
                    assert(unescape(input@, span.m as int, span.n as int, Seq::empty())
                        == unescape(input@, i as int, n as int, value@));
                    assert(spec_string(input@, span) == Result::<StrV, DiagView>::Err(
                        DiagView {
                            msg: "unknown escape character".spec_bytes(),
                            span: Span { m: (i + 1) as usize, n: j },
                        },
                    ));
                }
                return Err(Error::new("unknown escape character", Span { m: i + 1, n: j }));
            }
        } else {
            value.push(b);
            i = i + 1;
        }
    }
    Ok(Str::Owned(value))
}


/// String literal borrowing: a literal that holds no backslash parses to a
/// borrowed slice of the input excluding the quotes; one that holds any
/// backslash parses (when its escapes are valid) to an owned,
/// escape-processed buffer.
pub proof fn lemma_string_borrowing(s: Seq<u8>, span: Span)
    ensures
        ({
            let raw = s.subrange(span.m as int, span.n as int);
            &&& (!has_backslash(raw) ==> spec_string(s, span) == Result::<StrV, DiagView>::Ok(
                StrV::Borrowed(s.subrange(span.m + 1, span.n - 1)),
            ))
            &&& (has_backslash(raw) && spec_string(s, span) is Ok ==> spec_string(s, span)->Ok_0
                is Owned)
        }),
{
}

} // verus!
