//! Parse an integer literal.

use vstd::prelude::*;
use vstd::string::StringSliceAdditionalSpecFns;

use crate::error::{DiagView, Error};
use crate::span::Span;
use crate::text::{dec_nat, push_dec_u64, push_str_bytes};

verus! {

/// Whether the literal is negated by a leading minus token.
#[derive(Debug, Clone, Copy, PartialEq, Eq, Structural)]
pub enum Sign {
    Negative,
    Positive,
}

/// Number of prefix bytes to skip and the radix: `0b` is base 2, `0o` base 8,
/// `0x` base 16, anything else base 10.
pub open spec fn radix_skip(d: Seq<u8>) -> int {
    if d.len() >= 2 && d[0] == 48 && (d[1] == 98 || d[1] == 111 || d[1] == 120) {
        2
    } else {
        0
    }
}

pub open spec fn radix_of(d: Seq<u8>) -> int {
    if d.len() >= 2 && d[0] == 48 && d[1] == 98 {
        2
    } else if d.len() >= 2 && d[0] == 48 && d[1] == 111 {
        8
    } else if d.len() >= 2 && d[0] == 48 && d[1] == 120 {
        16
    } else {
        10
    }
}

/// The value of an ASCII digit or letter as a digit, or -1.
pub open spec fn digit_val(b: u8) -> int {
    if 48 <= b <= 57 {
        b - 48
    } else if 97 <= b <= 122 {
        b - 97 + 10
    } else if 65 <= b <= 90 {
        b - 65 + 10
    } else {
        -1
    }
}

/// How folding the digits ends: the value, an invalid digit at index `j` of
/// the digit run, or an overflow of the 64-bit range.
pub enum IntOut {
    Val(int),
    BadDigit(int),
    Overflow,
}

/// Folds the digits of `sub` (underscores skipped) into a value, multiplying
/// by the radix and adding (or, for a negative literal, subtracting) each
/// digit with 64-bit range checks at every step.
pub open spec fn int_fold(sub: Seq<u8>, radix: int, neg: bool, j: int, acc: int) -> IntOut
    decreases sub.len() - j,
{
    if j < 0 || j >= sub.len() {
        IntOut::Val(acc)
    } else if sub[j] == 95 {
        int_fold(sub, radix, neg, j + 1, acc)
    } else {
        let dv = digit_val(sub[j]);
        if !(0 <= dv < radix) {
            IntOut::BadDigit(j)
        } else {
            let mul = acc * radix;
            if !(i64::MIN <= mul <= i64::MAX) {
                IntOut::Overflow
            } else {
                let next = if neg {
                    mul - dv
                } else {
                    mul + dv
                };
                if !(i64::MIN <= next <= i64::MAX) {
                    IntOut::Overflow
                } else {
                    int_fold(sub, radix, neg, j + 1, next)
                }
            }
        }
    }
}

pub open spec fn msg_invalid_digit(radix: int) -> Seq<u8> {
    "invalid digit for base ".spec_bytes() + dec_nat(radix as nat) + " literal".spec_bytes()
}

pub open spec fn msg_out_of_range(radix: int) -> Seq<u8> {
    "base ".spec_bytes() + dec_nat(radix as nat)
        + " literal out of range for 64-bit integer".spec_bytes()
}

/// The value of the literal held in `span` of `s`, or the diagnostic exactly
/// as the fold gives it: an invalid digit points at the offending byte, an
/// overflow underlines the whole literal.
pub open spec fn spec_integer(s: Seq<u8>, span: Span, sign: Sign) -> Result<i64, DiagView> {
    let d = s.subrange(span.m as int, span.n as int);
    let skip = radix_skip(d);
    let radix = radix_of(d);
    let neg = sign == Sign::Negative;
    match int_fold(d.skip(skip), radix, neg, 0, 0) {
        IntOut::Val(v) => Result::Ok(v as i64),
        IntOut::BadDigit(j) => Result::Err(
            DiagView {
                msg: msg_invalid_digit(radix),
                span: Span {
                    m: (span.m + skip + j) as usize,
                    n: (span.m + skip + j + 1) as usize,
                },
            },
        ),
        IntOut::Overflow => Result::Err(DiagView { msg: msg_out_of_range(radix), span }),
    }
}

fn digit_val_x(b: u8) -> (r: i32)
    ensures
        r == digit_val(b),
{
    if 48 <= b && b <= 57 {
        (b - 48) as i32
    } else if 97 <= b && b <= 122 {
        (b - 97) as i32 + 10
    } else if 65 <= b && b <= 90 {
        (b - 65) as i32 + 10
    } else {
        -1
    }
}

fn invalid_digit_error(radix: u8, at: usize) -> (r: Error)
    requires
        at < usize::MAX,
    ensures
        r@ == (DiagView {
            msg: msg_invalid_digit(radix as int),
            span: Span { m: at, n: (at + 1) as usize },
        }),
{
    let mut msg: Vec<u8> = Vec::new();
    push_str_bytes(&mut msg, "invalid digit for base ");
    push_dec_u64(&mut msg, radix as u64);
    push_str_bytes(&mut msg, " literal");
    Error::from_bytes(msg, Span { m: at, n: at + 1 })
}

fn out_of_range_error(radix: u8, span: Span) -> (r: Error)
    ensures
        r@ == (DiagView { msg: msg_out_of_range(radix as int), span }),
{
    let mut msg: Vec<u8> = Vec::new();
    push_str_bytes(&mut msg, "base ");
    push_dec_u64(&mut msg, radix as u64);
    push_str_bytes(&mut msg, " literal out of range for 64-bit integer");
    Error::from_bytes(msg, span)
}

/// Parses the integer literal held in `span` of `input`, applying `sign`.
pub fn parse(input: &[u8], span: Span, sign: Sign) -> (r: Result<i64, Error>)
    requires
        span.wf(input@.len()),
    ensures
        ({
            let sp = spec_integer(input@, span, sign);
            &&& (r matches Ok(v) ==> sp == Result::<i64, DiagView>::Ok(v))
            &&& (r matches Err(e) ==> sp == Result::<i64, DiagView>::Err(e@))
        }),
{
    let d = vstd::slice::slice_subrange(input, span.m, span.n);
    let dlen = d.len();
    let ghost dv = input@.subrange(span.m as int, span.n as int);
    let (skip, radix): (usize, u8) = if dlen >= 2 && *vstd::slice::slice_index_get(d, 0) == 48
        && *vstd::slice::slice_index_get(d, 1) == 98 {
        (2, 2)
    } else if dlen >= 2 && *vstd::slice::slice_index_get(d, 0) == 48 && *vstd::slice::slice_index_get(
        d,
        1,
    ) == 111 {
        (2, 8)
    } else if dlen >= 2 && *vstd::slice::slice_index_get(d, 0) == 48 && *vstd::slice::slice_index_get(
        d,
        1,
    ) == 120 {
        (2, 16)
    } else {
        (0, 10)
    };
    proof {
        assert(skip == radix_skip(dv));
        assert(radix == radix_of(dv));
    }
    let neg = match sign {
        Sign::Negative => true,
        Sign::Positive => false,
    };
    let ghost sub = dv.skip(skip as int);
    let mut acc: i64 = 0;
    let mut j: usize = skip;
    while j < dlen
        invariant
            skip <= j <= dlen,
            dlen == dv.len(),
            d@ == dv,
            span.wf(input@.len()),
            dv == input@.subrange(span.m as int, span.n as int),
            sub == dv.skip(skip as int),
            skip == radix_skip(dv),
            radix == radix_of(dv),
            neg == (sign == Sign::Negative),
            int_fold(sub, radix as int, neg, 0, 0) == int_fold(
                sub,
                radix as int,
                neg,
                j - skip,
                acc as int,
            ),
        decreases dlen - j,
    {
        let b = *vstd::slice::slice_index_get(d, j);
        proof {
            assert(sub[j - skip] == dv[j as int]);
        }
        if b != 95 {
            let x = digit_val_x(b);
            if !(0 <= x && (x as u8) < radix && x < 16) {
                proof {
                    assert(!(0 <= digit_val(sub[j - skip]) < radix as int));
                }
                return Err(invalid_digit_error(radix, span.m + j));
            }
            let mul = match acc.checked_mul(radix as i64) {
                Some(m) => m,
                None => {
                    return Err(out_of_range_error(radix, span));
                },
            };
            let next = if neg {
                match mul.checked_sub(x as i64) {
                    Some(v) => v,
                    None => {
                        return Err(out_of_range_error(radix, span));
                    },
                }
            } else {
                match mul.checked_add(x as i64) {
                    Some(v) => v,
                    None => {
                        return Err(out_of_range_error(radix, span));
                    },
                }
            };
            acc = next;
        }
        j = j + 1;
    }
    Ok(acc)
}

} // verus!
