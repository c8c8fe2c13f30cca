//! Byte spans into the original input.

use vstd::prelude::*;

verus! {

/// A half-open byte range `[m, n)` over the original input.
#[derive(Debug, Clone, Copy, PartialEq, Eq, Structural)]
pub struct Span {
    /// The start index.
    pub m: usize,
    /// The end index.
    pub n: usize,
}

impl Span {
    /// Builds the span `[m, n)`.
    pub fn new(m: usize, n: usize) -> (r: Span)
        ensures
            r == (Span { m, n }),
    {
        Span { m, n }
    }

    /// Extends this span up to the end of `other`.
    pub fn to(self, other: Span) -> (r: Span)
        ensures
            r == (Span { m: self.m, n: other.n }),
    {
        Span { m: self.m, n: other.n }
    }

    /// True when the span lies inside an input of length `len` and is ordered.
    pub open spec fn wf(self, len: nat) -> bool {
        self.m <= self.n <= len
    }
}

/// A spanned value.
#[derive(Debug, Clone, Copy, PartialEq, Eq)]
pub struct S<T>(pub T, pub Span);

/// The mathematical image of a spanned value.
pub struct SV<V> {
    pub val: V,
    pub span: Span,
}

impl<T: View> View for S<T> {
    type V = SV<<T as View>::V>;

    open spec fn view(&self) -> SV<<T as View>::V> {
        SV { val: self.0.view(), span: self.1 }
    }
}

/// Builds a spanned value.
pub fn s<T>(t: T, span: Span) -> (r: S<T>)
    ensures
        r == S(t, span),
{
    S(t, span)
}

} // verus!
