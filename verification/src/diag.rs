//! Diagnostics shared by every pipeline stage.

use std::ops::Range;
use vstd::prelude::*;

verus! {

/// One fail-closed frontend rejection: a stable code, a human message, a byte span.
#[derive(Debug)]
pub struct FrontendDiag {
    pub code: &'static str,
    pub message: String,
    pub span: Range<usize>,
}

impl FrontendDiag {
    pub fn new(code: &'static str, message: &str, span: Range<usize>) -> (d: FrontendDiag)
        ensures
            d.code == code,
            d.message@ == message@,
            d.span == span,
    {
        FrontendDiag { code, message: message.to_owned(), span }
    }
}

pub fn span_of(start: usize, end: usize) -> (r: Range<usize>)
    ensures r.start == start, r.end == end,
{
    start..end
}

pub fn copy_span(s: &Range<usize>) -> (r: Range<usize>)
    ensures r == *s,
{
    s.start..s.end
}

} // verus!


