use vstd::prelude::*;

verus! {

/// A half-open byte range `[start, end)` into one document's text.
#[derive(Clone, Copy, Debug, PartialEq, Eq, Structural)]
pub struct Span {
    pub start: usize,
    pub end: usize,
}

impl Span {
    /// Whether `offset` lies inside the span.
    pub open spec fn contains(self, offset: int) -> bool {
        self.start <= offset && offset < self.end
    }
}

/// Anything that covers a range of the source text.
pub trait HasSpan {
    fn span(&self) -> Span;
}

impl HasSpan for Span {
    fn span(&self) -> Span {
        *self
    }
}

} // verus!
