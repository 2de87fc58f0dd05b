//! Errors of the parser front end, diagnostics, and the spans they point at.
use vstd::prelude::*;
use vstd::std_specs::convert::FromSpecImpl;

use super::lexer::error::LexicalError;
use super::parser::error::SyntaxError;

verus! {

/// A result of the parser front end.
pub type ParserResult<T> = Result<T, FlowqlError>;

/// Any error of the parser front end: from reading tokens or from parsing.
#[derive(Debug, Clone)]
pub enum FlowqlError {
    Lexical(LexicalError),
    Syntax(SyntaxError),
}

impl From<LexicalError> for FlowqlError {
    fn from(err: LexicalError) -> (r: Self) {
        FlowqlError::Lexical(err)
    }
}

impl FromSpecImpl<LexicalError> for FlowqlError {
    open spec fn obeys_from_spec() -> bool {
        true
    }

    open spec fn from_spec(v: LexicalError) -> FlowqlError {
        FlowqlError::Lexical(v)
    }
}

impl From<SyntaxError> for FlowqlError {
    fn from(err: SyntaxError) -> (r: Self) {
        FlowqlError::Syntax(err)
    }
}

impl FromSpecImpl<SyntaxError> for FlowqlError {
    open spec fn obeys_from_spec() -> bool {
        true
    }

    open spec fn from_spec(v: SyntaxError) -> FlowqlError {
        FlowqlError::Syntax(v)
    }
}

#[derive(Debug, Clone, PartialEq, Eq, Structural)]
pub enum DiagnosticLevel {
    Error,
    Warning,
}

/// A message about the source text, at a span of it.
#[derive(Debug, Clone)]
pub struct Diagnostic {
    pub level: DiagnosticLevel,
    pub title: &'static str,
    pub message: String,
    pub span: Span,
    pub help: Option<String>,
}

/// A range of byte offsets into the source text, `start` inclusive and `end`
/// exclusive.
#[derive(Debug, Clone, Copy, PartialEq, Eq, Structural)]
pub struct Span {
    pub start: usize,
    pub end: usize,
}

impl Span {
    pub fn new(start: usize, end: usize) -> (r: Self)
        ensures
            r == (Span { start, end }),
    {
        Self { start, end }
    }

    /// The offsets of the span as a range.
    pub fn range(&self) -> (r: std::ops::Range<usize>)
        ensures
            r.start == self.start,
            r.end == self.end,
    {
        self.start..self.end
    }

    /// The smallest span that starts where the earlier of the two starts and
    /// ends where the later of the two ends.
    pub fn merge(&self, other: &Self) -> (r: Self)
        ensures
            r == merged(*self, *other),
    {
        Self {
            start: if self.start <= other.start {
                self.start
            } else {
                other.start
            },
            end: if self.end >= other.end {
                self.end
            } else {
                other.end
            },
        }
    }
}

/// The span that `Span::merge` gives.
pub open spec fn merged(a: Span, b: Span) -> Span {
    Span {
        start: if a.start <= b.start {
            a.start
        } else {
            b.start
        },
        end: if a.end >= b.end {
            a.end
        } else {
            b.end
        },
    }
}

/// Merging spans is commutative, associative and idempotent, and the merged
/// span covers both spans; two spans that each start no later than they end
/// merge into one that does too.
pub proof fn lemma_merge_laws(a: Span, b: Span, c: Span)
    ensures
        merged(a, b) == merged(b, a),
        merged(merged(a, b), c) == merged(a, merged(b, c)),
        merged(a, a) == a,
        merged(a, b).start <= a.start && merged(a, b).start <= b.start,
        merged(a, b).end >= a.end && merged(a, b).end >= b.end,
        merged(a, b).start == a.start || merged(a, b).start == b.start,
        merged(a, b).end == a.end || merged(a, b).end == b.end,
        a.start <= a.end && b.start <= b.end ==> merged(a, b).start <= merged(a, b).end,
{
}

} // verus!
