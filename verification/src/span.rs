use vstd::prelude::*;

verus! {

/// A position in source code (byte offset + line/column).
#[derive(Clone, Copy, Debug, PartialEq, Eq, Hash, Structural)]
pub struct Position {
    /// Byte offset from the start of the source.
    pub offset: usize,
    /// 1-based line number (0 for synthesized nodes).
    pub line: u32,
    /// 1-based column number, in UTF-8 bytes (0 for synthesized nodes).
    pub column: u32,
}

/// A half-open span in source code: it includes the start position and
/// excludes the end position.
#[derive(Clone, Copy, Debug, PartialEq, Eq, Hash, Structural)]
pub struct Span {
    pub start: Position,
    pub end: Position,
}

/// The position used for nodes that were not read from source.
pub open spec fn zero_position() -> Position {
    Position { offset: 0, line: 0, column: 0 }
}

/// The span that covers both `a` and `b`: the earlier start (by byte offset,
/// `a`'s on a tie) and the later end (by byte offset, `a`'s on a tie).
pub open spec fn merged(a: Span, b: Span) -> Span {
    Span {
        start: if a.start.offset <= b.start.offset { a.start } else { b.start },
        end: if a.end.offset >= b.end.offset { a.end } else { b.end },
    }
}

impl Span {
    /// Create a new span from start and end positions.
    pub fn new(start: Position, end: Position) -> (s: Span)
        ensures
            s.start == start,
            s.end == end,
    {
        Span { start, end }
    }

    /// Create a dummy span for synthesized nodes (not from source).
    pub fn dummy() -> (s: Span)
        ensures
            s.start == zero_position(),
            s.end == zero_position(),
    {
        let pos = Position { offset: 0, line: 0, column: 0 };
        Span { start: pos, end: pos }
    }

    /// Merge two spans into one that covers both.
    pub fn merge(self, other: Span) -> (s: Span)
        ensures
            s == merged(self, other),
    {
        let start = if self.start.offset <= other.start.offset {
            self.start
        } else {
            other.start
        };
        let end = if self.end.offset >= other.end.offset {
            self.end
        } else {
            other.end
        };
        Span { start, end }
    }
}

/// The merge of two spans starts no later and ends no earlier than either
/// of them, and its bounds are taken from the two spans.
pub proof fn merge_covers_both(a: Span, b: Span)
    ensures
        merged(a, b).start.offset <= a.start.offset,
        merged(a, b).start.offset <= b.start.offset,
        merged(a, b).end.offset >= a.end.offset,
        merged(a, b).end.offset >= b.end.offset,
        merged(a, b).start == a.start || merged(a, b).start == b.start,
        merged(a, b).end == a.end || merged(a, b).end == b.end,
{
}

/// Merging a span with itself gives the same span.
pub proof fn merge_idempotent(a: Span)
    ensures
        merged(a, a) == a,
{
}

/// Merging is commutative on the byte offsets of the result, and merging
/// is associative.
pub proof fn merge_commutes_on_offsets(a: Span, b: Span)
    ensures
        merged(a, b).start.offset == merged(b, a).start.offset,
        merged(a, b).end.offset == merged(b, a).end.offset,
{
}

/// Merging three spans gives the same span whichever pair is merged first.
pub proof fn merge_associative(a: Span, b: Span, c: Span)
    ensures
        merged(merged(a, b), c) == merged(a, merged(b, c)),
{
}

} // verus!
