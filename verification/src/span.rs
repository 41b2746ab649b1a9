//! Immutable source positions.
//!
//! A `Span` stores byte offsets only; lines and columns are derived when a
//! diagnostic is rendered (see `source_map`).
use vstd::prelude::*;

use crate::text::{dec, push_dec, push_str};

verus! {

/// Index of a source file inside a `SourceMap`.
pub type FileId = u32;

/// Byte offset into a source text (the primary key of a position).
pub type ByteOffset = u32;

/// Macro expansion generation: 0 is user source, N is the N-th expansion.
pub type ExpansionId = u32;

/// An immutable source position: `[start, end)` bytes of file `file_id`,
/// produced by expansion generation `expansion_id`.
#[derive(Debug, Clone, Copy, PartialEq, Eq, Structural, Hash)]
pub struct Span {
    pub file_id: FileId,
    pub start: ByteOffset,
    pub end: ByteOffset,
    pub expansion_id: ExpansionId,
}

/// The smaller of two offsets.
pub open spec fn min_u32(a: u32, b: u32) -> u32 {
    if a <= b { a } else { b }
}

/// The larger of two offsets.
pub open spec fn max_u32(a: u32, b: u32) -> u32 {
    if a >= b { a } else { b }
}

/// What `merge` yields: the union of two spans of the same file and
/// generation, and the first span unchanged otherwise.
pub open spec fn spec_merge(a: Span, b: Span) -> Span {
    if a.file_id != b.file_id || a.expansion_id != b.expansion_id {
        a
    } else {
        Span {
            file_id: a.file_id,
            start: min_u32(a.start, b.start),
            end: max_u32(a.end, b.end),
            expansion_id: a.expansion_id,
        }
    }
}

/// Whether `offset` lies in `[s.start, s.end)`.
pub open spec fn spec_contains(s: Span, offset: u32) -> bool {
    s.start <= offset && offset < s.end
}

/// Whether the span covers no byte.
pub open spec fn spec_is_empty(s: Span) -> bool {
    s.end <= s.start
}

impl Span {
    /// A span of generation 0.
    pub fn new(file_id: FileId, start: ByteOffset, end: ByteOffset) -> (s: Span)
        ensures
            s == (Span { file_id, start, end, expansion_id: 0 }),
    {
        Span { file_id, start, end, expansion_id: 0 }
    }

    /// The placeholder span of file 0 covering nothing.
    pub fn dummy() -> (s: Span)
        ensures
            s == (Span { file_id: 0, start: 0, end: 0, expansion_id: 0 }),
    {
        Span::new(0, 0, 0)
    }

    /// The same span one expansion generation later (saturating).
    pub fn bumped_expansion(self) -> (s: Span)
        ensures
            s.file_id == self.file_id,
            s.start == self.start,
            s.end == self.end,
            s.expansion_id == (if self.expansion_id == u32::MAX {
                u32::MAX as int
            } else {
                self.expansion_id + 1
            }),
    {
        let e = if self.expansion_id == u32::MAX { u32::MAX } else { self.expansion_id + 1 };
        Span { file_id: self.file_id, start: self.start, end: self.end, expansion_id: e }
    }

    /// Union of two spans; when file or generation differ, `self` is kept
    /// so that a diagnostic always has a usable position.
    pub fn merge(self, other: Span) -> (s: Span)
        ensures
            s == spec_merge(self, other),
    {
        if self.file_id != other.file_id || self.expansion_id != other.expansion_id {
            return self;
        }
        let start = if self.start <= other.start { self.start } else { other.start };
        let end = if self.end >= other.end { self.end } else { other.end };
        Span { file_id: self.file_id, start, end, expansion_id: self.expansion_id }
    }

    /// Whether the span covers byte `offset`.
    pub fn contains(self, offset: ByteOffset) -> (b: bool)
        ensures
            b == spec_contains(self, offset),
    {
        offset >= self.start && offset < self.end
    }

    /// Length in bytes (0 when `end <= start`).
    pub fn len(self) -> (n: ByteOffset)
        ensures
            n == (if self.end >= self.start { self.end - self.start } else { 0int }),
    {
        if self.end >= self.start { self.end - self.start } else { 0 }
    }

    /// Whether the span covers no byte.
    pub fn is_empty(self) -> (b: bool)
        ensures
            b == spec_is_empty(self),
    {
        self.end <= self.start
    }

    /// The span as text: `Span(file F, S..E)`, with `, exp X` before the
    /// closing parenthesis when it comes from an expansion.
    pub fn to_text(self) -> (t: String)
        ensures
            t@ == span_text(self),
    {
        let mut t = String::new();
        push_str(&mut t, "Span(file ");
        push_dec(&mut t, self.file_id as u64);
        push_str(&mut t, ", ");
        push_dec(&mut t, self.start as u64);
        push_str(&mut t, "..");
        push_dec(&mut t, self.end as u64);
        if self.expansion_id > 0 {
            push_str(&mut t, ", exp ");
            push_dec(&mut t, self.expansion_id as u64);
            push_str(&mut t, ")");
        } else {
            push_str(&mut t, ")");
        }
        t
    }
}

/// The text of a span.
pub open spec fn span_text(s: Span) -> Seq<char> {
    "Span(file "@ + dec(s.file_id as nat) + ", "@ + dec(s.start as nat) + ".."@ + dec(s.end as nat) + if s.expansion_id
        > 0 {
        ", exp "@ + dec(s.expansion_id as nat) + ")"@
    } else {
        ")"@
    }
}

impl Default for Span {
    fn default() -> (s: Span)
        ensures
            s == (Span { file_id: 0, start: 0, end: 0, expansion_id: 0 }),
    {
        Span::dummy()
    }
}

/// Merging two spans of the same file and generation does not depend on
/// the order of the operands.
pub proof fn lemma_merge_commutes(a: Span, b: Span)
    requires
        a.file_id == b.file_id,
        a.expansion_id == b.expansion_id,
    ensures
        spec_merge(a, b) == spec_merge(b, a),
{
}

/// The union covers every byte that either operand covers.
pub proof fn lemma_merge_covers(a: Span, b: Span, offset: u32)
    requires
        a.file_id == b.file_id,
        a.expansion_id == b.expansion_id,
        spec_contains(a, offset) || spec_contains(b, offset),
    ensures
        spec_contains(spec_merge(a, b), offset),
{
}

/// Merging with spans of another file or generation leaves a span unchanged.
pub proof fn lemma_merge_foreign_is_identity(a: Span, b: Span)
    requires
        a.file_id != b.file_id || a.expansion_id != b.expansion_id,
    ensures
        spec_merge(a, b) == a,
{
}

/// Merging is associative on spans of one file and generation.
pub proof fn lemma_merge_associates(a: Span, b: Span, c: Span)
    requires
        a.file_id == b.file_id && b.file_id == c.file_id,
        a.expansion_id == b.expansion_id && b.expansion_id == c.expansion_id,
    ensures
        spec_merge(spec_merge(a, b), c) == spec_merge(a, spec_merge(b, c)),
{
}

/// A span that covers some byte is not empty.
pub proof fn lemma_contains_implies_nonempty(s: Span, offset: u32)
    requires
        spec_contains(s, offset),
    ensures
        !spec_is_empty(s),
{
}

} // verus!
