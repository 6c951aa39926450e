//! Byte ranges within a source file, and ranges qualified by the file they
//! belong to.

use vstd::prelude::*;
use vstd::string::*;
use vstd::utf8::*;

verus! {

/// A stable handle to a file known to a source map. Handles are allocated in
/// increasing order and never reused.
pub type FileId = u64;

/// A range of bytes `[start, end)` within one file.
///
/// `start <= end` is expected but not enforced: a span with `end <= start`
/// covers nothing.
#[derive(Clone, Copy, Debug, PartialEq, Eq, Structural)]
pub struct Span {
    /// The first byte of the span (inclusive).
    pub start: usize,
    /// The byte after the last byte of the span (exclusive).
    pub end: usize,
}

/// A [`Span`] together with the file it points into.
#[derive(Clone, Copy, Debug, PartialEq, Eq, Structural)]
pub struct Location {
    pub span: Span,
    pub file_id: FileId,
}

/// Pairs a value with its location in the source code.
#[derive(Debug)]
pub struct Located<T> {
    pub value: T,
    pub loc: Location,
}

/// Pairs a value with the place in the source code that produced it.
pub struct SourceRef<T> {
    pub value: T,
    pub loc: Location,
}

impl Span {
    /// The number of bytes covered by the span: zero when `end <= start`.
    pub open spec fn spec_len(self) -> nat {
        if self.start >= self.end {
            0
        } else {
            (self.end - self.start) as nat
        }
    }

    /// Whether every byte of `other` also lies within `self`.
    pub open spec fn contains(self, other: Span) -> bool {
        self.start <= other.start && other.end <= self.end
    }

    /// The smallest span that covers both `self` and `other`.
    pub open spec fn spec_join(self, other: Span) -> Span {
        Span {
            start: if self.start <= other.start { self.start } else { other.start },
            end: if self.end >= other.end { self.end } else { other.end },
        }
    }

    /// The overlap of `self` and `other`; it covers nothing when the two are
    /// disjoint.
    pub open spec fn spec_diff(self, other: Span) -> Span {
        Span {
            start: if self.start >= other.start { self.start } else { other.start },
            end: if self.end <= other.end { self.end } else { other.end },
        }
    }

    /// Whether the span cuts a well-formed piece out of `text`: it lies
    /// within the UTF-8 encoding of `text`, and both ends fall between
    /// characters.
    pub open spec fn fits(self, text: Seq<char>) -> bool {
        let bytes = encode_utf8(text);
        &&& self.start <= self.end <= bytes.len()
        &&& is_char_boundary(bytes, self.start as int)
        &&& is_char_boundary(bytes, self.end as int)
    }

    /// The characters of `text` whose encoding occupies the bytes of the
    /// span.
    pub open spec fn spec_slice(self, text: Seq<char>) -> Seq<char> {
        decode_utf8(encode_utf8(text).subrange(self.start as int, self.end as int))
    }

    /// Constructs a new span from a range of byte offsets.
    pub fn new(range: std::ops::Range<usize>) -> (span: Span)
        ensures
            span.start == range.start,
            span.end == range.end,
    {
        Span { start: range.start, end: range.end }
    }

    /// Returns whether the span covers no bytes.
    pub fn is_empty(&self) -> (empty: bool)
        ensures
            empty == (self.start >= self.end),
            empty == (self.spec_len() == 0),
    {
        self.start >= self.end
    }

    /// Returns the number of bytes covered by the span.
    pub fn len(&self) -> (len: usize)
        ensures
            len == self.spec_len(),
    {
        if self.is_empty() {
            0
        } else {
            self.end - self.start
        }
    }

    /// Joins two spans into the smallest span that covers both.
    pub fn join(&self, other: &Span) -> (joined: Span)
        ensures
            joined == self.spec_join(*other),
    {
        let start: usize = if self.start <= other.start { self.start } else { other.start };
        let end: usize = if self.end >= other.end { self.end } else { other.end };
        Span { start, end }
    }

    /// Returns the part that two spans have in common. The result is empty
    /// (and may have `end < start`) when they do not overlap.
    pub fn diff(&self, other: &Span) -> (common: Span)
        ensures
            common == self.spec_diff(*other),
    {
        let start: usize = if self.start >= other.start { self.start } else { other.start };
        let end: usize = if self.end <= other.end { self.end } else { other.end };
        Span { start, end }
    }

    /// Returns a span with `lpad` bytes removed from the left and `rpad`
    /// bytes removed from the right.
    pub fn shrink(&self, lpad: usize, rpad: usize) -> (shrunk: Span)
        requires
            self.start + lpad <= usize::MAX,
            rpad <= self.end,
        ensures
            shrunk.start == self.start + lpad,
            shrunk.end == self.end - rpad,
    {
        Span { start: self.start + lpad, end: self.end - rpad }
    }

    /// Returns whether the span can be used to slice `src`.
    pub fn fits_in(&self, src: &str) -> (ok: bool)
        ensures
            ok == self.fits(src@),
    {
        let size: usize = src.as_bytes().len();
        if self.start > self.end || self.end > size {
            return false;
        }
        proof {
            encode_utf8_valid_utf8(src@);
        }
        if !src.is_char_boundary(self.start) {
            return false;
        }
        src.is_char_boundary(self.end)
    }

    /// Uses this span to slice a string into a substring.
    pub fn slice<'a>(&self, src: &'a str) -> (piece: &'a str)
        requires
            self.fits(src@),
        ensures
            piece@ == self.spec_slice(src@),
    {
        let (head, _tail) = src.split_at(self.end);
        proof {
            let bytes = src.spec_bytes();
            let prefix = bytes.subrange(0, self.end as int);
            encode_utf8_valid_utf8(src@);
            valid_utf8_split(bytes, self.end as int);
            if self.start < self.end {
                is_char_boundary_iff_not_is_continuation_byte(bytes, self.start as int);
                is_char_boundary_iff_not_is_continuation_byte(prefix, self.start as int);
            } else {
                is_char_boundary_start_end_of_seq(prefix);
            }
        }
        let (_skipped, piece) = head.split_at(self.start);
        proof {
            assert(piece.spec_bytes() =~= src.spec_bytes().subrange(
                self.start as int,
                self.end as int,
            ));
            encode_utf8_decode_utf8(piece@);
        }
        piece
    }

    /// Slices `src` where the span fits it, and returns `None` where it does
    /// not.
    pub fn try_slice<'a>(&self, src: &'a str) -> (piece: Option<&'a str>)
        ensures
            piece is Some <==> self.fits(src@),
            piece is Some ==> piece->0@ == self.spec_slice(src@),
    {
        if self.fits_in(src) {
            Some(self.slice(src))
        } else {
            None
        }
    }
}

/// Joining is symmetric, and the joined span covers both of its parts.
pub proof fn lemma_join_covers(a: Span, b: Span)
    ensures
        a.spec_join(b) == b.spec_join(a),
        a.spec_join(b).contains(a),
        a.spec_join(b).contains(b),
{
}

/// The joined span is the smallest one that covers both parts: every span
/// that covers both also covers the join.
pub proof fn lemma_join_least(a: Span, b: Span, c: Span)
    requires
        c.contains(a),
        c.contains(b),
    ensures
        c.contains(a.spec_join(b)),
{
}

/// The overlap of two spans is symmetric, and lies within both whenever it
/// is not empty.
pub proof fn lemma_diff_within(a: Span, b: Span)
    ensures
        a.spec_diff(b) == b.spec_diff(a),
        a.spec_diff(b).spec_len() > 0 ==> a.contains(a.spec_diff(b)) && b.contains(
            a.spec_diff(b),
        ),
{
}

} // verus!
