//! The line index of a source text: one span per line, and the search that
//! maps a byte offset to its line and column.
//!
//! A line ends at `\n`, at `\r\n` (one terminator of two bytes) or at a `\r`
//! alone. The text after the last terminator is a line of its own, even
//! where it is empty.

use vstd::prelude::*;
use vstd::string::*;
use vstd::utf8::*;
use crate::span::Span;

verus! {

/// The byte `\n`.
pub const LF: u8 = 10;

/// The byte `\r`.
pub const CR: u8 = 13;

/// Whether `byte` starts a line terminator.
pub open spec fn is_break(byte: u8) -> bool {
    byte == LF || byte == CR
}

/// The span `[start, end)`.
pub open spec fn span_of(start: int, end: int) -> Span {
    Span { start: start as usize, end: end as usize }
}

/// The lines of `bytes` from the line that starts at `start`, where the
/// bytes in `[start, pos)` are known to hold no terminator.
pub open spec fn scan_lines(bytes: Seq<u8>, start: int, pos: int) -> Seq<Span>
    decreases bytes.len() - pos,
{
    if pos >= bytes.len() {
        seq![span_of(start, bytes.len() as int)]
    } else if bytes[pos] == CR && pos + 1 < bytes.len() && bytes[pos + 1] == LF {
        seq![span_of(start, pos)] + scan_lines(bytes, pos + 2, pos + 2)
    } else if is_break(bytes[pos]) {
        seq![span_of(start, pos)] + scan_lines(bytes, pos + 1, pos + 1)
    } else {
        scan_lines(bytes, start, pos + 1)
    }
}

/// The line index of a text: the span of each of its lines, terminators
/// left out, in the order of the text.
pub open spec fn line_spans(bytes: Seq<u8>) -> Seq<Span> {
    scan_lines(bytes, 0, 0)
}

/// Whether line `i` of `lines` ends before the next line starts.
pub open spec fn apart(lines: Seq<Span>, i: int) -> bool {
    lines[i].end < lines[i + 1].start
}

/// Whether `lines` has the shape of a line index: there is a first line,
/// it starts at offset zero, no line ends before it starts, and each line
/// starts behind the end of the line before it.
pub open spec fn is_line_index(lines: Seq<Span>) -> bool {
    &&& lines.len() >= 1
    &&& lines[0].start == 0
    &&& forall|i: int| 0 <= i < lines.len() ==> (#[trigger] lines[i]).start <= lines[i].end
    &&& forall|i: int| 0 <= i < lines.len() - 1 ==> #[trigger] apart(lines, i)
}

/// Whether `line` is the number, counted from one, of the line that holds
/// the offset `pos`: the last line that starts at or before `pos`. An offset
/// inside a terminator belongs to the line that the terminator ends, and an
/// offset behind the text to the last line.
pub open spec fn is_line_of(lines: Seq<Span>, pos: usize, line: int) -> bool {
    &&& 1 <= line <= lines.len()
    &&& lines[line - 1].start <= pos
    &&& line < lines.len() ==> pos < lines[line].start
}

/// The number, counted from one, of the line that holds the offset `pos`.
pub open spec fn line_at(lines: Seq<Span>, pos: usize) -> int {
    choose|line: int| is_line_of(lines, pos, line)
}

/// The line and column, both counted from one, of the offset `pos`. The
/// column is the distance from the start of the line, and one more.
pub open spec fn line_and_col_at(lines: Seq<Span>, pos: usize) -> (usize, usize) {
    let line = line_at(lines, pos);
    (line as usize, (pos - lines[line - 1].start + 1) as usize)
}

/// The lines and columns of the two ends of `span`. Where the end falls on
/// the first column of a line behind the start line, it is moved back to the
/// end of the line before: a span that takes in a line's terminator does not
/// reach into the next line.
pub open spec fn line_and_col_span_at(lines: Seq<Span>, span: Span) -> (
    (usize, usize),
    (usize, usize),
) {
    let from = line_and_col_at(lines, span.start);
    let raw = line_and_col_at(lines, span.end);
    let to = if raw.0 > from.0 && raw.1 == 1 {
        ((raw.0 - 1) as usize, (lines[raw.0 - 2].spec_len() + 1) as usize)
    } else {
        raw
    };
    (from, to)
}

/// In a line index the lines start in strictly increasing order.
pub proof fn lemma_starts_increase(lines: Seq<Span>, i: int, j: int)
    requires
        is_line_index(lines),
        0 <= i < j < lines.len(),
    ensures
        lines[i].start < lines[j].start,
    decreases j - i,
{
    assert(apart(lines, j - 1));
    assert(lines[j - 1].start <= lines[j - 1].end);
    if i < j - 1 {
        lemma_starts_increase(lines, i, j - 1);
    }
}

/// Every offset lies on exactly one line of a line index.
pub proof fn lemma_line_unique(lines: Seq<Span>, pos: usize, a: int, b: int)
    requires
        is_line_index(lines),
        is_line_of(lines, pos, a),
        is_line_of(lines, pos, b),
    ensures
        a == b,
{
    if a < b {
        if a < b - 1 {
            lemma_starts_increase(lines, a, b - 1);
        }
    } else if b < a {
        if b < a - 1 {
            lemma_starts_increase(lines, b, a - 1);
        }
    }
}

/// An offset further on is never on an earlier line.
pub proof fn lemma_line_monotonic(lines: Seq<Span>, near: usize, far: usize)
    requires
        is_line_index(lines),
        near <= far,
    ensures
        1 <= line_at(lines, near) <= line_at(lines, far) <= lines.len(),
{
    lemma_line_exists(lines, near, lines.len() as int);
    lemma_line_exists(lines, far, lines.len() as int);
    let a = line_at(lines, near);
    let b = line_at(lines, far);
    if b < a {
        if b < a - 1 {
            lemma_starts_increase(lines, b, a - 1);
        }
    }
}

/// Whether `line` is the last of the first `n` lines that starts at or
/// before the offset `pos`.
pub open spec fn is_line_among(lines: Seq<Span>, pos: usize, line: int, n: int) -> bool {
    &&& 1 <= line <= n
    &&& lines[line - 1].start <= pos
    &&& line < n ==> pos < lines[line].start
}

/// Every offset lies on a line of a line index: among the first `n` lines
/// there is a last one that starts at or before the offset.
pub proof fn lemma_line_exists(lines: Seq<Span>, pos: usize, n: int)
    requires
        is_line_index(lines),
        1 <= n <= lines.len(),
    ensures
        exists|line: int| #[trigger] is_line_among(lines, pos, line, n),
        n == lines.len() ==> is_line_of(lines, pos, line_at(lines, pos)),
    decreases n,
{
    if n == 1 {
        assert(is_line_among(lines, pos, 1, n));
    } else if lines[n - 1].start <= pos {
        assert(is_line_among(lines, pos, n, n));
    } else {
        lemma_line_exists(lines, pos, n - 1);
        let line = choose|line: int| #[trigger] is_line_among(lines, pos, line, n - 1);
        assert(is_line_among(lines, pos, line, n));
    }
    if n == lines.len() {
        let line = choose|line: int| #[trigger] is_line_among(lines, pos, line, n);
        assert(is_line_of(lines, pos, line));
    }
}

/// What a scan from `start` yields: lines in order that hold no terminator,
/// with one terminator of one or two bytes between each line and the next,
/// from `start` to the end of the text.
pub proof fn lemma_scan_lines(bytes: Seq<u8>, start: int, pos: int)
    requires
        0 <= start <= pos <= bytes.len() <= usize::MAX,
        forall|k: int| start <= k < pos ==> !is_break(#[trigger] bytes[k]),
    ensures
        ({
            let lines = scan_lines(bytes, start, pos);
            &&& lines.len() >= 1
            &&& lines[0].start == start
            &&& lines.last().end == bytes.len()
            &&& forall|i: int|
                0 <= i < lines.len() ==> (#[trigger] lines[i]).start <= lines[i].end
                    <= bytes.len()
            &&& forall|i: int|
                0 <= i < lines.len() - 1 ==> {
                    &&& (#[trigger] lines[i]).end < lines[i + 1].start <= lines[i].end + 2
                    &&& is_break(bytes[lines[i].end as int])
                    &&& lines[i + 1].start == lines[i].end + 2 ==> bytes[lines[i].end + 1] == LF
                }
            &&& forall|i: int, k: int|
                #![trigger lines[i], bytes[k]]
                0 <= i < lines.len() && lines[i].start <= k < lines[i].end ==> !is_break(
                    bytes[k],
                )
        }),
    decreases bytes.len() - pos,
{
    let lines = scan_lines(bytes, start, pos);
    if pos >= bytes.len() {
    } else {
        let two = bytes[pos] == CR && pos + 1 < bytes.len() && bytes[pos + 1] == LF;
        if two || is_break(bytes[pos]) {
            let next = if two {
                pos + 2
            } else {
                pos + 1
            };
            let rest = scan_lines(bytes, next, next);
            lemma_scan_lines(bytes, next, next);
            assert(lines == seq![span_of(start, pos)] + rest);
            assert(lines[0] == span_of(start, pos));
            assert forall|i: int| 1 <= i < lines.len() implies lines[i] == rest[i - 1] by {}
            assert(lines.last() == rest.last());
            assert forall|i: int| 0 <= i < lines.len() implies (#[trigger] lines[i]).start
                <= lines[i].end <= bytes.len() by {
                if i > 0 {
                    assert(lines[i] == rest[i - 1]);
                }
            }
            assert forall|i: int| 0 <= i < lines.len() - 1 implies {
                &&& (#[trigger] lines[i]).end < lines[i + 1].start <= lines[i].end + 2
                &&& is_break(bytes[lines[i].end as int])
                &&& lines[i + 1].start == lines[i].end + 2 ==> bytes[lines[i].end + 1] == LF
            } by {
                assert(lines[i + 1] == rest[i]);
                if i > 0 {
                    assert(lines[i] == rest[i - 1]);
                }
            }
            assert forall|i: int, k: int|
                #![trigger lines[i], bytes[k]]
                0 <= i < lines.len() && lines[i].start <= k < lines[i].end implies !is_break(
                bytes[k],
            ) by {
                if i > 0 {
                    assert(lines[i] == rest[i - 1]);
                }
            }
        } else {
            lemma_scan_lines(bytes, start, pos + 1);
        }
    }
}

/// The line index of a text has the shape of a line index: it covers the
/// text from its first byte to its last, its lines hold no terminator, and
/// between each line and the next stands one terminator of one or two bytes.
pub proof fn lemma_line_spans(bytes: Seq<u8>)
    requires
        bytes.len() <= usize::MAX,
    ensures
        is_line_index(line_spans(bytes)),
        line_spans(bytes).last().end == bytes.len(),
        forall|i: int|
            0 <= i < line_spans(bytes).len() ==> (#[trigger] line_spans(bytes)[i]).end
                <= bytes.len(),
        forall|i: int|
            0 <= i < line_spans(bytes).len() - 1 ==> {
                &&& (#[trigger] line_spans(bytes)[i]).end < line_spans(bytes)[i + 1].start
                    <= line_spans(bytes)[i].end + 2
                &&& is_break(bytes[line_spans(bytes)[i].end as int])
                &&& line_spans(bytes)[i + 1].start == line_spans(bytes)[i].end + 2
                    ==> bytes[line_spans(bytes)[i].end + 1] == LF
            },
        forall|i: int, k: int|
            #![trigger line_spans(bytes)[i], bytes[k]]
            0 <= i < line_spans(bytes).len() && line_spans(bytes)[i].start <= k
                < line_spans(bytes)[i].end ==> !is_break(bytes[k]),
{
    lemma_scan_lines(bytes, 0, 0);
    let lines = line_spans(bytes);
    assert forall|i: int| 0 <= i < lines.len() - 1 implies #[trigger] apart(lines, i) by {
        assert(lines[i].end < lines[i + 1].start);
    }
}

/// In well-formed UTF-8 a character starts at every byte below 128, and
/// another one, or nothing, right behind it.
pub proof fn lemma_around_ascii(bytes: Seq<u8>, at: int)
    requires
        valid_utf8(bytes),
        0 <= at < bytes.len(),
        bytes[at] <= 0x7f,
    ensures
        is_char_boundary(bytes, at),
        is_char_boundary(bytes, at + 1),
{
    is_char_boundary_iff_not_is_continuation_byte(bytes, at);
    if at + 1 == bytes.len() {
        is_char_boundary_start_end_of_seq(bytes);
    } else {
        let suffix = bytes.subrange(at, bytes.len() as int);
        valid_utf8_split(bytes, at);
        assert(suffix[0] == bytes[at]);
        assert(length_of_first_scalar(suffix) == 1);
        let rest = pop_first_scalar(suffix);
        assert(valid_utf8(rest));
        assert(rest.len() > 0);
        assert(rest[0] == bytes[at + 1]);
        assert(valid_first_scalar(rest));
        assert(!is_continuation_byte(rest[0]));
        is_char_boundary_iff_not_is_continuation_byte(bytes, at + 1);
    }
}

/// Where line `i` of a text starts and ends: at the start of the text or
/// behind the terminator of the line before, and at a terminator or at the
/// end of the text.
pub proof fn lemma_line_ends(bytes: Seq<u8>, i: int)
    requires
        bytes.len() <= usize::MAX,
        0 <= i < line_spans(bytes).len(),
    ensures
        line_spans(bytes)[i].start <= line_spans(bytes)[i].end <= bytes.len(),
        i == line_spans(bytes).len() - 1 ==> line_spans(bytes)[i].end == bytes.len(),
        i < line_spans(bytes).len() - 1 ==> line_spans(bytes)[i].end < bytes.len() && is_break(
            bytes[line_spans(bytes)[i].end as int],
        ),
        i == 0 ==> line_spans(bytes)[i].start == 0,
        i > 0 ==> {
            let before = line_spans(bytes)[i - 1].end;
            let start = line_spans(bytes)[i].start;
            &&& before < bytes.len()
            &&& is_break(bytes[before as int])
            &&& start == before + 1 || (start == before + 2 && bytes[before + 1] == LF)
        },
{
    lemma_line_spans(bytes);
    let lines = line_spans(bytes);
    if i > 0 {
        assert(lines[i - 1].end < lines[i - 1 + 1].start);
    }
    if i < lines.len() - 1 {
        assert(lines[i].end < lines[i + 1].start);
    }
}

/// Line `i` of a text can be sliced out of it.
pub proof fn lemma_line_fits(text: Seq<char>, i: int)
    requires
        encode_utf8(text).len() <= usize::MAX,
        0 <= i < line_spans(encode_utf8(text)).len(),
    ensures
        line_spans(encode_utf8(text))[i].fits(text),
{
    let bytes = encode_utf8(text);
    let line = line_spans(bytes)[i];
    encode_utf8_valid_utf8(text);
    lemma_line_ends(bytes, i);
    is_char_boundary_start_end_of_seq(bytes);
    if i < line_spans(bytes).len() - 1 {
        lemma_around_ascii(bytes, line.end as int);
    }
    if i > 0 {
        let before = line_spans(bytes)[i - 1].end as int;
        lemma_around_ascii(bytes, before);
        if line.start == before + 2 {
            lemma_around_ascii(bytes, before + 1);
        }
    }
}

/// Every line of a text can be sliced out of it: it lies within the text,
/// and it starts and ends between two characters.
pub proof fn lemma_lines_fit(text: Seq<char>)
    requires
        encode_utf8(text).len() <= usize::MAX,
    ensures
        forall|i: int|
            0 <= i < line_spans(encode_utf8(text)).len() ==> (#[trigger] line_spans(
                encode_utf8(text),
            )[i]).fits(text),
{
    assert forall|i: int| 0 <= i < line_spans(encode_utf8(text)).len() implies (
    #[trigger] line_spans(encode_utf8(text))[i]).fits(text) by {
        lemma_line_fits(text, i);
    }
}

/// Computes the line index of `src`.
pub fn str_get_lines(src: &str) -> (lines: Vec<Span>)
    ensures
        lines@ == line_spans(src.spec_bytes()),
        src.spec_bytes().len() <= usize::MAX,
        is_line_index(lines@),
{
    let bytes = src.as_bytes();
    let size: usize = bytes.len();
    let mut lines: Vec<Span> = Vec::new();
    let mut start: usize = 0;
    let mut pos: usize = 0;
    assert(lines@ + scan_lines(bytes@, 0, 0) =~= line_spans(bytes@));
    while pos < size
        invariant
            size == bytes@.len(),
            start <= pos <= size,
            line_spans(bytes@) == lines@ + scan_lines(bytes@, start as int, pos as int),
        decreases size - pos,
    {
        let ghost before = lines@;
        let ghost start0 = start as int;
        let ghost pos0 = pos as int;
        let byte: u8 = bytes[pos];
        if byte == CR && pos + 1 < size && bytes[pos + 1] == LF {
            lines.push(Span { start, end: pos });
            pos = pos + 2;
            start = pos;
            assert(lines@ + scan_lines(bytes@, start as int, pos as int) =~= before + (seq![
                span_of(start0, pos0),
            ] + scan_lines(bytes@, start as int, pos as int))) by {
                assert(lines@ =~= before + seq![span_of(start0, pos0)]);
            }
        } else if byte == CR || byte == LF {
            lines.push(Span { start, end: pos });
            pos = pos + 1;
            start = pos;
            assert(lines@ + scan_lines(bytes@, start as int, pos as int) =~= before + (seq![
                span_of(start0, pos0),
            ] + scan_lines(bytes@, start as int, pos as int))) by {
                assert(lines@ =~= before + seq![span_of(start0, pos0)]);
            }
        } else {
            pos = pos + 1;
        }
    }
    lines.push(Span { start, end: size });
    assert(lines@ =~= line_spans(bytes@));
    proof {
        lemma_line_spans(bytes@);
    }
    lines
}

/// Searches a line index for the line that holds the offset `pos`, and
/// returns its number, counted from one.
pub fn find_line(lines: &Vec<Span>, pos: usize) -> (line: usize)
    requires
        is_line_index(lines@),
    ensures
        is_line_of(lines@, pos, line as int),
        line == line_at(lines@, pos),
{
    let mut lo: usize = 0;
    let mut hi: usize = lines.len();
    while hi - lo > 1
        invariant
            lo < hi <= lines.len(),
            lines[lo as int].start <= pos,
            hi < lines.len() ==> pos < lines[hi as int].start,
        decreases hi - lo,
    {
        let mid: usize = lo + (hi - lo) / 2;
        if lines[mid].start <= pos {
            lo = mid;
        } else {
            hi = mid;
        }
    }
    proof {
        assert(is_line_of(lines@, pos, lo + 1));
        lemma_line_unique(lines@, pos, lo + 1, line_at(lines@, pos));
    }
    lo + 1
}

/// Converts the offset `pos` to its line and column, both counted from one.
pub fn find_line_and_col(lines: &Vec<Span>, pos: usize) -> (at: (usize, usize))
    requires
        is_line_index(lines@),
        pos < usize::MAX,
    ensures
        at == line_and_col_at(lines@, pos),
        is_line_of(lines@, pos, at.0 as int),
{
    let line: usize = find_line(lines, pos);
    let column: usize = pos - lines[line - 1].start + 1;
    (line, column)
}

/// Converts both ends of `span` to line and column. An end that falls on
/// the first column of a later line than the start is moved back to the end
/// of the line before it.
pub fn find_line_and_col_span(lines: &Vec<Span>, span: &Span) -> (ends: (
    (usize, usize),
    (usize, usize),
))
    requires
        is_line_index(lines@),
        span.start < usize::MAX,
        span.end < usize::MAX,
    ensures
        ends == line_and_col_span_at(lines@, *span),
        1 <= ends.0.0 <= lines@.len(),
        1 <= ends.1.0 <= lines@.len(),
{
    let from = find_line_and_col(lines, span.start);
    let raw = find_line_and_col(lines, span.end);
    if raw.0 > from.0 && raw.1 == 1 {
        let before = &lines[raw.0 - 2];
        assert(apart(lines@, raw.0 - 2));
        (from, (raw.0 - 1, before.len() + 1))
    } else {
        (from, raw)
    }
}

} // verus!
