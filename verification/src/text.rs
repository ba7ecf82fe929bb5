//! Line geometry of a text held as bytes: where lines start and end, which row an
//! offset falls on, and how to cut a range without splitting a multi-byte character.

use std::ops::Range;
use vstd::prelude::*;

verus! {

/// `Clone` for `std::ops::Range`, which the derived `Clone` of every type with a range
/// in it calls. Nothing is claimed of the copy.
pub assume_specification<Idx: Clone>[ <Range<Idx> as Clone>::clone ](range: &Range<Idx>) -> Range<
    Idx,
>;

/// The byte that ends a line.
pub const NEWLINE: u8 = 10;

/// Start of the line that contains `offset`: the nearest position at or before it that
/// is either the start of the text or directly behind a newline. Offsets beyond the
/// text count as its end.
pub open spec fn spec_line_start(text: Seq<u8>, offset: int) -> int
    decreases offset,
{
    if offset <= 0 {
        0
    } else if offset <= text.len() && text[offset - 1] == NEWLINE {
        offset
    } else {
        spec_line_start(text, offset - 1)
    }
}

/// End of the line that contains `offset`, its newline included: the position directly
/// behind the first newline at or after `offset`, or the end of the text.
pub open spec fn spec_line_end(text: Seq<u8>, offset: int) -> int
    decreases text.len() - offset,
{
    if offset >= text.len() {
        text.len() as int
    } else if offset >= 0 && text[offset] == NEWLINE {
        offset + 1
    } else {
        spec_line_end(text, offset + 1)
    }
}

/// Row of `offset`: the number of newlines in front of it.
pub open spec fn spec_row(text: Seq<u8>, offset: int) -> int
    decreases offset,
{
    if offset <= 0 {
        0
    } else if offset <= text.len() && text[offset - 1] == NEWLINE {
        spec_row(text, offset - 1) + 1
    } else {
        spec_row(text, offset - 1)
    }
}

/// Offset at which `row` starts; rows beyond the last one start at the end of the text.
pub open spec fn spec_row_start(text: Seq<u8>, row: int) -> int
    decreases row,
{
    if row <= 0 {
        0
    } else {
        spec_line_end(text, spec_row_start(text, row - 1))
    }
}

/// Whether `b` continues a multi-byte UTF-8 character.
pub open spec fn spec_is_continuation(b: u8) -> bool {
    128 <= b < 192
}

/// The nearest position at or before `offset` that does not fall inside a multi-byte
/// character. Offsets beyond the text count as its end.
pub open spec fn spec_clip_left(text: Seq<u8>, offset: int) -> int
    decreases offset,
{
    if offset <= 0 {
        0
    } else if offset >= text.len() {
        text.len() as int
    } else if !spec_is_continuation(text[offset]) {
        offset
    } else {
        spec_clip_left(text, offset - 1)
    }
}

/// `range` cut to the text: both ends at most the text's length, the end not before the
/// start.
pub open spec fn spec_clamp_range(len: int, start: int, end: int) -> (int, int) {
    let s = if start < len { start } else { len };
    let e = if end < s { s } else if end < len { end } else { len };
    (s, e)
}

/// The bytes of `text` inside `start..end`, after the range is cut to the text.
pub open spec fn spec_slice(text: Seq<u8>, start: int, end: int) -> Seq<u8> {
    let (s, e) = spec_clamp_range(text.len() as int, start, end);
    text.subrange(s, e)
}

pub proof fn lemma_line_start_bounds(text: Seq<u8>, offset: int)
    requires
        0 <= offset,
    ensures
        0 <= spec_line_start(text, offset) <= offset,
        spec_line_start(text, offset) <= text.len(),
    decreases offset,
{
    if offset > 0 && !(offset <= text.len() && text[offset - 1] == NEWLINE) {
        lemma_line_start_bounds(text, offset - 1);
    }
}

pub proof fn lemma_line_start_beyond(text: Seq<u8>, offset: int)
    requires
        offset >= text.len(),
    ensures
        spec_line_start(text, offset) == spec_line_start(text, text.len() as int),
    decreases offset,
{
    if offset > text.len() {
        lemma_line_start_beyond(text, offset - 1);
    }
}

pub proof fn lemma_line_end_bounds(text: Seq<u8>, offset: int)
    ensures
        spec_line_end(text, offset) <= text.len(),
        offset <= text.len() ==> offset <= spec_line_end(text, offset),
        0 <= offset < text.len() ==> offset < spec_line_end(text, offset),
    decreases text.len() - offset,
{
    if offset < text.len() && !(offset >= 0 && text[offset] == NEWLINE) {
        lemma_line_end_bounds(text, offset + 1);
    }
}

pub proof fn lemma_row_bounds(text: Seq<u8>, offset: int)
    ensures
        0 <= spec_row(text, offset),
        spec_row(text, offset) <= text.len(),
        0 <= offset ==> spec_row(text, offset) <= offset,
    decreases offset,
{
    if offset > 0 {
        lemma_row_bounds(text, offset - 1);
    }
}

pub proof fn lemma_row_beyond(text: Seq<u8>, offset: int)
    requires
        offset >= text.len(),
    ensures
        spec_row(text, offset) == spec_row(text, text.len() as int),
    decreases offset,
{
    if offset > text.len() {
        lemma_row_beyond(text, offset - 1);
    }
}

pub proof fn lemma_row_start_bounds(text: Seq<u8>, row: int)
    ensures
        0 <= spec_row_start(text, row) <= text.len(),
    decreases row,
{
    if row > 0 {
        lemma_row_start_bounds(text, row - 1);
        lemma_line_end_bounds(text, spec_row_start(text, row - 1));
    }
}

pub proof fn lemma_clip_left_bounds(text: Seq<u8>, offset: int)
    requires
        0 <= offset,
    ensures
        0 <= spec_clip_left(text, offset) <= offset,
        spec_clip_left(text, offset) <= text.len(),
    decreases offset,
{
    if 0 < offset < text.len() && spec_is_continuation(text[offset]) {
        lemma_clip_left_bounds(text, offset - 1);
    }
}

/// Start of the line that contains `offset`.
pub fn line_start(text: &[u8], offset: usize) -> (start: usize)
    ensures
        start == spec_line_start(text@, offset as int),
        start <= offset,
        start <= text.len(),
{
    let mut i: usize = if offset < text.len() { offset } else { text.len() };
    proof {
        lemma_line_start_bounds(text@, offset as int);
        if offset >= text.len() {
            lemma_line_start_beyond(text@, offset as int);
        }
    }
    while i > 0 && text[i - 1] != NEWLINE
        invariant
            i <= text.len(),
            i <= offset,
            spec_line_start(text@, i as int) == spec_line_start(text@, offset as int),
        decreases i,
    {
        i = i - 1;
    }
    i
}

/// End of the line that contains `offset`, its newline included.
pub fn line_end(text: &[u8], offset: usize) -> (end: usize)
    ensures
        end == spec_line_end(text@, offset as int),
        end <= text.len(),
        offset <= text.len() ==> offset <= end,
{
    proof {
        lemma_line_end_bounds(text@, offset as int);
    }
    let mut i: usize = offset;
    while i < text.len() && text[i] != NEWLINE
        invariant
            spec_line_end(text@, i as int) == spec_line_end(text@, offset as int),
        decreases text.len() - i,
    {
        i = i + 1;
    }
    if i < text.len() {
        i + 1
    } else {
        text.len()
    }
}

/// Row of `offset`: the number of newlines in front of it.
pub fn row_of(text: &[u8], offset: usize) -> (row: usize)
    ensures
        row == spec_row(text@, offset as int),
        row <= offset,
        row <= text.len(),
{
    let limit: usize = if offset < text.len() { offset } else { text.len() };
    proof {
        lemma_row_bounds(text@, offset as int);
        if offset >= text.len() {
            lemma_row_beyond(text@, offset as int);
        }
    }
    let mut i: usize = 0;
    let mut row: usize = 0;
    while i < limit
        invariant
            i <= limit <= text.len(),
            row == spec_row(text@, i as int),
            row <= i,
        decreases limit - i,
    {
        if text[i] == NEWLINE {
            row = row + 1;
        }
        i = i + 1;
    }
    row
}

/// Offset at which `row` starts; the end of the text for rows beyond the last one.
pub fn row_start(text: &[u8], row: usize) -> (start: usize)
    ensures
        start == spec_row_start(text@, row as int),
        start <= text.len(),
{
    let mut r: usize = 0;
    let mut start: usize = 0;
    while r < row && start < text.len()
        invariant
            r <= row,
            start <= text.len(),
            start == spec_row_start(text@, r as int),
        decreases row - r,
    {
        start = line_end(text, start);
        r = r + 1;
    }
    proof {
        lemma_row_start_at_end(text@, r as int, row as int);
    }
    start
}

/// Once a row starts at the end of the text, so does every later row.
pub proof fn lemma_row_start_at_end(text: Seq<u8>, r: int, row: int)
    requires
        r <= row,
        r < row ==> spec_row_start(text, r) >= text.len(),
    ensures
        spec_row_start(text, row) == spec_row_start(text, r),
    decreases row - r,
{
    if r < row {
        lemma_row_start_bounds(text, r);
        lemma_row_start_at_end(text, r, row - 1);
    }
}

/// The nearest position at or before `offset` that does not split a character.
pub fn clip_left(text: &[u8], offset: usize) -> (clipped: usize)
    ensures
        clipped == spec_clip_left(text@, offset as int),
        clipped <= offset,
        clipped <= text.len(),
{
    proof {
        lemma_clip_left_bounds(text@, offset as int);
    }
    let mut i: usize = offset;
    while i > 0 && i < text.len() && text[i] >= 128 && text[i] < 192
        invariant
            i <= offset,
            spec_clip_left(text@, i as int) == spec_clip_left(text@, offset as int),
        decreases i,
    {
        i = i - 1;
    }
    if i >= text.len() {
        text.len()
    } else {
        i
    }
}

/// `range` cut to a text of `len` bytes.
pub fn clamp_range(len: usize, range: &Range<usize>) -> (clamped: Range<usize>)
    ensures
        (clamped.start as int, clamped.end as int) == spec_clamp_range(
            len as int,
            range.start as int,
            range.end as int,
        ),
        clamped.start <= clamped.end <= len,
{
    let start: usize = if range.start < len { range.start } else { len };
    let end: usize = if range.end < start {
        start
    } else if range.end < len {
        range.end
    } else {
        len
    };
    Range { start, end }
}

/// Copies the bytes of `text` inside `range`, after the range is cut to the text.
pub fn slice_to_vec(text: &[u8], range: &Range<usize>) -> (bytes: Vec<u8>)
    ensures
        bytes@ == spec_slice(text@, range.start as int, range.end as int),
{
    let clamped = clamp_range(text.len(), range);
    let mut bytes: Vec<u8> = Vec::new();
    let mut i: usize = clamped.start;
    while i < clamped.end
        invariant
            clamped.start <= i <= clamped.end <= text.len(),
            bytes@ == text@.subrange(clamped.start as int, i as int),
        decreases clamped.end - i,
    {
        bytes.push(text[i]);
        i = i + 1;
    }
    bytes
}

/// Whether two byte strings hold the same bytes.
pub fn bytes_eq(a: &[u8], b: &[u8]) -> (equal: bool)
    ensures
        equal == (a@ == b@),
{
    if a.len() != b.len() {
        return false;
    }
    let mut i: usize = 0;
    while i < a.len()
        invariant
            i <= a.len(),
            a.len() == b.len(),
            a@.subrange(0, i as int) == b@.subrange(0, i as int),
        decreases a.len() - i,
    {
        if a[i] != b[i] {
            return false;
        }
        proof {
            assert(a@.subrange(0, i + 1) == a@.subrange(0, i as int).push(a@[i as int]));
            assert(b@.subrange(0, i + 1) == b@.subrange(0, i as int).push(b@[i as int]));
        }
        i = i + 1;
    }
    proof {
        assert(a@.subrange(0, a.len() as int) == a@);
        assert(b@.subrange(0, b.len() as int) == b@);
    }
    true
}

} // verus!
