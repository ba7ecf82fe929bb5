//! Choice of the excerpt around the cursor: a run of whole lines that holds the
//! cursor's line and stays within a budget of bytes, and the signatures of the
//! declarations that enclose the cursor as far as the budget still has room for them.

use crate::buffer::BufferSnapshot;
use crate::outline::OutlineDeclaration;
use crate::text::clamp_range;
use crate::text::line_end;
use crate::text::line_start;
use crate::text::slice_to_vec;
use crate::text::spec_clamp_range;
use crate::text::spec_line_end;
use crate::text::spec_line_start;
use crate::text::spec_slice;
use std::ops::Range;
use vstd::prelude::*;

verus! {

/// A share, as a fraction of two whole numbers.
#[derive(Clone, Copy, Debug, PartialEq, Eq)]
pub struct Fraction {
    pub numerator: u32,
    pub denominator: u32,
}

/// How the excerpt is to be chosen.
#[derive(Clone, Copy, Debug, PartialEq, Eq)]
pub struct EditPredictionExcerptOptions {
    /// Most bytes that the excerpt, signatures included, may hold.
    pub max_bytes: usize,
    /// Fewest bytes that the lines around the cursor must come to.
    pub min_bytes: usize,
    /// The share of those lines' bytes that should stand in front of the cursor.
    pub target_before_cursor_over_total_bytes: Fraction,
    /// Whether the signatures of enclosing declarations are added.
    pub include_parent_signatures: bool,
}

/// Why no excerpt was chosen.
#[derive(Clone, Copy, Debug, PartialEq, Eq)]
pub enum ExcerptError {
    /// The lines around the cursor do not fit the window: the cursor's line alone is
    /// longer than the budget, or all that fits is shorter than the minimum.
    WindowTooSmall,
}

/// The excerpt around a cursor.
#[derive(Clone, Debug)]
pub struct EditPredictionExcerpt {
    /// The lines around the cursor.
    pub range: Range<usize>,
    /// The signatures of enclosing declarations, outermost first.
    pub parent_signature_ranges: Vec<Range<usize>>,
    /// Bytes of `range` and of all signatures together.
    pub size: usize,
}

/// The text of an excerpt.
#[derive(Clone, Debug)]
pub struct EditPredictionExcerptText {
    pub body: Vec<u8>,
    pub parent_signatures: Vec<Vec<u8>>,
}

/// Whether the lines `start..end` hold too small a share of their bytes in front of the
/// cursor, measured against the target.
pub open spec fn spec_prefers_before(cursor: int, start: int, end: int, target: Fraction) -> bool {
    (cursor - start) * target.denominator < target.numerator * (end - start)
}

/// The lines `start..end` grown as far as `max_bytes` allows, one line at a time. Where
/// a line can be added on both sides, the side is taken that brings the share of bytes
/// in front of the cursor nearer to the target; where only one side has a line that
/// still fits, that line is added; growth ends where neither side has one.
pub open spec fn spec_grow(
    text: Seq<u8>,
    cursor: int,
    max_bytes: int,
    target: Fraction,
    start: int,
    end: int,
) -> (int, int)
    decreases text.len() - (end - start),
    via spec_grow_terminates
{
    if !(0 <= start <= end <= text.len()) {
        (start, end)
    } else {
        let previous = spec_line_start(text, start - 1);
        let next = spec_line_end(text, end);
        let fits_before = start > 0 && end - previous <= max_bytes;
        let fits_after = end < text.len() && next - start <= max_bytes;
        if fits_before && (!fits_after || spec_prefers_before(cursor, start, end, target)) {
            spec_grow(text, cursor, max_bytes, target, previous, end)
        } else if fits_after {
            spec_grow(text, cursor, max_bytes, target, start, next)
        } else {
            (start, end)
        }
    }
}

#[via_fn]
proof fn spec_grow_terminates(
    text: Seq<u8>,
    cursor: int,
    max_bytes: int,
    target: Fraction,
    start: int,
    end: int,
) {
    if 0 <= start <= end <= text.len() {
        if start > 0 {
            crate::text::lemma_line_start_bounds(text, start - 1);
        }
        crate::text::lemma_line_end_bounds(text, end);
    }
}

/// The lines around the cursor that are chosen, or nothing where they do not fit: the
/// cursor's line, grown as `spec_grow` says. Nothing is chosen where the cursor's line
/// alone is longer than `max_bytes`, or where all that fits is shorter than `min_bytes`.
/// A cursor beyond the text counts as standing at its end.
pub open spec fn spec_select_range(
    text: Seq<u8>,
    cursor: int,
    options: EditPredictionExcerptOptions,
) -> Option<(int, int)> {
    let at = if cursor < text.len() { cursor } else { text.len() as int };
    let start = spec_line_start(text, at);
    let end = spec_line_end(text, at);
    if end - start > options.max_bytes {
        None
    } else {
        let (first, last) = spec_grow(
            text,
            at,
            options.max_bytes as int,
            options.target_before_cursor_over_total_bytes,
            start,
            end,
        );
        if last - first < options.min_bytes {
            None
        } else {
            Some((first, last))
        }
    }
}

/// A position where a line starts: the start of the text or directly behind a newline.
pub open spec fn spec_is_line_start(text: Seq<u8>, offset: int) -> bool {
    offset == 0 || (0 < offset <= text.len() && text[offset - 1] == crate::text::NEWLINE)
}

/// A position where a line ends: the end of the text or directly behind a newline.
pub open spec fn spec_is_line_end(text: Seq<u8>, offset: int) -> bool {
    offset == text.len() || (0 < offset <= text.len() && text[offset - 1]
        == crate::text::NEWLINE)
}

pub proof fn lemma_line_start_is_line_start(text: Seq<u8>, offset: int)
    requires
        0 <= offset,
    ensures
        spec_is_line_start(text, spec_line_start(text, offset)),
    decreases offset,
{
    if offset > 0 && !(offset <= text.len() && text[offset - 1] == crate::text::NEWLINE) {
        lemma_line_start_is_line_start(text, offset - 1);
    }
}

pub proof fn lemma_line_end_is_line_end(text: Seq<u8>, offset: int)
    requires
        0 <= offset,
    ensures
        spec_is_line_end(text, spec_line_end(text, offset)),
    decreases text.len() - offset,
{
    if offset < text.len() && text[offset] != crate::text::NEWLINE {
        lemma_line_end_is_line_end(text, offset + 1);
    }
}

/// Growth keeps what it starts from: whole lines around the cursor within the budget.
pub proof fn lemma_grow(
    text: Seq<u8>,
    cursor: int,
    max_bytes: int,
    target: Fraction,
    start: int,
    end: int,
)
    requires
        0 <= start <= cursor <= end <= text.len(),
        end - start <= max_bytes,
        spec_is_line_start(text, start),
        spec_is_line_end(text, end),
    ensures
        ({
            let (first, last) = spec_grow(text, cursor, max_bytes, target, start, end);
            &&& 0 <= first <= start
            &&& end <= last <= text.len()
            &&& last - first <= max_bytes
            &&& spec_is_line_start(text, first)
            &&& spec_is_line_end(text, last)
            &&& first > 0 ==> last - spec_line_start(text, first - 1) > max_bytes
            &&& last < text.len() ==> spec_line_end(text, last) - first > max_bytes
        }),
    decreases text.len() - (end - start),
{
    let previous = spec_line_start(text, start - 1);
    let next = spec_line_end(text, end);
    if start > 0 {
        crate::text::lemma_line_start_bounds(text, start - 1);
        lemma_line_start_is_line_start(text, start - 1);
    }
    crate::text::lemma_line_end_bounds(text, end);
    lemma_line_end_is_line_end(text, end);
    let fits_before = start > 0 && end - previous <= max_bytes;
    let fits_after = end < text.len() && next - start <= max_bytes;
    if fits_before && (!fits_after || spec_prefers_before(cursor, start, end, target)) {
        lemma_grow(text, cursor, max_bytes, target, previous, end);
    } else if fits_after {
        lemma_grow(text, cursor, max_bytes, target, start, next);
    }
}

/// What holds of every range that is chosen: it is made of whole lines, holds the
/// cursor, stays within `max_bytes` and reaches `min_bytes`, and no further line fits
/// on either side. A cursor's line that is longer than `max_bytes` is never cut: then
/// nothing is chosen.
pub proof fn lemma_select_range(text: Seq<u8>, cursor: int, options: EditPredictionExcerptOptions)
    requires
        0 <= cursor,
    ensures
        ({
            let at = if cursor < text.len() { cursor } else { text.len() as int };
            &&& spec_line_end(text, at) - spec_line_start(text, at) > options.max_bytes
                ==> spec_select_range(text, cursor, options).is_none()
            &&& match spec_select_range(text, cursor, options) {
                Some((first, last)) => {
                    &&& 0 <= first <= spec_line_start(text, at) <= at
                    &&& at <= spec_line_end(text, at) <= last <= text.len()
                    &&& options.min_bytes <= last - first <= options.max_bytes
                    &&& spec_is_line_start(text, first)
                    &&& spec_is_line_end(text, last)
                    &&& first > 0 ==> last - spec_line_start(text, first - 1) > options.max_bytes
                    &&& last < text.len() ==> spec_line_end(text, last) - first
                        > options.max_bytes
                },
                None => true,
            }
        }),
{
    let at = if cursor < text.len() { cursor } else { text.len() as int };
    let start = spec_line_start(text, at);
    let end = spec_line_end(text, at);
    crate::text::lemma_line_start_bounds(text, at);
    crate::text::lemma_line_end_bounds(text, at);
    lemma_line_start_is_line_start(text, at);
    lemma_line_end_is_line_end(text, at);
    if end - start <= options.max_bytes {
        lemma_grow(
            text,
            at,
            options.max_bytes as int,
            options.target_before_cursor_over_total_bytes,
            start,
            end,
        );
    }
}

/// The chosen lines stay within `max_bytes` of the cursor on either side: what lies
/// farther from the cursor than that shares no byte with them.
pub proof fn lemma_select_range_is_near(
    text: Seq<u8>,
    cursor: int,
    options: EditPredictionExcerptOptions,
)
    requires
        0 <= cursor,
    ensures
        ({
            let at = if cursor < text.len() { cursor } else { text.len() as int };
            match spec_select_range(text, cursor, options) {
                Some((first, last)) => at - options.max_bytes <= first && last <= at
                    + options.max_bytes,
                None => true,
            }
        }),
{
    lemma_select_range(text, cursor, options);
}

/// Whether the signature of `entry` is wanted beside the lines `start..end`: the entry
/// encloses the cursor, and its signature, cut to the text, does not lie inside those
/// lines already.
pub open spec fn spec_is_breadcrumb(
    entry: OutlineDeclaration,
    len: int,
    cursor: int,
    start: int,
    end: int,
) -> bool {
    let (signature_start, signature_end) = spec_clamp_range(
        len,
        entry.signature_range.start as int,
        entry.signature_range.end as int,
    );
    &&& entry.item_range.start <= cursor <= entry.item_range.end
    &&& !(start <= signature_start && signature_end <= end)
}

/// The signatures that are wanted among the first `upto` entries of the outline, each
/// cut to the text, in the outline's order.
pub open spec fn spec_breadcrumb_candidates(
    outline: Seq<OutlineDeclaration>,
    len: int,
    cursor: int,
    start: int,
    end: int,
    upto: int,
) -> Seq<Range<usize>>
    decreases upto,
{
    if upto <= 0 {
        Seq::empty()
    } else {
        let rest = spec_breadcrumb_candidates(outline, len, cursor, start, end, upto - 1);
        if upto <= outline.len() && spec_is_breadcrumb(outline[upto - 1], len, cursor, start, end) {
            let (signature_start, signature_end) = spec_clamp_range(
                len,
                outline[upto - 1].signature_range.start as int,
                outline[upto - 1].signature_range.end as int,
            );
            rest.push(Range { start: signature_start as usize, end: signature_end as usize })
        } else {
            rest
        }
    }
}

/// Bytes of the ranges from place `from` on, together.
pub open spec fn spec_total_size(ranges: Seq<Range<usize>>, from: int) -> int
    decreases ranges.len() - from,
{
    if from < 0 || from >= ranges.len() {
        0
    } else {
        (ranges[from].end - ranges[from].start) + spec_total_size(ranges, from + 1)
    }
}

/// The place from which on the ranges are kept, given that those from `from` on are
/// kept and `budget` bytes are left: ranges are added from the last towards the first
/// for as long as the next one fits.
pub open spec fn spec_kept_from(ranges: Seq<Range<usize>>, budget: int, from: int) -> int
    decreases from,
{
    if from <= 0 || from > ranges.len() {
        from
    } else {
        let size = ranges[from - 1].end - ranges[from - 1].start;
        if size <= budget {
            spec_kept_from(ranges, budget - size, from - 1)
        } else {
            from
        }
    }
}

/// The signatures that go with the lines `start..end`: of those that are wanted, the
/// innermost ones that fit into what `max_bytes` leaves, outermost first. The outermost
/// are the first to be left out.
pub open spec fn spec_breadcrumbs(
    outline: Seq<OutlineDeclaration>,
    len: int,
    cursor: int,
    start: int,
    end: int,
    max_bytes: int,
) -> Seq<Range<usize>> {
    let candidates = spec_breadcrumb_candidates(
        outline,
        len,
        cursor,
        start,
        end,
        outline.len() as int,
    );
    let from = spec_kept_from(candidates, max_bytes - (end - start), candidates.len() as int);
    candidates.subrange(from, candidates.len() as int)
}

pub proof fn lemma_breadcrumb_candidates(
    outline: Seq<OutlineDeclaration>,
    len: int,
    cursor: int,
    start: int,
    end: int,
    upto: int,
)
    requires
        0 <= len <= usize::MAX,
        0 <= upto <= outline.len(),
    ensures
        spec_breadcrumb_candidates(outline, len, cursor, start, end, upto).len() <= upto,
        forall|k: int|
            0 <= k < spec_breadcrumb_candidates(outline, len, cursor, start, end, upto).len()
                ==> (#[trigger] spec_breadcrumb_candidates(
                outline,
                len,
                cursor,
                start,
                end,
                upto,
            )[k]).start <= spec_breadcrumb_candidates(outline, len, cursor, start, end, upto)[k].end
                <= len,
    decreases upto,
{
    if upto > 0 {
        lemma_breadcrumb_candidates(outline, len, cursor, start, end, upto - 1);
    }
}

/// The kept ranges fit the budget, and the range in front of them, if there is one,
/// would not.
pub proof fn lemma_kept_from(ranges: Seq<Range<usize>>, budget: int, from: int)
    requires
        0 <= from <= ranges.len(),
        0 <= budget,
        forall|k: int| 0 <= k < ranges.len() ==> (#[trigger] ranges[k]).start <= ranges[k].end,
    ensures
        ({
            let kept = spec_kept_from(ranges, budget, from);
            &&& 0 <= kept <= from
            &&& spec_total_size(ranges, kept) - spec_total_size(ranges, from) <= budget
            &&& spec_total_size(ranges, kept) >= spec_total_size(ranges, from) >= 0
            &&& kept > 0 ==> spec_total_size(ranges, kept - 1) - spec_total_size(ranges, from)
                > budget
        }),
    decreases from,
{
    lemma_total_size_nonnegative(ranges, from);
    if from > 0 {
        let size = ranges[from - 1].end - ranges[from - 1].start;
        if size <= budget {
            lemma_kept_from(ranges, budget - size, from - 1);
        }
    }
}

pub proof fn lemma_total_size_nonnegative(ranges: Seq<Range<usize>>, from: int)
    requires
        forall|k: int| 0 <= k < ranges.len() ==> (#[trigger] ranges[k]).start <= ranges[k].end,
    ensures
        spec_total_size(ranges, from) >= 0,
    decreases ranges.len() - from,
{
    if 0 <= from < ranges.len() {
        lemma_total_size_nonnegative(ranges, from + 1);
    }
}

/// The choice is a function of what it is made from: two excerpts for the same cursor
/// in the same text, with the same outline and options, have the same lines, the same
/// signatures and the same size.
pub proof fn lemma_selection_is_unique(
    first: EditPredictionExcerpt,
    second: EditPredictionExcerpt,
    text: Seq<u8>,
    cursor: int,
    outline: Seq<OutlineDeclaration>,
    options: EditPredictionExcerptOptions,
)
    requires
        first.spec_is_selection(text, cursor, outline, options),
        second.spec_is_selection(text, cursor, outline, options),
    ensures
        first.range == second.range,
        first.parent_signature_ranges@ == second.parent_signature_ranges@,
        first.size == second.size,
{
}

impl EditPredictionExcerpt {
    /// Whether this is the excerpt for the cursor in `text`: the chosen lines, the
    /// signatures that go with them where they are asked for, and the size of both.
    pub open spec fn spec_is_selection(
        &self,
        text: Seq<u8>,
        cursor: int,
        outline: Seq<OutlineDeclaration>,
        options: EditPredictionExcerptOptions,
    ) -> bool {
        let at = if cursor < text.len() { cursor } else { text.len() as int };
        &&& spec_select_range(text, cursor, options) == Some(
            (self.range.start as int, self.range.end as int),
        )
        &&& self.parent_signature_ranges@ == if options.include_parent_signatures {
            spec_breadcrumbs(
                outline,
                text.len() as int,
                at,
                self.range.start as int,
                self.range.end as int,
                options.max_bytes as int,
            )
        } else {
            Seq::empty()
        }
        &&& self.size == (self.range.end - self.range.start) + spec_total_size(
            self.parent_signature_ranges@,
            0,
        )
    }

    /// Chooses the excerpt for a cursor at byte `cursor_offset` of `snapshot`, whose
    /// outline is `outline`.
    pub fn select_from_buffer(
        cursor_offset: usize,
        snapshot: &BufferSnapshot,
        outline: &Vec<OutlineDeclaration>,
        options: &EditPredictionExcerptOptions,
    ) -> (result: Result<EditPredictionExcerpt, ExcerptError>)
        ensures
            match result {
                Ok(excerpt) => {
                    &&& excerpt.spec_is_selection(
                        snapshot.spec_text(),
                        cursor_offset as int,
                        outline@,
                        *options,
                    )
                    &&& excerpt.range.start <= excerpt.range.end <= snapshot.spec_text().len()
                    &&& options.min_bytes <= excerpt.range.end - excerpt.range.start
                    &&& excerpt.range.end - excerpt.range.start <= excerpt.size <= options.max_bytes
                    &&& cursor_offset <= snapshot.spec_text().len() ==> excerpt.range.start
                        <= cursor_offset <= excerpt.range.end
                },
                Err(error) => {
                    &&& error == ExcerptError::WindowTooSmall
                    &&& spec_select_range(snapshot.spec_text(), cursor_offset as int, *options)
                        .is_none()
                },
            },
    {
        select_in_text(cursor_offset, snapshot.text(), outline, options)
    }

    /// The text of the excerpt in `snapshot`: that of its lines and that of each
    /// signature, every range cut to the text.
    pub fn text(&self, snapshot: &BufferSnapshot) -> (text: EditPredictionExcerptText)
        ensures
            text.body@ == spec_slice(
                snapshot.spec_text(),
                self.range.start as int,
                self.range.end as int,
            ),
            text.parent_signatures@.len() == self.parent_signature_ranges@.len(),
            forall|k: int|
                0 <= k < self.parent_signature_ranges@.len() ==> (
                #[trigger] text.parent_signatures@[k])@ == spec_slice(
                    snapshot.spec_text(),
                    self.parent_signature_ranges@[k].start as int,
                    self.parent_signature_ranges@[k].end as int,
                ),
    {
        let body = slice_to_vec(snapshot.text(), &self.range);
        let mut parent_signatures: Vec<Vec<u8>> = Vec::new();
        let mut k: usize = 0;
        while k < self.parent_signature_ranges.len()
            invariant
                k <= self.parent_signature_ranges@.len(),
                parent_signatures@.len() == k,
                forall|j: int|
                    0 <= j < k ==> (#[trigger] parent_signatures@[j])@ == spec_slice(
                        snapshot.spec_text(),
                        self.parent_signature_ranges@[j].start as int,
                        self.parent_signature_ranges@[j].end as int,
                    ),
            decreases self.parent_signature_ranges@.len() - k,
        {
            parent_signatures.push(slice_to_vec(snapshot.text(), &self.parent_signature_ranges[k]));
            k = k + 1;
        }
        EditPredictionExcerptText { body, parent_signatures }
    }
}

/// Chooses the excerpt for a cursor at byte `cursor_offset` of `text`, whose outline is
/// `outline`.
pub fn select_in_text(
    cursor_offset: usize,
    text: &[u8],
    outline: &Vec<OutlineDeclaration>,
    options: &EditPredictionExcerptOptions,
) -> (result: Result<EditPredictionExcerpt, ExcerptError>)
    ensures
        match result {
            Ok(excerpt) => {
                &&& excerpt.spec_is_selection(text@, cursor_offset as int, outline@, *options)
                &&& excerpt.range.start <= excerpt.range.end <= text@.len()
                &&& options.min_bytes <= excerpt.range.end - excerpt.range.start
                &&& excerpt.range.end - excerpt.range.start <= excerpt.size <= options.max_bytes
                &&& cursor_offset <= text@.len() ==> excerpt.range.start <= cursor_offset
                    <= excerpt.range.end
            },
            Err(error) => {
                &&& error == ExcerptError::WindowTooSmall
                &&& spec_select_range(text@, cursor_offset as int, *options).is_none()
            },
        },
{
    let len: usize = text.len();
    let at: usize = if cursor_offset < len { cursor_offset } else { len };
    let max_bytes: usize = options.max_bytes;
    let target = options.target_before_cursor_over_total_bytes;
    let mut start: usize = line_start(text, at);
    let mut end: usize = line_end(text, at);
    proof {
        lemma_select_range(text@, cursor_offset as int, *options);
        crate::text::lemma_line_start_bounds(text@, at as int);
        crate::text::lemma_line_end_bounds(text@, at as int);
        lemma_line_start_is_line_start(text@, at as int);
        lemma_line_end_is_line_end(text@, at as int);
    }
    if end - start > max_bytes {
        return Err(ExcerptError::WindowTooSmall);
    }
    let ghost first_start = start as int;
    let ghost first_end = end as int;
    loop
        invariant
            len == text@.len(),
            start <= at <= end <= len,
            end - start <= max_bytes,
            spec_is_line_start(text@, start as int),
            spec_is_line_end(text@, end as int),
            spec_grow(text@, at as int, max_bytes as int, target, start as int, end as int)
                == spec_grow(text@, at as int, max_bytes as int, target, first_start, first_end),
        ensures
            start <= at <= end <= len,
            (start as int, end as int) == spec_grow(
                text@,
                at as int,
                max_bytes as int,
                target,
                first_start,
                first_end,
            ),
        decreases len - (end - start),
    {
        let previous: usize = if start > 0 { line_start(text, start - 1) } else { 0 };
        let next: usize = line_end(text, end);
        proof {
            crate::text::lemma_line_end_bounds(text@, end as int);
            lemma_line_end_is_line_end(text@, end as int);
            if start > 0 {
                crate::text::lemma_line_start_bounds(text@, start - 1);
                lemma_line_start_is_line_start(text@, start - 1);
            }
        }
        let fits_before = start > 0 && end - previous <= max_bytes;
        let fits_after = end < len && next - start <= max_bytes;
        let before: u128 = (at - start) as u128;
        let total: u128 = (end - start) as u128;
        let denominator: u128 = target.denominator as u128;
        let numerator: u128 = target.numerator as u128;
        assert(before * denominator <= 0x1_0000_0000_0000_0000 * 0x1_0000_0000) by (nonlinear_arith)
            requires
                before <= 0x1_0000_0000_0000_0000,
                denominator <= 0x1_0000_0000,
        ;
        assert(numerator * total <= 0x1_0000_0000 * 0x1_0000_0000_0000_0000) by (nonlinear_arith)
            requires
                total <= 0x1_0000_0000_0000_0000,
                numerator <= 0x1_0000_0000,
        ;
        let prefers_before = before * denominator < numerator * total;
        if fits_before && (!fits_after || prefers_before) {
            start = previous;
        } else if fits_after {
            end = next;
        } else {
            break ;
        }
    }
    if end - start < options.min_bytes {
        return Err(ExcerptError::WindowTooSmall);
    }
    let mut parent_signature_ranges: Vec<Range<usize>> = Vec::new();
    let mut size: usize = end - start;
    if options.include_parent_signatures {
        let mut candidates: Vec<Range<usize>> = Vec::new();
        let mut i: usize = 0;
        while i < outline.len()
            invariant
                i <= outline@.len(),
                len == text@.len(),
                candidates@ == spec_breadcrumb_candidates(
                    outline@,
                    len as int,
                    at as int,
                    start as int,
                    end as int,
                    i as int,
                ),
            decreases outline@.len() - i,
        {
            let entry = &outline[i];
            let signature = clamp_range(len, &entry.signature_range);
            let encloses = entry.item_range.start <= at && at <= entry.item_range.end;
            let covered = start <= signature.start && signature.end <= end;
            if encloses && !covered {
                candidates.push(signature);
            }
            i = i + 1;
        }
        proof {
            lemma_breadcrumb_candidates(
                outline@,
                len as int,
                at as int,
                start as int,
                end as int,
                outline@.len() as int,
            );
            lemma_kept_from(candidates@, max_bytes - (end - start), candidates@.len() as int);
        }
        let mut from: usize = candidates.len();
        let mut budget: usize = max_bytes - (end - start);
        while from > 0 && candidates[from - 1].end - candidates[from - 1].start <= budget
            invariant
                from <= candidates@.len(),
                forall|k: int|
                    0 <= k < candidates@.len() ==> (#[trigger] candidates@[k]).start
                        <= candidates@[k].end,
                spec_kept_from(candidates@, budget as int, from as int) == spec_kept_from(
                    candidates@,
                    max_bytes - (end - start),
                    candidates@.len() as int,
                ),
                budget + spec_total_size(candidates@, from as int) == max_bytes - (end - start),
            decreases from,
        {
            budget = budget - (candidates[from - 1].end - candidates[from - 1].start);
            from = from - 1;
        }
        let ghost kept_from = from as int;
        size = max_bytes - budget;
        let mut k: usize = from;
        while k < candidates.len()
            invariant
                from <= k <= candidates@.len(),
                parent_signature_ranges@ == candidates@.subrange(from as int, k as int),
            decreases candidates@.len() - k,
        {
            let range = Range { start: candidates[k].start, end: candidates[k].end };
            parent_signature_ranges.push(range);
            k = k + 1;
        }
        proof {
            lemma_total_size_of_suffix(candidates@, from as int);
        }
    }
    Ok(EditPredictionExcerpt { range: Range { start, end }, parent_signature_ranges, size })
}

/// The ranges from a place on come to the same size whether they are counted in the
/// whole list or on their own.
pub proof fn lemma_total_size_of_suffix(ranges: Seq<Range<usize>>, from: int)
    requires
        0 <= from <= ranges.len(),
    ensures
        spec_total_size(ranges.subrange(from, ranges.len() as int), 0) == spec_total_size(
            ranges,
            from,
        ),
{
    lemma_total_size_shift(ranges, from, 0);
}

proof fn lemma_total_size_shift(ranges: Seq<Range<usize>>, from: int, k: int)
    requires
        0 <= from <= ranges.len(),
        0 <= k <= ranges.len() - from,
    ensures
        spec_total_size(ranges.subrange(from, ranges.len() as int), k) == spec_total_size(
            ranges,
            from + k,
        ),
    decreases ranges.len() - from - k,
{
    if k < ranges.len() - from {
        lemma_total_size_shift(ranges, from, k + 1);
    }
}

} // verus!
