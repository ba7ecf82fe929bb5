//! References: the identifiers that occur in an excerpt, each with the region of the
//! excerpt it stands in.

use crate::buffer::BufferSnapshot;
use crate::buffer::LanguageId;
use crate::declaration::Identifier;
use crate::declaration::IdentifierView;
use crate::excerpt::EditPredictionExcerpt;
use crate::text::clamp_range;
use crate::text::line_end;
use crate::text::line_start;
use crate::text::slice_to_vec;
use crate::text::spec_clamp_range;
use crate::text::spec_line_end;
use crate::text::spec_line_start;
use std::ops::Range;
use vstd::prelude::*;

verus! {

/// The part of an excerpt that a reference stands in.
#[derive(Clone, Copy, Debug, PartialEq, Eq, Structural)]
pub enum ReferenceRegion {
    /// Inside the signature of an enclosing declaration.
    Breadcrumb,
    /// On the cursor's line, one of the two lines before it or the line after it.
    Nearby,
    /// Elsewhere in the lines around the cursor.
    InBody,
}

/// One occurrence of an identifier.
#[derive(Clone, Debug)]
pub struct Reference {
    pub identifier: Identifier,
    pub range: Range<usize>,
    pub region: ReferenceRegion,
}

/// A reference as a value.
pub struct ReferenceView {
    pub identifier: IdentifierView,
    pub range: Range<usize>,
    pub region: ReferenceRegion,
}

impl View for Reference {
    type V = ReferenceView;

    open spec fn view(&self) -> ReferenceView {
        ReferenceView { identifier: self.identifier@, range: self.range, region: self.region }
    }
}

/// The references as values, in their order.
pub open spec fn spec_reference_views(references: Seq<Reference>) -> Seq<ReferenceView> {
    Seq::new(references.len(), |i: int| references[i]@)
}

/// The lines near the cursor: from the start of the second line before the cursor's
/// line to the end of the line after it. A cursor beyond the text counts as standing at
/// its end.
pub open spec fn spec_nearby_band(text: Seq<u8>, cursor: int) -> (int, int) {
    let at = if cursor < text.len() { cursor } else { text.len() as int };
    let line = spec_line_start(text, at);
    let one_before = spec_line_start(text, line - 1);
    let two_before = spec_line_start(text, one_before - 1);
    let end = spec_line_end(text, at);
    (two_before, spec_line_end(text, end))
}

/// Whether `start..end` lies inside one of the first `upto` ranges.
pub open spec fn spec_inside_any(ranges: Seq<Range<usize>>, start: int, end: int, upto: int) -> bool
    decreases upto,
{
    if upto <= 0 {
        false
    } else {
        spec_inside_any(ranges, start, end, upto - 1) || (upto <= ranges.len() && ranges[upto
            - 1].start <= start && end <= ranges[upto - 1].end)
    }
}

/// The region of a leaf that spans `start..end`, or nothing where the leaf lies outside
/// the excerpt and the lines near the cursor: a leaf inside a signature is a breadcrumb;
/// any other leaf inside the lines near the cursor is nearby; any other leaf inside the
/// excerpt's lines is in the body.
pub open spec fn spec_region(
    excerpt: EditPredictionExcerpt,
    band: (int, int),
    start: int,
    end: int,
) -> Option<ReferenceRegion> {
    if spec_inside_any(
        excerpt.parent_signature_ranges@,
        start,
        end,
        excerpt.parent_signature_ranges@.len() as int,
    ) {
        Some(ReferenceRegion::Breadcrumb)
    } else if band.0 <= start && end <= band.1 {
        Some(ReferenceRegion::Nearby)
    } else if excerpt.range.start <= start && end <= excerpt.range.end {
        Some(ReferenceRegion::InBody)
    } else {
        None
    }
}

/// The references that the first `upto` leaves give: one for every leaf that, cut to
/// the text, is not empty and has a region; in the order of the leaves, each occurrence
/// kept.
pub open spec fn spec_references(
    text: Seq<u8>,
    language_id: LanguageId,
    excerpt: EditPredictionExcerpt,
    cursor: int,
    leaves: Seq<Range<usize>>,
    upto: int,
) -> Seq<ReferenceView>
    decreases upto,
{
    if upto <= 0 {
        Seq::empty()
    } else {
        let rest = spec_references(text, language_id, excerpt, cursor, leaves, upto - 1);
        if upto > leaves.len() {
            rest
        } else {
            let (start, end) = spec_clamp_range(
                text.len() as int,
                leaves[upto - 1].start as int,
                leaves[upto - 1].end as int,
            );
            match spec_region(excerpt, spec_nearby_band(text, cursor), start, end) {
                Some(region) => if start < end {
                    rest.push(
                        ReferenceView {
                            identifier: IdentifierView {
                                name: text.subrange(start, end),
                                language_id,
                            },
                            range: Range { start: start as usize, end: end as usize },
                            region,
                        },
                    )
                } else {
                    rest
                },
                None => rest,
            }
        }
    }
}

/// The references are a function of what they are made from: excerpts with the same
/// lines and the same signatures give the same references for the same cursor, text
/// and leaves.
pub proof fn lemma_references_are_unique(
    text: Seq<u8>,
    language_id: LanguageId,
    first: EditPredictionExcerpt,
    second: EditPredictionExcerpt,
    cursor: int,
    leaves: Seq<Range<usize>>,
    upto: int,
)
    requires
        first.range == second.range,
        first.parent_signature_ranges@ == second.parent_signature_ranges@,
    ensures
        spec_references(text, language_id, first, cursor, leaves, upto) == spec_references(
            text,
            language_id,
            second,
            cursor,
            leaves,
            upto,
        ),
    decreases upto,
{
    if upto > 0 {
        lemma_references_are_unique(text, language_id, first, second, cursor, leaves, upto - 1);
    }
}

/// The lines near the cursor.
pub fn nearby_band(text: &[u8], cursor_offset: usize) -> (band: Range<usize>)
    ensures
        (band.start as int, band.end as int) == spec_nearby_band(text@, cursor_offset as int),
        band.start <= band.end <= text@.len(),
        cursor_offset <= text@.len() ==> band.start <= cursor_offset <= band.end,
{
    let at: usize = if cursor_offset < text.len() { cursor_offset } else { text.len() };
    let line = line_start(text, at);
    let one_before: usize = if line > 0 { line_start(text, line - 1) } else { 0 };
    let two_before: usize = if one_before > 0 { line_start(text, one_before - 1) } else { 0 };
    let end = line_end(text, at);
    let after = line_end(text, end);
    Range { start: two_before, end: after }
}

/// Whether `range` lies inside one of `ranges`.
pub fn inside_any(ranges: &Vec<Range<usize>>, range: &Range<usize>) -> (inside: bool)
    ensures
        inside == spec_inside_any(
            ranges@,
            range.start as int,
            range.end as int,
            ranges@.len() as int,
        ),
{
    let mut inside = false;
    let mut k: usize = 0;
    while k < ranges.len()
        invariant
            k <= ranges@.len(),
            inside == spec_inside_any(ranges@, range.start as int, range.end as int, k as int),
        decreases ranges@.len() - k,
    {
        if ranges[k].start <= range.start && range.end <= ranges[k].end {
            inside = true;
        }
        k = k + 1;
    }
    inside
}

/// The references of an excerpt of `snapshot` for a cursor at `cursor_offset`, given the
/// identifier leaves that the parser found, each by the bytes it spans.
pub fn references_in_excerpt(
    excerpt: &EditPredictionExcerpt,
    snapshot: &BufferSnapshot,
    cursor_offset: usize,
    leaves: &Vec<Range<usize>>,
) -> (references: Vec<Reference>)
    ensures
        spec_reference_views(references@) == spec_references(
            snapshot.spec_text(),
            snapshot.spec_language_id(),
            *excerpt,
            cursor_offset as int,
            leaves@,
            leaves@.len() as int,
        ),
{
    let text = snapshot.text();
    let language_id = snapshot.language_id();
    let band = nearby_band(text, cursor_offset);
    let mut references: Vec<Reference> = Vec::new();
    let mut i: usize = 0;
    while i < leaves.len()
        invariant
            i <= leaves@.len(),
            text@ == snapshot.spec_text(),
            language_id == snapshot.spec_language_id(),
            (band.start as int, band.end as int) == spec_nearby_band(text@, cursor_offset as int),
            spec_reference_views(references@) == spec_references(
                text@,
                language_id,
                *excerpt,
                cursor_offset as int,
                leaves@,
                i as int,
            ),
        decreases leaves@.len() - i,
    {
        let ghost before = references@;
        let leaf = clamp_range(text.len(), &leaves[i]);
        let region = if inside_any(&excerpt.parent_signature_ranges, &leaf) {
            Some(ReferenceRegion::Breadcrumb)
        } else if band.start <= leaf.start && leaf.end <= band.end {
            Some(ReferenceRegion::Nearby)
        } else if excerpt.range.start <= leaf.start && leaf.end <= excerpt.range.end {
            Some(ReferenceRegion::InBody)
        } else {
            None
        };
        match region {
            Some(region) => {
                if leaf.start < leaf.end {
                    let name = slice_to_vec(text, &leaf);
                    references.push(
                        Reference {
                            identifier: Identifier { name, language_id },
                            range: leaf,
                            region,
                        },
                    );
                    proof {
                        assert(spec_reference_views(references@) == spec_reference_views(
                            before,
                        ).push(references@[before.len() as int]@));
                    }
                }
            },
            None => {},
        }
        i = i + 1;
    }
    references
}

} // verus!
