//! Scoring of declarations: for every identifier that an excerpt refers to, the
//! declarations that the index holds for it, each with the signals that speak for it
//! and the two scores that follow from them.
//!
//! Scores are whole numbers of millionths: the exact value of the formula, times one
//! million, rounded down.

use crate::buffer::BufferSnapshot;
use crate::buffer::BufferStore;
use crate::declaration::Declaration;
use crate::declaration::Identifier;
use crate::declaration::IdentifierView;
use crate::excerpt::EditPredictionExcerpt;
use crate::excerpt::EditPredictionExcerptText;
use crate::reference::nearby_band;
use crate::reference::spec_nearby_band;
use crate::reference::spec_reference_views;
use crate::reference::Reference;
use crate::reference::ReferenceRegion;
use crate::reference::ReferenceView;
use crate::range::spec_range_intersection;
use crate::ranking::rank;
use crate::ranking::spec_ranked;
use crate::syntax_index::spec_count_from;
use crate::syntax_index::spec_declarations_for;
use crate::syntax_index::spec_source;
use crate::syntax_index::IndexEntry;
use crate::syntax_index::SyntaxIndex;
use crate::text::row_of;
use crate::text::slice_to_vec;
use crate::text::spec_row;
use crate::text::spec_slice;
use crate::text_similarity::jaccard_similarity;
use crate::text_similarity::spec_is_jaccard;
use crate::text_similarity::spec_is_weighted_overlap;
use crate::text_similarity::spec_jaccard_denominator;
use crate::text_similarity::spec_jaccard_numerator;
use crate::text_similarity::spec_occurrences;
use crate::text_similarity::spec_weighted_overlap_denominator;
use crate::text_similarity::spec_weighted_overlap_numerator;
use crate::text_similarity::weighted_overlap_coefficient;
use crate::text_similarity::IdentifierOccurrences;
use crate::text_similarity::Ratio;
pub use crate::range::range_intersection;
use std::ops::Range;
use vstd::multiset::Multiset;
use vstd::prelude::*;

verus! {

/// The form in which a declaration is shown.
#[derive(Clone, Copy, Debug, PartialEq, Eq, Hash, Structural)]
pub enum SnippetStyle {
    /// The signature alone.
    Signature,
    /// The whole declaration.
    Declaration,
}

/// The signals on which a declaration is scored.
#[derive(Clone, Copy, Debug, PartialEq, Eq)]
pub struct ScoreInputs {
    pub is_same_file: bool,
    pub is_referenced_nearby: bool,
    pub is_referenced_in_breadcrumb: bool,
    pub reference_count: usize,
    pub same_file_declaration_count: usize,
    pub declaration_count: usize,
    /// Fewest lines between the cursor and a reference to the name.
    pub reference_line_distance: usize,
    /// Lines between the cursor and the declaration, for a declaration of the cursor's
    /// file; 0 for any other.
    pub declaration_line_distance: usize,
    /// Place of the declaration among the candidates of the cursor's file, nearest
    /// first; 0 for a declaration of another file.
    pub declaration_line_distance_rank: usize,
    pub containing_range_vs_item_jaccard: Ratio,
    pub containing_range_vs_signature_jaccard: Ratio,
    pub adjacent_vs_item_jaccard: Ratio,
    pub adjacent_vs_signature_jaccard: Ratio,
    pub containing_range_vs_item_weighted_overlap: Ratio,
    pub containing_range_vs_signature_weighted_overlap: Ratio,
    pub adjacent_vs_item_weighted_overlap: Ratio,
    pub adjacent_vs_signature_weighted_overlap: Ratio,
}

/// The two scores of a declaration, in millionths.
#[derive(Clone, Copy, Debug, PartialEq, Eq)]
pub struct Scores {
    pub signature: u64,
    pub declaration: u64,
}

/// A declaration with its scores and the signals they rest on.
#[derive(Clone, Debug)]
pub struct ScoredSnippet<'a> {
    pub identifier: Identifier,
    pub declaration: &'a Declaration,
    pub score_components: ScoreInputs,
    pub scores: Scores,
}

/// One million: the scale of the scores.
pub const SCORE_SCALE: u64 = 1_000_000;

/// What accuracy times distance is multiplied by.
pub const COMBINED_SCORE_FACTOR: u64 = 10;

/// What the score of a whole declaration is multiplied by, over that of a signature.
pub const DECLARATION_SCORE_BOOST: u64 = 2;

/// What a declaration's accuracy is divided by where it stands in the cursor's file:
/// such a declaration starts from one half.
pub const SAME_FILE_ACCURACY_DIVISOR: usize = 2;

/// The number of lines at which the distance score has fallen to a quarter.
pub const DISTANCE_SCALE: usize = 10;

/// What the distance score of a name is divided by that is not referenced near the
/// cursor: such a name scores one half, about what a reference 14 lines away scores, so
/// that references from enclosing signatures are not held to be far away.
pub const FAR_DISTANCE_DIVISOR: u64 = 2;

impl ScoreInputs {
    /// The two measures that the scores use are at most 1, and their parts are counts
    /// of tokens of a text.
    pub open spec fn spec_is_valid(&self) -> bool {
        &&& self.containing_range_vs_item_weighted_overlap.numerator
            <= self.containing_range_vs_item_weighted_overlap.denominator <= usize::MAX
        &&& self.containing_range_vs_signature_weighted_overlap.numerator
            <= self.containing_range_vs_signature_weighted_overlap.denominator <= usize::MAX
    }

    /// Whether the eight measures are those of the given token tables, each part of
    /// each fraction the count itself: of the excerpt's tokens (`containing`) and of
    /// the tokens near the cursor (`adjacent`), each against the tokens of the
    /// candidate's text (`item`) and of its signature (`signature`).
    pub open spec fn spec_measures(
        &self,
        containing: Multiset<Seq<u8>>,
        adjacent: Multiset<Seq<u8>>,
        item: Multiset<Seq<u8>>,
        signature: Multiset<Seq<u8>>,
    ) -> bool {
        &&& spec_is_jaccard(self.containing_range_vs_item_jaccard, containing, item)
        &&& spec_is_jaccard(self.containing_range_vs_signature_jaccard, containing, signature)
        &&& spec_is_jaccard(self.adjacent_vs_item_jaccard, adjacent, item)
        &&& spec_is_jaccard(self.adjacent_vs_signature_jaccard, adjacent, signature)
        &&& spec_is_weighted_overlap(
            self.containing_range_vs_item_weighted_overlap,
            containing,
            item,
        )
        &&& spec_is_weighted_overlap(
            self.containing_range_vs_signature_weighted_overlap,
            containing,
            signature,
        )
        &&& spec_is_weighted_overlap(self.adjacent_vs_item_weighted_overlap, adjacent, item)
        &&& spec_is_weighted_overlap(
            self.adjacent_vs_signature_weighted_overlap,
            adjacent,
            signature,
        )
    }

    /// Denominator of the accuracy score, whose numerator is 1. The accuracy score says
    /// how likely this is the declaration that is meant: one half over the number of
    /// declarations of its file for a declaration of the cursor's file, one over the
    /// number of candidates for any other.
    pub open spec fn spec_accuracy_denominator(&self) -> int {
        if self.is_same_file {
            SAME_FILE_ACCURACY_DIVISOR * self.same_file_declaration_count
        } else {
            self.declaration_count as int
        }
    }

    /// Numerator of the distance score.
    pub open spec fn spec_distance_numerator(&self) -> int {
        if self.is_referenced_nearby {
            DISTANCE_SCALE * DISTANCE_SCALE
        } else {
            1
        }
    }

    /// Denominator of the distance score. The distance score is `1 / (1 + d / 10)^2`,
    /// which is `100 / (10 + d)^2`, for a name referenced near the cursor at `d` lines
    /// from it, and one half for any other.
    pub open spec fn spec_distance_denominator(&self) -> int {
        if self.is_referenced_nearby {
            (DISTANCE_SCALE + self.reference_line_distance) * (DISTANCE_SCALE
                + self.reference_line_distance)
        } else {
            FAR_DISTANCE_DIVISOR as int
        }
    }

    /// `boost` times ten times the accuracy score times the distance score times
    /// `overlap`, in millionths, rounded down; 0 where a count that is divided by is 0.
    pub open spec fn spec_score(&self, overlap: Ratio, boost: int) -> int {
        let denominator = self.spec_accuracy_denominator() * self.spec_distance_denominator()
            * overlap.denominator;
        if denominator == 0 {
            0
        } else {
            (boost * (COMBINED_SCORE_FACTOR * SCORE_SCALE) * self.spec_distance_numerator()
                * overlap.numerator) / denominator
        }
    }

    /// The score of the signature: ten times accuracy times distance, times the
    /// weighted overlap of the excerpt with the signature.
    pub open spec fn spec_signature_score(&self) -> int {
        self.spec_score(self.containing_range_vs_signature_weighted_overlap, 1)
    }

    /// The score of the whole declaration: twice ten times accuracy times distance,
    /// times the weighted overlap of the excerpt with the declaration's text.
    pub open spec fn spec_declaration_score(&self) -> int {
        self.spec_score(
            self.containing_range_vs_item_weighted_overlap,
            DECLARATION_SCORE_BOOST as int,
        )
    }

    /// A score is at most ten times its boost.
    pub proof fn lemma_score_bounds(&self, overlap: Ratio, boost: int)
        requires
            overlap.numerator <= overlap.denominator,
            1 <= boost <= 2,
        ensures
            0 <= self.spec_score(overlap, boost) <= boost * 10_000_000,
    {
        let a = self.spec_accuracy_denominator();
        let d = self.spec_distance_denominator();
        let m = overlap.denominator as int;
        let n = overlap.numerator as int;
        let k = self.spec_distance_numerator();
        let denominator = a * d * m;
        let numerator = boost * 10_000_000 * k * n;
        let r = self.reference_line_distance as int;
        assert(d >= k) by (nonlinear_arith)
            requires
                d == (if self.is_referenced_nearby {
                    (10 + r) * (10 + r)
                } else {
                    2
                }),
                k == (if self.is_referenced_nearby {
                    100int
                } else {
                    1int
                }),
                r >= 0,
        ;
        if denominator != 0 {
            assert(a >= 1 && m >= 1 && denominator > 0) by (nonlinear_arith)
                requires
                    denominator == a * d * m,
                    denominator != 0,
                    a >= 0,
                    d >= 1,
                    m >= 0,
            ;
            assert(numerator <= (boost * 10_000_000) * denominator) by (nonlinear_arith)
                requires
                    numerator == boost * 10_000_000 * k * n,
                    denominator == a * d * m,
                    a >= 1,
                    d >= k,
                    k >= 1,
                    m >= n,
                    n >= 0,
                    boost >= 1,
            ;
            assert(numerator >= 0) by (nonlinear_arith)
                requires
                    numerator == boost * 10_000_000 * k * n,
                    k >= 1,
                    n >= 0,
                    boost >= 1,
            ;
            vstd::arithmetic::div_mod::lemma_div_is_ordered(
                numerator,
                (boost * 10_000_000) * denominator,
                denominator,
            );
            vstd::arithmetic::div_mod::lemma_div_by_multiple(boost * 10_000_000, denominator);
            vstd::arithmetic::div_mod::lemma_div_pos_is_pos(numerator, denominator);
        }
    }

    /// One score, computed.
    fn score_with(&self, overlap: Ratio, boost: u128) -> (score: u64)
        requires
            overlap.numerator <= overlap.denominator <= usize::MAX,
            1 <= boost <= 2,
        ensures
            score == self.spec_score(overlap, boost as int),
    {
        proof {
            self.lemma_score_bounds(overlap, boost as int);
        }
        let ghost a = self.spec_accuracy_denominator();
        let ghost d = self.spec_distance_denominator();
        let ghost k = self.spec_distance_numerator();
        let ghost m = overlap.denominator as int;
        let ghost n = overlap.numerator as int;
        let accuracy: u128 = if self.is_same_file {
            (SAME_FILE_ACCURACY_DIVISOR as u128) * (self.same_file_declaration_count as u128)
        } else {
            self.declaration_count as u128
        };
        if accuracy == 0 || overlap.denominator == 0 {
            assert(a * d * m == 0) by (nonlinear_arith)
                requires
                    a == 0 || m == 0,
            ;
            return 0;
        }
        let scale: u128 = DISTANCE_SCALE as u128;
        let factor: u128 = if self.is_referenced_nearby { scale * scale } else { 1 };
        let base: u128 = (COMBINED_SCORE_FACTOR as u128) * (SCORE_SCALE as u128);
        assert(boost * base <= 20_000_000) by (nonlinear_arith)
            requires
                boost <= 2,
                base == 10_000_000,
        ;
        let boosted: u128 = boost * base;
        assert(boosted * factor <= 2_000_000_000) by (nonlinear_arith)
            requires
                boosted <= 20_000_000,
                factor <= 100,
        ;
        let scaled: u128 = boosted * factor;
        assert(scaled * overlap.numerator <= 2_000_000_000 * 0x1_0000_0000_0000_0000)
            by (nonlinear_arith)
            requires
                scaled <= 2_000_000_000,
                overlap.numerator <= 0x1_0000_0000_0000_0000,
        ;
        let numerator: u128 = scaled * overlap.numerator;
        assert(numerator == boost * (COMBINED_SCORE_FACTOR * SCORE_SCALE) * k * n)
            by (nonlinear_arith)
            requires
                numerator == scaled * n,
                scaled == boosted * factor,
                boosted == boost * base,
                base == COMBINED_SCORE_FACTOR * SCORE_SCALE,
                factor == k,
        ;
        let distance: Option<u128> = if self.is_referenced_nearby {
            let t: u128 = scale + self.reference_line_distance as u128;
            t.checked_mul(t)
        } else {
            Some(FAR_DISTANCE_DIVISOR as u128)
        };
        assert(d >= 1) by (nonlinear_arith)
            requires
                self.reference_line_distance >= 0,
                d == (if self.is_referenced_nearby {
                    (10 + self.reference_line_distance) * (10 + self.reference_line_distance)
                } else {
                    2
                }),
        ;
        let partial: Option<u128> = match distance {
            Some(distance) => accuracy.checked_mul(distance),
            None => None,
        };
        let denominator: Option<u128> = match partial {
            Some(partial) => partial.checked_mul(overlap.denominator),
            None => None,
        };
        match denominator {
            Some(denominator) => {
                assert(denominator == a * d * m);
                assert(denominator > 0) by (nonlinear_arith)
                    requires
                        denominator == a * d * m,
                        a >= 1,
                        d >= 1,
                        m >= 1,
                ;
                let quotient: u128 = numerator / denominator;
                quotient as u64
            },
            None => {
                proof {
                    assert(a * d * m > u128::MAX) by (nonlinear_arith)
                        requires
                            a >= 1,
                            d >= 1,
                            m >= 1,
                            d > u128::MAX || a * d > u128::MAX || a * d * m > u128::MAX,
                    ;
                    vstd::arithmetic::div_mod::lemma_basic_div(numerator as int, a * d * m);
                }
                0
            },
        }
    }

    /// The scores that follow from the signals.
    pub fn score(&self) -> (scores: Scores)
        requires
            self.spec_is_valid(),
        ensures
            scores.signature == self.spec_signature_score(),
            scores.declaration == self.spec_declaration_score(),
    {
        Scores {
            signature: self.score_with(self.containing_range_vs_signature_weighted_overlap, 1),
            declaration: self.score_with(self.containing_range_vs_item_weighted_overlap, 2),
        }
    }
}

/// A reference nearer to the cursor never gives a lower score: of two sets of signals
/// that differ in their line distances only, the one with the smaller distance of the
/// reference scores at least as high, whatever the distance of the declaration.
pub proof fn lemma_score_monotonic_in_distance(
    near: ScoreInputs,
    far: ScoreInputs,
    overlap: Ratio,
    boost: int,
)
    requires
        far == (ScoreInputs {
            reference_line_distance: far.reference_line_distance,
            declaration_line_distance: far.declaration_line_distance,
            ..near
        }),
        near.reference_line_distance <= far.reference_line_distance,
        0 <= boost,
    ensures
        near.spec_score(overlap, boost) >= far.spec_score(overlap, boost),
        boost == 1 && overlap == near.containing_range_vs_signature_weighted_overlap
            ==> near.spec_signature_score() >= far.spec_signature_score(),
        boost == 2 && overlap == near.containing_range_vs_item_weighted_overlap
            ==> near.spec_declaration_score() >= far.spec_declaration_score(),
{
    let a = near.spec_accuracy_denominator();
    let m = overlap.denominator as int;
    let d1 = near.spec_distance_denominator();
    let d2 = far.spec_distance_denominator();
    let k = near.spec_distance_numerator();
    let n = overlap.numerator as int;
    let r1 = near.reference_line_distance as int;
    let r2 = far.reference_line_distance as int;
    let numerator = boost * 10_000_000 * k * n;
    assert(1 <= d1 <= d2) by (nonlinear_arith)
        requires
            0 <= r1 <= r2,
            d1 == (if near.is_referenced_nearby {
                (10 + r1) * (10 + r1)
            } else {
                2
            }),
            d2 == (if near.is_referenced_nearby {
                (10 + r2) * (10 + r2)
            } else {
                2
            }),
    ;
    assert(numerator >= 0) by (nonlinear_arith)
        requires
            numerator == boost * 10_000_000 * k * n,
            k >= 1,
            n >= 0,
            boost >= 0,
    ;
    if a * d2 * m != 0 {
        assert(1 <= a * d1 * m <= a * d2 * m) by (nonlinear_arith)
            requires
                a * d2 * m != 0,
                a >= 0,
                m >= 0,
                1 <= d1 <= d2,
        ;
        vstd::arithmetic::div_mod::lemma_div_is_ordered_by_denominator(
            numerator,
            a * d1 * m,
            a * d2 * m,
        );
    } else {
        assert(a * d1 * m == 0) by (nonlinear_arith)
            requires
                a * d2 * m == 0,
                a >= 0,
                m >= 0,
                1 <= d1 <= d2,
        ;
    }
}

/// Most declarations that are fetched for one identifier.
pub const DECLARATION_FAN_OUT: usize = 16;

/// Number of lines between the rows of two offsets of `text`.
pub open spec fn spec_line_distance(text: Seq<u8>, a: int, b: int) -> int {
    let row_a = spec_row(text, a);
    let row_b = spec_row(text, b);
    if row_a >= row_b {
        row_a - row_b
    } else {
        row_b - row_a
    }
}

/// Number of lines between the rows of two offsets of `text`.
pub fn line_distance(text: &[u8], a: usize, b: usize) -> (distance: usize)
    ensures
        distance == spec_line_distance(text@, a as int, b as int),
{
    let row_a = row_of(text, a);
    let row_b = row_of(text, b);
    if row_a >= row_b {
        row_a - row_b
    } else {
        row_b - row_a
    }
}

/// Whether one of the first `upto` references stands in `region`.
pub open spec fn spec_any_in_region(
    references: Seq<ReferenceView>,
    region: ReferenceRegion,
    upto: int,
) -> bool
    decreases upto,
{
    if upto <= 0 {
        false
    } else {
        spec_any_in_region(references, region, upto - 1) || (upto <= references.len()
            && references[upto - 1].region == region)
    }
}

/// The smallest number of lines between the cursor and one of the first `upto`
/// references, of which there is at least one.
pub open spec fn spec_min_reference_distance(
    references: Seq<ReferenceView>,
    text: Seq<u8>,
    cursor: int,
    upto: int,
) -> int
    decreases upto,
{
    if upto <= 1 {
        spec_line_distance(text, cursor, references[0].range.start as int)
    } else {
        let rest = spec_min_reference_distance(references, text, cursor, upto - 1);
        let last = spec_line_distance(text, cursor, references[upto - 1].range.start as int);
        if last < rest {
            last
        } else {
            rest
        }
    }
}

/// The fraction with the given parts.
pub open spec fn spec_ratio(numerator: nat, denominator: nat) -> Ratio {
    Ratio { numerator: numerator as u128, denominator: denominator as u128 }
}

/// The signals for one candidate: those of the references to its name, those of its
/// place, and the similarity of its two texts to the tokens of the excerpt
/// (`containing`) and of the lines near the cursor (`adjacent`).
pub open spec fn spec_score_inputs(
    buffers: &BufferStore,
    text: Seq<u8>,
    cursor: int,
    containing: Multiset<Seq<u8>>,
    adjacent: Multiset<Seq<u8>>,
    references: Seq<ReferenceView>,
    declaration: Declaration,
    is_same_file: bool,
    declaration_line_distance: usize,
    declaration_line_distance_rank: usize,
    same_file_declaration_count: usize,
    declaration_count: usize,
) -> ScoreInputs {
    let item = spec_occurrences(declaration.spec_item_text(buffers).0);
    let signature = spec_occurrences(declaration.spec_signature_text(buffers).0);
    ScoreInputs {
        is_same_file,
        is_referenced_nearby: spec_any_in_region(
            references,
            ReferenceRegion::Nearby,
            references.len() as int,
        ),
        is_referenced_in_breadcrumb: spec_any_in_region(
            references,
            ReferenceRegion::Breadcrumb,
            references.len() as int,
        ),
        reference_count: references.len() as usize,
        same_file_declaration_count,
        declaration_count,
        reference_line_distance: spec_min_reference_distance(
            references,
            text,
            cursor,
            references.len() as int,
        ) as usize,
        declaration_line_distance,
        declaration_line_distance_rank,
        containing_range_vs_item_jaccard: spec_ratio(
            spec_jaccard_numerator(containing, item),
            spec_jaccard_denominator(containing, item),
        ),
        containing_range_vs_signature_jaccard: spec_ratio(
            spec_jaccard_numerator(containing, signature),
            spec_jaccard_denominator(containing, signature),
        ),
        adjacent_vs_item_jaccard: spec_ratio(
            spec_jaccard_numerator(adjacent, item),
            spec_jaccard_denominator(adjacent, item),
        ),
        adjacent_vs_signature_jaccard: spec_ratio(
            spec_jaccard_numerator(adjacent, signature),
            spec_jaccard_denominator(adjacent, signature),
        ),
        containing_range_vs_item_weighted_overlap: spec_ratio(
            spec_weighted_overlap_numerator(containing, item),
            spec_weighted_overlap_denominator(containing, item),
        ),
        containing_range_vs_signature_weighted_overlap: spec_ratio(
            spec_weighted_overlap_numerator(containing, signature),
            spec_weighted_overlap_denominator(containing, signature),
        ),
        adjacent_vs_item_weighted_overlap: spec_ratio(
            spec_weighted_overlap_numerator(adjacent, item),
            spec_weighted_overlap_denominator(adjacent, item),
        ),
        adjacent_vs_signature_weighted_overlap: spec_ratio(
            spec_weighted_overlap_numerator(adjacent, signature),
            spec_weighted_overlap_denominator(adjacent, signature),
        ),
    }
}

/// Whether one of `references` stands in `region`.
pub fn any_in_region(references: &Vec<Reference>, region: ReferenceRegion) -> (any: bool)
    ensures
        any == spec_any_in_region(
            spec_reference_views(references@),
            region,
            references@.len() as int,
        ),
{
    let mut any = false;
    let mut i: usize = 0;
    while i < references.len()
        invariant
            i <= references@.len(),
            any == spec_any_in_region(spec_reference_views(references@), region, i as int),
        decreases references@.len() - i,
    {
        if references[i].region == region {
            any = true;
        }
        i = i + 1;
    }
    any
}

/// The smallest number of lines between the cursor and one of `references`.
pub fn min_reference_distance(references: &Vec<Reference>, text: &[u8], cursor_offset: usize) -> (
    distance: usize)
    requires
        references@.len() > 0,
    ensures
        distance == spec_min_reference_distance(
            spec_reference_views(references@),
            text@,
            cursor_offset as int,
            references@.len() as int,
        ),
{
    let mut distance = line_distance(text, cursor_offset, references[0].range.start);
    let mut i: usize = 1;
    while i < references.len()
        invariant
            1 <= i <= references@.len(),
            distance == spec_min_reference_distance(
                spec_reference_views(references@),
                text@,
                cursor_offset as int,
                i as int,
            ),
        decreases references@.len() - i,
    {
        let next = line_distance(text, cursor_offset, references[i].range.start);
        if next < distance {
            distance = next;
        }
        i = i + 1;
    }
    distance
}

/// Scores one candidate for an identifier, given the references to that identifier, of
/// which there is at least one.
pub fn score_snippet<'a>(
    identifier: &Identifier,
    references: &Vec<Reference>,
    declaration: &'a Declaration,
    is_same_file: bool,
    declaration_line_distance: usize,
    declaration_line_distance_rank: usize,
    same_file_declaration_count: usize,
    declaration_count: usize,
    containing_range_identifier_occurrences: &IdentifierOccurrences,
    adjacent_identifier_occurrences: &IdentifierOccurrences,
    cursor_offset: usize,
    current_buffer: &BufferSnapshot,
    buffers: &BufferStore,
) -> (snippet: Option<ScoredSnippet<'a>>)
    requires
        references@.len() > 0,
        buffers.wf(),
        containing_range_identifier_occurrences.wf(),
        adjacent_identifier_occurrences.wf(),
    ensures
        match snippet {
            Some(snippet) => {
                &&& snippet.identifier@ == identifier@
                &&& snippet.declaration == declaration
                &&& snippet.score_components == spec_score_inputs(
                    buffers,
                    current_buffer.spec_text(),
                    cursor_offset as int,
                    containing_range_identifier_occurrences@,
                    adjacent_identifier_occurrences@,
                    spec_reference_views(references@),
                    *declaration,
                    is_same_file,
                    declaration_line_distance,
                    declaration_line_distance_rank,
                    same_file_declaration_count,
                    declaration_count,
                )
                &&& snippet.score_components.spec_measures(
                    containing_range_identifier_occurrences@,
                    adjacent_identifier_occurrences@,
                    spec_occurrences(declaration.spec_item_text(buffers).0),
                    spec_occurrences(declaration.spec_signature_text(buffers).0),
                )
                &&& snippet.score_components.spec_is_valid()
                &&& snippet.scores.signature == snippet.score_components.spec_signature_score()
                &&& snippet.scores.declaration == snippet.score_components.spec_declaration_score()
            },
            None => false,
        },
{
    let is_referenced_nearby = any_in_region(references, ReferenceRegion::Nearby);
    let is_referenced_in_breadcrumb = any_in_region(references, ReferenceRegion::Breadcrumb);
    let reference_count = references.len();
    let reference_line_distance = min_reference_distance(
        references,
        current_buffer.text(),
        cursor_offset,
    );
    let item_text = declaration.item_text(buffers);
    let signature_text = declaration.signature_text(buffers);
    let item_source_occurrences = IdentifierOccurrences::within_string(item_text.0.as_slice());
    let item_signature_occurrences = IdentifierOccurrences::within_string(
        signature_text.0.as_slice(),
    );
    let score_components = ScoreInputs {
        is_same_file,
        is_referenced_nearby,
        is_referenced_in_breadcrumb,
        reference_count,
        same_file_declaration_count,
        declaration_count,
        reference_line_distance,
        declaration_line_distance,
        declaration_line_distance_rank,
        containing_range_vs_item_jaccard: jaccard_similarity(
            containing_range_identifier_occurrences,
            &item_source_occurrences,
        ),
        containing_range_vs_signature_jaccard: jaccard_similarity(
            containing_range_identifier_occurrences,
            &item_signature_occurrences,
        ),
        adjacent_vs_item_jaccard: jaccard_similarity(
            adjacent_identifier_occurrences,
            &item_source_occurrences,
        ),
        adjacent_vs_signature_jaccard: jaccard_similarity(
            adjacent_identifier_occurrences,
            &item_signature_occurrences,
        ),
        containing_range_vs_item_weighted_overlap: weighted_overlap_coefficient(
            containing_range_identifier_occurrences,
            &item_source_occurrences,
        ),
        containing_range_vs_signature_weighted_overlap: weighted_overlap_coefficient(
            containing_range_identifier_occurrences,
            &item_signature_occurrences,
        ),
        adjacent_vs_item_weighted_overlap: weighted_overlap_coefficient(
            adjacent_identifier_occurrences,
            &item_source_occurrences,
        ),
        adjacent_vs_signature_weighted_overlap: weighted_overlap_coefficient(
            adjacent_identifier_occurrences,
            &item_signature_occurrences,
        ),
    };
    let scores = score_components.score();
    Some(
        ScoredSnippet {
            identifier: identifier.duplicate(),
            declaration,
            scores,
            score_components,
        },
    )
}

/// What is the same for every candidate of one request: the index and the buffers, the
/// buffer the cursor is in, the excerpt's lines, the cursor, and the tokens of the
/// excerpt and of the lines near the cursor.
pub struct ScoringContext {
    pub entries: Seq<IndexEntry>,
    pub buffers: BufferStore,
    pub current: BufferSnapshot,
    pub excerpt_range: Range<usize>,
    pub cursor: int,
    pub containing: Multiset<Seq<u8>>,
    pub adjacent: Multiset<Seq<u8>>,
}

/// How a candidate stands to the cursor's buffer, or nothing where the candidate is
/// left out. A declaration of the cursor's own buffer whose bytes, as they lie in the
/// buffer now, share a byte with the excerpt's lines is left out: the excerpt shows it
/// already. Any other declaration of that buffer is of the same file, at the number of
/// lines between its first byte and the cursor. Every other declaration is of another
/// file, at distance 0.
pub open spec fn spec_candidate_kind(
    declaration: Declaration,
    current: &BufferSnapshot,
    excerpt_range: Range<usize>,
    cursor: int,
) -> Option<(bool, usize)> {
    match declaration {
        Declaration::Buffer { buffer_id, declaration } => if buffer_id == current.spec_id() {
            let (start, end) = declaration.spec_item_offsets(current);
            if spec_range_intersection(
                Range { start: start as usize, end: end as usize },
                excerpt_range,
            ).is_some() {
                None
            } else {
                Some((true, spec_line_distance(current.spec_text(), cursor, start) as usize))
            }
        } else {
            Some((false, 0))
        },
        Declaration::File { .. } => Some((false, 0)),
    }
}

/// The distance and place of every candidate among the first `upto` that is not left
/// out, in the order of the candidates. `positions` holds the candidates by their place
/// in the index.
pub open spec fn spec_kept_keys(
    context: ScoringContext,
    positions: Seq<int>,
    upto: int,
) -> Seq<(u64, usize)>
    decreases upto,
{
    if upto <= 0 {
        Seq::empty()
    } else {
        let rest = spec_kept_keys(context, positions, upto - 1);
        if upto > positions.len() {
            rest
        } else {
            match spec_candidate_kind(
                context.entries[positions[upto - 1]].declaration,
                &context.current,
                context.excerpt_range,
                context.cursor,
            ) {
                Some((_, distance)) => rest.push((distance as u64, (upto - 1) as usize)),
                None => rest,
            }
        }
    }
}

/// A scored declaration as a value.
pub struct SnippetView {
    pub identifier: IdentifierView,
    pub declaration: Declaration,
    pub score_components: ScoreInputs,
    pub scores: Scores,
}

/// The scores that follow from the signals.
pub open spec fn spec_scores(score_components: ScoreInputs) -> Scores {
    Scores {
        signature: score_components.spec_signature_score() as u64,
        declaration: score_components.spec_declaration_score() as u64,
    }
}

/// Whether the candidate at place `r` of the ranking stands in the cursor's file.
pub open spec fn spec_is_same_file_at(
    context: ScoringContext,
    positions: Seq<int>,
    ranked: Seq<(u64, usize)>,
    r: int,
) -> bool {
    spec_candidate_kind(
        context.entries[positions[ranked[r].1 as int]].declaration,
        &context.current,
        context.excerpt_range,
        context.cursor,
    ) matches Some((true, _))
}

/// How many of the candidates in front of place `r` of the ranking stand in the cursor's
/// file.
pub open spec fn spec_same_file_before(
    context: ScoringContext,
    positions: Seq<int>,
    ranked: Seq<(u64, usize)>,
    r: int,
) -> int
    decreases r,
{
    if r <= 0 {
        0
    } else if spec_is_same_file_at(context, positions, ranked, r - 1) {
        spec_same_file_before(context, positions, ranked, r - 1) + 1
    } else {
        spec_same_file_before(context, positions, ranked, r - 1)
    }
}

/// The rank of the candidate at place `r` of the ranking: for a candidate of the
/// cursor's file its place among the candidates of that file, which are ranked by
/// their distance; 0 for a candidate of another file, which has no distance to be
/// ranked by.
pub open spec fn spec_distance_rank(
    context: ScoringContext,
    positions: Seq<int>,
    ranked: Seq<(u64, usize)>,
    r: int,
) -> int {
    if spec_is_same_file_at(context, positions, ranked, r) {
        spec_same_file_before(context, positions, ranked, r)
    } else {
        0
    }
}

/// Among the candidates of the cursor's file the ranks rise along the ranking: of two
/// such candidates the one in front has the smaller rank.
pub proof fn lemma_same_file_ranks_rise(
    context: ScoringContext,
    positions: Seq<int>,
    ranked: Seq<(u64, usize)>,
    front: int,
    behind: int,
)
    requires
        0 <= front < behind,
        spec_is_same_file_at(context, positions, ranked, front),
    ensures
        spec_distance_rank(context, positions, ranked, front) < spec_same_file_before(
            context,
            positions,
            ranked,
            behind,
        ),
        spec_is_same_file_at(context, positions, ranked, behind) ==> spec_distance_rank(
            context,
            positions,
            ranked,
            front,
        ) < spec_distance_rank(context, positions, ranked, behind),
    decreases behind - front,
{
    if front + 1 < behind {
        lemma_same_file_ranks_rise(context, positions, ranked, front, behind - 1);
    }
}

/// A snippet as a value.
pub open spec fn spec_snippet_view(snippet: ScoredSnippet) -> SnippetView {
    SnippetView {
        identifier: snippet.identifier@,
        declaration: *snippet.declaration,
        score_components: snippet.score_components,
        scores: snippet.scores,
    }
}

/// The snippets as values, in their order.
pub open spec fn spec_snippet_views(snippets: Seq<ScoredSnippet>) -> Seq<SnippetView> {
    Seq::new(snippets.len(), |i: int| spec_snippet_view(snippets[i]))
}

/// The snippet for the candidate at place `r` of the ranking: its declaration, the
/// signals for it, and the scores that follow from them. A candidate of the cursor's
/// file has as its rank its place among the candidates of that file in the ranking; a
/// candidate of another file has rank 0.
#[verifier::opaque]
pub open spec fn spec_ranked_snippet(
    context: ScoringContext,
    identifier: IdentifierView,
    references: Seq<ReferenceView>,
    positions: Seq<int>,
    ranked: Seq<(u64, usize)>,
    r: int,
) -> SnippetView {
    let declaration = context.entries[positions[ranked[r].1 as int]].declaration;
    let score_components = spec_score_inputs(
        &context.buffers,
        context.current.spec_text(),
        context.cursor,
        context.containing,
        context.adjacent,
        references,
        declaration,
        spec_is_same_file_at(context, positions, ranked, r),
        ranked[r].0 as usize,
        spec_distance_rank(context, positions, ranked, r) as usize,
        spec_count_from(
            context.entries,
            spec_source(declaration),
            context.entries.len() as int,
        ) as usize,
        positions.len() as usize,
    );
    SnippetView { identifier, declaration, score_components, scores: spec_scores(score_components) }
}

/// The snippets for one identifier and the references to it: one for every candidate
/// that is not left out, the candidates being the first declarations of the identifier
/// in the index, up to the fan-out; in rising order of distance, candidates at the same
/// distance in the order of the index.
#[verifier::opaque]
pub open spec fn spec_group_snippets(
    context: ScoringContext,
    identifier: IdentifierView,
    references: Seq<ReferenceView>,
) -> Seq<SnippetView> {
    let positions = spec_declarations_for(context.entries, identifier, DECLARATION_FAN_OUT as int);
    let ranked = spec_ranked(spec_kept_keys(context, positions, positions.len() as int));
    Seq::new(
        ranked.len(),
        |r: int| spec_ranked_snippet(context, identifier, references, positions, ranked, r),
    )
}

/// Those of the first `upto` references that name `identifier`, in their order.
pub open spec fn spec_group(
    references: Seq<ReferenceView>,
    identifier: IdentifierView,
    upto: int,
) -> Seq<ReferenceView>
    decreases upto,
{
    if upto <= 0 {
        Seq::empty()
    } else {
        let rest = spec_group(references, identifier, upto - 1);
        if upto <= references.len() && references[upto - 1].identifier == identifier {
            rest.push(references[upto - 1])
        } else {
            rest
        }
    }
}

/// Whether the reference at place `i` is the first to name its identifier.
pub open spec fn spec_is_first_occurrence(references: Seq<ReferenceView>, i: int) -> bool {
    forall|j: int| 0 <= j < i ==> (#[trigger] references[j]).identifier != references[i].identifier
}

/// The snippets for the identifiers that the first `upto` references name first: the
/// identifiers in the order in which they are first named, each with the snippets for
/// it and all references to it.
pub open spec fn spec_scored_snippets(
    context: ScoringContext,
    references: Seq<ReferenceView>,
    upto: int,
) -> Seq<SnippetView>
    decreases upto,
{
    if upto <= 0 {
        Seq::empty()
    } else {
        let rest = spec_scored_snippets(context, references, upto - 1);
        if upto <= references.len() && spec_is_first_occurrence(references, upto - 1) {
            rest + spec_group_snippets(
                context,
                references[upto - 1].identifier,
                spec_group(references, references[upto - 1].identifier, references.len() as int),
            )
        } else {
            rest
        }
    }
}

/// What holds of every snippet: its declaration is not one that is left out, its eight
/// measures are those of its texts against the tokens of the request, and its scores
/// are those that follow from its signals.
#[verifier::opaque]
pub open spec fn spec_snippet_is_sound(snippet: ScoredSnippet, context: ScoringContext) -> bool {
    &&& spec_candidate_kind(
        *snippet.declaration,
        &context.current,
        context.excerpt_range,
        context.cursor,
    ).is_some()
    &&& snippet.score_components.spec_measures(
        context.containing,
        context.adjacent,
        spec_occurrences(snippet.declaration.spec_item_text(&context.buffers).0),
        spec_occurrences(snippet.declaration.spec_signature_text(&context.buffers).0),
    )
    &&& snippet.score_components.spec_is_valid()
    &&& snippet.scores.signature == snippet.score_components.spec_signature_score()
    &&& snippet.scores.declaration == snippet.score_components.spec_declaration_score()
}

/// How a candidate stands to the cursor's buffer, or nothing where it is left out.
pub fn candidate_kind(
    declaration: &Declaration,
    current_buffer: &BufferSnapshot,
    excerpt_range: &Range<usize>,
    cursor_offset: usize,
) -> (kind: Option<(bool, usize)>)
    requires
        current_buffer.wf(),
    ensures
        kind == spec_candidate_kind(
            *declaration,
            current_buffer,
            *excerpt_range,
            cursor_offset as int,
        ),
{
    match declaration {
        Declaration::Buffer { buffer_id, declaration } => {
            if *buffer_id == current_buffer.remote_id() {
                let item_range = declaration.item_offsets(current_buffer);
                if range_intersection(&item_range, excerpt_range).is_some() {
                    None
                } else {
                    Some(
                        (
                            true,
                            line_distance(current_buffer.text(), cursor_offset, item_range.start),
                        ),
                    )
                }
            } else {
                Some((false, 0))
            }
        },
        Declaration::File { .. } => Some((false, 0)),
    }
}

/// The references among `references` that name `identifier`, copied.
pub fn references_to(references: &Vec<Reference>, identifier: &Identifier) -> (group: Vec<
    Reference,
>)
    ensures
        spec_reference_views(group@) == spec_group(
            spec_reference_views(references@),
            identifier@,
            references@.len() as int,
        ),
{
    let mut group: Vec<Reference> = Vec::new();
    let mut i: usize = 0;
    while i < references.len()
        invariant
            i <= references@.len(),
            spec_reference_views(group@) == spec_group(
                spec_reference_views(references@),
                identifier@,
                i as int,
            ),
        decreases references@.len() - i,
    {
        let ghost before = group@;
        if references[i].identifier.matches(identifier) {
            group.push(
                Reference {
                    identifier: references[i].identifier.duplicate(),
                    range: Range { start: references[i].range.start, end: references[i].range.end },
                    region: references[i].region,
                },
            );
            proof {
                assert(spec_reference_views(group@) == spec_reference_views(before).push(
                    spec_reference_views(references@)[i as int],
                ));
            }
        }
        i = i + 1;
    }
    group
}

/// Whether the reference at place `i` is the first to name its identifier.
pub fn is_first_occurrence(references: &Vec<Reference>, i: usize) -> (first: bool)
    requires
        i < references@.len(),
    ensures
        first == spec_is_first_occurrence(spec_reference_views(references@), i as int),
{
    let ghost views = spec_reference_views(references@);
    let mut j: usize = 0;
    while j < i
        invariant
            j <= i < references@.len(),
            views == spec_reference_views(references@),
            forall|k: int| 0 <= k < j ==> (#[trigger] views[k]).identifier != views[i as int].identifier,
        decreases i - j,
    {
        if references[j].identifier.matches(&references[i].identifier) {
            assert(views[j as int].identifier == views[i as int].identifier);
            return false;
        }
        j = j + 1;
    }
    true
}

/// The context of a request, as the functions below are given it.
pub open spec fn spec_context(
    index: &SyntaxIndex,
    buffers: &BufferStore,
    current_buffer: &BufferSnapshot,
    excerpt_range: Range<usize>,
    cursor_offset: usize,
    containing: Multiset<Seq<u8>>,
    adjacent: Multiset<Seq<u8>>,
) -> ScoringContext {
    ScoringContext {
        entries: index@,
        buffers: *buffers,
        current: *current_buffer,
        excerpt_range,
        cursor: cursor_offset as int,
        containing,
        adjacent,
    }
}

/// Scores the candidate at place `r` of the ranking.
fn score_ranked<'a>(
    index: &'a SyntaxIndex,
    identifier: &Identifier,
    references: &Vec<Reference>,
    declaration: &'a Declaration,
    is_same_file: bool,
    declaration_line_distance: usize,
    rank: usize,
    declaration_count: usize,
    containing_range_identifier_occurrences: &IdentifierOccurrences,
    adjacent_identifier_occurrences: &IdentifierOccurrences,
    cursor_offset: usize,
    current_buffer: &BufferSnapshot,
    buffers: &BufferStore,
    excerpt_range: &Range<usize>,
    Ghost(positions): Ghost<Seq<int>>,
    Ghost(ranked): Ghost<Seq<(u64, usize)>>,
    Ghost(r): Ghost<int>,
) -> (snippet: ScoredSnippet<'a>)
    requires
        references@.len() > 0,
        buffers.wf(),
        containing_range_identifier_occurrences.wf(),
        adjacent_identifier_occurrences.wf(),
        ({
            let context = spec_context(
                index,
                buffers,
                current_buffer,
                *excerpt_range,
                cursor_offset,
                containing_range_identifier_occurrences@,
                adjacent_identifier_occurrences@,
            );
            &&& *declaration == context.entries[positions[ranked[r].1 as int]].declaration
            &&& spec_candidate_kind(
                *declaration,
                current_buffer,
                *excerpt_range,
                cursor_offset as int,
            ) matches Some((same, distance)) && same == is_same_file && distance as u64
                == ranked[r].0
            &&& declaration_line_distance == ranked[r].0 as usize
            &&& rank == spec_distance_rank(context, positions, ranked, r)
            &&& declaration_count == positions.len()
        }),
    ensures
        ({
            let context = spec_context(
                index,
                buffers,
                current_buffer,
                *excerpt_range,
                cursor_offset,
                containing_range_identifier_occurrences@,
                adjacent_identifier_occurrences@,
            );
            &&& spec_snippet_view(snippet) == spec_ranked_snippet(
                context,
                identifier@,
                spec_reference_views(references@),
                positions,
                ranked,
                r,
            )
            &&& spec_snippet_is_sound(snippet, context)
        }),
{
    proof {
        reveal(spec_ranked_snippet);
        reveal(spec_snippet_is_sound);
    }
    let same_file_declaration_count = index.file_declaration_count(declaration);
    let snippet = score_snippet(
        identifier,
        references,
        declaration,
        is_same_file,
        declaration_line_distance,
        rank,
        same_file_declaration_count,
        declaration_count,
        containing_range_identifier_occurrences,
        adjacent_identifier_occurrences,
        cursor_offset,
        current_buffer,
        buffers,
    );
    snippet.unwrap()
}

/// Scores the candidates for one identifier, given the references to it, of which
/// there is at least one.
#[verifier::rlimit(40)]
pub fn snippets_for_identifier<'a>(
    index: &'a SyntaxIndex,
    excerpt_range: &Range<usize>,
    identifier: &Identifier,
    references: &Vec<Reference>,
    containing_range_identifier_occurrences: &IdentifierOccurrences,
    adjacent_identifier_occurrences: &IdentifierOccurrences,
    cursor_offset: usize,
    current_buffer: &BufferSnapshot,
    buffers: &BufferStore,
) -> (snippets: Vec<ScoredSnippet<'a>>)
    requires
        references@.len() > 0,
        buffers.wf(),
        current_buffer.wf(),
        containing_range_identifier_occurrences.wf(),
        adjacent_identifier_occurrences.wf(),
    ensures
        ({
            let context = spec_context(
                index,
                buffers,
                current_buffer,
                *excerpt_range,
                cursor_offset,
                containing_range_identifier_occurrences@,
                adjacent_identifier_occurrences@,
            );
            &&& spec_snippet_views(snippets@) == spec_group_snippets(
                context,
                identifier@,
                spec_reference_views(references@),
            )
            &&& forall|k: int|
                0 <= k < snippets@.len() ==> spec_snippet_is_sound(#[trigger] snippets@[k], context)
        }),
{
    let ghost context = spec_context(
        index,
        buffers,
        current_buffer,
        *excerpt_range,
        cursor_offset,
        containing_range_identifier_occurrences@,
        adjacent_identifier_occurrences@,
    );
    let ghost positions = spec_declarations_for(index@, identifier@, DECLARATION_FAN_OUT as int);
    let declarations = index.declarations_for_identifier(identifier, DECLARATION_FAN_OUT);
    let declaration_count: usize = declarations.len();
    let mut kinds: Vec<Option<(bool, usize)>> = Vec::new();
    let mut keys: Vec<(u64, usize)> = Vec::new();
    let mut k: usize = 0;
    while k < declaration_count
        invariant
            k <= declaration_count,
            declaration_count == declarations@.len(),
            declaration_count == positions.len(),
            current_buffer.wf(),
            context == spec_context(
                index,
                buffers,
                current_buffer,
                *excerpt_range,
                cursor_offset,
                containing_range_identifier_occurrences@,
                adjacent_identifier_occurrences@,
            ),
            forall|j: int|
                0 <= j < declarations@.len() ==> *(#[trigger] declarations@[j])
                    == index@[positions[j]].declaration,
            kinds@.len() == k,
            forall|j: int|
                0 <= j < k ==> #[trigger] kinds@[j] == spec_candidate_kind(
                    *declarations@[j],
                    current_buffer,
                    *excerpt_range,
                    cursor_offset as int,
                ),
            keys@ == spec_kept_keys(context, positions, k as int),
            forall|j: int|
                0 <= j < keys@.len() ==> (#[trigger] keys@[j]).1 < k && kinds@[keys@[j].1 as int]
                    is Some && kinds@[keys@[j].1 as int].unwrap().1 == keys@[j].0,
            forall|i: int, j: int| 0 <= i < j < keys@.len() ==> keys@[i].1 < keys@[j].1,
        decreases declaration_count - k,
    {
        let kind = candidate_kind(declarations[k], current_buffer, excerpt_range, cursor_offset);
        kinds.push(kind);
        match kind {
            Some((_, distance)) => {
                keys.push((distance as u64, k));
            },
            None => {},
        }
        k = k + 1;
    }
    let ghost kept = keys@;
    let sorted = rank(keys);
    let mut snippets: Vec<ScoredSnippet<'a>> = Vec::new();
    let mut same_file_seen: usize = 0;
    let mut r: usize = 0;
    while r < sorted.len()
        invariant
            r <= sorted@.len(),
            same_file_seen == spec_same_file_before(context, positions, sorted@, r as int),
            same_file_seen <= r,
            references@.len() > 0,
            buffers.wf(),
            current_buffer.wf(),
            containing_range_identifier_occurrences.wf(),
            adjacent_identifier_occurrences.wf(),
            declaration_count == declarations@.len(),
            declaration_count == positions.len(),
            positions == spec_declarations_for(index@, identifier@, DECLARATION_FAN_OUT as int),
            context == spec_context(
                index,
                buffers,
                current_buffer,
                *excerpt_range,
                cursor_offset,
                containing_range_identifier_occurrences@,
                adjacent_identifier_occurrences@,
            ),
            forall|j: int|
                0 <= j < declarations@.len() ==> *(#[trigger] declarations@[j])
                    == index@[positions[j]].declaration,
            kinds@.len() == declaration_count,
            forall|j: int|
                0 <= j < declaration_count ==> #[trigger] kinds@[j] == spec_candidate_kind(
                    *declarations@[j],
                    current_buffer,
                    *excerpt_range,
                    cursor_offset as int,
                ),
            forall|j: int|
                0 <= j < kept.len() ==> (#[trigger] kept[j]).1 < declaration_count
                    && kinds@[kept[j].1 as int] is Some && kinds@[kept[j].1 as int].unwrap().1
                    == kept[j].0,
            forall|j: int| 0 <= j < sorted@.len() ==> kept.contains(#[trigger] sorted@[j]),
            kept == spec_kept_keys(context, positions, positions.len() as int),
            sorted@ == spec_ranked(kept),
            snippets@.len() == r,
            forall|j: int|
                0 <= j < r ==> #[trigger] spec_snippet_views(snippets@)[j] == spec_ranked_snippet(
                    context,
                    identifier@,
                    spec_reference_views(references@),
                    positions,
                    sorted@,
                    j,
                ),
            forall|j: int| 0 <= j < r ==> spec_snippet_is_sound(#[trigger] snippets@[j], context),
        decreases sorted@.len() - r,
    {
        let ghost before = snippets@;
        let key = sorted[r];
        proof {
            assert(kept.contains(sorted@[r as int]));
            let j = choose|j: int| 0 <= j < kept.len() && kept[j] == key;
            assert(kept[j].1 < declaration_count);
        }
        let declaration_line_distance: usize = key.0 as usize;
        let place: usize = key.1;
        let declaration: &'a Declaration = declarations[place];
        let is_same_file: bool = match kinds[place] {
            Some((is_same_file, _)) => is_same_file,
            None => false,
        };
        let rank: usize = if is_same_file { same_file_seen } else { 0 };
        proof {
            let j = choose|j: int| 0 <= j < kept.len() && kept[j] == key;
            assert(kinds@[kept[j].1 as int] is Some);
            assert(kinds@[place as int] == spec_candidate_kind(
                *declarations@[place as int],
                current_buffer,
                *excerpt_range,
                cursor_offset as int,
            ));
        }
        let snippet = score_ranked(
            index,
            identifier,
            references,
            declaration,
            is_same_file,
            declaration_line_distance,
            rank,
            declaration_count,
            containing_range_identifier_occurrences,
            adjacent_identifier_occurrences,
            cursor_offset,
            current_buffer,
            buffers,
            excerpt_range,
            Ghost(positions),
            Ghost(sorted@),
            Ghost(r as int),
        );
        snippets.push(snippet);
        proof {
            assert(spec_snippet_views(snippets@)[r as int] == spec_snippet_view(snippet));
            assert forall|j: int| 0 <= j < r implies #[trigger] spec_snippet_views(snippets@)[j]
                == spec_ranked_snippet(
                context,
                identifier@,
                spec_reference_views(references@),
                positions,
                sorted@,
                j,
            ) by {
                assert(spec_snippet_views(snippets@)[j] == spec_snippet_views(before)[j]);
            }
            assert forall|j: int| 0 <= j < r implies spec_snippet_is_sound(
                #[trigger] snippets@[j],
                context,
            ) by {
                assert(snippets@[j] == before[j]);
            }
        }
        if is_same_file {
            same_file_seen = same_file_seen + 1;
        }
        r = r + 1;
    }
    proof {
        reveal(spec_group_snippets);
        assert(spec_snippet_views(snippets@) =~= spec_group_snippets(
            context,
            identifier@,
            spec_reference_views(references@),
        ));
    }
    snippets
}

/// Scores, for every identifier that `references` name, the declarations that the
/// index holds for it. `references` are those of `excerpt`, whose text is
/// `excerpt_text`; the cursor stands at `cursor_offset` of `current_buffer`.
#[verifier::rlimit(40)]
pub fn scored_snippets<'a>(
    index: &'a SyntaxIndex,
    excerpt: &EditPredictionExcerpt,
    excerpt_text: &EditPredictionExcerptText,
    references: &Vec<Reference>,
    cursor_offset: usize,
    current_buffer: &BufferSnapshot,
    buffers: &BufferStore,
) -> (snippets: Vec<ScoredSnippet<'a>>)
    requires
        buffers.wf(),
        current_buffer.wf(),
    ensures
        ({
            let band = spec_nearby_band(current_buffer.spec_text(), cursor_offset as int);
            let context = spec_context(
                index,
                buffers,
                current_buffer,
                excerpt.range,
                cursor_offset,
                spec_occurrences(excerpt_text.body@),
                spec_occurrences(spec_slice(current_buffer.spec_text(), band.0, band.1)),
            );
            &&& spec_snippet_views(snippets@) == spec_scored_snippets(
                context,
                spec_reference_views(references@),
                references@.len() as int,
            )
            &&& forall|k: int|
                0 <= k < snippets@.len() ==> spec_snippet_is_sound(#[trigger] snippets@[k], context)
        }),
{
    let containing = IdentifierOccurrences::within_string(excerpt_text.body.as_slice());
    let band = nearby_band(current_buffer.text(), cursor_offset);
    let adjacent_text = slice_to_vec(current_buffer.text(), &band);
    let adjacent = IdentifierOccurrences::within_string(adjacent_text.as_slice());
    let ghost context = spec_context(
        index,
        buffers,
        current_buffer,
        excerpt.range,
        cursor_offset,
        containing@,
        adjacent@,
    );
    let ghost views = spec_reference_views(references@);
    let mut snippets: Vec<ScoredSnippet<'a>> = Vec::new();
    let mut i: usize = 0;
    while i < references.len()
        invariant
            i <= references@.len(),
            buffers.wf(),
            current_buffer.wf(),
            containing.wf(),
            adjacent.wf(),
            views == spec_reference_views(references@),
            context == spec_context(
                index,
                buffers,
                current_buffer,
                excerpt.range,
                cursor_offset,
                containing@,
                adjacent@,
            ),
            spec_snippet_views(snippets@) == spec_scored_snippets(context, views, i as int),
            forall|k: int|
                0 <= k < snippets@.len() ==> spec_snippet_is_sound(#[trigger] snippets@[k], context),
        decreases references@.len() - i,
    {
        let ghost before = snippets@;
        if is_first_occurrence(references, i) {
            let identifier = &references[i].identifier;
            let group = references_to(references, identifier);
            proof {
                lemma_group_holds(views, i as int, views.len() as int);
            }
            let mut found = snippets_for_identifier(
                index,
                &excerpt.range,
                identifier,
                &group,
                &containing,
                &adjacent,
                cursor_offset,
                current_buffer,
                buffers,
            );
            let ghost added = found@;
            snippets.append(&mut found);
            proof {
                assert(snippets@ == before + added);
                assert(spec_snippet_views(snippets@) =~= spec_snippet_views(before)
                    + spec_snippet_views(added));
                assert forall|k: int| 0 <= k < snippets@.len() implies spec_snippet_is_sound(
                    #[trigger] snippets@[k],
                    context,
                ) by {
                    if k < before.len() {
                        assert(snippets@[k] == before[k]);
                    } else {
                        assert(snippets@[k] == added[k - before.len()]);
                    }
                }
            }
        }
        i = i + 1;
    }
    snippets
}

/// The candidates that are kept stand with rising places, each the place of a
/// candidate.
pub proof fn lemma_kept_keys(context: ScoringContext, positions: Seq<int>, upto: int)
    requires
        0 <= upto <= positions.len(),
        upto <= usize::MAX,
    ensures
        forall|k: int|
            0 <= k < spec_kept_keys(context, positions, upto).len() ==> (#[trigger] spec_kept_keys(
                context,
                positions,
                upto,
            )[k]).1 < upto,
        forall|i: int, j: int|
            0 <= i < j < spec_kept_keys(context, positions, upto).len() ==> spec_kept_keys(
                context,
                positions,
                upto,
            )[i].1 < spec_kept_keys(context, positions, upto)[j].1,
    decreases upto,
{
    if upto > 0 {
        lemma_kept_keys(context, positions, upto - 1);
        let rest = spec_kept_keys(context, positions, upto - 1);
        let all = spec_kept_keys(context, positions, upto);
        assert forall|k: int| 0 <= k < all.len() implies (#[trigger] all[k]).1 < upto by {
            if k < rest.len() {
                assert(all[k] == rest[k]);
            }
        }
        assert forall|i: int, j: int| 0 <= i < j < all.len() implies all[i].1 < all[j].1 by {
            assert(all[i] == rest[i]);
            if j < rest.len() {
                assert(all[j] == rest[j]);
            }
        }
    }
}

/// Every candidate among the first `upto` that is not left out is among the kept ones.
pub proof fn lemma_kept_keys_hold_every_kept(
    context: ScoringContext,
    positions: Seq<int>,
    upto: int,
    k: int,
)
    requires
        0 <= k < upto <= positions.len(),
        upto <= usize::MAX,
        spec_candidate_kind(
            context.entries[positions[k]].declaration,
            &context.current,
            context.excerpt_range,
            context.cursor,
        ).is_some(),
    ensures
        exists|j: int|
            0 <= j < spec_kept_keys(context, positions, upto).len() && (#[trigger] spec_kept_keys(
                context,
                positions,
                upto,
            )[j]).1 == k,
    decreases upto,
{
    let all = spec_kept_keys(context, positions, upto);
    let rest = spec_kept_keys(context, positions, upto - 1);
    if k < upto - 1 {
        lemma_kept_keys_hold_every_kept(context, positions, upto - 1, k);
        let j = choose|j: int| 0 <= j < rest.len() && (#[trigger] rest[j]).1 == k;
        assert(all[j] == rest[j]);
    } else {
        assert(all[rest.len() as int].1 == k);
    }
}

/// A candidate that is not left out gets exactly one snippet: it stands at one place
/// of the ranking and at no other.
pub proof fn lemma_kept_candidate_has_one_snippet(
    context: ScoringContext,
    identifier: IdentifierView,
    k: int,
)
    requires
        ({
            let positions = spec_declarations_for(
                context.entries,
                identifier,
                DECLARATION_FAN_OUT as int,
            );
            &&& 0 <= k < positions.len()
            &&& spec_candidate_kind(
                context.entries[positions[k]].declaration,
                &context.current,
                context.excerpt_range,
                context.cursor,
            ).is_some()
        }),
    ensures
        ({
            let positions = spec_declarations_for(
                context.entries,
                identifier,
                DECLARATION_FAN_OUT as int,
            );
            let ranked = spec_ranked(spec_kept_keys(context, positions, positions.len() as int));
            exists|r: int|
                {
                    &&& 0 <= r < ranked.len()
                    &&& (#[trigger] ranked[r]).1 == k
                    &&& forall|q: int| 0 <= q < ranked.len() && q != r ==> (#[trigger] ranked[q]).1 != k
                }
        }),
{
    broadcast use vstd::seq_lib::group_to_multiset_ensures;

    let positions = spec_declarations_for(context.entries, identifier, DECLARATION_FAN_OUT as int);
    let kept = spec_kept_keys(context, positions, positions.len() as int);
    let ranked = spec_ranked(kept);
    assert(positions.len() <= DECLARATION_FAN_OUT);
    lemma_kept_keys_hold_every_kept(context, positions, positions.len() as int, k);
    lemma_kept_keys(context, positions, positions.len() as int);
    crate::ranking::lemma_ranked(kept);
    crate::ranking::lemma_ranked_places_differ(kept);
    let j = choose|j: int| 0 <= j < kept.len() && (#[trigger] kept[j]).1 == k;
    assert(kept.contains(kept[j]));
    assert(ranked.to_multiset().count(kept[j]) > 0);
    assert(ranked.contains(kept[j]));
    let r = choose|r: int| 0 <= r < ranked.len() && ranked[r] == kept[j];
    assert forall|q: int| 0 <= q < ranked.len() && q != r implies (#[trigger] ranked[q]).1
        != k by {
        if q < r {
            assert(ranked[q].1 != ranked[r].1);
        } else {
            assert(ranked[r].1 != ranked[q].1);
        }
    }
}

/// A declaration of the cursor's buffer that lies farther from the cursor than
/// `max_bytes` is not left out, whatever lines were chosen: the excerpt cannot reach it.
pub proof fn lemma_far_declaration_is_kept(
    declaration: Declaration,
    current: &BufferSnapshot,
    cursor: int,
    options: crate::excerpt::EditPredictionExcerptOptions,
    excerpt_range: Range<usize>,
)
    requires
        0 <= cursor,
        current.wf(),
        crate::excerpt::spec_select_range(current.spec_text(), cursor, options) == Some(
            (excerpt_range.start as int, excerpt_range.end as int),
        ),
        declaration matches Declaration::Buffer { declaration: inner, .. } && ({
            let at = if cursor < current.spec_text().len() {
                cursor
            } else {
                current.spec_text().len() as int
            };
            let (start, end) = inner.spec_item_offsets(current);
            end <= at - options.max_bytes || at + options.max_bytes <= start
        }),
    ensures
        spec_candidate_kind(declaration, current, excerpt_range, cursor).is_some(),
{
    crate::excerpt::lemma_select_range_is_near(current.spec_text(), cursor, options);
    match declaration {
        Declaration::Buffer { declaration: inner, .. } => {
            current.lemma_resolve_in_bounds(inner.item_range.start);
            current.lemma_resolve_in_bounds(inner.item_range.end);
        },
        Declaration::File { .. } => {},
    }
}

/// Of two candidates of the cursor's file for one identifier, the nearer one has the
/// smaller rank, and of two at the same distance the one that the index holds first.
pub proof fn lemma_nearer_same_file_candidate_ranks_first(
    context: ScoringContext,
    identifier: IdentifierView,
    nearer: int,
    farther: int,
)
    requires
        ({
            let positions = spec_declarations_for(
                context.entries,
                identifier,
                DECLARATION_FAN_OUT as int,
            );
            let ranked = spec_ranked(spec_kept_keys(context, positions, positions.len() as int));
            &&& 0 <= nearer < ranked.len()
            &&& 0 <= farther < ranked.len()
            &&& spec_is_same_file_at(context, positions, ranked, nearer)
            &&& spec_is_same_file_at(context, positions, ranked, farther)
            &&& ranked[nearer].0 < ranked[farther].0 || (ranked[nearer].0 == ranked[farther].0
                && ranked[nearer].1 < ranked[farther].1)
        }),
    ensures
        ({
            let positions = spec_declarations_for(
                context.entries,
                identifier,
                DECLARATION_FAN_OUT as int,
            );
            let ranked = spec_ranked(spec_kept_keys(context, positions, positions.len() as int));
            &&& nearer < farther
            &&& spec_distance_rank(context, positions, ranked, nearer) < spec_distance_rank(
                context,
                positions,
                ranked,
                farther,
            )
        }),
{
    let positions = spec_declarations_for(context.entries, identifier, DECLARATION_FAN_OUT as int);
    let kept = spec_kept_keys(context, positions, positions.len() as int);
    let ranked = spec_ranked(kept);
    crate::ranking::lemma_ranked(kept);
    if farther < nearer {
        assert(crate::ranking::spec_key_order()(ranked[farther], ranked[nearer]));
    }
    lemma_same_file_ranks_rise(context, positions, ranked, nearer, farther);
}

/// No declaration is scored twice for one identifier: the snippets for it come from
/// different places of the index.
pub proof fn lemma_no_declaration_twice(context: ScoringContext, identifier: IdentifierView)
    ensures
        ({
            let positions = spec_declarations_for(
                context.entries,
                identifier,
                DECLARATION_FAN_OUT as int,
            );
            let ranked = spec_ranked(spec_kept_keys(context, positions, positions.len() as int));
            forall|a: int, b: int|
                0 <= a < b < ranked.len() ==> {
                    &&& (#[trigger] ranked[a]).1 < positions.len()
                    &&& (#[trigger] ranked[b]).1 < positions.len()
                    &&& positions[ranked[a].1 as int] != positions[ranked[b].1 as int]
                }
        }),
{
    let positions = spec_declarations_for(context.entries, identifier, DECLARATION_FAN_OUT as int);
    let kept = spec_kept_keys(context, positions, positions.len() as int);
    let ranked = spec_ranked(kept);
    let all = crate::syntax_index::spec_positions_of(
        context.entries,
        identifier,
        context.entries.len() as int,
    );
    crate::syntax_index::lemma_positions_of(context.entries, identifier, context.entries.len() as int);
    assert(positions.len() <= DECLARATION_FAN_OUT);
    lemma_kept_keys(context, positions, positions.len() as int);
    crate::ranking::lemma_ranked(kept);
    crate::ranking::lemma_ranked_places_differ(kept);
    assert forall|a: int, b: int| 0 <= a < b < ranked.len() implies {
        &&& (#[trigger] ranked[a]).1 < positions.len()
        &&& (#[trigger] ranked[b]).1 < positions.len()
        &&& positions[ranked[a].1 as int] != positions[ranked[b].1 as int]
    } by {
        assert(kept.contains(ranked[a]));
        assert(kept.contains(ranked[b]));
        let p = ranked[a].1 as int;
        let q = ranked[b].1 as int;
        assert(p != q);
        assert(positions[p] == all[p]);
        assert(positions[q] == all[q]);
        if p < q {
            assert(all[p] < all[q]);
        } else {
            assert(all[q] < all[p]);
        }
    }
}

/// A declaration of the cursor's buffer that shares a byte with the excerpt's lines is
/// the declaration of no snippet.
pub proof fn lemma_self_exclusion(
    snippets: Seq<ScoredSnippet>,
    context: ScoringContext,
    declaration: Declaration,
)
    requires
        forall|k: int|
            0 <= k < snippets.len() ==> spec_snippet_is_sound(#[trigger] snippets[k], context),
        declaration matches Declaration::Buffer { buffer_id, declaration: inner } && buffer_id
            == context.current.spec_id() && spec_range_intersection(
            Range {
                start: inner.spec_item_offsets(&context.current).0 as usize,
                end: inner.spec_item_offsets(&context.current).1 as usize,
            },
            context.excerpt_range,
        ).is_some(),
    ensures
        forall|k: int| 0 <= k < snippets.len() ==> *(#[trigger] snippets[k]).declaration != declaration,
{
    reveal(spec_snippet_is_sound);
    assert(spec_candidate_kind(
        declaration,
        &context.current,
        context.excerpt_range,
        context.cursor,
    ).is_none());
    assert forall|k: int| 0 <= k < snippets.len() implies *(#[trigger] snippets[k]).declaration
        != declaration by {
        assert(spec_snippet_is_sound(snippets[k], context));
    }
}

/// A single reference near the cursor and on the cursor's line gives the signals of
/// the nearest reference there can be: one reference, near the cursor and not in a
/// signature above it, no line away.
pub proof fn lemma_sole_reference_on_cursor_line(
    context: ScoringContext,
    reference: ReferenceView,
    declaration: Declaration,
    is_same_file: bool,
    declaration_line_distance: usize,
    declaration_line_distance_rank: usize,
    same_file_declaration_count: usize,
    declaration_count: usize,
)
    requires
        reference.region == ReferenceRegion::Nearby,
        spec_row(context.current.spec_text(), reference.range.start as int) == spec_row(
            context.current.spec_text(),
            context.cursor,
        ),
    ensures
        ({
            let signals = spec_score_inputs(
                &context.buffers,
                context.current.spec_text(),
                context.cursor,
                context.containing,
                context.adjacent,
                seq![reference],
                declaration,
                is_same_file,
                declaration_line_distance,
                declaration_line_distance_rank,
                same_file_declaration_count,
                declaration_count,
            );
            &&& signals.reference_count == 1
            &&& signals.is_referenced_nearby
            &&& !signals.is_referenced_in_breadcrumb
            &&& signals.reference_line_distance == 0
        }),
{
    let references = seq![reference];
    reveal_with_fuel(spec_any_in_region, 2);
    assert(references[0] == reference);
    assert(spec_any_in_region(references, ReferenceRegion::Nearby, 1));
    assert(!spec_any_in_region(references, ReferenceRegion::Breadcrumb, 1));
}

/// An identifier with a single candidate, which is not left out, gets a single snippet:
/// that of the candidate, marked as of the cursor's file or not as the candidate is, at
/// the candidate's distance from the cursor, with rank 0, as the only candidate.
pub proof fn lemma_sole_candidate(
    context: ScoringContext,
    identifier: IdentifierView,
    references: Seq<ReferenceView>,
)
    requires
        ({
            let positions = spec_declarations_for(
                context.entries,
                identifier,
                DECLARATION_FAN_OUT as int,
            );
            &&& positions.len() == 1
            &&& spec_candidate_kind(
                context.entries[positions[0]].declaration,
                &context.current,
                context.excerpt_range,
                context.cursor,
            ).is_some()
        }),
    ensures
        ({
            let positions = spec_declarations_for(
                context.entries,
                identifier,
                DECLARATION_FAN_OUT as int,
            );
            let declaration = context.entries[positions[0]].declaration;
            let (is_same_file, distance) = spec_candidate_kind(
                declaration,
                &context.current,
                context.excerpt_range,
                context.cursor,
            ).unwrap();
            let snippets = spec_group_snippets(context, identifier, references);
            &&& snippets.len() == 1
            &&& snippets[0].identifier == identifier
            &&& snippets[0].declaration == declaration
            &&& snippets[0].score_components.is_same_file == is_same_file
            &&& snippets[0].score_components.declaration_line_distance == distance
            &&& snippets[0].score_components.declaration_line_distance_rank == 0
            &&& snippets[0].score_components.declaration_count == 1
        }),
{
    reveal(spec_group_snippets);
    reveal(spec_ranked_snippet);
    reveal_with_fuel(spec_kept_keys, 2);
    let positions = spec_declarations_for(context.entries, identifier, DECLARATION_FAN_OUT as int);
    let kept = spec_kept_keys(context, positions, positions.len() as int);
    let ranked = spec_ranked(kept);
    let kind = spec_candidate_kind(
        context.entries[positions[0]].declaration,
        &context.current,
        context.excerpt_range,
        context.cursor,
    );
    assert(spec_kept_keys(context, positions, 0) =~= Seq::<(u64, usize)>::empty());
    assert(kept =~= seq![(kind.unwrap().1 as u64, 0usize)]);
    crate::ranking::lemma_ranked(kept);
    assert(kept.contains(ranked[0]));
    assert(ranked[0] == kept[0]);
    assert(spec_same_file_before(context, positions, ranked, 0) == 0);
}

/// The references that name the identifier of the one at place `i` include that one.
pub proof fn lemma_group_holds(references: Seq<ReferenceView>, i: int, upto: int)
    requires
        0 <= i < upto <= references.len(),
    ensures
        spec_group(references, references[i].identifier, upto).len() > 0,
    decreases upto,
{
    if i < upto - 1 {
        lemma_group_holds(references, i, upto - 1);
    }
}

impl<'a> ScoredSnippet<'a> {
    /// The score for the given form, in millionths.
    pub fn score(&self, style: SnippetStyle) -> (score: u64)
        ensures
            score == match style {
                SnippetStyle::Signature => self.scores.signature,
                SnippetStyle::Declaration => self.scores.declaration,
            },
    {
        match style {
            SnippetStyle::Signature => self.scores.signature,
            SnippetStyle::Declaration => self.scores.declaration,
        }
    }

    /// The text that stands for the declaration in the given form: that of its
    /// signature, or that of the whole declaration.
    pub open spec fn spec_text(&self, style: SnippetStyle, buffers: &BufferStore) -> Seq<u8> {
        match style {
            SnippetStyle::Signature => self.declaration.spec_signature_text(buffers).0,
            SnippetStyle::Declaration => self.declaration.spec_item_text(buffers).0,
        }
    }

    /// Bytes of the text that stands for the declaration in the given form.
    pub open spec fn spec_size(&self, style: SnippetStyle, buffers: &BufferStore) -> int {
        self.spec_text(style, buffers).len() as int
    }

    /// The text that stands for the declaration in the given form.
    pub fn text(&self, style: SnippetStyle, buffers: &BufferStore) -> (text: Vec<u8>)
        requires
            buffers.wf(),
        ensures
            text@ == self.spec_text(style, buffers),
    {
        match style {
            SnippetStyle::Signature => self.declaration.signature_text(buffers).0,
            SnippetStyle::Declaration => self.declaration.item_text(buffers).0,
        }
    }

    /// Bytes of the text that stands for the declaration in the given form.
    pub fn size(&self, style: SnippetStyle, buffers: &BufferStore) -> (size: usize)
        requires
            buffers.wf(),
        ensures
            size == self.spec_size(style, buffers),
    {
        match style {
            SnippetStyle::Signature => self.declaration.signature_text(buffers).0.len(),
            SnippetStyle::Declaration => self.declaration.item_text(buffers).0.len(),
        }
    }

    /// The score for the given form per byte of its text, rounded down; 0 for an empty
    /// text.
    pub fn score_density(&self, style: SnippetStyle, buffers: &BufferStore) -> (density: u64)
        requires
            buffers.wf(),
        ensures
            density == if self.spec_size(style, buffers) == 0 {
                0
            } else {
                (match style {
                    SnippetStyle::Signature => self.scores.signature,
                    SnippetStyle::Declaration => self.scores.declaration,
                }) as int / self.spec_size(style, buffers)
            },
    {
        let size = self.size(style, buffers);
        if size == 0 {
            0
        } else {
            let score: u128 = self.score(style) as u128;
            let density: u128 = score / (size as u128);
            density as u64
        }
    }
}

} // verus!
