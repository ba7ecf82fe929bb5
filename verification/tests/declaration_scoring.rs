use edit_prediction_context::buffer::BufferId;
use edit_prediction_context::buffer::BufferSnapshot;
use edit_prediction_context::buffer::BufferStore;
use edit_prediction_context::buffer::LanguageId;
use edit_prediction_context::buffer::ProjectEntryId;
use edit_prediction_context::declaration::BufferDeclaration;
use edit_prediction_context::declaration::Declaration;
use edit_prediction_context::declaration::FileDeclaration;
use edit_prediction_context::declaration::Identifier;
use edit_prediction_context::declaration_scoring::any_in_region;
use edit_prediction_context::declaration_scoring::candidate_kind;
use edit_prediction_context::declaration_scoring::is_first_occurrence;
use edit_prediction_context::declaration_scoring::line_distance;
use edit_prediction_context::declaration_scoring::min_reference_distance;
use edit_prediction_context::declaration_scoring::range_intersection;
use edit_prediction_context::declaration_scoring::references_to;
use edit_prediction_context::declaration_scoring::score_snippet;
use edit_prediction_context::declaration_scoring::ScoreInputs;
use edit_prediction_context::declaration_scoring::ScoredSnippet;
use edit_prediction_context::declaration_scoring::Scores;
use edit_prediction_context::declaration_scoring::SnippetStyle;
use edit_prediction_context::outline::OutlineDeclaration;
use edit_prediction_context::reference::Reference;
use edit_prediction_context::reference::ReferenceRegion;
use edit_prediction_context::text_similarity::IdentifierOccurrences;
use edit_prediction_context::text_similarity::Ratio;

fn ratio(numerator: u128, denominator: u128) -> Ratio {
    Ratio {
        numerator,
        denominator,
    }
}

fn inputs() -> ScoreInputs {
    ScoreInputs {
        is_same_file: false,
        is_referenced_nearby: true,
        is_referenced_in_breadcrumb: false,
        reference_count: 1,
        same_file_declaration_count: 4,
        declaration_count: 2,
        reference_line_distance: 0,
        declaration_line_distance: 0,
        declaration_line_distance_rank: 0,
        containing_range_vs_item_jaccard: ratio(0, 0),
        containing_range_vs_signature_jaccard: ratio(0, 0),
        adjacent_vs_item_jaccard: ratio(0, 0),
        adjacent_vs_signature_jaccard: ratio(0, 0),
        containing_range_vs_item_weighted_overlap: ratio(3, 4),
        containing_range_vs_signature_weighted_overlap: ratio(1, 2),
        adjacent_vs_item_weighted_overlap: ratio(0, 0),
        adjacent_vs_signature_weighted_overlap: ratio(0, 0),
    }
}

fn identifier(name: &str) -> Identifier {
    Identifier {
        name: name.as_bytes().to_vec(),
        language_id: LanguageId(0),
    }
}

fn reference(name: &str, start: usize, region: ReferenceRegion) -> Reference {
    Reference {
        identifier: identifier(name),
        range: start..start + name.len(),
        region,
    }
}

#[test]
fn range_intersection_is_the_shared_part() {
    assert_eq!(range_intersection(&(0..10), &(5..15)), Some(5..10));
    assert_eq!(range_intersection(&(5..15), &(0..10)), Some(5..10));
    assert_eq!(range_intersection(&(0..10), &(2..3)), Some(2..3));
    assert_eq!(range_intersection(&(0..5), &(5..10)), None);
    assert_eq!(range_intersection(&(0..5), &(7..10)), None);
    assert_eq!(range_intersection(&(3..3), &(0..10)), None);
    // for any ordered type
    assert_eq!(range_intersection(&('a'..'m'), &('f'..'z')), Some('f'..'m'));
    assert_eq!(
        range_intersection(&("a".to_string().."c".to_string()), &("d".to_string().."e".to_string())),
        None
    );
}

#[test]
fn score_of_another_files_declaration() {
    // 10 * (1 / 2) * 1 * (1 / 2) and 2 * 10 * (1 / 2) * 1 * (3 / 4)
    assert_eq!(
        inputs().score(),
        Scores {
            signature: 2_500_000,
            declaration: 7_500_000
        }
    );
}

#[test]
fn score_of_a_same_file_declaration() {
    let same_file = ScoreInputs {
        is_same_file: true,
        ..inputs()
    };
    // 10 * (0.5 / 4) * 1 * (1 / 2) and 2 * 10 * (0.5 / 4) * 1 * (3 / 4)
    assert_eq!(
        same_file.score(),
        Scores {
            signature: 625_000,
            declaration: 1_875_000
        }
    );
}

#[test]
fn score_falls_with_the_distance_of_the_reference() {
    let at = |reference_line_distance: usize| {
        ScoreInputs {
            reference_line_distance,
            ..inputs()
        }
        .score()
        .signature
    };
    // 10 * (1 / 2) * (1 / (1 + d / 10)^2) * (1 / 2)
    assert_eq!(at(0), 2_500_000);
    assert_eq!(at(5), 1_111_111);
    assert_eq!(at(10), 625_000);
    assert_eq!(at(14), 434_027);
    assert_eq!(at(90), 25_000);
    let mut before = at(0);
    for distance in 1..200 {
        let now = at(distance);
        assert!(now <= before);
        before = now;
    }
    assert_eq!(at(usize::MAX), 0);
}

#[test]
fn score_does_not_depend_on_the_distance_of_the_declaration() {
    let near = inputs().score();
    let far = ScoreInputs {
        declaration_line_distance: 500,
        declaration_line_distance_rank: 7,
        ..inputs()
    }
    .score();
    assert_eq!(near, far);
}

#[test]
fn score_of_a_name_not_referenced_nearby() {
    let elsewhere = ScoreInputs {
        is_referenced_nearby: false,
        reference_line_distance: 3,
        ..inputs()
    };
    // 10 * (1 / 2) * 0.5 * (1 / 2) and 2 * 10 * (1 / 2) * 0.5 * (3 / 4)
    assert_eq!(
        elsewhere.score(),
        Scores {
            signature: 1_250_000,
            declaration: 3_750_000
        }
    );
}

#[test]
fn score_is_zero_without_counts_or_tokens() {
    let no_candidates = ScoreInputs {
        declaration_count: 0,
        ..inputs()
    };
    assert_eq!(
        no_candidates.score(),
        Scores {
            signature: 0,
            declaration: 0
        }
    );
    let no_declarations = ScoreInputs {
        is_same_file: true,
        same_file_declaration_count: 0,
        ..inputs()
    };
    assert_eq!(no_declarations.score().signature, 0);
    let no_text = ScoreInputs {
        containing_range_vs_item_weighted_overlap: ratio(0, 0),
        containing_range_vs_signature_weighted_overlap: ratio(0, 0),
        ..inputs()
    };
    assert_eq!(
        no_text.score(),
        Scores {
            signature: 0,
            declaration: 0
        }
    );
}

#[test]
fn score_is_at_most_ten_and_twenty() {
    let best = ScoreInputs {
        declaration_count: 1,
        containing_range_vs_item_weighted_overlap: ratio(9, 9),
        containing_range_vs_signature_weighted_overlap: ratio(5, 5),
        ..inputs()
    };
    assert_eq!(
        best.score(),
        Scores {
            signature: 10_000_000,
            declaration: 20_000_000
        }
    );
}

#[test]
fn line_distance_counts_rows_between() {
    let text = b"a\nb\nc\nd\n";
    assert_eq!(line_distance(text, 0, 0), 0);
    assert_eq!(line_distance(text, 0, 7), 3);
    assert_eq!(line_distance(text, 7, 0), 3);
    assert_eq!(line_distance(text, 2, 3), 0);
    assert_eq!(line_distance(text, 3, 4), 1);
}

#[test]
fn signals_of_references() {
    let text = b"a\nb\nc\nd\ne\n";
    let references = vec![
        reference("e", 8, ReferenceRegion::InBody),
        reference("c", 4, ReferenceRegion::Nearby),
        reference("a", 0, ReferenceRegion::InBody),
    ];
    assert!(any_in_region(&references, ReferenceRegion::Nearby));
    assert!(any_in_region(&references, ReferenceRegion::InBody));
    assert!(!any_in_region(&references, ReferenceRegion::Breadcrumb));
    assert!(!any_in_region(&Vec::new(), ReferenceRegion::Nearby));
    assert_eq!(min_reference_distance(&references, text, 6), 1);
    assert_eq!(min_reference_distance(&references, text, 0), 0);
    assert_eq!(min_reference_distance(&references[..1].to_vec(), text, 0), 4);
}

#[test]
fn references_are_grouped_by_identifier() {
    let references = vec![
        reference("a", 0, ReferenceRegion::Nearby),
        reference("b", 2, ReferenceRegion::Nearby),
        reference("a", 4, ReferenceRegion::InBody),
        reference("b", 6, ReferenceRegion::Breadcrumb),
        reference("a", 8, ReferenceRegion::InBody),
    ];
    assert!(is_first_occurrence(&references, 0));
    assert!(is_first_occurrence(&references, 1));
    assert!(!is_first_occurrence(&references, 2));
    assert!(!is_first_occurrence(&references, 3));
    assert!(!is_first_occurrence(&references, 4));
    let group = references_to(&references, &identifier("a"));
    let ranges: Vec<_> = group.iter().map(|reference| reference.range.clone()).collect();
    assert_eq!(ranges, vec![0..1, 4..5, 8..9]);
    assert!(references_to(&references, &identifier("c")).is_empty());
}

#[test]
fn candidates_of_the_cursors_buffer_are_judged_by_their_place() {
    let text = "fn a() {}\n\n\nfn b() {}\nfn c() {}\n";
    let buffer = BufferSnapshot::new(BufferId(1), None, LanguageId(0), text.as_bytes().to_vec());
    let outline = |name: &str, start: usize| OutlineDeclaration {
        parent_index: None,
        identifier: identifier(name),
        item_range: start..start + 9,
        signature_range: start..start + 6,
    };
    let in_buffer = |name: &str, start: usize, buffer_id: u64| Declaration::Buffer {
        buffer_id: BufferId(buffer_id),
        declaration: BufferDeclaration::from_outline(outline(name, start), &buffer),
    };
    // the excerpt is the line of b, the cursor stands in it
    let excerpt = 12..22;
    let cursor = 15;
    assert_eq!(candidate_kind(&in_buffer("b", 12, 1), &buffer, &excerpt, cursor), None);
    assert_eq!(
        candidate_kind(&in_buffer("a", 0, 1), &buffer, &excerpt, cursor),
        Some((true, 3))
    );
    assert_eq!(
        candidate_kind(&in_buffer("c", 22, 1), &buffer, &excerpt, cursor),
        Some((true, 1))
    );
    // the same places in another buffer
    assert_eq!(
        candidate_kind(&in_buffer("b", 12, 2), &buffer, &excerpt, cursor),
        Some((false, 0))
    );
    let of_file = Declaration::File {
        project_entry_id: ProjectEntryId(1),
        declaration: FileDeclaration::from_outline(outline("b", 12), &buffer),
    };
    assert_eq!(
        candidate_kind(&of_file, &buffer, &excerpt, cursor),
        Some((false, 0))
    );
}

#[test]
fn snippet_of_a_missing_buffer_scores_zero() {
    let text = "fn a() {}\n";
    let buffer = BufferSnapshot::new(BufferId(1), None, LanguageId(0), text.as_bytes().to_vec());
    let declaration = Declaration::Buffer {
        buffer_id: BufferId(2),
        declaration: BufferDeclaration::from_outline(
            OutlineDeclaration {
                parent_index: None,
                identifier: identifier("a"),
                item_range: 0..9,
                signature_range: 0..6,
            },
            &buffer,
        ),
    };
    let references = vec![reference("a", 3, ReferenceRegion::Nearby)];
    let excerpt_tokens = IdentifierOccurrences::within_string(b"fn a() {}");
    let snippet = score_snippet(
        &identifier("a"),
        &references,
        &declaration,
        false,
        0,
        0,
        1,
        1,
        &excerpt_tokens,
        &excerpt_tokens,
        3,
        &buffer,
        &BufferStore::new(),
    )
    .unwrap();
    assert_eq!(snippet.identifier.name, b"a");
    assert_eq!(snippet.score_components.declaration_count, 1);
    assert_eq!(snippet.score_components.reference_count, 1);
    assert_eq!(
        snippet.score_components.containing_range_vs_item_weighted_overlap,
        ratio(0, 0)
    );
    assert_eq!(
        snippet.scores,
        Scores {
            signature: 0,
            declaration: 0
        }
    );
}

#[test]
fn snippet_size_and_density_follow_the_style() {
    let text = "fn add(a: i32, b: i32) -> i32 {\n    a + b\n}\n";
    let declaration = Declaration::File {
        project_entry_id: ProjectEntryId(1),
        declaration: FileDeclaration::from_outline(
            OutlineDeclaration {
                parent_index: None,
                identifier: identifier("add"),
                item_range: 0..43,
                signature_range: 0..29,
            },
            &BufferSnapshot::new(BufferId(1), None, LanguageId(0), text.as_bytes().to_vec()),
        ),
    };
    let snippet = ScoredSnippet {
        identifier: identifier("add"),
        declaration: &declaration,
        score_components: inputs(),
        scores: Scores {
            signature: 2_500_000,
            declaration: 7_500_000,
        },
    };
    let buffers = BufferStore::new();
    assert_eq!(snippet.score(SnippetStyle::Signature), 2_500_000);
    assert_eq!(snippet.score(SnippetStyle::Declaration), 7_500_000);
    assert_eq!(snippet.size(SnippetStyle::Signature, &buffers), 29);
    assert_eq!(snippet.size(SnippetStyle::Declaration, &buffers), 44);
    assert_eq!(
        snippet.text(SnippetStyle::Signature, &buffers),
        b"fn add(a: i32, b: i32) -> i32".to_vec()
    );
    assert_eq!(snippet.score_density(SnippetStyle::Signature, &buffers), 86_206);
    assert_eq!(snippet.score_density(SnippetStyle::Declaration, &buffers), 170_454);
}
