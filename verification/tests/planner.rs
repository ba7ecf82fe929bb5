use edit_prediction_context::buffer::BufferStore;
use edit_prediction_context::buffer::LanguageId;
use edit_prediction_context::buffer::ProjectEntryId;
use edit_prediction_context::declaration::Declaration;
use edit_prediction_context::declaration::FileDeclaration;
use edit_prediction_context::declaration::Identifier;
use edit_prediction_context::declaration_scoring::ScoreInputs;
use edit_prediction_context::declaration_scoring::ScoredSnippet;
use edit_prediction_context::declaration_scoring::Scores;
use edit_prediction_context::declaration_scoring::SnippetStyle;
use edit_prediction_context::excerpt::EditPredictionExcerptText;
use edit_prediction_context::planner::append_bytes;
use edit_prediction_context::planner::plan_context;
use edit_prediction_context::text_similarity::Ratio;

fn identifier(name: &str) -> Identifier {
    Identifier {
        name: name.as_bytes().to_vec(),
        language_id: LanguageId(0),
    }
}

/// A declaration with the given text, whose signature is its first two bytes.
fn declaration(text: &str) -> Declaration {
    Declaration::File {
        project_entry_id: ProjectEntryId(1),
        declaration: FileDeclaration {
            parent: None,
            identifier: identifier("x"),
            item_range_in_file: 0..text.len(),
            text: text.as_bytes().to_vec(),
            text_is_truncated: false,
            signature_range_in_text: 0..2,
            signature_is_truncated: false,
        },
    }
}

fn snippet(declaration: &Declaration, signature: u64, whole: u64) -> ScoredSnippet<'_> {
    let zero = Ratio {
        numerator: 0,
        denominator: 0,
    };
    ScoredSnippet {
        identifier: identifier("x"),
        declaration,
        score_components: ScoreInputs {
            is_same_file: false,
            is_referenced_nearby: false,
            is_referenced_in_breadcrumb: false,
            reference_count: 0,
            same_file_declaration_count: 0,
            declaration_count: 0,
            reference_line_distance: 0,
            declaration_line_distance: 0,
            declaration_line_distance_rank: 0,
            containing_range_vs_item_jaccard: zero,
            containing_range_vs_signature_jaccard: zero,
            adjacent_vs_item_jaccard: zero,
            adjacent_vs_signature_jaccard: zero,
            containing_range_vs_item_weighted_overlap: zero,
            containing_range_vs_signature_weighted_overlap: zero,
            adjacent_vs_item_weighted_overlap: zero,
            adjacent_vs_signature_weighted_overlap: zero,
        },
        scores: Scores {
            signature,
            declaration: whole,
        },
    }
}

fn excerpt() -> EditPredictionExcerptText {
    EditPredictionExcerptText {
        body: b"<body>".to_vec(),
        parent_signatures: vec![b"<outer>".to_vec(), b"<inner>".to_vec()],
    }
}

fn text_of(plan: &[u8]) -> &str {
    std::str::from_utf8(plan).unwrap()
}

#[test]
fn append_bytes_appends() {
    let mut out = b"ab".to_vec();
    append_bytes(&mut out, b"cd");
    append_bytes(&mut out, b"");
    assert_eq!(out, b"abcd".to_vec());
}

#[test]
fn plan_takes_the_best_first_and_stops_at_the_first_misfit() {
    let declarations = [
        declaration("AAA"),
        declaration("BBBB"),
        declaration("CCCCCCCCCC"),
        declaration("D"),
    ];
    let snippets = vec![
        snippet(&declarations[0], 0, 5),
        snippet(&declarations[1], 0, 9),
        snippet(&declarations[2], 0, 9),
        snippet(&declarations[3], 0, 1),
    ];
    let buffers = BufferStore::new();
    // the excerpt takes 20 bytes; 9 are left: B fits, C does not, and A and D are not
    // tried though they would fit
    let plan = plan_context(&excerpt(), &snippets, SnippetStyle::Declaration, 29, &buffers);
    assert_eq!(plan.included, vec![1]);
    assert_eq!(text_of(&plan.text), "<outer><inner><body>BBBB");
    // with room for C, all are taken, in the order of their scores
    let plan = plan_context(&excerpt(), &snippets, SnippetStyle::Declaration, 38, &buffers);
    assert_eq!(plan.included, vec![1, 2, 0, 3]);
    assert_eq!(text_of(&plan.text), "<outer><inner><body>BBBBCCCCCCCCCCAAAD");
    assert_eq!(plan.text.len(), 38);
    let plan = plan_context(&excerpt(), &snippets, SnippetStyle::Declaration, 37, &buffers);
    assert_eq!(plan.included, vec![1, 2, 0]);
}

#[test]
fn plan_skips_a_first_snippet_that_does_not_fit() {
    let declarations = [declaration("AAAAAAAAAA"), declaration("B")];
    let snippets = vec![snippet(&declarations[0], 0, 9), snippet(&declarations[1], 0, 5)];
    let buffers = BufferStore::new();
    let plan = plan_context(&excerpt(), &snippets, SnippetStyle::Declaration, 25, &buffers);
    assert!(plan.included.is_empty());
    assert_eq!(text_of(&plan.text), "<outer><inner><body>");
}

#[test]
fn plan_always_holds_the_excerpt() {
    let declarations = [declaration("A")];
    let snippets = vec![snippet(&declarations[0], 0, 9)];
    let buffers = BufferStore::new();
    let plan = plan_context(&excerpt(), &snippets, SnippetStyle::Declaration, 5, &buffers);
    assert!(plan.included.is_empty());
    assert_eq!(text_of(&plan.text), "<outer><inner><body>");
    let plan = plan_context(&excerpt(), &Vec::new(), SnippetStyle::Declaration, 500, &buffers);
    assert!(plan.included.is_empty());
    assert_eq!(text_of(&plan.text), "<outer><inner><body>");
}

#[test]
fn plan_ranks_by_the_score_of_the_style() {
    let declarations = [declaration("one"), declaration("two"), declaration("six")];
    let snippets = vec![
        snippet(&declarations[0], 1, 7),
        snippet(&declarations[1], 3, 7),
        snippet(&declarations[2], 2, 8),
    ];
    let buffers = BufferStore::new();
    let plan = plan_context(&excerpt(), &snippets, SnippetStyle::Signature, 100, &buffers);
    assert_eq!(plan.included, vec![1, 2, 0]);
    assert_eq!(text_of(&plan.text), "<outer><inner><body>twsion");
    // equal scores keep the order of the snippets
    let plan = plan_context(&excerpt(), &snippets, SnippetStyle::Declaration, 100, &buffers);
    assert_eq!(plan.included, vec![2, 0, 1]);
    assert_eq!(text_of(&plan.text), "<outer><inner><body>sixonetwo");
}
