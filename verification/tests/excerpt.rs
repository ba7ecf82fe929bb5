use edit_prediction_context::buffer::BufferId;
use edit_prediction_context::buffer::BufferSnapshot;
use edit_prediction_context::buffer::LanguageId;
use edit_prediction_context::declaration::Identifier;
use edit_prediction_context::excerpt::select_in_text;
use edit_prediction_context::excerpt::EditPredictionExcerpt;
use edit_prediction_context::excerpt::EditPredictionExcerptOptions;
use edit_prediction_context::excerpt::ExcerptError;
use edit_prediction_context::excerpt::Fraction;
use edit_prediction_context::outline::OutlineDeclaration;
use std::ops::Range;

// lines: 0..5, 5..8, 8..15, 15..18, 18..23
const LINES: &str = "aaaa\nbb\ncccccc\ndd\neeee\n";

// lines: 0..12, 12..47, 47..57, 57..91, 91..97, 97..99
const NESTED: &str = "mod alpha {\n    fn function_with_long_name() {\n        x\n        another_long_statement();\n    }\n}\n";

fn options(max_bytes: usize, min_bytes: usize, numerator: u32, denominator: u32) -> EditPredictionExcerptOptions {
    EditPredictionExcerptOptions {
        max_bytes,
        min_bytes,
        target_before_cursor_over_total_bytes: Fraction {
            numerator,
            denominator,
        },
        include_parent_signatures: true,
    }
}

fn select(text: &str, cursor: usize, options: &EditPredictionExcerptOptions) -> Result<Range<usize>, ExcerptError> {
    select_in_text(cursor, text.as_bytes(), &Vec::new(), options).map(|excerpt| {
        assert_eq!(excerpt.size, excerpt.range.end - excerpt.range.start);
        assert!(excerpt.parent_signature_ranges.is_empty());
        excerpt.range
    })
}

fn nested_outline() -> Vec<OutlineDeclaration> {
    let identifier = |name: &str| Identifier {
        name: name.as_bytes().to_vec(),
        language_id: LanguageId(0),
    };
    vec![
        OutlineDeclaration {
            parent_index: None,
            identifier: identifier("alpha"),
            item_range: 0..98,
            signature_range: 0..9,
        },
        OutlineDeclaration {
            parent_index: Some(0),
            identifier: identifier("function_with_long_name"),
            item_range: 16..96,
            signature_range: 16..44,
        },
    ]
}

#[test]
fn excerpt_grows_towards_the_target_share() {
    // both neighbours fit; too little stands in front of the cursor, so the line
    // before is taken; then nothing else fits
    assert_eq!(select(LINES, 10, &options(12, 1, 1, 2)), Ok(5..15));
    // one byte more lets the line behind in
    assert_eq!(select(LINES, 10, &options(13, 1, 1, 2)), Ok(5..18));
}

#[test]
fn excerpt_target_decides_the_side() {
    assert_eq!(select(LINES, 10, &options(12, 1, 0, 1)), Ok(8..18));
    assert_eq!(select(LINES, 10, &options(12, 1, 1, 1)), Ok(5..15));
}

#[test]
fn excerpt_is_the_cursor_line_when_nothing_else_fits() {
    assert_eq!(select(LINES, 10, &options(7, 1, 1, 2)), Ok(8..15));
    assert_eq!(select(LINES, 8, &options(9, 7, 1, 2)), Ok(8..15));
    assert_eq!(select(LINES, 14, &options(9, 7, 1, 2)), Ok(8..15));
}

#[test]
fn excerpt_takes_the_whole_text_when_it_fits() {
    assert_eq!(select(LINES, 10, &options(100, 1, 1, 2)), Ok(0..23));
    assert_eq!(select(LINES, 0, &options(23, 23, 1, 2)), Ok(0..23));
}

#[test]
fn excerpt_fails_when_the_cursor_line_is_too_long() {
    assert_eq!(
        select(LINES, 10, &options(6, 1, 1, 2)),
        Err(ExcerptError::WindowTooSmall)
    );
    assert_eq!(
        select(LINES, 10, &options(0, 0, 1, 2)),
        Err(ExcerptError::WindowTooSmall)
    );
}

#[test]
fn excerpt_fails_below_the_minimum() {
    assert_eq!(
        select(LINES, 10, &options(12, 11, 1, 2)),
        Err(ExcerptError::WindowTooSmall)
    );
    assert_eq!(select(LINES, 10, &options(12, 10, 1, 2)), Ok(5..15));
}

#[test]
fn excerpt_never_exceeds_the_budget() {
    for max_bytes in 0..30 {
        for cursor in 0..=LINES.len() {
            match select(LINES, cursor, &options(max_bytes, 0, 1, 3)) {
                Ok(range) => {
                    assert!(range.end - range.start <= max_bytes);
                    assert!(range.start <= cursor && cursor <= range.end);
                    assert!(range.start == 0 || LINES.as_bytes()[range.start - 1] == b'\n');
                    assert!(range.end == LINES.len() || LINES.as_bytes()[range.end - 1] == b'\n');
                }
                Err(ExcerptError::WindowTooSmall) => {
                    let start = LINES[..cursor].rfind('\n').map_or(0, |at| at + 1);
                    let end = LINES[cursor..].find('\n').map_or(LINES.len(), |at| cursor + at + 1);
                    assert!(end - start > max_bytes);
                }
            }
        }
    }
}

#[test]
fn excerpt_at_the_end_of_the_text() {
    assert_eq!(select(LINES, 23, &options(12, 1, 1, 2)), Ok(15..23));
    assert_eq!(select(LINES, 1000, &options(12, 1, 1, 2)), Ok(15..23));
    assert_eq!(select(LINES, 23, &options(4, 0, 1, 2)), Ok(23..23));
}

#[test]
fn excerpt_of_an_empty_text() {
    assert_eq!(select("", 0, &options(10, 0, 1, 2)), Ok(0..0));
    assert_eq!(
        select("", 0, &options(10, 1, 1, 2)),
        Err(ExcerptError::WindowTooSmall)
    );
}

#[test]
fn breadcrumbs_fill_what_the_budget_leaves() {
    let text = NESTED.as_bytes();
    // the cursor's line takes 10 bytes; the inner signature takes 28 of the 30 left,
    // the outer one no longer fits
    let excerpt = select_in_text(55, text, &nested_outline(), &options(40, 1, 1, 2)).unwrap();
    assert_eq!(excerpt.range, 47..57);
    assert_eq!(excerpt.parent_signature_ranges, vec![16..44]);
    assert_eq!(excerpt.size, 38);
}

#[test]
fn breadcrumbs_are_left_out_when_not_asked_for() {
    let text = NESTED.as_bytes();
    let without = EditPredictionExcerptOptions {
        include_parent_signatures: false,
        ..options(40, 1, 1, 2)
    };
    let excerpt = select_in_text(55, text, &nested_outline(), &without).unwrap();
    assert_eq!(excerpt.range, 47..57);
    assert!(excerpt.parent_signature_ranges.is_empty());
    assert_eq!(excerpt.size, 10);
}

#[test]
fn breadcrumbs_skip_signatures_inside_the_excerpt() {
    let text = NESTED.as_bytes();
    // the cursor stands in the inner signature's line, which is the excerpt
    let excerpt = select_in_text(20, text, &nested_outline(), &options(40, 1, 1, 2)).unwrap();
    assert_eq!(excerpt.range, 12..47);
    assert!(excerpt.parent_signature_ranges.is_empty());
    let excerpt = select_in_text(20, text, &nested_outline(), &options(44, 1, 1, 2)).unwrap();
    assert_eq!(excerpt.range, 12..47);
    assert_eq!(excerpt.parent_signature_ranges, vec![0..9]);
    assert_eq!(excerpt.size, 44);
}

#[test]
fn breadcrumbs_come_behind_the_lines_in_the_budget() {
    let text = NESTED.as_bytes();
    // with 47 bytes the line behind the cursor fits, and leaves no room for signatures
    let excerpt = select_in_text(55, text, &nested_outline(), &options(47, 1, 1, 2)).unwrap();
    assert_eq!(excerpt.range, 47..91);
    assert!(excerpt.parent_signature_ranges.is_empty());
    assert_eq!(excerpt.size, 44);
}

#[test]
fn breadcrumbs_drop_the_outermost_first() {
    let text = NESTED.as_bytes();
    let identifier = |name: &str| Identifier {
        name: name.as_bytes().to_vec(),
        language_id: LanguageId(0),
    };
    let outline = vec![
        OutlineDeclaration {
            parent_index: None,
            identifier: identifier("outer"),
            item_range: 0..98,
            signature_range: 0..3,
        },
        OutlineDeclaration {
            parent_index: Some(0),
            identifier: identifier("middle"),
            item_range: 4..97,
            signature_range: 4..9,
        },
        OutlineDeclaration {
            parent_index: Some(1),
            identifier: identifier("inner"),
            item_range: 16..96,
            signature_range: 16..18,
        },
        OutlineDeclaration {
            parent_index: None,
            identifier: identifier("elsewhere"),
            item_range: 60..70,
            signature_range: 60..62,
        },
    ];
    let excerpt = select_in_text(55, text, &outline, &options(20, 1, 1, 2)).unwrap();
    assert_eq!(excerpt.range, 47..57);
    assert_eq!(excerpt.parent_signature_ranges, vec![0..3, 4..9, 16..18]);
    assert_eq!(excerpt.size, 20);
    let excerpt = select_in_text(55, text, &outline, &options(19, 1, 1, 2)).unwrap();
    assert_eq!(excerpt.parent_signature_ranges, vec![4..9, 16..18]);
    assert_eq!(excerpt.size, 17);
    let excerpt = select_in_text(55, text, &outline, &options(13, 1, 1, 2)).unwrap();
    assert_eq!(excerpt.parent_signature_ranges, vec![16..18]);
    let excerpt = select_in_text(55, text, &outline, &options(11, 1, 1, 2)).unwrap();
    assert!(excerpt.parent_signature_ranges.is_empty());
}

#[test]
fn excerpt_text_is_cut_from_the_buffer() {
    let buffer = BufferSnapshot::new(BufferId(1), None, LanguageId(0), NESTED.as_bytes().to_vec());
    let excerpt =
        EditPredictionExcerpt::select_from_buffer(55, &buffer, &nested_outline(), &options(40, 1, 1, 2))
            .unwrap();
    let text = excerpt.text(&buffer);
    assert_eq!(text.body, b"        x\n".to_vec());
    assert_eq!(
        text.parent_signatures,
        vec![b"fn function_with_long_name()".to_vec()]
    );
}
