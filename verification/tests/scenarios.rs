use edit_prediction_context::buffer::BufferId;
use edit_prediction_context::buffer::BufferSnapshot;
use edit_prediction_context::buffer::BufferStore;
use edit_prediction_context::buffer::LanguageId;
use edit_prediction_context::buffer::ProjectEntryId;
use edit_prediction_context::declaration::Declaration;
use edit_prediction_context::declaration::Identifier;
use edit_prediction_context::declaration_scoring::scored_snippets;
use edit_prediction_context::declaration_scoring::SnippetStyle;
use edit_prediction_context::excerpt::EditPredictionExcerpt;
use edit_prediction_context::excerpt::EditPredictionExcerptOptions;
use edit_prediction_context::excerpt::Fraction;
use edit_prediction_context::outline::OutlineDeclaration;
use edit_prediction_context::planner::plan_context;
use edit_prediction_context::reference::references_in_excerpt;
use edit_prediction_context::reference::ReferenceRegion;
use edit_prediction_context::syntax_index::SyntaxIndex;
use edit_prediction_context::text::row_start;
use edit_prediction_context::text_similarity::Ratio;
use std::ops::Range;

const RUST: LanguageId = LanguageId(1);

const A_RS: &str = "fn main() {
    let x = 1;
    let y = 2;
    let z = add(x, y);
    println!(\"Result: {}\", z);
}

fn add(a: i32, b: i32) -> i32 {
    a + b
}
";

const B_RS: &str = "pub struct Config {
    pub name: String,
    pub value: i32,
}

impl Config {
    pub fn new(name: String, value: i32) -> Self {
        Config { name, value }
    }
}
";

const C_RS: &str = "use std::collections::HashMap;

fn main() {
    let args: Vec<String> = std::env::args().collect();
    let data: Vec<i32> = args[1..]
        .iter()
        .filter_map(|s| s.parse().ok())
        .collect();
    let result = process_data(data);
    println!(\"{:?}\", result);
}

fn process_data(data: Vec<i32>) -> HashMap<i32, usize> {
    let mut counts = HashMap::new();
    for value in data {
        *counts.entry(value).or_insert(0) += 1;
    }
    counts
}

mod tests {
    use super::*;

    fn test_process_data() {
        let data = vec![1, 2, 2, 3];
        let result = process_data(data);
        assert_eq!(result.get(&2), Some(&2));
    }
}
";

fn identifier(name: &str) -> Identifier {
    Identifier {
        name: name.as_bytes().to_vec(),
        language_id: RUST,
    }
}

/// The range of the first `needle` in `text` at or behind `from`.
fn range_of(text: &str, needle: &str, from: usize) -> Range<usize> {
    let start = from + text[from..].find(needle).unwrap();
    start..start + needle.len()
}

/// An outline entry for the item that starts with `signature` and ends with the first
/// `last` behind it.
fn entry(text: &str, name: &str, signature: &str, last: &str, parent: Option<usize>) -> OutlineDeclaration {
    let signature_range = range_of(text, signature, 0);
    let end = range_of(text, last, signature_range.start).end;
    OutlineDeclaration {
        parent_index: parent,
        identifier: identifier(name),
        item_range: signature_range.start..end,
        signature_range,
    }
}

fn outline_of_a() -> Vec<OutlineDeclaration> {
    vec![
        entry(A_RS, "main", "fn main()", "\n}", None),
        entry(A_RS, "add", "fn add(a: i32, b: i32) -> i32", "\n}", None),
    ]
}

fn outline_of_b() -> Vec<OutlineDeclaration> {
    vec![
        entry(B_RS, "Config", "pub struct Config", "\n}", None),
        entry(B_RS, "Config", "impl Config", "\n}", None),
        entry(
            B_RS,
            "new",
            "pub fn new(name: String, value: i32) -> Self",
            "\n    }",
            Some(1),
        ),
    ]
}

fn outline_of_c() -> Vec<OutlineDeclaration> {
    vec![
        entry(C_RS, "main", "fn main()", "\n}", None),
        entry(
            C_RS,
            "process_data",
            "fn process_data(data: Vec<i32>) -> HashMap<i32, usize>",
            "\n}",
            None,
        ),
        entry(C_RS, "tests", "mod tests", "\n}", None),
        entry(C_RS, "test_process_data", "fn test_process_data()", "\n    }", Some(2)),
    ]
}

fn file(id: usize, text: &str) -> BufferSnapshot {
    BufferSnapshot::new(
        BufferId(1000 + id as u64),
        Some(ProjectEntryId(id)),
        RUST,
        text.as_bytes().to_vec(),
    )
}

/// The index of the three files, with `c.rs` open as buffer 3.
fn project() -> (SyntaxIndex, BufferStore, BufferSnapshot) {
    let mut index = SyntaxIndex::new();
    index.update_file(ProjectEntryId(1), &outline_of_a(), &file(1, A_RS));
    index.update_file(ProjectEntryId(2), &outline_of_b(), &file(2, B_RS));
    index.update_file(ProjectEntryId(3), &outline_of_c(), &file(3, C_RS));
    let buffer = BufferSnapshot::new(
        BufferId(3),
        Some(ProjectEntryId(3)),
        RUST,
        C_RS.as_bytes().to_vec(),
    );
    index.update_buffer(&buffer, &outline_of_c());
    let mut buffers = BufferStore::new();
    buffers.insert(BufferSnapshot::new(
        BufferId(3),
        Some(ProjectEntryId(3)),
        RUST,
        C_RS.as_bytes().to_vec(),
    ));
    (index, buffers, buffer)
}

/// Every occurrence in `text` of each of `names` as a whole word.
fn leaves_of(text: &str, names: &[&str]) -> Vec<Range<usize>> {
    let bytes = text.as_bytes();
    let is_word = |b: u8| b.is_ascii_alphanumeric() || b == b'_';
    let mut leaves = Vec::new();
    let mut start = 0;
    while start < bytes.len() {
        if is_word(bytes[start]) {
            let mut end = start;
            while end < bytes.len() && is_word(bytes[end]) {
                end += 1;
            }
            if names.contains(&&text[start..end]) {
                leaves.push(start..end);
            }
            start = end;
        } else {
            start += 1;
        }
    }
    leaves
}

fn small_window() -> EditPredictionExcerptOptions {
    EditPredictionExcerptOptions {
        max_bytes: 40,
        min_bytes: 10,
        target_before_cursor_over_total_bytes: Fraction {
            numerator: 1,
            denominator: 2,
        },
        include_parent_signatures: false,
    }
}

#[test]
fn test_call_site() {
    let (index, buffers, buffer) = project();
    assert_eq!(index.len(), 9);

    // first process_data call site
    let cursor_offset = row_start(buffer.text(), 8) + 21;
    assert_eq!(cursor_offset, 232);
    let excerpt = EditPredictionExcerpt::select_from_buffer(
        cursor_offset,
        &buffer,
        &outline_of_c(),
        &small_window(),
    )
    .unwrap();
    assert_eq!(excerpt.range, 211..248);
    assert!(excerpt.parent_signature_ranges.is_empty());
    assert_eq!(excerpt.size, 37);
    let excerpt_text = excerpt.text(&buffer);
    assert_eq!(
        excerpt_text.body,
        b"    let result = process_data(data);\n".to_vec()
    );

    let leaves = leaves_of(C_RS, &["args", "data", "result", "process_data", "counts"]);
    let references = references_in_excerpt(&excerpt, &buffer, cursor_offset, &leaves);
    let to_process_data: Vec<_> = references
        .iter()
        .filter(|reference| reference.identifier.name == b"process_data")
        .collect();
    assert_eq!(to_process_data.len(), 1);
    assert_eq!(to_process_data[0].range, 228..240);
    assert_eq!(to_process_data[0].region, ReferenceRegion::Nearby);

    let snippets = scored_snippets(
        &index,
        &excerpt,
        &excerpt_text,
        &references,
        cursor_offset,
        &buffer,
        &buffers,
    );

    assert_eq!(snippets.len(), 1);
    assert_eq!(snippets[0].identifier.name.as_slice(), b"process_data");
    match snippets[0].declaration {
        Declaration::Buffer {
            buffer_id,
            declaration,
        } => {
            assert_eq!(*buffer_id, BufferId(3));
            assert_eq!(declaration.identifier.name, b"process_data");
            assert_eq!(declaration.item_offsets(&buffer), 281..465);
        }
        Declaration::File { .. } => panic!("Expected the buffer's declaration"),
    }
    let inputs = snippets[0].score_components;
    assert!(inputs.is_same_file);
    assert!(inputs.is_referenced_nearby);
    assert!(!inputs.is_referenced_in_breadcrumb);
    assert_eq!(inputs.reference_count, 1);
    assert_eq!(inputs.reference_line_distance, 0);
    assert_eq!(inputs.declaration_line_distance, 4);
    assert_eq!(inputs.declaration_line_distance_rank, 0);
    assert_eq!(inputs.declaration_count, 1);
    assert_eq!(inputs.same_file_declaration_count, 4);
    assert_eq!(
        inputs.containing_range_vs_signature_weighted_overlap,
        Ratio {
            numerator: 2,
            denominator: 4
        }
    );
    assert_eq!(
        inputs.containing_range_vs_item_weighted_overlap,
        Ratio {
            numerator: 3,
            denominator: 4
        }
    );
    // 10 * (0.5 / 4) * 1 * (2 / 4) and 2 * 10 * (0.5 / 4) * 1 * (3 / 4)
    assert_eq!(snippets[0].score(SnippetStyle::Signature), 625_000);
    assert_eq!(snippets[0].score(SnippetStyle::Declaration), 1_875_000);
}

#[test]
fn declarations_inside_the_excerpt_are_left_out() {
    let (index, buffers, buffer) = project();
    // the cursor stands in the name of the definition of process_data
    let cursor_offset = 290;
    let options = EditPredictionExcerptOptions {
        max_bytes: 60,
        ..small_window()
    };
    let excerpt =
        EditPredictionExcerpt::select_from_buffer(cursor_offset, &buffer, &outline_of_c(), &options)
            .unwrap();
    assert_eq!(excerpt.range, 278..338);
    let excerpt_text = excerpt.text(&buffer);
    let leaves = leaves_of(C_RS, &["process_data"]);
    let references = references_in_excerpt(&excerpt, &buffer, cursor_offset, &leaves);
    assert_eq!(references.len(), 1);
    assert_eq!(references[0].range, 284..296);
    let snippets = scored_snippets(
        &index,
        &excerpt,
        &excerpt_text,
        &references,
        cursor_offset,
        &buffer,
        &buffers,
    );
    // the one candidate is the declaration that the excerpt shows
    assert_eq!(snippets.len(), 0);
}

#[test]
fn same_name_in_two_files_gives_two_snippets() {
    let mut index = SyntaxIndex::new();
    let one = "fn helper() {\n    1\n}\n";
    let two = "// elsewhere\nfn helper() {\n    2\n}\n";
    let current = "fn main() {\n    helper();\n}\n";
    let helper_in = |text: &str| vec![entry(text, "helper", "fn helper()", "\n}", None)];
    index.update_file(ProjectEntryId(1), &helper_in(one), &file(1, one));
    index.update_file(ProjectEntryId(2), &helper_in(two), &file(2, two));
    let buffer = BufferSnapshot::new(
        BufferId(9),
        Some(ProjectEntryId(3)),
        RUST,
        current.as_bytes().to_vec(),
    );
    let outline = vec![entry(current, "main", "fn main()", "\n}", None)];
    index.update_buffer(&buffer, &outline);
    let mut buffers = BufferStore::new();
    buffers.insert(BufferSnapshot::new(
        BufferId(9),
        Some(ProjectEntryId(3)),
        RUST,
        current.as_bytes().to_vec(),
    ));

    let cursor_offset = 18;
    let options = EditPredictionExcerptOptions {
        max_bytes: 14,
        min_bytes: 1,
        ..small_window()
    };
    let excerpt =
        EditPredictionExcerpt::select_from_buffer(cursor_offset, &buffer, &outline, &options)
            .unwrap();
    assert_eq!(excerpt.range, 12..26);
    let excerpt_text = excerpt.text(&buffer);
    let references =
        references_in_excerpt(&excerpt, &buffer, cursor_offset, &leaves_of(current, &["helper"]));
    assert_eq!(references.len(), 1);
    let snippets = scored_snippets(
        &index,
        &excerpt,
        &excerpt_text,
        &references,
        cursor_offset,
        &buffer,
        &buffers,
    );
    assert_eq!(snippets.len(), 2);
    for snippet in snippets.iter() {
        assert_eq!(snippet.identifier.name, b"helper");
        assert_eq!(snippet.score_components.declaration_count, 2);
        assert!(!snippet.score_components.is_same_file);
        assert_eq!(snippet.score_components.same_file_declaration_count, 1);
        assert_eq!(snippet.score_components.declaration_line_distance, 0);
        // declarations of other files are not ranked by distance
        assert_eq!(snippet.score_components.declaration_line_distance_rank, 0);
    }
    match (snippets[0].declaration, snippets[1].declaration) {
        (
            Declaration::File {
                project_entry_id: first,
                ..
            },
            Declaration::File {
                project_entry_id: second,
                ..
            },
        ) => {
            assert_eq!(*first, ProjectEntryId(1));
            assert_eq!(*second, ProjectEntryId(2));
        }
        _ => panic!("Expected two declarations of files"),
    }
    // excerpt: helper; signature texts: fn helper; 10 * (1 / 2) * 1 * (1 / 1)
    assert_eq!(snippets[0].score(SnippetStyle::Signature), 5_000_000);
    assert_eq!(snippets[1].score(SnippetStyle::Signature), 5_000_000);
}

#[test]
fn same_file_accuracy_is_for_the_candidate_of_the_cursors_file() {
    let mut index = SyntaxIndex::new();
    let other = "fn helper() {\n    1\n}\n";
    let current = "fn main() {\n    helper();\n}\n\n\n\nfn helper() {\n    2\n}\nfn third() {}\n";
    index.update_file(
        ProjectEntryId(1),
        &vec![entry(other, "helper", "fn helper()", "\n}", None)],
        &file(1, other),
    );
    let buffer = BufferSnapshot::new(
        BufferId(9),
        Some(ProjectEntryId(3)),
        RUST,
        current.as_bytes().to_vec(),
    );
    let outline = vec![
        entry(current, "main", "fn main()", "\n}", None),
        entry(current, "helper", "fn helper()", "\n}", None),
        entry(current, "third", "fn third()", "{}", None),
    ];
    index.update_buffer(&buffer, &outline);
    let mut buffers = BufferStore::new();
    buffers.insert(BufferSnapshot::new(
        BufferId(9),
        Some(ProjectEntryId(3)),
        RUST,
        current.as_bytes().to_vec(),
    ));
    let cursor_offset = 18;
    let options = EditPredictionExcerptOptions {
        max_bytes: 14,
        min_bytes: 1,
        ..small_window()
    };
    let excerpt =
        EditPredictionExcerpt::select_from_buffer(cursor_offset, &buffer, &outline, &options)
            .unwrap();
    let excerpt_text = excerpt.text(&buffer);
    let leaves = vec![range_of(current, "helper", 0)];
    let references = references_in_excerpt(&excerpt, &buffer, cursor_offset, &leaves);
    let snippets = scored_snippets(
        &index,
        &excerpt,
        &excerpt_text,
        &references,
        cursor_offset,
        &buffer,
        &buffers,
    );
    assert_eq!(snippets.len(), 2);
    // ranked by distance: the file's declaration at 0, the buffer's at 5 lines
    let of_file = &snippets[0];
    let of_buffer = &snippets[1];
    assert!(!of_file.score_components.is_same_file);
    assert_eq!(of_file.score_components.declaration_count, 2);
    assert_eq!(of_file.score_components.declaration_line_distance, 0);
    // 10 * (1 / 2) * 1 * 1
    assert_eq!(of_file.score(SnippetStyle::Signature), 5_000_000);
    assert!(of_buffer.score_components.is_same_file);
    assert_eq!(of_buffer.score_components.declaration_count, 2);
    assert_eq!(of_buffer.score_components.same_file_declaration_count, 3);
    assert_eq!(of_buffer.score_components.declaration_line_distance, 5);
    // the first of the cursor's file, though a declaration of another file stands in front
    assert_eq!(of_file.score_components.declaration_line_distance_rank, 0);
    assert_eq!(of_buffer.score_components.declaration_line_distance_rank, 0);
    // 10 * (0.5 / 3) * 1 * 1, rounded down
    assert_eq!(of_buffer.score(SnippetStyle::Signature), 1_666_666);
}

#[test]
fn selection_and_references_do_not_change_on_a_second_run() {
    let (_, _, buffer) = project();
    let cursor_offset = 232;
    let leaves = leaves_of(C_RS, &["data", "result", "process_data"]);
    let run = || {
        let excerpt = EditPredictionExcerpt::select_from_buffer(
            cursor_offset,
            &buffer,
            &outline_of_c(),
            &small_window(),
        )
        .unwrap();
        let references = references_in_excerpt(&excerpt, &buffer, cursor_offset, &leaves);
        let summary: Vec<(Vec<u8>, Range<usize>, ReferenceRegion)> = references
            .iter()
            .map(|reference| {
                (
                    reference.identifier.name.clone(),
                    reference.range.clone(),
                    reference.region,
                )
            })
            .collect();
        (excerpt.range, excerpt.parent_signature_ranges, excerpt.size, summary)
    };
    let first = run();
    let second = run();
    assert_eq!(first, second);
    assert_eq!(first.3.len(), 4);
}

#[test]
fn planned_context_holds_the_excerpt_and_the_best_snippets() {
    let (index, buffers, buffer) = project();
    let cursor_offset = 232;
    let excerpt = EditPredictionExcerpt::select_from_buffer(
        cursor_offset,
        &buffer,
        &outline_of_c(),
        &small_window(),
    )
    .unwrap();
    let excerpt_text = excerpt.text(&buffer);
    let leaves = leaves_of(C_RS, &["process_data"]);
    let references = references_in_excerpt(&excerpt, &buffer, cursor_offset, &leaves);
    let snippets = scored_snippets(
        &index,
        &excerpt,
        &excerpt_text,
        &references,
        cursor_offset,
        &buffer,
        &buffers,
    );
    assert_eq!(snippets.len(), 1);
    let plan = plan_context(&excerpt_text, &snippets, SnippetStyle::Signature, 200, &buffers);
    assert_eq!(plan.included, vec![0]);
    assert_eq!(
        String::from_utf8(plan.text).unwrap(),
        "    let result = process_data(data);\nfn process_data(data: Vec<i32>) -> HashMap<i32, usize>"
    );
    // the whole declaration does not fit: nothing is cut, it is left out
    let plan = plan_context(&excerpt_text, &snippets, SnippetStyle::Declaration, 200, &buffers);
    assert!(plan.included.is_empty());
    assert_eq!(
        String::from_utf8(plan.text).unwrap(),
        "    let result = process_data(data);\n"
    );
    let plan = plan_context(&excerpt_text, &snippets, SnippetStyle::Declaration, 222, &buffers);
    assert_eq!(plan.included, vec![0]);
    assert_eq!(plan.text.len(), 222);
}

#[test]
fn same_file_candidates_are_ranked_among_themselves() {
    let mut index = SyntaxIndex::new();
    let other = "fn helper() {\n    1\n}\n";
    // rows: main 0..=2, a near helper at row 4, a far one at row 9
    let current =
        "fn main() {\n    helper();\n}\n\nfn helper() {}\n\n\n\n\nfn helper() {}\nfn helper() {}\n";
    index.update_file(
        ProjectEntryId(1),
        &vec![entry(other, "helper", "fn helper()", "\n}", None)],
        &file(1, other),
    );
    let buffer = BufferSnapshot::new(
        BufferId(9),
        Some(ProjectEntryId(3)),
        RUST,
        current.as_bytes().to_vec(),
    );
    let helper_at = |from: usize| {
        let signature_range = range_of(current, "fn helper()", from);
        OutlineDeclaration {
            parent_index: None,
            identifier: identifier("helper"),
            item_range: signature_range.start..signature_range.end + 3,
            signature_range,
        }
    };
    let near = helper_at(0);
    let far = helper_at(near.item_range.end);
    let farther = helper_at(far.item_range.end);
    // the outline names the farther ones first
    let outline = vec![
        entry(current, "main", "fn main()", "\n}", None),
        farther,
        far,
        near,
    ];
    index.update_buffer(&buffer, &outline);
    let mut buffers = BufferStore::new();
    buffers.insert(buffer.clone());
    let cursor_offset = 18;
    let options = EditPredictionExcerptOptions {
        max_bytes: 14,
        min_bytes: 1,
        ..small_window()
    };
    let excerpt =
        EditPredictionExcerpt::select_from_buffer(cursor_offset, &buffer, &outline, &options)
            .unwrap();
    let excerpt_text = excerpt.text(&buffer);
    let leaves = vec![range_of(current, "helper", 0)];
    let references = references_in_excerpt(&excerpt, &buffer, cursor_offset, &leaves);
    let snippets = scored_snippets(
        &index,
        &excerpt,
        &excerpt_text,
        &references,
        cursor_offset,
        &buffer,
        &buffers,
    );
    let signals: Vec<(bool, usize, usize)> = snippets
        .iter()
        .map(|snippet| {
            (
                snippet.score_components.is_same_file,
                snippet.score_components.declaration_line_distance,
                snippet.score_components.declaration_line_distance_rank,
            )
        })
        .collect();
    assert_eq!(
        signals,
        vec![(false, 0, 0), (true, 3, 0), (true, 8, 1), (true, 9, 2)]
    );
}
