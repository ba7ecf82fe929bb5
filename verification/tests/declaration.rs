use edit_prediction_context::buffer::BufferId;
use edit_prediction_context::buffer::BufferSnapshot;
use edit_prediction_context::buffer::BufferStore;
use edit_prediction_context::buffer::LanguageId;
use edit_prediction_context::buffer::ProjectEntryId;
use edit_prediction_context::declaration::expand_range_to_line_boundaries_and_truncate;
use edit_prediction_context::declaration::BufferDeclaration;
use edit_prediction_context::declaration::Declaration;
use edit_prediction_context::declaration::FileDeclaration;
use edit_prediction_context::declaration::Identifier;
use edit_prediction_context::declaration::ITEM_TEXT_TRUNCATION_LENGTH;
use edit_prediction_context::outline::OutlineDeclaration;
use std::ops::Range;

// lines: 0..7, 7..23, 23..29, 29..31, 31..41
const TEXT: &str = "// top\n  fn f(a: u8) {\n    a\n}\nfn g() {}\n";

fn identifier(name: &str, language: usize) -> Identifier {
    Identifier {
        name: name.as_bytes().to_vec(),
        language_id: LanguageId(language),
    }
}

fn outline(name: &str, item_range: Range<usize>, signature_range: Range<usize>) -> OutlineDeclaration {
    OutlineDeclaration {
        parent_index: None,
        identifier: identifier(name, 0),
        item_range,
        signature_range,
    }
}

fn snapshot(text: &str) -> BufferSnapshot {
    BufferSnapshot::new(BufferId(0), None, LanguageId(0), text.as_bytes().to_vec())
}

fn long_text() -> String {
    // 200 lines of 10 bytes
    "123456789\n".repeat(200)
}

#[test]
fn identifiers_match_on_name_and_language() {
    assert!(identifier("a", 1).matches(&identifier("a", 1)));
    assert!(!identifier("a", 1).matches(&identifier("a", 2)));
    assert!(!identifier("a", 1).matches(&identifier("b", 1)));
    let copy = identifier("name", 3).duplicate();
    assert_eq!(copy.name, b"name");
    assert_eq!(copy.language_id, LanguageId(3));
}

#[test]
fn ranges_grow_to_whole_lines() {
    let text = TEXT.as_bytes();
    assert_eq!(
        expand_range_to_line_boundaries_and_truncate(&(9..30), 1024, text),
        (7..31, false)
    );
    assert_eq!(
        expand_range_to_line_boundaries_and_truncate(&(12..13), 1024, text),
        (7..23, false)
    );
    // a range that ends at the start of a line takes that line too
    assert_eq!(
        expand_range_to_line_boundaries_and_truncate(&(7..23), 1024, text),
        (7..29, false)
    );
    assert_eq!(
        expand_range_to_line_boundaries_and_truncate(&(40..400), 1024, text),
        (31..41, false)
    );
    assert_eq!(
        expand_range_to_line_boundaries_and_truncate(&(0..0), 1024, b""),
        (0..0, false)
    );
}

#[test]
fn ranges_are_cut_to_the_limit() {
    let text = TEXT.as_bytes();
    assert_eq!(
        expand_range_to_line_boundaries_and_truncate(&(9..30), 10, text),
        (7..17, true)
    );
    assert_eq!(
        expand_range_to_line_boundaries_and_truncate(&(9..30), 24, text),
        (7..31, false)
    );
    assert_eq!(
        expand_range_to_line_boundaries_and_truncate(&(9..30), 23, text),
        (7..30, true)
    );
    assert_eq!(
        expand_range_to_line_boundaries_and_truncate(&(9..30), 0, text),
        (7..7, true)
    );
}

#[test]
fn cuts_do_not_split_characters() {
    let text = "ab€d\n".as_bytes();
    assert_eq!(
        expand_range_to_line_boundaries_and_truncate(&(0..1), 3, text),
        (0..2, true)
    );
    assert_eq!(
        expand_range_to_line_boundaries_and_truncate(&(0..1), 4, text),
        (0..2, true)
    );
    assert_eq!(
        expand_range_to_line_boundaries_and_truncate(&(0..1), 5, text),
        (0..5, true)
    );
}

#[test]
fn uncut_ranges_end_with_their_line_in_text_of_many_bytes_per_character() {
    let text = "é = 1\nüber = é\nß\n".as_bytes();
    assert_eq!(text.len(), 21);
    // Every line starts with a character of two bytes.
    assert_eq!(
        expand_range_to_line_boundaries_and_truncate(&(1..2), 1024, text),
        (0..7, false)
    );
    assert_eq!(
        expand_range_to_line_boundaries_and_truncate(&(8..9), 1024, text),
        (7..18, false)
    );
    assert_eq!(
        expand_range_to_line_boundaries_and_truncate(&(3..20), 1024, text),
        (0..21, false)
    );
    assert_eq!(
        expand_range_to_line_boundaries_and_truncate(&(8..9), 11, text),
        (7..18, false)
    );
    // A cut inside the last character of the line keeps that character out.
    assert_eq!(
        expand_range_to_line_boundaries_and_truncate(&(8..9), 9, text),
        (7..15, true)
    );
}

#[test]
fn file_declaration_keeps_text_and_signature() {
    let declaration = FileDeclaration::from_outline(outline("f", 9..30, 9..20), &snapshot(TEXT));
    assert_eq!(declaration.parent, None);
    assert_eq!(declaration.identifier.name, b"f");
    assert_eq!(declaration.item_range_in_file, 7..31);
    assert_eq!(declaration.text, b"  fn f(a: u8) {\n    a\n}\n".to_vec());
    assert!(!declaration.text_is_truncated);
    assert_eq!(declaration.signature_range_in_text, 2..13);
    assert!(!declaration.signature_is_truncated);
    let declaration = Declaration::File {
        project_entry_id: ProjectEntryId(5),
        declaration,
    };
    let buffers = BufferStore::new();
    assert_eq!(declaration.identifier().name, b"f");
    assert_eq!(declaration.parent(), None);
    assert_eq!(declaration.project_entry_id(&buffers), Some(ProjectEntryId(5)));
    assert_eq!(
        declaration.item_text(&buffers),
        (b"  fn f(a: u8) {\n    a\n}\n".to_vec(), false)
    );
    assert_eq!(
        declaration.signature_text(&buffers),
        (b"fn f(a: u8)".to_vec(), false)
    );
}

#[test]
fn file_declaration_is_cut_at_the_limit() {
    let text = long_text();
    let declaration = FileDeclaration::from_outline(outline("big", 0..2000, 0..9), &snapshot(&text));
    assert_eq!(declaration.item_range_in_file, 0..ITEM_TEXT_TRUNCATION_LENGTH);
    assert_eq!(declaration.text.len(), 1024);
    assert!(declaration.text_is_truncated);
    assert_eq!(declaration.signature_range_in_text, 0..9);
    assert!(!declaration.signature_is_truncated);
}

#[test]
fn signature_is_cut_to_fit_the_text() {
    let text = long_text();
    let declaration =
        FileDeclaration::from_outline(outline("big", 0..2000, 1000..1100), &snapshot(&text));
    assert_eq!(declaration.signature_range_in_text, 1000..1024);
    assert!(declaration.signature_is_truncated);
    // a signature behind the cut
    let declaration =
        FileDeclaration::from_outline(outline("big", 0..2000, 1500..1600), &snapshot(&text));
    assert_eq!(declaration.signature_range_in_text, 1024..1024);
    assert!(declaration.signature_is_truncated);
    // a signature in front of the item
    let declaration =
        FileDeclaration::from_outline(outline("big", 100..2000, 50..60), &snapshot(&text));
    assert_eq!(declaration.item_range_in_file, 100..1124);
    assert_eq!(declaration.signature_range_in_text, 0..0);
    assert!(!declaration.signature_is_truncated);
}

#[test]
fn buffer_declaration_reads_the_buffer_as_it_is_now() {
    let mut buffer = BufferSnapshot::new(
        BufferId(1),
        Some(ProjectEntryId(8)),
        LanguageId(0),
        TEXT.as_bytes().to_vec(),
    );
    let declaration = BufferDeclaration::from_outline(outline("f", 9..30, 9..20), &buffer);
    assert_eq!(declaration.item_offsets(&buffer), 9..30);
    assert_eq!(declaration.signature_offsets(&buffer), 9..20);
    // a line is put in front, and the body changes
    buffer.edit(&(0..0), b"// new\n");
    buffer.edit(&(34..35), b"a + 1");
    assert_eq!(declaration.item_offsets(&buffer), 16..41);
    assert_eq!(declaration.signature_offsets(&buffer), 16..27);
    let declaration = Declaration::Buffer {
        buffer_id: BufferId(1),
        declaration,
    };
    let mut buffers = BufferStore::new();
    // the buffer is not open: no text, no file
    assert_eq!(declaration.item_text(&buffers), (Vec::new(), false));
    assert_eq!(declaration.signature_text(&buffers), (Vec::new(), false));
    assert_eq!(declaration.project_entry_id(&buffers), None);
    buffers.insert(buffer);
    assert_eq!(
        declaration.item_text(&buffers),
        (b"  fn f(a: u8) {\n    a + 1\n}\n".to_vec(), false)
    );
    assert_eq!(
        declaration.signature_text(&buffers),
        (b"fn f(a: u8)".to_vec(), false)
    );
    assert_eq!(declaration.project_entry_id(&buffers), Some(ProjectEntryId(8)));
}

#[test]
fn buffer_signature_lies_inside_the_item_text() {
    // 200 lines of 10 bytes; the item is all of it, the signature stands on its second line
    let text = long_text();
    let buffer = snapshot(&text);
    let mut buffers = BufferStore::new();
    buffers.insert(buffer.clone());
    let declaration = |signature: Range<usize>| Declaration::Buffer {
        buffer_id: BufferId(0),
        declaration: BufferDeclaration::from_outline(outline("big", 0..2000, signature), &buffer),
    };
    let (item, item_is_cut) = declaration(12..17).item_text(&buffers);
    assert_eq!(item.len(), 1024);
    assert!(item_is_cut);
    assert_eq!(
        declaration(12..17).signature_text(&buffers),
        (b"34567".to_vec(), false)
    );
    // a signature that ends behind the text that is kept is cut to fit, and flagged
    assert_eq!(
        declaration(1020..1030).signature_text(&buffers),
        (b"1234".to_vec(), true)
    );
    assert_eq!(
        declaration(1500..1600).signature_text(&buffers),
        (Vec::new(), true)
    );
    // the item does not start with its first line: the signature is counted from the
    // start of the text that is kept
    let inner = Declaration::Buffer {
        buffer_id: BufferId(0),
        declaration: BufferDeclaration::from_outline(outline("inner", 105..299, 105..109), &buffer),
    };
    assert_eq!(inner.item_text(&buffers).0.len(), 200);
    assert_eq!(inner.signature_text(&buffers), (b"6789".to_vec(), false));
}
