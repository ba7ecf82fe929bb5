use edit_prediction_context::buffer::Anchor;
use edit_prediction_context::buffer::Bias;
use edit_prediction_context::buffer::BufferId;
use edit_prediction_context::buffer::BufferSnapshot;
use edit_prediction_context::buffer::BufferStore;
use edit_prediction_context::buffer::LanguageId;
use edit_prediction_context::buffer::ProjectEntryId;

fn buffer(id: u64, text: &str) -> BufferSnapshot {
    BufferSnapshot::new(
        BufferId(id),
        Some(ProjectEntryId(id as usize + 100)),
        LanguageId(7),
        text.as_bytes().to_vec(),
    )
}

#[test]
fn new_buffer_reports_what_it_was_given() {
    let snapshot = buffer(1, "hello\nworld\n");
    assert_eq!(snapshot.remote_id(), BufferId(1));
    assert_eq!(snapshot.project_entry_id(), Some(ProjectEntryId(101)));
    assert_eq!(snapshot.language_id(), LanguageId(7));
    assert_eq!(snapshot.text(), b"hello\nworld\n");
    assert_eq!(snapshot.len(), 12);
    assert_eq!(snapshot.version(), 0);
}

#[test]
fn anchors_resolve_to_their_offset_without_edits() {
    let snapshot = buffer(1, "hello world");
    let anchor = snapshot.anchor_before(6);
    assert_eq!(
        anchor,
        Anchor {
            offset: 6,
            bias: Bias::Left,
            version: 0
        }
    );
    assert_eq!(snapshot.resolve(&anchor), 6);
    let beyond = snapshot.anchor_after(60);
    assert_eq!(beyond.offset, 11);
    assert_eq!(beyond.bias, Bias::Right);
    assert_eq!(snapshot.resolve(&beyond), 11);
}

#[test]
fn edit_replaces_text_and_counts_versions() {
    let mut snapshot = buffer(1, "hello world");
    snapshot.edit(&(0..5), b"goodbye");
    assert_eq!(snapshot.text(), b"goodbye world");
    assert_eq!(snapshot.version(), 1);
    snapshot.edit(&(7..7), b",");
    assert_eq!(snapshot.text(), b"goodbye, world");
    snapshot.edit(&(8..100), b"");
    assert_eq!(snapshot.text(), b"goodbye,");
    assert_eq!(snapshot.version(), 3);
    assert_eq!(snapshot.remote_id(), BufferId(1));
}

#[test]
fn anchors_follow_edits() {
    let mut snapshot = buffer(1, "hello world");
    let before_world = snapshot.anchor_before(6);
    let after_world = snapshot.anchor_after(11);
    let start = snapshot.anchor_before(0);
    // in front of the anchors: they move with the text
    snapshot.edit(&(0..5), b"goodbye");
    assert_eq!(snapshot.resolve(&before_world), 8);
    assert_eq!(snapshot.resolve(&after_world), 13);
    assert_eq!(snapshot.resolve(&start), 0);
    // behind an anchor: it stays
    snapshot.edit(&(13..13), b"!");
    assert_eq!(snapshot.resolve(&before_world), 8);
    // an anchor leaning right moves behind what is put at its place
    assert_eq!(snapshot.resolve(&after_world), 14);
}

#[test]
fn insertion_at_an_anchor_goes_by_its_bias() {
    let mut snapshot = buffer(1, "ab");
    let left = snapshot.anchor_before(1);
    let right = snapshot.anchor_after(1);
    snapshot.edit(&(1..1), b"XYZ");
    assert_eq!(snapshot.text(), b"aXYZb");
    assert_eq!(snapshot.resolve(&left), 1);
    assert_eq!(snapshot.resolve(&right), 4);
}

#[test]
fn anchors_inside_replaced_text_collapse() {
    let mut snapshot = buffer(1, "0123456789");
    let left = snapshot.anchor_before(5);
    let right = snapshot.anchor_after(5);
    snapshot.edit(&(2..8), b"ab");
    assert_eq!(snapshot.text(), b"01ab89");
    assert_eq!(snapshot.resolve(&left), 2);
    assert_eq!(snapshot.resolve(&right), 4);
}

#[test]
fn anchors_of_later_versions_resolve_from_their_version() {
    let mut snapshot = buffer(1, "abc");
    snapshot.edit(&(0..0), b"xx");
    let anchor = snapshot.anchor_before(4);
    assert_eq!(anchor.version, 1);
    snapshot.edit(&(0..1), b"");
    assert_eq!(snapshot.text(), b"xabc");
    assert_eq!(snapshot.resolve(&anchor), 3);
    // an anchor of a version that the buffer has not reached: its offset, cut to the text
    let stale = Anchor {
        offset: 50,
        bias: Bias::Left,
        version: 9,
    };
    assert_eq!(snapshot.resolve(&stale), 4);
}

#[test]
fn store_holds_buffers_by_identity() {
    let mut store = BufferStore::new();
    assert!(store.get(BufferId(1)).is_none());
    store.insert(buffer(1, "one"));
    store.insert(buffer(2, "two"));
    assert_eq!(store.get(BufferId(1)).unwrap().text(), b"one");
    assert_eq!(store.get(BufferId(2)).unwrap().text(), b"two");
    store.insert(buffer(1, "uno"));
    assert_eq!(store.get(BufferId(1)).unwrap().text(), b"uno");
    assert_eq!(store.get(BufferId(2)).unwrap().text(), b"two");
    store.remove(BufferId(1));
    assert!(store.get(BufferId(1)).is_none());
    assert_eq!(store.get(BufferId(2)).unwrap().text(), b"two");
    store.remove(BufferId(5));
    assert_eq!(store.get(BufferId(2)).unwrap().text(), b"two");
}
