//! Declarations as the index keeps them: a snapshot of text for files that are not
//! open, a pair of anchored ranges for buffers that are.

use crate::buffer::Anchor;
use crate::buffer::BufferId;
use crate::buffer::BufferSnapshot;
use crate::buffer::BufferStore;
use crate::buffer::LanguageId;
use crate::buffer::ProjectEntryId;
use crate::outline::OutlineDeclaration;
use crate::text::bytes_eq;
use crate::text::clamp_range;
use crate::text::clip_left;
use crate::text::line_end;
use crate::text::line_start;
use crate::text::slice_to_vec;
use crate::text::spec_clamp_range;
use crate::text::spec_clip_left;
use crate::text::spec_line_end;
use crate::text::spec_line_start;
use crate::text::spec_slice;
use std::ops::Range;
use vstd::prelude::*;

verus! {

/// Most bytes of text that a declaration carries.
pub const ITEM_TEXT_TRUNCATION_LENGTH: usize = 1024;

/// A name together with the language it belongs to. The same name in two languages is
/// two identifiers.
#[derive(Clone, Debug, PartialEq, Eq, Hash)]
pub struct Identifier {
    pub name: Vec<u8>,
    pub language_id: LanguageId,
}

/// An identifier as a value: the bytes of its name and its language.
pub struct IdentifierView {
    pub name: Seq<u8>,
    pub language_id: LanguageId,
}

impl View for Identifier {
    type V = IdentifierView;

    open spec fn view(&self) -> IdentifierView {
        IdentifierView { name: self.name@, language_id: self.language_id }
    }
}

impl Identifier {
    /// Whether both stand for the same name in the same language.
    pub fn matches(&self, other: &Identifier) -> (same: bool)
        ensures
            same == (self@ == other@),
    {
        self.language_id == other.language_id && bytes_eq(
            self.name.as_slice(),
            other.name.as_slice(),
        )
    }

    /// A copy of this identifier.
    pub fn duplicate(&self) -> (copy: Identifier)
        ensures
            copy@ == self@,
    {
        let name = slice_to_vec(self.name.as_slice(), &Range { start: 0, end: self.name.len() });
        assert(name@ == self.name@);
        Identifier { name, language_id: self.language_id }
    }
}

/// Identity of a declaration inside the index that holds it.
#[derive(Clone, Copy, Debug, PartialEq, Eq, Hash, Structural)]
pub struct DeclarationId(pub usize);

/// A declaration of a file that is not open: the text it had when the file was indexed.
#[derive(Clone, Debug)]
pub struct FileDeclaration {
    pub parent: Option<DeclarationId>,
    pub identifier: Identifier,
    /// Bytes of the declaration in the file, grown to whole lines and cut to the limit.
    pub item_range_in_file: Range<usize>,
    /// The text of `item_range_in_file`.
    pub text: Vec<u8>,
    /// Whether `text` was cut.
    pub text_is_truncated: bool,
    /// Bytes of the signature within `text`.
    pub signature_range_in_text: Range<usize>,
    /// Whether the signature was cut.
    pub signature_is_truncated: bool,
}

/// A declaration of an open buffer: anchors that follow the buffer's edits.
#[derive(Clone, Debug)]
pub struct BufferDeclaration {
    pub parent: Option<DeclarationId>,
    pub identifier: Identifier,
    pub item_range: Range<Anchor>,
    pub signature_range: Range<Anchor>,
}

/// A declaration, either of a file or of an open buffer.
#[derive(Clone, Debug)]
#[allow(inconsistent_fields)]
pub enum Declaration {
    File { project_entry_id: ProjectEntryId, declaration: FileDeclaration },
    Buffer { buffer_id: BufferId, declaration: BufferDeclaration },
}

/// `start..end`, cut to the text, grown to whole lines, then cut to `limit` bytes
/// without splitting a character; and whether the limit cut anything. The range starts
/// at the start of its first line and, uncut, ends at the start of the line after its
/// last.
pub open spec fn spec_expand_and_truncate(text: Seq<u8>, start: int, end: int, limit: int) -> (
    int,
    int,
    bool,
) {
    let (s, e) = spec_clamp_range(text.len() as int, start, end);
    let first = spec_line_start(text, s);
    let full_end = spec_line_end(text, e);
    let truncated = full_end - first > limit;
    let cut = if truncated {
        first + limit
    } else {
        full_end
    };
    let clipped = spec_clip_left(text, cut);
    (
        first,
        if clipped < first {
            first
        } else {
            clipped
        },
        truncated,
    )
}

/// The expanded range lies inside the text and holds at most `limit` bytes.
pub proof fn lemma_expand_and_truncate_bounds(text: Seq<u8>, start: int, end: int, limit: int)
    requires
        0 <= start,
        0 <= end,
        0 <= limit,
    ensures
        ({
            let (first, last, truncated) = spec_expand_and_truncate(text, start, end, limit);
            &&& 0 <= first <= last <= text.len()
            &&& last - first <= limit
        }),
{
    let (s, e) = spec_clamp_range(text.len() as int, start, end);
    crate::text::lemma_line_start_bounds(text, s);
    crate::text::lemma_line_end_bounds(text, e);
    let first = spec_line_start(text, s);
    let full_end = spec_line_end(text, e);
    let cut = if full_end - first > limit {
        first + limit
    } else {
        full_end
    };
    crate::text::lemma_clip_left_bounds(text, cut);
}

/// Whether every line of `text` starts with a whole character: no byte that continues
/// a character stands directly behind a newline.
pub open spec fn spec_lines_start_characters(text: Seq<u8>) -> bool {
    forall|i: int|
        0 < i < text.len() && text[i - 1] == crate::text::NEWLINE
            ==> !crate::text::spec_is_continuation(#[trigger] text[i])
}

/// In a text that is valid UTF-8 every line starts with a whole character: a newline
/// is a character of one byte, and a character starts behind it.
pub proof fn lemma_utf8_lines_start_characters(text: Seq<u8>)
    requires
        vstd::utf8::valid_utf8(text),
    ensures
        spec_lines_start_characters(text),
{
    assert forall|i: int|
        0 < i < text.len() && text[i - 1] == crate::text::NEWLINE
            implies !crate::text::spec_is_continuation(#[trigger] text[i]) by {
        lemma_character_starts_behind_newline(text, i);
    }
}

/// In valid UTF-8 the byte behind a newline does not continue a character.
proof fn lemma_character_starts_behind_newline(text: Seq<u8>, i: int)
    requires
        vstd::utf8::valid_utf8(text),
        0 < i < text.len(),
        text[i - 1] == crate::text::NEWLINE,
    ensures
        !crate::text::spec_is_continuation(text[i]),
    decreases text.len(),
{
    let width = vstd::utf8::length_of_first_scalar(text);
    let rest = vstd::utf8::pop_first_scalar(text);
    assert(vstd::utf8::valid_first_scalar(text));
    assert(vstd::utf8::valid_utf8(rest));
    assert(1 <= width <= text.len());
    assert(rest.len() == text.len() - width);
    if i - 1 < width {
        // The newline is the first character itself: inside a longer one every byte
        // but the first continues it.
        assert(i - 1 == 0);
        assert(width == 1);
        assert(rest.len() > 0);
        assert(vstd::utf8::valid_first_scalar(rest));
        assert(rest[0] == text[i]);
    } else if i == width {
        assert(vstd::utf8::valid_first_scalar(rest));
        assert(rest[0] == text[i]);
    } else {
        assert(rest[i - width - 1] == text[i - 1]);
        assert(rest[i - width] == text[i]);
        lemma_character_starts_behind_newline(rest, i - width);
    }
}

/// Where every line of the text starts with a whole character, a range that the limit
/// does not cut ends where the line of its end ends: keeping characters whole takes
/// nothing from it.
pub proof fn lemma_uncut_range_ends_with_its_line(
    text: Seq<u8>,
    start: int,
    end: int,
    limit: int,
)
    requires
        spec_lines_start_characters(text),
        0 <= start,
        0 <= end,
        0 <= limit,
    ensures
        ({
            let (first, last, truncated) = spec_expand_and_truncate(text, start, end, limit);
            let (s, e) = spec_clamp_range(text.len() as int, start, end);
            !truncated ==> first == spec_line_start(text, s) && last == spec_line_end(text, e)
        }),
{
    let (s, e) = spec_clamp_range(text.len() as int, start, end);
    let first = spec_line_start(text, s);
    let full_end = spec_line_end(text, e);
    crate::text::lemma_line_start_bounds(text, s);
    crate::text::lemma_line_end_bounds(text, e);
    crate::excerpt::lemma_line_end_is_line_end(text, e);
    if full_end - first <= limit {
        assert(spec_clip_left(text, full_end) == full_end);
    }
}

/// Grows `range` to whole lines of `text` and cuts it to `limit` bytes.
pub fn expand_range_to_line_boundaries_and_truncate(
    range: &Range<usize>,
    limit: usize,
    text: &[u8],
) -> (result: (Range<usize>, bool))
    ensures
        (result.0.start as int, result.0.end as int, result.1) == spec_expand_and_truncate(
            text@,
            range.start as int,
            range.end as int,
            limit as int,
        ),
        result.0.start <= result.0.end <= text@.len(),
        result.0.end - result.0.start <= limit,
{
    proof {
        lemma_expand_and_truncate_bounds(
            text@,
            range.start as int,
            range.end as int,
            limit as int,
        );
    }
    let clamped = clamp_range(text.len(), range);
    let first = line_start(text, clamped.start);
    let full_end = line_end(text, clamped.end);
    let is_truncated = full_end - first > limit;
    let cut: usize = if is_truncated { first + limit } else { full_end };
    let clipped = clip_left(text, cut);
    let last: usize = if clipped < first { first } else { clipped };
    (Range { start: first, end: last }, is_truncated)
}

/// Where a signature that spans `signature_range` of a text lies inside the text of an
/// item that starts at `item_start` and holds `item_len` bytes, and whether the
/// signature had to be cut to fit.
pub fn signature_in_text(signature_range: &Range<usize>, item_start: usize, item_len: usize) -> (
    result: (Range<usize>, bool))
    ensures
        (result.0.start as int, result.0.end as int, result.1)
            == FileDeclaration::spec_signature_in_text(
            signature_range.start as int,
            signature_range.end as int,
            item_start as int,
            item_len as int,
        ),
        result.0.start <= result.0.end <= item_len,
{
    let start: usize = if signature_range.start < item_start {
        0
    } else {
        signature_range.start - item_start
    };
    let mut end: usize = if signature_range.end < item_start {
        0
    } else {
        signature_range.end - item_start
    };
    let is_truncated = end > item_len;
    if is_truncated {
        end = item_len;
    }
    let start: usize = if start < end { start } else { end };
    (Range { start, end }, is_truncated)
}

impl FileDeclaration {
    /// Where a signature lies inside the text of its item, counted from the start of
    /// that text, and whether it had to be cut to fit: a signature that ends behind the
    /// text ends with the text and is flagged; one that starts in front of the text, or
    /// behind its own end, starts there.
    pub open spec fn spec_signature_in_text(
        signature_start: int,
        signature_end: int,
        item_start: int,
        item_len: int,
    ) -> (int, int, bool) {
        let start = if signature_start < item_start {
            0
        } else {
            signature_start - item_start
        };
        let end = if signature_end < item_start {
            0
        } else {
            signature_end - item_start
        };
        let truncated = end > item_len;
        let end = if truncated {
            item_len
        } else {
            end
        };
        (
            if start < end {
                start
            } else {
                end
            },
            end,
            truncated,
        )
    }

    /// The signature lies inside the text, and the text is as long as its range in the
    /// file.
    pub open spec fn wf(&self) -> bool {
        &&& self.signature_range_in_text.start <= self.signature_range_in_text.end
            <= self.text@.len()
        &&& self.item_range_in_file.start <= self.item_range_in_file.end
        &&& self.text@.len() == self.item_range_in_file.end - self.item_range_in_file.start
        &&& self.text@.len() <= ITEM_TEXT_TRUNCATION_LENGTH
    }

    /// Whether this is what an outline entry with the given name and ranges comes to in
    /// `text`: the entry's name; its range grown to whole lines and cut to the limit;
    /// the text of that range; and the signature's place inside that text.
    pub open spec fn spec_describes(
        &self,
        identifier: IdentifierView,
        item_range: Range<usize>,
        signature_range: Range<usize>,
        text: Seq<u8>,
    ) -> bool {
        let (first, last, truncated) = spec_expand_and_truncate(
            text,
            item_range.start as int,
            item_range.end as int,
            ITEM_TEXT_TRUNCATION_LENGTH as int,
        );
        let (signature_start, signature_end, signature_truncated) =
            FileDeclaration::spec_signature_in_text(
            signature_range.start as int,
            signature_range.end as int,
            first,
            last - first,
        );
        &&& self.identifier@ == identifier
        &&& self.item_range_in_file.start == first
        &&& self.item_range_in_file.end == last
        &&& self.text_is_truncated == truncated
        &&& self.text@ == text.subrange(first, last)
        &&& self.signature_range_in_text.start == signature_start
        &&& self.signature_range_in_text.end == signature_end
        &&& self.signature_is_truncated == signature_truncated
    }

    /// The declaration of an outline entry, with the text it has in `snapshot`. It has
    /// no parent yet.
    pub fn from_outline(declaration: OutlineDeclaration, snapshot: &BufferSnapshot) -> (
        file_declaration: FileDeclaration)
        ensures
            file_declaration.wf(),
            file_declaration.parent.is_none(),
            file_declaration.identifier == declaration.identifier,
            file_declaration.spec_describes(
                declaration.identifier@,
                declaration.item_range,
                declaration.signature_range,
                snapshot.spec_text(),
            ),
    {
        let text = snapshot.text();
        let (item_range_in_file, text_is_truncated) = expand_range_to_line_boundaries_and_truncate(
            &declaration.item_range,
            ITEM_TEXT_TRUNCATION_LENGTH,
            text,
        );
        let (signature_range_in_text, signature_is_truncated) = signature_in_text(
            &declaration.signature_range,
            item_range_in_file.start,
            item_range_in_file.end - item_range_in_file.start,
        );
        let item_text = slice_to_vec(text, &item_range_in_file);
        FileDeclaration {
            parent: None,
            identifier: declaration.identifier,
            signature_range_in_text,
            signature_is_truncated,
            text: item_text,
            text_is_truncated,
            item_range_in_file,
        }
    }
}

impl BufferDeclaration {
    /// The declaration of an outline entry, anchored in `snapshot`. The anchors stay in
    /// front of text inserted at their place, so the declaration grows with what is put
    /// directly before it and not with what is put directly behind it. It has no parent
    /// yet.
    pub fn from_outline(declaration: OutlineDeclaration, snapshot: &BufferSnapshot) -> (
        buffer_declaration: BufferDeclaration)
        ensures
            buffer_declaration.parent.is_none(),
            buffer_declaration.identifier == declaration.identifier,
            buffer_declaration.spec_describes(
                declaration.identifier@,
                declaration.item_range,
                declaration.signature_range,
                snapshot,
            ),
    {
        BufferDeclaration {
            parent: None,
            identifier: declaration.identifier,
            item_range: Range {
                start: snapshot.anchor_before(declaration.item_range.start),
                end: snapshot.anchor_before(declaration.item_range.end),
            },
            signature_range: Range {
                start: snapshot.anchor_before(declaration.signature_range.start),
                end: snapshot.anchor_before(declaration.signature_range.end),
            },
        }
    }

    /// Whether this is what an outline entry with the given name and ranges comes to in
    /// `snapshot`: the entry's name, and an anchor of `snapshot` at each end of its two
    /// ranges, leaning left.
    pub open spec fn spec_describes(
        &self,
        identifier: IdentifierView,
        item_range: Range<usize>,
        signature_range: Range<usize>,
        snapshot: &BufferSnapshot,
    ) -> bool {
        &&& self.identifier@ == identifier
        &&& self.item_range.start == snapshot.spec_anchor_before(item_range.start)
        &&& self.item_range.end == snapshot.spec_anchor_before(item_range.end)
        &&& self.signature_range.start == snapshot.spec_anchor_before(signature_range.start)
        &&& self.signature_range.end == snapshot.spec_anchor_before(signature_range.end)
    }

    /// Where the declaration lies in `snapshot` now.
    pub open spec fn spec_item_offsets(&self, snapshot: &BufferSnapshot) -> (int, int) {
        (snapshot.spec_resolve(self.item_range.start), snapshot.spec_resolve(self.item_range.end))
    }

    /// Where the signature lies in `snapshot` now.
    pub open spec fn spec_signature_offsets(&self, snapshot: &BufferSnapshot) -> (int, int) {
        (
            snapshot.spec_resolve(self.signature_range.start),
            snapshot.spec_resolve(self.signature_range.end),
        )
    }

    /// Where the declaration lies in `snapshot` now.
    pub fn item_offsets(&self, snapshot: &BufferSnapshot) -> (range: Range<usize>)
        requires
            snapshot.wf(),
        ensures
            (range.start as int, range.end as int) == self.spec_item_offsets(snapshot),
    {
        Range {
            start: snapshot.resolve(&self.item_range.start),
            end: snapshot.resolve(&self.item_range.end),
        }
    }

    /// Where the signature lies in `snapshot` now.
    pub fn signature_offsets(&self, snapshot: &BufferSnapshot) -> (range: Range<usize>)
        requires
            snapshot.wf(),
        ensures
            (range.start as int, range.end as int) == self.spec_signature_offsets(snapshot),
    {
        Range {
            start: snapshot.resolve(&self.signature_range.start),
            end: snapshot.resolve(&self.signature_range.end),
        }
    }
}

/// The text of `start..end` in `text`, grown to whole lines and cut to the limit, and
/// whether it was cut.
pub open spec fn spec_expanded_text(text: Seq<u8>, start: int, end: int) -> (Seq<u8>, bool) {
    let (first, last, truncated) = spec_expand_and_truncate(
        text,
        start,
        end,
        ITEM_TEXT_TRUNCATION_LENGTH as int,
    );
    (text.subrange(first, last), truncated)
}

/// The text of the signature `signature_start..signature_end` of the item
/// `item_start..item_end` in `text`, and whether it was cut: the part of the item's
/// text, as grown to whole lines and cut to the limit, that the signature spans. A
/// signature that ends behind that text is cut to end with it, and flagged.
pub open spec fn spec_signature_of_item(
    text: Seq<u8>,
    item_start: int,
    item_end: int,
    signature_start: int,
    signature_end: int,
) -> (Seq<u8>, bool) {
    let (first, last, _) = spec_expand_and_truncate(
        text,
        item_start,
        item_end,
        ITEM_TEXT_TRUNCATION_LENGTH as int,
    );
    let (start, end, truncated) = FileDeclaration::spec_signature_in_text(
        signature_start,
        signature_end,
        first,
        last - first,
    );
    (text.subrange(first, last).subrange(start, end), truncated)
}

impl Declaration {
    /// The name that is declared.
    pub open spec fn spec_identifier(&self) -> Identifier {
        match self {
            Declaration::File { declaration, .. } => declaration.identifier,
            Declaration::Buffer { declaration, .. } => declaration.identifier,
        }
    }

    /// The declaration that encloses this one, if one does.
    pub open spec fn spec_parent(&self) -> Option<DeclarationId> {
        match self {
            Declaration::File { declaration, .. } => declaration.parent,
            Declaration::Buffer { declaration, .. } => declaration.parent,
        }
    }

    /// The file the declaration stands in: its own for a file's declaration, that of
    /// the buffer for a buffer's, as far as the buffer is open and shows a file.
    pub open spec fn spec_project_entry_id(&self, buffers: &BufferStore) -> Option<
        ProjectEntryId,
    > {
        match self {
            Declaration::File { project_entry_id, .. } => Some(*project_entry_id),
            Declaration::Buffer { buffer_id, .. } => match buffers.spec_get(*buffer_id) {
                Some(snapshot) => snapshot.spec_project_entry_id(),
                None => None,
            },
        }
    }

    /// The text of the declaration and whether it was cut: the kept text for a file's
    /// declaration; for a buffer's, what its anchors span in the buffer now, grown to
    /// whole lines and cut to the limit, and no text at all where the buffer is closed.
    pub open spec fn spec_item_text(&self, buffers: &BufferStore) -> (Seq<u8>, bool) {
        match self {
            Declaration::File { declaration, .. } => (
                declaration.text@,
                declaration.text_is_truncated,
            ),
            Declaration::Buffer { buffer_id, declaration } => match buffers.spec_get(*buffer_id) {
                Some(snapshot) => {
                    let (start, end) = declaration.spec_item_offsets(&snapshot);
                    spec_expanded_text(snapshot.spec_text(), start, end)
                },
                None => (Seq::empty(), false),
            },
        }
    }

    /// The text of the signature and whether it was cut: the signature's part of the
    /// kept text for a file's declaration; for a buffer's, the part of the item's text,
    /// as it is now, that the signature's anchors span in the buffer now, and no text at
    /// all where the buffer is closed.
    pub open spec fn spec_signature_text(&self, buffers: &BufferStore) -> (Seq<u8>, bool) {
        match self {
            Declaration::File { declaration, .. } => (
                spec_slice(
                    declaration.text@,
                    declaration.signature_range_in_text.start as int,
                    declaration.signature_range_in_text.end as int,
                ),
                declaration.signature_is_truncated,
            ),
            Declaration::Buffer { buffer_id, declaration } => match buffers.spec_get(*buffer_id) {
                Some(snapshot) => {
                    let (item_start, item_end) = declaration.spec_item_offsets(&snapshot);
                    let (start, end) = declaration.spec_signature_offsets(&snapshot);
                    spec_signature_of_item(snapshot.spec_text(), item_start, item_end, start, end)
                },
                None => (Seq::empty(), false),
            },
        }
    }

    /// The signature's text is a part of the item's text, whatever the declaration and
    /// whatever the buffers.
    pub proof fn lemma_signature_text_lies_in_item_text(&self, buffers: &BufferStore)
        ensures
            exists|start: int, end: int|
                0 <= start <= end <= self.spec_item_text(buffers).0.len()
                    && self.spec_signature_text(buffers).0 == #[trigger] self.spec_item_text(
                    buffers,
                ).0.subrange(start, end),
    {
        let item = self.spec_item_text(buffers).0;
        match self {
            Declaration::File { declaration, .. } => {
                let (start, end) = spec_clamp_range(
                    item.len() as int,
                    declaration.signature_range_in_text.start as int,
                    declaration.signature_range_in_text.end as int,
                );
                assert(self.spec_signature_text(buffers).0 == item.subrange(start, end));
            },
            Declaration::Buffer { buffer_id, declaration } => match buffers.spec_get(*buffer_id) {
                Some(snapshot) => {
                    let text = snapshot.spec_text();
                    let (item_start, item_end) = declaration.spec_item_offsets(&snapshot);
                    let (signature_start, signature_end) = declaration.spec_signature_offsets(
                        &snapshot,
                    );
                    let (first, last, _) = spec_expand_and_truncate(
                        text,
                        item_start,
                        item_end,
                        ITEM_TEXT_TRUNCATION_LENGTH as int,
                    );
                    let (start, end, _) = FileDeclaration::spec_signature_in_text(
                        signature_start,
                        signature_end,
                        first,
                        last - first,
                    );
                    snapshot.lemma_resolve_is_nonnegative(declaration.item_range.start);
                    snapshot.lemma_resolve_is_nonnegative(declaration.item_range.end);
                    lemma_expand_and_truncate_bounds(
                        text,
                        item_start,
                        item_end,
                        ITEM_TEXT_TRUNCATION_LENGTH as int,
                    );
                    assert(self.spec_signature_text(buffers).0 == item.subrange(start, end));
                },
                None => {
                    assert(self.spec_signature_text(buffers).0 == item.subrange(0, 0));
                },
            },
        }
    }

    /// The name that is declared.
    pub fn identifier(&self) -> (identifier: &Identifier)
        ensures
            *identifier == self.spec_identifier(),
    {
        match self {
            Declaration::File { declaration, .. } => &declaration.identifier,
            Declaration::Buffer { declaration, .. } => &declaration.identifier,
        }
    }

    /// The declaration that encloses this one, if one does.
    pub fn parent(&self) -> (parent: Option<DeclarationId>)
        ensures
            parent == self.spec_parent(),
    {
        match self {
            Declaration::File { declaration, .. } => declaration.parent,
            Declaration::Buffer { declaration, .. } => declaration.parent,
        }
    }

    /// The file the declaration stands in, as far as it is known.
    pub fn project_entry_id(&self, buffers: &BufferStore) -> (id: Option<ProjectEntryId>)
        requires
            buffers.wf(),
        ensures
            id == self.spec_project_entry_id(buffers),
    {
        match self {
            Declaration::File { project_entry_id, .. } => Some(*project_entry_id),
            Declaration::Buffer { buffer_id, .. } => match buffers.get(*buffer_id) {
                Some(snapshot) => snapshot.project_entry_id(),
                None => None,
            },
        }
    }

    /// The text of the declaration, and whether it was cut.
    pub fn item_text(&self, buffers: &BufferStore) -> (result: (Vec<u8>, bool))
        requires
            buffers.wf(),
        ensures
            result.0@ == self.spec_item_text(buffers).0,
            result.1 == self.spec_item_text(buffers).1,
    {
        match self {
            Declaration::File { declaration, .. } => {
                let text = slice_to_vec(
                    declaration.text.as_slice(),
                    &Range { start: 0, end: declaration.text.len() },
                );
                assert(text@ == declaration.text@);
                (text, declaration.text_is_truncated)
            },
            Declaration::Buffer { buffer_id, declaration } => match buffers.get(*buffer_id) {
                Some(snapshot) => {
                    let range = declaration.item_offsets(snapshot);
                    let (expanded, is_truncated) = expand_range_to_line_boundaries_and_truncate(
                        &range,
                        ITEM_TEXT_TRUNCATION_LENGTH,
                        snapshot.text(),
                    );
                    (slice_to_vec(snapshot.text(), &expanded), is_truncated)
                },
                None => (Vec::new(), false),
            },
        }
    }

    /// The text of the signature, and whether it was cut.
    pub fn signature_text(&self, buffers: &BufferStore) -> (result: (Vec<u8>, bool))
        requires
            buffers.wf(),
        ensures
            result.0@ == self.spec_signature_text(buffers).0,
            result.1 == self.spec_signature_text(buffers).1,
    {
        match self {
            Declaration::File { declaration, .. } => (
                slice_to_vec(declaration.text.as_slice(), &declaration.signature_range_in_text),
                declaration.signature_is_truncated,
            ),
            Declaration::Buffer { buffer_id, declaration } => match buffers.get(*buffer_id) {
                Some(snapshot) => {
                    let item_range = declaration.item_offsets(snapshot);
                    let (item, _) = expand_range_to_line_boundaries_and_truncate(
                        &item_range,
                        ITEM_TEXT_TRUNCATION_LENGTH,
                        snapshot.text(),
                    );
                    let signature_range = declaration.signature_offsets(snapshot);
                    let (within, is_truncated) = signature_in_text(
                        &signature_range,
                        item.start,
                        item.end - item.start,
                    );
                    let signature = Range {
                        start: item.start + within.start,
                        end: item.start + within.end,
                    };
                    let text = slice_to_vec(snapshot.text(), &signature);
                    proof {
                        let whole = snapshot.spec_text();
                        assert(text@ == whole.subrange(item.start as int, item.end as int).subrange(
                            within.start as int,
                            within.end as int,
                        ));
                    }
                    (text, is_truncated)
                },
                None => (Vec::new(), false),
            },
        }
    }
}

} // verus!
