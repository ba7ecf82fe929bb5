//! The index of a project's declarations: every declaration of every indexed file and
//! open buffer, in the order in which it came in, found by the name it declares.

use crate::buffer::BufferId;
use crate::buffer::BufferSnapshot;
use crate::buffer::ProjectEntryId;
use crate::declaration::BufferDeclaration;
use crate::declaration::Declaration;
use crate::declaration::DeclarationId;
use crate::declaration::FileDeclaration;
use crate::declaration::Identifier;
use crate::declaration::IdentifierView;
use crate::outline::OutlineDeclaration;
use std::ops::Range;
use vstd::prelude::*;

verus! {

/// Where a declaration comes from: a file of the project or an open buffer.
#[derive(Clone, Copy, Debug, PartialEq, Eq, Structural)]
pub enum Source {
    File(ProjectEntryId),
    Buffer(BufferId),
}

/// A declaration under its identity.
#[derive(Clone, Debug)]
pub struct IndexEntry {
    pub id: DeclarationId,
    pub declaration: Declaration,
}

/// Where `declaration` comes from.
pub open spec fn spec_source(declaration: Declaration) -> Source {
    match declaration {
        Declaration::File { project_entry_id, .. } => Source::File(project_entry_id),
        Declaration::Buffer { buffer_id, .. } => Source::Buffer(buffer_id),
    }
}

/// The places among the first `upto` entries whose declaration declares `identifier`,
/// in rising order.
pub open spec fn spec_positions_of(
    entries: Seq<IndexEntry>,
    identifier: IdentifierView,
    upto: int,
) -> Seq<int>
    decreases upto,
{
    if upto <= 0 {
        Seq::empty()
    } else {
        let rest = spec_positions_of(entries, identifier, upto - 1);
        if upto <= entries.len() && entries[upto - 1].declaration.spec_identifier()@
            == identifier {
            rest.push(upto - 1)
        } else {
            rest
        }
    }
}

/// The places of the first `limit` entries whose declaration declares `identifier`.
pub open spec fn spec_declarations_for(
    entries: Seq<IndexEntry>,
    identifier: IdentifierView,
    limit: int,
) -> Seq<int> {
    let all = spec_positions_of(entries, identifier, entries.len() as int);
    if limit <= 0 {
        Seq::empty()
    } else if all.len() <= limit {
        all
    } else {
        all.take(limit)
    }
}

/// How many of the first `upto` entries come from `source`.
pub open spec fn spec_count_from(entries: Seq<IndexEntry>, source: Source, upto: int) -> int
    decreases upto,
{
    if upto <= 0 {
        0
    } else {
        let rest = spec_count_from(entries, source, upto - 1);
        if upto <= entries.len() && spec_source(entries[upto - 1].declaration) == source {
            rest + 1
        } else {
            rest
        }
    }
}

/// The first `upto` entries without those that come from `first` or from `second`, in
/// their order.
pub open spec fn spec_without(
    entries: Seq<IndexEntry>,
    first: Source,
    second: Source,
    upto: int,
) -> Seq<IndexEntry>
    decreases upto,
{
    if upto <= 0 {
        Seq::empty()
    } else {
        let rest = spec_without(entries, first, second, upto - 1);
        if upto > entries.len() {
            rest
        } else {
            let source = spec_source(entries[upto - 1].declaration);
            if source == first || source == second {
                rest
            } else {
                rest.push(entries[upto - 1])
            }
        }
    }
}

/// The identity that the entry at place `parent_index` of an outline gets when the
/// outline's entries are numbered from `base` on; none where the outline names no
/// parent or one outside itself.
pub open spec fn spec_parent_id(parent_index: Option<usize>, base: int, count: int) -> Option<
    DeclarationId,
> {
    match parent_index {
        Some(p) => if p < count {
            Some(DeclarationId((base + p) as usize))
        } else {
            None
        },
        None => None,
    }
}

pub proof fn lemma_positions_of(entries: Seq<IndexEntry>, identifier: IdentifierView, upto: int)
    requires
        0 <= upto <= entries.len(),
    ensures
        spec_positions_of(entries, identifier, upto).len() <= upto,
        forall|k: int|
            0 <= k < spec_positions_of(entries, identifier, upto).len() ==> {
                let p = #[trigger] spec_positions_of(entries, identifier, upto)[k];
                &&& 0 <= p < upto
                &&& entries[p].declaration.spec_identifier()@ == identifier
            },
        forall|a: int, b: int|
            0 <= a < b < spec_positions_of(entries, identifier, upto).len()
                ==> spec_positions_of(entries, identifier, upto)[a] < spec_positions_of(
                entries,
                identifier,
                upto,
            )[b],
    decreases upto,
{
    if upto > 0 {
        lemma_positions_of(entries, identifier, upto - 1);
    }
}

/// The matches among fewer entries are the first of the matches among more.
pub proof fn lemma_positions_prefix(
    entries: Seq<IndexEntry>,
    identifier: IdentifierView,
    fewer: int,
    more: int,
)
    requires
        0 <= fewer <= more <= entries.len(),
    ensures
        spec_positions_of(entries, identifier, fewer).len() <= spec_positions_of(
            entries,
            identifier,
            more,
        ).len(),
        spec_positions_of(entries, identifier, more).take(
            spec_positions_of(entries, identifier, fewer).len() as int,
        ) == spec_positions_of(entries, identifier, fewer),
    decreases more - fewer,
{
    let short = spec_positions_of(entries, identifier, fewer);
    if fewer < more {
        lemma_positions_prefix(entries, identifier, fewer, more - 1);
        let middle = spec_positions_of(entries, identifier, more - 1);
        let long = spec_positions_of(entries, identifier, more);
        assert(long.take(short.len() as int) == middle.take(short.len() as int));
    } else {
        assert(short.take(short.len() as int) == short);
    }
}

pub proof fn lemma_without(entries: Seq<IndexEntry>, first: Source, second: Source, upto: int)
    requires
        0 <= upto <= entries.len(),
    ensures
        spec_without(entries, first, second, upto).len() <= upto,
        forall|k: int|
            0 <= k < spec_without(entries, first, second, upto).len() ==> {
                let e = #[trigger] spec_without(entries, first, second, upto)[k];
                &&& spec_source(e.declaration) != first
                &&& spec_source(e.declaration) != second
                &&& exists|j: int| k <= j < upto && entries[j] == e
            },
    decreases upto,
{
    if upto > 0 {
        lemma_without(entries, first, second, upto - 1);
        let rest = spec_without(entries, first, second, upto - 1);
        let all = spec_without(entries, first, second, upto);
        assert forall|k: int| 0 <= k < all.len() implies {
            let e = #[trigger] all[k];
            &&& spec_source(e.declaration) != first
            &&& spec_source(e.declaration) != second
            &&& exists|j: int| k <= j < upto && entries[j] == e
        } by {
            if k < rest.len() {
                let e = rest[k];
                let j = choose|j: int| k <= j < upto - 1 && entries[j] == e;
                assert(k <= j < upto && entries[j] == e);
            } else {
                assert(k <= upto - 1 < upto && entries[upto - 1] == all[k]);
            }
        }
    }
}

/// The project-wide index of declarations.
pub struct SyntaxIndex {
    entries: Vec<IndexEntry>,
    next_id: usize,
}

impl View for SyntaxIndex {
    type V = Seq<IndexEntry>;

    closed spec fn view(&self) -> Seq<IndexEntry> {
        self.entries@
    }
}

impl SyntaxIndex {
    /// The number that the next declaration gets as its identity.
    pub closed spec fn spec_next_id(&self) -> int {
        self.next_id as int
    }

    /// Identities rise along the entries, and all lie below the next one to give out.
    pub open spec fn wf(&self) -> bool {
        &&& 0 <= self.spec_next_id() <= usize::MAX
        &&& forall|i: int| 0 <= i < self@.len() ==> (#[trigger] self@[i]).id.0 < self.spec_next_id()
        &&& forall|i: int, j: int|
            0 <= i < j < self@.len() ==> (#[trigger] self@[i]).id.0 < (#[trigger] self@[j]).id.0
    }

    /// An index that holds nothing.
    pub fn new() -> (index: Self)
        ensures
            index.wf(),
            index@ == Seq::<IndexEntry>::empty(),
            index.spec_next_id() == 0,
    {
        SyntaxIndex { entries: Vec::new(), next_id: 0 }
    }

    /// Number of declarations held.
    pub fn len(&self) -> (len: usize)
        ensures
            len == self@.len(),
    {
        self.entries.len()
    }

    /// How many more declarations the index can number.
    pub fn ids_left(&self) -> (left: usize)
        ensures
            left == usize::MAX - self.spec_next_id(),
    {
        usize::MAX - self.next_id
    }

    /// The declaration with identity `id`, if the index holds it.
    pub fn get(&self, id: DeclarationId) -> (found: Option<&Declaration>)
        ensures
            match found {
                Some(declaration) => exists|i: int|
                    0 <= i < self@.len() && (#[trigger] self@[i]).id == id && self@[i].declaration
                        == *declaration,
                None => forall|i: int| 0 <= i < self@.len() ==> (#[trigger] self@[i]).id != id,
            },
    {
        let mut i: usize = 0;
        while i < self.entries.len()
            invariant
                i <= self@.len(),
                forall|j: int| 0 <= j < i ==> (#[trigger] self@[j]).id != id,
            decreases self@.len() - i,
        {
            if self.entries[i].id == id {
                return Some(&self.entries[i].declaration);
            }
            i = i + 1;
        }
        None
    }

    /// Up to `limit` declarations of `identifier`, files' and buffers' alike, in the
    /// order in which they came into the index.
    pub fn declarations_for_identifier(&self, identifier: &Identifier, limit: usize) -> (found:
        Vec<&Declaration>)
        ensures
            found@.len() == spec_declarations_for(self@, identifier@, limit as int).len(),
            found@.len() <= limit,
            forall|k: int|
                0 <= k < found@.len() ==> *(#[trigger] found@[k]) == self@[spec_declarations_for(
                    self@,
                    identifier@,
                    limit as int,
                )[k]].declaration,
    {
        let mut found: Vec<&Declaration> = Vec::new();
        let mut i: usize = 0;
        while i < self.entries.len() && found.len() < limit
            invariant
                i <= self@.len(),
                found@.len() <= limit,
                found@.len() == spec_positions_of(self@, identifier@, i as int).len(),
                forall|k: int|
                    0 <= k < found@.len() ==> *(#[trigger] found@[k]) == self@[spec_positions_of(
                        self@,
                        identifier@,
                        i as int,
                    )[k]].declaration,
            decreases self@.len() - i,
        {
            if self.entries[i].declaration.identifier().matches(identifier) {
                found.push(&self.entries[i].declaration);
            }
            i = i + 1;
        }
        proof {
            lemma_positions_prefix(self@, identifier@, i as int, self@.len() as int);
        }
        found
    }

    /// How many declarations the index holds from the file or buffer that `declaration`
    /// comes from.
    pub fn file_declaration_count(&self, declaration: &Declaration) -> (count: usize)
        ensures
            count == spec_count_from(self@, spec_source(*declaration), self@.len() as int),
    {
        let source = source_of(declaration);
        let mut count: usize = 0;
        let mut i: usize = 0;
        while i < self.entries.len()
            invariant
                i <= self@.len(),
                count <= i,
                count == spec_count_from(self@, source, i as int),
            decreases self@.len() - i,
        {
            if source_of(&self.entries[i].declaration) == source {
                count = count + 1;
            }
            i = i + 1;
        }
        count
    }

    /// Drops every entry that comes from `first` or from `second`.
    fn remove_sources(&mut self, first: Source, second: Source)
        requires
            old(self).wf(),
        ensures
            final(self).wf(),
            final(self).spec_next_id() == old(self).spec_next_id(),
            final(self)@ == spec_without(old(self)@, first, second, old(self)@.len() as int),
    {
        let ghost before = self@;
        let ghost n = before.len() as int;
        let mut i: usize = 0;
        let mut seen: Ghost<int> = Ghost(0);
        while i < self.entries.len()
            invariant
                0 <= seen@ <= n,
                n == before.len(),
                i <= self@.len(),
                self@.len() - i == n - seen@,
                self.next_id == old(self).next_id,
                self@.subrange(0, i as int) == spec_without(before, first, second, seen@),
                self@.subrange(i as int, self@.len() as int) == before.subrange(seen@, n),
            decreases self@.len() - i,
        {
            let ghost current = self@;
            assert(current[i as int] == current.subrange(i as int, current.len() as int)[0]);
            assert(current[i as int] == before[seen@]);
            let source = source_of(&self.entries[i].declaration);
            if source == first || source == second {
                self.entries.remove(i);
                proof {
                    assert(self@.subrange(0, i as int) == current.subrange(0, i as int));
                    assert(self@.subrange(i as int, self@.len() as int) == current.subrange(
                        i as int,
                        current.len() as int,
                    ).subrange(1, n - seen@));
                    assert(before.subrange(seen@, n).subrange(1, n - seen@) == before.subrange(
                        seen@ + 1,
                        n,
                    ));
                }
            } else {
                proof {
                    assert(current.subrange(0, i + 1) == current.subrange(0, i as int).push(
                        current[i as int],
                    ));
                    assert(current.subrange(i + 1, current.len() as int) == current.subrange(
                        i as int,
                        current.len() as int,
                    ).subrange(1, n - seen@));
                    assert(before.subrange(seen@, n).subrange(1, n - seen@) == before.subrange(
                        seen@ + 1,
                        n,
                    ));
                }
                i = i + 1;
            }
            proof {
                seen@ = seen@ + 1;
            }
        }
        proof {
            assert(self@.subrange(0, self@.len() as int) == self@);
            lemma_without(before, first, second, n);
            let kept = spec_without(before, first, second, n);
            assert forall|a: int, b: int| 0 <= a < b < kept.len() implies (#[trigger] kept[a]).id.0
                < (#[trigger] kept[b]).id.0 by {
                Self::lemma_without_order(before, first, second, n, a, b);
            }
        }
    }

    /// Entries that are kept stand in the order they had.
    proof fn lemma_without_order(
        entries: Seq<IndexEntry>,
        first: Source,
        second: Source,
        upto: int,
        a: int,
        b: int,
    )
        requires
            0 <= upto <= entries.len(),
            0 <= a < b < spec_without(entries, first, second, upto).len(),
            forall|i: int, j: int|
                0 <= i < j < entries.len() ==> (#[trigger] entries[i]).id.0 < (
                #[trigger] entries[j]).id.0,
        ensures
            spec_without(entries, first, second, upto)[a].id.0 < spec_without(
                entries,
                first,
                second,
                upto,
            )[b].id.0,
        decreases upto,
    {
        let rest = spec_without(entries, first, second, upto - 1);
        if b < rest.len() {
            Self::lemma_without_order(entries, first, second, upto - 1, a, b);
        } else {
            lemma_without(entries, first, second, upto - 1);
            let e = rest[a];
            let j = choose|j: int| a <= j < upto - 1 && entries[j] == e;
            assert(entries[j].id.0 < entries[upto - 1].id.0);
        }
    }

    /// Forgets the declarations of the file `project_entry_id`: it left the project.
    pub fn remove_file(&mut self, project_entry_id: ProjectEntryId)
        requires
            old(self).wf(),
        ensures
            final(self).wf(),
            final(self).spec_next_id() == old(self).spec_next_id(),
            final(self)@ == spec_without(
                old(self)@,
                Source::File(project_entry_id),
                Source::File(project_entry_id),
                old(self)@.len() as int,
            ),
    {
        self.remove_sources(Source::File(project_entry_id), Source::File(project_entry_id));
    }

    /// Forgets the declarations of the buffer `buffer_id`: it was closed.
    pub fn remove_buffer(&mut self, buffer_id: BufferId)
        requires
            old(self).wf(),
        ensures
            final(self).wf(),
            final(self).spec_next_id() == old(self).spec_next_id(),
            final(self)@ == spec_without(
                old(self)@,
                Source::Buffer(buffer_id),
                Source::Buffer(buffer_id),
                old(self)@.len() as int,
            ),
    {
        self.remove_sources(Source::Buffer(buffer_id), Source::Buffer(buffer_id));
    }

    /// Whether the entries from place `from` on are the declarations of `outline`, one
    /// for each entry and in its order, numbered from `base` on, each with the parent
    /// that the outline names.
    pub open spec fn spec_holds_outline(
        &self,
        from: int,
        base: int,
        outline: Seq<OutlineDeclaration>,
        source: Source,
        text: Seq<u8>,
        snapshot: &BufferSnapshot,
    ) -> bool {
        &&& self@.len() == from + outline.len()
        &&& forall|i: int|
            0 <= i < outline.len() ==> {
                let entry = #[trigger] self@[from + i];
                &&& entry.id == DeclarationId((base + i) as usize)
                &&& spec_source(entry.declaration) == source
                &&& entry.declaration.spec_parent() == spec_parent_id(
                    outline[i].parent_index,
                    base,
                    outline.len() as int,
                )
                &&& match entry.declaration {
                    Declaration::File { declaration, .. } => declaration.wf()
                        && declaration.spec_describes(
                        outline[i].identifier@,
                        outline[i].item_range,
                        outline[i].signature_range,
                        text,
                    ),
                    Declaration::Buffer { declaration, .. } => declaration.spec_describes(
                        outline[i].identifier@,
                        outline[i].item_range,
                        outline[i].signature_range,
                        snapshot,
                    ),
                }
            }
    }

    /// Indexes the file `project_entry_id` anew from its outline and text: the file's
    /// earlier declarations go, and one declaration for each outline entry comes in
    /// behind all others.
    pub fn update_file(
        &mut self,
        project_entry_id: ProjectEntryId,
        outline: &Vec<OutlineDeclaration>,
        snapshot: &BufferSnapshot,
    )
        requires
            old(self).wf(),
            old(self).spec_next_id() + outline@.len() <= usize::MAX,
        ensures
            final(self).wf(),
            final(self).spec_next_id() == old(self).spec_next_id() + outline@.len(),
            ({
                let source = Source::File(project_entry_id);
                let kept = spec_without(old(self)@, source, source, old(self)@.len() as int);
                &&& final(self)@.subrange(0, kept.len() as int) == kept
                &&& final(self).spec_holds_outline(
                    kept.len() as int,
                    old(self).spec_next_id(),
                    outline@,
                    source,
                    snapshot.spec_text(),
                    snapshot,
                )
            }),
    {
        let source = Source::File(project_entry_id);
        self.remove_sources(source, source);
        self.append_outline(source, outline, snapshot);
    }

    /// Indexes the open buffer `snapshot` anew from its outline: the buffer's earlier
    /// declarations go, and so do those of the file it shows; one declaration for each
    /// outline entry, anchored in the buffer, comes in behind all others.
    pub fn update_buffer(&mut self, snapshot: &BufferSnapshot, outline: &Vec<OutlineDeclaration>)
        requires
            old(self).wf(),
            old(self).spec_next_id() + outline@.len() <= usize::MAX,
        ensures
            final(self).wf(),
            final(self).spec_next_id() == old(self).spec_next_id() + outline@.len(),
            ({
                let source = Source::Buffer(snapshot.spec_id());
                let file = match snapshot.spec_project_entry_id() {
                    Some(id) => Source::File(id),
                    None => source,
                };
                let kept = spec_without(old(self)@, source, file, old(self)@.len() as int);
                &&& final(self)@.subrange(0, kept.len() as int) == kept
                &&& final(self).spec_holds_outline(
                    kept.len() as int,
                    old(self).spec_next_id(),
                    outline@,
                    source,
                    snapshot.spec_text(),
                    snapshot,
                )
            }),
    {
        let source = Source::Buffer(snapshot.remote_id());
        let file = match snapshot.project_entry_id() {
            Some(id) => Source::File(id),
            None => source,
        };
        self.remove_sources(source, file);
        self.append_outline(source, outline, snapshot);
    }

    /// Appends one declaration from `source` for each entry of `outline`.
    fn append_outline(
        &mut self,
        source: Source,
        outline: &Vec<OutlineDeclaration>,
        snapshot: &BufferSnapshot,
    )
        requires
            old(self).wf(),
            old(self).spec_next_id() + outline@.len() <= usize::MAX,
        ensures
            final(self).wf(),
            final(self).spec_next_id() == old(self).spec_next_id() + outline@.len(),
            final(self)@.subrange(0, old(self)@.len() as int) == old(self)@,
            final(self).spec_holds_outline(
                old(self)@.len() as int,
                old(self).spec_next_id(),
                outline@,
                source,
                snapshot.spec_text(),
                snapshot,
            ),
    {
        let ghost before = self@;
        let ghost from = before.len() as int;
        let base: usize = self.next_id;
        let count: usize = outline.len();
        let mut i: usize = 0;
        while i < count
            invariant
                i <= count,
                count == outline@.len(),
                base + count <= usize::MAX,
                base == old(self).next_id,
                self.next_id == base + i,
                from == before.len(),
                before == old(self)@,
                old(self).wf(),
                self@.len() == from + i,
                self@.subrange(0, from) == before,
                forall|k: int|
                    0 <= k < i ==> {
                        let entry = #[trigger] self@[from + k];
                        &&& entry.id == DeclarationId((base + k) as usize)
                        &&& spec_source(entry.declaration) == source
                        &&& entry.declaration.spec_parent() == spec_parent_id(
                            outline@[k].parent_index,
                            base as int,
                            count as int,
                        )
                        &&& match entry.declaration {
                            Declaration::File { declaration, .. } => declaration.wf()
                                && declaration.spec_describes(
                                outline@[k].identifier@,
                                outline@[k].item_range,
                                outline@[k].signature_range,
                                snapshot.spec_text(),
                            ),
                            Declaration::Buffer { declaration, .. } => declaration.spec_describes(
                                outline@[k].identifier@,
                                outline@[k].item_range,
                                outline@[k].signature_range,
                                snapshot,
                            ),
                        }
                    },
            decreases count - i,
        {
            let ghost current = self@;
            let entry = &outline[i];
            let parent: Option<DeclarationId> = match entry.parent_index {
                Some(p) => if p < count {
                    Some(DeclarationId(base + p))
                } else {
                    None
                },
                None => None,
            };
            let copy = OutlineDeclaration {
                parent_index: entry.parent_index,
                identifier: entry.identifier.duplicate(),
                item_range: Range { start: entry.item_range.start, end: entry.item_range.end },
                signature_range: Range {
                    start: entry.signature_range.start,
                    end: entry.signature_range.end,
                },
            };
            let declaration = match source {
                Source::File(project_entry_id) => {
                    let mut declaration = FileDeclaration::from_outline(copy, snapshot);
                    declaration.parent = parent;
                    Declaration::File { project_entry_id, declaration }
                },
                Source::Buffer(buffer_id) => {
                    let mut declaration = BufferDeclaration::from_outline(copy, snapshot);
                    declaration.parent = parent;
                    Declaration::Buffer { buffer_id, declaration }
                },
            };
            self.entries.push(IndexEntry { id: DeclarationId(base + i), declaration });
            self.next_id = self.next_id + 1;
            proof {
                assert(self@.subrange(0, from) == current.subrange(0, from));
                assert forall|k: int| 0 <= k < i implies #[trigger] self@[from + k] == current[from + k] by {}
            }
            i = i + 1;
        }
        proof {
            assert forall|a: int, b: int| 0 <= a < b < self@.len() implies (#[trigger] self@[a]).id.0
                < (#[trigger] self@[b]).id.0 by {
                if a < from {
                    assert(self@[a] == self@.subrange(0, from)[a]);
                    assert(before[a].id.0 < old(self).spec_next_id());
                }
                if b < from {
                    assert(self@[b] == self@.subrange(0, from)[b]);
                } else {
                    assert(self@[from + (b - from)].id.0 == base + (b - from));
                }
                if a >= from {
                    assert(self@[from + (a - from)].id.0 == base + (a - from));
                }
            }
            assert forall|a: int| 0 <= a < self@.len() implies (#[trigger] self@[a]).id.0
                < self.spec_next_id() by {
                if a < from {
                    assert(self@[a] == self@.subrange(0, from)[a]);
                    assert(before[a].id.0 < old(self).spec_next_id());
                } else {
                    assert(self@[from + (a - from)].id.0 == base + (a - from));
                }
            }
        }
    }
}

/// Where `declaration` comes from.
pub fn source_of(declaration: &Declaration) -> (source: Source)
    ensures
        source == spec_source(*declaration),
{
    match declaration {
        Declaration::File { project_entry_id, .. } => Source::File(*project_entry_id),
        Declaration::Buffer { buffer_id, .. } => Source::Buffer(*buffer_id),
    }
}

} // verus!
