//! Buffers as the context engine sees them: an identity, the file and language they
//! belong to, their current text, and the edits that led to it. Positions that must
//! survive edits are kept as anchors and resolved against a buffer when they are used.

use crate::text::clamp_range;
use std::ops::Range;
use vstd::prelude::*;

verus! {

/// Identity of an open buffer.
#[derive(Clone, Copy, Debug, PartialEq, Eq, Hash, Structural)]
pub struct BufferId(pub u64);

/// Stable identity of a file of the project.
#[derive(Clone, Copy, Debug, PartialEq, Eq, Hash, Structural)]
pub struct ProjectEntryId(pub usize);

/// Tag of the language a name belongs to.
#[derive(Clone, Copy, Debug, PartialEq, Eq, Hash, Structural)]
pub struct LanguageId(pub usize);

/// The side an anchor leans to when text is replaced around it.
#[derive(Clone, Copy, Debug, PartialEq, Eq, Hash, Structural)]
pub enum Bias {
    Left,
    Right,
}

/// One replacement of text: the bytes `start..old_end` of a text of `len_before` bytes
/// gave way to `new_len` new bytes.
#[derive(Clone, Copy, Debug, PartialEq, Eq, Hash, Structural)]
pub struct Edit {
    pub start: usize,
    pub old_end: usize,
    pub new_len: usize,
    pub len_before: usize,
}

/// A position in a buffer that survives edits: an offset into the text as it was after
/// `version` edits, and the side it leans to.
#[derive(Clone, Copy, Debug, PartialEq, Eq, Hash, Structural)]
pub struct Anchor {
    pub offset: usize,
    pub bias: Bias,
    pub version: usize,
}

/// Where position `p` lies after `edit`. A position in front of the replaced bytes
/// stays, one behind them moves with the text that follows, and one inside or at their
/// border goes to the start of the new bytes or to their end, as `bias` says.
pub open spec fn spec_rebase(p: int, bias: Bias, edit: Edit) -> int {
    if p < edit.start {
        p
    } else if p > edit.old_end {
        p - (edit.old_end - edit.start) + edit.new_len
    } else {
        match bias {
            Bias::Left => edit.start as int,
            Bias::Right => edit.start + edit.new_len,
        }
    }
}

/// Where position `p` lies after the edits from number `k` on.
pub open spec fn spec_rebase_from(edits: Seq<Edit>, k: int, p: int, bias: Bias) -> int
    decreases edits.len() - k,
{
    if k < 0 || k >= edits.len() {
        p
    } else {
        spec_rebase_from(edits, k + 1, spec_rebase(p, bias, edits[k]), bias)
    }
}

/// Rebasing keeps the order of positions that lean to the same side.
pub proof fn lemma_rebase_monotonic(p: int, q: int, bias: Bias, edit: Edit)
    requires
        p <= q,
        edit.start <= edit.old_end,
    ensures
        spec_rebase(p, bias, edit) <= spec_rebase(q, bias, edit),
{
}

/// Rebasing over a run of edits keeps the order of positions that lean to the same
/// side.
pub proof fn lemma_rebase_from_monotonic(edits: Seq<Edit>, k: int, p: int, q: int, bias: Bias)
    requires
        p <= q,
        forall|i: int| 0 <= i < edits.len() ==> (#[trigger] edits[i]).start <= edits[i].old_end,
    ensures
        spec_rebase_from(edits, k, p, bias) <= spec_rebase_from(edits, k, q, bias),
    decreases edits.len() - k,
{
    if 0 <= k < edits.len() {
        lemma_rebase_monotonic(p, q, bias, edits[k]);
        lemma_rebase_from_monotonic(
            edits,
            k + 1,
            spec_rebase(p, bias, edits[k]),
            spec_rebase(q, bias, edits[k]),
            bias,
        );
    }
}

/// Rebasing never leads in front of the text.
pub proof fn lemma_rebase_from_nonnegative(edits: Seq<Edit>, k: int, p: int, bias: Bias)
    requires
        0 <= p,
    ensures
        0 <= spec_rebase_from(edits, k, p, bias),
    decreases edits.len() - k,
{
    if 0 <= k < edits.len() {
        lemma_rebase_from_nonnegative(edits, k + 1, spec_rebase(p, bias, edits[k]), bias);
    }
}

/// The state of a buffer at one moment.
#[derive(Clone, Debug)]
pub struct BufferSnapshot {
    id: BufferId,
    project_entry_id: Option<ProjectEntryId>,
    language_id: LanguageId,
    text: Vec<u8>,
    edits: Vec<Edit>,
}

impl BufferSnapshot {
    /// The buffer's identity.
    pub closed spec fn spec_id(&self) -> BufferId {
        self.id
    }

    /// The file the buffer shows, if it shows one.
    pub closed spec fn spec_project_entry_id(&self) -> Option<ProjectEntryId> {
        self.project_entry_id
    }

    /// The language of the buffer's text.
    pub closed spec fn spec_language_id(&self) -> LanguageId {
        self.language_id
    }

    /// The buffer's current text.
    pub closed spec fn spec_text(&self) -> Seq<u8> {
        self.text@
    }

    /// The edits made so far, oldest first.
    pub closed spec fn spec_edits(&self) -> Seq<Edit> {
        self.edits@
    }

    /// Length of the text when `version` edits had been made.
    pub open spec fn spec_len_at(&self, version: int) -> int {
        if 0 <= version < self.spec_edits().len() {
            self.spec_edits()[version].len_before as int
        } else {
            self.spec_text().len() as int
        }
    }

    /// The log of edits is consistent: every edit lies inside the text it was made on,
    /// and leaves a text of the length that the next edit, or the current text, has.
    pub open spec fn wf(&self) -> bool {
        forall|k: int|
            0 <= k < self.spec_edits().len() ==> {
                let e = #[trigger] self.spec_edits()[k];
                &&& e.start <= e.old_end <= e.len_before
                &&& e.len_before - (e.old_end - e.start) + e.new_len == self.spec_len_at(k + 1)
            }
    }

    /// Where `anchor` lies in the current text: its offset, cut to the text it was made
    /// on, carried over every edit made since. An anchor from a version that this buffer
    /// has not reached lies at its offset, cut to the current text.
    pub open spec fn spec_resolve(&self, anchor: Anchor) -> int {
        let len = self.spec_len_at(anchor.version as int);
        let start = if anchor.offset < len { anchor.offset as int } else { len };
        spec_rebase_from(self.spec_edits(), anchor.version as int, start, anchor.bias)
    }

    /// The anchor that `anchor_before` makes at `offset`: the offset cut to the current
    /// text, leaning left, at the current version.
    pub open spec fn spec_anchor_before(&self, offset: usize) -> Anchor {
        Anchor {
            offset: if offset < self.spec_text().len() {
                offset
            } else {
                self.spec_text().len() as usize
            },
            bias: Bias::Left,
            version: self.spec_edits().len() as usize,
        }
    }

    /// An anchor never resolves to a place in front of the text.
    pub proof fn lemma_resolve_is_nonnegative(&self, anchor: Anchor)
        ensures
            0 <= self.spec_resolve(anchor),
    {
        let len = self.spec_len_at(anchor.version as int);
        let start = if anchor.offset < len { anchor.offset as int } else { len };
        lemma_rebase_from_nonnegative(self.spec_edits(), anchor.version as int, start, anchor.bias);
    }

    /// An anchor resolves to a place inside the current text, which is a place that a
    /// machine can count to.
    pub proof fn lemma_resolve_in_bounds(&self, anchor: Anchor)
        requires
            self.wf(),
        ensures
            0 <= self.spec_resolve(anchor) <= self.spec_text().len() <= usize::MAX,
    {
        let len = self.spec_len_at(anchor.version as int);
        let start = if anchor.offset < len { anchor.offset as int } else { len };
        assert(self.text.len() == self.text@.len());
        self.lemma_rebase_in_bounds(
            if anchor.version < self.spec_edits().len() {
                anchor.version as int
            } else {
                self.spec_edits().len() as int
            },
            start,
            anchor.bias,
        );
    }

    /// A resolved anchor lies inside the current text.
    pub proof fn lemma_rebase_in_bounds(&self, k: int, p: int, bias: Bias)
        requires
            self.wf(),
            0 <= k,
            0 <= p <= self.spec_len_at(k),
        ensures
            0 <= spec_rebase_from(self.spec_edits(), k, p, bias) <= self.spec_text().len(),
        decreases self.spec_edits().len() - k,
    {
        if k < self.spec_edits().len() {
            let e = self.spec_edits()[k];
            self.lemma_rebase_in_bounds(k + 1, spec_rebase(p, bias, e), bias);
        }
    }

    /// A buffer with the given text and no edits yet.
    pub fn new(
        id: BufferId,
        project_entry_id: Option<ProjectEntryId>,
        language_id: LanguageId,
        text: Vec<u8>,
    ) -> (snapshot: Self)
        ensures
            snapshot.wf(),
            snapshot.spec_id() == id,
            snapshot.spec_project_entry_id() == project_entry_id,
            snapshot.spec_language_id() == language_id,
            snapshot.spec_text() == text@,
            snapshot.spec_edits() == Seq::<Edit>::empty(),
    {
        BufferSnapshot { id, project_entry_id, language_id, text, edits: Vec::new() }
    }

    /// The buffer's identity.
    pub fn remote_id(&self) -> (id: BufferId)
        ensures
            id == self.spec_id(),
    {
        self.id
    }

    /// The file the buffer shows, if it shows one.
    pub fn project_entry_id(&self) -> (id: Option<ProjectEntryId>)
        ensures
            id == self.spec_project_entry_id(),
    {
        self.project_entry_id
    }

    /// The language of the buffer's text.
    pub fn language_id(&self) -> (id: LanguageId)
        ensures
            id == self.spec_language_id(),
    {
        self.language_id
    }

    /// The buffer's current text.
    pub fn text(&self) -> (text: &[u8])
        ensures
            text@ == self.spec_text(),
    {
        self.text.as_slice()
    }

    /// Length of the current text in bytes.
    pub fn len(&self) -> (len: usize)
        ensures
            len == self.spec_text().len(),
    {
        self.text.len()
    }

    /// Number of edits made so far.
    pub fn version(&self) -> (version: usize)
        ensures
            version == self.spec_edits().len(),
    {
        self.edits.len()
    }

    /// An anchor at `offset` of the current text that stays in front of text inserted
    /// at its place.
    pub fn anchor_before(&self, offset: usize) -> (anchor: Anchor)
        ensures
            anchor == self.spec_anchor_before(offset),
            self.spec_resolve(anchor) == anchor.offset,
    {
        let offset: usize = if offset < self.text.len() { offset } else { self.text.len() };
        Anchor { offset, bias: Bias::Left, version: self.edits.len() }
    }

    /// An anchor at `offset` of the current text that moves behind text inserted at its
    /// place.
    pub fn anchor_after(&self, offset: usize) -> (anchor: Anchor)
        ensures
            anchor == (Anchor {
                offset: if offset < self.spec_text().len() {
                    offset
                } else {
                    self.spec_text().len() as usize
                },
                bias: Bias::Right,
                version: self.spec_edits().len() as usize,
            }),
            self.spec_resolve(anchor) == anchor.offset,
    {
        let offset: usize = if offset < self.text.len() { offset } else { self.text.len() };
        Anchor { offset, bias: Bias::Right, version: self.edits.len() }
    }

    /// Where `anchor` lies in the current text.
    pub fn resolve(&self, anchor: &Anchor) -> (offset: usize)
        requires
            self.wf(),
        ensures
            offset == self.spec_resolve(*anchor),
            offset <= self.spec_text().len(),
    {
        let mut k: usize = anchor.version;
        let len_then: usize = if k < self.edits.len() {
            self.edits[k].len_before
        } else {
            self.text.len()
        };
        let mut p: usize = if anchor.offset < len_then { anchor.offset } else { len_then };
        proof {
            self.lemma_rebase_in_bounds(k as int, p as int, anchor.bias);
        }
        let text_len: usize = self.text.len();
        while k < self.edits.len()
            invariant
                self.wf(),
                text_len == self.spec_text().len(),
                p <= self.spec_len_at(k as int),
                spec_rebase_from(self.spec_edits(), k as int, p as int, anchor.bias)
                    == self.spec_resolve(*anchor),
            decreases self.spec_edits().len() - k,
        {
            let e = self.edits[k];
            assert(e == self.spec_edits()[k as int]);
            assert(e.start <= e.old_end <= e.len_before);
            assert(e.len_before - (e.old_end - e.start) + e.new_len == self.spec_len_at(k + 1));
            assert(p <= e.len_before);
            if p < e.start {
            } else if p > e.old_end {
                p = p - (e.old_end - e.start) + e.new_len;
            } else {
                match anchor.bias {
                    Bias::Left => {
                        p = e.start;
                    },
                    Bias::Right => {
                        p = e.start + e.new_len;
                    },
                }
            }
            k = k + 1;
        }
        p
    }

    /// Replaces the bytes in `range`, cut to the text, by `new_text`, and records the
    /// edit. Anchors made before still resolve, to where their place has moved.
    pub fn edit(&mut self, range: &Range<usize>, new_text: &[u8])
        requires
            old(self).wf(),
            old(self).spec_text().len() + new_text@.len() <= usize::MAX,
        ensures
            final(self).wf(),
            final(self).spec_id() == old(self).spec_id(),
            final(self).spec_project_entry_id() == old(self).spec_project_entry_id(),
            final(self).spec_language_id() == old(self).spec_language_id(),
            ({
                let len = old(self).spec_text().len() as int;
                let (start, end) = crate::text::spec_clamp_range(
                    len,
                    range.start as int,
                    range.end as int,
                );
                &&& final(self).spec_text() == old(self).spec_text().subrange(0, start) + new_text@
                    + old(self).spec_text().subrange(end, len)
                &&& final(self).spec_edits() == old(self).spec_edits().push(
                    Edit {
                        start: start as usize,
                        old_end: end as usize,
                        new_len: new_text@.len() as usize,
                        len_before: len as usize,
                    },
                )
            }),
    {
        let clamped = clamp_range(self.text.len(), range);
        let old_len: usize = self.text.len();
        let mut text: Vec<u8> = Vec::new();
        let mut i: usize = 0;
        while i < clamped.start
            invariant
                i <= clamped.start <= old_len,
                old_len == self.text@.len(),
                text@ == self.text@.subrange(0, i as int),
            decreases clamped.start - i,
        {
            text.push(self.text[i]);
            i = i + 1;
        }
        let mut j: usize = 0;
        while j < new_text.len()
            invariant
                j <= new_text@.len(),
                text@ == self.text@.subrange(0, clamped.start as int) + new_text@.subrange(
                    0,
                    j as int,
                ),
            decreases new_text@.len() - j,
        {
            text.push(new_text[j]);
            j = j + 1;
        }
        let mut k: usize = clamped.end;
        assert(new_text@.subrange(0, new_text@.len() as int) == new_text@);
        while k < old_len
            invariant
                clamped.end <= k <= old_len,
                old_len == self.text@.len(),
                text@ == self.text@.subrange(0, clamped.start as int) + new_text@
                    + self.text@.subrange(clamped.end as int, k as int),
            decreases old_len - k,
        {
            text.push(self.text[k]);
            k = k + 1;
        }
        let ghost before = *self;
        self.text = text;
        self.edits.push(
            Edit {
                start: clamped.start,
                old_end: clamped.end,
                new_len: new_text.len(),
                len_before: old_len,
            },
        );
        proof {
            let n = before.spec_edits().len() as int;
            assert forall|m: int| 0 <= m < self.spec_edits().len() implies {
                let e = #[trigger] self.spec_edits()[m];
                &&& e.start <= e.old_end <= e.len_before
                &&& e.len_before - (e.old_end - e.start) + e.new_len == self.spec_len_at(m + 1)
            } by {
                if m < n {
                    assert(self.spec_edits()[m] == before.spec_edits()[m]);
                    assert(before.spec_len_at(m + 1) == self.spec_len_at(m + 1));
                }
            }
        }
    }
}

/// The buffers that are open, each under its identity.
#[derive(Clone, Debug)]
pub struct BufferStore {
    buffers: Vec<BufferSnapshot>,
}

impl View for BufferStore {
    type V = Seq<BufferSnapshot>;

    closed spec fn view(&self) -> Seq<BufferSnapshot> {
        self.buffers@
    }
}

impl BufferStore {
    /// Every buffer is consistent, and no identity is held twice.
    pub open spec fn wf(&self) -> bool {
        &&& forall|i: int| 0 <= i < self@.len() ==> (#[trigger] self@[i]).wf()
        &&& forall|i: int, j: int|
            0 <= i < j < self@.len() ==> (#[trigger] self@[i]).spec_id() != (
            #[trigger] self@[j]).spec_id()
    }

    /// The buffer held under `id`, if one is.
    pub open spec fn spec_get(&self, id: BufferId) -> Option<BufferSnapshot> {
        if exists|i: int| 0 <= i < self@.len() && (#[trigger] self@[i]).spec_id() == id {
            let i = choose|i: int| 0 <= i < self@.len() && (#[trigger] self@[i]).spec_id() == id;
            Some(self@[i])
        } else {
            None
        }
    }

    /// A store that holds no buffer.
    pub fn new() -> (store: Self)
        ensures
            store.wf(),
            store@ == Seq::<BufferSnapshot>::empty(),
    {
        BufferStore { buffers: Vec::new() }
    }

    fn position(&self, id: BufferId) -> (found: Option<usize>)
        ensures
            match found {
                Some(i) => i < self@.len() && self@[i as int].spec_id() == id,
                None => forall|i: int| 0 <= i < self@.len() ==> (#[trigger] self@[i]).spec_id()
                    != id,
            },
    {
        let mut i: usize = 0;
        while i < self.buffers.len()
            invariant
                i <= self@.len(),
                forall|j: int| 0 <= j < i ==> (#[trigger] self@[j]).spec_id() != id,
            decreases self@.len() - i,
        {
            if self.buffers[i].remote_id() == id {
                return Some(i);
            }
            i = i + 1;
        }
        None
    }

    /// The buffer held under `id`, or nothing where the buffer is closed.
    pub fn get(&self, id: BufferId) -> (found: Option<&BufferSnapshot>)
        requires
            self.wf(),
        ensures
            match found {
                Some(snapshot) => self.spec_get(id) == Some(*snapshot) && snapshot.wf()
                    && snapshot.spec_id() == id,
                None => self.spec_get(id).is_none(),
            },
    {
        match self.position(id) {
            Some(i) => {
                proof {
                    let c = choose|c: int|
                        0 <= c < self@.len() && (#[trigger] self@[c]).spec_id() == id;
                    assert(c == i);
                }
                Some(&self.buffers[i])
            },
            None => None,
        }
    }

    /// Holds `snapshot` under its identity, in place of the buffer held under it before.
    pub fn insert(&mut self, snapshot: BufferSnapshot)
        requires
            old(self).wf(),
            snapshot.wf(),
        ensures
            final(self).wf(),
            final(self).spec_get(snapshot.spec_id()) == Some(snapshot),
            forall|id: BufferId|
                id != snapshot.spec_id() ==> final(self).spec_get(id) == old(self).spec_get(id),
    {
        let ghost before = *self;
        let ghost sid = snapshot.spec_id();
        match self.position(snapshot.remote_id()) {
            Some(i) => {
                self.buffers.set(i, snapshot);
                proof {
                    assert forall|id: BufferId| id != sid implies self.spec_get(id)
                        == before.spec_get(id) by {
                        Self::lemma_get_agrees(before, *self, id, i as int);
                    }
                    let c = choose|c: int|
                        0 <= c < self@.len() && (#[trigger] self@[c]).spec_id() == sid;
                    assert(self@[i as int].spec_id() == sid);
                    assert(c == i);
                }
            },
            None => {
                self.buffers.push(snapshot);
                proof {
                    let n = before@.len() as int;
                    assert forall|id: BufferId| id != sid implies self.spec_get(id)
                        == before.spec_get(id) by {
                        Self::lemma_get_agrees(before, *self, id, n);
                    }
                    let c = choose|c: int|
                        0 <= c < self@.len() && (#[trigger] self@[c]).spec_id() == sid;
                    assert(self@[n].spec_id() == sid);
                    assert(c == n);
                }
            },
        }
    }

    /// Two stores that differ at one place only hold the same buffer under every
    /// identity that neither has at that place.
    proof fn lemma_get_agrees(a: Self, b: Self, id: BufferId, at: int)
        requires
            a.wf(),
            b.wf(),
            0 <= at,
            forall|i: int| 0 <= i < a@.len() && i != at ==> i < b@.len() && a@[i] == b@[i],
            forall|i: int| 0 <= i < b@.len() && i != at ==> i < a@.len() && a@[i] == b@[i],
            at < a@.len() ==> a@[at].spec_id() != id,
            at < b@.len() ==> b@[at].spec_id() != id,
        ensures
            a.spec_get(id) == b.spec_get(id),
    {
        if exists|i: int| 0 <= i < a@.len() && (#[trigger] a@[i]).spec_id() == id {
            let i = choose|i: int| 0 <= i < a@.len() && (#[trigger] a@[i]).spec_id() == id;
            assert(b@[i].spec_id() == id);
            let j = choose|j: int| 0 <= j < b@.len() && (#[trigger] b@[j]).spec_id() == id;
            assert(a@[j].spec_id() == id);
            assert(i == j);
        } else if exists|j: int| 0 <= j < b@.len() && (#[trigger] b@[j]).spec_id() == id {
            let j = choose|j: int| 0 <= j < b@.len() && (#[trigger] b@[j]).spec_id() == id;
            assert(a@[j].spec_id() == id);
        }
    }

    /// Lets go of the buffer held under `id`: it is closed.
    pub fn remove(&mut self, id: BufferId)
        requires
            old(self).wf(),
        ensures
            final(self).wf(),
            final(self).spec_get(id).is_none(),
            forall|other: BufferId|
                other != id ==> final(self).spec_get(other) == old(self).spec_get(other),
    {
        let ghost before = *self;
        match self.position(id) {
            Some(i) => {
                self.buffers.remove(i);
                proof {
                    assert forall|k: int| 0 <= k < self@.len() implies (
                    #[trigger] self@[k]).spec_id() != id by {
                        if k < i {
                            assert(self@[k] == before@[k]);
                        } else {
                            assert(self@[k] == before@[k + 1]);
                        }
                    }
                    assert forall|other: BufferId| other != id implies self.spec_get(other)
                        == before.spec_get(other) by {
                        if exists|a: int|
                            0 <= a < before@.len() && (#[trigger] before@[a]).spec_id() == other {
                            let a = choose|a: int|
                                0 <= a < before@.len() && (#[trigger] before@[a]).spec_id()
                                    == other;
                            let a2 = if a < i { a } else { a - 1 };
                            assert(self@[a2] == before@[a]);
                            let b = choose|b: int|
                                0 <= b < self@.len() && (#[trigger] self@[b]).spec_id() == other;
                            assert(b == a2);
                        } else if exists|b: int|
                            0 <= b < self@.len() && (#[trigger] self@[b]).spec_id() == other {
                            let b = choose|b: int|
                                0 <= b < self@.len() && (#[trigger] self@[b]).spec_id() == other;
                            let b2 = if b < i { b } else { b + 1 };
                            assert(before@[b2] == self@[b]);
                        }
                    }
                }
            },
            None => {},
        }
    }
}

} // verus!
