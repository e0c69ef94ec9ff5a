//! Edit decision list: a linear history of edits with an undo/redo cursor.
//!
//! Each entry carries the timeline snapshot taken after the edit; the
//! snapshot type is a parameter so the history does not depend on how a
//! timeline is stored.
use vstd::prelude::*;

verus! {

/// Identity of one recorded edit.
#[derive(Clone, Copy, Debug, PartialEq, Eq, Hash, Structural)]
pub struct EditId(pub u64);

/// Edit decision operation recorded in the EDL.
#[derive(Clone, Copy, Debug, PartialEq, Eq, Structural)]
pub enum EditOp {
    /// Initial empty history entry.
    Init,
    /// Cut range to clipboard and remove.
    Cut { start: u64, len: u64 },
    /// Copy range to clipboard.
    Copy { start: u64, len: u64 },
    /// Paste clipboard at position.
    Paste { at: u64, len: u64 },
    /// Remove range without clipboard.
    Remove { start: u64, len: u64 },
    /// Delete range (may leave silence).
    Delete { start: u64, len: u64 },
    /// Keep only the given range.
    Trim { start: u64, len: u64 },
    /// Move a range to a new destination.
    Move { from: u64, len: u64, dest: u64 },
    /// Duplicate a range in place.
    Duplicate { start: u64, len: u64 },
    /// Roll a clip boundary by delta frames.
    Roll { at: u64, delta: i64 },
}

/// One history entry: its id, the operation and the snapshot after it.
#[derive(Debug)]
pub struct Edit<S> {
    pub id: EditId,
    pub op: EditOp,
    pub snapshot: S,
}

/// Starting state for a project before user edits.
#[derive(Clone, Copy, Debug, PartialEq, Eq, Structural)]
pub enum InitialState {
    /// Empty composition with no media.
    Empty,
    /// Single full-length clip from a media pool entry.
    FromMedia { media_id: u64 },
}

/// Abstract state of an [`Edl`]: the entries, the cursor and the next id.
pub struct EdlView<S> {
    pub edits: Seq<Edit<S>>,
    pub cursor: int,
    pub next_id: int,
}

impl<S> EdlView<S> {
    /// Entries after the cursor can be re-applied.
    pub open spec fn can_redo(self) -> bool {
        self.cursor < self.edits.len() - 1
    }

    /// The cursor is past the initial entry.
    pub open spec fn can_undo(self) -> bool {
        self.cursor > 0
    }

    /// The entry under the cursor.
    pub open spec fn current(self) -> Edit<S> {
        self.edits[self.cursor]
    }

    /// History after recording `op`: the redo tail is dropped and the new
    /// entry, with the next id, becomes current.
    pub open spec fn push_spec(self, op: EditOp, snapshot: S) -> EdlView<S> {
        EdlView {
            edits: self.edits.take(self.cursor + 1).push(Edit { id: EditId(self.next_id as u64), op, snapshot }),
            cursor: self.cursor + 1,
            next_id: self.next_id + 1,
        }
    }

    /// History with the cursor moved to `index`.
    pub open spec fn at(self, index: int) -> EdlView<S> {
        EdlView { edits: self.edits, cursor: index, next_id: self.next_id }
    }

    /// First index whose entry has id `id`, if any.
    pub open spec fn index_of(self, id: EditId) -> Option<int> {
        if exists|i: int| 0 <= i < self.edits.len() && #[trigger] self.edits[i].id == id {
            Some(choose|i: int| 0 <= i < self.edits.len() && #[trigger] self.edits[i].id == id && forall|j: int| 0 <= j < i ==> #[trigger] self.edits[j].id != id)
        } else {
            None
        }
    }

    /// Well-formed history: a non-empty list, the cursor on an entry, ids
    /// strictly increasing and below `next_id`.
    pub open spec fn wf(self) -> bool {
        &&& self.edits.len() >= 1
        &&& 0 <= self.cursor < self.edits.len()
        &&& forall|i: int, j: int| #![trigger self.edits[i], self.edits[j]] 0 <= i < j < self.edits.len() ==> self.edits[i].id.0 < self.edits[j].id.0
        &&& forall|i: int| 0 <= i < self.edits.len() ==> #[trigger] self.edits[i].id.0 < self.next_id
        &&& self.next_id <= u64::MAX
    }
}

/// Linear edit history with a cursor.
pub struct Edl<S> {
    edits: Vec<Edit<S>>,
    cursor: usize,
    next_id: u64,
}

impl<S> View for Edl<S> {
    type V = EdlView<S>;

    closed spec fn view(&self) -> EdlView<S> {
        EdlView { edits: self.edits@, cursor: self.cursor as int, next_id: self.next_id as int }
    }
}

impl<S> Edl<S> {
    /// History holding only the initial entry (id 0, [`EditOp::Init`]).
    pub fn new(initial: S) -> (edl: Self)
        ensures
            edl@.edits == seq![Edit { id: EditId(0), op: EditOp::Init, snapshot: initial }],
            edl@.cursor == 0,
            edl@.next_id == 1,
            edl@.wf(),
    {
        let mut edits: Vec<Edit<S>> = Vec::new();
        edits.push(Edit { id: EditId(0), op: EditOp::Init, snapshot: initial });
        let edl = Self { edits, cursor: 0, next_id: 1 };
        proof {
            assert(edl@.edits =~= seq![Edit { id: EditId(0), op: EditOp::Init, snapshot: initial }]);
        }
        edl
    }

    /// Index of the current entry.
    pub fn cursor(&self) -> (out: usize)
        requires
            self@.wf(),
        ensures
            out == self@.cursor,
    {
        self.cursor
    }

    /// The current entry.
    pub fn current(&self) -> (out: &Edit<S>)
        requires
            self@.wf(),
        ensures
            *out == self@.current(),
    {
        &self.edits[self.cursor]
    }

    /// Id of the current entry.
    pub fn current_id(&self) -> (out: EditId)
        requires
            self@.wf(),
        ensures
            out == self@.current().id,
    {
        self.current().id
    }

    /// A clone of the snapshot under the cursor.
    pub fn snapshot(&self) -> (out: S)
        where
            S: Clone,
        requires
            self@.wf(),
        ensures
            cloned(self@.current().snapshot, out),
    {
        self.current().snapshot.clone()
    }

    /// Number of entries, the initial one included.
    pub fn len(&self) -> (out: usize)
        requires
            self@.wf(),
        ensures
            out == self@.edits.len(),
    {
        self.edits.len()
    }

    /// All entries in order.
    pub fn edits(&self) -> (out: &[Edit<S>])
        requires
            self@.wf(),
        ensures
            out@ == self@.edits,
    {
        self.edits.as_slice()
    }

    /// The operations of every entry after the initial one.
    pub fn ops_from_first_user(&self) -> (out: Vec<EditOp>)
        requires
            self@.wf(),
        ensures
            out@ == self@.edits.skip(1).map_values(|e: Edit<S>| e.op),
    {
        let mut out: Vec<EditOp> = Vec::new();
        let mut i: usize = 1;
        while i < self.edits.len()
            invariant
                1 <= i <= self.edits.len(),
                out@ =~= self@.edits.subrange(1, i as int).map_values(|e: Edit<S>| e.op),
            decreases self.edits.len() - i,
        {
            out.push(self.edits[i].op);
            i = i + 1;
        }
        proof {
            assert(self@.edits.subrange(1, self.edits.len() as int) =~= self@.edits.skip(1));
        }
        out
    }

    /// Record `op` after the cursor, dropping any redo tail; returns its id.
    pub fn push(&mut self, op: EditOp, snapshot: S) -> (id: EditId)
        requires
            old(self)@.wf(),
            old(self)@.next_id < u64::MAX,
        ensures
            final(self)@.wf(),
            final(self)@ == old(self)@.push_spec(op, snapshot),
            id == EditId(old(self)@.next_id as u64),
    {
        let ghost before = self@;
        let id = EditId(self.next_id);
        self.next_id = self.next_id + 1;
        let n = self.edits.len();
        assert(self.cursor < n);
        let keep = self.cursor + 1;
        self.edits.truncate(keep);
        proof {
            assert(self.edits@ =~= before.edits.take(before.cursor + 1));
        }
        self.edits.push(Edit { id, op, snapshot });
        proof {
            assert forall|i: int| 0 <= i < self.edits@.len() - 1 implies #[trigger] self.edits@[i].id.0 < id.0 by {
                assert(self.edits@[i] == before.edits[i]);
            }
        }
        self.cursor = self.edits.len() - 1;
        proof {
            assert(self@.edits =~= before.push_spec(op, snapshot).edits);
        }
        id
    }

    /// The cursor is past the initial entry.
    pub fn can_undo(&self) -> (out: bool)
        requires
            self@.wf(),
        ensures
            out == self@.can_undo(),
    {
        self.cursor > 0
    }

    /// Entries after the cursor can be re-applied.
    pub fn can_redo(&self) -> (out: bool)
        requires
            self@.wf(),
        ensures
            out == self@.can_redo(),
    {
        self.cursor < self.edits.len() - 1
    }

    /// Step the cursor back one entry and return that entry's snapshot.
    pub fn undo(&mut self) -> (out: Option<S>)
        where
            S: Clone,
        requires
            old(self)@.wf(),
        ensures
            final(self)@.wf(),
            old(self)@.can_undo() ==> final(self)@ == old(self)@.at(old(self)@.cursor - 1),
            old(self)@.can_undo() ==> out is Some && cloned(final(self)@.current().snapshot, out->0),
            !old(self)@.can_undo() ==> final(self)@ == old(self)@ && out is None,
    {
        if !self.can_undo() {
            return None;
        }
        self.cursor = self.cursor - 1;
        Some(self.snapshot())
    }

    /// Step the cursor forward one entry and return that entry's snapshot.
    pub fn redo(&mut self) -> (out: Option<S>)
        where
            S: Clone,
        requires
            old(self)@.wf(),
        ensures
            final(self)@.wf(),
            old(self)@.can_redo() ==> final(self)@ == old(self)@.at(old(self)@.cursor + 1),
            old(self)@.can_redo() ==> out is Some && cloned(final(self)@.current().snapshot, out->0),
            !old(self)@.can_redo() ==> final(self)@ == old(self)@ && out is None,
    {
        if !self.can_redo() {
            return None;
        }
        let n = self.edits.len();
        assert(self.cursor < n);
        self.cursor = self.cursor + 1;
        Some(self.snapshot())
    }

    /// Move the cursor to the first entry with id `id`.
    pub fn jump_to(&mut self, id: EditId) -> (out: Option<S>)
        where
            S: Clone,
        requires
            old(self)@.wf(),
        ensures
            final(self)@.wf(),
            old(self)@.index_of(id) matches Some(i) ==> final(self)@ == old(self)@.at(i) && out is Some
                && cloned(final(self)@.current().snapshot, out->0),
            old(self)@.index_of(id) is None ==> final(self)@ == old(self)@ && out is None,
    {
        let mut i: usize = 0;
        while i < self.edits.len()
            invariant
                i <= self.edits@.len(),
                self@ == old(self)@,
                self@.wf(),
                forall|j: int| 0 <= j < i ==> #[trigger] self.edits@[j].id != id,
            decreases self.edits.len() - i,
        {
            if self.edits[i].id == id {
                proof {
                    let ghost v = self@;
                    assert(v.edits[i as int].id == id);
                    let k = v.index_of(id)->0;
                    assert(0 <= k < v.edits.len() && v.edits[k].id == id && forall|j: int| 0 <= j < k ==> #[trigger] v.edits[j].id != id);
                    if k < i {
                        assert(self.edits@[k].id != id);
                    }
                    if k > i {
                        assert(v.edits[i as int].id != id);
                    }
                }
                self.cursor = i;
                return Some(self.snapshot());
            }
            i = i + 1;
        }
        proof {
            let ghost v = self@;
            assert(!(exists|k: int| 0 <= k < v.edits.len() && #[trigger] v.edits[k].id == id));
        }
        None
    }

    /// Move the cursor to `index` when it names an entry.
    pub fn jump_to_index(&mut self, index: usize) -> (out: Option<S>)
        where
            S: Clone,
        requires
            old(self)@.wf(),
        ensures
            final(self)@.wf(),
            index < old(self)@.edits.len() ==> final(self)@ == old(self)@.at(index as int) && out is Some
                && cloned(final(self)@.current().snapshot, out->0),
            index >= old(self)@.edits.len() ==> final(self)@ == old(self)@ && out is None,
    {
        if index >= self.edits.len() {
            return None;
        }
        self.cursor = index;
        Some(self.snapshot())
    }

    /// Replace every snapshot by `map` of it; ids, ops and cursor are kept.
    pub fn map_snapshots<F: Fn(&S) -> S>(&mut self, map: F)
        requires
            old(self)@.wf(),
            forall|s: &S| #[trigger] map.requires((s,)),
        ensures
            final(self)@.wf(),
            final(self)@.cursor == old(self)@.cursor,
            final(self)@.next_id == old(self)@.next_id,
            final(self)@.edits.len() == old(self)@.edits.len(),
            forall|i: int| 0 <= i < old(self)@.edits.len() ==> {
                &&& (#[trigger] final(self)@.edits[i]).id == old(self)@.edits[i].id
                &&& final(self)@.edits[i].op == old(self)@.edits[i].op
                &&& map.ensures((&old(self)@.edits[i].snapshot,), final(self)@.edits[i].snapshot)
            },
    {
        let ghost before = self@;
        let mut i: usize = 0;
        while i < self.edits.len()
            invariant
                i <= self.edits.len(),
                self@.wf(),
                self@.cursor == before.cursor,
                self@.next_id == before.next_id,
                self.edits@.len() == before.edits.len(),
                forall|s: &S| #[trigger] map.requires((s,)),
                forall|k: int| 0 <= k < self.edits@.len() ==> {
                    &&& (#[trigger] self.edits@[k]).id == before.edits[k].id
                    &&& self.edits@[k].op == before.edits[k].op
                },
                forall|k: int| 0 <= k < i ==> map.ensures((&before.edits[k].snapshot,), (#[trigger] self.edits@[k]).snapshot),
                forall|k: int| i <= k < self.edits@.len() ==> (#[trigger] self.edits@[k]).snapshot == before.edits[k].snapshot,
            decreases self.edits.len() - i,
        {
            let snapshot = map(&self.edits[i].snapshot);
            let entry = Edit { id: self.edits[i].id, op: self.edits[i].op, snapshot };
            let ghost prev = self.edits@;
            self.edits.set(i, entry);
            proof {
                assert forall|a: int, b: int| #![trigger self.edits@[a], self.edits@[b]] 0 <= a < b < self.edits@.len() implies self.edits@[a].id.0 < self.edits@[b].id.0 by {
                    assert(prev[a].id.0 < prev[b].id.0);
                }
                assert forall|a: int| 0 <= a < self.edits@.len() implies #[trigger] self.edits@[a].id.0 < self.next_id by {
                    assert(prev[a].id.0 < self.next_id);
                }
            }
            i = i + 1;
        }
    }

    /// Replace the snapshot of the initial entry.
    pub fn replace_init_snapshot(&mut self, snapshot: S)
        requires
            old(self)@.wf(),
        ensures
            final(self)@.wf(),
            final(self)@.cursor == old(self)@.cursor,
            final(self)@.next_id == old(self)@.next_id,
            final(self)@.edits == old(self)@.edits.update(0, Edit { id: old(self)@.edits[0].id, op: old(self)@.edits[0].op, snapshot }),
    {
        let ghost before = self@;
        let entry = Edit { id: self.edits[0].id, op: self.edits[0].op, snapshot };
        self.edits.set(0, entry);
        proof {
            assert forall|a: int, b: int| #![trigger self.edits@[a], self.edits@[b]] 0 <= a < b < self.edits@.len() implies self.edits@[a].id.0 < self.edits@[b].id.0 by {
                assert(before.edits[a].id.0 < before.edits[b].id.0);
            }
            assert forall|a: int| 0 <= a < self.edits@.len() implies #[trigger] self.edits@[a].id.0 < self.next_id by {
                assert(before.edits[a].id.0 < before.next_id);
            }
        }
    }
}

/// Undo then redo returns to the same history and cursor.
pub proof fn lemma_undo_then_redo<S>(v: EdlView<S>)
    requires
        v.wf(),
        v.can_undo(),
    ensures
        v.at(v.cursor - 1).wf(),
        v.at(v.cursor - 1).can_redo(),
        v.at(v.cursor - 1).at(v.cursor) == v,
{
}

/// Redo then undo returns to the same history and cursor.
pub proof fn lemma_redo_then_undo<S>(v: EdlView<S>)
    requires
        v.wf(),
        v.can_redo(),
    ensures
        v.at(v.cursor + 1).wf(),
        v.at(v.cursor + 1).can_undo(),
        v.at(v.cursor + 1).at(v.cursor) == v,
{
}

/// Recording an edit keeps the history up to the cursor, drops the redo
/// tail, makes the new entry current with a fresh id, and keeps the history
/// well formed; undoing it returns to the entry that was current before.
pub proof fn lemma_push_drops_redo_tail<S>(v: EdlView<S>, op: EditOp, snapshot: S)
    requires
        v.wf(),
        v.next_id < u64::MAX,
    ensures
        v.push_spec(op, snapshot).wf(),
        !v.push_spec(op, snapshot).can_redo(),
        v.push_spec(op, snapshot).can_undo(),
        v.push_spec(op, snapshot).current() == (Edit { id: EditId(v.next_id as u64), op, snapshot }),
        v.push_spec(op, snapshot).edits.take(v.cursor + 1) == v.edits.take(v.cursor + 1),
        forall|i: int| 0 <= i < v.edits.len() ==> #[trigger] v.edits[i].id != EditId(v.next_id as u64),
        v.push_spec(op, snapshot).at(v.cursor).current() == v.current(),
{
    let w = v.push_spec(op, snapshot);
    assert(w.edits.take(v.cursor + 1) =~= v.edits.take(v.cursor + 1));
    assert forall|i: int, j: int| #![trigger w.edits[i], w.edits[j]] 0 <= i < j < w.edits.len() implies w.edits[i].id.0 < w.edits[j].id.0 by {
        assert(w.edits[i] == v.edits[i]);
        if j < w.edits.len() - 1 {
            assert(w.edits[j] == v.edits[j]);
        }
    }
    assert forall|i: int| 0 <= i < w.edits.len() implies #[trigger] w.edits[i].id.0 < w.next_id by {
        if i < w.edits.len() - 1 {
            assert(w.edits[i] == v.edits[i]);
        }
    }
    assert(w.edits[v.cursor] == v.edits[v.cursor]);
}

/// Ids are unique: jumping to the id of entry `i` selects entry `i`.
pub proof fn lemma_index_of_own_id<S>(v: EdlView<S>, i: int)
    requires
        v.wf(),
        0 <= i < v.edits.len(),
    ensures
        v.index_of(v.edits[i].id) == Some(i),
{
    let id = v.edits[i].id;
    assert(v.edits[i].id == id);
    let k = v.index_of(id)->0;
    assert(0 <= k < v.edits.len() && v.edits[k].id == id && forall|j: int| 0 <= j < k ==> #[trigger] v.edits[j].id != id);
    if k < i {
        assert(v.edits[k].id.0 < v.edits[i].id.0);
    }
    if k > i {
        assert(v.edits[i].id != id);
    }
}

} // verus!
