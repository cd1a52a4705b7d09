use vstd::prelude::*;
use crate::note::{Note, NoteView, Timestamp};

verus! {

/// Why a storage operation did not take place.
#[derive(Clone, Copy, Debug, PartialEq, Eq, Structural)]
pub enum StoreError {
    /// No note carries the requested id.
    NotFound,
    /// Every id up to the largest `i32` has been handed out.
    IdsExhausted,
    /// Rows handed to `open` are out of id order, or the last id is negative.
    Corrupt,
}

/// The table of notes, as a sequence in storage order together with the
/// largest id ever handed out.
pub struct StoreModel {
    pub notes: Seq<NoteView>,
    pub last_id: int,
}

/// Ids strictly increase along the sequence.
pub open spec fn ids_increasing(notes: Seq<NoteView>) -> bool {
    forall|i: int, j: int| 0 <= i < j < notes.len() ==> notes[i].id < notes[j].id
}

/// Some note carries `id`.
pub open spec fn has_id(notes: Seq<NoteView>, id: int) -> bool {
    exists|i: int| 0 <= i < notes.len() && notes[i].id == id
}

/// The `done` flag of the note that carries `id`, if any.
pub open spec fn done_of(notes: Seq<NoteView>, id: int) -> Option<bool> {
    if has_id(notes, id) {
        Some(notes[choose|i: int| 0 <= i < notes.len() && notes[i].id == id].done)
    } else {
        None
    }
}

/// The note with its `done` flag flipped when it carries `id`, else as it is.
pub open spec fn flip_if(n: NoteView, id: int) -> NoteView {
    if n.id == id {
        NoteView { done: !n.done, ..n }
    } else {
        n
    }
}

/// The notes with the one that carries `id` flipped.
pub open spec fn toggled(notes: Seq<NoteView>, id: int) -> Seq<NoteView> {
    notes.map_values(|n: NoteView| flip_if(n, id))
}

/// The notes without the one that carries `id`.
pub open spec fn without(notes: Seq<NoteView>, id: int) -> Seq<NoteView> {
    notes.filter(|n: NoteView| n.id != id)
}

/// The note that a create hands to storage.
pub open spec fn fresh_note(id: int, title: Seq<char>, content: Seq<char>, created: Timestamp) -> NoteView {
    NoteView { id, title, content, created, done: false }
}

impl StoreModel {
    /// Ids are unique and increasing, none above the last id handed out.
    pub open spec fn wf(self) -> bool {
        &&& 0 <= self.last_id <= i32::MAX
        &&& ids_increasing(self.notes)
        &&& forall|i: int| 0 <= i < self.notes.len() ==> self.notes[i].id <= self.last_id
        &&& forall|i: int| 0 <= i < self.notes.len() ==> i32::MIN <= #[trigger] self.notes[i].id
    }

    /// The table after a create with the given fields.
    pub open spec fn created(self, title: Seq<char>, content: Seq<char>, created: Timestamp) -> StoreModel {
        StoreModel {
            notes: self.notes.push(fresh_note(self.last_id + 1, title, content, created)),
            last_id: self.last_id + 1,
        }
    }
}

/// The table that opening storage on existing rows gives: the rows kept as
/// they are, with ids handed out from past both `last_id` and every row's id.
pub open spec fn opened(rows: Seq<NoteView>, last_id: int) -> Option<StoreModel> {
    if !ids_increasing(rows) || last_id < 0 {
        None
    } else {
        let top = if rows.len() > 0 && rows.last().id > last_id { rows.last().id } else { last_id };
        Some(StoreModel { notes: rows, last_id: top })
    }
}

/// The views of a sequence of notes.
pub open spec fn views(notes: Seq<Note>) -> Seq<NoteView> {
    notes.map_values(|n: Note| n@)
}

/// The notes of a session, in storage order.
pub struct NoteStore {
    notes: Vec<Note>,
    last_id: i32,
}

impl View for NoteStore {
    type V = StoreModel;

    closed spec fn view(&self) -> StoreModel {
        StoreModel { notes: views(self.notes@), last_id: self.last_id as int }
    }
}

/// Every note left by removing `id` was there before and does not carry
/// `id`; every other note stays; increasing ids stay increasing.
pub proof fn lemma_without(s: Seq<NoteView>, id: int)
    ensures
        forall|j: int| 0 <= j < without(s, id).len() ==> s.contains(#[trigger] without(s, id)[j]),
        forall|j: int| 0 <= j < without(s, id).len() ==> (#[trigger] without(s, id)[j]).id != id,
        forall|j: int| 0 <= j < s.len() && s[j].id != id ==> without(s, id).contains(#[trigger] s[j]),
        ids_increasing(s) ==> ids_increasing(without(s, id)),
        ids_increasing(s) ==> without(s, id).len() + (if has_id(s, id) { 1int } else { 0int }) == s.len(),
    decreases s.len(),
{
    if s.len() > 0 {
        let d = s.drop_last();
        lemma_without(d, id);
        if ids_increasing(s) {
            if s.last().id == id {
                assert(!has_id(d, id) && has_id(s, id) && ids_increasing(d)) by {
                    assert(s[s.len() - 1].id == id);
                    assert(forall|j: int| 0 <= j < d.len() ==> d[j].id < #[trigger] s[s.len() - 1].id);
                }
            } else {
                assert(has_id(s, id) == has_id(d, id) && ids_increasing(d)) by {
                    if has_id(s, id) {
                        let j = choose|j: int| 0 <= j < s.len() && s[j].id == id;
                        assert(d[j] == s[j]);
                    }
                }
            }
        }
        assert(forall|j: int| 0 <= j < d.len() ==> #[trigger] d[j] == s[j]);
        assert forall|j: int| 0 <= j < without(d, id).len() implies s.contains(#[trigger] without(d, id)[j]) by {
            let k = choose|k: int| 0 <= k < d.len() && d[k] == without(d, id)[j];
            assert(s[k] == without(d, id)[j]);
        }
        if ids_increasing(s) {
            assert forall|j: int| 0 <= j < without(d, id).len() implies (#[trigger] without(d, id)[j]).id < s.last().id by {
                let k = choose|k: int| 0 <= k < d.len() && d[k] == without(d, id)[j];
                assert(s[k] == without(d, id)[j]);
            }
        }
        lemma_without_step(s, id);
    }
}

/// Removing `id` from a non-empty sequence, taken one note from the end.
proof fn lemma_without_step(s: Seq<NoteView>, id: int)
    requires
        s.len() > 0,
    ensures
        s.last().id != id ==> without(s, id) == without(s.drop_last(), id).push(s.last()),
        s.last().id == id ==> without(s, id) == without(s.drop_last(), id),
{
    reveal_with_fuel(Seq::<NoteView>::filter, 1);
}

/// The views of notes with one more pushed.
proof fn lemma_views_push(s: Seq<Note>, n: Note)
    ensures
        views(s.push(n)) == views(s).push(n@),
{
    assert(views(s.push(n)) =~= views(s).push(n@));
}

impl NoteStore {
    /// Storage with no notes, which has handed out no id.
    pub fn new() -> (r: NoteStore)
        ensures
            r@.notes == Seq::<NoteView>::empty(),
            r@.last_id == 0,
            r@.wf(),
    {
        NoteStore { notes: Vec::new(), last_id: 0 }
    }

    /// The largest id handed out so far.
    pub fn last_id(&self) -> (r: i32)
        ensures
            r == self@.last_id,
    {
        self.last_id
    }

    /// The position of the note that carries `id`, if any.
    fn position(&self, id: i32) -> (r: Option<usize>)
        ensures
            r is None <==> !has_id(self@.notes, id as int),
            r matches Some(i) ==> i < self@.notes.len() && self@.notes[i as int].id == id,
    {
        let mut k: usize = 0;
        while k < self.notes.len()
            invariant
                k <= self.notes.len(),
                forall|j: int| 0 <= j < k ==> self@.notes[j].id != id,
            decreases self.notes.len() - k,
        {
            if self.notes[k].id == id {
                assert(self@.notes[k as int].id == id);
                return Some(k);
            }
            k += 1;
        }
        None
    }

    /// Stores a new note, not done, under the id after the last one handed
    /// out, and returns that id.
    pub fn create(&mut self, title: String, content: String, created: Timestamp) -> (r: Result<i32, StoreError>)
        requires
            old(self)@.wf(),
        ensures
            final(self)@.wf(),
            r is Ok <==> old(self)@.last_id < i32::MAX,
            r matches Ok(id) ==> id == old(self)@.last_id + 1
                && final(self)@ == old(self)@.created(title@, content@, created),
            r matches Err(e) ==> e == StoreError::IdsExhausted && final(self)@ == old(self)@,
    {
        if self.last_id == i32::MAX {
            return Err(StoreError::IdsExhausted);
        }
        let id = self.last_id + 1;
        let ghost before = self@;
        self.notes.push(Note { id, title, content, created, done: false });
        self.last_id = id;
        assert(self@.notes =~= before.created(title@, content@, created).notes);
        Ok(id)
    }

    /// All notes, in storage order.
    pub fn list(&self) -> (r: Vec<Note>)
        ensures
            views(r@) == self@.notes,
    {
        let mut out: Vec<Note> = Vec::new();
        let mut k: usize = 0;
        while k < self.notes.len()
            invariant
                k <= self.notes.len(),
                views(out@) =~= self@.notes.subrange(0, k as int),
            decreases self.notes.len() - k,
        {
            let n = self.notes[k].duplicate();
            proof {
                lemma_views_push(out@, n);
            }
            out.push(n);
            k += 1;
            assert(views(out@) =~= self@.notes.subrange(0, k as int));
        }
        assert(self@.notes.subrange(0, self.notes.len() as int) =~= self@.notes);
        out
    }

    /// Flips the `done` flag of the note that carries `id` and returns the
    /// new value; fails with `NotFound`, changing nothing, when there is none.
    pub fn toggle(&mut self, id: i32) -> (r: Result<bool, StoreError>)
        requires
            old(self)@.wf(),
        ensures
            final(self)@.wf(),
            r is Ok <==> has_id(old(self)@.notes, id as int),
            r matches Ok(d) ==> done_of(old(self)@.notes, id as int) == Some(!d)
                && final(self)@ == (StoreModel { notes: toggled(old(self)@.notes, id as int), ..old(self)@ }),
            r matches Err(e) ==> e == StoreError::NotFound && final(self)@ == old(self)@,
    {
        match self.position(id) {
            None => Err(StoreError::NotFound),
            Some(i) => {
                let ghost before = self@;
                let mut n = self.notes[i].duplicate();
                n.done = !n.done;
                let d = n.done;
                self.notes.set(i, n);
                assert(self@.notes =~= toggled(before.notes, id as int));
                let ghost c = choose|j: int| 0 <= j < before.notes.len() && before.notes[j].id == id;
                assert(c == i as int);
                Ok(d)
            },
        }
    }

    /// Deletes the note that carries `id`; fails with `NotFound`, changing
    /// nothing, when there is none.
    pub fn remove(&mut self, id: i32) -> (r: Result<(), StoreError>)
        requires
            old(self)@.wf(),
        ensures
            final(self)@.wf(),
            r is Ok <==> has_id(old(self)@.notes, id as int),
            r is Ok ==> final(self)@ == (StoreModel { notes: without(old(self)@.notes, id as int), ..old(self)@ }),
            r matches Err(e) ==> e == StoreError::NotFound && final(self)@ == old(self)@,
    {
        let ghost all = self@.notes;
        let mut kept: Vec<Note> = Vec::new();
        let mut found = false;
        let mut k: usize = 0;
        while k < self.notes.len()
            invariant
                k <= self.notes.len(),
                all == self@.notes,
                views(kept@) =~= without(all.subrange(0, k as int), id as int),
                found <==> exists|j: int| 0 <= j < k && all[j].id == id,
            decreases self.notes.len() - k,
        {
            let ghost sub = all.subrange(0, k as int + 1);
            assert(sub.drop_last() =~= all.subrange(0, k as int));
            proof {
                lemma_without_step(sub, id as int);
            }
            if self.notes[k].id == id {
                found = true;
            } else {
                let n = self.notes[k].duplicate();
                proof {
                    lemma_views_push(kept@, n);
                }
                kept.push(n);
            }
            assert(all[k as int].id == self.notes[k as int].id);
            k += 1;
        }
        assert(all.subrange(0, k as int) =~= all);
        if found {
            proof {
                lemma_without(all, id as int);
                let w = without(all, id as int);
                assert forall|j: int| 0 <= j < w.len() implies #[trigger] w[j].id <= self@.last_id
                    && i32::MIN <= w[j].id by {
                    let m = choose|m: int| 0 <= m < all.len() && all[m] == w[j];
                }
            }
            self.notes = kept;
            Ok(())
        } else {
            Err(StoreError::NotFound)
        }
    }

    /// Storage over rows already held: they are kept as they are, and new ids
    /// follow both `last_id` and every row's id. Fails with `Corrupt` when the
    /// rows are out of id order or `last_id` is negative.
    pub fn open(rows: Vec<Note>, last_id: i32) -> (r: Result<NoteStore, StoreError>)
        ensures
            opened(views(rows@), last_id as int) matches Some(m) ==> r matches Ok(s) && s@ == m,
            opened(views(rows@), last_id as int) is None ==> r == Err::<NoteStore, StoreError>(StoreError::Corrupt),
            r matches Ok(s) ==> s@.wf(),
    {
        let ghost v = views(rows@);
        if last_id < 0 {
            return Err(StoreError::Corrupt);
        }
        let mut k: usize = 1;
        while k < rows.len()
            invariant
                1 <= k,
                v == views(rows@),
                forall|i: int, j: int| 0 <= i < j < k && j < rows.len() ==> v[i].id < v[j].id,
            decreases rows.len() - k,
        {
            if rows[k - 1].id >= rows[k].id {
                assert(v[k - 1].id == rows[k - 1].id && v[k as int].id == rows[k as int].id);
                assert(!ids_increasing(v));
                return Err(StoreError::Corrupt);
            }
            assert forall|i: int, j: int| 0 <= i < j < k + 1 && j < rows.len() implies v[i].id < v[j].id by {
                if j == k && i < k - 1 {
                    assert(v[i].id < v[k - 1].id);
                }
            }
            k += 1;
        }
        let mut top = last_id;
        if rows.len() > 0 && rows[rows.len() - 1].id > last_id {
            top = rows[rows.len() - 1].id;
        }
        proof {
            assert forall|i: int| 0 <= i < v.len() implies v[i].id <= top by {
                if i < v.len() - 1 {
                    assert(v[i].id < v[v.len() - 1].id);
                }
            }
        }
        Ok(NoteStore { notes: rows, last_id: top })
    }
}

} // verus!
