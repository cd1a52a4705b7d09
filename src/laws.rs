use vstd::prelude::*;
use crate::note::Timestamp;
use crate::store::{
    StoreModel, done_of, fresh_note, has_id, ids_increasing, lemma_without, opened, toggled, without,
};

verus! {

/// Empty storage that has handed out no id.
pub open spec fn empty_store() -> StoreModel {
    StoreModel { notes: Seq::empty(), last_id: 0 }
}

/// The table after creating one note per entry (title, content, time), in order.
pub open spec fn created_all(m: StoreModel, entries: Seq<(Seq<char>, Seq<char>, Timestamp)>) -> StoreModel
    decreases entries.len(),
{
    if entries.len() == 0 {
        m
    } else {
        let e = entries.last();
        created_all(m, entries.drop_last()).created(e.0, e.1, e.2)
    }
}

/// A run of creates keeps every note already there and appends one note per
/// entry, not done, under the ids that follow the last one handed out, one
/// after another; each of those ids is above every id stored before it.
pub proof fn lemma_creates_append(m: StoreModel, entries: Seq<(Seq<char>, Seq<char>, Timestamp)>)
    requires
        m.wf(),
        m.last_id + entries.len() <= i32::MAX,
    ensures
        created_all(m, entries).wf(),
        created_all(m, entries).last_id == m.last_id + entries.len(),
        created_all(m, entries).notes.len() == m.notes.len() + entries.len(),
        created_all(m, entries).notes.subrange(0, m.notes.len() as int) == m.notes,
        forall|i: int| 0 <= i < entries.len() ==> #[trigger] created_all(m, entries).notes[m.notes.len() + i]
            == fresh_note(m.last_id + 1 + i, entries[i].0, entries[i].1, entries[i].2),
        forall|i: int, j: int| 0 <= i < m.notes.len() && 0 <= j < entries.len()
            ==> #[trigger] m.notes[i].id < #[trigger] created_all(m, entries).notes[m.notes.len() + j].id,
    decreases entries.len(),
{
    if entries.len() > 0 {
        let d = entries.drop_last();
        lemma_creates_append(m, d);
        let p = created_all(m, d);
        let e = entries.last();
        let q = p.created(e.0, e.1, e.2);
        assert(q.notes.subrange(0, m.notes.len() as int) =~= m.notes) by {
            assert(forall|k: int| 0 <= k < m.notes.len() ==> q.notes[k] == #[trigger] p.notes[k]);
            assert(p.notes.subrange(0, m.notes.len() as int) == m.notes);
            assert(forall|k: int| 0 <= k < m.notes.len() ==> p.notes[k] == #[trigger] m.notes[k]);
        }
        assert forall|i: int| 0 <= i < entries.len() implies #[trigger] q.notes[m.notes.len() + i]
            == fresh_note(m.last_id + 1 + i, entries[i].0, entries[i].1, entries[i].2) by {
            if i < d.len() {
                assert(d[i] == entries[i]);
                assert(p.notes[m.notes.len() + i] == fresh_note(m.last_id + 1 + i, d[i].0, d[i].1, d[i].2));
            }
        }
        assert(ids_increasing(q.notes)) by {
            assert forall|i: int, j: int| 0 <= i < j < q.notes.len() implies q.notes[i].id < q.notes[j].id by {
                if j == q.notes.len() - 1 {
                    assert(p.notes[i].id <= p.last_id);
                } else {
                    assert(p.notes[i] == q.notes[i] && p.notes[j] == q.notes[j]);
                }
            }
        }
        assert forall|i: int| 0 <= i < q.notes.len() implies q.notes[i].id <= q.last_id
            && i32::MIN <= #[trigger] q.notes[i].id by {
            if i < p.notes.len() {
                assert(p.notes[i] == q.notes[i]);
            }
        }
        assert forall|i: int, j: int| 0 <= i < m.notes.len() && 0 <= j < entries.len()
            implies #[trigger] m.notes[i].id < #[trigger] q.notes[m.notes.len() + j].id by {
            assert(m.notes[i] == q.notes[i]);
            assert(q.notes[i].id < q.notes[m.notes.len() + j].id);
        }
    }
}

/// Each create hands out an id above every id stored, the last one handed
/// out included, so never one in use or used before; a second create hands
/// out a larger id than the first.
pub proof fn lemma_create_fresh_id(
    m: StoreModel,
    a: (Seq<char>, Seq<char>, Timestamp),
    b: (Seq<char>, Seq<char>, Timestamp),
)
    requires
        m.wf(),
        m.last_id + 2 <= i32::MAX,
    ensures
        m.created(a.0, a.1, a.2).wf(),
        m.created(a.0, a.1, a.2).last_id > m.last_id,
        !has_id(m.notes, m.last_id + 1),
        m.created(a.0, a.1, a.2).created(b.0, b.1, b.2).last_id > m.created(a.0, a.1, a.2).last_id,
{
    lemma_create_one(m, a);
}

/// One create keeps the table well formed.
proof fn lemma_create_one(m: StoreModel, a: (Seq<char>, Seq<char>, Timestamp))
    requires
        m.wf(),
        m.last_id < i32::MAX,
    ensures
        m.created(a.0, a.1, a.2).wf(),
        m.created(a.0, a.1, a.2).last_id == m.last_id + 1,
{
    lemma_creates_append(m, seq![a]);
    assert(created_all(m, seq![a]) == m.created(a.0, a.1, a.2)) by {
        reveal_with_fuel(created_all, 2);
        assert(seq![a].drop_last() =~= Seq::<(Seq<char>, Seq<char>, Timestamp)>::empty());
        assert(seq![a].last() == a);
    }
}

/// Listing after creates on empty storage gives one note per create, in
/// order, each with its title, content and time, not done, under ids 1, 2, ...
pub proof fn lemma_list_after_creates(entries: Seq<(Seq<char>, Seq<char>, Timestamp)>)
    requires
        entries.len() <= i32::MAX,
    ensures
        created_all(empty_store(), entries).notes.len() == entries.len(),
        forall|i: int| 0 <= i < entries.len() ==> #[trigger] created_all(empty_store(), entries).notes[i]
            == fresh_note(i + 1, entries[i].0, entries[i].1, entries[i].2),
{
    lemma_creates_append(empty_store(), entries);
    assert forall|i: int| 0 <= i < entries.len() implies #[trigger] created_all(empty_store(), entries).notes[i]
        == fresh_note(i + 1, entries[i].0, entries[i].1, entries[i].2) by {
        assert(created_all(empty_store(), entries).notes[0 + i] == fresh_note(0 + 1 + i, entries[i].0, entries[i].1, entries[i].2));
    }
}

/// Toggling flips the note's `done` flag, and toggling twice restores every note.
pub proof fn lemma_toggle_twice(m: StoreModel, id: int)
    requires
        m.wf(),
        has_id(m.notes, id),
    ensures
        done_of(toggled(m.notes, id), id) == Some(!done_of(m.notes, id).unwrap()),
        toggled(toggled(m.notes, id), id) == m.notes,
{
    let t = toggled(m.notes, id);
    assert(toggled(t, id) =~= m.notes);
    let i = choose|i: int| 0 <= i < m.notes.len() && m.notes[i].id == id;
    assert(t[i].id == id);
    let j = choose|j: int| 0 <= j < t.len() && t[j].id == id;
    assert(m.notes[j].id == id);
    if i != j {
        assert(m.notes[i].id != m.notes[j].id);
    }
}

/// Removing a stored note takes away exactly that note: none left carries
/// its id, every other note stays in its order, and one fewer remains.
pub proof fn lemma_remove_exact(m: StoreModel, id: int)
    requires
        m.wf(),
        has_id(m.notes, id),
    ensures
        !has_id(without(m.notes, id), id),
        forall|j: int| 0 <= j < m.notes.len() && m.notes[j].id != id ==> without(m.notes, id).contains(#[trigger] m.notes[j]),
        forall|j: int| 0 <= j < without(m.notes, id).len() ==> m.notes.contains(#[trigger] without(m.notes, id)[j]),
        ids_increasing(without(m.notes, id)),
        without(m.notes, id).len() == m.notes.len() - 1,
{
    lemma_without(m.notes, id);
    if has_id(without(m.notes, id), id) {
        let j = choose|j: int| 0 <= j < without(m.notes, id).len() && without(m.notes, id)[j].id == id;
        assert(without(m.notes, id)[j].id != id);
    }
}

/// Opening storage on the rows and last id of a table gives that same table
/// back, so a create after reopening still hands out an id above every id
/// handed out before.
pub proof fn lemma_reopen_keeps_rows(m: StoreModel, title: Seq<char>, content: Seq<char>, created: Timestamp)
    requires
        m.wf(),
    ensures
        opened(m.notes, m.last_id) == Some(m),
        m.last_id < i32::MAX ==> opened(m.notes, m.last_id).unwrap().created(title, content, created).last_id > m.last_id,
{
    if m.notes.len() > 0 {
        assert(m.notes.last().id <= m.last_id);
    }
}

/// One storage operation, as the model sees it.
pub enum StoreOp {
    Create(Seq<char>, Seq<char>, Timestamp),
    Toggle(int),
    Remove(int),
}

/// The table after one operation, as `create`, `toggle` and `remove` leave it
/// whether they succeed or fail.
pub open spec fn apply(m: StoreModel, op: StoreOp) -> StoreModel {
    match op {
        StoreOp::Create(title, content, created) => if m.last_id < i32::MAX {
            m.created(title, content, created)
        } else {
            m
        },
        StoreOp::Toggle(id) => if has_id(m.notes, id) {
            StoreModel { notes: toggled(m.notes, id), ..m }
        } else {
            m
        },
        StoreOp::Remove(id) => if has_id(m.notes, id) {
            StoreModel { notes: without(m.notes, id), ..m }
        } else {
            m
        },
    }
}

/// The table after a run of operations, in order.
pub open spec fn run(m: StoreModel, ops: Seq<StoreOp>) -> StoreModel
    decreases ops.len(),
{
    if ops.len() == 0 {
        m
    } else {
        apply(run(m, ops.drop_last()), ops.last())
    }
}

/// The ids that the creates of a run hand out, in order.
pub open spec fn handed_out(m: StoreModel, ops: Seq<StoreOp>) -> Seq<int>
    decreases ops.len(),
{
    if ops.len() == 0 {
        Seq::empty()
    } else {
        let before = run(m, ops.drop_last());
        let earlier = handed_out(m, ops.drop_last());
        match ops.last() {
            StoreOp::Create(_, _, _) => if before.last_id < i32::MAX {
                earlier.push(before.last_id + 1)
            } else {
                earlier
            },
            _ => earlier,
        }
    }
}

/// Every operation keeps the table well formed and never lowers the last id.
pub proof fn lemma_apply_wf(m: StoreModel, op: StoreOp)
    requires
        m.wf(),
    ensures
        apply(m, op).wf(),
        apply(m, op).last_id >= m.last_id,
{
    match op {
        StoreOp::Create(title, content, created) => {
            if m.last_id < i32::MAX {
                lemma_create_one(m, (title, content, created));
            }
        },
        StoreOp::Toggle(id) => {
            let t = toggled(m.notes, id);
            assert(forall|i: int| 0 <= i < t.len() ==> #[trigger] t[i].id == m.notes[i].id);
        },
        StoreOp::Remove(id) => {
            lemma_without(m.notes, id);
            let w = without(m.notes, id);
            assert forall|j: int| 0 <= j < w.len() implies #[trigger] w[j].id <= m.last_id
                && i32::MIN <= w[j].id by {
                let k = choose|k: int| 0 <= k < m.notes.len() && m.notes[k] == w[j];
            }
        },
    }
}

/// Over any run of creates, toggles and removes, the ids handed out strictly
/// increase, each lies above every id stored or handed out before the run,
/// and none exceeds the last id after it; so a create never hands out an id
/// in use or one of a note already removed.
pub proof fn lemma_ids_never_reused(m: StoreModel, ops: Seq<StoreOp>)
    requires
        m.wf(),
    ensures
        run(m, ops).wf(),
        run(m, ops).last_id >= m.last_id,
        forall|i: int, j: int| 0 <= i < j < handed_out(m, ops).len() ==> handed_out(m, ops)[i] < handed_out(m, ops)[j],
        forall|i: int| 0 <= i < handed_out(m, ops).len() ==> m.last_id < #[trigger] handed_out(m, ops)[i] <= run(m, ops).last_id,
        forall|i: int, k: int| 0 <= i < handed_out(m, ops).len() && 0 <= k < m.notes.len()
            ==> #[trigger] m.notes[k].id < #[trigger] handed_out(m, ops)[i],
    decreases ops.len(),
{
    if ops.len() > 0 {
        let d = ops.drop_last();
        lemma_ids_never_reused(m, d);
        lemma_apply_wf(run(m, d), ops.last());
        let h = handed_out(m, ops);
        let e = handed_out(m, d);
        assert(forall|i: int| 0 <= i < e.len() ==> #[trigger] h[i] == e[i]);
        assert forall|i: int, k: int| 0 <= i < h.len() && 0 <= k < m.notes.len()
            implies #[trigger] m.notes[k].id < #[trigger] h[i] by {
            assert(m.notes[k].id <= m.last_id);
        }
    }
}

} // verus!
