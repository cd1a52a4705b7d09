use vstd::prelude::*;
use crate::input::{id_value, parse_id, trim_line, trimmed_end};
use crate::note::Timestamp;
use crate::render::{note_block, note_text, shown_time, utc_text};
use crate::store::{NoteStore, StoreError, StoreModel, done_of, has_id, toggled, views, without};

verus! {

/// Why a command did not change the notes.
#[derive(Clone, Copy, Debug, PartialEq, Eq, Structural)]
pub enum OpError {
    /// The line typed at the id prompt is not an integer.
    InvalidIndex,
    /// Storage refused the operation.
    Store(StoreError),
}

/// The line that reports an error.
pub open spec fn message_of(e: OpError) -> Seq<char> {
    match e {
        OpError::InvalidIndex => "Invalid input for index."@,
        OpError::Store(StoreError::NotFound) => "Chosen to do note does not exist."@,
        OpError::Store(StoreError::IdsExhausted) => "No note id is left to hand out."@,
        OpError::Store(StoreError::Corrupt) => "The stored notes are inconsistent."@,
    }
}

impl OpError {
    /// The line that reports this error.
    pub fn message(&self) -> (r: String)
        ensures
            r@ == message_of(*self),
    {
        match self {
            OpError::InvalidIndex => String::from_str("Invalid input for index."),
            OpError::Store(StoreError::NotFound) => String::from_str("Chosen to do note does not exist."),
            OpError::Store(StoreError::IdsExhausted) => String::from_str("No note id is left to hand out."),
            OpError::Store(StoreError::Corrupt) => String::from_str("The stored notes are inconsistent."),
        }
    }
}

/// Creates a note from the lines typed at the title and content prompts,
/// without their trailing whitespace, created at `now`.
pub fn create_item(store: &mut NoteStore, title_line: &str, content_line: &str, now: Timestamp) -> (r: Result<i32, OpError>)
    requires
        old(store)@.wf(),
    ensures
        final(store)@.wf(),
        r is Ok <==> old(store)@.last_id < i32::MAX,
        r matches Ok(id) ==> id == old(store)@.last_id + 1
            && final(store)@ == old(store)@.created(trimmed_end(title_line@), trimmed_end(content_line@), now),
        r matches Err(e) ==> e == OpError::Store(StoreError::IdsExhausted) && final(store)@ == old(store)@,
{
    let title = trim_line(title_line);
    let content = trim_line(content_line);
    match store.create(title, content, now) {
        Ok(id) => Ok(id),
        Err(e) => Err(OpError::Store(e)),
    }
}

/// Relies on chrono's `Utc::now`: the current instant, read back as whole
/// seconds and nanoseconds through `timestamp` and `timestamp_subsec_nanos`.
/// chrono documents that `from_timestamp` round-trips those two numbers,
/// so the reading always renders.
#[verifier::external_body]
fn utc_now() -> (r: Timestamp)
    ensures
        utc_text(r.secs as int, r.nanos as int) is Some,
{
    let t = chrono::Utc::now();
    Timestamp { secs: t.timestamp(), nanos: t.timestamp_subsec_nanos() }
}

/// Creates a note from the lines typed at the title and content prompts,
/// created now; returns its id and the creation time that was stored, a
/// time that chrono can render.
pub fn create_note_now(store: &mut NoteStore, title_line: &str, content_line: &str) -> (r: Result<(i32, Timestamp), OpError>)
    requires
        old(store)@.wf(),
    ensures
        final(store)@.wf(),
        r is Ok <==> old(store)@.last_id < i32::MAX,
        r matches Ok((id, now)) ==> id == old(store)@.last_id + 1
            && utc_text(now.secs as int, now.nanos as int) is Some
            && final(store)@ == old(store)@.created(trimmed_end(title_line@), trimmed_end(content_line@), now),
        r matches Err(e) ==> e == OpError::Store(StoreError::IdsExhausted) && final(store)@ == old(store)@,
{
    let now = utc_now();
    match create_item(store, title_line, content_line, now) {
        Ok(id) => Ok((id, now)),
        Err(e) => Err(e),
    }
}

/// Flips the `done` flag of the note whose id is typed on the line and
/// returns that id with the new value; the notes stay as they are when the line is no
/// integer or no note carries it.
pub fn mark_done(store: &mut NoteStore, line: &str) -> (r: Result<(i32, bool), OpError>)
    requires
        old(store)@.wf(),
    ensures
        final(store)@.wf(),
        id_value(trimmed_end(line@)) is None <==> r == Err::<(i32, bool), OpError>(OpError::InvalidIndex),
        id_value(trimmed_end(line@)) matches Some(id) ==> {
            &&& r is Ok <==> has_id(old(store)@.notes, id)
            &&& r matches Ok((n, d)) ==> n == id && done_of(old(store)@.notes, id) == Some(!d)
            &&& r is Ok ==> final(store)@ == (StoreModel { notes: toggled(old(store)@.notes, id), ..old(store)@ })
            &&& r is Err ==> r == Err::<(i32, bool), OpError>(OpError::Store(StoreError::NotFound))
        },
        r is Err ==> final(store)@ == old(store)@,
{
    let text = trim_line(line);
    match parse_id(text.as_str()) {
        None => Err(OpError::InvalidIndex),
        Some(id) => match store.toggle(id) {
            Ok(d) => Ok((id, d)),
            Err(e) => Err(OpError::Store(e)),
        },
    }
}

/// Deletes the note whose id is typed on the line and returns that id; the notes stay as they
/// are when the line is no integer or no note carries it.
pub fn remove_item(store: &mut NoteStore, line: &str) -> (r: Result<i32, OpError>)
    requires
        old(store)@.wf(),
    ensures
        final(store)@.wf(),
        id_value(trimmed_end(line@)) is None <==> r == Err::<i32, OpError>(OpError::InvalidIndex),
        id_value(trimmed_end(line@)) matches Some(id) ==> {
            &&& r is Ok <==> has_id(old(store)@.notes, id)
            &&& r matches Ok(n) ==> n == id
            &&& r is Ok ==> final(store)@ == (StoreModel { notes: without(old(store)@.notes, id), ..old(store)@ })
            &&& r is Err ==> r == Err::<i32, OpError>(OpError::Store(StoreError::NotFound))
        },
        r is Err ==> final(store)@ == old(store)@,
{
    let text = trim_line(line);
    match parse_id(text.as_str()) {
        None => Err(OpError::InvalidIndex),
        Some(id) => match store.remove(id) {
            Ok(()) => Ok(id),
            Err(e) => Err(OpError::Store(e)),
        },
    }
}

/// The blocks that show every note, in storage order.
pub fn list_items(store: &NoteStore) -> (r: Vec<String>)
    ensures
        r@.len() == store@.notes.len(),
        forall|i: int| 0 <= i < r@.len() ==> #[trigger] r@[i]@ == note_block(store@.notes[i], shown_time(store@.notes[i].created)),
{
    let notes = store.list();
    let mut out: Vec<String> = Vec::new();
    let mut k: usize = 0;
    while k < notes.len()
        invariant
            k <= notes.len(),
            views(notes@) == store@.notes,
            out@.len() == k,
            forall|i: int| 0 <= i < k ==> #[trigger] out@[i]@ == note_block(store@.notes[i], shown_time(store@.notes[i].created)),
        decreases notes.len() - k,
    {
        let block = note_text(&notes[k]);
        assert(notes@[k as int]@ == store@.notes[k as int]);
        out.push(block);
        k += 1;
    }
    out
}

} // verus!
