use vstd::prelude::*;

verus! {

/// A UTC instant: whole seconds since the Unix epoch and the nanoseconds
/// within that second.
#[derive(Clone, Copy, Debug, PartialEq, Eq, Structural)]
pub struct Timestamp {
    pub secs: i64,
    pub nanos: u32,
}

/// What a note is, mathematically.
pub struct NoteView {
    pub id: int,
    pub title: Seq<char>,
    pub content: Seq<char>,
    pub created: Timestamp,
    pub done: bool,
}

/// A single to-do record.
#[derive(Clone, Debug)]
pub struct Note {
    pub id: i32,
    pub title: String,
    pub content: String,
    pub created: Timestamp,
    pub done: bool,
}

impl View for Note {
    type V = NoteView;

    open spec fn view(&self) -> NoteView {
        NoteView {
            id: self.id as int,
            title: self.title@,
            content: self.content@,
            created: self.created,
            done: self.done,
        }
    }
}

impl Note {
    /// A copy whose every field equals this note's.
    pub fn duplicate(&self) -> (r: Note)
        ensures
            r@ == self@,
    {
        Note {
            id: self.id,
            title: self.title.clone(),
            content: self.content.clone(),
            created: self.created,
            done: self.done,
        }
    }
}

} // verus!
