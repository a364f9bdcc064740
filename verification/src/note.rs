//! Notes: dated text entries.

use vstd::prelude::*;
use crate::date::{Date, DateView};

verus! {

/// What a [`Note`] stands for: its identifier, its date and its text.
pub struct NoteView {
    pub id: int,
    pub date: DateView,
    pub content: Seq<char>,
}

/// A dated text entry. The guest it belongs to is not part of it.
#[derive(Clone, Debug, PartialEq, Eq)]
pub struct Note {
    id: i32,
    date: Date,
    content: String,
}

impl View for Note {
    type V = NoteView;

    closed spec fn view(&self) -> NoteView {
        NoteView { id: self.id as int, date: self.date@, content: self.content@ }
    }
}

impl Note {
    /// The note with the given identifier, date and text.
    pub fn new(id: i32, date: Date, content: String) -> (note: Note)
        ensures
            note@ == (NoteView { id: id as int, date: date@, content: content@ }),
    {
        Note { id, date, content }
    }

    /// The identifier of this note.
    pub fn id(&self) -> (id: i32)
        ensures
            id == self@.id,
    {
        self.id
    }

    /// The day this note is dated.
    pub fn date(&self) -> (date: Date)
        ensures
            date@ == self@.date,
    {
        self.date
    }

    /// The text of this note.
    pub fn content(&self) -> (content: &str)
        ensures
            content@ == self@.content,
    {
        self.content.as_str()
    }
}

} // verus!
