//! The store: guests and their notes, kept in memory.

use vstd::prelude::*;
use crate::date::Date;
use crate::failure::Failure;
use crate::guest::Guest;
use crate::note::{Note, NoteView};
use crate::tables::{
    lemma_add_guest_keeps_wf, lemma_add_note_keeps_wf, lemma_delete_note_keeps_wf,
    lemma_index_of_row, lemma_select_of_none, lemma_select_push, lemma_update_note_keeps_wf,
    select, NoteRow, Tables,
};

verus! {

/// A note together with the guest it belongs to.
#[derive(Debug)]
struct StoredNote {
    note: Note,
    guest_id: i32,
}

impl View for StoredNote {
    type V = NoteRow;

    closed spec fn view(&self) -> NoteRow {
        NoteRow { note: self.note@, guest_id: self.guest_id as int }
    }
}

/// The rows that stored notes stand for.
spec fn rows_of(stored: Seq<StoredNote>) -> Seq<NoteRow> {
    stored.map_values(|row: StoredNote| row@)
}

/// What a list of notes stands for.
pub open spec fn views_of(notes: Seq<Note>) -> Seq<NoteView> {
    notes.map_values(|note: Note| note@)
}

/// What the outcome of an operation on one note stands for.
pub open spec fn note_outcome(outcome: Result<Note, Failure>) -> Result<NoteView, Failure> {
    match outcome {
        Ok(note) => Ok(note@),
        Err(failure) => Err(failure),
    }
}

/// What the outcome of creating a guest stands for.
pub open spec fn guest_outcome(outcome: Result<Guest, Failure>) -> Result<int, Failure> {
    match outcome {
        Ok(guest) => Ok(guest@),
        Err(failure) => Err(failure),
    }
}

/// What the outcome of reading notes stands for.
pub open spec fn notes_outcome(outcome: Result<Vec<Note>, Failure>) -> Result<
    Seq<NoteView>,
    Failure,
> {
    match outcome {
        Ok(notes) => Ok(views_of(notes@)),
        Err(failure) => Err(failure),
    }
}

/// A copy of a note.
fn copy_of(note: &Note) -> (copy: Note)
    ensures
        copy@ == note@,
{
    Note::new(note.id(), note.date(), note.content().to_owned())
}

/// Guests and their notes. Each operation is one step of [`Tables`].
#[derive(Debug)]
pub struct Store {
    guests: i32,
    issued: i32,
    rows: Vec<StoredNote>,
}

impl View for Store {
    type V = Tables;

    closed spec fn view(&self) -> Tables {
        Tables {
            guests: self.guests as int,
            issued: self.issued as int,
            notes: rows_of(self.rows@),
        }
    }
}

impl Store {
    /// Holds of every `Store`: its tables are well formed.
    #[verifier::type_invariant]
    pub open spec fn well_formed(self) -> bool {
        self@.wf()
    }

    /// A store with no guest and no note.
    pub fn new() -> (store: Store)
        ensures
            store@ == Tables::empty(),
    {
        let store = Store { guests: 0, issued: 0, rows: Vec::new() };
        assert(store@.notes =~= Seq::empty());
        store
    }

    /// Creates a guest and returns it. The first guest gets the identifier
    /// 1, each further one the next number.
    pub fn add_guest(&mut self) -> (created: Result<Guest, Failure>)
        ensures
            final(self)@ == old(self)@.add_guest().0,
            guest_outcome(created) == old(self)@.add_guest().1,
    {
        proof {
            use_type_invariant(&*self);
        }
        if self.guests == i32::MAX {
            return Err(Failure::Unavailable);
        }
        proof {
            lemma_add_guest_keeps_wf(self@);
        }
        self.guests = self.guests + 1;
        Ok(Guest::new(self.guests))
    }

    /// Returns the notes of the guest `guest_id` that are dated from
    /// `start` to `end`, both days included, in the order in which the
    /// store keeps them. Callers should not rely on that order.
    pub fn get_notes_in_range(&self, start: Date, end: Date, guest_id: i32) -> (found: Result<
        Vec<Note>,
        Failure,
    >)
        ensures
            notes_outcome(found) == self@.get_notes_in_range(start@, end@, guest_id as int).1,
    {
        let mut notes: Vec<Note> = Vec::new();
        let mut i: usize = 0;
        proof {
            lemma_select_of_none(start@, end@, guest_id as int);
            assert(rows_of(self.rows@.take(0)) =~= Seq::empty());
            assert(views_of(notes@) =~= Seq::empty());
        }
        while i < self.rows.len()
            invariant
                i <= self.rows.len(),
                views_of(notes@) == select(
                    rows_of(self.rows@.take(i as int)),
                    start@,
                    end@,
                    guest_id as int,
                ),
            decreases self.rows.len() - i,
        {
            let row = &self.rows[i];
            proof {
                let before = rows_of(self.rows@.take(i as int));
                assert(rows_of(self.rows@.take(i + 1)) =~= before.push(row@));
                lemma_select_push(before, row@, start@, end@, guest_id as int);
            }
            if row.guest_id == guest_id && row.note.date().is_within(&start, &end) {
                let ghost earlier = notes@;
                notes.push(copy_of(&row.note));
                assert(views_of(notes@) =~= views_of(earlier).push(row@.note));
            }
            i = i + 1;
        }
        assert(self.rows@.take(i as int) =~= self.rows@);
        Ok(notes)
    }

    /// Creates a note of the guest `guest_id` and returns it. The first
    /// note gets the identifier 1, each further one the next number. Where
    /// no guest has the identifier `guest_id`, nothing is created.
    pub fn add_note(&mut self, date: Date, content: String, guest_id: i32) -> (created: Result<
        Note,
        Failure,
    >)
        ensures
            final(self)@ == old(self)@.add_note(date@, content@, guest_id as int).0,
            note_outcome(created) == old(self)@.add_note(date@, content@, guest_id as int).1,
    {
        proof {
            use_type_invariant(&*self);
            use_type_invariant(&date);
        }
        if guest_id < 1 || guest_id > self.guests {
            return Err(Failure::Constraint);
        }
        if self.issued == i32::MAX {
            return Err(Failure::Unavailable);
        }
        let id: i32 = self.issued + 1;
        let note = Note::new(id, date, content.clone());
        let stored = StoredNote { note: Note::new(id, date, content), guest_id };
        let mut rows: Vec<StoredNote> = Vec::new();
        std::mem::swap(&mut rows, &mut self.rows);
        rows.push(stored);
        proof {
            lemma_add_note_keeps_wf(old(self)@, date@, content@, guest_id as int);
            assert(rows_of(rows@) =~= old(self)@.notes.push(stored@));
        }
        self.issued = id;
        self.rows = rows;
        Ok(note)
    }

    /// Replaces the date and the text of the note `id` and returns the note
    /// as it is then. Its identifier and its guest stay. Where no note has
    /// the identifier, nothing changes.
    pub fn update_note(&mut self, id: i32, date: Date, content: String) -> (updated: Result<
        Note,
        Failure,
    >)
        ensures
            final(self)@ == old(self)@.update_note(id as int, date@, content@).0,
            note_outcome(updated) == old(self)@.update_note(id as int, date@, content@).1,
    {
        proof {
            use_type_invariant(&*self);
            use_type_invariant(&date);
        }
        match self.position(id) {
            None => Err(Failure::NotFound),
            Some(i) => {
                let guest_id = self.rows[i].guest_id;
                let note = Note::new(id, date, content.clone());
                let stored = StoredNote { note: Note::new(id, date, content), guest_id };
                let mut rows: Vec<StoredNote> = Vec::new();
                std::mem::swap(&mut rows, &mut self.rows);
                rows[i] = stored;
                proof {
                    lemma_update_note_keeps_wf(old(self)@, id as int, date@, content@);
                    assert(rows_of(rows@) =~= old(self)@.notes.update(i as int, stored@));
                }
                self.rows = rows;
                Ok(note)
            },
        }
    }

    /// Deletes the note `id` and returns it as it was. Where no note has
    /// the identifier, nothing changes.
    pub fn delete_note(&mut self, id: i32) -> (deleted: Result<Note, Failure>)
        ensures
            final(self)@ == old(self)@.delete_note(id as int).0,
            note_outcome(deleted) == old(self)@.delete_note(id as int).1,
    {
        proof {
            use_type_invariant(&*self);
        }
        match self.position(id) {
            None => Err(Failure::NotFound),
            Some(i) => {
                let mut rows: Vec<StoredNote> = Vec::new();
                std::mem::swap(&mut rows, &mut self.rows);
                let stored = rows.remove(i);
                proof {
                    lemma_delete_note_keeps_wf(old(self)@, id as int);
                    assert(rows_of(rows@) =~= old(self)@.notes.remove(i as int));
                }
                self.rows = rows;
                Ok(stored.note)
            },
        }
    }

    /// Where the note `id` stands among the rows, if there is such a note.
    fn position(&self, id: i32) -> (found: Option<usize>)
        ensures
            found is Some <==> self@.has_note(id as int),
            found matches Some(i) ==> i == self@.index_of(id as int) && i < self.rows.len(),
    {
        proof {
            use_type_invariant(self);
        }
        let mut i: usize = 0;
        while i < self.rows.len()
            invariant
                i <= self.rows.len(),
                self@.wf(),
                forall|j: int| 0 <= j < i ==> (#[trigger] self@.notes[j]).note.id != id,
            decreases self.rows.len() - i,
        {
            if self.rows[i].note.id() == id {
                proof {
                    assert(self@.notes[i as int].note.id == id);
                    lemma_index_of_row(self@, i as int);
                }
                return Some(i);
            }
            i = i + 1;
        }
        None
    }
}

} // verus!
