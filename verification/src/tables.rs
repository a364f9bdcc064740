//! What a store holds, and what each operation makes of it.
//!
//! The store keeps two tables. The guests have no fields but their
//! identifiers, which are given out in order from 1, and no guest is ever
//! removed: the table is known by its size. The notes are rows of an
//! identifier, a date, a text and the owning guest's identifier. Note
//! identifiers are given out in order from 1 as well and never given twice,
//! also after a note was deleted.

use vstd::prelude::*;
use crate::date::DateView;
use crate::failure::Failure;
use crate::note::NoteView;

verus! {

/// A row of the table of notes: the note and the guest it belongs to.
pub struct NoteRow {
    pub note: NoteView,
    pub guest_id: int,
}

impl NoteRow {
    /// Whether a query for the notes of `guest_id` dated from `start` to
    /// `end`, both included, selects this row.
    pub open spec fn selected_by(self, start: DateView, end: DateView, guest_id: int) -> bool {
        self.guest_id == guest_id && self.note.date.within(start, end)
    }
}

/// The notes of the rows that a query for the notes of `guest_id` dated
/// from `start` to `end` selects, in the order of the rows.
pub open spec fn select(rows: Seq<NoteRow>, start: DateView, end: DateView, guest_id: int) -> Seq<
    NoteView,
> {
    rows.filter(|row: NoteRow| row.selected_by(start, end, guest_id)).map_values(
        |row: NoteRow| row.note,
    )
}

/// The two tables.
pub struct Tables {
    /// How many guests were created. Their identifiers are 1 to `guests`.
    pub guests: int,
    /// How many notes were created so far, deleted ones included. The
    /// identifiers 1 to `issued` are used up.
    pub issued: int,
    /// The notes that exist.
    pub notes: Seq<NoteRow>,
}

impl Tables {
    /// The tables with no guest and no note.
    pub open spec fn empty() -> Tables {
        Tables { guests: 0, issued: 0, notes: Seq::empty() }
    }

    /// Whether a guest has this identifier.
    pub open spec fn has_guest(self, guest_id: int) -> bool {
        1 <= guest_id <= self.guests
    }

    /// Whether a note has this identifier.
    pub open spec fn has_note(self, id: int) -> bool {
        exists|i: int| 0 <= i < self.notes.len() && (#[trigger] self.notes[i]).note.id == id
    }

    /// Where the note with this identifier stands among the rows.
    pub open spec fn index_of(self, id: int) -> int {
        choose|i: int| 0 <= i < self.notes.len() && (#[trigger] self.notes[i]).note.id == id
    }

    /// The row of the note with this identifier.
    pub open spec fn row_of(self, id: int) -> NoteRow {
        self.notes[self.index_of(id)]
    }

    /// What the tables always satisfy: identifiers fit in 32 bits, every
    /// note has an identifier that was given out, belongs to a guest that
    /// exists and is dated a day that exists, and no two notes share an
    /// identifier.
    pub open spec fn wf(self) -> bool {
        &&& 0 <= self.guests <= i32::MAX
        &&& 0 <= self.issued <= i32::MAX
        &&& forall|i: int|
            0 <= i < self.notes.len() ==> {
                &&& 1 <= (#[trigger] self.notes[i]).note.id <= self.issued
                &&& self.has_guest(self.notes[i].guest_id)
                &&& self.notes[i].note.date.valid()
            }
        &&& forall|i: int, j: int|
            0 <= i < j < self.notes.len() ==> (#[trigger] self.notes[i]).note.id != (
            #[trigger] self.notes[j]).note.id
    }

    /// The notes of `guest_id` dated from `start` to `end`, both included.
    pub open spec fn notes_in_range(self, start: DateView, end: DateView, guest_id: int) -> Seq<
        NoteView,
    > {
        select(self.notes, start, end, guest_id)
    }

    /// Creating a guest: the tables afterwards, and the new guest's
    /// identifier. It fails only when the identifiers have run out.
    pub open spec fn add_guest(self) -> (Tables, Result<int, Failure>) {
        if self.guests >= i32::MAX {
            (self, Err(Failure::Unavailable))
        } else {
            (Tables { guests: self.guests + 1, ..self }, Ok(self.guests + 1))
        }
    }

    /// Reading the notes of a guest in a range of dates. It changes nothing
    /// and does not fail.
    pub open spec fn get_notes_in_range(self, start: DateView, end: DateView, guest_id: int) -> (
        Tables,
        Result<Seq<NoteView>, Failure>,
    ) {
        (self, Ok(self.notes_in_range(start, end, guest_id)))
    }

    /// Creating a note: the tables afterwards, and the new note. It fails,
    /// and changes nothing, when the guest does not exist or the
    /// identifiers have run out.
    pub open spec fn add_note(self, date: DateView, content: Seq<char>, guest_id: int) -> (
        Tables,
        Result<NoteView, Failure>,
    ) {
        if !self.has_guest(guest_id) {
            (self, Err(Failure::Constraint))
        } else if self.issued >= i32::MAX {
            (self, Err(Failure::Unavailable))
        } else {
            let note = NoteView { id: self.issued + 1, date, content };
            (
                Tables {
                    issued: self.issued + 1,
                    notes: self.notes.push(NoteRow { note, guest_id }),
                    ..self
                },
                Ok(note),
            )
        }
    }

    /// Replacing the date and text of a note: the tables afterwards, and
    /// the note as it is then. It fails, and changes nothing, when no note
    /// has the identifier.
    pub open spec fn update_note(self, id: int, date: DateView, content: Seq<char>) -> (
        Tables,
        Result<NoteView, Failure>,
    ) {
        if !self.has_note(id) {
            (self, Err(Failure::NotFound))
        } else {
            let note = NoteView { id, date, content };
            let row = NoteRow { note, guest_id: self.row_of(id).guest_id };
            (Tables { notes: self.notes.update(self.index_of(id), row), ..self }, Ok(note))
        }
    }

    /// Deleting a note: the tables afterwards, and the note as it was. It
    /// fails, and changes nothing, when no note has the identifier.
    pub open spec fn delete_note(self, id: int) -> (Tables, Result<NoteView, Failure>) {
        if !self.has_note(id) {
            (self, Err(Failure::NotFound))
        } else {
            (
                Tables { notes: self.notes.remove(self.index_of(id)), ..self },
                Ok(self.row_of(id).note),
            )
        }
    }

    /// Whether a query for the notes of `guest_id` dated from `start` to
    /// `end` returns the note with this identifier.
    pub open spec fn returns_note(
        self,
        start: DateView,
        end: DateView,
        guest_id: int,
        id: int,
    ) -> bool {
        exists|k: int|
            0 <= k < self.notes_in_range(start, end, guest_id).len() && (
            #[trigger] self.notes_in_range(start, end, guest_id)[k]).id == id
    }

    /// The tables after one operation.
    pub open spec fn after(self, operation: Operation) -> Tables {
        match operation {
            Operation::AddGuest => self.add_guest().0,
            Operation::GetNotesInRange { start, end, guest_id } => self.get_notes_in_range(
                start,
                end,
                guest_id,
            ).0,
            Operation::AddNote { date, content, guest_id } => self.add_note(
                date,
                content,
                guest_id,
            ).0,
            Operation::UpdateNote { id, date, content } => self.update_note(id, date, content).0,
            Operation::DeleteNote { id } => self.delete_note(id).0,
        }
    }

    /// The tables after a run of operations, the first of them first.
    pub open spec fn after_all(self, operations: Seq<Operation>) -> Tables
        decreases operations.len(),
    {
        if operations.len() == 0 {
            self
        } else {
            self.after_all(operations.drop_last()).after(operations.last())
        }
    }
}

/// One of the five operations of a store, with what it is given.
pub enum Operation {
    AddGuest,
    GetNotesInRange { start: DateView, end: DateView, guest_id: int },
    AddNote { date: DateView, content: Seq<char>, guest_id: int },
    UpdateNote { id: int, date: DateView, content: Seq<char> },
    DeleteNote { id: int },
}

impl Operation {
    /// Whether the date that the operation writes, if it writes one, is a
    /// day that exists.
    pub open spec fn valid(self) -> bool {
        match self {
            Operation::AddNote { date, .. } => date.valid(),
            Operation::UpdateNote { date, .. } => date.valid(),
            _ => true,
        }
    }
}

/// In tables that are well formed a note's identifier tells where its row
/// stands.
pub proof fn lemma_index_of_row(tables: Tables, i: int)
    requires
        tables.wf(),
        0 <= i < tables.notes.len(),
    ensures
        tables.has_note(tables.notes[i].note.id),
        tables.index_of(tables.notes[i].note.id) == i,
        tables.row_of(tables.notes[i].note.id) == tables.notes[i],
{
    let id = tables.notes[i].note.id;
    let j = tables.index_of(id);
    assert(0 <= j < tables.notes.len() && tables.notes[j].note.id == id);
}

/// Selecting from one more row: its note comes last if the query selects
/// the row, and else the selection stays as it was.
pub proof fn lemma_select_push(
    rows: Seq<NoteRow>,
    row: NoteRow,
    start: DateView,
    end: DateView,
    guest_id: int,
)
    ensures
        select(rows.push(row), start, end, guest_id) == if row.selected_by(start, end, guest_id) {
            select(rows, start, end, guest_id).push(row.note)
        } else {
            select(rows, start, end, guest_id)
        },
{
    reveal(Seq::filter);
    let chosen = |row: NoteRow| row.selected_by(start, end, guest_id);
    let longer = rows.push(row);
    assert(longer.drop_last() =~= rows);
    assert(longer.last() == row);
    if row.selected_by(start, end, guest_id) {
        assert(longer.filter(chosen) == rows.filter(chosen).push(row));
        assert(select(longer, start, end, guest_id) =~= select(rows, start, end, guest_id).push(
            row.note,
        ));
    } else {
        assert(longer.filter(chosen) == rows.filter(chosen));
    }
}

/// Creating a guest keeps the tables well formed.
pub proof fn lemma_add_guest_keeps_wf(tables: Tables)
    requires
        tables.wf(),
    ensures
        tables.add_guest().0.wf(),
{
    let after = tables.add_guest().0;
    assert forall|i: int| 0 <= i < after.notes.len() implies after.has_guest(
        (#[trigger] after.notes[i]).guest_id,
    ) by {
        assert(tables.has_guest(tables.notes[i].guest_id));
    }
}

/// Creating a note keeps the tables well formed.
pub proof fn lemma_add_note_keeps_wf(
    tables: Tables,
    date: DateView,
    content: Seq<char>,
    guest_id: int,
)
    requires
        tables.wf(),
        date.valid(),
    ensures
        tables.add_note(date, content, guest_id).0.wf(),
{
}

/// Replacing the date and text of a note keeps the tables well formed.
pub proof fn lemma_update_note_keeps_wf(tables: Tables, id: int, date: DateView, content: Seq<char>)
    requires
        tables.wf(),
        date.valid(),
    ensures
        tables.update_note(id, date, content).0.wf(),
{
    if tables.has_note(id) {
        let i = tables.index_of(id);
        assert(tables.notes[i].note.id == id);
    }
}

/// Deleting a note keeps the tables well formed.
pub proof fn lemma_delete_note_keeps_wf(tables: Tables, id: int)
    requires
        tables.wf(),
    ensures
        tables.delete_note(id).0.wf(),
{
}

/// Whether one of the rows that the query selects holds `note`.
pub open spec fn selects(
    rows: Seq<NoteRow>,
    start: DateView,
    end: DateView,
    guest_id: int,
    note: NoteView,
) -> bool {
    exists|i: int|
        0 <= i < rows.len() && (#[trigger] rows[i]).selected_by(start, end, guest_id)
            && rows[i].note == note
}

/// A selection holds the notes of the selected rows and nothing else.
pub proof fn lemma_select_holds_selected_rows(
    rows: Seq<NoteRow>,
    start: DateView,
    end: DateView,
    guest_id: int,
)
    ensures
        forall|k: int|
            0 <= k < select(rows, start, end, guest_id).len() ==> selects(
                rows,
                start,
                end,
                guest_id,
                #[trigger] select(rows, start, end, guest_id)[k],
            ),
        forall|i: int|
            0 <= i < rows.len() && (#[trigger] rows[i]).selected_by(start, end, guest_id)
                ==> select(rows, start, end, guest_id).contains(rows[i].note),
    decreases rows.len(),
{
    let chosen = select(rows, start, end, guest_id);
    if rows.len() == 0 {
        lemma_select_of_none(start, end, guest_id);
        assert(rows =~= Seq::empty());
    } else {
        let shorter = rows.drop_last();
        let last = rows.last();
        let fewer = select(shorter, start, end, guest_id);
        assert(rows =~= shorter.push(last));
        lemma_select_push(shorter, last, start, end, guest_id);
        lemma_select_holds_selected_rows(shorter, start, end, guest_id);
        assert forall|k: int| 0 <= k < chosen.len() implies selects(
            rows,
            start,
            end,
            guest_id,
            #[trigger] chosen[k],
        ) by {
            if k < fewer.len() {
                assert(chosen[k] == fewer[k]);
                assert(selects(shorter, start, end, guest_id, fewer[k]));
                let i = choose|i: int|
                    0 <= i < shorter.len() && (#[trigger] shorter[i]).selected_by(
                        start,
                        end,
                        guest_id,
                    ) && shorter[i].note == fewer[k];
                assert(rows[i] == shorter[i]);
            } else {
                assert(rows[rows.len() - 1] == last);
            }
        }
        assert forall|i: int|
            0 <= i < rows.len() && (#[trigger] rows[i]).selected_by(
                start,
                end,
                guest_id,
            ) implies chosen.contains(rows[i].note) by {
            if i < shorter.len() {
                assert(rows[i] == shorter[i]);
                assert(fewer.contains(shorter[i].note));
                let k = choose|k: int| 0 <= k < fewer.len() && fewer[k] == shorter[i].note;
                assert(chosen[k] == rows[i].note);
            } else {
                assert(chosen[chosen.len() - 1] == rows[i].note);
            }
        }
    }
}

/// Nothing is selected from no rows.
pub proof fn lemma_select_of_none(start: DateView, end: DateView, guest_id: int)
    ensures
        select(Seq::empty(), start, end, guest_id) == Seq::<NoteView>::empty(),
{
    reveal(Seq::filter);
    assert(select(Seq::empty(), start, end, guest_id) =~= Seq::<NoteView>::empty());
}

/// What a query returns, told by identifier: the note with the identifier
/// `id` is returned if and only if it exists, belongs to the guest and is
/// dated within the range; and what is returned under that identifier is
/// the note as its row holds it.
pub proof fn lemma_query_returns_selected_notes(
    tables: Tables,
    start: DateView,
    end: DateView,
    guest_id: int,
    id: int,
)
    requires
        tables.wf(),
    ensures
        tables.returns_note(start, end, guest_id, id) <==> tables.has_note(id) && tables.row_of(
            id,
        ).selected_by(start, end, guest_id),
        tables.returns_note(start, end, guest_id, id) ==> tables.notes_in_range(
            start,
            end,
            guest_id,
        ).contains(tables.row_of(id).note),
        forall|k: int|
            0 <= k < tables.notes_in_range(start, end, guest_id).len() && (
            #[trigger] tables.notes_in_range(start, end, guest_id)[k]).id == id
                ==> tables.notes_in_range(start, end, guest_id)[k] == tables.row_of(id).note,
{
    let found = tables.notes_in_range(start, end, guest_id);
    lemma_select_holds_selected_rows(tables.notes, start, end, guest_id);
    assert forall|k: int| 0 <= k < found.len() && (#[trigger] found[k]).id == id implies found[k]
        == tables.row_of(id).note && tables.has_note(id) && tables.row_of(id).selected_by(
        start,
        end,
        guest_id,
    ) by {
        assert(selects(tables.notes, start, end, guest_id, found[k]));
        let i = choose|i: int|
            0 <= i < tables.notes.len() && (#[trigger] tables.notes[i]).selected_by(
                start,
                end,
                guest_id,
            ) && tables.notes[i].note == found[k];
        lemma_index_of_row(tables, i);
    }
    if tables.has_note(id) && tables.row_of(id).selected_by(start, end, guest_id) {
        let i = tables.index_of(id);
        assert(tables.notes[i].selected_by(start, end, guest_id));
        assert(found.contains(tables.notes[i].note));
        let k = choose|k: int| 0 <= k < found.len() && found[k] == tables.notes[i].note;
        assert(found[k].id == id);
    }
}

} // verus!
