//! What holds of the store's operations, whatever the tables hold.

use vstd::prelude::*;
use crate::date::{lemma_next_is_the_following_day, DateView};
use crate::failure::Failure;
use crate::note::NoteView;
use crate::tables::{
    lemma_add_guest_keeps_wf, lemma_add_note_keeps_wf, lemma_delete_note_keeps_wf,
    lemma_index_of_row, lemma_query_returns_selected_notes, lemma_select_push,
    lemma_update_note_keeps_wf, NoteRow, Operation, Tables,
};

verus! {

/// Every operation keeps the tables well formed. In particular every note
/// belongs to a guest that exists, before and after.
pub proof fn lemma_operation_keeps_wf(tables: Tables, operation: Operation)
    requires
        tables.wf(),
        operation.valid(),
    ensures
        tables.after(operation).wf(),
{
    match operation {
        Operation::AddGuest => lemma_add_guest_keeps_wf(tables),
        Operation::GetNotesInRange { .. } => {},
        Operation::AddNote { date, content, guest_id } => lemma_add_note_keeps_wf(
            tables,
            date,
            content,
            guest_id,
        ),
        Operation::UpdateNote { id, date, content } => lemma_update_note_keeps_wf(
            tables,
            id,
            date,
            content,
        ),
        Operation::DeleteNote { id } => lemma_delete_note_keeps_wf(tables, id),
    }
}

/// A run of operations keeps the tables well formed.
pub proof fn lemma_operations_keep_wf(tables: Tables, operations: Seq<Operation>)
    requires
        tables.wf(),
        forall|i: int| 0 <= i < operations.len() ==> (#[trigger] operations[i]).valid(),
    ensures
        tables.after_all(operations).wf(),
    decreases operations.len(),
{
    if operations.len() > 0 {
        lemma_operations_keep_wf(tables, operations.drop_last());
        lemma_operation_keeps_wf(tables.after_all(operations.drop_last()), operations.last());
    }
}

/// A note that was created is found: it carries the date and the text it
/// was created with, and a query for its guest over any range that covers
/// the date returns it.
pub proof fn lemma_created_note_is_found(
    tables: Tables,
    date: DateView,
    content: Seq<char>,
    guest_id: int,
    start: DateView,
    end: DateView,
)
    requires
        tables.wf(),
        tables.add_note(date, content, guest_id).1 is Ok,
        date.within(start, end),
    ensures
        ({
            let (after, created) = tables.add_note(date, content, guest_id);
            &&& created matches Ok(note)
            &&& note.date == date
            &&& note.content == content
            &&& after.notes_in_range(start, end, guest_id).contains(note)
        }),
{
    let (after, created) = tables.add_note(date, content, guest_id);
    let note = created->Ok_0;
    let row = NoteRow { note, guest_id };
    lemma_select_push(tables.notes, row, start, end, guest_id);
    let found = after.notes_in_range(start, end, guest_id);
    assert(found[found.len() - 1] == note);
}

/// Reading is repeatable: a query changes nothing, so the same query asked
/// again returns the same notes.
pub proof fn lemma_query_is_repeatable(
    tables: Tables,
    start: DateView,
    end: DateView,
    guest_id: int,
)
    ensures
        ({
            let (after, first) = tables.get_notes_in_range(start, end, guest_id);
            let (after_both, second) = after.get_notes_in_range(start, end, guest_id);
            &&& after == tables
            &&& after_both == tables
            &&& second == first
        }),
{
}

/// Both bounds of a range belong to it: where the range is not empty, a
/// note of the guest dated the first or the last day is returned. A note
/// dated the day before the first day, or the day after the last, is not.
pub proof fn lemma_range_includes_its_bounds(
    tables: Tables,
    start: DateView,
    end: DateView,
    id: int,
)
    requires
        tables.wf(),
        tables.has_note(id),
    ensures
        ({
            let NoteRow { note, guest_id } = tables.row_of(id);
            &&& tables.returns_note(start, end, guest_id, id) <==> note.date.within(start, end)
            &&& !end.before(start) && (note.date == start || note.date == end)
                ==> tables.returns_note(start, end, guest_id, id)
            &&& note.date.next() == start ==> !tables.returns_note(start, end, guest_id, id)
            &&& end.next() == note.date ==> !tables.returns_note(start, end, guest_id, id)
        }),
{
    let NoteRow { note, guest_id } = tables.row_of(id);
    lemma_query_returns_selected_notes(tables, start, end, guest_id, id);
    lemma_index_of_row(tables, tables.index_of(id));
    lemma_next_is_the_following_day(note.date, start);
}

/// A query for one guest never returns a note of another guest, whatever
/// the range.
pub proof fn lemma_query_keeps_to_its_guest(
    tables: Tables,
    start: DateView,
    end: DateView,
    guest_id: int,
    id: int,
)
    requires
        tables.wf(),
        tables.has_note(id),
        tables.row_of(id).guest_id != guest_id,
    ensures
        !tables.returns_note(start, end, guest_id, id),
{
    lemma_query_returns_selected_notes(tables, start, end, guest_id, id);
}

/// An update replaces the date and the text in full: afterwards the note
/// has the new date and the new text and still its identifier and its
/// guest, and whatever a query returns under its identifier is exactly
/// that note. Every other note is as it was.
pub proof fn lemma_update_replaces_date_and_text(
    tables: Tables,
    id: int,
    date: DateView,
    content: Seq<char>,
    start: DateView,
    end: DateView,
    guest_id: int,
    other: int,
)
    requires
        tables.wf(),
        tables.has_note(id),
        date.valid(),
    ensures
        ({
            let (after, updated) = tables.update_note(id, date, content);
            let found = after.notes_in_range(start, end, guest_id);
            &&& updated == Ok::<NoteView, Failure>(NoteView { id, date, content })
            &&& after.has_note(id)
            &&& after.row_of(id) == (NoteRow {
                note: NoteView { id, date, content },
                guest_id: tables.row_of(id).guest_id,
            })
            &&& forall|k: int|
                0 <= k < found.len() && (#[trigger] found[k]).id == id ==> found[k] == (NoteView {
                    id,
                    date,
                    content,
                })
            &&& guest_id == tables.row_of(id).guest_id && date.within(start, end)
                ==> found.contains(NoteView { id, date, content })
            &&& other != id ==> after.has_note(other) == tables.has_note(other)
            &&& other != id && tables.has_note(other) ==> after.row_of(other) == tables.row_of(
                other,
            )
        }),
{
    let (after, updated) = tables.update_note(id, date, content);
    let i = tables.index_of(id);
    assert(tables.notes[i].note.id == id);
    lemma_update_note_keeps_wf(tables, id, date, content);
    lemma_index_of_row(after, i);
    lemma_query_returns_selected_notes(after, start, end, guest_id, id);
    if other != id {
        if tables.has_note(other) {
            let j = tables.index_of(other);
            assert(after.notes[j] == tables.notes[j]);
            lemma_index_of_row(after, j);
        }
        if after.has_note(other) {
            let j = after.index_of(other);
            assert(tables.notes[j] == after.notes[j]);
        }
    }
}

/// Deleting returns the note as it was just before, and removes it: no
/// note has the identifier afterwards and no query returns it. Every other
/// note is as it was.
pub proof fn lemma_delete_returns_and_removes(
    tables: Tables,
    id: int,
    start: DateView,
    end: DateView,
    guest_id: int,
    other: int,
)
    requires
        tables.wf(),
        tables.has_note(id),
    ensures
        ({
            let (after, deleted) = tables.delete_note(id);
            &&& deleted == Ok::<NoteView, Failure>(tables.row_of(id).note)
            &&& !after.has_note(id)
            &&& !after.returns_note(start, end, guest_id, id)
            &&& other != id ==> after.has_note(other) == tables.has_note(other)
            &&& other != id && tables.has_note(other) ==> after.row_of(other) == tables.row_of(
                other,
            )
        }),
{
    let (after, deleted) = tables.delete_note(id);
    let i = tables.index_of(id);
    assert(tables.notes[i].note.id == id);
    lemma_delete_note_keeps_wf(tables, id);
    assert forall|j: int| 0 <= j < after.notes.len() implies (#[trigger] after.notes[j]).note.id
        != id by {
        if j < i {
            assert(after.notes[j] == tables.notes[j]);
        } else {
            assert(after.notes[j] == tables.notes[j + 1]);
        }
    }
    lemma_query_returns_selected_notes(after, start, end, guest_id, id);
    if other != id {
        if tables.has_note(other) {
            let j = tables.index_of(other);
            assert(tables.notes[j].note.id == other);
            let k = if j < i {
                j
            } else {
                j - 1
            };
            assert(after.notes[k] == tables.notes[j]);
            lemma_index_of_row(after, k);
        }
        if after.has_note(other) {
            let k = after.index_of(other);
            let j = if k < i {
                k
            } else {
                k + 1
            };
            assert(tables.notes[j] == after.notes[k]);
        }
    }
}

/// Identifiers are not given twice: one that was given out and has no note
/// has none after any operation.
pub proof fn lemma_used_identifier_stays_free(tables: Tables, id: int, operation: Operation)
    requires
        tables.wf(),
        1 <= id <= tables.issued,
        !tables.has_note(id),
    ensures
        1 <= id <= tables.after(operation).issued,
        !tables.after(operation).has_note(id),
{
    let after = tables.after(operation);
    assert forall|k: int| 0 <= k < after.notes.len() implies (#[trigger] after.notes[k]).note.id
        != id by {
        match operation {
            Operation::AddGuest => {
                assert(after.notes[k] == tables.notes[k]);
            },
            Operation::GetNotesInRange { .. } => {
                assert(after.notes[k] == tables.notes[k]);
            },
            Operation::AddNote { .. } => {
                if k < tables.notes.len() {
                    assert(after.notes[k] == tables.notes[k]);
                }
            },
            Operation::UpdateNote { id: updated, .. } => {
                if tables.has_note(updated) && k == tables.index_of(updated) {
                    assert(tables.notes[k].note.id == updated);
                } else {
                    assert(after.notes[k] == tables.notes[k]);
                }
            },
            Operation::DeleteNote { id: deleted } => {
                if tables.has_note(deleted) {
                    if k < tables.index_of(deleted) {
                        assert(after.notes[k] == tables.notes[k]);
                    } else {
                        assert(after.notes[k] == tables.notes[k + 1]);
                    }
                } else {
                    assert(after.notes[k] == tables.notes[k]);
                }
            },
        }
    }
}

/// A note that was deleted never comes back: after the deletion and any
/// run of further operations no note has its identifier and no query
/// returns it.
pub proof fn lemma_deleted_note_never_returns(
    tables: Tables,
    id: int,
    operations: Seq<Operation>,
    start: DateView,
    end: DateView,
    guest_id: int,
)
    requires
        tables.wf(),
        tables.has_note(id),
        forall|i: int| 0 <= i < operations.len() ==> (#[trigger] operations[i]).valid(),
    ensures
        !tables.delete_note(id).0.after_all(operations).has_note(id),
        !tables.delete_note(id).0.after_all(operations).returns_note(start, end, guest_id, id),
{
    let deleted = tables.delete_note(id).0;
    assert(tables.notes[tables.index_of(id)].note.id == id);
    lemma_delete_returns_and_removes(tables, id, start, end, guest_id, id);
    lemma_delete_note_keeps_wf(tables, id);
    lemma_used_identifier_stays_free_through(deleted, id, operations);
    lemma_operations_keep_wf(deleted, operations);
    lemma_query_returns_selected_notes(
        deleted.after_all(operations),
        start,
        end,
        guest_id,
        id,
    );
}

/// An identifier that was given out and has no note has none after any run
/// of operations.
pub proof fn lemma_used_identifier_stays_free_through(
    tables: Tables,
    id: int,
    operations: Seq<Operation>,
)
    requires
        tables.wf(),
        1 <= id <= tables.issued,
        !tables.has_note(id),
        forall|i: int| 0 <= i < operations.len() ==> (#[trigger] operations[i]).valid(),
    ensures
        1 <= id <= tables.after_all(operations).issued,
        !tables.after_all(operations).has_note(id),
    decreases operations.len(),
{
    if operations.len() > 0 {
        let earlier = operations.drop_last();
        lemma_used_identifier_stays_free_through(tables, id, earlier);
        lemma_operations_keep_wf(tables, earlier);
        lemma_used_identifier_stays_free(tables.after_all(earlier), id, operations.last());
    }
}

/// A note cannot belong to a guest that does not exist: creating one for
/// such a guest fails and creates nothing.
pub proof fn lemma_note_of_unknown_guest_is_refused(
    tables: Tables,
    date: DateView,
    content: Seq<char>,
    guest_id: int,
)
    requires
        !tables.has_guest(guest_id),
    ensures
        tables.add_note(date, content, guest_id) == (
            tables,
            Err::<NoteView, Failure>(Failure::Constraint),
        ),
{
}

} // verus!
