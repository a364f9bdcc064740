use guest_notes::date::Date;
use guest_notes::failure::Failure;
use guest_notes::guest::Guest;
use guest_notes::note::Note;
use guest_notes::store::Store;

fn on(text: &str) -> Date {
    Date::parse(text).expect("a date")
}

fn note(id: i32, date: &str, content: &str) -> Note {
    Note::new(id, on(date), content.to_string())
}

fn sorted(mut notes: Vec<Note>) -> Vec<Note> {
    notes.sort_by_key(|note| note.id());
    notes
}

fn query(store: &Store, start: &str, end: &str, guest_id: i32) -> Vec<Note> {
    sorted(store.get_notes_in_range(on(start), on(end), guest_id).expect("a list of notes"))
}

#[test]
fn a_new_store_is_empty() {
    let store = Store::new();
    assert_eq!(query(&store, "0000-01-01", "9999-12-31", 1), vec![]);
    assert_eq!(query(&store, "0000-01-01", "9999-12-31", 0), vec![]);
}

#[test]
fn guests_are_numbered_from_one() {
    let mut store = Store::new();
    assert_eq!(store.add_guest(), Ok(Guest::new(1)));
    assert_eq!(store.add_guest(), Ok(Guest::new(2)));
    assert_eq!(store.add_guest().unwrap().id(), 3);
}

#[test]
fn notes_are_numbered_from_one_over_all_guests() {
    let mut store = Store::new();
    store.add_guest().unwrap();
    store.add_guest().unwrap();
    assert_eq!(store.add_note(on("2024-01-10"), "a".to_string(), 1).unwrap().id(), 1);
    assert_eq!(store.add_note(on("2024-01-10"), "b".to_string(), 2).unwrap().id(), 2);
    assert_eq!(store.add_note(on("2024-01-10"), "c".to_string(), 1).unwrap().id(), 3);
}

#[test]
fn a_created_note_is_found() {
    let mut store = Store::new();
    store.add_guest().unwrap();
    let created = store.add_note(on("2024-03-15"), "call the florist".to_string(), 1).unwrap();
    assert_eq!(created, note(1, "2024-03-15", "call the florist"));
    assert_eq!(created.date(), on("2024-03-15"));
    assert_eq!(created.content(), "call the florist");
    for (start, end) in [
        ("2024-03-15", "2024-03-15"),
        ("2024-03-01", "2024-03-31"),
        ("0000-01-01", "9999-12-31"),
        ("2024-03-15", "2024-03-16"),
        ("2024-03-14", "2024-03-15"),
    ] {
        assert_eq!(query(&store, start, end, 1), vec![created.clone()]);
    }
}

#[test]
fn reading_twice_gives_the_same_notes() {
    let mut store = Store::new();
    store.add_guest().unwrap();
    store.add_note(on("2024-01-10"), "one".to_string(), 1).unwrap();
    store.add_note(on("2024-01-20"), "two".to_string(), 1).unwrap();
    store.add_note(on("2024-02-01"), "three".to_string(), 1).unwrap();
    let first = query(&store, "2024-01-01", "2024-01-31", 1);
    let second = query(&store, "2024-01-01", "2024-01-31", 1);
    assert_eq!(first, second);
    assert_eq!(first, vec![note(1, "2024-01-10", "one"), note(2, "2024-01-20", "two")]);
}

#[test]
fn a_range_includes_its_bounds_and_no_day_outside() {
    let mut store = Store::new();
    store.add_guest().unwrap();
    store.add_note(on("2023-12-31"), "the day before".to_string(), 1).unwrap();
    store.add_note(on("2024-01-01"), "the first day".to_string(), 1).unwrap();
    store.add_note(on("2024-01-31"), "the last day".to_string(), 1).unwrap();
    store.add_note(on("2024-02-01"), "the day after".to_string(), 1).unwrap();
    assert_eq!(
        query(&store, "2024-01-01", "2024-01-31", 1),
        vec![note(2, "2024-01-01", "the first day"), note(3, "2024-01-31", "the last day")]
    );
    assert_eq!(
        query(&store, "2023-12-31", "2023-12-31", 1),
        vec![note(1, "2023-12-31", "the day before")]
    );
    assert_eq!(query(&store, "2024-01-02", "2024-01-30", 1), vec![]);
}

#[test]
fn a_range_that_ends_before_it_starts_is_empty() {
    let mut store = Store::new();
    store.add_guest().unwrap();
    store.add_note(on("2024-01-01"), "a".to_string(), 1).unwrap();
    store.add_note(on("2024-01-31"), "b".to_string(), 1).unwrap();
    assert_eq!(query(&store, "2024-01-31", "2024-01-01", 1), vec![]);
}

#[test]
fn a_query_keeps_to_its_guest() {
    let mut store = Store::new();
    store.add_guest().unwrap();
    store.add_guest().unwrap();
    store.add_guest().unwrap();
    store.add_note(on("2024-01-10"), "mine".to_string(), 1).unwrap();
    store.add_note(on("2024-01-10"), "yours".to_string(), 2).unwrap();
    store.add_note(on("2024-01-11"), "yours too".to_string(), 2).unwrap();
    assert_eq!(query(&store, "2024-01-01", "2024-01-31", 1), vec![note(1, "2024-01-10", "mine")]);
    assert_eq!(
        query(&store, "2024-01-01", "2024-01-31", 2),
        vec![note(2, "2024-01-10", "yours"), note(3, "2024-01-11", "yours too")]
    );
    assert_eq!(query(&store, "2024-01-01", "2024-01-31", 3), vec![]);
    assert_eq!(query(&store, "2024-01-01", "2024-01-31", 4), vec![]);
    assert_eq!(query(&store, "2024-01-01", "2024-01-31", 0), vec![]);
    assert_eq!(query(&store, "2024-01-01", "2024-01-31", -1), vec![]);
}

#[test]
fn an_update_replaces_date_and_text() {
    let mut store = Store::new();
    store.add_guest().unwrap();
    store.add_note(on("2024-01-10"), "first words".to_string(), 1).unwrap();
    store.add_note(on("2024-01-12"), "another".to_string(), 1).unwrap();
    let updated = store.update_note(1, on("2024-05-20"), "last".to_string());
    assert_eq!(updated, Ok(note(1, "2024-05-20", "last")));
    assert_eq!(query(&store, "2024-05-20", "2024-05-20", 1), vec![note(1, "2024-05-20", "last")]);
    assert_eq!(query(&store, "2024-01-01", "2024-01-31", 1), vec![note(2, "2024-01-12", "another")]);
    assert_eq!(
        query(&store, "0000-01-01", "9999-12-31", 1),
        vec![note(1, "2024-05-20", "last"), note(2, "2024-01-12", "another")]
    );
}

#[test]
fn an_update_keeps_the_guest() {
    let mut store = Store::new();
    store.add_guest().unwrap();
    store.add_guest().unwrap();
    store.add_note(on("2024-01-10"), "a".to_string(), 2).unwrap();
    store.update_note(1, on("2024-01-11"), "b".to_string()).unwrap();
    assert_eq!(query(&store, "2024-01-01", "2024-01-31", 1), vec![]);
    assert_eq!(query(&store, "2024-01-01", "2024-01-31", 2), vec![note(1, "2024-01-11", "b")]);
}

#[test]
fn an_update_of_no_note_fails() {
    let mut store = Store::new();
    store.add_guest().unwrap();
    assert_eq!(store.update_note(1, on("2024-01-10"), "x".to_string()), Err(Failure::NotFound));
    store.add_note(on("2024-01-10"), "a".to_string(), 1).unwrap();
    assert_eq!(store.update_note(2, on("2024-01-10"), "x".to_string()), Err(Failure::NotFound));
    assert_eq!(store.update_note(0, on("2024-01-10"), "x".to_string()), Err(Failure::NotFound));
    assert_eq!(store.update_note(-1, on("2024-01-10"), "x".to_string()), Err(Failure::NotFound));
    assert_eq!(query(&store, "0000-01-01", "9999-12-31", 1), vec![note(1, "2024-01-10", "a")]);
}

#[test]
fn a_delete_returns_the_note_as_it_was() {
    let mut store = Store::new();
    store.add_guest().unwrap();
    store.add_note(on("2024-01-10"), "first words".to_string(), 1).unwrap();
    store.add_note(on("2024-01-12"), "another".to_string(), 1).unwrap();
    store.update_note(1, on("2024-01-11"), "last words".to_string()).unwrap();
    assert_eq!(store.delete_note(1), Ok(note(1, "2024-01-11", "last words")));
    assert_eq!(query(&store, "0000-01-01", "9999-12-31", 1), vec![note(2, "2024-01-12", "another")]);
    assert_eq!(store.delete_note(1), Err(Failure::NotFound));
    assert_eq!(store.update_note(1, on("2024-01-11"), "again".to_string()), Err(Failure::NotFound));
}

#[test]
fn a_deleted_note_never_comes_back() {
    let mut store = Store::new();
    store.add_guest().unwrap();
    store.add_note(on("2024-01-10"), "a".to_string(), 1).unwrap();
    store.add_note(on("2024-01-10"), "b".to_string(), 1).unwrap();
    store.delete_note(2).unwrap();
    let next = store.add_note(on("2024-01-10"), "c".to_string(), 1).unwrap();
    assert_eq!(next.id(), 3);
    store.delete_note(1).unwrap();
    store.delete_note(3).unwrap();
    let last = store.add_note(on("2024-01-10"), "d".to_string(), 1).unwrap();
    assert_eq!(last.id(), 4);
    store.add_guest().unwrap();
    assert_eq!(query(&store, "0000-01-01", "9999-12-31", 1), vec![note(4, "2024-01-10", "d")]);
}

#[test]
fn a_delete_of_no_note_fails() {
    let mut store = Store::new();
    assert_eq!(store.delete_note(1), Err(Failure::NotFound));
    store.add_guest().unwrap();
    store.add_note(on("2024-01-10"), "a".to_string(), 1).unwrap();
    assert_eq!(store.delete_note(2), Err(Failure::NotFound));
    assert_eq!(store.delete_note(0), Err(Failure::NotFound));
    assert_eq!(store.delete_note(i32::MIN), Err(Failure::NotFound));
    assert_eq!(query(&store, "0000-01-01", "9999-12-31", 1), vec![note(1, "2024-01-10", "a")]);
}

#[test]
fn a_note_of_no_guest_is_refused() {
    let mut store = Store::new();
    assert_eq!(store.add_note(on("2024-01-10"), "a".to_string(), 1), Err(Failure::Constraint));
    store.add_guest().unwrap();
    assert_eq!(store.add_note(on("2024-01-10"), "a".to_string(), 2), Err(Failure::Constraint));
    assert_eq!(store.add_note(on("2024-01-10"), "a".to_string(), 0), Err(Failure::Constraint));
    assert_eq!(store.add_note(on("2024-01-10"), "a".to_string(), -1), Err(Failure::Constraint));
    assert_eq!(query(&store, "0000-01-01", "9999-12-31", 1), vec![]);
    assert_eq!(query(&store, "0000-01-01", "9999-12-31", 2), vec![]);
    let first = store.add_note(on("2024-01-10"), "a".to_string(), 1).unwrap();
    assert_eq!(first.id(), 1);
}

#[test]
fn notes_keep_their_text_as_given() {
    let mut store = Store::new();
    store.add_guest().unwrap();
    let text = "  línea uno\nline two\t\"quoted\" 雪 ";
    let created = store.add_note(on("2024-01-10"), text.to_string(), 1).unwrap();
    assert_eq!(created.content(), text);
    let empty = store.add_note(on("2024-01-10"), String::new(), 1).unwrap();
    assert_eq!(empty.content(), "");
    let found = query(&store, "2024-01-10", "2024-01-10", 1);
    assert_eq!(found, vec![note(1, "2024-01-10", text), note(2, "2024-01-10", "")]);
}

#[test]
fn a_guest_creates_reads_updates_and_deletes_a_note() {
    let mut store = Store::new();
    let guest = store.add_guest().unwrap();
    assert_eq!(guest.id(), 1);

    let created = store.add_note(on("2024-01-10"), "hi".to_string(), 1).unwrap();
    assert_eq!(created.id(), 1);
    assert_eq!(created.date().format(), "2024-01-10");
    assert_eq!(created.content(), "hi");

    let found = store.get_notes_in_range(on("2024-01-01"), on("2024-01-31"), 1).unwrap();
    assert_eq!(found.len(), 1);
    assert_eq!(found[0].id(), 1);
    assert_eq!(found[0].date().format(), "2024-01-10");
    assert_eq!(found[0].content(), "hi");

    let updated = store.update_note(1, on("2024-01-11"), "bye".to_string()).unwrap();
    assert_eq!(updated.id(), 1);
    assert_eq!(updated.date().format(), "2024-01-11");
    assert_eq!(updated.content(), "bye");

    let deleted = store.delete_note(1).unwrap();
    assert_eq!(deleted.id(), 1);
    assert_eq!(deleted.date().format(), "2024-01-11");
    assert_eq!(deleted.content(), "bye");

    let left = store.get_notes_in_range(on("2024-01-01"), on("2024-01-31"), 1).unwrap();
    assert!(left.is_empty());
}
