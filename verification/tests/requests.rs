use guest_notes::date::Date;
use guest_notes::failure::Failure;
use guest_notes::request::{AddNoteParams, RangeParams, UpdateNoteParams};

#[test]
fn reads_the_parameters_of_a_query() {
    let params = RangeParams::parse("2024-01-01", "2024-01-31", 1).unwrap();
    assert_eq!(params.start, Date::new(2024, 1, 1).unwrap());
    assert_eq!(params.end, Date::new(2024, 1, 31).unwrap());
    assert_eq!(params.guest_id, 1);
}

#[test]
fn a_query_may_end_before_it_starts() {
    let params = RangeParams::parse("2024-01-31", "2024-01-01", -7).unwrap();
    assert_eq!(params.start, Date::new(2024, 1, 31).unwrap());
    assert_eq!(params.end, Date::new(2024, 1, 1).unwrap());
    assert_eq!(params.guest_id, -7);
}

#[test]
fn a_query_with_a_date_of_another_form_is_malformed() {
    assert_eq!(RangeParams::parse("2024-1-1", "2024-01-31", 1), Err(Failure::Malformed));
    assert_eq!(RangeParams::parse("2024-01-01", "31.01.2024", 1), Err(Failure::Malformed));
    assert_eq!(RangeParams::parse("", "", 1), Err(Failure::Malformed));
    assert_eq!(RangeParams::parse("2024-01-01", "2024-02-30", 1), Err(Failure::Malformed));
}

#[test]
fn reads_the_parameters_of_a_note_to_create() {
    let params = AddNoteParams::parse("2024-01-10", "hi".to_string(), 1).unwrap();
    assert_eq!(params.date, Date::new(2024, 1, 10).unwrap());
    assert_eq!(params.content, "hi");
    assert_eq!(params.guest_id, 1);
    assert_eq!(
        AddNoteParams::parse("2024-01-10T12:00", "hi".to_string(), 1),
        Err(Failure::Malformed)
    );
    assert_eq!(AddNoteParams::parse("2023-02-29", "hi".to_string(), 1), Err(Failure::Malformed));
}

#[test]
fn reads_the_parameters_of_an_update() {
    let params = UpdateNoteParams::parse("2024-01-11", "bye".to_string()).unwrap();
    assert_eq!(params.date, Date::new(2024, 1, 11).unwrap());
    assert_eq!(params.content, "bye");
    assert_eq!(UpdateNoteParams::parse("tomorrow", "bye".to_string()), Err(Failure::Malformed));
    assert_eq!(UpdateNoteParams::parse("2024-13-01", "bye".to_string()), Err(Failure::Malformed));
}

#[test]
fn each_failure_has_its_status() {
    assert_eq!(Failure::Malformed.status(), 400);
    assert_eq!(Failure::NotFound.status(), 404);
    assert_eq!(Failure::Constraint.status(), 409);
    assert_eq!(Failure::Unavailable.status(), 500);
}
