//! The parameters of the requests that carry a date, read from their text.
//!
//! A request names its dates as text. These types hold the parameters once
//! the dates are read; a date that is not written as `YYYY-MM-DD` makes the
//! whole request malformed.

use vstd::prelude::*;
use crate::date::{date_of_text, Date};
use crate::failure::Failure;

verus! {

/// What a query for notes asks for: the notes of one guest dated from
/// `start` to `end`, both days included.
#[derive(Clone, Copy, Debug, PartialEq, Eq)]
pub struct RangeParams {
    pub start: Date,
    pub end: Date,
    pub guest_id: i32,
}

/// What creating a note takes: its date, its text and its guest.
#[derive(Clone, Debug, PartialEq, Eq)]
pub struct AddNoteParams {
    pub date: Date,
    pub content: String,
    pub guest_id: i32,
}

/// What replaces the date and the text of a note.
#[derive(Clone, Debug, PartialEq, Eq)]
pub struct UpdateNoteParams {
    pub date: Date,
    pub content: String,
}

impl RangeParams {
    /// Reads the parameters of a query. Both dates must be written as
    /// `YYYY-MM-DD`. That the range is in order is not asked: one that ends
    /// before it starts selects nothing.
    pub fn parse(start: &str, end: &str, guest_id: i32) -> (params: Result<RangeParams, Failure>)
        ensures
            params is Ok <==> date_of_text(start@) is Some && date_of_text(end@) is Some,
            params matches Ok(p) ==> Some(p.start@) == date_of_text(start@) && Some(p.end@)
                == date_of_text(end@) && p.guest_id == guest_id,
            params matches Err(failure) ==> failure == Failure::Malformed,
    {
        match (Date::parse(start), Date::parse(end)) {
            (Some(start), Some(end)) => Ok(RangeParams { start, end, guest_id }),
            _ => Err(Failure::Malformed),
        }
    }
}

impl AddNoteParams {
    /// Reads the parameters of a note to create. The date must be written
    /// as `YYYY-MM-DD`; the text is taken as it is.
    pub fn parse(date: &str, content: String, guest_id: i32) -> (params: Result<
        AddNoteParams,
        Failure,
    >)
        ensures
            params is Ok <==> date_of_text(date@) is Some,
            params matches Ok(p) ==> Some(p.date@) == date_of_text(date@) && p.content@
                == content@ && p.guest_id == guest_id,
            params matches Err(failure) ==> failure == Failure::Malformed,
    {
        match Date::parse(date) {
            Some(date) => Ok(AddNoteParams { date, content, guest_id }),
            None => Err(Failure::Malformed),
        }
    }
}

impl UpdateNoteParams {
    /// Reads the new date and text of a note. The date must be written as
    /// `YYYY-MM-DD`; the text is taken as it is.
    pub fn parse(date: &str, content: String) -> (params: Result<UpdateNoteParams, Failure>)
        ensures
            params is Ok <==> date_of_text(date@) is Some,
            params matches Ok(p) ==> Some(p.date@) == date_of_text(date@) && p.content@
                == content@,
            params matches Err(failure) ==> failure == Failure::Malformed,
    {
        match Date::parse(date) {
            Some(date) => Ok(UpdateNoteParams { date, content }),
            None => Err(Failure::Malformed),
        }
    }
}

} // verus!
