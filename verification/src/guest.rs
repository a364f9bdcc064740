//! Guests: participants who own notes and are known only by an identifier.

use vstd::prelude::*;

verus! {

/// A participant who owns zero or more notes.
#[derive(Clone, Copy, Debug, PartialEq, Eq, Structural)]
pub struct Guest {
    id: i32,
}

impl View for Guest {
    type V = int;

    /// A guest is its identifier.
    closed spec fn view(&self) -> int {
        self.id as int
    }
}

impl Guest {
    /// The guest with the given identifier.
    pub fn new(id: i32) -> (guest: Guest)
        ensures
            guest@ == id,
    {
        Guest { id }
    }

    /// The identifier of this guest.
    pub fn id(&self) -> (id: i32)
        ensures
            id == self@,
    {
        self.id
    }
}

} // verus!
