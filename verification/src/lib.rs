//! Guests and their dated notes.
//!
//! A guest is known by an identifier alone. A note is a text with a date,
//! owned by one guest. The store creates guests, and creates, reads, updates
//! and deletes notes; reading selects the notes of one guest in a range of
//! dates, both bounds included.
//!
//! - [`date`]: calendar dates, their order and their text form `YYYY-MM-DD`.
//! - [`guest`] and [`note`]: the two records.
//! - [`tables`]: what a store holds and what each operation makes of it.
//! - [`store`]: the store itself, kept in memory.
//! - [`laws`]: what holds of the operations, whatever the store holds.
//! - [`request`]: the parameters of a request, read from their text.
//! - [`failure`]: the ways in which a request can fail.

pub mod date;
pub mod failure;
pub mod guest;
pub mod laws;
pub mod note;
pub mod request;
pub mod store;
pub mod tables;
