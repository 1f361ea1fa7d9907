//! An in-memory customer address book.
//!
//! The library keeps a collection of customer records for the duration of a
//! session and offers the five operations a menu-driven front end needs:
//! add, look one up, list all, edit, and remove. Validation (non-empty name
//! and phone, an email holding an `@`, email uniqueness) and the
//! confirmation gate on destructive operations are enforced here; reading
//! operator input and printing results are left to the caller.

pub mod laws;
pub mod record;
pub mod store;
