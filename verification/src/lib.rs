//! An in-memory model of the `noted` note-taking service.
//!
//! The centre of the library is [`store::Store`], a relational model of the
//! service's persistent state (users, notes, the shared tag pool and the
//! note-tag association table), together with the tag-reconciliation
//! transaction `User::set_note_tags` that atomically replaces the tag set of
//! a note while keeping the pool deduplicated and free of unreferenced rows.

pub mod accounts;
pub mod error;
pub mod google;
pub mod laws;
pub mod lex;
pub mod linker;
pub mod models;
pub mod passwords;
pub mod reconcile;
pub mod session;
pub mod store;
pub mod ui;
