//! The rows of the store: users, notes, tags and their associations, and the
//! payloads that create or update them.
//!
//! Timestamps are held as plain integer instants (the store stamps rows from
//! its clock); identifiers are the store-assigned serial numbers.

use vstd::prelude::*;

verus! {

/// A note row. Tags are not stored on the note itself; they are derived
/// through the association table.
#[derive(Debug)]
pub struct Note {
    pub id: i32,
    pub title: String,
    pub body: String,
    pub created_at: i64,
    pub updated_at: i64,
    pub user_id: i32,
    pub parent_note_id: i32,
    pub archived: bool,
    pub pinned: bool,
}

/// A note together with its resolved tag texts, sorted lexicographically.
/// This is a read-model assembled on demand, never stored.
#[derive(Debug)]
pub struct NoteWithTags {
    pub id: i32,
    pub title: String,
    pub body: String,
    pub tags: Vec<String>,
    pub created_at: i64,
    pub updated_at: i64,
    pub user_id: i32,
    pub parent_note_id: i32,
    pub archived: bool,
    pub pinned: bool,
}

/// A row of the pool of tag texts, shared across all notes of all users.
/// The store keeps `tag` unique across the pool.
pub struct Tag {
    pub id: i32,
    pub tag: String,
    pub created_at: i64,
    pub updated_at: i64,
}

/// An association row: "note `note_id` carries tag `tag_id`".
pub struct NoteTag {
    pub id: i32,
    pub note_id: i32,
    pub tag_id: i32,
}

/// An association row joined with the text of its tag, as produced by the
/// batched tag query that assembles note listings.
pub struct NoteToTag {
    pub id: i32,
    pub note_id: i32,
    pub tag_id: i32,
    pub tag: String,
}

/// The payload that creates a note.
pub struct NewNote {
    pub title: String,
    pub body: String,
    pub parent_note_id: Option<i32>,
}

/// The payload that updates a note; absent fields keep their value.
pub struct UpdateNote {
    pub title: Option<String>,
    pub body: Option<String>,
    pub parent_note_id: Option<i32>,
    pub archived: Option<bool>,
    pub pinned: Option<bool>,
}

/// A sign-up request carrying the password in the clear; it is hashed before
/// a user row is made from it.
pub struct NewUserRequest {
    pub email: String,
    pub name: String,
    pub password: String,
}

/// A user row ready for insertion, with the password already hashed.
pub struct NewUser {
    pub name: String,
    pub email: String,
    pub hashed_password: String,
}

/// A sign-in request.
pub struct SignIn {
    pub email: String,
    pub password: String,
}

/// A user row. The store keeps `email` unique.
#[derive(Debug, Clone)]
pub struct User {
    pub id: i32,
    pub name: String,
    pub email: String,
    pub hashed_password: String,
    pub created_at: i64,
    pub updated_at: i64,
}

} // verus!
