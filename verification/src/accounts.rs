//! Accounts: turning a sign-up request into a user row with a hashed
//! password, and checking credentials on sign-in.

use vstd::prelude::*;

use crate::error::{DatabaseErrorKind, DbError, DbErrorInformation};
use crate::models::{NewUser, NewUserRequest, SignIn, User};
use crate::passwords::{checkable_hash, pbkdf2_matches, rpbkdf2_prefix, stored_hash_format};
use crate::store::{has_user_email, Store};

verus! {

impl NewUserRequest {
    /// Hashes the password and assembles the row to insert. Only a failure
    /// to draw the salt's randomness makes this fail; the hash that is
    /// stored carries the library's PBKDF2 stamp, never the password.
    pub fn new_user(self) -> (r: Result<NewUser, DbError>)
        ensures
            match r {
                Result::Ok(nu) => nu.name@ == self.name@ && nu.email@ == self.email@
                    && stored_hash_format(nu.hashed_password@),
                Result::Err(e) => e is IOError,
            },
    {
        match crate::passwords::pbkdf2_hash(self.password.as_str()) {
            Ok(hashed_password) => Ok(
                NewUser { name: self.name, email: self.email, hashed_password },
            ),
            Err(m) => Err(DbError::IOError(m)),
        }
    }
}

impl SignIn {
    /// Whether this request's password matches the user's stored hash. The
    /// stored value must lie in the check routine's safe domain — the
    /// library's own hash stamp, or a string its format parse rejects, in
    /// which case there is no match.
    pub fn matches(&self, u: &User) -> (r: bool)
        requires
            checkable_hash(u.hashed_password@),
        ensures
            r == pbkdf2_matches(self.password@, u.hashed_password@),
            !rpbkdf2_prefix(u.hashed_password@) ==> r == false,
    {
        crate::passwords::pbkdf2_verify(self.password.as_str(), u.hashed_password.as_str())
    }
}

impl User {
    /// Creates an account. The email must be free: a second row with the
    /// same address violates the unique constraint and the write is
    /// rejected. The password is hashed first — the row is assembled before
    /// it is written — so a failure to draw randomness is reported even for
    /// a taken address.
    pub fn sign_up(new_user: NewUserRequest, db: &mut Store) -> (r: Result<User, DbError>)
        requires
            old(db).wf(),
            old(db).next_user_id < i32::MAX,
        ensures
            final(db).wf(),
            r is Err ==> *final(db) == *old(db),
            match r {
                Result::Ok(u) => {
                    &&& !has_user_email(old(db).users@, new_user.email@)
                    &&& final(db).users@.len() == old(db).users@.len() + 1
                    &&& forall|k: int|
                        0 <= k < old(db).users@.len() ==> final(db).users@[k] == old(db).users@[k]
                    &&& final(db).users@[old(db).users@.len() as int] == u
                    &&& u.id == old(db).next_user_id
                    &&& u.name@ == new_user.name@
                    &&& u.email@ == new_user.email@
                    &&& u.created_at == old(db).clock
                    &&& u.updated_at == old(db).clock
                    &&& stored_hash_format(u.hashed_password@)
                    &&& final(db).notes@ == old(db).notes@
                    &&& final(db).tags@ == old(db).tags@
                    &&& final(db).note_tags@ == old(db).note_tags@
                    &&& final(db).next_user_id == old(db).next_user_id + 1
                    &&& final(db).next_note_id == old(db).next_note_id
                    &&& final(db).next_tag_id == old(db).next_tag_id
                    &&& final(db).next_note_tag_id == old(db).next_note_tag_id
                    &&& final(db).clock == old(db).clock
                },
                Result::Err(e) => e is IOError || (e is DatabaseError && has_user_email(
                    old(db).users@,
                    new_user.email@,
                )),
            },
    {
        let ghost pre = *db;
        let ghost email_view = new_user.email@;
        let nu = match new_user.new_user() {
            Ok(nu) => nu,
            Err(e) => {
                return Err(e);
            },
        };
        if db.user_index_for_email(nu.email.as_str()).is_some() {
            return Err(
                DbError::DatabaseError(
                    DatabaseErrorKind::UniqueViolation,
                    DbErrorInformation {
                        message: String::from_str("duplicate key value violates unique constraint"),
                        details: None,
                        hint: None,
                        table_name: Some(String::from_str("users")),
                        column_name: None,
                        constraint_name: Some(String::from_str("users_email_key")),
                    },
                ),
            );
        }
        let row = User {
            id: db.next_user_id,
            name: nu.name,
            email: nu.email,
            hashed_password: nu.hashed_password,
            created_at: db.clock,
            updated_at: db.clock,
        };
        let result = User {
            id: row.id,
            name: row.name.clone(),
            email: row.email.clone(),
            hashed_password: row.hashed_password.clone(),
            created_at: row.created_at,
            updated_at: row.updated_at,
        };
        db.users.push(row);
        db.next_user_id = db.next_user_id + 1;
        proof {
            assert(!has_user_email(pre.users@, email_view));
            assert forall|a: int, b: int| 0 <= a < b < db.users@.len() implies db.users@[a].id
                != db.users@[b].id && db.users@[a].email@ != db.users@[b].email@ by {
                if b == db.users@.len() - 1 {
                    assert(db.users@[a] == pre.users@[a]);
                    assert(0 <= pre.users@[a].id < pre.next_user_id);
                    if pre.users@[a].email@ == email_view {
                        assert(has_user_email(pre.users@, email_view));
                    }
                }
            }
            assert forall|j: int| 0 <= j < db.users@.len() implies 0 <= #[trigger] db.users@[j].id
                < db.next_user_id by {
                if j < pre.users@.len() {
                    assert(db.users@[j] == pre.users@[j]);
                }
            }
            assert forall|j: int| 0 <= j < db.users@.len() implies stored_hash_format(
                (#[trigger] db.users@[j]).hashed_password@,
            ) by {
                if j < pre.users@.len() {
                    assert(db.users@[j] == pre.users@[j]);
                }
            }
        }
        Ok(result)
    }

    /// Checks credentials. An unknown email is `NotFound`; a known email
    /// with a password that does not match the stored hash is
    /// `NotLoggedIn`; otherwise the user row comes back.
    pub fn sign_in(sign_in: &SignIn, db: &Store) -> (r: Result<User, DbError>)
        requires
            db.wf(),
        ensures
            match r {
                Result::Ok(u) => exists|i: int|
                    0 <= i < db.users@.len() && #[trigger] db.users@[i] == u && u.email@
                        == sign_in.email@ && pbkdf2_matches(sign_in.password@, u.hashed_password@),
                Result::Err(e) => {
                    ||| (e is NotFound && !has_user_email(db.users@, sign_in.email@))
                    ||| (e is NotLoggedIn && exists|i: int|
                        0 <= i < db.users@.len() && (#[trigger] db.users@[i]).email@
                            == sign_in.email@ && !pbkdf2_matches(
                            sign_in.password@,
                            db.users@[i].hashed_password@,
                        ))
                },
            },
    {
        match db.user_index_for_email(sign_in.email.as_str()) {
            Some(i) => {
                let row = &db.users[i];
                if sign_in.matches(row) {
                    let u = User {
                        id: row.id,
                        name: row.name.clone(),
                        email: row.email.clone(),
                        hashed_password: row.hashed_password.clone(),
                        created_at: row.created_at,
                        updated_at: row.updated_at,
                    };
                    proof {
                        assert(db.users@[i as int] == u);
                    }
                    Ok(u)
                } else {
                    Err(DbError::NotLoggedIn)
                }
            },
            None => Err(DbError::NotFound),
        }
    }
}

} // verus!
