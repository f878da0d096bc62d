//! What a signed-in browser session stores: the logged-in user and the
//! per-user cache of page names used to link documents.

use vstd::prelude::*;

verus! {

/// The identity a session carries once its user has signed in.
pub struct LoginSession {
    pub uid: i64,
    pub email: String,
    pub access_token: String,
}

/// The per-user cache: page names and where each page lives, the table the
/// document linker resolves phrases against.
pub struct Cache {
    pub page_names: Vec<(String, String)>,
}

impl LoginSession {
    /// The key this value is stored under in the session.
    pub fn get_key() -> (r: &'static str)
        ensures
            r@ == "logged_in_user"@,
    {
        "logged_in_user"
    }
}

impl Cache {
    /// The key this value is stored under in the session.
    pub fn get_key() -> (r: &'static str)
        ensures
            r@ == "per_user_cache"@,
    {
        "per_user_cache"
    }
}

impl Default for Cache {
    /// An empty cache: no page names known yet.
    fn default() -> (r: Cache)
        ensures
            r.page_names@.len() == 0,
    {
        Cache { page_names: Vec::new() }
    }
}

} // verus!
