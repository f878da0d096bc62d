//! The shapes of the OAuth client configuration and of the token
//! information the provider returns, and the one check made on it: that
//! the token was issued to this application.

use vstd::prelude::*;

verus! {

/// The `web` object of a downloaded OAuth client secret.
pub struct Web {
    pub client_id: String,
    pub project_id: String,
    pub auth_uri: String,
    pub token_uri: String,
    pub auth_provider_x509_cert_url: String,
    pub client_secret: String,
}

/// A downloaded OAuth client secret.
pub struct ClientSecret {
    pub web: Web,
}

/// What the provider reports about an access token.
pub struct TokenInfo {
    pub issued_to: String,
    pub audience: String,
    pub scope: String,
    pub expires_in: i32,
    pub user_id: String,
    pub email: String,
    pub verified_email: bool,
}

impl TokenInfo {
    /// Whether the token was issued to the given client: validation
    /// accepts the token exactly when this holds.
    pub fn issued_to_matches(&self, client_id: &str) -> (r: bool)
        ensures
            r == (self.issued_to@ == client_id@),
    {
        crate::lex::str_eq(self.issued_to.as_str(), client_id)
    }
}

} // verus!
