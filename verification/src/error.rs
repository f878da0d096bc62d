//! The error taxonomy of the service, and its mapping onto HTTP status
//! codes and the JSON error body handed to clients.
//!
//! Store failures carry plain payloads: the text of the underlying failure,
//! and for constraint violations the kind of constraint and whatever the
//! store reported about the table, column and constraint involved.

use vstd::prelude::*;

verus! {

/// The kind of constraint behind a rejected write.
#[derive(Clone, Copy, Debug, PartialEq, Eq, Structural)]
pub enum DatabaseErrorKind {
    UniqueViolation,
    ForeignKeyViolation,
    SerializationFailure,
    Unknown,
}

/// What the store reports about a rejected write.
#[derive(Debug)]
pub struct DbErrorInformation {
    pub message: String,
    pub details: Option<String>,
    pub hint: Option<String>,
    pub table_name: Option<String>,
    pub column_name: Option<String>,
    pub constraint_name: Option<String>,
}

/// A failure of an operation against the store.
#[derive(Debug)]
pub enum DbError {
    /// The referenced record does not exist.
    NotFound,
    /// Credentials did not match any user.
    NotLoggedIn,
    /// The connection pool could not hand out a connection.
    R2D2(String),
    /// A file could not be read.
    IOError(String),
    /// A JSON payload could not be parsed.
    SerdeJson(String),
    /// A store failure of no further known shape.
    UnknownDiesel(String),
    /// The store rejected a write.
    DatabaseError(DatabaseErrorKind, DbErrorInformation),
}

/// The HTTP status code that a store failure maps onto.
pub open spec fn spec_db_status_code(e: DbError) -> u16 {
    match e {
        DbError::NotFound => 404u16,
        DbError::NotLoggedIn => 401u16,
        DbError::R2D2(_) => 503u16,
        DbError::UnknownDiesel(_) => 503u16,
        DbError::DatabaseError(kind, _) => match kind {
            DatabaseErrorKind::UniqueViolation => 400u16,
            DatabaseErrorKind::ForeignKeyViolation => 400u16,
            _ => 500u16,
        },
        _ => 500u16,
    }
}

/// The name of the constraint kind, as diagnostics print it.
pub open spec fn spec_kind_name(kind: DatabaseErrorKind) -> Seq<char> {
    match kind {
        DatabaseErrorKind::UniqueViolation => "UniqueViolation"@,
        DatabaseErrorKind::ForeignKeyViolation => "ForeignKeyViolation"@,
        DatabaseErrorKind::SerializationFailure => "SerializationFailure"@,
        DatabaseErrorKind::Unknown => "Unknown"@,
    }
}

/// The human-readable message of a store failure.
pub open spec fn spec_db_message(e: DbError) -> Seq<char> {
    match e {
        DbError::NotFound => "Database record not found"@,
        DbError::NotLoggedIn => "User is not logged in"@,
        DbError::R2D2(_) => "Connection to Database Pool Failed"@,
        DbError::IOError(m) => "Unable to read file: "@ + m@,
        DbError::SerdeJson(m) => "Failed to Parse JSON: "@ + m@,
        DbError::UnknownDiesel(m) => "Unknown diesel error: "@ + m@,
        DbError::DatabaseError(kind, info) => "Error interacting with database: "@ + spec_kind_name(
            kind,
        ) + ": "@ + info.message@,
    }
}

impl DatabaseErrorKind {
    /// The name of the constraint kind.
    pub fn name(&self) -> (r: String)
        ensures
            r@ == spec_kind_name(*self),
    {
        match self {
            DatabaseErrorKind::UniqueViolation => String::from_str("UniqueViolation"),
            DatabaseErrorKind::ForeignKeyViolation => String::from_str("ForeignKeyViolation"),
            DatabaseErrorKind::SerializationFailure => String::from_str("SerializationFailure"),
            DatabaseErrorKind::Unknown => String::from_str("Unknown"),
        }
    }
}

impl DbError {
    /// The HTTP status code of this failure: 404 for a missing record, 401
    /// for failed credentials, 503 when the store or its connection pool is
    /// unreachable, 400 for a rejected write on a unique or foreign-key
    /// constraint, 500 otherwise.
    pub fn status_code(&self) -> (r: u16)
        ensures
            r == spec_db_status_code(*self),
    {
        match self {
            DbError::NotFound => 404,
            DbError::NotLoggedIn => 401,
            DbError::R2D2(_) => 503,
            DbError::UnknownDiesel(_) => 503,
            DbError::DatabaseError(kind, _) => match kind {
                DatabaseErrorKind::UniqueViolation => 400,
                DatabaseErrorKind::ForeignKeyViolation => 400,
                _ => 500,
            },
            _ => 500,
        }
    }

    /// The human-readable message of this failure.
    pub fn message(&self) -> (r: String)
        ensures
            r@ == spec_db_message(*self),
    {
        match self {
            DbError::NotFound => String::from_str("Database record not found"),
            DbError::NotLoggedIn => String::from_str("User is not logged in"),
            DbError::R2D2(_) => String::from_str("Connection to Database Pool Failed"),
            DbError::IOError(m) => {
                let mut s = String::from_str("Unable to read file: ");
                s.append(m.as_str());
                s
            },
            DbError::SerdeJson(m) => {
                let mut s = String::from_str("Failed to Parse JSON: ");
                s.append(m.as_str());
                s
            },
            DbError::UnknownDiesel(m) => {
                let mut s = String::from_str("Unknown diesel error: ");
                s.append(m.as_str());
                s
            },
            DbError::DatabaseError(kind, info) => {
                let mut s = String::from_str("Error interacting with database: ");
                let name = kind.name();
                s.append(name.as_str());
                s.append(": ");
                s.append(info.message.as_str());
                s
            },
        }
    }
}

/// The store-supplied details of a rejected write, as serialized into the
/// error body.
#[derive(Debug)]
pub struct DbErrorDetails {
    pub details: Option<String>,
    pub hint: Option<String>,
    pub table_name: Option<String>,
    pub column_name: Option<String>,
    pub constraint_name: Option<String>,
}

/// The JSON error body: a numeric code, a human message, a diagnostic
/// detail, and for rejected writes whatever the store reported.
#[derive(Debug)]
pub struct ErrorData {
    pub code: u16,
    pub message: String,
    pub details: String,
    pub db: Option<DbErrorDetails>,
}

/// A failure of the service layer around the store.
#[derive(Debug)]
pub enum NotedError {
    /// The request carries no signed-in user.
    NotLoggedIn,
    /// The email address or password were wrong.
    LoginFailed,
    /// A JSON payload could not be parsed.
    SerdeJson(String),
    /// The store failed; carried through unchanged.
    DbError(DbError),
    /// The session layer failed.
    SessionError(String),
}

/// The HTTP status code that a service failure maps onto.
pub open spec fn spec_noted_status_code(e: NotedError) -> u16 {
    match e {
        NotedError::NotLoggedIn => 401u16,
        NotedError::LoginFailed => 401u16,
        NotedError::SessionError(_) => 503u16,
        NotedError::DbError(dbe) => spec_db_status_code(dbe),
        NotedError::SerdeJson(_) => 400u16,
    }
}

/// The human-readable message of a service failure.
pub open spec fn spec_noted_message(e: NotedError) -> Seq<char> {
    match e {
        NotedError::NotLoggedIn => "not authorized"@,
        NotedError::LoginFailed => "Your email address or password were incorrect"@,
        NotedError::SerdeJson(m) => "Failed to parse json data: "@ + m@,
        NotedError::DbError(dbe) => spec_db_message(dbe),
        NotedError::SessionError(m) => "Encountered error from session: "@ + m@,
    }
}

impl NotedError {
    /// The HTTP status code of this failure: 401 for a missing or failed
    /// sign-in, 503 for a session failure, 400 for an unreadable payload,
    /// and the store's own mapping for store failures.
    pub fn status_code(&self) -> (r: u16)
        ensures
            r == spec_noted_status_code(*self),
    {
        match self {
            NotedError::NotLoggedIn => 401,
            NotedError::LoginFailed => 401,
            NotedError::SessionError(_) => 503,
            NotedError::DbError(dbe) => dbe.status_code(),
            NotedError::SerdeJson(_) => 400,
        }
    }

    /// The human-readable message of this failure.
    pub fn message(&self) -> (r: String)
        ensures
            r@ == spec_noted_message(*self),
    {
        match self {
            NotedError::NotLoggedIn => String::from_str("not authorized"),
            NotedError::LoginFailed => String::from_str(
                "Your email address or password were incorrect",
            ),
            NotedError::SerdeJson(m) => {
                let mut s = String::from_str("Failed to parse json data: ");
                s.append(m.as_str());
                s
            },
            NotedError::DbError(dbe) => dbe.message(),
            NotedError::SessionError(m) => {
                let mut s = String::from_str("Encountered error from session: ");
                s.append(m.as_str());
                s
            },
        }
    }

    /// The diagnostic detail of this failure: this library's own rendering,
    /// the variant name with the carried text in parentheses (a store
    /// failure by its message). The service used to put a debug dump of the
    /// replaced web-stack error values here; those types are gone, so the
    /// detail text deliberately differs, and only the code, the message and
    /// the store's report are stable fields of the error body.
    pub fn detail(&self) -> (r: String)
        ensures
            match *self {
                NotedError::NotLoggedIn => r@ == "NotLoggedIn"@,
                NotedError::LoginFailed => r@ == "LoginFailed"@,
                NotedError::SerdeJson(m) => r@ == "SerdeJson("@ + m@ + ")"@,
                NotedError::DbError(dbe) => r@ == "DbError("@ + spec_db_message(dbe) + ")"@,
                NotedError::SessionError(m) => r@ == "SessionError("@ + m@ + ")"@,
            },
    {
        match self {
            NotedError::NotLoggedIn => String::from_str("NotLoggedIn"),
            NotedError::LoginFailed => String::from_str("LoginFailed"),
            NotedError::SerdeJson(m) => {
                let mut s = String::from_str("SerdeJson(");
                s.append(m.as_str());
                s.append(")");
                s
            },
            NotedError::DbError(dbe) => {
                let mut s = String::from_str("DbError(");
                let m = dbe.message();
                s.append(m.as_str());
                s.append(")");
                s
            },
            NotedError::SessionError(m) => {
                let mut s = String::from_str("SessionError(");
                s.append(m.as_str());
                s.append(")");
                s
            },
        }
    }

    /// The JSON error body of this failure: the status code, the message,
    /// the diagnostic detail, and for rejected writes the store's report.
    pub fn error_data(&self) -> (r: ErrorData)
        ensures
            r.code == spec_noted_status_code(*self),
            r.message@ == spec_noted_message(*self),
            match *self {
                NotedError::DbError(DbError::DatabaseError(_, info)) => {
                    &&& r.db is Some
                    &&& option_view_match(r.db.unwrap().details, info.details)
                    &&& option_view_match(r.db.unwrap().hint, info.hint)
                    &&& option_view_match(r.db.unwrap().table_name, info.table_name)
                    &&& option_view_match(r.db.unwrap().column_name, info.column_name)
                    &&& option_view_match(r.db.unwrap().constraint_name, info.constraint_name)
                },
                _ => r.db is None,
            },
    {
        let code = self.status_code();
        let message = self.message();
        let details = self.detail();
        let db = match self {
            NotedError::DbError(DbError::DatabaseError(_, info)) => Some(
                DbErrorDetails {
                    details: clone_option_string(&info.details),
                    hint: clone_option_string(&info.hint),
                    table_name: clone_option_string(&info.table_name),
                    column_name: clone_option_string(&info.column_name),
                    constraint_name: clone_option_string(&info.constraint_name),
                },
            ),
            _ => None,
        };
        ErrorData { code, message, details, db }
    }
}

/// Both absent, or both present with the same characters.
pub open spec fn option_view_match(a: Option<String>, b: Option<String>) -> bool {
    match (a, b) {
        (Option::None, Option::None) => true,
        (Option::Some(x), Option::Some(y)) => x@ == y@,
        _ => false,
    }
}

/// Copies an optional string.
fn clone_option_string(a: &Option<String>) -> (r: Option<String>)
    ensures
        option_view_match(r, *a),
{
    match a {
        Option::Some(s) => Some(s.clone()),
        Option::None => None,
    }
}

/// The one-line JSON body used for errors that carry only a message.
pub fn json_error(msg: &str) -> (r: String)
    ensures
        r@ == "{\"error\": \""@ + msg@ + "\"}"@,
{
    let mut s = String::from_str("{\"error\": \"");
    s.append(msg);
    s.append("\"}");
    s
}

} // verus!
