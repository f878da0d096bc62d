use noted::error::{
    json_error, DatabaseErrorKind, DbError, DbErrorInformation, NotedError,
};

#[test]
fn test_code() {
    assert_eq!(DbError::NotFound.status_code(), 404);
    assert_eq!(DbError::NotLoggedIn.status_code(), 401);
}

#[test]
fn test_http_response() {
    let resp = NotedError::NotLoggedIn.error_data();
    assert_eq!(resp.code, 401);
    assert_eq!(resp.message, "not authorized");

    let parse_failure = serde_json::from_str::<i32>("notnum").unwrap_err();
    let resp = NotedError::SerdeJson(format!("{}", parse_failure)).error_data();
    assert_eq!(resp.code, 400);
    assert_eq!(
        resp.message,
        "Failed to parse json data: expected ident at line 1 column 2",
    );

    let session_failure = serde_json::from_str::<i32>("notnum").unwrap_err();
    let resp = NotedError::SessionError(format!("{}", session_failure)).error_data();
    assert_eq!(resp.code, 503);
    assert_eq!(
        resp.message,
        "Encountered error from session: expected ident at line 1 column 2",
    );
}

#[test]
fn database_error_codes_follow_the_kind() {
    let info = || DbErrorInformation {
        message: "rejected".to_owned(),
        details: None,
        hint: None,
        table_name: Some("tags".to_owned()),
        column_name: None,
        constraint_name: Some("tags_tag_key".to_owned()),
    };
    assert_eq!(
        DbError::DatabaseError(DatabaseErrorKind::UniqueViolation, info()).status_code(),
        400
    );
    assert_eq!(
        DbError::DatabaseError(DatabaseErrorKind::ForeignKeyViolation, info()).status_code(),
        400
    );
    assert_eq!(
        DbError::DatabaseError(DatabaseErrorKind::SerializationFailure, info()).status_code(),
        500
    );
    assert_eq!(DbError::UnknownDiesel("gone".to_owned()).status_code(), 503);
    assert_eq!(DbError::R2D2("pool exhausted".to_owned()).status_code(), 503);
    assert_eq!(DbError::IOError("file missing".to_owned()).status_code(), 500);
    assert_eq!(DbError::SerdeJson("bad json".to_owned()).status_code(), 500);
}

#[test]
fn messages_carry_their_payload() {
    assert_eq!(DbError::NotFound.message(), "Database record not found");
    assert_eq!(
        DbError::IOError("no secret file".to_owned()).message(),
        "Unable to read file: no secret file"
    );
    assert_eq!(
        DbError::DatabaseError(
            DatabaseErrorKind::UniqueViolation,
            DbErrorInformation {
                message: "duplicate key".to_owned(),
                details: None,
                hint: None,
                table_name: None,
                column_name: None,
                constraint_name: None,
            },
        )
        .message(),
        "Error interacting with database: UniqueViolation: duplicate key"
    );
}

#[test]
fn store_error_body_carries_the_report() {
    let e = NotedError::DbError(DbError::DatabaseError(
        DatabaseErrorKind::UniqueViolation,
        DbErrorInformation {
            message: "duplicate key value violates unique constraint".to_owned(),
            details: Some("Key (tag)=(a) already exists.".to_owned()),
            hint: None,
            table_name: Some("tags".to_owned()),
            column_name: None,
            constraint_name: Some("tags_tag_key".to_owned()),
        },
    ));
    let body = e.error_data();
    assert_eq!(body.code, 400);
    let db = body.db.unwrap();
    assert_eq!(db.details.unwrap(), "Key (tag)=(a) already exists.");
    assert_eq!(db.table_name.unwrap(), "tags");
    assert_eq!(db.constraint_name.unwrap(), "tags_tag_key");
    assert!(db.hint.is_none());

    assert!(NotedError::LoginFailed.error_data().db.is_none());
}

#[test]
fn json_error_wraps_the_message() {
    assert_eq!(json_error("Serialization Failed"), "{\"error\": \"Serialization Failed\"}");
}
