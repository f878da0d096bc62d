use noted::models::{NewNote, NewUserRequest, Note, NoteToTag, SignIn, UpdateNote, User};
use noted::store::Store;

fn test_user(db: &mut Store) -> User {
    User::sign_up(
        NewUserRequest {
            email: "test@example.com".to_owned(),
            name: "Test User".to_owned(),
            password: "password".to_owned(),
        },
        db,
    )
    .unwrap()
}

fn new_note(title: &str, body: &str) -> NewNote {
    NewNote { title: title.to_owned(), body: body.to_owned(), parent_note_id: None }
}

fn no_update() -> UpdateNote {
    UpdateNote { title: None, body: None, parent_note_id: None, archived: None, pinned: None }
}

#[test]
fn test_with_tags() {
    let mut db = Store::new();
    let user = test_user(&mut db);
    let note = user.new_note(&new_note("Title", "Body"), &mut db).unwrap();
    assert_eq!(note.title, "Title");
    assert_eq!(user.list_notes(&db).unwrap().len(), 1);
    let update = UpdateNote { title: Some("New Title".to_owned()), ..no_update() };
    let note = user.update_note(note.id, &update, &mut db).unwrap();
    assert_eq!(note.title, "New Title");
    user.delete_note(note.id, &mut db);
    assert_eq!(user.list_notes(&db).unwrap().len(), 0);
}

#[test]
fn test_modifying_tags() {
    let mut db = Store::new();
    let user = test_user(&mut db);
    let note = user.new_note(&new_note("Title", "Body"), &mut db).unwrap();

    let note = user
        .set_note_tags(note.id, &vec!["Tag5".to_owned(), "Tag2".to_owned()], &mut db)
        .unwrap();
    assert_eq!(note.tags, vec!["Tag2".to_owned(), "Tag5".to_owned()]);

    let note = user
        .set_note_tags(note.id, &vec!["Tag1".to_owned(), "Tag3".to_owned()], &mut db)
        .unwrap();
    assert_eq!(note.tags, vec!["Tag1".to_owned(), "Tag3".to_owned()]);
}

#[test]
fn test_creating_user() {
    let mut db = Store::new();
    test_user(&mut db);

    assert!(User::sign_in(
        &SignIn { email: "test@example.com".to_owned(), password: "bad password".to_owned() },
        &db,
    )
    .is_err());

    assert!(User::sign_in(
        &SignIn { email: "test@example.com".to_owned(), password: "password".to_owned() },
        &db,
    )
    .is_ok());
}

#[test]
fn test_duplicate_email_rejected() {
    let mut db = Store::new();
    test_user(&mut db);
    let err = User::sign_up(
        NewUserRequest {
            email: "test@example.com".to_owned(),
            name: "Someone Else".to_owned(),
            password: "other".to_owned(),
        },
        &mut db,
    )
    .unwrap_err();
    assert_eq!(err.status_code(), 400);
    assert_eq!(db.users.len(), 1);
}

#[test]
fn test_sign_in_unknown_email() {
    let db = Store::new();
    let err = User::sign_in(
        &SignIn { email: "nobody@example.com".to_owned(), password: "password".to_owned() },
        &db,
    )
    .unwrap_err();
    assert_eq!(err.status_code(), 404);
}

#[test]
fn test_note_not_found() {
    let mut db = Store::new();
    let user = test_user(&mut db);
    let err = user.note(41, &db).unwrap_err();
    assert_eq!(err.status_code(), 404);
    let err = user
        .set_note_tags(41, &vec!["a".to_owned()], &mut db)
        .unwrap_err();
    assert_eq!(err.status_code(), 404);
    assert_eq!(db.tags.len(), 0);
}

#[test]
fn test_note_of_another_user_is_not_found() {
    let mut db = Store::new();
    let user = test_user(&mut db);
    let other = User::sign_up(
        NewUserRequest {
            email: "other@example.com".to_owned(),
            name: "Other".to_owned(),
            password: "password".to_owned(),
        },
        &mut db,
    )
    .unwrap();
    let note = user.new_note(&new_note("Mine", "Body"), &mut db).unwrap();
    assert!(other.note(note.id, &db).is_err());
    assert!(user.note(note.id, &db).is_ok());
}

#[test]
fn test_delete_refused_while_tagged() {
    let mut db = Store::new();
    let user = test_user(&mut db);
    let note = user.new_note(&new_note("Tagged", "Body"), &mut db).unwrap();
    user.set_note_tags(note.id, &vec!["keep".to_owned()], &mut db).unwrap();
    assert!(!user.delete_note(note.id, &mut db));
    assert_eq!(user.list_notes(&db).unwrap().len(), 1);
    user.set_note_tags(note.id, &Vec::new(), &mut db).unwrap();
    assert!(user.delete_note(note.id, &mut db));
    assert_eq!(user.list_notes(&db).unwrap().len(), 0);
}

#[test]
fn test_update_note_fields() {
    let mut db = Store::new();
    db.set_clock(7);
    let user = test_user(&mut db);
    let note = user.new_note(&new_note("title", "body"), &mut db).unwrap();
    db.set_clock(9);
    let update = UpdateNote { pinned: Some(true), archived: Some(true), ..no_update() };
    let updated = user.update_note(note.id, &update, &mut db).unwrap();
    assert_eq!(updated.title, "title");
    assert_eq!(updated.body, "body");
    assert!(updated.pinned);
    assert!(updated.archived);
    assert_eq!(updated.created_at, 7);
    assert_eq!(updated.updated_at, 9);
}

#[test]
fn test_with_joins_and_sorts_association_rows() {
    let note = Note {
        id: 3,
        title: "Joined".to_owned(),
        body: "Body".to_owned(),
        created_at: 1,
        updated_at: 2,
        user_id: 9,
        parent_note_id: 0,
        archived: false,
        pinned: true,
    };
    let rows = vec![
        NoteToTag { id: 1, note_id: 3, tag_id: 10, tag: "zeta".to_owned() },
        NoteToTag { id: 2, note_id: 3, tag_id: 11, tag: "alpha".to_owned() },
        NoteToTag { id: 3, note_id: 3, tag_id: 10, tag: "zeta".to_owned() },
    ];
    let with_tags = note.with(rows);
    assert_eq!(with_tags.tags, vec!["alpha".to_owned(), "zeta".to_owned()]);
    assert_eq!(with_tags.title, "Joined");
    assert_eq!(with_tags.id, 3);
    assert!(with_tags.pinned);
}

#[test]
fn stored_hash_carries_the_stamp() {
    let mut db = Store::new();
    test_user(&mut db);
    let stored = &db.users[0].hashed_password;
    assert_eq!(stored.len(), 90);
    assert!(stored.starts_with("$rpbkdf2$0$AAAnEA==$"));
    assert_ne!(stored, "password");
}

#[test]
fn non_pbkdf2_stored_value_never_matches() {
    let user = User {
        id: 1,
        name: "N".to_owned(),
        email: "n@example.com".to_owned(),
        hashed_password: "plaintext".to_owned(),
        created_at: 0,
        updated_at: 0,
    };
    let probe = SignIn { email: "n@example.com".to_owned(), password: "plaintext".to_owned() };
    assert!(!probe.matches(&user));
}
