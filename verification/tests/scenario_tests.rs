use noted::models::{NewNote, NewUserRequest, User};
use noted::store::Store;

fn setup() -> (Store, User) {
    let mut db = Store::new();
    let user = User::sign_up(
        NewUserRequest {
            email: "scenario@example.com".to_owned(),
            name: "Scenario".to_owned(),
            password: "password".to_owned(),
        },
        &mut db,
    )
    .unwrap();
    (db, user)
}

fn note(user: &User, db: &mut Store, title: &str) -> i32 {
    user.new_note(
        &NewNote { title: title.to_owned(), body: "body".to_owned(), parent_note_id: None },
        db,
    )
    .unwrap()
    .id
}

fn texts(items: &[&str]) -> Vec<String> {
    items.iter().map(|s| (*s).to_owned()).collect()
}

fn pool_rows_with(db: &Store, text: &str) -> usize {
    db.tags.iter().filter(|t| t.tag == text).count()
}

#[test]
fn reconcile_new_note_sorts_the_tags() {
    let (mut db, user) = setup();
    let id = note(&user, &mut db, "The Note");
    let result = user.set_note_tags(id, &texts(&["Tag5", "Tag2"]), &mut db).unwrap();
    assert_eq!(result.tags, vec!["Tag2".to_owned(), "Tag5".to_owned()]);
}

#[test]
fn reconcile_replaces_and_collects_old_tags() {
    let (mut db, user) = setup();
    let id = note(&user, &mut db, "The Note");
    user.set_note_tags(id, &texts(&["Tag5", "Tag2"]), &mut db).unwrap();
    let result = user.set_note_tags(id, &texts(&["Tag1", "Tag3"]), &mut db).unwrap();
    assert_eq!(result.tags, vec!["Tag1".to_owned(), "Tag3".to_owned()]);
    // no other note referenced them: the replaced tags left the pool
    assert_eq!(pool_rows_with(&db, "Tag5"), 0);
    assert_eq!(pool_rows_with(&db, "Tag2"), 0);
    assert_eq!(pool_rows_with(&db, "Tag1"), 1);
    assert_eq!(pool_rows_with(&db, "Tag3"), 1);
}

#[test]
fn shared_tag_survives_removal_from_one_note() {
    let (mut db, user) = setup();
    let first = note(&user, &mut db, "First");
    let second = note(&user, &mut db, "Second");
    user.set_note_tags(first, &texts(&["shared"]), &mut db).unwrap();
    user.set_note_tags(second, &texts(&["shared"]), &mut db).unwrap();
    user.set_note_tags(first, &Vec::new(), &mut db).unwrap();
    let kept = user.note(second, &db).unwrap();
    assert_eq!(kept.tags, vec!["shared".to_owned()]);
    assert_eq!(pool_rows_with(&db, "shared"), 1);
}

#[test]
fn existing_text_reuses_the_same_row() {
    let (mut db, user) = setup();
    let first = note(&user, &mut db, "First");
    let second = note(&user, &mut db, "Second");
    user.set_note_tags(first, &texts(&["shared"]), &mut db).unwrap();
    let row_id = db.tags.iter().find(|t| t.tag == "shared").unwrap().id;
    user.set_note_tags(second, &texts(&["shared"]), &mut db).unwrap();
    assert_eq!(pool_rows_with(&db, "shared"), 1);
    assert_eq!(db.tags.iter().find(|t| t.tag == "shared").unwrap().id, row_id);
}

#[test]
fn overlapping_writes_on_different_notes_share_one_row() {
    // two transactions on different notes asking for the same new text,
    // as the store serializes them: both succeed, one pool row remains
    let (mut db, user) = setup();
    let first = note(&user, &mut db, "First");
    let second = note(&user, &mut db, "Second");
    let a = user.set_note_tags(first, &texts(&["fresh", "only-a"]), &mut db);
    let b = user.set_note_tags(second, &texts(&["fresh", "only-b"]), &mut db);
    assert!(a.is_ok());
    assert!(b.is_ok());
    assert_eq!(pool_rows_with(&db, "fresh"), 1);
    assert_eq!(user.note(first, &db).unwrap().tags, texts(&["fresh", "only-a"]));
    assert_eq!(user.note(second, &db).unwrap().tags, texts(&["fresh", "only-b"]));
}

#[test]
fn empty_list_clears_and_collects() {
    let (mut db, user) = setup();
    let id = note(&user, &mut db, "The Note");
    user.set_note_tags(id, &texts(&["a", "b"]), &mut db).unwrap();
    let cleared = user.set_note_tags(id, &Vec::new(), &mut db).unwrap();
    assert!(cleared.tags.is_empty());
    assert!(db.tags.is_empty());
    assert!(db.note_tags.is_empty());
}

#[test]
fn repeated_entries_act_as_one() {
    let (mut db, user) = setup();
    let first = note(&user, &mut db, "First");
    let second = note(&user, &mut db, "Second");
    let with_repeats = user.set_note_tags(first, &texts(&["a", "a", "b"]), &mut db).unwrap();
    let without = user.set_note_tags(second, &texts(&["a", "b"]), &mut db).unwrap();
    assert_eq!(with_repeats.tags, without.tags);
    assert_eq!(with_repeats.tags, texts(&["a", "b"]));
}

#[test]
fn reconciling_twice_changes_nothing() {
    let (mut db, user) = setup();
    let id = note(&user, &mut db, "The Note");
    let first = user.set_note_tags(id, &texts(&["x", "y"]), &mut db).unwrap();
    let pool_after_first: Vec<(i32, String)> =
        db.tags.iter().map(|t| (t.id, t.tag.clone())).collect();
    let second = user.set_note_tags(id, &texts(&["x", "y"]), &mut db).unwrap();
    let pool_after_second: Vec<(i32, String)> =
        db.tags.iter().map(|t| (t.id, t.tag.clone())).collect();
    assert_eq!(first.tags, second.tags);
    assert_eq!(pool_after_first, pool_after_second);
}

#[test]
fn no_orphan_rows_after_reconciliation() {
    let (mut db, user) = setup();
    let first = note(&user, &mut db, "First");
    let second = note(&user, &mut db, "Second");
    user.set_note_tags(first, &texts(&["a", "b", "c"]), &mut db).unwrap();
    user.set_note_tags(second, &texts(&["b", "d"]), &mut db).unwrap();
    user.set_note_tags(first, &texts(&["d"]), &mut db).unwrap();
    for tag in &db.tags {
        assert!(db.note_tags.iter().any(|a| a.tag_id == tag.id));
    }
}

#[test]
fn tag_texts_differing_in_case_are_distinct() {
    let (mut db, user) = setup();
    let id = note(&user, &mut db, "Cased");
    let result = user.set_note_tags(id, &texts(&["Tag", "tag"]), &mut db).unwrap();
    assert_eq!(result.tags, texts(&["Tag", "tag"]));
    assert_eq!(pool_rows_with(&db, "Tag"), 1);
    assert_eq!(pool_rows_with(&db, "tag"), 1);
}
