use noted::google::TokenInfo;
use noted::lex::{dedup_texts, sort_texts, str_eq, str_le, texts_contain};
use noted::session::{Cache, LoginSession};
use noted::ui::{classify_key, Event};

fn texts(items: &[&str]) -> Vec<String> {
    items.iter().map(|s| (*s).to_owned()).collect()
}

#[test]
fn ordering_is_lexicographic() {
    assert!(str_le("", "a"));
    assert!(str_le("a", "ab"));
    assert!(str_le("ab", "b"));
    assert!(!str_le("b", "ab"));
    assert!(str_le("Tag2", "Tag5"));
    assert!(str_eq("tag", "tag"));
    assert!(!str_eq("tag", "Tag"));
}

#[test]
fn sorting_orders_and_keeps_everything() {
    let sorted = sort_texts(&texts(&["pear", "apple", "orange"]));
    assert_eq!(sorted, texts(&["apple", "orange", "pear"]));
}

#[test]
fn dedup_keeps_first_occurrences() {
    let uniq = dedup_texts(&texts(&["b", "a", "b", "a", "c"]));
    assert_eq!(uniq, texts(&["b", "a", "c"]));
    assert!(texts_contain(&uniq, "c"));
    assert!(!texts_contain(&uniq, "d"));
}

#[test]
fn key_codes_map_to_events() {
    let key_exit = 0o632;
    let key_f1 = 0o411;
    assert!(matches!(classify_key(key_exit, key_exit, key_f1), Event::Escape));
    assert!(matches!(classify_key(key_f1, key_exit, key_f1), Event::Quit));
    assert!(matches!(classify_key('/' as i32, key_exit, key_f1), Event::StartSearch));
    assert!(matches!(classify_key('q' as i32, key_exit, key_f1), Event::Key('q')));
}

#[test]
fn token_check_compares_the_client_id() {
    let info = TokenInfo {
        issued_to: "client-1".to_owned(),
        audience: "client-1".to_owned(),
        scope: "openid email profile".to_owned(),
        expires_in: 3600,
        user_id: "u1".to_owned(),
        email: "someone@example.com".to_owned(),
        verified_email: true,
    };
    assert!(info.issued_to_matches("client-1"));
    assert!(!info.issued_to_matches("client-2"));
}

#[test]
fn session_keys_and_default_cache() {
    assert_eq!(LoginSession::get_key(), "logged_in_user");
    assert_eq!(Cache::get_key(), "per_user_cache");
    let cache: Cache = Default::default();
    assert!(cache.page_names.is_empty());
}
