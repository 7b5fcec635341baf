use tsm_language_server::store::DocumentStore;

#[test]
fn test_store_read_after_replace() {
    let mut store = DocumentStore::new();
    assert!(store.read(&String::from("a")).is_none());

    store.replace(String::from("a"), String::from("first"));
    assert_eq!(Some(&String::from("first")), store.read(&String::from("a")));
}

#[test]
fn test_store_replace_overwrites_wholly() {
    let mut store = DocumentStore::new();
    store.replace(String::from("a"), String::from("first"));
    store.replace(String::from("a"), String::from("second"));
    assert_eq!(Some(&String::from("second")), store.read(&String::from("a")));
}

#[test]
fn test_store_remove_and_clear() {
    let mut store = DocumentStore::new();
    store.replace(String::from("a"), String::from("1"));
    store.replace(String::from("b"), String::from("2"));

    store.remove(&String::from("a"));
    assert!(store.read(&String::from("a")).is_none());
    assert_eq!(Some(&String::from("2")), store.read(&String::from("b")));

    store.remove(&String::from("missing"));
    assert_eq!(Some(&String::from("2")), store.read(&String::from("b")));

    store.clear();
    assert!(store.read(&String::from("b")).is_none());
}

#[test]
fn test_store_keys_are_independent() {
    let mut store = DocumentStore::new();
    store.replace(String::from("a"), String::from("1"));
    store.replace(String::from("b"), String::from("2"));
    store.replace(String::from("a"), String::from("3"));
    assert_eq!(Some(&String::from("3")), store.read(&String::from("a")));
    assert_eq!(Some(&String::from("2")), store.read(&String::from("b")));
}
