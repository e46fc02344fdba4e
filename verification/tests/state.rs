use apexdaemon::state::{StateStore, StateValue};

#[test]
fn missing_file_yields_empty_store() {
    let store = StateStore::new();
    assert!(store.get("anything").is_none());
    assert!(store.entries().is_empty());
}

#[test]
fn read_after_write_gives_the_written_value() {
    let mut store = StateStore::new();
    store.set("last_pr_state", StateValue::Str("open".to_string()));
    assert_eq!(store.get_str("last_pr_state").as_deref(), Some("open"));
    store.set("n", StateValue::Int(7));
    store.set("last_pr_state", StateValue::Str("merged".to_string()));
    assert_eq!(store.get_str("last_pr_state").as_deref(), Some("merged"));
    assert_eq!(store.get("n").unwrap().as_i64(), Some(7));
    assert_eq!(store.get_str("n"), None);
    assert_eq!(store.entries().len(), 2);
}

#[test]
fn value_accessors() {
    assert_eq!(StateValue::Bool(true).as_bool(), Some(true));
    assert_eq!(StateValue::Null.as_bool(), None);
    assert_eq!(StateValue::Other("[1]".to_string()).as_str(), None);
    assert_eq!(StateValue::Str("x".to_string()).as_str().as_deref(), Some("x"));
}
