use memoradical::store::LocalStore;

#[test]
fn new_uses_stored_value_when_present() {
    let (store, must_persist) = LocalStore::new("cards", Some("[1]"), "[]");
    assert!(!must_persist);
    assert_eq!(store.value(), "[1]");
}

#[test]
fn new_falls_back_to_default_and_asks_to_persist() {
    let (store, must_persist) = LocalStore::new("cards", None, "[]");
    assert!(must_persist);
    assert_eq!(store.value(), "[]");
}

#[test]
fn save_accepts_when_store_is_unchanged() {
    let (mut store, _) = LocalStore::new("cards", Some("old"), "[]");
    // The backing store still holds what was loaded.
    assert!(store.save("old", "new").is_ok());
    assert_eq!(store.value(), "new");
    // And a further save checks against the new content.
    assert!(store.save("new", "newer").is_ok());
    assert_eq!(store.value(), "newer");
}

#[test]
fn save_rejects_when_store_changed_underneath() {
    let (mut store, _) = LocalStore::new("cards", Some("old"), "[]");
    // Someone else wrote to the backing store since the load.
    let result = store.save("tampered", "new");
    assert!(result.is_err());
    let err = result.err().unwrap();
    assert!(!err.message.is_empty());
    // Nothing was modified: the held value is still the loaded one and a
    // save against the true stored content still goes through.
    assert_eq!(store.value(), "old");
    assert!(store.save("old", "new").is_ok());
}

#[test]
fn stale_snapshot_stays_rejected_until_reload() {
    let (mut store, _) = LocalStore::new("cards", Some("a"), "[]");
    assert!(store.save("b", "x").is_err());
    assert!(store.save("c", "x").is_err());
    assert_eq!(store.value(), "a");
}
