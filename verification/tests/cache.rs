use cargo_impact::cache::{file_hash, CachedEntry, ContentHashCache, FileCache};

fn bytes(s: &str) -> Option<Vec<u8>> {
    Some(s.as_bytes().to_vec())
}

#[test]
fn cache_tracks_changes() {
    let mut cache = FileCache::new("/ws", None);
    assert!(cache.has_changed("test.rs", &bytes("fn a() {}")));

    cache.record("test.rs", &bytes("fn a() {}"), 1);
    assert!(!cache.has_changed("test.rs", &bytes("fn a() {}")));

    assert!(cache.has_changed("test.rs", &bytes("fn b() {}")));
}

#[test]
fn save_and_reload_preserves_state() {
    let mut cache = FileCache::new("/ws", None);
    cache.record("test.rs", &bytes("fn a() {}"), 1);
    cache.record("a/\"quoted\".rs", &bytes("fn q() {}"), 2);
    let saved = cache.save();

    let cache2 = FileCache::new("/ws", Some(&saved));
    assert!(!cache2.has_changed("test.rs", &bytes("fn a() {}")));
    assert!(!cache2.has_changed("a/\"quoted\".rs", &bytes("fn q() {}")));
    assert_eq!(cache2, cache);
    assert_eq!(cache2.save_path(), "/ws/target/cargo-impact/cache/file-cache.json");
}

#[test]
fn hashes_are_sha_256() {
    assert_eq!(
        file_hash(&bytes("abc")),
        Some("ba7816bf8f01cfea414140de5dae2223b00361a396177a9cb410ff61f20015ad".to_string())
    );
    assert_eq!(
        file_hash(&bytes("")),
        Some("e3b0c44298fc1c149afbf4c8996fb92427ae41e4649b934ca495991b7852b855".to_string())
    );
    assert_eq!(file_hash(&None), None);
}

#[test]
fn a_saved_cache_has_a_fixed_form() {
    let mut cache = FileCache::new("/ws", None);
    cache.record("a.rs", &bytes("abc"), 5);
    assert_eq!(
        cache.save(),
        "{\"a.rs\":{\"hash\":\"ba7816bf8f01cfea414140de5dae2223b00361a396177a9cb410ff61f20015ad\",\"mtime\":5}}"
    );
}

#[test]
fn unreadable_files_are_neither_changed_nor_recorded() {
    let mut cache = FileCache::new("/ws", None);
    assert!(!cache.has_changed("a.rs", &None));
    cache.record("a.rs", &None, 1);
    assert!(cache.has_changed("a.rs", &bytes("x")));
}

#[test]
fn one_entry_for_every_spelling_of_a_path() {
    let mut cache = FileCache::new("/ws", None);
    cache.record("src//a.rs", &bytes("one"), 1);
    cache.record("src/a.rs", &bytes("two"), 2);
    assert!(!cache.has_changed("src/./a.rs", &bytes("two")));
    assert!(cache.has_changed("src/a.rs", &bytes("one")));
    assert_eq!(cache.save().matches("hash").count(), 1);
}

#[test]
fn unusable_saved_texts_give_an_empty_cache() {
    let empty = FileCache::new("/ws", None);
    for src in [
        "",
        "[]",
        "{\"a\": 1}",
        "{\"a\": {\"hash\": \"x\"}}",
        "{\"a\": {\"hash\": 1, \"mtime\": 1}}",
        "{\"a\": {\"hash\": \"x\", \"mtime\": -1}}",
        "{\"a\": [\"x\"]}",
    ] {
        assert_eq!(FileCache::new("/ws", Some(src)), empty);
    }
    let list = FileCache::new("/ws", Some("{\"a\": [\"x\", 3]}"));
    let object =
        FileCache::new("/ws", Some("{\"a\": {\"mtime\": 3, \"hash\": \"x\", \"more\": null}}"));
    assert_eq!(list, object);
    assert_ne!(list, empty);
}

#[test]
fn content_values_come_back_by_their_hash() {
    let mut cache: ContentHashCache<String> = ContentHashCache::new("/ws", "asts", None);
    assert!(cache.get("k").is_none());
    cache.insert("k".to_string(), "one".to_string());
    cache.insert("j".to_string(), "two".to_string());
    cache.insert("k".to_string(), "three".to_string());
    assert_eq!(cache.get("k").map(|v| v.as_str()), Some("three"));
    assert_eq!(cache.get("j").map(|v| v.as_str()), Some("two"));
    assert_eq!(cache.save_path(), "/ws/target/cargo-impact/cache/asts.json");
    let saved: Vec<(String, String)> =
        cache.store.entries.into_iter().map(|(hash, kept)| (hash, kept.value)).collect();
    assert_eq!(saved[0], ("j".to_string(), "two".to_string()));
    let again = ContentHashCache::new("/ws", "asts", Some(saved));
    assert_eq!(again.get("j").map(|v| v.as_str()), Some("two"));
}

#[test]
fn entries_are_compared_by_hash() {
    let mut cache = FileCache::new("/ws", None);
    assert!(cache.differs("a.rs", "h1"));
    cache.set("a.rs", CachedEntry { hash: "h1".into(), mtime: 3 });
    assert!(!cache.differs("a.rs", "h1"));
    assert!(cache.differs("a.rs", "h2"));
    assert!(cache.differs("b.rs", "h1"));
    cache.set("a.rs", CachedEntry { hash: "h2".into(), mtime: 4 });
    assert!(!cache.differs("a.rs", "h2"));
    assert_eq!(cache.save(), r#"{"a.rs":{"hash":"h2","mtime":4}}"#);
}

#[test]
fn of_two_saved_values_for_a_hash_the_later_one_counts() {
    let saved = vec![("h".to_string(), 1u8), ("g".to_string(), 2), ("h".to_string(), 3)];
    let cache = ContentHashCache::new("/ws", "n", Some(saved));
    assert_eq!(cache.get("h"), Some(&3));
    assert_eq!(cache.get("g"), Some(&2));
    assert_eq!(cache.get("x"), None);
}
