use cliphist::item::{ClipboardUpsertPayload, HistoryItem, StoreError};
use cliphist::store::HistoryStore;

fn payload(id: &str, text: &str, stamp: &str) -> ClipboardUpsertPayload {
    ClipboardUpsertPayload {
        id: id.to_string(),
        text: text.to_string(),
        created_at: stamp.to_string(),
        updated_at: stamp.to_string(),
    }
}

fn capture(store: &mut HistoryStore, id: &str, text: &str, stamp: &str, max: i64) -> HistoryItem {
    store.upsert_clipboard_item(payload(id, text, stamp), max).unwrap()
}

#[test]
fn insert_hello_twice_counts_two() {
    let mut store = HistoryStore::new();
    let first = capture(&mut store, "id-1", "hello", "2024-01-01T00:00:00Z", 0);
    assert_eq!(first.id, "id-1");
    assert_eq!(first.count, 1);
    assert!(!first.pinned);

    let second = store
        .upsert_clipboard_item(payload("id-2", "hello", "2024-01-02T00:00:00Z"), 0)
        .unwrap();
    assert_eq!(second.id, "id-1");
    assert_eq!(second.count, 2);
    assert_eq!(second.created_at, "2024-01-01T00:00:00Z");
    assert_eq!(second.updated_at, "2024-01-02T00:00:00Z");
    assert_eq!(store.item_count(), 1);
}

#[test]
fn recapture_preserves_pin() {
    let mut store = HistoryStore::new();
    let item = capture(&mut store, "a", "note", "t1", 0);
    store.set_clipboard_item_pinned(item.id.clone(), true).unwrap();
    let again = capture(&mut store, "b", "note", "t2", 0);
    assert!(again.pinned);
    assert_eq!(again.id, "a");
    assert_eq!(again.count, 2);
}

#[test]
fn pinned_item_survives_capacity() {
    let mut store = HistoryStore::new();
    let kept = capture(&mut store, "keep", "precious", "2024-01-01T00:00:00.000Z", 80);
    store.set_clipboard_item_pinned(kept.id.clone(), true).unwrap();
    for i in 0..100 {
        let id = format!("id-{}", i);
        let text = format!("text number {}", i);
        let stamp = format!("2024-02-01T00:00:{:02}.{:03}Z", i / 1000, i % 1000);
        capture(&mut store, &id, &text, &stamp, 80);
    }
    assert_eq!(store.item_count(), 80);
    let listing = store.load_clipboard_history(500);
    assert_eq!(listing.len(), 80);
    assert_eq!(listing[0].id, "keep");
    assert!(listing[0].pinned);
}

#[test]
fn eviction_removes_oldest_unpinned() {
    let mut store = HistoryStore::new();
    capture(&mut store, "a", "alpha", "2024-01-01T00:00:01Z", 0);
    capture(&mut store, "b", "beta", "2024-01-01T00:00:02Z", 0);
    capture(&mut store, "c", "gamma", "2024-01-01T00:00:03Z", 2);
    assert_eq!(store.item_count(), 2);
    let listing = store.load_clipboard_history(500);
    let ids: Vec<&str> = listing.iter().map(|it| it.id.as_str()).collect();
    assert_eq!(ids, vec!["c", "b"]);
}

#[test]
fn eviction_breaks_stamp_ties_by_insertion_order() {
    let mut store = HistoryStore::new();
    capture(&mut store, "x", "first", "t", 0);
    capture(&mut store, "y", "second", "t", 0);
    capture(&mut store, "z", "third", "u", 2);
    let listing = store.load_clipboard_history(500);
    let ids: Vec<&str> = listing.iter().map(|it| it.id.as_str()).collect();
    assert_eq!(ids, vec!["z", "y"]);
}

#[test]
fn unbounded_history_never_evicts() {
    let mut store = HistoryStore::new();
    for i in 0..50 {
        let id = format!("id-{}", i);
        let text = format!("text {}", i);
        capture(&mut store, &id, &text, "t", 0);
    }
    assert_eq!(store.item_count(), 50);
    assert_eq!(store.load_clipboard_history(500).len(), 50);
}

#[test]
fn merge_on_edit_sums_counts() {
    let mut store = HistoryStore::new();
    capture(&mut store, "a", "foo", "t1", 0);
    capture(&mut store, "x1", "foo", "t2", 0);
    capture(&mut store, "x2", "foo", "t3", 0);
    capture(&mut store, "b", "bar", "t2", 0);
    capture(&mut store, "x3", "bar", "t4", 0);

    let result = store
        .update_clipboard_item_text("a".to_string(), "bar".to_string(), "t9".to_string())
        .unwrap();
    assert_eq!(result.item.id, "b");
    assert_eq!(result.item.count, 5);
    assert_eq!(result.item.text, "bar");
    assert_eq!(result.item.updated_at, "t9");
    assert_eq!(result.merged_id, Some("a".to_string()));
    assert_eq!(store.item_count(), 1);

    let gone = store.set_clipboard_item_pinned("a".to_string(), true);
    assert!(matches!(gone, Err(StoreError::NotFound)));
}

#[test]
fn merge_is_commutative_on_counts() {
    let mut left = HistoryStore::new();
    capture(&mut left, "a", "foo", "t1", 0);
    capture(&mut left, "a2", "foo", "t2", 0);
    capture(&mut left, "a3", "foo", "t3", 0);
    capture(&mut left, "b", "bar", "t2", 0);
    capture(&mut left, "b2", "bar", "t4", 0);
    left.set_clipboard_item_pinned("a".to_string(), true).unwrap();
    let merged_left = left
        .update_clipboard_item_text("a".to_string(), "bar".to_string(), "t9".to_string())
        .unwrap();

    let mut right = HistoryStore::new();
    capture(&mut right, "a", "foo", "t1", 0);
    capture(&mut right, "a2", "foo", "t2", 0);
    capture(&mut right, "a3", "foo", "t3", 0);
    capture(&mut right, "b", "bar", "t2", 0);
    capture(&mut right, "b2", "bar", "t4", 0);
    right.set_clipboard_item_pinned("a".to_string(), true).unwrap();
    let merged_right = right
        .update_clipboard_item_text("b".to_string(), "foo".to_string(), "t9".to_string())
        .unwrap();

    assert_eq!(merged_left.item.count, 5);
    assert_eq!(merged_right.item.count, 5);
    assert_eq!(merged_left.item.pinned, merged_right.item.pinned);
    assert!(merged_left.item.pinned);
    assert_eq!(merged_left.item.created_at, "t1");
    assert_eq!(merged_right.item.created_at, "t1");
}

#[test]
fn edit_renames_in_place_without_collision() {
    let mut store = HistoryStore::new();
    capture(&mut store, "a", "draft", "t1", 0);
    let result = store
        .update_clipboard_item_text("a".to_string(), "  final  ".to_string(), "t2".to_string())
        .unwrap();
    assert_eq!(result.item.id, "a");
    assert_eq!(result.item.text, "final");
    assert_eq!(result.item.count, 1);
    assert_eq!(result.item.updated_at, "t2");
    assert!(result.merged_id.is_none());
}

#[test]
fn empty_text_is_rejected() {
    let mut store = HistoryStore::new();
    let err = store.upsert_clipboard_item(payload("a", "   ", "t1"), 0);
    assert!(matches!(err, Err(StoreError::EmptyText)));
    assert_eq!(store.item_count(), 0);

    capture(&mut store, "a", "kept", "t1", 0);
    let err = store.update_clipboard_item_text("a".to_string(), " \t ".to_string(), "t2".to_string());
    assert!(matches!(err, Err(StoreError::EmptyText)));
    let listing = store.load_clipboard_history(500);
    assert_eq!(listing[0].text, "kept");
}

#[test]
fn edit_unknown_id_is_not_found() {
    let mut store = HistoryStore::new();
    let err = store.update_clipboard_item_text("nope".to_string(), "x".to_string(), "t".to_string());
    assert!(matches!(err, Err(StoreError::NotFound)));
    let err = store.set_clipboard_item_pinned("nope".to_string(), true);
    assert!(matches!(err, Err(StoreError::NotFound)));
}

#[test]
fn reused_candidate_id_is_a_conflict() {
    let mut store = HistoryStore::new();
    capture(&mut store, "same", "one", "t1", 0);
    let err = store.upsert_clipboard_item(payload("same", "two", "t2"), 0);
    assert!(matches!(err, Err(StoreError::IdConflict)));
    assert_eq!(store.item_count(), 1);
}

#[test]
fn delete_is_idempotent() {
    let mut store = HistoryStore::new();
    capture(&mut store, "a", "text", "t1", 0);
    store.delete_clipboard_item("missing");
    assert_eq!(store.item_count(), 1);
    store.delete_clipboard_item("a");
    assert_eq!(store.item_count(), 0);
    store.delete_clipboard_item("a");
    assert_eq!(store.item_count(), 0);
}

#[test]
fn clear_empties_history_but_keeps_settings() {
    let mut store = HistoryStore::new();
    capture(&mut store, "a", "one", "t1", 0);
    capture(&mut store, "b", "two", "t2", 0);
    store.set_app_setting("hotkey", Some("Cmd+V".to_string()));
    store.clear_clipboard_history();
    assert_eq!(store.item_count(), 0);
    assert_eq!(store.get_app_setting("hotkey"), Some("Cmd+V".to_string()));
}

#[test]
fn listing_orders_pinned_then_recent() {
    let mut store = HistoryStore::new();
    capture(&mut store, "a", "oldest", "2024-01-01T00:00:01Z", 0);
    capture(&mut store, "b", "middle", "2024-01-01T00:00:02Z", 0);
    capture(&mut store, "c", "newest", "2024-01-01T00:00:03Z", 0);
    capture(&mut store, "d", "old pinned", "2024-01-01T00:00:00Z", 0);
    store.set_clipboard_item_pinned("d".to_string(), true).unwrap();
    capture(&mut store, "e", "new pinned", "2024-01-01T00:00:04Z", 0);
    store.set_clipboard_item_pinned("e".to_string(), true).unwrap();

    let listing = store.load_clipboard_history(500);
    let ids: Vec<&str> = listing.iter().map(|it| it.id.as_str()).collect();
    assert_eq!(ids, vec!["e", "d", "c", "b", "a"]);
}

#[test]
fn listing_breaks_stamp_ties_by_id() {
    let mut store = HistoryStore::new();
    capture(&mut store, "z", "one", "t", 0);
    capture(&mut store, "a", "two", "t", 0);
    capture(&mut store, "m", "three", "t", 0);
    let listing = store.load_clipboard_history(500);
    let ids: Vec<&str> = listing.iter().map(|it| it.id.as_str()).collect();
    assert_eq!(ids, vec!["a", "m", "z"]);
}

#[test]
fn listing_clamps_its_limit() {
    let mut store = HistoryStore::new();
    capture(&mut store, "a", "one", "t1", 0);
    capture(&mut store, "b", "two", "t2", 0);
    capture(&mut store, "c", "three", "t3", 0);
    assert_eq!(store.load_clipboard_history(-5).len(), 0);
    assert_eq!(store.load_clipboard_history(0).len(), 0);
    assert_eq!(store.load_clipboard_history(2).len(), 2);
    assert_eq!(store.load_clipboard_history(600).len(), 3);
}

#[test]
fn settings_roundtrip_and_delete() {
    let mut store = HistoryStore::new();
    assert_eq!(store.get_app_setting("open_window_shortcut"), None);
    store.set_app_setting("open_window_shortcut", Some("Ctrl+Shift+V".to_string()));
    assert_eq!(
        store.get_app_setting("open_window_shortcut"),
        Some("Ctrl+Shift+V".to_string())
    );
    store.set_app_setting("open_window_shortcut", Some("Alt+V".to_string()));
    assert_eq!(store.get_app_setting("open_window_shortcut"), Some("Alt+V".to_string()));
    store.set_app_setting("open_window_shortcut", None);
    assert_eq!(store.get_app_setting("open_window_shortcut"), None);
}

#[test]
fn shortcut_setting_is_normalized() {
    let mut store = HistoryStore::new();
    assert_eq!(store.get_open_window_shortcut(), None);

    let stored = store.set_open_window_shortcut(Some("  Ctrl+Shift+V  ".to_string()));
    assert_eq!(stored, Some("Ctrl+Shift+V".to_string()));
    assert_eq!(store.get_open_window_shortcut(), Some("Ctrl+Shift+V".to_string()));

    let cleared = store.set_open_window_shortcut(Some("   ".to_string()));
    assert_eq!(cleared, None);
    assert_eq!(store.get_open_window_shortcut(), None);

    store.set_open_window_shortcut(Some("Alt+V".to_string()));
    let cleared = store.set_open_window_shortcut(None);
    assert_eq!(cleared, None);
    assert_eq!(store.get_open_window_shortcut(), None);
}

#[test]
fn store_rebuilds_from_valid_rows_only() {
    let mut store = HistoryStore::new();
    capture(&mut store, "a", "one", "t1", 0);
    capture(&mut store, "b", "two", "t2", 0);
    store.set_clipboard_item_pinned("a".to_string(), true).unwrap();
    store.set_app_setting("k", Some("v".to_string()));

    let items = store.all_items();
    let settings = store.all_settings();
    let rebuilt = HistoryStore::from_rows(items.clone(), settings).expect("rows are valid");
    assert_eq!(rebuilt.item_count(), 2);
    let listing = rebuilt.load_clipboard_history(500);
    assert_eq!(listing[0].id, "a");
    assert!(listing[0].pinned);
    assert_eq!(rebuilt.get_app_setting("k"), Some("v".to_string()));

    let mut duplicated = items.clone();
    duplicated.push(items[0].clone());
    assert!(HistoryStore::from_rows(duplicated, Vec::new()).is_none());

    let mut bad_count = items;
    bad_count[0].count = 0;
    assert!(HistoryStore::from_rows(bad_count, Vec::new()).is_none());
}

#[test]
fn upsert_stores_untrimmed_text_as_given() {
    let mut store = HistoryStore::new();
    let item = capture(&mut store, "a", "  padded  ", "t1", 0);
    assert_eq!(item.text, "  padded  ");
    let again = capture(&mut store, "b", "  padded  ", "t2", 0);
    assert_eq!(again.id, "a");
    assert_eq!(again.count, 2);
}
