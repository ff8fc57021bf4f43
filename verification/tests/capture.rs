use cliphist::stamp::build_clipboard_payload;
use cliphist::store::HistoryStore;
use cliphist::watcher::{CaptureState, TickOutcome};

fn tick(
    watcher: &mut CaptureState,
    store: &mut HistoryStore,
    observed: Option<&str>,
    id: &str,
    stamp: &str,
    max: i64,
) -> TickOutcome {
    watcher.tick(
        store,
        observed.map(|s| s.to_string()),
        id.to_string(),
        stamp.to_string(),
        max,
    )
}

#[test]
fn capture_loop_records_new_text() {
    let mut watcher = CaptureState::new();
    let mut store = HistoryStore::new();
    let outcome = tick(&mut watcher, &mut store, Some("fresh"), "id-1", "t1", 80);
    match outcome {
        TickOutcome::Captured(item) => {
            assert_eq!(item.text, "fresh");
            assert_eq!(item.count, 1);
            assert_eq!(item.id, "id-1");
        },
        other => panic!("expected a capture, got {:?}", variant_name(&other)),
    }
    assert_eq!(store.item_count(), 1);
}

#[test]
fn mark_skip_suppresses_next_observation() {
    let mut watcher = CaptureState::new();
    let mut store = HistoryStore::new();
    watcher.mark_clipboard_skip("X");

    let first = tick(&mut watcher, &mut store, Some("X"), "id-1", "t1", 80);
    assert!(matches!(first, TickOutcome::EchoSkipped));
    assert_eq!(store.item_count(), 0);

    let second = tick(&mut watcher, &mut store, Some("X"), "id-2", "t2", 80);
    assert!(matches!(second, TickOutcome::Unchanged));
    assert_eq!(store.item_count(), 0);
}

#[test]
fn mark_skip_trims_before_matching() {
    let mut watcher = CaptureState::new();
    let mut store = HistoryStore::new();
    watcher.mark_clipboard_skip("  copied text  ");
    let outcome = tick(&mut watcher, &mut store, Some("copied text"), "id-1", "t1", 80);
    assert!(matches!(outcome, TickOutcome::EchoSkipped));
    assert_eq!(store.item_count(), 0);
}

#[test]
fn mark_skip_of_blank_text_is_a_noop() {
    let mut watcher = CaptureState::new();
    let mut store = HistoryStore::new();
    watcher.mark_clipboard_skip("   ");
    let outcome = tick(&mut watcher, &mut store, Some("anything"), "id-1", "t1", 80);
    assert!(matches!(outcome, TickOutcome::Captured(_)));
}

#[test]
fn read_failure_is_transient() {
    let mut watcher = CaptureState::new();
    let mut store = HistoryStore::new();
    let failed = tick(&mut watcher, &mut store, None, "id-1", "t1", 80);
    assert!(matches!(failed, TickOutcome::ReadFailed));
    assert_eq!(store.item_count(), 0);

    let recovered = tick(&mut watcher, &mut store, Some("back"), "id-2", "t2", 80);
    assert!(matches!(recovered, TickOutcome::Captured(_)));
    assert_eq!(store.item_count(), 1);
}

#[test]
fn blank_observation_is_ignored() {
    let mut watcher = CaptureState::new();
    let mut store = HistoryStore::new();
    let outcome = tick(&mut watcher, &mut store, Some("   "), "id-1", "t1", 80);
    assert!(matches!(outcome, TickOutcome::BlankText));
    assert_eq!(store.item_count(), 0);
}

#[test]
fn unchanged_observation_is_not_recounted() {
    let mut watcher = CaptureState::new();
    let mut store = HistoryStore::new();
    let first = tick(&mut watcher, &mut store, Some("stable"), "id-1", "t1", 80);
    assert!(matches!(first, TickOutcome::Captured(_)));
    let second = tick(&mut watcher, &mut store, Some("stable"), "id-2", "t2", 80);
    assert!(matches!(second, TickOutcome::Unchanged));
    let listing = store.load_clipboard_history(500);
    assert_eq!(listing.len(), 1);
    assert_eq!(listing[0].count, 1);
}

#[test]
fn observation_is_trimmed_before_storing() {
    let mut watcher = CaptureState::new();
    let mut store = HistoryStore::new();
    let outcome = tick(&mut watcher, &mut store, Some("  spaced  "), "id-1", "t1", 80);
    match outcome {
        TickOutcome::Captured(item) => assert_eq!(item.text, "spaced"),
        other => panic!("expected a capture, got {:?}", variant_name(&other)),
    }
    let repeat = tick(&mut watcher, &mut store, Some("spaced"), "id-2", "t2", 80);
    assert!(matches!(repeat, TickOutcome::Unchanged));
}

#[test]
fn priming_prevents_recounting_existing_text() {
    let mut watcher = CaptureState::new();
    let mut store = HistoryStore::new();
    watcher.prime(Some("already there".to_string()));
    let outcome = tick(&mut watcher, &mut store, Some("already there"), "id-1", "t1", 80);
    assert!(matches!(outcome, TickOutcome::Unchanged));
    assert_eq!(store.item_count(), 0);

    let fresh = tick(&mut watcher, &mut store, Some("newer"), "id-2", "t2", 80);
    assert!(matches!(fresh, TickOutcome::Captured(_)));
}

#[test]
fn monitoring_toggle_stops_and_restarts_capture() {
    let mut watcher = CaptureState::new();
    let mut store = HistoryStore::new();
    assert!(watcher.get_clipboard_monitoring());
    watcher.set_clipboard_monitoring(false);
    assert!(!watcher.get_clipboard_monitoring());

    let outcome = tick(&mut watcher, &mut store, Some("hidden"), "id-1", "t1", 80);
    assert!(matches!(outcome, TickOutcome::Disabled));
    assert_eq!(store.item_count(), 0);

    watcher.set_clipboard_monitoring(true);
    let outcome = tick(&mut watcher, &mut store, Some("hidden"), "id-2", "t2", 80);
    assert!(matches!(outcome, TickOutcome::Captured(_)));
}

#[test]
fn capture_reuses_item_on_changed_then_repeated_text() {
    let mut watcher = CaptureState::new();
    let mut store = HistoryStore::new();
    tick(&mut watcher, &mut store, Some("one"), "id-1", "t1", 80);
    tick(&mut watcher, &mut store, Some("two"), "id-2", "t2", 80);
    let back = tick(&mut watcher, &mut store, Some("one"), "id-3", "t3", 80);
    match back {
        TickOutcome::Captured(item) => {
            assert_eq!(item.id, "id-1");
            assert_eq!(item.count, 2);
        },
        other => panic!("expected a capture, got {:?}", variant_name(&other)),
    }
    assert_eq!(store.item_count(), 2);
}

#[test]
fn refused_write_is_retried_on_a_later_tick() {
    let mut watcher = CaptureState::new();
    let mut store = HistoryStore::new();
    tick(&mut watcher, &mut store, Some("old"), "taken", "t1", 80);

    // A candidate id that is already live refuses the write; last_seen stays
    // behind, so the same content is retried.
    let refused = tick(&mut watcher, &mut store, Some("new"), "taken", "t2", 80);
    assert!(matches!(refused, TickOutcome::StoreRefused(_)));
    assert_eq!(store.item_count(), 1);

    let retried = tick(&mut watcher, &mut store, Some("new"), "fresh", "t3", 80);
    assert!(matches!(retried, TickOutcome::Captured(_)));
    assert_eq!(store.item_count(), 2);
}

#[test]
fn fresh_stamp_tick_uses_generated_identifiers() {
    let mut watcher = CaptureState::new();
    let mut store = HistoryStore::new();
    let outcome = watcher.tick_with_fresh_stamp(&mut store, Some("live".to_string()), 80);
    match outcome {
        TickOutcome::Captured(item) => {
            assert_eq!(item.text, "live");
            assert_eq!(item.id.len(), 36);
            assert_eq!(item.created_at, item.updated_at);
            assert!(!item.created_at.is_empty());
        },
        other => panic!("expected a capture, got {:?}", variant_name(&other)),
    }
}

#[test]
fn payload_builder_fills_every_field() {
    let payload = build_clipboard_payload("snippet".to_string());
    assert_eq!(payload.text, "snippet");
    assert_eq!(payload.id.len(), 36);
    assert_eq!(payload.created_at, payload.updated_at);
    assert!(!payload.created_at.is_empty());
}

fn variant_name(outcome: &TickOutcome) -> &'static str {
    match outcome {
        TickOutcome::Disabled => "Disabled",
        TickOutcome::ReadFailed => "ReadFailed",
        TickOutcome::BlankText => "BlankText",
        TickOutcome::EchoSkipped => "EchoSkipped",
        TickOutcome::Unchanged => "Unchanged",
        TickOutcome::Captured(_) => "Captured",
        TickOutcome::StoreRefused(_) => "StoreRefused",
    }
}
