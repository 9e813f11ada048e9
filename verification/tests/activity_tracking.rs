use powershellmanager::activity::{ActivityDb, ActivityTracker, AppRecord, FocusEvent};

fn event(name: &str, title: &str, ts_ms: u64) -> FocusEvent {
    FocusEvent {
        process_name: name.to_string(),
        title: title.to_string(),
        timestamp_ms: ts_ms,
    }
}

fn record(focus_ms: u64, switches: u64) -> AppRecord {
    AppRecord {
        total_focus_ms: focus_ms,
        total_switches: switches,
        last_focus_ms: 0,
        category: "Other".to_string(),
        last_title: String::new(),
    }
}

/// The scaled integer fraction the application derives from the
/// floating-point decay factor.
fn factor_fraction(elapsed_days: f64, half_life_days: f64) -> (u64, u64) {
    let factor = 0.5f64.powf(elapsed_days / half_life_days);
    const DEN: u64 = 1_000_000_000;
    ((factor * DEN as f64) as u64, DEN)
}

#[test]
fn focus_intervals_accumulate_on_switch() {
    let t0: u64 = 1_700_000_000_000;
    let mut tracker = ActivityTracker::new(ActivityDb::new(), t0);
    let events = vec![
        event("Editor.exe", "main.rs", t0 + 1_000),
        event("browser.exe", "docs", t0 + 11_000),
        event("editor.exe", "lib.rs", t0 + 26_000),
    ];
    tracker.update(&events, t0 + 26_000);
    // The editor was focused from t0+1s to t0+11s; the interval is credited
    // to the session entry and the persisted record alike, and the totals
    // sum both.
    let (focus, switches, last) = tracker.usage_totals("editor.exe");
    assert_eq!(focus, 2 * 10_000);
    assert_eq!(switches, 4); // 2 session switches + 2 persisted switches
    assert_eq!(last, t0 + 26_000);
    // The browser was focused from t0+11s to t0+26s.
    let (focus_b, switches_b, _) = tracker.usage_totals("BROWSER.exe");
    assert_eq!(focus_b, 2 * 15_000);
    assert_eq!(switches_b, 2);
    // An app never seen reports zeroes.
    assert_eq!(tracker.usage_totals("nothing.exe"), (0, 0, 0));
}

#[test]
fn update_flushes_and_requests_save_after_a_minute() {
    let t0: u64 = 1_700_000_000_000;
    let mut tracker = ActivityTracker::new(ActivityDb::new(), t0);
    let events = vec![event("editor.exe", "main.rs", t0)];
    let a1 = tracker.update(&events, t0 + 30_000);
    assert!(!a1.save);
    assert!(!a1.decay);
    // Thirty more seconds: the save gate opens and the open interval is
    // flushed into the accumulators without closing it.
    let none: Vec<FocusEvent> = Vec::new();
    let a2 = tracker.update(&none, t0 + 61_000);
    assert!(a2.save);
    assert!(!a2.decay);
    let (focus, _, _) = tracker.usage_totals("editor.exe");
    assert_eq!(focus, 2 * 61_000); // session + persisted copies of the interval
    // After an hour, a decay pass is requested.
    let a3 = tracker.update(&none, t0 + 3_700_000);
    assert!(a3.decay);
}

#[test]
fn decay_halves_at_one_half_life() {
    let mut db = ActivityDb::new();
    db.insert_record("editor.exe", record(10_000, 9));
    db.last_decay_ms = 1_700_000_000_000;
    let now = db.last_decay_ms + 7 * 86_400_000; // seven days later
    let mut tracker = ActivityTracker::new(db, now);
    let (num, den) = factor_fraction(7.0, 7.0);
    assert_eq!(num * 2, den); // one half exactly
    tracker.apply_decay(now, num, den);
    let (focus, switches, _) = tracker.usage_totals("editor.exe");
    assert_eq!(focus, 5_000);
    assert_eq!(switches, 4); // floor(9 / 2)
    assert_eq!(tracker.db.last_decay_ms, now);
}

#[test]
fn decay_twice_with_zero_elapsed_is_idempotent() {
    let mut db = ActivityDb::new();
    db.insert_record("editor.exe", record(10_000, 8));
    db.last_decay_ms = 1_700_000_000_000;
    let now = db.last_decay_ms + 86_400_000;
    let mut tracker = ActivityTracker::new(db, now);
    let (num, den) = factor_fraction(1.0, 7.0);
    tracker.apply_decay(now, num, den);
    let after_first = tracker.usage_totals("editor.exe");
    assert!(after_first.0 < 10_000);
    // The second pass at the same instant is suppressed by the guard.
    tracker.apply_decay(now, num, den);
    assert_eq!(tracker.usage_totals("editor.exe"), after_first);
}

#[test]
fn decay_skipped_below_minimal_elapsed_threshold() {
    let mut db = ActivityDb::new();
    db.insert_record("editor.exe", record(10_000, 8));
    db.last_decay_ms = 1_700_000_000_000;
    // 80 seconds elapsed: below the 0.001-day threshold.
    let now = db.last_decay_ms + 80_000;
    let mut tracker = ActivityTracker::new(db, now);
    tracker.apply_decay(now, 1, 2);
    let (focus, switches, _) = tracker.usage_totals("editor.exe");
    assert_eq!((focus, switches), (10_000, 8));
    assert_eq!(tracker.db.last_decay_ms, now);
}

#[test]
fn first_decay_sets_baseline_without_decaying() {
    let mut db = ActivityDb::new();
    db.insert_record("editor.exe", record(10_000, 8));
    assert_eq!(db.last_decay_ms, 0);
    let now: u64 = 1_700_000_000_000;
    let mut tracker = ActivityTracker::new(db, now);
    tracker.apply_decay(now, 1, 2);
    let (focus, _, _) = tracker.usage_totals("editor.exe");
    assert_eq!(focus, 10_000);
    assert_eq!(tracker.db.last_decay_ms, now);
}

#[test]
fn decay_prunes_dead_entries() {
    let mut db = ActivityDb::new();
    db.insert_record("dead.exe", record(1_500, 1));
    db.insert_record("alive.exe", record(900_000, 40));
    db.last_decay_ms = 1_700_000_000_000;
    let now = db.last_decay_ms + 86_400_000;
    let mut tracker = ActivityTracker::new(db, now);
    // A decayed focus below one second with no switches left is pruned.
    tracker.apply_decay(now, 1, 2);
    assert_eq!(tracker.db.keys.len(), 1);
    assert_eq!(tracker.usage_totals("dead.exe"), (0, 0, 0));
    let (focus, _, _) = tracker.usage_totals("alive.exe");
    assert_eq!(focus, 450_000);
}

#[test]
fn records_carry_category_and_title() {
    let t0: u64 = 1_700_000_000_000;
    let mut tracker = ActivityTracker::new(ActivityDb::new(), t0);
    tracker.record_event(&event("Chrome.exe", "news - tab", t0 + 5_000));
    assert_eq!(tracker.db.keys.len(), 1);
    assert_eq!(tracker.db.keys[0], b"chrome.exe".to_vec());
    assert_eq!(tracker.db.records[0].category, "Browser");
    assert_eq!(tracker.db.records[0].last_title, "news - tab");
    assert_eq!(tracker.db.records[0].total_switches, 1);
    assert_eq!(tracker.db.records[0].last_focus_ms, t0 + 5_000);
}

#[test]
fn insert_record_replaces_existing_key() {
    let mut db = ActivityDb::new();
    db.insert_record("Editor.exe", record(1_000, 1));
    db.insert_record("editor.EXE", record(2_000, 2));
    assert_eq!(db.keys.len(), 1);
    assert_eq!(db.records[0].total_focus_ms, 2_000);
}

#[test]
fn session_stats_sorted_by_focus() {
    let t0: u64 = 1_700_000_000_000;
    let mut tracker = ActivityTracker::new(ActivityDb::new(), t0);
    let events = vec![
        event("a.exe", "", t0),
        event("b.exe", "", t0 + 30_000),
        event("a.exe", "", t0 + 40_000),
        event("c.exe", "", t0 + 45_000),
    ];
    tracker.update(&events, t0 + 45_000);
    // a: 30s, b: 10s, a again: 5s more -> a 35s, b 10s, c 0s.
    let stats = tracker.session_stats();
    assert_eq!(stats.len(), 3);
    assert_eq!(stats[0].0, b"a.exe".to_vec());
    assert_eq!(stats[0].1.focus_ms, 35_000);
    assert_eq!(stats[1].0, b"b.exe".to_vec());
    assert_eq!(stats[1].1.focus_ms, 10_000);
    assert_eq!(stats[2].0, b"c.exe".to_vec());
    assert_eq!(stats[2].1.focus_ms, 0);
    assert_eq!(stats[0].1.switch_count, 2);
}

#[test]
fn flush_keeps_interval_open() {
    let t0: u64 = 1_700_000_000_000;
    let mut tracker = ActivityTracker::new(ActivityDb::new(), t0);
    tracker.record_event(&event("a.exe", "", t0));
    tracker.flush_current_focus(t0 + 10_000);
    let (focus, _, _) = tracker.usage_totals("a.exe");
    assert_eq!(focus, 2 * 10_000);
    // The interval restarts at the flush instant: a later close credits
    // only the time after it.
    tracker.record_event(&event("b.exe", "", t0 + 15_000));
    let (focus2, _, _) = tracker.usage_totals("a.exe");
    assert_eq!(focus2, 2 * 10_000 + 2 * 5_000);
}
