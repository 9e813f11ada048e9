use powershellmanager::arrange::{
    collect_results, enabled_slots, plan_arrangement, sort_indices_desc, ArrangeResult,
};
use powershellmanager::config::PinRule;
use powershellmanager::layout::Slot;
use powershellmanager::monitor::Rect;
use powershellmanager::windows::{AppCategory, ManagedWindow};

fn window(hwnd: isize, name: &str) -> ManagedWindow {
    ManagedWindow {
        hwnd,
        title: format!("{} window", name),
        process_name: name.to_string(),
        category: AppCategory::Other,
        rect: Rect { x: 0, y: 0, w: 100, h: 100 },
        is_minimized: false,
    }
}

fn slot(i: i32) -> Slot {
    Slot { x: i * 100, y: 0, w: 90, h: 90 }
}

#[test]
fn five_windows_four_slots_no_smart_sort() {
    // Scenario: 5 discovered windows, no smart sort, no pins, 4 slots:
    // arranged 4, skipped 1, no errors when every positioning succeeds.
    let windows: Vec<ManagedWindow> =
        (0..5).map(|i| window(i as isize, "app.exe")).collect();
    let rules: Vec<PinRule> = Vec::new();
    let plan = plan_arrangement(&windows, 4, &rules, false, None);
    assert_eq!(plan.assignments.len(), 4);
    for (i, a) in plan.assignments.iter().enumerate() {
        assert_eq!(*a, Some(i));
    }
    assert_eq!(plan.skipped, 1);
    // All four positioning calls succeed.
    let outcomes: Vec<Option<String>> = vec![None, None, None, None];
    let result = collect_results(&outcomes, plan.skipped);
    assert_eq!(result.arranged, 4);
    assert_eq!(result.skipped, 1);
    assert!(result.errors.is_empty());
}

#[test]
fn pinned_window_lands_in_its_slot_regardless_of_order_and_scores() {
    // A pin rule maps process "a.exe" to slot 2; whatever the discovery
    // order and whatever the scores of the other two windows, the "a.exe"
    // window is assigned slot 2.
    let rule = PinRule { process: Some("a.exe".to_string()), title_contains: None, slot: 2 };
    let rules = vec![rule];
    let orders: [[&str; 3]; 3] = [
        ["a.exe", "b.exe", "c.exe"],
        ["b.exe", "a.exe", "c.exe"],
        ["b.exe", "c.exe", "a.exe"],
    ];
    let score_sets: [[u64; 3]; 3] = [[1, 2, 3], [900, 0, 500], [7, 7, 7]];
    for names in orders.iter() {
        let windows: Vec<ManagedWindow> =
            names.iter().enumerate().map(|(i, n)| window(i as isize, n)).collect();
        let a_pos = names.iter().position(|n| *n == "a.exe").unwrap();
        for scores in score_sets.iter() {
            let sc: Vec<u64> = scores.to_vec();
            let plan = plan_arrangement(&windows, 4, &rules, true, Some(&sc));
            assert_eq!(plan.assignments[2], Some(a_pos));
            // The other two windows fill the remaining slots.
            let assigned: Vec<usize> =
                plan.assignments.iter().flatten().copied().collect();
            assert_eq!(assigned.len(), 3);
            assert_eq!(plan.skipped, 0);
        }
    }
}

#[test]
fn smart_sort_orders_by_descending_score() {
    let windows: Vec<ManagedWindow> =
        (0..4).map(|i| window(i as isize, "app.exe")).collect();
    let rules: Vec<PinRule> = Vec::new();
    let scores: Vec<u64> = vec![5, 40, 20, 40];
    let plan = plan_arrangement(&windows, 4, &rules, true, Some(&scores));
    // Stable on the tie between windows 1 and 3.
    assert_eq!(plan.assignments, vec![Some(1), Some(3), Some(2), Some(0)]);
    assert_eq!(plan.skipped, 0);
}

#[test]
fn smart_sort_without_tracker_keeps_discovery_order() {
    let windows: Vec<ManagedWindow> =
        (0..3).map(|i| window(i as isize, "app.exe")).collect();
    let rules: Vec<PinRule> = Vec::new();
    let plan = plan_arrangement(&windows, 2, &rules, true, None);
    assert_eq!(plan.assignments, vec![Some(0), Some(1)]);
    assert_eq!(plan.skipped, 1);
}

#[test]
fn without_smart_sort_pins_are_not_applied() {
    let rule = PinRule { process: Some("a.exe".to_string()), title_contains: None, slot: 2 };
    let rules = vec![rule];
    let windows = vec![window(0, "a.exe"), window(1, "b.exe")];
    let plan = plan_arrangement(&windows, 3, &rules, false, None);
    assert_eq!(plan.assignments, vec![Some(0), Some(1), None]);
}

#[test]
fn pin_rule_with_missing_slot_is_ignored() {
    // The rule names slot 9 of 4: it is silently not applied and the window
    // is placed like any unpinned one.
    let rule = PinRule { process: Some("a.exe".to_string()), title_contains: None, slot: 9 };
    let rules = vec![rule];
    let windows = vec![window(0, "a.exe"), window(1, "b.exe")];
    let plan = plan_arrangement(&windows, 4, &rules, true, None);
    assert_eq!(plan.assignments, vec![Some(0), Some(1), None, None]);
    assert_eq!(plan.skipped, 0);
}

#[test]
fn pinned_overflow_is_counted_as_skipped() {
    // One window pinned to slot 0, three unpinned windows, two slots: the
    // unpinned windows compete for slot 1 alone and two are skipped.
    let rule = PinRule { process: Some("a.exe".to_string()), title_contains: None, slot: 0 };
    let rules = vec![rule];
    let windows = vec![
        window(0, "b.exe"),
        window(1, "a.exe"),
        window(2, "c.exe"),
        window(3, "d.exe"),
    ];
    let plan = plan_arrangement(&windows, 2, &rules, true, None);
    assert_eq!(plan.assignments, vec![Some(1), Some(0)]);
    assert_eq!(plan.skipped, 2);
}

#[test]
fn sort_indices_is_stable_descending() {
    let scores: Vec<u64> = vec![5, 10, 10, 1];
    assert_eq!(sort_indices_desc(&scores), vec![1, 2, 0, 3]);
    let empty: Vec<u64> = Vec::new();
    assert_eq!(sort_indices_desc(&empty), Vec::<usize>::new());
}

#[test]
fn enabled_slots_removes_disabled_indices() {
    let all = vec![slot(0), slot(1), slot(2), slot(3)];
    let disabled = vec![1usize, 3usize];
    let kept = enabled_slots(&all, &disabled);
    assert_eq!(kept, vec![slot(0), slot(2)]);
    let none: Vec<usize> = Vec::new();
    assert_eq!(enabled_slots(&all, &none).len(), 4);
}

#[test]
fn collect_results_counts_errors() {
    let outcomes: Vec<Option<String>> = vec![
        None,
        Some("Failed to position 'editor': access denied".to_string()),
        None,
    ];
    let r = collect_results(&outcomes, 2);
    assert_eq!(r.arranged, 2);
    assert_eq!(r.skipped, 2);
    assert_eq!(r.errors, vec!["Failed to position 'editor': access denied".to_string()]);
}

#[test]
fn no_monitors_result() {
    let r = ArrangeResult::no_monitors();
    assert_eq!(r.arranged, 0);
    assert_eq!(r.skipped, 0);
    assert_eq!(r.errors, vec!["No monitors detected".to_string()]);
}

#[test]
fn displaced_pin_counts_as_skipped() {
    // Two windows of the same process are both pinned to slot 0: the later
    // one takes the slot, and the displaced window is counted as skipped.
    let rule = PinRule { process: Some("a.exe".to_string()), title_contains: None, slot: 0 };
    let rules = vec![rule];
    let windows = vec![window(0, "a.exe"), window(1, "a.exe")];
    let plan = plan_arrangement(&windows, 2, &rules, true, None);
    assert_eq!(plan.assignments, vec![Some(1), None]);
    assert_eq!(plan.skipped, 1);
    // With an unpinned window present, it fills a free slot and every window
    // is still accounted for: two assigned, one skipped.
    let windows3 = vec![window(0, "a.exe"), window(1, "a.exe"), window(2, "b.exe")];
    let plan3 = plan_arrangement(&windows3, 3, &rules, true, None);
    assert_eq!(plan3.assignments, vec![Some(1), Some(2), None]);
    assert_eq!(plan3.skipped, 1);
}
