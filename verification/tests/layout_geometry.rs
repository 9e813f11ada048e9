use powershellmanager::layout::{compute_weighted_grid, LayoutPreset, Slot};
use powershellmanager::monitor::Rect;

fn area(w: i32, h: i32) -> Rect {
    Rect { x: 0, y: 0, w, h }
}

#[test]
fn grid_2x2_gap10_tiles_exactly() {
    // Scenario: preset 2x2, gap 10, area 1000x1000.
    let p = LayoutPreset::Grid { cols: 2, rows: 2 };
    let slots = p.compute_slots(&area(1000, 1000), 10);
    assert_eq!(slots.len(), 4);
    for s in &slots {
        assert_eq!(s.w, 495);
        assert_eq!(s.h, 495);
        assert!(s.x == 0 || s.x == 505);
        assert!(s.y == 0 || s.y == 505);
    }
    // Row-major order.
    assert_eq!((slots[0].x, slots[0].y), (0, 0));
    assert_eq!((slots[1].x, slots[1].y), (505, 0));
    assert_eq!((slots[2].x, slots[2].y), (0, 505));
    assert_eq!((slots[3].x, slots[3].y), (505, 505));
    // Column widths plus the gap tile the width exactly.
    assert_eq!(slots[0].w + 10 + slots[1].w, 1000);
    assert_eq!(slots[0].h + 10 + slots[2].h, 1000);
}

#[test]
fn grid_truncation_absorbs_remainder() {
    // 3 columns over 1000 px with gap 10: the usable 980 px do not divide
    // evenly; each column gets 326 px and 2 px vanish by truncation.
    let p = LayoutPreset::Grid { cols: 3, rows: 1 };
    let slots = p.compute_slots(&area(1000, 500), 10);
    assert_eq!(slots.len(), 3);
    for s in &slots {
        assert_eq!(s.w, 326);
    }
    assert_eq!(3 * 326 + 2 * 10, 998);
}

#[test]
fn columns_and_rows_presets() {
    let cols = LayoutPreset::Columns(4);
    let slots = cols.compute_slots(&area(1010, 600), 10);
    assert_eq!(slots.len(), 4);
    for (i, s) in slots.iter().enumerate() {
        assert_eq!(s.w, 245);
        assert_eq!(s.h, 600);
        assert_eq!(s.x, (i as i32) * 255);
        assert_eq!(s.y, 0);
    }
    let rows = LayoutPreset::Rows(2);
    let slots = rows.compute_slots(&area(800, 610), 10);
    assert_eq!(slots.len(), 2);
    assert_eq!(slots[0], Slot { x: 0, y: 0, w: 800, h: 300 });
    assert_eq!(slots[1], Slot { x: 0, y: 310, w: 800, h: 300 });
}

#[test]
fn left_right_and_top_bottom() {
    let lr = LayoutPreset::LeftRight.compute_slots(&area(1000, 500), 10);
    assert_eq!(lr.len(), 2);
    assert_eq!(lr[0], Slot { x: 0, y: 0, w: 495, h: 500 });
    assert_eq!(lr[1], Slot { x: 505, y: 0, w: 495, h: 500 });
    let tb = LayoutPreset::TopBottom.compute_slots(&area(1000, 500), 10);
    assert_eq!(tb[0], Slot { x: 0, y: 0, w: 1000, h: 245 });
    assert_eq!(tb[1], Slot { x: 0, y: 255, w: 1000, h: 245 });
}

#[test]
fn main_side_devotes_two_thirds() {
    let p = LayoutPreset::MainSide { side_count: 2 };
    let slots = p.compute_slots(&area(910, 610), 10);
    assert_eq!(slots.len(), 3);
    // main width = (910 - 10) * 2 / 3 = 600
    assert_eq!(slots[0], Slot { x: 0, y: 0, w: 600, h: 610 });
    // side width = 910 - 600 - 10 = 300; side height = (610 - 10) / 2 = 300
    assert_eq!(slots[1], Slot { x: 610, y: 0, w: 300, h: 300 });
    assert_eq!(slots[2], Slot { x: 610, y: 310, w: 300, h: 300 });
}

#[test]
fn focus_devotes_three_quarters() {
    let p = LayoutPreset::Focus { side_count: 3 };
    let slots = p.compute_slots(&area(810, 620), 10);
    assert_eq!(slots.len(), 4);
    // main width = (810 - 10) * 3 / 4 = 600
    assert_eq!(slots[0], Slot { x: 0, y: 0, w: 600, h: 620 });
    // side width = 810 - 600 - 10 = 200; side height = (620 - 20) / 3 = 200
    assert_eq!(slots[1], Slot { x: 610, y: 0, w: 200, h: 200 });
    assert_eq!(slots[2], Slot { x: 610, y: 210, w: 200, h: 200 });
    assert_eq!(slots[3], Slot { x: 610, y: 420, w: 200, h: 200 });
}

#[test]
fn slot_count_formulas() {
    assert_eq!(LayoutPreset::Grid { cols: 4, rows: 3 }.slot_count(), 12);
    assert_eq!(LayoutPreset::Columns(5).slot_count(), 5);
    assert_eq!(LayoutPreset::Rows(3).slot_count(), 3);
    assert_eq!(LayoutPreset::LeftRight.slot_count(), 2);
    assert_eq!(LayoutPreset::TopBottom.slot_count(), 2);
    assert_eq!(LayoutPreset::MainSide { side_count: 4 }.slot_count(), 5);
    assert_eq!(LayoutPreset::Focus { side_count: 3 }.slot_count(), 4);
}

/// Scale weight fractions to pixel spans the way the caller does.
fn spans(usable: i32, weights: &[f32]) -> Vec<i32> {
    weights.iter().map(|w| (usable as f32 * w) as i32).collect()
}

#[test]
fn weighted_uniform_matches_grid() {
    // Uniform weights over a usable span that divides evenly give slots
    // identical to the unweighted grid.
    let a = area(1000, 1000);
    let gap = 10;
    let usable = 1000 - gap; // 2 columns, 2 rows: one gap each way
    let cw = spans(usable, &[0.5, 0.5]);
    let rw = spans(usable, &[0.5, 0.5]);
    let weighted = compute_weighted_grid(2, 2, &a, gap, &cw, &rw);
    let grid = LayoutPreset::Grid { cols: 2, rows: 2 }.compute_slots(&a, gap);
    assert_eq!(weighted.len(), grid.len());
    for (w, g) in weighted.iter().zip(grid.iter()) {
        assert_eq!(w, g);
    }
}

#[test]
fn weighted_uniform_close_to_grid_within_one_pixel() {
    // 5 columns over 1010 px, gap 10: usable 970 px, 194 px per column.
    let a = area(1010, 600);
    let gap = 10;
    let cw = spans(970, &[0.2; 5]);
    let rw = spans(600, &[1.0]);
    let weighted = compute_weighted_grid(5, 1, &a, gap, &cw, &rw);
    let grid = LayoutPreset::Grid { cols: 5, rows: 1 }.compute_slots(&a, gap);
    for (w, g) in weighted.iter().zip(grid.iter()) {
        assert!((w.w - g.w).abs() <= 1);
        assert!((w.x - g.x).abs() <= 1);
        assert_eq!(w.h, g.h);
    }
}

#[test]
fn weighted_widths_sum_exactly_to_usable() {
    // Whatever the weights, the widths of one row sum exactly to the usable
    // width: the final column absorbs the rounding pixels.
    let a = area(1000, 800);
    let gap = 10;
    let usable_w = 1000 - 2 * gap;
    let usable_h = 800 - gap;
    let cw = spans(usable_w, &[0.1, 0.23, 0.67]);
    let rw = spans(usable_h, &[0.31, 0.69]);
    let slots = compute_weighted_grid(3, 2, &a, gap, &cw, &rw);
    assert_eq!(slots.len(), 6);
    let row_sum: i32 = slots[0..3].iter().map(|s| s.w).sum();
    assert_eq!(row_sum, usable_w);
    let col_sum: i32 = [slots[0].h, slots[3].h].iter().sum();
    assert_eq!(col_sum, usable_h);
    // Offsets run cumulatively with a gap between entries.
    assert_eq!(slots[1].x, slots[0].x + slots[0].w + gap);
    assert_eq!(slots[2].x, slots[1].x + slots[1].w + gap);
    assert_eq!(slots[3].y, slots[0].y + slots[0].h + gap);
}

#[test]
fn display_names() {
    assert_eq!(LayoutPreset::Grid { cols: 2, rows: 3 }.display_name(), "2x3 Grid");
    assert_eq!(LayoutPreset::Columns(4).display_name(), "4 Columns");
    assert_eq!(LayoutPreset::Rows(12).display_name(), "12 Rows");
    assert_eq!(LayoutPreset::LeftRight.display_name(), "Left / Right");
    assert_eq!(LayoutPreset::TopBottom.display_name(), "Top / Bottom");
    assert_eq!(LayoutPreset::MainSide { side_count: 2 }.display_name(), "Main + 2 Side");
    assert_eq!(LayoutPreset::Focus { side_count: 10 }.display_name(), "Focus + 10 Side");
}

#[test]
fn builtin_presets_catalogue() {
    let presets = powershellmanager::layout::builtin_presets();
    assert_eq!(presets.len(), 21);
    assert_eq!(presets[0].0, "1x2 Grid");
    assert_eq!(presets[0].1, LayoutPreset::Grid { cols: 1, rows: 2 });
    assert_eq!(presets[9].0, "Left / Right");
    assert_eq!(presets[20].0, "3 Rows");
    assert_eq!(presets[20].1, LayoutPreset::Rows(3));
}

#[test]
fn weighted_over_unity_weights_still_tile_exactly() {
    // Weights summing above one: the final column absorbs a negative
    // residual, and the widths still sum exactly to the usable width.
    let a = area(1000, 800);
    let gap = 10;
    let usable_w = 1000 - gap; // two columns, one gap
    let cw = spans(usable_w, &[0.6, 0.6]); // sums to 1.2
    let rw = spans(800, &[1.0]);
    let slots = compute_weighted_grid(2, 1, &a, gap, &cw, &rw);
    assert_eq!(slots[0].w, 594);
    assert_eq!(slots[1].w, 396);
    assert_eq!(slots[0].w + slots[1].w, usable_w);
    assert_eq!(slots[1].x, 594 + gap);
    // Grossly over-unity weights drive the final column negative; the row
    // still sums exactly to the usable width.
    let cw3 = spans(980, &[0.9, 0.9, 0.9]);
    let slots3 = compute_weighted_grid(3, 1, &a, 10, &cw3, &rw);
    assert_eq!(slots3.iter().map(|s| s.w).sum::<i32>(), 980);
    assert!(slots3[2].w < 0);
}
