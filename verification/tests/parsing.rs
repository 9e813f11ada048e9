use powershellmanager::layout::LayoutPreset;
use powershellmanager::version::{version_newer, version_nums};

#[test]
fn parse_columns_scenario() {
    // Scenario: parse("columns:3") -> Columns(3); slot_count -> 3;
    // parse("bogus") -> no result.
    let p = LayoutPreset::parse("columns:3").unwrap();
    assert_eq!(p, LayoutPreset::Columns(3));
    assert_eq!(p.slot_count(), 3);
    assert!(LayoutPreset::parse("bogus").is_none());
}

#[test]
fn parse_grid_forms() {
    assert_eq!(LayoutPreset::parse("2x3"), Some(LayoutPreset::Grid { cols: 2, rows: 3 }));
    assert_eq!(LayoutPreset::parse(" 4X2  "), Some(LayoutPreset::Grid { cols: 4, rows: 2 }));
    assert_eq!(LayoutPreset::parse("2 x 3"), Some(LayoutPreset::Grid { cols: 2, rows: 3 }));
    // A zero on either side falls through the grid branch and matches
    // nothing else.
    assert_eq!(LayoutPreset::parse("0x2"), None);
    // An unreadable number beside an `x` fails the whole parse.
    assert_eq!(LayoutPreset::parse("axb"), None);
    assert_eq!(LayoutPreset::parse("12xzwei"), None);
}

#[test]
fn parse_columns_and_rows_forms() {
    assert_eq!(LayoutPreset::parse("columns 4"), Some(LayoutPreset::Columns(4)));
    assert_eq!(LayoutPreset::parse("Columns:2"), Some(LayoutPreset::Columns(2)));
    assert_eq!(LayoutPreset::parse("rows:3"), Some(LayoutPreset::Rows(3)));
    assert_eq!(LayoutPreset::parse("rows 2"), Some(LayoutPreset::Rows(2)));
    // Without a count the parse fails rather than defaulting.
    assert_eq!(LayoutPreset::parse("columns"), None);
    assert_eq!(LayoutPreset::parse("rows"), None);
    assert_eq!(LayoutPreset::parse("columns:0"), None);
}

#[test]
fn parse_fixed_forms() {
    assert_eq!(LayoutPreset::parse("left-right"), Some(LayoutPreset::LeftRight));
    assert_eq!(LayoutPreset::parse("leftright"), Some(LayoutPreset::LeftRight));
    assert_eq!(LayoutPreset::parse("split"), Some(LayoutPreset::LeftRight));
    assert_eq!(LayoutPreset::parse("top-bottom"), Some(LayoutPreset::TopBottom));
    assert_eq!(LayoutPreset::parse("TOPBOTTOM"), Some(LayoutPreset::TopBottom));
}

#[test]
fn parse_main_side_and_focus() {
    assert_eq!(
        LayoutPreset::parse("main-side"),
        Some(LayoutPreset::MainSide { side_count: 2 })
    );
    assert_eq!(
        LayoutPreset::parse("main-side:4"),
        Some(LayoutPreset::MainSide { side_count: 4 })
    );
    assert_eq!(
        LayoutPreset::parse("mainside:3"),
        Some(LayoutPreset::MainSide { side_count: 3 })
    );
    // An unreadable count falls back to the default.
    assert_eq!(
        LayoutPreset::parse("main-side:x"),
        None,
        "a count with an x goes down the grid branch and fails"
    );
    assert_eq!(
        LayoutPreset::parse("main-side:q"),
        Some(LayoutPreset::MainSide { side_count: 2 })
    );
    // A zero count is raised to one.
    assert_eq!(
        LayoutPreset::parse("focus:0"),
        Some(LayoutPreset::Focus { side_count: 1 })
    );
    assert_eq!(LayoutPreset::parse("focus"), Some(LayoutPreset::Focus { side_count: 3 }));
    assert_eq!(LayoutPreset::parse("focus:5"), Some(LayoutPreset::Focus { side_count: 5 }));
}

#[test]
fn version_comparisons() {
    assert!(version_newer("1.2.3", "1.2.2"));
    assert!(!version_newer("1.2.2", "1.2.3"));
    assert!(!version_newer("1.2.3", "1.2.3"));
    assert!(version_newer("2.0", "1.9.9"));
    assert!(!version_newer("2.0", "10.0"));
    // A strict prefix counts as older.
    assert!(version_newer("1.2.1", "1.2"));
    assert!(!version_newer("1.2", "1.2.1"));
}

#[test]
fn version_nums_skip_unreadable_pieces() {
    assert_eq!(version_nums("1.2.3"), vec![1, 2, 3]);
    assert_eq!(version_nums("1.beta.3"), vec![1, 3]);
    assert_eq!(version_nums(""), Vec::<u32>::new());
    assert_eq!(version_nums("v1"), Vec::<u32>::new());
}
