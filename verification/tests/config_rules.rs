use powershellmanager::config::{
    default_2, default_gap, default_monitor, default_target, default_true, CategoryOverrides,
    LayoutDef, PinRule,
};
use powershellmanager::layout::LayoutPreset;

fn overrides(exclude: Vec<&str>) -> CategoryOverrides {
    CategoryOverrides {
        terminals: Vec::new(),
        editors: Vec::new(),
        browsers: Vec::new(),
        chat: Vec::new(),
        media: Vec::new(),
        games: Vec::new(),
        devtools: Vec::new(),
        exclude: exclude.into_iter().map(|s| s.to_string()).collect(),
    }
}

#[test]
fn pin_rule_matches_process_case_insensitively() {
    let rule = PinRule { process: Some("Code.exe".to_string()), title_contains: None, slot: 1 };
    assert!(rule.matches("CODE.EXE", "anything"));
    assert!(rule.matches("code.exe", ""));
    assert!(!rule.matches("chrome.exe", "code.exe"));
}

#[test]
fn pin_rule_matches_title_substring_case_insensitively() {
    let rule = PinRule {
        process: None,
        title_contains: Some("Inbox".to_string()),
        slot: 0,
    };
    assert!(rule.matches("whatever.exe", "Mail - INBOX (3)"));
    assert!(rule.matches("whatever.exe", "inbox"));
    assert!(!rule.matches("whatever.exe", "Outbox"));
    // A rule with neither criterion matches nothing.
    let empty = PinRule { process: None, title_contains: None, slot: 0 };
    assert!(!empty.matches("a.exe", "a title"));
}

#[test]
fn pin_rule_process_or_title_suffices() {
    let rule = PinRule {
        process: Some("a.exe".to_string()),
        title_contains: Some("logs".to_string()),
        slot: 2,
    };
    assert!(rule.matches("a.exe", "unrelated"));
    assert!(rule.matches("b.exe", "service logs"));
    assert!(!rule.matches("b.exe", "unrelated"));
}

#[test]
fn layout_def_grid_string_wins() {
    let def = LayoutDef {
        name: "dev".to_string(),
        grid: Some("3x2".to_string()),
        style: Some("columns".to_string()),
        count: Some(5),
    };
    assert_eq!(def.to_preset(), Some(LayoutPreset::Grid { cols: 3, rows: 2 }));
    // A grid string that does not parse fails the definition even when a
    // style is present.
    let bad = LayoutDef {
        name: "bad".to_string(),
        grid: Some("nope".to_string()),
        style: Some("columns".to_string()),
        count: Some(5),
    };
    assert_eq!(bad.to_preset(), None);
}

#[test]
fn layout_def_styles() {
    let mk = |style: &str, count: Option<u32>| LayoutDef {
        name: "n".to_string(),
        grid: None,
        style: Some(style.to_string()),
        count,
    };
    assert_eq!(mk("columns", Some(3)).to_preset(), Some(LayoutPreset::Columns(3)));
    assert_eq!(mk("rows", None).to_preset(), Some(LayoutPreset::Rows(2)));
    assert_eq!(mk("left-right", None).to_preset(), Some(LayoutPreset::LeftRight));
    assert_eq!(mk("top-bottom", None).to_preset(), Some(LayoutPreset::TopBottom));
    assert_eq!(
        mk("main-side", Some(4)).to_preset(),
        Some(LayoutPreset::MainSide { side_count: 4 })
    );
    assert_eq!(mk("focus", Some(3)).to_preset(), Some(LayoutPreset::Focus { side_count: 3 }));
    assert_eq!(mk("diagonal", Some(3)).to_preset(), None);
    // The style keywords are exact, unlike the parsed grid strings.
    assert_eq!(mk("Columns", Some(3)).to_preset(), None);
    let nothing = LayoutDef { name: "n".to_string(), grid: None, style: None, count: Some(2) };
    assert_eq!(nothing.to_preset(), None);
}

#[test]
fn excluded_lower_lowercases_names() {
    let o = overrides(vec!["Widget.EXE", "other.exe"]);
    let excl = o.excluded_lower();
    assert_eq!(excl.len(), 2);
    assert_eq!(excl[0], b"widget.exe".to_vec());
    assert_eq!(excl[1], b"other.exe".to_vec());
}

#[test]
fn default_values() {
    assert_eq!(default_target(), "all");
    assert_eq!(default_monitor(), "primary");
    assert_eq!(default_gap(), 4);
    assert!(default_true());
    assert_eq!(default_2(), 2);
}
