use powershellmanager::monitor::{resolve_monitor, MonitorInfo, Rect};
use powershellmanager::windows::{
    admit_window, categorize_process, filter_windows, AppCategory, TargetFilter,
    WindowCandidate,
};

fn rect(w: i32, h: i32) -> Rect {
    Rect { x: 0, y: 0, w, h }
}

fn candidate(hwnd: isize, name: &str) -> WindowCandidate {
    WindowCandidate {
        hwnd,
        is_visible: true,
        is_tool_window: false,
        rect: rect(800, 600),
        process_name: Some(name.to_string()),
        class_name: Some("SomeAppWindow".to_string()),
        title: format!("{} window", name),
        is_minimized: false,
    }
}

#[test]
fn categorize_is_case_insensitive_exact() {
    assert_eq!(categorize_process("Chrome.EXE"), AppCategory::Browser);
    assert_eq!(categorize_process("powershell.exe"), AppCategory::Terminal);
    assert_eq!(categorize_process("CODE.exe"), AppCategory::Editor);
    assert_eq!(categorize_process("discord.exe"), AppCategory::Chat);
    assert_eq!(categorize_process("vlc.exe"), AppCategory::Media);
    assert_eq!(categorize_process("steam.exe"), AppCategory::Game);
    assert_eq!(categorize_process("blender.exe"), AppCategory::DevTool);
    assert_eq!(categorize_process("explorer.exe"), AppCategory::System);
    assert_eq!(categorize_process("somethingelse.exe"), AppCategory::Other);
    // Exact match, not substring.
    assert_eq!(categorize_process("chrome.exe.bak"), AppCategory::Other);
}

#[test]
fn category_labels() {
    assert_eq!(AppCategory::Terminal.short_label(), "T");
    assert_eq!(AppCategory::Other.short_label(), "?");
    assert_eq!(AppCategory::Browser.display_name(), "Browser");
    assert_eq!(AppCategory::DevTool.display_name(), "DevTool");
}

#[test]
fn target_filter_from_str() {
    assert_eq!(TargetFilter::from_str("ps"), TargetFilter::Terminals);
    assert_eq!(TargetFilter::from_str("POWERSHELL"), TargetFilter::Terminals);
    assert_eq!(TargetFilter::from_str("terminals"), TargetFilter::Terminals);
    assert_eq!(TargetFilter::from_str("all"), TargetFilter::Universal);
    assert_eq!(TargetFilter::from_str("Universal"), TargetFilter::Universal);
    // A comma list becomes a custom filter with trimmed pieces.
    let f = TargetFilter::from_str("Notepad.exe, code.exe ,,");
    match &f {
        TargetFilter::Custom(names) => {
            assert_eq!(names.len(), 2);
            assert_eq!(names[0], b"Notepad.exe".to_vec());
            assert_eq!(names[1], b"code.exe".to_vec());
        }
        _ => panic!("expected a custom filter"),
    }
    // Only empty pieces fall back to the universal filter.
    assert_eq!(TargetFilter::from_str(" , ,"), TargetFilter::Universal);
    assert_eq!(TargetFilter::from_str(""), TargetFilter::Universal);
}

#[test]
fn target_filter_matches() {
    assert!(TargetFilter::Terminals.matches("PowerShell.EXE"));
    assert!(!TargetFilter::Terminals.matches("chrome.exe"));
    assert!(TargetFilter::Universal.matches("anything.exe"));
    let f = TargetFilter::from_str("Notepad.exe, code.exe");
    assert!(f.matches("NOTEPAD.EXE"));
    assert!(f.matches("code.exe"));
    assert!(!f.matches("chrome.exe"));
    assert_eq!(f.display_name(), "Custom");
    assert_eq!(TargetFilter::Terminals.display_name(), "Terminals");
    assert_eq!(TargetFilter::Universal.display_name(), "Universal");
}

#[test]
fn admit_skips_own_invisible_tool_and_empty_windows() {
    let filter = TargetFilter::Universal;
    let excl: Vec<Vec<u8>> = Vec::new();
    let ok = candidate(10, "notepad.exe");
    assert!(admit_window(&ok, &filter, 1, &excl).is_some());
    // The caller's own window is skipped.
    assert!(admit_window(&ok, &filter, 10, &excl).is_none());
    let mut invisible = candidate(10, "notepad.exe");
    invisible.is_visible = false;
    assert!(admit_window(&invisible, &filter, 1, &excl).is_none());
    let mut tool = candidate(10, "notepad.exe");
    tool.is_tool_window = true;
    assert!(admit_window(&tool, &filter, 1, &excl).is_none());
    let mut flat = candidate(10, "notepad.exe");
    flat.rect = rect(800, 0);
    assert!(admit_window(&flat, &filter, 1, &excl).is_none());
    let mut unresolved = candidate(10, "notepad.exe");
    unresolved.process_name = None;
    assert!(admit_window(&unresolved, &filter, 1, &excl).is_none());
    let mut nameless = candidate(10, "");
    nameless.process_name = Some(String::new());
    assert!(admit_window(&nameless, &filter, 1, &excl).is_none());
}

#[test]
fn admit_applies_exclusions_and_shell_rules() {
    let filter = TargetFilter::Universal;
    let excl = vec![b"notepad.exe".to_vec()];
    // User exclusions are compared lower-cased.
    assert!(admit_window(&candidate(10, "NOTEPAD.exe"), &filter, 1, &excl).is_none());
    let none: Vec<Vec<u8>> = Vec::new();
    // Shell processes are excluded in universal mode.
    assert!(admit_window(&candidate(10, "svchost.exe"), &filter, 1, &none).is_none());
    // Shell window classes are excluded in universal mode.
    let mut tray = candidate(10, "someapp.exe");
    tray.class_name = Some("Shell_TrayWnd".to_string());
    assert!(admit_window(&tray, &filter, 1, &none).is_none());
    // In terminal mode the shell rules do not apply, but the filter does.
    assert!(admit_window(&candidate(10, "conhost.exe"), &TargetFilter::Terminals, 1, &none)
        .is_some());
    assert!(admit_window(&candidate(10, "someapp.exe"), &TargetFilter::Terminals, 1, &none)
        .is_none());
}

#[test]
fn admit_explorer_needs_file_manager_class() {
    let filter = TargetFilter::Universal;
    let none: Vec<Vec<u8>> = Vec::new();
    let mut shell_host = candidate(10, "explorer.exe");
    shell_host.class_name = Some("Progman".to_string());
    assert!(admit_window(&shell_host, &filter, 1, &none).is_none());
    let mut unknown_class = candidate(10, "explorer.exe");
    unknown_class.class_name = None;
    assert!(admit_window(&unknown_class, &filter, 1, &none).is_none());
    let mut file_manager = candidate(10, "explorer.exe");
    file_manager.class_name = Some("CabinetWClass".to_string());
    let w = admit_window(&file_manager, &filter, 1, &none).unwrap();
    assert_eq!(w.category, AppCategory::System);
}

#[test]
fn filter_windows_keeps_order_and_attributes() {
    let filter = TargetFilter::Universal;
    let none: Vec<Vec<u8>> = Vec::new();
    let mut skipped = candidate(2, "chrome.exe");
    skipped.is_visible = false;
    let cands = vec![candidate(1, "chrome.exe"), skipped, candidate(3, "Code.exe")];
    let ws = filter_windows(&cands, &filter, 99, &none);
    assert_eq!(ws.len(), 2);
    assert_eq!(ws[0].hwnd, 1);
    assert_eq!(ws[0].process_name, "chrome.exe");
    assert_eq!(ws[0].category, AppCategory::Browser);
    assert_eq!(ws[0].title, "chrome.exe window");
    assert_eq!(ws[1].hwnd, 3);
    assert_eq!(ws[1].category, AppCategory::Editor);
    assert!(!ws[1].is_minimized);
}

fn monitor(index: usize, primary: bool) -> MonitorInfo {
    MonitorInfo {
        index,
        is_primary: primary,
        work_area: rect(1000 + index as i32, 1000),
    }
}

#[test]
fn resolve_monitor_specifications() {
    let monitors = vec![monitor(0, false), monitor(1, true), monitor(2, false)];
    assert_eq!(resolve_monitor(&monitors, "primary").index, 1);
    assert_eq!(resolve_monitor(&monitors, "").index, 1);
    assert_eq!(resolve_monitor(&monitors, "2").index, 2);
    assert_eq!(resolve_monitor(&monitors, "0").index, 0);
    // Out of range falls back to the first monitor.
    assert_eq!(resolve_monitor(&monitors, "9").index, 0);
    // Anything else behaves like "primary".
    assert_eq!(resolve_monitor(&monitors, "left").index, 1);
    // Without a primary, the first monitor stands in.
    let no_primary = vec![monitor(0, false), monitor(1, false)];
    assert_eq!(resolve_monitor(&no_primary, "primary").index, 0);
    assert_eq!(resolve_monitor(&no_primary, "junk").index, 0);
}
