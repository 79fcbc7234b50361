use clear_codex::{hotkey_action, hotkey_bindings, hotkey_failure_notice, hotkey_summary, HotkeyAction};

#[test]
fn bindings_match_the_documented_hotkeys() {
    let b = hotkey_bindings();
    let pairs: Vec<(&str, &str)> = b.iter().map(|(a, e)| (a.as_str(), e.as_str())).collect();
    assert_eq!(
        pairs,
        vec![
            ("Ctrl+Alt+Space", "overlay.toggle"),
            ("Ctrl+Alt+N", "session.new"),
            ("Ctrl+Alt+T", "window.click_through"),
            ("Ctrl+Alt+Left", "session.previous"),
            ("Ctrl+Alt+Right", "session.next"),
        ]
    );
    assert_eq!(hotkey_summary().len(), 4);
    assert_eq!(hotkey_summary()[0], "Ctrl+Alt+Space: toggle overlay");
}

#[test]
fn overlay_toggle_acts_on_the_window() {
    assert!(matches!(hotkey_action("overlay.toggle"), HotkeyAction::ToggleOverlay));
    match hotkey_action("session.next") {
        HotkeyAction::Emit(name) => assert_eq!(name, "session.next"),
        HotkeyAction::ToggleOverlay => panic!("wrong action"),
    }
}

#[test]
fn failure_notice_names_the_key_and_the_reason() {
    let n = hotkey_failure_notice("Ctrl+Alt+N", "already registered");
    assert_eq!(n.level, "warning");
    assert_eq!(n.title, "Hotkey registration failed");
    assert_eq!(n.detail, "Ctrl+Alt+N: already registered");
}
