use clear_codex::{
    AppLanguage, AppSnapshot, AppState, CloseMode, DockMode, OpacityMode, SessionMetadata, SessionStatus,
    UiNoticeEvent, WindowMode,
};

fn stored(id: &str, title: &str, pid: Option<u32>) -> SessionMetadata {
    SessionMetadata {
        id: id.to_string(),
        title: title.to_string(),
        cwd: ".".to_string(),
        shell: "ConPTY".to_string(),
        codex_command: "codex".to_string(),
        status: SessionStatus::Running,
        persist_on_close: true,
        pid,
        exit_code: None,
        reconnectable: true,
    }
}

fn notice(title: &str) -> UiNoticeEvent {
    UiNoticeEvent { level: "info".to_string(), title: title.to_string(), detail: String::new() }
}

fn empty_state() -> AppState {
    AppState::new(AppSnapshot::default(), &[])
}

#[test]
fn default_snapshot_and_window() {
    let snap = AppSnapshot::default();
    assert!(snap.sessions.is_empty());
    assert!(snap.active_session_id.is_none());
    assert_eq!(
        snap.window,
        WindowMode {
            always_on_top: true,
            click_through: false,
            dock_mode: DockMode::TopBar,
            language: AppLanguage::ZhCn,
            onboarding_completed: false,
            position_pinned: false,
            opacity_mode: OpacityMode::Focus,
        }
    );
    assert_eq!(WindowMode::default(), snap.window);
}

#[test]
fn create_makes_the_new_tab_active() {
    let mut st = empty_state();
    let s = st.create_session(".".to_string(), None, "codex".to_string(), Some(1));
    assert_eq!(st.active_session_id(), Some(s.id.clone()));
    assert_eq!(s.title, "Codex 1");
    let snap = st.snapshot();
    assert_eq!(snap.sessions.len(), 1);
    assert_eq!(snap.active_session_id, Some(s.id));
}

#[test]
fn attach_makes_the_tab_active() {
    let snapshot = AppSnapshot {
        window: WindowMode::default(),
        sessions: vec![stored("a", "one", Some(5)), stored("b", "two", None)],
        active_session_id: Some("b".to_string()),
    };
    let mut st = AppState::new(snapshot, &[5]);
    assert_eq!(st.active_session_id(), Some("b".to_string()));
    let a = st.attach_session("a").unwrap();
    assert_eq!(a.status, SessionStatus::Detached);
    assert_eq!(st.active_session_id(), Some("a".to_string()));
    assert!(st.attach_session("zzz").is_err());
    assert_eq!(st.active_session_id(), Some("a".to_string()));
}

#[test]
fn closing_the_active_tab_moves_to_first_open_tab_by_title() {
    let snapshot = AppSnapshot {
        window: WindowMode::default(),
        sessions: vec![
            stored("c", "charlie", Some(3)),
            stored("a", "alpha", Some(1)),
            stored("b", "bravo", None),
            stored("d", "delta", Some(4)),
        ],
        active_session_id: Some("a".to_string()),
    };
    // Alive: 1, 3, 4. "b" has no pid and is restored as exited.
    let mut st = AppState::new(snapshot, &[1, 3, 4]);
    let closed = st.close_session("a", CloseMode::Detach).unwrap();
    assert_eq!(closed.status, SessionStatus::Detached);
    // "a" itself is excluded, "b" has exited, so "charlie" comes first.
    assert_eq!(st.active_session_id(), Some("c".to_string()));
}

#[test]
fn closing_another_tab_keeps_the_active_one() {
    let mut st = empty_state();
    let first = st.create_session(".".to_string(), Some("x".to_string()), "codex".to_string(), None);
    let second = st.create_session(".".to_string(), Some("y".to_string()), "codex".to_string(), None);
    assert_eq!(st.active_session_id(), Some(second.id.clone()));
    st.close_session(&first.id, CloseMode::Terminate).unwrap();
    assert_eq!(st.active_session_id(), Some(second.id));
}

#[test]
fn closing_the_last_open_tab_clears_the_active_one() {
    let mut st = empty_state();
    let only = st.create_session(".".to_string(), None, "codex".to_string(), Some(8));
    assert_eq!(st.termination_target(&only.id, CloseMode::Terminate).unwrap(), Some(8));
    let closed = st.close_session(&only.id, CloseMode::Terminate).unwrap();
    assert_eq!(closed.exit_code, Some(-1));
    assert_eq!(st.active_session_id(), None);
}

#[test]
fn closing_an_unknown_tab_changes_nothing() {
    let mut st = empty_state();
    st.set_active_session(Some("ghost".to_string()));
    assert!(st.close_session("nope", CloseMode::Detach).is_err());
    assert_eq!(st.active_session_id(), Some("ghost".to_string()));
}

#[test]
fn notices_come_out_in_order_once() {
    let mut st = empty_state();
    st.push_notice(notice("1"));
    st.push_notice(notice("2"));
    let taken = st.take_notices();
    assert_eq!(taken.iter().map(|n| n.title.as_str()).collect::<Vec<_>>(), vec!["1", "2"]);
    assert!(st.take_notices().is_empty());
}

#[test]
fn window_setters_change_one_mode_each() {
    let mut st = empty_state();
    st.set_click_through(true);
    st.set_always_on_top(false);
    st.set_dock_mode(DockMode::RightRail);
    let w = st.window_mode();
    assert!(w.click_through);
    assert!(!w.always_on_top);
    assert_eq!(w.dock_mode, DockMode::RightRail);
    assert_eq!(w.language, AppLanguage::ZhCn);
    assert_eq!(st.snapshot().window, w);
}

#[test]
fn exit_of_live_session_is_recorded() {
    let mut st = empty_state();
    let s = st.create_session(".".to_string(), None, "codex".to_string(), Some(77));
    assert!(st.get_live_session(&s.id).is_ok());
    let ev = st.record_exit(&s.id, Some(0));
    assert_eq!(ev.exit_code, Some(0));
    assert!(st.get_live_session(&s.id).is_err());
    let snap = st.snapshot();
    assert_eq!(snap.sessions[0].status, SessionStatus::Exited);
    assert_eq!(snap.sessions[0].pid, None);
}

#[test]
fn opacity_follows_focus_and_chosen_mode() {
    let mut st = empty_state();
    assert_eq!(st.opacity_on_focus(true), Some(OpacityMode::Focus));
    assert_eq!(st.opacity_on_focus(false), Some(OpacityMode::Focus));
    st.set_opacity_mode(OpacityMode::Peek);
    assert_eq!(st.window_mode().opacity_mode, OpacityMode::Peek);
    assert_eq!(st.opacity_on_focus(false), Some(OpacityMode::Peek));
    assert_eq!(st.opacity_on_focus(true), Some(OpacityMode::Focus));
    assert_eq!(st.snapshot().window.opacity_mode, OpacityMode::Peek);
    st.set_click_through(true);
    assert_eq!(st.opacity_on_focus(true), None);
    assert_eq!(st.opacity_on_focus(false), None);
}

#[test]
fn opacity_mode_survives_a_restore() {
    let mut st = empty_state();
    st.set_opacity_mode(OpacityMode::Peek);
    let restored = AppState::new(st.snapshot(), &[]);
    assert_eq!(restored.window_mode().opacity_mode, OpacityMode::Peek);
}
