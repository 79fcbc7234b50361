use clear_codex::{CloseMode, SessionError, SessionManager, SessionMetadata, SessionStatus};

fn stored(id: &str, title: &str, pid: Option<u32>, exit_code: Option<i32>) -> SessionMetadata {
    SessionMetadata {
        id: id.to_string(),
        title: title.to_string(),
        cwd: "C:\\work".to_string(),
        shell: "ConPTY".to_string(),
        codex_command: "C:\\bin\\codex.cmd".to_string(),
        status: SessionStatus::Running,
        persist_on_close: true,
        pid,
        exit_code,
        reconnectable: true,
    }
}

fn registered(m: &mut SessionManager, id: &str, title: Option<&str>, pid: Option<u32>) -> SessionMetadata {
    m.register_session(
        id.to_string(),
        "C:\\work".to_string(),
        title.map(|t| t.to_string()),
        "codex".to_string(),
        pid,
    )
}

#[test]
fn new_sessions_get_numbered_default_titles() {
    let mut m = SessionManager::new();
    let a = registered(&mut m, "a", None, Some(10));
    let b = registered(&mut m, "b", Some("mine"), Some(11));
    let c = registered(&mut m, "c", None, None);
    assert_eq!(a.title, "Codex 1");
    assert_eq!(b.title, "mine");
    assert_eq!(c.title, "Codex 3");
    assert_eq!(m.len(), 3);
}

#[test]
fn new_session_is_running_and_live() {
    let mut m = SessionManager::new();
    let s = registered(&mut m, "a", Some("t"), Some(42));
    assert_eq!(s.status, SessionStatus::Running);
    assert!(s.reconnectable);
    assert!(s.persist_on_close);
    assert_eq!(s.shell, "ConPTY");
    assert_eq!(s.exit_code, None);
    assert_eq!(s.pid, Some(42));
    assert_eq!(s.cwd, "C:\\work");
    assert_eq!(s.codex_command, "codex");
    let live = m.get_live_session("a").unwrap();
    assert_eq!(live.id, "a");
}

#[test]
fn registering_an_existing_id_replaces_it() {
    let mut m = SessionManager::new();
    registered(&mut m, "a", Some("first"), None);
    registered(&mut m, "a", Some("second"), None);
    assert_eq!(m.len(), 1);
    assert_eq!(m.get_session("a").unwrap().title, "second");
}

#[test]
fn create_session_uses_a_v4_uuid() {
    let mut m = SessionManager::new();
    let s = m.create_session("C:\\work".to_string(), None, "codex".to_string(), Some(5));
    assert_eq!(s.id.len(), 36);
    let chars: Vec<char> = s.id.chars().collect();
    for (i, c) in chars.iter().enumerate() {
        if i == 8 || i == 13 || i == 18 || i == 23 {
            assert_eq!(*c, '-');
        } else {
            assert!(c.is_ascii_hexdigit() && !c.is_ascii_uppercase());
        }
    }
    assert_eq!(chars[14], '4');
    assert!("89ab".contains(chars[19]));
    assert_eq!(s.title, "Codex 1");
    let t = m.create_session("C:\\work".to_string(), None, "codex".to_string(), None);
    assert_ne!(s.id, t.id);
    assert_eq!(t.title, "Codex 2");
}

#[test]
fn list_is_sorted_by_title() {
    let mut m = SessionManager::new();
    registered(&mut m, "1", Some("beta"), None);
    registered(&mut m, "2", Some("Alpha"), None);
    registered(&mut m, "3", Some("alpha"), None);
    registered(&mut m, "4", Some("Codex 10"), None);
    registered(&mut m, "5", Some("Codex 9"), None);
    let titles: Vec<String> = m.list().into_iter().map(|s| s.title).collect();
    assert_eq!(titles, vec!["Alpha", "Codex 10", "Codex 9", "alpha", "beta"]);
}

#[test]
fn list_of_empty_registry_is_empty() {
    let m = SessionManager::new();
    assert!(m.list().is_empty());
    assert_eq!(m.len(), 0);
}

#[test]
fn unknown_session_is_not_found() {
    let mut m = SessionManager::new();
    match m.get_session("zz") {
        Err(SessionError::NotFound(id)) => assert_eq!(id, "zz"),
        other => panic!("unexpected {:?}", other),
    }
    match m.attach_session("zz") {
        Err(e) => assert_eq!(e.message(), "session not found: zz"),
        Ok(_) => panic!("attached an unknown session"),
    }
    assert!(m.close_session("zz", CloseMode::Detach).is_err());
    assert!(m.termination_target("zz", CloseMode::Terminate).is_err());
    assert!(m.get_live_session("zz").is_err());
}

#[test]
fn detach_close_makes_session_unattachable() {
    let mut m = SessionManager::new();
    registered(&mut m, "a", Some("t"), Some(9));
    assert_eq!(m.termination_target("a", CloseMode::Detach).unwrap(), None);
    let closed = m.close_session("a", CloseMode::Detach).unwrap();
    assert_eq!(closed.status, SessionStatus::Detached);
    assert!(!closed.reconnectable);
    assert_eq!(closed.pid, Some(9));
    assert_eq!(closed.exit_code, None);
    match m.get_live_session("a") {
        Err(e) => {
            assert!(matches!(e, SessionError::NotAttachable(_)));
            assert_eq!(e.message(), "session a is not currently attachable");
        }
        Ok(_) => panic!("closed session still live"),
    }
    let again = m.attach_session("a").unwrap();
    assert_eq!(again.status, SessionStatus::Detached);
}

#[test]
fn terminate_close_marks_exited() {
    let mut m = SessionManager::new();
    registered(&mut m, "a", Some("t"), Some(9));
    assert_eq!(m.termination_target("a", CloseMode::Terminate).unwrap(), Some(9));
    let closed = m.close_session("a", CloseMode::Terminate).unwrap();
    assert_eq!(closed.status, SessionStatus::Exited);
    assert_eq!(closed.exit_code, Some(-1));
    assert!(!closed.reconnectable);
    assert_eq!(closed.pid, Some(9));
    assert!(m.get_live_session("a").is_err());
}

#[test]
fn terminate_without_pid_needs_no_kill() {
    let mut m = SessionManager::new();
    registered(&mut m, "a", Some("t"), None);
    assert_eq!(m.termination_target("a", CloseMode::Terminate).unwrap(), None);
}

#[test]
fn attach_live_session_keeps_it_running() {
    let mut m = SessionManager::new();
    registered(&mut m, "a", Some("t"), Some(1));
    let s = m.attach_session("a").unwrap();
    assert_eq!(s.status, SessionStatus::Running);
    let s2 = m.attach_session("a").unwrap();
    assert_eq!(s2.status, SessionStatus::Running);
}

#[test]
fn mark_exited_records_code_and_clears_pid() {
    let mut m = SessionManager::new();
    registered(&mut m, "a", Some("t"), Some(3));
    m.mark_exited("a", 7);
    let s = m.get_session("a").unwrap();
    assert_eq!(s.status, SessionStatus::Exited);
    assert_eq!(s.exit_code, Some(7));
    assert_eq!(s.pid, None);
    assert!(!s.reconnectable);
    m.mark_exited("nobody", 1);
    assert_eq!(m.len(), 1);
}

#[test]
fn record_exit_with_and_without_status() {
    let mut m = SessionManager::new();
    registered(&mut m, "a", Some("t"), Some(3));
    registered(&mut m, "b", Some("u"), Some(4));
    let ev = m.record_exit("a", Some(2));
    assert_eq!(ev.session_id, "a");
    assert_eq!(ev.status, SessionStatus::Exited);
    assert_eq!(ev.exit_code, Some(2));
    assert!(ev.message.is_none());
    assert_eq!(m.get_session("a").unwrap().exit_code, Some(2));
    let ev = m.record_exit("b", None);
    assert_eq!(ev.exit_code, None);
    assert_eq!(m.get_session("b").unwrap().exit_code, Some(-1));
    let ev = m.record_exit("c", Some(u32::MAX));
    assert_eq!(ev.exit_code, Some(-1));
    assert_eq!(m.len(), 2);
}

#[test]
fn restore_detaches_live_and_exits_dead_sessions() {
    let snapshot = vec![
        stored("a", "one", Some(100), None),
        stored("b", "two", Some(200), None),
        stored("c", "three", None, Some(3)),
        stored("d", "four", Some(300), Some(5)),
    ];
    let m = SessionManager::from_snapshot(&snapshot, &[100, 999]);
    assert_eq!(m.len(), 4);
    let a = m.get_session("a").unwrap();
    assert_eq!(a.status, SessionStatus::Detached);
    assert_eq!(a.pid, Some(100));
    assert_eq!(a.exit_code, None);
    assert!(!a.reconnectable);
    let b = m.get_session("b").unwrap();
    assert_eq!(b.status, SessionStatus::Exited);
    assert_eq!(b.pid, None);
    assert_eq!(b.exit_code, Some(-1));
    let c = m.get_session("c").unwrap();
    assert_eq!(c.status, SessionStatus::Exited);
    assert_eq!(c.exit_code, Some(3));
    let d = m.get_session("d").unwrap();
    assert_eq!(d.exit_code, Some(5));
    assert_eq!(d.title, "four");
    assert_eq!(d.codex_command, "C:\\bin\\codex.cmd");
    for id in ["a", "b", "c", "d"] {
        assert!(m.get_live_session(id).is_err());
    }
}

#[test]
fn restore_keeps_the_later_of_two_entries_with_one_id() {
    let snapshot = vec![stored("a", "old", None, None), stored("a", "new", None, None)];
    let m = SessionManager::from_snapshot(&snapshot, &[]);
    assert_eq!(m.len(), 1);
    assert_eq!(m.get_session("a").unwrap().title, "new");
}

#[test]
fn list_then_restore_round_trip_keeps_tabs() {
    let mut m = SessionManager::new();
    registered(&mut m, "x", Some("b"), Some(1));
    registered(&mut m, "y", Some("a"), Some(2));
    let listed = m.list();
    let restored = SessionManager::from_snapshot(&listed, &[1]);
    assert_eq!(restored.len(), 2);
    assert_eq!(restored.get_session("x").unwrap().status, SessionStatus::Detached);
    assert_eq!(restored.get_session("y").unwrap().status, SessionStatus::Exited);
    assert_eq!(restored.get_session("y").unwrap().title, "a");
}

#[test]
fn closed_or_exited_sessions_stay_unattachable_after_many_attaches() {
    let mut m = SessionManager::new();
    registered(&mut m, "a", Some("t"), Some(1));
    registered(&mut m, "b", Some("u"), Some(2));
    m.close_session("a", CloseMode::Detach).unwrap();
    m.mark_exited("b", 0);
    for _ in 0..5 {
        assert_eq!(m.attach_session("a").unwrap().status, SessionStatus::Detached);
        assert_eq!(m.attach_session("b").unwrap().status, SessionStatus::Detached);
        assert!(m.get_live_session("a").is_err());
        assert!(m.get_live_session("b").is_err());
    }
}
