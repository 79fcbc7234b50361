//! The overlay's state: its session tabs, the active tab, the window's modes
//! and the notices waiting for the interface.

use vstd::prelude::*;

use crate::models::{
    AppSnapshot, CloseMode, DockMode, OpacityMode, SessionMetadata, SessionMetadataView, SessionStatus,
    SessionStatusEvent, UiNoticeEvent, WindowMode,
};
use crate::session::{
    attached, closed, exited, ids_distinct, is_live, is_v4_uuid_text, new_session, default_title,
    restored_map, sorted_by_title, views, SessionError, SessionManager,
};
use crate::text::{lemma_text_le_refl, str_eq, text_le};

verus! {

broadcast use vstd::string::group_string_axioms;

/// The session `m` under `id` is one that the active tab may move to when
/// the tab `closed_id` is closed: another tab whose process has not exited.
pub open spec fn is_candidate(id: Seq<char>, m: SessionMetadataView, closed_id: Seq<char>) -> bool {
    id != closed_id && m.status != SessionStatus::Exited
}

/// `next` is where the active tab moves when the tab `closed_id` is closed:
/// the candidate (see `is_candidate`) that comes first by title, or none
/// where there is no candidate.
pub open spec fn is_next_active(
    next: Option<Seq<char>>,
    sessions: Map<Seq<char>, SessionMetadataView>,
    closed_id: Seq<char>,
) -> bool {
    match next {
        None => forall|k: Seq<char>| #[trigger]
            sessions.contains_key(k) ==> !is_candidate(k, sessions[k], closed_id),
        Some(x) => {
            &&& sessions.contains_key(x)
            &&& is_candidate(x, sessions[x], closed_id)
            &&& forall|k: Seq<char>| #[trigger]
                sessions.contains_key(k) && is_candidate(k, sessions[k], closed_id) ==> text_le(
                    sessions[x].title,
                    sessions[k].title,
                )
        },
    }
}

/// The exit code recorded for a process whose exit status reported
/// `exit_status`: that code taken as an `i32`, or -1 without one.
pub open spec fn exit_code_of(exit_status: Option<u32>) -> i32 {
    match exit_status {
        Some(c) => c as i32,
        None => -1i32,
    }
}

/// The text of an optional string.
pub open spec fn opt_text(s: Option<String>) -> Option<Seq<char>> {
    match s {
        Some(t) => Some(t@),
        None => None,
    }
}

/// The overlay's state as the contracts see it.
pub struct AppStateView {
    pub active_session_id: Option<Seq<char>>,
    pub notices: Seq<UiNoticeEvent>,
    pub sessions: Map<Seq<char>, SessionMetadataView>,
    pub window: WindowMode,
}

impl AppStateView {
    /// The state with another active tab.
    pub open spec fn with_active(self, active_session_id: Option<Seq<char>>) -> Self {
        AppStateView { active_session_id, ..self }
    }

    /// The state with other queued notices.
    pub open spec fn with_notices(self, notices: Seq<UiNoticeEvent>) -> Self {
        AppStateView { notices, ..self }
    }

    /// The state with other sessions.
    pub open spec fn with_sessions(self, sessions: Map<Seq<char>, SessionMetadataView>) -> Self {
        AppStateView { sessions, ..self }
    }

    /// The state with other window modes.
    pub open spec fn with_window(self, window: WindowMode) -> Self {
        AppStateView { window, ..self }
    }
}

/// The overlay's state.
pub struct AppState {
    active_session_id: Option<String>,
    notices: Vec<UiNoticeEvent>,
    session_manager: SessionManager,
    window: WindowMode,
}

impl View for AppState {
    type V = AppStateView;

    closed spec fn view(&self) -> AppStateView {
        AppStateView {
            active_session_id: opt_text(self.active_session_id),
            notices: self.notices@,
            sessions: self.session_manager@,
            window: self.window,
        }
    }
}

impl AppState {
    /// The state's invariant: that of its session registry.
    pub closed spec fn wf(&self) -> bool {
        self.session_manager.wf()
    }

    /// The state restored from a stored snapshot, given the pids of the
    /// processes that were found alive (see `SessionManager::from_snapshot`).
    pub fn new(snapshot: AppSnapshot, live_pids: &[u32]) -> (r: Self)
        ensures
            r.wf(),
            r@.active_session_id == opt_text(snapshot.active_session_id),
            r@.notices.len() == 0,
            r@.sessions == restored_map(views(snapshot.sessions@), live_pids@),
            r@.window == snapshot.window,
    {
        let session_manager = SessionManager::from_snapshot(snapshot.sessions.as_slice(), live_pids);
        AppState {
            active_session_id: snapshot.active_session_id,
            notices: Vec::new(),
            session_manager,
            window: snapshot.window,
        }
    }

    /// What is stored: the window's modes, every session in order of title
    /// (see `SessionManager::list`) and the active tab.
    pub fn snapshot(&self) -> (r: AppSnapshot)
        requires
            self.wf(),
        ensures
            r.window == self@.window,
            opt_text(r.active_session_id) == self@.active_session_id,
            sorted_by_title(views(r.sessions@)),
            ids_distinct(views(r.sessions@)),
            self@.sessions.dom().finite(),
            r.sessions@.len() == self@.sessions.dom().len(),
            forall|i: int|
                0 <= i < r.sessions@.len() ==> self@.sessions.contains_key(
                    #[trigger] r.sessions@[i].id@,
                ) && self@.sessions[r.sessions@[i].id@] == r.sessions@[i]@,
            forall|k: Seq<char>| #[trigger]
                self@.sessions.contains_key(k) ==> exists|i: int|
                    0 <= i < r.sessions@.len() && r.sessions@[i].id@ == k,
    {
        proof {
            self.session_manager.lemma_finite();
        }
        AppSnapshot {
            window: self.window,
            sessions: self.session_manager.list(),
            active_session_id: match &self.active_session_id {
                Some(a) => Some(a.clone()),
                None => None,
            },
        }
    }

    /// The session registry.
    pub fn session_manager(&self) -> (r: &SessionManager)
        requires
            self.wf(),
        ensures
            r.wf(),
            r@ == self@.sessions,
    {
        &self.session_manager
    }

    /// The active tab's session id.
    pub fn active_session_id(&self) -> (r: Option<String>)
        ensures
            opt_text(r) == self@.active_session_id,
    {
        match &self.active_session_id {
            Some(a) => Some(a.clone()),
            None => None,
        }
    }

    /// Makes `session_id` the active tab (or none).
    pub fn set_active_session(&mut self, session_id: Option<String>)
        requires
            old(self).wf(),
        ensures
            final(self).wf(),
            final(self)@ == old(self)@.with_active(opt_text(session_id)),
    {
        self.active_session_id = session_id;
    }

    /// Queues a notice for the interface.
    pub fn push_notice(&mut self, notice: UiNoticeEvent)
        requires
            old(self).wf(),
        ensures
            final(self).wf(),
            final(self)@ == old(self)@.with_notices(old(self)@.notices.push(notice)),
    {
        self.notices.push(notice);
    }

    /// Hands out the queued notices, oldest first, and empties the queue.
    pub fn take_notices(&mut self) -> (r: Vec<UiNoticeEvent>)
        requires
            old(self).wf(),
        ensures
            final(self).wf(),
            r@ == old(self)@.notices,
            final(self)@ == old(self)@.with_notices(Seq::empty()),
    {
        let mut drained: Vec<UiNoticeEvent> = Vec::new();
        std::mem::swap(&mut drained, &mut self.notices);
        proof {
            assert(self.notices@ =~= Seq::<UiNoticeEvent>::empty());
        }
        drained
    }

    /// The window's modes.
    pub fn window_mode(&self) -> (r: WindowMode)
        ensures
            r == self@.window,
    {
        self.window
    }

    /// Sets whether the window lets the mouse through.
    pub fn set_click_through(&mut self, click_through: bool)
        requires
            old(self).wf(),
        ensures
            final(self).wf(),
            final(self)@ == old(self)@.with_window(old(self)@.window.with_click_through(click_through)),
    {
        self.window.click_through = click_through;
    }

    /// Sets whether the window stays above other windows.
    pub fn set_always_on_top(&mut self, always_on_top: bool)
        requires
            old(self).wf(),
        ensures
            final(self).wf(),
            final(self)@ == old(self)@.with_window(old(self)@.window.with_always_on_top(always_on_top)),
    {
        self.window.always_on_top = always_on_top;
    }

    /// Sets where the window docks.
    pub fn set_dock_mode(&mut self, dock_mode: DockMode)
        requires
            old(self).wf(),
        ensures
            final(self).wf(),
            final(self)@ == old(self)@.with_window(old(self)@.window.with_dock_mode(dock_mode)),
    {
        self.window.dock_mode = dock_mode;
    }

    /// Sets how opaque the overlay is shown while it does not have the focus.
    pub fn set_opacity_mode(&mut self, opacity_mode: OpacityMode)
        requires
            old(self).wf(),
        ensures
            final(self).wf(),
            final(self)@ == old(self)@.with_window(old(self)@.window.with_opacity_mode(opacity_mode)),
    {
        self.window.opacity_mode = opacity_mode;
    }

    /// The opacity to show when the window gains (`focused`) or loses the
    /// focus: none while the mouse passes through it, full opacity with the
    /// focus, and the chosen opacity mode without it.
    pub fn opacity_on_focus(&self, focused: bool) -> (r: Option<OpacityMode>)
        ensures
            r == if self@.window.click_through {
                None
            } else if focused {
                Some(OpacityMode::Focus)
            } else {
                Some(self@.window.opacity_mode)
            },
    {
        if self.window.click_through {
            None
        } else if focused {
            Some(OpacityMode::Focus)
        } else {
            Some(self.window.opacity_mode)
        }
    }

    /// Registers a newly started session (see `SessionManager::create_session`)
    /// and makes it the active tab.
    pub fn create_session(
        &mut self,
        cwd: String,
        title: Option<String>,
        codex_command: String,
        pid: Option<u32>,
    ) -> (m: SessionMetadata)
        requires
            old(self).wf(),
            old(self)@.sessions.dom().len() < usize::MAX,
        ensures
            final(self).wf(),
            is_v4_uuid_text(m.id@),
            m@ == new_session(
                m.id@,
                match title {
                    Some(t) => t@,
                    None => default_title(old(self)@.sessions.dom().len()),
                },
                cwd@,
                codex_command@,
                pid,
            ),
            final(self)@ == old(self)@.with_sessions(old(self)@.sessions.insert(m.id@, m@)).with_active(
                Some(m.id@),
            ),
    {
        let m = self.session_manager.create_session(cwd, title, codex_command, pid);
        self.active_session_id = Some(m.id.clone());
        m
    }

    /// Attaches a tab (see `SessionManager::attach_session`) and makes it the
    /// active tab; nothing changes for an unknown id.
    pub fn attach_session(&mut self, id: &str) -> (r: Result<SessionMetadata, SessionError>)
        requires
            old(self).wf(),
        ensures
            final(self).wf(),
            match r {
                Ok(m) => {
                    &&& old(self)@.sessions.contains_key(id@)
                    &&& m@ == attached(old(self)@.sessions[id@])
                    &&& final(self)@ == old(self)@.with_sessions(
                        old(self)@.sessions.insert(id@, m@),
                    ).with_active(Some(id@))
                },
                Err(e) => {
                    &&& !old(self)@.sessions.contains_key(id@)
                    &&& e matches SessionError::NotFound(x) && x@ == id@
                    &&& final(self)@ == old(self)@
                },
            },
    {
        let m = self.session_manager.attach_session(id)?;
        self.active_session_id = Some(m.id.clone());
        Ok(m)
    }

    /// The process to end before the tab `id` is closed in `mode` (see
    /// `SessionManager::termination_target`).
    pub fn termination_target(&self, id: &str, mode: CloseMode) -> (r: Result<
        Option<u32>,
        SessionError,
    >)
        requires
            self.wf(),
        ensures
            match r {
                Ok(pid) => self@.sessions.contains_key(id@) && pid == match mode {
                    CloseMode::Terminate => self@.sessions[id@].pid,
                    CloseMode::Detach => None,
                },
                Err(e) => !self@.sessions.contains_key(id@) && (e matches SessionError::NotFound(
                    x,
                ) && x@ == id@),
            },
    {
        self.session_manager.termination_target(id, mode)
    }

    /// Closes the tab `id` in `mode` (see `SessionManager::close_session`).
    /// When it was the active tab, the active tab moves to the first
    /// remaining tab by title whose process has not exited, or to none (see
    /// `is_next_active`); otherwise the active tab stays.
    pub fn close_session(&mut self, id: &str, mode: CloseMode) -> (r: Result<
        SessionMetadata,
        SessionError,
    >)
        requires
            old(self).wf(),
        ensures
            final(self).wf(),
            match r {
                Ok(m) => {
                    &&& old(self)@.sessions.contains_key(id@)
                    &&& m@ == closed(old(self)@.sessions[id@], mode)
                    &&& final(self)@.sessions == old(self)@.sessions.insert(id@, m@)
                    &&& final(self)@.notices == old(self)@.notices
                    &&& final(self)@.window == old(self)@.window
                    &&& if old(self)@.active_session_id == Some(id@) {
                        is_next_active(final(self)@.active_session_id, final(self)@.sessions, id@)
                    } else {
                        final(self)@.active_session_id == old(self)@.active_session_id
                    }
                },
                Err(e) => {
                    &&& !old(self)@.sessions.contains_key(id@)
                    &&& e matches SessionError::NotFound(x) && x@ == id@
                    &&& final(self)@ == old(self)@
                },
            },
    {
        let m = self.session_manager.close_session(id, mode)?;
        let was_active = match &self.active_session_id {
            Some(a) => str_eq(a.as_str(), m.id.as_str()),
            None => false,
        };
        if was_active {
            self.active_session_id = self.next_active(m.id.as_str());
        }
        Ok(m)
    }

    /// The first tab by title, other than `closed_id`, whose process has not
    /// exited.
    #[verifier::loop_isolation(false)]
    fn next_active(&self, closed_id: &str) -> (r: Option<String>)
        requires
            self.wf(),
        ensures
            is_next_active(opt_text(r), self@.sessions, closed_id@),
    {
        let list = self.session_manager.list();
        let ghost sessions = self.session_manager@;
        let mut i: usize = 0;
        while i < list.len()
            invariant
                i <= list@.len(),
                forall|j: int| 0 <= j < i ==> !is_candidate((#[trigger] list@[j]).id@, list@[j]@, closed_id@),
            decreases list@.len() - i,
        {
            if !str_eq(list[i].id.as_str(), closed_id) && list[i].status != SessionStatus::Exited {
                let r = list[i].id.clone();
                proof {
                    let x = list@[i as int];
                    assert forall|k: Seq<char>| #[trigger]
                        sessions.contains_key(k) && is_candidate(k, sessions[k], closed_id@) implies text_le(
                        sessions[r@].title,
                        sessions[k].title,
                    ) by {
                        let q = choose|q: int| 0 <= q < list@.len() && list@[q].id@ == k;
                        assert(sessions[list@[q].id@] == list@[q]@);
                        if q < i {
                            assert(!is_candidate(list@[q].id@, list@[q]@, closed_id@));
                        } else if q == i {
                            lemma_text_le_refl(x.title@);
                        } else {
                            assert(views(list@)[i as int] == x@);
                            assert(views(list@)[q] == list@[q]@);
                        }
                    }
                }
                return Some(r);
            }
            i += 1;
        }
        proof {
            assert forall|k: Seq<char>| #[trigger] sessions.contains_key(k) implies !is_candidate(
                k,
                sessions[k],
                closed_id@,
            ) by {
                let q = choose|q: int| 0 <= q < list@.len() && list@[q].id@ == k;
                assert(sessions[list@[q].id@] == list@[q]@);
            }
        }
        None
    }

    /// The session with the given id if input and resizing may reach it (see
    /// `SessionManager::get_live_session`).
    pub fn get_live_session(&self, id: &str) -> (r: Result<SessionMetadata, SessionError>)
        requires
            self.wf(),
        ensures
            match r {
                Ok(m) => self@.sessions.contains_key(id@) && is_live(self@.sessions[id@]) && m@
                    == self@.sessions[id@],
                Err(SessionError::NotFound(x)) => !self@.sessions.contains_key(id@) && x@ == id@,
                Err(SessionError::NotAttachable(x)) => self@.sessions.contains_key(id@)
                    && !is_live(self@.sessions[id@]) && x@ == id@,
            },
    {
        self.session_manager.get_live_session(id)
    }

    /// Records the end of a session's process (see
    /// `SessionManager::record_exit`) and gives the event to announce.
    pub fn record_exit(&mut self, id: &str, exit_status: Option<u32>) -> (ev: SessionStatusEvent)
        requires
            old(self).wf(),
        ensures
            final(self).wf(),
            ev.session_id@ == id@,
            ev.status == SessionStatus::Exited,
            ev.exit_code == match exit_status {
                Some(c) => Some(c as i32),
                None => None::<i32>,
            },
            ev.message is None,
            old(self)@.sessions.contains_key(id@) ==> final(self)@ == old(self)@.with_sessions(
                old(self)@.sessions.insert(
                    id@,
                    exited(old(self)@.sessions[id@], exit_code_of(exit_status)),
                ),
            ),
            !old(self)@.sessions.contains_key(id@) ==> final(self)@ == old(self)@,
    {
        self.session_manager.record_exit(id, exit_status)
    }
}

/// The state after the notices `ns` were queued one by one (see
/// `AppState::push_notice`).
pub open spec fn pushed_all(v: AppStateView, ns: Seq<UiNoticeEvent>) -> AppStateView
    decreases ns.len(),
{
    if ns.len() == 0 {
        v
    } else {
        let w = pushed_all(v, ns.drop_last());
        w.with_notices(w.notices.push(ns.last()))
    }
}

/// Notices come out in the order they went in: after queueing `ns` one by
/// one (each `push_notice` is one step of `pushed_all`), the queue, which is
/// what `take_notices` hands out, is the earlier queue followed by `ns`, and
/// nothing else of the state changed; after that take the queue is empty.
pub proof fn lemma_notices_in_order(v: AppStateView, ns: Seq<UiNoticeEvent>, n: UiNoticeEvent)
    ensures
        pushed_all(v, ns.push(n)) == pushed_all(v, ns).with_notices(
            pushed_all(v, ns).notices.push(n),
        ),
        pushed_all(v, ns) == v.with_notices(v.notices + ns),
        pushed_all(v, ns).notices == v.notices + ns,
        pushed_all(v, ns).with_notices(Seq::empty()) == v.with_notices(Seq::empty()),
    decreases ns.len(),
{
    assert(ns.push(n).drop_last() =~= ns);
    if ns.len() > 0 {
        lemma_notices_in_order(v, ns.drop_last(), ns.last());
        assert((v.notices + ns.drop_last()).push(ns.last()) =~= v.notices + ns);
    } else {
        assert(v.notices + ns =~= v.notices);
    }
}

/// Where the active tab goes when the tab `closed_id` is closed, in terms
/// of the sessions alone: to none only when every other session's process
/// has exited (so any other running, detached, starting or failed session is
/// taken); otherwise to a session other than the closed one whose process has
/// not exited, with no such session before it by title.
pub proof fn lemma_next_active_law(
    next: Option<Seq<char>>,
    sessions: Map<Seq<char>, SessionMetadataView>,
    closed_id: Seq<char>,
)
    requires
        is_next_active(next, sessions, closed_id),
    ensures
        next is None ==> forall|k: Seq<char>| #[trigger]
            sessions.contains_key(k) ==> k == closed_id || sessions[k].status
                == SessionStatus::Exited,
        next is None ==> forall|k: Seq<char>| #[trigger]
            sessions.contains_key(k) && k != closed_id ==> sessions[k].status
                != SessionStatus::Running,
        next matches Some(x) ==> {
            &&& x != closed_id
            &&& sessions.contains_key(x)
            &&& sessions[x].status != SessionStatus::Exited
            &&& forall|k: Seq<char>| #[trigger]
                sessions.contains_key(k) && k != closed_id && sessions[k].status
                    != SessionStatus::Exited ==> text_le(sessions[x].title, sessions[k].title)
        },
{
    if next is None {
        assert forall|k: Seq<char>| #[trigger] sessions.contains_key(k) implies k == closed_id
            || sessions[k].status == SessionStatus::Exited by {
            assert(!is_candidate(k, sessions[k], closed_id));
        }
    } else {
        let x = next->0;
        assert forall|k: Seq<char>| #[trigger]
            sessions.contains_key(k) && k != closed_id && sessions[k].status
                != SessionStatus::Exited implies text_le(sessions[x].title, sessions[k].title) by {
            assert(is_candidate(k, sessions[k], closed_id));
        }
    }
}

/// Closing the active tab never leaves the closed tab, or one whose process
/// has exited, active.
pub proof fn lemma_next_active_valid(
    next: Option<Seq<char>>,
    sessions: Map<Seq<char>, SessionMetadataView>,
    closed_id: Seq<char>,
)
    requires
        is_next_active(next, sessions, closed_id),
    ensures
        next != Some(closed_id),
        next matches Some(x) ==> sessions.contains_key(x) && sessions[x].status
            != SessionStatus::Exited,
{
}

} // verus!
