//! The values that the overlay keeps, shows and stores.

use vstd::prelude::*;

verus! {

/// Where a Codex session stands.
#[derive(Clone, Copy, Debug, PartialEq, Eq, Structural)]
pub enum SessionStatus {
    Starting,
    Running,
    Exited,
    Failed,
    Detached,
}

/// How a session tab is closed: keep the process running, or end it.
#[derive(Clone, Copy, Debug, PartialEq, Eq, Structural)]
pub enum CloseMode {
    Detach,
    Terminate,
}

/// Where the overlay window docks.
#[derive(Clone, Copy, Debug, PartialEq, Eq, Structural)]
pub enum DockMode {
    TopBar,
    RightRail,
}

/// The language of the overlay's interface.
#[derive(Clone, Copy, Debug, PartialEq, Eq, Structural)]
pub enum AppLanguage {
    ZhCn,
    En,
}

/// How opaque the overlay is shown: fully, or faded so it stays out of the
/// way ("peek").
#[derive(Clone, Copy, Debug, PartialEq, Eq, Structural)]
pub enum OpacityMode {
    Focus,
    Peek,
}

/// What is known of one Codex session tab.
#[derive(Debug)]
pub struct SessionMetadata {
    pub id: String,
    pub title: String,
    pub cwd: String,
    pub shell: String,
    pub codex_command: String,
    pub status: SessionStatus,
    pub persist_on_close: bool,
    pub pid: Option<u32>,
    pub exit_code: Option<i32>,
    pub reconnectable: bool,
}

/// A session's metadata with its strings taken as character sequences.
pub struct SessionMetadataView {
    pub id: Seq<char>,
    pub title: Seq<char>,
    pub cwd: Seq<char>,
    pub shell: Seq<char>,
    pub codex_command: Seq<char>,
    pub status: SessionStatus,
    pub persist_on_close: bool,
    pub pid: Option<u32>,
    pub exit_code: Option<i32>,
    pub reconnectable: bool,
}

impl View for SessionMetadata {
    type V = SessionMetadataView;

    open spec fn view(&self) -> SessionMetadataView {
        SessionMetadataView {
            id: self.id@,
            title: self.title@,
            cwd: self.cwd@,
            shell: self.shell@,
            codex_command: self.codex_command@,
            status: self.status,
            persist_on_close: self.persist_on_close,
            pid: self.pid,
            exit_code: self.exit_code,
            reconnectable: self.reconnectable,
        }
    }
}

impl Clone for SessionMetadata {
    fn clone(&self) -> (r: Self)
        ensures
            r == *self,
    {
        SessionMetadata {
            id: self.id.clone(),
            title: self.title.clone(),
            cwd: self.cwd.clone(),
            shell: self.shell.clone(),
            codex_command: self.codex_command.clone(),
            status: self.status,
            persist_on_close: self.persist_on_close,
            pid: self.pid,
            exit_code: self.exit_code,
            reconnectable: self.reconnectable,
        }
    }
}

/// A chunk of terminal output of one session.
#[derive(Debug)]
pub struct SessionOutputEvent {
    pub session_id: String,
    pub data: String,
}

/// A change of one session's status.
#[derive(Debug)]
pub struct SessionStatusEvent {
    pub session_id: String,
    pub status: SessionStatus,
    pub exit_code: Option<i32>,
    pub message: Option<String>,
}

/// A notice for the user interface.
#[derive(Debug)]
pub struct UiNoticeEvent {
    pub level: String,
    pub title: String,
    pub detail: String,
}

impl Clone for UiNoticeEvent {
    fn clone(&self) -> (r: Self)
        ensures
            r == *self,
    {
        UiNoticeEvent {
            level: self.level.clone(),
            title: self.title.clone(),
            detail: self.detail.clone(),
        }
    }
}

/// The overlay window's modes: everything of the window's state but its
/// alpha value and geometry.
#[derive(Clone, Copy, Debug, PartialEq, Eq, Structural)]
pub struct WindowMode {
    pub always_on_top: bool,
    pub click_through: bool,
    pub dock_mode: DockMode,
    pub language: AppLanguage,
    pub onboarding_completed: bool,
    pub position_pinned: bool,
    pub opacity_mode: OpacityMode,
}

impl WindowMode {
    /// The modes with another click-through setting.
    pub open spec fn with_click_through(self, click_through: bool) -> Self {
        WindowMode { click_through, ..self }
    }

    /// The modes with another always-on-top setting.
    pub open spec fn with_always_on_top(self, always_on_top: bool) -> Self {
        WindowMode { always_on_top, ..self }
    }

    /// The modes with another opacity mode.
    pub open spec fn with_opacity_mode(self, opacity_mode: OpacityMode) -> Self {
        WindowMode { opacity_mode, ..self }
    }

    /// The modes with another dock.
    pub open spec fn with_dock_mode(self, dock_mode: DockMode) -> Self {
        WindowMode { dock_mode, ..self }
    }
}

/// The modes a window starts with.
pub open spec fn default_window_mode() -> WindowMode {
    WindowMode {
        always_on_top: true,
        click_through: false,
        dock_mode: DockMode::TopBar,
        language: AppLanguage::ZhCn,
        onboarding_completed: false,
        position_pinned: false,
        opacity_mode: OpacityMode::Focus,
    }
}

impl Default for WindowMode {
    fn default() -> (r: Self)
        ensures
            r == default_window_mode(),
    {
        WindowMode {
            always_on_top: true,
            click_through: false,
            dock_mode: DockMode::TopBar,
            language: AppLanguage::ZhCn,
            onboarding_completed: false,
            position_pinned: false,
            opacity_mode: OpacityMode::Focus,
        }
    }
}

/// What is stored between runs: the window's modes, the session tabs and
/// the active tab.
#[derive(Debug)]
pub struct AppSnapshot {
    pub window: WindowMode,
    pub sessions: Vec<SessionMetadata>,
    pub active_session_id: Option<String>,
}

impl Default for AppSnapshot {
    fn default() -> (r: Self)
        ensures
            r.window == default_window_mode(),
            r.sessions@.len() == 0,
            r.active_session_id is None,
    {
        AppSnapshot { window: WindowMode::default(), sessions: Vec::new(), active_session_id: None }
    }
}

} // verus!
