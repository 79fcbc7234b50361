//! Session bookkeeping, launcher resolution and overlay state for a
//! floating manager of Codex CLI terminal sessions.
//!
//! - `models`: the values that are kept, shown and stored;
//! - `session`: the registry of session tabs and how their status moves;
//! - `app_state`: the overlay's state around the registry;
//! - `launcher`: how the Codex CLI is started and how a process listing is read;
//! - `hotkeys`: the global hotkeys;
//! - `text`: character-level helpers on strings.

pub mod app_state;
pub mod hotkeys;
pub mod launcher;
pub mod models;
pub mod session;
pub mod text;

pub use app_state::AppState;
pub use hotkeys::{hotkey_action, hotkey_bindings, hotkey_failure_notice, hotkey_summary, HotkeyAction};
pub use launcher::{launch_spec_for, process_listed, resolve_codex_launcher, CodexLaunchSpec, LaunchError};
pub use models::{
    AppLanguage, AppSnapshot, CloseMode, DockMode, OpacityMode, SessionMetadata, SessionOutputEvent,
    SessionStatus, SessionStatusEvent, UiNoticeEvent, WindowMode,
};
pub use session::{SessionError, SessionManager};
