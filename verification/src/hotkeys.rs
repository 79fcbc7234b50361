//! The global hotkeys: which keys are bound, what a press does, and what the
//! user is told when a key cannot be bound.

use vstd::prelude::*;

use crate::models::UiNoticeEvent;
use crate::text::{concat_str, str_eq};

verus! {

broadcast use vstd::string::group_string_axioms;

/// What pressing a bound hotkey does.
#[derive(Debug)]
pub enum HotkeyAction {
    /// Shows the overlay, or hides it.
    ToggleOverlay,
    /// Tells the interface about the press, by the binding's event name.
    Emit(String),
}

/// The hotkeys, as pairs of accelerator and event name.
pub fn hotkey_bindings() -> (r: Vec<(String, String)>)
    ensures
        r@.len() == 5,
        r@[0].0@ == "Ctrl+Alt+Space"@ && r@[0].1@ == "overlay.toggle"@,
        r@[1].0@ == "Ctrl+Alt+N"@ && r@[1].1@ == "session.new"@,
        r@[2].0@ == "Ctrl+Alt+T"@ && r@[2].1@ == "window.click_through"@,
        r@[3].0@ == "Ctrl+Alt+Left"@ && r@[3].1@ == "session.previous"@,
        r@[4].0@ == "Ctrl+Alt+Right"@ && r@[4].1@ == "session.next"@,
{
    let mut r: Vec<(String, String)> = Vec::new();
    r.push(("Ctrl+Alt+Space".to_owned(), "overlay.toggle".to_owned()));
    r.push(("Ctrl+Alt+N".to_owned(), "session.new".to_owned()));
    r.push(("Ctrl+Alt+T".to_owned(), "window.click_through".to_owned()));
    r.push(("Ctrl+Alt+Left".to_owned(), "session.previous".to_owned()));
    r.push(("Ctrl+Alt+Right".to_owned(), "session.next".to_owned()));
    r
}

/// The hotkeys as the interface lists them.
pub fn hotkey_summary() -> (r: Vec<String>)
    ensures
        r@.len() == 4,
        r@[0]@ == "Ctrl+Alt+Space: toggle overlay"@,
        r@[1]@ == "Ctrl+Alt+N: new Codex tab"@,
        r@[2]@ == "Ctrl+Alt+T: toggle click-through"@,
        r@[3]@ == "Ctrl+Alt+Left / Ctrl+Alt+Right: switch tabs"@,
{
    let mut r: Vec<String> = Vec::new();
    r.push("Ctrl+Alt+Space: toggle overlay".to_owned());
    r.push("Ctrl+Alt+N: new Codex tab".to_owned());
    r.push("Ctrl+Alt+T: toggle click-through".to_owned());
    r.push("Ctrl+Alt+Left / Ctrl+Alt+Right: switch tabs".to_owned());
    r
}

/// What a press of the hotkey bound to `event_name` does: the overlay
/// toggle acts on the window, every other one is passed to the interface.
pub fn hotkey_action(event_name: &str) -> (r: HotkeyAction)
    ensures
        event_name@ == "overlay.toggle"@ ==> r is ToggleOverlay,
        event_name@ != "overlay.toggle"@ ==> (r matches HotkeyAction::Emit(name) && name@
            == event_name@),
{
    if str_eq(event_name, "overlay.toggle") {
        HotkeyAction::ToggleOverlay
    } else {
        HotkeyAction::Emit(event_name.to_owned())
    }
}

/// The warning shown when the hotkey `accelerator` could not be bound,
/// with the reason `error`.
pub fn hotkey_failure_notice(accelerator: &str, error: &str) -> (r: UiNoticeEvent)
    ensures
        r.level@ == "warning"@,
        r.title@ == "Hotkey registration failed"@,
        r.detail@ == accelerator@ + ": "@ + error@,
{
    let head = concat_str(accelerator, ": ");
    let detail = concat_str(head.as_str(), error);
    UiNoticeEvent {
        level: "warning".to_owned(),
        title: "Hotkey registration failed".to_owned(),
        detail,
    }
}

} // verus!
