//! The tray window's message handling: which window messages become system
//! messages for the application, which open the tray menu, and which are
//! left to the default handler.

use vstd::prelude::*;
use crate::events::SystemMessage;
use crate::hotkey::{hotkey_action_of, map_hotkey_id_to_action};

verus! {

/// A window is being destroyed.
pub const WM_DESTROY: u32 = 0x0002;
/// A menu entry was chosen; its identifier is in the low word of `wparam`.
pub const WM_COMMAND: u32 = 0x0111;
/// The right mouse button was released.
pub const WM_RBUTTONUP: u32 = 0x0205;
/// A registered hotkey was pressed; its identifier is `wparam`.
pub const WM_HOTKEY: u32 = 0x0312;
/// First message number free for an application's own use.
pub const WM_USER: u32 = 0x0400;
/// The message the tray icon sends; the mouse event is in the low word of
/// `lparam`.
pub const WM_TRAYICON: u32 = WM_USER + 100;

/// What the tray window does with a message.
#[derive(Debug, Clone, Copy, PartialEq, Eq, Structural)]
pub enum WindowMessageOutcome {
    /// Hand this message to the application and report it handled.
    Send(SystemMessage),
    /// Show the tray menu and report the message handled.
    ShowTrayMenu,
    /// Report the message handled and do nothing else.
    Handled,
    /// Leave the message to the default window procedure.
    PassOn,
}

/// The outcome for message `msg`, with `taskbar_id` the number the shell
/// broadcasts when it restarts (zero while unknown): a shell restart asks for
/// the tray icon again; a hotkey with a known identifier is handed on, an
/// unknown one dropped; a right click on the tray icon opens the menu, other
/// tray icon events are dropped; a menu command is handed on with its
/// identifier; the window's destruction asks to shut down; anything else goes
/// to the default handler.
pub open spec fn window_message_outcome(msg: u32, wparam: usize, lparam: isize, taskbar_id: u32) -> WindowMessageOutcome {
    if taskbar_id != 0 && msg == taskbar_id {
        WindowMessageOutcome::Send(SystemMessage::ExplorerRestarted)
    } else if msg == WM_HOTKEY {
        match hotkey_action_of(wparam as i32) {
            Some(action) => WindowMessageOutcome::Send(SystemMessage::Hotkey(action)),
            None => WindowMessageOutcome::Handled,
        }
    } else if msg == WM_TRAYICON {
        if (lparam & 0xffff) as u32 == WM_RBUTTONUP {
            WindowMessageOutcome::ShowTrayMenu
        } else {
            WindowMessageOutcome::Handled
        }
    } else if msg == WM_COMMAND {
        WindowMessageOutcome::Send(SystemMessage::TrayAction(wparam & 0xffff))
    } else if msg == WM_DESTROY {
        WindowMessageOutcome::Send(SystemMessage::ShutdownRequested)
    } else {
        WindowMessageOutcome::PassOn
    }
}

/// Decides what the tray window does with a message (see
/// `window_message_outcome`).
pub fn route_window_message(msg: u32, wparam: usize, lparam: isize, taskbar_id: u32) -> (r: WindowMessageOutcome)
    ensures
        r == window_message_outcome(msg, wparam, lparam, taskbar_id),
{
    if taskbar_id != 0 && msg == taskbar_id {
        WindowMessageOutcome::Send(SystemMessage::ExplorerRestarted)
    } else if msg == WM_HOTKEY {
        let id = wparam as i32;
        match map_hotkey_id_to_action(id) {
            Some(action) => WindowMessageOutcome::Send(SystemMessage::Hotkey(action)),
            None => WindowMessageOutcome::Handled,
        }
    } else if msg == WM_TRAYICON {
        let event = (lparam & 0xffff) as u32;
        if event == WM_RBUTTONUP {
            WindowMessageOutcome::ShowTrayMenu
        } else {
            WindowMessageOutcome::Handled
        }
    } else if msg == WM_COMMAND {
        WindowMessageOutcome::Send(SystemMessage::TrayAction(wparam & 0xffff))
    } else if msg == WM_DESTROY {
        WindowMessageOutcome::Send(SystemMessage::ShutdownRequested)
    } else {
        WindowMessageOutcome::PassOn
    }
}

} // verus!
