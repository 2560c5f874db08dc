//! Application-level actions, modes and commands.

use vstd::prelude::*;
use crate::coordinates::DesktopPxRect;

verus! {

/// What a global hotkey asks for.
#[derive(Debug, Clone, Copy, PartialEq, Eq, Structural)]
pub enum HotkeyAction {
    Screenshot,
    Longshot,
    ColorPicker,
    Pin,
    Settings,
}

/// What the application is doing.
#[derive(Debug, Clone, Copy, PartialEq, Eq, Structural)]
pub enum AppMode {
    Idle,
    Capturing,
    ColorPicking,
    LongshotCapturing,
    SettingsOpen,
}

/// A request to the application controller.
#[derive(Debug, Clone)]
pub enum AppCommand {
    TriggerScreenshot,
    TriggerLongshot,
    TriggerColorPicker,
    OpenSettings,
    TogglePauseHotkeys,
    ExitApp,
    SelectionConfirmed(DesktopPxRect),
    SelectionCancelled,
    PinCreated { id: String },
    ClosePin { id: String },
}

pub const TRAY_MENU_SCREENSHOT: usize = 2001;
pub const TRAY_MENU_LONGSHOT: usize = 2002;
pub const TRAY_MENU_COLOR: usize = 2003;
pub const TRAY_MENU_SETTINGS: usize = 2004;
pub const TRAY_MENU_EXIT: usize = 2005;

/// A message from the system tray, the global hotkeys or the shell.
#[derive(Debug, Clone, Copy, PartialEq, Eq, Structural)]
pub enum SystemMessage {
    Hotkey(HotkeyAction),
    TrayAction(usize),
    ShutdownRequested,
    ExplorerRestarted,
}

/// What the application does for a system message.
#[derive(Debug, Clone, Copy, PartialEq, Eq, Structural)]
pub enum UiAction {
    TakeScreenshot,
    PickColor,
    TakeLongshot,
    OpenSettings,
    Quit,
    RestoreTrayIcon,
    Ignore,
}

/// The action for a system message: hotkeys and tray entries start the
/// matching task (the pin hotkey takes a screenshot to pin), the exit entry
/// and a shutdown request quit, a restarted shell gets the tray icon back,
/// and unknown tray entries are ignored.
pub fn system_message_action(msg: SystemMessage) -> (a: UiAction)
    ensures
        a == match msg {
            SystemMessage::Hotkey(HotkeyAction::Screenshot) => UiAction::TakeScreenshot,
            SystemMessage::Hotkey(HotkeyAction::Pin) => UiAction::TakeScreenshot,
            SystemMessage::Hotkey(HotkeyAction::ColorPicker) => UiAction::PickColor,
            SystemMessage::Hotkey(HotkeyAction::Settings) => UiAction::OpenSettings,
            SystemMessage::Hotkey(HotkeyAction::Longshot) => UiAction::TakeLongshot,
            SystemMessage::TrayAction(id) => if id == TRAY_MENU_SCREENSHOT {
                UiAction::TakeScreenshot
            } else if id == TRAY_MENU_COLOR {
                UiAction::PickColor
            } else if id == TRAY_MENU_LONGSHOT {
                UiAction::TakeLongshot
            } else if id == TRAY_MENU_SETTINGS {
                UiAction::OpenSettings
            } else if id == TRAY_MENU_EXIT {
                UiAction::Quit
            } else {
                UiAction::Ignore
            },
            SystemMessage::ShutdownRequested => UiAction::Quit,
            SystemMessage::ExplorerRestarted => UiAction::RestoreTrayIcon,
        },
{
    match msg {
        SystemMessage::Hotkey(action) => match action {
            HotkeyAction::Screenshot => UiAction::TakeScreenshot,
            HotkeyAction::ColorPicker => UiAction::PickColor,
            HotkeyAction::Settings => UiAction::OpenSettings,
            HotkeyAction::Longshot => UiAction::TakeLongshot,
            HotkeyAction::Pin => UiAction::TakeScreenshot,
        },
        SystemMessage::TrayAction(id) => {
            if id == TRAY_MENU_SCREENSHOT {
                UiAction::TakeScreenshot
            } else if id == TRAY_MENU_COLOR {
                UiAction::PickColor
            } else if id == TRAY_MENU_LONGSHOT {
                UiAction::TakeLongshot
            } else if id == TRAY_MENU_SETTINGS {
                UiAction::OpenSettings
            } else if id == TRAY_MENU_EXIT {
                UiAction::Quit
            } else {
                UiAction::Ignore
            }
        },
        SystemMessage::ShutdownRequested => UiAction::Quit,
        SystemMessage::ExplorerRestarted => UiAction::RestoreTrayIcon,
    }
}

} // verus!
