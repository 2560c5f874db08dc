use snipe::capture::{capture_desktop_rect, enumerate_windows, get_virtual_desktop_bounds, WindowsCaptureService};
use snipe::config::{default_version, AiConfig, AppConfig, HotkeyConfig, OutputConfig, UiConfig};
use snipe::coordinates::DesktopPxRect;
use snipe::events::HotkeyAction;
use snipe::frame::PixelFormat;
use snipe::hotkey::{map_hotkey_id_to_action, parse_hotkey_str, ParsedHotkey, MOD_ALT, MOD_CONTROL, MOD_SHIFT, MOD_WIN};

#[test]
fn defaults() {
    let c = AppConfig::default();
    assert_eq!(c.schema_version, default_version());
    assert_eq!(c.hotkeys.screenshot, "F1");
    assert_eq!(c.hotkeys.longshot, "Ctrl+Alt+S");
    assert_eq!(c.output.default_format, "png");
    assert_eq!(c.output.jpeg_quality, 90);
    assert_eq!(c.ai.model, "gpt-4o-mini");
    assert_eq!(c.ai.timeout_seconds, 60);
    assert_eq!(c.ui.magnifier_zoom, 8);
    assert_eq!(HotkeyConfig::default().pin, "F2");
    assert!(!OutputConfig::default().default_save_dir.is_empty());
    assert_eq!(AiConfig::default().target_language, "zh-CN");
    assert!(!UiConfig::default().auto_start);
}

#[test]
fn hotkey_strings() {
    assert_eq!(parse_hotkey_str("F1"), Some(ParsedHotkey { modifiers: 0, vk: 0x70 }));
    assert_eq!(
        parse_hotkey_str(" Ctrl + Alt + s "),
        Some(ParsedHotkey { modifiers: MOD_CONTROL | MOD_ALT, vk: 'S' as u32 })
    );
    assert_eq!(
        parse_hotkey_str("shift+win+PrtScn"),
        Some(ParsedHotkey { modifiers: MOD_SHIFT | MOD_WIN, vk: 0x2C })
    );
    assert_eq!(parse_hotkey_str("Ctrl+Alt"), None);
    assert_eq!(parse_hotkey_str("Ctrl+?"), None);
    assert_eq!(parse_hotkey_str("Esc+7"), Some(ParsedHotkey { modifiers: 0, vk: '7' as u32 }));
    assert_eq!(parse_hotkey_str("F12"), Some(ParsedHotkey { modifiers: 0, vk: 0x7B }));
}

#[test]
fn hotkey_ids() {
    assert_eq!(map_hotkey_id_to_action(1001), Some(HotkeyAction::Screenshot));
    assert_eq!(map_hotkey_id_to_action(1005), Some(HotkeyAction::Settings));
    assert_eq!(map_hotkey_id_to_action(1006), None);
}

#[test]
fn portable_capture() {
    let _ = WindowsCaptureService::new();
    let f = capture_desktop_rect(DesktopPxRect::new(5, 5, 20, 300)).unwrap();
    assert_eq!((f.width, f.height, f.stride), (100, 300, 400));
    assert_eq!(f.format, PixelFormat::Bgra8);
    assert!(f.pixels.iter().all(|&b| b == 200));
    assert!(enumerate_windows().unwrap().is_empty());
    assert_eq!(get_virtual_desktop_bounds(&[]), DesktopPxRect::new(0, 0, 1920, 1080));
    assert_eq!(
        get_virtual_desktop_bounds(&[DesktopPxRect::new(-1920, 0, 1920, 1080), DesktopPxRect::new(0, -200, 2560, 1440)]),
        DesktopPxRect::new(-1920, -200, 4480, 1440)
    );
}
