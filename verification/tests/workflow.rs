use snipe::ai::{
    classify_status, data_uri, mime_type_for, reply_error, translate_system_prompt, translate_user_prompt,
    AiError, OpenAiVisionClient, ReplyStatus,
};
use snipe::capture::{
    frame_from_screen_copy, find_display_bounds, find_window_bounds, try_virtual_desktop_bounds, CaptureError, DisplayArea, WindowInfo,
};
use snipe::coordinates::DesktopPxRect;
use snipe::frame::PixelFormat;
use snipe::tray::{route_window_message, WindowMessageOutcome, WM_COMMAND, WM_DESTROY, WM_HOTKEY, WM_TRAYICON};
use snipe::events::{system_message_action, HotkeyAction, SystemMessage, UiAction, TRAY_MENU_EXIT, TRAY_MENU_LONGSHOT};
use snipe::ipc::{
    request_action, response_line, server_reply, update_confirmation_answer, IpcCommand, IpcResponse, RequestAction,
};
use snipe::pins::PinManager;

#[test]
fn pins_are_kept_by_identifier() {
    let mut pins: PinManager<u32> = PinManager::new();
    assert!(!pins.has_pins());
    let a = pins.spawn_pin(1);
    let b = pins.spawn_pin(2);
    assert_eq!(a.len(), 36);
    assert_ne!(a, b);
    assert!(pins.has_pins());
    assert_eq!(pins.insert(a.clone(), 10), Some(1));
    assert_eq!(pins.remove(&b), Some(2));
    assert_eq!(pins.remove(&b), None);
    assert_eq!(pins.insert("manual".to_string(), 3), None);
    assert_eq!(pins.close_all(), vec![10, 3]);
    assert!(!pins.has_pins());
}

#[test]
fn system_messages() {
    assert_eq!(system_message_action(SystemMessage::Hotkey(HotkeyAction::Pin)), UiAction::TakeScreenshot);
    assert_eq!(system_message_action(SystemMessage::Hotkey(HotkeyAction::Longshot)), UiAction::TakeLongshot);
    assert_eq!(system_message_action(SystemMessage::TrayAction(TRAY_MENU_LONGSHOT)), UiAction::TakeLongshot);
    assert_eq!(system_message_action(SystemMessage::TrayAction(TRAY_MENU_EXIT)), UiAction::Quit);
    assert_eq!(system_message_action(SystemMessage::TrayAction(7)), UiAction::Ignore);
    assert_eq!(system_message_action(SystemMessage::ShutdownRequested), UiAction::Quit);
    assert_eq!(system_message_action(SystemMessage::ExplorerRestarted), UiAction::RestoreTrayIcon);
}

#[test]
fn running_instance_answers() {
    assert_eq!(request_action(IpcCommand::Ping, true), RequestAction::Answer(IpcResponse::Ready));
    assert_eq!(request_action(IpcCommand::OpenSettings, true), RequestAction::OpenSettings);
    assert_eq!(request_action(IpcCommand::ShutdownForUpdate, true), RequestAction::Answer(IpcResponse::Busy));
    assert_eq!(request_action(IpcCommand::ShutdownForUpdate, false), RequestAction::ConfirmUpdate);
    assert_eq!(update_confirmation_answer(false), IpcResponse::Cancelled);
    assert_eq!(server_reply(Err(IpcResponse::Incompatible), Some(IpcResponse::Ready)), IpcResponse::Incompatible);
    assert_eq!(server_reply(Ok(IpcCommand::Ping), None), IpcResponse::Busy);
    assert_eq!(server_reply(Ok(IpcCommand::Ping), Some(IpcResponse::Cancelled)), IpcResponse::Cancelled);
    assert_eq!(response_line(IpcResponse::Incompatible), "incompatible\n");
}

#[test]
fn vision_requests() {
    let client = OpenAiVisionClient::new("https://example.test/v1//".to_string(), "  key ".to_string(), "m".to_string(), 1);
    assert_eq!(client.base_url, "https://example.test/v1");
    let req = client.chat_request(&[0, 1, 2], "JPG").unwrap();
    assert_eq!(req.endpoint, "https://example.test/v1/chat/completions");
    assert_eq!(req.authorization, "Bearer key");
    assert_eq!(req.image_url, "data:image/jpeg;base64,AAEC");
    let with = client.chat_request_with("QQ==", "gif").unwrap();
    assert_eq!(with.image_url, "data:image/png;base64,QQ==");
    let keyless = OpenAiVisionClient::new("u".to_string(), " \t".to_string(), "m".to_string(), 60);
    assert!(matches!(keyless.chat_request(&[1], "png"), Err(AiError::MissingApiKey)));
    assert_eq!(mime_type_for("webp"), "image/webp");
    assert_eq!(data_uri("image/png", "x"), "data:image/png;base64,x");
    let ocr = client.ocr_result("\n hello \n");
    assert_eq!((ocr.text.as_str(), ocr.model.as_str()), ("hello", "m"));
    let tr = client.translation_result(" hi ", "fr");
    assert_eq!((tr.translated_text.as_str(), tr.target_language.as_str()), ("hi", "fr"));
    assert!(tr.source_language.is_none());
    assert_eq!(translate_user_prompt("de"), "Please translate all text in this image into de.");
    assert!(translate_system_prompt("de").contains("accurately into de. Retain"));
}

#[test]
fn reply_statuses() {
    assert_eq!(classify_status(200), ReplyStatus::Success);
    assert_eq!(classify_status(299), ReplyStatus::Success);
    assert_eq!(classify_status(401), ReplyStatus::AuthenticationFailed);
    assert_eq!(classify_status(403), ReplyStatus::AuthenticationFailed);
    assert_eq!(classify_status(429), ReplyStatus::RateLimited);
    assert_eq!(classify_status(500), ReplyStatus::ServerError);
    assert_eq!(classify_status(302), ReplyStatus::ServerError);
    assert!(reply_error(204, String::new()).is_none());
    match reply_error(503, "down".to_string()) {
        Some(AiError::ServerError { status, message }) => assert_eq!((status, message.as_str()), (503, "down")),
        other => panic!("unexpected {:?}", other),
    }
}

#[test]
fn capture_targets() {
    let displays = vec![
        DisplayArea { id: "a".to_string(), bounds: DesktopPxRect::new(0, 0, 10, 10) },
        DisplayArea { id: "b".to_string(), bounds: DesktopPxRect::new(10, 0, 10, 10) },
        DisplayArea { id: "b".to_string(), bounds: DesktopPxRect::new(99, 0, 10, 10) },
    ];
    assert_eq!(find_display_bounds(&displays, "b").unwrap(), DesktopPxRect::new(10, 0, 10, 10));
    match find_display_bounds(&displays, "c") {
        Err(CaptureError::DisplayNotFound(id)) => assert_eq!(id, "c"),
        other => panic!("unexpected {:?}", other),
    }
    let windows = vec![WindowInfo {
        id: 42,
        title: "t".to_string(),
        class_name: "c".to_string(),
        bounds: DesktopPxRect::new(1, 2, 3, 4),
        is_minimized: false,
    }];
    assert_eq!(find_window_bounds(&windows, 42).unwrap(), DesktopPxRect::new(1, 2, 3, 4));
    assert!(matches!(find_window_bounds(&windows, 7), Err(CaptureError::WindowNotFound(7))));
    assert_eq!(
        try_virtual_desktop_bounds(&[DesktopPxRect::new(i32::MIN, 0, 10, 10), DesktopPxRect::new(i32::MAX - 5, 0, 5, 5)]),
        None
    );
    assert_eq!(
        try_virtual_desktop_bounds(&[DesktopPxRect::new(-5, -5, 10, 10)]),
        Some(DesktopPxRect::new(-5, -5, 10, 10))
    );
}

#[test]
fn tray_window_messages_are_routed() {
    assert_eq!(
        route_window_message(WM_HOTKEY, 1003, 0, 0),
        WindowMessageOutcome::Send(SystemMessage::Hotkey(HotkeyAction::ColorPicker))
    );
    assert_eq!(route_window_message(WM_HOTKEY, 7, 0, 0), WindowMessageOutcome::Handled);
    assert_eq!(route_window_message(WM_TRAYICON, 0, 0x1_0205, 0), WindowMessageOutcome::ShowTrayMenu);
    assert_eq!(route_window_message(WM_TRAYICON, 0, 0x0202, 0), WindowMessageOutcome::Handled);
    assert_eq!(
        route_window_message(WM_COMMAND, 0x1_0000 + TRAY_MENU_EXIT, 0, 0),
        WindowMessageOutcome::Send(SystemMessage::TrayAction(TRAY_MENU_EXIT))
    );
    assert_eq!(route_window_message(WM_DESTROY, 0, 0, 0), WindowMessageOutcome::Send(SystemMessage::ShutdownRequested));
    assert_eq!(
        route_window_message(0xC123, 0, 0, 0xC123),
        WindowMessageOutcome::Send(SystemMessage::ExplorerRestarted)
    );
    assert_eq!(route_window_message(0, 0, 0, 0), WindowMessageOutcome::PassOn);
    assert_eq!(route_window_message(0x0200, 0, 0, 0xC123), WindowMessageOutcome::PassOn);
}

#[test]
fn a_screen_copy_becomes_an_opaque_bgra_frame() {
    let bits = vec![1, 2, 3, 0, 4, 5, 6, 7, 8, 9, 10, 11, 12, 13, 14, 200];
    let f = frame_from_screen_copy(DesktopPxRect::new(-5, 3, 2, 2), bits).unwrap();
    assert_eq!((f.width, f.height, f.stride), (2, 2, 8));
    assert_eq!(f.format, PixelFormat::Bgra8);
    assert_eq!(f.pixels, vec![1, 2, 3, 255, 4, 5, 6, 255, 8, 9, 10, 255, 12, 13, 14, 255]);
    match frame_from_screen_copy(DesktopPxRect::new(0, 0, 0, 7), Vec::new()) {
        Err(CaptureError::PlatformError(m)) => assert_eq!(m, "Invalid capture dimensions: 0x7"),
        other => panic!("unexpected {:?}", other.is_ok()),
    }
}
