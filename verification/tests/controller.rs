use snipe::color::ColorRgba;
use snipe::controller::{
    color_from_hex, longshot_progress, monitor_selection, next_capture_step, selected_subframe,
    selection_from_points, CaptureStep,
};
use snipe::coordinates::{DesktopPxPoint, DesktopPxRect};
use snipe::frame::{Frame, PixelFormat};

#[test]
fn selection_is_at_least_one_pixel() {
    let p = DesktopPxPoint::new(5, 5);
    assert_eq!(selection_from_points(p, p), DesktopPxRect::new(5, 5, 1, 1));
    assert_eq!(
        selection_from_points(DesktopPxPoint::new(10, 2), DesktopPxPoint::new(4, 9)),
        DesktopPxRect::new(4, 2, 6, 7)
    );
}

#[test]
fn selection_per_monitor() {
    let monitor = DesktopPxRect::new(0, 0, 100, 100);
    assert_eq!(
        monitor_selection(DesktopPxRect::new(-10, 50, 30, 80), monitor),
        Some((0, 50, 20, 100))
    );
    assert_eq!(monitor_selection(DesktopPxRect::new(100, 0, 5, 5), monitor), None);
}

#[test]
fn selected_subframe_crops() {
    let pixels: Vec<u8> = (0..(10 * 10 * 4)).map(|v| (v % 256) as u8).collect();
    let frame = Frame::new(10, 10, 40, PixelFormat::Rgba8, pixels).unwrap();
    let origin = DesktopPxPoint::new(-5, -5);
    let sub = selected_subframe(Some(&frame), origin, Some(DesktopPxRect::new(-3, -4, 4, 2))).unwrap();
    assert_eq!((sub.width, sub.height), (4, 2));
    assert_eq!(sub.pixel_at(0, 0), frame.pixel_at(2, 1));
    assert!(selected_subframe(Some(&frame), origin, None).is_none());
    assert!(selected_subframe(None, origin, Some(DesktopPxRect::new(0, 0, 1, 1))).is_none());
    assert!(selected_subframe(Some(&frame), origin, Some(DesktopPxRect::new(0, 0, 0, 1))).is_none());
    assert!(selected_subframe(Some(&frame), origin, Some(DesktopPxRect::new(-6, 0, 2, 2))).is_none());
    assert!(selected_subframe(Some(&frame), origin, Some(DesktopPxRect::new(5, 0, 2, 2))).is_none());
}

#[test]
fn colour_text_parsing() {
    assert_eq!(color_from_hex("#FF3B30"), ColorRgba::rgb(255, 59, 48));
    assert_eq!(color_from_hex("00ff7f"), ColorRgba::rgb(0, 255, 127));
    assert_eq!(color_from_hex("##0A0B0C"), ColorRgba::rgb(10, 11, 12));
    assert_eq!(color_from_hex("+FzzA0"), ColorRgba::rgb(15, 0, 160));
    assert_eq!(color_from_hex("#FFF"), ColorRgba::rgb(255, 59, 48));
    assert_eq!(color_from_hex("éAAAA"), ColorRgba::rgb(0, 170, 170));
}

#[test]
fn longshot_pacing() {
    let t = DesktopPxRect::new(1, 2, 3, 4);
    assert_eq!(next_capture_step(300, 0, t), CaptureStep::FrameLimitReached);
    assert_eq!(next_capture_step(299, 300, t), CaptureStep::TimeLimitReached);
    assert_eq!(next_capture_step(299, 299, t), CaptureStep::Capture(t));
    let p = longshot_progress(2, 500);
    assert_eq!((p.frame_count, p.captured_height, p.can_finish), (2, 1000, true));
    let q = longshot_progress(1, u32::MAX);
    assert_eq!((q.captured_height, q.can_finish), (u32::MAX, false));
    assert_eq!(longshot_progress(3, u32::MAX).captured_height, u32::MAX);
}
