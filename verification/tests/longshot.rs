use snipe::coordinates::DesktopPxRect;
use snipe::frame::{Frame, PixelFormat};
use snipe::controller::kept_longshot_result;
use snipe::session::LongshotSession;
use snipe::stitcher::{estimate_vertical_scroll, stitch_frames, LongshotError, StitchOptions};

#[test]
fn test_single_frame_stitch() {
    let frame = Frame::new(10, 10, 40, PixelFormat::Rgba8, vec![255; 400]).unwrap();
    let stitched = stitch_frames(&[frame], &StitchOptions::default()).unwrap();
    assert_eq!(stitched.width, 10);
    assert_eq!(stitched.height, 10);
}

#[test]
fn preserves_bgra_format_and_removes_stride_padding() {
    let mut pixels = Vec::new();
    pixels.extend_from_slice(&[1, 2, 3, 255, 9, 9, 9, 9]);
    pixels.extend_from_slice(&[4, 5, 6, 255, 8, 8, 8, 8]);
    let frame = Frame::new(1, 2, 8, PixelFormat::Bgra8, pixels).unwrap();

    let stitched = stitch_frames(&[frame], &StitchOptions::default()).unwrap();

    assert_eq!(stitched.format, PixelFormat::Bgra8);
    assert_eq!(stitched.stride, 4);
    assert_eq!(stitched.pixels, vec![1, 2, 3, 255, 4, 5, 6, 255]);
}

/// A tall page of distinct rows; `window(top)` shows `h` rows from `top`.
fn page_row(y: u32) -> [u8; 4] {
    [(y * 37 % 256) as u8, (y * 91 % 256) as u8, (y * 53 % 256) as u8, 255]
}

fn window(top: u32, w: u32, h: u32) -> Frame {
    let mut pixels = Vec::new();
    for y in top..top + h {
        for _ in 0..w {
            pixels.extend_from_slice(&page_row(y));
        }
    }
    Frame::new(w, h, w * 4, PixelFormat::Rgba8, pixels).unwrap()
}

#[test]
fn scroll_is_found_and_stitched() {
    let o = StitchOptions::default();
    let a = window(0, 16, 40);
    let b = window(11, 16, 40);
    assert_eq!(estimate_vertical_scroll(&a, &b, &o), Some(11));
    let stitched = stitch_frames(&[a, b], &o).unwrap();
    assert_eq!(stitched.height, 51);
    assert_eq!(stitched.pixels.len(), 51 * 16 * 4);
    let whole = window(0, 16, 51);
    assert_eq!(stitched.pixels, whole.pixels);
}

#[test]
fn stitch_errors() {
    let o = StitchOptions::default();
    assert!(matches!(stitch_frames(&[], &o), Err(LongshotError::NoFrames)));
    let a = window(0, 16, 40);
    let small = window(0, 8, 40);
    match stitch_frames(&[a.clone(), small], &o) {
        Err(e) => assert_eq!(e.message(), "Frames dimension mismatch: expected 16x40, got 8x40"),
        Ok(_) => panic!("mismatch accepted"),
    }
    let unrelated = Frame::new(16, 40, 64, PixelFormat::Rgba8, vec![0; 16 * 40 * 4]).unwrap();
    match stitch_frames(&[a.clone(), unrelated], &o) {
        Err(e) => {
            assert!(matches!(e, LongshotError::AlignmentFailed(1)));
            assert_eq!(e.message(), "Could not reliably align frame 1 with the previous frame");
        }
        Ok(_) => panic!("unaligned accepted"),
    }
    let mut bgra = a.clone();
    bgra.format = PixelFormat::Bgra8;
    assert!(matches!(stitch_frames(&[a.clone(), bgra], &o), Err(LongshotError::PixelFormatMismatch)));
    let limited = StitchOptions { max_height: 45, ..StitchOptions::default() };
    match stitch_frames(&[window(0, 16, 40), window(11, 16, 40)], &limited) {
        Err(e) => assert_eq!(e.message(), "Stitching exceeded maximum height limit of 45 pixels"),
        Ok(_) => panic!("limit ignored"),
    }
    let mut short = a.clone();
    short.pixels.truncate(10);
    assert!(matches!(stitch_frames(&[short], &o), Err(LongshotError::InvalidFrameLayout)));
}

#[test]
fn session_collects_and_finishes() {
    let target = DesktopPxRect::new(0, 0, 16, 40);
    let mut s = LongshotSession::new(target, StitchOptions::default());
    assert_eq!(s.target_rect, target);
    assert!(matches!(s.finish(), Err(LongshotError::NoFrames)));
    assert!(!s.add_frame(window(0, 16, 40)));

    let mut s = LongshotSession::new(target, StitchOptions::default());
    assert!(s.add_frame(window(0, 16, 40)));
    assert!(s.add_frame(window(11, 16, 40)));
    assert_eq!(s.frame_count(), 2);
    assert_eq!(s.frames().len(), 2);
    let _ = s.duration();
    let image = s.finish().unwrap();
    assert_eq!(image.height, 51);
    assert!(!s.add_frame(window(0, 16, 40)));
}

#[test]
fn session_stops_at_the_frame_limit() {
    let mut s = LongshotSession::new(DesktopPxRect::new(0, 0, 1, 1), StitchOptions::default());
    let f = Frame::new(1, 1, 4, PixelFormat::Rgba8, vec![0; 4]).unwrap();
    for _ in 0..300 {
        assert!(s.add_frame(f.clone()));
    }
    assert!(!s.add_frame(f.clone()));
    assert_eq!(s.frame_count(), 300);
    assert!(!s.add_frame(f));
}

#[test]
fn three_captures_add_up_their_scroll_distances() {
    let o = StitchOptions::default();
    let a = window(0, 16, 40);
    let b = window(11, 16, 40);
    let c = window(24, 16, 40);
    assert_eq!(estimate_vertical_scroll(&b, &c, &o), Some(13));
    let stitched = stitch_frames(&[a, b, c], &o).unwrap();
    assert_eq!(stitched.height, 40 + 11 + 13);
    assert_eq!(stitched.pixels, window(0, 16, 64).pixels);
}

#[test]
fn a_bad_first_capture_is_reported_before_anything_else() {
    let o = StitchOptions::default();
    let bad = Frame {
        width: 4,
        height: 2,
        stride: 8,
        format: PixelFormat::Rgba8,
        pixels: vec![0; 16],
        monitor_id: None,
        timestamp_ms: 0,
    };
    let other = window(0, 5, 3);
    assert!(matches!(stitch_frames(&[bad, other], &o), Err(LongshotError::InvalidFrameLayout)));
}

#[test]
fn a_failed_stitch_keeps_the_last_capture() {
    let target = DesktopPxRect::new(0, 0, 16, 40);
    let mut s = LongshotSession::new(target, StitchOptions::default());
    assert!(s.add_frame(window(0, 16, 40)));
    assert!(s.add_frame(window(0, 16, 20)));
    let outcome = s.finish();
    assert!(matches!(outcome, Err(LongshotError::DimensionMismatch { .. })));
    let kept = kept_longshot_result(outcome, s.frames()).unwrap();
    assert_eq!((kept.width, kept.height), (16, 20));
    assert_eq!(kept.pixels, window(0, 16, 20).pixels);
    assert!(!s.add_frame(window(0, 16, 40)));
    assert_eq!(s.frame_count(), 2);

    let empty = LongshotSession::new(target, StitchOptions::default());
    assert!(kept_longshot_result(Err(LongshotError::NoFrames), empty.frames()).is_none());

    let mut ok = LongshotSession::new(target, StitchOptions::default());
    assert!(ok.add_frame(window(0, 16, 40)));
    let kept = kept_longshot_result(ok.finish(), ok.frames()).unwrap();
    assert_eq!(kept.height, 40);
}
