use snipe::color::ColorRgba;
use snipe::coordinates::{desktop_rect_to_image_rect, DesktopPxPoint, DesktopPxRect, ImagePxRect};
use snipe::error::DomainError;
use snipe::frame::{Frame, PixelFormat};

#[test]
fn test_color_formatting() {
    let c = ColorRgba::new(255, 0, 128, 255);
    assert_eq!(c.to_hex_rgb(), "#FF0080");
    assert_eq!(c.to_hex_rgba(), "#FF0080FF");
    assert_eq!(c.to_rgb_str(), "rgb(255, 0, 128)");
}

#[test]
fn rgba_text_writes_alpha_as_fraction() {
    assert_eq!(ColorRgba::new(1, 2, 3, 255).to_rgba_str(), "rgba(1, 2, 3, 1.00)");
    assert_eq!(ColorRgba::new(1, 2, 3, 0).to_rgba_str(), "rgba(1, 2, 3, 0.00)");
    assert_eq!(ColorRgba::new(10, 20, 30, 128).to_rgba_str(), "rgba(10, 20, 30, 0.50)");
    assert_eq!(ColorRgba::default(), ColorRgba::new(0, 0, 0, 0));
    assert_eq!(ColorRgba::rgb(1, 2, 3), ColorRgba::new(1, 2, 3, 255));
}

#[test]
fn test_desktop_rect_normalize() {
    let p1 = DesktopPxPoint::new(100, 200);
    let p2 = DesktopPxPoint::new(10, 50);
    let rect = DesktopPxRect::normalize(p1, p2);
    assert_eq!(rect.x, 10);
    assert_eq!(rect.y, 50);
    assert_eq!(rect.width, 90);
    assert_eq!(rect.height, 150);
}

#[test]
fn normalize_ignores_corner_order() {
    let p1 = DesktopPxPoint::new(-30, 200);
    let p2 = DesktopPxPoint::new(10, -50);
    let a = DesktopPxRect::normalize(p1, p2);
    let b = DesktopPxRect::normalize(p2, p1);
    assert_eq!(a, b);
    assert_eq!(a.right(), 10);
    assert_eq!(a.bottom(), 200);
    assert!(a.contains(DesktopPxPoint::new(a.x, a.y)));
}

#[test]
fn test_desktop_rect_contains() {
    let rect = DesktopPxRect::new(100, 100, 200, 150);
    assert!(rect.contains(DesktopPxPoint::new(100, 100)));
    assert!(rect.contains(DesktopPxPoint::new(299, 249)));
    assert!(!rect.contains(DesktopPxPoint::new(300, 250)));
    assert!(!rect.contains(DesktopPxPoint::new(99, 100)));
}

#[test]
fn right_edge_saturates() {
    let rect = DesktopPxRect::new(i32::MAX - 5, 0, 100, 10);
    assert_eq!(rect.right(), i32::MAX);
    let other = DesktopPxRect::new(0, 0, 10, 10);
    assert!(!rect.intersects(&other));
    assert!(other.intersects(&DesktopPxRect::new(5, 5, 10, 10)));
    assert!(!other.intersects(&DesktopPxRect::new(10, 0, 10, 10)));
    assert_eq!(ImagePxRect::new(u32::MAX - 1, 0, 10, 1).right(), u32::MAX);
}

#[test]
fn test_desktop_to_image_conversion() {
    let origin = DesktopPxPoint::new(-1920, 0);
    let selection = DesktopPxRect::new(-1500, 100, 400, 300);
    let converted = desktop_rect_to_image_rect(selection, origin, 1920, 1080).unwrap();
    assert_eq!(converted.x, 420);
    assert_eq!(converted.y, 100);
    assert_eq!(converted.width, 400);
    assert_eq!(converted.height, 300);
}

#[test]
fn conversion_errors() {
    let origin = DesktopPxPoint::new(10, 20);
    match desktop_rect_to_image_rect(DesktopPxRect::new(5, 30, 4, 4), origin, 100, 100) {
        Err(DomainError::OutOfBounds(m)) => {
            assert_eq!(m, "Desktop rect (5, 30) is outside frame origin (10, 20)")
        }
        other => panic!("unexpected {:?}", other),
    }
    assert_eq!(
        desktop_rect_to_image_rect(DesktopPxRect::new(200, 30, 4, 4), origin, 100, 100),
        Err(DomainError::InvalidDimensions(0, 4))
    );
    assert_eq!(
        desktop_rect_to_image_rect(DesktopPxRect::new(100, 100, 50, 50), origin, 100, 100),
        Ok(ImagePxRect::new(90, 80, 10, 20))
    );
}

#[test]
fn clamp_is_idempotent() {
    let r = ImagePxRect::new(5, 7, 100, 100);
    let c = r.clamp_to(20, 30);
    assert_eq!(c, ImagePxRect::new(5, 7, 15, 23));
    assert_eq!(c.clamp_to(20, 30), c);
    assert_eq!(ImagePxRect::new(50, 50, 1, 1).clamp_to(20, 30), ImagePxRect::new(20, 30, 0, 0));
}

#[test]
fn test_frame_crop_and_pixel() {
    let width = 10;
    let height = 10;
    let stride = 40;
    let mut pixels = vec![0u8; 400];
    let offset = (2 * 40 + 2 * 4) as usize;
    pixels[offset] = 0;
    pixels[offset + 1] = 0;
    pixels[offset + 2] = 255;
    pixels[offset + 3] = 255;

    let frame = Frame::new(width, height, stride, PixelFormat::Bgra8, pixels).unwrap();
    let pixel = frame.pixel_at(2, 2).unwrap();
    assert_eq!(pixel, ColorRgba::new(255, 0, 0, 255));

    let cropped = frame.crop(ImagePxRect::new(1, 1, 4, 4)).unwrap();
    assert_eq!(cropped.width, 4);
    assert_eq!(cropped.height, 4);
    let cropped_pixel = cropped.pixel_at(1, 1).unwrap();
    assert_eq!(cropped_pixel, ColorRgba::new(255, 0, 0, 255));
}

#[test]
fn to_rgba8_removes_row_padding() {
    let pixels = vec![1, 2, 3, 255, 9, 9, 9, 9, 4, 5, 6, 255, 8, 8, 8, 8];
    let frame = Frame::new(1, 2, 8, PixelFormat::Bgra8, pixels).unwrap();

    let rgba = frame.to_rgba8();

    assert_eq!(rgba.stride, 4);
    assert_eq!(rgba.pixels, vec![3, 2, 1, 255, 6, 5, 4, 255]);
}

#[test]
fn crop_keeps_every_pixel_at_its_shifted_place() {
    let pixels: Vec<u8> = (0..(6 * 5 * 4)).map(|v| (v % 251) as u8).collect();
    let frame = Frame::new(6, 5, 24, PixelFormat::Rgba8, pixels).unwrap();
    let rect = ImagePxRect::new(2, 1, 10, 3);
    let c = rect.clamp_to(6, 5);
    let cropped = frame.crop(rect).unwrap();
    assert_eq!((cropped.width, cropped.height, cropped.stride), (4, 3, 16));
    for y in 0..c.height {
        for x in 0..c.width {
            assert_eq!(cropped.pixel_at(x, y), frame.pixel_at(c.x + x, c.y + y));
        }
    }
    assert_eq!(cropped.pixel_at(4, 0), None);
}

#[test]
fn to_rgba8_keeps_colours() {
    let pixels: Vec<u8> = (0..(3 * 2 * 4 + 8)).map(|v| (v * 7 % 256) as u8).collect();
    let frame = Frame::new(3, 2, 16, PixelFormat::Bgra8, pixels).unwrap();
    let rgba = frame.to_rgba8();
    assert_eq!(rgba.format, PixelFormat::Rgba8);
    for y in 0..3 {
        for x in 0..4 {
            assert_eq!(rgba.pixel_at(x, y), frame.pixel_at(x, y));
        }
    }
}

#[test]
fn frame_new_errors() {
    assert_eq!(
        Frame::new(0, 2, 8, PixelFormat::Rgba8, vec![0; 16]).unwrap_err(),
        DomainError::InvalidDimensions(0, 2)
    );
    assert_eq!(
        Frame::new(3, 2, 8, PixelFormat::Rgba8, vec![0; 16]).unwrap_err(),
        DomainError::InvalidDimensions(3, 2)
    );
    assert_eq!(
        Frame::new(2, 2, 8, PixelFormat::Rgba8, vec![0; 15]).unwrap_err(),
        DomainError::BufferMismatch { expected: 16, actual: 15 }
    );
    let f = Frame::new(2, 2, 8, PixelFormat::Rgba8, vec![0; 16]).unwrap();
    assert_eq!(f.crop(ImagePxRect::new(2, 0, 1, 1)).unwrap_err(), DomainError::InvalidDimensions(0, 1));
    assert_eq!(f.pixel_at(2, 0), None);
}

#[test]
fn crop_and_convert_read_frames_with_overlapping_rows() {
    let f = Frame {
        width: 2,
        height: 2,
        stride: 4,
        format: PixelFormat::Rgba8,
        pixels: (0..12).collect(),
        monitor_id: None,
        timestamp_ms: 0,
    };
    assert!(f.is_rgba8_readable());
    assert!(!f.is_well_formed());
    assert_eq!(f.to_rgba8().pixels, vec![0, 1, 2, 3, 4, 5, 6, 7, 4, 5, 6, 7, 8, 9, 10, 11]);
    assert!(f.can_crop(ImagePxRect::new(1, 1, 1, 1)));
    assert_eq!(f.crop(ImagePxRect::new(1, 1, 1, 1)).unwrap().pixels, vec![8, 9, 10, 11]);
    let short = Frame { pixels: vec![0; 11], ..f.clone() };
    assert!(!short.is_rgba8_readable());
    assert!(!short.can_crop(ImagePxRect::new(1, 1, 1, 1)));
    assert!(short.can_crop(ImagePxRect::new(0, 0, 1, 1)));
    assert!(short.can_crop(ImagePxRect::new(5, 5, 1, 1)));
}

#[test]
fn converting_to_rgba_twice_changes_nothing() {
    let pixels: Vec<u8> = (0..(2 * 3 * 4 + 4)).map(|v| (v * 13 % 256) as u8).collect();
    let frame = Frame::new(2, 3, 9, PixelFormat::Bgra8, pixels).unwrap();
    let once = frame.to_rgba8();
    let twice = once.to_rgba8();
    assert_eq!(twice.pixels, once.pixels);
    assert_eq!((twice.width, twice.height, twice.stride), (2, 3, 8));
    assert_eq!(twice.format, PixelFormat::Rgba8);
}
