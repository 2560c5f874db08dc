use snipe::coordinates::ImagePxRect;
use snipe::encode::{encode_frame, encode_rgba, format_filename, render_filename, replace_str, rgba_to_rgb, ImageEncodeError};
use snipe::filter::{apply_box_blur, apply_mosaic};
use snipe::frame::{Frame, PixelFormat};
use snipe::magnifier::generate_magnifier;
use snipe::color::ColorRgba;

#[test]
fn test_format_filename() {
    let name = format_filename("Test_{w}x{h}", 1920, 1080, "png");
    assert_eq!(name, "Test_1920x1080.png");
}

#[test]
fn filename_placeholders_and_extension() {
    assert_eq!(
        render_filename("Shot_{yyyy-MM-dd}_{HH-mm-ss}_{w}x{h}", "2024-01-02", "03-04-05", 8, 9, "..jpg"),
        "Shot_2024-01-02_03-04-05_8x9.jpg"
    );
    assert_eq!(render_filename("{w}{w}", "d", "t", 3, 0, "png"), "33.png");
    assert_eq!(replace_str("aaa", "aa", "b"), "ba");
    let now = format_filename("S_{yyyy-MM-dd}", 1, 1, "png");
    assert!(now.starts_with("S_") && now.ends_with(".png") && !now.contains('{'));
}

#[test]
fn test_encode_png() {
    let pixels = vec![255u8; 16];
    let frame = Frame::new(2, 2, 8, PixelFormat::Rgba8, pixels).unwrap();
    let encoded = encode_frame(&frame, "png", 90).unwrap();
    assert!(!encoded.is_empty());
    assert_eq!(&encoded[1..4], b"PNG");
}

#[test]
fn encoders_by_format_name() {
    let pixels: Vec<u8> = (0..64).map(|v| v as u8).collect();
    let frame = Frame::new(4, 4, 16, PixelFormat::Bgra8, pixels).unwrap();
    let jpeg = encode_frame(&frame, "JPEG", 80).unwrap();
    assert_eq!(&jpeg[0..2], &[0xFF, 0xD8]);
    let jpg = encode_frame(&frame, "jpg", 80).unwrap();
    assert_eq!(jpg, jpeg);
    let webp = encode_frame(&frame, "WebP", 80).unwrap();
    assert_eq!(&webp[0..4], b"RIFF");
    assert_eq!(&webp[8..12], b"WEBP");
    match encode_frame(&frame, "BMP", 80) {
        Err(ImageEncodeError::UnsupportedFormat(name)) => assert_eq!(name, "bmp"),
        other => panic!("unexpected {:?}", other.map(|v| v.len())),
    }
    let png_a = encode_rgba(&frame.to_rgba8().pixels, 4, 4, "png", 0).unwrap();
    let png_b = encode_frame(&frame, "PNG", 1).unwrap();
    assert_eq!(png_a, png_b);
}

#[test]
fn rgb_drops_alpha_and_partial_pixels() {
    assert_eq!(rgba_to_rgb(&[1, 2, 3, 4, 5, 6, 7, 8, 9]), vec![1, 2, 3, 5, 6, 7]);
    assert_eq!(rgba_to_rgb(&[]), Vec::<u8>::new());
}

fn solid(w: u32, h: u32, f: impl Fn(u32, u32) -> [u8; 4]) -> Frame {
    let mut pixels = Vec::new();
    for y in 0..h {
        for x in 0..w {
            pixels.extend_from_slice(&f(x, y));
        }
    }
    Frame::new(w, h, w * 4, PixelFormat::Rgba8, pixels).unwrap()
}

#[test]
fn mosaic_averages_each_block() {
    let mut frame = solid(4, 2, |x, _| [x as u8 * 10, 0, 0, 255]);
    apply_mosaic(&mut frame, ImagePxRect::new(0, 0, 4, 2), 2);
    assert_eq!(frame.pixel_at(0, 0).unwrap().r, 5);
    assert_eq!(frame.pixel_at(1, 1).unwrap().r, 5);
    assert_eq!(frame.pixel_at(2, 0).unwrap().r, 25);
    assert_eq!(frame.pixel_at(3, 1).unwrap().r, 25);
    let before = frame.clone();
    apply_mosaic(&mut frame, ImagePxRect::new(0, 0, 4, 2), 0);
    assert_eq!(frame.pixels, before.pixels);
}

#[test]
fn mosaic_leaves_outside_untouched() {
    let mut frame = solid(4, 4, |x, y| [(x * 40 + y) as u8, 1, 2, 3]);
    let before = frame.clone();
    apply_mosaic(&mut frame, ImagePxRect::new(1, 1, 2, 2), 4);
    assert_eq!(frame.pixel_at(0, 0), before.pixel_at(0, 0));
    assert_eq!(frame.pixel_at(3, 3), before.pixel_at(3, 3));
    let avg = ((41 + 81 + 42 + 82) / 4) as u8;
    assert_eq!(frame.pixel_at(1, 1).unwrap().r, avg);
}

#[test]
fn blur_of_uniform_region_is_unchanged_and_radius_zero_is_noop() {
    let mut frame = solid(5, 5, |_, _| [100, 50, 25, 255]);
    let before = frame.clone();
    apply_box_blur(&mut frame, ImagePxRect::new(0, 0, 5, 5), 2);
    assert_eq!(frame.pixels, before.pixels);
    let mut stripes = solid(3, 3, |x, _| [if x == 1 { 90 } else { 0 }, 0, 0, 255]);
    let s0 = stripes.clone();
    apply_box_blur(&mut stripes, ImagePxRect::new(0, 0, 3, 3), 0);
    assert_eq!(stripes.pixels, s0.pixels);
    apply_box_blur(&mut stripes, ImagePxRect::new(0, 0, 3, 3), 1);
    assert_eq!(stripes.pixel_at(1, 1).unwrap().r, 30);
}

#[test]
fn magnifier_samples_around_the_centre() {
    let frame = solid(3, 3, |x, y| [x as u8, y as u8, 7, 200]);
    let m = generate_magnifier(&frame, 0, 0, 3, 3);
    assert_eq!(m.center_color, ColorRgba::new(0, 0, 7, 200));
    assert_eq!((m.grid_size, m.pixel_size), (3, 3));
    assert_eq!(m.preview_frame.width, 9);
    assert_eq!(m.preview_frame.pixel_at(1, 1), Some(ColorRgba::new(0, 0, 0, 255)));
    assert_eq!(m.preview_frame.pixel_at(7, 7), Some(ColorRgba::new(1, 1, 7, 255)));
    assert_eq!(m.preview_frame.pixel_at(4, 4), Some(ColorRgba::new(0, 0, 7, 255)));
    assert_eq!(m.preview_frame.pixel_at(0, 0), Some(ColorRgba::new(60, 60, 60, 255)));
    assert_eq!(m.preview_frame.pixel_at(3, 3), Some(ColorRgba::new(0, 0, 255, 255)));
    let outside = generate_magnifier(&frame, -1, 1, 3, 3);
    assert_eq!(outside.center_color, ColorRgba::default());
}

#[test]
fn current_date_and_time_have_their_shapes() {
    let name = format_filename("{yyyy-MM-dd}_{HH-mm-ss}", 1, 1, "png");
    let stem = name.strip_suffix(".png").unwrap();
    let (date, time) = stem.split_at(stem.len() - 9);
    let time = &time[1..];
    let t: Vec<char> = time.chars().collect();
    assert_eq!(t.len(), 8);
    assert_eq!((t[2], t[5]), ('-', '-'));
    let two = |a: char, b: char| a.to_digit(10).unwrap() * 10 + b.to_digit(10).unwrap();
    assert!(two(t[0], t[1]) <= 23 && two(t[3], t[4]) <= 59 && two(t[6], t[7]) <= 60);
    let d: Vec<char> = date.chars().collect();
    let n = d.len();
    assert!(n >= 10);
    assert_eq!((d[n - 6], d[n - 3]), ('-', '-'));
    let month = two(d[n - 5], d[n - 4]);
    let day = two(d[n - 2], d[n - 1]);
    assert!((1..=12).contains(&month) && (1..=31).contains(&day));
    assert!(d[..n - 6].iter().all(|c| c.is_ascii_digit()));
}

#[test]
fn encoders_accept_exactly_the_sizes_they_support() {
    assert!(matches!(encode_rgba(&Vec::new(), 0, 0, "png", 90), Err(ImageEncodeError::Image(_))));
    assert!(encode_rgba(&vec![7; 16384 * 4], 16384, 1, "webp", 90).is_ok());
    assert!(matches!(encode_rgba(&vec![7; 16385 * 4], 16385, 1, "webp", 90), Err(ImageEncodeError::Image(_))));
    assert!(encode_rgba(&vec![7; 65535 * 4], 65535, 1, "jpeg", 90).is_ok());
    assert!(matches!(encode_rgba(&vec![7; 65536 * 4], 65536, 1, "jpg", 90), Err(ImageEncodeError::Image(_))));
    assert!(encode_rgba(&vec![7; 70000 * 4], 70000, 1, "png", 90).is_ok());
}
