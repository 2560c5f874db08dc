//! Encoding captured frames as image files, and naming the files.

use vstd::prelude::*;
use crate::frame::{Frame, PixelFormat};
use crate::text::{dec, push_char, push_dec, push_str, lowercase_of, to_lowercase};

verus! {

#[verifier::external_type_specification]
#[verifier::external_body]
pub struct ExImageError(image::ImageError);

#[verifier::external_type_specification]
#[verifier::external_body]
pub struct ExIoError(std::io::Error);

/// Why a frame could not be encoded or saved.
#[derive(Debug)]
pub enum ImageEncodeError {
    Image(image::ImageError),
    Io(std::io::Error),
    UnsupportedFormat(String),
}

/// The PNG file that `image`'s PNG encoder (default settings) writes for
/// tightly packed RGBA pixels, or `None` where it fails.
pub uninterp spec fn png_encoded(pixels: Seq<u8>, width: u32, height: u32) -> Option<Seq<u8>>;

/// The JPEG file that `image`'s JPEG encoder writes, at the given quality,
/// for tightly packed RGB pixels, or `None` where it fails.
pub uninterp spec fn jpeg_encoded(pixels: Seq<u8>, width: u32, height: u32, quality: u8) -> Option<Seq<u8>>;

/// The lossless WebP file that `image`'s WebP encoder writes for tightly
/// packed RGBA pixels, or `None` where it fails.
pub uninterp spec fn webp_encoded(pixels: Seq<u8>, width: u32, height: u32) -> Option<Seq<u8>>;

/// Encodes RGBA pixels as PNG.
/// Calls `image::codecs::png::PngEncoder::new` and `ImageEncoder::write_image`
/// on an in-memory buffer; the bytes depend on the arguments alone. The
/// encoder panics unless the buffer holds exactly `width * height` pixels,
/// refuses an empty image, and otherwise succeeds: writing to memory cannot
/// fail, and no other check applies to 8-bit RGBA without extra chunks.
#[verifier::external_body]
fn png_bytes(pixels: &[u8], width: u32, height: u32) -> (r: Result<Vec<u8>, image::ImageError>)
    requires
        pixels@.len() == width as int * height as int * 4,
    ensures
        (r is Ok) == (png_encoded(pixels@, width, height) is Some),
        r matches Ok(b) ==> png_encoded(pixels@, width, height) == Some(b@),
        (r is Ok) == (width != 0 && height != 0),
{
    let mut buffer = std::io::Cursor::new(Vec::new());
    let encoder = image::codecs::png::PngEncoder::new(&mut buffer);
    image::ImageEncoder::write_image(encoder, pixels, width, height, image::ExtendedColorType::Rgba8)?;
    Ok(buffer.into_inner())
}

/// Encodes RGB pixels as JPEG of the given quality.
/// Calls `image::codecs::jpeg::JpegEncoder::new_with_quality` and
/// `JpegEncoder::encode` on an in-memory buffer; the bytes depend on the
/// arguments alone. The encoder panics unless the buffer holds exactly
/// `width * height` pixels, refuses an empty image or a side longer than
/// 65535 pixels, and otherwise succeeds (writing to memory cannot fail).
#[verifier::external_body]
fn jpeg_bytes(pixels: &[u8], width: u32, height: u32, quality: u8) -> (r: Result<Vec<u8>, image::ImageError>)
    requires
        pixels@.len() == width as int * height as int * 3,
    ensures
        (r is Ok) == (jpeg_encoded(pixels@, width, height, quality) is Some),
        r matches Ok(b) ==> jpeg_encoded(pixels@, width, height, quality) == Some(b@),
        (r is Ok) == (1 <= width <= 65535 && 1 <= height <= 65535),
{
    let mut buffer = std::io::Cursor::new(Vec::new());
    let mut encoder = image::codecs::jpeg::JpegEncoder::new_with_quality(&mut buffer, quality);
    encoder.encode(pixels, width, height, image::ExtendedColorType::Rgb8)?;
    Ok(buffer.into_inner())
}

/// Encodes RGBA pixels as lossless WebP.
/// Calls `image::codecs::webp::WebPEncoder::new_lossless` and
/// `ImageEncoder::write_image` on an in-memory buffer; the bytes depend on
/// the arguments alone. The encoder panics unless the buffer holds exactly
/// `width * height` pixels, refuses an empty image or a side longer than
/// 16384 pixels, and otherwise succeeds (writing to memory cannot fail).
#[verifier::external_body]
fn webp_bytes(pixels: &[u8], width: u32, height: u32) -> (r: Result<Vec<u8>, image::ImageError>)
    requires
        pixels@.len() == width as int * height as int * 4,
    ensures
        (r is Ok) == (webp_encoded(pixels@, width, height) is Some),
        r matches Ok(b) ==> webp_encoded(pixels@, width, height) == Some(b@),
        (r is Ok) == (1 <= width <= 16384 && 1 <= height <= 16384),
{
    let mut buffer = std::io::Cursor::new(Vec::new());
    let encoder = image::codecs::webp::WebPEncoder::new_lossless(&mut buffer);
    image::ImageEncoder::write_image(encoder, pixels, width, height, image::ExtendedColorType::Rgba8)?;
    Ok(buffer.into_inner())
}

/// The first three bytes of each of the first `n` whole four-byte pixels.
pub open spec fn rgb_of_pixels(p: Seq<u8>, n: nat) -> Seq<u8>
    decreases n,
{
    if n == 0 {
        Seq::empty()
    } else {
        let o = 4 * (n - 1);
        rgb_of_pixels(p, (n - 1) as nat) + seq![p[o], p[o + 1], p[o + 2]]
    }
}

/// RGBA bytes with the alpha byte of every whole pixel dropped; a trailing
/// partial pixel is ignored.
pub open spec fn drop_alpha(p: Seq<u8>) -> Seq<u8> {
    rgb_of_pixels(p, p.len() / 4)
}

proof fn lemma_rgb_len(p: Seq<u8>, n: nat)
    ensures
        rgb_of_pixels(p, n).len() == 3 * n,
    decreases n,
{
    if n > 0 {
        lemma_rgb_len(p, (n - 1) as nat);
    }
}

/// Drops the alpha byte of every whole RGBA pixel.
pub fn rgba_to_rgb(pixels: &[u8]) -> (out: Vec<u8>)
    ensures
        out@ == drop_alpha(pixels@),
        out@.len() == 3 * (pixels@.len() / 4),
{
    let len: usize = pixels.len();
    let n: usize = len / 4;
    let mut out: Vec<u8> = Vec::new();
    let mut i: usize = 0;
    while i < n
        invariant
            n == pixels@.len() / 4,
            pixels@.len() <= usize::MAX,
            i <= n,
            out@ == rgb_of_pixels(pixels@, i as nat),
        decreases n - i,
    {
        proof {
            vstd::arithmetic::div_mod::lemma_fundamental_div_mod(pixels@.len() as int, 4);
            assert(4 * (i + 1) <= 4 * n);
            assert(4 * n <= pixels@.len());
        }
        let o: usize = 4 * i;
        out.push(pixels[o]);
        out.push(pixels[o + 1]);
        out.push(pixels[o + 2]);
        i = i + 1;
    }
    proof { lemma_rgb_len(pixels@, n as nat); }
    out
}

/// What encoding tightly packed RGBA pixels in a (lower-case) format gives:
/// `png` and `webp` encode the pixels as they are, `jpg` and `jpeg` encode
/// them without alpha; any other format is refused with its name.
pub open spec fn encode_outcome(pixels: Seq<u8>, width: u32, height: u32, format: Seq<char>, quality: u8) -> Option<Option<Seq<u8>>> {
    if format == "png"@ {
        Some(png_encoded(pixels, width, height))
    } else if format == "jpg"@ || format == "jpeg"@ {
        Some(jpeg_encoded(drop_alpha(pixels), width, height, quality))
    } else if format == "webp"@ {
        Some(webp_encoded(pixels, width, height))
    } else {
        None
    }
}

/// Whether the encoder of a (lower-case) format accepts an image of this
/// size: never an empty one; JPEG sides up to 65535 pixels, WebP sides up to
/// 16384 pixels.
pub open spec fn size_accepted(format: Seq<char>, width: u32, height: u32) -> bool {
    &&& width != 0
    &&& height != 0
    &&& (format == "jpg"@ || format == "jpeg"@) ==> width <= 65535 && height <= 65535
    &&& format == "webp"@ ==> width <= 16384 && height <= 16384
}

/// The result of `encode_rgba`, given what `encode_outcome` says.
pub open spec fn encode_result_matches(res: Result<Vec<u8>, ImageEncodeError>, outcome: Option<Option<Seq<u8>>>, format: Seq<char>) -> bool {
    match outcome {
        None => res matches Err(ImageEncodeError::UnsupportedFormat(name)) && name@ == format,
        Some(None) => res matches Err(ImageEncodeError::Image(_)),
        Some(Some(bytes)) => res matches Ok(v) && v@ == bytes,
    }
}

/// The RGB bytes of RGBA pixels: for every whole pixel, its first three
/// bytes in order.
pub open spec fn rgb_bytes(p: Seq<u8>) -> Seq<u8> {
    Seq::new((3 * (p.len() / 4)) as nat, |k: int| p[4 * (k / 3) + k % 3])
}

proof fn lemma_rgb_of_pixels_index(p: Seq<u8>, n: nat)
    requires
        4 * n <= p.len(),
    ensures
        rgb_of_pixels(p, n) =~= Seq::new(3 * n, |k: int| p[4 * (k / 3) + k % 3]),
    decreases n,
{
    lemma_rgb_len(p, n);
    if n > 0 {
        lemma_rgb_of_pixels_index(p, (n - 1) as nat);
        lemma_rgb_len(p, (n - 1) as nat);
        assert forall|k: int| 3 * (n - 1) <= k < 3 * n implies #[trigger] rgb_of_pixels(p, n)[k]
            == p[4 * (k / 3) + k % 3] by {
            assert(k / 3 == n - 1);
        }
    }
}

/// What encoding returns is the chosen encoder's own output for the
/// requested settings: `png` and `webp` encode the RGBA pixels at the given
/// size, `jpg`/`jpeg` encode the RGB bytes of the pixels at the given size
/// and at the requested quality; an encoder's failure comes back as an image
/// error, and any other format is refused with its name.
pub proof fn lemma_encoding_uses_requested_settings(
    res: Result<Vec<u8>, ImageEncodeError>,
    pixels: Seq<u8>,
    width: u32,
    height: u32,
    format: Seq<char>,
    quality: u8,
)
    requires
        encode_result_matches(res, encode_outcome(pixels, width, height, format, quality), format),
    ensures
        format == "png"@ ==> match png_encoded(pixels, width, height) {
            Some(b) => res matches Ok(v) && v@ == b,
            None => res matches Err(ImageEncodeError::Image(_)),
        },
        (format == "jpg"@ || format == "jpeg"@) ==> match jpeg_encoded(rgb_bytes(pixels), width, height, quality) {
            Some(b) => res matches Ok(v) && v@ == b,
            None => res matches Err(ImageEncodeError::Image(_)),
        },
        format == "webp"@ ==> match webp_encoded(pixels, width, height) {
            Some(b) => res matches Ok(v) && v@ == b,
            None => res matches Err(ImageEncodeError::Image(_)),
        },
        !(format == "png"@ || format == "jpg"@ || format == "jpeg"@ || format == "webp"@)
            ==> (res matches Err(ImageEncodeError::UnsupportedFormat(name)) && name@ == format),
{
    reveal_strlit("png");
    reveal_strlit("jpg");
    reveal_strlit("jpeg");
    reveal_strlit("webp");
    assert("png"@[0] != "jpg"@[0]);
    assert("jpeg"@[0] != "webp"@[0]);
    lemma_rgb_of_pixels_index(pixels, pixels.len() / 4);
    assert(drop_alpha(pixels) == rgb_bytes(pixels));
}

/// Encodes tightly packed RGBA pixels in a format named in lower case:
/// `png`, `jpg`/`jpeg` (alpha dropped, at the given quality) or `webp`
/// (lossless).
pub fn encode_rgba(pixels: &Vec<u8>, width: u32, height: u32, format: &str, quality: u8) -> (res: Result<Vec<u8>, ImageEncodeError>)
    requires
        pixels@.len() == width as int * height as int * 4,
    ensures
        encode_result_matches(res, encode_outcome(pixels@, width, height, format@, quality), format@),
        encode_outcome(pixels@, width, height, format@, quality) is Some
            ==> (res is Ok <==> size_accepted(format@, width, height)),
{
    proof {
        reveal_strlit("png");
        reveal_strlit("jpg");
        reveal_strlit("jpeg");
        reveal_strlit("webp");
        assert("png"@[0] != "jpg"@[0]);
        assert("jpeg"@[0] != "webp"@[0]);
    }
    let f = crate::text::chars_of(format);
    if crate::text::chars_eq_str(&f, "png") {
        match png_bytes(pixels.as_slice(), width, height) {
            Ok(b) => Ok(b),
            Err(e) => Err(ImageEncodeError::Image(e)),
        }
    } else if crate::text::chars_eq_str(&f, "jpg") || crate::text::chars_eq_str(&f, "jpeg") {
        let rgb = rgba_to_rgb(pixels.as_slice());
        proof {
            let wh = width as int * height as int;
            assert(pixels@.len() == wh * 4);
            assert(pixels@.len() / 4 == wh);
        }
        match jpeg_bytes(rgb.as_slice(), width, height, quality) {
            Ok(b) => Ok(b),
            Err(e) => Err(ImageEncodeError::Image(e)),
        }
    } else if crate::text::chars_eq_str(&f, "webp") {
        match webp_bytes(pixels.as_slice(), width, height) {
            Ok(b) => Ok(b),
            Err(e) => Err(ImageEncodeError::Image(e)),
        }
    } else {
        let mut name = String::new();
        push_str(&mut name, format);
        Err(ImageEncodeError::UnsupportedFormat(name))
    }
}

/// Encodes a well-formed frame in the named format (any letter case):
/// the frame is converted to packed RGBA first, then encoded as
/// `encode_rgba` describes with the lower-cased format name.
pub fn encode_frame(frame: &Frame, format: &str, quality: u8) -> (res: Result<Vec<u8>, ImageEncodeError>)
    requires
        frame.rgba8_readable(),
    ensures
        encode_result_matches(
            res,
            encode_outcome(frame.rgba_rows(frame.height as nat), frame.width, frame.height,
                lowercase_of(format@), quality),
            lowercase_of(format@),
        ),
        encode_outcome(frame.rgba_rows(frame.height as nat), frame.width, frame.height, lowercase_of(format@), quality)
            is Some ==> (res is Ok <==> size_accepted(lowercase_of(format@), frame.width, frame.height)),
{
    let rgba = frame.to_rgba8();
    let lower = to_lowercase(format);
    proof {
        crate::frame::lemma_rgba_rows_len(frame, frame.height as nat);
        assert(frame.height as int * (frame.width as int * 4) == frame.width as int * frame.height as int * 4) by (nonlinear_arith);
    }
    encode_rgba(&rgba.pixels, rgba.width, rgba.height, lower.as_str(), quality)
}

/// `s` with every occurrence of `pat` (left to right, not overlapping)
/// replaced by `rep`, as `str::replace` does for a non-empty pattern.
pub open spec fn replace_all(s: Seq<char>, pat: Seq<char>, rep: Seq<char>) -> Seq<char>
    decreases s.len(),
{
    if s.len() == 0 || pat.len() == 0 {
        s
    } else if s.len() >= pat.len() && s.subrange(0, pat.len() as int) == pat {
        rep + replace_all(s.skip(pat.len() as int), pat, rep)
    } else {
        seq![s[0]] + replace_all(s.drop_first(), pat, rep)
    }
}

/// `s` without its leading characters `c` (`str::trim_start_matches`).
pub open spec fn trim_leading(s: Seq<char>, c: char) -> Seq<char>
    decreases s.len(),
{
    if s.len() > 0 && s[0] == c {
        trim_leading(s.drop_first(), c)
    } else {
        s
    }
}

/// The file name made from a template: the placeholders `{yyyy-MM-dd}`,
/// `{HH-mm-ss}`, `{w}` and `{h}` replaced by the date, the time, the width
/// and the height, then a dot and the extension without its leading dots.
pub open spec fn spec_filename(template: Seq<char>, date: Seq<char>, time: Seq<char>, width: u32, height: u32, extension: Seq<char>) -> Seq<char> {
    let a = replace_all(template, "{yyyy-MM-dd}"@, date);
    let b = replace_all(a, "{HH-mm-ss}"@, time);
    let c = replace_all(b, "{w}"@, dec(width as nat));
    let d = replace_all(c, "{h}"@, dec(height as nat));
    d + seq!['.'] + trim_leading(extension, '.')
}

fn matches_at(v: &Vec<char>, i: usize, pat: &Vec<char>) -> (b: bool)
    requires
        i <= v@.len(),
    ensures
        b == (v@.len() - i >= pat@.len() && v@.subrange(i as int, i + pat@.len()) == pat@),
{
    if v.len() - i < pat.len() {
        return false;
    }
    let mut j: usize = 0;
    while j < pat.len()
        invariant
            i + pat@.len() <= v@.len(),
            v@.len() <= usize::MAX,
            j <= pat@.len(),
            forall|k: int| 0 <= k < j ==> v@[i + k] == pat@[k],
        decreases pat@.len() - j,
    {
        if v[i + j] != pat[j] {
            assert(v@.subrange(i as int, i + pat@.len())[j as int] != pat@[j as int]);
            return false;
        }
        j = j + 1;
    }
    assert(v@.subrange(i as int, i + pat@.len()) =~= pat@);
    true
}

/// `s` with every occurrence of the non-empty `pat` replaced by `rep`.
pub fn replace_str(s: &str, pat: &str, rep: &str) -> (r: String)
    requires
        pat@.len() > 0,
    ensures
        r@ == replace_all(s@, pat@, rep@),
{
    let v = crate::text::chars_of(s);
    let p = crate::text::chars_of(pat);
    let mut out = String::new();
    let mut i: usize = 0;
    assert(v@.skip(0) =~= v@);
    assert(out@ + replace_all(v@, p@, rep@) =~= replace_all(v@, p@, rep@));
    while i < v.len()
        invariant
            v@ == s@,
            p@ == pat@,
            p@.len() > 0,
            i <= v@.len(),
            out@ + replace_all(v@.skip(i as int), p@, rep@) == replace_all(v@, p@, rep@),
        decreases v@.len() - i,
    {
        let ghost rest = v@.skip(i as int);
        if matches_at(&v, i, &p) {
            proof {
                assert(rest.subrange(0, p@.len() as int) =~= v@.subrange(i as int, i + p@.len()));
                assert(rest.skip(p@.len() as int) =~= v@.skip(i + p@.len()));
            }
            push_str(&mut out, rep);
            i = i + p.len();
            proof {
                assert(out@ + replace_all(v@.skip(i as int), p@, rep@) =~= replace_all(v@, p@, rep@));
            }
        } else {
            proof {
                assert(rest.len() >= p@.len() ==> rest.subrange(0, p@.len() as int) =~= v@.subrange(i as int, i + p@.len()));
                assert(rest.drop_first() =~= v@.skip(i + 1));
                assert(rest[0] == v@[i as int]);
            }
            push_char(&mut out, v[i]);
            i = i + 1;
            proof {
                assert(out@ + replace_all(v@.skip(i as int), p@, rep@) =~= replace_all(v@, p@, rep@));
            }
        }
    }
    proof {
        assert(v@.skip(i as int) =~= Seq::<char>::empty());
        assert(out@ + Seq::<char>::empty() =~= out@);
    }
    out
}

/// The text without its leading characters `c` (`str::trim_start_matches`).
pub fn trim_leading_str(s: &str, c: char) -> (r: String)
    ensures
        r@ == trim_leading(s@, c),
{
    let v = crate::text::chars_of(s);
    let mut i: usize = 0;
    assert(v@.skip(0) =~= v@);
    while i < v.len() && v[i] == c
        invariant
            v@ == s@,
            i <= v@.len(),
            trim_leading(v@.skip(i as int), c) == trim_leading(v@, c),
        decreases v@.len() - i,
    {
        assert(v@.skip(i as int).drop_first() =~= v@.skip(i + 1));
        i = i + 1;
    }
    let mut out = String::new();
    let mut j: usize = i;
    while j < v.len()
        invariant
            i <= j <= v@.len(),
            out@ == v@.subrange(i as int, j as int),
        decreases v@.len() - j,
    {
        push_char(&mut out, v[j]);
        j = j + 1;
        assert(v@.subrange(i as int, j as int) =~= v@.subrange(i as int, j - 1).push(v@[j - 1]));
    }
    assert(v@.subrange(i as int, v@.len() as int) =~= v@.skip(i as int));
    out
}

/// The file name for an image from a template, given the date and time
/// texts (see `spec_filename`).
pub fn render_filename(template: &str, date: &str, time: &str, width: u32, height: u32, extension: &str) -> (name: String)
    ensures
        name@ == spec_filename(template@, date@, time@, width, height, extension@),
{
    proof {
        reveal_strlit("{yyyy-MM-dd}");
        reveal_strlit("{HH-mm-ss}");
        reveal_strlit("{w}");
        reveal_strlit("{h}");
    }
    let mut w = String::new();
    push_dec(&mut w, width as u64);
    let mut h = String::new();
    push_dec(&mut h, height as u64);
    let a = replace_str(template, "{yyyy-MM-dd}", date);
    let b = replace_str(a.as_str(), "{HH-mm-ss}", time);
    let c = replace_str(b.as_str(), "{w}", w.as_str());
    let mut d = replace_str(c.as_str(), "{h}", h.as_str());
    push_char(&mut d, '.');
    let ext = trim_leading_str(extension, '.');
    push_str(&mut d, ext.as_str());
    d
}

/// Whether a character is an ASCII decimal digit.
pub open spec fn is_digit(c: char) -> bool {
    48 <= c as int <= 57
}

/// Every character is an ASCII decimal digit.
pub open spec fn all_digits(s: Seq<char>) -> bool {
    forall|i: int| 0 <= i < s.len() ==> is_digit(#[trigger] s[i])
}

/// Characters `i` and `i + 1` are two decimal digits whose value lies in
/// `lo ..= hi`.
pub open spec fn two_digits_in(s: Seq<char>, i: int, lo: int, hi: int) -> bool {
    &&& is_digit(s[i])
    &&& is_digit(s[i + 1])
    &&& lo <= (s[i] as int - 48) * 10 + (s[i + 1] as int - 48) <= hi
}

/// A year as `%Y` writes it: four digits for the years 0 to 9999, otherwise
/// a sign followed by at least four digits.
pub open spec fn is_year_text(y: Seq<char>) -> bool {
    ||| y.len() == 4 && all_digits(y)
    ||| y.len() >= 5 && (y[0] == '+' || y[0] == '-') && all_digits(y.drop_first())
}

/// A date as `%Y-%m-%d` writes it: the year, a month `01` to `12` and a day
/// `01` to `31`, separated by `-`.
pub open spec fn is_date_text(d: Seq<char>) -> bool {
    let n = d.len() as int;
    &&& n >= 10
    &&& is_year_text(d.subrange(0, n - 6))
    &&& d[n - 6] == '-'
    &&& two_digits_in(d, n - 5, 1, 12)
    &&& d[n - 3] == '-'
    &&& two_digits_in(d, n - 2, 1, 31)
}

/// A time as `%H-%M-%S` writes it: an hour `00` to `23`, a minute `00` to
/// `59` and a second `00` to `60` (a leap second), separated by `-`.
pub open spec fn is_time_text(t: Seq<char>) -> bool {
    &&& t.len() == 8
    &&& two_digits_in(t, 0, 0, 23)
    &&& t[2] == '-'
    &&& two_digits_in(t, 3, 0, 59)
    &&& t[5] == '-'
    &&& two_digits_in(t, 6, 0, 60)
}

/// Today's date as `YYYY-MM-DD` and the time as `HH-MM-SS`, both in local
/// time and taken from the same instant.
/// Calls `chrono::Local::now` and `DateTime::format` with `%Y-%m-%d` and
/// `%H-%M-%S`. Which date and time come back depends on the clock and the
/// time zone; what is stated is the shape chrono's formatting gives every
/// reading (zero-padded fields in their ranges, a sign on years outside 0 to
/// 9999). That both come from one instant is not stated.
#[verifier::external_body]
fn local_date_time() -> (r: (String, String))
    ensures
        is_date_text(r.0@),
        is_time_text(r.1@),
{
    let now = chrono::Local::now();
    (now.format("%Y-%m-%d").to_string(), now.format("%H-%M-%S").to_string())
}

/// The file name for an image from a template, with the current local date
/// (`YYYY-MM-DD`) and time (`HH-MM-SS`) (see `spec_filename`).
pub fn format_filename(template: &str, width: u32, height: u32, extension: &str) -> (name: String)
    ensures
        exists|date: Seq<char>, time: Seq<char>|
            is_date_text(date) && is_time_text(time) && name@ == spec_filename(template@, date, time, width, height, extension@),
{
    let (date, time) = local_date_time();
    render_filename(template, date.as_str(), time.as_str(), width, height, extension)
}

} // verus!
