//! Decoding the embedded PNG data URLs of `<feImage>` filter primitives
//! into RGBA8 pixels. The data URL is read here; base64 and PNG decoding
//! are the `base64` and `png` crates' work.
use vstd::prelude::*;

use base64::Engine;
use std::io::Cursor;

use crate::text::{
    chars_of, eq_ignore_case, find_in_range, first_index_of, has_prefix, range_eq,
    range_eq_ignore_case, trim, trim_bounds, trim_range,
};

verus! {

/// `base64::DecodeError`, carried through unread.
#[verifier::external_type_specification]
#[verifier::external_body]
pub struct ExBase64DecodeError(base64::DecodeError);

/// `png::DecodingError`, carried through unread.
#[verifier::external_type_specification]
#[verifier::external_body]
pub struct ExPngDecodingError(png::DecodingError);

/// A decoded CPU-side image ready for upload.
#[derive(Debug)]
pub struct DecodedImage {
    /// Width, in pixels.
    pub width: u32,
    /// Height, in pixels.
    pub height: u32,
    /// Row-major RGBA8 pixels.
    pub rgba: Vec<u8>,
}

/// The colour type of decoded PNG samples.
#[derive(Debug, Clone, Copy, PartialEq, Eq, Structural)]
pub enum PngColorType {
    /// One grey sample.
    Grayscale,
    /// Red, green and blue samples.
    Rgb,
    /// One palette index.
    Indexed,
    /// A grey sample, then an alpha sample.
    GrayscaleAlpha,
    /// Red, green, blue and alpha samples.
    Rgba,
}

/// The number of bits per decoded PNG sample.
#[derive(Debug, Clone, Copy, PartialEq, Eq, Structural)]
pub enum PngBitDepth {
    One,
    Two,
    Four,
    Eight,
    Sixteen,
}

/// Errors that can occur while decoding an embedded `<feImage>`.
#[derive(Debug)]
pub enum ImageDecodeError {
    /// Only PNG data URLs are supported.
    UnsupportedHref,
    /// The data URL's media type is not `image/png`.
    UnsupportedMediaType(String),
    /// The data URL is not base64-encoded.
    DataUrlNotBase64,
    /// The base64 payload does not decode.
    Base64(base64::DecodeError),
    /// The PNG does not decode.
    Png(png::DecodingError),
    /// The decoded image dimensions or buffer length are too large.
    ImageTooLarge,
    /// The decoded image has no pixels.
    EmptyImage,
    /// The PNG output format cannot be uploaded as RGBA8.
    UnsupportedPngColor {
        /// Output colour type.
        color_type: PngColorType,
        /// Output bit depth.
        bit_depth: PngBitDepth,
    },
}

/// The `;`-separated segments of `s`, in order (`str::split(';')`).
pub open spec fn segments(s: Seq<char>) -> Seq<Seq<char>>
    decreases s.len(),
{
    match first_index_of(s, ';') {
        Some(i) => if 0 <= i < s.len() {
            seq![s.take(i)] + segments(s.skip(i + 1))
        } else {
            seq![s]
        },
        None => seq![s],
    }
}

/// What a data URL says before its payload is decoded.
pub enum DataUrlOutcome {
    /// Not of the form `data:<metadata>,<data>`.
    NotDataUrl,
    /// A media type other than `image/png`.
    MediaType(Seq<char>),
    /// No `base64` parameter.
    NotBase64,
    /// The base64 payload, trimmed.
    Payload(Seq<char>),
}

/// How `href` reads as a PNG data URL: after trimming, `data:`, then
/// metadata up to the first `,`, then the payload. The metadata's first
/// `;`-separated segment is the media type (empty means PNG); one of the
/// later segments must be `base64` (ASCII case-insensitively).
pub open spec fn data_url_outcome(href: Seq<char>) -> DataUrlOutcome {
    let h = trim(href);
    if !has_prefix(h, "data:"@) {
        DataUrlOutcome::NotDataUrl
    } else {
        let rest = h.skip(5);
        match first_index_of(rest, ',') {
            None => DataUrlOutcome::NotDataUrl,
            Some(c) => {
                let segs = segments(rest.take(c));
                let media = segs[0];
                if media.len() > 0 && !eq_ignore_case(media, "image/png"@) {
                    DataUrlOutcome::MediaType(media)
                } else if !(exists|k: int| 1 <= k < segs.len() && eq_ignore_case(#[trigger] segs[k], "base64"@)) {
                    DataUrlOutcome::NotBase64
                } else {
                    DataUrlOutcome::Payload(trim(rest.skip(c + 1)))
                }
            },
        }
    }
}

/// The bytes that the standard (padded, `+/` alphabet) base64 text
/// `text` encodes, or `None` where it is not such text.
pub uninterp spec fn base64_standard_decoded(text: Seq<char>) -> Option<Seq<u8>>;

/// `base64::engine::general_purpose::STANDARD.decode(text)`. Claimed: it
/// gives the bytes named by [`base64_standard_decoded`] for `text`, and an
/// error exactly where that name is `None`. Which texts decode is not
/// stated.
#[verifier::external_body]
fn base64_standard_decode(text: &str) -> (r: Result<Vec<u8>, base64::DecodeError>)
    ensures
        match r {
            Ok(bytes) => base64_standard_decoded(text@) == Some(bytes@),
            Err(_) => base64_standard_decoded(text@) is None,
        },
{
    base64::engine::general_purpose::STANDARD.decode(text)
}

proof fn lemma_segments_first(s: Seq<char>, i: int)
    requires
        first_index_of(s, ';') == Some(i),
        0 <= i < s.len(),
    ensures
        segments(s) == seq![s.take(i)] + segments(s.skip(i + 1)),
{
}

proof fn lemma_segments_none(s: Seq<char>)
    requires
        first_index_of(s, ';') is None,
    ensures
        segments(s) == seq![s],
{
}

/// The PNG bytes of a base64 PNG data URL.
pub fn decode_png_data_url(href: &str) -> (r: Result<Vec<u8>, ImageDecodeError>)
    ensures
        match data_url_outcome(href@) {
            DataUrlOutcome::NotDataUrl => r matches Err(ImageDecodeError::UnsupportedHref),
            DataUrlOutcome::MediaType(media) => r matches Err(ImageDecodeError::UnsupportedMediaType(m))
                && m@ == media,
            DataUrlOutcome::NotBase64 => r matches Err(ImageDecodeError::DataUrlNotBase64),
            DataUrlOutcome::Payload(text) => match base64_standard_decoded(text) {
                Some(bytes) => r matches Ok(v) && v@ == bytes,
                None => r matches Err(ImageDecodeError::Base64(_)),
            },
        },
{
    let v = chars_of(href);
    let (a, b) = trim_bounds(&v);
    let ghost h = trim(href@);
    proof {
        lemma_first_index_of_subrange_facts(v@, a as int, b as int);
    }
    proof {
        reveal_strlit("data:");
    }
    if b - a < 5 || !range_eq(&v, a, a + 5, "data:") {
        proof {
            if h.len() >= 5 {
                assert(h.take(5) =~= v@.subrange(a as int, a + 5));
            }
        }
        return Err(ImageDecodeError::UnsupportedHref);
    }
    let ghost rest = h.skip(5);
    proof {
        assert(h.take(5) =~= v@.subrange(a as int, a + 5));
        assert(rest =~= v@.subrange(a + 5, b as int));
    }
    let m0 = a + 5;
    let comma = match find_in_range(&v, m0, b, ',') {
        Some(c) => c,
        None => {
            return Err(ImageDecodeError::UnsupportedHref);
        },
    };
    let ghost c = comma - m0;
    let ghost meta = rest.take(c);
    proof {
        assert(meta =~= v@.subrange(m0 as int, comma as int));
        assert(rest.skip(c + 1) =~= v@.subrange(comma + 1, b as int));
    }
    let semi = find_in_range(&v, m0, comma, ';');
    let media_end = match semi {
        Some(s) => s,
        None => comma,
    };
    let ghost segs = segments(meta);
    proof {
        match semi {
            Some(s) => {
                lemma_segments_first(meta, s - m0);
                assert(meta.take(s - m0) =~= v@.subrange(m0 as int, s as int));
                assert(meta.skip(s - m0 + 1) =~= v@.subrange(s + 1, comma as int));
            },
            None => {
                lemma_segments_none(meta);
            },
        }
        assert(segs[0] =~= v@.subrange(m0 as int, media_end as int));
    }
    if media_end > m0 && !range_eq_ignore_case(&v, m0, media_end, "image/png") {
        let media = href.substring_char(m0, media_end).to_owned();
        return Err(ImageDecodeError::UnsupportedMediaType(media));
    }
    let mut found = false;
    if let Some(s0) = semi {
        let mut start: usize = s0 + 1;
        let ghost mut done: Seq<Seq<char>> = Seq::empty();
        loop
            invariant_except_break
                segs == seq![v@.subrange(m0 as int, s0 as int)] + done + segments(
                    v@.subrange(start as int, comma as int),
                ),
                found == (exists|k: int| 0 <= k < done.len() && eq_ignore_case(#[trigger] done[k], "base64"@)),
            invariant
                m0 <= s0 < start <= comma <= v@.len(),
            ensures
                m0 <= start <= comma,
                segs == seq![v@.subrange(m0 as int, s0 as int)] + done + seq![v@.subrange(start as int, comma as int)],
                found == (exists|k: int| 0 <= k < done.len() + 1 && eq_ignore_case(
                    #[trigger] (done + seq![v@.subrange(start as int, comma as int)])[k],
                    "base64"@,
                )),
            decreases comma - start,
        {
            let next = find_in_range(&v, start, comma, ';');
            let end = match next {
                Some(n) => n,
                None => comma,
            };
            let here = range_eq_ignore_case(&v, start, end, "base64");
            let ghost seg = v@.subrange(start as int, end as int);
            let ghost tail = v@.subrange(start as int, comma as int);
            proof {
                let done1 = done.push(seg);
                if found {
                    let k = choose|k: int| 0 <= k < done.len() && eq_ignore_case(#[trigger] done[k], "base64"@);
                    assert(done1[k] == done[k]);
                }
                if here {
                    assert(done1[done.len() as int] == seg);
                }
                if exists|k: int| 0 <= k < done1.len() && eq_ignore_case(#[trigger] done1[k], "base64"@) {
                    let k = choose|k: int| 0 <= k < done1.len() && eq_ignore_case(#[trigger] done1[k], "base64"@);
                    if k < done.len() {
                        assert(done[k] == done1[k]);
                    }
                }
            }
            found = found || here;
            match next {
                None => {
                    proof {
                        lemma_segments_none(tail);
                        assert(seg =~= tail);
                        assert(done + seq![tail] =~= done.push(seg));
                    }
                    break;
                },
                Some(n) => {
                    proof {
                        lemma_segments_first(tail, n - start);
                        assert(tail.take(n - start) =~= seg);
                        assert(tail.skip(n - start + 1) =~= v@.subrange(n + 1, comma as int));
                        assert(seq![v@.subrange(m0 as int, s0 as int)] + done + (seq![seg] + segments(
                            v@.subrange(n + 1, comma as int),
                        )) =~= seq![v@.subrange(m0 as int, s0 as int)] + done.push(seg) + segments(
                            v@.subrange(n + 1, comma as int),
                        ));
                        done = done.push(seg);
                    }
                    start = n + 1;
                },
            }
        }
        proof {
            let all = done + seq![v@.subrange(start as int, comma as int)];
            assert forall|k: int| 1 <= k < segs.len() implies segs[k] == all[k - 1] by {}
            if found {
                let k = choose|k: int| 0 <= k < all.len() && eq_ignore_case(#[trigger] all[k], "base64"@);
                assert(segs[k + 1] == all[k]);
            }
            if exists|k: int| 1 <= k < segs.len() && eq_ignore_case(#[trigger] segs[k], "base64"@) {
                let k = choose|k: int| 1 <= k < segs.len() && eq_ignore_case(#[trigger] segs[k], "base64"@);
                assert(all[k - 1] == segs[k]);
            }
        }
    } else {
        proof {
            assert(segs.len() == 1);
        }
    }
    if !found {
        return Err(ImageDecodeError::DataUrlNotBase64);
    }
    let (pa, pb) = trim_range(&v, comma + 1, b);
    let text = href.substring_char(pa, pb);
    match base64_standard_decode(text) {
        Ok(bytes) => Ok(bytes),
        Err(e) => Err(ImageDecodeError::Base64(e)),
    }
}

proof fn lemma_first_index_of_subrange_facts(s: Seq<char>, a: int, b: int)
    requires
        0 <= a <= b <= s.len(),
    ensures
        s.subrange(a, b).len() == b - a,
{
}

/// One PNG frame as the `png` crate decodes it, asked for 8-bit samples
/// with alpha expanded: the frame size, the output buffer, how many of its
/// leading bytes belong to the frame, and the sample format as the `png`
/// crate numbers it (`ColorType` and `BitDepth` discriminants).
#[derive(Debug)]
pub struct PngFrame {
    /// Frame width, in pixels.
    pub width: u32,
    /// Frame height, in pixels.
    pub height: u32,
    /// The output buffer the frame was decoded into.
    pub samples: Vec<u8>,
    /// The number of leading bytes of `samples` that hold the frame.
    pub frame_bytes: usize,
    /// Colour type code: 0 grey, 2 RGB, 3 palette, 4 grey and alpha, 6 RGBA.
    pub color_code: u8,
    /// Bits per sample: 1, 2, 4, 8 or 16.
    pub bit_depth: u8,
}

/// The plain values of a [`PngFrame`], field by field.
pub open spec fn frame_view(f: PngFrame) -> (u32, u32, Seq<u8>, usize, u8, u8) {
    (f.width, f.height, f.samples@, f.frame_bytes, f.color_code, f.bit_depth)
}

/// Why the `png` crate gave no frame.
#[derive(Debug)]
pub enum PngFrameError {
    /// The output buffer would not fit in memory.
    OutputTooLarge,
    /// Decoding failed.
    Decoding(png::DecodingError),
}

/// The frame that the `png` crate decodes from the PNG file `data`, asked
/// for 8-bit samples with alpha expanded, or `None` where it decodes none.
pub uninterp spec fn png_decoded_frame(data: Seq<u8>) -> Option<(u32, u32, Seq<u8>, usize, u8, u8)>;

/// Decode the first frame of the PNG file `data` with the `png` crate:
/// `png::Decoder::new`, `set_transformations(ALPHA | STRIP_16)`,
/// `read_info`, `output_buffer_size`, `next_frame` into a zeroed buffer of
/// that size, and `output_color_type`, whose enums are handed out as their
/// discriminants. The decoder's types cannot be declared to Verus (their
/// bounds are `std::io` traits), so the sequence stands in one item.
/// Claimed: a frame comes back exactly where [`png_decoded_frame`] names
/// one for `data`, it is the named one, and its format codes are
/// discriminants of `png::ColorType` and `png::BitDepth`. Which of the two
/// failures comes back is not stated.
#[verifier::external_body]
fn png_decode_frame(data: &[u8]) -> (r: Result<PngFrame, PngFrameError>)
    ensures
        match r {
            Ok(f) => png_decoded_frame(data@) == Some(frame_view(f)),
            Err(_) => png_decoded_frame(data@) is None,
        },
        r matches Ok(f) ==> color_type_of(f.color_code) is Some && bit_depth_of(f.bit_depth) is Some,
{
    let mut decoder = png::Decoder::new(Cursor::new(data));
    decoder.set_transformations(png::Transformations::ALPHA | png::Transformations::STRIP_16);
    let mut reader = decoder.read_info().map_err(PngFrameError::Decoding)?;
    let size = reader.output_buffer_size().ok_or(PngFrameError::OutputTooLarge)?;
    let mut samples = vec![0; size];
    let info = reader.next_frame(&mut samples).map_err(PngFrameError::Decoding)?;
    let (color_type, bit_depth) = reader.output_color_type();
    let (color_code, bit_depth) = (color_type as u8, bit_depth as u8);
    Ok(PngFrame { width: info.width, height: info.height, frame_bytes: info.buffer_size(), samples, color_code, bit_depth })
}

/// The colour type with `png`'s discriminant `code`.
pub open spec fn color_type_of(code: u8) -> Option<PngColorType> {
    if code == 0 {
        Some(PngColorType::Grayscale)
    } else if code == 2 {
        Some(PngColorType::Rgb)
    } else if code == 3 {
        Some(PngColorType::Indexed)
    } else if code == 4 {
        Some(PngColorType::GrayscaleAlpha)
    } else if code == 6 {
        Some(PngColorType::Rgba)
    } else {
        None
    }
}

/// The bit depth of `bits` bits per sample.
pub open spec fn bit_depth_of(bits: u8) -> Option<PngBitDepth> {
    if bits == 1 {
        Some(PngBitDepth::One)
    } else if bits == 2 {
        Some(PngBitDepth::Two)
    } else if bits == 4 {
        Some(PngBitDepth::Four)
    } else if bits == 8 {
        Some(PngBitDepth::Eight)
    } else if bits == 16 {
        Some(PngBitDepth::Sixteen)
    } else {
        None
    }
}

/// The colour type with discriminant `code` (see [`color_type_of`]).
pub fn png_color_type(code: u8) -> (r: PngColorType)
    requires
        color_type_of(code) is Some,
    ensures
        color_type_of(code) == Some(r),
{
    match code {
        0 => PngColorType::Grayscale,
        2 => PngColorType::Rgb,
        3 => PngColorType::Indexed,
        4 => PngColorType::GrayscaleAlpha,
        _ => PngColorType::Rgba,
    }
}

/// The bit depth of `bits` bits per sample (see [`bit_depth_of`]).
pub fn png_bit_depth(bits: u8) -> (r: PngBitDepth)
    requires
        bit_depth_of(bits) is Some,
    ensures
        bit_depth_of(bits) == Some(r),
{
    match bits {
        1 => PngBitDepth::One,
        2 => PngBitDepth::Two,
        4 => PngBitDepth::Four,
        8 => PngBitDepth::Eight,
        _ => PngBitDepth::Sixteen,
    }
}

/// Bytes per pixel of 8-bit samples of colour type `ct`.
pub open spec fn channels(ct: PngColorType) -> int {
    match ct {
        PngColorType::Grayscale => 1,
        PngColorType::GrayscaleAlpha => 2,
        PngColorType::Rgb => 3,
        PngColorType::Rgba => 4,
        PngColorType::Indexed => 1,
    }
}

/// One pixel's samples `p` as RGBA8: grey is copied to red, green and
/// blue; a missing alpha is opaque.
pub open spec fn pixel_rgba(p: Seq<u8>, ct: PngColorType) -> Seq<u8> {
    match ct {
        PngColorType::Grayscale => seq![p[0], p[0], p[0], 255u8],
        PngColorType::GrayscaleAlpha => seq![p[0], p[0], p[0], p[1]],
        PngColorType::Rgb => seq![p[0], p[1], p[2], 255u8],
        _ => p,
    }
}

/// Every whole pixel of `bytes` as RGBA8, in order.
pub open spec fn expand_pixels(bytes: Seq<u8>, ct: PngColorType) -> Seq<u8>
    decreases bytes.len(),
{
    let n = channels(ct);
    if bytes.len() < n {
        Seq::empty()
    } else {
        pixel_rgba(bytes.take(n), ct) + expand_pixels(bytes.skip(n), ct)
    }
}

/// What converting decoded PNG samples to RGBA8 gives.
pub enum RgbaOutcome {
    /// A bit depth other than 8, or palette indices.
    Unsupported,
    /// The pixel count overflows, or the byte count is not that of
    /// `width * height` pixels.
    TooLarge,
    /// The RGBA8 pixels.
    Pixels(Seq<u8>),
}

/// The RGBA8 conversion of `bytes`, samples of a `width` by `height` frame.
pub open spec fn rgba_outcome(bytes: Seq<u8>, width: u32, height: u32, ct: PngColorType, bd: PngBitDepth) -> RgbaOutcome {
    if bd != PngBitDepth::Eight {
        RgbaOutcome::Unsupported
    } else if width * height > usize::MAX {
        RgbaOutcome::TooLarge
    } else if ct is Indexed {
        RgbaOutcome::Unsupported
    } else if bytes.len() != channels(ct) * (width * height) {
        RgbaOutcome::TooLarge
    } else if ct is Rgba {
        RgbaOutcome::Pixels(bytes)
    } else {
        RgbaOutcome::Pixels(expand_pixels(bytes, ct))
    }
}

/// Whether `r` is the result of converting to RGBA8 as [`rgba_outcome`] says.
pub open spec fn rgba_result_matches(
    r: Result<Vec<u8>, ImageDecodeError>,
    bytes: Seq<u8>,
    width: u32,
    height: u32,
    ct: PngColorType,
    bd: PngBitDepth,
) -> bool {
    match rgba_outcome(bytes, width, height, ct, bd) {
        RgbaOutcome::Unsupported => r matches Err(ImageDecodeError::UnsupportedPngColor { color_type, bit_depth })
            && color_type == ct && bit_depth == bd,
        RgbaOutcome::TooLarge => r matches Err(ImageDecodeError::ImageTooLarge),
        RgbaOutcome::Pixels(p) => r matches Ok(v) && v@ == p,
    }
}

proof fn lemma_expand_step(bytes: Seq<u8>, ct: PngColorType, k: int)
    requires
        1 <= channels(ct),
        0 <= k,
        (k + 1) * channels(ct) <= bytes.len(),
    ensures
        expand_pixels(bytes.skip(k * channels(ct)), ct) == pixel_rgba(
            bytes.subrange(k * channels(ct), (k + 1) * channels(ct)),
            ct,
        ) + expand_pixels(bytes.skip((k + 1) * channels(ct)), ct),
{
    let n = channels(ct);
    let s = bytes.skip(k * n);
    assert((k + 1) * n == k * n + n) by (nonlinear_arith);
    assert(s.take(n) =~= bytes.subrange(k * n, (k + 1) * n));
    assert(s.skip(n) =~= bytes.skip((k + 1) * n));
}

/// Decoded 8-bit PNG samples of a `width` by `height` frame as RGBA8.
pub fn png_output_to_rgba(bytes: &[u8], width: u32, height: u32, color_type: PngColorType, bit_depth: PngBitDepth) -> (r: Result<Vec<u8>, ImageDecodeError>)
    ensures
        rgba_result_matches(r, bytes@, width, height, color_type, bit_depth),
{
    if bit_depth != PngBitDepth::Eight {
        return Err(ImageDecodeError::UnsupportedPngColor { color_type, bit_depth });
    }
    let pixel_count = match (width as usize).checked_mul(height as usize) {
        Some(n) => n,
        None => {
            return Err(ImageDecodeError::ImageTooLarge);
        },
    };
    let n: usize = match color_type {
        PngColorType::Grayscale => 1,
        PngColorType::GrayscaleAlpha => 2,
        PngColorType::Rgb => 3,
        PngColorType::Rgba => 4,
        PngColorType::Indexed => {
            return Err(ImageDecodeError::UnsupportedPngColor { color_type, bit_depth });
        },
    };
    let len = bytes.len();
    proof {
        assert(channels(color_type) * (width * height) == pixel_count * n) by (nonlinear_arith)
            requires
                channels(color_type) == n,
                width * height == pixel_count,
        ;
    }
    if pixel_count > len / n {
        proof {
            assert(pixel_count * n > len) by (nonlinear_arith)
                requires
                    pixel_count > len / n,
                    n >= 1,
                    len >= 0,
            ;
        }
        return Err(ImageDecodeError::ImageTooLarge);
    }
    proof {
        assert(pixel_count * n <= len) by (nonlinear_arith)
            requires
                pixel_count <= len / n,
                n >= 1,
        ;
    }
    if len != pixel_count * n {
        return Err(ImageDecodeError::ImageTooLarge);
    }
    if let PngColorType::Rgba = color_type {
        let mut out: Vec<u8> = Vec::new();
        let mut i: usize = 0;
        while i < len
            invariant
                i <= len == bytes@.len(),
                out@ == bytes@.take(i as int),
            decreases len - i,
        {
            out.push(bytes[i]);
            proof {
                assert(bytes@.take(i + 1) =~= bytes@.take(i as int).push(bytes@[i as int]));
            }
            i = i + 1;
        }
        proof {
            assert(bytes@.take(len as int) =~= bytes@);
        }
        return Ok(out);
    }
    let ghost ct = color_type;
    let mut rgba: Vec<u8> = Vec::new();
    let mut p: usize = 0;
    proof {
        assert(bytes@.skip(0) =~= bytes@);
        assert(rgba@ + bytes@ =~= bytes@);
        assert(Seq::<u8>::empty() + expand_pixels(bytes@, ct) =~= expand_pixels(bytes@, ct));
    }
    while p < pixel_count
        invariant
            p <= pixel_count,
            len == bytes@.len() == pixel_count * n,
            n == channels(ct),
            ct == color_type,
            !(ct is Rgba) && !(ct is Indexed),
            1 <= n <= 3,
            expand_pixels(bytes@, ct) == rgba@ + expand_pixels(bytes@.skip(p * n), ct),
        decreases pixel_count - p,
    {
        proof {
            assert((p + 1) * n <= pixel_count * n) by (nonlinear_arith)
                requires
                    p + 1 <= pixel_count,
                    n >= 1,
            ;
            assert((p + 1) * n == p * n + n) by (nonlinear_arith);
            lemma_expand_step(bytes@, ct, p as int);
        }
        let at = p * n;
        let ghost before = rgba@;
        let ghost px = bytes@.subrange(at as int, at + n);
        match color_type {
            PngColorType::Grayscale => {
                rgba.push(bytes[at]);
                rgba.push(bytes[at]);
                rgba.push(bytes[at]);
                rgba.push(255);
            },
            PngColorType::GrayscaleAlpha => {
                rgba.push(bytes[at]);
                rgba.push(bytes[at]);
                rgba.push(bytes[at]);
                rgba.push(bytes[at + 1]);
            },
            _ => {
                rgba.push(bytes[at]);
                rgba.push(bytes[at + 1]);
                rgba.push(bytes[at + 2]);
                rgba.push(255);
            },
        }
        proof {
            assert(rgba@ =~= before + pixel_rgba(px, ct));
            assert(bytes@.skip((p + 1) * n) == bytes@.skip(at + n));
        }
        p = p + 1;
    }
    proof {
        assert(pixel_count * n == len);
        assert(bytes@.skip(len as int).len() == 0);
        assert(rgba@ + Seq::<u8>::empty() =~= rgba@);
    }
    Ok(rgba)
}

/// Whether `r` is what decoding the PNG file `data` gives: the png crate's
/// failure, an empty frame, a frame longer than its buffer, or the RGBA8
/// conversion of the frame's bytes.
pub open spec fn png_image_matches(r: Result<DecodedImage, ImageDecodeError>, data: Seq<u8>) -> bool {
    match png_decoded_frame(data) {
        None => r matches Err(e) && (e is ImageTooLarge || e is Png),
        Some((width, height, samples, frame_bytes, color_code, bits)) => {
            let ct = color_type_of(color_code)->0;
            let bd = bit_depth_of(bits)->0;
            if width == 0 || height == 0 {
                r matches Err(ImageDecodeError::EmptyImage)
            } else if frame_bytes > samples.len() {
                r matches Err(ImageDecodeError::ImageTooLarge)
            } else {
                match rgba_outcome(samples.take(frame_bytes as int), width, height, ct, bd) {
                    RgbaOutcome::Unsupported => r matches Err(ImageDecodeError::UnsupportedPngColor { color_type, bit_depth })
                        && color_type == ct && bit_depth == bd,
                    RgbaOutcome::TooLarge => r matches Err(ImageDecodeError::ImageTooLarge),
                    RgbaOutcome::Pixels(p) => r matches Ok(img) && img.width == width && img.height == height
                        && img.rgba@ == p,
                }
            }
        },
    }
}

/// Decode a PNG file to RGBA8.
pub fn decode_png(data: &[u8]) -> (r: Result<DecodedImage, ImageDecodeError>)
    ensures
        png_image_matches(r, data@),
{
    let frame = match png_decode_frame(data) {
        Ok(f) => f,
        Err(PngFrameError::OutputTooLarge) => {
            return Err(ImageDecodeError::ImageTooLarge);
        },
        Err(PngFrameError::Decoding(e)) => {
            return Err(ImageDecodeError::Png(e));
        },
    };
    if frame.width == 0 || frame.height == 0 {
        return Err(ImageDecodeError::EmptyImage);
    }
    if frame.frame_bytes > frame.samples.len() {
        return Err(ImageDecodeError::ImageTooLarge);
    }
    let color_type = png_color_type(frame.color_code);
    let bit_depth = png_bit_depth(frame.bit_depth);
    let bytes = vstd::slice::slice_subrange(frame.samples.as_slice(), 0, frame.frame_bytes);
    proof {
        assert(bytes@ =~= frame.samples@.take(frame.frame_bytes as int));
    }
    let rgba = match png_output_to_rgba(bytes, frame.width, frame.height, color_type, bit_depth) {
        Ok(v) => v,
        Err(e) => {
            return Err(e);
        },
    };
    Ok(DecodedImage { width: frame.width, height: frame.height, rgba })
}

/// Decode an `<feImage>` `href`: a base64 PNG data URL, as
/// [`data_url_outcome`] reads it, whose payload is decoded with the
/// standard base64 alphabet and then as a PNG file.
pub fn decode_image_href(href: &str) -> (r: Result<DecodedImage, ImageDecodeError>)
    ensures
        match data_url_outcome(href@) {
            DataUrlOutcome::NotDataUrl => r matches Err(ImageDecodeError::UnsupportedHref),
            DataUrlOutcome::MediaType(media) => r matches Err(ImageDecodeError::UnsupportedMediaType(m))
                && m@ == media,
            DataUrlOutcome::NotBase64 => r matches Err(ImageDecodeError::DataUrlNotBase64),
            DataUrlOutcome::Payload(text) => match base64_standard_decoded(text) {
                Some(bytes) => png_image_matches(r, bytes),
                None => r matches Err(ImageDecodeError::Base64(_)),
            },
        },
{
    let png_bytes = match decode_png_data_url(href) {
        Ok(b) => b,
        Err(e) => {
            return Err(e);
        },
    };
    decode_png(png_bytes.as_slice())
}

} // verus!
