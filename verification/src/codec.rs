//! Trusted adapters around the image and base64 codecs.
//!
//! Decoding, resampling and encoding are delegated to the `base64` and
//! `image` crates. Each call is a pure function of its arguments — no
//! randomness, clock or environment is involved — so each result is given a
//! name, and the engine's contracts speak of those names. Beyond naming, the
//! only facts stated are the documented buffer sizes: an RGBA buffer holds
//! exactly four bytes per pixel, and an exact resize returns exactly the
//! requested dimensions.

use vstd::prelude::*;

verus! {

/// What base64 decoding (standard alphabet, padded) returns for `s`:
/// `None` exactly on malformed input.
pub uninterp spec fn spec_b64_decoded(s: Seq<char>) -> Option<Seq<u8>>;

/// Relies on `base64`'s `STANDARD` engine `decode`: the result depends on
/// the input characters alone; malformed input is rejected.
#[verifier::external_body]
pub(crate) fn decode_base64(s: &str) -> (r: Option<Vec<u8>>)
    ensures
        match r {
            Some(v) => spec_b64_decoded(s@) == Some(v@),
            None => spec_b64_decoded(s@) is None,
        },
{
    match base64::Engine::decode(&base64::engine::general_purpose::STANDARD, s) {
        Ok(v) => Some(v),
        Err(_) => None,
    }
}

/// What base64 encoding (standard alphabet, padded) returns for `b`.
pub uninterp spec fn spec_b64_encoded(b: Seq<u8>) -> Seq<char>;

/// Relies on `base64`'s `STANDARD` engine `encode`: the result depends on
/// the input bytes alone.
#[verifier::external_body]
pub(crate) fn encode_base64(bytes: &Vec<u8>) -> (r: String)
    ensures
        r@ == spec_b64_encoded(bytes@),
{
    base64::Engine::encode(&base64::engine::general_purpose::STANDARD, bytes)
}

/// What decoding an image byte stream to RGBA returns: the pixel bytes (row
/// major, four bytes per pixel) and the dimensions, or `None` on malformed
/// input.
pub uninterp spec fn spec_png_decoded(bytes: Seq<u8>) -> Option<(Seq<u8>, u32, u32)>;

/// Relies on `image::load_from_memory` and `DynamicImage::to_rgba8`: the
/// result depends on the input bytes alone, and the RGBA buffer holds
/// exactly `4 * width * height` bytes.
#[verifier::external_body]
pub(crate) fn decode_png(bytes: &Vec<u8>) -> (r: Option<(Vec<u8>, u32, u32)>)
    ensures
        match r {
            Some(t) => spec_png_decoded(bytes@) == Some((t.0@, t.1, t.2)) && t.0@.len() == 4 * t.1
                * t.2,
            None => spec_png_decoded(bytes@) is None,
        },
{
    match image::load_from_memory(bytes) {
        Ok(img) => {
            let rgba = img.to_rgba8();
            let (w, h) = rgba.dimensions();
            Some((rgba.into_raw(), w, h))
        },
        Err(_) => None,
    }
}

/// What Lanczos3 resampling of an RGBA buffer to new dimensions returns.
pub uninterp spec fn spec_resampled(p: Seq<u8>, w: u32, h: u32, nw: u32, nh: u32) -> Seq<u8>;

/// Relies on `DynamicImage::resize_exact` with the Lanczos3 filter: the
/// result depends on the input pixels and dimensions alone, and has exactly
/// the requested dimensions, so `4 * nw * nh` bytes.
#[verifier::external_body]
pub(crate) fn resize_rgba(pixels: &Vec<u8>, w: u32, h: u32, nw: u32, nh: u32) -> (r: Vec<u8>)
    requires
        pixels@.len() == 4 * w * h,
        1 <= w,
        1 <= h,
        1 <= nw,
        1 <= nh,
    ensures
        r@ == spec_resampled(pixels@, w, h, nw, nh),
        r@.len() == 4 * nw * nh,
{
    let buf = image::RgbaImage::from_raw(w, h, pixels.clone()).unwrap();
    let img = image::DynamicImage::ImageRgba8(buf);
    img.resize_exact(nw, nh, image::imageops::FilterType::Lanczos3).into_rgba8().into_raw()
}

/// What PNG-encoding an RGBA buffer returns: the encoded bytes, or `None`
/// when the encoder rejects the image.
pub uninterp spec fn spec_png_encoded(p: Seq<u8>, w: u32, h: u32) -> Option<Seq<u8>>;

/// Relies on `RgbaImage::write_to` with the PNG format: the result depends
/// on the pixels and dimensions alone.
#[verifier::external_body]
pub(crate) fn encode_png(pixels: &Vec<u8>, w: u32, h: u32) -> (r: Option<Vec<u8>>)
    requires
        pixels@.len() == 4 * w * h,
    ensures
        match r {
            Some(v) => spec_png_encoded(pixels@, w, h) == Some(v@),
            None => spec_png_encoded(pixels@, w, h) is None,
        },
{
    let buf = image::RgbaImage::from_raw(w, h, pixels.clone()).unwrap();
    let mut out = std::io::Cursor::new(Vec::new());
    match buf.write_to(&mut out, image::ImageFormat::Png) {
        Ok(()) => Some(out.into_inner()),
        Err(_) => None,
    }
}

} // verus!
