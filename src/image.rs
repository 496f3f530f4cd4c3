//! Pixel byte layout, encode jobs and thumbnail downscaling.

use vstd::prelude::*;
use rgb::FromSlice;

verus! {

/// The four bytes of a pixel word, least significant first.
pub open spec fn le_bytes(p: u32) -> Seq<u8> {
    seq![(p & 0xff) as u8, ((p >> 8u32) & 0xff) as u8, ((p >> 16u32) & 0xff) as u8, ((p >> 24u32) & 0xff) as u8]
}

/// The pixel word whose bytes, least significant first, are `b0`..`b3`.
pub open spec fn le_word(b0: u8, b1: u8, b2: u8, b3: u8) -> u32 {
    (b0 as u32) | ((b1 as u32) << 8u32) | ((b2 as u32) << 16u32) | ((b3 as u32) << 24u32)
}

/// The bytes of a run of pixels, four per pixel, least significant first.
pub open spec fn bytes_of_pixels(px: Seq<u32>) -> Seq<u8> {
    Seq::new(4 * px.len(), |j: int| le_bytes(px[j / 4])[j % 4])
}

/// The pixels of a byte run, one for each complete group of four bytes.
pub open spec fn pixels_of_bytes(b: Seq<u8>) -> Seq<u32> {
    Seq::new(b.len() / 4, |i: int| le_word(b[4 * i], b[4 * i + 1], b[4 * i + 2], b[4 * i + 3]))
}

/// Serialises pixel words to bytes, least significant byte first.
pub fn pixels_to_bytes(px: &[u32]) -> (r: Vec<u8>)
    requires
        4 * px@.len() <= usize::MAX,
    ensures
        r@ == bytes_of_pixels(px@),
{
    let mut out: Vec<u8> = Vec::new();
    let mut i: usize = 0;
    while i < px.len()
        invariant
            i <= px@.len(),
            4 * px@.len() <= usize::MAX,
            out@.len() == 4 * i,
            forall|j: int| 0 <= j < 4 * i ==> #[trigger] out@[j] == le_bytes(px@[j / 4])[j % 4],
        decreases px@.len() - i,
    {
        let p = px[i];
        out.push((p & 0xff) as u8);
        out.push(((p >> 8u32) & 0xff) as u8);
        out.push(((p >> 16u32) & 0xff) as u8);
        out.push(((p >> 24u32) & 0xff) as u8);
        i = i + 1;
    }
    assert(out@ =~= bytes_of_pixels(px@));
    out
}

/// Reads pixel words from bytes, least significant byte first; a trailing
/// group of fewer than four bytes is ignored.
pub fn bytes_to_pixels(b: &[u8]) -> (r: Vec<u32>)
    ensures
        r@ == pixels_of_bytes(b@),
{
    let blen = b.len();
    let n = blen / 4;
    let mut out: Vec<u32> = Vec::new();
    let mut i: usize = 0;
    while i < n
        invariant
            blen == b@.len(),
            n == b@.len() / 4,
            i <= n,
            out@.len() == i,
            forall|k: int| 0 <= k < i ==> #[trigger] out@[k] == le_word(b@[4 * k], b@[4 * k + 1], b@[4 * k + 2], b@[4 * k + 3]),
        decreases n - i,
    {
        let j = 4 * i;
        let w = (b[j] as u32) | ((b[j + 1] as u32) << 8u32) | ((b[j + 2] as u32) << 16u32) | ((b[j + 3] as u32) << 24u32);
        out.push(w);
        i = i + 1;
    }
    assert(out@ =~= pixels_of_bytes(b@));
    out
}

#[verifier::external_type_specification]
#[verifier::external_body]
pub struct ExResizeError(resize::Error);

/// The RGBA image of `dw` by `dh` pixels that the triangle filter of the
/// `resize` crate computes from the `sw` by `sh` RGBA image `src`.
pub uninterp spec fn triangle_resample(src: Seq<u8>, sw: nat, sh: nat, dw: nat, dh: nat) -> Seq<u8>;

/// Relies on `resize::new` with `Pixel::RGBA8` and `Type::Triangle`, and on
/// `Resizer::resize`: four bytes per pixel, both rejecting zero dimensions
/// and a source shorter than the image. The destination must hold exactly
/// the resized image.
/// The bounds keep the resizer's own size arithmetic from overflowing.
#[verifier::external_body]
fn resample_rgba(src: &[u8], sw: usize, sh: usize, dst: &mut Vec<u8>, dw: usize, dh: usize) -> (r: Result<(), resize::Error>)
    requires
        sw * sh * 4 <= usize::MAX,
        dw * dh * 4 <= usize::MAX,
        dw * sh <= usize::MAX,
        dw * dw <= usize::MAX,
        old(dst)@.len() == 4 * dw * dh,
    ensures
        final(dst)@.len() == old(dst)@.len(),
        r is Ok ==> final(dst)@ == triangle_resample(src@, sw as nat, sh as nat, dw as nat, dh as nat),
        sw == 0 || sh == 0 || dw == 0 || dh == 0 || src@.len() / 4 < sw * sh ==> r is Err,
{
    let mut resizer = resize::new(sw, sh, dw, dh, resize::Pixel::RGBA8, resize::Type::Triangle)?;
    resizer.resize(src.as_rgba(), dst.as_rgba_mut())
}

/// Width of a thumbnail.
pub const THUMB_WIDTH: u32 = 400;

/// Height of a thumbnail.
pub const THUMB_HEIGHT: u32 = 300;

/// Downscales a `width` by `height` image of 32-bit pixels to a thumbnail
/// of `THUMB_WIDTH` by `THUMB_HEIGHT`, as RGBA bytes. `None` when the
/// resampler refuses, which it does for an empty image, or when the image
/// is too tall for the resampler's arithmetic.
pub fn downscale_thumbnail(px: &[u32], width: u32, height: u32) -> (r: Option<Vec<u8>>)
    requires
        px@.len() == width * height,
        4 * px@.len() <= usize::MAX,
    ensures
        r matches Some(v) ==> v@ == triangle_resample(
            bytes_of_pixels(px@),
            width as nat,
            height as nat,
            THUMB_WIDTH as nat,
            THUMB_HEIGHT as nat,
        ),
        r matches Some(v) ==> v@.len() == THUMB_WIDTH * THUMB_HEIGHT * 4,
        width == 0 || height == 0 ==> r is None,
        height * THUMB_WIDTH > usize::MAX ==> r is None,
{
    if (height as u64) * (THUMB_WIDTH as u64) > usize::MAX as u64 {
        return None;
    }
    proof {
        vstd::arithmetic::mul::lemma_mul_upper_bound(
            width as int,
            u32::MAX as int,
            height as int,
            u32::MAX as int,
        );
    }
    let bytes = pixels_to_bytes(px);
    let mut out: Vec<u8> = vec![0u8; (THUMB_WIDTH as usize) * (THUMB_HEIGHT as usize) * 4];
    match resample_rgba(
        bytes.as_slice(),
        width as usize,
        height as usize,
        &mut out,
        THUMB_WIDTH as usize,
        THUMB_HEIGHT as usize,
    ) {
        Ok(()) => Some(out),
        Err(_) => None,
    }
}

/// Chroma subsampling of an encoded image.
#[derive(Clone, Copy, Debug, PartialEq, Eq, Structural)]
pub enum Subsampling {
    /// Full chroma resolution.
    S444,
    /// Half horizontal chroma resolution.
    S422,
    /// Half horizontal and vertical chroma resolution.
    S420,
    /// No chroma at all.
    Gray,
}

/// A unit of compression work: an owned copy of the pixels, as bytes, and
/// the settings to encode it with.
#[derive(Debug)]
pub struct EncodeJob {
    /// Row-major pixels, four bytes each, rows packed with no padding.
    pub pixels: Vec<u8>,
    pub width: u32,
    pub height: u32,
    /// Quality, 1 to 100.
    pub quality: u32,
    pub subsampling: Subsampling,
}

} // verus!
