//! Calls into the `image` crate: decoding, PNG encoding, and error text.

use vstd::prelude::*;
use image::ImageError;
use imageproc::distance_transform::Norm;

verus! {

#[verifier::external_type_specification]
#[verifier::external_body]
pub struct ExImageError(ImageError);

/// What `image::load_from_memory(data)` followed by `to_rgba8()` gives for
/// `data`: width, height and RGBA bytes, or `None` when decoding fails.
pub uninterp spec fn decoded_rgba(data: Seq<u8>) -> Option<(u32, u32, Seq<u8>)>;

/// The PNG file that the `image` crate writes for an RGBA8 buffer.
pub uninterp spec fn png_encoding(width: u32, height: u32, pixels: Seq<u8>) -> Seq<u8>;

/// Calls `image::load_from_memory` and converts the result with `to_rgba8`.
/// Claims that the outcome is a function of `data` alone, and that the RGBA
/// buffer holds four bytes for each of the `width * height` pixels.
#[verifier::external_body]
pub(crate) fn load_rgba(data: &[u8]) -> (r: Result<(u32, u32, Vec<u8>), ImageError>)
    ensures
        r matches Ok((w, h, px)) ==> decoded_rgba(data@) == Some((w, h, px@))
            && px@.len() == w * h * 4,
        r is Err ==> decoded_rgba(data@) is None,
{
    let img = image::load_from_memory(data)?.to_rgba8();
    let (w, h) = img.dimensions();
    Ok((w, h, img.into_raw()))
}

/// The `image` crate's default allocation limit, 512 MiB: `load_from_memory`
/// reserves the decoded buffer against it (and the `png` decoder one row
/// against its own copy), so RGBA buffers up to this size decode and larger
/// ones are refused.
pub open spec fn lossless_png_limit() -> nat {
    0x2000_0000
}

/// Calls `image::DynamicImage::write_to` with `ImageFormat::Png` on an RGBA8
/// image built from `pixels`. Claims that encoding succeeds exactly when both
/// dimensions are positive (the `png` encoder refuses a zero width or height,
/// and writing to memory cannot fail otherwise), that a success holds
/// `png_encoding` of the arguments, and, PNG being lossless for 8-bit RGBA,
/// that decoding it as `load_rgba` does gives the same dimensions and bytes
/// back when the buffer is within `lossless_png_limit`.
#[verifier::external_body]
pub(crate) fn encode_png(width: u32, height: u32, pixels: Vec<u8>) -> (r: Result<Vec<u8>, ImageError>)
    requires
        pixels@.len() == width * height * 4,
    ensures
        (r is Ok) == (width > 0 && height > 0),
        r matches Ok(png) ==> png@ == png_encoding(width, height, pixels@),
        pixels@.len() <= lossless_png_limit() ==> (r matches Ok(png) ==> decoded_rgba(png@)
            == Some((width, height, pixels@))),
{
    let img = image::RgbaImage::from_raw(width, height, pixels).unwrap();
    let mut buf = Vec::new();
    image::DynamicImage::ImageRgba8(img)
        .write_to(&mut std::io::Cursor::new(&mut buf), image::ImageFormat::Png)?;
    Ok(buf)
}

/// The `Display` text of an `image` error (`format!("{e}")`); nothing is claimed about it.
#[verifier::external_body]
pub(crate) fn image_error_text(e: &ImageError) -> String {
    format!("{e}")
}

/// The chessboard (`LInf`) distance between pixels `i` and `j` of a row-major
/// image `width` pixels wide.
pub open spec fn chessboard(width: u32, i: int, j: int) -> int {
    let dx = if i % (width as int) >= j % (width as int) {
        i % (width as int) - j % (width as int)
    } else {
        j % (width as int) - i % (width as int)
    };
    let dy = if i / (width as int) >= j / (width as int) {
        i / (width as int) - j / (width as int)
    } else {
        j / (width as int) - i / (width as int)
    };
    if dx >= dy { dx } else { dy }
}

/// The distance transform's ceiling: no distance is taken above
/// `min(width + height, 255)`, and a mask with nothing to measure from reads
/// that value everywhere.
pub open spec fn distance_cap(width: u32, height: u32) -> int {
    if width + height <= 255 { width + height } else { 255 }
}

/// Pixel `i` lies within chessboard distance `k` of a pixel that is set
/// (non-zero) when `set` holds, or clear (zero) when it does not.
pub open spec fn near(width: u32, mask: Seq<u8>, i: int, k: u8, set: bool) -> bool {
    exists|j: int|
        0 <= j < mask.len() && (mask[j] > 0) == set && #[trigger] chessboard(width, i, j) <= k
}

/// The mask bytes of `imageproc::morphology::dilate` with the `LInf` norm and
/// radius `k`: a pixel is set (255) when a set pixel lies within chessboard
/// distance `k`, or when `k` reaches the distance cap; else clear (0).
pub open spec fn dilated_mask(width: u32, height: u32, mask: Seq<u8>, k: u8) -> Seq<u8> {
    Seq::new(
        mask.len(),
        |i: int|
            if near(width, mask, i, k, true) || distance_cap(width, height) <= k {
                255u8
            } else {
                0u8
            },
    )
}

/// The mask bytes of `imageproc::morphology::erode` with the `LInf` norm and
/// radius `k`: a pixel is cleared (0) when a clear pixel lies within
/// chessboard distance `k`, or when `k` reaches the distance cap; else set (255).
pub open spec fn eroded_mask(width: u32, height: u32, mask: Seq<u8>, k: u8) -> Seq<u8> {
    Seq::new(
        mask.len(),
        |i: int|
            if near(width, mask, i, k, false) || distance_cap(width, height) <= k {
                0u8
            } else {
                255u8
            },
    )
}

/// The mask bytes of `imageproc::morphology::close` with the `LInf` norm and
/// radius `k`: dilation, then erosion, both by `k`.
pub open spec fn closed_mask(width: u32, height: u32, mask: Seq<u8>, k: u8) -> Seq<u8> {
    eroded_mask(width, height, dilated_mask(width, height, mask, k), k)
}

/// Calls `image::imageops::resize(.., FilterType::Lanczos3)`. Claims that the
/// result holds `new_width * new_height` RGBA pixels (the crate allocates the
/// output with those dimensions), and that a resize to the same size copies the
/// pixels (the crate checks for that before resampling). The resampled values
/// themselves are not claimed: the Lanczos kernel calls `f32::sin`, whose
/// precision std does not fix, so they need not be the same on every machine.
#[verifier::external_body]
pub(crate) fn resize_lanczos(width: u32, height: u32, pixels: &Vec<u8>, new_width: u32, new_height: u32) -> (r: Vec<u8>)
    requires
        pixels@.len() == width * height * 4,
        new_width * new_height * 4 <= usize::MAX,
    ensures
        r@.len() == new_width * new_height * 4,
        new_width == width && new_height == height ==> r@ == pixels@,
{
    let img = image::ImageBuffer::<image::Rgba<u8>, &[u8]>::from_raw(width, height, pixels.as_slice()).unwrap();
    image::imageops::resize(&img, new_width, new_height, image::imageops::FilterType::Lanczos3).into_raw()
}

/// Calls `imageproc::morphology::close(.., Norm::LInf, k)` on a `width` by
/// `height` grey mask. Claims the result `closed_mask` states: the two-pass
/// chessboard distance transform the crate runs gives exact distances, capped
/// at `distance_cap`. The transform adds `width + height` in `u32`, so that sum
/// must fit.
#[verifier::external_body]
pub(crate) fn close_mask(width: u32, height: u32, mask: Vec<u8>, k: u8) -> (r: Vec<u8>)
    requires
        mask@.len() == width * height,
        width + height <= u32::MAX,
    ensures
        r@ == closed_mask(width, height, mask@, k),
        r@.len() == width * height,
{
    let img = image::GrayImage::from_raw(width, height, mask).unwrap();
    imageproc::morphology::close(&img, Norm::LInf, k).into_raw()
}

/// Calls `imageproc::morphology::dilate(.., Norm::LInf, k)` on a `width` by
/// `height` grey mask. Claims the result `dilated_mask` states: the two-pass
/// chessboard distance transform the crate runs gives exact distances, capped
/// at `distance_cap`. The transform adds `width + height` in `u32`, so that sum
/// must fit.
#[verifier::external_body]
pub(crate) fn dilate_mask(width: u32, height: u32, mask: Vec<u8>, k: u8) -> (r: Vec<u8>)
    requires
        mask@.len() == width * height,
        width + height <= u32::MAX,
    ensures
        r@ == dilated_mask(width, height, mask@, k),
        r@.len() == width * height,
{
    let img = image::GrayImage::from_raw(width, height, mask).unwrap();
    imageproc::morphology::dilate(&img, Norm::LInf, k).into_raw()
}

} // verus!
