//! Pre-processing passes applied to a raster image before tracing: upscaling,
//! bilateral smoothing, painting the dark mask black, and colour quantization.

use vstd::prelude::*;
use crate::config::{PreprocessConfig, Thousandths};
use crate::imaging::{
    chessboard, close_mask, closed_mask, dilate_mask, dilated_mask, distance_cap, near,
    resize_lanczos,
};
use crate::raster::{rgba_len, same_image, RgbaRaster};
use crate::mediancut::{mc_labels, mc_palette, median_cut};
use crate::stages::RasterStages;

verus! {

/// One side of the upscaled image: `side * upscale` rounded half away from
/// zero, at least 1, and capped at `u32::MAX` as the float-to-integer cast does.
pub open spec fn scaled_side(side: u32, upscale: u32) -> u32 {
    let v = (side * upscale + 500) / 1000;
    if v < 1 {
        1
    } else if v > u32::MAX {
        u32::MAX
    } else {
        v as u32
    }
}

pub fn scale_side(side: u32, upscale: Thousandths) -> (r: u32)
    ensures
        r == scaled_side(side, upscale.0),
{
    assert((side as u64) * (upscale.0 as u64) <= 0xffff_ffff_ffff_ffffu64 - 500)
        by (nonlinear_arith);
    let p = (side as u64) * (upscale.0 as u64);
    let v = (p + 500) / 1000;
    if v < 1 {
        1
    } else if v > 0xffff_ffffu64 {
        0xffff_ffffu32
    } else {
        v as u32
    }
}

/// Max of the red, green and blue channels of pixel `i`.
pub open spec fn max_rgb(px: Seq<u8>, i: int) -> u8 {
    let r = px[4 * i];
    let g = px[4 * i + 1];
    let b = px[4 * i + 2];
    let m = if r >= g { r } else { g };
    if m >= b { m } else { b }
}

/// The dark mask: 255 where a pixel's max channel is below `threshold`, else 0.
pub open spec fn is_dark_mask(px: Seq<u8>, threshold: u8, mask: Seq<u8>) -> bool {
    &&& px.len() == 4 * mask.len()
    &&& forall|i: int|
        0 <= i < mask.len() ==> #[trigger] mask[i] == if max_rgb(px, i) < threshold {
            255u8
        } else {
            0u8
        }
}

/// `out` is `px` with the colour of every pixel whose mask byte is not zero
/// set to black; alpha is kept.
pub open spec fn is_painted(px: Seq<u8>, mask: Seq<u8>, out: Seq<u8>) -> bool {
    &&& px.len() == 4 * mask.len()
    &&& out.len() == px.len()
    &&& forall|i: int, c: int|
        0 <= i < mask.len() && 0 <= c < 4 ==> #[trigger] out[4 * i + c] == if mask[i] > 0 && c < 3 {
            0u8
        } else {
            px[4 * i + c]
        }
}

/// The dark mask of an image.
pub fn dark_mask(img: &RgbaRaster, threshold: u8) -> (mask: Vec<u8>)
    ensures
        mask@.len() == img.w() * img.h(),
        is_dark_mask(img.px(), threshold, mask@),
{
    let px = img.pixels();
    let plen = px.len();
    assert(plen == 4 * (img.w() * img.h())) by (nonlinear_arith)
        requires
            plen == img.w() * img.h() * 4,
    ;
    let n = plen / 4;
    let mut mask: Vec<u8> = Vec::new();
    for i in 0..n
        invariant
            px@ == img.px(),
            px@.len() == rgba_len(img.w() as nat, img.h() as nat),
            n * 4 == px@.len(),
            plen == px@.len(),
            mask@.len() == i,
            forall|k: int|
                0 <= k < i ==> #[trigger] mask@[k] == if max_rgb(px@, k) < threshold {
                    255u8
                } else {
                    0u8
                },
    {
        let r = px[4 * i];
        let g = px[4 * i + 1];
        let b = px[4 * i + 2];
        let m = if r >= g { r } else { g };
        let m = if m >= b { m } else { b };
        mask.push(if m < threshold { 255 } else { 0 });
    }
    mask
}

/// A pixel is in the dark mask exactly when each of its red, green and blue
/// channels is below the threshold (that is, when its brightest channel is);
/// every mask byte is 0 or 255.
pub proof fn lemma_dark_mask_is_all_channels_below(px: Seq<u8>, threshold: u8, mask: Seq<u8>)
    requires
        is_dark_mask(px, threshold, mask),
    ensures
        forall|i: int|
            0 <= i < mask.len() ==> (#[trigger] mask[i] == 255u8) == (px[4 * i] < threshold && px[4
                * i + 1] < threshold && px[4 * i + 2] < threshold),
        forall|i: int| 0 <= i < mask.len() ==> #[trigger] mask[i] == 0u8 || mask[i] == 255u8,
{
    assert forall|i: int| 0 <= i < mask.len() implies (#[trigger] mask[i] == 255u8) == (px[4 * i]
        < threshold && px[4 * i + 1] < threshold && px[4 * i + 2] < threshold) by {
        assert(mask[i] == if max_rgb(px, i) < threshold {
            255u8
        } else {
            0u8
        });
    }
}

/// Sets the colour of each masked pixel to black.
pub fn paint_black(img: &RgbaRaster, mask: &Vec<u8>) -> (r: RgbaRaster)
    requires
        mask@.len() == img.w() * img.h(),
    ensures
        r.w() == img.w(),
        r.h() == img.h(),
        is_painted(img.px(), mask@, r.px()),
{
    let px = img.pixels();
    let n = mask.len();
    let plen = px.len();
    assert(plen == px@.len());
    assert(px@.len() == 4 * n) by (nonlinear_arith)
        requires
            px@.len() == img.w() * img.h() * 4,
            n == img.w() * img.h(),
    ;
    let mut out: Vec<u8> = Vec::new();
    for i in 0..n
        invariant
            px@ == img.px(),
            px@.len() == 4 * n,
            plen == px@.len(),
            n == mask@.len(),
            out@.len() == 4 * i,
            forall|k: int, c: int|
                0 <= k < i && 0 <= c < 4 ==> #[trigger] out@[4 * k + c] == if mask@[k] > 0 && c
                    < 3 {
                    0u8
                } else {
                    px@[4 * k + c]
                },
    {
        let dark = mask[i] > 0;
        out.push(if dark { 0 } else { px[4 * i] });
        out.push(if dark { 0 } else { px[4 * i + 1] });
        out.push(if dark { 0 } else { px[4 * i + 2] });
        out.push(px[4 * i + 3]);
    }
    let r = RgbaRaster::new(img.width(), img.height(), out);
    r.unwrap()
}

/// A morphology radius as the byte the passes take: the configured radius,
/// capped at 255.
pub open spec fn radius_byte(r: u32) -> u8 {
    if r > 255 { 255 } else { r as u8 }
}

fn radius_of(r: u32) -> (b: u8)
    ensures
        b == radius_byte(r),
{
    if r > 255 { 255 } else { r as u8 }
}

/// The mask after the optional close and dilate passes.
pub open spec fn shaped_mask(w: u32, h: u32, mask: Seq<u8>, close: u32, dilate: u32) -> Seq<u8> {
    let closed = if close > 0 {
        closed_mask(w, h, mask, radius_byte(close))
    } else {
        mask
    };
    if dilate > 0 {
        dilated_mask(w, h, closed, radius_byte(dilate))
    } else {
        closed
    }
}

/// `r` is `img` with the (optionally closed, then dilated) dark mask painted black.
pub open spec fn is_dark_masked(img: RgbaRaster, cfg: PreprocessConfig, r: RgbaRaster) -> bool {
    &&& r.w() == img.w()
    &&& r.h() == img.h()
    &&& exists|mask: Seq<u8>|
        is_dark_mask(img.px(), cfg.dark_threshold, mask) && is_painted(
            img.px(),
            #[trigger] shaped_mask(img.w(), img.h(), mask, cfg.close_outline, cfg.dilate_dark),
            r.px(),
        )
}

/// Closing a mask by a radius below the distance cap keeps every set pixel set.
pub proof fn lemma_closing_keeps_set_pixels(w: u32, h: u32, m: Seq<u8>, k: u8, j: int)
    requires
        0 <= j < m.len(),
        m[j] > 0,
        distance_cap(w, h) > k,
    ensures
        closed_mask(w, h, m, k)[j] == 255u8,
{
    let dil = dilated_mask(w, h, m, k);
    if near(w, dil, j, k, false) {
        let r = choose|r: int|
            0 <= r < dil.len() && (dil[r] > 0) == false && #[trigger] chessboard(w, j, r) <= k;
        assert(chessboard(w, r, j) == chessboard(w, j, r));
        assert(near(w, m, r, k, true));
        assert(dil[r] == 255u8);
    }
}

/// Dilating the dark mask blackens every pixel within chessboard distance
/// `dilate_dark` (capped at 255) of a dark pixel;
/// alpha is kept. This holds after a closing too, as long as the closing
/// radius (capped at 255) stays below the distance cap `min(width + height, 255)`:
/// at the cap the erosion clears the whole mask.
pub proof fn lemma_dilation_blackens_neighbours(img: RgbaRaster, cfg: PreprocessConfig, r: RgbaRaster, i: int, j: int)
    requires
        img.px().len() == 4 * (img.w() * img.h()),
        is_dark_masked(img, cfg, r),
        cfg.close_outline == 0 || distance_cap(img.w(), img.h()) > radius_byte(cfg.close_outline),
        cfg.dilate_dark > 0,
        0 <= i < img.w() * img.h(),
        0 <= j < img.w() * img.h(),
        max_rgb(img.px(), j) < cfg.dark_threshold,
        chessboard(img.w(), i, j) <= radius_byte(cfg.dilate_dark),
    ensures
        r.px()[4 * i] == 0 && r.px()[4 * i + 1] == 0 && r.px()[4 * i + 2] == 0,
        r.px()[4 * i + 3] == img.px()[4 * i + 3],
{
    let mask = choose|mask: Seq<u8>|
        is_dark_mask(img.px(), cfg.dark_threshold, mask) && is_painted(
            img.px(),
            #[trigger] shaped_mask(img.w(), img.h(), mask, cfg.close_outline, cfg.dilate_dark),
            r.px(),
        );
    let k = radius_byte(cfg.dilate_dark);
    let kc = radius_byte(cfg.close_outline);
    let closed = if cfg.close_outline > 0 {
        closed_mask(img.w(), img.h(), mask, kc)
    } else {
        mask
    };
    let shaped = shaped_mask(img.w(), img.h(), mask, cfg.close_outline, cfg.dilate_dark);
    assert(mask.len() == img.w() * img.h());
    assert(mask[j] == 255u8);
    if cfg.close_outline > 0 {
        lemma_closing_keeps_set_pixels(img.w(), img.h(), mask, kc, j);
    }
    assert(closed.len() == mask.len());
    assert(closed[j] > 0);
    assert(shaped == dilated_mask(img.w(), img.h(), closed, k));
    assert(chessboard(img.w(), i, j) <= k);
    assert(near(img.w(), closed, i, k, true));
    assert(shaped[i] == 255u8);
    assert(r.px()[4 * i + 0] == 0u8);
    assert(r.px()[4 * i + 1] == 0u8);
    assert(r.px()[4 * i + 2] == 0u8);
    assert(r.px()[4 * i + 3] == img.px()[4 * i + 3]);
}

/// Without a closing or a dilation, painting the dark mask blackens exactly the
/// pixels whose red, green and blue channels are all below the threshold; every
/// other pixel keeps its colour, and every pixel keeps its alpha.
pub proof fn lemma_dark_paint_without_shaping(img: RgbaRaster, cfg: PreprocessConfig, r: RgbaRaster, i: int)
    requires
        img.px().len() == 4 * (img.w() * img.h()),
        is_dark_masked(img, cfg, r),
        cfg.close_outline == 0,
        cfg.dilate_dark == 0,
        0 <= i < img.w() * img.h(),
    ensures
        img.px()[4 * i] < cfg.dark_threshold && img.px()[4 * i + 1] < cfg.dark_threshold
            && img.px()[4 * i + 2] < cfg.dark_threshold ==> r.px()[4 * i] == 0 && r.px()[4 * i + 1]
            == 0 && r.px()[4 * i + 2] == 0,
        !(img.px()[4 * i] < cfg.dark_threshold && img.px()[4 * i + 1] < cfg.dark_threshold
            && img.px()[4 * i + 2] < cfg.dark_threshold) ==> r.px()[4 * i] == img.px()[4 * i]
            && r.px()[4 * i + 1] == img.px()[4 * i + 1] && r.px()[4 * i + 2] == img.px()[4 * i + 2],
        r.px()[4 * i + 3] == img.px()[4 * i + 3],
{
    let mask = choose|mask: Seq<u8>|
        is_dark_mask(img.px(), cfg.dark_threshold, mask) && is_painted(
            img.px(),
            #[trigger] shaped_mask(img.w(), img.h(), mask, cfg.close_outline, cfg.dilate_dark),
            r.px(),
        );
    assert(shaped_mask(img.w(), img.h(), mask, cfg.close_outline, cfg.dilate_dark) == mask);
    lemma_dark_mask_is_all_channels_below(img.px(), cfg.dark_threshold, mask);
    assert(mask.len() == img.w() * img.h());
    assert(mask[i] == 255u8 || mask[i] == 0u8);
    assert(r.px()[4 * i + 0] == if mask[i] > 0 { 0u8 } else { img.px()[4 * i + 0] });
    assert(r.px()[4 * i + 1] == if mask[i] > 0 { 0u8 } else { img.px()[4 * i + 1] });
    assert(r.px()[4 * i + 2] == if mask[i] > 0 { 0u8 } else { img.px()[4 * i + 2] });
    assert(r.px()[4 * i + 3] == img.px()[4 * i + 3]);
}

/// Paint the dark mask (optionally closed/dilated) pure black so the tracer sees
/// one solid outline instead of a gradient of anti-aliased pixels.
pub fn apply_dark_mask(img: &RgbaRaster, cfg: &PreprocessConfig) -> (r: RgbaRaster)
    requires
        cfg.close_outline > 0 || cfg.dilate_dark > 0 ==> img.w() + img.h() <= u32::MAX,
    ensures
        is_dark_masked(*img, *cfg, r),
{
    let w = img.width();
    let h = img.height();
    let mask0 = dark_mask(img, cfg.dark_threshold);
    let ghost m0 = mask0@;
    let mut mask = mask0;
    if cfg.close_outline > 0 {
        mask = close_mask(w, h, mask, radius_of(cfg.close_outline));
    }
    if cfg.dilate_dark > 0 {
        mask = dilate_mask(w, h, mask, radius_of(cfg.dilate_dark));
    }
    assert(mask@ == shaped_mask(w, h, m0, cfg.close_outline, cfg.dilate_dark));
    paint_black(img, &mask)
}

/// `rgb` holds the red, green and blue bytes of every pixel of `img`, packed.
pub open spec fn is_rgb_samples(img: RgbaRaster, rgb: Seq<u8>) -> bool {
    &&& rgb.len() == 3 * (img.w() * img.h())
    &&& forall|i: int, c: int|
        0 <= i < img.w() * img.h() && 0 <= c < 3 ==> #[trigger] rgb[3 * i + c] == img.px()[4 * i + c]
}

/// The red, green and blue bytes of every pixel, packed.
pub fn rgb_samples(img: &RgbaRaster) -> (rgb: Vec<u8>)
    ensures
        is_rgb_samples(*img, rgb@),
{
    let px = img.pixels();
    let plen = px.len();
    assert(plen == 4 * (img.w() * img.h())) by (nonlinear_arith)
        requires
            plen == img.w() * img.h() * 4,
    ;
    let n = plen / 4;
    let mut rgb: Vec<u8> = Vec::new();
    for i in 0..n
        invariant
            px@ == img.px(),
            n * 4 == px@.len(),
            plen == px@.len(),
            n == img.w() * img.h(),
            rgb@.len() == 3 * i,
            forall|k: int, c: int|
                0 <= k < i && 0 <= c < 3 ==> #[trigger] rgb@[3 * k + c] == px@[4 * k + c],
    {
        rgb.push(px[4 * i]);
        rgb.push(px[4 * i + 1]);
        rgb.push(px[4 * i + 2]);
    }
    rgb
}

/// Channel `c` (red 0, green 1, blue 2) of a palette colour.
pub open spec fn channel_of(color: (u8, u8, u8), c: int) -> u8 {
    if c == 0 {
        color.0
    } else if c == 1 {
        color.1
    } else {
        color.2
    }
}

/// Every index used for a pixel names a palette entry.
pub open spec fn indices_valid(n: nat, indices: Seq<u8>, palette_len: nat) -> bool {
    forall|i: int| 0 <= i < n && 0 <= i < indices.len() ==> (#[trigger] indices[i]) < palette_len
}

/// `out` is `px` (of `n` pixels) with the colour of pixel `i` replaced by
/// palette entry `indices[i]` for every `i` that has an index; alpha is kept.
pub open spec fn is_quantized(
    px: Seq<u8>,
    n: nat,
    indices: Seq<u8>,
    palette: Seq<(u8, u8, u8)>,
    out: Seq<u8>,
) -> bool {
    &&& px.len() == 4 * n
    &&& out.len() == px.len()
    &&& forall|i: int, c: int|
        0 <= i < n && 0 <= c < 4 ==> #[trigger] out[4 * i + c] == if i < indices.len() && c < 3 {
            channel_of(palette[indices[i] as int], c)
        } else {
            px[4 * i + c]
        }
}

/// Writes the palette colour of each pixel's cluster into the image.
pub fn write_quantized(img: &RgbaRaster, indices: &Vec<u8>, palette: &Vec<(u8, u8, u8)>) -> (r: RgbaRaster)
    requires
        indices_valid((img.w() * img.h()) as nat, indices@, palette@.len()),
    ensures
        r.w() == img.w(),
        r.h() == img.h(),
        is_quantized(img.px(), (img.w() * img.h()) as nat, indices@, palette@, r.px()),
{
    let px = img.pixels();
    let plen = px.len();
    assert(plen == 4 * (img.w() * img.h())) by (nonlinear_arith)
        requires
            plen == img.w() * img.h() * 4,
    ;
    let n = plen / 4;
    let mut out: Vec<u8> = Vec::new();
    for i in 0..n
        invariant
            px@ == img.px(),
            n * 4 == px@.len(),
            plen == px@.len(),
            n == img.w() * img.h(),
            indices_valid(n as nat, indices@, palette@.len()),
            out@.len() == 4 * i,
            forall|k: int, c: int|
                0 <= k < i && 0 <= c < 4 ==> #[trigger] out@[4 * k + c] == if k < indices@.len()
                    && c < 3 {
                    channel_of(palette@[indices@[k] as int], c)
                } else {
                    px@[4 * k + c]
                },
    {
        if i < indices.len() {
            let color = palette[indices[i] as usize];
            out.push(color.0);
            out.push(color.1);
            out.push(color.2);
        } else {
            out.push(px[4 * i]);
            out.push(px[4 * i + 1]);
            out.push(px[4 * i + 2]);
        }
        out.push(px[4 * i + 3]);
    }
    RgbaRaster::new(img.width(), img.height(), out).unwrap()
}

/// A copy of an image.
pub fn copy_raster(img: &RgbaRaster) -> (r: RgbaRaster)
    ensures
        same_image(r, *img),
{
    let px = img.pixels().clone();
    RgbaRaster::new(img.width(), img.height(), px).unwrap()
}

/// `r` keeps the dimensions and the alpha channel of `img`.
pub open spec fn keeps_shape_and_alpha(img: RgbaRaster, r: RgbaRaster) -> bool {
    &&& r.w() == img.w()
    &&& r.h() == img.h()
    &&& forall|i: int| 0 <= i < img.w() * img.h() ==> #[trigger] r.px()[4 * i + 3] == img.px()[4 * i + 3]
}

/// A clustering that can be applied to `n` pixels for at most `k` colours:
/// one cluster index per pixel, at most `k` clusters, and every index naming
/// one of them.
pub open spec fn clustering_fits(n: nat, k: nat, indices: Seq<u8>, palette: Seq<(u8, u8, u8)>) -> bool {
    &&& indices.len() == n
    &&& palette.len() <= k
    &&& indices_valid(n, indices, palette.len())
}

/// `r` is `img` quantized by the clustering stage: the stage runs on the
/// image's packed RGB bytes with `k` and `lab`, and when what it returns fits,
/// every pixel takes the colour of its cluster (so the image has at most `k`
/// colours) and keeps its alpha; a clustering that does not fit leaves the
/// image as it was.
pub open spec fn quantized_by<S: RasterStages>(stages: &S, img: RgbaRaster, k: usize, lab: bool, r: RgbaRaster) -> bool {
    exists|rgb: Vec<u8>, out: (Vec<u8>, Vec<(u8, u8, u8)>)|
        #![trigger call_ensures(S::cluster_colors, (stages, &rgb, k, lab), out)]
        is_rgb_samples(img, rgb@) && call_ensures(S::cluster_colors, (stages, &rgb, k, lab), out)
            && if clustering_fits((img.w() * img.h()) as nat, k as nat, out.0@, out.1@) {
            &&& r.w() == img.w()
            &&& r.h() == img.h()
            &&& is_quantized(img.px(), (img.w() * img.h()) as nat, out.0@, out.1@, r.px())
        } else {
            same_image(r, img)
        }
}

/// Colour quantization to at most `k` colours by the clustering stage (k-means,
/// in CIELAB when `lab` holds, else in sRGB) on the RGB bytes; alpha is
/// preserved per pixel.
pub fn quantize<S: RasterStages>(img: &RgbaRaster, k: usize, lab: bool, stages: &S) -> (r: RgbaRaster)
    ensures
        quantized_by(stages, *img, k, lab, r),
        keeps_shape_and_alpha(*img, r),
{
    let rgb = rgb_samples(img);
    let out = stages.cluster_colors(&rgb, k, lab);
    let ghost gout = out;
    let (indices, palette) = out;
    let n = img.pixels().len() / 4;
    assert(n == img.w() * img.h());
    let mut ok = indices.len() == n && palette.len() <= k;
    for i in 0..n
        invariant
            n == img.w() * img.h(),
            ok ==> indices@.len() == n && palette@.len() <= k,
            ok ==> forall|j: int| 0 <= j < i && 0 <= j < indices@.len() ==> (#[trigger] indices@[j]) < palette@.len(),
            !ok ==> !(indices@.len() == n && palette@.len() <= k) || exists|j: int|
                0 <= j < i && 0 <= j < indices@.len() && (#[trigger] indices@[j]) >= palette@.len(),
    {
        if i < indices.len() && indices[i] as usize >= palette.len() {
            ok = false;
        }
    }
    assert(gout.0@ == indices@ && gout.1@ == palette@);
    if ok {
        let r = write_quantized(img, &indices, &palette);
        assert(clustering_fits(n as nat, k as nat, indices@, palette@));
        assert forall|i: int| 0 <= i < img.w() * img.h() implies #[trigger] r.px()[4 * i + 3] == img.px()[4 * i + 3] by {
            assert(r.px()[4 * i + 3] == img.px()[4 * i + 3]);
        }
        r
    } else {
        assert(!clustering_fits(n as nat, k as nat, indices@, palette@));
        copy_raster(img)
    }
}

/// `r` is `img` quantized by median cut to at most `k` colours: every pixel
/// takes the mean colour of its box; alpha is kept.
pub open spec fn median_quantized(img: RgbaRaster, k: usize, r: RgbaRaster) -> bool {
    exists|rgb: Seq<u8>|
        #[trigger] is_rgb_samples(img, rgb) && mc_palette(rgb, k).len() <= k && r.w() == img.w() && r.h()
            == img.h() && is_quantized(
            img.px(),
            (img.w() * img.h()) as nat,
            mc_labels(rgb, k),
            mc_palette(rgb, k),
            r.px(),
        )
}

proof fn lemma_rgb_samples_unique(img: RgbaRaster, a: Seq<u8>, b: Seq<u8>)
    requires
        is_rgb_samples(img, a),
        is_rgb_samples(img, b),
    ensures
        a == b,
{
    assert forall|x: int| 0 <= x < a.len() implies a[x] == b[x] by {
        let i = x / 3;
        let c = x % 3;
        assert(x == 3 * i + c);
        assert(0 <= i < img.w() * img.h());
        assert(a[3 * i + c] == img.px()[4 * i + c]);
        assert(b[3 * i + c] == img.px()[4 * i + c]);
    }
    assert(a =~= b);
}

/// Median-cut quantization is reproducible: two results for the same image
/// and colour count are the same image.
pub proof fn lemma_median_quantization_reproducible(img: RgbaRaster, k: usize, r1: RgbaRaster, r2: RgbaRaster)
    requires
        median_quantized(img, k, r1),
        median_quantized(img, k, r2),
    ensures
        r1.w() == r2.w() && r1.h() == r2.h() && r1.px() == r2.px(),
{
    let a = choose|rgb: Seq<u8>|
        #[trigger] is_rgb_samples(img, rgb) && mc_palette(rgb, k).len() <= k && r1.w() == img.w()
            && r1.h() == img.h() && is_quantized(
            img.px(),
            (img.w() * img.h()) as nat,
            mc_labels(rgb, k),
            mc_palette(rgb, k),
            r1.px(),
        );
    let b = choose|rgb: Seq<u8>|
        #[trigger] is_rgb_samples(img, rgb) && mc_palette(rgb, k).len() <= k && r2.w() == img.w()
            && r2.h() == img.h() && is_quantized(
            img.px(),
            (img.w() * img.h()) as nat,
            mc_labels(rgb, k),
            mc_palette(rgb, k),
            r2.px(),
        );
    lemma_rgb_samples_unique(img, a, b);
    let n = (img.w() * img.h()) as nat;
    assert forall|x: int| 0 <= x < r1.px().len() implies r1.px()[x] == r2.px()[x] by {
        let i = x / 4;
        let c = x % 4;
        assert(x == 4 * i + c);
        assert(0 <= i < n);
        assert(r1.px()[4 * i + c] == r2.px()[4 * i + c]);
    }
    assert(r1.px() =~= r2.px());
}

/// Colour quantization to at most `k` colours by median cut on the RGB bytes;
/// alpha is preserved per pixel.
pub fn quantize_median(img: &RgbaRaster, k: usize) -> (r: RgbaRaster)
    requires
        k >= 1,
    ensures
        median_quantized(*img, k, r),
        keeps_shape_and_alpha(*img, r),
{
    let rgb = rgb_samples(img);
    let (labels, palette) = median_cut(&rgb, k);
    let r = write_quantized(img, &labels, &palette);
    assert(is_rgb_samples(*img, rgb@));
    assert forall|i: int| 0 <= i < img.w() * img.h() implies #[trigger] r.px()[4 * i + 3] == img.px()[4 * i + 3] by {
        assert(r.px()[4 * i + 3] == img.px()[4 * i + 3]);
    }
    r
}

/// The upscaled image still fits in memory: its RGBA buffer length fits in `usize`.
pub open spec fn upscale_fits(img: RgbaRaster, upscale: u32) -> bool {
    rgba_len(scaled_side(img.w(), upscale) as nat, scaled_side(img.h(), upscale) as nat) <= usize::MAX
}

/// Lanczos resampling to the upscaled size.
pub fn upscale_image(img: &RgbaRaster, upscale: Thousandths) -> (r: RgbaRaster)
    requires
        upscale_fits(*img, upscale.0),
    ensures
        r.w() == scaled_side(img.w(), upscale.0),
        r.h() == scaled_side(img.h(), upscale.0),
        r.w() == img.w() && r.h() == img.h() ==> r.px() == img.px(),
{
    let nw = scale_side(img.width(), upscale);
    let nh = scale_side(img.height(), upscale);
    let px = resize_lanczos(img.width(), img.height(), img.pixels(), nw, nh);
    RgbaRaster::new(nw, nh, px).unwrap()
}

/// The bilateral filter's diameter: the configured one, at least 1.
pub open spec fn bilateral_diameter(cfg: PreprocessConfig) -> u32 {
    if cfg.bilateral_d >= 1 { cfg.bilateral_d } else { 1 }
}

/// A bilateral sigma: the configured one, at least 1.
pub open spec fn bilateral_sigma(t: Thousandths) -> Thousandths {
    if t.0 >= 1000 { t } else { Thousandths(1000) }
}

/// The bilateral filter's settings: diameter and both sigmas, each at least 1.
pub fn bilateral_settings(cfg: &PreprocessConfig) -> (r: (u32, Thousandths, Thousandths))
    ensures
        r.0 == bilateral_diameter(*cfg),
        r.1 == bilateral_sigma(cfg.bilateral_sigma_color),
        r.2 == bilateral_sigma(cfg.bilateral_sigma_space),
{
    let d = if cfg.bilateral_d >= 1 { cfg.bilateral_d } else { 1 };
    let sc = if cfg.bilateral_sigma_color.0 >= 1000 { cfg.bilateral_sigma_color } else { Thousandths(1000) };
    let ss = if cfg.bilateral_sigma_space.0 >= 1000 { cfg.bilateral_sigma_space } else { Thousandths(1000) };
    (d, sc, ss)
}

/// The number of colours to quantize to: the configured count, at least 1.
pub open spec fn colour_count_of(cfg: PreprocessConfig) -> usize {
    if cfg.quantize_colors >= 1 { cfg.quantize_colors } else { 1 }
}

/// The number of colours to quantize to: the configured count, at least 1.
pub fn color_count(cfg: &PreprocessConfig) -> (k: usize)
    ensures
        k == colour_count_of(*cfg),
{
    if cfg.quantize_colors >= 1 { cfg.quantize_colors } else { 1 }
}

/// One side after the upscaling step.
pub open spec fn upscaled_side(side: u32, cfg: PreprocessConfig) -> u32 {
    if cfg.upscale.0 == 1000 {
        side
    } else {
        scaled_side(side, cfg.upscale.0)
    }
}

/// The upscaling step: none at factor 1, else Lanczos resampling to the
/// scaled size (a resampling to the same size copies the pixels; the
/// resampled values themselves are left to the `image` crate).
pub open spec fn resize_step(img: RgbaRaster, cfg: PreprocessConfig, u: RgbaRaster) -> bool {
    if cfg.upscale.0 == 1000 {
        same_image(u, img)
    } else {
        &&& u.w() == scaled_side(img.w(), cfg.upscale.0)
        &&& u.h() == scaled_side(img.h(), cfg.upscale.0)
        &&& u.w() == img.w() && u.h() == img.h() ==> u.px() == img.px()
    }
}

/// `b` is `img` with the red, green and blue of pixel `i` taken from
/// `rgb[3 * i ..]` for every pixel that `rgb` covers; size and alpha are kept.
pub open spec fn is_recoloured(img: RgbaRaster, rgb: Seq<u8>, b: RgbaRaster) -> bool {
    &&& b.w() == img.w()
    &&& b.h() == img.h()
    &&& forall|i: int, c: int|
        0 <= i < img.w() * img.h() && 0 <= c < 4 ==> #[trigger] b.px()[4 * i + c] == if c < 3 && 3
            * i + c < rgb.len() {
            rgb[3 * i + c]
        } else {
            img.px()[4 * i + c]
        }
}

/// Writes packed RGB bytes into an image's pixels, in order, keeping its size
/// and alpha; pixels past the end of `rgb` keep their colour.
pub fn write_rgb(img: &RgbaRaster, rgb: &Vec<u8>) -> (r: RgbaRaster)
    ensures
        is_recoloured(*img, rgb@, r),
{
    let px = img.pixels();
    let plen = px.len();
    assert(plen == 4 * (img.w() * img.h())) by (nonlinear_arith)
        requires
            plen == img.w() * img.h() * 4,
    ;
    let n = plen / 4;
    let mut out: Vec<u8> = Vec::new();
    for i in 0..n
        invariant
            px@ == img.px(),
            n * 4 == px@.len(),
            plen == px@.len(),
            n == img.w() * img.h(),
            out@.len() == 4 * i,
            forall|k: int, c: int|
                0 <= k < i && 0 <= c < 4 ==> #[trigger] out@[4 * k + c] == if c < 3 && 3 * k + c
                    < rgb@.len() {
                    rgb@[3 * k + c]
                } else {
                    px@[4 * k + c]
                },
    {
        let base = 3 * i;
        out.push(if base < rgb.len() { rgb[base] } else { px[4 * i] });
        out.push(if base + 1 < rgb.len() { rgb[base + 1] } else { px[4 * i + 1] });
        out.push(if base + 2 < rgb.len() { rgb[base + 2] } else { px[4 * i + 2] });
        out.push(px[4 * i + 3]);
    }
    RgbaRaster::new(img.width(), img.height(), out).unwrap()
}

/// The smoothing step: when on, the bilateral stage runs on the image with
/// the settings of `bilateral_settings` and the colours it returns are
/// written into the image, keeping size and alpha; when off, the image unchanged.
pub open spec fn bilateral_step<S: RasterStages>(stages: &S, u: RgbaRaster, cfg: PreprocessConfig, b: RgbaRaster) -> bool {
    if cfg.bilateral {
        exists|rgb: Vec<u8>|
            #[trigger] call_ensures(
                S::bilateral,
                (
                    stages,
                    &u,
                    bilateral_diameter(cfg),
                    bilateral_sigma(cfg.bilateral_sigma_color),
                    bilateral_sigma(cfg.bilateral_sigma_space),
                ),
                rgb,
            ) && is_recoloured(u, rgb@, b)
    } else {
        same_image(b, u)
    }
}

/// The dark mask is painted: a close or dilate radius is set.
pub open spec fn masks(cfg: PreprocessConfig) -> bool {
    cfg.dilate_dark > 0 || cfg.close_outline > 0
}

/// The dark-mask step: applied when a close or dilate radius is set.
pub open spec fn mask_step(b: RgbaRaster, cfg: PreprocessConfig, m: RgbaRaster) -> bool {
    if masks(cfg) {
        is_dark_masked(b, cfg, m)
    } else {
        same_image(m, b)
    }
}

/// The quantization step: when on, quantized to the configured number of
/// colours by the k-means clustering stage when `quantize_kmeans` is set, else
/// by median cut; when off, the image unchanged.
pub open spec fn quantize_step<S: RasterStages>(stages: &S, m: RgbaRaster, cfg: PreprocessConfig, r: RgbaRaster) -> bool {
    if cfg.quantize {
        if cfg.quantize_kmeans {
            quantized_by(stages, m, colour_count_of(cfg), cfg.quantize_lab, r)
        } else {
            median_quantized(m, colour_count_of(cfg), r)
        }
    } else {
        same_image(r, m)
    }
}

/// The message for an image too large for the dark-mask morphology, whose
/// distance transform adds width and height in 32 bits.
pub open spec fn mask_too_large_message() -> Seq<char> {
    "image too large for the dark mask"@
}

/// After smoothing: the error when the mask would run on an image whose width
/// and height do not sum within `u32`; else the dark-mask and quantization steps.
pub open spec fn after_smoothing<S: RasterStages>(
    stages: &S,
    b: RgbaRaster,
    cfg: PreprocessConfig,
    r: Result<RgbaRaster, String>,
) -> bool {
    if masks(cfg) && b.w() + b.h() > u32::MAX {
        r matches Err(e) && e@ == mask_too_large_message()
    } else {
        r matches Ok(x) && exists|m: RgbaRaster| #[trigger] mask_step(b, cfg, m) && quantize_step(stages, m, cfg, x)
    }
}

/// `r` comes from `img` by the four passes in order.
pub open spec fn is_preprocessed<S: RasterStages>(
    stages: &S,
    img: RgbaRaster,
    cfg: PreprocessConfig,
    r: Result<RgbaRaster, String>,
) -> bool {
    exists|u: RgbaRaster, b: RgbaRaster|
        #![trigger resize_step(img, cfg, u), bilateral_step(stages, u, cfg, b)]
        resize_step(img, cfg, u) && bilateral_step(stages, u, cfg, b) && after_smoothing(stages, b, cfg, r)
}

/// Runs the pre-processing passes: upscale, bilateral smoothing, dark mask,
/// quantization, each when its setting asks for it.
pub fn preprocess<S: RasterStages>(img: &RgbaRaster, cfg: &PreprocessConfig, stages: &S) -> (r: Result<RgbaRaster, String>)
    requires
        cfg.upscale.0 == 1000 || upscale_fits(*img, cfg.upscale.0),
    ensures
        is_preprocessed(stages, *img, *cfg, r),
        r matches Ok(x) ==> x.w() == upscaled_side(img.w(), *cfg) && x.h() == upscaled_side(
            img.h(),
            *cfg,
        ),
        r is Err <==> masks(*cfg) && upscaled_side(img.w(), *cfg) + upscaled_side(img.h(), *cfg)
            > u32::MAX,
{
    let u = if cfg.upscale.0 != 1000 {
        upscale_image(img, cfg.upscale)
    } else {
        copy_raster(img)
    };
    let ghost gu = u;
    let b = if cfg.bilateral {
        let (d, sc, ss) = bilateral_settings(cfg);
        let rgb = stages.bilateral(&u, d, sc, ss);
        write_rgb(&u, &rgb)
    } else {
        u
    };
    let ghost gb = b;
    assert(resize_step(*img, *cfg, gu) && bilateral_step(stages, gu, *cfg, gb));
    let masking = cfg.dilate_dark > 0 || cfg.close_outline > 0;
    if masking && b.width() as u64 + b.height() as u64 > 0xffff_ffffu64 {
        return Err(String::from_str("image too large for the dark mask"));
    }
    let m = if masking {
        apply_dark_mask(&b, cfg)
    } else {
        b
    };
    let r = if cfg.quantize {
        if cfg.quantize_kmeans {
            quantize(&m, color_count(cfg), cfg.quantize_lab, stages)
        } else {
            quantize_median(&m, color_count(cfg))
        }
    } else {
        m
    };
    assert(mask_step(gb, *cfg, m) && quantize_step(stages, m, *cfg, r));
    Ok(r)
}

} // verus!
