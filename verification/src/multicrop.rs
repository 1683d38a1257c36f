//! Multicrop: cut several rectangular crops out of one image in a single pass.
//!
//! Each [`CropBox`] is given in pixel coordinates of the source image. Boxes are
//! clamped to the image bounds, so a box that runs past an edge is trimmed rather
//! than rejected; a box with no overlap (zero area after clamping) errors. Every
//! crop is PNG-encoded.

use vstd::prelude::*;
use crate::raster::{channel_index, rgba_len, RgbaRaster};
use crate::imaging::{decoded_rgba, encode_png, image_error_text, lossless_png_limit, png_encoding};
use crate::decode;
use crate::text::{
    chars_of, control, decimal, decimal_chars, extend_chars, is_control, is_white_space,
    lemma_trim_ends, lemma_trim_is_subrange, lemma_trim_noop, string_from_chars, trim, trim_chars,
};

verus! {

/// A rectangle to crop, in source-image pixels. `label`, when present, names the
/// output file (`<label>.png`); otherwise crops are named `crop-1`, `crop-2`, ….
#[derive(Debug, Clone)]
pub struct CropBox {
    pub x: u32,
    pub y: u32,
    pub width: u32,
    pub height: u32,
    pub label: Option<String>,
}

pub open spec fn min_u32(a: u32, b: u32) -> u32 {
    if a <= b { a } else { b }
}

/// The box clamped to a `iw` by `ih` image: `(x, y, width, height)`.
pub open spec fn clamp_box(iw: u32, ih: u32, x: u32, y: u32, width: u32, height: u32) -> (u32, u32, u32, u32) {
    let cx = min_u32(x, iw);
    let cy = min_u32(y, ih);
    (cx, cy, min_u32(width, (iw - cx) as u32), min_u32(height, (ih - cy) as u32))
}

/// Rows `0..rows` of the `w`-pixel-wide window at (`x`, `y`) of a row-major
/// RGBA buffer of width `iw`, one after another.
pub open spec fn crop_rows(px: Seq<u8>, iw: nat, x: nat, y: nat, w: nat, rows: nat) -> Seq<u8>
    decreases rows,
{
    if rows == 0 {
        Seq::empty()
    } else {
        let r = (rows - 1) as nat;
        crop_rows(px, iw, x, y, w, r) + px.subrange(
            channel_index(iw, x, y + r, 0) as int,
            channel_index(iw, x + w, y + r, 0) as int,
        )
    }
}

/// The RGBA bytes of the `w` by `h` window at (`x`, `y`) of `img`.
pub open spec fn cropped(img: RgbaRaster, x: u32, y: u32, w: u32, h: u32) -> Seq<u8> {
    crop_rows(img.px(), img.w() as nat, x as nat, y as nat, w as nat, h as nat)
}

/// The message for a box with no overlap.
pub open spec fn zero_area_message() -> Seq<char> {
    "box has zero area within the image"@
}

/// A box that lies inside the image is cropped at its own position and size.
pub proof fn lemma_inside_box_unchanged(iw: u32, ih: u32, x: u32, y: u32, width: u32, height: u32)
    requires
        x + width <= iw,
        y + height <= ih,
    ensures
        clamp_box(iw, ih, x, y, width, height) == (x, y, width, height),
{
}

/// A clamped box always lies inside the image.
pub proof fn lemma_clamped_box_inside(iw: u32, ih: u32, x: u32, y: u32, width: u32, height: u32)
    ensures
        ({
            let (cx, cy, cw, ch) = clamp_box(iw, ih, x, y, width, height);
            cx + cw <= iw && cy + ch <= ih && cw <= width && ch <= height
        }),
{
}

/// The clamped box is the overlap of the requested box with the image: a
/// column `u` lies in the clamped box exactly when it lies in the requested box and
/// inside the image, and likewise for a row `v`. A box that runs past an edge is
/// trimmed there, never moved.
pub proof fn lemma_clamped_box_is_overlap(iw: u32, ih: u32, x: u32, y: u32, width: u32, height: u32, u: int, v: int)
    ensures
        ({
            let (cx, cy, cw, ch) = clamp_box(iw, ih, x, y, width, height);
            &&& (cx <= u < cx + cw) == (x <= u < x + width && 0 <= u < iw)
            &&& (cy <= v < cy + ch) == (y <= v < y + height && 0 <= v < ih)
        }),
{
}

/// `s` begins with `p`.
pub open spec fn starts_with(s: Seq<char>, p: Seq<char>) -> bool {
    s.len() >= p.len() && s.take(p.len() as int) == p
}

/// What `crop_one` gives for `b` on `img`: the zero-area error, or the PNG
/// of the clamped window, which decodes back to exactly that window.
pub open spec fn crop_outcome(img: RgbaRaster, b: CropBox, r: Result<Vec<u8>, String>) -> bool {
    let (x, y, w, h) = clamp_box(img.w(), img.h(), b.x, b.y, b.width, b.height);
    if w == 0 || h == 0 {
        r matches Err(e) && e@ == zero_area_message()
    } else {
        &&& r matches Ok(png) && png@ == png_encoding(w, h, cropped(img, x, y, w, h))
        &&& rgba_len(w as nat, h as nat) <= lossless_png_limit() ==> (r matches Ok(png)
            ==> decoded_rgba(png@) == Some((w, h, cropped(img, x, y, w, h))))
    }
}

/// On a box that overlaps the image at its own corner, `crop_one` succeeds and
/// the PNG holds the window that starts at the box's own corner and runs to the
/// box's far edge or the image's edge, whichever comes first; pixel
/// (`c`, `row`) of the crop is pixel (`b.x + c`, `b.y + row`) of the image.
pub proof fn lemma_crop_one_window(img: RgbaRaster, b: CropBox, r: Result<Vec<u8>, String>, c: nat, row: nat, k: nat)
    requires
        img.px().len() == rgba_len(img.w() as nat, img.h() as nat),
        crop_outcome(img, b, r),
        b.x < img.w(),
        b.y < img.h(),
        c < b.width,
        b.x + c < img.w(),
        row < b.height,
        b.y + row < img.h(),
        k < 4,
    ensures
        ({
            let w = if b.width <= img.w() - b.x { b.width } else { (img.w() - b.x) as u32 };
            let h = if b.height <= img.h() - b.y { b.height } else { (img.h() - b.y) as u32 };
            &&& r is Ok
            &&& r->Ok_0@ == png_encoding(w, h, cropped(img, b.x, b.y, w, h))
            &&& cropped(img, b.x, b.y, w, h)[channel_index(w as nat, c, row, k) as int]
                == img.px()[channel_index(img.w() as nat, b.x as nat + c, b.y as nat + row, k) as int]
        }),
{
    let w = if b.width <= img.w() - b.x { b.width } else { (img.w() - b.x) as u32 };
    let h = if b.height <= img.h() - b.y { b.height } else { (img.h() - b.y) as u32 };
    assert(clamp_box(img.w(), img.h(), b.x, b.y, b.width, b.height) == (b.x, b.y, w, h));
    lemma_crop_pixel(img, b.x, b.y, w, h, c, row, k);
}

proof fn lemma_row_in_bounds(iw: nat, ih: nat, x: nat, y: nat, w: nat, r: nat)
    requires
        y + r < ih,
        x + w <= iw,
    ensures
        channel_index(iw, x, y + r, 0) <= channel_index(iw, x + w, y + r, 0) <= rgba_len(iw, ih),
        ((y + r) * iw + x + w) * 4 <= rgba_len(iw, ih),
        channel_index(iw, x + w, y + r, 0) - channel_index(iw, x, y + r, 0) == w * 4,
{
    assert(((y + r) * iw + x + w) * 4 <= iw * ih * 4) by (nonlinear_arith)
        requires
            y + r < ih,
            x + w <= iw,
    ;
}

proof fn lemma_crop_rows_len(px: Seq<u8>, iw: nat, ih: nat, x: nat, y: nat, w: nat, rows: nat)
    requires
        y + rows <= ih,
        x + w <= iw,
        px.len() == rgba_len(iw, ih),
    ensures
        crop_rows(px, iw, x, y, w, rows).len() == w * rows * 4,
    decreases rows,
{
    if rows == 0 {
        assert(w * rows * 4 == 0) by (nonlinear_arith)
            requires
                rows == 0,
        ;
    } else {
        let r = (rows - 1) as nat;
        lemma_crop_rows_len(px, iw, ih, x, y, w, r);
        lemma_row_in_bounds(iw, ih, x, y, w, r);
        assert(w * r * 4 + w * 4 == w * rows * 4) by (nonlinear_arith)
            requires
                r + 1 == rows,
        ;
    }
}

proof fn lemma_crop_rows_pixel(
    px: Seq<u8>,
    iw: nat,
    ih: nat,
    x: nat,
    y: nat,
    w: nat,
    rows: nat,
    r: nat,
    c: nat,
    k: nat,
)
    requires
        y + rows <= ih,
        x + w <= iw,
        px.len() == rgba_len(iw, ih),
        r < rows,
        c < w,
        k < 4,
    ensures
        crop_rows(px, iw, x, y, w, rows)[channel_index(w, c, r, k) as int] == px[channel_index(
            iw,
            x + c,
            y + r,
            k,
        ) as int],
    decreases rows,
{
    let last = (rows - 1) as nat;
    lemma_crop_rows_len(px, iw, ih, x, y, w, last);
    lemma_row_in_bounds(iw, ih, x, y, w, last);
    let prefix = crop_rows(px, iw, x, y, w, last);
    if r < last {
        lemma_crop_rows_pixel(px, iw, ih, x, y, w, last, r, c, k);
        assert(channel_index(w, c, r, k) < w * last * 4) by (nonlinear_arith)
            requires
                r < last,
                c < w,
                k < 4,
        ;
    } else {
        assert(channel_index(w, c, r, k) == w * last * 4 + c * 4 + k) by (nonlinear_arith)
            requires
                r == last,
        ;
        assert(channel_index(iw, x + c, y + r, k) == channel_index(iw, x, y + last, 0) + c * 4 + k)
            by (nonlinear_arith)
            requires
                r == last,
        ;
    }
}

/// Pixel (`c`, `r`) of a crop is pixel (`x + c`, `y + r`) of the source, channel by channel.
pub proof fn lemma_crop_pixel(img: RgbaRaster, x: u32, y: u32, w: u32, h: u32, c: nat, r: nat, k: nat)
    requires
        x as nat + w as nat <= img.w() as nat,
        y as nat + h as nat <= img.h() as nat,
        img.px().len() == rgba_len(img.w() as nat, img.h() as nat),
        c < w,
        r < h,
        k < 4,
    ensures
        cropped(img, x, y, w, h)[channel_index(w as nat, c, r, k) as int] == img.px()[channel_index(
            img.w() as nat,
            x as nat + c,
            y as nat + r,
            k,
        ) as int],
{
    lemma_crop_rows_pixel(img.px(), img.w() as nat, img.h() as nat, x as nat, y as nat, w as nat, h as nat, r, c, k);
}

/// The pixels of the `w` by `h` window at (`x`, `y`), row by row.
pub fn crop_pixels(img: &RgbaRaster, x: u32, y: u32, w: u32, h: u32) -> (r: Vec<u8>)
    requires
        x as nat + w as nat <= img.w() as nat,
        y as nat + h as nat <= img.h() as nat,
    ensures
        r@ == cropped(*img, x, y, w, h),
        r@.len() == rgba_len(w as nat, h as nat),
{
    let px = img.pixels();
    let iw = img.width();
    let ih = img.height();
    let mut out: Vec<u8> = Vec::new();
    for row in 0..h
        invariant
            px@ == img.px(),
            px@.len() == rgba_len(iw as nat, ih as nat),
            iw == img.w(),
            ih == img.h(),
            x as nat + w as nat <= iw as nat,
            y as nat + h as nat <= ih as nat,
            out@ == crop_rows(px@, iw as nat, x as nat, y as nat, w as nat, row as nat),
    {
        proof {
            lemma_row_in_bounds(iw as nat, ih as nat, x as nat, y as nat, w as nat, row as nat);
        }
        let yr: usize = y as usize + row as usize;
        let plen = px.len();
        proof {
            assert(plen == px@.len());
            assert(yr * iw <= yr * iw + x + w);
            assert((yr * iw + x + w) * 4 <= px@.len());
        }
        let base: usize = yr * iw as usize + x as usize;
        let start: usize = base * 4;
        let end: usize = start + (w as usize) * 4;
        assert(start == channel_index(iw as nat, x as nat, (y + row) as nat, 0));
        assert(end == channel_index(iw as nat, (x + w) as nat, (y + row) as nat, 0));
        let ghost before = out@;
        let mut k = start;
        while k < end
            invariant
                start <= k <= end <= px@.len(),
                out@ == before + px@.subrange(start as int, k as int),
            decreases end - k,
        {
            out.push(px[k]);
            assert(px@.subrange(start as int, k + 1) =~= px@.subrange(start as int, k as int).push(px@[k as int]));
            k += 1;
        }
    }
    proof {
        lemma_crop_rows_len(px@, iw as nat, ih as nat, x as nat, y as nat, w as nat, h as nat);
        assert(w as nat * h as nat * 4 == rgba_len(w as nat, h as nat));
    }
    out
}

fn min_of(a: u32, b: u32) -> (r: u32)
    ensures
        r == min_u32(a, b),
{
    if a <= b { a } else { b }
}

/// Crop one box out of an already-decoded image and return PNG bytes.
pub fn crop_one(img: &RgbaRaster, b: &CropBox) -> (r: Result<Vec<u8>, String>)
    ensures
        crop_outcome(*img, *b, r),
{
    let iw = img.width();
    let ih = img.height();
    // Clamp the rectangle to the image; trim instead of failing on overhang.
    let x = min_of(b.x, iw);
    let y = min_of(b.y, ih);
    let w = min_of(b.width, iw - x);
    let h = min_of(b.height, ih - y);
    if w == 0 || h == 0 {
        return Err(String::from_str("box has zero area within the image"));
    }
    let crop = crop_pixels(img, x, y, w, h);
    match encode_png(w, h, crop) {
        Ok(png) => Ok(png),
        Err(e) => {
            let mut msg = String::from_str("PNG encode failed: ");
            proof {
                reveal_strlit("PNG encode failed: ");
            }
            let text = image_error_text(&e);
            msg.append(text.as_str());
            assert(msg@.take("PNG encode failed: "@.len() as int) =~= "PNG encode failed: "@);
            Err(msg)
        },
    }
}

/// Characters that may not appear in a file name stem.
pub open spec fn is_forbidden(c: char) -> bool {
    c == '/' || c == '\\' || c == ':' || c == '*' || c == '?' || c == '"' || c == '<' || c == '>'
        || c == '|'
}

/// A control or forbidden character becomes `_`; others stay.
pub open spec fn safe_char(c: char) -> char {
    if is_control(c) || is_forbidden(c) {
        '_'
    } else {
        c
    }
}

/// The label trimmed, each unsafe character replaced by `_`, then trimmed again.
pub open spec fn spec_sanitize(label: Seq<char>) -> Seq<char> {
    trim(trim(label).map_values(|c: char| safe_char(c)))
}

/// Reduce a user label to a safe, single-segment filename stem (no path
/// separators, control chars, or surrounding whitespace).
pub fn sanitize(label: &str) -> (r: String)
    ensures
        r@ == spec_sanitize(label@),
{
    let cs = chars_of(label);
    let t = trim_chars(&cs);
    let mut m: Vec<char> = Vec::new();
    for i in 0..t.len()
        invariant
            m@ =~= t@.take(i as int).map_values(|c: char| safe_char(c)),
    {
        let c = t[i];
        let forbidden = c == '/' || c == '\\' || c == ':' || c == '*' || c == '?' || c == '"'
            || c == '<' || c == '>' || c == '|';
        m.push(if control(c) || forbidden { '_' } else { c });
        assert(t@.take(i + 1) =~= t@.take(i as int).push(c));
    }
    assert(t@.take(t.len() as int) =~= t@);
    let r = trim_chars(&m);
    string_from_chars(&r)
}

/// A sanitized label holds no control or forbidden character and neither
/// starts nor ends with white space.
pub proof fn lemma_sanitized_is_safe(label: Seq<char>)
    ensures
        forall|i: int|
            0 <= i < spec_sanitize(label).len() ==> !is_control(#[trigger] spec_sanitize(label)[i])
                && !is_forbidden(spec_sanitize(label)[i]),
        spec_sanitize(label).len() > 0 ==> !is_white_space(spec_sanitize(label)[0])
            && !is_white_space(spec_sanitize(label).last()),
{
    let m = trim(label).map_values(|c: char| safe_char(c));
    assert forall|i: int| 0 <= i < m.len() implies !is_control(#[trigger] m[i]) && !is_forbidden(m[i]) by {
        assert(m[i] == safe_char(trim(label)[i]));
    }
    lemma_trim_is_subrange(m);
    let (a, b) = choose|a: int, b: int| 0 <= a <= b <= m.len() && trim(m) == m.subrange(a, b);
    assert forall|i: int| 0 <= i < trim(m).len() implies !is_control(#[trigger] trim(m)[i]) && !is_forbidden(trim(m)[i]) by {
        assert(trim(m)[i] == m[a + i]);
    }
    lemma_trim_ends(m);
}

/// Sanitizing is idempotent: a sanitized label sanitizes to itself.
pub proof fn lemma_sanitize_idempotent(label: Seq<char>)
    ensures
        spec_sanitize(spec_sanitize(label)) == spec_sanitize(label),
{
    let r = spec_sanitize(label);
    lemma_sanitized_is_safe(label);
    lemma_trim_noop(r);
    assert forall|i: int| 0 <= i < r.len() implies safe_char(#[trigger] r[i]) == r[i] by {}
    let m = trim(r).map_values(|c: char| safe_char(c));
    assert(m =~= r);
    lemma_trim_noop(m);
}

/// The name of crop number `i` (counting from 0): its sanitized label when
/// that is not empty, else `crop-<i + 1>`.
pub open spec fn crop_name(label: Option<String>, i: nat) -> Seq<char> {
    match label {
        Some(l) if spec_sanitize(l@).len() > 0 => spec_sanitize(l@),
        _ => "crop-"@ + decimal(i + 1),
    }
}

fn name_for(label: &Option<String>, i: usize) -> (r: String)
    requires
        i < usize::MAX,
    ensures
        r@ == crop_name(*label, i as nat),
{
    if let Some(l) = label {
        let s = sanitize(l.as_str());
        if !s.as_str().is_empty() {
            return s;
        }
    }
    let mut d: Vec<char> = chars_of("crop-");
    let n = decimal_chars(i as u64 + 1);
    extend_chars(&mut d, &n);
    string_from_chars(&d)
}

/// Crop every box out of one decoded image. Returns `(name, Result<png_bytes>)`
/// in input order; names come from `label` (sanitized) or fall back to `crop-N`.
pub fn crop_all(img: &RgbaRaster, boxes: &[CropBox]) -> (r: Vec<(String, Result<Vec<u8>, String>)>)
    ensures
        r.len() == boxes.len(),
        forall|i: int|
            0 <= i < boxes.len() ==> (#[trigger] r@[i]).0@ == crop_name(boxes@[i].label, i as nat)
                && crop_outcome(*img, boxes@[i], r@[i].1),
{
    let mut r: Vec<(String, Result<Vec<u8>, String>)> = Vec::new();
    for i in 0..boxes.len()
        invariant
            r.len() == i,
            forall|k: int|
                0 <= k < i ==> (#[trigger] r@[k]).0@ == crop_name(boxes@[k].label, k as nat)
                    && crop_outcome(*img, boxes@[k], r@[k].1),
    {
        let b = &boxes[i];
        let name = name_for(&b.label, i);
        let res = crop_one(img, b);
        r.push((name, res));
    }
    r
}

/// `v` names and crops every box of `boxes` out of `img`, in order.
pub open spec fn crops_all(img: RgbaRaster, boxes: Seq<CropBox>, v: Seq<(String, Result<Vec<u8>, String>)>) -> bool {
    &&& v.len() == boxes.len()
    &&& forall|i: int|
        0 <= i < boxes.len() ==> (#[trigger] v[i]).0@ == crop_name(boxes[i].label, i as nat)
            && crop_outcome(img, boxes[i], v[i].1)
}

/// Decode raw image bytes, then crop every box. Convenience for callers that hold
/// undecoded bytes (e.g. the HTTP server).
pub fn crop_bytes(data: &[u8], boxes: &[CropBox]) -> (r: Result<Vec<(String, Result<Vec<u8>, String>)>, String>)
    ensures
        decoded_rgba(data@) is None ==> (r matches Err(e) && starts_with(e@, "decode failed: "@)),
        decoded_rgba(data@) matches Some(d) ==> (r matches Ok(v) && exists|img: RgbaRaster|
            img.w() == d.0 && img.h() == d.1 && img.px() == d.2 && #[trigger] crops_all(
                img,
                boxes@,
                v@,
            )),
{
    let img = match decode(data) {
        Ok(img) => img,
        Err(e) => return Err(e),
    };
    let v = crop_all(&img, boxes);
    assert(crops_all(img, boxes@, v@));
    assert(decoded_rgba(data@) is Some);
    let ghost d = decoded_rgba(data@)->Some_0;
    assert(img.w() == d.0 && img.h() == d.1 && img.px() == d.2);
    let r: Result<Vec<(String, Result<Vec<u8>, String>)>, String> = Ok(v);
    assert(r matches Ok(vv) && crops_all(img, boxes@, vv@));
    r
}

} // verus!
