//! pathsmith core: raster -> SVG conversion pipelines + multicrop.
//!
//! The pipeline is preprocess -> trace -> postprocess, selected by a named
//! [`config::Pipeline`] ("preset"/"variant"). The stages that compute in
//! floating point are supplied through [`stages::RasterStages`].

pub mod compare;
pub mod config;
pub mod encode;
pub mod imaging;
pub mod mediancut;
pub mod multicrop;
pub mod postprocess;
pub mod preprocess;
pub mod presets;
pub mod raster;
pub mod requests;
pub mod stages;
pub mod text;
pub mod xml;
pub mod zipped;

use vstd::prelude::*;
use config::Pipeline;
use encode::{base64_bytes, base64_encode, base64_text, lemma_base64_round_trip};
use imaging::{decoded_rgba, encode_png, image_error_text, load_rgba, lossless_png_limit, png_encoding};
use multicrop::starts_with;
use postprocess::{postprocess, postprocessed, size_svg, sized_svg};
use config::PostprocessConfig;
use preprocess::{is_preprocessed, preprocess, scale_side, upscale_fits};
use presets::{by_name, is_preset, lemma_only_passthrough_passes_through, preset_names, PRESET_COUNT};
use raster::RgbaRaster;
use stages::{trace, trace_settings_of, RasterStages};
use text::{decimal, decimal_chars, string_from_chars};

verus! {

/// The SVG that wraps a PNG of a `w` by `h` image given as Base64 text.
pub open spec fn passthrough_text(w: u32, h: u32, b64: Seq<char>) -> Seq<char> {
    let dw = decimal(w as nat);
    let dh = decimal(h as nat);
    "<svg xmlns=\"http://www.w3.org/2000/svg\" width=\""@ + dw + "\" height=\""@ + dh
        + "\" viewBox=\"0 0 "@ + dw + " "@ + dh + "\"><image width=\""@ + dw + "\" height=\""@
        + dh + "\" href=\"data:image/png;base64,"@ + b64 + "\"/></svg>"@
}

/// The passthrough outcome for `img`: for an image with pixels, the wrapping
/// SVG of its PNG (which decodes back to the image); for an empty image, the
/// PNG encoding error.
pub open spec fn passthrough_outcome(img: RgbaRaster, r: Result<String, String>) -> bool {
    if img.w() > 0 && img.h() > 0 {
        &&& r matches Ok(s) && s@ == passthrough_text(
            img.w(),
            img.h(),
            base64_text(png_encoding(img.w(), img.h(), img.px())),
        )
        &&& img.px().len() <= lossless_png_limit() ==> decoded_rgba(
            png_encoding(img.w(), img.h(), img.px()),
        ) == Some((img.w(), img.h(), img.px()))
    } else {
        r matches Err(e) && starts_with(e@, "PNG encode to memory: "@)
    }
}

/// For an image with pixels the passthrough SVG is sized by the image: its
/// `width` attributes and the width of its view box are the decimal width of
/// the image, its `height` attributes and the height of its view box the
/// decimal height, and its one `image` element carries the image's PNG in
/// base64.
pub proof fn lemma_passthrough_sized_by_image(img: RgbaRaster, r: Result<String, String>)
    requires
        passthrough_outcome(img, r),
        img.w() > 0,
        img.h() > 0,
    ensures
        r is Ok,
        r->Ok_0@ == "<svg xmlns=\"http://www.w3.org/2000/svg\" width=\""@ + decimal(img.w() as nat)
            + "\" height=\""@ + decimal(img.h() as nat) + "\" viewBox=\"0 0 "@ + decimal(
            img.w() as nat,
        ) + " "@ + decimal(img.h() as nat) + "\"><image width=\""@ + decimal(img.w() as nat)
            + "\" height=\""@ + decimal(img.h() as nat) + "\" href=\"data:image/png;base64,"@
            + base64_text(png_encoding(img.w(), img.h(), img.px())) + "\"/></svg>"@,
{
}

/// The text between the fixed head and tail of a passthrough SVG is its only payload.
proof fn lemma_passthrough_payload_unique(w: u32, h: u32, p: Seq<char>, q: Seq<char>)
    requires
        passthrough_text(w, h, p) == passthrough_text(w, h, q),
    ensures
        p == q,
{
    let dw = decimal(w as nat);
    let dh = decimal(h as nat);
    let head = "<svg xmlns=\"http://www.w3.org/2000/svg\" width=\""@ + dw + "\" height=\""@ + dh
        + "\" viewBox=\"0 0 "@ + dw + " "@ + dh + "\"><image width=\""@ + dw + "\" height=\""@
        + dh + "\" href=\"data:image/png;base64,"@;
    let tail = "\"/></svg>"@;
    assert(passthrough_text(w, h, p) == head + p + tail);
    assert(passthrough_text(w, h, q) == head + q + tail);
    assert(p.len() == q.len());
    assert forall|i: int| 0 <= i < p.len() implies p[i] == q[i] by {
        assert((head + p + tail)[head.len() + i] == p[i]);
        assert((head + q + tail)[head.len() + i] == q[i]);
    }
    assert(p =~= q);
}

/// The passthrough SVG is a lossless container: whatever payload it carries
/// decodes from Base64 to a PNG that decodes to the wrapped image, pixel for
/// pixel, for any image within `lossless_png_limit`.
pub proof fn lemma_passthrough_is_lossless(img: RgbaRaster, s: String, payload: Seq<char>)
    requires
        passthrough_outcome(img, Ok(s)),
        img.px().len() <= lossless_png_limit(),
        s@ == passthrough_text(img.w(), img.h(), payload),
    ensures
        decoded_rgba(base64_bytes(payload)) == Some((img.w(), img.h(), img.px())),
{
    let png = png_encoding(img.w(), img.h(), img.px());
    lemma_passthrough_payload_unique(img.w(), img.h(), payload, base64_text(png));
    lemma_base64_round_trip(png);
}

fn decimal_string(n: u32) -> (s: String)
    ensures
        s@ == decimal(n as nat),
{
    string_from_chars(&decimal_chars(n as u64))
}

/// Embed the raster as a base64 PNG inside an SVG wrapper. 100% match, but the
/// result is a raster container, not real vector data.
pub fn passthrough_svg(img: &RgbaRaster) -> (r: Result<String, String>)
    ensures
        passthrough_outcome(*img, r),
{
    let w = img.width();
    let h = img.height();
    let png = match encode_png(w, h, img.pixels().clone()) {
        Ok(png) => png,
        Err(e) => {
            let mut msg = String::from_str("PNG encode to memory: ");
            msg.append(image_error_text(&e).as_str());
            assert(msg@.take("PNG encode to memory: "@.len() as int) =~= "PNG encode to memory: "@);
            return Err(msg);
        },
    };
    let b64 = base64_encode(png.as_slice());
    let dw = decimal_string(w);
    let dh = decimal_string(h);
    let mut s = String::from_str("<svg xmlns=\"http://www.w3.org/2000/svg\" width=\"");
    s.append(dw.as_str());
    s.append("\" height=\"");
    s.append(dh.as_str());
    s.append("\" viewBox=\"0 0 ");
    s.append(dw.as_str());
    s.append(" ");
    s.append(dh.as_str());
    s.append("\"><image width=\"");
    s.append(dw.as_str());
    s.append("\" height=\"");
    s.append(dh.as_str());
    s.append("\" href=\"data:image/png;base64,");
    s.append(b64.as_str());
    s.append("\"/></svg>");
    Ok(s)
}

/// Decode raw image bytes into an RGBA image.
pub fn decode(data: &[u8]) -> (r: Result<RgbaRaster, String>)
    ensures
        match decoded_rgba(data@) {
            Some((w, h, px)) => r matches Ok(img) && img.w() == w && img.h() == h && img.px()
                == px,
            None => r matches Err(e) && starts_with(e@, "decode failed: "@),
        },
{
    match load_rgba(data) {
        Ok((w, h, px)) => Ok(RgbaRaster::new(w, h, px).unwrap()),
        Err(e) => {
            let mut msg = String::from_str("decode failed: ");
            msg.append(image_error_text(&e).as_str());
            assert(msg@.take("decode failed: "@.len() as int) =~= "decode failed: "@);
            Err(msg)
        },
    }
}

/// The message for an image whose upscaled buffer would not fit in memory.
pub open spec fn too_large_message() -> Seq<char> {
    "image too large to upscale"@
}

fn upscale_fits_exec(img: &RgbaRaster, upscale: config::Thousandths) -> (r: bool)
    ensures
        r == upscale_fits(*img, upscale.0),
{
    let nw = scale_side(img.width(), upscale) as u128;
    let nh = scale_side(img.height(), upscale) as u128;
    proof {
        assert(nw * nh * 4 <= 0xffff_ffff_ffff_ffff_ffff_ffff_ffff_ffffu128) by (nonlinear_arith)
            requires
                nw <= 0xffff_ffff,
                nh <= 0xffff_ffff,
        ;
    }
    nw * nh * 4 <= usize::MAX as u128
}

/// The SVG delivered for a traced `svg`: postprocessed, and when the image
/// was upscaled for tracing, shown at the size of the input image `img` over
/// the traced image `pre`'s coordinates, so it scales back down.
pub open spec fn shown_svg(svg: Seq<char>, pipe: Pipeline, img: RgbaRaster, pre: RgbaRaster) -> Seq<char> {
    let p = postprocessed(svg, pipe.post);
    if pipe.pre.upscale.0 == 1000 {
        p
    } else {
        sized_svg(p, img.w(), img.h(), pre.w(), pre.h())
    }
}

/// What is made of the tracing stage's result: an SVG is delivered as
/// `shown_svg` says; an error is handed on unchanged.
pub open spec fn finished(
    t: Result<String, String>,
    pipe: Pipeline,
    img: RgbaRaster,
    pre: RgbaRaster,
    r: Result<String, String>,
) -> bool {
    match t {
        Ok(svg) => r matches Ok(out) && out@ == shown_svg(svg@, pipe, img, pre),
        Err(e) => r == Err::<String, String>(e),
    }
}

/// The tracing stage runs on `pre` with the pipeline's resolved tracer
/// settings, and `r` is what is made of its result.
pub open spec fn traced_outcome<S: RasterStages>(
    stages: &S,
    img: RgbaRaster,
    pre: RgbaRaster,
    pipe: Pipeline,
    r: Result<String, String>,
) -> bool {
    exists|t: Result<String, String>|
        #[trigger] call_ensures(S::trace, (stages, &pre, &trace_settings_of(pipe.tracer)), t)
            && finished(t, pipe, img, pre, r)
}

/// What running `pipe` on `img` gives: the passthrough outcome for a
/// passthrough pipeline; the too-large error when the upscaled image would not
/// fit in memory; else the image is preprocessed, and a preprocessing error is
/// handed on, or the preprocessed image is traced and the SVG postprocessed.
pub open spec fn pipeline_outcome<S: RasterStages>(stages: &S, img: RgbaRaster, pipe: Pipeline, r: Result<String, String>) -> bool {
    if pipe.passthrough {
        passthrough_outcome(img, r)
    } else if pipe.pre.upscale.0 != 1000 && !upscale_fits(img, pipe.pre.upscale.0) {
        r matches Err(e) && e@ == too_large_message()
    } else {
        exists|pre: Result<RgbaRaster, String>|
            #[trigger] is_preprocessed(stages, img, pipe.pre, pre) && match pre {
                Err(e) => r == Err::<String, String>(e),
                Ok(p) => traced_outcome(stages, img, p, pipe, r),
            }
    }
}

/// Run a fully-specified pipeline against an already-decoded RGBA image.
pub fn run_pipeline<S: RasterStages>(img: &RgbaRaster, pipe: &Pipeline, stages: &S) -> (r: Result<String, String>)
    ensures
        pipeline_outcome(stages, *img, *pipe, r),
{
    if pipe.passthrough {
        return passthrough_svg(img);
    }
    if pipe.pre.upscale.0 != 1000 && !upscale_fits_exec(img, pipe.pre.upscale) {
        return Err(String::from_str("image too large to upscale"));
    }
    let pr = preprocess(img, &pipe.pre, stages);
    let ghost gpr = pr;
    let pre = match pr {
        Ok(p) => p,
        Err(e) => {
            assert(is_preprocessed(stages, *img, pipe.pre, gpr));
            return Err(e);
        },
    };
    let t = trace(&pre, &pipe.tracer, stages);
    let ghost gt = t;
    let r = match t {
        Ok(svg) => {
            let out = postprocess(svg.as_str(), &pipe.post);
            if pipe.pre.upscale.0 != 1000 {
                Ok(size_svg(out.as_str(), img.width(), img.height(), pre.width(), pre.height()))
            } else {
                Ok(out)
            }
        },
        Err(e) => Err(e),
    };
    assert(finished(gt, *pipe, *img, pre, r));
    assert(call_ensures(S::trace, (stages, &pre, &trace_settings_of(pipe.tracer)), gt));
    assert(traced_outcome(stages, *img, pre, *pipe, r));
    assert(is_preprocessed(stages, *img, pipe.pre, gpr));
    r
}

/// The message for a preset name that no preset has.
pub open spec fn unknown_preset_message(preset: Seq<char>) -> Seq<char> {
    "unknown preset: "@ + preset
}

/// Convert an already-decoded image with the named preset: the unknown-preset
/// error for a name that no preset has, else the outcome of that preset's pipeline.
pub fn run_preset<S: RasterStages>(img: &RgbaRaster, name: &str, stages: &S) -> (r: Result<String, String>)
    ensures
        !preset_names().contains(name@) ==> (r matches Err(e) && e@ == unknown_preset_message(
            name@,
        )),
        preset_names().contains(name@) ==> exists|i: int, p: Pipeline|
            #![trigger is_preset(i, p)]
            is_preset(i, p) && p.name@ == name@ && pipeline_outcome(stages, *img, p, r),
{
    match by_name(name) {
        Some(p) => {
            let r = run_pipeline(img, &p, stages);
            proof {
                let i = choose|i: int| #[trigger] is_preset(i, p);
                assert(is_preset(i, p) && p.name@ == name@ && pipeline_outcome(stages, *img, p, r));
            }
            r
        },
        None => {
            let mut msg = String::from_str("unknown preset: ");
            msg.append(name);
            Err(msg)
        },
    }
}

/// Decode raw image bytes (PNG/JPEG/WebP/…) and convert with the named preset.
pub fn convert_bytes<S: RasterStages>(data: &[u8], preset: &str, stages: &S) -> (r: Result<String, String>)
    ensures
        !preset_names().contains(preset@) ==> (r matches Err(e) && e@ == unknown_preset_message(
            preset@,
        )),
        preset_names().contains(preset@) && decoded_rgba(data@) is None ==> (r matches Err(e)
            && starts_with(e@, "decode failed: "@)),
        preset_names().contains(preset@) ==> match decoded_rgba(data@) {
            Some((w, h, px)) => exists|img: RgbaRaster, i: int, p: Pipeline|
                #![trigger is_preset(i, p), pipeline_outcome(stages, img, p, r)]
                img.w() == w && img.h() == h && img.px() == px && is_preset(i, p) && p.name@
                    == preset@ && pipeline_outcome(stages, img, p, r),
            None => true,
        },
        preset@ == "passthrough"@ ==> match decoded_rgba(data@) {
            Some((w, h, px)) => if w > 0 && h > 0 {
                r matches Ok(s) && s@ == passthrough_text(w, h, base64_text(png_encoding(w, h, px)))
            } else {
                r matches Err(e) && starts_with(e@, "PNG encode to memory: "@)
            },
            None => true,
        },
{
    proof {
        assert(preset_names()[PRESET_COUNT - 1] == "passthrough"@);
    }
    let ghost mut gi: int = 0;
    let pipe = match by_name(preset) {
        Some(p) => {
            proof {
                gi = choose|i: int| #[trigger] is_preset(i, p);
                lemma_only_passthrough_passes_through(gi, p);
            }
            p
        },
        None => {
            let mut msg = String::from_str("unknown preset: ");
            msg.append(preset);
            return Err(msg);
        },
    };
    let img = match decode(data) {
        Ok(img) => img,
        Err(e) => return Err(e),
    };
    let r = run_pipeline(&img, &pipe, stages);
    assert(is_preset(gi, pipe) && pipeline_outcome(stages, img, pipe, r));
    r
}

} // verus!
