//! Configuration of the conversion pipeline: pre-processing, tracing and
//! post-processing settings, and the named pipeline that bundles them.
//!
//! Fractional settings are kept as whole thousandths ([`Thousandths`]).

use vstd::prelude::*;

verus! {

/// A non-negative decimal with three fractional digits, held as a count of
/// thousandths: `Thousandths(800)` is 0.8.
#[derive(Debug, Clone, Copy, PartialEq, Eq, Structural)]
pub struct Thousandths(pub u32);

/// Pre-processing passes applied to a raster image before tracing.
#[derive(Debug, Clone, Copy, PartialEq, Eq, Structural)]
pub struct PreprocessConfig {
    pub bilateral: bool,
    pub bilateral_d: u32,
    pub bilateral_sigma_color: Thousandths,
    pub bilateral_sigma_space: Thousandths,
    pub quantize: bool,
    pub quantize_colors: usize,
    /// k-means clustering (perceptually better) instead of plain median-cut.
    pub quantize_kmeans: bool,
    /// cluster in CIELAB space when true, else sRGB.
    pub quantize_lab: bool,
    /// >1 traces a larger image then the SVG scales back down.
    pub upscale: Thousandths,
    /// Thicken dark pixels by this radius (outline fix). 0 = off.
    pub dilate_dark: u32,
    /// Max-channel value (0-255) below which a pixel counts as "dark".
    pub dark_threshold: u8,
    /// Morphological close radius on the dark mask (bridges hairline gaps). 0 = off.
    pub close_outline: u32,
}

/// The default pre-processing settings.
pub open spec fn default_pre() -> PreprocessConfig {
    PreprocessConfig {
        bilateral: false,
        bilateral_d: 7,
        bilateral_sigma_color: Thousandths(50000),
        bilateral_sigma_space: Thousandths(50000),
        quantize: false,
        quantize_colors: 16,
        quantize_kmeans: false,
        quantize_lab: true,
        upscale: Thousandths(1000),
        dilate_dark: 0,
        dark_threshold: 60,
        close_outline: 0,
    }
}

impl Default for PreprocessConfig {
    fn default() -> (r: Self)
        ensures
            r == default_pre(),
    {
        PreprocessConfig {
            bilateral: false,
            bilateral_d: 7,
            bilateral_sigma_color: Thousandths(50000),
            bilateral_sigma_space: Thousandths(50000),
            quantize: false,
            quantize_colors: 16,
            quantize_kmeans: false,
            quantize_lab: true,
            upscale: Thousandths(1000),
            dilate_dark: 0,
            dark_threshold: 60,
            close_outline: 0,
        }
    }
}

/// vtracer tracing parameters.
#[derive(Debug, Clone)]
pub struct TraceConfig {
    /// "color" | "binary"
    pub colormode: String,
    /// "stacked" | "cutout"
    pub hierarchical: String,
    /// "spline" | "polygon" | "none"
    pub mode: String,
    pub filter_speckle: usize,
    pub color_precision: i32,
    pub layer_difference: i32,
    pub corner_threshold: i32,
    pub length_threshold: Thousandths,
    pub max_iterations: usize,
    pub splice_threshold: i32,
    pub path_precision: u32,
}

/// `t` holds the default mode strings and iteration count, and the given
/// numeric settings.
pub open spec fn tracer_is(
    t: TraceConfig,
    filter_speckle: usize,
    color_precision: i32,
    layer_difference: i32,
    corner_threshold: i32,
    length_threshold: u32,
    splice_threshold: i32,
    path_precision: u32,
) -> bool {
    &&& t.colormode@ == "color"@
    &&& t.hierarchical@ == "stacked"@
    &&& t.mode@ == "spline"@
    &&& t.filter_speckle == filter_speckle
    &&& t.color_precision == color_precision
    &&& t.layer_difference == layer_difference
    &&& t.corner_threshold == corner_threshold
    &&& t.length_threshold == Thousandths(length_threshold)
    &&& t.max_iterations == 10
    &&& t.splice_threshold == splice_threshold
    &&& t.path_precision == path_precision
}

/// `t` holds the default tracing settings.
pub open spec fn default_tracer(t: TraceConfig) -> bool {
    tracer_is(t, 4, 6, 16, 60, 4000, 45, 3)
}

impl Default for TraceConfig {
    fn default() -> (r: Self)
        ensures
            default_tracer(r),
    {
        TraceConfig {
            colormode: String::from_str("color"),
            hierarchical: String::from_str("stacked"),
            mode: String::from_str("spline"),
            filter_speckle: 4,
            color_precision: 6,
            layer_difference: 16,
            corner_threshold: 60,
            length_threshold: Thousandths(4000),
            max_iterations: 10,
            splice_threshold: 45,
            path_precision: 3,
        }
    }
}

/// Post-processing passes applied to the SVG string after tracing.
#[derive(Debug, Clone, Copy, PartialEq, Eq, Structural)]
pub struct PostprocessConfig {
    pub strip_tiny_paths: bool,
    /// drop `<path>` whose `d` attribute is shorter than this many chars.
    pub tiny_path_max_len: usize,
    /// add `stroke="<fill>"` so each path self-expands and closes hairline gaps.
    pub seal_gaps: bool,
    pub seal_stroke_width: Thousandths,
    /// only seal paths whose fill max-channel is <= this (0-255). 255 = seal all.
    pub seal_max_brightness: u8,
}

/// The default post-processing settings.
pub open spec fn default_post() -> PostprocessConfig {
    PostprocessConfig {
        strip_tiny_paths: false,
        tiny_path_max_len: 40,
        seal_gaps: false,
        seal_stroke_width: Thousandths(600),
        seal_max_brightness: 255,
    }
}

/// Post-processing that seals paths up to brightness 80 with the given stroke width.
pub open spec fn dark_seal(width: u32) -> PostprocessConfig {
    PostprocessConfig {
        seal_gaps: true,
        seal_stroke_width: Thousandths(width),
        seal_max_brightness: 80,
        ..default_post()
    }
}

impl Default for PostprocessConfig {
    fn default() -> (r: Self)
        ensures
            r == default_post(),
    {
        PostprocessConfig {
            strip_tiny_paths: false,
            tiny_path_max_len: 40,
            seal_gaps: false,
            seal_stroke_width: Thousandths(600),
            seal_max_brightness: 255,
        }
    }
}

/// A named pipeline: preprocess -> trace -> postprocess (or raster passthrough).
#[derive(Debug, Clone)]
pub struct Pipeline {
    pub name: String,
    pub description: String,
    pub pre: PreprocessConfig,
    pub tracer: TraceConfig,
    pub post: PostprocessConfig,
    /// embed PNG as base64 instead of tracing (100% match, not real vector).
    pub passthrough: bool,
}

impl Pipeline {
    /// Build a pipeline with the given name/description and default stages.
    pub fn named(name: &str, description: &str) -> (r: Self)
        ensures
            r.name@ == name@,
            r.description@ == description@,
            r.pre == default_pre(),
            default_tracer(r.tracer),
            r.post == default_post(),
            !r.passthrough,
    {
        Pipeline {
            name: String::from_str(name),
            description: String::from_str(description),
            pre: PreprocessConfig::default(),
            tracer: TraceConfig::default(),
            post: PostprocessConfig::default(),
            passthrough: false,
        }
    }
}

} // verus!
