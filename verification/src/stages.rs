//! The pipeline stages that compute in floating point: the bilateral filter,
//! k-means colour clustering and vtracer tracing. The library decides when
//! and with which settings they run; the embedding application supplies them.

use vstd::prelude::*;
use crate::config::{Thousandths, TraceConfig};
use crate::raster::RgbaRaster;

verus! {

/// Colour handling of the tracer.
#[derive(Debug, Clone, Copy, PartialEq, Eq, Structural)]
pub enum ColorModeKind {
    Color,
    Binary,
}

/// How traced shapes are layered.
#[derive(Debug, Clone, Copy, PartialEq, Eq, Structural)]
pub enum HierarchyKind {
    Stacked,
    Cutout,
}

/// How traced paths are simplified.
#[derive(Debug, Clone, Copy, PartialEq, Eq, Structural)]
pub enum SimplifyKind {
    Spline,
    Polygon,
    Unsimplified,
}

/// Tracer settings with the mode strings resolved.
#[derive(Debug, Clone, Copy, PartialEq, Eq, Structural)]
pub struct TraceSettings {
    pub color_mode: ColorModeKind,
    pub hierarchical: HierarchyKind,
    pub mode: SimplifyKind,
    pub filter_speckle: usize,
    pub color_precision: i32,
    pub layer_difference: i32,
    pub corner_threshold: i32,
    pub length_threshold: Thousandths,
    pub max_iterations: usize,
    pub splice_threshold: i32,
    pub path_precision: u32,
}

/// "binary" selects binary tracing; any other text selects colour.
pub open spec fn color_mode_of(s: Seq<char>) -> ColorModeKind {
    if s == "binary"@ { ColorModeKind::Binary } else { ColorModeKind::Color }
}

/// "cutout" selects cut-out layering; any other text selects stacking.
pub open spec fn hierarchy_of(s: Seq<char>) -> HierarchyKind {
    if s == "cutout"@ { HierarchyKind::Cutout } else { HierarchyKind::Stacked }
}

/// "polygon" and "none" select those modes; any other text selects splines.
pub open spec fn simplify_of(s: Seq<char>) -> SimplifyKind {
    if s == "polygon"@ {
        SimplifyKind::Polygon
    } else if s == "none"@ {
        SimplifyKind::Unsimplified
    } else {
        SimplifyKind::Spline
    }
}

/// The tracer settings for a trace configuration: the mode strings resolved,
/// every number carried over.
pub open spec fn trace_settings_of(cfg: TraceConfig) -> TraceSettings {
    TraceSettings {
        color_mode: color_mode_of(cfg.colormode@),
        hierarchical: hierarchy_of(cfg.hierarchical@),
        mode: simplify_of(cfg.mode@),
        filter_speckle: cfg.filter_speckle,
        color_precision: cfg.color_precision,
        layer_difference: cfg.layer_difference,
        corner_threshold: cfg.corner_threshold,
        length_threshold: cfg.length_threshold,
        max_iterations: cfg.max_iterations,
        splice_threshold: cfg.splice_threshold,
        path_precision: cfg.path_precision,
    }
}

fn same_text(a: &String, b: &str) -> (r: bool)
    ensures
        r == (a@ == b@),
{
    let s = String::from_str(b);
    *a == s
}

/// The tracer settings for a trace configuration.
pub fn trace_settings(cfg: &TraceConfig) -> (r: TraceSettings)
    ensures
        r.color_mode == color_mode_of(cfg.colormode@),
        r.hierarchical == hierarchy_of(cfg.hierarchical@),
        r.mode == simplify_of(cfg.mode@),
        r.filter_speckle == cfg.filter_speckle,
        r.color_precision == cfg.color_precision,
        r.layer_difference == cfg.layer_difference,
        r.corner_threshold == cfg.corner_threshold,
        r.length_threshold == cfg.length_threshold,
        r.max_iterations == cfg.max_iterations,
        r.splice_threshold == cfg.splice_threshold,
        r.path_precision == cfg.path_precision,
        r == trace_settings_of(*cfg),
{
    TraceSettings {
        color_mode: if same_text(&cfg.colormode, "binary") {
            ColorModeKind::Binary
        } else {
            ColorModeKind::Color
        },
        hierarchical: if same_text(&cfg.hierarchical, "cutout") {
            HierarchyKind::Cutout
        } else {
            HierarchyKind::Stacked
        },
        mode: if same_text(&cfg.mode, "polygon") {
            SimplifyKind::Polygon
        } else if same_text(&cfg.mode, "none") {
            SimplifyKind::Unsimplified
        } else {
            SimplifyKind::Spline
        },
        filter_speckle: cfg.filter_speckle,
        color_precision: cfg.color_precision,
        layer_difference: cfg.layer_difference,
        corner_threshold: cfg.corner_threshold,
        length_threshold: cfg.length_threshold,
        max_iterations: cfg.max_iterations,
        splice_threshold: cfg.splice_threshold,
        path_precision: cfg.path_precision,
    }
}

/// The floating-point stages of the pipeline.
pub trait RasterStages {
    /// Joint-colour bilateral filter on the RGB channels with neighbourhood
    /// diameter `d`: the filtered red, green and blue bytes of every pixel,
    /// packed. The library writes them into the image, keeping its size and alpha.
    fn bilateral(
        &self,
        img: &RgbaRaster,
        d: u32,
        sigma_color: Thousandths,
        sigma_space: Thousandths,
    ) -> Vec<u8>;

    /// k-means clustering of packed RGB samples into `k` colours, in CIELAB
    /// when `lab` holds, else in sRGB: the cluster index of each sample and
    /// the colour of each cluster.
    fn cluster_colors(&self, rgb: &Vec<u8>, k: usize, lab: bool) -> (Vec<u8>, Vec<(u8, u8, u8)>);

    /// Traces an image to an SVG document.
    fn trace(&self, img: &RgbaRaster, settings: &TraceSettings) -> Result<String, String>;
}

/// Traces an RGBA image to an SVG string with the given tracer configuration:
/// the mode strings are resolved by `trace_settings`, then the tracing stage
/// runs on the image and those settings, and what it returns is the result.
pub fn trace<S: RasterStages>(img: &RgbaRaster, cfg: &TraceConfig, stages: &S) -> (r: Result<String, String>)
    ensures
        call_ensures(S::trace, (stages, img, &trace_settings_of(*cfg)), r),
{
    let settings = trace_settings(cfg);
    stages.trace(img, &settings)
}

} // verus!
