//! The preset pipelines ("variants"), in display order.

use vstd::prelude::*;
use crate::config::{
    dark_seal, default_post, default_pre, tracer_is, Pipeline, PostprocessConfig, PreprocessConfig,
    Thousandths, TraceConfig,
};

verus! {

/// Number of presets.
pub const PRESET_COUNT: usize = 14;

/// The preset names, in display order.
pub open spec fn preset_names() -> Seq<Seq<char>> {
    seq!["raw"@, "raw_sealed"@, "smooth"@, "smooth_sealed"@, "flat"@, "hybrid"@, "outlined"@, "lineart_bold"@, "mono_lineart"@, "clean_lineart"@, "clean_color"@, "max_fidelity"@, "hi_detail"@, "passthrough"@]
}

/// `p` is the preset at position `i` of the display order.
pub open spec fn is_preset(i: int, p: Pipeline) -> bool {
    &&& 0 <= i < PRESET_COUNT
    &&& p.name@ == preset_names()[i]
    &&& i == 0 ==> {
        &&& p.description@ == "Default vtracer, no extra passes. The baseline."@
        &&& p.pre == default_pre()
        &&& tracer_is(p.tracer, 4, 6, 16, 60, 4000, 45, 3)
        &&& p.post == default_post()
        &&& p.passthrough == false
    }
    &&& i == 1 ==> {
        &&& p.description@ == "Raw vtracer + dark-only seal. No bilateral, so colours aren't shifted — purest match from tracing alone."@
        &&& p.pre == default_pre()
        &&& tracer_is(p.tracer, 4, 6, 16, 60, 4000, 45, 3)
        &&& p.post == dark_seal(800)
        &&& p.passthrough == false
    }
    &&& i == 2 ==> {
        &&& p.description@ == "Bilateral pre-smoothing, slightly looser tracer — softens noisy edges."@
        &&& p.pre == PreprocessConfig { bilateral: true, ..default_pre() }
        &&& tracer_is(p.tracer, 6, 6, 16, 70, 4000, 45, 3)
        &&& p.post == default_post()
        &&& p.passthrough == false
    }
    &&& i == 3 ==> {
        &&& p.description@ == "Smooth + seal-stroke on dark paths only. Cleanest match without muddying saturated regions."@
        &&& p.pre == PreprocessConfig { bilateral: true, ..default_pre() }
        &&& tracer_is(p.tracer, 6, 6, 16, 70, 4000, 45, 3)
        &&& p.post == dark_seal(800)
        &&& p.passthrough == false
    }
    &&& i == 4 ==> {
        &&& p.description@ == "Colour quantization for poster/logo-like flat art."@
        &&& p.pre == PreprocessConfig { quantize: true, quantize_colors: 16, ..default_pre() }
        &&& tracer_is(p.tracer, 4, 8, 8, 60, 4000, 45, 3)
        &&& p.post == default_post()
        &&& p.passthrough == false
    }
    &&& i == 5 ==> {
        &&& p.description@ == "Bilateral + light quantization + tighter tracer + path rounding. Fewer paths, smoother curves, smaller files."@
        &&& p.pre == PreprocessConfig { bilateral: true, bilateral_d: 9, bilateral_sigma_color: Thousandths(60000), bilateral_sigma_space: Thousandths(60000), quantize: true, quantize_colors: 32, ..default_pre() }
        &&& tracer_is(p.tracer, 6, 7, 12, 65, 4500, 50, 1)
        &&& p.post == default_post()
        &&& p.passthrough == false
    }
    &&& i == 6 ==> {
        &&& p.description@ == "For art with strong dark outlines (mascots, cartoons, line-art). Bridges hairline gaps without thickening."@
        &&& p.pre == PreprocessConfig { dark_threshold: 120, close_outline: 2, ..default_pre() }
        &&& tracer_is(p.tracer, 2, 6, 14, 60, 4000, 45, 3)
        &&& p.post == dark_seal(800)
        &&& p.passthrough == false
    }
    &&& i == 7 ==> {
        &&& p.description@ == "Like `outlined` but explicitly thickens dark pixels. Bolder, more graphic look."@
        &&& p.pre == PreprocessConfig { dark_threshold: 120, close_outline: 2, dilate_dark: 1, ..default_pre() }
        &&& tracer_is(p.tracer, 2, 6, 14, 60, 4000, 45, 3)
        &&& p.post == dark_seal(1000)
        &&& p.passthrough == false
    }
    &&& i == 8 ==> {
        &&& p.description@ == "Strict 2-colour k-means: background + ink. Eliminates inner halos. For monochrome line icons."@
        &&& p.pre == PreprocessConfig { quantize: true, quantize_colors: 2, quantize_kmeans: true, quantize_lab: true, ..default_pre() }
        &&& tracer_is(p.tracer, 4, 6, 16, 80, 5000, 60, 3)
        &&& p.post == default_post()
        &&& p.passthrough == false
    }
    &&& i == 9 ==> {
        &&& p.description@ == "For blurry low-quality line-art icons. Idealizes blur into clean colours via Lab k-means (bg + ink + shadow)."@
        &&& p.pre == PreprocessConfig { quantize: true, quantize_colors: 3, quantize_kmeans: true, quantize_lab: true, ..default_pre() }
        &&& tracer_is(p.tracer, 4, 6, 16, 80, 5000, 60, 3)
        &&& p.post == default_post()
        &&& p.passthrough == false
    }
    &&& i == 10 ==> {
        &&& p.description@ == "k-means k=8 for multi-colour icons with small accent regions (logos, mascots with secondary colours)."@
        &&& p.pre == PreprocessConfig { quantize: true, quantize_colors: 8, quantize_kmeans: true, quantize_lab: true, ..default_pre() }
        &&& tracer_is(p.tracer, 4, 6, 12, 75, 4500, 45, 3)
        &&& p.post == default_post()
        &&& p.passthrough == false
    }
    &&& i == 11 ==> {
        &&& p.description@ == "All knobs tuned for highest pixel match. Larger SVGs but closest to input."@
        &&& p.pre == PreprocessConfig { bilateral: true, bilateral_d: 5, bilateral_sigma_color: Thousandths(30000), bilateral_sigma_space: Thousandths(30000), ..default_pre() }
        &&& tracer_is(p.tracer, 1, 8, 4, 50, 3000, 40, 5)
        &&& p.post == dark_seal(800)
        &&& p.passthrough == false
    }
    &&& i == 12 ==> {
        &&& p.description@ == "Upscale x2 before tracing to capture fine detail; vtracer keeps precision."@
        &&& p.pre == PreprocessConfig { upscale: Thousandths(2000), ..default_pre() }
        &&& tracer_is(p.tracer, 2, 8, 8, 50, 4000, 45, 4)
        &&& p.post == default_post()
        &&& p.passthrough == false
    }
    &&& i == 13 ==> {
        &&& p.description@ == "SVG wrapping a base64 PNG. 100% match but not real vector data — fallback only."@
        &&& p.pre == default_pre()
        &&& tracer_is(p.tracer, 4, 6, 16, 60, 4000, 45, 3)
        &&& p.post == default_post()
        &&& p.passthrough == true
    }
}

fn raw() -> (p: Pipeline)
    ensures
        is_preset(0, p),
{
    let mut p = Pipeline::named("raw", "Default vtracer, no extra passes. The baseline.");
    p
}

fn raw_sealed() -> (p: Pipeline)
    ensures
        is_preset(1, p),
{
    let mut p = Pipeline::named("raw_sealed", "Raw vtracer + dark-only seal. No bilateral, so colours aren't shifted — purest match from tracing alone.");
    p.post.seal_gaps = true;
    p.post.seal_stroke_width = Thousandths(800);
    p.post.seal_max_brightness = 80;
    p
}

fn smooth() -> (p: Pipeline)
    ensures
        is_preset(2, p),
{
    let mut p = Pipeline::named("smooth", "Bilateral pre-smoothing, slightly looser tracer — softens noisy edges.");
    p.pre.bilateral = true;
    p.tracer.filter_speckle = 6;
    p.tracer.corner_threshold = 70;
    p
}

fn smooth_sealed() -> (p: Pipeline)
    ensures
        is_preset(3, p),
{
    let mut p = Pipeline::named("smooth_sealed", "Smooth + seal-stroke on dark paths only. Cleanest match without muddying saturated regions.");
    p.pre.bilateral = true;
    p.tracer.filter_speckle = 6;
    p.tracer.corner_threshold = 70;
    p.post.seal_gaps = true;
    p.post.seal_stroke_width = Thousandths(800);
    p.post.seal_max_brightness = 80;
    p
}

fn flat() -> (p: Pipeline)
    ensures
        is_preset(4, p),
{
    let mut p = Pipeline::named("flat", "Colour quantization for poster/logo-like flat art.");
    p.pre.quantize = true;
    p.pre.quantize_colors = 16;
    p.tracer.color_precision = 8;
    p.tracer.layer_difference = 8;
    p.tracer.filter_speckle = 4;
    p
}

fn hybrid() -> (p: Pipeline)
    ensures
        is_preset(5, p),
{
    let mut p = Pipeline::named("hybrid", "Bilateral + light quantization + tighter tracer + path rounding. Fewer paths, smoother curves, smaller files.");
    p.pre.bilateral = true;
    p.pre.bilateral_d = 9;
    p.pre.bilateral_sigma_color = Thousandths(60000);
    p.pre.bilateral_sigma_space = Thousandths(60000);
    p.pre.quantize = true;
    p.pre.quantize_colors = 32;
    p.tracer.filter_speckle = 6;
    p.tracer.color_precision = 7;
    p.tracer.layer_difference = 12;
    p.tracer.corner_threshold = 65;
    p.tracer.length_threshold = Thousandths(4500);
    p.tracer.splice_threshold = 50;
    p.tracer.path_precision = 1;
    p
}

fn outlined() -> (p: Pipeline)
    ensures
        is_preset(6, p),
{
    let mut p = Pipeline::named("outlined", "For art with strong dark outlines (mascots, cartoons, line-art). Bridges hairline gaps without thickening.");
    p.pre.dark_threshold = 120;
    p.pre.close_outline = 2;
    p.tracer.filter_speckle = 2;
    p.tracer.color_precision = 6;
    p.tracer.layer_difference = 14;
    p.tracer.corner_threshold = 60;
    p.post.seal_gaps = true;
    p.post.seal_stroke_width = Thousandths(800);
    p.post.seal_max_brightness = 80;
    p
}

fn lineart_bold() -> (p: Pipeline)
    ensures
        is_preset(7, p),
{
    let mut p = Pipeline::named("lineart_bold", "Like `outlined` but explicitly thickens dark pixels. Bolder, more graphic look.");
    p.pre.dark_threshold = 120;
    p.pre.close_outline = 2;
    p.pre.dilate_dark = 1;
    p.tracer.filter_speckle = 2;
    p.tracer.color_precision = 6;
    p.tracer.layer_difference = 14;
    p.tracer.corner_threshold = 60;
    p.post.seal_gaps = true;
    p.post.seal_stroke_width = Thousandths(1000);
    p.post.seal_max_brightness = 80;
    p
}

fn mono_lineart() -> (p: Pipeline)
    ensures
        is_preset(8, p),
{
    let mut p = Pipeline::named("mono_lineart", "Strict 2-colour k-means: background + ink. Eliminates inner halos. For monochrome line icons.");
    p.pre.quantize = true;
    p.pre.quantize_colors = 2;
    p.pre.quantize_kmeans = true;
    p.pre.quantize_lab = true;
    p.tracer.filter_speckle = 4;
    p.tracer.corner_threshold = 80;
    p.tracer.length_threshold = Thousandths(5000);
    p.tracer.splice_threshold = 60;
    p
}

fn clean_lineart() -> (p: Pipeline)
    ensures
        is_preset(9, p),
{
    let mut p = Pipeline::named("clean_lineart", "For blurry low-quality line-art icons. Idealizes blur into clean colours via Lab k-means (bg + ink + shadow).");
    p.pre.quantize = true;
    p.pre.quantize_colors = 3;
    p.pre.quantize_kmeans = true;
    p.pre.quantize_lab = true;
    p.tracer.filter_speckle = 4;
    p.tracer.color_precision = 6;
    p.tracer.layer_difference = 16;
    p.tracer.corner_threshold = 80;
    p.tracer.length_threshold = Thousandths(5000);
    p.tracer.splice_threshold = 60;
    p
}

fn clean_color() -> (p: Pipeline)
    ensures
        is_preset(10, p),
{
    let mut p = Pipeline::named("clean_color", "k-means k=8 for multi-colour icons with small accent regions (logos, mascots with secondary colours).");
    p.pre.quantize = true;
    p.pre.quantize_colors = 8;
    p.pre.quantize_kmeans = true;
    p.pre.quantize_lab = true;
    p.tracer.filter_speckle = 4;
    p.tracer.color_precision = 6;
    p.tracer.layer_difference = 12;
    p.tracer.corner_threshold = 75;
    p.tracer.length_threshold = Thousandths(4500);
    p
}

fn max_fidelity() -> (p: Pipeline)
    ensures
        is_preset(11, p),
{
    let mut p = Pipeline::named("max_fidelity", "All knobs tuned for highest pixel match. Larger SVGs but closest to input.");
    p.pre.bilateral = true;
    p.pre.bilateral_d = 5;
    p.pre.bilateral_sigma_color = Thousandths(30000);
    p.pre.bilateral_sigma_space = Thousandths(30000);
    p.tracer.filter_speckle = 1;
    p.tracer.color_precision = 8;
    p.tracer.layer_difference = 4;
    p.tracer.corner_threshold = 50;
    p.tracer.length_threshold = Thousandths(3000);
    p.tracer.splice_threshold = 40;
    p.tracer.path_precision = 5;
    p.post.seal_gaps = true;
    p.post.seal_stroke_width = Thousandths(800);
    p.post.seal_max_brightness = 80;
    p
}

fn hi_detail() -> (p: Pipeline)
    ensures
        is_preset(12, p),
{
    let mut p = Pipeline::named("hi_detail", "Upscale x2 before tracing to capture fine detail; vtracer keeps precision.");
    p.pre.upscale = Thousandths(2000);
    p.tracer.filter_speckle = 2;
    p.tracer.color_precision = 8;
    p.tracer.layer_difference = 8;
    p.tracer.corner_threshold = 50;
    p.tracer.path_precision = 4;
    p
}

fn passthrough() -> (p: Pipeline)
    ensures
        is_preset(13, p),
{
    let mut p = Pipeline::named("passthrough", "SVG wrapping a base64 PNG. 100% match but not real vector data — fallback only.");
    p.passthrough = true;
    p
}

/// All presets, in display order, each a fresh owned `Pipeline`.
pub fn all() -> (v: Vec<Pipeline>)
    ensures
        v.len() == PRESET_COUNT,
        forall|i: int| 0 <= i < PRESET_COUNT ==> is_preset(i, #[trigger] v@[i]),
{
    let mut v: Vec<Pipeline> = Vec::new();
    v.push(raw());
    v.push(raw_sealed());
    v.push(smooth());
    v.push(smooth_sealed());
    v.push(flat());
    v.push(hybrid());
    v.push(outlined());
    v.push(lineart_bold());
    v.push(mono_lineart());
    v.push(clean_lineart());
    v.push(clean_color());
    v.push(max_fidelity());
    v.push(hi_detail());
    v.push(passthrough());
    v
}

/// The preset names are pairwise distinct, so a name picks out one preset.
pub proof fn lemma_preset_names_distinct()
    ensures
        forall|i: int, j: int|
            0 <= i < PRESET_COUNT && 0 <= j < PRESET_COUNT && i != j ==> preset_names()[i]
                != preset_names()[j],
{
    reveal_strlit("raw");
    reveal_strlit("raw_sealed");
    reveal_strlit("smooth");
    reveal_strlit("smooth_sealed");
    reveal_strlit("flat");
    reveal_strlit("hybrid");
    reveal_strlit("outlined");
    reveal_strlit("lineart_bold");
    reveal_strlit("mono_lineart");
    reveal_strlit("clean_lineart");
    reveal_strlit("clean_color");
    reveal_strlit("max_fidelity");
    reveal_strlit("hi_detail");
    reveal_strlit("passthrough");
    assert forall|i: int, j: int|
        0 <= i < PRESET_COUNT && 0 <= j < PRESET_COUNT && i != j implies preset_names()[i]
            != preset_names()[j] by {
        let a = preset_names()[i];
        let b = preset_names()[j];
        if a == b {
            assert(a.len() == b.len());
            assert(a[0] == b[0]);
            assert(a[a.len() - 1] == b[b.len() - 1]);
            assert(a[1] == b[1]);
            assert(a[2] == b[2]);
        }
    }
}

/// Look up a preset by name (case-sensitive, matching the `name` field).
pub fn by_name(name: &str) -> (r: Option<Pipeline>)
    ensures
        r is Some <==> preset_names().contains(name@),
        r matches Some(p) ==> p.name@ == name@ && exists|i: int| #[trigger] is_preset(i, p),
{
    let mut v = all();
    let wanted = String::from_str(name);
    let mut i: usize = 0;
    while i < v.len()
        invariant
            v.len() == PRESET_COUNT,
            wanted@ == name@,
            forall|k: int| 0 <= k < PRESET_COUNT ==> is_preset(k, #[trigger] v@[k]),
            forall|k: int| 0 <= k < i ==> preset_names()[k] != name@,
        decreases PRESET_COUNT - i,
    {
        if v[i].name == wanted {
            assert(is_preset(i as int, v@[i as int]));
            let p = v.remove(i);
            return Some(p);
        }
        assert(is_preset(i as int, v@[i as int]));
        i += 1;
    }
    assert forall|x: Seq<char>| preset_names().contains(x) implies x != name@ by {
        let k = choose|k: int| 0 <= k < preset_names().len() && preset_names()[k] == x;
    }
    None
}

/// Names of all presets, in order.
pub fn names() -> (r: Vec<String>)
    ensures
        r.len() == PRESET_COUNT,
        forall|i: int| 0 <= i < PRESET_COUNT ==> (#[trigger] r@[i])@ == preset_names()[i],
{
    let v = all();
    let mut r: Vec<String> = Vec::new();
    for i in 0..v.len()
        invariant
            v.len() == PRESET_COUNT,
            forall|k: int| 0 <= k < PRESET_COUNT ==> is_preset(k, #[trigger] v@[k]),
            r.len() == i,
            forall|k: int| 0 <= k < i ==> (#[trigger] r@[k])@ == preset_names()[k],
    {
        assert(is_preset(i as int, v@[i as int]));
        r.push(v[i].name.clone());
    }
    r
}

/// A preset carrying the name listed at position `i` is the preset at
/// position `i`: looking up a listed name finds the preset listed there.
pub proof fn lemma_listed_name_finds_listed_preset(p: Pipeline, i: int, j: int)
    requires
        0 <= i < PRESET_COUNT,
        is_preset(j, p),
        p.name@ == preset_names()[i],
    ensures
        i == j,
        is_preset(i, p),
{
    lemma_preset_names_distinct();
}

/// Exactly one preset embeds the raster instead of tracing: `passthrough`, the last.
pub proof fn lemma_only_passthrough_passes_through(i: int, p: Pipeline)
    requires
        is_preset(i, p),
    ensures
        p.passthrough <==> i == PRESET_COUNT - 1,
        p.passthrough <==> p.name@ == "passthrough"@,
{
    lemma_preset_names_distinct();
    assert(preset_names()[PRESET_COUNT - 1] == "passthrough"@);
}

/// Two tracer configurations with the same settings, field by field.
pub open spec fn same_tracer(a: TraceConfig, b: TraceConfig) -> bool {
    &&& a.colormode@ == b.colormode@
    &&& a.hierarchical@ == b.hierarchical@
    &&& a.mode@ == b.mode@
    &&& a.filter_speckle == b.filter_speckle
    &&& a.color_precision == b.color_precision
    &&& a.layer_difference == b.layer_difference
    &&& a.corner_threshold == b.corner_threshold
    &&& a.length_threshold == b.length_threshold
    &&& a.max_iterations == b.max_iterations
    &&& a.splice_threshold == b.splice_threshold
    &&& a.path_precision == b.path_precision
}

/// The presets named `outlined` and `lineart_bold` (as `by_name` finds them):
/// `lineart_bold` is `outlined` with dark pixels thickened by one pixel and a
/// wider sealing stroke (1 against 0.8): the same tracer, and every other
/// setting the same; both seal paths up to brightness 80.
pub proof fn lemma_lineart_bold_thickens_outlined(outlined: Pipeline, bold: Pipeline, i: int, j: int)
    requires
        is_preset(i, outlined),
        outlined.name@ == "outlined"@,
        is_preset(j, bold),
        bold.name@ == "lineart_bold"@,
    ensures
        outlined.pre.dilate_dark == 0,
        bold.pre == (PreprocessConfig { dilate_dark: 1, ..outlined.pre }),
        outlined.post.seal_stroke_width == Thousandths(800),
        bold.post == (PostprocessConfig { seal_stroke_width: Thousandths(1000), ..outlined.post }),
        outlined.post.seal_gaps && outlined.post.seal_max_brightness == 80,
        same_tracer(bold.tracer, outlined.tracer),
        !outlined.passthrough && !bold.passthrough,
{
    lemma_preset_names_distinct();
    assert(preset_names()[6] == "outlined"@);
    assert(preset_names()[7] == "lineart_bold"@);
}

} // verus!
