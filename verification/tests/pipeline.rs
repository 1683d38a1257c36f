use base64::Engine;
use image::RgbaImage;
use kmeans_colors::get_kmeans_hamerly;
use palette::{cast::from_component_slice, FromColor, IntoColor, Lab, Srgb};
use pathsmith_core::config::{Pipeline, Thousandths};
use pathsmith_core::preprocess::{preprocess, quantize, scale_side};
use pathsmith_core::presets::{all, by_name, names};
use pathsmith_core::raster::RgbaRaster;
use pathsmith_core::stages::{
    trace, trace_settings, ColorModeKind, HierarchyKind, RasterStages, SimplifyKind, TraceSettings,
};
use pathsmith_core::{convert_bytes, decode, passthrough_svg, run_pipeline, run_preset};
use visioncortex::PathSimplifyMode;
use vtracer::{ColorImage, ColorMode, Config, Hierarchical};

/// The floating-point stages: bilateral filter, k-means and vtracer.
struct FloatStages;

fn to_f64(t: Thousandths) -> f64 {
    t.0 as f64 / 1000.0
}

fn bilateral_rgba(img: &RgbaImage, d: u32, sigma_color: f64, sigma_space: f64) -> RgbaImage {
    let (w, h) = img.dimensions();
    let radius = (d / 2).max(1) as i32;
    let gc = -1.0 / (2.0 * sigma_color * sigma_color);
    let gs = -1.0 / (2.0 * sigma_space * sigma_space);
    let win = (2 * radius + 1) as usize;
    let mut space_w = vec![0.0f64; win * win];
    for dy in -radius..=radius {
        for dx in -radius..=radius {
            let idx = ((dy + radius) as usize) * win + (dx + radius) as usize;
            space_w[idx] = (gs * (dx * dx + dy * dy) as f64).exp();
        }
    }
    let mut out = img.clone();
    for y in 0..h as i32 {
        for x in 0..w as i32 {
            let c = img.get_pixel(x as u32, y as u32).0;
            let (cr, cg, cb) = (c[0] as f64, c[1] as f64, c[2] as f64);
            let (mut sr, mut sg, mut sb, mut wsum) = (0.0, 0.0, 0.0, 0.0);
            for dy in -radius..=radius {
                let ny = y + dy;
                if ny < 0 || ny >= h as i32 {
                    continue;
                }
                for dx in -radius..=radius {
                    let nx = x + dx;
                    if nx < 0 || nx >= w as i32 {
                        continue;
                    }
                    let p = img.get_pixel(nx as u32, ny as u32).0;
                    let (pr, pg, pb) = (p[0] as f64, p[1] as f64, p[2] as f64);
                    let cd = (pr - cr) * (pr - cr) + (pg - cg) * (pg - cg) + (pb - cb) * (pb - cb);
                    let wgt = space_w[((dy + radius) as usize) * win + (dx + radius) as usize] * (gc * cd).exp();
                    sr += pr * wgt;
                    sg += pg * wgt;
                    sb += pb * wgt;
                    wsum += wgt;
                }
            }
            let px = out.get_pixel_mut(x as u32, y as u32);
            px.0[0] = (sr / wsum).round().clamp(0.0, 255.0) as u8;
            px.0[1] = (sg / wsum).round().clamp(0.0, 255.0) as u8;
            px.0[2] = (sb / wsum).round().clamp(0.0, 255.0) as u8;
        }
    }
    out
}

impl RasterStages for FloatStages {
    fn bilateral(&self, img: &RgbaRaster, d: u32, sc: Thousandths, ss: Thousandths) -> Vec<u8> {
        let i = RgbaImage::from_raw(img.width(), img.height(), img.pixels().clone()).unwrap();
        let o = bilateral_rgba(&i, d, to_f64(sc), to_f64(ss));
        o.pixels().flat_map(|p| [p.0[0], p.0[1], p.0[2]]).collect()
    }

    fn cluster_colors(&self, rgb: &Vec<u8>, k: usize, lab: bool) -> (Vec<u8>, Vec<(u8, u8, u8)>) {
        let srgb: &[Srgb<u8>] = from_component_slice(rgb);
        if lab {
            let samples: Vec<Lab> = srgb.iter().map(|c| c.into_format::<f32>().into_color()).collect();
            let r = get_kmeans_hamerly(k, 20, 1.0, false, &samples, 0x5005_2017);
            let pal = r.centroids.iter().map(|l| {
                let c: Srgb<u8> = Srgb::from_color(*l).into_format();
                (c.red, c.green, c.blue)
            }).collect();
            (r.indices, pal)
        } else {
            let samples: Vec<Srgb<f32>> = srgb.iter().map(|c| c.into_format()).collect();
            let r = get_kmeans_hamerly(k, 20, 1.0, false, &samples, 0x5005_2017);
            let pal = r.centroids.iter().map(|c| {
                let c: Srgb<u8> = c.into_format();
                (c.red, c.green, c.blue)
            }).collect();
            (r.indices, pal)
        }
    }

    fn trace(&self, img: &RgbaRaster, s: &TraceSettings) -> Result<String, String> {
        let ci = ColorImage {
            pixels: img.pixels().clone(),
            width: img.width() as usize,
            height: img.height() as usize,
        };
        let config = Config {
            color_mode: match s.color_mode {
                ColorModeKind::Binary => ColorMode::Binary,
                ColorModeKind::Color => ColorMode::Color,
            },
            hierarchical: match s.hierarchical {
                HierarchyKind::Cutout => Hierarchical::Cutout,
                HierarchyKind::Stacked => Hierarchical::Stacked,
            },
            mode: match s.mode {
                SimplifyKind::Polygon => PathSimplifyMode::Polygon,
                SimplifyKind::Unsimplified => PathSimplifyMode::None,
                SimplifyKind::Spline => PathSimplifyMode::Spline,
            },
            filter_speckle: s.filter_speckle,
            color_precision: s.color_precision,
            layer_difference: s.layer_difference,
            corner_threshold: s.corner_threshold,
            length_threshold: to_f64(s.length_threshold),
            max_iterations: s.max_iterations,
            splice_threshold: s.splice_threshold,
            path_precision: Some(s.path_precision),
        };
        Ok(vtracer::convert(ci, config)?.to_string())
    }
}

/// A tiny 2x2 RGBA image for smoke tests.
fn tiny() -> RgbaRaster {
    let mut px = Vec::new();
    for _y in 0..2 {
        for x in 0..2 {
            if x == 0 {
                px.extend_from_slice(&[10, 10, 10, 255]);
            } else {
                px.extend_from_slice(&[240, 30, 30, 255]);
            }
        }
    }
    RgbaRaster::new(2, 2, px).unwrap()
}

fn png_of(img: &RgbaRaster) -> Vec<u8> {
    let i = RgbaImage::from_raw(img.width(), img.height(), img.pixels().clone()).unwrap();
    let mut buf = Vec::new();
    image::DynamicImage::ImageRgba8(i)
        .write_to(&mut std::io::Cursor::new(&mut buf), image::ImageFormat::Png)
        .unwrap();
    buf
}

#[test]
fn every_preset_runs() {
    let img = tiny();
    for pipe in all() {
        let svg = run_pipeline(&img, &pipe, &FloatStages).expect(&pipe.name);
        assert!(svg.contains("<svg"), "{} produced no svg", pipe.name);
    }
}

#[test]
fn passthrough_is_100_match_container() {
    let svg = run_pipeline(&tiny(), &by_name("passthrough").unwrap(), &FloatStages).unwrap();
    assert!(svg.contains("data:image/png;base64,"));
}

#[test]
fn passthrough_wraps_base64_png() {
    let img = tiny();
    let svg = passthrough_svg(&img).unwrap();
    let b64 = base64::engine::general_purpose::STANDARD.encode(png_of(&img));
    let expected = format!(
        "<svg xmlns=\"http://www.w3.org/2000/svg\" width=\"2\" height=\"2\" viewBox=\"0 0 2 2\"><image width=\"2\" height=\"2\" href=\"data:image/png;base64,{b64}\"/></svg>"
    );
    assert_eq!(svg, expected);
}

#[test]
fn passthrough_payload_decodes_to_the_image() {
    let img = tiny();
    let svg = passthrough_svg(&img).unwrap();
    let start = svg.find("base64,").unwrap() + "base64,".len();
    let end = svg.rfind("\"/></svg>").unwrap();
    let png = base64::engine::general_purpose::STANDARD.decode(&svg[start..end]).unwrap();
    let back = decode(&png).unwrap();
    assert_eq!((back.width(), back.height()), (img.width(), img.height()));
    assert_eq!(back.pixels(), img.pixels());
}

#[test]
fn convert_bytes_passthrough_round_trips() {
    let img = tiny();
    let png = png_of(&img);
    let svg = convert_bytes(&png, "passthrough", &FloatStages).unwrap();
    assert_eq!(svg, passthrough_svg(&img).unwrap());
}

#[test]
fn convert_bytes_unknown_preset_message() {
    assert_eq!(convert_bytes(&[], "nope", &FloatStages), Err("unknown preset: nope".to_string()));
}

#[test]
fn run_preset_by_name() {
    let img = tiny();
    assert_eq!(run_preset(&img, "nope", &FloatStages), Err("unknown preset: nope".to_string()));
    assert_eq!(run_preset(&img, "passthrough", &FloatStages), passthrough_svg(&img));
    let svg = run_preset(&img, "raw", &FloatStages).unwrap();
    assert_eq!(svg, run_pipeline(&img, &by_name("raw").unwrap(), &FloatStages).unwrap());
}

#[test]
fn convert_bytes_bad_image_is_decode_error() {
    let e = convert_bytes(&[1, 2, 3], "raw", &FloatStages).unwrap_err();
    assert!(e.starts_with("decode failed: "), "{e}");
}

#[test]
fn convert_bytes_traces_known_preset() {
    let svg = convert_bytes(&png_of(&tiny()), "hybrid", &FloatStages).unwrap();
    assert!(svg.contains("<svg"));
}

#[test]
fn decode_reads_png_pixels() {
    let img = tiny();
    let back = decode(&png_of(&img)).unwrap();
    assert_eq!((back.width(), back.height()), (2, 2));
    assert_eq!(back.pixels(), img.pixels());
}

#[test]
fn preset_names_in_display_order() {
    let expected = [
        "raw", "raw_sealed", "smooth", "smooth_sealed", "flat", "hybrid", "outlined",
        "lineart_bold", "mono_lineart", "clean_lineart", "clean_color", "max_fidelity",
        "hi_detail", "passthrough",
    ];
    assert_eq!(names(), expected.iter().map(|s| s.to_string()).collect::<Vec<_>>());
    let listed: Vec<String> = all().into_iter().map(|p| p.name).collect();
    assert_eq!(listed, names());
}

#[test]
fn by_name_finds_each_listed_preset() {
    for (i, n) in names().iter().enumerate() {
        let p = by_name(n).unwrap();
        assert_eq!(&p.name, n);
        assert_eq!(p.description, all()[i].description);
    }
    assert!(by_name("nope").is_none());
    assert!(by_name("Hybrid").is_none());
}

#[test]
fn hybrid_preset_settings() {
    let p = by_name("hybrid").unwrap();
    assert!(p.pre.bilateral);
    assert_eq!(p.pre.bilateral_d, 9);
    assert_eq!(p.pre.bilateral_sigma_color, Thousandths(60000));
    assert_eq!(p.pre.quantize_colors, 32);
    assert_eq!(p.tracer.filter_speckle, 6);
    assert_eq!(p.tracer.length_threshold, Thousandths(4500));
    assert_eq!(p.tracer.path_precision, 1);
    assert_eq!(p.tracer.mode, "spline");
    assert!(!p.post.seal_gaps);
    assert!(!p.passthrough);
}

#[test]
fn only_passthrough_passes_through() {
    for p in all() {
        assert_eq!(p.passthrough, p.name == "passthrough");
    }
}

#[test]
fn named_pipeline_has_default_stages() {
    let p = Pipeline::named("x", "y");
    assert_eq!(p.name, "x");
    assert_eq!(p.description, "y");
    assert_eq!(p.pre.dark_threshold, 60);
    assert_eq!(p.pre.upscale, Thousandths(1000));
    assert_eq!(p.tracer.colormode, "color");
    assert_eq!(p.tracer.corner_threshold, 60);
    assert_eq!(p.post.seal_stroke_width, Thousandths(600));
    assert_eq!(p.post.tiny_path_max_len, 40);
    assert!(!p.passthrough);
}

#[test]
fn trace_settings_read_mode_strings() {
    let mut p = Pipeline::named("x", "y");
    let s = trace_settings(&p.tracer);
    assert_eq!(s.color_mode, ColorModeKind::Color);
    assert_eq!(s.hierarchical, HierarchyKind::Stacked);
    assert_eq!(s.mode, SimplifyKind::Spline);
    p.tracer.colormode = "binary".into();
    p.tracer.hierarchical = "cutout".into();
    p.tracer.mode = "none".into();
    let s = trace_settings(&p.tracer);
    assert_eq!(s.color_mode, ColorModeKind::Binary);
    assert_eq!(s.hierarchical, HierarchyKind::Cutout);
    assert_eq!(s.mode, SimplifyKind::Unsimplified);
    p.tracer.mode = "polygon".into();
    assert_eq!(trace_settings(&p.tracer).mode, SimplifyKind::Polygon);
    p.tracer.mode = "Polygon".into();
    assert_eq!(trace_settings(&p.tracer).mode, SimplifyKind::Spline);
}

#[test]
fn upscale_side_rounds_half_up_and_floors_at_one() {
    assert_eq!(scale_side(3, Thousandths(2000)), 6);
    assert_eq!(scale_side(5, Thousandths(1500)), 8);
    assert_eq!(scale_side(0, Thousandths(2000)), 1);
    assert_eq!(scale_side(1, Thousandths(400)), 1);
    assert_eq!(scale_side(u32::MAX, Thousandths(2000)), u32::MAX);
}

#[test]
fn preprocess_with_passes_off_is_identity() {
    let p = Pipeline::named("x", "y");
    let img = tiny();
    let out = preprocess(&img, &p.pre, &FloatStages).unwrap();
    assert_eq!((out.width(), out.height()), (2, 2));
    assert_eq!(out.pixels(), img.pixels());
}

#[test]
fn preprocess_upscale_doubles_size() {
    let p = by_name("hi_detail").unwrap();
    let out = preprocess(&tiny(), &p.pre, &FloatStages).unwrap();
    assert_eq!((out.width(), out.height()), (4, 4));
}

/// Stages with fixed, easily checked answers.
struct EchoStages {
    trace_fails: bool,
    palette: Vec<(u8, u8, u8)>,
}

impl RasterStages for EchoStages {
    fn bilateral(&self, img: &RgbaRaster, _d: u32, _sc: Thousandths, _ss: Thousandths) -> Vec<u8> {
        vec![9; 3 * (img.width() * img.height()) as usize]
    }

    fn cluster_colors(&self, rgb: &Vec<u8>, _k: usize, _lab: bool) -> (Vec<u8>, Vec<(u8, u8, u8)>) {
        (vec![0; rgb.len() / 3], self.palette.clone())
    }

    fn trace(&self, img: &RgbaRaster, s: &TraceSettings) -> Result<String, String> {
        if self.trace_fails {
            return Err("stage failed".to_string());
        }
        Ok(format!(
            "<svg><path d=\"M{}x{} {}\" fill=\"#000\"/></svg>",
            img.width(),
            img.height(),
            s.filter_speckle
        ))
    }
}

#[test]
fn trace_hands_resolved_settings_to_the_tracer() {
    let mut cfg = pathsmith_core::config::TraceConfig::default();
    cfg.mode = "polygon".to_string();
    assert_eq!(trace_settings(&cfg).mode, SimplifyKind::Polygon);
    let ok = EchoStages { trace_fails: false, palette: vec![] };
    assert_eq!(trace(&tiny(), &cfg, &ok), Ok("<svg><path d=\"M2x2 4\" fill=\"#000\"/></svg>".to_string()));
    let bad = EchoStages { trace_fails: true, palette: vec![] };
    assert_eq!(trace(&tiny(), &cfg, &bad), Err("stage failed".to_string()));
}

#[test]
fn pipeline_postprocesses_the_trace_of_the_preprocessed_image() {
    let ok = EchoStages { trace_fails: false, palette: vec![] };
    let raw = by_name("raw").unwrap();
    assert_eq!(run_pipeline(&tiny(), &raw, &ok), Ok("<svg><path d=\"M2x2 4\" fill=\"#000\"/></svg>".to_string()));
    let sealed = by_name("raw_sealed").unwrap();
    assert_eq!(
        run_pipeline(&tiny(), &sealed, &ok),
        Ok("<svg><path d=\"M2x2 4\" fill=\"#000\" stroke=\"#000\" stroke-width=\"0.8\" stroke-linejoin=\"round\"/></svg>".to_string())
    );
    let upscaled = by_name("hi_detail").unwrap();
    let r = run_pipeline(&tiny(), &upscaled, &ok).unwrap();
    assert!(r.contains("M4x4 "), "{r}");
    assert!(r.starts_with("<svg viewBox=\"0 0 4 4\">"), "{r}");
    let bad = EchoStages { trace_fails: true, palette: vec![] };
    assert_eq!(run_pipeline(&tiny(), &raw, &bad), Err("stage failed".to_string()));
}

#[test]
fn quantize_uses_the_clustering_when_it_fits() {
    let img = tiny();
    let one = EchoStages { trace_fails: false, palette: vec![(1, 2, 3)] };
    let out = quantize(&img, 1, true, &one);
    assert_eq!(out.pixels(), &vec![1, 2, 3, 255, 1, 2, 3, 255, 1, 2, 3, 255, 1, 2, 3, 255]);
    let too_many = EchoStages { trace_fails: false, palette: vec![(1, 2, 3), (4, 5, 6)] };
    assert_eq!(quantize(&img, 1, true, &too_many).pixels(), img.pixels());
    let none = EchoStages { trace_fails: false, palette: vec![] };
    assert_eq!(quantize(&img, 4, true, &none).pixels(), img.pixels());
}

#[test]
fn upscaled_trace_is_shown_at_the_input_size() {
    let img = tiny();
    let svg = run_pipeline(&img, &by_name("hi_detail").unwrap(), &FloatStages).unwrap();
    assert!(svg.contains("width=\"2\" height=\"2\""), "{svg}");
    assert!(svg.contains("viewBox=\"0 0 4 4\""), "{svg}");
}

#[test]
fn bilateral_colours_are_written_with_alpha_kept() {
    let echo = EchoStages { trace_fails: false, palette: vec![] };
    let mut p = Pipeline::named("x", "y");
    p.pre.bilateral = true;
    let out = preprocess(&tiny(), &p.pre, &echo).unwrap();
    assert_eq!(out.pixels(), &vec![9, 9, 9, 255, 9, 9, 9, 255, 9, 9, 9, 255, 9, 9, 9, 255]);
}

#[test]
fn upscale_to_the_same_size_copies_the_pixels() {
    let mut p = Pipeline::named("x", "y");
    p.pre.upscale = Thousandths(1100);
    let out = preprocess(&tiny(), &p.pre, &FloatStages).unwrap();
    assert_eq!((out.width(), out.height()), (2, 2));
    assert_eq!(out.pixels(), tiny().pixels());
}

#[test]
fn lineart_bold_is_outlined_thickened() {
    let o = by_name("outlined").unwrap();
    let b = by_name("lineart_bold").unwrap();
    assert_eq!((o.pre.dilate_dark, b.pre.dilate_dark), (0, 1));
    let mut pre = b.pre;
    pre.dilate_dark = 0;
    assert_eq!(pre, o.pre);
    assert_eq!((o.post.seal_stroke_width, b.post.seal_stroke_width), (Thousandths(800), Thousandths(1000)));
    let mut post = b.post;
    post.seal_stroke_width = Thousandths(800);
    assert_eq!(post, o.post);
    assert_eq!(trace_settings(&b.tracer), trace_settings(&o.tracer));
}
