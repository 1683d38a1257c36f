use pathsmith_core::compare::{composite_white_premul, pixel_agreement};
use pathsmith_core::config::PreprocessConfig;
use pathsmith_core::preprocess::{apply_dark_mask, dark_mask, rgb_samples, write_quantized};
use pathsmith_core::raster::RgbaRaster;
use pathsmith_core::requests::resolve_pipelines;
use pathsmith_core::text::{decimal_chars, thousandths_chars};

fn s(v: Vec<char>) -> String {
    v.into_iter().collect()
}

#[test]
fn decimal_and_thousandths_text() {
    assert_eq!(s(decimal_chars(0)), "0");
    assert_eq!(s(decimal_chars(1907)), "1907");
    assert_eq!(s(thousandths_chars(800)), "0.8");
    assert_eq!(s(thousandths_chars(600)), "0.6");
    assert_eq!(s(thousandths_chars(1000)), "1");
    assert_eq!(s(thousandths_chars(4500)), "4.5");
    assert_eq!(s(thousandths_chars(5)), "0.005");
    assert_eq!(s(thousandths_chars(12340)), "12.34");
    assert_eq!(s(thousandths_chars(0)), "0");
}

#[test]
fn resolve_pipelines_lists() {
    assert_eq!(resolve_pipelines(None).len(), 14);
    assert_eq!(resolve_pipelines(Some("all")), resolve_pipelines(None));
    assert_eq!(resolve_pipelines(Some("")), resolve_pipelines(None));
    assert_eq!(resolve_pipelines(Some(" raw , ,hybrid,")), vec!["raw".to_string(), "hybrid".to_string()]);
    assert_eq!(resolve_pipelines(Some("All")), vec!["All".to_string()]);
    assert_eq!(resolve_pipelines(Some(",,")), Vec::<String>::new());
}

fn two_pixels() -> RgbaRaster {
    RgbaRaster::new(2, 1, vec![10, 50, 20, 200, 200, 100, 90, 128]).unwrap()
}

#[test]
fn dark_mask_marks_dark_pixels() {
    assert_eq!(dark_mask(&two_pixels(), 60), vec![255, 0]);
    assert_eq!(dark_mask(&two_pixels(), 49), vec![0, 0]);
    assert_eq!(dark_mask(&two_pixels(), 255), vec![255, 255]);
}

#[test]
fn dark_pixels_are_painted_black() {
    let mut cfg = PreprocessConfig::default();
    cfg.close_outline = 0;
    cfg.dilate_dark = 0;
    cfg.dark_threshold = 60;
    let out = apply_dark_mask(&two_pixels(), &cfg);
    assert_eq!(out.pixels(), &vec![0, 0, 0, 200, 200, 100, 90, 128]);
}

#[test]
fn dilated_mask_spreads_black() {
    let mut cfg = PreprocessConfig::default();
    cfg.dilate_dark = 1;
    cfg.dark_threshold = 60;
    let out = apply_dark_mask(&two_pixels(), &cfg);
    assert_eq!(out.pixels(), &vec![0, 0, 0, 200, 0, 0, 0, 128]);
}

#[test]
fn quantized_colours_keep_alpha() {
    let img = two_pixels();
    assert_eq!(rgb_samples(&img), vec![10, 50, 20, 200, 100, 90]);
    let out = write_quantized(&img, &vec![1, 0], &vec![(1, 2, 3), (4, 5, 6)]);
    assert_eq!(out.pixels(), &vec![4, 5, 6, 200, 1, 2, 3, 128]);
    let partial = write_quantized(&img, &vec![0], &vec![(7, 7, 7)]);
    assert_eq!(partial.pixels(), &vec![7, 7, 7, 200, 200, 100, 90, 128]);
}

#[test]
fn premultiplied_on_white() {
    let img = RgbaRaster::new(2, 1, vec![10, 20, 30, 255, 100, 0, 250, 50]).unwrap();
    assert_eq!(composite_white_premul(&img), vec![10, 20, 30, 255, 205, 255]);
}

#[test]
fn agreement_counts() {
    let a = vec![10, 10, 10, 0, 0, 0, 255, 255, 255];
    let b = vec![12, 10, 9, 0, 9, 0, 255, 255, 255, 1, 1, 1];
    assert_eq!(pixel_agreement(&a, &b, 5), (2, 3 + 9));
    assert_eq!(pixel_agreement(&a, &b, 1), (1, 12));
}

#[test]
fn closed_mask_fills_gap_between_outlines() {
    let img = RgbaRaster::new(3, 1, vec![10, 10, 10, 255, 200, 200, 200, 255, 10, 10, 10, 255]).unwrap();
    let mut cfg = PreprocessConfig::default();
    cfg.close_outline = 0;
    cfg.dilate_dark = 0;
    cfg.dark_threshold = 60;
    let open = apply_dark_mask(&img, &cfg);
    assert_eq!(open.pixels(), &vec![0, 0, 0, 255, 200, 200, 200, 255, 0, 0, 0, 255]);
    cfg.close_outline = 1;
    let closed = apply_dark_mask(&img, &cfg);
    assert_eq!(closed.pixels(), &vec![0, 0, 0, 255, 0, 0, 0, 255, 0, 0, 0, 255]);
}

#[test]
fn only_pixels_below_the_threshold_are_dark() {
    assert_eq!(dark_mask(&two_pixels(), 50), vec![0, 0]);
    assert_eq!(dark_mask(&two_pixels(), 51), vec![255, 0]);
    let img = RgbaRaster::new(2, 1, vec![60, 60, 60, 7, 59, 0, 0, 9]).unwrap();
    let cfg = PreprocessConfig::default();
    assert_eq!(apply_dark_mask(&img, &cfg).pixels(), &vec![60, 60, 60, 7, 0, 0, 0, 9]);
}

#[test]
fn closing_at_the_distance_cap_clears_the_mask() {
    let img = RgbaRaster::new(3, 1, vec![10, 10, 10, 255, 200, 200, 200, 255, 10, 10, 10, 255]).unwrap();
    let mut cfg = PreprocessConfig::default();
    cfg.dark_threshold = 60;
    cfg.close_outline = 3;
    assert_eq!(apply_dark_mask(&img, &cfg).pixels(), &vec![0, 0, 0, 255, 0, 0, 0, 255, 0, 0, 0, 255]);
    cfg.close_outline = 4;
    assert_eq!(apply_dark_mask(&img, &cfg).pixels(), img.pixels());
}

#[test]
fn radius_past_255_is_capped_not_wrapped() {
    let mut px = vec![10, 10, 10, 255];
    for _ in 0..7 {
        px.extend_from_slice(&[200, 200, 200, 255]);
    }
    let img = RgbaRaster::new(8, 1, px).unwrap();
    let mut cfg = PreprocessConfig::default();
    cfg.dark_threshold = 60;
    cfg.dilate_dark = 257;
    let out = apply_dark_mask(&img, &cfg);
    assert!(out.pixels().chunks(4).all(|p| p == [0, 0, 0, 255]));
}
