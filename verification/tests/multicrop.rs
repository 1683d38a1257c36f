use pathsmith_core::multicrop::{crop_all, crop_bytes, crop_one, sanitize, CropBox};
use pathsmith_core::raster::RgbaRaster;

fn img(w: u32, h: u32) -> RgbaRaster {
    let mut px = Vec::new();
    for y in 0..h {
        for x in 0..w {
            px.extend_from_slice(&[(x % 256) as u8, (y % 256) as u8, 0, 255]);
        }
    }
    RgbaRaster::new(w, h, px).unwrap()
}

fn bx(x: u32, y: u32, width: u32, height: u32, label: Option<&str>) -> CropBox {
    CropBox { x, y, width, height, label: label.map(|s| s.to_string()) }
}

#[test]
fn crops_to_expected_dimensions() {
    let src = img(10, 10);
    let png = crop_one(&src, &bx(2, 3, 4, 5, None)).unwrap();
    let out = image::load_from_memory(&png).unwrap();
    assert_eq!(out.width(), 4);
    assert_eq!(out.height(), 5);
}

#[test]
fn overhanging_box_is_trimmed() {
    let src = img(10, 10);
    let png = crop_one(&src, &bx(8, 8, 100, 100, None)).unwrap();
    let out = image::load_from_memory(&png).unwrap();
    assert_eq!((out.width(), out.height()), (2, 2));
}

#[test]
fn zero_area_box_errors() {
    let src = img(10, 10);
    assert!(crop_one(&src, &bx(20, 0, 5, 5, None)).is_err());
}

#[test]
fn names_default_and_sanitize() {
    let src = img(10, 10);
    let boxes = vec![bx(0, 0, 2, 2, None), bx(0, 0, 2, 2, Some("a/b"))];
    let out = crop_all(&src, &boxes);
    assert_eq!(out[0].0, "crop-1");
    assert_eq!(out[1].0, "a_b");
    assert!(out.iter().all(|(_, r)| r.is_ok()));
}

#[test]
fn zero_area_message() {
    let src = img(10, 10);
    assert_eq!(
        crop_one(&src, &bx(3, 10, 5, 5, None)),
        Err("box has zero area within the image".to_string())
    );
    assert!(crop_one(&src, &bx(0, 0, 0, 5, None)).is_err());
}

#[test]
fn crop_keeps_source_pixels() {
    let src = img(10, 10);
    let png = crop_one(&src, &bx(2, 3, 4, 5, None)).unwrap();
    let out = image::load_from_memory(&png).unwrap().to_rgba8();
    for (x, y, p) in out.enumerate_pixels() {
        assert_eq!(p.0, [(x + 2) as u8, (y + 3) as u8, 0, 255]);
    }
}

#[test]
fn crop_names_fall_back_for_blank_labels() {
    let src = img(4, 4);
    let boxes = vec![
        bx(0, 0, 1, 1, Some("  ")),
        bx(0, 0, 1, 1, Some(" logo ")),
        bx(9, 9, 1, 1, None),
    ];
    let out = crop_all(&src, &boxes);
    assert_eq!(out.len(), 3);
    assert_eq!(out[0].0, "crop-1");
    assert_eq!(out[1].0, "logo");
    assert_eq!(out[2].0, "crop-3");
    assert!(out[2].1.is_err());
}

#[test]
fn sanitize_replaces_unsafe_characters() {
    assert_eq!(sanitize("  a/b\t "), "a_b");
    assert_eq!(sanitize("x:y*z?\"<>|\\w"), "x_y_z______w");
    assert_eq!(sanitize("tab\there"), "tab_here");
    assert_eq!(sanitize("\u{0085}label\u{3000}"), "label");
    assert_eq!(sanitize("a\u{7f}b"), "a_b");
    assert_eq!(sanitize(""), "");
    assert_eq!(sanitize(" ü ö "), "ü ö");
}

#[test]
fn sanitize_is_idempotent_on_examples() {
    for s in ["  a/b\t ", "x:y", " \u{2003}q\u{1}\u{2003} ", "plain"] {
        let once = sanitize(s);
        assert_eq!(sanitize(&once), once);
    }
}

#[test]
fn crop_bytes_decodes_then_crops() {
    let src = img(6, 4);
    let i = image::RgbaImage::from_raw(6, 4, src.pixels().clone()).unwrap();
    let mut png = Vec::new();
    image::DynamicImage::ImageRgba8(i)
        .write_to(&mut std::io::Cursor::new(&mut png), image::ImageFormat::Png)
        .unwrap();
    let out = crop_bytes(&png, &[bx(1, 1, 2, 2, Some("part"))]).unwrap();
    assert_eq!(out.len(), 1);
    assert_eq!(out[0].0, "part");
    let crop = image::load_from_memory(out[0].1.as_ref().unwrap()).unwrap();
    assert_eq!((crop.width(), crop.height()), (2, 2));
    let e = crop_bytes(&[0, 1, 2], &[]).unwrap_err();
    assert!(e.starts_with("decode failed: "));
}
