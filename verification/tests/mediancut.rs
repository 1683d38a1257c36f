use pathsmith_core::mediancut::median_cut;
use pathsmith_core::preprocess::{preprocess, quantize_median};
use pathsmith_core::presets::by_name;
use pathsmith_core::raster::RgbaRaster;

fn reds() -> Vec<u8> {
    vec![0, 0, 0, 10, 0, 0, 200, 0, 0, 250, 0, 0]
}

#[test]
fn median_cut_splits_at_the_median_of_the_widest_channel() {
    let (labels, palette) = median_cut(&reds(), 2);
    assert_eq!(labels, vec![0, 0, 1, 1]);
    assert_eq!(palette, vec![(5, 0, 0), (225, 0, 0)]);
    let (labels, palette) = median_cut(&reds(), 4);
    assert_eq!(labels, vec![0, 3, 1, 2]);
    assert_eq!(palette, vec![(0, 0, 0), (200, 0, 0), (250, 0, 0), (10, 0, 0)]);
    let (labels, palette) = median_cut(&reds(), 1);
    assert_eq!(labels, vec![0, 0, 0, 0]);
    assert_eq!(palette, vec![(115, 0, 0)]);
}

#[test]
fn median_cut_stops_when_no_box_can_split() {
    let rgb = vec![7, 8, 9, 7, 8, 9, 7, 8, 9];
    assert_eq!(median_cut(&rgb, 16), (vec![0, 0, 0], vec![(7, 8, 9)]));
    assert_eq!(median_cut(&Vec::new(), 16), (Vec::new(), Vec::new()));
}

#[test]
fn median_quantization_keeps_alpha() {
    let img = RgbaRaster::new(4, 1, vec![0, 0, 0, 1, 10, 0, 0, 2, 200, 0, 0, 3, 250, 0, 0, 4]).unwrap();
    let out = quantize_median(&img, 2);
    assert_eq!(out.pixels(), &vec![5, 0, 0, 1, 5, 0, 0, 2, 225, 0, 0, 3, 225, 0, 0, 4]);
}

struct NoStages;

impl pathsmith_core::stages::RasterStages for NoStages {
    fn bilateral(&self, _img: &RgbaRaster, _d: u32, _sc: pathsmith_core::config::Thousandths, _ss: pathsmith_core::config::Thousandths) -> Vec<u8> {
        panic!("bilateral is not used here")
    }
    fn cluster_colors(&self, _rgb: &Vec<u8>, _k: usize, _lab: bool) -> (Vec<u8>, Vec<(u8, u8, u8)>) {
        panic!("k-means is not used without quantize_kmeans")
    }
    fn trace(&self, _img: &RgbaRaster, _s: &pathsmith_core::stages::TraceSettings) -> Result<String, String> {
        Err("not traced".to_string())
    }
}

#[test]
fn flat_preset_quantizes_by_median_cut() {
    let flat = by_name("flat").unwrap();
    assert!(flat.pre.quantize && !flat.pre.quantize_kmeans);
    let img = RgbaRaster::new(2, 1, vec![10, 10, 10, 255, 240, 30, 30, 255]).unwrap();
    let out = preprocess(&img, &flat.pre, &NoStages).unwrap();
    assert_eq!(out.pixels(), img.pixels());
}
