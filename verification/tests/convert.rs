use pathsmith_core::config::Thousandths;
use pathsmith_core::convert_bytes;
use pathsmith_core::raster::RgbaRaster;
use pathsmith_core::stages::{RasterStages, TraceSettings};

/// Stages that leave images unchanged and trace to an empty document.
struct PlainStages;

impl RasterStages for PlainStages {
    fn bilateral(&self, img: &RgbaRaster, _d: u32, _sc: Thousandths, _ss: Thousandths) -> Vec<u8> {
        img.pixels().chunks(4).flat_map(|p| [p[0], p[1], p[2]]).collect()
    }

    fn cluster_colors(&self, rgb: &Vec<u8>, _k: usize, _lab: bool) -> (Vec<u8>, Vec<(u8, u8, u8)>) {
        (vec![0; rgb.len() / 3], vec![(0, 0, 0)])
    }

    fn trace(&self, _img: &RgbaRaster, _settings: &TraceSettings) -> Result<String, String> {
        Ok("<svg></svg>".to_string())
    }
}

#[test]
fn unknown_preset_errors() {
    assert!(convert_bytes(&[], "nope", &PlainStages).is_err());
}
