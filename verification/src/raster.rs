//! An RGBA raster held as plain values: width, height and row-major pixel bytes.

use vstd::prelude::*;

verus! {

/// An RGBA image with 8-bit channels, stored row by row, four bytes per pixel.
pub struct RgbaRaster {
    width: u32,
    height: u32,
    pixels: Vec<u8>,
}

/// Bytes of a `w` by `h` RGBA buffer.
pub open spec fn rgba_len(w: nat, h: nat) -> nat {
    w * h * 4
}

/// Index of channel `c` of pixel (`x`, `y`) in a row-major RGBA buffer of width `w`.
pub open spec fn channel_index(w: nat, x: nat, y: nat, c: nat) -> nat {
    (y * w + x) * 4 + c
}

/// Two rasters with the same dimensions and bytes.
pub open spec fn same_image(a: RgbaRaster, b: RgbaRaster) -> bool {
    a.w() == b.w() && a.h() == b.h() && a.px() == b.px()
}

impl RgbaRaster {
    #[verifier::type_invariant]
    spec fn well_formed(self) -> bool {
        self.pixels@.len() == rgba_len(self.width as nat, self.height as nat)
    }

    pub closed spec fn w(self) -> u32 {
        self.width
    }

    pub closed spec fn h(self) -> u32 {
        self.height
    }

    pub closed spec fn px(self) -> Seq<u8> {
        self.pixels@
    }

    /// A raster over the given buffer, when it holds exactly `width * height * 4` bytes.
    pub fn new(width: u32, height: u32, pixels: Vec<u8>) -> (r: Option<Self>)
        ensures
            r is Some <==> pixels@.len() == rgba_len(width as nat, height as nat),
            r matches Some(img) ==> img.w() == width && img.h() == height && img.px() == pixels@,
    {
        let n = pixels.len() as u64;
        proof {
            assert((width as u64) * (height as u64) <= 0xffff_ffff_ffff_ffffu64) by (nonlinear_arith);
        }
        let wh = (width as u64) * (height as u64);
        if n % 4 == 0 && wh == n / 4 {
            Some(RgbaRaster { width, height, pixels })
        } else {
            None
        }
    }

    pub fn width(&self) -> (r: u32)
        ensures
            r == self.w(),
    {
        self.width
    }

    pub fn height(&self) -> (r: u32)
        ensures
            r == self.h(),
    {
        self.height
    }

    pub fn pixels(&self) -> (r: &Vec<u8>)
        ensures
            r@ == self.px(),
            r@.len() == rgba_len(self.w() as nat, self.h() as nat),
    {
        proof {
            use_type_invariant(self);
        }
        &self.pixels
    }

    pub fn into_pixels(self) -> (r: Vec<u8>)
        ensures
            r@ == self.px(),
            r@.len() == rgba_len(self.w() as nat, self.h() as nat),
    {
        proof {
            use_type_invariant(&self);
        }
        self.pixels
    }
}

} // verus!
