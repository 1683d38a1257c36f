//! Integer parts of comparing a rendered image with its reference: compositing
//! premultiplied RGBA onto white, and counting per-pixel agreement.

use vstd::prelude::*;
use crate::raster::RgbaRaster;

verus! {

/// A premultiplied channel composited onto white: `c + (255 - alpha)`, capped at 255.
pub open spec fn on_white(c: u8, alpha: u8) -> u8 {
    let v = c + (255 - alpha);
    if v > 255 { 255 } else { v as u8 }
}

/// Composite premultiplied RGBA onto white, giving packed RGB.
pub fn composite_white_premul(img: &RgbaRaster) -> (rgb: Vec<u8>)
    ensures
        rgb@.len() == 3 * (img.w() * img.h()),
        forall|i: int, c: int|
            0 <= i < img.w() * img.h() && 0 <= c < 3 ==> #[trigger] rgb@[3 * i + c] == on_white(
                img.px()[4 * i + c],
                img.px()[4 * i + 3],
            ),
{
    let px = img.pixels();
    let plen = px.len();
    assert(plen == 4 * (img.w() * img.h())) by (nonlinear_arith)
        requires
            plen == img.w() * img.h() * 4,
    ;
    let n = plen / 4;
    let mut rgb: Vec<u8> = Vec::new();
    for i in 0..n
        invariant
            px@ == img.px(),
            n * 4 == px@.len(),
            plen == px@.len(),
            n == img.w() * img.h(),
            rgb@.len() == 3 * i,
            forall|k: int, c: int|
                0 <= k < i && 0 <= c < 3 ==> #[trigger] rgb@[3 * k + c] == on_white(
                    px@[4 * k + c],
                    px@[4 * k + 3],
                ),
    {
        let inv: u16 = 255 - px[4 * i + 3] as u16;
        let r = px[4 * i] as u16 + inv;
        let g = px[4 * i + 1] as u16 + inv;
        let b = px[4 * i + 2] as u16 + inv;
        rgb.push(if r > 255 { 255 } else { r as u8 });
        rgb.push(if g > 255 { 255 } else { g as u8 });
        rgb.push(if b > 255 { 255 } else { b as u8 });
    }
    rgb
}

pub open spec fn abs_diff(x: u8, y: u8) -> nat {
    if x >= y { (x - y) as nat } else { (y - x) as nat }
}

/// Largest channel difference of pixel `i` of two packed RGB buffers.
pub open spec fn max_diff(a: Seq<u8>, b: Seq<u8>, i: int) -> nat {
    let dr = abs_diff(a[3 * i], b[3 * i]);
    let dg = abs_diff(a[3 * i + 1], b[3 * i + 1]);
    let db = abs_diff(a[3 * i + 2], b[3 * i + 2]);
    let m = if dr >= dg { dr } else { dg };
    if m >= db { m } else { db }
}

/// Sum of the channel differences of pixel `i`.
pub open spec fn sum_diff(a: Seq<u8>, b: Seq<u8>, i: int) -> nat {
    abs_diff(a[3 * i], b[3 * i]) + abs_diff(a[3 * i + 1], b[3 * i + 1]) + abs_diff(a[3 * i + 2], b[3 * i + 2])
}

/// Among the first `n` pixels, those whose channels all differ by at most `tol`.
pub open spec fn within_count(a: Seq<u8>, b: Seq<u8>, tol: u8, n: nat) -> nat
    decreases n,
{
    if n == 0 {
        0
    } else {
        within_count(a, b, tol, (n - 1) as nat) + if max_diff(a, b, n - 1) <= tol { 1nat } else { 0nat }
    }
}

/// Sum of all channel differences over the first `n` pixels.
pub open spec fn total_diff(a: Seq<u8>, b: Seq<u8>, n: nat) -> nat
    decreases n,
{
    if n == 0 {
        0
    } else {
        total_diff(a, b, (n - 1) as nat) + sum_diff(a, b, n - 1)
    }
}

proof fn lemma_total_bound(a: Seq<u8>, b: Seq<u8>, n: nat)
    ensures
        total_diff(a, b, n) <= 765 * n,
    decreases n,
{
    if n > 0 {
        lemma_total_bound(a, b, (n - 1) as nat);
    }
}

proof fn lemma_within_bound(a: Seq<u8>, b: Seq<u8>, tol: u8, n: nat)
    ensures
        within_count(a, b, tol, n) <= n,
    decreases n,
{
    if n > 0 {
        lemma_within_bound(a, b, tol, (n - 1) as nat);
    }
}

/// The agreement counts grow pixel by pixel from zero: pixel `n` adds one to
/// the count exactly when each of its three channels differs by at most `tol`
/// (in either direction), and adds its three channel differences to the total.
pub proof fn lemma_agreement_step(a: Seq<u8>, b: Seq<u8>, tol: u8, n: nat)
    ensures
        within_count(a, b, tol, 0) == 0,
        total_diff(a, b, 0) == 0,
        ({
            let (r, g, bl) = (3 * n as int, 3 * n as int + 1, 3 * n as int + 2);
            within_count(a, b, tol, n + 1) == within_count(a, b, tol, n) + if a[r] - b[r] <= tol
                && b[r] - a[r] <= tol && a[g] - b[g] <= tol && b[g] - a[g] <= tol && a[bl] - b[bl]
                <= tol && b[bl] - a[bl] <= tol {
                1int
            } else {
                0int
            }
        }),
        ({
            let (r, g, bl) = (3 * n as int, 3 * n as int + 1, 3 * n as int + 2);
            total_diff(a, b, n + 1) == total_diff(a, b, n) + (if a[r] >= b[r] {
                a[r] - b[r]
            } else {
                b[r] - a[r]
            }) + (if a[g] >= b[g] {
                a[g] - b[g]
            } else {
                b[g] - a[g]
            }) + (if a[bl] >= b[bl] {
                a[bl] - b[bl]
            } else {
                b[bl] - a[bl]
            })
        }),
{
    assert(((n + 1) - 1) as nat == n);
}

/// A buffer agrees with itself on every pixel, at every tolerance, with no
/// difference at all.
pub proof fn lemma_self_agreement(a: Seq<u8>, tol: u8, n: nat)
    ensures
        within_count(a, a, tol, n) == n,
        total_diff(a, a, n) == 0,
    decreases n,
{
    if n > 0 {
        lemma_self_agreement(a, tol, (n - 1) as nat);
    }
}

fn diff(x: u8, y: u8) -> (d: u16)
    ensures
        d == abs_diff(x, y),
{
    if x >= y { (x - y) as u16 } else { (y - x) as u16 }
}

/// Over the pixels both packed RGB buffers have: how many agree within `tol`
/// on every channel, and the sum of all channel differences.
pub fn pixel_agreement(a: &Vec<u8>, b: &Vec<u8>, tol: u8) -> (r: (u64, u64))
    requires
        765 * (a@.len() / 3) <= u64::MAX,
    ensures
        ({
            let n = if a@.len() / 3 <= b@.len() / 3 { a@.len() / 3 } else { b@.len() / 3 };
            r.0 == within_count(a@, b@, tol, n as nat) && r.1 == total_diff(a@, b@, n as nat)
        }),
{
    let alen = a.len();
    let blen = b.len();
    let n = if alen / 3 <= blen / 3 { alen / 3 } else { blen / 3 };
    let mut within: u64 = 0;
    let mut total: u64 = 0;
    for i in 0..n
        invariant
            alen == a@.len(),
            blen == b@.len(),
            n <= a@.len() / 3,
            n <= b@.len() / 3,
            765 * (a@.len() / 3) <= u64::MAX,
            within == within_count(a@, b@, tol, i as nat),
            total == total_diff(a@, b@, i as nat),
    {
        proof {
            lemma_total_bound(a@, b@, i as nat);
            lemma_within_bound(a@, b@, tol, i as nat);
        }
        let dr = diff(a[3 * i], b[3 * i]);
        let dg = diff(a[3 * i + 1], b[3 * i + 1]);
        let db = diff(a[3 * i + 2], b[3 * i + 2]);
        let m = if dr >= dg { dr } else { dg };
        let m = if m >= db { m } else { db };
        if m <= tol as u16 {
            within += 1;
        }
        total += dr as u64 + dg as u64 + db as u64;
    }
    (within, total)
}

} // verus!
