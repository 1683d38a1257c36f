use imageproc::distance_transform::Norm;

fn cheb(w: u32, i: usize, j: usize) -> u32 {
    let (xi, yi) = ((i as u32) % w, (i as u32) / w);
    let (xj, yj) = ((j as u32) % w, (j as u32) / w);
    xi.abs_diff(xj).max(yi.abs_diff(yj))
}

fn dilated(w: u32, h: u32, m: &[u8], k: u8) -> Vec<u8> {
    let cap = (w + h).min(255);
    (0..m.len())
        .map(|i| {
            let near = (0..m.len()).any(|j| m[j] > 0 && cheb(w, i, j) <= k as u32);
            if near || cap <= k as u32 { 255 } else { 0 }
        })
        .collect()
}

fn eroded(w: u32, h: u32, m: &[u8], k: u8) -> Vec<u8> {
    let cap = (w + h).min(255);
    (0..m.len())
        .map(|i| {
            let near = (0..m.len()).any(|j| m[j] == 0 && cheb(w, i, j) <= k as u32);
            if near || cap <= k as u32 { 0 } else { 255 }
        })
        .collect()
}

fn masks() -> Vec<(u32, u32, Vec<u8>)> {
    let mut out = Vec::new();
    let mut seed: u32 = 7;
    for &(w, h) in &[(1u32, 1u32), (3, 1), (1, 4), (5, 5), (7, 3), (9, 6)] {
        for _ in 0..12 {
            let m: Vec<u8> = (0..w * h)
                .map(|_| {
                    seed = seed.wrapping_mul(1103515245).wrapping_add(12345);
                    if (seed >> 16) % 4 == 0 { 255 } else { 0 }
                })
                .collect();
            out.push((w, h, m));
        }
        out.push((w, h, vec![0; (w * h) as usize]));
        out.push((w, h, vec![255; (w * h) as usize]));
    }
    out
}

#[test]
fn dilate_and_close_match_the_chessboard_formula() {
    for (w, h, m) in masks() {
        for k in [0u8, 1, 2, 3, 4, 5, 8, 10, 11, 13, 14, 15, 16, 254, 255] {
            let img = image::GrayImage::from_raw(w, h, m.clone()).unwrap();
            let d = imageproc::morphology::dilate(&img, Norm::LInf, k).into_raw();
            assert_eq!(d, dilated(w, h, &m, k), "dilate {w}x{h} k={k} {m:?}");
            let c = imageproc::morphology::close(&img, Norm::LInf, k).into_raw();
            assert_eq!(c, eroded(w, h, &dilated(w, h, &m, k), k), "close {w}x{h} k={k} {m:?}");
        }
    }
}
