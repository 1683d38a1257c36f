//! Median-cut colour quantization on packed RGB samples.
//!
//! Every pixel carries the label of the box it belongs to; all start in one
//! box. Each step takes the box and channel with the widest range of values
//! (the first such in box order, then red, green, blue) and splits that box at
//! the median of the channel: the lower half of its pixels keep the label, the
//! others get a new one. This repeats until there are as many boxes as
//! colours asked for, or no box has two different values left. Each box's
//! colour is the mean of its pixels, rounded down.

use vstd::prelude::*;

verus! {

/// Channel `ch` of pixel `j`.
pub open spec fn val(rgb: Seq<u8>, j: int, ch: int) -> int {
    rgb[3 * j + ch] as int
}

/// Among the first `j` pixels, those labelled `c`.
pub open spec fn box_count(labels: Seq<u8>, c: int, j: int) -> nat
    decreases j,
{
    if j <= 0 {
        0
    } else {
        box_count(labels, c, j - 1) + if labels[j - 1] == c { 1nat } else { 0nat }
    }
}

/// The least value of channel `ch` among the first `j` pixels labelled `c`
/// (256 when there are none).
pub open spec fn box_min(rgb: Seq<u8>, labels: Seq<u8>, c: int, ch: int, j: int) -> int
    decreases j,
{
    if j <= 0 {
        256
    } else {
        let m = box_min(rgb, labels, c, ch, j - 1);
        if labels[j - 1] == c && val(rgb, j - 1, ch) < m {
            val(rgb, j - 1, ch)
        } else {
            m
        }
    }
}

/// The greatest value of channel `ch` among the first `j` pixels labelled
/// `c` (-1 when there are none).
pub open spec fn box_max(rgb: Seq<u8>, labels: Seq<u8>, c: int, ch: int, j: int) -> int
    decreases j,
{
    if j <= 0 {
        -1
    } else {
        let m = box_max(rgb, labels, c, ch, j - 1);
        if labels[j - 1] == c && val(rgb, j - 1, ch) > m {
            val(rgb, j - 1, ch)
        } else {
            m
        }
    }
}

/// The sum of channel `ch` over the first `j` pixels labelled `c`.
pub open spec fn box_sum(rgb: Seq<u8>, labels: Seq<u8>, c: int, ch: int, j: int) -> nat
    decreases j,
{
    if j <= 0 {
        0
    } else {
        box_sum(rgb, labels, c, ch, j - 1) + if labels[j - 1] == c {
            rgb[3 * (j - 1) + ch] as nat
        } else {
            0nat
        }
    }
}

/// Among the first `j` pixels labelled `c`, those whose channel `ch` is at most `v`.
pub open spec fn cnt_le(rgb: Seq<u8>, labels: Seq<u8>, c: int, ch: int, v: int, j: int) -> nat
    decreases j,
{
    if j <= 0 {
        0
    } else {
        cnt_le(rgb, labels, c, ch, v, j - 1) + if labels[j - 1] == c && val(rgb, j - 1, ch) <= v {
            1nat
        } else {
            0nat
        }
    }
}

/// Among the first `j` pixels labelled `c`, those whose channel `ch` is `v`.
pub open spec fn cnt_eq(rgb: Seq<u8>, labels: Seq<u8>, c: int, ch: int, v: int, j: int) -> nat
    decreases j,
{
    if j <= 0 {
        0
    } else {
        cnt_eq(rgb, labels, c, ch, v, j - 1) + if labels[j - 1] == c && val(rgb, j - 1, ch) == v {
            1nat
        } else {
            0nat
        }
    }
}

/// The range of channel `ch` over box `c` (0 for an empty box).
pub open spec fn span(rgb: Seq<u8>, labels: Seq<u8>, c: int, ch: int) -> int {
    let n = labels.len() as int;
    if box_count(labels, c, n) == 0 {
        0
    } else {
        box_max(rgb, labels, c, ch, n) - box_min(rgb, labels, c, ch, n)
    }
}

/// Of the candidates `0..q` (candidate `x` is box `x / 3`, channel `x % 3`),
/// the first with the widest range.
pub open spec fn best_q(rgb: Seq<u8>, labels: Seq<u8>, q: int) -> int
    decreases q,
{
    if q <= 1 {
        0
    } else {
        let b = best_q(rgb, labels, q - 1);
        if span(rgb, labels, (q - 1) / 3, (q - 1) % 3) > span(rgb, labels, b / 3, b % 3) {
            q - 1
        } else {
            b
        }
    }
}

/// The median value: from `v` up, the first value with at least `half` of
/// the box's pixels at or below it (255 at the latest).
pub open spec fn first_at_least(rgb: Seq<u8>, labels: Seq<u8>, c: int, ch: int, half: nat, v: int) -> int
    decreases 255 - v,
{
    if v >= 255 {
        255
    } else if cnt_le(rgb, labels, c, ch, v, labels.len() as int) >= half {
        v
    } else {
        first_at_least(rgb, labels, c, ch, half, v + 1)
    }
}

/// Pixel `j` leaves box `c` for the new box: its value is above the median
/// `t`, or it is at the median after the first `need` such pixels.
pub open spec fn goes_right(rgb: Seq<u8>, labels: Seq<u8>, c: int, ch: int, t: int, need: int, j: int) -> bool {
    labels[j] == c && (val(rgb, j, ch) > t || (val(rgb, j, ch) == t && cnt_eq(rgb, labels, c, ch, t, j)
        >= need))
}

/// The labels after box `c` is split along channel `ch` at `t`, the new box
/// being number `b`.
pub open spec fn split_labels(rgb: Seq<u8>, labels: Seq<u8>, c: int, ch: int, t: int, need: int, b: nat) -> Seq<u8> {
    Seq::new(
        labels.len(),
        |j: int|
            if goes_right(rgb, labels, c, ch, t, need, j) {
                b as u8
            } else {
                labels[j]
            },
    )
}

/// One step: with fewer than `target` boxes, split the box and channel of
/// widest range at its median, when that range is not zero.
pub open spec fn mc_step(rgb: Seq<u8>, labels: Seq<u8>, boxes: nat, target: nat) -> (Seq<u8>, nat) {
    if boxes == 0 || boxes >= target {
        (labels, boxes)
    } else {
        let n = labels.len() as int;
        let q = best_q(rgb, labels, 3 * boxes as int);
        let c = q / 3;
        let ch = q % 3;
        if span(rgb, labels, c, ch) <= 0 {
            (labels, boxes)
        } else {
            let half = box_count(labels, c, n) / 2;
            let t = first_at_least(rgb, labels, c, ch, half, 0);
            let need = half - cnt_le(rgb, labels, c, ch, t - 1, n);
            (split_labels(rgb, labels, c, ch, t, need, boxes), boxes + 1)
        }
    }
}

/// The labels and the number of boxes after `s` steps.
pub open spec fn mc_state(rgb: Seq<u8>, target: nat, s: nat) -> (Seq<u8>, nat)
    decreases s,
{
    if s == 0 {
        let n = rgb.len() / 3;
        (Seq::new(n, |j: int| 0u8), if n > 0 { 1nat } else { 0nat })
    } else {
        let p = mc_state(rgb, target, (s - 1) as nat);
        mc_step(rgb, p.0, p.1, target)
    }
}

/// The number of colours a median cut aims at: `k`, at most 256.
pub open spec fn mc_target(k: usize) -> nat {
    if k > 256 { 256 } else { k as nat }
}

/// The box label of every pixel after the median cut to `k` colours.
pub open spec fn mc_labels(rgb: Seq<u8>, k: usize) -> Seq<u8> {
    mc_state(rgb, mc_target(k), mc_target(k)).0
}

/// The mean colour of box `c`, each channel rounded down (black for an empty box).
pub open spec fn mean_colour(rgb: Seq<u8>, labels: Seq<u8>, c: int) -> (u8, u8, u8) {
    let n = labels.len() as int;
    let cnt = box_count(labels, c, n);
    if cnt == 0 {
        (0, 0, 0)
    } else {
        (
            (box_sum(rgb, labels, c, 0, n) / cnt) as u8,
            (box_sum(rgb, labels, c, 1, n) / cnt) as u8,
            (box_sum(rgb, labels, c, 2, n) / cnt) as u8,
        )
    }
}

/// The colour of every box after the median cut to `k` colours.
pub open spec fn mc_palette(rgb: Seq<u8>, k: usize) -> Seq<(u8, u8, u8)> {
    let st = mc_state(rgb, mc_target(k), mc_target(k));
    Seq::new(st.1, |c: int| mean_colour(rgb, st.0, c))
}

proof fn lemma_state_ok(rgb: Seq<u8>, target: nat, s: nat)
    requires
        rgb.len() % 3 == 0,
        1 <= target <= 256,
    ensures
        mc_state(rgb, target, s).0.len() == rgb.len() / 3,
        mc_state(rgb, target, s).1 <= target,
        rgb.len() / 3 > 0 ==> mc_state(rgb, target, s).1 >= 1,
        rgb.len() / 3 == 0 ==> mc_state(rgb, target, s).1 == 0,
        forall|j: int|
            0 <= j < rgb.len() / 3 ==> (#[trigger] mc_state(rgb, target, s).0[j]) < mc_state(
                rgb,
                target,
                s,
            ).1,
    decreases s,
{
    if s > 0 {
        lemma_state_ok(rgb, target, (s - 1) as nat);
        let p = mc_state(rgb, target, (s - 1) as nat);
        let st = mc_state(rgb, target, s);
        assert(st == mc_step(rgb, p.0, p.1, target));
        if !(p.1 == 0 || p.1 >= target) {
            let n = p.0.len() as int;
            let q = best_q(rgb, p.0, 3 * p.1 as int);
            let c = q / 3;
            let ch = q % 3;
            if span(rgb, p.0, c, ch) > 0 {
                assert forall|j: int| 0 <= j < rgb.len() / 3 implies (#[trigger] st.0[j]) < st.1 by {
                    assert(p.0[j] < p.1);
                }
            }
        }
    }
}

proof fn lemma_fixpoint(rgb: Seq<u8>, target: nat, s: nat, s2: nat)
    requires
        s <= s2,
        mc_step(rgb, mc_state(rgb, target, s).0, mc_state(rgb, target, s).1, target) == mc_state(
            rgb,
            target,
            s,
        ),
    ensures
        mc_state(rgb, target, s2) == mc_state(rgb, target, s),
    decreases s2,
{
    if s2 > s {
        lemma_fixpoint(rgb, target, s, (s2 - 1) as nat);
    }
}

proof fn lemma_cnt_le_step(rgb: Seq<u8>, labels: Seq<u8>, c: int, ch: int, v: int, j: int)
    ensures
        cnt_le(rgb, labels, c, ch, v, j) == cnt_le(rgb, labels, c, ch, v - 1, j) + cnt_eq(
            rgb,
            labels,
            c,
            ch,
            v,
            j,
        ),
    decreases j,
{
    if j > 0 {
        lemma_cnt_le_step(rgb, labels, c, ch, v, j - 1);
    }
}

proof fn lemma_cnt_le_neg(rgb: Seq<u8>, labels: Seq<u8>, c: int, ch: int, j: int)
    ensures
        cnt_le(rgb, labels, c, ch, -1, j) == 0,
    decreases j,
{
    if j > 0 {
        lemma_cnt_le_neg(rgb, labels, c, ch, j - 1);
    }
}

proof fn lemma_first(rgb: Seq<u8>, labels: Seq<u8>, c: int, ch: int, half: nat, u: int, v: int)
    requires
        0 <= u <= v <= 255,
        forall|w: int| u <= w < v ==> #[trigger] cnt_le(rgb, labels, c, ch, w, labels.len() as int) < half,
        v == 255 || cnt_le(rgb, labels, c, ch, v, labels.len() as int) >= half,
    ensures
        first_at_least(rgb, labels, c, ch, half, u) == v,
    decreases v - u,
{
    if u < v {
        assert(cnt_le(rgb, labels, c, ch, u, labels.len() as int) < half);
        lemma_first(rgb, labels, c, ch, half, u + 1, v);
    }
}

proof fn lemma_count_bound(labels: Seq<u8>, c: int, j: int)
    requires
        j >= 0,
    ensures
        box_count(labels, c, j) <= j,
    decreases j,
{
    if j > 0 {
        lemma_count_bound(labels, c, j - 1);
    }
}

proof fn lemma_eq_bound(rgb: Seq<u8>, labels: Seq<u8>, c: int, ch: int, v: int, j: int)
    requires
        j >= 0,
    ensures
        cnt_eq(rgb, labels, c, ch, v, j) <= j,
    decreases j,
{
    if j > 0 {
        lemma_eq_bound(rgb, labels, c, ch, v, j - 1);
    }
}

proof fn lemma_sum_bound(rgb: Seq<u8>, labels: Seq<u8>, c: int, ch: int, j: int)
    ensures
        box_sum(rgb, labels, c, ch, j) <= 255 * box_count(labels, c, j),
    decreases j,
{
    if j > 0 {
        lemma_sum_bound(rgb, labels, c, ch, j - 1);
    }
}

fn update_at(mins: &mut Vec<i32>, maxs: &mut Vec<i32>, at: usize, v: i32)
    requires
        at < old(mins)@.len(),
        at < old(maxs)@.len(),
    ensures
        final(mins)@ == old(mins)@.update(at as int, if v < old(mins)@[at as int] { v } else { old(mins)@[at as int] }),
        final(maxs)@ == old(maxs)@.update(at as int, if v > old(maxs)@[at as int] { v } else { old(maxs)@[at as int] }),
{
    if v < mins[at] {
        mins.set(at, v);
    }
    if v > maxs[at] {
        maxs.set(at, v);
    }
}

/// Per box and channel: least and greatest value, and per box the pixel count.
fn box_stats(rgb: &Vec<u8>, labels: &Vec<u8>, boxes: usize) -> (r: (Vec<i32>, Vec<i32>, Vec<usize>))
    requires
        rgb@.len() == 3 * labels@.len(),
        boxes <= 256,
        forall|j: int| 0 <= j < labels@.len() ==> (#[trigger] labels@[j]) < boxes,
    ensures
        r.0@.len() == 3 * boxes,
        r.1@.len() == 3 * boxes,
        r.2@.len() == boxes,
        forall|c: int, ch: int|
            0 <= c < boxes && 0 <= ch < 3 ==> #[trigger] r.0@[3 * c + ch] == box_min(
                rgb@,
                labels@,
                c,
                ch,
                labels@.len() as int,
            ) && r.1@[3 * c + ch] == box_max(rgb@, labels@, c, ch, labels@.len() as int),
        forall|c: int| 0 <= c < boxes ==> #[trigger] r.2@[c] == box_count(labels@, c, labels@.len() as int),
{
    let n = labels.len();
    let rlen = rgb.len();
    let mut mins: Vec<i32> = Vec::new();
    let mut maxs: Vec<i32> = Vec::new();
    for q in 0..3 * boxes
        invariant
            mins@.len() == q,
            maxs@.len() == q,
            forall|x: int| 0 <= x < q ==> #[trigger] mins@[x] == 256,
            forall|x: int| 0 <= x < q ==> #[trigger] maxs@[x] == -1,
    {
        mins.push(256);
        maxs.push(-1);
    }
    let mut counts: Vec<usize> = Vec::new();
    for c in 0..boxes
        invariant
            counts@.len() == c,
            forall|x: int| 0 <= x < c ==> #[trigger] counts@[x] == 0,
    {
        counts.push(0);
    }
    for j in 0..n
        invariant
            n == labels@.len(),
            rgb@.len() == 3 * n,
            boxes <= 256,
            forall|x: int| 0 <= x < n ==> (#[trigger] labels@[x]) < boxes,
            mins@.len() == 3 * boxes,
            maxs@.len() == 3 * boxes,
            counts@.len() == boxes,
            forall|c: int, ch: int|
                0 <= c < boxes && 0 <= ch < 3 ==> #[trigger] mins@[3 * c + ch] == box_min(
                    rgb@,
                    labels@,
                    c,
                    ch,
                    j as int,
                ) && maxs@[3 * c + ch] == box_max(rgb@, labels@, c, ch, j as int),
            forall|c: int| 0 <= c < boxes ==> #[trigger] counts@[c] == box_count(labels@, c, j as int),
            rlen == rgb@.len(),
    {
        let c = labels[j] as usize;
        let ghost m0 = mins@;
        let ghost x0 = maxs@;
        let ghost k0 = counts@;
        update_at(&mut mins, &mut maxs, 3 * c, rgb[3 * j] as i32);
        update_at(&mut mins, &mut maxs, 3 * c + 1, rgb[3 * j + 1] as i32);
        update_at(&mut mins, &mut maxs, 3 * c + 2, rgb[3 * j + 2] as i32);
        assert(counts@[c as int] == box_count(labels@, c as int, j as int));
        proof {
            lemma_count_bound(labels@, c as int, j as int);
        }
        counts.set(c, counts[c] + 1);
        proof {
            assert forall|cc: int, ch: int| 0 <= cc < boxes && 0 <= ch < 3 implies #[trigger] mins@[3 * cc + ch]
                == box_min(rgb@, labels@, cc, ch, j + 1) && maxs@[3 * cc + ch] == box_max(
                rgb@,
                labels@,
                cc,
                ch,
                j + 1,
            ) by {
                assert(m0[3 * cc + ch] == box_min(rgb@, labels@, cc, ch, j as int));
                assert(x0[3 * cc + ch] == box_max(rgb@, labels@, cc, ch, j as int));
                assert(val(rgb@, j as int, ch) == rgb@[3 * j + ch] as int);
                if cc != c {
                    assert(3 * cc + ch < 3 * c || 3 * cc + ch >= 3 * c + 3);
                }
            }
            assert forall|cc: int| 0 <= cc < boxes implies #[trigger] counts@[cc] == box_count(labels@, cc, j + 1) by {
                assert(k0[cc] == box_count(labels@, cc, j as int));
            }
        }
    }
    (mins, maxs, counts)
}

/// How many pixels of box `c` have each value of channel `ch`.
fn histogram(rgb: &Vec<u8>, labels: &Vec<u8>, c: u8, ch: usize) -> (h: Vec<usize>)
    requires
        rgb@.len() == 3 * labels@.len(),
        ch < 3,
    ensures
        h@.len() == 256,
        forall|v: int| 0 <= v < 256 ==> #[trigger] h@[v] == cnt_eq(rgb@, labels@, c as int, ch as int, v, labels@.len() as int),
{
    let n = labels.len();
    let rlen = rgb.len();
    let mut h: Vec<usize> = Vec::new();
    for v in 0..256usize
        invariant
            h@.len() == v,
            forall|x: int| 0 <= x < v ==> #[trigger] h@[x] == 0,
    {
        h.push(0);
    }
    for j in 0..n
        invariant
            n == labels@.len(),
            rgb@.len() == 3 * n,
            ch < 3,
            h@.len() == 256,
            forall|v: int| 0 <= v < 256 ==> #[trigger] h@[v] == cnt_eq(rgb@, labels@, c as int, ch as int, v, j as int),
            rlen == rgb@.len(),
    {
        let ghost h0 = h@;
        if labels[j] == c {
            let x = rgb[3 * j + ch] as usize;
            proof {
                lemma_eq_bound(rgb@, labels@, c as int, ch as int, x as int, j as int);
            }
            h.set(x, h[x] + 1);
        }
        proof {
            assert forall|v: int| 0 <= v < 256 implies #[trigger] h@[v] == cnt_eq(rgb@, labels@, c as int, ch as int, v, j + 1) by {
                assert(h0[v] == cnt_eq(rgb@, labels@, c as int, ch as int, v, j as int));
            }
        }
    }
    h
}

proof fn lemma_cnt_le_bound(rgb: Seq<u8>, labels: Seq<u8>, c: int, ch: int, v: int, j: int)
    requires
        j >= 0,
    ensures
        cnt_le(rgb, labels, c, ch, v, j) <= j,
    decreases j,
{
    if j > 0 {
        lemma_cnt_le_bound(rgb, labels, c, ch, v, j - 1);
    }
}

fn span_at(mins: &Vec<i32>, maxs: &Vec<i32>, counts: &Vec<usize>, x: usize) -> (r: i32)
    requires
        x < mins@.len(),
        mins@.len() == maxs@.len(),
        mins@.len() == 3 * counts@.len(),
        -1 <= maxs@[x as int] <= 256,
        -1 <= mins@[x as int] <= 256,
    ensures
        r == if counts@[x as int / 3] > 0 { maxs@[x as int] - mins@[x as int] } else { 0 },
{
    if counts[x / 3] > 0 {
        maxs[x] - mins[x]
    } else {
        0
    }
}

proof fn lemma_min_max_range(rgb: Seq<u8>, labels: Seq<u8>, c: int, ch: int, j: int)
    ensures
        -1 <= box_min(rgb, labels, c, ch, j) <= 256,
        -1 <= box_max(rgb, labels, c, ch, j) <= 256,
    decreases j,
{
    if j > 0 {
        lemma_min_max_range(rgb, labels, c, ch, j - 1);
    }
}

/// One step of the median cut on exec values; `true` when nothing was split.
fn mc_step_exec(rgb: &Vec<u8>, labels: Vec<u8>, boxes: usize, target: usize) -> (r: (Vec<u8>, usize, bool))
    requires
        rgb@.len() == 3 * labels@.len(),
        1 <= target <= 256,
        boxes <= target,
        forall|j: int| 0 <= j < labels@.len() ==> (#[trigger] labels@[j]) < boxes,
    ensures
        (r.0@, r.1 as nat) == mc_step(rgb@, labels@, boxes as nat, target as nat),
        r.2 ==> r.0@ == labels@ && r.1 == boxes,
{
    if boxes == 0 || boxes >= target {
        return (labels, boxes, true);
    }
    let n = labels.len();
    let rlen = rgb.len();
    let (mins, maxs, counts) = box_stats(rgb, &labels, boxes);
    let ghost rg = rgb@;
    let ghost lb = labels@;
    proof {
        assert forall|x: int| 0 <= x < 3 * boxes implies -1 <= #[trigger] mins@[x] <= 256 by {
            assert(mins@[3 * (x / 3) + x % 3] == box_min(rg, lb, x / 3, x % 3, n as int));
            lemma_min_max_range(rg, lb, x / 3, x % 3, n as int);
        }
        assert forall|x: int| 0 <= x < 3 * boxes implies -1 <= #[trigger] maxs@[x] <= 256 by {
            assert(mins@[3 * (x / 3) + x % 3] == box_min(rg, lb, x / 3, x % 3, n as int));
            assert(maxs@[3 * (x / 3) + x % 3] == box_max(rg, lb, x / 3, x % 3, n as int));
            lemma_min_max_range(rg, lb, x / 3, x % 3, n as int);
        }
    }
    let mut best: usize = 0;
    let mut q: usize = 1;
    while q < 3 * boxes
        invariant
            1 <= q <= 3 * boxes,
            boxes <= 256,
            best < q,
            best as int == best_q(rg, lb, q as int),
            rg == rgb@,
            lb == labels@,
            n == lb.len(),
            mins@.len() == 3 * boxes,
            maxs@.len() == 3 * boxes,
            counts@.len() == boxes,
            forall|x: int| 0 <= x < 3 * boxes ==> -1 <= #[trigger] mins@[x] <= 256,
            forall|x: int| 0 <= x < 3 * boxes ==> -1 <= #[trigger] maxs@[x] <= 256,
            forall|c: int, ch: int|
                0 <= c < boxes && 0 <= ch < 3 ==> #[trigger] mins@[3 * c + ch] == box_min(rg, lb, c, ch, n as int)
                    && maxs@[3 * c + ch] == box_max(rg, lb, c, ch, n as int),
            forall|c: int| 0 <= c < boxes ==> #[trigger] counts@[c] == box_count(lb, c, n as int),
        decreases 3 * boxes - q,
    {
        let sq = span_at(&mins, &maxs, &counts, q);
        let sb = span_at(&mins, &maxs, &counts, best);
        proof {
            assert(mins@[3 * (q as int / 3) + q as int % 3] == box_min(rg, lb, q as int / 3, q as int % 3, n as int));
            assert(mins@[3 * (best as int / 3) + best as int % 3] == box_min(rg, lb, best as int / 3, best as int % 3, n as int));
            assert(counts@[q as int / 3] == box_count(lb, q as int / 3, n as int));
            assert(counts@[best as int / 3] == box_count(lb, best as int / 3, n as int));
            assert(sq == span(rg, lb, q as int / 3, q as int % 3));
            assert(sb == span(rg, lb, best as int / 3, best as int % 3));
        }
        if sq > sb {
            best = q;
        }
        q = q + 1;
    }
    let c = best / 3;
    let ch = best % 3;
    let sp = span_at(&mins, &maxs, &counts, best);
    proof {
        assert(mins@[3 * (best as int / 3) + best as int % 3] == box_min(rg, lb, best as int / 3, best as int % 3, n as int));
        assert(counts@[best as int / 3] == box_count(lb, best as int / 3, n as int));
        assert(sp == span(rg, lb, c as int, ch as int));
    }
    if sp <= 0 {
        return (labels, boxes, true);
    }
    let cnt = counts[c];
    let half = cnt / 2;
    let h = histogram(rgb, &labels, c as u8, ch);
    let mut v: usize = 0;
    let mut cum: usize = 0;
    proof {
        lemma_cnt_le_neg(rg, lb, c as int, ch as int, n as int);
        lemma_count_bound(lb, c as int, n as int);
        lemma_cnt_le_step(rg, lb, c as int, ch as int, 0, n as int);
        lemma_cnt_le_bound(rg, lb, c as int, ch as int, 0, n as int);
    }
    while v < 255 && cum + h[v] < half
        invariant
            v <= 255,
            h@.len() == 256,
            rg == rgb@,
            lb == labels@,
            n == lb.len(),
            half <= n,
            forall|x: int| 0 <= x < 256 ==> #[trigger] h@[x] == cnt_eq(rg, lb, c as int, ch as int, x, n as int),
            cum == cnt_le(rg, lb, c as int, ch as int, v - 1, n as int),
            cum < half || v == 0,
            forall|w: int| 0 <= w < v ==> #[trigger] cnt_le(rg, lb, c as int, ch as int, w, n as int) < half,
            cum + h@[v as int] == cnt_le(rg, lb, c as int, ch as int, v as int, n as int),
            cnt_le(rg, lb, c as int, ch as int, v as int, n as int) <= n,
        decreases 255 - v,
    {
        cum = cum + h[v];
        v = v + 1;
        proof {
            lemma_cnt_le_step(rg, lb, c as int, ch as int, v as int, n as int);
            lemma_cnt_le_bound(rg, lb, c as int, ch as int, v as int, n as int);
        }
    }
    proof {
        if v < 255 {
            lemma_cnt_le_step(rg, lb, c as int, ch as int, v as int, n as int);
        }
        lemma_first(rg, lb, c as int, ch as int, half as nat, 0, v as int);
    }
    let t = v;
    let need = if cum <= half { half - cum } else { 0 };
    assert(cum <= half);
    let mut out: Vec<u8> = Vec::new();
    let mut seen: usize = 0;
    for j in 0..n
        invariant
            n == lb.len(),
            rlen == rg.len(),
            rg == rgb@,
            lb == labels@,
            rg.len() == 3 * n,
            ch < 3,
            c < boxes,
            boxes < 256,
            out@.len() == j,
            seen == cnt_eq(rg, lb, c as int, ch as int, t as int, j as int),
            forall|x: int| 0 <= x < j ==> #[trigger] out@[x] == if goes_right(rg, lb, c as int, ch as int, t as int, need as int, x) {
                boxes as u8
            } else {
                lb[x]
            },
    {
        let l = labels[j];
        proof {
            lemma_eq_bound(rg, lb, c as int, ch as int, t as int, j as int);
        }
        if l == c as u8 {
            let x = rgb[3 * j + ch] as usize;
            let right = x > t || (x == t && seen >= need);
            out.push(if right { boxes as u8 } else { l });
            if x == t {
                seen = seen + 1;
            }
        } else {
            out.push(l);
        }
    }
    proof {
        assert(out@ =~= split_labels(rg, lb, c as int, ch as int, t as int, need as int, boxes as nat));
    }
    (out, boxes + 1, false)
}

fn add_at(sums: &mut Vec<u128>, at: usize, v: u8)
    requires
        at < old(sums)@.len(),
        old(sums)@[at as int] + v <= u128::MAX,
    ensures
        final(sums)@ == old(sums)@.update(at as int, (old(sums)@[at as int] + v) as u128),
{
    let x = sums[at] + v as u128;
    sums.set(at, x);
}

/// The mean colour of every box `0..boxes`.
fn palette_of(rgb: &Vec<u8>, labels: &Vec<u8>, boxes: usize) -> (r: Vec<(u8, u8, u8)>)
    requires
        rgb@.len() == 3 * labels@.len(),
        boxes <= 256,
        forall|j: int| 0 <= j < labels@.len() ==> (#[trigger] labels@[j]) < boxes,
    ensures
        r@ == Seq::new(boxes as nat, |c: int| mean_colour(rgb@, labels@, c)),
{
    let n = labels.len();
    let rlen = rgb.len();
    let mut sums: Vec<u128> = Vec::new();
    for q in 0..3 * boxes
        invariant
            sums@.len() == q,
            forall|x: int| 0 <= x < q ==> #[trigger] sums@[x] == 0,
    {
        sums.push(0);
    }
    let mut counts: Vec<usize> = Vec::new();
    for c in 0..boxes
        invariant
            counts@.len() == c,
            forall|x: int| 0 <= x < c ==> #[trigger] counts@[x] == 0,
    {
        counts.push(0);
    }
    for j in 0..n
        invariant
            n == labels@.len(),
            rlen == rgb@.len(),
            rgb@.len() == 3 * n,
            boxes <= 256,
            forall|x: int| 0 <= x < n ==> (#[trigger] labels@[x]) < boxes,
            sums@.len() == 3 * boxes,
            counts@.len() == boxes,
            forall|c: int, ch: int|
                0 <= c < boxes && 0 <= ch < 3 ==> #[trigger] sums@[3 * c + ch] == box_sum(rgb@, labels@, c, ch, j as int),
            forall|c: int| 0 <= c < boxes ==> #[trigger] counts@[c] == box_count(labels@, c, j as int),
    {
        let c = labels[j] as usize;
        let ghost s0 = sums@;
        let ghost k0 = counts@;
        proof {
            lemma_count_bound(labels@, c as int, j as int);
            lemma_sum_bound(rgb@, labels@, c as int, 0, j as int);
            lemma_sum_bound(rgb@, labels@, c as int, 1, j as int);
            lemma_sum_bound(rgb@, labels@, c as int, 2, j as int);
            assert(s0[3 * c as int + 0] == box_sum(rgb@, labels@, c as int, 0, j as int));
            assert(s0[3 * c as int + 1] == box_sum(rgb@, labels@, c as int, 1, j as int));
            assert(s0[3 * c as int + 2] == box_sum(rgb@, labels@, c as int, 2, j as int));
            assert(255 * box_count(labels@, c as int, j as int) <= 255 * j) by (nonlinear_arith)
                requires
                    box_count(labels@, c as int, j as int) <= j,
            ;
        }
        add_at(&mut sums, 3 * c, rgb[3 * j]);
        add_at(&mut sums, 3 * c + 1, rgb[3 * j + 1]);
        add_at(&mut sums, 3 * c + 2, rgb[3 * j + 2]);
        assert(counts@[c as int] == box_count(labels@, c as int, j as int));
        counts.set(c, counts[c] + 1);
        proof {
            assert forall|cc: int, ch: int| 0 <= cc < boxes && 0 <= ch < 3 implies #[trigger] sums@[3 * cc + ch]
                == box_sum(rgb@, labels@, cc, ch, j + 1) by {
                assert(s0[3 * cc + ch] == box_sum(rgb@, labels@, cc, ch, j as int));
                if cc != c {
                    assert(3 * cc + ch < 3 * c || 3 * cc + ch >= 3 * c + 3);
                }
            }
            assert forall|cc: int| 0 <= cc < boxes implies #[trigger] counts@[cc] == box_count(labels@, cc, j + 1) by {
                assert(k0[cc] == box_count(labels@, cc, j as int));
            }
        }
    }
    let mut r: Vec<(u8, u8, u8)> = Vec::new();
    for c in 0..boxes
        invariant
            boxes <= 256,
            n == labels@.len(),
            sums@.len() == 3 * boxes,
            counts@.len() == boxes,
            forall|c: int, ch: int|
                0 <= c < boxes && 0 <= ch < 3 ==> #[trigger] sums@[3 * c + ch] == box_sum(rgb@, labels@, c, ch, n as int),
            forall|c: int| 0 <= c < boxes ==> #[trigger] counts@[c] == box_count(labels@, c, n as int),
            r@ =~= Seq::new(c as nat, |x: int| mean_colour(rgb@, labels@, x)),
    {
        let cnt = counts[c];
        proof {
            assert(sums@[3 * c as int + 0] == box_sum(rgb@, labels@, c as int, 0, n as int));
            assert(sums@[3 * c as int + 1] == box_sum(rgb@, labels@, c as int, 1, n as int));
            assert(sums@[3 * c as int + 2] == box_sum(rgb@, labels@, c as int, 2, n as int));
            lemma_sum_bound(rgb@, labels@, c as int, 0, n as int);
            lemma_sum_bound(rgb@, labels@, c as int, 1, n as int);
            lemma_sum_bound(rgb@, labels@, c as int, 2, n as int);
        }
        let colour = if cnt == 0 {
            (0u8, 0u8, 0u8)
        } else {
            let d = cnt as u128;
            let s0 = sums[3 * c];
            let s1 = sums[3 * c + 1];
            let s2 = sums[3 * c + 2];
            assert(s0 / d <= 255) by (nonlinear_arith)
                requires
                    s0 <= 255 * d,
                    d > 0,
            ;
            assert(s1 / d <= 255) by (nonlinear_arith)
                requires
                    s1 <= 255 * d,
                    d > 0,
            ;
            assert(s2 / d <= 255) by (nonlinear_arith)
                requires
                    s2 <= 255 * d,
                    d > 0,
            ;
            ((s0 / d) as u8, (s1 / d) as u8, (s2 / d) as u8)
        };
        r.push(colour);
    }
    r
}

/// Median-cut quantization of `n` packed RGB samples to at most `k` colours:
/// the box of every sample and the mean colour of every box.
pub fn median_cut(rgb: &Vec<u8>, k: usize) -> (r: (Vec<u8>, Vec<(u8, u8, u8)>))
    requires
        rgb@.len() % 3 == 0,
        k >= 1,
    ensures
        r.0@ == mc_labels(rgb@, k),
        r.1@ == mc_palette(rgb@, k),
        r.0@.len() == rgb@.len() / 3,
        r.1@.len() <= k,
        forall|j: int| 0 <= j < r.0@.len() ==> (#[trigger] r.0@[j]) < r.1@.len(),
{
    let n = rgb.len() / 3;
    let target: usize = if k > 256 { 256 } else { k };
    let mut labels: Vec<u8> = Vec::new();
    for j in 0..n
        invariant
            labels@ =~= Seq::new(j as nat, |x: int| 0u8),
    {
        labels.push(0);
    }
    let mut boxes: usize = if n > 0 { 1 } else { 0 };
    let ghost g = rgb@;
    assert(mc_state(g, target as nat, 0) == (labels@, boxes as nat));
    let mut s: usize = 0;
    loop
        invariant_except_break
            s <= target,
        invariant
            g == rgb@,
            g.len() == 3 * n,
            1 <= target <= 256,
            target as nat == mc_target(k),
            (labels@, boxes as nat) == mc_state(g, target as nat, s as nat),
        ensures
            (labels@, boxes as nat) == mc_state(g, target as nat, target as nat),
        decreases target - s,
    {
        proof {
            lemma_state_ok(g, target as nat, s as nat);
        }
        if s >= target {
            break;
        }
        let (nl, nb, stuck) = mc_step_exec(rgb, labels, boxes, target);
        labels = nl;
        boxes = nb;
        if stuck {
            proof {
                lemma_fixpoint(g, target as nat, s as nat, target as nat);
            }
            break;
        }
        s = s + 1;
    }
    proof {
        lemma_state_ok(g, target as nat, target as nat);
    }
    let pal = palette_of(rgb, &labels, boxes);
    (labels, pal)
}

} // verus!
