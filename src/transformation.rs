use vstd::prelude::*;

use crate::coordinate::Coordinate;
use crate::ranking::{lemma_rank_order_total, lemma_sorted_unique, merge_sort, rank_order, RankedPixel};
use crate::raster::{lemma_flat_in_bounds, lemma_unflat, RgbaRaster, RgbaView};

verus! {

/// Which pixels of an image count as the figure.
#[derive(Debug, Clone, Copy, PartialEq, Eq, Structural)]
pub enum ImgType {
    /// A dark figure on a light background: colour channels are inverted (`255 - c`)
    /// before brightness is measured.
    BlackOnWhite,
    /// A light figure on a dark background: brightness is measured as it is.
    WhiteOnBlack,
}

/// Perceptual brightness `0.299 R + 0.587 G + 0.114 B`, scaled by `A / 255`, times
/// `1000 * 255` so that it is an integer; colour channels inverted for `BlackOnWhite`.
pub open spec fn brightness(r: int, g: int, b: int, a: int, polarity: ImgType) -> int {
    match polarity {
        ImgType::WhiteOnBlack => (299 * r + 587 * g + 114 * b) * a,
        ImgType::BlackOnWhite => (299 * (255 - r) + 587 * (255 - g) + 114 * (255 - b)) * a,
    }
}

/// Brightness of the pixel at row-major index `k`.
pub open spec fn pixel_brightness(img: RgbaView, k: int, polarity: ImgType) -> int {
    brightness(
        img.data[4 * k] as int,
        img.data[4 * k + 1] as int,
        img.data[4 * k + 2] as int,
        img.data[4 * k + 3] as int,
        polarity,
    )
}

/// The pixels among the first `n` (in scan order) whose brightness is above zero, with
/// their brightness and index, in scan order.
pub open spec fn candidates(img: RgbaView, polarity: ImgType, n: int) -> Seq<RankedPixel>
    decreases n,
{
    if n <= 0 {
        seq![]
    } else {
        let prev = candidates(img, polarity, n - 1);
        let b = pixel_brightness(img, n - 1, polarity);
        if b > 0 {
            prev.push(RankedPixel { brightness: b as u32, index: (n - 1) as usize })
        } else {
            prev
        }
    }
}

/// How many of `len` ranked pixels a percentile of `ppm` millionths keeps: `len` times
/// the percentile, clamped to one, rounded half up.
pub open spec fn take_count(len: int, ppm: int) -> int {
    let p = if ppm > 1_000_000 { 1_000_000 } else { ppm };
    (len * p + 500_000) / 1_000_000
}

/// The position of row-major index `k` in an image of width `w`.
pub open spec fn index_coordinate(k: int, w: int) -> Coordinate {
    Coordinate { x: (k % w) as u32, y: (k / w) as u32 }
}

/// Every coordinate lies inside a `width` by `height` image.
pub open spec fn coords_within(s: Seq<Coordinate>, width: u32, height: u32) -> bool {
    forall|i: int| 0 <= i < s.len() ==> #[trigger] s[i].x < width && s[i].y < height
}

/// The coordinates that extraction returns: every pixel with brightness above zero,
/// ranked brightest first (ties in scan order), cut to `take_count` of them.
pub open spec fn extracted(img: RgbaView, ppm: int, polarity: ImgType) -> Seq<Coordinate> {
    let ranked = candidates(img, polarity, img.width * img.height).sort_by(rank_order());
    ranked.take(take_count(ranked.len() as int, ppm)).map_values(
        |c: RankedPixel| index_coordinate(c.index as int, img.width as int),
    )
}

proof fn lemma_take_count_bounds(len: int, ppm: int)
    requires
        len >= 0,
        ppm >= 0,
    ensures
        0 <= take_count(len, ppm) <= len,
        ppm == 0 ==> take_count(len, ppm) == 0,
        ppm >= 1_000_000 ==> take_count(len, ppm) == len,
{
    let p = if ppm > 1_000_000 { 1_000_000 } else { ppm };
    assert(0 <= len * p <= len * 1_000_000) by (nonlinear_arith)
        requires len >= 0, 0 <= p <= 1_000_000;
    vstd::arithmetic::div_mod::lemma_div_is_ordered(len * p + 500_000, len * 1_000_000 + 500_000, 1_000_000);
    vstd::arithmetic::div_mod::lemma_fundamental_div_mod_converse(len * 1_000_000 + 500_000, 1_000_000, len, 500_000);
    if ppm == 0 {
        assert(len * p == 0) by (nonlinear_arith)
            requires p == 0;
    }
    if ppm >= 1_000_000 {
        assert(p == 1_000_000);
    }
}

/// Every candidate among the first `n` pixels lies before `n` and is bright.
proof fn lemma_candidates_index(img: RgbaView, polarity: ImgType, n: int)
    requires
        n >= 0,
    ensures
        forall|q: int| 0 <= q < candidates(img, polarity, n).len() ==> {
            &&& 0 <= #[trigger] candidates(img, polarity, n)[q].index < n
        },
        candidates(img, polarity, n).len() <= n,
    decreases n,
{
    if n > 0 {
        lemma_candidates_index(img, polarity, n - 1);
    }
}

/// Coordinates of the brightest pixels of the image: each pixel's brightness (see
/// `brightness`) is measured, those at zero are dropped, the rest are ranked brightest
/// first with ties in scan order, and the first `take_count` of them, for a percentile of
/// `percentile_ppm` millionths (clamped to one), are returned.
pub fn image_to_coordinates(img: &RgbaRaster, percentile_ppm: u32, img_type: ImgType) -> (r: Vec<Coordinate>)
    requires
        img.wf(),
    ensures
        r@ == extracted(img@, percentile_ppm as int, img_type),
        coords_within(r@, img.width, img.height),
{
    let w = img.width;
    let len = img.data.len();
    let n: usize = len / 4;
    assert(n == img.width * img.height);
    let mut cands: Vec<RankedPixel> = Vec::new();
    let mut k: usize = 0;
    while k < n
        invariant
            img.wf(),
            len == img.data@.len(),
            n == img.width * img.height,
            4 * n == len,
            k <= n,
            cands@ == candidates(img@, img_type, k as int),
        decreases n - k,
    {
        let r = img.data[4 * k] as u32;
        let g = img.data[4 * k + 1] as u32;
        let b = img.data[4 * k + 2] as u32;
        let a = img.data[4 * k + 3] as u32;
        let (r, g, b) = match img_type {
            ImgType::WhiteOnBlack => (r, g, b),
            ImgType::BlackOnWhite => (255 - r, 255 - g, 255 - b),
        };
        proof {
            assert((299 * r + 587 * g + 114 * b) * a <= 1000 * 255 * 255) by (nonlinear_arith)
                requires r <= 255, g <= 255, b <= 255, a <= 255;
        }
        let v: u32 = (299 * r + 587 * g + 114 * b) * a;
        assert(v == pixel_brightness(img@, k as int, img_type));
        if v > 0 {
            cands.push(RankedPixel { brightness: v, index: k });
        }
        k += 1;
    }
    let ghost all = cands@;
    let sorted = merge_sort(cands);
    proof {
        lemma_rank_order_total();
        all.lemma_sort_by_ensures(rank_order());
        lemma_sorted_unique(sorted@, all.sort_by(rank_order()), rank_order());
        lemma_take_count_bounds(sorted@.len() as int, percentile_ppm as int);
        lemma_candidates_index(img@, img_type, n as int);
        assert forall|q: int| 0 <= q < sorted@.len() implies #[trigger] sorted@[q].index < n by {
            broadcast use vstd::seq_lib::group_to_multiset_ensures;
            assert(sorted@.contains(sorted@[q]));
            assert(sorted@.to_multiset().count(sorted@[q]) > 0);
            assert(all.contains(sorted@[q]));
        }
    }
    let m = sorted.len();
    let p: u128 = if percentile_ppm > 1_000_000 { 1_000_000 } else { percentile_ppm as u128 };
    proof {
        assert(m as u128 * p <= 0x1_0000_0000_0000_0000 * 1_000_000) by (nonlinear_arith)
            requires m < 0x1_0000_0000_0000_0000, p <= 1_000_000;
    }
    let count = ((m as u128 * p + 500_000) / 1_000_000) as usize;
    let mut out: Vec<Coordinate> = Vec::with_capacity(count);
    let mut i: usize = 0;
    while i < count
        invariant
            count <= sorted@.len(),
            i <= count,
            w == img.width,
            n == img.width * img.height,
            forall|q: int| 0 <= q < sorted@.len() ==> #[trigger] sorted@[q].index < n,
            out@ == sorted@.take(i as int).map_values(
                |c: RankedPixel| index_coordinate(c.index as int, img.width as int),
            ),
            forall|q: int| 0 <= q < out@.len() ==> #[trigger] out@[q].x < img.width && out@[q].y < img.height,
        decreases count - i,
    {
        let idx = sorted[i].index;
        proof {
            lemma_unflat(w as int, img.height as int, idx as int);
        }
        let c = Coordinate { x: (idx % w as usize) as u32, y: (idx / w as usize) as u32 };
        out.push(c);
        proof {
            assert(sorted@.take(i as int + 1) =~= sorted@.take(i as int).push(sorted@[i as int]));
            assert(out@ =~= sorted@.take(i as int + 1).map_values(
                |c: RankedPixel| index_coordinate(c.index as int, img.width as int),
            ));
        }
        i += 1;
    }
    assert(coords_within(out@, img.width, img.height));
    out
}

/// A pixel is a candidate exactly when it lies among the first `n` and is bright.
proof fn lemma_candidates_contains(img: RgbaView, polarity: ImgType, n: int, e: RankedPixel)
    requires
        0 <= n <= usize::MAX,
    ensures
        candidates(img, polarity, n).contains(e) <==> (0 <= e.index < n && pixel_brightness(
            img,
            e.index as int,
            polarity,
        ) > 0 && e.brightness == pixel_brightness(img, e.index as int, polarity) as u32),
    decreases n,
{
    if n > 0 {
        lemma_candidates_contains(img, polarity, n - 1, e);
        let prev = candidates(img, polarity, n - 1);
        let cur = candidates(img, polarity, n);
        let b = pixel_brightness(img, n - 1, polarity);
        let pushed = RankedPixel { brightness: b as u32, index: (n - 1) as usize };
        assert(cur == if b > 0 { prev.push(pushed) } else { prev });
        if prev.contains(e) {
            let w = choose|w: int| 0 <= w < prev.len() && prev[w] == e;
            assert(cur[w] == e);
        }
        if cur.contains(e) && !prev.contains(e) {
            let w = choose|w: int| 0 <= w < cur.len() && cur[w] == e;
            assert(w == prev.len());
        }
        if e.index == n - 1 && pixel_brightness(img, n - 1, polarity) > 0 && e.brightness
            == pixel_brightness(img, n - 1, polarity) as u32 {
            assert(cur[prev.len() as int] == e);
        }
    }
}

/// A percentile of zero extracts nothing; a percentile of one extracts, once each, the
/// position of every pixel whose brightness is above zero.
pub proof fn lemma_percentile_boundaries(img: RgbaView, polarity: ImgType)
    requires
        img.wf(),
        img.data.len() <= usize::MAX,
    ensures
        extracted(img, 0, polarity).len() == 0,
        extracted(img, 1_000_000, polarity).len() == candidates(
            img,
            polarity,
            img.width * img.height,
        ).len(),
        forall|c: Coordinate|
            #[trigger] extracted(img, 1_000_000, polarity).contains(c) <==> (c.x < img.width && c.y
                < img.height && pixel_brightness(img, c.y * img.width + c.x, polarity) > 0),
{
    broadcast use vstd::seq_lib::group_to_multiset_ensures;

    let (w, h) = (img.width as int, img.height as int);
    let n = w * h;
    let cands = candidates(img, polarity, n);
    let ranked = cands.sort_by(rank_order());
    lemma_rank_order_total();
    cands.lemma_sort_by_ensures(rank_order());
    assert(ranked.len() == cands.len()) by {
        assert(ranked.len() == ranked.to_multiset().len());
        assert(cands.len() == cands.to_multiset().len());
    }
    lemma_take_count_bounds(ranked.len() as int, 0);
    lemma_take_count_bounds(ranked.len() as int, 1_000_000);
    assert(ranked.take(ranked.len() as int) =~= ranked);
    let f = |e: RankedPixel| index_coordinate(e.index as int, w);
    let all = extracted(img, 1_000_000, polarity);
    assert(all == ranked.map_values(f));
    assert forall|c: Coordinate| #[trigger] all.contains(c) <==> (c.x < img.width && c.y < img.height
        && pixel_brightness(img, c.y * img.width + c.x, polarity) > 0) by {
        if all.contains(c) {
            let q = choose|q: int| 0 <= q < all.len() && all[q] == c;
            let e = ranked[q];
            assert(ranked.to_multiset().count(e) > 0);
            assert(cands.contains(e));
            lemma_candidates_contains(img, polarity, n, e);
            lemma_unflat(w, h, e.index as int);
            assert(c == index_coordinate(e.index as int, w));
        }
        if c.x < img.width && c.y < img.height && pixel_brightness(img, c.y * img.width + c.x, polarity) > 0 {
            let k = c.y * w + c.x;
            lemma_flat_in_bounds(w, h, c.x as int, c.y as int);
            let e = RankedPixel { brightness: pixel_brightness(img, k, polarity) as u32, index: k as usize };
            lemma_candidates_contains(img, polarity, n, e);
            assert(cands.to_multiset().count(e) > 0);
            assert(ranked.contains(e));
            let q = choose|q: int| 0 <= q < ranked.len() && ranked[q] == e;
            vstd::arithmetic::div_mod::lemma_fundamental_div_mod_converse(k, w, c.y as int, c.x as int);
            assert(all[q] == c);
        }
    }
}

} // verus!
