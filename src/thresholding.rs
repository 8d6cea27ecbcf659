use vstd::prelude::*;

use crate::raster::{lemma_flat_in_bounds, lemma_unflat, GrayRaster, GrayView};

verus! {

/// Why the adaptive thresholder refused its parameters.
#[derive(Debug, Clone, Copy, PartialEq, Eq, Structural)]
pub enum ThresholdError {
    /// The window size was zero.
    InvalidParameter,
}

/// Sum of the pixels of row `y` in columns `0 .. cols`.
pub open spec fn row_prefix(img: GrayView, y: int, cols: int) -> int
    decreases cols,
{
    if cols <= 0 {
        0
    } else {
        row_prefix(img, y, cols - 1) + img.at(cols - 1, y)
    }
}

/// Sum of the pixels in rows `0 .. rows`, columns `0 .. cols`.
pub open spec fn region_sum(img: GrayView, cols: int, rows: int) -> int
    decreases rows,
{
    if rows <= 0 {
        0
    } else {
        region_sum(img, cols, rows - 1) + row_prefix(img, rows - 1, cols)
    }
}

/// Sum of the pixels in rows `y1 ..= y2`, columns `x1 ..= x2`.
pub open spec fn window_sum(img: GrayView, x1: int, y1: int, x2: int, y2: int) -> int
    decreases y2 + 1 - y1,
{
    if y2 < y1 {
        0
    } else {
        window_sum(img, x1, y1, x2, y2 - 1) + row_prefix(img, y2, x2 + 1) - row_prefix(img, y2, x1)
    }
}

/// Sum of a sequence of intensities.
pub open spec fn total(s: Seq<u8>) -> int
    decreases s.len(),
{
    if s.len() == 0 {
        0
    } else {
        total(s.drop_last()) + s.last()
    }
}

/// Bounds, clipped to the image, of the window of half-extent `s / 2` around column `x`,
/// row `y`: `(x1, y1, x2, y2)`.
pub open spec fn window(w: int, h: int, s: int, x: int, y: int) -> (int, int, int, int) {
    let s2 = s / 2;
    (
        if x - s2 < 0 { 0 } else { x - s2 },
        if y - s2 < 0 { 0 } else { y - s2 },
        if x + s2 > w - 1 { w - 1 } else { x + s2 },
        if y + s2 > h - 1 { h - 1 } else { y + s2 },
    )
}

/// The thresholded value of column `x`, row `y`: black (0) when the pixel times the
/// window's pixel count is at most the window's sum scaled by `(100 - t) / 100`
/// (rounded down), else white (255).
pub open spec fn bradley_pixel(img: GrayView, s: int, t: int, x: int, y: int) -> int {
    let (x1, y1, x2, y2) = window(img.width as int, img.height as int, s, x, y);
    let count = (x2 - x1 + 1) * (y2 - y1 + 1);
    let sum = window_sum(img, x1, y1, x2, y2);
    if img.at(x, y) * count <= sum * (100 - t) / 100 {
        0
    } else {
        255
    }
}

/// The whole thresholded image.
pub open spec fn bradley_view(img: GrayView, s: int, t: int) -> GrayView {
    GrayView {
        width: img.width,
        height: img.height,
        pixels: Seq::new(
            img.pixels.len(),
            |k: int| bradley_pixel(img, s, t, k % img.width as int, k / img.width as int) as u8,
        ),
    }
}

proof fn lemma_row_prefix_bounds(img: GrayView, y: int, a: int, b: int)
    requires
        img.wf(),
        0 <= y < img.height,
        0 <= a <= b <= img.width,
    ensures
        0 <= row_prefix(img, y, a) <= row_prefix(img, y, b),
        row_prefix(img, y, b) - row_prefix(img, y, a) <= 255 * (b - a),
    decreases b - a,
{
    if a < b {
        lemma_row_prefix_bounds(img, y, a, b - 1);
        lemma_flat_in_bounds(img.width as int, img.height as int, b - 1, y);
    } else {
        lemma_row_prefix_nonneg(img, y, a);
    }
}

proof fn lemma_row_prefix_nonneg(img: GrayView, y: int, a: int)
    requires
        img.wf(),
        0 <= y < img.height,
        0 <= a <= img.width,
    ensures
        0 <= row_prefix(img, y, a),
    decreases a,
{
    if a > 0 {
        lemma_row_prefix_nonneg(img, y, a - 1);
        lemma_flat_in_bounds(img.width as int, img.height as int, a - 1, y);
    }
}

proof fn lemma_region_bounds(img: GrayView, cols: int, rows: int)
    requires
        img.wf(),
        0 <= cols <= img.width,
        0 <= rows <= img.height,
    ensures
        0 <= region_sum(img, cols, rows) <= 255 * cols * rows,
    decreases rows,
{
    if rows > 0 {
        lemma_region_bounds(img, cols, rows - 1);
        lemma_row_prefix_bounds(img, rows - 1, 0, cols);
        assert(255 * cols * (rows - 1) + 255 * cols == 255 * cols * rows) by (nonlinear_arith);
    }
}

/// Four corners of the integral image give the sum of a window.
proof fn lemma_inclusion_exclusion(img: GrayView, x1: int, y1: int, x2: int, y2: int)
    requires
        0 <= y1 <= y2 + 1,
    ensures
        region_sum(img, x2 + 1, y2 + 1) - region_sum(img, x1, y2 + 1) - region_sum(img, x2 + 1, y1)
            + region_sum(img, x1, y1) == window_sum(img, x1, y1, x2, y2),
    decreases y2 + 1 - y1,
{
    if y2 >= y1 {
        lemma_inclusion_exclusion(img, x1, y1, x2, y2 - 1);
    }
}

proof fn lemma_window_sum_nonneg(img: GrayView, x1: int, y1: int, x2: int, y2: int)
    requires
        img.wf(),
        0 <= x1 <= x2 + 1,
        x2 < img.width,
        0 <= y1,
        y2 < img.height,
    ensures
        window_sum(img, x1, y1, x2, y2) >= 0,
    decreases y2 + 1 - y1,
{
    if y2 >= y1 {
        lemma_window_sum_nonneg(img, x1, y1, x2, y2 - 1);
        lemma_row_prefix_bounds(img, y2, x1, x2 + 1);
    }
}

/// The row-major prefix of the pixels that ends at column `cols` of row `rows` sums to
/// the full rows above plus that part of the row.
proof fn lemma_total_prefix(img: GrayView, cols: int, rows: int)
    requires
        img.wf(),
        0 <= rows < img.height,
        0 <= cols <= img.width,
    ensures
        region_sum(img, img.width as int, rows) + row_prefix(img, rows, cols) == total(
            img.pixels.take(rows * img.width + cols),
        ),
    decreases rows, cols,
{
    let w = img.width as int;
    let h = img.height as int;
    assert(rows * w + cols <= w * h) by (nonlinear_arith)
        requires 0 <= rows < h, 0 <= cols <= w;
    if cols > 0 {
        lemma_total_prefix(img, cols - 1, rows);
        lemma_flat_in_bounds(w, img.height as int, cols - 1, rows);
        let k = rows * w + cols;
        assert(img.pixels.take(k).drop_last() =~= img.pixels.take(k - 1));
        assert(total(img.pixels.take(k)) == total(img.pixels.take(k - 1)) + img.pixels[k - 1]);
        assert(row_prefix(img, rows, cols) == row_prefix(img, rows, cols - 1) + img.pixels[k - 1]);
        assert(rows * img.width + (cols - 1) == k - 1);
        assert(region_sum(img, w, rows) + row_prefix(img, rows, cols - 1) == total(img.pixels.take(k - 1)));
    } else if rows > 0 {
        lemma_total_prefix(img, w, rows - 1);
        assert((rows - 1) * w + w == rows * w) by (nonlinear_arith);
        assert(region_sum(img, w, rows) == region_sum(img, w, rows - 1) + row_prefix(img, rows - 1, w));
        assert(row_prefix(img, rows, 0) == 0);
    } else {
        assert(rows * w + cols == 0) by (nonlinear_arith)
            requires rows == 0, cols == 0;
        assert(img.pixels.take(0) =~= Seq::<u8>::empty());
        assert(total(img.pixels.take(0)) == 0);
        assert(region_sum(img, w, 0) == 0);
        assert(row_prefix(img, 0, 0) == 0);
    }
}

/// The whole image's region sum is the sum of all its pixels.
pub proof fn lemma_region_total(img: GrayView)
    requires
        img.wf(),
    ensures
        region_sum(img, img.width as int, img.height as int) == total(img.pixels),
{
    let (w, h) = (img.width as int, img.height as int);
    if h == 0 {
        assert(w * h == 0) by (nonlinear_arith)
            requires h == 0;
        assert(img.pixels =~= Seq::<u8>::empty());
    } else {
        lemma_total_prefix(img, w, h - 1);
        assert((h - 1) * w + w == w * h) by (nonlinear_arith);
        assert(img.pixels.take(w * h) =~= img.pixels);
    }
}

/// The integral image: at row-major position `y * width + x`, the sum of the pixels in
/// rows `0 ..= y` and columns `0 ..= x`. Its last entry, for an image with pixels, is the
/// sum of all pixels. Entries are `u128`, wide enough for any image that fits in memory.
pub fn integral_image(img: &GrayRaster) -> (r: Vec<u128>)
    requires
        img.wf(),
    ensures
        r@.len() == img.pixels@.len(),
        forall|x: int, y: int|
            0 <= x < img.width && 0 <= y < img.height ==> #[trigger] r@[y * img.width + x]
                == region_sum(img@, x + 1, y + 1),
        r@.len() > 0 ==> r@[r@.len() - 1] == total(img.pixels@),
{
    let w = img.width;
    let h = img.height;
    let n = img.pixels.len();
    let mut integral: Vec<u128> = Vec::with_capacity(n);
    let mut y: u32 = 0;
    while y < h
        invariant
            img.wf(),
            w == img.width,
            h == img.height,
            n == img.pixels@.len(),
            y <= h,
            integral@.len() == y * w,
            forall|xx: int, yy: int|
                0 <= xx < w && 0 <= yy < y ==> #[trigger] integral@[yy * w + xx] == region_sum(
                    img@,
                    xx + 1,
                    yy + 1,
                ),
        decreases h - y,
    {
        let mut row: u128 = 0;
        let mut x: u32 = 0;
        while x < w
            invariant
                img.wf(),
                w == img.width,
                h == img.height,
                n == img.pixels@.len(),
                y < h,
                x <= w,
                integral@.len() == y * w + x,
                row == row_prefix(img@, y as int, x as int),
                forall|xx: int, yy: int|
                    0 <= xx < w && 0 <= yy < y ==> #[trigger] integral@[yy * w + xx] == region_sum(
                        img@,
                        xx + 1,
                        yy + 1,
                    ),
                forall|xx: int| 0 <= xx < x ==> #[trigger] integral@[y * w + xx] == region_sum(img@, xx + 1, y + 1),
            decreases w - x,
        {
            proof {
                lemma_flat_in_bounds(w as int, h as int, x as int, y as int);
                assert(0 <= y * w <= y * w + x) by (nonlinear_arith)
                    requires 0 <= y, 0 <= w, 0 <= x;
                lemma_row_prefix_bounds(img@, y as int, 0, x as int + 1);
                lemma_region_bounds(img@, x as int + 1, y as int);
                assert(255 * (x + 1) * y <= 255 * 0x1_0000_0000 * 0x1_0000_0000) by (nonlinear_arith)
                    requires x + 1 <= 0x1_0000_0000, y <= 0x1_0000_0000;
            }
            let idx = y as usize * w as usize + x as usize;
            row = row + img.pixels[idx] as u128;
            let v: u128 = if y == 0 {
                row
            } else {
                proof {
                    lemma_flat_in_bounds(w as int, h as int, x as int, y as int - 1);
                    assert((y - 1) * w + x < y * w + x && 0 <= (y - 1) * w) by (nonlinear_arith)
                        requires 0 <= x < w, y >= 1;
                    assert(integral@[(y - 1) * w + x] == region_sum(img@, x + 1, y as int));
                    assert(255 * (x + 1) * y + 255 * (x + 1) <= 255 * 0x1_0000_0000 * 0x1_0000_0001) by (nonlinear_arith)
                        requires x + 1 <= 0x1_0000_0000, y <= 0x1_0000_0000;
                }
                integral[(y - 1) as usize * w as usize + x as usize] + row
            };
            let ghost before = integral@;
            integral.push(v);
            proof {
                assert forall|xx: int, yy: int|
                    0 <= xx < w && 0 <= yy < y implies #[trigger] integral@[yy * w + xx] == region_sum(
                        img@,
                        xx + 1,
                        yy + 1,
                    ) by {
                    lemma_flat_in_bounds(w as int, y as int, xx, yy);
                    assert(w * y == y * w) by (nonlinear_arith);
                    assert(integral@[yy * w + xx] == before[yy * w + xx]);
                }
                assert forall|xx: int| 0 <= xx < x + 1 implies #[trigger] integral@[y * w + xx]
                    == region_sum(img@, xx + 1, y + 1) by {
                    if xx < x {
                        assert(integral@[y * w + xx] == before[y * w + xx]);
                    }
                }
            }
            x += 1;
        }
        assert((y + 1) * w == y * w + w) by (nonlinear_arith);
        y += 1;
    }
    proof {
        assert(h * w == w * h) by (nonlinear_arith);
        assert(integral@.len() == img.pixels@.len());
        if integral@.len() > 0 {
            lemma_region_total(img@);
            assert(w > 0 && h > 0) by (nonlinear_arith)
                requires w * h > 0, w >= 0, h >= 0;
            assert((h - 1) * w + (w - 1) == w * h - 1) by (nonlinear_arith);
            assert(integral@[(h - 1) * w + (w - 1)] == region_sum(img@, w as int, h as int));
        }
    }
    integral
}

proof fn lemma_region_no_cols(img: GrayView, rows: int)
    ensures
        region_sum(img, 0, rows) == 0,
    decreases rows,
{
    if rows > 0 {
        lemma_region_no_cols(img, rows - 1);
    }
}

/// Region sum of columns `0 .. cols`, rows `0 .. rows`, read from the integral image.
fn corner(img: &GrayRaster, integral: &Vec<u128>, cols: u32, rows: u32) -> (r: u128)
    requires
        img.wf(),
        cols <= img.width,
        rows <= img.height,
        integral@.len() == img.pixels@.len(),
        forall|xx: int, yy: int|
            0 <= xx < img.width && 0 <= yy < img.height ==> #[trigger] integral@[yy * img.width + xx]
                == region_sum(img@, xx + 1, yy + 1),
    ensures
        r == region_sum(img@, cols as int, rows as int),
        r <= 255 * 0x1_0000_0000 * 0x1_0000_0000,
{
    let n = img.pixels.len();
    proof {
        lemma_region_bounds(img@, cols as int, rows as int);
        assert(255 * cols * rows <= 255 * 0x1_0000_0000 * 0x1_0000_0000) by (nonlinear_arith)
            requires cols <= 0x1_0000_0000, rows <= 0x1_0000_0000;
    }
    if cols == 0 {
        proof {
            lemma_region_no_cols(img@, rows as int);
        }
        0
    } else if rows == 0 {
        0
    } else {
        proof {
            lemma_flat_in_bounds(img.width as int, img.height as int, cols - 1, rows - 1);
            assert(0 <= (rows - 1) * img.width) by (nonlinear_arith)
                requires 1 <= rows;
        }
        integral[(rows - 1) as usize * img.width as usize + (cols - 1) as usize]
    }
}

/// The thresholded value of column `x`, row `y`, read from the integral image.
fn threshold_at(img: &GrayRaster, integral: &Vec<u128>, s: u32, t: u8, x: u32, y: u32) -> (r: u8)
    requires
        img.wf(),
        t <= 100,
        x < img.width,
        y < img.height,
        integral@.len() == img.pixels@.len(),
        forall|xx: int, yy: int|
            0 <= xx < img.width && 0 <= yy < img.height ==> #[trigger] integral@[yy * img.width + xx]
                == region_sum(img@, xx + 1, yy + 1),
    ensures
        r == bradley_pixel(img@, s as int, t as int, x as int, y as int),
{
    let n = img.pixels.len();
    let w = img.width;
    let h = img.height;
    let s2 = s / 2;
    let x1: u32 = if x < s2 { 0 } else { x - s2 };
    let y1: u32 = if y < s2 { 0 } else { y - s2 };
    let x2: u32 = if x as u64 + s2 as u64 > (w - 1) as u64 { w - 1 } else { x + s2 };
    let y2: u32 = if y as u64 + s2 as u64 > (h - 1) as u64 { h - 1 } else { y + s2 };
    let ghost win = window(w as int, h as int, s as int, x as int, y as int);
    assert(win == (x1 as int, y1 as int, x2 as int, y2 as int));
    proof {
        lemma_flat_in_bounds(w as int, h as int, x as int, y as int);
        assert(0 <= y * w) by (nonlinear_arith)
            requires 0 <= y, 0 <= w;
    }
    let tr = corner(img, integral, x2 + 1, y2 + 1);
    let tl = corner(img, integral, x1, y2 + 1);
    let br = corner(img, integral, x2 + 1, y1);
    let bl = corner(img, integral, x1, y1);
    proof {
        lemma_inclusion_exclusion(img@, x1 as int, y1 as int, x2 as int, y2 as int);
        lemma_window_sum_nonneg(img@, x1 as int, y1 as int, x2 as int, y2 as int);
    }
    let sum = tr + bl - tl - br;
    proof {
        assert((x2 - x1 + 1) * (y2 - y1 + 1) <= 0x1_0000_0000 * 0x1_0000_0000) by (nonlinear_arith)
            requires 0 <= x2 - x1 + 1 <= 0x1_0000_0000, 0 <= y2 - y1 + 1 <= 0x1_0000_0000;
    }
    let count: u128 = ((x2 - x1 + 1) as u128) * ((y2 - y1 + 1) as u128);
    let p = img.pixels[y as usize * w as usize + x as usize] as u128;
    proof {
        assert(count <= 0x1_0000_0000 * 0x1_0000_0000) by (nonlinear_arith)
            requires count == (x2 - x1 + 1) * (y2 - y1 + 1), x2 - x1 + 1 <= 0x1_0000_0000, y2 - y1 + 1 <= 0x1_0000_0000;
        assert(p * count <= 255 * (0x1_0000_0000 * 0x1_0000_0000)) by (nonlinear_arith)
            requires p <= 255, count <= 0x1_0000_0000 * 0x1_0000_0000;
        assert(sum * (100 - t) <= 100 * (2 * 255 * 0x1_0000_0000 * 0x1_0000_0000)) by (nonlinear_arith)
            requires sum <= 2 * 255 * 0x1_0000_0000 * 0x1_0000_0000, 0 <= 100 - t <= 100, sum >= 0;
    }
    let thr = sum * (100 - t as u128) / 100;
    if p * count <= thr {
        0
    } else {
        255
    }
}

/// Bradley's adaptive threshold: each pixel becomes black (0) when it is darker than the
/// mean of the window of half-extent `s / 2` around it, clipped to the image, by more than
/// `t` percent, else white (255). A window size of zero is refused.
pub fn bradley_adaptive_threshold(img: &GrayRaster, s: u32, t: u8) -> (r: Result<GrayRaster, ThresholdError>)
    requires
        img.wf(),
        t <= 100,
    ensures
        s == 0 <==> r is Err,
        r is Err ==> r == Err::<GrayRaster, ThresholdError>(ThresholdError::InvalidParameter),
        r is Ok ==> {
            let out = r->Ok_0;
            &&& out.wf()
            &&& out@ == bradley_view(img@, s as int, t as int)
            &&& out.width == img.width
            &&& out.height == img.height
            &&& forall|x: int, y: int|
                0 <= x < img.width && 0 <= y < img.height ==> #[trigger] out.at(x, y) == bradley_pixel(
                    img@,
                    s as int,
                    t as int,
                    x,
                    y,
                )
            &&& forall|k: int| 0 <= k < out.pixels@.len() ==> #[trigger] out.pixels@[k] == 0 || out.pixels@[k] == 255
        },
{
    if s == 0 {
        return Err(ThresholdError::InvalidParameter);
    }
    let integral = integral_image(img);
    let w = img.width;
    let h = img.height;
    let n = img.pixels.len();
    let mut out: Vec<u8> = Vec::with_capacity(n);
    let mut y: u32 = 0;
    while y < h
        invariant
            img.wf(),
            t <= 100,
            w == img.width,
            h == img.height,
            n == img.pixels@.len(),
            integral@.len() == n,
            forall|xx: int, yy: int|
                0 <= xx < img.width && 0 <= yy < img.height ==> #[trigger] integral@[yy * img.width + xx]
                    == region_sum(img@, xx + 1, yy + 1),
            y <= h,
            out@.len() == y * w,
            forall|xx: int, yy: int|
                0 <= xx < w && 0 <= yy < y ==> #[trigger] out@[yy * w + xx] as int == bradley_pixel(
                    img@,
                    s as int,
                    t as int,
                    xx,
                    yy,
                ),
            forall|k: int| 0 <= k < out@.len() ==> #[trigger] out@[k] == 0 || out@[k] == 255,
        decreases h - y,
    {
        let mut x: u32 = 0;
        while x < w
            invariant
                img.wf(),
                t <= 100,
                w == img.width,
                h == img.height,
                n == img.pixels@.len(),
                integral@.len() == n,
                forall|xx: int, yy: int|
                    0 <= xx < img.width && 0 <= yy < img.height ==> #[trigger] integral@[yy * img.width + xx]
                        == region_sum(img@, xx + 1, yy + 1),
                y < h,
                x <= w,
                out@.len() == y * w + x,
                forall|xx: int, yy: int|
                    0 <= xx < w && 0 <= yy < y ==> #[trigger] out@[yy * w + xx] as int == bradley_pixel(
                        img@,
                        s as int,
                        t as int,
                        xx,
                        yy,
                    ),
                forall|xx: int|
                    0 <= xx < x ==> #[trigger] out@[y * w + xx] as int == bradley_pixel(
                        img@,
                        s as int,
                        t as int,
                        xx,
                        y as int,
                    ),
                forall|k: int| 0 <= k < out@.len() ==> #[trigger] out@[k] == 0 || out@[k] == 255,
            decreases w - x,
        {
            let v = threshold_at(img, &integral, s, t, x, y);
            let ghost before = out@;
            out.push(v);
            proof {
                assert forall|xx: int, yy: int|
                    0 <= xx < w && 0 <= yy < y implies #[trigger] out@[yy * w + xx] as int == bradley_pixel(
                        img@,
                        s as int,
                        t as int,
                        xx,
                        yy,
                    ) by {
                    lemma_flat_in_bounds(w as int, y as int, xx, yy);
                    assert(w * y == y * w) by (nonlinear_arith);
                    assert(out@[yy * w + xx] == before[yy * w + xx]);
                }
                assert forall|xx: int| 0 <= xx < x + 1 implies #[trigger] out@[y * w + xx] as int
                    == bradley_pixel(img@, s as int, t as int, xx, y as int) by {
                    if xx < x {
                        assert(out@[y * w + xx] == before[y * w + xx]);
                    }
                }
                assert forall|k: int| 0 <= k < out@.len() implies #[trigger] out@[k] == 0 || out@[k] == 255 by {
                    if k < before.len() {
                        assert(out@[k] == before[k]);
                    }
                }
            }
            x += 1;
        }
        assert((y + 1) * w == y * w + w) by (nonlinear_arith);
        y += 1;
    }
    assert(h * w == w * h) by (nonlinear_arith);
    proof {
        let bv = bradley_view(img@, s as int, t as int);
        assert forall|k: int| 0 <= k < out@.len() implies #[trigger] out@[k] == bv.pixels[k] by {
            lemma_unflat(w as int, h as int, k);
            let (x, y) = (k % w as int, k / w as int);
            assert(out@[y * w + x] as int == bradley_pixel(img@, s as int, t as int, x, y));
        }
        assert(out@ =~= bv.pixels);
    }
    Ok(GrayRaster { width: w, height: h, pixels: out })
}

} // verus!
