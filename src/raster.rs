use vstd::prelude::*;

use crate::coordinate::Coordinate;

verus! {

/// A grayscale image: `width * height` intensities, row by row.
#[derive(Debug, Clone, PartialEq, Eq)]
pub struct GrayRaster {
    pub width: u32,
    pub height: u32,
    pub pixels: Vec<u8>,
}

/// An RGBA image with eight bits per channel: four bytes per pixel, row by row.
#[derive(Debug, Clone, PartialEq, Eq)]
pub struct RgbaRaster {
    pub width: u32,
    pub height: u32,
    pub data: Vec<u8>,
}

/// A grayscale image as a mathematical value.
pub struct GrayView {
    pub width: u32,
    pub height: u32,
    pub pixels: Seq<u8>,
}

/// An RGBA image as a mathematical value.
pub struct RgbaView {
    pub width: u32,
    pub height: u32,
    pub data: Seq<u8>,
}

impl GrayView {
    /// One intensity per pixel.
    pub open spec fn wf(&self) -> bool {
        self.pixels.len() == self.width as int * self.height as int
    }

    /// Intensity of the pixel in column `x`, row `y`.
    pub open spec fn at(&self, x: int, y: int) -> int {
        self.pixels[y * self.width + x] as int
    }
}

impl RgbaView {
    /// Four bytes per pixel.
    pub open spec fn wf(&self) -> bool {
        self.data.len() == 4 * (self.width as int * self.height as int)
    }
}

impl View for GrayRaster {
    type V = GrayView;

    open spec fn view(&self) -> GrayView {
        GrayView { width: self.width, height: self.height, pixels: self.pixels@ }
    }
}

impl View for RgbaRaster {
    type V = RgbaView;

    open spec fn view(&self) -> RgbaView {
        RgbaView { width: self.width, height: self.height, data: self.data@ }
    }
}

impl GrayRaster {
    /// The buffer holds exactly one byte per pixel.
    pub open spec fn wf(&self) -> bool {
        self@.wf()
    }

    /// Intensity of the pixel in column `x`, row `y`.
    pub open spec fn at(&self, x: int, y: int) -> int {
        self@.at(x, y)
    }

    /// Whether the buffer holds exactly one byte per pixel.
    pub fn is_valid(&self) -> (r: bool)
        ensures
            r == self.wf(),
    {
        let (w, h) = (self.width as u128, self.height as u128);
        assert(w * h < 0x1_0000_0000_0000_0000) by (nonlinear_arith)
            requires w < 0x1_0000_0000, h < 0x1_0000_0000;
        w * h == self.pixels.len() as u128
    }
}

impl RgbaRaster {
    /// The buffer holds exactly four bytes per pixel.
    pub open spec fn wf(&self) -> bool {
        self@.wf()
    }

    /// Whether the buffer holds exactly four bytes per pixel.
    pub fn is_valid(&self) -> (r: bool)
        ensures
            r == self.wf(),
    {
        let (w, h) = (self.width as u128, self.height as u128);
        assert(w * h < 0x1_0000_0000_0000_0000) by (nonlinear_arith)
            requires w < 0x1_0000_0000, h < 0x1_0000_0000;
        4 * (w * h) == self.data.len() as u128
    }
}

/// Row-major position of column `x`, row `y` in an image of width `w`.
pub open spec fn flat(w: int, x: int, y: int) -> int {
    y * w + x
}

pub proof fn lemma_flat_in_bounds(w: int, h: int, x: int, y: int)
    requires
        0 <= x < w,
        0 <= y < h,
    ensures
        0 <= y * w + x < w * h,
        y * w + x + 1 <= w * h,
{
    assert(y * w + x < w * h) by (nonlinear_arith)
        requires 0 <= x < w, 0 <= y < h;
    assert(0 <= y * w) by (nonlinear_arith)
        requires 0 <= y, 0 <= w;
}

/// A row-major index inside a `w` by `h` image splits into column `k % w` and row `k / w`.
pub proof fn lemma_unflat(w: int, h: int, k: int)
    requires
        0 <= k < w * h,
        w >= 0,
        h >= 0,
    ensures
        w > 0,
        0 <= k % w < w,
        0 <= k / w < h,
        k == (k / w) * w + k % w,
{
    if w <= 0 {
        assert(w * h == 0) by (nonlinear_arith)
            requires w == 0;
    }
    vstd::arithmetic::div_mod::lemma_fundamental_div_mod(k, w);
    vstd::arithmetic::div_mod::lemma_div_pos_is_pos(k, w);
    vstd::arithmetic::div_mod::lemma_mod_pos_bound(k, w);
    assert((k / w) * w == w * (k / w)) by (nonlinear_arith);
    if k / w >= h {
        assert((k / w) * w >= h * w) by (nonlinear_arith)
            requires k / w >= h, w > 0;
        assert(h * w == w * h) by (nonlinear_arith);
    }
}

/// The grayscale image as RGBA: each intensity in the three colour channels, alpha 255.
pub open spec fn gray_to_rgba_view(g: GrayView) -> RgbaView {
    RgbaView {
        width: g.width,
        height: g.height,
        data: Seq::new(4 * g.pixels.len(), |i: int| if i % 4 == 3 { 255u8 } else { g.pixels[i / 4] }),
    }
}

/// Distinct positions inside a row of width `w` have distinct row-major indices.
pub proof fn lemma_flat_injective(w: int, x1: int, y1: int, x2: int, y2: int)
    requires
        0 <= x1 < w,
        0 <= x2 < w,
        y1 * w + x1 == y2 * w + x2,
    ensures
        x1 == x2,
        y1 == y2,
{
    vstd::arithmetic::div_mod::lemma_fundamental_div_mod_converse(y1 * w + x1, w, y1, x1);
    vstd::arithmetic::div_mod::lemma_fundamental_div_mod_converse(y2 * w + x2, w, y2, x2);
}

/// 255 where `coords` lists column `x`, row `y`; 0 elsewhere.
pub open spec fn painted(coords: Seq<Coordinate>, x: int, y: int) -> u8 {
    if coords.contains(Coordinate { x: x as u32, y: y as u32 }) {
        255
    } else {
        0
    }
}

/// A black image of the given size with a white pixel at each listed coordinate that lies
/// inside it; coordinates outside are ignored.
pub fn coordinates_to_image(width: u32, height: u32, coords: &Vec<Coordinate>) -> (r: GrayRaster)
    requires
        width as int * height as int <= usize::MAX,
    ensures
        r.wf(),
        r.width == width,
        r.height == height,
        forall|x: int, y: int|
            0 <= x < width && 0 <= y < height ==> #[trigger] r.at(x, y) == painted(coords@, x, y),
{
    let n = width as usize * height as usize;
    let mut pixels: Vec<u8> = vec![0u8; n];
    proof {
        assert forall|x: int, y: int| 0 <= x < width && 0 <= y < height implies #[trigger] pixels@[y * width + x]
            == painted(coords@.take(0), x, y) by {
            lemma_flat_in_bounds(width as int, height as int, x, y);
        }
    }
    let mut i: usize = 0;
    while i < coords.len()
        invariant
            i <= coords@.len(),
            n == width as int * height as int,
            pixels@.len() == n,
            forall|x: int, y: int|
                0 <= x < width && 0 <= y < height ==> #[trigger] pixels@[y * width + x] == painted(
                    coords@.take(i as int),
                    x,
                    y,
                ),
        decreases coords@.len() - i,
    {
        let c = coords[i];
        let ghost before = pixels@;
        let inside = c.x < width && c.y < height;
        if inside {
            proof {
                lemma_flat_in_bounds(width as int, height as int, c.x as int, c.y as int);
            }
            pixels.set(c.y as usize * width as usize + c.x as usize, 255u8);
        }
        proof {
            let prev = coords@.take(i as int);
            let next = coords@.take(i as int + 1);
            assert(next =~= prev.push(c));
            assert forall|x: int, y: int| 0 <= x < width && 0 <= y < height implies #[trigger] pixels@[y * width
                + x] == painted(next, x, y) by {
                lemma_flat_in_bounds(width as int, height as int, x, y);
                let here = Coordinate { x: x as u32, y: y as u32 };
                if inside && y * width + x == c.y * width + c.x {
                    lemma_flat_injective(width as int, x, y, c.x as int, c.y as int);
                    assert(next[i as int] == here);
                } else {
                    assert(pixels@[y * width + x] == before[y * width + x]);
                    if next.contains(here) {
                        let w = choose|w: int| 0 <= w < next.len() && next[w] == here;
                        if w < i {
                            assert(prev[w] == here);
                        }
                    }
                    if prev.contains(here) {
                        let w = choose|w: int| 0 <= w < prev.len() && prev[w] == here;
                        assert(next[w] == here);
                    }
                }
            }
        }
        i += 1;
    }
    assert(coords@.take(coords@.len() as int) =~= coords@);
    GrayRaster { width, height, pixels }
}

/// The grayscale image as RGBA: each intensity in all three colour channels, fully opaque.
pub fn gray_to_rgba(img: &GrayRaster) -> (r: RgbaRaster)
    requires
        img.wf(),
        4 * (img.width as int * img.height as int) <= usize::MAX,
    ensures
        r.wf(),
        r@ == gray_to_rgba_view(img@),
{
    let n = img.pixels.len();
    let mut data: Vec<u8> = Vec::with_capacity(4 * n);
    let mut k: usize = 0;
    while k < n
        invariant
            k <= n,
            n == img.pixels@.len(),
            4 * n <= usize::MAX,
            data@.len() == 4 * k,
            forall|q: int|
                0 <= q < k ==> {
                    &&& #[trigger] data@[4 * q] == img.pixels@[q]
                    &&& data@[4 * q + 1] == img.pixels@[q]
                    &&& data@[4 * q + 2] == img.pixels@[q]
                    &&& data@[4 * q + 3] == 255
                },
        decreases n - k,
    {
        let l = img.pixels[k];
        let ghost before = data@;
        data.push(l);
        data.push(l);
        data.push(l);
        data.push(255u8);
        proof {
            assert forall|q: int|
                0 <= q < k + 1 implies {
                    &&& #[trigger] data@[4 * q] == img.pixels@[q]
                    &&& data@[4 * q + 1] == img.pixels@[q]
                    &&& data@[4 * q + 2] == img.pixels@[q]
                    &&& data@[4 * q + 3] == 255
                } by {
                if q < k {
                    assert(data@[4 * q] == before[4 * q]);
                    assert(data@[4 * q + 1] == before[4 * q + 1]);
                    assert(data@[4 * q + 2] == before[4 * q + 2]);
                    assert(data@[4 * q + 3] == before[4 * q + 3]);
                }
            }
        }
        k += 1;
    }
    proof {
        assert forall|i: int| 0 <= i < 4 * n implies #[trigger] data@[i] == (if i % 4 == 3 { 255u8 } else { img.pixels@[i / 4] }) by {
            let q = i / 4;
            vstd::arithmetic::div_mod::lemma_fundamental_div_mod(i, 4);
            assert(0 <= q < n);
            assert(i == 4 * q + i % 4);
            if i % 4 == 0 {
                assert(data@[4 * q] == img.pixels@[q]);
            } else if i % 4 == 1 {
                assert(data@[4 * q + 1] == img.pixels@[q]);
            } else if i % 4 == 2 {
                assert(data@[4 * q + 2] == img.pixels@[q]);
            } else {
                assert(data@[4 * q + 3] == 255);
            }
        }
        assert(data@ =~= gray_to_rgba_view(img@).data);
    }
    RgbaRaster { width: img.width, height: img.height, data }
}

} // verus!
