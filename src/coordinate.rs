use vstd::prelude::*;

verus! {

/// A pixel position: column `x` and row `y` of an image.
#[derive(Debug, Clone, Copy, PartialEq, Eq, Structural)]
pub struct Coordinate {
    pub x: u32,
    pub y: u32,
}

/// Squared Euclidean distance between two positions.
pub open spec fn sq_dist(a: Coordinate, b: Coordinate) -> int {
    (a.x - b.x) * (a.x - b.x) + (a.y - b.y) * (a.y - b.y)
}

impl Coordinate {
    pub fn new(x: u32, y: u32) -> (r: Self)
        ensures
            r.x == x,
            r.y == y,
    {
        Coordinate { x, y }
    }

    pub fn x(&self) -> (r: u32)
        ensures
            r == self.x,
    {
        self.x
    }

    pub fn y(&self) -> (r: u32)
        ensures
            r == self.y,
    {
        self.y
    }

    /// The squared distance to `rhs`, exact: the largest value, about 2^65, fits in `u128`.
    pub fn distance_squared(&self, rhs: &Self) -> (r: u128)
        ensures
            r == sq_dist(*self, *rhs),
    {
        let dx: u128 = if self.x >= rhs.x { (self.x - rhs.x) as u128 } else { (rhs.x - self.x) as u128 };
        let dy: u128 = if self.y >= rhs.y { (self.y - rhs.y) as u128 } else { (rhs.y - self.y) as u128 };
        assert(dx * dx <= 0xffff_ffffu128 * 0xffff_ffffu128) by (nonlinear_arith)
            requires dx <= 0xffff_ffff;
        assert(dy * dy <= 0xffff_ffffu128 * 0xffff_ffffu128) by (nonlinear_arith)
            requires dy <= 0xffff_ffff;
        assert(dx * dx == (self.x - rhs.x) * (self.x - rhs.x)) by (nonlinear_arith)
            requires dx == self.x - rhs.x || dx == rhs.x - self.x;
        assert(dy * dy == (self.y - rhs.y) * (self.y - rhs.y)) by (nonlinear_arith)
            requires dy == self.y - rhs.y || dy == rhs.y - self.y;
        dx * dx + dy * dy
    }
}

/// A set of coordinates together with the size of the image they were taken from.
#[derive(Debug, Clone)]
pub struct CoordinateOutput {
    coords: Vec<Coordinate>,
    width: u32,
    height: u32,
}

/// `CoordinateOutput` as a mathematical value.
pub struct CoordinateView {
    pub coords: Seq<Coordinate>,
    pub width: u32,
    pub height: u32,
}

impl View for CoordinateOutput {
    type V = CoordinateView;

    closed spec fn view(&self) -> CoordinateView {
        CoordinateView { coords: self.coords@, width: self.width, height: self.height }
    }
}

/// An exact copy of a coordinate list.
pub fn copy_coords(v: &Vec<Coordinate>) -> (r: Vec<Coordinate>)
    ensures
        r@ == v@,
{
    let mut out: Vec<Coordinate> = Vec::with_capacity(v.len());
    let mut i: usize = 0;
    while i < v.len()
        invariant
            i <= v@.len(),
            out@ == v@.take(i as int),
        decreases v@.len() - i,
    {
        out.push(v[i]);
        proof {
            assert(v@.take(i as int + 1) =~= v@.take(i as int).push(v@[i as int]));
        }
        i += 1;
    }
    assert(v@.take(v@.len() as int) =~= v@);
    out
}

impl CoordinateOutput {
    pub fn new(coords: Vec<Coordinate>, width: u32, height: u32) -> (r: Self)
        ensures
            r@ == (CoordinateView { coords: coords@, width, height }),
    {
        CoordinateOutput { coords, width, height }
    }

    /// Gives up the output, handing back its coordinates.
    pub fn borrow_coords(self) -> (r: Vec<Coordinate>)
        ensures
            r@ == self@.coords,
    {
        self.coords
    }

    pub fn width(&self) -> (r: u32)
        ensures
            r == self@.width,
    {
        self.width
    }

    pub fn height(&self) -> (r: u32)
        ensures
            r == self@.height,
    {
        self.height
    }

    /// A copy of the coordinates.
    pub fn coords(&self) -> (r: Vec<Coordinate>)
        ensures
            r@ == self@.coords,
    {
        copy_coords(&self.coords)
    }

    /// An exact copy of the output.
    pub fn duplicate(&self) -> (r: Self)
        ensures
            r@ == self@,
    {
        CoordinateOutput { coords: copy_coords(&self.coords), width: self.width, height: self.height }
    }
}

} // verus!
