use vstd::prelude::*;

use crate::coordinate::Coordinate;

verus! {

/// The physical unit in which exported positions are given.
#[derive(Debug, Clone, Copy, PartialEq, Eq, Structural)]
pub enum ExportUnit {
    Meters,
    Feet,
}

impl ExportUnit {
    /// The unit's name as shown to a user.
    pub fn label(&self) -> (r: &'static str)
        ensures
            *self == ExportUnit::Meters ==> r@ == "Meters"@,
            *self == ExportUnit::Feet ==> r@ == "Feet"@,
    {
        proof {
            reveal_strlit("Meters");
            reveal_strlit("Feet");
        }
        match self {
            ExportUnit::Meters => "Meters",
            ExportUnit::Feet => "Feet",
        }
    }
}

/// Why coordinates cannot be placed in the unit square.
#[derive(Debug, Clone, Copy, PartialEq, Eq, Structural)]
pub enum ExportError {
    /// There are no coordinates.
    NoCoordinates,
    /// All coordinates are the same point, so there is no extent to scale.
    AllIdentical,
}

/// Smallest and largest column and row of a non-empty coordinate list:
/// `(min_x, max_x, min_y, max_y)`.
pub open spec fn extent(s: Seq<Coordinate>) -> (int, int, int, int)
    decreases s.len(),
{
    if s.len() <= 1 {
        (s[0].x as int, s[0].x as int, s[0].y as int, s[0].y as int)
    } else {
        let (a, b, c, d) = extent(s.drop_last());
        let p = s.last();
        (
            if p.x < a { p.x as int } else { a },
            if p.x > b { p.x as int } else { b },
            if p.y < c { p.y as int } else { c },
            if p.y > d { p.y as int } else { d },
        )
    }
}

/// A position in the unit square, as numerators over a common denominator.
#[derive(Debug, Clone, Copy, PartialEq, Eq, Structural)]
pub struct UnitPosition {
    pub x_num: u64,
    pub y_num: u64,
}

/// Positions in the unit square, each coordinate `/ denominator`.
#[derive(Debug, Clone)]
pub struct UnitSquare {
    pub positions: Vec<UnitPosition>,
    pub denominator: u64,
}

/// The larger of the two extents, the scale's denominator.
pub open spec fn max_range(s: Seq<Coordinate>) -> int {
    let (a, b, c, d) = extent(s);
    if b - a >= d - c { b - a } else { d - c }
}

/// Where `p` lands in the unit square, over the denominator `2 * max_range`: scaled by
/// `1 / max_range`, centred on the shorter axis, and with the vertical axis flipped.
pub open spec fn unit_position(s: Seq<Coordinate>, p: Coordinate) -> UnitPosition {
    let (a, b, c, d) = extent(s);
    let r = max_range(s);
    UnitPosition {
        x_num: (2 * (p.x - a) + (r - (b - a))) as u64,
        y_num: (r + (d - c) - 2 * (p.y - c)) as u64,
    }
}

proof fn lemma_extent_bounds(s: Seq<Coordinate>)
    requires
        s.len() >= 1,
    ensures
        forall|i: int| 0 <= i < s.len() ==> {
            let (a, b, c, d) = extent(s);
            a <= #[trigger] s[i].x <= b && c <= s[i].y <= d
        },
        ({
            let (a, b, c, d) = extent(s);
            0 <= a <= b <= u32::MAX && 0 <= c <= d <= u32::MAX
        }),
        (exists|i: int| 0 <= i < s.len() && s[i].x == extent(s).0),
        (exists|i: int| 0 <= i < s.len() && s[i].x == extent(s).1),
        (exists|i: int| 0 <= i < s.len() && s[i].y == extent(s).2),
        (exists|i: int| 0 <= i < s.len() && s[i].y == extent(s).3),
    decreases s.len(),
{
    if s.len() > 1 {
        let t = s.drop_last();
        lemma_extent_bounds(t);
        assert forall|i: int| 0 <= i < s.len() - 1 implies s[i] == #[trigger] t[i] by {}
        let (a, b, c, d) = extent(t);
        let last = s.len() - 1;
        assert forall|i: int| 0 <= i < s.len() implies {
            let (a2, b2, c2, d2) = extent(s);
            a2 <= #[trigger] s[i].x <= b2 && c2 <= s[i].y <= d2
        } by {
            if i < last {
                assert(t[i] == s[i]);
                assert(a <= t[i].x <= b && c <= t[i].y <= d);
            }
        }
        if s[last].x >= a {
            let i = choose|i: int| 0 <= i < t.len() && t[i].x == a;
            assert(s[i] == t[i]);
        }
        if s[last].x <= b {
            let i = choose|i: int| 0 <= i < t.len() && t[i].x == b;
            assert(s[i] == t[i]);
        }
        if s[last].y >= c {
            let i = choose|i: int| 0 <= i < t.len() && t[i].y == c;
            assert(s[i] == t[i]);
        }
        if s[last].y <= d {
            let i = choose|i: int| 0 <= i < t.len() && t[i].y == d;
            assert(s[i] == t[i]);
        }
    } else {
        assert(s[0].x == extent(s).0);
    }
}

/// Places the coordinates in the unit square: the extent's larger side becomes one, the
/// shorter axis is centred, and rows are flipped so that up is positive. Positions are
/// exact fractions over `denominator`, which is twice the larger extent.
pub fn normalize_to_unit_square(coords: &Vec<Coordinate>) -> (r: Result<UnitSquare, ExportError>)
    ensures
        coords@.len() == 0 <==> r == Err::<UnitSquare, ExportError>(ExportError::NoCoordinates),
        coords@.len() > 0 && max_range(coords@) == 0 <==> r == Err::<UnitSquare, ExportError>(
            ExportError::AllIdentical,
        ),
        r is Ok ==> {
            let u = r->Ok_0;
            &&& u.denominator == 2 * max_range(coords@)
            &&& u.positions@.len() == coords@.len()
            &&& forall|i: int|
                0 <= i < coords@.len() ==> #[trigger] u.positions@[i] == unit_position(coords@, coords@[i])
        },
{
    if coords.len() == 0 {
        return Err(ExportError::NoCoordinates);
    }
    let mut min_x = coords[0].x;
    let mut max_x = coords[0].x;
    let mut min_y = coords[0].y;
    let mut max_y = coords[0].y;
    let mut i: usize = 1;
    while i < coords.len()
        invariant
            1 <= i <= coords@.len(),
            extent(coords@.take(i as int)) == (min_x as int, max_x as int, min_y as int, max_y as int),
        decreases coords@.len() - i,
    {
        let p = coords[i];
        proof {
            assert(coords@.take(i as int + 1).drop_last() =~= coords@.take(i as int));
        }
        if p.x < min_x {
            min_x = p.x;
        }
        if p.x > max_x {
            max_x = p.x;
        }
        if p.y < min_y {
            min_y = p.y;
        }
        if p.y > max_y {
            max_y = p.y;
        }
        i += 1;
    }
    assert(coords@.take(coords@.len() as int) =~= coords@);
    proof {
        lemma_extent_bounds(coords@);
    }
    let x_range = max_x - min_x;
    let y_range = max_y - min_y;
    let range = if x_range >= y_range { x_range } else { y_range };
    if range == 0 {
        return Err(ExportError::AllIdentical);
    }
    let mut positions: Vec<UnitPosition> = Vec::with_capacity(coords.len());
    let mut k: usize = 0;
    while k < coords.len()
        invariant
            k <= coords@.len(),
            coords@.len() >= 1,
            extent(coords@) == (min_x as int, max_x as int, min_y as int, max_y as int),
            range == max_range(coords@),
            x_range == max_x - min_x,
            y_range == max_y - min_y,
            forall|i: int| 0 <= i < coords@.len() ==> min_x <= #[trigger] coords@[i].x <= max_x && min_y <= coords@[i].y <= max_y,
            positions@.len() == k,
            forall|i: int| 0 <= i < k ==> #[trigger] positions@[i] == unit_position(coords@, coords@[i]),
        decreases coords@.len() - k,
    {
        let p = coords[k];
        let xn: u64 = 2 * (p.x - min_x) as u64 + (range - x_range) as u64;
        let yn: u64 = (range as u64 + y_range as u64) - 2 * (p.y - min_y) as u64;
        positions.push(UnitPosition { x_num: xn, y_num: yn });
        k += 1;
    }
    Ok(UnitSquare { positions, denominator: 2 * range as u64 })
}

} // verus!
