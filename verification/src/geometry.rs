//! Grid coordinates.
use vstd::prelude::*;

verus! {

/// A coordinate on the grid.
#[derive(PartialEq, Eq, Structural, Clone, Copy, Debug, Hash)]
pub struct Coord {
    pub x: i32,
    pub y: i32,
}

impl Coord {
/// The coordinate `(x, y)`.
    pub fn new(x: i32, y: i32) -> (p: Coord)
        ensures
            p == (Coord { x, y }),
    {
        Coord { x, y }
    }

    /// The cell as a pair of mathematical integers.
    pub open spec fn cell(self) -> (int, int) {
        (self.x as int, self.y as int)
    }
}

/// The cells that a list of points names.
pub open spec fn cell_set(points: Seq<Coord>) -> Set<(int, int)> {
    Set::new(|c: (int, int)| exists|i: int| 0 <= i < points.len() && #[trigger] points[i].cell() == c)
}

/// An axis-parallel rectangle given by two corners.
#[derive(PartialEq, Eq, Structural, Clone, Copy, Debug)]
pub struct Rect {
    pub x1: i32,
    pub y1: i32,
    pub x2: i32,
    pub y2: i32,
}

/// Half of `sum`, rounded towards zero.
pub open spec fn half(sum: int) -> int {
    if sum >= 0 {
        sum / 2
    } else {
        -((-sum) / 2)
    }
}

fn halve(sum: i64) -> (h: i64)
    requires
        -0x1_0000_0000 <= sum <= 0x1_0000_0000,
    ensures
        h == half(sum as int),
{
    if sum >= 0 {
        sum / 2
    } else {
        -((-sum) / 2)
    }
}

impl Rect {
    /// The rectangle with the corner `(x, y)`, `w` wide and `h` high.
    pub fn new(x: i32, y: i32, w: i32, h: i32) -> (r: Rect)
        requires
            i32::MIN <= x + w <= i32::MAX,
            i32::MIN <= y + h <= i32::MAX,
        ensures
            r == (Rect { x1: x, y1: y, x2: (x + w) as i32, y2: (y + h) as i32 }),
    {
        Rect { x1: x, y1: y, x2: x + w, y2: y + h }
    }

    /// Whether the two rectangles overlap or touch.
    pub open spec fn overlaps(&self, other: &Rect) -> bool {
        self.x1 <= other.x2 && self.x2 >= other.x1 && self.y1 <= other.y2 && self.y2 >= other.y1
    }

/// Decides `overlaps`.
    pub fn intersects(&self, other: &Rect) -> (r: bool)
        ensures
            r == self.overlaps(other),
    {
        self.x1 <= other.x2 && self.x2 >= other.x1 && self.y1 <= other.y2 && self.y2 >= other.y1
    }

    /// The middle of the rectangle.
    pub open spec fn center(&self) -> (int, int) {
        (half(self.x1 + self.x2), half(self.y1 + self.y2))
    }

/// Computes `center`.
    pub fn get_center(&self) -> (c: (i32, i32))
        ensures
            (c.0 as int, c.1 as int) == self.center(),
    {
        let cx: i64 = halve(self.x1 as i64 + self.x2 as i64);
        let cy: i64 = halve(self.y1 as i64 + self.y2 as i64);
        (cx as i32, cy as i32)
    }

    /// Whether `(x, y)` lies inside: right of and below the first corner, up
    /// to and including the second.
    pub open spec fn holds(&self, x: int, y: int) -> bool {
        self.x1 < x <= self.x2 && self.y1 < y <= self.y2
    }
}

/// Whether two cells lie at Euclidean distance below one and a half of each
/// other: the same cell or one of its eight neighbours.
pub open spec fn within_reach(a: (int, int), b: (int, int)) -> bool {
    4 * ((a.0 - b.0) * (a.0 - b.0) + (a.1 - b.1) * (a.1 - b.1)) < 9
}

/// The squared-distance test above says exactly that both coordinates differ
/// by at most one.
pub proof fn lemma_within_reach_is_neighbourhood(a: (int, int), b: (int, int))
    ensures
        within_reach(a, b) <==> (-1 <= a.0 - b.0 <= 1 && -1 <= a.1 - b.1 <= 1),
{
    let dx = a.0 - b.0;
    let dy = a.1 - b.1;
    assert(dx * dx >= 0) by (nonlinear_arith);
    assert(dy * dy >= 0) by (nonlinear_arith);
    assert(dx >= 2 || dx <= -2 ==> dx * dx >= 4) by (nonlinear_arith);
    assert(dy >= 2 || dy <= -2 ==> dy * dy >= 4) by (nonlinear_arith);
    assert(-1 <= dx <= 1 ==> dx * dx <= 1) by (nonlinear_arith);
    assert(-1 <= dy <= 1 ==> dy * dy <= 1) by (nonlinear_arith);
}

/// Decides `within_reach` for two grid points.
pub fn is_within_reach(a: Coord, b: Coord) -> (r: bool)
    ensures
        r == within_reach(a.cell(), b.cell()),
{
    proof {
        lemma_within_reach_is_neighbourhood(a.cell(), b.cell());
    }
    let dx: i64 = a.x as i64 - b.x as i64;
    let dy: i64 = a.y as i64 - b.y as i64;
    -1 <= dx && dx <= 1 && -1 <= dy && dy <= 1
}

} // verus!
