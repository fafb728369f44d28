use vstd::prelude::*;

verus! {

/// Seeds lie between `-COORD_LIMIT` and `COORD_LIMIT` inclusive, and image
/// sides are at most `COORD_LIMIT`, so that the squared distance from any seed
/// to any cell fits in an `i64`.
pub const COORD_LIMIT: i64 = 1073741824;

/// A point of the integer plane.
#[derive(Clone, Copy, Debug, PartialEq, Eq)]
pub struct Point {
    pub x: i64,
    pub y: i64,
}

/// Whether a coordinate lies in the range the distance arithmetic supports.
pub open spec fn coord_ok(v: int) -> bool {
    -COORD_LIMIT <= v <= COORD_LIMIT
}

/// Whether both coordinates of a point lie in the supported range.
pub open spec fn point_ok(p: Point) -> bool {
    coord_ok(p.x as int) && coord_ok(p.y as int)
}

/// Squared Euclidean distance between `(x1, y1)` and `(x2, y2)`.
pub open spec fn sq_dist(x1: int, y1: int, x2: int, y2: int) -> int {
    (x1 - x2) * (x1 - x2) + (y1 - y2) * (y1 - y2)
}

impl Point {
    /// The origin.
    pub fn new() -> (p: Point)
        ensures
            p.x == 0,
            p.y == 0,
    {
        Point { x: 0, y: 0 }
    }
}

/// Whether the squared distance between `(x1, y1)` and `(x2, y2)` can be
/// computed in `i64` arithmetic: both differences and the sum of their
/// squares fit.
pub open spec fn distance_fits(x1: int, y1: int, x2: int, y2: int) -> bool {
    &&& i64::MIN <= x1 - x2 <= i64::MAX
    &&& i64::MIN <= y1 - y2 <= i64::MAX
    &&& sq_dist(x1, y1, x2, y2) <= i64::MAX
}

/// The squared distance from a seed in the supported range to a cell of an
/// image whose sides are at most `COORD_LIMIT` fits in an `i64`.
pub proof fn lemma_cell_distance_fits(sx: int, sy: int, px: int, py: int)
    requires
        coord_ok(sx),
        coord_ok(sy),
        0 <= px < COORD_LIMIT,
        0 <= py < COORD_LIMIT,
    ensures
        distance_fits(sx, sy, px, py),
{
    let dx = sx - px;
    let dy = sy - py;
    assert(dx * dx <= 0x3fff_ffff_0000_0001 && dy * dy <= 0x3fff_ffff_0000_0001) by (nonlinear_arith)
        requires
            -0x7fff_ffff <= dx <= 0x7fff_ffff,
            -0x7fff_ffff <= dy <= 0x7fff_ffff,
    ;
}

/// Exact integer squared distance, wherever it fits in an `i64`.
pub fn distance_squared(x1: i64, y1: i64, x2: i64, y2: i64) -> (r: i64)
    requires
        distance_fits(x1 as int, y1 as int, x2 as int, y2 as int),
    ensures
        r as int == sq_dist(x1 as int, y1 as int, x2 as int, y2 as int),
{
    let dx: i64 = x1 - x2;
    let dy: i64 = y1 - y2;
    assert(0 <= dx * dx && 0 <= dy * dy) by (nonlinear_arith);
    dx * dx + dy * dy
}

} // verus!
