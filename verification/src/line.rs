//! Discrete line segments between grid coordinates, used by the
//! line-of-sight probes.

use vstd::prelude::*;
use crate::geom::Coord;
use crate::geom::MAX_DIM;

verus! {

/// The grid points of the discrete line segment from `(ax, ay)` to
/// `(bx, by)`: the walk depends on the endpoints alone.
pub uninterp spec fn line_points(ax: int, ay: int, bx: int, by: int) -> Seq<(int, int)>;

/// Relies on `line_2d::LineSegment::iter`: it yields every grid coordinate
/// of the segment, beginning with the start coordinate and ending with the
/// end coordinate, inclusive. `LineSegment::new` panics when the endpoints
/// are equal, so that input is excluded here.
#[verifier::external_body]
pub(crate) fn line_between(a: Coord, b: Coord) -> (r: Vec<Coord>)
    requires
        a != b,
        0 <= a.x <= MAX_DIM as i32,
        0 <= a.y <= MAX_DIM as i32,
        0 <= b.x <= MAX_DIM as i32,
        0 <= b.y <= MAX_DIM as i32,
    ensures
        r@.map_values(|c: Coord| (c.x as int, c.y as int)) == line_points(
            a.x as int,
            a.y as int,
            b.x as int,
            b.y as int,
        ),
        r@.len() >= 2,
        r@[0] == a,
        r@[r@.len() - 1] == b,
{
    let segment = line_2d::LineSegment::new(
        coord_2d::ICoord::new(a.x, a.y),
        coord_2d::ICoord::new(b.x, b.y),
    );
    segment.iter().map(|c| Coord { x: c.x, y: c.y }).collect()
}

} // verus!
