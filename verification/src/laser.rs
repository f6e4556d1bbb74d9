//! The cells that a laser ray passes through.
//!
//! A ray leaves its origin along one of the eight compass directions and
//! visits one cell per step, the origin first, out to its range.

use vstd::prelude::*;
use crate::types::{Direction, Error, Point};

verus! {

/// The cell reached from `origin` after `n` steps in `direction`.
pub open spec fn ray_cell(origin: Point, direction: Direction, n: int) -> Point {
    Point {
        x: (origin.x + n * direction.spec_dx()) as i32,
        y: (origin.y + n * direction.spec_dy()) as i32,
    }
}

/// The number of cells of a ray: one more than its range, none when the range
/// is negative.
pub open spec fn ray_len(range: int) -> nat {
    if range >= 0 {
        (range + 1) as nat
    } else {
        0
    }
}

/// The ray itself: the cells at steps `0..=range`, in order.
pub open spec fn ray(origin: Point, direction: Direction, range: int) -> Seq<Point> {
    Seq::new(ray_len(range), |n: int| ray_cell(origin, direction, n))
}

/// Whether the far end of the ray, and with it every cell of the ray, has
/// `i32` coordinates.
pub open spec fn ray_fits(origin: Point, direction: Direction, range: int) -> bool {
    range >= 0 ==> {
        &&& i32::MIN <= origin.x + range * direction.spec_dx() <= i32::MAX
        &&& i32::MIN <= origin.y + range * direction.spec_dy() <= i32::MAX
    }
}

/// Whether `get_laser_collisions` may be called on these arguments: the
/// direction is unknown, or the ray fits.
pub fn can_trace(origin: Point, direction: u32, range: i32) -> (b: bool)
    ensures
        b == (Direction::spec_from_ordinal(direction as int) matches Some(d) ==> ray_fits(
            origin,
            d,
            range as int,
        )),
{
    match Direction::from_ordinal(direction) {
        Err(_) => true,
        Ok(d) => {
            if range < 0 {
                return true;
            }
            let (dx, dy) = d.step();
            assert(-0x8000_0000 <= range * dx <= 0x8000_0000 && -0x8000_0000 <= range * dy
                <= 0x8000_0000) by (nonlinear_arith)
                requires
                    0 <= range <= 0x7fff_ffff,
                    -1 <= dx <= 1,
                    -1 <= dy <= 1,
            ;
            let end_x: i64 = origin.x as i64 + range as i64 * dx as i64;
            let end_y: i64 = origin.y as i64 + range as i64 * dy as i64;
            -0x8000_0000 <= end_x && end_x <= 0x7fff_ffff && -0x8000_0000 <= end_y && end_y
                <= 0x7fff_ffff
        },
    }
}

/// Traces a ray of `range` steps from `origin` in the direction with the
/// given ordinal.
///
/// An ordinal outside `0..=7` is refused as a whole, whatever the range.
pub fn get_laser_collisions(origin: Point, direction: u32, range: i32) -> (r: Result<
    Vec<Point>,
    Error,
>)
    requires
        Direction::spec_from_ordinal(direction as int) matches Some(d) ==> ray_fits(
            origin,
            d,
            range as int,
        ),
    ensures
        match Direction::spec_from_ordinal(direction as int) {
            Some(d) => r is Ok && r->Ok_0@ == ray(origin, d, range as int),
            None => r == Err::<Vec<Point>, Error>(Error::UnknownDirection),
        },
        r is Ok && range >= 0 ==> r->Ok_0@.len() == range + 1 && r->Ok_0@[0] == origin,
{
    let d = Direction::from_ordinal(direction)?;
    let (dx, dy) = d.step();
    let mut collisions: Vec<Point> = Vec::new();
    if range < 0 {
        assert(collisions@ =~= ray(origin, d, range as int));
        return Ok(collisions);
    }
    let mut cell = origin;
    let mut n: i32 = 0;
    collisions.push(cell);
    assert(collisions@ =~= ray(origin, d, 0));
    while n < range
        invariant
            0 <= n <= range,
            dx == d.spec_dx(),
            dy == d.spec_dy(),
            ray_fits(origin, d, range as int),
            cell.x == origin.x + n * dx,
            cell.y == origin.y + n * dy,
            collisions@ == ray(origin, d, n as int),
        decreases range - n,
    {
        n = n + 1;
        cell = Point { x: cell.x + dx, y: cell.y + dy };
        collisions.push(cell);
        assert(collisions@ =~= ray(origin, d, n as int));
    }
    Ok(collisions)
}

} // verus!
