//! Horizontal distance checks between positions.

use vstd::prelude::*;

use crate::components::Position;

verus! {

/// Squared distance between two positions in the horizontal (x, z) plane.
pub open spec fn dist2(a: Position, b: Position) -> int {
    (a.x - b.x) * (a.x - b.x) + (a.z - b.z) * (a.z - b.z)
}

/// Whether `b` lies within the radius whose square is `radius_sq` around `a`.
pub open spec fn within(a: Position, b: Position, radius_sq: int) -> bool {
    dist2(a, b) <= radius_sq
}

/// Relies on distances::vectors::euclidean_sq with `i64` elements and an
/// `i128` result: the sum over paired elements of the square of their absolute
/// difference. Elements within the `i32` range keep every step in range.
#[verifier::external_body]
fn euclidean_sq_2d(a: &[i64; 2], b: &[i64; 2]) -> (r: i128)
    requires
        forall|i: int| 0 <= i < 2 ==> i32::MIN <= #[trigger] a@[i] <= i32::MAX,
        forall|i: int| 0 <= i < 2 ==> i32::MIN <= #[trigger] b@[i] <= i32::MAX,
    ensures
        r == (a@[0] - b@[0]) * (a@[0] - b@[0]) + (a@[1] - b@[1]) * (a@[1] - b@[1]),
{
    distances::vectors::euclidean_sq::<i64, i128>(a, b)
}

/// Squared horizontal distance between two positions.
pub fn squared_distance(a: &Position, b: &Position) -> (r: i128)
    ensures
        r == dist2(*a, *b),
{
    let pa: [i64; 2] = [a.x as i64, a.z as i64];
    let pb: [i64; 2] = [b.x as i64, b.z as i64];
    assert(pa@[0] == a.x && pa@[1] == a.z && pb@[0] == b.x && pb@[1] == b.z);
    euclidean_sq_2d(&pa, &pb)
}

/// Whether `b` lies within the radius whose square is `radius_sq` around `a`.
pub fn within_radius(a: &Position, b: &Position, radius_sq: i64) -> (r: bool)
    ensures
        r == within(*a, *b, radius_sq as int),
{
    squared_distance(a, b) <= radius_sq as i128
}

} // verus!
