//! The narrow-phase collision predicate: do two circles touch or overlap.

use vstd::prelude::*;
use crate::num::sq;

verus! {

/// Two circles overlap when the distance of their centers is at most the sum
/// of their radii; touching exactly counts as overlap.
pub open spec fn circles_overlap(x1: int, y1: int, r1: int, x2: int, y2: int, r2: int) -> bool {
    sq(x2 - x1) + sq(y2 - y1) <= sq(r1 + r2)
}

/// Exact overlap test with a bounding-box fast path: a pair separated on
/// either axis is rejected before the squared distance is computed.
pub fn detect_circle_collision(x1: i64, y1: i64, r1: i64, x2: i64, y2: i64, r2: i64) -> (hit: bool)
    requires
        -0x2000_0000 <= x1 <= 0x2000_0000,
        -0x2000_0000 <= y1 <= 0x2000_0000,
        -0x2000_0000 <= x2 <= 0x2000_0000,
        -0x2000_0000 <= y2 <= 0x2000_0000,
        0 <= r1 <= 0x2000_0000,
        0 <= r2 <= 0x2000_0000,
    ensures
        hit == circles_overlap(x1 as int, y1 as int, r1 as int, x2 as int, y2 as int, r2 as int),
{
    if x1 + r1 < x2 - r2 || x1 - r1 > x2 + r2 || y1 + r1 < y2 - r2 || y1 - r1 > y2 + r2 {
        proof {
            let dx = x2 as int - x1 as int;
            let dy = y2 as int - y1 as int;
            let rs = r1 as int + r2 as int;
            assert(dx * dx > rs * rs || dy * dy > rs * rs) by (nonlinear_arith)
                requires
                    0 <= rs,
                    dx > rs || dx < -rs || dy > rs || dy < -rs,
            ;
            assert(dx * dx >= 0 && dy * dy >= 0) by (nonlinear_arith);
        }
        return false;
    }
    let dx = x2 - x1;
    let dy = y2 - y1;
    let rs = r1 + r2;
    proof {
        crate::num::lemma_abs_mul_le(dx as int, dx as int, 0x4000_0000, 0x4000_0000);
        crate::num::lemma_abs_mul_le(dy as int, dy as int, 0x4000_0000, 0x4000_0000);
        crate::num::lemma_abs_mul_le(rs as int, rs as int, 0x4000_0000, 0x4000_0000);
    }
    dx * dx + dy * dy <= rs * rs
}

/// The overlap predicate does not depend on the order of its two circles.
pub proof fn lemma_overlap_symmetric(x1: int, y1: int, r1: int, x2: int, y2: int, r2: int)
    ensures
        circles_overlap(x1, y1, r1, x2, y2, r2) == circles_overlap(x2, y2, r2, x1, y1, r1),
{
    assert((x2 - x1) * (x2 - x1) == (x1 - x2) * (x1 - x2)) by (nonlinear_arith);
    assert((y2 - y1) * (y2 - y1) == (y1 - y2) * (y1 - y2)) by (nonlinear_arith);
}

/// Centers exactly a radius-sum apart still count as overlapping.
pub proof fn lemma_overlap_boundary_inclusive(x1: int, y1: int, r1: int, x2: int, y2: int, r2: int)
    requires
        sq(x2 - x1) + sq(y2 - y1) == sq(r1 + r2),
    ensures
        circles_overlap(x1, y1, r1, x2, y2, r2),
{
}

/// Centers any farther apart than the radius sum do not overlap.
pub proof fn lemma_no_overlap_beyond_boundary(x1: int, y1: int, r1: int, x2: int, y2: int, r2: int)
    requires
        sq(x2 - x1) + sq(y2 - y1) > sq(r1 + r2),
    ensures
        !circles_overlap(x1, y1, r1, x2, y2, r2),
{
}

} // verus!
