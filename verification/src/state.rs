//! The simulation state: the body store, its velocities, the broad-phase
//! grid, and the construction-time constants, with the well-formedness and
//! in-viewport invariants every operation preserves.

use vstd::prelude::*;
use crate::num::{MAX_COUNT, MAX_DIM, MAX_GRID_DIM, MAX_SPEED_LIMIT};
use crate::types::{Circle, CircleVelocity};

verus! {

/// All simulation data for one population of bodies.
///
/// The fields form a read/write view for the host; every verified operation
/// states in its contract which well-formedness it needs and restores.
pub struct State {
    /// Parallel body store: one circle per body id.
    pub circles: Vec<Circle>,
    /// Parallel velocity store, same index space as `circles`.
    pub circle_velocities: Vec<CircleVelocity>,
    /// Broad-phase grid: `grid[p][q]` holds the ids of the bodies whose
    /// bounding box overlaps cell `(p, q)`; rebuilt on every tick.
    pub grid: Vec<Vec<Vec<u32>>>,
    /// Number of body slots `init` fills.
    pub circle_count: usize,
    /// Grid columns.
    pub grid_width: usize,
    /// Grid rows.
    pub grid_height: usize,
    /// Velocity added to `vy` each tick.
    pub gravity: i64,
    /// Bound kept on every velocity component; speeds saturate here.
    pub max_speed: i64,
}

/// Viewport dimensions the engine accepts.
pub open spec fn dims_ok(w: int, h: int) -> bool {
    &&& 1 <= w <= MAX_DIM
    &&& 1 <= h <= MAX_DIM
}

/// Structural well-formedness: constants in range, stores parallel, and the
/// grid shaped `grid_width x grid_height`.
pub open spec fn state_wf(s: &State) -> bool {
    &&& s.circle_count <= MAX_COUNT
    &&& 1 <= s.grid_width <= MAX_GRID_DIM
    &&& 1 <= s.grid_height <= MAX_GRID_DIM
    &&& 0 <= s.gravity <= s.max_speed
    &&& 1 <= s.max_speed <= MAX_SPEED_LIMIT
    &&& s.grid@.len() == s.grid_width
    &&& forall|p: int| 0 <= p < s.grid@.len() ==> (#[trigger] s.grid@[p])@.len() == s.grid_height
    &&& s.circles@.len() == s.circle_velocities@.len()
    &&& s.circles@.len() <= s.circle_count
}

/// Position part of the per-body invariant: the body fits the viewport and
/// its center strays at most one tick's travel beyond an edge.
pub open spec fn body_pos_ok(c: Circle, w: int, h: int, m: int) -> bool {
    &&& 1 <= c.r
    &&& 2 * c.r <= w
    &&& 2 * c.r <= h
    &&& -m <= c.x - c.r
    &&& c.x + c.r <= w + m
    &&& -m <= c.y - c.r
    &&& c.y + c.r <= h + m
}

/// Full per-body invariant: position in the box and speed within the bound.
pub open spec fn body_ok(c: Circle, v: CircleVelocity, w: int, h: int, m: int) -> bool {
    &&& body_pos_ok(c, w, h, m)
    &&& -m <= v.vx <= m
    &&& -m <= v.vy <= m
}

/// Every stored body satisfies the per-body invariant for viewport `w x h`.
pub open spec fn bodies_in_box(s: &State, w: int, h: int) -> bool {
    forall|i: int|
        0 <= i < s.circles@.len() ==> body_ok(
            #[trigger] s.circles@[i],
            s.circle_velocities@[i],
            w,
            h,
            s.max_speed as int,
        )
}

/// Allocates a state with empty stores and an empty `gw x gh` grid.
///
/// `circle_count` bodies will be placed by `init`; `gravity` is added to
/// `vy` each tick; velocity components saturate at `max_speed`.
pub fn new_state(circle_count: usize, grid_width: usize, grid_height: usize, gravity: i64, max_speed: i64) -> (s: State)
    requires
        circle_count <= MAX_COUNT,
        1 <= grid_width <= MAX_GRID_DIM,
        1 <= grid_height <= MAX_GRID_DIM,
        0 <= gravity <= max_speed,
        1 <= max_speed <= MAX_SPEED_LIMIT,
    ensures
        state_wf(&s),
        s.circles@.len() == 0,
        s.circle_velocities@.len() == 0,
        s.circle_count == circle_count,
        s.grid_width == grid_width,
        s.grid_height == grid_height,
        s.gravity == gravity,
        s.max_speed == max_speed,
        forall|p: int, q: int|
            0 <= p < grid_width && 0 <= q < grid_height ==> (#[trigger] s.grid@[p]@[q])@.len()
                == 0,
{
    let mut grid: Vec<Vec<Vec<u32>>> = Vec::new();
    let mut p: usize = 0;
    while p < grid_width
        invariant
            p <= grid_width,
            grid@.len() == p,
            forall|pp: int| 0 <= pp < p ==> (#[trigger] grid@[pp])@.len() == grid_height,
            forall|pp: int, qq: int|
                0 <= pp < p && 0 <= qq < grid_height ==> (#[trigger] grid@[pp]@[qq])@.len()
                    == 0,
        decreases grid_width - p,
    {
        let mut column: Vec<Vec<u32>> = Vec::new();
        let mut q: usize = 0;
        while q < grid_height
            invariant
                q <= grid_height,
                column@.len() == q,
                forall|qq: int| 0 <= qq < q ==> (#[trigger] column@[qq])@.len() == 0,
            decreases grid_height - q,
        {
            column.push(Vec::new());
            q = q + 1;
        }
        grid.push(column);
        p = p + 1;
    }
    State {
        circles: Vec::new(),
        circle_velocities: Vec::new(),
        grid,
        circle_count,
        grid_width,
        grid_height,
        gravity,
        max_speed,
    }
}

/// Number of body slots this state was built for.
pub fn get_circle_count(s: &State) -> (n: usize)
    ensures
        n == s.circle_count,
{
    s.circle_count
}

/// Read view of the live body store, valid until the next mutating call.
pub fn get_circle_data_offset(s: &State) -> (bodies: &Vec<Circle>)
    ensures
        bodies@ == s.circles@,
{
    &s.circles
}

} // verus!
