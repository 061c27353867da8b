//! One simulation tick: per body, gravity, boundary reflection and
//! semi-implicit Euler integration; then the broad-phase grid is rebuilt
//! over the new positions and every candidate pair found in a grid cell is
//! tested and resolved, cell by cell in traversal order.

use vstd::prelude::*;
use crate::collide::{lemma_pair_vels_shape, lemma_resolve_seq_concat, lemma_resolve_seq_push,
    resolve_seq, apply_pair};
use crate::grid::{build_grid, cell_ids, cell_pairs, cell_pairs_upto, col_pairs, grid_pairs,
    grid_pairs_upto, lemma_cell_ids_elems};
use crate::num::{clamp_i64, clamp_spec, MAX_DIM, MAX_SPEED_LIMIT};
use crate::state::{bodies_in_box, body_ok, body_pos_ok, dims_ok, state_wf, State};
use crate::types::{Circle, CircleVelocity, SimError};

verus! {

/// The horizontal velocity after boundary reflection: negated when the body
/// juts beyond a vertical viewport edge while moving further out.
pub open spec fn reflect_vx(c: Circle, vx: int, w: int) -> int {
    if (w - (c.x + c.r) < 0 && vx > 0) || (c.x - c.r < 0 && vx < 0) {
        -vx
    } else {
        vx
    }
}

/// The vertical velocity after boundary reflection.
pub open spec fn reflect_vy(c: Circle, vy: int, h: int) -> int {
    if (h - (c.y + c.r) < 0 && vy > 0) || (c.y - c.r < 0 && vy < 0) {
        -vy
    } else {
        vy
    }
}

/// One body's velocity after a tick's first phase: gravity `g` added to
/// `vy`, then reflection, then saturation at `m`.
pub open spec fn moved_vel(c: Circle, v: CircleVelocity, w: int, h: int, g: int, m: int) -> CircleVelocity {
    CircleVelocity {
        vx: clamp_spec(reflect_vx(c, v.vx as int, w), m) as i64,
        vy: clamp_spec(reflect_vy(c, v.vy as int + g, h), m) as i64,
    }
}

/// One body's position after a tick's first phase: one step of the new
/// velocity, radius unchanged.
pub open spec fn moved_circle(c: Circle, v: CircleVelocity, w: int, h: int, g: int, m: int) -> Circle {
    let nv = moved_vel(c, v, w, h, g, m);
    Circle { x: (c.x + nv.vx) as i64, y: (c.y + nv.vy) as i64, r: c.r }
}

/// All bodies after the integration phase.
pub open spec fn moved_circles(cs: Seq<Circle>, vs: Seq<CircleVelocity>, w: int, h: int, g: int, m: int) -> Seq<Circle> {
    Seq::new(cs.len(), |i: int| moved_circle(cs[i], vs[i], w, h, g, m))
}

/// All velocities after the integration phase.
pub open spec fn moved_vels(cs: Seq<Circle>, vs: Seq<CircleVelocity>, w: int, h: int, g: int, m: int) -> Seq<CircleVelocity> {
    Seq::new(cs.len(), |i: int| moved_vel(cs[i], vs[i], w, h, g, m))
}

/// Every velocity component in the store lies within `[-m, m]`.
pub open spec fn vels_bounded(vs: Seq<CircleVelocity>, m: int) -> bool {
    forall|k: int| 0 <= k < vs.len() ==> -m <= (#[trigger] vs[k]).vx <= m && -m <= vs[k].vy <= m
}

/// Every body's position invariant holds for viewport `w x h`.
pub open spec fn circles_pos_ok(cs: Seq<Circle>, w: int, h: int, m: int) -> bool {
    forall|k: int| 0 <= k < cs.len() ==> body_pos_ok(#[trigger] cs[k], w, h, m)
}

/// Integrating one tick keeps a body inside the slack box: whenever an edge
/// juts out the reflected velocity points back in, so the center moves at
/// most `m` past an edge and never further out on the next tick.
pub proof fn lemma_move_preserves_box(c: Circle, v: CircleVelocity, w: int, h: int, g: int, m: int)
    requires
        body_ok(c, v, w, h, m),
        dims_ok(w, h),
        0 <= g <= m,
        1 <= m <= MAX_SPEED_LIMIT,
    ensures
        body_ok(moved_circle(c, v, w, h, g, m), moved_vel(c, v, w, h, g, m), w, h, m),
{
}

/// Inside the slack box with the speed bound below the viewport size, every
/// center stays within one viewport of the viewport itself: no body
/// diverges without bound across any number of ticks.
pub proof fn lemma_centers_bounded(s: &State, w: int, h: int)
    requires
        bodies_in_box(s, w, h),
        s.max_speed as int <= w,
        s.max_speed as int <= h,
    ensures
        forall|i: int|
            0 <= i < s.circles@.len() ==> -w <= (#[trigger] s.circles@[i]).x <= 2 * w && -h
                <= s.circles@[i].y <= 2 * h,
{
}

/// Phase one of a tick: gravity, reflection and integration, body by body.
#[verifier::loop_isolation(false)]
fn integrate_all(state: &mut State, width: i64, height: i64)
    requires
        state_wf(old(state)),
        dims_ok(width as int, height as int),
        bodies_in_box(old(state), width as int, height as int),
    ensures
        state_wf(final(state)),
        final(state).circles@ == moved_circles(
            old(state).circles@,
            old(state).circle_velocities@,
            width as int,
            height as int,
            old(state).gravity as int,
            old(state).max_speed as int,
        ),
        final(state).circle_velocities@ == moved_vels(
            old(state).circles@,
            old(state).circle_velocities@,
            width as int,
            height as int,
            old(state).gravity as int,
            old(state).max_speed as int,
        ),
        final(state).grid@ == old(state).grid@,
        final(state).circle_count == old(state).circle_count,
        final(state).grid_width == old(state).grid_width,
        final(state).grid_height == old(state).grid_height,
        final(state).gravity == old(state).gravity,
        final(state).max_speed == old(state).max_speed,
        bodies_in_box(final(state), width as int, height as int),
{
    let ghost w = width as int;
    let ghost h = height as int;
    let ghost cs0 = state.circles@;
    let ghost vs0 = state.circle_velocities@;
    let ghost grid0 = state.grid@;
    let g = state.gravity;
    let m = state.max_speed;
    let ghost gi = g as int;
    let ghost mi = m as int;
    let n = state.circles.len();
    let mut i: usize = 0;
    while i < n
        invariant
            i <= n,
            state.circles@.len() == n,
            state.circle_velocities@.len() == n,
            state.grid@ == grid0,
            state.circle_count == old(state).circle_count,
            state.grid_width == old(state).grid_width,
            state.grid_height == old(state).grid_height,
            state.gravity == g,
            state.max_speed == m,
            forall|j: int|
                0 <= j < i ==> (#[trigger] state.circles@[j]) == moved_circle(
                    cs0[j],
                    vs0[j],
                    w,
                    h,
                    gi,
                    mi,
                ),
            forall|j: int|
                0 <= j < i ==> (#[trigger] state.circle_velocities@[j]) == moved_vel(
                    cs0[j],
                    vs0[j],
                    w,
                    h,
                    gi,
                    mi,
                ),
            forall|j: int| i <= j < n ==> (#[trigger] state.circles@[j]) == cs0[j],
            forall|j: int|
                i <= j < n ==> (#[trigger] state.circle_velocities@[j]) == vs0[j],
            forall|j: int|
                0 <= j < i ==> body_ok(
                    #[trigger] state.circles@[j],
                    state.circle_velocities@[j],
                    w,
                    h,
                    mi,
                ),
        decreases n - i,
    {
        let c = state.circles[i];
        let v = state.circle_velocities[i];
        proof {
            assert(body_ok(cs0[i as int], vs0[i as int], w, h, mi));
        }
        let mut vx = v.vx;
        let mut vy = v.vy + g;
        if (width - (c.x + c.r) < 0 && vx > 0) || (c.x - c.r < 0 && vx < 0) {
            vx = -vx;
        }
        if (height - (c.y + c.r) < 0 && vy > 0) || (c.y - c.r < 0 && vy < 0) {
            vy = -vy;
        }
        let vx2 = clamp_i64(vx, m);
        let vy2 = clamp_i64(vy, m);
        let nx = c.x + vx2;
        let ny = c.y + vy2;
        state.circles.set(i, Circle { x: nx, y: ny, r: c.r });
        state.circle_velocities.set(i, CircleVelocity { vx: vx2, vy: vy2 });
        proof {
            lemma_move_preserves_box(cs0[i as int], vs0[i as int], w, h, gi, mi);
            assert(state.circles@[i as int] == moved_circle(cs0[i as int], vs0[i as int], w, h, gi, mi));
            assert(state.circle_velocities@[i as int] == moved_vel(cs0[i as int], vs0[i as int], w, h, gi, mi));
        }
        i = i + 1;
    }
    proof {
        assert(state.circles@ =~= moved_circles(cs0, vs0, w, h, gi, mi));
        assert(state.circle_velocities@ =~= moved_vels(cs0, vs0, w, h, gi, mi));
    }
}

/// Narrow phase over one grid cell: every ordered pair of its id list is
/// tested and resolved, exactly the `cell_pairs` fold.
#[verifier::loop_isolation(false)]
fn resolve_cell(circles: &Vec<Circle>, grid: &Vec<Vec<Vec<u32>>>, vels: &mut Vec<CircleVelocity>, p: usize, q: usize, width: i64, height: i64, m: i64)
    requires
        dims_ok(width as int, height as int),
        1 <= m <= MAX_SPEED_LIMIT,
        old(vels)@.len() == circles@.len(),
        circles_pos_ok(circles@, width as int, height as int, m as int),
        vels_bounded(old(vels)@, m as int),
        p < grid@.len(),
        q < grid@[p as int]@.len(),
        forall|k: int|
            0 <= k < grid@[p as int]@[q as int]@.len() ==> (#[trigger] grid@[p as int]@[q as int]@[k])
                < circles@.len(),
    ensures
        final(vels)@ == resolve_seq(
            circles@,
            old(vels)@,
            m as int,
            cell_pairs(grid@[p as int]@[q as int]@),
        ),
        final(vels)@.len() == old(vels)@.len(),
        vels_bounded(final(vels)@, m as int),
{
    let ghost cs = circles@;
    let ghost vs0 = vels@;
    let ghost mi = m as int;
    let ghost ids = grid@[p as int]@[q as int]@;
    let cell_len = grid[p][q].len();
    let mut k: usize = 0;
    while k < cell_len
        invariant
            k <= cell_len,
            cell_len == ids.len(),
            vels@.len() == cs.len(),
            vels@ == resolve_seq(cs, vs0, mi, cell_pairs_upto(ids, k as int)),
            vels_bounded(vels@, mi),
        decreases cell_len - k,
    {
        let mut l: usize = k + 1;
        while l < cell_len
            invariant
                k < l <= cell_len,
                vels@.len() == cs.len(),
                vels@ == resolve_seq(
                    cs,
                    vs0,
                    mi,
                    cell_pairs_upto(ids, k as int) + ids.subrange(k as int + 1, l as int).map_values(
                        |bb: u32| (ids[k as int], bb),
                    ),
                ),
                vels_bounded(vels@, mi),
            decreases cell_len - l,
        {
            let aid = grid[p][q][k];
            let bid = grid[p][q][l];
            let ghost vprev = vels@;
            let ghost base = cell_pairs_upto(ids, k as int);
            let ghost donel = ids.subrange(k as int + 1, l as int).map_values(
                |bb: u32| (ids[k as int], bb),
            );
            apply_pair(circles, vels, aid as usize, bid as usize, width, height, m);
            proof {
                lemma_pair_vels_shape(cs, vprev, mi, aid as int, bid as int);
                let x = (aid, bid);
                assert(ids.subrange(k as int + 1, l as int + 1) =~= ids.subrange(
                    k as int + 1,
                    l as int,
                ).push(bid));
                assert(ids.subrange(k as int + 1, l as int + 1).map_values(
                    |bb: u32| (ids[k as int], bb),
                ) =~= donel.push(x));
                assert(base + donel.push(x) =~= (base + donel).push(x));
                lemma_resolve_seq_push(cs, vs0, mi, base + donel, x);
            }
            l = l + 1;
        }
        proof {
            assert(cell_pairs_upto(ids, k as int + 1) == cell_pairs_upto(ids, k as int)
                + ids.subrange(k as int + 1, ids.len() as int).map_values(
                |bb: u32| (ids[k as int], bb),
            ));
        }
        k = k + 1;
    }
}

/// Phase three of a tick: walk the grid cell by cell in traversal order and
/// resolve every candidate pair.
#[verifier::loop_isolation(false)]
fn resolve_all(state: &mut State, width: i64, height: i64)
    requires
        state_wf(old(state)),
        dims_ok(width as int, height as int),
        circles_pos_ok(old(state).circles@, width as int, height as int, old(state).max_speed as int),
        vels_bounded(old(state).circle_velocities@, old(state).max_speed as int),
        forall|p: int, q: int|
            0 <= p < old(state).grid_width && 0 <= q < old(state).grid_height ==> (
            #[trigger] old(state).grid@[p]@[q])@ == cell_ids(
                old(state).circles@,
                old(state).circles@.len() as int,
                width as int,
                height as int,
                old(state).grid_width as int,
                old(state).grid_height as int,
                p,
                q,
            ),
    ensures
        state_wf(final(state)),
        final(state).circles@ == old(state).circles@,
        final(state).grid@ == old(state).grid@,
        final(state).circle_count == old(state).circle_count,
        final(state).grid_width == old(state).grid_width,
        final(state).grid_height == old(state).grid_height,
        final(state).gravity == old(state).gravity,
        final(state).max_speed == old(state).max_speed,
        final(state).circle_velocities@ == resolve_seq(
            old(state).circles@,
            old(state).circle_velocities@,
            old(state).max_speed as int,
            grid_pairs(
                old(state).circles@,
                width as int,
                height as int,
                old(state).grid_width as int,
                old(state).grid_height as int,
            ),
        ),
        vels_bounded(final(state).circle_velocities@, old(state).max_speed as int),
{
    let ghost w = width as int;
    let ghost h = height as int;
    let ghost cs = state.circles@;
    let ghost vs0 = state.circle_velocities@;
    let ghost grid0 = state.grid@;
    let m = state.max_speed;
    let ghost mi = m as int;
    let gw = state.grid_width;
    let gh = state.grid_height;
    let ghost gwi = gw as int;
    let ghost ghi = gh as int;
    let ghost n = cs.len() as int;
    let mut p: usize = 0;
    while p < gw
        invariant
            p <= gw,
            state.circles@ == cs,
            state.grid@ == grid0,
            state.circle_count == old(state).circle_count,
            state.grid_width == gw,
            state.grid_height == gh,
            state.gravity == old(state).gravity,
            state.max_speed == m,
            state.circle_velocities@.len() == cs.len(),
            state.circle_velocities@ == resolve_seq(
                cs,
                vs0,
                mi,
                grid_pairs_upto(cs, w, h, gwi, ghi, p as int),
            ),
            vels_bounded(state.circle_velocities@, mi),
        decreases gw - p,
    {
        let mut q: usize = 0;
        while q < gh
            invariant
                q <= gh,
                state.circles@ == cs,
                state.grid@ == grid0,
                state.circle_count == old(state).circle_count,
                state.grid_width == gw,
                state.grid_height == gh,
                state.gravity == old(state).gravity,
                state.max_speed == m,
                state.circle_velocities@.len() == cs.len(),
                state.circle_velocities@ == resolve_seq(
                    cs,
                    vs0,
                    mi,
                    grid_pairs_upto(cs, w, h, gwi, ghi, p as int) + col_pairs(
                        cs,
                        w,
                        h,
                        gwi,
                        ghi,
                        p as int,
                        q as int,
                    ),
                ),
                vels_bounded(state.circle_velocities@, mi),
            decreases gh - q,
        {
            let ghost ids = cell_ids(cs, n, w, h, gwi, ghi, p as int, q as int);
            let ghost acc = grid_pairs_upto(cs, w, h, gwi, ghi, p as int) + col_pairs(
                cs,
                w,
                h,
                gwi,
                ghi,
                p as int,
                q as int,
            );
            let ghost vcur = state.circle_velocities@;
            proof {
                lemma_cell_ids_elems(cs, n, w, h, gwi, ghi, p as int, q as int);
            }
            resolve_cell(
                &state.circles,
                &state.grid,
                &mut state.circle_velocities,
                p,
                q,
                width,
                height,
                m,
            );
            proof {
                lemma_resolve_seq_concat(cs, vs0, mi, acc, cell_pairs(ids));
                assert(col_pairs(cs, w, h, gwi, ghi, p as int, q as int + 1) == col_pairs(
                    cs,
                    w,
                    h,
                    gwi,
                    ghi,
                    p as int,
                    q as int,
                ) + cell_pairs(cell_ids(cs, cs.len() as int, w, h, gwi, ghi, p as int, q as int)));
                assert(acc + cell_pairs(ids) =~= grid_pairs_upto(cs, w, h, gwi, ghi, p as int)
                    + col_pairs(cs, w, h, gwi, ghi, p as int, q as int + 1));
            }
            q = q + 1;
        }
        proof {
            assert(grid_pairs_upto(cs, w, h, gwi, ghi, p as int + 1) == grid_pairs_upto(
                cs,
                w,
                h,
                gwi,
                ghi,
                p as int,
            ) + col_pairs(cs, w, h, gwi, ghi, p as int, ghi));
            assert(grid_pairs_upto(cs, w, h, gwi, ghi, p as int) + col_pairs(
                cs,
                w,
                h,
                gwi,
                ghi,
                p as int,
                gh as int,
            ) =~= grid_pairs_upto(cs, w, h, gwi, ghi, p as int + 1));
        }
        p = p + 1;
    }
}

/// Advances the simulation one tick.
///
/// Rejects malformed viewport dimensions without touching the state. On
/// success the final state is pinned exactly: positions follow
/// `moved_circles`, the grid holds `cell_ids` of the new positions, and the
/// velocities are the fold of the impulse rule over every grid pair in
/// traversal order, starting from `moved_vels`.
pub fn time_step(state: &mut State, width: i64, height: i64) -> (res: Result<(), SimError>)
    requires
        state_wf(old(state)),
        dims_ok(width as int, height as int) ==> bodies_in_box(
            old(state),
            width as int,
            height as int,
        ),
    ensures
        state_wf(final(state)),
        final(state).circle_count == old(state).circle_count,
        final(state).grid_width == old(state).grid_width,
        final(state).grid_height == old(state).grid_height,
        final(state).gravity == old(state).gravity,
        final(state).max_speed == old(state).max_speed,
        final(state).circles@.len() == old(state).circles@.len(),
        !dims_ok(width as int, height as int) ==> res == Err::<(), SimError>(
            SimError::InvalidDimensions,
        ) && final(state).circles@ == old(state).circles@ && final(state).circle_velocities@
            == old(state).circle_velocities@ && final(state).grid@ == old(state).grid@,
        dims_ok(width as int, height as int) ==> res == Ok::<(), SimError>(()),
        dims_ok(width as int, height as int) ==> final(state).circles@ == moved_circles(
            old(state).circles@,
            old(state).circle_velocities@,
            width as int,
            height as int,
            old(state).gravity as int,
            old(state).max_speed as int,
        ),
        dims_ok(width as int, height as int) ==> {
            let cs1 = moved_circles(
                old(state).circles@,
                old(state).circle_velocities@,
                width as int,
                height as int,
                old(state).gravity as int,
                old(state).max_speed as int,
            );
            &&& (forall|p: int, q: int|
                0 <= p < old(state).grid_width && 0 <= q < old(state).grid_height ==> (
                #[trigger] final(state).grid@[p]@[q])@ == cell_ids(
                    cs1,
                    cs1.len() as int,
                    width as int,
                    height as int,
                    old(state).grid_width as int,
                    old(state).grid_height as int,
                    p,
                    q,
                ))
            &&& final(state).circle_velocities@ == resolve_seq(
                cs1,
                moved_vels(
                    old(state).circles@,
                    old(state).circle_velocities@,
                    width as int,
                    height as int,
                    old(state).gravity as int,
                    old(state).max_speed as int,
                ),
                old(state).max_speed as int,
                grid_pairs(
                    cs1,
                    width as int,
                    height as int,
                    old(state).grid_width as int,
                    old(state).grid_height as int,
                ),
            )
        },
        dims_ok(width as int, height as int) ==> bodies_in_box(
            final(state),
            width as int,
            height as int,
        ),
{
    if width < 1 || width > MAX_DIM || height < 1 || height > MAX_DIM {
        return Err(SimError::InvalidDimensions);
    }
    let ghost w = width as int;
    let ghost h = height as int;
    integrate_all(state, width, height);
    let ghost cs1 = state.circles@;
    let ghost vs1 = state.circle_velocities@;
    let m = state.max_speed;
    let gw = state.grid_width;
    let gh = state.grid_height;
    proof {
        assert forall|i: int| 0 <= i < cs1.len() implies body_pos_ok(
            #[trigger] cs1[i],
            w,
            h,
            m as int,
        ) by {
            assert(body_ok(cs1[i], vs1[i], w, h, m as int));
        }
        assert(vels_bounded(vs1, m as int)) by {
            assert forall|k: int| 0 <= k < vs1.len() implies -m <= (#[trigger] vs1[k]).vx <= m
                && -m <= vs1[k].vy <= m by {
                assert(body_ok(cs1[k], vs1[k], w, h, m as int));
            }
        }
    }
    let new_grid = build_grid(&state.circles, width, height, gw, gh, m);
    state.grid = new_grid;
    resolve_all(state, width, height);
    proof {
        assert forall|i: int| 0 <= i < final(state).circles@.len() implies body_ok(
            #[trigger] final(state).circles@[i],
            final(state).circle_velocities@[i],
            w,
            h,
            final(state).max_speed as int,
        ) by {
            assert(body_pos_ok(cs1[i], w, h, m as int));
        }
    }
    Ok(())
}

} // verus!
