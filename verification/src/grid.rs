//! The broad phase: a uniform grid over the viewport. Each tick every body
//! is registered in all cells its bounding box touches; only bodies sharing
//! a cell are handed to the narrow phase. The registration is conservative:
//! a pair that overlaps anywhere always shares at least one cell.

use vstd::prelude::*;
use vstd::arithmetic::div_mod::lemma_div_is_ordered;
use vstd::arithmetic::div_mod::lemma_div_pos_is_pos;
use vstd::arithmetic::div_mod::lemma_fundamental_div_mod_converse;
use crate::geometry::circles_overlap;
use crate::num::{floor_div, sq, MAX_COUNT, MAX_DIM, MAX_GRID_DIM, MAX_SPEED_LIMIT};
use crate::placement::circle_in_viewport;
use crate::state::{body_pos_ok, dims_ok};
use crate::types::Circle;

verus! {

/// Grid index of viewport coordinate `a` on an axis of size `w` split into
/// `n` cells, before clamping: the floor of `a * n / w`.
pub open spec fn raw_cell(a: int, n: int, w: int) -> int {
    (a * n) / w
}

/// Body `c` is registered in grid column `p`: `p` lies in the clamped column
/// range of the body's bounding box.
pub open spec fn in_cols(c: Circle, w: int, gw: int, p: int) -> bool {
    let lo = raw_cell(c.x - c.r, gw, w);
    let hi = raw_cell(c.x + c.r, gw, w);
    (if lo < 0 {
        0
    } else {
        lo
    }) <= p <= (if hi >= gw {
        gw - 1
    } else {
        hi
    })
}

/// Body `c` is registered in grid row `q`.
pub open spec fn in_rows(c: Circle, h: int, gh: int, q: int) -> bool {
    let lo = raw_cell(c.y - c.r, gh, h);
    let hi = raw_cell(c.y + c.r, gh, h);
    (if lo < 0 {
        0
    } else {
        lo
    }) <= q <= (if hi >= gh {
        gh - 1
    } else {
        hi
    })
}

/// Body `c` is registered in grid cell `(p, q)`.
pub open spec fn in_cell(c: Circle, w: int, h: int, gw: int, gh: int, p: int, q: int) -> bool {
    in_cols(c, w, gw, p) && in_rows(c, h, gh, q)
}

/// The ids cell `(p, q)` holds once the first `t` bodies are registered:
/// those among `0 .. t` whose range covers the cell, in increasing order.
pub open spec fn cell_ids(cs: Seq<Circle>, t: int, w: int, h: int, gw: int, gh: int, p: int, q: int) -> Seq<u32>
    decreases t,
{
    if t <= 0 {
        Seq::empty()
    } else {
        let prev = cell_ids(cs, t - 1, w, h, gw, gh, p, q);
        if in_cell(cs[t - 1], w, h, gw, gh, p, q) {
            prev.push((t - 1) as u32)
        } else {
            prev
        }
    }
}

/// Every id a cell holds names a registered body below `t`, and every
/// registered body below `t` appears in the cell.
pub proof fn lemma_cell_ids_elems(cs: Seq<Circle>, t: int, w: int, h: int, gw: int, gh: int, p: int, q: int)
    requires
        0 <= t <= cs.len(),
        cs.len() <= MAX_COUNT,
    ensures
        forall|k: int|
            0 <= k < cell_ids(cs, t, w, h, gw, gh, p, q).len() ==> {
                let id = #[trigger] cell_ids(cs, t, w, h, gw, gh, p, q)[k];
                id < t && in_cell(cs[id as int], w, h, gw, gh, p, q)
            },
        forall|id: int|
            0 <= id < t && in_cell(#[trigger] cs[id], w, h, gw, gh, p, q) ==> cell_ids(
                cs,
                t,
                w,
                h,
                gw,
                gh,
                p,
                q,
            ).contains(id as u32),
    decreases t,
{
    if t > 0 {
        lemma_cell_ids_elems(cs, t - 1, w, h, gw, gh, p, q);
        let prev = cell_ids(cs, t - 1, w, h, gw, gh, p, q);
        let cur = cell_ids(cs, t, w, h, gw, gh, p, q);
        assert forall|id: int|
            0 <= id < t && in_cell(#[trigger] cs[id], w, h, gw, gh, p, q) implies cur.contains(
            id as u32,
        ) by {
            if id < t - 1 {
                let k = choose|k: int| 0 <= k < prev.len() && prev[k] == id as u32;
                assert(cur[k] == id as u32);
            } else {
                assert(cur[cur.len() - 1] == id as u32);
            }
        }
    }
}

/// The ordered narrow-phase pairs taken from one cell's id list, restricted
/// to first elements below position `k` in the list.
pub open spec fn cell_pairs_upto(ids: Seq<u32>, k: int) -> Seq<(u32, u32)>
    decreases k,
{
    if k <= 0 {
        Seq::empty()
    } else {
        cell_pairs_upto(ids, k - 1) + ids.subrange(k, ids.len() as int).map_values(
            |b: u32| (ids[k - 1], b),
        )
    }
}

/// All ordered pairs `(ids[k], ids[l])` with `k < l` from one cell.
pub open spec fn cell_pairs(ids: Seq<u32>) -> Seq<(u32, u32)> {
    cell_pairs_upto(ids, ids.len() as int)
}

/// The pairs of the first `qe` cells of column `p`, in traversal order.
pub open spec fn col_pairs(cs: Seq<Circle>, w: int, h: int, gw: int, gh: int, p: int, qe: int) -> Seq<(u32, u32)>
    decreases qe,
{
    if qe <= 0 {
        Seq::empty()
    } else {
        col_pairs(cs, w, h, gw, gh, p, qe - 1) + cell_pairs(
            cell_ids(cs, cs.len() as int, w, h, gw, gh, p, qe - 1),
        )
    }
}

/// The pairs of the first `pe` whole columns, in traversal order.
pub open spec fn grid_pairs_upto(cs: Seq<Circle>, w: int, h: int, gw: int, gh: int, pe: int) -> Seq<(u32, u32)>
    decreases pe,
{
    if pe <= 0 {
        Seq::empty()
    } else {
        grid_pairs_upto(cs, w, h, gw, gh, pe - 1) + col_pairs(cs, w, h, gw, gh, pe - 1, gh)
    }
}

/// Every candidate pair one tick's grid pass hands to the narrow phase,
/// cell by cell in traversal order.
pub open spec fn grid_pairs(cs: Seq<Circle>, w: int, h: int, gw: int, gh: int) -> Seq<(u32, u32)> {
    grid_pairs_upto(cs, w, h, gw, gh, gw)
}

proof fn lemma_raw_cell_monotone(a: int, b: int, n: int, w: int)
    requires
        a <= b,
        1 <= n,
        1 <= w,
    ensures
        raw_cell(a, n, w) <= raw_cell(b, n, w),
{
    assert(a * n <= b * n) by (nonlinear_arith)
        requires
            a <= b,
            n >= 1,
    ;
    lemma_div_is_ordered(a * n, b * n, w);
}

proof fn lemma_raw_cell_nonneg(b: int, n: int, w: int)
    requires
        0 <= b,
        1 <= n,
        1 <= w,
    ensures
        raw_cell(b, n, w) >= 0,
{
    assert(b * n >= 0) by (nonlinear_arith)
        requires
            0 <= b,
            1 <= n,
    ;
    lemma_div_pos_is_pos(b * n, w);
}

proof fn lemma_raw_cell_below(a: int, n: int, w: int)
    requires
        a <= w - 1,
        1 <= n,
        1 <= w,
    ensures
        raw_cell(a, n, w) <= n - 1,
{
    assert(a * n <= w * n - n) by (nonlinear_arith)
        requires
            a <= w - 1,
            1 <= n,
    ;
    lemma_div_is_ordered(a * n, w * n - 1, w);
    assert(w * n - 1 == (n - 1) * w + (w - 1)) by (nonlinear_arith);
    lemma_fundamental_div_mod_converse(w * n - 1, w, n - 1, w - 1);
}

/// Two intersecting in-viewport intervals share a clamped grid index.
proof fn lemma_axis_shared(a1: int, b1: int, a2: int, b2: int, w: int, n: int) -> (p: int)
    requires
        1 <= w,
        1 <= n,
        a1 <= b1,
        a2 <= b2,
        a1 <= b2,
        a2 <= b1,
        0 <= b1,
        0 <= b2,
        a1 <= w - 1,
        a2 <= w - 1,
    ensures
        ({
            let lo1 = raw_cell(a1, n, w);
            let hi1 = raw_cell(b1, n, w);
            let lo2 = raw_cell(a2, n, w);
            let hi2 = raw_cell(b2, n, w);
            &&& 0 <= p < n
            &&& (if lo1 < 0 {
                0
            } else {
                lo1
            }) <= p <= (if hi1 >= n {
                n - 1
            } else {
                hi1
            })
            &&& (if lo2 < 0 {
                0
            } else {
                lo2
            }) <= p <= (if hi2 >= n {
                n - 1
            } else {
                hi2
            })
        }),
{
    let lo1 = raw_cell(a1, n, w);
    let hi1 = raw_cell(b1, n, w);
    let lo2 = raw_cell(a2, n, w);
    let hi2 = raw_cell(b2, n, w);
    lemma_raw_cell_monotone(a1, b1, n, w);
    lemma_raw_cell_monotone(a2, b2, n, w);
    lemma_raw_cell_monotone(a1, b2, n, w);
    lemma_raw_cell_monotone(a2, b1, n, w);
    lemma_raw_cell_nonneg(b1, n, w);
    lemma_raw_cell_nonneg(b2, n, w);
    lemma_raw_cell_below(a1, n, w);
    lemma_raw_cell_below(a2, n, w);
    let m12 = if lo1 < lo2 {
        lo2
    } else {
        lo1
    };
    if m12 < 0 {
        0
    } else {
        m12
    }
}

/// Broad-phase completeness: any two overlapping bodies that lie inside the
/// viewport are registered together in at least one grid cell, so the grid
/// pass hands every pair the naive all-pairs pass would detect to the same
/// narrow-phase test, and the two passes detect identical collision sets.
pub proof fn lemma_broad_phase_complete(cs: Seq<Circle>, w: int, h: int, gw: int, gh: int, i: int, j: int)
    requires
        1 <= w,
        1 <= h,
        1 <= gw,
        1 <= gh,
        cs.len() <= MAX_COUNT,
        0 <= i < cs.len(),
        0 <= j < cs.len(),
        circle_in_viewport(cs[i], w, h),
        circle_in_viewport(cs[j], w, h),
        circles_overlap(
            cs[i].x as int,
            cs[i].y as int,
            cs[i].r as int,
            cs[j].x as int,
            cs[j].y as int,
            cs[j].r as int,
        ),
    ensures
        exists|p: int, q: int|
            {
                &&& 0 <= p < gw
                &&& 0 <= q < gh
                &&& #[trigger] cell_ids(cs, cs.len() as int, w, h, gw, gh, p, q).contains(i as u32)
                &&& cell_ids(cs, cs.len() as int, w, h, gw, gh, p, q).contains(j as u32)
            },
{
    let ci = cs[i];
    let cj = cs[j];
    let dx = cj.x as int - ci.x as int;
    let dy = cj.y as int - ci.y as int;
    let rs = ci.r as int + cj.r as int;
    assert(-rs <= dx <= rs && -rs <= dy <= rs) by (nonlinear_arith)
        requires
            sq(dx) == dx * dx,
            sq(dy) == dy * dy,
            sq(rs) == rs * rs,
            sq(dx) + sq(dy) <= sq(rs),
            0 <= rs,
    ;
    let p = lemma_axis_shared(
        ci.x - ci.r,
        ci.x + ci.r,
        cj.x - cj.r,
        cj.x + cj.r,
        w,
        gw,
    );
    let q = lemma_axis_shared(
        ci.y - ci.r,
        ci.y + ci.r,
        cj.y - cj.r,
        cj.y + cj.r,
        h,
        gh,
    );
    assert(in_cell(ci, w, h, gw, gh, p, q));
    assert(in_cell(cj, w, h, gw, gh, p, q));
    lemma_cell_ids_elems(cs, cs.len() as int, w, h, gw, gh, p, q);
    assert(cell_ids(cs, cs.len() as int, w, h, gw, gh, p, q).contains(i as u32));
    assert(cell_ids(cs, cs.len() as int, w, h, gw, gh, p, q).contains(j as u32));
}

/// Builds the tick's grid: registers every body in each cell its bounding
/// box touches, bodies in increasing id order.
pub fn build_grid(circles: &Vec<Circle>, width: i64, height: i64, grid_width: usize, grid_height: usize, m: i64) -> (grid: Vec<Vec<Vec<u32>>>)
    requires
        dims_ok(width as int, height as int),
        1 <= grid_width <= MAX_GRID_DIM,
        1 <= grid_height <= MAX_GRID_DIM,
        1 <= m <= MAX_SPEED_LIMIT,
        circles@.len() <= MAX_COUNT,
        forall|i: int|
            0 <= i < circles@.len() ==> body_pos_ok(
                #[trigger] circles@[i],
                width as int,
                height as int,
                m as int,
            ),
    ensures
        grid@.len() == grid_width,
        forall|p: int| 0 <= p < grid_width ==> (#[trigger] grid@[p])@.len() == grid_height,
        forall|p: int, q: int|
            0 <= p < grid_width && 0 <= q < grid_height ==> (#[trigger] grid@[p]@[q])@
                == cell_ids(
                circles@,
                circles@.len() as int,
                width as int,
                height as int,
                grid_width as int,
                grid_height as int,
                p,
                q,
            ),
{
    let ghost cs = circles@;
    let ghost w = width as int;
    let ghost h = height as int;
    let ghost gwi = grid_width as int;
    let ghost ghi = grid_height as int;
    let ghost n = circles@.len() as int;
    let mut grid: Vec<Vec<Vec<u32>>> = Vec::new();
    let mut p0: usize = 0;
    while p0 < grid_width
        invariant
            p0 <= grid_width,
            grid@.len() == p0,
            forall|pp: int| 0 <= pp < p0 ==> (#[trigger] grid@[pp])@.len() == grid_height,
            forall|pp: int, qq: int|
                0 <= pp < p0 && 0 <= qq < grid_height ==> (#[trigger] grid@[pp]@[qq])@
                    =~= Seq::<u32>::empty(),
        decreases grid_width - p0,
    {
        let mut column: Vec<Vec<u32>> = Vec::new();
        let mut q0: usize = 0;
        while q0 < grid_height
            invariant
                q0 <= grid_height,
                column@.len() == q0,
                forall|qq: int| 0 <= qq < q0 ==> (#[trigger] column@[qq])@ =~= Seq::<u32>::empty(),
            decreases grid_height - q0,
        {
            column.push(Vec::new());
            q0 = q0 + 1;
        }
        grid.push(column);
        p0 = p0 + 1;
    }
    let gwi64 = grid_width as i64;
    let ghi64 = grid_height as i64;
    let mut i: usize = 0;
    while i < circles.len()
        invariant
            i <= cs.len(),
            cs == circles@,
            cs.len() <= MAX_COUNT,
            n == cs.len() as int,
            w == width as int,
            h == height as int,
            gwi == grid_width as int,
            ghi == grid_height as int,
            gwi64 as int == gwi,
            ghi64 as int == ghi,
            dims_ok(w, h),
            1 <= grid_width <= MAX_GRID_DIM,
            1 <= grid_height <= MAX_GRID_DIM,
            1 <= m <= MAX_SPEED_LIMIT,
            forall|k: int| 0 <= k < cs.len() ==> body_pos_ok(#[trigger] cs[k], w, h, m as int),
            grid@.len() == grid_width,
            forall|pp: int| 0 <= pp < gwi ==> (#[trigger] grid@[pp])@.len() == grid_height,
            forall|pp: int, qq: int|
                0 <= pp < gwi && 0 <= qq < ghi ==> (#[trigger] grid@[pp]@[qq])@ == cell_ids(
                    cs,
                    i as int,
                    w,
                    h,
                    gwi,
                    ghi,
                    pp,
                    qq,
                ),
        decreases cs.len() - i,
    {
        let c = circles[i];
        let xl = c.x - c.r;
        let xh = c.x + c.r;
        let yl = c.y - c.r;
        let yh = c.y + c.r;
        proof {
            crate::num::lemma_abs_mul_le(xl as int, gwi, 0x1000_0000_0000, 0x2000);
            crate::num::lemma_abs_mul_le(xh as int, gwi, 0x1000_0000_0000, 0x2000);
            crate::num::lemma_abs_mul_le(yl as int, ghi, 0x1000_0000_0000, 0x2000);
            crate::num::lemma_abs_mul_le(yh as int, ghi, 0x1000_0000_0000, 0x2000);
        }
        let lraw = floor_div(xl * gwi64, width);
        let hraw = floor_div(xh * gwi64, width);
        let traw = floor_div(yl * ghi64, height);
        let braw = floor_div(yh * ghi64, height);
        let lc: i64 = if lraw < 0 {
            0
        } else {
            lraw
        };
        let hc: i64 = if hraw >= gwi64 {
            gwi64 - 1
        } else {
            hraw
        };
        let tc: i64 = if traw < 0 {
            0
        } else {
            traw
        };
        let bc: i64 = if braw >= ghi64 {
            ghi64 - 1
        } else {
            braw
        };
        proof {
            lemma_raw_cell_monotone(xl as int, xh as int, gwi, w);
            lemma_raw_cell_monotone(yl as int, yh as int, ghi, h);
            assert(forall|pp: int, qq: int|
                in_cell(cs[i as int], w, h, gwi, ghi, pp, qq) <==> (lc as int <= pp <= hc as int
                    && tc as int <= qq <= bc as int));
        }
        let mut p: i64 = lc;
        while p <= hc
            invariant
                lc <= p <= hc + 1 || (hc < lc && p == lc),
                0 <= lc,
                hc < gwi,
                0 <= tc,
                bc < ghi,
                i < cs.len(),
                cs.len() <= MAX_COUNT,
                n == cs.len() as int,
                gwi == grid_width as int,
                ghi == grid_height as int,
                0 < gwi,
                0 < ghi,
                grid_width <= MAX_GRID_DIM,
                grid_height <= MAX_GRID_DIM,
                grid@.len() == grid_width,
                forall|pp: int| 0 <= pp < gwi ==> (#[trigger] grid@[pp])@.len() == grid_height,
                forall|pp: int, qq: int|
                    in_cell(cs[i as int], w, h, gwi, ghi, pp, qq) <==> (lc as int <= pp
                        <= hc as int && tc as int <= qq <= bc as int),
                forall|pp: int, qq: int|
                    0 <= pp < gwi && 0 <= qq < ghi ==> (#[trigger] grid@[pp]@[qq])@ == (if in_cell(
                        cs[i as int],
                        w,
                        h,
                        gwi,
                        ghi,
                        pp,
                        qq,
                    ) && pp < p as int {
                        cell_ids(cs, i as int, w, h, gwi, ghi, pp, qq).push(i as u32)
                    } else {
                        cell_ids(cs, i as int, w, h, gwi, ghi, pp, qq)
                    }),
            decreases hc + 1 - p,
        {
            let mut q: i64 = tc;
            while q <= bc
                invariant
                    tc <= q <= bc + 1 || (bc < tc && q == tc),
                    0 <= lc <= p <= hc,
                    hc < gwi,
                    0 <= tc,
                    bc < ghi,
                    i < cs.len(),
                    cs.len() <= MAX_COUNT,
                    n == cs.len() as int,
                    gwi == grid_width as int,
                    ghi == grid_height as int,
                    0 < gwi,
                    0 < ghi,
                    grid_width <= MAX_GRID_DIM,
                    grid_height <= MAX_GRID_DIM,
                    grid@.len() == grid_width,
                    forall|pp: int| 0 <= pp < gwi ==> (#[trigger] grid@[pp])@.len() == grid_height,
                    forall|pp: int, qq: int|
                        in_cell(cs[i as int], w, h, gwi, ghi, pp, qq) <==> (lc as int <= pp
                            <= hc as int && tc as int <= qq <= bc as int),
                    forall|pp: int, qq: int|
                        0 <= pp < gwi && 0 <= qq < ghi ==> (#[trigger] grid@[pp]@[qq])@ == (
                        if in_cell(cs[i as int], w, h, gwi, ghi, pp, qq) && (pp < p as int || (pp
                            == p as int && qq < q as int)) {
                            cell_ids(cs, i as int, w, h, gwi, ghi, pp, qq).push(i as u32)
                        } else {
                            cell_ids(cs, i as int, w, h, gwi, ghi, pp, qq)
                        }),
                decreases bc + 1 - q,
            {
                grid[p as usize][q as usize].push(i as u32);
                q = q + 1;
            }
            p = p + 1;
        }
        proof {
            assert forall|pp: int, qq: int| 0 <= pp < gwi && 0 <= qq < ghi implies (
            #[trigger] grid@[pp]@[qq])@ == cell_ids(cs, i as int + 1, w, h, gwi, ghi, pp, qq) by {
                if in_cell(cs[i as int], w, h, gwi, ghi, pp, qq) {
                    assert(pp < p as int);
                }
            }
        }
        i = i + 1;
    }
    grid
}

} // verus!
