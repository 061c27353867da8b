//! The narrow phase and impulse resolution: for a detected overlapping pair,
//! the velocity components along the contact normal are exchanged by the
//! 1-D elastic collision rule with radius as the mass proxy; the tangential
//! components are untouched. All arithmetic is exact integer arithmetic:
//! dot products are divided by the integer contact length only at the end.

use vstd::prelude::*;
use crate::geometry::{circles_overlap, detect_circle_collision};
use crate::num::{clamp_i64, clamp_spec, isqrt, lemma_abs_mul_le, lemma_sqrt_floor_props,
    lemma_sqrt_floor_unique, lemma_tdiv_bound, lemma_tdiv_exact, sq, sqrt_floor, tdiv, trunc_div,
    MAX_SPEED_LIMIT};
use crate::state::{body_pos_ok, dims_ok};
use crate::types::{Circle, CircleVelocity};

verus! {

/// Contact-normal direction, unnormalized: from body `a` toward body `b`.
pub open spec fn contact_dx(cs: Seq<Circle>, a: int, b: int) -> int {
    cs[b].x - cs[a].x
}

pub open spec fn contact_dy(cs: Seq<Circle>, a: int, b: int) -> int {
    cs[b].y - cs[a].y
}

/// Integer length of the contact vector (floor of the Euclidean length).
pub open spec fn contact_len(cs: Seq<Circle>, a: int, b: int) -> int {
    sqrt_floor(sq(contact_dx(cs, a, b)) + sq(contact_dy(cs, a, b)))
}

/// Velocity component of body `t` along the normal from `a` to `b`.
pub open spec fn normal_speed(cs: Seq<Circle>, vs: Seq<CircleVelocity>, a: int, b: int, t: int) -> int {
    tdiv(contact_dx(cs, a, b) * vs[t].vx + contact_dy(cs, a, b) * vs[t].vy, contact_len(cs, a, b))
}

/// The velocities after the pair `(a, b)` is tested and, when it overlaps
/// and the bodies approach along the normal, resolved. A coincident pair
/// (contact length zero) has no normal and is left unchanged, as is a pair
/// already separating (`cui - cuj <= 0`). New components saturate at `m`.
pub open spec fn pair_new_vels(cs: Seq<Circle>, vs: Seq<CircleVelocity>, m: int, a: int, b: int) -> Seq<CircleVelocity> {
    let ca = cs[a];
    let cb = cs[b];
    if !circles_overlap(ca.x as int, ca.y as int, ca.r as int, cb.x as int, cb.y as int, cb.r as int) {
        vs
    } else {
        let dx = contact_dx(cs, a, b);
        let dy = contact_dy(cs, a, b);
        let len = contact_len(cs, a, b);
        if len == 0 {
            vs
        } else {
            let cui = normal_speed(cs, vs, a, b, a);
            let cuj = normal_speed(cs, vs, a, b, b);
            if cui - cuj <= 0 {
                vs
            } else {
                let ms = ca.r + cb.r;
                let md = ca.r - cb.r;
                let cvi = tdiv(cui * md + 2 * cb.r * cuj, ms);
                let cvj = tdiv(2 * ca.r * cui - cuj * md, ms);
                let dvi = cvi - cui;
                let dvj = cvj - cuj;
                let nva = CircleVelocity {
                    vx: clamp_spec(vs[a].vx + tdiv(dx * dvi, len), m) as i64,
                    vy: clamp_spec(vs[a].vy + tdiv(dy * dvi, len), m) as i64,
                };
                let nvb = CircleVelocity {
                    vx: clamp_spec(vs[b].vx + tdiv(dx * dvj, len), m) as i64,
                    vy: clamp_spec(vs[b].vy + tdiv(dy * dvj, len), m) as i64,
                };
                vs.update(a, nva).update(b, nvb)
            }
        }
    }
}

/// The velocities after a whole list of candidate pairs is processed in
/// order, each against the velocities the pairs before it produced.
pub open spec fn resolve_seq(cs: Seq<Circle>, vs: Seq<CircleVelocity>, m: int, pairs: Seq<(u32, u32)>) -> Seq<CircleVelocity>
    decreases pairs.len(),
{
    if pairs.len() == 0 {
        vs
    } else {
        resolve_seq(
            cs,
            pair_new_vels(cs, vs, m, pairs[0].0 as int, pairs[0].1 as int),
            m,
            pairs.drop_first(),
        )
    }
}

/// Resolving one pair touches no other body, keeps the store's length, and
/// keeps every component within the speed bound.
pub proof fn lemma_pair_vels_shape(cs: Seq<Circle>, vs: Seq<CircleVelocity>, m: int, a: int, b: int)
    requires
        0 <= a < vs.len(),
        0 <= b < vs.len(),
        1 <= m <= MAX_SPEED_LIMIT,
        forall|k: int| 0 <= k < vs.len() ==> -m <= (#[trigger] vs[k]).vx <= m && -m <= vs[k].vy <= m,
    ensures
        pair_new_vels(cs, vs, m, a, b).len() == vs.len(),
        forall|k: int|
            0 <= k < vs.len() ==> -m <= (#[trigger] pair_new_vels(cs, vs, m, a, b)[k]).vx <= m && -m
                <= pair_new_vels(cs, vs, m, a, b)[k].vy <= m,
        forall|k: int|
            0 <= k < vs.len() && k != a && k != b ==> #[trigger] pair_new_vels(cs, vs, m, a, b)[k]
                == vs[k],
{
}

/// Pair lists compose: processing `a + b` is processing `a`, then `b`.
pub proof fn lemma_resolve_seq_concat(cs: Seq<Circle>, vs: Seq<CircleVelocity>, m: int, a: Seq<(u32, u32)>, b: Seq<(u32, u32)>)
    ensures
        resolve_seq(cs, vs, m, a + b) == resolve_seq(cs, resolve_seq(cs, vs, m, a), m, b),
    decreases a.len(),
{
    if a.len() == 0 {
        assert(a + b =~= b);
    } else {
        assert((a + b)[0] == a[0]);
        assert((a + b).drop_first() =~= a.drop_first() + b);
        lemma_resolve_seq_concat(
            cs,
            pair_new_vels(cs, vs, m, a[0].0 as int, a[0].1 as int),
            m,
            a.drop_first(),
            b,
        );
    }
}

/// Appending one pair applies it to the accumulated velocities.
pub proof fn lemma_resolve_seq_push(cs: Seq<Circle>, vs: Seq<CircleVelocity>, m: int, ps: Seq<(u32, u32)>, x: (u32, u32))
    ensures
        resolve_seq(cs, vs, m, ps.push(x)) == pair_new_vels(
            cs,
            resolve_seq(cs, vs, m, ps),
            m,
            x.0 as int,
            x.1 as int,
        ),
{
    assert(ps.push(x) =~= ps + seq![x]);
    lemma_resolve_seq_concat(cs, vs, m, ps, seq![x]);
    let v1 = resolve_seq(cs, vs, m, ps);
    let v2 = pair_new_vels(cs, v1, m, x.0 as int, x.1 as int);
    assert(seq![x].drop_first() =~= Seq::<(u32, u32)>::empty());
    assert(resolve_seq(cs, v1, m, seq![x]) == resolve_seq(cs, v2, m, seq![x].drop_first()));
}

/// A detected pair whose bodies do not approach along the contact normal
/// (`cui - cuj <= 0`) is left with its velocities exactly unchanged.
pub proof fn lemma_separating_pair_keeps_velocities(cs: Seq<Circle>, vs: Seq<CircleVelocity>, m: int, a: int, b: int)
    requires
        0 <= a < cs.len(),
        0 <= b < cs.len(),
        vs.len() == cs.len(),
        circles_overlap(
            cs[a].x as int,
            cs[a].y as int,
            cs[a].r as int,
            cs[b].x as int,
            cs[b].y as int,
            cs[b].r as int,
        ),
        normal_speed(cs, vs, a, b, a) - normal_speed(cs, vs, a, b, b) <= 0,
    ensures
        pair_new_vels(cs, vs, m, a, b) == vs,
{
}

proof fn lemma_sqrt_of_square(d: int)
    ensures
        sqrt_floor(d * d) == if d < 0 {
            -d
        } else {
            d
        },
{
    let a = if d < 0 {
        -d
    } else {
        d
    };
    assert(a * a == d * d && a * a >= 0 && (a + 1) * (a + 1) > d * d) by (nonlinear_arith)
        requires
            a == if d < 0 {
                -d
            } else {
                d
            },
    ;
    lemma_sqrt_floor_unique(d * d, a);
}

/// Head-on elastic collision of equal radii: the normal (x-axis) velocity
/// components are exchanged exactly and the tangential components are kept,
/// so the normal-component momentum proxy is conserved.
pub proof fn lemma_head_on_swap(cs: Seq<Circle>, vs: Seq<CircleVelocity>, m: int, a: int, b: int)
    requires
        0 <= a < cs.len(),
        0 <= b < cs.len(),
        a != b,
        vs.len() == cs.len(),
        1 <= m,
        cs[a].r == cs[b].r,
        1 <= cs[a].r,
        cs[a].y == cs[b].y,
        cs[a].x != cs[b].x,
        circles_overlap(
            cs[a].x as int,
            cs[a].y as int,
            cs[a].r as int,
            cs[b].x as int,
            cs[b].y as int,
            cs[b].r as int,
        ),
        -m <= vs[a].vx <= m,
        -m <= vs[a].vy <= m,
        -m <= vs[b].vx <= m,
        -m <= vs[b].vy <= m,
        if cs[b].x > cs[a].x {
            vs[a].vx - vs[b].vx > 0
        } else {
            vs[b].vx - vs[a].vx > 0
        },
    ensures
        pair_new_vels(cs, vs, m, a, b)[a].vx == vs[b].vx,
        pair_new_vels(cs, vs, m, a, b)[a].vy == vs[a].vy,
        pair_new_vels(cs, vs, m, a, b)[b].vx == vs[a].vx,
        pair_new_vels(cs, vs, m, a, b)[b].vy == vs[b].vy,
        forall|k: int|
            0 <= k < vs.len() && k != a && k != b ==> #[trigger] pair_new_vels(cs, vs, m, a, b)[k]
                == vs[k],
{
    let dx = contact_dx(cs, a, b);
    let dy = contact_dy(cs, a, b);
    let len = contact_len(cs, a, b);
    assert(dy == 0);
    assert(sq(dy) == 0);
    lemma_sqrt_of_square(dx);
    assert(len == if dx < 0 {
        -dx
    } else {
        dx
    });
    let vxa = vs[a].vx as int;
    let vxb = vs[b].vx as int;
    let cui = normal_speed(cs, vs, a, b, a);
    let cuj = normal_speed(cs, vs, a, b, b);
    if dx > 0 {
        assert(dx * vxa + dy * vs[a].vy == vxa * len) by (nonlinear_arith)
            requires
                dx == len,
                dy == 0,
                vxa == vs[a].vx as int,
        ;
        assert(dx * vxb + dy * vs[b].vy == vxb * len) by (nonlinear_arith)
            requires
                dx == len,
                dy == 0,
                vxb == vs[b].vx as int,
        ;
        lemma_tdiv_exact(vxa, len);
        lemma_tdiv_exact(vxb, len);
        assert(cui == vxa && cuj == vxb);
    } else {
        assert(dx * vxa + dy * vs[a].vy == (-vxa) * len) by (nonlinear_arith)
            requires
                dx == -len,
                dy == 0,
                vxa == vs[a].vx as int,
        ;
        assert(dx * vxb + dy * vs[b].vy == (-vxb) * len) by (nonlinear_arith)
            requires
                dx == -len,
                dy == 0,
                vxb == vs[b].vx as int,
        ;
        lemma_tdiv_exact(-vxa, len);
        lemma_tdiv_exact(-vxb, len);
        assert(cui == -vxa && cuj == -vxb);
    }
    assert(cui - cuj > 0);
    let ms = cs[a].r as int + cs[b].r as int;
    let md = cs[a].r as int - cs[b].r as int;
    assert(md == 0);
    assert(cui * md + 2 * cs[b].r * cuj == cuj * ms) by (nonlinear_arith)
        requires
            md == 0,
            ms == 2 * cs[b].r as int,
    ;
    assert(2 * cs[a].r * cui - cuj * md == cui * ms) by (nonlinear_arith)
        requires
            md == 0,
            ms == 2 * cs[a].r as int,
    ;
    lemma_tdiv_exact(cuj, ms);
    lemma_tdiv_exact(cui, ms);
    let dvi = cuj - cui;
    let dvj = cui - cuj;
    if dx > 0 {
        assert(dx * dvi == dvi * len) by (nonlinear_arith)
            requires
                dx == len,
        ;
        assert(dx * dvj == dvj * len) by (nonlinear_arith)
            requires
                dx == len,
        ;
        lemma_tdiv_exact(dvi, len);
        lemma_tdiv_exact(dvj, len);
    } else {
        assert(dx * dvi == (-dvi) * len) by (nonlinear_arith)
            requires
                dx == -len,
        ;
        assert(dx * dvj == (-dvj) * len) by (nonlinear_arith)
            requires
                dx == -len,
        ;
        lemma_tdiv_exact(-dvi, len);
        lemma_tdiv_exact(-dvj, len);
    }
    assert(dy * dvi == 0) by (nonlinear_arith)
        requires
            dy == 0,
    ;
    assert(dy * dvj == 0) by (nonlinear_arith)
        requires
            dy == 0,
    ;
    assert(tdiv(0, len) == 0);
}

/// Tests the pair `(a, b)` and applies the impulse exactly as
/// `pair_new_vels` describes.
pub fn apply_pair(circles: &Vec<Circle>, vels: &mut Vec<CircleVelocity>, a: usize, b: usize, width: i64, height: i64, m: i64)
    requires
        a < circles@.len(),
        b < circles@.len(),
        old(vels)@.len() == circles@.len(),
        dims_ok(width as int, height as int),
        1 <= m <= MAX_SPEED_LIMIT,
        body_pos_ok(circles@[a as int], width as int, height as int, m as int),
        body_pos_ok(circles@[b as int], width as int, height as int, m as int),
        -m <= old(vels)@[a as int].vx <= m,
        -m <= old(vels)@[a as int].vy <= m,
        -m <= old(vels)@[b as int].vx <= m,
        -m <= old(vels)@[b as int].vy <= m,
    ensures
        final(vels)@ == pair_new_vels(circles@, old(vels)@, m as int, a as int, b as int),
{
    let ca = circles[a];
    let cb = circles[b];
    let hit = detect_circle_collision(ca.x, ca.y, ca.r, cb.x, cb.y, cb.r);
    if !hit {
        return ;
    }
    let dx = cb.x - ca.x;
    let dy = cb.y - ca.y;
    proof {
        lemma_abs_mul_le(dx as int, dx as int, 102_000_000, 102_000_000);
        lemma_abs_mul_le(dy as int, dy as int, 102_000_000, 102_000_000);
        assert(dx as int * dx as int >= 0 && dy as int * dy as int >= 0) by (nonlinear_arith);
    }
    let d2 = dx * dx + dy * dy;
    let len64 = isqrt(d2 as u64);
    proof {
        lemma_sqrt_floor_props(d2 as int);
        assert(sqrt_floor(d2 as int) <= 150_000_000) by {
            if sqrt_floor(d2 as int) > 150_000_000 {
                assert(sq(sqrt_floor(d2 as int)) > 20_808_000_000_000_000) by (nonlinear_arith)
                    requires
                        sqrt_floor(d2 as int) > 150_000_000,
                ;
            }
        }
    }
    let len = len64 as i64;
    if len == 0 {
        return ;
    }
    let va = *vec_ref(vels, a);
    let vb = *vec_ref(vels, b);
    let ghost dxi = dx as int;
    let ghost dyi = dy as int;
    let ghost leni = len as int;
    let ghost mi = m as int;
    proof {
        lemma_abs_le_sqrt(dxi, d2 as int);
        lemma_abs_le_sqrt(dyi, d2 as int);
        lemma_abs_mul_le(dxi, va.vx as int, 102_000_000, 1_000_000);
        lemma_abs_mul_le(dyi, va.vy as int, 102_000_000, 1_000_000);
        lemma_abs_mul_le(dxi, vb.vx as int, 102_000_000, 1_000_000);
        lemma_abs_mul_le(dyi, vb.vy as int, 102_000_000, 1_000_000);
        lemma_abs_mul_le(dxi, va.vx as int, leni, mi);
        lemma_abs_mul_le(dyi, va.vy as int, leni, mi);
        lemma_abs_mul_le(dxi, vb.vx as int, leni, mi);
        lemma_abs_mul_le(dyi, vb.vy as int, leni, mi);
        assert((2 * mi) * leni == leni * mi + leni * mi) by (nonlinear_arith);
    }
    let cui = trunc_div(dx * va.vx + dy * va.vy, len);
    let cuj = trunc_div(dx * vb.vx + dy * vb.vy, len);
    proof {
        lemma_tdiv_bound(dxi * va.vx as int + dyi * va.vy as int, leni, 2 * mi);
        lemma_tdiv_bound(dxi * vb.vx as int + dyi * vb.vy as int, leni, 2 * mi);
    }
    if cui - cuj <= 0 {
        return ;
    }
    let ms = ca.r + cb.r;
    let md = ca.r - cb.r;
    let ghost msi = ms as int;
    proof {
        lemma_abs_mul_le(cui as int, md as int, 2_000_000, 100_000_000);
        lemma_abs_mul_le(2 * cb.r as int, cuj as int, 100_000_000, 2_000_000);
        lemma_abs_mul_le(2 * ca.r as int, cui as int, 100_000_000, 2_000_000);
        lemma_abs_mul_le(cuj as int, md as int, 2_000_000, 100_000_000);
        lemma_abs_mul_le(cui as int, md as int, 2 * mi, msi);
        lemma_abs_mul_le(2 * cb.r as int, cuj as int, 2 * msi, 2 * mi);
        lemma_abs_mul_le(2 * ca.r as int, cui as int, 2 * msi, 2 * mi);
        lemma_abs_mul_le(cuj as int, md as int, 2 * mi, msi);
        assert((2 * mi) * msi + (2 * msi) * (2 * mi) <= (6 * mi) * msi) by (nonlinear_arith)
            requires
                mi >= 1,
                msi >= 2,
        ;
    }
    let cvi = trunc_div(cui * md + 2 * cb.r * cuj, ms);
    let cvj = trunc_div(2 * ca.r * cui - cuj * md, ms);
    proof {
        lemma_tdiv_bound(cui as int * md as int + 2 * cb.r as int * cuj as int, msi, 6 * mi);
        lemma_tdiv_bound(2 * ca.r as int * cui as int - cuj as int * md as int, msi, 6 * mi);
    }
    let dvi = cvi - cui;
    let dvj = cvj - cuj;
    proof {
        lemma_abs_mul_le(dxi, dvi as int, 102_000_000, 8_000_000);
        lemma_abs_mul_le(dyi, dvi as int, 102_000_000, 8_000_000);
        lemma_abs_mul_le(dxi, dvj as int, 102_000_000, 8_000_000);
        lemma_abs_mul_le(dyi, dvj as int, 102_000_000, 8_000_000);
        lemma_abs_mul_le(dxi, dvi as int, leni, 8 * mi);
        lemma_abs_mul_le(dyi, dvi as int, leni, 8 * mi);
        lemma_abs_mul_le(dxi, dvj as int, leni, 8 * mi);
        lemma_abs_mul_le(dyi, dvj as int, leni, 8 * mi);
        assert(leni * (8 * mi) == (8 * mi) * leni) by (nonlinear_arith);
        lemma_tdiv_bound(dxi * dvi as int, leni, 8 * mi);
        lemma_tdiv_bound(dyi * dvi as int, leni, 8 * mi);
        lemma_tdiv_bound(dxi * dvj as int, leni, 8 * mi);
        lemma_tdiv_bound(dyi * dvj as int, leni, 8 * mi);
    }
    let nvax = clamp_i64(va.vx + trunc_div(dx * dvi, len), m);
    let nvay = clamp_i64(va.vy + trunc_div(dy * dvi, len), m);
    let nvbx = clamp_i64(vb.vx + trunc_div(dx * dvj, len), m);
    let nvby = clamp_i64(vb.vy + trunc_div(dy * dvj, len), m);
    vels.set(a, CircleVelocity { vx: nvax, vy: nvay });
    vels.set(b, CircleVelocity { vx: nvbx, vy: nvby });
}

/// Reads one velocity entry.
fn vec_ref(vels: &Vec<CircleVelocity>, i: usize) -> (v: &CircleVelocity)
    requires
        i < vels@.len(),
    ensures
        *v == vels@[i as int],
{
    &vels[i]
}

/// Each component of the contact vector is bounded by the contact length.
proof fn lemma_abs_le_sqrt(d: int, n: int)
    requires
        0 <= n,
        d * d <= n,
    ensures
        -sqrt_floor(n) <= d <= sqrt_floor(n),
{
    lemma_sqrt_floor_props(n);
    let s = sqrt_floor(n);
    if d > s || d < -s {
        assert(d * d >= (s + 1) * (s + 1)) by (nonlinear_arith)
            requires
                0 <= s,
                d > s || d < -s,
        ;
        assert(sq(s + 1) > n);
    }
}

} // verus!
