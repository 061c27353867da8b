//! Rejection-sampling placement: `init` walks a host-supplied stream of
//! sampled candidates and accepts, in order, each one that lies fully inside
//! the viewport and overlaps no body accepted before it, until every slot is
//! filled or the stream runs out.

use vstd::prelude::*;
use crate::geometry::{circles_overlap, detect_circle_collision, lemma_overlap_symmetric};
use crate::num::MAX_DIM;
use crate::state::{bodies_in_box, body_ok, dims_ok, state_wf, State};
use crate::types::{Candidate, Circle, CircleVelocity, SimError};

verus! {

/// A candidate acceptable for viewport `w x h` under speed bound `m`:
/// fully inside the viewport (radius included) and not faster than `m`.
pub open spec fn candidate_ok(c: Candidate, w: int, h: int, m: int) -> bool {
    &&& 1 <= c.r
    &&& c.r <= c.x
    &&& c.x + c.r <= w
    &&& c.r <= c.y
    &&& c.y + c.r <= h
    &&& -m <= c.vx <= m
    &&& -m <= c.vy <= m
}

/// The circle a candidate would place.
pub open spec fn circle_of(c: Candidate) -> Circle {
    Circle { x: c.x, y: c.y, r: c.r }
}

/// The starting velocity a candidate carries.
pub open spec fn vel_of(c: Candidate) -> CircleVelocity {
    CircleVelocity { vx: c.vx, vy: c.vy }
}

pub open spec fn circles_of(cands: Seq<Candidate>) -> Seq<Circle> {
    cands.map_values(|c: Candidate| circle_of(c))
}

pub open spec fn vels_of(cands: Seq<Candidate>) -> Seq<CircleVelocity> {
    cands.map_values(|c: Candidate| vel_of(c))
}

/// Candidate `c` overlaps none of the already placed circles.
pub open spec fn clear_of_all(c: Candidate, placed: Seq<Circle>) -> bool {
    forall|j: int|
        0 <= j < placed.len() ==> !circles_overlap(
            c.x as int,
            c.y as int,
            c.r as int,
            (#[trigger] placed[j]).x as int,
            placed[j].y as int,
            placed[j].r as int,
        )
}

/// No two distinct placed circles overlap.
pub open spec fn pairwise_clear(cs: Seq<Circle>) -> bool {
    forall|i: int, j: int|
        0 <= i < cs.len() && 0 <= j < cs.len() && i != j ==> !circles_overlap(
            (#[trigger] cs[i]).x as int,
            cs[i].y as int,
            cs[i].r as int,
            (#[trigger] cs[j]).x as int,
            cs[j].y as int,
            cs[j].r as int,
        )
}

/// A circle lies fully inside the `w x h` viewport.
pub open spec fn circle_in_viewport(c: Circle, w: int, h: int) -> bool {
    &&& 1 <= c.r
    &&& c.r <= c.x
    &&& c.x + c.r <= w
    &&& c.r <= c.y
    &&& c.y + c.r <= h
}

/// The candidates accepted among the first `t`, greedily in order, capped at
/// `count`: a candidate is taken iff slots remain, it is acceptable, and it
/// is clear of everything taken before it.
pub open spec fn accepted_upto(cands: Seq<Candidate>, w: int, h: int, m: int, count: int, t: int) -> Seq<Candidate>
    decreases t,
{
    if t <= 0 {
        Seq::empty()
    } else {
        let prev = accepted_upto(cands, w, h, m, count, t - 1);
        let c = cands[t - 1];
        if prev.len() < count && candidate_ok(c, w, h, m) && clear_of_all(c, circles_of(prev)) {
            prev.push(c)
        } else {
            prev
        }
    }
}

/// The result `init` owes: errors in order of precedence, else success.
pub open spec fn init_outcome(s: &State, w: int, h: int, cands: Seq<Candidate>) -> Result<(), SimError> {
    if s.circles@.len() != 0 {
        Err(SimError::AlreadyInitialized)
    } else if !dims_ok(w, h) {
        Err(SimError::InvalidDimensions)
    } else if accepted_upto(cands, w, h, s.max_speed as int, s.circle_count as int, cands.len() as int).len() < s.circle_count {
        Err(SimError::InitializationExhausted)
    } else {
        Ok(())
    }
}

proof fn lemma_accepted_le_count(cands: Seq<Candidate>, w: int, h: int, m: int, count: int, t: int)
    requires
        0 <= count,
    ensures
        accepted_upto(cands, w, h, m, count, t).len() <= count,
    decreases t,
{
    if t > 0 {
        lemma_accepted_le_count(cands, w, h, m, count, t - 1);
    }
}

/// Fills every body slot from the candidate stream, or reports why it
/// cannot; on any error the state is left exactly as it was.
///
/// On success the placed bodies are precisely the greedily accepted
/// candidates: each lies fully inside the viewport and no two overlap.
pub fn init(state: &mut State, width: i64, height: i64, candidates: &Vec<Candidate>) -> (res: Result<(), SimError>)
    requires
        state_wf(old(state)),
    ensures
        state_wf(final(state)),
        final(state).circle_count == old(state).circle_count,
        final(state).grid_width == old(state).grid_width,
        final(state).grid_height == old(state).grid_height,
        final(state).gravity == old(state).gravity,
        final(state).max_speed == old(state).max_speed,
        final(state).grid@ == old(state).grid@,
        res == init_outcome(old(state), width as int, height as int, candidates@),
        res is Err ==> final(state).circles@ == old(state).circles@
            && final(state).circle_velocities@ == old(state).circle_velocities@,
        res is Ok ==> {
            let acc = accepted_upto(
                candidates@,
                width as int,
                height as int,
                old(state).max_speed as int,
                old(state).circle_count as int,
                candidates@.len() as int,
            );
            final(state).circles@ == circles_of(acc) && final(state).circle_velocities@
                == vels_of(acc)
        },
        res is Ok ==> final(state).circles@.len() == old(state).circle_count,
        res is Ok ==> pairwise_clear(final(state).circles@),
        res is Ok ==> forall|i: int|
            0 <= i < final(state).circles@.len() ==> circle_in_viewport(
                #[trigger] final(state).circles@[i],
                width as int,
                height as int,
            ),
        res is Ok ==> bodies_in_box(final(state), width as int, height as int),
{
    if state.circles.len() != 0 {
        return Err(SimError::AlreadyInitialized);
    }
    if width < 1 || width > MAX_DIM || height < 1 || height > MAX_DIM {
        return Err(SimError::InvalidDimensions);
    }
    let m = state.max_speed;
    let count = state.circle_count;
    let ghost w = width as int;
    let ghost h = height as int;
    let ghost mi = m as int;
    let ghost ci = count as int;
    let mut placed: Vec<Circle> = Vec::new();
    let mut vels: Vec<CircleVelocity> = Vec::new();
    let mut t: usize = 0;
    proof {
        assert(placed@ =~= circles_of(accepted_upto(candidates@, w, h, mi, ci, 0)));
        assert(vels@ =~= vels_of(accepted_upto(candidates@, w, h, mi, ci, 0)));
    }
    while t < candidates.len()
        invariant
            t <= candidates@.len(),
            dims_ok(w, h),
            w == width as int,
            h == height as int,
            mi == m as int,
            ci == count as int,
            1 <= m,
            placed@ == circles_of(accepted_upto(candidates@, w, h, mi, ci, t as int)),
            vels@ == vels_of(accepted_upto(candidates@, w, h, mi, ci, t as int)),
            placed@.len() == vels@.len(),
            placed@.len() <= count,
            pairwise_clear(placed@),
            forall|i: int|
                0 <= i < placed@.len() ==> circle_in_viewport(#[trigger] placed@[i], w, h),
            forall|i: int|
                0 <= i < vels@.len() ==> -mi <= (#[trigger] vels@[i]).vx <= mi && -mi
                    <= vels@[i].vy <= mi,
        decreases candidates@.len() - t,
    {
        let c = candidates[t];
        let ghost prev = accepted_upto(candidates@, w, h, mi, ci, t as int);
        let in_bounds = c.r >= 1 && c.x >= c.r && c.x <= width - c.r && c.y >= c.r && c.y
            <= height - c.r && c.vx >= -m && c.vx <= m && c.vy >= -m && c.vy <= m;
        proof {
            assert(in_bounds == candidate_ok(c, w, h, mi));
        }
        let mut clear = true;
        if in_bounds {
            let mut j: usize = 0;
            while j < placed.len()
                invariant
                    j <= placed@.len(),
                    candidate_ok(c, w, h, mi),
                    dims_ok(w, h),
                    w == width as int,
                    h == height as int,
                    forall|i: int|
                        0 <= i < placed@.len() ==> circle_in_viewport(
                            #[trigger] placed@[i],
                            w,
                            h,
                        ),
                    clear <==> (forall|k: int|
                        0 <= k < j ==> !circles_overlap(
                            c.x as int,
                            c.y as int,
                            c.r as int,
                            (#[trigger] placed@[k]).x as int,
                            placed@[k].y as int,
                            placed@[k].r as int,
                        )),
                decreases placed@.len() - j,
            {
                let p = placed[j];
                let hit = detect_circle_collision(c.x, c.y, c.r, p.x, p.y, p.r);
                if hit {
                    clear = false;
                }
                j = j + 1;
            }
        }
        let accept = in_bounds && clear && placed.len() < count;
        proof {
            assert(accept == (prev.len() < ci && candidate_ok(c, w, h, mi) && clear_of_all(
                c,
                circles_of(prev),
            )));
        }
        if accept {
            placed.push(Circle { x: c.x, y: c.y, r: c.r });
            vels.push(CircleVelocity { vx: c.vx, vy: c.vy });
            proof {
                assert(circles_of(prev.push(c)) =~= circles_of(prev).push(circle_of(c)));
                assert(vels_of(prev.push(c)) =~= vels_of(prev).push(vel_of(c)));
                let n = placed@.len() - 1;
                assert forall|i: int, j2: int|
                    0 <= i < placed@.len() && 0 <= j2 < placed@.len() && i != j2 implies !circles_overlap(
                    (#[trigger] placed@[i]).x as int,
                    placed@[i].y as int,
                    placed@[i].r as int,
                    (#[trigger] placed@[j2]).x as int,
                    placed@[j2].y as int,
                    placed@[j2].r as int,
                ) by {
                    if i == n {
                        assert(!circles_overlap(
                            c.x as int,
                            c.y as int,
                            c.r as int,
                            placed@[j2].x as int,
                            placed@[j2].y as int,
                            placed@[j2].r as int,
                        ));
                    } else if j2 == n {
                        assert(!circles_overlap(
                            c.x as int,
                            c.y as int,
                            c.r as int,
                            placed@[i].x as int,
                            placed@[i].y as int,
                            placed@[i].r as int,
                        ));
                        lemma_overlap_symmetric(
                            c.x as int,
                            c.y as int,
                            c.r as int,
                            placed@[i].x as int,
                            placed@[i].y as int,
                            placed@[i].r as int,
                        );
                    }
                }
            }
        }
        t = t + 1;
    }
    proof {
        lemma_accepted_le_count(candidates@, w, h, mi, ci, candidates@.len() as int);
    }
    if placed.len() < count {
        return Err(SimError::InitializationExhausted);
    }
    state.circles = placed;
    state.circle_velocities = vels;
    Ok(())
}

} // verus!
