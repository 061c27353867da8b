use circle_sim::{
    detect_circle_collision, get_circle_count, get_circle_data_offset, init, new_state, time_step,
    Candidate, SimError, State,
};

fn cand(x: i64, y: i64, r: i64, vx: i64, vy: i64) -> Candidate {
    Candidate { x, y, r, vx, vy }
}

fn two_body_state(a: Candidate, b: Candidate, w: i64, h: i64, max_speed: i64) -> State {
    let mut s = new_state(2, 10, 10, 0, max_speed);
    let res = init(&mut s, w, h, &vec![a, b]);
    assert!(res.is_ok());
    s
}

#[test]
fn overlap_is_symmetric_on_samples() {
    let samples = [
        (0i64, 0i64, 3i64, 3i64, 4i64, 2i64),
        (0, 0, 2, 3, 4, 2),
        (10, 50, 5, 30, 50, 5),
        (7, -2, 1, 7, -2, 9),
        (-5, 3, 4, 6, -8, 2),
    ];
    for &(x1, y1, r1, x2, y2, r2) in samples.iter() {
        assert_eq!(
            detect_circle_collision(x1, y1, r1, x2, y2, r2),
            detect_circle_collision(x2, y2, r2, x1, y1, r1)
        );
    }
}

#[test]
fn overlap_boundary_is_inclusive() {
    // Distance 5 (3-4-5 triangle), radius sum exactly 5: touching counts.
    assert!(detect_circle_collision(0, 0, 3, 3, 4, 2));
    // Radius sum 4, distance 5: apart by one unit.
    assert!(!detect_circle_collision(0, 0, 2, 3, 4, 2));
    // On one axis: distance 10 equals the radius sum.
    assert!(detect_circle_collision(0, 0, 5, 10, 0, 5));
    assert!(!detect_circle_collision(0, 0, 5, 11, 0, 5));
}

#[test]
fn init_places_nonoverlapping_bodies_in_bounds() {
    let mut s = new_state(3, 10, 10, 0, 10);
    let candidates = vec![
        cand(5, 5, 6, 0, 0),     // rejected: wider than the viewport allows
        cand(20, 20, 5, 0, 0),   // accepted
        cand(95, 5, 10, 0, 0),   // rejected: juts past the right edge
        cand(22, 20, 5, 0, 0),   // rejected: overlaps the first accepted body
        cand(60, 60, 8, 0, 0),   // accepted
        cand(20, 80, 4, 0, 0),   // accepted
    ];
    let res = init(&mut s, 100, 100, &candidates);
    assert!(res.is_ok());
    let bodies = get_circle_data_offset(&s);
    assert_eq!(bodies.len(), 3);
    assert_eq!(get_circle_count(&s), 3);
    for b in bodies.iter() {
        assert!(b.r >= 1);
        assert!(b.x - b.r >= 0 && b.x + b.r <= 100);
        assert!(b.y - b.r >= 0 && b.y + b.r <= 100);
    }
    for i in 0..bodies.len() {
        for j in 0..bodies.len() {
            if i != j {
                let (a, b) = (&bodies[i], &bodies[j]);
                assert!(!detect_circle_collision(a.x, a.y, a.r, b.x, b.y, b.r));
            }
        }
    }
    assert_eq!((bodies[0].x, bodies[0].y, bodies[0].r), (20, 20, 5));
    assert_eq!((bodies[1].x, bodies[1].y, bodies[1].r), (60, 60, 8));
    assert_eq!((bodies[2].x, bodies[2].y, bodies[2].r), (20, 80, 4));
}

#[test]
fn init_rejects_bad_dimensions() {
    let mut s = new_state(1, 10, 10, 0, 10);
    let cands = vec![cand(50, 50, 5, 0, 0)];
    assert_eq!(init(&mut s, 0, 100, &cands), Err(SimError::InvalidDimensions));
    assert_eq!(init(&mut s, 100, -3, &cands), Err(SimError::InvalidDimensions));
    assert_eq!(s.circles.len(), 0);
}

#[test]
fn init_rejects_second_initialization() {
    let mut s = new_state(1, 10, 10, 0, 10);
    let cands = vec![cand(50, 50, 5, 0, 0)];
    assert_eq!(init(&mut s, 100, 100, &cands), Ok(()));
    assert_eq!(init(&mut s, 100, 100, &cands), Err(SimError::AlreadyInitialized));
    assert_eq!(s.circles.len(), 1);
}

#[test]
fn init_reports_exhausted_candidates() {
    let mut s = new_state(3, 10, 10, 0, 10);
    // Only two acceptable candidates for three slots.
    let cands = vec![cand(20, 20, 5, 0, 0), cand(2, 2, 5, 0, 0), cand(60, 60, 5, 0, 0)];
    assert_eq!(init(&mut s, 100, 100, &cands), Err(SimError::InitializationExhausted));
    // The state is untouched and a later attempt may succeed.
    assert_eq!(s.circles.len(), 0);
    let more = vec![cand(20, 20, 5, 0, 0), cand(60, 60, 5, 0, 0), cand(20, 80, 5, 0, 0)];
    assert_eq!(init(&mut s, 100, 100, &more), Ok(()));
    assert_eq!(s.circles.len(), 3);
}

#[test]
fn step_rejects_bad_dimensions() {
    let mut s = two_body_state(cand(20, 20, 5, 1, 0), cand(60, 60, 5, 0, 1), 100, 100, 10);
    let before: Vec<(i64, i64)> = s.circles.iter().map(|c| (c.x, c.y)).collect();
    assert_eq!(time_step(&mut s, 0, 100), Err(SimError::InvalidDimensions));
    let after: Vec<(i64, i64)> = s.circles.iter().map(|c| (c.x, c.y)).collect();
    assert_eq!(before, after);
}

#[test]
fn head_on_equal_radii_swaps_velocities_exactly() {
    // Two equal bodies closing head-on; at contact distance the horizontal
    // velocities are exchanged exactly.
    let mut s = two_body_state(cand(10, 50, 5, 1, 0), cand(30, 50, 5, -1, 0), 100, 100, 10);
    for _ in 0..5 {
        assert_eq!(time_step(&mut s, 100, 100), Ok(()));
    }
    // After five ticks they touch: centers at 15 and 25, distance 10 = r+r.
    assert_eq!((s.circles[0].x, s.circles[0].y), (15, 50));
    assert_eq!((s.circles[1].x, s.circles[1].y), (25, 50));
    assert_eq!((s.circle_velocities[0].vx, s.circle_velocities[0].vy), (-1, 0));
    assert_eq!((s.circle_velocities[1].vx, s.circle_velocities[1].vy), (1, 0));
    // The next tick moves them apart again.
    assert_eq!(time_step(&mut s, 100, 100), Ok(()));
    assert_eq!(s.circles[0].x, 14);
    assert_eq!(s.circles[1].x, 26);
}

#[test]
fn head_on_vertical_pair_swaps_velocities_exactly() {
    // The same exchange along the vertical axis, no gravity.
    let mut s = two_body_state(cand(50, 20, 5, 0, 2), cand(50, 40, 5, 0, -2), 100, 100, 10);
    for _ in 0..3 {
        assert_eq!(time_step(&mut s, 100, 100), Ok(()));
    }
    // Centers at 26 and 34: distance 8 < 10, approaching: swap.
    assert_eq!((s.circles[0].y, s.circles[1].y), (26, 34));
    assert_eq!((s.circle_velocities[0].vy, s.circle_velocities[1].vy), (-2, 2));
    assert_eq!((s.circle_velocities[0].vx, s.circle_velocities[1].vx), (0, 0));
}

#[test]
fn separating_overlapping_pair_keeps_velocities() {
    // The bodies overlap but already move apart: resolution must not touch
    // their velocities.
    let mut s = two_body_state(cand(50, 50, 5, -1, 0), cand(70, 50, 5, 1, 0), 100, 100, 10);
    // Overlap cannot come from `init`; put it there through the live view.
    s.circles[1].x = 56;
    assert_eq!(time_step(&mut s, 100, 100), Ok(()));
    assert_eq!((s.circle_velocities[0].vx, s.circle_velocities[1].vx), (-1, 1));
    assert_eq!((s.circles[0].x, s.circles[1].x), (49, 57));
    assert_eq!(time_step(&mut s, 100, 100), Ok(()));
    assert_eq!((s.circle_velocities[0].vx, s.circle_velocities[1].vx), (-1, 1));
    assert_eq!((s.circles[0].x, s.circles[1].x), (48, 58));
}

#[test]
fn unequal_radii_impulse_matches_formula_and_conserves_momentum_proxy() {
    // After one tick: centers 49 and 52, distance 3, overlap (radius sum 6).
    // cui = 2, cuj = -1, masses 2 and 4: exact new velocities -2 and 1.
    let mut s = two_body_state(cand(47, 50, 2, 2, 0), cand(60, 50, 4, -1, 0), 100, 100, 10);
    s.circles[1].x = 53;
    let before_proxy =
        s.circles[0].r * s.circle_velocities[0].vx + s.circles[1].r * s.circle_velocities[1].vx;
    assert_eq!(time_step(&mut s, 100, 100), Ok(()));
    assert_eq!((s.circle_velocities[0].vx, s.circle_velocities[0].vy), (-2, 0));
    assert_eq!((s.circle_velocities[1].vx, s.circle_velocities[1].vy), (1, 0));
    let after_proxy =
        s.circles[0].r * s.circle_velocities[0].vx + s.circles[1].r * s.circle_velocities[1].vx;
    assert_eq!(before_proxy, after_proxy);
}

#[test]
fn centers_stay_in_coarse_box_over_many_ticks() {
    // Gravity pulls the bodies down; reflection keeps every center within
    // one viewport of the viewport across hundreds of ticks.
    let mut s = new_state(4, 10, 10, 1, 20);
    let cands = vec![
        cand(20, 20, 5, 3, -2),
        cand(60, 30, 8, -4, 1),
        cand(30, 70, 6, 2, 3),
        cand(80, 80, 4, -1, -5),
    ];
    assert_eq!(init(&mut s, 100, 100, &cands), Ok(()));
    for _ in 0..300 {
        assert_eq!(time_step(&mut s, 100, 100), Ok(()));
        for c in s.circles.iter() {
            assert!(-100 <= c.x && c.x <= 200);
            assert!(-100 <= c.y && c.y <= 200);
        }
    }
}

#[test]
fn grid_and_naive_detection_find_the_same_pairs() {
    // A still configuration: bodies smaller than one grid cell, some pairs
    // overlapping. Every pair the naive all-pairs test reports must share a
    // grid cell, and every overlapping pair sharing a cell is the same set.
    let mut s = new_state(4, 5, 5, 0, 10);
    let cands = vec![
        cand(20, 20, 5, 0, 0),
        cand(60, 60, 8, 0, 0),
        cand(30, 70, 6, 0, 0),
        cand(80, 20, 4, 0, 0),
    ];
    assert_eq!(init(&mut s, 100, 100, &cands), Ok(()));
    // Move two bodies into overlap by hand: the stores are a read/write view.
    s.circles[2].x = 55;
    s.circles[2].y = 62;
    // One tick with zero velocities and zero gravity only rebuilds the grid.
    assert_eq!(time_step(&mut s, 100, 100), Ok(()));
    let n = s.circles.len();
    let mut naive: Vec<(usize, usize)> = Vec::new();
    for i in 0..n {
        for j in (i + 1)..n {
            let (a, b) = (&s.circles[i], &s.circles[j]);
            if detect_circle_collision(a.x, a.y, a.r, b.x, b.y, b.r) {
                naive.push((i, j));
            }
        }
    }
    assert_eq!(naive, vec![(1, 2)]);
    let mut shares_cell = vec![vec![false; n]; n];
    for col in s.grid.iter() {
        for cell in col.iter() {
            for k in 0..cell.len() {
                for l in (k + 1)..cell.len() {
                    shares_cell[cell[k] as usize][cell[l] as usize] = true;
                    shares_cell[cell[l] as usize][cell[k] as usize] = true;
                }
            }
        }
    }
    let mut gridded: Vec<(usize, usize)> = Vec::new();
    for i in 0..n {
        for j in (i + 1)..n {
            let (a, b) = (&s.circles[i], &s.circles[j]);
            if shares_cell[i][j] && detect_circle_collision(a.x, a.y, a.r, b.x, b.y, b.r) {
                gridded.push((i, j));
            }
        }
    }
    assert_eq!(naive, gridded);
}

#[test]
fn new_state_is_empty_until_initialized() {
    let s = new_state(5, 7, 9, 0, 10);
    assert_eq!(get_circle_count(&s), 5);
    assert_eq!(get_circle_data_offset(&s).len(), 0);
    assert_eq!(s.grid.len(), 7);
    assert_eq!(s.grid[0].len(), 9);
}

#[test]
fn gravity_accelerates_bodies_downward() {
    let mut s = new_state(1, 10, 10, 2, 100);
    assert_eq!(init(&mut s, 1000, 1000, &vec![cand(500, 100, 5, 0, 0)]), Ok(()));
    assert_eq!(time_step(&mut s, 1000, 1000), Ok(()));
    assert_eq!(s.circles[0].y, 102);
    assert_eq!(time_step(&mut s, 1000, 1000), Ok(()));
    assert_eq!(s.circles[0].y, 106);
    assert_eq!(s.circle_velocities[0].vy, 4);
}

#[test]
fn reflection_turns_outward_motion_around() {
    // A body grazing the right edge moving right gets its velocity negated
    // before it integrates; no positional snap-back happens.
    let mut s = new_state(1, 10, 10, 0, 10);
    assert_eq!(init(&mut s, 100, 100, &vec![cand(94, 50, 5, 3, 0)]), Ok(()));
    assert_eq!(time_step(&mut s, 100, 100), Ok(()));
    // 94 + 5 + 3 would pass 100 only after moving; the edge test uses the
    // pre-step position 94+5 <= 100, so the body still moves right once.
    assert_eq!(s.circles[0].x, 97);
    assert_eq!(time_step(&mut s, 100, 100), Ok(()));
    // Now 97+5 > 100 and the velocity flips: the body heads back left.
    assert_eq!(s.circles[0].x, 94);
    assert_eq!(s.circle_velocities[0].vx, -3);
}
