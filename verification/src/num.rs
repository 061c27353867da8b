//! Integer helpers shared by the simulation: squaring, clamping, floor and
//! truncating division, and an integer square root, each with an exact
//! mathematical specification.

use vstd::prelude::*;
use vstd::arithmetic::div_mod::lemma_div_is_ordered;
use vstd::arithmetic::div_mod::lemma_div_multiples_vanish;
use vstd::arithmetic::div_mod::lemma_div_pos_is_pos;
use vstd::arithmetic::div_mod::lemma_fundamental_div_mod;
use vstd::arithmetic::div_mod::lemma_fundamental_div_mod_converse;

verus! {

/// Largest viewport width or height the simulation accepts.
pub const MAX_DIM: i64 = 100_000_000;

/// Largest per-tick speed bound a state may be built with.
pub const MAX_SPEED_LIMIT: i64 = 1_000_000;

/// Largest broad-phase grid dimension (columns or rows).
pub const MAX_GRID_DIM: usize = 4096;

/// Largest number of bodies a state may be built with.
pub const MAX_COUNT: usize = 1_000_000;

pub open spec fn sq(a: int) -> int {
    a * a
}

/// Quotient of `a` by `b` rounded toward zero, for `b > 0`.
/// (The `int` operator `/` rounds toward negative infinity.)
pub open spec fn tdiv(a: int, b: int) -> int {
    if a >= 0 {
        a / b
    } else {
        -((-a) / b)
    }
}

/// `a` limited to the band `[-m, m]`.
pub open spec fn clamp_spec(a: int, m: int) -> int {
    if a > m {
        m
    } else if a < -m {
        -m
    } else {
        a
    }
}

pub fn clamp_i64(a: i64, m: i64) -> (r: i64)
    requires
        0 <= m,
    ensures
        r as int == clamp_spec(a as int, m as int),
{
    if a > m {
        m
    } else if a < -m {
        -m
    } else {
        a
    }
}

pub proof fn lemma_abs_mul_le(a: int, b: int, ka: int, kb: int)
    by (nonlinear_arith)
    requires
        -ka <= a <= ka,
        -kb <= b <= kb,
        0 <= ka,
        0 <= kb,
    ensures
        -(ka * kb) <= a * b <= ka * kb,
{
}

/// Division rounded toward negative infinity, for a positive divisor.
pub fn floor_div(a: i64, b: i64) -> (q: i64)
    requires
        1 <= b,
        -0x4000_0000_0000_0000 <= a <= 0x4000_0000_0000_0000,
    ensures
        q as int == a as int / b as int,
{
    if a >= 0 {
        let qu = (a as u64) / (b as u64);
        proof {
            lemma_div_pos_is_pos(a as int, b as int);
            lemma_div_is_ordered(a as int, 0x4000_0000_0000_0000, b as int);
            lemma_div_is_ordered(a as int / b as int, a as int, 1);
            lemma_div_is_ordered_by_one(a as int, b as int);
        }
        qu as i64
    } else {
        let na = (-a) as u64;
        let qu = na / (b as u64);
        let rem = na % (b as u64);
        proof {
            lemma_fundamental_div_mod(na as int, b as int);
            lemma_div_pos_is_pos(na as int, b as int);
            lemma_div_is_ordered_by_one(na as int, b as int);
            let q0 = na as int / b as int;
            let r0 = na as int % b as int;
            if r0 == 0 {
                assert(a as int == (-q0) * b + 0) by (nonlinear_arith)
                    requires
                        na as int == b as int * q0 + 0,
                        a as int == -(na as int),
                ;
                lemma_fundamental_div_mod_converse(a as int, b as int, -q0, 0);
            } else {
                assert(a as int == (-q0 - 1) * b + (b - r0)) by (nonlinear_arith)
                    requires
                        na as int == b as int * q0 + r0,
                        a as int == -(na as int),
                ;
                lemma_fundamental_div_mod_converse(a as int, b as int, -q0 - 1, b as int - r0);
            }
        }
        if rem == 0 {
            -(qu as i64)
        } else {
            -(qu as i64) - 1
        }
    }
}

/// `a / b <= a` for nonnegative `a` and positive `b`.
proof fn lemma_div_is_ordered_by_one(a: int, b: int)
    requires
        0 <= a,
        1 <= b,
    ensures
        0 <= a / b <= a,
{
    lemma_div_pos_is_pos(a, b);
    lemma_fundamental_div_mod(a, b);
    assert(b * (a / b) >= a / b) by (nonlinear_arith)
        requires
            b >= 1,
            a / b >= 0,
    ;
}

/// Division rounded toward zero, for a positive divisor.
pub fn trunc_div(a: i64, b: i64) -> (q: i64)
    requires
        1 <= b,
        -0x4000_0000_0000_0000 <= a <= 0x4000_0000_0000_0000,
    ensures
        q as int == tdiv(a as int, b as int),
{
    if a >= 0 {
        let qu = (a as u64) / (b as u64);
        proof {
            lemma_div_is_ordered_by_one(a as int, b as int);
        }
        qu as i64
    } else {
        let na = (-a) as u64;
        let qu = na / (b as u64);
        proof {
            lemma_div_is_ordered_by_one(na as int, b as int);
        }
        -(qu as i64)
    }
}

pub proof fn lemma_tdiv_bound(a: int, b: int, k: int)
    requires
        1 <= b,
        0 <= k,
        -(k * b) <= a <= k * b,
    ensures
        -k <= tdiv(a, b) <= k,
{
    assert(k * b == b * k) by (nonlinear_arith);
    if a >= 0 {
        lemma_div_pos_is_pos(a, b);
        lemma_div_is_ordered(a, k * b, b);
        lemma_div_multiples_vanish(k, b);
    } else {
        lemma_div_pos_is_pos(-a, b);
        lemma_div_is_ordered(-a, k * b, b);
        lemma_div_multiples_vanish(k, b);
    }
}

/// Dividing an exact multiple of `b` returns the co-factor.
pub proof fn lemma_tdiv_exact(c: int, b: int)
    requires
        1 <= b,
    ensures
        tdiv(c * b, b) == c,
{
    if c >= 0 {
        assert(c * b >= 0 && c * b == b * c) by (nonlinear_arith)
            requires
                c >= 0,
                b >= 1,
        ;
        lemma_div_multiples_vanish(c, b);
    } else {
        assert(c * b < 0) by (nonlinear_arith)
            requires
                c < 0,
                b >= 1,
        ;
        assert(-(c * b) == b * (-c)) by (nonlinear_arith);
        lemma_div_multiples_vanish(-c, b);
    }
}

/// The largest `r >= 0` with `r * r <= n` (zero for negative `n`).
pub open spec fn sqrt_floor(n: int) -> int
    decreases n,
{
    if n <= 0 {
        0
    } else {
        let p = sqrt_floor(n - 1);
        if sq(p + 1) <= n {
            p + 1
        } else {
            p
        }
    }
}

pub proof fn lemma_sqrt_floor_props(n: int)
    requires
        0 <= n,
    ensures
        0 <= sqrt_floor(n),
        sq(sqrt_floor(n)) <= n,
        sq(sqrt_floor(n) + 1) > n,
    decreases n,
{
    if n == 0 {
        assert(sq(0) == 0);
        assert(sq(1) == 1);
    } else {
        lemma_sqrt_floor_props(n - 1);
        let p = sqrt_floor(n - 1);
        if sq(p + 1) <= n {
            assert(sq(p + 2) > n) by (nonlinear_arith)
                requires
                    0 <= p,
                    sq(p + 1) > n - 1,
                    sq(p + 1) <= n,
                    sq(p + 2) == (p + 2) * (p + 2),
                    sq(p + 1) == (p + 1) * (p + 1),
            ;
        }
    }
}

pub proof fn lemma_sqrt_floor_unique(n: int, r: int)
    requires
        0 <= n,
        0 <= r,
        sq(r) <= n,
        sq(r + 1) > n,
    ensures
        r == sqrt_floor(n),
{
    lemma_sqrt_floor_props(n);
    let s = sqrt_floor(n);
    if r < s {
        assert(sq(r + 1) <= sq(s)) by (nonlinear_arith)
            requires
                0 <= r,
                r + 1 <= s,
                sq(r + 1) == (r + 1) * (r + 1),
                sq(s) == s * s,
        ;
    } else if r > s {
        assert(sq(s + 1) <= sq(r)) by (nonlinear_arith)
            requires
                0 <= s,
                s + 1 <= r,
                sq(s + 1) == (s + 1) * (s + 1),
                sq(r) == r * r,
        ;
    }
}

/// Integer square root by bisection.
pub fn isqrt(n: u64) -> (r: u64)
    requires
        n < 0x1000_0000_0000_0000,
    ensures
        r as int == sqrt_floor(n as int),
{
    let mut lo: u64 = 0;
    let mut hi: u64 = 0x4000_0000;
    proof {
        assert(sq(0x4000_0000) > n as int) by (nonlinear_arith)
            requires
                n < 0x1000_0000_0000_0000,
                sq(0x4000_0000) == 0x4000_0000 * 0x4000_0000int,
        ;
    }
    while lo + 1 < hi
        invariant
            lo < hi <= 0x4000_0000,
            sq(lo as int) <= n as int,
            sq(hi as int) > n as int,
        decreases hi - lo,
    {
        let mid = lo + (hi - lo) / 2;
        proof {
            assert(mid * mid <= 0x4000_0000 * 0x4000_0000) by (nonlinear_arith)
                requires
                    mid <= 0x4000_0000u64,
            ;
        }
        if mid * mid <= n {
            lo = mid;
        } else {
            hi = mid;
        }
    }
    proof {
        lemma_sqrt_floor_unique(n as int, lo as int);
    }
    lo
}

} // verus!
