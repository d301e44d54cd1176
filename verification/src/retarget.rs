//! The difficulty retarget rule: every adjustment interval the target
//! is rescaled by the interval's actual duration over the two-week
//! goal, with the duration clamped to a factor of four either way and
//! the result capped at the maximum target.

use vstd::prelude::*;
use vstd::arithmetic::div_mod::{
    lemma_fundamental_div_mod,
    lemma_fundamental_div_mod_converse,
};
use crate::u256::U256;

verus! {

/// Headers per difficulty adjustment interval.
pub const DIFFICULTY_ADJUSTMENT_INTERVAL: u64 = 2016;

/// The intended duration of one interval, in seconds (two weeks).
pub const TARGET_TIMESPAN: u64 = 1209600;

/// TARGET_TIMESPAN / 4.
pub const MIN_TIMESPAN: u64 = 302400;

/// TARGET_TIMESPAN * 4.
pub const MAX_TIMESPAN: u64 = 4838400;

/// The value of the unrounded maximum target, 2^224 - 1.
pub open spec fn max_target_nat() -> int {
    0x00000000ffffffffffffffffffffffffffffffffffffffffffffffffffffffffint
}

/// The largest difficulty target the schedule ever allows.
pub fn unrounded_max_target() -> (r: U256)
    ensures
        r.to_nat() == max_target_nat(),
{
    U256 {
        w0: 0xffffffffffffffff,
        w1: 0xffffffffffffffff,
        w2: 0xffffffffffffffff,
        w3: 0x00000000ffffffff,
    }
}

/// The interval's observed duration, clamped to a factor of four
/// around the goal.
pub open spec fn clamped_timespan(start_time: u32, end_time: u32) -> int {
    let d = end_time - start_time;
    if d < MIN_TIMESPAN {
        MIN_TIMESPAN as int
    } else if d > MAX_TIMESPAN {
        MAX_TIMESPAN as int
    } else {
        d
    }
}

/// The smaller of two integers.
pub open spec fn min_int(a: int, b: int) -> int {
    if a <= b {
        a
    } else {
        b
    }
}

/// The target the schedule expects after an interval that ran from
/// `start_time` to `end_time` at target `current`.
pub open spec fn next_target_spec(current: int, start_time: u32, end_time: u32) -> int {
    min_int(current * clamped_timespan(start_time, end_time) / (TARGET_TIMESPAN as int),
        max_target_nat())
}

/// Recomputes the expected target at a retarget boundary from the
/// first and last timestamps of the closing interval.
pub fn next_target(current: &U256, start_time: u32, end_time: u32) -> (r: U256)
    ensures
        r.to_nat() == next_target_spec(current.to_nat(), start_time, end_time),
{
    let d: i64 = end_time as i64 - start_time as i64;
    let t: u64 = if d < MIN_TIMESPAN as i64 {
        MIN_TIMESPAN
    } else if d > MAX_TIMESPAN as i64 {
        MAX_TIMESPAN
    } else {
        d as u64
    };
    proof {
        assert(t == clamped_timespan(start_time, end_time));
    }
    let (n0, n1, n2, n3, n4) = mul_wide(current, t);
    let (q, q4) = div_wide(n0, n1, n2, n3, n4, TARGET_TIMESPAN);
    proof {
        assert(horner5(q.w0, q.w1, q.w2, q.w3, q4) == current.to_nat() * t / (TARGET_TIMESPAN as int));
        lemma_horner_value(q.w0, q.w1, q.w2, q.w3, q4);
    }
    let maxt = unrounded_max_target();
    if q4 != 0 {
        proof {
            let b: int = 0x10000000000000000int;
            assert(q4 * b + q.w3 >= b) by (nonlinear_arith)
                requires
                    q4 >= 1,
                    q.w3 >= 0,
                    b == 0x10000000000000000int,
            ;
            assert((q4 * b + q.w3) * b + q.w2 >= b * b) by (nonlinear_arith)
                requires
                    q4 * b + q.w3 >= b,
                    q.w2 >= 0,
                    b == 0x10000000000000000int,
            ;
            assert(((q4 * b + q.w3) * b + q.w2) * b + q.w1 >= b * b * b) by (nonlinear_arith)
                requires
                    (q4 * b + q.w3) * b + q.w2 >= b * b,
                    q.w1 >= 0,
                    b == 0x10000000000000000int,
            ;
            assert((((q4 * b + q.w3) * b + q.w2) * b + q.w1) * b + q.w0 >= b * b * b * b)
                by (nonlinear_arith)
                requires
                    ((q4 * b + q.w3) * b + q.w2) * b + q.w1 >= b * b * b,
                    q.w0 >= 0,
                    b == 0x10000000000000000int,
            ;
        }
        maxt
    } else if maxt.le(&q) {
        maxt
    } else {
        q
    }
}

/// Horner form of a five-limb little-endian value.
pub open spec fn horner5(n0: u64, n1: u64, n2: u64, n3: u64, n4: u64) -> int {
    (((n4 * 0x10000000000000000int + n3) * 0x10000000000000000int + n2) * 0x10000000000000000int
        + n1) * 0x10000000000000000int + n0
}

/// The Horner form of four limbs and a zero top limb is the value of
/// the four limbs.
proof fn lemma_horner_value(n0: u64, n1: u64, n2: u64, n3: u64, n4: u64)
    ensures
        n4 == 0 ==> horner5(n0, n1, n2, n3, n4) == (U256 { w0: n0, w1: n1, w2: n2, w3: n3 }).to_nat(),
{
    if n4 == 0 {
        assert((((0x0int + n3) * 0x10000000000000000int + n2) * 0x10000000000000000int + n1)
            * 0x10000000000000000int + n0 == n0 + n1 * 0x10000000000000000int + n2
            * 0x100000000000000000000000000000000int + n3
            * 0x1000000000000000000000000000000000000000000000000int) by (nonlinear_arith);
    }
}

/// Multiplies a 256-bit value by a small factor into five limbs.
fn mul_wide(v: &U256, t: u64) -> (r: (u64, u64, u64, u64, u64))
    requires
        t <= 0x100000000,
    ensures
        horner5(r.0, r.1, r.2, r.3, r.4) == v.to_nat() * t,
        r.4 <= 0xffffffff,
{
    let b: u128 = 0x10000000000000000;
    proof {
        lemma_mul_small(v.w0, t);
        lemma_mul_small(v.w1, t);
        lemma_mul_small(v.w2, t);
        lemma_mul_small(v.w3, t);
    }
    let p0: u128 = v.w0 as u128 * t as u128;
    let n0: u64 = (p0 % b) as u64;
    let c0: u64 = (p0 / b) as u64;
    proof {
        lemma_fundamental_div_mod(p0 as int, 0x10000000000000000int);
    }
    let p1: u128 = v.w1 as u128 * t as u128 + c0 as u128;
    let n1: u64 = (p1 % b) as u64;
    let c1: u64 = (p1 / b) as u64;
    proof {
        lemma_fundamental_div_mod(p1 as int, 0x10000000000000000int);
    }
    let p2: u128 = v.w2 as u128 * t as u128 + c1 as u128;
    let n2: u64 = (p2 % b) as u64;
    let c2: u64 = (p2 / b) as u64;
    proof {
        lemma_fundamental_div_mod(p2 as int, 0x10000000000000000int);
    }
    let p3: u128 = v.w3 as u128 * t as u128 + c2 as u128;
    let n3: u64 = (p3 % b) as u64;
    let n4: u64 = (p3 / b) as u64;
    proof {
        lemma_fundamental_div_mod(p0 as int, 0x10000000000000000int);
        lemma_fundamental_div_mod(p1 as int, 0x10000000000000000int);
        lemma_fundamental_div_mod(p2 as int, 0x10000000000000000int);
        lemma_fundamental_div_mod(p3 as int, 0x10000000000000000int);
        assert(c0 <= 0xffffffff);
        assert(c1 <= 0xffffffff);
        assert(c2 <= 0xffffffff);
        assert(n4 <= 0xffffffff);
        assert(horner5(n0, n1, n2, n3, n4) == v.to_nat() * t) by (nonlinear_arith)
            requires
                p0 == v.w0 * t,
                p1 == v.w1 * t + c0,
                p2 == v.w2 * t + c1,
                p3 == v.w3 * t + c2,
                p0 == 0x10000000000000000int * c0 + n0,
                p1 == 0x10000000000000000int * c1 + n1,
                p2 == 0x10000000000000000int * c2 + n2,
                p3 == 0x10000000000000000int * n4 + n3,
                v.to_nat() == v.w0 + v.w1 * 0x10000000000000000int + v.w2
                    * 0x100000000000000000000000000000000int + v.w3
                    * 0x1000000000000000000000000000000000000000000000000int,
                horner5(n0, n1, n2, n3, n4) == (((n4 * 0x10000000000000000int + n3)
                    * 0x10000000000000000int + n2) * 0x10000000000000000int + n1)
                    * 0x10000000000000000int + n0,
        ;
    }
    (n0, n1, n2, n3, n4)
}

/// Divides a five-limb value by a small positive divisor; the result
/// is four limbs plus a top limb.
fn div_wide(n0: u64, n1: u64, n2: u64, n3: u64, n4: u64, d: u64) -> (r: (U256, u64))
    requires
        0 < d <= 0x100000000,
        n4 <= 0xffffffff,
    ensures
        horner5(r.0.w0, r.0.w1, r.0.w2, r.0.w3, r.1) == horner5(n0, n1, n2, n3, n4) / (d as int),
{
    let b: u128 = 0x10000000000000000;
    let d128: u128 = d as u128;
    let q4: u64 = (n4 as u128 / d128) as u64;
    let r4: u64 = (n4 as u128 % d128) as u64;
    let cur3: u128 = r4 as u128 * b + n3 as u128;
    let q3: u64 = div_step_q(cur3, d);
    let r3: u64 = (cur3 % d128) as u64;
    let cur2: u128 = r3 as u128 * b + n2 as u128;
    let q2: u64 = div_step_q(cur2, d);
    let r2: u64 = (cur2 % d128) as u64;
    let cur1: u128 = r2 as u128 * b + n1 as u128;
    let q1: u64 = div_step_q(cur1, d);
    let r1: u64 = (cur1 % d128) as u64;
    let cur0: u128 = r1 as u128 * b + n0 as u128;
    let q0: u64 = div_step_q(cur0, d);
    let r0: u64 = (cur0 % d128) as u64;
    proof {
        lemma_fundamental_div_mod(n4 as int, d as int);
        lemma_fundamental_div_mod(cur3 as int, d as int);
        lemma_fundamental_div_mod(cur2 as int, d as int);
        lemma_fundamental_div_mod(cur1 as int, d as int);
        lemma_fundamental_div_mod(cur0 as int, d as int);
        let h4: int = n4 as int;
        let h3: int = h4 * 0x10000000000000000int + n3;
        let h2: int = h3 * 0x10000000000000000int + n2;
        let h1: int = h2 * 0x10000000000000000int + n1;
        let h0: int = h1 * 0x10000000000000000int + n0;
        let g4: int = q4 as int;
        let g3: int = g4 * 0x10000000000000000int + q3;
        let g2: int = g3 * 0x10000000000000000int + q2;
        let g1: int = g2 * 0x10000000000000000int + q1;
        let g0: int = g1 * 0x10000000000000000int + q0;
        assert(h3 == g3 * d + r3) by (nonlinear_arith)
            requires
                h4 == d * q4 + r4,
                h3 == h4 * 0x10000000000000000int + n3,
                cur3 == r4 * 0x10000000000000000int + n3,
                cur3 == d * q3 + r3,
                g3 == q4 * 0x10000000000000000int + q3,
        ;
        assert(h2 == g2 * d + r2) by (nonlinear_arith)
            requires
                h3 == g3 * d + r3,
                h2 == h3 * 0x10000000000000000int + n2,
                cur2 == r3 * 0x10000000000000000int + n2,
                cur2 == d * q2 + r2,
                g2 == g3 * 0x10000000000000000int + q2,
        ;
        assert(h1 == g1 * d + r1) by (nonlinear_arith)
            requires
                h2 == g2 * d + r2,
                h1 == h2 * 0x10000000000000000int + n1,
                cur1 == r2 * 0x10000000000000000int + n1,
                cur1 == d * q1 + r1,
                g1 == g2 * 0x10000000000000000int + q1,
        ;
        assert(h0 == g0 * d + r0) by (nonlinear_arith)
            requires
                h1 == g1 * d + r1,
                h0 == h1 * 0x10000000000000000int + n0,
                cur0 == r1 * 0x10000000000000000int + n0,
                cur0 == d * q0 + r0,
                g0 == g1 * 0x10000000000000000int + q0,
        ;
        assert(g0 >= 0) by (nonlinear_arith)
            requires
                g0 == (((q4 * 0x10000000000000000int + q3) * 0x10000000000000000int + q2)
                    * 0x10000000000000000int + q1) * 0x10000000000000000int + q0,
                q4 >= 0,
                q3 >= 0,
                q2 >= 0,
                q1 >= 0,
                q0 >= 0,
        ;
        lemma_fundamental_div_mod_converse(h0, d as int, g0, r0 as int);
    }
    (U256 { w0: q0, w1: q1, w2: q2, w3: q3 }, q4)
}

/// A 64-bit value times a 33-bit factor stays well under 2^97.
proof fn lemma_mul_small(a: u64, t: u64)
    requires
        t <= 0x100000000,
    ensures
        a * t <= 0xffffffffffffffff00000000int,
{
    assert(a * t <= 0xffffffffffffffff * 0x100000000) by (nonlinear_arith)
        requires
            0 <= a <= 0xffffffffffffffff,
            0 <= t <= 0x100000000,
    ;
}

/// One quotient limb: `cur / d`, which fits in 64 bits because the
/// carried remainder is below `d`.
fn div_step_q(cur: u128, d: u64) -> (q: u64)
    requires
        d > 0,
        cur < d as int * 0x10000000000000000int,
    ensures
        q == (cur as int) / (d as int),
{
    proof {
        lemma_fundamental_div_mod(cur as int, d as int);
        assert((cur as int) / (d as int) < 0x10000000000000000int) by (nonlinear_arith)
            requires
                cur as int == d as int * ((cur as int) / (d as int)) + cur as int % d as int,
                cur as int % d as int >= 0,
                cur < d as int * 0x10000000000000000int,
                d > 0,
        ;
    }
    (cur / d as u128) as u64
}

} // verus!
