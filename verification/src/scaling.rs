//! Uniform downscaling of sprite dimensions and anchor offsets.
//!
//! Scale factors are rational percentages (100 down to 20). A scaled
//! dimension is the product rounded to the nearest integer (half up) and
//! clamped to at least one pixel; offsets round half away from zero and keep
//! their sign. At 100 percent both are the identity.

use vstd::prelude::*;

verus! {

/// Percent scale factors tried by the fallback search, strictly decreasing.
pub open spec fn spec_scale_steps() -> Seq<u32> {
    seq![100u32, 90u32, 80u32, 70u32, 60u32, 50u32, 40u32, 30u32, 25u32, 20u32]
}

/// A sprite dimension after uniform downscaling to `pct` percent:
/// rounded to the nearest pixel and clamped to a one-pixel minimum.
/// At 100 percent the dimension is untouched (no resampling, no clamp).
pub open spec fn spec_scaled_dim(w: nat, pct: nat) -> nat {
    if pct == 100 {
        w
    } else {
        let r = (w * pct + 50) / 100;
        if r < 1 {
            1
        } else {
            r
        }
    }
}

/// An anchor offset scaled to `pct` percent, rounded half away from zero.
pub open spec fn spec_scaled_off(o: int, pct: nat) -> int {
    if o >= 0 {
        (o * pct + 50) / 100
    } else {
        -(((-o) * pct + 50) / 100)
    }
}

/// The scaled dimension never exceeds the unscaled one.
pub proof fn lemma_scaled_dim_le(w: nat, pct: nat)
    requires
        1 <= pct <= 100,
        1 <= w,
    ensures
        spec_scaled_dim(w, pct) <= w,
{
    if pct != 100 {
        assert(w * pct + 50 < (w + 1) * 100) by (nonlinear_arith)
            requires
                pct <= 99,
                1 <= w,
        ;
        assert((w * pct + 50) / 100 < w + 1) by (nonlinear_arith)
            requires
                w * pct + 50 < (w + 1) * 100,
        ;
    }
}

/// Scaling by a smaller percentage gives a dimension no larger.
pub proof fn lemma_scaled_dim_monotone(w: nat, p1: nat, p2: nat)
    requires
        1 <= p1 <= p2 <= 100,
        1 <= w,
    ensures
        spec_scaled_dim(w, p1) <= spec_scaled_dim(w, p2),
{
    lemma_scaled_dim_le(w, p1);
    if p2 != 100 {
        assert(w * p1 + 50 <= w * p2 + 50) by (nonlinear_arith)
            requires
                p1 <= p2,
                0 <= w,
        ;
        assert((w * p1 + 50) / 100 <= (w * p2 + 50) / 100) by (nonlinear_arith)
            requires
                0 <= w * p1 + 50 <= w * p2 + 50,
        ;
    }
}

/// Computes `spec_scaled_dim` on machine integers.
pub fn scaled_dim(w: u32, pct: u32) -> (r: u32)
    requires
        1 <= pct <= 100,
    ensures
        r == spec_scaled_dim(w as nat, pct as nat),
{
    if pct == 100 {
        w
    } else {
        proof {
            assert(0 <= (w as int) * (pct as int) <= 4294967295int * 99) by (nonlinear_arith)
                requires
                    0 <= (w as int) <= 4294967295int,
                    0 <= (pct as int) <= 99,
            ;
            assert((w as int) * (pct as int) + 50 < ((w as int) + 1) * 100) by (nonlinear_arith)
                requires
                    0 <= (w as int),
                    (pct as int) <= 99,
            ;
            assert(((w as int) * (pct as int) + 50) / 100 <= (w as int)) by (nonlinear_arith)
                requires
                    0 <= (w as int) * (pct as int) + 50 < ((w as int) + 1) * 100,
            ;
        }
        let t: u64 = (w as u64) * (pct as u64) + 50;
        let d: u64 = t / 100;
        if d < 1 {
            1
        } else {
            d as u32
        }
    }
}

/// Computes `spec_scaled_off` on machine integers.
pub fn scaled_off(o: i32, pct: u32) -> (r: i32)
    requires
        1 <= pct <= 100,
    ensures
        r == spec_scaled_off(o as int, pct as nat),
{
    if o >= 0 {
        proof {
            assert(0 <= (o as int) * (pct as int) <= 2147483647int * 100) by (nonlinear_arith)
                requires
                    0 <= (o as int) <= 2147483647int,
                    0 <= (pct as int) <= 100,
            ;
            assert((o as int) * (pct as int) + 50 < ((o as int) + 1) * 100) by (nonlinear_arith)
                requires
                    0 <= (o as int),
                    1 <= (pct as int) <= 100,
            ;
            assert(0 <= ((o as int) * (pct as int) + 50) / 100 <= (o as int)) by (nonlinear_arith)
                requires
                    0 <= (o as int) * (pct as int) + 50 < ((o as int) + 1) * 100,
            ;
        }
        let t: i64 = (o as i64) * (pct as i64) + 50;
        let d: i64 = t / 100;
        d as i32
    } else {
        proof {
            let mi = -(o as int);
            assert(0 <= mi * (pct as int) <= 2147483648int * 100) by (nonlinear_arith)
                requires
                    0 <= mi <= 2147483648int,
                    0 <= (pct as int) <= 100,
            ;
            assert(mi * (pct as int) + 50 < (mi + 1) * 100) by (nonlinear_arith)
                requires
                    0 <= mi,
                    1 <= (pct as int) <= 100,
            ;
            assert(0 <= (mi * (pct as int) + 50) / 100 <= mi) by (nonlinear_arith)
                requires
                    0 <= mi * (pct as int) + 50 < (mi + 1) * 100,
            ;
        }
        let m: i64 = -(o as i64);
        let t: i64 = m * (pct as i64) + 50;
        let d: i64 = t / 100;
        (-d) as i32
    }
}

/// Builds the scale-factor ladder as a vector.
pub fn scale_steps() -> (v: Vec<u32>)
    ensures
        v@ == spec_scale_steps(),
{
    let mut v: Vec<u32> = Vec::new();
    v.push(100);
    v.push(90);
    v.push(80);
    v.push(70);
    v.push(60);
    v.push(50);
    v.push(40);
    v.push(30);
    v.push(25);
    v.push(20);
    proof {
        assert(v@ =~= spec_scale_steps());
    }
    v
}

} // verus!
