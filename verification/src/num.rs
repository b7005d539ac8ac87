//! Integer arithmetic for timestamp rescaling.
//!
//! A tempo change of `tempo` percent rescales a timestamp `v` to
//! `v * (1 - tempo/100)`, truncated toward zero. All arithmetic here is
//! exact integer arithmetic: the scaled value is `v * (100 - tempo) / 100`
//! with the division truncating toward zero, clamped to the `i32` range.

use vstd::prelude::*;
use vstd::arithmetic::div_mod::lemma_div_is_ordered;
use vstd::arithmetic::div_mod::lemma_div_multiples_vanish;
use vstd::arithmetic::div_mod::lemma_div_pos_is_pos;
use vstd::arithmetic::div_mod::lemma_fundamental_div_mod;
use vstd::arithmetic::div_mod::lemma_mod_bound;
use vstd::arithmetic::mul::lemma_mul_inequality;

verus! {

/// Division truncating toward zero (for a positive divisor), as machine
/// integer division does; `/` on `int` rounds toward negative infinity.
pub open spec fn trunc_div(a: int, b: int) -> int
    recommends
        b > 0,
{
    if a >= 0 {
        a / b
    } else {
        -((-a) / b)
    }
}

/// The mathematically exact rescaled timestamp: `v * (100 - tempo) / 100`,
/// i.e. `v * (1 - tempo/100)` truncated toward zero.
pub open spec fn rescaled(v: int, tempo: int) -> int {
    trunc_div(v * (100 - tempo), 100)
}

/// Saturation into the `i32` range.
pub open spec fn clamp_i32(x: int) -> int {
    if x < i32::MIN as int {
        i32::MIN as int
    } else if x > i32::MAX as int {
        i32::MAX as int
    } else {
        x
    }
}

/// Rescaling leaves every value unchanged when the tempo is zero: the scale
/// factor is then exactly one, and truncation of an integer is the identity.
pub proof fn lemma_rescale_tempo_zero(v: int)
    ensures
        rescaled(v, 0) == v,
{
    if v >= 0 {
        lemma_div_multiples_vanish(v, 100);
        assert(v * 100 == 100 * v);
    } else {
        lemma_div_multiples_vanish(-v, 100);
        assert(-(v * 100) == 100 * (-v));
    }
}

/// Truncation is toward zero: the rescaled value never exceeds the exact
/// quotient in magnitude, misses it by less than one unit of the divisor,
/// and keeps its sign.
pub proof fn lemma_rescale_truncates(v: int, tempo: int)
    ensures
        v * (100 - tempo) >= 0 ==> {
            let r = rescaled(v, tempo);
            0 <= r && r * 100 <= v * (100 - tempo) < (r + 1) * 100
        },
        v * (100 - tempo) < 0 ==> {
            let r = rescaled(v, tempo);
            r <= 0 && (r - 1) * 100 < v * (100 - tempo) <= r * 100
        },
{
    let p = v * (100 - tempo);
    if p >= 0 {
        let r = p / 100;
        lemma_fundamental_div_mod(p, 100);
        lemma_mod_bound(p, 100);
        lemma_div_pos_is_pos(p, 100);
        assert(100 * r == r * 100);
    } else {
        let q = (-p) / 100;
        lemma_fundamental_div_mod(-p, 100);
        lemma_mod_bound(-p, 100);
        lemma_div_pos_is_pos(-p, 100);
        assert(100 * q == q * 100);
    }
}

/// The rescaled timestamp for value `v` at tempo `tempo`, saturating at the
/// bounds of `i32` where the exact result does not fit.
pub fn rescale_value(v: i32, tempo: i32) -> (r: i32)
    ensures
        r as int == clamp_i32(rescaled(v as int, tempo as int)),
{
    let m: i64 = 100 - (tempo as i64);
    let av: u64 = if v < 0 {
        (-(v as i64)) as u64
    } else {
        v as u64
    };
    let am: u64 = if m < 0 {
        (-m) as u64
    } else {
        m as u64
    };
    proof {
        assert(av <= 0x8000_0000 && am <= 0x8000_0064);
        lemma_mul_inequality(av as int, 0x8000_0000, am as int);
        lemma_mul_inequality(am as int, 0x8000_0064, 0x8000_0000);
        assert(av * am <= 0x8000_0000 * 0x8000_0064) by (nonlinear_arith)
            requires
                av <= 0x8000_0000,
                am <= 0x8000_0064,
                av >= 0,
                am >= 0,
        ;
    }
    let p: u64 = av * am;
    let q: u64 = p / 100;
    let neg: bool = (v < 0) != (m < 0);
    proof {
        let prod = (v as int) * (m as int);
        assert(av * am == if prod >= 0 { prod } else { -prod }) by (nonlinear_arith)
            requires
                av == if v < 0 { -(v as int) } else { v as int },
                am == if m < 0 { -(m as int) } else { m as int },
                prod == (v as int) * (m as int),
        ;
        if prod != 0 {
            assert(prod < 0 <==> neg) by (nonlinear_arith)
                requires
                    prod != 0,
                    neg == ((v < 0) != (m < 0)),
                    prod == (v as int) * (m as int),
            ;
        }
    }
    if neg {
        let s: i64 = -(q as i64);
        proof {
            let prod = (v as int) * (m as int);
            if prod >= 0 {
                assert(prod == 0);
                assert(q == 0);
            }
            assert(rescaled(v as int, tempo as int) == -(((av * am) as int) / 100));
        }
        if s < (i32::MIN as i64) {
            i32::MIN
        } else {
            s as i32
        }
    } else {
        proof {
            let prod = (v as int) * (m as int);
            if prod < 0 {
                assert(false);
            }
            assert(rescaled(v as int, tempo as int) == ((av * am) as int) / 100);
        }
        if q > (i32::MAX as u64) {
            i32::MAX
        } else {
            proof {
                lemma_div_is_ordered(0, q as int, 100);
            }
            q as i32
        }
    }
}

} // verus!
