//! Rounding between the fixed units of the simulation and the coarser units
//! of the wire.

use vstd::prelude::*;

verus! {

/// The value of `v` limited to the range of `i64`.
pub open spec fn saturated(v: int) -> int {
    if v < i64::MIN {
        i64::MIN as int
    } else if v > i64::MAX {
        i64::MAX as int
    } else {
        v
    }
}

/// Limits `v` to the range of `i64`.
pub fn saturate(v: i128) -> (r: i64)
    ensures
        r == saturated(v as int),
{
    if v < i64::MIN as i128 {
        i64::MIN
    } else if v > i64::MAX as i128 {
        i64::MAX
    } else {
        v as i64
    }
}

/// The multiple of `unit` nearest to `value`, counted in units; a value
/// half-way between two multiples goes to the upper one.
pub open spec fn nearest(value: int, unit: int) -> int {
    (value + unit / 2) / unit
}

/// Counts `value` in units of `unit`, rounding to the nearest.
pub fn to_nearest(value: i64, unit: i64) -> (count: i64)
    requires
        unit >= 2,
    ensures
        count == nearest(value as int, unit as int),
{
    let u: i128 = unit as i128;
    let shifted: i128 = value as i128 + u / 2;
    let q: i128 = if shifted >= 0 {
        shifted / u
    } else {
        (shifted + 1) / u - 1
    };
    proof {
        let s = shifted as int;
        let d = u as int;
        vstd::arithmetic::div_mod::lemma_fundamental_div_mod(s, d);
        vstd::arithmetic::div_mod::lemma_mod_bound(s, d);
        if s < 0 {
            // The machine divides toward zero; one step down from the
            // quotient of the magnitude is the floor.
            let t = -(s + 1);
            vstd::arithmetic::div_mod::lemma_fundamental_div_mod(t, d);
            vstd::arithmetic::div_mod::lemma_mod_bound(t, d);
            let fq = -(t / d) - 1;
            let fr = d - 1 - t % d;
            assert(s == fq * d + fr) by (nonlinear_arith)
                requires
                    t == d * (t / d) + t % d,
                    s == -t - 1,
                    fq == -(t / d) - 1,
                    fr == d - 1 - t % d,
            ;
            lemma_div_unique(s, d, fq, fr);
        }
        assert(q == s / d);
        assert(-0x8000_0000_0000_0000 <= s / d <= 0x7fff_ffff_ffff_ffff) by (nonlinear_arith)
            requires
                d >= 2,
                -0x8000_0000_0000_0000 <= s - d / 2 <= 0x7fff_ffff_ffff_ffff,
                s == d * (s / d) + s % d,
                0 <= s % d < d,
        ;
    }
    q as i64
}

/// A quotient and a remainder in range determine the division.
pub proof fn lemma_div_unique(a: int, d: int, q: int, r: int)
    requires
        d > 0,
        a == q * d + r,
        0 <= r < d,
    ensures
        a / d == q,
        a % d == r,
{
    vstd::arithmetic::div_mod::lemma_fundamental_div_mod_converse(a, d, q, r);
}

} // verus!
