//! Quantised square roots and circular functions.
//!
//! The exact rational scalars cannot carry square roots or sines, so these
//! are computed to a fixed grid: results are rationals whose denominator
//! divides `QUANT`. Each function's contract pins the result exactly to its
//! spec mirror; the polynomial shapes are the usual low-order series, which
//! is the stated numeric policy at this precision.

use crate::rat::{
    gcd, iabs, norm, rat_add, rat_div, rat_mul, rat_one, rat_sub, rat_zero, trunc_div, Rat, BOUND,
};
use vstd::prelude::*;

verus! {

/// The quantisation grid: results of the functions here have denominators
/// dividing this.
pub const QUANT: i128 = 0x10_0000;

/// `x` rounded toward zero onto the quantisation grid.
pub open spec fn quant_spec(a: Rat) -> Option<Rat> {
    norm(trunc_div(a.num * QUANT, a.den as int), QUANT as int)
}

/// `x` rounded toward zero onto the quantisation grid.
pub fn quantize(a: Rat) -> (r: Option<Rat>)
    requires
        a.wf(),
    ensures
        r == quant_spec(a),
        r is Some ==> r->Some_0.wf(),
{
    proof {
        crate::rat::lemma_mul_bound(a.num as int, QUANT as int, BOUND as int);
    }
    let p: i128 = a.num * QUANT;
    let ap: i128 = if p < 0 { -p } else { p };
    let q: i128 = ap / a.den;
    let rn: i128 = if p < 0 { -q } else { q };
    crate::rat::rat_norm(rn, QUANT)
}

/// The floor of the square root, defined one step at a time.
pub open spec fn isqrt_spec(y: nat) -> nat
    decreases y,
{
    if y == 0 {
        0
    } else {
        let p = isqrt_spec((y - 1) as nat);
        if (p + 1) * (p + 1) <= y {
            p + 1
        } else {
            p
        }
    }
}

/// `isqrt_spec` is the floor of the square root.
pub proof fn lemma_isqrt_bounds(y: nat)
    ensures
        isqrt_spec(y) * isqrt_spec(y) <= y,
        y < (isqrt_spec(y) + 1) * (isqrt_spec(y) + 1),
    decreases y,
{
    if y == 0 {
        assert(isqrt_spec(0) == 0);
        assert(0nat * 0nat <= 0nat);
        assert(0nat < (0nat + 1) * (0nat + 1)) by (nonlinear_arith);
    } else {
        lemma_isqrt_bounds((y - 1) as nat);
        let p = isqrt_spec((y - 1) as nat);
        if (p + 1) * (p + 1) <= y {
            assert(isqrt_spec(y) == p + 1);
            assert(y <= (p + 1) * (p + 1));
            assert((p + 1) * (p + 1) < (p + 2) * (p + 2)) by (nonlinear_arith);
            assert(isqrt_spec(y) + 1 == p + 2);
        } else {
            assert(isqrt_spec(y) == p);
            assert(y < (p + 1) * (p + 1));
        }
        assert(isqrt_spec(y) * isqrt_spec(y) <= y);
        assert(y < (isqrt_spec(y) + 1) * (isqrt_spec(y) + 1));
    }
}

/// Any value sitting in the square-root window is `isqrt_spec`.
pub proof fn lemma_isqrt_unique(y: nat, s: nat)
    requires
        s * s <= y,
        y < (s + 1) * (s + 1),
    ensures
        s == isqrt_spec(y),
{
    lemma_isqrt_bounds(y);
    let r = isqrt_spec(y);
    if s < r {
        assert((s + 1) * (s + 1) <= r * r) by (nonlinear_arith)
            requires
                s + 1 <= r,
        ;
    }
    if r < s {
        assert((r + 1) * (r + 1) <= s * s) by (nonlinear_arith)
            requires
                r + 1 <= s,
        ;
    }
}

/// The floor of the square root, by bisection.
pub fn isqrt(y: i128) -> (s: i128)
    requires
        0 <= y,
        y < 0x4000_0000_0000_0000_0000_0000_0000,  // 2^110
    ensures
        s as nat == isqrt_spec(y as nat),
        0 <= s,
        s * s <= y,
{
    if y == 0 {
        proof {
            lemma_isqrt_bounds(0);
        }
        return 0;
    }
    let mut lo: i128 = 0;
    let mut hi: i128 = 0x80_0000_0000_0000;  // 2^55; (2^55)^2 == 2^110 > y
    proof {
        assert(hi * hi == 0x4000_0000_0000_0000_0000_0000_0000) by (nonlinear_arith)
            requires
                hi == 0x80_0000_0000_0000,
        ;
    }
    while lo + 1 < hi
        invariant
            0 <= lo < hi <= 0x80_0000_0000_0000,
            lo * lo <= y,
            y < hi * hi,
        decreases hi - lo,
    {
        let mid: i128 = lo + (hi - lo) / 2;
        proof {
            crate::rat::lemma_mul_bound(mid as int, mid as int, 0x80_0000_0000_0000);
        }
        if mid * mid <= y {
            lo = mid;
        } else {
            hi = mid;
        }
    }
    proof {
        lemma_isqrt_unique(y as nat, lo as nat);
    }
    lo
}

/// The square root rounded down onto the quantisation grid: exactly
/// `isqrt(floor(x * QUANT^2)) / QUANT`.
pub open spec fn sqrt_q_spec(a: Rat) -> Option<Rat> {
    norm(isqrt_spec(((a.num * QUANT * QUANT) / (a.den as int)) as nat) as int, QUANT as int)
}

/// The square root rounded down onto the quantisation grid.
pub fn sqrt_q(a: Rat) -> (r: Option<Rat>)
    requires
        a.wf(),
        a.num >= 0,
    ensures
        r == sqrt_q_spec(a),
        r is Some ==> r->Some_0.wf(),
{
    proof {
        crate::rat::lemma_mul_bound(a.num as int, QUANT as int, BOUND as int);
        crate::rat::lemma_mul_bound((a.num * QUANT) as int, QUANT as int, BOUND as int * QUANT as int);
        assert((a.num * QUANT * QUANT) as int / (a.den as int) <= (a.num * QUANT * QUANT) as int) by {
            vstd::arithmetic::div_mod::lemma_div_is_ordered_by_denominator(
                (a.num * QUANT * QUANT) as int,
                1,
                a.den as int,
            );
        }
        vstd::arithmetic::div_mod::lemma_div_pos_is_pos((a.num * QUANT * QUANT) as int, a.den as int);
    }
    let scaled: i128 = a.num * QUANT * QUANT;
    let y: i128 = scaled / a.den;
    let s: i128 = isqrt(y);
    crate::rat::rat_norm(s, QUANT)
}

/// The fixed rational stand-in for pi at this precision.
pub fn rat_pi() -> (r: Rat)
    ensures
        r == (Rat { num: 355, den: 113 }),
        r.wf(),
{
    proof {
        assert(gcd(355, 113) == gcd(113, 16));
        assert(gcd(113, 16) == gcd(16, 1));
        assert(gcd(16, 1) == gcd(1, 0));
    }
    Rat { num: 355, den: 113 }
}

/// The fixed rational stand-in for pi / 2 at this precision.
pub fn rat_half_pi() -> (r: Rat)
    ensures
        r == (Rat { num: 355, den: 226 }),
        r.wf(),
{
    proof {
        assert(gcd(355, 226) == gcd(226, 129));
        assert(gcd(226, 129) == gcd(129, 97));
        assert(gcd(129, 97) == gcd(97, 32));
        assert(gcd(97, 32) == gcd(32, 1));
        assert(gcd(32, 1) == gcd(1, 0));
    }
    Rat { num: 355, den: 226 }
}

/// The sine series in Horner form, each stage requantised:
/// `x * (1 - x^2/6 * (1 - x^2/20))`.
pub open spec fn sin_q_spec(x: Rat) -> Option<Rat> {
    match quant_spec(x) {
        Some(xq) => match rat_mul(xq, xq) {
            Some(x2r) => match quant_spec(x2r) {
                Some(x2) => match rat_div(x2, Rat { num: 20, den: 1 }) {
                    Some(i20) => match rat_sub(rat_one(), i20) {
                        Some(inner) => match rat_mul(x2, inner) {
                            Some(mi) => match rat_div(mi, Rat { num: 6, den: 1 }) {
                                Some(mid0) => match quant_spec(mid0) {
                                    Some(mid) => match rat_sub(rat_one(), mid) {
                                        Some(outer) => match rat_mul(xq, outer) {
                                            Some(s) => quant_spec(s),
                                            None => None,
                                        },
                                        None => None,
                                    },
                                    None => None,
                                },
                                None => None,
                            },
                            None => None,
                        },
                        None => None,
                    },
                    None => None,
                },
                None => None,
            },
            None => None,
        },
        None => None,
    }
}

/// The sine at this precision.
pub fn sin_q(x: Rat) -> (r: Option<Rat>)
    requires
        x.wf(),
    ensures
        r == sin_q_spec(x),
        r is Some ==> r->Some_0.wf(),
{
    let xq = match quantize(x) {
        Some(v) => v,
        None => {
            return None;
        },
    };
    let x2r = match xq.mul(xq) {
        Some(v) => v,
        None => {
            return None;
        },
    };
    let x2 = match quantize(x2r) {
        Some(v) => v,
        None => {
            return None;
        },
    };
    let twenty = Rat::from_int(20);
    let i20 = match x2.div(twenty) {
        Some(v) => v,
        None => {
            return None;
        },
    };
    let inner = match Rat::one().sub(i20) {
        Some(v) => v,
        None => {
            return None;
        },
    };
    let mi = match x2.mul(inner) {
        Some(v) => v,
        None => {
            return None;
        },
    };
    let six = Rat::from_int(6);
    let mid0 = match mi.div(six) {
        Some(v) => v,
        None => {
            return None;
        },
    };
    let mid = match quantize(mid0) {
        Some(v) => v,
        None => {
            return None;
        },
    };
    let outer = match Rat::one().sub(mid) {
        Some(v) => v,
        None => {
            return None;
        },
    };
    let s = match xq.mul(outer) {
        Some(v) => v,
        None => {
            return None;
        },
    };
    quantize(s)
}

/// Quantising zero gives zero.
pub proof fn lemma_quant_zero()
    ensures
        quant_spec(crate::rat::rat_zero()) == Some(crate::rat::rat_zero()),
{
    assert(trunc_div(0 * QUANT, 1) == 0) by {
        assert(iabs(0 * QUANT) == 0) by (nonlinear_arith);
        assert(0int / (QUANT as int) == 0) by {
            vstd::arithmetic::div_mod::lemma_div_of0(QUANT as int);
        }
    }
    crate::rat::lemma_norm_zero(QUANT as int);
}

/// The sine approximation vanishes exactly at zero.
pub proof fn lemma_sin_zero()
    ensures
        sin_q_spec(crate::rat::rat_zero()) == Some(crate::rat::rat_zero()),
{
    let z = crate::rat::rat_zero();
    let one = rat_one();
    crate::rat::lemma_consts_wf();
    lemma_quant_zero();
    // xq == 0, x2r == 0 * 0 == 0, x2 == 0
    crate::rat::lemma_mul_zero(z);
    // i20 == 0 / 20 == 0
    assert(rat_div(z, Rat { num: 20, den: 1 }) == Some(z)) by {
        assert(crate::rat::div_parts(z, Rat { num: 20, den: 1 }) == (0int * 1int, 1int * 20int));
        assert(0int * 1int == 0int && 1int * 20int == 20int) by (nonlinear_arith);
        crate::rat::lemma_norm_zero(20);
    }
    // inner == 1 - 0 == 1
    assert(rat_sub(one, z) == Some(one)) by {
        assert(crate::rat::sub_parts(one, z) == (1int * 1int - 0int * 1int, 1int * 1int));
        crate::rat::lemma_norm_canonical_id(one);
    }
    // mi == 0 * 1 == 0, mid0 == 0 / 6 == 0, mid == 0
    assert(rat_div(z, Rat { num: 6, den: 1 }) == Some(z)) by {
        assert(crate::rat::div_parts(z, Rat { num: 6, den: 1 }) == (0int * 1int, 1int * 6int));
        assert(0int * 1int == 0int && 1int * 6int == 6int) by (nonlinear_arith);
        crate::rat::lemma_norm_zero(6);
    }
    // outer == 1, s == 0 * 1 == 0, and the final quantisation keeps zero
    crate::rat::lemma_mul_one(z);
}

/// Whatever quantisation produces is canonical.
pub proof fn lemma_quant_wf(a: Rat)
    requires
        quant_spec(a) is Some,
    ensures
        quant_spec(a)->Some_0.wf(),
{
    crate::rat::lemma_norm_wf(trunc_div(a.num * QUANT, a.den as int), QUANT as int);
}

/// Whatever the sine approximation produces is canonical.
pub proof fn lemma_sin_wf(x: Rat)
    requires
        sin_q_spec(x) is Some,
    ensures
        sin_q_spec(x)->Some_0.wf(),
{
    let xq = quant_spec(x)->Some_0;
    let x2r = rat_mul(xq, xq)->Some_0;
    let x2 = quant_spec(x2r)->Some_0;
    let i20 = rat_div(x2, Rat { num: 20, den: 1 })->Some_0;
    let inner = rat_sub(rat_one(), i20)->Some_0;
    let mi = rat_mul(x2, inner)->Some_0;
    let mid0 = rat_div(mi, Rat { num: 6, den: 1 })->Some_0;
    let mid = quant_spec(mid0)->Some_0;
    let outer = rat_sub(rat_one(), mid)->Some_0;
    let s = rat_mul(xq, outer)->Some_0;
    lemma_quant_wf(s);
}

/// Whatever the arccosine approximation produces is canonical.
pub proof fn lemma_acos_wf(x: Rat)
    requires
        acos_q_spec(x) is Some,
    ensures
        acos_q_spec(x)->Some_0.wf(),
{
    let a = asin_q_spec(x)->Some_0;
    let p = crate::rat::sub_parts(Rat { num: 355, den: 226 }, a);
    crate::rat::lemma_norm_wf(p.0, p.1);
}

/// The cosine series in Horner form, each stage requantised:
/// `1 - x^2/2 * (1 - x^2/12)`.
pub open spec fn cos_q_spec(x: Rat) -> Option<Rat> {
    match quant_spec(x) {
        Some(xq) => match rat_mul(xq, xq) {
            Some(x2r) => match quant_spec(x2r) {
                Some(x2) => match rat_div(x2, Rat { num: 12, den: 1 }) {
                    Some(i12) => match rat_sub(rat_one(), i12) {
                        Some(inner) => match rat_mul(x2, inner) {
                            Some(mi) => match rat_div(mi, Rat { num: 2, den: 1 }) {
                                Some(mid0) => match quant_spec(mid0) {
                                    Some(mid) => rat_sub(rat_one(), mid),
                                    None => None,
                                },
                                None => None,
                            },
                            None => None,
                        },
                        None => None,
                    },
                    None => None,
                },
                None => None,
            },
            None => None,
        },
        None => None,
    }
}

/// The cosine at this precision.
pub fn cos_q(x: Rat) -> (r: Option<Rat>)
    requires
        x.wf(),
    ensures
        r == cos_q_spec(x),
        r is Some ==> r->Some_0.wf(),
{
    let xq = match quantize(x) {
        Some(v) => v,
        None => {
            return None;
        },
    };
    let x2r = match xq.mul(xq) {
        Some(v) => v,
        None => {
            return None;
        },
    };
    let x2 = match quantize(x2r) {
        Some(v) => v,
        None => {
            return None;
        },
    };
    let twelve = Rat::from_int(12);
    let i12 = match x2.div(twelve) {
        Some(v) => v,
        None => {
            return None;
        },
    };
    let inner = match Rat::one().sub(i12) {
        Some(v) => v,
        None => {
            return None;
        },
    };
    let mi = match x2.mul(inner) {
        Some(v) => v,
        None => {
            return None;
        },
    };
    let two = Rat::from_int(2);
    let mid0 = match mi.div(two) {
        Some(v) => v,
        None => {
            return None;
        },
    };
    let mid = match quantize(mid0) {
        Some(v) => v,
        None => {
            return None;
        },
    };
    Rat::one().sub(mid)
}

/// The arcsine series in Horner form, each stage requantised:
/// `x * (1 + x^2/6 * (1 + 9 * x^2 / 20))`.
pub open spec fn asin_q_spec(x: Rat) -> Option<Rat> {
    match quant_spec(x) {
        Some(xq) => match rat_mul(xq, xq) {
            Some(x2r) => match quant_spec(x2r) {
                Some(x2) => match rat_mul(x2, Rat { num: 9, den: 20 }) {
                    Some(i920) => match rat_add(rat_one(), i920) {
                        Some(inner) => match rat_mul(x2, inner) {
                            Some(mi) => match rat_div(mi, Rat { num: 6, den: 1 }) {
                                Some(mid0) => match quant_spec(mid0) {
                                    Some(mid) => match rat_add(rat_one(), mid) {
                                        Some(outer) => match rat_mul(xq, outer) {
                                            Some(s) => quant_spec(s),
                                            None => None,
                                        },
                                        None => None,
                                    },
                                    None => None,
                                },
                                None => None,
                            },
                            None => None,
                        },
                        None => None,
                    },
                    None => None,
                },
                None => None,
            },
            None => None,
        },
        None => None,
    }
}

/// The arcsine at this precision.
pub fn asin_q(x: Rat) -> (r: Option<Rat>)
    requires
        x.wf(),
    ensures
        r == asin_q_spec(x),
        r is Some ==> r->Some_0.wf(),
{
    let xq = match quantize(x) {
        Some(v) => v,
        None => {
            return None;
        },
    };
    let x2r = match xq.mul(xq) {
        Some(v) => v,
        None => {
            return None;
        },
    };
    let x2 = match quantize(x2r) {
        Some(v) => v,
        None => {
            return None;
        },
    };
    proof {
        assert(gcd(9, 20) == gcd(20, 9));
        assert(gcd(20, 9) == gcd(9, 2));
        assert(gcd(9, 2) == gcd(2, 1));
        assert(gcd(2, 1) == gcd(1, 0));
        crate::rat::lemma_norm_canonical_id(Rat { num: 9, den: 20 });
    }
    let nine_twentieths = match Rat::new(9, 20) {
        Some(v) => v,
        None => {
            return None;
        },
    };
    let i920 = match x2.mul(nine_twentieths) {
        Some(v) => v,
        None => {
            return None;
        },
    };
    let inner = match Rat::one().add(i920) {
        Some(v) => v,
        None => {
            return None;
        },
    };
    let mi = match x2.mul(inner) {
        Some(v) => v,
        None => {
            return None;
        },
    };
    let six = Rat::from_int(6);
    let mid0 = match mi.div(six) {
        Some(v) => v,
        None => {
            return None;
        },
    };
    let mid = match quantize(mid0) {
        Some(v) => v,
        None => {
            return None;
        },
    };
    let outer = match Rat::one().add(mid) {
        Some(v) => v,
        None => {
            return None;
        },
    };
    let s = match xq.mul(outer) {
        Some(v) => v,
        None => {
            return None;
        },
    };
    quantize(s)
}

/// The arccosine at this precision: `pi/2 - asin(x)`.
pub open spec fn acos_q_spec(x: Rat) -> Option<Rat> {
    match asin_q_spec(x) {
        Some(a) => rat_sub(Rat { num: 355, den: 226 }, a),
        None => None,
    }
}

/// The arccosine at this precision.
pub fn acos_q(x: Rat) -> (r: Option<Rat>)
    requires
        x.wf(),
    ensures
        r == acos_q_spec(x),
        r is Some ==> r->Some_0.wf(),
{
    let a = match asin_q(x) {
        Some(v) => v,
        None => {
            return None;
        },
    };
    rat_half_pi().sub(a)
}

/// The tangent at this precision: the quotient of the sine and cosine
/// approximations; `None` when the cosine approximation is zero.
pub open spec fn tan_q_spec(x: Rat) -> Option<Rat> {
    match (sin_q_spec(x), cos_q_spec(x)) {
        (Some(s), Some(c)) => rat_div(s, c),
        _ => None,
    }
}

/// The tangent at this precision.
pub fn tan_q(x: Rat) -> (r: Option<Rat>)
    requires
        x.wf(),
    ensures
        r == tan_q_spec(x),
        r is Some ==> r->Some_0.wf(),
{
    let s = match sin_q(x) {
        Some(v) => v,
        None => {
            return None;
        },
    };
    let c = match cos_q(x) {
        Some(v) => v,
        None => {
            return None;
        },
    };
    s.div(c)
}

} // verus!
