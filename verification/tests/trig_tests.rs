use rasterization::rat::Rat;
use rasterization::trig::{acos_q, cos_q, quantize, rat_pi, sin_q, sqrt_q, tan_q, QUANT};

fn r(n: i64, d: i64) -> Rat {
    Rat::new(n, d).unwrap()
}

#[test]
fn quantisation_truncates_toward_zero() {
    assert_eq!(quantize(Rat::zero()).unwrap(), Rat::zero());
    assert_eq!(quantize(r(1, 2)).unwrap(), r(1, 2));
    // 1/3 lands on the grid point just below it
    let q = quantize(r(1, 3)).unwrap();
    let back = q.mul(Rat { num: QUANT, den: 1 }).unwrap();
    assert!(back.le(r(QUANT as i64, 3)));
}

#[test]
fn square_root_is_exact_on_squares() {
    assert_eq!(sqrt_q(Rat::from_int(4)).unwrap(), Rat::from_int(2));
    assert_eq!(sqrt_q(Rat::from_int(0)).unwrap(), Rat::zero());
    assert_eq!(sqrt_q(r(1, 4)).unwrap(), r(1, 2));
    assert_eq!(sqrt_q(Rat::from_int(144)).unwrap(), Rat::from_int(12));
}

#[test]
fn sine_vanishes_at_zero_and_grows() {
    assert_eq!(sin_q(Rat::zero()).unwrap(), Rat::zero());
    let s = sin_q(r(1, 2)).unwrap();
    // sin(1/2) is about 0.479
    assert!(s.lt(r(49, 100)));
    assert!(r(47, 100).lt(s));
}

#[test]
fn cosine_is_one_at_zero() {
    assert_eq!(cos_q(Rat::zero()).unwrap(), Rat::one());
    let c = cos_q(r(1, 2)).unwrap();
    // cos(1/2) is about 0.878
    assert!(c.lt(r(89, 100)));
    assert!(r(86, 100).lt(c));
}

#[test]
fn arccos_and_tangent_shapes() {
    // acos(0) is about pi/2
    let a = acos_q(Rat::zero()).unwrap();
    assert!(a.lt(r(158, 100)));
    assert!(r(156, 100).lt(a));
    // tan(1/4) is about 0.2553
    let t = tan_q(r(1, 4)).unwrap();
    assert!(t.lt(r(26, 100)));
    assert!(r(25, 100).lt(t));
    let pi = rat_pi();
    assert_eq!(pi, Rat { num: 355, den: 113 });
}
