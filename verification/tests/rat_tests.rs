use rasterization::rat::Rat;

fn r(n: i64, d: i64) -> Rat {
    Rat::new(n, d).unwrap()
}

#[test]
fn construction_normalises() {
    assert_eq!(r(2, 4), r(1, 2));
    assert_eq!(r(-6, -4), r(3, 2));
    assert_eq!(r(6, -4), r(-3, 2));
    assert_eq!(r(0, 7), r(0, 1));
    assert!(Rat::new(1, 0).is_none());
}

#[test]
fn exact_arithmetic() {
    let a = r(1, 3);
    let b = r(1, 6);
    assert_eq!(a.add(b).unwrap(), r(1, 2));
    assert_eq!(a.sub(b).unwrap(), r(1, 6));
    assert_eq!(a.mul(b).unwrap(), r(1, 18));
    assert_eq!(a.div(b).unwrap(), r(2, 1));
    assert!(a.div(Rat::zero()).is_none());
    assert_eq!(a.neg(), r(-1, 3));
}

#[test]
fn remainder_truncates_toward_zero() {
    assert_eq!(r(7, 2).rem(r(2, 1)).unwrap(), r(3, 2));
    assert_eq!(r(-7, 2).rem(r(2, 1)).unwrap(), r(-3, 2));
    assert_eq!(r(4, 1).rem(r(2, 1)).unwrap(), r(0, 1));
    assert!(r(1, 1).rem(Rat::zero()).is_none());
}

#[test]
fn comparisons() {
    assert!(r(1, 3).lt(r(1, 2)));
    assert!(r(1, 2).le(r(1, 2)));
    assert!(!r(1, 2).lt(r(1, 2)));
    assert!(r(-1, 2).lt(r(0, 1)));
    assert!(r(0, 1).is_zero());
    assert!(!r(1, 5).is_zero());
}

#[test]
fn canonical_form_checked() {
    assert!(r(3, 7).check_wf());
    assert!(!Rat { num: 2, den: 4 }.check_wf());
    assert!(!Rat { num: 1, den: -2 }.check_wf());
    assert!(!Rat { num: 1, den: 0 }.check_wf());
}

#[test]
fn overflow_reports_none() {
    let big = Rat {
        num: 0x2000_0000_0000_0000,
        den: 1,
    };
    assert!(big.check_wf());
    // the square of 2^61 cannot be represented below the bound
    assert!(big.mul(big).is_none());
    // but adding small values still works
    assert!(big.add(Rat::one()).is_some());
}
