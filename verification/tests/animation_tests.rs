use rasterization::algebra::{Quat, Vec3};
use rasterization::animation::{animation_duration, slerp, Animation, Transformation};
use rasterization::rat::Rat;

fn r(n: i64, d: i64) -> Rat {
    Rat::new(n, d).unwrap()
}

fn v(x: i64, y: i64, z: i64) -> Vec3 {
    Vec3 {
        x: Rat::from_int(x),
        y: Rat::from_int(y),
        z: Rat::from_int(z),
    }
}

fn translate_track() -> Animation {
    // keys (0, (0,0,0)) and (2, (1,0,0)) on a duration-2 animation
    let keys = vec![
        (Rat::from_int(0), Transformation::Translate(v(0, 0, 0))),
        (Rat::from_int(2), Transformation::Translate(v(1, 0, 0))),
    ];
    Animation::new(7, Rat::from_int(2), keys).unwrap()
}

#[test]
fn linear_interpolation_law() {
    // halfway between the keys the translation is exactly (1/2, 0, 0)
    let a = translate_track();
    let got = a.get(Rat::from_int(1)).unwrap();
    match got {
        Transformation::Translate(p) => {
            assert_eq!(p.x, r(1, 2));
            assert_eq!(p.y, r(0, 1));
            assert_eq!(p.z, r(0, 1));
        }
        _ => panic!("wrong component kind"),
    }
}

#[test]
fn exact_key_fidelity() {
    // sampling exactly at an authored key returns that key's value — the
    // first key included
    let keys = vec![
        (Rat::from_int(0), Transformation::Scale(v(1, 1, 1))),
        (r(1, 2), Transformation::Scale(v(2, 3, 4))),
        (Rat::from_int(1), Transformation::Scale(v(5, 6, 7))),
    ];
    let a = Animation::new(0, Rat::from_int(2), keys).unwrap();
    match a.get(Rat::from_int(0)).unwrap() {
        Transformation::Scale(s) => assert_eq!(s, v(1, 1, 1)),
        _ => panic!("wrong component kind"),
    }
    match a.get(r(1, 2)).unwrap() {
        Transformation::Scale(s) => assert_eq!(s, v(2, 3, 4)),
        _ => panic!("wrong component kind"),
    }
    match a.get(Rat::from_int(1)).unwrap() {
        Transformation::Scale(s) => assert_eq!(s, v(5, 6, 7)),
        _ => panic!("wrong component kind"),
    }
    // a key time past the loop wraps away from the key, so the looped
    // sample differs: time 2 reduces to 0, the first key
    match a.get(Rat::from_int(2)).unwrap() {
        Transformation::Scale(s) => assert_eq!(s, v(1, 1, 1)),
        _ => panic!("wrong component kind"),
    }
}

#[test]
fn periodicity() {
    // evaluate(t) == evaluate(t + duration), for several t
    let a = translate_track();
    for (n, d) in [(1i64, 1i64), (1, 2), (3, 2), (7, 4)] {
        let t = r(n, d);
        let s = t.add(Rat::from_int(2)).unwrap();
        assert_eq!(a.get(t), a.get(s));
        let s2 = s.add(Rat::from_int(2)).unwrap();
        assert_eq!(a.get(t), a.get(s2));
    }
}

#[test]
fn empty_and_unbracketed_tracks_yield_nothing() {
    let empty = Animation::new(0, Rat::from_int(2), vec![]).unwrap();
    assert!(empty.get(Rat::from_int(1)).is_none());
    // an exact hit on the first key returns the authored value
    let a = translate_track();
    match a.get(Rat::from_int(0)).unwrap() {
        Transformation::Translate(p) => assert_eq!(p, v(0, 0, 0)),
        _ => panic!("wrong component kind"),
    }
    // a reduced time strictly before the first key yields nothing
    let late = Animation::new(
        0,
        Rat::from_int(2),
        vec![
            (Rat::from_int(1), Transformation::Translate(v(0, 0, 0))),
            (Rat::from_int(2), Transformation::Translate(v(1, 0, 0))),
        ],
    )
    .unwrap();
    assert!(late.get(r(1, 2)).is_none());
    // zero duration yields nothing
    let z = Animation::new(
        0,
        Rat::zero(),
        vec![(Rat::from_int(0), Transformation::Translate(v(0, 0, 0)))],
    )
    .unwrap();
    assert!(z.get(Rat::from_int(1)).is_none());
}

#[test]
fn channel_invariants_enforced() {
    // unsorted keys are rejected
    let bad = vec![
        (Rat::from_int(1), Transformation::Translate(v(0, 0, 0))),
        (Rat::from_int(0), Transformation::Translate(v(1, 0, 0))),
    ];
    assert!(Animation::new(0, Rat::from_int(2), bad).is_none());
    // mixed component kinds are rejected
    let mixed = vec![
        (Rat::from_int(0), Transformation::Translate(v(0, 0, 0))),
        (Rat::from_int(1), Transformation::Scale(v(1, 1, 1))),
    ];
    assert!(Animation::new(0, Rat::from_int(2), mixed).is_none());
    // a non-canonical scalar is rejected
    let raw = vec![(
        Rat { num: 2, den: 4 },
        Transformation::Translate(v(0, 0, 0)),
    )];
    assert!(Animation::new(0, Rat::from_int(2), raw).is_none());
}

#[test]
fn rotation_midpoint_is_equidistant() {
    // two unit quaternions: the identity and a rotation with rational unit
    // components (0, 0, 3/5, 4/5)
    let q0 = Quat {
        x: Rat::zero(),
        y: Rat::zero(),
        z: Rat::zero(),
        w: Rat::one(),
    };
    let q1 = Quat {
        x: Rat::zero(),
        y: Rat::zero(),
        z: r(3, 5),
        w: r(4, 5),
    };
    let mid = slerp(q0, q1, r(1, 2)).unwrap();
    let d0 = mid.dot(q0).unwrap();
    let d1 = mid.dot(q1).unwrap();
    // equal cosines to both endpoints: equal angular distance, exactly
    assert_eq!(d0, d1);
}

#[test]
fn rotation_at_far_key_is_exact() {
    let q0 = Quat {
        x: Rat::zero(),
        y: Rat::zero(),
        z: Rat::zero(),
        w: Rat::one(),
    };
    let q1 = Quat {
        x: Rat::zero(),
        y: Rat::zero(),
        z: r(3, 5),
        w: r(4, 5),
    };
    assert_eq!(slerp(q0, q1, Rat::one()).unwrap(), q1);
}

#[test]
fn duration_spans_all_key_times() {
    let times = vec![r(1, 2), Rat::from_int(3), r(1, 4), Rat::from_int(2)];
    assert_eq!(animation_duration(&times).unwrap(), r(11, 4));
    assert!(animation_duration(&vec![]).is_none());
    assert_eq!(
        animation_duration(&vec![Rat::from_int(5)]).unwrap(),
        Rat::zero()
    );
}
