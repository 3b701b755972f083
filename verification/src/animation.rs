//! Keyframe animation channels.
//!
//! A channel holds keyframes sorted by strictly increasing time, all of one
//! transform component. Sampling first reduces the query time modulo the
//! animation's duration (the loop). A reduced time that lands exactly on an
//! authored key returns that key's value unchanged; otherwise it is
//! bracketed between the key strictly before it and the first key after it,
//! and the two keys are interpolated at the fraction of the gap covered:
//! linearly for translations and scales, spherically for rotations.

use crate::algebra::{
    q_dot_spec, q_neg_spec, v3_lerp_spec, Quat, Vec3,
};
use crate::rat::{rat_div, rat_mul, rat_neg, rat_one, rat_rem, rat_sub, Rat};
use crate::trig::{acos_q_spec, sin_q_spec};
use vstd::prelude::*;

verus! {

/// One sampled transform component.
#[derive(Clone, Copy, PartialEq, Eq, Structural, Debug)]
pub enum Transformation {
    Scale(Vec3),
    Translate(Vec3),
    Rotate(Quat),
}

impl Transformation {
    /// All scalars canonical.
    pub open spec fn wf(self) -> bool {
        match self {
            Transformation::Scale(v) => v.wf(),
            Transformation::Translate(v) => v.wf(),
            Transformation::Rotate(q) => q.wf(),
        }
    }

    /// Whether all scalars are canonical.
    pub fn check_wf(&self) -> (r: bool)
        ensures
            r == self.wf(),
    {
        match self {
            Transformation::Scale(v) => v.check_wf(),
            Transformation::Translate(v) => v.check_wf(),
            Transformation::Rotate(q) => q.check_wf(),
        }
    }
}

/// Whether two keys carry the same transform component; a channel never
/// mixes them.
pub open spec fn same_kind(a: Transformation, b: Transformation) -> bool {
    match (a, b) {
        (Transformation::Scale(_), Transformation::Scale(_)) => true,
        (Transformation::Translate(_), Transformation::Translate(_)) => true,
        (Transformation::Rotate(_), Transformation::Rotate(_)) => true,
        _ => false,
    }
}

/// Whether two keys carry the same transform component.
pub fn check_same_kind(a: &Transformation, b: &Transformation) -> (r: bool)
    ensures
        r == same_kind(*a, *b),
{
    match (a, b) {
        (Transformation::Scale(_), Transformation::Scale(_)) => true,
        (Transformation::Translate(_), Transformation::Translate(_)) => true,
        (Transformation::Rotate(_), Transformation::Rotate(_)) => true,
        _ => false,
    }
}

/// Spherical interpolation from `q0` toward `q1` at fraction `f`, with the
/// usual shortest-path choice: when the quaternions' dot product is
/// negative, the start key's representative is negated (the same rotation),
/// so the arc taken is the shorter one. The interpolated result is
/// `sin((1 - f) * theta) / sin(theta) * q0 + sin(f * theta) / sin(theta) * q1`;
/// when the sine of the angle vanishes at this precision the keys coincide
/// and the later key is returned.
pub open spec fn slerp_spec(q0: Quat, q1: Quat, f: Rat) -> Option<Quat> {
    match q_dot_spec(q0, q1) {
        Some(d) => {
            let p = if d.num < 0 {
                q_neg_spec(q0)
            } else {
                q0
            };
            let dp = if d.num < 0 {
                rat_neg(d)
            } else {
                d
            };
            match acos_q_spec(dp) {
                Some(theta) => match sin_q_spec(theta) {
                    Some(st) => if st.num == 0 {
                        Some(q1)
                    } else {
                        match rat_sub(rat_one(), f) {
                            Some(omf) => match (rat_mul(omf, theta), rat_mul(f, theta)) {
                                (Some(a0), Some(a1)) => match (sin_q_spec(a0), sin_q_spec(a1)) {
                                    (Some(s0), Some(s1)) => match (rat_div(s0, st), rat_div(s1, st)) {
                                        (Some(w0), Some(w1)) => q_combine_spec(w0, p, w1, q1),
                                        _ => None,
                                    },
                                    _ => None,
                                },
                                _ => None,
                            },
                            None => None,
                        }
                    },
                    None => None,
                },
                None => None,
            }
        },
        None => None,
    }
}

/// The weighted combination `w0 * a + w1 * b`, componentwise.
pub open spec fn q_combine_spec(w0: Rat, a: Quat, w1: Rat, b: Quat) -> Option<Quat> {
    match (
        combine1_spec(w0, a.x, w1, b.x),
        combine1_spec(w0, a.y, w1, b.y),
        combine1_spec(w0, a.z, w1, b.z),
        combine1_spec(w0, a.w, w1, b.w),
    ) {
        (Some(x), Some(y), Some(z), Some(w)) => Some(Quat { x, y, z, w }),
        _ => None,
    }
}

/// `w0 * a + w1 * b` for one scalar.
pub open spec fn combine1_spec(w0: Rat, a: Rat, w1: Rat, b: Rat) -> Option<Rat> {
    match (rat_mul(w0, a), rat_mul(w1, b)) {
        (Some(p), Some(q)) => crate::rat::rat_add(p, q),
        _ => None,
    }
}

/// `w0 * a + w1 * b` for one scalar.
pub fn combine1(w0: Rat, a: Rat, w1: Rat, b: Rat) -> (r: Option<Rat>)
    requires
        w0.wf(),
        a.wf(),
        w1.wf(),
        b.wf(),
    ensures
        r == combine1_spec(w0, a, w1, b),
        r is Some ==> r->Some_0.wf(),
{
    let p = match w0.mul(a) {
        Some(v) => v,
        None => {
            return None;
        },
    };
    let q = match w1.mul(b) {
        Some(v) => v,
        None => {
            return None;
        },
    };
    p.add(q)
}

/// Spherical interpolation from `q0` toward `q1` at fraction `f`.
#[verifier::rlimit(100)]
pub fn slerp(q0: Quat, q1: Quat, f: Rat) -> (r: Option<Quat>)
    requires
        q0.wf(),
        q1.wf(),
        f.wf(),
    ensures
        r == slerp_spec(q0, q1, f),
        r is Some ==> r->Some_0.wf(),
{
    let d = match q0.dot(q1) {
        Some(v) => v,
        None => {
            return None;
        },
    };
    let p = if d.num < 0 {
        q0.neg()
    } else {
        q0
    };
    let dp = if d.num < 0 {
        d.neg()
    } else {
        d
    };
    let theta = match crate::trig::acos_q(dp) {
        Some(v) => v,
        None => {
            return None;
        },
    };
    let st = match crate::trig::sin_q(theta) {
        Some(v) => v,
        None => {
            return None;
        },
    };
    if st.is_zero() {
        return Some(q1);
    }
    let omf = match Rat::one().sub(f) {
        Some(v) => v,
        None => {
            return None;
        },
    };
    let a0 = match omf.mul(theta) {
        Some(v) => v,
        None => {
            return None;
        },
    };
    let a1 = match f.mul(theta) {
        Some(v) => v,
        None => {
            return None;
        },
    };
    let s0 = match crate::trig::sin_q(a0) {
        Some(v) => v,
        None => {
            return None;
        },
    };
    let s1 = match crate::trig::sin_q(a1) {
        Some(v) => v,
        None => {
            return None;
        },
    };
    let w0 = match s0.div(st) {
        Some(v) => v,
        None => {
            return None;
        },
    };
    let w1 = match s1.div(st) {
        Some(v) => v,
        None => {
            return None;
        },
    };
    let x = match combine1(w0, p.x, w1, q1.x) {
        Some(v) => v,
        None => {
            return None;
        },
    };
    let y = match combine1(w0, p.y, w1, q1.y) {
        Some(v) => v,
        None => {
            return None;
        },
    };
    let z = match combine1(w0, p.z, w1, q1.z) {
        Some(v) => v,
        None => {
            return None;
        },
    };
    let w = match combine1(w0, p.w, w1, q1.w) {
        Some(v) => v,
        None => {
            return None;
        },
    };
    Some(Quat { x, y, z, w })
}

/// Spherical interpolation all the way to the far key lands exactly on it:
/// at fraction one the slerp that fits in range returns its second argument,
/// whichever representative was chosen for the first.
pub proof fn lemma_slerp_one(q0: Quat, q1: Quat)
    requires
        q0.wf(),
        q1.wf(),
        slerp_spec(q0, q1, crate::rat::rat_one()) is Some,
    ensures
        slerp_spec(q0, q1, crate::rat::rat_one()) == Some(q1),
{
    crate::rat::lemma_consts_wf();
    let one = rat_one();
    let z = crate::rat::rat_zero();
    let d = q_dot_spec(q0, q1)->Some_0;
    let dp = if d.num < 0 {
        rat_neg(d)
    } else {
        d
    };
    let p = if d.num < 0 {
        q_neg_spec(q0)
    } else {
        q0
    };
    let theta = acos_q_spec(dp)->Some_0;
    let st = sin_q_spec(theta)->Some_0;
    if st.num == 0 {
    } else {
        // the fraction's complement is zero, so the near weight is zero and
        // the far weight is one
        crate::rat::lemma_sub_self(one);
        assert(rat_sub(one, one) == Some(z));
        // st is canonical since the sine's contract keeps results canonical;
        // recover it from the norm in its final quantisation step
        assert(st.wf() && theta.wf()) by {
            crate::trig::lemma_acos_wf(dp);
            crate::trig::lemma_sin_wf(theta);
        }
        crate::rat::lemma_mul_zero(theta);
        crate::rat::lemma_mul_one(theta);
        assert(rat_mul(z, theta) == Some(z));
        assert(rat_mul(one, theta) == Some(theta));
        crate::trig::lemma_sin_zero();
        // w0 == 0 / st == 0
        assert(rat_div(z, st) == Some(z)) by {
            assert(crate::rat::div_parts(z, st) == (0int * st.den, 1int * st.num));
            assert(0int * st.den == 0int && 1int * st.num == st.num as int) by (nonlinear_arith);
            crate::rat::lemma_norm_zero(st.num as int);
        }
        // w1 == st / st == 1
        crate::rat::lemma_div_self(st);
        // each component: 0 * p + 1 * q1 == q1
        lemma_combine1_zero_one(p.x, q1.x);
        lemma_combine1_zero_one(p.y, q1.y);
        lemma_combine1_zero_one(p.z, q1.z);
        lemma_combine1_zero_one(p.w, q1.w);
        assert(q_combine_spec(z, p, one, q1) == Some(q1)) by {
            let c = q_combine_spec(z, p, one, q1)->Some_0;
            assert(c == q1);
        }
    }
}

/// At fraction one half the two spherical weights coincide exactly: the
/// midpoint is the same symmetric combination of the two key orientations,
/// `w * q0' + w * q1`, so neither endpoint is preferred. (`q0'` is the
/// shortest-path representative of the first key.)
pub proof fn lemma_slerp_midpoint_weights(q0: Quat, q1: Quat, f: Rat)
    requires
        q0.wf(),
        q1.wf(),
        f == (Rat { num: 1, den: 2 }),
        slerp_spec(q0, q1, f) is Some,
    ensures
        ({
            let d = q_dot_spec(q0, q1)->Some_0;
            let dp = if d.num < 0 {
                rat_neg(d)
            } else {
                d
            };
            let p = if d.num < 0 {
                q_neg_spec(q0)
            } else {
                q0
            };
            let theta = acos_q_spec(dp)->Some_0;
            let st = sin_q_spec(theta)->Some_0;
            st.num != 0 ==> ({
                let w = rat_div(sin_q_spec(rat_mul(f, theta)->Some_0)->Some_0, st)->Some_0;
                slerp_spec(q0, q1, f) == q_combine_spec(w, p, w, q1)
            })
        }),
{
    crate::rat::lemma_consts_wf();
    let one = rat_one();
    let d = q_dot_spec(q0, q1)->Some_0;
    let dp = if d.num < 0 {
        rat_neg(d)
    } else {
        d
    };
    let theta = acos_q_spec(dp)->Some_0;
    let st = sin_q_spec(theta)->Some_0;
    if st.num != 0 {
        // 1 - 1/2 normalises to 1/2, so both weight angles are the same
        // value with the same representation
        assert(rat_sub(one, f) == Some(f)) by {
            assert(crate::rat::sub_parts(one, f) == (1int * 2int - 1int * 1int, 1int * 2int));
            assert(crate::rat::gcd(1, 2) == crate::rat::gcd(2, 1));
            assert(crate::rat::gcd(2, 1) == crate::rat::gcd(1, 0));
            crate::rat::lemma_norm_canonical_id(f);
        }
    }
}

/// `0 * a + 1 * b == b`, when the scalars are canonical.
proof fn lemma_combine1_zero_one(a: Rat, b: Rat)
    requires
        a.wf(),
        b.wf(),
    ensures
        combine1_spec(crate::rat::rat_zero(), a, crate::rat::rat_one(), b) == Some(b),
{
    crate::rat::lemma_consts_wf();
    crate::rat::lemma_mul_zero(a);
    crate::rat::lemma_mul_one(b);
    crate::rat::lemma_add_zero(b);
}

/// Interpolation between two keys of the same component at fraction `f`:
/// linear for translations and scales, spherical for rotations; keys of
/// different components never meet (the channel is homogeneous).
pub open spec fn interp_spec(a: Transformation, b: Transformation, f: Rat) -> Option<
    Transformation,
> {
    match (a, b) {
        (Transformation::Translate(v0), Transformation::Translate(v1)) => match v3_lerp_spec(
            v0,
            v1,
            f,
        ) {
            Some(v) => Some(Transformation::Translate(v)),
            None => None,
        },
        (Transformation::Scale(v0), Transformation::Scale(v1)) => match v3_lerp_spec(v0, v1, f) {
            Some(v) => Some(Transformation::Scale(v)),
            None => None,
        },
        (Transformation::Rotate(r0), Transformation::Rotate(r1)) => match slerp_spec(r0, r1, f) {
            Some(q) => Some(Transformation::Rotate(q)),
            None => None,
        },
        _ => None,
    }
}

/// Interpolation between two keys of the same component.
pub fn interp(a: &Transformation, b: &Transformation, f: Rat) -> (r: Option<Transformation>)
    requires
        a.wf(),
        b.wf(),
        f.wf(),
        same_kind(*a, *b),
    ensures
        r == interp_spec(*a, *b, f),
        r is Some ==> r->Some_0.wf(),
{
    match (a, b) {
        (Transformation::Translate(v0), Transformation::Translate(v1)) => {
            match v0.lerp(*v1, f) {
                Some(v) => Some(Transformation::Translate(v)),
                None => None,
            }
        },
        (Transformation::Scale(v0), Transformation::Scale(v1)) => {
            match v0.lerp(*v1, f) {
                Some(v) => Some(Transformation::Scale(v)),
                None => None,
            }
        },
        (Transformation::Rotate(r0), Transformation::Rotate(r1)) => {
            match slerp(*r0, *r1, f) {
                Some(q) => Some(Transformation::Rotate(q)),
                None => None,
            }
        },
        _ => {
            proof {
                assert(false);
            }
            None
        },
    }
}

/// The index of the last key strictly before `local`, scanning from the end.
pub open spec fn find_prev(keys: Seq<(Rat, Transformation)>, local: Rat) -> Option<int>
    decreases keys.len(),
{
    if keys.len() == 0 {
        None
    } else if keys[keys.len() - 1].0.lt_val(local) {
        Some(keys.len() - 1)
    } else {
        find_prev(keys.take(keys.len() - 1), local)
    }
}

/// The index of the first key at or after `local`, scanning from the front.
pub open spec fn find_next(keys: Seq<(Rat, Transformation)>, local: Rat) -> Option<int>
    decreases keys.len(),
{
    if keys.len() == 0 {
        None
    } else if local.le_val(keys[0].0) {
        Some(0)
    } else {
        match find_next(keys.skip(1), local) {
            Some(i) => Some(i + 1),
            None => None,
        }
    }
}

/// Scan for the last key strictly before `local`, from the end.
fn find_prev_exec(keys: &Vec<(Rat, Transformation)>, local: Rat) -> (r: Option<usize>)
    requires
        forall|k: int| 0 <= k < keys@.len() ==> (#[trigger] keys@[k]).0.wf(),
        local.wf(),
    ensures
        match r {
            Some(i) => i < keys@.len() && find_prev(keys@, local) == Some(i as int),
            None => find_prev(keys@, local) is None,
        },
{
    let mut i: usize = keys.len();
    proof {
        assert(keys@.take(keys@.len() as int) =~= keys@);
    }
    while i > 0
        invariant
            i <= keys@.len(),
            local.wf(),
            forall|k: int| 0 <= k < keys@.len() ==> (#[trigger] keys@[k]).0.wf(),
            find_prev(keys@, local) == find_prev(keys@.take(i as int), local),
        decreases i,
    {
        if keys[i - 1].0.lt(local) {
            proof {
                assert(keys@.take(i as int)[i - 1] == keys@[i - 1]);
            }
            return Some(i - 1);
        }
        proof {
            assert(keys@.take(i as int).take(i as int - 1) =~= keys@.take(i as int - 1));
            assert(keys@.take(i as int)[i - 1] == keys@[i - 1]);
        }
        i = i - 1;
    }
    proof {
        assert(keys@.take(0) =~= Seq::<(Rat, Transformation)>::empty());
    }
    None
}

/// Scan for the first key at or after `local`, from the front.
fn find_next_exec(keys: &Vec<(Rat, Transformation)>, local: Rat) -> (r: Option<usize>)
    requires
        forall|k: int| 0 <= k < keys@.len() ==> (#[trigger] keys@[k]).0.wf(),
        local.wf(),
    ensures
        match r {
            Some(i) => i < keys@.len() && find_next(keys@, local) == Some(i as int),
            None => find_next(keys@, local) is None,
        },
{
    let n = keys.len();
    let mut i: usize = 0;
    proof {
        assert(keys@.skip(0) =~= keys@);
    }
    while i < n
        invariant
            n == keys@.len(),
            i <= n,
            local.wf(),
            forall|k: int| 0 <= k < keys@.len() ==> (#[trigger] keys@[k]).0.wf(),
            find_next(keys@, local) == match find_next(keys@.skip(i as int), local) {
                Some(j) => Some(j + i),
                None => None::<int>,
            },
        decreases n - i,
    {
        proof {
            assert(keys@.skip(i as int)[0] == keys@[i as int]);
        }
        if local.le(keys[i].0) {
            return Some(i);
        }
        proof {
            assert(keys@.skip(i as int).skip(1) =~= keys@.skip(i as int + 1));
        }
        i = i + 1;
    }
    proof {
        assert(keys@.skip(n as int) =~= Seq::<(Rat, Transformation)>::empty());
    }
    None
}

/// Sampling a channel at a query time: the time reduced modulo the
/// duration, then matched against the keys. A reduced time that lands
/// exactly on an authored key returns that key's value unchanged — no
/// interpolation drift at sample points. Otherwise it is bracketed between
/// the last key strictly before it and the first key after it, and the two
/// keys are interpolated at the fraction of the gap covered. Nothing is
/// produced when the duration is zero, when a bracket key is missing (an
/// empty track, or a reduced time before the first key), or when a value
/// leaves the representable range.
#[verifier::opaque]
pub open spec fn get_spec(dur: Rat, keys: Seq<(Rat, Transformation)>, t: Rat) -> Option<
    Transformation,
> {
    match rat_rem(t, dur) {
        None => None,
        Some(local) => match find_next(keys, local) {
            None => None,
            Some(ni) => if keys[ni].0 == local {
                Some(keys[ni].1)
            } else {
                match find_prev(keys, local) {
                    Some(pi) => match rat_sub(local, keys[pi].0) {
                        Some(num) => match rat_sub(keys[ni].0, keys[pi].0) {
                            Some(den) => match rat_div(num, den) {
                                Some(f) => interp_spec(keys[pi].1, keys[ni].1, f),
                                None => None,
                            },
                            None => None,
                        },
                        None => None,
                    },
                    None => None,
                }
            },
        },
    }
}

/// One keyframe channel: the node it drives, the animation's total duration
/// (shared by every channel of the animation), and the keyframe map.
#[derive(Clone, Debug)]
pub struct Animation {
    pub target: usize,
    pub duration: Rat,
    pub keys: Vec<(Rat, Transformation)>,
}


/// At fraction one, interpolation between keys of one component that fits in
/// range returns the far key exactly.
pub proof fn lemma_interp_one(a: Transformation, b: Transformation)
    requires
        a.wf(),
        b.wf(),
        same_kind(a, b),
        interp_spec(a, b, crate::rat::rat_one()) is Some,
    ensures
        interp_spec(a, b, crate::rat::rat_one()) == Some(b),
{
    match (a, b) {
        (Transformation::Translate(v0), Transformation::Translate(v1)) => {
            crate::algebra::lemma_v3_lerp_one(v0, v1);
        },
        (Transformation::Scale(v0), Transformation::Scale(v1)) => {
            crate::algebra::lemma_v3_lerp_one(v0, v1);
        },
        (Transformation::Rotate(r0), Transformation::Rotate(r1)) => {
            lemma_slerp_one(r0, r1);
        },
        _ => {},
    }
}

/// Strict value order carries along a sorted channel.
proof fn lemma_lt_val_trans(a: Rat, b: Rat, c: Rat)
    requires
        a.den > 0,
        b.den > 0,
        c.den > 0,
        a.lt_val(b),
        b.lt_val(c),
    ensures
        a.lt_val(c),
{
    assert(a.num * c.den < c.num * a.den) by (nonlinear_arith)
        requires
            a.num * b.den < b.num * a.den,
            b.num * c.den < c.num * b.den,
            a.den > 0,
            b.den > 0,
            c.den > 0,
    ;
}

/// Along a sorted channel, earlier keys have strictly smaller times.
proof fn lemma_sorted_index(keys: Seq<(Rat, Transformation)>, i: int, j: int)
    requires
        forall|k: int| 0 <= k < keys.len() ==> (#[trigger] keys[k]).0.wf(),
        forall|k: int| 0 <= k < keys.len() - 1 ==> (#[trigger] keys[k]).0.lt_val(keys[k + 1].0),
        0 <= i < j < keys.len(),
    ensures
        keys[i].0.lt_val(keys[j].0),
    decreases j - i,
{
    if j == i + 1 {
    } else {
        lemma_sorted_index(keys, i, j - 1);
        lemma_lt_val_trans(keys[i].0, keys[j - 1].0, keys[j].0);
    }
}

/// `find_next` lands on the first index at or above `local`.
proof fn lemma_find_next_at(keys: Seq<(Rat, Transformation)>, local: Rat, j: int)
    requires
        0 <= j < keys.len(),
        local.le_val(keys[j].0),
        forall|k: int| 0 <= k < j ==> !local.le_val((#[trigger] keys[k]).0),
    ensures
        find_next(keys, local) == Some(j),
    decreases keys.len(),
{
    if j == 0 {
    } else {
        assert(!local.le_val(keys[0].0));
        let rest = keys.skip(1);
        assert forall|k: int| 0 <= k < j - 1 implies !local.le_val((#[trigger] rest[k]).0) by {
            assert(rest[k] == keys[k + 1]);
        }
        assert(rest[j - 1] == keys[j]);
        lemma_find_next_at(rest, local, j - 1);
    }
}

/// Sampling a populated channel exactly at an authored key whose time lies
/// inside the looped range returns that key's value — no interpolation
/// drift at sample points: the reduced time equals the key time exactly, so
/// the sampler hands the authored value through unchanged.
#[verifier::rlimit(100)]
pub proof fn lemma_exact_key(dur: Rat, keys: Seq<(Rat, Transformation)>, i: int)
    requires
        channel_wf(dur, keys),
        0 <= i < keys.len(),
        crate::rat::rat_zero().le_val(keys[i].0),
        keys[i].0.lt_val(dur),
    ensures
        get_spec(dur, keys, keys[i].0) == Some(keys[i].1),
{
    reveal(get_spec);
    crate::rat::lemma_consts_wf();
    let t = keys[i].0;
    // the duration is positive, so the modulo reduction leaves t unchanged
    assert(t.num >= 0) by (nonlinear_arith)
        requires
            0 * t.den <= t.num * 1,
    ;
    assert(dur.num > 0) by (nonlinear_arith)
        requires
            t.num * dur.den < dur.num * t.den,
            t.num >= 0,
            t.den > 0,
            dur.den > 0,
    ;
    let p = t.num * dur.den;
    let q = t.den * dur.num;
    assert(0 <= p && p < q) by (nonlinear_arith)
        requires
            p == t.num * dur.den,
            q == t.den * dur.num,
            t.num >= 0,
            dur.den > 0,
            t.den > 0,
            dur.num > 0,
            t.num * dur.den < dur.num * t.den,
    ;
    assert(crate::rat::trunc_rem(p, q) == p) by {
        assert(crate::rat::iabs(p) == p && crate::rat::iabs(q) == q);
        vstd::arithmetic::div_mod::lemma_small_mod(p as nat, q as nat);
    }
    assert(rat_rem(t, dur) == Some(t)) by {
        let base = t.den * dur.den;
        assert(base > 0 && p * t.den == t.num * base) by (nonlinear_arith)
            requires
                p == t.num * dur.den,
                base == t.den * dur.den,
                t.den > 0,
                dur.den > 0,
        ;
        crate::rat::lemma_norm_respects_value(p, base, t.num as int, t.den as int);
        crate::rat::lemma_norm_canonical_id(t);
    }
    // the key itself is the first key at or above the reduced time
    assert(find_next(keys, t) == Some(i)) by {
        assert forall|k: int| 0 <= k < i implies !t.le_val((#[trigger] keys[k]).0) by {
            if k < i - 1 {
                lemma_sorted_index(keys, k, i);
            }
        }
        lemma_find_next_at(keys, t, i);
    }
}

/// Scaling dividend and divisor scales the remainder.
proof fn lemma_scale_mod(c: int, a: int, b: int)
    requires
        c > 0,
        b > 0,
        a >= 0,
    ensures
        c * (a % b) == (c * a) % (c * b),
{
    vstd::arithmetic::div_mod::lemma_fundamental_div_mod(a, b);
    let qq = a / b;
    let rr = a % b;
    assert(c * a == qq * (c * b) + c * rr && 0 <= c * rr < c * b) by (nonlinear_arith)
        requires
            a == b * qq + rr,
            0 <= rr < b,
            c > 0,
            b > 0,
    ;
    vstd::arithmetic::div_mod::lemma_fundamental_div_mod_converse(c * a, c * b, qq, c * rr);
}

/// Looping: shifting the query time by one full duration leaves the sample
/// unchanged — the channel is periodic in the animation's duration, for
/// times at or after zero (a negative query truncates toward zero and can
/// fall off the track instead).
#[verifier::rlimit(100)]
pub proof fn lemma_periodic(dur: Rat, keys: Seq<(Rat, Transformation)>, t: Rat, s: Rat)
    requires
        channel_wf(dur, keys),
        t.wf(),
        crate::rat::rat_zero().le_val(t),
        crate::rat::rat_zero().lt_val(dur),
        crate::rat::rat_add(t, dur) == Some(s),
    ensures
        get_spec(dur, keys, s) == get_spec(dur, keys, t),
{
    reveal(get_spec);
    crate::rat::lemma_consts_wf();
    assert(t.num >= 0) by (nonlinear_arith)
        requires
            0 * t.den <= t.num * 1,
    ;
    assert(dur.num > 0) by (nonlinear_arith)
        requires
            0 * dur.den < dur.num * 1,
    ;
    let parts = crate::rat::add_parts(t, dur);
    crate::rat::lemma_norm_wf(parts.0, parts.1);
    crate::rat::lemma_norm_sound(parts.0, parts.1);
    assert(s.num > 0) by (nonlinear_arith)
        requires
            s.num * (t.den * dur.den) == (t.num * dur.den + dur.num * t.den) * s.den,
            t.num >= 0,
            dur.num > 0,
            t.den > 0,
            dur.den > 0,
            s.den > 0,
    ;
    let pt = t.num * dur.den;
    let qt = t.den * dur.num;
    let ps = s.num * dur.den;
    let qs = s.den * dur.num;
    assert(pt >= 0 && qt > 0 && ps > 0 && qs > 0) by (nonlinear_arith)
        requires
            pt == t.num * dur.den,
            qt == t.den * dur.num,
            ps == s.num * dur.den,
            qs == s.den * dur.num,
            t.num >= 0,
            s.num > 0,
            dur.num > 0,
            t.den > 0,
            s.den > 0,
            dur.den > 0,
    ;
    assert(crate::rat::trunc_rem(pt, qt) == pt % qt);
    assert(crate::rat::trunc_rem(ps, qs) == ps % qs);
    // scale both remainders to the common ground s.den * t.den * dur.num
    lemma_scale_mod(s.den as int, pt, qt);
    lemma_scale_mod(t.den as int, ps, qs);
    let ca = s.den * pt;
    let cb = s.den * qt;
    assert(t.den * qs == cb) by (nonlinear_arith)
        requires
            cb == s.den * (t.den * dur.num),
            qs == s.den * dur.num,
    ;
    // one full duration added to the dividend: t.den * ps == ca + cb
    assert(t.den * ps == ca + cb) by (nonlinear_arith)
        requires
            s.num * (t.den * dur.den) == (t.num * dur.den + dur.num * t.den) * s.den,
            ps == s.num * dur.den,
            ca == s.den * (t.num * dur.den),
            cb == s.den * (t.den * dur.num),
    ;
    assert(ca >= 0 && cb > 0) by (nonlinear_arith)
        requires
            ca == s.den * pt,
            cb == s.den * qt,
            s.den > 0,
            pt >= 0,
            qt > 0,
    ;
    assert((cb + ca) % cb == ca % cb) by {
        vstd::arithmetic::div_mod::lemma_mod_add_multiples_vanish(ca, cb);
    }
    assert(t.den * (ps % qs) == s.den * (pt % qt)) by {
        assert(t.den * (ps % qs) == (t.den * ps) % (t.den * qs));
        assert((t.den * ps) % (t.den * qs) == (ca + cb) % cb);
        assert((ca + cb) % cb == ca % cb);
        assert(ca % cb == (s.den * pt) % (s.den * qt));
        assert((s.den * pt) % (s.den * qt) == s.den * (pt % qt));
    }
    // the two reduced times denote the same value, so they normalise alike
    let base_t = t.den * dur.den;
    let base_s = s.den * dur.den;
    assert((pt % qt) * base_s == (ps % qs) * base_t) by (nonlinear_arith)
        requires
            t.den * (ps % qs) == s.den * (pt % qt),
            base_t == t.den * dur.den,
            base_s == s.den * dur.den,
    ;
    assert(base_t != 0 && base_s != 0) by (nonlinear_arith)
        requires
            base_t == t.den * dur.den,
            base_s == s.den * dur.den,
            t.den > 0,
            s.den > 0,
            dur.den > 0,
    ;
    crate::rat::lemma_norm_respects_value(pt % qt, base_t, ps % qs, base_s);
    assert(rat_rem(s, dur) == rat_rem(t, dur));
}

/// Canonical scalars, keys sorted by strictly increasing time, one
/// transform component throughout.
pub open spec fn channel_wf(duration: Rat, keys: Seq<(Rat, Transformation)>) -> bool {
    &&& duration.wf()
    &&& forall|i: int| 0 <= i < keys.len() ==> (#[trigger] keys[i]).0.wf() && keys[i].1.wf()
    &&& forall|i: int| 0 <= i < keys.len() - 1 ==> (#[trigger] keys[i]).0.lt_val(keys[i + 1].0)
    &&& forall|i: int| 0 <= i < keys.len() ==> same_kind(keys[0].1, (#[trigger] keys[i]).1)
}

impl Animation {
    /// Canonical scalars, keys sorted by strictly increasing time, one
    /// transform component throughout.
    pub open spec fn wf(self) -> bool {
        channel_wf(self.duration, self.keys@)
    }

    /// Build a channel after checking every invariant: canonical scalars,
    /// strictly increasing times, a single transform component. `None`
    /// exactly when one of them fails.
    pub fn new(target: usize, duration: Rat, keys: Vec<(Rat, Transformation)>) -> (r: Option<
        Animation,
    >)
        ensures
            r is Some <==> channel_wf(duration, keys@),
            r is Some ==> r->Some_0.wf() && r->Some_0.target == target && r->Some_0.duration
                == duration && r->Some_0.keys@ == keys@,
    {
        if !duration.check_wf() {
            return None;
        }
        let n = keys.len();
        let mut i: usize = 0;
        while i < n
            invariant
                n == keys@.len(),
                i <= n,
                duration.wf(),
                forall|k: int| 0 <= k < i ==> (#[trigger] keys@[k]).0.wf() && keys@[k].1.wf(),
                forall|k: int|
                    0 <= k < i - 1 ==> (#[trigger] keys@[k]).0.lt_val(keys@[k + 1].0),
                forall|k: int| 0 <= k < i ==> same_kind(keys@[0].1, (#[trigger] keys@[k]).1),
            decreases n - i,
        {
            if !keys[i].0.check_wf() {
                return None;
            }
            if !keys[i].1.check_wf() {
                return None;
            }
            if i > 0 {
                if !keys[i - 1].0.lt(keys[i].0) {
                    return None;
                }
                if !check_same_kind(&keys[0].1, &keys[i].1) {
                    return None;
                }
            }
            i = i + 1;
        }
        Some(Animation { target, duration, keys })
    }

    /// Sample the channel at `time`. A reduced time landing exactly on an
    /// authored key returns that key's value unchanged; otherwise the
    /// bracketing keys are interpolated. `None` when the channel has
    /// nothing to offer there (empty or unbracketed track, zero duration)
    /// or a value leaves the representable range.
    pub fn get(&self, time: Rat) -> (r: Option<Transformation>)
        requires
            self.wf(),
            time.wf(),
        ensures
            r == get_spec(self.duration, self.keys@, time),
            r is Some ==> r->Some_0.wf(),
    {
        proof {
            reveal(get_spec);
        }
        let local = match time.rem(self.duration) {
            Some(l) => l,
            None => {
                return None;
            },
        };
        let ni = match find_next_exec(&self.keys, local) {
            Some(i) => i,
            None => {
                return None;
            },
        };
        if self.keys[ni].0 == local {
            return Some(self.keys[ni].1);
        }
        let pi = match find_prev_exec(&self.keys, local) {
            Some(i) => i,
            None => {
                return None;
            },
        };
        let num = match local.sub(self.keys[pi].0) {
            Some(v) => v,
            None => {
                return None;
            },
        };
        let den = match self.keys[ni].0.sub(self.keys[pi].0) {
            Some(v) => v,
            None => {
                return None;
            },
        };
        let f = match num.div(den) {
            Some(v) => v,
            None => {
                return None;
            },
        };
        proof {
            assert(same_kind(self.keys@[pi as int].1, self.keys@[ni as int].1)) by {
                assert(same_kind(self.keys@[0].1, self.keys@[pi as int].1));
                assert(same_kind(self.keys@[0].1, self.keys@[ni as int].1));
            }
        }
        interp(&self.keys[pi].1, &self.keys[ni].1, f)
    }
}

/// The largest key time, by value.
pub open spec fn max_time(times: Seq<Rat>) -> Rat
    decreases times.len(),
{
    if times.len() <= 1 {
        times[0]
    } else {
        let m = max_time(times.drop_last());
        if m.lt_val(times.last()) {
            times.last()
        } else {
            m
        }
    }
}

/// The smallest key time, by value.
pub open spec fn min_time(times: Seq<Rat>) -> Rat
    decreases times.len(),
{
    if times.len() <= 1 {
        times[0]
    } else {
        let m = min_time(times.drop_last());
        if times.last().lt_val(m) {
            times.last()
        } else {
            m
        }
    }
}

/// An animation's total duration: the largest key time across its channels
/// minus the smallest. `None` for an empty key list, or when the difference
/// leaves the representable range.
pub open spec fn duration_spec(times: Seq<Rat>) -> Option<Rat> {
    if times.len() == 0 {
        None
    } else {
        rat_sub(max_time(times), min_time(times))
    }
}

/// An animation's total duration over the key times of all its channels:
/// the largest minus the smallest.
pub fn animation_duration(times: &Vec<Rat>) -> (r: Option<Rat>)
    requires
        forall|k: int| 0 <= k < times@.len() ==> (#[trigger] times@[k]).wf(),
    ensures
        r == duration_spec(times@),
        r is Some ==> r->Some_0.wf(),
{
    if times.len() == 0 {
        return None;
    }
    let n = times.len();
    let mut mx = times[0];
    let mut mn = times[0];
    let mut i: usize = 1;
    proof {
        assert(times@.take(1).len() == 1);
        assert(times@.take(1)[0] == times@[0]);
    }
    while i < n
        invariant
            n == times@.len(),
            1 <= i <= n,
            forall|k: int| 0 <= k < times@.len() ==> (#[trigger] times@[k]).wf(),
            mx.wf(),
            mn.wf(),
            mx == max_time(times@.take(i as int)),
            mn == min_time(times@.take(i as int)),
        decreases n - i,
    {
        proof {
            assert(times@.take(i as int + 1).drop_last() =~= times@.take(i as int));
            assert(times@.take(i as int + 1).last() == times@[i as int]);
        }
        let t = times[i];
        if mx.lt(t) {
            mx = t;
        }
        if t.lt(mn) {
            mn = t;
        }
        i = i + 1;
    }
    proof {
        assert(times@.take(n as int) =~= times@);
    }
    mx.sub(mn)
}

/// With equal weights the midpoint combination treats its endpoints
/// symmetrically: listing the two key orientations in either order yields
/// the same quaternion, representation and all — the spherical midpoint
/// prefers neither endpoint.
pub proof fn lemma_midpoint_symmetric(w: Rat, p: Quat, q: Quat)
    requires
        w.wf(),
        p.wf(),
        q.wf(),
    ensures
        q_combine_spec(w, p, w, q) == q_combine_spec(w, q, w, p),
{
    lemma_combine1_symmetric(w, p.x, q.x);
    lemma_combine1_symmetric(w, p.y, q.y);
    lemma_combine1_symmetric(w, p.z, q.z);
    lemma_combine1_symmetric(w, p.w, q.w);
}

/// `w * a + w * b == w * b + w * a`, representation and all.
proof fn lemma_combine1_symmetric(w: Rat, a: Rat, b: Rat)
    requires
        w.wf(),
        a.wf(),
        b.wf(),
    ensures
        combine1_spec(w, a, w, b) == combine1_spec(w, b, w, a),
{
    match (rat_mul(w, a), rat_mul(w, b)) {
        (Some(p), Some(q)) => {
            crate::rat::lemma_norm_wf(crate::rat::mul_parts(w, a).0, crate::rat::mul_parts(w, a).1);
            crate::rat::lemma_norm_wf(crate::rat::mul_parts(w, b).0, crate::rat::mul_parts(w, b).1);
            crate::rat::lemma_add_comm(p, q);
        },
        _ => {},
    }
}

} // verus!
