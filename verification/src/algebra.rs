//! Vectors, quaternions and matrices over exact rational scalars.
//!
//! Matrices are stored row-major as sixteen scalars; `m.e[4 * row + col]`.
//! Every operation either returns its exact rational result in canonical form
//! or `None` when some entry leaves the representable range.

use crate::rat::{norm, rat_add, rat_div, rat_mul, rat_sub, Rat};
use vstd::prelude::*;

verus! {

/// A three-component vector.
#[derive(Clone, Copy, PartialEq, Eq, Structural, Debug)]
pub struct Vec3 {
    pub x: Rat,
    pub y: Rat,
    pub z: Rat,
}

/// A quaternion, `x`, `y`, `z` imaginary and `w` real.
#[derive(Clone, Copy, PartialEq, Eq, Structural, Debug)]
pub struct Quat {
    pub x: Rat,
    pub y: Rat,
    pub z: Rat,
    pub w: Rat,
}

/// A 4 x 4 matrix, row-major.
#[derive(Clone, Debug)]
pub struct Mat4 {
    pub e: Vec<Rat>,
}

/// Linear interpolation of scalars: `a + (b - a) * f`.
pub open spec fn lerp_spec(a: Rat, b: Rat, f: Rat) -> Option<Rat> {
    match rat_sub(b, a) {
        Some(d) => match rat_mul(d, f) {
            Some(p) => rat_add(a, p),
            None => None,
        },
        None => None,
    }
}

/// Interpolating all the way to the far end lands exactly on it: at
/// fraction one the lerp that fits in range returns its second argument.
pub proof fn lemma_lerp1_one(a: Rat, b: Rat)
    requires
        a.wf(),
        b.wf(),
        lerp_spec(a, b, crate::rat::rat_one()) is Some,
    ensures
        lerp_spec(a, b, crate::rat::rat_one()) == Some(b),
{
    crate::rat::lemma_consts_wf();
    let d = rat_sub(b, a)->Some_0;
    crate::rat::lemma_norm_sound(
        crate::rat::sub_parts(b, a).0,
        crate::rat::sub_parts(b, a).1,
    );
    crate::rat::lemma_mul_one(d);
    let p = crate::rat::add_parts(a, d);
    assert(p.1 != 0 && p.0 * b.den == b.num * p.1) by (nonlinear_arith)
        requires
            p.0 == a.num * d.den + d.num * a.den,
            p.1 == a.den * d.den,
            d.num * (b.den * a.den) == (b.num * a.den - a.num * b.den) * d.den,
            a.den > 0,
            b.den > 0,
            d.den > 0,
    ;
    crate::rat::lemma_norm_respects_value(p.0, p.1, b.num as int, b.den as int);
    crate::rat::lemma_norm_canonical_id(b);
}

/// At fraction one a componentwise lerp that fits in range returns its
/// second argument.
pub proof fn lemma_v3_lerp_one(a: Vec3, b: Vec3)
    requires
        a.wf(),
        b.wf(),
        v3_lerp_spec(a, b, crate::rat::rat_one()) is Some,
    ensures
        v3_lerp_spec(a, b, crate::rat::rat_one()) == Some(b),
{
    lemma_lerp1_one(a.x, b.x);
    lemma_lerp1_one(a.y, b.y);
    lemma_lerp1_one(a.z, b.z);
}

/// `a * b + c`, the step of an accumulating dot product.
pub open spec fn mul_add_spec(a: Rat, b: Rat, c: Rat) -> Option<Rat> {
    match rat_mul(a, b) {
        Some(p) => rat_add(c, p),
        None => None,
    }
}

/// Componentwise negation of a quaternion, the other representative of the
/// same rotation.
pub open spec fn q_neg_spec(q: Quat) -> Quat {
    Quat {
        x: crate::rat::rat_neg(q.x),
        y: crate::rat::rat_neg(q.y),
        z: crate::rat::rat_neg(q.z),
        w: crate::rat::rat_neg(q.w),
    }
}

/// The quaternion dot product, accumulated left to right.
pub open spec fn q_dot_spec(a: Quat, b: Quat) -> Option<Rat> {
    dot4_spec(a.x, b.x, a.y, b.y, a.z, b.z, a.w, b.w)
}

impl Quat {
    /// All components canonical.
    pub open spec fn wf(self) -> bool {
        self.x.wf() && self.y.wf() && self.z.wf() && self.w.wf()
    }

    /// Whether every component is canonical.
    pub fn check_wf(&self) -> (r: bool)
        ensures
            r == self.wf(),
    {
        self.x.check_wf() && self.y.check_wf() && self.z.check_wf() && self.w.check_wf()
    }

    /// Componentwise negation.
    pub fn neg(self) -> (r: Quat)
        requires
            self.wf(),
        ensures
            r == q_neg_spec(self),
            r.wf(),
    {
        Quat { x: self.x.neg(), y: self.y.neg(), z: self.z.neg(), w: self.w.neg() }
    }

    /// The dot product with `o`.
    pub fn dot(self, o: Quat) -> (r: Option<Rat>)
        requires
            self.wf(),
            o.wf(),
        ensures
            r == q_dot_spec(self, o),
            r is Some ==> r->Some_0.wf(),
    {
        dot4(self.x, o.x, self.y, o.y, self.z, o.z, self.w, o.w)
    }
}

impl Vec3 {
    /// All components canonical.
    pub open spec fn wf(self) -> bool {
        self.x.wf() && self.y.wf() && self.z.wf()
    }

    /// Whether every component is canonical.
    pub fn check_wf(&self) -> (r: bool)
        ensures
            r == self.wf(),
    {
        self.x.check_wf() && self.y.check_wf() && self.z.check_wf()
    }

    /// The zero vector.
    pub fn zero() -> (r: Vec3)
        ensures
            r.x == (Rat { num: 0, den: 1 }),
            r.y == (Rat { num: 0, den: 1 }),
            r.z == (Rat { num: 0, den: 1 }),
            r.wf(),
    {
        Vec3 { x: Rat::zero(), y: Rat::zero(), z: Rat::zero() }
    }

    /// Componentwise sum.
    pub fn add(self, o: Vec3) -> (r: Option<Vec3>)
        requires
            self.wf(),
            o.wf(),
        ensures
            r == v3_add_spec(self, o),
            r is Some ==> r->Some_0.wf(),
    {
        let x = match self.x.add(o.x) {
            Some(v) => v,
            None => {
                return None;
            },
        };
        let y = match self.y.add(o.y) {
            Some(v) => v,
            None => {
                return None;
            },
        };
        let z = match self.z.add(o.z) {
            Some(v) => v,
            None => {
                return None;
            },
        };
        Some(Vec3 { x, y, z })
    }

    /// Componentwise difference.
    pub fn sub(self, o: Vec3) -> (r: Option<Vec3>)
        requires
            self.wf(),
            o.wf(),
        ensures
            r == v3_sub_spec(self, o),
            r is Some ==> r->Some_0.wf(),
    {
        let x = match self.x.sub(o.x) {
            Some(v) => v,
            None => {
                return None;
            },
        };
        let y = match self.y.sub(o.y) {
            Some(v) => v,
            None => {
                return None;
            },
        };
        let z = match self.z.sub(o.z) {
            Some(v) => v,
            None => {
                return None;
            },
        };
        Some(Vec3 { x, y, z })
    }

    /// Scale by a scalar.
    pub fn scale(self, s: Rat) -> (r: Option<Vec3>)
        requires
            self.wf(),
            s.wf(),
        ensures
            r == v3_scale_spec(self, s),
            r is Some ==> r->Some_0.wf(),
    {
        let x = match self.x.mul(s) {
            Some(v) => v,
            None => {
                return None;
            },
        };
        let y = match self.y.mul(s) {
            Some(v) => v,
            None => {
                return None;
            },
        };
        let z = match self.z.mul(s) {
            Some(v) => v,
            None => {
                return None;
            },
        };
        Some(Vec3 { x, y, z })
    }

    /// Dot product.
    pub fn dot(self, o: Vec3) -> (r: Option<Rat>)
        requires
            self.wf(),
            o.wf(),
        ensures
            r == v3_dot_spec(self, o),
            r is Some ==> r->Some_0.wf(),
    {
        let xx = match self.x.mul(o.x) {
            Some(v) => v,
            None => {
                return None;
            },
        };
        let s1 = match mul_add(self.y, o.y, xx) {
            Some(v) => v,
            None => {
                return None;
            },
        };
        mul_add(self.z, o.z, s1)
    }

    /// Cross product.
    pub fn cross(self, o: Vec3) -> (r: Option<Vec3>)
        requires
            self.wf(),
            o.wf(),
        ensures
            r == v3_cross_spec(self, o),
            r is Some ==> r->Some_0.wf(),
    {
        let x = match det2(self.y, self.z, o.y, o.z) {
            Some(v) => v,
            None => {
                return None;
            },
        };
        let y = match det2(self.z, self.x, o.z, o.x) {
            Some(v) => v,
            None => {
                return None;
            },
        };
        let z = match det2(self.x, self.y, o.x, o.y) {
            Some(v) => v,
            None => {
                return None;
            },
        };
        Some(Vec3 { x, y, z })
    }

    /// Componentwise linear interpolation toward `o` at fraction `f`.
    pub fn lerp(self, o: Vec3, f: Rat) -> (r: Option<Vec3>)
        requires
            self.wf(),
            o.wf(),
            f.wf(),
        ensures
            r == v3_lerp_spec(self, o, f),
            r is Some ==> r->Some_0.wf(),
    {
        let x = match lerp(self.x, o.x, f) {
            Some(v) => v,
            None => {
                return None;
            },
        };
        let y = match lerp(self.y, o.y, f) {
            Some(v) => v,
            None => {
                return None;
            },
        };
        let z = match lerp(self.z, o.z, f) {
            Some(v) => v,
            None => {
                return None;
            },
        };
        Some(Vec3 { x, y, z })
    }
}

/// Componentwise sum.
pub open spec fn v3_add_spec(a: Vec3, b: Vec3) -> Option<Vec3> {
    match (rat_add(a.x, b.x), rat_add(a.y, b.y), rat_add(a.z, b.z)) {
        (Some(x), Some(y), Some(z)) => Some(Vec3 { x, y, z }),
        _ => None,
    }
}

/// Componentwise difference.
pub open spec fn v3_sub_spec(a: Vec3, b: Vec3) -> Option<Vec3> {
    match (rat_sub(a.x, b.x), rat_sub(a.y, b.y), rat_sub(a.z, b.z)) {
        (Some(x), Some(y), Some(z)) => Some(Vec3 { x, y, z }),
        _ => None,
    }
}

/// Componentwise scaling.
pub open spec fn v3_scale_spec(a: Vec3, s: Rat) -> Option<Vec3> {
    match (rat_mul(a.x, s), rat_mul(a.y, s), rat_mul(a.z, s)) {
        (Some(x), Some(y), Some(z)) => Some(Vec3 { x, y, z }),
        _ => None,
    }
}

/// Dot product, accumulated left to right.
pub open spec fn v3_dot_spec(a: Vec3, b: Vec3) -> Option<Rat> {
    match rat_mul(a.x, b.x) {
        Some(xx) => match mul_add_spec(a.y, b.y, xx) {
            Some(s1) => mul_add_spec(a.z, b.z, s1),
            None => None,
        },
        None => None,
    }
}

/// Cross product.
pub open spec fn v3_cross_spec(a: Vec3, b: Vec3) -> Option<Vec3> {
    match (
        det2_spec(a.y, a.z, b.y, b.z),
        det2_spec(a.z, a.x, b.z, b.x),
        det2_spec(a.x, a.y, b.x, b.y),
    ) {
        (Some(x), Some(y), Some(z)) => Some(Vec3 { x, y, z }),
        _ => None,
    }
}

/// Componentwise linear interpolation.
pub open spec fn v3_lerp_spec(a: Vec3, b: Vec3, f: Rat) -> Option<Vec3> {
    match (lerp_spec(a.x, b.x, f), lerp_spec(a.y, b.y, f), lerp_spec(a.z, b.z, f)) {
        (Some(x), Some(y), Some(z)) => Some(Vec3 { x, y, z }),
        _ => None,
    }
}

/// `a * d - b * c`, the two-by-two determinant.
pub open spec fn det2_spec(a: Rat, b: Rat, c: Rat, d: Rat) -> Option<Rat> {
    match (rat_mul(a, d), rat_mul(b, c)) {
        (Some(p), Some(q)) => rat_sub(p, q),
        _ => None,
    }
}

/// Linear interpolation of scalars: `a + (b - a) * f`.
pub fn lerp(a: Rat, b: Rat, f: Rat) -> (r: Option<Rat>)
    requires
        a.wf(),
        b.wf(),
        f.wf(),
    ensures
        r == lerp_spec(a, b, f),
        r is Some ==> r->Some_0.wf(),
{
    let d = match b.sub(a) {
        Some(v) => v,
        None => {
            return None;
        },
    };
    let p = match d.mul(f) {
        Some(v) => v,
        None => {
            return None;
        },
    };
    a.add(p)
}

/// `a * b + c`.
pub fn mul_add(a: Rat, b: Rat, c: Rat) -> (r: Option<Rat>)
    requires
        a.wf(),
        b.wf(),
        c.wf(),
    ensures
        r == mul_add_spec(a, b, c),
        r is Some ==> r->Some_0.wf(),
{
    let p = match a.mul(b) {
        Some(v) => v,
        None => {
            return None;
        },
    };
    c.add(p)
}

/// The identity matrix.
pub open spec fn identity_spec() -> Seq<Rat> {
    Seq::new(16, |n: int| if n / 4 == n % 4 { crate::rat::rat_one() } else { crate::rat::rat_zero() })
}

/// Dot product of four scalar pairs, accumulated left to right.
pub open spec fn dot4_spec(
    a0: Rat, b0: Rat, a1: Rat, b1: Rat, a2: Rat, b2: Rat, a3: Rat, b3: Rat,
) -> Option<Rat> {
    match rat_mul(a0, b0) {
        Some(s0) => match mul_add_spec(a1, b1, s0) {
            Some(s1) => match mul_add_spec(a2, b2, s1) {
                Some(s2) => mul_add_spec(a3, b3, s2),
                None => None,
            },
            None => None,
        },
        None => None,
    }
}

/// Row `i` of `a` against column `j` of `b`.
pub open spec fn mm_entry(a: Seq<Rat>, b: Seq<Rat>, i: int, j: int) -> Option<Rat> {
    dot4_spec(
        a[4 * i],
        b[j],
        a[4 * i + 1],
        b[4 + j],
        a[4 * i + 2],
        b[8 + j],
        a[4 * i + 3],
        b[12 + j],
    )
}

/// The exact matrix product, entry by entry; `None` when any entry leaves
/// the representable range.
pub open spec fn mat_mul_spec(a: Seq<Rat>, b: Seq<Rat>) -> Option<Seq<Rat>> {
    if forall|n: int| 0 <= n < 16 ==> (#[trigger] mm_entry(a, b, n / 4, n % 4)) is Some {
        Some(Seq::new(16, |n: int| mm_entry(a, b, n / 4, n % 4)->Some_0))
    } else {
        None
    }
}

/// The transpose.
pub open spec fn transpose_spec(m: Seq<Rat>) -> Seq<Rat> {
    Seq::new(16, |n: int| m[(n % 4) * 4 + n / 4])
}

impl Mat4 {
    /// Sixteen canonical entries.
    pub open spec fn wf(self) -> bool {
        self.e@.len() == 16 && forall|n: int| 0 <= n < 16 ==> (#[trigger] self.e@[n]).wf()
    }

    /// The identity matrix.
    pub fn identity() -> (r: Mat4)
        ensures
            r.wf(),
            r.e@ == identity_spec(),
    {
        let one = Rat::one();
        let zero = Rat::zero();
        let mut e: Vec<Rat> = Vec::new();
        for n in 0..16usize
            invariant
                e@.len() == n,
                forall|k: int| 0 <= k < n ==> #[trigger] e@[k] == identity_spec()[k],
                one == crate::rat::rat_one(),
                zero == crate::rat::rat_zero(),
        {
            if n / 4 == n % 4 {
                e.push(one);
            } else {
                e.push(zero);
            }
        }
        let r = Mat4 { e };
        proof {
            assert(r.e@ =~= identity_spec());
            assert forall|n: int| 0 <= n < 16 implies (#[trigger] r.e@[n]).wf() by {
                assert(r.e@[n] == identity_spec()[n]);
            }
        }
        r
    }

    /// Whether this is a well-formed matrix: sixteen canonical entries.
    pub fn check_wf(&self) -> (r: bool)
        ensures
            r == self.wf(),
    {
        if self.e.len() != 16 {
            return false;
        }
        let mut n: usize = 0;
        while n < 16
            invariant
                self.e@.len() == 16,
                n <= 16,
                forall|k: int| 0 <= k < n ==> (#[trigger] self.e@[k]).wf(),
            decreases 16 - n,
        {
            if !self.e[n].check_wf() {
                return false;
            }
            n = n + 1;
        }
        true
    }

    /// An entry-for-entry copy.
    pub fn duplicate(&self) -> (r: Mat4)
        requires
            self.wf(),
        ensures
            r.e@ == self.e@,
            r.wf(),
    {
        let mut e: Vec<Rat> = Vec::new();
        for n in 0..16usize
            invariant
                self.wf(),
                e@.len() == n,
                forall|k: int| 0 <= k < n ==> #[trigger] e@[k] == self.e@[k],
        {
            e.push(self.e[n]);
        }
        let r = Mat4 { e };
        proof {
            assert(r.e@ =~= self.e@);
        }
        r
    }

    /// The transpose.
    pub fn transpose(&self) -> (r: Mat4)
        requires
            self.wf(),
        ensures
            r.wf(),
            r.e@ == transpose_spec(self.e@),
    {
        let mut e: Vec<Rat> = Vec::new();
        for i in 0..4usize
            invariant
                self.wf(),
                e@.len() == 4 * i,
                forall|k: int| 0 <= k < 4 * i ==> #[trigger] e@[k] == transpose_spec(self.e@)[k],
        {
            for j in 0..4usize
                invariant
                    self.wf(),
                    i < 4,
                    e@.len() == 4 * i + j,
                    forall|k: int| 0 <= k < 4 * i + j ==> #[trigger] e@[k] == transpose_spec(
                        self.e@,
                    )[k],
            {
                e.push(self.e[4 * j + i]);
            }
        }
        let r = Mat4 { e };
        proof {
            assert(r.e@ =~= transpose_spec(self.e@));
            assert forall|n: int| 0 <= n < 16 implies (#[trigger] r.e@[n]).wf() by {
                assert(r.e@[n] == self.e@[(n % 4) * 4 + n / 4]);
            }
        }
        r
    }
}

/// The exact matrix product.
#[verifier::rlimit(60)]
pub fn mat_mul(a: &Mat4, b: &Mat4) -> (r: Option<Mat4>)
    requires
        a.wf(),
        b.wf(),
    ensures
        r is Some <==> mat_mul_spec(a.e@, b.e@) is Some,
        r is Some ==> r->Some_0.wf() && r->Some_0.e@ == mat_mul_spec(a.e@, b.e@)->Some_0,
{
    let mut e: Vec<Rat> = Vec::new();
    for i in 0..4usize
        invariant
            a.wf(),
            b.wf(),
            e@.len() == 4 * i,
            forall|k: int| 0 <= k < 4 * i ==> (#[trigger] mm_entry(a.e@, b.e@, k / 4, k % 4))
                is Some,
            forall|k: int| 0 <= k < 4 * i ==> #[trigger] e@[k] == mm_entry(
                a.e@,
                b.e@,
                k / 4,
                k % 4,
            )->Some_0,
            forall|k: int| 0 <= k < 4 * i ==> (#[trigger] e@[k]).wf(),
    {
        for j in 0..4usize
            invariant
                a.wf(),
                b.wf(),
                i < 4,
                e@.len() == 4 * i + j,
                forall|k: int| 0 <= k < 4 * i + j ==> (#[trigger] mm_entry(a.e@, b.e@, k / 4, k % 4))
                    is Some,
                forall|k: int| 0 <= k < 4 * i + j ==> #[trigger] e@[k] == mm_entry(
                    a.e@,
                    b.e@,
                    k / 4,
                    k % 4,
                )->Some_0,
                forall|k: int| 0 <= k < 4 * i + j ==> (#[trigger] e@[k]).wf(),
        {
            let v = dot4(
                a.e[4 * i],
                b.e[j],
                a.e[4 * i + 1],
                b.e[4 + j],
                a.e[4 * i + 2],
                b.e[8 + j],
                a.e[4 * i + 3],
                b.e[12 + j],
            );
            match v {
                Some(val) => {
                    proof {
                        assert(mm_entry(a.e@, b.e@, (4 * i + j) as int / 4, (4 * i + j) as int % 4)
                            == mm_entry(a.e@, b.e@, i as int, j as int));
                    }
                    e.push(val);
                },
                None => {
                    proof {
                        let n = 4 * i + j;
                        assert(mm_entry(a.e@, b.e@, n as int / 4, n as int % 4) is None);
                        assert(mat_mul_spec(a.e@, b.e@) is None);
                    }
                    return None;
                },
            }
        }
    }
    let r = Mat4 { e };
    proof {
        assert(mat_mul_spec(a.e@, b.e@) is Some);
        assert(r.e@ =~= mat_mul_spec(a.e@, b.e@)->Some_0);
    }
    Some(r)
}

/// Dot product of four scalar pairs.
pub fn dot4(a0: Rat, b0: Rat, a1: Rat, b1: Rat, a2: Rat, b2: Rat, a3: Rat, b3: Rat) -> (r: Option<
    Rat,
>)
    requires
        a0.wf(),
        b0.wf(),
        a1.wf(),
        b1.wf(),
        a2.wf(),
        b2.wf(),
        a3.wf(),
        b3.wf(),
    ensures
        r == dot4_spec(a0, b0, a1, b1, a2, b2, a3, b3),
        r is Some ==> r->Some_0.wf(),
{
    let s0 = match a0.mul(b0) {
        Some(v) => v,
        None => {
            return None;
        },
    };
    let s1 = match mul_add(a1, b1, s0) {
        Some(v) => v,
        None => {
            return None;
        },
    };
    let s2 = match mul_add(a2, b2, s1) {
        Some(v) => v,
        None => {
            return None;
        },
    };
    mul_add(a3, b3, s2)
}

/// The unit vector along `v` at the quantised precision: `v` divided by the
/// quantised square root of its squared length. `None` for the zero vector
/// (or a negative rounded length, which cannot arise from a true square).
pub open spec fn v3_normalize_spec(v: Vec3) -> Option<Vec3> {
    match v3_dot_spec(v, v) {
        Some(len2) => if len2.num < 0 {
            None
        } else {
            match crate::trig::sqrt_q_spec(len2) {
                Some(len) => if len.num == 0 {
                    None
                } else {
                    match (rat_div(v.x, len), rat_div(v.y, len), rat_div(v.z, len)) {
                        (Some(x), Some(y), Some(z)) => Some(Vec3 { x, y, z }),
                        _ => None,
                    }
                },
                None => None,
            }
        },
        None => None,
    }
}

/// The unit vector along `v` at the quantised precision.
pub fn v3_normalize(v: Vec3) -> (r: Option<Vec3>)
    requires
        v.wf(),
    ensures
        r == v3_normalize_spec(v),
        r is Some ==> r->Some_0.wf(),
{
    let len2 = match v.dot(v) {
        Some(l) => l,
        None => {
            return None;
        },
    };
    if len2.num < 0 {
        return None;
    }
    let len = match crate::trig::sqrt_q(len2) {
        Some(l) => l,
        None => {
            return None;
        },
    };
    if len.is_zero() {
        return None;
    }
    let x = match v.x.div(len) {
        Some(c) => c,
        None => {
            return None;
        },
    };
    let y = match v.y.div(len) {
        Some(c) => c,
        None => {
            return None;
        },
    };
    let z = match v.z.div(len) {
        Some(c) => c,
        None => {
            return None;
        },
    };
    Some(Vec3 { x, y, z })
}

/// A well-formed sixteen-entry matrix view.
pub open spec fn mat_seq_wf(m: Seq<Rat>) -> bool {
    m.len() == 16 && forall|n: int| 0 <= n < 16 ==> (#[trigger] m[n]).wf()
}

/// One row of the identity times a column of `m` picks out one entry.
proof fn lemma_identity_row(m: Seq<Rat>, i: int, j: int)
    requires
        mat_seq_wf(m),
        0 <= i < 4,
        0 <= j < 4,
    ensures
        mm_entry(identity_spec(), m, i, j) == Some(m[4 * i + j]),
{
    crate::rat::lemma_consts_wf();
    let idm = identity_spec();
    let one = crate::rat::rat_one();
    let z = crate::rat::rat_zero();
    assert(idm[4 * i + 0] == if i == 0 { one } else { z });
    assert(idm[4 * i + 1] == if i == 1 { one } else { z });
    assert(idm[4 * i + 2] == if i == 2 { one } else { z });
    assert(idm[4 * i + 3] == if i == 3 { one } else { z });
    // every step either adds zero or adds the selected entry to zero
    crate::rat::lemma_mul_one(m[j]);
    crate::rat::lemma_mul_one(m[4 + j]);
    crate::rat::lemma_mul_one(m[8 + j]);
    crate::rat::lemma_mul_one(m[12 + j]);
    crate::rat::lemma_mul_zero(m[j]);
    crate::rat::lemma_mul_zero(m[4 + j]);
    crate::rat::lemma_mul_zero(m[8 + j]);
    crate::rat::lemma_mul_zero(m[12 + j]);
    crate::rat::lemma_add_zero(m[j]);
    crate::rat::lemma_add_zero(m[4 + j]);
    crate::rat::lemma_add_zero(m[8 + j]);
    crate::rat::lemma_add_zero(m[12 + j]);
    crate::rat::lemma_add_zero(z);
}

/// Multiplying by the identity on the left changes nothing.
pub proof fn lemma_mat_mul_identity_left(m: Seq<Rat>)
    requires
        mat_seq_wf(m),
    ensures
        mat_mul_spec(identity_spec(), m) == Some(m),
{
    assert forall|n: int| 0 <= n < 16 implies (#[trigger] mm_entry(identity_spec(), m, n / 4, n % 4))
        == Some(m[n]) by {
        lemma_identity_row(m, n / 4, n % 4);
        assert(4 * (n / 4) + n % 4 == n) by (nonlinear_arith)
            requires
                0 <= n < 16,
        ;
    }
    assert(mat_mul_spec(identity_spec(), m)->Some_0 =~= m);
}

/// The translation matrix moving the origin to `t`.
pub open spec fn from_translation_spec(t: Vec3) -> Seq<Rat> {
    identity_spec().update(3, t.x).update(7, t.y).update(11, t.z)
}

/// The scaling matrix with diagonal `s`.
pub open spec fn from_scale_spec(s: Vec3) -> Seq<Rat> {
    identity_spec().update(0, s.x).update(5, s.y).update(10, s.z)
}

/// The translation matrix moving the origin to `t`.
pub fn from_translation(t: Vec3) -> (r: Mat4)
    requires
        t.wf(),
    ensures
        r.wf(),
        r.e@ == from_translation_spec(t),
{
    let one = Rat::one();
    let zero = Rat::zero();
    let mut e: Vec<Rat> = Vec::new();
    for n in 0..16usize
        invariant
            t.wf(),
            e@.len() == n,
            forall|k: int| 0 <= k < n ==> #[trigger] e@[k] == from_translation_spec(t)[k],
            one == crate::rat::rat_one(),
            zero == crate::rat::rat_zero(),
    {
        let v = if n == 3 {
            t.x
        } else if n == 7 {
            t.y
        } else if n == 11 {
            t.z
        } else if n / 4 == n % 4 {
            one
        } else {
            zero
        };
        e.push(v);
    }
    let r = Mat4 { e };
    proof {
        assert(r.e@ =~= from_translation_spec(t));
        assert forall|n: int| 0 <= n < 16 implies (#[trigger] r.e@[n]).wf() by {
            assert(r.e@[n] == from_translation_spec(t)[n]);
        }
    }
    r
}

/// The scaling matrix with diagonal `s`.
pub fn from_scale(s: Vec3) -> (r: Mat4)
    requires
        s.wf(),
    ensures
        r.wf(),
        r.e@ == from_scale_spec(s),
{
    let one = Rat::one();
    let zero = Rat::zero();
    let mut e: Vec<Rat> = Vec::new();
    for n in 0..16usize
        invariant
            s.wf(),
            e@.len() == n,
            forall|k: int| 0 <= k < n ==> #[trigger] e@[k] == from_scale_spec(s)[k],
            one == crate::rat::rat_one(),
            zero == crate::rat::rat_zero(),
    {
        let v = if n == 0 {
            s.x
        } else if n == 5 {
            s.y
        } else if n == 10 {
            s.z
        } else if n == 15 {
            one
        } else {
            zero
        };
        e.push(v);
    }
    let r = Mat4 { e };
    proof {
        assert(r.e@ =~= from_scale_spec(s));
        assert forall|n: int| 0 <= n < 16 implies (#[trigger] r.e@[n]).wf() by {
            assert(r.e@[n] == from_scale_spec(s)[n]);
        }
    }
    r
}

/// A rotation matrix diagonal entry, `1 - 2 * (a^2 + b^2)`.
pub open spec fn rq_diag_spec(a: Rat, b: Rat) -> Option<Rat> {
    match (rat_mul(a, a), rat_mul(b, b)) {
        (Some(aa), Some(bb)) => match rat_add(aa, bb) {
            Some(s) => match rat_mul(crate::rat::rat_two(), s) {
                Some(d) => rat_sub(crate::rat::rat_one(), d),
                None => None,
            },
            None => None,
        },
        _ => None,
    }
}

/// A rotation matrix off-diagonal entry, `2 * (a * b + c * d)` or
/// `2 * (a * b - c * d)`.
pub open spec fn rq_off_spec(a: Rat, b: Rat, c: Rat, d: Rat, plus: bool) -> Option<Rat> {
    match (rat_mul(a, b), rat_mul(c, d)) {
        (Some(p), Some(q)) => {
            let s = if plus {
                rat_add(p, q)
            } else {
                rat_sub(p, q)
            };
            match s {
                Some(v) => rat_mul(crate::rat::rat_two(), v),
                None => None,
            }
        },
        _ => None,
    }
}

/// The rotation matrix of the unit quaternion `q`, row-major.
pub open spec fn from_quat_spec(q: Quat) -> Option<Seq<Rat>> {
    let z = crate::rat::rat_zero();
    let one = crate::rat::rat_one();
    match (
        rq_diag_spec(q.y, q.z),
        rq_off_spec(q.x, q.y, q.z, q.w, false),
        rq_off_spec(q.x, q.z, q.y, q.w, true),
        rq_off_spec(q.x, q.y, q.z, q.w, true),
        rq_diag_spec(q.x, q.z),
        rq_off_spec(q.y, q.z, q.x, q.w, false),
        rq_off_spec(q.x, q.z, q.y, q.w, false),
        rq_off_spec(q.y, q.z, q.x, q.w, true),
        rq_diag_spec(q.x, q.y),
    ) {
        (
            Some(m00),
            Some(m01),
            Some(m02),
            Some(m10),
            Some(m11),
            Some(m12),
            Some(m20),
            Some(m21),
            Some(m22),
        ) => Some(
            seq![m00, m01, m02, z, m10, m11, m12, z, m20, m21, m22, z, z, z, z, one],
        ),
        _ => None,
    }
}

/// A rotation matrix diagonal entry, `1 - 2 * (a^2 + b^2)`.
pub fn rq_diag(a: Rat, b: Rat) -> (r: Option<Rat>)
    requires
        a.wf(),
        b.wf(),
    ensures
        r == rq_diag_spec(a, b),
        r is Some ==> r->Some_0.wf(),
{
    let aa = match a.mul(a) {
        Some(v) => v,
        None => {
            return None;
        },
    };
    let bb = match b.mul(b) {
        Some(v) => v,
        None => {
            return None;
        },
    };
    let s = match aa.add(bb) {
        Some(v) => v,
        None => {
            return None;
        },
    };
    let two = Rat::from_int(2);
    let d = match two.mul(s) {
        Some(v) => v,
        None => {
            return None;
        },
    };
    Rat::one().sub(d)
}

/// A rotation matrix off-diagonal entry, `2 * (a * b +- c * d)`.
pub fn rq_off(a: Rat, b: Rat, c: Rat, d: Rat, plus: bool) -> (r: Option<Rat>)
    requires
        a.wf(),
        b.wf(),
        c.wf(),
        d.wf(),
    ensures
        r == rq_off_spec(a, b, c, d, plus),
        r is Some ==> r->Some_0.wf(),
{
    let p = match a.mul(b) {
        Some(v) => v,
        None => {
            return None;
        },
    };
    let q = match c.mul(d) {
        Some(v) => v,
        None => {
            return None;
        },
    };
    let s = if plus {
        p.add(q)
    } else {
        p.sub(q)
    };
    let sv = match s {
        Some(v) => v,
        None => {
            return None;
        },
    };
    let two = Rat::from_int(2);
    two.mul(sv)
}

/// The rotation matrix of the unit quaternion `q`, row-major.
pub fn from_quat(q: Quat) -> (r: Option<Mat4>)
    requires
        q.wf(),
    ensures
        r is Some <==> from_quat_spec(q) is Some,
        r is Some ==> r->Some_0.wf() && r->Some_0.e@ == from_quat_spec(q)->Some_0,
{
    let m00 = match rq_diag(q.y, q.z) {
        Some(v) => v,
        None => {
            return None;
        },
    };
    let m01 = match rq_off(q.x, q.y, q.z, q.w, false) {
        Some(v) => v,
        None => {
            return None;
        },
    };
    let m02 = match rq_off(q.x, q.z, q.y, q.w, true) {
        Some(v) => v,
        None => {
            return None;
        },
    };
    let m10 = match rq_off(q.x, q.y, q.z, q.w, true) {
        Some(v) => v,
        None => {
            return None;
        },
    };
    let m11 = match rq_diag(q.x, q.z) {
        Some(v) => v,
        None => {
            return None;
        },
    };
    let m12 = match rq_off(q.y, q.z, q.x, q.w, false) {
        Some(v) => v,
        None => {
            return None;
        },
    };
    let m20 = match rq_off(q.x, q.z, q.y, q.w, false) {
        Some(v) => v,
        None => {
            return None;
        },
    };
    let m21 = match rq_off(q.y, q.z, q.x, q.w, true) {
        Some(v) => v,
        None => {
            return None;
        },
    };
    let m22 = match rq_diag(q.x, q.y) {
        Some(v) => v,
        None => {
            return None;
        },
    };
    let z = Rat::zero();
    let one = Rat::one();
    let mut e: Vec<Rat> = Vec::new();
    e.push(m00);
    e.push(m01);
    e.push(m02);
    e.push(z);
    e.push(m10);
    e.push(m11);
    e.push(m12);
    e.push(z);
    e.push(m20);
    e.push(m21);
    e.push(m22);
    e.push(z);
    e.push(z);
    e.push(z);
    e.push(z);
    e.push(one);
    let r = Mat4 { e };
    proof {
        assert(r.e@ =~= from_quat_spec(q)->Some_0);
        assert forall|n: int| 0 <= n < 16 implies (#[trigger] r.e@[n]).wf() by {}
    }
    Some(r)
}

/// One output row of a point or vector transform: the row dotted with the
/// three components, plus the row's translation entry for a point.
pub open spec fn tp_row_spec(m: Seq<Rat>, row: int, v: Vec3, translate: bool) -> Option<Rat> {
    match rat_mul(m[4 * row], v.x) {
        Some(s0) => match mul_add_spec(m[4 * row + 1], v.y, s0) {
            Some(s1) => match mul_add_spec(m[4 * row + 2], v.z, s1) {
                Some(s2) => if translate {
                    rat_add(s2, m[4 * row + 3])
                } else {
                    Some(s2)
                },
                None => None,
            },
            None => None,
        },
        None => None,
    }
}

/// The image of the point `v` (implicit `w == 1`) under `m`.
pub open spec fn transform_point3_spec(m: Seq<Rat>, v: Vec3) -> Option<Vec3> {
    match (tp_row_spec(m, 0, v, true), tp_row_spec(m, 1, v, true), tp_row_spec(m, 2, v, true)) {
        (Some(x), Some(y), Some(z)) => Some(Vec3 { x, y, z }),
        _ => None,
    }
}

/// The image of the direction `v` (implicit `w == 0`) under `m`.
pub open spec fn transform_vector3_spec(m: Seq<Rat>, v: Vec3) -> Option<Vec3> {
    match (tp_row_spec(m, 0, v, false), tp_row_spec(m, 1, v, false), tp_row_spec(m, 2, v, false)) {
        (Some(x), Some(y), Some(z)) => Some(Vec3 { x, y, z }),
        _ => None,
    }
}

/// One output row of a transform.
pub fn tp_row(m: &Mat4, row: usize, v: Vec3, translate: bool) -> (r: Option<Rat>)
    requires
        m.wf(),
        row < 4,
        v.wf(),
    ensures
        r == tp_row_spec(m.e@, row as int, v, translate),
        r is Some ==> r->Some_0.wf(),
{
    let s0 = match m.e[4 * row].mul(v.x) {
        Some(s) => s,
        None => {
            return None;
        },
    };
    let s1 = match mul_add(m.e[4 * row + 1], v.y, s0) {
        Some(s) => s,
        None => {
            return None;
        },
    };
    let s2 = match mul_add(m.e[4 * row + 2], v.z, s1) {
        Some(s) => s,
        None => {
            return None;
        },
    };
    if translate {
        s2.add(m.e[4 * row + 3])
    } else {
        Some(s2)
    }
}

/// The image of the point `v` under `m`.
pub fn transform_point3(m: &Mat4, v: Vec3) -> (r: Option<Vec3>)
    requires
        m.wf(),
        v.wf(),
    ensures
        r == transform_point3_spec(m.e@, v),
        r is Some ==> r->Some_0.wf(),
{
    let x = match tp_row(m, 0, v, true) {
        Some(s) => s,
        None => {
            return None;
        },
    };
    let y = match tp_row(m, 1, v, true) {
        Some(s) => s,
        None => {
            return None;
        },
    };
    let z = match tp_row(m, 2, v, true) {
        Some(s) => s,
        None => {
            return None;
        },
    };
    Some(Vec3 { x, y, z })
}

/// The image of the direction `v` under `m`.
pub fn transform_vector3(m: &Mat4, v: Vec3) -> (r: Option<Vec3>)
    requires
        m.wf(),
        v.wf(),
    ensures
        r == transform_vector3_spec(m.e@, v),
        r is Some ==> r->Some_0.wf(),
{
    let x = match tp_row(m, 0, v, false) {
        Some(s) => s,
        None => {
            return None;
        },
    };
    let y = match tp_row(m, 1, v, false) {
        Some(s) => s,
        None => {
            return None;
        },
    };
    let z = match tp_row(m, 2, v, false) {
        Some(s) => s,
        None => {
            return None;
        },
    };
    Some(Vec3 { x, y, z })
}

/// `a * d - b * c`.
pub fn det2(a: Rat, b: Rat, c: Rat, d: Rat) -> (r: Option<Rat>)
    requires
        a.wf(),
        b.wf(),
        c.wf(),
        d.wf(),
    ensures
        r == det2_spec(a, b, c, d),
        r is Some ==> r->Some_0.wf(),
{
    let p = match a.mul(d) {
        Some(v) => v,
        None => {
            return None;
        },
    };
    let q = match b.mul(c) {
        Some(v) => v,
        None => {
            return None;
        },
    };
    p.sub(q)
}

/// The three-by-three determinant of the entries `a..i`, row by row.
pub open spec fn det3_spec(
    a: Rat, b: Rat, c: Rat, d: Rat, e: Rat, f: Rat, g: Rat, h: Rat, i: Rat,
) -> Option<Rat> {
    match (det2_spec(e, f, h, i), det2_spec(d, f, g, i), det2_spec(d, e, g, h)) {
        (Some(m1), Some(m2), Some(m3)) => match (rat_mul(a, m1), rat_mul(b, m2), rat_mul(c, m3)) {
            (Some(t1), Some(t2), Some(t3)) => match rat_sub(t1, t2) {
                Some(s) => rat_add(s, t3),
                None => None,
            },
            _ => None,
        },
        _ => None,
    }
}

/// The three-by-three determinant.
pub fn det3(a: Rat, b: Rat, c: Rat, d: Rat, e: Rat, f: Rat, g: Rat, h: Rat, i: Rat) -> (r: Option<
    Rat,
>)
    requires
        a.wf(),
        b.wf(),
        c.wf(),
        d.wf(),
        e.wf(),
        f.wf(),
        g.wf(),
        h.wf(),
        i.wf(),
    ensures
        r == det3_spec(a, b, c, d, e, f, g, h, i),
        r is Some ==> r->Some_0.wf(),
{
    let m1 = match det2(e, f, h, i) {
        Some(v) => v,
        None => {
            return None;
        },
    };
    let m2 = match det2(d, f, g, i) {
        Some(v) => v,
        None => {
            return None;
        },
    };
    let m3 = match det2(d, e, g, h) {
        Some(v) => v,
        None => {
            return None;
        },
    };
    let t1 = match a.mul(m1) {
        Some(v) => v,
        None => {
            return None;
        },
    };
    let t2 = match b.mul(m2) {
        Some(v) => v,
        None => {
            return None;
        },
    };
    let t3 = match c.mul(m3) {
        Some(v) => v,
        None => {
            return None;
        },
    };
    let s = match t1.sub(t2) {
        Some(v) => v,
        None => {
            return None;
        },
    };
    s.add(t3)
}

/// The three indices in `0..4` other than `i`, ascending.
pub open spec fn skip3(i: int) -> (int, int, int) {
    if i == 0 {
        (1, 2, 3)
    } else if i == 1 {
        (0, 2, 3)
    } else if i == 2 {
        (0, 1, 3)
    } else {
        (0, 1, 2)
    }
}

/// The three indices in `0..4` other than `i`, ascending.
pub fn skip3_exec(i: usize) -> (r: (usize, usize, usize))
    requires
        i < 4,
    ensures
        r.0 as int == skip3(i as int).0,
        r.1 as int == skip3(i as int).1,
        r.2 as int == skip3(i as int).2,
{
    if i == 0 {
        (1, 2, 3)
    } else if i == 1 {
        (0, 2, 3)
    } else if i == 2 {
        (0, 1, 3)
    } else {
        (0, 1, 2)
    }
}

/// The signed cofactor of entry `(i, j)`: the minor's determinant, negated
/// on the odd checkerboard squares.
pub open spec fn cof_spec(m: Seq<Rat>, i: int, j: int) -> Option<Rat> {
    let r = skip3(i);
    let c = skip3(j);
    match det3_spec(
        m[4 * r.0 + c.0],
        m[4 * r.0 + c.1],
        m[4 * r.0 + c.2],
        m[4 * r.1 + c.0],
        m[4 * r.1 + c.1],
        m[4 * r.1 + c.2],
        m[4 * r.2 + c.0],
        m[4 * r.2 + c.1],
        m[4 * r.2 + c.2],
    ) {
        Some(d) => Some(
            if (i + j) % 2 == 1 {
                crate::rat::rat_neg(d)
            } else {
                d
            },
        ),
        None => None,
    }
}

/// The signed cofactor of entry `(i, j)`.
pub fn cof(m: &Mat4, i: usize, j: usize) -> (r: Option<Rat>)
    requires
        m.wf(),
        i < 4,
        j < 4,
    ensures
        r == cof_spec(m.e@, i as int, j as int),
        r is Some ==> r->Some_0.wf(),
{
    let (r0, r1, r2) = skip3_exec(i);
    let (c0, c1, c2) = skip3_exec(j);
    let d = det3(
        m.e[4 * r0 + c0],
        m.e[4 * r0 + c1],
        m.e[4 * r0 + c2],
        m.e[4 * r1 + c0],
        m.e[4 * r1 + c1],
        m.e[4 * r1 + c2],
        m.e[4 * r2 + c0],
        m.e[4 * r2 + c1],
        m.e[4 * r2 + c2],
    );
    match d {
        Some(v) => {
            if (i + j) % 2 == 1 {
                Some(v.neg())
            } else {
                Some(v)
            }
        },
        None => None,
    }
}

/// The determinant, by cofactor expansion along the first row.
pub open spec fn det4_spec(m: Seq<Rat>) -> Option<Rat> {
    match (cof_spec(m, 0, 0), cof_spec(m, 0, 1), cof_spec(m, 0, 2), cof_spec(m, 0, 3)) {
        (Some(c0), Some(c1), Some(c2), Some(c3)) => dot4_spec(
            m[0],
            c0,
            m[1],
            c1,
            m[2],
            c2,
            m[3],
            c3,
        ),
        _ => None,
    }
}

/// The determinant, by cofactor expansion along the first row.
pub fn det4(m: &Mat4) -> (r: Option<Rat>)
    requires
        m.wf(),
    ensures
        r == det4_spec(m.e@),
        r is Some ==> r->Some_0.wf(),
{
    let c0 = match cof(m, 0, 0) {
        Some(v) => v,
        None => {
            return None;
        },
    };
    let c1 = match cof(m, 0, 1) {
        Some(v) => v,
        None => {
            return None;
        },
    };
    let c2 = match cof(m, 0, 2) {
        Some(v) => v,
        None => {
            return None;
        },
    };
    let c3 = match cof(m, 0, 3) {
        Some(v) => v,
        None => {
            return None;
        },
    };
    dot4(m.e[0], c0, m.e[1], c1, m.e[2], c2, m.e[3], c3)
}

/// Whether every entry equals the identity matrix's.
pub fn mat_is_identity(m: &Mat4) -> (r: bool)
    requires
        m.wf(),
    ensures
        r == (m.e@ == identity_spec()),
{
    let one = Rat::one();
    let zero = Rat::zero();
    let mut n: usize = 0;
    while n < 16
        invariant
            m.wf(),
            n <= 16,
            one == crate::rat::rat_one(),
            zero == crate::rat::rat_zero(),
            forall|k: int| 0 <= k < n ==> #[trigger] m.e@[k] == identity_spec()[k],
        decreases 16 - n,
    {
        let want_one: bool = n / 4 == n % 4;
        let ok = if want_one {
            m.e[n] == one
        } else {
            m.e[n] == zero
        };
        if !ok {
            proof {
                assert(m.e@[n as int] != identity_spec()[n as int]);
            }
            return false;
        }
        n = n + 1;
    }
    proof {
        assert(m.e@ =~= identity_spec());
    }
    true
}

/// One inverse entry at flat position `q`: the cofactor of the transposed
/// position, divided by the determinant.
pub open spec fn inv_entry_spec(m: Seq<Rat>, det: Rat, q: int) -> Option<Rat> {
    match cof_spec(m, q % 4, q / 4) {
        Some(c) => crate::rat::rat_div(c, det),
        None => None,
    }
}

/// The exact inverse, by the adjugate over the determinant, confirmed by
/// multiplying back: `None` when the determinant is zero (a degenerate
/// matrix), when an entry leaves the representable range, or when the
/// confirming product does not come out as the identity.
pub open spec fn inverse_spec(m: Seq<Rat>) -> Option<Seq<Rat>> {
    match det4_spec(m) {
        None => None,
        Some(det) => if det.num == 0 {
            None
        } else if forall|q: int| 0 <= q < 16 ==> (#[trigger] inv_entry_spec(m, det, q)) is Some {
            let cand = Seq::new(16, |q: int| inv_entry_spec(m, det, q)->Some_0);
            if mat_mul_spec(cand, m) == Some(identity_spec()) {
                Some(cand)
            } else {
                None
            }
        } else {
            None
        },
    }
}

/// The exact inverse, by the adjugate over the determinant, confirmed by
/// multiplying back: when the result is produced, its product with `m` is
/// the identity, exactly. `None` when the determinant is zero (the matrix is
/// degenerate) or some intermediate value leaves the representable range.
#[verifier::rlimit(60)]
pub fn inverse(m: &Mat4) -> (r: Option<Mat4>)
    requires
        m.wf(),
    ensures
        r is Some <==> inverse_spec(m.e@) is Some,
        r is Some ==> r->Some_0.wf() && r->Some_0.e@ == inverse_spec(m.e@)->Some_0 && mat_mul_spec(
            r->Some_0.e@,
            m.e@,
        ) == Some(identity_spec()),
        det4_spec(m.e@) == Some(crate::rat::rat_zero()) ==> r is None,
{
    let det = match det4(m) {
        Some(v) => v,
        None => {
            return None;
        },
    };
    if det.is_zero() {
        return None;
    }
    let mut e: Vec<Rat> = Vec::new();
    for i in 0..4usize
        invariant
            m.wf(),
            det.wf(),
            Some(det) == det4_spec(m.e@),
            det.num != 0,
            e@.len() == 4 * i,
            forall|q: int| 0 <= q < 4 * i ==> Some(#[trigger] e@[q]) == inv_entry_spec(
                m.e@,
                det,
                q,
            ),
            forall|q: int| 0 <= q < 4 * i ==> (#[trigger] e@[q]).wf(),
    {
        for j in 0..4usize
            invariant
                m.wf(),
                det.wf(),
                Some(det) == det4_spec(m.e@),
                det.num != 0,
                i < 4,
                e@.len() == 4 * i + j,
                forall|q: int| 0 <= q < 4 * i + j ==> Some(#[trigger] e@[q]) == inv_entry_spec(
                    m.e@,
                    det,
                    q,
                ),
                forall|q: int| 0 <= q < 4 * i + j ==> (#[trigger] e@[q]).wf(),
        {
            proof {
                assert((4 * i + j) as int % 4 == j as int && (4 * i + j) as int / 4
                    == i as int) by (nonlinear_arith)
                    requires
                        i < 4,
                        j < 4,
                ;
            }
            let c = match cof(m, j, i) {
                Some(v) => v,
                None => {
                    proof {
                        assert(inv_entry_spec(m.e@, det, (4 * i + j) as int) is None);
                    }
                    return None;
                },
            };
            let v = match c.div(det) {
                Some(v) => v,
                None => {
                    proof {
                        assert(inv_entry_spec(m.e@, det, (4 * i + j) as int) is None);
                    }
                    return None;
                },
            };
            e.push(v);
        }
    }
    proof {
        assert forall|q: int| 0 <= q < 16 implies (#[trigger] inv_entry_spec(m.e@, det, q))
            is Some by {
            assert(Some(e@[q]) == inv_entry_spec(m.e@, det, q));
        }
        assert(e@ =~= Seq::new(16, |q: int| inv_entry_spec(m.e@, det, q)->Some_0));
    }
    let cand = Mat4 { e };
    let prod = match mat_mul(&cand, m) {
        Some(p) => p,
        None => {
            return None;
        },
    };
    if mat_is_identity(&prod) {
        Some(cand)
    } else {
        None
    }
}

/// The normal matrix of a world transform: the transpose of its exact
/// inverse. `None` exactly when the inverse is unavailable (a degenerate
/// world matrix, or a value out of range) — the mesh it belongs to is
/// skipped for the frame.
pub fn normal_matrix(world: &Mat4) -> (r: Option<Mat4>)
    requires
        world.wf(),
    ensures
        r is Some <==> inverse_spec(world.e@) is Some,
        r is Some ==> r->Some_0.wf() && r->Some_0.e@ == transpose_spec(
            inverse_spec(world.e@)->Some_0,
        ),
        det4_spec(world.e@) == Some(crate::rat::rat_zero()) ==> r is None,
{
    let inv = match inverse(world) {
        Some(m) => m,
        None => {
            return None;
        },
    };
    Some(inv.transpose())
}

} // verus!
