//! The scene camera: eye, target and up vectors with the perspective
//! parameters, the right-handed view and projection matrices derived from
//! them, and the orbit update that rotates the frame by a user-supplied
//! rotation matrix.

use crate::algebra::{
    transform_point3, transform_point3_spec, transform_vector3, transform_vector3_spec,
    v3_cross_spec, v3_dot_spec, v3_normalize, v3_normalize_spec, v3_sub_spec, Mat4, Vec3,
};
use crate::rat::{rat_div, rat_neg, rat_sub, Rat};
use crate::trig::tan_q_spec;
use vstd::prelude::*;

verus! {

/// The camera state. Exactly one is resolved per scene: the first camera
/// node in traversal order, or a fixed default when the scene has none.
pub struct Camera {
    pub eye: Vec3,
    pub target: Vec3,
    pub up: Vec3,
    pub near: Rat,
    pub far: Rat,
    pub aspect: Rat,
    pub vfov: Rat,
}

/// A three-by-three rotation matrix, row-major, used for orbit input.
pub struct Mat3 {
    pub e: Vec<Rat>,
}

impl Mat3 {
    /// Nine canonical entries.
    pub open spec fn wf(self) -> bool {
        self.e@.len() == 9 && forall|n: int| 0 <= n < 9 ==> (#[trigger] self.e@[n]).wf()
    }

    /// The image of `v` under this matrix.
    pub fn mul_vec3(&self, v: Vec3) -> (r: Option<Vec3>)
        requires
            self.wf(),
            v.wf(),
        ensures
            r == m3_mul_spec(self.e@, v),
            r is Some ==> r->Some_0.wf(),
    {
        let x = match crate::algebra::dot4(
            self.e[0],
            v.x,
            self.e[1],
            v.y,
            self.e[2],
            v.z,
            Rat::zero(),
            Rat::zero(),
        ) {
            Some(c) => c,
            None => {
                return None;
            },
        };
        let y = match crate::algebra::dot4(
            self.e[3],
            v.x,
            self.e[4],
            v.y,
            self.e[5],
            v.z,
            Rat::zero(),
            Rat::zero(),
        ) {
            Some(c) => c,
            None => {
                return None;
            },
        };
        let z = match crate::algebra::dot4(
            self.e[6],
            v.x,
            self.e[7],
            v.y,
            self.e[8],
            v.z,
            Rat::zero(),
            Rat::zero(),
        ) {
            Some(c) => c,
            None => {
                return None;
            },
        };
        proof {
            crate::rat::lemma_consts_wf();
        }
        Some(Vec3 { x, y, z })
    }
}

/// One row of a three-by-three product with a padding zero term.
pub open spec fn m3_row_spec(e: Seq<Rat>, row: int, v: Vec3) -> Option<Rat> {
    crate::algebra::dot4_spec(
        e[3 * row],
        v.x,
        e[3 * row + 1],
        v.y,
        e[3 * row + 2],
        v.z,
        crate::rat::rat_zero(),
        crate::rat::rat_zero(),
    )
}

/// The image of `v` under a three-by-three matrix.
pub open spec fn m3_mul_spec(e: Seq<Rat>, v: Vec3) -> Option<Vec3> {
    match (m3_row_spec(e, 0, v), m3_row_spec(e, 1, v), m3_row_spec(e, 2, v)) {
        (Some(x), Some(y), Some(z)) => Some(Vec3 { x, y, z }),
        _ => None,
    }
}

/// The right-handed look-at view matrix: the orthonormal frame built from
/// the forward direction and the up hint, with the eye projected onto it.
pub open spec fn look_at_rh_spec(eye: Vec3, target: Vec3, up: Vec3) -> Option<Seq<Rat>> {
    match v3_sub_spec(target, eye) {
        Some(dir) => match v3_normalize_spec(dir) {
            Some(f) => match v3_cross_spec(f, up) {
                Some(fu) => match v3_normalize_spec(fu) {
                    Some(s) => match v3_cross_spec(s, f) {
                        Some(u) => match (
                            v3_dot_spec(s, eye),
                            v3_dot_spec(u, eye),
                            v3_dot_spec(f, eye),
                        ) {
                            (Some(se), Some(ue), Some(fe)) => Some(
                                seq![
                                    s.x, s.y, s.z, rat_neg(se),
                                    u.x, u.y, u.z, rat_neg(ue),
                                    rat_neg(f.x), rat_neg(f.y), rat_neg(f.z), fe,
                                    crate::rat::rat_zero(), crate::rat::rat_zero(),
                                    crate::rat::rat_zero(), crate::rat::rat_one()
                                ],
                            ),
                            _ => None,
                        },
                        None => None,
                    },
                    None => None,
                },
                None => None,
            },
            None => None,
        },
        None => None,
    }
}

/// The right-handed look-at view matrix.
pub fn look_at_rh(eye: Vec3, target: Vec3, up: Vec3) -> (r: Option<Mat4>)
    requires
        eye.wf(),
        target.wf(),
        up.wf(),
    ensures
        r is Some <==> look_at_rh_spec(eye, target, up) is Some,
        r is Some ==> r->Some_0.wf() && r->Some_0.e@ == look_at_rh_spec(eye, target, up)->Some_0,
{
    proof {
        crate::rat::lemma_consts_wf();
    }
    let dir = match target.sub(eye) {
        Some(d) => d,
        None => {
            return None;
        },
    };
    let f = match v3_normalize(dir) {
        Some(f) => f,
        None => {
            return None;
        },
    };
    let fu = match f.cross(up) {
        Some(c) => c,
        None => {
            return None;
        },
    };
    let s = match v3_normalize(fu) {
        Some(s) => s,
        None => {
            return None;
        },
    };
    let u = match s.cross(f) {
        Some(u) => u,
        None => {
            return None;
        },
    };
    let se = match s.dot(eye) {
        Some(d) => d,
        None => {
            return None;
        },
    };
    let ue = match u.dot(eye) {
        Some(d) => d,
        None => {
            return None;
        },
    };
    let fe = match f.dot(eye) {
        Some(d) => d,
        None => {
            return None;
        },
    };
    let z = Rat::zero();
    let one = Rat::one();
    let mut e: Vec<Rat> = Vec::new();
    e.push(s.x);
    e.push(s.y);
    e.push(s.z);
    e.push(se.neg());
    e.push(u.x);
    e.push(u.y);
    e.push(u.z);
    e.push(ue.neg());
    e.push(f.x.neg());
    e.push(f.y.neg());
    e.push(f.z.neg());
    e.push(fe);
    e.push(z);
    e.push(z);
    e.push(z);
    e.push(one);
    let r = Mat4 { e };
    proof {
        assert(r.e@ =~= look_at_rh_spec(eye, target, up)->Some_0);
        assert forall|n: int| 0 <= n < 16 implies (#[trigger] r.e@[n]).wf() by {}
    }
    Some(r)
}

/// The right-handed perspective projection: focal scale over the aspect
/// ratio and the near/far depth mapping, at the quantised tangent precision.
pub open spec fn perspective_rh_spec(vfov: Rat, aspect: Rat, near: Rat, far: Rat) -> Option<
    Seq<Rat>,
> {
    match crate::rat::rat_div(vfov, crate::rat::rat_two()) {
        Some(half) => match tan_q_spec(half) {
            Some(t) => if t.num == 0 {
                None
            } else {
                match rat_div(crate::rat::rat_one(), t) {
                    Some(focal) => match rat_div(focal, aspect) {
                        Some(m00) => match rat_sub(near, far) {
                            Some(nmf) => if nmf.num == 0 {
                                None
                            } else {
                                match rat_div(far, nmf) {
                                    Some(m22) => match crate::rat::rat_mul(near, far) {
                                        Some(nf) => match rat_div(nf, nmf) {
                                            Some(m23) => Some(
                                                seq![
                                                    m00, crate::rat::rat_zero(),
                                                    crate::rat::rat_zero(), crate::rat::rat_zero(),
                                                    crate::rat::rat_zero(), focal,
                                                    crate::rat::rat_zero(), crate::rat::rat_zero(),
                                                    crate::rat::rat_zero(), crate::rat::rat_zero(),
                                                    m22, m23,
                                                    crate::rat::rat_zero(), crate::rat::rat_zero(),
                                                    rat_neg(crate::rat::rat_one()),
                                                    crate::rat::rat_zero()
                                                ],
                                            ),
                                            None => None,
                                        },
                                        None => None,
                                    },
                                    None => None,
                                }
                            },
                            None => None,
                        },
                        None => None,
                    },
                    None => None,
                }
            },
            None => None,
        },
        None => None,
    }
}

/// The right-handed perspective projection.
pub fn perspective_rh(vfov: Rat, aspect: Rat, near: Rat, far: Rat) -> (r: Option<Mat4>)
    requires
        vfov.wf(),
        aspect.wf(),
        near.wf(),
        far.wf(),
    ensures
        r is Some <==> perspective_rh_spec(vfov, aspect, near, far) is Some,
        r is Some ==> r->Some_0.wf() && r->Some_0.e@ == perspective_rh_spec(
            vfov,
            aspect,
            near,
            far,
        )->Some_0,
{
    proof {
        crate::rat::lemma_consts_wf();
    }
    let two = Rat::from_int(2);
    let half = match vfov.div(two) {
        Some(h) => h,
        None => {
            return None;
        },
    };
    let t = match crate::trig::tan_q(half) {
        Some(t) => t,
        None => {
            return None;
        },
    };
    if t.is_zero() {
        return None;
    }
    let focal = match Rat::one().div(t) {
        Some(f) => f,
        None => {
            return None;
        },
    };
    let m00 = match focal.div(aspect) {
        Some(m) => m,
        None => {
            return None;
        },
    };
    let nmf = match near.sub(far) {
        Some(d) => d,
        None => {
            return None;
        },
    };
    if nmf.is_zero() {
        return None;
    }
    let m22 = match far.div(nmf) {
        Some(m) => m,
        None => {
            return None;
        },
    };
    let nf = match near.mul(far) {
        Some(m) => m,
        None => {
            return None;
        },
    };
    let m23 = match nf.div(nmf) {
        Some(m) => m,
        None => {
            return None;
        },
    };
    let z = Rat::zero();
    let one = Rat::one();
    let mut e: Vec<Rat> = Vec::new();
    e.push(m00);
    e.push(z);
    e.push(z);
    e.push(z);
    e.push(z);
    e.push(focal);
    e.push(z);
    e.push(z);
    e.push(z);
    e.push(z);
    e.push(m22);
    e.push(m23);
    e.push(z);
    e.push(z);
    e.push(one.neg());
    e.push(z);
    let r = Mat4 { e };
    proof {
        assert(r.e@ =~= perspective_rh_spec(vfov, aspect, near, far)->Some_0);
        assert forall|n: int| 0 <= n < 16 implies (#[trigger] r.e@[n]).wf() by {}
    }
    Some(r)
}

impl Camera {
    /// All parameters canonical.
    pub open spec fn wf(self) -> bool {
        self.eye.wf() && self.target.wf() && self.up.wf() && self.near.wf() && self.far.wf()
            && self.aspect.wf() && self.vfov.wf()
    }

    /// A camera from explicit parameters.
    pub fn new(eye: Vec3, target: Vec3, up: Vec3, near: Rat, far: Rat, aspect: Rat, vfov: Rat) -> (r:
        Camera)
        requires
            eye.wf(),
            target.wf(),
            up.wf(),
            near.wf(),
            far.wf(),
            aspect.wf(),
            vfov.wf(),
        ensures
            r.wf(),
            r.eye == eye && r.target == target && r.up == up,
            r.near == near && r.far == far && r.aspect == aspect && r.vfov == vfov,
    {
        Camera { eye, target, up, near, far, aspect, vfov }
    }

    /// A camera from a perspective node: the eye at the node's origin,
    /// looking down its negative depth axis, with the node's vertical axis
    /// up; a missing far plane defaults to fifty, a missing aspect ratio to
    /// the classic four-to-three (as authored, 1333/1000).
    pub fn from_gltf(vfov: Rat, near: Rat, far: Option<Rat>, aspect: Option<Rat>, world: &Mat4) -> (r:
        Option<Camera>)
        requires
            vfov.wf(),
            near.wf(),
            far is Some ==> far->Some_0.wf(),
            aspect is Some ==> aspect->Some_0.wf(),
            world.wf(),
        ensures
            r is Some ==> r->Some_0.wf(),
            r is None ==> transform_point3_spec(
                world.e@,
                Vec3 {
                    x: crate::rat::rat_zero(),
                    y: crate::rat::rat_zero(),
                    z: crate::rat::rat_zero(),
                },
            ) is None || transform_point3_spec(
                world.e@,
                Vec3 {
                    x: crate::rat::rat_zero(),
                    y: crate::rat::rat_zero(),
                    z: rat_neg(crate::rat::rat_one()),
                },
            ) is None || transform_vector3_spec(
                world.e@,
                Vec3 {
                    x: crate::rat::rat_zero(),
                    y: crate::rat::rat_one(),
                    z: crate::rat::rat_zero(),
                },
            ) is None,
            r is Some ==> {
                &&& Some(r->Some_0.eye) == transform_point3_spec(
                    world.e@,
                    Vec3 {
                        x: crate::rat::rat_zero(),
                        y: crate::rat::rat_zero(),
                        z: crate::rat::rat_zero(),
                    },
                )
                &&& Some(r->Some_0.target) == transform_point3_spec(
                    world.e@,
                    Vec3 {
                        x: crate::rat::rat_zero(),
                        y: crate::rat::rat_zero(),
                        z: rat_neg(crate::rat::rat_one()),
                    },
                )
                &&& Some(r->Some_0.up) == transform_vector3_spec(
                    world.e@,
                    Vec3 {
                        x: crate::rat::rat_zero(),
                        y: crate::rat::rat_one(),
                        z: crate::rat::rat_zero(),
                    },
                )
                &&& r->Some_0.vfov == vfov && r->Some_0.near == near
                &&& r->Some_0.far == (if far is Some {
                    far->Some_0
                } else {
                    Rat { num: 50, den: 1 }
                })
                &&& r->Some_0.aspect == (if aspect is Some {
                    aspect->Some_0
                } else {
                    Rat { num: 1333, den: 1000 }
                })
            },
    {
        proof {
            crate::rat::lemma_consts_wf();
        }
        let origin = Vec3 { x: Rat::zero(), y: Rat::zero(), z: Rat::zero() };
        let back = Vec3 { x: Rat::zero(), y: Rat::zero(), z: Rat::one().neg() };
        let upv = Vec3 { x: Rat::zero(), y: Rat::one(), z: Rat::zero() };
        let eye = match transform_point3(world, origin) {
            Some(p) => p,
            None => {
                return None;
            },
        };
        let target = match transform_point3(world, back) {
            Some(p) => p,
            None => {
                return None;
            },
        };
        let up = match transform_vector3(world, upv) {
            Some(p) => p,
            None => {
                return None;
            },
        };
        let far_v = match far {
            Some(f) => f,
            None => Rat::from_int(50),
        };
        let aspect_v = match aspect {
            Some(a) => a,
            None => {
                let a = Rat::new(1333, 1000);
                proof {
                    assert(crate::rat::gcd(1333, 1000) == crate::rat::gcd(1000, 333));
                    assert(crate::rat::gcd(1000, 333) == crate::rat::gcd(333, 1));
                    assert(crate::rat::gcd(333, 1) == crate::rat::gcd(1, 0));
                    crate::rat::lemma_norm_canonical_id(Rat { num: 1333, den: 1000 });
                }
                match a {
                    Some(a) => a,
                    None => {
                        proof {
                            assert(false);
                        }
                        return None;
                    },
                }
            },
        };
        Some(Camera { eye, target, up, near, far: far_v, aspect: aspect_v, vfov })
    }

    /// The view matrix for the current frame.
    pub fn get_view_mat(&self) -> (r: Option<Mat4>)
        requires
            self.wf(),
        ensures
            r is Some <==> look_at_rh_spec(self.eye, self.target, self.up) is Some,
            r is Some ==> r->Some_0.wf() && r->Some_0.e@ == look_at_rh_spec(
                self.eye,
                self.target,
                self.up,
            )->Some_0,
    {
        look_at_rh(self.eye, self.target, self.up)
    }

    /// The projection matrix for the current frame.
    pub fn get_proj_mat(&self) -> (r: Option<Mat4>)
        requires
            self.wf(),
        ensures
            r is Some <==> perspective_rh_spec(self.vfov, self.aspect, self.near, self.far)
                is Some,
            r is Some ==> r->Some_0.wf() && r->Some_0.e@ == perspective_rh_spec(
                self.vfov,
                self.aspect,
                self.near,
                self.far,
            )->Some_0,
    {
        perspective_rh(self.vfov, self.aspect, self.near, self.far)
    }

    /// Orbit input: rotate the eye, target and up vectors by `m`. On success
    /// all three move together; on failure (a value out of range) the camera
    /// is left exactly as it was.
    pub fn update(&mut self, m: &Mat3) -> (ok: bool)
        requires
            old(self).wf(),
            m.wf(),
        ensures
            final (self).wf(),
            ok <==> m3_mul_spec(m.e@, old(self).eye) is Some && m3_mul_spec(
                m.e@,
                old(self).target,
            ) is Some && m3_mul_spec(m.e@, old(self).up) is Some,
            ok ==> {
                &&& Some(final (self).eye) == m3_mul_spec(m.e@, old(self).eye)
                &&& Some(final (self).target) == m3_mul_spec(m.e@, old(self).target)
                &&& Some(final (self).up) == m3_mul_spec(m.e@, old(self).up)
                &&& final (self).near == old(self).near && final (self).far == old(self).far
                &&& final (self).aspect == old(self).aspect && final (self).vfov == old(self).vfov
            },
            !ok ==> *final (self) == *old(self),
    {
        let eye = match m.mul_vec3(self.eye) {
            Some(v) => v,
            None => {
                return false;
            },
        };
        let target = match m.mul_vec3(self.target) {
            Some(v) => v,
            None => {
                return false;
            },
        };
        let up = match m.mul_vec3(self.up) {
            Some(v) => v,
            None => {
                return false;
            },
        };
        self.eye = eye;
        self.target = target;
        self.up = up;
        true
    }
}

} // verus!
