//! Scene lights: the tagged records of the sidecar light file, the one-time
//! baking of each light into its node's world frame, and the plain values
//! each light hands the shading passes.

use crate::algebra::{
    transform_point3, transform_point3_spec, transform_vector3, transform_vector3_spec,
    v3_cross_spec, v3_normalize, v3_normalize_spec, Mat4, Vec3,
};
use crate::camera::{look_at_rh, look_at_rh_spec, perspective_rh, perspective_rh_spec};
use crate::rat::{rat_zero, Rat};
use vstd::prelude::*;

verus! {

/// One light record: a point source, an area source with its derived basis,
/// or an ambient term. The `node` field names the scene node whose resolved
/// world transform bakes the light at load time.
pub enum LightJSON {
    Point { node: String, position: Vec3, power: Vec3 },
    Area {
        node: String,
        position: Vec3,
        power: Vec3,
        normal: Vec3,
        up: Vec3,
        size: (Rat, Rat),
        u: Vec3,
        v: Vec3,
    },
    Ambient { node: String, radiance: Vec3, range: Option<Rat> },
}

impl LightJSON {
    /// All scalars canonical.
    pub open spec fn wf(self) -> bool {
        match self {
            LightJSON::Point { position, power, .. } => position.wf() && power.wf(),
            LightJSON::Area { position, power, normal, up, size, u, v, .. } => position.wf()
                && power.wf() && normal.wf() && up.wf() && size.0.wf() && size.1.wf() && u.wf()
                && v.wf(),
            LightJSON::Ambient { radiance, range, .. } => radiance.wf() && (range is Some
                ==> range->Some_0.wf()),
        }
    }

    /// The name of the node this light is bound to.
    pub fn get_node(&self) -> (r: &String)
        ensures
            match self {
                LightJSON::Point { node, .. } => r == node,
                LightJSON::Area { node, .. } => r == node,
                LightJSON::Ambient { node, .. } => r == node,
            },
    {
        match self {
            LightJSON::Point { node, .. } => node,
            LightJSON::Area { node, .. } => node,
            LightJSON::Ambient { node, .. } => node,
        }
    }
}

/// A light baked by its node's world matrix: a point light's position moves
/// with the node; an area light's position, normal and up move too, and its
/// basis is then derived, never authored: `u` is the normalised cross of the
/// moved up with the moved normal, and `v` closes the frame. An ambient term
/// is untouched.
pub open spec fn apply_matrix_spec(l: LightJSON, m: Seq<Rat>) -> Option<LightJSON> {
    match l {
        LightJSON::Point { node, position, power } => match transform_point3_spec(m, position) {
            Some(p) => Some(LightJSON::Point { node, position: p, power }),
            None => None,
        },
        LightJSON::Area { node, position, power, normal, up, size, .. } => {
            match transform_point3_spec(m, position) {
                Some(p) => match transform_vector3_spec(m, normal) {
                    Some(n2) => match transform_vector3_spec(m, up) {
                        Some(u2) => match v3_cross_spec(u2, n2) {
                            Some(un) => match v3_normalize_spec(un) {
                                Some(bu) => match v3_cross_spec(n2, bu) {
                                    Some(bv) => Some(
                                        LightJSON::Area {
                                            node,
                                            position: p,
                                            power,
                                            normal: n2,
                                            up: u2,
                                            size,
                                            u: bu,
                                            v: bv,
                                        },
                                    ),
                                    None => None,
                                },
                                None => None,
                            },
                            None => None,
                        },
                        None => None,
                    },
                    None => None,
                },
                None => None,
            }
        },
        LightJSON::Ambient { .. } => Some(l),
    }
}

impl LightJSON {
    /// Bake this light into the world frame `m`. On success the record is
    /// replaced by the baked one; on failure (a value out of range, or a
    /// degenerate basis) it is left exactly as it was.
    pub fn apply_matrix(&mut self, m: &Mat4) -> (ok: bool)
        requires
            old(self).wf(),
            m.wf(),
        ensures
            ok ==> Some(*final (self)) == apply_matrix_spec(*old(self), m.e@) && final (self).wf(),
            !ok ==> *final (self) == *old(self) && apply_matrix_spec(*old(self), m.e@) is None,
    {
        match self {
            LightJSON::Point { position, .. } => {
                match transform_point3(m, *position) {
                    Some(p) => {
                        *position = p;
                        true
                    },
                    None => false,
                }
            },
            LightJSON::Area { position, normal, up, u, v, .. } => {
                let p = match transform_point3(m, *position) {
                    Some(p) => p,
                    None => {
                        return false;
                    },
                };
                let n2 = match transform_vector3(m, *normal) {
                    Some(n) => n,
                    None => {
                        return false;
                    },
                };
                let u2 = match transform_vector3(m, *up) {
                    Some(u) => u,
                    None => {
                        return false;
                    },
                };
                let un = match u2.cross(n2) {
                    Some(c) => c,
                    None => {
                        return false;
                    },
                };
                let bu = match v3_normalize(un) {
                    Some(b) => b,
                    None => {
                        return false;
                    },
                };
                let bv = match n2.cross(bu) {
                    Some(c) => c,
                    None => {
                        return false;
                    },
                };
                *position = p;
                *normal = n2;
                *up = u2;
                *u = bu;
                *v = bv;
                true
            },
            LightJSON::Ambient { .. } => true,
        }
    }
}

/// A point light ready for the shadow and shading passes: its shadow-view
/// and projection matrices (looking from the light at the origin, square
/// unit-aspect frustum from one to fifty) and its baked parameters.
pub struct PointLight {
    pub view: Mat4,
    pub proj: Mat4,
    pub position: Vec3,
    pub power: Vec3,
}

/// The view and projection of a point light's shadow pass.
pub open spec fn point_light_mats_spec(position: Vec3) -> (Option<Seq<Rat>>, Option<Seq<Rat>>) {
    (
        look_at_rh_spec(
            position,
            Vec3 { x: rat_zero(), y: rat_zero(), z: rat_zero() },
            Vec3 { x: rat_zero(), y: crate::rat::rat_one(), z: rat_zero() },
        ),
        perspective_rh_spec(
            crate::rat::rat_one(),
            crate::rat::rat_one(),
            crate::rat::rat_one(),
            Rat { num: 50, den: 1 },
        ),
    )
}

/// Build a point light: shadow view from the light toward the origin, a
/// unit-aspect projection, and the baked position and power.
pub fn new_point(position: Vec3, power: Vec3) -> (r: Option<PointLight>)
    requires
        position.wf(),
        power.wf(),
    ensures
        r is Some ==> {
            &&& Some(r->Some_0.view.e@) == point_light_mats_spec(position).0
            &&& Some(r->Some_0.proj.e@) == point_light_mats_spec(position).1
            &&& r->Some_0.position == position && r->Some_0.power == power
            &&& r->Some_0.view.wf() && r->Some_0.proj.wf()
        },
        r is None ==> point_light_mats_spec(position).0 is None || point_light_mats_spec(
            position,
        ).1 is None,
{
    proof {
        crate::rat::lemma_consts_wf();
        crate::rat::lemma_gcd_one(50);
    }
    let origin = Vec3 { x: Rat::zero(), y: Rat::zero(), z: Rat::zero() };
    let up = Vec3 { x: Rat::zero(), y: Rat::one(), z: Rat::zero() };
    let view = match look_at_rh(position, origin, up) {
        Some(v) => v,
        None => {
            return None;
        },
    };
    let proj = match perspective_rh(Rat::one(), Rat::one(), Rat::one(), Rat::from_int(50)) {
        Some(p) => p,
        None => {
            return None;
        },
    };
    Some(PointLight { view, proj, position, power })
}

/// An ambient light's uniform values: its radiance and its range, zero when
/// none was authored.
pub struct AmbientLight {
    pub radiance: Vec3,
    pub range: Rat,
}

/// Build an ambient light; a missing range defaults to zero.
pub fn new_ambient(radiance: Vec3, range: Option<Rat>) -> (r: AmbientLight)
    requires
        radiance.wf(),
        range is Some ==> range->Some_0.wf(),
    ensures
        r.radiance == radiance,
        r.range == (if range is Some {
            range->Some_0
        } else {
            rat_zero()
        }),
        r.radiance.wf() && r.range.wf(),
{
    proof {
        crate::rat::lemma_consts_wf();
    }
    let rv = match range {
        Some(r) => r,
        None => Rat::zero(),
    };
    AmbientLight { radiance, range: rv }
}

} // verus!
