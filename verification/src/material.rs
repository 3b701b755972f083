//! Surface materials: the scalar reflectance parameters and diffuse colour
//! each mesh's shading reads.

use crate::algebra::Vec3;
use crate::rat::Rat;
use vstd::prelude::*;

verus! {

/// One material: roughness, specular weight, index of refraction, diffuse
/// colour.
pub struct Material {
    pub alpha: Rat,
    pub k_s: Rat,
    pub eta: Rat,
    pub diffuse: Vec3,
}

impl Material {
    /// All parameters canonical.
    pub open spec fn wf(self) -> bool {
        self.alpha.wf() && self.k_s.wf() && self.eta.wf() && self.diffuse.wf()
    }

    /// A material from explicit parameters.
    pub fn new(alpha: Rat, k_s: Rat, eta: Rat, diffuse: Vec3) -> (r: Material)
        requires
            alpha.wf(),
            k_s.wf(),
            eta.wf(),
            diffuse.wf(),
        ensures
            r.alpha == alpha && r.k_s == k_s && r.eta == eta && r.diffuse == diffuse,
            r.wf(),
    {
        Material { alpha, k_s, eta, diffuse }
    }
}

} // verus!
