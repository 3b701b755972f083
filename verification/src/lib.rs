//! Core of a real-time deferred renderer: keyframe animation sampling,
//! hierarchical scene-graph evaluation, vertex skinning matrices, and the
//! dependency-ordered multi-pass frame pipeline, all over exact rational
//! arithmetic so that every result is pinned down by a contract.

pub mod algebra;
pub mod animation;
pub mod camera;
pub mod frame;
pub mod light;
pub mod material;
pub mod mesh;
pub mod rat;
pub mod scene;
pub mod skin;
pub mod sky;
pub mod trig;

use vstd::prelude::*;

verus! {

} // verus!
