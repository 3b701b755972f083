//! Vertex skinning matrices.
//!
//! A skinned mesh carries a skin: an ordered list of joints, each a scene
//! node paired with an inverse-bind matrix. Every frame each joint's matrix
//! is the inverse of the mesh's own world matrix, times the joint node's
//! world matrix, times the inverse-bind matrix — the joint's displacement
//! relative to the mesh's rest frame. An unskinned mesh gets the single
//! identity joint matrix, which degrades the vertex path to a rigid
//! transform.

use crate::algebra::{identity_spec, inverse, inverse_spec, mat_mul, mat_mul_spec, mat_seq_wf, Mat4};
use crate::rat::Rat;
use vstd::prelude::*;

verus! {

/// One skin: the joint nodes and their inverse-bind matrices, fixed at load.
pub struct Skin {
    pub joints: Vec<(usize, Mat4)>,
}

impl Skin {
    /// Every inverse-bind matrix canonical.
    pub open spec fn wf(self) -> bool {
        forall|k: int| 0 <= k < self.joints@.len() ==> (#[trigger] self.joints@[k]).1.wf()
    }
}

/// One joint's matrix: `inv_mesh * joint_world * inverse_bind`, left to
/// right.
pub open spec fn joint_entry_spec(inv: Seq<Rat>, world: Seq<Rat>, bind: Seq<Rat>) -> Option<
    Seq<Rat>,
> {
    match mat_mul_spec(inv, world) {
        Some(x) => mat_mul_spec(x, bind),
        None => None,
    }
}

/// The per-joint matrices consumed by vertex skinning. For an unskinned mesh
/// (`joints` is `None`) the result is the single identity matrix. For a
/// skinned mesh, each pair carries a joint's world matrix and its
/// inverse-bind matrix; the result composes them with the exact inverse of
/// the mesh's world matrix, which certifies itself by multiplying back.
/// `None` exactly when that inverse is unavailable (the mesh's world matrix
/// is degenerate, or a value leaves the representable range) or one of the
/// joint products leaves the range — the caller skips drawing that mesh and
/// the frame goes on.
pub fn joint_matrices(mesh_world: &Mat4, joints: Option<&Vec<(Mat4, Mat4)>>) -> (r: Option<
    Vec<Mat4>,
>)
    requires
        mesh_world.wf(),
        joints is Some ==> forall|k: int|
            0 <= k < joints->Some_0@.len() ==> (#[trigger] joints->Some_0@[k]).0.wf()
                && joints->Some_0@[k].1.wf(),
    ensures
        joints is None ==> r is Some && r->Some_0@.len() == 1 && r->Some_0@[0].e@
            == identity_spec(),
        joints is Some && r is Some ==> {
            &&& inverse_spec(mesh_world.e@) is Some
            &&& mat_mul_spec(inverse_spec(mesh_world.e@)->Some_0, mesh_world.e@) == Some(
                identity_spec(),
            )
            &&& r->Some_0@.len() == joints->Some_0@.len()
            &&& forall|k: int|
                0 <= k < joints->Some_0@.len() ==> Some((#[trigger] r->Some_0@[k]).e@)
                    == joint_entry_spec(
                    inverse_spec(mesh_world.e@)->Some_0,
                    joints->Some_0@[k].0.e@,
                    joints->Some_0@[k].1.e@,
                )
            &&& forall|k: int| 0 <= k < r->Some_0@.len() ==> (#[trigger] r->Some_0@[k]).wf()
        },
        joints is Some && r is None ==> inverse_spec(mesh_world.e@) is None || exists|k: int|
            0 <= k < joints->Some_0@.len() && (#[trigger] joint_entry_spec(
                inverse_spec(mesh_world.e@)->Some_0,
                joints->Some_0@[k].0.e@,
                joints->Some_0@[k].1.e@,
            )) is None,
{
    let js = match joints {
        None => {
            let mut out: Vec<Mat4> = Vec::new();
            out.push(Mat4::identity());
            proof {
                assert(out@.len() == 1);
            }
            return Some(out);
        },
        Some(js) => js,
    };
    proof {
        assert(joints is Some);
    }
    let inv = match inverse(mesh_world) {
        Some(m) => m,
        None => {
            return None;
        },
    };
    let n = js.len();
    let mut out: Vec<Mat4> = Vec::new();
    let mut k: usize = 0;
    while k < n
        invariant
            joints is Some,
            js == joints->Some_0,
            mesh_world.wf(),
            inv.wf(),
            Some(inv.e@) == inverse_spec(mesh_world.e@),
            mat_mul_spec(inv.e@, mesh_world.e@) == Some(identity_spec()),
            n == js@.len(),
            forall|j: int| 0 <= j < js@.len() ==> (#[trigger] js@[j]).0.wf() && js@[j].1.wf(),
            k <= n,
            out@.len() == k,
            forall|j: int|
                0 <= j < k ==> Some((#[trigger] out@[j]).e@) == joint_entry_spec(
                    inv.e@,
                    js@[j].0.e@,
                    js@[j].1.e@,
                ),
            forall|j: int| 0 <= j < k ==> (#[trigger] out@[j]).wf(),
        decreases n - k,
    {
        let x = match mat_mul(&inv, &js[k].0) {
            Some(m) => m,
            None => {
                proof {
                    assert(joint_entry_spec(
                        inverse_spec(mesh_world.e@)->Some_0,
                        js@[k as int].0.e@,
                        js@[k as int].1.e@,
                    ) is None);
                }
                return None;
            },
        };
        let jm = match mat_mul(&x, &js[k].1) {
            Some(m) => m,
            None => {
                proof {
                    assert(joint_entry_spec(
                        inverse_spec(mesh_world.e@)->Some_0,
                        js@[k as int].0.e@,
                        js@[k as int].1.e@,
                    ) is None);
                }
                return None;
            },
        };
        out.push(jm);
        k = k + 1;
    }
    proof {
        assert(mat_seq_wf(inv.e@));
    }
    Some(out)
}

/// Skinning correctness at the rest pose: when a joint's world matrix equals
/// the mesh's own world matrix and its inverse-bind matrix is the identity,
/// that joint's matrix is exactly the identity — the joint contributes no
/// displacement.
pub proof fn lemma_rest_joint_identity(inv: Seq<Rat>, world: Seq<Rat>)
    requires
        mat_seq_wf(world),
        mat_mul_spec(inv, world) == Some(identity_spec()),
    ensures
        joint_entry_spec(inv, world, identity_spec()) == Some(identity_spec()),
{
    crate::rat::lemma_consts_wf();
    assert(mat_seq_wf(identity_spec())) by {
        assert forall|n: int| 0 <= n < 16 implies (#[trigger] identity_spec()[n]).wf() by {
            assert(identity_spec()[n] == if n / 4 == n % 4 {
                crate::rat::rat_one()
            } else {
                crate::rat::rat_zero()
            });
        }
    }
    crate::algebra::lemma_mat_mul_identity_left(identity_spec());
    assert(mat_mul_spec(identity_spec(), identity_spec()) == Some(identity_spec()));
}

} // verus!
