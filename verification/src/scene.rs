//! The scene graph: an arena of nodes with parent links and ordered child
//! lists, traversed depth-first in child order. Each frame the per-node
//! local transforms (static, or composed from the animation channels that
//! target the node) are propagated down the tree: a node's world matrix is
//! its parent's world matrix times its own local matrix.

use crate::algebra::{
    from_quat_spec, from_scale_spec, from_translation_spec, identity_spec, mat_mul, mat_mul_spec,
    Mat4,
};
use crate::animation::{get_spec, Animation, Transformation};
use crate::rat::Rat;
use vstd::prelude::*;

verus! {

/// One scene node: its authored local transform, its place in the tree, and
/// what hangs off it.
pub struct Node {
    pub local: Mat4,
    pub parent: Option<usize>,
    pub children: Vec<usize>,
    pub name: Option<String>,
    pub mesh: Option<usize>,
    pub skin: Option<usize>,
    pub camera: bool,
}

/// A well-formed arena: parents come strictly before their children (so the
/// forest is acyclic and worlds can be filled in ascending order), child
/// lists point back to their parent, and every local matrix is canonical.
pub open spec fn scene_wf(nodes: Seq<Node>) -> bool {
    &&& forall|i: int| 0 <= i < nodes.len() ==> (#[trigger] nodes[i]).local.wf()
    &&& forall|i: int|
        0 <= i < nodes.len() && (#[trigger] nodes[i]).parent is Some ==> nodes[i].parent->Some_0
            < i
    &&& forall|i: int, k: int|
        0 <= i < nodes.len() && 0 <= k < nodes[i].children@.len() ==> {
            &&& (#[trigger] nodes[i].children@[k]) < nodes.len()
            &&& i < nodes[i].children@[k]
        }
}

/// The world matrix of node `i` for the given per-node locals: the parent's
/// world times the node's local, the local itself at a root. `None` when a
/// product leaves the representable range (or an index is out of place).
pub open spec fn world_spec(locals: Seq<Seq<Rat>>, parents: Seq<Option<usize>>, i: int) -> Option<
    Seq<Rat>,
>
    decreases i,
{
    if 0 <= i < parents.len() && parents.len() == locals.len() {
        match parents[i] {
            None => Some(locals[i]),
            Some(p) => if p < i {
                match world_spec(locals, parents, p as int) {
                    Some(w) => mat_mul_spec(w, locals[i]),
                    None => None,
                }
            } else {
                None
            },
        }
    } else {
        None
    }
}

/// The parent links of an arena.
pub open spec fn parents_of(nodes: Seq<Node>) -> Seq<Option<usize>> {
    nodes.map_values(|n: Node| n.parent)
}

/// The matrix views of a list of matrices.
pub open spec fn mats_view(ms: Seq<Mat4>) -> Seq<Seq<Rat>> {
    ms.map_values(|m: Mat4| m.e@)
}

/// Fill in every node's world matrix, parents before children. `None` when
/// any product leaves the representable range.
pub fn compute_worlds(nodes: &Vec<Node>, locals: &Vec<Mat4>) -> (r: Option<Vec<Mat4>>)
    requires
        scene_wf(nodes@),
        locals@.len() == nodes@.len(),
        forall|i: int| 0 <= i < locals@.len() ==> (#[trigger] locals@[i]).wf(),
    ensures
        r is Some ==> {
            &&& r->Some_0@.len() == nodes@.len()
            &&& forall|i: int|
                0 <= i < nodes@.len() ==> Some((#[trigger] r->Some_0@[i]).e@) == world_spec(
                    mats_view(locals@),
                    parents_of(nodes@),
                    i,
                )
            &&& forall|i: int| 0 <= i < nodes@.len() ==> (#[trigger] r->Some_0@[i]).wf()
        },
        r is None ==> exists|i: int|
            0 <= i < nodes@.len() && (#[trigger] world_spec(
                mats_view(locals@),
                parents_of(nodes@),
                i,
            )) is None,
{
    let n = nodes.len();
    let mut out: Vec<Mat4> = Vec::new();
    let mut i: usize = 0;
    while i < n
        invariant
            scene_wf(nodes@),
            n == nodes@.len(),
            locals@.len() == n,
            forall|k: int| 0 <= k < locals@.len() ==> (#[trigger] locals@[k]).wf(),
            i <= n,
            out@.len() == i,
            forall|k: int|
                0 <= k < i ==> Some((#[trigger] out@[k]).e@) == world_spec(
                    mats_view(locals@),
                    parents_of(nodes@),
                    k,
                ),
            forall|k: int| 0 <= k < i ==> (#[trigger] out@[k]).wf(),
        decreases n - i,
    {
        let w = match nodes[i].parent {
            None => locals[i].duplicate(),
            Some(p) => {
                match mat_mul(&out[p], &locals[i]) {
                    Some(m) => m,
                    None => {
                        proof {
                            assert(world_spec(mats_view(locals@), parents_of(nodes@), i as int)
                                is None);
                        }
                        return None;
                    },
                }
            },
        };
        out.push(w);
        i = i + 1;
    }
    Some(out)
}

/// Hierarchical composition unrolled over a three-node chain: for nodes
/// `a -> b -> c` linked by parent edges, the world of `c` is the world of
/// `a` times the local of `b` times the local of `c`, composed left to
/// right.
pub proof fn lemma_world_chain(
    locals: Seq<Seq<Rat>>,
    parents: Seq<Option<usize>>,
    a: usize,
    b: usize,
    c: usize,
)
    requires
        parents.len() == locals.len(),
        a < b < c < parents.len(),
        parents[b as int] == Some(a),
        parents[c as int] == Some(b),
        world_spec(locals, parents, a as int) is Some,
    ensures
        world_spec(locals, parents, c as int) == (match mat_mul_spec(
            world_spec(locals, parents, a as int)->Some_0,
            locals[b as int],
        ) {
            Some(wb) => mat_mul_spec(wb, locals[c as int]),
            None => None,
        }),
{
    let wa = world_spec(locals, parents, a as int);
    assert(world_spec(locals, parents, b as int) == (match wa {
        Some(w) => mat_mul_spec(w, locals[b as int]),
        None => None,
    }));
    let wb = world_spec(locals, parents, b as int);
    assert(world_spec(locals, parents, c as int) == (match wb {
        Some(w) => mat_mul_spec(w, locals[c as int]),
        None => None,
    }));
}

/// The transform components accumulated over the first `k` channels that
/// target `node`, sampled at `time`: a translation, rotation and scale
/// matrix, each starting from the identity and multiplied on the right by
/// every sampled component of its kind, plus whether any channel produced a
/// sample. A channel that yields nothing leaves the accumulator untouched.
#[verifier::opaque]
pub open spec fn accum_spec(anims: Seq<Animation>, time: Rat, node: int, k: int) -> Option<
    (Seq<Rat>, Seq<Rat>, Seq<Rat>, bool),
>
    decreases k,
{
    if k <= 0 {
        Some((identity_spec(), identity_spec(), identity_spec(), false))
    } else {
        match accum_spec(anims, time, node, k - 1) {
            None => None,
            Some(acc) => {
                if 0 <= k - 1 < anims.len() && anims[k - 1].target == node {
                    match get_spec(anims[k - 1].duration, anims[k - 1].keys@, time) {
                        None => Some(acc),
                        Some(tr) => match tr {
                            Transformation::Translate(v) => match mat_mul_spec(
                                acc.0,
                                from_translation_spec(v),
                            ) {
                                Some(t2) => Some((t2, acc.1, acc.2, true)),
                                None => None,
                            },
                            Transformation::Rotate(q) => match from_quat_spec(q) {
                                Some(m) => match mat_mul_spec(acc.1, m) {
                                    Some(r2) => Some((acc.0, r2, acc.2, true)),
                                    None => None,
                                },
                                None => None,
                            },
                            Transformation::Scale(s) => match mat_mul_spec(
                                acc.2,
                                from_scale_spec(s),
                            ) {
                                Some(s2) => Some((acc.0, acc.1, s2, true)),
                                None => None,
                            },
                        },
                    }
                } else {
                    Some(acc)
                }
            },
        }
    }
}

/// A node's local matrix for the frame: when any channel targets the node
/// and produced a sample, the translation times rotation times scale of the
/// accumulated components (a component no channel supplied stays the
/// identity); otherwise the node's authored local matrix.
pub open spec fn local_spec(
    anims: Seq<Animation>,
    time: Rat,
    node: int,
    authored: Seq<Rat>,
) -> Option<Seq<Rat>> {
    match accum_spec(anims, time, node, anims.len() as int) {
        None => None,
        Some(acc) => if acc.3 {
            match mat_mul_spec(acc.0, acc.1) {
                Some(tr) => mat_mul_spec(tr, acc.2),
                None => None,
            }
        } else {
            Some(authored)
        },
    }
}

/// Once the accumulation fails, it stays failed.
proof fn lemma_accum_none_persists(anims: Seq<Animation>, time: Rat, node: int, k1: int, k2: int)
    requires
        0 <= k1 <= k2,
        accum_spec(anims, time, node, k1) is None,
    ensures
        accum_spec(anims, time, node, k2) is None,
    decreases k2 - k1,
{
    if k1 < k2 {
        reveal(accum_spec);
        assert(accum_spec(anims, time, node, k1 + 1) is None);
        lemma_accum_none_persists(anims, time, node, k1 + 1, k2);
    }
}

/// One accumulation step: fold channel `k` into the running components.
#[verifier::rlimit(100)]
fn accum_step(
    anims: &Vec<Animation>,
    time: Rat,
    node: usize,
    k: usize,
    t: Mat4,
    rm: Mat4,
    s: Mat4,
    animated: bool,
) -> (r: Option<(Mat4, Mat4, Mat4, bool)>)
    requires
        forall|j: int| 0 <= j < anims@.len() ==> (#[trigger] anims@[j]).wf(),
        time.wf(),
        k < anims@.len(),
        t.wf(),
        rm.wf(),
        s.wf(),
        Some((t.e@, rm.e@, s.e@, animated)) == accum_spec(anims@, time, node as int, k as int),
    ensures
        r is Some ==> {
            &&& r->Some_0.0.wf() && r->Some_0.1.wf() && r->Some_0.2.wf()
            &&& Some(
                (r->Some_0.0.e@, r->Some_0.1.e@, r->Some_0.2.e@, r->Some_0.3),
            ) == accum_spec(anims@, time, node as int, k as int + 1)
        },
        r is None ==> accum_spec(anims@, time, node as int, k as int + 1) is None,
{
    proof {
        reveal(accum_spec);
    }
    if anims[k].target == node {
        match anims[k].get(time) {
            None => Some((t, rm, s, animated)),
            Some(tr) => {
                match tr {
                    Transformation::Translate(v) => {
                        let m = crate::algebra::from_translation(v);
                        match mat_mul(&t, &m) {
                            Some(t2) => Some((t2, rm, s, true)),
                            None => None,
                        }
                    },
                    Transformation::Rotate(q) => {
                        let m = match crate::algebra::from_quat(q) {
                            Some(m) => m,
                            None => {
                                return None;
                            },
                        };
                        match mat_mul(&rm, &m) {
                            Some(r2) => Some((t, r2, s, true)),
                            None => None,
                        }
                    },
                    Transformation::Scale(sv) => {
                        let m = crate::algebra::from_scale(sv);
                        match mat_mul(&s, &m) {
                            Some(s2) => Some((t, rm, s2, true)),
                            None => None,
                        }
                    },
                }
            },
        }
    } else {
        Some((t, rm, s, animated))
    }
}

/// A node's local matrix for the frame.
pub fn node_local(anims: &Vec<Animation>, time: Rat, node: usize, authored: &Mat4) -> (r: Option<
    Mat4,
>)
    requires
        forall|k: int| 0 <= k < anims@.len() ==> (#[trigger] anims@[k]).wf(),
        time.wf(),
        authored.wf(),
    ensures
        r is Some ==> r->Some_0.wf() && Some(r->Some_0.e@) == local_spec(
            anims@,
            time,
            node as int,
            authored.e@,
        ),
        r is None ==> local_spec(anims@, time, node as int, authored.e@) is None,
{
    let mut t = Mat4::identity();
    let mut rm = Mat4::identity();
    let mut s = Mat4::identity();
    let mut animated = false;
    let n = anims.len();
    let mut k: usize = 0;
    proof {
        reveal(accum_spec);
        assert(Some((t.e@, rm.e@, s.e@, animated)) == accum_spec(anims@, time, node as int, 0));
    }
    while k < n
        invariant
            forall|j: int| 0 <= j < anims@.len() ==> (#[trigger] anims@[j]).wf(),
            time.wf(),
            n == anims@.len(),
            k <= n,
            t.wf(),
            rm.wf(),
            s.wf(),
            Some((t.e@, rm.e@, s.e@, animated)) == accum_spec(anims@, time, node as int, k as int),
        decreases n - k,
    {
        match accum_step(anims, time, node, k, t, rm, s, animated) {
            Some(next) => {
                t = next.0;
                rm = next.1;
                s = next.2;
                animated = next.3;
            },
            None => {
                proof {
                    lemma_accum_none_persists(
                        anims@,
                        time,
                        node as int,
                        k as int + 1,
                        anims@.len() as int,
                    );
                }
                return None;
            },
        }
        k = k + 1;
    }
    if animated {
        let tr = match mat_mul(&t, &rm) {
            Some(m) => m,
            None => {
                return None;
            },
        };
        match mat_mul(&tr, &s) {
            Some(m) => Some(m),
            None => None,
        }
    } else {
        Some(authored.duplicate())
    }
}

/// The locals of every node for the frame; `None` when any node's
/// composition leaves the representable range.
pub fn frame_locals(nodes: &Vec<Node>, anims: &Vec<Animation>, time: Rat) -> (r: Option<Vec<Mat4>>)
    requires
        scene_wf(nodes@),
        forall|k: int| 0 <= k < anims@.len() ==> (#[trigger] anims@[k]).wf(),
        time.wf(),
    ensures
        r is Some ==> {
            &&& r->Some_0@.len() == nodes@.len()
            &&& forall|i: int|
                0 <= i < nodes@.len() ==> Some((#[trigger] r->Some_0@[i]).e@) == local_spec(
                    anims@,
                    time,
                    i,
                    nodes@[i].local.e@,
                )
            &&& forall|i: int| 0 <= i < nodes@.len() ==> (#[trigger] r->Some_0@[i]).wf()
        },
        r is None ==> exists|i: int|
            0 <= i < nodes@.len() && (#[trigger] local_spec(
                anims@,
                time,
                i,
                nodes@[i].local.e@,
            )) is None,
{
    let n = nodes.len();
    let mut out: Vec<Mat4> = Vec::new();
    let mut i: usize = 0;
    while i < n
        invariant
            scene_wf(nodes@),
            forall|k: int| 0 <= k < anims@.len() ==> (#[trigger] anims@[k]).wf(),
            time.wf(),
            n == nodes@.len(),
            i <= n,
            out@.len() == i,
            forall|j: int|
                0 <= j < i ==> Some((#[trigger] out@[j]).e@) == local_spec(
                    anims@,
                    time,
                    j,
                    nodes@[j].local.e@,
                ),
            forall|j: int| 0 <= j < i ==> (#[trigger] out@[j]).wf(),
        decreases n - i,
    {
        match node_local(anims, time, i, &nodes[i].local) {
            Some(m) => {
                out.push(m);
            },
            None => {
                return None;
            },
        }
        i = i + 1;
    }
    Some(out)
}

/// The depth-first pre-order from node `i`: the node itself, then each
/// child's subtree in child order. Children that do not point forward are
/// skipped (a well-formed arena has none such).
pub open spec fn dfs_spec(nodes: Seq<Node>, i: int) -> Seq<int>
    decreases nodes.len() - i, 1int, 0int,
{
    if 0 <= i < nodes.len() {
        seq![i] + dfs_children(nodes, nodes[i].children@, 0, i)
    } else {
        Seq::empty()
    }
}

/// The concatenation of the subtrees of `ch[k..]`, all of whose entries
/// exceed `i`.
pub open spec fn dfs_children(nodes: Seq<Node>, ch: Seq<usize>, k: int, i: int) -> Seq<int>
    decreases nodes.len() - i, 0int, ch.len() - k,
{
    if 0 <= k < ch.len() && 0 <= i < nodes.len() {
        if i < ch[k] && ch[k] < nodes.len() {
            dfs_spec(nodes, ch[k] as int) + dfs_children(nodes, ch, k + 1, i)
        } else {
            dfs_children(nodes, ch, k + 1, i)
        }
    } else {
        Seq::empty()
    }
}

/// The traversal order of a whole forest: the concatenation of the root
/// subtrees, in root order.
pub open spec fn forest_order(nodes: Seq<Node>, roots: Seq<usize>, k: int) -> Seq<int>
    decreases roots.len() - k,
{
    if 0 <= k < roots.len() {
        (if roots[k] < nodes.len() {
            dfs_spec(nodes, roots[k] as int)
        } else {
            Seq::empty()
        }) + forest_order(nodes, roots, k + 1)
    } else {
        Seq::empty()
    }
}

/// Index sequences as they appear in an executable vector.
pub open spec fn uview(s: Seq<int>) -> Seq<usize> {
    s.map_values(|x: int| x as usize)
}

/// Visit the subtree of `i` depth-first, appending the pre-order to `out`.
pub fn dfs_visit(nodes: &Vec<Node>, i: usize, out: &mut Vec<usize>)
    requires
        scene_wf(nodes@),
        i < nodes@.len(),
    ensures
        final (out)@ == old(out)@ + uview(dfs_spec(nodes@, i as int)),
    decreases nodes@.len() - i,
{
    out.push(i);
    let ghost ch = nodes@[i as int].children@;
    let nch = nodes[i].children.len();
    let mut k: usize = 0;
    proof {
        assert(dfs_spec(nodes@, i as int) == seq![i as int] + dfs_children(
            nodes@,
            ch,
            0,
            i as int,
        ));
        assert(uview(seq![i as int]) =~= seq![i]);
        assert(out@ =~= old(out)@ + uview(seq![i as int]));
    }
    while k < nch
        invariant
            scene_wf(nodes@),
            i < nodes@.len(),
            nch == ch.len(),
            ch == nodes@[i as int].children@,
            k <= nch,
            out@ + uview(dfs_children(nodes@, ch, k as int, i as int)) == old(out)@ + uview(
                dfs_spec(nodes@, i as int),
            ),
        decreases nch - k,
    {
        proof {
            assert(uview(seq![i as int] + dfs_children(nodes@, ch, 0, i as int)) =~= uview(
                seq![i as int],
            ) + uview(dfs_children(nodes@, ch, 0, i as int)));
        }
        let c = nodes[i].children[k];
        proof {
            assert(nodes@[i as int].children@[k as int] < nodes@.len() && i
                < nodes@[i as int].children@[k as int]);
        }
        let ghost pre = out@;
        dfs_visit(nodes, c, out);
        proof {
            assert(dfs_children(nodes@, ch, k as int, i as int) == dfs_spec(nodes@, c as int)
                + dfs_children(nodes@, ch, k as int + 1, i as int));
            assert(uview(dfs_spec(nodes@, c as int) + dfs_children(nodes@, ch, k as int + 1, i as int))
                =~= uview(dfs_spec(nodes@, c as int)) + uview(
                dfs_children(nodes@, ch, k as int + 1, i as int),
            ));
            assert(out@ + uview(dfs_children(nodes@, ch, k as int + 1, i as int)) =~= pre + uview(
                dfs_children(nodes@, ch, k as int, i as int),
            ));
        }
        k = k + 1;
    }
    proof {
        assert(dfs_children(nodes@, ch, nch as int, i as int) == Seq::<int>::empty());
        assert(uview(Seq::<int>::empty()) =~= Seq::<usize>::empty());
        assert(out@ =~= out@ + Seq::<usize>::empty());
    }
}

/// The traversal order of the whole forest, in root order.
pub fn forest_visit(nodes: &Vec<Node>, roots: &Vec<usize>) -> (r: Vec<usize>)
    requires
        scene_wf(nodes@),
        forall|k: int| 0 <= k < roots@.len() ==> (#[trigger] roots@[k]) < nodes@.len(),
    ensures
        r@ == uview(forest_order(nodes@, roots@, 0)),
{
    let mut out: Vec<usize> = Vec::new();
    let n = roots.len();
    let mut k: usize = 0;
    while k < n
        invariant
            scene_wf(nodes@),
            forall|j: int| 0 <= j < roots@.len() ==> (#[trigger] roots@[j]) < nodes@.len(),
            n == roots@.len(),
            k <= n,
            out@ + uview(forest_order(nodes@, roots@, k as int)) == uview(
                forest_order(nodes@, roots@, 0),
            ),
        decreases n - k,
    {
        let ghost pre = out@;
        dfs_visit(nodes, roots[k], &mut out);
        proof {
            assert(forest_order(nodes@, roots@, k as int) == dfs_spec(
                nodes@,
                roots@[k as int] as int,
            ) + forest_order(nodes@, roots@, k as int + 1));
            assert(uview(dfs_spec(nodes@, roots@[k as int] as int) + forest_order(
                nodes@,
                roots@,
                k as int + 1,
            )) =~= uview(dfs_spec(nodes@, roots@[k as int] as int)) + uview(
                forest_order(nodes@, roots@, k as int + 1),
            ));
            assert(out@ + uview(forest_order(nodes@, roots@, k as int + 1)) =~= pre + uview(
                forest_order(nodes@, roots@, k as int),
            ));
        }
        k = k + 1;
    }
    proof {
        assert(forest_order(nodes@, roots@, n as int) == Seq::<int>::empty());
        assert(uview(Seq::<int>::empty()) =~= Seq::<usize>::empty());
        assert(out@ =~= out@ + Seq::<usize>::empty());
    }
    out
}

/// Whether an arena is well-formed, checked at run time so that callers
/// (the loader above all) can establish the traversal preconditions.
pub fn check_scene_wf(nodes: &Vec<Node>) -> (r: bool)
    ensures
        r == scene_wf(nodes@),
{
    let n = nodes.len();
    let mut i: usize = 0;
    while i < n
        invariant
            n == nodes@.len(),
            i <= n,
            forall|x: int| 0 <= x < i ==> (#[trigger] nodes@[x]).local.wf(),
            forall|x: int|
                0 <= x < i && (#[trigger] nodes@[x]).parent is Some ==> nodes@[x].parent->Some_0
                    < x,
            forall|x: int, k: int|
                0 <= x < i && 0 <= k < nodes@[x].children@.len() ==> {
                    &&& (#[trigger] nodes@[x].children@[k]) < nodes@.len()
                    &&& x < nodes@[x].children@[k]
                },
        decreases n - i,
    {
        if !nodes[i].local.check_wf() {
            return false;
        }
        match nodes[i].parent {
            Some(p) => {
                if p >= i {
                    return false;
                }
            },
            None => {},
        }
        let nch = nodes[i].children.len();
        let mut k: usize = 0;
        while k < nch
            invariant
                n == nodes@.len(),
                i < n,
                nch == nodes@[i as int].children@.len(),
                k <= nch,
                forall|kk: int|
                    0 <= kk < k ==> {
                        &&& (#[trigger] nodes@[i as int].children@[kk]) < nodes@.len()
                        &&& i < nodes@[i as int].children@[kk]
                    },
            decreases nch - k,
        {
            let c = nodes[i].children[k];
            if c >= n || c <= i {
                return false;
            }
            k = k + 1;
        }
        i = i + 1;
    }
    true
}

/// The first camera node of a traversal order: the earliest entry whose
/// node carries a camera, nothing when none does.
pub open spec fn first_camera_spec(nodes: Seq<Node>, order: Seq<usize>) -> Option<usize>
    decreases order.len(),
{
    if order.len() == 0 {
        None
    } else if order[0] < nodes.len() && nodes[order[0] as int].camera {
        Some(order[0])
    } else {
        first_camera_spec(nodes, order.skip(1))
    }
}

/// Resolve the scene camera: the first camera node in depth-first traversal
/// order over the forest, in root and child order — first camera wins.
pub fn first_camera(nodes: &Vec<Node>, roots: &Vec<usize>) -> (r: Option<usize>)
    requires
        scene_wf(nodes@),
        forall|k: int| 0 <= k < roots@.len() ==> (#[trigger] roots@[k]) < nodes@.len(),
    ensures
        r == first_camera_spec(nodes@, uview(forest_order(nodes@, roots@, 0))),
{
    let order = forest_visit(nodes, roots);
    proof {
        assert(order@.skip(0) =~= order@);
    }
    let n = order.len();
    let mut i: usize = 0;
    while i < n
        invariant
            n == order@.len(),
            i <= n,
            order@ == uview(forest_order(nodes@, roots@, 0)),
            first_camera_spec(nodes@, order@) == first_camera_spec(
                nodes@,
                order@.skip(i as int),
            ),
        decreases n - i,
    {
        proof {
            assert(order@.skip(i as int)[0] == order@[i as int]);
        }
        let c = order[i];
        if c < nodes.len() {
            if nodes[c].camera {
                proof {
                    let tail = order@.skip(i as int);
                    assert(tail.len() > 0 && tail[0] == c);
                    assert(first_camera_spec(nodes@, tail) == Some(c));
                }
                return Some(c);
            }
        }
        proof {
            assert(order@.skip(i as int).skip(1) =~= order@.skip(i as int + 1));
        }
        i = i + 1;
    }
    proof {
        assert(order@.skip(n as int) =~= Seq::<usize>::empty());
    }
    None
}

/// The node name a light record is bound to.
pub open spec fn light_node_name(l: crate::light::LightJSON) -> Seq<char> {
    match l {
        crate::light::LightJSON::Point { node, .. } => node@,
        crate::light::LightJSON::Area { node, .. } => node@,
        crate::light::LightJSON::Ambient { node, .. } => node@,
    }
}

/// The first light bound to the given node name.
pub open spec fn light_index(lights: Seq<crate::light::LightJSON>, name: Seq<char>) -> Option<int>
    decreases lights.len(),
{
    if lights.len() == 0 {
        None
    } else if light_node_name(lights[0]) == name {
        Some(0)
    } else {
        match light_index(lights.skip(1), name) {
            Some(i) => Some(i + 1),
            None => None,
        }
    }
}

/// Find the first light bound to `name`.
fn find_light(lights: &Vec<crate::light::LightJSON>, name: &String) -> (r: Option<usize>)
    ensures
        match r {
            Some(i) => i < lights@.len() && light_index(lights@, name@) == Some(i as int),
            None => light_index(lights@, name@) is None,
        },
{
    let n = lights.len();
    let mut i: usize = 0;
    proof {
        assert(lights@.skip(0) =~= lights@);
    }
    while i < n
        invariant
            n == lights@.len(),
            i <= n,
            light_index(lights@, name@) == match light_index(lights@.skip(i as int), name@) {
                Some(j) => Some(j + i),
                None => None::<int>,
            },
        decreases n - i,
    {
        proof {
            assert(lights@.skip(i as int)[0] == lights@[i as int]);
        }
        if *lights[i].get_node() == *name {
            return Some(i);
        }
        proof {
            assert(lights@.skip(i as int).skip(1) =~= lights@.skip(i as int + 1));
        }
        i = i + 1;
    }
    proof {
        assert(lights@.skip(n as int) =~= Seq::<crate::light::LightJSON>::empty());
    }
    None
}

/// One traversal's worth of light baking: for each node in traversal order
/// that carries a name, the first light bound to that name is baked by the
/// node's world matrix; a light whose baking leaves the representable range
/// is left as authored, as is a light no node names.
pub open spec fn bake_spec(
    lights: Seq<crate::light::LightJSON>,
    nodes: Seq<Node>,
    worlds: Seq<Mat4>,
    order: Seq<usize>,
    k: int,
) -> Seq<crate::light::LightJSON>
    decreases order.len() - k,
{
    if 0 <= k < order.len() {
        let stepped = if order[k] < nodes.len() && nodes[order[k] as int].name is Some && order[k]
            < worlds.len() {
            match light_index(lights, nodes[order[k] as int].name->Some_0@) {
                Some(f) => match crate::light::apply_matrix_spec(
                    lights[f],
                    worlds[order[k] as int].e@,
                ) {
                    Some(nl) => lights.update(f, nl),
                    None => lights,
                },
                None => lights,
            }
        } else {
            lights
        };
        bake_spec(stepped, nodes, worlds, order, k + 1)
    } else {
        lights
    }
}

/// Bake every named light into its node's world frame, walking the nodes in
/// traversal order: for each named node, the first light bound to that name
/// is transformed by the node's world matrix, exactly as `bake_spec` lays
/// it out.
pub fn bake_lights(
    lights: &mut Vec<crate::light::LightJSON>,
    nodes: &Vec<Node>,
    worlds: &Vec<Mat4>,
    order: &Vec<usize>,
)
    requires
        forall|l: int| 0 <= l < old(lights)@.len() ==> (#[trigger] old(lights)@[l]).wf(),
        worlds@.len() == nodes@.len(),
        forall|w: int| 0 <= w < worlds@.len() ==> (#[trigger] worlds@[w]).wf(),
    ensures
        final (lights)@ == bake_spec(old(lights)@, nodes@, worlds@, order@, 0),
        forall|l: int| 0 <= l < final (lights)@.len() ==> (#[trigger] final (lights)@[l]).wf(),
{
    let n = order.len();
    let mut k: usize = 0;
    while k < n
        invariant
            n == order@.len(),
            k <= n,
            worlds@.len() == nodes@.len(),
            forall|w: int| 0 <= w < worlds@.len() ==> (#[trigger] worlds@[w]).wf(),
            forall|l: int| 0 <= l < lights@.len() ==> (#[trigger] lights@[l]).wf(),
            bake_spec(lights@, nodes@, worlds@, order@, k as int) == bake_spec(
                old(lights)@,
                nodes@,
                worlds@,
                order@,
                0,
            ),
        decreases n - k,
    {
        let ghost cur = lights@;
        let ni = order[k];
        if ni < nodes.len() {
            match &nodes[ni].name {
                None => {},
                Some(name) => {
                    match find_light(lights, name) {
                        None => {},
                        Some(fi) => {
                            let applied = lights[fi].apply_matrix(&worlds[ni]);
                            proof {
                                if applied {
                                    assert(lights@ =~= cur.update(
                                        fi as int,
                                        crate::light::apply_matrix_spec(
                                            cur[fi as int],
                                            worlds@[ni as int].e@,
                                        )->Some_0,
                                    ));
                                } else {
                                    assert(lights@ =~= cur);
                                }
                            }
                        },
                    }
                },
            }
        }
        proof {
            assert(bake_spec(cur, nodes@, worlds@, order@, k as int) == bake_spec(
                lights@,
                nodes@,
                worlds@,
                order@,
                k as int + 1,
            ));
        }
        k = k + 1;
    }
}

} // verus!
