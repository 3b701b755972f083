//! Mesh geometry assembly: zipping the attribute streams of a primitive
//! into interleaved vertices, with the rigid defaults for meshes that carry
//! no skinning attributes, and the fixed interleaved vertex layout the
//! geometry passes bind. Vertex scalars pass through untouched as their raw
//! bit patterns; the library never does arithmetic on them.

use vstd::prelude::*;

verus! {

/// The bit pattern of one quarter: the equal weight every slot of an
/// unskinned vertex defaults to, leaving the rigid transform by joint zero.
pub const DEFAULT_WEIGHT_BITS: u32 = 0x3E80_0000;

/// One interleaved vertex: position and normal scalars (raw bit patterns),
/// four skin weights and four joint slots.
#[derive(Clone, Copy, PartialEq, Eq, Debug)]
pub struct Vertex {
    pub position: [u32; 3],
    pub normal: [u32; 3],
    pub weights: [u32; 4],
    pub joints: [u32; 4],
}

/// Why a primitive cannot be assembled; each aborts the load.
#[derive(Clone, Copy, PartialEq, Eq, Structural, Debug)]
pub enum MeshError {
    MissingPositions,
    MissingNormals,
    MissingIndices,
}

/// An assembled primitive: the interleaved vertices, the index list, and
/// the draw length.
pub struct MeshData {
    pub vertices: Vec<Vertex>,
    pub indices: Vec<u32>,
    pub length: u32,
}

/// The weights of vertex `i`: the authored stream entry, or four equal
/// quarters past its end (or with no stream at all).
pub open spec fn weights_at(weights: Option<Vec<[u32; 4]>>, i: int) -> [u32; 4] {
    match weights {
        Some(w) => if 0 <= i < w@.len() {
            w@[i]
        } else {
            [DEFAULT_WEIGHT_BITS, DEFAULT_WEIGHT_BITS, DEFAULT_WEIGHT_BITS, DEFAULT_WEIGHT_BITS]
        },
        None => [
            DEFAULT_WEIGHT_BITS,
            DEFAULT_WEIGHT_BITS,
            DEFAULT_WEIGHT_BITS,
            DEFAULT_WEIGHT_BITS,
        ],
    }
}

/// The joint slots of vertex `i`: the authored stream entry widened, or
/// slot zero past its end (or with no stream at all).
pub open spec fn joints_at(joints: Option<Vec<[u16; 4]>>, i: int) -> [u32; 4] {
    match joints {
        Some(j) => if 0 <= i < j@.len() {
            [j@[i][0] as u32, j@[i][1] as u32, j@[i][2] as u32, j@[i][3] as u32]
        } else {
            [0, 0, 0, 0]
        },
        None => [0, 0, 0, 0],
    }
}

/// Assemble a primitive's attribute streams into interleaved vertices.
/// Positions, normals and indices are required (a primitive without them is
/// a load-time fatal error, reported by variant); the vertex count is the
/// shorter of the position and normal streams; weight and joint streams are
/// padded with the rigid defaults.
pub fn assemble_vertices(
    positions: Option<Vec<[u32; 3]>>,
    normals: Option<Vec<[u32; 3]>>,
    weights: Option<Vec<[u32; 4]>>,
    joints: Option<Vec<[u16; 4]>>,
    indices: Option<Vec<u32>>,
) -> (r: Result<MeshData, MeshError>)
    ensures
        r is Err ==> (positions is None || normals is None || indices is None),
        positions is None ==> r == Err::<MeshData, MeshError>(MeshError::MissingPositions),
        positions is Some && normals is None ==> r == Err::<MeshData, MeshError>(
            MeshError::MissingNormals,
        ),
        positions is Some && normals is Some && indices is None ==> r == Err::<
            MeshData,
            MeshError,
        >(MeshError::MissingIndices),
        r is Ok ==> {
            &&& r->Ok_0.vertices@.len() == vstd::math::min(
                positions->Some_0@.len() as int,
                normals->Some_0@.len() as int,
            )
            &&& forall|i: int|
                0 <= i < r->Ok_0.vertices@.len() ==> (#[trigger] r->Ok_0.vertices@[i]) == (Vertex {
                    position: positions->Some_0@[i],
                    normal: normals->Some_0@[i],
                    weights: weights_at(weights, i),
                    joints: joints_at(joints, i),
                })
            &&& r->Ok_0.indices@ == indices->Some_0@
            &&& indices->Some_0@.len() <= u32::MAX ==> r->Ok_0.length == indices->Some_0@.len()
        },
{
    let ps = match positions {
        Some(p) => p,
        None => {
            return Err(MeshError::MissingPositions);
        },
    };
    let ns = match normals {
        Some(n) => n,
        None => {
            return Err(MeshError::MissingNormals);
        },
    };
    let is = match indices {
        Some(i) => i,
        None => {
            return Err(MeshError::MissingIndices);
        },
    };
    let n = if ps.len() < ns.len() {
        ps.len()
    } else {
        ns.len()
    };
    let mut vertices: Vec<Vertex> = Vec::new();
    let mut i: usize = 0;
    while i < n
        invariant
            n == vstd::math::min(ps@.len() as int, ns@.len() as int),
            i <= n,
            vertices@.len() == i,
            forall|k: int|
                0 <= k < i ==> (#[trigger] vertices@[k]) == (Vertex {
                    position: ps@[k],
                    normal: ns@[k],
                    weights: weights_at(weights, k),
                    joints: joints_at(joints, k),
                }),
        decreases n - i,
    {
        let w: [u32; 4] = match &weights {
            Some(ws) => if i < ws.len() {
                ws[i]
            } else {
                [
                    DEFAULT_WEIGHT_BITS,
                    DEFAULT_WEIGHT_BITS,
                    DEFAULT_WEIGHT_BITS,
                    DEFAULT_WEIGHT_BITS,
                ]
            },
            None => [
                DEFAULT_WEIGHT_BITS,
                DEFAULT_WEIGHT_BITS,
                DEFAULT_WEIGHT_BITS,
                DEFAULT_WEIGHT_BITS,
            ],
        };
        let j: [u32; 4] = match &joints {
            Some(js) => if i < js.len() {
                [js[i][0] as u32, js[i][1] as u32, js[i][2] as u32, js[i][3] as u32]
            } else {
                [0, 0, 0, 0]
            },
            None => [0, 0, 0, 0],
        };
        vertices.push(Vertex { position: ps[i], normal: ns[i], weights: w, joints: j });
        i = i + 1;
    }
    let length = #[verifier::truncate] (is.len() as u32);
    Ok(MeshData { vertices, indices: is, length })
}

/// The interleaved vertex layout the geometry passes bind: byte offsets of
/// each attribute and the stride of one vertex.
pub struct VertexLayout {
    pub stride: u32,
    pub position_offset: u32,
    pub normal_offset: u32,
    pub weights_offset: u32,
    pub joints_offset: u32,
}

/// The fixed layout of `Vertex`: three position scalars, three normal
/// scalars, four weights, four joint slots, four bytes each, packed in
/// order.
pub fn vertex_layout() -> (r: VertexLayout)
    ensures
        r.stride == 56,
        r.position_offset == 0,
        r.normal_offset == 12,
        r.weights_offset == 24,
        r.joints_offset == 40,
{
    VertexLayout {
        stride: 56,
        position_offset: 0,
        normal_offset: 12,
        weights_offset: 24,
        joints_offset: 40,
    }
}

} // verus!
