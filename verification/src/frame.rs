//! The frame orchestrator: the fixed, dependency-ordered sequence of render
//! passes and the intermediate images they produce and consume. Each frame
//! is a fresh traversal of the same acyclic graph: geometry into the
//! G-buffer, one shadow pass per point light, direct lighting accumulated
//! into the HDR target, the ambient/sky contribution added to it, the bloom
//! pyramid (downsample then separable blur per level), and the composite
//! into the frame image.

use vstd::prelude::*;

verus! {

/// One intermediate image (or the presentable frame image).
#[derive(Clone, Copy, PartialEq, Eq, Structural, Debug, Hash)]
pub enum ImageId {
    Diffuse,
    MaterialBuf,
    NormalBuf,
    DepthBuf,
    ShadowMap(usize),
    Hdr(usize),
    BlurTemp(usize),
    Bloom(usize),
    FrameImage,
}

/// Which stage a pass performs.
#[derive(Clone, Copy, PartialEq, Eq, Structural, Debug)]
pub enum PassKind {
    Geometry,
    Shadow(usize),
    DirectLighting,
    Ambient,
    Downsample(usize),
    BlurHorizontal(usize),
    BlurVertical(usize),
    Composite,
}

/// One render pass: what it reads, what it newly produces, and what it
/// accumulates into additively (a target produced earlier that it both
/// reads and adds to).
pub struct Pass {
    pub kind: PassKind,
    pub reads: Vec<ImageId>,
    pub writes: Vec<ImageId>,
    pub accumulates: Vec<ImageId>,
}

/// Some pass strictly before `j` writes `img`.
pub open spec fn written_before(passes: Seq<Pass>, j: int, img: ImageId) -> bool {
    exists|i: int, k: int|
        0 <= i < j && 0 <= k < passes[i].writes@.len() && (#[trigger] passes[i].writes@[k]) == img
}

/// The concatenation of all write sets from pass `j` on.
pub open spec fn flat_writes(passes: Seq<Pass>, j: int) -> Seq<ImageId>
    decreases passes.len() - j,
{
    if 0 <= j < passes.len() {
        passes[j].writes@ + flat_writes(passes, j + 1)
    } else {
        Seq::empty()
    }
}

/// The dependency discipline of a frame: no image is produced twice, and
/// every image a pass reads or accumulates into was produced by a pass that
/// executes strictly earlier. Together: every consumed image has exactly one
/// producer, and all its consumers run after it.
pub open spec fn schedule_valid(passes: Seq<Pass>) -> bool {
    &&& (forall|a: int, b: int|
        0 <= a < b < flat_writes(passes, 0).len() ==> (#[trigger] flat_writes(passes, 0)[a]) != (
        #[trigger] flat_writes(passes, 0)[b]))
    &&& (forall|j: int, k: int|
        0 <= j < passes.len() && 0 <= k < passes[j].reads@.len() ==> written_before(
            passes,
            j,
            (#[trigger] passes[j].reads@[k]),
        ))
    &&& (forall|j: int, k: int|
        0 <= j < passes.len() && 0 <= k < passes[j].accumulates@.len() ==> written_before(
            passes,
            j,
            (#[trigger] passes[j].accumulates@[k]),
        ))
}

/// Flatten every pass's write set, in order.
fn collect_writes(passes: &Vec<Pass>) -> (r: Vec<ImageId>)
    ensures
        r@ == flat_writes(passes@, 0),
{
    let n = passes.len();
    let mut out: Vec<ImageId> = Vec::new();
    let mut j: usize = 0;
    while j < n
        invariant
            n == passes@.len(),
            j <= n,
            out@ + flat_writes(passes@, j as int) == flat_writes(passes@, 0),
        decreases n - j,
    {
        let ghost pre = out@;
        let m = passes[j].writes.len();
        let mut k: usize = 0;
        while k < m
            invariant
                n == passes@.len(),
                j < n,
                m == passes@[j as int].writes@.len(),
                k <= m,
                out@ == pre + passes@[j as int].writes@.take(k as int),
            decreases m - k,
        {
            out.push(passes[j].writes[k]);
            proof {
                assert(passes@[j as int].writes@.take(k as int + 1) =~= passes@[
                    j as int].writes@.take(k as int) + seq![passes@[j as int].writes@[k as int]]);
            }
            k = k + 1;
        }
        proof {
            assert(passes@[j as int].writes@.take(m as int) =~= passes@[j as int].writes@);
            assert(flat_writes(passes@, j as int) == passes@[j as int].writes@ + flat_writes(
                passes@,
                j as int + 1,
            ));
            assert(out@ + flat_writes(passes@, j as int + 1) =~= pre + flat_writes(
                passes@,
                j as int,
            ));
        }
        j = j + 1;
    }
    proof {
        assert(flat_writes(passes@, n as int) == Seq::<ImageId>::empty());
        assert(out@ =~= out@ + Seq::<ImageId>::empty());
    }
    out
}

/// Whether all entries are pairwise distinct.
fn all_distinct(v: &Vec<ImageId>) -> (r: bool)
    ensures
        r == (forall|a: int, b: int| 0 <= a < b < v@.len() ==> v@[a] != v@[b]),
{
    let n = v.len();
    let mut a: usize = 0;
    while a < n
        invariant
            n == v@.len(),
            a <= n,
            forall|x: int, y: int| 0 <= x < y < v@.len() && x < a ==> v@[x] != v@[y],
        decreases n - a,
    {
        let mut b: usize = a + 1;
        while b < n
            invariant
                n == v@.len(),
                a < n,
                a < b <= n,
                forall|x: int, y: int| 0 <= x < y < v@.len() && x < a ==> v@[x] != v@[y],
                forall|y: int| a < y < b ==> v@[a as int] != v@[y],
            decreases n - b,
        {
            if v[a] == v[b] {
                return false;
            }
            b = b + 1;
        }
        a = a + 1;
    }
    true
}

/// Whether some pass strictly before `j` writes `img`.
fn find_writer(passes: &Vec<Pass>, j: usize, img: ImageId) -> (r: bool)
    requires
        j <= passes@.len(),
    ensures
        r == written_before(passes@, j as int, img),
{
    let mut i: usize = 0;
    while i < j
        invariant
            j <= passes@.len(),
            i <= j,
            forall|x: int, k: int|
                0 <= x < i && 0 <= k < passes@[x].writes@.len() ==> (#[trigger] passes@[
                    x].writes@[k]) != img,
        decreases j - i,
    {
        let m = passes[i].writes.len();
        let mut k: usize = 0;
        while k < m
            invariant
                j <= passes@.len(),
                i < j,
                m == passes@[i as int].writes@.len(),
                k <= m,
                forall|x: int, kk: int|
                    0 <= x < i && 0 <= kk < passes@[x].writes@.len() ==> (#[trigger] passes@[
                        x].writes@[kk]) != img,
                forall|kk: int| 0 <= kk < k ==> passes@[i as int].writes@[kk] != img,
            decreases m - k,
        {
            if passes[i].writes[k] == img {
                return true;
            }
            k = k + 1;
        }
        i = i + 1;
    }
    false
}

/// Check the whole dependency discipline of a schedule.
pub fn check_schedule(passes: &Vec<Pass>) -> (r: bool)
    ensures
        r == schedule_valid(passes@),
{
    let flat = collect_writes(passes);
    if !all_distinct(&flat) {
        return false;
    }
    let n = passes.len();
    let mut j: usize = 0;
    while j < n
        invariant
            n == passes@.len(),
            forall|a: int, b: int|
                0 <= a < b < flat_writes(passes@, 0).len() ==> (#[trigger] flat_writes(
                    passes@,
                    0,
                )[a]) != (#[trigger] flat_writes(passes@, 0)[b]),
            j <= n,
            forall|x: int, k: int|
                0 <= x < j && 0 <= k < passes@[x].reads@.len() ==> written_before(
                    passes@,
                    x,
                    (#[trigger] passes@[x].reads@[k]),
                ),
            forall|x: int, k: int|
                0 <= x < j && 0 <= k < passes@[x].accumulates@.len() ==> written_before(
                    passes@,
                    x,
                    (#[trigger] passes@[x].accumulates@[k]),
                ),
        decreases n - j,
    {
        let m = passes[j].reads.len();
        let mut k: usize = 0;
        while k < m
            invariant
                n == passes@.len(),
                j < n,
                m == passes@[j as int].reads@.len(),
                k <= m,
                forall|x: int, kk: int|
                    0 <= x < j && 0 <= kk < passes@[x].reads@.len() ==> written_before(
                        passes@,
                        x,
                        (#[trigger] passes@[x].reads@[kk]),
                    ),
                forall|x: int, kk: int|
                    0 <= x < j && 0 <= kk < passes@[x].accumulates@.len() ==> written_before(
                        passes@,
                        x,
                        (#[trigger] passes@[x].accumulates@[kk]),
                    ),
                forall|kk: int|
                    0 <= kk < k ==> written_before(
                        passes@,
                        j as int,
                        (#[trigger] passes@[j as int].reads@[kk]),
                    ),
            decreases m - k,
        {
            if !find_writer(passes, j, passes[j].reads[k]) {
                return false;
            }
            k = k + 1;
        }
        let ma = passes[j].accumulates.len();
        let mut ka: usize = 0;
        while ka < ma
            invariant
                n == passes@.len(),
                j < n,
                ma == passes@[j as int].accumulates@.len(),
                ka <= ma,
                forall|x: int, kk: int|
                    0 <= x < j && 0 <= kk < passes@[x].reads@.len() ==> written_before(
                        passes@,
                        x,
                        (#[trigger] passes@[x].reads@[kk]),
                    ),
                forall|x: int, kk: int|
                    0 <= x < j && 0 <= kk < passes@[x].accumulates@.len() ==> written_before(
                        passes@,
                        x,
                        (#[trigger] passes@[x].accumulates@[kk]),
                    ),
                forall|kk: int|
                    0 <= kk < m ==> written_before(
                        passes@,
                        j as int,
                        (#[trigger] passes@[j as int].reads@[kk]),
                    ),
                m == passes@[j as int].reads@.len(),
                forall|kk: int|
                    0 <= kk < ka ==> written_before(
                        passes@,
                        j as int,
                        (#[trigger] passes@[j as int].accumulates@[kk]),
                    ),
            decreases ma - ka,
        {
            if !find_writer(passes, j, passes[j].accumulates[ka]) {
                return false;
            }
            ka = ka + 1;
        }
        j = j + 1;
    }
    true
}

/// The number of bloom pyramid levels, counting the full-resolution HDR
/// image as level zero.
pub const MIP_LEVELS: usize = 5;

/// A pass as its contract sees it: the stage and the three image sets.
#[verifier::ext_equal]
pub struct PassView {
    pub kind: PassKind,
    pub reads: Seq<ImageId>,
    pub writes: Seq<ImageId>,
    pub accumulates: Seq<ImageId>,
}

/// The view of an executable pass.
pub open spec fn pv(p: Pass) -> PassView {
    PassView { kind: p.kind, reads: p.reads@, writes: p.writes@, accumulates: p.accumulates@ }
}

/// The four G-buffer images the geometry pass produces, in write order.
pub open spec fn gbuffer_writes() -> Seq<ImageId> {
    seq![ImageId::Diffuse, ImageId::MaterialBuf, ImageId::NormalBuf, ImageId::DepthBuf]
}

/// The G-buffer images the lighting passes sample, in bind order.
pub open spec fn lighting_reads() -> Seq<ImageId> {
    seq![ImageId::Diffuse, ImageId::NormalBuf, ImageId::DepthBuf, ImageId::MaterialBuf]
}

/// What direct lighting reads: the G-buffer and every light's shadow map.
pub open spec fn direct_reads(n: int) -> Seq<ImageId> {
    lighting_reads() + Seq::new(n as nat, |l: int| ImageId::ShadowMap(l as usize))
}

/// What the composite reads: the HDR base and every blurred bloom level.
pub open spec fn composite_reads(m: int) -> Seq<ImageId> {
    seq![ImageId::Hdr(0)] + Seq::new((m - 1) as nat, |i: int| ImageId::Bloom((i + 1) as usize))
}

/// How many passes one frame holds: geometry, one shadow pass per light,
/// direct lighting, ambient, `m - 1` downsamples, `2 * (m - 1)` blur halves,
/// and the composite.
pub open spec fn schedule_len(n: int, m: int) -> int {
    n + 3 * m + 1
}

/// The pass at position `j` of a frame with `n` point lights and `m`
/// pyramid levels: the fixed, scene-independent order of the pipeline.
pub open spec fn pass_at(n: int, m: int, j: int) -> PassView {
    if j == 0 {
        PassView {
            kind: PassKind::Geometry,
            reads: Seq::empty(),
            writes: gbuffer_writes(),
            accumulates: Seq::empty(),
        }
    } else if 1 <= j <= n {
        PassView {
            kind: PassKind::Shadow((j - 1) as usize),
            reads: Seq::empty(),
            writes: seq![ImageId::ShadowMap((j - 1) as usize)],
            accumulates: Seq::empty(),
        }
    } else if j == n + 1 {
        PassView {
            kind: PassKind::DirectLighting,
            reads: direct_reads(n),
            writes: seq![ImageId::Hdr(0)],
            accumulates: Seq::empty(),
        }
    } else if j == n + 2 {
        PassView {
            kind: PassKind::Ambient,
            reads: lighting_reads(),
            writes: Seq::empty(),
            accumulates: seq![ImageId::Hdr(0)],
        }
    } else if n + 3 <= j <= n + m + 1 {
        let i = j - n - 2;
        PassView {
            kind: PassKind::Downsample(i as usize),
            reads: seq![ImageId::Hdr((i - 1) as usize)],
            writes: seq![ImageId::Hdr(i as usize)],
            accumulates: Seq::empty(),
        }
    } else if n + m + 2 <= j <= n + 3 * m - 1 {
        let b = j - n - m - 2;
        let i = b / 2 + 1;
        if b % 2 == 0 {
            PassView {
                kind: PassKind::BlurHorizontal(i as usize),
                reads: seq![ImageId::Hdr(i as usize)],
                writes: seq![ImageId::BlurTemp(i as usize)],
                accumulates: Seq::empty(),
            }
        } else {
            PassView {
                kind: PassKind::BlurVertical(i as usize),
                reads: seq![ImageId::BlurTemp(i as usize)],
                writes: seq![ImageId::Bloom(i as usize)],
                accumulates: Seq::empty(),
            }
        }
    } else {
        PassView {
            kind: PassKind::Composite,
            reads: composite_reads(m),
            writes: seq![ImageId::FrameImage],
            accumulates: Seq::empty(),
        }
    }
}

/// Build one frame's pass sequence for a scene with `n_lights` point lights
/// and `mips` pyramid levels: pass `j` is exactly `pass_at(n_lights, mips,
/// j)` — geometry, one shadow pass per light, direct lighting, ambient, the
/// sequential downsample chain, the per-level separable blur, and the
/// composite — and the whole sequence obeys the dependency discipline:
/// every image is produced exactly once, before all its consumers.
pub fn frame_schedule(n_lights: usize, mips: usize) -> (r: Vec<Pass>)
    requires
        1 <= mips,
        n_lights + 3 * mips + 1 <= usize::MAX,
    ensures
        r@.len() == schedule_len(n_lights as int, mips as int),
        forall|j: int|
            0 <= j < r@.len() ==> #[trigger] pv(r@[j]) == pass_at(
                n_lights as int,
                mips as int,
                j,
            ),
        schedule_valid(r@),
{
    let ghost n = n_lights as int;
    let ghost m = mips as int;
    let mut passes: Vec<Pass> = Vec::new();

    let mut gw: Vec<ImageId> = Vec::new();
    gw.push(ImageId::Diffuse);
    gw.push(ImageId::MaterialBuf);
    gw.push(ImageId::NormalBuf);
    gw.push(ImageId::DepthBuf);
    passes.push(
        Pass {
            kind: PassKind::Geometry,
            reads: Vec::new(),
            writes: gw,
            accumulates: Vec::new(),
        },
    );
    proof {
        assert(passes@[0].writes@ =~= gbuffer_writes());
        assert(passes@[0].reads@ =~= Seq::<ImageId>::empty());
        assert(passes@[0].accumulates@ =~= Seq::<ImageId>::empty());
        assert(pv(passes@[0]) =~= pass_at(n, m, 0));
    }

    let mut l: usize = 0;
    while l < n_lights
        invariant
            n == n_lights as int,
            m == mips as int,
            1 <= mips,
            l <= n_lights,
            passes@.len() == 1 + l,
            forall|j: int|
                0 <= j < passes@.len() ==> #[trigger] pv(passes@[j]) == pass_at(n, m, j),
        decreases n_lights - l,
    {
        let mut w: Vec<ImageId> = Vec::new();
        w.push(ImageId::ShadowMap(l));
        passes.push(
            Pass {
                kind: PassKind::Shadow(l),
                reads: Vec::new(),
                writes: w,
                accumulates: Vec::new(),
            },
        );
        proof {
            let j = passes@.len() - 1;
            assert(passes@[j].writes@ =~= seq![ImageId::ShadowMap(l)]);
            assert(passes@[j].reads@ =~= Seq::<ImageId>::empty());
            assert(passes@[j].accumulates@ =~= Seq::<ImageId>::empty());
            assert(pv(passes@[j]) =~= pass_at(n, m, j));
        }
        l = l + 1;
    }

    let mut dr: Vec<ImageId> = Vec::new();
    dr.push(ImageId::Diffuse);
    dr.push(ImageId::NormalBuf);
    dr.push(ImageId::DepthBuf);
    dr.push(ImageId::MaterialBuf);
    proof {
        assert(dr@ =~= lighting_reads() + Seq::new(
            0,
            |x: int| ImageId::ShadowMap(x as usize),
        ));
    }
    let mut l2: usize = 0;
    while l2 < n_lights
        invariant
            n == n_lights as int,
            l2 <= n_lights,
            dr@ == lighting_reads() + Seq::new(
                l2 as nat,
                |x: int| ImageId::ShadowMap(x as usize),
            ),
        decreases n_lights - l2,
    {
        dr.push(ImageId::ShadowMap(l2));
        proof {
            assert(lighting_reads() + Seq::new(
                (l2 + 1) as nat,
                |x: int| ImageId::ShadowMap(x as usize),
            ) =~= (lighting_reads() + Seq::new(
                l2 as nat,
                |x: int| ImageId::ShadowMap(x as usize),
            )) + seq![ImageId::ShadowMap(l2)]);
        }
        l2 = l2 + 1;
    }
    proof {
        assert(dr@ == direct_reads(n));
    }
    let mut dw: Vec<ImageId> = Vec::new();
    dw.push(ImageId::Hdr(0));
    passes.push(
        Pass {
            kind: PassKind::DirectLighting,
            reads: dr,
            writes: dw,
            accumulates: Vec::new(),
        },
    );
    proof {
        let j = passes@.len() - 1;
        assert(passes@[j].writes@ =~= seq![ImageId::Hdr(0)]);
        assert(passes@[j].accumulates@ =~= Seq::<ImageId>::empty());
        assert(pv(passes@[j]) =~= pass_at(n, m, j));
    }

    let mut ar: Vec<ImageId> = Vec::new();
    ar.push(ImageId::Diffuse);
    ar.push(ImageId::NormalBuf);
    ar.push(ImageId::DepthBuf);
    ar.push(ImageId::MaterialBuf);
    let mut aa: Vec<ImageId> = Vec::new();
    aa.push(ImageId::Hdr(0));
    passes.push(
        Pass {
            kind: PassKind::Ambient,
            reads: ar,
            writes: Vec::new(),
            accumulates: aa,
        },
    );
    proof {
        let j = passes@.len() - 1;
        assert(passes@[j].reads@ =~= lighting_reads());
        assert(passes@[j].writes@ =~= Seq::<ImageId>::empty());
        assert(passes@[j].accumulates@ =~= seq![ImageId::Hdr(0)]);
        assert(pv(passes@[j]) =~= pass_at(n, m, j));
    }

    let mut i: usize = 1;
    while i < mips
        invariant
            n == n_lights as int,
            m == mips as int,
            1 <= i <= mips,
            passes@.len() == n + 2 + i,
            forall|j: int|
                0 <= j < passes@.len() ==> #[trigger] pv(passes@[j]) == pass_at(n, m, j),
        decreases mips - i,
    {
        let mut rd: Vec<ImageId> = Vec::new();
        rd.push(ImageId::Hdr(i - 1));
        let mut w: Vec<ImageId> = Vec::new();
        w.push(ImageId::Hdr(i));
        passes.push(
            Pass {
                kind: PassKind::Downsample(i),
                reads: rd,
                writes: w,
                accumulates: Vec::new(),
            },
        );
        proof {
            let j = passes@.len() - 1;
            assert(passes@[j].reads@ =~= seq![ImageId::Hdr((i - 1) as usize)]);
            assert(passes@[j].writes@ =~= seq![ImageId::Hdr(i as usize)]);
            assert(passes@[j].accumulates@ =~= Seq::<ImageId>::empty());
            assert(pv(passes@[j]) =~= pass_at(n, m, j));
        }
        i = i + 1;
    }

    let mut i2: usize = 1;
    while i2 < mips
        invariant
            n == n_lights as int,
            m == mips as int,
            1 <= i2 <= mips,
            passes@.len() == n + m + 2 + 2 * (i2 - 1),
            forall|j: int|
                0 <= j < passes@.len() ==> #[trigger] pv(passes@[j]) == pass_at(n, m, j),
        decreases mips - i2,
    {
        let mut hr: Vec<ImageId> = Vec::new();
        hr.push(ImageId::Hdr(i2));
        let mut hw: Vec<ImageId> = Vec::new();
        hw.push(ImageId::BlurTemp(i2));
        passes.push(
            Pass {
                kind: PassKind::BlurHorizontal(i2),
                reads: hr,
                writes: hw,
                accumulates: Vec::new(),
            },
        );
        proof {
            let j = passes@.len() - 1;
            let b = j - n - m - 2;
            assert(b == 2 * (i2 - 1));
            assert(b % 2 == 0 && b / 2 + 1 == i2 as int) by (nonlinear_arith)
                requires
                    b == 2 * (i2 as int - 1),
                    i2 >= 1,
            ;
            assert(passes@[j].reads@ =~= seq![ImageId::Hdr(i2)]);
            assert(passes@[j].writes@ =~= seq![ImageId::BlurTemp(i2)]);
            assert(passes@[j].accumulates@ =~= Seq::<ImageId>::empty());
            assert(pv(passes@[j]) =~= pass_at(n, m, j));
        }
        let mut vr: Vec<ImageId> = Vec::new();
        vr.push(ImageId::BlurTemp(i2));
        let mut vw: Vec<ImageId> = Vec::new();
        vw.push(ImageId::Bloom(i2));
        passes.push(
            Pass {
                kind: PassKind::BlurVertical(i2),
                reads: vr,
                writes: vw,
                accumulates: Vec::new(),
            },
        );
        proof {
            let j = passes@.len() - 1;
            let b = j - n - m - 2;
            assert(b == 2 * (i2 - 1) + 1);
            assert(b % 2 == 1 && b / 2 + 1 == i2 as int) by (nonlinear_arith)
                requires
                    b == 2 * (i2 as int - 1) + 1,
                    i2 >= 1,
            ;
            assert(passes@[j].reads@ =~= seq![ImageId::BlurTemp(i2)]);
            assert(passes@[j].writes@ =~= seq![ImageId::Bloom(i2)]);
            assert(passes@[j].accumulates@ =~= Seq::<ImageId>::empty());
            assert(pv(passes@[j]) =~= pass_at(n, m, j));
        }
        i2 = i2 + 1;
    }

    let mut cr: Vec<ImageId> = Vec::new();
    cr.push(ImageId::Hdr(0));
    proof {
        assert(cr@ =~= seq![ImageId::Hdr(0)] + Seq::new(
            0,
            |x: int| ImageId::Bloom((x + 1) as usize),
        ));
    }
    let mut i3: usize = 1;
    while i3 < mips
        invariant
            m == mips as int,
            1 <= i3 <= mips,
            cr@ == seq![ImageId::Hdr(0)] + Seq::new(
                (i3 - 1) as nat,
                |x: int| ImageId::Bloom((x + 1) as usize),
            ),
        decreases mips - i3,
    {
        cr.push(ImageId::Bloom(i3));
        proof {
            assert(seq![ImageId::Hdr(0)] + Seq::new(
                i3 as nat,
                |x: int| ImageId::Bloom((x + 1) as usize),
            ) =~= (seq![ImageId::Hdr(0)] + Seq::new(
                (i3 - 1) as nat,
                |x: int| ImageId::Bloom((x + 1) as usize),
            )) + seq![ImageId::Bloom(i3)]);
        }
        i3 = i3 + 1;
    }
    proof {
        assert(cr@ == composite_reads(m));
    }
    let mut cw: Vec<ImageId> = Vec::new();
    cw.push(ImageId::FrameImage);
    passes.push(
        Pass {
            kind: PassKind::Composite,
            reads: cr,
            writes: cw,
            accumulates: Vec::new(),
        },
    );
    proof {
        let j = passes@.len() - 1;
        assert(j == n + 3 * m);
        assert(passes@[j].writes@ =~= seq![ImageId::FrameImage]);
        assert(passes@[j].accumulates@ =~= Seq::<ImageId>::empty());
        assert(pv(passes@[j]) =~= pass_at(n, m, j));
        lemma_schedule_valid(passes@, n, m);
    }
    passes
}

/// Every element of a tail of the flattened writes is some pass's write.
proof fn lemma_flat_member(s: Seq<Pass>, j: int, a: int)
    requires
        0 <= j,
        0 <= a < flat_writes(s, j).len(),
    ensures
        exists|i: int, k: int|
            j <= i < s.len() && 0 <= k < s[i].writes@.len() && (#[trigger] s[i].writes@[k])
                == flat_writes(s, j)[a],
    decreases s.len() - j,
{
    if j < s.len() {
        let w = s[j].writes@;
        if a < w.len() {
            assert(s[j].writes@[a] == flat_writes(s, j)[a]);
        } else {
            lemma_flat_member(s, j + 1, a - w.len());
            let (i, k): (int, int) = choose|i: int, k: int|
                j + 1 <= i < s.len() && 0 <= k < s[i].writes@.len() && (#[trigger] s[
                    i].writes@[k]) == flat_writes(s, j + 1)[a - w.len()];
            assert(flat_writes(s, j)[a] == flat_writes(s, j + 1)[a - w.len()]);
            assert(s[i].writes@[k] == flat_writes(s, j)[a]);
        }
    }
}

/// Distinct writes within each pass and disjoint writes across passes make
/// the whole flattened write list duplicate-free.
proof fn lemma_flat_distinct(s: Seq<Pass>, j: int)
    requires
        0 <= j,
        forall|i: int, k1: int, k2: int|
            j <= i < s.len() && 0 <= k1 < k2 < s[i].writes@.len() ==> (#[trigger] s[i].writes@[k1])
                != (#[trigger] s[i].writes@[k2]),
        forall|i1: int, i2: int, k1: int, k2: int|
            j <= i1 < i2 < s.len() && 0 <= k1 < s[i1].writes@.len() && 0 <= k2 < s[
                i2].writes@.len() ==> (#[trigger] s[i1].writes@[k1]) != (#[trigger] s[
                i2].writes@[k2]),
    ensures
        forall|a: int, b: int|
            0 <= a < b < flat_writes(s, j).len() ==> (#[trigger] flat_writes(s, j)[a]) != (
            #[trigger] flat_writes(s, j)[b]),
    decreases s.len() - j,
{
    if j < s.len() {
        lemma_flat_distinct(s, j + 1);
        let w = s[j].writes@;
        let rest = flat_writes(s, j + 1);
        assert forall|a: int, b: int|
            0 <= a < b < flat_writes(s, j).len() implies (#[trigger] flat_writes(s, j)[a]) != (
        #[trigger] flat_writes(s, j)[b]) by {
            if b < w.len() {
                assert(flat_writes(s, j)[a] == s[j].writes@[a]);
                assert(flat_writes(s, j)[b] == s[j].writes@[b]);
            } else if a >= w.len() {
                assert(flat_writes(s, j)[a] == rest[a - w.len()]);
                assert(flat_writes(s, j)[b] == rest[b - w.len()]);
            } else {
                assert(flat_writes(s, j)[a] == s[j].writes@[a]);
                assert(flat_writes(s, j)[b] == rest[b - w.len()]);
                lemma_flat_member(s, j + 1, b - w.len());
                let (i2, k2): (int, int) = choose|i2: int, k2: int|
                    j + 1 <= i2 < s.len() && 0 <= k2 < s[i2].writes@.len() && (#[trigger] s[
                        i2].writes@[k2]) == rest[b - w.len()];
                assert(s[j].writes@[a] != s[i2].writes@[k2]);
            }
        }
    }
}

/// Two different passes of the fixed pipeline never produce the same image.
proof fn lemma_writes_disjoint(n: int, m: int, i1: int, i2: int, k1: int, k2: int)
    requires
        0 <= n,
        1 <= m,
        n + 3 * m + 1 <= usize::MAX,
        0 <= i1 < i2 < schedule_len(n, m),
        0 <= k1 < pass_at(n, m, i1).writes.len(),
        0 <= k2 < pass_at(n, m, i2).writes.len(),
    ensures
        pass_at(n, m, i1).writes[k1] != pass_at(n, m, i2).writes[k2],
{
    let w1 = pass_at(n, m, i1).writes[k1];
    let w2 = pass_at(n, m, i2).writes[k2];
    // the blur block needs the halving of its offset to be injective per
    // parity, and every payload cast to stay exact
    if n + m + 2 <= i1 <= n + 3 * m - 1 {
        vstd::arithmetic::div_mod::lemma_fundamental_div_mod(i1 - n - m - 2, 2);
    }
    if n + m + 2 <= i2 <= n + 3 * m - 1 {
        vstd::arithmetic::div_mod::lemma_fundamental_div_mod(i2 - n - m - 2, 2);
    }
    assert(w1 != w2);
}

/// The fixed pipeline obeys the dependency discipline, for every number of
/// point lights and pyramid levels: no image is produced twice, and every
/// read or accumulation happens strictly after its producer.
pub proof fn lemma_schedule_valid(s: Seq<Pass>, n: int, m: int)
    requires
        0 <= n,
        1 <= m,
        n + 3 * m + 1 <= usize::MAX,
        s.len() == schedule_len(n, m),
        forall|j: int| 0 <= j < s.len() ==> #[trigger] pv(s[j]) == pass_at(n, m, j),
    ensures
        schedule_valid(s),
{
    // no image is produced twice
    assert forall|i: int, q1: int, q2: int|
        0 <= i < s.len() && 0 <= q1 < q2 < s[i].writes@.len() implies (#[trigger] s[
    i].writes@[q1]) != (#[trigger] s[i].writes@[q2]) by {
        assert(pv(s[i]) == pass_at(n, m, i));
        assert(s[i].writes@ == pass_at(n, m, i).writes);
    }
    assert forall|x1: int, x2: int, q1: int, q2: int|
        0 <= x1 < x2 < s.len() && 0 <= q1 < s[x1].writes@.len() && 0 <= q2 < s[
    x2].writes@.len() implies (#[trigger] s[x1].writes@[q1]) != (#[trigger] s[
    x2].writes@[q2]) by {
        assert(pv(s[x1]) == pass_at(n, m, x1));
        assert(pv(s[x2]) == pass_at(n, m, x2));
        lemma_writes_disjoint(n, m, x1, x2, q1, q2);
    }
    lemma_flat_distinct(s, 0);
    // every read and accumulation has an earlier producer
    assert forall|j: int, k: int|
        0 <= j < s.len() && 0 <= k < s[j].reads@.len() implies written_before(
        s,
        j,
        (#[trigger] s[j].reads@[k]),
    ) by {
        assert(pv(s[j]) == pass_at(n, m, j));
        lemma_read_producer(s, n, m, j, k);
    }
    assert forall|j: int, k: int|
        0 <= j < s.len() && 0 <= k < s[j].accumulates@.len() implies written_before(
        s,
        j,
        (#[trigger] s[j].accumulates@[k]),
    ) by {
        assert(pv(s[j]) == pass_at(n, m, j));
        // only the ambient pass accumulates, into the HDR base that direct
        // lighting produced just before it
        assert(j == n + 2 && s[j].accumulates@[k] == ImageId::Hdr(0));
        assert(pv(s[n + 1]) == pass_at(n, m, n + 1));
        assert(s[n + 1].writes@[0] == ImageId::Hdr(0));
        assert(written_before(s, j, ImageId::Hdr(0)));
    }
}

/// Each image a pass reads was produced by an earlier pass of the pipeline.
proof fn lemma_read_producer(s: Seq<Pass>, n: int, m: int, j: int, k: int)
    requires
        0 <= n,
        1 <= m,
        n + 3 * m + 1 <= usize::MAX,
        s.len() == schedule_len(n, m),
        forall|jj: int| 0 <= jj < s.len() ==> #[trigger] pv(s[jj]) == pass_at(n, m, jj),
        0 <= j < s.len(),
        0 <= k < s[j].reads@.len(),
    ensures
        written_before(s, j, s[j].reads@[k]),
{
    assert(pv(s[j]) == pass_at(n, m, j));
    let img = s[j].reads@[k];
    assert(pv(s[0]) == pass_at(n, m, 0));
    assert(s[0].writes@ == gbuffer_writes());
    if j == n + 1 || j == n + 2 {
        // direct lighting and ambient read the G-buffer, and direct
        // lighting also reads each light's shadow map
        if k < 4 {
            assert(img == lighting_reads()[k]);
            if k == 0 {
                assert(s[0].writes@[0] == img);
            } else if k == 1 {
                assert(s[0].writes@[2] == img);
            } else if k == 2 {
                assert(s[0].writes@[3] == img);
            } else {
                assert(s[0].writes@[1] == img);
            }
            assert(written_before(s, j, img));
        } else {
            // only direct lighting has more than the four G-buffer reads
            assert(j == n + 1);
            let l = k - 4;
            assert(img == ImageId::ShadowMap(l as usize));
            assert(pv(s[1 + l]) == pass_at(n, m, 1 + l));
            assert(s[1 + l].writes@[0] == ImageId::ShadowMap(l as usize));
            assert(written_before(s, j, img));
        }
    } else if n + 3 <= j <= n + m + 1 {
        // downsample level i reads level i - 1
        let i = j - n - 2;
        assert(img == ImageId::Hdr((i - 1) as usize));
        if i == 1 {
            assert(pv(s[n + 1]) == pass_at(n, m, n + 1));
            assert(s[n + 1].writes@[0] == ImageId::Hdr(0));
        } else {
            assert(pv(s[j - 1]) == pass_at(n, m, j - 1));
            assert(s[j - 1].writes@[0] == ImageId::Hdr((i - 1) as usize));
        }
        assert(written_before(s, j, img));
    } else if n + m + 2 <= j <= n + 3 * m - 1 {
        let b = j - n - m - 2;
        let i = b / 2 + 1;
        vstd::arithmetic::div_mod::lemma_fundamental_div_mod(b, 2);
        assert(1 <= i <= m - 1);
        if b % 2 == 0 {
            // the horizontal blur of level i reads the downsampled level i
            assert(img == ImageId::Hdr(i as usize));
            let w = n + 2 + i;
            assert(n + 3 <= w <= n + m + 1 && w < j);
            assert(pv(s[w]) == pass_at(n, m, w));
            assert(s[w].writes@[0] == ImageId::Hdr(i as usize));
        } else {
            // the vertical blur reads its level's horizontal half
            assert(img == ImageId::BlurTemp(i as usize));
            vstd::arithmetic::div_mod::lemma_fundamental_div_mod(b - 1, 2);
            assert((b - 1) / 2 == b / 2);
            assert(pv(s[j - 1]) == pass_at(n, m, j - 1));
            assert(s[j - 1].writes@[0] == ImageId::BlurTemp(i as usize));
        }
        assert(written_before(s, j, img));
    } else if j == n + 3 * m {
        // the composite reads the HDR base and every bloom level
        assert(img == composite_reads(m)[k]);
        if k == 0 {
            assert(img == ImageId::Hdr(0));
            assert(pv(s[n + 1]) == pass_at(n, m, n + 1));
            assert(s[n + 1].writes@[0] == ImageId::Hdr(0));
        } else {
            assert(img == ImageId::Bloom(k as usize));
            let w = n + m + 1 + 2 * k;
            let b = w - n - m - 2;
            assert(b == 2 * k - 1);
            vstd::arithmetic::div_mod::lemma_fundamental_div_mod(b, 2);
            assert(b % 2 == 1 && b / 2 + 1 == k) by (nonlinear_arith)
                requires
                    b == 2 * k - 1,
                    k >= 1,
            ;
            assert(n + m + 2 <= w <= n + 3 * m - 1 && w < j);
            assert(pv(s[w]) == pass_at(n, m, w));
            assert(s[w].writes@[0] == ImageId::Bloom(k as usize));
        }
        assert(written_before(s, j, img));
    } else {
        // geometry and the shadow passes read no images
        assert(s[j].reads@.len() == 0);
    }
}

/// The per-level blur parameters: the Gaussian's standard deviation and its
/// discrete radius, coarser at higher levels so the stacked result
/// approximates one wide blur cheaply.
pub open spec fn blur_params_spec(level: int) -> Option<(crate::rat::Rat, i32)> {
    if level == 1 {
        match crate::rat::norm(31, 10) {
            Some(s) => Some((s, 9i32)),
            None => None,
        }
    } else if level == 2 {
        match crate::rat::norm(249, 40) {
            Some(s) => Some((s, 18i32)),
            None => None,
        }
    } else if level == 3 {
        match crate::rat::norm(81, 8) {
            Some(s) => Some((s, 30i32)),
            None => None,
        }
    } else if level == 4 {
        match crate::rat::norm(263, 16) {
            Some(s) => Some((s, 48i32)),
            None => None,
        }
    } else {
        None
    }
}

/// The per-level blur parameters, exactly as authored: standard deviations
/// 3.1, 6.225, 10.125 and 16.4375 with radii 9, 18, 30 and 48 for levels
/// one to four; nothing for any other level.
pub fn blur_params(level: usize) -> (r: Option<(crate::rat::Rat, i32)>)
    ensures
        r == blur_params_spec(level as int),
        r is Some ==> r->Some_0.0.wf(),
{
    if level == 1 {
        match crate::rat::Rat::new(31, 10) {
            Some(s) => Some((s, 9)),
            None => None,
        }
    } else if level == 2 {
        match crate::rat::Rat::new(249, 40) {
            Some(s) => Some((s, 18)),
            None => None,
        }
    } else if level == 3 {
        match crate::rat::Rat::new(81, 8) {
            Some(s) => Some((s, 30)),
            None => None,
        }
    } else if level == 4 {
        match crate::rat::Rat::new(263, 16) {
            Some(s) => Some((s, 48)),
            None => None,
        }
    } else {
        None
    }
}

} // verus!
