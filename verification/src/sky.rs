//! The analytic daylight sky: the Perez luminance/chromaticity parameter
//! vectors and the zenith values, computed from the sun's zenith angle and
//! the atmospheric turbidity. All coefficients are the authored decimal
//! tables held exactly as rationals.

use crate::algebra::{dot4_spec, mul_add_spec, Vec3};
use crate::rat::{norm, rat_mul, rat_one, rat_sub, rat_zero, Rat};
use crate::trig::{tan_q, tan_q_spec};
use vstd::prelude::*;

verus! {

/// A five-component coefficient vector (the Perez A..E parameters).
#[derive(Clone, Copy, PartialEq, Eq, Structural, Debug)]
pub struct Vec5 {
    pub x: Rat,
    pub y: Rat,
    pub z: Rat,
    pub w: Rat,
    pub v: Rat,
}

impl Vec5 {
    /// All components canonical.
    pub open spec fn wf(self) -> bool {
        self.x.wf() && self.y.wf() && self.z.wf() && self.w.wf() && self.v.wf()
    }
}

/// The Perez parameter vector for one channel: the turbidity column times
/// the turbidity, plus the constant column — `c0 * t + c1` componentwise.
pub open spec fn perez_spec(c0: Vec5, c1: Vec5, t: Rat) -> Option<Vec5> {
    match (
        mul_add_spec(c0.x, t, c1.x),
        mul_add_spec(c0.y, t, c1.y),
        mul_add_spec(c0.z, t, c1.z),
        mul_add_spec(c0.w, t, c1.w),
        mul_add_spec(c0.v, t, c1.v),
    ) {
        (Some(x), Some(y), Some(z), Some(w), Some(v)) => Some(Vec5 { x, y, z, w, v }),
        _ => None,
    }
}

/// The Perez parameter vector for one channel.
pub fn perez(c0: Vec5, c1: Vec5, t: Rat) -> (r: Option<Vec5>)
    requires
        c0.wf(),
        c1.wf(),
        t.wf(),
    ensures
        r == perez_spec(c0, c1, t),
        r is Some ==> r->Some_0.wf(),
{
    let x = match crate::algebra::mul_add(c0.x, t, c1.x) {
        Some(v) => v,
        None => {
            return None;
        },
    };
    let y = match crate::algebra::mul_add(c0.y, t, c1.y) {
        Some(v) => v,
        None => {
            return None;
        },
    };
    let z = match crate::algebra::mul_add(c0.z, t, c1.z) {
        Some(v) => v,
        None => {
            return None;
        },
    };
    let w = match crate::algebra::mul_add(c0.w, t, c1.w) {
        Some(v) => v,
        None => {
            return None;
        },
    };
    let v = match crate::algebra::mul_add(c0.v, t, c1.v) {
        Some(v) => v,
        None => {
            return None;
        },
    };
    Some(Vec5 { x, y, z, w, v })
}

/// The zenith luminance: with `chi = (4/9 - t/120) * (pi - 2 * theta)`, the
/// value `(4.0453 t - 4.9710) * tan(chi) - 0.2155 t + 2.4192`, all
/// coefficients exact.
pub open spec fn y_z_spec(theta: Rat, t: Rat) -> Option<Rat> {
    match (norm(4, 9), norm(1, 120), norm(40453, 10000), norm(49710, 10000), norm(2155, 10000),
    norm(24192, 10000)) {
        (Some(fn49), Some(f120), Some(ca), Some(cb), Some(cc), Some(cd)) => match rat_mul(
            t,
            f120,
        ) {
            Some(t120) => match rat_sub(fn49, t120) {
                Some(lead) => match rat_mul(crate::rat::rat_two(), theta) {
                    Some(th2) => match rat_sub(Rat { num: 355, den: 113 }, th2) {
                        Some(pimth) => match rat_mul(lead, pimth) {
                            Some(chi) => match tan_q_spec(chi) {
                                Some(tanchi) => match rat_mul(ca, t) {
                                    Some(cat) => match rat_sub(cat, cb) {
                                        Some(coef) => match rat_mul(coef, tanchi) {
                                            Some(main) => match rat_mul(cc, t) {
                                                Some(cct) => match rat_sub(main, cct) {
                                                    Some(s1) => crate::rat::rat_add(s1, cd),
                                                    None => None,
                                                },
                                                None => None,
                                            },
                                            None => None,
                                        },
                                        None => None,
                                    },
                                    None => None,
                                },
                                None => None,
                            },
                            None => None,
                        },
                        None => None,
                    },
                    None => None,
                },
                None => None,
            },
            None => None,
        },
        _ => None,
    }
}

/// The zenith luminance.
pub fn y_z(theta: Rat, t: Rat) -> (r: Option<Rat>)
    requires
        theta.wf(),
        t.wf(),
    ensures
        r == y_z_spec(theta, t),
        r is Some ==> r->Some_0.wf(),
{
    proof {
        crate::rat::lemma_consts_wf();
    }
    let fn49 = match Rat::new(4, 9) {
        Some(v) => v,
        None => {
            return None;
        },
    };
    let f120 = match Rat::new(1, 120) {
        Some(v) => v,
        None => {
            return None;
        },
    };
    let ca = match Rat::new(40453, 10000) {
        Some(v) => v,
        None => {
            return None;
        },
    };
    let cb = match Rat::new(49710, 10000) {
        Some(v) => v,
        None => {
            return None;
        },
    };
    let cc = match Rat::new(2155, 10000) {
        Some(v) => v,
        None => {
            return None;
        },
    };
    let cd = match Rat::new(24192, 10000) {
        Some(v) => v,
        None => {
            return None;
        },
    };
    let t120 = match t.mul(f120) {
        Some(v) => v,
        None => {
            return None;
        },
    };
    let lead = match fn49.sub(t120) {
        Some(v) => v,
        None => {
            return None;
        },
    };
    let two = Rat::from_int(2);
    let th2 = match two.mul(theta) {
        Some(v) => v,
        None => {
            return None;
        },
    };
    let pimth = match crate::trig::rat_pi().sub(th2) {
        Some(v) => v,
        None => {
            return None;
        },
    };
    let chi = match lead.mul(pimth) {
        Some(v) => v,
        None => {
            return None;
        },
    };
    let tanchi = match tan_q(chi) {
        Some(v) => v,
        None => {
            return None;
        },
    };
    let cat = match ca.mul(t) {
        Some(v) => v,
        None => {
            return None;
        },
    };
    let coef = match cat.sub(cb) {
        Some(v) => v,
        None => {
            return None;
        },
    };
    let main = match coef.mul(tanchi) {
        Some(v) => v,
        None => {
            return None;
        },
    };
    let cct = match cc.mul(t) {
        Some(v) => v,
        None => {
            return None;
        },
    };
    let s1 = match main.sub(cct) {
        Some(v) => v,
        None => {
            return None;
        },
    };
    s1.add(cd)
}

/// A zenith chromaticity polynomial: the twelve-coefficient matrix (rows by
/// powers of the zenith angle, columns by powers of the turbidity) applied
/// to `(t^2, t, 1)` and then dotted with `(theta^3, theta^2, theta, 1)`.
pub open spec fn zenith_poly_spec(m: Seq<Rat>, theta: Rat, t: Rat) -> Option<Rat> {
    match (rat_mul(t, t), rat_mul(theta, theta)) {
        (Some(t2), Some(th2)) => match rat_mul(th2, theta) {
            Some(th3) => match (
                row3_spec(m, 0, t2, t),
                row3_spec(m, 1, t2, t),
                row3_spec(m, 2, t2, t),
                row3_spec(m, 3, t2, t),
            ) {
                (Some(r0), Some(r1), Some(r2), Some(r3)) => dot4_spec(
                    r0,
                    th3,
                    r1,
                    th2,
                    r2,
                    theta,
                    r3,
                    rat_one(),
                ),
                _ => None,
            },
            None => None,
        },
        _ => None,
    }
}

/// One row of the chromaticity matrix against `(t^2, t, 1)`.
pub open spec fn row3_spec(m: Seq<Rat>, row: int, t2: Rat, t: Rat) -> Option<Rat> {
    dot4_spec(m[3 * row], t2, m[3 * row + 1], t, m[3 * row + 2], rat_one(), rat_zero(), rat_zero())
}

/// A zenith chromaticity polynomial over a twelve-entry coefficient matrix.
pub fn zenith_poly(m: &Vec<Rat>, theta: Rat, t: Rat) -> (r: Option<Rat>)
    requires
        m@.len() == 12,
        forall|k: int| 0 <= k < 12 ==> (#[trigger] m@[k]).wf(),
        theta.wf(),
        t.wf(),
    ensures
        r == zenith_poly_spec(m@, theta, t),
        r is Some ==> r->Some_0.wf(),
{
    proof {
        crate::rat::lemma_consts_wf();
    }
    let t2 = match t.mul(t) {
        Some(v) => v,
        None => {
            return None;
        },
    };
    let th2 = match theta.mul(theta) {
        Some(v) => v,
        None => {
            return None;
        },
    };
    let th3 = match th2.mul(theta) {
        Some(v) => v,
        None => {
            return None;
        },
    };
    let one = Rat::one();
    let z = Rat::zero();
    let r0 = match crate::algebra::dot4(m[0], t2, m[1], t, m[2], one, z, z) {
        Some(v) => v,
        None => {
            return None;
        },
    };
    let r1 = match crate::algebra::dot4(m[3], t2, m[4], t, m[5], one, z, z) {
        Some(v) => v,
        None => {
            return None;
        },
    };
    let r2 = match crate::algebra::dot4(m[6], t2, m[7], t, m[8], one, z, z) {
        Some(v) => v,
        None => {
            return None;
        },
    };
    let r3 = match crate::algebra::dot4(m[9], t2, m[10], t, m[11], one, z, z) {
        Some(v) => v,
        None => {
            return None;
        },
    };
    crate::algebra::dot4(r0, th3, r1, th2, r2, theta, r3, one)
}

/// The computed sky uniform: the five Perez vectors gathered per component
/// (luminance first, then the two chromaticities), the zenith triple, and
/// the sun's zenith angle.
pub struct Sky {
    pub a: Vec3,
    pub b: Vec3,
    pub c: Vec3,
    pub d: Vec3,
    pub e: Vec3,
    pub zenith: Vec3,
    pub theta_sun: Rat,
}

impl Sky {
    /// All values canonical.
    pub open spec fn wf(self) -> bool {
        self.a.wf() && self.b.wf() && self.c.wf() && self.d.wf() && self.e.wf()
            && self.zenith.wf() && self.theta_sun.wf()
    }
}

/// A coefficient table entry, exactly as authored (scaled by ten thousand).
fn coef(n: i64) -> (r: Option<Rat>)
    ensures
        r == norm(n as int, 10000),
        r is Some ==> r->Some_0.wf(),
{
    Rat::new(n, 10000)
}

/// Five authored table entries as a coefficient vector.
pub open spec fn table5(a: int, b: int, c: int, d: int, e: int) -> Option<Vec5> {
    match (norm(a, 10000), norm(b, 10000), norm(c, 10000), norm(d, 10000), norm(e, 10000)) {
        (Some(x), Some(y), Some(z), Some(w), Some(v)) => Some(Vec5 { x, y, z, w, v }),
        _ => None,
    }
}

/// Twelve authored table entries as a chromaticity matrix.
pub open spec fn table12(entries: Seq<int>) -> Option<Seq<Rat>> {
    if forall|k: int| 0 <= k < entries.len() ==> (#[trigger] norm(entries[k], 10000)) is Some {
        Some(Seq::new(entries.len(), |k: int| norm(entries[k], 10000)->Some_0))
    } else {
        None
    }
}

/// The x-chromaticity zenith table, row-major, scaled by ten thousand.
pub open spec fn mx_entries() -> Seq<int> {
    seq![17, -290, 1169, -37, 638, -2120, 21, -320, 605, 0, 39, 2589]
}

/// The y-chromaticity zenith table, row-major, scaled by ten thousand.
pub open spec fn my_entries() -> Seq<int> {
    seq![28, -421, 1535, -61, 897, -2676, 32, -415, 667, 0, 52, 2669]
}

/// Build a coefficient vector from five scaled entries.
fn coef5(a: i64, b: i64, c: i64, d: i64, e: i64) -> (r: Option<Vec5>)
    ensures
        r == table5(a as int, b as int, c as int, d as int, e as int),
        r is Some ==> r->Some_0.wf(),
{
    let x = match coef(a) {
        Some(v) => v,
        None => {
            return None;
        },
    };
    let y = match coef(b) {
        Some(v) => v,
        None => {
            return None;
        },
    };
    let z = match coef(c) {
        Some(v) => v,
        None => {
            return None;
        },
    };
    let w = match coef(d) {
        Some(v) => v,
        None => {
            return None;
        },
    };
    let v = match coef(e) {
        Some(v) => v,
        None => {
            return None;
        },
    };
    Some(Vec5 { x, y, z, w, v })
}

/// Build a twelve-entry chromaticity matrix from scaled entries.
fn coef12(entries: [i64; 12]) -> (r: Option<Vec<Rat>>)
    ensures
        r is Some <==> table12(entries@.map_values(|x: i64| x as int)) is Some,
        r is Some ==> r->Some_0@ == table12(entries@.map_values(|x: i64| x as int))->Some_0,
        r is Some ==> r->Some_0@.len() == 12 && forall|k: int|
            0 <= k < 12 ==> (#[trigger] r->Some_0@[k]).wf(),
{
    let ghost ents = entries@.map_values(|x: i64| x as int);
    let mut out: Vec<Rat> = Vec::new();
    let mut k: usize = 0;
    while k < 12
        invariant
            ents == entries@.map_values(|x: i64| x as int),
            k <= 12,
            out@.len() == k,
            forall|j: int| 0 <= j < k ==> Some((#[trigger] out@[j])) == norm(ents[j], 10000),
            forall|j: int| 0 <= j < k ==> (#[trigger] out@[j]).wf(),
        decreases 12 - k,
    {
        match coef(entries[k]) {
            Some(v) => {
                out.push(v);
            },
            None => {
                proof {
                    assert(norm(ents[k as int], 10000) is None);
                    assert(table12(ents) is None);
                }
                return None;
            },
        }
        k = k + 1;
    }
    proof {
        assert forall|j: int| 0 <= j < ents.len() implies (#[trigger] norm(ents[j], 10000))
            is Some by {
            assert(Some(out@[j]) == norm(ents[j], 10000));
        }
        assert(out@ =~= table12(ents)->Some_0);
    }
    Some(out)
}

/// The whole sky for a sun angle and turbidity: the three Perez vectors on
/// the authored tables, gathered componentwise into the `a..e` uniform
/// triples, and the zenith triple from the luminance formula and the two
/// chromaticity polynomials. `None` exactly when some value leaves the
/// representable range.
pub open spec fn sky_spec(theta_sun: Rat, turbidity: Rat) -> Option<Sky> {
    match (
        table5(1787, -3554, -227, 1206, -670),
        table5(-14630, 4275, 53251, -25771, 3703),
        table5(-193, -665, -4, -641, -33),
        table5(-2592, 8, 2125, -8989, 452),
        table5(-167, -950, -79, -441, -109),
        table5(-2608, 92, 2102, -16537, 529),
    ) {
        (Some(cy0), Some(cy1), Some(cx0), Some(cx1), Some(cyy0), Some(cyy1)) => match (
            perez_spec(cy0, cy1, turbidity),
            perez_spec(cx0, cx1, turbidity),
            perez_spec(cyy0, cyy1, turbidity),
        ) {
            (Some(p_y), Some(px), Some(py)) => match (
                table12(mx_entries()),
                table12(my_entries()),
            ) {
                (Some(mx), Some(my)) => match (
                    y_z_spec(theta_sun, turbidity),
                    zenith_poly_spec(mx, theta_sun, turbidity),
                    zenith_poly_spec(my, theta_sun, turbidity),
                ) {
                    (Some(yz), Some(xz), Some(yz2)) => Some(
                        Sky {
                            a: Vec3 { x: p_y.x, y: px.x, z: py.x },
                            b: Vec3 { x: p_y.y, y: px.y, z: py.y },
                            c: Vec3 { x: p_y.z, y: px.z, z: py.z },
                            d: Vec3 { x: p_y.w, y: px.w, z: py.w },
                            e: Vec3 { x: p_y.v, y: px.v, z: py.v },
                            zenith: Vec3 { x: yz, y: xz, z: yz2 },
                            theta_sun,
                        },
                    ),
                    _ => None,
                },
                _ => None,
            },
            _ => None,
        },
        _ => None,
    }
}

/// Compute the sky for a sun angle and turbidity, exactly as `sky_spec`
/// lays it out.
#[verifier::rlimit(100)]
pub fn sky_new(theta_sun: Rat, turbidity: Rat) -> (r: Option<Sky>)
    requires
        theta_sun.wf(),
        turbidity.wf(),
    ensures
        r == sky_spec(theta_sun, turbidity),
        r is Some ==> r->Some_0.wf() && r->Some_0.theta_sun == theta_sun,
{
    let cy0 = match coef5(1787, -3554, -227, 1206, -670) {
        Some(v) => v,
        None => {
            return None;
        },
    };
    let cy1 = match coef5(-14630, 4275, 53251, -25771, 3703) {
        Some(v) => v,
        None => {
            return None;
        },
    };
    let cx0 = match coef5(-193, -665, -4, -641, -33) {
        Some(v) => v,
        None => {
            return None;
        },
    };
    let cx1 = match coef5(-2592, 8, 2125, -8989, 452) {
        Some(v) => v,
        None => {
            return None;
        },
    };
    let cyy0 = match coef5(-167, -950, -79, -441, -109) {
        Some(v) => v,
        None => {
            return None;
        },
    };
    let cyy1 = match coef5(-2608, 92, 2102, -16537, 529) {
        Some(v) => v,
        None => {
            return None;
        },
    };
    let p_y = match perez(cy0, cy1, turbidity) {
        Some(v) => v,
        None => {
            return None;
        },
    };
    let px = match perez(cx0, cx1, turbidity) {
        Some(v) => v,
        None => {
            return None;
        },
    };
    let py = match perez(cyy0, cyy1, turbidity) {
        Some(v) => v,
        None => {
            return None;
        },
    };
    let mx_arr: [i64; 12] = [17, -290, 1169, -37, 638, -2120, 21, -320, 605, 0, 39, 2589];
    proof {
        assert(mx_arr@.map_values(|x: i64| x as int) =~= mx_entries());
    }
    let mx = match coef12(mx_arr) {
        Some(v) => v,
        None => {
            return None;
        },
    };
    let my_arr: [i64; 12] = [28, -421, 1535, -61, 897, -2676, 32, -415, 667, 0, 52, 2669];
    proof {
        assert(my_arr@.map_values(|x: i64| x as int) =~= my_entries());
    }
    let my = match coef12(my_arr) {
        Some(v) => v,
        None => {
            return None;
        },
    };
    let yz = match y_z(theta_sun, turbidity) {
        Some(v) => v,
        None => {
            return None;
        },
    };
    let xz = match zenith_poly(&mx, theta_sun, turbidity) {
        Some(v) => v,
        None => {
            return None;
        },
    };
    let yz2 = match zenith_poly(&my, theta_sun, turbidity) {
        Some(v) => v,
        None => {
            return None;
        },
    };
    Some(
        Sky {
            a: Vec3 { x: p_y.x, y: px.x, z: py.x },
            b: Vec3 { x: p_y.y, y: px.y, z: py.y },
            c: Vec3 { x: p_y.z, y: px.z, z: py.z },
            d: Vec3 { x: p_y.w, y: px.w, z: py.w },
            e: Vec3 { x: p_y.v, y: px.v, z: py.v },
            zenith: Vec3 { x: yz, y: xz, z: yz2 },
            theta_sun,
        },
    )
}

} // verus!
