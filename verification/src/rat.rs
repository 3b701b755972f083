//! Exact rational scalars.
//!
//! Every scalar the renderer computes with (key times, transform components,
//! matrix entries, light parameters) is a rational number `num / den` held in
//! canonical form: the denominator is positive, numerator and denominator are
//! coprime, and both lie strictly below `BOUND`, so that any product of two of
//! them fits an `i128` without overflow. Operations normalise their result and
//! report `None` when the canonical form would leave the representable range,
//! so equal values always have equal representations and arithmetic is exact.

use vstd::arithmetic::div_mod::{
    lemma_fundamental_div_mod, lemma_fundamental_div_mod_converse,
};
use vstd::arithmetic::mul::{
    lemma_mul_inequality, lemma_mul_is_commutative, lemma_mul_is_distributive_add,
    lemma_mul_is_distributive_sub, lemma_mul_nonnegative,
};
use vstd::prelude::*;

verus! {

/// All canonical numerators and denominators lie strictly below this, so any
/// product of two of them stays well inside `i128`.
pub const BOUND: i128 = 0x4000_0000_0000_0000;

/// Absolute value.
pub open spec fn iabs(x: int) -> int {
    if x < 0 {
        -x
    } else {
        x
    }
}

/// Greatest common divisor of two non-negative integers, by Euclid's rule.
pub open spec fn gcd(a: nat, b: nat) -> nat
    decreases b,
{
    if b == 0 {
        a
    } else {
        gcd(b, a % b)
    }
}

/// `d` divides `x`.
pub open spec fn divides(d: int, x: int) -> bool {
    exists|k: int| x == #[trigger] (d * k)
}

proof fn lemma_divides_mod(d: int, x: int)
    requires
        d > 0,
    ensures
        divides(d, x) <==> x % d == 0,
{
    if x % d == 0 {
        lemma_fundamental_div_mod(x, d);
        assert(x == d * (x / d));
    }
    if divides(d, x) {
        let k = choose|k: int| x == #[trigger] (d * k);
        assert(x == k * d + 0) by (nonlinear_arith)
            requires
                x == d * k,
        ;
        lemma_fundamental_div_mod_converse(x, d, k, 0);
    }
}

/// A positive right argument keeps the gcd positive.
proof fn lemma_gcd_pos(a: nat, b: nat)
    requires
        a > 0 || b > 0,
    ensures
        gcd(a, b) > 0,
    decreases b,
{
    if b == 0 {
    } else {
        lemma_gcd_pos(b, a % b);
    }
}

/// The gcd divides both of its arguments.
proof fn lemma_gcd_divides(a: nat, b: nat)
    ensures
        divides(gcd(a, b) as int, a as int),
        divides(gcd(a, b) as int, b as int),
    decreases b,
{
    if b == 0 {
        assert(a as int == (a as int) * 1);
        assert(0int == (a as int) * 0);
    } else {
        lemma_gcd_divides(b, a % b);
        let g = gcd(a, b) as int;
        let k1 = choose|k: int| b as int == #[trigger] (g * k);
        let k2 = choose|k: int| (a % b) as int == #[trigger] (g * k);
        lemma_fundamental_div_mod(a as int, b as int);
        let q = a as int / b as int;
        assert(a as int == g * (k1 * q + k2)) by {
            lemma_mul_is_distributive_add(g, k1 * q, k2);
            assert(g * (k1 * q) == (g * k1) * q) by {
                vstd::arithmetic::mul::lemma_mul_is_associative(g, k1, q);
            }
            assert((b as int) * q == q * (b as int)) by {
                lemma_mul_is_commutative(b as int, q);
            }
        }
    }
}

/// Bezout coefficients witnessing the gcd as an integer combination.
proof fn lemma_bezout(a: nat, b: nat) -> (r: (int, int))
    ensures
        r.0 * a + r.1 * b == gcd(a, b),
    decreases b,
{
    if b == 0 {
        assert(1int * a + 0int * b == a as int);
        (1int, 0int)
    } else {
        let (x, y) = lemma_bezout(b, a % b);
        lemma_fundamental_div_mod(a as int, b as int);
        let q = a as int / b as int;
        let m = (a % b) as int;
        // m == a - q * b, and x * b + y * m == gcd(a, b)
        let rx = y;
        let ry = x - y * q;
        assert(rx * a + ry * b == x * b + y * m) by {
            assert(y * (a as int) == y * ((b as int) * q + m));
            lemma_mul_is_distributive_add(y, (b as int) * q, m);
            assert(y * ((b as int) * q) == (y * q) * (b as int)) by {
                vstd::arithmetic::mul::lemma_mul_is_associative(y, b as int, q);
                lemma_mul_is_commutative(y * (b as int), q);
                vstd::arithmetic::mul::lemma_mul_is_associative(y, q, b as int);
                lemma_mul_is_commutative(b as int, q);
            }
            lemma_mul_is_distributive_sub((b as int), x, y * q);
            lemma_mul_is_commutative(b as int, x);
            lemma_mul_is_commutative(b as int, x - y * q);
        }
        (rx, ry)
    }
}

/// Every common divisor divides the gcd.
proof fn lemma_gcd_greatest(a: nat, b: nat, c: int)
    requires
        c > 0,
        divides(c, a as int),
        divides(c, b as int),
    ensures
        divides(c, gcd(a, b) as int),
{
    let (x, y) = lemma_bezout(a, b);
    let ka = choose|k: int| a as int == #[trigger] (c * k);
    let kb = choose|k: int| b as int == #[trigger] (c * k);
    assert(gcd(a, b) as int == c * (x * ka + y * kb)) by {
        assert(x * (a as int) == x * (c * ka));
        assert(y * (b as int) == y * (c * kb));
        assert(x * (c * ka) == c * (x * ka)) by {
            vstd::arithmetic::mul::lemma_mul_is_associative(x, c, ka);
            lemma_mul_is_commutative(x, c);
            vstd::arithmetic::mul::lemma_mul_is_associative(c, x, ka);
        }
        assert(y * (c * kb) == c * (y * kb)) by {
            vstd::arithmetic::mul::lemma_mul_is_associative(y, c, kb);
            lemma_mul_is_commutative(y, c);
            vstd::arithmetic::mul::lemma_mul_is_associative(c, y, kb);
        }
        lemma_mul_is_distributive_add(c, x * ka, y * kb);
    }
}

/// Dividing out the gcd leaves a coprime pair.
proof fn lemma_reduce_coprime(a: nat, b: nat)
    requires
        b > 0,
    ensures
        gcd(a, b) > 0,
        a as int % (gcd(a, b) as int) == 0,
        b as int % (gcd(a, b) as int) == 0,
        gcd((a as int / gcd(a, b) as int) as nat, (b as int / gcd(a, b) as int) as nat) == 1,
{
    lemma_gcd_pos(a, b);
    lemma_gcd_divides(a, b);
    let g = gcd(a, b) as int;
    lemma_divides_mod(g, a as int);
    lemma_divides_mod(g, b as int);
    lemma_fundamental_div_mod(a as int, g);
    lemma_fundamental_div_mod(b as int, g);
    let a2 = a as int / g;
    let b2 = b as int / g;
    assert(a as int == g * a2 && b as int == g * b2);
    assert(a2 >= 0 && b2 > 0) by {
        if a2 < 0 {
            lemma_mul_inequality(a2, -1, g);
        }
        if b2 <= 0 {
            lemma_mul_inequality(b2, 0, g);
        }
    }
    let g2 = gcd(a2 as nat, b2 as nat) as int;
    lemma_gcd_pos(a2 as nat, b2 as nat);
    lemma_gcd_divides(a2 as nat, b2 as nat);
    let ka = choose|k: int| a2 == #[trigger] (g2 * k);
    let kb = choose|k: int| b2 == #[trigger] (g2 * k);
    assert(a as int == (g * g2) * ka) by {
        assert(g * (g2 * ka) == (g * g2) * ka) by {
            vstd::arithmetic::mul::lemma_mul_is_associative(g, g2, ka);
        }
    }
    assert(b as int == (g * g2) * kb) by {
        assert(g * (g2 * kb) == (g * g2) * kb) by {
            vstd::arithmetic::mul::lemma_mul_is_associative(g, g2, kb);
        }
    }
    assert(g * g2 > 0) by {
        vstd::arithmetic::mul::lemma_mul_strictly_positive(g, g2);
    }
    lemma_gcd_greatest(a, b, g * g2);
    let kg = choose|k: int| g == #[trigger] ((g * g2) * k);
    // g == g * (g2 * kg), and g > 0, so g2 * kg == 1, so g2 == 1.
    assert(g * 1 == g * (g2 * kg)) by {
        vstd::arithmetic::mul::lemma_mul_is_associative(g, g2, kg);
    }
    assert(1 == g2 * kg) by {
        vstd::arithmetic::mul::lemma_mul_equality_converse(g, 1, g2 * kg);
    }
    assert(g2 == 1) by (nonlinear_arith)
        requires
            g2 * kg == 1,
            g2 > 0,
    ;
}

/// Gauss's lemma: if `b` is coprime to `a` and divides `a * c`, it divides `c`.
proof fn lemma_gauss(a: nat, b: nat, c: int)
    requires
        b > 0,
        gcd(a, b) == 1,
        divides(b as int, a as int * c),
    ensures
        divides(b as int, c),
{
    let (x, y) = lemma_bezout(a, b);
    let k = choose|k: int| a as int * c == #[trigger] (b as int * k);
    // c == (x * a + y * b) * c == x * (a * c) + (y * c) * b == b * (x * k + y * c)
    assert(c == (b as int) * (x * k + y * c)) by (nonlinear_arith)
        requires
            x * (a as int) + y * (b as int) == 1,
            a as int * c == b as int * k,
    ;
}

/// A value in lowest terms has exactly one representation: two coprime
/// fractions with positive denominators and equal cross products are equal.
proof fn lemma_reduced_unique(n1: int, d1: int, n2: int, d2: int)
    requires
        d1 > 0,
        d2 > 0,
        gcd(iabs(n1) as nat, d1 as nat) == 1,
        gcd(iabs(n2) as nat, d2 as nat) == 1,
        n1 * d2 == n2 * d1,
    ensures
        n1 == n2,
        d1 == d2,
{
    // d1 divides |n1| * d2, and is coprime to |n1|, so d1 divides d2.
    let w1: int = if n1 >= 0 { n2 } else { -n2 };
    assert(iabs(n1) * d2 == #[trigger] (d1 * w1)) by (nonlinear_arith)
        requires
            n1 * d2 == n2 * d1,
            w1 == (if n1 >= 0 { n2 } else { -n2 }),
            iabs(n1) == (if n1 >= 0 { n1 } else { -n1 }),
    ;
    assert(divides(d1, iabs(n1) * d2));
    lemma_gauss(iabs(n1) as nat, d1 as nat, d2);
    let w2: int = if n2 >= 0 { n1 } else { -n1 };
    assert(iabs(n2) * d1 == #[trigger] (d2 * w2)) by (nonlinear_arith)
        requires
            n1 * d2 == n2 * d1,
            w2 == (if n2 >= 0 { n1 } else { -n1 }),
            iabs(n2) == (if n2 >= 0 { n2 } else { -n2 }),
    ;
    assert(divides(d2, iabs(n2) * d1));
    lemma_gauss(iabs(n2) as nat, d2 as nat, d1);
    let k1 = choose|k: int| d2 == #[trigger] (d1 * k);
    let k2 = choose|k: int| d1 == #[trigger] (d2 * k);
    assert(d1 == d2) by (nonlinear_arith)
        requires
            d1 > 0,
            d2 > 0,
            d2 == d1 * k1,
            d1 == d2 * k2,
    ;
    assert(n1 == n2) by (nonlinear_arith)
        requires
            n1 * d2 == n2 * d1,
            d1 == d2,
            d1 > 0,
    ;
}

/// An exact rational scalar in canonical form.
#[derive(Clone, Copy, PartialEq, Eq, Structural, Debug)]
pub struct Rat {
    pub num: i128,
    pub den: i128,
}

impl Rat {
    /// Canonical form: positive bounded denominator, bounded numerator,
    /// numerator and denominator coprime.
    pub open spec fn wf(self) -> bool {
        &&& -BOUND < self.num < BOUND
        &&& 0 < self.den < BOUND
        &&& gcd(iabs(self.num as int) as nat, self.den as nat) == 1
    }

    /// The rational value, as the cross-product order embedding: `a` and `b`
    /// denote the same value exactly when `a.num * b.den == b.num * a.den`.
    pub open spec fn eq_val(self, o: Rat) -> bool {
        self.num * o.den == o.num * self.den
    }

    /// Value order.
    pub open spec fn le_val(self, o: Rat) -> bool {
        self.num * o.den <= o.num * self.den
    }

    /// Strict value order.
    pub open spec fn lt_val(self, o: Rat) -> bool {
        self.num * o.den < o.num * self.den
    }
}

/// The canonical representation of the fraction `n / d`: sign moved to the
/// numerator, gcd divided out; `None` when `d` is zero or the reduced parts
/// do not fit below `BOUND`.
pub open spec fn norm(n: int, d: int) -> Option<Rat> {
    if d == 0 {
        None
    } else {
        let n1 = if d < 0 { -n } else { n };
        let d1 = if d < 0 { -d } else { d };
        let g = gcd(iabs(n1) as nat, d1 as nat) as int;
        let rn = n1 / g;
        let rd = d1 / g;
        if -BOUND < rn < BOUND && rd < BOUND {
            Some(Rat { num: rn as i128, den: rd as i128 })
        } else {
            None
        }
    }
}

/// What `norm` returns is canonical and denotes `n / d`.
pub proof fn lemma_norm_sound(n: int, d: int)
    requires
        d != 0,
        norm(n, d) is Some,
    ensures
        norm(n, d)->Some_0.wf(),
        norm(n, d)->Some_0.num * d == n * norm(n, d)->Some_0.den,
{
    let n1 = if d < 0 { -n } else { n };
    let d1 = if d < 0 { -d } else { d };
    let g = gcd(iabs(n1) as nat, d1 as nat) as int;
    lemma_reduce_coprime(iabs(n1) as nat, d1 as nat);
    let rn = n1 / g;
    let rd = d1 / g;
    lemma_fundamental_div_mod(n1, g);
    lemma_fundamental_div_mod(d1, g);
    lemma_fundamental_div_mod(iabs(n1), g);
    assert(n1 == g * rn && d1 == g * rd) by {
        if n1 >= 0 {
        } else {
            // |n1| == g * (|n1| / g), so n1 == g * (-(|n1| / g)) == g * rn.
            let q = iabs(n1) / g;
            assert(iabs(n1) == g * q);
            assert(n1 == g * (-q)) by (nonlinear_arith)
                requires
                    iabs(n1) == g * q,
                    n1 == -iabs(n1),
            ;
            assert(rn == -q) by {
                assert(n1 == (-q) * g + 0) by (nonlinear_arith)
                    requires
                        iabs(n1) == g * q,
                        n1 == -iabs(n1),
                ;
                vstd::arithmetic::div_mod::lemma_fundamental_div_mod_converse(n1, g, -q, 0);
            }
        }
    }
    assert(rd > 0) by (nonlinear_arith)
        requires
            d1 == g * rd,
            g > 0,
            d1 > 0,
    ;
    assert(iabs(rn) == iabs(n1) / g) by {
        let qa = iabs(n1) / g;
        assert(iabs(n1) == g * qa);
        if n1 >= 0 {
            assert(rn == qa) by {
                assert(n1 == qa * g + 0) by (nonlinear_arith)
                    requires
                        iabs(n1) == g * qa,
                        n1 == iabs(n1),
                ;
                vstd::arithmetic::div_mod::lemma_fundamental_div_mod_converse(n1, g, qa, 0);
            }
        } else {
            assert(rn == -qa) by {
                assert(n1 == (-qa) * g + 0) by (nonlinear_arith)
                    requires
                        iabs(n1) == g * qa,
                        n1 == -iabs(n1),
                ;
                vstd::arithmetic::div_mod::lemma_fundamental_div_mod_converse(n1, g, -qa, 0);
            }
        }
    }
    // The value is preserved: rn * d == n * rd.
    assert(rn * d1 == n1 * rd) by (nonlinear_arith)
        requires
            n1 == g * rn,
            d1 == g * rd,
    ;
    if d < 0 {
        assert(rn * d == n * rd) by (nonlinear_arith)
            requires
                rn * (-d) == (-n) * rd,
        ;
    }
}

/// Whatever normalisation produces is canonical.
pub proof fn lemma_norm_wf(n: int, d: int)
    requires
        norm(n, d) is Some,
    ensures
        norm(n, d)->Some_0.wf(),
{
    if d != 0 {
        lemma_norm_sound(n, d);
    }
}

/// Normalisation does not depend on the representation: fractions with equal
/// cross products normalise identically (same canonical form, same overflow
/// verdict).
pub proof fn lemma_norm_respects_value(n1: int, d1: int, n2: int, d2: int)
    requires
        d1 != 0,
        d2 != 0,
        n1 * d2 == n2 * d1,
    ensures
        norm(n1, d1) == norm(n2, d2),
{
    let p1 = if d1 < 0 { (-n1, -d1) } else { (n1, d1) };
    let p2 = if d2 < 0 { (-n2, -d2) } else { (n2, d2) };
    assert(p1.0 * p2.1 == p2.0 * p1.1) by (nonlinear_arith)
        requires
            n1 * d2 == n2 * d1,
            p1 == (if d1 < 0 { (-n1, -d1) } else { (n1, d1) }),
            p2 == (if d2 < 0 { (-n2, -d2) } else { (n2, d2) }),
    ;
    let ga = gcd(iabs(p1.0) as nat, p1.1 as nat) as int;
    let gb = gcd(iabs(p2.0) as nat, p2.1 as nat) as int;
    lemma_reduce_coprime(iabs(p1.0) as nat, p1.1 as nat);
    lemma_reduce_coprime(iabs(p2.0) as nat, p2.1 as nat);
    let ra = reduce_parts(p1.0, p1.1);
    let rb = reduce_parts(p2.0, p2.1);
    lemma_reduce_parts(p1.0, p1.1);
    lemma_reduce_parts(p2.0, p2.1);
    // Both reduced pairs denote the same value, are coprime with positive
    // denominators, hence are identical; so the bound checks agree too.
    assert(ra.0 * rb.1 == rb.0 * ra.1) by (nonlinear_arith)
        requires
            ra.0 * p1.1 == p1.0 * ra.1,
            rb.0 * p2.1 == p2.0 * rb.1,
            p1.0 * p2.1 == p2.0 * p1.1,
            p1.1 > 0,
            p2.1 > 0,
            ra.1 > 0,
            rb.1 > 0,
    ;
    lemma_reduced_unique(ra.0, ra.1, rb.0, rb.1);
}

/// The reduced pair of a fraction with positive denominator.
pub open spec fn reduce_parts(n: int, d: int) -> (int, int) {
    let g = gcd(iabs(n) as nat, d as nat) as int;
    (n / g, d / g)
}

/// The reduced pair is coprime, has a positive denominator, denotes the same
/// value, and its numerator magnitude is the reduced magnitude.
proof fn lemma_reduce_parts(n: int, d: int)
    requires
        d > 0,
    ensures
        reduce_parts(n, d).1 > 0,
        gcd(iabs(reduce_parts(n, d).0) as nat, reduce_parts(n, d).1 as nat) == 1,
        reduce_parts(n, d).0 * d == n * reduce_parts(n, d).1,
    decreases 0int,
{
    let g = gcd(iabs(n) as nat, d as nat) as int;
    lemma_reduce_coprime(iabs(n) as nat, d as nat);
    lemma_fundamental_div_mod(iabs(n), g);
    lemma_fundamental_div_mod(d, g);
    let rn = n / g;
    let rd = d / g;
    let qa = iabs(n) / g;
    assert(iabs(n) == g * qa && d == g * rd);
    assert(rd > 0) by {
        if rd <= 0 {
            lemma_mul_inequality(rd, 0, g);
        }
    }
    if n >= 0 {
        assert(rn == qa) by {
            assert(n == qa * g + 0) by (nonlinear_arith)
                requires
                    iabs(n) == g * qa,
                    n == iabs(n),
            ;
            vstd::arithmetic::div_mod::lemma_fundamental_div_mod_converse(n, g, qa, 0);
        }
    } else {
        assert(rn == -qa) by {
            assert(n == (-qa) * g + 0) by (nonlinear_arith)
                requires
                    iabs(n) == g * qa,
                    n == -iabs(n),
            ;
            vstd::arithmetic::div_mod::lemma_fundamental_div_mod_converse(n, g, -qa, 0);
        }
    }
    assert(iabs(rn) == qa);
    assert(n == g * rn) by (nonlinear_arith)
        requires
            iabs(n) == g * qa,
            iabs(rn) == qa,
            n >= 0 ==> rn == qa,
            n < 0 ==> rn == -qa && n == -iabs(n),
    ;
    assert(rn * d == n * rd) by (nonlinear_arith)
        requires
            n == g * rn,
            d == g * rd,
    ;
}

/// The canonical zero.
pub open spec fn rat_zero() -> Rat {
    Rat { num: 0, den: 1 }
}

/// The canonical one.
pub open spec fn rat_one() -> Rat {
    Rat { num: 1, den: 1 }
}

/// The canonical two.
pub open spec fn rat_two() -> Rat {
    Rat { num: 2, den: 1 }
}

/// Negation, always exact.
pub open spec fn rat_neg(a: Rat) -> Rat {
    Rat { num: (-(a.num as int)) as i128, den: a.den }
}

/// Everything is coprime to one.
pub proof fn lemma_gcd_one(a: nat)
    ensures
        gcd(a, 1) == 1,
{
    assert(a % 1 == 0nat);
    assert(gcd(a, 1) == gcd(1, 0));
    assert(gcd(1, 0) == 1nat);
}

/// The gcd with zero on the left is the right argument.
pub proof fn lemma_gcd_zero(k: nat)
    requires
        k > 0,
    ensures
        gcd(0, k) == k,
{
    assert(0nat % k == 0nat);
    assert(gcd(0, k) == gcd(k, 0));
}

/// The small constants are canonical.
pub proof fn lemma_consts_wf()
    ensures
        rat_zero().wf(),
        rat_one().wf(),
        rat_two().wf(),
{
    lemma_gcd_one(0);
    lemma_gcd_one(1);
    lemma_gcd_one(2);
}

/// Normalising any pair that denotes zero gives the canonical zero.
pub proof fn lemma_norm_zero(d: int)
    requires
        d != 0,
    ensures
        norm(0, d) == Some(rat_zero()),
{
    let d1 = if d < 0 { -d } else { d };
    assert(iabs(0) == 0);
    lemma_gcd_zero(d1 as nat);
    assert(0int / (d1 as int) == 0) by {
        vstd::arithmetic::div_mod::lemma_div_of0(d1);
    }
    assert(d1 / d1 == 1) by {
        vstd::arithmetic::div_mod::lemma_div_by_self(d1);
    }
}

/// Multiplying a canonical rational by one gives it back unchanged.
pub proof fn lemma_mul_one(a: Rat)
    requires
        a.wf(),
    ensures
        rat_mul(a, rat_one()) == Some(a),
        rat_mul(rat_one(), a) == Some(a),
    decreases 0int,
{
    assert(mul_parts(a, rat_one()).0 == a.num as int && mul_parts(a, rat_one()).1 == a.den as int
        && mul_parts(rat_one(), a).0 == a.num as int && mul_parts(rat_one(), a).1
        == a.den as int) by (nonlinear_arith)
        requires
            mul_parts(a, rat_one()) == (a.num as int * 1int, a.den as int * 1int),
            mul_parts(rat_one(), a) == (1int * a.num as int, 1int * a.den as int),
    ;
    lemma_norm_canonical_id(a);
}

/// Multiplying anything canonical by zero gives zero.
pub proof fn lemma_mul_zero(a: Rat)
    requires
        a.wf(),
    ensures
        rat_mul(a, rat_zero()) == Some(rat_zero()),
        rat_mul(rat_zero(), a) == Some(rat_zero()),
{
    assert(mul_parts(a, rat_zero()).0 == 0);
    assert(mul_parts(a, rat_zero()).1 == a.den as int);
    assert(mul_parts(rat_zero(), a).0 == 0);
    assert(mul_parts(rat_zero(), a).1 == a.den as int);
    lemma_norm_zero(a.den as int);
}

/// Adding zero to a canonical rational gives it back unchanged.
pub proof fn lemma_add_zero(a: Rat)
    requires
        a.wf(),
    ensures
        rat_add(rat_zero(), a) == Some(a),
        rat_add(a, rat_zero()) == Some(a),
{
    assert(add_parts(rat_zero(), a).0 == 0 * a.den + a.num * 1);
    assert(0 * a.den + a.num * 1 == a.num as int) by (nonlinear_arith);
    assert(add_parts(rat_zero(), a).1 == a.den as int);
    assert(add_parts(a, rat_zero()).0 == a.num * 1 + 0 * a.den);
    assert(a.num * 1 + 0 * a.den == a.num as int) by (nonlinear_arith);
    assert(add_parts(a, rat_zero()).1 == a.den as int);
    lemma_norm_canonical_id(a);
}

/// Dividing a nonzero canonical rational by itself gives one.
pub proof fn lemma_div_self(a: Rat)
    requires
        a.wf(),
        a.num != 0,
    ensures
        rat_div(a, a) == Some(rat_one()),
{
    let p = div_parts(a, a);
    assert(p.0 == a.num * a.den && p.1 == a.den * a.num);
    assert(a.den * a.num != 0 && p.0 * 1 == 1 * p.1) by (nonlinear_arith)
        requires
            p.0 == a.num * a.den,
            p.1 == a.den * a.num,
            a.num != 0,
            a.den > 0,
    ;
    lemma_norm_respects_value(p.0, p.1, 1, 1);
    lemma_gcd_one(1);
    lemma_norm_canonical_id(rat_one());
}

/// Subtracting a canonical rational from itself gives zero.
pub proof fn lemma_sub_self(a: Rat)
    requires
        a.wf(),
    ensures
        rat_sub(a, a) == Some(rat_zero()),
{
    let p = sub_parts(a, a);
    assert(p.0 == a.num * a.den - a.num * a.den);
    assert(p.1 == a.den * a.den);
    assert(a.den * a.den > 0) by (nonlinear_arith)
        requires
            a.den > 0,
    ;
    lemma_norm_zero(p.1);
}

/// Two canonical rationals with the same value are identical.
pub proof fn lemma_canonical_unique(a: Rat, b: Rat)
    requires
        a.wf(),
        b.wf(),
        a.eq_val(b),
    ensures
        a == b,
{
    lemma_reduced_unique(a.num as int, a.den as int, b.num as int, b.den as int);
}

/// Normalising a pair that is already canonical gives it back unchanged.
pub proof fn lemma_norm_canonical_id(r: Rat)
    requires
        r.wf(),
    ensures
        norm(r.num as int, r.den as int) == Some(r),
{
    let g = gcd(iabs(r.num as int) as nat, r.den as nat) as int;
    assert(g == 1);
    assert(r.num as int / 1int == r.num as int);
    assert(r.den as int / 1int == r.den as int);
}

/// Bounded factors keep products inside a bounded square.
pub proof fn lemma_mul_bound(x: int, y: int, b: int)
    by (nonlinear_arith)
    requires
        b >= 0,
        -b <= x <= b,
        -b <= y <= b,
    ensures
        -(b * b) <= x * y <= b * b,
{
}

/// Euclid's algorithm computes `gcd`.
pub fn gcd_i128(a: i128, b: i128) -> (g: i128)
    requires
        0 <= a,
        0 <= b,
    ensures
        g == gcd(a as nat, b as nat),
{
    let mut x: i128 = a;
    let mut y: i128 = b;
    while y != 0
        invariant
            0 <= x,
            0 <= y,
            gcd(x as nat, y as nat) == gcd(a as nat, b as nat),
        decreases y,
    {
        let r: i128 = x % y;
        x = y;
        y = r;
    }
    x
}

/// Normalise the fraction `n / d`, following `norm` exactly.
pub fn rat_norm(n: i128, d: i128) -> (r: Option<Rat>)
    requires
        i128::MIN < n,
        i128::MIN < d,
    ensures
        r == norm(n as int, d as int),
        r is Some ==> r->Some_0.wf(),
{
    if d == 0 {
        return None;
    }
    let n1: i128 = if d < 0 { -n } else { n };
    let d1: i128 = if d < 0 { -d } else { d };
    let an: i128 = if n1 < 0 { -n1 } else { n1 };
    let g: i128 = gcd_i128(an, d1);
    proof {
        lemma_reduce_coprime(an as nat, d1 as nat);
        lemma_divides_mod(g as int, an as int);
        lemma_divides_mod(g as int, d1 as int);
    }
    let rm: i128 = an / g;
    let rd: i128 = d1 / g;
    let rn: i128 = if n1 < 0 { -rm } else { rm };
    proof {
        let gs = g as int;
        assert(rm as int == iabs(n1 as int) / gs);
        assert(rd as int == d1 as int / gs);
        if n1 < 0 {
            lemma_fundamental_div_mod(iabs(n1 as int), gs);
            assert(n1 as int == (-(rm as int)) * gs + 0) by (nonlinear_arith)
                requires
                    iabs(n1 as int) == gs * (iabs(n1 as int) / gs),
                    rm as int == iabs(n1 as int) / gs,
                    n1 < 0,
            ;
            lemma_fundamental_div_mod_converse(n1 as int, gs, -(rm as int), 0);
        }
        assert(rn as int == n1 as int / gs);
        if rm < BOUND && rd < BOUND {
            assert(norm(n as int, d as int) == Some(Rat { num: rn, den: rd }));
            lemma_norm_sound(n as int, d as int);
        } else {
            assert(norm(n as int, d as int) is None);
        }
    }
    if rm < BOUND && rd < BOUND {
        Some(Rat { num: rn, den: rd })
    } else {
        None
    }
}

/// The parts whose normalisation is the sum `a + b`.
pub open spec fn add_parts(a: Rat, b: Rat) -> (int, int) {
    (a.num * b.den + b.num * a.den, a.den * b.den)
}

/// The parts whose normalisation is the difference `a - b`.
pub open spec fn sub_parts(a: Rat, b: Rat) -> (int, int) {
    (a.num * b.den - b.num * a.den, a.den * b.den)
}

/// The parts whose normalisation is the product `a * b`.
pub open spec fn mul_parts(a: Rat, b: Rat) -> (int, int) {
    (a.num * b.num, a.den * b.den)
}

/// The parts whose normalisation is the quotient `a / b` (denominator zero,
/// hence `None`, exactly when `b` is zero).
pub open spec fn div_parts(a: Rat, b: Rat) -> (int, int) {
    (a.num * b.den, a.den * b.num)
}

/// The sum of two canonical rationals, exactly.
pub open spec fn rat_add(a: Rat, b: Rat) -> Option<Rat> {
    norm(add_parts(a, b).0, add_parts(a, b).1)
}

/// The difference of two canonical rationals, exactly.
pub open spec fn rat_sub(a: Rat, b: Rat) -> Option<Rat> {
    norm(sub_parts(a, b).0, sub_parts(a, b).1)
}

/// The product of two canonical rationals, exactly.
pub open spec fn rat_mul(a: Rat, b: Rat) -> Option<Rat> {
    norm(mul_parts(a, b).0, mul_parts(a, b).1)
}

/// The quotient of two canonical rationals, exactly.
pub open spec fn rat_div(a: Rat, b: Rat) -> Option<Rat> {
    norm(div_parts(a, b).0, div_parts(a, b).1)
}

/// Division rounded toward zero.
pub open spec fn trunc_div(p: int, q: int) -> int {
    if (p < 0) != (q < 0) {
        -(iabs(p) / iabs(q))
    } else {
        iabs(p) / iabs(q)
    }
}

/// The remainder of truncating division: the sign follows the dividend, as
/// with the `%` of the machine scalars this models. Equals `p - t * q` where
/// `t` is the quotient `p / q` rounded toward zero.
pub open spec fn trunc_rem(p: int, q: int) -> int {
    if p < 0 {
        -(iabs(p) % iabs(q))
    } else {
        iabs(p) % iabs(q)
    }
}

/// `a` reduced modulo `m` by truncating division; `None` when `m` is zero.
pub open spec fn rat_rem(a: Rat, m: Rat) -> Option<Rat> {
    if m.num == 0 {
        None
    } else {
        norm(trunc_rem(a.num * m.den, a.den * m.num), a.den * m.den)
    }
}

impl Rat {
    /// The integer `n` as a rational.
    pub fn from_int(n: i64) -> (r: Rat)
        requires
            -(BOUND as int) < (n as int),
            (n as int) < (BOUND as int),
        ensures
            r == (Rat { num: n as i128, den: 1 }),
            r.wf(),
    {
        proof {
            lemma_gcd_one(iabs(n as int) as nat);
        }
        Rat { num: n as i128, den: 1 }
    }

    /// Zero.
    pub fn zero() -> (r: Rat)
        ensures
            r == (Rat { num: 0, den: 1 }),
            r.wf(),
    {
        Rat::from_int(0)
    }

    /// One.
    pub fn one() -> (r: Rat)
        ensures
            r == (Rat { num: 1, den: 1 }),
            r.wf(),
    {
        Rat::from_int(1)
    }

    /// The canonical form of `n / d`; `None` when `d` is zero or the value
    /// does not fit.
    pub fn new(n: i64, d: i64) -> (r: Option<Rat>)
        ensures
            r == norm(n as int, d as int),
            r is Some ==> r->Some_0.wf(),
    {
        rat_norm(n as i128, d as i128)
    }

    /// Exact sum; `None` when the canonical result leaves the range.
    pub fn add(self, o: Rat) -> (r: Option<Rat>)
        requires
            self.wf(),
            o.wf(),
        ensures
            r == rat_add(self, o),
            r is Some ==> r->Some_0.wf(),
    {
        proof {
            lemma_mul_bound(self.num as int, o.den as int, BOUND as int);
            lemma_mul_bound(o.num as int, self.den as int, BOUND as int);
            lemma_mul_bound(self.den as int, o.den as int, BOUND as int);
        }
        let p: i128 = self.num * o.den + o.num * self.den;
        let q: i128 = self.den * o.den;
        rat_norm(p, q)
    }

    /// Exact difference; `None` when the canonical result leaves the range.
    pub fn sub(self, o: Rat) -> (r: Option<Rat>)
        requires
            self.wf(),
            o.wf(),
        ensures
            r == rat_sub(self, o),
            r is Some ==> r->Some_0.wf(),
    {
        proof {
            lemma_mul_bound(self.num as int, o.den as int, BOUND as int);
            lemma_mul_bound(o.num as int, self.den as int, BOUND as int);
            lemma_mul_bound(self.den as int, o.den as int, BOUND as int);
        }
        let p: i128 = self.num * o.den - o.num * self.den;
        let q: i128 = self.den * o.den;
        rat_norm(p, q)
    }

    /// Exact product; `None` when the canonical result leaves the range.
    pub fn mul(self, o: Rat) -> (r: Option<Rat>)
        requires
            self.wf(),
            o.wf(),
        ensures
            r == rat_mul(self, o),
            r is Some ==> r->Some_0.wf(),
    {
        proof {
            lemma_mul_bound(self.num as int, o.num as int, BOUND as int);
            lemma_mul_bound(self.den as int, o.den as int, BOUND as int);
        }
        let p: i128 = self.num * o.num;
        let q: i128 = self.den * o.den;
        rat_norm(p, q)
    }

    /// Exact quotient; `None` when `o` is zero or the canonical result
    /// leaves the range.
    pub fn div(self, o: Rat) -> (r: Option<Rat>)
        requires
            self.wf(),
            o.wf(),
        ensures
            r == rat_div(self, o),
            r is Some ==> r->Some_0.wf(),
    {
        proof {
            lemma_mul_bound(self.num as int, o.den as int, BOUND as int);
            lemma_mul_bound(self.den as int, o.num as int, BOUND as int);
        }
        let p: i128 = self.num * o.den;
        let q: i128 = self.den * o.num;
        rat_norm(p, q)
    }

    /// Exact negation; always representable.
    pub fn neg(self) -> (r: Rat)
        requires
            self.wf(),
        ensures
            r.num == -self.num,
            r.den == self.den,
            r.wf(),
    {
        proof {
            assert(iabs(-self.num as int) == iabs(self.num as int));
        }
        Rat { num: -self.num, den: self.den }
    }

    /// Remainder by truncating division, matching the `%` of machine
    /// scalars: the result follows the sign of `self`. `None` when `o` is
    /// zero or the canonical result leaves the range.
    pub fn rem(self, o: Rat) -> (r: Option<Rat>)
        requires
            self.wf(),
            o.wf(),
        ensures
            r == rat_rem(self, o),
            r is Some ==> r->Some_0.wf(),
    {
        if o.num == 0 {
            return None;
        }
        proof {
            lemma_mul_bound(self.num as int, o.den as int, BOUND as int);
            lemma_mul_bound(self.den as int, o.num as int, BOUND as int);
            lemma_mul_bound(self.den as int, o.den as int, BOUND as int);
        }
        let p: i128 = self.num * o.den;
        let q: i128 = self.den * o.num;
        proof {
            assert(q != 0) by (nonlinear_arith)
                requires
                    self.den > 0,
                    o.num != 0,
                    q == self.den as int * o.num as int,
            ;
        }
        let ap: i128 = if p < 0 { -p } else { p };
        let aq: i128 = if q < 0 { -q } else { q };
        let rm: i128 = ap % aq;
        let rem: i128 = if p < 0 { -rm } else { rm };
        rat_norm(rem, self.den * o.den)
    }

    /// Value comparison: `self <= o`.
    pub fn le(self, o: Rat) -> (r: bool)
        requires
            self.wf(),
            o.wf(),
        ensures
            r == self.le_val(o),
    {
        proof {
            lemma_mul_bound(self.num as int, o.den as int, BOUND as int);
            lemma_mul_bound(o.num as int, self.den as int, BOUND as int);
        }
        self.num * o.den <= o.num * self.den
    }

    /// Value comparison: `self < o`.
    pub fn lt(self, o: Rat) -> (r: bool)
        requires
            self.wf(),
            o.wf(),
        ensures
            r == self.lt_val(o),
    {
        proof {
            lemma_mul_bound(self.num as int, o.den as int, BOUND as int);
            lemma_mul_bound(o.num as int, self.den as int, BOUND as int);
        }
        self.num * o.den < o.num * self.den
    }

    /// Whether this representation is canonical; constructors take raw parts
    /// and check them with this rather than trusting the caller.
    pub fn check_wf(self) -> (r: bool)
        ensures
            r == self.wf(),
    {
        if self.den <= 0 || self.den >= BOUND || self.num <= -BOUND || self.num >= BOUND {
            return false;
        }
        let an: i128 = if self.num < 0 { -self.num } else { self.num };
        gcd_i128(an, self.den) == 1
    }

    /// Whether the value is zero.
    pub fn is_zero(self) -> (r: bool)
        requires
            self.wf(),
        ensures
            r == (self.num == 0),
    {
        self.num == 0
    }
}

/// Multiplication of canonical rationals is commutative, representation and
/// all.
pub proof fn lemma_mul_comm(a: Rat, b: Rat)
    requires
        a.wf(),
        b.wf(),
    ensures
        rat_mul(a, b) == rat_mul(b, a),
{
    let p = mul_parts(a, b);
    let q = mul_parts(b, a);
    assert(p.1 != 0 && q.1 != 0 && p.0 * q.1 == q.0 * p.1) by (nonlinear_arith)
        requires
            p == (a.num as int * b.num as int, a.den as int * b.den as int),
            q == (b.num as int * a.num as int, b.den as int * a.den as int),
            a.den > 0,
            b.den > 0,
    ;
    lemma_norm_respects_value(p.0, p.1, q.0, q.1);
}

/// Addition of canonical rationals is commutative, representation and all.
pub proof fn lemma_add_comm(a: Rat, b: Rat)
    requires
        a.wf(),
        b.wf(),
    ensures
        rat_add(a, b) == rat_add(b, a),
{
    let p = add_parts(a, b);
    let q = add_parts(b, a);
    assert(p.1 != 0 && q.1 != 0 && p.0 * q.1 == q.0 * p.1) by (nonlinear_arith)
        requires
            p == (a.num as int * b.den as int + b.num as int * a.den as int,
                a.den as int * b.den as int),
            q == (b.num as int * a.den as int + a.num as int * b.den as int,
                b.den as int * a.den as int),
            a.den > 0,
            b.den > 0,
    ;
    lemma_norm_respects_value(p.0, p.1, q.0, q.1);
}

} // verus!
