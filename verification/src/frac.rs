//! Exact rational arithmetic for estimator state.
//!
//! Every coordinate, duration and tuning parameter of the estimators is a
//! `Rational`: a fraction of two `i64` values with a positive denominator.
//! Arithmetic is carried out in `i128`, reduced by the greatest common
//! divisor, and reports an error instead of silently losing precision when a
//! reduced result no longer fits in `i64`.  Contracts pin each operation to
//! the canonical (reduced) form of the mathematically exact result.

use vstd::arithmetic::div_mod::{lemma_fundamental_div_mod, lemma_div_multiples_vanish};
use vstd::arithmetic::mul::{
    lemma_mul_increases, lemma_mul_is_commutative, lemma_mul_strictly_positive,
};
use vstd::math::abs;
use vstd::prelude::*;

verus! {

/// Largest magnitude a stored numerator or denominator may take.
pub const FRAC_LIMIT: i64 = i64::MAX;

/// Mathematical model of a fraction: an unreduced pair of integers.
pub struct Frac {
    pub n: int,
    pub d: int,
}

/// A fraction representable by `Rational`: bounded and with positive
/// denominator.
pub open spec fn frac_wf(f: Frac) -> bool {
    &&& 1 <= f.d <= FRAC_LIMIT
    &&& -FRAC_LIMIT <= f.n <= FRAC_LIMIT
}

/// Both fractions denote the same rational value (cross multiplication).
pub open spec fn frac_eq(a: Frac, b: Frac) -> bool {
    a.n * b.d == b.n * a.d
}

/// `a <= b` as rational values; meaningful when both denominators are
/// positive.
pub open spec fn frac_le(a: Frac, b: Frac) -> bool {
    a.n * b.d <= b.n * a.d
}

/// `a < b` as rational values; meaningful when both denominators are
/// positive.
pub open spec fn frac_lt(a: Frac, b: Frac) -> bool {
    a.n * b.d < b.n * a.d
}

/// Exact (unreduced) sum.
pub open spec fn frac_add(a: Frac, b: Frac) -> Frac {
    Frac { n: a.n * b.d + b.n * a.d, d: a.d * b.d }
}

/// Exact (unreduced) difference.
pub open spec fn frac_sub(a: Frac, b: Frac) -> Frac {
    Frac { n: a.n * b.d - b.n * a.d, d: a.d * b.d }
}

/// Exact (unreduced) product.
pub open spec fn frac_mul(a: Frac, b: Frac) -> Frac {
    Frac { n: a.n * b.n, d: a.d * b.d }
}

/// Exact quotient, with the sign moved into the numerator so that the
/// denominator stays positive.
pub open spec fn frac_div(a: Frac, b: Frac) -> Frac {
    if a.d * b.n < 0 {
        Frac { n: -(a.n * b.d), d: -(a.d * b.n) }
    } else {
        Frac { n: a.n * b.d, d: a.d * b.n }
    }
}

/// Exact negation.
pub open spec fn frac_neg(a: Frac) -> Frac {
    Frac { n: -a.n, d: a.d }
}

/// The fraction `i` over one.
pub open spec fn frac_int(i: int) -> Frac {
    Frac { n: i, d: 1 }
}

/// Euclid's greatest common divisor.
pub open spec fn gcd_nat(a: nat, b: nat) -> nat
    decreases b,
{
    if b == 0 {
        a
    } else {
        gcd_nat(b, a % b)
    }
}

/// `f` divides `x` exactly.
pub open spec fn divides(f: int, x: int) -> bool {
    exists|k: int| x == #[trigger] (f * k)
}

/// The canonical representative of `n / d`: both components divided by their
/// greatest common divisor.  Meaningful for `d >= 1`.
pub open spec fn frac_canon(n: int, d: int) -> Frac {
    let g = gcd_nat(abs(n), abs(d)) as int;
    Frac { n: n / g, d: d / g }
}

/// Canonical representative of an unreduced fraction with positive
/// denominator.
pub open spec fn frac_canon_of(f: Frac) -> Frac {
    frac_canon(f.n, f.d)
}

/// What a checked operation returns: the canonical form of the exact result
/// when it is representable, nothing otherwise.
pub open spec fn frac_checked(f: Frac) -> Option<Frac> {
    let c = frac_canon_of(f);
    if frac_wf(c) {
        Some(c)
    } else {
        None
    }
}

/// The view of an optional rational.
pub open spec fn opt_frac(r: Option<Rational>) -> Option<Frac> {
    match r {
        Some(q) => Some(q@),
        None => None,
    }
}

/// The greatest common divisor divides both arguments and is positive
/// whenever either argument is.
pub proof fn lemma_gcd_divides(a: nat, b: nat)
    ensures
        divides(gcd_nat(a, b) as int, a as int),
        divides(gcd_nat(a, b) as int, b as int),
        a > 0 || b > 0 ==> gcd_nat(a, b) >= 1,
    decreases b,
{
    let g = gcd_nat(a, b) as int;
    if b == 0 {
        assert(a as int == g * 1);
        assert(b as int == g * 0);
    } else {
        lemma_gcd_divides(b, a % b);
        let k1 = choose|k: int| b as int == #[trigger] (g * k);
        let k2 = choose|k: int| (a % b) as int == #[trigger] (g * k);
        lemma_fundamental_div_mod(a as int, b as int);
        let q = a as int / b as int;
        assert(a as int == g * (k1 * q + k2)) by (nonlinear_arith)
            requires
                a as int == b as int * q + (a % b) as int,
                b as int == g * k1,
                (a % b) as int == g * k2,
        ;
    }
}

/// Exact division: if `g` divides `x`, the quotient recovers the cofactor.
pub proof fn lemma_exact_div(x: int, g: int, k: int)
    requires
        g >= 1,
        x == g * k,
    ensures
        x / g == k,
{
    lemma_div_multiples_vanish(k, g);
}

/// Reduction by the greatest common divisor preserves the value, keeps the
/// denominator positive, and never grows either component.
pub proof fn lemma_canon(n: int, d: int)
    requires
        d >= 1,
    ensures
        1 <= frac_canon(n, d).d <= d,
        abs(frac_canon(n, d).n) <= abs(n),
        frac_eq(frac_canon(n, d), Frac { n, d }),
        n == gcd_nat(abs(n), abs(d)) as int * frac_canon(n, d).n,
        d == gcd_nat(abs(n), abs(d)) as int * frac_canon(n, d).d,
{
    let g = gcd_nat(abs(n), abs(d)) as int;
    lemma_gcd_divides(abs(n), abs(d));
    assert(g >= 1);
    let ka = choose|k: int| abs(n) as int == #[trigger] (g * k);
    let kd = choose|k: int| abs(d) as int == #[trigger] (g * k);
    // The denominator is positive, so abs(d) == d.
    assert(d == g * kd);
    lemma_exact_div(d, g, kd);
    // Cofactor of the numerator, with its sign restored.
    let kn: int = if n < 0 {
        -ka
    } else {
        ka
    };
    assert(n == g * kn) by (nonlinear_arith)
        requires
            abs(n) as int == g * ka,
            kn == if n < 0 { -ka } else { ka },
            abs(n) == if n < 0 { -n } else { n },
    ;
    lemma_exact_div(n, g, kn);
    assert(frac_canon(n, d) == Frac { n: kn, d: kd });
    assert(kd >= 1) by (nonlinear_arith)
        requires
            d == g * kd,
            d >= 1,
            g >= 1,
    ;
    lemma_mul_increases(g, kd);
    lemma_mul_is_commutative(g, kd);
    assert(abs(kn) <= abs(n)) by (nonlinear_arith)
        requires
            abs(n) as int == g * ka,
            g >= 1,
            ka == abs(kn),
    ;
    assert(kn * d == n * kd) by (nonlinear_arith)
        requires
            n == g * kn,
            d == g * kd,
    ;
}

/// An exact rational number: reduced fraction with positive denominator,
/// bounded components.
#[derive(Clone, Copy, Debug, PartialEq, Eq, Structural)]
pub struct Rational {
    n: i64,
    d: i64,
}

impl View for Rational {
    type V = Frac;

    closed spec fn view(&self) -> Frac {
        Frac { n: self.n as int, d: self.d as int }
    }
}

/// Euclid's algorithm.
fn gcd_u128(a0: u128, b0: u128) -> (g: u128)
    ensures
        g as nat == gcd_nat(a0 as nat, b0 as nat),
{
    let mut a = a0;
    let mut b = b0;
    while b != 0
        invariant
            gcd_nat(a as nat, b as nat) == gcd_nat(a0 as nat, b0 as nat),
        decreases b,
    {
        let r = a % b;
        a = b;
        b = r;
    }
    a
}

/// Reduce `n / d` (with `d >= 1`) and bound-check the result.
fn canon_i128(n: i128, d: i128) -> (r: Option<Rational>)
    requires
        d >= 1,
        n > i128::MIN,
    ensures
        opt_frac(r) == frac_checked(Frac { n: n as int, d: d as int }),
        r matches Some(q) ==> q.wf(),
{
    proof {
        lemma_canon(n as int, d as int);
    }
    let neg = n < 0;
    let un: u128 = if neg {
        (-n) as u128
    } else {
        n as u128
    };
    let ud: u128 = d as u128;
    let g = gcd_u128(un, ud);
    proof {
        lemma_gcd_divides(un as nat, ud as nat);
    }
    let qn = un / g;
    let qd = ud / g;
    proof {
        let gi = g as int;
        let c = frac_canon(n as int, d as int);
        // Relate the unsigned quotients to the canonical components.
        assert(un as nat == abs(n as int));
        assert(ud as nat == abs(d as int));
        assert(gi == gcd_nat(abs(n as int), abs(d as int)) as int);
        assert(gi >= 1);
        lemma_exact_div(d as int, gi, c.d);
        assert(qd as int == c.d);
        if neg {
            assert(n as int == gi * c.n);
            assert(-(n as int) == gi * (-c.n)) by (nonlinear_arith)
                requires
                    n as int == gi * c.n,
            ;
            lemma_exact_div(-(n as int), gi, -c.n);
            assert(qn as int == -c.n);
        } else {
            assert(n as int == gi * c.n);
            lemma_exact_div(n as int, gi, c.n);
            assert(qn as int == c.n);
        }
    }
    if qn <= FRAC_LIMIT as u128 && qd <= FRAC_LIMIT as u128 {
        let rn: i64 = if neg {
            -(qn as i64)
        } else {
            qn as i64
        };
        Some(Rational { n: rn, d: qd as i64 })
    } else {
        None
    }
}

impl Rational {
    /// The representation invariant: bounded components, positive
    /// denominator.
    pub open spec fn wf(self) -> bool {
        frac_wf(self@)
    }

    /// Build the canonical rational `n / d`.
    pub fn new(n: i64, d: i64) -> (r: Rational)
        requires
            d >= 1,
            n > i64::MIN,
        ensures
            r@ == frac_canon(n as int, d as int),
            r.wf(),
            frac_eq(r@, Frac { n: n as int, d: d as int }),
    {
        proof {
            lemma_canon(n as int, d as int);
        }
        let r = canon_i128(n as i128, d as i128);
        match r {
            Some(q) => q,
            None => {
                // Unreachable: reduction of bounded inputs stays bounded.
                proof {
                    assert(false);
                }
                Rational { n: 0, d: 1 }
            },
        }
    }

    /// The rational `i` over one.
    pub fn from_int(i: i64) -> (r: Rational)
        requires
            i > i64::MIN,
        ensures
            r@ == frac_int(i as int),
            r.wf(),
    {
        let r = Rational::new(i, 1);
        proof {
            let g = gcd_nat(abs(i as int), abs(1)) as int;
            lemma_canon(i as int, 1);
            assert(g == 1 && frac_canon(i as int, 1).d == 1) by (nonlinear_arith)
                requires
                    1 == g * frac_canon(i as int, 1).d,
                    g >= 0,
                    frac_canon(i as int, 1).d >= 1,
            ;
            assert(r@.n == i as int / 1 == i as int);
            assert(r@.d == 1 as int / 1 == 1);
        }
        r
    }

    /// Zero.
    pub fn zero() -> (r: Rational)
        ensures
            r@ == frac_int(0),
            r.wf(),
    {
        Rational::from_int(0)
    }

    /// One.
    pub fn one() -> (r: Rational)
        ensures
            r@ == frac_int(1),
            r.wf(),
    {
        Rational::from_int(1)
    }

    /// Numerator of the reduced representation.
    pub fn num(&self) -> (r: i64)
        ensures
            r as int == self@.n,
    {
        self.n
    }

    /// Denominator of the reduced representation.
    pub fn den(&self) -> (r: i64)
        ensures
            r as int == self@.d,
    {
        self.d
    }

    /// The value is exactly zero.
    pub fn is_zero(&self) -> (r: bool)
        requires
            self.wf(),
        ensures
            r == (self@.n == 0),
    {
        self.n == 0
    }

    /// Checked addition: canonical exact sum, or `None` when it does not fit.
    pub fn try_add(&self, other: &Rational) -> (r: Option<Rational>)
        requires
            self.wf(),
            other.wf(),
        ensures
            opt_frac(r) == frac_checked(frac_add(self@, other@)),
            r matches Some(q) ==> q.wf(),
    {
        proof {
            lemma_raw_bounds(self@, other@);
        }
        let rn: i128 = self.n as i128 * other.d as i128 + other.n as i128 * self.d as i128;
        let rd: i128 = self.d as i128 * other.d as i128;
        canon_i128(rn, rd)
    }

    /// Checked subtraction.
    pub fn try_sub(&self, other: &Rational) -> (r: Option<Rational>)
        requires
            self.wf(),
            other.wf(),
        ensures
            opt_frac(r) == frac_checked(frac_sub(self@, other@)),
            r matches Some(q) ==> q.wf(),
    {
        proof {
            lemma_raw_bounds(self@, other@);
        }
        let rn: i128 = self.n as i128 * other.d as i128 - other.n as i128 * self.d as i128;
        let rd: i128 = self.d as i128 * other.d as i128;
        canon_i128(rn, rd)
    }

    /// Checked multiplication.
    pub fn try_mul(&self, other: &Rational) -> (r: Option<Rational>)
        requires
            self.wf(),
            other.wf(),
        ensures
            opt_frac(r) == frac_checked(frac_mul(self@, other@)),
            r matches Some(q) ==> q.wf(),
    {
        proof {
            lemma_raw_bounds(self@, other@);
        }
        let rn: i128 = self.n as i128 * other.n as i128;
        let rd: i128 = self.d as i128 * other.d as i128;
        canon_i128(rn, rd)
    }

    /// Checked division by a non-zero rational.
    pub fn try_div(&self, other: &Rational) -> (r: Option<Rational>)
        requires
            self.wf(),
            other.wf(),
            other@.n != 0,
        ensures
            opt_frac(r) == frac_checked(frac_div(self@, other@)),
            r matches Some(q) ==> q.wf(),
    {
        proof {
            lemma_raw_bounds(self@, other@);
        }
        let rn: i128 = self.n as i128 * other.d as i128;
        let rd: i128 = self.d as i128 * other.n as i128;
        if other.n < 0 {
            proof {
                assert(rd < 0 && -rd >= 1) by (nonlinear_arith)
                    requires
                        rd == self@.d * other@.n,
                        self@.d >= 1,
                        other@.n < 0,
                ;
            }
            canon_i128(-rn, -rd)
        } else {
            proof {
                lemma_mul_strictly_positive(self.d as int, other.n as int);
            }
            canon_i128(rn, rd)
        }
    }

    /// Exact negation; always representable.
    pub fn neg(&self) -> (r: Rational)
        requires
            self.wf(),
        ensures
            r@ == frac_neg(self@),
            r.wf(),
    {
        Rational { n: -self.n, d: self.d }
    }

    /// `self <= other` as rational values.
    pub fn le(&self, other: &Rational) -> (r: bool)
        requires
            self.wf(),
            other.wf(),
        ensures
            r == frac_le(self@, other@),
    {
        proof {
            lemma_raw_bounds(self@, other@);
        }
        self.n as i128 * other.d as i128 <= other.n as i128 * self.d as i128
    }

    /// `self < other` as rational values.
    pub fn lt(&self, other: &Rational) -> (r: bool)
        requires
            self.wf(),
            other.wf(),
        ensures
            r == frac_lt(self@, other@),
    {
        proof {
            lemma_raw_bounds(self@, other@);
        }
        (self.n as i128 * other.d as i128) < (other.n as i128 * self.d as i128)
    }
}

/// Bounds on the intermediate products of two well-formed fractions: they fit
/// comfortably in `i128`.
proof fn lemma_raw_bounds(a: Frac, b: Frac)
    requires
        frac_wf(a),
        frac_wf(b),
    ensures
        -(FRAC_LIMIT as int * FRAC_LIMIT as int) <= a.n * b.d <= FRAC_LIMIT as int * FRAC_LIMIT
            as int,
        -(FRAC_LIMIT as int * FRAC_LIMIT as int) <= b.n * a.d <= FRAC_LIMIT as int * FRAC_LIMIT
            as int,
        -(FRAC_LIMIT as int * FRAC_LIMIT as int) <= a.n * b.n <= FRAC_LIMIT as int * FRAC_LIMIT
            as int,
        1 <= a.d * b.d <= FRAC_LIMIT as int * FRAC_LIMIT as int,
        -(FRAC_LIMIT as int * FRAC_LIMIT as int) <= a.d * b.n <= FRAC_LIMIT as int * FRAC_LIMIT
            as int,
{
    let m = FRAC_LIMIT as int;
    assert(-(m * m) <= a.n * b.d <= m * m && -(m * m) <= b.n * a.d <= m * m && -(m * m) <= a.n * b.n
        <= m * m && 1 <= a.d * b.d <= m * m && -(m * m) <= a.d * b.n <= m * m)
        by (nonlinear_arith)
        requires
            -m <= a.n <= m,
            -m <= b.n <= m,
            1 <= a.d <= m,
            1 <= b.d <= m,
    ;
}

/// Rational equality is transitive through a fraction with non-zero
/// denominator.
pub proof fn lemma_eq_trans(a: Frac, b: Frac, c: Frac)
    requires
        frac_eq(a, b),
        frac_eq(b, c),
        b.d != 0,
    ensures
        frac_eq(a, c),
{
    assert(a.n * c.d == c.n * a.d) by (nonlinear_arith)
        requires
            a.n * b.d == b.n * a.d,
            b.n * c.d == c.n * b.d,
            b.d != 0,
    ;
}

/// Sums of equal fractions are equal.
pub proof fn lemma_add_congruence(a: Frac, a2: Frac, b: Frac, b2: Frac)
    requires
        frac_eq(a, a2),
        frac_eq(b, b2),
    ensures
        frac_eq(frac_add(a, b), frac_add(a2, b2)),
{
    assert((a.n * b.d) * (a2.d * b2.d) == (a.n * a2.d) * (b.d * b2.d)) by (nonlinear_arith);
    assert((b.n * a.d) * (a2.d * b2.d) == (b.n * b2.d) * (a.d * a2.d)) by (nonlinear_arith);
    assert((a2.n * a.d) * (b.d * b2.d) == (a2.n * b2.d) * (a.d * b.d)) by (nonlinear_arith);
    assert((b2.n * b.d) * (a.d * a2.d) == (b2.n * a2.d) * (a.d * b.d)) by (nonlinear_arith);
    assert((a.n * b.d + b.n * a.d) * (a2.d * b2.d) == (a.n * b.d) * (a2.d * b2.d) + (b.n * a.d) * (
    a2.d * b2.d)) by (nonlinear_arith);
    assert((a2.n * b2.d + b2.n * a2.d) * (a.d * b.d) == (a2.n * b2.d) * (a.d * b.d) + (b2.n * a2.d)
        * (a.d * b.d)) by (nonlinear_arith);
}

/// Quotients of equal fractions are equal.
pub proof fn lemma_div_congruence(a: Frac, a2: Frac, b: Frac, b2: Frac)
    requires
        frac_eq(a, a2),
        frac_eq(b, b2),
    ensures
        frac_eq(frac_div(a, b), frac_div(a2, b2)),
{
    let r1 = frac_div(a, b);
    let r2 = frac_div(a2, b2);
    assert((a.n * b.d) * (a2.d * b2.n) == (a.n * a2.d) * (b.d * b2.n)) by (nonlinear_arith);
    assert((a.n * a2.d) * (b.d * b2.n) == (a2.n * a.d) * (b2.n * b.d)) by (nonlinear_arith)
        requires
            a.n * a2.d == a2.n * a.d,
            b.n * b2.d == b2.n * b.d,
    ;
    assert((a2.n * a.d) * (b2.n * b.d) == (a2.n * b2.d) * (a.d * b.n)) by (nonlinear_arith)
        requires
            b.n * b2.d == b2.n * b.d,
    ;
    let base = (a.n * b.d) * (a2.d * b2.n);
    assert(r1.n * r2.d == r2.n * r1.d) by (nonlinear_arith)
        requires
            (a.n * b.d) * (a2.d * b2.n) == (a2.n * b2.d) * (a.d * b.n),
            r1 == (if a.d * b.n < 0 {
                Frac { n: -(a.n * b.d), d: -(a.d * b.n) }
            } else {
                Frac { n: a.n * b.d, d: a.d * b.n }
            }),
            r2 == (if a2.d * b2.n < 0 {
                Frac { n: -(a2.n * b2.d), d: -(a2.d * b2.n) }
            } else {
                Frac { n: a2.n * b2.d, d: a2.d * b2.n }
            }),
    ;
}

/// A successful checked operation returns a fraction equal in value to the
/// exact one, well formed.
pub proof fn lemma_checked_sound(f: Frac)
    requires
        f.d >= 1,
        frac_checked(f).is_some(),
    ensures
        frac_wf(frac_checked(f).unwrap()),
        frac_eq(frac_checked(f).unwrap(), f),
        frac_eq(f, frac_checked(f).unwrap()),
{
    lemma_canon(f.n, f.d);
    let c = frac_canon_of(f);
    assert(frac_eq(f, c)) by (nonlinear_arith)
        requires
            c.n * f.d == f.n * c.d,
    ;
}

/// Multiplying by a fraction equal to zero gives a fraction equal to zero.
pub proof fn lemma_mul_zero(z: Frac, f: Frac)
    requires
        frac_eq(z, frac_int(0)),
        z.d >= 1,
    ensures
        frac_eq(frac_mul(z, f), frac_int(0)),
        frac_eq(frac_mul(f, z), frac_int(0)),
{
    assert(z.n == 0);
    assert(z.n * f.n == 0 && f.n * z.n == 0) by (nonlinear_arith)
        requires
            z.n == 0,
    ;
}

/// Adding a fraction equal to zero changes nothing.
pub proof fn lemma_add_zero(a: Frac, z: Frac)
    requires
        frac_eq(z, frac_int(0)),
        z.d >= 1,
    ensures
        frac_eq(frac_add(a, z), a),
        frac_eq(frac_add(z, a), a),
{
    assert(z.n == 0);
    assert((a.n * z.d + z.n * a.d) * a.d == a.n * (a.d * z.d) && (z.n * a.d + a.n * z.d) * a.d
        == a.n * (z.d * a.d)) by (nonlinear_arith)
        requires
            z.n == 0,
    ;
}

/// Multiplying by a fraction equal to one changes nothing.
pub proof fn lemma_mul_one(o: Frac, f: Frac)
    requires
        frac_eq(o, frac_int(1)),
    ensures
        frac_eq(frac_mul(o, f), f),
        frac_eq(frac_mul(f, o), f),
{
    assert(o.n == o.d);
    assert((o.n * f.n) * f.d == f.n * (o.d * f.d) && (f.n * o.n) * f.d == f.n * (f.d * o.d))
        by (nonlinear_arith)
        requires
            o.n == o.d,
    ;
}

/// The difference of two equal fractions is zero.
pub proof fn lemma_sub_self(a: Frac, b: Frac)
    requires
        frac_eq(a, b),
    ensures
        frac_eq(frac_sub(a, b), frac_int(0)),
{
}

} // verus!
