//! Dense matrices of exact rationals.
//!
//! The motion-model and covariance algebra of the Kalman estimator runs on
//! these matrices.  Every operation either returns the canonical exact result
//! or reports that an intermediate value left the representable range; the
//! contracts mirror the computation step by step over the mathematical
//! fraction model, so nothing about the arithmetic is left unstated.

use crate::errors::EstimatorError;
use crate::frac::{
    frac_add, frac_checked, frac_div, frac_eq, frac_int, frac_mul, frac_neg, frac_sub, frac_wf,
    Frac, Rational,
};
use vstd::arithmetic::div_mod::{
    lemma_fundamental_div_mod_converse_div, lemma_fundamental_div_mod_converse_mod,
};
use vstd::prelude::*;

verus! {

/// Mathematical model of a matrix: dimensions and a row-major entry sequence.
#[verifier::ext_equal]
pub struct MatV {
    pub rows: int,
    pub cols: int,
    pub e: Seq<Frac>,
}

/// Entry `(i, j)` of a model matrix.
pub open spec fn ent(m: MatV, i: int, j: int) -> Frac {
    m.e[i * m.cols + j]
}

/// Well-formed model: small positive dimensions, matching entry count, all
/// entries representable.
pub open spec fn mat_wf(m: MatV) -> bool {
    &&& 1 <= m.rows <= 8
    &&& 1 <= m.cols <= 8
    &&& m.e.len() == m.rows * m.cols
    &&& forall|t: int| 0 <= t < m.e.len() ==> frac_wf(#[trigger] m.e[t])
}

/// A dense row-major matrix of exact rationals.
#[derive(Debug)]
pub struct Matrix {
    rows: usize,
    cols: usize,
    e: Vec<Rational>,
}

impl View for Matrix {
    type V = MatV;

    closed spec fn view(&self) -> MatV {
        MatV {
            rows: self.rows as int,
            cols: self.cols as int,
            e: Seq::new(self.e.len() as nat, |t: int| self.e[t]@),
        }
    }
}

/// Checked sum of the entries at flat index `t`.
pub open spec fn add_at(a: MatV, b: MatV, t: int) -> Option<Frac> {
    frac_checked(frac_add(a.e[t], b.e[t]))
}

/// Checked difference of the entries at flat index `t`.
pub open spec fn sub_at(a: MatV, b: MatV, t: int) -> Option<Frac> {
    frac_checked(frac_sub(a.e[t], b.e[t]))
}

/// Checked product of entry `t` with the scalar `s`.
pub open spec fn scale_at(m: MatV, s: Frac, t: int) -> Option<Frac> {
    frac_checked(frac_mul(m.e[t], s))
}

/// Checked dot product of row `i` of `a` with column `j` of `b`, over the
/// first `k` terms, accumulated left to right from zero exactly as the
/// executable multiplication does.
pub open spec fn dot_at(a: MatV, b: MatV, i: int, j: int, k: nat) -> Option<Frac>
    decreases k,
{
    if k == 0 {
        Some(frac_int(0))
    } else {
        match dot_at(a, b, i, j, (k - 1) as nat) {
            None => None,
            Some(acc) => match frac_checked(frac_mul(ent(a, i, k - 1), ent(b, k - 1, j))) {
                None => None,
                Some(p) => frac_checked(frac_add(acc, p)),
            },
        }
    }
}

/// Every entry of the checked sum exists.
pub open spec fn add_ok(a: MatV, b: MatV) -> bool {
    forall|t: int| 0 <= t < a.e.len() ==> (#[trigger] add_at(a, b, t)).is_some()
}

/// Every entry of the checked difference exists.
pub open spec fn sub_ok(a: MatV, b: MatV) -> bool {
    forall|t: int| 0 <= t < a.e.len() ==> (#[trigger] sub_at(a, b, t)).is_some()
}

/// Every entry of the checked scalar product exists.
pub open spec fn scale_ok(m: MatV, s: Frac) -> bool {
    forall|t: int| 0 <= t < m.e.len() ==> (#[trigger] scale_at(m, s, t)).is_some()
}

/// Every entry of the checked matrix product exists.
pub open spec fn mul_ok(a: MatV, b: MatV) -> bool {
    forall|i: int, j: int|
        0 <= i < a.rows && 0 <= j < b.cols ==> (#[trigger] dot_at(
            a,
            b,
            i,
            j,
            a.cols as nat,
        )).is_some()
}

impl Matrix {
    /// Well-formed matrix.
    pub open spec fn wf(self) -> bool {
        mat_wf(self@)
    }

    /// Number of rows.
    pub fn nrows(&self) -> (r: usize)
        ensures
            r as int == self@.rows,
    {
        self.rows
    }

    /// Number of columns.
    pub fn ncols(&self) -> (r: usize)
        ensures
            r as int == self@.cols,
    {
        self.cols
    }

    /// The all-zero matrix.
    pub fn zeros(rows: usize, cols: usize) -> (r: Matrix)
        requires
            1 <= rows <= 8,
            1 <= cols <= 8,
        ensures
            r.wf(),
            r@.rows == rows,
            r@.cols == cols,
            forall|t: int| 0 <= t < r@.e.len() ==> r@.e[t] == frac_int(0),
    {
        proof {
            assert(rows * cols <= 64) by (nonlinear_arith)
                requires
                    1 <= rows <= 8,
                    1 <= cols <= 8,
            ;
        }
        let n = rows * cols;
        let mut e: Vec<Rational> = Vec::new();
        let mut t: usize = 0;
        let z = Rational::zero();
        while t < n
            invariant
                t <= n,
                e@.len() == t,
                z@ == frac_int(0),
                z.wf(),
                forall|u: int| 0 <= u < t ==> e@[u]@ == frac_int(0) && (#[trigger] e@[u]).wf(),
            decreases n - t,
        {
            e.push(z);
            t = t + 1;
        }
        Matrix { rows, cols, e }
    }

    /// The identity matrix.
    pub fn identity(n: usize) -> (r: Matrix)
        requires
            1 <= n <= 8,
        ensures
            r.wf(),
            r@.rows == n,
            r@.cols == n,
            forall|i: int, j: int|
                0 <= i < n && 0 <= j < n ==> ent(r@, i, j) == (if i == j {
                    frac_int(1)
                } else {
                    frac_int(0)
                }),
    {
        let mut m = Matrix::zeros(n, n);
        proof {
            assert forall|a: int, b: int| 0 <= a < n && 0 <= b < n implies #[trigger] ent(
                m@,
                a,
                b,
            ) == frac_int(0) by {
                lemma_flat_index(m@, a, b);
            }
        }
        let one = Rational::one();
        let mut i: usize = 0;
        while i < n
            invariant
                i <= n,
                m.wf(),
                m@.rows == n,
                m@.cols == n,
                one@ == frac_int(1),
                one.wf(),
                forall|a: int, b: int|
                    0 <= a < n && 0 <= b < n && a != b ==> #[trigger] ent(m@, a, b) == frac_int(0),
                forall|a: int| 0 <= a < i ==> #[trigger] ent(m@, a, a) == frac_int(1),
                forall|a: int| i <= a < n ==> #[trigger] ent(m@, a, a) == frac_int(0),
            decreases n - i,
        {
            m.set(i, i, one);
            i = i + 1;
        }
        m
    }

    /// Entry `(i, j)`.
    pub fn get(&self, i: usize, j: usize) -> (r: Rational)
        requires
            self.wf(),
            i < self@.rows,
            j < self@.cols,
        ensures
            r@ == ent(self@, i as int, j as int),
            r.wf(),
    {
        proof {
            lemma_flat_index(self@, i as int, j as int);
            assert(frac_wf(self@.e[i as int * self@.cols + j]));
        }
        self.e[i * self.cols + j]
    }

    /// Replace entry `(i, j)`.
    pub fn set(&mut self, i: usize, j: usize, v: Rational)
        requires
            old(self).wf(),
            i < old(self)@.rows,
            j < old(self)@.cols,
            v.wf(),
        ensures
            final(self).wf(),
            final(self)@.rows == old(self)@.rows,
            final(self)@.cols == old(self)@.cols,
            final(self)@.e == old(self)@.e.update(i as int * old(self)@.cols + j, v@),
            ent(final(self)@, i as int, j as int) == v@,
            forall|a: int, b: int|
                0 <= a < old(self)@.rows && 0 <= b < old(self)@.cols && !(a == i && b == j)
                    ==> ent(final(self)@, a, b) == ent(old(self)@, a, b),
    {
        proof {
            lemma_flat_index(self@, i as int, j as int);
        }
        let t = i * self.cols + j;
        self.e.set(t, v);
        proof {
            assert(self@.e =~= old(self)@.e.update(i as int * old(self)@.cols + j, v@));
            assert forall|a: int, b: int|
                0 <= a < old(self)@.rows && 0 <= b < old(self)@.cols && !(a == i && b == j)
                    implies ent(self@, a, b) == ent(old(self)@, a, b) by {
                lemma_flat_index(old(self)@, a, b);
                lemma_flat_index(old(self)@, i as int, j as int);
                lemma_flat_index_injective(old(self)@, a, b, i as int, j as int);
            }
        }
    }

    /// The transpose.
    pub fn transpose(&self) -> (r: Matrix)
        requires
            self.wf(),
        ensures
            r.wf(),
            r@.rows == self@.cols,
            r@.cols == self@.rows,
            forall|i: int, j: int|
                0 <= i < self@.cols && 0 <= j < self@.rows ==> ent(r@, i, j) == ent(self@, j, i),
    {
        let mut m = Matrix::zeros(self.cols, self.rows);
        let mut i: usize = 0;
        while i < self.cols
            invariant
                self.wf(),
                i <= self@.cols,
                m.wf(),
                m@.rows == self@.cols,
                m@.cols == self@.rows,
                forall|a: int, b: int|
                    0 <= a < i && 0 <= b < self@.rows ==> ent(m@, a, b) == ent(self@, b, a),
            decreases self.cols - i,
        {
            let mut j: usize = 0;
            while j < self.rows
                invariant
                    self.wf(),
                    i < self@.cols,
                    j <= self@.rows,
                    m.wf(),
                    m@.rows == self@.cols,
                    m@.cols == self@.rows,
                    forall|a: int, b: int|
                        0 <= a < i && 0 <= b < self@.rows ==> ent(m@, a, b) == ent(self@, b, a),
                    forall|b: int| 0 <= b < j ==> ent(m@, i as int, b) == ent(self@, b, i as int),
                decreases self.rows - j,
            {
                let v = self.get(j, i);
                m.set(i, j, v);
                j = j + 1;
            }
            i = i + 1;
        }
        m
    }
}

impl Matrix {
    /// Checked entrywise sum.
    pub fn try_add(&self, other: &Matrix) -> (r: Option<Matrix>)
        requires
            self.wf(),
            other.wf(),
            self@.rows == other@.rows,
            self@.cols == other@.cols,
        ensures
            r.is_some() == add_ok(self@, other@),
            r matches Some(m) ==> m.wf() && m@.rows == self@.rows && m@.cols == self@.cols
                && forall|t: int|
                0 <= t < m@.e.len() ==> #[trigger] m@.e[t] == add_at(self@, other@, t).unwrap(),
    {
        let n = self.e.len();
        let mut e: Vec<Rational> = Vec::new();
        let mut t: usize = 0;
        while t < n
            invariant
                self.wf(),
                other.wf(),
                self@.rows == other@.rows,
                self@.cols == other@.cols,
                n == self@.e.len(),
                t <= n,
                e@.len() == t,
                forall|u: int|
                    #![trigger e@[u]]
                    #![trigger add_at(self@, other@, u)]
                    0 <= u < t ==> add_at(self@, other@, u).is_some() && e@[u]@ == add_at(
                        self@, other@,
                        u,
                    ).unwrap() && e@[u].wf(),
            decreases n - t,
        {
            proof {
                assert(frac_wf(self@.e[t as int]));
                assert(frac_wf(other@.e[t as int]));
            }
            let v0 = self.e[t].try_add(&other.e[t]);
            proof {
                assert(crate::frac::opt_frac(v0) == add_at(self@, other@, t as int));
            }
            match v0 {
                Some(v) => {
                    let ghost e_prev = e@;
                    e.push(v);
                    proof {
                        assert forall|u: int|
                            #![trigger e@[u]]
                            #![trigger add_at(self@, other@, u)]
                            0 <= u < t + 1 implies add_at(self@, other@, u).is_some() && e@[u]@
                            == add_at(self@, other@, u).unwrap() && e@[u].wf() by {
                            if u < t {
                                assert(e@[u] == e_prev[u]);
                            } else {
                                assert(e@[u] == v);
                            }
                        }
                    }
                    t = t + 1;
                },
                None => {
                    return None;
                },
            }
        }
        let m = Matrix { rows: self.rows, cols: self.cols, e };
        proof {
            assert forall|t: int| 0 <= t < m@.e.len() implies frac_wf(#[trigger] m@.e[t])
                && m@.e[t] == add_at(self@, other@, t).unwrap() by {
                assert(m@.e[t] == e@[t]@);
            }
            assert(add_ok(self@, other@));
        }
        Some(m)
    }

    /// Checked entrywise difference.
    pub fn try_sub(&self, other: &Matrix) -> (r: Option<Matrix>)
        requires
            self.wf(),
            other.wf(),
            self@.rows == other@.rows,
            self@.cols == other@.cols,
        ensures
            r.is_some() == sub_ok(self@, other@),
            r matches Some(m) ==> m.wf() && m@.rows == self@.rows && m@.cols == self@.cols
                && forall|t: int|
                0 <= t < m@.e.len() ==> #[trigger] m@.e[t] == sub_at(self@, other@, t).unwrap(),
    {
        let n = self.e.len();
        let mut e: Vec<Rational> = Vec::new();
        let mut t: usize = 0;
        while t < n
            invariant
                self.wf(),
                other.wf(),
                self@.rows == other@.rows,
                self@.cols == other@.cols,
                n == self@.e.len(),
                t <= n,
                e@.len() == t,
                forall|u: int|
                    #![trigger e@[u]]
                    #![trigger sub_at(self@, other@, u)]
                    0 <= u < t ==> sub_at(self@, other@, u).is_some() && e@[u]@ == sub_at(
                        self@, other@,
                        u,
                    ).unwrap() && e@[u].wf(),
            decreases n - t,
        {
            proof {
                assert(frac_wf(self@.e[t as int]));
                assert(frac_wf(other@.e[t as int]));
            }
            let v0 = self.e[t].try_sub(&other.e[t]);
            proof {
                assert(crate::frac::opt_frac(v0) == sub_at(self@, other@, t as int));
            }
            match v0 {
                Some(v) => {
                    let ghost e_prev = e@;
                    e.push(v);
                    proof {
                        assert forall|u: int|
                            #![trigger e@[u]]
                            #![trigger sub_at(self@, other@, u)]
                            0 <= u < t + 1 implies sub_at(self@, other@, u).is_some() && e@[u]@
                            == sub_at(self@, other@, u).unwrap() && e@[u].wf() by {
                            if u < t {
                                assert(e@[u] == e_prev[u]);
                            } else {
                                assert(e@[u] == v);
                            }
                        }
                    }
                    t = t + 1;
                },
                None => {
                    return None;
                },
            }
        }
        let m = Matrix { rows: self.rows, cols: self.cols, e };
        proof {
            assert forall|t: int| 0 <= t < m@.e.len() implies frac_wf(#[trigger] m@.e[t])
                && m@.e[t] == sub_at(self@, other@, t).unwrap() by {
                assert(m@.e[t] == e@[t]@);
            }
            assert(sub_ok(self@, other@));
        }
        Some(m)
    }

    /// Checked multiplication of every entry by a scalar.
    pub fn try_scale(&self, s: &Rational) -> (r: Option<Matrix>)
        requires
            self.wf(),
            s.wf(),
        ensures
            r.is_some() == scale_ok(self@, s@),
            r matches Some(m) ==> m.wf() && m@.rows == self@.rows && m@.cols == self@.cols
                && forall|t: int|
                0 <= t < m@.e.len() ==> #[trigger] m@.e[t] == scale_at(self@, s@, t).unwrap(),
    {
        let n = self.e.len();
        let mut e: Vec<Rational> = Vec::new();
        let mut t: usize = 0;
        while t < n
            invariant
                self.wf(),
                s.wf(),
                n == self@.e.len(),
                t <= n,
                e@.len() == t,
                forall|u: int|
                    #![trigger e@[u]]
                    #![trigger scale_at(self@, s@, u)]
                    0 <= u < t ==> scale_at(self@, s@, u).is_some() && e@[u]@ == scale_at(
                        self@, s@,
                        u,
                    ).unwrap() && e@[u].wf(),
            decreases n - t,
        {
            proof {
                assert(frac_wf(self@.e[t as int]));
            }
            let v0 = self.e[t].try_mul(s);
            proof {
                assert(crate::frac::opt_frac(v0) == scale_at(self@, s@, t as int));
            }
            match v0 {
                Some(v) => {
                    let ghost e_prev = e@;
                    e.push(v);
                    proof {
                        assert forall|u: int|
                            #![trigger e@[u]]
                            #![trigger scale_at(self@, s@, u)]
                            0 <= u < t + 1 implies scale_at(self@, s@, u).is_some() && e@[u]@
                            == scale_at(self@, s@, u).unwrap() && e@[u].wf() by {
                            if u < t {
                                assert(e@[u] == e_prev[u]);
                            } else {
                                assert(e@[u] == v);
                            }
                        }
                    }
                    t = t + 1;
                },
                None => {
                    return None;
                },
            }
        }
        let m = Matrix { rows: self.rows, cols: self.cols, e };
        proof {
            assert forall|t: int| 0 <= t < m@.e.len() implies frac_wf(#[trigger] m@.e[t])
                && m@.e[t] == scale_at(self@, s@, t).unwrap() by {
                assert(m@.e[t] == e@[t]@);
            }
            assert(scale_ok(self@, s@));
        }
        Some(m)
    }

    /// Checked matrix product.
    pub fn try_mul(&self, other: &Matrix) -> (r: Option<Matrix>)
        requires
            self.wf(),
            other.wf(),
            self@.cols == other@.rows,
        ensures
            r.is_some() == mul_ok(self@, other@),
            r matches Some(m) ==> m.wf() && m@.rows == self@.rows && m@.cols == other@.cols
                && forall|i: int, j: int|
                0 <= i < self@.rows && 0 <= j < other@.cols ==> #[trigger] ent(m@, i, j) == dot_at(
                    self@,
                    other@,
                    i,
                    j,
                    self@.cols as nat,
                ).unwrap(),
    {
        proof {
            assert(self@.rows * other@.cols <= 64) by (nonlinear_arith)
                requires
                    1 <= self@.rows <= 8,
                    1 <= other@.cols <= 8,
            ;
        }
        let rows = self.rows;
        let cols = other.cols;
        let inner = self.cols;
        let mut e: Vec<Rational> = Vec::new();
        let mut i: usize = 0;
        while i < rows
            invariant
                self.wf(),
                other.wf(),
                self@.cols == other@.rows,
                rows == self@.rows,
                cols == other@.cols,
                inner == self@.cols,
                i <= rows,
                e@.len() == i * cols,
                forall|t: int|
                    #![trigger e@[t]]
                    #![trigger dot_at(self@, other@, t / (cols as int), t % (cols as int), inner as nat)]
                    0 <= t < e@.len() ==> dot_at(
                        self@,
                        other@,
                        t / (cols as int),
                        t % (cols as int),
                        inner as nat,
                    ).is_some() && e@[t]@ == dot_at(
                        self@,
                        other@,
                        t / (cols as int),
                        t % (cols as int),
                        inner as nat,
                    ).unwrap() && e@[t].wf(),
            decreases rows - i,
        {
            let mut j: usize = 0;
            while j < cols
                invariant
                    self.wf(),
                    other.wf(),
                    self@.cols == other@.rows,
                    rows == self@.rows,
                    cols == other@.cols,
                    inner == self@.cols,
                    i < rows,
                    j <= cols,
                    e@.len() == i * cols + j,
                    forall|t: int|
                        #![trigger e@[t]]
                        #![trigger dot_at(self@, other@, t / (cols as int), t % (cols as int), inner as nat)]
                        0 <= t < e@.len() ==> dot_at(
                            self@,
                            other@,
                            t / (cols as int),
                            t % (cols as int),
                            inner as nat,
                        ).is_some() && e@[t]@ == dot_at(
                            self@,
                            other@,
                            t / (cols as int),
                            t % (cols as int),
                            inner as nat,
                        ).unwrap() && e@[t].wf(),
                decreases cols - j,
            {
                let mut acc = Rational::zero();
                let mut k: usize = 0;
                while k < inner
                    invariant
                        self.wf(),
                        other.wf(),
                        self@.cols == other@.rows,
                        rows == self@.rows,
                        cols == other@.cols,
                        inner == self@.cols,
                        i < rows,
                        j < cols,
                        k <= inner,
                        acc.wf(),
                        dot_at(self@, other@, i as int, j as int, k as nat) == Some(acc@),
                    decreases inner - k,
                {
                    let av = self.get(i, k);
                    let bv = other.get(k, j);
                    let p = av.try_mul(&bv);
                    match p {
                        None => {
                            proof {
                                lemma_dot_none_propagates(
                                    self@,
                                    other@,
                                    i as int,
                                    j as int,
                                    (k + 1) as nat,
                                    self@.cols as nat,
                                );
                                assert(!mul_ok(self@, other@));
                            }
                            return None;
                        },
                        Some(pv) => {
                            let sum = acc.try_add(&pv);
                            match sum {
                                None => {
                                    proof {
                                        lemma_dot_none_propagates(
                                            self@,
                                            other@,
                                            i as int,
                                            j as int,
                                            (k + 1) as nat,
                                            self@.cols as nat,
                                        );
                                        assert(!mul_ok(self@, other@));
                                    }
                                    return None;
                                },
                                Some(sv) => {
                                    acc = sv;
                                    k = k + 1;
                                },
                            }
                        },
                    }
                }
                proof {
                    let t0 = i as int * cols as int + j as int;
                    lemma_fundamental_div_mod_converse_div(t0, cols as int, i as int, j as int);
                    lemma_fundamental_div_mod_converse_mod(t0, cols as int, i as int, j as int);
                    assert(dot_at(
                        self@,
                        other@,
                        t0 / (cols as int),
                        t0 % (cols as int),
                        inner as nat,
                    ) == Some(acc@));
                }
                let ghost e_prev = e@;
                let ghost t0 = i as int * cols as int + j as int;
                e.push(acc);
                proof {
                    assert forall|t: int|
                        #![trigger e@[t]]
                        #![trigger dot_at(self@, other@, t / (cols as int), t % (cols as int), inner as nat)]
                        0 <= t < t0 + 1 implies dot_at(
                        self@,
                        other@,
                        t / (cols as int),
                        t % (cols as int),
                        inner as nat,
                    ).is_some() && e@[t]@ == dot_at(
                        self@,
                        other@,
                        t / (cols as int),
                        t % (cols as int),
                        inner as nat,
                    ).unwrap() && e@[t].wf() by {
                        if t < t0 {
                            assert(e@[t] == e_prev[t]);
                        } else {
                            assert(e@[t] == acc);
                        }
                    }
                }
                j = j + 1;
            }
            proof {
                assert((i + 1) * cols as int == i * cols as int + cols as int) by (nonlinear_arith);
            }
            i = i + 1;
        }
        let m = Matrix { rows, cols, e };
        proof {
            assert(m@.e.len() == rows * cols);
            assert(inner as nat == self@.cols as nat);
            assert forall|t: int| 0 <= t < m@.e.len() implies frac_wf(#[trigger] m@.e[t]) by {
                assert(m@.e[t] == e@[t]@);
                assert(e@[t].wf());
            }
            assert(mat_wf(m@));
            assert forall|a: int, b: int|
                #![trigger ent(m@, a, b)]
                #![trigger dot_at(self@, other@, a, b, self@.cols as nat)]
                0 <= a < rows && 0 <= b < cols implies ent(
                m@,
                a,
                b,
            ) == dot_at(self@, other@, a, b, self@.cols as nat).unwrap() && dot_at(
                self@,
                other@,
                a,
                b,
                self@.cols as nat,
            ).is_some() by {
                lemma_flat_index(m@, a, b);
                assert(m@.e[a * cols as int + b] == e@[a * cols as int + b]@);
                lemma_fundamental_div_mod_converse_div(
                    a * cols as int + b,
                    cols as int,
                    a,
                    b,
                );
                lemma_fundamental_div_mod_converse_mod(
                    a * cols as int + b,
                    cols as int,
                    a,
                    b,
                );
            }
        }
        Some(m)
    }
}

/// First companion row or column when the one at `k` is removed.
pub open spec fn oth1(k: int) -> int {
    if k == 0 {
        1
    } else {
        0
    }
}

/// Second companion row or column when the one at `k` is removed.
pub open spec fn oth2(k: int) -> int {
    if k == 2 {
        1
    } else {
        2
    }
}

/// Checked 2-by-2 minor: `m[r0][c0] * m[r1][c1] - m[r0][c1] * m[r1][c0]`.
pub open spec fn minor_at(m: MatV, r0: int, r1: int, c0: int, c1: int) -> Option<Frac> {
    match frac_checked(frac_mul(ent(m, r0, c0), ent(m, r1, c1))) {
        None => None,
        Some(x) => match frac_checked(frac_mul(ent(m, r0, c1), ent(m, r1, c0))) {
            None => None,
            Some(y) => frac_checked(frac_sub(x, y)),
        },
    }
}

/// Checked determinant of a 3-by-3 matrix by cofactor expansion along the
/// first row, in the order the executable code computes it.
pub open spec fn det3_at(m: MatV) -> Option<Frac> {
    match minor_at(m, 1, 2, 1, 2) {
        None => None,
        Some(m0) => match minor_at(m, 1, 2, 0, 2) {
            None => None,
            Some(m1) => match minor_at(m, 1, 2, 0, 1) {
                None => None,
                Some(m2) => match frac_checked(frac_mul(ent(m, 0, 0), m0)) {
                    None => None,
                    Some(t0) => match frac_checked(frac_mul(ent(m, 0, 1), m1)) {
                        None => None,
                        Some(t1) => match frac_checked(frac_mul(ent(m, 0, 2), m2)) {
                            None => None,
                            Some(t2) => match frac_checked(frac_sub(t0, t1)) {
                                None => None,
                                Some(d1) => frac_checked(frac_add(d1, t2)),
                            },
                        },
                    },
                },
            },
        },
    }
}

/// Checked entry `(i, j)` of the inverse: the signed cofactor of `(j, i)`
/// divided by the determinant.
pub open spec fn inv3_at(m: MatV, i: int, j: int, det: Frac) -> Option<Frac> {
    match minor_at(m, oth1(j), oth2(j), oth1(i), oth2(i)) {
        None => None,
        Some(mm) => {
            let sv = if (i + j) % 2 == 1 {
                frac_neg(mm)
            } else {
                mm
            };
            frac_checked(frac_div(sv, det))
        },
    }
}

/// The inverse of a singular 3-by-3 matrix does not exist: its determinant is
/// defined and zero.
pub open spec fn singular3(m: MatV) -> bool {
    det3_at(m) matches Some(d) && d.n == 0
}

/// An intermediate of the determinant or of an inverse entry left the
/// representable range.
pub open spec fn inv3_overflow(m: MatV) -> bool {
    ||| det3_at(m).is_none()
    ||| (det3_at(m) matches Some(d) && d.n != 0 && exists|i: int, j: int|
        0 <= i < 3 && 0 <= j < 3 && (#[trigger] inv3_at(m, i, j, d)).is_none())
}

impl Matrix {
    /// Checked 2-by-2 minor of a well-formed matrix.
    fn minor2(&self, r0: usize, r1: usize, c0: usize, c1: usize) -> (r: Option<Rational>)
        requires
            self.wf(),
            r0 < self@.rows,
            r1 < self@.rows,
            c0 < self@.cols,
            c1 < self@.cols,
        ensures
            crate::frac::opt_frac(r) == minor_at(
                self@,
                r0 as int,
                r1 as int,
                c0 as int,
                c1 as int,
            ),
            r matches Some(q) ==> q.wf(),
    {
        let a = self.get(r0, c0);
        let b = self.get(r1, c1);
        let c = self.get(r0, c1);
        let d = self.get(r1, c0);
        match a.try_mul(&b) {
            None => None,
            Some(x) => match c.try_mul(&d) {
                None => None,
                Some(y) => x.try_sub(&y),
            },
        }
    }

    /// Checked determinant of a 3-by-3 matrix.
    pub fn try_det3(&self) -> (r: Option<Rational>)
        requires
            self.wf(),
            self@.rows == 3,
            self@.cols == 3,
        ensures
            crate::frac::opt_frac(r) == det3_at(self@),
            r matches Some(q) ==> q.wf(),
    {
        let m0 = self.minor2(1, 2, 1, 2);
        let m1 = self.minor2(1, 2, 0, 2);
        let m2 = self.minor2(1, 2, 0, 1);
        match (m0, m1, m2) {
            (Some(m0), Some(m1), Some(m2)) => {
                let t0 = self.get(0, 0).try_mul(&m0);
                let t1 = self.get(0, 1).try_mul(&m1);
                let t2 = self.get(0, 2).try_mul(&m2);
                match (t0, t1, t2) {
                    (Some(t0), Some(t1), Some(t2)) => match t0.try_sub(&t1) {
                        None => None,
                        Some(d1) => d1.try_add(&t2),
                    },
                    _ => None,
                }
            },
            _ => None,
        }
    }

    /// Checked inverse of a 3-by-3 matrix via the adjugate.  Reports a
    /// singular matrix and a numeric overflow as distinct failures.
    pub fn try_inverse3(&self) -> (r: Result<Matrix, EstimatorError>)
        requires
            self.wf(),
            self@.rows == 3,
            self@.cols == 3,
        ensures
            r matches Err(e) ==> e == EstimatorError::SingularCovariance || e
                == EstimatorError::Overflow,
            r matches Err(e) && e == EstimatorError::SingularCovariance <==> singular3(self@),
            r matches Err(e) && e == EstimatorError::Overflow <==> inv3_overflow(self@),
            r matches Ok(m) ==> m.wf() && m@.rows == 3 && m@.cols == 3 && det3_at(
                self@,
            ).is_some() && forall|i: int, j: int|
                #![trigger ent(m@, i, j)]
                #![trigger inv3_at(self@, i, j, det3_at(self@).unwrap())]
                0 <= i < 3 && 0 <= j < 3 ==> inv3_at(
                    self@,
                    i,
                    j,
                    det3_at(self@).unwrap(),
                ).is_some() && ent(m@, i, j) == inv3_at(
                    self@,
                    i,
                    j,
                    det3_at(self@).unwrap(),
                ).unwrap(),
    {
        let det = match self.try_det3() {
            None => {
                return Err(EstimatorError::Overflow);
            },
            Some(d) => d,
        };
        if det.is_zero() {
            return Err(EstimatorError::SingularCovariance);
        }
        let mut e: Vec<Rational> = Vec::new();
        let mut t: usize = 0;
        while t < 9
            invariant
                self.wf(),
                self@.rows == 3,
                self@.cols == 3,
                det.wf(),
                det@.n != 0,
                Some(det@) == det3_at(self@),
                t <= 9,
                e@.len() == t,
                forall|u: int|
                    #![trigger e@[u]]
                    #![trigger inv3_at(self@, u / 3, u % 3, det@)]
                    0 <= u < t ==> inv3_at(self@, u / 3, u % 3, det@).is_some() && e@[u]@
                        == inv3_at(self@, u / 3, u % 3, det@).unwrap() && e@[u].wf(),
            decreases 9 - t,
        {
            let i = t / 3;
            let j = t % 3;
            let r0 = if j == 0 {
                1
            } else {
                0
            };
            let r1 = if j == 2 {
                1
            } else {
                2
            };
            let c0 = if i == 0 {
                1
            } else {
                0
            };
            let c1 = if i == 2 {
                1
            } else {
                2
            };
            let mm = match self.minor2(r0, r1, c0, c1) {
                None => {
                    return Err(EstimatorError::Overflow);
                },
                Some(v) => v,
            };
            let sv = if (i + j) % 2 == 1 {
                mm.neg()
            } else {
                mm
            };
            let q = match sv.try_div(&det) {
                None => {
                    return Err(EstimatorError::Overflow);
                },
                Some(v) => v,
            };
            proof {
                assert(Some(q@) == inv3_at(self@, t as int / 3, t as int % 3, det@));
            }
            let ghost e_prev = e@;
            e.push(q);
            proof {
                assert forall|u: int|
                    #![trigger e@[u]]
                    #![trigger inv3_at(self@, u / 3, u % 3, det@)]
                    0 <= u < t + 1 implies inv3_at(self@, u / 3, u % 3, det@).is_some() && e@[u]@
                    == inv3_at(self@, u / 3, u % 3, det@).unwrap() && e@[u].wf() by {
                    if u < t {
                        assert(e@[u] == e_prev[u]);
                    } else {
                        assert(e@[u] == q);
                    }
                }
            }
            t = t + 1;
        }
        let m = Matrix { rows: 3, cols: 3, e };
        proof {
            assert forall|t: int| 0 <= t < m@.e.len() implies frac_wf(#[trigger] m@.e[t]) by {
                assert(m@.e[t] == e@[t]@);
            }
            assert(mat_wf(m@));
            assert forall|i: int, j: int|
                #![trigger ent(m@, i, j)]
                #![trigger inv3_at(self@, i, j, det@)]
                0 <= i < 3 && 0 <= j < 3 implies inv3_at(self@, i, j, det@).is_some() && ent(
                m@,
                i,
                j,
            ) == inv3_at(self@, i, j, det@).unwrap() by {
                let u = i * 3 + j;
                assert(u / 3 == i && u % 3 == j) by (nonlinear_arith)
                    requires
                        u == i * 3 + j,
                        0 <= i < 3,
                        0 <= j < 3,
                ;
                assert(ent(m@, i, j) == e@[u]@);
            }
            assert(!inv3_overflow(self@));
        }
        Ok(m)
    }
}

/// The model product matrix: entry `(i, j)` is the checked dot product of
/// row `i` of `a` with column `j` of `b`.  Meaningful when `mul_ok(a, b)`.
pub open spec fn mat_mul_v(a: MatV, b: MatV) -> MatV {
    MatV {
        rows: a.rows,
        cols: b.cols,
        e: Seq::new(
            (a.rows * b.cols) as nat,
            |t: int| dot_at(a, b, t / b.cols, t % b.cols, a.cols as nat).unwrap(),
        ),
    }
}

/// The model entrywise sum.  Meaningful when `add_ok(a, b)`.
pub open spec fn mat_add_v(a: MatV, b: MatV) -> MatV {
    MatV { rows: a.rows, cols: a.cols, e: Seq::new(a.e.len(), |t: int| add_at(a, b, t).unwrap()) }
}

/// The model entrywise difference.  Meaningful when `sub_ok(a, b)`.
pub open spec fn mat_sub_v(a: MatV, b: MatV) -> MatV {
    MatV { rows: a.rows, cols: a.cols, e: Seq::new(a.e.len(), |t: int| sub_at(a, b, t).unwrap()) }
}

/// The model scalar product.  Meaningful when `scale_ok(m, s)`.
pub open spec fn mat_scale_v(m: MatV, s: Frac) -> MatV {
    MatV { rows: m.rows, cols: m.cols, e: Seq::new(m.e.len(), |t: int| scale_at(m, s, t).unwrap()) }
}

/// The model transpose.
pub open spec fn mat_transpose_v(m: MatV) -> MatV {
    MatV {
        rows: m.cols,
        cols: m.rows,
        e: Seq::new((m.rows * m.cols) as nat, |t: int| ent(m, t % m.rows, t / m.rows)),
    }
}

/// The model inverse of a 3-by-3 matrix.  Meaningful when neither
/// `singular3(m)` nor `inv3_overflow(m)` holds.
pub open spec fn mat_inv3_v(m: MatV) -> MatV {
    MatV {
        rows: 3,
        cols: 3,
        e: Seq::new(9, |t: int| inv3_at(m, t / 3, t % 3, det3_at(m).unwrap()).unwrap()),
    }
}

/// An entrywise description pins the sum matrix.
pub proof fn lemma_is_add(m: MatV, a: MatV, b: MatV)
    requires
        m.rows == a.rows,
        m.cols == a.cols,
        m.e.len() == a.e.len(),
        forall|t: int| 0 <= t < m.e.len() ==> #[trigger] m.e[t] == add_at(a, b, t).unwrap(),
    ensures
        m == mat_add_v(a, b),
{
    assert(m.e =~= mat_add_v(a, b).e);
    assert(m =~= mat_add_v(a, b));
}

/// An entrywise description pins the difference matrix.
pub proof fn lemma_is_sub(m: MatV, a: MatV, b: MatV)
    requires
        m.rows == a.rows,
        m.cols == a.cols,
        m.e.len() == a.e.len(),
        forall|t: int| 0 <= t < m.e.len() ==> #[trigger] m.e[t] == sub_at(a, b, t).unwrap(),
    ensures
        m == mat_sub_v(a, b),
{
    assert(m.e =~= mat_sub_v(a, b).e);
    assert(m =~= mat_sub_v(a, b));
}

/// An entrywise description pins the scaled matrix.
pub proof fn lemma_is_scale(m: MatV, a: MatV, s: Frac)
    requires
        m.rows == a.rows,
        m.cols == a.cols,
        m.e.len() == a.e.len(),
        forall|t: int| 0 <= t < m.e.len() ==> #[trigger] m.e[t] == scale_at(a, s, t).unwrap(),
    ensures
        m == mat_scale_v(a, s),
{
    assert(m.e =~= mat_scale_v(a, s).e);
    assert(m =~= mat_scale_v(a, s));
}

/// An entrywise description in row-column form pins the product matrix.
pub proof fn lemma_is_mul(m: MatV, a: MatV, b: MatV)
    requires
        m.rows == a.rows,
        m.cols == b.cols,
        a.cols == b.rows,
        1 <= b.cols,
        m.e.len() == m.rows * m.cols,
        forall|i: int, j: int|
            0 <= i < a.rows && 0 <= j < b.cols ==> #[trigger] ent(m, i, j) == dot_at(
                a,
                b,
                i,
                j,
                a.cols as nat,
            ).unwrap(),
    ensures
        m == mat_mul_v(a, b),
{
    assert forall|t: int| 0 <= t < m.e.len() implies #[trigger] m.e[t] == mat_mul_v(a, b).e[t] by {
        let i = t / b.cols;
        let j = t % b.cols;
        vstd::arithmetic::div_mod::lemma_fundamental_div_mod(t, b.cols);
        assert(t == i * b.cols + j) by (nonlinear_arith)
            requires
                t == b.cols * i + j,
        ;
        assert(0 <= i < m.rows) by (nonlinear_arith)
            requires
                t == i * b.cols + j,
                0 <= t < m.rows * b.cols,
                0 <= j < b.cols,
                1 <= b.cols,
        ;
        assert(ent(m, i, j) == m.e[t]);
    }
    assert(m.e =~= mat_mul_v(a, b).e);
    assert(m =~= mat_mul_v(a, b));
}

/// An entrywise description in row-column form pins the transpose.
pub proof fn lemma_is_transpose(m: MatV, a: MatV)
    requires
        m.rows == a.cols,
        m.cols == a.rows,
        1 <= a.rows,
        m.e.len() == m.rows * m.cols,
        forall|i: int, j: int|
            0 <= i < a.cols && 0 <= j < a.rows ==> #[trigger] ent(m, i, j) == ent(a, j, i),
    ensures
        m == mat_transpose_v(a),
{
    assert(mat_transpose_v(a).e.len() == a.rows * a.cols);
    assert(m.e.len() == a.cols * a.rows);
    assert(a.cols * a.rows == a.rows * a.cols) by (nonlinear_arith);
    assert forall|t: int| 0 <= t < m.e.len() implies #[trigger] m.e[t] == mat_transpose_v(
        a,
    ).e[t] by {
        let i = t / a.rows;
        let j = t % a.rows;
        vstd::arithmetic::div_mod::lemma_fundamental_div_mod(t, a.rows);
        assert(t == i * a.rows + j) by (nonlinear_arith)
            requires
                t == a.rows * i + j,
        ;
        assert(0 <= i < a.cols) by (nonlinear_arith)
            requires
                t == i * a.rows + j,
                0 <= t < a.cols * a.rows,
                0 <= j < a.rows,
                1 <= a.rows,
        ;
        assert(ent(m, i, j) == m.e[t]);
        assert(m.e[t] == ent(a, j, i));
    }
    assert(m.e =~= mat_transpose_v(a).e);
    assert(m =~= mat_transpose_v(a));
}

/// An entrywise description pins the 3-by-3 inverse.
pub proof fn lemma_is_inv3(m: MatV, a: MatV)
    requires
        m.rows == 3,
        m.cols == 3,
        m.e.len() == 9,
        det3_at(a).is_some(),
        forall|i: int, j: int|
            0 <= i < 3 && 0 <= j < 3 ==> #[trigger] ent(m, i, j) == inv3_at(
                a,
                i,
                j,
                det3_at(a).unwrap(),
            ).unwrap(),
    ensures
        m == mat_inv3_v(a),
{
    assert forall|t: int| 0 <= t < 9 implies #[trigger] m.e[t] == mat_inv3_v(a).e[t] by {
        let i = t / 3;
        let j = t % 3;
        assert(ent(m, i, j) == m.e[t]);
    }
    assert(m.e =~= mat_inv3_v(a).e);
    assert(m =~= mat_inv3_v(a));
}

/// Once a partial dot product has failed, every longer prefix fails too.
proof fn lemma_dot_none_propagates(a: MatV, b: MatV, i: int, j: int, k1: nat, k2: nat)
    requires
        dot_at(a, b, i, j, k1).is_none(),
        k1 <= k2,
    ensures
        dot_at(a, b, i, j, k2).is_none(),
    decreases k2 - k1,
{
    if k1 < k2 {
        lemma_dot_none_propagates(a, b, i, j, k1, (k2 - 1) as nat);
    }
}

/// The exact (unreduced) dot product of row `i` of `a` with column `j` of
/// `b`, over the first `k` terms.
pub open spec fn ideal_dot(a: MatV, b: MatV, i: int, j: int, k: nat) -> Frac
    decreases k,
{
    if k == 0 {
        frac_int(0)
    } else {
        frac_add(ideal_dot(a, b, i, j, (k - 1) as nat), frac_mul(ent(a, i, k - 1), ent(b, k - 1, j)))
    }
}

/// All entries touched by a `k`-term dot product have positive denominators.
pub open spec fn dot_row_wf(a: MatV, b: MatV, i: int, j: int, k: nat) -> bool {
    forall|t: int| 0 <= t < k ==> ent(a, i, t).d >= 1 && ent(b, t, j).d >= 1
}

/// The exact dot product keeps a positive denominator.
pub proof fn lemma_ideal_dot_den(a: MatV, b: MatV, i: int, j: int, k: nat)
    requires
        dot_row_wf(a, b, i, j, k),
    ensures
        ideal_dot(a, b, i, j, k).d >= 1,
    decreases k,
{
    if k > 0 {
        lemma_ideal_dot_den(a, b, i, j, (k - 1) as nat);
        let acc = ideal_dot(a, b, i, j, (k - 1) as nat);
        let p = frac_mul(ent(a, i, k - 1), ent(b, k - 1, j));
        assert(p.d >= 1) by (nonlinear_arith)
            requires
                ent(a, i, k - 1).d >= 1,
                ent(b, k - 1, j).d >= 1,
                p.d == ent(a, i, k - 1).d * ent(b, k - 1, j).d,
        ;
        assert(frac_add(acc, p).d >= 1) by (nonlinear_arith)
            requires
                acc.d >= 1,
                p.d >= 1,
                frac_add(acc, p).d == acc.d * p.d,
        ;
    }
}

/// A successful checked dot product equals the exact one in value.
pub proof fn lemma_dot_sound(a: MatV, b: MatV, i: int, j: int, k: nat)
    requires
        dot_row_wf(a, b, i, j, k),
        dot_at(a, b, i, j, k).is_some(),
    ensures
        frac_wf(dot_at(a, b, i, j, k).unwrap()),
        frac_eq(dot_at(a, b, i, j, k).unwrap(), ideal_dot(a, b, i, j, k)),
    decreases k,
{
    if k == 0 {
    } else {
        lemma_dot_none_propagates_rev(a, b, i, j, (k - 1) as nat, k);
        lemma_dot_sound(a, b, i, j, (k - 1) as nat);
        lemma_ideal_dot_den(a, b, i, j, (k - 1) as nat);
        let acc = dot_at(a, b, i, j, (k - 1) as nat).unwrap();
        let av = ent(a, i, k - 1);
        let bv = ent(b, k - 1, j);
        let p = frac_mul(av, bv);
        assert(p.d >= 1) by (nonlinear_arith)
            requires
                av.d >= 1,
                bv.d >= 1,
                p.d == av.d * bv.d,
        ;
        let pc = frac_checked(p).unwrap();
        crate::frac::lemma_checked_sound(p);
        let sum = frac_add(acc, pc);
        assert(sum.d >= 1) by (nonlinear_arith)
            requires
                acc.d >= 1,
                pc.d >= 1,
                sum.d == acc.d * pc.d,
        ;
        crate::frac::lemma_checked_sound(sum);
        // The checked sum equals the sum of the exact accumulator and term.
        crate::frac::lemma_add_congruence(
            acc,
            ideal_dot(a, b, i, j, (k - 1) as nat),
            pc,
            p,
        );
        let idl = frac_add(ideal_dot(a, b, i, j, (k - 1) as nat), p);
        assert(idl.d >= 1) by (nonlinear_arith)
            requires
                ideal_dot(a, b, i, j, (k - 1) as nat).d >= 1,
                p.d >= 1,
                idl.d == ideal_dot(a, b, i, j, (k - 1) as nat).d * p.d,
        ;
        crate::frac::lemma_eq_trans(dot_at(a, b, i, j, k).unwrap(), sum, idl);
    }
}

/// A successful longer prefix means every shorter prefix succeeded.
pub proof fn lemma_dot_none_propagates_rev(a: MatV, b: MatV, i: int, j: int, k1: nat, k2: nat)
    requires
        k1 <= k2,
        dot_at(a, b, i, j, k2).is_some(),
    ensures
        dot_at(a, b, i, j, k1).is_some(),
{
    if dot_at(a, b, i, j, k1).is_none() {
        lemma_dot_none_propagates(a, b, i, j, k1, k2);
    }
}

/// When a column is zero everywhere, the exact dot product is zero.
pub proof fn lemma_ideal_dot_zero_col(a: MatV, b: MatV, i: int, j: int, k: nat)
    requires
        dot_row_wf(a, b, i, j, k),
        forall|t: int| 0 <= t < k ==> frac_eq(#[trigger] ent(b, t, j), frac_int(0)),
    ensures
        frac_eq(ideal_dot(a, b, i, j, k), frac_int(0)),
    decreases k,
{
    if k > 0 {
        lemma_ideal_dot_zero_col(a, b, i, j, (k - 1) as nat);
        lemma_ideal_dot_den(a, b, i, j, (k - 1) as nat);
        let acc = ideal_dot(a, b, i, j, (k - 1) as nat);
        let bv = ent(b, k - 1, j);
        let p = frac_mul(ent(a, i, k - 1), bv);
        crate::frac::lemma_mul_zero(bv, ent(a, i, k - 1));
        assert(frac_eq(p, frac_int(0)));
        assert(p.d >= 1) by (nonlinear_arith)
            requires
                ent(a, i, k - 1).d >= 1,
                bv.d >= 1,
                p.d == ent(a, i, k - 1).d * bv.d,
        ;
        assert(p.n == 0);
        crate::frac::lemma_add_zero(acc, p);
        crate::frac::lemma_eq_trans(ideal_dot(a, b, i, j, k), acc, frac_int(0));
    }
}

/// When a row is zero except at up to two columns `p < q`, the exact dot
/// product is the sum of the two surviving terms.
pub proof fn lemma_ideal_dot_two(a: MatV, b: MatV, i: int, j: int, p: int, q: int, k: nat)
    requires
        dot_row_wf(a, b, i, j, k),
        0 <= p < q,
        forall|t: int|
            0 <= t < k && t != p && t != q ==> frac_eq(#[trigger] ent(a, i, t), frac_int(0)),
    ensures
        k <= p ==> frac_eq(ideal_dot(a, b, i, j, k), frac_int(0)),
        p < k <= q ==> frac_eq(
            ideal_dot(a, b, i, j, k),
            frac_mul(ent(a, i, p), ent(b, p, j)),
        ),
        q < k ==> frac_eq(
            ideal_dot(a, b, i, j, k),
            frac_add(frac_mul(ent(a, i, p), ent(b, p, j)), frac_mul(ent(a, i, q), ent(b, q, j))),
        ),
    decreases k,
{
    if k > 0 {
        lemma_ideal_dot_two(a, b, i, j, p, q, (k - 1) as nat);
        lemma_ideal_dot_den(a, b, i, j, (k - 1) as nat);
        let acc = ideal_dot(a, b, i, j, (k - 1) as nat);
        let av = ent(a, i, k - 1);
        let bv = ent(b, k - 1, j);
        let term = frac_mul(av, bv);
        let tp = frac_mul(ent(a, i, p), ent(b, p, j));
        let tq = frac_mul(ent(a, i, q), ent(b, q, j));
        assert(term.d >= 1 && (p < k ==> tp.d >= 1) && (q < k ==> tq.d >= 1)) by (nonlinear_arith)
            requires
                av.d >= 1,
                bv.d >= 1,
                term.d == av.d * bv.d,
                p < k ==> ent(a, i, p).d >= 1 && ent(b, p, j).d >= 1,
                q < k ==> ent(a, i, q).d >= 1 && ent(b, q, j).d >= 1,
                tp.d == ent(a, i, p).d * ent(b, p, j).d,
                tq.d == ent(a, i, q).d * ent(b, q, j).d,
        ;
        if k - 1 < p {
            // Still before the first surviving column: the new term vanishes.
            crate::frac::lemma_mul_zero(av, bv);
            assert(term.n == 0);
            crate::frac::lemma_add_zero(acc, term);
            crate::frac::lemma_eq_trans(ideal_dot(a, b, i, j, k), acc, frac_int(0));
        } else if k - 1 == p {
            // The first surviving term arrives on an accumulator equal zero.
            assert(acc.n == 0);
            crate::frac::lemma_add_zero(term, acc);
            assert(frac_eq(frac_add(acc, term), term)) by (nonlinear_arith)
                requires
                    frac_eq(frac_add(term, acc), term),
                    frac_add(acc, term).n == acc.n * term.d + term.n * acc.d,
                    frac_add(term, acc).n == term.n * acc.d + acc.n * term.d,
                    frac_add(acc, term).d == acc.d * term.d,
                    frac_add(term, acc).d == term.d * acc.d,
            ;
        } else if k - 1 < q {
            // Between the surviving columns: the new term vanishes.
            crate::frac::lemma_mul_zero(av, bv);
            assert(term.n == 0);
            crate::frac::lemma_add_zero(acc, term);
            crate::frac::lemma_eq_trans(ideal_dot(a, b, i, j, k), acc, tp);
        } else if k - 1 == q {
            // The second surviving term arrives.
            crate::frac::lemma_add_congruence(acc, tp, term, term);
            assert(frac_add(tp, term).d >= 1) by (nonlinear_arith)
                requires
                    tp.d >= 1,
                    term.d >= 1,
                    frac_add(tp, term).d == tp.d * term.d,
            ;
            crate::frac::lemma_eq_trans(
                ideal_dot(a, b, i, j, k),
                frac_add(tp, term),
                frac_add(tp, tq),
            );
        } else {
            // Past both surviving columns: the new term vanishes.
            crate::frac::lemma_mul_zero(av, bv);
            assert(term.n == 0);
            crate::frac::lemma_add_zero(acc, term);
            crate::frac::lemma_eq_trans(ideal_dot(a, b, i, j, k), acc, frac_add(tp, tq));
        }
    }
}

/// Entries of a well-formed matrix are well-formed fractions.
pub proof fn lemma_ent_wf(m: MatV, i: int, j: int)
    requires
        mat_wf(m),
        0 <= i < m.rows,
        0 <= j < m.cols,
    ensures
        frac_wf(ent(m, i, j)),
{
    lemma_flat_index(m, i, j);
}

/// A successful checked dot product is a well-formed fraction.
pub proof fn lemma_dot_at_wf(a: MatV, b: MatV, i: int, j: int, k: nat)
    requires
        dot_at(a, b, i, j, k).is_some(),
    ensures
        frac_wf(dot_at(a, b, i, j, k).unwrap()),
{
}

/// A successful checked sum entry is a well-formed fraction.
pub proof fn lemma_add_at_wf(a: MatV, b: MatV, t: int)
    requires
        add_at(a, b, t).is_some(),
    ensures
        frac_wf(add_at(a, b, t).unwrap()),
{
}

/// A successful checked difference entry is a well-formed fraction.
pub proof fn lemma_sub_at_wf(a: MatV, b: MatV, t: int)
    requires
        sub_at(a, b, t).is_some(),
    ensures
        frac_wf(sub_at(a, b, t).unwrap()),
{
}

/// A flat row-major index stays inside the entry sequence.
proof fn lemma_flat_index(m: MatV, i: int, j: int)
    requires
        1 <= m.cols,
        m.e.len() == m.rows * m.cols,
        0 <= i < m.rows,
        0 <= j < m.cols,
    ensures
        0 <= i * m.cols + j < m.e.len(),
{
    assert(0 <= i * m.cols + j && (i * m.cols + j) < m.rows * m.cols) by (nonlinear_arith)
        requires
            0 <= i < m.rows,
            0 <= j < m.cols,
            1 <= m.cols,
    ;
}

/// Distinct coordinates map to distinct flat indices.
proof fn lemma_flat_index_injective(m: MatV, a: int, b: int, i: int, j: int)
    requires
        1 <= m.cols,
        0 <= a < m.rows,
        0 <= b < m.cols,
        0 <= i < m.rows,
        0 <= j < m.cols,
        !(a == i && b == j),
    ensures
        a * m.cols + b != i * m.cols + j,
{
    assert(a * m.cols + b != i * m.cols + j) by (nonlinear_arith)
        requires
            0 <= a < m.rows,
            0 <= b < m.cols,
            0 <= i < m.rows,
            0 <= j < m.cols,
            !(a == i && b == j),
            1 <= m.cols,
    ;
}

} // verus!
