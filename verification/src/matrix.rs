use vstd::prelude::*;

use crate::frac::{
    frac_add, frac_div, frac_eq, frac_from_int, frac_is_one, frac_is_zero, frac_mul, frac_neg,
    frac_recip, lemma_frac_eq_one, lemma_frac_eq_zero, lemma_frac_mul_recip_one, Frac,
};
use crate::order::{lead_le, lead_lt, row_le};
use crate::rat::{
    rat_add, rat_clone, rat_div, rat_from_i64, rat_is_one, rat_is_zero, rat_model, rat_mul,
    rat_neg, rat_recip, rat_wf,
};

verus! {

/// The exact rational scalar the matrix engine works over.
pub type Rational = num_rational::BigRational;

/// The recoverable failures of row and matrix arithmetic: the shapes of the
/// two operands do not fit together. Each variant carries the two numbers
/// that disagreed.
#[derive(Clone, Copy, Debug, PartialEq, Eq, Structural)]
pub enum DimensionMismatch {
    /// Row addition of rows of different sizes.
    RowSize(usize, usize),
    /// Matrix addition of matrices of different heights.
    Heights(usize, usize),
    /// Matrix addition of matrices of different widths.
    Widths(usize, usize),
    /// Multiplication of an empty matrix with a non-empty one.
    MulEmpty,
    /// Multiplication where the left width does not meet the right height.
    MulShape(usize, usize),
}

/// Every entry of the row carries a positive denominator.
pub open spec fn row_wf(s: Seq<Rational>) -> bool {
    forall|i: int| 0 <= i < s.len() ==> rat_wf(#[trigger] s[i])
}

/// The first `k` entries of the row are exactly zero.
pub open spec fn zero_prefix(s: Seq<Rational>, k: int) -> bool {
    forall|j: int| 0 <= j < k ==> frac_is_zero(rat_model(#[trigger] s[j]))
}

/// Every entry of the row is exactly zero (vacuously true of an empty row).
pub open spec fn row_all_zero(s: Seq<Rational>) -> bool {
    zero_prefix(s, s.len() as int)
}

/// Index `i` is the row's leader column: its first nonzero entry.
pub open spec fn row_leader_at(s: Seq<Rational>, i: int) -> bool {
    &&& 0 <= i < s.len()
    &&& !frac_is_zero(rat_model(s[i]))
    &&& zero_prefix(s, i)
}

/// A row vector (in the linear algebra sense) of rational numbers.
#[derive(Clone, Debug, PartialEq)]
pub struct RowVec {
    entries: Vec<Rational>,
}

impl View for RowVec {
    type V = Seq<Rational>;

    closed spec fn view(&self) -> Seq<Rational> {
        self.entries@
    }
}

impl RowVec {
    /// Wraps a vector of rationals as a row.
    pub fn new(v: Vec<Rational>) -> (r: RowVec)
        requires
            row_wf(v@),
        ensures
            r@ == v@,
    {
        RowVec { entries: v }
    }

    /// A row of `len` exact zeros.
    pub fn zeros(len: usize) -> (r: RowVec)
        ensures
            r@.len() == len,
            forall|i: int| 0 <= i < len ==> rat_model(#[trigger] r@[i]) == frac_from_int(0),
            row_wf(r@),
    {
        let mut v: Vec<Rational> = Vec::new();
        let mut i: usize = 0;
        while i < len
            invariant
                i <= len,
                v@.len() == i,
                forall|j: int| 0 <= j < i ==> rat_model(#[trigger] v@[j]) == frac_from_int(0),
                row_wf(v@),
            decreases len - i,
        {
            v.push(rat_from_i64(0));
            i = i + 1;
        }
        RowVec { entries: v }
    }

    /// A row converting each integer to the exact rational over denominator one.
    pub fn from_int_vec(v: Vec<i64>) -> (r: RowVec)
        ensures
            r@.len() == v@.len(),
            forall|i: int|
                0 <= i < v@.len() ==> rat_model(#[trigger] r@[i]) == frac_from_int(v@[i] as int),
            row_wf(r@),
    {
        let mut out: Vec<Rational> = Vec::new();
        let mut i: usize = 0;
        while i < v.len()
            invariant
                i <= v@.len(),
                out@.len() == i,
                forall|j: int|
                    0 <= j < i ==> rat_model(#[trigger] out@[j]) == frac_from_int(v@[j] as int),
                row_wf(out@),
            decreases v@.len() - i,
        {
            out.push(rat_from_i64(v[i]));
            i = i + 1;
        }
        RowVec { entries: out }
    }

    /// The zero-length row.
    pub fn empty() -> (r: RowVec)
        ensures
            r@.len() == 0,
    {
        RowVec { entries: Vec::new() }
    }

    /// How many entries the row has.
    pub fn len(&self) -> (r: usize)
        ensures
            r == self@.len(),
    {
        self.entries.len()
    }

    /// A reference to the entry at column `i`.
    pub fn entry(&self, i: usize) -> (r: &Rational)
        requires
            i < self@.len(),
        ensures
            *r == self@[i as int],
    {
        &self.entries[i]
    }

    /// Replaces the entry at column `i`.
    pub fn set_entry(&mut self, i: usize, v: Rational)
        requires
            i < old(self)@.len(),
        ensures
            final(self)@ == old(self)@.update(i as int, v),
    {
        self.entries[i] = v;
    }

    /// A deep copy of the row; every entry keeps its numerator and denominator.
    pub fn duplicate(&self) -> (r: RowVec)
        ensures
            r@.len() == self@.len(),
            forall|i: int|
                0 <= i < self@.len() ==> rat_model(#[trigger] r@[i]) == rat_model(self@[i]),
    {
        let mut out: Vec<Rational> = Vec::new();
        let mut i: usize = 0;
        while i < self.entries.len()
            invariant
                i <= self@.len(),
                out@.len() == i,
                forall|j: int| 0 <= j < i ==> rat_model(#[trigger] out@[j]) == rat_model(self@[j]),
            decreases self@.len() - i,
        {
            out.push(rat_clone(&self.entries[i]));
            i = i + 1;
        }
        RowVec { entries: out }
    }

    /// Element-wise addition in place. Fails, and leaves the row untouched,
    /// when the two rows have different sizes.
    pub fn add_assign(&mut self, rhs: &RowVec) -> (r: Result<(), DimensionMismatch>)
        requires
            row_wf(old(self)@),
            row_wf(rhs@),
        ensures
            final(self)@.len() == old(self)@.len(),
            row_wf(final(self)@),
            match r {
                Ok(()) => {
                    &&& old(self)@.len() == rhs@.len()
                    &&& forall|i: int|
                        0 <= i < final(self)@.len() ==> frac_eq(
                            rat_model(#[trigger] final(self)@[i]),
                            frac_add(rat_model(old(self)@[i]), rat_model(rhs@[i])),
                        )
                },
                Err(e) => {
                    &&& old(self)@.len() != rhs@.len()
                    &&& e == DimensionMismatch::RowSize(old(self)@.len() as usize, rhs@.len() as usize)
                    &&& final(self)@ == old(self)@
                },
            },
    {
        if self.entries.len() != rhs.entries.len() {
            return Err(DimensionMismatch::RowSize(self.entries.len(), rhs.entries.len()));
        }
        let mut i: usize = 0;
        while i < self.entries.len()
            invariant
                self@.len() == old(self)@.len(),
                self@.len() == rhs@.len(),
                i <= self@.len(),
                row_wf(old(self)@),
                row_wf(rhs@),
                row_wf(self@),
                forall|j: int|
                    i <= j < self@.len() ==> #[trigger] self@[j] == old(self)@[j],
                forall|j: int|
                    0 <= j < i ==> frac_eq(
                        rat_model(#[trigger] self@[j]),
                        frac_add(rat_model(old(self)@[j]), rat_model(rhs@[j])),
                    ),
            decreases self@.len() - i,
        {
            let x = rat_add(&self.entries[i], &rhs.entries[i]);
            self.entries[i] = x;
            i = i + 1;
        }
        Ok(())
    }

    /// Element-wise addition into a fresh row; the same failure as `add_assign`.
    pub fn add(&self, rhs: &RowVec) -> (r: Result<RowVec, DimensionMismatch>)
        requires
            row_wf(self@),
            row_wf(rhs@),
        ensures
            match r {
                Ok(out) => {
                    &&& self@.len() == rhs@.len()
                    &&& out@.len() == self@.len()
                    &&& row_wf(out@)
                    &&& forall|i: int|
                        0 <= i < out@.len() ==> frac_eq(
                            rat_model(#[trigger] out@[i]),
                            frac_add(rat_model(self@[i]), rat_model(rhs@[i])),
                        )
                },
                Err(e) => {
                    &&& self@.len() != rhs@.len()
                    &&& e == DimensionMismatch::RowSize(self@.len() as usize, rhs@.len() as usize)
                },
            },
    {
        let mut out = self.duplicate();
        proof {
            assert(forall|i: int| 0 <= i < out@.len() ==> rat_wf(#[trigger] out@[i]));
        }
        match out.add_assign(rhs) {
            Ok(()) => Ok(out),
            Err(e) => Err(e),
        }
    }

    /// Multiplies every entry by `factor` in place; always succeeds.
    pub fn scalar_mul_assign(&mut self, factor: &Rational)
        requires
            row_wf(old(self)@),
            rat_wf(*factor),
        ensures
            final(self)@.len() == old(self)@.len(),
            row_wf(final(self)@),
            forall|i: int|
                0 <= i < final(self)@.len() ==> frac_eq(
                    rat_model(#[trigger] final(self)@[i]),
                    frac_mul(rat_model(old(self)@[i]), rat_model(*factor)),
                ),
    {
        let mut i: usize = 0;
        while i < self.entries.len()
            invariant
                self@.len() == old(self)@.len(),
                i <= self@.len(),
                row_wf(old(self)@),
                rat_wf(*factor),
                row_wf(self@),
                forall|j: int|
                    i <= j < self@.len() ==> #[trigger] self@[j] == old(self)@[j],
                forall|j: int|
                    0 <= j < i ==> frac_eq(
                        rat_model(#[trigger] self@[j]),
                        frac_mul(rat_model(old(self)@[j]), rat_model(*factor)),
                    ),
            decreases self@.len() - i,
        {
            let x = rat_mul(&self.entries[i], factor);
            self.entries[i] = x;
            i = i + 1;
        }
    }

    /// Multiplies every entry by `factor` into a fresh row.
    pub fn scalar_mul(&self, factor: &Rational) -> (r: RowVec)
        requires
            row_wf(self@),
            rat_wf(*factor),
        ensures
            r@.len() == self@.len(),
            row_wf(r@),
            forall|i: int|
                0 <= i < r@.len() ==> frac_eq(
                    rat_model(#[trigger] r@[i]),
                    frac_mul(rat_model(self@[i]), rat_model(*factor)),
                ),
    {
        let mut out = self.duplicate();
        out.scalar_mul_assign(factor);
        out
    }

    /// True iff every entry is exactly zero; stops scanning at the first
    /// nonzero entry.
    pub fn is_zeros(&self) -> (r: bool)
        ensures
            r == row_all_zero(self@),
    {
        let mut i: usize = 0;
        while i < self.entries.len()
            invariant
                i <= self@.len(),
                zero_prefix(self@, i as int),
            decreases self@.len() - i,
        {
            if !rat_is_zero(&self.entries[i]) {
                return false;
            }
            i = i + 1;
        }
        true
    }

    /// The column of the first nonzero entry, or `None` for an all-zero or
    /// empty row.
    pub fn leader_col(&self) -> (r: Option<usize>)
        ensures
            match r {
                Some(i) => row_leader_at(self@, i as int),
                None => row_all_zero(self@),
            },
    {
        let mut i: usize = 0;
        while i < self.entries.len()
            invariant
                i <= self@.len(),
                zero_prefix(self@, i as int),
            decreases self@.len() - i,
        {
            if !rat_is_zero(&self.entries[i]) {
                return Some(i);
            }
            i = i + 1;
        }
        None
    }

    /// Scales the row by the reciprocal of its leader, making the leader
    /// exactly one; a no-op on all-zero or empty rows and on rows whose
    /// leader is already one.
    pub fn normalize(&mut self)
        requires
            row_wf(old(self)@),
        ensures
            final(self)@.len() == old(self)@.len(),
            row_wf(final(self)@),
            row_all_zero(old(self)@) ==> *final(self) == *old(self),
            forall|i: int|
                row_leader_at(old(self)@, i) && frac_is_one(rat_model(old(self)@[i]))
                    ==> *final(self) == *old(self),
            forall|k: int|
                0 <= k < final(self)@.len() && frac_is_zero(rat_model(old(self)@[k]))
                    ==> frac_is_zero(rat_model(#[trigger] final(self)@[k])),
            forall|i: int|
                row_leader_at(old(self)@, i) ==> {
                    &&& row_leader_at(final(self)@, i)
                    &&& frac_is_one(rat_model(final(self)@[i]))
                    &&& forall|k: int|
                        0 <= k < final(self)@.len() ==> frac_eq(
                            rat_model(#[trigger] final(self)@[k]),
                            frac_mul(
                                rat_model(old(self)@[k]),
                                frac_recip(rat_model(old(self)@[i])),
                            ),
                        )
                },
    {
        let lc = self.leader_col();
        match lc {
            None => {},
            Some(i) => {
                proof {
                    assert(row_leader_at(self@, i as int));
                }
                if !rat_is_one(self.entry(i)) {
                    let ghost prev = self@;
                    let ghost lead = rat_model(self@[i as int]);
                    let factor = rat_recip(self.entry(i));
                    self.scalar_mul_assign(&factor);
                    proof {
                        lemma_normalize_scaled(prev, self@, lead, rat_model(factor), i as int);
                    }
                } else {
                    proof {
                        lemma_normalize_noop(self@, i as int);
                    }
                }
            },
        }
    }
}

/// After scaling a row by (a value equal to) the reciprocal of its leader,
/// the leader is still in place and is exactly one.
proof fn lemma_normalize_scaled(
    prev: Seq<Rational>,
    cur: Seq<Rational>,
    lead: Frac,
    factor: Frac,
    i: int,
)
    requires
        prev.len() == cur.len(),
        row_wf(prev),
        row_wf(cur),
        row_leader_at(prev, i),
        lead == rat_model(prev[i]),
        factor.d > 0,
        frac_eq(factor, frac_recip(lead)),
        forall|k: int|
            0 <= k < cur.len() ==> frac_eq(
                rat_model(#[trigger] cur[k]),
                frac_mul(rat_model(prev[k]), factor),
            ),
    ensures
        row_leader_at(cur, i),
        frac_is_one(rat_model(cur[i])),
        forall|k: int|
            0 <= k < cur.len() ==> frac_eq(
                rat_model(#[trigger] cur[k]),
                frac_mul(rat_model(prev[k]), frac_recip(lead)),
            ),
        forall|k: int|
            0 <= k < cur.len() && frac_is_zero(rat_model(prev[k])) ==> frac_is_zero(
                rat_model(#[trigger] cur[k]),
            ),
{
    assert forall|k: int| 0 <= k < cur.len() implies frac_eq(
        rat_model(#[trigger] cur[k]),
        frac_mul(rat_model(prev[k]), frac_recip(lead)),
    ) by {
        crate::frac::lemma_frac_mul_congr_right(rat_model(prev[k]), factor, frac_recip(lead));
        assert(frac_mul(rat_model(prev[k]), factor).d != 0) by (nonlinear_arith)
            requires
                rat_model(prev[k]).d > 0,
                factor.d > 0,
        ;
        crate::frac::lemma_frac_eq_trans(
            rat_model(cur[k]),
            frac_mul(rat_model(prev[k]), factor),
            frac_mul(rat_model(prev[k]), frac_recip(lead)),
        );
    }
    // the scaled leader is one
    let one_ish = frac_mul(lead, frac_recip(lead));
    assert(frac_is_one(one_ish) && one_ish.d != 0) by (nonlinear_arith)
        requires
            one_ish == frac_mul(lead, frac_recip(lead)),
            lead.n != 0,
            lead.d > 0,
    ;
    lemma_frac_eq_one(rat_model(cur[i]), one_ish);
    // zero entries stay zero, in particular the whole prefix before the leader
    assert forall|j: int| 0 <= j < cur.len() && frac_is_zero(rat_model(prev[j])) implies frac_is_zero(
        rat_model(#[trigger] cur[j]),
    ) by {
        let scaled = frac_mul(rat_model(prev[j]), frac_recip(lead));
        assert(frac_is_zero(scaled));
        assert(scaled.d != 0) by (nonlinear_arith)
            requires
                scaled.d == rat_model(prev[j]).d * lead.n,
                rat_model(prev[j]).d > 0,
                lead.n != 0,
        ;
        lemma_frac_eq_zero(rat_model(cur[j]), scaled);
    }
}

/// A row whose leader is already one keeps every claim of `normalize`
/// without being touched.
proof fn lemma_normalize_noop(cur: Seq<Rational>, i: int)
    requires
        row_wf(cur),
        row_leader_at(cur, i),
        frac_is_one(rat_model(cur[i])),
    ensures
        forall|k: int|
            0 <= k < cur.len() ==> frac_eq(
                rat_model(#[trigger] cur[k]),
                frac_mul(rat_model(cur[k]), frac_recip(rat_model(cur[i]))),
            ),
{
    assert forall|k: int| 0 <= k < cur.len() implies frac_eq(
        rat_model(#[trigger] cur[k]),
        frac_mul(rat_model(cur[k]), frac_recip(rat_model(cur[i]))),
    ) by {
        lemma_frac_mul_recip_one(rat_model(cur[k]), rat_model(cur[i]));
    }
}


/// Every row of the matrix has the same length and well-formed entries.
pub open spec fn mat_wf(m: Seq<RowVec>) -> bool {
    forall|i: int| 0 <= i < m.len() ==> (row_wf(#[trigger] m[i]@) && m[i]@.len() == mat_width(m))
}

/// The common row length; zero for a matrix with no rows.
pub open spec fn mat_width(m: Seq<RowVec>) -> int {
    if m.len() == 0 {
        0
    } else {
        m[0]@.len() as int
    }
}

/// A matrix (in the linear algebra sense) of rational numbers.
#[derive(Clone, Debug, PartialEq)]
pub struct Matrix {
    rows: Vec<RowVec>,
}

impl View for Matrix {
    type V = Seq<RowVec>;

    closed spec fn view(&self) -> Seq<RowVec> {
        self.rows@
    }
}

impl Matrix {
    /// Builds a matrix from raw rational data. The caller answers for the
    /// shape: every row must have the same length.
    pub fn new(m: Vec<Vec<Rational>>) -> (r: Matrix)
        requires
            forall|i: int| 0 <= i < m@.len() ==> row_wf(#[trigger] m@[i]@),
            forall|i: int| 0 <= i < m@.len() ==> #[trigger] m@[i]@.len() == m@[0]@.len(),
        ensures
            r@.len() == m@.len(),
            forall|i: int| 0 <= i < m@.len() ==> #[trigger] r@[i]@ == m@[i]@,
            mat_wf(r@),
    {
        let mut src = m;
        let mut rows: Vec<RowVec> = Vec::new();
        let ghost orig = src@;
        while src.len() > 0
            invariant
                rows@.len() + src@.len() == orig.len(),
                forall|j: int| 0 <= j < orig.len() ==> row_wf(#[trigger] orig[j]@),
                forall|j: int| 0 <= j < orig.len() ==> #[trigger] orig[j]@.len() == orig[0]@.len(),
                forall|j: int| 0 <= j < src@.len() ==> #[trigger] src@[j] == orig[rows@.len() + j],
                forall|j: int| 0 <= j < rows@.len() ==> #[trigger] rows@[j]@ == orig[j]@,
            decreases src@.len(),
        {
            let head = src.remove(0);
            rows.push(RowVec::new(head));
        }
        Matrix { rows }
    }

    /// Builds a matrix from finished rows. The caller answers for the shape:
    /// every row must have the same length.
    pub fn from_row_vecs(m: Vec<RowVec>) -> (r: Matrix)
        requires
            forall|i: int| 0 <= i < m@.len() ==> row_wf(#[trigger] m@[i]@),
            forall|i: int| 0 <= i < m@.len() ==> #[trigger] m@[i]@.len() == m@[0]@.len(),
        ensures
            r@ == m@,
            mat_wf(r@),
    {
        Matrix { rows: m }
    }

    /// Builds a matrix of exact rationals from integer data. The caller
    /// answers for the shape: every row must have the same length.
    pub fn from_int_vecs(m: Vec<Vec<i64>>) -> (r: Matrix)
        requires
            forall|i: int| 0 <= i < m@.len() ==> #[trigger] m@[i]@.len() == m@[0]@.len(),
        ensures
            r@.len() == m@.len(),
            forall|i: int| 0 <= i < m@.len() ==> #[trigger] r@[i]@.len() == m@[i]@.len(),
            forall|i: int, k: int|
                0 <= i < m@.len() && 0 <= k < m@[i]@.len() ==> rat_model(
                    #[trigger] r@[i]@[k],
                ) == frac_from_int(m@[i]@[k] as int),
            mat_wf(r@),
    {
        let mut src = m;
        let mut rows: Vec<RowVec> = Vec::new();
        let ghost orig = src@;
        while src.len() > 0
            invariant
                rows@.len() + src@.len() == orig.len(),
                forall|j: int| 0 <= j < orig.len() ==> #[trigger] orig[j]@.len() == orig[0]@.len(),
                forall|j: int| 0 <= j < src@.len() ==> #[trigger] src@[j] == orig[rows@.len() + j],
                forall|j: int| 0 <= j < rows@.len() ==> #[trigger] rows@[j]@.len() == orig[j]@.len(),
                forall|j: int, k: int|
                    0 <= j < rows@.len() && 0 <= k < orig[j]@.len() ==> rat_model(
                        #[trigger] rows@[j]@[k],
                    ) == frac_from_int(orig[j]@[k] as int),
                forall|j: int| 0 <= j < rows@.len() ==> row_wf(#[trigger] rows@[j]@),
            decreases src@.len(),
        {
            let head = src.remove(0);
            rows.push(RowVec::from_int_vec(head));
        }
        Matrix { rows }
    }

    /// The matrix with no rows at all.
    pub fn empty() -> (r: Matrix)
        ensures
            r@.len() == 0,
            mat_wf(r@),
    {
        Matrix { rows: Vec::new() }
    }

    /// A matrix of the given shape filled with exact zeros; if either
    /// dimension is zero the canonical empty matrix (no rows) comes back.
    pub fn zeros(rows: usize, cols: usize) -> (r: Matrix)
        ensures
            rows == 0 || cols == 0 ==> r@.len() == 0,
            rows > 0 && cols > 0 ==> {
                &&& r@.len() == rows
                &&& mat_width(r@) == cols
                &&& forall|i: int, k: int|
                    0 <= i < rows && 0 <= k < cols ==> rat_model(#[trigger] r@[i]@[k])
                        == frac_from_int(0)
            },
            mat_wf(r@),
    {
        if rows == 0 || cols == 0 {
            return Matrix::empty();
        }
        let mut out: Vec<RowVec> = Vec::new();
        let mut i: usize = 0;
        while i < rows
            invariant
                i <= rows,
                out@.len() == i,
                forall|j: int| 0 <= j < i ==> #[trigger] out@[j]@.len() == cols,
                forall|j: int| 0 <= j < i ==> row_wf(#[trigger] out@[j]@),
                forall|j: int, k: int|
                    0 <= j < i && 0 <= k < cols ==> rat_model(#[trigger] out@[j]@[k])
                        == frac_from_int(0),
            decreases rows - i,
        {
            out.push(RowVec::zeros(cols));
            i = i + 1;
        }
        Matrix { rows: out }
    }

    /// How many rows the matrix has.
    pub fn height(&self) -> (r: usize)
        ensures
            r == self@.len(),
    {
        self.rows.len()
    }

    /// The common row length; zero when there are no rows.
    pub fn width(&self) -> (r: usize)
        ensures
            r == mat_width(self@),
    {
        if self.rows.is_empty() {
            0
        } else {
            self.rows[0].len()
        }
    }

    /// True iff the matrix has no rows.
    pub fn is_empty(&self) -> (r: bool)
        ensures
            r == (self@.len() == 0),
    {
        self.rows.is_empty()
    }

    /// A reference to the row at index `i`.
    pub fn row(&self, i: usize) -> (r: &RowVec)
        requires
            i < self@.len(),
        ensures
            *r == self@[i as int],
    {
        &self.rows[i]
    }

    /// A reference to the entry at row `i`, column `k`.
    pub fn get(&self, i: usize, k: usize) -> (r: &Rational)
        requires
            i < self@.len(),
            k < self@[i as int]@.len(),
        ensures
            *r == self@[i as int]@[k as int],
    {
        self.rows[i].entry(k)
    }

    /// Replaces the entry at row `i`, column `k`.
    pub fn set(&mut self, i: usize, k: usize, v: Rational)
        requires
            i < old(self)@.len(),
            k < old(self)@[i as int]@.len(),
        ensures
            final(self)@.len() == old(self)@.len(),
            forall|j: int|
                0 <= j < old(self)@.len() && j != i ==> #[trigger] final(self)@[j] == old(self)@[j],
            final(self)@[i as int]@ == old(self)@[i as int]@.update(k as int, v),
    {
        self.rows[i].set_entry(k, v);
    }

    /// Pushes a row to the bottom. The caller answers for the width: on a
    /// non-empty matrix the new row must have the common length.
    pub fn append_row(&mut self, r: RowVec)
        requires
            row_wf(r@),
            old(self)@.len() > 0 ==> r@.len() == mat_width(old(self)@),
        ensures
            final(self)@ == old(self)@.push(r),
            mat_wf(old(self)@) ==> mat_wf(final(self)@),
    {
        self.rows.push(r);
    }

    /// Removes the row at index `i`, shifting the rows below it up.
    pub fn remove_row(&mut self, i: usize)
        requires
            i < old(self)@.len(),
        ensures
            final(self)@ == old(self)@.remove(i as int),
            mat_wf(old(self)@) ==> mat_wf(final(self)@),
    {
        self.rows.remove(i);
        proof {
            if mat_wf(old(self)@) {
                assert forall|j: int| 0 <= j < self@.len() implies (row_wf(#[trigger] self@[j]@)
                    && self@[j]@.len() == mat_width(self@)) by {
                    if j < i {
                        assert(self@[j] == old(self)@[j]);
                    } else {
                        assert(self@[j] == old(self)@[j + 1]);
                    }
                }
            }
        }
    }

    /// True iff every entry of every row is exactly zero; stops scanning at
    /// the first nonzero row.
    pub fn is_zeros(&self) -> (r: bool)
        ensures
            r == forall|i: int| 0 <= i < self@.len() ==> row_all_zero(#[trigger] self@[i]@),
    {
        let mut i: usize = 0;
        while i < self.rows.len()
            invariant
                i <= self@.len(),
                forall|j: int| 0 <= j < i ==> row_all_zero(#[trigger] self@[j]@),
            decreases self@.len() - i,
        {
            if !self.rows[i].is_zeros() {
                return false;
            }
            i = i + 1;
        }
        true
    }

    /// A new single-column matrix copying column `c` from every row.
    pub fn get_column_copy(&self, c: usize) -> (r: Matrix)
        requires
            mat_wf(self@),
            c < mat_width(self@),
        ensures
            r@.len() == self@.len(),
            forall|i: int| 0 <= i < r@.len() ==> #[trigger] r@[i]@.len() == 1,
            forall|i: int|
                0 <= i < r@.len() ==> rat_model(#[trigger] r@[i]@[0]) == rat_model(self@[i]@[c as int]),
            mat_wf(r@),
    {
        let mut out: Vec<RowVec> = Vec::new();
        let mut i: usize = 0;
        while i < self.rows.len()
            invariant
                i <= self@.len(),
                out@.len() == i,
                mat_wf(self@),
                c < mat_width(self@),
                forall|j: int| 0 <= j < i ==> #[trigger] out@[j]@.len() == 1,
                forall|j: int| 0 <= j < i ==> row_wf(#[trigger] out@[j]@),
                forall|j: int|
                    0 <= j < i ==> rat_model(#[trigger] out@[j]@[0]) == rat_model(self@[j]@[c as int]),
            decreases self@.len() - i,
        {
            let mut col: Vec<Rational> = Vec::new();
            col.push(rat_clone(self.rows[i].entry(c)));
            out.push(RowVec::new(col));
            i = i + 1;
        }
        Matrix { rows: out }
    }

    /// A deep copy of the matrix; every entry keeps its value.
    pub fn duplicate(&self) -> (r: Matrix)
        ensures
            r@.len() == self@.len(),
            forall|i: int| 0 <= i < r@.len() ==> #[trigger] r@[i]@.len() == self@[i]@.len(),
            forall|i: int, k: int|
                0 <= i < r@.len() && 0 <= k < r@[i]@.len() ==> rat_model(#[trigger] r@[i]@[k])
                    == rat_model(self@[i]@[k]),
            mat_wf(self@) ==> mat_wf(r@),
    {
        let mut out: Vec<RowVec> = Vec::new();
        let mut i: usize = 0;
        while i < self.rows.len()
            invariant
                i <= self@.len(),
                out@.len() == i,
                forall|j: int| 0 <= j < i ==> #[trigger] out@[j]@.len() == self@[j]@.len(),
                forall|j: int, k: int|
                    0 <= j < i && 0 <= k < out@[j]@.len() ==> rat_model(#[trigger] out@[j]@[k])
                        == rat_model(self@[j]@[k]),
            decreases self@.len() - i,
        {
            out.push(self.rows[i].duplicate());
            i = i + 1;
        }
        let r = Matrix { rows: out };
        proof {
            if mat_wf(self@) {
                assert forall|j: int| 0 <= j < r@.len() implies (row_wf(#[trigger] r@[j]@)
                    && r@[j]@.len() == mat_width(r@)) by {
                    assert(row_wf(self@[j]@));
                    assert(forall|k: int|
                        0 <= k < r@[j]@.len() ==> rat_wf(#[trigger] r@[j]@[k]));
                }
            }
        }
        r
    }

    /// Multiplies every entry by `factor` in place; always succeeds.
    pub fn scalar_mul_assign(&mut self, factor: &Rational)
        requires
            mat_wf(old(self)@),
            rat_wf(*factor),
        ensures
            final(self)@.len() == old(self)@.len(),
            mat_width(final(self)@) == mat_width(old(self)@),
            mat_wf(final(self)@),
            forall|i: int| 0 <= i < final(self)@.len() ==> #[trigger] final(self)@[i]@.len() == old(self)@[i]@.len(),
            forall|i: int, k: int|
                0 <= i < final(self)@.len() && 0 <= k < final(self)@[i]@.len() ==> frac_eq(
                    rat_model(#[trigger] final(self)@[i]@[k]),
                    frac_mul(rat_model(old(self)@[i]@[k]), rat_model(*factor)),
                ),
    {
        let mut i: usize = 0;
        while i < self.rows.len()
            invariant
                self@.len() == old(self)@.len(),
                i <= self@.len(),
                mat_wf(old(self)@),
                rat_wf(*factor),
                forall|j: int| i <= j < self@.len() ==> #[trigger] self@[j] == old(self)@[j],
                forall|j: int| 0 <= j < self@.len() ==> #[trigger] self@[j]@.len() == old(self)@[j]@.len(),
                forall|j: int| 0 <= j < i ==> row_wf(#[trigger] self@[j]@),
                forall|j: int, k: int|
                    0 <= j < i && 0 <= k < self@[j]@.len() ==> frac_eq(
                        rat_model(#[trigger] self@[j]@[k]),
                        frac_mul(rat_model(old(self)@[j]@[k]), rat_model(*factor)),
                    ),
            decreases self@.len() - i,
        {
            self.rows[i].scalar_mul_assign(factor);
            i = i + 1;
        }
    }

    /// Multiplies every entry by `factor` into a fresh matrix.
    pub fn scalar_mul(&self, factor: &Rational) -> (r: Matrix)
        requires
            mat_wf(self@),
            rat_wf(*factor),
        ensures
            r@.len() == self@.len(),
            mat_width(r@) == mat_width(self@),
            mat_wf(r@),
            forall|i: int, k: int|
                0 <= i < r@.len() && 0 <= k < r@[i]@.len() ==> frac_eq(
                    rat_model(#[trigger] r@[i]@[k]),
                    frac_mul(rat_model(self@[i]@[k]), rat_model(*factor)),
                ),
    {
        let mut out = self.duplicate();
        out.scalar_mul_assign(factor);
        out
    }

    /// Row-wise addition in place. Fails, and leaves the matrix untouched,
    /// when the heights differ, or when both have rows and the widths differ;
    /// the error says which of the two it found.
    pub fn add_assign(&mut self, rhs: &Matrix) -> (r: Result<(), DimensionMismatch>)
        requires
            mat_wf(old(self)@),
            mat_wf(rhs@),
        ensures
            final(self)@.len() == old(self)@.len(),
            mat_width(final(self)@) == mat_width(old(self)@),
            mat_wf(final(self)@),
            match r {
                Ok(()) => {
                    &&& old(self)@.len() == rhs@.len()
                    &&& old(self)@.len() == 0 || mat_width(old(self)@) == mat_width(rhs@)
                    &&& forall|i: int| 0 <= i < final(self)@.len() ==> #[trigger] final(self)@[i]@.len() == old(self)@[i]@.len()
                    &&& forall|i: int, k: int|
                        0 <= i < final(self)@.len() && 0 <= k < final(self)@[i]@.len() ==> frac_eq(
                            rat_model(#[trigger] final(self)@[i]@[k]),
                            frac_add(rat_model(old(self)@[i]@[k]), rat_model(rhs@[i]@[k])),
                        )
                },
                Err(e) => {
                    &&& final(self)@ == old(self)@
                    &&& if old(self)@.len() != rhs@.len() {
                        e == DimensionMismatch::Heights(
                            old(self)@.len() as usize,
                            rhs@.len() as usize,
                        )
                    } else {
                        &&& old(self)@.len() > 0
                        &&& mat_width(old(self)@) != mat_width(rhs@)
                        &&& e == DimensionMismatch::Widths(
                            mat_width(old(self)@) as usize,
                            mat_width(rhs@) as usize,
                        )
                    }
                },
            },
    {
        if self.rows.len() != rhs.rows.len() {
            return Err(DimensionMismatch::Heights(self.rows.len(), rhs.rows.len()));
        }
        if self.rows.is_empty() {
            return Ok(());
        }
        if self.rows[0].len() != rhs.rows[0].len() {
            return Err(DimensionMismatch::Widths(self.rows[0].len(), rhs.rows[0].len()));
        }
        let mut i: usize = 0;
        while i < self.rows.len()
            invariant
                self@.len() == old(self)@.len(),
                self@.len() == rhs@.len(),
                i <= self@.len(),
                mat_wf(old(self)@),
                mat_wf(rhs@),
                mat_width(old(self)@) == mat_width(rhs@),
                forall|j: int| i <= j < self@.len() ==> #[trigger] self@[j] == old(self)@[j],
                forall|j: int| 0 <= j < self@.len() ==> #[trigger] self@[j]@.len() == old(self)@[j]@.len(),
                forall|j: int| 0 <= j < i ==> row_wf(#[trigger] self@[j]@),
                forall|j: int, k: int|
                    0 <= j < i && 0 <= k < self@[j]@.len() ==> frac_eq(
                        rat_model(#[trigger] self@[j]@[k]),
                        frac_add(rat_model(old(self)@[j]@[k]), rat_model(rhs@[j]@[k])),
                    ),
            decreases self@.len() - i,
        {
            let rhs_row = &rhs.rows[i];
            match self.rows[i].add_assign(rhs_row) {
                Ok(()) => {},
                Err(_) => {
                    proof {
                        assert(false);
                    }
                },
            }
            i = i + 1;
        }
        Ok(())
    }

    /// Row-wise addition into a fresh matrix; the same failures as `add_assign`.
    pub fn add(&self, rhs: &Matrix) -> (r: Result<Matrix, DimensionMismatch>)
        requires
            mat_wf(self@),
            mat_wf(rhs@),
        ensures
            match r {
                Ok(out) => {
                    &&& self@.len() == rhs@.len()
                    &&& self@.len() == 0 || mat_width(self@) == mat_width(rhs@)
                    &&& out@.len() == self@.len()
                    &&& mat_width(out@) == mat_width(self@)
                    &&& mat_wf(out@)
                    &&& forall|i: int| 0 <= i < out@.len() ==> #[trigger] out@[i]@.len() == self@[i]@.len()
                    &&& forall|i: int, k: int|
                        0 <= i < out@.len() && 0 <= k < out@[i]@.len() ==> frac_eq(
                            rat_model(#[trigger] out@[i]@[k]),
                            frac_add(rat_model(self@[i]@[k]), rat_model(rhs@[i]@[k])),
                        )
                },
                Err(e) => {
                    if self@.len() != rhs@.len() {
                        e == DimensionMismatch::Heights(self@.len() as usize, rhs@.len() as usize)
                    } else {
                        &&& self@.len() > 0
                        &&& mat_width(self@) != mat_width(rhs@)
                        &&& e == DimensionMismatch::Widths(
                            mat_width(self@) as usize,
                            mat_width(rhs@) as usize,
                        )
                    }
                },
            },
    {
        let mut out = self.duplicate();
        match out.add_assign(rhs) {
            Ok(()) => Ok(out),
            Err(e) => Err(e),
        }
    }
}


/// The factor the elimination step scales the selected row by: the negated
/// target entry over the pivot.
pub open spec fn elim_factor(oc: Frac, sc: Frac) -> Frac {
    frac_div(frac_neg(oc), sc)
}

/// How one elimination step at column `c` against selected row `sel` turns a
/// target row `prev` into `cur`: untouched when the target entry is already
/// zero, else combined entry by entry.
pub open spec fn elim_row_rel(
    sel: Seq<Rational>,
    prev: Seq<Rational>,
    cur: Seq<Rational>,
    c: int,
) -> bool {
    if frac_is_zero(rat_model(prev[c])) {
        cur == prev
    } else {
        &&& cur.len() == prev.len()
        &&& forall|k: int|
            0 <= k < cur.len() ==> frac_eq(
                rat_model(#[trigger] cur[k]),
                frac_add(
                    rat_model(prev[k]),
                    frac_mul(rat_model(sel[k]), elim_factor(rat_model(prev[c]), rat_model(sel[c]))),
                ),
            )
    }
}

/// A row has at most one leader column.
pub proof fn lemma_leader_unique(s: Seq<Rational>, c1: int, c2: int)
    requires
        row_leader_at(s, c1),
        row_leader_at(s, c2),
    ensures
        c1 == c2,
{
}

/// The combined row of an elimination step has exactly the claimed values:
/// zero at the pivot column, and zeros wherever both source rows were zero.
proof fn lemma_elim_row(
    sel: Seq<Rational>,
    prev: Seq<Rational>,
    cur: Seq<Rational>,
    term: Seq<Rational>,
    fac: Frac,
    c: int,
)
    requires
        row_wf(sel),
        row_wf(prev),
        row_wf(term),
        row_wf(cur),
        sel.len() == prev.len(),
        term.len() == sel.len(),
        cur.len() == prev.len(),
        0 <= c < sel.len(),
        !frac_is_zero(rat_model(sel[c])),
        !frac_is_zero(rat_model(prev[c])),
        fac.d > 0,
        frac_eq(fac, elim_factor(rat_model(prev[c]), rat_model(sel[c]))),
        forall|k: int|
            0 <= k < term.len() ==> frac_eq(
                rat_model(#[trigger] term[k]),
                frac_mul(rat_model(sel[k]), fac),
            ),
        forall|k: int|
            0 <= k < cur.len() ==> frac_eq(
                rat_model(#[trigger] cur[k]),
                frac_add(rat_model(prev[k]), rat_model(term[k])),
            ),
    ensures
        elim_row_rel(sel, prev, cur, c),
        frac_is_zero(rat_model(cur[c])),
        forall|k: int|
            0 <= k < cur.len() && frac_is_zero(rat_model(prev[k])) && frac_is_zero(
                rat_model(sel[k]),
            ) ==> frac_is_zero(rat_model(#[trigger] cur[k])),
{
    let oc = rat_model(prev[c]);
    let sc = rat_model(sel[c]);
    let ef = elim_factor(oc, sc);
    assert(ef.d != 0) by (nonlinear_arith)
        requires
            ef.d == oc.d * sc.n,
            oc.d > 0,
            sc.n != 0,
    ;
    assert forall|k: int| 0 <= k < cur.len() implies frac_eq(
        rat_model(#[trigger] cur[k]),
        frac_add(rat_model(prev[k]), frac_mul(rat_model(sel[k]), ef)),
    ) by {
        let sk = rat_model(sel[k]);
        let pk = rat_model(prev[k]);
        let tk = rat_model(term[k]);
        crate::frac::lemma_frac_mul_congr_right(sk, fac, ef);
        assert(frac_mul(sk, fac).d != 0) by (nonlinear_arith)
            requires
                sk.d > 0,
                fac.d > 0,
                frac_mul(sk, fac).d == sk.d * fac.d,
        ;
        crate::frac::lemma_frac_eq_trans(tk, frac_mul(sk, fac), frac_mul(sk, ef));
        crate::frac::lemma_frac_add_congr_right(pk, tk, frac_mul(sk, ef));
        assert(frac_add(pk, tk).d != 0) by (nonlinear_arith)
            requires
                pk.d > 0,
                tk.d > 0,
                frac_add(pk, tk).d == pk.d * tk.d,
        ;
        crate::frac::lemma_frac_eq_trans(
            rat_model(cur[k]),
            frac_add(pk, tk),
            frac_add(pk, frac_mul(sk, ef)),
        );
    }
    // the pivot column is cancelled exactly
    let z = frac_add(oc, frac_mul(sc, ef));
    crate::frac::lemma_frac_cancel(oc, sc);
    assert(z.d != 0) by (nonlinear_arith)
        requires
            z.d == oc.d * (sc.d * ef.d),
            oc.d > 0,
            sc.d > 0,
            ef.d != 0,
    ;
    lemma_frac_eq_zero(rat_model(cur[c]), z);
    // wherever both source rows are zero the result stays zero
    assert forall|k: int|
        0 <= k < cur.len() && frac_is_zero(rat_model(prev[k])) && frac_is_zero(
            rat_model(sel[k]),
        ) implies frac_is_zero(rat_model(#[trigger] cur[k])) by {
        let sk = rat_model(sel[k]);
        let pk = rat_model(prev[k]);
        let zk = frac_add(pk, frac_mul(sk, ef));
        assert(frac_is_zero(zk) && zk.d != 0) by (nonlinear_arith)
            requires
                pk.n == 0,
                sk.n == 0,
                pk.d > 0,
                sk.d > 0,
                ef.d != 0,
                zk == frac_add(pk, frac_mul(sk, ef)),
        ;
        lemma_frac_eq_zero(rat_model(cur[k]), zk);
    }
}

impl Matrix {
    /// One elimination step: adds the right multiple of `selected_row` to
    /// `other_row` so that `other_row`'s entry at `leader_col` becomes exactly
    /// zero; a no-op when that entry already is. The pivot, `selected_row`'s
    /// entry at `leader_col`, must be nonzero: that is the caller's contract,
    /// which the echelon drivers keep by always passing a leader column.
    pub fn eliminate(&mut self, selected_row: usize, other_row: usize, leader_col: usize)
        requires
            mat_wf(old(self)@),
            selected_row < old(self)@.len(),
            other_row < old(self)@.len(),
            leader_col < mat_width(old(self)@),
            !frac_is_zero(rat_model(old(self)@[selected_row as int]@[leader_col as int])),
        ensures
            final(self)@.len() == old(self)@.len(),
            mat_width(final(self)@) == mat_width(old(self)@),
            mat_wf(final(self)@),
            forall|k: int|
                0 <= k < old(self)@.len() && k != other_row ==> #[trigger] final(self)@[k]
                    == old(self)@[k],
            elim_row_rel(
                old(self)@[selected_row as int]@,
                old(self)@[other_row as int]@,
                final(self)@[other_row as int]@,
                leader_col as int,
            ),
            frac_is_zero(rat_model(old(self)@[other_row as int]@[leader_col as int]))
                ==> final(self)@ == old(self)@,
            frac_is_zero(rat_model(final(self)@[other_row as int]@[leader_col as int])),
            forall|k: int|
                0 <= k < mat_width(old(self)@) && frac_is_zero(
                    rat_model(old(self)@[other_row as int]@[k]),
                ) && frac_is_zero(rat_model(old(self)@[selected_row as int]@[k]))
                    ==> frac_is_zero(rat_model(#[trigger] final(self)@[other_row as int]@[k])),
    {
        if rat_is_zero(self.rows[other_row].entry(leader_col)) {
            return ;
        }
        let neg = rat_neg(self.rows[other_row].entry(leader_col));
        let factor = rat_div(&neg, self.rows[selected_row].entry(leader_col));
        let term = self.rows[selected_row].scalar_mul(&factor);
        let ghost sel = self@[selected_row as int]@;
        let ghost prev = self@[other_row as int]@;
        match self.rows[other_row].add_assign(&term) {
            Ok(()) => {},
            Err(_) => {
                proof {
                    assert(false);
                }
            },
        }
        proof {
            lemma_elim_row(
                sel,
                prev,
                self@[other_row as int]@,
                term@,
                rat_model(factor),
                leader_col as int,
            );
            assert forall|i: int| 0 <= i < self@.len() implies (row_wf(#[trigger] self@[i]@)
                && self@[i]@.len() == mat_width(self@)) by {
                if i != other_row {
                    assert(self@[i] == old(self)@[i]);
                }
            }
        }
    }

    /// Eliminates, in every row strictly below `row`, the entry in the column
    /// of `row`'s leader; a no-op when `row` is all zero.
    pub fn eliminate_below_leader(&mut self, row: usize)
        requires
            mat_wf(old(self)@),
            row < old(self)@.len(),
        ensures
            final(self)@.len() == old(self)@.len(),
            mat_width(final(self)@) == mat_width(old(self)@),
            mat_wf(final(self)@),
            forall|k: int| 0 <= k <= row ==> #[trigger] final(self)@[k] == old(self)@[k],
            row_all_zero(old(self)@[row as int]@) ==> final(self)@ == old(self)@,
            forall|c: int|
                row_leader_at(old(self)@[row as int]@, c) ==> {
                    &&& forall|j: int|
                        row < j < final(self)@.len() ==> frac_is_zero(
                            rat_model(#[trigger] final(self)@[j]@[c]),
                        )
                    &&& forall|j: int|
                        row < j < final(self)@.len() ==> elim_row_rel(
                            old(self)@[row as int]@,
                            old(self)@[j]@,
                            #[trigger] final(self)@[j]@,
                            c,
                        )
                    &&& forall|j: int, k: int|
                        row < j < final(self)@.len() && 0 <= k < mat_width(old(self)@)
                            && frac_is_zero(rat_model(old(self)@[row as int]@[k])) && frac_is_zero(
                            rat_model(old(self)@[j]@[k]),
                        ) ==> frac_is_zero(rat_model(#[trigger] final(self)@[j]@[k]))
                    &&& (forall|j: int|
                        row < j < old(self)@.len() ==> frac_is_zero(
                            rat_model(#[trigger] old(self)@[j]@[c]),
                        )) ==> final(self)@ == old(self)@
                },
    {
        let lc = self.rows[row].leader_col();
        match lc {
            None => {
                proof {
                    assert forall|c: int| !row_leader_at(old(self)@[row as int]@, c) by {}
                }
            },
            Some(c) => {
                let n = self.rows.len();
                let mut j: usize = row + 1;
                while j < n
                    invariant
                        n == self@.len(),
                        mat_wf(old(self)@),
                        row < j,
                        j <= self@.len(),
                        self@.len() == old(self)@.len(),
                        mat_width(self@) == mat_width(old(self)@),
                        mat_wf(self@),
                        row_leader_at(old(self)@[row as int]@, c as int),
                        c < mat_width(old(self)@),
                        forall|k: int| 0 <= k <= row ==> #[trigger] self@[k] == old(self)@[k],
                        forall|k: int|
                            j <= k < self@.len() ==> #[trigger] self@[k] == old(self)@[k],
                        forall|t: int|
                            row < t < j ==> frac_is_zero(rat_model(#[trigger] self@[t]@[c as int])),
                        forall|t: int|
                            row < t < j ==> elim_row_rel(
                                old(self)@[row as int]@,
                                old(self)@[t]@,
                                #[trigger] self@[t]@,
                                c as int,
                            ),
                        forall|t: int, k: int|
                            row < t < j && 0 <= k < mat_width(old(self)@) && frac_is_zero(
                                rat_model(old(self)@[row as int]@[k]),
                            ) && frac_is_zero(rat_model(old(self)@[t]@[k])) ==> frac_is_zero(
                                rat_model(#[trigger] self@[t]@[k]),
                            ),
                        (forall|t: int|
                            row < t < j ==> frac_is_zero(rat_model(#[trigger] old(self)@[t]@[c as int])))
                            ==> self@ == old(self)@,
                    decreases self@.len() - j,
                {
                    self.eliminate(row, j, c);
                    j = j + 1;
                }
                proof {
                    assert forall|c2: int| row_leader_at(old(self)@[row as int]@, c2) implies c2
                        == c as int by {
                        lemma_leader_unique(old(self)@[row as int]@, c2, c as int);
                    }
                }
            },
        }
    }

    /// Eliminates, in every row strictly above `row`, the entry in the column
    /// of `row`'s leader; a no-op when `row` is all zero.
    pub fn eliminate_above_leader(&mut self, row: usize)
        requires
            mat_wf(old(self)@),
            row < old(self)@.len(),
        ensures
            final(self)@.len() == old(self)@.len(),
            mat_width(final(self)@) == mat_width(old(self)@),
            mat_wf(final(self)@),
            forall|k: int| row <= k < old(self)@.len() ==> #[trigger] final(self)@[k] == old(self)@[k],
            row_all_zero(old(self)@[row as int]@) ==> final(self)@ == old(self)@,
            forall|c: int|
                row_leader_at(old(self)@[row as int]@, c) ==> {
                    &&& forall|j: int|
                        0 <= j < row ==> frac_is_zero(rat_model(#[trigger] final(self)@[j]@[c]))
                    &&& forall|j: int|
                        0 <= j < row ==> elim_row_rel(
                            old(self)@[row as int]@,
                            old(self)@[j]@,
                            #[trigger] final(self)@[j]@,
                            c,
                        )
                    &&& forall|j: int, k: int|
                        0 <= j < row && 0 <= k < mat_width(old(self)@) && frac_is_zero(
                            rat_model(old(self)@[row as int]@[k]),
                        ) && frac_is_zero(rat_model(old(self)@[j]@[k])) ==> frac_is_zero(
                            rat_model(#[trigger] final(self)@[j]@[k]),
                        )
                    &&& (forall|j: int|
                        0 <= j < row ==> frac_is_zero(rat_model(#[trigger] old(self)@[j]@[c])))
                        ==> final(self)@ == old(self)@
                },
    {
        let lc = self.rows[row].leader_col();
        match lc {
            None => {
                proof {
                    assert forall|c: int| !row_leader_at(old(self)@[row as int]@, c) by {}
                }
            },
            Some(c) => {
                let mut j: usize = 0;
                while j < row
                    invariant
                        mat_wf(old(self)@),
                        j <= row,
                        row < self@.len(),
                        self@.len() == old(self)@.len(),
                        mat_width(self@) == mat_width(old(self)@),
                        mat_wf(self@),
                        row_leader_at(old(self)@[row as int]@, c as int),
                        c < mat_width(old(self)@),
                        forall|k: int|
                            row <= k < self@.len() ==> #[trigger] self@[k] == old(self)@[k],
                        forall|k: int| j <= k < row ==> #[trigger] self@[k] == old(self)@[k],
                        forall|t: int|
                            0 <= t < j ==> frac_is_zero(rat_model(#[trigger] self@[t]@[c as int])),
                        forall|t: int|
                            0 <= t < j ==> elim_row_rel(
                                old(self)@[row as int]@,
                                old(self)@[t]@,
                                #[trigger] self@[t]@,
                                c as int,
                            ),
                        forall|t: int, k: int|
                            0 <= t < j && 0 <= k < mat_width(old(self)@) && frac_is_zero(
                                rat_model(old(self)@[row as int]@[k]),
                            ) && frac_is_zero(rat_model(old(self)@[t]@[k])) ==> frac_is_zero(
                                rat_model(#[trigger] self@[t]@[k]),
                            ),
                        (forall|t: int|
                            0 <= t < j ==> frac_is_zero(rat_model(#[trigger] old(self)@[t]@[c as int])))
                            ==> self@ == old(self)@,
                    decreases row - j,
                {
                    self.eliminate(row, j, c);
                    j = j + 1;
                }
                proof {
                    assert forall|c2: int| row_leader_at(old(self)@[row as int]@, c2) implies c2
                        == c as int by {
                        lemma_leader_unique(old(self)@[row as int]@, c2, c as int);
                    }
                }
            },
        }
    }
}


/// Adjacent rows are ordered by the leader comparator, pairwise extended:
/// rows appear grouped by leader column, ascending, zero rows last.
pub open spec fn mat_leader_grouped(m: Seq<RowVec>) -> bool {
    forall|i: int, j: int|
        0 <= i < j < m.len() ==> lead_le(#[trigger] m[i]@, #[trigger] m[j]@)
}

/// Strict echelon ordering: leader columns strictly increase going down, and
/// all-zero rows sit below every nonzero row.
pub open spec fn mat_echelon(m: Seq<RowVec>) -> bool {
    forall|i: int, j: int|
        0 <= i < j < m.len() ==> lead_lt(#[trigger] m[i]@, #[trigger] m[j]@)
}

/// No two distinct rows share a leader column.
pub open spec fn distinct_leaders(m: Seq<RowVec>) -> bool {
    forall|i: int, j: int, ci: int, cj: int|
        #![trigger row_leader_at(m[i]@, ci), row_leader_at(m[j]@, cj)]
        0 <= i < m.len() && 0 <= j < m.len() && i != j && row_leader_at(m[i]@, ci)
            && row_leader_at(m[j]@, cj) ==> ci != cj
}

/// Every leader column is zero in every other row.
pub open spec fn col_cleared(m: Seq<RowVec>) -> bool {
    forall|i: int, j: int, c: int|
        #![trigger row_leader_at(m[i]@, c), rat_model(m[j]@[c])]
        0 <= i < m.len() && 0 <= j < m.len() && j != i && row_leader_at(m[i]@, c)
            ==> frac_is_zero(rat_model(m[j]@[c]))
}

/// Reduced row echelon form: echelon ordering, every leader exactly one, and
/// every leader column zero everywhere else.
pub open spec fn mat_rref_form(m: Seq<RowVec>) -> bool {
    &&& mat_echelon(m)
    &&& forall|i: int, c: int|
        0 <= i < m.len() && #[trigger] row_leader_at(m[i]@, c) ==> frac_is_one(
            rat_model(m[i]@[c]),
        )
    &&& col_cleared(m)
}

/// The executable leader comparator: scans the columns of two equal-length
/// rows and decides which sorts earlier.
fn row_le_exec(a: &RowVec, b: &RowVec) -> (r: bool)
    requires
        a@.len() == b@.len(),
    ensures
        r == row_le(a@, b@),
{
    let n = a.len();
    let mut i: usize = 0;
    proof {
        assert(a@.subrange(0, a@.len() as int) =~= a@);
        assert(b@.subrange(0, b@.len() as int) =~= b@);
    }
    while i < n
        invariant
            n == a@.len(),
            a@.len() == b@.len(),
            i <= n,
            row_le(a@, b@) == row_le(
                a@.subrange(i as int, a@.len() as int),
                b@.subrange(i as int, b@.len() as int),
            ),
        decreases n - i,
    {
        let ghost sa = a@.subrange(i as int, a@.len() as int);
        let ghost sb = b@.subrange(i as int, b@.len() as int);
        proof {
            assert(sa[0] == a@[i as int]);
            assert(sb[0] == b@[i as int]);
            assert(sa.drop_first() =~= a@.subrange(i + 1, a@.len() as int));
            assert(sb.drop_first() =~= b@.subrange(i + 1, b@.len() as int));
        }
        let az = rat_is_zero(a.entry(i));
        let bz = rat_is_zero(b.entry(i));
        if !az && bz {
            return true;
        }
        if az && !bz {
            return false;
        }
        i = i + 1;
    }
    proof {
        assert(a@.subrange(i as int, a@.len() as int).len() == 0);
    }
    true
}

/// Pairwise extension of adjacent comparator ordering to any two row indices.
proof fn lemma_grouped_pair(m: Seq<RowVec>, w: int, i: int, j: int)
    requires
        forall|t: int| 0 <= t < m.len() - 1 ==> row_le(#[trigger] m[t]@, m[t + 1]@),
        forall|t: int| 0 <= t < m.len() ==> #[trigger] m[t]@.len() == w,
        0 <= i < j < m.len(),
    ensures
        lead_le(m[i]@, m[j]@),
    decreases j - i,
{
    if j == i + 1 {
        crate::order::lemma_row_le_lead_le(m[i]@, m[j]@);
    } else {
        lemma_grouped_pair(m, w, i, j - 1);
        crate::order::lemma_row_le_lead_le(m[j - 1]@, m[j]@);
        crate::order::lemma_lead_le_trans(m[i]@, m[j - 1]@, m[j]@);
    }
}

/// Moving one row of a sequence down to an earlier position keeps the bag of
/// rows, and keeps the symmetric pairwise facts the elimination relies on.
proof fn lemma_move_row(v1: Seq<RowVec>, v2: Seq<RowVec>, i: int, p: int)
    requires
        0 <= p <= i < v1.len(),
        v2 == v1.remove(i).insert(p, v1[i]),
    ensures
        v2.len() == v1.len(),
        forall|j: int| 0 <= j < p ==> #[trigger] v2[j] == v1[j],
        v2[p] == v1[i],
        forall|j: int| p < j <= i ==> #[trigger] v2[j] == v1[j - 1],
        forall|j: int| i < j < v1.len() ==> #[trigger] v2[j] == v1[j],
        v2.to_multiset() == v1.to_multiset(),
        forall|j: int|
            0 <= j < v2.len() ==> exists|j2: int| 0 <= j2 < v1.len() && #[trigger] v2[j] == v1[j2],
        distinct_leaders(v1) ==> distinct_leaders(v2),
        col_cleared(v1) ==> col_cleared(v2),
{
    let x = v1[i];
    let vr = v1.remove(i);
    assert forall|j: int| 0 <= j < p implies #[trigger] v2[j] == v1[j] by {
        assert(v2[j] == vr[j]);
    }
    assert forall|j: int| p < j <= i implies #[trigger] v2[j] == v1[j - 1] by {
        assert(v2[j] == vr[j - 1]);
    }
    assert forall|j: int| i < j < v1.len() implies #[trigger] v2[j] == v1[j] by {
        assert(v2[j] == vr[j - 1]);
    }
    // the bag of rows is unchanged
    v1.to_multiset_ensures();
    v2.to_multiset_ensures();
    assert(v2.remove(p) =~= vr);
    assert(vr.to_multiset() =~= v1.to_multiset().remove(x));
    assert(v2.remove(p).to_multiset() =~= v2.to_multiset().remove(v2[p]));
    assert(v1.contains(x));
    assert(v2.contains(x));
    assert(v1.to_multiset().count(x) > 0);
    assert(v2.to_multiset().count(x) > 0);
    assert forall|e: RowVec| true implies v2.to_multiset().count(e) == v1.to_multiset().count(
        e,
    ) by {
        if e == x {
            assert(v2.to_multiset().remove(x).count(x) == v2.to_multiset().count(x) - 1);
            assert(v1.to_multiset().remove(x).count(x) == v1.to_multiset().count(x) - 1);
        } else {
            assert(v2.to_multiset().remove(x).count(e) == v2.to_multiset().count(e));
            assert(v1.to_multiset().remove(x).count(e) == v1.to_multiset().count(e));
        }
    }
    assert(v2.to_multiset() =~= v1.to_multiset());
    // every position of the new order shows a row of the old order
    assert forall|j: int| 0 <= j < v2.len() implies exists|j2: int|
        0 <= j2 < v1.len() && #[trigger] v2[j] == v1[j2] by {
        if j < p {
            assert(v2[j] == v1[j]);
        } else if j == p {
            assert(v2[j] == v1[i]);
        } else if j <= i {
            assert(v2[j] == v1[j - 1]);
        } else {
            assert(v2[j] == v1[j]);
        }
    }
    // symmetric pairwise facts survive the move
    if distinct_leaders(v1) {
        assert forall|j1: int, j2: int, c1: int, c2: int|
            #![trigger row_leader_at(v2[j1]@, c1), row_leader_at(v2[j2]@, c2)]
            0 <= j1 < v2.len() && 0 <= j2 < v2.len() && j1 != j2 && row_leader_at(v2[j1]@, c1)
                && row_leader_at(v2[j2]@, c2) implies c1 != c2 by {
            let s1 = if j1 < p { j1 } else if j1 == p { i } else if j1 <= i { j1 - 1 } else { j1 };
            let s2 = if j2 < p { j2 } else if j2 == p { i } else if j2 <= i { j2 - 1 } else { j2 };
            assert(v2[j1] == v1[s1]);
            assert(v2[j2] == v1[s2]);
            assert(s1 != s2);
        }
    }
    if col_cleared(v1) {
        assert forall|j1: int, j2: int, c: int|
            #![trigger row_leader_at(v2[j1]@, c), rat_model(v2[j2]@[c])]
            0 <= j1 < v2.len() && 0 <= j2 < v2.len() && j2 != j1 && row_leader_at(v2[j1]@, c)
                implies frac_is_zero(rat_model(v2[j2]@[c])) by {
            let s1 = if j1 < p { j1 } else if j1 == p { i } else if j1 <= i { j1 - 1 } else { j1 };
            let s2 = if j2 < p { j2 } else if j2 == p { i } else if j2 <= i { j2 - 1 } else { j2 };
            assert(v2[j1] == v1[s1]);
            assert(v2[j2] == v1[s2]);
            assert(s1 != s2);
        }
    }
}

impl Matrix {
    /// Reorders the rows so that rows with leftmost leaders come first,
    /// grouped by leader column, with all-zero rows at the bottom. The rows
    /// themselves are untouched: the result holds the same rows, reordered,
    /// and equal rows keep their relative order. A matrix already in echelon
    /// order comes back bit for bit unchanged.
    #[verifier::rlimit(100)]
    pub fn leader_sort(&mut self)
        requires
            mat_wf(old(self)@),
        ensures
            final(self)@.len() == old(self)@.len(),
            mat_width(final(self)@) == mat_width(old(self)@),
            mat_wf(final(self)@),
            final(self)@.to_multiset() == old(self)@.to_multiset(),
            mat_leader_grouped(final(self)@),
            mat_echelon(old(self)@) ==> final(self)@ == old(self)@,
            distinct_leaders(old(self)@) ==> distinct_leaders(final(self)@),
            col_cleared(old(self)@) ==> col_cleared(final(self)@),
    {
        let ghost w = mat_width(old(self)@);
        let n = self.rows.len();
        if n == 0 {
            return ;
        }
        let mut i: usize = 1;
        while i < n
            invariant
                n == self@.len(),
                self@.len() == old(self)@.len(),
                1 <= i <= n,
                w == mat_width(old(self)@),
                forall|j: int|
                    0 <= j < n ==> (row_wf(#[trigger] self@[j]@) && self@[j]@.len() == w),
                self@.to_multiset() == old(self)@.to_multiset(),
                forall|t: int| 0 <= t < i - 1 ==> row_le(#[trigger] self@[t]@, self@[t + 1]@),
                mat_echelon(old(self)@) ==> self@ == old(self)@,
                distinct_leaders(old(self)@) ==> distinct_leaders(self@),
                col_cleared(old(self)@) ==> col_cleared(self@),
            decreases n - i,
        {
            let mut p: usize = i;
            while p > 0 && !row_le_exec(&self.rows[p - 1], &self.rows[i])
                invariant
                    n == self@.len(),
                    1 <= i < n,
                    p <= i,
                    forall|j: int|
                        0 <= j < n ==> (row_wf(#[trigger] self@[j]@) && self@[j]@.len() == w),
                    forall|t: int| p <= t < i ==> !row_le(#[trigger] self@[t]@, self@[i as int]@),
                    mat_echelon(old(self)@) ==> self@ == old(self)@,
                    mat_echelon(old(self)@) ==> p == i,
                    forall|t: int| 0 <= t < i - 1 ==> row_le(#[trigger] self@[t]@, self@[t + 1]@),
                decreases p,
            {
                proof {
                    if mat_echelon(old(self)@) {
                        crate::order::lemma_lead_lt_row_le(self@[i - 1]@, self@[i as int]@);
                        assert(false);
                    }
                }
                p = p - 1;
            }
            if p < i {
                let ghost v1 = self@;
                let moved = self.rows.remove(i);
                self.rows.insert(p, moved);
                proof {
                    lemma_move_row(v1, self@, i as int, p as int);
                    let v2 = self@;
                    assert forall|t: int| 0 <= t < i implies row_le(
                        #[trigger] v2[t]@,
                        v2[t + 1]@,
                    ) by {
                        if t + 1 < p {
                            assert(v2[t] == v1[t] && v2[t + 1] == v1[t + 1]);
                        } else if t + 1 == p {
                            assert(v2[t] == v1[t] && v2[p as int] == v1[i as int]);
                        } else if t == p {
                            assert(v2[t] == v1[i as int] && v2[t + 1] == v1[t]);
                            assert(!row_le(v1[t]@, v1[i as int]@));
                            crate::order::lemma_row_le_total(v1[i as int]@, v1[t]@);
                        } else {
                            assert(v2[t] == v1[t - 1] && v2[t + 1] == v1[t]);
                        }
                    }
                    assert forall|j: int| 0 <= j < n implies (row_wf(#[trigger] self@[j]@)
                        && self@[j]@.len() == w) by {
                        let s = if j < p {
                            j
                        } else if j == p {
                            i as int
                        } else if j <= i {
                            j - 1
                        } else {
                            j
                        };
                        assert(self@[j] == v1[s]);
                    }
                }
            }
            i = i + 1;
        }
        proof {
            assert forall|a: int, b: int| 0 <= a < b < self@.len() implies lead_le(
                #[trigger] self@[a]@,
                #[trigger] self@[b]@,
            ) by {
                lemma_grouped_pair(self@, w, a, b);
            }
            assert(mat_width(self@) == w);
        }
    }
}


/// Every row strictly below `i` is zero in column `c`.
pub open spec fn col_zero_below(m: Seq<RowVec>, i: int, c: int) -> bool {
    forall|j: int| i < j < m.len() ==> frac_is_zero(rat_model(#[trigger] m[j]@[c]))
}

/// One elimination step cannot move a target row's leader when the selected
/// row is zero through that leader's column.
proof fn lemma_elim_preserves_leader(
    sel: Seq<Rational>,
    prev: Seq<Rational>,
    cur: Seq<Rational>,
    c: int,
    cj: int,
)
    requires
        row_wf(sel),
        row_wf(prev),
        row_wf(cur),
        sel.len() == prev.len(),
        cur.len() == prev.len(),
        0 <= c < sel.len(),
        !frac_is_zero(rat_model(sel[c])),
        elim_row_rel(sel, prev, cur, c),
        row_leader_at(prev, cj),
        zero_prefix(sel, cj + 1),
    ensures
        row_leader_at(cur, cj),
{
    if frac_is_zero(rat_model(prev[c])) {
    } else {
        let oc = rat_model(prev[c]);
        let sc = rat_model(sel[c]);
        let ef = elim_factor(oc, sc);
        assert(ef.d != 0) by (nonlinear_arith)
            requires
                ef.d == oc.d * sc.n,
                oc.d > 0,
                sc.n != 0,
        ;
        assert forall|k: int| 0 <= k < cj implies frac_is_zero(rat_model(#[trigger] cur[k])) by {
            let pk = rat_model(prev[k]);
            let sk = rat_model(sel[k]);
            let zk = frac_add(pk, frac_mul(sk, ef));
            assert(frac_is_zero(zk) && zk.d != 0) by (nonlinear_arith)
                requires
                    pk.n == 0,
                    sk.n == 0,
                    pk.d > 0,
                    sk.d > 0,
                    ef.d != 0,
                    zk == frac_add(pk, frac_mul(sk, ef)),
            ;
            lemma_frac_eq_zero(rat_model(cur[k]), zk);
        }
        let pj = rat_model(prev[cj]);
        let sj = rat_model(sel[cj]);
        let zj = frac_add(pj, frac_mul(sj, ef));
        assert(!frac_is_zero(zj) && zj.d != 0) by (nonlinear_arith)
            requires
                pj.n != 0,
                sj.n == 0,
                pj.d > 0,
                sj.d > 0,
                ef.d != 0,
                zj == frac_add(pj, frac_mul(sj, ef)),
        ;
        crate::frac::lemma_frac_eq_nonzero(rat_model(cur[cj]), zj);
    }
}

impl Matrix {
    /// Normalizes every row: each nonzero row is scaled so that its leader
    /// becomes exactly one; all-zero rows and rows whose leader is already
    /// one are untouched.
    pub fn normalize(&mut self)
        requires
            forall|i: int| 0 <= i < old(self)@.len() ==> row_wf(#[trigger] old(self)@[i]@),
        ensures
            final(self)@.len() == old(self)@.len(),
            forall|i: int|
                0 <= i < final(self)@.len() ==> #[trigger] final(self)@[i]@.len() == old(
                    self,
                )@[i]@.len(),
            forall|i: int| 0 <= i < final(self)@.len() ==> row_wf(#[trigger] final(self)@[i]@),
            mat_width(final(self)@) == mat_width(old(self)@),
            mat_wf(old(self)@) ==> mat_wf(final(self)@),
            forall|i: int, c: int|
                #![trigger row_leader_at(old(self)@[i]@, c)]
                0 <= i < final(self)@.len() && row_leader_at(old(self)@[i]@, c) ==> (
                row_leader_at(final(self)@[i]@, c) && frac_is_one(rat_model(final(self)@[i]@[c]))),
            forall|i: int, k: int|
                0 <= i < final(self)@.len() && 0 <= k < old(self)@[i]@.len() && frac_is_zero(
                    rat_model(old(self)@[i]@[k]),
                ) ==> frac_is_zero(rat_model(#[trigger] final(self)@[i]@[k])),
            forall|i: int|
                0 <= i < final(self)@.len() && row_all_zero(old(self)@[i]@)
                    ==> #[trigger] final(self)@[i] == old(self)@[i],
            forall|i: int, c: int|
                #![trigger row_leader_at(old(self)@[i]@, c), rat_model(old(self)@[i]@[c])]
                0 <= i < final(self)@.len() && row_leader_at(old(self)@[i]@, c) && frac_is_one(
                    rat_model(old(self)@[i]@[c]),
                ) ==> final(self)@[i] == old(self)@[i],
    {
        let mut i: usize = 0;
        while i < self.rows.len()
            invariant
                self@.len() == old(self)@.len(),
                i <= self@.len(),
                forall|j: int| 0 <= j < self@.len() ==> row_wf(#[trigger] old(self)@[j]@),
                forall|j: int| i <= j < self@.len() ==> #[trigger] self@[j] == old(self)@[j],
                forall|j: int|
                    0 <= j < self@.len() ==> #[trigger] self@[j]@.len() == old(self)@[j]@.len(),
                forall|j: int| 0 <= j < i ==> row_wf(#[trigger] self@[j]@),
                forall|j: int, c: int|
                    #![trigger row_leader_at(old(self)@[j]@, c)]
                    0 <= j < i && row_leader_at(old(self)@[j]@, c) ==> (row_leader_at(
                        self@[j]@,
                        c,
                    ) && frac_is_one(rat_model(self@[j]@[c]))),
                forall|j: int, k: int|
                    0 <= j < i && 0 <= k < old(self)@[j]@.len() && frac_is_zero(
                        rat_model(old(self)@[j]@[k]),
                    ) ==> frac_is_zero(rat_model(#[trigger] self@[j]@[k])),
                forall|j: int|
                    0 <= j < i && row_all_zero(old(self)@[j]@) ==> #[trigger] self@[j] == old(
                        self,
                    )@[j],
                forall|j: int, c: int|
                    #![trigger row_leader_at(old(self)@[j]@, c), rat_model(old(self)@[j]@[c])]
                    0 <= j < i && row_leader_at(old(self)@[j]@, c) && frac_is_one(
                        rat_model(old(self)@[j]@[c]),
                    ) ==> self@[j] == old(self)@[j],
            decreases self@.len() - i,
        {
            self.rows[i].normalize();
            i = i + 1;
        }
        proof {
            if self@.len() > 0 {
                assert(self@[0]@.len() == old(self)@[0]@.len());
            }
        }
    }

    /// Puts the matrix into (unreduced) row echelon form: after the call the
    /// leader columns strictly increase going down and all-zero rows sit at
    /// the bottom. A matrix already in that form comes back unchanged.
    pub fn echelon(&mut self)
        requires
            mat_wf(old(self)@),
        ensures
            final(self)@.len() == old(self)@.len(),
            mat_width(final(self)@) == mat_width(old(self)@),
            mat_wf(final(self)@),
            mat_echelon(final(self)@),
            mat_echelon(old(self)@) ==> final(self)@ == old(self)@,
    {
        self.leader_sort();
        let n = self.rows.len();
        let ghost w = mat_width(old(self)@);
        let mut t: usize = 0;
        while t < n
            invariant
                n == self@.len(),
                self@.len() == old(self)@.len(),
                t <= n,
                w == mat_width(old(self)@),
                mat_width(self@) == w,
                mat_wf(self@),
                mat_wf(old(self)@),
                forall|i: int, c: int|
                    #![trigger row_leader_at(self@[i]@, c)]
                    0 <= i < t && row_leader_at(self@[i]@, c) ==> col_zero_below(self@, i, c),
                mat_echelon(old(self)@) ==> self@ == old(self)@,
            decreases n - t,
        {
            let ghost pre = self@;
            proof {
                if mat_echelon(old(self)@) && !row_all_zero(pre[t as int]@) {
                    crate::order::lemma_has_leader(pre[t as int]@);
                    let ct = choose|c: int| row_leader_at(pre[t as int]@, c);
                    assert forall|j: int| t < j < n implies frac_is_zero(
                        rat_model(#[trigger] pre[j]@[ct]),
                    ) by {
                        assert(lead_lt(pre[t as int]@, pre[j]@));
                        if !row_all_zero(pre[j]@) {
                            crate::order::lemma_has_leader(pre[j]@);
                            let cj = choose|c: int| row_leader_at(pre[j]@, c);
                            assert(ct < cj);
                        }
                    }
                }
            }
            self.eliminate_below_leader(t);
            proof {
                if !row_all_zero(pre[t as int]@) {
                    crate::order::lemma_has_leader(pre[t as int]@);
                    let ct = choose|c: int| row_leader_at(pre[t as int]@, c);
                    assert forall|i: int, c: int|
                        #![trigger row_leader_at(self@[i]@, c)]
                        0 <= i < t + 1 && row_leader_at(self@[i]@, c) implies col_zero_below(
                        self@,
                        i,
                        c,
                    ) by {
                        if i < t {
                            assert(self@[i] == pre[i]);
                            assert(row_leader_at(pre[i]@, c));
                            assert(col_zero_below(pre, i, c));
                            assert(frac_is_zero(rat_model(pre[t as int]@[c])));
                            assert forall|j: int| i < j < n implies frac_is_zero(
                                rat_model(#[trigger] self@[j]@[c]),
                            ) by {
                                if j <= t {
                                    assert(self@[j] == pre[j]);
                                } else {
                                    assert(frac_is_zero(rat_model(pre[j]@[c])));
                                }
                            }
                        } else {
                            assert(self@[t as int] == pre[t as int]);
                            lemma_leader_unique(pre[t as int]@, c, ct);
                        }
                    }
                }
            }
            t = t + 1;
        }
        proof {
            assert forall|i: int, j: int, ci: int, cj: int|
                #![trigger row_leader_at(self@[i]@, ci), row_leader_at(self@[j]@, cj)]
                0 <= i < self@.len() && 0 <= j < self@.len() && i != j && row_leader_at(
                    self@[i]@,
                    ci,
                ) && row_leader_at(self@[j]@, cj) implies ci != cj by {
                if i < j {
                    assert(frac_is_zero(rat_model(self@[j]@[ci])));
                } else {
                    assert(frac_is_zero(rat_model(self@[i]@[cj])));
                }
            }
            assert(distinct_leaders(self@));
        }
        let ghost mid = self@;
        self.leader_sort();
        proof {
            assert forall|a: int, b: int| 0 <= a < b < self@.len() implies lead_lt(
                #[trigger] self@[a]@,
                #[trigger] self@[b]@,
            ) by {
                assert(lead_le(self@[a]@, self@[b]@));
                assert forall|ca: int, cb: int|
                    row_leader_at(self@[a]@, ca) && row_leader_at(self@[b]@, cb) implies ca
                    < cb by {
                    assert(ca <= cb);
                    assert(ca != cb);
                }
            }
        }
    }

    /// Puts the matrix into reduced row echelon form: echelon ordering, every
    /// nonzero row's leader exactly one, and every leader column zero in all
    /// other rows. A matrix already in that form comes back unchanged, so the
    /// reduction is idempotent.
    pub fn rref(&mut self)
        requires
            mat_wf(old(self)@),
        ensures
            final(self)@.len() == old(self)@.len(),
            mat_width(final(self)@) == mat_width(old(self)@),
            mat_wf(final(self)@),
            mat_rref_form(final(self)@),
            mat_rref_form(old(self)@) ==> final(self)@ == old(self)@,
    {
        self.echelon();
        let ghost base = self@;
        let n = self.rows.len();
        let ghost w = mat_width(old(self)@);
        let mut t: usize = 0;
        while t < n
            invariant
                n == self@.len(),
                self@.len() == old(self)@.len(),
                base.len() == n,
                t <= n,
                w == mat_width(old(self)@),
                mat_width(self@) == w,
                mat_width(base) == w,
                mat_wf(self@),
                mat_wf(base),
                mat_wf(old(self)@),
                mat_echelon(base),
                mat_echelon(old(self)@) ==> base == old(self)@,
                forall|j: int| t <= j < n ==> #[trigger] self@[j] == base[j],
                forall|j: int|
                    0 <= j < n && row_all_zero(base[j]@) ==> #[trigger] self@[j] == base[j],
                forall|j: int, c: int|
                    #![trigger row_leader_at(base[j]@, c)]
                    0 <= j < n && row_leader_at(base[j]@, c) ==> row_leader_at(self@[j]@, c),
                forall|tp: int, i: int, c: int|
                    #![trigger row_leader_at(base[tp]@, c), rat_model(self@[i]@[c])]
                    0 <= i < tp < t && row_leader_at(base[tp]@, c) ==> frac_is_zero(
                        rat_model(self@[i]@[c]),
                    ),
                mat_rref_form(old(self)@) ==> self@ == old(self)@,
            decreases n - t,
        {
            let ghost pre = self@;
            proof {
                if mat_rref_form(old(self)@) && !row_all_zero(pre[t as int]@) {
                    crate::order::lemma_has_leader(pre[t as int]@);
                    let ct = choose|c: int| row_leader_at(pre[t as int]@, c);
                    assert forall|j: int| 0 <= j < t implies frac_is_zero(
                        rat_model(#[trigger] pre[j]@[ct]),
                    ) by {
                        assert(row_leader_at(old(self)@[t as int]@, ct));
                        assert(frac_is_zero(rat_model(old(self)@[j]@[ct])));
                    }
                }
            }
            self.eliminate_above_leader(t);
            proof {
                assert(pre[t as int] == base[t as int]);
                if !row_all_zero(base[t as int]@) {
                    crate::order::lemma_has_leader(base[t as int]@);
                    let ct = choose|c: int| row_leader_at(base[t as int]@, c);
                    assert(row_leader_at(pre[t as int]@, ct));
                    // leaders of the rows above stay where they were
                    assert forall|j: int, c: int|
                        #![trigger row_leader_at(base[j]@, c)]
                        0 <= j < n && row_leader_at(base[j]@, c) implies row_leader_at(
                        self@[j]@,
                        c,
                    ) by {
                        if j < t {
                            assert(row_leader_at(pre[j]@, c));
                            if frac_is_zero(rat_model(pre[j]@[ct as int])) {
                                // covered by the general argument below either way
                            }
                            assert(elim_row_rel(
                                pre[t as int]@,
                                pre[j]@,
                                self@[j]@,
                                ct,
                            ));
                            assert(c < ct) by {
                                assert(lead_lt(base[j]@, base[t as int]@));
                            }
                            assert(zero_prefix(pre[t as int]@, c + 1)) by {
                                assert forall|q: int| 0 <= q < c + 1 implies frac_is_zero(
                                    rat_model(#[trigger] pre[t as int]@[q]),
                                ) by {
                                    assert(q < ct);
                                }
                            }
                            lemma_elim_preserves_leader(
                                pre[t as int]@,
                                pre[j]@,
                                self@[j]@,
                                ct,
                                c,
                            );
                        } else {
                            assert(self@[j] == pre[j]);
                        }
                    }
                    // all-zero rows are untouched
                    assert forall|j: int|
                        0 <= j < n && row_all_zero(base[j]@) implies #[trigger] self@[j]
                        == base[j] by {
                        if j < t {
                            assert(pre[j] == base[j]);
                            assert(elim_row_rel(pre[t as int]@, pre[j]@, self@[j]@, ct));
                            assert(frac_is_zero(rat_model(pre[j]@[ct])));
                        }
                    }
                    // cleared columns accumulate
                    assert forall|tp: int, i: int, c: int|
                        #![trigger row_leader_at(base[tp]@, c), rat_model(self@[i]@[c])]
                        0 <= i < tp < t + 1 && row_leader_at(base[tp]@, c) implies frac_is_zero(
                        rat_model(self@[i]@[c]),
                    ) by {
                        if tp == t {
                            lemma_leader_unique(base[t as int]@, c, ct);
                            assert(frac_is_zero(rat_model(self@[i]@[ct])));
                        } else {
                            // an earlier cleared column: the elimination step kept it zero
                            assert(frac_is_zero(rat_model(pre[i]@[c])));
                            assert(elim_row_rel(pre[t as int]@, pre[i]@, self@[i]@, ct));
                            assert(c < ct) by {
                                assert(lead_lt(base[tp]@, base[t as int]@));
                                assert(row_leader_at(pre[tp]@, c));
                                assert(row_leader_at(self@[tp]@, c));
                                assert(row_leader_at(base[tp]@, c));
                            }
                            assert(frac_is_zero(rat_model(pre[t as int]@[c])));
                            if !frac_is_zero(rat_model(pre[i]@[ct])) {
                                assert(frac_is_zero(rat_model(self@[i]@[c])));
                            }
                        }
                    }
                }
            }
            t = t + 1;
        }
        // the matrix is still in echelon order, with every leader column now
        // cleared in every other row
        proof {
            assert forall|a: int, b: int| 0 <= a < b < n implies lead_lt(
                #[trigger] self@[a]@,
                #[trigger] self@[b]@,
            ) by {
                lemma_lead_lt_transfer(base, self@, a, b);
            }
            assert(mat_echelon(self@));
            assert forall|i: int, j: int, c: int|
                #![trigger row_leader_at(self@[i]@, c), rat_model(self@[j]@[c])]
                0 <= i < n && 0 <= j < n && j != i && row_leader_at(self@[i]@, c)
                implies frac_is_zero(rat_model(self@[j]@[c])) by {
                lemma_rref_cleared(base, self@, i, j, c);
            }
            assert(col_cleared(self@));
        }
        self.leader_sort();
        let ghost pre_norm = self@;
        self.normalize();
        proof {
            lemma_rref_finish(pre_norm, self@);
            if mat_rref_form(old(self)@) {
                assert(pre_norm == old(self)@);
                assert forall|i: int| 0 <= i < n implies #[trigger] self@[i] == old(self)@[i] by {
                    if row_all_zero(pre_norm[i]@) {
                    } else {
                        crate::order::lemma_has_leader(pre_norm[i]@);
                        let c = choose|c: int| row_leader_at(pre_norm[i]@, c);
                        assert(frac_is_one(rat_model(old(self)@[i]@[c])));
                    }
                }
                assert(self@ =~= old(self)@);
            }
        }
    }
}

/// Leader positions pinned to an echelon-ordered snapshot keep the strict
/// echelon ordering.
proof fn lemma_lead_lt_transfer(base: Seq<RowVec>, cur: Seq<RowVec>, a: int, b: int)
    requires
        base.len() == cur.len(),
        0 <= a < b < base.len(),
        mat_echelon(base),
        forall|j: int| 0 <= j < base.len() && row_all_zero(base[j]@) ==> #[trigger] cur[j] == base[j],
        forall|j: int, c: int|
            #![trigger row_leader_at(base[j]@, c)]
            0 <= j < base.len() && row_leader_at(base[j]@, c) ==> row_leader_at(cur[j]@, c),
    ensures
        lead_lt(cur[a]@, cur[b]@),
{
    assert(lead_lt(base[a]@, base[b]@));
    if !row_all_zero(cur[b]@) {
        assert(!row_all_zero(base[b]@)) by {
            if row_all_zero(base[b]@) {
                assert(cur[b] == base[b]);
            }
        }
        crate::order::lemma_has_leader(base[b]@);
        assert(!row_all_zero(base[a]@));
        crate::order::lemma_has_leader(base[a]@);
        let ca = choose|c: int| row_leader_at(base[a]@, c);
        assert(row_leader_at(cur[a]@, ca));
        assert(!row_all_zero(cur[a]@));
    }
    assert forall|ca: int, cb: int|
        row_leader_at(cur[a]@, ca) && row_leader_at(cur[b]@, cb) implies ca < cb by {
        assert(!row_all_zero(cur[b]@));
        assert(!row_all_zero(base[b]@)) by {
            if row_all_zero(base[b]@) {
                assert(cur[b] == base[b]);
            }
        }
        assert(!row_all_zero(base[a]@)) by {
            if row_all_zero(base[a]@) {
                assert(cur[a] == base[a]);
                assert(!row_all_zero(cur[a]@));
            }
        }
        crate::order::lemma_has_leader(base[a]@);
        crate::order::lemma_has_leader(base[b]@);
        let ba = choose|c: int| row_leader_at(base[a]@, c);
        let bb = choose|c: int| row_leader_at(base[b]@, c);
        assert(row_leader_at(cur[a]@, ba));
        assert(row_leader_at(cur[b]@, bb));
        lemma_leader_unique(cur[a]@, ca, ba);
        lemma_leader_unique(cur[b]@, cb, bb);
        assert(ba < bb);
    }
}

/// After the upward sweep every leader column is zero in every other row.
proof fn lemma_rref_cleared(base: Seq<RowVec>, cur: Seq<RowVec>, i: int, j: int, c: int)
    requires
        base.len() == cur.len(),
        0 <= i < base.len(),
        0 <= j < base.len(),
        j != i,
        mat_echelon(base),
        mat_wf(cur),
        mat_wf(base),
        mat_width(cur) == mat_width(base),
        forall|q: int| 0 <= q < base.len() && row_all_zero(base[q]@) ==> #[trigger] cur[q] == base[q],
        forall|q: int, cq: int|
            #![trigger row_leader_at(base[q]@, cq)]
            0 <= q < base.len() && row_leader_at(base[q]@, cq) ==> row_leader_at(cur[q]@, cq),
        forall|tp: int, q: int, cq: int|
            #![trigger row_leader_at(base[tp]@, cq), rat_model(cur[q]@[cq])]
            0 <= q < tp < base.len() && row_leader_at(base[tp]@, cq) ==> frac_is_zero(
                rat_model(cur[q]@[cq]),
            ),
        row_leader_at(cur[i]@, c),
    ensures
        frac_is_zero(rat_model(cur[j]@[c])),
{
    // the leader of the current row is the leader of the snapshot row
    assert(!row_all_zero(cur[i]@));
    assert(!row_all_zero(base[i]@)) by {
        if row_all_zero(base[i]@) {
            assert(cur[i] == base[i]);
        }
    }
    crate::order::lemma_has_leader(base[i]@);
    let bi = choose|x: int| row_leader_at(base[i]@, x);
    assert(row_leader_at(cur[i]@, bi));
    lemma_leader_unique(cur[i]@, c, bi);
    if j < i {
        assert(frac_is_zero(rat_model(cur[j]@[c])));
    } else {
        // a row below: its leader sits strictly right of `c`, or it is zero
        if row_all_zero(cur[j]@) {
            assert(c < cur[j]@.len());
        } else {
            assert(!row_all_zero(base[j]@)) by {
                if row_all_zero(base[j]@) {
                    assert(cur[j] == base[j]);
                }
            }
            crate::order::lemma_has_leader(base[j]@);
            let bj = choose|x: int| row_leader_at(base[j]@, x);
            assert(row_leader_at(cur[j]@, bj));
            assert(lead_lt(base[i]@, base[j]@));
            assert(bi < bj);
            assert(frac_is_zero(rat_model(cur[j]@[c])));
        }
    }
}

/// Normalizing a matrix in echelon order with cleared leader columns yields
/// reduced row echelon form.
proof fn lemma_rref_finish(prev: Seq<RowVec>, cur: Seq<RowVec>)
    requires
        prev.len() == cur.len(),
        mat_echelon(prev),
        col_cleared(prev),
        mat_wf(prev),
        forall|i: int| 0 <= i < cur.len() ==> #[trigger] cur[i]@.len() == prev[i]@.len(),
        forall|i: int, c: int|
            #![trigger row_leader_at(prev[i]@, c)]
            0 <= i < cur.len() && row_leader_at(prev[i]@, c) ==> (row_leader_at(cur[i]@, c)
                && frac_is_one(rat_model(cur[i]@[c]))),
        forall|i: int, k: int|
            0 <= i < cur.len() && 0 <= k < prev[i]@.len() && frac_is_zero(
                rat_model(prev[i]@[k]),
            ) ==> frac_is_zero(rat_model(#[trigger] cur[i]@[k])),
        forall|i: int|
            0 <= i < cur.len() && row_all_zero(prev[i]@) ==> #[trigger] cur[i] == prev[i],
    ensures
        mat_rref_form(cur),
{
    assert forall|a: int, b: int| 0 <= a < b < cur.len() implies lead_lt(
        #[trigger] cur[a]@,
        #[trigger] cur[b]@,
    ) by {
        lemma_lead_lt_transfer(prev, cur, a, b);
    }
    assert forall|i: int, c: int|
        0 <= i < cur.len() && #[trigger] row_leader_at(cur[i]@, c) implies frac_is_one(
        rat_model(cur[i]@[c]),
    ) by {
        assert(!row_all_zero(cur[i]@));
        assert(!row_all_zero(prev[i]@)) by {
            if row_all_zero(prev[i]@) {
                assert(cur[i] == prev[i]);
            }
        }
        crate::order::lemma_has_leader(prev[i]@);
        let pc = choose|x: int| row_leader_at(prev[i]@, x);
        assert(row_leader_at(cur[i]@, pc));
        lemma_leader_unique(cur[i]@, c, pc);
    }
    assert forall|i: int, j: int, c: int|
        #![trigger row_leader_at(cur[i]@, c), rat_model(cur[j]@[c])]
        0 <= i < cur.len() && 0 <= j < cur.len() && j != i && row_leader_at(cur[i]@, c)
        implies frac_is_zero(rat_model(cur[j]@[c])) by {
        assert(!row_all_zero(cur[i]@));
        assert(!row_all_zero(prev[i]@)) by {
            if row_all_zero(prev[i]@) {
                assert(cur[i] == prev[i]);
            }
        }
        crate::order::lemma_has_leader(prev[i]@);
        let pc = choose|x: int| row_leader_at(prev[i]@, x);
        assert(row_leader_at(cur[i]@, pc));
        lemma_leader_unique(cur[i]@, c, pc);
        assert(frac_is_zero(rat_model(prev[j]@[c])));
        assert(c < prev[j]@.len()) by {
            assert(c < prev[i]@.len());
        }
    }
}


/// The dot product of row `a` with column `col` of the rows `b`, over the
/// first `k` terms, accumulated left to right from an exact zero.
pub open spec fn dot_prefix(a: Seq<Rational>, b: Seq<RowVec>, col: int, k: int) -> Frac
    decreases k,
{
    if k <= 0 {
        frac_from_int(0)
    } else {
        frac_add(
            dot_prefix(a, b, col, k - 1),
            frac_mul(rat_model(a[k - 1]), rat_model(b[k - 1]@[col])),
        )
    }
}

/// The full dot product of row `a` with column `col` of the rows `b`.
pub open spec fn dot_spec(a: Seq<Rational>, b: Seq<RowVec>, col: int) -> Frac {
    dot_prefix(a, b, col, a.len() as int)
}

/// A square matrix of exact ones on the diagonal and exact zeros elsewhere.
pub open spec fn is_identity(m: Seq<RowVec>) -> bool {
    &&& mat_width(m) == m.len()
    &&& forall|a: int, b: int|
        0 <= a < m.len() && 0 <= b < m.len() ==> (if a == b {
            frac_is_one(rat_model(#[trigger] m[a]@[b]))
        } else {
            frac_is_zero(rat_model(m[a]@[b]))
        })
}

/// Dot-product prefixes keep a positive denominator.
proof fn lemma_dot_prefix_wf(a: Seq<Rational>, b: Seq<RowVec>, col: int, k: int)
    requires
        row_wf(a),
        k <= a.len(),
        a.len() <= b.len(),
        mat_wf(b),
        0 <= col < mat_width(b),
    ensures
        dot_prefix(a, b, col, k).d > 0,
    decreases k,
{
    if k > 0 {
        lemma_dot_prefix_wf(a, b, col, k - 1);
        let p = dot_prefix(a, b, col, k - 1);
        let t = frac_mul(rat_model(a[k - 1]), rat_model(b[k - 1]@[col]));
        assert(dot_prefix(a, b, col, k).d > 0) by (nonlinear_arith)
            requires
                dot_prefix(a, b, col, k).d == p.d * (t.d),
                t.d == rat_model(a[k - 1]).d * rat_model(b[k - 1]@[col]).d,
                p.d > 0,
                rat_model(a[k - 1]).d > 0,
                rat_model(b[k - 1]@[col]).d > 0,
        ;
    }
}

/// One accumulation step extends the dot-product prefix by one term.
proof fn lemma_dot_step(
    a: Seq<Rational>,
    b: Seq<RowVec>,
    col: int,
    k: int,
    acc: Frac,
    prod: Frac,
    next: Frac,
)
    requires
        row_wf(a),
        0 <= k < a.len(),
        a.len() <= b.len(),
        mat_wf(b),
        0 <= col < mat_width(b),
        acc.d > 0,
        prod.d > 0,
        next.d > 0,
        frac_eq(acc, dot_prefix(a, b, col, k)),
        frac_eq(prod, frac_mul(rat_model(a[k]), rat_model(b[k]@[col]))),
        frac_eq(next, frac_add(acc, prod)),
    ensures
        frac_eq(next, dot_prefix(a, b, col, k + 1)),
{
    let p = dot_prefix(a, b, col, k);
    let t = frac_mul(rat_model(a[k]), rat_model(b[k]@[col]));
    lemma_dot_prefix_wf(a, b, col, k);
    assert(t.d > 0) by (nonlinear_arith)
        requires
            t.d == rat_model(a[k]).d * rat_model(b[k]@[col]).d,
            rat_model(a[k]).d > 0,
            rat_model(b[k]@[col]).d > 0,
    ;
    crate::frac::lemma_frac_add_congr_right(acc, prod, t);
    assert(frac_add(acc, prod).d != 0) by (nonlinear_arith)
        requires
            frac_add(acc, prod).d == acc.d * prod.d,
            acc.d > 0,
            prod.d > 0,
    ;
    crate::frac::lemma_frac_eq_trans(next, frac_add(acc, prod), frac_add(acc, t));
    crate::frac::lemma_frac_add_congr_left(acc, p, t);
    assert(frac_add(acc, t).d != 0) by (nonlinear_arith)
        requires
            frac_add(acc, t).d == acc.d * t.d,
            acc.d > 0,
            t.d > 0,
    ;
    crate::frac::lemma_frac_eq_trans(next, frac_add(acc, t), frac_add(p, t));
}

/// A dot product against an identity column picks the matching entry: the
/// terms before and after the diagonal are zero, the diagonal term is the
/// entry itself.
proof fn lemma_dot_identity_prefix(a: Seq<Rational>, ident: Seq<RowVec>, i: int, k: int)
    requires
        row_wf(a),
        a.len() == ident.len(),
        mat_wf(ident),
        is_identity(ident),
        0 <= i < ident.len(),
        0 <= k <= a.len(),
    ensures
        k <= i ==> frac_is_zero(dot_prefix(a, ident, i, k)),
        k > i ==> frac_eq(dot_prefix(a, ident, i, k), rat_model(a[i])),
    decreases k,
{
    if k > 0 {
        lemma_dot_identity_prefix(a, ident, i, k - 1);
        lemma_dot_prefix_wf(a, ident, i, k - 1);
        let p = dot_prefix(a, ident, i, k - 1);
        let e = rat_model(ident[k - 1]@[i]);
        let ak = rat_model(a[k - 1]);
        let cur = dot_prefix(a, ident, i, k);
        if k - 1 < i {
            // a zero term keeps the prefix zero
            assert(frac_is_zero(e));
            assert(frac_is_zero(cur)) by (nonlinear_arith)
                requires
                    cur.n == p.n * (ak.d * e.d) + (ak.n * e.n) * p.d,
                    p.n == 0,
                    e.n == 0,
            ;
        } else if k - 1 == i {
            // the diagonal term adds the entry itself to a zero prefix
            assert(frac_is_one(e));
            assert(frac_eq(cur, ak)) by (nonlinear_arith)
                requires
                    cur.n == p.n * (ak.d * e.d) + (ak.n * e.n) * p.d,
                    cur.d == p.d * (ak.d * e.d),
                    p.n == 0,
                    e.n == e.d,
                    p.d > 0,
            ;
        } else {
            // past the diagonal every term is zero again
            assert(frac_is_zero(e));
            let t = frac_mul(ak, e);
            assert(frac_is_zero(t));
            assert(t.d != 0) by (nonlinear_arith)
                requires
                    t.d == ak.d * e.d,
                    ak.d > 0,
                    e.d > 0,
            ;
            assert(frac_eq(cur, p)) by (nonlinear_arith)
                requires
                    cur.n == p.n * t.d + t.n * p.d,
                    cur.d == p.d * t.d,
                    t.n == 0,
            ;
            assert(cur.d != 0) by (nonlinear_arith)
                requires
                    cur.d == p.d * t.d,
                    p.d > 0,
                    t.d != 0,
            ;
            crate::frac::lemma_frac_eq_trans(cur, p, rat_model(a[i]));
        }
    }
}

/// Multiplying any matrix by a matching identity matrix gives back the same
/// values: entry by entry, the product's dot products equal the entries of
/// the left operand exactly.
pub proof fn lemma_mul_identity(m: Seq<RowVec>, ident: Seq<RowVec>, j: int, i: int)
    requires
        mat_wf(m),
        mat_wf(ident),
        is_identity(ident),
        ident.len() == mat_width(m),
        0 <= j < m.len(),
        0 <= i < ident.len(),
    ensures
        frac_eq(dot_spec(m[j]@, ident, i), rat_model(m[j]@[i])),
{
    assert(m[j]@.len() == mat_width(m));
    lemma_dot_identity_prefix(m[j]@, ident, i, m[j]@.len() as int);
}

impl Matrix {
    /// Standard matrix multiplication into a fresh matrix. Both operands
    /// empty gives the empty matrix; an empty left operand against a
    /// non-empty right one has no valid result shape and fails; otherwise
    /// the left width must equal the right height, and entry `(j, i)` of the
    /// result is the dot product of row `j` and column `i`.
    pub fn matrix_mul(&self, rhs: &Matrix) -> (r: Result<Matrix, DimensionMismatch>)
        requires
            mat_wf(self@),
            mat_wf(rhs@),
            !(self@.len() > 0 && mat_width(self@) == 0 && rhs@.len() == 0),
        ensures
            match r {
                Ok(out) => {
                    &&& self@.len() == 0 ==> rhs@.len() == 0 && out@.len() == 0
                    &&& self@.len() > 0 ==> {
                        &&& mat_width(self@) == rhs@.len()
                        &&& mat_width(rhs@) == 0 ==> out@.len() == 0
                        &&& mat_width(rhs@) > 0 ==> {
                            &&& out@.len() == self@.len()
                            &&& mat_width(out@) == mat_width(rhs@)
                            &&& forall|j: int, i: int|
                                0 <= j < out@.len() && 0 <= i < mat_width(rhs@) ==> frac_eq(
                                    rat_model(#[trigger] out@[j]@[i]),
                                    dot_spec(self@[j]@, rhs@, i),
                                )
                        }
                    }
                    &&& mat_wf(out@)
                },
                Err(e) => {
                    if self@.len() == 0 {
                        rhs@.len() > 0 && e == DimensionMismatch::MulEmpty
                    } else {
                        &&& mat_width(self@) != rhs@.len()
                        &&& e == DimensionMismatch::MulShape(
                            mat_width(self@) as usize,
                            rhs@.len() as usize,
                        )
                    }
                },
            },
    {
        if self.rows.is_empty() && rhs.rows.is_empty() {
            return Ok(Matrix::empty());
        }
        if self.rows.is_empty() {
            return Err(DimensionMismatch::MulEmpty);
        }
        if self.rows[0].len() != rhs.rows.len() {
            return Err(DimensionMismatch::MulShape(self.rows[0].len(), rhs.rows.len()));
        }
        let out_h = self.rows.len();
        let inner = self.rows[0].len();
        let out_w = rhs.rows[0].len();
        let mut new = Matrix::zeros(out_h, out_w);
        if out_w == 0 {
            return Ok(new);
        }
        let mut j: usize = 0;
        while j < out_h
            invariant
                mat_wf(self@),
                mat_wf(rhs@),
                out_h == self@.len(),
                inner == mat_width(self@),
                inner == rhs@.len(),
                0 < out_w,
                out_w == mat_width(rhs@),
                j <= out_h,
                new@.len() == out_h,
                mat_width(new@) == out_w,
                mat_wf(new@),
                forall|j2: int, i2: int|
                    0 <= j2 < j && 0 <= i2 < out_w ==> frac_eq(
                        rat_model(#[trigger] new@[j2]@[i2]),
                        dot_spec(self@[j2]@, rhs@, i2),
                    ),
            decreases out_h - j,
        {
            let mut i: usize = 0;
            while i < out_w
                invariant
                    mat_wf(self@),
                    mat_wf(rhs@),
                    out_h == self@.len(),
                    inner == mat_width(self@),
                    inner == rhs@.len(),
                    0 < out_w,
                    out_w == mat_width(rhs@),
                    j < out_h,
                    i <= out_w,
                    new@.len() == out_h,
                    mat_width(new@) == out_w,
                    mat_wf(new@),
                    forall|j2: int, i2: int|
                        0 <= j2 < j && 0 <= i2 < out_w ==> frac_eq(
                            rat_model(#[trigger] new@[j2]@[i2]),
                            dot_spec(self@[j2]@, rhs@, i2),
                        ),
                    forall|i2: int|
                        0 <= i2 < i ==> frac_eq(
                            rat_model(#[trigger] new@[j as int]@[i2]),
                            dot_spec(self@[j as int]@, rhs@, i2),
                        ),
                decreases out_w - i,
            {
                let mut acc = rat_from_i64(0);
                let mut k: usize = 0;
                while k < inner
                    invariant
                        mat_wf(self@),
                        mat_wf(rhs@),
                        out_h == self@.len(),
                        inner == mat_width(self@),
                        inner == rhs@.len(),
                        j < out_h,
                        i < out_w,
                        out_w == mat_width(rhs@),
                        k <= inner,
                        rat_wf(acc),
                        frac_eq(rat_model(acc), dot_prefix(self@[j as int]@, rhs@, i as int, k as int)),
                    decreases inner - k,
                {
                    let prod = rat_mul(self.rows[j].entry(k), rhs.rows[k].entry(i));
                    let next = rat_add(&acc, &prod);
                    proof {
                        lemma_dot_step(
                            self@[j as int]@,
                            rhs@,
                            i as int,
                            k as int,
                            rat_model(acc),
                            rat_model(prod),
                            rat_model(next),
                        );
                    }
                    acc = next;
                    k = k + 1;
                }
                new.rows[j].set_entry(i, acc);
                proof {
                    assert(new@[j as int]@.len() == out_w);
                    assert forall|q: int| 0 <= q < new@.len() implies (row_wf(#[trigger] new@[q]@)
                        && new@[q]@.len() == mat_width(new@)) by {}
                }
                i = i + 1;
            }
            j = j + 1;
        }
        Ok(new)
    }
}

} // verus!
