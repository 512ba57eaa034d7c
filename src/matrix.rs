//! Dense matrices with shape-checked arithmetic.
use vstd::prelude::*;
use crate::arith::{Arith, Binary, Unary};

verus! {

/// An operand had a shape that the operation does not accept.
#[derive(Clone, Copy, Debug, PartialEq, Eq, Structural)]
pub struct ShapeError;

/// A dense matrix, stored as a sequence of rows.
#[derive(Clone, Debug)]
pub struct Matrix<T> {
    pub value: Vec<Vec<T>>,
}

impl<T> View for Matrix<T> {
    type V = Seq<Seq<T>>;

    open spec fn view(&self) -> Seq<Seq<T>> {
        self.value@.map_values(|r: Vec<T>| r@)
    }
}

/// At least one row, at least one column, and every row as long as the first.
pub open spec fn well_formed<T>(m: Seq<Seq<T>>) -> bool {
    &&& m.len() >= 1
    &&& m[0].len() >= 1
    &&& forall|i: int| 0 <= i < m.len() ==> #[trigger] m[i].len() == m[0].len()
}

/// A well-formed matrix with `r` rows and `c` columns.
pub open spec fn has_shape<T>(m: Seq<Seq<T>>, r: nat, c: nat) -> bool {
    well_formed(m) && m.len() == r && m[0].len() == c
}

/// Two well-formed matrices of one shape.
pub open spec fn same_shape<T, S>(a: Seq<Seq<T>>, b: Seq<Seq<S>>) -> bool {
    well_formed(a) && well_formed(b) && a.len() == b.len() && a[0].len() == b[0].len()
}

/// The `r` by `c` matrix whose every element is `v`.
pub open spec fn filled<T>(r: nat, c: nat, v: T) -> Seq<Seq<T>> {
    Seq::new(r, |i: int| Seq::new(c, |j: int| v))
}

/// Rows and columns swapped.
pub open spec fn transposed<T>(m: Seq<Seq<T>>) -> Seq<Seq<T>> {
    Seq::new(m[0].len(), |j: int| Seq::new(m.len(), |i: int| m[i][j]))
}

impl<T: Copy, B: Fn(Binary, T, T) -> T, U: Fn(Unary, T) -> T, E: Fn(T, T) -> bool> Arith<T, B, U, E> {
    /// `o` applied to each pair of corresponding elements.
    pub open spec fn zip(&self, o: Binary, a: Seq<Seq<T>>, b: Seq<Seq<T>>) -> Seq<Seq<T>> {
        Seq::new(a.len(), |i: int| Seq::new(a[i].len(), |j: int| self.bin(o, a[i][j], b[i][j])))
    }

    /// `o` applied to each element.
    pub open spec fn map(&self, o: Unary, m: Seq<Seq<T>>) -> Seq<Seq<T>> {
        Seq::new(m.len(), |i: int| Seq::new(m[i].len(), |j: int| self.un(o, m[i][j])))
    }

    /// Each element multiplied by `s`, from the left.
    pub open spec fn scale(&self, s: T, m: Seq<Seq<T>>) -> Seq<Seq<T>> {
        Seq::new(m.len(), |i: int| Seq::new(m[i].len(), |j: int| self.bin(Binary::Mul, s, m[i][j])))
    }

    /// `Σ a[i][t] * b[t][j]` over `t < k`, added from `zero` in ascending `t`.
    pub open spec fn dot_sum(&self, a: Seq<Seq<T>>, b: Seq<Seq<T>>, i: int, j: int, k: nat) -> T
        decreases k,
    {
        if k == 0 {
            self.zero
        } else {
            self.bin(
                Binary::Add,
                self.dot_sum(a, b, i, j, (k - 1) as nat),
                self.bin(Binary::Mul, a[i][k - 1], b[k - 1][j]),
            )
        }
    }

    /// The matrix product.
    pub open spec fn dot(&self, a: Seq<Seq<T>>, b: Seq<Seq<T>>) -> Seq<Seq<T>> {
        Seq::new(a.len(), |i: int| Seq::new(b[0].len(), |j: int| self.dot_sum(a, b, i, j, a[0].len())))
    }
}

impl<T: Copy> Matrix<T> {
    /// Whether the matrix has at least one row and column and no ragged row.
    pub fn is_well_formed(&self) -> (r: bool)
        ensures
            r == well_formed(self@),
    {
        if self.value.len() == 0 || self.value[0].len() == 0 {
            return false;
        }
        let c = self.value[0].len();
        let mut i: usize = 1;
        while i < self.value.len()
            invariant
                1 <= i <= self.value.len(),
                c == self@[0].len(),
                forall|k: int| 0 <= k < i ==> #[trigger] self@[k].len() == c,
            decreases self.value.len() - i,
        {
            if self.value[i].len() != c {
                assert(self@[i as int].len() != self@[0].len());
                return false;
            }
            i += 1;
        }
        true
    }

    /// The `rows` by `cols` matrix whose every element is `value`.
    pub fn new(rows: usize, cols: usize, value: T) -> (m: Matrix<T>)
        ensures
            m@ == filled(rows as nat, cols as nat, value),
    {
        let mut out: Vec<Vec<T>> = Vec::new();
        let mut i: usize = 0;
        while i < rows
            invariant
                i <= rows,
                out@.len() == i,
                forall|k: int| 0 <= k < i ==> #[trigger] out@[k]@ == Seq::new(cols as nat, |j: int| value),
            decreases rows - i,
        {
            let mut row: Vec<T> = Vec::new();
            let mut j: usize = 0;
            while j < cols
                invariant
                    j <= cols,
                    row@ == Seq::new(j as nat, |t: int| value),
                decreases cols - j,
            {
                row.push(value);
                j += 1;
                assert(row@ =~= Seq::new(j as nat, |t: int| value));
            }
            out.push(row);
            i += 1;
        }
        let m = Matrix { value: out };
        assert(m@ =~= filled(rows as nat, cols as nat, value));
        m
    }

    /// The number of rows and of columns, the latter read from the first row.
    pub fn size(&self) -> (r: (usize, usize))
        ensures
            r.0 == self@.len(),
            r.1 == (if self@.len() == 0 { 0 } else { self@[0].len() }),
    {
        if self.value.len() == 0 {
            (0, 0)
        } else {
            (self.value.len(), self.value[0].len())
        }
    }

    /// Rows and columns swapped; a ragged or empty matrix is refused.
    pub fn transpose(&self) -> (r: Result<Matrix<T>, ShapeError>)
        ensures
            match r {
                Ok(m) => well_formed(self@) && m@ == transposed(self@),
                Err(_) => !well_formed(self@),
            },
    {
        if !self.is_well_formed() {
            return Err(ShapeError);
        }
        let rows = self.value.len();
        let cols = self.value[0].len();
        let mut out: Vec<Vec<T>> = Vec::new();
        let mut j: usize = 0;
        while j < cols
            invariant
                well_formed(self@),
                rows == self@.len(),
                cols == self@[0].len(),
                j <= cols,
                out@.len() == j,
                forall|k: int| 0 <= k < j ==> #[trigger] out@[k]@ == transposed(self@)[k],
            decreases cols - j,
        {
            let mut row: Vec<T> = Vec::new();
            let mut i: usize = 0;
            while i < rows
                invariant
                    well_formed(self@),
                    rows == self@.len(),
                    cols == self@[0].len(),
                    j < cols,
                    i <= rows,
                    row@ == Seq::new(i as nat, |t: int| self@[t][j as int]),
                decreases rows - i,
            {
                assert(self@[i as int].len() == cols);
                row.push(self.value[i][j]);
                i += 1;
                assert(row@ =~= Seq::new(i as nat, |t: int| self@[t][j as int]));
            }
            assert(row@ =~= transposed(self@)[j as int]);
            out.push(row);
            j += 1;
        }
        let m = Matrix { value: out };
        assert(m@ =~= transposed(self@));
        Ok(m)
    }

    /// `o` applied to each pair of corresponding elements: the sum, the
    /// difference or the Hadamard product. Operands of different shapes, or
    /// ragged ones, are refused.
    pub fn elementwise<B, U, E>(&self, other: &Matrix<T>, o: Binary, ar: &Arith<T, B, U, E>) -> (r: Result<
        Matrix<T>,
        ShapeError,
    >) where B: Fn(Binary, T, T) -> T, U: Fn(Unary, T) -> T, E: Fn(T, T) -> bool
        requires
            ar.wf(),
        ensures
            match r {
                Ok(m) => same_shape(self@, other@) && m@ == ar.zip(o, self@, other@),
                Err(_) => !same_shape(self@, other@),
            },
    {
        if !self.is_well_formed() || !other.is_well_formed() || self.value.len() != other.value.len()
            || self.value[0].len() != other.value[0].len() {
            return Err(ShapeError);
        }
        let rows = self.value.len();
        let cols = self.value[0].len();
        let mut out: Vec<Vec<T>> = Vec::new();
        let mut i: usize = 0;
        while i < rows
            invariant
                ar.wf(),
                same_shape(self@, other@),
                rows == self@.len(),
                cols == self@[0].len(),
                i <= rows,
                out@.len() == i,
                forall|k: int| 0 <= k < i ==> #[trigger] out@[k]@ == ar.zip(o, self@, other@)[k],
            decreases rows - i,
        {
            assert(self@[i as int].len() == cols && other@[i as int].len() == cols);
            let mut row: Vec<T> = Vec::new();
            let mut j: usize = 0;
            while j < cols
                invariant
                    ar.wf(),
                    same_shape(self@, other@),
                    rows == self@.len(),
                    cols == self@[0].len(),
                    i < rows,
                    self@[i as int].len() == cols,
                    other@[i as int].len() == cols,
                    j <= cols,
                    row@ == Seq::new(j as nat, |t: int| ar.bin(o, self@[i as int][t], other@[i as int][t])),
                decreases cols - j,
            {
                let x = ar.apply(o, self.value[i][j], other.value[i][j]);
                row.push(x);
                j += 1;
                assert(row@ =~= Seq::new(j as nat, |t: int| ar.bin(o, self@[i as int][t], other@[i as int][t])));
            }
            assert(row@ =~= ar.zip(o, self@, other@)[i as int]);
            out.push(row);
            i += 1;
        }
        let m = Matrix { value: out };
        assert(m@ =~= ar.zip(o, self@, other@));
        Ok(m)
    }

    /// `o` applied to each element.
    pub fn map<B, U, E>(&self, o: Unary, ar: &Arith<T, B, U, E>) -> (m: Matrix<T>) where
        B: Fn(Binary, T, T) -> T,
        U: Fn(Unary, T) -> T,
        E: Fn(T, T) -> bool,

        requires
            ar.wf(),
        ensures
            m@ == ar.map(o, self@),
    {
        let mut out: Vec<Vec<T>> = Vec::new();
        let mut i: usize = 0;
        while i < self.value.len()
            invariant
                ar.wf(),
                i <= self@.len(),
                out@.len() == i,
                forall|k: int| 0 <= k < i ==> #[trigger] out@[k]@ == ar.map(o, self@)[k],
            decreases self@.len() - i,
        {
            let mut row: Vec<T> = Vec::new();
            let mut j: usize = 0;
            while j < self.value[i].len()
                invariant
                    ar.wf(),
                    i < self@.len(),
                    j <= self@[i as int].len(),
                    row@ == Seq::new(j as nat, |t: int| ar.un(o, self@[i as int][t])),
                decreases self@[i as int].len() - j,
            {
                let x = ar.apply_unary(o, self.value[i][j]);
                row.push(x);
                j += 1;
                assert(row@ =~= Seq::new(j as nat, |t: int| ar.un(o, self@[i as int][t])));
            }
            assert(row@ =~= ar.map(o, self@)[i as int]);
            out.push(row);
            i += 1;
        }
        let m = Matrix { value: out };
        assert(m@ =~= ar.map(o, self@));
        m
    }

    /// Each element multiplied by `scalar`. A matrix with no row, or whose
    /// first row is empty, is refused.
    pub fn scalar_mul<B, U, E>(scalar: T, matrix: &Matrix<T>, ar: &Arith<T, B, U, E>) -> (r: Result<
        Matrix<T>,
        ShapeError,
    >) where B: Fn(Binary, T, T) -> T, U: Fn(Unary, T) -> T, E: Fn(T, T) -> bool
        requires
            ar.wf(),
        ensures
            match r {
                Ok(m) => matrix@.len() >= 1 && matrix@[0].len() >= 1 && m@ == ar.scale(scalar, matrix@),
                Err(_) => matrix@.len() == 0 || matrix@[0].len() == 0,
            },
    {
        if matrix.value.len() == 0 || matrix.value[0].len() == 0 {
            return Err(ShapeError);
        }
        let mut out: Vec<Vec<T>> = Vec::new();
        let mut i: usize = 0;
        while i < matrix.value.len()
            invariant
                ar.wf(),
                i <= matrix@.len(),
                out@.len() == i,
                forall|k: int| 0 <= k < i ==> #[trigger] out@[k]@ == ar.scale(scalar, matrix@)[k],
            decreases matrix@.len() - i,
        {
            let mut row: Vec<T> = Vec::new();
            let mut j: usize = 0;
            while j < matrix.value[i].len()
                invariant
                    ar.wf(),
                    i < matrix@.len(),
                    j <= matrix@[i as int].len(),
                    row@ == Seq::new(j as nat, |t: int| ar.bin(Binary::Mul, scalar, matrix@[i as int][t])),
                decreases matrix@[i as int].len() - j,
            {
                let x = ar.apply(Binary::Mul, scalar, matrix.value[i][j]);
                row.push(x);
                j += 1;
                assert(row@ =~= Seq::new(j as nat, |t: int| ar.bin(Binary::Mul, scalar, matrix@[i as int][t])));
            }
            assert(row@ =~= ar.scale(scalar, matrix@)[i as int]);
            out.push(row);
            i += 1;
        }
        let m = Matrix { value: out };
        assert(m@ =~= ar.scale(scalar, matrix@));
        Ok(m)
    }

    /// The matrix product, each element summed in ascending order of the
    /// inner index. Refused unless both operands are well formed and the
    /// columns of `m_a` match the rows of `m_b`.
    pub fn dot<B, U, E>(m_a: &Matrix<T>, m_b: &Matrix<T>, ar: &Arith<T, B, U, E>) -> (r: Result<
        Matrix<T>,
        ShapeError,
    >) where B: Fn(Binary, T, T) -> T, U: Fn(Unary, T) -> T, E: Fn(T, T) -> bool
        requires
            ar.wf(),
        ensures
            match r {
                Ok(m) => {
                    &&& well_formed(m_a@)
                    &&& well_formed(m_b@)
                    &&& m_a@[0].len() == m_b@.len()
                    &&& m@ == ar.dot(m_a@, m_b@)
                },
                Err(_) => !(well_formed(m_a@) && well_formed(m_b@) && m_a@[0].len() == m_b@.len()),
            },
    {
        if !m_a.is_well_formed() || !m_b.is_well_formed() || m_a.value[0].len() != m_b.value.len() {
            return Err(ShapeError);
        }
        let rows = m_a.value.len();
        let inner = m_b.value.len();
        let cols = m_b.value[0].len();
        let ghost a = m_a@;
        let ghost b = m_b@;
        let mut out: Vec<Vec<T>> = Vec::new();
        let mut i: usize = 0;
        while i < rows
            invariant
                ar.wf(),
                well_formed(a),
                well_formed(b),
                a == m_a@,
                b == m_b@,
                rows == a.len(),
                inner == b.len(),
                inner == a[0].len(),
                cols == b[0].len(),
                i <= rows,
                out@.len() == i,
                forall|k: int| 0 <= k < i ==> #[trigger] out@[k]@ == ar.dot(a, b)[k],
            decreases rows - i,
        {
            assert(a[i as int].len() == inner);
            let mut row: Vec<T> = Vec::new();
            let mut j: usize = 0;
            while j < cols
                invariant
                    ar.wf(),
                    well_formed(a),
                    well_formed(b),
                    a == m_a@,
                    b == m_b@,
                    rows == a.len(),
                    inner == b.len(),
                    inner == a[0].len(),
                    cols == b[0].len(),
                    i < rows,
                    a[i as int].len() == inner,
                    j <= cols,
                    row@ == Seq::new(j as nat, |t: int| ar.dot_sum(a, b, i as int, t, inner as nat)),
                decreases cols - j,
            {
                let mut acc = ar.zero;
                let mut k: usize = 0;
                while k < inner
                    invariant
                        ar.wf(),
                        well_formed(b),
                        a == m_a@,
                        b == m_b@,
                        inner == b.len(),
                        cols == b[0].len(),
                        i < rows == a.len(),
                        a[i as int].len() == inner,
                        j < cols,
                        k <= inner,
                        acc == ar.dot_sum(a, b, i as int, j as int, k as nat),
                    decreases inner - k,
                {
                    assert(b[k as int].len() == cols);
                    let p = ar.apply(Binary::Mul, m_a.value[i][k], m_b.value[k][j]);
                    acc = ar.apply(Binary::Add, acc, p);
                    k += 1;
                }
                row.push(acc);
                j += 1;
                assert(row@ =~= Seq::new(j as nat, |t: int| ar.dot_sum(a, b, i as int, t, inner as nat)));
            }
            assert(row@ =~= ar.dot(a, b)[i as int]);
            out.push(row);
            i += 1;
        }
        let m = Matrix { value: out };
        assert(m@ =~= ar.dot(a, b));
        Ok(m)
    }

    /// Adds `other` into this matrix in place; on a shape mismatch this
    /// matrix is left as it was.
    pub fn add_assign<B, U, E>(&mut self, other: &Matrix<T>, ar: &Arith<T, B, U, E>) -> (r: Result<
        (),
        ShapeError,
    >) where B: Fn(Binary, T, T) -> T, U: Fn(Unary, T) -> T, E: Fn(T, T) -> bool
        requires
            ar.wf(),
        ensures
            match r {
                Ok(_) => same_shape(old(self)@, other@) && final(self)@ == ar.zip(
                    Binary::Add,
                    old(self)@,
                    other@,
                ),
                Err(_) => !same_shape(old(self)@, other@) && final(self)@ == old(self)@,
            },
    {
        match self.elementwise(other, Binary::Add, ar) {
            Ok(m) => {
                *self = m;
                Ok(())
            },
            Err(e) => Err(e),
        }
    }
}

/// The product of an `m` by `n` and an `n` by `p` matrix is an `m` by `p`
/// matrix.
pub proof fn lemma_dot_shape<T: Copy, B, U, E>(ar: Arith<T, B, U, E>, a: Seq<Seq<T>>, b: Seq<Seq<T>>) where
    B: Fn(Binary, T, T) -> T,
    U: Fn(Unary, T) -> T,
    E: Fn(T, T) -> bool,

    requires
        well_formed(a),
        well_formed(b),
        a[0].len() == b.len(),
    ensures
        has_shape(ar.dot(a, b), a.len(), b[0].len()),
{
}

/// An elementwise operation keeps the common shape of its operands.
pub proof fn lemma_zip_shape<T: Copy, B, U, E>(
    ar: Arith<T, B, U, E>,
    o: Binary,
    a: Seq<Seq<T>>,
    b: Seq<Seq<T>>,
) where B: Fn(Binary, T, T) -> T, U: Fn(Unary, T) -> T, E: Fn(T, T) -> bool
    requires
        same_shape(a, b),
    ensures
        has_shape(ar.zip(o, a, b), a.len(), a[0].len()),
{
    assert forall|i: int| 0 <= i < a.len() implies #[trigger] ar.zip(o, a, b)[i].len() == a[0].len() by {
        assert(a[i].len() == a[0].len());
    }
}

/// Multiplying by a scalar keeps the shape.
pub proof fn lemma_scale_shape<T: Copy, B, U, E>(ar: Arith<T, B, U, E>, s: T, m: Seq<Seq<T>>) where
    B: Fn(Binary, T, T) -> T,
    U: Fn(Unary, T) -> T,
    E: Fn(T, T) -> bool,

    requires
        well_formed(m),
    ensures
        has_shape(ar.scale(s, m), m.len(), m[0].len()),
{
    assert forall|i: int| 0 <= i < m.len() implies #[trigger] ar.scale(s, m)[i].len() == m[0].len() by {
        assert(m[i].len() == m[0].len());
    }
}

/// Mapping a unary operation keeps the shape.
pub proof fn lemma_map_shape<T: Copy, B, U, E>(ar: Arith<T, B, U, E>, o: Unary, m: Seq<Seq<T>>) where
    B: Fn(Binary, T, T) -> T,
    U: Fn(Unary, T) -> T,
    E: Fn(T, T) -> bool,

    requires
        well_formed(m),
    ensures
        has_shape(ar.map(o, m), m.len(), m[0].len()),
{
    assert forall|i: int| 0 <= i < m.len() implies #[trigger] ar.map(o, m)[i].len() == m[0].len() by {
        assert(m[i].len() == m[0].len());
    }
}

/// Transposing a well-formed matrix twice gives it back: transposition only
/// permutes the elements.
pub proof fn lemma_transpose_involution<T>(m: Seq<Seq<T>>)
    requires
        well_formed(m),
    ensures
        well_formed(transposed(m)),
        transposed(transposed(m)) == m,
{
    let t = transposed(m);
    assert forall|i: int| 0 <= i < m.len() implies #[trigger] transposed(t)[i] =~= m[i] by {
        assert(m[i].len() == m[0].len());
    }
    assert(transposed(t) =~= m);
}

} // verus!
