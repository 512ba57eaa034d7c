//! A weighted layer, filled from a stream of draws in a fixed order.
use vstd::prelude::*;
use crate::matrix::{Matrix, has_shape};

verus! {

/// The `rows` by `cols` matrix read from `draws` in row-major order,
/// beginning at `start`.
pub open spec fn drawn<T>(draws: Seq<T>, start: int, rows: nat, cols: nat) -> Seq<Seq<T>> {
    Seq::new(rows, |i: int| Seq::new(cols, |j: int| draws[start + i * cols + j]))
}

/// The number of draws a layer consumes: its weights, then its biases.
pub open spec fn layer_draws(in_features: nat, out_features: nat) -> nat {
    in_features * out_features + out_features
}

proof fn lemma_row_major_index(i: int, j: int, rows: int, cols: int)
    requires
        0 <= i < rows,
        0 <= j < cols,
    ensures
        i * cols + j < rows * cols,
        (i + 1) * cols == i * cols + cols,
        0 <= i * cols,
{
    assert(i * cols + j < rows * cols) by (nonlinear_arith)
        requires
            0 <= i < rows,
            0 <= j < cols,
    ;
    assert((i + 1) * cols == i * cols + cols) by (nonlinear_arith);
    assert(0 <= i * cols) by (nonlinear_arith)
        requires
            0 <= i,
            0 <= cols,
    ;
}

/// A weight matrix (`in_features` by `out_features`) and a bias row
/// (1 by `out_features`).
#[derive(Clone, Debug)]
pub struct Layer<T> {
    pub in_features: usize,
    pub out_features: usize,
    pub weights: Matrix<T>,
    pub biases: Matrix<T>,
}

impl<T: Copy> Layer<T> {
    /// The parameters have the shapes the dimensions name.
    pub open spec fn wf(&self) -> bool {
        &&& has_shape(self.weights@, self.in_features as nat, self.out_features as nat)
        &&& has_shape(self.biases@, 1, self.out_features as nat)
    }

    /// A layer whose weights, then biases, are read from `draws` in
    /// row-major order from `*pos` on; `*pos` moves past what was read.
    pub fn new(in_features: usize, out_features: usize, draws: &Vec<T>, pos: &mut usize) -> (l: Layer<T>)
        requires
            *old(pos) + layer_draws(in_features as nat, out_features as nat) <= draws@.len(),
        ensures
            *final(pos) == *old(pos) + layer_draws(in_features as nat, out_features as nat),
            l.in_features == in_features,
            l.out_features == out_features,
            l.weights@ == drawn(draws@, *old(pos) as int, in_features as nat, out_features as nat),
            l.biases@ == drawn(
                draws@,
                *old(pos) + in_features * out_features,
                1,
                out_features as nat,
            ),
    {
        let weights = Self::random_matrix(in_features, out_features, draws, pos);
        let biases = Self::random_matrix(1, out_features, draws, pos);
        Layer { in_features, out_features, weights, biases }
    }

    /// The `rows` by `cols` matrix read from `draws` in row-major order from
    /// `*pos` on; `*pos` moves past what was read.
    pub fn random_matrix(rows: usize, cols: usize, draws: &Vec<T>, pos: &mut usize) -> (m: Matrix<T>)
        requires
            *old(pos) + rows * cols <= draws@.len(),
        ensures
            *final(pos) == *old(pos) + rows * cols,
            m@ == drawn(draws@, *old(pos) as int, rows as nat, cols as nat),
    {
        let ghost start: int = *pos as int;
        let n = draws.len();
        let mut out: Vec<Vec<T>> = Vec::new();
        let mut i: usize = 0;
        while i < rows
            invariant
                i <= rows,
                start + rows * cols <= draws@.len(),
                0 <= i * cols,
                *pos == start + i * cols,
                n == draws@.len(),
                out@.len() == i,
                forall|k: int|
                    0 <= k < i ==> #[trigger] out@[k]@ == drawn(draws@, start, rows as nat, cols as nat)[k],
            decreases rows - i,
        {
            let mut row: Vec<T> = Vec::new();
            let mut j: usize = 0;
            while j < cols
                invariant
                    i < rows,
                    j <= cols,
                    start + rows * cols <= draws@.len(),
                    0 <= i * cols,
                    *pos == start + i * cols + j,
                    n == draws@.len(),
                    row@ == Seq::new(j as nat, |t: int| draws@[start + i * cols + t]),
                decreases cols - j,
            {
                proof {
                    lemma_row_major_index(i as int, j as int, rows as int, cols as int);
                }
                row.push(draws[*pos]);
                *pos = *pos + 1;
                j += 1;
                assert(row@ =~= Seq::new(j as nat, |t: int| draws@[start + i * cols + t]));
            }
            proof {
                if cols > 0 {
                    lemma_row_major_index(i as int, 0, rows as int, cols as int);
                } else {
                    assert((i + 1) * cols == 0) by (nonlinear_arith)
                        requires
                            cols == 0,
                    ;
                    assert(i * cols == 0) by (nonlinear_arith)
                        requires
                            cols == 0,
                    ;
                }
            }
            assert(row@ =~= drawn(draws@, start, rows as nat, cols as nat)[i as int]);
            out.push(row);
            i += 1;
        }
        let m = Matrix { value: out };
        assert(m@ =~= drawn(draws@, start, rows as nat, cols as nat));
        m
    }
}

} // verus!
