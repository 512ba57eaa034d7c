//! A dataset: an ordered sequence of sample matrices.
use vstd::prelude::*;
use crate::matrix::Matrix;

verus! {

/// An ordered sequence of samples, each a matrix (in practice one row).
#[derive(Clone, Debug)]
pub struct Tensor<T> {
    pub value: Vec<Matrix<T>>,
}

impl<T> View for Tensor<T> {
    type V = Seq<Seq<Seq<T>>>;

    open spec fn view(&self) -> Seq<Seq<Seq<T>>> {
        self.value@.map_values(|m: Matrix<T>| m@)
    }
}

/// The nested vectors as a sequence of matrix views.
pub open spec fn nested_view<T>(v: Seq<Vec<Vec<T>>>) -> Seq<Seq<Seq<T>>> {
    v.map_values(|m: Vec<Vec<T>>| m@.map_values(|r: Vec<T>| r@))
}

impl<T> Tensor<T> {
    /// Each element of `vector` taken, in order, as the rows of a matrix.
    pub fn vec2matrices(vector: Vec<Vec<Vec<T>>>) -> (r: Vec<Matrix<T>>)
        ensures
            r@.map_values(|m: Matrix<T>| m@) == nested_view(vector@),
    {
        let ghost whole = vector@;
        let mut rest = vector;
        let mut out: Vec<Matrix<T>> = Vec::new();
        while rest.len() > 0
            invariant
                out@.len() + rest@.len() == whole.len(),
                out@.map_values(|m: Matrix<T>| m@) == nested_view(whole).take(out@.len() as int),
                rest@ == whole.skip(out@.len() as int),
            decreases rest@.len(),
        {
            let value = rest.remove(0);
            out.push(Matrix { value });
            assert(out@.map_values(|m: Matrix<T>| m@) =~= nested_view(whole).take(out@.len() as int));
            assert(rest@ =~= whole.skip(out@.len() as int));
        }
        assert(nested_view(whole).take(whole.len() as int) =~= nested_view(whole));
        out
    }
}

} // verus!
