//! Mean squared error and thresholded exact-match accuracy.
use vstd::prelude::*;
use crate::arith::{Arith, Binary, Unary};
use crate::matrix::has_shape;
use crate::resnet::{ResNet, WIDTH, samples_wf};
use crate::tensor::Tensor;

verus! {

/// `outputs` has exactly the sample, row and column counts of `labels`.
pub open spec fn same_dims<T>(labels: Seq<Seq<Seq<T>>>, outputs: Seq<Seq<Seq<T>>>) -> bool {
    &&& labels.len() == outputs.len()
    &&& forall|i: int| 0 <= i < labels.len() ==> (#[trigger] labels[i]).len() == outputs[i].len()
    &&& forall|i: int, j: int|
        0 <= i < labels.len() && 0 <= j < labels[i].len() ==> (#[trigger] labels[i][j]).len()
            == outputs[i][j].len()
}

impl<T: Copy, B: Fn(Binary, T, T) -> T, U: Fn(Unary, T) -> T, E: Fn(T, T) -> bool> Arith<T, B, U, E> {
    /// `acc` plus the squared differences of the first `k` elements of two
    /// rows, added in order, each square taken as `d·d`.
    pub open spec fn row_sq(&self, acc: T, l: Seq<T>, o: Seq<T>, k: nat) -> T
        decreases k,
    {
        if k == 0 {
            acc
        } else {
            let d = self.bin(Binary::Sub, l[k - 1], o[k - 1]);
            self.bin(Binary::Add, self.row_sq(acc, l, o, (k - 1) as nat), self.bin(Binary::Mul, d, d))
        }
    }

    /// `acc` plus the squared differences over the first `j` rows.
    pub open spec fn sample_sq(&self, acc: T, l: Seq<Seq<T>>, o: Seq<Seq<T>>, j: nat) -> T
        decreases j,
    {
        if j == 0 {
            acc
        } else {
            self.row_sq(self.sample_sq(acc, l, o, (j - 1) as nat), l[j - 1], o[j - 1], l[j - 1].len())
        }
    }

    /// The squared differences over the first `i` samples, from `zero`.
    pub open spec fn total_sq(&self, labels: Seq<Seq<Seq<T>>>, outputs: Seq<Seq<Seq<T>>>, i: nat) -> T
        decreases i,
    {
        if i == 0 {
            self.zero
        } else {
            self.sample_sq(
                self.total_sq(labels, outputs, (i - 1) as nat),
                labels[i - 1],
                outputs[i - 1],
                labels[i - 1].len(),
            )
        }
    }

    /// The squared error summed over samples and features, times one over
    /// the number of samples.
    pub open spec fn mse(&self, labels: Seq<Seq<Seq<T>>>, outputs: Seq<Seq<Seq<T>>>) -> T {
        self.bin(
            Binary::Mul,
            self.bin(Binary::Div, self.one, self.count(labels.len())),
            self.total_sq(labels, outputs, labels.len()),
        )
    }

    /// Every element of row `l` compares equal to the one beside it in `o`.
    pub open spec fn row_equal(&self, l: Seq<T>, o: Seq<T>) -> bool {
        forall|k: int| 0 <= k < l.len() ==> #[trigger] self.eq(l[k], o[k])
    }

    /// How many of the first `j` rows of `l` equal those of `o`.
    pub open spec fn sample_hits(&self, l: Seq<Seq<T>>, o: Seq<Seq<T>>, j: nat) -> nat
        decreases j,
    {
        if j == 0 {
            0
        } else {
            self.sample_hits(l, o, (j - 1) as nat) + if self.row_equal(l[j - 1], o[j - 1]) {
                1nat
            } else {
                0nat
            }
        }
    }

    /// How many rows of the first `i` samples equal their label once the
    /// output is thresholded.
    pub open spec fn hits(&self, labels: Seq<Seq<Seq<T>>>, outputs: Seq<Seq<Seq<T>>>, i: nat) -> nat
        decreases i,
    {
        if i == 0 {
            0
        } else {
            self.hits(labels, outputs, (i - 1) as nat) + self.sample_hits(
                labels[i - 1],
                self.map(Unary::Step, outputs[i - 1]),
                labels[i - 1].len(),
            )
        }
    }

    /// The matching rows, counted as a scalar, over the number of samples.
    pub open spec fn accuracy(&self, labels: Seq<Seq<Seq<T>>>, outputs: Seq<Seq<Seq<T>>>) -> T {
        self.bin(Binary::Div, self.count(self.hits(labels, outputs, labels.len())), self.count(labels.len()))
    }
}

impl<T: Copy> ResNet<T> {
    /// The mean squared error of `outputs` against `labels`: squared
    /// differences summed over every sample and feature, then multiplied by
    /// one over the number of samples (not of samples times features).
    pub fn mse<B, U, E>(labels: &Tensor<T>, outputs: &Tensor<T>, ar: &Arith<T, B, U, E>) -> (r: T) where
        B: Fn(Binary, T, T) -> T,
        U: Fn(Unary, T) -> T,
        E: Fn(T, T) -> bool,

        requires
            ar.wf(),
            same_dims(labels@, outputs@),
        ensures
            r == ar.mse(labels@, outputs@),
    {
        let ghost ls = labels@;
        let ghost os = outputs@;
        let mut sum = ar.zero;
        let mut i: usize = 0;
        while i < labels.value.len()
            invariant
                ar.wf(),
                ls == labels@,
                os == outputs@,
                same_dims(ls, os),
                i <= ls.len(),
                sum == ar.total_sq(ls, os, i as nat),
            decreases ls.len() - i,
        {
            let ghost base = sum;
            let lm = &labels.value[i];
            let om = &outputs.value[i];
            assert(lm@ == ls[i as int] && om@ == os[i as int]);
            let mut j: usize = 0;
            while j < lm.value.len()
                invariant
                    ar.wf(),
                    ls == labels@,
                    os == outputs@,
                    same_dims(ls, os),
                    i < ls.len(),
                    lm@ == ls[i as int],
                    om@ == os[i as int],
                    j <= lm@.len(),
                    lm@.len() == om@.len(),
                    sum == ar.sample_sq(base, lm@, om@, j as nat),
                decreases lm@.len() - j,
            {
                let ghost row_base = sum;
                assert(ls[i as int][j as int].len() == os[i as int][j as int].len());
                let mut k: usize = 0;
                while k < lm.value[j].len()
                    invariant
                        ar.wf(),
                        i < ls.len(),
                        j < lm@.len(),
                        lm@.len() == om@.len(),
                        lm@[j as int].len() == om@[j as int].len(),
                        k <= lm@[j as int].len(),
                        sum == ar.row_sq(row_base, lm@[j as int], om@[j as int], k as nat),
                    decreases lm@[j as int].len() - k,
                {
                    let d = ar.apply(Binary::Sub, lm.value[j][k], om.value[j][k]);
                    let sq = ar.apply(Binary::Mul, d, d);
                    sum = ar.apply(Binary::Add, sum, sq);
                    k += 1;
                }
                j += 1;
            }
            i += 1;
        }
        let n = ar.from_count(labels.value.len());
        let inv = ar.apply(Binary::Div, ar.one, n);
        ar.apply(Binary::Mul, inv, sum)
    }

    /// The share of rows that equal their label, element for element, once
    /// the output is thresholded; a row that matches in part counts nothing.
    pub fn accuracy<B, U, E>(labels: &Tensor<T>, outputs: &Tensor<T>, ar: &Arith<T, B, U, E>) -> (r: T) where
        B: Fn(Binary, T, T) -> T,
        U: Fn(Unary, T) -> T,
        E: Fn(T, T) -> bool,

        requires
            ar.wf(),
            same_dims(labels@, outputs@),
        ensures
            r == ar.accuracy(labels@, outputs@),
    {
        let ghost ls = labels@;
        let ghost os = outputs@;
        let ghost found: nat = 0;
        let mut sum = ar.zero;
        let mut i: usize = 0;
        while i < labels.value.len()
            invariant
                ar.wf(),
                ls == labels@,
                os == outputs@,
                same_dims(ls, os),
                i <= ls.len(),
                found == ar.hits(ls, os, i as nat),
                sum == ar.count(found),
            decreases ls.len() - i,
        {
            let ghost base: nat = found;
            let lm = &labels.value[i];
            let out = Self::threshold(&outputs.value[i], ar);
            assert(lm@ == ls[i as int] && out@ == ar.map(Unary::Step, os[i as int]));
            let mut j: usize = 0;
            while j < lm.value.len()
                invariant
                    ar.wf(),
                    same_dims(ls, os),
                    i < ls.len(),
                    lm@ == ls[i as int],
                    out@ == ar.map(Unary::Step, os[i as int]),
                    j <= lm@.len(),
                    lm@.len() == out@.len(),
                    found == base + ar.sample_hits(lm@, out@, j as nat),
                    sum == ar.count(found),
                decreases lm@.len() - j,
            {
                assert(ls[i as int][j as int].len() == os[i as int][j as int].len());
                assert(out@[j as int].len() == os[i as int][j as int].len());
                let mut equal = true;
                let mut k: usize = 0;
                while k < lm.value[j].len()
                    invariant
                        ar.wf(),
                        j < lm@.len(),
                        lm@.len() == out@.len(),
                        lm@[j as int].len() == out@[j as int].len(),
                        k <= lm@[j as int].len(),
                        equal == (forall|t: int| 0 <= t < k ==> #[trigger] ar.eq(lm@[j as int][t], out@[j as int][t])),
                    decreases lm@[j as int].len() - k,
                {
                    if !ar.equal(lm.value[j][k], out.value[j][k]) {
                        equal = false;
                    }
                    k += 1;
                }
                if equal {
                    sum = ar.apply(Binary::Add, sum, ar.one);
                    proof {
                        found = found + 1;
                    }
                }
                j += 1;
            }
            i += 1;
        }
        let n = ar.from_count(labels.value.len());
        ar.apply(Binary::Div, sum, n)
    }
}

proof fn lemma_hits_extremes<T: Copy, B, U, E>(
    ar: Arith<T, B, U, E>,
    labels: Seq<Seq<Seq<T>>>,
    outputs: Seq<Seq<Seq<T>>>,
    i: nat,
) where B: Fn(Binary, T, T) -> T, U: Fn(Unary, T) -> T, E: Fn(T, T) -> bool
    requires
        i <= labels.len(),
        samples_wf(labels),
        same_dims(labels, outputs),
    ensures
        (forall|k: int| 0 <= k < labels.len() ==> #[trigger] ar.row_equal(labels[k][0], ar.map(Unary::Step, outputs[k])[0]))
            ==> ar.hits(labels, outputs, i) == i,
        (forall|k: int| 0 <= k < labels.len() ==> !#[trigger] ar.row_equal(labels[k][0], ar.map(Unary::Step, outputs[k])[0]))
            ==> ar.hits(labels, outputs, i) == 0,
    decreases i,
{
    if i > 0 {
        lemma_hits_extremes(ar, labels, outputs, (i - 1) as nat);
        let k = i - 1;
        assert(has_shape(labels[k], 1, WIDTH as nat));
        let o = ar.map(Unary::Step, outputs[k]);
        assert(ar.sample_hits(labels[k], o, 0) == 0);
        assert(ar.sample_hits(labels[k], o, 1) == if ar.row_equal(labels[k][0], o[0]) { 1nat } else { 0nat });
    }
}

/// Accuracy is the sample count over itself when every thresholded output
/// equals its label, and zero over the sample count when none does.
pub proof fn lemma_accuracy_extremes<T: Copy, B, U, E>(
    ar: Arith<T, B, U, E>,
    labels: Seq<Seq<Seq<T>>>,
    outputs: Seq<Seq<Seq<T>>>,
) where B: Fn(Binary, T, T) -> T, U: Fn(Unary, T) -> T, E: Fn(T, T) -> bool
    requires
        samples_wf(labels),
        same_dims(labels, outputs),
    ensures
        (forall|k: int| 0 <= k < labels.len() ==> #[trigger] ar.row_equal(labels[k][0], ar.map(Unary::Step, outputs[k])[0]))
            ==> ar.accuracy(labels, outputs) == ar.bin(Binary::Div, ar.count(labels.len()), ar.count(labels.len())),
        (forall|k: int| 0 <= k < labels.len() ==> !#[trigger] ar.row_equal(labels[k][0], ar.map(Unary::Step, outputs[k])[0]))
            ==> ar.accuracy(labels, outputs) == ar.bin(Binary::Div, ar.zero, ar.count(labels.len())),
{
    lemma_hits_extremes(ar, labels, outputs, labels.len());
    assert(ar.count(0) == ar.zero);
}

} // verus!
