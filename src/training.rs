//! Full-batch gradient descent: the backward pass, the epoch update and the
//! training loop.
use vstd::prelude::*;
use crate::arith::{Arith, Binary, Unary};
use crate::layer::Layer;
use crate::matrix::{
    Matrix,
    filled,
    has_shape,
    transposed,
    well_formed,
    lemma_dot_shape,
    lemma_scale_shape,
    lemma_transpose_involution,
    lemma_zip_shape,
    lemma_map_shape,
};
use crate::metrics::same_dims;
use crate::resnet::{LAYER_COUNT, Params, ResNet, WIDTH, layer_input, layers_wf, params, views, lemma_activations_prefix};
use crate::tensor::Tensor;

verus! {

/// What one epoch of training reports: its index, from 0, and the loss and
/// accuracy of the network after its update.
#[derive(Clone, Copy, Debug)]
pub struct EpochReport<T> {
    pub epoch: usize,
    pub loss: T,
    pub accuracy: T,
}

impl<T: Copy, B: Fn(Binary, T, T) -> T, U: Fn(Unary, T) -> T, E: Fn(T, T) -> bool> Arith<T, B, U, E> {
    /// The error term of layer `i` for the sample `x` with label `y`: at the
    /// last layer `(y - output) ⊙ σ'(logit)`, below it the next layer's term
    /// times that layer's transposed weights, `⊙ σ'(logit)`.
    pub open spec fn delta(&self, ps: Seq<Params<T>>, x: Seq<Seq<T>>, y: Seq<Seq<T>>, i: int) -> Seq<Seq<T>>
        decreases ps.len() - i,
    {
        let ls = self.logits(ps, x, ps.len());
        if 0 <= i < ps.len() - 1 {
            self.zip(
                Binary::Mul,
                self.dot(self.delta(ps, x, y, i + 1), transposed(ps[i + 1].0)),
                self.sigmoid_prime(ls[i]),
            )
        } else {
            self.zip(Binary::Mul, self.zip(Binary::Sub, y, self.output(ps, x)), self.sigmoid_prime(ls[i]))
        }
    }

    /// The weight gradient of layer `i` for one sample: its input,
    /// transposed, times its error term.
    pub open spec fn weight_grad(&self, ps: Seq<Params<T>>, x: Seq<Seq<T>>, y: Seq<Seq<T>>, i: int) -> Seq<
        Seq<T>,
    > {
        self.dot(transposed(layer_input(x, self.activations(ps, x, ps.len()), i)), self.delta(ps, x, y, i))
    }

    /// The weight gradients of layer `i` summed over the first `s` samples,
    /// from a zero matrix.
    pub open spec fn grad_w(
        &self,
        ps: Seq<Params<T>>,
        inputs: Seq<Seq<Seq<T>>>,
        labels: Seq<Seq<Seq<T>>>,
        i: int,
        s: nat,
    ) -> Seq<Seq<T>>
        decreases s,
    {
        if s == 0 {
            filled(WIDTH as nat, WIDTH as nat, self.zero)
        } else {
            self.zip(
                Binary::Add,
                self.grad_w(ps, inputs, labels, i, (s - 1) as nat),
                self.weight_grad(ps, inputs[s - 1], labels[s - 1], i),
            )
        }
    }

    /// The error terms of layer `i` summed over the first `s` samples, from
    /// a zero row.
    pub open spec fn grad_b(
        &self,
        ps: Seq<Params<T>>,
        inputs: Seq<Seq<Seq<T>>>,
        labels: Seq<Seq<Seq<T>>>,
        i: int,
        s: nat,
    ) -> Seq<Seq<T>>
        decreases s,
    {
        if s == 0 {
            filled(1, WIDTH as nat, self.zero)
        } else {
            self.zip(
                Binary::Add,
                self.grad_b(ps, inputs, labels, i, (s - 1) as nat),
                self.delta(ps, inputs[s - 1], labels[s - 1], i),
            )
        }
    }

    /// The parameters after one epoch: each layer's summed gradients over
    /// the whole training set, times `step`, added to its parameters.
    pub open spec fn epoch(
        &self,
        ps: Seq<Params<T>>,
        inputs: Seq<Seq<Seq<T>>>,
        labels: Seq<Seq<Seq<T>>>,
        step: T,
    ) -> Seq<Params<T>> {
        Seq::new(
            ps.len(),
            |i: int|
                (
                    self.zip(Binary::Add, ps[i].0, self.scale(step, self.grad_w(ps, inputs, labels, i, inputs.len()))),
                    self.zip(Binary::Add, ps[i].1, self.scale(step, self.grad_b(ps, inputs, labels, i, inputs.len()))),
                ),
        )
    }

    /// The parameters after `e` epochs.
    pub open spec fn trained(
        &self,
        ps: Seq<Params<T>>,
        inputs: Seq<Seq<Seq<T>>>,
        labels: Seq<Seq<Seq<T>>>,
        step: T,
        e: nat,
    ) -> Seq<Params<T>>
        decreases e,
    {
        if e == 0 {
            ps
        } else {
            self.epoch(self.trained(ps, inputs, labels, step, (e - 1) as nat), inputs, labels, step)
        }
    }

    /// The network's output for each input.
    pub open spec fn outputs(&self, ps: Seq<Params<T>>, inputs: Seq<Seq<Seq<T>>>) -> Seq<Seq<Seq<T>>> {
        Seq::new(inputs.len(), |s: int| self.output(ps, inputs[s]))
    }
}

/// Every matrix of `ms` has `r` rows and `c` columns.
pub open spec fn all_shaped<T>(ms: Seq<Seq<Seq<T>>>, r: nat, c: nat) -> bool {
    forall|i: int| 0 <= i < ms.len() ==> has_shape(#[trigger] ms[i], r, c)
}

/// A transposed well-formed matrix has the swapped shape.
proof fn lemma_transposed_shape<T>(m: Seq<Seq<T>>)
    requires
        well_formed(m),
    ensures
        has_shape(transposed(m), m[0].len(), m.len()),
{
    lemma_transpose_involution(m);
}

impl<T: Copy> ResNet<T> {
    /// Adds one sample's gradients into `d_weights` and `d_biases`: the
    /// forward pass with its pre-activations kept, then the error terms from
    /// the last layer down.
    fn accumulate<B, U, E>(
        &self,
        input: &Matrix<T>,
        label: &Matrix<T>,
        d_weights: &mut Vec<Matrix<T>>,
        d_biases: &mut Vec<Matrix<T>>,
        ar: &Arith<T, B, U, E>,
    ) where B: Fn(Binary, T, T) -> T, U: Fn(Unary, T) -> T, E: Fn(T, T) -> bool
        requires
            ar.wf(),
            layers_wf(self.layers@),
            has_shape(input@, 1, WIDTH as nat),
            has_shape(label@, 1, WIDTH as nat),
            old(d_weights)@.len() == LAYER_COUNT,
            old(d_biases)@.len() == LAYER_COUNT,
            all_shaped(views(old(d_weights)@), WIDTH as nat, WIDTH as nat),
            all_shaped(views(old(d_biases)@), 1, WIDTH as nat),
        ensures
            final(d_weights)@.len() == LAYER_COUNT,
            final(d_biases)@.len() == LAYER_COUNT,
            all_shaped(views(final(d_weights)@), WIDTH as nat, WIDTH as nat),
            all_shaped(views(final(d_biases)@), 1, WIDTH as nat),
            forall|i: int|
                0 <= i < LAYER_COUNT ==> #[trigger] views(final(d_weights)@)[i] == ar.zip(
                    Binary::Add,
                    views(old(d_weights)@)[i],
                    ar.weight_grad(params(self.layers@), input@, label@, i),
                ),
            forall|i: int|
                0 <= i < LAYER_COUNT ==> #[trigger] views(final(d_biases)@)[i] == ar.zip(
                    Binary::Add,
                    views(old(d_biases)@)[i],
                    ar.delta(params(self.layers@), input@, label@, i),
                ),
    {
        let ghost ps = params(self.layers@);
        let ghost w0 = views(d_weights@);
        let ghost b0 = views(d_biases@);
        let (logits, acts) = self.forward_cached(input, ar);
        proof {
            lemma_activations_prefix(*ar, ps, input@, LAYER_COUNT as nat, LAYER_COUNT as nat);
            assert(logits@.len() == views(logits@).len());
            assert(acts@.len() == views(acts@).len());
        }
        let mut delta = Matrix::new(1, WIDTH, ar.zero);
        let mut layer: usize = self.layers.len();
        while layer > 0
            invariant
                ar.wf(),
                ps == params(self.layers@),
                layers_wf(self.layers@),
                has_shape(input@, 1, WIDTH as nat),
                has_shape(label@, 1, WIDTH as nat),
                logits@.len() == LAYER_COUNT,
                acts@.len() == LAYER_COUNT,
                views(logits@) == ar.logits(ps, input@, LAYER_COUNT as nat),
                views(acts@) == ar.activations(ps, input@, LAYER_COUNT as nat),
                all_shaped(views(logits@), 1, WIDTH as nat),
                all_shaped(views(acts@), 1, WIDTH as nat),
                layer <= LAYER_COUNT,
                layer < LAYER_COUNT ==> delta@ == ar.delta(ps, input@, label@, layer as int),
                has_shape(delta@, 1, WIDTH as nat),
                d_weights@.len() == LAYER_COUNT,
                d_biases@.len() == LAYER_COUNT,
                all_shaped(views(d_weights@), WIDTH as nat, WIDTH as nat),
                all_shaped(views(d_biases@), 1, WIDTH as nat),
                forall|i: int| 0 <= i < layer ==> #[trigger] views(d_weights@)[i] == w0[i],
                forall|i: int| 0 <= i < layer ==> #[trigger] views(d_biases@)[i] == b0[i],
                forall|i: int|
                    layer <= i < LAYER_COUNT ==> #[trigger] views(d_weights@)[i] == ar.zip(
                        Binary::Add,
                        w0[i],
                        ar.weight_grad(ps, input@, label@, i),
                    ),
                forall|i: int|
                    layer <= i < LAYER_COUNT ==> #[trigger] views(d_biases@)[i] == ar.zip(
                        Binary::Add,
                        b0[i],
                        ar.delta(ps, input@, label@, i),
                    ),
            decreases layer,
        {
            layer -= 1;
            let ghost li = layer as int;
            assert(has_shape(views(logits@)[li], 1, WIDTH as nat));
            let sp = match Self::sigmoid_prime(&logits[layer], ar) {
                Ok(m) => m,
                Err(_) => vstd::pervasive::unreached(),
            };
            proof {
                lemma_map_shape(*ar, Unary::Sigmoid, logits@[li]@);
                lemma_zip_shape(*ar, Binary::Sub, filled(1, WIDTH as nat, ar.one), ar.map(Unary::Sigmoid, logits@[li]@));
                lemma_zip_shape(*ar, Binary::Mul, ar.map(Unary::Sigmoid, logits@[li]@), ar.zip(Binary::Sub, filled(1, WIDTH as nat, ar.one), ar.map(Unary::Sigmoid, logits@[li]@)));
            }
            if layer == LAYER_COUNT - 1 {
                assert(has_shape(views(acts@)[li], 1, WIDTH as nat));
                proof {
                    lemma_zip_shape(*ar, Binary::Sub, label@, acts@[li]@);
                }
                let error = match label.elementwise(&acts[layer], Binary::Sub, ar) {
                    Ok(m) => m,
                    Err(_) => vstd::pervasive::unreached(),
                };
                proof {
                    lemma_zip_shape(*ar, Binary::Mul, error@, sp@);
                }
                delta = match error.elementwise(&sp, Binary::Mul, ar) {
                    Ok(m) => m,
                    Err(_) => vstd::pervasive::unreached(),
                };
            } else {
                let next = &self.layers[layer + 1];
                assert(next.wf() && next.in_features == WIDTH && next.out_features == WIDTH);
                let wt = match next.weights.transpose() {
                    Ok(m) => m,
                    Err(_) => vstd::pervasive::unreached(),
                };
                proof {
                    lemma_transposed_shape(next.weights@);
                    lemma_dot_shape(*ar, delta@, wt@);
                }
                let back = match Matrix::dot(&delta, &wt, ar) {
                    Ok(m) => m,
                    Err(_) => vstd::pervasive::unreached(),
                };
                proof {
                    lemma_zip_shape(*ar, Binary::Mul, back@, sp@);
                }
                delta = match back.elementwise(&sp, Binary::Mul, ar) {
                    Ok(m) => m,
                    Err(_) => vstd::pervasive::unreached(),
                };
            }
            assert(delta@ == ar.delta(ps, input@, label@, li));
            let x: &Matrix<T> = if layer == 0 {
                input
            } else {
                assert(has_shape(views(acts@)[li - 1], 1, WIDTH as nat));
                &acts[layer - 1]
            };
            assert(x@ == layer_input(input@, ar.activations(ps, input@, LAYER_COUNT as nat), li));
            let xt = match x.transpose() {
                Ok(m) => m,
                Err(_) => vstd::pervasive::unreached(),
            };
            proof {
                lemma_transposed_shape(x@);
                lemma_dot_shape(*ar, xt@, delta@);
            }
            let grad = match Matrix::dot(&xt, &delta, ar) {
                Ok(m) => m,
                Err(_) => vstd::pervasive::unreached(),
            };
            assert(has_shape(views(d_weights@)[li], WIDTH as nat, WIDTH as nat));
            assert(has_shape(views(d_biases@)[li], 1, WIDTH as nat));
            proof {
                lemma_zip_shape(*ar, Binary::Add, d_weights@[li]@, grad@);
                lemma_zip_shape(*ar, Binary::Add, d_biases@[li]@, delta@);
            }
            let nw = match d_weights[layer].elementwise(&grad, Binary::Add, ar) {
                Ok(m) => m,
                Err(_) => vstd::pervasive::unreached(),
            };
            let nb = match d_biases[layer].elementwise(&delta, Binary::Add, ar) {
                Ok(m) => m,
                Err(_) => vstd::pervasive::unreached(),
            };
            let ghost wprev = views(d_weights@);
            let ghost bprev = views(d_biases@);
            d_weights.set(layer, nw);
            d_biases.set(layer, nb);
            assert(views(d_weights@) =~= wprev.update(li, nw@));
            assert(views(d_biases@) =~= bprev.update(li, nb@));
        }
    }

    /// One epoch: every sample's gradients summed, in order, then each
    /// layer's parameters moved by `step` times its sums.
    fn run_epoch<B, U, E>(&mut self, step: T, ar: &Arith<T, B, U, E>) where
        B: Fn(Binary, T, T) -> T,
        U: Fn(Unary, T) -> T,
        E: Fn(T, T) -> bool,

        requires
            ar.wf(),
            old(self).wf(),
        ensures
            final(self).wf(),
            final(self).inputs@ == old(self).inputs@,
            final(self).labels@ == old(self).labels@,
            params(final(self).layers@) == ar.epoch(
                params(old(self).layers@),
                old(self).inputs@,
                old(self).labels@,
                step,
            ),
    {
        let ghost ps = params(self.layers@);
        let ghost ins = self.inputs@;
        let ghost lbs = self.labels@;
        let mut d_weights: Vec<Matrix<T>> = Vec::new();
        let mut d_biases: Vec<Matrix<T>> = Vec::new();
        let mut i: usize = 0;
        while i < LAYER_COUNT
            invariant
                i <= LAYER_COUNT,
                d_weights@.len() == i,
                d_biases@.len() == i,
                forall|k: int| 0 <= k < i ==> #[trigger] views(d_weights@)[k] == filled(WIDTH as nat, WIDTH as nat, ar.zero),
                forall|k: int| 0 <= k < i ==> #[trigger] views(d_biases@)[k] == filled(1, WIDTH as nat, ar.zero),
            decreases LAYER_COUNT - i,
        {
            let ghost wb = views(d_weights@);
            let ghost bb = views(d_biases@);
            let w = Matrix::new(WIDTH, WIDTH, ar.zero);
            let b = Matrix::new(1, WIDTH, ar.zero);
            d_weights.push(w);
            d_biases.push(b);
            assert(views(d_weights@) =~= wb.push(w@));
            assert(views(d_biases@) =~= bb.push(b@));
            i += 1;
        }
        proof {
            let fw = filled(WIDTH as nat, WIDTH as nat, ar.zero);
            let fb = filled(1, WIDTH as nat, ar.zero);
            assert forall|r: int| 0 <= r < fw.len() implies #[trigger] fw[r].len() == fw[0].len() by {}
            assert forall|r: int| 0 <= r < fb.len() implies #[trigger] fb[r].len() == fb[0].len() by {}
        }
        let mut s: usize = 0;
        while s < self.inputs.value.len()
            invariant
                ar.wf(),
                self.wf(),
                ps == params(self.layers@),
                ins == self.inputs@,
                lbs == self.labels@,
                s <= ins.len(),
                d_weights@.len() == LAYER_COUNT,
                d_biases@.len() == LAYER_COUNT,
                all_shaped(views(d_weights@), WIDTH as nat, WIDTH as nat),
                all_shaped(views(d_biases@), 1, WIDTH as nat),
                forall|k: int| 0 <= k < LAYER_COUNT ==> #[trigger] views(d_weights@)[k] == ar.grad_w(ps, ins, lbs, k, s as nat),
                forall|k: int| 0 <= k < LAYER_COUNT ==> #[trigger] views(d_biases@)[k] == ar.grad_b(ps, ins, lbs, k, s as nat),
            decreases ins.len() - s,
        {
            assert(has_shape(ins[s as int], 1, WIDTH as nat) && has_shape(lbs[s as int], 1, WIDTH as nat));
            let ghost wb = views(d_weights@);
            let ghost bb = views(d_biases@);
            self.accumulate(&self.inputs.value[s], &self.labels.value[s], &mut d_weights, &mut d_biases, ar);
            s += 1;
            assert forall|k: int| 0 <= k < LAYER_COUNT implies #[trigger] views(d_weights@)[k] == ar.grad_w(ps, ins, lbs, k, s as nat) by {
                assert(wb[k] == ar.grad_w(ps, ins, lbs, k, (s - 1) as nat));
            }
            assert forall|k: int| 0 <= k < LAYER_COUNT implies #[trigger] views(d_biases@)[k] == ar.grad_b(ps, ins, lbs, k, s as nat) by {
                assert(bb[k] == ar.grad_b(ps, ins, lbs, k, (s - 1) as nat));
            }
        }
        let ghost next = ar.epoch(ps, ins, lbs, step);
        let mut layers: Vec<Layer<T>> = Vec::new();
        let mut i: usize = 0;
        while i < self.layers.len()
            invariant
                ar.wf(),
                self.wf(),
                ps == params(self.layers@),
                next == ar.epoch(ps, ins, lbs, step),
                ins == self.inputs@,
                lbs == self.labels@,
                i <= LAYER_COUNT,
                layers@.len() == i,
                d_weights@.len() == LAYER_COUNT,
                d_biases@.len() == LAYER_COUNT,
                all_shaped(views(d_weights@), WIDTH as nat, WIDTH as nat),
                all_shaped(views(d_biases@), 1, WIDTH as nat),
                forall|k: int| 0 <= k < LAYER_COUNT ==> #[trigger] views(d_weights@)[k] == ar.grad_w(ps, ins, lbs, k, ins.len()),
                forall|k: int| 0 <= k < LAYER_COUNT ==> #[trigger] views(d_biases@)[k] == ar.grad_b(ps, ins, lbs, k, ins.len()),
                forall|k: int|
                    0 <= k < i ==> {
                        &&& (#[trigger] layers@[k]).wf()
                        &&& layers@[k].in_features == WIDTH
                        &&& layers@[k].out_features == WIDTH
                        &&& layers@[k].weights@ == next[k].0
                        &&& layers@[k].biases@ == next[k].1
                    },
            decreases LAYER_COUNT - i,
        {
            let old_layer = &self.layers[i];
            assert(old_layer.wf() && old_layer.in_features == WIDTH && old_layer.out_features == WIDTH);
            assert(has_shape(views(d_weights@)[i as int], WIDTH as nat, WIDTH as nat));
            assert(has_shape(views(d_biases@)[i as int], 1, WIDTH as nat));
            let sw = match Matrix::scalar_mul(step, &d_weights[i], ar) {
                Ok(m) => m,
                Err(_) => vstd::pervasive::unreached(),
            };
            let sb = match Matrix::scalar_mul(step, &d_biases[i], ar) {
                Ok(m) => m,
                Err(_) => vstd::pervasive::unreached(),
            };
            proof {
                lemma_scale_shape(*ar, step, d_weights@[i as int]@);
                lemma_scale_shape(*ar, step, d_biases@[i as int]@);
                lemma_zip_shape(*ar, Binary::Add, old_layer.weights@, sw@);
                lemma_zip_shape(*ar, Binary::Add, old_layer.biases@, sb@);
            }
            let weights = match old_layer.weights.elementwise(&sw, Binary::Add, ar) {
                Ok(m) => m,
                Err(_) => vstd::pervasive::unreached(),
            };
            let biases = match old_layer.biases.elementwise(&sb, Binary::Add, ar) {
                Ok(m) => m,
                Err(_) => vstd::pervasive::unreached(),
            };
            assert(ps[i as int] == (old_layer.weights@, old_layer.biases@));
            layers.push(Layer { in_features: WIDTH, out_features: WIDTH, weights, biases });
            i += 1;
        }
        self.layers = layers;
        assert(params(self.layers@) =~= next);
    }

    /// Trains for `epochs` epochs of full-batch gradient descent with
    /// learning rate `lr`: each epoch sums every sample's gradients and then
    /// adds `lr / N` times the sums to the parameters, `N` being the number
    /// of samples. After each epoch it reports the loss and accuracy of the
    /// updated network on the training set. No epochs, no change.
    pub fn train<B, U, E>(&mut self, lr: T, epochs: usize, ar: &Arith<T, B, U, E>) -> (reports: Vec<
        EpochReport<T>,
    >) where B: Fn(Binary, T, T) -> T, U: Fn(Unary, T) -> T, E: Fn(T, T) -> bool
        requires
            ar.wf(),
            old(self).wf(),
        ensures
            final(self).wf(),
            final(self).inputs@ == old(self).inputs@,
            final(self).labels@ == old(self).labels@,
            params(final(self).layers@) == ar.trained(
                params(old(self).layers@),
                old(self).inputs@,
                old(self).labels@,
                ar.bin(Binary::Div, lr, ar.count(old(self).inputs@.len())),
                epochs as nat,
            ),
            reports@.len() == epochs,
            forall|e: int|
                0 <= e < epochs ==> {
                    let ps = ar.trained(
                        params(old(self).layers@),
                        old(self).inputs@,
                        old(self).labels@,
                        ar.bin(Binary::Div, lr, ar.count(old(self).inputs@.len())),
                        (e + 1) as nat,
                    );
                    &&& (#[trigger] reports@[e]).epoch == e
                    &&& reports@[e].loss == ar.mse(old(self).labels@, ar.outputs(ps, old(self).inputs@))
                    &&& reports@[e].accuracy == ar.accuracy(old(self).labels@, ar.outputs(ps, old(self).inputs@))
                },
    {
        let ghost ps0 = params(self.layers@);
        let ghost ins = self.inputs@;
        let ghost lbs = self.labels@;
        let n = ar.from_count(self.inputs.value.len());
        let step = ar.apply(Binary::Div, lr, n);
        let mut reports: Vec<EpochReport<T>> = Vec::new();
        let mut epoch: usize = 0;
        while epoch < epochs
            invariant
                ar.wf(),
                self.wf(),
                ins == self.inputs@,
                lbs == self.labels@,
                step == ar.bin(Binary::Div, lr, ar.count(ins.len())),
                epoch <= epochs,
                params(self.layers@) == ar.trained(ps0, ins, lbs, step, epoch as nat),
                reports@.len() == epoch,
                forall|e: int|
                    0 <= e < epoch ==> {
                        let ps = ar.trained(ps0, ins, lbs, step, (e + 1) as nat);
                        &&& (#[trigger] reports@[e]).epoch == e
                        &&& reports@[e].loss == ar.mse(lbs, ar.outputs(ps, ins))
                        &&& reports@[e].accuracy == ar.accuracy(lbs, ar.outputs(ps, ins))
                    },
            decreases epochs - epoch,
        {
            self.run_epoch(step, ar);
            let outputs = self.outputs(ar);
            let loss = Self::mse(&self.labels, &outputs, ar);
            let accuracy = Self::accuracy(&self.labels, &outputs, ar);
            reports.push(EpochReport { epoch, loss, accuracy });
            epoch += 1;
        }
        reports
    }

    /// The network's output for each training input, in order.
    fn outputs<B, U, E>(&self, ar: &Arith<T, B, U, E>) -> (r: Tensor<T>) where
        B: Fn(Binary, T, T) -> T,
        U: Fn(Unary, T) -> T,
        E: Fn(T, T) -> bool,

        requires
            ar.wf(),
            self.wf(),
        ensures
            r@ == ar.outputs(params(self.layers@), self.inputs@),
            same_dims(self.labels@, r@),
    {
        let ghost ps = params(self.layers@);
        let mut value: Vec<Matrix<T>> = Vec::new();
        let mut s: usize = 0;
        while s < self.inputs.value.len()
            invariant
                ar.wf(),
                self.wf(),
                ps == params(self.layers@),
                s <= self.inputs@.len(),
                value@.len() == s,
                forall|k: int| 0 <= k < s ==> #[trigger] views(value@)[k] == ar.output(ps, self.inputs@[k]),
                forall|k: int| 0 <= k < s ==> has_shape(#[trigger] views(value@)[k], 1, WIDTH as nat),
            decreases self.inputs@.len() - s,
        {
            assert(has_shape(self.inputs@[s as int], 1, WIDTH as nat));
            let out = match self.forward(&self.inputs.value[s], ar) {
                Ok(m) => m,
                Err(_) => vstd::pervasive::unreached(),
            };
            let ghost before = views(value@);
            value.push(out);
            assert(views(value@) =~= before.push(out@));
            s += 1;
        }
        let r = Tensor { value };
        assert(r@ =~= views(value@));
        assert(r@ =~= ar.outputs(ps, self.inputs@));
        assert forall|i: int| 0 <= i < self.labels@.len() implies (#[trigger] self.labels@[i]).len() == r@[i].len() by {
            assert(has_shape(self.labels@[i], 1, WIDTH as nat));
            assert(has_shape(views(value@)[i], 1, WIDTH as nat));
        }
        assert forall|i: int, j: int|
            0 <= i < self.labels@.len() && 0 <= j < self.labels@[i].len() implies (#[trigger] self.labels@[i][j]).len()
            == r@[i][j].len() by {
            assert(has_shape(self.labels@[i], 1, WIDTH as nat));
            assert(has_shape(views(value@)[i], 1, WIDTH as nat));
        }
        r
    }
}

} // verus!
