//! The residual network: construction and the forward pass.
use vstd::prelude::*;
use crate::arith::{Arith, Binary, Unary};
use crate::layer::{Layer, drawn, layer_draws};
use crate::matrix::{
    Matrix,
    ShapeError,
    filled,
    has_shape,
    well_formed,
    lemma_dot_shape,
    lemma_map_shape,
    lemma_zip_shape,
};
use crate::tensor::Tensor;

verus! {

/// The number of layers of a network.
pub const LAYER_COUNT: usize = 4;

/// The width of every layer, and of every sample.
pub const WIDTH: usize = 4;

/// The number of draws a network consumes when it is built.
pub const DRAW_COUNT: usize = LAYER_COUNT * (WIDTH * WIDTH + WIDTH);

/// Why a network could not be built.
#[derive(Clone, Copy, Debug, PartialEq, Eq, Structural)]
pub enum ConfigError {
    /// There are not as many labels as inputs.
    SampleCountMismatch,
    /// There are no samples.
    EmptyDataset,
    /// A sample is not one row of `WIDTH` values.
    WidthMismatch,
    /// The draws are not `DRAW_COUNT` values.
    DrawCountMismatch,
}

/// A residual network: a stack of square layers, with the training set it
/// was built for.
#[derive(Clone, Debug)]
pub struct ResNet<T> {
    pub inputs: Tensor<T>,
    pub labels: Tensor<T>,
    pub layers: Vec<Layer<T>>,
}

/// Every sample is one row of `WIDTH` values.
pub open spec fn samples_wf<T>(t: Seq<Seq<Seq<T>>>) -> bool {
    forall|i: int| 0 <= i < t.len() ==> has_shape(#[trigger] t[i], 1, WIDTH as nat)
}

/// Every layer is `WIDTH` wide.
pub open spec fn layers_wf<T: Copy>(layers: Seq<Layer<T>>) -> bool {
    &&& layers.len() == LAYER_COUNT
    &&& forall|i: int|
        0 <= i < layers.len() ==> {
            &&& (#[trigger] layers[i]).wf()
            &&& layers[i].in_features == WIDTH
            &&& layers[i].out_features == WIDTH
        }
}

/// What `new` refuses, checked in this order.
pub open spec fn config_error<T>(inputs: Seq<Seq<Seq<T>>>, labels: Seq<Seq<Seq<T>>>, draws: nat) -> Option<
    ConfigError,
> {
    if inputs.len() != labels.len() {
        Some(ConfigError::SampleCountMismatch)
    } else if inputs.len() == 0 {
        Some(ConfigError::EmptyDataset)
    } else if !samples_wf(inputs) || !samples_wf(labels) {
        Some(ConfigError::WidthMismatch)
    } else if draws != DRAW_COUNT {
        Some(ConfigError::DrawCountMismatch)
    } else {
        None
    }
}

/// The views of a layer's weights and biases.
pub type Params<T> = (Seq<Seq<T>>, Seq<Seq<T>>);

/// The parameters of each layer.
pub open spec fn params<T>(layers: Seq<Layer<T>>) -> Seq<Params<T>> {
    Seq::new(layers.len(), |i: int| (layers[i].weights@, layers[i].biases@))
}

/// The matrix fed to layer `i`: the network input to the first layer, else
/// the activation of the layer before.
pub open spec fn layer_input<T>(input: Seq<Seq<T>>, acts: Seq<Seq<Seq<T>>>, i: int) -> Seq<Seq<T>> {
    if i == 0 {
        input
    } else {
        acts[i - 1]
    }
}

impl<T: Copy, B: Fn(Binary, T, T) -> T, U: Fn(Unary, T) -> T, E: Fn(T, T) -> bool> Arith<T, B, U, E> {
    /// The pre-activation of layer `i`, given the activations of the layers
    /// before it: `x·W + b`, plus the network input at layer 1, or the
    /// activation two layers back from layer 2 on.
    pub open spec fn logit(
        &self,
        ps: Seq<Params<T>>,
        input: Seq<Seq<T>>,
        acts: Seq<Seq<Seq<T>>>,
        i: int,
    ) -> Seq<Seq<T>> {
        let linear = self.zip(Binary::Add, self.dot(layer_input(input, acts, i), ps[i].0), ps[i].1);
        if i == 0 {
            linear
        } else if i == 1 {
            self.zip(Binary::Add, linear, input)
        } else {
            self.zip(Binary::Add, linear, acts[i - 2])
        }
    }

    /// The activations of the first `n` layers.
    pub open spec fn activations(&self, ps: Seq<Params<T>>, input: Seq<Seq<T>>, n: nat) -> Seq<
        Seq<Seq<T>>,
    >
        decreases n,
    {
        if n == 0 {
            Seq::empty()
        } else {
            let prev = self.activations(ps, input, (n - 1) as nat);
            prev.push(self.map(Unary::Sigmoid, self.logit(ps, input, prev, n - 1)))
        }
    }

    /// The pre-activations of the first `n` layers.
    pub open spec fn logits(&self, ps: Seq<Params<T>>, input: Seq<Seq<T>>, n: nat) -> Seq<Seq<Seq<T>>> {
        Seq::new(n, |i: int| self.logit(ps, input, self.activations(ps, input, i as nat), i))
    }

    /// `s ⊙ (1 - s)` with `s` the sigmoid of `m`.
    pub open spec fn sigmoid_prime(&self, m: Seq<Seq<T>>) -> Seq<Seq<T>> {
        let s = self.map(Unary::Sigmoid, m);
        self.zip(Binary::Mul, s, self.zip(Binary::Sub, filled(m.len(), m[0].len(), self.one), s))
    }

    /// The network's output: the activation of its last layer.
    pub open spec fn output(&self, ps: Seq<Params<T>>, input: Seq<Seq<T>>) -> Seq<Seq<T>> {
        self.activations(ps, input, ps.len()).last()
    }
}

/// The activations of the first `n` layers begin with those of the first `m`.
pub proof fn lemma_activations_prefix<T: Copy, B, U, E>(
    ar: Arith<T, B, U, E>,
    ps: Seq<Params<T>>,
    input: Seq<Seq<T>>,
    m: nat,
    n: nat,
) where B: Fn(Binary, T, T) -> T, U: Fn(Unary, T) -> T, E: Fn(T, T) -> bool
    requires
        m <= n,
    ensures
        ar.activations(ps, input, n).len() == n,
        ar.activations(ps, input, n).take(m as int) == ar.activations(ps, input, m),
    decreases n,
{
    if n > 0 {
        if m < n {
            lemma_activations_prefix(ar, ps, input, m, (n - 1) as nat);
            assert(ar.activations(ps, input, n).take(m as int) =~= ar.activations(
                ps,
                input,
                (n - 1) as nat,
            ).take(m as int));
        } else {
            lemma_activations_prefix(ar, ps, input, (n - 1) as nat, (n - 1) as nat);
            assert(ar.activations(ps, input, n).take(m as int) =~= ar.activations(ps, input, n));
        }
    }
}

/// Views of a vector of matrices.
pub open spec fn views<T>(v: Seq<Matrix<T>>) -> Seq<Seq<Seq<T>>> {
    v.map_values(|m: Matrix<T>| m@)
}

impl<T: Copy> ResNet<T> {
    /// Layers of the right widths, and a non-empty training set of matching
    /// samples, each one row of `WIDTH` values.
    pub open spec fn wf(&self) -> bool {
        &&& layers_wf(self.layers@)
        &&& self.inputs@.len() == self.labels@.len()
        &&& self.inputs@.len() >= 1
        &&& samples_wf(self.inputs@)
        &&& samples_wf(self.labels@)
    }

    /// A network for the training set `inputs` and `labels`, its
    /// `LAYER_COUNT` layers filled from `draws` in order: layer 0 weights,
    /// layer 0 biases, layer 1 weights, and so on, each row-major. Refused
    /// as `config_error` says.
    pub fn new(inputs: Tensor<T>, labels: Tensor<T>, draws: &Vec<T>) -> (r: Result<ResNet<T>, ConfigError>)
        ensures
            match r {
                Ok(net) => {
                    &&& config_error(inputs@, labels@, draws@.len()) is None
                    &&& net.wf()
                    &&& net.inputs@ == inputs@
                    &&& net.labels@ == labels@
                    &&& forall|i: int|
                        0 <= i < LAYER_COUNT ==> {
                            &&& (#[trigger] net.layers@[i]).weights@ == drawn(
                                draws@,
                                i * layer_draws(WIDTH as nat, WIDTH as nat),
                                WIDTH as nat,
                                WIDTH as nat,
                            )
                            &&& net.layers@[i].biases@ == drawn(
                                draws@,
                                i * layer_draws(WIDTH as nat, WIDTH as nat) + WIDTH * WIDTH,
                                1,
                                WIDTH as nat,
                            )
                        }
                },
                Err(e) => config_error(inputs@, labels@, draws@.len()) == Some(e),
            },
    {
        if inputs.value.len() != labels.value.len() {
            return Err(ConfigError::SampleCountMismatch);
        }
        if inputs.value.len() == 0 {
            return Err(ConfigError::EmptyDataset);
        }
        if !Self::all_samples_wf(&inputs) || !Self::all_samples_wf(&labels) {
            return Err(ConfigError::WidthMismatch);
        }
        if draws.len() != DRAW_COUNT {
            return Err(ConfigError::DrawCountMismatch);
        }
        let mut pos: usize = 0;
        let mut layers: Vec<Layer<T>> = Vec::new();
        let mut i: usize = 0;
        while i < LAYER_COUNT
            invariant
                draws@.len() == DRAW_COUNT,
                i <= LAYER_COUNT,
                pos == i * layer_draws(WIDTH as nat, WIDTH as nat),
                layers@.len() == i,
                forall|k: int|
                    0 <= k < i ==> {
                        &&& (#[trigger] layers@[k]).wf()
                        &&& layers@[k].in_features == WIDTH
                        &&& layers@[k].out_features == WIDTH
                        &&& layers@[k].weights@ == drawn(
                            draws@,
                            k * layer_draws(WIDTH as nat, WIDTH as nat),
                            WIDTH as nat,
                            WIDTH as nat,
                        )
                        &&& layers@[k].biases@ == drawn(
                            draws@,
                            k * layer_draws(WIDTH as nat, WIDTH as nat) + WIDTH * WIDTH,
                            1,
                            WIDTH as nat,
                        )
                    },
            decreases LAYER_COUNT - i,
        {
            assert(WIDTH * WIDTH == 16) by (nonlinear_arith);
            assert(layer_draws(WIDTH as nat, WIDTH as nat) == 20);
            assert(DRAW_COUNT == 80);
            assert(pos + 20 <= 80 && pos + 20 == (i + 1) * 20) by (nonlinear_arith)
                requires
                    pos == i * 20,
                    i < 4,
            ;
            let layer = Layer::new(WIDTH, WIDTH, draws, &mut pos);
            proof {
                let w = drawn(draws@, (i * layer_draws(WIDTH as nat, WIDTH as nat)) as int, WIDTH as nat, WIDTH as nat);
                assert forall|r: int| 0 <= r < w.len() implies #[trigger] w[r].len() == w[0].len() by {}
                let b = drawn(draws@, i * layer_draws(WIDTH as nat, WIDTH as nat) + WIDTH * WIDTH, 1, WIDTH as nat);
                assert forall|r: int| 0 <= r < b.len() implies #[trigger] b[r].len() == b[0].len() by {}
            }
            layers.push(layer);
            i += 1;
        }
        Ok(ResNet { inputs, labels, layers })
    }

    /// Whether every sample is one row of `WIDTH` values.
    fn all_samples_wf(t: &Tensor<T>) -> (r: bool)
        ensures
            r == samples_wf(t@),
    {
        let mut i: usize = 0;
        while i < t.value.len()
            invariant
                i <= t@.len(),
                forall|k: int| 0 <= k < i ==> has_shape(#[trigger] t@[k], 1, WIDTH as nat),
            decreases t@.len() - i,
        {
            let m = &t.value[i];
            if !m.is_well_formed() || m.value.len() != 1 || m.value[0].len() != WIDTH {
                assert(!has_shape(t@[i as int], 1, WIDTH as nat));
                return false;
            }
            i += 1;
        }
        true
    }

    /// Runs every layer on `input`, keeping each layer's pre-activation and
    /// activation.
    pub(crate) fn forward_cached<B, U, E>(&self, input: &Matrix<T>, ar: &Arith<T, B, U, E>) -> (r: (
        Vec<Matrix<T>>,
        Vec<Matrix<T>>,
    )) where B: Fn(Binary, T, T) -> T, U: Fn(Unary, T) -> T, E: Fn(T, T) -> bool
        requires
            ar.wf(),
            layers_wf(self.layers@),
            has_shape(input@, 1, WIDTH as nat),
        ensures
            views(r.0@) == ar.logits(params(self.layers@), input@, LAYER_COUNT as nat),
            views(r.1@) == ar.activations(params(self.layers@), input@, LAYER_COUNT as nat),
            forall|k: int| 0 <= k < LAYER_COUNT ==> has_shape(#[trigger] views(r.0@)[k], 1, WIDTH as nat),
            forall|k: int| 0 <= k < LAYER_COUNT ==> has_shape(#[trigger] views(r.1@)[k], 1, WIDTH as nat),
    {
        let ghost layers = self.layers@;
        let ghost ps = params(layers);
        let mut logits: Vec<Matrix<T>> = Vec::new();
        let mut acts: Vec<Matrix<T>> = Vec::new();
        let mut idx: usize = 0;
        while idx < self.layers.len()
            invariant
                ar.wf(),
                layers == self.layers@,
                ps == params(layers),
                layers_wf(layers),
                has_shape(input@, 1, WIDTH as nat),
                idx <= LAYER_COUNT,
                logits@.len() == idx,
                acts@.len() == idx,
                views(logits@) == ar.logits(ps, input@, idx as nat),
                views(acts@) == ar.activations(ps, input@, idx as nat),
                forall|k: int| 0 <= k < idx ==> has_shape(#[trigger] views(logits@)[k], 1, WIDTH as nat),
                forall|k: int| 0 <= k < idx ==> has_shape(#[trigger] views(acts@)[k], 1, WIDTH as nat),
            decreases LAYER_COUNT - idx,
        {
            let ghost prev = views(acts@);
            let layer = &self.layers[idx];
            assert(layer.wf() && layer.in_features == WIDTH && layer.out_features == WIDTH);
            assert(*layer == layers[idx as int]);
            assert(ps[idx as int] == (layer.weights@, layer.biases@));
            let x: &Matrix<T> = if idx == 0 {
                input
            } else {
                assert(has_shape(views(acts@)[idx - 1], 1, WIDTH as nat));
                &acts[idx - 1]
            };
            assert(x@ == layer_input(input@, prev, idx as int));
            proof {
                lemma_dot_shape(*ar, x@, layer.weights@);
            }
            let product = match Matrix::dot(x, &layer.weights, ar) {
                Ok(m) => m,
                Err(_) => vstd::pervasive::unreached(),
            };
            proof {
                lemma_zip_shape(*ar, Binary::Add, product@, layer.biases@);
            }
            let linear = match product.elementwise(&layer.biases, Binary::Add, ar) {
                Ok(m) => m,
                Err(_) => vstd::pervasive::unreached(),
            };
            let logit = if idx == 0 {
                linear
            } else {
                let skip: &Matrix<T> = if idx == 1 {
                    input
                } else {
                    assert(has_shape(views(acts@)[idx - 2], 1, WIDTH as nat));
                    &acts[idx - 2]
                };
                proof {
                    lemma_zip_shape(*ar, Binary::Add, linear@, skip@);
                }
                match linear.elementwise(skip, Binary::Add, ar) {
                    Ok(m) => m,
                    Err(_) => vstd::pervasive::unreached(),
                }
            };
            assert(logit@ == ar.logit(ps, input@, prev, idx as int));
            proof {
                lemma_map_shape(*ar, Unary::Sigmoid, logit@);
            }
            let act = logit.map(Unary::Sigmoid, ar);
            assert(has_shape(logit@, 1, WIDTH as nat));
            let ghost before = views(logits@);
            logits.push(logit);
            acts.push(act);
            idx += 1;
            assert(views(acts@) =~= ar.activations(ps, input@, idx as nat));
            assert forall|k: int| 0 <= k < idx implies #[trigger] views(logits@)[k] == ar.logits(
                ps,
                input@,
                idx as nat,
            )[k] by {
                if k < idx - 1 {
                    assert(views(logits@)[k] == before[k]);
                }
            }
            assert forall|k: int| 0 <= k < idx implies has_shape(#[trigger] views(logits@)[k], 1, WIDTH as nat) by {
                if k < idx - 1 {
                    assert(views(logits@)[k] == before[k]);
                }
            }
            assert(views(logits@) =~= ar.logits(ps, input@, idx as nat));
        }
        (logits, acts)
    }

    /// The network's output for `input`, which must be one row of `WIDTH`
    /// values: layer by layer, the activation of `x·W + b` plus the skip
    /// term. Depends on nothing but the layers and `input`.
    pub fn forward<B, U, E>(&self, input: &Matrix<T>, ar: &Arith<T, B, U, E>) -> (r: Result<
        Matrix<T>,
        ShapeError,
    >) where B: Fn(Binary, T, T) -> T, U: Fn(Unary, T) -> T, E: Fn(T, T) -> bool
        requires
            ar.wf(),
            self.wf(),
        ensures
            match r {
                Ok(m) => has_shape(input@, 1, WIDTH as nat) && m@ == ar.output(params(self.layers@), input@)
                    && has_shape(m@, 1, WIDTH as nat),
                Err(_) => !has_shape(input@, 1, WIDTH as nat),
            },
    {
        if !input.is_well_formed() || input.value.len() != 1 || input.value[0].len() != WIDTH {
            return Err(ShapeError);
        }
        let (_, mut acts) = self.forward_cached(input, ar);
        proof {
            lemma_activations_prefix(*ar, params(self.layers@), input@, LAYER_COUNT as nat, LAYER_COUNT as nat);
            assert(acts@.len() == views(acts@).len());
        }
        assert(has_shape(views(acts@)[LAYER_COUNT - 1], 1, WIDTH as nat));
        match acts.pop() {
            Some(m) => Ok(m),
            None => vstd::pervasive::unreached(),
        }
    }

    /// The logistic function applied to each element.
    pub fn sigmoid<B, U, E>(matrix: &Matrix<T>, ar: &Arith<T, B, U, E>) -> (m: Matrix<T>) where
        B: Fn(Binary, T, T) -> T,
        U: Fn(Unary, T) -> T,
        E: Fn(T, T) -> bool,

        requires
            ar.wf(),
        ensures
            m@ == ar.map(Unary::Sigmoid, matrix@),
    {
        matrix.map(Unary::Sigmoid, ar)
    }

    /// Each element replaced by `one` when it lies above one half, else by
    /// `zero`.
    pub fn threshold<B, U, E>(matrix: &Matrix<T>, ar: &Arith<T, B, U, E>) -> (m: Matrix<T>) where
        B: Fn(Binary, T, T) -> T,
        U: Fn(Unary, T) -> T,
        E: Fn(T, T) -> bool,

        requires
            ar.wf(),
        ensures
            m@ == ar.map(Unary::Step, matrix@),
    {
        matrix.map(Unary::Step, ar)
    }

    /// The derivative of the logistic function at each element,
    /// `s ⊙ (1 - s)` with `s` the sigmoid of `logit`. A ragged or empty
    /// matrix is refused.
    pub fn sigmoid_prime<B, U, E>(logit: &Matrix<T>, ar: &Arith<T, B, U, E>) -> (r: Result<
        Matrix<T>,
        ShapeError,
    >) where B: Fn(Binary, T, T) -> T, U: Fn(Unary, T) -> T, E: Fn(T, T) -> bool
        requires
            ar.wf(),
        ensures
            match r {
                Ok(m) => well_formed(logit@) && m@ == ar.sigmoid_prime(logit@),
                Err(_) => !well_formed(logit@),
            },
    {
        if !logit.is_well_formed() {
            return Err(ShapeError);
        }
        let s = Self::sigmoid(logit, ar);
        let ones = Matrix::new(logit.value.len(), logit.value[0].len(), ar.one);
        proof {
            lemma_map_shape(*ar, Unary::Sigmoid, logit@);
            assert forall|i: int| 0 <= i < ones@.len() implies #[trigger] ones@[i].len() == ones@[0].len() by {}
            lemma_zip_shape(*ar, Binary::Sub, ones@, s@);
        }
        let rest = match ones.elementwise(&s, Binary::Sub, ar) {
            Ok(m) => m,
            Err(_) => vstd::pervasive::unreached(),
        };
        match s.elementwise(&rest, Binary::Mul, ar) {
            Ok(m) => Ok(m),
            Err(_) => vstd::pervasive::unreached(),
        }
    }

}

/// `forward` is a pure function of the parameters and the input: two
/// networks with the same parameters give the same output for the same
/// input, since `forward` returns `output` of exactly these two.
pub proof fn lemma_forward_pure<T: Copy, B, U, E>(
    ar: Arith<T, B, U, E>,
    a: ResNet<T>,
    b: ResNet<T>,
    x: Seq<Seq<T>>,
    y: Seq<Seq<T>>,
) where B: Fn(Binary, T, T) -> T, U: Fn(Unary, T) -> T, E: Fn(T, T) -> bool
    requires
        params(a.layers@) == params(b.layers@),
        x == y,
    ensures
        ar.output(params(a.layers@), x) == ar.output(params(b.layers@), y),
{
}


} // verus!
