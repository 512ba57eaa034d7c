use rand::rngs::StdRng;
use rand::{Rng, SeedableRng};
use resnet::arith::{Arith, Binary, Unary};
use resnet::layer::Layer;
use resnet::matrix::{Matrix, ShapeError};
use resnet::resnet::{ConfigError, ResNet, DRAW_COUNT, LAYER_COUNT, WIDTH};
use resnet::tensor::Tensor;

fn arith() -> Arith<f32, impl Fn(Binary, f32, f32) -> f32, impl Fn(Unary, f32) -> f32, impl Fn(f32, f32) -> bool> {
    Arith {
        zero: 0.0,
        one: 1.0,
        binary: |o: Binary, a: f32, b: f32| match o {
            Binary::Add => a + b,
            Binary::Sub => a - b,
            Binary::Mul => a * b,
            Binary::Div => a / b,
        },
        unary: |o: Unary, x: f32| match o {
            Unary::Sigmoid => 1.0 / (1.0 + std::f32::consts::E.powf(-x)),
            Unary::Step => {
                if x > 0.5 {
                    1.0
                } else {
                    0.0
                }
            }
        },
        same: |a: f32, b: f32| a == b,
    }
}

fn row(v: &[f32]) -> Matrix<f32> {
    Matrix { value: vec![v.to_vec()] }
}

fn tensor(rows: &[&[f32]]) -> Tensor<f32> {
    Tensor { value: rows.iter().map(|r| row(r)).collect() }
}

fn bits() -> Tensor<f32> {
    let value = (0..16u32)
        .map(|n| row(&[(n >> 3 & 1) as f32, (n >> 2 & 1) as f32, (n >> 1 & 1) as f32, (n & 1) as f32]))
        .collect();
    Tensor { value }
}

fn draws(seed: u64) -> Vec<f32> {
    let mut rng = StdRng::seed_from_u64(seed);
    (0..DRAW_COUNT).map(|_| rng.gen_range(-0.5..=0.5)).collect()
}

fn network(seed: u64) -> ResNet<f32> {
    ResNet::new(bits(), bits(), &draws(seed)).unwrap()
}

#[test]
fn sigmoid_lies_in_open_unit_interval() {
    let ar = arith();
    let m = row(&[-20.0, -3.0, -0.5, 0.0, 0.5, 3.0, 15.0]);
    for v in ResNet::sigmoid(&m, &ar).value[0].iter() {
        assert!(*v > 0.0 && *v < 1.0);
    }
}

#[test]
fn sigmoid_of_zero_is_one_half() {
    let ar = arith();
    assert_eq!(ResNet::sigmoid(&row(&[0.0]), &ar).value, vec![vec![0.5]]);
}

#[test]
fn sigmoid_prime_is_s_times_one_minus_s() {
    let ar = arith();
    let m = Matrix { value: vec![vec![-4.0, -1.0, 0.0], vec![0.25, 2.0, 8.0]] };
    let d = ResNet::sigmoid_prime(&m, &ar).unwrap();
    let s = ResNet::sigmoid(&m, &ar);
    for i in 0..2 {
        for j in 0..3 {
            let v = d.value[i][j];
            assert_eq!(v, s.value[i][j] * (1.0 - s.value[i][j]));
            assert!((0.0..=0.25).contains(&v));
        }
    }
    assert_eq!(d.value[0][2], 0.25);
}

#[test]
fn sigmoid_prime_rejects_ragged() {
    let ar = arith();
    let m = Matrix { value: vec![vec![1.0, 2.0], vec![3.0]] };
    assert_eq!(ResNet::sigmoid_prime(&m, &ar).unwrap_err(), ShapeError);
}

#[test]
fn threshold_is_strictly_above_one_half() {
    let ar = arith();
    let t = ResNet::threshold(&row(&[0.5, 0.500001, 0.0, 0.99]), &ar);
    assert_eq!(t.value, vec![vec![0.0, 1.0, 0.0, 1.0]]);
}

#[test]
fn mse_divides_by_sample_count_only() {
    let ar = arith();
    let labels = tensor(&[&[1.0, 0.0], &[0.0, 0.0]]);
    let outputs = tensor(&[&[0.5, 0.5], &[0.0, 1.0]]);
    assert_eq!(ResNet::mse(&labels, &outputs, &ar), 0.75);
}

#[test]
fn mse_is_zero_exactly_when_outputs_equal_labels() {
    let ar = arith();
    let labels = tensor(&[&[1.0, 0.0, 1.0, 0.0], &[0.0, 0.0, 1.0, 1.0]]);
    assert_eq!(ResNet::mse(&labels, &labels.clone(), &ar), 0.0);
    let near = tensor(&[&[1.0, 0.0, 1.0, 0.0], &[0.0, 0.0, 1.0, 0.999]]);
    assert!(ResNet::mse(&labels, &near, &ar) > 0.0);
}

#[test]
fn accuracy_is_one_when_every_sample_matches() {
    let ar = arith();
    let labels = tensor(&[&[1.0, 0.0, 1.0, 0.0], &[0.0, 1.0, 1.0, 1.0]]);
    let outputs = tensor(&[&[0.9, 0.1, 0.6, 0.4], &[0.2, 0.8, 0.7, 0.51]]);
    assert_eq!(ResNet::accuracy(&labels, &outputs, &ar), 1.0);
}

#[test]
fn accuracy_is_zero_when_no_sample_matches() {
    let ar = arith();
    let labels = tensor(&[&[1.0, 0.0, 1.0, 0.0], &[0.0, 1.0, 1.0, 1.0]]);
    let outputs = tensor(&[&[0.1, 0.1, 0.6, 0.4], &[0.2, 0.8, 0.7, 0.5]]);
    assert_eq!(ResNet::accuracy(&labels, &outputs, &ar), 0.0);
}

#[test]
fn accuracy_counts_partial_match_as_miss() {
    let ar = arith();
    let labels = tensor(&[&[1.0, 1.0], &[0.0, 0.0], &[1.0, 0.0], &[0.0, 1.0]]);
    let outputs = tensor(&[&[0.9, 0.9], &[0.9, 0.1], &[0.1, 0.1], &[0.1, 0.9]]);
    assert_eq!(ResNet::accuracy(&labels, &outputs, &ar), 0.5);
}

#[test]
fn layer_reads_weights_then_biases_row_major() {
    let d: Vec<f32> = (0..10).map(|v| v as f32).collect();
    let mut pos = 2usize;
    let l = Layer::new(2, 2, &d, &mut pos);
    assert_eq!(pos, 8);
    assert_eq!(l.weights.value, vec![vec![2.0, 3.0], vec![4.0, 5.0]]);
    assert_eq!(l.biases.value, vec![vec![6.0, 7.0]]);
    assert_eq!((l.in_features, l.out_features), (2, 2));
}

#[test]
fn random_matrix_advances_cursor() {
    let d: Vec<f32> = (0..6).map(|v| v as f32).collect();
    let mut pos = 0usize;
    let m = Layer::random_matrix(2, 3, &d, &mut pos);
    assert_eq!(pos, 6);
    assert_eq!(m.value, vec![vec![0.0, 1.0, 2.0], vec![3.0, 4.0, 5.0]]);
}

#[test]
fn new_builds_layers_in_draw_order() {
    let d = draws(28);
    let net = ResNet::new(bits(), bits(), &d).unwrap();
    assert_eq!(net.layers.len(), LAYER_COUNT);
    let per = WIDTH * WIDTH + WIDTH;
    for (i, l) in net.layers.iter().enumerate() {
        assert_eq!(l.weights.value[1][2], d[i * per + WIDTH + 2]);
        assert_eq!(l.biases.value[0][3], d[i * per + WIDTH * WIDTH + 3]);
    }
    for v in d.iter() {
        assert!((-0.5..=0.5).contains(v));
    }
}

#[test]
fn new_rejects_sample_count_mismatch() {
    let labels = tensor(&[&[0.0, 0.0, 0.0, 0.0]]);
    assert_eq!(ResNet::new(bits(), labels, &draws(1)).unwrap_err(), ConfigError::SampleCountMismatch);
}

#[test]
fn new_rejects_empty_dataset() {
    let empty = Tensor { value: vec![] };
    assert_eq!(ResNet::new(empty.clone(), empty, &draws(1)).unwrap_err(), ConfigError::EmptyDataset);
}

#[test]
fn new_rejects_wrong_width() {
    let inputs = tensor(&[&[0.0, 1.0, 0.0]]);
    let labels = tensor(&[&[0.0, 1.0, 0.0, 1.0]]);
    assert_eq!(ResNet::new(inputs, labels, &draws(1)).unwrap_err(), ConfigError::WidthMismatch);
}

#[test]
fn new_rejects_wrong_draw_count() {
    let mut d = draws(1);
    d.pop();
    assert_eq!(ResNet::new(bits(), bits(), &d).unwrap_err(), ConfigError::DrawCountMismatch);
}

#[test]
fn forward_is_pure() {
    let ar = arith();
    let net = network(28);
    let x = row(&[1.0, 0.0, 1.0, 1.0]);
    let a = net.forward(&x, &ar).unwrap();
    let b = net.forward(&x, &ar).unwrap();
    assert_eq!(a.size(), (1, WIDTH));
    for j in 0..WIDTH {
        assert_eq!(a.value[0][j].to_bits(), b.value[0][j].to_bits());
        assert!(a.value[0][j] > 0.0 && a.value[0][j] < 1.0);
    }
}

#[test]
fn forward_rejects_wrong_width() {
    let ar = arith();
    let net = network(28);
    assert_eq!(net.forward(&row(&[1.0, 0.0, 1.0]), &ar).unwrap_err(), ShapeError);
    let two_rows = Matrix { value: vec![vec![0.0; 4], vec![1.0; 4]] };
    assert_eq!(net.forward(&two_rows, &ar).unwrap_err(), ShapeError);
}

#[test]
fn forward_matches_hand_computation() {
    let ar = arith();
    let net = network(5);
    let x = [0.0f32, 1.0, 1.0, 0.0];
    let sig = |v: f32| 1.0 / (1.0 + std::f32::consts::E.powf(-v));
    let mut acts: Vec<Vec<f32>> = vec![];
    for (i, l) in net.layers.iter().enumerate() {
        let input: Vec<f32> = if i == 0 { x.to_vec() } else { acts[i - 1].clone() };
        let mut out = vec![];
        for j in 0..WIDTH {
            let mut s = 0.0f32;
            for k in 0..WIDTH {
                s += input[k] * l.weights.value[k][j];
            }
            let mut v = s + l.biases.value[0][j];
            if i == 1 {
                v = v + x[j];
            } else if i >= 2 {
                v = v + acts[i - 2][j];
            }
            out.push(sig(v));
        }
        acts.push(out);
    }
    assert_eq!(net.forward(&row(&x), &ar).unwrap().value, vec![acts[LAYER_COUNT - 1].clone()]);
}

#[test]
fn train_zero_epochs_changes_nothing() {
    let ar = arith();
    let mut net = network(28);
    let before: Vec<Vec<Vec<f32>>> = net.layers.iter().map(|l| l.weights.value.clone()).collect();
    let reports = net.train(0.1, 0, &ar);
    assert!(reports.is_empty());
    let after: Vec<Vec<Vec<f32>>> = net.layers.iter().map(|l| l.weights.value.clone()).collect();
    assert_eq!(before, after);
}

#[test]
fn train_reports_each_epoch() {
    let ar = arith();
    let mut net = network(74);
    let reports = net.train(1.0, 3, &ar);
    assert_eq!(reports.len(), 3);
    for (e, r) in reports.iter().enumerate() {
        assert_eq!(r.epoch, e);
    }
    let outputs = Tensor { value: bits().value.iter().map(|x| net.forward(x, &ar).unwrap()).collect() };
    assert_eq!(reports[2].loss, ResNet::mse(&net.labels, &outputs, &ar));
    assert_eq!(reports[2].accuracy, ResNet::accuracy(&net.labels, &outputs, &ar));
}

#[test]
fn identity_task_learned_with_seed_28() {
    let ar = arith();
    let mut net = network(28);
    let reports = net.train(0.1, 200, &ar);
    let last = reports.last().unwrap();
    assert_eq!(last.accuracy, 1.0);
    assert!(last.loss < reports[0].loss);
    for x in bits().value.iter() {
        let out = ResNet::threshold(&net.forward(x, &ar).unwrap(), &ar);
        assert_eq!(out.value, x.value);
    }
}

#[test]
fn accuracy_does_not_fall_with_seed_74() {
    let ar = arith();
    let mut net = network(74);
    let reports = net.train(1.0, 11, &ar);
    assert_eq!(reports.len(), 11);
    assert!(reports[10].accuracy >= reports[0].accuracy);
}

#[test]
fn one_epoch_matches_hand_computation() {
    let ar = arith();
    let mut net = network(28);
    let lr = 0.1f32;
    let sig = |v: f32| 1.0 / (1.0 + std::f32::consts::E.powf(-v));
    let w: Vec<Vec<Vec<f32>>> = net.layers.iter().map(|l| l.weights.value.clone()).collect();
    let b: Vec<Vec<f32>> = net.layers.iter().map(|l| l.biases.value[0].clone()).collect();
    let data = bits();
    let mut dw = vec![vec![vec![0.0f32; WIDTH]; WIDTH]; LAYER_COUNT];
    let mut db = vec![vec![0.0f32; WIDTH]; LAYER_COUNT];
    for sample in data.value.iter() {
        let x = sample.value[0].clone();
        let mut logits: Vec<Vec<f32>> = vec![];
        let mut acts: Vec<Vec<f32>> = vec![];
        for i in 0..LAYER_COUNT {
            let input = if i == 0 { x.clone() } else { acts[i - 1].clone() };
            let mut logit = vec![];
            for j in 0..WIDTH {
                let mut s = 0.0f32;
                for k in 0..WIDTH {
                    s += input[k] * w[i][k][j];
                }
                let mut v = s + b[i][j];
                if i == 1 {
                    v = v + x[j];
                } else if i >= 2 {
                    v = v + acts[i - 2][j];
                }
                logit.push(v);
            }
            acts.push(logit.iter().map(|v| sig(*v)).collect());
            logits.push(logit);
        }
        let mut delta = vec![0.0f32; WIDTH];
        for i in (0..LAYER_COUNT).rev() {
            let sp: Vec<f32> = logits[i].iter().map(|v| sig(*v) * (1.0 - sig(*v))).collect();
            let mut next = vec![0.0f32; WIDTH];
            for j in 0..WIDTH {
                next[j] = if i == LAYER_COUNT - 1 {
                    (x[j] - acts[i][j]) * sp[j]
                } else {
                    let mut s = 0.0f32;
                    for k in 0..WIDTH {
                        s += delta[k] * w[i + 1][j][k];
                    }
                    s * sp[j]
                };
            }
            delta = next;
            let input = if i == 0 { x.clone() } else { acts[i - 1].clone() };
            for r in 0..WIDTH {
                for c in 0..WIDTH {
                    dw[i][r][c] = dw[i][r][c] + (0.0f32 + input[r] * delta[c]);
                }
                db[i][r] = db[i][r] + delta[r];
            }
        }
    }
    let step = lr / 16.0;
    net.train(lr, 1, &ar);
    for i in 0..LAYER_COUNT {
        for r in 0..WIDTH {
            for c in 0..WIDTH {
                assert_eq!(net.layers[i].weights.value[r][c], w[i][r][c] + step * dw[i][r][c]);
            }
            assert_eq!(net.layers[i].biases.value[0][r], b[i][r] + step * db[i][r]);
        }
    }
}
