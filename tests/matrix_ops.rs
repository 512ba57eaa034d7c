use resnet::arith::{Arith, Binary, Unary};
use resnet::matrix::{Matrix, ShapeError};
use resnet::tensor::Tensor;

fn arith() -> Arith<f32, impl Fn(Binary, f32, f32) -> f32, impl Fn(Unary, f32) -> f32, impl Fn(f32, f32) -> bool> {
    Arith {
        zero: 0.0,
        one: 1.0,
        binary: |o: Binary, a: f32, b: f32| match o {
            Binary::Add => a + b,
            Binary::Sub => a - b,
            Binary::Mul => a * b,
            Binary::Div => a / b,
        },
        unary: |o: Unary, x: f32| match o {
            Unary::Sigmoid => 1.0 / (1.0 + std::f32::consts::E.powf(-x)),
            Unary::Step => {
                if x > 0.5 {
                    1.0
                } else {
                    0.0
                }
            }
        },
        same: |a: f32, b: f32| a == b,
    }
}

fn m(rows: Vec<Vec<f32>>) -> Matrix<f32> {
    Matrix { value: rows }
}

#[test]
fn new_fills_every_element() {
    let a = Matrix::new(2, 3, 7.5f32);
    assert_eq!(a.value, vec![vec![7.5, 7.5, 7.5], vec![7.5, 7.5, 7.5]]);
    assert_eq!(a.size(), (2, 3));
}

#[test]
fn size_of_empty_matrix() {
    let a: Matrix<f32> = Matrix::new(0, 3, 1.0);
    assert_eq!(a.size(), (0, 0));
}

#[test]
fn dot_has_outer_shape_and_matches_triple_loop() {
    let ar = arith();
    let a = m(vec![vec![1.0, 2.0, 3.0], vec![4.0, 5.0, 6.0]]);
    let b = m(vec![vec![7.0, 8.0], vec![9.0, 10.0], vec![11.0, 12.0]]);
    let r = Matrix::dot(&a, &b, &ar).unwrap();
    assert_eq!(r.size(), (2, 2));
    assert_eq!(r.value, vec![vec![58.0, 64.0], vec![139.0, 154.0]]);
    for i in 0..2 {
        for j in 0..2 {
            let mut acc = 0.0f32;
            for k in 0..3 {
                acc += a.value[i][k] * b.value[k][j];
            }
            assert_eq!(r.value[i][j], acc);
        }
    }
}

#[test]
fn dot_of_row_and_column() {
    let ar = arith();
    let a = m(vec![vec![1.0, 2.0, 3.0]]);
    let b = m(vec![vec![4.0], vec![5.0], vec![6.0]]);
    assert_eq!(Matrix::dot(&a, &b, &ar).unwrap().value, vec![vec![32.0]]);
    let outer = Matrix::dot(&b, &a, &ar).unwrap();
    assert_eq!(outer.size(), (3, 3));
    assert_eq!(outer.value[2], vec![6.0, 12.0, 18.0]);
}

#[test]
fn dot_rejects_inner_mismatch() {
    let ar = arith();
    let a = m(vec![vec![1.0, 2.0]]);
    let b = m(vec![vec![1.0, 2.0]]);
    assert_eq!(Matrix::dot(&a, &b, &ar).unwrap_err(), ShapeError);
}

#[test]
fn dot_rejects_ragged_operand() {
    let ar = arith();
    let a = m(vec![vec![1.0, 2.0], vec![3.0]]);
    let b = m(vec![vec![1.0], vec![2.0]]);
    assert!(Matrix::dot(&a, &b, &ar).is_err());
}

#[test]
fn elementwise_add_sub_and_hadamard() {
    let ar = arith();
    let a = m(vec![vec![1.0, 2.0], vec![3.0, 4.0]]);
    let b = m(vec![vec![5.0, 6.0], vec![7.0, 8.0]]);
    assert_eq!(a.elementwise(&b, Binary::Add, &ar).unwrap().value, vec![vec![6.0, 8.0], vec![10.0, 12.0]]);
    assert_eq!(a.elementwise(&b, Binary::Sub, &ar).unwrap().value, vec![vec![-4.0, -4.0], vec![-4.0, -4.0]]);
    assert_eq!(a.elementwise(&b, Binary::Mul, &ar).unwrap().value, vec![vec![5.0, 12.0], vec![21.0, 32.0]]);
}

#[test]
fn elementwise_rejects_shape_mismatch() {
    let ar = arith();
    let a = m(vec![vec![1.0, 2.0], vec![3.0, 4.0]]);
    let wide = m(vec![vec![1.0, 2.0, 3.0], vec![4.0, 5.0, 6.0]]);
    let tall = m(vec![vec![1.0, 2.0]]);
    let ragged = m(vec![vec![1.0, 2.0], vec![3.0]]);
    for o in [Binary::Add, Binary::Sub, Binary::Mul] {
        assert_eq!(a.elementwise(&wide, o, &ar).unwrap_err(), ShapeError);
        assert_eq!(a.elementwise(&tall, o, &ar).unwrap_err(), ShapeError);
        assert_eq!(a.elementwise(&ragged, o, &ar).unwrap_err(), ShapeError);
    }
}

#[test]
fn add_assign_accumulates_in_place() {
    let ar = arith();
    let mut acc = Matrix::new(1, 2, 0.0f32);
    acc.add_assign(&m(vec![vec![1.0, 2.0]]), &ar).unwrap();
    acc.add_assign(&m(vec![vec![0.5, -1.0]]), &ar).unwrap();
    assert_eq!(acc.value, vec![vec![1.5, 1.0]]);
}

#[test]
fn add_assign_mismatch_leaves_matrix() {
    let ar = arith();
    let mut acc = m(vec![vec![1.0, 2.0]]);
    assert_eq!(acc.add_assign(&m(vec![vec![1.0]]), &ar), Err(ShapeError));
    assert_eq!(acc.value, vec![vec![1.0, 2.0]]);
}

#[test]
fn scalar_mul_scales_each_element() {
    let ar = arith();
    let a = m(vec![vec![1.0, -2.0], vec![0.5, 4.0]]);
    let r = Matrix::scalar_mul(3.0, &a, &ar).unwrap();
    assert_eq!(r.value, vec![vec![3.0, -6.0], vec![1.5, 12.0]]);
}

#[test]
fn scalar_mul_rejects_empty() {
    let ar = arith();
    assert_eq!(Matrix::scalar_mul(2.0, &m(vec![]), &ar).unwrap_err(), ShapeError);
    assert_eq!(Matrix::scalar_mul(2.0, &m(vec![vec![]]), &ar).unwrap_err(), ShapeError);
}

#[test]
fn transpose_swaps_axes() {
    let a = m(vec![vec![1.0, 2.0, 3.0], vec![4.0, 5.0, 6.0]]);
    let t = a.transpose().unwrap();
    assert_eq!(t.value, vec![vec![1.0, 4.0], vec![2.0, 5.0], vec![3.0, 6.0]]);
}

#[test]
fn transpose_twice_is_identity() {
    let a = m(vec![vec![1.5, -2.0, 3.25], vec![4.0, 0.0, -6.5]]);
    let back = a.transpose().unwrap().transpose().unwrap();
    assert_eq!(back.value, a.value);
    let row = m(vec![vec![9.0, 8.0, 7.0, 6.0]]);
    assert_eq!(row.transpose().unwrap().transpose().unwrap().value, row.value);
}

#[test]
fn transpose_rejects_ragged_and_empty() {
    assert_eq!(m(vec![vec![1.0, 2.0], vec![3.0]]).transpose().unwrap_err(), ShapeError);
    assert_eq!(m(vec![]).transpose().unwrap_err(), ShapeError);
}

#[test]
fn map_applies_unary_operation() {
    let ar = arith();
    let a = m(vec![vec![0.2, 0.5, 0.51, 3.0]]);
    assert_eq!(a.map(Unary::Step, &ar).value, vec![vec![0.0, 0.0, 1.0, 1.0]]);
}

#[test]
fn vec2matrices_keeps_order() {
    let v = Tensor::vec2matrices(vec![vec![vec![1.0f32, 2.0]], vec![vec![3.0, 4.0]], vec![vec![5.0, 6.0]]]);
    assert_eq!(v.len(), 3);
    assert_eq!(v[0].value, vec![vec![1.0, 2.0]]);
    assert_eq!(v[2].value, vec![vec![5.0, 6.0]]);
}

#[test]
fn count_as_scalar() {
    let ar = arith();
    assert_eq!(ar.from_count(0), 0.0);
    assert_eq!(ar.from_count(16), 16.0);
}
