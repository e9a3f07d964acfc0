use cutensor::dispatch::{grid_size, kernel_name, launch_rank, make_plan, op_supported, result_type, BinaryOp, ElemType};
use cutensor::kernel::{apply_op_broadcast, decomp};
use cutensor::render::render;
use cutensor::shape::{Dimension, DynShape, Shape};

fn shape_of(dims: Vec<Dimension>) -> DynShape {
    DynShape::new(dims).unwrap()
}

#[test]
fn lib_test_add() {
    let a = [1.0f32, 2.0, 3.0];
    let b = [1.0f32, 2.0, 3.0];
    let mut o = vec![0.0f32; 9];
    let a_strides = [0usize, 1];
    let b_strides = [1usize, 0];
    let o_strides = [3usize, 1];
    for idx in 0..100 {
        apply_op_broadcast(
            &a,
            &a_strides,
            &b,
            &b_strides,
            &mut o,
            &o_strides,
            &|x: f32, y: f32| x + y,
            idx,
        );
    }

    assert_eq!(
        o.as_slice(),
        &[2.0, 3.0, 4.0, 3.0, 4.0, 5.0, 4.0, 5.0, 6.0]
    );
}

#[test]
fn decomp_walks_broadcast_strides() {
    // Output (3, 3); operand A is a column (3, 1), operand B a row (1, 3).
    let o_strides = [3usize, 1];
    let a_strides = [1usize, 0];
    let b_strides = [0usize, 1];
    for idx in 0..9usize {
        assert_eq!(decomp(idx, &o_strides, &a_strides), idx / 3);
        assert_eq!(decomp(idx, &o_strides, &b_strides), idx % 3);
    }
}

#[test]
fn kernel_names_follow_the_pattern() {
    assert_eq!(kernel_name(BinaryOp::Add, ElemType::F32, 3), "add_f32_3d");
    assert_eq!(kernel_name(BinaryOp::And, ElemType::Bool, 2), "and_bool_2d");
    assert_eq!(kernel_name(BinaryOp::Equal, ElemType::F64, 1), "eq_f64_1d");
    assert_eq!(kernel_name(BinaryOp::Div, ElemType::F32, 6), "div_f32_6d");
    assert_eq!(kernel_name(BinaryOp::Sub, ElemType::F64, 4), "sub_f64_4d");
    assert_eq!(kernel_name(BinaryOp::Mul, ElemType::F32, 5), "mul_f32_5d");
    assert_eq!(kernel_name(BinaryOp::Or, ElemType::Bool, 1), "or_bool_1d");
}

#[test]
fn op_support_per_element_family() {
    assert!(op_supported(BinaryOp::Add, ElemType::F32));
    assert!(op_supported(BinaryOp::Equal, ElemType::F64));
    assert!(op_supported(BinaryOp::And, ElemType::Bool));
    assert!(!op_supported(BinaryOp::And, ElemType::F32));
    assert!(!op_supported(BinaryOp::Add, ElemType::Bool));
    assert_eq!(result_type(BinaryOp::Equal, ElemType::F32), ElemType::Bool);
    assert_eq!(result_type(BinaryOp::Add, ElemType::F64), ElemType::F64);
}

#[test]
fn launch_geometry_rounds_up() {
    assert_eq!(grid_size(9, 4), 3);
    assert_eq!(grid_size(8, 4), 2);
    assert_eq!(grid_size(1, 256), 1);
    assert_eq!(grid_size(0, 32), 0);
    assert_eq!(launch_rank(0), 1);
    assert_eq!(launch_rank(4), 4);
}

#[test]
fn plan_zeroes_stretched_axes() {
    let a = shape_of(vec![Dimension::Static(3), Dimension::Static(1)]);
    let b = shape_of(vec![Dimension::Static(1), Dimension::Static(3)]);
    let plan = make_plan(&a, &b).unwrap();
    assert_eq!(plan.out_shape.dimensions(), vec![3, 3]);
    assert_eq!(plan.out_strides, vec![3, 1]);
    assert_eq!(plan.a_strides, vec![1, 0]);
    assert_eq!(plan.b_strides, vec![0, 1]);
}

#[test]
fn plan_zeroes_missing_leading_axes() {
    let a = shape_of(vec![
        Dimension::Static(2),
        Dimension::Static(3),
        Dimension::Static(4),
    ]);
    let b = shape_of(vec![Dimension::Static(4)]);
    let plan = make_plan(&a, &b).unwrap();
    assert_eq!(plan.out_strides, vec![12, 4, 1]);
    assert_eq!(plan.a_strides, vec![12, 4, 1]);
    assert_eq!(plan.b_strides, vec![0, 0, 1]);
}

#[test]
fn render_nests_rows() {
    let elems: Vec<String> = vec!["1", "2", "3", "4", "5", "6"]
        .into_iter()
        .map(|s| s.to_string())
        .collect();
    let dims = vec![2usize, 3];
    assert_eq!(render(&elems, &dims), "[[1, 2, 3], [4, 5, 6]]");
}

#[test]
fn render_scalar_and_vector() {
    let elems = vec!["7".to_string()];
    assert_eq!(render(&elems, &vec![]), "7");
    let elems = vec!["1.5".to_string(), "2.5".to_string()];
    assert_eq!(render(&elems, &vec![2usize]), "[1.5, 2.5]");
    let elems: Vec<String> = Vec::new();
    assert_eq!(render(&elems, &vec![0usize]), "[]");
}

#[test]
fn render_three_axes() {
    let elems: Vec<String> = (1..=8).map(|n: i32| n.to_string()).collect();
    let dims = vec![2usize, 2, 2];
    assert_eq!(render(&elems, &dims), "[[[1, 2], [3, 4]], [[5, 6], [7, 8]]]");
}
