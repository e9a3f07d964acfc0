use cutensor::broadcast::{BroadcastShape, TensorError};
use cutensor::dispatch::BinaryOp;
use cutensor::shape::{Cst, Dim, Dimension, DynShape, Shape};
use cutensor::tensor::CpuTensor;

fn shape_of(dims: Vec<Dimension>) -> DynShape {
    DynShape::new(dims).unwrap()
}

#[test]
fn tensor_test_add() {
    let a = CpuTensor::of(
        shape_of(vec![Cst::<3>::new().dim(), Cst::<1>::new().dim()]),
        1.0f32,
    );
    let b = CpuTensor::of(
        shape_of(vec![Cst::<1>::new().dim(), Cst::<3>::new().dim()]),
        1.0f32,
    );
    let o = a.elementwise(&b, &|x: f32, y: f32| x + y).unwrap();
    assert_eq!(o.as_slice(), &[2.0, 2.0, 2.0, 2.0, 2.0, 2.0, 2.0, 2.0, 2.0]);
}

#[test]
fn test_mul() {
    let a = CpuTensor::of(
        shape_of(vec![Cst::<3>::new().dim(), Cst::<1>::new().dim()]),
        1.0f32,
    );
    let b = CpuTensor::of(
        shape_of(vec![Cst::<1>::new().dim(), Cst::<3>::new().dim()]),
        3.0f32,
    );
    let o = a.elementwise(&b, &|x: f32, y: f32| x * y).unwrap();
    assert_eq!(o.as_slice(), &[3.0, 3.0, 3.0, 3.0, 3.0, 3.0, 3.0, 3.0, 3.0]);
}

#[test]
fn test_div() {
    let a = CpuTensor::of(
        shape_of(vec![Cst::<3>::new().dim(), Cst::<1>::new().dim()]),
        4.0f32,
    );
    let b = CpuTensor::of(
        shape_of(vec![Cst::<1>::new().dim(), Cst::<3>::new().dim()]),
        2.0f32,
    );
    let o = a.elementwise(&b, &|x: f32, y: f32| x / y).unwrap();
    assert_eq!(o.as_slice(), &[2.0, 2.0, 2.0, 2.0, 2.0, 2.0, 2.0, 2.0, 2.0]);
}

#[test]
fn test_sub() {
    let a = CpuTensor::of(
        shape_of(vec![Cst::<3>::new().dim(), Cst::<1>::new().dim()]),
        1.0f32,
    );
    let b = CpuTensor::of(
        shape_of(vec![Cst::<1>::new().dim(), Cst::<3>::new().dim()]),
        3.0f32,
    );
    let o = a.elementwise(&b, &|x: f32, y: f32| x - y).unwrap();
    assert_eq!(
        o.as_slice(),
        &[-2.0, -2.0, -2.0, -2.0, -2.0, -2.0, -2.0, -2.0, -2.0]
    );
}

#[test]
fn stretched_axis_replicates_source() {
    let col = CpuTensor::new(
        vec![1.0f32, 2.0, 3.0],
        shape_of(vec![Dimension::Static(3), Dimension::Static(1)]),
    )
    .unwrap();
    let row = CpuTensor::new(
        vec![10.0f32, 20.0, 30.0],
        shape_of(vec![Dimension::Static(1), Dimension::Static(3)]),
    )
    .unwrap();
    let o = col.elementwise(&row, &|x: f32, y: f32| x + y).unwrap();
    assert_eq!(
        o.as_slice(),
        &[11.0, 21.0, 31.0, 12.0, 22.0, 32.0, 13.0, 23.0, 33.0]
    );
}

#[test]
fn scalar_broadcasts_against_everything() {
    let a = CpuTensor::new(
        vec![1.0f64, 2.0, 3.0, 4.0],
        shape_of(vec![Dimension::Static(2), Dimension::Static(2)]),
    )
    .unwrap();
    let s = CpuTensor::of(shape_of(vec![]), 10.0f64);
    let o = a.elementwise(&s, &|x: f64, y: f64| x + y).unwrap();
    assert_eq!(o.as_slice(), &[11.0, 12.0, 13.0, 14.0]);
    assert_eq!(o.shape().dimensions(), vec![2, 2]);
}

#[test]
fn mismatch_rejected_before_any_work() {
    let a = CpuTensor::of(shape_of(vec![Dimension::Static(3)]), 1.0f32);
    let b = CpuTensor::of(shape_of(vec![Dimension::Static(2)]), 1.0f32);
    assert_eq!(
        a.elementwise(&b, &|x: f32, y: f32| x + y).unwrap_err(),
        TensorError::ShapeMismatch
    );
}

#[test]
fn bool_and_kernel() {
    let shape = shape_of(vec![Dimension::Static(4)]);
    let a = CpuTensor::new(vec![true, false, true, false], shape).unwrap();
    let shape = shape_of(vec![Dimension::Static(4)]);
    let b = CpuTensor::new(vec![true, true, false, false], shape).unwrap();
    let o = a.bool_elementwise(&b, BinaryOp::And).unwrap();
    assert_eq!(o.as_slice(), &[true, false, false, false]);
}

#[test]
fn bool_or_kernel() {
    let shape = shape_of(vec![Dimension::Static(4)]);
    let a = CpuTensor::new(vec![true, false, true, false], shape).unwrap();
    let shape = shape_of(vec![Dimension::Static(4)]);
    let b = CpuTensor::new(vec![true, true, false, false], shape).unwrap();
    let o = a.bool_elementwise(&b, BinaryOp::Or).unwrap();
    assert_eq!(o.as_slice(), &[true, true, true, false]);
}

#[test]
fn bool_equality_kernel() {
    let shape = shape_of(vec![Dimension::Static(4)]);
    let a = CpuTensor::new(vec![true, false, true, false], shape).unwrap();
    let shape = shape_of(vec![Dimension::Static(4)]);
    let b = CpuTensor::new(vec![true, true, false, false], shape).unwrap();
    let o = a.bool_elementwise(&b, BinaryOp::Equal).unwrap();
    assert_eq!(o.as_slice(), &[true, false, false, true]);
}

#[test]
fn repeating_an_operation_reproduces_the_buffer() {
    let a = CpuTensor::new(
        vec![true, false, true, false],
        shape_of(vec![Dimension::Static(4)]),
    )
    .unwrap();
    let b = CpuTensor::new(
        vec![true, true, false, false],
        shape_of(vec![Dimension::Static(4)]),
    )
    .unwrap();
    let o1 = a.bool_elementwise(&b, BinaryOp::And).unwrap();
    let o2 = a.bool_elementwise(&b, BinaryOp::And).unwrap();
    assert_eq!(o1.as_slice(), o2.as_slice());
    assert_eq!(o1.shape().dimensions(), o2.shape().dimensions());
}

#[test]
fn axis_broadcast_combines_extents() {
    assert_eq!(
        Dimension::Static(3).broadcast(Dimension::Static(1)),
        Some(Dimension::Static(3))
    );
    assert_eq!(
        Dimension::Static(1).broadcast(Dimension::Dynamic(5)),
        Some(Dimension::Dynamic(5))
    );
    assert_eq!(Dimension::Static(3).broadcast(Dimension::Static(2)), None);
    assert_eq!(
        Dimension::Dynamic(4).broadcast(Dimension::Dynamic(4)),
        Some(Dimension::Dynamic(4))
    );
}

#[test]
fn empty_tensors_combine() {
    let a = CpuTensor::new(Vec::<f32>::new(), shape_of(vec![Dimension::Static(0)])).unwrap();
    let b = CpuTensor::new(Vec::<f32>::new(), shape_of(vec![Dimension::Static(0)])).unwrap();
    let o = a.elementwise(&b, &|x: f32, y: f32| x + y).unwrap();
    assert_eq!(o.as_slice().len(), 0);
    assert_eq!(o.shape().dimensions(), vec![0]);
}

#[test]
fn rank_six_broadcast() {
    let a = CpuTensor::new(
        vec![1.0f32, 2.0],
        shape_of(vec![
            Dimension::Static(1),
            Dimension::Static(1),
            Dimension::Static(1),
            Dimension::Static(1),
            Dimension::Static(1),
            Dimension::Static(2),
        ]),
    )
    .unwrap();
    let b = CpuTensor::new(
        vec![10.0f32, 20.0],
        shape_of(vec![
            Dimension::Static(2),
            Dimension::Static(1),
            Dimension::Static(1),
            Dimension::Static(1),
            Dimension::Static(1),
            Dimension::Static(1),
        ]),
    )
    .unwrap();
    let o = a.elementwise(&b, &|x: f32, y: f32| x + y).unwrap();
    assert_eq!(o.shape().dimensions(), vec![2, 1, 1, 1, 1, 2]);
    assert_eq!(o.as_slice(), &[11.0, 12.0, 21.0, 22.0]);
}

#[test]
fn tensor_new_checks_buffer_length() {
    let shape = shape_of(vec![Dimension::Static(2), Dimension::Static(2)]);
    assert!(CpuTensor::new(vec![0u8; 3], shape).is_none());
    let shape = shape_of(vec![Dimension::Static(2), Dimension::Static(2)]);
    assert!(CpuTensor::new(vec![0u8; 4], shape).is_some());
}
