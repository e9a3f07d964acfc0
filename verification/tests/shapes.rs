use cutensor::broadcast::TensorError;
use cutensor::shape::{Cst, Dim, Dimension, Dyn, DynShape, MinSizeShape, Shape};

fn shape_of(dims: Vec<Dimension>) -> DynShape {
    DynShape::new(dims).unwrap()
}

#[test]
fn dimension_sizes() {
    assert_eq!(Dyn::new(5).size(), 5);
    assert_eq!(Cst::<4>::new().size(), 4);
    assert_eq!(Dimension::Static(7).size(), 7);
    assert_eq!(Dimension::Dynamic(0).size(), 0);
}

#[test]
fn shape_layout_row_major() {
    let s = shape_of(vec![
        Dimension::Static(2),
        Dimension::Static(3),
        Dimension::Dynamic(4),
    ]);
    assert_eq!(s.rank(), 3);
    assert_eq!(s.size(), 24);
    assert_eq!(s.dimensions(), vec![2, 3, 4]);
    assert_eq!(s.strides(), vec![12, 4, 1]);
}

#[test]
fn scalar_shape_layout() {
    let s = shape_of(vec![]);
    assert_eq!(s.rank(), 0);
    assert_eq!(s.size(), 1);
    assert_eq!(s.dimensions(), Vec::<usize>::new());
    assert_eq!(s.strides(), Vec::<usize>::new());
}

#[test]
fn shape_new_refuses_rank_above_six() {
    let dims = vec![Dimension::Static(1); 7];
    assert!(DynShape::new(dims).is_none());
    let dims = vec![Dimension::Static(1); 6];
    assert!(DynShape::new(dims).is_some());
}

#[test]
fn shape_new_refuses_overflowing_layout() {
    let dims = vec![Dimension::Dynamic(usize::MAX), Dimension::Static(2)];
    assert!(DynShape::new(dims).is_none());
}

#[test]
fn broadcast_commutative() {
    let a = shape_of(vec![Dimension::Static(3), Dimension::Static(1)]);
    let b = shape_of(vec![Dimension::Static(1), Dimension::Static(3)]);
    let ab = a.broadcast(&b).unwrap();
    let ba = b.broadcast(&a).unwrap();
    assert_eq!(ab.dimensions(), vec![3, 3]);
    assert_eq!(ba.dimensions(), vec![3, 3]);
}

#[test]
fn broadcast_scalar_identity() {
    let a = shape_of(vec![Dimension::Static(2), Dimension::Dynamic(3)]);
    let scalar = shape_of(vec![]);
    let o = a.broadcast(&scalar).unwrap();
    assert_eq!(o.dimensions(), vec![2, 3]);
    let o = scalar.broadcast(&a).unwrap();
    assert_eq!(o.dimensions(), vec![2, 3]);
}

#[test]
fn broadcast_rank_gap() {
    let a = shape_of(vec![
        Dimension::Static(2),
        Dimension::Static(3),
        Dimension::Static(4),
    ]);
    let b = shape_of(vec![Dimension::Static(1), Dimension::Static(4)]);
    let o = a.broadcast(&b).unwrap();
    assert_eq!(o.dimensions(), vec![2, 3, 4]);
}

#[test]
fn broadcast_rejects_mismatch() {
    let a = shape_of(vec![Dimension::Static(3)]);
    let b = shape_of(vec![Dimension::Static(2)]);
    assert_eq!(a.broadcast(&b).unwrap_err(), TensorError::ShapeMismatch);
    let a = shape_of(vec![Dimension::Dynamic(5), Dimension::Static(2)]);
    let b = shape_of(vec![Dimension::Dynamic(4), Dimension::Static(2)]);
    assert_eq!(a.broadcast(&b).unwrap_err(), TensorError::ShapeMismatch);
}

#[test]
fn broadcast_keeps_static_tag_only_when_both_static() {
    let a = shape_of(vec![Dimension::Static(3), Dimension::Static(1)]);
    let b = shape_of(vec![Dimension::Static(3), Dimension::Dynamic(4)]);
    let o = a.broadcast(&b).unwrap();
    assert_eq!(o.axis(0), Dimension::Static(3));
    assert_eq!(o.axis(1), Dimension::Dynamic(4));
}

#[test]
fn min_size_bounds() {
    assert_eq!(Dyn::new(100).min_size(), 1);
    assert_eq!(Cst::<7>::new().min_size(), 7);
    let s = shape_of(vec![
        Dimension::Static(3),
        Dimension::Dynamic(5),
        Dimension::Static(2),
    ]);
    assert_eq!(s.min_size(), 6);
    assert!(s.min_size() <= s.size());
}
