//! Host-resident tensors and the elementwise evaluation of one output
//! element per position, exactly as a launched kernel grid computes it.

use vstd::prelude::*;

use crate::broadcast::{
    bcast_ok, lemma_broadcast_bcast_ok, sizes_positive, spec_broadcast, spec_compatible,
    TensorError,
};
use crate::dispatch::{make_plan, spec_op_supported, BinaryOp, ElemType};
use crate::kernel::{decomp, lemma_decomp_src, src_index};
use crate::shape::{dim_sizes, prod, shape_wf, stride_at, Dimension, DynShape, Shape};

verus! {

/// The element of `data` that broadcasting replicates to output position
/// `i`, for an operand of extents `op` read into an output of extents
/// `out`.
pub open spec fn src_elem<T>(data: Seq<T>, op: Seq<usize>, out: Seq<usize>, i: int) -> T {
    data[src_index(i as nat, op, out) as int]
}

/// A tensor in host memory: a row-major buffer of one element per point
/// of its shape.
#[derive(Debug)]
pub struct CpuTensor<T> {
    data: Vec<T>,
    shape: DynShape,
}

impl<T> CpuTensor<T> {
    /// The buffer, in row-major order.
    pub closed spec fn spec_data(&self) -> Seq<T> {
        self.data@
    }

    /// The axes of the shape.
    pub closed spec fn spec_shape(&self) -> Seq<Dimension> {
        self.shape@
    }

    /// The buffer holds exactly one element per point of a well formed
    /// shape.
    pub open spec fn wf(&self) -> bool {
        &&& shape_wf(self.spec_shape())
        &&& self.spec_data().len() == prod(dim_sizes(self.spec_shape()))
    }

    /// Wraps an existing row-major buffer, refusing one whose length does
    /// not match the shape's element count.
    pub fn new(data: Vec<T>, shape: DynShape) -> (r: Option<Self>)
        requires
            shape.wf(),
        ensures
            r is Some <==> data@.len() == prod(dim_sizes(shape@)),
            r matches Some(t) ==> t.wf() && t.spec_data() == data@ && t.spec_shape() == shape@,
    {
        if data.len() == shape.size() {
            Some(CpuTensor { data, shape })
        } else {
            None
        }
    }

    /// The buffer as a slice, row-major.
    pub fn as_slice(&self) -> (r: &[T])
        ensures
            r@ == self.spec_data(),
    {
        self.data.as_slice()
    }

    /// The tensor's shape.
    pub fn shape(&self) -> (r: &DynShape)
        ensures
            r@ == self.spec_shape(),
    {
        &self.shape
    }
}

impl<T: Copy> CpuTensor<T> {
    /// A tensor of the given shape with every element equal to `value`.
    pub fn of(shape: DynShape, value: T) -> (r: Self)
        requires
            shape.wf(),
        ensures
            r.wf(),
            r.spec_shape() == shape@,
            r.spec_data().len() == prod(dim_sizes(shape@)),
            forall|i: int| 0 <= i < r.spec_data().len() ==> r.spec_data()[i] == value,
    {
        let size = shape.size();
        let mut data: Vec<T> = Vec::with_capacity(size);
        let mut i: usize = 0;
        while i < size
            invariant
                i <= size,
                data@.len() == i,
                forall|j: int| 0 <= j < i ==> data@[j] == value,
            decreases size - i,
        {
            data.push(value);
            i = i + 1;
        }
        CpuTensor { data, shape }
    }
}

impl<L: Copy> CpuTensor<L> {
    /// Combines two tensors elementwise under right-aligned broadcasting:
    /// output position `i` holds `op` applied to the element each operand
    /// replicates to `i`.  Exactly the incompatible shape pairs are
    /// refused, before any output is allocated.
    pub fn elementwise<R: Copy, O, F: Fn(L, R) -> O>(
        &self,
        rhs: &CpuTensor<R>,
        op: &F,
    ) -> (r: Result<CpuTensor<O>, TensorError>)
        requires
            self.wf(),
            rhs.wf(),
            forall|x: L, y: R| op.requires((x, y)),
            spec_compatible(self.spec_shape(), rhs.spec_shape()) ==> shape_wf(
                spec_broadcast(self.spec_shape(), rhs.spec_shape()),
            ),
            spec_compatible(self.spec_shape(), rhs.spec_shape()) ==> bcast_ok(
                dim_sizes(self.spec_shape()),
                dim_sizes(spec_broadcast(self.spec_shape(), rhs.spec_shape())),
            ) && bcast_ok(
                dim_sizes(rhs.spec_shape()),
                dim_sizes(spec_broadcast(self.spec_shape(), rhs.spec_shape())),
            ),
        ensures
            r is Ok <==> spec_compatible(self.spec_shape(), rhs.spec_shape()),
            r matches Ok(t) ==> {
                &&& t.wf()
                &&& t.spec_shape() == spec_broadcast(self.spec_shape(), rhs.spec_shape())
                &&& forall|i: int|
                    0 <= i < t.spec_data().len() ==> op.ensures(
                        (
                            src_elem(
                                self.spec_data(),
                                dim_sizes(self.spec_shape()),
                                dim_sizes(t.spec_shape()),
                                i,
                            ),
                            src_elem(
                                rhs.spec_data(),
                                dim_sizes(rhs.spec_shape()),
                                dim_sizes(t.spec_shape()),
                                i,
                            ),
                        ),
                        t.spec_data()[i],
                    )
            },
            r matches Err(e) ==> e == TensorError::ShapeMismatch,
    {
        let ghost a_dims = dim_sizes(self.spec_shape());
        let ghost b_dims = dim_sizes(rhs.spec_shape());
        match make_plan(&self.shape, &rhs.shape) {
            Err(e) => Err(e),
            Ok(plan) => {
                let ghost out_dims = dim_sizes(plan.out_shape@);
                let size = plan.out_shape.size();
                let a_len = self.data.len();
                let b_len = rhs.data.len();
                proof {
                    if size > 0 {
                        assert(out_dims.skip(0) =~= out_dims);
                        crate::shape::lemma_prod_pos(out_dims, 0);
                        assert forall|i: int| 0 <= i < out_dims.len() implies #[trigger] plan
                            .out_strides@[i] >= 1 by {
                            assert(plan.out_strides@[i] == stride_at(out_dims, i));
                            assert(prod(out_dims.skip(i + 1)) >= 1);
                        }
                    }
                }
                let mut data: Vec<O> = Vec::with_capacity(size);
                let mut idx: usize = 0;
                while idx < size
                    invariant
                        self.wf(),
                        rhs.wf(),
                        forall|x: L, y: R| op.requires((x, y)),
                        a_dims == dim_sizes(self.spec_shape()),
                        b_dims == dim_sizes(rhs.spec_shape()),
                        out_dims == dim_sizes(plan.out_shape@),
                        plan.wf_for(self.spec_shape(), rhs.spec_shape()),
                        bcast_ok(a_dims, out_dims),
                        bcast_ok(b_dims, out_dims),
                        size == prod(out_dims),
                        a_len == self.spec_data().len(),
                        b_len == rhs.spec_data().len(),
                        a_len == prod(a_dims),
                        b_len == prod(b_dims),
                        size > 0 ==> forall|i: int|
                            0 <= i < out_dims.len() ==> #[trigger] plan.out_strides@[i] >= 1,
                        idx <= size,
                        data@.len() == idx,
                        forall|i: int|
                            0 <= i < idx ==> op.ensures(
                                (
                                    src_elem(self.spec_data(), a_dims, out_dims, i),
                                    src_elem(rhs.spec_data(), b_dims, out_dims, i),
                                ),
                                #[trigger] data@[i],
                            ),
                    decreases size - idx,
                {
                    proof {
                        lemma_decomp_src(
                            idx as nat,
                            a_dims,
                            out_dims,
                            plan.out_strides@,
                            plan.a_strides@,
                        );
                        lemma_decomp_src(
                            idx as nat,
                            b_dims,
                            out_dims,
                            plan.out_strides@,
                            plan.b_strides@,
                        );
                    }
                    let ai = decomp(idx, plan.out_strides.as_slice(), plan.a_strides.as_slice());
                    let bi = decomp(idx, plan.out_strides.as_slice(), plan.b_strides.as_slice());
                    let v = op(self.data[ai], rhs.data[bi]);
                    data.push(v);
                    idx = idx + 1;
                }
                Ok(CpuTensor { data, shape: plan.out_shape })
            }
        }
    }
}

/// The value a boolean kernel computes from one pair of elements.
pub open spec fn spec_bool_eval(op: BinaryOp, x: bool, y: bool) -> bool {
    match op {
        BinaryOp::Equal => x == y,
        BinaryOp::And => x && y,
        BinaryOp::Or => x || y,
        _ => false,
    }
}

/// One step of a boolean kernel: equality, conjunction, or disjunction.
pub fn bool_eval(op: BinaryOp, x: bool, y: bool) -> (r: bool)
    requires
        spec_op_supported(op, ElemType::Bool),
    ensures
        r == spec_bool_eval(op, x, y),
{
    match op {
        BinaryOp::Equal => x == y,
        BinaryOp::And => x && y,
        _ => x || y,
    }
}

/// `t` is the boolean elementwise result of `op` over `a` and `b`: it has
/// the broadcast shape, and each of its elements combines the two operand
/// elements replicated to that position.
pub open spec fn is_bool_elementwise_result(
    a: &CpuTensor<bool>,
    b: &CpuTensor<bool>,
    op: BinaryOp,
    t: &CpuTensor<bool>,
) -> bool {
    &&& t.spec_shape() == spec_broadcast(a.spec_shape(), b.spec_shape())
    &&& t.spec_data().len() == prod(dim_sizes(t.spec_shape()))
    &&& forall|i: int|
        0 <= i < t.spec_data().len() ==> #[trigger] t.spec_data()[i] == spec_bool_eval(
            op,
            src_elem(a.spec_data(), dim_sizes(a.spec_shape()), dim_sizes(t.spec_shape()), i),
            src_elem(b.spec_data(), dim_sizes(b.spec_shape()), dim_sizes(t.spec_shape()), i),
        )
}

impl CpuTensor<bool> {
    /// Combines two boolean tensors elementwise with `op` under
    /// broadcasting; the result is a function of the operands alone.
    pub fn bool_elementwise(&self, rhs: &CpuTensor<bool>, op: BinaryOp) -> (r: Result<
        CpuTensor<bool>,
        TensorError,
    >)
        requires
            self.wf(),
            rhs.wf(),
            spec_op_supported(op, ElemType::Bool),
            spec_compatible(self.spec_shape(), rhs.spec_shape()) ==> shape_wf(
                spec_broadcast(self.spec_shape(), rhs.spec_shape()),
            ),
            sizes_positive(self.spec_shape()),
            sizes_positive(rhs.spec_shape()),
        ensures
            r is Ok <==> spec_compatible(self.spec_shape(), rhs.spec_shape()),
            r matches Ok(t) ==> t.wf() && is_bool_elementwise_result(self, rhs, op, &t),
            r matches Err(e) ==> e == TensorError::ShapeMismatch,
    {
        proof {
            if spec_compatible(self.spec_shape(), rhs.spec_shape()) {
                lemma_broadcast_bcast_ok(self.spec_shape(), rhs.spec_shape());
            }
        }
        let r = self.elementwise(
            rhs,
            &(|x: bool, y: bool| -> (v: bool)
                ensures
                    v == spec_bool_eval(op, x, y),
                { bool_eval(op, x, y) }),
        );
        match r {
            Ok(t) => Ok(t),
            Err(e) => Err(e),
        }
    }
}

/// Running the same boolean operation on the same tensors twice yields
/// bit-identical buffers: the result is pinned by the operands, so
/// repeating a launch without mutating its inputs cannot change anything.
pub proof fn lemma_bool_elementwise_deterministic(
    a: &CpuTensor<bool>,
    b: &CpuTensor<bool>,
    op: BinaryOp,
    r1: &CpuTensor<bool>,
    r2: &CpuTensor<bool>,
)
    requires
        is_bool_elementwise_result(a, b, op, r1),
        is_bool_elementwise_result(a, b, op, r2),
    ensures
        r1.spec_shape() == r2.spec_shape(),
        r1.spec_data() == r2.spec_data(),
{
    assert(r1.spec_data() =~= r2.spec_data());
}

} // verus!
