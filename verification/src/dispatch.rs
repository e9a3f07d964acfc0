//! Selecting the kernel variant for an operation and preparing its launch:
//! the kernel's name, the grid geometry, and the stride tables both
//! operands are read through.

use vstd::arithmetic::div_mod::{lemma_div_decreases, lemma_fundamental_div_mod};
use vstd::prelude::*;
use vstd::string::StringExecFns;

use crate::broadcast::{
    is_operand_strides, operand_strides, spec_broadcast, spec_compatible, TensorError,
};
use crate::shape::{dim_sizes, is_natural_strides, shape_wf, Dimension, DynShape, Shape};

verus! {

/// One of the elementwise operations the kernel binary implements.
#[derive(Clone, Copy, PartialEq, Eq, Structural, Debug)]
pub enum BinaryOp {
    Add,
    Sub,
    Mul,
    Div,
    Equal,
    And,
    Or,
}

/// An element type the kernel binary has variants for.
#[derive(Clone, Copy, PartialEq, Eq, Structural, Debug)]
pub enum ElemType {
    F32,
    F64,
    Bool,
}

/// The closed set of kernels: floating point gets arithmetic and equality,
/// booleans get equality and the two connectives.
pub open spec fn spec_op_supported(op: BinaryOp, t: ElemType) -> bool {
    match t {
        ElemType::F32 | ElemType::F64 => op is Add || op is Sub || op is Mul || op is Div
            || op is Equal,
        ElemType::Bool => op is Equal || op is And || op is Or,
    }
}

/// Whether the kernel binary has a variant for `op` on elements of `t`.
pub fn op_supported(op: BinaryOp, t: ElemType) -> (r: bool)
    ensures
        r == spec_op_supported(op, t),
{
    match t {
        ElemType::F32 | ElemType::F64 => match op {
            BinaryOp::Add | BinaryOp::Sub | BinaryOp::Mul | BinaryOp::Div | BinaryOp::Equal => true,
            _ => false,
        },
        ElemType::Bool => match op {
            BinaryOp::Equal | BinaryOp::And | BinaryOp::Or => true,
            _ => false,
        },
    }
}

/// The element type `op` produces from operands of type `t`.
pub open spec fn spec_result_type(op: BinaryOp, t: ElemType) -> ElemType {
    if op is Equal {
        ElemType::Bool
    } else {
        t
    }
}

/// The element type an operation produces: comparison yields booleans,
/// everything else keeps the operand type.
pub fn result_type(op: BinaryOp, t: ElemType) -> (r: ElemType)
    ensures
        r == spec_result_type(op, t),
{
    match op {
        BinaryOp::Equal => ElemType::Bool,
        _ => t,
    }
}

/// The rank a tensor pair is dispatched at: a scalar result is promoted to
/// one degenerate axis, since the kernel binary starts at rank 1.
pub fn launch_rank(rank: usize) -> (r: usize)
    ensures
        r == if rank == 0 {
            1usize
        } else {
            rank
        },
{
    if rank == 0 {
        1
    } else {
        rank
    }
}

/// The mnemonic of an operation inside a kernel name.
pub open spec fn op_token(op: BinaryOp) -> Seq<char> {
    match op {
        BinaryOp::Add => "add"@,
        BinaryOp::Sub => "sub"@,
        BinaryOp::Mul => "mul"@,
        BinaryOp::Div => "div"@,
        BinaryOp::Equal => "eq"@,
        BinaryOp::And => "and"@,
        BinaryOp::Or => "or"@,
    }
}

/// The mnemonic of an element type inside a kernel name.
pub open spec fn dtype_token(t: ElemType) -> Seq<char> {
    match t {
        ElemType::F32 => "f32"@,
        ElemType::F64 => "f64"@,
        ElemType::Bool => "bool"@,
    }
}

/// The digit of a rank from 1 to 6 inside a kernel name.
pub open spec fn rank_token(rank: int) -> Seq<char> {
    if rank == 1 {
        "1"@
    } else if rank == 2 {
        "2"@
    } else if rank == 3 {
        "3"@
    } else if rank == 4 {
        "4"@
    } else if rank == 5 {
        "5"@
    } else if rank == 6 {
        "6"@
    } else {
        Seq::<char>::empty()
    }
}

/// The name a kernel variant is addressed by in the loaded module.
pub open spec fn spec_kernel_name(op: BinaryOp, t: ElemType, rank: int) -> Seq<char> {
    op_token(op) + "_"@ + dtype_token(t) + "_"@ + rank_token(rank) + "d"@
}

/// Builds the name of the kernel variant for `op` on elements of `t` at
/// output rank `rank`.
pub fn kernel_name(op: BinaryOp, t: ElemType, rank: usize) -> (r: String)
    requires
        spec_op_supported(op, t),
        1 <= rank <= 6,
    ensures
        r@ == spec_kernel_name(op, t, rank as int),
{
    let mut s = String::new();
    s.append(
        match op {
            BinaryOp::Add => "add",
            BinaryOp::Sub => "sub",
            BinaryOp::Mul => "mul",
            BinaryOp::Div => "div",
            BinaryOp::Equal => "eq",
            BinaryOp::And => "and",
            BinaryOp::Or => "or",
        },
    );
    s.append("_");
    s.append(
        match t {
            ElemType::F32 => "f32",
            ElemType::F64 => "f64",
            ElemType::Bool => "bool",
        },
    );
    s.append("_");
    s.append(
        if rank == 1 {
            "1"
        } else if rank == 2 {
            "2"
        } else if rank == 3 {
            "3"
        } else if rank == 4 {
            "4"
        } else if rank == 5 {
            "5"
        } else {
            "6"
        },
    );
    s.append("d");
    assert(s@ =~= spec_kernel_name(op, t, rank as int));
    s
}

/// The quotient of `size` by `block`, rounded up.
pub open spec fn ceil_div(size: nat, block: nat) -> nat {
    if size % block == 0 {
        size / block
    } else {
        size / block + 1
    }
}

/// Rounding up covers everything and nothing more: `ceil_div(s, b)` blocks
/// of `b` threads reach every one of `s` outputs, and with one block fewer
/// some output would have no thread.
pub proof fn lemma_grid_covers(size: nat, block: nat)
    requires
        block >= 1,
    ensures
        ceil_div(size, block) * block >= size,
        size > 0 ==> (ceil_div(size, block) - 1) * block < size,
{
    lemma_fundamental_div_mod(size as int, block as int);
    let q = size / block;
    let r = size % block;
    assert(size == block * q + r);
    assert(q * block == block * q) by (nonlinear_arith) {}
    if r == 0 {
        if size > 0 {
            assert(q >= 1) by (nonlinear_arith)
                requires
                    size == block * q,
                    size > 0,
                    q >= 0,
            {}
            assert((q - 1) * block == q * block - block) by (nonlinear_arith) {}
        }
    } else {
        assert((q + 1) * block == q * block + block) by (nonlinear_arith) {}
    }
}

/// Number of thread blocks that covers `size` outputs with `block` threads
/// each: the quotient rounded up.
pub fn grid_size(size: usize, block: usize) -> (r: usize)
    requires
        block >= 1,
    ensures
        r == ceil_div(size as nat, block as nat),
{
    let q = size / block;
    let rem = size % block;
    if rem == 0 {
        q
    } else {
        proof {
            vstd::arithmetic::div_mod::lemma_mod_division_less_than_divisor(
                size as int,
                block as int,
            );
            if size == 0 {
                vstd::arithmetic::div_mod::lemma_small_mod(0, block as nat);
                assert(false);
            }
            lemma_div_decreases(size as int, block as int);
        }
        q + 1
    }
}

/// Everything a launch needs for one elementwise operation: the resolved
/// output shape with its row-major strides, and the broadcast-aware stride
/// table each operand is read through.
pub struct BroadcastPlan {
    pub out_shape: DynShape,
    pub out_strides: Vec<usize>,
    pub a_strides: Vec<usize>,
    pub b_strides: Vec<usize>,
}

impl BroadcastPlan {
    /// This plan is the one for operand shapes `a` and `b`.
    pub open spec fn wf_for(&self, a: Seq<Dimension>, b: Seq<Dimension>) -> bool {
        &&& spec_compatible(a, b)
        &&& self.out_shape@ == spec_broadcast(a, b)
        &&& self.out_shape.wf()
        &&& is_natural_strides(self.out_strides@, dim_sizes(self.out_shape@))
        &&& is_operand_strides(self.a_strides@, dim_sizes(a), dim_sizes(self.out_shape@))
        &&& is_operand_strides(self.b_strides@, dim_sizes(b), dim_sizes(self.out_shape@))
    }
}

/// Resolves the broadcast of two operand shapes and derives all three
/// stride tables, refusing exactly the incompatible pairs, before anything
/// is allocated or launched.
pub fn make_plan(a: &DynShape, b: &DynShape) -> (r: Result<BroadcastPlan, TensorError>)
    requires
        a.wf(),
        b.wf(),
        spec_compatible(a@, b@) ==> shape_wf(spec_broadcast(a@, b@)),
    ensures
        r is Ok <==> spec_compatible(a@, b@),
        r matches Ok(p) ==> p.wf_for(a@, b@),
        r matches Err(e) ==> e == TensorError::ShapeMismatch,
{
    match a.broadcast(b) {
        Err(e) => Err(e),
        Ok(out) => {
            let out_sizes = out.dimensions();
            let out_strides = out.strides();
            let a_strides = operand_strides(a, &out_sizes);
            let b_strides = operand_strides(b, &out_sizes);
            Ok(
                BroadcastPlan {
                    out_shape: out,
                    out_strides,
                    a_strides,
                    b_strides,
                },
            )
        }
    }
}

} // verus!
