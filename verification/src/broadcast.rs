//! Reconciling two shapes into one output shape by right-aligned
//! broadcasting, and the per-operand stride tables that let a kernel read
//! a stretched axis by standing still.

use vstd::prelude::*;

use crate::shape::{
    dim_sizes, dims_wf, is_natural_strides, shape_wf, stride_at, Dim, Dimension, DynShape, Shape,
};

verus! {

/// Why an operation between two tensors was refused.
#[derive(Clone, Copy, PartialEq, Eq, Structural, Debug)]
pub enum TensorError {
    /// Two aligned axes had different extents and neither was 1.
    ShapeMismatch,
}

/// Two aligned axis extents can be broadcast: they are equal, or one of
/// them is 1 and is stretched to the other.
pub open spec fn axis_compatible(a: usize, b: usize) -> bool {
    a == b || a == 1 || b == 1
}

/// The axis two aligned axes combine into: the larger extent, statically
/// known only when both sides were.
pub open spec fn combine_axis(a: Dimension, b: Dimension) -> Dimension {
    let n = if a.spec_size() >= b.spec_size() {
        a.spec_size()
    } else {
        b.spec_size()
    };
    if a.is_static() && b.is_static() {
        Dimension::Static(n)
    } else {
        Dimension::Dynamic(n)
    }
}

/// Axis `i` of `dims` when right-aligned into a shape of rank `lo`; the
/// missing leading axes count as extent 1.
pub open spec fn padded_size(dims: Seq<Dimension>, lo: int, i: int) -> usize {
    if i < lo - dims.len() {
        1
    } else {
        dims[i - (lo - dims.len())].spec_size()
    }
}

/// The rank of the shape a pair broadcasts into: the larger of the two.
pub open spec fn out_rank(a: Seq<Dimension>, b: Seq<Dimension>) -> int {
    if a.len() >= b.len() {
        a.len() as int
    } else {
        b.len() as int
    }
}

/// The two shapes can be broadcast together: every pair of right-aligned
/// axes is compatible.
pub open spec fn spec_compatible(a: Seq<Dimension>, b: Seq<Dimension>) -> bool {
    forall|i: int|
        0 <= i < out_rank(a, b) ==> axis_compatible(
            #[trigger] padded_size(a, out_rank(a, b), i),
            padded_size(b, out_rank(a, b), i),
        )
}

/// The axis a broadcast output has at position `i`: an axis only one side
/// has passes through unchanged, and aligned axes combine.
pub open spec fn broadcast_axis_at(a: Seq<Dimension>, b: Seq<Dimension>, i: int) -> Dimension {
    let lo = out_rank(a, b);
    if i < lo - a.len() {
        b[i - (lo - b.len())]
    } else if i < lo - b.len() {
        a[i - (lo - a.len())]
    } else {
        combine_axis(a[i - (lo - a.len())], b[i - (lo - b.len())])
    }
}

/// The shape two compatible shapes broadcast into.
pub open spec fn spec_broadcast(a: Seq<Dimension>, b: Seq<Dimension>) -> Seq<Dimension> {
    Seq::new(out_rank(a, b) as nat, |i: int| broadcast_axis_at(a, b, i))
}

/// Broadcasting accepts the same pairs and yields the same shape in either
/// order.
pub proof fn lemma_broadcast_commutative(a: Seq<Dimension>, b: Seq<Dimension>)
    ensures
        spec_compatible(a, b) == spec_compatible(b, a),
        spec_broadcast(a, b) == spec_broadcast(b, a),
{
    assert(out_rank(a, b) == out_rank(b, a));
    if spec_compatible(a, b) {
        assert forall|i: int| 0 <= i < out_rank(b, a) implies axis_compatible(
            #[trigger] padded_size(b, out_rank(b, a), i),
            padded_size(a, out_rank(b, a), i),
        ) by {
            assert(axis_compatible(padded_size(a, out_rank(a, b), i), padded_size(b, out_rank(a, b), i)));
        }
    }
    if spec_compatible(b, a) {
        assert forall|i: int| 0 <= i < out_rank(a, b) implies axis_compatible(
            #[trigger] padded_size(a, out_rank(a, b), i),
            padded_size(b, out_rank(a, b), i),
        ) by {
            assert(axis_compatible(padded_size(b, out_rank(b, a), i), padded_size(a, out_rank(b, a), i)));
        }
    }
    assert(spec_broadcast(a, b) =~= spec_broadcast(b, a));
}

/// A scalar broadcasts against anything: combining any shape with the
/// empty shape yields that shape unchanged, in either order.
pub proof fn lemma_broadcast_scalar(a: Seq<Dimension>)
    ensures
        spec_compatible(a, Seq::<Dimension>::empty()),
        spec_broadcast(a, Seq::<Dimension>::empty()) == a,
        spec_compatible(Seq::<Dimension>::empty(), a),
        spec_broadcast(Seq::<Dimension>::empty(), a) == a,
{
    assert(spec_broadcast(a, Seq::<Dimension>::empty()) =~= a);
    lemma_broadcast_commutative(a, Seq::<Dimension>::empty());
}

impl DynShape {
    /// Resolves the broadcast of two shapes, refusing pairs with an aligned
    /// axis pair of different extents where neither is 1.  Nothing else is
    /// refused: the result is `Ok` exactly on compatible pairs.
    pub fn broadcast(&self, rhs: &DynShape) -> (r: Result<DynShape, TensorError>)
        requires
            self.wf(),
            rhs.wf(),
            spec_compatible(self@, rhs@) ==> shape_wf(spec_broadcast(self@, rhs@)),
        ensures
            r is Ok <==> spec_compatible(self@, rhs@),
            r matches Ok(o) ==> o@ == spec_broadcast(self@, rhs@) && o.wf(),
            r matches Err(e) ==> e == TensorError::ShapeMismatch,
    {
        let la = self.rank();
        let lb = rhs.rank();
        let lo = if la >= lb { la } else { lb };
        let ga = lo - la;
        let gb = lo - lb;
        let mut out: Vec<Dimension> = Vec::new();
        let mut i: usize = 0;
        while i < lo
            invariant
                la == self@.len(),
                lb == rhs@.len(),
                lo == if la >= lb { la as int } else { lb as int },
                ga == lo - la,
                gb == lo - lb,
                i <= lo,
                out@.len() == i,
                forall|j: int| 0 <= j < i ==> out@[j] == spec_broadcast(self@, rhs@)[j],
                forall|j: int|
                    0 <= j < i ==> axis_compatible(
                        #[trigger] padded_size(self@, lo as int, j),
                        padded_size(rhs@, lo as int, j),
                    ),
            decreases lo - i,
        {
            let d: Dimension;
            if i < ga {
                d = rhs.axis(i - gb);
            } else if i < gb {
                d = self.axis(i - ga);
            } else {
                let da = self.axis(i - ga);
                let db = rhs.axis(i - gb);
                let sa = da.size();
                let sb = db.size();
                if sa == sb || sa == 1 || sb == 1 {
                    let n = if sa >= sb { sa } else { sb };
                    let both_static = match (da, db) {
                        (Dimension::Static(_), Dimension::Static(_)) => true,
                        _ => false,
                    };
                    d = if both_static {
                        Dimension::Static(n)
                    } else {
                        Dimension::Dynamic(n)
                    };
                } else {
                    proof {
                        assert(lo as int == out_rank(self@, rhs@));
                        assert(padded_size(self@, out_rank(self@, rhs@), i as int) == sa);
                        assert(padded_size(rhs@, out_rank(self@, rhs@), i as int) == sb);
                        assert(!axis_compatible(
                            padded_size(self@, out_rank(self@, rhs@), i as int),
                            padded_size(rhs@, out_rank(self@, rhs@), i as int),
                        ));
                    }
                    return Err(TensorError::ShapeMismatch);
                }
            }
            out.push(d);
            i = i + 1;
        }
        assert(out@ =~= spec_broadcast(self@, rhs@));
        match DynShape::new(out) {
            Some(s) => Ok(s),
            None => {
                proof {
                    assert(false);
                }
                Err(TensorError::ShapeMismatch)
            }
        }
    }
}

/// Combining two shaped values by broadcasting.  Each implementation says
/// through [`BroadcastShape::broadcast_ensures`] exactly what its
/// `broadcast` returns.
pub trait BroadcastShape<Rhs>: Sized {
    type Output;

    /// When the combination may be asked for.
    spec fn broadcast_requires(self, rhs: Rhs) -> bool;

    /// What holds of the result of [`BroadcastShape::broadcast`].
    spec fn broadcast_ensures(self, rhs: Rhs, r: Self::Output) -> bool;

    fn broadcast(self, rhs: Rhs) -> (r: Self::Output)
        requires
            self.broadcast_requires(rhs),
        ensures
            self.broadcast_ensures(rhs, r),
    ;
}

impl BroadcastShape<Dimension> for Dimension {
    type Output = Option<Dimension>;

    open spec fn broadcast_requires(self, rhs: Dimension) -> bool {
        true
    }

    open spec fn broadcast_ensures(self, rhs: Dimension, r: Option<Dimension>) -> bool {
        if axis_compatible(self.spec_size(), rhs.spec_size()) {
            r == Some(combine_axis(self, rhs))
        } else {
            r is None
        }
    }

    fn broadcast(self, rhs: Dimension) -> (r: Option<Dimension>) {
        let sa = self.size();
        let sb = rhs.size();
        if sa == sb || sa == 1 || sb == 1 {
            let n = if sa >= sb { sa } else { sb };
            let both_static = match (self, rhs) {
                (Dimension::Static(_), Dimension::Static(_)) => true,
                _ => false,
            };
            if both_static {
                Some(Dimension::Static(n))
            } else {
                Some(Dimension::Dynamic(n))
            }
        } else {
            None
        }
    }
}

impl<'a> BroadcastShape<&'a DynShape> for &'a DynShape {
    type Output = Result<DynShape, TensorError>;

    open spec fn broadcast_requires(self, rhs: &'a DynShape) -> bool {
        &&& self.wf()
        &&& rhs.wf()
        &&& spec_compatible(self@, rhs@) ==> shape_wf(spec_broadcast(self@, rhs@))
    }

    open spec fn broadcast_ensures(self, rhs: &'a DynShape, r: Result<DynShape, TensorError>) -> bool {
        match r {
            Ok(o) => spec_compatible(self@, rhs@) && o@ == spec_broadcast(self@, rhs@) && o.wf(),
            Err(e) => !spec_compatible(self@, rhs@) && e == TensorError::ShapeMismatch,
        }
    }

    fn broadcast(self, rhs: &'a DynShape) -> (r: Result<DynShape, TensorError>) {
        DynShape::broadcast(self, rhs)
    }
}

/// `op` reads into `out` by broadcasting: axes are aligned at the right,
/// and every operand axis either matches its output axis or has extent 1.
pub open spec fn bcast_ok(op: Seq<usize>, out: Seq<usize>) -> bool {
    &&& op.len() <= out.len()
    &&& forall|j: int|
        0 <= j < op.len() ==> (#[trigger] op[j]) == out[j + out.len() - op.len()] || op[j] == 1
}

/// Every axis has at least one element.
pub open spec fn sizes_positive(dims: Seq<Dimension>) -> bool {
    forall|i: int| 0 <= i < dims.len() ==> (#[trigger] dims[i]).spec_size() >= 1
}

/// A compatible pair's operands both read into the broadcast shape.  An
/// empty axis is excluded: stretching extent 0 to the extent-1 peer that
/// the combination rule keeps would have to read an element that does not
/// exist.
pub proof fn lemma_broadcast_bcast_ok(a: Seq<Dimension>, b: Seq<Dimension>)
    requires
        spec_compatible(a, b),
        sizes_positive(a),
        sizes_positive(b),
    ensures
        bcast_ok(dim_sizes(a), dim_sizes(spec_broadcast(a, b))),
        bcast_ok(dim_sizes(b), dim_sizes(spec_broadcast(a, b))),
{
    let o = spec_broadcast(a, b);
    assert forall|j: int| 0 <= j < a.len() implies (#[trigger] dim_sizes(a)[j])
        == dim_sizes(o)[j + o.len() - a.len()] || dim_sizes(a)[j] == 1 by {
        let i = j + out_rank(a, b) - a.len();
        assert(axis_compatible(padded_size(a, out_rank(a, b), i), padded_size(b, out_rank(a, b), i)));
        assert(padded_size(a, out_rank(a, b), i) == a[j].spec_size());
        assert(o[i] == broadcast_axis_at(a, b, i));
    }
    assert forall|j: int| 0 <= j < b.len() implies (#[trigger] dim_sizes(b)[j])
        == dim_sizes(o)[j + o.len() - b.len()] || dim_sizes(b)[j] == 1 by {
        let i = j + out_rank(a, b) - b.len();
        assert(axis_compatible(padded_size(a, out_rank(a, b), i), padded_size(b, out_rank(a, b), i)));
        assert(padded_size(b, out_rank(a, b), i) == b[j].spec_size());
        assert(o[i] == broadcast_axis_at(a, b, i));
    }
}

/// The stride with which one operand's buffer is read along output axis
/// `i`: 0 for an axis the operand lacks or has stretched from extent 1,
/// else the operand's own row-major stride for that axis.
pub open spec fn operand_stride_at(op: Seq<usize>, out: Seq<usize>, i: int) -> nat {
    let g = out.len() - op.len();
    if i < g {
        0
    } else if op[i - g] == 1 && out[i] > 1 {
        0
    } else {
        stride_at(op, i - g)
    }
}

/// `ss` is the broadcast-aware stride table of operand `op` under output
/// shape `out`.
pub open spec fn is_operand_strides(ss: Seq<usize>, op: Seq<usize>, out: Seq<usize>) -> bool {
    &&& op.len() <= out.len()
    &&& ss.len() == out.len()
    &&& forall|i: int| 0 <= i < out.len() ==> #[trigger] ss[i] == operand_stride_at(op, out, i)
}

/// Builds the broadcast-aware stride table of one operand: one stride per
/// output axis, 0 where the operand's element must be re-read.
pub fn operand_strides(op: &DynShape, out_sizes: &Vec<usize>) -> (r: Vec<usize>)
    requires
        dims_wf(dim_sizes(op@)),
        op@.len() <= out_sizes@.len(),
    ensures
        is_operand_strides(r@, dim_sizes(op@), out_sizes@),
{
    let nat_strides = op.strides();
    let op_sizes = op.dimensions();
    let lo = out_sizes.len();
    let g = lo - op_sizes.len();
    let mut r: Vec<usize> = Vec::new();
    let mut i: usize = 0;
    while i < lo
        invariant
            lo == out_sizes@.len(),
            g == lo - dim_sizes(op@).len(),
            op_sizes@ == dim_sizes(op@),
            is_natural_strides(nat_strides@, dim_sizes(op@)),
            i <= lo,
            r@.len() == i,
            forall|j: int|
                0 <= j < i ==> #[trigger] r@[j] == operand_stride_at(dim_sizes(op@), out_sizes@, j),
        decreases lo - i,
    {
        if i < g {
            r.push(0);
        } else {
            let j = i - g;
            if op_sizes[j] == 1 && out_sizes[i] > 1 {
                r.push(0);
            } else {
                r.push(nat_strides[j]);
            }
        }
        i = i + 1;
    }
    r
}

} // verus!
