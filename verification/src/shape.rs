//! Axes and shapes, with their dense row-major layout.

use vstd::prelude::*;

verus! {

/// One axis of a shape: an extent that was either fixed when the shape was
/// written down or supplied at run time.  Broadcasting treats both alike;
/// the tag records where the number came from.
#[derive(Clone, Copy, PartialEq, Eq, Structural, Debug)]
pub enum Dimension {
    /// An extent fixed when the shape was written down.
    Static(usize),
    /// An extent supplied at run time.
    Dynamic(usize),
}

impl Dimension {
    /// The extent of this axis.
    pub open spec fn spec_size(self) -> usize {
        match self {
            Dimension::Static(n) => n,
            Dimension::Dynamic(n) => n,
        }
    }

    /// Whether the extent was fixed when the shape was written down.
    pub open spec fn is_static(self) -> bool {
        self is Static
    }
}

/// A single axis extent, convertible into a plain [`Dimension`].
pub trait Dim: Sized {
    /// The axis this value stands for.
    spec fn spec_dim(&self) -> Dimension;

    /// The extent of the axis.
    fn size(&self) -> (r: usize)
        ensures
            r == self.spec_dim().spec_size(),
    ;

    /// The axis as a plain tagged value.
    fn dim(&self) -> (d: Dimension)
        ensures
            d == self.spec_dim(),
    ;
}

/// An axis whose extent is chosen at run time.
#[derive(Clone, Copy)]
pub struct Dyn {
    size: usize,
}

impl Dyn {
    pub fn new(size: usize) -> (r: Self)
        ensures
            r.spec_dim() == Dimension::Dynamic(size),
    {
        Dyn { size }
    }
}

impl Dim for Dyn {
    closed spec fn spec_dim(&self) -> Dimension {
        Dimension::Dynamic(self.size)
    }

    fn size(&self) -> (r: usize) {
        self.size
    }

    fn dim(&self) -> (d: Dimension) {
        Dimension::Dynamic(self.size)
    }
}

/// An axis whose extent is fixed in the type.
#[derive(Clone, Copy)]
pub struct Cst<const N: usize>;

impl<const N: usize> Cst<N> {
    pub fn new() -> (r: Self)
        ensures
            r.spec_dim() == Dimension::Static(N),
    {
        Cst
    }
}

impl<const N: usize> Dim for Cst<N> {
    open spec fn spec_dim(&self) -> Dimension {
        Dimension::Static(N)
    }

    fn size(&self) -> (r: usize) {
        N
    }

    fn dim(&self) -> (d: Dimension) {
        Dimension::Static(N)
    }
}

impl Dim for Dimension {
    open spec fn spec_dim(&self) -> Dimension {
        *self
    }

    fn size(&self) -> (r: usize) {
        match self {
            Dimension::Static(n) => *n,
            Dimension::Dynamic(n) => *n,
        }
    }

    fn dim(&self) -> (d: Dimension) {
        *self
    }
}

/// The extents of a list of axes, without their tags.
pub open spec fn dim_sizes(dims: Seq<Dimension>) -> Seq<usize> {
    dims.map_values(|d: Dimension| d.spec_size())
}

/// Product of a list of axis extents: the element count of a shape with
/// these extents.  The empty product is 1 (a scalar holds one element).
pub open spec fn prod(dims: Seq<usize>) -> nat
    decreases dims.len(),
{
    if dims.len() == 0 {
        1
    } else {
        (dims[0] as nat) * prod(dims.skip(1))
    }
}

/// Row-major stride of axis `i`: the product of all extents behind it.
pub open spec fn stride_at(dims: Seq<usize>, i: int) -> nat {
    prod(dims.skip(i + 1))
}

/// Every suffix product of `dims` fits in a machine word, so the element
/// count and every row-major stride can be computed without overflow.
pub open spec fn dims_wf(dims: Seq<usize>) -> bool {
    forall|i: int| 0 <= i <= dims.len() ==> #[trigger] prod(dims.skip(i)) <= usize::MAX
}

/// `ss` holds the row-major strides of `dims`.
pub open spec fn is_natural_strides(ss: Seq<usize>, dims: Seq<usize>) -> bool {
    &&& ss.len() == dims.len()
    &&& forall|i: int| 0 <= i < dims.len() ==> #[trigger] ss[i] == stride_at(dims, i)
}

/// Dropping `i` then `j` elements from the front drops `i + j`.
pub proof fn lemma_skip_skip<A>(s: Seq<A>, i: int, j: int)
    requires
        0 <= i,
        0 <= j,
        i + j <= s.len(),
    ensures
        s.skip(i).skip(j) == s.skip(i + j),
{
    assert(s.skip(i).skip(j) =~= s.skip(i + j));
}

/// Unfold one factor of a suffix product: the product of the extents from
/// axis `i` on is the extent of axis `i` times the product behind it.
pub proof fn lemma_prod_step(dims: Seq<usize>, i: int)
    requires
        0 <= i < dims.len(),
    ensures
        prod(dims.skip(i)) == (dims[i] as nat) * stride_at(dims, i),
{
    lemma_skip_skip(dims, i, 1);
    assert(dims.skip(i)[0] == dims[i]);
}

/// A positive element count forces every extent, and every suffix product,
/// to be positive.
pub proof fn lemma_prod_pos(dims: Seq<usize>, i: int)
    requires
        0 <= i <= dims.len(),
        prod(dims.skip(i)) > 0,
    ensures
        forall|j: int| i <= j < dims.len() ==> dims[j] >= 1,
        forall|j: int| i <= j <= dims.len() ==> #[trigger] prod(dims.skip(j)) >= 1,
    decreases dims.len() - i,
{
    if i < dims.len() {
        lemma_prod_step(dims, i);
        assert(dims[i] >= 1 && stride_at(dims, i) > 0) by (nonlinear_arith)
            requires
                prod(dims.skip(i)) == (dims[i] as nat) * stride_at(dims, i),
                prod(dims.skip(i)) > 0,
        {}
        lemma_prod_pos(dims, i + 1);
    }
}

/// A shape: an ordered list of at most six axes, each an extent with its
/// origin tag, laid out densely in row-major order.
#[derive(Debug)]
pub struct DynShape {
    axes: Vec<Dimension>,
}

impl View for DynShape {
    type V = Seq<Dimension>;

    closed spec fn view(&self) -> Seq<Dimension> {
        self.axes@
    }
}

/// Shapes of rank 0 to 6 whose suffix extent products all fit in a machine
/// word; every value built by [`DynShape::new`] satisfies this.
pub open spec fn shape_wf(dims: Seq<Dimension>) -> bool {
    dims.len() <= 6 && dims_wf(dim_sizes(dims))
}

impl DynShape {
    /// Whether this shape is well formed; constructors only hand out well
    /// formed shapes.
    pub open spec fn wf(&self) -> bool {
        shape_wf(self@)
    }

    /// Builds a shape from its axes, refusing a rank above six and any
    /// extent combination whose layout would overflow a machine word.
    pub fn new(axes: Vec<Dimension>) -> (r: Option<DynShape>)
        ensures
            r is Some <==> shape_wf(axes@),
            r matches Some(s) ==> s@ == axes@,
    {
        if axes.len() > 6 {
            return None;
        }
        let ghost sizes = dim_sizes(axes@);
        let mut acc: usize = 1;
        let mut i: usize = axes.len();
        assert(sizes.skip(i as int) =~= Seq::<usize>::empty());
        while i > 0
            invariant
                i <= axes@.len() <= 6,
                sizes == dim_sizes(axes@),
                acc == prod(sizes.skip(i as int)),
                forall|j: int| i <= j <= sizes.len() ==> #[trigger] prod(sizes.skip(j)) <= usize::MAX,
            decreases i,
        {
            i = i - 1;
            let d = axes[i].size();
            proof {
                lemma_prod_step(sizes, i as int);
            }
            match d.checked_mul(acc) {
                Some(p) => {
                    acc = p;
                }
                None => {
                    assert(prod(sizes.skip(i as int)) > usize::MAX);
                    return None;
                }
            }
        }
        assert(sizes.skip(0) =~= sizes);
        Some(DynShape { axes })
    }

    /// The number of axes.
    pub fn rank(&self) -> (r: usize)
        ensures
            r == self@.len(),
    {
        self.axes.len()
    }

    /// The axis at position `i`.
    pub fn axis(&self, i: usize) -> (d: Dimension)
        requires
            i < self@.len(),
        ensures
            d == self@[i as int],
    {
        self.axes[i]
    }

    /// The axes as a fresh list, for rebuilding an equal shape.
    pub fn to_axes(&self) -> (r: Vec<Dimension>)
        ensures
            r@ == self@,
    {
        let mut r: Vec<Dimension> = Vec::new();
        let mut i: usize = 0;
        while i < self.axes.len()
            invariant
                i <= self@.len(),
                r@ == self@.take(i as int),
            decreases self@.len() - i,
        {
            r.push(self.axes[i]);
            assert(r@ =~= self@.take(i as int + 1));
            i = i + 1;
        }
        assert(r@ =~= self@);
        r
    }
}

/// A lower bound on element count known without looking at run-time
/// extents: statically fixed axes contribute their extent, every run-time
/// axis counts as one element.
pub open spec fn min_prod(dims: Seq<Dimension>) -> nat
    decreases dims.len(),
{
    if dims.len() == 0 {
        1
    } else {
        (if dims[0].is_static() {
            dims[0].spec_size() as nat
        } else {
            1nat
        }) * min_prod(dims.skip(1))
    }
}

/// Every suffix of the static lower bound fits in a machine word.
pub open spec fn min_prod_wf(dims: Seq<Dimension>) -> bool {
    forall|i: int| 0 <= i <= dims.len() ==> #[trigger] min_prod(dims.skip(i)) <= usize::MAX
}

/// Unfold one factor of the static lower bound at position `i`.
pub proof fn lemma_min_prod_step(dims: Seq<Dimension>, i: int)
    requires
        0 <= i < dims.len(),
    ensures
        min_prod(dims.skip(i)) == (if dims[i].is_static() {
            dims[i].spec_size() as nat
        } else {
            1nat
        }) * min_prod(dims.skip(i + 1)),
{
    lemma_skip_skip(dims, i, 1);
    assert(dims.skip(i)[0] == dims[i]);
}

/// The static lower bound never exceeds the true element count, as long
/// as every run-time axis holds at least one element.
pub proof fn lemma_min_prod_le_prod(dims: Seq<Dimension>)
    requires
        forall|i: int|
            0 <= i < dims.len() ==> !(#[trigger] dims[i]).is_static() ==> dims[i].spec_size() >= 1,
    ensures
        min_prod(dims) <= prod(dim_sizes(dims)),
    decreases dims.len(),
{
    if dims.len() > 0 {
        lemma_min_prod_le_prod(dims.skip(1));
        assert(dim_sizes(dims).skip(1) =~= dim_sizes(dims.skip(1)));
        let f0: nat = if dims[0].is_static() {
            dims[0].spec_size() as nat
        } else {
            1nat
        };
        let s0: nat = dims[0].spec_size() as nat;
        assert(f0 <= s0);
        assert(f0 * min_prod(dims.skip(1)) <= s0 * prod(dim_sizes(dims.skip(1))))
            by (nonlinear_arith)
            requires
                f0 <= s0,
                min_prod(dims.skip(1)) <= prod(dim_sizes(dims.skip(1))),
        {}
    }
}

/// A conservative lower bound on a shape's element count, available
/// without a run-time shape value in hand.
pub trait MinSizeShape: Sized {
    /// The bound.
    spec fn spec_min_size(&self) -> nat;

    /// The bound can be computed without overflow.
    spec fn spec_min_size_wf(&self) -> bool;

    /// Computes the bound.
    fn min_size(&self) -> (r: usize)
        requires
            self.spec_min_size_wf(),
        ensures
            r == self.spec_min_size(),
    ;
}

impl MinSizeShape for Dyn {
    open spec fn spec_min_size(&self) -> nat {
        1
    }

    open spec fn spec_min_size_wf(&self) -> bool {
        true
    }

    fn min_size(&self) -> (r: usize) {
        1
    }
}

impl<const N: usize> MinSizeShape for Cst<N> {
    open spec fn spec_min_size(&self) -> nat {
        N as nat
    }

    open spec fn spec_min_size_wf(&self) -> bool {
        true
    }

    fn min_size(&self) -> (r: usize) {
        N
    }
}

impl MinSizeShape for DynShape {
    open spec fn spec_min_size(&self) -> nat {
        min_prod(self@)
    }

    open spec fn spec_min_size_wf(&self) -> bool {
        min_prod_wf(self@)
    }

    fn min_size(&self) -> (r: usize) {
        let mut acc: usize = 1;
        let mut i: usize = self.axes.len();
        assert(self@.skip(i as int) =~= Seq::<Dimension>::empty());
        while i > 0
            invariant
                i <= self@.len(),
                min_prod_wf(self@),
                acc == min_prod(self@.skip(i as int)),
            decreases i,
        {
            i = i - 1;
            let f: usize = match self.axes[i] {
                Dimension::Static(n) => n,
                Dimension::Dynamic(_) => 1,
            };
            proof {
                lemma_min_prod_step(self@, i as int);
            }
            acc = f * acc;
        }
        assert(self@.skip(0) =~= self@);
        acc
    }
}

/// A shape's dense row-major layout: its element count, its ordered axis
/// extents, and the stride of each axis.
pub trait Shape: Sized {
    /// The ordered axis extents.
    spec fn spec_sizes(&self) -> Seq<usize>;

    /// The layout can be computed without overflow.
    spec fn spec_layout_wf(&self) -> bool;

    /// Total element count: the product of all axis extents.
    fn size(&self) -> (r: usize)
        requires
            self.spec_layout_wf(),
        ensures
            r == prod(self.spec_sizes()),
    ;

    /// The ordered axis extents.
    fn dimensions(&self) -> (r: Vec<usize>)
        ensures
            r@ == self.spec_sizes(),
    ;

    /// The row-major stride of each axis.
    fn strides(&self) -> (r: Vec<usize>)
        requires
            self.spec_layout_wf(),
        ensures
            is_natural_strides(r@, self.spec_sizes()),
    ;
}

impl Shape for DynShape {
    open spec fn spec_sizes(&self) -> Seq<usize> {
        dim_sizes(self@)
    }

    open spec fn spec_layout_wf(&self) -> bool {
        dims_wf(dim_sizes(self@))
    }

    fn size(&self) -> (r: usize) {
        let ghost sizes = dim_sizes(self@);
        let mut acc: usize = 1;
        let mut i: usize = self.axes.len();
        assert(sizes.skip(i as int) =~= Seq::<usize>::empty());
        while i > 0
            invariant
                i <= self@.len(),
                sizes == dim_sizes(self@),
                dims_wf(sizes),
                acc == prod(sizes.skip(i as int)),
            decreases i,
        {
            i = i - 1;
            let d = self.axes[i].size();
            proof {
                lemma_prod_step(sizes, i as int);
            }
            acc = d * acc;
        }
        assert(sizes.skip(0) =~= sizes);
        acc
    }

    fn dimensions(&self) -> (r: Vec<usize>) {
        let mut r: Vec<usize> = Vec::new();
        let mut i: usize = 0;
        while i < self.axes.len()
            invariant
                i <= self@.len(),
                r@.len() == i,
                forall|j: int| 0 <= j < i ==> #[trigger] r@[j] == dim_sizes(self@)[j],
            decreases self@.len() - i,
        {
            r.push(self.axes[i].size());
            i = i + 1;
        }
        assert(r@ =~= dim_sizes(self@));
        r
    }

    fn strides(&self) -> (r: Vec<usize>) {
        let ghost sizes = dim_sizes(self@);
        let n = self.axes.len();
        let mut r: Vec<usize> = Vec::new();
        let mut k: usize = 0;
        while k < n
            invariant
                n == self@.len(),
                k <= self@.len(),
                r@.len() == k,
            decreases self@.len() - k,
        {
            r.push(0);
            k = k + 1;
        }
        let mut acc: usize = 1;
        let mut i: usize = n;
        assert(sizes.skip(i as int) =~= Seq::<usize>::empty());
        while i > 0
            invariant
                i <= self@.len(),
                sizes == dim_sizes(self@),
                dims_wf(sizes),
                r@.len() == self@.len(),
                acc == prod(sizes.skip(i as int)),
                forall|j: int| i <= j < sizes.len() ==> #[trigger] r@[j] == stride_at(sizes, j),
            decreases i,
        {
            i = i - 1;
            r[i] = acc;
            let d = self.axes[i].size();
            proof {
                lemma_prod_step(sizes, i as int);
            }
            acc = d * acc;
        }
        r
    }
}

} // verus!
