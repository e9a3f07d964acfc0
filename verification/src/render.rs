//! Rendering a row-major buffer as nested bracketed rows, one bracket
//! depth per axis, most significant axis outermost.  The elements arrive
//! already turned into text, so the nesting logic is independent of the
//! element type.

use vstd::prelude::*;
use vstd::string::StringExecFns;

use crate::shape::{dims_wf, lemma_prod_step, lemma_skip_skip, prod, stride_at};

verus! {

/// The views of a list of element texts.
pub open spec fn labels(elems: Seq<String>) -> Seq<Seq<char>> {
    elems.map_values(|s: String| s@)
}

/// The first `n` items of the outermost axis of the sub-tensor at
/// `offset`, separated by ", ".
pub open spec fn spec_render_items(
    elems: Seq<Seq<char>>,
    dims: Seq<usize>,
    offset: int,
    n: int,
) -> Seq<char>
    decreases dims.len(), 0nat, n,
{
    if n <= 0 || dims.len() == 0 {
        Seq::<char>::empty()
    } else if n == 1 {
        spec_render(elems, dims.skip(1), offset)
    } else {
        spec_render_items(elems, dims, offset, n - 1) + ", "@ + spec_render(
            elems,
            dims.skip(1),
            offset + (n - 1) * stride_at(dims, 0),
        )
    }
}

/// The text of the sub-tensor at `offset` of a buffer shaped `dims`: its
/// one element for a scalar, else a bracketed row of its outermost axis.
pub open spec fn spec_render(elems: Seq<Seq<char>>, dims: Seq<usize>, offset: int) -> Seq<char>
    decreases dims.len(), 1nat, 0nat,
{
    if dims.len() == 0 {
        if 0 <= offset < elems.len() {
            elems[offset]
        } else {
            Seq::<char>::empty()
        }
    } else {
        "["@ + spec_render_items(elems, dims, offset, dims[0] as int) + "]"@
    }
}

/// The product of the extents from position `from` on.
fn suffix_prod(dims: &Vec<usize>, from: usize) -> (r: usize)
    requires
        from <= dims@.len(),
        dims_wf(dims@),
    ensures
        r == prod(dims@.skip(from as int)),
{
    let mut acc: usize = 1;
    let mut i: usize = dims.len();
    assert(dims@.skip(i as int) =~= Seq::<usize>::empty());
    while i > from
        invariant
            from <= i <= dims@.len(),
            dims_wf(dims@),
            acc == prod(dims@.skip(i as int)),
        decreases i,
    {
        i = i - 1;
        proof {
            lemma_prod_step(dims@, i as int);
        }
        acc = dims[i] * acc;
    }
    acc
}

/// Renders the sub-tensor whose axes start at `axis` and whose elements
/// start at `offset`.
fn render_at(elems: &Vec<String>, dims: &Vec<usize>, axis: usize, offset: usize) -> (r: String)
    requires
        axis <= dims@.len(),
        dims_wf(dims@),
        offset + prod(dims@.skip(axis as int)) <= elems@.len(),
    ensures
        r@ == spec_render(labels(elems@), dims@.skip(axis as int), offset as int),
    decreases dims@.len() - axis,
{
    if axis == dims.len() {
        assert(dims@.skip(axis as int).len() == 0);
        elems[offset].clone()
    } else {
        let ghost d = dims@.skip(axis as int);
        let ghost lab = labels(elems@);
        let n = dims[axis];
        let stride = suffix_prod(dims, axis + 1);
        proof {
            lemma_skip_skip(dims@, axis as int, 1);
            lemma_prod_step(dims@, axis as int);
            assert(d[0] == dims@[axis as int]);
            assert(stride_at(d, 0) == prod(dims@.skip(axis as int + 1)));
        }
        let mut s = String::from_str("[");
        assert(s@ =~= "["@ + spec_render_items(lab, d, offset as int, 0));
        let elem_count = elems.len();
        let dim_count = dims.len();
        let mut i: usize = 0;
        while i < n
            invariant
                elems@.len() == elem_count,
                dims@.len() == dim_count,
                axis < dims@.len(),
                dims_wf(dims@),
                d == dims@.skip(axis as int),
                lab == labels(elems@),
                n == dims@[axis as int],
                stride == prod(dims@.skip(axis as int + 1)),
                stride == stride_at(d, 0),
                offset + prod(dims@.skip(axis as int)) <= elems@.len(),
                prod(dims@.skip(axis as int)) == (n as nat) * (stride as nat),
                i <= n,
                s@ == "["@ + spec_render_items(lab, d, offset as int, i as int),
            decreases n - i,
        {
            proof {
                assert((i as nat + 1) * (stride as nat) <= (n as nat) * (stride as nat))
                    by (nonlinear_arith)
                    requires
                        (i as nat) + 1 <= n as nat,
                {}
                assert((i as nat + 1) * (stride as nat) == (i as nat) * (stride as nat)
                    + stride as nat) by (nonlinear_arith) {}
            }
            if i > 0 {
                s.append(", ");
            }
            let sub = render_at(elems, dims, axis + 1, offset + i * stride);
            proof {
                assert(dims@.skip(axis as int + 1) =~= d.skip(1));
                if i == 0 {
                    assert(i * stride == 0) by (nonlinear_arith)
                        requires
                            i == 0,
                    {}
                    assert(sub@ == spec_render(lab, d.skip(1), offset as int));
                    assert(s@ + sub@ =~= "["@ + spec_render_items(lab, d, offset as int, 1));
                } else {
                    assert(spec_render_items(lab, d, offset as int, i as int + 1)
                        == spec_render_items(lab, d, offset as int, i as int) + ", "@ + sub@);
                }
            }
            s.append(sub.as_str());
            proof {
                assert(s@ =~= "["@ + spec_render_items(lab, d, offset as int, i as int + 1));
            }
            i = i + 1;
        }
        s.append("]");
        assert(s@ =~= spec_render(lab, d, offset as int));
        s
    }
}

/// Renders a row-major buffer of already-printed element texts as nested
/// bracketed rows matching `dims`, most significant axis outermost and
/// items separated by ", ".
pub fn render(elems: &Vec<String>, dims: &Vec<usize>) -> (r: String)
    requires
        dims_wf(dims@),
        elems@.len() == prod(dims@),
    ensures
        r@ == spec_render(labels(elems@), dims@, 0),
{
    assert(dims@.skip(0) =~= dims@);
    render_at(elems, dims, 0, 0)
}

} // verus!
