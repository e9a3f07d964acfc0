//! The work one kernel thread does per output element: decompose the
//! output position into per-axis coordinates and fold them into an offset
//! for each operand through that operand's broadcast-aware strides.

use vstd::arithmetic::div_mod::{
    lemma_fundamental_div_mod, lemma_mod_division_less_than_divisor, lemma_multiply_divide_lt,
};
use vstd::prelude::*;

use crate::broadcast::{bcast_ok, is_operand_strides, operand_stride_at};
use crate::shape::{
    is_natural_strides, lemma_prod_pos, lemma_prod_step, lemma_skip_skip, prod, stride_at,
};

verus! {

/// The offset the kernel's decomposition loop computes for output position
/// `idx`: divide by each output stride in turn, most significant axis
/// first, and weight each quotient with the matching entry of `ss`.
pub open spec fn decomp_index(idx: nat, os: Seq<usize>, ss: Seq<usize>) -> nat
    decreases os.len(),
{
    if os.len() == 0 || ss.len() == 0 || os[0] == 0 {
        0
    } else {
        (idx / (os[0] as nat)) * (ss[0] as nat) + decomp_index(
            idx % (os[0] as nat),
            os.skip(1),
            ss.skip(1),
        )
    }
}

/// The operand element that broadcasting places at output position `idx`:
/// decompose `idx` into the row-major coordinates of `out`, drop the
/// coordinates of leading axes the operand lacks, clamp the coordinate to
/// 0 on every axis the operand has stretched from extent 1, and read the
/// operand at the row-major offset of what is left.
pub open spec fn src_index(idx: nat, op: Seq<usize>, out: Seq<usize>) -> nat
    decreases out.len(),
{
    if out.len() == 0 {
        0
    } else {
        let s = stride_at(out, 0);
        let q = if s == 0 { 0 } else { idx / s };
        let r = if s == 0 { 0 } else { idx % s };
        if op.len() < out.len() {
            src_index(r, op, out.skip(1))
        } else {
            (if op[0] == 1 {
                0
            } else {
                q
            }) * stride_at(op, 0) + src_index(r, op.skip(1), out.skip(1))
        }
    }
}

/// The kernel's stride walk reads exactly the element that broadcasting
/// replicates to position `idx`, and that element exists: the computed
/// offset stays inside the operand's buffer.
pub proof fn lemma_decomp_src(idx: nat, op: Seq<usize>, out: Seq<usize>, os: Seq<usize>, ss: Seq<usize>)
    requires
        bcast_ok(op, out),
        idx < prod(out),
        is_natural_strides(os, out),
        is_operand_strides(ss, op, out),
    ensures
        src_index(idx, op, out) < prod(op),
        decomp_index(idx, os, ss) == src_index(idx, op, out),
    decreases out.len(),
{
    assert(out.skip(0) =~= out);
    lemma_prod_pos(out, 0);
    if out.len() == 0 {
        assert(op =~= Seq::<usize>::empty());
    } else {
        let s = stride_at(out, 0);
        lemma_prod_step(out, 0);
        assert(s >= 1);
        let q = idx / s;
        let r = idx % s;
        lemma_fundamental_div_mod(idx as int, s as int);
        lemma_mod_division_less_than_divisor(idx as int, s as int);
        assert(idx < s * (out[0] as nat)) by (nonlinear_arith)
            requires
                idx < prod(out),
                prod(out) == (out[0] as nat) * s,
        {}
        lemma_multiply_divide_lt(idx as int, s as int, out[0] as int);
        assert(q < out[0]);
        assert(r < s);
        assert(os[0] == s);

        // The tails of the stride tables describe the tails of the shapes.
        assert forall|i: int| 0 <= i < out.skip(1).len() implies #[trigger] os.skip(1)[i]
            == stride_at(out.skip(1), i) by {
            lemma_skip_skip(out, 1, i + 1);
            assert(os[i + 1] == stride_at(out, i + 1));
        }
        if op.len() < out.len() {
            assert(ss[0] == operand_stride_at(op, out, 0));
            assert(ss[0] == 0);
            assert forall|i: int| 0 <= i < out.skip(1).len() implies #[trigger] ss.skip(1)[i]
                == operand_stride_at(op, out.skip(1), i) by {
                assert(ss[i + 1] == operand_stride_at(op, out, i + 1));
            }
            assert forall|j: int| 0 <= j < op.len() implies (#[trigger] op[j])
                == out.skip(1)[j + out.skip(1).len() - op.len()] || op[j] == 1 by {
                assert(op[j] == out[j + out.len() - op.len()] || op[j] == 1);
            }
            lemma_decomp_src(r, op, out.skip(1), os.skip(1), ss.skip(1));
            assert(decomp_index(idx, os, ss) == q * (ss[0] as nat) + decomp_index(
                r,
                os.skip(1),
                ss.skip(1),
            ));
            assert(decomp_index(idx, os, ss) == src_index(idx, op, out));
        } else {
            assert(op.len() == out.len());
            assert(op[0] == out[0] || op[0] == 1);
            lemma_prod_step(op, 0);
            assert forall|i: int| 0 <= i < out.skip(1).len() implies #[trigger] ss.skip(1)[i]
                == operand_stride_at(op.skip(1), out.skip(1), i) by {
                assert(ss[i + 1] == operand_stride_at(op, out, i + 1));
                lemma_skip_skip(op, 1, i + 1);
            }
            assert forall|j: int| 0 <= j < op.skip(1).len() implies (#[trigger] op.skip(1)[j])
                == out.skip(1)[j + out.skip(1).len() - op.skip(1).len()] || op.skip(1)[j] == 1 by {
                assert(op[j + 1] == out[j + 1] || op[j + 1] == 1);
            }
            lemma_decomp_src(r, op.skip(1), out.skip(1), os.skip(1), ss.skip(1));
            let rest = src_index(r, op.skip(1), out.skip(1));
            assert(rest < stride_at(op, 0));
            let c0: nat = if op[0] == 1 { 0 } else { q };
            assert(c0 < op[0]);
            assert(c0 * stride_at(op, 0) + rest < prod(op)) by (nonlinear_arith)
                requires
                    c0 < op[0],
                    rest < stride_at(op, 0),
                    prod(op) == (op[0] as nat) * stride_at(op, 0),
            {}
            assert(decomp_index(idx, os, ss) == q * (ss[0] as nat) + decomp_index(
                r,
                os.skip(1),
                ss.skip(1),
            ));
            assert(src_index(idx, op, out) == c0 * stride_at(op, 0) + rest);
            assert(ss[0] == operand_stride_at(op, out, 0));
            if op[0] == 1 && out[0] > 1 {
                assert(ss[0] == 0);
                assert(q * (ss[0] as nat) == c0 * stride_at(op, 0));
            } else if op[0] == 1 {
                assert(out[0] == 1);
                assert(q == 0);
                assert(q * (ss[0] as nat) == c0 * stride_at(op, 0));
            } else {
                assert(ss[0] == stride_at(op, 0));
                assert(q * (ss[0] as nat) == c0 * stride_at(op, 0));
            }
            assert(decomp_index(idx, os, ss) == src_index(idx, op, out));
        }
    }
}

/// Decomposes output position `idx` against the output strides `os` and
/// accumulates an operand offset through the stride table `ss`, as one
/// kernel thread does.
pub fn decomp(idx: usize, os: &[usize], ss: &[usize]) -> (r: usize)
    requires
        os@.len() == ss@.len(),
        forall|i: int| 0 <= i < os@.len() ==> os@[i] > 0,
        decomp_index(idx as nat, os@, ss@) <= usize::MAX,
    ensures
        r == decomp_index(idx as nat, os@, ss@),
{
    let ghost total = decomp_index(idx as nat, os@, ss@);
    assert(os@.skip(0) =~= os@);
    assert(ss@.skip(0) =~= ss@);
    let mut acc: usize = 0;
    let mut rem: usize = idx;
    let mut j: usize = 0;
    while j < os.len()
        invariant
            os@.len() == ss@.len(),
            forall|i: int| 0 <= i < os@.len() ==> os@[i] > 0,
            j <= os@.len(),
            total == decomp_index(idx as nat, os@, ss@),
            total <= usize::MAX,
            acc + decomp_index(rem as nat, os@.skip(j as int), ss@.skip(j as int)) == total,
        decreases os@.len() - j,
    {
        proof {
            lemma_skip_skip(os@, j as int, 1);
            lemma_skip_skip(ss@, j as int, 1);
            assert(os@.skip(j as int)[0] == os@[j as int]);
            assert(ss@.skip(j as int)[0] == ss@[j as int]);
        }
        let q = rem / os[j];
        let step = q * ss[j];
        acc = acc + step;
        rem = rem % os[j];
        j = j + 1;
    }
    proof {
        assert(os@.skip(j as int).len() == 0);
    }
    acc
}

/// One kernel thread of an elementwise operation: if `idx` addresses an
/// output element, read one element of each operand through that
/// operand's broadcast-aware strides, combine the two with `op`, and
/// write the result at `idx`; a thread past the end of the output does
/// nothing.
pub fn apply_op_broadcast<L: Copy, R: Copy, O, F: Fn(L, R) -> O>(
    a: &[L],
    a_strides: &[usize],
    b: &[R],
    b_strides: &[usize],
    o: &mut Vec<O>,
    o_strides: &[usize],
    op: &F,
    idx: usize,
)
    requires
        a_strides@.len() == o_strides@.len(),
        b_strides@.len() == o_strides@.len(),
        forall|i: int| 0 <= i < o_strides@.len() ==> o_strides@[i] > 0,
        idx < old(o)@.len() ==> decomp_index(idx as nat, o_strides@, a_strides@) < a@.len(),
        idx < old(o)@.len() ==> decomp_index(idx as nat, o_strides@, b_strides@) < b@.len(),
        forall|x: L, y: R| op.requires((x, y)),
    ensures
        final(o)@.len() == old(o)@.len(),
        idx >= old(o)@.len() ==> final(o)@ == old(o)@,
        idx < old(o)@.len() ==> final(o)@ == old(o)@.update(
            idx as int,
            final(o)@[idx as int],
        ),
        idx < old(o)@.len() ==> op.ensures(
            (
                a@[decomp_index(idx as nat, o_strides@, a_strides@) as int],
                b@[decomp_index(idx as nat, o_strides@, b_strides@) as int],
            ),
            final(o)@[idx as int],
        ),
{
    if idx < o.len() {
        let a_len = a.len();
        let b_len = b.len();
        assert(decomp_index(idx as nat, o_strides@, a_strides@) < a_len);
        assert(decomp_index(idx as nat, o_strides@, b_strides@) < b_len);
        let a_idx = decomp(idx, o_strides, a_strides);
        let b_idx = decomp(idx, o_strides, b_strides);
        let v = op(a[a_idx], b[b_idx]);
        o[idx] = v;
        assert(o@ =~= old(o)@.update(idx as int, o@[idx as int]));
    } else {
        assert(o@ =~= old(o)@);
    }
}

} // verus!
