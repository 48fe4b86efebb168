//! The feed-forward half that all hybrid layers share.

use vstd::prelude::*;

use crate::buffer::extend;
use crate::ops;
use crate::ops::{activate_all, linear_vec, mul_vecs, rms_normalize, rmsnorm, row_slice, Activation};
use crate::packed;
use crate::packed::{gemv_or_matmul, PackedLinear};
use crate::scalar;
use crate::scalar::{Math, Scalar};

verus! {

/// The weights of a SwiGLU block with its norm.
#[verifier::ext_equal]
pub struct FfnWeights<T> {
    pub norm: Seq<T>,
    pub gate: Seq<T>,
    pub up: Seq<T>,
    pub down: Seq<T>,
}

impl<T> FfnWeights<T> {
    /// The weights have their sizes.
    pub open spec fn fits(self, hidden: nat, inter: nat) -> bool {
        &&& hidden <= self.norm.len()
        &&& self.gate.len() == inter * hidden
        &&& self.up.len() == inter * hidden
        &&& self.down.len() == hidden * inter
    }
}

/// A row through the block: norm, then `down(silu(gate) * up)`.
pub open spec fn swiglu_row<T: Scalar, M: Math<T>>(
    w: FfnWeights<T>,
    x: Seq<T>,
    eps: T,
    hidden: nat,
    inter: nat,
) -> Seq<T> {
    let n = ops::rms_row::<T, M>(x, w.norm, eps);
    let gate = ops::linear_row(n, w.gate, Seq::empty(), hidden, inter);
    let up = ops::linear_row(n, w.up, Seq::empty(), hidden, inter);
    let fused = ops::product_of(ops::all_activated::<T, M>(Activation::Silu, gate), up);
    ops::linear_row(fused, w.down, Seq::empty(), inter, hidden)
}

/// SwiGLU FFN sub-block: norm → gate_proj → SiLU, up_proj, multiply, down_proj.
///
/// Used identically by DeltaNet, GQA, and LIV Conv layers.
pub fn swiglu_ffn_forward<T: Scalar, M: Math<T>>(
    x: &[T],
    seq_len: usize,
    ffn_norm_weight: &[T],
    ffn_gate_weight: &[T],
    ffn_up_weight: &[T],
    ffn_down_weight: &[T],
    norm_eps: T,
    hidden_size: usize,
    intermediate_size: usize,
) -> (r: Vec<T>)
    requires
        scalar::mathematics::<T, M>(),
        x@.len() == seq_len * hidden_size,
        weights_of(ffn_norm_weight@, ffn_gate_weight@, ffn_up_weight@, ffn_down_weight@).fits(
            hidden_size as nat,
            intermediate_size as nat,
        ),
    ensures
        r@ == ops::blocks(
            seq_len as nat,
            |t: int|
                swiglu_row::<T, M>(
                    weights_of(
                        ffn_norm_weight@,
                        ffn_gate_weight@,
                        ffn_up_weight@,
                        ffn_down_weight@,
                    ),
                    ops::row(x@, t, hidden_size as int),
                    norm_eps,
                    hidden_size as nat,
                    intermediate_size as nat,
                ),
        ),
        r@.len() == seq_len * hidden_size,
{
    let ghost w = weights_of(
        ffn_norm_weight@,
        ffn_gate_weight@,
        ffn_up_weight@,
        ffn_down_weight@,
    );
    let h = hidden_size;
    let im = intermediate_size;
    let none: Vec<T> = Vec::new();
    let ghost f = |t: int|
        swiglu_row::<T, M>(w, ops::row(x@, t, h as int), norm_eps, h as nat, im as nat);
    let mut out: Vec<T> = Vec::new();
    for t in 0..seq_len
        invariant
            scalar::mathematics::<T, M>(),
            x@.len() == seq_len * h,
            none@ == Seq::<T>::empty(),
            w == weights_of(
                ffn_norm_weight@,
                ffn_gate_weight@,
                ffn_up_weight@,
                ffn_down_weight@,
            ),
            w.fits(h as nat, im as nat),
            f == (|t: int|
                swiglu_row::<T, M>(w, ops::row(x@, t, h as int), norm_eps, h as nat, im as nat)),
            out@ == ops::blocks(t as nat, f),
    {
        proof {
            ops::lemma_row_bounds(t as int, seq_len as int, h as int);
        }
        let n = rms_normalize::<T, M>(row_slice(x, t, h), ffn_norm_weight, norm_eps);
        let gate = linear_vec(n.as_slice(), ffn_gate_weight, none.as_slice(), h, im);
        let up = linear_vec(n.as_slice(), ffn_up_weight, none.as_slice(), h, im);
        let gate = activate_all::<T, M>(Activation::Silu, gate.as_slice());
        let fused = mul_vecs(gate.as_slice(), up.as_slice());
        let y = linear_vec(fused.as_slice(), ffn_down_weight, none.as_slice(), im, h);
        extend(&mut out, y.as_slice());
        assert(out@ =~= ops::blocks((t + 1) as nat, f));
    }
    proof {
        ops::lemma_blocks_len(seq_len as nat, f, h as nat);
    }
    out
}

/// Four weight sequences as one block's.
pub open spec fn weights_of<T>(norm: Seq<T>, gate: Seq<T>, up: Seq<T>, down: Seq<T>) -> FfnWeights<
    T,
> {
    FfnWeights { norm, gate, up, down }
}

/// The packed forms of a block's matrices, where there are any.
pub struct FfnPacked<Q> {
    pub gate: Option<Q>,
    pub up: Option<Q>,
    pub down: Option<Q>,
}

impl<Q> FfnPacked<Q> {
    pub open spec fn fits<T>(self, hidden: nat, inter: nat) -> bool where Q: PackedLinear<T> {
        &&& packed::fits::<T, Q>(self.gate, hidden, inter)
        &&& packed::fits::<T, Q>(self.up, hidden, inter)
        &&& packed::fits::<T, Q>(self.down, inter, hidden)
    }

    /// Nothing is packed.
    pub open spec fn is_empty(self) -> bool {
        self.gate is None && self.up is None && self.down is None
    }
}

/// Rows through the block, by the packed matrices for a single row.
pub open spec fn swiglu_packed<T: Scalar, M: Math<T>, Q: PackedLinear<T>>(
    w: FfnWeights<T>,
    q: FfnPacked<Q>,
    x: Seq<T>,
    rows: nat,
    eps: T,
    hidden: nat,
    inter: nat,
) -> Seq<T> {
    let n = ops::rms_norm_of::<T, M>(x, w.norm, eps, hidden, rows);
    let gate = packed::gemv_of(n, w.gate, q.gate, rows, hidden, inter);
    let up = packed::gemv_of(n, w.up, q.up, rows, hidden, inter);
    let fused = ops::product_of(ops::all_activated::<T, M>(Activation::Silu, gate), up);
    packed::gemv_of(fused, w.down, q.down, rows, inter, hidden)
}

/// SwiGLU FFN with optional packed GEMV for decode.
pub fn swiglu_ffn_forward_q4<T: Scalar, M: Math<T>, Q: PackedLinear<T>>(
    x: &[T],
    seq_len: usize,
    ffn_norm_weight: &[T],
    ffn_gate_weight: &[T],
    ffn_up_weight: &[T],
    ffn_down_weight: &[T],
    q4_gate: &Option<Q>,
    q4_up: &Option<Q>,
    q4_down: &Option<Q>,
    norm_eps: T,
    hidden_size: usize,
    intermediate_size: usize,
) -> (r: Vec<T>)
    requires
        scalar::mathematics::<T, M>(),
        packed::packing::<T, Q>(),
        x@.len() == seq_len * hidden_size,
        weights_of(ffn_norm_weight@, ffn_gate_weight@, ffn_up_weight@, ffn_down_weight@).fits(
            hidden_size as nat,
            intermediate_size as nat,
        ),
        packed_as(*q4_gate, *q4_up, *q4_down).fits::<T>(
            hidden_size as nat,
            intermediate_size as nat,
        ),
    ensures
        r@ == swiglu_packed::<T, M, Q>(
            weights_of(ffn_norm_weight@, ffn_gate_weight@, ffn_up_weight@, ffn_down_weight@),
            packed_as(*q4_gate, *q4_up, *q4_down),
            x@,
            seq_len as nat,
            norm_eps,
            hidden_size as nat,
            intermediate_size as nat,
        ),
        r@.len() == seq_len * hidden_size,
{
    let h = hidden_size;
    let im = intermediate_size;
    let n = rmsnorm::<T, M>(x, ffn_norm_weight, norm_eps, h, seq_len);
    let gate = gemv_or_matmul(n.as_slice(), ffn_gate_weight, q4_gate, seq_len, h, im);
    let up = gemv_or_matmul(n.as_slice(), ffn_up_weight, q4_up, seq_len, h, im);
    let gate = activate_all::<T, M>(Activation::Silu, gate.as_slice());
    let fused = mul_vecs(gate.as_slice(), up.as_slice());
    gemv_or_matmul(fused.as_slice(), ffn_down_weight, q4_down, seq_len, im, h)
}

/// Three optional packed matrices as one block's.
pub open spec fn packed_as<Q>(gate: Option<Q>, up: Option<Q>, down: Option<Q>) -> FfnPacked<Q> {
    FfnPacked { gate, up, down }
}

/// Without packed matrices, a single row goes through the dense block.
pub proof fn lemma_dense_row<T: Scalar, M: Math<T>, Q: PackedLinear<T>>(
    w: FfnWeights<T>,
    q: FfnPacked<Q>,
    x: Seq<T>,
    eps: T,
    hidden: nat,
    inter: nat,
)
    requires
        x.len() == hidden,
        q.is_empty(),
    ensures
        swiglu_packed::<T, M, Q>(w, q, x, 1, eps, hidden, inter) == swiglu_row::<T, M>(
            w,
            x,
            eps,
            hidden,
            inter,
        ),
{
    let n = ops::rms_row::<T, M>(x, w.norm, eps);
    let f = |t: int| ops::rms_row::<T, M>(ops::row(x, t, hidden as int), w.norm, eps);
    assert(ops::row(x, 0, hidden as int) =~= x);
    assert(ops::blocks(1, f) =~= f(0)) by {
        assert(ops::blocks(0, f) =~= Seq::empty());
    }
    assert(ops::rms_norm_of::<T, M>(x, w.norm, eps, hidden, 1) == n);
    packed::lemma_dense_row::<T, Q>(n, w.gate, hidden, inter);
    packed::lemma_dense_row::<T, Q>(n, w.up, hidden, inter);
    let gate = ops::linear_row(n, w.gate, Seq::empty(), hidden, inter);
    let up = ops::linear_row(n, w.up, Seq::empty(), hidden, inter);
    let fused = ops::product_of(ops::all_activated::<T, M>(Activation::Silu, gate), up);
    packed::lemma_dense_row::<T, Q>(fused, w.down, inter, hidden);
}

} // verus!
