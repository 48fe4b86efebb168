//! CodeDeltaTok head — rides on top of a frozen UniXcoder backbone to
//! compress each (before, after) code pair into a single dense delta token
//! plus a reconstruction of the after-state.
//!
//! Pre-norm transformer blocks with LayerScale and a SwiGLU MLP. Checkpoints
//! hold the query, key and value projections fused in one tensor, which is
//! split on load.

use vstd::prelude::*;
use vstd::slice::slice_subrange;

use crate::attention;
use crate::attention::{bidirectional_attention, HeadLayout};
use crate::buffer::{copy_slice, extend, AlignedBuffer, RawTensor};
use crate::config::{Binary64, BITS_1E_5, BITS_FOUR};
use crate::models::text_encoder::roberta;
use crate::ops;
use crate::ops::{
    activate_all, add_gated, add_vecs, layernorm_with_bias, linear, mul_vecs, row_slice, Activation,
};
use crate::scalar;
use crate::scalar::{Math, Scalar};
use crate::text;
use crate::text::{parse_indexed_key, starts_with, str_eq};
use crate::weights;
use crate::weights::{
    load_mapped, push_key, KeyMapping, LoadResult, Refusal, Slot, TensorMap, WeightError,
    WeightTarget,
};

verus! {

/// Configuration for the CDT head.
#[derive(Debug, Clone, Copy, PartialEq, Eq, Structural)]
pub struct CodeDeltaTokConfig {
    pub feature_dim: usize,
    pub num_blocks: usize,
    pub num_heads: usize,
    pub num_delta_tokens: usize,
    pub mlp_ratio: Binary64,
    pub layer_norm_eps: Binary64,
}

impl CodeDeltaTokConfig {
    /// The defaults of the paper's headline run.
    pub fn paper_default() -> (r: Self)
        ensures
            r == (CodeDeltaTokConfig {
                feature_dim: 768,
                num_blocks: 4,
                num_heads: 12,
                num_delta_tokens: 1,
                mlp_ratio: Binary64 { bits: BITS_FOUR },
                layer_norm_eps: Binary64 { bits: BITS_1E_5 },
            }),
    {
        CodeDeltaTokConfig {
            feature_dim: 768,
            num_blocks: 4,
            num_heads: 12,
            num_delta_tokens: 1,
            mlp_ratio: Binary64 { bits: BITS_FOUR },
            layer_norm_eps: Binary64 { bits: BITS_1E_5 },
        }
    }

    pub fn head_dim(&self) -> (r: usize)
        requires
            self.num_heads > 0,
        ensures
            r == self.feature_dim / self.num_heads,
    {
        self.feature_dim / self.num_heads
    }

    /// `feature_dim * mlp_ratio`, cut down to a count.
    pub open spec fn spec_intermediate<T: Scalar, M: Math<T>>(&self) -> usize {
        scalar::cut_down::<T, M>(
            scalar::times(
                scalar::count_of::<T, M>(self.feature_dim),
                scalar::binary64_of::<T, M>(self.mlp_ratio.bits),
            ),
        )
    }

    pub fn intermediate<T: Scalar, M: Math<T>>(&self) -> (r: usize)
        requires
            scalar::mathematics::<T, M>(),
        ensures
            r == self.spec_intermediate::<T, M>(),
    {
        M::to_count(M::count(self.feature_dim) * M::from_binary64(self.mlp_ratio.bits))
    }
}

// ── Block ────────────────────────────────────────────────────────────

/// Pre-norm transformer block with LayerScale + SwiGLU MLP.
pub struct DeltaTokBlock<T> {
    pub dim: usize,
    pub num_heads: usize,
    pub intermediate: usize,
    pub layer_norm_eps: Binary64,
    pub norm1_w: AlignedBuffer<T>,
    pub norm1_b: AlignedBuffer<T>,
    pub norm2_w: AlignedBuffer<T>,
    pub norm2_b: AlignedBuffer<T>,
    pub w_q: AlignedBuffer<T>,
    pub q_bias: AlignedBuffer<T>,
    pub w_k: AlignedBuffer<T>,
    pub k_bias: AlignedBuffer<T>,
    pub w_v: AlignedBuffer<T>,
    pub v_bias: AlignedBuffer<T>,
    pub w_o: AlignedBuffer<T>,
    pub o_bias: AlignedBuffer<T>,
    pub mlp_gate_w: AlignedBuffer<T>,
    pub mlp_gate_b: AlignedBuffer<T>,
    pub mlp_up_w: AlignedBuffer<T>,
    pub mlp_up_b: AlignedBuffer<T>,
    pub mlp_down_w: AlignedBuffer<T>,
    pub mlp_down_b: AlignedBuffer<T>,
    pub scale1: AlignedBuffer<T>,
    pub scale2: AlignedBuffer<T>,
}

/// What loading leaves as it is of a block.
pub struct DeltaTokDims {
    pub dim: usize,
    pub num_heads: usize,
    pub intermediate: usize,
    pub layer_norm_eps: Binary64,
    /// The three parts of a fused tensor have the same length.
    pub even: bool,
}

/// A tensor of `len` elements can be put into a field: a fused one holds
/// three square matrices or three rows.
pub open spec fn field_fits(dim: usize, field: Seq<char>, len: nat) -> bool {
    if field == "attn.in_proj_weight"@ {
        len == 3 * (dim * dim)
    } else if field == "attn.in_proj_bias"@ {
        len == 3 * dim
    } else {
        true
    }
}

/// The fields of a block's weights.
pub open spec fn deltatok_fields() -> Seq<Seq<char>> {
    seq![
        "norm1.weight"@,
        "norm1.bias"@,
        "norm2.weight"@,
        "norm2.bias"@,
        "attn.in_proj_weight"@,
        "attn.in_proj_bias"@,
        "attn.out_proj.weight"@,
        "attn.out_proj.bias"@,
        "mlp_gate.weight"@,
        "mlp_gate.bias"@,
        "mlp_up.weight"@,
        "mlp_up.bias"@,
        "mlp_down.weight"@,
        "mlp_down.bias"@,
        "scale1"@,
        "scale2"@,
    ]
}

/// The weight keys of block `i` of a stack.
pub open spec fn deltatok_keys(prefix: Seq<char>, i: nat) -> Seq<Seq<char>> {
    deltatok_fields().map_values(|f: Seq<char>| text::indexed_key(prefix, i, f))
}

/// Adds the keys of block `i` of a stack to a list.
fn push_block_keys(keys: &mut Vec<String>, prefix: &str, i: usize)
    ensures
        weights::texts(final(keys)@) == weights::texts(old(keys)@) + deltatok_keys(
            prefix@,
            i as nat,
        ),
{
    let ghost before = keys@;
    push_key(keys, prefix, i, "norm1.weight");
    push_key(keys, prefix, i, "norm1.bias");
    push_key(keys, prefix, i, "norm2.weight");
    push_key(keys, prefix, i, "norm2.bias");
    push_key(keys, prefix, i, "attn.in_proj_weight");
    push_key(keys, prefix, i, "attn.in_proj_bias");
    push_key(keys, prefix, i, "attn.out_proj.weight");
    push_key(keys, prefix, i, "attn.out_proj.bias");
    push_key(keys, prefix, i, "mlp_gate.weight");
    push_key(keys, prefix, i, "mlp_gate.bias");
    push_key(keys, prefix, i, "mlp_up.weight");
    push_key(keys, prefix, i, "mlp_up.bias");
    push_key(keys, prefix, i, "mlp_down.weight");
    push_key(keys, prefix, i, "mlp_down.bias");
    push_key(keys, prefix, i, "scale1");
    push_key(keys, prefix, i, "scale2");
    assert(weights::texts(keys@) =~= weights::texts(before) + deltatok_keys(prefix@, i as nat));
}

/// Rows, each with a scaled row added: LayerScale in front of a residual.
pub open spec fn scaled_residual<T: Scalar>(
    x: Seq<T>,
    scale: Seq<T>,
    y: Seq<T>,
    d: nat,
    rows: nat,
) -> Seq<T> {
    ops::blocks(
        rows,
        |i: int| ops::gated_sum(ops::row(x, i, d as int), scale, ops::row(y, i, d as int)),
    )
}

/// Adds `scale * y` to each row of `x`.
pub fn add_scaled<T: Scalar>(x: &[T], scale: &[T], y: &[T], d: usize, rows: usize) -> (r: Vec<T>)
    requires
        scalar::arithmetic::<T>(),
        x@.len() == rows * d,
        y@.len() == rows * d,
        d <= scale@.len(),
    ensures
        r@ == scaled_residual(x@, scale@, y@, d as nat, rows as nat),
        r@.len() == rows * d,
{
    let ghost f = |i: int|
        ops::gated_sum(ops::row(x@, i, d as int), scale@, ops::row(y@, i, d as int));
    let mut out: Vec<T> = Vec::new();
    assert(0 * d == 0) by (nonlinear_arith);
    for i in 0..rows
        invariant
            scalar::arithmetic::<T>(),
            x@.len() == rows * d,
            y@.len() == rows * d,
            d <= scale@.len(),
            f == (|i: int|
                ops::gated_sum(ops::row(x@, i, d as int), scale@, ops::row(y@, i, d as int))),
            out@ == ops::blocks(i as nat, f),
            out@.len() == i * d,
    {
        proof {
            ops::lemma_row_bounds(i as int, rows as int, d as int);
            assert((i + 1) * d == i * d + d) by (nonlinear_arith);
        }
        let z = add_gated(row_slice(x, i, d), scale, row_slice(y, i, d));
        extend(&mut out, z.as_slice());
        assert(out@ =~= ops::blocks((i + 1) as nat, f));
    }
    out
}

impl<T: Scalar> DeltaTokBlock<T> {
    pub open spec fn dims(&self) -> DeltaTokDims {
        DeltaTokDims {
            dim: self.dim,
            num_heads: self.num_heads,
            intermediate: self.intermediate,
            layer_norm_eps: self.layer_norm_eps,
            even: {
                &&& self.w_q@.len() == self.w_k@.len() == self.w_v@.len()
                &&& self.q_bias@.len() == self.k_bias@.len() == self.v_bias@.len()
            },
        }
    }

    /// The weight kept under a field name; a fused one is its three parts.
    pub open spec fn field(&self, name: Seq<char>) -> Option<Seq<T>> {
        if name == "attn.in_proj_weight"@ {
            Some(self.w_q@ + self.w_k@ + self.w_v@)
        } else if name == "attn.in_proj_bias"@ {
            Some(self.q_bias@ + self.k_bias@ + self.v_bias@)
        } else if name == "norm1.weight"@ {
            Some(self.norm1_w@)
        } else if name == "norm1.bias"@ {
            Some(self.norm1_b@)
        } else if name == "norm2.weight"@ {
            Some(self.norm2_w@)
        } else if name == "norm2.bias"@ {
            Some(self.norm2_b@)
        } else if name == "attn.out_proj.weight"@ {
            Some(self.w_o@)
        } else if name == "attn.out_proj.bias"@ {
            Some(self.o_bias@)
        } else if name == "mlp_gate.weight"@ {
            Some(self.mlp_gate_w@)
        } else if name == "mlp_gate.bias"@ {
            Some(self.mlp_gate_b@)
        } else if name == "mlp_up.weight"@ {
            Some(self.mlp_up_w@)
        } else if name == "mlp_up.bias"@ {
            Some(self.mlp_up_b@)
        } else if name == "mlp_down.weight"@ {
            Some(self.mlp_down_w@)
        } else if name == "mlp_down.bias"@ {
            Some(self.mlp_down_b@)
        } else if name == "scale1"@ {
            Some(self.scale1@)
        } else if name == "scale2"@ {
            Some(self.scale2@)
        } else {
            None
        }
    }

    /// No weight has been loaded.
    pub open spec fn unloaded(&self) -> bool {
        &&& self.w_q@ == Seq::<T>::empty()
        &&& self.w_k@ == Seq::<T>::empty()
        &&& self.w_v@ == Seq::<T>::empty()
        &&& self.q_bias@ == Seq::<T>::empty()
        &&& self.k_bias@ == Seq::<T>::empty()
        &&& self.v_bias@ == Seq::<T>::empty()
        &&& forall|n: Seq<char>|
            (#[trigger] self.field(n)) is Some ==> self.field(n)->0 == Seq::<T>::empty()
    }

    /// The dimensions of a block of the configuration, and no weights.
    pub open spec fn is_new<M: Math<T>>(&self, cfg: CodeDeltaTokConfig) -> bool {
        &&& self.unloaded()
        &&& self.dims() == (DeltaTokDims {
            dim: cfg.feature_dim,
            num_heads: cfg.num_heads,
            intermediate: cfg.spec_intermediate::<T, M>(),
            layer_norm_eps: cfg.layer_norm_eps,
            even: true,
        })
    }

    /// A block without weights.
    pub fn new<M: Math<T>>(cfg: &CodeDeltaTokConfig) -> (r: Self)
        requires
            scalar::mathematics::<T, M>(),
        ensures
            r.is_new::<M>(*cfg),
    {
        let r = DeltaTokBlock {
            dim: cfg.feature_dim,
            num_heads: cfg.num_heads,
            intermediate: cfg.intermediate::<T, M>(),
            layer_norm_eps: cfg.layer_norm_eps,
            norm1_w: AlignedBuffer::empty(),
            norm1_b: AlignedBuffer::empty(),
            norm2_w: AlignedBuffer::empty(),
            norm2_b: AlignedBuffer::empty(),
            w_q: AlignedBuffer::empty(),
            q_bias: AlignedBuffer::empty(),
            w_k: AlignedBuffer::empty(),
            k_bias: AlignedBuffer::empty(),
            w_v: AlignedBuffer::empty(),
            v_bias: AlignedBuffer::empty(),
            w_o: AlignedBuffer::empty(),
            o_bias: AlignedBuffer::empty(),
            mlp_gate_w: AlignedBuffer::empty(),
            mlp_gate_b: AlignedBuffer::empty(),
            mlp_up_w: AlignedBuffer::empty(),
            mlp_up_b: AlignedBuffer::empty(),
            mlp_down_w: AlignedBuffer::empty(),
            mlp_down_b: AlignedBuffer::empty(),
            scale1: AlignedBuffer::empty(),
            scale2: AlignedBuffer::empty(),
        };
        proof {
            assert(Seq::<T>::empty() + Seq::<T>::empty() + Seq::<T>::empty() =~= Seq::<T>::empty());
        }
        r
    }

    /// Assigns a weight by its field name. A fused query, key and value tensor
    /// is split. A name that the block does not know changes nothing.
    pub fn set_weight(&mut self, field: &str, t: &RawTensor<T>)
        requires
            old(self).dims().even,
            field_fits(old(self).dim, field@, t.data@.len()),
        ensures
            final(self).dims() == old(self).dims(),
            forall|n: Seq<char>| #[trigger]
                final(self).field(n) == weights::write(old(self).field(n), n == field@, t.data@),
            ({
                let d = old(self).dim as int;
                let data = t.data@;
                if field@ == "attn.in_proj_weight"@ {
                    &&& final(self).w_q@ == data.subrange(0, d * d)
                    &&& final(self).w_k@ == data.subrange(d * d, 2 * (d * d))
                    &&& final(self).w_v@ == data.subrange(2 * (d * d), 3 * (d * d))
                } else {
                    &&& final(self).w_q == old(self).w_q
                    &&& final(self).w_k == old(self).w_k
                    &&& final(self).w_v == old(self).w_v
                }
            }),
            ({
                let d = old(self).dim as int;
                let data = t.data@;
                if field@ == "attn.in_proj_bias"@ {
                    &&& final(self).q_bias@ == data.subrange(0, d)
                    &&& final(self).k_bias@ == data.subrange(d, 2 * d)
                    &&& final(self).v_bias@ == data.subrange(2 * d, 3 * d)
                } else {
                    &&& final(self).q_bias == old(self).q_bias
                    &&& final(self).k_bias == old(self).k_bias
                    &&& final(self).v_bias == old(self).v_bias
                }
            }),
    {
        let d = self.dim;
        proof {
            lemma_fused_fields_differ();
        }
        if str_eq(field, "attn.in_proj_weight") {
            let dd = t.data.len() / 3;
            proof {
                assert(dd == d * d);
            }
            let all = t.data.as_slice();
            self.w_q = AlignedBuffer::from_slice(slice_subrange(all, 0, dd));
            self.w_k = AlignedBuffer::from_slice(slice_subrange(all, dd, 2 * dd));
            self.w_v = AlignedBuffer::from_slice(slice_subrange(all, 2 * dd, 3 * dd));
            assert(self.w_q@ + self.w_k@ + self.w_v@ =~= t.data@);
        } else if str_eq(field, "attn.in_proj_bias") {
            let all = t.data.as_slice();
            let n = all.len();
            self.q_bias = AlignedBuffer::from_slice(slice_subrange(all, 0, d));
            self.k_bias = AlignedBuffer::from_slice(slice_subrange(all, d, 2 * d));
            self.v_bias = AlignedBuffer::from_slice(slice_subrange(all, 2 * d, 3 * d));
            assert(self.q_bias@ + self.k_bias@ + self.v_bias@ =~= t.data@);
        } else if str_eq(field, "norm1.weight") {
            self.norm1_w = t.data.duplicate();
        } else if str_eq(field, "norm1.bias") {
            self.norm1_b = t.data.duplicate();
        } else if str_eq(field, "norm2.weight") {
            self.norm2_w = t.data.duplicate();
        } else if str_eq(field, "norm2.bias") {
            self.norm2_b = t.data.duplicate();
        } else if str_eq(field, "attn.out_proj.weight") {
            self.w_o = t.data.duplicate();
        } else if str_eq(field, "attn.out_proj.bias") {
            self.o_bias = t.data.duplicate();
        } else if str_eq(field, "mlp_gate.weight") {
            self.mlp_gate_w = t.data.duplicate();
        } else if str_eq(field, "mlp_gate.bias") {
            self.mlp_gate_b = t.data.duplicate();
        } else if str_eq(field, "mlp_up.weight") {
            self.mlp_up_w = t.data.duplicate();
        } else if str_eq(field, "mlp_up.bias") {
            self.mlp_up_b = t.data.duplicate();
        } else if str_eq(field, "mlp_down.weight") {
            self.mlp_down_w = t.data.duplicate();
        } else if str_eq(field, "mlp_down.bias") {
            self.mlp_down_b = t.data.duplicate();
        } else if str_eq(field, "scale1") {
            self.scale1 = t.data.duplicate();
        } else if str_eq(field, "scale2") {
            self.scale2 = t.data.duplicate();
        }
    }

    /// The weights have their sizes. A bias may be missing.
    pub open spec fn wf(&self) -> bool {
        let d = self.dim as nat;
        let inter = self.intermediate as nat;
        &&& self.num_heads > 0
        &&& self.dim % self.num_heads == 0
        &&& d <= self.norm1_w@.len()
        &&& d <= self.norm1_b@.len()
        &&& d <= self.norm2_w@.len()
        &&& d <= self.norm2_b@.len()
        &&& self.w_q@.len() == d * d
        &&& self.w_k@.len() == d * d
        &&& self.w_v@.len() == d * d
        &&& self.w_o@.len() == d * d
        &&& self.q_bias@.len() == 0 || d <= self.q_bias@.len()
        &&& self.k_bias@.len() == 0 || d <= self.k_bias@.len()
        &&& self.v_bias@.len() == 0 || d <= self.v_bias@.len()
        &&& self.o_bias@.len() == 0 || d <= self.o_bias@.len()
        &&& self.mlp_gate_w@.len() == inter * d
        &&& self.mlp_up_w@.len() == inter * d
        &&& self.mlp_down_w@.len() == d * inter
        &&& self.mlp_gate_b@.len() == 0 || inter <= self.mlp_gate_b@.len()
        &&& self.mlp_up_b@.len() == 0 || inter <= self.mlp_up_b@.len()
        &&& self.mlp_down_b@.len() == 0 || d <= self.mlp_down_b@.len()
        &&& d <= self.scale1@.len()
        &&& d <= self.scale2@.len()
    }

    pub open spec fn eps<M: Math<T>>(&self) -> T {
        scalar::binary64_of::<T, M>(self.layer_norm_eps.bits)
    }

    pub open spec fn layout(&self) -> HeadLayout {
        HeadLayout {
            num_heads: self.num_heads,
            num_kv_heads: self.num_heads,
            head_dim: (self.dim as int / self.num_heads as int) as usize,
        }
    }

    /// What the attention sub-layer gives.
    pub open spec fn attn_branch<M: Math<T>>(&self, x: Seq<T>, rows: nat) -> Seq<T> {
        let d = self.dim as nat;
        let h1 = ops::layer_norm_bias_of::<T, M>(
            x,
            self.norm1_w@,
            self.norm1_b@,
            self.eps::<M>(),
            d,
            rows,
        );
        let seen = attention::bidirectional_output::<T, M>(
            self.layout(),
            ops::linear_of(h1, self.w_q@, self.q_bias@, rows, d, d),
            ops::linear_of(h1, self.w_k@, self.k_bias@, rows, d, d),
            ops::linear_of(h1, self.w_v@, self.v_bias@, rows, d, d),
            rows,
        );
        ops::linear_of(seen, self.w_o@, self.o_bias@, rows, d, d)
    }

    /// What the feed-forward sub-layer gives.
    pub open spec fn mlp_branch<M: Math<T>>(&self, y: Seq<T>, rows: nat) -> Seq<T> {
        let d = self.dim as nat;
        let inter = self.intermediate as nat;
        let h2 = ops::layer_norm_bias_of::<T, M>(
            y,
            self.norm2_w@,
            self.norm2_b@,
            self.eps::<M>(),
            d,
            rows,
        );
        let gate = ops::all_activated::<T, M>(
            Activation::Silu,
            ops::linear_of(h2, self.mlp_gate_w@, self.mlp_gate_b@, rows, d, inter),
        );
        let up = ops::linear_of(h2, self.mlp_up_w@, self.mlp_up_b@, rows, d, inter);
        ops::linear_of(
            ops::product_of(gate, up),
            self.mlp_down_w@,
            self.mlp_down_b@,
            rows,
            inter,
            d,
        )
    }

    /// Rows through the block.
    pub open spec fn output<M: Math<T>>(&self, x: Seq<T>, rows: nat) -> Seq<T> {
        let d = self.dim as nat;
        let y = scaled_residual(x, self.scale1@, self.attn_branch::<M>(x, rows), d, rows);
        scaled_residual(y, self.scale2@, self.mlp_branch::<M>(y, rows), d, rows)
    }

    /// `x` has shape `[seq_len, dim]` (flat, row-major). Returns same shape.
    pub fn forward<M: Math<T>>(&self, x: &[T], seq_len: usize) -> (r: Vec<T>)
        requires
            scalar::mathematics::<T, M>(),
            self.wf(),
            x@.len() == seq_len * self.dim,
        ensures
            r@ == self.output::<M>(x@, seq_len as nat),
            r@.len() == seq_len * self.dim,
    {
        let d = self.dim;
        let inter = self.intermediate;
        let eps = M::from_binary64(self.layer_norm_eps.bits);
        proof {
            roberta::lemma_heads_fill(d, self.num_heads);
            vstd::arithmetic::div_mod::lemma_mod_self_0(self.num_heads as int);
        }
        // ── Self-attention sub-layer (pre-norm + LayerScale residual). ──
        let h1 = layernorm_with_bias::<T, M>(
            x,
            self.norm1_w.as_slice(),
            self.norm1_b.as_slice(),
            eps,
            d,
            seq_len,
        );
        let n1 = h1.as_slice();
        let q = linear(n1, self.w_q.as_slice(), self.q_bias.as_slice(), seq_len, d, d);
        let k = linear(n1, self.w_k.as_slice(), self.k_bias.as_slice(), seq_len, d, d);
        let v = linear(n1, self.w_v.as_slice(), self.v_bias.as_slice(), seq_len, d, d);
        // The sequence has no padding, so plain bidirectional attention is exact.
        let layout = HeadLayout {
            num_heads: self.num_heads,
            num_kv_heads: self.num_heads,
            head_dim: d / self.num_heads,
        };
        let attn = bidirectional_attention::<T, M>(
            layout,
            q.as_slice(),
            k.as_slice(),
            v.as_slice(),
            seq_len,
        );
        let attn_out = linear(
            attn.as_slice(),
            self.w_o.as_slice(),
            self.o_bias.as_slice(),
            seq_len,
            d,
            d,
        );
        let y = add_scaled(x, self.scale1.as_slice(), attn_out.as_slice(), d, seq_len);
        // ── Feed-forward sub-layer. ──
        let h2 = layernorm_with_bias::<T, M>(
            y.as_slice(),
            self.norm2_w.as_slice(),
            self.norm2_b.as_slice(),
            eps,
            d,
            seq_len,
        );
        let n2 = h2.as_slice();
        let raw = linear(
            n2,
            self.mlp_gate_w.as_slice(),
            self.mlp_gate_b.as_slice(),
            seq_len,
            d,
            inter,
        );
        let gate = activate_all::<T, M>(Activation::Silu, raw.as_slice());
        let up = linear(
            n2,
            self.mlp_up_w.as_slice(),
            self.mlp_up_b.as_slice(),
            seq_len,
            d,
            inter,
        );
        let fused = mul_vecs(gate.as_slice(), up.as_slice());
        let down = linear(
            fused.as_slice(),
            self.mlp_down_w.as_slice(),
            self.mlp_down_b.as_slice(),
            seq_len,
            inter,
            d,
        );
        add_scaled(y.as_slice(), self.scale2.as_slice(), down.as_slice(), d, seq_len)
    }
}

/// The two fused fields are two.
proof fn lemma_fused_fields_differ()
    ensures
        "attn.in_proj_weight"@ != "attn.in_proj_bias"@,
{
    reveal_strlit("attn.in_proj_weight");
    reveal_strlit("attn.in_proj_bias");
    assert("attn.in_proj_weight"@[13] == 'w');
    assert("attn.in_proj_bias"@[13] == 'b');
}

// ── Head ─────────────────────────────────────────────────────────────

/// CodeDeltaTok encoder/decoder head. Takes pre-computed UniXcoder CLS
/// features and produces a `K × D` delta token and the decoder's
/// `D`-dim reconstruction of the after-state.
pub struct CodeDeltaTokHead<T> {
    pub config: CodeDeltaTokConfig,
    pub z_embed: AlignedBuffer<T>,  // [K*D]
    pub pos_prev: AlignedBuffer<T>,  // [D]
    pub pos_next: AlignedBuffer<T>,  // [D]
    pub pos_z: AlignedBuffer<T>,  // [K*D]
    pub encoder: Vec<DeltaTokBlock<T>>,
    pub enc_norm_w: AlignedBuffer<T>,
    pub enc_norm_b: AlignedBuffer<T>,
    pub decoder: Vec<DeltaTokBlock<T>>,
    pub dec_norm_w: AlignedBuffer<T>,
    pub dec_norm_b: AlignedBuffer<T>,
    pub out_proj_w: AlignedBuffer<T>,  // [D, D]
    pub out_proj_b: AlignedBuffer<T>,  // [D]
}

/// Rows after the first `n` blocks of a stack.
pub open spec fn stacked<T: Scalar, M: Math<T>>(
    blocks: Seq<DeltaTokBlock<T>>,
    x: Seq<T>,
    rows: nat,
    n: nat,
) -> Seq<T>
    decreases n,
{
    if n == 0 {
        x
    } else {
        blocks[n - 1].output::<M>(stacked::<T, M>(blocks, x, rows, (n - 1) as nat), rows)
    }
}

/// All blocks of a stack take rows of `d` elements.
pub open spec fn stack_wf<T: Scalar>(blocks: Seq<DeltaTokBlock<T>>, d: nat) -> bool {
    forall|i: int| 0 <= i < blocks.len() ==> (#[trigger] blocks[i]).wf() && blocks[i].dim == d
}

/// Runs rows through a stack of blocks.
pub fn run_stack<T: Scalar, M: Math<T>>(
    blocks: &Vec<DeltaTokBlock<T>>,
    x: Vec<T>,
    rows: usize,
    d: usize,
) -> (r: Vec<T>)
    requires
        scalar::mathematics::<T, M>(),
        stack_wf(blocks@, d as nat),
        x@.len() == rows * d,
    ensures
        r@ == stacked::<T, M>(blocks@, x@, rows as nat, blocks@.len()),
        r@.len() == rows * d,
{
    let ghost x0 = x@;
    let mut h = x;
    for i in 0..blocks.len()
        invariant
            scalar::mathematics::<T, M>(),
            stack_wf(blocks@, d as nat),
            h@.len() == rows * d,
            h@ == stacked::<T, M>(blocks@, x0, rows as nat, i as nat),
    {
        assert(blocks@[i as int].wf());
        h = blocks[i].forward::<M>(h.as_slice(), rows);
    }
    h
}

/// What a head adds to the features that it is given.
#[verifier::ext_equal]
pub struct HeadParts<T> {
    pub z_embed: Seq<T>,
    pub pos_z: Seq<T>,
    pub pos_prev: Seq<T>,
    pub pos_next: Seq<T>,
}

impl<T: Scalar> HeadParts<T> {
    /// The parts reach over `k` delta tokens of `d` elements.
    pub open spec fn fits(self, k: nat, d: nat) -> bool {
        &&& k * d <= self.z_embed.len()
        &&& k * d <= self.pos_z.len()
        &&& d <= self.pos_prev.len()
        &&& d <= self.pos_next.len()
    }

    /// The rows `[z, prev, next]` that are encoded.
    pub open spec fn encoder_input(self, h_b: Seq<T>, h_a: Seq<T>, k: nat, d: nat) -> Seq<T> {
        ops::sum_of(self.z_embed.take((k * d) as int), self.pos_z) + ops::sum_of(
            h_b.take(d as int),
            self.pos_prev,
        ) + ops::sum_of(h_a.take(d as int), self.pos_next)
    }

    /// The rows `[delta, prev]` that are decoded.
    pub open spec fn decoder_input(self, delta: Seq<T>, h_b: Seq<T>, d: nat) -> Seq<T> {
        previous_behind(delta, h_b, self.pos_prev, d)
    }
}

/// Builds the rows `[z, prev, next]`.
pub fn encoder_rows<T: Scalar>(
    z_embed: &[T],
    pos_z: &[T],
    pos_prev: &[T],
    pos_next: &[T],
    h_b: &[T],
    h_a: &[T],
    k: usize,
    d: usize,
) -> (r: Vec<T>)
    requires
        scalar::arithmetic::<T>(),
        parts_of(z_embed@, pos_z@, pos_prev@, pos_next@).fits(k as nat, d as nat),
        d <= h_b@.len(),
        d <= h_a@.len(),
    ensures
        r@ == parts_of(z_embed@, pos_z@, pos_prev@, pos_next@).encoder_input(
            h_b@,
            h_a@,
            k as nat,
            d as nat,
        ),
        r@.len() == (k + 2) * d,
{
    let n = z_embed.len();
    let z = slice_subrange(z_embed, 0, k * d);
    assert(z@ =~= z_embed@.take(k * d));
    let mut rows = add_vecs(z, pos_z);
    let b = slice_subrange(h_b, 0, d);
    assert(b@ =~= h_b@.take(d as int));
    let prev = add_vecs(b, pos_prev);
    let a = slice_subrange(h_a, 0, d);
    assert(a@ =~= h_a@.take(d as int));
    let next = add_vecs(a, pos_next);
    extend(&mut rows, prev.as_slice());
    extend(&mut rows, next.as_slice());
    assert((k + 2) * d == k * d + d + d) by (nonlinear_arith);
    rows
}

/// `delta` and, behind it, the placed features of the before-state.
pub open spec fn previous_behind<T: Scalar>(
    delta: Seq<T>,
    h_b: Seq<T>,
    pos_prev: Seq<T>,
    d: nat,
) -> Seq<T> {
    delta + ops::sum_of(h_b.take(d as int), pos_prev)
}

/// Builds the rows `[delta, prev]`.
pub fn decoder_rows<T: Scalar>(delta: &[T], pos_prev: &[T], h_b: &[T], d: usize) -> (r: Vec<T>)
    requires
        scalar::arithmetic::<T>(),
        d <= pos_prev@.len(),
        d <= h_b@.len(),
    ensures
        r@ == previous_behind(delta@, h_b@, pos_prev@, d as nat),
        r@.len() == delta@.len() + d,
{
    let mut rows = copy_slice(delta);
    let b = slice_subrange(h_b, 0, d);
    assert(b@ =~= h_b@.take(d as int));
    let prev = add_vecs(b, pos_prev);
    extend(&mut rows, prev.as_slice());
    rows
}

pub open spec fn parts_of<T>(z: Seq<T>, pos_z: Seq<T>, prev: Seq<T>, next: Seq<T>) -> HeadParts<T> {
    HeadParts { z_embed: z, pos_z, pos_prev: prev, pos_next: next }
}

impl<T: Scalar> CodeDeltaTokHead<T> {
    pub open spec fn parts(&self) -> HeadParts<T> {
        parts_of(self.z_embed@, self.pos_z@, self.pos_prev@, self.pos_next@)
    }

    pub open spec fn eps<M: Math<T>>(&self) -> T {
        scalar::binary64_of::<T, M>(self.config.layer_norm_eps.bits)
    }

    /// The weights have their sizes.
    pub open spec fn wf(&self) -> bool {
        let d = self.config.feature_dim as nat;
        let k = self.config.num_delta_tokens as nat;
        &&& k + 2 <= usize::MAX
        &&& self.parts().fits(k, d)
        &&& stack_wf(self.encoder@, d)
        &&& stack_wf(self.decoder@, d)
        &&& d <= self.enc_norm_w@.len()
        &&& d <= self.enc_norm_b@.len()
        &&& d <= self.dec_norm_w@.len()
        &&& d <= self.dec_norm_b@.len()
        &&& self.out_proj_w@.len() == d * d
        &&& self.out_proj_b@.len() == 0 || d <= self.out_proj_b@.len()
    }

    /// The delta tokens of a pair of features: the first rows of the encoded
    /// `[z, prev, next]`.
    pub open spec fn delta_of<M: Math<T>>(&self, h_b: Seq<T>, h_a: Seq<T>) -> Seq<T> {
        let d = self.config.feature_dim as nat;
        let k = self.config.num_delta_tokens as nat;
        let rows = stacked::<T, M>(
            self.encoder@,
            self.parts().encoder_input(h_b, h_a, k, d),
            k + 2,
            self.encoder@.len(),
        );
        ops::layer_norm_bias_of::<T, M>(
            rows,
            self.enc_norm_w@,
            self.enc_norm_b@,
            self.eps::<M>(),
            d,
            k + 2,
        ).take((k * d) as int)
    }

    /// The after-state that delta tokens and a before-state stand for: the
    /// last row of the decoded `[delta, prev]`, projected.
    pub open spec fn reconstruction<M: Math<T>>(&self, delta: Seq<T>, h_b: Seq<T>) -> Seq<T> {
        let d = self.config.feature_dim as nat;
        let k = self.config.num_delta_tokens as nat;
        let rows = stacked::<T, M>(
            self.decoder@,
            self.parts().decoder_input(delta, h_b, d),
            k + 1,
            self.decoder@.len(),
        );
        let normed = ops::layer_norm_bias_of::<T, M>(
            rows,
            self.dec_norm_w@,
            self.dec_norm_b@,
            self.eps::<M>(),
            d,
            k + 1,
        );
        ops::linear_of(
            ops::row(normed, k as int, d as int),
            self.out_proj_w@,
            self.out_proj_b@,
            1,
            d,
            d,
        )
    }

    /// A head without weights.
    pub fn from_config<M: Math<T>>(config: CodeDeltaTokConfig) -> (r: Self)
        requires
            scalar::mathematics::<T, M>(),
        ensures
            r.config == config,
            r.encoder@.len() == config.num_blocks,
            r.decoder@.len() == config.num_blocks,
            forall|i: int|
                0 <= i < config.num_blocks ==> (#[trigger] r.encoder@[i]).is_new::<M>(config),
            forall|i: int|
                0 <= i < config.num_blocks ==> (#[trigger] r.decoder@[i]).is_new::<M>(config),
            forall|s: Slot|
                (#[trigger] r.weight(s)) is Some ==> r.weight(s)->0 == Seq::<T>::empty(),
    {
        let r = CodeDeltaTokHead {
            config,
            z_embed: AlignedBuffer::empty(),
            pos_prev: AlignedBuffer::empty(),
            pos_next: AlignedBuffer::empty(),
            pos_z: AlignedBuffer::empty(),
            encoder: new_blocks::<T, M>(&config),
            enc_norm_w: AlignedBuffer::empty(),
            enc_norm_b: AlignedBuffer::empty(),
            decoder: new_blocks::<T, M>(&config),
            dec_norm_w: AlignedBuffer::empty(),
            dec_norm_b: AlignedBuffer::empty(),
            out_proj_w: AlignedBuffer::empty(),
            out_proj_b: AlignedBuffer::empty(),
        };
        assert forall|s: Slot| (#[trigger] r.weight(s)) is Some implies r.weight(s)->0 == Seq::<
            T,
        >::empty() by {
            match s {
                Slot::Layer(stack, i, field) => {
                    if stack == "encoder"@ && 0 <= i < r.encoder@.len() {
                        assert(r.encoder@[i].is_new::<M>(config));
                        assert(r.encoder@[i].field(field) is Some);
                    } else if stack == "decoder"@ && 0 <= i < r.decoder@.len() {
                        assert(r.decoder@[i].is_new::<M>(config));
                        assert(r.decoder@[i].field(field) is Some);
                    }
                },
                Slot::Top(name) => {},
            }
        }
        r
    }

    /// Encode `(h_b, h_a)` pair (each flat `[D]`) into a flat `[K*D]`
    /// delta-token buffer.
    pub fn encode<M: Math<T>>(&self, h_b: &[T], h_a: &[T]) -> (r: Vec<T>)
        requires
            scalar::mathematics::<T, M>(),
            self.wf(),
            self.config.feature_dim <= h_b@.len(),
            self.config.feature_dim <= h_a@.len(),
        ensures
            r@ == self.delta_of::<M>(h_b@, h_a@),
            r@.len() == self.config.num_delta_tokens * self.config.feature_dim,
    {
        let d = self.config.feature_dim;
        let k = self.config.num_delta_tokens;
        let rows = encoder_rows(
            self.z_embed.as_slice(),
            self.pos_z.as_slice(),
            self.pos_prev.as_slice(),
            self.pos_next.as_slice(),
            h_b,
            h_a,
            k,
            d,
        );
        let h = run_stack::<T, M>(&self.encoder, rows, k + 2, d);
        let normed = layernorm_with_bias::<T, M>(
            h.as_slice(),
            self.enc_norm_w.as_slice(),
            self.enc_norm_b.as_slice(),
            M::from_binary64(self.config.layer_norm_eps.bits),
            d,
            k + 2,
        );
        // The first K positions, flattened.
        first_rows(normed.as_slice(), k, d)
    }

    /// Decode `(delta, h_b)` back into a flat `[D]` reconstruction of the
    /// after-state.
    pub fn decode<M: Math<T>>(&self, delta: &[T], h_b: &[T]) -> (r: Vec<T>)
        requires
            scalar::mathematics::<T, M>(),
            self.wf(),
            delta@.len() == self.config.num_delta_tokens * self.config.feature_dim,
            self.config.feature_dim <= h_b@.len(),
        ensures
            r@ == self.reconstruction::<M>(delta@, h_b@),
            r@.len() == self.config.feature_dim,
    {
        let d = self.config.feature_dim;
        let k = self.config.num_delta_tokens;
        let rows = decoder_rows(delta, self.pos_prev.as_slice(), h_b, d);
        assert((k + 1) * d == k * d + d) by (nonlinear_arith);
        let h = run_stack::<T, M>(&self.decoder, rows, k + 1, d);
        let normed = layernorm_with_bias::<T, M>(
            h.as_slice(),
            self.dec_norm_w.as_slice(),
            self.dec_norm_b.as_slice(),
            M::from_binary64(self.config.layer_norm_eps.bits),
            d,
            k + 1,
        );
        // Take the prev position (index K, after the K delta slots).
        linear(
            row_slice(normed.as_slice(), k, d),
            self.out_proj_w.as_slice(),
            self.out_proj_b.as_slice(),
            1,
            d,
            d,
        )
    }

    // ── weight loading ───────────────────────────────────────────────

    /// All target weight keys this head expects.
    pub fn expected_weight_keys(&self) -> (r: Vec<String>)
        ensures
            weights::texts(r@) == self.expected(),
    {
        let mut keys: Vec<String> = Vec::new();
        keys.push("z_embed".to_owned());
        keys.push("pos_prev".to_owned());
        keys.push("pos_next".to_owned());
        keys.push("pos_z".to_owned());
        keys.push("encoder_norm.weight".to_owned());
        keys.push("encoder_norm.bias".to_owned());
        keys.push("decoder_norm.weight".to_owned());
        keys.push("decoder_norm.bias".to_owned());
        keys.push("out_proj.weight".to_owned());
        keys.push("out_proj.bias".to_owned());
        let ghost head = seq!["z_embed"@, "pos_prev"@, "pos_next"@, "pos_z"@, "encoder_norm.weight"@, "encoder_norm.bias"@, "decoder_norm.weight"@, "decoder_norm.bias"@, "out_proj.weight"@, "out_proj.bias"@];
        assert(weights::texts(keys@) =~= head);
        push_stack_keys(&mut keys, "encoder[", self.encoder.len());
        push_stack_keys(&mut keys, "decoder[", self.decoder.len());
        keys
    }

    /// Assigns a weight by its key. A key that the head does not know changes
    /// nothing.
    pub fn set_weight(&mut self, key: &str, t: &RawTensor<T>)
        requires
            Self::loadable(old(self).structure()),
            Self::fits(old(self).structure(), key@, t.data@.len()),
        ensures
            final(self).structure() == old(self).structure(),
            forall|s: Slot| #[trigger]
                final(self).weight(s) == weights::write(
                    old(self).weight(s),
                    Self::slot(key@) == Some(s),
                    t.data@,
                ),
    {
        let ghost start = *self;
        proof {
            lemma_stacks_differ();
        }
        if str_eq(key, "z_embed") {
            self.z_embed = t.data.duplicate();
        } else if str_eq(key, "pos_prev") {
            self.pos_prev = t.data.duplicate();
        } else if str_eq(key, "pos_next") {
            self.pos_next = t.data.duplicate();
        } else if str_eq(key, "pos_z") {
            self.pos_z = t.data.duplicate();
        } else if str_eq(key, "encoder_norm.weight") {
            self.enc_norm_w = t.data.duplicate();
        } else if str_eq(key, "encoder_norm.bias") {
            self.enc_norm_b = t.data.duplicate();
        } else if str_eq(key, "decoder_norm.weight") {
            self.dec_norm_w = t.data.duplicate();
        } else if str_eq(key, "decoder_norm.bias") {
            self.dec_norm_b = t.data.duplicate();
        } else if str_eq(key, "out_proj.weight") {
            self.out_proj_w = t.data.duplicate();
        } else if str_eq(key, "out_proj.bias") {
            self.out_proj_b = t.data.duplicate();
        } else {
            match parse_block_key(key) {
                Some((tag, idx, field)) => {
                    if str_eq(tag, "encoder") {
                        if idx < self.encoder.len() {
                            assert(start.structure().encoder[idx as int]
                                == self.encoder@[idx as int].dims());
                            self.encoder[idx].set_weight(field, t);
                            assert(self.structure().encoder =~= start.structure().encoder);
                        }
                    } else if idx < self.decoder.len() {
                        assert(start.structure().decoder[idx as int]
                            == self.decoder@[idx as int].dims());
                        self.decoder[idx].set_weight(field, t);
                        assert(self.structure().decoder =~= start.structure().decoder);
                    }
                },
                None => {},
            }
        }
    }

    /// Load weights from source tensors whose keys are renamed by `mapping`.
    pub fn load_weights(&mut self, weights: &TensorMap<T>, mapping: KeyMapping) -> (r: Result<
        LoadResult,
        WeightError,
    >)
        requires
            weights.wf(),
            Self::loadable(old(self).structure()),
            weights::all_fit(*old(self), *weights, mapping.mapping@),
        ensures
            r is Ok,
            final(self).structure() == old(self).structure(),
            weights::loaded_as(*old(self), *final(self), *weights, mapping, r),
    {
        load_mapped(self, weights, mapping)
    }
}

/// The first `k` rows of `d` elements.
pub fn first_rows<T: Copy>(x: &[T], k: usize, d: usize) -> (r: Vec<T>)
    requires
        k + 2 <= usize::MAX,
        x@.len() == (k + 2) * d,
    ensures
        r@ == x@.take(k * d),
        r@.len() == k * d,
{
    let n = x.len();
    assert((k + 2) * d == k * d + d + d) by (nonlinear_arith);
    assert(0 <= k * d) by (nonlinear_arith);
    let s = slice_subrange(x, 0, k * d);
    assert(s@ =~= x@.take(k * d));
    copy_slice(s)
}

/// The blocks of a stack without weights.
fn new_blocks<T: Scalar, M: Math<T>>(cfg: &CodeDeltaTokConfig) -> (r: Vec<DeltaTokBlock<T>>)
    requires
        scalar::mathematics::<T, M>(),
    ensures
        r@.len() == cfg.num_blocks,
        forall|i: int| 0 <= i < r@.len() ==> (#[trigger] r@[i]).is_new::<M>(*cfg),
{
    let mut blocks: Vec<DeltaTokBlock<T>> = Vec::with_capacity(cfg.num_blocks);
    for n in 0..cfg.num_blocks
        invariant
            scalar::mathematics::<T, M>(),
            blocks@.len() == n,
            forall|i: int| 0 <= i < n ==> (#[trigger] blocks@[i]).is_new::<M>(*cfg),
    {
        blocks.push(DeltaTokBlock::new::<M>(cfg));
    }
    blocks
}

/// The keys of the first `n` blocks of a stack.
pub open spec fn stack_keys(prefix: Seq<char>, n: nat) -> Seq<Seq<char>> {
    ops::blocks(n, |i: int| deltatok_keys(prefix, i as nat))
}

/// Adds the keys of a stack's blocks to a list.
fn push_stack_keys(keys: &mut Vec<String>, prefix: &str, count: usize)
    ensures
        weights::texts(final(keys)@) == weights::texts(old(keys)@) + stack_keys(
            prefix@,
            count as nat,
        ),
{
    let ghost before = weights::texts(keys@);
    assert(before + stack_keys(prefix@, 0) =~= before);
    for i in 0..count
        invariant
            weights::texts(keys@) == before + stack_keys(prefix@, i as nat),
    {
        push_block_keys(keys, prefix, i);
        assert(weights::texts(keys@) =~= before + stack_keys(prefix@, (i + 1) as nat));
    }
}

// ── Keys ─────────────────────────────────────────────────────────────

/// Splits the key of a block's weight into stack, index and field.
pub open spec fn split_block_key(key: Seq<char>) -> Option<(Seq<char>, usize, Seq<char>)> {
    if "encoder["@.is_prefix_of(key) {
        match text::split_indexed_key("encoder["@, key) {
            Some((i, field)) => Some(("encoder"@, i, field)),
            None => None,
        }
    } else if "decoder["@.is_prefix_of(key) {
        match text::split_indexed_key("decoder["@, key) {
            Some((i, field)) => Some(("decoder"@, i, field)),
            None => None,
        }
    } else {
        None
    }
}

/// Parse `"encoder[3].attn.in_proj_weight"` → `("encoder", 3, "attn.in_proj_weight")`.
pub fn parse_block_key<'a>(key: &'a str) -> (r: Option<(&'a str, usize, &'a str)>)
    ensures
        match r {
            Some((tag, i, field)) => split_block_key(key@) == Some((tag@, i, field@)),
            None => split_block_key(key@) is None,
        },
{
    if starts_with(key, "encoder[") {
        match parse_indexed_key("encoder[", key) {
            Some((i, field)) => Some(("encoder", i, field)),
            None => None,
        }
    } else if starts_with(key, "decoder[") {
        match parse_indexed_key("decoder[", key) {
            Some((i, field)) => Some(("decoder", i, field)),
            None => None,
        }
    } else {
        None
    }
}

/// The names of the two stacks differ.
proof fn lemma_stacks_differ()
    ensures
        "encoder"@ != "decoder"@,
{
    reveal_strlit("encoder");
    reveal_strlit("decoder");
    assert("encoder"@[0] == 'e');
    assert("decoder"@[0] == 'd');
}

/// Splitting the key of an encoder or decoder block's weight gives the stack,
/// the index and the field back.
pub proof fn lemma_block_key_roundtrip(index: nat, field: Seq<char>)
    requires
        index <= usize::MAX,
    ensures
        split_block_key(text::indexed_key("encoder["@, index, field)) == Some(
            ("encoder"@, index as usize, field),
        ),
        split_block_key(text::indexed_key("decoder["@, index, field)) == Some(
            ("decoder"@, index as usize, field),
        ),
{
    reveal_strlit("encoder[");
    reveal_strlit("decoder[");
    text::lemma_indexed_key_roundtrip("encoder["@, index, field);
    text::lemma_indexed_key_roundtrip("decoder["@, index, field);
    let e = text::indexed_key("encoder["@, index, field);
    let d = text::indexed_key("decoder["@, index, field);
    assert(e.take("encoder["@.len() as int) =~= "encoder["@);
    assert("encoder["@.is_prefix_of(e));
    assert("decoder["@.is_prefix_of(d));
    assert(d[0] == 'd');
    assert("encoder["@[0] == 'e');
}

// ── Loading ──────────────────────────────────────────────────────────

/// What loading leaves as it is of a head.
pub struct DeltaTokStructure {
    pub config: CodeDeltaTokConfig,
    pub encoder: Seq<DeltaTokDims>,
    pub decoder: Seq<DeltaTokDims>,
}

impl<T: Scalar> WeightTarget<T> for CodeDeltaTokHead<T> {
    type Structure = DeltaTokStructure;

    open spec fn structure(&self) -> DeltaTokStructure {
        DeltaTokStructure {
            config: self.config,
            encoder: self.encoder@.map_values(|b: DeltaTokBlock<T>| b.dims()),
            decoder: self.decoder@.map_values(|b: DeltaTokBlock<T>| b.dims()),
        }
    }

    open spec fn slot(key: Seq<char>) -> Option<Slot> {
        if key == "z_embed"@ || key == "pos_prev"@ || key == "pos_next"@ || key == "pos_z"@ || key
            == "encoder_norm.weight"@ || key == "encoder_norm.bias"@ || key
            == "decoder_norm.weight"@ || key == "decoder_norm.bias"@ || key == "out_proj.weight"@
            || key == "out_proj.bias"@ {
            Some(Slot::Top(key))
        } else {
            match split_block_key(key) {
                Some((stack, i, field)) => Some(Slot::Layer(stack, i as int, field)),
                None => None,
            }
        }
    }

    open spec fn weight(&self, slot: Slot) -> Option<Seq<T>> {
        match slot {
            Slot::Top(name) => if name == "z_embed"@ {
                Some(self.z_embed@)
            } else if name == "pos_prev"@ {
                Some(self.pos_prev@)
            } else if name == "pos_next"@ {
                Some(self.pos_next@)
            } else if name == "pos_z"@ {
                Some(self.pos_z@)
            } else if name == "encoder_norm.weight"@ {
                Some(self.enc_norm_w@)
            } else if name == "encoder_norm.bias"@ {
                Some(self.enc_norm_b@)
            } else if name == "decoder_norm.weight"@ {
                Some(self.dec_norm_w@)
            } else if name == "decoder_norm.bias"@ {
                Some(self.dec_norm_b@)
            } else if name == "out_proj.weight"@ {
                Some(self.out_proj_w@)
            } else if name == "out_proj.bias"@ {
                Some(self.out_proj_b@)
            } else {
                None
            },
            Slot::Layer(stack, i, field) => if stack == "encoder"@ && 0 <= i
                < self.encoder@.len() {
                self.encoder@[i].field(field)
            } else if stack == "decoder"@ && 0 <= i < self.decoder@.len() {
                self.decoder@[i].field(field)
            } else {
                None
            },
        }
    }

    /// Every weight that the model has stands in a buffer.
    open spec fn vacant(&self, slot: Slot) -> bool {
        false
    }

    /// A head takes tensors of any shape.
    open spec fn refusal(
        structure: DeltaTokStructure,
        key: Seq<char>,
        shape: Seq<usize>,
    ) -> Option<Refusal> {
        None
    }

    /// The parts of fused tensors that are there have the same lengths.
    open spec fn loadable(structure: DeltaTokStructure) -> bool {
        &&& forall|i: int|
            0 <= i < structure.encoder.len() ==> (#[trigger] structure.encoder[i]).even
        &&& forall|i: int|
            0 <= i < structure.decoder.len() ==> (#[trigger] structure.decoder[i]).even
    }

    /// A fused tensor has the length that its block asks for.
    open spec fn fits(structure: DeltaTokStructure, key: Seq<char>, len: nat) -> bool {
        match split_block_key(key) {
            Some((stack, i, field)) => {
                &&& stack == "encoder"@ && i < structure.encoder.len() ==> field_fits(
                    structure.encoder[i as int].dim,
                    field,
                    len,
                )
                &&& stack == "decoder"@ && i < structure.decoder.len() ==> field_fits(
                    structure.decoder[i as int].dim,
                    field,
                    len,
                )
            },
            None => true,
        }
    }

    open spec fn expected(&self) -> Seq<Seq<char>> {
        seq![
            "z_embed"@,
            "pos_prev"@,
            "pos_next"@,
            "pos_z"@,
            "encoder_norm.weight"@,
            "encoder_norm.bias"@,
            "decoder_norm.weight"@,
            "decoder_norm.bias"@,
            "out_proj.weight"@,
            "out_proj.bias"@,
        ] + stack_keys("encoder["@, self.encoder@.len()) + stack_keys(
            "decoder["@,
            self.decoder@.len(),
        )
    }

    fn put(&mut self, key: &str, tensor: &RawTensor<T>) -> (r: Result<(), WeightError>) {
        self.set_weight(key, tensor);
        Ok(())
    }

    fn expected_keys(&self) -> (r: Vec<String>) {
        self.expected_weight_keys()
    }
}

/// A block key is none of the head's own keys.
proof fn lemma_block_key_is_no_top_key(i: nat, field: Seq<char>)
    ensures
        ({
            let e = text::indexed_key("encoder["@, i, field);
            let d = text::indexed_key("decoder["@, i, field);
            &&& e != "z_embed"@ && d != "z_embed"@
            &&& e != "pos_prev"@ && d != "pos_prev"@
            &&& e != "pos_next"@ && d != "pos_next"@
            &&& e != "pos_z"@ && d != "pos_z"@
            &&& e != "encoder_norm.weight"@ && d != "encoder_norm.weight"@
            &&& e != "encoder_norm.bias"@ && d != "encoder_norm.bias"@
            &&& e != "decoder_norm.weight"@ && d != "decoder_norm.weight"@
            &&& e != "decoder_norm.bias"@ && d != "decoder_norm.bias"@
            &&& e != "out_proj.weight"@ && d != "out_proj.weight"@
            &&& e != "out_proj.bias"@ && d != "out_proj.bias"@
        }),
{
    reveal_strlit("encoder[");
    reveal_strlit("decoder[");
    reveal_strlit("z_embed");
    reveal_strlit("pos_prev");
    reveal_strlit("pos_next");
    reveal_strlit("pos_z");
    reveal_strlit("encoder_norm.weight");
    reveal_strlit("encoder_norm.bias");
    reveal_strlit("decoder_norm.weight");
    reveal_strlit("decoder_norm.bias");
    reveal_strlit("out_proj.weight");
    reveal_strlit("out_proj.bias");
    let e = text::indexed_key("encoder["@, i, field);
    let d = text::indexed_key("decoder["@, i, field);
    assert(e[0] == 'e' && e[7] == '[');
    assert(d[0] == 'd' && d[7] == '[');
    assert("z_embed"@[0] == 'z');
    assert("pos_prev"@[0] == 'p');
    assert("pos_next"@[0] == 'p');
    assert("pos_z"@[0] == 'p');
    assert("encoder_norm.weight"@[7] == '_');
    assert("encoder_norm.bias"@[7] == '_');
    assert("decoder_norm.weight"@[7] == '_');
    assert("decoder_norm.bias"@[7] == '_');
    assert("out_proj.weight"@[0] == 'o');
    assert("out_proj.bias"@[0] == 'o');
}

impl<T: Scalar> CodeDeltaTokHead<T> {
    /// Every expected key leads to a weight that the head has.
    pub proof fn lemma_expected_keys_lead(&self)
        ensures
            weights::all_lead::<T, Self>(*self, self.expected()),
    {
        let n = self.encoder@.len();
        let m = self.decoder@.len();
        assert(self.encoder.len() == n && self.decoder.len() == m);
        lemma_stacks_differ();
        let e = |i: int| deltatok_keys("encoder["@, i as nat);
        assert forall|i: int| 0 <= i < n implies weights::all_lead::<T, Self>(
            *self,
            #[trigger] e(i),
        ) by {
            assert forall|j: int| 0 <= j < e(i).len() implies weights::leads_to_weight::<T, Self>(
                *self,
                #[trigger] e(i)[j],
            ) by {
                let field = deltatok_fields()[j];
                lemma_block_key_roundtrip(i as nat, field);
                lemma_block_key_is_no_top_key(i as nat, field);
                assert(e(i)[j] == text::indexed_key("encoder["@, i as nat, field));
                assert(self.encoder@[i].field(field) is Some);
            }
        }
        let d = |i: int| deltatok_keys("decoder["@, i as nat);
        assert forall|i: int| 0 <= i < m implies weights::all_lead::<T, Self>(
            *self,
            #[trigger] d(i),
        ) by {
            assert forall|j: int| 0 <= j < d(i).len() implies weights::leads_to_weight::<T, Self>(
                *self,
                #[trigger] d(i)[j],
            ) by {
                let field = deltatok_fields()[j];
                lemma_block_key_roundtrip(i as nat, field);
                lemma_block_key_is_no_top_key(i as nat, field);
                assert(d(i)[j] == text::indexed_key("decoder["@, i as nat, field));
                assert(self.decoder@[i].field(field) is Some);
            }
        }
        weights::lemma_blocks_lead::<T, Self>(*self, n, e);
        weights::lemma_blocks_lead::<T, Self>(*self, m, d);
        let first = seq![
            "z_embed"@,
            "pos_prev"@,
            "pos_next"@,
            "pos_z"@,
            "encoder_norm.weight"@,
            "encoder_norm.bias"@,
            "decoder_norm.weight"@,
            "decoder_norm.bias"@,
            "out_proj.weight"@,
            "out_proj.bias"@,
        ];
        weights::lemma_lists_lead::<T, Self>(*self, first, ops::blocks(n, e));
        weights::lemma_lists_lead::<T, Self>(
            *self,
            first + ops::blocks(n, e),
            ops::blocks(m, d),
        );
    }
}

} // verus!
