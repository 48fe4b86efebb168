//! CodeWorldModel (CWM) — text-token world model for code edits.
//!
//! Architecture: weight-shared looped encoder + tiny action MLP + 2-block
//! looped predictor. Unlike LeWM (which uses DiT-style adaLN), CWM uses
//! vanilla pre-norm transformer blocks with standard multi-head attention.
//!
//! Pipeline (per forward):
//! - tokens → embedding → CLS prepend → + positional encoding
//!   → shared block × encoder_loops → CLS row → LayerNorm
//! - action → Linear → GELU → Linear
//! - (z_state, z_action) → two rows → each block × predictor_loops
//!   → row 0 → LayerNorm

use vstd::prelude::*;
use vstd::slice::slice_subrange;

use crate::attention;
use crate::attention::{bidirectional_attention, HeadLayout};
use crate::buffer;
use crate::buffer::{copy_slice, extend, filled, AlignedBuffer, RawTensor};
use crate::config::{Binary64, BITS_1E_5};
use crate::gelu;
use crate::gelu::{erf, gate_half, INV_SQRT_2, SQRT_2_OVER_PI, TANH_CUBIC};
use crate::json;
use crate::json::{parse, Json, JsonTree};
use crate::models::vision::LoadStats;
use crate::ops;
use crate::ops::{add_vecs, layernorm_with_bias, linear, row_slice};
use crate::scalar;
use crate::scalar::{Math, Scalar};
use crate::text;
use crate::text::{parse_dotted_key, str_eq, strip_prefix};
use crate::weights;
use crate::weights::{TensorMap, WeightError};

verus! {

/// GELU activation variant: PyTorch's `nn.GELU()` defaults to exact erf (`approximate='none'`).
/// The tanh approximation is `nn.GELU(approximate='tanh')`. These differ by ~4e-4 max.
#[derive(Debug, Clone, Copy, PartialEq, Eq, Structural)]
pub enum GeluKind {
    Erf,
    Tanh,
}

impl GeluKind {
    /// `tanh` names the tanh form, anything else the exact form.
    pub fn from_str(s: &str) -> (r: Self)
        ensures
            r == if s@ == "tanh"@ {
                GeluKind::Tanh
            } else {
                GeluKind::Erf
            },
    {
        if str_eq(s, "tanh") {
            GeluKind::Tanh
        } else {
            GeluKind::Erf
        }
    }
}

/// Configuration for a CodeWorldModel.
#[derive(Debug, Clone, Copy, PartialEq, Eq, Structural)]
pub struct CodeWorldModelConfig {
    pub vocab_size: usize,  // 662
    pub max_seq_len: usize,  // 512
    pub model_dim: usize,  // 128
    pub num_heads: usize,  // 4
    pub head_dim: usize,  // 32
    pub mlp_hidden: usize,  // 512
    pub encoder_loops: usize,  // 6
    pub predictor_depth: usize,  // 2
    pub predictor_loops: usize,  // 6
    pub action_dim: usize,  // 7
    pub layernorm_eps: Binary64,  // 1e-5
    pub gelu_kind: GeluKind,  // Erf (PyTorch default)
}

impl CodeWorldModelConfig {
    /// G8 / G1b default (they share the same architecture, different weights).
    pub fn g8() -> (r: Self)
        ensures
            r == (CodeWorldModelConfig {
                vocab_size: 662,
                max_seq_len: 512,
                model_dim: 128,
                num_heads: 4,
                head_dim: 32,
                mlp_hidden: 512,
                encoder_loops: 6,
                predictor_depth: 2,
                predictor_loops: 6,
                action_dim: 7,
                layernorm_eps: Binary64 { bits: BITS_1E_5 },
                gelu_kind: GeluKind::Erf,
            }),
    {
        CodeWorldModelConfig {
            vocab_size: 662,
            max_seq_len: 512,
            model_dim: 128,
            num_heads: 4,
            head_dim: 32,
            mlp_hidden: 512,
            encoder_loops: 6,
            predictor_depth: 2,
            predictor_loops: 6,
            action_dim: 7,
            layernorm_eps: Binary64 { bits: BITS_1E_5 },
            gelu_kind: GeluKind::Erf,
        }
    }

    /// The heads of the attention.
    pub open spec fn layout(&self) -> HeadLayout {
        HeadLayout {
            num_heads: self.num_heads,
            num_kv_heads: self.num_heads,
            head_dim: self.head_dim,
        }
    }

    /// The heads make up a row of `model_dim` elements.
    pub open spec fn heads_fit(&self) -> bool {
        &&& self.num_heads > 0
        &&& self.num_heads * self.head_dim == self.model_dim
        &&& 3 * self.model_dim <= usize::MAX
    }

    /// The buffers have lengths that are machine integers.
    pub open spec fn sizes_fit(&self) -> bool {
        let d = self.model_dim;
        &&& 3 * d <= usize::MAX
        &&& (3 * d) * d <= usize::MAX
        &&& self.max_seq_len < usize::MAX
        &&& self.vocab_size * d <= usize::MAX
        &&& (self.max_seq_len + 1) * d <= usize::MAX
        &&& self.mlp_hidden * d <= usize::MAX
        &&& d * self.mlp_hidden <= usize::MAX
        &&& d * self.action_dim <= usize::MAX
    }
}

// ── GELU ─────────────────────────────────────────────────────────────

/// `0.5 x (1 + erf(x / sqrt(2)))`, the quotient taken as a product.
pub open spec fn gelu_erf_of<T: Scalar, M: Math<T>>(x: T) -> T {
    gelu::half_gated::<T, M>(
        x,
        gelu::erf_of::<T, M>(scalar::times(x, gelu::constant::<T, M>(INV_SQRT_2))),
    )
}

/// `0.5 x (1 + tanh(sqrt(2 / pi) (x + 0.044715 x^3)))`
pub open spec fn gelu_tanh_of<T: Scalar, M: Math<T>>(x: T) -> T {
    let cubic = scalar::times(
        scalar::times(scalar::times(gelu::constant::<T, M>(TANH_CUBIC), x), x),
        x,
    );
    gelu::half_gated::<T, M>(
        x,
        scalar::tanh_of::<T, M>(
            scalar::times(gelu::constant::<T, M>(SQRT_2_OVER_PI), scalar::plus(x, cubic)),
        ),
    )
}

/// GELU in its exact form.
pub fn gelu_erf<T: Scalar, M: Math<T>>(x: T) -> (r: T)
    requires
        scalar::mathematics::<T, M>(),
    ensures
        r == gelu_erf_of::<T, M>(x),
{
    let e = erf::<T, M>(x * M::from_binary64(INV_SQRT_2));
    gate_half::<T, M>(x, e)
}

/// GELU in its tanh form.
pub fn gelu_tanh<T: Scalar, M: Math<T>>(x: T) -> (r: T)
    requires
        scalar::mathematics::<T, M>(),
    ensures
        r == gelu_tanh_of::<T, M>(x),
{
    let cubic = M::from_binary64(TANH_CUBIC) * x * x * x;
    let y = M::tanh(M::from_binary64(SQRT_2_OVER_PI) * (x + cubic));
    gate_half::<T, M>(x, y)
}

pub open spec fn gelu_of<T: Scalar, M: Math<T>>(kind: GeluKind, x: T) -> T {
    match kind {
        GeluKind::Erf => gelu_erf_of::<T, M>(x),
        GeluKind::Tanh => gelu_tanh_of::<T, M>(x),
    }
}

/// Every element under GELU.
pub open spec fn gelued<T: Scalar, M: Math<T>>(kind: GeluKind, x: Seq<T>) -> Seq<T> {
    Seq::new(x.len(), |i: int| gelu_of::<T, M>(kind, x[i]))
}

/// Applies GELU to every element.
pub fn apply_gelu<T: Scalar, M: Math<T>>(x: &[T], kind: GeluKind) -> (r: Vec<T>)
    requires
        scalar::mathematics::<T, M>(),
    ensures
        r@ == gelued::<T, M>(kind, x@),
{
    let mut out: Vec<T> = Vec::with_capacity(x.len());
    for i in 0..x.len()
        invariant
            scalar::mathematics::<T, M>(),
            out@ == gelued::<T, M>(kind, x@.take(i as int)),
    {
        let y = match kind {
            GeluKind::Erf => gelu_erf::<T, M>(x[i]),
            GeluKind::Tanh => gelu_tanh::<T, M>(x[i]),
        };
        out.push(y);
        assert(out@ =~= gelued::<T, M>(kind, x@.take(i + 1)));
    }
    assert(x@.take(x@.len() as int) =~= x@);
    out
}

// ── Module weights ───────────────────────────────────────────────────

pub struct LinearWeights<T> {
    pub weight: AlignedBuffer<T>,  // [out_dim, in_dim] row-major
    pub bias: AlignedBuffer<T>,  // [out_dim]
    pub out_dim: usize,
    pub in_dim: usize,
}

impl<T> LinearWeights<T> {
    /// An `[n, k]` layer whose buffers have their lengths.
    pub open spec fn maps(&self, k: nat, n: nat) -> bool {
        &&& self.in_dim == k
        &&& self.out_dim == n
        &&& self.weight@.len() == n * k
        &&& self.bias@.len() == 0 || n <= self.bias@.len()
    }
}

impl<T: Scalar> LinearWeights<T> {
    /// `m` rows through the layer.
    pub open spec fn output(&self, x: Seq<T>, m: nat) -> Seq<T> {
        ops::linear_of(x, self.weight@, self.bias@, m, self.in_dim as nat, self.out_dim as nat)
    }

    /// A layer whose weights are all zero.
    pub fn zeroed(out_dim: usize, in_dim: usize) -> (r: Self)
        requires
            scalar::arithmetic::<T>(),
            out_dim * in_dim <= usize::MAX,
        ensures
            r.weight@ == buffer::repeated(scalar::zero::<T>(), (out_dim * in_dim) as nat),
            r.bias@ == buffer::repeated(scalar::zero::<T>(), out_dim as nat),
            r.out_dim == out_dim,
            r.in_dim == in_dim,
            r.maps(in_dim as nat, out_dim as nat),
    {
        LinearWeights {
            weight: AlignedBuffer::from_vec(filled(T::default(), out_dim * in_dim)),
            bias: AlignedBuffer::from_vec(filled(T::default(), out_dim)),
            out_dim,
            in_dim,
        }
    }

    /// y = x @ W.T + b, where x: [m, in_dim], returns [m, out_dim].
    pub fn forward(&self, x: &[T], m: usize) -> (r: Vec<T>)
        requires
            scalar::arithmetic::<T>(),
            self.maps(self.in_dim as nat, self.out_dim as nat),
            x@.len() == m * self.in_dim,
        ensures
            r@ == self.output(x@, m as nat),
            r@.len() == m * self.out_dim,
    {
        linear(x, self.weight.as_slice(), self.bias.as_slice(), m, self.in_dim, self.out_dim)
    }
}

pub struct LayerNormWeights<T> {
    pub weight: AlignedBuffer<T>,  // [dim]
    pub bias: AlignedBuffer<T>,  // [dim]
    pub dim: usize,
    pub eps: Binary64,
}

impl<T> LayerNormWeights<T> {
    /// A norm of rows of `d` elements whose buffers have their lengths.
    pub open spec fn norms(&self, d: nat) -> bool {
        &&& self.dim == d
        &&& d <= self.weight@.len()
        &&& d <= self.bias@.len()
    }
}

impl<T: Scalar> LayerNormWeights<T> {
    /// Each of `rows` rows under the norm.
    pub open spec fn output<M: Math<T>>(&self, x: Seq<T>, rows: nat) -> Seq<T> {
        ops::layer_norm_bias_of::<T, M>(
            x,
            self.weight@,
            self.bias@,
            scalar::binary64_of::<T, M>(self.eps.bits),
            self.dim as nat,
            rows,
        )
    }

    /// A norm whose weights are all zero.
    pub fn zeroed(dim: usize, eps: Binary64) -> (r: Self)
        requires
            scalar::arithmetic::<T>(),
        ensures
            r.weight@ == buffer::repeated(scalar::zero::<T>(), dim as nat),
            r.bias@ == buffer::repeated(scalar::zero::<T>(), dim as nat),
            r.dim == dim,
            r.eps == eps,
            r.norms(dim as nat),
    {
        LayerNormWeights {
            weight: AlignedBuffer::from_vec(filled(T::default(), dim)),
            bias: AlignedBuffer::from_vec(filled(T::default(), dim)),
            dim,
            eps,
        }
    }

    /// Normalises each of `rows` rows.
    pub fn forward<M: Math<T>>(&self, x: &[T], rows: usize) -> (r: Vec<T>)
        requires
            scalar::mathematics::<T, M>(),
            self.norms(self.dim as nat),
            x@.len() == rows * self.dim,
        ensures
            r@ == self.output::<M>(x@, rows as nat),
            r@.len() == rows * self.dim,
    {
        layernorm_with_bias::<T, M>(
            x,
            self.weight.as_slice(),
            self.bias.as_slice(),
            M::from_binary64(self.eps.bits),
            self.dim,
            rows,
        )
    }
}

// ── Transformer block (vanilla pre-norm) ─────────────────────────────

pub struct TransformerBlock<T> {
    pub norm1: LayerNormWeights<T>,
    pub attn_in_proj: LinearWeights<T>,  // [3*D, D] fused QKV
    pub attn_out_proj: LinearWeights<T>,  // [D, D]
    pub norm2: LayerNormWeights<T>,
    pub mlp_up: LinearWeights<T>,  // [mlp_hidden, D]
    pub mlp_down: LinearWeights<T>,  // [D, mlp_hidden]
}

/// Part `part` of each of the fused rows: queries (0), keys (1) or values (2).
pub open spec fn fused_part<T>(qkv: Seq<T>, rows: nat, d: nat, part: int) -> Seq<T> {
    ops::blocks(rows, |t: int| ops::row(ops::row(qkv, t, 3 * d as int), part, d as int))
}

/// Split the fused QKV output `[seq_len, 3*D]` into `(q, k, v)`, each `[seq_len, D]`.
/// The fused weight holds the rows of Wq, Wk and Wv in this order, so the last
/// dim is Q|K|V.
pub fn split_qkv<T: Copy>(qkv: &[T], seq_len: usize, d: usize) -> (r: (Vec<T>, Vec<T>, Vec<T>))
    requires
        3 * d <= usize::MAX,
        qkv@.len() == seq_len * (3 * d),
    ensures
        r.0@ == fused_part(qkv@, seq_len as nat, d as nat, 0),
        r.1@ == fused_part(qkv@, seq_len as nat, d as nat, 1),
        r.2@ == fused_part(qkv@, seq_len as nat, d as nat, 2),
        r.0@.len() == seq_len * d,
        r.1@.len() == seq_len * d,
        r.2@.len() == seq_len * d,
{
    let mut q: Vec<T> = Vec::new();
    let mut k: Vec<T> = Vec::new();
    let mut v: Vec<T> = Vec::new();
    assert(0 * d == 0) by (nonlinear_arith);
    for t in 0..seq_len
        invariant
            3 * d <= usize::MAX,
            qkv@.len() == seq_len * (3 * d),
            q@ == fused_part(qkv@, t as nat, d as nat, 0),
            k@ == fused_part(qkv@, t as nat, d as nat, 1),
            v@ == fused_part(qkv@, t as nat, d as nat, 2),
            q@.len() == t * d,
            k@.len() == t * d,
            v@.len() == t * d,
    {
        proof {
            ops::lemma_row_bounds(t as int, seq_len as int, 3 * d as int);
            assert((t + 1) * d == t * d + d) by (nonlinear_arith);
        }
        let row = row_slice(qkv, t, 3 * d);
        extend(&mut q, row_slice(row, 0, d));
        extend(&mut k, row_slice(row, 1, d));
        extend(&mut v, row_slice(row, 2, d));
        assert(q@ =~= fused_part(qkv@, (t + 1) as nat, d as nat, 0));
        assert(k@ =~= fused_part(qkv@, (t + 1) as nat, d as nat, 1));
        assert(v@ =~= fused_part(qkv@, (t + 1) as nat, d as nat, 2));
    }
    (q, k, v)
}

/// Every intermediate of a block's forward pass.
pub struct LoopTrace<T> {
    pub norm1: Vec<T>,
    pub attn: Vec<T>,
    pub res1: Vec<T>,
    pub norm2: Vec<T>,
    pub mlp: Vec<T>,
    pub res2: Vec<T>,
}

impl<T: Scalar> TransformerBlock<T> {
    /// The layers have the dimensions of the configuration.
    pub open spec fn shaped(&self, cfg: CodeWorldModelConfig) -> bool {
        let d = cfg.model_dim as nat;
        &&& self.norm1.norms(d)
        &&& self.attn_in_proj.maps(d, (3 * cfg.model_dim) as nat)
        &&& self.attn_out_proj.maps(d, d)
        &&& self.norm2.norms(d)
        &&& self.mlp_up.maps(d, cfg.mlp_hidden as nat)
        &&& self.mlp_down.maps(cfg.mlp_hidden as nat, d)
    }

    /// Rows can go through the block.
    pub open spec fn wf(&self, cfg: CodeWorldModelConfig) -> bool {
        cfg.heads_fit() && self.shaped(cfg)
    }

    /// What the attention branch adds.
    pub open spec fn attn_branch<M: Math<T>>(
        &self,
        x: Seq<T>,
        rows: nat,
        cfg: CodeWorldModelConfig,
    ) -> Seq<T> {
        let d = cfg.model_dim as nat;
        let qkv = self.attn_in_proj.output(self.norm1.output::<M>(x, rows), rows);
        self.attn_out_proj.output(
            attention::bidirectional_output::<T, M>(
                cfg.layout(),
                fused_part(qkv, rows, d, 0),
                fused_part(qkv, rows, d, 1),
                fused_part(qkv, rows, d, 2),
                rows,
            ),
            rows,
        )
    }

    /// What the MLP branch adds.
    pub open spec fn mlp_branch<M: Math<T>>(
        &self,
        x: Seq<T>,
        rows: nat,
        cfg: CodeWorldModelConfig,
    ) -> Seq<T> {
        let up = self.mlp_up.output(self.norm2.output::<M>(x, rows), rows);
        self.mlp_down.output(gelued::<T, M>(cfg.gelu_kind, up), rows)
    }

    /// Rows through the block.
    pub open spec fn output<M: Math<T>>(
        &self,
        x: Seq<T>,
        rows: nat,
        cfg: CodeWorldModelConfig,
    ) -> Seq<T> {
        let res1 = ops::sum_of(x, self.attn_branch::<M>(x, rows, cfg));
        ops::sum_of(res1, self.mlp_branch::<M>(res1, rows, cfg))
    }

    /// A block whose weights are all zero.
    pub open spec fn is_zero(&self, cfg: CodeWorldModelConfig) -> bool {
        &&& self.norm1.weight@ == buffer::repeated(scalar::zero::<T>(), cfg.model_dim as nat)
        &&& self.norm1.bias@ == buffer::repeated(scalar::zero::<T>(), cfg.model_dim as nat)
        &&& self.norm1.eps == cfg.layernorm_eps
        &&& zero_linear(self.attn_in_proj)
        &&& zero_linear(self.attn_out_proj)
        &&& self.norm2.weight@ == buffer::repeated(scalar::zero::<T>(), cfg.model_dim as nat)
        &&& self.norm2.bias@ == buffer::repeated(scalar::zero::<T>(), cfg.model_dim as nat)
        &&& self.norm2.eps == cfg.layernorm_eps
        &&& zero_linear(self.mlp_up)
        &&& zero_linear(self.mlp_down)
        &&& self.shaped(cfg)
    }

    pub fn zeroed(cfg: &CodeWorldModelConfig) -> (r: Self)
        requires
            scalar::arithmetic::<T>(),
            cfg.sizes_fit(),
        ensures
            r.is_zero(*cfg),
    {
        let d = cfg.model_dim;
        proof {
            assert(d * d <= (3 * d) * d) by (nonlinear_arith);
        }
        TransformerBlock {
            norm1: LayerNormWeights::zeroed(d, cfg.layernorm_eps),
            attn_in_proj: LinearWeights::zeroed(3 * d, d),
            attn_out_proj: LinearWeights::zeroed(d, d),
            norm2: LayerNormWeights::zeroed(d, cfg.layernorm_eps),
            mlp_up: LinearWeights::zeroed(cfg.mlp_hidden, d),
            mlp_down: LinearWeights::zeroed(d, cfg.mlp_hidden),
        }
    }

    /// Forward pass that also returns all intermediate activations.
    pub fn forward_debug<M: Math<T>>(
        &self,
        x: &[T],
        seq_len: usize,
        cfg: &CodeWorldModelConfig,
    ) -> (r: (Vec<T>, LoopTrace<T>))
        requires
            scalar::mathematics::<T, M>(),
            self.wf(*cfg),
            x@.len() == seq_len * cfg.model_dim,
        ensures
            r.0@ == self.output::<M>(x@, seq_len as nat, *cfg),
            r.0@.len() == seq_len * cfg.model_dim,
            self.traced::<M>(x@, seq_len as nat, *cfg, r.1),
    {
        let d = cfg.model_dim;
        let ghost rows = seq_len as nat;
        // ── Attention branch ──
        let normed1 = self.norm1.forward::<M>(x, seq_len);
        let qkv = self.attn_in_proj.forward(normed1.as_slice(), seq_len);
        let (q, k, v) = split_qkv(qkv.as_slice(), seq_len, d);
        let layout = HeadLayout {
            num_heads: cfg.num_heads,
            num_kv_heads: cfg.num_heads,
            head_dim: cfg.head_dim,
        };
        proof {
            vstd::arithmetic::div_mod::lemma_mod_self_0(cfg.num_heads as int);
        }
        let attn_out = bidirectional_attention::<T, M>(
            layout,
            q.as_slice(),
            k.as_slice(),
            v.as_slice(),
            seq_len,
        );
        let attn_proj = self.attn_out_proj.forward(attn_out.as_slice(), seq_len);
        let res1 = add_vecs(x, attn_proj.as_slice());
        // ── MLP branch ──
        let normed2 = self.norm2.forward::<M>(res1.as_slice(), seq_len);
        let raw = self.mlp_up.forward(normed2.as_slice(), seq_len);
        let up = apply_gelu::<T, M>(raw.as_slice(), cfg.gelu_kind);
        let down = self.mlp_down.forward(up.as_slice(), seq_len);
        let res2 = add_vecs(res1.as_slice(), down.as_slice());
        let out = copy_slice(res2.as_slice());
        (
            out,
            LoopTrace { norm1: normed1, attn: attn_proj, res1, norm2: normed2, mlp: down, res2 },
        )
    }

    /// What a trace of a forward pass holds.
    pub open spec fn traced<M: Math<T>>(
        &self,
        x: Seq<T>,
        rows: nat,
        cfg: CodeWorldModelConfig,
        trace: LoopTrace<T>,
    ) -> bool {
        let attn = self.attn_branch::<M>(x, rows, cfg);
        let res1 = ops::sum_of(x, attn);
        &&& trace.norm1@ == self.norm1.output::<M>(x, rows)
        &&& trace.attn@ == attn
        &&& trace.res1@ == res1
        &&& trace.norm2@ == self.norm2.output::<M>(res1, rows)
        &&& trace.mlp@ == self.mlp_branch::<M>(res1, rows, cfg)
        &&& trace.res2@ == self.output::<M>(x, rows, cfg)
    }

    /// Forward pass: PreNorm → MHA → +res → PreNorm → MLP → +res.
    ///
    /// Input x: [seq_len, model_dim] row-major. Returns [seq_len, model_dim].
    pub fn forward<M: Math<T>>(&self, x: &[T], seq_len: usize, cfg: &CodeWorldModelConfig) -> (r:
        Vec<T>)
        requires
            scalar::mathematics::<T, M>(),
            self.wf(*cfg),
            x@.len() == seq_len * cfg.model_dim,
        ensures
            r@ == self.output::<M>(x@, seq_len as nat, *cfg),
            r@.len() == seq_len * cfg.model_dim,
    {
        let (out, _) = self.forward_debug::<M>(x, seq_len, cfg);
        out
    }
}

/// A linear layer whose weights are all zero.
pub open spec fn zero_linear<T: Scalar>(l: LinearWeights<T>) -> bool {
    &&& l.weight@ == buffer::repeated(scalar::zero::<T>(), (l.out_dim * l.in_dim) as nat)
    &&& l.bias@ == buffer::repeated(scalar::zero::<T>(), l.out_dim as nat)
}

// ── CodeWorldModel ───────────────────────────────────────────────────

/// Stepwise activation trace of the encoder.
pub struct EncoderTrace<T> {
    pub after_embed: Vec<T>,
    pub after_cls_prepend: Vec<T>,
    pub after_pe: Vec<T>,
    pub loops: Vec<LoopTrace<T>>,
    pub cls_extracted: Vec<T>,
    pub encoder_final: Vec<T>,
    pub seq_len_with_cls: usize,
    pub model_dim: usize,
}

/// Stepwise activation trace of the predictor.
pub struct PredictorTrace<T> {
    pub stacked: Vec<T>,
    // blocks[block_idx][loop_idx]
    pub blocks: Vec<Vec<LoopTrace<T>>>,
    pub token0_extracted: Vec<T>,
    pub pred_final: Vec<T>,
    pub model_dim: usize,
}

pub struct CodeWorldModel<T> {
    pub config: CodeWorldModelConfig,
    // Encoder
    pub token_embedding: AlignedBuffer<T>,  // [vocab_size, model_dim]
    pub cls_token: AlignedBuffer<T>,  // [model_dim]
    pub pos_enc: AlignedBuffer<T>,  // [max_seq_len+1, model_dim]
    pub encoder_block: TransformerBlock<T>,
    pub encoder_final_norm: LayerNormWeights<T>,
    // Action encoder (Linear → GELU → Linear)
    pub action_fc1: LinearWeights<T>,  // [model_dim, action_dim]
    pub action_fc2: LinearWeights<T>,  // [model_dim, model_dim]
    // Predictor: distinct blocks, each looped predictor_loops times
    pub predictor_blocks: Vec<TransformerBlock<T>>,
    pub predictor_final_norm: LayerNormWeights<T>,
}

/// Rows after `n` passes through a block.
pub open spec fn looped<T: Scalar, M: Math<T>>(
    block: TransformerBlock<T>,
    x: Seq<T>,
    rows: nat,
    cfg: CodeWorldModelConfig,
    n: nat,
) -> Seq<T>
    decreases n,
{
    if n == 0 {
        x
    } else {
        block.output::<M>(looped::<T, M>(block, x, rows, cfg, (n - 1) as nat), rows, cfg)
    }
}

/// Runs rows through a block `n` times.
fn run_loops<T: Scalar, M: Math<T>>(
    block: &TransformerBlock<T>,
    x: Vec<T>,
    rows: usize,
    cfg: &CodeWorldModelConfig,
    n: usize,
) -> (r: Vec<T>)
    requires
        scalar::mathematics::<T, M>(),
        block.wf(*cfg),
        x@.len() == rows * cfg.model_dim,
    ensures
        r@ == looped::<T, M>(*block, x@, rows as nat, *cfg, n as nat),
        r@.len() == rows * cfg.model_dim,
{
    let ghost x0 = x@;
    let mut h = x;
    for i in 0..n
        invariant
            scalar::mathematics::<T, M>(),
            block.wf(*cfg),
            h@.len() == rows * cfg.model_dim,
            h@ == looped::<T, M>(*block, x0, rows as nat, *cfg, i as nat),
    {
        h = block.forward::<M>(h.as_slice(), rows, cfg);
    }
    h
}

/// The traces of `n` passes through a block, one for each.
pub open spec fn loops_traced<T: Scalar, M: Math<T>>(
    block: TransformerBlock<T>,
    x: Seq<T>,
    rows: nat,
    cfg: CodeWorldModelConfig,
    traces: Seq<LoopTrace<T>>,
) -> bool {
    forall|i: int|
        0 <= i < traces.len() ==> block.traced::<M>(
            looped::<T, M>(block, x, rows, cfg, i as nat),
            rows,
            cfg,
            #[trigger] traces[i],
        )
}

/// Runs rows through a block `n` times, with a trace of each pass.
fn trace_loops<T: Scalar, M: Math<T>>(
    block: &TransformerBlock<T>,
    x: Vec<T>,
    rows: usize,
    cfg: &CodeWorldModelConfig,
    n: usize,
) -> (r: (Vec<T>, Vec<LoopTrace<T>>))
    requires
        scalar::mathematics::<T, M>(),
        block.wf(*cfg),
        x@.len() == rows * cfg.model_dim,
    ensures
        r.0@ == looped::<T, M>(*block, x@, rows as nat, *cfg, n as nat),
        r.0@.len() == rows * cfg.model_dim,
        r.1@.len() == n,
        loops_traced::<T, M>(*block, x@, rows as nat, *cfg, r.1@),
{
    let ghost x0 = x@;
    let mut h = x;
    let mut traces: Vec<LoopTrace<T>> = Vec::with_capacity(n);
    for i in 0..n
        invariant
            scalar::mathematics::<T, M>(),
            block.wf(*cfg),
            h@.len() == rows * cfg.model_dim,
            h@ == looped::<T, M>(*block, x0, rows as nat, *cfg, i as nat),
            traces@.len() == i,
            loops_traced::<T, M>(*block, x0, rows as nat, *cfg, traces@),
    {
        let (next, trace) = block.forward_debug::<M>(h.as_slice(), rows, cfg);
        h = next;
        traces.push(trace);
    }
    (h, traces)
}

impl<T: Scalar> CodeWorldModel<T> {
    /// The encoder's weights have their sizes.
    pub open spec fn encoder_wf(&self) -> bool {
        let d = self.config.model_dim as nat;
        &&& self.config.max_seq_len < usize::MAX
        &&& self.token_embedding@.len() == self.config.vocab_size * d
        &&& self.cls_token@.len() == d
        &&& self.pos_enc@.len() == (self.config.max_seq_len + 1) * d
        &&& self.encoder_block.wf(self.config)
        &&& self.encoder_final_norm.norms(d)
    }

    /// The action encoder's weights have their sizes.
    pub open spec fn action_wf(&self) -> bool {
        let d = self.config.model_dim as nat;
        &&& self.action_fc1.maps(self.config.action_dim as nat, d)
        &&& self.action_fc2.maps(d, d)
    }

    /// The predictor's weights have their sizes.
    pub open spec fn predictor_wf(&self) -> bool {
        &&& self.config.heads_fit()
        &&& forall|i: int|
            0 <= i < self.predictor_blocks@.len() ==> (#[trigger] self.predictor_blocks@[i]).wf(
                self.config,
            )
        &&& self.predictor_final_norm.norms(self.config.model_dim as nat)
    }

    /// The tokens that are encoded: as many as there are positions for.
    pub open spec fn visible(&self, tokens: Seq<i64>) -> Seq<i64> {
        if tokens.len() > self.config.max_seq_len {
            tokens.take(self.config.max_seq_len as int)
        } else {
            tokens
        }
    }

    /// The encoded tokens are in the vocabulary.
    pub open spec fn known(&self, tokens: Seq<i64>) -> bool {
        forall|i: int|
            0 <= i < self.visible(tokens).len() ==> 0 <= #[trigger] tokens[i]
                < self.config.vocab_size
    }

    /// The embeddings of the tokens.
    pub open spec fn embeddings(&self, tokens: Seq<i64>) -> Seq<T> {
        ops::blocks(
            tokens.len(),
            |i: int|
                ops::row(self.token_embedding@, tokens[i] as int, self.config.model_dim as int),
        )
    }

    /// The CLS row and the embeddings, each with its position added.
    pub open spec fn placed(&self, tokens: Seq<i64>) -> Seq<T> {
        ops::sum_of(self.cls_token@ + self.embeddings(tokens), self.pos_enc@)
    }

    /// All rows after the encoder's loops.
    pub open spec fn encoded_rows<M: Math<T>>(&self, tokens: Seq<i64>) -> Seq<T> {
        looped::<T, M>(
            self.encoder_block,
            self.placed(tokens),
            tokens.len() + 1,
            self.config,
            self.config.encoder_loops as nat,
        )
    }

    /// The latent of a sequence of tokens.
    pub open spec fn latent<M: Math<T>>(&self, tokens: Seq<i64>) -> Seq<T> {
        let shown = self.visible(tokens);
        self.encoder_final_norm.output::<M>(
            self.encoded_rows::<M>(shown).take(self.config.model_dim as int),
            1,
        )
    }

    /// The latent of an action.
    pub open spec fn action_latent<M: Math<T>>(&self, action: Seq<T>) -> Seq<T> {
        self.action_fc2.output(
            gelued::<T, M>(self.config.gelu_kind, self.action_fc1.output(action, 1)),
            1,
        )
    }

    /// The two rows after the first `n` predictor blocks.
    pub open spec fn predictor_rows<M: Math<T>>(&self, x: Seq<T>, n: nat) -> Seq<T>
        decreases n,
    {
        if n == 0 {
            x
        } else {
            looped::<T, M>(
                self.predictor_blocks@[n - 1],
                self.predictor_rows::<M>(x, (n - 1) as nat),
                2,
                self.config,
                self.config.predictor_loops as nat,
            )
        }
    }

    /// The latent predicted for a state and an action.
    pub open spec fn prediction<M: Math<T>>(&self, z_state: Seq<T>, z_action: Seq<T>) -> Seq<T> {
        self.predictor_final_norm.output::<M>(
            self.predictor_rows::<M>(z_state + z_action, self.predictor_blocks@.len()).take(
                self.config.model_dim as int,
            ),
            1,
        )
    }

    pub fn from_config(cfg: &CodeWorldModelConfig) -> (r: Self)
        requires
            scalar::arithmetic::<T>(),
            cfg.sizes_fit(),
        ensures
            r.config == *cfg,
            r.token_embedding@ == buffer::repeated(
                scalar::zero::<T>(),
                (cfg.vocab_size * cfg.model_dim) as nat,
            ),
            r.cls_token@ == buffer::repeated(scalar::zero::<T>(), cfg.model_dim as nat),
            r.pos_enc@ == buffer::repeated(
                scalar::zero::<T>(),
                ((cfg.max_seq_len + 1) * cfg.model_dim) as nat,
            ),
            r.encoder_block.is_zero(*cfg),
            zero_norm(r.encoder_final_norm, *cfg),
            zero_linear(r.action_fc1),
            zero_linear(r.action_fc2),
            r.predictor_blocks@.len() == cfg.predictor_depth,
            forall|i: int|
                0 <= i < cfg.predictor_depth ==> (#[trigger] r.predictor_blocks@[i]).is_zero(*cfg),
            zero_norm(r.predictor_final_norm, *cfg),
            r.action_wf(),
            cfg.heads_fit() ==> r.encoder_wf() && r.predictor_wf(),
    {
        let d = cfg.model_dim;
        let zero = T::default();
        let pe_rows = cfg.max_seq_len + 1;
        let mut predictor_blocks: Vec<TransformerBlock<T>> = Vec::with_capacity(
            cfg.predictor_depth,
        );
        for n in 0..cfg.predictor_depth
            invariant
                scalar::arithmetic::<T>(),
                cfg.sizes_fit(),
                predictor_blocks@.len() == n,
                forall|i: int| 0 <= i < n ==> (#[trigger] predictor_blocks@[i]).is_zero(*cfg),
        {
            predictor_blocks.push(TransformerBlock::zeroed(cfg));
        }
        proof {
            assert(d * d <= (3 * d) * d) by (nonlinear_arith);
        }
        CodeWorldModel {
            config: *cfg,
            token_embedding: AlignedBuffer::from_vec(filled(zero, cfg.vocab_size * d)),
            cls_token: AlignedBuffer::from_vec(filled(zero, d)),
            pos_enc: AlignedBuffer::from_vec(filled(zero, pe_rows * d)),
            encoder_block: TransformerBlock::zeroed(cfg),
            encoder_final_norm: LayerNormWeights::zeroed(d, cfg.layernorm_eps),
            action_fc1: LinearWeights::zeroed(d, cfg.action_dim),
            action_fc2: LinearWeights::zeroed(d, d),
            predictor_blocks,
            predictor_final_norm: LayerNormWeights::zeroed(d, cfg.layernorm_eps),
        }
    }

    /// The embeddings of the tokens.
    fn embed(&self, tokens: &[i64]) -> (r: Vec<T>)
        requires
            self.encoder_wf(),
            forall|i: int| 0 <= i < tokens@.len() ==> 0 <= #[trigger] tokens@[i]
                < self.config.vocab_size,
        ensures
            r@ == self.embeddings(tokens@),
            r@.len() == tokens@.len() * self.config.model_dim,
    {
        let d = self.config.model_dim;
        let vocab = self.config.vocab_size;
        let ghost f = |i: int| ops::row(self.token_embedding@, tokens@[i] as int, d as int);
        let mut out: Vec<T> = Vec::new();
        assert(0 * d == 0) by (nonlinear_arith);
        for i in 0..tokens.len()
            invariant
                d == self.config.model_dim,
                vocab == self.config.vocab_size,
                self.token_embedding@.len() == vocab * d,
                forall|i: int| 0 <= i < tokens@.len() ==> 0 <= #[trigger] tokens@[i] < vocab,
                f == (|i: int| ops::row(self.token_embedding@, tokens@[i] as int, d as int)),
                out@ == ops::blocks(i as nat, f),
                out@.len() == i * d,
        {
            assert(0 <= tokens@[i as int] < vocab);
            let t = tokens[i] as usize;
            proof {
                ops::lemma_row_bounds(t as int, vocab as int, d as int);
                assert((i + 1) * d == i * d + d) by (nonlinear_arith);
            }
            extend(&mut out, row_slice(self.token_embedding.as_slice(), t, d));
            assert(out@ =~= ops::blocks((i + 1) as nat, f));
        }
        out
    }

    /// The tokens that are encoded.
    fn shown<'a>(&self, tokens: &'a [i64]) -> (r: &'a [i64])
        ensures
            r@ == self.visible(tokens@),
    {
        if tokens.len() > self.config.max_seq_len {
            let s = slice_subrange(tokens, 0, self.config.max_seq_len);
            assert(s@ =~= tokens@.take(self.config.max_seq_len as int));
            s
        } else {
            tokens
        }
    }

    proof fn lemma_placed_len(&self, tokens: Seq<i64>)
        requires
            self.encoder_wf(),
            tokens.len() <= self.config.max_seq_len,
            self.embeddings(tokens).len() == tokens.len() * self.config.model_dim,
        ensures
            self.placed(tokens).len() == (tokens.len() + 1) * self.config.model_dim,
            self.config.model_dim <= (tokens.len() + 1) * self.config.model_dim,
    {
        let n = tokens.len();
        let d = self.config.model_dim as nat;
        let rows = (self.config.max_seq_len + 1) as nat;
        assert((n + 1) * d == n * d + d) by (nonlinear_arith);
        assert((n + 1) * d <= rows * d) by (nonlinear_arith)
            requires
                n + 1 <= rows,
        ;
        assert(d <= (n + 1) * d) by (nonlinear_arith);
    }

    /// The CLS row and the embeddings of tokens, each with its position added.
    pub fn place_tokens(&self, tokens: &[i64]) -> (r: Vec<T>)
        requires
            scalar::arithmetic::<T>(),
            self.encoder_wf(),
            tokens@.len() <= self.config.max_seq_len,
            self.known(tokens@),
        ensures
            r@ == self.placed(tokens@),
            r@.len() == (tokens@.len() + 1) * self.config.model_dim,
            self.config.model_dim <= r@.len(),
    {
        // 1. Token embedding + CLS prepend
        let embedded = self.embed(tokens);
        let mut h = copy_slice(self.cls_token.as_slice());
        extend(&mut h, embedded.as_slice());
        // 2. Add positional encoding
        proof {
            self.lemma_placed_len(tokens@);
        }
        add_vecs(h.as_slice(), self.pos_enc.as_slice())
    }

    /// The latent in encoded rows: the CLS row under the final norm.
    pub fn read_latent<M: Math<T>>(&self, rows: &[T]) -> (r: Vec<T>)
        requires
            scalar::mathematics::<T, M>(),
            self.encoder_wf(),
            self.config.model_dim <= rows@.len(),
        ensures
            r@ == self.encoder_final_norm.output::<M>(
                rows@.take(self.config.model_dim as int),
                1,
            ),
            r@.len() == self.config.model_dim,
    {
        let cls = slice_subrange(rows, 0, self.config.model_dim);
        assert(cls@ =~= rows@.take(self.config.model_dim as int));
        self.encoder_final_norm.forward::<M>(cls, 1)
    }

    /// Encode token IDs to a latent. A sequence longer than max_seq_len is
    /// truncated. Returns `[model_dim]`.
    pub fn encode<M: Math<T>>(&self, tokens: &[i64]) -> (r: Vec<T>)
        requires
            scalar::mathematics::<T, M>(),
            self.encoder_wf(),
            self.known(tokens@),
        ensures
            r@ == self.latent::<M>(tokens@),
            r@.len() == self.config.model_dim,
    {
        let shown = self.shown(tokens);
        assert(self.known(shown@)) by {
            assert forall|i: int| 0 <= i < shown@.len() implies 0 <= #[trigger] shown@[i]
                < self.config.vocab_size by {
                assert(shown@[i] == tokens@[i]);
            }
        }
        let placed = self.place_tokens(shown);
        // Loops of the shared transformer block
        let rows = run_loops::<T, M>(
            &self.encoder_block,
            placed,
            shown.len() + 1,
            &self.config,
            self.config.encoder_loops,
        );
        self.read_latent::<M>(rows.as_slice())
    }

    /// Encode action vector (length action_dim) to a latent.
    pub fn encode_action<M: Math<T>>(&self, action: &[T]) -> (r: Vec<T>)
        requires
            scalar::mathematics::<T, M>(),
            self.action_wf(),
            action@.len() == self.config.action_dim,
        ensures
            r@ == self.action_latent::<M>(action@),
            r@.len() == self.config.model_dim,
    {
        let raw = self.action_fc1.forward(action, 1);
        let h = apply_gelu::<T, M>(raw.as_slice(), self.config.gelu_kind);
        self.action_fc2.forward(h.as_slice(), 1)
    }

    /// Encode tokens, returning every intermediate activation.
    pub fn encode_debug<M: Math<T>>(&self, tokens: &[i64]) -> (r: EncoderTrace<T>)
        requires
            scalar::mathematics::<T, M>(),
            self.encoder_wf(),
            self.known(tokens@),
        ensures
            ({
                let shown = self.visible(tokens@);
                let rows = (shown.len() + 1) as nat;
                &&& r.after_embed@ == self.embeddings(shown)
                &&& r.after_cls_prepend@ == self.cls_token@ + self.embeddings(shown)
                &&& r.after_pe@ == self.placed(shown)
                &&& r.loops@.len() == self.config.encoder_loops
                &&& loops_traced::<T, M>(
                    self.encoder_block,
                    self.placed(shown),
                    rows,
                    self.config,
                    r.loops@,
                )
                &&& r.cls_extracted@ == self.encoded_rows::<M>(shown).take(
                    self.config.model_dim as int,
                )
                &&& r.encoder_final@ == self.latent::<M>(tokens@)
                &&& r.seq_len_with_cls == rows
                &&& r.model_dim == self.config.model_dim
            }),
    {
        let d = self.config.model_dim;
        let shown = self.shown(tokens);
        proof {
            assert forall|i: int| 0 <= i < shown@.len() implies 0 <= #[trigger] shown@[i]
                < self.config.vocab_size by {
                assert(shown@[i] == tokens@[i]);
            }
        }
        let after_embed = self.embed(shown);
        let mut after_cls_prepend = copy_slice(self.cls_token.as_slice());
        extend(&mut after_cls_prepend, after_embed.as_slice());
        let after_pe = add_vecs(after_cls_prepend.as_slice(), self.pos_enc.as_slice());
        let n = shown.len();
        proof {
            self.lemma_placed_len(shown@);
        }
        let (rows, loops) = trace_loops::<T, M>(
            &self.encoder_block,
            copy_slice(after_pe.as_slice()),
            n + 1,
            &self.config,
            self.config.encoder_loops,
        );
        let cls_extracted = copy_slice(slice_subrange(rows.as_slice(), 0, d));
        assert(cls_extracted@ =~= rows@.take(d as int));
        let encoder_final = self.encoder_final_norm.forward::<M>(cls_extracted.as_slice(), 1);
        EncoderTrace {
            after_embed,
            after_cls_prepend,
            after_pe,
            loops,
            cls_extracted,
            encoder_final,
            seq_len_with_cls: n + 1,
            model_dim: d,
        }
    }

    /// Predict next latent from (z_state, z_action). Both must be length model_dim.
    pub fn predict<M: Math<T>>(&self, z_state: &[T], z_action: &[T]) -> (r: Vec<T>)
        requires
            scalar::mathematics::<T, M>(),
            self.predictor_wf(),
            z_state@.len() == self.config.model_dim,
            z_action@.len() == self.config.model_dim,
        ensures
            r@ == self.prediction::<M>(z_state@, z_action@),
            r@.len() == self.config.model_dim,
    {
        let d = self.config.model_dim;
        // Stack [z_state, z_action] into [2, D].
        let mut x = copy_slice(z_state);
        extend(&mut x, z_action);
        let ghost x0 = x@;
        // Distinct blocks, predictor_loops each.
        for i in 0..self.predictor_blocks.len()
            invariant
                scalar::mathematics::<T, M>(),
                self.predictor_wf(),
                d == self.config.model_dim,
                x@.len() == 2 * d,
                x@ == self.predictor_rows::<M>(x0, i as nat),
        {
            assert(self.predictor_blocks@[i as int].wf(self.config));
            x =
            run_loops::<T, M>(
                &self.predictor_blocks[i],
                x,
                2,
                &self.config,
                self.config.predictor_loops,
            );
        }
        // Extract token 0 and apply final LayerNorm.
        let tok0 = slice_subrange(x.as_slice(), 0, d);
        assert(tok0@ =~= x@.take(d as int));
        self.predictor_final_norm.forward::<M>(tok0, 1)
    }

    /// Predict, returning every intermediate activation.
    pub fn predict_debug<M: Math<T>>(&self, z_state: &[T], z_action: &[T]) -> (r: PredictorTrace<T>)
        requires
            scalar::mathematics::<T, M>(),
            self.predictor_wf(),
            z_state@.len() == self.config.model_dim,
            z_action@.len() == self.config.model_dim,
        ensures
            r.stacked@ == z_state@ + z_action@,
            r.blocks@.len() == self.predictor_blocks@.len(),
            forall|i: int|
                0 <= i < r.blocks@.len() ==> {
                    &&& (#[trigger] r.blocks@[i])@.len() == self.config.predictor_loops
                    &&& loops_traced::<T, M>(
                        self.predictor_blocks@[i],
                        self.predictor_rows::<M>(z_state@ + z_action@, i as nat),
                        2,
                        self.config,
                        r.blocks@[i]@,
                    )
                },
            r.token0_extracted@ == self.predictor_rows::<M>(
                z_state@ + z_action@,
                self.predictor_blocks@.len(),
            ).take(self.config.model_dim as int),
            r.pred_final@ == self.prediction::<M>(z_state@, z_action@),
            r.model_dim == self.config.model_dim,
    {
        let d = self.config.model_dim;
        let mut stacked = copy_slice(z_state);
        extend(&mut stacked, z_action);
        let ghost x0 = stacked@;
        let mut x = copy_slice(stacked.as_slice());
        let mut blocks: Vec<Vec<LoopTrace<T>>> = Vec::with_capacity(self.predictor_blocks.len());
        for n in 0..self.predictor_blocks.len()
            invariant
                scalar::mathematics::<T, M>(),
                self.predictor_wf(),
                d == self.config.model_dim,
                x@.len() == 2 * d,
                x@ == self.predictor_rows::<M>(x0, n as nat),
                blocks@.len() == n,
                forall|i: int|
                    0 <= i < n ==> {
                        &&& (#[trigger] blocks@[i])@.len() == self.config.predictor_loops
                        &&& loops_traced::<T, M>(
                            self.predictor_blocks@[i],
                            self.predictor_rows::<M>(x0, i as nat),
                            2,
                            self.config,
                            blocks@[i]@,
                        )
                    },
        {
            assert(self.predictor_blocks@[n as int].wf(self.config));
            let (next, traces) = trace_loops::<T, M>(
                &self.predictor_blocks[n],
                x,
                2,
                &self.config,
                self.config.predictor_loops,
            );
            x = next;
            blocks.push(traces);
        }
        let token0_extracted = copy_slice(slice_subrange(x.as_slice(), 0, d));
        assert(token0_extracted@ =~= x@.take(d as int));
        let pred_final = self.predictor_final_norm.forward::<M>(token0_extracted.as_slice(), 1);
        PredictorTrace { stacked, blocks, token0_extracted, pred_final, model_dim: d }
    }
}

/// A norm of the configuration whose weights are all zero.
pub open spec fn zero_norm<T: Scalar>(n: LayerNormWeights<T>, cfg: CodeWorldModelConfig) -> bool {
    &&& n.weight@ == buffer::repeated(scalar::zero::<T>(), cfg.model_dim as nat)
    &&& n.bias@ == buffer::repeated(scalar::zero::<T>(), cfg.model_dim as nat)
    &&& n.dim == cfg.model_dim
    &&& n.eps == cfg.layernorm_eps
}

// ── Checkpoints ──────────────────────────────────────────────────────

/// Where a CodeWorldModel keeps a weight.
pub enum CodeSlot {
    /// A weight of the model itself, under its checkpoint key.
    Own(Seq<char>),
    /// A field of the encoder's block.
    Encoder(Seq<char>),
    /// A field of a predictor block.
    Predictor(int, Seq<char>),
}

/// The keys of the model's own weights.
pub open spec fn is_own_key(key: Seq<char>) -> bool {
    ||| key == "state_encoder.embedding.weight"@
    ||| key == "state_encoder.cls_token"@
    ||| key == "state_encoder.pos_enc.pe"@
    ||| key == "state_encoder.norm.weight"@
    ||| key == "state_encoder.norm.bias"@
    ||| key == "action_encoder.net.0.weight"@
    ||| key == "action_encoder.net.0.bias"@
    ||| key == "action_encoder.net.2.weight"@
    ||| key == "action_encoder.net.2.bias"@
    ||| key == "predictor.norm.weight"@
    ||| key == "predictor.norm.bias"@
}

/// Where a checkpoint key leads.
pub open spec fn route(key: Seq<char>) -> Option<CodeSlot> {
    if is_own_key(key) {
        Some(CodeSlot::Own(key))
    } else {
        match text::after_prefix(key, "state_encoder.block."@) {
            Some(rest) => Some(CodeSlot::Encoder(rest)),
            None => match text::after_prefix(key, "predictor.blocks."@) {
                Some(rest) => match text::split_dotted_key(rest) {
                    Some((i, field)) => Some(CodeSlot::Predictor(i as int, field)),
                    None => None,
                },
                None => None,
            },
        }
    }
}

/// What loading leaves as it is of a block.
pub struct BlockDims {
    pub norm1: (usize, Binary64),
    pub attn_in_proj: (usize, usize),
    pub attn_out_proj: (usize, usize),
    pub norm2: (usize, Binary64),
    pub mlp_up: (usize, usize),
    pub mlp_down: (usize, usize),
}

/// What loading leaves as it is of a model.
pub struct CodeDims {
    pub config: CodeWorldModelConfig,
    pub encoder_block: BlockDims,
    pub encoder_final_norm: (usize, Binary64),
    pub action_fc1: (usize, usize),
    pub action_fc2: (usize, usize),
    pub predictor_blocks: Seq<BlockDims>,
    pub predictor_final_norm: (usize, Binary64),
}

impl<T> TransformerBlock<T> {
    pub open spec fn dims(&self) -> BlockDims {
        BlockDims {
            norm1: (self.norm1.dim, self.norm1.eps),
            attn_in_proj: (self.attn_in_proj.out_dim, self.attn_in_proj.in_dim),
            attn_out_proj: (self.attn_out_proj.out_dim, self.attn_out_proj.in_dim),
            norm2: (self.norm2.dim, self.norm2.eps),
            mlp_up: (self.mlp_up.out_dim, self.mlp_up.in_dim),
            mlp_down: (self.mlp_down.out_dim, self.mlp_down.in_dim),
        }
    }

    /// The elements of a field; `None` where a block has no such field.
    pub open spec fn field(&self, name: Seq<char>) -> Option<Seq<T>> {
        if name == "norm1.weight"@ {
            Some(self.norm1.weight@)
        } else if name == "norm1.bias"@ {
            Some(self.norm1.bias@)
        } else if name == "attn.in_proj_weight"@ {
            Some(self.attn_in_proj.weight@)
        } else if name == "attn.in_proj_bias"@ {
            Some(self.attn_in_proj.bias@)
        } else if name == "attn.out_proj.weight"@ {
            Some(self.attn_out_proj.weight@)
        } else if name == "attn.out_proj.bias"@ {
            Some(self.attn_out_proj.bias@)
        } else if name == "norm2.weight"@ {
            Some(self.norm2.weight@)
        } else if name == "norm2.bias"@ {
            Some(self.norm2.bias@)
        } else if name == "mlp.0.weight"@ {
            Some(self.mlp_up.weight@)
        } else if name == "mlp.0.bias"@ {
            Some(self.mlp_up.bias@)
        } else if name == "mlp.3.weight"@ {
            Some(self.mlp_down.weight@)
        } else if name == "mlp.3.bias"@ {
            Some(self.mlp_down.bias@)
        } else {
            None
        }
    }
}

/// Sets a field of a block. Returns `true` if the block has it.
pub fn set_block_weight<T: Copy>(
    block: &mut TransformerBlock<T>,
    rest: &str,
    tensor: &RawTensor<T>,
) -> (r: bool)
    ensures
        r == (old(block).field(rest@) is Some),
        final(block).dims() == old(block).dims(),
        forall|n: Seq<char>| #[trigger]
            final(block).field(n) == weights::write(old(block).field(n), n == rest@, tensor.data@),
{
    if str_eq(rest, "norm1.weight") {
        block.norm1.weight = tensor.data.duplicate();
    } else if str_eq(rest, "norm1.bias") {
        block.norm1.bias = tensor.data.duplicate();
    } else if str_eq(rest, "attn.in_proj_weight") {
        block.attn_in_proj.weight = tensor.data.duplicate();
    } else if str_eq(rest, "attn.in_proj_bias") {
        block.attn_in_proj.bias = tensor.data.duplicate();
    } else if str_eq(rest, "attn.out_proj.weight") {
        block.attn_out_proj.weight = tensor.data.duplicate();
    } else if str_eq(rest, "attn.out_proj.bias") {
        block.attn_out_proj.bias = tensor.data.duplicate();
    } else if str_eq(rest, "norm2.weight") {
        block.norm2.weight = tensor.data.duplicate();
    } else if str_eq(rest, "norm2.bias") {
        block.norm2.bias = tensor.data.duplicate();
    } else if str_eq(rest, "mlp.0.weight") {
        block.mlp_up.weight = tensor.data.duplicate();
    } else if str_eq(rest, "mlp.0.bias") {
        block.mlp_up.bias = tensor.data.duplicate();
    } else if str_eq(rest, "mlp.3.weight") {
        block.mlp_down.weight = tensor.data.duplicate();
    } else if str_eq(rest, "mlp.3.bias") {
        block.mlp_down.bias = tensor.data.duplicate();
    } else {
        return false;
    }
    true
}

impl<T: Copy> CodeWorldModel<T> {
    pub open spec fn dims(&self) -> CodeDims {
        CodeDims {
            config: self.config,
            encoder_block: self.encoder_block.dims(),
            encoder_final_norm: (self.encoder_final_norm.dim, self.encoder_final_norm.eps),
            action_fc1: (self.action_fc1.out_dim, self.action_fc1.in_dim),
            action_fc2: (self.action_fc2.out_dim, self.action_fc2.in_dim),
            predictor_blocks: self.predictor_blocks@.map_values(
                |b: TransformerBlock<T>| b.dims(),
            ),
            predictor_final_norm: (self.predictor_final_norm.dim, self.predictor_final_norm.eps),
        }
    }

    /// The elements kept in a slot; `None` where the model has no such slot.
    pub open spec fn weight(&self, slot: CodeSlot) -> Option<Seq<T>> {
        match slot {
            CodeSlot::Own(key) => if key == "state_encoder.embedding.weight"@ {
                Some(self.token_embedding@)
            } else if key == "state_encoder.cls_token"@ {
                Some(self.cls_token@)
            } else if key == "state_encoder.pos_enc.pe"@ {
                Some(self.pos_enc@)
            } else if key == "state_encoder.norm.weight"@ {
                Some(self.encoder_final_norm.weight@)
            } else if key == "state_encoder.norm.bias"@ {
                Some(self.encoder_final_norm.bias@)
            } else if key == "action_encoder.net.0.weight"@ {
                Some(self.action_fc1.weight@)
            } else if key == "action_encoder.net.0.bias"@ {
                Some(self.action_fc1.bias@)
            } else if key == "action_encoder.net.2.weight"@ {
                Some(self.action_fc2.weight@)
            } else if key == "action_encoder.net.2.bias"@ {
                Some(self.action_fc2.bias@)
            } else if key == "predictor.norm.weight"@ {
                Some(self.predictor_final_norm.weight@)
            } else if key == "predictor.norm.bias"@ {
                Some(self.predictor_final_norm.bias@)
            } else {
                None
            },
            CodeSlot::Encoder(field) => self.encoder_block.field(field),
            CodeSlot::Predictor(i, field) => if 0 <= i < self.predictor_blocks@.len() {
                self.predictor_blocks@[i].field(field)
            } else {
                None
            },
        }
    }

    /// Whether the model has a place for a key's tensor.
    pub open spec fn takes(&self, key: Seq<char>) -> bool {
        match route(key) {
            Some(slot) => self.weight(slot) is Some,
            None => false,
        }
    }

    /// Routes one checkpoint key to its buffer. Returns `true` if the key is
    /// known.
    pub fn set_weight(&mut self, key: &str, tensor: &RawTensor<T>) -> (r: bool)
        ensures
            r == old(self).takes(key@),
            final(self).dims() == old(self).dims(),
            forall|s: CodeSlot| #[trigger]
                final(self).weight(s) == weights::write(
                    old(self).weight(s),
                    route(key@) == Some(s),
                    tensor.data@,
                ),
    {
        let ghost start = *self;
        if str_eq(key, "state_encoder.embedding.weight") {
            self.token_embedding = tensor.data.duplicate();
        } else if str_eq(key, "state_encoder.cls_token") {
            self.cls_token = tensor.data.duplicate();
        } else if str_eq(key, "state_encoder.pos_enc.pe") {
            self.pos_enc = tensor.data.duplicate();
        } else if str_eq(key, "state_encoder.norm.weight") {
            self.encoder_final_norm.weight = tensor.data.duplicate();
        } else if str_eq(key, "state_encoder.norm.bias") {
            self.encoder_final_norm.bias = tensor.data.duplicate();
        } else if str_eq(key, "action_encoder.net.0.weight") {
            self.action_fc1.weight = tensor.data.duplicate();
        } else if str_eq(key, "action_encoder.net.0.bias") {
            self.action_fc1.bias = tensor.data.duplicate();
        } else if str_eq(key, "action_encoder.net.2.weight") {
            self.action_fc2.weight = tensor.data.duplicate();
        } else if str_eq(key, "action_encoder.net.2.bias") {
            self.action_fc2.bias = tensor.data.duplicate();
        } else if str_eq(key, "predictor.norm.weight") {
            self.predictor_final_norm.weight = tensor.data.duplicate();
        } else if str_eq(key, "predictor.norm.bias") {
            self.predictor_final_norm.bias = tensor.data.duplicate();
        } else if let Some(rest) = strip_prefix(key, "state_encoder.block.") {
            return set_block_weight(&mut self.encoder_block, rest, tensor);
        } else if let Some(rest) = strip_prefix(key, "predictor.blocks.") {
            let (idx, field) = match parse_dotted_key(rest) {
                Some(p) => p,
                None => return false,
            };
            if idx >= self.predictor_blocks.len() {
                return false;
            }
            let known = set_block_weight(&mut self.predictor_blocks[idx], field, tensor);
            assert(self.dims().predictor_blocks =~= start.dims().predictor_blocks);
            return known;
        } else {
            return false;
        }
        true
    }

    /// A slot after the first `n` tensors: the last of them that leads there.
    pub open spec fn weight_after(&self, tensors: TensorMap<T>, slot: CodeSlot, n: nat) -> Option<
        Seq<T>,
    >
        decreases n,
    {
        if n == 0 {
            self.weight(slot)
        } else {
            weights::write(
                self.weight_after(tensors, slot, (n - 1) as nat),
                route(tensors.name(n - 1)) == Some(slot),
                tensors.tensor(n - 1).data@,
            )
        }
    }

    /// The names among the first `n` under which the model keeps nothing.
    pub open spec fn unknown_names(&self, tensors: TensorMap<T>, n: nat) -> Seq<Seq<char>>
        decreases n,
    {
        if n == 0 {
            Seq::empty()
        } else {
            let before = self.unknown_names(tensors, (n - 1) as nat);
            if self.takes(tensors.name(n - 1)) {
                before
            } else {
                before.push(tensors.name(n - 1))
            }
        }
    }

    /// Route checkpoint keys to their buffers. Every tensor is either counted
    /// as loaded or named as skipped.
    pub fn load_weights(&mut self, tensors: &TensorMap<T>) -> (r: Result<LoadStats, WeightError>)
        ensures
            final(self).dims() == old(self).dims(),
            forall|s: CodeSlot| #[trigger]
                final(self).weight(s) == old(self).weight_after(*tensors, s, tensors.count()),
            match r {
                Ok(stats) => {
                    &&& weights::texts(stats.skipped@) == old(self).unknown_names(
                        *tensors,
                        tensors.count(),
                    )
                    &&& stats.loaded + stats.skipped@.len() == tensors.count()
                },
                Err(_) => false,
            },
    {
        let ghost start = *self;
        let mut loaded: usize = 0;
        let mut skipped: Vec<String> = Vec::new();
        let n = tensors.len();
        for i in 0..n
            invariant
                n == tensors.count(),
                self.dims() == start.dims(),
                forall|s: CodeSlot| #[trigger]
                    self.weight(s) == start.weight_after(*tensors, s, i as nat),
                forall|s: CodeSlot|
                    (#[trigger] self.weight(s)) is Some <==> start.weight(s) is Some,
                weights::texts(skipped@) == start.unknown_names(*tensors, i as nat),
                loaded + skipped@.len() == i,
        {
            let (name, tensor) = tensors.entry(i);
            let ghost before = *self;
            let ok = self.set_weight(name, tensor);
            assert(before.takes(name@) == start.takes(name@));
            if ok {
                loaded += 1;
            } else {
                skipped.push(name.to_owned());
                assert(weights::texts(skipped@) =~= start.unknown_names(*tensors, (i + 1) as nat));
            }
        }
        assert(weights::texts(skipped@).len() == skipped@.len());
        Ok(LoadStats { loaded, skipped })
    }

    /// A slot that no tensor of the checkpoint leads to keeps its elements.
    pub proof fn lemma_untouched_slot(&self, tensors: TensorMap<T>, slot: CodeSlot, n: nat)
        requires
            forall|i: int| 0 <= i < n ==> route(#[trigger] tensors.name(i)) != Some(slot),
        ensures
            self.weight_after(tensors, slot, n) == self.weight(slot),
        decreases n,
    {
        if n > 0 {
            assert(route(tensors.name(n - 1)) != Some(slot));
            self.lemma_untouched_slot(tensors, slot, (n - 1) as nat);
        }
    }

    /// A slot to which exactly one tensor leads holds that tensor's elements.
    pub proof fn lemma_loaded_slot(&self, tensors: TensorMap<T>, slot: CodeSlot, k: int, n: nat)
        requires
            0 <= k < n,
            self.weight(slot) is Some,
            route(tensors.name(k)) == Some(slot),
            forall|i: int|
                0 <= i < n && i != k ==> route(#[trigger] tensors.name(i)) != Some(slot),
        ensures
            self.weight_after(tensors, slot, n) == Some(tensors.tensor(k).data@),
        decreases n,
    {
        if k == n - 1 {
            self.lemma_untouched_slot(tensors, slot, (n - 1) as nat);
        } else {
            assert(route(tensors.name(n - 1)) != Some(slot));
            self.lemma_loaded_slot(tensors, slot, k, (n - 1) as nat);
        }
    }
}

impl<T: Scalar> CodeWorldModel<T> {
    /// The skipped names are those, each once, under which the model keeps
    /// nothing.
    pub proof fn lemma_skipped_names(&self, tensors: TensorMap<T>, n: nat)
        requires
            tensors.wf(),
            n <= tensors.count(),
        ensures
            self.unknown_names(tensors, n).no_duplicates(),
            forall|k: Seq<char>| #[trigger]
                self.unknown_names(tensors, n).contains(k) <==> exists|i: int|
                    0 <= i < n && #[trigger] tensors.name(i) == k && !self.takes(k),
        decreases n,
    {
        let names = self.unknown_names(tensors, n);
        if n > 0 {
            self.lemma_skipped_names(tensors, (n - 1) as nat);
            let before = self.unknown_names(tensors, (n - 1) as nat);
            let last = tensors.name(n - 1);
            if !self.takes(last) {
                if before.contains(last) {
                    let i = choose|i: int|
                        0 <= i < n - 1 && #[trigger] tensors.name(i) == last && !self.takes(
                            last,
                        );
                    assert(tensors.name(i) != tensors.name(n - 1));
                }
                assert(names == before.push(last));
            }
            assert forall|k: Seq<char>| #[trigger] names.contains(k) <==> exists|i: int|
                0 <= i < n && #[trigger] tensors.name(i) == k && !self.takes(k) by {
                if names.contains(k) {
                    if before.contains(k) {
                        let i = choose|i: int|
                            0 <= i < n - 1 && #[trigger] tensors.name(i) == k && !self.takes(
                                k,
                            );
                        assert(tensors.name(i) == k);
                    } else {
                        let j = choose|j: int| 0 <= j < names.len() && names[j] == k;
                        assert(j == names.len() - 1);
                        assert(tensors.name(n - 1) == k);
                    }
                }
                if exists|i: int|
                    0 <= i < n && #[trigger] tensors.name(i) == k && !self.takes(k) {
                    let i = choose|i: int|
                        0 <= i < n && #[trigger] tensors.name(i) == k && !self.takes(k);
                    if i < n - 1 {
                        assert(before.contains(k));
                        let j = choose|j: int| 0 <= j < before.len() && before[j] == k;
                        assert(names[j] == k);
                    } else {
                        assert(names[names.len() - 1] == k);
                    }
                }
            }
        }
    }

    /// Tensors under skipped names change nothing.
    pub proof fn lemma_skipped_change_nothing(&self, tensors: TensorMap<T>, n: nat)
        requires
            forall|i: int| 0 <= i < n ==> !self.takes(#[trigger] tensors.name(i)),
        ensures
            forall|s: CodeSlot| #[trigger]
                self.weight_after(tensors, s, n) == self.weight(s),
        decreases n,
    {
        if n > 0 {
            self.lemma_skipped_change_nothing(tensors, (n - 1) as nat);
            assert(!self.takes(tensors.name(n - 1)));
            assert forall|s: CodeSlot| #[trigger] self.weight_after(tensors, s, n) == self.weight(
                s,
            ) by {
                assert(self.weight_after(tensors, s, (n - 1) as nat) == self.weight(s));
            }
        }
    }
}

// ── Configuration files ──────────────────────────────────────────────

/// Whether the sizes that a configuration leaves out follow from those that it
/// gives: the heads share the model's width, and four times the width fits.
pub open spec fn sizes_follow(tree: JsonTree) -> bool {
    &&& tree.size_or("num_heads"@, 4) > 0
    &&& tree.unsigned("mlp_hidden"@) is None ==> tree.size_or("model_dim"@, 128) * 4 <= usize::MAX
}

/// The configuration that a JSON text describes.
pub open spec fn code_wm_config_in(tree: JsonTree) -> CodeWorldModelConfig {
    CodeWorldModelConfig {
        vocab_size: tree.size_or("vocab_size"@, 662),
        max_seq_len: tree.size_or("max_seq_len"@, 512),
        model_dim: tree.size_or("model_dim"@, 128),
        num_heads: tree.size_or("num_heads"@, 4),
        head_dim: match tree.unsigned("head_dim"@) {
            Some(n) => n as usize,
            None => tree.size_or("model_dim"@, 128) / tree.size_or("num_heads"@, 4),
        },
        mlp_hidden: match tree.unsigned("mlp_hidden"@) {
            Some(n) => n as usize,
            None => (tree.size_or("model_dim"@, 128) * 4) as usize,
        },
        encoder_loops: tree.size_or("encoder_loops"@, 6),
        predictor_depth: tree.size_or("predictor_depth"@, 2),
        predictor_loops: tree.size_or("predictor_loops"@, 6),
        action_dim: tree.size_or("action_dim"@, 7),
        layernorm_eps: Binary64 {
            bits: match tree.binary64("layernorm_eps"@) {
                Some(bits) => bits,
                None => BITS_1E_5,
            },
        },
        gelu_kind: if tree.text("gelu_kind"@) == Some("tanh"@) {
            GeluKind::Tanh
        } else {
            GeluKind::Erf
        },
    }
}

impl CodeWorldModelConfig {
    /// Read a config off a parsed JSON text.
    pub fn from_value(v: &Json) -> (r: Self)
        requires
            sizes_follow(v@),
        ensures
            r == code_wm_config_in(v@),
    {
        let model_dim = v.size_or("model_dim", 128);
        let num_heads = v.size_or("num_heads", 4);
        CodeWorldModelConfig {
            vocab_size: v.size_or("vocab_size", 662),
            max_seq_len: v.size_or("max_seq_len", 512),
            model_dim,
            num_heads,
            head_dim: match v.unsigned("head_dim") {
                Some(n) => n as usize,
                None => model_dim / num_heads,
            },
            mlp_hidden: match v.unsigned("mlp_hidden") {
                Some(n) => n as usize,
                None => model_dim * 4,
            },
            encoder_loops: v.size_or("encoder_loops", 6),
            predictor_depth: v.size_or("predictor_depth", 2),
            predictor_loops: v.size_or("predictor_loops", 6),
            action_dim: v.size_or("action_dim", 7),
            layernorm_eps: Binary64 {
                bits: match v.binary64("layernorm_eps") {
                    Some(bits) => bits,
                    None => BITS_1E_5,
                },
            },
            gelu_kind: match v.text("gelu_kind") {
                Some(kind) => GeluKind::from_str(kind),
                None => GeluKind::Erf,
            },
        }
    }

    /// Parse config directly from a JSON string (WASM-friendly, no filesystem).
    pub fn from_json_str(data: &str) -> (r: Result<Self, String>)
        requires
            json::parsed(data@) matches Ok(tree) ==> sizes_follow(tree),
        ensures
            match r {
                Ok(config) => json::parsed(data@) matches Ok(tree) && config
                    == code_wm_config_in(tree),
                Err(e) => json::parsed(data@) matches Err(why) && e@
                    == "Failed to parse config JSON: "@ + why,
            },
    {
        match parse(data) {
            Ok(v) => Ok(CodeWorldModelConfig::from_value(&v)),
            Err(why) => {
                let mut e = "Failed to parse config JSON: ".to_owned();
                e.append(why.as_str());
                Err(e)
            },
        }
    }

    /// Parse config from any JSON string: `None` where the sizes that it gives
    /// leave the others open.
    pub fn checked_from_json_str(data: &str) -> (r: Option<Result<Self, String>>)
        ensures
            match r {
                Some(Ok(config)) => json::parsed(data@) matches Ok(tree) && sizes_follow(tree)
                    && config == code_wm_config_in(tree),
                Some(Err(e)) => json::parsed(data@) matches Err(why) && e@
                    == "Failed to parse config JSON: "@ + why,
                None => json::parsed(data@) matches Ok(tree) && !sizes_follow(tree),
            },
    {
        if let Ok(v) = parse(data) {
            let open = v.unsigned("mlp_hidden").is_none();
            if v.size_or("num_heads", 4) == 0 || (open && v.size_or("model_dim", 128)
                > usize::MAX / 4) {
                return None;
            }
        }
        Some(CodeWorldModelConfig::from_json_str(data))
    }
}

} // verus!
