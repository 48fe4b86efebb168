//! Forward passes whose heavy operations run on a compute backend.

use vstd::prelude::*;

use crate::attention;
use crate::attention::{attend_row, causal_attention};
use crate::backend;
use crate::backend::ComputeBackend;
use crate::buffer::extend;
use crate::config::{FFNConfig, NormConfig, BITS_1E_6};
use crate::kv_cache::{KVCache, KVCacheLayer};
use crate::models::lm::causal_lm::{CausalLM, ModelOutput};
use crate::models::lm::decoder_layer::DecoderLayer;
use crate::norm;
use crate::norm::{apply_headwise_rmsnorm, normalize_heads};
use crate::ops;
use crate::ops::{
    activate_all, add_bias, add_vecs, layernorm, mul_vecs, row_slice, Activation,
};
use crate::rope;
use crate::rope::{apply_rope_inplace, rotate_row};
use crate::scalar;
use crate::scalar::{Math, Scalar};

verus! {

/// Rows under a normalisation: RMS norms run on the backend, layer norms do
/// not.
pub open spec fn normed_on<T: Scalar, M: Math<T>, B: ComputeBackend<T>>(
    b: B,
    x: Seq<T>,
    w: Seq<T>,
    norm: NormConfig,
    h: usize,
    rows: nat,
) -> Seq<T> {
    match norm {
        NormConfig::RMSNorm { eps } => backend::rms_on(
            b,
            x,
            w,
            scalar::binary64_of::<T, M>(eps.bits),
            h,
        ),
        NormConfig::LayerNorm { eps } => ops::layer_norm_of::<T, M>(
            x,
            w,
            scalar::binary64_of::<T, M>(eps.bits),
            h as nat,
            rows,
        ),
    }
}

/// Apply normalization dispatched through a backend.
pub fn apply_norm_dispatch<T: Scalar, M: Math<T>, B: ComputeBackend<T>>(
    x: &[T],
    weight: &[T],
    norm: NormConfig,
    hidden_size: usize,
    rows: usize,
    b: &B,
) -> (r: Vec<T>)
    requires
        scalar::mathematics::<T, M>(),
        backend::computing::<T, B>(),
        x@.len() == rows * hidden_size,
        hidden_size <= weight@.len(),
    ensures
        r@ == normed_on::<T, M, B>(*b, x@, weight@, norm, hidden_size, rows as nat),
        r@.len() == rows * hidden_size,
{
    match norm {
        NormConfig::RMSNorm { eps } => b.rmsnorm(
            x,
            weight,
            M::from_binary64(eps.bits),
            hidden_size,
        ),
        NormConfig::LayerNorm { eps } => layernorm::<T, M>(
            x,
            weight,
            M::from_binary64(eps.bits),
            hidden_size,
            rows,
        ),
    }
}

impl<T: Scalar> DecoderLayer<T> {
    /// The rows of one projection: multiplied on the backend, then biased.
    pub open spec fn projected_on<B: ComputeBackend<T>>(
        &self,
        b: B,
        x: Seq<T>,
        w: Seq<T>,
        bias: Seq<T>,
        rows: usize,
        n: usize,
    ) -> Seq<T> {
        ops::biased(
            backend::product_on(b, x, w, rows, self.hidden_size, n),
            bias,
            rows as nat,
            n as nat,
        )
    }

    /// Attention on normalised rows, each of which sees itself and the rows
    /// before it.
    pub open spec fn attention_on<M: Math<T>, B: ComputeBackend<T>>(
        &self,
        b: B,
        x: Seq<T>,
        rows: usize,
        cos: Seq<T>,
        sin: Seq<T>,
    ) -> Seq<T> {
        let layout = self.attention.spec_layout();
        let (heads, kv_heads, d) = (layout.num_heads, layout.num_kv_heads, layout.head_dim);
        let eps = scalar::binary64_of::<T, M>(self.attn_norm.spec_eps().bits);
        let q = self.projected_on(b, x, self.w_q@, self.q_bias@, rows, (heads * d) as usize);
        let k = self.projected_on(b, x, self.w_k@, self.k_bias@, rows, (kv_heads * d) as usize);
        let v = self.projected_on(b, x, self.w_v@, self.v_bias@, rows, (kv_heads * d) as usize);
        let q = norm::head_normed::<T, M>(
            q,
            self.q_norm_weight@,
            rows as nat,
            heads as nat,
            d as nat,
            eps,
        );
        let k = norm::head_normed::<T, M>(
            k,
            self.k_norm_weight@,
            rows as nat,
            kv_heads as nat,
            d as nat,
            eps,
        );
        let q = rope::rotated(
            q,
            cos,
            sin,
            rows as nat,
            heads as nat,
            d as nat,
            0,
            self.rope_style,
        );
        let k = rope::rotated(
            k,
            cos,
            sin,
            rows as nat,
            kv_heads as nat,
            d as nat,
            0,
            self.rope_style,
        );
        backend::product_on(
            b,
            attention::causal_output::<T, M>(layout, q, k, v, rows as nat),
            self.w_o@,
            rows,
            (heads * d) as usize,
            self.hidden_size,
        )
    }

    /// The feed-forward part on normalised rows.
    pub open spec fn ffn_on<M: Math<T>, B: ComputeBackend<T>>(
        &self,
        b: B,
        x: Seq<T>,
        rows: usize,
    ) -> Seq<T> {
        let h = self.hidden_size;
        let inter = self.ffn.spec_intermediate_size();
        let gate = backend::product_on(b, x, self.ffn_gate@, rows, h, inter);
        let up = backend::product_on(b, x, self.ffn_up@, rows, h, inter);
        let hidden = match self.ffn {
            FFNConfig::SwiGLU { intermediate_size } => backend::swiglu_on(b, gate, up),
            FFNConfig::GeGLU { intermediate_size } => ops::product_of(
                ops::all_activated::<T, M>(Activation::Gelu, gate),
                up,
            ),
            FFNConfig::GELU { intermediate_size } => ops::all_activated::<T, M>(
                Activation::Gelu,
                up,
            ),
        };
        backend::product_on(b, hidden, self.ffn_down@, rows, inter, h)
    }

    /// What is added to rows after attention: the feed-forward part of their
    /// normalised form.
    pub open spec fn with_ffn_on<M: Math<T>, B: ComputeBackend<T>>(
        &self,
        b: B,
        residual: Seq<T>,
        rows: usize,
    ) -> Seq<T> {
        let normed = normed_on::<T, M, B>(
            b,
            residual,
            self.ffn_norm_weight@,
            self.ffn_norm,
            self.hidden_size,
            rows as nat,
        );
        ops::sum_of(residual, self.ffn_on::<M, B>(b, normed, rows))
    }

    /// The layer on a whole sequence.
    pub open spec fn forward_on<M: Math<T>, B: ComputeBackend<T>>(
        &self,
        b: B,
        x: Seq<T>,
        rows: usize,
        cos: Seq<T>,
        sin: Seq<T>,
    ) -> Seq<T> {
        let normed = normed_on::<T, M, B>(
            b,
            x,
            self.attn_norm_weight@,
            self.attn_norm,
            self.hidden_size,
            rows as nat,
        );
        let attn = self.attention_on::<M, B>(b, normed, rows, cos, sin);
        self.with_ffn_on::<M, B>(b, ops::sum_of(x, attn), rows)
    }

    /// Multiplies rows on the backend and adds the bias.
    fn project_on<B: ComputeBackend<T>>(
        &self,
        b: &B,
        x: &[T],
        w: &[T],
        bias: &[T],
        rows: usize,
        n: usize,
    ) -> (r: Vec<T>)
        requires
            scalar::arithmetic::<T>(),
            backend::computing::<T, B>(),
            x@.len() == rows * self.hidden_size,
            w@.len() == n * self.hidden_size,
            bias@.len() == 0 || bias@.len() == n,
        ensures
            r@ == self.projected_on(*b, x@, w@, bias@, rows, n),
            r@.len() == rows * n,
    {
        let mut y = b.matmul_t(x, w, rows, self.hidden_size, n);
        add_bias(&mut y, bias, rows, n);
        y
    }

    fn apply_attention_dispatch<M: Math<T>, B: ComputeBackend<T>>(
        &self,
        x: &[T],
        seq_len: usize,
        b: &B,
        rope_cos: &[T],
        rope_sin: &[T],
    ) -> (r: Vec<T>)
        requires
            scalar::mathematics::<T, M>(),
            backend::computing::<T, B>(),
            self.wf(),
            x@.len() == seq_len * self.hidden_size,
            self.angles_reach(rope_cos@, rope_sin@, seq_len as int),
        ensures
            r@ == self.attention_on::<M, B>(*b, x@, seq_len, rope_cos@, rope_sin@),
            r@.len() == seq_len * self.hidden_size,
    {
        let layout = self.attention.layout();
        let q_dim = layout.num_heads * layout.head_dim;
        let kv_dim = layout.num_kv_heads * layout.head_dim;
        let eps = M::from_binary64(self.attn_norm.eps().bits);
        let q = self.project_on(
            b,
            x,
            self.w_q.as_slice(),
            self.q_bias.as_slice(),
            seq_len,
            q_dim,
        );
        let k = self.project_on(
            b,
            x,
            self.w_k.as_slice(),
            self.k_bias.as_slice(),
            seq_len,
            kv_dim,
        );
        let v = self.project_on(
            b,
            x,
            self.w_v.as_slice(),
            self.v_bias.as_slice(),
            seq_len,
            kv_dim,
        );
        let mut q = apply_headwise_rmsnorm::<T, M>(
            q.as_slice(),
            self.q_norm_weight.as_slice(),
            seq_len,
            layout.num_heads,
            layout.head_dim,
            eps,
        );
        let mut k = apply_headwise_rmsnorm::<T, M>(
            k.as_slice(),
            self.k_norm_weight.as_slice(),
            seq_len,
            layout.num_kv_heads,
            layout.head_dim,
            eps,
        );
        apply_rope_inplace(
            &mut q,
            rope_cos,
            rope_sin,
            seq_len,
            layout.num_heads,
            layout.head_dim,
            0,
            self.rope_style,
        );
        apply_rope_inplace(
            &mut k,
            rope_cos,
            rope_sin,
            seq_len,
            layout.num_kv_heads,
            layout.head_dim,
            0,
            self.rope_style,
        );
        let attn_output = causal_attention::<T, M>(
            layout,
            q.as_slice(),
            k.as_slice(),
            v.as_slice(),
            seq_len,
        );
        b.matmul_t(attn_output.as_slice(), self.w_o.as_slice(), seq_len, q_dim, self.hidden_size)
    }

    fn apply_ffn_dispatch<M: Math<T>, B: ComputeBackend<T>>(&self, x: &[T], tokens: usize, b: &B) -> (r:
        Vec<T>)
        requires
            scalar::mathematics::<T, M>(),
            backend::computing::<T, B>(),
            self.wf(),
            x@.len() == tokens * self.hidden_size,
        ensures
            r@ == self.ffn_on::<M, B>(*b, x@, tokens),
            r@.len() == tokens * self.hidden_size,
    {
        let h = self.hidden_size;
        let inter = self.ffn.intermediate_size();
        let up = b.matmul_t(x, self.ffn_up.as_slice(), tokens, h, inter);
        let hidden = match self.ffn {
            FFNConfig::SwiGLU { .. } => {
                let gate = b.matmul_t(x, self.ffn_gate.as_slice(), tokens, h, inter);
                b.swiglu(gate.as_slice(), up.as_slice())
            },
            FFNConfig::GeGLU { .. } => {
                let gate = b.matmul_t(x, self.ffn_gate.as_slice(), tokens, h, inter);
                let a = activate_all::<T, M>(Activation::Gelu, gate.as_slice());
                mul_vecs(a.as_slice(), up.as_slice())
            },
            FFNConfig::GELU { .. } => activate_all::<T, M>(Activation::Gelu, up.as_slice()),
        };
        b.matmul_t(hidden.as_slice(), self.ffn_down.as_slice(), tokens, inter, h)
    }

    /// Norm, feed-forward part and residual after attention.
    fn add_ffn_dispatch<M: Math<T>, B: ComputeBackend<T>>(
        &self,
        residual: &[T],
        rows: usize,
        b: &B,
    ) -> (r: Vec<T>)
        requires
            scalar::mathematics::<T, M>(),
            backend::computing::<T, B>(),
            self.wf(),
            residual@.len() == rows * self.hidden_size,
        ensures
            r@ == self.with_ffn_on::<M, B>(*b, residual@, rows),
            r@.len() == rows * self.hidden_size,
    {
        let normed = apply_norm_dispatch::<T, M, B>(
            residual,
            self.ffn_norm_weight.as_slice(),
            self.ffn_norm,
            self.hidden_size,
            rows,
            b,
        );
        let ffn_out = self.apply_ffn_dispatch::<M, B>(normed.as_slice(), rows, b);
        add_vecs(residual, ffn_out.as_slice())
    }

    /// Forward pass dispatched through a backend (GPU or CPU).
    pub fn forward_with_backend<M: Math<T>, B: ComputeBackend<T>>(
        &self,
        x: &[T],
        seq_len: usize,
        b: &B,
        rope_cos: &[T],
        rope_sin: &[T],
    ) -> (r: Vec<T>)
        requires
            scalar::mathematics::<T, M>(),
            backend::computing::<T, B>(),
            self.wf(),
            x@.len() == seq_len * self.hidden_size,
            self.angles_reach(rope_cos@, rope_sin@, seq_len as int),
        ensures
            r@ == self.forward_on::<M, B>(*b, x@, seq_len, rope_cos@, rope_sin@),
            r@.len() == seq_len * self.hidden_size,
    {
        let normed = apply_norm_dispatch::<T, M, B>(
            x,
            self.attn_norm_weight.as_slice(),
            self.attn_norm,
            self.hidden_size,
            seq_len,
            b,
        );
        let attn_out = self.apply_attention_dispatch::<M, B>(
            normed.as_slice(),
            seq_len,
            b,
            rope_cos,
            rope_sin,
        );
        let residual = add_vecs(x, attn_out.as_slice());
        self.add_ffn_dispatch::<M, B>(residual.as_slice(), seq_len, b)
    }
}

// ── Decoding ─────────────────────────────────────────────────────────

impl<T: Scalar> DecoderLayer<T> {
    /// A hidden row under the norm before attention.
    pub open spec fn attn_input_on<M: Math<T>, B: ComputeBackend<T>>(
        &self,
        b: B,
        x: Seq<T>,
    ) -> Seq<T> {
        normed_on::<T, M, B>(
            b,
            x,
            self.attn_norm_weight@,
            self.attn_norm,
            self.hidden_size,
            1,
        )
    }

    /// The query row of a hidden row at position `pos`.
    pub open spec fn query_on<M: Math<T>, B: ComputeBackend<T>>(
        &self,
        b: B,
        x: Seq<T>,
        cos: Seq<T>,
        sin: Seq<T>,
        pos: int,
    ) -> Seq<T> {
        let layout = self.attention.spec_layout();
        rope::rotated_row(
            norm::head_normed_row::<T, M>(
                self.projected_on(
                    b,
                    self.attn_input_on::<M, B>(b, x),
                    self.w_q@,
                    self.q_bias@,
                    1,
                    (layout.num_heads * layout.head_dim) as usize,
                ),
                self.q_norm_weight@,
                layout.num_heads as nat,
                layout.head_dim as nat,
                scalar::binary64_of::<T, M>(self.attn_norm.spec_eps().bits),
            ),
            cos,
            sin,
            layout.num_heads as nat,
            layout.head_dim as nat,
            pos,
            self.rope_style,
        )
    }

    /// The key row of a hidden row at position `pos`.
    pub open spec fn key_on<M: Math<T>, B: ComputeBackend<T>>(
        &self,
        b: B,
        x: Seq<T>,
        cos: Seq<T>,
        sin: Seq<T>,
        pos: int,
    ) -> Seq<T> {
        let layout = self.attention.spec_layout();
        rope::rotated_row(
            norm::head_normed_row::<T, M>(
                self.projected_on(
                    b,
                    self.attn_input_on::<M, B>(b, x),
                    self.w_k@,
                    self.k_bias@,
                    1,
                    (layout.num_kv_heads * layout.head_dim) as usize,
                ),
                self.k_norm_weight@,
                layout.num_kv_heads as nat,
                layout.head_dim as nat,
                scalar::binary64_of::<T, M>(self.attn_norm.spec_eps().bits),
            ),
            cos,
            sin,
            layout.num_kv_heads as nat,
            layout.head_dim as nat,
            pos,
            self.rope_style,
        )
    }

    /// The value row of a hidden row.
    pub open spec fn value_on<M: Math<T>, B: ComputeBackend<T>>(&self, b: B, x: Seq<T>) -> Seq<T> {
        let layout = self.attention.spec_layout();
        self.projected_on(
            b,
            self.attn_input_on::<M, B>(b, x),
            self.w_v@,
            self.v_bias@,
            1,
            (layout.num_kv_heads * layout.head_dim) as usize,
        )
    }

    /// The layer on a hidden row whose query sees the rows of the cache from
    /// `start` on.
    pub open spec fn decode_on<M: Math<T>, B: ComputeBackend<T>>(
        &self,
        b: B,
        x: Seq<T>,
        keys: Seq<T>,
        values: Seq<T>,
        start: int,
        n: nat,
        cos: Seq<T>,
        sin: Seq<T>,
        pos: int,
    ) -> Seq<T> {
        let layout = self.attention.spec_layout();
        let seen = attention::row_output::<T, M>(
            layout,
            self.query_on::<M, B>(b, x, cos, sin, pos),
            keys,
            values,
            start,
            n,
        );
        let attn = backend::product_on(
            b,
            seen,
            self.w_o@,
            1,
            (layout.num_heads * layout.head_dim) as usize,
            self.hidden_size,
        );
        self.with_ffn_on::<M, B>(b, ops::sum_of(x, attn), 1)
    }

    /// Single-token decode with backend dispatch.
    pub fn forward_one_with_backend<M: Math<T>, B: ComputeBackend<T>>(
        &self,
        hidden: &[T],
        cache_layer: &mut KVCacheLayer<T>,
        pos: usize,
        b: &B,
        rope_cos: &[T],
        rope_sin: &[T],
    ) -> (r: Vec<T>)
        requires
            scalar::mathematics::<T, M>(),
            backend::computing::<T, B>(),
            self.wf(),
            hidden@.len() == self.hidden_size,
            self.angles_reach(rope_cos@, rope_sin@, pos + 1),
            old(cache_layer).wf(),
            old(cache_layer).row_width() == self.attention.spec_layout().kv_dim(),
            old(cache_layer).positions() < old(cache_layer).capacity(),
        ensures
            final(cache_layer).wf(),
            final(cache_layer).row_width() == old(cache_layer).row_width(),
            final(cache_layer).capacity() == old(cache_layer).capacity(),
            final(cache_layer).positions() == old(cache_layer).positions() + 1,
            final(cache_layer).key_rows() == old(cache_layer).key_rows() + self.key_on::<M, B>(
                *b,
                hidden@,
                rope_cos@,
                rope_sin@,
                pos as int,
            ),
            final(cache_layer).value_rows() == old(cache_layer).value_rows() + self.value_on::<
                M,
                B,
            >(*b, hidden@),
            ({
                let len = final(cache_layer).positions();
                let start = attention::window_start(len, self.attention.spec_window());
                r@ == self.decode_on::<M, B>(
                    *b,
                    hidden@,
                    final(cache_layer).key_rows(),
                    final(cache_layer).value_rows(),
                    start as int,
                    (len - start) as nat,
                    rope_cos@,
                    rope_sin@,
                    pos as int,
                )
            }),
            r@.len() == self.hidden_size,
    {
        let layout = self.attention.layout();
        let q_dim = layout.num_heads * layout.head_dim;
        let kv_dim = layout.num_kv_heads * layout.head_dim;
        let eps = M::from_binary64(self.attn_norm.eps().bits);
        let normed = apply_norm_dispatch::<T, M, B>(
            hidden,
            self.attn_norm_weight.as_slice(),
            self.attn_norm,
            self.hidden_size,
            1,
            b,
        );
        let x = normed.as_slice();
        let q = self.project_on(b, x, self.w_q.as_slice(), self.q_bias.as_slice(), 1, q_dim);
        let k = self.project_on(b, x, self.w_k.as_slice(), self.k_bias.as_slice(), 1, kv_dim);
        let v = self.project_on(b, x, self.w_v.as_slice(), self.v_bias.as_slice(), 1, kv_dim);
        let q = normalize_heads::<T, M>(
            q.as_slice(),
            self.q_norm_weight.as_slice(),
            layout.num_heads,
            layout.head_dim,
            eps,
        );
        let k = normalize_heads::<T, M>(
            k.as_slice(),
            self.k_norm_weight.as_slice(),
            layout.num_kv_heads,
            layout.head_dim,
            eps,
        );
        let q = rotate_row(
            q.as_slice(),
            rope_cos,
            rope_sin,
            layout.num_heads,
            layout.head_dim,
            pos,
            self.rope_style,
        );
        let k = rotate_row(
            k.as_slice(),
            rope_cos,
            rope_sin,
            layout.num_kv_heads,
            layout.head_dim,
            pos,
            self.rope_style,
        );
        let appended = cache_layer.append(k.as_slice(), v.as_slice());
        assert(appended is Ok);
        let (keys, values, len) = cache_layer.slice();
        let start: usize = match self.attention.window_size() {
            Some(w) => if len > w {
                len - w
            } else {
                0
            },
            None => 0,
        };
        let seen = attend_row::<T, M>(layout, q.as_slice(), keys, values, start, len - start);
        let attn_out = b.matmul_t(
            seen.as_slice(),
            self.w_o.as_slice(),
            1,
            q_dim,
            self.hidden_size,
        );
        let residual = add_vecs(hidden, attn_out.as_slice());
        self.add_ffn_dispatch::<M, B>(residual.as_slice(), 1, b)
    }
}

// ── Whole models ─────────────────────────────────────────────────────

impl<T: Scalar> CausalLM<T> {
    /// The token embeddings of a sequence, as they stand in the table.
    pub open spec fn token_rows(&self, ids: Seq<u32>) -> Seq<T> {
        ops::blocks(ids.len(), |t: int| self.token_row(ids[t]))
    }

    /// The hidden rows after the first `n` layers, from the rows `x` on.
    pub open spec fn hidden_on<M: Math<T>, B: ComputeBackend<T>>(
        &self,
        b: B,
        x: Seq<T>,
        rows: usize,
        n: nat,
    ) -> Seq<T>
        decreases n,
    {
        if n == 0 {
            x
        } else {
            self.layers@[n - 1].forward_on::<M, B>(
                b,
                self.hidden_on::<M, B>(b, x, rows, (n - 1) as nat),
                rows,
                self.rope_cos@,
                self.rope_sin@,
            )
        }
    }

    /// The logits of hidden rows.
    pub open spec fn logits_on<M: Math<T>, B: ComputeBackend<T>>(
        &self,
        b: B,
        x: Seq<T>,
        rows: usize,
    ) -> Seq<T> {
        let h = self.config.architecture.hidden_size;
        backend::product_on(
            b,
            normed_on::<T, M, B>(
                b,
                x,
                self.final_norm_weight@,
                self.final_norm,
                h,
                rows as nat,
            ),
            self.head_weight(),
            rows,
            h,
            self.config.architecture.vocab_size,
        )
    }

    /// Final norm and LM head of hidden rows.
    pub fn project_logits_dispatch<M: Math<T>, B: ComputeBackend<T>>(
        &self,
        x: &[T],
        rows: usize,
        b: &B,
    ) -> (r: Vec<T>)
        requires
            scalar::mathematics::<T, M>(),
            backend::computing::<T, B>(),
            self.wf(),
            x@.len() == rows * self.config.architecture.hidden_size,
        ensures
            r@ == self.logits_on::<M, B>(*b, x@, rows),
            r@.len() == rows * self.config.architecture.vocab_size,
    {
        let h = self.config.architecture.hidden_size;
        let normed = apply_norm_dispatch::<T, M, B>(
            x,
            self.final_norm_weight.as_slice(),
            self.final_norm,
            h,
            rows,
            b,
        );
        let head = match &self.lm_head_weight {
            Some(w) => w,
            None => &self.embed_tokens,
        };
        b.matmul_t(
            normed.as_slice(),
            head.as_slice(),
            rows,
            h,
            self.config.architecture.vocab_size,
        )
    }

    fn token_embeddings(&self, token_ids: &[u32]) -> (r: Vec<T>)
        requires
            scalar::arithmetic::<T>(),
            self.wf(),
        ensures
            r@ == self.token_rows(token_ids@),
            r@.len() == token_ids@.len() * self.config.architecture.hidden_size,
    {
        let h = self.config.architecture.hidden_size;
        let ghost f = |t: int| self.token_row(token_ids@[t]);
        let mut x: Vec<T> = Vec::new();
        assert(0 * h == 0) by (nonlinear_arith);
        for t in 0..token_ids.len()
            invariant
                scalar::arithmetic::<T>(),
                self.wf(),
                h == self.config.architecture.hidden_size,
                f == (|t: int| self.token_row(token_ids@[t])),
                x@ == ops::blocks(t as nat, f),
                x@.len() == t * h,
        {
            let row = self.token_embedding(token_ids[t]);
            extend(&mut x, row.as_slice());
            assert(x@ =~= ops::blocks((t + 1) as nat, f));
            assert((t + 1) * h == t * h + h) by (nonlinear_arith);
        }
        x
    }

    /// Forward pass dispatched through a backend. The embeddings are taken as
    /// they stand in the table.
    pub fn forward_with_backend<M: Math<T>, B: ComputeBackend<T>>(
        &self,
        token_ids: &[u32],
        b: &B,
    ) -> (r: ModelOutput<T>)
        requires
            scalar::mathematics::<T, M>(),
            backend::computing::<T, B>(),
            self.wf(),
            self.positions_reach(token_ids@.len() as int),
        ensures
            r.logits@ == self.logits_on::<M, B>(
                *b,
                self.hidden_on::<M, B>(
                    *b,
                    self.token_rows(token_ids@),
                    token_ids@.len() as usize,
                    self.layers@.len(),
                ),
                token_ids@.len() as usize,
            ),
            r.shape@ == seq![
                1usize,
                token_ids@.len() as usize,
                self.config.architecture.vocab_size,
            ],
    {
        let seq_len = token_ids.len();
        let h = self.config.architecture.hidden_size;
        let vocab = self.config.architecture.vocab_size;
        let mut x = self.token_embeddings(token_ids);
        let ghost e = x@;
        for i in 0..self.layers.len()
            invariant
                scalar::mathematics::<T, M>(),
                backend::computing::<T, B>(),
                self.wf(),
                self.positions_reach(seq_len as int),
                h == self.config.architecture.hidden_size,
                x@ == self.hidden_on::<M, B>(*b, e, seq_len, i as nat),
                x@.len() == seq_len * h,
        {
            let layer = &self.layers[i];
            x = layer.forward_with_backend::<M, B>(
                x.as_slice(),
                seq_len,
                b,
                self.rope_cos.as_slice(),
                self.rope_sin.as_slice(),
            );
        }
        let logits = self.project_logits_dispatch::<M, B>(x.as_slice(), seq_len, b);
        let shape: [usize; 3] = [1, seq_len, vocab];
        assert(shape@ =~= seq![1usize, seq_len, vocab]);
        ModelOutput { logits, shape }
    }

    /// What prefilling with `ids` does to the cache of layer `i` when the
    /// embeddings are taken as they stand in the table.
    pub open spec fn layer_filled<M: Math<T>>(
        &self,
        i: int,
        before: KVCacheLayer<T>,
        after: KVCacheLayer<T>,
        ids: Seq<u32>,
    ) -> bool {
        let x = self.hidden_after::<M>(self.token_rows(ids), ids.len(), i as nat);
        &&& after.positions() == before.positions() + ids.len()
        &&& after.capacity() == before.capacity()
        &&& after.key_rows() == before.key_rows() + self.layers@[i].key_rows::<M>(
            x,
            ids.len(),
            self.rope_cos@,
            self.rope_sin@,
        )
        &&& after.value_rows() == before.value_rows() + self.layers@[i].value_rows::<M>(
            x,
            ids.len(),
        )
    }

    /// Prefill forward pass dispatched through a backend. The layers run as in
    /// [`forward_prefill`](Self::forward_prefill); the final norm and the
    /// output projection run on the backend.
    pub fn forward_prefill_with_backend<M: Math<T>, B: ComputeBackend<T>>(
        &self,
        token_ids: &[u32],
        cache: &mut KVCache<T>,
        b: &B,
    ) -> (r: ModelOutput<T>)
        requires
            scalar::mathematics::<T, M>(),
            backend::computing::<T, B>(),
            self.wf(),
            token_ids@.len() > 0,
            self.positions_reach(token_ids@.len() as int),
            self.cache_fits(*old(cache)),
            self.cache_room(*old(cache), token_ids@.len() as int),
        ensures
            r.logits@ == self.logits_on::<M, B>(
                *b,
                ops::row(
                    self.hidden_after::<M>(
                        self.token_rows(token_ids@),
                        token_ids@.len(),
                        self.layers@.len(),
                    ),
                    token_ids@.len() - 1,
                    self.config.architecture.hidden_size as int,
                ),
                1,
            ),
            r.shape@ == seq![1usize, 1usize, self.config.architecture.vocab_size],
            self.cache_fits(*final(cache)),
            forall|i: int|
                0 <= i < self.layers@.len() ==> self.layer_filled::<M>(
                    i,
                    #[trigger] old(cache).layers@[i],
                    final(cache).layers@[i],
                    token_ids@,
                ),
    {
        let seq_len = token_ids.len();
        let h = self.config.architecture.hidden_size;
        let vocab = self.config.architecture.vocab_size;
        let mut x = self.token_embeddings(token_ids);
        let ghost e = x@;
        let ghost before = *cache;
        for i in 0..self.layers.len()
            invariant
                scalar::mathematics::<T, M>(),
                self.wf(),
                self.positions_reach(seq_len as int),
                h == self.config.architecture.hidden_size,
                seq_len == token_ids@.len(),
                e == self.token_rows(token_ids@),
                x@ == self.hidden_after::<M>(e, seq_len as nat, i as nat),
                x@.len() == seq_len * h,
                self.cache_fits(before),
                self.cache_room(before, seq_len as int),
                self.cache_fits(*cache),
                forall|j: int|
                    i <= j < self.layers@.len() ==> #[trigger] cache.layers@[j]
                        == before.layers@[j],
                forall|j: int|
                    0 <= j < i ==> self.layer_filled::<M>(
                        j,
                        #[trigger] before.layers@[j],
                        cache.layers@[j],
                        token_ids@,
                    ),
        {
            let ghost current = *cache;
            assert(current.layers@[i as int] == before.layers@[i as int]);
            let layer = &self.layers[i];
            assert(layer.wf());
            x = layer.forward_prefill_batched::<M>(
                x.as_slice(),
                seq_len,
                &mut cache.layers[i],
                self.rope_cos.as_slice(),
                self.rope_sin.as_slice(),
            );
            assert forall|j: int| 0 <= j < i implies self.layer_filled::<M>(
                j,
                #[trigger] before.layers@[j],
                cache.layers@[j],
                token_ids@,
            ) by {
                assert(cache.layers@[j] == current.layers@[j]);
            }
        }
        proof {
            ops::lemma_row_bounds(seq_len - 1, seq_len as int, h as int);
        }
        let last = row_slice(x.as_slice(), seq_len - 1, h);
        let logits = self.project_logits_dispatch::<M, B>(last, 1, b);
        let shape: [usize; 3] = [1, 1, vocab];
        assert(shape@ =~= seq![1usize, 1usize, vocab]);
        ModelOutput { logits, shape }
    }
}

impl<T: Scalar> CausalLM<T> {
    /// Single-token decode with backend dispatch: the decoder layers run on the
    /// host, the final norm and the LM head on the backend. The embedding is
    /// taken as it stands in the table.
    pub fn forward_one_with_backend<M: Math<T>, B: ComputeBackend<T>>(
        &self,
        token: u32,
        cache: &mut KVCache<T>,
        b: &B,
    ) -> (r: ModelOutput<T>)
        requires
            scalar::mathematics::<T, M>(),
            backend::computing::<T, B>(),
            self.wf(),
            self.cache_fits(*old(cache)),
            self.cache_room(*old(cache), 1),
            self.positions_reach(self.next_position(*old(cache)) + 1),
        ensures
            r.logits@ == self.logits_on::<M, B>(
                *b,
                self.decoded::<M>(
                    self.token_row(token),
                    old(cache).layers@,
                    self.next_position(*old(cache)),
                    self.layers@.len(),
                ),
                1,
            ),
            r.shape@ == seq![1usize, 1usize, self.config.architecture.vocab_size],
            self.cache_fits(*final(cache)),
            forall|i: int|
                0 <= i < self.layers@.len() ==> self.layer_decoded::<M>(
                    i,
                    old(cache).layers@,
                    #[trigger] final(cache).layers@[i],
                    self.token_row(token),
                    self.next_position(*old(cache)),
                ),
    {
        let vocab = self.config.architecture.vocab_size;
        let pos = cache.current_len();
        let e = self.token_embedding(token);
        let n = self.layers.len();
        let x = self.decode_layers::<M>(e, cache, pos, n);
        let logits = self.project_logits_dispatch::<M, B>(x.as_slice(), 1, b);
        let shape: [usize; 3] = [1, 1, vocab];
        assert(shape@ =~= seq![1usize, 1usize, vocab]);
        ModelOutput { logits, shape }
    }
}

// ── Layers that stay on a device ─────────────────────────────────────

/// What a device is told about the layers that it holds.
#[derive(Debug, Clone, Copy, PartialEq, Eq)]
pub struct LayerShape<T> {
    pub num_heads: usize,
    pub num_kv_heads: usize,
    pub head_dim: usize,
    pub hidden_size: usize,
    pub intermediate_size: usize,
    pub has_head_norms: bool,
    pub eps: T,
}

impl<T: Scalar> CausalLM<T> {
    /// The shape of the model's layers. Head norms and epsilon are those of the
    /// first layer.
    pub open spec fn layer_shape<M: Math<T>>(&self) -> LayerShape<T> {
        let layout = self.config.attention.spec_layout();
        LayerShape {
            num_heads: layout.num_heads,
            num_kv_heads: layout.num_kv_heads,
            head_dim: layout.head_dim,
            hidden_size: self.config.architecture.hidden_size,
            intermediate_size: self.config.ffn.spec_intermediate_size(),
            has_head_norms: self.layers@.len() > 0 && self.layers@[0].has_head_norms,
            eps: scalar::binary64_of::<T, M>(
                if self.layers@.len() > 0 {
                    self.layers@[0].attn_norm.spec_eps().bits
                } else {
                    BITS_1E_6
                },
            ),
        }
    }

    /// Device-resident single-token decode: `run` takes the token's embedding
    /// through all decoder layers, on caches of its own. Embedding lookup and
    /// final norm + LM head stay on the host. The embedding is taken as it
    /// stands in the table.
    pub fn forward_one_gpu_resident<M: Math<T>, F: FnOnce(Vec<T>, LayerShape<T>) -> Vec<T>>(
        &self,
        token: u32,
        run: F,
    ) -> (r: ModelOutput<T>)
        requires
            scalar::mathematics::<T, M>(),
            self.wf(),
            forall|x: Vec<T>|
                x@ == self.token_row(token) ==> #[trigger] call_requires(
                    run,
                    (x, self.layer_shape::<M>()),
                ),
            forall|x: Vec<T>, y: Vec<T>|
                x@ == self.token_row(token) && #[trigger] call_ensures(
                    run,
                    (x, self.layer_shape::<M>()),
                    y,
                ) ==> y@.len() == self.config.architecture.hidden_size,
        ensures
            exists|x: Vec<T>, y: Vec<T>|
                x@ == self.token_row(token) && #[trigger] call_ensures(
                    run,
                    (x, self.layer_shape::<M>()),
                    y,
                ) && r.logits@ == self.logits_row::<M>(y@),
            r.shape@ == seq![1usize, 1usize, self.config.architecture.vocab_size],
    {
        let vocab = self.config.architecture.vocab_size;
        let layout = self.config.attention.layout();
        let (has_head_norms, bits) = if self.layers.len() > 0 {
            (self.layers[0].has_head_norms, self.layers[0].attn_norm.eps().bits)
        } else {
            (false, BITS_1E_6)
        };
        let shape = LayerShape {
            num_heads: layout.num_heads,
            num_kv_heads: layout.num_kv_heads,
            head_dim: layout.head_dim,
            hidden_size: self.config.architecture.hidden_size,
            intermediate_size: self.config.ffn.intermediate_size(),
            has_head_norms,
            eps: M::from_binary64(bits),
        };
        assert(shape == self.layer_shape::<M>());
        // 1. Embedding lookup on the host
        let x = self.token_embedding(token);
        let ghost given = x;
        // 2. All decoder layers on the device
        let y = run(x, shape);
        assert(call_ensures(run, (given, self.layer_shape::<M>()), y));
        // 3. Final norm and LM head on the host
        let logits = self.project_logits::<M>(y.as_slice());
        let shape: [usize; 3] = [1, 1, vocab];
        assert(shape@ =~= seq![1usize, 1usize, vocab]);
        ModelOutput { logits, shape }
    }
}

// ── Laws ─────────────────────────────────────────────────────────────

/// The backend computes what the host computes.
pub open spec fn on_host<T: Scalar, M: Math<T>, B: ComputeBackend<T>>(b: B) -> bool {
    &&& forall|x: Seq<T>, w: Seq<T>, m: usize, k: usize, n: usize|
        x.len() == m * k && w.len() == n * k ==> #[trigger] backend::product_on(b, x, w, m, k, n)
            == ops::product(x, w, m as nat, k as nat, n as nat)
    &&& forall|x: Seq<T>, w: Seq<T>, eps: T, h: usize, rows: nat|
        #![trigger backend::rms_on(b, x, w, eps, h), ops::rms_norm_of::<T, M>(
            x, w, eps, h as nat, rows)]
        x.len() == rows * h ==> backend::rms_on(b, x, w, eps, h) == ops::rms_norm_of::<T, M>(
            x,
            w,
            eps,
            h as nat,
            rows,
        )
    &&& forall|gate: Seq<T>, up: Seq<T>|
        gate.len() == up.len() ==> #[trigger] backend::swiglu_on(b, gate, up) == ops::product_of(
            ops::all_activated::<T, M>(Activation::Silu, gate),
            up,
        )
}

/// A matrix of `rows` rows of `w` elements whose row `t` is `f(t)`.
spec fn has_rows<T>(x: Seq<T>, rows: nat, w: nat, f: spec_fn(int) -> Seq<T>) -> bool {
    &&& x.len() == rows * w
    &&& forall|t: int| 0 <= t < rows ==> #[trigger] ops::row(x, t, w as int) == f(t)
}

proof fn lemma_normed_rows<T: Scalar, M: Math<T>, B: ComputeBackend<T>>(
    b: B,
    x: Seq<T>,
    w: Seq<T>,
    norm: NormConfig,
    h: usize,
    rows: nat,
)
    requires
        on_host::<T, M, B>(b),
        x.len() == rows * h,
        w.len() == h,
    ensures
        has_rows(
            normed_on::<T, M, B>(b, x, w, norm, h, rows),
            rows,
            h as nat,
            |t: int| norm::normed_row::<T, M>(norm, ops::row(x, t, h as int), w),
        ),
{
    let f = |t: int| norm::normed_row::<T, M>(norm, ops::row(x, t, h as int), w);
    assert forall|t: int| 0 <= t < rows implies #[trigger] f(t).len() == h by {
        ops::lemma_row_bounds(t, rows as int, h as int);
    }
    ops::lemma_blocks_rows(rows, f, h as nat);
    match norm {
        NormConfig::RMSNorm { eps } => {
            let e = scalar::binary64_of::<T, M>(eps.bits);
            let g = |t: int| ops::rms_row::<T, M>(ops::row(x, t, h as int), w, e);
            assert(ops::rms_norm_of::<T, M>(x, w, e, h as nat, rows) == ops::blocks(rows, g));
            ops::lemma_blocks_same(rows, g, f);
        },
        NormConfig::LayerNorm { eps } => {
            let e = scalar::binary64_of::<T, M>(eps.bits);
            let g = |t: int| ops::layer_row::<T, M>(ops::row(x, t, h as int), w, e);
            ops::lemma_blocks_same(rows, g, f);
        },
    }
}

proof fn lemma_product_rows<T: Scalar, M: Math<T>, B: ComputeBackend<T>>(
    b: B,
    x: Seq<T>,
    w: Seq<T>,
    bias: Seq<T>,
    rows: usize,
    k: usize,
    n: usize,
)
    requires
        on_host::<T, M, B>(b),
        x.len() == rows * k,
        w.len() == n * k,
        bias.len() == 0 || bias.len() == n,
    ensures
        has_rows(
            ops::biased(
                backend::product_on(b, x, w, rows, k, n),
                bias,
                rows as nat,
                n as nat,
            ),
            rows as nat,
            n as nat,
            |t: int| ops::linear_row(ops::row(x, t, k as int), w, bias, k as nat, n as nat),
        ),
{
    ops::lemma_linear(x, w, bias, rows as nat, k as nat, n as nat);
    let f = |t: int| ops::linear_row(ops::row(x, t, k as int), w, bias, k as nat, n as nat);
    ops::lemma_blocks_rows(rows as nat, f, n as nat);
}

/// A row of an element-wise product is the product of the rows.
proof fn lemma_product_row<T: Scalar>(a: Seq<T>, b: Seq<T>, rows: nat, w: nat, t: int)
    requires
        0 <= t < rows,
        a.len() == rows * w,
        b.len() == rows * w,
    ensures
        ops::row(ops::product_of(a, b), t, w as int) == ops::product_of(
            ops::row(a, t, w as int),
            ops::row(b, t, w as int),
        ),
{
    ops::lemma_row_bounds(t, rows as int, w as int);
    assert(ops::row(ops::product_of(a, b), t, w as int) =~= ops::product_of(
        ops::row(a, t, w as int),
        ops::row(b, t, w as int),
    ));
}

/// A row of activated elements is the activated row.
proof fn lemma_activated_row<T: Scalar, M: Math<T>>(
    kind: Activation,
    a: Seq<T>,
    rows: nat,
    w: nat,
    t: int,
)
    requires
        0 <= t < rows,
        a.len() == rows * w,
    ensures
        ops::row(ops::all_activated::<T, M>(kind, a), t, w as int) == ops::all_activated::<T, M>(
            kind,
            ops::row(a, t, w as int),
        ),
{
    ops::lemma_row_bounds(t, rows as int, w as int);
    assert(ops::row(ops::all_activated::<T, M>(kind, a), t, w as int)
        =~= ops::all_activated::<T, M>(kind, ops::row(a, t, w as int)));
}

impl<T: Scalar> DecoderLayer<T> {
    proof fn lemma_attention_on_host<M: Math<T>, B: ComputeBackend<T>>(
        &self,
        b: B,
        x: Seq<T>,
        rows: usize,
        cos: Seq<T>,
        sin: Seq<T>,
    )
        requires
            self.wf(),
            on_host::<T, M, B>(b),
            x.len() == rows * self.hidden_size,
        ensures
            ({
                let normed = normed_on::<T, M, B>(
                    b,
                    x,
                    self.attn_norm_weight@,
                    self.attn_norm,
                    self.hidden_size,
                    rows as nat,
                );
                let layout = self.attention.spec_layout();
                has_rows(
                    self.attention_on::<M, B>(b, normed, rows, cos, sin),
                    rows as nat,
                    self.hidden_size as nat,
                    |t: int|
                        ops::linear_row(
                            attention::row_output::<T, M>(
                                layout,
                                self.query_row::<M>(
                                    ops::row(x, t, self.hidden_size as int),
                                    cos,
                                    sin,
                                    t,
                                ),
                                self.key_rows::<M>(x, rows as nat, cos, sin),
                                self.value_rows::<M>(x, rows as nat),
                                0,
                                (t + 1) as nat,
                            ),
                            self.w_o@,
                            Seq::empty(),
                            layout.q_dim(),
                            self.hidden_size as nat,
                        ),
                )
            }),
    {
        let h = self.hidden_size;
        let n = rows as nat;
        let layout = self.attention.spec_layout();
        let (heads, kv_heads, d) = (layout.num_heads, layout.num_kv_heads, layout.head_dim);
        let q_dim = (heads * d) as usize;
        let kv_dim = (kv_heads * d) as usize;
        let eps = scalar::binary64_of::<T, M>(self.attn_norm.spec_eps().bits);
        let normed = normed_on::<T, M, B>(
            b,
            x,
            self.attn_norm_weight@,
            self.attn_norm,
            h,
            n,
        );
        lemma_normed_rows::<T, M, B>(b, x, self.attn_norm_weight@, self.attn_norm, h, n);
        let q0 = self.projected_on(b, normed, self.w_q@, self.q_bias@, rows, q_dim);
        let k0 = self.projected_on(b, normed, self.w_k@, self.k_bias@, rows, kv_dim);
        let v0 = self.projected_on(b, normed, self.w_v@, self.v_bias@, rows, kv_dim);
        lemma_product_rows::<T, M, B>(b, normed, self.w_q@, self.q_bias@, rows, h, q_dim);
        lemma_product_rows::<T, M, B>(b, normed, self.w_k@, self.k_bias@, rows, h, kv_dim);
        lemma_product_rows::<T, M, B>(b, normed, self.w_v@, self.v_bias@, rows, h, kv_dim);
        // Queries.
        let fq = |t: int|
            norm::head_normed_row::<T, M>(
                ops::row(q0, t, q_dim as int),
                self.q_norm_weight@,
                heads as nat,
                d as nat,
                eps,
            );
        assert forall|t: int| 0 <= t < n implies #[trigger] fq(t).len() == q_dim by {
            ops::lemma_row_bounds(t, n as int, q_dim as int);
            norm::lemma_head_normed_len::<T, M>(
                ops::row(q0, t, q_dim as int),
                self.q_norm_weight@,
                heads as nat,
                d as nat,
                eps,
            );
        }
        ops::lemma_blocks_rows(n, fq, q_dim as nat);
        let q1 = norm::head_normed::<T, M>(
            q0,
            self.q_norm_weight@,
            n,
            heads as nat,
            d as nat,
            eps,
        );
        assert(q1 == ops::blocks(n, fq));
        let gq = |t: int|
            rope::rotated_row(
                ops::row(q1, t, q_dim as int),
                cos,
                sin,
                heads as nat,
                d as nat,
                0 + t,
                self.rope_style,
            );
        let hq = |t: int| self.query_row::<M>(ops::row(x, t, h as int), cos, sin, t);
        assert forall|t: int| 0 <= t < n implies #[trigger] gq(t) == hq(t) by {
            assert(ops::row(q1, t, q_dim as int) == fq(t));
        }
        ops::lemma_blocks_same(n, gq, hq);
        let q2 = rope::rotated(q1, cos, sin, n, heads as nat, d as nat, 0, self.rope_style);
        assert(q2 == ops::blocks(n, gq));
        assert forall|t: int| 0 <= t < n implies #[trigger] hq(t).len() == q_dim by {
            ops::lemma_row_bounds(t, n as int, h as int);
            self.lemma_row_lens::<M>(ops::row(x, t, h as int), cos, sin, t);
        }
        ops::lemma_blocks_rows(n, hq, q_dim as nat);
        // Keys.
        let fk = |t: int|
            norm::head_normed_row::<T, M>(
                ops::row(k0, t, kv_dim as int),
                self.k_norm_weight@,
                kv_heads as nat,
                d as nat,
                eps,
            );
        assert forall|t: int| 0 <= t < n implies #[trigger] fk(t).len() == kv_dim by {
            ops::lemma_row_bounds(t, n as int, kv_dim as int);
            norm::lemma_head_normed_len::<T, M>(
                ops::row(k0, t, kv_dim as int),
                self.k_norm_weight@,
                kv_heads as nat,
                d as nat,
                eps,
            );
        }
        ops::lemma_blocks_rows(n, fk, kv_dim as nat);
        let k1 = norm::head_normed::<T, M>(
            k0,
            self.k_norm_weight@,
            n,
            kv_heads as nat,
            d as nat,
            eps,
        );
        assert(k1 == ops::blocks(n, fk));
        let gk = |t: int|
            rope::rotated_row(
                ops::row(k1, t, kv_dim as int),
                cos,
                sin,
                kv_heads as nat,
                d as nat,
                0 + t,
                self.rope_style,
            );
        let hk = |t: int| self.key_row::<M>(ops::row(x, t, h as int), cos, sin, t);
        assert forall|t: int| 0 <= t < n implies #[trigger] gk(t) == hk(t) by {
            assert(ops::row(k1, t, kv_dim as int) == fk(t));
        }
        ops::lemma_blocks_same(n, gk, hk);
        let k2 = rope::rotated(k1, cos, sin, n, kv_heads as nat, d as nat, 0, self.rope_style);
        assert(k2 == ops::blocks(n, gk));
        assert(k2 == self.key_rows::<M>(x, n, cos, sin));
        // Values.
        let gv = |t: int| ops::row(v0, t, kv_dim as int);
        let hv = |t: int| self.value_row::<M>(ops::row(x, t, h as int));
        ops::lemma_rows(v0, n, kv_dim as nat);
        assert forall|t: int| 0 <= t < n implies #[trigger] gv(t) == hv(t) by {
            assert(ops::row(v0, t, kv_dim as int) == gv(t));
        }
        ops::lemma_blocks_same(n, gv, hv);
        assert(v0 == self.value_rows::<M>(x, n));
        // What each row sees, projected.
        let seen = attention::causal_output::<T, M>(layout, q2, k2, v0, n);
        let fs = |t: int|
            attention::row_output::<T, M>(
                layout,
                ops::row(q2, t, layout.q_dim() as int),
                k2,
                v0,
                0,
                (t + 1) as nat,
            );
        assert forall|t: int| 0 <= t < n implies #[trigger] fs(t).len() == q_dim by {
            assert(ops::row(q2, t, q_dim as int) == hq(t));
            attention::lemma_row_output_len::<T, M>(
                layout,
                ops::row(q2, t, q_dim as int),
                k2,
                v0,
                0,
                (t + 1) as nat,
            );
        }
        ops::lemma_blocks_rows(n, fs, q_dim as nat);
        lemma_product_rows::<T, M, B>(b, seen, self.w_o@, Seq::empty(), rows, q_dim, h);
        let out = self.attention_on::<M, B>(b, normed, rows, cos, sin);
        let want = |t: int|
            ops::linear_row(
                attention::row_output::<T, M>(
                    layout,
                    self.query_row::<M>(ops::row(x, t, h as int), cos, sin, t),
                    self.key_rows::<M>(x, n, cos, sin),
                    self.value_rows::<M>(x, n),
                    0,
                    (t + 1) as nat,
                ),
                self.w_o@,
                Seq::empty(),
                layout.q_dim(),
                h as nat,
            );
        assert(out == backend::product_on(b, seen, self.w_o@, rows, q_dim, h));
        assert forall|t: int| 0 <= t < n implies #[trigger] ops::row(out, t, h as int) == want(
            t,
        ) by {
            assert(ops::row(seen, t, q_dim as int) == fs(t));
            assert(ops::row(q2, t, q_dim as int) == hq(t));
        }
    }

    proof fn lemma_ffn_on_host<M: Math<T>, B: ComputeBackend<T>>(
        &self,
        b: B,
        residual: Seq<T>,
        rows: usize,
    )
        requires
            self.wf(),
            on_host::<T, M, B>(b),
            residual.len() == rows * self.hidden_size,
        ensures
            has_rows(
                self.with_ffn_on::<M, B>(b, residual, rows),
                rows as nat,
                self.hidden_size as nat,
                |t: int|
                    {
                        let x = ops::row(residual, t, self.hidden_size as int);
                        ops::sum_of(
                            x,
                            self.ffn_row::<M>(
                                norm::normed_row::<T, M>(self.ffn_norm, x, self.ffn_norm_weight@),
                            ),
                        )
                    },
            ),
    {
        let h = self.hidden_size;
        let n = rows as nat;
        let inter = self.ffn.spec_intermediate_size();
        let none = Seq::<T>::empty();
        let normed = normed_on::<T, M, B>(
            b,
            residual,
            self.ffn_norm_weight@,
            self.ffn_norm,
            h,
            n,
        );
        lemma_normed_rows::<T, M, B>(b, residual, self.ffn_norm_weight@, self.ffn_norm, h, n);
        let up = backend::product_on(b, normed, self.ffn_up@, rows, h, inter);
        lemma_product_rows::<T, M, B>(b, normed, self.ffn_up@, none, rows, h, inter);
        let gate = backend::product_on(b, normed, self.ffn_gate@, rows, h, inter);
        if self.ffn.gated() {
            lemma_product_rows::<T, M, B>(b, normed, self.ffn_gate@, none, rows, h, inter);
        }
        let hidden = match self.ffn {
            FFNConfig::SwiGLU { intermediate_size } => backend::swiglu_on(b, gate, up),
            FFNConfig::GeGLU { intermediate_size } => ops::product_of(
                ops::all_activated::<T, M>(Activation::Gelu, gate),
                up,
            ),
            FFNConfig::GELU { intermediate_size } => ops::all_activated::<T, M>(
                Activation::Gelu,
                up,
            ),
        };
        assert(hidden.len() == rows * inter);
        lemma_product_rows::<T, M, B>(b, hidden, self.ffn_down@, none, rows, inter, h);
        let ffn = self.ffn_on::<M, B>(b, normed, rows);
        assert(ffn == backend::product_on(b, hidden, self.ffn_down@, rows, inter, h));
        let out = self.with_ffn_on::<M, B>(b, residual, rows);
        let want = |t: int|
            {
                let x = ops::row(residual, t, self.hidden_size as int);
                ops::sum_of(
                    x,
                    self.ffn_row::<M>(
                        norm::normed_row::<T, M>(self.ffn_norm, x, self.ffn_norm_weight@),
                    ),
                )
            };
        assert forall|t: int| 0 <= t < n implies #[trigger] ops::row(out, t, h as int) == want(
            t,
        ) by {
            let x = ops::row(residual, t, h as int);
            let y = norm::normed_row::<T, M>(self.ffn_norm, x, self.ffn_norm_weight@);
            assert(ops::row(normed, t, h as int) == y);
            assert(ops::row(up, t, inter as int) == ops::linear_row(
                y,
                self.ffn_up@,
                none,
                h as nat,
                inter as nat,
            ));
            if self.ffn.gated() {
                assert(ops::row(gate, t, inter as int) == ops::linear_row(
                    y,
                    self.ffn_gate@,
                    none,
                    h as nat,
                    inter as nat,
                ));
            }
            match self.ffn {
                FFNConfig::SwiGLU { intermediate_size } => {
                    let a = ops::all_activated::<T, M>(Activation::Silu, gate);
                    lemma_activated_row::<T, M>(Activation::Silu, gate, n, inter as nat, t);
                    lemma_product_row(a, up, n, inter as nat, t);
                },
                FFNConfig::GeGLU { intermediate_size } => {
                    let a = ops::all_activated::<T, M>(Activation::Gelu, gate);
                    lemma_activated_row::<T, M>(Activation::Gelu, gate, n, inter as nat, t);
                    lemma_product_row(a, up, n, inter as nat, t);
                },
                FFNConfig::GELU { intermediate_size } => {
                    lemma_activated_row::<T, M>(Activation::Gelu, up, n, inter as nat, t);
                },
            }
            assert(ops::row(ffn, t, h as int) == self.ffn_row::<M>(y));
            ops::lemma_sum_row(residual, ffn, n, h as nat, t);
        }
    }

    /// On a backend that computes what the host computes, the layer gives what
    /// [`forward`](Self::forward) gives.
    pub proof fn lemma_forward_on_host<M: Math<T>, B: ComputeBackend<T>>(
        &self,
        b: B,
        x: Seq<T>,
        rows: usize,
        cos: Seq<T>,
        sin: Seq<T>,
    )
        requires
            self.wf(),
            on_host::<T, M, B>(b),
            x.len() == rows * self.hidden_size,
        ensures
            self.forward_on::<M, B>(b, x, rows, cos, sin) == self.forward_of::<M>(
                x,
                rows as nat,
                cos,
                sin,
            ),
    {
        let h = self.hidden_size;
        let n = rows as nat;
        let normed = normed_on::<T, M, B>(
            b,
            x,
            self.attn_norm_weight@,
            self.attn_norm,
            h,
            n,
        );
        let attn = self.attention_on::<M, B>(b, normed, rows, cos, sin);
        self.lemma_attention_on_host::<M, B>(b, x, rows, cos, sin);
        let residual = ops::sum_of(x, attn);
        self.lemma_ffn_on_host::<M, B>(b, residual, rows);
        let out = self.forward_on::<M, B>(b, x, rows, cos, sin);
        let f = |t: int| ops::row(out, t, h as int);
        let g = |t: int|
            self.output_row::<M>(
                ops::row(x, t, h as int),
                self.key_rows::<M>(x, n, cos, sin),
                self.value_rows::<M>(x, n),
                0,
                (t + 1) as nat,
                cos,
                sin,
                t,
            );
        ops::lemma_rows(out, n, h as nat);
        assert forall|t: int| 0 <= t < n implies #[trigger] f(t) == g(t) by {
            ops::lemma_sum_row(x, attn, n, h as nat, t);
            assert(ops::row(attn, t, h as int).len() >= 0);
            assert(ops::row(out, t, h as int) == f(t));
        }
        ops::lemma_blocks_same(n, f, g);
    }
}

/// A matrix of one row is that row.
proof fn lemma_only_row<T>(x: Seq<T>, w: nat, f: spec_fn(int) -> Seq<T>)
    requires
        has_rows(x, 1, w, f),
    ensures
        x == f(0),
{
    assert(ops::row(x, 0, w as int) == f(0));
    assert(ops::row(x, 0, w as int) =~= x);
}

impl<T: Scalar> DecoderLayer<T> {
    /// The projections of one row on a backend that computes what the host
    /// computes.
    proof fn lemma_projected_on_host<M: Math<T>, B: ComputeBackend<T>>(
        &self,
        b: B,
        x: Seq<T>,
        w: Seq<T>,
        bias: Seq<T>,
        n: usize,
    )
        requires
            self.wf(),
            on_host::<T, M, B>(b),
            x.len() == self.hidden_size,
            w.len() == n * self.hidden_size,
            bias.len() == 0 || bias.len() == n,
        ensures
            self.projected_on(b, self.attn_input_on::<M, B>(b, x), w, bias, 1, n)
                == ops::linear_row(
                norm::normed_row::<T, M>(self.attn_norm, x, self.attn_norm_weight@),
                w,
                bias,
                self.hidden_size as nat,
                n as nat,
            ),
    {
        let h = self.hidden_size;
        let normed = self.attn_input_on::<M, B>(b, x);
        assert(ops::row(x, 0, h as int) =~= x);
        lemma_normed_rows::<T, M, B>(b, x, self.attn_norm_weight@, self.attn_norm, h, 1);
        lemma_only_row(
            normed,
            h as nat,
            |t: int|
                norm::normed_row::<T, M>(
                    self.attn_norm,
                    ops::row(x, t, h as int),
                    self.attn_norm_weight@,
                ),
        );
        assert(ops::row(normed, 0, h as int) =~= normed);
        lemma_product_rows::<T, M, B>(b, normed, w, bias, 1, h, n);
        lemma_only_row(
            self.projected_on(b, normed, w, bias, 1, n),
            n as nat,
            |t: int| ops::linear_row(ops::row(normed, t, h as int), w, bias, h as nat, n as nat),
        );
    }

    /// On a backend that computes what the host computes, decoding one
    /// position caches the rows and gives the output of
    /// [`forward_one`](Self::forward_one).
    pub proof fn lemma_decode_on_host<M: Math<T>, B: ComputeBackend<T>>(
        &self,
        b: B,
        x: Seq<T>,
        keys: Seq<T>,
        values: Seq<T>,
        start: int,
        n: nat,
        cos: Seq<T>,
        sin: Seq<T>,
        pos: int,
    )
        requires
            self.wf(),
            on_host::<T, M, B>(b),
            x.len() == self.hidden_size,
        ensures
            self.key_on::<M, B>(b, x, cos, sin, pos) == self.key_row::<M>(x, cos, sin, pos),
            self.value_on::<M, B>(b, x) == self.value_row::<M>(x),
            self.decode_on::<M, B>(b, x, keys, values, start, n, cos, sin, pos)
                == self.output_row::<M>(x, keys, values, start, n, cos, sin, pos),
    {
        let h = self.hidden_size;
        let layout = self.attention.spec_layout();
        let q_dim = (layout.num_heads * layout.head_dim) as usize;
        let kv_dim = (layout.num_kv_heads * layout.head_dim) as usize;
        self.lemma_projected_on_host::<M, B>(b, x, self.w_q@, self.q_bias@, q_dim);
        self.lemma_projected_on_host::<M, B>(b, x, self.w_k@, self.k_bias@, kv_dim);
        self.lemma_projected_on_host::<M, B>(b, x, self.w_v@, self.v_bias@, kv_dim);
        self.lemma_row_lens::<M>(x, cos, sin, pos);
        let q = self.query_row::<M>(x, cos, sin, pos);
        assert(self.query_on::<M, B>(b, x, cos, sin, pos) == q);
        attention::lemma_row_output_len::<T, M>(layout, q, keys, values, start, n);
        let seen = attention::row_output::<T, M>(layout, q, keys, values, start, n);
        let none = Seq::<T>::empty();
        assert(seen.len() == q_dim);
        assert(0 * q_dim == 0 && (0 + 1) * q_dim == q_dim) by (nonlinear_arith);
        assert(ops::row(seen, 0, q_dim as int) =~= seen);
        lemma_product_rows::<T, M, B>(b, seen, self.w_o@, none, 1, q_dim, h);
        let attn = backend::product_on(b, seen, self.w_o@, 1, q_dim, h);
        lemma_only_row(
            attn,
            h as nat,
            |t: int|
                ops::linear_row(
                    ops::row(seen, t, q_dim as int),
                    self.w_o@,
                    none,
                    q_dim as nat,
                    h as nat,
                ),
        );
        let residual = ops::sum_of(x, attn);
        assert(ops::row(residual, 0, h as int) =~= residual);
        self.lemma_ffn_on_host::<M, B>(b, residual, 1);
        lemma_only_row(
            self.with_ffn_on::<M, B>(b, residual, 1),
            h as nat,
            |t: int|
                {
                    let x = ops::row(residual, t, self.hidden_size as int);
                    ops::sum_of(
                        x,
                        self.ffn_row::<M>(
                            norm::normed_row::<T, M>(self.ffn_norm, x, self.ffn_norm_weight@),
                        ),
                    )
                },
        );
    }
}

impl<T: Scalar> CausalLM<T> {
    /// On a backend that computes what the host computes, the layers give what
    /// they give in [`forward`](Self::forward).
    pub proof fn lemma_hidden_on_host<M: Math<T>, B: ComputeBackend<T>>(
        &self,
        b: B,
        x: Seq<T>,
        rows: usize,
        n: nat,
    )
        requires
            self.wf(),
            on_host::<T, M, B>(b),
            x.len() == rows * self.config.architecture.hidden_size,
            n <= self.layers@.len(),
        ensures
            self.hidden_on::<M, B>(b, x, rows, n) == self.hidden_after::<M>(x, rows as nat, n),
            self.hidden_after::<M>(x, rows as nat, n).len() == rows
                * self.config.architecture.hidden_size,
        decreases n,
    {
        if n > 0 {
            self.lemma_hidden_on_host::<M, B>(b, x, rows, (n - 1) as nat);
            self.layers@[n - 1].lemma_forward_on_host::<M, B>(
                b,
                self.hidden_on::<M, B>(b, x, rows, (n - 1) as nat),
                rows,
                self.rope_cos@,
                self.rope_sin@,
            );
        }
        self.lemma_hidden_len::<M>(x, rows as nat, n);
    }

    /// On a backend that computes what the host computes, a decoded row has the
    /// logits that it has in [`forward_one`](Self::forward_one).
    pub proof fn lemma_decoded_logits_on_host<M: Math<T>, B: ComputeBackend<T>>(
        &self,
        b: B,
        x: Seq<T>,
    )
        requires
            self.wf(),
            on_host::<T, M, B>(b),
            x.len() == self.config.architecture.hidden_size,
        ensures
            self.logits_on::<M, B>(b, x, 1) == self.logits_row::<M>(x),
    {
        let h = self.config.architecture.hidden_size;
        let vocab = self.config.architecture.vocab_size;
        let none = Seq::<T>::empty();
        let normed = normed_on::<T, M, B>(b, x, self.final_norm_weight@, self.final_norm, h, 1);
        assert(ops::row(x, 0, h as int) =~= x);
        lemma_normed_rows::<T, M, B>(b, x, self.final_norm_weight@, self.final_norm, h, 1);
        lemma_only_row(
            normed,
            h as nat,
            |t: int|
                norm::normed_row::<T, M>(
                    self.final_norm,
                    ops::row(x, t, h as int),
                    self.final_norm_weight@,
                ),
        );
        assert(ops::row(normed, 0, h as int) =~= normed);
        lemma_product_rows::<T, M, B>(b, normed, self.head_weight(), none, 1, h, vocab);
        lemma_only_row(
            backend::product_on(b, normed, self.head_weight(), 1, h, vocab),
            vocab as nat,
            |t: int|
                ops::linear_row(
                    ops::row(normed, t, h as int),
                    self.head_weight(),
                    none,
                    h as nat,
                    vocab as nat,
                ),
        );
    }

    /// A model without a scale on its embeddings gives, on a backend that
    /// computes what the host computes, the logits of
    /// [`forward`](Self::forward).
    pub proof fn lemma_logits_on_host<M: Math<T>, B: ComputeBackend<T>>(
        &self,
        b: B,
        ids: Seq<u32>,
    )
        requires
            self.wf(),
            on_host::<T, M, B>(b),
            self.config.architecture.embed_scale is None,
            ids.len() <= usize::MAX,
        ensures
            self.logits_on::<M, B>(
                b,
                self.hidden_on::<M, B>(
                    b,
                    self.token_rows(ids),
                    ids.len() as usize,
                    self.layers@.len(),
                ),
                ids.len() as usize,
            ) == self.logits_of::<M>(ids),
    {
        let rows = ids.len() as usize;
        let n = ids.len();
        let h = self.config.architecture.hidden_size;
        let vocab = self.config.architecture.vocab_size;
        let f = |t: int| self.token_row(ids[t]);
        let g = |t: int| self.embed_row::<M>(ids[t]);
        ops::lemma_blocks_same(n, f, g);
        assert(self.token_rows(ids) == self.embeddings::<M>(ids));
        self.lemma_embeddings_len::<M>(ids);
        self.lemma_hidden_on_host::<M, B>(b, self.token_rows(ids), rows, self.layers@.len());
        let x = self.final_hidden::<M>(ids);
        let normed = normed_on::<T, M, B>(b, x, self.final_norm_weight@, self.final_norm, h, n);
        lemma_normed_rows::<T, M, B>(b, x, self.final_norm_weight@, self.final_norm, h, n);
        lemma_product_rows::<T, M, B>(b, normed, self.head_weight(), Seq::empty(), rows, h, vocab);
        let out = backend::product_on(b, normed, self.head_weight(), rows, h, vocab);
        let p = |t: int| ops::row(out, t, vocab as int);
        let q = |t: int| self.logits_row::<M>(ops::row(x, t, h as int));
        ops::lemma_rows(out, n, vocab as nat);
        assert forall|t: int| 0 <= t < n implies #[trigger] p(t) == q(t) by {
            assert(ops::row(normed, t, h as int).len() >= 0);
            assert(ops::row(out, t, vocab as int) == p(t));
        }
        ops::lemma_blocks_same(n, p, q);
    }
}

} // verus!
