//! RoBERTa / UniXcoder encoder with packed weights.
//!
//! Mirrors [`RoBERTaEncoder`] with every per-layer linear (Q/K/V/O and the
//! feed-forward up/down) in a packed form. Embeddings, biases and norms stay
//! as they are.

use vstd::prelude::*;

use crate::buffer::{copy_slice, AlignedBuffer};
use crate::config::Binary64;
use crate::models::text_encoder::roberta;
use crate::models::text_encoder::roberta::{
    apply_gelu, attend_all, RoBERTaConfig, RoBERTaEmbeddings, RoBERTaEncoder, RoBERTaLayer,
};
use crate::ops;
use crate::ops::{add_vecs, layernorm_with_bias, row_slice};
use crate::packed;
use crate::packed::{packed_linear, PackedLinear};
use crate::scalar;
use crate::scalar::{Math, Scalar};

verus! {

pub struct Q4RoBERTaLayer<T, Q> {
    pub hidden_size: usize,
    pub num_heads: usize,
    pub intermediate_size: usize,
    pub layer_norm_eps: Binary64,
    pub w_q: Q,
    pub q_bias: AlignedBuffer<T>,
    pub w_k: Q,
    pub k_bias: AlignedBuffer<T>,
    pub w_v: Q,
    pub v_bias: AlignedBuffer<T>,
    pub w_o: Q,
    pub o_bias: AlignedBuffer<T>,
    pub attn_ln_w: AlignedBuffer<T>,
    pub attn_ln_b: AlignedBuffer<T>,
    pub w_up: Q,
    pub up_bias: AlignedBuffer<T>,
    pub w_down: Q,
    pub down_bias: AlignedBuffer<T>,
    pub ffn_ln_w: AlignedBuffer<T>,
    pub ffn_ln_b: AlignedBuffer<T>,
}

impl<T: Scalar, Q: PackedLinear<T>> Q4RoBERTaLayer<T, Q> {
    /// The packed form of a layer: its matrices packed, all else the same.
    pub open spec fn is_packed_from(&self, l: RoBERTaLayer<T>) -> bool {
        let h = l.hidden_size;
        let inter = l.intermediate_size;
        &&& self.hidden_size == h
        &&& self.num_heads == l.num_heads
        &&& self.intermediate_size == inter
        &&& self.layer_norm_eps == l.layer_norm_eps
        &&& self.w_q == packed::packed_of::<T, Q>(l.w_q@, h, h)
        &&& self.w_k == packed::packed_of::<T, Q>(l.w_k@, h, h)
        &&& self.w_v == packed::packed_of::<T, Q>(l.w_v@, h, h)
        &&& self.w_o == packed::packed_of::<T, Q>(l.w_o@, h, h)
        &&& self.w_up == packed::packed_of::<T, Q>(l.w_up@, inter, h)
        &&& self.w_down == packed::packed_of::<T, Q>(l.w_down@, h, inter)
        &&& self.q_bias@ == l.q_bias@
        &&& self.k_bias@ == l.k_bias@
        &&& self.v_bias@ == l.v_bias@
        &&& self.o_bias@ == l.o_bias@
        &&& self.attn_ln_w@ == l.attn_ln_weight@
        &&& self.attn_ln_b@ == l.attn_ln_bias@
        &&& self.up_bias@ == l.up_bias@
        &&& self.down_bias@ == l.down_bias@
        &&& self.ffn_ln_w@ == l.ffn_ln_weight@
        &&& self.ffn_ln_b@ == l.ffn_ln_bias@
    }

    /// The heads make up a row, and the weights have their sizes. A bias may
    /// be missing.
    pub open spec fn wf(&self) -> bool {
        let h = self.hidden_size as nat;
        let inter = self.intermediate_size as nat;
        &&& self.num_heads > 0
        &&& self.hidden_size % self.num_heads == 0
        &&& packed::maps_rows::<T, Q>(self.w_q, h, h)
        &&& packed::maps_rows::<T, Q>(self.w_k, h, h)
        &&& packed::maps_rows::<T, Q>(self.w_v, h, h)
        &&& packed::maps_rows::<T, Q>(self.w_o, h, h)
        &&& packed::maps_rows::<T, Q>(self.w_up, h, inter)
        &&& packed::maps_rows::<T, Q>(self.w_down, inter, h)
        &&& self.q_bias@.len() == 0 || h <= self.q_bias@.len()
        &&& self.k_bias@.len() == 0 || h <= self.k_bias@.len()
        &&& self.v_bias@.len() == 0 || h <= self.v_bias@.len()
        &&& self.o_bias@.len() == 0 || h <= self.o_bias@.len()
        &&& h <= self.attn_ln_w@.len()
        &&& h <= self.attn_ln_b@.len()
        &&& self.up_bias@.len() == 0 || inter <= self.up_bias@.len()
        &&& self.down_bias@.len() == 0 || h <= self.down_bias@.len()
        &&& h <= self.ffn_ln_w@.len()
        &&& h <= self.ffn_ln_b@.len()
    }

    pub open spec fn head_dim(&self) -> usize {
        (self.hidden_size as int / self.num_heads as int) as usize
    }

    pub open spec fn eps<M: Math<T>>(&self) -> T {
        scalar::binary64_of::<T, M>(self.layer_norm_eps.bits)
    }

    /// What the attention sub-layer adds.
    pub open spec fn attn_branch<M: Math<T>>(
        &self,
        x: Seq<T>,
        rows: usize,
        mask: Option<Seq<i64>>,
    ) -> Seq<T> {
        let h = self.hidden_size as nat;
        let seen = roberta::attention_of::<T, M>(
            packed::packed_linear_of(self.w_q, x, self.q_bias@, rows, h),
            packed::packed_linear_of(self.w_k, x, self.k_bias@, rows, h),
            packed::packed_linear_of(self.w_v, x, self.v_bias@, rows, h),
            rows as nat,
            self.num_heads,
            self.head_dim(),
            mask,
        );
        packed::packed_linear_of(self.w_o, seen, self.o_bias@, rows, h)
    }

    /// What the feed-forward sub-layer adds.
    pub open spec fn ffn_branch<M: Math<T>>(&self, x: Seq<T>, rows: usize) -> Seq<T> {
        let up = packed::packed_linear_of(
            self.w_up,
            x,
            self.up_bias@,
            rows,
            self.intermediate_size as nat,
        );
        packed::packed_linear_of(
            self.w_down,
            roberta::gelued::<T, M>(up),
            self.down_bias@,
            rows,
            self.hidden_size as nat,
        )
    }

    /// Rows through the layer: after each sub-layer its result is added and
    /// the sum is normalised.
    pub open spec fn output<M: Math<T>>(
        &self,
        x: Seq<T>,
        rows: usize,
        mask: Option<Seq<i64>>,
    ) -> Seq<T> {
        let h = self.hidden_size as nat;
        let normed = ops::layer_norm_bias_of::<T, M>(
            ops::sum_of(x, self.attn_branch::<M>(x, rows, mask)),
            self.attn_ln_w@,
            self.attn_ln_b@,
            self.eps::<M>(),
            h,
            rows as nat,
        );
        ops::layer_norm_bias_of::<T, M>(
            ops::sum_of(normed, self.ffn_branch::<M>(normed, rows)),
            self.ffn_ln_w@,
            self.ffn_ln_b@,
            self.eps::<M>(),
            h,
            rows as nat,
        )
    }

    /// Packs the matrices of a layer.
    pub fn from_fp32(l: &RoBERTaLayer<T>) -> (r: Self)
        requires
            packed::packing::<T, Q>(),
        ensures
            r.is_packed_from(*l),
            l.wf() ==> r.wf(),
    {
        let h = l.hidden_size;
        let inter = l.intermediate_size;
        Q4RoBERTaLayer {
            hidden_size: h,
            num_heads: l.num_heads,
            intermediate_size: inter,
            layer_norm_eps: l.layer_norm_eps,
            w_q: Q::pack(l.w_q.as_slice(), h, h),
            q_bias: l.q_bias.duplicate(),
            w_k: Q::pack(l.w_k.as_slice(), h, h),
            k_bias: l.k_bias.duplicate(),
            w_v: Q::pack(l.w_v.as_slice(), h, h),
            v_bias: l.v_bias.duplicate(),
            w_o: Q::pack(l.w_o.as_slice(), h, h),
            o_bias: l.o_bias.duplicate(),
            attn_ln_w: l.attn_ln_weight.duplicate(),
            attn_ln_b: l.attn_ln_bias.duplicate(),
            w_up: Q::pack(l.w_up.as_slice(), inter, h),
            up_bias: l.up_bias.duplicate(),
            w_down: Q::pack(l.w_down.as_slice(), h, inter),
            down_bias: l.down_bias.duplicate(),
            ffn_ln_w: l.ffn_ln_weight.duplicate(),
            ffn_ln_b: l.ffn_ln_bias.duplicate(),
        }
    }

    /// `x` is `[seq_len, hidden]`. Returns the same shape.
    pub fn forward<M: Math<T>>(&self, x: &[T], seq_len: usize, mask: Option<&[i64]>) -> (r: Vec<T>)
        requires
            scalar::mathematics::<T, M>(),
            packed::packing::<T, Q>(),
            self.wf(),
            x@.len() == seq_len * self.hidden_size,
            roberta::mask_reaches(roberta::mask_of(mask), seq_len as nat),
        ensures
            r@ == self.output::<M>(x@, seq_len, roberta::mask_of(mask)),
            r@.len() == seq_len * self.hidden_size,
    {
        let h = self.hidden_size;
        let inter = self.intermediate_size;
        let head_dim = h / self.num_heads;
        let eps = M::from_binary64(self.layer_norm_eps.bits);
        proof {
            roberta::lemma_heads_fill(h, self.num_heads);
        }
        let q = packed_linear(&self.w_q, x, self.q_bias.as_slice(), seq_len, h, h);
        let k = packed_linear(&self.w_k, x, self.k_bias.as_slice(), seq_len, h, h);
        let v = packed_linear(&self.w_v, x, self.v_bias.as_slice(), seq_len, h, h);
        let attn = attend_all::<T, M>(
            q.as_slice(),
            k.as_slice(),
            v.as_slice(),
            seq_len,
            self.num_heads,
            head_dim,
            mask,
        );
        let out = packed_linear(
            &self.w_o,
            attn.as_slice(),
            self.o_bias.as_slice(),
            seq_len,
            h,
            h,
        );
        let resid = add_vecs(x, out.as_slice());
        let normed = layernorm_with_bias::<T, M>(
            resid.as_slice(),
            self.attn_ln_w.as_slice(),
            self.attn_ln_b.as_slice(),
            eps,
            h,
            seq_len,
        );
        let raw = packed_linear(
            &self.w_up,
            normed.as_slice(),
            self.up_bias.as_slice(),
            seq_len,
            h,
            inter,
        );
        let up = apply_gelu::<T, M>(raw.as_slice());
        let down = packed_linear(
            &self.w_down,
            up.as_slice(),
            self.down_bias.as_slice(),
            seq_len,
            inter,
            h,
        );
        let resid = add_vecs(normed.as_slice(), down.as_slice());
        layernorm_with_bias::<T, M>(
            resid.as_slice(),
            self.ffn_ln_w.as_slice(),
            self.ffn_ln_b.as_slice(),
            eps,
            h,
            seq_len,
        )
    }

    /// The bytes of all packed matrices.
    pub open spec fn packed_bytes(&self) -> nat {
        packed::bytes_of::<T, Q>(self.w_q) as nat + packed::bytes_of::<T, Q>(self.w_k) as nat
            + packed::bytes_of::<T, Q>(self.w_v) as nat + packed::bytes_of::<T, Q>(
            self.w_o,
        ) as nat + packed::bytes_of::<T, Q>(self.w_up) as nat + packed::bytes_of::<T, Q>(
            self.w_down,
        ) as nat
    }

    /// The bytes of all packed matrices.
    pub fn q4_memory_bytes(&self) -> (r: usize)
        requires
            packed::packing::<T, Q>(),
            self.packed_bytes() <= usize::MAX,
        ensures
            r == self.packed_bytes(),
    {
        self.w_q.memory_bytes() + self.w_k.memory_bytes() + self.w_v.memory_bytes()
            + self.w_o.memory_bytes() + self.w_up.memory_bytes() + self.w_down.memory_bytes()
    }
}

pub struct Q4RoBERTaEncoder<T, Q> {
    pub config: RoBERTaConfig,
    pub embeddings: RoBERTaEmbeddings<T>,
    pub layers: Vec<Q4RoBERTaLayer<T, Q>>,
}

/// `b` holds what `a` holds.
pub open spec fn same_embeddings<T>(a: RoBERTaEmbeddings<T>, b: RoBERTaEmbeddings<T>) -> bool {
    &&& b.hidden_size == a.hidden_size
    &&& b.max_position_embeddings == a.max_position_embeddings
    &&& b.type_vocab_size == a.type_vocab_size
    &&& b.pad_token_id == a.pad_token_id
    &&& b.layer_norm_eps == a.layer_norm_eps
    &&& b.word@ == a.word@
    &&& b.position@ == a.position@
    &&& b.token_type@ == a.token_type@
    &&& b.ln_weight@ == a.ln_weight@
    &&& b.ln_bias@ == a.ln_bias@
}

/// The bytes of the packed matrices of the first `n` layers.
pub open spec fn layers_bytes<T: Scalar, Q: PackedLinear<T>>(
    layers: Seq<Q4RoBERTaLayer<T, Q>>,
    n: nat,
) -> nat
    decreases n,
{
    if n == 0 {
        0
    } else {
        layers_bytes(layers, (n - 1) as nat) + layers[n - 1].packed_bytes()
    }
}

proof fn lemma_bytes_grow<T: Scalar, Q: PackedLinear<T>>(
    layers: Seq<Q4RoBERTaLayer<T, Q>>,
    m: nat,
    n: nat,
)
    requires
        m <= n,
    ensures
        layers_bytes(layers, m) <= layers_bytes(layers, n),
    decreases n,
{
    if m < n {
        lemma_bytes_grow(layers, m, (n - 1) as nat);
    }
}

impl<T: Scalar, Q: PackedLinear<T>> Q4RoBERTaEncoder<T, Q> {
    /// Packs the matrices of all layers. The embeddings stay as they are.
    pub fn from_fp32(m: &RoBERTaEncoder<T>) -> (r: Self)
        requires
            packed::packing::<T, Q>(),
        ensures
            r.config == m.config,
            same_embeddings(m.embeddings, r.embeddings),
            r.layers@.len() == m.layers@.len(),
            forall|i: int|
                0 <= i < r.layers@.len() ==> (#[trigger] r.layers@[i]).is_packed_from(
                    m.layers@[i],
                ),
            m.wf() ==> r.wf(),
    {
        let mut layers: Vec<Q4RoBERTaLayer<T, Q>> = Vec::with_capacity(m.layers.len());
        for n in 0..m.layers.len()
            invariant
                packed::packing::<T, Q>(),
                layers@.len() == n,
                forall|i: int|
                    0 <= i < n ==> (#[trigger] layers@[i]).is_packed_from(m.layers@[i]),
                m.wf() ==> forall|i: int| 0 <= i < n ==> (#[trigger] layers@[i]).wf(),
        {
            assert(m.wf() ==> m.layers@[n as int].wf());
            layers.push(Q4RoBERTaLayer::from_fp32(&m.layers[n]));
        }
        let e = &m.embeddings;
        let r = Q4RoBERTaEncoder {
            config: m.config,
            embeddings: RoBERTaEmbeddings {
                hidden_size: e.hidden_size,
                max_position_embeddings: e.max_position_embeddings,
                type_vocab_size: e.type_vocab_size,
                pad_token_id: e.pad_token_id,
                layer_norm_eps: e.layer_norm_eps,
                word: e.word.duplicate(),
                position: e.position.duplicate(),
                token_type: e.token_type.duplicate(),
                ln_weight: e.ln_weight.duplicate(),
                ln_bias: e.ln_bias.duplicate(),
            },
            layers,
        };
        proof {
            if m.wf() {
                assert forall|i: int| 0 <= i < r.layers@.len() implies (
                #[trigger] r.layers@[i]).wf() && r.layers@[i].hidden_size
                    == r.config.hidden_size by {
                    assert(r.layers@[i].is_packed_from(m.layers@[i]));
                    assert(m.layers@[i].wf());
                }
            }
        }
        r
    }

    /// The weights have their sizes.
    pub open spec fn wf(&self) -> bool {
        &&& self.embeddings.wf()
        &&& self.embeddings.hidden_size == self.config.hidden_size
        &&& forall|i: int|
            0 <= i < self.layers@.len() ==> (#[trigger] self.layers@[i]).wf()
                && self.layers@[i].hidden_size == self.config.hidden_size
    }

    /// The sequence can be counted in machine integers.
    pub open spec fn takes(&self, ids: Seq<i64>, mask: Seq<i64>) -> bool {
        &&& roberta::is_mask(mask)
        &&& ids.len() <= mask.len()
        &&& ids.len() + self.embeddings.pad_token_id <= i64::MAX
        &&& ids.len() + self.embeddings.pad_token_id <= usize::MAX
    }

    /// The rows after the first `n` layers.
    pub open spec fn rows_after<M: Math<T>>(&self, ids: Seq<i64>, mask: Seq<i64>, n: nat) -> Seq<T>
        decreases n,
    {
        if n == 0 {
            self.embeddings.output::<M>(ids, mask)
        } else {
            self.layers@[n - 1].output::<M>(
                self.rows_after::<M>(ids, mask, (n - 1) as nat),
                ids.len() as usize,
                Some(mask),
            )
        }
    }

    /// The rows after all layers.
    pub open spec fn output<M: Math<T>>(&self, ids: Seq<i64>, mask: Seq<i64>) -> Seq<T> {
        self.rows_after::<M>(ids, mask, self.layers@.len())
    }

    /// Run the full encoder on a single sequence.
    pub fn forward<M: Math<T>>(&self, input_ids: &[i64], attention_mask: &[i64]) -> (r: Vec<T>)
        requires
            scalar::mathematics::<T, M>(),
            packed::packing::<T, Q>(),
            self.wf(),
            self.takes(input_ids@, attention_mask@),
        ensures
            r@ == self.output::<M>(input_ids@, attention_mask@),
            r@.len() == input_ids@.len() * self.config.hidden_size,
    {
        let seq_len = input_ids.len();
        let mut h = self.embeddings.forward::<M>(input_ids, attention_mask);
        for i in 0..self.layers.len()
            invariant
                scalar::mathematics::<T, M>(),
                packed::packing::<T, Q>(),
                self.wf(),
                self.takes(input_ids@, attention_mask@),
                seq_len == input_ids@.len(),
                h@.len() == seq_len * self.config.hidden_size,
                h@ == self.rows_after::<M>(input_ids@, attention_mask@, i as nat),
        {
            assert(self.layers@[i as int].wf());
            h = self.layers[i].forward::<M>(h.as_slice(), seq_len, Some(attention_mask));
        }
        h
    }

    /// The CLS feature: the first row of the final hidden state.
    pub fn cls_feature<M: Math<T>>(&self, input_ids: &[i64], attention_mask: &[i64]) -> (r: Vec<T>)
        requires
            scalar::mathematics::<T, M>(),
            packed::packing::<T, Q>(),
            self.wf(),
            self.takes(input_ids@, attention_mask@),
            input_ids@.len() > 0,
        ensures
            r@ == ops::row(
                self.output::<M>(input_ids@, attention_mask@),
                0,
                self.config.hidden_size as int,
            ),
            r@.len() == self.config.hidden_size,
    {
        let h = self.forward::<M>(input_ids, attention_mask);
        proof {
            ops::lemma_row_bounds(0, input_ids@.len() as int, self.config.hidden_size as int);
        }
        copy_slice(row_slice(h.as_slice(), 0, self.config.hidden_size))
    }

    /// The bytes of all packed matrices.
    pub fn q4_memory_bytes(&self) -> (r: usize)
        requires
            packed::packing::<T, Q>(),
            layers_bytes(self.layers@, self.layers@.len()) <= usize::MAX,
        ensures
            r == layers_bytes(self.layers@, self.layers@.len()),
    {
        let mut sum: usize = 0;
        for i in 0..self.layers.len()
            invariant
                packed::packing::<T, Q>(),
                layers_bytes(self.layers@, self.layers@.len()) <= usize::MAX,
                sum == layers_bytes(self.layers@, i as nat),
        {
            proof {
                lemma_bytes_grow(self.layers@, (i + 1) as nat, self.layers@.len());
            }
            sum = sum + self.layers[i].q4_memory_bytes();
        }
        sum
    }
}

} // verus!
