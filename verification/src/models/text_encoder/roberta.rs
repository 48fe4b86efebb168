//! Post-norm bidirectional encoder in the manner of RoBERTa.
//!
//! A [`RoBERTaEncoder`] is a stack of [`RoBERTaLayer`] blocks behind
//! [`RoBERTaEmbeddings`]. The embeddings reproduce RoBERTa's padding-index
//! quirk (position ids start at `pad_token_id + 1` for the first real token);
//! the layers use post-norm ordering plus padding-aware bidirectional
//! attention.

use vstd::prelude::*;
use vstd::slice::slice_subrange;

use crate::attention;
use crate::attention::{bidirectional_attention, HeadLayout};
use crate::buffer::{copy_slice, extend, AlignedBuffer, RawTensor};
use crate::config::{Binary64, BITS_1E_5};
use crate::gelu;
use crate::gelu::{erf, gate_half, SQRT_2};
use crate::json;
use crate::json::{parse, Json, JsonTree};
use crate::models::text_encoder::masked_attention;
use crate::models::text_encoder::masked_attention::masked_bidirectional_attention;
use crate::ops;
use crate::ops::{add_vecs, layernorm_with_bias, linear, row_slice};
use crate::scalar;
use crate::scalar::{Math, Scalar};
use crate::text;
use crate::text::{parse_indexed_key, str_eq};
use crate::weights;
use crate::weights::{
    load_mapped, push_key, KeyMapping, LoadResult, Refusal, Slot, TensorMap, WeightError,
    WeightTarget,
};

verus! {

/// Configuration with the fields of a RoBERTa model's `config.json`.
#[derive(Debug, Clone, Copy, PartialEq, Eq, Structural)]
pub struct RoBERTaConfig {
    pub vocab_size: usize,
    pub hidden_size: usize,
    pub num_hidden_layers: usize,
    pub num_attention_heads: usize,
    pub intermediate_size: usize,
    pub max_position_embeddings: usize,
    pub type_vocab_size: usize,
    pub layer_norm_eps: Binary64,
    pub pad_token_id: u32,
}

impl RoBERTaConfig {
    pub fn head_dim(&self) -> (r: usize)
        requires
            self.num_attention_heads > 0,
        ensures
            r == self.hidden_size / self.num_attention_heads,
    {
        self.hidden_size / self.num_attention_heads
    }
}

// ── Activation ───────────────────────────────────────────────────────

/// `0.5 x (1 + erf(x / sqrt(2)))`
pub open spec fn gelu_erf_of<T: Scalar, M: Math<T>>(x: T) -> T {
    gelu::half_gated::<T, M>(
        x,
        gelu::erf_of::<T, M>(scalar::over(x, gelu::constant::<T, M>(SQRT_2))),
    )
}

/// GELU in its exact form.
pub fn gelu_erf<T: Scalar, M: Math<T>>(x: T) -> (r: T)
    requires
        scalar::mathematics::<T, M>(),
    ensures
        r == gelu_erf_of::<T, M>(x),
{
    let e = erf::<T, M>(x / M::from_binary64(SQRT_2));
    gate_half::<T, M>(x, e)
}

/// Every element under GELU.
pub open spec fn gelued<T: Scalar, M: Math<T>>(x: Seq<T>) -> Seq<T> {
    Seq::new(x.len(), |i: int| gelu_erf_of::<T, M>(x[i]))
}

/// Applies GELU to every element.
pub fn apply_gelu<T: Scalar, M: Math<T>>(x: &[T]) -> (r: Vec<T>)
    requires
        scalar::mathematics::<T, M>(),
    ensures
        r@ == gelued::<T, M>(x@),
{
    let mut out: Vec<T> = Vec::with_capacity(x.len());
    for i in 0..x.len()
        invariant
            scalar::mathematics::<T, M>(),
            out@ == gelued::<T, M>(x@.take(i as int)),
    {
        out.push(gelu_erf::<T, M>(x[i]));
        assert(out@ =~= gelued::<T, M>(x@.take(i + 1)));
    }
    assert(x@.take(x@.len() as int) =~= x@);
    out
}

// ── Embeddings ───────────────────────────────────────────────────────

/// Word + position + token_type embeddings, summed and layer-normalized.
pub struct RoBERTaEmbeddings<T> {
    pub hidden_size: usize,
    pub max_position_embeddings: usize,
    pub type_vocab_size: usize,
    pub pad_token_id: u32,
    pub layer_norm_eps: Binary64,
    pub word: AlignedBuffer<T>,  // [vocab, hidden]
    pub position: AlignedBuffer<T>,  // [max_pos, hidden]
    pub token_type: AlignedBuffer<T>,  // [type_vocab, hidden]
    pub ln_weight: AlignedBuffer<T>,  // [hidden]
    pub ln_bias: AlignedBuffer<T>,  // [hidden]
}

/// How many of the first `n` tokens are real.
pub open spec fn real_tokens(mask: Seq<i64>, n: nat) -> nat
    decreases n,
{
    if n == 0 {
        0
    } else {
        real_tokens(mask, (n - 1) as nat) + if mask[n - 1] == 1 {
            1nat
        } else {
            0
        }
    }
}

proof fn lemma_real_tokens_bound(mask: Seq<i64>, n: nat)
    ensures
        real_tokens(mask, n) <= n,
    decreases n,
{
    if n > 0 {
        lemma_real_tokens_bound(mask, (n - 1) as nat);
    }
}

/// The mask is 1 for real tokens and 0 for pads.
pub open spec fn is_mask(mask: Seq<i64>) -> bool {
    forall|i: int| 0 <= i < mask.len() ==> #[trigger] mask[i] == 0 || mask[i] == 1
}

/// The position id of token `i`: a real token's number, counted from one, or
/// zero for a pad, and the id of the pad token on top. Beyond the mask it is
/// zero.
pub open spec fn position_id(mask: Seq<i64>, pad: u32, i: int) -> nat {
    if i >= mask.len() {
        0
    } else if mask[i] == 1 {
        real_tokens(mask, (i + 1) as nat) + pad as nat
    } else {
        pad as nat
    }
}

/// A row number within a table of `len` elements in rows of `h`, the last row
/// standing for all numbers beyond it.
pub open spec fn clamped(i: int, len: nat, h: nat) -> int {
    let rows = if h == 0 {
        0
    } else {
        len as int / h as int
    };
    let last = if rows == 0 {
        0
    } else {
        rows - 1
    };
    if 0 <= i <= last {
        i
    } else {
        last
    }
}

proof fn lemma_clamped(i: int, len: nat, h: nat)
    requires
        h <= len,
    ensures
        0 <= clamped(i, len, h),
        (clamped(i, len, h) + 1) * h <= len,
{
    if h > 0 {
        let rows = len as int / h as int;
        vstd::arithmetic::div_mod::lemma_fundamental_div_mod(len as int, h as int);
        assert(rows >= 1) by (nonlinear_arith)
            requires
                len as int == h as int * rows + len as int % h as int,
                0 <= len as int % h as int,
                (len as int % h as int) < h,
                h <= len,
                h > 0,
        ;
        let c = clamped(i, len, h);
        assert((c + 1) * h <= rows * h) by (nonlinear_arith)
            requires
                c + 1 <= rows,
                h > 0,
        ;
        assert(rows * h == h as int * rows) by (nonlinear_arith);
    } else {
        assert((clamped(i, len, h) + 1) * h == 0) by (nonlinear_arith)
            requires
                h == 0,
        ;
    }
}

/// A row number within a table, as in `clamped`; a negative number stands for
/// the last row too.
fn clamp(i: i64, len: usize, h: usize) -> (r: usize)
    ensures
        r == clamped(i as int, len as nat, h as nat),
{
    let rows = if h > 0 {
        len / h
    } else {
        0
    };
    let last = if rows == 0 {
        0
    } else {
        rows - 1
    };
    if i < 0 || i as u64 > last as u64 {
        last
    } else {
        i as usize
    }
}

impl<T: Scalar> RoBERTaEmbeddings<T> {
    /// Every table has a row, and the norm has its weights.
    pub open spec fn wf(&self) -> bool {
        let h = self.hidden_size as nat;
        &&& h <= self.word@.len()
        &&& h <= self.position@.len()
        &&& h <= self.token_type@.len()
        &&& h <= self.ln_weight@.len()
        &&& h <= self.ln_bias@.len()
    }

    /// The embedding of token `i`, before the norm.
    pub open spec fn embedding(&self, ids: Seq<i64>, mask: Seq<i64>, i: int) -> Seq<T> {
        let h = self.hidden_size as int;
        let word = ops::row(self.word@, clamped(ids[i] as int, self.word@.len(), h as nat), h);
        let place = position_id(mask, self.pad_token_id, i);
        let position = ops::row(
            self.position@,
            clamped(place as int, self.position@.len(), h as nat),
            h,
        );
        ops::sum_of(ops::sum_of(word, position), self.token_type@.take(h))
    }

    /// The embeddings of all tokens.
    pub open spec fn output<M: Math<T>>(&self, ids: Seq<i64>, mask: Seq<i64>) -> Seq<T> {
        ops::layer_norm_bias_of::<T, M>(
            ops::blocks(ids.len(), |i: int| self.embedding(ids, mask, i)),
            self.ln_weight@,
            self.ln_bias@,
            scalar::binary64_of::<T, M>(self.layer_norm_eps.bits),
            self.hidden_size as nat,
            ids.len(),
        )
    }

    /// Embeddings without weights.
    pub fn new(cfg: &RoBERTaConfig) -> (r: Self)
        ensures
            r.hidden_size == cfg.hidden_size,
            r.max_position_embeddings == cfg.max_position_embeddings,
            r.type_vocab_size == cfg.type_vocab_size,
            r.pad_token_id == cfg.pad_token_id,
            r.layer_norm_eps == cfg.layer_norm_eps,
            r.word@ == Seq::<T>::empty(),
            r.position@ == Seq::<T>::empty(),
            r.token_type@ == Seq::<T>::empty(),
            r.ln_weight@ == Seq::<T>::empty(),
            r.ln_bias@ == Seq::<T>::empty(),
    {
        RoBERTaEmbeddings {
            hidden_size: cfg.hidden_size,
            max_position_embeddings: cfg.max_position_embeddings,
            type_vocab_size: cfg.type_vocab_size,
            pad_token_id: cfg.pad_token_id,
            layer_norm_eps: cfg.layer_norm_eps,
            word: AlignedBuffer::empty(),
            position: AlignedBuffer::empty(),
            token_type: AlignedBuffer::empty(),
            ln_weight: AlignedBuffer::empty(),
            ln_bias: AlignedBuffer::empty(),
        }
    }

    /// The rows that are normalised, column by column.
    proof fn lemma_embedding_rows(&self, ids: Seq<i64>, mask: Seq<i64>)
        requires
            self.wf(),
        ensures
            ops::blocks(ids.len(), |i: int| self.embedding(ids, mask, i)) == ops::blocks(
                ids.len(),
                |i: int|
                    {
                        let h = self.hidden_size as int;
                        let word = clamped(ids[i] as int, self.word@.len(), h as nat);
                        let place = clamped(
                            position_id(mask, self.pad_token_id, i) as int,
                            self.position@.len(),
                            h as nat,
                        );
                        Seq::new(
                            h as nat,
                            |j: int|
                                scalar::plus(
                                    scalar::plus(
                                        self.word@[word * h + j],
                                        self.position@[place * h + j],
                                    ),
                                    self.token_type@[j],
                                ),
                        )
                    },
            ),
    {
        let f = |i: int| self.embedding(ids, mask, i);
        let g = |i: int|
            {
                let h = self.hidden_size as int;
                let word = clamped(ids[i] as int, self.word@.len(), h as nat);
                let place = clamped(
                    position_id(mask, self.pad_token_id, i) as int,
                    self.position@.len(),
                    h as nat,
                );
                Seq::new(
                    h as nat,
                    |j: int|
                        scalar::plus(
                            scalar::plus(self.word@[word * h + j], self.position@[place * h + j]),
                            self.token_type@[j],
                        ),
                )
            };
        assert forall|i: int| 0 <= i < ids.len() implies #[trigger] f(i) == g(i) by {
            let h = self.hidden_size as int;
            let place = position_id(mask, self.pad_token_id, i) as int;
            lemma_clamped(ids[i] as int, self.word@.len(), h as nat);
            lemma_clamped(place, self.position@.len(), h as nat);
            let (w, p) = (
                clamped(ids[i] as int, self.word@.len(), h as nat),
                clamped(place, self.position@.len(), h as nat),
            );
            ops::lemma_row_bounds(w, w + 1, h);
            ops::lemma_row_bounds(p, p + 1, h);
            assert(f(i) =~= g(i));
        }
        ops::lemma_blocks_same(ids.len(), f, g);
    }

    /// RoBERTa's position-id construction:
    ///
    /// ```text
    /// mask = attention_mask                           # 1 for real, 0 for pad
    /// incremental = cumsum(mask) * mask
    /// position_ids = incremental + pad_token_id
    /// ```
    ///
    /// For `pad_token_id = 1` and `attention_mask = [1, 1, 1, 0, 0]` this
    /// yields `[2, 3, 4, 1, 1]` — pad positions collapse back to `pad_id`.
    pub fn position_ids(&self, attention_mask: &[i64], seq_len: usize) -> (r: Vec<usize>)
        requires
            is_mask(attention_mask@),
            seq_len + self.pad_token_id <= usize::MAX,
        ensures
            r@.len() == seq_len,
            forall|i: int|
                0 <= i < seq_len ==> #[trigger] r@[i] == position_id(
                    attention_mask@,
                    self.pad_token_id,
                    i,
                ),
    {
        let mut out: Vec<usize> = Vec::with_capacity(seq_len);
        let mut running: usize = 0;
        let pad = self.pad_token_id as usize;
        for n in 0..seq_len
            invariant
                is_mask(attention_mask@),
                pad == self.pad_token_id,
                seq_len + pad <= usize::MAX,
                out@.len() == n,
                running <= n,
                n <= attention_mask@.len() ==> running == real_tokens(attention_mask@, n as nat),
                forall|i: int|
                    0 <= i < n ==> #[trigger] out@[i] == position_id(
                        attention_mask@,
                        self.pad_token_id,
                        i,
                    ),
        {
            if n < attention_mask.len() {
                if attention_mask[n] == 1 {
                    running = running + 1;
                    out.push(running + pad);
                } else {
                    out.push(pad);
                }
            } else {
                out.push(0);
            }
        }
        out
    }

    /// Build the embedding output for a single sequence (batch size 1).
    /// `input_ids` and `attention_mask` have length `seq_len`. Returns a
    /// flat `[seq_len, hidden_size]` buffer in row-major order. An id outside
    /// the vocabulary stands for its last row.
    pub fn forward<M: Math<T>>(&self, input_ids: &[i64], attention_mask: &[i64]) -> (r: Vec<T>)
        requires
            scalar::mathematics::<T, M>(),
            self.wf(),
            is_mask(attention_mask@),
            input_ids@.len() + self.pad_token_id <= i64::MAX,
            input_ids@.len() + self.pad_token_id <= usize::MAX,
        ensures
            r@ == self.output::<M>(input_ids@, attention_mask@),
            r@.len() == input_ids@.len() * self.hidden_size,
            r@ == ops::layer_norm_bias_of::<T, M>(
                ops::blocks(
                    input_ids@.len(),
                    |i: int|
                        {
                            let h = self.hidden_size as int;
                            let word = clamped(input_ids@[i] as int, self.word@.len(), h as nat);
                            let place = clamped(
                                position_id(attention_mask@, self.pad_token_id, i) as int,
                                self.position@.len(),
                                h as nat,
                            );
                            Seq::new(
                                h as nat,
                                |j: int|
                                    scalar::plus(
                                        scalar::plus(
                                            self.word@[word * h + j],
                                            self.position@[place * h + j],
                                        ),
                                        self.token_type@[j],
                                    ),
                            )
                        },
                ),
                self.ln_weight@,
                self.ln_bias@,
                scalar::binary64_of::<T, M>(self.layer_norm_eps.bits),
                self.hidden_size as nat,
                input_ids@.len(),
            ),
    {
        let seq_len = input_ids.len();
        let h = self.hidden_size;
        let pos_ids = self.position_ids(attention_mask, seq_len);
        let type_row = slice_subrange(self.token_type.as_slice(), 0, h);
        assert(type_row@ =~= self.token_type@.take(h as int));
        let ghost f = |i: int| self.embedding(input_ids@, attention_mask@, i);
        let mut out: Vec<T> = Vec::new();
        assert(0 * h == 0) by (nonlinear_arith);
        for i in 0..seq_len
            invariant
                scalar::mathematics::<T, M>(),
                self.wf(),
                h == self.hidden_size,
                seq_len == input_ids@.len(),
                seq_len + self.pad_token_id <= i64::MAX,
                pos_ids@.len() == seq_len,
                forall|i: int|
                    0 <= i < seq_len ==> #[trigger] pos_ids@[i] == position_id(
                        attention_mask@,
                        self.pad_token_id,
                        i,
                    ),
                type_row@ == self.token_type@.take(h as int),
                f == (|i: int| self.embedding(input_ids@, attention_mask@, i)),
                out@ == ops::blocks(i as nat, f),
                out@.len() == i * h,
        {
            // 1. Word embeddings
            let tok = clamp(input_ids[i], self.word.len(), h);
            proof {
                lemma_clamped(input_ids@[i as int] as int, self.word@.len(), h as nat);
            }
            let word = row_slice(self.word.as_slice(), tok, h);
            // 2. Position embeddings with the pad-aware running count
            proof {
                lemma_real_tokens_bound(attention_mask@, (i + 1) as nat);
                assert(pos_ids@[i as int] <= seq_len + self.pad_token_id);
                lemma_clamped(pos_ids@[i as int] as int, self.position@.len(), h as nat);
            }
            let p = clamp(pos_ids[i] as i64, self.position.len(), h);
            let position = row_slice(self.position.as_slice(), p, h);
            // 3. Token-type embeddings: the type of every token is 0
            let sum = add_vecs(word, position);
            let all = add_vecs(sum.as_slice(), type_row);
            extend(&mut out, all.as_slice());
            proof {
                assert(out@ =~= ops::blocks((i + 1) as nat, f));
                assert((i + 1) * h == i * h + h) by (nonlinear_arith);
                ops::lemma_row_bounds(tok as int, tok + 1, h as int);
                ops::lemma_row_bounds(p as int, p + 1, h as int);
            }
        }
        proof {
            self.lemma_embedding_rows(input_ids@, attention_mask@);
        }
        // 4. LayerNorm with bias
        layernorm_with_bias::<T, M>(
            out.as_slice(),
            self.ln_weight.as_slice(),
            self.ln_bias.as_slice(),
            M::from_binary64(self.layer_norm_eps.bits),
            h,
            seq_len,
        )
    }
}

// ── Encoder layer ────────────────────────────────────────────────────

/// The elements of an optional mask.
pub open spec fn mask_of(mask: Option<&[i64]>) -> Option<Seq<i64>> {
    match mask {
        Some(m) => Some(m@),
        None => None,
    }
}

/// A mask, where there is one, reaches over all rows.
pub open spec fn mask_reaches(mask: Option<Seq<i64>>, rows: nat) -> bool {
    mask is Some ==> rows <= mask->0.len()
}

/// Attention of all rows, padding-aware where there is a mask.
pub open spec fn attention_of<T: Scalar, M: Math<T>>(
    q: Seq<T>,
    k: Seq<T>,
    v: Seq<T>,
    rows: nat,
    heads: usize,
    head_dim: usize,
    mask: Option<Seq<i64>>,
) -> Seq<T> {
    match mask {
        Some(mask) => masked_attention::masked_output::<T, M>(
            q,
            k,
            v,
            rows,
            heads as nat,
            head_dim,
            mask,
        ),
        None => attention::bidirectional_output::<T, M>(
            HeadLayout { num_heads: heads, num_kv_heads: heads, head_dim },
            q,
            k,
            v,
            rows,
        ),
    }
}

/// Attention of all rows, padding-aware where there is a mask.
pub fn attend_all<T: Scalar, M: Math<T>>(
    q: &[T],
    k: &[T],
    v: &[T],
    seq_len: usize,
    num_heads: usize,
    head_dim: usize,
    mask: Option<&[i64]>,
) -> (r: Vec<T>)
    requires
        scalar::mathematics::<T, M>(),
        num_heads > 0,
        num_heads * head_dim <= usize::MAX,
        q@.len() == seq_len * (num_heads * head_dim),
        k@.len() == seq_len * (num_heads * head_dim),
        v@.len() == seq_len * (num_heads * head_dim),
        mask_reaches(mask_of(mask), seq_len as nat),
    ensures
        r@ == attention_of::<T, M>(
            q@,
            k@,
            v@,
            seq_len as nat,
            num_heads,
            head_dim,
            mask_of(mask),
        ),
        r@.len() == seq_len * (num_heads * head_dim),
{
    match mask {
        Some(mask) => masked_bidirectional_attention::<T, M>(
            q,
            k,
            v,
            seq_len,
            num_heads,
            head_dim,
            mask,
        ),
        None => {
            proof {
                vstd::arithmetic::div_mod::lemma_mod_self_0(num_heads as int);
            }
            let layout = HeadLayout { num_heads, num_kv_heads: num_heads, head_dim };
            bidirectional_attention::<T, M>(layout, q, k, v, seq_len)
        },
    }
}

/// One post-norm RoBERTa encoder block.
///
/// ```text
///     attn_out = self_attn_out.dense(attn_probs @ V)             # + bias
///     x = LN_attn(x + attn_out)
///     mlp_hidden = gelu(intermediate.dense(x))                   # + bias
///     mlp_out = output.dense(mlp_hidden)                         # + bias
///     x = LN_ffn(x + mlp_out)
/// ```
pub struct RoBERTaLayer<T> {
    pub hidden_size: usize,
    pub num_heads: usize,
    pub intermediate_size: usize,
    pub layer_norm_eps: Binary64,
    // Q/K/V and output projections, [hidden, hidden].
    pub w_q: AlignedBuffer<T>,
    pub q_bias: AlignedBuffer<T>,
    pub w_k: AlignedBuffer<T>,
    pub k_bias: AlignedBuffer<T>,
    pub w_v: AlignedBuffer<T>,
    pub v_bias: AlignedBuffer<T>,
    pub w_o: AlignedBuffer<T>,
    pub o_bias: AlignedBuffer<T>,
    pub attn_ln_weight: AlignedBuffer<T>,
    pub attn_ln_bias: AlignedBuffer<T>,
    // FFN: up [inter, hidden], down [hidden, inter].
    pub w_up: AlignedBuffer<T>,
    pub up_bias: AlignedBuffer<T>,
    pub w_down: AlignedBuffer<T>,
    pub down_bias: AlignedBuffer<T>,
    pub ffn_ln_weight: AlignedBuffer<T>,
    pub ffn_ln_bias: AlignedBuffer<T>,
}

/// What loading leaves as it is of a layer.
pub struct RoBERTaDims {
    pub hidden_size: usize,
    pub num_heads: usize,
    pub intermediate_size: usize,
    pub layer_norm_eps: Binary64,
}

/// The dimensions of a layer of the configuration.
pub open spec fn layer_dims(cfg: RoBERTaConfig) -> RoBERTaDims {
    RoBERTaDims {
        hidden_size: cfg.hidden_size,
        num_heads: cfg.num_attention_heads,
        intermediate_size: cfg.intermediate_size,
        layer_norm_eps: cfg.layer_norm_eps,
    }
}

/// The fields of a layer's weights.
pub open spec fn roberta_fields() -> Seq<Seq<char>> {
    seq![
        "attention.w_q"@,
        "attention.q_bias"@,
        "attention.w_k"@,
        "attention.k_bias"@,
        "attention.w_v"@,
        "attention.v_bias"@,
        "attention.w_o"@,
        "attention.o_bias"@,
        "attn_norm.weight"@,
        "attn_norm.bias"@,
        "ffn.w_up"@,
        "ffn.up_bias"@,
        "ffn.w_down"@,
        "ffn.down_bias"@,
        "ffn_norm.weight"@,
        "ffn_norm.bias"@,
    ]
}

/// The weight keys of layer `i`.
pub open spec fn roberta_keys(i: nat) -> Seq<Seq<char>> {
    roberta_fields().map_values(|f: Seq<char>| text::indexed_key("layers["@, i, f))
}

impl<T: Copy> RoBERTaLayer<T> {
    pub open spec fn dims(&self) -> RoBERTaDims {
        RoBERTaDims {
            hidden_size: self.hidden_size,
            num_heads: self.num_heads,
            intermediate_size: self.intermediate_size,
            layer_norm_eps: self.layer_norm_eps,
        }
    }

    /// The weight kept under a field name.
    pub open spec fn field(&self, name: Seq<char>) -> Option<Seq<T>> {
        if name == "attention.w_q"@ {
            Some(self.w_q@)
        } else if name == "attention.q_bias"@ {
            Some(self.q_bias@)
        } else if name == "attention.w_k"@ {
            Some(self.w_k@)
        } else if name == "attention.k_bias"@ {
            Some(self.k_bias@)
        } else if name == "attention.w_v"@ {
            Some(self.w_v@)
        } else if name == "attention.v_bias"@ {
            Some(self.v_bias@)
        } else if name == "attention.w_o"@ {
            Some(self.w_o@)
        } else if name == "attention.o_bias"@ {
            Some(self.o_bias@)
        } else if name == "attn_norm.weight"@ {
            Some(self.attn_ln_weight@)
        } else if name == "attn_norm.bias"@ {
            Some(self.attn_ln_bias@)
        } else if name == "ffn.w_up"@ {
            Some(self.w_up@)
        } else if name == "ffn.up_bias"@ {
            Some(self.up_bias@)
        } else if name == "ffn.w_down"@ {
            Some(self.w_down@)
        } else if name == "ffn.down_bias"@ {
            Some(self.down_bias@)
        } else if name == "ffn_norm.weight"@ {
            Some(self.ffn_ln_weight@)
        } else if name == "ffn_norm.bias"@ {
            Some(self.ffn_ln_bias@)
        } else {
            None
        }
    }

    /// No weight has been loaded.
    pub open spec fn unloaded(&self) -> bool {
        forall|n: Seq<char>|
            (#[trigger] self.field(n)) is Some ==> self.field(n)->0 == Seq::<T>::empty()
    }

    /// A layer without weights.
    pub fn new(cfg: &RoBERTaConfig) -> (r: Self)
        ensures
            r.dims() == layer_dims(*cfg),
            r.unloaded(),
    {
        RoBERTaLayer {
            hidden_size: cfg.hidden_size,
            num_heads: cfg.num_attention_heads,
            intermediate_size: cfg.intermediate_size,
            layer_norm_eps: cfg.layer_norm_eps,
            w_q: AlignedBuffer::empty(),
            q_bias: AlignedBuffer::empty(),
            w_k: AlignedBuffer::empty(),
            k_bias: AlignedBuffer::empty(),
            w_v: AlignedBuffer::empty(),
            v_bias: AlignedBuffer::empty(),
            w_o: AlignedBuffer::empty(),
            o_bias: AlignedBuffer::empty(),
            attn_ln_weight: AlignedBuffer::empty(),
            attn_ln_bias: AlignedBuffer::empty(),
            w_up: AlignedBuffer::empty(),
            up_bias: AlignedBuffer::empty(),
            w_down: AlignedBuffer::empty(),
            down_bias: AlignedBuffer::empty(),
            ffn_ln_weight: AlignedBuffer::empty(),
            ffn_ln_bias: AlignedBuffer::empty(),
        }
    }

    /// Assigns a weight by its field name. A name that the layer does not know
    /// changes nothing.
    pub fn set_weight(&mut self, field: &str, t: &RawTensor<T>)
        ensures
            final(self).dims() == old(self).dims(),
            forall|n: Seq<char>| #[trigger]
                final(self).field(n) == weights::write(old(self).field(n), n == field@, t.data@),
    {
        if str_eq(field, "attention.w_q") {
            self.w_q = t.data.duplicate();
        } else if str_eq(field, "attention.q_bias") {
            self.q_bias = t.data.duplicate();
        } else if str_eq(field, "attention.w_k") {
            self.w_k = t.data.duplicate();
        } else if str_eq(field, "attention.k_bias") {
            self.k_bias = t.data.duplicate();
        } else if str_eq(field, "attention.w_v") {
            self.w_v = t.data.duplicate();
        } else if str_eq(field, "attention.v_bias") {
            self.v_bias = t.data.duplicate();
        } else if str_eq(field, "attention.w_o") {
            self.w_o = t.data.duplicate();
        } else if str_eq(field, "attention.o_bias") {
            self.o_bias = t.data.duplicate();
        } else if str_eq(field, "attn_norm.weight") {
            self.attn_ln_weight = t.data.duplicate();
        } else if str_eq(field, "attn_norm.bias") {
            self.attn_ln_bias = t.data.duplicate();
        } else if str_eq(field, "ffn.w_up") {
            self.w_up = t.data.duplicate();
        } else if str_eq(field, "ffn.up_bias") {
            self.up_bias = t.data.duplicate();
        } else if str_eq(field, "ffn.w_down") {
            self.w_down = t.data.duplicate();
        } else if str_eq(field, "ffn.down_bias") {
            self.down_bias = t.data.duplicate();
        } else if str_eq(field, "ffn_norm.weight") {
            self.ffn_ln_weight = t.data.duplicate();
        } else if str_eq(field, "ffn_norm.bias") {
            self.ffn_ln_bias = t.data.duplicate();
        }
    }

    /// The weight keys of the layer as layer `i`.
    pub fn expected_keys(&self, i: usize) -> (r: Vec<String>)
        ensures
            weights::texts(r@) == roberta_keys(i as nat),
    {
        let mut keys: Vec<String> = Vec::new();
        push_key(&mut keys, "layers[", i, "attention.w_q");
        push_key(&mut keys, "layers[", i, "attention.q_bias");
        push_key(&mut keys, "layers[", i, "attention.w_k");
        push_key(&mut keys, "layers[", i, "attention.k_bias");
        push_key(&mut keys, "layers[", i, "attention.w_v");
        push_key(&mut keys, "layers[", i, "attention.v_bias");
        push_key(&mut keys, "layers[", i, "attention.w_o");
        push_key(&mut keys, "layers[", i, "attention.o_bias");
        push_key(&mut keys, "layers[", i, "attn_norm.weight");
        push_key(&mut keys, "layers[", i, "attn_norm.bias");
        push_key(&mut keys, "layers[", i, "ffn.w_up");
        push_key(&mut keys, "layers[", i, "ffn.up_bias");
        push_key(&mut keys, "layers[", i, "ffn.w_down");
        push_key(&mut keys, "layers[", i, "ffn.down_bias");
        push_key(&mut keys, "layers[", i, "ffn_norm.weight");
        push_key(&mut keys, "layers[", i, "ffn_norm.bias");
        assert(weights::texts(keys@) =~= roberta_keys(i as nat));
        keys
    }
}

impl<T: Scalar> RoBERTaLayer<T> {
    pub open spec fn head_dim(&self) -> usize {
        (self.hidden_size as int / self.num_heads as int) as usize
    }

    pub open spec fn eps<M: Math<T>>(&self) -> T {
        scalar::binary64_of::<T, M>(self.layer_norm_eps.bits)
    }

    /// The heads make up a row, and the weights have their sizes. A bias may
    /// be missing.
    pub open spec fn wf(&self) -> bool {
        let h = self.hidden_size as nat;
        let inter = self.intermediate_size as nat;
        &&& self.num_heads > 0
        &&& self.hidden_size % self.num_heads == 0
        &&& self.w_q@.len() == h * h
        &&& self.w_k@.len() == h * h
        &&& self.w_v@.len() == h * h
        &&& self.w_o@.len() == h * h
        &&& self.q_bias@.len() == 0 || h <= self.q_bias@.len()
        &&& self.k_bias@.len() == 0 || h <= self.k_bias@.len()
        &&& self.v_bias@.len() == 0 || h <= self.v_bias@.len()
        &&& self.o_bias@.len() == 0 || h <= self.o_bias@.len()
        &&& h <= self.attn_ln_weight@.len()
        &&& h <= self.attn_ln_bias@.len()
        &&& self.w_up@.len() == inter * h
        &&& self.up_bias@.len() == 0 || inter <= self.up_bias@.len()
        &&& self.w_down@.len() == h * inter
        &&& self.down_bias@.len() == 0 || h <= self.down_bias@.len()
        &&& h <= self.ffn_ln_weight@.len()
        &&& h <= self.ffn_ln_bias@.len()
    }

    /// What the attention sub-layer adds.
    pub open spec fn attn_branch<M: Math<T>>(
        &self,
        x: Seq<T>,
        rows: nat,
        mask: Option<Seq<i64>>,
    ) -> Seq<T> {
        let h = self.hidden_size as nat;
        let seen = attention_of::<T, M>(
            ops::linear_of(x, self.w_q@, self.q_bias@, rows, h, h),
            ops::linear_of(x, self.w_k@, self.k_bias@, rows, h, h),
            ops::linear_of(x, self.w_v@, self.v_bias@, rows, h, h),
            rows,
            self.num_heads,
            self.head_dim(),
            mask,
        );
        ops::linear_of(seen, self.w_o@, self.o_bias@, rows, h, h)
    }

    /// What the feed-forward sub-layer adds.
    pub open spec fn ffn_branch<M: Math<T>>(&self, x: Seq<T>, rows: nat) -> Seq<T> {
        let h = self.hidden_size as nat;
        let inter = self.intermediate_size as nat;
        let up = ops::linear_of(x, self.w_up@, self.up_bias@, rows, h, inter);
        ops::linear_of(gelued::<T, M>(up), self.w_down@, self.down_bias@, rows, inter, h)
    }

    /// Rows through the layer: after each sub-layer its result is added and
    /// the sum is normalised.
    pub open spec fn output<M: Math<T>>(
        &self,
        x: Seq<T>,
        rows: nat,
        mask: Option<Seq<i64>>,
    ) -> Seq<T> {
        let h = self.hidden_size as nat;
        let normed = ops::layer_norm_bias_of::<T, M>(
            ops::sum_of(x, self.attn_branch::<M>(x, rows, mask)),
            self.attn_ln_weight@,
            self.attn_ln_bias@,
            self.eps::<M>(),
            h,
            rows,
        );
        ops::layer_norm_bias_of::<T, M>(
            ops::sum_of(normed, self.ffn_branch::<M>(normed, rows)),
            self.ffn_ln_weight@,
            self.ffn_ln_bias@,
            self.eps::<M>(),
            h,
            rows,
        )
    }

    /// `x` is `[seq_len, hidden]`. Returns the same shape.
    pub fn forward<M: Math<T>>(&self, x: &[T], seq_len: usize, attention_mask: Option<&[i64]>) -> (r:
        Vec<T>)
        requires
            scalar::mathematics::<T, M>(),
            self.wf(),
            x@.len() == seq_len * self.hidden_size,
            mask_reaches(mask_of(attention_mask), seq_len as nat),
        ensures
            r@ == self.output::<M>(x@, seq_len as nat, mask_of(attention_mask)),
            r@.len() == seq_len * self.hidden_size,
    {
        let h = self.hidden_size;
        let inter = self.intermediate_size;
        let head_dim = h / self.num_heads;
        let eps = M::from_binary64(self.layer_norm_eps.bits);
        proof {
            lemma_heads_fill(h, self.num_heads);
        }
        let q = linear(x, self.w_q.as_slice(), self.q_bias.as_slice(), seq_len, h, h);
        let k = linear(x, self.w_k.as_slice(), self.k_bias.as_slice(), seq_len, h, h);
        let v = linear(x, self.w_v.as_slice(), self.v_bias.as_slice(), seq_len, h, h);
        let attn = attend_all::<T, M>(
            q.as_slice(),
            k.as_slice(),
            v.as_slice(),
            seq_len,
            self.num_heads,
            head_dim,
            attention_mask,
        );
        let out = linear(
            attn.as_slice(),
            self.w_o.as_slice(),
            self.o_bias.as_slice(),
            seq_len,
            h,
            h,
        );
        // Residual + post-norm (attention sub-layer).
        let resid = add_vecs(x, out.as_slice());
        let normed = layernorm_with_bias::<T, M>(
            resid.as_slice(),
            self.attn_ln_weight.as_slice(),
            self.attn_ln_bias.as_slice(),
            eps,
            h,
            seq_len,
        );
        // Feed-forward sub-layer.
        let raw = linear(
            normed.as_slice(),
            self.w_up.as_slice(),
            self.up_bias.as_slice(),
            seq_len,
            h,
            inter,
        );
        let up = apply_gelu::<T, M>(raw.as_slice());
        let down = linear(
            up.as_slice(),
            self.w_down.as_slice(),
            self.down_bias.as_slice(),
            seq_len,
            inter,
            h,
        );
        let resid = add_vecs(normed.as_slice(), down.as_slice());
        layernorm_with_bias::<T, M>(
            resid.as_slice(),
            self.ffn_ln_weight.as_slice(),
            self.ffn_ln_bias.as_slice(),
            eps,
            h,
            seq_len,
        )
    }
}

/// Heads that divide a row evenly make it up.
pub proof fn lemma_heads_fill(h: usize, heads: usize)
    requires
        heads > 0,
        h % heads == 0,
    ensures
        heads * (h as int / heads as int) == h,
{
    vstd::arithmetic::div_mod::lemma_fundamental_div_mod(h as int, heads as int);
}

// ── Encoder ──────────────────────────────────────────────────────────

pub struct RoBERTaEncoder<T> {
    pub config: RoBERTaConfig,
    pub embeddings: RoBERTaEmbeddings<T>,
    pub layers: Vec<RoBERTaLayer<T>>,
}

/// What loading leaves as it is of an encoder.
pub struct RoBERTaStructure {
    pub config: RoBERTaConfig,
    pub hidden_size: usize,
    pub max_position_embeddings: usize,
    pub type_vocab_size: usize,
    pub pad_token_id: u32,
    pub layer_norm_eps: Binary64,
    pub layers: Seq<RoBERTaDims>,
}

impl<T: Scalar> WeightTarget<T> for RoBERTaEncoder<T> {
    type Structure = RoBERTaStructure;

    open spec fn structure(&self) -> RoBERTaStructure {
        RoBERTaStructure {
            config: self.config,
            hidden_size: self.embeddings.hidden_size,
            max_position_embeddings: self.embeddings.max_position_embeddings,
            type_vocab_size: self.embeddings.type_vocab_size,
            pad_token_id: self.embeddings.pad_token_id,
            layer_norm_eps: self.embeddings.layer_norm_eps,
            layers: self.layers@.map_values(|l: RoBERTaLayer<T>| l.dims()),
        }
    }

    open spec fn slot(key: Seq<char>) -> Option<Slot> {
        if key == "embeddings.word"@ || key == "embeddings.position"@ || key
            == "embeddings.token_type"@ || key == "embeddings.ln.weight"@ || key
            == "embeddings.ln.bias"@ {
            Some(Slot::Top(key))
        } else {
            match text::split_indexed_key("layers["@, key) {
                Some((i, field)) => Some(Slot::Layer("layers"@, i as int, field)),
                None => None,
            }
        }
    }

    open spec fn weight(&self, slot: Slot) -> Option<Seq<T>> {
        match slot {
            Slot::Top(name) => if name == "embeddings.word"@ {
                Some(self.embeddings.word@)
            } else if name == "embeddings.position"@ {
                Some(self.embeddings.position@)
            } else if name == "embeddings.token_type"@ {
                Some(self.embeddings.token_type@)
            } else if name == "embeddings.ln.weight"@ {
                Some(self.embeddings.ln_weight@)
            } else if name == "embeddings.ln.bias"@ {
                Some(self.embeddings.ln_bias@)
            } else {
                None
            },
            Slot::Layer(stack, i, field) => if stack == "layers"@ && 0 <= i < self.layers@.len() {
                self.layers@[i].field(field)
            } else {
                None
            },
        }
    }

    /// Every weight that the model has stands in a buffer.
    open spec fn vacant(&self, slot: Slot) -> bool {
        false
    }

    /// An encoder takes tensors of any shape.
    open spec fn refusal(
        structure: RoBERTaStructure,
        key: Seq<char>,
        shape: Seq<usize>,
    ) -> Option<Refusal> {
        None
    }

    open spec fn loadable(structure: RoBERTaStructure) -> bool {
        true
    }

    /// Tensors of any length are taken.
    open spec fn fits(structure: RoBERTaStructure, key: Seq<char>, len: nat) -> bool {
        true
    }

    open spec fn expected(&self) -> Seq<Seq<char>> {
        seq![
            "embeddings.word"@,
            "embeddings.position"@,
            "embeddings.token_type"@,
            "embeddings.ln.weight"@,
            "embeddings.ln.bias"@,
        ] + ops::blocks(self.layers@.len(), |i: int| roberta_keys(i as nat))
    }

    fn put(&mut self, key: &str, tensor: &RawTensor<T>) -> (r: Result<(), WeightError>) {
        self.set_weight(key, tensor)
    }

    fn expected_keys(&self) -> (r: Vec<String>) {
        self.expected_weight_keys()
    }
}

/// A layer key is none of the embeddings' keys.
proof fn lemma_layer_key_is_no_top_key(i: nat, field: Seq<char>)
    ensures
        ({
            let key = text::indexed_key("layers["@, i, field);
            &&& key != "embeddings.word"@
            &&& key != "embeddings.position"@
            &&& key != "embeddings.token_type"@
            &&& key != "embeddings.ln.weight"@
            &&& key != "embeddings.ln.bias"@
        }),
{
    reveal_strlit("layers[");
    reveal_strlit("embeddings.word");
    reveal_strlit("embeddings.position");
    reveal_strlit("embeddings.token_type");
    reveal_strlit("embeddings.ln.weight");
    reveal_strlit("embeddings.ln.bias");
    let key = text::indexed_key("layers["@, i, field);
    assert(key[0] == 'l');
    assert("embeddings.word"@[0] == 'e');
    assert("embeddings.position"@[0] == 'e');
    assert("embeddings.token_type"@[0] == 'e');
    assert("embeddings.ln.weight"@[0] == 'e');
    assert("embeddings.ln.bias"@[0] == 'e');
}

impl<T: Scalar> RoBERTaEncoder<T> {
    /// Every expected key leads to a weight that the encoder has.
    pub proof fn lemma_expected_keys_lead(&self)
        ensures
            weights::all_lead::<T, Self>(*self, self.expected()),
    {
        let n = self.layers@.len();
        assert(self.layers.len() == n);
        let f = |i: int| roberta_keys(i as nat);
        assert forall|i: int| 0 <= i < n implies weights::all_lead::<T, Self>(
            *self,
            #[trigger] f(i),
        ) by {
            assert forall|j: int| 0 <= j < f(i).len() implies weights::leads_to_weight::<T, Self>(
                *self,
                #[trigger] f(i)[j],
            ) by {
                let field = roberta_fields()[j];
                text::lemma_indexed_key_roundtrip("layers["@, i as nat, field);
                lemma_layer_key_is_no_top_key(i as nat, field);
                assert(f(i)[j] == text::indexed_key("layers["@, i as nat, field));
                assert(self.layers@[i].field(field) is Some);
            }
        }
        weights::lemma_blocks_lead::<T, Self>(*self, n, f);
        let first = seq![
            "embeddings.word"@,
            "embeddings.position"@,
            "embeddings.token_type"@,
            "embeddings.ln.weight"@,
            "embeddings.ln.bias"@,
        ];
        weights::lemma_lists_lead::<T, Self>(*self, first, ops::blocks(n, f));
    }
}

impl<T: Scalar> RoBERTaEncoder<T> {
    /// An encoder without weights.
    pub fn from_config(config: RoBERTaConfig) -> (r: Self)
        ensures
            r.config == config,
            r.embeddings.hidden_size == config.hidden_size,
            r.embeddings.max_position_embeddings == config.max_position_embeddings,
            r.embeddings.type_vocab_size == config.type_vocab_size,
            r.embeddings.pad_token_id == config.pad_token_id,
            r.embeddings.layer_norm_eps == config.layer_norm_eps,
            r.layers@.len() == config.num_hidden_layers,
            forall|i: int|
                0 <= i < r.layers@.len() ==> (#[trigger] r.layers@[i]).dims() == layer_dims(config)
                    && r.layers@[i].unloaded(),
            forall|s: Slot|
                (#[trigger] r.weight(s)) is Some ==> r.weight(s)->0 == Seq::<T>::empty(),
    {
        let embeddings = RoBERTaEmbeddings::new(&config);
        let mut layers: Vec<RoBERTaLayer<T>> = Vec::with_capacity(config.num_hidden_layers);
        for n in 0..config.num_hidden_layers
            invariant
                layers@.len() == n,
                forall|i: int|
                    0 <= i < n ==> (#[trigger] layers@[i]).dims() == layer_dims(config)
                        && layers@[i].unloaded(),
        {
            layers.push(RoBERTaLayer::new(&config));
        }
        let r = RoBERTaEncoder { config, embeddings, layers };
        assert forall|s: Slot| (#[trigger] r.weight(s)) is Some implies r.weight(s)->0 == Seq::<
            T,
        >::empty() by {
            match s {
                Slot::Layer(stack, i, field) => {
                    if stack == "layers"@ && 0 <= i < r.layers@.len() {
                        assert(r.layers@[i].unloaded());
                        assert(r.layers@[i].field(field) is Some);
                    }
                },
                Slot::Top(name) => {},
            }
        }
        r
    }

    /// The weights have their sizes.
    pub open spec fn wf(&self) -> bool {
        &&& self.embeddings.wf()
        &&& self.embeddings.hidden_size == self.config.hidden_size
        &&& forall|i: int|
            0 <= i < self.layers@.len() ==> (#[trigger] self.layers@[i]).wf()
                && self.layers@[i].hidden_size == self.config.hidden_size
    }

    /// The sequence can be counted in machine integers.
    pub open spec fn takes(&self, ids: Seq<i64>, mask: Seq<i64>) -> bool {
        &&& is_mask(mask)
        &&& ids.len() <= mask.len()
        &&& ids.len() + self.embeddings.pad_token_id <= i64::MAX
        &&& ids.len() + self.embeddings.pad_token_id <= usize::MAX
    }

    /// The rows after the first `n` layers.
    pub open spec fn rows_after<M: Math<T>>(&self, ids: Seq<i64>, mask: Seq<i64>, n: nat) -> Seq<T>
        decreases n,
    {
        if n == 0 {
            self.embeddings.output::<M>(ids, mask)
        } else {
            self.layers@[n - 1].output::<M>(
                self.rows_after::<M>(ids, mask, (n - 1) as nat),
                ids.len(),
                Some(mask),
            )
        }
    }

    /// The rows after all layers.
    pub open spec fn output<M: Math<T>>(&self, ids: Seq<i64>, mask: Seq<i64>) -> Seq<T> {
        self.rows_after::<M>(ids, mask, self.layers@.len())
    }

    /// Run the full encoder on a single sequence.
    ///
    /// Returns the final hidden state of shape `[seq_len, hidden]`
    /// (row-major, flat). `attention_mask` has length `seq_len` and is `1`
    /// for real tokens, `0` for pads.
    pub fn forward<M: Math<T>>(&self, input_ids: &[i64], attention_mask: &[i64]) -> (r: Vec<T>)
        requires
            scalar::mathematics::<T, M>(),
            self.wf(),
            self.takes(input_ids@, attention_mask@),
        ensures
            r@ == self.output::<M>(input_ids@, attention_mask@),
            r@.len() == input_ids@.len() * self.config.hidden_size,
    {
        let seq_len = input_ids.len();
        let mut h = self.embeddings.forward::<M>(input_ids, attention_mask);
        for i in 0..self.layers.len()
            invariant
                scalar::mathematics::<T, M>(),
                self.wf(),
                self.takes(input_ids@, attention_mask@),
                seq_len == input_ids@.len(),
                h@.len() == seq_len * self.config.hidden_size,
                h@ == self.rows_after::<M>(input_ids@, attention_mask@, i as nat),
        {
            assert(self.layers@[i as int].wf());
            h = self.layers[i].forward::<M>(h.as_slice(), seq_len, Some(attention_mask));
        }
        h
    }

    /// The CLS feature: the first row of the final hidden state.
    pub fn cls_feature<M: Math<T>>(&self, input_ids: &[i64], attention_mask: &[i64]) -> (r: Vec<T>)
        requires
            scalar::mathematics::<T, M>(),
            self.wf(),
            self.takes(input_ids@, attention_mask@),
            input_ids@.len() > 0,
        ensures
            r@ == ops::row(
                self.output::<M>(input_ids@, attention_mask@),
                0,
                self.config.hidden_size as int,
            ),
            r@.len() == self.config.hidden_size,
    {
        let h = self.forward::<M>(input_ids, attention_mask);
        proof {
            ops::lemma_row_bounds(0, input_ids@.len() as int, self.config.hidden_size as int);
        }
        copy_slice(row_slice(h.as_slice(), 0, self.config.hidden_size))
    }

    // ── weight loading ───────────────────────────────────────────────

    /// All target weight keys this model expects.
    pub fn expected_weight_keys(&self) -> (r: Vec<String>)
        ensures
            weights::texts(r@) == self.expected(),
    {
        let mut keys: Vec<String> = Vec::new();
        keys.push("embeddings.word".to_owned());
        keys.push("embeddings.position".to_owned());
        keys.push("embeddings.token_type".to_owned());
        keys.push("embeddings.ln.weight".to_owned());
        keys.push("embeddings.ln.bias".to_owned());
        let ghost head = seq!["embeddings.word"@, "embeddings.position"@, "embeddings.token_type"@, "embeddings.ln.weight"@, "embeddings.ln.bias"@];
        let ghost f = |i: int| roberta_keys(i as nat);
        assert(weights::texts(keys@) =~= head + ops::blocks(0, f));
        for i in 0..self.layers.len()
            invariant
                f == (|i: int| roberta_keys(i as nat)),
                weights::texts(keys@) == head + ops::blocks(i as nat, f),
        {
            let ghost before = keys@;
            let mut more = self.layers[i].expected_keys(i);
            let ghost added = more@;
            keys.append(&mut more);
            assert(weights::texts(keys@) =~= weights::texts(before) + weights::texts(added));
            assert(weights::texts(keys@) =~= head + ops::blocks((i + 1) as nat, f));
        }
        assert(weights::texts(keys@) =~= self.expected());
        keys
    }

    /// Assigns a weight by its key. A key that the model does not know changes
    /// nothing.
    pub fn set_weight(&mut self, key: &str, t: &RawTensor<T>) -> (r: Result<(), WeightError>)
        ensures
            r is Ok,
            final(self).structure() == old(self).structure(),
            forall|s: Slot| #[trigger]
                final(self).weight(s) == weights::write(
                    old(self).weight(s),
                    Self::slot(key@) == Some(s),
                    t.data@,
                ),
    {
        let ghost start = *self;
        if str_eq(key, "embeddings.word") {
            self.embeddings.word = t.data.duplicate();
        } else if str_eq(key, "embeddings.position") {
            self.embeddings.position = t.data.duplicate();
        } else if str_eq(key, "embeddings.token_type") {
            self.embeddings.token_type = t.data.duplicate();
        } else if str_eq(key, "embeddings.ln.weight") {
            self.embeddings.ln_weight = t.data.duplicate();
        } else if str_eq(key, "embeddings.ln.bias") {
            self.embeddings.ln_bias = t.data.duplicate();
        } else {
            match parse_layer_key(key) {
                Some((idx, field)) => {
                    if idx < self.layers.len() {
                        self.layers[idx].set_weight(field, t);
                        assert(self.structure().layers =~= start.structure().layers);
                    }
                },
                None => {},
            }
        }
        Ok(())
    }

    /// Load weights from source tensors whose keys are renamed by `mapping`.
    pub fn load_weights(&mut self, weights: &TensorMap<T>, mapping: KeyMapping) -> (r: Result<
        LoadResult,
        WeightError,
    >)
        requires
            weights.wf(),
        ensures
            r is Ok,
            final(self).structure() == old(self).structure(),
            weights::loaded_as(*old(self), *final(self), *weights, mapping, r),
    {
        load_mapped(self, weights, mapping)
    }
}

/// Parse `"layers[3].attention.w_q"` → `(3, "attention.w_q")`.
pub fn parse_layer_key<'a>(key: &'a str) -> (r: Option<(usize, &'a str)>)
    ensures
        match r {
            Some((i, field)) => text::split_indexed_key("layers["@, key@) == Some((i, field@)),
            None => text::split_indexed_key("layers["@, key@) is None,
        },
{
    parse_indexed_key("layers[", key)
}

// ── Configuration files ──────────────────────────────────────────────

/// The configuration that a HuggingFace `config.json` describes.
pub open spec fn roberta_config_in(tree: JsonTree) -> RoBERTaConfig {
    RoBERTaConfig {
        vocab_size: tree.size_or("vocab_size"@, 50265),
        hidden_size: tree.size_or("hidden_size"@, 768),
        num_hidden_layers: tree.size_or("num_hidden_layers"@, 12),
        num_attention_heads: tree.size_or("num_attention_heads"@, 12),
        intermediate_size: tree.size_or("intermediate_size"@, 3072),
        max_position_embeddings: tree.size_or("max_position_embeddings"@, 514),
        type_vocab_size: tree.size_or("type_vocab_size"@, 1),
        layer_norm_eps: Binary64 {
            bits: match tree.binary64("layer_norm_eps"@) {
                Some(bits) => bits,
                None => BITS_1E_5,
            },
        },
        pad_token_id: match tree.unsigned("pad_token_id"@) {
            Some(id) => id as u32,
            None => 1,
        },
    }
}

/// Read a RoBERTa config off a parsed JSON text.
pub fn roberta_config_from(v: &Json) -> (r: RoBERTaConfig)
    ensures
        r == roberta_config_in(v@),
{
    RoBERTaConfig {
        vocab_size: v.size_or("vocab_size", 50265),
        hidden_size: v.size_or("hidden_size", 768),
        num_hidden_layers: v.size_or("num_hidden_layers", 12),
        num_attention_heads: v.size_or("num_attention_heads", 12),
        intermediate_size: v.size_or("intermediate_size", 3072),
        max_position_embeddings: v.size_or("max_position_embeddings", 514),
        type_vocab_size: v.size_or("type_vocab_size", 1),
        layer_norm_eps: Binary64 {
            bits: match v.binary64("layer_norm_eps") {
                Some(bits) => bits,
                None => BITS_1E_5,
            },
        },
        pad_token_id: match v.unsigned("pad_token_id") {
            Some(id) => {
                #[verifier::truncate]
                (id as u32)
            },
            None => 1,
        },
    }
}

/// Parse an HF-style `config.json` into a [`RoBERTaConfig`]. Missing fields
/// fall back to RoBERTa-base defaults.
pub fn parse_roberta_config(json: &str) -> (r: Result<RoBERTaConfig, String>)
    ensures
        match r {
            Ok(config) => json::parsed(json@) matches Ok(tree) && config == roberta_config_in(tree),
            Err(e) => json::parsed(json@) == Err::<JsonTree, Seq<char>>(e@),
        },
{
    match parse(json) {
        Ok(v) => Ok(roberta_config_from(&v)),
        Err(e) => Err(e),
    }
}

} // verus!
