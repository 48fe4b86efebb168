//! Vision Transformer (ViT) model for image classification and embedding extraction.
//!
//! Implements the standard ViT architecture:
//! patch_embed → prepend CLS → add pos_embed → N × EncoderLayer → final norm → optional classifier.

use vstd::prelude::*;

use crate::attention;
use crate::attention::attend_row;
use crate::buffer;
use crate::buffer::{copy_slice, extend, filled, AlignedBuffer, RawTensor};
use crate::config::{AttentionConfig, Binary64, FFNConfig, NormConfig, BITS_1E_6};
use crate::norm;
use crate::norm::normalize_row;
use crate::ops;
use crate::ops::{
    activate_all, add_row_bias, add_vecs, add_vecs_inplace, linear_vec, row_slice, Activation,
};
use crate::patch;
use crate::patch::patch_embed;
use crate::scalar;
use crate::scalar::{Math, Scalar};
use crate::text;
use crate::text::{parse_indexed_key, str_eq};
use crate::weights;
use crate::weights::{
    load_mapped, push_key, KeyMapping, LoadResult, Refusal, Slot, TensorMap, WeightError,
    WeightTarget,
};

verus! {

/// Configuration for a Vision Transformer model.
#[derive(Debug, Clone, Copy, PartialEq, Eq, Structural)]
pub struct ViTConfig {
    pub image_size: usize,
    pub patch_size: usize,
    pub channels: usize,
    pub hidden_size: usize,
    pub num_layers: usize,
    pub num_heads: usize,
    pub intermediate_size: usize,
    pub num_classes: usize,
}

impl ViTConfig {
    pub open spec fn spec_head_dim(self) -> int {
        self.hidden_size as int / self.num_heads as int
    }

    /// The patches of a square image, whole patches only.
    pub open spec fn spec_num_patches(self) -> int {
        (self.image_size as int / self.patch_size as int) * (self.image_size as int
            / self.patch_size as int)
    }

    pub fn head_dim(&self) -> (r: usize)
        requires
            self.num_heads > 0,
        ensures
            r == self.spec_head_dim(),
    {
        self.hidden_size / self.num_heads
    }

    pub fn num_patches(&self) -> (r: usize)
        requires
            self.patch_size > 0,
            self.spec_num_patches() <= usize::MAX,
        ensures
            r == self.spec_num_patches(),
    {
        let patches_per_side = self.image_size / self.patch_size;
        patches_per_side * patches_per_side
    }

    /// Total sequence length including CLS token.
    pub fn seq_len(&self) -> (r: usize)
        requires
            self.patch_size > 0,
            self.spec_num_patches() < usize::MAX,
        ensures
            r == self.spec_num_patches() + 1,
    {
        self.num_patches() + 1
    }
}

/// Output from a ViT forward pass.
pub struct ViTOutput<T> {
    /// CLS token embedding after final norm: [hidden_size].
    pub embeddings: Vec<T>,
    /// Optional classification logits: [num_classes] (only if classifier head is present).
    pub logits: Option<Vec<T>>,
}

/// A single ViT encoder layer (pre-norm architecture).
///
/// Forward: norm → bidirectional_attention → residual → norm → FFN → residual.
pub struct EncoderLayer<T> {
    pub attn_norm: NormConfig,
    pub attention: AttentionConfig,
    pub ffn_norm: NormConfig,
    pub ffn: FFNConfig,
    pub hidden_size: usize,
    // ── Weights ──────────────────────────────────────────────────────
    pub attn_norm_weight: AlignedBuffer<T>,
    pub w_q: AlignedBuffer<T>,
    pub w_k: AlignedBuffer<T>,
    pub w_v: AlignedBuffer<T>,
    pub w_o: AlignedBuffer<T>,
    pub ffn_norm_weight: AlignedBuffer<T>,
    pub ffn_up: AlignedBuffer<T>,
    pub ffn_down: AlignedBuffer<T>,
    // ── Biases (empty if model doesn't use them) ─────────────────────
    pub q_bias: AlignedBuffer<T>,
    pub k_bias: AlignedBuffer<T>,
    pub v_bias: AlignedBuffer<T>,
    pub o_bias: AlignedBuffer<T>,
    pub ffn_up_bias: AlignedBuffer<T>,
    pub ffn_down_bias: AlignedBuffer<T>,
    pub attn_norm_bias: AlignedBuffer<T>,
    pub ffn_norm_bias: AlignedBuffer<T>,
}

/// What an encoder layer is, apart from its weights.
pub struct EncoderStructure {
    pub attn_norm: NormConfig,
    pub attention: AttentionConfig,
    pub ffn_norm: NormConfig,
    pub ffn: FFNConfig,
    pub hidden_size: usize,
}

/// An encoder layer of the usual kind: layer norm, bidirectional attention
/// and a GELU feed-forward part.
pub open spec fn plain_encoder(
    hidden_size: usize,
    num_heads: usize,
    head_dim: usize,
    intermediate_size: usize,
) -> EncoderStructure {
    let layer_norm = NormConfig::LayerNorm { eps: Binary64 { bits: BITS_1E_6 } };
    EncoderStructure {
        attn_norm: layer_norm,
        attention: AttentionConfig::Bidirectional { num_heads, head_dim },
        ffn_norm: layer_norm,
        ffn: FFNConfig::GELU { intermediate_size },
        hidden_size,
    }
}

/// The fields of an encoder layer's weights.
pub open spec fn encoder_fields() -> Seq<Seq<char>> {
    seq![
        "attn_norm.weight"@,
        "attn_norm.bias"@,
        "attention.w_q"@,
        "attention.q_bias"@,
        "attention.w_k"@,
        "attention.k_bias"@,
        "attention.w_v"@,
        "attention.v_bias"@,
        "attention.w_o"@,
        "attention.o_bias"@,
        "ffn_norm.weight"@,
        "ffn_norm.bias"@,
        "ffn.w_up"@,
        "ffn.up_bias"@,
        "ffn.w_down"@,
        "ffn.down_bias"@,
    ]
}

/// The weight keys of encoder layer `i`.
pub open spec fn encoder_keys(i: nat) -> Seq<Seq<char>> {
    encoder_fields().map_values(|f: Seq<char>| text::indexed_key("layers["@, i, f))
}

impl<T: Copy> EncoderLayer<T> {
    pub open spec fn structure(&self) -> EncoderStructure {
        EncoderStructure {
            attn_norm: self.attn_norm,
            attention: self.attention,
            ffn_norm: self.ffn_norm,
            ffn: self.ffn,
            hidden_size: self.hidden_size,
        }
    }

    /// The weight kept under a field name.
    pub open spec fn field(&self, name: Seq<char>) -> Option<Seq<T>> {
        if name == "attn_norm.weight"@ {
            Some(self.attn_norm_weight@)
        } else if name == "attn_norm.bias"@ {
            Some(self.attn_norm_bias@)
        } else if name == "attention.w_q"@ {
            Some(self.w_q@)
        } else if name == "attention.q_bias"@ {
            Some(self.q_bias@)
        } else if name == "attention.w_k"@ {
            Some(self.w_k@)
        } else if name == "attention.k_bias"@ {
            Some(self.k_bias@)
        } else if name == "attention.w_v"@ {
            Some(self.w_v@)
        } else if name == "attention.v_bias"@ {
            Some(self.v_bias@)
        } else if name == "attention.w_o"@ {
            Some(self.w_o@)
        } else if name == "attention.o_bias"@ {
            Some(self.o_bias@)
        } else if name == "ffn_norm.weight"@ {
            Some(self.ffn_norm_weight@)
        } else if name == "ffn_norm.bias"@ {
            Some(self.ffn_norm_bias@)
        } else if name == "ffn.w_up"@ {
            Some(self.ffn_up@)
        } else if name == "ffn.up_bias"@ {
            Some(self.ffn_up_bias@)
        } else if name == "ffn.w_down"@ {
            Some(self.ffn_down@)
        } else if name == "ffn.down_bias"@ {
            Some(self.ffn_down_bias@)
        } else {
            None
        }
    }

    /// No weight has been loaded.
    pub open spec fn unloaded(&self) -> bool {
        forall|n: Seq<char>|
            (#[trigger] self.field(n)) is Some ==> self.field(n)->0 == Seq::<T>::empty()
    }

    /// A layer of the usual kind without weights.
    pub fn plain(
        hidden_size: usize,
        num_heads: usize,
        head_dim: usize,
        intermediate_size: usize,
    ) -> (r: Self)
        ensures
            r.structure() == plain_encoder(hidden_size, num_heads, head_dim, intermediate_size),
            r.unloaded(),
    {
        let layer_norm = NormConfig::LayerNorm { eps: Binary64 { bits: BITS_1E_6 } };
        EncoderLayer {
            attn_norm: layer_norm,
            attention: AttentionConfig::Bidirectional { num_heads, head_dim },
            ffn_norm: layer_norm,
            ffn: FFNConfig::GELU { intermediate_size },
            hidden_size,
            attn_norm_weight: AlignedBuffer::empty(),
            attn_norm_bias: AlignedBuffer::empty(),
            w_q: AlignedBuffer::empty(),
            q_bias: AlignedBuffer::empty(),
            w_k: AlignedBuffer::empty(),
            k_bias: AlignedBuffer::empty(),
            w_v: AlignedBuffer::empty(),
            v_bias: AlignedBuffer::empty(),
            w_o: AlignedBuffer::empty(),
            o_bias: AlignedBuffer::empty(),
            ffn_norm_weight: AlignedBuffer::empty(),
            ffn_norm_bias: AlignedBuffer::empty(),
            ffn_up: AlignedBuffer::empty(),
            ffn_up_bias: AlignedBuffer::empty(),
            ffn_down: AlignedBuffer::empty(),
            ffn_down_bias: AlignedBuffer::empty(),
        }
    }

    /// Weight keys this layer expects.
    pub fn weight_keys(&self, layer_idx: usize) -> (r: Vec<String>)
        ensures
            weights::texts(r@) == encoder_keys(layer_idx as nat),
    {
        let i = layer_idx;
        let mut keys: Vec<String> = Vec::new();
        push_key(&mut keys, "layers[", i, "attn_norm.weight");
        push_key(&mut keys, "layers[", i, "attn_norm.bias");
        push_key(&mut keys, "layers[", i, "attention.w_q");
        push_key(&mut keys, "layers[", i, "attention.q_bias");
        push_key(&mut keys, "layers[", i, "attention.w_k");
        push_key(&mut keys, "layers[", i, "attention.k_bias");
        push_key(&mut keys, "layers[", i, "attention.w_v");
        push_key(&mut keys, "layers[", i, "attention.v_bias");
        push_key(&mut keys, "layers[", i, "attention.w_o");
        push_key(&mut keys, "layers[", i, "attention.o_bias");
        push_key(&mut keys, "layers[", i, "ffn_norm.weight");
        push_key(&mut keys, "layers[", i, "ffn_norm.bias");
        push_key(&mut keys, "layers[", i, "ffn.w_up");
        push_key(&mut keys, "layers[", i, "ffn.up_bias");
        push_key(&mut keys, "layers[", i, "ffn.w_down");
        push_key(&mut keys, "layers[", i, "ffn.down_bias");
        assert(weights::texts(keys@) =~= encoder_keys(layer_idx as nat));
        keys
    }

    /// Assign a weight by its field name (e.g. "attention.w_q"). A name that
    /// the layer does not know changes nothing.
    pub fn set_weight(&mut self, field: &str, tensor: &RawTensor<T>) -> (r: Result<
        (),
        WeightError,
    >)
        ensures
            r is Ok,
            final(self).structure() == old(self).structure(),
            forall|n: Seq<char>| #[trigger]
                final(self).field(n) == weights::write(
                    old(self).field(n),
                    n == field@,
                    tensor.data@,
                ),
    {
        if str_eq(field, "attn_norm.weight") {
            self.attn_norm_weight = tensor.data.duplicate();
        } else if str_eq(field, "attn_norm.bias") {
            self.attn_norm_bias = tensor.data.duplicate();
        } else if str_eq(field, "attention.w_q") {
            self.w_q = tensor.data.duplicate();
        } else if str_eq(field, "attention.q_bias") {
            self.q_bias = tensor.data.duplicate();
        } else if str_eq(field, "attention.w_k") {
            self.w_k = tensor.data.duplicate();
        } else if str_eq(field, "attention.k_bias") {
            self.k_bias = tensor.data.duplicate();
        } else if str_eq(field, "attention.w_v") {
            self.w_v = tensor.data.duplicate();
        } else if str_eq(field, "attention.v_bias") {
            self.v_bias = tensor.data.duplicate();
        } else if str_eq(field, "attention.w_o") {
            self.w_o = tensor.data.duplicate();
        } else if str_eq(field, "attention.o_bias") {
            self.o_bias = tensor.data.duplicate();
        } else if str_eq(field, "ffn_norm.weight") {
            self.ffn_norm_weight = tensor.data.duplicate();
        } else if str_eq(field, "ffn_norm.bias") {
            self.ffn_norm_bias = tensor.data.duplicate();
        } else if str_eq(field, "ffn.w_up") {
            self.ffn_up = tensor.data.duplicate();
        } else if str_eq(field, "ffn.up_bias") {
            self.ffn_up_bias = tensor.data.duplicate();
        } else if str_eq(field, "ffn.w_down") {
            self.ffn_down = tensor.data.duplicate();
        } else if str_eq(field, "ffn.down_bias") {
            self.ffn_down_bias = tensor.data.duplicate();
        }
        Ok(())
    }

    /// Every key that a layer lists names one of its weights, and splits back
    /// into the layer's index and that weight's field.
    pub proof fn lemma_keys_name_weights(&self, i: nat, j: int)
        requires
            i <= usize::MAX,
            0 <= j < encoder_fields().len(),
        ensures
            encoder_keys(i).len() == encoder_fields().len(),
            text::split_indexed_key("layers["@, encoder_keys(i)[j]) == Some(
                (i as usize, encoder_fields()[j]),
            ),
            self.field(encoder_fields()[j]) is Some,
    {
        text::lemma_indexed_key_roundtrip("layers["@, i, encoder_fields()[j]);
    }
}

// ── Forward pass of a layer ──────────────────────────────────────────

impl<T: Scalar> EncoderLayer<T> {
    /// Every weight has the size that the layer's structure asks for.
    pub open spec fn wf(&self) -> bool {
        let h = self.hidden_size as nat;
        let layout = self.attention.spec_layout();
        let inter = self.ffn.spec_intermediate_size() as nat;
        &&& layout.wf()
        &&& layout.num_kv_heads == layout.num_heads
        &&& self.attn_norm_weight@.len() == h
        &&& self.attn_norm_bias@.len() == 0 || self.attn_norm_bias@.len() == h
        &&& self.w_q@.len() == layout.q_dim() * h
        &&& self.w_k@.len() == layout.q_dim() * h
        &&& self.w_v@.len() == layout.q_dim() * h
        &&& self.q_bias@.len() == 0 || self.q_bias@.len() == layout.q_dim()
        &&& self.k_bias@.len() == 0 || self.k_bias@.len() == layout.q_dim()
        &&& self.v_bias@.len() == 0 || self.v_bias@.len() == layout.q_dim()
        &&& self.w_o@.len() == h * layout.q_dim()
        &&& self.o_bias@.len() == 0 || self.o_bias@.len() == h
        &&& self.ffn_norm_weight@.len() == h
        &&& self.ffn_norm_bias@.len() == 0 || self.ffn_norm_bias@.len() == h
        &&& self.ffn_up@.len() == inter * h
        &&& self.ffn_up_bias@.len() == 0 || self.ffn_up_bias@.len() == inter
        &&& self.ffn_down@.len() == h * inter
        &&& self.ffn_down_bias@.len() == 0 || self.ffn_down_bias@.len() == h
    }

    /// A row as the attention part sees it.
    pub open spec fn attn_input<M: Math<T>>(&self, x: Seq<T>) -> Seq<T> {
        ops::with_bias(
            norm::normed_row::<T, M>(self.attn_norm, x, self.attn_norm_weight@),
            self.attn_norm_bias@,
        )
    }

    pub open spec fn query_row<M: Math<T>>(&self, x: Seq<T>) -> Seq<T> {
        ops::linear_row(
            self.attn_input::<M>(x),
            self.w_q@,
            self.q_bias@,
            self.hidden_size as nat,
            self.attention.spec_layout().q_dim(),
        )
    }

    pub open spec fn key_row<M: Math<T>>(&self, x: Seq<T>) -> Seq<T> {
        ops::linear_row(
            self.attn_input::<M>(x),
            self.w_k@,
            self.k_bias@,
            self.hidden_size as nat,
            self.attention.spec_layout().q_dim(),
        )
    }

    pub open spec fn value_row<M: Math<T>>(&self, x: Seq<T>) -> Seq<T> {
        ops::linear_row(
            self.attn_input::<M>(x),
            self.w_v@,
            self.v_bias@,
            self.hidden_size as nat,
            self.attention.spec_layout().q_dim(),
        )
    }

    pub open spec fn key_rows<M: Math<T>>(&self, x: Seq<T>, rows: nat) -> Seq<T> {
        ops::blocks(rows, |t: int| self.key_row::<M>(ops::row(x, t, self.hidden_size as int)))
    }

    pub open spec fn value_rows<M: Math<T>>(&self, x: Seq<T>, rows: nat) -> Seq<T> {
        ops::blocks(rows, |t: int| self.value_row::<M>(ops::row(x, t, self.hidden_size as int)))
    }

    /// The feed-forward part on one normalised row:
    /// `gelu(x @ up^T + up_bias) @ down^T + down_bias`.
    pub open spec fn ffn_row<M: Math<T>>(&self, x: Seq<T>) -> Seq<T> {
        let h = self.hidden_size as nat;
        let inter = self.ffn.spec_intermediate_size() as nat;
        let up = ops::linear_row(x, self.ffn_up@, self.ffn_up_bias@, h, inter);
        ops::linear_row(
            ops::all_activated::<T, M>(Activation::Gelu, up),
            self.ffn_down@,
            self.ffn_down_bias@,
            inter,
            h,
        )
    }

    /// The layer's output for a row that sees `rows` keys and values.
    pub open spec fn output_row<M: Math<T>>(
        &self,
        x: Seq<T>,
        keys: Seq<T>,
        values: Seq<T>,
        rows: nat,
    ) -> Seq<T> {
        let layout = self.attention.spec_layout();
        let seen = attention::row_output::<T, M>(
            layout,
            self.query_row::<M>(x),
            keys,
            values,
            0,
            rows,
        );
        let attn = ops::linear_row(
            seen,
            self.w_o@,
            self.o_bias@,
            layout.q_dim(),
            self.hidden_size as nat,
        );
        let residual = ops::sum_of(x, attn);
        let normed = ops::with_bias(
            norm::normed_row::<T, M>(self.ffn_norm, residual, self.ffn_norm_weight@),
            self.ffn_norm_bias@,
        );
        ops::sum_of(residual, self.ffn_row::<M>(normed))
    }

    /// The layer on a whole sequence: every row sees every row.
    pub open spec fn forward_of<M: Math<T>>(&self, x: Seq<T>, rows: nat) -> Seq<T> {
        ops::blocks(
            rows,
            |t: int|
                self.output_row::<M>(
                    ops::row(x, t, self.hidden_size as int),
                    self.key_rows::<M>(x, rows),
                    self.value_rows::<M>(x, rows),
                    rows,
                ),
        )
    }

    pub proof fn lemma_forward_len<M: Math<T>>(&self, x: Seq<T>, rows: nat)
        requires
            self.wf(),
            x.len() == rows * self.hidden_size,
        ensures
            self.forward_of::<M>(x, rows).len() == rows * self.hidden_size,
            self.key_rows::<M>(x, rows).len() == rows * self.attention.spec_layout().q_dim(),
            self.value_rows::<M>(x, rows).len() == rows * self.attention.spec_layout().q_dim(),
    {
        let h = self.hidden_size as int;
        let w = self.attention.spec_layout().q_dim();
        let f = |t: int|
            self.output_row::<M>(
                ops::row(x, t, h),
                self.key_rows::<M>(x, rows),
                self.value_rows::<M>(x, rows),
                rows,
            );
        let g = |t: int| self.key_row::<M>(ops::row(x, t, h));
        let v = |t: int| self.value_row::<M>(ops::row(x, t, h));
        assert forall|t: int| 0 <= t < rows implies #[trigger] f(t).len() == h by {
            ops::lemma_row_bounds(t, rows as int, h);
        }
        assert forall|t: int| 0 <= t < rows implies #[trigger] g(t).len() == w by {}
        assert forall|t: int| 0 <= t < rows implies #[trigger] v(t).len() == w by {}
        ops::lemma_blocks_len(rows, f, h as nat);
        ops::lemma_blocks_len(rows, g, w);
        ops::lemma_blocks_len(rows, v, w);
    }

    fn read_input<M: Math<T>>(&self, x: &[T]) -> (r: Vec<T>)
        requires
            scalar::mathematics::<T, M>(),
            self.wf(),
            x@.len() == self.hidden_size,
        ensures
            r@ == self.attn_input::<M>(x@),
            r@.len() == self.hidden_size,
    {
        let n = normalize_row::<T, M>(self.attn_norm, x, self.attn_norm_weight.as_slice());
        add_row_bias(n, self.attn_norm_bias.as_slice())
    }

    fn apply_ffn<M: Math<T>>(&self, x: &[T]) -> (r: Vec<T>)
        requires
            scalar::mathematics::<T, M>(),
            self.wf(),
            x@.len() == self.hidden_size,
        ensures
            r@ == self.ffn_row::<M>(x@),
            r@.len() == self.hidden_size,
    {
        let h = self.hidden_size;
        let inter = self.ffn.intermediate_size();
        let up = linear_vec(
            x,
            self.ffn_up.as_slice(),
            self.ffn_up_bias.as_slice(),
            h,
            inter,
        );
        let a = activate_all::<T, M>(Activation::Gelu, up.as_slice());
        linear_vec(
            a.as_slice(),
            self.ffn_down.as_slice(),
            self.ffn_down_bias.as_slice(),
            inter,
            h,
        )
    }

    fn apply_to_row<M: Math<T>>(&self, x: &[T], keys: &[T], values: &[T], rows: usize) -> (r: Vec<
        T,
    >)
        requires
            scalar::mathematics::<T, M>(),
            self.wf(),
            x@.len() == self.hidden_size,
            keys@.len() == rows * self.attention.spec_layout().q_dim(),
            values@.len() == rows * self.attention.spec_layout().q_dim(),
        ensures
            r@ == self.output_row::<M>(x@, keys@, values@, rows as nat),
            r@.len() == self.hidden_size,
    {
        let layout = self.attention.layout();
        let q_dim = layout.num_heads * layout.head_dim;
        let h = self.hidden_size;
        let input = self.read_input::<M>(x);
        let q = linear_vec(
            input.as_slice(),
            self.w_q.as_slice(),
            self.q_bias.as_slice(),
            h,
            q_dim,
        );
        let seen = attend_row::<T, M>(layout, q.as_slice(), keys, values, 0, rows);
        let attn = linear_vec(
            seen.as_slice(),
            self.w_o.as_slice(),
            self.o_bias.as_slice(),
            q_dim,
            h,
        );
        let residual = add_vecs(x, attn.as_slice());
        let n = normalize_row::<T, M>(
            self.ffn_norm,
            residual.as_slice(),
            self.ffn_norm_weight.as_slice(),
        );
        let n = add_row_bias(n, self.ffn_norm_bias.as_slice());
        let ffn = self.apply_ffn::<M>(n.as_slice());
        add_vecs(residual.as_slice(), ffn.as_slice())
    }

    /// Pre-norm encoder forward: norm→bidirectional_attention→residual→norm→FFN→residual.
    ///
    /// `x` is `[seq_len, hidden_size]` (flat). Returns same shape.
    pub fn forward<M: Math<T>>(&self, x: &[T], seq_len: usize) -> (r: Vec<T>)
        requires
            scalar::mathematics::<T, M>(),
            self.wf(),
            x@.len() == seq_len * self.hidden_size,
        ensures
            r@ == self.forward_of::<M>(x@, seq_len as nat),
            r@.len() == seq_len * self.hidden_size,
    {
        let h = self.hidden_size;
        let layout = self.attention.layout();
        let q_dim = layout.num_heads * layout.head_dim;
        let ghost g = |t: int| self.key_row::<M>(ops::row(x@, t, h as int));
        let ghost v = |t: int| self.value_row::<M>(ops::row(x@, t, h as int));
        let mut keys: Vec<T> = Vec::new();
        let mut values: Vec<T> = Vec::new();
        for t in 0..seq_len
            invariant
                scalar::mathematics::<T, M>(),
                self.wf(),
                h == self.hidden_size,
                q_dim == self.attention.spec_layout().q_dim(),
                x@.len() == seq_len * h,
                g == (|t: int| self.key_row::<M>(ops::row(x@, t, h as int))),
                v == (|t: int| self.value_row::<M>(ops::row(x@, t, h as int))),
                keys@ == ops::blocks(t as nat, g),
                values@ == ops::blocks(t as nat, v),
        {
            proof {
                ops::lemma_row_bounds(t as int, seq_len as int, h as int);
            }
            let input = self.read_input::<M>(row_slice(x, t, h));
            let key = linear_vec(
                input.as_slice(),
                self.w_k.as_slice(),
                self.k_bias.as_slice(),
                h,
                q_dim,
            );
            let value = linear_vec(
                input.as_slice(),
                self.w_v.as_slice(),
                self.v_bias.as_slice(),
                h,
                q_dim,
            );
            extend(&mut keys, key.as_slice());
            extend(&mut values, value.as_slice());
            assert(keys@ =~= ops::blocks((t + 1) as nat, g));
            assert(values@ =~= ops::blocks((t + 1) as nat, v));
        }
        proof {
            self.lemma_forward_len::<M>(x@, seq_len as nat);
        }
        let ghost f = |t: int|
            self.output_row::<M>(
                ops::row(x@, t, h as int),
                self.key_rows::<M>(x@, seq_len as nat),
                self.value_rows::<M>(x@, seq_len as nat),
                seq_len as nat,
            );
        let mut out: Vec<T> = Vec::new();
        for t in 0..seq_len
            invariant
                scalar::mathematics::<T, M>(),
                self.wf(),
                h == self.hidden_size,
                x@.len() == seq_len * h,
                keys@ == self.key_rows::<M>(x@, seq_len as nat),
                values@ == self.value_rows::<M>(x@, seq_len as nat),
                keys@.len() == seq_len * self.attention.spec_layout().q_dim(),
                values@.len() == seq_len * self.attention.spec_layout().q_dim(),
                f == (|t: int|
                    self.output_row::<M>(
                        ops::row(x@, t, h as int),
                        self.key_rows::<M>(x@, seq_len as nat),
                        self.value_rows::<M>(x@, seq_len as nat),
                        seq_len as nat,
                    )),
                out@ == ops::blocks(t as nat, f),
        {
            proof {
                ops::lemma_row_bounds(t as int, seq_len as int, h as int);
            }
            let y = self.apply_to_row::<M>(
                row_slice(x, t, h),
                keys.as_slice(),
                values.as_slice(),
                seq_len,
            );
            extend(&mut out, y.as_slice());
            assert(out@ =~= ops::blocks((t + 1) as nat, f));
        }
        out
    }
}

/// The rows after the first `n` of a stack of encoder layers.
pub open spec fn encoded<T: Scalar, M: Math<T>>(
    layers: Seq<EncoderLayer<T>>,
    x: Seq<T>,
    rows: nat,
    n: nat,
) -> Seq<T>
    decreases n,
{
    if n == 0 {
        x
    } else {
        layers[n - 1].forward_of::<M>(encoded::<T, M>(layers, x, rows, (n - 1) as nat), rows)
    }
}

/// Every layer of a stack works on rows of `h` elements.
pub open spec fn stack_wf<T: Scalar>(layers: Seq<EncoderLayer<T>>, h: nat) -> bool {
    forall|i: int| 0 <= i < layers.len() ==> (#[trigger] layers[i]).wf() && layers[i].hidden_size == h
}

/// Runs a stack of encoder layers.
pub fn run_layers<T: Scalar, M: Math<T>>(
    layers: &Vec<EncoderLayer<T>>,
    x: Vec<T>,
    seq_len: usize,
    h: usize,
) -> (r: Vec<T>)
    requires
        scalar::mathematics::<T, M>(),
        stack_wf(layers@, h as nat),
        x@.len() == seq_len * h,
    ensures
        r@ == encoded::<T, M>(layers@, x@, seq_len as nat, layers@.len()),
        r@.len() == seq_len * h,
{
    let mut y = x;
    let ghost start = y@;
    for i in 0..layers.len()
        invariant
            scalar::mathematics::<T, M>(),
            stack_wf(layers@, h as nat),
            y@ == encoded::<T, M>(layers@, start, seq_len as nat, i as nat),
            y@.len() == seq_len * h,
    {
        let layer = &layers[i];
        assert(layer.wf());
        y = layer.forward::<M>(y.as_slice(), seq_len);
    }
    y
}

/// `n` layers of the usual kind without weights.
pub fn plain_layers<T: Copy>(
    n: usize,
    hidden_size: usize,
    num_heads: usize,
    head_dim: usize,
    intermediate_size: usize,
) -> (r: Vec<EncoderLayer<T>>)
    ensures
        r@.len() == n,
        forall|i: int|
            0 <= i < n ==> (#[trigger] r@[i]).unloaded() && r@[i].structure() == plain_encoder(
                hidden_size,
                num_heads,
                head_dim,
                intermediate_size,
            ),
{
    let mut layers: Vec<EncoderLayer<T>> = Vec::with_capacity(n);
    for i in 0..n
        invariant
            layers@.len() == i,
            forall|j: int|
                0 <= j < i ==> (#[trigger] layers@[j]).unloaded() && layers@[j].structure()
                    == plain_encoder(hidden_size, num_heads, head_dim, intermediate_size),
    {
        layers.push(EncoderLayer::plain(hidden_size, num_heads, head_dim, intermediate_size));
    }
    layers
}


// ── Model ────────────────────────────────────────────────────────────

/// A Vision Transformer model: patch_embed → CLS + pos → N × EncoderLayer → norm → classifier.
pub struct ViTModel<T> {
    pub config: ViTConfig,
    pub layers: Vec<EncoderLayer<T>>,
    pub final_norm: NormConfig,
    // ── Weights ──────────────────────────────────────────────────────
    /// Patch projection weight: [embed_dim, patch_dim] where patch_dim = P*P*C.
    pub patch_proj: AlignedBuffer<T>,
    /// Patch projection bias: [embed_dim].
    pub patch_proj_bias: AlignedBuffer<T>,
    /// Positional embeddings: [seq_len, hidden_size] where seq_len = 1 + num_patches.
    pub pos_embed: AlignedBuffer<T>,
    /// CLS token embedding: [hidden_size].
    pub cls_token: AlignedBuffer<T>,
    /// Final layer norm weight: [hidden_size].
    pub final_norm_weight: AlignedBuffer<T>,
    /// Final layer norm bias: [hidden_size].
    pub final_norm_bias: AlignedBuffer<T>,
    /// Optional classifier weight: [num_classes, hidden_size].
    pub classifier_head: Option<AlignedBuffer<T>>,
    /// Optional classifier bias: [num_classes].
    pub classifier_bias: Option<AlignedBuffer<T>>,
    /// ImageNet class labels (optional, for display).
    pub class_labels: Vec<String>,
    /// How many meta tokens the checkpoint carries.
    pub num_meta_tokens: usize,
    /// Meta tokens: [num_meta_tokens, hidden_size].
    pub meta_token: AlignedBuffer<T>,
    /// Encoder output projection weight.
    pub enc_proj_weight: AlignedBuffer<T>,
    /// Encoder output projection bias.
    pub enc_proj_bias: AlignedBuffer<T>,
}

/// What loading a ViT checkpoint leaves as it is.
pub struct ViTStructure<T> {
    pub config: ViTConfig,
    pub final_norm: NormConfig,
    pub layers: Seq<EncoderStructure>,
    pub class_labels: Vec<String>,
    pub has_classifier: bool,
    pub has_classifier_bias: bool,
    pub num_meta_tokens: usize,
    pub meta_token: Seq<T>,
    pub enc_proj_weight: Seq<T>,
    pub enc_proj_bias: Seq<T>,
}

/// The elements of an optional buffer.
pub open spec fn optional<T>(b: Option<AlignedBuffer<T>>) -> Option<Seq<T>> {
    match b {
        Some(b) => Some(b@),
        None => None,
    }
}

impl<T: Copy> WeightTarget<T> for ViTModel<T> {
    type Structure = ViTStructure<T>;

    open spec fn structure(&self) -> ViTStructure<T> {
        ViTStructure {
            config: self.config,
            final_norm: self.final_norm,
            layers: self.layers@.map_values(|l: EncoderLayer<T>| l.structure()),
            class_labels: self.class_labels,
            has_classifier: self.classifier_head is Some,
            has_classifier_bias: self.classifier_bias is Some,
            num_meta_tokens: self.num_meta_tokens,
            meta_token: self.meta_token@,
            enc_proj_weight: self.enc_proj_weight@,
            enc_proj_bias: self.enc_proj_bias@,
        }
    }

    open spec fn slot(key: Seq<char>) -> Option<Slot> {
        if key == "patch_proj"@ || key == "patch_proj_bias"@ || key == "cls_token"@ || key
            == "pos_embed"@ || key == "norm.weight"@ || key == "norm.bias"@ || key
            == "classifier.weight"@ || key == "classifier.bias"@ {
            Some(Slot::Top(key))
        } else {
            match text::split_indexed_key("layers["@, key) {
                Some((i, field)) => Some(Slot::Layer("layers"@, i as int, field)),
                None => None,
            }
        }
    }

    open spec fn weight(&self, slot: Slot) -> Option<Seq<T>> {
        match slot {
            Slot::Top(name) => if name == "patch_proj"@ {
                Some(self.patch_proj@)
            } else if name == "patch_proj_bias"@ {
                Some(self.patch_proj_bias@)
            } else if name == "cls_token"@ {
                Some(self.cls_token@)
            } else if name == "pos_embed"@ {
                Some(self.pos_embed@)
            } else if name == "norm.weight"@ {
                Some(self.final_norm_weight@)
            } else if name == "norm.bias"@ {
                Some(self.final_norm_bias@)
            } else if name == "classifier.weight"@ {
                optional(self.classifier_head)
            } else if name == "classifier.bias"@ {
                optional(self.classifier_bias)
            } else {
                None
            },
            Slot::Layer(stack, i, field) => if stack == "layers"@ && 0 <= i < self.layers@.len() {
                self.layers@[i].field(field)
            } else {
                None
            },
        }
    }

    /// Every weight that the model has stands in a buffer.
    open spec fn vacant(&self, slot: Slot) -> bool {
        false
    }

    /// A ViT takes tensors of any shape.
    open spec fn refusal(
        structure: ViTStructure<T>,
        key: Seq<char>,
        shape: Seq<usize>,
    ) -> Option<Refusal> {
        None
    }

    open spec fn loadable(structure: ViTStructure<T>) -> bool {
        true
    }

    /// Tensors of any length are taken.
    open spec fn fits(structure: ViTStructure<T>, key: Seq<char>, len: nat) -> bool {
        true
    }

    open spec fn expected(&self) -> Seq<Seq<char>> {
        seq!["patch_proj"@, "patch_proj_bias"@, "cls_token"@, "pos_embed"@] + ops::blocks(
            self.layers@.len(),
            |i: int| encoder_keys(i as nat),
        ) + seq!["norm.weight"@, "norm.bias"@] + (if self.classifier_head is Some {
            seq!["classifier.weight"@, "classifier.bias"@]
        } else {
            Seq::empty()
        })
    }

    fn put(&mut self, key: &str, tensor: &RawTensor<T>) -> (r: Result<(), WeightError>) {
        self.set_weight(key, tensor)
    }

    fn expected_keys(&self) -> (r: Vec<String>) {
        self.expected_weight_keys()
    }
}

impl<T: Copy> ViTModel<T> {
    /// The model has the architecture of a configuration, and no weights.
    pub open spec fn is_new(&self, config: ViTConfig) -> bool {
        &&& self.config == config
        &&& self.final_norm == (NormConfig::LayerNorm { eps: Binary64 { bits: BITS_1E_6 } })
        &&& self.layers@.len() == config.num_layers
        &&& forall|i: int|
            0 <= i < self.layers@.len() ==> (#[trigger] self.layers@[i]).unloaded()
                && self.layers@[i].structure() == plain_encoder(
                config.hidden_size,
                config.num_heads,
                config.spec_head_dim() as usize,
                config.intermediate_size,
            )
        &&& forall|s: Slot|
            (#[trigger] self.weight(s)) is Some ==> self.weight(s)->0 == Seq::<T>::empty()
        &&& self.classifier_head is Some <==> config.num_classes > 0
        &&& self.classifier_bias is Some <==> config.num_classes > 0
        &&& self.class_labels@.len() == 0
        &&& self.num_meta_tokens == 0
        &&& self.meta_token@ == Seq::<T>::empty()
        &&& self.enc_proj_weight@ == Seq::<T>::empty()
        &&& self.enc_proj_bias@ == Seq::<T>::empty()
    }

    /// Build a ViT model from config with zeroed weights.
    pub fn from_config(config: &ViTConfig) -> (r: Self)
        requires
            config.num_heads > 0,
        ensures
            r.is_new(*config),
    {
        let layers = plain_layers(
            config.num_layers,
            config.hidden_size,
            config.num_heads,
            config.head_dim(),
            config.intermediate_size,
        );
        let classifier_head = if config.num_classes > 0 {
            Some(AlignedBuffer::empty())
        } else {
            None
        };
        let classifier_bias = if config.num_classes > 0 {
            Some(AlignedBuffer::empty())
        } else {
            None
        };
        let r = ViTModel {
            config: *config,
            layers,
            final_norm: NormConfig::LayerNorm { eps: Binary64 { bits: BITS_1E_6 } },
            patch_proj: AlignedBuffer::empty(),
            patch_proj_bias: AlignedBuffer::empty(),
            pos_embed: AlignedBuffer::empty(),
            cls_token: AlignedBuffer::empty(),
            final_norm_weight: AlignedBuffer::empty(),
            final_norm_bias: AlignedBuffer::empty(),
            classifier_head,
            classifier_bias,
            class_labels: Vec::new(),
            num_meta_tokens: 0,
            meta_token: AlignedBuffer::empty(),
            enc_proj_weight: AlignedBuffer::empty(),
            enc_proj_bias: AlignedBuffer::empty(),
        };
        assert forall|s: Slot| (#[trigger] r.weight(s)) is Some implies r.weight(s)->0 == Seq::<
            T,
        >::empty() by {
            match s {
                Slot::Layer(stack, i, field) => {
                    if stack == "layers"@ && 0 <= i < r.layers@.len() {
                        assert(r.layers@[i].unloaded());
                        assert(r.layers@[i].field(field) is Some);
                    }
                },
                Slot::Top(name) => {},
            }
        }
        r
    }

    /// All target weight keys this model expects (Synapse naming).
    pub fn expected_weight_keys(&self) -> (r: Vec<String>)
        ensures
            weights::texts(r@) == self.expected(),
    {
        let mut keys: Vec<String> = Vec::new();
        keys.push("patch_proj".to_owned());
        keys.push("patch_proj_bias".to_owned());
        keys.push("cls_token".to_owned());
        keys.push("pos_embed".to_owned());
        let ghost head = seq!["patch_proj"@, "patch_proj_bias"@, "cls_token"@, "pos_embed"@];
        let ghost f = |i: int| encoder_keys(i as nat);
        assert(weights::texts(keys@) =~= head + ops::blocks(0, f));
        for i in 0..self.layers.len()
            invariant
                f == (|i: int| encoder_keys(i as nat)),
                weights::texts(keys@) == head + ops::blocks(i as nat, f),
        {
            let ghost before = keys@;
            let mut more = self.layers[i].weight_keys(i);
            let ghost added = more@;
            keys.append(&mut more);
            assert(weights::texts(keys@) =~= weights::texts(before) + weights::texts(added));
            assert(weights::texts(keys@) =~= head + ops::blocks((i + 1) as nat, f));
        }
        keys.push("norm.weight".to_owned());
        keys.push("norm.bias".to_owned());
        if self.classifier_head.is_some() {
            keys.push("classifier.weight".to_owned());
            keys.push("classifier.bias".to_owned());
        }
        assert(weights::texts(keys@) =~= self.expected());
        keys
    }

    /// Assigns a weight by its key. A classifier weight is taken only by a
    /// model with a classifier; a key that the model does not know changes
    /// nothing.
    pub fn set_weight(&mut self, key: &str, tensor: &RawTensor<T>) -> (r: Result<(), WeightError>)
        ensures
            r is Ok,
            final(self).structure() == old(self).structure(),
            forall|s: Slot| #[trigger]
                final(self).weight(s) == weights::write(
                    old(self).weight(s),
                    Self::slot(key@) == Some(s),
                    tensor.data@,
                ),
    {
        let ghost start = *self;
        if str_eq(key, "patch_proj") {
            self.patch_proj = tensor.data.duplicate();
        } else if str_eq(key, "patch_proj_bias") {
            self.patch_proj_bias = tensor.data.duplicate();
        } else if str_eq(key, "cls_token") {
            self.cls_token = tensor.data.duplicate();
        } else if str_eq(key, "pos_embed") {
            self.pos_embed = tensor.data.duplicate();
        } else if str_eq(key, "norm.weight") {
            self.final_norm_weight = tensor.data.duplicate();
        } else if str_eq(key, "norm.bias") {
            self.final_norm_bias = tensor.data.duplicate();
        } else if str_eq(key, "classifier.weight") {
            if self.classifier_head.is_some() {
                self.classifier_head = Some(tensor.data.duplicate());
            }
        } else if str_eq(key, "classifier.bias") {
            if self.classifier_bias.is_some() {
                self.classifier_bias = Some(tensor.data.duplicate());
            }
        } else {
            match parse_indexed_key("layers[", key) {
                Some((idx, field)) => {
                    if idx < self.layers.len() {
                        let set = self.layers[idx].set_weight(field, tensor);
                        assert(set is Ok);
                        assert(self.structure().layers =~= start.structure().layers);
                    }
                },
                None => {},
            }
        }
        Ok(())
    }

    /// Load weights from source tensors whose keys are renamed by `mapping`.
    pub fn load_weights(&mut self, weights: &TensorMap<T>, mapping: KeyMapping) -> (r: Result<
        LoadResult,
        WeightError,
    >)
        requires
            weights.wf(),
        ensures
            r is Ok,
            final(self).structure() == old(self).structure(),
            weights::loaded_as(*old(self), *final(self), *weights, mapping, r),
    {
        load_mapped(self, weights, mapping)
    }

    /// Every expected key leads to a weight that the model has.
    pub proof fn lemma_expected_keys_lead(&self)
        requires
            self.classifier_head is Some ==> self.classifier_bias is Some,
        ensures
            weights::all_lead::<T, Self>(*self, self.expected()),
    {
        let n = self.layers@.len();
        assert(self.layers.len() == n);
        let f = |i: int| encoder_keys(i as nat);
        assert forall|i: int| 0 <= i < n implies weights::all_lead::<T, Self>(
            *self,
            #[trigger] f(i),
        ) by {
            assert forall|j: int| 0 <= j < f(i).len() implies weights::leads_to_weight::<T, Self>(
                *self,
                #[trigger] f(i)[j],
            ) by {
                self.layers@[i].lemma_keys_name_weights(i as nat, j);
                lemma_indexed_key_is_no_top_key(i as nat, encoder_fields()[j]);
                assert(f(i)[j] == text::indexed_key("layers["@, i as nat, encoder_fields()[j]));
            }
        }
        weights::lemma_blocks_lead::<T, Self>(*self, n, f);
        let first = seq!["patch_proj"@, "patch_proj_bias"@, "cls_token"@, "pos_embed"@];
        let last = seq!["norm.weight"@, "norm.bias"@];
        let head = if self.classifier_head is Some {
            seq!["classifier.weight"@, "classifier.bias"@]
        } else {
            Seq::empty()
        };
        weights::lemma_lists_lead::<T, Self>(*self, first, ops::blocks(n, f));
        weights::lemma_lists_lead::<T, Self>(*self, first + ops::blocks(n, f), last);
        weights::lemma_lists_lead::<T, Self>(*self, first + ops::blocks(n, f) + last, head);
    }
}

/// An indexed layer key is none of the model's own keys.
proof fn lemma_indexed_key_is_no_top_key(i: nat, field: Seq<char>)
    ensures
        ({
            let key = text::indexed_key("layers["@, i, field);
            &&& key != "patch_proj"@
            &&& key != "patch_proj_bias"@
            &&& key != "cls_token"@
            &&& key != "pos_embed"@
            &&& key != "norm.weight"@
            &&& key != "norm.bias"@
            &&& key != "classifier.weight"@
            &&& key != "classifier.bias"@
        }),
{
    reveal_strlit("layers[");
    reveal_strlit("patch_proj");
    reveal_strlit("patch_proj_bias");
    reveal_strlit("cls_token");
    reveal_strlit("pos_embed");
    reveal_strlit("norm.weight");
    reveal_strlit("norm.bias");
    reveal_strlit("classifier.weight");
    reveal_strlit("classifier.bias");
    let key = text::indexed_key("layers["@, i, field);
    assert(key[0] == 'l');
    assert("patch_proj"@[0] == 'p');
    assert("patch_proj_bias"@[0] == 'p');
    assert("cls_token"@[0] == 'c');
    assert("pos_embed"@[0] == 'p');
    assert("norm.weight"@[0] == 'n');
    assert("norm.bias"@[0] == 'n');
    assert("classifier.weight"@[0] == 'c');
    assert("classifier.bias"@[0] == 'c');
}

// ── Forward pass of the model ────────────────────────────────────────

impl<T: Scalar> ViTModel<T> {
    /// The weights that an image is encoded with have their sizes.
    pub open spec fn wf(&self) -> bool {
        let c = self.config;
        let h = c.hidden_size as nat;
        &&& c.patch_size > 0
        &&& c.spec_num_patches() < usize::MAX
        &&& c.patch_size * c.patch_size * c.channels <= usize::MAX
        &&& c.patch_size * c.patch_size <= usize::MAX
        &&& c.patch_size * c.channels <= usize::MAX
        &&& stack_wf(self.layers@, h)
        &&& self.patch_proj@.len() == h * (c.patch_size * c.patch_size * c.channels)
        &&& self.patch_proj_bias@.len() == 0 || self.patch_proj_bias@.len() == h
        &&& self.cls_token@.len() == 0 || self.cls_token@.len() == h
        &&& self.final_norm_weight@.len() == h
        &&& self.final_norm_bias@.len() == 0 || self.final_norm_bias@.len() == h
        &&& self.classifier_head is Some ==> self.classifier_head->0@.len() == 0
            || self.classifier_head->0@.len() == c.num_classes * h
        &&& self.classifier_bias is Some ==> self.classifier_bias->0@.len() == 0
            || self.classifier_bias->0@.len() == c.num_classes
    }

    /// An image of this size has the patches that the model is made for.
    pub open spec fn image_fits(&self, image: Seq<T>, height: int, width: int) -> bool {
        let c = self.config;
        &&& image.len() == height * width * c.channels
        &&& height * width <= usize::MAX
        &&& (height / c.patch_size as int) * (width / c.patch_size as int)
            == c.spec_num_patches()
    }

    /// The patch rows of an image, without the projection's bias.
    pub open spec fn patch_rows(&self, image: Seq<T>, height: nat, width: nat) -> Seq<T> {
        patch::patch_embeddings(
            image,
            height,
            width,
            self.config.channels as nat,
            self.config.patch_size as nat,
            self.patch_proj@,
            self.config.hidden_size as nat,
        )
    }

    /// The row of the CLS token; zeros where none is loaded.
    pub open spec fn cls_row(&self) -> Seq<T> {
        if self.cls_token@.len() == 0 {
            buffer::repeated(scalar::zero(), self.config.hidden_size as nat)
        } else {
            self.cls_token@
        }
    }

    /// The CLS row and the patch rows with the positional embeddings added.
    pub open spec fn token_rows(&self, patches: Seq<T>) -> Seq<T> {
        ops::sum_into(self.cls_row() + patches, self.pos_embed@)
    }

    /// All rows after the encoder layers.
    pub open spec fn encoded_rows<M: Math<T>>(&self, patches: Seq<T>) -> Seq<T> {
        encoded::<T, M>(
            self.layers@,
            self.token_rows(patches),
            (self.config.spec_num_patches() + 1) as nat,
            self.layers@.len(),
        )
    }

    /// The embedding of an image: the CLS row after the final norm.
    pub open spec fn image_embedding<M: Math<T>>(&self, image: Seq<T>, height: nat, width: nat) -> Seq<
        T,
    > {
        let h = self.config.hidden_size as nat;
        let patches = ops::biased(
            self.patch_rows(image, height, width),
            self.patch_proj_bias@,
            self.config.spec_num_patches() as nat,
            h,
        );
        ops::with_bias(
            norm::normed_row::<T, M>(
                self.final_norm,
                ops::row(self.encoded_rows::<M>(patches), 0, h as int),
                self.final_norm_weight@,
            ),
            self.final_norm_bias@,
        )
    }

    /// The classifier's output for an embedding: nothing without a
    /// classifier, an empty list for one without weights.
    pub open spec fn class_logits(&self, embedding: Seq<T>) -> Option<Seq<T>> {
        match self.classifier_head {
            None => None,
            Some(head) => if head@.len() == 0 {
                Some(Seq::empty())
            } else {
                Some(
                    ops::linear_row(
                        embedding,
                        head@,
                        match self.classifier_bias {
                            Some(b) => b@,
                            None => Seq::empty(),
                        },
                        self.config.hidden_size as nat,
                        self.config.num_classes as nat,
                    ),
                )
            },
        }
    }

    /// The patch rows of an image, without the projection's bias.
    pub fn embed_patches(&self, image: &[T], height: usize, width: usize) -> (r: Vec<T>)
        requires
            scalar::arithmetic::<T>(),
            self.wf(),
            self.image_fits(image@, height as int, width as int),
        ensures
            r@ == self.patch_rows(image@, height as nat, width as nat),
            r@.len() == self.config.spec_num_patches() * self.config.hidden_size,
    {
        patch_embed(
            image,
            height,
            width,
            self.config.channels,
            self.config.patch_size,
            self.patch_proj.as_slice(),
            self.config.hidden_size,
        )
    }

    /// Prepends the CLS row, adds the positional embeddings and runs the
    /// encoder layers.
    pub fn encode_rows<M: Math<T>>(&self, patches: &[T]) -> (r: Vec<T>)
        requires
            scalar::mathematics::<T, M>(),
            self.wf(),
            patches@.len() == self.config.spec_num_patches() * self.config.hidden_size,
        ensures
            r@ == self.encoded_rows::<M>(patches@),
            r@.len() == (self.config.spec_num_patches() + 1) * self.config.hidden_size,
    {
        let h = self.config.hidden_size;
        let seq_len = self.config.seq_len();
        let mut x = if self.cls_token.is_empty() {
            filled(T::default(), h)
        } else {
            copy_slice(self.cls_token.as_slice())
        };
        extend(&mut x, patches);
        proof {
            let n = self.config.spec_num_patches();
            let hi = h as int;
            assert((n + 1) * hi == n * hi + hi) by (nonlinear_arith);
        }
        add_vecs_inplace(&mut x, self.pos_embed.as_slice());
        run_layers::<T, M>(&self.layers, x, seq_len, h)
    }

    /// Forward pass: image → embeddings (+ optional logits).
    ///
    /// `image` is `[height * width * channels]` (flat, HWC layout).
    pub fn forward_image<M: Math<T>>(&self, image: &[T], height: usize, width: usize) -> (r:
        ViTOutput<T>)
        requires
            scalar::mathematics::<T, M>(),
            self.wf(),
            self.image_fits(image@, height as int, width as int),
        ensures
            r.embeddings@ == self.image_embedding::<M>(image@, height as nat, width as nat),
            r.embeddings@.len() == self.config.hidden_size,
            match (r.logits, self.class_logits(r.embeddings@)) {
                (Some(l), Some(e)) => l@ == e,
                (None, None) => true,
                _ => false,
            },
    {
        let h = self.config.hidden_size;
        let num_patches = self.config.num_patches();
        let mut patches = self.embed_patches(image, height, width);
        ops::add_bias(&mut patches, self.patch_proj_bias.as_slice(), num_patches, h);
        let x = self.encode_rows::<M>(patches.as_slice());
        proof {
            ops::lemma_row_bounds(0, num_patches + 1, h as int);
        }
        let cls = row_slice(x.as_slice(), 0, h);
        let normed = normalize_row::<T, M>(
            self.final_norm,
            cls,
            self.final_norm_weight.as_slice(),
        );
        let embeddings = add_row_bias(normed, self.final_norm_bias.as_slice());
        let none: Vec<T> = Vec::new();
        let logits = match &self.classifier_head {
            None => None,
            Some(head) => {
                if head.is_empty() {
                    Some(Vec::new())
                } else {
                    let bias = match &self.classifier_bias {
                        Some(b) => b.as_slice(),
                        None => none.as_slice(),
                    };
                    Some(
                        linear_vec(
                            embeddings.as_slice(),
                            head.as_slice(),
                            bias,
                            h,
                            self.config.num_classes,
                        ),
                    )
                }
            },
        };
        ViTOutput { embeddings, logits }
    }
}

} // verus!
