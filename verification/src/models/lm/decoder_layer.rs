//! A single decoder layer of a causal language model.

use vstd::prelude::*;

use crate::attention;
use crate::attention::{attend_row, HeadLayout};
use crate::buffer::{extend, AlignedBuffer, RawTensor};
use crate::config::{is_gated_ffn, AttentionConfig, FFNConfig, NormConfig, RoPEStyle};
use crate::kv_cache::KVCacheLayer;
use crate::norm;
use crate::norm::{normalize_heads, normalize_row};
use crate::ops;
use crate::ops::{activate_all, add_vecs, linear_vec, mul_vecs, row_slice, Activation};
use crate::rope;
use crate::rope::rotate_row;
use crate::scalar;
use crate::scalar::{Math, Scalar};
use crate::text;
use crate::text::str_eq;
use crate::weights;
use crate::weights::{format_mismatch, push_key, same_dims, Refusal, WeightError};

verus! {

/// A single decoder transformer layer (pre-norm architecture).
///
/// Forward: norm → attention → residual → norm → FFN → residual.
pub struct DecoderLayer<T> {
    pub attn_norm: NormConfig,
    pub attention: AttentionConfig,
    pub ffn_norm: NormConfig,
    pub ffn: FFNConfig,
    pub hidden_size: usize,
    /// Whether this layer uses per-head Q/K norms (e.g. Qwen3 does, LLaMA/Mistral do not).
    pub has_head_norms: bool,
    /// RoPE dimension pairing convention.
    pub rope_style: RoPEStyle,
    // ── Weights ──────────────────────────────────────────────────────
    pub attn_norm_weight: AlignedBuffer<T>,
    pub w_q: AlignedBuffer<T>,
    pub w_k: AlignedBuffer<T>,
    pub w_v: AlignedBuffer<T>,
    pub w_o: AlignedBuffer<T>,
    pub q_norm_weight: AlignedBuffer<T>,
    pub k_norm_weight: AlignedBuffer<T>,
    // ── Attention biases (empty if model doesn't use them) ───────────
    pub q_bias: AlignedBuffer<T>,
    pub k_bias: AlignedBuffer<T>,
    pub v_bias: AlignedBuffer<T>,
    // ── FFN weights ──────────────────────────────────────────────────
    pub ffn_norm_weight: AlignedBuffer<T>,
    pub ffn_gate: AlignedBuffer<T>,
    pub ffn_up: AlignedBuffer<T>,
    pub ffn_down: AlignedBuffer<T>,
}

/// What a layer is, apart from its weights.
pub struct DecoderStructure {
    pub attn_norm: NormConfig,
    pub attention: AttentionConfig,
    pub ffn_norm: NormConfig,
    pub ffn: FFNConfig,
    pub hidden_size: usize,
    pub has_head_norms: bool,
    pub rope_style: RoPEStyle,
}

impl DecoderStructure {
    pub open spec fn layout(self) -> HeadLayout {
        self.attention.spec_layout()
    }

    /// The row widths are machine integers.
    pub open spec fn fits(self) -> bool {
        &&& self.layout().q_dim() <= usize::MAX
        &&& self.layout().kv_dim() <= usize::MAX
    }

    /// The dimensions that the tensor for `field` must have, where any are
    /// demanded.
    pub open spec fn expected_shape(self, field: Seq<char>) -> Option<Seq<usize>> {
        let h = self.hidden_size;
        let q_dim = self.layout().q_dim() as usize;
        let kv_dim = self.layout().kv_dim() as usize;
        let inter = self.ffn.spec_intermediate_size();
        if field == "attn_norm.weight"@ || field == "ffn_norm.weight"@ {
            Some(seq![h])
        } else if field == "attention.w_q"@ {
            Some(seq![q_dim, h])
        } else if field == "attention.w_k"@ || field == "attention.w_v"@ {
            Some(seq![kv_dim, h])
        } else if field == "attention.w_o"@ {
            Some(seq![h, q_dim])
        } else if field == "attention.q_norm"@ || field == "attention.k_norm"@ {
            Some(seq![self.layout().head_dim])
        } else if field == "attention.q_bias"@ {
            Some(seq![q_dim])
        } else if field == "attention.k_bias"@ || field == "attention.v_bias"@ {
            Some(seq![kv_dim])
        } else if field == "ffn.w_gate"@ || field == "ffn.w_up"@ {
            Some(seq![inter, h])
        } else if field == "ffn.w_down"@ {
            Some(seq![h, inter])
        } else {
            None
        }
    }

    /// The error that a tensor of this shape meets.
    pub open spec fn refusal(self, field: Seq<char>, shape: Seq<usize>) -> Option<Refusal> {
        match self.expected_shape(field) {
            Some(expected) => if shape != expected {
                Some(Refusal::ShapeMismatch(weights::mismatch_text(field, expected, shape)))
            } else {
                None
            },
            None => None,
        }
    }

    /// The fields that a complete layer has weights for.
    pub open spec fn key_fields(self) -> Seq<Seq<char>> {
        seq![
            "attn_norm.weight"@,
            "attention.w_q"@,
            "attention.w_k"@,
            "attention.w_v"@,
            "attention.w_o"@,
        ] + (if self.has_head_norms {
            seq!["attention.q_norm"@, "attention.k_norm"@]
        } else {
            Seq::empty()
        }) + seq!["ffn_norm.weight"@] + (if self.ffn.gated() {
            seq!["ffn.w_gate"@]
        } else {
            Seq::empty()
        }) + seq!["ffn.w_up"@, "ffn.w_down"@]
    }

    /// The keys of layer `i`.
    pub open spec fn keys(self, i: nat) -> Seq<Seq<char>> {
        self.key_fields().map_values(|f: Seq<char>| text::indexed_key("layers["@, i, f))
    }

    /// The number of trainable parameters.
    pub open spec fn param_total(self) -> int {
        let h = self.hidden_size as int;
        let q_dim = self.layout().q_dim() as int;
        let kv_dim = self.layout().kv_dim() as int;
        let inter = self.ffn.spec_intermediate_size() as int;
        let head_norms = if self.has_head_norms {
            2 * self.layout().head_dim as int
        } else {
            0
        };
        let matrices: int = if self.ffn.gated() {
            3
        } else {
            2
        };
        (2 * h + head_norms) + (q_dim * h + kv_dim * h + kv_dim * h + h * q_dim) + matrices * inter
            * h
    }
}

impl<T: Copy> DecoderLayer<T> {
    pub open spec fn structure(&self) -> DecoderStructure {
        DecoderStructure {
            attn_norm: self.attn_norm,
            attention: self.attention,
            ffn_norm: self.ffn_norm,
            ffn: self.ffn,
            hidden_size: self.hidden_size,
            has_head_norms: self.has_head_norms,
            rope_style: self.rope_style,
        }
    }

    /// The weight kept under a field name.
    pub open spec fn field(&self, name: Seq<char>) -> Option<Seq<T>> {
        if name == "attn_norm.weight"@ {
            Some(self.attn_norm_weight@)
        } else if name == "attention.w_q"@ {
            Some(self.w_q@)
        } else if name == "attention.w_k"@ {
            Some(self.w_k@)
        } else if name == "attention.w_v"@ {
            Some(self.w_v@)
        } else if name == "attention.w_o"@ {
            Some(self.w_o@)
        } else if name == "attention.q_norm"@ {
            Some(self.q_norm_weight@)
        } else if name == "attention.k_norm"@ {
            Some(self.k_norm_weight@)
        } else if name == "attention.q_bias"@ {
            Some(self.q_bias@)
        } else if name == "attention.k_bias"@ {
            Some(self.k_bias@)
        } else if name == "attention.v_bias"@ {
            Some(self.v_bias@)
        } else if name == "ffn_norm.weight"@ {
            Some(self.ffn_norm_weight@)
        } else if name == "ffn.w_gate"@ {
            Some(self.ffn_gate@)
        } else if name == "ffn.w_up"@ {
            Some(self.ffn_up@)
        } else if name == "ffn.w_down"@ {
            Some(self.ffn_down@)
        } else {
            None
        }
    }

    /// Number of trainable parameters in this layer.
    pub fn param_count(&self) -> (r: usize)
        requires
            self.structure().fits(),
            self.structure().param_total() <= usize::MAX,
            3 * self.ffn.spec_intermediate_size() <= usize::MAX,
            2 * self.structure().layout().head_dim <= usize::MAX,
        ensures
            r == self.structure().param_total(),
    {
        let layout = self.attention.layout();
        let h = self.hidden_size;
        let q_dim = layout.num_heads * layout.head_dim;
        let kv_dim = layout.num_kv_heads * layout.head_dim;
        let inter = self.ffn.intermediate_size();
        proof {
            self.ffn.lemma_gated_by_name();
            let hi = h as int;
            let q = q_dim as int;
            let k = kv_dim as int;
            let i = inter as int;
            assert(0 <= q * hi) by (nonlinear_arith)
                requires
                    q >= 0,
                    hi >= 0,
            ;
            assert(0 <= k * hi) by (nonlinear_arith)
                requires
                    k >= 0,
                    hi >= 0,
            ;
            assert(hi * q == q * hi) by (nonlinear_arith);
            assert(0 <= 3 * i * hi) by (nonlinear_arith)
                requires
                    i >= 0,
                    hi >= 0,
            ;
            assert(0 <= 2 * i * hi) by (nonlinear_arith)
                requires
                    i >= 0,
                    hi >= 0,
            ;
        }
        let head_norms: usize = if self.has_head_norms {
            2 * layout.head_dim
        } else {
            0
        };
        let norms = 2 * h + head_norms;
        let attn = q_dim * h + kv_dim * h + kv_dim * h + h * q_dim;
        let ffn = if is_gated_ffn(self.ffn.name()) {
            3 * inter * h
        } else {
            2 * inter * h
        };
        norms + attn + ffn
    }

    /// Weight keys this layer expects.
    pub fn weight_keys(&self, layer_idx: usize) -> (r: Vec<String>)
        ensures
            weights::texts(r@) == self.structure().keys(layer_idx as nat),
    {
        let i = layer_idx;
        let mut keys: Vec<String> = Vec::new();
        push_key(&mut keys, "layers[", i, "attn_norm.weight");
        push_key(&mut keys, "layers[", i, "attention.w_q");
        push_key(&mut keys, "layers[", i, "attention.w_k");
        push_key(&mut keys, "layers[", i, "attention.w_v");
        push_key(&mut keys, "layers[", i, "attention.w_o");
        if self.has_head_norms {
            push_key(&mut keys, "layers[", i, "attention.q_norm");
            push_key(&mut keys, "layers[", i, "attention.k_norm");
        }
        push_key(&mut keys, "layers[", i, "ffn_norm.weight");
        proof {
            self.ffn.lemma_gated_by_name();
        }
        if is_gated_ffn(self.ffn.name()) {
            push_key(&mut keys, "layers[", i, "ffn.w_gate");
        }
        push_key(&mut keys, "layers[", i, "ffn.w_up");
        push_key(&mut keys, "layers[", i, "ffn.w_down");
        assert(weights::texts(keys@) =~= self.structure().keys(layer_idx as nat));
        keys
    }

    fn validate_weight_shape(&self, field: &str, actual: &[usize]) -> (r: Result<(), WeightError>)
        requires
            self.structure().fits(),
        ensures
            match r {
                Ok(()) => self.structure().refusal(field@, actual@) is None,
                Err(e) => self.structure().refusal(field@, actual@) == Some(e@),
            },
    {
        let layout = self.attention.layout();
        let h = self.hidden_size;
        let q_dim = layout.num_heads * layout.head_dim;
        let kv_dim = layout.num_kv_heads * layout.head_dim;
        let inter = self.ffn.intermediate_size();
        let mut expected: Vec<usize> = Vec::new();
        if str_eq(field, "attn_norm.weight") || str_eq(field, "ffn_norm.weight") {
            expected.push(h);
        } else if str_eq(field, "attention.w_q") {
            expected.push(q_dim);
            expected.push(h);
        } else if str_eq(field, "attention.w_k") || str_eq(field, "attention.w_v") {
            expected.push(kv_dim);
            expected.push(h);
        } else if str_eq(field, "attention.w_o") {
            expected.push(h);
            expected.push(q_dim);
        } else if str_eq(field, "attention.q_norm") || str_eq(field, "attention.k_norm") {
            expected.push(layout.head_dim);
        } else if str_eq(field, "attention.q_bias") {
            expected.push(q_dim);
        } else if str_eq(field, "attention.k_bias") || str_eq(field, "attention.v_bias") {
            expected.push(kv_dim);
        } else if str_eq(field, "ffn.w_gate") || str_eq(field, "ffn.w_up") {
            expected.push(inter);
            expected.push(h);
        } else if str_eq(field, "ffn.w_down") {
            expected.push(h);
            expected.push(inter);
        } else {
            return Ok(());
        }
        assert(self.structure().expected_shape(field@) == Some(expected@)) by {
            assert(self.structure().expected_shape(field@).unwrap() =~= expected@);
        }
        if same_dims(actual, expected.as_slice()) {
            Ok(())
        } else {
            Err(
                WeightError::ShapeMismatch(
                    format_mismatch(field, expected.as_slice(), actual),
                ),
            )
        }
    }

    /// Assign a weight by its field name (e.g. "attention.w_q").
    pub fn set_weight(&mut self, field: &str, tensor: &RawTensor<T>) -> (r: Result<
        (),
        WeightError,
    >)
        requires
            old(self).structure().fits(),
        ensures
            final(self).structure() == old(self).structure(),
            match r {
                Ok(()) => {
                    &&& old(self).structure().refusal(field@, tensor.shape@) is None
                    &&& forall|n: Seq<char>| #[trigger]
                        final(self).field(n) == weights::write(
                            old(self).field(n),
                            n == field@,
                            tensor.data@,
                        )
                },
                Err(e) => {
                    &&& old(self).structure().refusal(field@, tensor.shape@) == Some(e@)
                    &&& *final(self) == *old(self)
                },
            },
    {
        match self.validate_weight_shape(field, tensor.shape.as_slice()) {
            Ok(()) => {},
            Err(e) => return Err(e),
        }
        if str_eq(field, "attn_norm.weight") {
            self.attn_norm_weight = tensor.data.duplicate();
        } else if str_eq(field, "attention.w_q") {
            self.w_q = tensor.data.duplicate();
        } else if str_eq(field, "attention.w_k") {
            self.w_k = tensor.data.duplicate();
        } else if str_eq(field, "attention.w_v") {
            self.w_v = tensor.data.duplicate();
        } else if str_eq(field, "attention.w_o") {
            self.w_o = tensor.data.duplicate();
        } else if str_eq(field, "attention.q_norm") {
            self.q_norm_weight = tensor.data.duplicate();
        } else if str_eq(field, "attention.k_norm") {
            self.k_norm_weight = tensor.data.duplicate();
        } else if str_eq(field, "attention.q_bias") {
            self.q_bias = tensor.data.duplicate();
        } else if str_eq(field, "attention.k_bias") {
            self.k_bias = tensor.data.duplicate();
        } else if str_eq(field, "attention.v_bias") {
            self.v_bias = tensor.data.duplicate();
        } else if str_eq(field, "ffn_norm.weight") {
            self.ffn_norm_weight = tensor.data.duplicate();
        } else if str_eq(field, "ffn.w_gate") {
            self.ffn_gate = tensor.data.duplicate();
        } else if str_eq(field, "ffn.w_up") {
            self.ffn_up = tensor.data.duplicate();
        } else if str_eq(field, "ffn.w_down") {
            self.ffn_down = tensor.data.duplicate();
        }
        Ok(())
    }
}


// ── Forward pass ─────────────────────────────────────────────────────

impl<T: Scalar> DecoderLayer<T> {
    /// Every weight has the size that the layer's structure asks for.
    pub open spec fn wf(&self) -> bool {
        let h = self.hidden_size as nat;
        let layout = self.attention.spec_layout();
        let inter = self.ffn.spec_intermediate_size() as nat;
        &&& layout.wf()
        &&& self.attn_norm_weight@.len() == h
        &&& self.w_q@.len() == layout.q_dim() * h
        &&& self.w_k@.len() == layout.kv_dim() * h
        &&& self.w_v@.len() == layout.kv_dim() * h
        &&& self.w_o@.len() == h * layout.q_dim()
        &&& self.q_norm_weight@.len() == 0 || self.q_norm_weight@.len() == layout.head_dim
        &&& self.k_norm_weight@.len() == 0 || self.k_norm_weight@.len() == layout.head_dim
        &&& self.q_bias@.len() == 0 || self.q_bias@.len() == layout.q_dim()
        &&& self.k_bias@.len() == 0 || self.k_bias@.len() == layout.kv_dim()
        &&& self.v_bias@.len() == 0 || self.v_bias@.len() == layout.kv_dim()
        &&& self.ffn_norm_weight@.len() == h
        &&& self.ffn.gated() ==> self.ffn_gate@.len() == inter * h
        &&& self.ffn_up@.len() == inter * h
        &&& self.ffn_down@.len() == h * inter
    }

    /// The tables of cosines and sines reach up to position `end`.
    pub open spec fn angles_reach(&self, cos: Seq<T>, sin: Seq<T>, end: int) -> bool {
        let half = self.attention.spec_layout().head_dim as int / 2;
        end * half <= cos.len() && end * half <= sin.len()
    }

    /// The query row of a hidden row at position `pos`.
    pub open spec fn query_row<M: Math<T>>(&self, x: Seq<T>, cos: Seq<T>, sin: Seq<T>, pos: int) -> Seq<
        T,
    > {
        let layout = self.attention.spec_layout();
        let n = norm::normed_row::<T, M>(self.attn_norm, x, self.attn_norm_weight@);
        let q = ops::linear_row(
            n,
            self.w_q@,
            self.q_bias@,
            self.hidden_size as nat,
            layout.q_dim(),
        );
        let q = norm::head_normed_row::<T, M>(
            q,
            self.q_norm_weight@,
            layout.num_heads as nat,
            layout.head_dim as nat,
            scalar::binary64_of::<T, M>(self.attn_norm.spec_eps().bits),
        );
        rope::rotated_row(
            q,
            cos,
            sin,
            layout.num_heads as nat,
            layout.head_dim as nat,
            pos,
            self.rope_style,
        )
    }

    /// The key row of a hidden row at position `pos`.
    pub open spec fn key_row<M: Math<T>>(&self, x: Seq<T>, cos: Seq<T>, sin: Seq<T>, pos: int) -> Seq<
        T,
    > {
        let layout = self.attention.spec_layout();
        let n = norm::normed_row::<T, M>(self.attn_norm, x, self.attn_norm_weight@);
        let k = ops::linear_row(
            n,
            self.w_k@,
            self.k_bias@,
            self.hidden_size as nat,
            layout.kv_dim(),
        );
        let k = norm::head_normed_row::<T, M>(
            k,
            self.k_norm_weight@,
            layout.num_kv_heads as nat,
            layout.head_dim as nat,
            scalar::binary64_of::<T, M>(self.attn_norm.spec_eps().bits),
        );
        rope::rotated_row(
            k,
            cos,
            sin,
            layout.num_kv_heads as nat,
            layout.head_dim as nat,
            pos,
            self.rope_style,
        )
    }

    /// The value row of a hidden row.
    pub open spec fn value_row<M: Math<T>>(&self, x: Seq<T>) -> Seq<T> {
        ops::linear_row(
            norm::normed_row::<T, M>(self.attn_norm, x, self.attn_norm_weight@),
            self.w_v@,
            self.v_bias@,
            self.hidden_size as nat,
            self.attention.spec_layout().kv_dim(),
        )
    }

    /// The feed-forward part on one normalised row.
    pub open spec fn ffn_row<M: Math<T>>(&self, x: Seq<T>) -> Seq<T> {
        let h = self.hidden_size as nat;
        let inter = self.ffn.spec_intermediate_size() as nat;
        let none = Seq::<T>::empty();
        let gate = ops::linear_row(x, self.ffn_gate@, none, h, inter);
        let up = ops::linear_row(x, self.ffn_up@, none, h, inter);
        let hidden = match self.ffn {
            FFNConfig::SwiGLU { intermediate_size } => ops::product_of(
                ops::all_activated::<T, M>(Activation::Silu, gate),
                up,
            ),
            FFNConfig::GeGLU { intermediate_size } => ops::product_of(
                ops::all_activated::<T, M>(Activation::Gelu, gate),
                up,
            ),
            FFNConfig::GELU { intermediate_size } => ops::all_activated::<T, M>(
                Activation::Gelu,
                up,
            ),
        };
        ops::linear_row(hidden, self.ffn_down@, none, inter, h)
    }

    /// The layer's output for a hidden row whose query sees the key and value
    /// rows `start..start + n`.
    pub open spec fn output_row<M: Math<T>>(
        &self,
        x: Seq<T>,
        keys: Seq<T>,
        values: Seq<T>,
        start: int,
        n: nat,
        cos: Seq<T>,
        sin: Seq<T>,
        pos: int,
    ) -> Seq<T> {
        let layout = self.attention.spec_layout();
        let seen = attention::row_output::<T, M>(
            layout,
            self.query_row::<M>(x, cos, sin, pos),
            keys,
            values,
            start,
            n,
        );
        let attn = ops::linear_row(
            seen,
            self.w_o@,
            Seq::empty(),
            layout.q_dim(),
            self.hidden_size as nat,
        );
        let residual = ops::sum_of(x, attn);
        let normed = norm::normed_row::<T, M>(self.ffn_norm, residual, self.ffn_norm_weight@);
        ops::sum_of(residual, self.ffn_row::<M>(normed))
    }

    /// The key rows of the hidden rows of `x`, which stand at the positions
    /// from zero on.
    pub open spec fn key_rows<M: Math<T>>(&self, x: Seq<T>, rows: nat, cos: Seq<T>, sin: Seq<T>) -> Seq<
        T,
    > {
        ops::blocks(
            rows,
            |t: int| self.key_row::<M>(ops::row(x, t, self.hidden_size as int), cos, sin, t),
        )
    }

    /// The value rows of the hidden rows of `x`.
    pub open spec fn value_rows<M: Math<T>>(&self, x: Seq<T>, rows: nat) -> Seq<T> {
        ops::blocks(rows, |t: int| self.value_row::<M>(ops::row(x, t, self.hidden_size as int)))
    }

    /// The layer on a whole sequence: each row sees itself and the rows
    /// before it.
    pub open spec fn forward_of<M: Math<T>>(&self, x: Seq<T>, rows: nat, cos: Seq<T>, sin: Seq<T>) -> Seq<
        T,
    > {
        ops::blocks(
            rows,
            |t: int|
                self.output_row::<M>(
                    ops::row(x, t, self.hidden_size as int),
                    self.key_rows::<M>(x, rows, cos, sin),
                    self.value_rows::<M>(x, rows),
                    0,
                    (t + 1) as nat,
                    cos,
                    sin,
                    t,
                ),
        )
    }

    pub proof fn lemma_row_lens<M: Math<T>>(&self, x: Seq<T>, cos: Seq<T>, sin: Seq<T>, pos: int)
        requires
            self.wf(),
            x.len() == self.hidden_size,
        ensures
            self.query_row::<M>(x, cos, sin, pos).len() == self.attention.spec_layout().q_dim(),
            self.key_row::<M>(x, cos, sin, pos).len() == self.attention.spec_layout().kv_dim(),
            self.value_row::<M>(x).len() == self.attention.spec_layout().kv_dim(),
    {
        let layout = self.attention.spec_layout();
        let eps = scalar::binary64_of::<T, M>(self.attn_norm.spec_eps().bits);
        let n = norm::normed_row::<T, M>(self.attn_norm, x, self.attn_norm_weight@);
        let h = self.hidden_size as nat;
        let q = ops::linear_row(n, self.w_q@, self.q_bias@, h, layout.q_dim());
        norm::lemma_head_normed_len::<T, M>(
            q,
            self.q_norm_weight@,
            layout.num_heads as nat,
            layout.head_dim as nat,
            eps,
        );
        rope::lemma_rotated_row_len(
            norm::head_normed_row::<T, M>(
                q,
                self.q_norm_weight@,
                layout.num_heads as nat,
                layout.head_dim as nat,
                eps,
            ),
            cos,
            sin,
            layout.num_heads as nat,
            layout.head_dim as nat,
            pos,
            self.rope_style,
        );
        let k = ops::linear_row(n, self.w_k@, self.k_bias@, h, layout.kv_dim());
        norm::lemma_head_normed_len::<T, M>(
            k,
            self.k_norm_weight@,
            layout.num_kv_heads as nat,
            layout.head_dim as nat,
            eps,
        );
        rope::lemma_rotated_row_len(
            norm::head_normed_row::<T, M>(
                k,
                self.k_norm_weight@,
                layout.num_kv_heads as nat,
                layout.head_dim as nat,
                eps,
            ),
            cos,
            sin,
            layout.num_kv_heads as nat,
            layout.head_dim as nat,
            pos,
            self.rope_style,
        );
    }

    /// The keys and values of a sequence fill one row per position.
    pub proof fn lemma_kv_lens<M: Math<T>>(&self, x: Seq<T>, rows: nat, cos: Seq<T>, sin: Seq<T>)
        requires
            self.wf(),
            x.len() == rows * self.hidden_size,
        ensures
            self.key_rows::<M>(x, rows, cos, sin).len() == rows
                * self.attention.spec_layout().kv_dim(),
            self.value_rows::<M>(x, rows).len() == rows * self.attention.spec_layout().kv_dim(),
    {
        let h = self.hidden_size as int;
        let kv_dim = self.attention.spec_layout().kv_dim();
        let f = |t: int| self.key_row::<M>(ops::row(x, t, h), cos, sin, t);
        let g = |t: int| self.value_row::<M>(ops::row(x, t, h));
        assert forall|t: int| 0 <= t < rows implies #[trigger] f(t).len() == kv_dim by {
            ops::lemma_row_bounds(t, rows as int, h);
            self.lemma_row_lens::<M>(ops::row(x, t, h), cos, sin, t);
        }
        assert forall|t: int| 0 <= t < rows implies #[trigger] g(t).len() == kv_dim by {
            ops::lemma_row_bounds(t, rows as int, h);
            self.lemma_row_lens::<M>(ops::row(x, t, h), cos, sin, t);
        }
        ops::lemma_blocks_len(rows, f, kv_dim);
        ops::lemma_blocks_len(rows, g, kv_dim);
    }

    pub proof fn lemma_forward_len<M: Math<T>>(&self, x: Seq<T>, rows: nat, cos: Seq<T>, sin: Seq<T>)
        requires
            self.wf(),
            x.len() == rows * self.hidden_size,
        ensures
            self.forward_of::<M>(x, rows, cos, sin).len() == rows * self.hidden_size,
    {
        let h = self.hidden_size as int;
        let keys = self.key_rows::<M>(x, rows, cos, sin);
        let values = self.value_rows::<M>(x, rows);
        let f = |t: int|
            self.output_row::<M>(
                ops::row(x, t, h),
                keys,
                values,
                0,
                (t + 1) as nat,
                cos,
                sin,
                t,
            );
        assert forall|t: int| 0 <= t < rows implies #[trigger] f(t).len() == h by {
            ops::lemma_row_bounds(t, rows as int, h);
        }
        ops::lemma_blocks_len(rows, f, h as nat);
    }

    /// Computes the key row and the value row of one hidden row.
    fn project_key_value<M: Math<T>>(&self, x: &[T], cos: &[T], sin: &[T], pos: usize) -> (r: (
        Vec<T>,
        Vec<T>,
    ))
        requires
            scalar::mathematics::<T, M>(),
            self.wf(),
            x@.len() == self.hidden_size,
            self.angles_reach(cos@, sin@, pos + 1),
        ensures
            r.0@ == self.key_row::<M>(x@, cos@, sin@, pos as int),
            r.1@ == self.value_row::<M>(x@),
            r.0@.len() == self.attention.spec_layout().kv_dim(),
            r.1@.len() == self.attention.spec_layout().kv_dim(),
    {
        let layout = self.attention.layout();
        let h = self.hidden_size;
        let kv_dim = layout.num_kv_heads * layout.head_dim;
        let eps = M::from_binary64(self.attn_norm.eps().bits);
        let n = normalize_row::<T, M>(self.attn_norm, x, self.attn_norm_weight.as_slice());
        let k = linear_vec(
            n.as_slice(),
            self.w_k.as_slice(),
            self.k_bias.as_slice(),
            h,
            kv_dim,
        );
        let k = normalize_heads::<T, M>(
            k.as_slice(),
            self.k_norm_weight.as_slice(),
            layout.num_kv_heads,
            layout.head_dim,
            eps,
        );
        let k = rotate_row(
            k.as_slice(),
            cos,
            sin,
            layout.num_kv_heads,
            layout.head_dim,
            pos,
            self.rope_style,
        );
        let v = linear_vec(
            n.as_slice(),
            self.w_v.as_slice(),
            self.v_bias.as_slice(),
            h,
            kv_dim,
        );
        (k, v)
    }

    /// Computes the query row of one hidden row.
    fn project_query<M: Math<T>>(&self, x: &[T], cos: &[T], sin: &[T], pos: usize) -> (r: Vec<T>)
        requires
            scalar::mathematics::<T, M>(),
            self.wf(),
            x@.len() == self.hidden_size,
            self.angles_reach(cos@, sin@, pos + 1),
        ensures
            r@ == self.query_row::<M>(x@, cos@, sin@, pos as int),
            r@.len() == self.attention.spec_layout().q_dim(),
    {
        let layout = self.attention.layout();
        let q_dim = layout.num_heads * layout.head_dim;
        let eps = M::from_binary64(self.attn_norm.eps().bits);
        let n = normalize_row::<T, M>(self.attn_norm, x, self.attn_norm_weight.as_slice());
        let q = linear_vec(
            n.as_slice(),
            self.w_q.as_slice(),
            self.q_bias.as_slice(),
            self.hidden_size,
            q_dim,
        );
        let q = normalize_heads::<T, M>(
            q.as_slice(),
            self.q_norm_weight.as_slice(),
            layout.num_heads,
            layout.head_dim,
            eps,
        );
        rotate_row(
            q.as_slice(),
            cos,
            sin,
            layout.num_heads,
            layout.head_dim,
            pos,
            self.rope_style,
        )
    }

    /// The feed-forward part on one normalised row.
    fn apply_ffn<M: Math<T>>(&self, x: &[T]) -> (r: Vec<T>)
        requires
            scalar::mathematics::<T, M>(),
            self.wf(),
            x@.len() == self.hidden_size,
        ensures
            r@ == self.ffn_row::<M>(x@),
            r@.len() == self.hidden_size,
    {
        let h = self.hidden_size;
        let inter = self.ffn.intermediate_size();
        let none: Vec<T> = Vec::new();
        let up = linear_vec(x, self.ffn_up.as_slice(), none.as_slice(), h, inter);
        let hidden = match self.ffn {
            FFNConfig::SwiGLU { .. } => {
                let gate = linear_vec(x, self.ffn_gate.as_slice(), none.as_slice(), h, inter);
                let a = activate_all::<T, M>(Activation::Silu, gate.as_slice());
                mul_vecs(a.as_slice(), up.as_slice())
            },
            FFNConfig::GeGLU { .. } => {
                let gate = linear_vec(x, self.ffn_gate.as_slice(), none.as_slice(), h, inter);
                let a = activate_all::<T, M>(Activation::Gelu, gate.as_slice());
                mul_vecs(a.as_slice(), up.as_slice())
            },
            FFNConfig::GELU { .. } => activate_all::<T, M>(Activation::Gelu, up.as_slice()),
        };
        linear_vec(hidden.as_slice(), self.ffn_down.as_slice(), none.as_slice(), inter, h)
    }

    /// Attention over the key and value rows `start..start + n`, then the
    /// feed-forward part, each added to what goes into it.
    fn apply_to_row<M: Math<T>>(
        &self,
        x: &[T],
        keys: &[T],
        values: &[T],
        start: usize,
        n: usize,
        cos: &[T],
        sin: &[T],
        pos: usize,
    ) -> (r: Vec<T>)
        requires
            scalar::mathematics::<T, M>(),
            self.wf(),
            x@.len() == self.hidden_size,
            start + n <= usize::MAX,
            (start + n) * self.attention.spec_layout().kv_dim() <= keys@.len(),
            (start + n) * self.attention.spec_layout().kv_dim() <= values@.len(),
            self.angles_reach(cos@, sin@, pos + 1),
        ensures
            r@ == self.output_row::<M>(
                x@,
                keys@,
                values@,
                start as int,
                n as nat,
                cos@,
                sin@,
                pos as int,
            ),
            r@.len() == self.hidden_size,
    {
        let layout = self.attention.layout();
        let q_dim = layout.num_heads * layout.head_dim;
        let none: Vec<T> = Vec::new();
        let q = self.project_query::<M>(x, cos, sin, pos);
        let seen = attend_row::<T, M>(layout, q.as_slice(), keys, values, start, n);
        let attn = linear_vec(
            seen.as_slice(),
            self.w_o.as_slice(),
            none.as_slice(),
            q_dim,
            self.hidden_size,
        );
        let residual = add_vecs(x, attn.as_slice());
        let normed = normalize_row::<T, M>(
            self.ffn_norm,
            residual.as_slice(),
            self.ffn_norm_weight.as_slice(),
        );
        let ffn = self.apply_ffn::<M>(normed.as_slice());
        add_vecs(residual.as_slice(), ffn.as_slice())
    }

    /// The key rows and value rows of all rows of `x`.
    fn project_all<M: Math<T>>(&self, x: &[T], seq_len: usize, cos: &[T], sin: &[T]) -> (r: (
        Vec<T>,
        Vec<T>,
    ))
        requires
            scalar::mathematics::<T, M>(),
            self.wf(),
            x@.len() == seq_len * self.hidden_size,
            self.angles_reach(cos@, sin@, seq_len as int),
        ensures
            r.0@ == self.key_rows::<M>(x@, seq_len as nat, cos@, sin@),
            r.1@ == self.value_rows::<M>(x@, seq_len as nat),
    {
        let h = self.hidden_size;
        let ghost f = |t: int| self.key_row::<M>(ops::row(x@, t, h as int), cos@, sin@, t);
        let ghost g = |t: int| self.value_row::<M>(ops::row(x@, t, h as int));
        let mut keys: Vec<T> = Vec::new();
        let mut values: Vec<T> = Vec::new();
        for t in 0..seq_len
            invariant
                scalar::mathematics::<T, M>(),
                self.wf(),
                h == self.hidden_size,
                x@.len() == seq_len * h,
                self.angles_reach(cos@, sin@, seq_len as int),
                f == (|t: int| self.key_row::<M>(ops::row(x@, t, h as int), cos@, sin@, t)),
                g == (|t: int| self.value_row::<M>(ops::row(x@, t, h as int))),
                keys@ == ops::blocks(t as nat, f),
                values@ == ops::blocks(t as nat, g),
        {
            proof {
                ops::lemma_row_bounds(t as int, seq_len as int, h as int);
                ops::lemma_row_bounds(
                    t as int,
                    seq_len as int,
                    self.attention.spec_layout().head_dim as int / 2,
                );
            }
            let (k, v) = self.project_key_value::<M>(row_slice(x, t, h), cos, sin, t);
            extend(&mut keys, k.as_slice());
            extend(&mut values, v.as_slice());
            assert(keys@ =~= ops::blocks((t + 1) as nat, f));
            assert(values@ =~= ops::blocks((t + 1) as nat, g));
        }
        (keys, values)
    }

    /// Every row of `x` through the layer, given all key and value rows.
    fn apply_to_all<M: Math<T>>(
        &self,
        x: &[T],
        keys: &[T],
        values: &[T],
        seq_len: usize,
        cos: &[T],
        sin: &[T],
    ) -> (r: Vec<T>)
        requires
            scalar::mathematics::<T, M>(),
            self.wf(),
            x@.len() == seq_len * self.hidden_size,
            keys@ == self.key_rows::<M>(x@, seq_len as nat, cos@, sin@),
            values@ == self.value_rows::<M>(x@, seq_len as nat),
            self.angles_reach(cos@, sin@, seq_len as int),
        ensures
            r@ == self.forward_of::<M>(x@, seq_len as nat, cos@, sin@),
            r@.len() == seq_len * self.hidden_size,
    {
        let h = self.hidden_size;
        proof {
            self.lemma_kv_lens::<M>(x@, seq_len as nat, cos@, sin@);
            self.lemma_forward_len::<M>(x@, seq_len as nat, cos@, sin@);
        }
        let ghost f = |t: int|
            self.output_row::<M>(
                ops::row(x@, t, h as int),
                self.key_rows::<M>(x@, seq_len as nat, cos@, sin@),
                self.value_rows::<M>(x@, seq_len as nat),
                0,
                (t + 1) as nat,
                cos@,
                sin@,
                t,
            );
        let mut out: Vec<T> = Vec::new();
        for t in 0..seq_len
            invariant
                scalar::mathematics::<T, M>(),
                self.wf(),
                h == self.hidden_size,
                x@.len() == seq_len * h,
                keys@ == self.key_rows::<M>(x@, seq_len as nat, cos@, sin@),
                values@ == self.value_rows::<M>(x@, seq_len as nat),
                keys@.len() == seq_len * self.attention.spec_layout().kv_dim(),
                values@.len() == seq_len * self.attention.spec_layout().kv_dim(),
                self.angles_reach(cos@, sin@, seq_len as int),
                f == (|t: int|
                    self.output_row::<M>(
                        ops::row(x@, t, h as int),
                        self.key_rows::<M>(x@, seq_len as nat, cos@, sin@),
                        self.value_rows::<M>(x@, seq_len as nat),
                        0,
                        (t + 1) as nat,
                        cos@,
                        sin@,
                        t,
                    )),
                out@ == ops::blocks(t as nat, f),
        {
            proof {
                ops::lemma_row_bounds(t as int, seq_len as int, h as int);
                ops::lemma_row_bounds(
                    t as int,
                    seq_len as int,
                    self.attention.spec_layout().kv_dim() as int,
                );
                ops::lemma_row_bounds(
                    t as int,
                    seq_len as int,
                    self.attention.spec_layout().head_dim as int / 2,
                );
            }
            let y = self.apply_to_row::<M>(
                row_slice(x, t, h),
                keys,
                values,
                0,
                t + 1,
                cos,
                sin,
                t,
            );
            extend(&mut out, y.as_slice());
            assert(out@ =~= ops::blocks((t + 1) as nat, f));
        }
        out
    }

    /// Pre-norm forward: norm→attention→residual→norm→FFN→residual.
    ///
    /// `x` is `[seq_len, hidden_size]` (flat). Returns same shape.
    /// `rope_cos` / `rope_sin` are `[max_pos, head_dim/2]` precomputed tables.
    pub fn forward<M: Math<T>>(
        &self,
        x: &[T],
        seq_len: usize,
        rope_cos: &[T],
        rope_sin: &[T],
    ) -> (r: Vec<T>)
        requires
            scalar::mathematics::<T, M>(),
            self.wf(),
            x@.len() == seq_len * self.hidden_size,
            self.angles_reach(rope_cos@, rope_sin@, seq_len as int),
        ensures
            r@ == self.forward_of::<M>(x@, seq_len as nat, rope_cos@, rope_sin@),
            r@.len() == seq_len * self.hidden_size,
    {
        let (keys, values) = self.project_all::<M>(x, seq_len, rope_cos, rope_sin);
        self.apply_to_all::<M>(
            x,
            keys.as_slice(),
            values.as_slice(),
            seq_len,
            rope_cos,
            rope_sin,
        )
    }

    /// Batched prefill: same as [`forward`](Self::forward) but also populates
    /// the KV cache.
    ///
    /// The rotated keys and the values of every position are appended to
    /// `cache_layer`, so that [`forward_one`](Self::forward_one) decode steps
    /// can reuse them.
    pub fn forward_prefill_batched<M: Math<T>>(
        &self,
        x: &[T],
        seq_len: usize,
        cache_layer: &mut KVCacheLayer<T>,
        rope_cos: &[T],
        rope_sin: &[T],
    ) -> (r: Vec<T>)
        requires
            scalar::mathematics::<T, M>(),
            self.wf(),
            x@.len() == seq_len * self.hidden_size,
            self.angles_reach(rope_cos@, rope_sin@, seq_len as int),
            old(cache_layer).wf(),
            old(cache_layer).row_width() == self.attention.spec_layout().kv_dim(),
            old(cache_layer).positions() + seq_len <= old(cache_layer).capacity(),
        ensures
            r@ == self.forward_of::<M>(x@, seq_len as nat, rope_cos@, rope_sin@),
            r@.len() == seq_len * self.hidden_size,
            final(cache_layer).wf(),
            final(cache_layer).row_width() == old(cache_layer).row_width(),
            final(cache_layer).capacity() == old(cache_layer).capacity(),
            final(cache_layer).positions() == old(cache_layer).positions() + seq_len,
            final(cache_layer).key_rows() == old(cache_layer).key_rows() + self.key_rows::<M>(
                x@,
                seq_len as nat,
                rope_cos@,
                rope_sin@,
            ),
            final(cache_layer).value_rows() == old(cache_layer).value_rows() + self.value_rows::<M>(
                x@,
                seq_len as nat,
            ),
    {
        let (keys, values) = self.project_all::<M>(x, seq_len, rope_cos, rope_sin);
        let layout = self.attention.layout();
        let kv_dim = layout.num_kv_heads * layout.head_dim;
        proof {
            self.lemma_kv_lens::<M>(x@, seq_len as nat, rope_cos@, rope_sin@);
        }
        let ghost before = *cache_layer;
        for t in 0..seq_len
            invariant
                kv_dim == self.attention.spec_layout().kv_dim(),
                keys@.len() == seq_len * kv_dim,
                values@.len() == seq_len * kv_dim,
                before.positions() + seq_len <= before.capacity(),
                before.row_width() == kv_dim,
                cache_layer.wf(),
                cache_layer.row_width() == kv_dim,
                cache_layer.capacity() == before.capacity(),
                cache_layer.positions() == before.positions() + t,
                t * kv_dim <= seq_len * kv_dim,
                cache_layer.key_rows() == before.key_rows() + keys@.take((t * kv_dim) as int),
                cache_layer.value_rows() == before.value_rows() + values@.take((t * kv_dim) as int),
        {
            proof {
                ops::lemma_row_bounds(t as int, seq_len as int, kv_dim as int);
            }
            let k = row_slice(keys.as_slice(), t, kv_dim);
            let v = row_slice(values.as_slice(), t, kv_dim);
            let appended = cache_layer.append(k, v);
            assert(appended is Ok);
            proof {
                assert(keys@.take((t + 1) * kv_dim) =~= keys@.take((t * kv_dim) as int) + k@);
                assert(values@.take((t + 1) * kv_dim) =~= values@.take((t * kv_dim) as int) + v@);
                assert(cache_layer.key_rows() =~= before.key_rows() + keys@.take((t + 1) * kv_dim));
                assert(cache_layer.value_rows() =~= before.value_rows() + values@.take(
                    (t + 1) * kv_dim,
                ));
            }
        }
        assert(keys@.take(keys@.len() as int) =~= keys@);
        assert(values@.take(values@.len() as int) =~= values@);
        self.apply_to_all::<M>(
            x,
            keys.as_slice(),
            values.as_slice(),
            seq_len,
            rope_cos,
            rope_sin,
        )
    }

    /// Single-token forward using KV cache for autoregressive decode.
    ///
    /// `hidden` is `[1, hidden_size]` (flat). `cache_layer` holds K/V from
    /// prior positions. `pos` is the 0-based position of this token.
    /// Returns `[1, hidden_size]`.
    ///
    /// Attention reads K/V from the cache, to which this token's own row is
    /// appended first, instead of recomputing them for all positions. A
    /// sliding window limits what is read, not what is stored.
    pub fn forward_one<M: Math<T>>(
        &self,
        hidden: &[T],
        cache_layer: &mut KVCacheLayer<T>,
        pos: usize,
        rope_cos: &[T],
        rope_sin: &[T],
    ) -> (r: Vec<T>)
        requires
            scalar::mathematics::<T, M>(),
            self.wf(),
            hidden@.len() == self.hidden_size,
            self.angles_reach(rope_cos@, rope_sin@, pos + 1),
            old(cache_layer).wf(),
            old(cache_layer).row_width() == self.attention.spec_layout().kv_dim(),
            old(cache_layer).positions() < old(cache_layer).capacity(),
        ensures
            final(cache_layer).wf(),
            final(cache_layer).row_width() == old(cache_layer).row_width(),
            final(cache_layer).capacity() == old(cache_layer).capacity(),
            final(cache_layer).positions() == old(cache_layer).positions() + 1,
            final(cache_layer).key_rows() == old(cache_layer).key_rows() + self.key_row::<M>(
                hidden@,
                rope_cos@,
                rope_sin@,
                pos as int,
            ),
            final(cache_layer).value_rows() == old(cache_layer).value_rows() + self.value_row::<M>(
                hidden@,
            ),
            ({
                let len = final(cache_layer).positions();
                let start = attention::window_start(len, self.attention.spec_window());
                r@ == self.output_row::<M>(
                    hidden@,
                    final(cache_layer).key_rows(),
                    final(cache_layer).value_rows(),
                    start as int,
                    (len - start) as nat,
                    rope_cos@,
                    rope_sin@,
                    pos as int,
                )
            }),
            r@.len() == self.hidden_size,
    {
        let (k, v) = self.project_key_value::<M>(hidden, rope_cos, rope_sin, pos);
        let appended = cache_layer.append(k.as_slice(), v.as_slice());
        assert(appended is Ok);
        let (keys, values, len) = cache_layer.slice();
        let start: usize = match self.attention.window_size() {
            Some(w) => if len > w {
                len - w
            } else {
                0
            },
            None => 0,
        };
        self.apply_to_row::<M>(
            hidden,
            keys,
            values,
            start,
            len - start,
            rope_cos,
            rope_sin,
            pos,
        )
    }
}


// ── Laws ─────────────────────────────────────────────────────────────

impl<T: Scalar> DecoderLayer<T> {
    /// Rows further on do not change the keys and values of the rows before
    /// them.
    pub proof fn lemma_kv_prefix<M: Math<T>>(
        &self,
        x: Seq<T>,
        rows: nat,
        longer: Seq<T>,
        more: nat,
        cos: Seq<T>,
        sin: Seq<T>,
    )
        requires
            self.wf(),
            rows <= more,
            x.len() == rows * self.hidden_size,
            longer.len() == more * self.hidden_size,
            rows * self.hidden_size <= more * self.hidden_size,
            longer.take((rows * self.hidden_size) as int) == x,
        ensures
            rows * self.attention.spec_layout().kv_dim() <= more
                * self.attention.spec_layout().kv_dim(),
            self.key_rows::<M>(longer, more, cos, sin).take(
                (rows * self.attention.spec_layout().kv_dim()) as int,
            ) == self.key_rows::<M>(x, rows, cos, sin),
            self.value_rows::<M>(longer, more).take(
                (rows * self.attention.spec_layout().kv_dim()) as int,
            ) == self.value_rows::<M>(x, rows),
    {
        let h = self.hidden_size as int;
        let w = self.attention.spec_layout().kv_dim();
        let f = |t: int| self.key_row::<M>(ops::row(longer, t, h), cos, sin, t);
        let g = |t: int| self.value_row::<M>(ops::row(longer, t, h));
        let f0 = |t: int| self.key_row::<M>(ops::row(x, t, h), cos, sin, t);
        let g0 = |t: int| self.value_row::<M>(ops::row(x, t, h));
        assert forall|t: int| 0 <= t < more implies #[trigger] f(t).len() == w by {
            ops::lemma_row_bounds(t, more as int, h);
            self.lemma_row_lens::<M>(ops::row(longer, t, h), cos, sin, t);
        }
        assert forall|t: int| 0 <= t < more implies #[trigger] g(t).len() == w by {
            ops::lemma_row_bounds(t, more as int, h);
            self.lemma_row_lens::<M>(ops::row(longer, t, h), cos, sin, t);
        }
        ops::lemma_blocks_prefix(rows, more, f, w);
        ops::lemma_blocks_prefix(rows, more, g, w);
        assert forall|t: int| 0 <= t < rows implies #[trigger] f(t) == f0(t) by {
            ops::lemma_row_bounds(t, rows as int, h);
            assert(ops::row(longer, t, h) =~= ops::row(x, t, h));
        }
        assert forall|t: int| 0 <= t < rows implies #[trigger] g(t) == g0(t) by {
            ops::lemma_row_bounds(t, rows as int, h);
            assert(ops::row(longer, t, h) =~= ops::row(x, t, h));
        }
        ops::lemma_blocks_same(rows, f, f0);
        ops::lemma_blocks_same(rows, g, g0);
    }

    /// A row's output depends on the keys and values that it sees, and on no
    /// later ones.
    pub proof fn lemma_output_row_agrees<M: Math<T>>(
        &self,
        x: Seq<T>,
        k1: Seq<T>,
        v1: Seq<T>,
        k2: Seq<T>,
        v2: Seq<T>,
        start: int,
        n: nat,
        cos: Seq<T>,
        sin: Seq<T>,
        pos: int,
    )
        requires
            self.wf(),
            0 <= start,
            x.len() == self.hidden_size,
            (start + n) * self.attention.spec_layout().kv_dim() <= k1.len(),
            (start + n) * self.attention.spec_layout().kv_dim() <= k2.len(),
            (start + n) * self.attention.spec_layout().kv_dim() <= v1.len(),
            (start + n) * self.attention.spec_layout().kv_dim() <= v2.len(),
            k1.take((start + n) * self.attention.spec_layout().kv_dim()) == k2.take(
                (start + n) * self.attention.spec_layout().kv_dim(),
            ),
            v1.take((start + n) * self.attention.spec_layout().kv_dim()) == v2.take(
                (start + n) * self.attention.spec_layout().kv_dim(),
            ),
        ensures
            self.output_row::<M>(x, k1, v1, start, n, cos, sin, pos) == self.output_row::<M>(
                x,
                k2,
                v2,
                start,
                n,
                cos,
                sin,
                pos,
            ),
    {
        self.lemma_row_lens::<M>(x, cos, sin, pos);
        attention::lemma_row_output_agrees::<T, M>(
            self.attention.spec_layout(),
            self.query_row::<M>(x, cos, sin, pos),
            k1,
            v1,
            k2,
            v2,
            start,
            n,
        );
    }

    /// The layer is causal: its output for the first rows does not change
    /// when rows are added behind them.
    pub proof fn lemma_causal<M: Math<T>>(
        &self,
        x: Seq<T>,
        rows: nat,
        longer: Seq<T>,
        more: nat,
        cos: Seq<T>,
        sin: Seq<T>,
    )
        requires
            self.wf(),
            rows <= more,
            x.len() == rows * self.hidden_size,
            longer.len() == more * self.hidden_size,
            rows * self.hidden_size <= more * self.hidden_size,
            longer.take((rows * self.hidden_size) as int) == x,
        ensures
            self.forward_of::<M>(longer, more, cos, sin).take((rows * self.hidden_size) as int)
                == self.forward_of::<M>(x, rows, cos, sin),
    {
        let h = self.hidden_size as int;
        let w = self.attention.spec_layout().kv_dim() as int;
        let k1 = self.key_rows::<M>(longer, more, cos, sin);
        let v1 = self.value_rows::<M>(longer, more);
        let k2 = self.key_rows::<M>(x, rows, cos, sin);
        let v2 = self.value_rows::<M>(x, rows);
        self.lemma_kv_lens::<M>(longer, more, cos, sin);
        self.lemma_kv_lens::<M>(x, rows, cos, sin);
        self.lemma_kv_prefix::<M>(x, rows, longer, more, cos, sin);
        let f = |t: int|
            self.output_row::<M>(
                ops::row(longer, t, h),
                self.key_rows::<M>(longer, more, cos, sin),
                self.value_rows::<M>(longer, more),
                0,
                (t + 1) as nat,
                cos,
                sin,
                t,
            );
        let g = |t: int|
            self.output_row::<M>(
                ops::row(x, t, h),
                self.key_rows::<M>(x, rows, cos, sin),
                self.value_rows::<M>(x, rows),
                0,
                (t + 1) as nat,
                cos,
                sin,
                t,
            );
        assert forall|t: int| 0 <= t < more implies #[trigger] f(t).len() == h by {
            ops::lemma_row_bounds(t, more as int, h);
        }
        assert forall|t: int| 0 <= t < rows implies #[trigger] f(t) == g(t) by {
            ops::lemma_row_bounds(t, rows as int, h);
            ops::lemma_row_bounds(t, rows as int, w);
            ops::lemma_row_bounds(t, more as int, w);
            assert(ops::row(longer, t, h) =~= ops::row(x, t, h));
            let e = (t + 1) * w;
            assert(k1.take(e) =~= k1.take(rows * w).take(e));
            assert(v1.take(e) =~= v1.take(rows * w).take(e));
            assert(k2.take(e) =~= k2.take(e));
            self.lemma_output_row_agrees::<M>(
                ops::row(x, t, h),
                k1,
                v1,
                k2,
                v2,
                0,
                (t + 1) as nat,
                cos,
                sin,
                t,
            );
        }
        ops::lemma_blocks_prefix(rows, more, f, h as nat);
        ops::lemma_blocks_same(rows, f, g);
    }

    /// Decoding one position with the cached keys and values of the positions
    /// before it gives the last row of the full forward pass, as long as the
    /// attention window holds all of them.
    pub proof fn lemma_decode_matches_forward<M: Math<T>>(
        &self,
        x: Seq<T>,
        rows: nat,
        cos: Seq<T>,
        sin: Seq<T>,
        keys: Seq<T>,
        values: Seq<T>,
    )
        requires
            self.wf(),
            rows > 0,
            x.len() == rows * self.hidden_size,
            (rows - 1) * self.hidden_size <= x.len(),
            attention::window_start(rows, self.attention.spec_window()) == 0,
            keys == self.key_rows::<M>(
                x.take((rows - 1) * self.hidden_size),
                (rows - 1) as nat,
                cos,
                sin,
            ) + self.key_row::<M>(
                ops::row(x, rows - 1, self.hidden_size as int),
                cos,
                sin,
                rows - 1,
            ),
            values == self.value_rows::<M>(
                x.take((rows - 1) * self.hidden_size),
                (rows - 1) as nat,
            ) + self.value_row::<M>(ops::row(x, rows - 1, self.hidden_size as int)),
        ensures
            keys == self.key_rows::<M>(x, rows, cos, sin),
            values == self.value_rows::<M>(x, rows),
            self.output_row::<M>(
                ops::row(x, rows - 1, self.hidden_size as int),
                keys,
                values,
                attention::window_start(rows, self.attention.spec_window()) as int,
                (rows - attention::window_start(rows, self.attention.spec_window())) as nat,
                cos,
                sin,
                rows - 1,
            ) == ops::row(
                self.forward_of::<M>(x, rows, cos, sin),
                rows - 1,
                self.hidden_size as int,
            ),
    {
        let h = self.hidden_size as int;
        let w = self.attention.spec_layout().kv_dim();
        let n = (rows - 1) as nat;
        let before = x.take(n * h);
        ops::lemma_row_bounds(n as int, rows as int, h);
        self.lemma_kv_prefix::<M>(before, n, x, rows, cos, sin);
        self.lemma_kv_lens::<M>(before, n, cos, sin);
        self.lemma_kv_lens::<M>(x, rows, cos, sin);
        let f = |t: int| self.key_row::<M>(ops::row(x, t, h), cos, sin, t);
        let g = |t: int| self.value_row::<M>(ops::row(x, t, h));
        let k = self.key_rows::<M>(x, rows, cos, sin);
        let v = self.value_rows::<M>(x, rows);
        assert(k == ops::blocks(n, f) + f(n as int));
        assert(v == ops::blocks(n, g) + g(n as int));
        ops::lemma_row_bounds(n as int, rows as int, w as int);
        self.lemma_row_lens::<M>(ops::row(x, n as int, h), cos, sin, n as int);
        assert(ops::blocks(n, f) =~= k.take((n * w) as int));
        assert(ops::blocks(n, g) =~= v.take((n * w) as int));
        assert(keys =~= k);
        assert(values =~= v);
        let o = |t: int|
            self.output_row::<M>(
                ops::row(x, t, h),
                self.key_rows::<M>(x, rows, cos, sin),
                self.value_rows::<M>(x, rows),
                0,
                (t + 1) as nat,
                cos,
                sin,
                t,
            );
        assert forall|t: int| 0 <= t < rows implies #[trigger] o(t).len() == h by {
            ops::lemma_row_bounds(t, rows as int, h);
        }
        ops::lemma_blocks_row(rows, o, h as nat, n as int);
    }
}

impl<T: Copy> DecoderLayer<T> {
    /// Every key that a layer lists names one of its weights, and splits back
    /// into the layer's index and that weight's field.
    pub proof fn lemma_keys_name_weights(&self, i: nat, j: int)
        requires
            i <= usize::MAX,
            0 <= j < self.structure().key_fields().len(),
        ensures
            self.structure().keys(i).len() == self.structure().key_fields().len(),
            text::split_indexed_key("layers["@, self.structure().keys(i)[j]) == Some(
                (i as usize, self.structure().key_fields()[j]),
            ),
            self.field(self.structure().key_fields()[j]) is Some,
    {
        text::lemma_indexed_key_roundtrip("layers["@, i, self.structure().key_fields()[j]);
    }
}

impl DecoderStructure {
    /// The elements of the tensors that the layer demands under these fields.
    pub open spec fn elements_of(self, fields: Seq<Seq<char>>) -> int
        decreases fields.len(),
    {
        if fields.len() == 0 {
            0
        } else {
            self.elements_of(fields.drop_last()) + match self.expected_shape(fields.last()) {
                Some(shape) => weights::volume(shape),
                None => 0,
            }
        }
    }

    proof fn lemma_elements_push(self, fields: Seq<Seq<char>>, field: Seq<char>)
        ensures
            self.elements_of(fields.push(field)) == self.elements_of(fields) + match self
                .expected_shape(field) {
                Some(shape) => weights::volume(shape),
                None => 0,
            },
    {
        assert(fields.push(field).drop_last() =~= fields);
    }

    /// The dimensions that the layer demands of each of its weights.
    pub proof fn lemma_shapes(self)
        ensures
            self.expected_shape("attn_norm.weight"@) == Some(seq![self.hidden_size]),
            self.expected_shape("ffn_norm.weight"@) == Some(seq![self.hidden_size]),
            self.expected_shape("attention.w_q"@) == Some(
                seq![self.layout().q_dim() as usize, self.hidden_size],
            ),
            self.expected_shape("attention.w_k"@) == Some(
                seq![self.layout().kv_dim() as usize, self.hidden_size],
            ),
            self.expected_shape("attention.w_v"@) == Some(
                seq![self.layout().kv_dim() as usize, self.hidden_size],
            ),
            self.expected_shape("attention.w_o"@) == Some(
                seq![self.hidden_size, self.layout().q_dim() as usize],
            ),
            self.expected_shape("attention.q_norm"@) == Some(seq![self.layout().head_dim]),
            self.expected_shape("attention.k_norm"@) == Some(seq![self.layout().head_dim]),
            self.expected_shape("attention.q_bias"@) == Some(
                seq![self.layout().q_dim() as usize],
            ),
            self.expected_shape("attention.k_bias"@) == Some(
                seq![self.layout().kv_dim() as usize],
            ),
            self.expected_shape("attention.v_bias"@) == Some(
                seq![self.layout().kv_dim() as usize],
            ),
            self.expected_shape("ffn.w_gate"@) == Some(
                seq![self.ffn.spec_intermediate_size(), self.hidden_size],
            ),
            self.expected_shape("ffn.w_up"@) == Some(
                seq![self.ffn.spec_intermediate_size(), self.hidden_size],
            ),
            self.expected_shape("ffn.w_down"@) == Some(
                seq![self.hidden_size, self.ffn.spec_intermediate_size()],
            ),
    {
        reveal_strlit("attn_norm.weight");
        reveal_strlit("ffn_norm.weight");
        reveal_strlit("attention.w_q");
        reveal_strlit("attention.w_k");
        reveal_strlit("attention.w_v");
        reveal_strlit("attention.w_o");
        reveal_strlit("attention.q_norm");
        reveal_strlit("attention.k_norm");
        reveal_strlit("attention.q_bias");
        reveal_strlit("attention.k_bias");
        reveal_strlit("attention.v_bias");
        reveal_strlit("ffn.w_gate");
        reveal_strlit("ffn.w_up");
        reveal_strlit("ffn.w_down");
        assert("attention.w_q"@[12] == 'q');
        assert("attention.w_k"@[12] == 'k');
        assert("attention.w_v"@[12] == 'v');
        assert("attention.w_o"@[12] == 'o');
        assert("attn_norm.weight"@[3] == 'n');
        assert("attention.q_norm"@[3] == 'e' && "attention.q_norm"@[10] == 'q' && "attention.q_norm"@[12] == 'n');
        assert("attention.k_norm"@[3] == 'e' && "attention.k_norm"@[10] == 'k' && "attention.k_norm"@[12] == 'n');
        assert("attention.q_bias"@[3] == 'e' && "attention.q_bias"@[10] == 'q' && "attention.q_bias"@[12] == 'b');
        assert("attention.k_bias"@[3] == 'e' && "attention.k_bias"@[10] == 'k' && "attention.k_bias"@[12] == 'b');
        assert("attention.v_bias"@[3] == 'e' && "attention.v_bias"@[10] == 'v' && "attention.v_bias"@[12] == 'b');
        assert("ffn.w_up"@.len() == 8 && "ffn_norm.weight"@.len() == 15);
        assert("ffn.w_gate"@[6] == 'g');
        assert("ffn.w_down"@[6] == 'd');
    }

    /// The parameters of a layer are the elements of the tensors that it has
    /// keys for, in the dimensions that it demands.
    pub proof fn lemma_param_total(self)
        requires
            self.fits(),
        ensures
            self.param_total() == self.elements_of(self.key_fields()),
    {
        let h = self.hidden_size;
        let q = self.layout().q_dim() as usize;
        let kv = self.layout().kv_dim() as usize;
        let inter = self.ffn.spec_intermediate_size();
        weights::lemma_volumes(h, q);
        weights::lemma_volumes(q, h);
        weights::lemma_volumes(kv, h);
        weights::lemma_volumes(inter, h);
        weights::lemma_volumes(h, inter);
        weights::lemma_volumes(self.layout().head_dim, h);
        self.lemma_shapes();
        let none = Seq::<Seq<char>>::empty();
        let s1 = none.push("attn_norm.weight"@);
        let s2 = s1.push("attention.w_q"@);
        let s3 = s2.push("attention.w_k"@);
        let s4 = s3.push("attention.w_v"@);
        let s5 = s4.push("attention.w_o"@);
        self.lemma_elements_push(none, "attn_norm.weight"@);
        self.lemma_elements_push(s1, "attention.w_q"@);
        self.lemma_elements_push(s2, "attention.w_k"@);
        self.lemma_elements_push(s3, "attention.w_v"@);
        self.lemma_elements_push(s4, "attention.w_o"@);
        let s6 = s5.push("attention.q_norm"@).push("attention.k_norm"@);
        self.lemma_elements_push(s5, "attention.q_norm"@);
        self.lemma_elements_push(s5.push("attention.q_norm"@), "attention.k_norm"@);
        let s7 = if self.has_head_norms {
            s6
        } else {
            s5
        };
        let s8 = s7.push("ffn_norm.weight"@);
        self.lemma_elements_push(s7, "ffn_norm.weight"@);
        self.lemma_elements_push(s8, "ffn.w_gate"@);
        let s9 = if self.ffn.gated() {
            s8.push("ffn.w_gate"@)
        } else {
            s8
        };
        let s10 = s9.push("ffn.w_up"@);
        self.lemma_elements_push(s9, "ffn.w_up"@);
        self.lemma_elements_push(s10, "ffn.w_down"@);
        assert(self.key_fields() =~= s10.push("ffn.w_down"@));
        let (hi, i) = (h as int, inter as int);
        assert(hi * i == i * hi) by (nonlinear_arith);
        assert(2 * i * hi == i * hi + i * hi) by (nonlinear_arith);
        assert(3 * i * hi == i * hi + i * hi + i * hi) by (nonlinear_arith);
    }
}

impl<T: Copy> DecoderLayer<T> {
    /// The weight under each field name.
    pub proof fn lemma_fields(&self)
        ensures
            self.field("attn_norm.weight"@) == Some(self.attn_norm_weight@),
            self.field("attention.w_q"@) == Some(self.w_q@),
            self.field("attention.w_k"@) == Some(self.w_k@),
            self.field("attention.w_v"@) == Some(self.w_v@),
            self.field("attention.w_o"@) == Some(self.w_o@),
            self.field("attention.q_norm"@) == Some(self.q_norm_weight@),
            self.field("attention.k_norm"@) == Some(self.k_norm_weight@),
            self.field("attention.q_bias"@) == Some(self.q_bias@),
            self.field("attention.k_bias"@) == Some(self.k_bias@),
            self.field("attention.v_bias"@) == Some(self.v_bias@),
            self.field("ffn_norm.weight"@) == Some(self.ffn_norm_weight@),
            self.field("ffn.w_gate"@) == Some(self.ffn_gate@),
            self.field("ffn.w_up"@) == Some(self.ffn_up@),
            self.field("ffn.w_down"@) == Some(self.ffn_down@),
    {
        reveal_strlit("attn_norm.weight");
        reveal_strlit("attention.w_q");
        reveal_strlit("attention.w_k");
        reveal_strlit("attention.w_v");
        reveal_strlit("attention.w_o");
        reveal_strlit("attention.q_norm");
        reveal_strlit("attention.k_norm");
        reveal_strlit("attention.q_bias");
        reveal_strlit("attention.k_bias");
        reveal_strlit("attention.v_bias");
        reveal_strlit("ffn_norm.weight");
        reveal_strlit("ffn.w_gate");
        reveal_strlit("ffn.w_up");
        reveal_strlit("ffn.w_down");
        assert("attention.w_q"@[12] == 'q');
        assert("attention.w_k"@[12] == 'k');
        assert("attention.w_v"@[12] == 'v');
        assert("attention.w_o"@[12] == 'o');
        assert("attn_norm.weight"@[3] == 'n');
        assert("attention.q_norm"@[3] == 'e' && "attention.q_norm"@[10] == 'q' && "attention.q_norm"@[12] == 'n');
        assert("attention.k_norm"@[3] == 'e' && "attention.k_norm"@[10] == 'k' && "attention.k_norm"@[12] == 'n');
        assert("attention.q_bias"@[3] == 'e' && "attention.q_bias"@[10] == 'q' && "attention.q_bias"@[12] == 'b');
        assert("attention.k_bias"@[3] == 'e' && "attention.k_bias"@[10] == 'k' && "attention.k_bias"@[12] == 'b');
        assert("attention.v_bias"@[3] == 'e' && "attention.v_bias"@[10] == 'v' && "attention.v_bias"@[12] == 'b');
        assert("ffn.w_up"@.len() == 8 && "ffn_norm.weight"@.len() == 15);
        assert("ffn.w_gate"@[6] == 'g');
        assert("ffn.w_down"@[6] == 'd');
    }

    /// The fields that have a weight are those that have dimensions.
    pub proof fn lemma_known_fields(&self, name: Seq<char>)
        ensures
            self.field(name) is Some <==> self.structure().expected_shape(name) is Some,
    {
    }

    /// The weight of a field has as many elements as its dimensions say.
    pub open spec fn sized(&self, name: Seq<char>) -> bool {
        match (self.field(name), self.structure().expected_shape(name)) {
            (Some(w), Some(shape)) => w.len() == weights::volume(shape),
            _ => false,
        }
    }

    /// The weight of a field is not loaded, or has as many elements as its
    /// dimensions say.
    pub open spec fn optionally_sized(&self, name: Seq<char>) -> bool {
        self.field(name) == Some(Seq::<T>::empty()) || self.sized(name)
    }
}

impl<T: Scalar> DecoderLayer<T> {
    /// A layer is ready when every weight that it has a key for is loaded, and
    /// the others are loaded or left out.
    pub proof fn lemma_sized_is_ready(&self)
        requires
            self.attention.spec_layout().wf(),
            forall|j: int|
                0 <= j < self.structure().key_fields().len() ==> self.sized(
                    #[trigger] self.structure().key_fields()[j],
                ),
            forall|name: Seq<char>|
                (#[trigger] self.field(name)) is Some ==> self.optionally_sized(name),
        ensures
            self.wf(),
    {
        let s = self.structure();
        let keys = s.key_fields();
        self.lemma_fields();
        s.lemma_shapes();
        let h = s.hidden_size;
        let q = s.layout().q_dim() as usize;
        let kv = s.layout().kv_dim() as usize;
        let inter = s.ffn.spec_intermediate_size();
        weights::lemma_volumes(h, q);
        weights::lemma_volumes(q, h);
        weights::lemma_volumes(kv, h);
        weights::lemma_volumes(inter, h);
        weights::lemma_volumes(h, inter);
        weights::lemma_volumes(s.layout().head_dim, h);
        let n = keys.len();
        assert(keys[0] == "attn_norm.weight"@);
        assert(keys[1] == "attention.w_q"@);
        assert(keys[2] == "attention.w_k"@);
        assert(keys[3] == "attention.w_v"@);
        assert(keys[4] == "attention.w_o"@);
        assert(keys[n - 1] == "ffn.w_down"@);
        assert(keys[n - 2] == "ffn.w_up"@);
        if s.ffn.gated() {
            assert(keys[n - 3] == "ffn.w_gate"@);
            assert(keys[n - 4] == "ffn_norm.weight"@);
        } else {
            assert(keys[n - 3] == "ffn_norm.weight"@);
        }
        assert(self.optionally_sized("attention.q_norm"@));
        assert(self.optionally_sized("attention.k_norm"@));
        assert(self.optionally_sized("attention.q_bias"@));
        assert(self.optionally_sized("attention.k_bias"@));
        assert(self.optionally_sized("attention.v_bias"@));
    }
}

} // verus!
