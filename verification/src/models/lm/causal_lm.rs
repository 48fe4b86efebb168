//! A causal language model: embedding → N × decoder layer → norm → lm_head.

use vstd::prelude::*;

use crate::buffer;
use crate::buffer::{copy_slice, extend, filled, AlignedBuffer, RawTensor};
use crate::config::{ModelConfig, NormConfig};
use crate::kv_cache::{KVCache, KVCacheLayer};
use crate::models::lm::decoder_layer::{DecoderLayer, DecoderStructure};
use crate::norm;
use crate::norm::normalize_row;
use crate::ops;
use crate::ops::{linear_vec, row_slice, scale_vec};
use crate::scalar;
use crate::scalar::{Math, Scalar};
use crate::text;
use crate::text::{parse_indexed_key, str_eq};
use crate::weights;
use crate::weights::{
    format_mismatch, load_mapped, push_sources_beyond, same_dims, KeyMapping, LoadResult, Refusal, Slot, TensorMap,
    WeightError, WeightTarget,
};

verus! {

/// Output from a forward pass.
pub struct ModelOutput<T> {
    /// Flat logits: `[seq_len * vocab_size]`.
    pub logits: Vec<T>,
    /// Logical shape `[batch, seq_len, vocab_size]`.
    pub shape: [usize; 3],
}

/// A causal language model: embedding → N × DecoderLayer → norm → lm_head.
pub struct CausalLM<T> {
    pub config: ModelConfig,
    pub layers: Vec<DecoderLayer<T>>,
    pub final_norm: NormConfig,
    // ── Weights ──────────────────────────────────────────────────────
    pub embed_tokens: AlignedBuffer<T>,
    pub final_norm_weight: AlignedBuffer<T>,
    /// `None` when `tie_word_embeddings` is true (reuses `embed_tokens`).
    pub lm_head_weight: Option<AlignedBuffer<T>>,
    // ── RoPE precomputed tables (shared across all layers) ───────────
    /// Cosine table: `[max_position_embeddings, head_dim / 2]`.
    pub rope_cos: Vec<T>,
    /// Sine table: `[max_position_embeddings, head_dim / 2]`.
    pub rope_sin: Vec<T>,
}

/// What a model is, apart from its weights.
pub struct CausalStructure<T> {
    pub config: ModelConfig,
    /// The output projection of a model that uses its token embedding instead.
    pub tied_head: Option<AlignedBuffer<T>>,
    pub final_norm: NormConfig,
    pub layers: Seq<DecoderStructure>,
    pub rope_cos: Seq<T>,
    pub rope_sin: Seq<T>,
}

impl<T> CausalStructure<T> {
    /// The dimensions demanded of a tensor of the model itself.
    pub open spec fn expected_shape(self, key: Seq<char>) -> Option<Seq<usize>> {
        let h = self.config.architecture.hidden_size;
        let vocab = self.config.architecture.vocab_size;
        if key == "embed_tokens.weight"@ || key == "lm_head.weight"@ {
            Some(seq![vocab, h])
        } else if key == "norm.weight"@ {
            Some(seq![h])
        } else {
            None
        }
    }
}

impl<T: Copy> WeightTarget<T> for CausalLM<T> {
    type Structure = CausalStructure<T>;

    open spec fn structure(&self) -> CausalStructure<T> {
        CausalStructure {
            config: self.config,
            tied_head: if self.config.architecture.tie_word_embeddings {
                self.lm_head_weight
            } else {
                None
            },
            final_norm: self.final_norm,
            layers: self.layers@.map_values(|l: DecoderLayer<T>| l.structure()),
            rope_cos: self.rope_cos@,
            rope_sin: self.rope_sin@,
        }
    }

    open spec fn slot(key: Seq<char>) -> Option<Slot> {
        if key == "embed_tokens.weight"@ || key == "norm.weight"@ || key == "lm_head.weight"@ {
            Some(Slot::Top(key))
        } else {
            match text::split_indexed_key("layers["@, key) {
                Some((i, field)) => Some(Slot::Layer("layers"@, i as int, field)),
                None => None,
            }
        }
    }

    open spec fn weight(&self, slot: Slot) -> Option<Seq<T>> {
        match slot {
            Slot::Top(name) => if name == "embed_tokens.weight"@ {
                Some(self.embed_tokens@)
            } else if name == "norm.weight"@ {
                Some(self.final_norm_weight@)
            } else if name == "lm_head.weight"@ && !self.config.architecture.tie_word_embeddings {
                match self.lm_head_weight {
                    Some(w) => Some(w@),
                    None => Some(Seq::empty()),
                }
            } else {
                None
            },
            Slot::Layer(stack, i, field) => if stack == "layers"@ && 0 <= i < self.layers@.len() {
                self.layers@[i].field(field)
            } else {
                None
            },
        }
    }

    /// A model that is not tied can stand without an output projection.
    open spec fn vacant(&self, slot: Slot) -> bool {
        &&& slot == Slot::Top("lm_head.weight"@)
        &&& !self.config.architecture.tie_word_embeddings
        &&& self.lm_head_weight is None
    }

    open spec fn refusal(
        structure: CausalStructure<T>,
        key: Seq<char>,
        shape: Seq<usize>,
    ) -> Option<Refusal> {
        match structure.expected_shape(key) {
            Some(expected) => if shape != expected {
                Some(Refusal::ShapeMismatch(weights::mismatch_text(key, expected, shape)))
            } else {
                None
            },
            None => match text::split_indexed_key("layers["@, key) {
                Some((i, field)) => if i < structure.layers.len() {
                    structure.layers[i as int].refusal(field, shape)
                } else {
                    None
                },
                None => None,
            },
        }
    }

    open spec fn loadable(structure: CausalStructure<T>) -> bool {
        forall|i: int| 0 <= i < structure.layers.len() ==> (#[trigger] structure.layers[i]).fits()
    }

    /// Tensors of any length are taken.
    open spec fn fits(structure: CausalStructure<T>, key: Seq<char>, len: nat) -> bool {
        true
    }

    open spec fn expected(&self) -> Seq<Seq<char>> {
        seq!["embed_tokens.weight"@] + ops::blocks(
            self.layers@.len(),
            |i: int| self.layers@[i].structure().keys(i as nat),
        ) + (if self.config.architecture.tie_word_embeddings {
            seq!["norm.weight"@]
        } else {
            seq!["norm.weight"@, "lm_head.weight"@]
        })
    }

    fn put(&mut self, key: &str, tensor: &RawTensor<T>) -> (r: Result<(), WeightError>) {
        self.set_weight(key, tensor)
    }

    fn expected_keys(&self) -> (r: Vec<String>) {
        self.expected_weight_keys()
    }
}

/// The model's own keys differ.
proof fn lemma_own_keys_differ()
    ensures
        "lm_head.weight"@ != "norm.weight"@,
        "lm_head.weight"@ != "embed_tokens.weight"@,
        "norm.weight"@ != "embed_tokens.weight"@,
{
    reveal_strlit("embed_tokens.weight");
    reveal_strlit("norm.weight");
    reveal_strlit("lm_head.weight");
    assert("lm_head.weight"@[0] == 'l');
    assert("embed_tokens.weight"@[0] == 'e');
    assert("norm.weight"@[0] == 'n');
}

/// A layer key is none of the model's own keys.
proof fn lemma_layer_key_is_no_top_key(i: nat, field: Seq<char>)
    ensures
        ({
            let key = text::indexed_key("layers["@, i, field);
            &&& key != "embed_tokens.weight"@
            &&& key != "norm.weight"@
            &&& key != "lm_head.weight"@
        }),
{
    reveal_strlit("layers[");
    reveal_strlit("embed_tokens.weight");
    reveal_strlit("norm.weight");
    reveal_strlit("lm_head.weight");
    let key = text::indexed_key("layers["@, i, field);
    assert(key[0] == 'l' && key[1] == 'a');
    assert("embed_tokens.weight"@[0] == 'e');
    assert("norm.weight"@[0] == 'n');
    assert("lm_head.weight"@[1] == 'm');
}

impl<T: Copy> CausalLM<T> {
    /// Every expected key leads to a weight that the model has.
    pub proof fn lemma_expected_keys_lead(&self)
        ensures
            weights::all_lead::<T, Self>(*self, self.expected()),
    {
        let n = self.layers@.len();
        assert(self.layers.len() == n);
        let f = |i: int| self.layers@[i].structure().keys(i as nat);
        assert forall|i: int| 0 <= i < n implies weights::all_lead::<T, Self>(
            *self,
            #[trigger] f(i),
        ) by {
            let fields = self.layers@[i].structure().key_fields();
            assert forall|j: int| 0 <= j < f(i).len() implies weights::leads_to_weight::<T, Self>(
                *self,
                #[trigger] f(i)[j],
            ) by {
                self.layers@[i].lemma_keys_name_weights(i as nat, j);
                lemma_layer_key_is_no_top_key(i as nat, fields[j]);
                assert(f(i)[j] == text::indexed_key("layers["@, i as nat, fields[j]));
            }
        }
        weights::lemma_blocks_lead::<T, Self>(*self, n, f);
        let first = seq!["embed_tokens.weight"@];
        let last = if self.config.architecture.tie_word_embeddings {
            seq!["norm.weight"@]
        } else {
            seq!["norm.weight"@, "lm_head.weight"@]
        };
        lemma_own_keys_differ();
        weights::lemma_lists_lead::<T, Self>(*self, first, ops::blocks(n, f));
        weights::lemma_lists_lead::<T, Self>(*self, first + ops::blocks(n, f), last);
    }
}

impl<T: Copy> CausalLM<T> {
    /// All target weight keys this model expects (Synapse naming).
    pub fn expected_weight_keys(&self) -> (r: Vec<String>)
        ensures
            weights::texts(r@) == self.expected(),
    {
        let mut keys: Vec<String> = Vec::new();
        keys.push("embed_tokens.weight".to_owned());
        let ghost f = |i: int| self.layers@[i].structure().keys(i as nat);
        assert(weights::texts(keys@) =~= seq!["embed_tokens.weight"@] + ops::blocks(0, f));
        for i in 0..self.layers.len()
            invariant
                f == (|i: int| self.layers@[i].structure().keys(i as nat)),
                weights::texts(keys@) == seq!["embed_tokens.weight"@] + ops::blocks(i as nat, f),
        {
            let ghost before = keys@;
            let mut more = self.layers[i].weight_keys(i);
            let ghost added = more@;
            keys.append(&mut more);
            assert(weights::texts(keys@) =~= weights::texts(before) + weights::texts(added));
            assert(weights::texts(keys@) =~= seq!["embed_tokens.weight"@] + ops::blocks(
                (i + 1) as nat,
                f,
            ));
        }
        keys.push("norm.weight".to_owned());
        if !self.config.architecture.tie_word_embeddings {
            keys.push("lm_head.weight".to_owned());
        }
        assert(weights::texts(keys@) =~= self.expected());
        keys
    }

    fn validate_weight_shape(&self, key: &str, actual: &[usize]) -> (r: Result<(), WeightError>)
        ensures
            match r {
                Ok(()) => match self.structure().expected_shape(key@) {
                    Some(expected) => actual@ == expected,
                    None => true,
                },
                Err(e) => match self.structure().expected_shape(key@) {
                    Some(expected) => actual@ != expected && e@ == Refusal::ShapeMismatch(
                        weights::mismatch_text(key@, expected, actual@),
                    ),
                    None => false,
                },
            },
    {
        let h = self.config.architecture.hidden_size;
        let vocab = self.config.architecture.vocab_size;
        let mut expected: Vec<usize> = Vec::new();
        if str_eq(key, "embed_tokens.weight") || str_eq(key, "lm_head.weight") {
            expected.push(vocab);
            expected.push(h);
        } else if str_eq(key, "norm.weight") {
            expected.push(h);
        } else {
            return Ok(());
        }
        assert(self.structure().expected_shape(key@).unwrap() =~= expected@);
        if same_dims(actual, expected.as_slice()) {
            Ok(())
        } else {
            Err(WeightError::ShapeMismatch(format_mismatch(key, expected.as_slice(), actual)))
        }
    }

    /// Assigns a weight by its key. A tied model accepts `lm_head.weight` and
    /// goes on using the token embedding.
    pub fn set_weight(&mut self, key: &str, tensor: &RawTensor<T>) -> (r: Result<(), WeightError>)
        requires
            Self::loadable(old(self).structure()),
        ensures
            final(self).structure() == old(self).structure(),
            final(self).config == old(self).config,
            old(self).config.architecture.tie_word_embeddings ==> final(self).lm_head_weight == old(
                self,
            ).lm_head_weight,
            match r {
                Ok(()) => {
                    &&& Self::refusal(old(self).structure(), key@, tensor.shape@) is None
                    &&& forall|s: Slot| #[trigger]
                        final(self).weight(s) == weights::write(
                            old(self).weight(s),
                            Self::slot(key@) == Some(s),
                            tensor.data@,
                        )
                    &&& forall|s: Slot| #[trigger]
                        final(self).vacant(s) == (old(self).vacant(s) && Self::slot(key@) != Some(
                            s,
                        ))
                },
                Err(e) => {
                    &&& Self::refusal(old(self).structure(), key@, tensor.shape@) == Some(e@)
                    &&& forall|s: Slot| #[trigger] final(self).weight(s) == old(self).weight(s)
                    &&& forall|s: Slot| #[trigger] final(self).vacant(s) == old(self).vacant(s)
                },
            },
    {
        let ghost start = *self;
        proof {
            lemma_own_keys_differ();
        }
        match self.validate_weight_shape(key, tensor.shape.as_slice()) {
            Ok(()) => {},
            Err(e) => return Err(e),
        }
        if str_eq(key, "embed_tokens.weight") {
            self.embed_tokens = tensor.data.duplicate();
        } else if str_eq(key, "norm.weight") {
            self.final_norm_weight = tensor.data.duplicate();
        } else if str_eq(key, "lm_head.weight") {
            if !self.config.architecture.tie_word_embeddings {
                self.lm_head_weight = Some(tensor.data.duplicate());
            }
        } else {
            match parse_indexed_key("layers[", key) {
                Some((idx, field)) => {
                    if idx < self.layers.len() {
                        assert(start.structure().layers[idx as int].fits());
                        let set = self.layers[idx].set_weight(field, tensor);
                        assert(self.structure().layers =~= start.structure().layers);
                        match set {
                            Ok(()) => {},
                            Err(e) => {
                                assert(self.layers@ =~= start.layers@);
                                return Err(e);
                            },
                        }
                    }
                },
                None => {},
            }
        }
        Ok(())
    }

    /// Load weights from source tensors whose keys are renamed by `mapping`.
    ///
    /// Returns missing (expected but not provided) and unexpected (provided but
    /// not expected) keys. Both should be empty for a correct checkpoint.
    pub fn load_weights(&mut self, weights: &TensorMap<T>, mapping: KeyMapping) -> (r: Result<
        LoadResult,
        WeightError,
    >)
        requires
            weights.wf(),
            Self::loadable(old(self).structure()),
        ensures
            final(self).structure() == old(self).structure(),
            final(self).config == old(self).config,
            old(self).config.architecture.tie_word_embeddings ==> final(self).lm_head_weight == old(
                self,
            ).lm_head_weight,
            weights::tensors_loaded(*old(self), *final(self), *weights, mapping.mapping@, r),
            match r {
                Ok(result) => weights::texts(result.unexpected@) == weights::texts(
                    mapping.unmapped@,
                ) + weights::sources_beyond(*weights, mapping.mapping@, old(self).expected()),
                Err(_) => true,
            },
    {
        let expected = self.expected_weight_keys();
        let mut unexpected: Vec<String> = Vec::new();
        push_sources_beyond(&mut unexpected, weights, &mapping.mapping, &expected);
        let ghost beyond = weights::texts(unexpected@);
        assert(beyond =~= weights::sources_beyond(
            *weights,
            mapping.mapping@,
            old(self).expected(),
        ));
        let ghost start = self.structure();
        match load_mapped(self, weights, mapping) {
            Ok(result) => {
                assert(self.structure().config == start.config);
                let mut all = result.unexpected;
                let ghost unmapped = all@;
                let ghost more = unexpected@;
                all.append(&mut unexpected);
                assert(weights::texts(all@) =~= weights::texts(unmapped) + weights::texts(more));
                Ok(LoadResult { missing: result.missing, unexpected: all })
            },
            Err(e) => Err(e),
        }
    }
}


// ── Size ─────────────────────────────────────────────────────────────

/// The parameters of the first `n` layers.
pub open spec fn layer_params(layers: Seq<DecoderStructure>, n: nat) -> int
    decreases n,
{
    if n == 0 {
        0
    } else {
        layer_params(layers, (n - 1) as nat) + layers[n - 1].param_total()
    }
}

proof fn lemma_param_total_nonneg(s: DecoderStructure)
    ensures
        s.param_total() >= 0,
{
    let h = s.hidden_size as int;
    let q = s.layout().q_dim() as int;
    let k = s.layout().kv_dim() as int;
    let i = s.ffn.spec_intermediate_size() as int;
    assert(q * h >= 0 && k * h >= 0 && h * q >= 0 && 3 * i * h >= 0 && 2 * i * h >= 0)
        by (nonlinear_arith)
        requires
            h >= 0,
            q >= 0,
            k >= 0,
            i >= 0,
    ;
}

proof fn lemma_layer_params_grow(layers: Seq<DecoderStructure>, m: nat, n: nat)
    requires
        m <= n <= layers.len(),
    ensures
        0 <= layer_params(layers, m) <= layer_params(layers, n),
    decreases n,
{
    if n > 0 {
        lemma_param_total_nonneg(layers[n - 1]);
        if m < n {
            lemma_layer_params_grow(layers, m, (n - 1) as nat);
        } else {
            lemma_layer_params_grow(layers, (m - 1) as nat, (n - 1) as nat);
        }
    }
}

impl<T: Copy> CausalLM<T> {
    /// The number of unique trainable parameters.
    pub open spec fn param_total(&self) -> int {
        let arch = self.config.architecture;
        let embed = arch.vocab_size * arch.hidden_size;
        embed + layer_params(self.structure().layers, self.layers@.len()) + arch.hidden_size + (
        if arch.tie_word_embeddings {
            0
        } else {
            embed
        })
    }

    /// Total number of unique trainable parameters.
    pub fn param_count(&self) -> (r: usize)
        requires
            self.param_total() <= usize::MAX,
            forall|i: int|
                0 <= i < self.layers@.len() ==> {
                    let s = (#[trigger] self.layers@[i]).structure();
                    &&& s.fits()
                    &&& 3 * s.ffn.spec_intermediate_size() <= usize::MAX
                    &&& 2 * s.layout().head_dim <= usize::MAX
                },
        ensures
            r == self.param_total(),
    {
        let h = self.config.architecture.hidden_size;
        let vocab = self.config.architecture.vocab_size;
        let n = self.layers.len();
        let ghost shapes = self.structure().layers;
        proof {
            lemma_layer_params_grow(shapes, 0, n as nat);
            assert(vocab * h >= 0) by (nonlinear_arith)
                requires
                    vocab >= 0,
                    h >= 0,
            ;
        }
        let embed = vocab * h;
        let mut layers: usize = 0;
        for i in 0..n
            invariant
                n == self.layers@.len(),
                shapes == self.structure().layers,
                layers == layer_params(shapes, i as nat),
                layer_params(shapes, n as nat) <= usize::MAX,
                forall|i: int|
                    0 <= i < self.layers@.len() ==> {
                        let s = (#[trigger] self.layers@[i]).structure();
                        &&& s.fits()
                        &&& 3 * s.ffn.spec_intermediate_size() <= usize::MAX
                        &&& 2 * s.layout().head_dim <= usize::MAX
                    },
        {
            proof {
                lemma_layer_params_grow(shapes, i as nat, n as nat);
                lemma_layer_params_grow(shapes, (i + 1) as nat, n as nat);
                assert(shapes[i as int] == self.layers@[i as int].structure());
            }
            layers = layers + self.layers[i].param_count();
        }
        let lm_head = if self.config.architecture.tie_word_embeddings {
            0
        } else {
            embed
        };
        embed + layers + h + lm_head
    }
}

// ── Forward passes ───────────────────────────────────────────────────

impl<T: Scalar> CausalLM<T> {
    /// Every weight has its size, and all layers work on the same rows.
    pub open spec fn wf(&self) -> bool {
        let h = self.config.architecture.hidden_size as nat;
        let vocab = self.config.architecture.vocab_size as nat;
        &&& self.embed_tokens@.len() == vocab * h
        &&& self.final_norm_weight@.len() == h
        &&& self.lm_head_weight is Some ==> self.lm_head_weight->0@.len() == vocab * h
        &&& self.config.attention.spec_layout().wf()
        &&& forall|i: int|
            0 <= i < self.layers@.len() ==> {
                &&& (#[trigger] self.layers@[i]).wf()
                &&& self.layers@[i].hidden_size == h
                &&& self.layers@[i].attention.spec_layout() == self.config.attention.spec_layout()
            }
    }

    /// The tables of angles reach up to position `end`.
    pub open spec fn positions_reach(&self, end: int) -> bool {
        let half = self.config.attention.spec_layout().head_dim as int / 2;
        end * half <= self.rope_cos@.len() && end * half <= self.rope_sin@.len()
    }

    /// The elements of one cached row.
    pub open spec fn kv_width(&self) -> nat {
        self.config.attention.spec_layout().kv_dim()
    }

    /// The embedding of a token; zeros for an id outside the vocabulary.
    pub open spec fn token_row(&self, id: u32) -> Seq<T> {
        let h = self.config.architecture.hidden_size;
        if id < self.config.architecture.vocab_size {
            ops::row(self.embed_tokens@, id as int, h as int)
        } else {
            buffer::repeated(scalar::zero(), h as nat)
        }
    }

    /// The embedding of a token, scaled where the configuration says so.
    pub open spec fn embed_row<M: Math<T>>(&self, id: u32) -> Seq<T> {
        match self.config.architecture.embed_scale {
            Some(scale) => ops::scaled(
                self.token_row(id),
                scalar::binary64_of::<T, M>(scale.bits),
            ),
            None => self.token_row(id),
        }
    }

    /// The embeddings of a sequence of tokens.
    pub open spec fn embeddings<M: Math<T>>(&self, ids: Seq<u32>) -> Seq<T> {
        ops::blocks(ids.len(), |t: int| self.embed_row::<M>(ids[t]))
    }

    /// The hidden rows after the first `n` layers.
    pub open spec fn hidden_after<M: Math<T>>(&self, x: Seq<T>, rows: nat, n: nat) -> Seq<T>
        decreases n,
    {
        if n == 0 {
            x
        } else {
            self.layers@[n - 1].forward_of::<M>(
                self.hidden_after::<M>(x, rows, (n - 1) as nat),
                rows,
                self.rope_cos@,
                self.rope_sin@,
            )
        }
    }

    /// The output projection.
    pub open spec fn head_weight(&self) -> Seq<T> {
        match self.lm_head_weight {
            Some(w) => w@,
            None => self.embed_tokens@,
        }
    }

    /// The logits of one hidden row.
    pub open spec fn logits_row<M: Math<T>>(&self, x: Seq<T>) -> Seq<T> {
        ops::linear_row(
            norm::normed_row::<T, M>(self.final_norm, x, self.final_norm_weight@),
            self.head_weight(),
            Seq::empty(),
            self.config.architecture.hidden_size as nat,
            self.config.architecture.vocab_size as nat,
        )
    }

    /// The hidden rows of a sequence of tokens after all layers.
    pub open spec fn final_hidden<M: Math<T>>(&self, ids: Seq<u32>) -> Seq<T> {
        self.hidden_after::<M>(self.embeddings::<M>(ids), ids.len(), self.layers@.len())
    }

    /// The logits of a sequence of tokens, a row for each position.
    pub open spec fn logits_of<M: Math<T>>(&self, ids: Seq<u32>) -> Seq<T> {
        ops::blocks(
            ids.len(),
            |t: int|
                self.logits_row::<M>(
                    ops::row(
                        self.final_hidden::<M>(ids),
                        t,
                        self.config.architecture.hidden_size as int,
                    ),
                ),
        )
    }

    proof fn lemma_embed_len<M: Math<T>>(&self, id: u32)
        requires
            self.wf(),
        ensures
            self.embed_row::<M>(id).len() == self.config.architecture.hidden_size,
    {
        if id < self.config.architecture.vocab_size {
            ops::lemma_row_bounds(
                id as int,
                self.config.architecture.vocab_size as int,
                self.config.architecture.hidden_size as int,
            );
        }
    }

    pub proof fn lemma_embeddings_len<M: Math<T>>(&self, ids: Seq<u32>)
        requires
            self.wf(),
        ensures
            self.embeddings::<M>(ids).len() == ids.len() * self.config.architecture.hidden_size,
    {
        let f = |t: int| self.embed_row::<M>(ids[t]);
        let h = self.config.architecture.hidden_size as nat;
        assert forall|t: int| 0 <= t < ids.len() implies #[trigger] f(t).len() == h by {
            self.lemma_embed_len::<M>(ids[t]);
        }
        ops::lemma_blocks_len(ids.len(), f, h);
    }

    pub proof fn lemma_hidden_len<M: Math<T>>(&self, x: Seq<T>, rows: nat, n: nat)
        requires
            self.wf(),
            n <= self.layers@.len(),
            x.len() == rows * self.config.architecture.hidden_size,
        ensures
            self.hidden_after::<M>(x, rows, n).len() == rows
                * self.config.architecture.hidden_size,
        decreases n,
    {
        if n > 0 {
            self.lemma_hidden_len::<M>(x, rows, (n - 1) as nat);
            self.layers@[n - 1].lemma_forward_len::<M>(
                self.hidden_after::<M>(x, rows, (n - 1) as nat),
                rows,
                self.rope_cos@,
                self.rope_sin@,
            );
        }
    }

    pub fn token_embedding(&self, id: u32) -> (r: Vec<T>)
        requires
            scalar::arithmetic::<T>(),
            self.wf(),
        ensures
            r@ == self.token_row(id),
            r@.len() == self.config.architecture.hidden_size,
    {
        let h = self.config.architecture.hidden_size;
        let vocab = self.config.architecture.vocab_size;
        let i = id as usize;
        if i < vocab {
            proof {
                ops::lemma_row_bounds(i as int, vocab as int, h as int);
            }
            copy_slice(row_slice(self.embed_tokens.as_slice(), i, h))
        } else {
            filled(T::default(), h)
        }
    }

    fn embed_token<M: Math<T>>(&self, id: u32) -> (r: Vec<T>)
        requires
            scalar::mathematics::<T, M>(),
            self.wf(),
        ensures
            r@ == self.embed_row::<M>(id),
            r@.len() == self.config.architecture.hidden_size,
    {
        let x = self.token_embedding(id);
        match self.config.architecture.embed_scale {
            Some(scale) => scale_vec(x.as_slice(), M::from_binary64(scale.bits)),
            None => x,
        }
    }

    fn embed_tokens_all<M: Math<T>>(&self, token_ids: &[u32]) -> (r: Vec<T>)
        requires
            scalar::mathematics::<T, M>(),
            self.wf(),
        ensures
            r@ == self.embeddings::<M>(token_ids@),
            r@.len() == token_ids@.len() * self.config.architecture.hidden_size,
    {
        let ghost f = |t: int| self.embed_row::<M>(token_ids@[t]);
        let mut x: Vec<T> = Vec::new();
        for t in 0..token_ids.len()
            invariant
                scalar::mathematics::<T, M>(),
                self.wf(),
                f == (|t: int| self.embed_row::<M>(token_ids@[t])),
                x@ == ops::blocks(t as nat, f),
        {
            let e = self.embed_token::<M>(token_ids[t]);
            extend(&mut x, e.as_slice());
            assert(x@ =~= ops::blocks((t + 1) as nat, f));
        }
        proof {
            self.lemma_embeddings_len::<M>(token_ids@);
        }
        x
    }

    pub fn project_logits<M: Math<T>>(&self, x: &[T]) -> (r: Vec<T>)
        requires
            scalar::mathematics::<T, M>(),
            self.wf(),
            x@.len() == self.config.architecture.hidden_size,
        ensures
            r@ == self.logits_row::<M>(x@),
            r@.len() == self.config.architecture.vocab_size,
    {
        let h = self.config.architecture.hidden_size;
        let vocab = self.config.architecture.vocab_size;
        let none: Vec<T> = Vec::new();
        let normed = normalize_row::<T, M>(
            self.final_norm,
            x,
            self.final_norm_weight.as_slice(),
        );
        let w = match &self.lm_head_weight {
            Some(w) => w.as_slice(),
            None => self.embed_tokens.as_slice(),
        };
        linear_vec(normed.as_slice(), w, none.as_slice(), h, vocab)
    }

    /// Forward pass: token_ids → logits.
    ///
    /// `token_ids` is a 1-D slice of token indices for a single sequence.
    /// Returns `ModelOutput` with shape `[1, seq_len, vocab_size]`.
    pub fn forward<M: Math<T>>(&self, token_ids: &[u32]) -> (r: ModelOutput<T>)
        requires
            scalar::mathematics::<T, M>(),
            self.wf(),
            self.positions_reach(token_ids@.len() as int),
        ensures
            r.logits@ == self.logits_of::<M>(token_ids@),
            r.shape@ == seq![
                1usize,
                token_ids@.len() as usize,
                self.config.architecture.vocab_size,
            ],
    {
        let seq_len = token_ids.len();
        let h = self.config.architecture.hidden_size;
        let vocab = self.config.architecture.vocab_size;
        let mut x = self.embed_tokens_all::<M>(token_ids);
        let ghost e = x@;
        for i in 0..self.layers.len()
            invariant
                scalar::mathematics::<T, M>(),
                self.wf(),
                self.positions_reach(seq_len as int),
                h == self.config.architecture.hidden_size,
                x@ == self.hidden_after::<M>(e, seq_len as nat, i as nat),
                x@.len() == seq_len * h,
        {
            let layer = &self.layers[i];
            x = layer.forward::<M>(
                x.as_slice(),
                seq_len,
                self.rope_cos.as_slice(),
                self.rope_sin.as_slice(),
            );
        }
        let ghost f = |t: int|
            self.logits_row::<M>(
                ops::row(
                    self.final_hidden::<M>(token_ids@),
                    t,
                    self.config.architecture.hidden_size as int,
                ),
            );
        let mut logits: Vec<T> = Vec::new();
        for t in 0..seq_len
            invariant
                scalar::mathematics::<T, M>(),
                self.wf(),
                h == self.config.architecture.hidden_size,
                x@ == self.final_hidden::<M>(token_ids@),
                x@.len() == seq_len * h,
                f == (|t: int|
                    self.logits_row::<M>(
                        ops::row(
                            self.final_hidden::<M>(token_ids@),
                            t,
                            self.config.architecture.hidden_size as int,
                        ),
                    )),
                logits@ == ops::blocks(t as nat, f),
        {
            proof {
                ops::lemma_row_bounds(t as int, seq_len as int, h as int);
            }
            let y = self.project_logits::<M>(row_slice(x.as_slice(), t, h));
            extend(&mut logits, y.as_slice());
            assert(logits@ =~= ops::blocks((t + 1) as nat, f));
        }
        let shape: [usize; 3] = [1, seq_len, vocab];
        assert(shape@ =~= seq![1usize, seq_len, vocab]);
        ModelOutput { logits, shape }
    }

    /// The cache has a sound layer for each layer of the model.
    pub open spec fn cache_fits(&self, cache: KVCache<T>) -> bool {
        &&& cache.wf(self.kv_width())
        &&& cache.layers@.len() == self.layers@.len()
    }

    /// Every layer of the cache has room for `n` more positions.
    pub open spec fn cache_room(&self, cache: KVCache<T>, n: int) -> bool {
        forall|i: int|
            0 <= i < cache.layers@.len() ==> (#[trigger] cache.layers@[i]).positions() + n
                <= cache.layers@[i].capacity()
    }

    /// Prefill forward pass: process all prompt tokens and populate the KV cache.
    ///
    /// Runs batched attention across all positions (fast) while simultaneously
    /// populating the KV cache for subsequent decode steps.
    ///
    /// After this call, `cache` holds K/V for all `token_ids.len()` positions,
    /// ready for subsequent [`forward_one`](Self::forward_one) decode steps.
    pub fn forward_prefill<M: Math<T>>(&self, token_ids: &[u32], cache: &mut KVCache<T>) -> (r:
        ModelOutput<T>)
        requires
            scalar::mathematics::<T, M>(),
            self.wf(),
            token_ids@.len() > 0,
            self.positions_reach(token_ids@.len() as int),
            self.cache_fits(*old(cache)),
            self.cache_room(*old(cache), token_ids@.len() as int),
        ensures
            r.logits@ == self.logits_row::<M>(
                ops::row(
                    self.final_hidden::<M>(token_ids@),
                    token_ids@.len() - 1,
                    self.config.architecture.hidden_size as int,
                ),
            ),
            r.shape@ == seq![1usize, 1usize, self.config.architecture.vocab_size],
            self.cache_fits(*final(cache)),
            forall|i: int|
                0 <= i < self.layers@.len() ==> self.layer_prefilled::<M>(
                    i,
                    #[trigger] old(cache).layers@[i],
                    final(cache).layers@[i],
                    token_ids@,
                ),
    {
        let seq_len = token_ids.len();
        let h = self.config.architecture.hidden_size;
        let vocab = self.config.architecture.vocab_size;
        let mut x = self.embed_tokens_all::<M>(token_ids);
        let ghost e = x@;
        let ghost before = *cache;
        for i in 0..self.layers.len()
            invariant
                scalar::mathematics::<T, M>(),
                self.wf(),
                self.positions_reach(seq_len as int),
                h == self.config.architecture.hidden_size,
                seq_len == token_ids@.len(),
                e == self.embeddings::<M>(token_ids@),
                x@ == self.hidden_after::<M>(e, seq_len as nat, i as nat),
                x@.len() == seq_len * h,
                self.cache_fits(before),
                self.cache_room(before, seq_len as int),
                self.cache_fits(*cache),
                forall|j: int|
                    i <= j < self.layers@.len() ==> #[trigger] cache.layers@[j]
                        == before.layers@[j],
                forall|j: int|
                    0 <= j < i ==> self.layer_prefilled::<M>(
                        j,
                        #[trigger] before.layers@[j],
                        cache.layers@[j],
                        token_ids@,
                    ),
        {
            let ghost current = *cache;
            assert(current.layers@[i as int] == before.layers@[i as int]);
            let layer = &self.layers[i];
            assert(layer.wf());
            x = layer.forward_prefill_batched::<M>(
                x.as_slice(),
                seq_len,
                &mut cache.layers[i],
                self.rope_cos.as_slice(),
                self.rope_sin.as_slice(),
            );
            assert forall|j: int| 0 <= j < i implies self.layer_prefilled::<M>(
                j,
                #[trigger] before.layers@[j],
                cache.layers@[j],
                token_ids@,
            ) by {
                assert(cache.layers@[j] == current.layers@[j]);
            }
        }
        proof {
            ops::lemma_row_bounds(seq_len - 1, seq_len as int, h as int);
        }
        let last = row_slice(x.as_slice(), seq_len - 1, h);
        let logits = self.project_logits::<M>(last);
        let shape: [usize; 3] = [1, 1, vocab];
        assert(shape@ =~= seq![1usize, 1usize, vocab]);
        ModelOutput { logits, shape }
    }

    /// What prefilling with `ids` does to the cache of layer `i`.
    pub open spec fn layer_prefilled<M: Math<T>>(
        &self,
        i: int,
        before: KVCacheLayer<T>,
        after: KVCacheLayer<T>,
        ids: Seq<u32>,
    ) -> bool {
        let x = self.hidden_after::<M>(self.embeddings::<M>(ids), ids.len(), i as nat);
        &&& after.positions() == before.positions() + ids.len()
        &&& after.capacity() == before.capacity()
        &&& after.key_rows() == before.key_rows() + self.layers@[i].key_rows::<M>(
            x,
            ids.len(),
            self.rope_cos@,
            self.rope_sin@,
        )
        &&& after.value_rows() == before.value_rows() + self.layers@[i].value_rows::<M>(
            x,
            ids.len(),
        )
    }

    /// The hidden row after the first `n` layers of a decode step.
    pub open spec fn decoded<M: Math<T>>(
        &self,
        x: Seq<T>,
        cache: Seq<KVCacheLayer<T>>,
        pos: int,
        n: nat,
    ) -> Seq<T>
        decreases n,
    {
        if n == 0 {
            x
        } else {
            let layer = self.layers@[n - 1];
            let y = self.decoded::<M>(x, cache, pos, (n - 1) as nat);
            let len = cache[n - 1].positions() + 1;
            let start = crate::attention::window_start(len, layer.attention.spec_window());
            layer.output_row::<M>(
                y,
                cache[n - 1].key_rows() + layer.key_row::<M>(
                    y,
                    self.rope_cos@,
                    self.rope_sin@,
                    pos,
                ),
                cache[n - 1].value_rows() + layer.value_row::<M>(y),
                start as int,
                (len - start) as nat,
                self.rope_cos@,
                self.rope_sin@,
                pos,
            )
        }
    }

    /// What a decode step on the embedding `x` does to the cache of layer `i`.
    pub open spec fn layer_decoded<M: Math<T>>(
        &self,
        i: int,
        before: Seq<KVCacheLayer<T>>,
        after: KVCacheLayer<T>,
        x: Seq<T>,
        pos: int,
    ) -> bool {
        let y = self.decoded::<M>(x, before, pos, i as nat);
        &&& after.positions() == before[i].positions() + 1
        &&& after.capacity() == before[i].capacity()
        &&& after.key_rows() == before[i].key_rows() + self.layers@[i].key_row::<M>(
            y,
            self.rope_cos@,
            self.rope_sin@,
            pos,
        )
        &&& after.value_rows() == before[i].value_rows() + self.layers@[i].value_row::<M>(y)
    }

    /// The position of the next token: how many the cache holds.
    pub open spec fn next_position(&self, cache: KVCache<T>) -> int {
        if cache.layers@.len() > 0 {
            cache.layers@[0].positions() as int
        } else {
            0
        }
    }

    /// Runs the first `n` layers of a decode step, each of which appends to
    /// its cache.
    pub fn decode_layers<M: Math<T>>(
        &self,
        start: Vec<T>,
        cache: &mut KVCache<T>,
        pos: usize,
        n: usize,
    ) -> (r: Vec<T>)
        requires
            scalar::mathematics::<T, M>(),
            self.wf(),
            start@.len() == self.config.architecture.hidden_size,
            n <= self.layers@.len(),
            self.positions_reach(pos + 1),
            self.cache_fits(*old(cache)),
            self.cache_room(*old(cache), 1),
        ensures
            r@ == self.decoded::<M>(start@, old(cache).layers@, pos as int, n as nat),
            r@.len() == self.config.architecture.hidden_size,
            self.cache_fits(*final(cache)),
            forall|i: int|
                n <= i < self.layers@.len() ==> #[trigger] final(cache).layers@[i] == old(
                    cache,
                ).layers@[i],
            forall|i: int|
                0 <= i < n ==> self.layer_decoded::<M>(
                    i,
                    old(cache).layers@,
                    #[trigger] final(cache).layers@[i],
                    start@,
                    pos as int,
                ),
    {
        let mut x = start;
        let ghost e = x@;
        let ghost before = *cache;
        for i in 0..n
            invariant
                scalar::mathematics::<T, M>(),
                self.wf(),
                n <= self.layers@.len(),
                self.positions_reach(pos + 1),
                x@ == self.decoded::<M>(e, before.layers@, pos as int, i as nat),
                x@.len() == self.config.architecture.hidden_size,
                self.cache_fits(before),
                self.cache_room(before, 1),
                self.cache_fits(*cache),
                forall|j: int|
                    i <= j < self.layers@.len() ==> #[trigger] cache.layers@[j]
                        == before.layers@[j],
                forall|j: int|
                    0 <= j < i ==> self.layer_decoded::<M>(
                        j,
                        before.layers@,
                        #[trigger] cache.layers@[j],
                        e,
                        pos as int,
                    ),
        {
            let ghost current = *cache;
            assert(current.layers@[i as int] == before.layers@[i as int]);
            let layer = &self.layers[i];
            assert(layer.wf());
            x = layer.forward_one::<M>(
                x.as_slice(),
                &mut cache.layers[i],
                pos,
                self.rope_cos.as_slice(),
                self.rope_sin.as_slice(),
            );
            assert forall|j: int| 0 <= j < i implies self.layer_decoded::<M>(
                j,
                before.layers@,
                #[trigger] cache.layers@[j],
                e,
                pos as int,
            ) by {
                assert(cache.layers@[j] == current.layers@[j]);
            }
        }
        x
    }

    /// Single-token decode step using the KV cache.
    ///
    /// Embeds the token, runs through all decoder layers via
    /// [`DecoderLayer::forward_one`] (each layer appends its K/V to the cache
    /// and attends against the full cached history), then returns logits.
    pub fn forward_one<M: Math<T>>(&self, token: u32, cache: &mut KVCache<T>) -> (r: ModelOutput<T>)
        requires
            scalar::mathematics::<T, M>(),
            self.wf(),
            self.cache_fits(*old(cache)),
            self.cache_room(*old(cache), 1),
            self.positions_reach(self.next_position(*old(cache)) + 1),
        ensures
            r.logits@ == self.logits_row::<M>(
                self.decoded::<M>(
                    self.embed_row::<M>(token),
                    old(cache).layers@,
                    self.next_position(*old(cache)),
                    self.layers@.len(),
                ),
            ),
            r.shape@ == seq![1usize, 1usize, self.config.architecture.vocab_size],
            self.cache_fits(*final(cache)),
            forall|i: int|
                0 <= i < self.layers@.len() ==> self.layer_decoded::<M>(
                    i,
                    old(cache).layers@,
                    #[trigger] final(cache).layers@[i],
                    self.embed_row::<M>(token),
                    self.next_position(*old(cache)),
                ),
    {
        let vocab = self.config.architecture.vocab_size;
        let pos = cache.current_len();
        let e = self.embed_token::<M>(token);
        let n = self.layers.len();
        let x = self.decode_layers::<M>(e, cache, pos, n);
        let logits = self.project_logits::<M>(x.as_slice());
        let shape: [usize; 3] = [1, 1, vocab];
        assert(shape@ =~= seq![1usize, 1usize, vocab]);
        ModelOutput { logits, shape }
    }

    /// Draft forward: runs only the first `n_draft_layers` layers.
    /// Used by self-speculative decoding as a fast approximation.
    /// Populates the KV cache for the draft layers only; the other layers get
    /// a row of zeros each, which keeps their positions in step.
    pub fn forward_one_draft<M: Math<T>>(
        &self,
        token: u32,
        cache: &mut KVCache<T>,
        n_draft_layers: usize,
    ) -> (r: ModelOutput<T>)
        requires
            scalar::mathematics::<T, M>(),
            self.wf(),
            self.cache_fits(*old(cache)),
            self.cache_room(*old(cache), 1),
            self.positions_reach(self.next_position(*old(cache)) + 1),
        ensures
            ({
                let n = if n_draft_layers <= self.layers@.len() {
                    n_draft_layers as int
                } else {
                    self.layers@.len() as int
                };
                let pos = self.next_position(*old(cache));
                &&& r.logits@ == self.logits_row::<M>(
                    self.decoded::<M>(
                        self.token_row(token),
                        old(cache).layers@,
                        pos,
                        n as nat,
                    ),
                )
                &&& forall|i: int|
                    0 <= i < n ==> self.layer_decoded::<M>(
                        i,
                        old(cache).layers@,
                        #[trigger] final(cache).layers@[i],
                        self.token_row(token),
                        pos,
                    )
                &&& forall|i: int|
                    n <= i < self.layers@.len() ==> self.layer_padded(
                        #[trigger] old(cache).layers@[i],
                        final(cache).layers@[i],
                    )
            }),
            r.shape@ == seq![1usize, 1usize, self.config.architecture.vocab_size],
            self.cache_fits(*final(cache)),
    {
        let vocab = self.config.architecture.vocab_size;
        let pos = cache.current_len();
        let ghost before = *cache;
        let e = self.token_embedding(token);
        let ghost start = e@;
        let all = self.layers.len();
        let n = if n_draft_layers <= all {
            n_draft_layers
        } else {
            all
        };
        let x = self.decode_layers::<M>(e, cache, pos, n);
        let layout = self.config.attention.layout();
        let zeros = filled(T::default(), layout.num_kv_heads * layout.head_dim);
        let ghost drafted = *cache;
        for i in n..all
            invariant
                n <= all,
                all == self.layers@.len(),
                zeros@ == buffer::repeated(scalar::zero::<T>(), self.kv_width()),
                self.cache_fits(before),
                self.cache_room(before, 1),
                self.cache_fits(*cache),
                forall|j: int|
                    i <= j < all ==> #[trigger] cache.layers@[j] == before.layers@[j],
                forall|j: int| 0 <= j < n ==> #[trigger] cache.layers@[j] == drafted.layers@[j],
                forall|j: int|
                    n <= j < i ==> self.layer_padded(
                        #[trigger] before.layers@[j],
                        cache.layers@[j],
                    ),
        {
            let ghost current = *cache;
            assert(current.layers@[i as int] == before.layers@[i as int]);
            let appended = cache.layers[i].append(zeros.as_slice(), zeros.as_slice());
            assert(appended is Ok);
            assert forall|j: int| n <= j < i implies self.layer_padded(
                #[trigger] before.layers@[j],
                cache.layers@[j],
            ) by {
                assert(cache.layers@[j] == current.layers@[j]);
            }
        }
        let logits = self.project_logits::<M>(x.as_slice());
        let shape: [usize; 3] = [1, 1, vocab];
        assert(shape@ =~= seq![1usize, 1usize, vocab]);
        ModelOutput { logits, shape }
    }

    /// A row of zeros was appended to a layer's cache.
    pub open spec fn layer_padded(&self, before: KVCacheLayer<T>, after: KVCacheLayer<T>) -> bool {
        let zeros = buffer::repeated(scalar::zero::<T>(), self.kv_width());
        &&& after.positions() == before.positions() + 1
        &&& after.capacity() == before.capacity()
        &&& after.key_rows() == before.key_rows() + zeros
        &&& after.value_rows() == before.value_rows() + zeros
    }

    /// Number of decoder layers.
    pub fn num_layers(&self) -> (r: usize)
        ensures
            r == self.layers@.len(),
    {
        self.layers.len()
    }

    /// Model configuration.
    pub fn config(&self) -> (r: &ModelConfig)
        ensures
            *r == self.config,
    {
        &self.config
    }
}


// ── Laws ─────────────────────────────────────────────────────────────

impl<T: Scalar> CausalLM<T> {
    /// The cache holds exactly the keys and values of the tokens `ids`.
    pub open spec fn cache_holds<M: Math<T>>(&self, cache: KVCache<T>, ids: Seq<u32>) -> bool {
        forall|i: int|
            0 <= i < self.layers@.len() ==> {
                let x = self.hidden_after::<M>(self.embeddings::<M>(ids), ids.len(), i as nat);
                &&& (#[trigger] cache.layers@[i]).positions() == ids.len()
                &&& cache.layers@[i].key_rows() == self.layers@[i].key_rows::<M>(
                    x,
                    ids.len(),
                    self.rope_cos@,
                    self.rope_sin@,
                )
                &&& cache.layers@[i].value_rows() == self.layers@[i].value_rows::<M>(x, ids.len())
            }
    }

    /// No layer's attention window is shorter than `len` positions.
    pub open spec fn windows_hold(&self, len: nat) -> bool {
        forall|i: int|
            0 <= i < self.layers@.len() ==> crate::attention::window_start(
                len,
                (#[trigger] self.layers@[i]).attention.spec_window(),
            ) == 0
    }

    /// A prefill of `ids` into an empty cache leaves a cache that holds `ids`.
    pub proof fn lemma_prefill_fills_cache<M: Math<T>>(
        &self,
        before: KVCache<T>,
        after: KVCache<T>,
        ids: Seq<u32>,
    )
        requires
            self.cache_fits(before),
            forall|i: int|
                0 <= i < self.layers@.len() ==> {
                    &&& (#[trigger] before.layers@[i]).positions() == 0
                    &&& before.layers@[i].key_rows() == Seq::<T>::empty()
                    &&& before.layers@[i].value_rows() == Seq::<T>::empty()
                },
            forall|i: int|
                0 <= i < self.layers@.len() ==> self.layer_prefilled::<M>(
                    i,
                    #[trigger] before.layers@[i],
                    after.layers@[i],
                    ids,
                ),
        ensures
            self.cache_holds::<M>(after, ids),
    {
        assert forall|i: int| 0 <= i < self.layers@.len() implies {
            let x = self.hidden_after::<M>(self.embeddings::<M>(ids), ids.len(), i as nat);
            &&& (#[trigger] after.layers@[i]).positions() == ids.len()
            &&& after.layers@[i].key_rows() == self.layers@[i].key_rows::<M>(
                x,
                ids.len(),
                self.rope_cos@,
                self.rope_sin@,
            )
            &&& after.layers@[i].value_rows() == self.layers@[i].value_rows::<M>(x, ids.len())
        } by {
            let x = self.hidden_after::<M>(self.embeddings::<M>(ids), ids.len(), i as nat);
            assert(self.layer_prefilled::<M>(i, before.layers@[i], after.layers@[i], ids));
            assert(after.layers@[i].key_rows() =~= self.layers@[i].key_rows::<M>(
                x,
                ids.len(),
                self.rope_cos@,
                self.rope_sin@,
            ));
            assert(after.layers@[i].value_rows() =~= self.layers@[i].value_rows::<M>(
                x,
                ids.len(),
            ));
        }
    }

    /// The logits of a prefill are those of the last position of a full
    /// forward pass.
    pub proof fn lemma_prefill_matches_forward<M: Math<T>>(&self, ids: Seq<u32>)
        requires
            ids.len() > 0,
        ensures
            self.logits_row::<M>(
                ops::row(
                    self.final_hidden::<M>(ids),
                    ids.len() - 1,
                    self.config.architecture.hidden_size as int,
                ),
            ) == ops::row(
                self.logits_of::<M>(ids),
                ids.len() - 1,
                self.config.architecture.vocab_size as int,
            ),
    {
        let f = |t: int|
            self.logits_row::<M>(
                ops::row(
                    self.final_hidden::<M>(ids),
                    t,
                    self.config.architecture.hidden_size as int,
                ),
            );
        ops::lemma_blocks_row(
            ids.len(),
            f,
            self.config.architecture.vocab_size as nat,
            ids.len() - 1,
        );
    }

    proof fn lemma_embeddings_push<M: Math<T>>(&self, ids: Seq<u32>, next: u32)
        requires
            self.wf(),
        ensures
            ids.len() * self.config.architecture.hidden_size <= (ids.len() + 1)
                * self.config.architecture.hidden_size,
            self.embeddings::<M>(ids.push(next)).take(
                (ids.len() * self.config.architecture.hidden_size) as int,
            ) == self.embeddings::<M>(ids),
            ops::row(
                self.embeddings::<M>(ids.push(next)),
                ids.len() as int,
                self.config.architecture.hidden_size as int,
            ) == self.embed_row::<M>(next),
    {
        let h = self.config.architecture.hidden_size as nat;
        let longer = ids.push(next);
        let n = ids.len();
        let f = |t: int| self.embed_row::<M>(longer[t]);
        let g = |t: int| self.embed_row::<M>(ids[t]);
        assert forall|t: int| 0 <= t < n + 1 implies #[trigger] f(t).len() == h by {
            self.lemma_embed_len::<M>(longer[t]);
        }
        ops::lemma_blocks_prefix(n, n + 1, f, h);
        assert forall|t: int| 0 <= t < n implies #[trigger] f(t) == g(t) by {}
        ops::lemma_blocks_same(n, f, g);
        ops::lemma_blocks_row(n + 1, f, h, n as int);
    }

    /// The model is causal: a further token does not change the hidden rows
    /// of the tokens before it, after any number of layers.
    pub proof fn lemma_hidden_causal<M: Math<T>>(&self, ids: Seq<u32>, next: u32, n: nat)
        requires
            self.wf(),
            n <= self.layers@.len(),
        ensures
            self.hidden_after::<M>(self.embeddings::<M>(ids.push(next)), ids.len() + 1, n).take(
                (ids.len() * self.config.architecture.hidden_size) as int,
            ) == self.hidden_after::<M>(self.embeddings::<M>(ids), ids.len(), n),
        decreases n,
    {
        self.lemma_embeddings_push::<M>(ids, next);
        if n > 0 {
            let m = (n - 1) as nat;
            self.lemma_hidden_causal::<M>(ids, next, m);
            let e = self.embeddings::<M>(ids);
            let l = self.embeddings::<M>(ids.push(next));
            self.lemma_embeddings_len::<M>(ids);
            self.lemma_embeddings_len::<M>(ids.push(next));
            self.lemma_hidden_len::<M>(e, ids.len(), m);
            self.lemma_hidden_len::<M>(l, ids.len() + 1, m);
            self.layers@[m as int].lemma_causal::<M>(
                self.hidden_after::<M>(e, ids.len(), m),
                ids.len(),
                self.hidden_after::<M>(l, ids.len() + 1, m),
                ids.len() + 1,
                self.rope_cos@,
                self.rope_sin@,
            );
        }
    }

    /// After each layer, the hidden row of a decode step is the last hidden
    /// row of a full forward pass over all tokens.
    pub proof fn lemma_decoded_is_last_row<M: Math<T>>(
        &self,
        cache: KVCache<T>,
        ids: Seq<u32>,
        next: u32,
        n: nat,
    )
        requires
            self.wf(),
            self.cache_fits(cache),
            self.cache_holds::<M>(cache, ids),
            self.windows_hold(ids.len() + 1),
            n <= self.layers@.len(),
        ensures
            self.decoded::<M>(self.embed_row::<M>(next), cache.layers@, ids.len() as int, n)
                == ops::row(
                self.hidden_after::<M>(self.embeddings::<M>(ids.push(next)), ids.len() + 1, n),
                ids.len() as int,
                self.config.architecture.hidden_size as int,
            ),
        decreases n,
    {
        let h = self.config.architecture.hidden_size as int;
        let rows = ids.len() + 1;
        self.lemma_embeddings_push::<M>(ids, next);
        if n > 0 {
            let m = (n - 1) as nat;
            self.lemma_decoded_is_last_row::<M>(cache, ids, next, m);
            self.lemma_hidden_causal::<M>(ids, next, m);
            let layer = self.layers@[m as int];
            assert(layer.wf());
            let l = self.embeddings::<M>(ids.push(next));
            self.lemma_embeddings_len::<M>(ids.push(next));
            self.lemma_hidden_len::<M>(l, rows, m);
            let x = self.hidden_after::<M>(l, rows, m);
            assert(cache.layers@[m as int].positions() == ids.len());
            let y = ops::row(x, ids.len() as int, h);
            layer.lemma_decode_matches_forward::<M>(
                x,
                rows,
                self.rope_cos@,
                self.rope_sin@,
                cache.layers@[m as int].key_rows() + layer.key_row::<M>(
                    y,
                    self.rope_cos@,
                    self.rope_sin@,
                    ids.len() as int,
                ),
                cache.layers@[m as int].value_rows() + layer.value_row::<M>(y),
            );
        }
    }

    /// Decoding a token with the cache of the tokens before it gives the
    /// logits of the last position of a full forward pass over all of them,
    /// and a cache that holds all of them. With
    /// [`lemma_prefill_fills_cache`](Self::lemma_prefill_fills_cache) this
    /// covers a prefill followed by any number of decode steps.
    pub proof fn lemma_decode_matches_forward<M: Math<T>>(
        &self,
        before: KVCache<T>,
        after: KVCache<T>,
        ids: Seq<u32>,
        next: u32,
    )
        requires
            self.wf(),
            self.cache_fits(before),
            self.cache_holds::<M>(before, ids),
            self.windows_hold(ids.len() + 1),
            forall|i: int|
                0 <= i < self.layers@.len() ==> self.layer_decoded::<M>(
                    i,
                    before.layers@,
                    #[trigger] after.layers@[i],
                    self.embed_row::<M>(next),
                    self.next_position(before),
                ),
        ensures
            self.logits_row::<M>(
                self.decoded::<M>(
                    self.embed_row::<M>(next),
                    before.layers@,
                    self.next_position(before),
                    self.layers@.len(),
                ),
            ) == ops::row(
                self.logits_of::<M>(ids.push(next)),
                ids.len() as int,
                self.config.architecture.vocab_size as int,
            ),
            self.cache_holds::<M>(after, ids.push(next)),
    {
        if self.layers@.len() > 0 {
            assert(before.layers@[0].positions() == ids.len());
        }
        self.lemma_decoded_is_last_row::<M>(before, ids, next, self.layers@.len());
        self.lemma_prefill_matches_forward::<M>(ids.push(next));
        let h = self.config.architecture.hidden_size as int;
        let rows = ids.len() + 1;
        let l = self.embeddings::<M>(ids.push(next));
        self.lemma_embeddings_len::<M>(ids.push(next));
        assert forall|i: int| 0 <= i < self.layers@.len() implies {
            let x = self.hidden_after::<M>(l, rows, i as nat);
            &&& (#[trigger] after.layers@[i]).positions() == rows
            &&& after.layers@[i].key_rows() == self.layers@[i].key_rows::<M>(
                x,
                rows,
                self.rope_cos@,
                self.rope_sin@,
            )
            &&& after.layers@[i].value_rows() == self.layers@[i].value_rows::<M>(x, rows)
        } by {
            let x = self.hidden_after::<M>(l, rows, i as nat);
            assert(self.layer_decoded::<M>(
                i,
                before.layers@,
                after.layers@[i],
                self.embed_row::<M>(next),
                self.next_position(before),
            ));
            assert(before.layers@[i].positions() == ids.len());
            assert(self.layers@[i].wf());
            self.lemma_decoded_is_last_row::<M>(before, ids, next, i as nat);
            self.lemma_hidden_causal::<M>(ids, next, i as nat);
            self.lemma_hidden_len::<M>(l, rows, i as nat);
            self.lemma_embeddings_push::<M>(ids, next);
            self.layers@[i].lemma_decode_matches_forward::<M>(
                x,
                rows,
                self.rope_cos@,
                self.rope_sin@,
                after.layers@[i].key_rows(),
                after.layers@[i].value_rows(),
            );
        }
    }
}

impl<T: Scalar> CausalLM<T> {
    /// What a decode step with `token` does to the cache.
    pub open spec fn stepped<M: Math<T>>(
        &self,
        before: KVCache<T>,
        after: KVCache<T>,
        token: u32,
    ) -> bool {
        forall|i: int|
            0 <= i < self.layers@.len() ==> self.layer_decoded::<M>(
                i,
                before.layers@,
                #[trigger] after.layers@[i],
                self.embed_row::<M>(token),
                self.next_position(before),
            )
    }

    /// Windows that leave nothing out of `len` positions leave nothing out of
    /// fewer.
    proof fn lemma_windows_hold(&self, len: nat, less: nat)
        requires
            self.windows_hold(len),
            less <= len,
        ensures
            self.windows_hold(less),
    {
        assert forall|i: int| 0 <= i < self.layers@.len() implies crate::attention::window_start(
            less,
            (#[trigger] self.layers@[i]).attention.spec_window(),
        ) == 0 by {
            assert(crate::attention::window_start(
                len,
                self.layers@[i].attention.spec_window(),
            ) == 0);
        }
    }

    /// The caches of decoding `d` behind a prompt: `caches[0]` is the one that
    /// the prompt filled, `caches[j + 1]` the one behind the step with token
    /// `d[j]`.
    pub open spec fn decoding<M: Math<T>>(
        &self,
        prompt: Seq<u32>,
        caches: Seq<KVCache<T>>,
        d: Seq<u32>,
    ) -> bool {
        &&& caches.len() == d.len() + 1
        &&& self.cache_holds::<M>(caches[0], prompt)
        &&& forall|j: int| 0 <= j < caches.len() ==> self.cache_fits(#[trigger] caches[j])
        &&& forall|j: int|
            0 <= j < d.len() ==> self.stepped::<M>(caches[j], caches[j + 1], #[trigger] d[j])
    }

    /// Behind `k` steps the cache holds the prompt and `k` tokens.
    #[verifier::spinoff_prover]
    proof fn lemma_steps_fill_cache<M: Math<T>>(
        &self,
        prompt: Seq<u32>,
        caches: Seq<KVCache<T>>,
        d: Seq<u32>,
        k: nat,
    )
        requires
            self.wf(),
            self.decoding::<M>(prompt, caches, d),
            self.windows_hold(prompt.len() + d.len()),
            k <= d.len(),
        ensures
            self.cache_holds::<M>(caches[k as int], prompt + d.take(k as int)),
        decreases k,
    {
        if k == 0 {
            assert(prompt + d.take(0) =~= prompt);
        } else {
            let before = caches[k - 1];
            let ids = prompt + d.take(k - 1);
            let next = d[k - 1];
            self.lemma_steps_fill_cache::<M>(prompt, caches, d, (k - 1) as nat);
            self.lemma_windows_hold(prompt.len() + d.len(), ids.len() + 1);
            assert(self.stepped::<M>(before, caches[(k - 1) + 1], next));
            assert(self.cache_fits(before));
            self.lemma_decode_matches_forward::<M>(before, caches[k as int], ids, next);
            assert(prompt + d.take(k as int) =~= ids.push(next));
        }
    }

    /// A prompt and any number of decode steps give, at each step, the logits
    /// that a full pass over all tokens so far gives for its last position, and
    /// the cache holds those tokens. This is the step with token `d[k]`.
    #[verifier::spinoff_prover]
    pub proof fn lemma_steps_match_forward<M: Math<T>>(
        &self,
        prompt: Seq<u32>,
        caches: Seq<KVCache<T>>,
        d: Seq<u32>,
        k: int,
    )
        requires
            self.wf(),
            self.decoding::<M>(prompt, caches, d),
            self.windows_hold(prompt.len() + d.len()),
            0 <= k < d.len(),
        ensures
            self.logits_row::<M>(
                self.decoded::<M>(
                    self.embed_row::<M>(d[k]),
                    caches[k].layers@,
                    self.next_position(caches[k]),
                    self.layers@.len(),
                ),
            ) == ops::row(
                self.logits_of::<M>(prompt + d.take(k + 1)),
                prompt.len() + k,
                self.config.architecture.vocab_size as int,
            ),
            self.cache_holds::<M>(caches[k + 1], prompt + d.take(k + 1)),
            self.layers@.len() > 0 ==> self.next_position(caches[k + 1]) == prompt.len() + k + 1,
    {
        let before = caches[k];
        let after = caches[k + 1];
        let ids = prompt + d.take(k);
        let next = d[k];
        self.lemma_steps_fill_cache::<M>(prompt, caches, d, k as nat);
        self.lemma_windows_hold(prompt.len() + d.len(), ids.len() + 1);
        assert(self.stepped::<M>(before, after, next));
        assert(self.cache_fits(before) && self.cache_fits(after));
        self.lemma_decode_matches_forward::<M>(before, after, ids, next);
        assert(prompt + d.take(k + 1) =~= ids.push(next));
        if self.layers@.len() > 0 {
            assert(after.layers@[0].positions() == ids.len() + 1);
        }
    }

    /// A cache that a prompt filled from empty is where decoding starts.
    pub proof fn lemma_prefill_starts_decoding<M: Math<T>>(
        &self,
        blank: KVCache<T>,
        filled: KVCache<T>,
        prompt: Seq<u32>,
    )
        requires
            self.cache_fits(blank),
            self.cache_fits(filled),
            forall|i: int|
                0 <= i < self.layers@.len() ==> {
                    &&& (#[trigger] blank.layers@[i]).positions() == 0
                    &&& blank.layers@[i].key_rows() == Seq::<T>::empty()
                    &&& blank.layers@[i].value_rows() == Seq::<T>::empty()
                },
            forall|i: int|
                0 <= i < self.layers@.len() ==> self.layer_prefilled::<M>(
                    i,
                    #[trigger] blank.layers@[i],
                    filled.layers@[i],
                    prompt,
                ),
        ensures
            self.decoding::<M>(prompt, seq![filled], Seq::empty()),
    {
        self.lemma_prefill_fills_cache::<M>(blank, filled, prompt);
    }

    /// A decode step carries decoding on.
    pub proof fn lemma_step_continues_decoding<M: Math<T>>(
        &self,
        prompt: Seq<u32>,
        caches: Seq<KVCache<T>>,
        d: Seq<u32>,
        after: KVCache<T>,
        token: u32,
    )
        requires
            self.decoding::<M>(prompt, caches, d),
            self.cache_fits(after),
            self.stepped::<M>(caches.last(), after, token),
        ensures
            self.decoding::<M>(prompt, caches.push(after), d.push(token)),
    {
        let (c, e) = (caches.push(after), d.push(token));
        assert forall|j: int| 0 <= j < c.len() implies self.cache_fits(#[trigger] c[j]) by {
            if j < caches.len() {
                assert(c[j] == caches[j]);
            }
        }
        assert forall|j: int| 0 <= j < e.len() implies self.stepped::<M>(
            c[j],
            c[j + 1],
            #[trigger] e[j],
        ) by {
            if j < d.len() {
                assert(e[j] == d[j]);
                assert(c[j] == caches[j] && c[j + 1] == caches[j + 1]);
            }
        }
        assert(c[0] == caches[0]);
    }
}

// ── A loaded model ───────────────────────────────────────────────────

impl<T> CausalStructure<T> {
    /// The dimensions that a tensor in a slot has.
    pub open spec fn slot_shape(self, slot: Slot) -> Option<Seq<usize>> {
        match slot {
            Slot::Top(key) => self.expected_shape(key),
            Slot::Layer(stack, i, field) => if stack == "layers"@ && 0 <= i < self.layers.len() {
                self.layers[i].expected_shape(field)
            } else {
                None
            },
        }
    }
}

impl<T: Scalar> CausalLM<T> {
    /// No layer has a weight yet, and the layers follow the configuration.
    pub open spec fn unloaded(&self) -> bool {
        let c = self.config;
        &&& c.architecture.tie_word_embeddings ==> self.lm_head_weight is None
        &&& forall|i: int|
            0 <= i < self.layers@.len() ==> {
                &&& (#[trigger] self.layers@[i]).hidden_size == c.architecture.hidden_size
                &&& self.layers@[i].attention == c.attention
                &&& forall|name: Seq<char>|
                    (#[trigger] self.layers@[i].field(name)) is Some ==> self.layers@[i].field(name)
                        == Some(Seq::<T>::empty())
            }
    }

    /// What goes to a slot has the elements of the slot's dimensions.
    proof fn lemma_delivered_sized(
        before: Self,
        weights: TensorMap<T>,
        pairs: Seq<(String, String)>,
        n: nat,
        slot: Slot,
    )
        requires
            weights::consistent(weights),
            n <= pairs.len(),
            forall|j: int|
                0 <= j < n ==> #[trigger] weights::pair_refusal::<T, Self>(
                    before,
                    weights,
                    pairs,
                    j,
                ) is None,
            before.structure().slot_shape(slot) is Some,
            weights::last_delivered::<T, Self>(weights, pairs, n, slot) is Some,
        ensures
            weights::last_delivered::<T, Self>(weights, pairs, n, slot)->0.len() == weights::volume(
                before.structure().slot_shape(slot)->0,
            ),
        decreases n,
    {
        let pair = pairs[n - 1];
        if weights.has(pair.0@) && Self::slot(pair.1@) == Some(slot) {
            assert(weights::pair_refusal::<T, Self>(before, weights, pairs, n - 1) is None);
        } else {
            Self::lemma_delivered_sized(before, weights, pairs, (n - 1) as nat, slot);
        }
    }

    /// An expected key's slot holds a tensor of the demanded dimensions.
    proof fn lemma_expected_loaded(
        before: Self,
        after: Self,
        weights: TensorMap<T>,
        pairs: Seq<(String, String)>,
        result: LoadResult,
        key: Seq<char>,
        slot: Slot,
    )
        requires
            weights::consistent(weights),
            weights::tensors_loaded(before, after, weights, pairs, Ok(result)),
            result.missing@.len() == 0,
            before.expected().contains(key),
            Self::slot(key) == Some(slot),
            before.weight(slot) is Some,
            before.structure().slot_shape(slot) is Some,
        ensures
            after.weight(slot) is Some,
            after.weight(slot)->0.len() == weights::volume(
                before.structure().slot_shape(slot)->0,
            ),
    {
        let absent = |k: Seq<char>| !weights::delivered(weights, pairs, pairs.len() as int, k);
        assert(weights::texts(result.missing@).len() == 0);
        let i = choose|i: int| 0 <= i < before.expected().len() && before.expected()[i] == key;
        weights::lemma_nothing_missing(before.expected(), absent, i);
        weights::lemma_delivered_found::<T, Self>(weights, pairs, pairs.len(), key, slot);
        Self::lemma_delivered_sized(before, weights, pairs, pairs.len(), slot);
        assert(after.weight(slot) == weights::after_loading(
            before,
            weights,
            pairs,
            pairs.len(),
            slot,
        ));
    }

    /// A model that a complete checkpoint was loaded into is ready to run: every
    /// weight has its size.
    pub proof fn lemma_loaded_is_ready(
        before: Self,
        after: Self,
        weights: TensorMap<T>,
        pairs: Seq<(String, String)>,
        result: LoadResult,
    )
        requires
            before.unloaded(),
            before.config.attention.spec_layout().wf(),
            weights::consistent(weights),
            after.structure() == before.structure(),
            weights::tensors_loaded(before, after, weights, pairs, Ok(result)),
            result.missing@.len() == 0,
        ensures
            after.wf(),
    {
        let s = before.structure();
        let n = before.layers@.len();
        let h = before.config.architecture.hidden_size;
        let vocab = before.config.architecture.vocab_size;
        weights::lemma_volumes(vocab, h);
        weights::lemma_volumes(h, vocab);
        lemma_own_keys_differ();
        assert(before.layers.len() == n);
        assert(after.layers@.len() == after.structure().layers.len());
        assert(after.structure().config == s.config && after.structure().tied_head == s.tied_head);
        let f = |i: int| before.layers@[i].structure().keys(i as nat);
        let expected = before.expected();
        assert(expected[0] == "embed_tokens.weight"@);
        Self::lemma_expected_loaded(
            before,
            after,
            weights,
            pairs,
            result,
            "embed_tokens.weight"@,
            Slot::Top("embed_tokens.weight"@),
        );
        let at = 1 + ops::blocks(n, f).len();
        assert(expected[at as int] == "norm.weight"@);
        Self::lemma_expected_loaded(
            before,
            after,
            weights,
            pairs,
            result,
            "norm.weight"@,
            Slot::Top("norm.weight"@),
        );
        if !before.config.architecture.tie_word_embeddings {
            assert(expected[at as int + 1] == "lm_head.weight"@);
            Self::lemma_expected_loaded(
                before,
                after,
                weights,
                pairs,
                result,
                "lm_head.weight"@,
                Slot::Top("lm_head.weight"@),
            );
        }
        assert forall|i: int| 0 <= i < after.layers@.len() implies {
            &&& (#[trigger] after.layers@[i]).wf()
            &&& after.layers@[i].hidden_size == h
            &&& after.layers@[i].attention.spec_layout()
                == after.config.attention.spec_layout()
        } by {
            let layer = after.layers@[i];
            let was = before.layers@[i];
            assert(after.structure().layers[i] == layer.structure());
            assert(s.layers[i] == was.structure());
            let fields = layer.structure().key_fields();
            assert forall|j: int| 0 <= j < fields.len() implies layer.sized(
                #[trigger] fields[j],
            ) by {
                was.lemma_keys_name_weights(i as nat, j);
                lemma_layer_key_is_no_top_key(i as nat, fields[j]);
                let key = f(i)[j];
                assert(key == text::indexed_key("layers["@, i as nat, fields[j]));
                weights::lemma_in_blocks(n, f, i, j);
                let k = choose|k: int|
                    0 <= k < ops::blocks(n, f).len() && ops::blocks(n, f)[k] == key;
                assert(expected[k + 1] == key);
                let slot = Slot::Layer("layers"@, i, fields[j]);
                was.lemma_known_fields(fields[j]);
                Self::lemma_expected_loaded(before, after, weights, pairs, result, key, slot);
                assert(after.weight(slot) == layer.field(fields[j]));
            }
            assert forall|name: Seq<char>| (#[trigger] layer.field(name)) is Some implies layer
                .optionally_sized(name) by {
                let slot = Slot::Layer("layers"@, i, name);
                was.lemma_known_fields(name);
                layer.lemma_known_fields(name);
                assert(after.weight(slot) == weights::after_loading(
                    before,
                    weights,
                    pairs,
                    pairs.len(),
                    slot,
                ));
                assert(before.weight(slot) == was.field(name));
                assert(after.weight(slot) == layer.field(name));
                if weights::last_delivered::<T, Self>(weights, pairs, pairs.len(), slot) is Some {
                    Self::lemma_delivered_sized(before, weights, pairs, pairs.len(), slot);
                }
            }
            layer.lemma_sized_is_ready();
        }
    }
}

} // verus!
