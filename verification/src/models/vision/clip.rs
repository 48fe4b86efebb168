//! CLIP (Contrastive Language-Image Pre-training) dual-encoder model.
//!
//! Architecture: ViT image encoder + bidirectional text encoder,
//! aligned via learned projection into a shared embedding space.
//! Outputs paired embeddings for image-text similarity scoring.

use vstd::prelude::*;

use crate::buffer;
use crate::buffer::{copy_slice, extend, filled, AlignedBuffer, RawTensor};
use crate::config::{Binary64, NormConfig, BITS_1E_12, BITS_1E_6};
use crate::json;
use crate::json::{parse, Json, JsonTree};
use crate::models::vision::vit;
use crate::models::vision::vit::{
    plain_layers, run_layers, EncoderLayer, EncoderStructure, ViTConfig, ViTModel,
};
use crate::norm;
use crate::norm::apply_norm;
use crate::ops;
use crate::ops::{add_bias, add_vecs_inplace, dot_product, fit, linear_vec, row_slice};
use crate::scalar;
use crate::scalar::{Math, Scalar};
use crate::text;
use crate::text::{parse_indexed_key, str_eq, strip_prefix};
use crate::weights;
use crate::weights::{
    load_tolerant, KeyMapping, LoadResult, Refusal, Slot, TensorMap, WeightError, WeightTarget,
};

verus! {

/// Configuration for a CLIP dual-encoder model.
#[derive(Debug, Clone, Copy, PartialEq, Eq, Structural)]
pub struct CLIPConfig {
    /// Vision encoder (ViT) configuration.
    pub vision: ViTConfig,
    /// Text encoder hidden size.
    pub text_hidden_size: usize,
    /// Number of text encoder layers.
    pub text_num_layers: usize,
    /// Number of text encoder attention heads.
    pub text_num_heads: usize,
    /// Text encoder FFN intermediate size.
    pub text_intermediate_size: usize,
    /// Maximum text sequence length.
    pub text_max_position: usize,
    /// Vocabulary size.
    pub vocab_size: usize,
    /// Shared embedding dimension for alignment.
    pub embed_dim: usize,
}

impl CLIPConfig {
    /// Text encoder head dimension.
    pub fn text_head_dim(&self) -> (r: usize)
        requires
            self.text_num_heads > 0,
        ensures
            r == self.text_hidden_size / self.text_num_heads,
    {
        self.text_hidden_size / self.text_num_heads
    }
}

/// Output from a CLIP forward pass.
pub struct CLIPOutput<T> {
    /// Normalized image embedding: `[embed_dim]`.
    pub image_embedding: Vec<T>,
    /// Normalized text embedding: `[embed_dim]`.
    pub text_embedding: Vec<T>,
    /// Cosine similarity between image and text embeddings.
    pub similarity: T,
}

/// CLIP dual-encoder model: ViT image encoder + bidirectional text encoder.
pub struct CLIPModel<T> {
    pub config: CLIPConfig,
    /// ViT vision encoder.
    pub vision_model: ViTModel<T>,
    /// Bidirectional text encoder layers.
    pub text_encoder_layers: Vec<EncoderLayer<T>>,
    /// Token embeddings: `[vocab_size, text_hidden]`.
    pub text_embeddings: AlignedBuffer<T>,
    /// Positional embeddings: `[max_pos, text_hidden]`.
    pub text_pos_embed: AlignedBuffer<T>,
    /// Text encoder final norm.
    pub text_norm: NormConfig,
    /// Text encoder final norm weight.
    pub text_norm_weight: AlignedBuffer<T>,
    /// Text encoder final norm bias.
    pub text_norm_bias: AlignedBuffer<T>,
    /// Vision pre-layernorm weight. It is loaded with a checkpoint; the
    /// vision encoder does not read it.
    pub vision_pre_norm_weight: AlignedBuffer<T>,
    /// Vision pre-layernorm bias, loaded as the weight is.
    pub vision_pre_norm_bias: AlignedBuffer<T>,
    /// Vision projection: `[vision_hidden, embed_dim]`.
    pub vision_proj: AlignedBuffer<T>,
    /// Text projection: `[text_hidden, embed_dim]`.
    pub text_proj: AlignedBuffer<T>,
}

// ── Normalised vectors ───────────────────────────────────────────────

/// The length of a vector.
pub open spec fn length_of<T: Scalar, M: Math<T>>(v: Seq<T>) -> T {
    scalar::sqrt_of::<T, M>(ops::dot(v, v, v.len()))
}

/// A vector divided by its length; one that is too short stays as it is.
pub open spec fn unit_of<T: Scalar, M: Math<T>>(v: Seq<T>) -> Seq<T> {
    if scalar::is_greater::<T, M>(
        length_of::<T, M>(v),
        scalar::binary64_of::<T, M>(BITS_1E_12),
    ) {
        Seq::new(v.len(), |i: int| scalar::over(v[i], length_of::<T, M>(v)))
    } else {
        v
    }
}

/// L2-normalize a vector.
pub fn l2_normalize<T: Scalar, M: Math<T>>(v: &[T]) -> (r: Vec<T>)
    requires
        scalar::mathematics::<T, M>(),
    ensures
        r@ == unit_of::<T, M>(v@),
        r@.len() == v@.len(),
{
    let norm = M::sqrt(dot_product(v, v));
    if M::greater(norm, M::from_binary64(BITS_1E_12)) {
        let mut out: Vec<T> = Vec::with_capacity(v.len());
        for i in 0..v.len()
            invariant
                scalar::mathematics::<T, M>(),
                out@ == Seq::new(i as nat, |i: int| scalar::over(v@[i], norm)),
        {
            out.push(v[i] / norm);
            assert(out@ =~= Seq::new((i + 1) as nat, |i: int| scalar::over(v@[i], norm)));
        }
        out
    } else {
        copy_slice(v)
    }
}

/// A row in the shared embedding space: projected, or, without a projection,
/// cut off or filled up with zeros.
pub open spec fn projected<T: Scalar>(x: Seq<T>, w: Seq<T>, k: nat, n: nat) -> Seq<T> {
    if w.len() == 0 {
        ops::fitted(x, n)
    } else {
        ops::linear_row(x, w, Seq::empty(), k, n)
    }
}

fn project<T: Scalar>(x: &[T], w: &[T], k: usize, n: usize) -> (r: Vec<T>)
    requires
        scalar::arithmetic::<T>(),
        x@.len() == k,
        w@.len() == 0 || w@.len() == n * k,
    ensures
        r@ == projected(x@, w@, k as nat, n as nat),
        r@.len() == n,
{
    if w.len() == 0 {
        fit(x, n)
    } else {
        let none: Vec<T> = Vec::new();
        linear_vec(x, w, none.as_slice(), k, n)
    }
}

// ── Forward passes ───────────────────────────────────────────────────

impl<T: Scalar> CLIPModel<T> {
    /// The weights that an image is encoded with have their sizes.
    pub open spec fn vision_wf(&self) -> bool {
        &&& self.vision_model.wf()
        &&& self.vision_model.config.hidden_size == self.config.vision.hidden_size
        &&& self.vision_proj@.len() == 0 || self.vision_proj@.len() == self.config.embed_dim
            * self.config.vision.hidden_size
    }

    /// The weights that a text is encoded with have their sizes.
    pub open spec fn text_wf(&self) -> bool {
        let th = self.config.text_hidden_size as nat;
        &&& vit::stack_wf(self.text_encoder_layers@, th)
        &&& th <= self.text_norm_weight@.len()
        &&& self.text_norm_bias@.len() == 0 || th <= self.text_norm_bias@.len()
        &&& self.text_proj@.len() == 0 || self.text_proj@.len() == self.config.embed_dim * th
    }

    /// The embedding of an image.
    pub open spec fn image_embedding<M: Math<T>>(&self, image: Seq<T>, h: nat, w: nat) -> Seq<T> {
        unit_of::<T, M>(
            projected(
                self.vision_model.image_embedding::<M>(image, h, w),
                self.vision_proj@,
                self.config.vision.hidden_size as nat,
                self.config.embed_dim as nat,
            ),
        )
    }

    /// The embedding of a token; zeros for an id that the vocabulary or the
    /// table does not hold.
    pub open spec fn token_row(&self, id: u32) -> Seq<T> {
        let th = self.config.text_hidden_size;
        if id < self.config.vocab_size && (id + 1) * th <= self.text_embeddings@.len() {
            ops::row(self.text_embeddings@, id as int, th as int)
        } else {
            buffer::repeated(scalar::zero(), th as nat)
        }
    }

    /// The rows of a text before the encoder layers.
    pub open spec fn text_rows(&self, ids: Seq<u32>) -> Seq<T> {
        ops::sum_into(
            ops::blocks(ids.len(), |t: int| self.token_row(ids[t])),
            self.text_pos_embed@,
        )
    }

    /// The embedding of a text, read off its last token.
    pub open spec fn text_embedding<M: Math<T>>(&self, ids: Seq<u32>) -> Seq<T> {
        let th = self.config.text_hidden_size as nat;
        let rows = vit::encoded::<T, M>(
            self.text_encoder_layers@,
            self.text_rows(ids),
            ids.len(),
            self.text_encoder_layers@.len(),
        );
        let normed = ops::biased(
            norm::normed::<T, M>(self.text_norm, rows, self.text_norm_weight@, th, ids.len()),
            self.text_norm_bias@,
            ids.len(),
            th,
        );
        unit_of::<T, M>(
            projected(
                ops::row(normed, ids.len() - 1, th as int),
                self.text_proj@,
                th,
                self.config.embed_dim as nat,
            ),
        )
    }

    /// Build a CLIP model from config without weights.
    pub fn from_config(config: &CLIPConfig) -> (r: Self)
        requires
            config.text_num_heads > 0,
            config.vision.num_heads > 0,
        ensures
            r.config == *config,
            r.vision_model.is_new((ViTConfig { num_classes: 0, ..config.vision })),
            r.text_norm == (NormConfig::LayerNorm { eps: Binary64 { bits: BITS_1E_6 } }),
            r.text_encoder_layers@.len() == config.text_num_layers,
            forall|i: int|
                0 <= i < r.text_encoder_layers@.len() ==> (
                #[trigger] r.text_encoder_layers@[i]).unloaded()
                    && r.text_encoder_layers@[i].structure() == vit::plain_encoder(
                    config.text_hidden_size,
                    config.text_num_heads,
                    (config.text_hidden_size as int / config.text_num_heads as int) as usize,
                    config.text_intermediate_size,
                ),
            forall|s: Slot|
                (#[trigger] r.weight(s)) is Some ==> r.weight(s)->0 == Seq::<T>::empty(),
    {
        let text_encoder_layers = plain_layers(
            config.text_num_layers,
            config.text_hidden_size,
            config.text_num_heads,
            config.text_head_dim(),
            config.text_intermediate_size,
        );
        // Vision encoder with no classifier head
        let mut vision_config = config.vision;
        vision_config.num_classes = 0;
        let vision_model = ViTModel::from_config(&vision_config);
        let r = CLIPModel {
            config: *config,
            vision_model,
            text_encoder_layers,
            text_embeddings: AlignedBuffer::empty(),
            text_pos_embed: AlignedBuffer::empty(),
            text_norm: NormConfig::LayerNorm { eps: Binary64 { bits: BITS_1E_6 } },
            text_norm_weight: AlignedBuffer::empty(),
            text_norm_bias: AlignedBuffer::empty(),
            vision_pre_norm_weight: AlignedBuffer::empty(),
            vision_pre_norm_bias: AlignedBuffer::empty(),
            vision_proj: AlignedBuffer::empty(),
            text_proj: AlignedBuffer::empty(),
        };
        proof {
            r.lemma_unloaded();
        }
        r
    }

    proof fn lemma_unloaded(&self)
        requires
            forall|i: int|
                0 <= i < self.text_encoder_layers@.len() ==> (
                #[trigger] self.text_encoder_layers@[i]).unloaded(),
            forall|i: int|
                0 <= i < self.vision_model.layers@.len() ==> (
                #[trigger] self.vision_model.layers@[i]).unloaded(),
            forall|s: Slot|
                (#[trigger] self.vision_model.weight(s)) is Some ==> self.vision_model.weight(s)->0
                    == Seq::<T>::empty(),
            self.text_embeddings@ == Seq::<T>::empty(),
            self.text_pos_embed@ == Seq::<T>::empty(),
            self.text_norm_weight@ == Seq::<T>::empty(),
            self.text_norm_bias@ == Seq::<T>::empty(),
            self.vision_pre_norm_weight@ == Seq::<T>::empty(),
            self.vision_pre_norm_bias@ == Seq::<T>::empty(),
            self.vision_proj@ == Seq::<T>::empty(),
            self.text_proj@ == Seq::<T>::empty(),
        ensures
            forall|s: Slot|
                (#[trigger] self.weight(s)) is Some ==> self.weight(s)->0 == Seq::<T>::empty(),
    {
        let v = self.vision_model;
        reveal_strlit("patch_proj");
        reveal_strlit("patch_proj_bias");
        reveal_strlit("cls_token");
        reveal_strlit("pos_embed");
        reveal_strlit("norm.weight");
        reveal_strlit("norm.bias");
        assert(v.weight(Slot::Top("patch_proj"@)) == Some(v.patch_proj@));
        assert("cls_token"@ != "patch_proj"@ && "cls_token"@ != "patch_proj_bias"@) by {
            assert("cls_token"@[0] == 'c');
            assert("patch_proj"@[0] == 'p' && "patch_proj_bias"@[0] == 'p');
        }
        assert(v.weight(Slot::Top("cls_token"@)) == Some(v.cls_token@));
        assert("pos_embed"@ != "patch_proj"@ && "pos_embed"@ != "patch_proj_bias"@
            && "pos_embed"@ != "cls_token"@) by {
            assert("pos_embed"@[1] == 'o' && "pos_embed"@[0] == 'p');
            assert("patch_proj"@[1] == 'a' && "patch_proj_bias"@[1] == 'a');
            assert("cls_token"@[0] == 'c');
        }
        assert(v.weight(Slot::Top("pos_embed"@)) == Some(v.pos_embed@));
        assert("norm.weight"@[0] == 'n' && "norm.bias"@[0] == 'n');
        assert("norm.weight"@[5] == 'w' && "norm.bias"@[5] == 'b');
        assert("patch_proj"@[0] == 'p' && "patch_proj_bias"@[0] == 'p' && "pos_embed"@[0] == 'p');
        assert("cls_token"@[0] == 'c');
        assert(v.weight(Slot::Top("norm.weight"@)) == Some(v.final_norm_weight@));
        assert(v.weight(Slot::Top("norm.bias"@)) == Some(v.final_norm_bias@));
        assert forall|s: Slot| (#[trigger] self.weight(s)) is Some implies self.weight(s)->0
            == Seq::<T>::empty() by {
            match s {
                Slot::Layer(stack, i, field) => {
                    if stack == "vision"@ && 0 <= i < v.layers@.len() {
                        assert(v.layers@[i].unloaded());
                        assert(v.layers@[i].field(field) is Some);
                    } else if stack == "text"@ && 0 <= i < self.text_encoder_layers@.len() {
                        assert(self.text_encoder_layers@[i].unloaded());
                        assert(self.text_encoder_layers@[i].field(field) is Some);
                    }
                },
                Slot::Top(name) => {},
            }
        }
    }

    /// Encode an image and return a normalized embedding vector `[embed_dim]`.
    pub fn encode_image<M: Math<T>>(&self, image: &[T], h: usize, w: usize) -> (r: Vec<T>)
        requires
            scalar::mathematics::<T, M>(),
            self.vision_wf(),
            self.vision_model.image_fits(image@, h as int, w as int),
        ensures
            r@ == self.image_embedding::<M>(image@, h as nat, w as nat),
            r@.len() == self.config.embed_dim,
    {
        // Run ViT forward to get CLS embedding
        let vit_output = self.vision_model.forward_image::<M>(image, h, w);
        // Project to shared embedding space
        let p = project(
            vit_output.embeddings.as_slice(),
            self.vision_proj.as_slice(),
            self.config.vision.hidden_size,
            self.config.embed_dim,
        );
        l2_normalize::<T, M>(p.as_slice())
    }

    /// Encode text token IDs and return a normalized embedding vector `[embed_dim]`.
    pub fn encode_text<M: Math<T>>(&self, token_ids: &[u32]) -> (r: Vec<T>)
        requires
            scalar::mathematics::<T, M>(),
            self.text_wf(),
            token_ids@.len() > 0,
        ensures
            r@ == self.text_embedding::<M>(token_ids@),
            r@.len() == self.config.embed_dim,
    {
        let th = self.config.text_hidden_size;
        let seq_len = token_ids.len();
        // 1. Token embeddings: lookup each token
        let ghost f = |t: int| self.token_row(token_ids@[t]);
        let mut x: Vec<T> = Vec::new();
        assert(0 * th == 0) by (nonlinear_arith);
        for t in 0..seq_len
            invariant
                scalar::mathematics::<T, M>(),
                th == self.config.text_hidden_size,
                seq_len == token_ids@.len(),
                f == (|t: int| self.token_row(token_ids@[t])),
                x@ == ops::blocks(t as nat, f),
                x@.len() == t * th,
        {
            let row = self.embed_token(token_ids[t]);
            extend(&mut x, row.as_slice());
            assert(x@ =~= ops::blocks((t + 1) as nat, f));
            assert((t + 1) * th == t * th + th) by (nonlinear_arith);
        }
        // 2. Add positional embeddings
        add_vecs_inplace(&mut x, self.text_pos_embed.as_slice());
        // 3. Run through text encoder layers (bidirectional)
        let rows = run_layers::<T, M>(&self.text_encoder_layers, x, seq_len, th);
        // 4. Apply final norm
        let mut normed = apply_norm::<T, M>(
            rows.as_slice(),
            self.text_norm_weight.as_slice(),
            self.text_norm,
            th,
            seq_len,
        );
        add_bias(&mut normed, self.text_norm_bias.as_slice(), seq_len, th);
        // 5. Take EOS token (last token in sequence)
        proof {
            ops::lemma_row_bounds(seq_len - 1, seq_len as int, th as int);
        }
        let eos = row_slice(normed.as_slice(), seq_len - 1, th);
        // 6. Project to shared embedding space
        let p = project(eos, self.text_proj.as_slice(), th, self.config.embed_dim);
        // 7. L2 normalize
        l2_normalize::<T, M>(p.as_slice())
    }

    fn embed_token(&self, id: u32) -> (r: Vec<T>)
        requires
            scalar::arithmetic::<T>(),
        ensures
            r@ == self.token_row(id),
            r@.len() == self.config.text_hidden_size,
    {
        let th = self.config.text_hidden_size;
        if (id as u64) < self.config.vocab_size as u64 {
            let at = id as usize;
            let n = self.text_embeddings.len();
            // The row lies within the table: (at + 1) * th <= n
            if th == 0 || at < n / th {
                proof {
                    if th > 0 {
                        lemma_row_within(at as int, n as int, th as int);
                    } else {
                        assert((at + 1) * th == 0) by (nonlinear_arith)
                            requires
                                th == 0,
                        ;
                    }
                    ops::lemma_row_bounds(at as int, at + 1, th as int);
                }
                return copy_slice(row_slice(self.text_embeddings.as_slice(), at, th));
            }
            proof {
                lemma_row_without(at as int, n as int, th as int);
            }
        }
        filled(T::default(), th)
    }

    /// Compute image-text similarity using both encoders.
    pub fn similarity<M: Math<T>>(&self, image: &[T], h: usize, w: usize, token_ids: &[u32]) -> (r:
        CLIPOutput<T>)
        requires
            scalar::mathematics::<T, M>(),
            self.vision_wf(),
            self.text_wf(),
            self.vision_model.image_fits(image@, h as int, w as int),
            token_ids@.len() > 0,
        ensures
            r.image_embedding@ == self.image_embedding::<M>(image@, h as nat, w as nat),
            r.text_embedding@ == self.text_embedding::<M>(token_ids@),
            r.similarity == ops::dot(
                r.image_embedding@,
                r.text_embedding@,
                self.config.embed_dim as nat,
            ),
    {
        let image_embedding = self.encode_image::<M>(image, h, w);
        let text_embedding = self.encode_text::<M>(token_ids);
        // Cosine similarity (embeddings are already L2-normalized)
        let similarity = dot_product(image_embedding.as_slice(), text_embedding.as_slice());
        CLIPOutput { image_embedding, text_embedding, similarity }
    }
}

proof fn lemma_row_within(at: int, n: int, th: int)
    requires
        0 <= at < n / th,
        th > 0,
        n >= 0,
    ensures
        (at + 1) * th <= n,
{
    vstd::arithmetic::div_mod::lemma_fundamental_div_mod(n, th);
    assert((at + 1) * th <= (n / th) * th) by (nonlinear_arith)
        requires
            at + 1 <= n / th,
            th > 0,
    ;
    assert((n / th) * th == th * (n / th)) by (nonlinear_arith);
}

proof fn lemma_row_without(at: int, n: int, th: int)
    requires
        at >= n / th,
        th > 0,
        n >= 0,
    ensures
        (at + 1) * th > n,
{
    vstd::arithmetic::div_mod::lemma_fundamental_div_mod(n, th);
    assert((at + 1) * th >= (n / th + 1) * th) by (nonlinear_arith)
        requires
            at >= n / th,
            th > 0,
    ;
    assert((n / th + 1) * th == th * (n / th) + th) by (nonlinear_arith);
}

// ── Weights ──────────────────────────────────────────────────────────

/// The vision encoder's own weights, "vision." stripped.
pub open spec fn is_vision_name(name: Seq<char>) -> bool {
    ||| name == "patch_proj"@
    ||| name == "cls_token"@
    ||| name == "pos_embed"@
    ||| name == "pre_norm.weight"@
    ||| name == "pre_norm.bias"@
    ||| name == "norm.weight"@
    ||| name == "norm.bias"@
}

/// The text encoder's own weights, "text." stripped.
pub open spec fn is_text_name(name: Seq<char>) -> bool {
    ||| name == "embeddings"@
    ||| name == "pos_embed"@
    ||| name == "norm.weight"@
    ||| name == "norm.bias"@
}

/// Where a key leads, "vision." stripped.
pub open spec fn vision_slot(rest: Seq<char>) -> Option<Slot> {
    if is_vision_name(rest) {
        Some(Slot::Top("vision."@ + rest))
    } else {
        match text::split_indexed_key("layers["@, rest) {
            Some((i, field)) => Some(Slot::Layer("vision"@, i as int, field)),
            None => None,
        }
    }
}

/// Where a key leads, "text." stripped.
pub open spec fn text_slot(rest: Seq<char>) -> Option<Slot> {
    if is_text_name(rest) {
        Some(Slot::Top("text."@ + rest))
    } else {
        match text::split_indexed_key("layers["@, rest) {
            Some((i, field)) => Some(Slot::Layer("text"@, i as int, field)),
            None => None,
        }
    }
}

pub open spec fn unknown_key_text(key: Seq<char>) -> Seq<char> {
    "Unknown CLIP key: "@ + key
}

/// What loading leaves as it is.
pub struct CLIPStructure<T> {
    pub config: CLIPConfig,
    pub vision_config: ViTConfig,
    pub vision_norm: NormConfig,
    pub vision_layers: Seq<EncoderStructure>,
    pub text_norm: NormConfig,
    pub text_layers: Seq<EncoderStructure>,
    pub patch_proj_bias: Seq<T>,
    pub classifier_head: Option<AlignedBuffer<T>>,
    pub classifier_bias: Option<AlignedBuffer<T>>,
    pub class_labels: Vec<String>,
    pub num_meta_tokens: usize,
    pub meta_token: Seq<T>,
    pub enc_proj_weight: Seq<T>,
    pub enc_proj_bias: Seq<T>,
}

impl<T: Scalar> WeightTarget<T> for CLIPModel<T> {
    type Structure = CLIPStructure<T>;

    open spec fn structure(&self) -> CLIPStructure<T> {
        CLIPStructure {
            config: self.config,
            vision_config: self.vision_model.config,
            vision_norm: self.vision_model.final_norm,
            vision_layers: self.vision_model.layers@.map_values(
                |l: EncoderLayer<T>| l.structure(),
            ),
            text_norm: self.text_norm,
            text_layers: self.text_encoder_layers@.map_values(|l: EncoderLayer<T>| l.structure()),
            patch_proj_bias: self.vision_model.patch_proj_bias@,
            classifier_head: self.vision_model.classifier_head,
            classifier_bias: self.vision_model.classifier_bias,
            class_labels: self.vision_model.class_labels,
            num_meta_tokens: self.vision_model.num_meta_tokens,
            meta_token: self.vision_model.meta_token@,
            enc_proj_weight: self.vision_model.enc_proj_weight@,
            enc_proj_bias: self.vision_model.enc_proj_bias@,
        }
    }

    open spec fn slot(key: Seq<char>) -> Option<Slot> {
        match text::after_prefix(key, "vision."@) {
            Some(rest) => vision_slot(rest),
            None => match text::after_prefix(key, "text."@) {
                Some(rest) => text_slot(rest),
                None => if key == "vision_proj"@ || key == "text_proj"@ {
                    Some(Slot::Top(key))
                } else {
                    None
                },
            },
        }
    }

    open spec fn weight(&self, slot: Slot) -> Option<Seq<T>> {
        match slot {
            Slot::Top(key) => match text::after_prefix(key, "vision."@) {
                Some(rest) => self.vision_weight(rest),
                None => match text::after_prefix(key, "text."@) {
                    Some(rest) => self.text_weight(rest),
                    None => if key == "vision_proj"@ {
                        Some(self.vision_proj@)
                    } else if key == "text_proj"@ {
                        Some(self.text_proj@)
                    } else {
                        None
                    },
                },
            },
            Slot::Layer(stack, i, field) => if stack == "vision"@ && 0 <= i
                < self.vision_model.layers@.len() {
                self.vision_model.layers@[i].field(field)
            } else if stack == "text"@ && 0 <= i < self.text_encoder_layers@.len() {
                self.text_encoder_layers@[i].field(field)
            } else {
                None
            },
        }
    }

    /// Every weight that the model has stands in a buffer.
    open spec fn vacant(&self, slot: Slot) -> bool {
        false
    }

    /// A key that is neither vision nor text nor a projection is turned down.
    open spec fn refusal(
        structure: CLIPStructure<T>,
        key: Seq<char>,
        shape: Seq<usize>,
    ) -> Option<Refusal> {
        if "vision."@.is_prefix_of(key) || "text."@.is_prefix_of(key) || key == "vision_proj"@
            || key == "text_proj"@ {
            None
        } else {
            Some(Refusal::InvalidFormat(unknown_key_text(key)))
        }
    }

    open spec fn loadable(structure: CLIPStructure<T>) -> bool {
        true
    }

    /// Tensors of any length are taken.
    open spec fn fits(structure: CLIPStructure<T>, key: Seq<char>, len: nat) -> bool {
        true
    }

    open spec fn expected(&self) -> Seq<Seq<char>> {
        seq![
            "vision.patch_proj"@,
            "vision.cls_token"@,
            "vision.pos_embed"@,
            "vision.pre_norm.weight"@,
            "vision.pre_norm.bias"@,
        ] + stack_keys("vision."@, self.vision_model.layers@.len()) + seq![
            "vision.norm.weight"@,
            "vision.norm.bias"@,
            "text.embeddings"@,
            "text.pos_embed"@,
        ] + stack_keys("text."@, self.text_encoder_layers@.len()) + seq![
            "text.norm.weight"@,
            "text.norm.bias"@,
            "vision_proj"@,
            "text_proj"@,
        ]
    }

    fn put(&mut self, key: &str, tensor: &RawTensor<T>) -> (r: Result<(), WeightError>) {
        self.set_weight(key, tensor)
    }

    fn expected_keys(&self) -> (r: Vec<String>) {
        self.expected_weight_keys()
    }
}

/// The keys of the layers of an encoder, behind a prefix.
pub open spec fn stack_keys(prefix: Seq<char>, n: nat) -> Seq<Seq<char>> {
    ops::blocks(
        n,
        |i: int| vit::encoder_keys(i as nat).map_values(|k: Seq<char>| prefix + k),
    )
}

/// Adds the keys of an encoder's layers, behind a prefix, to a list.
fn push_stack_keys<T: Scalar>(keys: &mut Vec<String>, prefix: &str, layers: &Vec<EncoderLayer<T>>)
    ensures
        weights::texts(final(keys)@) == weights::texts(old(keys)@) + stack_keys(
            prefix@,
            layers@.len(),
        ),
{
    let ghost before = weights::texts(keys@);
    assert(before + stack_keys(prefix@, 0) =~= before);
    for i in 0..layers.len()
        invariant
            weights::texts(keys@) == before + stack_keys(prefix@, i as nat),
    {
        let own = layers[i].weight_keys(i);
        let ghost all = vit::encoder_keys(i as nat).map_values(|k: Seq<char>| prefix@ + k);
        let ghost so_far = weights::texts(keys@);
        assert(so_far + all.take(0) =~= so_far);
        for j in 0..own.len()
            invariant
                weights::texts(own@) == vit::encoder_keys(i as nat),
                all == vit::encoder_keys(i as nat).map_values(|k: Seq<char>| prefix@ + k),
                weights::texts(keys@) == so_far + all.take(j as int),
        {
            let mut key = prefix.to_owned();
            key.append(own[j].as_str());
            assert(weights::texts(own@)[j as int] == own@[j as int]@);
            assert(all[j as int] == key@);
            let ghost held = keys@;
            keys.push(key);
            assert(weights::texts(keys@) =~= weights::texts(held).push(key@));
            assert(all.take(j + 1) =~= all.take(j as int).push(all[j as int]));
            assert(weights::texts(keys@) =~= so_far + all.take(j + 1));
        }
        assert(weights::texts(own@).len() == own@.len());
        assert(all.take(own@.len() as int) =~= all);
        assert(weights::texts(keys@) =~= before + stack_keys(prefix@, (i + 1) as nat));
    }
}

/// A key is its prefix and what is left behind it.
proof fn lemma_prefixed(p: Seq<char>)
    ensures
        forall|k: Seq<char>|
            (#[trigger] text::after_prefix(k, p)) is Some ==> k == p + text::after_prefix(k, p)->0,
        forall|rest: Seq<char>| text::after_prefix(#[trigger] (p + rest), p) == Some(rest),
{
    assert forall|k: Seq<char>| (#[trigger] text::after_prefix(k, p)) is Some implies k == p
        + text::after_prefix(k, p)->0 by {
        assert(k =~= p + k.skip(p.len() as int));
    }
    assert forall|rest: Seq<char>| text::after_prefix(#[trigger] (p + rest), p) == Some(rest) by {
        assert((p + rest).skip(p.len() as int) =~= rest);
    }
}

/// A key of one encoder is none of the other's.
proof fn lemma_prefixes_differ()
    ensures
        forall|rest: Seq<char>|
            text::after_prefix(#[trigger] ("text."@ + rest), "vision."@) is None,
        forall|k: Seq<char>|
            text::after_prefix(k, "vision."@) is Some ==> #[trigger] text::after_prefix(
                k,
                "text."@,
            ) is None,
        "vision"@ != "text"@,
{
    reveal_strlit("vision.");
    reveal_strlit("text.");
    reveal_strlit("vision");
    reveal_strlit("text");
    assert("vision."@[0] == 'v' && "text."@[0] == 't');
    assert("vision"@[0] == 'v' && "text"@[0] == 't');
    assert forall|rest: Seq<char>| text::after_prefix(
        #[trigger] ("text."@ + rest),
        "vision."@,
    ) is None by {
        assert(("text."@ + rest)[0] == 't');
    }
    assert forall|k: Seq<char>| text::after_prefix(
        k,
        "vision."@,
    ) is Some implies #[trigger] text::after_prefix(k, "text."@) is None by {
        assert(k[0] == 'v');
    }
}

/// A layer key is none of the encoders' own keys.
proof fn lemma_layer_key_is_no_name(i: nat, field: Seq<char>)
    ensures
        !is_vision_name(text::indexed_key("layers["@, i, field)),
        !is_text_name(text::indexed_key("layers["@, i, field)),
{
    reveal_strlit("layers[");
    reveal_strlit("cls_token");
    reveal_strlit("embeddings");
    reveal_strlit("norm.bias");
    reveal_strlit("norm.weight");
    reveal_strlit("patch_proj");
    reveal_strlit("pos_embed");
    reveal_strlit("pre_norm.bias");
    reveal_strlit("pre_norm.weight");
    let key = text::indexed_key("layers["@, i, field);
    assert(key[0] == 'l');
    assert("cls_token"@[0] == 'c');
    assert("embeddings"@[0] == 'e');
    assert("norm.bias"@[0] == 'n');
    assert("norm.weight"@[0] == 'n');
    assert("patch_proj"@[0] == 'p');
    assert("pos_embed"@[0] == 'p');
    assert("pre_norm.bias"@[0] == 'p');
    assert("pre_norm.weight"@[0] == 'p');
}

/// The keys of the encoders' own weights are their prefixes and names, and the
/// projections' keys have neither prefix.
proof fn lemma_own_keys()
    ensures
        "vision.patch_proj"@ == "vision."@ + "patch_proj"@,
        "vision.cls_token"@ == "vision."@ + "cls_token"@,
        "vision.pos_embed"@ == "vision."@ + "pos_embed"@,
        "vision.pre_norm.weight"@ == "vision."@ + "pre_norm.weight"@,
        "vision.pre_norm.bias"@ == "vision."@ + "pre_norm.bias"@,
        "vision.norm.weight"@ == "vision."@ + "norm.weight"@,
        "vision.norm.bias"@ == "vision."@ + "norm.bias"@,
        "text.embeddings"@ == "text."@ + "embeddings"@,
        "text.pos_embed"@ == "text."@ + "pos_embed"@,
        "text.norm.weight"@ == "text."@ + "norm.weight"@,
        "text.norm.bias"@ == "text."@ + "norm.bias"@,
        text::after_prefix("vision_proj"@, "vision."@) is None,
        text::after_prefix("vision_proj"@, "text."@) is None,
        text::after_prefix("text_proj"@, "vision."@) is None,
        text::after_prefix("text_proj"@, "text."@) is None,
{
    reveal_strlit("vision.");
    reveal_strlit("text.");
    reveal_strlit("vision.patch_proj");
    reveal_strlit("vision.cls_token");
    reveal_strlit("vision.pos_embed");
    reveal_strlit("vision.pre_norm.weight");
    reveal_strlit("vision.pre_norm.bias");
    reveal_strlit("vision.norm.weight");
    reveal_strlit("vision.norm.bias");
    reveal_strlit("text.embeddings");
    reveal_strlit("text.pos_embed");
    reveal_strlit("text.norm.weight");
    reveal_strlit("text.norm.bias");
    reveal_strlit("cls_token");
    reveal_strlit("embeddings");
    reveal_strlit("norm.bias");
    reveal_strlit("norm.weight");
    reveal_strlit("patch_proj");
    reveal_strlit("pos_embed");
    reveal_strlit("pre_norm.bias");
    reveal_strlit("pre_norm.weight");
    reveal_strlit("vision_proj");
    reveal_strlit("text_proj");
    assert("vision.patch_proj"@ =~= "vision."@ + "patch_proj"@);
    assert("vision.cls_token"@ =~= "vision."@ + "cls_token"@);
    assert("vision.pos_embed"@ =~= "vision."@ + "pos_embed"@);
    assert("vision.pre_norm.weight"@ =~= "vision."@ + "pre_norm.weight"@);
    assert("vision.pre_norm.bias"@ =~= "vision."@ + "pre_norm.bias"@);
    assert("vision.norm.weight"@ =~= "vision."@ + "norm.weight"@);
    assert("vision.norm.bias"@ =~= "vision."@ + "norm.bias"@);
    assert("text.embeddings"@ =~= "text."@ + "embeddings"@);
    assert("text.pos_embed"@ =~= "text."@ + "pos_embed"@);
    assert("text.norm.weight"@ =~= "text."@ + "norm.weight"@);
    assert("text.norm.bias"@ =~= "text."@ + "norm.bias"@);
    assert("vision_proj"@[0] == 'v' && "vision_proj"@[6] == '_' && "vision."@[6] == '.');
    assert("text_proj"@[0] == 't' && "text_proj"@[4] == '_' && "text."@[4] == '.');
    assert("vision."@[0] == 'v' && "text."@[0] == 't');
}

impl<T: Scalar> CLIPModel<T> {
    /// One of the vision encoder's own weights.
    pub open spec fn vision_weight(&self, name: Seq<char>) -> Option<Seq<T>> {
        if name == "patch_proj"@ {
            Some(self.vision_model.patch_proj@)
        } else if name == "cls_token"@ {
            Some(self.vision_model.cls_token@)
        } else if name == "pos_embed"@ {
            Some(self.vision_model.pos_embed@)
        } else if name == "pre_norm.weight"@ {
            Some(self.vision_pre_norm_weight@)
        } else if name == "pre_norm.bias"@ {
            Some(self.vision_pre_norm_bias@)
        } else if name == "norm.weight"@ {
            Some(self.vision_model.final_norm_weight@)
        } else if name == "norm.bias"@ {
            Some(self.vision_model.final_norm_bias@)
        } else {
            None
        }
    }

    /// One of the text encoder's own weights.
    pub open spec fn text_weight(&self, name: Seq<char>) -> Option<Seq<T>> {
        if name == "embeddings"@ {
            Some(self.text_embeddings@)
        } else if name == "pos_embed"@ {
            Some(self.text_pos_embed@)
        } else if name == "norm.weight"@ {
            Some(self.text_norm_weight@)
        } else if name == "norm.bias"@ {
            Some(self.text_norm_bias@)
        } else {
            None
        }
    }

    /// All target weight keys this model expects (Synapse naming).
    pub fn expected_weight_keys(&self) -> (r: Vec<String>)
        ensures
            weights::texts(r@) == self.expected(),
    {
        let mut keys: Vec<String> = Vec::new();
        // Vision encoder keys (prefixed with "vision.")
        keys.push("vision.patch_proj".to_owned());
        keys.push("vision.cls_token".to_owned());
        keys.push("vision.pos_embed".to_owned());
        keys.push("vision.pre_norm.weight".to_owned());
        keys.push("vision.pre_norm.bias".to_owned());
        let ghost a = seq![
            "vision.patch_proj"@,
            "vision.cls_token"@,
            "vision.pos_embed"@,
            "vision.pre_norm.weight"@,
            "vision.pre_norm.bias"@,
        ];
        assert(weights::texts(keys@) =~= a);
        push_stack_keys(&mut keys, "vision.", &self.vision_model.layers);
        let ghost so_far = weights::texts(keys@);
        keys.push("vision.norm.weight".to_owned());
        keys.push("vision.norm.bias".to_owned());
        // Text encoder keys (prefixed with "text.")
        keys.push("text.embeddings".to_owned());
        keys.push("text.pos_embed".to_owned());
        assert(weights::texts(keys@) =~= so_far + seq![
            "vision.norm.weight"@,
            "vision.norm.bias"@,
            "text.embeddings"@,
            "text.pos_embed"@,
        ]);
        push_stack_keys(&mut keys, "text.", &self.text_encoder_layers);
        let ghost so_far = weights::texts(keys@);
        keys.push("text.norm.weight".to_owned());
        keys.push("text.norm.bias".to_owned());
        // Projection weights
        keys.push("vision_proj".to_owned());
        keys.push("text_proj".to_owned());
        assert(weights::texts(keys@) =~= so_far + seq![
            "text.norm.weight"@,
            "text.norm.bias"@,
            "vision_proj"@,
            "text_proj"@,
        ]);
        keys
    }

    /// Every expected key leads to a weight that the model has.
    pub proof fn lemma_expected_keys_lead(&self)
        ensures
            weights::all_lead::<T, Self>(*self, self.expected()),
    {
        let n = self.vision_model.layers@.len();
        let m = self.text_encoder_layers@.len();
        assert(self.vision_model.layers.len() == n && self.text_encoder_layers.len() == m);
        lemma_prefixed("vision."@);
        lemma_prefixed("text."@);
        lemma_prefixes_differ();
        lemma_own_keys();
        let v = |i: int| vit::encoder_keys(i as nat).map_values(|k: Seq<char>| "vision."@ + k);
        assert forall|i: int| 0 <= i < n implies weights::all_lead::<T, Self>(
            *self,
            #[trigger] v(i),
        ) by {
            assert forall|j: int| 0 <= j < v(i).len() implies weights::leads_to_weight::<T, Self>(
                *self,
                #[trigger] v(i)[j],
            ) by {
                self.vision_model.layers@[i].lemma_keys_name_weights(i as nat, j);
                lemma_layer_key_is_no_name(i as nat, vit::encoder_fields()[j]);
                assert(v(i)[j] == "vision."@ + vit::encoder_keys(i as nat)[j]);
            }
        }
        let t = |i: int| vit::encoder_keys(i as nat).map_values(|k: Seq<char>| "text."@ + k);
        assert forall|i: int| 0 <= i < m implies weights::all_lead::<T, Self>(
            *self,
            #[trigger] t(i),
        ) by {
            assert forall|j: int| 0 <= j < t(i).len() implies weights::leads_to_weight::<T, Self>(
                *self,
                #[trigger] t(i)[j],
            ) by {
                self.text_encoder_layers@[i].lemma_keys_name_weights(i as nat, j);
                lemma_layer_key_is_no_name(i as nat, vit::encoder_fields()[j]);
                assert(t(i)[j] == "text."@ + vit::encoder_keys(i as nat)[j]);
            }
        }
        weights::lemma_blocks_lead::<T, Self>(*self, n, v);
        weights::lemma_blocks_lead::<T, Self>(*self, m, t);
        let a = seq![
            "vision.patch_proj"@,
            "vision.cls_token"@,
            "vision.pos_embed"@,
            "vision.pre_norm.weight"@,
            "vision.pre_norm.bias"@,
        ];
        let b = seq![
            "vision.norm.weight"@,
            "vision.norm.bias"@,
            "text.embeddings"@,
            "text.pos_embed"@,
        ];
        let c = seq!["text.norm.weight"@, "text.norm.bias"@, "vision_proj"@, "text_proj"@];
        let vision = stack_keys("vision."@, n);
        let text = stack_keys("text."@, m);
        assert(vision == ops::blocks(n, v) && text == ops::blocks(m, t));
        assert(weights::all_lead::<T, Self>(*self, a));
        assert(weights::all_lead::<T, Self>(*self, b));
        assert(weights::all_lead::<T, Self>(*self, c));
        weights::lemma_lists_lead::<T, Self>(*self, a, vision);
        weights::lemma_lists_lead::<T, Self>(*self, a + vision, b);
        weights::lemma_lists_lead::<T, Self>(*self, a + vision + b, text);
        weights::lemma_lists_lead::<T, Self>(*self, a + vision + b + text, c);
    }

    /// Load weights from source tensors whose keys are renamed by `mapping`.
    /// A key that the model does not know is passed over.
    pub fn load_weights(&mut self, weights: &TensorMap<T>, mapping: KeyMapping) -> (r: Result<
        LoadResult,
        WeightError,
    >)
        requires
            weights.wf(),
        ensures
            final(self).structure() == old(self).structure(),
            forall|s: Slot| #[trigger]
                final(self).weight(s) == weights::after_loading(
                    *old(self),
                    *weights,
                    mapping.mapping@,
                    mapping.mapping@.len(),
                    s,
                ),
            match r {
                Ok(result) => {
                    &&& weights::texts(result.missing@) == old(self).expected().filter(
                        |k: Seq<char>|
                            !weights::delivered(
                                *weights,
                                mapping.mapping@,
                                mapping.mapping@.len() as int,
                                k,
                            ),
                    )
                    &&& result.unexpected == mapping.unmapped
                },
                Err(_) => false,
            },
    {
        Ok(load_tolerant(self, weights, mapping))
    }

    /// Assign a weight by its Synapse target key.
    pub fn set_weight(&mut self, key: &str, tensor: &RawTensor<T>) -> (r: Result<(), WeightError>)
        ensures
            final(self).structure() == old(self).structure(),
            match r {
                Ok(()) => {
                    &&& Self::refusal(old(self).structure(), key@, tensor.shape@) is None
                    &&& forall|s: Slot| #[trigger]
                        final(self).weight(s) == weights::write(
                            old(self).weight(s),
                            Self::slot(key@) == Some(s),
                            tensor.data@,
                        )
                },
                Err(e) => {
                    &&& Self::refusal(old(self).structure(), key@, tensor.shape@) == Some(e@)
                    &&& *final(self) == *old(self)
                },
            },
    {
        if let Some(rest) = strip_prefix(key, "vision.") {
            self.set_vision_weight(rest, tensor)
        } else if let Some(rest) = strip_prefix(key, "text.") {
            self.set_text_weight(rest, tensor)
        } else if str_eq(key, "vision_proj") {
            self.vision_proj = tensor.data.duplicate();
            Ok(())
        } else if str_eq(key, "text_proj") {
            self.text_proj = tensor.data.duplicate();
            Ok(())
        } else {
            let mut e = "Unknown CLIP key: ".to_owned();
            e.append(key);
            Err(WeightError::InvalidFormat(e))
        }
    }

    /// Set a vision encoder weight. `key` is after stripping the `"vision."` prefix.
    pub fn set_vision_weight(&mut self, key: &str, tensor: &RawTensor<T>) -> (r: Result<
        (),
        WeightError,
    >)
        ensures
            r is Ok,
            final(self).structure() == old(self).structure(),
            forall|s: Slot| #[trigger]
                final(self).weight(s) == weights::write(
                    old(self).weight(s),
                    vision_slot(key@) == Some(s),
                    tensor.data@,
                ),
    {
        let ghost start = *self;
        proof {
            lemma_prefixed("vision."@);
            lemma_prefixes_differ();
        }
        if str_eq(key, "patch_proj") {
            self.vision_model.patch_proj = tensor.data.duplicate();
        } else if str_eq(key, "cls_token") {
            self.vision_model.cls_token = tensor.data.duplicate();
        } else if str_eq(key, "pos_embed") {
            self.vision_model.pos_embed = tensor.data.duplicate();
        } else if str_eq(key, "pre_norm.weight") {
            self.vision_pre_norm_weight = tensor.data.duplicate();
        } else if str_eq(key, "pre_norm.bias") {
            self.vision_pre_norm_bias = tensor.data.duplicate();
        } else if str_eq(key, "norm.weight") {
            self.vision_model.final_norm_weight = tensor.data.duplicate();
        } else if str_eq(key, "norm.bias") {
            self.vision_model.final_norm_bias = tensor.data.duplicate();
        } else {
            match parse_layer_key(key) {
                Some((idx, field)) => {
                    if idx < self.vision_model.layers.len() {
                        let set = self.vision_model.layers[idx].set_weight(field, tensor);
                        assert(set is Ok);
                        assert(self.structure().vision_layers
                            =~= start.structure().vision_layers);
                    }
                },
                None => {},
            }
        }
        Ok(())
    }

    /// Set a text encoder weight. `key` is after stripping the `"text."` prefix.
    pub fn set_text_weight(&mut self, key: &str, tensor: &RawTensor<T>) -> (r: Result<
        (),
        WeightError,
    >)
        ensures
            r is Ok,
            final(self).structure() == old(self).structure(),
            forall|s: Slot| #[trigger]
                final(self).weight(s) == weights::write(
                    old(self).weight(s),
                    text_slot(key@) == Some(s),
                    tensor.data@,
                ),
    {
        let ghost start = *self;
        proof {
            lemma_prefixed("text."@);
            lemma_prefixes_differ();
        }
        if str_eq(key, "embeddings") {
            self.text_embeddings = tensor.data.duplicate();
        } else if str_eq(key, "pos_embed") {
            self.text_pos_embed = tensor.data.duplicate();
        } else if str_eq(key, "norm.weight") {
            self.text_norm_weight = tensor.data.duplicate();
        } else if str_eq(key, "norm.bias") {
            self.text_norm_bias = tensor.data.duplicate();
        } else {
            match parse_layer_key(key) {
                Some((idx, field)) => {
                    if idx < self.text_encoder_layers.len() {
                        let set = self.text_encoder_layers[idx].set_weight(field, tensor);
                        assert(set is Ok);
                        assert(self.structure().text_layers =~= start.structure().text_layers);
                    }
                },
                None => {},
            }
        }
        Ok(())
    }
}

/// Parse `"layers[5].attention.w_q"` → `(5, "attention.w_q")`.
pub fn parse_layer_key<'a>(key: &'a str) -> (r: Option<(usize, &'a str)>)
    ensures
        match r {
            Some((i, field)) => text::split_indexed_key("layers["@, key@) == Some((i, field@)),
            None => text::split_indexed_key("layers["@, key@) is None,
        },
{
    parse_indexed_key("layers[", key)
}

// ── Configuration files ──────────────────────────────────────────────

/// The configuration that a HuggingFace CLIP `config.json` describes.
pub open spec fn clip_config_in(tree: JsonTree) -> CLIPConfig {
    let vision = tree.field("vision_config"@);
    let text = tree.field("text_config"@);
    CLIPConfig {
        vision: ViTConfig {
            image_size: vision.size_or("image_size"@, 224),
            patch_size: vision.size_or("patch_size"@, 32),
            channels: vision.size_or("num_channels"@, 3),
            hidden_size: vision.size_or("hidden_size"@, 768),
            num_layers: vision.size_or("num_hidden_layers"@, 12),
            num_heads: vision.size_or("num_attention_heads"@, 12),
            intermediate_size: vision.size_or("intermediate_size"@, 3072),
            num_classes: 0,
        },
        text_hidden_size: text.size_or("hidden_size"@, 512),
        text_num_layers: text.size_or("num_hidden_layers"@, 12),
        text_num_heads: text.size_or("num_attention_heads"@, 8),
        text_intermediate_size: text.size_or("intermediate_size"@, 2048),
        text_max_position: text.size_or("max_position_embeddings"@, 77),
        vocab_size: text.size_or("vocab_size"@, 49408),
        embed_dim: tree.size_or("projection_dim"@, 512),
    }
}

/// Read a CLIP config off a parsed JSON text.
pub fn clip_config_from(v: &Json) -> (r: CLIPConfig)
    ensures
        r == clip_config_in(v@),
{
    let none = Json::Null;
    let vision = match v.get("vision_config") {
        Some(section) => section,
        None => &none,
    };
    let text = match v.get("text_config") {
        Some(section) => section,
        None => &none,
    };
    CLIPConfig {
        vision: ViTConfig {
            image_size: vision.size_or("image_size", 224),
            patch_size: vision.size_or("patch_size", 32),
            channels: vision.size_or("num_channels", 3),
            hidden_size: vision.size_or("hidden_size", 768),
            num_layers: vision.size_or("num_hidden_layers", 12),
            num_heads: vision.size_or("num_attention_heads", 12),
            intermediate_size: vision.size_or("intermediate_size", 3072),
            num_classes: 0,
        },
        text_hidden_size: text.size_or("hidden_size", 512),
        text_num_layers: text.size_or("num_hidden_layers", 12),
        text_num_heads: text.size_or("num_attention_heads", 8),
        text_intermediate_size: text.size_or("intermediate_size", 2048),
        text_max_position: text.size_or("max_position_embeddings", 77),
        vocab_size: text.size_or("vocab_size", 49408),
        embed_dim: v.size_or("projection_dim", 512),
    }
}

/// Parse a CLIP config from a JSON string. It reads the `vision_config` and
/// `text_config` sub-objects to build both encoders.
pub fn parse_clip_config_json(json: &str) -> (r: Result<CLIPConfig, String>)
    ensures
        match r {
            Ok(config) => json::parsed(json@) matches Ok(tree) && config == clip_config_in(tree),
            Err(e) => json::parsed(json@) == Err::<JsonTree, Seq<char>>(e@),
        },
{
    match parse(json) {
        Ok(v) => Ok(clip_config_from(&v)),
        Err(e) => Err(e),
    }
}

} // verus!
