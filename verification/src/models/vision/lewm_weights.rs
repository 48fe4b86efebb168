//! Loading LeWM checkpoints by their own key names.

use vstd::prelude::*;

use crate::buffer::RawTensor;
use crate::config::NormConfig;
use crate::models::vision::lewm::{LeWMConfig, LeWorldModel, ProjectionHead};
use crate::models::vision::vit::{EncoderLayer, EncoderStructure, ViTConfig};
use crate::models::vision::LoadStats;
use crate::text;
use crate::text::{parse_dotted_key, starts_with, str_eq, strip_prefix};
use crate::weights;
use crate::weights::{Slot, TensorMap, WeightError, WeightTarget};

verus! {

/// Where a LeWorldModel keeps a weight.
pub enum LeWMSlot {
    /// A weight of the model itself, under its checkpoint key.
    Own(Seq<char>),
    /// A weight of the ViT encoder.
    Encoder(Slot),
    /// A weight that only hybrid encoders have.
    Hybrid(Seq<char>),
    /// A field of a predictor layer.
    Predictor(int, Seq<char>),
    /// Weight or bias of a projector layer.
    Projector(int, bool),
    /// Weight or bias of a pred_proj layer.
    PredProj(int, bool),
}

/// Where a checkpoint key leads.
pub enum Route {
    /// To no weight: the model keeps nothing under the key.
    Nowhere,
    To(LeWMSlot),
}

/// What loading leaves as it is.
pub struct LeWMStructure {
    pub config: LeWMConfig,
    pub fuse_mode: u8,
    pub encoder_config: ViTConfig,
    pub final_norm: NormConfig,
    pub encoder_layers: Seq<EncoderStructure>,
    pub class_labels: Vec<String>,
    pub predictor_layers: nat,
    pub projector_layers: nat,
    pub pred_proj_layers: nat,
}

/// The encoder layer's field that a checkpoint field stands for.
pub open spec fn encoder_field(name: Seq<char>) -> Option<Seq<char>> {
    if name == "attention.attention.query.weight"@ {
        Some("attention.w_q"@)
    } else if name == "attention.attention.query.bias"@ {
        Some("attention.q_bias"@)
    } else if name == "attention.attention.key.weight"@ {
        Some("attention.w_k"@)
    } else if name == "attention.attention.key.bias"@ {
        Some("attention.k_bias"@)
    } else if name == "attention.attention.value.weight"@ {
        Some("attention.w_v"@)
    } else if name == "attention.attention.value.bias"@ {
        Some("attention.v_bias"@)
    } else if name == "attention.output.dense.weight"@ {
        Some("attention.w_o"@)
    } else if name == "attention.output.dense.bias"@ {
        Some("attention.o_bias"@)
    } else if name == "intermediate.dense.weight"@ {
        Some("ffn.w_up"@)
    } else if name == "intermediate.dense.bias"@ {
        Some("ffn.up_bias"@)
    } else if name == "output.dense.weight"@ {
        Some("ffn.w_down"@)
    } else if name == "output.dense.bias"@ {
        Some("ffn.down_bias"@)
    } else if name == "layernorm_before.weight"@ || name == "norm1.weight"@ {
        Some("attn_norm.weight"@)
    } else if name == "layernorm_before.bias"@ || name == "norm1.bias"@ {
        Some("attn_norm.bias"@)
    } else if name == "layernorm_after.weight"@ || name == "norm2.weight"@ {
        Some("ffn_norm.weight"@)
    } else if name == "layernorm_after.bias"@ || name == "norm2.bias"@ {
        Some("ffn_norm.bias"@)
    } else {
        None
    }
}

/// Where the key of an encoder layer leads.
pub open spec fn encoder_layer_route(rest: Seq<char>) -> Route {
    match text::after_prefix(rest, "encoder.layer."@) {
        None => Route::Nowhere,
        Some(layer) => match text::split_dotted_key(layer) {
            None => Route::Nowhere,
            Some((i, name)) => match encoder_field(name) {
                None => Route::Nowhere,
                Some(field) => Route::To(
                    LeWMSlot::Encoder(Slot::Layer("layers"@, i as int, field)),
                ),
            },
        },
    }
}

/// Where an encoder key leads, "encoder." stripped.
pub open spec fn encoder_route(rest: Seq<char>) -> Route {
    if rest == "embeddings.patch_embeddings.projection.weight"@ {
        Route::To(LeWMSlot::Encoder(Slot::Top("patch_proj"@)))
    } else if rest == "embeddings.patch_embeddings.projection.bias"@ {
        Route::To(LeWMSlot::Encoder(Slot::Top("patch_proj_bias"@)))
    } else if rest == "embeddings.cls_token"@ {
        Route::To(LeWMSlot::Encoder(Slot::Top("cls_token"@)))
    } else if rest == "embeddings.position_embeddings"@ {
        Route::To(LeWMSlot::Encoder(Slot::Top("pos_embed"@)))
    } else if rest == "layernorm.weight"@ {
        Route::To(LeWMSlot::Encoder(Slot::Top("norm.weight"@)))
    } else if rest == "layernorm.bias"@ {
        Route::To(LeWMSlot::Encoder(Slot::Top("norm.bias"@)))
    } else if rest == "meta_token"@ || rest == "proj.0.weight"@ || rest == "proj.0.bias"@ {
        Route::To(LeWMSlot::Hybrid(rest))
    } else if "proj."@.is_prefix_of(rest) {
        Route::Nowhere
    } else {
        encoder_layer_route(rest)
    }
}

/// Where the key of a predictor layer leads, the prefix stripped.
pub open spec fn predictor_layer_route(rest: Seq<char>) -> Route {
    match text::split_dotted_key(rest) {
        None => Route::Nowhere,
        Some((i, field)) => Route::To(LeWMSlot::Predictor(i as int, field)),
    }
}

/// The layer of a projection head that a checkpoint's sequential index stands
/// for: the linear layers only.
pub open spec fn head_layer(index: usize) -> Option<int> {
    if index == 0 {
        Some(0)
    } else if index == 3 {
        Some(1)
    } else if index == 4 {
        Some(2)
    } else {
        None
    }
}

/// Layer and part that the key of a projection head names: "N.weight",
/// "N.bias", or the same behind "net.".
pub open spec fn head_part(rest: Seq<char>) -> Option<(int, bool)> {
    let bare = match text::after_prefix(rest, "net."@) {
        Some(r) => r,
        None => rest,
    };
    match text::split_dotted_key(bare) {
        None => None,
        Some((index, field)) => match head_layer(index) {
            None => None,
            Some(i) => if field == "weight"@ {
                Some((i, false))
            } else if field == "bias"@ {
                Some((i, true))
            } else {
                None
            },
        },
    }
}

/// The keys of the model's own weights.
pub open spec fn is_own_key(key: Seq<char>) -> bool {
    ||| key == "predictor.pos_embedding"@
    ||| key == "predictor.transformer.norm.weight"@
    ||| key == "predictor.transformer.norm.bias"@
    ||| key == "predictor.transformer.input_proj.weight"@
    ||| key == "predictor.transformer.input_proj.bias"@
    ||| key == "predictor.transformer.cond_proj.weight"@
    ||| key == "predictor.transformer.cond_proj.bias"@
    ||| key == "action_encoder.patch_embed.weight"@
    ||| key == "action_encoder.patch_embed.bias"@
    ||| key == "action_encoder.embed.0.weight"@
    ||| key == "action_encoder.embed.0.bias"@
    ||| key == "action_encoder.embed.2.weight"@
    ||| key == "action_encoder.embed.2.bias"@
}

/// Where a checkpoint key leads.
pub open spec fn route(key: Seq<char>) -> Route {
    match text::after_prefix(key, "encoder."@) {
        Some(rest) => encoder_route(rest),
        None => if is_own_key(key) {
            Route::To(LeWMSlot::Own(key))
        } else {
            match text::after_prefix(key, "predictor.transformer.layers."@) {
                Some(rest) => predictor_layer_route(rest),
                None => match text::after_prefix(key, "projector."@) {
                    Some(rest) => match head_part(rest) {
                        Some((i, bias)) => Route::To(LeWMSlot::Projector(i, bias)),
                        None => Route::Nowhere,
                    },
                    None => match text::after_prefix(key, "pred_proj."@) {
                        Some(rest) => match head_part(rest) {
                            Some((i, bias)) => Route::To(LeWMSlot::PredProj(i, bias)),
                            None => Route::Nowhere,
                        },
                        None => Route::Nowhere,
                    },
                },
            }
        },
    }
}

impl<T: Copy> LeWorldModel<T> {
    pub open spec fn structure(&self) -> LeWMStructure {
        LeWMStructure {
            config: self.config,
            fuse_mode: self.fuse_mode,
            encoder_config: self.encoder.config,
            final_norm: self.encoder.final_norm,
            encoder_layers: self.encoder.layers@.map_values(|l: EncoderLayer<T>| l.structure()),
            class_labels: self.encoder.class_labels,
            predictor_layers: self.predictor_layers@.len(),
            projector_layers: self.projector.layers@.len(),
            pred_proj_layers: self.pred_proj.layers@.len(),
        }
    }

    /// The elements kept in a slot; `None` where the model has no such slot.
    pub open spec fn weight(&self, slot: LeWMSlot) -> Option<Seq<T>> {
        match slot {
            LeWMSlot::Own(key) => if key == "predictor.pos_embedding"@ {
                Some(self.predictor_pos_embed@)
            } else if key == "predictor.transformer.norm.weight"@ {
                Some(self.predictor_norm_weight@)
            } else if key == "predictor.transformer.norm.bias"@ {
                Some(self.predictor_norm_bias@)
            } else if key == "predictor.transformer.input_proj.weight"@ {
                Some(self.input_proj_weight@)
            } else if key == "predictor.transformer.input_proj.bias"@ {
                Some(self.input_proj_bias@)
            } else if key == "predictor.transformer.cond_proj.weight"@ {
                Some(self.cond_proj_weight@)
            } else if key == "predictor.transformer.cond_proj.bias"@ {
                Some(self.cond_proj_bias@)
            } else if key == "action_encoder.patch_embed.weight"@ {
                Some(self.action_conv_weight@)
            } else if key == "action_encoder.patch_embed.bias"@ {
                Some(self.action_conv_bias@)
            } else if key == "action_encoder.embed.0.weight"@ {
                Some(self.action_mlp1_weight@)
            } else if key == "action_encoder.embed.0.bias"@ {
                Some(self.action_mlp1_bias@)
            } else if key == "action_encoder.embed.2.weight"@ {
                Some(self.action_mlp2_weight@)
            } else if key == "action_encoder.embed.2.bias"@ {
                Some(self.action_mlp2_bias@)
            } else {
                None
            },
            LeWMSlot::Encoder(s) => self.encoder.weight(s),
            LeWMSlot::Hybrid(name) => if name == "meta_token"@ {
                Some(self.encoder.meta_token@)
            } else if name == "proj.0.weight"@ {
                Some(self.encoder.enc_proj_weight@)
            } else if name == "proj.0.bias"@ {
                Some(self.encoder.enc_proj_bias@)
            } else {
                None
            },
            LeWMSlot::Predictor(i, field) => if 0 <= i < self.predictor_layers@.len() {
                self.predictor_layers@[i].field(field)
            } else {
                None
            },
            LeWMSlot::Projector(i, bias) => self.projector.part(i, bias),
            LeWMSlot::PredProj(i, bias) => self.pred_proj.part(i, bias),
        }
    }

    /// Whether a route ends at a weight that the model has.
    pub open spec fn takes(&self, route: Route) -> bool {
        match route {
            Route::Nowhere => false,
            Route::To(slot) => self.weight(slot) is Some,
        }
    }

    /// Meta tokens are counted off in rows of the encoder's width, which must
    /// not be zero then.
    pub open spec fn can_take(&self, route: Route) -> bool {
        route == Route::To(LeWMSlot::Hybrid("meta_token"@)) ==> self.config.encoder_hidden > 0
    }

    /// The number of meta tokens after a tensor of `len` elements came by `route`.
    pub open spec fn meta_tokens_after(&self, route: Route, len: nat) -> nat {
        if route == Route::To(LeWMSlot::Hybrid("meta_token"@)) {
            len / self.config.encoder_hidden as nat
        } else {
            self.encoder.num_meta_tokens as nat
        }
    }

    /// What a tensor that came by `route` changes: the slot at the route's
    /// end, and the number of meta tokens.
    pub open spec fn put_by(&self, after: Self, route: Route, data: Seq<T>) -> bool {
        &&& after.structure() == self.structure()
        &&& after.encoder.num_meta_tokens == self.meta_tokens_after(route, data.len())
        &&& forall|s: LeWMSlot| #[trigger]
            after.weight(s) == weights::write(self.weight(s), route == Route::To(s), data)
    }

    /// Map a single checkpoint key to the appropriate internal buffer.
    /// Returns `true` if the key was recognized and loaded.
    pub fn set_weight(&mut self, key: &str, tensor: &RawTensor<T>) -> (r: bool)
        requires
            old(self).can_take(route(key@)),
        ensures
            r == old(self).takes(route(key@)),
            old(self).put_by(*final(self), route(key@), tensor.data@),
    {
        // ── Encoder weights ──────────────────────────────────────────
        if let Some(rest) = strip_prefix(key, "encoder.") {
            return self.set_encoder_weight(rest, tensor);
        }
        // ── Predictor weights ────────────────────────────────────────
        if str_eq(key, "predictor.pos_embedding") {
            self.predictor_pos_embed = tensor.data.duplicate();
        } else if str_eq(key, "predictor.transformer.norm.weight") {
            self.predictor_norm_weight = tensor.data.duplicate();
        } else if str_eq(key, "predictor.transformer.norm.bias") {
            self.predictor_norm_bias = tensor.data.duplicate();
        } else if str_eq(key, "predictor.transformer.input_proj.weight") {
            // ── Input/conditioning projections (slim bottleneck models) ──
            self.input_proj_weight = tensor.data.duplicate();
        } else if str_eq(key, "predictor.transformer.input_proj.bias") {
            self.input_proj_bias = tensor.data.duplicate();
        } else if str_eq(key, "predictor.transformer.cond_proj.weight") {
            self.cond_proj_weight = tensor.data.duplicate();
        } else if str_eq(key, "predictor.transformer.cond_proj.bias") {
            self.cond_proj_bias = tensor.data.duplicate();
        } else if str_eq(key, "action_encoder.patch_embed.weight") {
            // ── Action encoder ───────────────────────────────────────────
            self.action_conv_weight = tensor.data.duplicate();
        } else if str_eq(key, "action_encoder.patch_embed.bias") {
            self.action_conv_bias = tensor.data.duplicate();
        } else if str_eq(key, "action_encoder.embed.0.weight") {
            self.action_mlp1_weight = tensor.data.duplicate();
        } else if str_eq(key, "action_encoder.embed.0.bias") {
            self.action_mlp1_bias = tensor.data.duplicate();
        } else if str_eq(key, "action_encoder.embed.2.weight") {
            self.action_mlp2_weight = tensor.data.duplicate();
        } else if str_eq(key, "action_encoder.embed.2.bias") {
            self.action_mlp2_bias = tensor.data.duplicate();
        } else if let Some(rest) = strip_prefix(key, "predictor.transformer.layers.") {
            return self.set_predictor_layer_weight(rest, tensor);
        } else if let Some(rest) = strip_prefix(key, "projector.") {
            // ── Projector ────────────────────────────────────────────────
            return Self::set_projection_weight_on(&mut self.projector, rest, tensor);
        } else if let Some(rest) = strip_prefix(key, "pred_proj.") {
            // ── Pred_proj ────────────────────────────────────────────────
            return Self::set_projection_weight_on(&mut self.pred_proj, rest, tensor);
        } else {
            return false;
        }
        true
    }

    /// Sets a weight of a projection head by "N.weight", "N.bias", or
    /// "net.N.weight", "net.N.bias".
    ///
    /// Checkpoint sequential: net.0=Linear, net.1=BatchNorm, net.2=GELU,
    /// net.3=Linear. Only the linear layers are stored.
    pub fn set_projection_weight_on(
        head: &mut ProjectionHead<T>,
        rest: &str,
        tensor: &RawTensor<T>,
    ) -> (r: bool)
        ensures
            final(head).layers@.len() == old(head).layers@.len(),
            match head_part(rest@) {
                Some((i, bias)) => {
                    &&& r == (old(head).part(i, bias) is Some)
                    &&& forall|k: int, b: bool| #[trigger]
                        final(head).part(k, b) == weights::write(
                            old(head).part(k, b),
                            k == i && b == bias,
                            tensor.data@,
                        )
                },
                None => !r && *final(head) == *old(head),
            },
    {
        let bare = match strip_prefix(rest, "net.") {
            Some(b) => b,
            None => rest,
        };
        let (index, field) = match parse_dotted_key(bare) {
            Some(p) => p,
            None => return false,
        };
        let our_idx: usize = if index == 0 {
            0
        } else if index == 3 {
            1
        } else if index == 4 {
            2
        } else {
            return false;
        };
        if our_idx >= head.layers.len() {
            return false;
        }
        if str_eq(field, "weight") {
            head.layers[our_idx].0 = tensor.data.duplicate();
            true
        } else if str_eq(field, "bias") {
            head.layers[our_idx].1 = tensor.data.duplicate();
            true
        } else {
            false
        }
    }

    /// Map encoder sub-key (after stripping "encoder.") to ViT weights.
    pub fn set_encoder_weight(&mut self, rest: &str, tensor: &RawTensor<T>) -> (r: bool)
        requires
            old(self).can_take(encoder_route(rest@)),
        ensures
            r == old(self).takes(encoder_route(rest@)),
            old(self).put_by(*final(self), encoder_route(rest@), tensor.data@),
    {
        if str_eq(rest, "embeddings.patch_embeddings.projection.weight") {
            return self.put_in_encoder("patch_proj", tensor);
        } else if str_eq(rest, "embeddings.patch_embeddings.projection.bias") {
            return self.put_in_encoder("patch_proj_bias", tensor);
        } else if str_eq(rest, "embeddings.cls_token") {
            return self.put_in_encoder("cls_token", tensor);
        } else if str_eq(rest, "embeddings.position_embeddings") {
            return self.put_in_encoder("pos_embed", tensor);
        } else if str_eq(rest, "layernorm.weight") {
            return self.put_in_encoder("norm.weight", tensor);
        } else if str_eq(rest, "layernorm.bias") {
            return self.put_in_encoder("norm.bias", tensor);
        } else if str_eq(rest, "meta_token") {
            // Hybrid encoder extras
            self.encoder.num_meta_tokens = tensor.data.len() / self.config.encoder_hidden;
            self.encoder.meta_token = tensor.data.duplicate();
        } else if str_eq(rest, "proj.0.weight") {
            self.encoder.enc_proj_weight = tensor.data.duplicate();
        } else if str_eq(rest, "proj.0.bias") {
            self.encoder.enc_proj_bias = tensor.data.duplicate();
        } else if starts_with(rest, "proj.") {
            // Batch norm parameters (proj.1.weight, proj.1.bias, etc.) are not kept
            return false;
        } else {
            // "encoder.layer.{i}.attention.attention.query.weight" etc.
            // (note: double "encoder" prefix — outer is stripped, inner remains)
            return self.set_encoder_layer_weight(rest, tensor);
        }
        true
    }

    /// Sets one of the encoder's own weights by its ViT key.
    fn put_in_encoder(&mut self, key: &str, tensor: &RawTensor<T>) -> (r: bool)
        requires
            ({
                ||| key@ == "patch_proj"@
                ||| key@ == "patch_proj_bias"@
                ||| key@ == "cls_token"@
                ||| key@ == "pos_embed"@
                ||| key@ == "norm.weight"@
                ||| key@ == "norm.bias"@
            }),
        ensures
            r,
            old(self).takes(Route::To(LeWMSlot::Encoder(Slot::Top(key@)))),
            old(self).put_by(
                *final(self),
                Route::To(LeWMSlot::Encoder(Slot::Top(key@))),
                tensor.data@,
            ),
    {
        let ghost start = *self;
        let set = self.encoder.set_weight(key, tensor);
        assert(set is Ok);
        assert(self.structure().encoder_layers =~= start.structure().encoder_layers);
        true
    }

    /// Map encoder layer sub-key (e.g. "encoder.layer.0.attention.attention.query.weight").
    pub fn set_encoder_layer_weight(&mut self, rest: &str, tensor: &RawTensor<T>) -> (r: bool)
        ensures
            r == old(self).takes(encoder_layer_route(rest@)),
            old(self).put_by(*final(self), encoder_layer_route(rest@), tensor.data@),
    {
        let ghost start = *self;
        let layer = match strip_prefix(rest, "encoder.layer.") {
            Some(l) => l,
            None => return false,
        };
        let (idx, name) = match parse_dotted_key(layer) {
            Some(p) => p,
            None => return false,
        };
        // Standard ViT HuggingFace naming
        let field = match encoder_field_name(name) {
            Some(f) => f,
            None => return false,
        };
        if idx >= self.encoder.layers.len() {
            return false;
        }
        let set = self.encoder.layers[idx].set_weight(field, tensor);
        assert(set is Ok);
        assert(self.structure().encoder_layers =~= start.structure().encoder_layers);
        true
    }

    /// Map predictor layer sub-key (e.g. "0.adaLN_modulation.1.weight").
    pub fn set_predictor_layer_weight(&mut self, rest: &str, tensor: &RawTensor<T>) -> (r: bool)
        ensures
            r == old(self).takes(predictor_layer_route(rest@)),
            old(self).put_by(*final(self), predictor_layer_route(rest@), tensor.data@),
    {
        let (idx, field) = match parse_dotted_key(rest) {
            Some(p) => p,
            None => return false,
        };
        if idx >= self.predictor_layers.len() {
            return false;
        }
        self.predictor_layers[idx].set_weight(field, tensor)
    }
}

/// The encoder layer's field that a checkpoint field stands for.
fn encoder_field_name(name: &str) -> (r: Option<&'static str>)
    ensures
        match r {
            Some(field) => encoder_field(name@) == Some(field@),
            None => encoder_field(name@) is None,
        },
{
    if str_eq(name, "attention.attention.query.weight") {
        Some("attention.w_q")
    } else if str_eq(name, "attention.attention.query.bias") {
        Some("attention.q_bias")
    } else if str_eq(name, "attention.attention.key.weight") {
        Some("attention.w_k")
    } else if str_eq(name, "attention.attention.key.bias") {
        Some("attention.k_bias")
    } else if str_eq(name, "attention.attention.value.weight") {
        Some("attention.w_v")
    } else if str_eq(name, "attention.attention.value.bias") {
        Some("attention.v_bias")
    } else if str_eq(name, "attention.output.dense.weight") {
        Some("attention.w_o")
    } else if str_eq(name, "attention.output.dense.bias") {
        Some("attention.o_bias")
    } else if str_eq(name, "intermediate.dense.weight") {
        Some("ffn.w_up")
    } else if str_eq(name, "intermediate.dense.bias") {
        Some("ffn.up_bias")
    } else if str_eq(name, "output.dense.weight") {
        Some("ffn.w_down")
    } else if str_eq(name, "output.dense.bias") {
        Some("ffn.down_bias")
    } else if str_eq(name, "layernorm_before.weight") || str_eq(name, "norm1.weight") {
        Some("attn_norm.weight")
    } else if str_eq(name, "layernorm_before.bias") || str_eq(name, "norm1.bias") {
        Some("attn_norm.bias")
    } else if str_eq(name, "layernorm_after.weight") || str_eq(name, "norm2.weight") {
        Some("ffn_norm.weight")
    } else if str_eq(name, "layernorm_after.bias") || str_eq(name, "norm2.bias") {
        Some("ffn_norm.bias")
    } else {
        None
    }
}

// ── Whole checkpoints ────────────────────────────────────────────────

impl<T: Copy> LeWorldModel<T> {
    /// A slot after the first `n` tensors: the last of them that leads there.
    pub open spec fn weight_after(&self, tensors: TensorMap<T>, slot: LeWMSlot, n: nat) -> Option<
        Seq<T>,
    >
        decreases n,
    {
        if n == 0 {
            self.weight(slot)
        } else {
            weights::write(
                self.weight_after(tensors, slot, (n - 1) as nat),
                route(tensors.name(n - 1)) == Route::To(slot),
                tensors.tensor(n - 1).data@,
            )
        }
    }

    /// The number of meta tokens after the first `n` tensors.
    pub open spec fn meta_tokens_loaded(&self, tensors: TensorMap<T>, n: nat) -> nat
        decreases n,
    {
        if n == 0 {
            self.encoder.num_meta_tokens as nat
        } else if route(tensors.name(n - 1)) == Route::To(LeWMSlot::Hybrid("meta_token"@)) {
            tensors.tensor(n - 1).data@.len() / self.config.encoder_hidden as nat
        } else {
            self.meta_tokens_loaded(tensors, (n - 1) as nat)
        }
    }

    /// The names among the first `n` under which the model keeps nothing.
    pub open spec fn unknown_names(&self, tensors: TensorMap<T>, n: nat) -> Seq<Seq<char>>
        decreases n,
    {
        if n == 0 {
            Seq::empty()
        } else {
            let before = self.unknown_names(tensors, (n - 1) as nat);
            if self.takes(route(tensors.name(n - 1))) {
                before
            } else {
                before.push(tensors.name(n - 1))
            }
        }
    }

    /// Load weights from a checkpoint.
    ///
    /// Handles the LeWM checkpoint naming directly (custom prefix matching).
    /// Every tensor is either counted as loaded or named as skipped.
    pub fn load_weights(&mut self, tensors: &TensorMap<T>) -> (r: Result<LoadStats, WeightError>)
        requires
            forall|i: int|
                0 <= i < tensors.count() ==> old(self).can_take(
                    route(#[trigger] tensors.name(i)),
                ),
        ensures
            final(self).structure() == old(self).structure(),
            final(self).encoder.num_meta_tokens == old(self).meta_tokens_loaded(
                *tensors,
                tensors.count(),
            ),
            forall|s: LeWMSlot| #[trigger]
                final(self).weight(s) == old(self).weight_after(*tensors, s, tensors.count()),
            match r {
                Ok(stats) => {
                    &&& weights::texts(stats.skipped@) == old(self).unknown_names(
                        *tensors,
                        tensors.count(),
                    )
                    &&& stats.loaded + stats.skipped@.len() == tensors.count()
                },
                Err(_) => false,
            },
    {
        let ghost start = *self;
        let mut loaded: usize = 0;
        let mut skipped: Vec<String> = Vec::new();
        let n = tensors.len();
        for i in 0..n
            invariant
                n == tensors.count(),
                forall|j: int|
                    0 <= j < n ==> start.can_take(route(#[trigger] tensors.name(j))),
                self.structure() == start.structure(),
                self.encoder.num_meta_tokens == start.meta_tokens_loaded(*tensors, i as nat),
                forall|s: LeWMSlot| #[trigger]
                    self.weight(s) == start.weight_after(*tensors, s, i as nat),
                forall|s: LeWMSlot|
                    (#[trigger] self.weight(s)) is Some <==> start.weight(s) is Some,
                weights::texts(skipped@) == start.unknown_names(*tensors, i as nat),
                loaded + skipped@.len() == i,
        {
            let (name, tensor) = tensors.entry(i);
            let ghost before = *self;
            assert(self.structure().config == start.structure().config);
            assert(start.can_take(route(tensors.name(i as int))));
            let ok = self.set_weight(name, tensor);
            assert(before.takes(route(name@)) == start.takes(route(name@)));
            if ok {
                loaded += 1;
            } else {
                skipped.push(name.to_owned());
                assert(weights::texts(skipped@) =~= start.unknown_names(*tensors, (i + 1) as nat));
            }
        }
        assert(weights::texts(skipped@).len() == skipped@.len());
        Ok(LoadStats { loaded, skipped })
    }
}


// ── Laws ─────────────────────────────────────────────────────────────

/// A predictor layer's key leads to that field of that layer.
pub proof fn lemma_predictor_key_route(i: nat, field: Seq<char>)
    requires
        i <= usize::MAX,
    ensures
        route(
            "predictor.transformer.layers."@ + (text::decimal_digits(i) + seq!['.'] + field),
        ) == Route::To(LeWMSlot::Predictor(i as int, field)),
{
    let prefix = "predictor.transformer.layers."@;
    let rest = text::decimal_digits(i) + seq!['.'] + field;
    let key = prefix + rest;
    reveal_strlit("predictor.transformer.layers.");
    reveal_strlit("encoder.");
    reveal_strlit("predictor.pos_embedding");
    reveal_strlit("predictor.transformer.norm.weight");
    reveal_strlit("predictor.transformer.norm.bias");
    reveal_strlit("predictor.transformer.input_proj.weight");
    reveal_strlit("predictor.transformer.input_proj.bias");
    reveal_strlit("predictor.transformer.cond_proj.weight");
    reveal_strlit("predictor.transformer.cond_proj.bias");
    reveal_strlit("action_encoder.patch_embed.weight");
    reveal_strlit("action_encoder.patch_embed.bias");
    reveal_strlit("action_encoder.embed.0.weight");
    reveal_strlit("action_encoder.embed.0.bias");
    reveal_strlit("action_encoder.embed.2.weight");
    reveal_strlit("action_encoder.embed.2.bias");
    assert(key[0] == 'p');
    assert(key[10] == 't' && key[22] == 'l');
    assert("encoder."@[0] == 'e');
    assert(text::after_prefix(key, "encoder."@) is None);
    assert("predictor.pos_embedding"@[10] == 'p');
    assert("predictor.transformer.norm.weight"@[22] == 'n');
    assert("predictor.transformer.norm.bias"@[22] == 'n');
    assert("predictor.transformer.input_proj.weight"@[22] == 'i');
    assert("predictor.transformer.input_proj.bias"@[22] == 'i');
    assert("predictor.transformer.cond_proj.weight"@[22] == 'c');
    assert("predictor.transformer.cond_proj.bias"@[22] == 'c');
    assert("action_encoder.patch_embed.weight"@[0] == 'a');
    assert("action_encoder.patch_embed.bias"@[0] == 'a');
    assert("action_encoder.embed.0.weight"@[0] == 'a');
    assert("action_encoder.embed.0.bias"@[0] == 'a');
    assert("action_encoder.embed.2.weight"@[0] == 'a');
    assert("action_encoder.embed.2.bias"@[0] == 'a');
    assert(key.skip(prefix.len() as int) =~= rest);
    assert(prefix.is_prefix_of(key));
    text::lemma_dotted_key_roundtrip(i, field);
}

impl<T: Copy> LeWorldModel<T> {
    /// A slot that no tensor of the checkpoint leads to keeps its elements.
    pub proof fn lemma_untouched_slot(&self, tensors: TensorMap<T>, slot: LeWMSlot, n: nat)
        requires
            forall|i: int|
                0 <= i < n ==> route(#[trigger] tensors.name(i)) != Route::To(slot),
        ensures
            self.weight_after(tensors, slot, n) == self.weight(slot),
        decreases n,
    {
        if n > 0 {
            assert(route(tensors.name(n - 1)) != Route::To(slot));
            self.lemma_untouched_slot(tensors, slot, (n - 1) as nat);
        }
    }

    /// A slot to which exactly one tensor leads holds that tensor's elements.
    pub proof fn lemma_loaded_slot(&self, tensors: TensorMap<T>, slot: LeWMSlot, k: int, n: nat)
        requires
            0 <= k < n,
            self.weight(slot) is Some,
            route(tensors.name(k)) == Route::To(slot),
            forall|i: int|
                0 <= i < n && i != k ==> route(#[trigger] tensors.name(i)) != Route::To(slot),
        ensures
            self.weight_after(tensors, slot, n) == Some(tensors.tensor(k).data@),
        decreases n,
    {
        if k == n - 1 {
            self.lemma_untouched_slot(tensors, slot, (n - 1) as nat);
        } else {
            assert(route(tensors.name(n - 1)) != Route::To(slot));
            self.lemma_loaded_slot(tensors, slot, k, (n - 1) as nat);
        }
    }
}

impl<T: Copy> LeWorldModel<T> {
    /// The skipped names are those, each once, under which the model keeps
    /// nothing.
    pub proof fn lemma_skipped_names(&self, tensors: TensorMap<T>, n: nat)
        requires
            tensors.wf(),
            n <= tensors.count(),
        ensures
            self.unknown_names(tensors, n).no_duplicates(),
            forall|k: Seq<char>| #[trigger]
                self.unknown_names(tensors, n).contains(k) <==> exists|i: int|
                    0 <= i < n && #[trigger] tensors.name(i) == k && !self.takes(route(k)),
        decreases n,
    {
        let names = self.unknown_names(tensors, n);
        if n > 0 {
            self.lemma_skipped_names(tensors, (n - 1) as nat);
            let before = self.unknown_names(tensors, (n - 1) as nat);
            let last = tensors.name(n - 1);
            if !self.takes(route(last)) {
                if before.contains(last) {
                    let i = choose|i: int|
                        0 <= i < n - 1 && #[trigger] tensors.name(i) == last && !self.takes(
                            route(last),
                        );
                    assert(tensors.name(i) != tensors.name(n - 1));
                }
                assert(names == before.push(last));
            }
            assert forall|k: Seq<char>| #[trigger] names.contains(k) <==> exists|i: int|
                0 <= i < n && #[trigger] tensors.name(i) == k && !self.takes(route(k)) by {
                if names.contains(k) {
                    if before.contains(k) {
                        let i = choose|i: int|
                            0 <= i < n - 1 && #[trigger] tensors.name(i) == k && !self.takes(
                                route(k),
                            );
                        assert(tensors.name(i) == k);
                    } else {
                        let j = choose|j: int| 0 <= j < names.len() && names[j] == k;
                        assert(j == names.len() - 1);
                        assert(tensors.name(n - 1) == k);
                    }
                }
                if exists|i: int|
                    0 <= i < n && #[trigger] tensors.name(i) == k && !self.takes(route(k)) {
                    let i = choose|i: int|
                        0 <= i < n && #[trigger] tensors.name(i) == k && !self.takes(route(k));
                    if i < n - 1 {
                        assert(before.contains(k));
                        let j = choose|j: int| 0 <= j < before.len() && before[j] == k;
                        assert(names[j] == k);
                    } else {
                        assert(names[names.len() - 1] == k);
                    }
                }
            }
        }
    }

    /// Tensors under skipped names change nothing.
    pub proof fn lemma_skipped_change_nothing(&self, tensors: TensorMap<T>, n: nat)
        requires
            forall|i: int| 0 <= i < n ==> !self.takes(route(#[trigger] tensors.name(i))),
        ensures
            forall|s: LeWMSlot| #[trigger]
                self.weight_after(tensors, s, n) == self.weight(s),
            self.meta_tokens_loaded(tensors, n) == self.encoder.num_meta_tokens,
        decreases n,
    {
        if n > 0 {
            self.lemma_skipped_change_nothing(tensors, (n - 1) as nat);
            assert(!self.takes(route(tensors.name(n - 1))));
            assert forall|s: LeWMSlot| #[trigger] self.weight_after(tensors, s, n) == self.weight(
                s,
            ) by {
                assert(self.weight_after(tensors, s, (n - 1) as nat) == self.weight(s));
            }
            assert(self.weight(LeWMSlot::Hybrid("meta_token"@)) is Some);
        }
    }
}

} // verus!
