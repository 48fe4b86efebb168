//! What configurations say.

use vstd::prelude::*;

use crate::attention::HeadLayout;
use crate::config::{
    AttentionConfig, Binary64, FFNConfig, ModelConfig, NormConfig, PositionConfig, RoPEScaling,
    RoPEStyle,
};
use crate::json;
use crate::json::JsonTree;
use crate::models::lm::builder;
use crate::models::ssm::hybrid::config::{HybridConfig, LayerKind};
use crate::models::ssm::hybrid::model;
use crate::models::text_encoder::roberta;
use crate::models::vision::clip;
use crate::models::vision::code_wm;
use crate::models::vision::code_wm::GeluKind;
use crate::models::vision::lewm;
use crate::models::vision::vit;
use crate::models::vision::vit::ViTConfig;
use crate::models::vision::vit_config;
use crate::scalar;
use crate::scalar::{Math, Scalar};

verus! {

/// Heads are laid out as configured; without heads for keys and values each
/// query head has its own. Decoding looks back over a window only where one is
/// configured.
pub proof fn lemma_attention_settings(heads: usize, kv: usize, d: usize, window: usize)
    ensures
        ({
            let gqa = AttentionConfig::GQA { num_heads: heads, num_kv_heads: kv, head_dim: d };
            let sliding = AttentionConfig::SlidingWindow {
                num_heads: heads,
                num_kv_heads: kv,
                head_dim: d,
                window_size: window,
            };
            let both = AttentionConfig::Bidirectional { num_heads: heads, head_dim: d };
            let shared = HeadLayout { num_heads: heads, num_kv_heads: kv, head_dim: d };
            &&& gqa.spec_layout() == shared
            &&& sliding.spec_layout() == shared
            &&& both.spec_layout() == (HeadLayout {
                num_heads: heads,
                num_kv_heads: heads,
                head_dim: d,
            })
            &&& gqa.spec_window() is None
            &&& sliding.spec_window() == Some(window)
            &&& both.spec_window() is None
            &&& shared.q_dim() == heads * d
            &&& shared.kv_dim() == kv * d
        }),
{
}

/// Query heads share the heads of keys and values in groups of equal size, in
/// order.
pub proof fn lemma_groups(layout: HeadLayout, group: int, head: int, j: int)
    requires
        layout.wf(),
        group > 0,
        layout.num_heads == layout.num_kv_heads * group,
        0 <= head < layout.num_kv_heads,
        0 <= j < group,
    ensures
        layout.kv_head(head * group + j) == head,
{
    let n = layout.num_kv_heads as int;
    vstd::arithmetic::div_mod::lemma_div_by_multiple(group, n);
    assert(group * n == n * group) by (nonlinear_arith);
    vstd::arithmetic::div_mod::lemma_fundamental_div_mod_converse(
        head * group + j,
        group,
        head,
        j,
    );
}

/// A normalisation and a feed-forward network have the constant and the size
/// that they are configured with.
pub proof fn lemma_layer_settings(eps: Binary64, n: usize)
    ensures
        (NormConfig::RMSNorm { eps }).spec_eps() == eps,
        (NormConfig::LayerNorm { eps }).spec_eps() == eps,
        (FFNConfig::SwiGLU { intermediate_size: n }).spec_intermediate_size() == n,
        (FFNConfig::GeGLU { intermediate_size: n }).spec_intermediate_size() == n,
        (FFNConfig::GELU { intermediate_size: n }).spec_intermediate_size() == n,
        (FFNConfig::SwiGLU { intermediate_size: n }).gated(),
        (FFNConfig::GeGLU { intermediate_size: n }).gated(),
        !(FFNConfig::GELU { intermediate_size: n }).gated(),
{
}

/// Rotary frequencies come from the configured base, which dynamic scaling
/// stretches; linear scaling divides them by its factor. The tables reach as far
/// as the configured positions.
pub proof fn lemma_rope_settings<T: Scalar, M: Math<T>>(
    config: ModelConfig,
    base: Binary64,
    reach: usize,
    style: RoPEStyle,
    scaling: RoPEScaling,
)
    requires
        config.position == (PositionConfig::RoPE {
            base,
            max_position_embeddings: reach,
            style,
            scaling,
        }),
    ensures
        builder::table_rows(config) == reach,
        builder::style_of(config.position) == style,
        match scaling {
            RoPEScaling::Unscaled => {
                &&& builder::effective_base::<T, M>(config) == scalar::binary64_of::<T, M>(
                    base.bits,
                )
                &&& builder::linear_factor::<T, M>(config) == scalar::one::<T, M>()
            },
            RoPEScaling::Linear { factor } => {
                &&& builder::effective_base::<T, M>(config) == scalar::binary64_of::<T, M>(
                    base.bits,
                )
                &&& builder::linear_factor::<T, M>(config) == scalar::binary64_of::<T, M>(
                    factor.bits,
                )
            },
            RoPEScaling::Dynamic { factor } => {
                &&& builder::effective_base::<T, M>(config) == scalar::dynamic_base_of::<T, M>(
                    base.bits,
                    factor.bits,
                    config.attention.spec_layout().head_dim,
                )
                &&& builder::linear_factor::<T, M>(config) == scalar::one::<T, M>()
            },
        },
{
}

/// Without rotary positions the tables have base 10000 and reach as far as the
/// longest sequence.
pub proof fn lemma_learned_settings<T: Scalar, M: Math<T>>(config: ModelConfig)
    requires
        config.position is Learned,
    ensures
        builder::table_rows(config) == config.architecture.max_sequence_length,
        builder::style_of(config.position) == RoPEStyle::RotateHalf,
        builder::effective_base::<T, M>(config) == scalar::binary64_of::<T, M>(
            0x40C3_8800_0000_0000,
        ),
        builder::linear_factor::<T, M>(config) == scalar::one::<T, M>(),
{
}

/// Every layer of a language model is built from the same configuration.
pub proof fn lemma_built_layer(config: ModelConfig)
    ensures
        ({
            let l = builder::built_layer(config);
            &&& l.attn_norm == config.norm
            &&& l.ffn_norm == config.norm
            &&& l.attention == config.attention
            &&& l.ffn == config.ffn
            &&& l.hidden_size == config.architecture.hidden_size
            &&& l.rope_style == builder::style_of(config.position)
            &&& !l.has_head_norms <==> {
                ||| config.name@ == "llama"@
                ||| config.name@ == "mistral"@
                ||| config.name@ == "phi"@
                ||| config.name@ == "phi3"@
                ||| config.name@ == "gemma"@
                ||| config.name@ == "gemma2"@
                ||| config.name@ == "qwen2"@
                ||| config.name@ == "qwen2.5"@
                ||| config.name@ == "vit"@
            }
        }),
{
}

/// An image has as many patches as squares of patches fit in it.
pub proof fn lemma_patch_count(c: ViTConfig, n: nat, heads: nat, d: nat)
    requires
        c.patch_size > 0,
        c.image_size == n * c.patch_size,
        heads > 0,
        c.num_heads == heads,
        c.hidden_size == heads * d,
    ensures
        c.spec_num_patches() == n * n,
        c.spec_head_dim() == d,
{
    vstd::arithmetic::div_mod::lemma_div_by_multiple(n as int, c.patch_size as int);
    vstd::arithmetic::div_mod::lemma_div_by_multiple(d as int, heads as int);
    assert(d * heads == heads * d) by (nonlinear_arith);
}

/// The last layer of every interval attends in full, the others are DeltaNet
/// layers; layer types that are listed decide for themselves.
pub proof fn lemma_layer_kinds(c: HybridConfig, block: int, i: int)
    requires
        0 <= block,
        0 <= i,
    ensures
        c.layer_types matches Some(types) ==> c.kind(i) == types@[i],
        c.layer_types is None && i < c.full_attention_interval - 1 ==> c.kind(
            block * c.full_attention_interval + i,
        ) == LayerKind::DeltaNet,
        c.layer_types is None && i == c.full_attention_interval - 1 ==> c.kind(
            block * c.full_attention_interval + i,
        ) == LayerKind::Gqa,
{
    let n = c.full_attention_interval as int;
    if c.layer_types is None && i < n {
        let at = block * n + i + 1;
        if i == n - 1 {
            assert(at == (block + 1) * n) by (nonlinear_arith)
                requires
                    at == block * n + i + 1,
                    i == n - 1,
            ;
            vstd::arithmetic::div_mod::lemma_fundamental_div_mod_converse(at, n, block + 1, 0);
        } else {
            vstd::arithmetic::div_mod::lemma_fundamental_div_mod_converse(at, n, block, i + 1);
        }
    }
}

/// The general configuration of a hybrid model carries its sizes.
pub proof fn lemma_general_config(c: HybridConfig, m: ModelConfig)
    requires
        model::general_config(c, m),
    ensures
        m.architecture.hidden_size == c.hidden_size,
        m.architecture.num_layers == c.num_layers,
        m.architecture.vocab_size == c.vocab_size,
        m.architecture.tie_word_embeddings == c.tie_embedding,
        m.architecture.embed_scale is None,
        m.attention.spec_layout() == (HeadLayout {
            num_heads: c.num_attention_heads,
            num_kv_heads: c.num_kv_heads,
            head_dim: c.gqa_head_dim,
        }),
        m.attention.spec_window() is None,
        m.norm == (NormConfig::RMSNorm { eps: c.norm_eps }),
        m.ffn == (FFNConfig::SwiGLU { intermediate_size: c.intermediate_size }),
        builder::style_of(m.position) == RoPEStyle::RotateHalf,
{
}

/// A field of an object has the value that the object gives it last; one that
/// the object does not have is null.
pub proof fn lemma_json_fields(
    fields: Seq<(Seq<char>, JsonTree)>,
    name: Seq<char>,
    i: int,
)
    requires
        0 <= i < fields.len(),
    ensures
        fields[i].0 == name && (forall|j: int| i < j < fields.len() ==> (#[trigger] fields[j]).0
            != name) ==> JsonTree::Object(fields).field(name) == fields[i].1,
        (forall|j: int| 0 <= j < fields.len() ==> (#[trigger] fields[j]).0 != name)
            ==> JsonTree::Object(fields).field(name) == JsonTree::Null,
{
    if forall|j: int| i < j < fields.len() ==> (#[trigger] fields[j]).0 != name {
        lemma_field_at(fields, name, i);
    }
    if forall|j: int| 0 <= j < fields.len() ==> (#[trigger] fields[j]).0 != name {
        lemma_field_at(fields, name, -1);
    }
}

proof fn lemma_field_at(fields: Seq<(Seq<char>, JsonTree)>, name: Seq<char>, i: int)
    requires
        -1 <= i < fields.len(),
        forall|j: int| i < j < fields.len() ==> (#[trigger] fields[j]).0 != name,
    ensures
        0 <= i && fields[i].0 == name ==> json::field_named(fields, name) == Some(fields[i].1),
        i == -1 ==> json::field_named(fields, name) is None,
    decreases fields.len(),
{
    if fields.len() > 0 {
        let last = fields.len() - 1;
        if i < last {
            assert(fields[last].0 != name);
            let rest = fields.drop_last();
            assert forall|j: int| i < j < rest.len() implies (#[trigger] rest[j]).0 != name by {
                assert(fields[j].0 != name);
            }
            lemma_field_at(rest, name, i);
        }
    }
}

/// A number, a text or a size is read from the field of that name and no other
/// kind of value.
pub proof fn lemma_json_values(tree: JsonTree, name: Seq<char>, n: u64, default: u64)
    ensures
        tree.unsigned(name) == Some(n) <==> (tree.field(name) matches JsonTree::Number {
            unsigned,
            ..
        } && unsigned == Some(n)),
        tree.binary64(name) == Some(n) <==> (tree.field(name) matches JsonTree::Number {
            binary64,
            ..
        } && binary64 == Some(n)),
        forall|s: Seq<char>| #[trigger]
            tree.text(name) == Some(s) <==> tree.field(name) == JsonTree::Text(s),
        tree.unsigned(name) == Some(n) ==> tree.size_or(name, default) == n as usize,
        tree.unsigned(name) is None ==> tree.size_or(name, default) == default as usize,
{
}

/// The constants of the text encoder and of the code world model, and the width
/// of a head and of the hidden units, have defaults too.
pub proof fn lemma_other_settings(tree: JsonTree)
    ensures
        roberta::roberta_config_in(tree).layer_norm_eps.bits == match tree.binary64(
            "layer_norm_eps"@,
        ) {
            Some(bits) => bits,
            None => 0x3EE4_F8B5_88E3_68F1,
        },
        roberta::roberta_config_in(tree).pad_token_id == match tree.unsigned("pad_token_id"@) {
            Some(id) => id as u32,
            None => 1,
        },
        ({
            let c = code_wm::code_wm_config_in(tree);
            &&& c.layernorm_eps.bits == match tree.binary64("layernorm_eps"@) {
                Some(bits) => bits,
                None => 0x3EE4_F8B5_88E3_68F1,
            }
            &&& c.gelu_kind == GeluKind::Tanh <==> tree.text("gelu_kind"@) == Some("tanh"@)
            &&& tree.unsigned("head_dim"@) matches Some(n) ==> c.head_dim == n as usize
            &&& tree.unsigned("head_dim"@) is None ==> c.head_dim == c.model_dim / c.num_heads
            &&& tree.unsigned("mlp_hidden"@) matches Some(n) ==> c.mlp_hidden == n as usize
            &&& tree.unsigned("mlp_hidden"@) is None && c.model_dim * 4 <= usize::MAX
                ==> c.mlp_hidden == c.model_dim * 4
        }),
        vit_config::vit_config_in(tree).num_classes == match tree.field("id2label"@) {
            JsonTree::Object(labels) => labels.len() as usize,
            _ => match tree.unsigned("num_labels"@) {
                Some(n) => n as usize,
                None => 1000,
            },
        },
{
}

/// A size that a text encoder's configuration does not give has its default.
pub proof fn lemma_roberta_settings(tree: JsonTree)
    ensures
        ({
            let c = roberta::roberta_config_in(tree);
            &&& c.vocab_size == match tree.unsigned("vocab_size"@) {
                Some(n) => n as usize,
                None => 50265,
            }
            &&& c.hidden_size == match tree.unsigned("hidden_size"@) {
                Some(n) => n as usize,
                None => 768,
            }
            &&& c.num_hidden_layers == match tree.unsigned("num_hidden_layers"@) {
                Some(n) => n as usize,
                None => 12,
            }
            &&& c.num_attention_heads == match tree.unsigned("num_attention_heads"@) {
                Some(n) => n as usize,
                None => 12,
            }
            &&& c.intermediate_size == match tree.unsigned("intermediate_size"@) {
                Some(n) => n as usize,
                None => 3072,
            }
            &&& c.max_position_embeddings == match tree.unsigned("max_position_embeddings"@) {
                Some(n) => n as usize,
                None => 514,
            }
            &&& c.type_vocab_size == match tree.unsigned("type_vocab_size"@) {
                Some(n) => n as usize,
                None => 1,
            }
        }),
{
}

/// A size that a vision transformer's configuration does not give has its
/// default.
pub proof fn lemma_vit_settings(tree: JsonTree)
    ensures
        ({
            let c = vit_config::vit_config_in(tree);
            &&& c.image_size == match tree.unsigned("image_size"@) {
                Some(n) => n as usize,
                None => 224,
            }
            &&& c.patch_size == match tree.unsigned("patch_size"@) {
                Some(n) => n as usize,
                None => 16,
            }
            &&& c.channels == match tree.unsigned("num_channels"@) {
                Some(n) => n as usize,
                None => 3,
            }
            &&& c.hidden_size == match tree.unsigned("hidden_size"@) {
                Some(n) => n as usize,
                None => 768,
            }
            &&& c.num_layers == match tree.unsigned("num_hidden_layers"@) {
                Some(n) => n as usize,
                None => 12,
            }
            &&& c.num_heads == match tree.unsigned("num_attention_heads"@) {
                Some(n) => n as usize,
                None => 12,
            }
            &&& c.intermediate_size == match tree.unsigned("intermediate_size"@) {
                Some(n) => n as usize,
                None => 3072,
            }
        }),
{
}

/// A size that the configuration of the image or text side does not give has its
/// default.
pub proof fn lemma_clip_settings(tree: JsonTree)
    ensures
        ({
            let c = clip::clip_config_in(tree);
            &&& c.vision.image_size == match tree.field("vision_config"@).unsigned("image_size"@) {
                Some(n) => n as usize,
                None => 224,
            }
            &&& c.vision.patch_size == match tree.field("vision_config"@).unsigned("patch_size"@) {
                Some(n) => n as usize,
                None => 32,
            }
            &&& c.vision.channels == match tree.field("vision_config"@).unsigned("num_channels"@) {
                Some(n) => n as usize,
                None => 3,
            }
            &&& c.vision.hidden_size == match tree.field("vision_config"@).unsigned("hidden_size"@) {
                Some(n) => n as usize,
                None => 768,
            }
            &&& c.vision.num_layers == match tree.field("vision_config"@).unsigned("num_hidden_layers"@) {
                Some(n) => n as usize,
                None => 12,
            }
            &&& c.vision.num_heads == match tree.field("vision_config"@).unsigned("num_attention_heads"@) {
                Some(n) => n as usize,
                None => 12,
            }
            &&& c.vision.intermediate_size == match tree.field("vision_config"@).unsigned("intermediate_size"@) {
                Some(n) => n as usize,
                None => 3072,
            }
            &&& c.text_hidden_size == match tree.field("text_config"@).unsigned("hidden_size"@) {
                Some(n) => n as usize,
                None => 512,
            }
            &&& c.text_num_layers == match tree.field("text_config"@).unsigned("num_hidden_layers"@) {
                Some(n) => n as usize,
                None => 12,
            }
            &&& c.text_num_heads == match tree.field("text_config"@).unsigned("num_attention_heads"@) {
                Some(n) => n as usize,
                None => 8,
            }
            &&& c.text_intermediate_size == match tree.field("text_config"@).unsigned("intermediate_size"@) {
                Some(n) => n as usize,
                None => 2048,
            }
            &&& c.text_max_position == match tree.field("text_config"@).unsigned("max_position_embeddings"@) {
                Some(n) => n as usize,
                None => 77,
            }
            &&& c.vocab_size == match tree.field("text_config"@).unsigned("vocab_size"@) {
                Some(n) => n as usize,
                None => 49408,
            }
            &&& c.embed_dim == match tree.unsigned("projection_dim"@) {
                Some(n) => n as usize,
                None => 512,
            }
        }),
{
}

/// A size that a latent world model's configuration does not give has its
/// default.
pub proof fn lemma_lewm_settings(tree: JsonTree)
    ensures
        ({
            let c = lewm::lewm_config_in(tree);
            &&& c.image_size == match tree.unsigned("image_size"@) {
                Some(n) => n as usize,
                None => 224,
            }
            &&& c.patch_size == match tree.unsigned("patch_size"@) {
                Some(n) => n as usize,
                None => 14,
            }
            &&& c.channels == match tree.unsigned("channels"@) {
                Some(n) => n as usize,
                None => 3,
            }
            &&& c.encoder_hidden == match tree.unsigned("encoder_hidden"@) {
                Some(n) => n as usize,
                None => 192,
            }
            &&& c.encoder_layers == match tree.unsigned("encoder_layers"@) {
                Some(n) => n as usize,
                None => 6,
            }
            &&& c.encoder_heads == match tree.unsigned("encoder_heads"@) {
                Some(n) => n as usize,
                None => 3,
            }
            &&& c.encoder_inter == match tree.unsigned("encoder_inter"@) {
                Some(n) => n as usize,
                None => 768,
            }
            &&& c.predictor_hidden == match tree.unsigned("predictor_hidden"@) {
                Some(n) => n as usize,
                None => 192,
            }
            &&& c.predictor_layers == match tree.unsigned("predictor_layers"@) {
                Some(n) => n as usize,
                None => 6,
            }
            &&& c.predictor_heads == match tree.unsigned("predictor_heads"@) {
                Some(n) => n as usize,
                None => 16,
            }
            &&& c.predictor_inner_dim == match tree.unsigned("predictor_inner_dim"@) {
                Some(n) => n as usize,
                None => 1024,
            }
            &&& c.predictor_inter == match tree.unsigned("predictor_inter"@) {
                Some(n) => n as usize,
                None => 2048,
            }
            &&& c.action_dim == match tree.unsigned("action_dim"@) {
                Some(n) => n as usize,
                None => 10,
            }
            &&& c.latent_dim == match tree.unsigned("latent_dim"@) {
                Some(n) => n as usize,
                None => 192,
            }
        }),
{
}

/// A size that a code world model's configuration does not give has its default.
pub proof fn lemma_code_wm_settings(tree: JsonTree)
    ensures
        ({
            let c = code_wm::code_wm_config_in(tree);
            &&& c.vocab_size == match tree.unsigned("vocab_size"@) {
                Some(n) => n as usize,
                None => 662,
            }
            &&& c.max_seq_len == match tree.unsigned("max_seq_len"@) {
                Some(n) => n as usize,
                None => 512,
            }
            &&& c.model_dim == match tree.unsigned("model_dim"@) {
                Some(n) => n as usize,
                None => 128,
            }
            &&& c.num_heads == match tree.unsigned("num_heads"@) {
                Some(n) => n as usize,
                None => 4,
            }
            &&& c.encoder_loops == match tree.unsigned("encoder_loops"@) {
                Some(n) => n as usize,
                None => 6,
            }
            &&& c.predictor_depth == match tree.unsigned("predictor_depth"@) {
                Some(n) => n as usize,
                None => 2,
            }
            &&& c.predictor_loops == match tree.unsigned("predictor_loops"@) {
                Some(n) => n as usize,
                None => 6,
            }
            &&& c.action_dim == match tree.unsigned("action_dim"@) {
                Some(n) => n as usize,
                None => 7,
            }
        }),
{
}

} // verus!
