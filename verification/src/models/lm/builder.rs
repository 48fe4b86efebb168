//! Assembles causal language models from their configuration.

use vstd::prelude::*;

use crate::buffer::AlignedBuffer;
use crate::config::{
    ModelConfig, PositionConfig, RoPEScaling, RoPEStyle, BITS_10000,
};
use crate::models::lm::causal_lm::CausalLM;
use crate::models::lm::decoder_layer::{DecoderLayer, DecoderStructure};
use crate::ops;
use crate::scalar;
use crate::scalar::{Math, Scalar};
use crate::text::str_eq;

verus! {

/// Assembles a [`CausalLM`] from a [`ModelConfig`].
///
/// The returned model has the correct structure (layers, norms, attention
/// geometry) but weights are uninitialized (empty buffers). Call
/// [`CausalLM::load_weights`] to populate them before inference.
pub struct ModelBuilder;

/// The model families whose layers have no per-head Q/K norms.
pub open spec fn without_head_norms(name: Seq<char>) -> bool {
    name == "llama"@ || name == "mistral"@ || name == "phi"@ || name == "phi3"@ || name == "gemma"@
        || name == "gemma2"@ || name == "qwen2"@ || name == "qwen2.5"@ || name == "vit"@
}

/// The pairing convention; the default where positions are not rotary.
pub open spec fn style_of(position: PositionConfig) -> RoPEStyle {
    match position {
        PositionConfig::RoPE { base, max_position_embeddings, style, scaling } => style,
        _ => RoPEStyle::RotateHalf,
    }
}

/// What each layer of the built model is.
pub open spec fn built_layer(config: ModelConfig) -> DecoderStructure {
    DecoderStructure {
        attn_norm: config.norm,
        attention: config.attention,
        ffn_norm: config.norm,
        ffn: config.ffn,
        hidden_size: config.architecture.hidden_size,
        has_head_norms: !without_head_norms(config.name@),
        rope_style: style_of(config.position),
    }
}

/// How many positions the tables of angles cover.
pub open spec fn table_rows(config: ModelConfig) -> usize {
    match config.position {
        PositionConfig::RoPE { base, max_position_embeddings, style, scaling } =>
            max_position_embeddings,
        _ => config.architecture.max_sequence_length,
    }
}

/// The base of the rotary frequencies.
pub open spec fn effective_base<T, M: Math<T>>(config: ModelConfig) -> T {
    match config.position {
        PositionConfig::RoPE { base, max_position_embeddings, style, scaling } => match scaling {
            RoPEScaling::Dynamic { factor } => scalar::dynamic_base_of::<T, M>(
                base.bits,
                factor.bits,
                config.attention.spec_layout().head_dim,
            ),
            _ => scalar::binary64_of::<T, M>(base.bits),
        },
        _ => scalar::binary64_of::<T, M>(BITS_10000),
    }
}

/// What the rotary frequencies are divided by.
pub open spec fn linear_factor<T, M: Math<T>>(config: ModelConfig) -> T {
    match config.position {
        PositionConfig::RoPE {
            base,
            max_position_embeddings,
            style,
            scaling: RoPEScaling::Linear { factor },
        } => scalar::binary64_of::<T, M>(factor.bits),
        _ => scalar::one::<T, M>(),
    }
}

/// The angle of frequency `i` at position `pos`:
/// `pos * (1 / base^(2 i / head_dim)) / factor`.
pub open spec fn angle<T: Scalar, M: Math<T>>(config: ModelConfig, pos: int, i: int) -> T {
    let exponent = scalar::over(
        scalar::times(scalar::count_of::<T, M>(2), scalar::count_of::<T, M>(i as usize)),
        scalar::count_of::<T, M>(config.attention.spec_layout().head_dim),
    );
    let freq = scalar::over(
        scalar::one::<T, M>(),
        scalar::pow_of::<T, M>(effective_base::<T, M>(config), exponent),
    );
    scalar::times(
        scalar::count_of::<T, M>(pos as usize),
        scalar::over(freq, linear_factor::<T, M>(config)),
    )
}

/// The cosines, a row of `head_dim / 2` for each position.
pub open spec fn cos_table<T: Scalar, M: Math<T>>(config: ModelConfig) -> Seq<T> {
    let half = config.attention.spec_layout().head_dim as nat / 2;
    ops::blocks(
        table_rows(config) as nat,
        |pos: int| Seq::new(half, |i: int| scalar::cos_of::<T, M>(angle::<T, M>(config, pos, i))),
    )
}

/// The sines, a row of `head_dim / 2` for each position.
pub open spec fn sin_table<T: Scalar, M: Math<T>>(config: ModelConfig) -> Seq<T> {
    let half = config.attention.spec_layout().head_dim as nat / 2;
    ops::blocks(
        table_rows(config) as nat,
        |pos: int| Seq::new(half, |i: int| scalar::sin_of::<T, M>(angle::<T, M>(config, pos, i))),
    )
}

/// Precompute RoPE cosine and sine tables from model config.
///
/// Returns `(cos, sin)` each shaped `[max_pos, head_dim / 2]` (flat).
pub fn precompute_rope_tables<T: Scalar, M: Math<T>>(config: &ModelConfig) -> (r: (Vec<T>, Vec<T>))
    requires
        scalar::mathematics::<T, M>(),
    ensures
        r.0@ == cos_table::<T, M>(*config),
        r.1@ == sin_table::<T, M>(*config),
{
    let head_dim = config.attention.head_dim();
    let half_d = head_dim / 2;
    let base = match config.position {
        PositionConfig::RoPE { base, scaling, .. } => match scaling {
            RoPEScaling::Dynamic { factor } => M::dynamic_base(base.bits, factor.bits, head_dim),
            _ => M::from_binary64(base.bits),
        },
        _ => M::from_binary64(BITS_10000),
    };
    let factor = match config.position {
        PositionConfig::RoPE { scaling: RoPEScaling::Linear { factor }, .. } => M::from_binary64(
            factor.bits,
        ),
        _ => M::one(),
    };
    let max_pos = match config.position {
        PositionConfig::RoPE { max_position_embeddings, .. } => max_position_embeddings,
        _ => config.architecture.max_sequence_length,
    };
    let ghost f = |pos: int|
        Seq::new(
            half_d as nat,
            |i: int| scalar::cos_of::<T, M>(angle::<T, M>(*config, pos, i)),
        );
    let ghost g = |pos: int|
        Seq::new(
            half_d as nat,
            |i: int| scalar::sin_of::<T, M>(angle::<T, M>(*config, pos, i)),
        );
    let mut cos: Vec<T> = Vec::new();
    let mut sin: Vec<T> = Vec::new();
    for pos in 0..max_pos
        invariant
            scalar::mathematics::<T, M>(),
            head_dim == config.attention.spec_layout().head_dim,
            half_d == head_dim / 2,
            base == effective_base::<T, M>(*config),
            factor == linear_factor::<T, M>(*config),
            f == (|pos: int|
                Seq::new(
                    half_d as nat,
                    |i: int| scalar::cos_of::<T, M>(angle::<T, M>(*config, pos, i)),
                )),
            g == (|pos: int|
                Seq::new(
                    half_d as nat,
                    |i: int| scalar::sin_of::<T, M>(angle::<T, M>(*config, pos, i)),
                )),
            cos@ == ops::blocks(pos as nat, f),
            sin@ == ops::blocks(pos as nat, g),
    {
        let ghost cos_done = cos@;
        let ghost sin_done = sin@;
        for i in 0..half_d
            invariant
                scalar::mathematics::<T, M>(),
                head_dim == config.attention.spec_layout().head_dim,
                base == effective_base::<T, M>(*config),
                factor == linear_factor::<T, M>(*config),
                cos@ == cos_done + Seq::new(
                    i as nat,
                    |i: int| scalar::cos_of::<T, M>(angle::<T, M>(*config, pos as int, i)),
                ),
                sin@ == sin_done + Seq::new(
                    i as nat,
                    |i: int| scalar::sin_of::<T, M>(angle::<T, M>(*config, pos as int, i)),
                ),
        {
            let exponent = M::count(2) * M::count(i) / M::count(head_dim);
            let freq = M::one() / M::pow(base, exponent);
            let a = M::count(pos) * (freq / factor);
            let c = M::cos(a);
            let s = M::sin(a);
            cos.push(c);
            sin.push(s);
            assert(cos@ =~= cos_done + Seq::new(
                (i + 1) as nat,
                |i: int| scalar::cos_of::<T, M>(angle::<T, M>(*config, pos as int, i)),
            ));
            assert(sin@ =~= sin_done + Seq::new(
                (i + 1) as nat,
                |i: int| scalar::sin_of::<T, M>(angle::<T, M>(*config, pos as int, i)),
            ));
        }
        assert(cos@ =~= ops::blocks((pos + 1) as nat, f));
        assert(sin@ =~= ops::blocks((pos + 1) as nat, g));
    }
    (cos, sin)
}

impl ModelBuilder {
    /// Build a `CausalLM` from a model configuration.
    ///
    /// Creates embedding + N decoder layers + final norm + lm_head.
    /// Handles `tie_word_embeddings`: when true, `lm_head_weight` is `None`.
    /// Precomputes RoPE cos/sin tables shared across all layers.
    pub fn from_config<T: Scalar, M: Math<T>>(config: &ModelConfig) -> (r: CausalLM<T>)
        requires
            scalar::mathematics::<T, M>(),
        ensures
            r.config.name@ == config.name@,
            r.config.architecture == config.architecture,
            r.config.attention == config.attention,
            r.config.norm == config.norm,
            r.config.ffn == config.ffn,
            r.config.position == config.position,
            r.final_norm == config.norm,
            r.layers@.len() == config.architecture.num_layers,
            forall|i: int|
                0 <= i < r.layers@.len() ==> {
                    &&& (#[trigger] r.layers@[i]).structure() == built_layer(*config)
                    &&& forall|n: Seq<char>|
                        (#[trigger] r.layers@[i].field(n)) is Some ==> r.layers@[i].field(n)->0
                            == Seq::<T>::empty()
                },
            r.embed_tokens@ == Seq::<T>::empty(),
            r.final_norm_weight@ == Seq::<T>::empty(),
            r.lm_head_weight is None <==> config.architecture.tie_word_embeddings,
            r.lm_head_weight is Some ==> r.lm_head_weight->0@ == Seq::<T>::empty(),
            r.unloaded(),
            r.rope_cos@ == cos_table::<T, M>(*config),
            r.rope_sin@ == sin_table::<T, M>(*config),
    {
        let name = config.name.as_str();
        let has_head_norms = !(str_eq(name, "llama") || str_eq(name, "mistral") || str_eq(
            name,
            "phi",
        ) || str_eq(name, "phi3") || str_eq(name, "gemma") || str_eq(name, "gemma2") || str_eq(
            name,
            "qwen2",
        ) || str_eq(name, "qwen2.5") || str_eq(name, "vit"));
        let rope_style = match config.position {
            PositionConfig::RoPE { style, .. } => style,
            _ => RoPEStyle::default(),
        };
        let num_layers = config.architecture.num_layers;
        let mut layers: Vec<DecoderLayer<T>> = Vec::with_capacity(num_layers);
        for i in 0..num_layers
            invariant
                layers@.len() == i,
                has_head_norms == !without_head_norms(config.name@),
                rope_style == style_of(config.position),
                forall|j: int|
                    0 <= j < i ==> {
                        &&& (#[trigger] layers@[j]).structure() == built_layer(*config)
                        &&& forall|n: Seq<char>|
                            (#[trigger] layers@[j].field(n)) is Some ==> layers@[j].field(n)->0
                                == Seq::<T>::empty()
                    },
        {
            let layer = DecoderLayer {
                attn_norm: config.norm,
                attention: config.attention,
                ffn_norm: config.norm,
                ffn: config.ffn,
                hidden_size: config.architecture.hidden_size,
                has_head_norms,
                rope_style,
                attn_norm_weight: AlignedBuffer::empty(),
                w_q: AlignedBuffer::empty(),
                w_k: AlignedBuffer::empty(),
                w_v: AlignedBuffer::empty(),
                w_o: AlignedBuffer::empty(),
                q_norm_weight: AlignedBuffer::empty(),
                k_norm_weight: AlignedBuffer::empty(),
                q_bias: AlignedBuffer::empty(),
                k_bias: AlignedBuffer::empty(),
                v_bias: AlignedBuffer::empty(),
                ffn_norm_weight: AlignedBuffer::empty(),
                ffn_gate: AlignedBuffer::empty(),
                ffn_up: AlignedBuffer::empty(),
                ffn_down: AlignedBuffer::empty(),
            };
            assert(layer.structure() == built_layer(*config));
            layers.push(layer);
        }
        let (rope_cos, rope_sin) = precompute_rope_tables::<T, M>(config);
        CausalLM {
            config: config.duplicate(),
            layers,
            final_norm: config.norm,
            embed_tokens: AlignedBuffer::empty(),
            final_norm_weight: AlignedBuffer::empty(),
            lm_head_weight: if config.architecture.tie_word_embeddings {
                None
            } else {
                Some(AlignedBuffer::empty())
            },
            rope_cos,
            rope_sin,
        }
    }
}

} // verus!
