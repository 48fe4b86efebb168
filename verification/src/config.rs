//! Configuration of language models and of the parts they are built from.

use vstd::prelude::*;

use crate::attention::HeadLayout;
use crate::text::str_eq;

verus! {

/// A number by the bits of its IEEE 754 binary64 form.
#[derive(Debug, Clone, Copy, PartialEq, Eq, Structural)]
pub struct Binary64 {
    pub bits: u64,
}

/// The bits of `1e-6`.
pub const BITS_1E_6: u64 = 0x3EB0_C6F7_A0B5_ED8D;

/// The bits of `1e-5`.
pub const BITS_1E_5: u64 = 0x3EE4_F8B5_88E3_68F1;

/// The bits of `1e-12`.
pub const BITS_1E_12: u64 = 0x3D71_9799_812D_EA11;

/// The bits of `4`.
pub const BITS_FOUR: u64 = 0x4010_0000_0000_0000;

/// The bits of `10000`.
pub const BITS_10000: u64 = 0x40C3_8800_0000_0000;

/// The bits of `1000000`.
pub const BITS_MILLION: u64 = 0x412E_8480_0000_0000;

/// The normalisation that precedes a sub-layer.
#[derive(Debug, Clone, Copy, PartialEq, Eq, Structural)]
pub enum NormConfig {
    RMSNorm { eps: Binary64 },
    LayerNorm { eps: Binary64 },
}

impl NormConfig {
    pub open spec fn spec_eps(self) -> Binary64 {
        match self {
            NormConfig::RMSNorm { eps } => eps,
            NormConfig::LayerNorm { eps } => eps,
        }
    }

    /// The constant added under the square root.
    pub fn eps(&self) -> (r: Binary64)
        ensures
            r == self.spec_eps(),
    {
        match self {
            NormConfig::RMSNorm { eps } => *eps,
            NormConfig::LayerNorm { eps } => *eps,
        }
    }
}

/// How an attention layer distributes its heads and what it looks at.
#[derive(Debug, Clone, Copy, PartialEq, Eq, Structural)]
pub enum AttentionConfig {
    /// Groups of query heads share a key/value head.
    GQA { num_heads: usize, num_kv_heads: usize, head_dim: usize },
    /// As `GQA`, and decoding sees the last `window_size` positions only.
    SlidingWindow { num_heads: usize, num_kv_heads: usize, head_dim: usize, window_size: usize },
    /// Every position sees every other; each head has its own keys and values.
    Bidirectional { num_heads: usize, head_dim: usize },
}

impl AttentionConfig {
    pub open spec fn spec_layout(self) -> HeadLayout {
        match self {
            AttentionConfig::GQA { num_heads, num_kv_heads, head_dim } => HeadLayout {
                num_heads,
                num_kv_heads,
                head_dim,
            },
            AttentionConfig::SlidingWindow { num_heads, num_kv_heads, head_dim, window_size } =>
                HeadLayout { num_heads, num_kv_heads, head_dim },
            AttentionConfig::Bidirectional { num_heads, head_dim } => HeadLayout {
                num_heads,
                num_kv_heads: num_heads,
                head_dim,
            },
        }
    }

    pub open spec fn spec_window(self) -> Option<usize> {
        match self {
            AttentionConfig::SlidingWindow { num_heads, num_kv_heads, head_dim, window_size } =>
                Some(window_size),
            _ => None,
        }
    }

    /// Heads and their width.
    pub fn layout(&self) -> (r: HeadLayout)
        ensures
            r == self.spec_layout(),
    {
        match self {
            AttentionConfig::GQA { num_heads, num_kv_heads, head_dim } => HeadLayout {
                num_heads: *num_heads,
                num_kv_heads: *num_kv_heads,
                head_dim: *head_dim,
            },
            AttentionConfig::SlidingWindow { num_heads, num_kv_heads, head_dim, .. } =>
                HeadLayout {
                num_heads: *num_heads,
                num_kv_heads: *num_kv_heads,
                head_dim: *head_dim,
            },
            AttentionConfig::Bidirectional { num_heads, head_dim } => HeadLayout {
                num_heads: *num_heads,
                num_kv_heads: *num_heads,
                head_dim: *head_dim,
            },
        }
    }

    pub fn num_heads(&self) -> (r: usize)
        ensures
            r == self.spec_layout().num_heads,
    {
        self.layout().num_heads
    }

    pub fn num_kv_heads(&self) -> (r: usize)
        ensures
            r == self.spec_layout().num_kv_heads,
    {
        self.layout().num_kv_heads
    }

    pub fn head_dim(&self) -> (r: usize)
        ensures
            r == self.spec_layout().head_dim,
    {
        self.layout().head_dim
    }

    /// How many positions decoding looks back, if it is limited.
    pub fn window_size(&self) -> (r: Option<usize>)
        ensures
            r == self.spec_window(),
    {
        match self {
            AttentionConfig::SlidingWindow { window_size, .. } => Some(*window_size),
            _ => None,
        }
    }
}

/// The feed-forward part of a layer.
#[derive(Debug, Clone, Copy, PartialEq, Eq, Structural)]
pub enum FFNConfig {
    SwiGLU { intermediate_size: usize },
    GeGLU { intermediate_size: usize },
    GELU { intermediate_size: usize },
}

impl FFNConfig {
    pub open spec fn spec_intermediate_size(self) -> usize {
        match self {
            FFNConfig::SwiGLU { intermediate_size } => intermediate_size,
            FFNConfig::GeGLU { intermediate_size } => intermediate_size,
            FFNConfig::GELU { intermediate_size } => intermediate_size,
        }
    }

    pub open spec fn spec_name(self) -> Seq<char> {
        match self {
            FFNConfig::SwiGLU { intermediate_size } => "SwiGLU"@,
            FFNConfig::GeGLU { intermediate_size } => "GeGLU"@,
            FFNConfig::GELU { intermediate_size } => "GELU"@,
        }
    }

    /// A gate is multiplied into the hidden units.
    pub open spec fn gated(self) -> bool {
        !(self is GELU)
    }

    pub fn intermediate_size(&self) -> (r: usize)
        ensures
            r == self.spec_intermediate_size(),
    {
        match self {
            FFNConfig::SwiGLU { intermediate_size } => *intermediate_size,
            FFNConfig::GeGLU { intermediate_size } => *intermediate_size,
            FFNConfig::GELU { intermediate_size } => *intermediate_size,
        }
    }

    pub fn name(&self) -> (r: &'static str)
        ensures
            r@ == self.spec_name(),
    {
        match self {
            FFNConfig::SwiGLU { .. } => "SwiGLU",
            FFNConfig::GeGLU { .. } => "GeGLU",
            FFNConfig::GELU { .. } => "GELU",
        }
    }

    /// The names of the variants tell the gated ones apart.
    pub proof fn lemma_gated_by_name(self)
        ensures
            self.gated() == (self.spec_name() == "SwiGLU"@ || self.spec_name() == "GeGLU"@),
    {
        reveal_strlit("SwiGLU");
        reveal_strlit("GeGLU");
        reveal_strlit("GELU");
        assert("GELU"@.len() != "SwiGLU"@.len());
        assert("GELU"@.len() != "GeGLU"@.len());
    }
}

/// Whether this FFN variant is gated (3 weight matrices instead of 2).
pub fn is_gated_ffn(name: &str) -> (r: bool)
    ensures
        r == (name@ == "SwiGLU"@ || name@ == "GeGLU"@),
{
    str_eq(name, "SwiGLU") || str_eq(name, "GeGLU")
}

/// Which dimensions a rotary embedding pairs up.
#[derive(Debug, Clone, Copy, PartialEq, Eq, Structural)]
pub enum RoPEStyle {
    /// Dimension `i` with dimension `i + head_dim / 2`.
    RotateHalf,
    /// Dimension `2 * i` with dimension `2 * i + 1`.
    Interleaved,
}

impl Default for RoPEStyle {
    fn default() -> (r: Self)
        ensures
            r == RoPEStyle::RotateHalf,
    {
        RoPEStyle::RotateHalf
    }
}

/// How rotary frequencies are stretched for long contexts.
#[derive(Debug, Clone, Copy, PartialEq, Eq, Structural)]
pub enum RoPEScaling {
    Unscaled,
    Linear { factor: Binary64 },
    Dynamic { factor: Binary64 },
}

impl Default for RoPEScaling {
    fn default() -> (r: Self)
        ensures
            r == RoPEScaling::Unscaled,
    {
        RoPEScaling::Unscaled
    }
}

/// How positions enter the model.
#[derive(Debug, Clone, Copy, PartialEq, Eq, Structural)]
pub enum PositionConfig {
    RoPE {
        base: Binary64,
        max_position_embeddings: usize,
        style: RoPEStyle,
        scaling: RoPEScaling,
    },
    Learned { max_position_embeddings: usize },
}

/// The overall dimensions of a language model.
#[derive(Debug, Clone, Copy, PartialEq, Eq, Structural)]
pub struct ArchitectureConfig {
    pub hidden_size: usize,
    pub num_layers: usize,
    pub vocab_size: usize,
    pub max_sequence_length: usize,
    /// The output projection reuses the token embedding.
    pub tie_word_embeddings: bool,
    /// A factor on the token embeddings.
    pub embed_scale: Option<Binary64>,
}

/// A language model's configuration.
pub struct ModelConfig {
    pub name: String,
    pub architecture: ArchitectureConfig,
    pub attention: AttentionConfig,
    pub norm: NormConfig,
    pub ffn: FFNConfig,
    pub position: PositionConfig,
}

impl ModelConfig {
    /// A configuration with the same contents.
    pub fn duplicate(&self) -> (r: Self)
        ensures
            r.name@ == self.name@,
            r.architecture == self.architecture,
            r.attention == self.attention,
            r.norm == self.norm,
            r.ffn == self.ffn,
            r.position == self.position,
    {
        ModelConfig {
            name: self.name.clone(),
            architecture: self.architecture,
            attention: self.attention,
            norm: self.norm,
            ffn: self.ffn,
            position: self.position,
        }
    }
}

} // verus!
