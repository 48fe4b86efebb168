//! Configuration for hybrid models that combine different layer types
//! (DeltaNet, GQA, LIV Conv) in an interleaved pattern.
//!
//! Supports two layer-pattern modes:
//! 1. **Interval** (Qwen3.5): `full_attention_interval = 4` → `[DN,DN,DN,GQA] x N`
//! 2. **Explicit** (LFM2.5): `layer_types = Some(vec![Conv,Conv,Gqa,...])` for
//!    arbitrary patterns.

use vstd::prelude::*;

use crate::config::{Binary64, BITS_10000, BITS_1E_5, BITS_1E_6, BITS_MILLION};

verus! {

/// The kind of decoder layer at a given position.
#[derive(Debug, Clone, Copy, PartialEq, Eq, Structural)]
pub enum LayerKind {
    /// DeltaNet gated linear attention (constant recurrent state).
    DeltaNet,
    /// Grouped Query Attention (KV cache).
    Gqa,
    /// Gated depthwise convolution (LFM2.5 LIV Conv).
    LivConv,
}

/// Configuration for a hybrid model combining multiple layer types.
#[derive(Debug)]
pub struct HybridConfig {
    pub hidden_size: usize,
    pub num_layers: usize,
    pub vocab_size: usize,
    pub norm_eps: Binary64,
    // GQA (full attention) parameters
    /// Number of query heads for GQA layers.
    pub num_attention_heads: usize,
    /// Number of KV heads for GQA layers (< num_attention_heads for grouped query).
    pub num_kv_heads: usize,
    /// Head dimension for GQA layers.
    pub gqa_head_dim: usize,
    // DeltaNet (linear attention) parameters
    /// Number of heads for DeltaNet layers.
    pub deltanet_num_heads: usize,
    /// Head dimension for DeltaNet layers.
    pub deltanet_head_dim: usize,
    /// Conv1d kernel size for DeltaNet layers (typically 4).
    pub deltanet_conv_kernel: usize,
    // LIV Conv parameters
    /// Inner dimension for LIV Conv layers. Typically == hidden_size.
    pub livconv_inner_size: usize,
    /// Depthwise conv kernel size for LIV Conv layers (typically 4).
    pub livconv_kernel_size: usize,
    // FFN (same for all layer types)
    /// Intermediate (hidden) size of the SwiGLU FFN.
    pub intermediate_size: usize,
    // Layer type pattern
    /// Every Nth layer is a full-attention (GQA) layer. E.g. 4 means indices
    /// 3, 7, 11, ... are GQA and the rest are DeltaNet.
    /// Used only when `layer_types` is `None`.
    pub full_attention_interval: usize,
    /// Explicit per-layer type assignment. When `Some`, overrides
    /// `full_attention_interval`. Length must equal `num_layers`.
    pub layer_types: Option<Vec<LayerKind>>,
    /// RoPE theta for GQA layers (default 10000.0).
    pub rope_theta: Binary64,
    /// Whether embeddings are tied to the LM head.
    pub tie_embedding: bool,
}

impl HybridConfig {
    /// The pattern names a kind for layer `i`.
    pub open spec fn has_kind(&self, i: int) -> bool {
        match self.layer_types {
            Some(types) => i < types@.len(),
            None => self.full_attention_interval > 0 && i < usize::MAX,
        }
    }

    /// The pattern names a kind for every layer.
    pub open spec fn wf(&self) -> bool {
        match self.layer_types {
            Some(types) => self.num_layers <= types@.len(),
            None => self.num_layers == 0 || self.full_attention_interval > 0,
        }
    }

    /// The kind of layer `i`.
    pub open spec fn kind(&self, i: int) -> LayerKind {
        match self.layer_types {
            Some(types) => types@[i],
            None => if (i + 1) % self.full_attention_interval as int == 0 {
                LayerKind::Gqa
            } else {
                LayerKind::DeltaNet
            },
        }
    }

    /// How many of the first `n` layers are of a kind.
    pub open spec fn count(&self, kind: LayerKind, n: nat) -> nat
        decreases n,
    {
        if n == 0 {
            0
        } else {
            self.count(kind, (n - 1) as nat) + if self.kind(n - 1) == kind {
                1nat
            } else {
                0
            }
        }
    }

    /// Returns the kind of layer at position `layer_idx`.
    ///
    /// Uses `layer_types` if set, otherwise falls back to `full_attention_interval`.
    pub fn layer_kind(&self, layer_idx: usize) -> (r: LayerKind)
        requires
            self.has_kind(layer_idx as int),
        ensures
            r == self.kind(layer_idx as int),
    {
        match &self.layer_types {
            Some(types) => types[layer_idx],
            None => if (layer_idx + 1) % self.full_attention_interval == 0 {
                LayerKind::Gqa
            } else {
                LayerKind::DeltaNet
            },
        }
    }

    /// Returns `true` if `layer_idx` is a full-attention (GQA) layer.
    pub fn is_full_attention(&self, layer_idx: usize) -> (r: bool)
        requires
            self.has_kind(layer_idx as int),
        ensures
            r == (self.kind(layer_idx as int) == LayerKind::Gqa),
    {
        self.layer_kind(layer_idx) == LayerKind::Gqa
    }

    /// How many layers are of a kind.
    fn count_kind(&self, kind: LayerKind) -> (r: usize)
        requires
            self.wf(),
        ensures
            r == self.count(kind, self.num_layers as nat),
    {
        let mut n: usize = 0;
        for i in 0..self.num_layers
            invariant
                self.wf(),
                n == self.count(kind, i as nat),
                n <= i,
        {
            if self.layer_kind(i) == kind {
                n += 1;
            }
        }
        n
    }

    /// Number of DeltaNet (linear attention) layers in the model.
    pub fn num_deltanet_layers(&self) -> (r: usize)
        requires
            self.wf(),
        ensures
            r == self.count(LayerKind::DeltaNet, self.num_layers as nat),
    {
        self.count_kind(LayerKind::DeltaNet)
    }

    /// Number of GQA (full attention) layers in the model.
    pub fn num_gqa_layers(&self) -> (r: usize)
        requires
            self.wf(),
        ensures
            r == self.count(LayerKind::Gqa, self.num_layers as nat),
    {
        self.count_kind(LayerKind::Gqa)
    }

    /// Number of LIV Conv layers in the model.
    pub fn num_livconv_layers(&self) -> (r: usize)
        requires
            self.wf(),
        ensures
            r == self.count(LayerKind::LivConv, self.num_layers as nat),
    {
        self.count_kind(LayerKind::LivConv)
    }

    /// Every layer is of exactly one kind.
    pub proof fn lemma_counts(&self, n: nat)
        ensures
            self.count(LayerKind::DeltaNet, n) + self.count(LayerKind::Gqa, n) + self.count(
                LayerKind::LivConv,
                n,
            ) == n,
        decreases n,
    {
        if n > 0 {
            self.lemma_counts((n - 1) as nat);
        }
    }

    /// Of `n` layers by interval, every `interval`th is a GQA layer and the
    /// rest are DeltaNet layers.
    pub proof fn lemma_interval_counts(&self, n: nat)
        requires
            self.layer_types is None,
            self.full_attention_interval > 0,
        ensures
            self.count(LayerKind::Gqa, n) == n / self.full_attention_interval as nat,
            self.count(LayerKind::DeltaNet, n) == n - n / self.full_attention_interval as nat,
            self.count(LayerKind::LivConv, n) == 0,
        decreases n,
    {
        let d = self.full_attention_interval as int;
        if n == 0 {
            assert(0int / d == 0) by (nonlinear_arith)
                requires
                    d > 0,
            ;
        } else {
            let m = n - 1;
            self.lemma_interval_counts(m as nat);
            assert((m + 1) / d == m / d + if (m + 1) % d == 0 {
                1int
            } else {
                0
            }) by {
                let q = m / d;
                let r = m % d;
                vstd::arithmetic::div_mod::lemma_fundamental_div_mod(m, d);
                vstd::arithmetic::div_mod::lemma_mod_bound(m, d);
                if r + 1 == d {
                    assert(m + 1 == (q + 1) * d) by (nonlinear_arith)
                        requires
                            m == d * q + r,
                            r + 1 == d,
                    ;
                    vstd::arithmetic::div_mod::lemma_fundamental_div_mod_converse(
                        m + 1,
                        d,
                        q + 1,
                        0,
                    );
                } else {
                    assert(m + 1 == q * d + (r + 1)) by (nonlinear_arith)
                        requires
                            m == d * q + r,
                    ;
                    vstd::arithmetic::div_mod::lemma_fundamental_div_mod_converse(
                        m + 1,
                        d,
                        q,
                        r + 1,
                    );
                }
            }
        }
    }

    /// Qwen3.5-0.8B configuration.
    pub fn qwen35_0_8b() -> (r: Self)
        ensures
            r == (HybridConfig {
                hidden_size: 1024,
                num_layers: 24,
                vocab_size: 151936,
                norm_eps: Binary64 { bits: BITS_1E_6 },
                num_attention_heads: 16,
                num_kv_heads: 8,
                gqa_head_dim: 64,
                deltanet_num_heads: 16,
                deltanet_head_dim: 64,
                deltanet_conv_kernel: 4,
                livconv_inner_size: 0,
                livconv_kernel_size: 4,
                intermediate_size: 3072,
                full_attention_interval: 4,
                layer_types: None,
                rope_theta: Binary64 { bits: BITS_10000 },
                tie_embedding: false,
            }),
    {
        HybridConfig {
            hidden_size: 1024,
            num_layers: 24,
            vocab_size: 151936,
            norm_eps: Binary64 { bits: BITS_1E_6 },
            num_attention_heads: 16,
            num_kv_heads: 8,
            gqa_head_dim: 64,
            deltanet_num_heads: 16,
            deltanet_head_dim: 64,
            deltanet_conv_kernel: 4,
            livconv_inner_size: 0,
            livconv_kernel_size: 4,
            intermediate_size: 3072,
            full_attention_interval: 4,
            layer_types: None,
            rope_theta: Binary64 { bits: BITS_10000 },
            tie_embedding: false,
        }
    }

    /// LFM2.5-350M configuration (LiquidAI).
    ///
    /// 16 layers: 10 gated LIV conv + 6 GQA attention.
    /// Non-regular interleaving: C,C,A,C,C,A,C,C,A,C,A,C,A,C,A,C
    pub fn lfm25_350m() -> (r: Self)
        ensures
            r.layer_types is Some,
            r.layer_types->0@ == seq![
                LayerKind::LivConv,
                LayerKind::LivConv,
                LayerKind::Gqa,
                LayerKind::LivConv,
                LayerKind::LivConv,
                LayerKind::Gqa,
                LayerKind::LivConv,
                LayerKind::LivConv,
                LayerKind::Gqa,
                LayerKind::LivConv,
                LayerKind::Gqa,
                LayerKind::LivConv,
                LayerKind::Gqa,
                LayerKind::LivConv,
                LayerKind::Gqa,
                LayerKind::LivConv,
            ],
            r == (HybridConfig {
                hidden_size: 1024,
                num_layers: 16,
                vocab_size: 65536,
                norm_eps: Binary64 { bits: BITS_1E_5 },
                num_attention_heads: 16,
                num_kv_heads: 8,
                gqa_head_dim: 64,
                deltanet_num_heads: 0,
                deltanet_head_dim: 0,
                deltanet_conv_kernel: 0,
                livconv_inner_size: 1024,
                livconv_kernel_size: 3,
                intermediate_size: 6656,
                full_attention_interval: 1,
                layer_types: r.layer_types,
                rope_theta: Binary64 { bits: BITS_MILLION },
                tie_embedding: true,
            }),
            r.wf(),
    {
        let layer_types = vec![
            LayerKind::LivConv,
            LayerKind::LivConv,
            LayerKind::Gqa,
            LayerKind::LivConv,
            LayerKind::LivConv,
            LayerKind::Gqa,
            LayerKind::LivConv,
            LayerKind::LivConv,
            LayerKind::Gqa,
            LayerKind::LivConv,
            LayerKind::Gqa,
            LayerKind::LivConv,
            LayerKind::Gqa,
            LayerKind::LivConv,
            LayerKind::Gqa,
            LayerKind::LivConv,
        ];
        HybridConfig {
            hidden_size: 1024,
            num_layers: 16,
            vocab_size: 65536,
            norm_eps: Binary64 { bits: BITS_1E_5 },
            num_attention_heads: 16,
            num_kv_heads: 8,
            gqa_head_dim: 64,  // 1024 / 16
            deltanet_num_heads: 0,
            deltanet_head_dim: 0,
            deltanet_conv_kernel: 0,
            livconv_inner_size: 1024,
            livconv_kernel_size: 3,  // conv_L_cache=3 = kernel_size
            intermediate_size: 6656,
            full_attention_interval: 1,  // unused — layer_types takes precedence
            layer_types: Some(layer_types),
            rope_theta: Binary64 { bits: BITS_MILLION },
            tie_embedding: true,
        }
    }

    /// Tiny configuration for unit tests (4 layers: 3 DeltaNet + 1 GQA).
    pub fn tiny_test() -> (r: Self)
        ensures
            r == (HybridConfig {
                hidden_size: 64,
                num_layers: 4,
                vocab_size: 128,
                norm_eps: Binary64 { bits: BITS_1E_6 },
                num_attention_heads: 4,
                num_kv_heads: 2,
                gqa_head_dim: 16,
                deltanet_num_heads: 4,
                deltanet_head_dim: 16,
                deltanet_conv_kernel: 4,
                livconv_inner_size: 0,
                livconv_kernel_size: 4,
                intermediate_size: 128,
                full_attention_interval: 4,
                layer_types: None,
                rope_theta: Binary64 { bits: BITS_10000 },
                tie_embedding: false,
            }),
    {
        HybridConfig {
            hidden_size: 64,
            num_layers: 4,
            vocab_size: 128,
            norm_eps: Binary64 { bits: BITS_1E_6 },
            num_attention_heads: 4,
            num_kv_heads: 2,
            gqa_head_dim: 16,
            deltanet_num_heads: 4,
            deltanet_head_dim: 16,
            deltanet_conv_kernel: 4,
            livconv_inner_size: 0,
            livconv_kernel_size: 4,
            intermediate_size: 128,
            full_attention_interval: 4,
            layer_types: None,
            rope_theta: Binary64 { bits: BITS_10000 },
            tie_embedding: false,
        }
    }

    /// Tiny LIV Conv test config (4 layers: 2 LivConv + 2 GQA).
    pub fn tiny_test_livconv() -> (r: Self)
        ensures
            r.layer_types is Some,
            r.layer_types->0@ == seq![
                LayerKind::LivConv,
                LayerKind::Gqa,
                LayerKind::LivConv,
                LayerKind::Gqa,
            ],
            r == (HybridConfig {
                hidden_size: 64,
                num_layers: 4,
                vocab_size: 128,
                norm_eps: Binary64 { bits: BITS_1E_6 },
                num_attention_heads: 4,
                num_kv_heads: 2,
                gqa_head_dim: 16,
                deltanet_num_heads: 0,
                deltanet_head_dim: 0,
                deltanet_conv_kernel: 0,
                livconv_inner_size: 64,
                livconv_kernel_size: 4,
                intermediate_size: 128,
                full_attention_interval: 1,
                layer_types: r.layer_types,
                rope_theta: Binary64 { bits: BITS_10000 },
                tie_embedding: false,
            }),
            r.wf(),
    {
        let layer_types = vec![
            LayerKind::LivConv,
            LayerKind::Gqa,
            LayerKind::LivConv,
            LayerKind::Gqa,
        ];
        HybridConfig {
            hidden_size: 64,
            num_layers: 4,
            vocab_size: 128,
            norm_eps: Binary64 { bits: BITS_1E_6 },
            num_attention_heads: 4,
            num_kv_heads: 2,
            gqa_head_dim: 16,
            deltanet_num_heads: 0,
            deltanet_head_dim: 0,
            deltanet_conv_kernel: 0,
            livconv_inner_size: 64,
            livconv_kernel_size: 4,
            intermediate_size: 128,
            full_attention_interval: 1,  // unused
            layer_types: Some(layer_types),
            rope_theta: Binary64 { bits: BITS_10000 },
            tie_embedding: false,
        }
    }
}

} // verus!
