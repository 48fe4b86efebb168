//! `microsoft/unixcoder-base` preset for [`RoBERTaConfig`].

use vstd::prelude::*;

use crate::config::{Binary64, BITS_1E_5};
use crate::models::text_encoder::roberta::RoBERTaConfig;

verus! {

/// Configuration for `microsoft/unixcoder-base`.
///
/// UniXcoder is architecturally a RoBERTa-base encoder, differing only in
/// vocabulary and pretraining data.
pub fn unixcoder_base() -> (r: RoBERTaConfig)
    ensures
        r == (RoBERTaConfig {
            vocab_size: 51416,
            hidden_size: 768,
            num_hidden_layers: 12,
            num_attention_heads: 12,
            intermediate_size: 3072,
            max_position_embeddings: 1026,
            type_vocab_size: 10,
            layer_norm_eps: Binary64 { bits: BITS_1E_5 },
            pad_token_id: 1,
        }),
{
    RoBERTaConfig {
        vocab_size: 51416,
        hidden_size: 768,
        num_hidden_layers: 12,
        num_attention_heads: 12,
        intermediate_size: 3072,
        max_position_embeddings: 1026,
        type_vocab_size: 10,
        layer_norm_eps: Binary64 { bits: BITS_1E_5 },
        pad_token_id: 1,
    }
}

} // verus!
