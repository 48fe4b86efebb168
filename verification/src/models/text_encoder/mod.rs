//! Encoder-only text transformers (RoBERTa family, UniXcoder, CodeBERT).
//!
//! Unlike the vision encoder layers, which are pre-norm, these use the RoBERTa
//! post-norm convention (`attn → add → LN → FFN → add → LN`) and
//! padding-aware attention.
//!
//! [`unixcoder::unixcoder_base`] gives the configuration of
//! `microsoft/unixcoder-base`, the frozen backbone of the CodeDeltaTok head.

pub mod code_deltatok;
pub mod code_deltatok_q4;
pub mod masked_attention;
pub mod roberta;
pub mod roberta_q4;
pub mod unixcoder;
