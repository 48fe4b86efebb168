//! Decoder-only language models.

pub mod builder;
pub mod causal_lm;
pub mod decoder_layer;
pub mod dispatch;
pub mod traits;
