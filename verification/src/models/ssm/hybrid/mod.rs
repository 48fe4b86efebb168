//! Hybrid language models: DeltaNet, GQA and LIV Conv layers in one stack.

pub mod config;
pub mod deltanet_layer;
pub mod gqa_layer;
pub mod livconv_layer;
pub mod model;
pub mod weights;
