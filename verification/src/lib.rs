//! Model assembly, weight loading and inference for the Synapse engine.

pub mod attention;
pub mod backend;
pub mod buffer;
pub mod chat_template;
pub mod config;
pub mod gelu;
pub mod json;
pub mod kv_cache;
pub mod laws;
pub mod model_adapter;
pub mod models;
pub mod norm;
pub mod ops;
pub mod packed;
pub mod patch;
pub mod rope;
pub mod scalar;
pub mod text;
pub mod weights;
