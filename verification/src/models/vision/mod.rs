//! Vision models: image encoders, joint embeddings and latent world models.

pub mod adaln;
pub mod clip;
pub mod code_wm;
pub mod code_wm_fused;
pub mod jepa;
pub mod lewm;
pub mod lewm_device;
pub mod lewm_weights;
pub mod vit;
pub mod vit_config;
pub mod world_model;

use vstd::prelude::*;

verus! {

/// What loading a checkpoint by its own key names did.
#[derive(Debug, Clone)]
pub struct LoadStats {
    /// How many tensors found their place.
    pub loaded: usize,
    /// The names of the others, under which the model keeps nothing.
    pub skipped: Vec<String>,
}

} // verus!
