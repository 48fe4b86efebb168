//! What the models compute, as equations between elements.
//!
//! A predicate of [`equations`] says of a row, element by element, how it
//! follows from other rows. The laws of the other modules say that a model's
//! result is the row that its equations determine, and what follows from that:
//! which inputs a result depends on, and what a part of a model leaves as it
//! is.

pub mod code_wm;
pub mod equations;
pub mod hybrid;
pub mod kernels;
pub mod keys;
pub mod lewm;
pub mod lm;
pub mod memory;
pub mod names;
pub mod prompts;
pub mod settings;
pub mod ssm;
pub mod text_encoder;
pub mod vision;
