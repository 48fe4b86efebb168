//! The model families.

pub mod lm;
pub mod ssm;
pub mod text_encoder;
pub mod vision;
