//! RWKV: the recurrent state of its layers.

pub mod state;
