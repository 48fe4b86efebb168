//! Layers with recurrent state: linear attention, short convolutions and
//! selective state spaces, and the hybrids built from them.

pub mod conv;
pub mod deltanet;
pub mod deltanet_state;
pub mod ffn;
pub mod hybrid;
pub mod mamba;
pub mod rwkv;
