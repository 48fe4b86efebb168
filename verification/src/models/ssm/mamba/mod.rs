//! Mamba: a selective state space layer and its recurrent state.

pub mod block;
pub mod selective_scan;
pub mod state;
