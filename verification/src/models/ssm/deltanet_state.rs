//! The recurrent state of a DeltaNet layer.

use vstd::prelude::*;

use crate::buffer;
use crate::buffer::{fill, filled};
use crate::scalar;
use crate::scalar::Scalar;

verus! {

/// State for a single DeltaNet (linear attention) layer.
///
/// The memory state S has shape [num_heads, head_dim, head_dim].
/// Unlike KV cache, this does NOT grow with sequence length.
pub struct DeltaNetLayerState<T> {
    /// Memory state: [num_heads * head_dim * head_dim]
    pub memory: Vec<T>,
    /// Conv1d rolling buffers for Q, K, V: each [num_heads * head_dim, conv_kernel]
    pub q_conv_state: Vec<T>,
    pub k_conv_state: Vec<T>,
    pub v_conv_state: Vec<T>,
    pub num_heads: usize,
    pub head_dim: usize,
    pub conv_kernel: usize,
}

/// What a DeltaNet layer remembers.
#[verifier::ext_equal]
pub struct DeltaNetView<T> {
    pub memory: Seq<T>,
    pub q_conv: Seq<T>,
    pub k_conv: Seq<T>,
    pub v_conv: Seq<T>,
}

impl<T> View for DeltaNetLayerState<T> {
    type V = DeltaNetView<T>;

    open spec fn view(&self) -> DeltaNetView<T> {
        DeltaNetView {
            memory: self.memory@,
            q_conv: self.q_conv_state@,
            k_conv: self.k_conv_state@,
            v_conv: self.v_conv_state@,
        }
    }
}

/// A state without any past.
pub open spec fn blank_deltanet<T: Scalar>(
    num_heads: nat,
    head_dim: nat,
    conv_kernel: nat,
) -> DeltaNetView<T> {
    let conv = buffer::repeated(scalar::zero::<T>(), num_heads * head_dim * conv_kernel);
    DeltaNetView {
        memory: buffer::repeated(scalar::zero::<T>(), num_heads * head_dim * head_dim),
        q_conv: conv,
        k_conv: conv,
        v_conv: conv,
    }
}

impl<T> DeltaNetLayerState<T> {
    /// The buffers have the lengths that the dimensions ask for.
    pub open spec fn wf(&self) -> bool {
        let inner = self.num_heads * self.head_dim;
        &&& self.memory@.len() == inner * self.head_dim
        &&& self.q_conv_state@.len() == inner * self.conv_kernel
        &&& self.k_conv_state@.len() == inner * self.conv_kernel
        &&& self.v_conv_state@.len() == inner * self.conv_kernel
    }

    /// How many elements all buffers hold.
    pub open spec fn elements(&self) -> nat {
        self.memory@.len() + self.q_conv_state@.len() + self.k_conv_state@.len()
            + self.v_conv_state@.len()
    }
}

impl<T: Scalar> DeltaNetLayerState<T> {
    pub fn new(num_heads: usize, head_dim: usize, conv_kernel: usize) -> (r: Self)
        requires
            scalar::arithmetic::<T>(),
            num_heads * head_dim <= usize::MAX,
            num_heads * head_dim * head_dim <= usize::MAX,
            num_heads * head_dim * conv_kernel <= usize::MAX,
        ensures
            r@ == blank_deltanet::<T>(num_heads as nat, head_dim as nat, conv_kernel as nat),
            r.num_heads == num_heads,
            r.head_dim == head_dim,
            r.conv_kernel == conv_kernel,
            r.wf(),
    {
        let zero = T::default();
        let inner = num_heads * head_dim;
        DeltaNetLayerState {
            memory: filled(zero, inner * head_dim),
            q_conv_state: filled(zero, inner * conv_kernel),
            k_conv_state: filled(zero, inner * conv_kernel),
            v_conv_state: filled(zero, inner * conv_kernel),
            num_heads,
            head_dim,
            conv_kernel,
        }
    }

    /// Forgets everything.
    pub fn reset(&mut self)
        requires
            scalar::arithmetic::<T>(),
        ensures
            final(self).memory@ == buffer::repeated(scalar::zero::<T>(), old(self).memory@.len()),
            final(self).q_conv_state@ == buffer::repeated(
                scalar::zero::<T>(),
                old(self).q_conv_state@.len(),
            ),
            final(self).k_conv_state@ == buffer::repeated(
                scalar::zero::<T>(),
                old(self).k_conv_state@.len(),
            ),
            final(self).v_conv_state@ == buffer::repeated(
                scalar::zero::<T>(),
                old(self).v_conv_state@.len(),
            ),
            final(self).num_heads == old(self).num_heads,
            final(self).head_dim == old(self).head_dim,
            final(self).conv_kernel == old(self).conv_kernel,
            old(self).wf() ==> final(self)@ == blank_deltanet::<T>(
                old(self).num_heads as nat,
                old(self).head_dim as nat,
                old(self).conv_kernel as nat,
            ),
    {
        let zero = T::default();
        fill(&mut self.memory, zero);
        fill(&mut self.q_conv_state, zero);
        fill(&mut self.k_conv_state, zero);
        fill(&mut self.v_conv_state, zero);
    }

    /// The bytes that the buffers' elements take.
    pub fn memory_bytes(&self) -> (r: usize)
        requires
            self.elements() * vstd::layout::size_of::<T>() <= usize::MAX,
            self.elements() <= usize::MAX,
        ensures
            r == self.elements() * vstd::layout::size_of::<T>(),
    {
        let n = self.memory.len() + self.q_conv_state.len() + self.k_conv_state.len()
            + self.v_conv_state.len();
        n * core::mem::size_of::<T>()
    }
}

} // verus!
