//! The recurrent state of a Mamba model.

use vstd::prelude::*;

use crate::buffer;
use crate::buffer::{fill, filled};
use crate::scalar;
use crate::scalar::Scalar;

verus! {

/// Per-layer recurrent state for a single Mamba block.
///
/// Holds the SSM hidden state `h` of shape `[d_inner, d_state]` and the
/// rolling convolution buffer of shape `[d_inner, d_conv]`.
pub struct MambaLayerState<T> {
    /// SSM hidden state, layout: `[d_inner * d_state]` (row-major).
    pub ssm_state: Vec<T>,
    /// Rolling convolution buffer, layout: `[d_inner * d_conv]` (row-major).
    pub conv_state: Vec<T>,
    pub d_inner: usize,
    pub d_state: usize,
    pub d_conv: usize,
}

/// What a Mamba layer remembers.
#[verifier::ext_equal]
pub struct MambaView<T> {
    pub ssm: Seq<T>,
    pub conv: Seq<T>,
}

impl<T> View for MambaLayerState<T> {
    type V = MambaView<T>;

    open spec fn view(&self) -> MambaView<T> {
        MambaView { ssm: self.ssm_state@, conv: self.conv_state@ }
    }
}

/// A state without any past.
pub open spec fn blank_mamba<T: Scalar>(d_inner: nat, d_state: nat, d_conv: nat) -> MambaView<T> {
    MambaView {
        ssm: buffer::repeated(scalar::zero::<T>(), d_inner * d_state),
        conv: buffer::repeated(scalar::zero::<T>(), d_inner * d_conv),
    }
}

impl<T> MambaLayerState<T> {
    /// The buffers have the lengths that the dimensions ask for.
    pub open spec fn wf(&self) -> bool {
        &&& self.ssm_state@.len() == self.d_inner * self.d_state
        &&& self.conv_state@.len() == self.d_inner * self.d_conv
    }

    /// The dimensions are those of `other`.
    pub open spec fn same_dims(&self, other: Self) -> bool {
        &&& self.d_inner == other.d_inner
        &&& self.d_state == other.d_state
        &&& self.d_conv == other.d_conv
    }

    /// How many elements both buffers hold.
    pub open spec fn elements(&self) -> nat {
        self.ssm_state@.len() + self.conv_state@.len()
    }
}

/// `after` has the dimensions and buffer lengths of `before`, and all of its
/// elements are zero.
pub open spec fn emptied<T: Scalar>(before: MambaLayerState<T>, after: MambaLayerState<T>) -> bool {
    &&& after.same_dims(before)
    &&& after.ssm_state@ == buffer::repeated(scalar::zero::<T>(), before.ssm_state@.len())
    &&& after.conv_state@ == buffer::repeated(scalar::zero::<T>(), before.conv_state@.len())
}

impl<T: Scalar> MambaLayerState<T> {
    pub fn new(d_inner: usize, d_state: usize, d_conv: usize) -> (r: Self)
        requires
            scalar::arithmetic::<T>(),
            d_inner * d_state <= usize::MAX,
            d_inner * d_conv <= usize::MAX,
        ensures
            r@ == blank_mamba::<T>(d_inner as nat, d_state as nat, d_conv as nat),
            r.d_inner == d_inner,
            r.d_state == d_state,
            r.d_conv == d_conv,
            r.wf(),
    {
        let zero = T::default();
        MambaLayerState {
            ssm_state: filled(zero, d_inner * d_state),
            conv_state: filled(zero, d_inner * d_conv),
            d_inner,
            d_state,
            d_conv,
        }
    }

    /// Zero out both state buffers.
    pub fn reset(&mut self)
        requires
            scalar::arithmetic::<T>(),
        ensures
            emptied(*old(self), *final(self)),
    {
        let zero = T::default();
        fill(&mut self.ssm_state, zero);
        fill(&mut self.conv_state, zero);
    }
}

/// Aggregated recurrent state for an entire Mamba model (all layers).
pub struct RecurrentState<T> {
    pub layers: Vec<MambaLayerState<T>>,
    /// Number of tokens processed so far.
    pub position: usize,
}

/// The elements of the first `n` layers' buffers.
pub open spec fn total_elements<T>(layers: Seq<MambaLayerState<T>>, n: nat) -> nat
    decreases n,
{
    if n == 0 {
        0
    } else {
        total_elements(layers, (n - 1) as nat) + layers[n - 1].elements()
    }
}

proof fn lemma_total_grows<T>(layers: Seq<MambaLayerState<T>>, m: nat, n: nat)
    requires
        m <= n,
    ensures
        total_elements(layers, m) <= total_elements(layers, n),
    decreases n,
{
    if m < n {
        lemma_total_grows(layers, m, (n - 1) as nat);
    }
}

impl<T> RecurrentState<T> {
    /// The elements of all buffers.
    pub open spec fn elements(&self) -> nat {
        total_elements(self.layers@, self.layers@.len())
    }
}

impl<T: Scalar> RecurrentState<T> {
    pub fn new(num_layers: usize, d_inner: usize, d_state: usize, d_conv: usize) -> (r: Self)
        requires
            scalar::arithmetic::<T>(),
            d_inner * d_state <= usize::MAX,
            d_inner * d_conv <= usize::MAX,
        ensures
            r.position == 0,
            r.layers@.len() == num_layers,
            forall|i: int|
                0 <= i < num_layers ==> {
                    &&& (#[trigger] r.layers@[i])@ == blank_mamba::<T>(
                        d_inner as nat,
                        d_state as nat,
                        d_conv as nat,
                    )
                    &&& r.layers@[i].d_inner == d_inner
                    &&& r.layers@[i].d_state == d_state
                    &&& r.layers@[i].d_conv == d_conv
                    &&& r.layers@[i].wf()
                },
    {
        let mut layers: Vec<MambaLayerState<T>> = Vec::with_capacity(num_layers);
        for n in 0..num_layers
            invariant
                scalar::arithmetic::<T>(),
                d_inner * d_state <= usize::MAX,
                d_inner * d_conv <= usize::MAX,
                layers@.len() == n,
                forall|i: int|
                    0 <= i < n ==> {
                        &&& (#[trigger] layers@[i])@ == blank_mamba::<T>(
                            d_inner as nat,
                            d_state as nat,
                            d_conv as nat,
                        )
                        &&& layers@[i].d_inner == d_inner
                        &&& layers@[i].d_state == d_state
                        &&& layers@[i].d_conv == d_conv
                        &&& layers@[i].wf()
                    },
        {
            layers.push(MambaLayerState::new(d_inner, d_state, d_conv));
        }
        RecurrentState { layers, position: 0 }
    }

    /// Number of tokens processed so far.
    pub fn position(&self) -> (r: usize)
        ensures
            r == self.position,
    {
        self.position
    }

    /// Advance the position counter by `n` tokens.
    pub fn advance(&mut self, n: usize)
        requires
            old(self).position + n <= usize::MAX,
        ensures
            final(self).position == old(self).position + n,
            final(self).layers == old(self).layers,
    {
        self.position += n;
    }

    /// Reset all layer states and the position counter.
    pub fn reset(&mut self)
        requires
            scalar::arithmetic::<T>(),
        ensures
            final(self).position == 0,
            final(self).layers@.len() == old(self).layers@.len(),
            forall|i: int|
                0 <= i < final(self).layers@.len() ==> emptied(
                    old(self).layers@[i],
                    #[trigger] final(self).layers@[i],
                ),
    {
        let ghost start = self.layers@;
        let count = self.layers.len();
        for n in 0..count
            invariant
                scalar::arithmetic::<T>(),
                count == start.len(),
                self.layers@.len() == start.len(),
                forall|i: int| 0 <= i < n ==> emptied(start[i], #[trigger] self.layers@[i]),
                forall|i: int| n <= i < start.len() ==> #[trigger] self.layers@[i] == start[i],
        {
            assert(self.layers@[n as int] == start[n as int]);
            self.layers[n].reset();
        }
        self.position = 0;
    }

    /// Total heap memory used by all state buffers (in bytes).
    pub fn memory_bytes(&self) -> (r: usize)
        requires
            self.elements() <= usize::MAX,
            self.elements() * vstd::layout::size_of::<T>() <= usize::MAX,
        ensures
            r == self.elements() * vstd::layout::size_of::<T>(),
    {
        let mut sum: usize = 0;
        for n in 0..self.layers.len()
            invariant
                self.elements() <= usize::MAX,
                sum == total_elements(self.layers@, n as nat),
        {
            proof {
                lemma_total_grows(self.layers@, (n + 1) as nat, self.layers@.len());
            }
            sum = sum + (self.layers[n].ssm_state.len() + self.layers[n].conv_state.len());
        }
        sum * core::mem::size_of::<T>()
    }

    /// Resetting a state that `new` built gives what `new` gives.
    pub proof fn lemma_reset_is_new(before: MambaLayerState<T>, after: MambaLayerState<T>)
        requires
            before.wf(),
            emptied(before, after),
        ensures
            after.wf(),
            after@ == blank_mamba::<T>(
                before.d_inner as nat,
                before.d_state as nat,
                before.d_conv as nat,
            ),
    {
    }
}

} // verus!
