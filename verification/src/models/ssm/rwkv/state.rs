//! The recurrent state of an RWKV model.

use vstd::prelude::*;

use crate::buffer;
use crate::buffer::{fill, filled};
use crate::scalar;
use crate::scalar::Scalar;

verus! {

/// Per-layer recurrent state for a single RWKV block.
///
/// Holds the WKV accumulator state of shape `[num_heads, head_size, head_size]`
/// and the previous token vectors for token shift in time mixing and channel mixing.
pub struct RwkvLayerState<T> {
    /// WKV numerator accumulator: `[num_heads * head_size * head_size]` (row-major).
    pub wkv_state: Vec<T>,
    /// Previous token for token shift in time mixing: `[hidden_size]`.
    pub time_mix_prev: Vec<T>,
    /// Previous token for token shift in channel mixing: `[hidden_size]`.
    pub channel_mix_prev: Vec<T>,
    pub hidden_size: usize,
    pub num_heads: usize,
    pub head_size: usize,
}

/// What an RWKV layer remembers.
#[verifier::ext_equal]
pub struct RwkvView<T> {
    pub wkv: Seq<T>,
    pub time_mix: Seq<T>,
    pub channel_mix: Seq<T>,
}

impl<T> View for RwkvLayerState<T> {
    type V = RwkvView<T>;

    open spec fn view(&self) -> RwkvView<T> {
        RwkvView {
            wkv: self.wkv_state@,
            time_mix: self.time_mix_prev@,
            channel_mix: self.channel_mix_prev@,
        }
    }
}

/// A state without any past.
pub open spec fn blank_rwkv<T: Scalar>(hidden: nat, num_heads: nat, head_size: nat) -> RwkvView<T> {
    RwkvView {
        wkv: buffer::repeated(scalar::zero::<T>(), num_heads * head_size * head_size),
        time_mix: buffer::repeated(scalar::zero::<T>(), hidden),
        channel_mix: buffer::repeated(scalar::zero::<T>(), hidden),
    }
}

impl<T> RwkvLayerState<T> {
    /// The buffers have the lengths that the dimensions ask for.
    pub open spec fn wf(&self) -> bool {
        &&& self.wkv_state@.len() == self.num_heads * self.head_size * self.head_size
        &&& self.time_mix_prev@.len() == self.hidden_size
        &&& self.channel_mix_prev@.len() == self.hidden_size
    }

    /// The dimensions are those of `other`.
    pub open spec fn same_dims(&self, other: Self) -> bool {
        &&& self.hidden_size == other.hidden_size
        &&& self.num_heads == other.num_heads
        &&& self.head_size == other.head_size
    }

    /// How many elements all buffers hold.
    pub open spec fn elements(&self) -> nat {
        self.wkv_state@.len() + self.time_mix_prev@.len() + self.channel_mix_prev@.len()
    }
}

/// `after` has the dimensions and buffer lengths of `before`, and all of its
/// elements are zero.
pub open spec fn emptied<T: Scalar>(before: RwkvLayerState<T>, after: RwkvLayerState<T>) -> bool {
    let zero = scalar::zero::<T>();
    &&& after.same_dims(before)
    &&& after.wkv_state@ == buffer::repeated(zero, before.wkv_state@.len())
    &&& after.time_mix_prev@ == buffer::repeated(zero, before.time_mix_prev@.len())
    &&& after.channel_mix_prev@ == buffer::repeated(zero, before.channel_mix_prev@.len())
}

impl<T: Scalar> RwkvLayerState<T> {
    pub fn new(hidden_size: usize, num_heads: usize, head_size: usize) -> (r: Self)
        requires
            scalar::arithmetic::<T>(),
            num_heads * head_size <= usize::MAX,
            num_heads * head_size * head_size <= usize::MAX,
        ensures
            r@ == blank_rwkv::<T>(hidden_size as nat, num_heads as nat, head_size as nat),
            r.hidden_size == hidden_size,
            r.num_heads == num_heads,
            r.head_size == head_size,
            r.wf(),
    {
        let zero = T::default();
        RwkvLayerState {
            wkv_state: filled(zero, num_heads * head_size * head_size),
            time_mix_prev: filled(zero, hidden_size),
            channel_mix_prev: filled(zero, hidden_size),
            hidden_size,
            num_heads,
            head_size,
        }
    }

    /// Zero out all state buffers.
    pub fn reset(&mut self)
        requires
            scalar::arithmetic::<T>(),
        ensures
            emptied(*old(self), *final(self)),
    {
        let zero = T::default();
        fill(&mut self.wkv_state, zero);
        fill(&mut self.time_mix_prev, zero);
        fill(&mut self.channel_mix_prev, zero);
    }
}

/// Aggregated recurrent state for an entire RWKV model (all layers).
pub struct RwkvState<T> {
    pub layers: Vec<RwkvLayerState<T>>,
    /// Number of tokens processed so far.
    pub position: usize,
}

/// The elements of the first `n` layers' buffers.
pub open spec fn total_elements<T>(layers: Seq<RwkvLayerState<T>>, n: nat) -> nat
    decreases n,
{
    if n == 0 {
        0
    } else {
        total_elements(layers, (n - 1) as nat) + layers[n - 1].elements()
    }
}

proof fn lemma_total_grows<T>(layers: Seq<RwkvLayerState<T>>, m: nat, n: nat)
    requires
        m <= n,
    ensures
        total_elements(layers, m) <= total_elements(layers, n),
    decreases n,
{
    if m < n {
        lemma_total_grows(layers, m, (n - 1) as nat);
    }
}

impl<T> RwkvState<T> {
    /// The elements of all buffers.
    pub open spec fn elements(&self) -> nat {
        total_elements(self.layers@, self.layers@.len())
    }
}

/// A layer of these dimensions that has seen nothing.
pub open spec fn is_new<T: Scalar>(
    layer: RwkvLayerState<T>,
    hidden_size: usize,
    num_heads: usize,
    head_size: usize,
) -> bool {
    &&& layer@ == blank_rwkv::<T>(hidden_size as nat, num_heads as nat, head_size as nat)
    &&& layer.hidden_size == hidden_size
    &&& layer.num_heads == num_heads
    &&& layer.head_size == head_size
    &&& layer.wf()
}

impl<T: Scalar> RwkvState<T> {
    pub fn new(num_layers: usize, hidden_size: usize, num_heads: usize, head_size: usize) -> (r:
        Self)
        requires
            scalar::arithmetic::<T>(),
            num_heads * head_size <= usize::MAX,
            num_heads * head_size * head_size <= usize::MAX,
        ensures
            r.position == 0,
            r.layers@.len() == num_layers,
            forall|i: int|
                0 <= i < num_layers ==> is_new(
                    #[trigger] r.layers@[i],
                    hidden_size,
                    num_heads,
                    head_size,
                ),
    {
        let mut layers: Vec<RwkvLayerState<T>> = Vec::with_capacity(num_layers);
        for n in 0..num_layers
            invariant
                scalar::arithmetic::<T>(),
                num_heads * head_size <= usize::MAX,
                num_heads * head_size * head_size <= usize::MAX,
                layers@.len() == n,
                forall|i: int|
                    0 <= i < n ==> is_new(
                        #[trigger] layers@[i],
                        hidden_size,
                        num_heads,
                        head_size,
                    ),
        {
            layers.push(RwkvLayerState::new(hidden_size, num_heads, head_size));
        }
        RwkvState { layers, position: 0 }
    }

    /// Number of tokens processed so far.
    pub fn position(&self) -> (r: usize)
        ensures
            r == self.position,
    {
        self.position
    }

    /// Advance the position counter by `n` tokens.
    pub fn advance(&mut self, n: usize)
        requires
            old(self).position + n <= usize::MAX,
        ensures
            final(self).position == old(self).position + n,
            final(self).layers == old(self).layers,
    {
        self.position += n;
    }

    /// Reset all layer states and the position counter.
    pub fn reset(&mut self)
        requires
            scalar::arithmetic::<T>(),
        ensures
            final(self).position == 0,
            final(self).layers@.len() == old(self).layers@.len(),
            forall|i: int|
                0 <= i < final(self).layers@.len() ==> emptied(
                    old(self).layers@[i],
                    #[trigger] final(self).layers@[i],
                ),
    {
        let ghost start = self.layers@;
        let count = self.layers.len();
        for n in 0..count
            invariant
                scalar::arithmetic::<T>(),
                count == start.len(),
                self.layers@.len() == start.len(),
                forall|i: int| 0 <= i < n ==> emptied(start[i], #[trigger] self.layers@[i]),
                forall|i: int| n <= i < start.len() ==> #[trigger] self.layers@[i] == start[i],
        {
            assert(self.layers@[n as int] == start[n as int]);
            self.layers[n].reset();
        }
        self.position = 0;
    }

    /// Total heap memory used by all state buffers (in bytes).
    pub fn memory_bytes(&self) -> (r: usize)
        requires
            self.elements() <= usize::MAX,
            self.elements() * vstd::layout::size_of::<T>() <= usize::MAX,
        ensures
            r == self.elements() * vstd::layout::size_of::<T>(),
    {
        let mut sum: usize = 0;
        for n in 0..self.layers.len()
            invariant
                self.elements() <= usize::MAX,
                sum == total_elements(self.layers@, n as nat),
        {
            proof {
                lemma_total_grows(self.layers@, (n + 1) as nat, self.layers@.len());
            }
            let layer = &self.layers[n];
            sum = sum + (layer.wkv_state.len() + layer.time_mix_prev.len()
                + layer.channel_mix_prev.len());
        }
        sum * core::mem::size_of::<T>()
    }

    /// Resetting a layer state that `new` built gives what `new` gives.
    pub proof fn lemma_reset_is_new(before: RwkvLayerState<T>, after: RwkvLayerState<T>)
        requires
            before.wf(),
            emptied(before, after),
        ensures
            is_new(after, before.hidden_size, before.num_heads, before.head_size),
    {
    }
}

} // verus!
