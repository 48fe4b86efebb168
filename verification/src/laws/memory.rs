//! What states hold when they are new, and how much memory they take.

use vstd::prelude::*;

use crate::buffer;
use crate::models::ssm::deltanet_state;
use crate::models::ssm::hybrid::model;
use crate::models::ssm::hybrid::model::LayerState;
use crate::models::ssm::mamba::state as mamba_state;
use crate::models::ssm::mamba::state::MambaLayerState;
use crate::models::ssm::rwkv::state as rwkv_state;
use crate::models::ssm::rwkv::state::RwkvLayerState;
use crate::models::text_encoder::code_deltatok_q4;
use crate::models::text_encoder::code_deltatok_q4::{Q4CodeDeltaTokHead, Q4DeltaTokBlock};
use crate::models::text_encoder::roberta_q4;
use crate::models::text_encoder::roberta_q4::Q4RoBERTaLayer;
use crate::packed;
use crate::packed::PackedLinear;
use crate::scalar;
use crate::scalar::Scalar;

verus! {

/// Putting a part into a buffer changes the part's places and no other; growing
/// one appends.
pub proof fn lemma_buffers<T>(base: Seq<T>, at: int, part: Seq<T>, value: T, n: nat, p: int)
    requires
        0 <= at,
        at + part.len() <= base.len(),
    ensures
        buffer::splice(base, at, part) == base.subrange(0, at) + part + base.subrange(
            at + part.len(),
            base.len() as int,
        ),
        base.len() <= n ==> buffer::grown(base, value, n).len() == n,
        n <= base.len() ==> buffer::grown(base, value, n) == base,
        0 <= p < base.len() ==> buffer::grown(base, value, n)[p] == base[p],
        base.len() <= p < n ==> buffer::grown(base, value, n)[p] == value,
        buffer::repeated(value, n).len() == n,
        0 <= p < n ==> buffer::repeated(value, n)[p] == value,
{
    assert(buffer::splice(base, at, part) =~= base.subrange(0, at) + part + base.subrange(
        at + part.len(),
        base.len() as int,
    ));
}

/// Layers of equal dimensions take equal memory: a state of `d_state` and a
/// window of `d_conv` elements for each channel.
pub proof fn lemma_mamba_memory<T>(
    layers: Seq<MambaLayerState<T>>,
    n: nat,
    d_inner: nat,
    d_state: nat,
    d_conv: nat,
)
    requires
        n <= layers.len(),
        forall|i: int|
            0 <= i < n ==> (#[trigger] layers[i]).wf() && layers[i].d_inner == d_inner
                && layers[i].d_state == d_state && layers[i].d_conv == d_conv,
    ensures
        mamba_state::total_elements(layers, n) == n * (d_inner * d_state + d_inner * d_conv),
    decreases n,
{
    let w = d_inner * d_state + d_inner * d_conv;
    if n > 0 {
        lemma_mamba_memory(layers, (n - 1) as nat, d_inner, d_state, d_conv);
        assert(layers[n - 1].wf());
        assert(n * w == (n - 1) * w + w) by (nonlinear_arith);
    } else {
        assert(0 * w == 0) by (nonlinear_arith);
    }
}

/// Layers of equal dimensions take equal memory: a square for each head and two
/// rows.
pub proof fn lemma_rwkv_memory<T>(
    layers: Seq<RwkvLayerState<T>>,
    n: nat,
    hidden: nat,
    heads: nat,
    size: nat,
)
    requires
        n <= layers.len(),
        forall|i: int|
            0 <= i < n ==> (#[trigger] layers[i]).wf() && layers[i].hidden_size == hidden
                && layers[i].num_heads == heads && layers[i].head_size == size,
    ensures
        rwkv_state::total_elements(layers, n) == n * (heads * size * size + 2 * hidden),
    decreases n,
{
    let w = heads * size * size + 2 * hidden;
    if n > 0 {
        lemma_rwkv_memory(layers, (n - 1) as nat, hidden, heads, size);
        assert(layers[n - 1].wf());
        assert(n * w == (n - 1) * w + w) by (nonlinear_arith);
    } else {
        assert(0 * w == 0) by (nonlinear_arith);
    }
}

/// What each kind of state of the hybrid model takes: a square for each head and
/// three windows, two caches, or one window.
pub proof fn lemma_hybrid_elements<T>(state: LayerState<T>)
    requires
        state.wf(),
    ensures
        match state {
            LayerState::DeltaNet(s) => state.elements() == (s.num_heads * s.head_dim) * s.head_dim
                + 3 * ((s.num_heads * s.head_dim) * s.conv_kernel),
            LayerState::Kv(s) => state.elements() == 2 * (s.max_seq * s.kv_dim),
            LayerState::Conv(s) => state.elements() == s.inner_size * s.kernel_size,
        },
{
}

/// The memory of the hybrid model's states is that of each kind together; one
/// state more adds what it takes to its own kind.
pub proof fn lemma_hybrid_memory<T>(states: Seq<LayerState<T>>, n: nat)
    requires
        n < states.len(),
    ensures
        ({
            let any = model::any_state::<T>();
            let deltanet = model::deltanet_states::<T>();
            let kv = model::kv_states::<T>();
            let s = states[n as int];
            &&& model::total_elements(states, any, 0) == 0
            &&& model::total_elements(states, deltanet, 0) == 0
            &&& model::total_elements(states, kv, 0) == 0
            &&& model::total_elements(states, any, n + 1) == model::total_elements(states, any, n)
                + s.elements()
            &&& s is DeltaNet ==> {
                &&& model::total_elements(states, deltanet, n + 1) == model::total_elements(
                    states,
                    deltanet,
                    n,
                ) + s.elements()
                &&& model::total_elements(states, kv, n + 1) == model::total_elements(
                    states,
                    kv,
                    n,
                )
            }
            &&& s is Kv ==> {
                &&& model::total_elements(states, kv, n + 1) == model::total_elements(
                    states,
                    kv,
                    n,
                ) + s.elements()
                &&& model::total_elements(states, deltanet, n + 1) == model::total_elements(
                    states,
                    deltanet,
                    n,
                )
            }
            &&& s is Conv ==> {
                &&& model::total_elements(states, deltanet, n + 1) == model::total_elements(
                    states,
                    deltanet,
                    n,
                )
                &&& model::total_elements(states, kv, n + 1) == model::total_elements(
                    states,
                    kv,
                    n,
                )
            }
        }),
{
}

/// New states hold nothing but zeros, of the size that their dimensions ask for.
pub proof fn lemma_blank<T: Scalar>(a: nat, b: nat, c: nat, i: int)
    ensures
        ({
            let d = deltanet_state::blank_deltanet::<T>(a, b, c);
            let m = mamba_state::blank_mamba::<T>(a, b, c);
            let r = rwkv_state::blank_rwkv::<T>(a, b, c);
            &&& d.memory.len() == a * b * b
            &&& d.q_conv.len() == a * b * c
            &&& d.k_conv.len() == a * b * c
            &&& d.v_conv.len() == a * b * c
            &&& m.ssm.len() == a * b
            &&& m.conv.len() == a * c
            &&& r.wkv.len() == b * c * c
            &&& r.time_mix.len() == a
            &&& r.channel_mix.len() == a
            &&& 0 <= i < a * b * b ==> d.memory[i] == scalar::zero::<T>()
            &&& 0 <= i < a * b * c ==> d.q_conv[i] == scalar::zero::<T>() && d.k_conv[i]
                == scalar::zero::<T>() && d.v_conv[i] == scalar::zero::<T>()
            &&& 0 <= i < a * b ==> m.ssm[i] == scalar::zero::<T>()
            &&& 0 <= i < a * c ==> m.conv[i] == scalar::zero::<T>()
            &&& 0 <= i < b * c * c ==> r.wkv[i] == scalar::zero::<T>()
            &&& 0 <= i < a ==> r.time_mix[i] == scalar::zero::<T>() && r.channel_mix[i]
                == scalar::zero::<T>()
        }),
{
}

/// A packed layer of the text encoder takes what its six maps take, a packed
/// block of the delta tokenizer what its seven maps take, and a stack what its
/// members take.
pub proof fn lemma_packed_memory<T: Scalar, Q: PackedLinear<T>>(
    layers: Seq<Q4RoBERTaLayer<T, Q>>,
    blocks: Seq<Q4DeltaTokBlock<T, Q>>,
    n: nat,
)
    requires
        n < layers.len(),
        n < blocks.len(),
    ensures
        ({
            let size = |q: Q| packed::bytes_of::<T, Q>(q) as nat;
            let l = layers[n as int];
            let b = blocks[n as int];
            &&& roberta_q4::layers_bytes(layers, 0) == 0
            &&& roberta_q4::layers_bytes(layers, n + 1) == roberta_q4::layers_bytes(layers, n)
                + size(l.w_q) + size(l.w_k) + size(l.w_v) + size(l.w_o) + size(l.w_up) + size(
                l.w_down,
            )
            &&& code_deltatok_q4::stack_bytes(blocks, 0) == 0
            &&& code_deltatok_q4::stack_bytes(blocks, n + 1) == code_deltatok_q4::stack_bytes(
                blocks,
                n,
            ) + size(b.w_q) + size(b.w_k) + size(b.w_v) + size(b.w_o) + size(b.mlp_gate) + size(
                b.mlp_up,
            ) + size(b.mlp_down)
        }),
{
}

/// A packed delta tokenizer takes what its output map and its two stacks take.
pub proof fn lemma_packed_head_memory<T: Scalar, Q: PackedLinear<T>>(
    head: Q4CodeDeltaTokHead<T, Q>,
)
    ensures
        head.packed_bytes() == packed::bytes_of::<T, Q>(head.out_proj) as nat
            + code_deltatok_q4::stack_bytes(head.encoder@, head.encoder@.len())
            + code_deltatok_q4::stack_bytes(head.decoder@, head.decoder@.len()),
{
}

} // verus!
