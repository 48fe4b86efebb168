//! The DeltaNet (gated linear attention) decoder layer.

use core::ops::Neg;
use vstd::prelude::*;

use crate::buffer::{copy_slice, extend, put_row};
use crate::models::ssm::conv;
use crate::models::ssm::conv::conv_step;
use crate::models::ssm::deltanet;
use crate::models::ssm::deltanet::{deltanet_seq, deltanet_step, l2_normalize};
use crate::models::ssm::deltanet_state::{DeltaNetLayerState, DeltaNetView};
use crate::models::ssm::ffn;
use crate::models::ssm::ffn::{swiglu_ffn_forward, FfnWeights};
use crate::ops;
use crate::ops::{
    activate_all, add_vecs, linear_vec, mul_vecs, rms_normalize, rmsnorm, row_slice, Activation,
};
use crate::scalar;
use crate::scalar::{Math, Scalar};

verus! {

/// The logistic function as the gates compute it: `1 / (1 + exp(-x))`.
pub open spec fn logistic<T: Scalar, M: Math<T>>(x: T) -> T {
    scalar::over(
        scalar::one::<T, M>(),
        scalar::plus(
            scalar::one::<T, M>(),
            scalar::exp_of::<T, M>(scalar::negated(x)),
        ),
    )
}

pub fn sigmoid_gate<T: Scalar, M: Math<T>>(x: T) -> (r: T)
    requires
        scalar::mathematics::<T, M>(),
    ensures
        r == logistic::<T, M>(x),
{
    M::one() / (M::one() + M::exp(x.neg()))
}

/// A single DeltaNet (gated linear attention) decoder layer.
///
/// Forward path:
/// 1. RMSNorm
/// 2. QKV projection (combined weight)
/// 3. Conv1d on Q, K, V
/// 4. L2 normalise Q, K
/// 5. Compute alpha (decay) and beta (update) from separate projections
/// 6. DeltaNet recurrence per head
/// 7. Output norm + SiLU gate
/// 8. Output projection
/// 9. Residual
/// 10. RMSNorm -> SwiGLU FFN -> Residual
pub struct DeltaNetDecoderLayer<T> {
    pub hidden_size: usize,
    pub num_heads: usize,
    pub head_dim: usize,
    pub intermediate_size: usize,
    pub conv_kernel: usize,
    pub norm_eps: T,
    // Attention norm
    pub attn_norm_weight: Vec<T>,  // [hidden_size]
    // Combined QKV projection: [3 * num_heads * head_dim, hidden_size]
    pub qkv_weight: Vec<T>,
    // Gate/beta/alpha projections from hidden_size
    pub gate_proj_weight: Vec<T>,  // [num_heads * head_dim, hidden_size] (z gate)
    pub beta_proj_weight: Vec<T>,  // [num_heads, hidden_size] (update gate)
    pub alpha_proj_weight: Vec<T>,  // [num_heads, hidden_size] (decay gate)
    // Conv1d weights for Q, K, V
    pub q_conv_weight: Vec<T>,  // [num_heads * head_dim, conv_kernel]
    pub q_conv_bias: Vec<T>,  // [num_heads * head_dim]
    pub k_conv_weight: Vec<T>,
    pub k_conv_bias: Vec<T>,
    pub v_conv_weight: Vec<T>,
    pub v_conv_bias: Vec<T>,
    // Output norm + projection
    pub o_norm_weight: Vec<T>,  // [num_heads * head_dim] (RMSNorm)
    pub o_proj_weight: Vec<T>,  // [hidden_size, num_heads * head_dim]
    // FFN norm
    pub ffn_norm_weight: Vec<T>,  // [hidden_size]
    // SwiGLU FFN
    pub ffn_gate_weight: Vec<T>,  // [intermediate_size, hidden_size]
    pub ffn_up_weight: Vec<T>,  // [intermediate_size, hidden_size]
    pub ffn_down_weight: Vec<T>,  // [hidden_size, intermediate_size]
}

/// The buffers of a state have the lengths for these dimensions.
pub open spec fn state_fits<T>(s: DeltaNetView<T>, heads: nat, head_dim: nat, kernel: nat) -> bool {
    &&& s.memory.len() == heads * (head_dim * head_dim)
    &&& s.q_conv.len() == (heads * head_dim) * kernel
    &&& s.k_conv.len() == (heads * head_dim) * kernel
    &&& s.v_conv.len() == (heads * head_dim) * kernel
}

impl<T: Scalar> DeltaNetDecoderLayer<T> {
    /// Columns of a query, key or value row, over all heads.
    pub open spec fn inner(&self) -> nat {
        self.num_heads as nat * self.head_dim as nat
    }

    pub open spec fn ffn(&self) -> FfnWeights<T> {
        ffn::weights_of(
            self.ffn_norm_weight@,
            self.ffn_gate_weight@,
            self.ffn_up_weight@,
            self.ffn_down_weight@,
        )
    }

    /// The weights have their sizes.
    pub open spec fn wf(&self) -> bool {
        let h = self.hidden_size as nat;
        let c = self.inner();
        let nh = self.num_heads as nat;
        &&& 3 * c <= usize::MAX
        &&& self.head_dim * self.head_dim <= usize::MAX
        &&& self.conv_kernel > 0
        &&& h <= self.attn_norm_weight@.len()
        &&& self.qkv_weight@.len() == (3 * c) * h
        &&& self.gate_proj_weight@.len() == c * h
        &&& self.beta_proj_weight@.len() == nh * h
        &&& self.alpha_proj_weight@.len() == nh * h
        &&& self.q_conv_weight@.len() == c * self.conv_kernel
        &&& self.k_conv_weight@.len() == c * self.conv_kernel
        &&& self.v_conv_weight@.len() == c * self.conv_kernel
        &&& self.q_conv_bias@.len() == 0 || c <= self.q_conv_bias@.len()
        &&& self.k_conv_bias@.len() == 0 || c <= self.k_conv_bias@.len()
        &&& self.v_conv_bias@.len() == 0 || c <= self.v_conv_bias@.len()
        &&& c <= self.o_norm_weight@.len()
        &&& self.o_proj_weight@.len() == h * c
        &&& self.ffn().fits(h, self.intermediate_size as nat)
    }

    /// A state of this layer's dimensions.
    pub open spec fn takes(&self, s: DeltaNetView<T>) -> bool {
        state_fits(
            s,
            self.num_heads as nat,
            self.head_dim as nat,
            self.conv_kernel as nat,
        )
    }

    /// A state object of this layer's dimensions.
    pub open spec fn matches(&self, state: DeltaNetLayerState<T>) -> bool {
        &&& state.num_heads == self.num_heads
        &&& state.head_dim == self.head_dim
        &&& state.conv_kernel == self.conv_kernel
        &&& self.takes(state@)
    }

    /// What attention reads of a row.
    pub open spec fn input<M: Math<T>>(&self, x: Seq<T>) -> Seq<T> {
        ops::rms_row::<T, M>(x, self.attn_norm_weight@, self.norm_eps)
    }

    /// Query (0), key (1) or value (2) of a normed row, before the convolution.
    pub open spec fn raw(&self, n: Seq<T>, part: int) -> Seq<T> {
        ops::row(
            ops::linear_row(
                n,
                self.qkv_weight@,
                Seq::empty(),
                self.hidden_size as nat,
                3 * self.inner(),
            ),
            part,
            self.inner() as int,
        )
    }

    pub open spec fn query_row(&self, s: DeltaNetView<T>, n: Seq<T>) -> Seq<T> {
        conv::conv_row(
            s.q_conv,
            self.raw(n, 0),
            self.q_conv_weight@,
            self.q_conv_bias@,
            self.conv_kernel as nat,
        )
    }

    pub open spec fn key_row(&self, s: DeltaNetView<T>, n: Seq<T>) -> Seq<T> {
        conv::conv_row(
            s.k_conv,
            self.raw(n, 1),
            self.k_conv_weight@,
            self.k_conv_bias@,
            self.conv_kernel as nat,
        )
    }

    pub open spec fn value_row(&self, s: DeltaNetView<T>, n: Seq<T>) -> Seq<T> {
        conv::conv_row(
            s.v_conv,
            self.raw(n, 2),
            self.v_conv_weight@,
            self.v_conv_bias@,
            self.conv_kernel as nat,
        )
    }

    pub open spec fn head_query<M: Math<T>>(
        &self,
        s: DeltaNetView<T>,
        n: Seq<T>,
        head: int,
    ) -> Seq<T> {
        deltanet::normalized::<T, M>(
            ops::row(self.query_row(s, n), head, self.head_dim as int),
        )
    }

    pub open spec fn head_key<M: Math<T>>(&self, s: DeltaNetView<T>, n: Seq<T>, head: int) -> Seq<
        T,
    > {
        deltanet::normalized::<T, M>(ops::row(self.key_row(s, n), head, self.head_dim as int))
    }

    pub open spec fn head_value(&self, s: DeltaNetView<T>, n: Seq<T>, head: int) -> Seq<T> {
        ops::row(self.value_row(s, n), head, self.head_dim as int)
    }

    /// The decay gates of all heads, before the logistic function.
    pub open spec fn alpha_row(&self, n: Seq<T>) -> Seq<T> {
        ops::linear_row(
            n,
            self.alpha_proj_weight@,
            Seq::empty(),
            self.hidden_size as nat,
            self.num_heads as nat,
        )
    }

    /// The update gates of all heads, before the logistic function.
    pub open spec fn beta_row(&self, n: Seq<T>) -> Seq<T> {
        ops::linear_row(
            n,
            self.beta_proj_weight@,
            Seq::empty(),
            self.hidden_size as nat,
            self.num_heads as nat,
        )
    }

    /// A head's memory after a row.
    pub open spec fn head_memory<M: Math<T>>(
        &self,
        s: DeltaNetView<T>,
        n: Seq<T>,
        head: int,
    ) -> Seq<T> {
        let d = self.head_dim as nat;
        deltanet::memory_after(
            ops::row(s.memory, head, (d * d) as int),
            self.head_key::<M>(s, n, head),
            self.head_value(s, n, head),
            logistic::<T, M>(self.alpha_row(n)[head]),
            logistic::<T, M>(self.beta_row(n)[head]),
            d,
        )
    }

    /// The state after a normed row.
    pub open spec fn after<M: Math<T>>(&self, s: DeltaNetView<T>, n: Seq<T>) -> DeltaNetView<T> {
        DeltaNetView {
            memory: ops::blocks(
                self.num_heads as nat,
                |head: int| self.head_memory::<M>(s, n, head),
            ),
            q_conv: conv::shifted_state(s.q_conv, self.raw(n, 0), self.conv_kernel as nat),
            k_conv: conv::shifted_state(s.k_conv, self.raw(n, 1), self.conv_kernel as nat),
            v_conv: conv::shifted_state(s.v_conv, self.raw(n, 2), self.conv_kernel as nat),
        }
    }

    /// What the heads read from their memories.
    pub open spec fn seen<M: Math<T>>(&self, s: DeltaNetView<T>, n: Seq<T>) -> Seq<T> {
        ops::blocks(
            self.num_heads as nat,
            |head: int|
                deltanet::read_memory(
                    self.head_memory::<M>(s, n, head),
                    self.head_query::<M>(s, n, head),
                    self.head_dim as nat,
                ),
        )
    }

    /// Output norm, SiLU gate and output projection of what the heads read.
    pub open spec fn projected<M: Math<T>>(&self, seen: Seq<T>, n: Seq<T>) -> Seq<T> {
        let gate = ops::linear_row(
            n,
            self.gate_proj_weight@,
            Seq::empty(),
            self.hidden_size as nat,
            self.inner(),
        );
        ops::linear_row(
            ops::product_of(
                ops::rms_row::<T, M>(seen, self.o_norm_weight@, self.norm_eps),
                ops::all_activated::<T, M>(Activation::Silu, gate),
            ),
            self.o_proj_weight@,
            Seq::empty(),
            self.inner(),
            self.hidden_size as nat,
        )
    }

    /// The attention output for a normed row.
    pub open spec fn attn_of<M: Math<T>>(&self, s: DeltaNetView<T>, n: Seq<T>) -> Seq<T> {
        self.projected::<M>(self.seen::<M>(s, n), n)
    }

    /// A row through the layer.
    pub open spec fn output<M: Math<T>>(&self, s: DeltaNetView<T>, x: Seq<T>) -> Seq<T> {
        let mid = ops::sum_of(x, self.attn_of::<M>(s, self.input::<M>(x)));
        ops::sum_of(
            mid,
            ffn::swiglu_row::<T, M>(
                self.ffn(),
                mid,
                self.norm_eps,
                self.hidden_size as nat,
                self.intermediate_size as nat,
            ),
        )
    }

    /// The state after the first `t` of some normed rows.
    pub open spec fn after_normed<M: Math<T>>(
        &self,
        s: DeltaNetView<T>,
        normed: Seq<T>,
        t: nat,
    ) -> DeltaNetView<T>
        decreases t,
    {
        if t == 0 {
            s
        } else {
            self.after::<M>(
                self.after_normed::<M>(s, normed, (t - 1) as nat),
                ops::row(normed, t - 1, self.hidden_size as int),
            )
        }
    }

    /// The state after the first `t` rows of a sequence.
    pub open spec fn state_after<M: Math<T>>(
        &self,
        s: DeltaNetView<T>,
        x: Seq<T>,
        t: nat,
    ) -> DeltaNetView<T>
        decreases t,
    {
        if t == 0 {
            s
        } else {
            self.after::<M>(
                self.state_after::<M>(s, x, (t - 1) as nat),
                self.input::<M>(ops::row(x, t - 1, self.hidden_size as int)),
            )
        }
    }

    /// A sequence through the layer, row after row.
    pub open spec fn outputs<M: Math<T>>(&self, s: DeltaNetView<T>, x: Seq<T>, rows: nat) -> Seq<
        T,
    > {
        ops::blocks(
            rows,
            |t: int|
                self.output::<M>(
                    self.state_after::<M>(s, x, t as nat),
                    ops::row(x, t, self.hidden_size as int),
                ),
        )
    }

    /// The lengths of the parts of a step.
    proof fn lemma_parts<M: Math<T>>(&self, s: DeltaNetView<T>, n: Seq<T>)
        requires
            self.takes(s),
        ensures
            forall|p: int| 0 <= p < 3 ==> (#[trigger] self.raw(n, p)).len() == self.inner(),
            self.query_row(s, n).len() == self.inner(),
            self.key_row(s, n).len() == self.inner(),
            self.value_row(s, n).len() == self.inner(),
            forall|head: int|
                0 <= head < self.num_heads ==> (#[trigger] self.head_query::<M>(
                    s,
                    n,
                    head,
                )).len() == self.head_dim,
            forall|head: int|
                0 <= head < self.num_heads ==> (#[trigger] self.head_key::<M>(s, n, head)).len()
                    == self.head_dim,
            forall|head: int|
                0 <= head < self.num_heads ==> (#[trigger] self.head_value(s, n, head)).len()
                    == self.head_dim,
            forall|head: int|
                0 <= head < self.num_heads ==> (#[trigger] self.head_memory::<M>(
                    s,
                    n,
                    head,
                )).len() == self.head_dim * self.head_dim,
    {
        let d = self.head_dim as nat;
        let nh = self.num_heads as int;
        assert forall|p: int| 0 <= p < 3 implies (#[trigger] self.raw(n, p)).len()
            == self.inner() by {
            ops::lemma_row_bounds(p, 3, self.inner() as int);
        }
        assert forall|head: int| 0 <= head < nh implies (#[trigger] self.head_query::<M>(
            s,
            n,
            head,
        )).len() == d by {
            ops::lemma_row_bounds(head, nh, d as int);
        }
        assert forall|head: int| 0 <= head < nh implies (#[trigger] self.head_key::<M>(
            s,
            n,
            head,
        )).len() == d by {
            ops::lemma_row_bounds(head, nh, d as int);
        }
        assert forall|head: int| 0 <= head < nh implies (#[trigger] self.head_value(
            s,
            n,
            head,
        )).len() == d by {
            ops::lemma_row_bounds(head, nh, d as int);
        }
        assert forall|head: int| 0 <= head < nh implies (#[trigger] self.head_memory::<M>(
            s,
            n,
            head,
        )).len() == d * d by {
            ops::lemma_row_bounds(head, nh, (d * d) as int);
            deltanet::lemma_memory_len(
                ops::row(s.memory, head, (d * d) as int),
                self.head_key::<M>(s, n, head),
                self.head_value(s, n, head),
                logistic::<T, M>(self.alpha_row(n)[head]),
                logistic::<T, M>(self.beta_row(n)[head]),
                d,
            );
        }
    }

    /// A step keeps the dimensions of the state.
    pub proof fn lemma_after_fits<M: Math<T>>(&self, s: DeltaNetView<T>, n: Seq<T>)
        requires
            self.takes(s),
            self.conv_kernel > 0,
        ensures
            self.takes(self.after::<M>(s, n)),
    {
        self.lemma_parts::<M>(s, n);
        let d = self.head_dim as nat;
        let f = |head: int| self.head_memory::<M>(s, n, head);
        assert forall|head: int| 0 <= head < self.num_heads implies #[trigger] f(head).len() == d
            * d by {
            assert(self.head_memory::<M>(s, n, head).len() == d * d);
        }
        ops::lemma_blocks_len(self.num_heads as nat, f, d * d);
        assert(self.raw(n, 0).len() == self.inner());
        assert(self.raw(n, 1).len() == self.inner());
        assert(self.raw(n, 2).len() == self.inner());
        conv::lemma_shifted_state_len(s.q_conv, self.raw(n, 0), self.conv_kernel as nat);
        conv::lemma_shifted_state_len(s.k_conv, self.raw(n, 1), self.conv_kernel as nat);
        conv::lemma_shifted_state_len(s.v_conv, self.raw(n, 2), self.conv_kernel as nat);
    }

    /// Any number of steps keeps the dimensions of the state.
    pub proof fn lemma_state_fits<M: Math<T>>(&self, s: DeltaNetView<T>, x: Seq<T>, t: nat)
        requires
            self.takes(s),
            self.conv_kernel > 0,
        ensures
            self.takes(self.state_after::<M>(s, x, t)),
        decreases t,
    {
        if t > 0 {
            self.lemma_state_fits::<M>(s, x, (t - 1) as nat);
            self.lemma_after_fits::<M>(
                self.state_after::<M>(s, x, (t - 1) as nat),
                self.input::<M>(ops::row(x, t - 1, self.hidden_size as int)),
            );
        }
    }

    proof fn lemma_normed_fits<M: Math<T>>(&self, s: DeltaNetView<T>, normed: Seq<T>, t: nat)
        requires
            self.takes(s),
            self.conv_kernel > 0,
        ensures
            self.takes(self.after_normed::<M>(s, normed, t)),
        decreases t,
    {
        if t > 0 {
            self.lemma_normed_fits::<M>(s, normed, (t - 1) as nat);
            self.lemma_after_fits::<M>(
                self.after_normed::<M>(s, normed, (t - 1) as nat),
                ops::row(normed, t - 1, self.hidden_size as int),
            );
        }
    }

    /// Norming all rows first gives the same states.
    proof fn lemma_normed_states<M: Math<T>>(&self, s: DeltaNetView<T>, x: Seq<T>, rows: nat, t: nat)
        requires
            t <= rows,
            x.len() == rows * self.hidden_size,
        ensures
            self.after_normed::<M>(
                s,
                ops::rms_norm_of::<T, M>(
                    x,
                    self.attn_norm_weight@,
                    self.norm_eps,
                    self.hidden_size as nat,
                    rows,
                ),
                t,
            ) == self.state_after::<M>(s, x, t),
        decreases t,
    {
        if t > 0 {
            self.lemma_normed_states::<M>(s, x, rows, (t - 1) as nat);
            self.lemma_normed_row::<M>(x, rows, t - 1);
        }
    }

    proof fn lemma_normed_row<M: Math<T>>(&self, x: Seq<T>, rows: nat, t: int)
        requires
            0 <= t < rows,
            x.len() == rows * self.hidden_size,
        ensures
            ops::row(
                ops::rms_norm_of::<T, M>(
                    x,
                    self.attn_norm_weight@,
                    self.norm_eps,
                    self.hidden_size as nat,
                    rows,
                ),
                t,
                self.hidden_size as int,
            ) == self.input::<M>(ops::row(x, t, self.hidden_size as int)),
    {
        let h = self.hidden_size as nat;
        let f = |i: int|
            ops::rms_row::<T, M>(ops::row(x, i, h as int), self.attn_norm_weight@, self.norm_eps);
        assert forall|i: int| 0 <= i < rows implies #[trigger] f(i).len() == h by {
            ops::lemma_row_bounds(i, rows as int, h as int);
        }
        ops::lemma_blocks_row(rows, f, h, t);
    }

    fn project_seen<M: Math<T>>(&self, seen: &[T], normed: &[T]) -> (r: Vec<T>)
        requires
            scalar::mathematics::<T, M>(),
            self.wf(),
            seen@.len() == self.inner(),
            normed@.len() == self.hidden_size,
        ensures
            r@ == self.projected::<M>(seen@, normed@),
            r@.len() == self.hidden_size,
    {
        let none: Vec<T> = Vec::new();
        let inner = seen.len();
        let gate = linear_vec(
            normed,
            self.gate_proj_weight.as_slice(),
            none.as_slice(),
            self.hidden_size,
            inner,
        );
        let n = rms_normalize::<T, M>(seen, self.o_norm_weight.as_slice(), self.norm_eps);
        let gate = activate_all::<T, M>(Activation::Silu, gate.as_slice());
        let gated = mul_vecs(n.as_slice(), gate.as_slice());
        linear_vec(
            gated.as_slice(),
            self.o_proj_weight.as_slice(),
            none.as_slice(),
            inner,
            self.hidden_size,
        )
    }

    /// QKV projection and conv1d step for one normed row.
    fn conv1d_step_all<M: Math<T>>(&self, normed: &[T], state: &mut DeltaNetLayerState<T>) -> (r: (
        Vec<T>,
        Vec<T>,
        Vec<T>,
    ))
        requires
            scalar::mathematics::<T, M>(),
            self.wf(),
            self.matches(*old(state)),
            normed@.len() == self.hidden_size,
        ensures
            r.0@ == self.query_row(old(state)@, normed@),
            r.1@ == self.key_row(old(state)@, normed@),
            r.2@ == self.value_row(old(state)@, normed@),
            r.0@.len() == self.inner(),
            r.1@.len() == self.inner(),
            r.2@.len() == self.inner(),
            final(state).memory == old(state).memory,
            final(state).num_heads == old(state).num_heads,
            final(state).head_dim == old(state).head_dim,
            final(state).conv_kernel == old(state).conv_kernel,
            final(state).q_conv_state@ == self.after::<M>(old(state)@, normed@).q_conv,
            final(state).k_conv_state@ == self.after::<M>(old(state)@, normed@).k_conv,
            final(state).v_conv_state@ == self.after::<M>(old(state)@, normed@).v_conv,
            self.matches(*final(state)),
    {
        let none: Vec<T> = Vec::new();
        let inner = self.num_heads * self.head_dim;
        let ck = self.conv_kernel;
        let qkv = linear_vec(
            normed,
            self.qkv_weight.as_slice(),
            none.as_slice(),
            self.hidden_size,
            3 * inner,
        );
        proof {
            ops::lemma_row_bounds(0, 3, inner as int);
            ops::lemma_row_bounds(1, 3, inner as int);
            ops::lemma_row_bounds(2, 3, inner as int);
            self.lemma_parts::<M>(state@, normed@);
        }
        let q = conv_step(
            row_slice(qkv.as_slice(), 0, inner),
            &mut state.q_conv_state,
            self.q_conv_weight.as_slice(),
            self.q_conv_bias.as_slice(),
            ck,
        );
        let k = conv_step(
            row_slice(qkv.as_slice(), 1, inner),
            &mut state.k_conv_state,
            self.k_conv_weight.as_slice(),
            self.k_conv_bias.as_slice(),
            ck,
        );
        let v = conv_step(
            row_slice(qkv.as_slice(), 2, inner),
            &mut state.v_conv_state,
            self.v_conv_weight.as_slice(),
            self.v_conv_bias.as_slice(),
            ck,
        );
        (q, k, v)
    }

    fn project_heads(&self, normed: &[T], weight: &Vec<T>) -> (r: Vec<T>)
        requires
            scalar::arithmetic::<T>(),
            normed@.len() == self.hidden_size,
            weight@.len() == self.num_heads * self.hidden_size,
        ensures
            r@ == ops::linear_row(
                normed@,
                weight@,
                Seq::empty(),
                self.hidden_size as nat,
                self.num_heads as nat,
            ),
            r@.len() == self.num_heads,
    {
        let none: Vec<T> = Vec::new();
        linear_vec(
            normed,
            weight.as_slice(),
            none.as_slice(),
            self.hidden_size,
            self.num_heads,
        )
    }

    /// Single-token forward pass for the DeltaNet attention sub-block.
    ///
    /// Returns the attention output vector `[hidden_size]`.
    pub fn attn_forward_one<M: Math<T>>(
        &self,
        normed: &[T],
        state: &mut DeltaNetLayerState<T>,
    ) -> (r: Vec<T>)
        requires
            scalar::mathematics::<T, M>(),
            self.wf(),
            self.matches(*old(state)),
            normed@.len() == self.hidden_size,
        ensures
            r@ == self.attn_of::<M>(old(state)@, normed@),
            r@.len() == self.hidden_size,
            final(state)@ == self.after::<M>(old(state)@, normed@),
            self.matches(*final(state)),
    {
        let nh = self.num_heads;
        let hd = self.head_dim;
        let dd = hd * hd;
        let ghost s = state@;
        proof {
            self.lemma_parts::<M>(s, normed@);
        }
        // 1. QKV projection and conv1d step on Q, K, V
        let (q_conv, k_conv, v_conv) = self.conv1d_step_all::<M>(normed, state);
        // 2. Compute alpha, beta from the normed input
        let alpha_raw = self.project_heads(normed, &self.alpha_proj_weight);
        let beta_raw = self.project_heads(normed, &self.beta_proj_weight);
        // 3. Per-head DeltaNet step
        let ghost mid = *state;
        let ghost f = |head: int| self.head_memory::<M>(s, normed@, head);
        let ghost g = |head: int|
            deltanet::read_memory(
                self.head_memory::<M>(s, normed@, head),
                self.head_query::<M>(s, normed@, head),
                hd as nat,
            );
        let mut seen: Vec<T> = Vec::new();
        assert(state.memory@.take(0 * dd) =~= ops::blocks(0, f));
        for head in 0..nh
            invariant
                scalar::mathematics::<T, M>(),
                self.wf(),
                self.takes(s),
                nh == self.num_heads,
                hd == self.head_dim,
                dd == hd * hd,
                s.memory.len() == nh * dd,
                q_conv@ == self.query_row(s, normed@),
                k_conv@ == self.key_row(s, normed@),
                v_conv@ == self.value_row(s, normed@),
                q_conv@.len() == nh * hd,
                k_conv@.len() == nh * hd,
                v_conv@.len() == nh * hd,
                alpha_raw@ == self.alpha_row(normed@),
                beta_raw@ == self.beta_row(normed@),
                alpha_raw@.len() == nh,
                beta_raw@.len() == nh,
                state.q_conv_state == mid.q_conv_state,
                state.k_conv_state == mid.k_conv_state,
                state.v_conv_state == mid.v_conv_state,
                state.num_heads == mid.num_heads,
                state.head_dim == mid.head_dim,
                state.conv_kernel == mid.conv_kernel,
                state.memory@.len() == s.memory.len(),
                f == (|head: int| self.head_memory::<M>(s, normed@, head)),
                g == (|head: int|
                    deltanet::read_memory(
                        self.head_memory::<M>(s, normed@, head),
                        self.head_query::<M>(s, normed@, head),
                        hd as nat,
                    )),
                state.memory@.take(head * dd) == ops::blocks(head as nat, f),
                state.memory@.skip(head * dd) == s.memory.skip(head * dd),
                seen@ == ops::blocks(head as nat, g),
                seen@.len() == head * hd,
        {
            proof {
                ops::lemma_row_bounds(head as int, nh as int, hd as int);
                ops::lemma_row_bounds(head as int, nh as int, dd as int);
                ops::lemma_rest_agrees(state.memory@, s.memory, head as int, dd as int);
            }
            let q_h = l2_normalize::<T, M>(row_slice(q_conv.as_slice(), head, hd));
            let k_h = l2_normalize::<T, M>(row_slice(k_conv.as_slice(), head, hd));
            let v_h = row_slice(v_conv.as_slice(), head, hd);
            let alpha = sigmoid_gate::<T, M>(alpha_raw[head]);
            let beta = sigmoid_gate::<T, M>(beta_raw[head]);
            let mut memory = copy_slice(row_slice(state.memory.as_slice(), head, dd));
            let o_h = deltanet_step(
                q_h.as_slice(),
                k_h.as_slice(),
                v_h,
                alpha,
                beta,
                &mut memory,
                hd,
            );
            put_row(&mut state.memory, head, dd, memory.as_slice());
            extend(&mut seen, o_h.as_slice());
            assert(state.memory@.take((head + 1) * dd) =~= ops::blocks((head + 1) as nat, f));
            assert(seen@ =~= ops::blocks((head + 1) as nat, g));
        }
        assert(state.memory@.take(nh * dd) =~= state.memory@);
        proof {
            self.lemma_after_fits::<M>(s, normed@);
        }
        // 4. Output norm, SiLU gate and output projection
        self.project_seen::<M>(seen.as_slice(), normed)
    }

    /// Process a single token through this DeltaNet layer.
    ///
    /// `hidden`: input `[hidden_size]`.
    /// Returns output `[hidden_size]` with residual connections.
    pub fn forward_one<M: Math<T>>(&self, hidden: &[T], state: &mut DeltaNetLayerState<T>) -> (r:
        Vec<T>)
        requires
            scalar::mathematics::<T, M>(),
            self.wf(),
            self.matches(*old(state)),
            hidden@.len() == self.hidden_size,
        ensures
            r@ == self.output::<M>(old(state)@, hidden@),
            r@.len() == self.hidden_size,
            final(state)@ == self.after::<M>(old(state)@, self.input::<M>(hidden@)),
            self.matches(*final(state)),
    {
        let h = self.hidden_size;
        let normed = rms_normalize::<T, M>(
            hidden,
            self.attn_norm_weight.as_slice(),
            self.norm_eps,
        );
        let attn = self.attn_forward_one::<M>(normed.as_slice(), state);
        let mid = add_vecs(hidden, attn.as_slice());
        assert(1 * h == h);
        let y = swiglu_ffn_forward::<T, M>(
            mid.as_slice(),
            1,
            self.ffn_norm_weight.as_slice(),
            self.ffn_gate_weight.as_slice(),
            self.ffn_up_weight.as_slice(),
            self.ffn_down_weight.as_slice(),
            self.norm_eps,
            h,
            self.intermediate_size,
        );
        proof {
            let f = |t: int|
                ffn::swiglu_row::<T, M>(
                    self.ffn(),
                    ops::row(mid@, t, h as int),
                    self.norm_eps,
                    h as nat,
                    self.intermediate_size as nat,
                );
            assert(ops::row(mid@, 0, h as int) =~= mid@);
            assert(ops::blocks(0, f) =~= Seq::empty());
            assert(ops::blocks(1, f) =~= f(0));
        }
        add_vecs(mid.as_slice(), y.as_slice())
    }

    /// The keys of one head, timestep after timestep.
    pub open spec fn head_keys<M: Math<T>>(
        &self,
        s: DeltaNetView<T>,
        normed: Seq<T>,
        head: int,
        rows: nat,
    ) -> Seq<T> {
        ops::blocks(
            rows,
            |t: int|
                self.head_key::<M>(
                    self.after_normed::<M>(s, normed, t as nat),
                    ops::row(normed, t, self.hidden_size as int),
                    head,
                ),
        )
    }

    /// The queries of one head, timestep after timestep.
    pub open spec fn head_queries<M: Math<T>>(
        &self,
        s: DeltaNetView<T>,
        normed: Seq<T>,
        head: int,
        rows: nat,
    ) -> Seq<T> {
        ops::blocks(
            rows,
            |t: int|
                self.head_query::<M>(
                    self.after_normed::<M>(s, normed, t as nat),
                    ops::row(normed, t, self.hidden_size as int),
                    head,
                ),
        )
    }

    /// The values of one head, timestep after timestep.
    pub open spec fn head_values<M: Math<T>>(
        &self,
        s: DeltaNetView<T>,
        normed: Seq<T>,
        head: int,
        rows: nat,
    ) -> Seq<T> {
        ops::blocks(
            rows,
            |t: int|
                self.head_value(
                    self.after_normed::<M>(s, normed, t as nat),
                    ops::row(normed, t, self.hidden_size as int),
                    head,
                ),
        )
    }

    /// The decay gates of one head.
    pub open spec fn head_alphas<M: Math<T>>(&self, normed: Seq<T>, head: int, rows: nat) -> Seq<
        T,
    > {
        Seq::new(
            rows,
            |t: int|
                logistic::<T, M>(
                    self.alpha_row(ops::row(normed, t, self.hidden_size as int))[head],
                ),
        )
    }

    /// The update gates of one head.
    pub open spec fn head_betas<M: Math<T>>(&self, normed: Seq<T>, head: int, rows: nat) -> Seq<
        T,
    > {
        Seq::new(
            rows,
            |t: int|
                logistic::<T, M>(
                    self.beta_row(ops::row(normed, t, self.hidden_size as int))[head],
                ),
        )
    }

    /// Running one head through the whole sequence leaves it the memory that
    /// running all heads step by step does.
    proof fn lemma_head_memory<M: Math<T>>(
        &self,
        s: DeltaNetView<T>,
        normed: Seq<T>,
        head: int,
        rows: nat,
        n: nat,
    )
        requires
            self.takes(s),
            self.conv_kernel > 0,
            0 <= head < self.num_heads,
            n <= rows,
        ensures
            deltanet::memory_after_steps(
                ops::row(s.memory, head, (self.head_dim * self.head_dim) as int),
                self.head_keys::<M>(s, normed, head, rows),
                self.head_values::<M>(s, normed, head, rows),
                self.head_alphas::<M>(normed, head, rows),
                self.head_betas::<M>(normed, head, rows),
                self.head_dim as nat,
                n,
            ) == ops::row(
                self.after_normed::<M>(s, normed, n).memory,
                head,
                (self.head_dim * self.head_dim) as int,
            ),
        decreases n,
    {
        if n > 0 {
            let d = self.head_dim as nat;
            let t = n - 1;
            self.lemma_head_memory::<M>(s, normed, head, rows, t as nat);
            let before = self.after_normed::<M>(s, normed, t as nat);
            let row = ops::row(normed, t, self.hidden_size as int);
            let kf = |t: int|
                self.head_key::<M>(
                    self.after_normed::<M>(s, normed, t as nat),
                    ops::row(normed, t, self.hidden_size as int),
                    head,
                );
            let vf = |t: int|
                self.head_value(
                    self.after_normed::<M>(s, normed, t as nat),
                    ops::row(normed, t, self.hidden_size as int),
                    head,
                );
            assert forall|u: int| 0 <= u < rows implies #[trigger] kf(u).len() == d by {
                self.lemma_normed_fits::<M>(s, normed, u as nat);
                self.lemma_parts::<M>(
                    self.after_normed::<M>(s, normed, u as nat),
                    ops::row(normed, u, self.hidden_size as int),
                );
            }
            assert forall|u: int| 0 <= u < rows implies #[trigger] vf(u).len() == d by {
                self.lemma_normed_fits::<M>(s, normed, u as nat);
                self.lemma_parts::<M>(
                    self.after_normed::<M>(s, normed, u as nat),
                    ops::row(normed, u, self.hidden_size as int),
                );
            }
            ops::lemma_blocks_row(rows, kf, d, t);
            ops::lemma_blocks_row(rows, vf, d, t);
            self.lemma_normed_fits::<M>(s, normed, t as nat);
            self.lemma_parts::<M>(before, row);
            let f = |head: int| self.head_memory::<M>(before, row, head);
            assert forall|k: int| 0 <= k < self.num_heads implies #[trigger] f(k).len() == d
                * d by {
                assert(self.head_memory::<M>(before, row, k).len() == d * d);
            }
            ops::lemma_blocks_row(self.num_heads as nat, f, d * d, head);
        }
    }

    /// Q, K and V of all timesteps, after the convolution.
    fn project_all<M: Math<T>>(
        &self,
        normed: &[T],
        seq_len: usize,
        state: &mut DeltaNetLayerState<T>,
    ) -> (r: (Vec<T>, Vec<T>, Vec<T>))
        requires
            scalar::mathematics::<T, M>(),
            self.wf(),
            self.matches(*old(state)),
            normed@.len() == seq_len * self.hidden_size,
        ensures
            r.0@ == ops::blocks(
                seq_len as nat,
                |t: int|
                    self.query_row(
                        self.after_normed::<M>(old(state)@, normed@, t as nat),
                        ops::row(normed@, t, self.hidden_size as int),
                    ),
            ),
            r.1@ == ops::blocks(
                seq_len as nat,
                |t: int|
                    self.key_row(
                        self.after_normed::<M>(old(state)@, normed@, t as nat),
                        ops::row(normed@, t, self.hidden_size as int),
                    ),
            ),
            r.2@ == ops::blocks(
                seq_len as nat,
                |t: int|
                    self.value_row(
                        self.after_normed::<M>(old(state)@, normed@, t as nat),
                        ops::row(normed@, t, self.hidden_size as int),
                    ),
            ),
            r.0@.len() == seq_len * self.inner(),
            r.1@.len() == seq_len * self.inner(),
            r.2@.len() == seq_len * self.inner(),
            final(state).memory == old(state).memory,
            final(state).num_heads == old(state).num_heads,
            final(state).head_dim == old(state).head_dim,
            final(state).conv_kernel == old(state).conv_kernel,
            final(state).q_conv_state@ == self.after_normed::<M>(
                old(state)@,
                normed@,
                seq_len as nat,
            ).q_conv,
            final(state).k_conv_state@ == self.after_normed::<M>(
                old(state)@,
                normed@,
                seq_len as nat,
            ).k_conv,
            final(state).v_conv_state@ == self.after_normed::<M>(
                old(state)@,
                normed@,
                seq_len as nat,
            ).v_conv,
    {
        let h = self.hidden_size;
        let ghost c = self.inner();
        let ghost start = *state;
        let ghost s = state@;
        let ghost fq = |t: int|
            self.query_row(
                self.after_normed::<M>(s, normed@, t as nat),
                ops::row(normed@, t, h as int),
            );
        let ghost fk = |t: int|
            self.key_row(
                self.after_normed::<M>(s, normed@, t as nat),
                ops::row(normed@, t, h as int),
            );
        let ghost fv = |t: int|
            self.value_row(
                self.after_normed::<M>(s, normed@, t as nat),
                ops::row(normed@, t, h as int),
            );
        let mut q_all: Vec<T> = Vec::new();
        let mut k_all: Vec<T> = Vec::new();
        let mut v_all: Vec<T> = Vec::new();
        for t in 0..seq_len
            invariant
                scalar::mathematics::<T, M>(),
                self.wf(),
                self.takes(s),
                s == start@,
                h == self.hidden_size,
                c == self.inner(),
                normed@.len() == seq_len * h,
                self.matches(*state),
                state.memory == start.memory,
                state.num_heads == start.num_heads,
                state.head_dim == start.head_dim,
                state.conv_kernel == start.conv_kernel,
                state.q_conv_state@ == self.after_normed::<M>(s, normed@, t as nat).q_conv,
                state.k_conv_state@ == self.after_normed::<M>(s, normed@, t as nat).k_conv,
                state.v_conv_state@ == self.after_normed::<M>(s, normed@, t as nat).v_conv,
                fq == (|t: int|
                    self.query_row(
                        self.after_normed::<M>(s, normed@, t as nat),
                        ops::row(normed@, t, h as int),
                    )),
                fk == (|t: int|
                    self.key_row(
                        self.after_normed::<M>(s, normed@, t as nat),
                        ops::row(normed@, t, h as int),
                    )),
                fv == (|t: int|
                    self.value_row(
                        self.after_normed::<M>(s, normed@, t as nat),
                        ops::row(normed@, t, h as int),
                    )),
                q_all@ == ops::blocks(t as nat, fq),
                k_all@ == ops::blocks(t as nat, fk),
                v_all@ == ops::blocks(t as nat, fv),
        {
            proof {
                ops::lemma_row_bounds(t as int, seq_len as int, h as int);
            }
            let (q, k, v) = self.conv1d_step_all::<M>(row_slice(normed, t, h), state);
            extend(&mut q_all, q.as_slice());
            extend(&mut k_all, k.as_slice());
            extend(&mut v_all, v.as_slice());
            assert(q_all@ =~= ops::blocks((t + 1) as nat, fq));
            assert(k_all@ =~= ops::blocks((t + 1) as nat, fk));
            assert(v_all@ =~= ops::blocks((t + 1) as nat, fv));
        }
        proof {
            assert forall|t: int| 0 <= t < seq_len implies #[trigger] fq(t).len() == c && fk(
                t,
            ).len() == c && fv(t).len() == c by {
                self.lemma_normed_fits::<M>(s, normed@, t as nat);
                self.lemma_parts::<M>(
                    self.after_normed::<M>(s, normed@, t as nat),
                    ops::row(normed@, t, h as int),
                );
            }
            assert forall|t: int| 0 <= t < seq_len implies #[trigger] fk(t).len() == c by {
                assert(fq(t).len() == c);
            }
            assert forall|t: int| 0 <= t < seq_len implies #[trigger] fv(t).len() == c by {
                assert(fq(t).len() == c);
            }
            ops::lemma_blocks_len(seq_len as nat, fq, c);
            ops::lemma_blocks_len(seq_len as nat, fk, c);
            ops::lemma_blocks_len(seq_len as nat, fv, c);
        }
        (q_all, k_all, v_all)
    }

    /// One head's part of row `t`, normalised where asked.
    pub open spec fn head_part<M: Math<T>>(
        &self,
        x: Seq<T>,
        t: int,
        head: int,
        normalize: bool,
    ) -> Seq<T> {
        let part = ops::row(ops::row(x, t, self.inner() as int), head, self.head_dim as int);
        if normalize {
            deltanet::normalized::<T, M>(part)
        } else {
            part
        }
    }

    /// One head's part of the rows `x`, each `l2_normalize`d where asked.
    fn extract_head<M: Math<T>>(
        &self,
        x: &[T],
        seq_len: usize,
        head: usize,
        normalize: bool,
    ) -> (r: Vec<T>)
        requires
            scalar::mathematics::<T, M>(),
            self.wf(),
            head < self.num_heads,
            x@.len() == seq_len * self.inner(),
        ensures
            r@ == ops::blocks(
                seq_len as nat,
                |t: int| self.head_part::<M>(x@, t, head as int, normalize),
            ),
            r@.len() == seq_len * self.head_dim,
    {
        let hd = self.head_dim;
        let inner = self.num_heads * hd;
        let ghost f = |t: int| self.head_part::<M>(x@, t, head as int, normalize);
        let mut out: Vec<T> = Vec::new();
        for t in 0..seq_len
            invariant
                scalar::mathematics::<T, M>(),
                hd == self.head_dim,
                inner == self.num_heads * hd,
                head < self.num_heads,
                x@.len() == seq_len * inner,
                f == (|t: int| self.head_part::<M>(x@, t, head as int, normalize)),
                out@ == ops::blocks(t as nat, f),
        {
            proof {
                ops::lemma_row_bounds(t as int, seq_len as int, inner as int);
                ops::lemma_row_bounds(head as int, self.num_heads as int, hd as int);
            }
            let part = row_slice(row_slice(x, t, inner), head, hd);
            if normalize {
                let n = l2_normalize::<T, M>(part);
                extend(&mut out, n.as_slice());
            } else {
                extend(&mut out, part);
            }
            assert(out@ =~= ops::blocks((t + 1) as nat, f));
        }
        proof {
            assert forall|t: int| 0 <= t < seq_len implies #[trigger] f(t).len() == hd by {
                ops::lemma_row_bounds(t, seq_len as int, inner as int);
                ops::lemma_row_bounds(head as int, self.num_heads as int, hd as int);
            }
            ops::lemma_blocks_len(seq_len as nat, f, hd as nat);
        }
        out
    }

    /// The gates of one head over all timesteps.
    fn extract_gates<M: Math<T>>(
        &self,
        normed: &[T],
        seq_len: usize,
        head: usize,
        weight: &Vec<T>,
    ) -> (r: Vec<T>)
        requires
            scalar::mathematics::<T, M>(),
            head < self.num_heads,
            normed@.len() == seq_len * self.hidden_size,
            weight@.len() == self.num_heads * self.hidden_size,
        ensures
            r@ == Seq::new(
                seq_len as nat,
                |t: int|
                    logistic::<T, M>(
                        ops::linear_row(
                            ops::row(normed@, t, self.hidden_size as int),
                            weight@,
                            Seq::empty(),
                            self.hidden_size as nat,
                            self.num_heads as nat,
                        )[head as int],
                    ),
            ),
    {
        let h = self.hidden_size;
        let ghost all = Seq::new(
            seq_len as nat,
            |t: int|
                logistic::<T, M>(
                    ops::linear_row(
                        ops::row(normed@, t, h as int),
                        weight@,
                        Seq::empty(),
                        h as nat,
                        self.num_heads as nat,
                    )[head as int],
                ),
        );
        let mut out: Vec<T> = Vec::with_capacity(seq_len);
        for t in 0..seq_len
            invariant
                scalar::mathematics::<T, M>(),
                h == self.hidden_size,
                head < self.num_heads,
                normed@.len() == seq_len * h,
                weight@.len() == self.num_heads * h,
                all == Seq::new(
                    seq_len as nat,
                    |t: int|
                        logistic::<T, M>(
                            ops::linear_row(
                                ops::row(normed@, t, h as int),
                                weight@,
                                Seq::empty(),
                                h as nat,
                                self.num_heads as nat,
                            )[head as int],
                        ),
                ),
                out@ == all.take(t as int),
        {
            proof {
                ops::lemma_row_bounds(t as int, seq_len as int, h as int);
            }
            let raw = self.project_heads(row_slice(normed, t, h), weight);
            let gate = sigmoid_gate::<T, M>(raw[head]);
            out.push(gate);
            assert(out@ =~= all.take(t + 1));
        }
        assert(out@ =~= all);
        out
    }

    /// What one head reads at each timestep, when it runs through the whole
    /// sequence.
    pub open spec fn head_outputs<M: Math<T>>(
        &self,
        s: DeltaNetView<T>,
        normed: Seq<T>,
        head: int,
        rows: nat,
    ) -> Seq<T> {
        ops::blocks(
            rows,
            |t: int|
                deltanet::step_output(
                    ops::row(s.memory, head, (self.head_dim * self.head_dim) as int),
                    self.head_queries::<M>(s, normed, head, rows),
                    self.head_keys::<M>(s, normed, head, rows),
                    self.head_values::<M>(s, normed, head, rows),
                    self.head_alphas::<M>(normed, head, rows),
                    self.head_betas::<M>(normed, head, rows),
                    self.head_dim as nat,
                    t,
                ),
        )
    }

    /// At timestep `t` the heads read what they read when all heads run step
    /// by step.
    proof fn lemma_head_outputs<M: Math<T>>(
        &self,
        s: DeltaNetView<T>,
        normed: Seq<T>,
        head: int,
        rows: nat,
        t: int,
    )
        requires
            self.takes(s),
            self.conv_kernel > 0,
            0 <= head < self.num_heads,
            0 <= t < rows,
        ensures
            ops::row(self.head_outputs::<M>(s, normed, head, rows), t, self.head_dim as int)
                == deltanet::read_memory(
                self.head_memory::<M>(
                    self.after_normed::<M>(s, normed, t as nat),
                    ops::row(normed, t, self.hidden_size as int),
                    head,
                ),
                self.head_query::<M>(
                    self.after_normed::<M>(s, normed, t as nat),
                    ops::row(normed, t, self.hidden_size as int),
                    head,
                ),
                self.head_dim as nat,
            ),
            self.head_outputs::<M>(s, normed, head, rows).len() == rows * self.head_dim,
            (t + 1) * self.head_dim <= rows * self.head_dim,
    {
        let d = self.head_dim as nat;
        let before = self.after_normed::<M>(s, normed, t as nat);
        let row = ops::row(normed, t, self.hidden_size as int);
        let f = |t: int|
            deltanet::step_output(
                ops::row(s.memory, head, (self.head_dim * self.head_dim) as int),
                self.head_queries::<M>(s, normed, head, rows),
                self.head_keys::<M>(s, normed, head, rows),
                self.head_values::<M>(s, normed, head, rows),
                self.head_alphas::<M>(normed, head, rows),
                self.head_betas::<M>(normed, head, rows),
                d,
                t,
            );
        ops::lemma_row_bounds(t, rows as int, d as int);
        ops::lemma_blocks_len(rows, f, d);
        ops::lemma_blocks_row(rows, f, d, t);
        self.lemma_head_memory::<M>(s, normed, head, rows, (t + 1) as nat);
        self.lemma_normed_fits::<M>(s, normed, t as nat);
        self.lemma_parts::<M>(before, row);
        let g = |head: int| self.head_memory::<M>(before, row, head);
        assert forall|k: int| 0 <= k < self.num_heads implies #[trigger] g(k).len() == d * d by {
            assert(self.head_memory::<M>(before, row, k).len() == d * d);
        }
        ops::lemma_blocks_row(self.num_heads as nat, g, d * d, head);
        let qf = |t: int|
            self.head_query::<M>(
                self.after_normed::<M>(s, normed, t as nat),
                ops::row(normed, t, self.hidden_size as int),
                head,
            );
        assert forall|u: int| 0 <= u < rows implies #[trigger] qf(u).len() == d by {
            self.lemma_normed_fits::<M>(s, normed, u as nat);
            self.lemma_parts::<M>(
                self.after_normed::<M>(s, normed, u as nat),
                ops::row(normed, u, self.hidden_size as int),
            );
        }
        ops::lemma_blocks_row(rows, qf, d, t);
    }

    /// Runs one head through the whole sequence: its memory is updated in
    /// `state` and what it reads is returned.
    fn run_head<M: Math<T>>(
        &self,
        normed: &[T],
        q_all: &[T],
        k_all: &[T],
        v_all: &[T],
        seq_len: usize,
        head: usize,
        memory: &mut Vec<T>,
        Ghost(s): Ghost<DeltaNetView<T>>,
    ) -> (r: Vec<T>)
        requires
            scalar::mathematics::<T, M>(),
            self.wf(),
            self.takes(s),
            head < self.num_heads,
            normed@.len() == seq_len * self.hidden_size,
            q_all@ == ops::blocks(
                seq_len as nat,
                |t: int|
                    self.query_row(
                        self.after_normed::<M>(s, normed@, t as nat),
                        ops::row(normed@, t, self.hidden_size as int),
                    ),
            ),
            k_all@ == ops::blocks(
                seq_len as nat,
                |t: int|
                    self.key_row(
                        self.after_normed::<M>(s, normed@, t as nat),
                        ops::row(normed@, t, self.hidden_size as int),
                    ),
            ),
            v_all@ == ops::blocks(
                seq_len as nat,
                |t: int|
                    self.value_row(
                        self.after_normed::<M>(s, normed@, t as nat),
                        ops::row(normed@, t, self.hidden_size as int),
                    ),
            ),
            q_all@.len() == seq_len * self.inner(),
            k_all@.len() == seq_len * self.inner(),
            v_all@.len() == seq_len * self.inner(),
            old(memory)@ == ops::row(
                s.memory,
                head as int,
                (self.head_dim * self.head_dim) as int,
            ),
        ensures
            final(memory)@ == ops::row(
                self.after_normed::<M>(s, normed@, seq_len as nat).memory,
                head as int,
                (self.head_dim * self.head_dim) as int,
            ),
            final(memory)@.len() == self.head_dim * self.head_dim,
            r@ == self.head_outputs::<M>(s, normed@, head as int, seq_len as nat),
            r@.len() == seq_len * self.head_dim,
    {
        let hd = self.head_dim;
        let ghost c = self.inner();
        let ghost rows = seq_len as nat;
        let q_h = self.extract_head::<M>(q_all, seq_len, head, true);
        let k_h = self.extract_head::<M>(k_all, seq_len, head, true);
        let v_h = self.extract_head::<M>(v_all, seq_len, head, false);
        proof {
            let st = |t: int| self.after_normed::<M>(s, normed@, t as nat);
            let nr = |t: int| ops::row(normed@, t, self.hidden_size as int);
            let fq = |t: int| self.query_row(st(t), nr(t));
            let fk = |t: int| self.key_row(st(t), nr(t));
            let fv = |t: int| self.value_row(st(t), nr(t));
            assert forall|t: int| 0 <= t < rows implies #[trigger] fq(t).len() == c by {
                self.lemma_normed_fits::<M>(s, normed@, t as nat);
                self.lemma_parts::<M>(st(t), nr(t));
            }
            assert forall|t: int| 0 <= t < rows implies #[trigger] fk(t).len() == c by {
                self.lemma_normed_fits::<M>(s, normed@, t as nat);
                self.lemma_parts::<M>(st(t), nr(t));
            }
            assert forall|t: int| 0 <= t < rows implies #[trigger] fv(t).len() == c by {
                self.lemma_normed_fits::<M>(s, normed@, t as nat);
                self.lemma_parts::<M>(st(t), nr(t));
            }
            ops::lemma_blocks_same(
                rows,
                fq,
                |t: int|
                    self.query_row(
                        self.after_normed::<M>(s, normed@, t as nat),
                        ops::row(normed@, t, self.hidden_size as int),
                    ),
            );
            ops::lemma_blocks_same(
                rows,
                fk,
                |t: int|
                    self.key_row(
                        self.after_normed::<M>(s, normed@, t as nat),
                        ops::row(normed@, t, self.hidden_size as int),
                    ),
            );
            ops::lemma_blocks_same(
                rows,
                fv,
                |t: int|
                    self.value_row(
                        self.after_normed::<M>(s, normed@, t as nat),
                        ops::row(normed@, t, self.hidden_size as int),
                    ),
            );
            ops::lemma_blocks_rows(rows, fq, c);
            ops::lemma_blocks_rows(rows, fk, c);
            ops::lemma_blocks_rows(rows, fv, c);
            let pq = |t: int| self.head_part::<M>(q_all@, t, head as int, true);
            let pk = |t: int| self.head_part::<M>(k_all@, t, head as int, true);
            let pv = |t: int| self.head_part::<M>(v_all@, t, head as int, false);
            let hq = |t: int| self.head_query::<M>(st(t), nr(t), head as int);
            let hk = |t: int| self.head_key::<M>(st(t), nr(t), head as int);
            let hv = |t: int| self.head_value(st(t), nr(t), head as int);
            assert forall|t: int| 0 <= t < rows implies #[trigger] pq(t) == hq(t) by {
                assert(ops::row(q_all@, t, c as int) == fq(t));
            }
            assert forall|t: int| 0 <= t < rows implies #[trigger] pk(t) == hk(t) by {
                assert(ops::row(k_all@, t, c as int) == fk(t));
            }
            assert forall|t: int| 0 <= t < rows implies #[trigger] pv(t) == hv(t) by {
                assert(ops::row(v_all@, t, c as int) == fv(t));
            }
            ops::lemma_blocks_same(rows, pq, hq);
            ops::lemma_blocks_same(rows, pk, hk);
            ops::lemma_blocks_same(rows, pv, hv);
            assert(q_h@ == ops::blocks(rows, hq));
            assert(k_h@ == ops::blocks(rows, hk));
            assert(v_h@ == ops::blocks(rows, hv));
            ops::lemma_blocks_same(
                rows,
                hq,
                |t: int|
                    self.head_query::<M>(
                        self.after_normed::<M>(s, normed@, t as nat),
                        ops::row(normed@, t, self.hidden_size as int),
                        head as int,
                    ),
            );
            ops::lemma_blocks_same(
                rows,
                hk,
                |t: int|
                    self.head_key::<M>(
                        self.after_normed::<M>(s, normed@, t as nat),
                        ops::row(normed@, t, self.hidden_size as int),
                        head as int,
                    ),
            );
            ops::lemma_blocks_same(
                rows,
                hv,
                |t: int|
                    self.head_value(
                        self.after_normed::<M>(s, normed@, t as nat),
                        ops::row(normed@, t, self.hidden_size as int),
                        head as int,
                    ),
            );
            assert(q_h@ == self.head_queries::<M>(s, normed@, head as int, rows));
            assert(k_h@ == self.head_keys::<M>(s, normed@, head as int, rows));
            assert(v_h@ == self.head_values::<M>(s, normed@, head as int, rows));
        }
        let alpha_h = self.extract_gates::<M>(normed, seq_len, head, &self.alpha_proj_weight);
        let beta_h = self.extract_gates::<M>(normed, seq_len, head, &self.beta_proj_weight);
        assert(alpha_h@ =~= self.head_alphas::<M>(normed@, head as int, rows));
        assert(beta_h@ =~= self.head_betas::<M>(normed@, head as int, rows));
        proof {
            ops::lemma_row_bounds(
                head as int,
                self.num_heads as int,
                (self.head_dim * self.head_dim) as int,
            );
            self.lemma_head_memory::<M>(s, normed@, head as int, rows, rows);
        }
        deltanet_seq(
            q_h.as_slice(),
            k_h.as_slice(),
            v_h.as_slice(),
            alpha_h.as_slice(),
            beta_h.as_slice(),
            memory,
            seq_len,
            hd,
        )
    }

    /// Sequence forward pass for the DeltaNet attention sub-block.
    ///
    /// Processes `seq_len` tokens and returns `[seq_len * hidden_size]`.
    pub fn attn_forward_seq<M: Math<T>>(
        &self,
        normed: &[T],
        seq_len: usize,
        state: &mut DeltaNetLayerState<T>,
    ) -> (r: Vec<T>)
        requires
            scalar::mathematics::<T, M>(),
            self.wf(),
            self.matches(*old(state)),
            normed@.len() == seq_len * self.hidden_size,
        ensures
            r@ == ops::blocks(
                seq_len as nat,
                |t: int|
                    self.attn_of::<M>(
                        self.after_normed::<M>(old(state)@, normed@, t as nat),
                        ops::row(normed@, t, self.hidden_size as int),
                    ),
            ),
            r@.len() == seq_len * self.hidden_size,
            final(state)@ == self.after_normed::<M>(old(state)@, normed@, seq_len as nat),
            self.matches(*final(state)),
    {
        let nh = self.num_heads;
        let hd = self.head_dim;
        let h = self.hidden_size;
        let dd = hd * hd;
        let ghost s = state@;
        let ghost rows = seq_len as nat;
        // 1. QKV projection and conv1d, timestep after timestep
        let (q_all, k_all, v_all) = self.project_all::<M>(normed, seq_len, state);
        let ghost mid = *state;
        let ghost end = self.after_normed::<M>(s, normed@, rows);
        proof {
            self.lemma_normed_fits::<M>(s, normed@, rows);
        }
        // 2. Per-head DeltaNet sequence
        let ghost f = |head: int| ops::row(end.memory, head, dd as int);
        let mut heads: Vec<Vec<T>> = Vec::with_capacity(nh);
        assert(state.memory@.take(0 * dd) =~= ops::blocks(0, f));
        for head in 0..nh
            invariant
                scalar::mathematics::<T, M>(),
                self.wf(),
                self.takes(s),
                self.takes(end),
                nh == self.num_heads,
                hd == self.head_dim,
                h == self.hidden_size,
                dd == hd * hd,
                rows == seq_len,
                end == self.after_normed::<M>(s, normed@, rows),
                s.memory.len() == nh * dd,
                normed@.len() == seq_len * h,
                q_all@ == ops::blocks(
                    seq_len as nat,
                    |t: int|
                        self.query_row(
                            self.after_normed::<M>(s, normed@, t as nat),
                            ops::row(normed@, t, self.hidden_size as int),
                        ),
                ),
                k_all@ == ops::blocks(
                    seq_len as nat,
                    |t: int|
                        self.key_row(
                            self.after_normed::<M>(s, normed@, t as nat),
                            ops::row(normed@, t, self.hidden_size as int),
                        ),
                ),
                v_all@ == ops::blocks(
                    seq_len as nat,
                    |t: int|
                        self.value_row(
                            self.after_normed::<M>(s, normed@, t as nat),
                            ops::row(normed@, t, self.hidden_size as int),
                        ),
                ),
                q_all@.len() == seq_len * self.inner(),
                k_all@.len() == seq_len * self.inner(),
                v_all@.len() == seq_len * self.inner(),
                state.q_conv_state == mid.q_conv_state,
                state.k_conv_state == mid.k_conv_state,
                state.v_conv_state == mid.v_conv_state,
                state.num_heads == mid.num_heads,
                state.head_dim == mid.head_dim,
                state.conv_kernel == mid.conv_kernel,
                state.memory@.len() == s.memory.len(),
                f == (|head: int| ops::row(end.memory, head, dd as int)),
                state.memory@.take(head * dd) == ops::blocks(head as nat, f),
                state.memory@.skip(head * dd) == s.memory.skip(head * dd),
                heads@.len() == head,
                forall|k: int|
                    0 <= k < head ==> (#[trigger] heads@[k])@ == self.head_outputs::<M>(
                        s,
                        normed@,
                        k,
                        rows,
                    ),
        {
            proof {
                ops::lemma_row_bounds(head as int, nh as int, dd as int);
                ops::lemma_rest_agrees(state.memory@, s.memory, head as int, dd as int);
            }
            let mut memory = copy_slice(row_slice(state.memory.as_slice(), head, dd));
            let o_h = self.run_head::<M>(
                normed,
                q_all.as_slice(),
                k_all.as_slice(),
                v_all.as_slice(),
                seq_len,
                head,
                &mut memory,
                Ghost(s),
            );
            put_row(&mut state.memory, head, dd, memory.as_slice());
            heads.push(o_h);
            assert(state.memory@.take((head + 1) * dd) =~= ops::blocks((head + 1) as nat, f));
        }
        proof {
            assert(state.memory@.take(nh * dd) =~= state.memory@);
            ops::lemma_rows(end.memory, nh as nat, dd as nat);
            assert(state.memory@ == end.memory);
            assert(state@ =~= end);
        }
        // 3. Output norm + SiLU gate + output projection, per timestep
        let ghost g = |t: int|
            self.attn_of::<M>(
                self.after_normed::<M>(s, normed@, t as nat),
                ops::row(normed@, t, h as int),
            );
        let mut out: Vec<T> = Vec::new();
        assert(0 * h == 0) by (nonlinear_arith);
        for t in 0..seq_len
            invariant
                scalar::mathematics::<T, M>(),
                self.wf(),
                self.takes(s),
                nh == self.num_heads,
                hd == self.head_dim,
                h == self.hidden_size,
                rows == seq_len,
                normed@.len() == seq_len * h,
                heads@.len() == nh,
                forall|k: int|
                    0 <= k < nh ==> (#[trigger] heads@[k])@ == self.head_outputs::<M>(
                        s,
                        normed@,
                        k,
                        rows,
                    ),
                g == (|t: int|
                    self.attn_of::<M>(
                        self.after_normed::<M>(s, normed@, t as nat),
                        ops::row(normed@, t, h as int),
                    )),
                out@ == ops::blocks(t as nat, g),
                out@.len() == t * h,
        {
            let ghost before = self.after_normed::<M>(s, normed@, t as nat);
            let ghost row = ops::row(normed@, t as int, h as int);
            let ghost reads = |head: int|
                deltanet::read_memory(
                    self.head_memory::<M>(before, row, head),
                    self.head_query::<M>(before, row, head),
                    hd as nat,
                );
            let mut seen: Vec<T> = Vec::new();
            assert(0 * hd == 0) by (nonlinear_arith);
            for head in 0..nh
                invariant
                    self.wf(),
                    self.takes(s),
                    nh == self.num_heads,
                    hd == self.head_dim,
                    h == self.hidden_size,
                    t < seq_len,
                    rows == seq_len,
                    before == self.after_normed::<M>(s, normed@, t as nat),
                    row == ops::row(normed@, t as int, h as int),
                    heads@.len() == nh,
                    forall|k: int|
                        0 <= k < nh ==> (#[trigger] heads@[k])@ == self.head_outputs::<M>(
                            s,
                            normed@,
                            k,
                            rows,
                        ),
                    reads == (|head: int|
                        deltanet::read_memory(
                            self.head_memory::<M>(before, row, head),
                            self.head_query::<M>(before, row, head),
                            hd as nat,
                        )),
                    seen@ == ops::blocks(head as nat, reads),
                    seen@.len() == head * hd,
            {
                proof {
                    self.lemma_head_outputs::<M>(s, normed@, head as int, rows, t as int);
                    assert(heads@[head as int]@ == self.head_outputs::<M>(
                        s,
                        normed@,
                        head as int,
                        rows,
                    ));
                    ops::lemma_row_bounds(head as int, nh as int, hd as int);
                }
                extend(&mut seen, row_slice(heads[head].as_slice(), t, hd));
                assert(seen@ =~= ops::blocks((head + 1) as nat, reads));
            }
            proof {
                ops::lemma_row_bounds(t as int, seq_len as int, h as int);
            }
            let y = self.project_seen::<M>(seen.as_slice(), row_slice(normed, t, h));
            extend(&mut out, y.as_slice());
            assert(out@ =~= ops::blocks((t + 1) as nat, g));
        }
        out
    }

    /// Process a sequence of tokens through this DeltaNet layer.
    ///
    /// `hidden`: input `[seq_len * hidden_size]`.
    /// Returns output `[seq_len * hidden_size]` with residual connections.
    /// Gives what [`Self::forward_one`] gives for one row after the other.
    pub fn forward_seq<M: Math<T>>(
        &self,
        hidden: &[T],
        seq_len: usize,
        state: &mut DeltaNetLayerState<T>,
    ) -> (r: Vec<T>)
        requires
            scalar::mathematics::<T, M>(),
            self.wf(),
            self.matches(*old(state)),
            hidden@.len() == seq_len * self.hidden_size,
        ensures
            r@ == self.outputs::<M>(old(state)@, hidden@, seq_len as nat),
            r@.len() == seq_len * self.hidden_size,
            final(state)@ == self.state_after::<M>(old(state)@, hidden@, seq_len as nat),
            self.matches(*final(state)),
    {
        let h = self.hidden_size;
        let im = self.intermediate_size;
        let ghost s = state@;
        let ghost rows = seq_len as nat;
        let normed = rmsnorm::<T, M>(
            hidden,
            self.attn_norm_weight.as_slice(),
            self.norm_eps,
            h,
            seq_len,
        );
        let attn = self.attn_forward_seq::<M>(normed.as_slice(), seq_len, state);
        let mid = add_vecs(hidden, attn.as_slice());
        let y = swiglu_ffn_forward::<T, M>(
            mid.as_slice(),
            seq_len,
            self.ffn_norm_weight.as_slice(),
            self.ffn_gate_weight.as_slice(),
            self.ffn_up_weight.as_slice(),
            self.ffn_down_weight.as_slice(),
            self.norm_eps,
            h,
            im,
        );
        let out = add_vecs(mid.as_slice(), y.as_slice());
        proof {
            self.lemma_normed_states::<M>(s, hidden@, rows, rows);
            let a = |t: int|
                self.attn_of::<M>(
                    self.after_normed::<M>(s, normed@, t as nat),
                    ops::row(normed@, t, h as int),
                );
            let fy = |t: int|
                ffn::swiglu_row::<T, M>(
                    self.ffn(),
                    ops::row(mid@, t, h as int),
                    self.norm_eps,
                    h as nat,
                    im as nat,
                );
            let o = |t: int|
                self.output::<M>(
                    self.state_after::<M>(s, hidden@, t as nat),
                    ops::row(hidden@, t, h as int),
                );
            assert forall|t: int| 0 <= t < rows implies #[trigger] a(t).len() == h by {}
            assert forall|t: int| 0 <= t < rows implies #[trigger] fy(t).len() == h by {}
            assert forall|t: int| 0 <= t < rows implies #[trigger] o(t) == ops::row(
                out@,
                t,
                h as int,
            ) by {
                self.lemma_normed_states::<M>(s, hidden@, rows, t as nat);
                self.lemma_normed_row::<M>(hidden@, rows, t);
                ops::lemma_blocks_row(rows, a, h as nat, t);
                ops::lemma_blocks_row(rows, fy, h as nat, t);
                ops::lemma_sum_row(hidden@, attn@, rows, h as nat, t);
                ops::lemma_sum_row(mid@, y@, rows, h as nat, t);
            }
            let r = |t: int| ops::row(out@, t, h as int);
            ops::lemma_rows(out@, rows, h as nat);
            ops::lemma_blocks_same(rows, o, r);
        }
        out
    }

    // ── Laws ─────────────────────────────────────────────────────────

    /// One more row is one more step from the state before it.
    pub proof fn lemma_append_row<M: Math<T>>(
        &self,
        s: DeltaNetView<T>,
        x: Seq<T>,
        y: Seq<T>,
        n: nat,
    )
        requires
            x.len() == n * self.hidden_size,
            y.len() == self.hidden_size,
        ensures
            self.state_after::<M>(s, x + y, n + 1) == self.after::<M>(
                self.state_after::<M>(s, x, n),
                self.input::<M>(y),
            ),
            self.outputs::<M>(s, x + y, n + 1) == self.outputs::<M>(s, x, n) + self.output::<M>(
                self.state_after::<M>(s, x, n),
                y,
            ),
    {
        let h = self.hidden_size as int;
        ops::lemma_row_bounds(n as int, n as int + 1, h);
        assert((x + y).take(n * h) =~= x);
        assert(ops::row(x + y, n as int, h) =~= y);
        self.lemma_prefix_decides::<M>(s, x + y, x, n);
    }

    proof fn lemma_continue_step<M: Math<T>>(
        &self,
        s: DeltaNetView<T>,
        x: Seq<T>,
        z: Seq<T>,
        last: Seq<T>,
        m: nat,
        k: nat,
    )
        requires
            x.len() == m * self.hidden_size,
            z.len() == k * self.hidden_size,
            last.len() == self.hidden_size,
            (m + k) * self.hidden_size == x.len() + z.len(),
            self.state_after::<M>(s, x + z, m + k) == self.state_after::<M>(
                self.state_after::<M>(s, x, m),
                z,
                k,
            ),
            self.outputs::<M>(s, x + z, m + k) == self.outputs::<M>(s, x, m) + self.outputs::<M>(
                self.state_after::<M>(s, x, m),
                z,
                k,
            ),
        ensures
            self.state_after::<M>(s, (x + z) + last, m + k + 1) == self.state_after::<M>(
                self.state_after::<M>(s, x, m),
                z + last,
                k + 1,
            ),
            self.outputs::<M>(s, (x + z) + last, m + k + 1) == self.outputs::<M>(s, x, m)
                + self.outputs::<M>(self.state_after::<M>(s, x, m), z + last, k + 1),
    {
        let mid = self.state_after::<M>(s, x, m);
        self.lemma_append_row::<M>(s, x + z, last, m + k);
        self.lemma_append_row::<M>(mid, z, last, k);
        let a = self.outputs::<M>(s, x, m);
        let b = self.outputs::<M>(mid, z, k);
        let c = self.output::<M>(self.state_after::<M>(mid, z, k), last);
        ops::lemma_concat_assoc(a, b, c);
    }

    /// A sequence can be cut anywhere: the state after the first rows is all
    /// that the rest depends on.
    pub proof fn lemma_sequence_continues<M: Math<T>>(
        &self,
        s: DeltaNetView<T>,
        x: Seq<T>,
        y: Seq<T>,
        m: nat,
        n: nat,
    )
        requires
            x.len() == m * self.hidden_size,
            y.len() == n * self.hidden_size,
        ensures
            self.state_after::<M>(s, x + y, m + n) == self.state_after::<M>(
                self.state_after::<M>(s, x, m),
                y,
                n,
            ),
            self.outputs::<M>(s, x + y, m + n) == self.outputs::<M>(s, x, m) + self.outputs::<M>(
                self.state_after::<M>(s, x, m),
                y,
                n,
            ),
        decreases n,
    {
        let h = self.hidden_size as int;
        let mid = self.state_after::<M>(s, x, m);
        if n == 0 {
            assert(n * self.hidden_size == 0) by (nonlinear_arith)
                requires
                    n == 0,
            ;
            assert(x + y =~= x);
            assert(self.outputs::<M>(mid, y, 0) =~= Seq::empty());
        } else {
            let k = (n - 1) as nat;
            let p = m + k;
            ops::lemma_row_bounds(k as int, n as int, h);
            let z = y.take(k * h);
            let last = y.skip(k * h);
            assert(y =~= z + last);
            assert(x + y =~= (x + z) + last);
            assert(p * h == m * h + k * h) by (nonlinear_arith)
                requires
                    p == m + k,
            ;
            self.lemma_sequence_continues::<M>(s, x, z, m, k);
            self.lemma_continue_step::<M>(s, x, z, last, m, k);
            assert((k + 1) as nat == n && (p + 1) as nat == m + n);
        }
    }

    /// The state after some rows, and what they give, depend on those rows only.
    proof fn lemma_prefix_decides<M: Math<T>>(
        &self,
        s: DeltaNetView<T>,
        x: Seq<T>,
        y: Seq<T>,
        n: nat,
    )
        requires
            n * self.hidden_size <= x.len(),
            n * self.hidden_size == y.len(),
            x.take((n * self.hidden_size) as int) == y,
        ensures
            self.state_after::<M>(s, x, n) == self.state_after::<M>(s, y, n),
            self.outputs::<M>(s, x, n) == self.outputs::<M>(s, y, n),
        decreases n,
    {
        if n > 0 {
            let h = self.hidden_size as int;
            ops::lemma_row_bounds(n - 1, n as int, h);
            let w = x.take((n - 1) * h);
            assert(w =~= y.take((n - 1) * h));
            self.lemma_prefix_decides::<M>(s, x, w, (n - 1) as nat);
            self.lemma_prefix_decides::<M>(s, y, w, (n - 1) as nat);
            assert(ops::row(x, n - 1, h) =~= ops::row(y, n - 1, h));
        }
    }
}

} // verus!
