//! MambaBlock: a single Mamba layer.
//!
//! RMSNorm → in_proj (split x, z) → Conv1d → SiLU → SSM → Gate (silu(z)*y) → out_proj → residual.

use vstd::prelude::*;
use vstd::slice::slice_subrange;

use crate::buffer::extend;
use crate::models::ssm::conv;
use crate::models::ssm::conv::conv_step;
use crate::models::ssm::mamba::selective_scan;
use crate::models::ssm::mamba::selective_scan::{selective_scan_step, ScanInput};
use crate::models::ssm::mamba::state::{MambaLayerState, MambaView};
use crate::ops;
use crate::ops::{
    activate_all, add_vecs, linear_vec, mul_vecs, rms_normalize, row_slice, Activation,
};
use crate::scalar;
use crate::scalar::{Math, Scalar};

verus! {

/// A single Mamba block (one layer).
pub struct MambaBlock<T> {
    pub d_model: usize,
    pub d_inner: usize,
    pub d_state: usize,
    pub d_conv: usize,
    pub dt_rank: usize,
    pub norm_weight: Vec<T>,  // [d_model]
    pub norm_eps: T,
    pub in_proj_weight: Vec<T>,  // [2*d_inner, d_model]
    pub in_proj_bias: Vec<T>,  // may be empty
    pub conv1d_weight: Vec<T>,  // [d_inner, d_conv]
    pub conv1d_bias: Vec<T>,  // [d_inner]
    pub x_proj_weight: Vec<T>,  // [dt_rank + 2*d_state, d_inner]
    pub dt_proj_weight: Vec<T>,  // [d_inner, dt_rank]
    pub dt_proj_bias: Vec<T>,  // [d_inner]
    pub a_log: Vec<T>,  // [d_inner, d_state]
    pub d_param: Vec<T>,  // [d_inner]
    pub out_proj_weight: Vec<T>,  // [d_model, d_inner]
    pub out_proj_bias: Vec<T>,  // may be empty
}

impl<T: Scalar> MambaBlock<T> {
    /// The weights have their sizes.
    pub open spec fn wf(&self) -> bool {
        let d = self.d_model as nat;
        let inner = self.d_inner as nat;
        let out = (self.dt_rank + 2 * self.d_state) as nat;
        &&& self.d_conv > 0
        &&& 2 * self.d_inner <= usize::MAX
        &&& out <= usize::MAX
        &&& d <= self.norm_weight@.len()
        &&& self.in_proj_weight@.len() == (2 * inner) * d
        &&& self.in_proj_bias@.len() == 0 || 2 * inner <= self.in_proj_bias@.len()
        &&& self.conv1d_weight@.len() == inner * self.d_conv
        &&& self.conv1d_bias@.len() == inner
        &&& self.x_proj_weight@.len() == out * inner
        &&& self.dt_proj_weight@.len() == inner * self.dt_rank
        &&& self.dt_proj_bias@.len() == inner
        &&& self.a_log@.len() == inner * self.d_state
        &&& self.d_param@.len() == inner
        &&& self.out_proj_weight@.len() == d * inner
        &&& self.out_proj_bias@.len() == 0 || d <= self.out_proj_bias@.len()
    }

    /// A state of this block's dimensions.
    pub open spec fn takes(&self, s: MambaView<T>) -> bool {
        &&& s.ssm.len() == self.d_inner * self.d_state
        &&& s.conv.len() == self.d_inner * self.d_conv
    }

    /// A row after norm and input projection: the stream and its gate.
    pub open spec fn projected<M: Math<T>>(&self, x: Seq<T>) -> Seq<T> {
        ops::linear_row(
            ops::rms_row::<T, M>(x, self.norm_weight@, self.norm_eps),
            self.in_proj_weight@,
            self.in_proj_bias@,
            self.d_model as nat,
            (2 * self.d_inner) as nat,
        )
    }

    /// The windows once a stream row came in.
    pub open spec fn windows(&self, conv_state: Seq<T>, stream: Seq<T>) -> Seq<T> {
        conv::shifted_state(conv_state, stream, self.d_conv as nat)
    }

    /// A stream row after the convolution.
    pub open spec fn convolved(&self, conv_state: Seq<T>, stream: Seq<T>) -> Seq<T> {
        conv::conv_row(
            conv_state,
            stream,
            self.conv1d_weight@,
            self.conv1d_bias@,
            self.d_conv as nat,
        )
    }

    /// What a row brings to the recurrence: itself, its step sizes, and the
    /// two vectors read off it.
    pub open spec fn scan_input<M: Math<T>>(&self, x: Seq<T>) -> ScanInput<T> {
        let rank = self.dt_rank as int;
        let n = self.d_state as int;
        let p = ops::linear_row(
            x,
            self.x_proj_weight@,
            Seq::empty(),
            self.d_inner as nat,
            (rank + 2 * n) as nat,
        );
        let dt = ops::linear_row(
            p.subrange(0, rank),
            self.dt_proj_weight@,
            Seq::empty(),
            rank as nat,
            self.d_inner as nat,
        );
        ScanInput {
            x,
            delta: Seq::new(
                self.d_inner as nat,
                |i: int|
                    scalar::softplus_of::<T, M>(scalar::plus(dt[i], self.dt_proj_bias@[i])),
            ),
            b: p.subrange(rank, rank + n),
            c: p.subrange(rank + n, rank + 2 * n),
        }
    }

    /// The row that the recurrence is given for the stream row.
    pub open spec fn scanned<M: Math<T>>(&self, conv_state: Seq<T>, stream: Seq<T>) -> ScanInput<
        T,
    > {
        self.scan_input::<M>(
            ops::all_activated::<T, M>(Activation::Silu, self.convolved(conv_state, stream)),
        )
    }

    /// What the block remembers after a row.
    pub open spec fn after<M: Math<T>>(&self, s: MambaView<T>, x: Seq<T>) -> MambaView<T> {
        let stream = self.projected::<M>(x).take(self.d_inner as int);
        MambaView {
            ssm: selective_scan::hidden_after::<T, M>(
                self.scanned::<M>(s.conv, stream),
                self.a_log@,
                s.ssm,
            ),
            conv: self.windows(s.conv, stream),
        }
    }

    /// A row through the block.
    pub open spec fn output<M: Math<T>>(&self, s: MambaView<T>, x: Seq<T>) -> Seq<T> {
        let p = self.projected::<M>(x);
        let stream = p.take(self.d_inner as int);
        let gate = p.skip(self.d_inner as int);
        let y = selective_scan::scan_output::<T, M>(
            self.scanned::<M>(s.conv, stream),
            self.a_log@,
            self.d_param@,
            s.ssm,
        );
        let gated = ops::product_of(ops::all_activated::<T, M>(Activation::Silu, gate), y);
        ops::sum_of(
            ops::linear_row(
                gated,
                self.out_proj_weight@,
                self.out_proj_bias@,
                self.d_inner as nat,
                self.d_model as nat,
            ),
            x,
        )
    }

    /// What the block remembers after the first `n` rows.
    pub open spec fn state_after<M: Math<T>>(&self, s: MambaView<T>, x: Seq<T>, n: nat) -> MambaView<
        T,
    >
        decreases n,
    {
        if n == 0 {
            s
        } else {
            self.after::<M>(
                self.state_after::<M>(s, x, (n - 1) as nat),
                ops::row(x, n - 1, self.d_model as int),
            )
        }
    }

    /// A sequence through the block.
    pub open spec fn outputs<M: Math<T>>(&self, s: MambaView<T>, x: Seq<T>, rows: nat) -> Seq<T> {
        ops::blocks(
            rows,
            |t: int|
                self.output::<M>(
                    self.state_after::<M>(s, x, t as nat),
                    ops::row(x, t, self.d_model as int),
                ),
        )
    }

    /// Apply conv1d to a single timestep's input vector.
    ///
    /// Shifts the conv state left (dropping oldest), inserts new `x`, then
    /// computes dot-product with learned kernel + bias for each channel.
    ///
    /// `state.conv_state` layout: `[d_inner, d_conv]` (row-major).
    /// For channel `i`, `conv_state[i*d_conv .. (i+1)*d_conv]` is the ring buffer,
    /// with `[d_conv-1]` being the most recent slot after the shift.
    pub fn conv1d_step(&self, x: &[T], state: &mut MambaLayerState<T>) -> (r: Vec<T>)
        requires
            scalar::arithmetic::<T>(),
            self.wf(),
            x@.len() == self.d_inner,
            old(state).conv_state@.len() == self.d_inner * self.d_conv,
        ensures
            r@ == self.convolved(old(state).conv_state@, x@),
            r@.len() == self.d_inner,
            final(state).conv_state@ == self.windows(old(state).conv_state@, x@),
            final(state).conv_state@.len() == old(state).conv_state@.len(),
            final(state).ssm_state == old(state).ssm_state,
            final(state).same_dims(*old(state)),
    {
        conv_step(
            x,
            &mut state.conv_state,
            self.conv1d_weight.as_slice(),
            self.conv1d_bias.as_slice(),
            self.d_conv,
        )
    }

    /// Project `x` through x_proj, then dt_proj linear layer, then run one SSM step.
    ///
    /// x_proj outputs `[dt_rank + 2*d_state]`: the first `dt_rank` values are the
    /// low-rank dt input, followed by B and C vectors. The dt input is then projected
    /// through dt_proj `[d_inner, dt_rank]` to produce the per-channel delta.
    ///
    /// Returns `y` of shape `[d_inner]`.
    pub fn ssm_forward_step<M: Math<T>>(&self, x: &[T], state: &mut MambaLayerState<T>) -> (r: Vec<
        T,
    >)
        requires
            scalar::mathematics::<T, M>(),
            self.wf(),
            x@.len() == self.d_inner,
            old(state).ssm_state@.len() == self.d_inner * self.d_state,
        ensures
            r@ == selective_scan::scan_output::<T, M>(
                self.scan_input::<M>(x@),
                self.a_log@,
                self.d_param@,
                old(state).ssm_state@,
            ),
            r@.len() == self.d_inner,
            final(state).ssm_state@ == selective_scan::hidden_after::<T, M>(
                self.scan_input::<M>(x@),
                self.a_log@,
                old(state).ssm_state@,
            ),
            final(state).ssm_state@.len() == old(state).ssm_state@.len(),
            final(state).conv_state == old(state).conv_state,
            final(state).same_dims(*old(state)),
    {
        let d_inner = self.d_inner;
        let d_state = self.d_state;
        let dt_rank = self.dt_rank;
        let none: Vec<T> = Vec::new();
        let x_proj_out = linear_vec(
            x,
            self.x_proj_weight.as_slice(),
            none.as_slice(),
            d_inner,
            dt_rank + 2 * d_state,
        );
        let dt_input = slice_subrange(x_proj_out.as_slice(), 0, dt_rank);
        let b_slice = slice_subrange(x_proj_out.as_slice(), dt_rank, dt_rank + d_state);
        let c_slice = slice_subrange(
            x_proj_out.as_slice(),
            dt_rank + d_state,
            dt_rank + 2 * d_state,
        );
        let dt_projected = linear_vec(
            dt_input,
            self.dt_proj_weight.as_slice(),
            none.as_slice(),
            dt_rank,
            d_inner,
        );
        let ghost f = |i: int|
            scalar::softplus_of::<T, M>(
                scalar::plus(dt_projected@[i], self.dt_proj_bias@[i]),
            );
        let mut delta: Vec<T> = Vec::with_capacity(d_inner);
        for i in 0..d_inner
            invariant
                scalar::mathematics::<T, M>(),
                dt_projected@.len() == d_inner,
                self.dt_proj_bias@.len() == d_inner,
                f == (|i: int|
                    scalar::softplus_of::<T, M>(
                        scalar::plus(dt_projected@[i], self.dt_proj_bias@[i]),
                    )),
                delta@ == Seq::new(i as nat, f),
        {
            delta.push(M::softplus(dt_projected[i] + self.dt_proj_bias[i]));
            assert(delta@ =~= Seq::new((i + 1) as nat, f));
        }
        proof {
            assert(self.scan_input::<M>(x@) =~= (ScanInput {
                x: x@,
                delta: delta@,
                b: b_slice@,
                c: c_slice@,
            }));
        }
        selective_scan_step::<T, M>(
            x,
            delta.as_slice(),
            self.a_log.as_slice(),
            b_slice,
            c_slice,
            self.d_param.as_slice(),
            &mut state.ssm_state,
        )
    }

    /// Process a single token `[d_model]` → `[d_model]`.
    pub fn forward_one<M: Math<T>>(&self, hidden: &[T], state: &mut MambaLayerState<T>) -> (r: Vec<
        T,
    >)
        requires
            scalar::mathematics::<T, M>(),
            self.wf(),
            self.takes(old(state)@),
            hidden@.len() == self.d_model,
        ensures
            r@ == self.output::<M>(old(state)@, hidden@),
            r@.len() == self.d_model,
            ({
                let inner = self.d_inner as nat;
                let p = ops::linear_row(
                    ops::rms_row::<T, M>(hidden@, self.norm_weight@, self.norm_eps),
                    self.in_proj_weight@,
                    self.in_proj_bias@,
                    self.d_model as nat,
                    2 * inner,
                );
                let y = selective_scan::scan_output::<T, M>(
                    self.scanned::<M>(old(state)@.conv, p.take(inner as int)),
                    self.a_log@,
                    self.d_param@,
                    old(state)@.ssm,
                );
                let gated = Seq::new(
                    inner,
                    |i: int| scalar::times(scalar::silu_of::<T, M>(p[inner + i]), y[i]),
                );
                let out = ops::linear_row(
                    gated,
                    self.out_proj_weight@,
                    self.out_proj_bias@,
                    inner,
                    self.d_model as nat,
                );
                forall|i: int|
                    0 <= i < self.d_model ==> #[trigger] r@[i] == scalar::plus(out[i], hidden@[i])
            }),
            final(state)@ == self.after::<M>(old(state)@, hidden@),
            self.takes(final(state)@),
            final(state).same_dims(*old(state)),
    {
        let d_model = self.d_model;
        let d_inner = self.d_inner;
        let normed = rms_normalize::<T, M>(hidden, self.norm_weight.as_slice(), self.norm_eps);
        let proj = linear_vec(
            normed.as_slice(),
            self.in_proj_weight.as_slice(),
            self.in_proj_bias.as_slice(),
            d_model,
            2 * d_inner,
        );
        // Split into x and z
        let x_proj = slice_subrange(proj.as_slice(), 0, d_inner);
        let z_proj = slice_subrange(proj.as_slice(), d_inner, 2 * d_inner);
        assert(x_proj@ =~= proj@.take(d_inner as int));
        assert(z_proj@ =~= proj@.skip(d_inner as int));
        let x_conv = self.conv1d_step(x_proj, state);
        let x_act = activate_all::<T, M>(Activation::Silu, x_conv.as_slice());
        let y = self.ssm_forward_step::<M>(x_act.as_slice(), state);
        // Gate: silu(z) * y
        let z_act = activate_all::<T, M>(Activation::Silu, z_proj);
        let gated = mul_vecs(z_act.as_slice(), y.as_slice());
        assert(gated@ =~= Seq::new(
            d_inner as nat,
            |i: int| scalar::times(scalar::silu_of::<T, M>(proj@[d_inner + i]), y@[i]),
        ));
        let out = linear_vec(
            gated.as_slice(),
            self.out_proj_weight.as_slice(),
            self.out_proj_bias.as_slice(),
            d_inner,
            d_model,
        );
        // Residual
        add_vecs(out.as_slice(), hidden)
    }

    /// Process a full sequence `[seq_len * d_model]` → `[seq_len * d_model]`.
    pub fn forward_seq<M: Math<T>>(
        &self,
        hidden: &[T],
        seq_len: usize,
        state: &mut MambaLayerState<T>,
    ) -> (r: Vec<T>)
        requires
            scalar::mathematics::<T, M>(),
            self.wf(),
            self.takes(old(state)@),
            hidden@.len() == seq_len * self.d_model,
        ensures
            r@ == self.outputs::<M>(old(state)@, hidden@, seq_len as nat),
            r@.len() == seq_len * self.d_model,
            final(state)@ == self.state_after::<M>(old(state)@, hidden@, seq_len as nat),
            self.takes(final(state)@),
            final(state).same_dims(*old(state)),
    {
        let d = self.d_model;
        let ghost start = state@;
        let ghost first = *state;
        let ghost f = |t: int|
            self.output::<M>(
                self.state_after::<M>(start, hidden@, t as nat),
                ops::row(hidden@, t, d as int),
            );
        let mut out: Vec<T> = Vec::new();
        assert(0 * d == 0) by (nonlinear_arith);
        for t in 0..seq_len
            invariant
                scalar::mathematics::<T, M>(),
                self.wf(),
                self.takes(state@),
                state.same_dims(first),
                d == self.d_model,
                hidden@.len() == seq_len * d,
                f == (|t: int|
                    self.output::<M>(
                        self.state_after::<M>(start, hidden@, t as nat),
                        ops::row(hidden@, t, d as int),
                    )),
                state@ == self.state_after::<M>(start, hidden@, t as nat),
                out@ == ops::blocks(t as nat, f),
                out@.len() == t * d,
        {
            proof {
                ops::lemma_row_bounds(t as int, seq_len as int, d as int);
            }
            let y = self.forward_one::<M>(row_slice(hidden, t, d), state);
            extend(&mut out, y.as_slice());
            assert(out@ =~= ops::blocks((t + 1) as nat, f));
            assert((t + 1) * d == t * d + d) by (nonlinear_arith);
        }
        out
    }

    proof fn lemma_state_prefix<M: Math<T>>(&self, s: MambaView<T>, x: Seq<T>, y: Seq<T>, n: nat)
        requires
            n * self.d_model <= x.len(),
        ensures
            self.state_after::<M>(s, x + y, n) == self.state_after::<M>(s, x, n),
        decreases n,
    {
        if n > 0 {
            let d = self.d_model as int;
            ops::lemma_row_bounds(n - 1, n as int, d);
            self.lemma_state_prefix::<M>(s, x, y, (n - 1) as nat);
            assert(ops::row(x + y, n - 1, d) =~= ops::row(x, n - 1, d));
        }
    }

    /// One more row of a sequence is a single step from the state before it:
    /// running a sequence at once and running its rows one by one give the
    /// same outputs and the same state.
    pub proof fn lemma_append_row<M: Math<T>>(&self, s: MambaView<T>, x: Seq<T>, y: Seq<T>, n: nat)
        requires
            x.len() == n * self.d_model,
            y.len() == self.d_model,
        ensures
            self.state_after::<M>(s, x + y, n + 1) == self.after::<M>(
                self.state_after::<M>(s, x, n),
                y,
            ),
            self.outputs::<M>(s, x + y, n + 1) == self.outputs::<M>(s, x, n) + self.output::<M>(
                self.state_after::<M>(s, x, n),
                y,
            ),
    {
        let d = self.d_model as int;
        self.lemma_state_prefix::<M>(s, x, y, n);
        assert((n + 1) * d == n * d + d) by (nonlinear_arith);
        assert(ops::row(x + y, n as int, d) =~= y);
        let f = |t: int|
            self.output::<M>(self.state_after::<M>(s, x, t as nat), ops::row(x, t, d));
        let g = |t: int|
            self.output::<M>(self.state_after::<M>(s, x + y, t as nat), ops::row(x + y, t, d));
        assert forall|t: int| 0 <= t < n implies #[trigger] f(t) == g(t) by {
            ops::lemma_row_bounds(t, n as int, d);
            self.lemma_state_prefix::<M>(s, x, y, t as nat);
            assert(ops::row(x + y, t, d) =~= ops::row(x, t, d));
        }
        ops::lemma_blocks_same(n, f, g);
    }
}

} // verus!
