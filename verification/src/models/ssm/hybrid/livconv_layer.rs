//! The LIV Conv (gated depthwise convolution) decoder layer.

use vstd::arithmetic::div_mod::lemma_fundamental_div_mod;
use vstd::prelude::*;

use crate::buffer;
use crate::buffer::{extend, fill, filled};
use crate::models::ssm::conv;
use crate::models::ssm::conv::conv_step;
use crate::models::ssm::ffn;
use crate::models::ssm::ffn::{swiglu_ffn_forward, swiglu_ffn_forward_q4, FfnPacked, FfnWeights};
use crate::models::ssm::hybrid::deltanet_layer;
use crate::models::ssm::hybrid::deltanet_layer::sigmoid_gate;
use crate::ops;
use crate::ops::{add_vecs, linear_vec, rms_normalize, row_slice};
use crate::packed;
use crate::packed::{gemv_or_matmul, PackedLinear};
use crate::scalar;
use crate::scalar::{Math, Scalar};

verus! {

/// State for a single LIV Conv layer's depthwise convolution.
pub struct ConvLayerState<T> {
    /// Rolling conv state: `[inner_size * kernel_size]`.
    /// Each channel stores the last `kernel_size` values.
    pub conv_state: Vec<T>,
    pub inner_size: usize,
    pub kernel_size: usize,
}

impl<T> View for ConvLayerState<T> {
    type V = Seq<T>;

    open spec fn view(&self) -> Seq<T> {
        self.conv_state@
    }
}

impl<T> ConvLayerState<T> {
    /// Every channel has a window of `kernel_size` values.
    pub open spec fn wf(&self) -> bool {
        self.conv_state@.len() == self.inner_size * self.kernel_size
    }
}

impl<T: Scalar> ConvLayerState<T> {
    pub fn new(inner_size: usize, kernel_size: usize) -> (r: Self)
        requires
            scalar::arithmetic::<T>(),
            inner_size * kernel_size <= usize::MAX,
        ensures
            r@ == buffer::repeated(scalar::zero::<T>(), (inner_size * kernel_size) as nat),
            r.inner_size == inner_size,
            r.kernel_size == kernel_size,
            r.wf(),
    {
        ConvLayerState {
            conv_state: filled(T::default(), inner_size * kernel_size),
            inner_size,
            kernel_size,
        }
    }

    /// Forgets everything.
    pub fn reset(&mut self)
        requires
            scalar::arithmetic::<T>(),
        ensures
            final(self)@ == buffer::repeated(scalar::zero::<T>(), old(self)@.len()),
            final(self).inner_size == old(self).inner_size,
            final(self).kernel_size == old(self).kernel_size,
    {
        fill(&mut self.conv_state, T::default());
    }

    /// The bytes that the buffer's elements take.
    pub fn memory_bytes(&self) -> (r: usize)
        requires
            self@.len() * vstd::layout::size_of::<T>() <= usize::MAX,
        ensures
            r == self@.len() * vstd::layout::size_of::<T>(),
    {
        self.conv_state.len() * core::mem::size_of::<T>()
    }
}

/// A single LIV Conv (gated depthwise convolution) decoder layer.
///
/// Used by LFM2.5. Simpler than DeltaNet — no recurrent state matrix, just
/// a small conv buffer for autoregressive decode.
///
/// Forward path (double-gated short convolution):
/// 1. RMSNorm
/// 2. Input projection: `[hidden_size] → [3 * inner_size]`
///    Split into: `x_conv` (input to conv), `x_gate1` (pre-conv gate),
///    `x_gate2` (post-conv gate)
/// 3. Pre-conv gate: `silu(x_gate1) * x_conv`
/// 4. Depthwise conv1d (causal, kernel_size typically 3)
/// 5. Post-conv gate: `silu(conv_out) * x_gate2`
/// 6. Output projection: `[inner_size] → [hidden_size]`
/// 7. Residual
/// 8. RMSNorm → SwiGLU FFN → Residual
pub struct LivConvDecoderLayer<T, Q> {
    pub hidden_size: usize,
    pub inner_size: usize,
    pub conv_kernel_size: usize,
    pub intermediate_size: usize,
    pub norm_eps: T,
    // Pre-conv norm
    pub attn_norm_weight: Vec<T>,  // [hidden_size]
    // Input projection: [3 * inner_size, hidden_size]
    // Produces 3 streams: conv_input, gate1 (pre-conv), gate2 (post-conv)
    pub input_proj_weight: Vec<T>,
    // Depthwise conv1d
    pub conv_weight: Vec<T>,  // [inner_size, conv_kernel_size]
    pub conv_bias: Vec<T>,  // [inner_size] (may be empty if no bias)
    // Output projection: [hidden_size, inner_size]
    pub output_proj_weight: Vec<T>,
    // SwiGLU FFN
    pub ffn_norm_weight: Vec<T>,  // [hidden_size]
    pub ffn_gate_weight: Vec<T>,  // [intermediate_size, hidden_size]
    pub ffn_up_weight: Vec<T>,  // [intermediate_size, hidden_size]
    pub ffn_down_weight: Vec<T>,  // [hidden_size, intermediate_size]
    // Packed weights for fast decode
    pub q4_in_proj: Option<Q>,
    pub q4_out_proj: Option<Q>,
    pub q4_ffn_gate: Option<Q>,
    pub q4_ffn_up: Option<Q>,
    pub q4_ffn_down: Option<Q>,
}

impl<T: Scalar, Q: PackedLinear<T>> LivConvDecoderLayer<T, Q> {
    pub open spec fn ffn(&self) -> FfnWeights<T> {
        ffn::weights_of(
            self.ffn_norm_weight@,
            self.ffn_gate_weight@,
            self.ffn_up_weight@,
            self.ffn_down_weight@,
        )
    }

    pub open spec fn ffn_packed(&self) -> FfnPacked<Q> {
        ffn::packed_as(self.q4_ffn_gate, self.q4_ffn_up, self.q4_ffn_down)
    }

    pub open spec fn spec_proj_dim(&self) -> nat {
        self.input_proj_weight@.len() / self.hidden_size as nat
    }

    pub open spec fn double_gated(&self) -> bool {
        self.spec_proj_dim() == 3 * self.inner_size
    }

    /// No weight has a packed form.
    pub open spec fn is_dense(&self) -> bool {
        self.q4_in_proj is None && self.q4_out_proj is None && self.ffn_packed().is_empty()
    }

    /// The weights have their sizes.
    pub open spec fn wf(&self) -> bool {
        let h = self.hidden_size as nat;
        let inner = self.inner_size as nat;
        &&& h > 0
        &&& self.input_proj_weight@.len() % h == 0
        &&& 2 * inner <= self.spec_proj_dim()
        &&& 3 * inner <= usize::MAX
        &&& self.conv_kernel_size > 0
        &&& h <= self.attn_norm_weight@.len()
        &&& self.conv_weight@.len() == inner * self.conv_kernel_size
        &&& self.conv_bias@.len() == 0 || inner <= self.conv_bias@.len()
        &&& self.output_proj_weight@.len() == h * inner
        &&& self.ffn().fits(h, self.intermediate_size as nat)
        &&& packed::fits::<T, Q>(self.q4_in_proj, h, self.spec_proj_dim())
        &&& packed::fits::<T, Q>(self.q4_out_proj, inner, h)
        &&& self.ffn_packed().fits::<T>(h, self.intermediate_size as nat)
    }

    /// A state of this layer's dimensions.
    pub open spec fn takes(&self, s: Seq<T>) -> bool {
        s.len() == self.inner_size * self.conv_kernel_size
    }

    /// What a projected row hands to the convolution.
    pub open spec fn gated_input<M: Math<T>>(&self, p: Seq<T>) -> Seq<T> {
        let inner = self.inner_size as int;
        Seq::new(
            inner as nat,
            |i: int|
                if self.double_gated() {
                    scalar::times(scalar::silu_of::<T, M>(p[inner + i]), p[i])
                } else {
                    scalar::times(p[i], deltanet_layer::logistic::<T, M>(p[inner + i]))
                },
        )
    }

    /// The convolution's row after its gate.
    pub open spec fn gated_output<M: Math<T>>(&self, c: Seq<T>, p: Seq<T>) -> Seq<T> {
        let inner = self.inner_size as int;
        Seq::new(
            inner as nat,
            |i: int|
                if self.double_gated() {
                    scalar::times(scalar::silu_of::<T, M>(c[i]), p[2 * inner + i])
                } else {
                    scalar::silu_of::<T, M>(c[i])
                },
        )
    }

    /// The state after a projected row.
    pub open spec fn after<M: Math<T>>(&self, s: Seq<T>, p: Seq<T>) -> Seq<T> {
        conv::shifted_state(s, self.gated_input::<M>(p), self.conv_kernel_size as nat)
    }

    /// Gates and convolution of a projected row.
    pub open spec fn convolved<M: Math<T>>(&self, s: Seq<T>, p: Seq<T>) -> Seq<T> {
        self.gated_output::<M>(
            conv::conv_row(
                s,
                self.gated_input::<M>(p),
                self.conv_weight@,
                self.conv_bias@,
                self.conv_kernel_size as nat,
            ),
            p,
        )
    }

    /// What the layer reads of a row.
    pub open spec fn input<M: Math<T>>(&self, x: Seq<T>) -> Seq<T> {
        ops::rms_row::<T, M>(x, self.attn_norm_weight@, self.norm_eps)
    }

    /// A row's input projection.
    pub open spec fn projected<M: Math<T>>(&self, x: Seq<T>) -> Seq<T> {
        ops::linear_row(
            self.input::<M>(x),
            self.input_proj_weight@,
            Seq::empty(),
            self.hidden_size as nat,
            self.spec_proj_dim(),
        )
    }

    /// A row's input projection when it is the only one.
    pub open spec fn projected_one<M: Math<T>>(&self, x: Seq<T>) -> Seq<T> {
        packed::gemv_of(
            self.input::<M>(x),
            self.input_proj_weight@,
            self.q4_in_proj,
            1,
            self.hidden_size as nat,
            self.spec_proj_dim(),
        )
    }

    /// A row through the layer.
    pub open spec fn output<M: Math<T>>(&self, s: Seq<T>, x: Seq<T>) -> Seq<T> {
        let h = self.hidden_size as nat;
        let mid = ops::sum_of(
            x,
            ops::linear_row(
                self.convolved::<M>(s, self.projected::<M>(x)),
                self.output_proj_weight@,
                Seq::empty(),
                self.inner_size as nat,
                h,
            ),
        );
        ops::sum_of(
            mid,
            ffn::swiglu_row::<T, M>(
                self.ffn(),
                mid,
                self.norm_eps,
                h,
                self.intermediate_size as nat,
            ),
        )
    }

    /// A single row through the layer, by the packed weights where there are any.
    pub open spec fn output_one<M: Math<T>>(&self, s: Seq<T>, x: Seq<T>) -> Seq<T> {
        let h = self.hidden_size as nat;
        let mid = ops::sum_of(
            x,
            packed::gemv_of(
                self.convolved::<M>(s, self.projected_one::<M>(x)),
                self.output_proj_weight@,
                self.q4_out_proj,
                1,
                self.inner_size as nat,
                h,
            ),
        );
        ops::sum_of(
            mid,
            ffn::swiglu_packed::<T, M, Q>(
                self.ffn(),
                self.ffn_packed(),
                mid,
                1,
                self.norm_eps,
                h,
                self.intermediate_size as nat,
            ),
        )
    }

    /// The state after the first `t` rows of a sequence.
    pub open spec fn state_after<M: Math<T>>(&self, s: Seq<T>, x: Seq<T>, t: nat) -> Seq<T>
        decreases t,
    {
        if t == 0 {
            s
        } else {
            self.after::<M>(
                self.state_after::<M>(s, x, (t - 1) as nat),
                self.projected::<M>(ops::row(x, t - 1, self.hidden_size as int)),
            )
        }
    }

    /// A sequence through the layer, row after row.
    pub open spec fn outputs<M: Math<T>>(&self, s: Seq<T>, x: Seq<T>, rows: nat) -> Seq<T> {
        ops::blocks(
            rows,
            |t: int|
                self.output::<M>(
                    self.state_after::<M>(s, x, t as nat),
                    ops::row(x, t, self.hidden_size as int),
                ),
        )
    }

    /// The layer with every weight matrix packed.
    pub open spec fn packed_form(self) -> Self {
        let h = self.hidden_size;
        let inner = self.inner_size;
        let im = self.intermediate_size;
        let proj_dim = self.spec_proj_dim() as usize;
        LivConvDecoderLayer {
            q4_in_proj: Some(packed::packed_of::<T, Q>(self.input_proj_weight@, proj_dim, h)),
            q4_out_proj: Some(packed::packed_of::<T, Q>(self.output_proj_weight@, h, inner)),
            q4_ffn_gate: Some(packed::packed_of::<T, Q>(self.ffn_gate_weight@, im, h)),
            q4_ffn_up: Some(packed::packed_of::<T, Q>(self.ffn_up_weight@, im, h)),
            q4_ffn_down: Some(packed::packed_of::<T, Q>(self.ffn_down_weight@, h, im)),
            ..self
        }
    }

    /// Packs the dense weights for fast GEMV decode.
    pub fn quantize_for_decode(&mut self)
        requires
            packed::packing::<T, Q>(),
            old(self).wf(),
        ensures
            final(self).wf(),
            *final(self) == old(self).packed_form(),
    {
        let h = self.hidden_size;
        let inner = self.inner_size;
        let im = self.intermediate_size;
        let proj_dim = self.proj_dim();
        proof {
            self.lemma_proj_dim();
        }
        self.q4_in_proj = Some(Q::pack(self.input_proj_weight.as_slice(), proj_dim, h));
        self.q4_out_proj = Some(Q::pack(self.output_proj_weight.as_slice(), h, inner));
        self.q4_ffn_gate = Some(Q::pack(self.ffn_gate_weight.as_slice(), im, h));
        self.q4_ffn_up = Some(Q::pack(self.ffn_up_weight.as_slice(), im, h));
        self.q4_ffn_down = Some(Q::pack(self.ffn_down_weight.as_slice(), h, im));
    }

    proof fn lemma_proj_dim(&self)
        requires
            self.hidden_size > 0,
            self.input_proj_weight@.len() % self.hidden_size as nat == 0,
        ensures
            self.input_proj_weight@.len() == self.spec_proj_dim() * self.hidden_size,
    {
        let len = self.input_proj_weight@.len() as int;
        let h = self.hidden_size as int;
        lemma_fundamental_div_mod(len, h);
        assert(h * (len / h) == (len / h) * h) by (nonlinear_arith);
    }

    /// Projection dimension: 3 * inner_size for double-gated, 2 * inner_size for single-gated.
    pub fn proj_dim(&self) -> (r: usize)
        requires
            self.hidden_size > 0,
        ensures
            r == self.spec_proj_dim(),
    {
        self.input_proj_weight.len() / self.hidden_size
    }

    /// Whether this layer uses the double-gated (3-way) projection.
    pub fn is_double_gated(&self) -> (r: bool)
        requires
            self.hidden_size > 0,
            3 * self.inner_size <= usize::MAX,
        ensures
            r == self.double_gated(),
    {
        self.proj_dim() == 3 * self.inner_size
    }

    /// Gates and convolution of one projected row.
    fn gate_and_convolve<M: Math<T>>(&self, p: &[T], conv_state: &mut Vec<T>) -> (r: Vec<T>)
        requires
            scalar::mathematics::<T, M>(),
            self.wf(),
            self.takes(old(conv_state)@),
            p@.len() == self.spec_proj_dim(),
        ensures
            r@ == self.convolved::<M>(old(conv_state)@, p@),
            r@.len() == self.inner_size,
            final(conv_state)@ == self.after::<M>(old(conv_state)@, p@),
            self.takes(final(conv_state)@),
    {
        let inner = self.inner_size;
        let double = self.is_double_gated();
        let mut gated: Vec<T> = Vec::with_capacity(inner);
        for i in 0..inner
            invariant
                scalar::mathematics::<T, M>(),
                self.wf(),
                inner == self.inner_size,
                double == self.double_gated(),
                p@.len() == self.spec_proj_dim(),
                gated@ == self.gated_input::<M>(p@).take(i as int),
        {
            let y = if double {
                M::silu(p[inner + i]) * p[i]
            } else {
                p[i] * sigmoid_gate::<T, M>(p[inner + i])
            };
            gated.push(y);
            assert(gated@ =~= self.gated_input::<M>(p@).take(i + 1));
        }
        assert(gated@ =~= self.gated_input::<M>(p@));
        let c = conv_step(
            gated.as_slice(),
            conv_state,
            self.conv_weight.as_slice(),
            self.conv_bias.as_slice(),
            self.conv_kernel_size,
        );
        let mut out: Vec<T> = Vec::with_capacity(inner);
        for i in 0..inner
            invariant
                scalar::mathematics::<T, M>(),
                self.wf(),
                inner == self.inner_size,
                double == self.double_gated(),
                p@.len() == self.spec_proj_dim(),
                c@.len() == inner,
                out@ == self.gated_output::<M>(c@, p@).take(i as int),
        {
            let y = if double {
                M::silu(c[i]) * p[2 * inner + i]
            } else {
                M::silu(c[i])
            };
            out.push(y);
            assert(out@ =~= self.gated_output::<M>(c@, p@).take(i + 1));
        }
        assert(out@ =~= self.gated_output::<M>(c@, p@));
        out
    }

    /// Single-token forward pass (uses packed GEMV when quantized).
    pub fn forward_one<M: Math<T>>(&self, hidden: &[T], state: &mut ConvLayerState<T>) -> (r: Vec<
        T,
    >)
        requires
            scalar::mathematics::<T, M>(),
            packed::packing::<T, Q>(),
            self.wf(),
            self.takes(old(state)@),
            hidden@.len() == self.hidden_size,
        ensures
            r@ == self.output_one::<M>(old(state)@, hidden@),
            r@.len() == self.hidden_size,
            final(state)@ == self.after::<M>(old(state)@, self.projected_one::<M>(hidden@)),
            self.takes(final(state)@),
            final(state).inner_size == old(state).inner_size,
            final(state).kernel_size == old(state).kernel_size,
    {
        let h = self.hidden_size;
        let inner = self.inner_size;
        let proj_dim = self.proj_dim();
        proof {
            self.lemma_proj_dim();
            assert(1 * h == h);
            assert(1 * inner == inner);
            assert(1 * proj_dim == proj_dim);
        }
        // 1. Pre-norm
        let normed = rms_normalize::<T, M>(
            hidden,
            self.attn_norm_weight.as_slice(),
            self.norm_eps,
        );
        // 2. Input projection
        let proj = gemv_or_matmul(
            normed.as_slice(),
            self.input_proj_weight.as_slice(),
            &self.q4_in_proj,
            1,
            h,
            proj_dim,
        );
        // 3. Gate + conv
        let conv_out = self.gate_and_convolve::<M>(proj.as_slice(), &mut state.conv_state);
        // 4. Output projection
        let block = gemv_or_matmul(
            conv_out.as_slice(),
            self.output_proj_weight.as_slice(),
            &self.q4_out_proj,
            1,
            inner,
            h,
        );
        // 5. Residual
        let mid = add_vecs(hidden, block.as_slice());
        // 6. FFN sub-block + residual
        let y = swiglu_ffn_forward_q4::<T, M, Q>(
            mid.as_slice(),
            1,
            self.ffn_norm_weight.as_slice(),
            self.ffn_gate_weight.as_slice(),
            self.ffn_up_weight.as_slice(),
            self.ffn_down_weight.as_slice(),
            &self.q4_ffn_gate,
            &self.q4_ffn_up,
            &self.q4_ffn_down,
            self.norm_eps,
            h,
            self.intermediate_size,
        );
        add_vecs(mid.as_slice(), y.as_slice())
    }

    /// Sequence forward pass (prefill).
    pub fn forward_seq<M: Math<T>>(
        &self,
        hidden: &[T],
        seq_len: usize,
        state: &mut ConvLayerState<T>,
    ) -> (r: Vec<T>)
        requires
            scalar::mathematics::<T, M>(),
            self.wf(),
            self.takes(old(state)@),
            hidden@.len() == seq_len * self.hidden_size,
        ensures
            r@ == self.outputs::<M>(old(state)@, hidden@, seq_len as nat),
            r@.len() == seq_len * self.hidden_size,
            final(state)@ == self.state_after::<M>(old(state)@, hidden@, seq_len as nat),
            self.takes(final(state)@),
            final(state).inner_size == old(state).inner_size,
            final(state).kernel_size == old(state).kernel_size,
    {
        let h = self.hidden_size;
        let inner = self.inner_size;
        let im = self.intermediate_size;
        let proj_dim = self.proj_dim();
        let none: Vec<T> = Vec::new();
        let ghost s = state@;
        let ghost start = *state;
        let ghost rows = seq_len as nat;
        proof {
            self.lemma_proj_dim();
        }
        // 1. Norm, projection, gates and convolution (sequential due to conv state)
        let ghost a = |t: int|
            ops::linear_row(
                self.convolved::<M>(
                    self.state_after::<M>(s, hidden@, t as nat),
                    self.projected::<M>(ops::row(hidden@, t, h as int)),
                ),
                self.output_proj_weight@,
                Seq::empty(),
                inner as nat,
                h as nat,
            );
        let mut block: Vec<T> = Vec::new();
        for t in 0..seq_len
            invariant
                scalar::mathematics::<T, M>(),
                self.wf(),
                h == self.hidden_size,
                inner == self.inner_size,
                proj_dim == self.spec_proj_dim(),
                self.input_proj_weight@.len() == proj_dim * h,
                none@ == Seq::<T>::empty(),
                hidden@.len() == seq_len * h,
                self.takes(state@),
                state@ == self.state_after::<M>(s, hidden@, t as nat),
                state.inner_size == start.inner_size,
                state.kernel_size == start.kernel_size,
                a == (|t: int|
                    ops::linear_row(
                        self.convolved::<M>(
                            self.state_after::<M>(s, hidden@, t as nat),
                            self.projected::<M>(ops::row(hidden@, t, h as int)),
                        ),
                        self.output_proj_weight@,
                        Seq::empty(),
                        inner as nat,
                        h as nat,
                    )),
                block@ == ops::blocks(t as nat, a),
        {
            proof {
                ops::lemma_row_bounds(t as int, seq_len as int, h as int);
            }
            let normed = rms_normalize::<T, M>(
                row_slice(hidden, t, h),
                self.attn_norm_weight.as_slice(),
                self.norm_eps,
            );
            let proj = linear_vec(
                normed.as_slice(),
                self.input_proj_weight.as_slice(),
                none.as_slice(),
                h,
                proj_dim,
            );
            let conv_out = self.gate_and_convolve::<M>(proj.as_slice(), &mut state.conv_state);
            let y = linear_vec(
                conv_out.as_slice(),
                self.output_proj_weight.as_slice(),
                none.as_slice(),
                inner,
                h,
            );
            extend(&mut block, y.as_slice());
            assert(block@ =~= ops::blocks((t + 1) as nat, a));
        }
        proof {
            assert forall|t: int| 0 <= t < rows implies #[trigger] a(t).len() == h by {}
            ops::lemma_blocks_len(rows, a, h as nat);
        }
        // 2. Residual
        let mid = add_vecs(hidden, block.as_slice());
        // 3. FFN sub-block + residual
        let y = swiglu_ffn_forward::<T, M>(
            mid.as_slice(),
            seq_len,
            self.ffn_norm_weight.as_slice(),
            self.ffn_gate_weight.as_slice(),
            self.ffn_up_weight.as_slice(),
            self.ffn_down_weight.as_slice(),
            self.norm_eps,
            h,
            im,
        );
        let out = add_vecs(mid.as_slice(), y.as_slice());
        proof {
            let fy = |t: int|
                ffn::swiglu_row::<T, M>(
                    self.ffn(),
                    ops::row(mid@, t, h as int),
                    self.norm_eps,
                    h as nat,
                    im as nat,
                );
            let o = |t: int|
                self.output::<M>(
                    self.state_after::<M>(s, hidden@, t as nat),
                    ops::row(hidden@, t, h as int),
                );
            assert forall|t: int| 0 <= t < rows implies #[trigger] fy(t).len() == h by {}
            assert forall|t: int| 0 <= t < rows implies #[trigger] o(t) == ops::row(
                out@,
                t,
                h as int,
            ) by {
                ops::lemma_blocks_row(rows, a, h as nat, t);
                ops::lemma_blocks_row(rows, fy, h as nat, t);
                ops::lemma_sum_row(hidden@, block@, rows, h as nat, t);
                ops::lemma_sum_row(mid@, y@, rows, h as nat, t);
            }
            let r = |t: int| ops::row(out@, t, h as int);
            ops::lemma_rows(out@, rows, h as nat);
            ops::lemma_blocks_same(rows, o, r);
        }
        out
    }

    // ── Laws ─────────────────────────────────────────────────────────

    /// Without packed weights a single row gives the same alone and in a
    /// sequence.
    pub proof fn lemma_dense_one<M: Math<T>>(&self, s: Seq<T>, x: Seq<T>)
        requires
            self.is_dense(),
            x.len() == self.hidden_size,
        ensures
            self.projected_one::<M>(x) == self.projected::<M>(x),
            self.output_one::<M>(s, x) == self.output::<M>(s, x),
    {
        let h = self.hidden_size as nat;
        packed::lemma_dense_row::<T, Q>(
            self.input::<M>(x),
            self.input_proj_weight@,
            h,
            self.spec_proj_dim(),
        );
        let c = self.convolved::<M>(s, self.projected::<M>(x));
        packed::lemma_dense_row::<T, Q>(c, self.output_proj_weight@, self.inner_size as nat, h);
        let mid = ops::sum_of(
            x,
            ops::linear_row(
                c,
                self.output_proj_weight@,
                Seq::empty(),
                self.inner_size as nat,
                h,
            ),
        );
        ffn::lemma_dense_row::<T, M, Q>(
            self.ffn(),
            self.ffn_packed(),
            mid,
            self.norm_eps,
            h,
            self.intermediate_size as nat,
        );
    }

    /// A step keeps the dimensions of the state.
    pub proof fn lemma_after_fits<M: Math<T>>(&self, s: Seq<T>, p: Seq<T>)
        requires
            self.takes(s),
            self.conv_kernel_size > 0,
        ensures
            self.takes(self.after::<M>(s, p)),
    {
        conv::lemma_shifted_state_len(
            s,
            self.gated_input::<M>(p),
            self.conv_kernel_size as nat,
        );
    }

    /// One more row is one more step from the state before it.
    pub proof fn lemma_append_row<M: Math<T>>(&self, s: Seq<T>, x: Seq<T>, y: Seq<T>, n: nat)
        requires
            x.len() == n * self.hidden_size,
            y.len() == self.hidden_size,
        ensures
            self.state_after::<M>(s, x + y, n + 1) == self.after::<M>(
                self.state_after::<M>(s, x, n),
                self.projected::<M>(y),
            ),
            self.outputs::<M>(s, x + y, n + 1) == self.outputs::<M>(s, x, n) + self.output::<M>(
                self.state_after::<M>(s, x, n),
                y,
            ),
    {
        let h = self.hidden_size as int;
        ops::lemma_row_bounds(n as int, n as int + 1, h);
        assert((x + y).take(n * h) =~= x);
        assert(ops::row(x + y, n as int, h) =~= y);
        self.lemma_prefix_decides::<M>(s, x + y, x, n);
    }

    proof fn lemma_prefix_decides<M: Math<T>>(&self, s: Seq<T>, x: Seq<T>, y: Seq<T>, n: nat)
        requires
            n * self.hidden_size <= x.len(),
            n * self.hidden_size == y.len(),
            x.take((n * self.hidden_size) as int) == y,
        ensures
            self.state_after::<M>(s, x, n) == self.state_after::<M>(s, y, n),
            self.outputs::<M>(s, x, n) == self.outputs::<M>(s, y, n),
        decreases n,
    {
        if n > 0 {
            let h = self.hidden_size as int;
            ops::lemma_row_bounds(n - 1, n as int, h);
            let w = x.take((n - 1) * h);
            assert(w =~= y.take((n - 1) * h));
            self.lemma_prefix_decides::<M>(s, x, w, (n - 1) as nat);
            self.lemma_prefix_decides::<M>(s, y, w, (n - 1) as nat);
            assert(ops::row(x, n - 1, h) =~= ops::row(y, n - 1, h));
        }
    }
}

} // verus!
