//! The state-space blocks and the layers of the hybrid model.

use vstd::prelude::*;

use crate::laws::equations;
use crate::laws::kernels;
use crate::models::ssm::deltanet;
use crate::models::ssm::ffn;
use crate::models::ssm::ffn::{FfnPacked, FfnWeights};
use crate::models::ssm::mamba::block::MambaBlock;
use crate::models::ssm::mamba::selective_scan;
use crate::models::ssm::mamba::selective_scan::ScanInput;
use crate::models::ssm::mamba::state::MambaView;
use crate::ops;
use crate::packed::PackedLinear;
use crate::scalar;
use crate::scalar::{Math, Scalar};

verus! {

/// The rows that a Mamba block goes through for one token.
pub struct MambaSteps<T> {
    pub normed: Seq<T>,
    pub projected: Seq<T>,
    pub window: Seq<T>,
    pub convolved: Seq<T>,
    pub active: Seq<T>,
    pub parameters: Seq<T>,
    pub rates: Seq<T>,
    pub delta: Seq<T>,
    pub hidden: Seq<T>,
    pub read: Seq<T>,
    pub gate: Seq<T>,
    pub gated: Seq<T>,
    pub out: Seq<T>,
}

/// The rows are what a Mamba block computes from the state `s` and the row `x`.
pub open spec fn are_mamba_steps<T: Scalar, M: Math<T>>(
    r: MambaSteps<T>,
    block: MambaBlock<T>,
    s: MambaView<T>,
    x: Seq<T>,
) -> bool {
    let (d, inner, n) = (block.d_model as nat, block.d_inner as nat, block.d_state as nat);
    let rank = block.dt_rank as nat;
    let none = Seq::<T>::empty();
    let stream = r.projected.subrange(0, inner as int);
    let b = r.parameters.subrange(rank as int, (rank + n) as int);
    let c = r.parameters.subrange((rank + n) as int, (rank + n + n) as int);
    &&& equations::is_rms::<T, M>(r.normed, x, block.norm_weight@, block.norm_eps)
    &&& equations::is_linear(
        r.projected,
        r.normed,
        block.in_proj_weight@,
        block.in_proj_bias@,
        d,
        2 * inner,
    )
    &&& equations::is_window(r.window, s.conv, stream, block.d_conv as nat)
    &&& equations::is_convolved(
        r.convolved,
        r.window,
        block.conv1d_weight@,
        block.conv1d_bias@,
        inner,
        block.d_conv as nat,
    )
    &&& equations::is_silu::<T, M>(r.active, r.convolved)
    &&& equations::is_linear(
        r.parameters,
        r.active,
        block.x_proj_weight@,
        none,
        inner,
        rank + n + n,
    )
    &&& equations::is_linear(
        r.rates,
        r.parameters.subrange(0, rank as int),
        block.dt_proj_weight@,
        none,
        rank,
        inner,
    )
    &&& r.delta.len() == inner
    &&& forall|i: int|
        0 <= i < inner ==> #[trigger] r.delta[i] == scalar::softplus_of::<T, M>(
            scalar::plus(r.rates[i], block.dt_proj_bias@[i]),
        )
    &&& equations::is_scanned::<T, M>(r.hidden, s.ssm, r.active, r.delta, b, block.a_log@)
    &&& equations::is_scan_read(r.read, r.hidden, r.active, c, block.d_param@)
    &&& equations::is_silu::<T, M>(
        r.gate,
        r.projected.subrange(inner as int, (inner + inner) as int),
    )
    &&& equations::is_product(r.gated, r.gate, r.read)
    &&& equations::is_linear(
        r.out,
        r.gated,
        block.out_proj_weight@,
        block.out_proj_bias@,
        inner,
        d,
    )
}

/// A Mamba block adds its input to the projection of what the scan reads, gated
/// by the other half of the input projection. Its state becomes the scan's
/// hidden state and the window that ends with the new element.
pub proof fn lemma_mamba_block<T: Scalar, M: Math<T>>(
    r: MambaSteps<T>,
    block: MambaBlock<T>,
    s: MambaView<T>,
    x: Seq<T>,
    i: int,
)
    requires
        block.wf(),
        block.takes(s),
        x.len() == block.d_model,
        are_mamba_steps::<T, M>(r, block, s, x),
        0 <= i < block.d_model,
    ensures
        block.output::<M>(s, x).len() == block.d_model,
        block.output::<M>(s, x)[i] == scalar::plus(r.out[i], x[i]),
        block.after::<M>(s, x) == (MambaView { ssm: r.hidden, conv: r.window }),
{
    let (d, inner, n) = (block.d_model as nat, block.d_inner as nat, block.d_state as nat);
    let rank = block.dt_rank as nat;
    let none = Seq::<T>::empty();
    let p = r.projected;
    let stream = p.subrange(0, inner as int);
    kernels::lemma_rms::<T, M>(r.normed, x, block.norm_weight@, block.norm_eps);
    kernels::lemma_linear(p, r.normed, block.in_proj_weight@, block.in_proj_bias@, d, 2 * inner);
    assert(p == block.projected::<M>(x));
    assert(stream == p.take(inner as int));
    kernels::lemma_convolution(
        r.window,
        r.convolved,
        s.conv,
        stream,
        block.conv1d_weight@,
        block.conv1d_bias@,
        block.d_conv as nat,
    );
    kernels::lemma_activations::<T, M>(r.active, r.convolved);
    kernels::lemma_linear(r.parameters, r.active, block.x_proj_weight@, none, inner, rank + n + n);
    kernels::lemma_linear(
        r.rates,
        r.parameters.subrange(0, rank as int),
        block.dt_proj_weight@,
        none,
        rank,
        inner,
    );
    let b = r.parameters.subrange(rank as int, (rank + n) as int);
    let c = r.parameters.subrange((rank + n) as int, (rank + n + n) as int);
    let input = block.scanned::<M>(s.conv, stream);
    assert(input.x == r.active);
    assert(input.delta =~= r.delta);
    assert(input.b =~= b);
    assert(input.c =~= c);
    kernels::lemma_scan::<T, M>(
        r.hidden,
        r.read,
        s.ssm,
        r.active,
        r.delta,
        b,
        c,
        block.a_log@,
        block.d_param@,
    );
    let gate = p.subrange(inner as int, (inner + inner) as int);
    assert(gate =~= p.skip(inner as int));
    kernels::lemma_activations::<T, M>(r.gate, gate);
    kernels::lemma_elementwise(r.gated, r.gate, r.read);
    kernels::lemma_linear(r.out, r.gated, block.out_proj_weight@, block.out_proj_bias@, inner, d);
}

/// A Mamba block whose output projection gives zeros hands its input on, where
/// zero plus an element is that element.
pub proof fn lemma_mamba_keeps_residual<T: Scalar, M: Math<T>>(
    block: MambaBlock<T>,
    s: MambaView<T>,
    x: Seq<T>,
)
    requires
        block.wf(),
        x.len() == block.d_model,
        forall|a: T| #[trigger] scalar::plus(a, scalar::zero()) == a,
        forall|a: T| #[trigger] scalar::plus(scalar::zero(), a) == a,
        forall|a: T| #[trigger] scalar::times(a, scalar::zero()) == scalar::zero::<T>(),
        block.out_proj_bias@.len() == 0,
        forall|i: int|
            0 <= i < block.out_proj_weight@.len() ==> #[trigger] block.out_proj_weight@[i]
                == scalar::zero::<T>(),
    ensures
        block.output::<M>(s, x) == x,
{
    let p = block.projected::<M>(x);
    let stream = p.take(block.d_inner as int);
    let gate = p.skip(block.d_inner as int);
    let y = selective_scan::scan_output::<T, M>(
        block.scanned::<M>(s.conv, stream),
        block.a_log@,
        block.d_param@,
        s.ssm,
    );
    let gated = ops::product_of(
        ops::all_activated::<T, M>(ops::Activation::Silu, gate),
        y,
    );
    assert(block.out_proj_bias@ =~= Seq::empty());
    kernels::lemma_zero_map(
        gated,
        block.out_proj_weight@,
        block.d_inner as nat,
        block.d_model as nat,
    );
    assert(block.output::<M>(s, x) =~= x);
}

/// A Mamba block takes its rows one after the other, each from the state that
/// the rows before it leave.
pub proof fn lemma_mamba_rows<T: Scalar, M: Math<T>>(
    block: MambaBlock<T>,
    states: Seq<MambaView<T>>,
    x: Seq<T>,
    rows: nat,
    t: int,
)
    requires
        block.wf(),
        x.len() == rows * block.d_model,
        states.len() == rows + 1,
        forall|k: int|
            0 <= k < rows ==> #[trigger] states[k + 1] == block.after::<M>(
                states[k],
                equations::line(x, k, block.d_model as int),
            ),
        0 <= t < rows,
    ensures
        block.state_after::<M>(states[0], x, rows) == states[rows as int],
        equations::line(block.outputs::<M>(states[0], x, rows), t, block.d_model as int)
            == block.output::<M>(states[t], equations::line(x, t, block.d_model as int)),
{
    let d = block.d_model as int;
    lemma_mamba_states::<T, M>(block, states, x, rows, rows);
    lemma_mamba_states::<T, M>(block, states, x, rows, t as nat);
    let f = |k: int|
        block.output::<M>(block.state_after::<M>(states[0], x, k as nat), ops::row(x, k, d));
    assert forall|k: int| 0 <= k < rows implies #[trigger] f(k).len() == d by {
        ops::lemma_row_bounds(k, rows as int, d);
    }
    kernels::lemma_line_of_blocks(rows, f, d as nat, t);
    ops::lemma_row_bounds(t, rows as int, d);
}

proof fn lemma_mamba_states<T: Scalar, M: Math<T>>(
    block: MambaBlock<T>,
    states: Seq<MambaView<T>>,
    x: Seq<T>,
    rows: nat,
    n: nat,
)
    requires
        n <= rows,
        states.len() == rows + 1,
        forall|k: int|
            0 <= k < rows ==> #[trigger] states[k + 1] == block.after::<M>(
                states[k],
                equations::line(x, k, block.d_model as int),
            ),
    ensures
        block.state_after::<M>(states[0], x, n) == states[n as int],
    decreases n,
{
    if n > 0 {
        let d = block.d_model as int;
        lemma_mamba_states::<T, M>(block, states, x, rows, (n - 1) as nat);
        assert(states[(n - 1) + 1] == block.after::<M>(
            states[n - 1],
            equations::line(x, n - 1, d),
        ));
        assert((n - 1 + 1) * d == (n - 1) * d + d) by (nonlinear_arith);
    }
}

/// The feed-forward network of a hybrid layer is
/// `down(silu(gate(norm(x))) * up(norm(x)))`.
pub proof fn lemma_swiglu<T: Scalar, M: Math<T>>(
    w: FfnWeights<T>,
    x: Seq<T>,
    eps: T,
    hidden: nat,
    inter: nat,
    a: Seq<T>,
    gate: Seq<T>,
    up: Seq<T>,
    active: Seq<T>,
    fused: Seq<T>,
    down: Seq<T>,
)
    requires
        w.fits(hidden, inter),
        x.len() == hidden,
        equations::is_rms::<T, M>(a, x, w.norm, eps),
        equations::is_linear(gate, a, w.gate, Seq::empty(), hidden, inter),
        equations::is_linear(up, a, w.up, Seq::empty(), hidden, inter),
        equations::is_silu::<T, M>(active, gate),
        equations::is_product(fused, active, up),
        equations::is_linear(down, fused, w.down, Seq::empty(), inter, hidden),
    ensures
        ffn::swiglu_row::<T, M>(w, x, eps, hidden, inter) == down,
{
    kernels::lemma_rms::<T, M>(a, x, w.norm, eps);
    kernels::lemma_linear(gate, a, w.gate, Seq::empty(), hidden, inter);
    kernels::lemma_linear(up, a, w.up, Seq::empty(), hidden, inter);
    kernels::lemma_activations::<T, M>(active, gate);
    kernels::lemma_elementwise(fused, active, up);
    kernels::lemma_linear(down, fused, w.down, Seq::empty(), inter, hidden);
}

/// The same network on one row, with each packed map in the place of its
/// weights.
pub proof fn lemma_swiglu_packed<T: Scalar, M: Math<T>, Q: PackedLinear<T>>(
    w: FfnWeights<T>,
    q: FfnPacked<Q>,
    x: Seq<T>,
    eps: T,
    hidden: nat,
    inter: nat,
    a: Seq<T>,
    gate: Seq<T>,
    up: Seq<T>,
    active: Seq<T>,
    fused: Seq<T>,
    down: Seq<T>,
)
    requires
        w.fits(hidden, inter),
        q.fits::<T>(hidden, inter),
        x.len() == hidden,
        equations::is_rms::<T, M>(a, x, w.norm, eps),
        equations::is_gemv(gate, a, w.gate, q.gate, hidden, inter),
        equations::is_gemv(up, a, w.up, q.up, hidden, inter),
        equations::is_silu::<T, M>(active, gate),
        equations::is_product(fused, active, up),
        equations::is_gemv(down, fused, w.down, q.down, inter, hidden),
    ensures
        ffn::swiglu_packed::<T, M, Q>(w, q, x, 1, eps, hidden, inter) == down,
{
    kernels::lemma_rms::<T, M>(a, x, w.norm, eps);
    let f = |i: int| ops::rms_row::<T, M>(ops::row(x, i, hidden as int), w.norm, eps);
    assert(ops::row(x, 0, hidden as int) =~= x);
    assert(ops::blocks(0, f) =~= Seq::empty());
    assert(ops::blocks(1, f) =~= f(0)) by {
        reveal_with_fuel(ops::blocks, 2);
    }
    assert(ops::rms_norm_of::<T, M>(x, w.norm, eps, hidden, 1) == a);
    kernels::lemma_gemv(gate, a, w.gate, q.gate, hidden, inter);
    kernels::lemma_gemv(up, a, w.up, q.up, hidden, inter);
    kernels::lemma_activations::<T, M>(active, gate);
    kernels::lemma_elementwise(fused, active, up);
    kernels::lemma_gemv(down, fused, w.down, q.down, inter, hidden);
}

/// The step size is `ln(1 + exp(x))`, which is `x` itself from twenty on, and
/// `exp(x)` where adding that to one changes nothing.
pub proof fn lemma_step_size<T: Scalar, M: Math<T>>(x: T)
    ensures
        ({
            let one = scalar::one::<T, M>();
            let e = scalar::exp_of::<T, M>(x);
            let below = scalar::is_greater::<T, M>(scalar::count_of::<T, M>(20), x);
            let moves = scalar::is_greater::<T, M>(scalar::plus(one, e), one);
            let d = selective_scan::delta_of::<T, M>(x);
            &&& !below ==> d == x
            &&& below && moves ==> d == scalar::ln_of::<T, M>(scalar::plus(one, e))
            &&& below && !moves ==> d == e
        }),
{
}

/// A scan over a sequence takes its tokens one after the other, each from the
/// state that the tokens before it leave; the rows of token `t` stand at `t`.
pub proof fn lemma_scan_sequence<T: Scalar, M: Math<T>>(
    xs: Seq<T>,
    deltas: Seq<T>,
    bs: Seq<T>,
    cs: Seq<T>,
    d_inner: nat,
    d_state: nat,
    a_log: Seq<T>,
    d: Seq<T>,
    states: Seq<Seq<T>>,
    outputs: Seq<Seq<T>>,
    rows: nat,
    t: int,
)
    requires
        xs.len() == rows * d_inner,
        deltas.len() == rows * d_inner,
        bs.len() == rows * d_state,
        cs.len() == rows * d_state,
        states.len() == rows + 1,
        outputs.len() == rows,
        forall|k: int|
            0 <= k < rows ==> equations::is_scanned::<T, M>(
                #[trigger] states[k + 1],
                states[k],
                equations::line(xs, k, d_inner as int),
                equations::line(deltas, k, d_inner as int),
                equations::line(bs, k, d_state as int),
                a_log,
            ),
        forall|k: int|
            0 <= k < rows ==> equations::is_scan_read(
                #[trigger] outputs[k],
                states[k + 1],
                equations::line(xs, k, d_inner as int),
                equations::line(cs, k, d_state as int),
                d,
            ),
        0 <= t < rows,
    ensures
        ({
            let inputs = |k: int|
                selective_scan::input_at(xs, deltas, bs, cs, d_inner as int, d_state as int, k);
            &&& selective_scan::hidden_after_tokens::<T, M>(inputs, a_log, states[0], rows)
                == states[rows as int]
            &&& equations::line(
                selective_scan::scan_outputs::<T, M>(inputs, a_log, d, states[0], rows),
                t,
                d_inner as int,
            ) == outputs[t]
        }),
{
    let inputs = |k: int|
        selective_scan::input_at(xs, deltas, bs, cs, d_inner as int, d_state as int, k);
    lemma_scan_states::<T, M>(xs, deltas, bs, cs, d_inner, d_state, a_log, states, rows, rows);
    let f = |k: int|
        selective_scan::scan_output::<T, M>(
            inputs(k),
            a_log,
            d,
            selective_scan::hidden_after_tokens::<T, M>(inputs, a_log, states[0], k as nat),
        );
    assert forall|k: int| 0 <= k < rows implies #[trigger] f(k).len() == d_inner && f(k)
        == outputs[k] by {
        lemma_scan_states::<T, M>(
            xs,
            deltas,
            bs,
            cs,
            d_inner,
            d_state,
            a_log,
            states,
            rows,
            k as nat,
        );
        lemma_lines(xs, deltas, bs, cs, d_inner, d_state, rows, k);
        assert(equations::is_scan_read(
            outputs[k],
            states[k + 1],
            equations::line(xs, k, d_inner as int),
            equations::line(cs, k, d_state as int),
            d,
        ));
        kernels::lemma_scan::<T, M>(
            states[k + 1],
            outputs[k],
            states[k],
            equations::line(xs, k, d_inner as int),
            equations::line(deltas, k, d_inner as int),
            equations::line(bs, k, d_state as int),
            equations::line(cs, k, d_state as int),
            a_log,
            d,
        );
    }
    kernels::lemma_line_of_blocks(rows, f, d_inner, t);
}

proof fn lemma_lines<T>(
    xs: Seq<T>,
    deltas: Seq<T>,
    bs: Seq<T>,
    cs: Seq<T>,
    d_inner: nat,
    d_state: nat,
    rows: nat,
    k: int,
)
    requires
        xs.len() == rows * d_inner,
        deltas.len() == rows * d_inner,
        bs.len() == rows * d_state,
        cs.len() == rows * d_state,
        0 <= k < rows,
    ensures
        selective_scan::input_at(xs, deltas, bs, cs, d_inner as int, d_state as int, k) == (
        ScanInput {
            x: equations::line(xs, k, d_inner as int),
            delta: equations::line(deltas, k, d_inner as int),
            b: equations::line(bs, k, d_state as int),
            c: equations::line(cs, k, d_state as int),
        }),
        equations::line(xs, k, d_inner as int).len() == d_inner,
        equations::line(bs, k, d_state as int).len() == d_state,
        equations::line(cs, k, d_state as int).len() == d_state,
{
    ops::lemma_row_bounds(k, rows as int, d_inner as int);
    ops::lemma_row_bounds(k, rows as int, d_state as int);
}

proof fn lemma_scan_states<T: Scalar, M: Math<T>>(
    xs: Seq<T>,
    deltas: Seq<T>,
    bs: Seq<T>,
    cs: Seq<T>,
    d_inner: nat,
    d_state: nat,
    a_log: Seq<T>,
    states: Seq<Seq<T>>,
    rows: nat,
    n: nat,
)
    requires
        n <= rows,
        xs.len() == rows * d_inner,
        deltas.len() == rows * d_inner,
        bs.len() == rows * d_state,
        cs.len() == rows * d_state,
        states.len() == rows + 1,
        forall|k: int|
            0 <= k < rows ==> equations::is_scanned::<T, M>(
                #[trigger] states[k + 1],
                states[k],
                equations::line(xs, k, d_inner as int),
                equations::line(deltas, k, d_inner as int),
                equations::line(bs, k, d_state as int),
                a_log,
            ),
    ensures
        selective_scan::hidden_after_tokens::<T, M>(
            |k: int|
                selective_scan::input_at(xs, deltas, bs, cs, d_inner as int, d_state as int, k),
            a_log,
            states[0],
            n,
        ) == states[n as int],
    decreases n,
{
    if n > 0 {
        let k = n - 1;
        lemma_scan_states::<T, M>(
            xs,
            deltas,
            bs,
            cs,
            d_inner,
            d_state,
            a_log,
            states,
            rows,
            k as nat,
        );
        lemma_lines(xs, deltas, bs, cs, d_inner, d_state, rows, k);
        assert(equations::is_scanned::<T, M>(
            states[k + 1],
            states[k],
            equations::line(xs, k, d_inner as int),
            equations::line(deltas, k, d_inner as int),
            equations::line(bs, k, d_state as int),
            a_log,
        ));
        kernels::lemma_scan::<T, M>(
            states[k + 1],
            Seq::empty(),
            states[k],
            equations::line(xs, k, d_inner as int),
            equations::line(deltas, k, d_inner as int),
            equations::line(bs, k, d_state as int),
            equations::line(cs, k, d_state as int),
            a_log,
            Seq::empty(),
        );
    }
}

/// A head's memory over a sequence takes the keys and values in order, and token
/// `t` reads the memory that holds its own.
pub proof fn lemma_memory_sequence<T: Scalar>(
    q: Seq<T>,
    k: Seq<T>,
    v: Seq<T>,
    alpha: Seq<T>,
    beta: Seq<T>,
    d: nat,
    memories: Seq<Seq<T>>,
    rows: nat,
    t: int,
    i: int,
)
    requires
        q.len() == rows * d,
        k.len() == rows * d,
        v.len() == rows * d,
        memories.len() == rows + 1,
        memories[0].len() == d * d,
        forall|s: int|
            0 <= s < rows ==> equations::is_remembered(
                #[trigger] memories[s + 1],
                memories[s],
                equations::line(k, s, d as int),
                equations::line(v, s, d as int),
                alpha[s],
                beta[s],
                d,
            ),
        0 <= t < rows,
        0 <= i < d,
    ensures
        deltanet::memory_after_steps(memories[0], k, v, alpha, beta, d, rows)
            == memories[rows as int],
        deltanet::step_output(memories[0], q, k, v, alpha, beta, d, t).len() == d,
        deltanet::step_output(memories[0], q, k, v, alpha, beta, d, t)[i] == equations::sigma(
            d,
            |j: int| scalar::times(memories[t + 1][i * d + j], q[t * d + j]),
        ),
{
    lemma_memories(k, v, alpha, beta, d, memories, rows, rows);
    lemma_memories(k, v, alpha, beta, d, memories, rows, (t + 1) as nat);
    let m = memories[t + 1];
    ops::lemma_row_bounds(t, rows as int, d as int);
    let r = ops::row(q, t, d as int);
    kernels::lemma_memory(m, m, r, r, scalar::zero(), scalar::zero(), d, r);
    assert(deltanet::read_memory(m, r, d)[i] == equations::sigma(
        d,
        |j: int| scalar::times(m[i * d + j], r[j]),
    ));
    let f = |j: int| scalar::times(m[i * d + j], r[j]);
    let g = |j: int| scalar::times(memories[t + 1][i * d + j], q[t * d + j]);
    assert forall|j: int| 0 <= j < d implies #[trigger] f(j) == g(j) by {
        assert(r[j] == q[t * d + j]);
    }
    kernels::lemma_sigma_same(d, f, g);
}

proof fn lemma_memories<T: Scalar>(
    k: Seq<T>,
    v: Seq<T>,
    alpha: Seq<T>,
    beta: Seq<T>,
    d: nat,
    memories: Seq<Seq<T>>,
    rows: nat,
    n: nat,
)
    requires
        n <= rows,
        k.len() == rows * d,
        v.len() == rows * d,
        memories.len() == rows + 1,
        memories[0].len() == d * d,
        forall|s: int|
            0 <= s < rows ==> equations::is_remembered(
                #[trigger] memories[s + 1],
                memories[s],
                equations::line(k, s, d as int),
                equations::line(v, s, d as int),
                alpha[s],
                beta[s],
                d,
            ),
    ensures
        deltanet::memory_after_steps(memories[0], k, v, alpha, beta, d, n) == memories[n as int],
        memories[n as int].len() == d * d,
    decreases n,
{
    if n > 0 {
        let s = n - 1;
        lemma_memories(k, v, alpha, beta, d, memories, rows, s as nat);
        ops::lemma_row_bounds(s, rows as int, d as int);
        assert(equations::is_remembered(
            memories[s + 1],
            memories[s],
            equations::line(k, s, d as int),
            equations::line(v, s, d as int),
            alpha[s],
            beta[s],
            d,
        ));
        kernels::lemma_memory(
            memories[s + 1],
            memories[s],
            equations::line(k, s, d as int),
            equations::line(v, s, d as int),
            alpha[s],
            beta[s],
            d,
            Seq::empty(),
        );
    }
}

} // verus!
