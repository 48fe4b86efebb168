//! The selective scan: the recurrence of a Mamba layer.

use core::ops::Neg;
use vstd::prelude::*;

use crate::buffer::{extend, put_row};
use crate::ops;
use crate::ops::{dot_product, row_slice};
use crate::scalar;
use crate::scalar::{Math, Scalar};

verus! {

/// Softplus, which is taken to be the identity from 20 on, and the exponential
/// where that is too small to show beside one.
pub open spec fn delta_of<T: Scalar, M: Math<T>>(x: T) -> T {
    let e = scalar::exp_of::<T, M>(x);
    let s = scalar::plus(scalar::one::<T, M>(), e);
    if !scalar::is_greater::<T, M>(scalar::count_of::<T, M>(20), x) {
        x
    } else if scalar::is_greater::<T, M>(s, scalar::one::<T, M>()) {
        scalar::ln_of::<T, M>(s)
    } else {
        e
    }
}

/// Softplus activation used to ensure `delta > 0`.
///
/// `softplus(x) = log(1 + exp(x))`
pub fn compute_delta<T: Scalar, M: Math<T>>(raw_dt: &[T]) -> (r: Vec<T>)
    requires
        scalar::mathematics::<T, M>(),
    ensures
        r@ == raw_dt@.map_values(|x: T| delta_of::<T, M>(x)),
{
    let ghost f = |x: T| delta_of::<T, M>(x);
    let mut out: Vec<T> = Vec::with_capacity(raw_dt.len());
    for i in 0..raw_dt.len()
        invariant
            scalar::mathematics::<T, M>(),
            f == (|x: T| delta_of::<T, M>(x)),
            out@ == raw_dt@.take(i as int).map_values(f),
    {
        let x = raw_dt[i];
        let y = if M::greater(M::count(20), x) {
            let e = M::exp(x);
            let s = M::one() + e;
            if M::greater(s, M::one()) {
                M::ln(s)
            } else {
                // log(1 + e) ≈ e for small e, where the sum would round to one
                e
            }
        } else {
            x  // numerical stability: log(1 + exp(x)) ≈ x for large x
        };
        out.push(y);
        assert(out@ =~= raw_dt@.take(i + 1).map_values(f));
    }
    assert(raw_dt@.take(raw_dt@.len() as int) =~= raw_dt@);
    out
}

/// What one token brings to the recurrence.
#[verifier::ext_equal]
pub struct ScanInput<T> {
    pub x: Seq<T>,
    pub delta: Seq<T>,
    pub b: Seq<T>,
    pub c: Seq<T>,
}

/// Hidden state `(i, j)` after a token:
/// `exp(delta[i] * -exp(a_log[i, j])) * h[i, j] + delta[i] * b[j] * x[i]`.
pub open spec fn hidden_value<T: Scalar, M: Math<T>>(
    input: ScanInput<T>,
    a_log: Seq<T>,
    state: Seq<T>,
    i: int,
    j: int,
) -> T {
    let at = i * input.b.len() + j;
    let a = scalar::negated(scalar::exp_of::<T, M>(a_log[at]));
    let decay = scalar::exp_of::<T, M>(scalar::times(input.delta[i], a));
    scalar::plus(
        scalar::times(decay, state[at]),
        scalar::times(scalar::times(input.delta[i], input.b[j]), input.x[i]),
    )
}

/// The hidden states of channel `i` after a token.
pub open spec fn hidden_row<T: Scalar, M: Math<T>>(
    input: ScanInput<T>,
    a_log: Seq<T>,
    state: Seq<T>,
    i: int,
) -> Seq<T> {
    Seq::new(input.b.len(), |j: int| hidden_value::<T, M>(input, a_log, state, i, j))
}

/// All hidden states after a token.
pub open spec fn hidden_after<T: Scalar, M: Math<T>>(
    input: ScanInput<T>,
    a_log: Seq<T>,
    state: Seq<T>,
) -> Seq<T> {
    ops::blocks(input.x.len(), |i: int| hidden_row::<T, M>(input, a_log, state, i))
}

/// What the channels give for a token: `c` times the new hidden state, and the
/// skip connection.
pub open spec fn scan_output<T: Scalar, M: Math<T>>(
    input: ScanInput<T>,
    a_log: Seq<T>,
    d: Seq<T>,
    state: Seq<T>,
) -> Seq<T> {
    Seq::new(
        input.x.len(),
        |i: int|
            scalar::plus(
                ops::dot(
                    input.c,
                    hidden_row::<T, M>(input, a_log, state, i),
                    input.c.len(),
                ),
                scalar::times(d[i], input.x[i]),
            ),
    )
}

pub proof fn lemma_hidden_len<T: Scalar, M: Math<T>>(
    input: ScanInput<T>,
    a_log: Seq<T>,
    state: Seq<T>,
)
    ensures
        hidden_after::<T, M>(input, a_log, state).len() == input.x.len() * input.b.len(),
{
    let f = |i: int| hidden_row::<T, M>(input, a_log, state, i);
    assert forall|i: int| 0 <= i < input.x.len() implies #[trigger] f(i).len()
        == input.b.len() by {}
    ops::lemma_blocks_len(input.x.len(), f, input.b.len());
}

/// Single-step selective scan (for autoregressive decode).
///
/// Applies one step of the discretised SSM recurrence:
/// ```text
/// h[i, j] = exp(delta[i] * A[i, j]) * h[i, j] + delta[i] * B[j] * x[i]
/// y[i]    = sum_j(C[j] * h[i, j]) + D[i] * x[i]
/// ```
///
/// # Parameters
/// - `x`         — input `[d_inner]`
/// - `delta`     — discretisation steps `[d_inner]`, must be positive (use [`compute_delta`])
/// - `a_log`     — log of A matrix `[d_inner * d_state]`; `A = -exp(a_log)`
/// - `b`         — input-dependent B `[d_state]`
/// - `c`         — input-dependent C `[d_state]`
/// - `d`         — skip-connection weights `[d_inner]`
/// - `ssm_state` — `[d_inner * d_state]`, updated in place
///
/// # Returns
/// Output vector `[d_inner]`.
pub fn selective_scan_step<T: Scalar, M: Math<T>>(
    x: &[T],
    delta: &[T],
    a_log: &[T],
    b: &[T],
    c: &[T],
    d: &[T],
    ssm_state: &mut Vec<T>,
) -> (r: Vec<T>)
    requires
        scalar::mathematics::<T, M>(),
        delta@.len() == x@.len(),
        a_log@.len() == x@.len() * b@.len(),
        c@.len() == b@.len(),
        d@.len() == x@.len(),
        old(ssm_state)@.len() == x@.len() * b@.len(),
    ensures
        r@ == scan_output::<T, M>(
            (ScanInput { x: x@, delta: delta@, b: b@, c: c@ }),
            a_log@,
            d@,
            old(ssm_state)@,
        ),
        r@.len() == x@.len(),
        final(ssm_state)@ == hidden_after::<T, M>(
            (ScanInput { x: x@, delta: delta@, b: b@, c: c@ }),
            a_log@,
            old(ssm_state)@,
        ),
        final(ssm_state)@.len() == old(ssm_state)@.len(),
{
    let d_inner = x.len();
    let d_state = b.len();
    let ghost input = ScanInput { x: x@, delta: delta@, b: b@, c: c@ };
    let ghost start = ssm_state@;
    let ghost f = |i: int| hidden_row::<T, M>(input, a_log@, start, i);
    let mut y: Vec<T> = Vec::with_capacity(d_inner);
    assert(ssm_state@.take(0 * d_state) =~= ops::blocks(0, f));
    assert(ssm_state@.skip(0 * d_state) =~= start.skip(0 * d_state));
    for i in 0..d_inner
        invariant
            scalar::mathematics::<T, M>(),
            d_inner == x@.len(),
            d_state == b@.len(),
            delta@.len() == d_inner,
            a_log@.len() == d_inner * d_state,
            c@.len() == d_state,
            d@.len() == d_inner,
            start.len() == d_inner * d_state,
            ssm_state@.len() == start.len(),
            input == (ScanInput { x: x@, delta: delta@, b: b@, c: c@ }),
            f == (|i: int| hidden_row::<T, M>(input, a_log@, start, i)),
            ssm_state@.take(i * d_state) == ops::blocks(i as nat, f),
            ssm_state@.skip(i * d_state) == start.skip(i * d_state),
            y@ == scan_output::<T, M>(input, a_log@, d@, start).take(i as int),
    {
        proof {
            ops::lemma_row_bounds(i as int, d_inner as int, d_state as int);
        }
        let dt_i = delta[i];
        let x_i = x[i];
        let ghost held = ssm_state@;
        let room = a_log.len();
        let mut row: Vec<T> = Vec::with_capacity(d_state);
        for j in 0..d_state
            invariant
                scalar::mathematics::<T, M>(),
                i < d_inner,
                d_inner == x@.len(),
                d_state == b@.len(),
                delta@.len() == d_inner,
                0 <= i * d_state,
                i * d_state + d_state <= room,
                room == d_inner * d_state,
                a_log@.len() == d_inner * d_state,
                start.len() == d_inner * d_state,
                ssm_state@ == held,
                held.len() == start.len(),
                held.skip(i * d_state) == start.skip(i * d_state),
                input == (ScanInput { x: x@, delta: delta@, b: b@, c: c@ }),
                dt_i == delta@[i as int],
                x_i == x@[i as int],
                row@ == hidden_row::<T, M>(input, a_log@, start, i as int).take(j as int),
        {
            let at = i * d_state + j;
            assert(held[at as int] == held.skip(i * d_state)[j as int]);
            assert(start[at as int] == start.skip(i * d_state)[j as int]);
            // A = -exp(a_log) (always negative for stability)
            let a = M::exp(a_log[at]).neg();
            let a_disc = M::exp(dt_i * a);
            let h_new = a_disc * ssm_state[at] + dt_i * b[j] * x_i;
            row.push(h_new);
            assert(row@ =~= hidden_row::<T, M>(input, a_log@, start, i as int).take(j + 1));
        }
        assert(row@ =~= hidden_row::<T, M>(input, a_log@, start, i as int));
        put_row(ssm_state, i, d_state, row.as_slice());
        let yi = dot_product(c, row.as_slice());
        // Skip connection
        y.push(yi + d[i] * x_i);
        proof {
            ops::lemma_rest_agrees(held, start, i as int, d_state as int);
            assert(ssm_state@.take((i + 1) * d_state) =~= ops::blocks((i + 1) as nat, f));
            assert(y@ =~= scan_output::<T, M>(input, a_log@, d@, start).take(i + 1));
        }
    }
    proof {
        lemma_hidden_len::<T, M>(input, a_log@, start);
        assert(ssm_state@.take(d_inner * d_state) =~= ssm_state@);
        assert(y@ =~= scan_output::<T, M>(input, a_log@, d@, start));
    }
    y
}

/// The part of a sequence that token `t` brings.
pub open spec fn input_at<T>(
    xs: Seq<T>,
    deltas: Seq<T>,
    bs: Seq<T>,
    cs: Seq<T>,
    d_inner: int,
    d_state: int,
    t: int,
) -> ScanInput<T> {
    ScanInput {
        x: ops::row(xs, t, d_inner),
        delta: ops::row(deltas, t, d_inner),
        b: ops::row(bs, t, d_state),
        c: ops::row(cs, t, d_state),
    }
}

/// The hidden states after the first `n` tokens, which `inputs` gives.
pub open spec fn hidden_after_tokens<T: Scalar, M: Math<T>>(
    inputs: spec_fn(int) -> ScanInput<T>,
    a_log: Seq<T>,
    state: Seq<T>,
    n: nat,
) -> Seq<T>
    decreases n,
{
    if n == 0 {
        state
    } else {
        hidden_after::<T, M>(
            inputs(n - 1),
            a_log,
            hidden_after_tokens::<T, M>(inputs, a_log, state, (n - 1) as nat),
        )
    }
}

/// What a sequence of `n` tokens gives.
pub open spec fn scan_outputs<T: Scalar, M: Math<T>>(
    inputs: spec_fn(int) -> ScanInput<T>,
    a_log: Seq<T>,
    d: Seq<T>,
    state: Seq<T>,
    n: nat,
) -> Seq<T> {
    ops::blocks(
        n,
        |t: int|
            scan_output::<T, M>(
                inputs(t),
                a_log,
                d,
                hidden_after_tokens::<T, M>(inputs, a_log, state, t as nat),
            ),
    )
}

/// Sequential selective scan for prefill (processes a sequence of tokens).
///
/// Calls [`selective_scan_step`] for every token in the sequence, accumulating
/// the hidden state across steps.
///
/// # Parameters
/// - `xs`        — token inputs, shape `[seq_len, d_inner]` (row-major)
/// - `deltas`    — per-token delta, shape `[seq_len, d_inner]`
/// - `a_log`     — `[d_inner * d_state]` (shared across time steps)
/// - `bs`        — per-token B, shape `[seq_len, d_state]`
/// - `cs`        — per-token C, shape `[seq_len, d_state]`
/// - `d`         — skip-connection `[d_inner]`
/// - `ssm_state` — `[d_inner * d_state]`, updated in place
///
/// # Returns
/// Output tensor `[seq_len, d_inner]` (row-major).
pub fn selective_scan_seq<T: Scalar, M: Math<T>>(
    xs: &[T],
    deltas: &[T],
    a_log: &[T],
    bs: &[T],
    cs: &[T],
    d: &[T],
    ssm_state: &mut Vec<T>,
) -> (r: Vec<T>)
    requires
        scalar::mathematics::<T, M>(),
        d@.len() > 0,
        ({
            let d_inner = d@.len();
            let d_state = a_log@.len() / d_inner;
            let n = xs@.len() / d_inner;
            &&& a_log@.len() == d_inner * d_state
            &&& xs@.len() == n * d_inner
            &&& deltas@.len() == n * d_inner
            &&& bs@.len() == n * d_state
            &&& cs@.len() == n * d_state
            &&& old(ssm_state)@.len() == d_inner * d_state
        }),
    ensures
        ({
            let d_inner = d@.len() as int;
            let d_state = a_log@.len() as int / d_inner;
            let n = xs@.len() / d@.len();
            let inputs = |t: int| input_at(xs@, deltas@, bs@, cs@, d_inner, d_state, t);
            &&& r@ == scan_outputs::<T, M>(inputs, a_log@, d@, old(ssm_state)@, n)
            &&& final(ssm_state)@ == hidden_after_tokens::<T, M>(
                inputs,
                a_log@,
                old(ssm_state)@,
                n,
            )
        }),
        r@.len() == xs@.len(),
        final(ssm_state)@.len() == old(ssm_state)@.len(),
{
    let d_inner = d.len();
    let d_state = a_log.len() / d_inner;
    let seq_len = xs.len() / d_inner;
    let ghost inputs = |t: int|
        input_at(xs@, deltas@, bs@, cs@, d_inner as int, d_state as int, t);
    let ghost start = ssm_state@;
    let ghost f = |t: int|
        scan_output::<T, M>(
            inputs(t),
            a_log@,
            d@,
            hidden_after_tokens::<T, M>(inputs, a_log@, start, t as nat),
        );
    let mut outputs: Vec<T> = Vec::new();
    assert(0 * d_inner == 0) by (nonlinear_arith);
    for t in 0..seq_len
        invariant
            scalar::mathematics::<T, M>(),
            d_inner == d@.len(),
            a_log@.len() == d_inner * d_state,
            xs@.len() == seq_len * d_inner,
            deltas@.len() == seq_len * d_inner,
            bs@.len() == seq_len * d_state,
            cs@.len() == seq_len * d_state,
            start.len() == d_inner * d_state,
            ssm_state@.len() == start.len(),
            inputs == (|t: int|
                input_at(xs@, deltas@, bs@, cs@, d_inner as int, d_state as int, t)),
            f == (|t: int|
                scan_output::<T, M>(
                    inputs(t),
                    a_log@,
                    d@,
                    hidden_after_tokens::<T, M>(inputs, a_log@, start, t as nat),
                )),
            ssm_state@ == hidden_after_tokens::<T, M>(inputs, a_log@, start, t as nat),
            outputs@ == ops::blocks(t as nat, f),
            outputs@.len() == t * d_inner,
    {
        proof {
            ops::lemma_row_bounds(t as int, seq_len as int, d_inner as int);
            ops::lemma_row_bounds(t as int, seq_len as int, d_state as int);
        }
        let x_t = row_slice(xs, t, d_inner);
        let delta_t = row_slice(deltas, t, d_inner);
        let b_t = row_slice(bs, t, d_state);
        let c_t = row_slice(cs, t, d_state);
        let y_t = selective_scan_step::<T, M>(x_t, delta_t, a_log, b_t, c_t, d, ssm_state);
        extend(&mut outputs, y_t.as_slice());
        assert(inputs(t as int) == (ScanInput {
            x: x_t@,
            delta: delta_t@,
            b: b_t@,
            c: c_t@,
        }));
        assert(outputs@ =~= ops::blocks((t + 1) as nat, f));
        assert((t + 1) * d_inner == t * d_inner + d_inner) by (nonlinear_arith);
    }
    outputs
}

} // verus!
