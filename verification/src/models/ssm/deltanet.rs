//! Gated DeltaNet kernel for linear-attention hybrid models (e.g. Qwen3.5).
//!
//! Implements the Gated DeltaNet recurrence:
//!
//! ```text
//! S_t = alpha_t * S_{t-1} + beta_t * outer(v_t, k_t)
//! o_t = S_t @ q_t
//! ```
//!
//! where `alpha` is a per-step decay gate and `beta` is a per-step write gate,
//! and `q`, `k` are L2-normalised before being passed to the kernel.

use vstd::prelude::*;

use crate::buffer::extend;
use crate::config::BITS_1E_12;
use crate::ops;
use crate::ops::{dot_product, row_slice};
use crate::scalar;
use crate::scalar::{Math, Scalar};

verus! {

/// The length of a vector, kept away from zero.
pub open spec fn clamped_norm<T: Scalar, M: Math<T>>(x: Seq<T>) -> T {
    scalar::max_of::<T, M>(
        scalar::sqrt_of::<T, M>(ops::dot(x, x, x.len())),
        scalar::binary64_of::<T, M>(BITS_1E_12),
    )
}

/// A vector divided by its length.
pub open spec fn normalized<T: Scalar, M: Math<T>>(x: Seq<T>) -> Seq<T> {
    Seq::new(x.len(), |i: int| scalar::over(x[i], clamped_norm::<T, M>(x)))
}

/// L2-normalise a vector. Returns a unit-norm copy.
///
/// The denominator is clamped to `1e-12` to avoid division by zero.
pub fn l2_normalize<T: Scalar, M: Math<T>>(x: &[T]) -> (r: Vec<T>)
    requires
        scalar::mathematics::<T, M>(),
    ensures
        r@ == normalized::<T, M>(x@),
{
    let norm = M::max(M::sqrt(dot_product(x, x)), M::from_binary64(BITS_1E_12));
    let mut out: Vec<T> = Vec::with_capacity(x.len());
    for i in 0..x.len()
        invariant
            scalar::mathematics::<T, M>(),
            norm == clamped_norm::<T, M>(x@),
            out@ == normalized::<T, M>(x@).take(i as int),
    {
        out.push(x[i] / norm);
        assert(out@ =~= normalized::<T, M>(x@).take(i + 1));
    }
    assert(out@ =~= normalized::<T, M>(x@));
    out
}

/// Row `d` of the memory after a step.
pub open spec fn memory_row<T: Scalar>(row: Seq<T>, k: Seq<T>, v: T, alpha: T, beta: T) -> Seq<T> {
    Seq::new(
        row.len(),
        |j: int|
            scalar::plus(
                scalar::times(alpha, row[j]),
                scalar::times(scalar::times(beta, v), k[j]),
            ),
    )
}

/// The memory after a step: `alpha * S + beta * outer(v, k)`.
pub open spec fn memory_after<T: Scalar>(
    memory: Seq<T>,
    k: Seq<T>,
    v: Seq<T>,
    alpha: T,
    beta: T,
    head_dim: nat,
) -> Seq<T> {
    ops::blocks(
        head_dim,
        |d: int| memory_row(ops::row(memory, d, head_dim as int), k, v[d], alpha, beta),
    )
}

/// What a query reads from the memory: `S @ q`.
pub open spec fn read_memory<T: Scalar>(memory: Seq<T>, q: Seq<T>, head_dim: nat) -> Seq<T> {
    Seq::new(head_dim, |d: int| ops::dot(ops::row(memory, d, head_dim as int), q, head_dim))
}

pub proof fn lemma_memory_len<T: Scalar>(
    memory: Seq<T>,
    k: Seq<T>,
    v: Seq<T>,
    alpha: T,
    beta: T,
    head_dim: nat,
)
    requires
        memory.len() == head_dim * head_dim,
    ensures
        memory_after(memory, k, v, alpha, beta, head_dim).len() == head_dim * head_dim,
{
    let f = |d: int| memory_row(ops::row(memory, d, head_dim as int), k, v[d], alpha, beta);
    assert forall|d: int| 0 <= d < head_dim implies #[trigger] f(d).len() == head_dim by {
        ops::lemma_row_bounds(d, head_dim as int, head_dim as int);
    }
    ops::lemma_blocks_len(head_dim, f, head_dim);
}

/// Single-step Gated DeltaNet for one attention head.
///
/// Computes:
///   `S_t = alpha * S_{t-1} + beta * outer(v, k)`
///   `o_t = S_t @ q`
///
/// # Arguments
/// * `q` — query vector `[head_dim]`, should be L2 normalised by the caller.
/// * `k` — key vector `[head_dim]`, should be L2 normalised by the caller.
/// * `v` — value vector `[head_dim]`.
/// * `alpha` — scalar decay gate in `(0, 1)`, controls memory retention.
/// * `beta`  — scalar update gate in `(0, 1)`, controls write strength.
/// * `memory` — mutable state matrix `[head_dim * head_dim]` (row-major), updated in place.
/// * `head_dim` — size of each head dimension.
///
/// # Returns
/// Output vector `[head_dim]`.
pub fn deltanet_step<T: Scalar>(
    q: &[T],
    k: &[T],
    v: &[T],
    alpha: T,
    beta: T,
    memory: &mut Vec<T>,
    head_dim: usize,
) -> (r: Vec<T>)
    requires
        scalar::arithmetic::<T>(),
        q@.len() == head_dim,
        k@.len() == head_dim,
        v@.len() == head_dim,
        old(memory)@.len() == head_dim * head_dim,
    ensures
        final(memory)@ == memory_after(old(memory)@, k@, v@, alpha, beta, head_dim as nat),
        final(memory)@.len() == head_dim * head_dim,
        r@ == read_memory(final(memory)@, q@, head_dim as nat),
        r@.len() == head_dim,
{
    let ghost start = memory@;
    let ghost f = |d: int|
        memory_row(ops::row(start, d, head_dim as int), k@, v@[d], alpha, beta);
    // State update: S = alpha * S + beta * outer(v, k)
    let mut updated: Vec<T> = Vec::with_capacity(memory.len());
    for d in 0..head_dim
        invariant
            scalar::arithmetic::<T>(),
            k@.len() == head_dim,
            v@.len() == head_dim,
            memory@ == start,
            start.len() == head_dim * head_dim,
            f == (|d: int|
                memory_row(ops::row(start, d, head_dim as int), k@, v@[d], alpha, beta)),
            updated@ == ops::blocks(d as nat, f),
    {
        let ghost done = updated@;
        proof {
            ops::lemma_row_bounds(d as int, head_dim as int, head_dim as int);
        }
        let row = row_slice(memory.as_slice(), d, head_dim);
        let bv = beta * v[d];
        for j in 0..head_dim
            invariant
                scalar::arithmetic::<T>(),
                k@.len() == head_dim,
                row@.len() == head_dim,
                bv == scalar::times(beta, v@[d as int]),
                updated@ == done + memory_row(row@, k@, v@[d as int], alpha, beta).take(j as int),
        {
            updated.push(alpha * row[j] + bv * k[j]);
            assert(updated@ =~= done + memory_row(row@, k@, v@[d as int], alpha, beta).take(
                j + 1,
            ));
        }
        assert(memory_row(row@, k@, v@[d as int], alpha, beta).take(head_dim as int) =~= f(
            d as int,
        ));
        assert(updated@ =~= ops::blocks((d + 1) as nat, f));
    }
    proof {
        lemma_memory_len(start, k@, v@, alpha, beta, head_dim as nat);
    }
    *memory = updated;
    // Output: o = S @ q
    let mut output: Vec<T> = Vec::with_capacity(head_dim);
    for d in 0..head_dim
        invariant
            scalar::arithmetic::<T>(),
            q@.len() == head_dim,
            memory@.len() == head_dim * head_dim,
            output@ == read_memory(memory@, q@, head_dim as nat).take(d as int),
    {
        proof {
            ops::lemma_row_bounds(d as int, head_dim as int, head_dim as int);
        }
        let o = dot_product(row_slice(memory.as_slice(), d, head_dim), q);
        output.push(o);
        assert(output@ =~= read_memory(memory@, q@, head_dim as nat).take(d + 1));
    }
    assert(output@ =~= read_memory(memory@, q@, head_dim as nat));
    output
}

/// The memory after the first `n` timesteps of a sequence.
pub open spec fn memory_after_steps<T: Scalar>(
    memory: Seq<T>,
    k: Seq<T>,
    v: Seq<T>,
    alpha: Seq<T>,
    beta: Seq<T>,
    head_dim: nat,
    n: nat,
) -> Seq<T>
    decreases n,
{
    if n == 0 {
        memory
    } else {
        memory_after(
            memory_after_steps(memory, k, v, alpha, beta, head_dim, (n - 1) as nat),
            ops::row(k, n - 1, head_dim as int),
            ops::row(v, n - 1, head_dim as int),
            alpha[n - 1],
            beta[n - 1],
            head_dim,
        )
    }
}

/// What the query of timestep `t` reads.
pub open spec fn step_output<T: Scalar>(
    memory: Seq<T>,
    q: Seq<T>,
    k: Seq<T>,
    v: Seq<T>,
    alpha: Seq<T>,
    beta: Seq<T>,
    head_dim: nat,
    t: int,
) -> Seq<T> {
    read_memory(
        memory_after_steps(memory, k, v, alpha, beta, head_dim, (t + 1) as nat),
        ops::row(q, t, head_dim as int),
        head_dim,
    )
}

/// Process a full sequence with the Gated DeltaNet kernel for one attention head.
///
/// Calls [`deltanet_step`] for each timestep, threading the memory state through.
///
/// # Arguments
/// * `q` — queries `[seq_len * head_dim]`.
/// * `k` — keys `[seq_len * head_dim]`.
/// * `v` — values `[seq_len * head_dim]`.
/// * `alpha` — per-timestep decay gates `[seq_len]`.
/// * `beta`  — per-timestep update gates `[seq_len]`.
/// * `memory` — mutable state matrix `[head_dim * head_dim]`, updated in place.
/// * `seq_len` — number of tokens.
/// * `head_dim` — size of each head dimension.
///
/// # Returns
/// Output tensor `[seq_len * head_dim]`.
pub fn deltanet_seq<T: Scalar>(
    q: &[T],
    k: &[T],
    v: &[T],
    alpha: &[T],
    beta: &[T],
    memory: &mut Vec<T>,
    seq_len: usize,
    head_dim: usize,
) -> (r: Vec<T>)
    requires
        scalar::arithmetic::<T>(),
        q@.len() == seq_len * head_dim,
        k@.len() == seq_len * head_dim,
        v@.len() == seq_len * head_dim,
        seq_len <= alpha@.len(),
        seq_len <= beta@.len(),
        old(memory)@.len() == head_dim * head_dim,
    ensures
        final(memory)@ == memory_after_steps(
            old(memory)@,
            k@,
            v@,
            alpha@,
            beta@,
            head_dim as nat,
            seq_len as nat,
        ),
        final(memory)@.len() == head_dim * head_dim,
        r@ == ops::blocks(
            seq_len as nat,
            |t: int|
                step_output(old(memory)@, q@, k@, v@, alpha@, beta@, head_dim as nat, t),
        ),
        r@.len() == seq_len * head_dim,
{
    let ghost start = memory@;
    let ghost f = |t: int|
        step_output(start, q@, k@, v@, alpha@, beta@, head_dim as nat, t);
    let mut output: Vec<T> = Vec::new();
    for t in 0..seq_len
        invariant
            scalar::arithmetic::<T>(),
            q@.len() == seq_len * head_dim,
            k@.len() == seq_len * head_dim,
            v@.len() == seq_len * head_dim,
            seq_len <= alpha@.len(),
            seq_len <= beta@.len(),
            memory@.len() == head_dim * head_dim,
            memory@ == memory_after_steps(
                start,
                k@,
                v@,
                alpha@,
                beta@,
                head_dim as nat,
                t as nat,
            ),
            f == (|t: int| step_output(start, q@, k@, v@, alpha@, beta@, head_dim as nat, t)),
            output@ == ops::blocks(t as nat, f),
    {
        proof {
            ops::lemma_row_bounds(t as int, seq_len as int, head_dim as int);
        }
        let o = deltanet_step(
            row_slice(q, t, head_dim),
            row_slice(k, t, head_dim),
            row_slice(v, t, head_dim),
            alpha[t],
            beta[t],
            memory,
            head_dim,
        );
        extend(&mut output, o.as_slice());
        assert(output@ =~= ops::blocks((t + 1) as nat, f));
    }
    proof {
        ops::lemma_blocks_len(seq_len as nat, f, head_dim as nat);
    }
    output
}

} // verus!
