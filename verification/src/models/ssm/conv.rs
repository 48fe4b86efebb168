//! Depthwise convolution over time, one step at a time.

use vstd::prelude::*;

use crate::buffer::put_row;
use crate::ops;
use crate::ops::{dot_product, row_slice};
use crate::scalar;
use crate::scalar::Scalar;

verus! {

/// A channel's window after `x` came in: the oldest value leaves.
pub open spec fn shifted_window<T>(window: Seq<T>, x: T) -> Seq<T> {
    window.skip(1).push(x)
}

/// What a channel gives for its window.
pub open spec fn conv_value<T: Scalar>(
    window: Seq<T>,
    weight: Seq<T>,
    bias: Seq<T>,
    channel: int,
) -> T {
    let sum = ops::dot(window, weight, window.len());
    if bias.len() == 0 {
        sum
    } else {
        scalar::plus(sum, bias[channel])
    }
}

/// All channels' windows after a row came in.
pub open spec fn shifted_state<T>(state: Seq<T>, x: Seq<T>, kernel: nat) -> Seq<T> {
    ops::blocks(
        x.len(),
        |c: int| shifted_window(ops::row(state, c, kernel as int), x[c]),
    )
}

/// What all channels give once the row `x` came in.
pub open spec fn conv_row<T: Scalar>(
    state: Seq<T>,
    x: Seq<T>,
    weight: Seq<T>,
    bias: Seq<T>,
    kernel: nat,
) -> Seq<T> {
    Seq::new(
        x.len(),
        |c: int|
            conv_value(
                shifted_window(ops::row(state, c, kernel as int), x[c]),
                ops::row(weight, c, kernel as int),
                bias,
                c,
            ),
    )
}

pub proof fn lemma_shifted_state_len<T>(state: Seq<T>, x: Seq<T>, kernel: nat)
    requires
        kernel > 0,
        state.len() == x.len() * kernel,
    ensures
        shifted_state(state, x, kernel).len() == x.len() * kernel,
{
    let f = |c: int| shifted_window(ops::row(state, c, kernel as int), x[c]);
    assert forall|c: int| 0 <= c < x.len() implies #[trigger] f(c).len() == kernel by {
        ops::lemma_row_bounds(c, x.len() as int, kernel as int);
    }
    ops::lemma_blocks_len(x.len(), f, kernel);
}

/// Apply conv1d to a single channel, shifting the rolling state buffer
/// and computing the dot product with the kernel.
///
/// `conv_state` layout: `[channels, conv_kernel]`.
pub fn conv1d_step_single<T: Scalar>(
    x_val: T,
    channel: usize,
    conv_state: &mut Vec<T>,
    conv_weight: &[T],
    conv_bias: &[T],
    conv_kernel: usize,
) -> (r: T)
    requires
        scalar::arithmetic::<T>(),
        conv_kernel > 0,
        (channel + 1) * conv_kernel <= old(conv_state)@.len(),
        (channel + 1) * conv_kernel <= conv_weight@.len(),
        conv_bias@.len() == 0 || channel < conv_bias@.len(),
    ensures
        r == conv_value(
            shifted_window(
                ops::row(old(conv_state)@, channel as int, conv_kernel as int),
                x_val,
            ),
            ops::row(conv_weight@, channel as int, conv_kernel as int),
            conv_bias@,
            channel as int,
        ),
        final(conv_state)@.len() == old(conv_state)@.len(),
        final(conv_state)@.take(channel * conv_kernel) == old(conv_state)@.take(
            channel * conv_kernel,
        ),
        ops::row(final(conv_state)@, channel as int, conv_kernel as int) == shifted_window(
            ops::row(old(conv_state)@, channel as int, conv_kernel as int),
            x_val,
        ),
        final(conv_state)@.skip((channel + 1) * conv_kernel) == old(conv_state)@.skip(
            (channel + 1) * conv_kernel,
        ),
{
    let ghost start = conv_state@;
    let ghost old_window = ops::row(start, channel as int, conv_kernel as int);
    proof {
        ops::lemma_row_bounds(channel as int, channel + 1, conv_kernel as int);
    }
    let n = conv_state.len();
    let at = channel * conv_kernel;
    let mut window: Vec<T> = Vec::with_capacity(conv_kernel);
    for j in 1..conv_kernel
        invariant
            conv_state@ == start,
            at == channel * conv_kernel,
            at + conv_kernel <= n,
            n == start.len(),
            old_window == start.subrange(at as int, at + conv_kernel),
            window@ == old_window.subrange(1, j as int),
    {
        window.push(conv_state[at + j]);
        assert(window@ =~= old_window.subrange(1, j + 1));
    }
    window.push(x_val);
    assert(window@ =~= shifted_window(old_window, x_val));
    put_row(conv_state, channel, conv_kernel, window.as_slice());
    proof {
        let end = (channel + 1) * conv_kernel;
        assert(conv_state@.take(channel * conv_kernel) =~= conv_state@.take(end).take(
            channel * conv_kernel,
        ));
        assert(start.take(channel * conv_kernel) =~= conv_state@.take(end).take(
            channel * conv_kernel,
        ));
        assert(ops::row(conv_state@, channel as int, conv_kernel as int)
            =~= conv_state@.take(end).skip(channel * conv_kernel));
        assert(conv_state@.take(end).skip(channel * conv_kernel) =~= window@);
    }
    let w = row_slice(conv_weight, channel, conv_kernel);
    let sum = dot_product(window.as_slice(), w);
    if conv_bias.len() == 0 {
        sum
    } else {
        sum + conv_bias[channel]
    }
}

/// One step of all channels: takes in the row `x` and gives the row of their
/// values.
pub fn conv_step<T: Scalar>(
    x: &[T],
    conv_state: &mut Vec<T>,
    conv_weight: &[T],
    conv_bias: &[T],
    conv_kernel: usize,
) -> (r: Vec<T>)
    requires
        scalar::arithmetic::<T>(),
        conv_kernel > 0,
        old(conv_state)@.len() == x@.len() * conv_kernel,
        conv_weight@.len() == x@.len() * conv_kernel,
        conv_bias@.len() == 0 || x@.len() <= conv_bias@.len(),
    ensures
        r@ == conv_row(old(conv_state)@, x@, conv_weight@, conv_bias@, conv_kernel as nat),
        final(conv_state)@ == shifted_state(old(conv_state)@, x@, conv_kernel as nat),
        final(conv_state)@.len() == old(conv_state)@.len(),
{
    let channels = x.len();
    let ghost start = conv_state@;
    let ghost f = |c: int| shifted_window(ops::row(start, c, conv_kernel as int), x@[c]);
    let mut out: Vec<T> = Vec::with_capacity(channels);
    assert(conv_state@.take(0 * conv_kernel) =~= ops::blocks(0, f));
    assert(conv_state@.skip(0 * conv_kernel) =~= start.skip(0 * conv_kernel));
    for c in 0..channels
        invariant
            scalar::arithmetic::<T>(),
            conv_kernel > 0,
            channels == x@.len(),
            start.len() == channels * conv_kernel,
            conv_state@.len() == start.len(),
            conv_weight@.len() == channels * conv_kernel,
            conv_bias@.len() == 0 || channels <= conv_bias@.len(),
            f == (|c: int| shifted_window(ops::row(start, c, conv_kernel as int), x@[c])),
            conv_state@.take(c * conv_kernel) == ops::blocks(c as nat, f),
            conv_state@.skip(c * conv_kernel) == start.skip(c * conv_kernel),
            out@ == conv_row(start, x@, conv_weight@, conv_bias@, conv_kernel as nat).take(
                c as int,
            ),
    {
        let ghost held = conv_state@;
        proof {
            ops::lemma_row_bounds(c as int, channels as int, conv_kernel as int);
            assert(ops::row(held, c as int, conv_kernel as int) =~= held.skip(
                c * conv_kernel,
            ).take(conv_kernel as int));
            assert(ops::row(start, c as int, conv_kernel as int) =~= start.skip(
                c * conv_kernel,
            ).take(conv_kernel as int));
        }
        let y = conv1d_step_single(x[c], c, conv_state, conv_weight, conv_bias, conv_kernel);
        out.push(y);
        proof {
            let end = (c + 1) * conv_kernel;
            assert(conv_state@.take(end) =~= conv_state@.take(c * conv_kernel) + ops::row(
                conv_state@,
                c as int,
                conv_kernel as int,
            ));
            assert(held.skip(end) =~= held.skip(c * conv_kernel).skip(conv_kernel as int));
            assert(start.skip(end) =~= start.skip(c * conv_kernel).skip(conv_kernel as int));
            assert(out@ =~= conv_row(
                start,
                x@,
                conv_weight@,
                conv_bias@,
                conv_kernel as nat,
            ).take(c + 1));
        }
    }
    assert(conv_state@.take(channels * conv_kernel) =~= conv_state@);
    assert(out@ =~= conv_row(start, x@, conv_weight@, conv_bias@, conv_kernel as nat));
    out
}

} // verus!
