//! Rotary position embeddings.

use vstd::prelude::*;

use crate::buffer::extend;
use crate::config::RoPEStyle;
use crate::laws::equations;
use crate::laws::kernels;
use crate::ops;
use crate::ops::row_slice;
use crate::scalar;
use crate::scalar::Scalar;

verus! {

/// Element `j` of a head after rotation by the angles whose cosines and sines
/// are given.
pub open spec fn rotated_element<T: Scalar>(
    x: Seq<T>,
    cos: Seq<T>,
    sin: Seq<T>,
    style: RoPEStyle,
    j: int,
) -> T {
    let half = x.len() as int / 2;
    match style {
        RoPEStyle::RotateHalf => if j < half {
            scalar::minus(scalar::times(x[j], cos[j]), scalar::times(x[j + half], sin[j]))
        } else if j < 2 * half {
            scalar::plus(
                scalar::times(x[j], cos[j - half]),
                scalar::times(x[j - half], sin[j - half]),
            )
        } else {
            x[j]
        },
        RoPEStyle::Interleaved => if j < 2 * half {
            if j % 2 == 0 {
                scalar::minus(
                    scalar::times(x[j], cos[j / 2]),
                    scalar::times(x[j + 1], sin[j / 2]),
                )
            } else {
                scalar::plus(
                    scalar::times(x[j], cos[j / 2]),
                    scalar::times(x[j - 1], sin[j / 2]),
                )
            }
        } else {
            x[j]
        },
    }
}

/// A head after rotation.
pub open spec fn rotated_head<T: Scalar>(
    x: Seq<T>,
    cos: Seq<T>,
    sin: Seq<T>,
    style: RoPEStyle,
) -> Seq<T> {
    Seq::new(x.len(), |j: int| rotated_element(x, cos, sin, style, j))
}

/// A row of heads after rotation by the angles of position `pos`.
pub open spec fn rotated_row<T: Scalar>(
    x: Seq<T>,
    cos: Seq<T>,
    sin: Seq<T>,
    heads: nat,
    head_dim: nat,
    pos: int,
    style: RoPEStyle,
) -> Seq<T> {
    let half = head_dim as int / 2;
    ops::blocks(
        heads,
        |h: int|
            rotated_head(
                ops::row(x, h, head_dim as int),
                ops::row(cos, pos, half),
                ops::row(sin, pos, half),
                style,
            ),
    )
}

/// Row `t` rotated by the angles of position `start + t`.
pub open spec fn rotated<T: Scalar>(
    x: Seq<T>,
    cos: Seq<T>,
    sin: Seq<T>,
    rows: nat,
    heads: nat,
    head_dim: nat,
    start: int,
    style: RoPEStyle,
) -> Seq<T> {
    ops::blocks(
        rows,
        |t: int|
            rotated_row(
                ops::row(x, t, (heads * head_dim) as int),
                cos,
                sin,
                heads,
                head_dim,
                start + t,
                style,
            ),
    )
}

fn rotate_head<T: Scalar>(x: &[T], cos: &[T], sin: &[T], style: RoPEStyle) -> (r: Vec<T>)
    requires
        scalar::arithmetic::<T>(),
        cos@.len() == x@.len() / 2,
        sin@.len() == x@.len() / 2,
    ensures
        r@ == rotated_head(x@, cos@, sin@, style),
{
    let n = x.len();
    let half = n / 2;
    let mut out: Vec<T> = Vec::with_capacity(n);
    for j in 0..n
        invariant
            scalar::arithmetic::<T>(),
            n == x@.len(),
            half == n / 2,
            cos@.len() == half,
            sin@.len() == half,
            out@ == Seq::new(j as nat, |j: int| rotated_element(x@, cos@, sin@, style, j)),
    {
        let y = match style {
            RoPEStyle::RotateHalf => if j < half {
                x[j] * cos[j] - x[j + half] * sin[j]
            } else if j < 2 * half {
                x[j] * cos[j - half] + x[j - half] * sin[j - half]
            } else {
                x[j]
            },
            RoPEStyle::Interleaved => if j < 2 * half {
                if j % 2 == 0 {
                    x[j] * cos[j / 2] - x[j + 1] * sin[j / 2]
                } else {
                    x[j] * cos[j / 2] + x[j - 1] * sin[j / 2]
                }
            } else {
                x[j]
            },
        };
        out.push(y);
        assert(out@ =~= Seq::new(
            (j + 1) as nat,
            |j: int| rotated_element(x@, cos@, sin@, style, j),
        ));
    }
    out
}

pub proof fn lemma_rotated_row_len<T: Scalar>(
    x: Seq<T>,
    cos: Seq<T>,
    sin: Seq<T>,
    heads: nat,
    head_dim: nat,
    pos: int,
    style: RoPEStyle,
)
    requires
        x.len() == heads * head_dim,
    ensures
        rotated_row(x, cos, sin, heads, head_dim, pos, style).len() == heads * head_dim,
{
    let half = head_dim as int / 2;
    let f = |h: int|
        rotated_head(
            ops::row(x, h, head_dim as int),
            ops::row(cos, pos, half),
            ops::row(sin, pos, half),
            style,
        );
    assert forall|h: int| 0 <= h < heads implies #[trigger] f(h).len() == head_dim by {
        ops::lemma_row_bounds(h, heads as int, head_dim as int);
    }
    ops::lemma_blocks_len(heads, f, head_dim);
}

/// Rotates the heads of one row that stands at position `pos`.
pub fn rotate_row<T: Scalar>(
    x: &[T],
    cos: &[T],
    sin: &[T],
    heads: usize,
    head_dim: usize,
    pos: usize,
    style: RoPEStyle,
) -> (r: Vec<T>)
    requires
        scalar::arithmetic::<T>(),
        x@.len() == heads * head_dim,
        (pos + 1) * (head_dim / 2) <= cos@.len(),
        (pos + 1) * (head_dim / 2) <= sin@.len(),
    ensures
        r@ == rotated_row(x@, cos@, sin@, heads as nat, head_dim as nat, pos as int, style),
        equations::is_turned(
            r@,
            x@,
            cos@,
            sin@,
            heads as nat,
            head_dim as nat,
            pos as int,
            style,
        ),
        r@.len() == heads * head_dim,
{
    let half = head_dim / 2;
    let c = row_slice(cos, pos, half);
    let s = row_slice(sin, pos, half);
    let ghost f = |h: int|
        rotated_head(
            ops::row(x@, h, head_dim as int),
            ops::row(cos@, pos as int, half as int),
            ops::row(sin@, pos as int, half as int),
            style,
        );
    let mut out: Vec<T> = Vec::with_capacity(x.len());
    for h in 0..heads
        invariant
            scalar::arithmetic::<T>(),
            x@.len() == heads * head_dim,
            half == head_dim / 2,
            c@ == ops::row(cos@, pos as int, half as int),
            s@ == ops::row(sin@, pos as int, half as int),
            c@.len() == half,
            s@.len() == half,
            f == (|h: int|
                rotated_head(
                    ops::row(x@, h, head_dim as int),
                    ops::row(cos@, pos as int, half as int),
                    ops::row(sin@, pos as int, half as int),
                    style,
                )),
            out@ == ops::blocks(h as nat, f),
    {
        proof {
            ops::lemma_row_bounds(h as int, heads as int, head_dim as int);
        }
        let y = rotate_head(row_slice(x, h, head_dim), c, s, style);
        extend(&mut out, y.as_slice());
        assert(out@ =~= ops::blocks((h + 1) as nat, f));
    }
    proof {
        lemma_rotated_row_len(
            x@,
            cos@,
            sin@,
            heads as nat,
            head_dim as nat,
            pos as int,
            style,
        );
    }
    proof {
        kernels::lemma_turned(
            out@,
            x@,
            cos@,
            sin@,
            heads as nat,
            head_dim as nat,
            pos as int,
            style,
        );
    }
    out
}

/// Rotates every head of every row; row `t` stands at position `start + t`.
///
/// `cos` and `sin` hold a row of `head_dim / 2` values for each position.
pub fn apply_rope_inplace<T: Scalar>(
    x: &mut Vec<T>,
    cos: &[T],
    sin: &[T],
    rows: usize,
    heads: usize,
    head_dim: usize,
    start: usize,
    style: RoPEStyle,
)
    requires
        scalar::arithmetic::<T>(),
        old(x)@.len() == rows * (heads * head_dim),
        heads * head_dim <= usize::MAX,
        start + rows <= usize::MAX,
        (start + rows) * (head_dim / 2) <= cos@.len(),
        (start + rows) * (head_dim / 2) <= sin@.len(),
    ensures
        final(x)@ == rotated(
            old(x)@,
            cos@,
            sin@,
            rows as nat,
            heads as nat,
            head_dim as nat,
            start as int,
            style,
        ),
        final(x)@.len() == rows * (heads * head_dim),
{
    let w = heads * head_dim;
    let ghost from = x@;
    let ghost f = |t: int|
        rotated_row(
            ops::row(from, t, w as int),
            cos@,
            sin@,
            heads as nat,
            head_dim as nat,
            start + t,
            style,
        );
    let mut out: Vec<T> = Vec::with_capacity(x.len());
    for t in 0..rows
        invariant
            scalar::arithmetic::<T>(),
            x@ == from,
            w == heads * head_dim,
            from.len() == rows * w,
            start + rows <= usize::MAX,
            (start + rows) * (head_dim / 2) <= cos@.len(),
            (start + rows) * (head_dim / 2) <= sin@.len(),
            f == (|t: int|
                rotated_row(
                    ops::row(from, t, w as int),
                    cos@,
                    sin@,
                    heads as nat,
                    head_dim as nat,
                    start + t,
                    style,
                )),
            out@ == ops::blocks(t as nat, f),
    {
        proof {
            ops::lemma_row_bounds(t as int, rows as int, w as int);
            ops::lemma_row_bounds(start + t, start + rows, (head_dim / 2) as int);
        }
        let y = rotate_row(
            row_slice(x.as_slice(), t, w),
            cos,
            sin,
            heads,
            head_dim,
            start + t,
            style,
        );
        extend(&mut out, y.as_slice());
        assert(out@ =~= ops::blocks((t + 1) as nat, f));
    }
    proof {
        assert forall|t: int| 0 <= t < rows implies #[trigger] f(t).len() == w by {
            ops::lemma_row_bounds(t, rows as int, w as int);
            lemma_rotated_row_len(
                ops::row(from, t, w as int),
                cos@,
                sin@,
                heads as nat,
                head_dim as nat,
                start + t,
                style,
            );
        }
        ops::lemma_blocks_len(rows as nat, f, w as nat);
    }
    *x = out;
}

} // verus!
