//! Normalisation as a model's configuration selects it.

use vstd::prelude::*;

use crate::buffer::{copy_slice, extend};
use crate::config::NormConfig;
use crate::ops;
use crate::ops::{layer_normalize, rms_normalize, row_slice};
use crate::scalar;
use crate::scalar::{Math, Scalar};

verus! {

/// A row under the normalisation `norm` with the weight `w`.
pub open spec fn normed_row<T: Scalar, M: Math<T>>(norm: NormConfig, x: Seq<T>, w: Seq<T>) -> Seq<
    T,
> {
    match norm {
        NormConfig::RMSNorm { eps } => ops::rms_row::<T, M>(
            x,
            w,
            scalar::binary64_of::<T, M>(eps.bits),
        ),
        NormConfig::LayerNorm { eps } => ops::layer_row::<T, M>(
            x,
            w,
            scalar::binary64_of::<T, M>(eps.bits),
        ),
    }
}

/// Each of `rows` rows of `h` elements under a normalisation.
pub open spec fn normed<T: Scalar, M: Math<T>>(
    norm: NormConfig,
    x: Seq<T>,
    w: Seq<T>,
    h: nat,
    rows: nat,
) -> Seq<T> {
    ops::blocks(rows, |i: int| normed_row::<T, M>(norm, ops::row(x, i, h as int), w))
}

/// Normalises one row.
pub fn normalize_row<T: Scalar, M: Math<T>>(norm: NormConfig, x: &[T], w: &[T]) -> (r: Vec<T>)
    requires
        scalar::mathematics::<T, M>(),
        x@.len() <= w@.len(),
    ensures
        r@ == normed_row::<T, M>(norm, x@, w@),
        r@.len() == x@.len(),
{
    match norm {
        NormConfig::RMSNorm { eps } => rms_normalize::<T, M>(x, w, M::from_binary64(eps.bits)),
        NormConfig::LayerNorm { eps } => layer_normalize::<T, M>(
            x,
            w,
            M::from_binary64(eps.bits),
        ),
    }
}

/// Normalises each of `rows` rows of `h` elements.
pub fn apply_norm<T: Scalar, M: Math<T>>(
    x: &[T],
    w: &[T],
    norm: NormConfig,
    h: usize,
    rows: usize,
) -> (r: Vec<T>)
    requires
        scalar::mathematics::<T, M>(),
        x@.len() == rows * h,
        h <= w@.len(),
    ensures
        r@ == normed::<T, M>(norm, x@, w@, h as nat, rows as nat),
        r@.len() == rows * h,
{
    let ghost f = |i: int| normed_row::<T, M>(norm, ops::row(x@, i, h as int), w@);
    let mut out: Vec<T> = Vec::with_capacity(x.len());
    for i in 0..rows
        invariant
            scalar::mathematics::<T, M>(),
            x@.len() == rows * h,
            h <= w@.len(),
            f == (|i: int| normed_row::<T, M>(norm, ops::row(x@, i, h as int), w@)),
            out@ == ops::blocks(i as nat, f),
    {
        proof {
            ops::lemma_row_bounds(i as int, rows as int, h as int);
        }
        let y = normalize_row::<T, M>(norm, row_slice(x, i, h), w);
        extend(&mut out, y.as_slice());
        assert(out@ =~= ops::blocks((i + 1) as nat, f));
    }
    proof {
        assert forall|i: int| 0 <= i < rows implies #[trigger] f(i).len() == h by {
            ops::lemma_row_bounds(i, rows as int, h as int);
        }
        ops::lemma_blocks_len(rows as nat, f, h as nat);
    }
    out
}

/// A row of heads, each under root-mean-square normalisation; an empty weight
/// changes nothing.
pub open spec fn head_normed_row<T: Scalar, M: Math<T>>(
    x: Seq<T>,
    w: Seq<T>,
    heads: nat,
    head_dim: nat,
    eps: T,
) -> Seq<T> {
    if w.len() == 0 {
        x
    } else {
        ops::blocks(
            heads,
            |h: int| ops::rms_row::<T, M>(ops::row(x, h, head_dim as int), w, eps),
        )
    }
}

/// Normalising the heads of a row keeps its length.
pub proof fn lemma_head_normed_len<T: Scalar, M: Math<T>>(
    x: Seq<T>,
    w: Seq<T>,
    heads: nat,
    head_dim: nat,
    eps: T,
)
    requires
        x.len() == heads * head_dim,
    ensures
        head_normed_row::<T, M>(x, w, heads, head_dim, eps).len() == heads * head_dim,
{
    if w.len() > 0 {
        let f = |h: int| ops::rms_row::<T, M>(ops::row(x, h, head_dim as int), w, eps);
        assert forall|h: int| 0 <= h < heads implies #[trigger] f(h).len() == head_dim by {
            ops::lemma_row_bounds(h, heads as int, head_dim as int);
        }
        ops::lemma_blocks_len(heads, f, head_dim);
    }
}

/// Normalises each head of a row. Without a weight the row stays as it is.
pub fn normalize_heads<T: Scalar, M: Math<T>>(
    x: &[T],
    w: &[T],
    heads: usize,
    head_dim: usize,
    eps: T,
) -> (r: Vec<T>)
    requires
        scalar::mathematics::<T, M>(),
        x@.len() == heads * head_dim,
        w@.len() == 0 || head_dim <= w@.len(),
    ensures
        r@ == head_normed_row::<T, M>(x@, w@, heads as nat, head_dim as nat, eps),
        r@.len() == heads * head_dim,
{
    if w.len() == 0 {
        copy_slice(x)
    } else {
        ops::rmsnorm::<T, M>(x, w, eps, head_dim, heads)
    }
}

/// The headwise normalisation of `rows` rows.
pub open spec fn head_normed<T: Scalar, M: Math<T>>(
    x: Seq<T>,
    w: Seq<T>,
    rows: nat,
    heads: nat,
    head_dim: nat,
    eps: T,
) -> Seq<T> {
    ops::blocks(
        rows,
        |i: int|
            head_normed_row::<T, M>(
                ops::row(x, i, (heads * head_dim) as int),
                w,
                heads,
                head_dim,
                eps,
            ),
    )
}

/// Normalises each head of each row.
pub fn apply_headwise_rmsnorm<T: Scalar, M: Math<T>>(
    x: &[T],
    w: &[T],
    rows: usize,
    heads: usize,
    head_dim: usize,
    eps: T,
) -> (r: Vec<T>)
    requires
        scalar::mathematics::<T, M>(),
        heads * head_dim <= usize::MAX,
        x@.len() == rows * (heads * head_dim),
        w@.len() == 0 || head_dim <= w@.len(),
    ensures
        r@ == head_normed::<T, M>(x@, w@, rows as nat, heads as nat, head_dim as nat, eps),
        r@.len() == rows * (heads * head_dim),
{
    let width = heads * head_dim;
    let ghost f = |i: int|
        head_normed_row::<T, M>(
            ops::row(x@, i, width as int),
            w@,
            heads as nat,
            head_dim as nat,
            eps,
        );
    let mut out: Vec<T> = Vec::with_capacity(x.len());
    for i in 0..rows
        invariant
            scalar::mathematics::<T, M>(),
            width == heads * head_dim,
            x@.len() == rows * width,
            w@.len() == 0 || head_dim <= w@.len(),
            f == (|i: int|
                head_normed_row::<T, M>(
                    ops::row(x@, i, width as int),
                    w@,
                    heads as nat,
                    head_dim as nat,
                    eps,
                )),
            out@ == ops::blocks(i as nat, f),
    {
        proof {
            ops::lemma_row_bounds(i as int, rows as int, width as int);
        }
        let y = normalize_heads::<T, M>(row_slice(x, i, width), w, heads, head_dim, eps);
        extend(&mut out, y.as_slice());
        assert(out@ =~= ops::blocks((i + 1) as nat, f));
    }
    proof {
        assert forall|i: int| 0 <= i < rows implies #[trigger] f(i).len() == width by {
            ops::lemma_row_bounds(i, rows as int, width as int);
            lemma_head_normed_len::<T, M>(
                ops::row(x@, i, width as int),
                w@,
                heads as nat,
                head_dim as nat,
                eps,
            );
        }
        ops::lemma_blocks_len(rows as nat, f, width as nat);
    }
    out
}

} // verus!
