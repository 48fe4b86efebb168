//! Equations between the elements of rows.

use vstd::prelude::*;

use crate::config::{NormConfig, RoPEStyle};
use crate::packed;
use crate::packed::PackedLinear;
use crate::scalar;
use crate::scalar::{Math, Scalar};

verus! {

/// `f(0) + f(1) + ... + f(n - 1)`, added up from zero in this order.
pub open spec fn sigma<T: Scalar>(n: nat, f: spec_fn(int) -> T) -> T
    decreases n,
{
    if n == 0 {
        scalar::zero()
    } else {
        scalar::plus(sigma((n - 1) as nat, f), f(n - 1))
    }
}

/// The largest of `f(0)`, ..., `f(n - 1)`, compared in this order.
pub open spec fn maximum<T, M: Math<T>>(n: nat, f: spec_fn(int) -> T) -> T
    decreases n,
{
    if n == 0 {
        scalar::lowest::<T, M>()
    } else {
        scalar::max_of::<T, M>(maximum::<T, M>((n - 1) as nat, f), f(n - 1))
    }
}

/// `y[j] = sum of x[i] * w[j, i] over i`, plus `b[j]` where there is a bias.
pub open spec fn is_linear<T: Scalar>(
    y: Seq<T>,
    x: Seq<T>,
    w: Seq<T>,
    b: Seq<T>,
    k: nat,
    n: nat,
) -> bool {
    &&& y.len() == n
    &&& forall|j: int|
        0 <= j < n ==> #[trigger] y[j] == {
            let s = sigma(k, |i: int| scalar::times(x[i], w[j * k + i]));
            if b.len() == 0 {
                s
            } else {
                scalar::plus(s, b[j])
            }
        }
}

/// `y[i] = a[i] + b[i]`.
pub open spec fn is_sum<T: Scalar>(y: Seq<T>, a: Seq<T>, b: Seq<T>) -> bool {
    &&& y.len() == a.len() == b.len()
    &&& forall|i: int| 0 <= i < y.len() ==> #[trigger] y[i] == scalar::plus(a[i], b[i])
}

/// `y[i] = a[i] * b[i]`.
pub open spec fn is_product<T: Scalar>(y: Seq<T>, a: Seq<T>, b: Seq<T>) -> bool {
    &&& y.len() == a.len() == b.len()
    &&& forall|i: int| 0 <= i < y.len() ==> #[trigger] y[i] == scalar::times(a[i], b[i])
}

/// `y[i] = silu(x[i])`.
pub open spec fn is_silu<T, M: Math<T>>(y: Seq<T>, x: Seq<T>) -> bool {
    &&& y.len() == x.len()
    &&& forall|i: int| 0 <= i < y.len() ==> #[trigger] y[i] == scalar::silu_of::<T, M>(x[i])
}

/// `y[i] = gelu(x[i])`.
pub open spec fn is_gelu<T, M: Math<T>>(y: Seq<T>, x: Seq<T>) -> bool {
    &&& y.len() == x.len()
    &&& forall|i: int| 0 <= i < y.len() ==> #[trigger] y[i] == scalar::gelu_of::<T, M>(x[i])
}

/// One over the root of the mean square of `f(0)`, ..., `f(n - 1)`.
pub open spec fn inverse_rms<T: Scalar, M: Math<T>>(n: nat, f: spec_fn(int) -> T, eps: T) -> T {
    scalar::over(
        scalar::one::<T, M>(),
        scalar::sqrt_of::<T, M>(
            scalar::plus(
                scalar::over(
                    sigma(n, |i: int| scalar::times(f(i), f(i))),
                    scalar::count_of::<T, M>(n as usize),
                ),
                eps,
            ),
        ),
    )
}

/// `y[j] = x[j] / sqrt(mean(x^2) + eps) * w[j]`.
pub open spec fn is_rms<T: Scalar, M: Math<T>>(
    y: Seq<T>,
    x: Seq<T>,
    w: Seq<T>,
    eps: T,
) -> bool {
    let s = inverse_rms::<T, M>(x.len(), |i: int| x[i], eps);
    &&& y.len() == x.len()
    &&& forall|j: int|
        0 <= j < y.len() ==> #[trigger] y[j] == scalar::times(scalar::times(x[j], s), w[j])
}

/// `y[j] = (x[j] - mean(x)) / sqrt(var(x) + eps) * w[j]`, plus `b[j]` where
/// there is a bias.
pub open spec fn is_layer_norm<T: Scalar, M: Math<T>>(
    y: Seq<T>,
    x: Seq<T>,
    w: Seq<T>,
    b: Seq<T>,
    eps: T,
) -> bool {
    let n = x.len();
    let mean = scalar::over(sigma(n, |i: int| x[i]), scalar::count_of::<T, M>(n as usize));
    let s = inverse_rms::<T, M>(n, |i: int| scalar::minus(x[i], mean), eps);
    &&& y.len() == n
    &&& forall|j: int|
        0 <= j < n ==> #[trigger] y[j] == {
            let e = scalar::times(scalar::times(scalar::minus(x[j], mean), s), w[j]);
            if b.len() == 0 {
                e
            } else {
                scalar::plus(e, b[j])
            }
        }
}

/// `y` is `x` with each head turned by the angles of position `pos`: the tables
/// hold the cosine and sine of dimension `i` at position `pos` under
/// `pos * (d / 2) + i`.
pub open spec fn is_turned<T: Scalar>(
    y: Seq<T>,
    x: Seq<T>,
    cos: Seq<T>,
    sin: Seq<T>,
    heads: nat,
    d: nat,
    pos: int,
    style: RoPEStyle,
) -> bool {
    let half = d as int / 2;
    &&& y.len() == heads * d
    &&& forall|h: int, j: int|
        #![trigger y[h * d + j]]
        0 <= h < heads && 0 <= j < d ==> {
            let at = h * d + j;
            let (i, other, first) = match style {
                RoPEStyle::RotateHalf => if j < half {
                    (j, at + half, true)
                } else {
                    (j - half, at - half, false)
                },
                RoPEStyle::Interleaved => if j % 2 == 0 {
                    (j / 2, at + 1, true)
                } else {
                    (j / 2, at - 1, false)
                },
            };
            let c = cos[pos * half + i];
            let s = sin[pos * half + i];
            y[at] == if j >= 2 * half {
                x[at]
            } else if first {
                scalar::minus(scalar::times(x[at], c), scalar::times(x[other], s))
            } else {
                scalar::plus(scalar::times(x[at], c), scalar::times(x[other], s))
            }
        }
}

/// Weight `i` of the softmax of `f(0)`, ..., `f(n - 1)`.
pub open spec fn softmax_at<T: Scalar, M: Math<T>>(n: nat, f: spec_fn(int) -> T, i: int) -> T {
    let top = maximum::<T, M>(n, f);
    let e = |k: int| scalar::exp_of::<T, M>(scalar::minus(f(k), top));
    let sum = sigma(n, e);
    if scalar::is_greater::<T, M>(sum, scalar::zero()) {
        scalar::over(e(i), sum)
    } else {
        e(i)
    }
}

/// How well query head `h` matches the key at `s`: their product over the root
/// of the head's width. Query heads share key heads in groups.
pub open spec fn match_of<T: Scalar, M: Math<T>>(
    q: Seq<T>,
    keys: Seq<T>,
    heads: int,
    kv_heads: int,
    d: usize,
    h: int,
    s: int,
) -> T {
    let g = h / (heads / kv_heads);
    scalar::times(
        sigma(
            d as nat,
            |i: int|
                scalar::times(q[h * d + i], keys[s * (kv_heads * d) + g * d + i]),
        ),
        scalar::over(
            scalar::one::<T, M>(),
            scalar::sqrt_of::<T, M>(scalar::count_of::<T, M>(d)),
        ),
    )
}

/// `y` is what a query row sees of the `n` keys and values from `start` on: the
/// values, weighted by the softmax of how well the keys match.
pub open spec fn is_attention<T: Scalar, M: Math<T>>(
    y: Seq<T>,
    q: Seq<T>,
    keys: Seq<T>,
    values: Seq<T>,
    heads: usize,
    kv_heads: usize,
    d: usize,
    start: int,
    n: nat,
) -> bool {
    &&& y.len() == heads * d
    &&& forall|h: int, j: int|
        #![trigger y[h * d + j]]
        0 <= h < heads && 0 <= j < d ==> {
            let g = h / (heads as int / kv_heads as int);
            let f = |s: int|
                match_of::<T, M>(q, keys, heads as int, kv_heads as int, d, h, start + s);
            y[h * d + j] == sigma(
                n,
                |s: int|
                    scalar::times(
                        softmax_at::<T, M>(n, f, s),
                        values[(start + s) * (kv_heads * d) + g * d + j],
                    ),
            )
        }
}

/// Row `t` of a matrix whose rows have `w` elements.
pub open spec fn line<T>(x: Seq<T>, t: int, w: int) -> Seq<T> {
    x.subrange(t * w, t * w + w)
}

/// `y` is `x` under the normalisation that a model is configured with.
pub open spec fn is_normed<T: Scalar, M: Math<T>>(
    y: Seq<T>,
    norm: NormConfig,
    x: Seq<T>,
    w: Seq<T>,
) -> bool {
    match norm {
        NormConfig::RMSNorm { eps } => is_rms::<T, M>(
            y,
            x,
            w,
            scalar::binary64_of::<T, M>(eps.bits),
        ),
        NormConfig::LayerNorm { eps } => is_layer_norm::<T, M>(
            y,
            x,
            w,
            Seq::empty(),
            scalar::binary64_of::<T, M>(eps.bits),
        ),
    }
}

/// Each head of `y` is that head of `x` under root-mean-square normalisation;
/// without a weight `y` is `x`.
pub open spec fn is_head_normed<T: Scalar, M: Math<T>>(
    y: Seq<T>,
    x: Seq<T>,
    w: Seq<T>,
    heads: nat,
    d: nat,
    eps: T,
) -> bool {
    if w.len() == 0 {
        y == x
    } else {
        &&& y.len() == heads * d
        &&& forall|h: int|
            0 <= h < heads ==> is_rms::<T, M>(
                #[trigger] line(y, h, d as int),
                line(x, h, d as int),
                w,
                eps,
            )
    }
}

/// `m` is `alpha * memory + beta * v k^T`, with `d` rows and columns.
pub open spec fn is_remembered<T: Scalar>(
    m: Seq<T>,
    memory: Seq<T>,
    k: Seq<T>,
    v: Seq<T>,
    alpha: T,
    beta: T,
    d: nat,
) -> bool {
    &&& m.len() == d * d
    &&& forall|i: int, j: int|
        #![trigger m[i * d + j]]
        0 <= i < d && 0 <= j < d ==> m[i * d + j] == scalar::plus(
            scalar::times(alpha, memory[i * d + j]),
            scalar::times(scalar::times(beta, v[i]), k[j]),
        )
}

/// `s` is the state of a convolution after it has taken `x`: each channel's
/// window has dropped its oldest element and ends with the new one.
pub open spec fn is_window<T>(s: Seq<T>, state: Seq<T>, x: Seq<T>, kernel: nat) -> bool {
    &&& s.len() == x.len() * kernel
    &&& forall|c: int, i: int|
        #![trigger s[c * kernel + i]]
        0 <= c < x.len() && 0 <= i < kernel ==> s[c * kernel + i] == if i == kernel - 1 {
            x[c]
        } else {
            state[c * kernel + i + 1]
        }
}

/// `y[c]` is channel `c` of the window `s` times the channel's weights, plus
/// the channel's bias where there is one.
pub open spec fn is_convolved<T: Scalar>(
    y: Seq<T>,
    s: Seq<T>,
    w: Seq<T>,
    b: Seq<T>,
    channels: nat,
    kernel: nat,
) -> bool {
    &&& y.len() == channels
    &&& forall|c: int|
        0 <= c < channels ==> #[trigger] y[c] == {
            let sum = sigma(
                kernel,
                |i: int| scalar::times(s[c * kernel + i], w[c * kernel + i]),
            );
            if b.len() == 0 {
                sum
            } else {
                scalar::plus(sum, b[c])
            }
        }
}

/// `h` is the state of a selective scan after one token:
/// `h[i, j] = exp(delta[i] * -exp(a_log[i, j])) * state[i, j] + delta[i] * b[j] * x[i]`.
pub open spec fn is_scanned<T: Scalar, M: Math<T>>(
    h: Seq<T>,
    state: Seq<T>,
    x: Seq<T>,
    delta: Seq<T>,
    b: Seq<T>,
    a_log: Seq<T>,
) -> bool {
    let n = b.len();
    &&& h.len() == x.len() * n
    &&& forall|i: int, j: int|
        #![trigger h[i * n + j]]
        0 <= i < x.len() && 0 <= j < n ==> {
            let a = scalar::negated(scalar::exp_of::<T, M>(a_log[i * n + j]));
            h[i * n + j] == scalar::plus(
                scalar::times(
                    scalar::exp_of::<T, M>(scalar::times(delta[i], a)),
                    state[i * n + j],
                ),
                scalar::times(scalar::times(delta[i], b[j]), x[i]),
            )
        }
}

/// `y[i] = sum of c[j] * h[i, j] over j, plus d[i] * x[i]`.
pub open spec fn is_scan_read<T: Scalar>(
    y: Seq<T>,
    h: Seq<T>,
    x: Seq<T>,
    c: Seq<T>,
    d: Seq<T>,
) -> bool {
    &&& y.len() == x.len()
    &&& forall|i: int|
        0 <= i < x.len() ==> #[trigger] y[i] == scalar::plus(
            sigma(c.len(), |j: int| scalar::times(c[j], h[i * c.len() + j])),
            scalar::times(d[i], x[i]),
        )
}

/// `1 / (1 + exp(-x))`.
pub open spec fn sigmoid<T: Scalar, M: Math<T>>(x: T) -> T {
    scalar::over(
        scalar::one::<T, M>(),
        scalar::plus(scalar::one::<T, M>(), scalar::exp_of::<T, M>(scalar::negated(x))),
    )
}

/// `y` is `x` over its length, which counts as at least 1e-12.
pub open spec fn is_unit<T: Scalar, M: Math<T>>(y: Seq<T>, x: Seq<T>) -> bool {
    let len = scalar::max_of::<T, M>(
        scalar::sqrt_of::<T, M>(sigma(x.len(), |j: int| scalar::times(x[j], x[j]))),
        scalar::binary64_of::<T, M>(0x3D71_9799_812D_EA11),
    );
    &&& y.len() == x.len()
    &&& forall|i: int| 0 <= i < y.len() ==> #[trigger] y[i] == scalar::over(x[i], len)
}

/// `y` is a row under a linear map without bias; a packed copy of the weights
/// takes their place.
pub open spec fn is_gemv<T: Scalar, Q: PackedLinear<T>>(
    y: Seq<T>,
    x: Seq<T>,
    w: Seq<T>,
    q: Option<Q>,
    k: nat,
    n: nat,
) -> bool {
    match q {
        Some(q) => y == packed::packed_output(q, x, 1),
        None => is_linear(y, x, w, Seq::empty(), k, n),
    }
}

/// Each row of `y` is the row of `x` under one linear map.
pub open spec fn are_linear<T: Scalar>(
    y: Seq<T>,
    x: Seq<T>,
    w: Seq<T>,
    b: Seq<T>,
    rows: nat,
    k: nat,
    n: nat,
) -> bool {
    &&& y.len() == rows * n
    &&& forall|t: int|
        0 <= t < rows ==> is_linear(
            #[trigger] line(y, t, n as int),
            line(x, t, k as int),
            w,
            b,
            k,
            n,
        )
}

/// Each row of `y` is the row of `x` under layer normalisation.
pub open spec fn are_layer_normed<T: Scalar, M: Math<T>>(
    y: Seq<T>,
    x: Seq<T>,
    w: Seq<T>,
    b: Seq<T>,
    eps: T,
    h: nat,
    rows: nat,
) -> bool {
    &&& y.len() == rows * h
    &&& forall|t: int|
        0 <= t < rows ==> is_layer_norm::<T, M>(
            #[trigger] line(y, t, h as int),
            line(x, t, h as int),
            w,
            b,
            eps,
        )
}

/// Each row of `y` is the row of `x` under the configured normalisation.
pub open spec fn are_normed<T: Scalar, M: Math<T>>(
    y: Seq<T>,
    norm: NormConfig,
    x: Seq<T>,
    w: Seq<T>,
    h: nat,
    rows: nat,
) -> bool {
    &&& y.len() == rows * h
    &&& forall|t: int|
        0 <= t < rows ==> is_normed::<T, M>(
            #[trigger] line(y, t, h as int),
            norm,
            line(x, t, h as int),
            w,
        )
}

/// Each row of `y` is what that row of `q` sees: all the keys and values, or
/// with `causal` those up to its own.
pub open spec fn are_attending<T: Scalar, M: Math<T>>(
    y: Seq<T>,
    q: Seq<T>,
    keys: Seq<T>,
    values: Seq<T>,
    heads: usize,
    kv_heads: usize,
    d: usize,
    rows: nat,
    causal: bool,
) -> bool {
    &&& y.len() == rows * (heads * d)
    &&& forall|t: int|
        0 <= t < rows ==> is_attention::<T, M>(
            #[trigger] line(y, t, heads * d),
            line(q, t, heads * d),
            keys,
            values,
            heads,
            kv_heads,
            d,
            0,
            if causal {
                (t + 1) as nat
            } else {
                rows
            },
        )
}

/// The largest of the elements that the mask lets through.
pub open spec fn masked_maximum<T, M: Math<T>>(
    n: nat,
    f: spec_fn(int) -> T,
    mask: Seq<i64>,
) -> T
    decreases n,
{
    if n == 0 {
        scalar::lowest::<T, M>()
    } else {
        let before = masked_maximum::<T, M>((n - 1) as nat, f, mask);
        if mask[n - 1] != 0 && scalar::is_greater::<T, M>(f(n - 1), before) {
            f(n - 1)
        } else {
            before
        }
    }
}

/// The sum of `e` over the elements that are finite.
pub open spec fn finite_sigma<T: Scalar, M: Math<T>>(
    n: nat,
    f: spec_fn(int) -> T,
    e: spec_fn(int) -> T,
) -> T
    decreases n,
{
    if n == 0 {
        scalar::zero()
    } else {
        let before = finite_sigma::<T, M>((n - 1) as nat, f, e);
        if scalar::finite::<T, M>(f(n - 1)) {
            scalar::plus(before, e(n - 1))
        } else {
            before
        }
    }
}

/// Weight `s` of the softmax of the elements that the mask lets through; one
/// that is not finite weighs nothing.
pub open spec fn masked_softmax_at<T: Scalar, M: Math<T>>(
    n: nat,
    f: spec_fn(int) -> T,
    mask: Seq<i64>,
    s: int,
) -> T {
    let top = masked_maximum::<T, M>(n, f, mask);
    let e = |k: int| scalar::exp_of::<T, M>(scalar::minus(f(k), top));
    let sum = finite_sigma::<T, M>(n, f, e);
    let w = if scalar::finite::<T, M>(f(s)) {
        e(s)
    } else {
        scalar::zero()
    };
    if scalar::is_greater::<T, M>(sum, scalar::zero()) {
        scalar::over(w, sum)
    } else {
        w
    }
}

/// Each row of `y` is what that row of `q` sees of the keys and values that the
/// mask lets through.
pub open spec fn are_masked_attending<T: Scalar, M: Math<T>>(
    y: Seq<T>,
    q: Seq<T>,
    keys: Seq<T>,
    values: Seq<T>,
    heads: usize,
    d: usize,
    rows: nat,
    mask: Seq<i64>,
) -> bool {
    let w = heads * d;
    &&& y.len() == rows * w
    &&& forall|t: int, h: int, j: int|
        #![trigger line(y, t, w)[h * d + j]]
        0 <= t < rows && 0 <= h < heads && 0 <= j < d ==> {
            let f = |s: int|
                if mask[s] == 0 {
                    scalar::lowest::<T, M>()
                } else {
                    match_of::<T, M>(line(q, t, w), keys, heads as int, heads as int, d, h, s)
                };
            line(y, t, w)[h * d + j] == sigma(
                rows,
                |s: int|
                    scalar::times(
                        masked_softmax_at::<T, M>(rows, f, mask, s),
                        values[s * w + h * d + j],
                    ),
            )
        }
}

} // verus!
