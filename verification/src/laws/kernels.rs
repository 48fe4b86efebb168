//! The kernels solve their equations.

use vstd::prelude::*;

use crate::attention;
use crate::attention::HeadLayout;
use crate::config::{NormConfig, RoPEStyle};
use crate::gelu;
use crate::laws::equations;
use crate::models::ssm::conv;
use crate::models::ssm::deltanet;
use crate::models::ssm::mamba::selective_scan;
use crate::models::ssm::mamba::selective_scan::ScanInput;
use crate::models::text_encoder::masked_attention;
use crate::models::text_encoder::roberta;
use crate::norm;
use crate::ops;
use crate::ops::Activation;
use crate::packed;
use crate::packed::PackedLinear;
use crate::patch;
use crate::rope;
use crate::scalar;
use crate::scalar::{Math, Scalar};

verus! {

/// Sums over the same elements are equal.
pub proof fn lemma_sigma_same<T: Scalar>(n: nat, f: spec_fn(int) -> T, g: spec_fn(int) -> T)
    requires
        forall|i: int| 0 <= i < n ==> #[trigger] f(i) == g(i),
    ensures
        equations::sigma(n, f) == equations::sigma(n, g),
    decreases n,
{
    if n > 0 {
        lemma_sigma_same((n - 1) as nat, f, g);
        assert(f(n - 1) == g(n - 1));
    }
}

/// A dot product adds up the products of the elements.
pub proof fn lemma_dot_is_sigma<T: Scalar>(a: Seq<T>, b: Seq<T>, n: nat)
    ensures
        ops::dot(a, b, n) == equations::sigma(n, |i: int| scalar::times(a[i], b[i])),
    decreases n,
{
    let f = |i: int| scalar::times(a[i], b[i]);
    if n > 0 {
        lemma_dot_is_sigma(a, b, (n - 1) as nat);
    }
}

proof fn lemma_total_is_sigma<T: Scalar>(x: Seq<T>, n: nat)
    ensures
        ops::total(x, n) == equations::sigma(n, |i: int| x[i]),
    decreases n,
{
    if n > 0 {
        lemma_total_is_sigma(x, (n - 1) as nat);
    }
}

proof fn lemma_largest_is_maximum<T, M: Math<T>>(x: Seq<T>, f: spec_fn(int) -> T, n: nat)
    requires
        n <= x.len(),
        forall|i: int| 0 <= i < n ==> #[trigger] x[i] == f(i),
    ensures
        ops::largest::<T, M>(x, n) == equations::maximum::<T, M>(n, f),
    decreases n,
{
    if n > 0 {
        lemma_largest_is_maximum::<T, M>(x, f, (n - 1) as nat);
        assert(x[n - 1] == f(n - 1));
    }
}

/// A linear map solves its equation, and nothing else does.
pub proof fn lemma_linear<T: Scalar>(
    y: Seq<T>,
    x: Seq<T>,
    w: Seq<T>,
    b: Seq<T>,
    k: nat,
    n: nat,
)
    requires
        w.len() == n * k,
        b.len() == 0 || n <= b.len(),
    ensures
        equations::is_linear(y, x, w, b, k, n) <==> y == ops::linear_row(x, w, b, k, n),
{
    let z = ops::linear_row(x, w, b, k, n);
    assert(z.len() == n);
    assert forall|j: int| 0 <= j < n implies #[trigger] z[j] == {
        let s = equations::sigma(k, |i: int| scalar::times(x[i], w[j * k + i]));
        if b.len() == 0 {
            s
        } else {
            scalar::plus(s, b[j])
        }
    } by {
        let r = ops::row(w, j, k as int);
        ops::lemma_row_bounds(j, n as int, k as int);
        lemma_dot_is_sigma(x, r, k);
        lemma_sigma_same(
            k,
            |i: int| scalar::times(x[i], r[i]),
            |i: int| scalar::times(x[i], w[j * k + i]),
        );
    }
    if equations::is_linear(y, x, w, b, k, n) {
        assert forall|j: int| 0 <= j < n implies y[j] == z[j] by {}
        assert(y =~= z);
    }
}

/// A linear map whose weights are zero gives zeros, where a product with zero
/// is zero and adding zero changes nothing.
pub proof fn lemma_zero_map<T: Scalar>(x: Seq<T>, w: Seq<T>, k: nat, n: nat)
    requires
        w.len() == n * k,
        forall|a: T| #[trigger] scalar::plus(a, scalar::zero()) == a,
        forall|a: T| #[trigger] scalar::times(a, scalar::zero()) == scalar::zero::<T>(),
        forall|i: int| 0 <= i < w.len() ==> #[trigger] w[i] == scalar::zero::<T>(),
    ensures
        ops::linear_row(x, w, Seq::empty(), k, n).len() == n,
        forall|j: int|
            0 <= j < n ==> #[trigger] ops::linear_row(x, w, Seq::empty(), k, n)[j]
                == scalar::zero::<T>(),
{
    assert forall|j: int| 0 <= j < n implies #[trigger] ops::linear_row(
        x,
        w,
        Seq::empty(),
        k,
        n,
    )[j] == scalar::zero::<T>() by {
        ops::lemma_row_bounds(j, n as int, k as int);
        lemma_zero_dot(x, ops::row(w, j, k as int), k);
    }
}

proof fn lemma_zero_dot<T: Scalar>(a: Seq<T>, b: Seq<T>, n: nat)
    requires
        forall|a: T| #[trigger] scalar::plus(a, scalar::zero()) == a,
        forall|a: T| #[trigger] scalar::times(a, scalar::zero()) == scalar::zero::<T>(),
        n <= b.len(),
        forall|i: int| 0 <= i < n ==> #[trigger] b[i] == scalar::zero::<T>(),
    ensures
        ops::dot(a, b, n) == scalar::zero::<T>(),
    decreases n,
{
    if n > 0 {
        lemma_zero_dot(a, b, (n - 1) as nat);
        assert(b[n - 1] == scalar::zero::<T>());
    }
}

/// Element-wise sums and products.
pub proof fn lemma_elementwise<T: Scalar>(y: Seq<T>, a: Seq<T>, b: Seq<T>)
    requires
        a.len() == b.len(),
    ensures
        equations::is_sum(y, a, b) <==> y == ops::sum_of(a, b),
        equations::is_product(y, a, b) <==> y == ops::product_of(a, b),
{
    if equations::is_sum(y, a, b) {
        assert(y =~= ops::sum_of(a, b));
    }
    if equations::is_product(y, a, b) {
        assert(y =~= ops::product_of(a, b));
    }
}

/// Activations, element by element.
pub proof fn lemma_activations<T: Scalar, M: Math<T>>(y: Seq<T>, x: Seq<T>)
    ensures
        equations::is_silu::<T, M>(y, x) <==> y == ops::all_activated::<T, M>(Activation::Silu, x),
        equations::is_gelu::<T, M>(y, x) <==> y == ops::all_activated::<T, M>(Activation::Gelu, x),
{
    if equations::is_silu::<T, M>(y, x) {
        assert(y =~= ops::all_activated::<T, M>(Activation::Silu, x));
    }
    if equations::is_gelu::<T, M>(y, x) {
        assert(y =~= ops::all_activated::<T, M>(Activation::Gelu, x));
    }
}

pub proof fn lemma_inverse_rms<T: Scalar, M: Math<T>>(x: Seq<T>, f: spec_fn(int) -> T, eps: T)
    requires
        forall|i: int| 0 <= i < x.len() ==> #[trigger] f(i) == x[i],
    ensures
        ops::rms_scale::<T, M>(x, eps) == equations::inverse_rms::<T, M>(x.len(), f, eps),
{
    lemma_dot_is_sigma(x, x, x.len());
    let g = |i: int| scalar::times(x[i], x[i]);
    let h = |i: int| scalar::times(f(i), f(i));
    assert forall|i: int| 0 <= i < x.len() implies #[trigger] g(i) == h(i) by {
        assert(f(i) == x[i]);
    }
    lemma_sigma_same(x.len(), g, h);
}

/// RMS normalisation solves its equation, and nothing else does.
pub proof fn lemma_rms<T: Scalar, M: Math<T>>(y: Seq<T>, x: Seq<T>, w: Seq<T>, eps: T)
    ensures
        equations::is_rms::<T, M>(y, x, w, eps) <==> y == ops::rms_row::<T, M>(x, w, eps),
{
    let z = ops::rms_row::<T, M>(x, w, eps);
    lemma_inverse_rms::<T, M>(x, |i: int| x[i], eps);
    if equations::is_rms::<T, M>(y, x, w, eps) {
        assert(y =~= z);
    }
}

/// Layer normalisation solves its equation, and nothing else does.
pub proof fn lemma_layer_norm<T: Scalar, M: Math<T>>(
    y: Seq<T>,
    x: Seq<T>,
    w: Seq<T>,
    b: Seq<T>,
    eps: T,
)
    requires
        x.len() <= w.len(),
        b.len() == 0 || x.len() <= b.len(),
    ensures
        equations::is_layer_norm::<T, M>(y, x, w, b, eps) <==> y == ops::with_bias(
            ops::layer_row::<T, M>(x, w, eps),
            b,
        ),
{
    let z = ops::with_bias(ops::layer_row::<T, M>(x, w, eps), b);
    lemma_total_is_sigma(x, x.len());
    let mean = ops::mean_of::<T, M>(x);
    let c = ops::centred::<T, M>(x);
    lemma_inverse_rms::<T, M>(c, |i: int| scalar::minus(x[i], mean), eps);
    if equations::is_layer_norm::<T, M>(y, x, w, b, eps) {
        assert(y =~= z);
    }
}

/// Rotation solves its equation, and nothing else does.
pub proof fn lemma_turned<T: Scalar>(
    y: Seq<T>,
    x: Seq<T>,
    cos: Seq<T>,
    sin: Seq<T>,
    heads: nat,
    d: nat,
    pos: int,
    style: RoPEStyle,
)
    requires
        0 <= pos,
        x.len() == heads * d,
        (pos + 1) * (d as int / 2) <= cos.len(),
        (pos + 1) * (d as int / 2) <= sin.len(),
    ensures
        equations::is_turned(y, x, cos, sin, heads, d, pos, style) <==> y == rope::rotated_row(
            x,
            cos,
            sin,
            heads,
            d,
            pos,
            style,
        ),
{
    let half = d as int / 2;
    let z = rope::rotated_row(x, cos, sin, heads, d, pos, style);
    let (c, s) = (ops::row(cos, pos, half), ops::row(sin, pos, half));
    let f = |h: int| rope::rotated_head(ops::row(x, h, d as int), c, s, style);
    assert forall|h: int| 0 <= h < heads implies #[trigger] f(h).len() == d by {
        ops::lemma_row_bounds(h, heads as int, d as int);
    }
    ops::lemma_blocks_rows(heads, f, d);
    assert(z == ops::blocks(heads, f));
    ops::lemma_row_bounds(pos, pos + 1, half);
    assert forall|h: int, j: int|
        #![trigger z[h * d + j]]
        0 <= h < heads && 0 <= j < d implies z[h * d + j] == f(h)[j] by {
        ops::lemma_row_bounds(h, heads as int, d as int);
        assert(ops::row(z, h, d as int) == f(h));
        assert(ops::row(z, h, d as int)[j] == z[h * d + j]);
    }
    assert forall|h: int, j: int|
        #![trigger z[h * d + j]]
        0 <= h < heads && 0 <= j < d implies {
        let at = h * d + j;
        let (i, other, first) = match style {
            RoPEStyle::RotateHalf => if j < half {
                (j, at + half, true)
            } else {
                (j - half, at - half, false)
            },
            RoPEStyle::Interleaved => if j % 2 == 0 {
                (j / 2, at + 1, true)
            } else {
                (j / 2, at - 1, false)
            },
        };
        let co = cos[pos * half + i];
        let si = sin[pos * half + i];
        z[at] == if j >= 2 * half {
            x[at]
        } else if first {
            scalar::minus(scalar::times(x[at], co), scalar::times(x[other], si))
        } else {
            scalar::plus(scalar::times(x[at], co), scalar::times(x[other], si))
        }
    } by {
        ops::lemma_row_bounds(h, heads as int, d as int);
        assert(z[h * d + j] == f(h)[j]);
        let r = ops::row(x, h, d as int);
        assert(forall|i: int| 0 <= i < d ==> #[trigger] r[i] == x[h * d + i]);
        assert(forall|i: int| 0 <= i < half ==> #[trigger] c[i] == cos[pos * half + i]);
        assert(forall|i: int| 0 <= i < half ==> #[trigger] s[i] == sin[pos * half + i]);
    }
    if equations::is_turned(y, x, cos, sin, heads, d, pos, style) {
        lemma_same_by_heads(y, z, heads, d);
    }
}

/// Rows that agree in every column of every head are equal.
pub proof fn lemma_same_by_heads<T>(y: Seq<T>, z: Seq<T>, heads: nat, d: nat)
    requires
        y.len() == heads * d,
        z.len() == heads * d,
        forall|h: int, j: int|
            #![trigger y[h * d + j]]
            0 <= h < heads && 0 <= j < d ==> y[h * d + j] == z[h * d + j],
    ensures
        y == z,
{
    assert forall|p: int| 0 <= p < y.len() implies y[p] == z[p] by {
        if d == 0 {
            assert(heads * d == 0) by (nonlinear_arith)
                requires
                    d == 0,
            ;
        } else {
            let (h, j) = (p / d as int, p % d as int);
            vstd::arithmetic::div_mod::lemma_fundamental_div_mod(p, d as int);
            assert(h * d == d * h) by (nonlinear_arith);
            assert(0 <= h) by {
                vstd::arithmetic::div_mod::lemma_div_pos_is_pos(p, d as int);
            }
            assert(h < heads) by (nonlinear_arith)
                requires
                    p == d * h + j,
                    0 <= j,
                    p < heads * d,
                    d > 0,
            ;
            assert(y[h * d + j] == z[h * d + j]);
        }
    }
    assert(y =~= z);
}

/// Softmax weighs each element by its equation.
pub proof fn lemma_softmax<T: Scalar, M: Math<T>>(x: Seq<T>, f: spec_fn(int) -> T, i: int)
    requires
        0 <= i < x.len(),
        forall|k: int| 0 <= k < x.len() ==> #[trigger] x[k] == f(k),
    ensures
        ops::softmax_of::<T, M>(x)[i] == equations::softmax_at::<T, M>(x.len(), f, i),
{
    let n = x.len();
    lemma_largest_is_maximum::<T, M>(x, f, n);
    let top = equations::maximum::<T, M>(n, f);
    let e = ops::exponentials::<T, M>(x);
    let g = |k: int| scalar::exp_of::<T, M>(scalar::minus(f(k), top));
    lemma_total_is_sigma(e, n);
    assert forall|k: int| 0 <= k < n implies #[trigger] e[k] == g(k) by {
        assert(x[k] == f(k));
    }
    lemma_sigma_same(n, |k: int| e[k], g);
}

proof fn lemma_mixed_is_sigma<T: Scalar>(
    w: Seq<T>,
    v: Seq<T>,
    stride: int,
    off: int,
    start: int,
    n: nat,
    j: int,
)
    ensures
        attention::mixed(w, v, stride, off, start, n, j) == equations::sigma(
            n,
            |s: int| scalar::times(w[s], v[(start + s) * stride + off + j]),
        ),
    decreases n,
{
    let f = |s: int| scalar::times(w[s], v[(start + s) * stride + off + j]);
    if n > 0 {
        lemma_mixed_is_sigma(w, v, stride, off, start, (n - 1) as nat, j);
        assert(f(n - 1) == scalar::times(w[n - 1], v[(start + n - 1) * stride + off + j]));
    }
}

/// What a query row sees solves its equation, and nothing else does.
#[verifier::spinoff_prover]
#[verifier::rlimit(40)]
pub proof fn lemma_attention<T: Scalar, M: Math<T>>(
    y: Seq<T>,
    layout: HeadLayout,
    q: Seq<T>,
    keys: Seq<T>,
    values: Seq<T>,
    start: int,
    n: nat,
)
    requires
        layout.wf(),
        q.len() == layout.q_dim(),
        0 <= start,
        (start + n) * layout.kv_dim() <= keys.len(),
    ensures
        equations::is_attention::<T, M>(
            y,
            q,
            keys,
            values,
            layout.num_heads,
            layout.num_kv_heads,
            layout.head_dim,
            start,
            n,
        ) <==> y == attention::row_output::<T, M>(layout, q, keys, values, start, n),
{
    let z = attention::row_output::<T, M>(layout, q, keys, values, start, n);
    let heads = layout.num_heads as nat;
    let d = layout.head_dim as nat;
    let f = |h: int| attention::head_output::<T, M>(layout, q, keys, values, h, start, n);
    assert forall|h: int| 0 <= h < heads implies #[trigger] f(h).len() == d by {
        ops::lemma_row_bounds(h, heads as int, d as int);
    }
    ops::lemma_blocks_rows(heads, f, d);
    assert(z == ops::blocks(heads, f));
    assert forall|h: int, j: int|
        #![trigger z[h * d + j]]
        0 <= h < heads && 0 <= j < d implies z[h * d + j] == attended_element::<T, M>(
        layout,
        q,
        keys,
        values,
        start,
        n,
        h,
        j,
    ) by {
        ops::lemma_row_bounds(h, heads as int, d as int);
        assert(ops::row(z, h, d as int) == f(h));
        assert(ops::row(z, h, d as int)[j] == z[h * d + j]);
        lemma_attended_element::<T, M>(layout, q, keys, values, start, n, h, j);
    }
    if equations::is_attention::<T, M>(
        y,
        q,
        keys,
        values,
        layout.num_heads,
        layout.num_kv_heads,
        layout.head_dim,
        start,
        n,
    ) {
        assert forall|h: int, j: int|
            #![trigger y[h * d + j]]
            0 <= h < heads && 0 <= j < d implies y[h * d + j] == z[h * d + j] by {
            assert(z[h * d + j] == attended_element::<T, M>(
                layout,
                q,
                keys,
                values,
                start,
                n,
                h,
                j,
            ));
        }
        lemma_same_by_heads(y, z, heads, d);
    }
}

spec fn attended_element<T: Scalar, M: Math<T>>(
    layout: HeadLayout,
    q: Seq<T>,
    keys: Seq<T>,
    values: Seq<T>,
    start: int,
    n: nat,
    h: int,
    j: int,
) -> T {
    let (heads, kv_heads) = (layout.num_heads, layout.num_kv_heads);
    let d = layout.head_dim;
    let g = h / (heads as int / kv_heads as int);
    let f = |s: int|
        equations::match_of::<T, M>(q, keys, heads as int, kv_heads as int, d, h, start + s);
    equations::sigma(
        n,
        |s: int|
            scalar::times(
                equations::softmax_at::<T, M>(n, f, s),
                values[(start + s) * (kv_heads * d) + g * d + j],
            ),
    )
}

proof fn lemma_attended_element<T: Scalar, M: Math<T>>(
    layout: HeadLayout,
    q: Seq<T>,
    keys: Seq<T>,
    values: Seq<T>,
    start: int,
    n: nat,
    h: int,
    j: int,
)
    requires
        layout.wf(),
        q.len() == layout.q_dim(),
        0 <= start,
        (start + n) * layout.kv_dim() <= keys.len(),
        0 <= h < layout.num_heads,
        0 <= j < layout.head_dim,
    ensures
        attention::head_output::<T, M>(layout, q, keys, values, h, start, n)[j]
            == attended_element::<T, M>(layout, q, keys, values, start, n, h, j),
{
    let (heads, kv_heads) = (layout.num_heads, layout.num_kv_heads);
    let d = layout.head_dim;
    let stride = layout.kv_dim() as int;
    let off = layout.kv_head(h) * d;
    let qh = ops::row(q, h, d as int);
    ops::lemma_row_bounds(h, heads as int, d as int);
    attention::lemma_kv_head(layout, h);
    let scores = attention::scores_of(
        qh,
        keys,
        stride,
        off,
        start,
        n,
        attention::attention_scale::<T, M>(d),
    );
    let f = |s: int|
        equations::match_of::<T, M>(q, keys, heads as int, kv_heads as int, d, h, start + s);
    assert forall|s: int| 0 <= s < n implies #[trigger] scores[s] == f(s) by {
        let k = attention::head_of(keys, start + s, stride, off, d as int);
        ops::lemma_row_bounds(start + s, start + n, stride);
        lemma_dot_is_sigma(qh, k, d as nat);
        lemma_sigma_same(
            d as nat,
            |i: int| scalar::times(qh[i], k[i]),
            |i: int|
                scalar::times(
                    q[h * d + i],
                    keys[(start + s) * (kv_heads as int * d)
                        + (h / (heads as int / kv_heads as int)) * d + i],
                ),
        );
    }
    let w = ops::softmax_of::<T, M>(scores);
    lemma_mixed_is_sigma(w, values, stride, off, start, n, j);
    let a = |s: int| scalar::times(w[s], values[(start + s) * stride + off + j]);
    let b = |s: int|
        scalar::times(
            equations::softmax_at::<T, M>(n, f, s),
            values[(start + s) * (kv_heads * d) + (h / (heads as int / kv_heads as int)) * d + j],
        );
    assert forall|s: int| 0 <= s < n implies #[trigger] a(s) == b(s) by {
        lemma_softmax::<T, M>(scores, f, s);
    }
    lemma_sigma_same(n, a, b);
}

/// The configured normalisation solves its equation, and nothing else does.
pub proof fn lemma_normed<T: Scalar, M: Math<T>>(
    y: Seq<T>,
    norm: NormConfig,
    x: Seq<T>,
    w: Seq<T>,
)
    requires
        x.len() <= w.len(),
    ensures
        equations::is_normed::<T, M>(y, norm, x, w) <==> y == norm::normed_row::<T, M>(norm, x, w),
{
    match norm {
        NormConfig::RMSNorm { eps } => {
            lemma_rms::<T, M>(y, x, w, scalar::binary64_of::<T, M>(eps.bits));
        },
        NormConfig::LayerNorm { eps } => {
            lemma_layer_norm::<T, M>(
                y,
                x,
                w,
                Seq::empty(),
                scalar::binary64_of::<T, M>(eps.bits),
            );
        },
    }
}

/// The normalisation of heads solves its equation, and nothing else does.
pub proof fn lemma_head_normed<T: Scalar, M: Math<T>>(
    y: Seq<T>,
    x: Seq<T>,
    w: Seq<T>,
    heads: nat,
    d: nat,
    eps: T,
)
    requires
        x.len() == heads * d,
    ensures
        equations::is_head_normed::<T, M>(y, x, w, heads, d, eps) <==> y
            == norm::head_normed_row::<T, M>(x, w, heads, d, eps),
{
    if w.len() > 0 {
        let z = norm::head_normed_row::<T, M>(x, w, heads, d, eps);
        let f = |h: int| ops::rms_row::<T, M>(ops::row(x, h, d as int), w, eps);
        assert forall|h: int| 0 <= h < heads implies #[trigger] f(h).len() == d by {
            ops::lemma_row_bounds(h, heads as int, d as int);
        }
        ops::lemma_blocks_rows(heads, f, d);
        assert forall|h: int| 0 <= h < heads implies equations::is_rms::<T, M>(
            #[trigger] equations::line(z, h, d as int),
            equations::line(x, h, d as int),
            w,
            eps,
        ) by {
            ops::lemma_row_bounds(h, heads as int, d as int);
            assert(ops::row(z, h, d as int) == f(h));
            lemma_rms::<T, M>(f(h), ops::row(x, h, d as int), w, eps);
        }
        if equations::is_head_normed::<T, M>(y, x, w, heads, d, eps) {
            assert forall|h: int| 0 <= h < heads implies #[trigger] ops::row(y, h, d as int)
                == f(h) by {
                ops::lemma_row_bounds(h, heads as int, d as int);
                assert(equations::line(y, h, d as int) == ops::row(y, h, d as int));
                lemma_rms::<T, M>(
                    ops::row(y, h, d as int),
                    ops::row(x, h, d as int),
                    w,
                    eps,
                );
            }
            lemma_same_by_lines(y, z, heads, d);
        }
    }
}

/// Matrices with the same rows are equal.
pub proof fn lemma_same_by_lines<T>(y: Seq<T>, z: Seq<T>, n: nat, w: nat)
    requires
        y.len() == n * w,
        z.len() == n * w,
        forall|i: int|
            0 <= i < n ==> #[trigger] ops::row(y, i, w as int) == ops::row(z, i, w as int),
    ensures
        y == z,
{
    ops::lemma_rows(y, n, w);
    ops::lemma_rows(z, n, w);
    ops::lemma_blocks_same(
        n,
        |i: int| ops::row(y, i, w as int),
        |i: int| ops::row(z, i, w as int),
    );
}

/// A matrix of blocks has the blocks as its rows.
pub proof fn lemma_line_of_blocks<T>(n: nat, f: spec_fn(int) -> Seq<T>, w: nat, t: int)
    requires
        0 <= t < n,
        forall|k: int| 0 <= k < n ==> #[trigger] f(k).len() == w,
    ensures
        ops::blocks(n, f).len() == n * w,
        equations::line(ops::blocks(n, f), t, w as int) == f(t),
{
    ops::lemma_blocks_row(n, f, w, t);
    ops::lemma_blocks_len(n, f, w);
    ops::lemma_row_bounds(t, n as int, w as int);
}

/// A linear map of a matrix solves the equations of its rows, and nothing else
/// does.
pub proof fn lemma_linear_rows<T: Scalar>(
    y: Seq<T>,
    x: Seq<T>,
    w: Seq<T>,
    b: Seq<T>,
    rows: nat,
    k: nat,
    n: nat,
)
    requires
        x.len() == rows * k,
        w.len() == n * k,
        b.len() == 0 || n <= b.len(),
    ensures
        equations::are_linear(y, x, w, b, rows, k, n) <==> y == ops::linear_of(
            x,
            w,
            b,
            rows,
            k,
            n,
        ),
{
    let z = ops::linear_of(x, w, b, rows, k, n);
    let f = |t: int| ops::linear_row(ops::row(x, t, k as int), w, b, k, n);
    ops::lemma_blocks_rows(rows, f, n);
    assert(z == ops::blocks(rows, f));
    assert forall|t: int| 0 <= t < rows implies equations::is_linear(
        #[trigger] equations::line(z, t, n as int),
        equations::line(x, t, k as int),
        w,
        b,
        k,
        n,
    ) by {
        lemma_line_of_blocks(rows, f, n, t);
        ops::lemma_row_bounds(t, rows as int, k as int);
        lemma_linear(f(t), ops::row(x, t, k as int), w, b, k, n);
    }
    if equations::are_linear(y, x, w, b, rows, k, n) {
        assert forall|t: int| 0 <= t < rows implies #[trigger] ops::row(y, t, n as int) == ops::row(
            z,
            t,
            n as int,
        ) by {
            ops::lemma_row_bounds(t, rows as int, k as int);
            ops::lemma_row_bounds(t, rows as int, n as int);
            assert(equations::line(y, t, n as int) == ops::row(y, t, n as int));
            assert(ops::row(z, t, n as int) == f(t));
            lemma_linear(ops::row(y, t, n as int), ops::row(x, t, k as int), w, b, k, n);
        }
        lemma_same_by_lines(y, z, rows, n);
    }
}

/// Layer normalisation of a matrix solves the equations of its rows, and nothing
/// else does.
pub proof fn lemma_layer_norm_rows<T: Scalar, M: Math<T>>(
    y: Seq<T>,
    x: Seq<T>,
    w: Seq<T>,
    b: Seq<T>,
    eps: T,
    h: nat,
    rows: nat,
)
    requires
        x.len() == rows * h,
        h <= w.len(),
    ensures
        h <= b.len() ==> (equations::are_layer_normed::<T, M>(y, x, w, b, eps, h, rows) <==> y
            == ops::layer_norm_bias_of::<T, M>(x, w, b, eps, h, rows)),
        equations::are_layer_normed::<T, M>(y, x, w, Seq::empty(), eps, h, rows) <==> y
            == ops::layer_norm_of::<T, M>(x, w, eps, h, rows),
{
    if h <= b.len() {
        let z = ops::layer_norm_bias_of::<T, M>(x, w, b, eps, h, rows);
        let f = |t: int|
            ops::sum_of(ops::layer_row::<T, M>(ops::row(x, t, h as int), w, eps), b);
        assert forall|t: int| 0 <= t < rows && b.len() == 0 implies #[trigger] f(t)
            == ops::layer_row::<T, M>(ops::row(x, t, h as int), w, eps) by {
            ops::lemma_row_bounds(t, rows as int, h as int);
            assert(f(t) =~= ops::layer_row::<T, M>(ops::row(x, t, h as int), w, eps));
        }
        lemma_norm_rows::<T, M>(y, z, x, w, b, eps, h, rows, f);
    }
    let z = ops::layer_norm_of::<T, M>(x, w, eps, h, rows);
    let f = |t: int| ops::layer_row::<T, M>(ops::row(x, t, h as int), w, eps);
    lemma_norm_rows::<T, M>(y, z, x, w, Seq::empty(), eps, h, rows, f);
}

proof fn lemma_norm_rows<T: Scalar, M: Math<T>>(
    y: Seq<T>,
    z: Seq<T>,
    x: Seq<T>,
    w: Seq<T>,
    b: Seq<T>,
    eps: T,
    h: nat,
    rows: nat,
    f: spec_fn(int) -> Seq<T>,
)
    requires
        x.len() == rows * h,
        h <= w.len(),
        b.len() == 0 || h <= b.len(),
        z == ops::blocks(rows, f),
        forall|t: int|
            0 <= t < rows ==> #[trigger] f(t) == if b.len() == 0 {
                ops::layer_row::<T, M>(ops::row(x, t, h as int), w, eps)
            } else {
                ops::sum_of(ops::layer_row::<T, M>(ops::row(x, t, h as int), w, eps), b)
            },
    ensures
        equations::are_layer_normed::<T, M>(y, x, w, b, eps, h, rows) <==> y == z,
{
    assert forall|t: int| 0 <= t < rows implies #[trigger] f(t).len() == h by {
        ops::lemma_row_bounds(t, rows as int, h as int);
    }
    ops::lemma_blocks_rows(rows, f, h);
    assert forall|t: int| 0 <= t < rows implies equations::is_layer_norm::<T, M>(
        #[trigger] equations::line(z, t, h as int),
        equations::line(x, t, h as int),
        w,
        b,
        eps,
    ) by {
        lemma_line_of_blocks(rows, f, h, t);
        ops::lemma_row_bounds(t, rows as int, h as int);
        lemma_layer_norm::<T, M>(f(t), ops::row(x, t, h as int), w, b, eps);
    }
    if equations::are_layer_normed::<T, M>(y, x, w, b, eps, h, rows) {
        assert forall|t: int| 0 <= t < rows implies #[trigger] ops::row(y, t, h as int) == ops::row(
            z,
            t,
            h as int,
        ) by {
            ops::lemma_row_bounds(t, rows as int, h as int);
            assert(equations::line(y, t, h as int) == ops::row(y, t, h as int));
            assert(ops::row(z, t, h as int) == f(t));
            lemma_layer_norm::<T, M>(
                ops::row(y, t, h as int),
                ops::row(x, t, h as int),
                w,
                b,
                eps,
            );
        }
        lemma_same_by_lines(y, z, rows, h);
    }
}

/// Root-mean-square normalisation of a matrix works row by row.
pub proof fn lemma_rms_rows<T: Scalar, M: Math<T>>(
    x: Seq<T>,
    w: Seq<T>,
    eps: T,
    h: nat,
    rows: nat,
    t: int,
)
    requires
        x.len() == rows * h,
        0 <= t < rows,
    ensures
        ops::rms_norm_of::<T, M>(x, w, eps, h, rows).len() == rows * h,
        equations::is_rms::<T, M>(
            equations::line(ops::rms_norm_of::<T, M>(x, w, eps, h, rows), t, h as int),
            equations::line(x, t, h as int),
            w,
            eps,
        ),
{
    let f = |i: int| ops::rms_row::<T, M>(ops::row(x, i, h as int), w, eps);
    assert forall|i: int| 0 <= i < rows implies #[trigger] f(i).len() == h by {
        ops::lemma_row_bounds(i, rows as int, h as int);
    }
    lemma_line_of_blocks(rows, f, h, t);
    ops::lemma_row_bounds(t, rows as int, h as int);
    lemma_rms::<T, M>(f(t), ops::row(x, t, h as int), w, eps);
}

/// The configured normalisation of a matrix solves the equations of its rows,
/// and nothing else does.
pub proof fn lemma_normed_rows<T: Scalar, M: Math<T>>(
    y: Seq<T>,
    norm: NormConfig,
    x: Seq<T>,
    w: Seq<T>,
    h: nat,
    rows: nat,
)
    requires
        x.len() == rows * h,
        h <= w.len(),
    ensures
        equations::are_normed::<T, M>(y, norm, x, w, h, rows) <==> y == norm::normed::<T, M>(
            norm,
            x,
            w,
            h,
            rows,
        ),
{
    let z = norm::normed::<T, M>(norm, x, w, h, rows);
    let f = |t: int| norm::normed_row::<T, M>(norm, ops::row(x, t, h as int), w);
    assert forall|t: int| 0 <= t < rows implies #[trigger] f(t).len() == h by {
        ops::lemma_row_bounds(t, rows as int, h as int);
    }
    ops::lemma_blocks_rows(rows, f, h);
    assert(z == ops::blocks(rows, f));
    assert forall|t: int| 0 <= t < rows implies equations::is_normed::<T, M>(
        #[trigger] equations::line(z, t, h as int),
        norm,
        equations::line(x, t, h as int),
        w,
    ) by {
        lemma_line_of_blocks(rows, f, h, t);
        ops::lemma_row_bounds(t, rows as int, h as int);
        lemma_normed::<T, M>(f(t), norm, ops::row(x, t, h as int), w);
    }
    if equations::are_normed::<T, M>(y, norm, x, w, h, rows) {
        assert forall|t: int| 0 <= t < rows implies #[trigger] ops::row(y, t, h as int) == ops::row(
            z,
            t,
            h as int,
        ) by {
            ops::lemma_row_bounds(t, rows as int, h as int);
            assert(equations::line(y, t, h as int) == ops::row(y, t, h as int));
            assert(ops::row(z, t, h as int) == f(t));
            lemma_normed::<T, M>(ops::row(y, t, h as int), norm, ops::row(x, t, h as int), w);
        }
        lemma_same_by_lines(y, z, rows, h);
    }
}

/// Attention over a matrix solves the equations of its rows, and nothing else
/// does.
pub proof fn lemma_attending_rows<T: Scalar, M: Math<T>>(
    y: Seq<T>,
    q: Seq<T>,
    keys: Seq<T>,
    values: Seq<T>,
    layout: HeadLayout,
    rows: nat,
    causal: bool,
)
    requires
        layout.wf(),
        q.len() == rows * layout.q_dim(),
        keys.len() == rows * layout.kv_dim(),
    ensures
        equations::are_attending::<T, M>(
            y,
            q,
            keys,
            values,
            layout.num_heads,
            layout.num_kv_heads,
            layout.head_dim,
            rows,
            causal,
        ) <==> y == if causal {
            attention::causal_output::<T, M>(layout, q, keys, values, rows)
        } else {
            attention::bidirectional_output::<T, M>(layout, q, keys, values, rows)
        },
{
    let w = layout.q_dim();
    let z = if causal {
        attention::causal_output::<T, M>(layout, q, keys, values, rows)
    } else {
        attention::bidirectional_output::<T, M>(layout, q, keys, values, rows)
    };
    let seen = |t: int|
        if causal {
            (t + 1) as nat
        } else {
            rows
        };
    let f = |t: int|
        attention::row_output::<T, M>(
            layout,
            ops::row(q, t, w as int),
            keys,
            values,
            0,
            seen(t),
        );
    assert forall|t: int| 0 <= t < rows implies #[trigger] f(t).len() == w by {
        ops::lemma_row_bounds(t, rows as int, w as int);
        attention::lemma_row_output_len::<T, M>(
            layout,
            ops::row(q, t, w as int),
            keys,
            values,
            0,
            seen(t),
        );
    }
    ops::lemma_blocks_rows(rows, f, w);
    if causal {
        ops::lemma_blocks_same(
            rows,
            |t: int|
                attention::row_output::<T, M>(
                    layout,
                    ops::row(q, t, layout.q_dim() as int),
                    keys,
                    values,
                    0,
                    (t + 1) as nat,
                ),
            f,
        );
    } else {
        ops::lemma_blocks_same(
            rows,
            |t: int|
                attention::row_output::<T, M>(
                    layout,
                    ops::row(q, t, layout.q_dim() as int),
                    keys,
                    values,
                    0,
                    rows,
                ),
            f,
        );
    }
    assert(z == ops::blocks(rows, f));
    assert forall|t: int| 0 <= t < rows implies equations::is_attention::<T, M>(
        #[trigger] equations::line(z, t, layout.num_heads * layout.head_dim),
        equations::line(q, t, layout.num_heads * layout.head_dim),
        keys,
        values,
        layout.num_heads,
        layout.num_kv_heads,
        layout.head_dim,
        0,
        seen(t),
    ) by {
        lemma_line_of_blocks(rows, f, w, t);
        ops::lemma_row_bounds(t, rows as int, w as int);
        ops::lemma_row_bounds(t, rows as int, layout.kv_dim() as int);
        lemma_attention::<T, M>(
            f(t),
            layout,
            ops::row(q, t, w as int),
            keys,
            values,
            0,
            seen(t),
        );
    }
    if equations::are_attending::<T, M>(
        y,
        q,
        keys,
        values,
        layout.num_heads,
        layout.num_kv_heads,
        layout.head_dim,
        rows,
        causal,
    ) {
        assert forall|t: int| 0 <= t < rows implies #[trigger] ops::row(y, t, w as int) == ops::row(
            z,
            t,
            w as int,
        ) by {
            ops::lemma_row_bounds(t, rows as int, w as int);
            assert(equations::line(y, t, layout.num_heads * layout.head_dim) == ops::row(
                y,
                t,
                w as int,
            ));
            assert(ops::row(z, t, w as int) == f(t));
            ops::lemma_row_bounds(t, rows as int, layout.kv_dim() as int);
            lemma_attention::<T, M>(
                ops::row(y, t, w as int),
                layout,
                ops::row(q, t, w as int),
                keys,
                values,
                0,
                seen(t),
            );
        }
        lemma_same_by_lines(y, z, rows, w);
    }
}

/// A cached row within a window sees the last `window` positions, without a
/// window it sees all of them.
pub proof fn lemma_window(len: nat, window: Option<usize>, s: nat)
    requires
        s < len,
    ensures
        attention::window_start(len, window) <= s <==> (window is None || len - s
            <= window->0 as int),
        attention::window_start(len, window) <= len,
{
}

/// Element-wise kernels: scaling, adding what there is to add, cutting or
/// filling up with zeros, modulation and gated addition.
pub proof fn lemma_elements<T: Scalar, M: Math<T>>(
    x: Seq<T>,
    y: Seq<T>,
    z: Seq<T>,
    c: T,
    n: nat,
    j: int,
)
    ensures
        ops::scaled(x, c).len() == x.len(),
        ops::sum_into(x, y).len() == x.len(),
        ops::fitted(x, n).len() == n,
        ops::modulated::<T, M>(x, y, z).len() == x.len(),
        ops::gated_sum(x, y, z).len() == x.len(),
        0 <= j < x.len() ==> ops::scaled(x, c)[j] == scalar::times(x[j], c),
        0 <= j < x.len() && j < y.len() ==> ops::sum_into(x, y)[j] == scalar::plus(x[j], y[j]),
        y.len() <= j < x.len() ==> ops::sum_into(x, y)[j] == x[j],
        0 <= j < n && j < x.len() ==> ops::fitted(x, n)[j] == x[j],
        x.len() <= j < n ==> ops::fitted(x, n)[j] == scalar::zero::<T>(),
        0 <= j < x.len() ==> ops::modulated::<T, M>(x, y, z)[j] == scalar::plus(
            scalar::times(x[j], scalar::plus(scalar::one::<T, M>(), y[j])),
            z[j],
        ),
        0 <= j < x.len() ==> ops::gated_sum(x, y, z)[j] == scalar::plus(
            x[j],
            scalar::times(y[j], z[j]),
        ),
{
}

/// The memory after a step solves its equation, and nothing else does. Reading
/// it with `q` gives each row times `q`.
pub proof fn lemma_memory<T: Scalar>(
    m: Seq<T>,
    memory: Seq<T>,
    k: Seq<T>,
    v: Seq<T>,
    alpha: T,
    beta: T,
    d: nat,
    q: Seq<T>,
)
    requires
        memory.len() == d * d,
    ensures
        equations::is_remembered(m, memory, k, v, alpha, beta, d) <==> m
            == deltanet::memory_after(memory, k, v, alpha, beta, d),
        deltanet::read_memory(memory, q, d).len() == d,
        forall|i: int|
            0 <= i < d ==> #[trigger] deltanet::read_memory(memory, q, d)[i] == equations::sigma(
                d,
                |j: int| scalar::times(memory[i * d + j], q[j]),
            ),
{
    let z = deltanet::memory_after(memory, k, v, alpha, beta, d);
    let f = |i: int|
        deltanet::memory_row(ops::row(memory, i, d as int), k, v[i], alpha, beta);
    assert forall|i: int| 0 <= i < d implies #[trigger] f(i).len() == d by {
        ops::lemma_row_bounds(i, d as int, d as int);
    }
    ops::lemma_blocks_rows(d, f, d);
    assert(z == ops::blocks(d, f));
    assert forall|i: int, j: int|
        #![trigger z[i * d + j]]
        0 <= i < d && 0 <= j < d implies z[i * d + j] == scalar::plus(
        scalar::times(alpha, memory[i * d + j]),
        scalar::times(scalar::times(beta, v[i]), k[j]),
    ) by {
        ops::lemma_row_bounds(i, d as int, d as int);
        assert(ops::row(z, i, d as int) == f(i));
        assert(ops::row(z, i, d as int)[j] == z[i * d + j]);
    }
    if equations::is_remembered(m, memory, k, v, alpha, beta, d) {
        lemma_same_by_heads(m, z, d, d);
    }
    assert forall|i: int| 0 <= i < d implies #[trigger] deltanet::read_memory(memory, q, d)[i]
        == equations::sigma(d, |j: int| scalar::times(memory[i * d + j], q[j])) by {
        ops::lemma_row_bounds(i, d as int, d as int);
        let r = ops::row(memory, i, d as int);
        lemma_dot_is_sigma(r, q, d);
        lemma_sigma_same(
            d,
            |j: int| scalar::times(r[j], q[j]),
            |j: int| scalar::times(memory[i * d + j], q[j]),
        );
    }
}

/// A row over its length solves its equation, and nothing else does.
pub proof fn lemma_unit<T: Scalar, M: Math<T>>(y: Seq<T>, x: Seq<T>)
    ensures
        equations::is_unit::<T, M>(y, x) <==> y == deltanet::normalized::<T, M>(x),
{
    lemma_dot_is_sigma(x, x, x.len());
    if equations::is_unit::<T, M>(y, x) {
        assert(y =~= deltanet::normalized::<T, M>(x));
    }
}

/// One row under weights that may be packed solves its equation, and nothing
/// else does.
pub proof fn lemma_gemv<T: Scalar, Q: PackedLinear<T>>(
    y: Seq<T>,
    x: Seq<T>,
    w: Seq<T>,
    q: Option<Q>,
    k: nat,
    n: nat,
)
    requires
        x.len() == k,
        w.len() == n * k,
    ensures
        equations::is_gemv(y, x, w, q, k, n) <==> y == packed::gemv_of(x, w, q, 1, k, n),
{
    if q is None {
        packed::lemma_dense_row::<T, Q>(x, w, k, n);
        lemma_linear(y, x, w, Seq::empty(), k, n);
    }
}

/// A convolution's state and output solve their equations, and nothing else
/// does.
pub proof fn lemma_convolution<T: Scalar>(
    s: Seq<T>,
    y: Seq<T>,
    state: Seq<T>,
    x: Seq<T>,
    w: Seq<T>,
    b: Seq<T>,
    kernel: nat,
)
    requires
        kernel > 0,
        state.len() == x.len() * kernel,
        w.len() == x.len() * kernel,
        b.len() == 0 || x.len() <= b.len(),
    ensures
        equations::is_window(s, state, x, kernel) <==> s == conv::shifted_state(state, x, kernel),
        equations::is_window(s, state, x, kernel) ==> (equations::is_convolved(
            y,
            s,
            w,
            b,
            x.len(),
            kernel,
        ) <==> y == conv::conv_row(state, x, w, b, kernel)),
{
    let n = x.len();
    let z = conv::shifted_state(state, x, kernel);
    let f = |c: int| conv::shifted_window(ops::row(state, c, kernel as int), x[c]);
    assert forall|c: int| 0 <= c < n implies #[trigger] f(c).len() == kernel by {
        ops::lemma_row_bounds(c, n as int, kernel as int);
    }
    ops::lemma_blocks_rows(n, f, kernel);
    assert(z == ops::blocks(n, f));
    assert forall|c: int, i: int|
        #![trigger z[c * kernel + i]]
        0 <= c < n && 0 <= i < kernel implies z[c * kernel + i] == f(c)[i] && f(c)[i] == if i
        == kernel - 1 {
        x[c]
    } else {
        state[c * kernel + i + 1]
    } by {
        ops::lemma_row_bounds(c, n as int, kernel as int);
        assert(ops::row(z, c, kernel as int) == f(c));
        assert(ops::row(z, c, kernel as int)[i] == z[c * kernel + i]);
    }
    if equations::is_window(s, state, x, kernel) {
        lemma_same_by_heads(s, z, n, kernel);
        let o = conv::conv_row(state, x, w, b, kernel);
        assert forall|c: int| 0 <= c < n implies #[trigger] o[c] == {
            let sum = equations::sigma(
                kernel,
                |i: int| scalar::times(s[c * kernel + i], w[c * kernel + i]),
            );
            if b.len() == 0 {
                sum
            } else {
                scalar::plus(sum, b[c])
            }
        } by {
            ops::lemma_row_bounds(c, n as int, kernel as int);
            let r = ops::row(w, c, kernel as int);
            lemma_dot_is_sigma(f(c), r, kernel);
            let p = |i: int| scalar::times(f(c)[i], r[i]);
            let q = |i: int| scalar::times(s[c * kernel + i], w[c * kernel + i]);
            assert forall|i: int| 0 <= i < kernel implies #[trigger] p(i) == q(i) by {
                assert(s[c * kernel + i] == f(c)[i]);
            }
            lemma_sigma_same(kernel, p, q);
        }
        if equations::is_convolved(y, s, w, b, n, kernel) {
            assert(y =~= o);
        }
    }
}

/// A selective scan's state and output solve their equations, and nothing else
/// does.
pub proof fn lemma_scan<T: Scalar, M: Math<T>>(
    h: Seq<T>,
    y: Seq<T>,
    state: Seq<T>,
    x: Seq<T>,
    delta: Seq<T>,
    b: Seq<T>,
    c: Seq<T>,
    a_log: Seq<T>,
    d: Seq<T>,
)
    requires
        b.len() == c.len(),
    ensures
        ({
            let input = ScanInput { x, delta, b, c };
            &&& equations::is_scanned::<T, M>(h, state, x, delta, b, a_log) <==> h
                == selective_scan::hidden_after::<T, M>(input, a_log, state)
            &&& equations::is_scanned::<T, M>(h, state, x, delta, b, a_log) ==> (
            equations::is_scan_read(y, h, x, c, d) <==> y == selective_scan::scan_output::<T, M>(
                input,
                a_log,
                d,
                state,
            ))
        }),
{
    let input = ScanInput { x, delta, b, c };
    let z = selective_scan::hidden_after::<T, M>(input, a_log, state);
    let n = b.len();
    let f = |i: int| selective_scan::hidden_row::<T, M>(input, a_log, state, i);
    ops::lemma_blocks_rows(x.len(), f, n);
    assert(z == ops::blocks(x.len(), f));
    assert forall|i: int, j: int|
        #![trigger z[i * n + j]]
        0 <= i < x.len() && 0 <= j < n implies z[i * n + j] == f(i)[j] by {
        ops::lemma_row_bounds(i, x.len() as int, n as int);
        assert(ops::row(z, i, n as int) == f(i));
        assert(ops::row(z, i, n as int)[j] == z[i * n + j]);
    }
    if equations::is_scanned::<T, M>(h, state, x, delta, b, a_log) {
        lemma_same_by_heads(h, z, x.len(), n);
        let o = selective_scan::scan_output::<T, M>(input, a_log, d, state);
        assert forall|i: int| 0 <= i < x.len() implies #[trigger] o[i] == scalar::plus(
            equations::sigma(c.len(), |j: int| scalar::times(c[j], h[i * c.len() + j])),
            scalar::times(d[i], x[i]),
        ) by {
            lemma_dot_is_sigma(c, f(i), c.len());
            let p = |j: int| scalar::times(c[j], f(i)[j]);
            let q = |j: int| scalar::times(c[j], h[i * c.len() + j]);
            assert forall|j: int| 0 <= j < c.len() implies #[trigger] p(j) == q(j) by {
                assert(z[i * n + j] == f(i)[j]);
            }
            lemma_sigma_same(c.len(), p, q);
        }
        if equations::is_scan_read(y, h, x, c, d) {
            assert(y =~= o);
        }
    }
}

/// Element `(dy * patch + dx) * channels + c` of patch `(py, px)` is channel `c`
/// of the pixel in row `py * patch + dy` and column `px * patch + dx`.
pub proof fn lemma_patch_pixel<T>(
    image: Seq<T>,
    height: nat,
    width: nat,
    channels: nat,
    patch: nat,
    py: int,
    px: int,
    dy: int,
    dx: int,
    c: int,
)
    requires
        image.len() == height * width * channels,
        0 <= py && (py + 1) * patch <= height,
        0 <= px && (px + 1) * patch <= width,
        0 <= dy < patch,
        0 <= dx < patch,
        0 <= c < channels,
    ensures
        patch::patch_pixels(image, width as int, channels as int, patch, py, px)[(dy * patch + dx)
            * channels + c] == image[((py * patch + dy) * width + (px * patch + dx)) * channels
            + c],
{
    let w = patch * channels;
    let f = |e: int|
        {
            let at = patch::patch_row_start(
                width as int,
                channels as int,
                patch as int,
                py,
                px,
                e,
            );
            image.subrange(at, at + patch * channels)
        };
    assert forall|e: int| 0 <= e < patch implies #[trigger] f(e).len() == w by {
        lemma_patch_inside(height as int, width as int, channels as int, patch as int, py, px, e);
    }
    lemma_patch_inside(height as int, width as int, channels as int, patch as int, py, px, dy);
    ops::lemma_blocks_rows(patch, f, w);
    let z = patch::patch_pixels(image, width as int, channels as int, patch, py, px);
    assert(z == ops::blocks(patch, f));
    ops::lemma_row_bounds(dy, patch as int, w as int);
    assert(ops::row(z, dy, w as int) == f(dy));
    ops::lemma_row_bounds(dx, patch as int, channels as int);
    let i = dx * channels + c;
    assert(ops::row(z, dy, w as int)[i] == z[dy * w + i]);
    assert((dy * patch + dx) * channels + c == dy * w + i) by (nonlinear_arith)
        requires
            w == patch * channels,
            i == dx * channels + c,
    ;
    assert(((py * patch + dy) * width + (px * patch + dx)) * channels == ((py * patch + dy) * width
        + px * patch) * channels + dx * channels) by (nonlinear_arith);
}

proof fn lemma_patch_inside(
    height: int,
    width: int,
    channels: int,
    patch: int,
    py: int,
    px: int,
    dy: int,
)
    requires
        0 <= py && (py + 1) * patch <= height,
        0 <= px && (px + 1) * patch <= width,
        0 <= dy < patch,
        0 <= channels,
    ensures
        0 <= patch::patch_row_start(width, channels, patch, py, px, dy),
        patch::patch_row_start(width, channels, patch, py, px, dy) + patch * channels <= height
            * width * channels,
{
    let a = py * patch + dy;
    let b = px * patch;
    assert(0 <= a < height) by (nonlinear_arith)
        requires
            a == py * patch + dy,
            0 <= py,
            0 <= dy < patch,
            (py + 1) * patch <= height,
    ;
    assert(0 <= b && b + patch <= width) by (nonlinear_arith)
        requires
            b == px * patch,
            0 <= px,
            0 <= patch,
            (px + 1) * patch <= width,
    ;
    ops::lemma_row_bounds(a, height, width);
    assert(0 <= (a * width + b) * channels) by (nonlinear_arith)
        requires
            0 <= a * width,
            0 <= b,
            0 <= channels,
    ;
    assert((a * width + b) * channels + patch * channels <= height * width * channels)
        by (nonlinear_arith)
        requires
            a * width + b + patch <= height * width,
            0 <= channels,
    ;
}

/// The patches come row by row, from left to right; embedding `py * columns + px`
/// is the linear map of the pixels of patch `(py, px)`.
pub proof fn lemma_patch_embedding<T: Scalar>(
    image: Seq<T>,
    height: nat,
    width: nat,
    channels: nat,
    patch: nat,
    projection: Seq<T>,
    dim: nat,
    py: int,
    px: int,
)
    requires
        patch > 0,
        0 <= py < height / patch,
        0 <= px < width / patch,
        projection.len() == dim * (patch * patch * channels),
    ensures
        equations::is_linear(
            equations::line(
                patch::patch_embeddings(image, height, width, channels, patch, projection, dim),
                py * (width / patch) as int + px,
                dim as int,
            ),
            patch::patch_pixels(image, width as int, channels as int, patch, py, px),
            projection,
            Seq::empty(),
            patch * patch * channels,
            dim,
        ),
{
    let (rows, cols) = (height / patch, width / patch);
    let k = patch * patch * channels;
    let pixels = |y: int, x: int|
        patch::patch_pixels(image, width as int, channels as int, patch, y, x);
    let g = |y: int|
        |x: int| ops::linear_row(
            patch::patch_pixels(image, width as int, channels as int, patch, y, x),
            projection,
            Seq::empty(),
            k,
            dim,
        );
    let f = |y: int| ops::blocks(cols, g(y));
    let w = cols * dim;
    assert forall|y: int| 0 <= y < rows implies #[trigger] f(y).len() == w by {
        ops::lemma_blocks_len(cols, g(y), dim);
    }
    let z = patch::patch_embeddings(image, height, width, channels, patch, projection, dim);
    ops::lemma_blocks_same(
        rows,
        |y: int|
            ops::blocks(
                cols,
                |x: int|
                    ops::linear_row(
                        patch::patch_pixels(image, width as int, channels as int, patch, y, x),
                        projection,
                        Seq::empty(),
                        patch * patch * channels,
                        dim,
                    ),
            ),
        f,
    );
    assert(z == ops::blocks(rows, f));
    lemma_line_of_blocks(rows, f, w, py);
    lemma_line_of_blocks(cols, g(py), dim, px);
    ops::lemma_row_bounds(py, rows as int, w as int);
    ops::lemma_row_bounds(px, cols as int, dim as int);
    let at = py * cols + px;
    assert(at * dim == py * w + px * dim) by (nonlinear_arith)
        requires
            at == py * cols + px,
            w == cols * dim,
    ;
    assert(equations::line(z, at, dim as int) =~= equations::line(
        equations::line(z, py, w as int),
        px,
        dim as int,
    ));
    lemma_linear(g(py)(px), pixels(py, px), projection, Seq::empty(), k, dim);
}

/// Rotating a matrix of rows turns row `t` to position `start + t`.
pub proof fn lemma_turned_rows<T: Scalar>(
    x: Seq<T>,
    cos: Seq<T>,
    sin: Seq<T>,
    rows: nat,
    heads: nat,
    d: nat,
    start: int,
    style: RoPEStyle,
    t: int,
)
    requires
        0 <= start,
        0 <= t < rows,
        x.len() == rows * (heads * d),
        (start + rows) * (d as int / 2) <= cos.len(),
        (start + rows) * (d as int / 2) <= sin.len(),
    ensures
        rope::rotated(x, cos, sin, rows, heads, d, start, style).len() == rows * (heads * d),
        equations::is_turned(
            equations::line(
                rope::rotated(x, cos, sin, rows, heads, d, start, style),
                t,
                (heads * d) as int,
            ),
            equations::line(x, t, (heads * d) as int),
            cos,
            sin,
            heads,
            d,
            start + t,
            style,
        ),
{
    let w = heads * d;
    let half = d as int / 2;
    let f = |i: int|
        rope::rotated_row(
            ops::row(x, i, w as int),
            cos,
            sin,
            heads,
            d,
            start + i,
            style,
        );
    assert forall|i: int| 0 <= i < rows implies #[trigger] f(i).len() == w by {
        ops::lemma_row_bounds(i, rows as int, w as int);
        ops::lemma_row_bounds(start + i, start + rows, half);
        lemma_turned(f(i), ops::row(x, i, w as int), cos, sin, heads, d, start + i, style);
    }
    lemma_line_of_blocks(rows, f, w, t);
    ops::lemma_row_bounds(t, rows as int, w as int);
    ops::lemma_row_bounds(start + t, start + rows, half);
    lemma_turned(f(t), ops::row(x, t, w as int), cos, sin, heads, d, start + t, style);
}

/// Masked attention over a matrix solves the equations of its rows, and nothing
/// else does.
#[verifier::spinoff_prover]
#[verifier::rlimit(40)]
pub proof fn lemma_masked_rows<T: Scalar, M: Math<T>>(
    y: Seq<T>,
    q: Seq<T>,
    keys: Seq<T>,
    values: Seq<T>,
    heads: usize,
    d: usize,
    rows: nat,
    mask: Seq<i64>,
)
    requires
        heads > 0,
        q.len() == rows * (heads * d),
        keys.len() == rows * (heads * d),
        rows <= mask.len(),
    ensures
        equations::are_masked_attending::<T, M>(y, q, keys, values, heads, d, rows, mask) <==> y
            == masked_attention::masked_output::<T, M>(
            q,
            keys,
            values,
            rows,
            heads as nat,
            d,
            mask,
        ),
{
    let w = heads as nat * d as nat;
    let z = masked_attention::masked_output::<T, M>(q, keys, values, rows, heads as nat, d, mask);
    let f = |t: int|
        masked_attention::masked_row::<T, M>(
            ops::row(q, t, (heads as nat * d) as int),
            keys,
            values,
            heads as nat,
            d,
            mask,
            rows,
        );
    assert forall|t: int| 0 <= t < rows implies #[trigger] f(t).len() == w by {
        lemma_masked_row::<T, M>(q, keys, values, heads, d, rows, mask, t);
    }
    ops::lemma_blocks_rows(rows, f, w);
    assert(z == ops::blocks(rows, f));
    assert forall|t: int, h: int, j: int|
        #![trigger equations::line(z, t, heads * d)[h * d + j]]
        0 <= t < rows && 0 <= h < heads && 0 <= j < d implies equations::line(z, t, heads * d)[h * d
        + j] == masked_element::<T, M>(q, keys, values, heads, d, rows, mask, t, h, j) by {
        lemma_masked_row::<T, M>(q, keys, values, heads, d, rows, mask, t);
        lemma_line_of_blocks(rows, f, w, t);
    }
    if equations::are_masked_attending::<T, M>(y, q, keys, values, heads, d, rows, mask) {
        assert forall|t: int| 0 <= t < rows implies #[trigger] ops::row(y, t, w as int) == ops::row(
            z,
            t,
            w as int,
        ) by {
            ops::lemma_row_bounds(t, rows as int, w as int);
            lemma_line_of_blocks(rows, f, w, t);
            let a = equations::line(y, t, heads * d);
            let b = equations::line(z, t, heads * d);
            assert forall|h: int, j: int|
                #![trigger a[h * d + j]]
                0 <= h < heads && 0 <= j < d implies a[h * d + j] == b[h * d + j] by {
                assert(equations::line(z, t, heads * d)[h * d + j] == masked_element::<T, M>(
                    q,
                    keys,
                    values,
                    heads,
                    d,
                    rows,
                    mask,
                    t,
                    h,
                    j,
                ));
            }
            lemma_same_by_heads(a, b, heads as nat, d as nat);
        }
        lemma_same_by_lines(y, z, rows, w);
    }
}

spec fn masked_element<T: Scalar, M: Math<T>>(
    q: Seq<T>,
    keys: Seq<T>,
    values: Seq<T>,
    heads: usize,
    d: usize,
    rows: nat,
    mask: Seq<i64>,
    t: int,
    h: int,
    j: int,
) -> T {
    let w = heads * d;
    let f = |s: int|
        if mask[s] == 0 {
            scalar::lowest::<T, M>()
        } else {
            equations::match_of::<T, M>(
                equations::line(q, t, w),
                keys,
                heads as int,
                heads as int,
                d,
                h,
                s,
            )
        };
    equations::sigma(
        rows,
        |s: int|
            scalar::times(
                equations::masked_softmax_at::<T, M>(rows, f, mask, s),
                values[s * w + h * d + j],
            ),
    )
}

proof fn lemma_masked_row<T: Scalar, M: Math<T>>(
    q: Seq<T>,
    keys: Seq<T>,
    values: Seq<T>,
    heads: usize,
    d: usize,
    rows: nat,
    mask: Seq<i64>,
    t: int,
)
    requires
        heads > 0,
        q.len() == rows * (heads * d),
        keys.len() == rows * (heads * d),
        rows <= mask.len(),
        0 <= t < rows,
    ensures
        ({
            let r = masked_attention::masked_row::<T, M>(
                ops::row(q, t, (heads as nat * d) as int),
                keys,
                values,
                heads as nat,
                d,
                mask,
                rows,
            );
            &&& r.len() == heads * d
            &&& forall|h: int, j: int|
                #![trigger r[h * d + j]]
                0 <= h < heads && 0 <= j < d ==> r[h * d + j] == masked_element::<T, M>(
                    q,
                    keys,
                    values,
                    heads,
                    d,
                    rows,
                    mask,
                    t,
                    h,
                    j,
                )
        }),
{
    let w = heads as nat * d as nat;
    let qt = ops::row(q, t, w as int);
    ops::lemma_row_bounds(t, rows as int, w as int);
    assert(qt == equations::line(q, t, w as int));
    let scale = attention::attention_scale::<T, M>(d);
    let g = |h: int|
        masked_attention::masked_head::<T, M>(
            ops::row(qt, h, d as int),
            keys,
            values,
            (heads as nat * d) as int,
            h * d,
            mask,
            rows,
            scale,
        );
    assert forall|h: int| 0 <= h < heads implies #[trigger] g(h).len() == d by {
        ops::lemma_row_bounds(h, heads as int, d as int);
    }
    ops::lemma_blocks_rows(heads as nat, g, d as nat);
    let r = masked_attention::masked_row::<T, M>(qt, keys, values, heads as nat, d, mask, rows);
    assert(r == ops::blocks(heads as nat, g));
    assert forall|h: int, j: int|
        #![trigger r[h * d + j]]
        0 <= h < heads && 0 <= j < d implies r[h * d + j] == masked_element::<T, M>(
        q,
        keys,
        values,
        heads,
        d,
        rows,
        mask,
        t,
        h,
        j,
    ) by {
        ops::lemma_row_bounds(h, heads as int, d as int);
        assert(ops::row(r, h, d as int) == g(h));
        assert(ops::row(r, h, d as int)[j] == r[h * d + j]);
        lemma_masked_element::<T, M>(q, keys, values, heads, d, rows, mask, t, h, j);
    }
}

proof fn lemma_masked_element<T: Scalar, M: Math<T>>(
    q: Seq<T>,
    keys: Seq<T>,
    values: Seq<T>,
    heads: usize,
    d: usize,
    rows: nat,
    mask: Seq<i64>,
    t: int,
    h: int,
    j: int,
)
    requires
        heads > 0,
        q.len() == rows * (heads * d),
        keys.len() == rows * (heads * d),
        rows <= mask.len(),
        0 <= t < rows,
        0 <= h < heads,
        0 <= j < d,
    ensures
        masked_attention::masked_head::<T, M>(
            ops::row(ops::row(q, t, (heads as nat * d) as int), h, d as int),
            keys,
            values,
            (heads as nat * d) as int,
            h * d,
            mask,
            rows,
            attention::attention_scale::<T, M>(d),
        )[j] == masked_element::<T, M>(q, keys, values, heads, d, rows, mask, t, h, j),
{
    let w = heads as nat * d as nat;
    let qt = equations::line(q, t, w as int);
    ops::lemma_row_bounds(t, rows as int, w as int);
    let qh = ops::row(qt, h, d as int);
    let off = h * d;
    ops::lemma_row_bounds(h, heads as int, d as int);
    assert(heads as int / heads as int == 1) by {
        vstd::arithmetic::div_mod::lemma_div_basics(heads as int);
    }
    let scores = masked_attention::masked_scores::<T, M>(
        qh,
        keys,
        w as int,
        off,
        mask,
        rows,
        attention::attention_scale::<T, M>(d),
    );
    let f = |s: int|
        if mask[s] == 0 {
            scalar::lowest::<T, M>()
        } else {
            equations::match_of::<T, M>(
                equations::line(q, t, heads * d),
                keys,
                heads as int,
                heads as int,
                d,
                h,
                s,
            )
        };
    assert forall|s: int| 0 <= s < rows implies #[trigger] scores[s] == f(s) by {
        let k = attention::head_of(keys, s, w as int, off, d as int);
        ops::lemma_row_bounds(s, rows as int, w as int);
        lemma_dot_is_sigma(qh, k, d as nat);
        lemma_sigma_same(
            d as nat,
            |i: int| scalar::times(qh[i], k[i]),
            |i: int|
                scalar::times(
                    qt[h * d + i],
                    keys[s * (heads as int * d) + (h / (heads as int / heads as int)) * d + i],
                ),
        );
    }
    let wt = masked_attention::masked_weights::<T, M>(scores, mask);
    lemma_mixed_is_sigma(wt, values, w as int, off, 0, rows, j);
    lemma_highest::<T, M>(scores, f, mask, rows);
    let top = equations::masked_maximum::<T, M>(rows, f, mask);
    let e = |k: int| scalar::exp_of::<T, M>(scalar::minus(f(k), top));
    lemma_lifted_total::<T, M>(scores, f, e, top, rows);
    let a = |s: int| scalar::times(wt[s], values[(0 + s) * w as int + off + j]);
    let b = |s: int|
        scalar::times(
            equations::masked_softmax_at::<T, M>(rows, f, mask, s),
            values[s * (heads * d) + h * d + j],
        );
    assert forall|s: int| 0 <= s < rows implies #[trigger] a(s) == b(s) by {
        assert(scores[s] == f(s));
    }
    lemma_sigma_same(rows, a, b);
}

proof fn lemma_highest<T: Scalar, M: Math<T>>(
    scores: Seq<T>,
    f: spec_fn(int) -> T,
    mask: Seq<i64>,
    n: nat,
)
    requires
        n <= scores.len(),
        forall|s: int| 0 <= s < scores.len() ==> #[trigger] scores[s] == f(s),
    ensures
        masked_attention::highest::<T, M>(scores, mask, n) == equations::masked_maximum::<T, M>(
            n,
            f,
            mask,
        ),
    decreases n,
{
    if n > 0 {
        lemma_highest::<T, M>(scores, f, mask, (n - 1) as nat);
        assert(scores[n - 1] == f(n - 1));
    }
}

proof fn lemma_lifted_total<T: Scalar, M: Math<T>>(
    scores: Seq<T>,
    f: spec_fn(int) -> T,
    e: spec_fn(int) -> T,
    top: T,
    n: nat,
)
    requires
        n <= scores.len(),
        forall|s: int| 0 <= s < scores.len() ==> #[trigger] scores[s] == f(s),
        e == (|k: int| scalar::exp_of::<T, M>(scalar::minus(f(k), top))),
    ensures
        masked_attention::lifted_total::<T, M>(scores, top, n) == equations::finite_sigma::<T, M>(
            n,
            f,
            e,
        ),
    decreases n,
{
    if n > 0 {
        lemma_lifted_total::<T, M>(scores, f, e, top, (n - 1) as nat);
        assert(scores[n - 1] == f(n - 1));
    }
}

/// The error function's polynomial of degree five in `t = 1 / (1 + p |x|)`, and
/// the Gaussian error linear unit `x / 2 * (1 + erf(x / sqrt 2))`.
pub proof fn lemma_erf<T: Scalar, M: Math<T>>(x: T, t: T)
    requires
        t == scalar::over(
            scalar::one::<T, M>(),
            scalar::plus(
                scalar::one::<T, M>(),
                scalar::times(
                    scalar::binary64_of::<T, M>(0x3FD4_F740_A93D_7B8C),
                    if scalar::is_greater::<T, M>(scalar::zero(), x) {
                        scalar::negated(x)
                    } else {
                        x
                    },
                ),
            ),
        ),
    ensures
        ({
            let one = scalar::one::<T, M>();
            let c = |bits: u64| scalar::binary64_of::<T, M>(bits);
            let (a1, a2) = (c(0x3FD0_4F20_C6EC_5A7E), c(0xBFD2_3531_CC3C_1469));
            let (a3, a4) = (c(0x3FF6_BE1C_55BA_E157), c(0xBFF7_401C_5701_4C39));
            let a5 = c(0x3FF0_FB84_4255_A12D);
            let poly = scalar::times(
                scalar::plus(
                    scalar::times(
                        scalar::plus(
                            scalar::times(
                                scalar::plus(
                                    scalar::times(scalar::plus(scalar::times(a5, t), a4), t),
                                    a3,
                                ),
                                t,
                            ),
                            a2,
                        ),
                        t,
                    ),
                    a1,
                ),
                t,
            );
            let below = scalar::is_greater::<T, M>(scalar::zero(), x);
            let a = if below {
                scalar::negated(x)
            } else {
                x
            };
            let size = scalar::minus(
                one,
                scalar::times(
                    poly,
                    scalar::exp_of::<T, M>(scalar::times(scalar::negated(a), a)),
                ),
            );
            &&& !below ==> gelu::erf_of::<T, M>(x) == scalar::times(one, size)
            &&& below ==> gelu::erf_of::<T, M>(x) == scalar::times(scalar::negated(one), size)
        }),
        roberta::gelu_erf_of::<T, M>(x) == scalar::times(
            scalar::times(scalar::binary64_of::<T, M>(0x3FE0_0000_0000_0000), x),
            scalar::plus(
                scalar::one::<T, M>(),
                gelu::erf_of::<T, M>(
                    scalar::over(x, scalar::binary64_of::<T, M>(0x3FF6_A09E_667F_3BCD)),
                ),
            ),
        ),
{
}

/// The heads of every row are normalised as those of one row are.
pub proof fn lemma_head_normed_rows<T: Scalar, M: Math<T>>(
    x: Seq<T>,
    w: Seq<T>,
    rows: nat,
    heads: nat,
    d: nat,
    eps: T,
    t: int,
)
    requires
        x.len() == rows * (heads * d),
        0 <= t < rows,
    ensures
        norm::head_normed::<T, M>(x, w, rows, heads, d, eps).len() == rows * (heads * d),
        equations::is_head_normed::<T, M>(
            equations::line(
                norm::head_normed::<T, M>(x, w, rows, heads, d, eps),
                t,
                (heads * d) as int,
            ),
            equations::line(x, t, (heads * d) as int),
            w,
            heads,
            d,
            eps,
        ),
{
    let n = heads * d;
    let f = |i: int|
        norm::head_normed_row::<T, M>(ops::row(x, i, (heads * d) as int), w, heads, d, eps);
    assert forall|i: int| 0 <= i < rows implies #[trigger] f(i).len() == n by {
        ops::lemma_row_bounds(i, rows as int, n as int);
        norm::lemma_head_normed_len::<T, M>(ops::row(x, i, n as int), w, heads, d, eps);
    }
    lemma_line_of_blocks(rows, f, n, t);
    ops::lemma_row_bounds(t, rows as int, n as int);
    lemma_head_normed::<T, M>(f(t), ops::row(x, t, n as int), w, heads, d, eps);
}

/// The product of a matrix with a transposed one has at `(i, j)` row `i` of the
/// first times row `j` of the second.
pub proof fn lemma_product_element<T: Scalar>(
    a: Seq<T>,
    b: Seq<T>,
    m: nat,
    k: nat,
    n: nat,
    i: int,
    j: int,
)
    requires
        a.len() == m * k,
        b.len() == n * k,
        0 <= i < m,
        0 <= j < n,
    ensures
        ops::product(a, b, m, k, n).len() == m * n,
        ops::product(a, b, m, k, n)[i * n + j] == equations::sigma(
            k,
            |e: int| scalar::times(a[i * k + e], b[j * k + e]),
        ),
{
    let f = |r: int| ops::product_row(a, b, r, k, n);
    lemma_line_of_blocks(m, f, n, i);
    let z = ops::product(a, b, m, k, n);
    assert(z == ops::blocks(m, f));
    ops::lemma_row_bounds(i, m as int, n as int);
    ops::lemma_row_bounds(i, m as int, k as int);
    ops::lemma_row_bounds(j, n as int, k as int);
    assert(equations::line(z, i, n as int)[j] == z[i * n + j]);
    let (p, q) = (ops::row(a, i, k as int), ops::row(b, j, k as int));
    lemma_dot_is_sigma(p, q, k);
    lemma_sigma_same(
        k,
        |e: int| scalar::times(p[e], q[e]),
        |e: int| scalar::times(a[i * k + e], b[j * k + e]),
    );
}

} // verus!
