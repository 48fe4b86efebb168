//! Padding-aware bidirectional attention.

use vstd::prelude::*;
use vstd::slice::slice_subrange;

use crate::attention;
use crate::buffer::extend;
use crate::ops;
use crate::ops::{dot_product, row_slice};
use crate::scalar;
use crate::scalar::{Math, Scalar};

verus! {

/// The scores of a query head against all keys; a masked key has the lowest
/// score.
pub open spec fn masked_scores<T: Scalar, M: Math<T>>(
    q: Seq<T>,
    k: Seq<T>,
    stride: int,
    off: int,
    mask: Seq<i64>,
    n: nat,
    scale: T,
) -> Seq<T> {
    Seq::new(
        n,
        |s: int|
            if mask[s] == 0 {
                scalar::lowest::<T, M>()
            } else {
                scalar::times(
                    ops::dot(
                        q,
                        attention::head_of(k, s, stride, off, q.len() as int),
                        q.len(),
                    ),
                    scale,
                )
            },
    )
}

/// The highest of the first `n` scores that are not masked.
pub open spec fn highest<T, M: Math<T>>(scores: Seq<T>, mask: Seq<i64>, n: nat) -> T
    decreases n,
{
    if n == 0 {
        scalar::lowest::<T, M>()
    } else {
        let before = highest::<T, M>(scores, mask, (n - 1) as nat);
        if mask[n - 1] != 0 && scalar::is_greater::<T, M>(scores[n - 1], before) {
            scores[n - 1]
        } else {
            before
        }
    }
}

/// `exp(score - top)` for a finite score, zero for any other.
pub open spec fn lifted<T: Scalar, M: Math<T>>(score: T, top: T) -> T {
    if scalar::finite::<T, M>(score) {
        scalar::exp_of::<T, M>(scalar::minus(score, top))
    } else {
        scalar::zero()
    }
}

/// The sum of the first `n` lifted scores, over the finite ones.
pub open spec fn lifted_total<T: Scalar, M: Math<T>>(scores: Seq<T>, top: T, n: nat) -> T
    decreases n,
{
    if n == 0 {
        scalar::zero()
    } else {
        let before = lifted_total::<T, M>(scores, top, (n - 1) as nat);
        if scalar::finite::<T, M>(scores[n - 1]) {
            scalar::plus(before, lifted::<T, M>(scores[n - 1], top))
        } else {
            before
        }
    }
}

/// The softmax over the finite scores; where nothing can be weighed, the
/// lifted scores as they are.
pub open spec fn masked_weights<T: Scalar, M: Math<T>>(scores: Seq<T>, mask: Seq<i64>) -> Seq<T> {
    let top = highest::<T, M>(scores, mask, scores.len());
    let sum = lifted_total::<T, M>(scores, top, scores.len());
    Seq::new(
        scores.len(),
        |s: int|
            if scalar::is_greater::<T, M>(sum, scalar::zero()) {
                scalar::over(lifted::<T, M>(scores[s], top), sum)
            } else {
                lifted::<T, M>(scores[s], top)
            },
    )
}

/// What one query head sees of all rows that are not masked.
pub open spec fn masked_head<T: Scalar, M: Math<T>>(
    q: Seq<T>,
    k: Seq<T>,
    v: Seq<T>,
    stride: int,
    off: int,
    mask: Seq<i64>,
    n: nat,
    scale: T,
) -> Seq<T> {
    let w = masked_weights::<T, M>(
        masked_scores::<T, M>(q, k, stride, off, mask, n, scale),
        mask,
    );
    Seq::new(q.len(), |j: int| attention::mixed(w, v, stride, off, 0, n, j))
}

/// What a row of query heads sees.
pub open spec fn masked_row<T: Scalar, M: Math<T>>(
    q: Seq<T>,
    k: Seq<T>,
    v: Seq<T>,
    heads: nat,
    head_dim: usize,
    mask: Seq<i64>,
    n: nat,
) -> Seq<T> {
    ops::blocks(
        heads,
        |h: int|
            masked_head::<T, M>(
                ops::row(q, h, head_dim as int),
                k,
                v,
                (heads * head_dim) as int,
                h * head_dim,
                mask,
                n,
                attention::attention_scale::<T, M>(head_dim),
            ),
    )
}

/// What all rows see.
pub open spec fn masked_output<T: Scalar, M: Math<T>>(
    q: Seq<T>,
    k: Seq<T>,
    v: Seq<T>,
    n: nat,
    heads: nat,
    head_dim: usize,
    mask: Seq<i64>,
) -> Seq<T> {
    ops::blocks(
        n,
        |t: int|
            masked_row::<T, M>(
                ops::row(q, t, (heads * head_dim) as int),
                k,
                v,
                heads,
                head_dim,
                mask,
                n,
            ),
    )
}

/// The lengths of outputs.
pub proof fn lemma_masked_row_len<T: Scalar, M: Math<T>>(
    q: Seq<T>,
    k: Seq<T>,
    v: Seq<T>,
    heads: nat,
    head_dim: usize,
    mask: Seq<i64>,
    n: nat,
)
    requires
        q.len() == heads * head_dim,
    ensures
        masked_row::<T, M>(q, k, v, heads, head_dim, mask, n).len() == heads * head_dim,
{
    let f = |h: int|
        masked_head::<T, M>(
            ops::row(q, h, head_dim as int),
            k,
            v,
            (heads * head_dim) as int,
            h * head_dim,
            mask,
            n,
            attention::attention_scale::<T, M>(head_dim),
        );
    assert forall|h: int| 0 <= h < heads implies #[trigger] f(h).len() == head_dim by {
        ops::lemma_row_bounds(h, heads as int, head_dim as int);
    }
    ops::lemma_blocks_len(heads, f, head_dim as nat);
}

fn attend_head<T: Scalar, M: Math<T>>(
    q: &[T],
    k: &[T],
    v: &[T],
    stride: usize,
    off: usize,
    mask: &[i64],
    n: usize,
    scale: T,
) -> (r: Vec<T>)
    requires
        scalar::mathematics::<T, M>(),
        off + q@.len() <= stride,
        n * stride <= k@.len(),
        n * stride <= v@.len(),
        n <= mask@.len(),
    ensures
        r@ == masked_head::<T, M>(
            q@,
            k@,
            v@,
            stride as int,
            off as int,
            mask@,
            n as nat,
            scale,
        ),
        r@.len() == q@.len(),
{
    let d = q.len();
    let k_len = k.len();
    let v_len = v.len();
    let ghost all = masked_scores::<T, M>(
        q@,
        k@,
        stride as int,
        off as int,
        mask@,
        n as nat,
        scale,
    );
    let mut scores: Vec<T> = Vec::with_capacity(n);
    let mut max = M::lowest();
    for s in 0..n
        invariant
            scalar::mathematics::<T, M>(),
            d == q@.len(),
            off + d <= stride,
            n * stride <= k_len,
            k_len == k@.len(),
            n <= mask@.len(),
            all == masked_scores::<T, M>(
                q@,
                k@,
                stride as int,
                off as int,
                mask@,
                n as nat,
                scale,
            ),
            scores@ == all.take(s as int),
            max == highest::<T, M>(all, mask@, s as nat),
    {
        if mask[s] == 0 {
            scores.push(M::lowest());
        } else {
            proof {
                ops::lemma_row_bounds(s as int, n as int, stride as int);
            }
            let at = s * stride + off;
            let key = slice_subrange(k, at, at + d);
            assert(key@ =~= attention::head_of(
                k@,
                s as int,
                stride as int,
                off as int,
                d as int,
            ));
            let score = dot_product(q, key) * scale;
            scores.push(score);
            if M::greater(score, max) {
                max = score;
            }
        }
        assert(scores@ =~= all.take(s + 1));
    }
    assert(scores@ =~= all);
    let ghost top = max;
    let mut sum = T::default();
    let mut lifts: Vec<T> = Vec::with_capacity(n);
    for s in 0..n
        invariant
            scalar::mathematics::<T, M>(),
            scores@ == all,
            all.len() == n,
            max == top,
            sum == lifted_total::<T, M>(all, top, s as nat),
            lifts@ == Seq::new(s as nat, |s: int| lifted::<T, M>(all[s], top)),
    {
        if M::is_finite(scores[s]) {
            let e = M::exp(scores[s] - max);
            sum = sum + e;
            lifts.push(e);
        } else {
            lifts.push(T::default());
        }
        assert(lifts@ =~= Seq::new((s + 1) as nat, |s: int| lifted::<T, M>(all[s], top)));
    }
    let positive = M::greater(sum, T::default());
    let ghost goal = masked_weights::<T, M>(all, mask@);
    let mut weights: Vec<T> = Vec::with_capacity(n);
    for s in 0..n
        invariant
            scalar::mathematics::<T, M>(),
            all.len() == n,
            lifts@ == Seq::new(n as nat, |s: int| lifted::<T, M>(all[s], top)),
            top == highest::<T, M>(all, mask@, n as nat),
            sum == lifted_total::<T, M>(all, top, n as nat),
            positive == scalar::is_greater::<T, M>(sum, scalar::zero::<T>()),
            goal == masked_weights::<T, M>(all, mask@),
            weights@ == goal.take(s as int),
    {
        if positive {
            weights.push(lifts[s] / sum);
        } else {
            weights.push(lifts[s]);
        }
        assert(weights@ =~= goal.take(s + 1));
    }
    assert(weights@ =~= goal);
    let ghost out = masked_head::<T, M>(
        q@,
        k@,
        v@,
        stride as int,
        off as int,
        mask@,
        n as nat,
        scale,
    );
    let mut r: Vec<T> = Vec::with_capacity(d);
    for j in 0..d
        invariant
            scalar::mathematics::<T, M>(),
            d == q@.len(),
            off + d <= stride,
            n * stride <= v_len,
            v_len == v@.len(),
            weights@ == goal,
            goal.len() == n,
            out == Seq::new(
                d as nat,
                |j: int|
                    attention::mixed(goal, v@, stride as int, off as int, 0, n as nat, j),
            ),
            r@ == out.take(j as int),
    {
        let mut val = T::default();
        for s in 0..n
            invariant
                scalar::mathematics::<T, M>(),
                j < d,
                off + d <= stride,
                n * stride <= v_len,
                v_len == v@.len(),
                weights@ == goal,
                goal.len() == n,
                val == attention::mixed(
                    goal,
                    v@,
                    stride as int,
                    off as int,
                    0,
                    s as nat,
                    j as int,
                ),
        {
            proof {
                ops::lemma_row_bounds(s as int, n as int, stride as int);
            }
            val = val + weights[s] * v[s * stride + off + j];
        }
        r.push(val);
        assert(r@ =~= out.take(j + 1));
    }
    assert(r@ =~= out);
    r
}

fn attend_row<T: Scalar, M: Math<T>>(
    q: &[T],
    k: &[T],
    v: &[T],
    heads: usize,
    head_dim: usize,
    mask: &[i64],
    n: usize,
) -> (r: Vec<T>)
    requires
        scalar::mathematics::<T, M>(),
        heads * head_dim <= usize::MAX,
        q@.len() == heads * head_dim,
        n * (heads * head_dim) <= k@.len(),
        n * (heads * head_dim) <= v@.len(),
        n <= mask@.len(),
    ensures
        r@ == masked_row::<T, M>(q@, k@, v@, heads as nat, head_dim, mask@, n as nat),
        r@.len() == heads * head_dim,
{
    let stride = heads * head_dim;
    let scale = M::one() / M::sqrt(M::count(head_dim));
    let ghost f = |h: int|
        masked_head::<T, M>(
            ops::row(q@, h, head_dim as int),
            k@,
            v@,
            stride as int,
            h * head_dim,
            mask@,
            n as nat,
            scale,
        );
    let mut out: Vec<T> = Vec::with_capacity(stride);
    for h in 0..heads
        invariant
            scalar::mathematics::<T, M>(),
            stride == heads * head_dim,
            q@.len() == stride,
            n * stride <= k@.len(),
            n * stride <= v@.len(),
            n <= mask@.len(),
            f == (|h: int|
                masked_head::<T, M>(
                    ops::row(q@, h, head_dim as int),
                    k@,
                    v@,
                    stride as int,
                    h * head_dim,
                    mask@,
                    n as nat,
                    scale,
                )),
            out@ == ops::blocks(h as nat, f),
    {
        proof {
            ops::lemma_row_bounds(h as int, heads as int, head_dim as int);
        }
        let y = attend_head::<T, M>(
            row_slice(q, h, head_dim),
            k,
            v,
            stride,
            h * head_dim,
            mask,
            n,
            scale,
        );
        extend(&mut out, y.as_slice());
        assert(out@ =~= ops::blocks((h + 1) as nat, f));
    }
    proof {
        assert(scale == attention::attention_scale::<T, M>(head_dim));
        lemma_masked_row_len::<T, M>(q@, k@, v@, heads as nat, head_dim, mask@, n as nat);
    }
    out
}

/// Padding-aware bidirectional attention. Tokens where
/// `attention_mask[i] == 0` are excluded from the softmax, so `[CLS]` does not
/// attend to padding slots.
pub fn masked_bidirectional_attention<T: Scalar, M: Math<T>>(
    q: &[T],
    k: &[T],
    v: &[T],
    seq_len: usize,
    num_heads: usize,
    head_dim: usize,
    attention_mask: &[i64],
) -> (r: Vec<T>)
    requires
        scalar::mathematics::<T, M>(),
        num_heads * head_dim <= usize::MAX,
        q@.len() == seq_len * (num_heads * head_dim),
        k@.len() == seq_len * (num_heads * head_dim),
        v@.len() == seq_len * (num_heads * head_dim),
        seq_len <= attention_mask@.len(),
    ensures
        r@ == masked_output::<T, M>(
            q@,
            k@,
            v@,
            seq_len as nat,
            num_heads as nat,
            head_dim,
            attention_mask@,
        ),
        r@.len() == seq_len * (num_heads * head_dim),
{
    let width = num_heads * head_dim;
    let ghost f = |t: int|
        masked_row::<T, M>(
            ops::row(q@, t, width as int),
            k@,
            v@,
            num_heads as nat,
            head_dim,
            attention_mask@,
            seq_len as nat,
        );
    let mut out: Vec<T> = Vec::new();
    assert(0 * width == 0) by (nonlinear_arith);
    for t in 0..seq_len
        invariant
            scalar::mathematics::<T, M>(),
            width == num_heads * head_dim,
            q@.len() == seq_len * width,
            k@.len() == seq_len * width,
            v@.len() == seq_len * width,
            seq_len <= attention_mask@.len(),
            f == (|t: int|
                masked_row::<T, M>(
                    ops::row(q@, t, width as int),
                    k@,
                    v@,
                    num_heads as nat,
                    head_dim,
                    attention_mask@,
                    seq_len as nat,
                )),
            out@ == ops::blocks(t as nat, f),
            out@.len() == t * width,
    {
        proof {
            ops::lemma_row_bounds(t as int, seq_len as int, width as int);
            assert((t + 1) * width == t * width + width) by (nonlinear_arith);
        }
        let y = attend_row::<T, M>(
            row_slice(q, t, width),
            k,
            v,
            num_heads,
            head_dim,
            attention_mask,
            seq_len,
        );
        extend(&mut out, y.as_slice());
        assert(out@ =~= ops::blocks((t + 1) as nat, f));
    }
    out
}

// ── Laws ─────────────────────────────────────────────────────────────

/// The keys of masked rows have no say in what a query head sees.
pub proof fn lemma_masked_keys_ignored<T: Scalar, M: Math<T>>(
    q: Seq<T>,
    k: Seq<T>,
    other: Seq<T>,
    v: Seq<T>,
    stride: int,
    off: int,
    mask: Seq<i64>,
    n: nat,
    scale: T,
)
    requires
        forall|s: int|
            0 <= s < n && #[trigger] mask[s] != 0 ==> attention::head_of(
                k,
                s,
                stride,
                off,
                q.len() as int,
            ) == attention::head_of(other, s, stride, off, q.len() as int),
    ensures
        masked_head::<T, M>(q, k, v, stride, off, mask, n, scale) == masked_head::<T, M>(
            q,
            other,
            v,
            stride,
            off,
            mask,
            n,
            scale,
        ),
{
    assert(masked_scores::<T, M>(q, k, stride, off, mask, n, scale) =~= masked_scores::<T, M>(
        q,
        other,
        stride,
        off,
        mask,
        n,
        scale,
    ));
}

/// A masked row is lifted to zero: it adds nothing to the sum that weights are
/// taken from, and its value is weighed with zero, or with zero over that sum.
pub proof fn lemma_masked_rows_weigh_nothing<T: Scalar, M: Math<T>>(
    q: Seq<T>,
    k: Seq<T>,
    stride: int,
    off: int,
    mask: Seq<i64>,
    n: nat,
    scale: T,
    s: int,
)
    requires
        !scalar::finite::<T, M>(scalar::lowest::<T, M>()),
        0 <= s < n,
        mask[s] == 0,
    ensures
        ({
            let scores = masked_scores::<T, M>(q, k, stride, off, mask, n, scale);
            let top = highest::<T, M>(scores, mask, n);
            let sum = lifted_total::<T, M>(scores, top, n);
            &&& lifted_total::<T, M>(scores, top, (s + 1) as nat) == lifted_total::<T, M>(
                scores,
                top,
                s as nat,
            )
            &&& masked_weights::<T, M>(scores, mask)[s] == if scalar::is_greater::<T, M>(
                sum,
                scalar::zero(),
            ) {
                scalar::over(scalar::zero(), sum)
            } else {
                scalar::zero()
            }
        }),
{
}

} // verus!
