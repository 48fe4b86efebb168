//! Scaled dot-product attention over flat `[positions, heads * head_dim]`
//! matrices, with key/value heads shared by groups of query heads.

use vstd::prelude::*;
use vstd::slice::slice_subrange;

use crate::buffer::extend;
use crate::ops;
use crate::ops::{dot_product, row_slice, softmax};
use crate::scalar;
use crate::scalar::{Math, Scalar};

verus! {

/// The `d` elements of row `i` that start at column `off`.
pub open spec fn head_of<T>(x: Seq<T>, i: int, stride: int, off: int, d: int) -> Seq<T> {
    x.subrange(i * stride + off, i * stride + off + d)
}

/// The scores of query `q` against the keys of the rows `start..start + n`.
pub open spec fn scores_of<T: Scalar>(
    q: Seq<T>,
    k: Seq<T>,
    stride: int,
    off: int,
    start: int,
    n: nat,
    scale: T,
) -> Seq<T> {
    Seq::new(
        n,
        |s: int|
            scalar::times(
                ops::dot(q, head_of(k, start + s, stride, off, q.len() as int), q.len()),
                scale,
            ),
    )
}

/// Column `j` of the values, weighted by the first `n` of `w`.
pub open spec fn mixed<T: Scalar>(
    w: Seq<T>,
    v: Seq<T>,
    stride: int,
    off: int,
    start: int,
    n: nat,
    j: int,
) -> T
    decreases n,
{
    if n == 0 {
        scalar::zero()
    } else {
        scalar::plus(
            mixed(w, v, stride, off, start, (n - 1) as nat, j),
            scalar::times(w[n - 1], v[(start + n - 1) * stride + off + j]),
        )
    }
}

/// What one query head sees of the rows `start..start + n`.
pub open spec fn attended<T: Scalar, M: Math<T>>(
    q: Seq<T>,
    k: Seq<T>,
    v: Seq<T>,
    stride: int,
    off: int,
    start: int,
    n: nat,
    scale: T,
) -> Seq<T> {
    let w = ops::softmax_of::<T, M>(scores_of(q, k, stride, off, start, n, scale));
    Seq::new(q.len(), |j: int| mixed(w, v, stride, off, start, n, j))
}

proof fn lemma_head_bounds(i: int, rows: int, stride: int, off: int, d: int)
    requires
        0 <= i < rows,
        0 <= off,
        0 <= d,
        off + d <= stride,
    ensures
        0 <= i * stride,
        0 <= i * stride + off,
        i * stride + off + d <= rows * stride,
{
    ops::lemma_row_bounds(i, rows, stride);
}

/// Attention of one query head over the rows `start..start + n`.
pub fn attend<T: Scalar, M: Math<T>>(
    q: &[T],
    k: &[T],
    v: &[T],
    stride: usize,
    off: usize,
    start: usize,
    n: usize,
    scale: T,
) -> (r: Vec<T>)
    requires
        scalar::mathematics::<T, M>(),
        off + q@.len() <= stride,
        (start + n) * stride <= k@.len(),
        (start + n) * stride <= v@.len(),
        start + n <= usize::MAX,
    ensures
        r@ == attended::<T, M>(
            q@,
            k@,
            v@,
            stride as int,
            off as int,
            start as int,
            n as nat,
            scale,
        ),
        r@.len() == q@.len(),
{
    let d = q.len();
    let k_len = k.len();
    let v_len = v.len();
    let mut scores: Vec<T> = Vec::with_capacity(n);
    for s in 0..n
        invariant
            scalar::mathematics::<T, M>(),
            d == q@.len(),
            off + d <= stride,
            (start + n) * stride <= k@.len(),
            k_len == k@.len(),
            start + n <= usize::MAX,
            scores@ == scores_of(
                q@,
                k@,
                stride as int,
                off as int,
                start as int,
                s as nat,
                scale,
            ),
    {
        proof {
            lemma_head_bounds(start + s, start + n, stride as int, off as int, d as int);
        }
        let at = (start + s) * stride + off;
        let head = slice_subrange(k, at, at + d);
        let y = dot_product(q, head) * scale;
        scores.push(y);
        assert(scores@ =~= scores_of(
            q@,
            k@,
            stride as int,
            off as int,
            start as int,
            (s + 1) as nat,
            scale,
        ));
    }
    let w = softmax::<T, M>(scores.as_slice());
    let mut out: Vec<T> = Vec::with_capacity(d);
    for j in 0..d
        invariant
            scalar::mathematics::<T, M>(),
            d == q@.len(),
            off + d <= stride,
            (start + n) * stride <= v@.len(),
            v_len == v@.len(),
            start + n <= usize::MAX,
            w@.len() == n,
            out@ == Seq::new(
                j as nat,
                |j: int| mixed(w@, v@, stride as int, off as int, start as int, n as nat, j),
            ),
    {
        let mut sum = T::default();
        for s in 0..n
            invariant
                scalar::mathematics::<T, M>(),
                d == q@.len(),
                j < d,
                off + d <= stride,
                (start + n) * stride <= v@.len(),
                v_len == v@.len(),
                start + n <= usize::MAX,
                w@.len() == n,
                sum == mixed(
                    w@,
                    v@,
                    stride as int,
                    off as int,
                    start as int,
                    s as nat,
                    j as int,
                ),
        {
            proof {
                lemma_head_bounds(start + s, start + n, stride as int, off as int, d as int);
            }
            sum = sum + w[s] * v[(start + s) * stride + off + j];
        }
        out.push(sum);
        assert(out@ =~= Seq::new(
            (j + 1) as nat,
            |j: int| mixed(w@, v@, stride as int, off as int, start as int, n as nat, j),
        ));
    }
    assert(out@ =~= attended::<T, M>(
        q@,
        k@,
        v@,
        stride as int,
        off as int,
        start as int,
        n as nat,
        scale,
    ));
    out
}

/// How the heads of an attention layer are laid out.
#[derive(Debug, Clone, Copy, PartialEq, Eq, Structural)]
pub struct HeadLayout {
    pub num_heads: usize,
    pub num_kv_heads: usize,
    pub head_dim: usize,
}

impl HeadLayout {
    /// The query heads share the key/value heads evenly, and the row widths
    /// are machine integers.
    pub open spec fn wf(self) -> bool {
        &&& self.num_kv_heads > 0
        &&& self.num_heads % self.num_kv_heads == 0
        &&& self.num_heads * self.head_dim <= usize::MAX
        &&& self.num_kv_heads * self.head_dim <= usize::MAX
    }

    /// Columns of a query row.
    pub open spec fn q_dim(self) -> nat {
        self.num_heads as nat * self.head_dim as nat
    }

    /// Columns of a key or value row.
    pub open spec fn kv_dim(self) -> nat {
        self.num_kv_heads as nat * self.head_dim as nat
    }

    /// The key/value head that query head `head` reads.
    pub open spec fn kv_head(self, head: int) -> int {
        head / (self.num_heads as int / self.num_kv_heads as int)
    }
}

/// The factor `1 / sqrt(head_dim)`.
pub open spec fn attention_scale<T: Scalar, M: Math<T>>(head_dim: usize) -> T {
    scalar::over(
        scalar::one::<T, M>(),
        scalar::sqrt_of::<T, M>(scalar::count_of::<T, M>(head_dim)),
    )
}

/// What query head `head` of a row sees.
pub open spec fn head_output<T: Scalar, M: Math<T>>(
    layout: HeadLayout,
    q: Seq<T>,
    k: Seq<T>,
    v: Seq<T>,
    head: int,
    start: int,
    n: nat,
) -> Seq<T> {
    let d = layout.head_dim as int;
    attended::<T, M>(
        ops::row(q, head, d),
        k,
        v,
        layout.kv_dim() as int,
        layout.kv_head(head) * d,
        start,
        n,
        attention_scale::<T, M>(layout.head_dim),
    )
}

/// What the query row `q` sees, head after head.
pub open spec fn row_output<T: Scalar, M: Math<T>>(
    layout: HeadLayout,
    q: Seq<T>,
    k: Seq<T>,
    v: Seq<T>,
    start: int,
    n: nat,
) -> Seq<T> {
    ops::blocks(
        layout.num_heads as nat,
        |head: int| head_output::<T, M>(layout, q, k, v, head, start, n),
    )
}

/// The key/value head of a query head exists, and its columns lie in a row.
pub proof fn lemma_kv_head(layout: HeadLayout, head: int)
    requires
        layout.wf(),
        0 <= head < layout.num_heads,
    ensures
        layout.num_heads / layout.num_kv_heads > 0,
        0 <= layout.kv_head(head) < layout.num_kv_heads,
        0 <= layout.kv_head(head) * layout.head_dim,
        layout.kv_head(head) * layout.head_dim + layout.head_dim <= layout.kv_dim(),
{
    let n = layout.num_heads as int;
    let m = layout.num_kv_heads as int;
    let g = n / m;
    assert(n == m * g) by {
        vstd::arithmetic::div_mod::lemma_fundamental_div_mod(n, m);
    }
    assert(g > 0) by (nonlinear_arith)
        requires
            n == m * g,
            n > 0,
            m > 0,
    ;
    assert(head / g < m) by (nonlinear_arith)
        requires
            0 <= head < m * g,
            g > 0,
    ;
    assert(0 <= head / g) by (nonlinear_arith)
        requires
            0 <= head,
            g > 0,
    ;
    ops::lemma_row_bounds(head / g, m, layout.head_dim as int);
}

pub proof fn lemma_row_output_len<T: Scalar, M: Math<T>>(
    layout: HeadLayout,
    q: Seq<T>,
    k: Seq<T>,
    v: Seq<T>,
    start: int,
    n: nat,
)
    requires
        q.len() == layout.q_dim(),
    ensures
        row_output::<T, M>(layout, q, k, v, start, n).len() == layout.q_dim(),
{
    let f = |head: int| head_output::<T, M>(layout, q, k, v, head, start, n);
    assert forall|head: int| 0 <= head < layout.num_heads implies #[trigger] f(head).len()
        == layout.head_dim by {
        ops::lemma_row_bounds(head, layout.num_heads as int, layout.head_dim as int);
    }
    ops::lemma_blocks_len(layout.num_heads as nat, f, layout.head_dim as nat);
}

/// Multi-head attention of one query row over the key/value rows
/// `start..start + n`.
pub fn attend_row<T: Scalar, M: Math<T>>(
    layout: HeadLayout,
    q: &[T],
    k: &[T],
    v: &[T],
    start: usize,
    n: usize,
) -> (r: Vec<T>)
    requires
        scalar::mathematics::<T, M>(),
        layout.wf(),
        q@.len() == layout.q_dim(),
        (start + n) * layout.kv_dim() <= k@.len(),
        (start + n) * layout.kv_dim() <= v@.len(),
        start + n <= usize::MAX,
    ensures
        r@ == row_output::<T, M>(layout, q@, k@, v@, start as int, n as nat),
        r@.len() == layout.q_dim(),
{
    let d = layout.head_dim;
    let kv_dim = layout.num_kv_heads * d;
    let scale = M::one() / M::sqrt(M::count(d));
    let ghost f = |head: int|
        head_output::<T, M>(layout, q@, k@, v@, head, start as int, n as nat);
    let mut out: Vec<T> = Vec::with_capacity(q.len());
    for head in 0..layout.num_heads
        invariant
            scalar::mathematics::<T, M>(),
            layout.wf(),
            d == layout.head_dim,
            kv_dim == layout.kv_dim(),
            scale == attention_scale::<T, M>(layout.head_dim),
            q@.len() == layout.q_dim(),
            (start + n) * layout.kv_dim() <= k@.len(),
            (start + n) * layout.kv_dim() <= v@.len(),
            start + n <= usize::MAX,
            f == (|head: int|
                head_output::<T, M>(layout, q@, k@, v@, head, start as int, n as nat)),
            out@ == ops::blocks(head as nat, f),
    {
        proof {
            lemma_kv_head(layout, head as int);
            ops::lemma_row_bounds(head as int, layout.num_heads as int, d as int);
        }
        let groups = layout.num_heads / layout.num_kv_heads;
        let kv_head = head / groups;
        let q_head = row_slice(q, head, d);
        let y = attend::<T, M>(q_head, k, v, kv_dim, kv_head * d, start, n, scale);
        extend(&mut out, y.as_slice());
        assert(out@ =~= ops::blocks((head + 1) as nat, f));
    }
    proof {
        lemma_row_output_len::<T, M>(layout, q@, k@, v@, start as int, n as nat);
    }
    out
}

/// The first row that a window of the last `window` of `len` rows holds.
pub open spec fn window_start(len: nat, window: Option<usize>) -> nat {
    match window {
        Some(w) => if len > w {
            (len - w) as nat
        } else {
            0
        },
        None => 0,
    }
}

/// Causal attention: row `t` sees the rows up to and including its own.
pub open spec fn causal_output<T: Scalar, M: Math<T>>(
    layout: HeadLayout,
    q: Seq<T>,
    k: Seq<T>,
    v: Seq<T>,
    rows: nat,
) -> Seq<T> {
    ops::blocks(
        rows,
        |t: int|
            row_output::<T, M>(
                layout,
                ops::row(q, t, layout.q_dim() as int),
                k,
                v,
                0,
                (t + 1) as nat,
            ),
    )
}

pub fn causal_attention<T: Scalar, M: Math<T>>(
    layout: HeadLayout,
    q: &[T],
    k: &[T],
    v: &[T],
    rows: usize,
) -> (r: Vec<T>)
    requires
        scalar::mathematics::<T, M>(),
        layout.wf(),
        q@.len() == rows * layout.q_dim(),
        k@.len() == rows * layout.kv_dim(),
        v@.len() == rows * layout.kv_dim(),
    ensures
        r@ == causal_output::<T, M>(layout, q@, k@, v@, rows as nat),
        r@.len() == rows * layout.q_dim(),
{
    let q_dim = layout.num_heads * layout.head_dim;
    let ghost f = |t: int|
        row_output::<T, M>(
            layout,
            ops::row(q@, t, layout.q_dim() as int),
            k@,
            v@,
            0,
            (t + 1) as nat,
        );
    let mut out: Vec<T> = Vec::with_capacity(q.len());
    for t in 0..rows
        invariant
            scalar::mathematics::<T, M>(),
            layout.wf(),
            q_dim == layout.q_dim(),
            q@.len() == rows * layout.q_dim(),
            k@.len() == rows * layout.kv_dim(),
            v@.len() == rows * layout.kv_dim(),
            f == (|t: int|
                row_output::<T, M>(
                    layout,
                    ops::row(q@, t, layout.q_dim() as int),
                    k@,
                    v@,
                    0,
                    (t + 1) as nat,
                )),
            out@ == ops::blocks(t as nat, f),
    {
        proof {
            ops::lemma_row_bounds(t as int, rows as int, q_dim as int);
            ops::lemma_row_bounds(t as int, rows as int, layout.kv_dim() as int);
        }
        let y = attend_row::<T, M>(layout, row_slice(q, t, q_dim), k, v, 0, t + 1);
        extend(&mut out, y.as_slice());
        assert(out@ =~= ops::blocks((t + 1) as nat, f));
    }
    proof {
        assert forall|t: int| 0 <= t < rows implies #[trigger] f(t).len() == layout.q_dim() by {
            ops::lemma_row_bounds(t, rows as int, layout.q_dim() as int);
            lemma_row_output_len::<T, M>(
                layout,
                ops::row(q@, t, layout.q_dim() as int),
                k@,
                v@,
                0,
                (t + 1) as nat,
            );
        }
        ops::lemma_blocks_len(rows as nat, f, layout.q_dim());
    }
    out
}

/// Bidirectional attention: every row sees all `rows` rows.
pub open spec fn bidirectional_output<T: Scalar, M: Math<T>>(
    layout: HeadLayout,
    q: Seq<T>,
    k: Seq<T>,
    v: Seq<T>,
    rows: nat,
) -> Seq<T> {
    ops::blocks(
        rows,
        |t: int|
            row_output::<T, M>(layout, ops::row(q, t, layout.q_dim() as int), k, v, 0, rows),
    )
}

pub fn bidirectional_attention<T: Scalar, M: Math<T>>(
    layout: HeadLayout,
    q: &[T],
    k: &[T],
    v: &[T],
    rows: usize,
) -> (r: Vec<T>)
    requires
        scalar::mathematics::<T, M>(),
        layout.wf(),
        q@.len() == rows * layout.q_dim(),
        k@.len() == rows * layout.kv_dim(),
        v@.len() == rows * layout.kv_dim(),
    ensures
        r@ == bidirectional_output::<T, M>(layout, q@, k@, v@, rows as nat),
        r@.len() == rows * layout.q_dim(),
{
    let q_dim = layout.num_heads * layout.head_dim;
    let ghost f = |t: int|
        row_output::<T, M>(
            layout,
            ops::row(q@, t, layout.q_dim() as int),
            k@,
            v@,
            0,
            rows as nat,
        );
    let mut out: Vec<T> = Vec::with_capacity(q.len());
    for t in 0..rows
        invariant
            scalar::mathematics::<T, M>(),
            layout.wf(),
            q_dim == layout.q_dim(),
            q@.len() == rows * layout.q_dim(),
            k@.len() == rows * layout.kv_dim(),
            v@.len() == rows * layout.kv_dim(),
            f == (|t: int|
                row_output::<T, M>(
                    layout,
                    ops::row(q@, t, layout.q_dim() as int),
                    k@,
                    v@,
                    0,
                    rows as nat,
                )),
            out@ == ops::blocks(t as nat, f),
    {
        proof {
            ops::lemma_row_bounds(t as int, rows as int, q_dim as int);
        }
        let y = attend_row::<T, M>(layout, row_slice(q, t, q_dim), k, v, 0, rows);
        extend(&mut out, y.as_slice());
        assert(out@ =~= ops::blocks((t + 1) as nat, f));
    }
    proof {
        assert forall|t: int| 0 <= t < rows implies #[trigger] f(t).len() == layout.q_dim() by {
            ops::lemma_row_bounds(t, rows as int, layout.q_dim() as int);
            lemma_row_output_len::<T, M>(
                layout,
                ops::row(q@, t, layout.q_dim() as int),
                k@,
                v@,
                0,
                rows as nat,
            );
        }
        ops::lemma_blocks_len(rows as nat, f, layout.q_dim());
    }
    out
}


// ── What attention depends on ────────────────────────────────────────

proof fn lemma_mixed_agrees<T: Scalar>(
    w: Seq<T>,
    v1: Seq<T>,
    v2: Seq<T>,
    stride: int,
    off: int,
    start: int,
    n: nat,
    d: int,
    j: int,
)
    requires
        0 <= start,
        0 <= off,
        0 <= j < d,
        off + d <= stride,
        (start + n) * stride <= v1.len(),
        (start + n) * stride <= v2.len(),
        v1.take((start + n) * stride) == v2.take((start + n) * stride),
    ensures
        mixed(w, v1, stride, off, start, n, j) == mixed(w, v2, stride, off, start, n, j),
    decreases n,
{
    if n > 0 {
        let end = (start + n) * stride;
        lemma_head_bounds(start + n - 1, start + n, stride, off, d);
        let p = (start + n - 1) * stride + off + j;
        assert(v1[p] == v1.take(end)[p]);
        assert(v2[p] == v2.take(end)[p]);
        ops::lemma_row_bounds(start + n - 1, start + n, stride);
        let e = (start + n - 1) * stride;
        assert(v1.take(e) =~= v1.take(end).take(e));
        assert(v2.take(e) =~= v2.take(end).take(e));
        lemma_mixed_agrees(w, v1, v2, stride, off, start, (n - 1) as nat, d, j);
    }
}

proof fn lemma_attended_agrees<T: Scalar, M: Math<T>>(
    q: Seq<T>,
    k1: Seq<T>,
    v1: Seq<T>,
    k2: Seq<T>,
    v2: Seq<T>,
    stride: int,
    off: int,
    start: int,
    n: nat,
    scale: T,
)
    requires
        0 <= start,
        0 <= off,
        off + q.len() <= stride,
        (start + n) * stride <= k1.len(),
        (start + n) * stride <= k2.len(),
        (start + n) * stride <= v1.len(),
        (start + n) * stride <= v2.len(),
        k1.take((start + n) * stride) == k2.take((start + n) * stride),
        v1.take((start + n) * stride) == v2.take((start + n) * stride),
    ensures
        attended::<T, M>(q, k1, v1, stride, off, start, n, scale) == attended::<T, M>(
            q,
            k2,
            v2,
            stride,
            off,
            start,
            n,
            scale,
        ),
{
    let end = (start + n) * stride;
    let d = q.len() as int;
    let s1 = scores_of(q, k1, stride, off, start, n, scale);
    let s2 = scores_of(q, k2, stride, off, start, n, scale);
    assert forall|s: int| 0 <= s < n implies s1[s] == s2[s] by {
        lemma_head_bounds(start + s, start + n, stride, off, d);
        assert(head_of(k1, start + s, stride, off, d) =~= head_of(
            k1.take(end),
            start + s,
            stride,
            off,
            d,
        ));
        assert(head_of(k2, start + s, stride, off, d) =~= head_of(
            k2.take(end),
            start + s,
            stride,
            off,
            d,
        ));
    }
    assert(s1 =~= s2);
    let a = attended::<T, M>(q, k1, v1, stride, off, start, n, scale);
    let b = attended::<T, M>(q, k2, v2, stride, off, start, n, scale);
    assert forall|j: int| 0 <= j < d implies a[j] == b[j] by {
        lemma_mixed_agrees(
            ops::softmax_of::<T, M>(s1),
            v1,
            v2,
            stride,
            off,
            start,
            n,
            d,
            j,
        );
    }
    assert(a =~= b);
}

/// Attention over the rows `start..start + n` depends on the keys and values
/// of no later row.
pub proof fn lemma_row_output_agrees<T: Scalar, M: Math<T>>(
    layout: HeadLayout,
    q: Seq<T>,
    k1: Seq<T>,
    v1: Seq<T>,
    k2: Seq<T>,
    v2: Seq<T>,
    start: int,
    n: nat,
)
    requires
        layout.wf(),
        0 <= start,
        q.len() == layout.q_dim(),
        (start + n) * layout.kv_dim() <= k1.len(),
        (start + n) * layout.kv_dim() <= k2.len(),
        (start + n) * layout.kv_dim() <= v1.len(),
        (start + n) * layout.kv_dim() <= v2.len(),
        k1.take((start + n) * layout.kv_dim()) == k2.take((start + n) * layout.kv_dim()),
        v1.take((start + n) * layout.kv_dim()) == v2.take((start + n) * layout.kv_dim()),
    ensures
        row_output::<T, M>(layout, q, k1, v1, start, n) == row_output::<T, M>(
            layout,
            q,
            k2,
            v2,
            start,
            n,
        ),
{
    let f = |head: int| head_output::<T, M>(layout, q, k1, v1, head, start, n);
    let g = |head: int| head_output::<T, M>(layout, q, k2, v2, head, start, n);
    assert forall|head: int| 0 <= head < layout.num_heads implies #[trigger] f(head) == g(head) by {
        lemma_kv_head(layout, head);
        let d = layout.head_dim as int;
        ops::lemma_row_bounds(head, layout.num_heads as int, d);
        lemma_attended_agrees::<T, M>(
            ops::row(q, head, d),
            k1,
            v1,
            k2,
            v2,
            layout.kv_dim() as int,
            layout.kv_head(head) * d,
            start,
            n,
            attention_scale::<T, M>(layout.head_dim),
        );
    }
    ops::lemma_blocks_same(layout.num_heads as nat, f, g);
}

} // verus!
