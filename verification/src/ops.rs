//! Kernels on flat row-major matrices.

use vstd::arithmetic::mul::*;
use vstd::prelude::*;
use vstd::slice::slice_subrange;

use crate::buffer::extend;
use crate::scalar;
use crate::scalar::{Math, Scalar};

verus! {

// ── Sequences made of equal blocks ───────────────────────────────────

/// `f(0)`, `f(1)`, .. `f(n - 1)`, one after the other.
pub open spec fn blocks<T>(n: nat, f: spec_fn(int) -> Seq<T>) -> Seq<T>
    decreases n,
{
    if n == 0 {
        Seq::empty()
    } else {
        blocks((n - 1) as nat, f) + f(n - 1)
    }
}

/// Row `i` of a matrix with `w` columns.
pub open spec fn row<T>(x: Seq<T>, i: int, w: int) -> Seq<T> {
    x.subrange(i * w, (i + 1) * w)
}

/// `n` blocks of `w` elements have `n * w` elements.
pub proof fn lemma_blocks_len<T>(n: nat, f: spec_fn(int) -> Seq<T>, w: nat)
    requires
        forall|i: int| 0 <= i < n ==> #[trigger] f(i).len() == w,
    ensures
        blocks(n, f).len() == n * w,
    decreases n,
{
    if n > 0 {
        lemma_blocks_len((n - 1) as nat, f, w);
        assert(f(n - 1).len() == w);
        assert((n - 1) * w + w == n * w) by (nonlinear_arith);
    } else {
        assert(n * w == 0) by (nonlinear_arith)
            requires
                n == 0,
        ;
    }
}

/// Blocks that agree make the same sequence.
pub proof fn lemma_blocks_same<T>(n: nat, f: spec_fn(int) -> Seq<T>, g: spec_fn(int) -> Seq<T>)
    requires
        forall|i: int| 0 <= i < n ==> #[trigger] f(i) == g(i),
    ensures
        blocks(n, f) == blocks(n, g),
    decreases n,
{
    if n > 0 {
        lemma_blocks_same((n - 1) as nat, f, g);
        assert(f(n - 1) == g(n - 1));
    }
}

/// Fewer blocks are a prefix of more.
pub proof fn lemma_blocks_prefix<T>(m: nat, n: nat, f: spec_fn(int) -> Seq<T>, w: nat)
    requires
        m <= n,
        forall|i: int| 0 <= i < n ==> #[trigger] f(i).len() == w,
    ensures
        m * w <= n * w,
        blocks(n, f).take((m * w) as int) == blocks(m, f),
    decreases n - m,
{
    lemma_blocks_len(m, f, w);
    lemma_blocks_len(n, f, w);
    assert(m * w <= n * w) by (nonlinear_arith)
        requires
            m <= n,
    ;
    if m == n {
        assert(blocks(n, f).take((m * w) as int) =~= blocks(m, f));
    } else {
        lemma_blocks_prefix(m, (n - 1) as nat, f, w);
        lemma_blocks_len((n - 1) as nat, f, w);
        assert(blocks(n, f).take((m * w) as int) =~= blocks((n - 1) as nat, f).take(
            (m * w) as int,
        ));
    }
}

/// Row `i` of `n` blocks of width `w` is block `i`.
pub proof fn lemma_blocks_row<T>(n: nat, f: spec_fn(int) -> Seq<T>, w: nat, i: int)
    requires
        0 <= i < n,
        forall|k: int| 0 <= k < n ==> #[trigger] f(k).len() == w,
    ensures
        0 <= i * w <= (i + 1) * w <= blocks(n, f).len(),
        row(blocks(n, f), i, w as int) == f(i),
    decreases n,
{
    lemma_blocks_len(n, f, w);
    lemma_row_bounds(i, n as int, w as int);
    lemma_blocks_len((n - 1) as nat, f, w);
    if i == n - 1 {
        assert(row(blocks(n, f), i, w as int) =~= f(i));
    } else {
        lemma_blocks_row((n - 1) as nat, f, w, i);
        assert(row(blocks(n, f), i, w as int) =~= row(blocks((n - 1) as nat, f), i, w as int));
    }
}

/// The bounds of row `i` of `n` rows of width `w`.
pub proof fn lemma_row_bounds(i: int, n: int, w: int)
    requires
        0 <= i < n,
        0 <= w,
    ensures
        0 <= i * w,
        (i + 1) * w == i * w + w,
        i * w <= (i + 1) * w <= n * w,
{
    assert(0 <= i * w) by (nonlinear_arith)
        requires
            0 <= i,
            0 <= w,
    ;
    assert((i + 1) * w == i * w + w) by (nonlinear_arith);
    assert((i + 1) * w <= n * w) by (nonlinear_arith)
        requires
            i + 1 <= n,
            0 <= w,
    ;
}

/// A matrix is its rows.
pub proof fn lemma_rows<T>(x: Seq<T>, n: nat, w: nat)
    requires
        x.len() == n * w,
    ensures
        blocks(n, |i: int| row(x, i, w as int)) == x,
    decreases n,
{
    let f = |i: int| row(x, i, w as int);
    if n == 0 {
        assert(n * w == 0) by (nonlinear_arith)
            requires
                n == 0,
        ;
        assert(blocks(n, f) =~= x);
    } else {
        lemma_row_bounds(n - 1, n as int, w as int);
        let y = x.take((n - 1) * w);
        lemma_rows(y, (n - 1) as nat, w);
        let g = |i: int| row(y, i, w as int);
        assert forall|i: int| 0 <= i < n - 1 implies #[trigger] f(i) == g(i) by {
            lemma_row_bounds(i, n - 1, w as int);
            assert(f(i) =~= g(i));
        }
        lemma_blocks_same((n - 1) as nat, f, g);
        assert(blocks(n, f) =~= x);
    }
}

pub proof fn lemma_concat_assoc<T>(a: Seq<T>, b: Seq<T>, c: Seq<T>)
    ensures
        (a + b) + c == a + (b + c),
{
    assert((a + b) + c =~= a + (b + c));
}

/// Matrices that agree from row `i` on have the same row `i`, and agree from
/// the next row on.
pub proof fn lemma_rest_agrees<T>(a: Seq<T>, b: Seq<T>, i: int, w: int)
    requires
        0 <= i,
        0 <= w,
        (i + 1) * w <= a.len(),
        a.len() == b.len(),
        a.skip(i * w) == b.skip(i * w),
    ensures
        row(a, i, w) == row(b, i, w),
        a.skip((i + 1) * w) == b.skip((i + 1) * w),
{
    lemma_row_bounds(i, i + 1, w);
    assert(row(a, i, w) =~= a.skip(i * w).take(w));
    assert(row(b, i, w) =~= b.skip(i * w).take(w));
    assert(a.skip((i + 1) * w) =~= a.skip(i * w).skip(w));
    assert(b.skip((i + 1) * w) =~= b.skip(i * w).skip(w));
}

/// Row `i` of `x` as a slice.
pub fn row_slice<T>(x: &[T], i: usize, w: usize) -> (r: &[T])
    requires
        (i + 1) * w <= x@.len(),
    ensures
        r@ == row(x@, i as int, w as int),
        r@.len() == w,
{
    proof {
        lemma_row_bounds(i as int, i + 1, w as int);
    }
    let n = x.len();
    let start = i * w;
    slice_subrange(x, start, start + w)
}

// ── Sums of products ─────────────────────────────────────────────────

/// The sum of the products of the first `n` elements, from the left.
pub open spec fn dot<T: Scalar>(a: Seq<T>, b: Seq<T>, n: nat) -> T
    decreases n,
{
    if n == 0 {
        scalar::zero()
    } else {
        scalar::plus(dot(a, b, (n - 1) as nat), scalar::times(a[n - 1], b[n - 1]))
    }
}

/// The sum of the products of two rows.
pub fn dot_product<T: Scalar>(a: &[T], b: &[T]) -> (r: T)
    requires
        scalar::arithmetic::<T>(),
        a@.len() == b@.len(),
    ensures
        r == dot(a@, b@, a@.len()),
{
    let mut sum = T::default();
    for i in 0..a.len()
        invariant
            scalar::arithmetic::<T>(),
            a@.len() == b@.len(),
            sum == dot(a@, b@, i as nat),
    {
        sum = sum + a[i] * b[i];
    }
    sum
}

/// Row `i` of `a * b^T`, where `a` has rows of `k` elements and `b` has `n`.
pub open spec fn product_row<T: Scalar>(a: Seq<T>, b: Seq<T>, i: int, k: nat, n: nat) -> Seq<T> {
    Seq::new(n, |j: int| dot(row(a, i, k as int), row(b, j, k as int), k))
}

/// `a * b^T`, where `a` is `[m, k]` and `b` is `[n, k]`.
pub open spec fn product<T: Scalar>(a: Seq<T>, b: Seq<T>, m: nat, k: nat, n: nat) -> Seq<T> {
    blocks(m, |i: int| product_row(a, b, i, k, n))
}

pub proof fn lemma_product_len<T: Scalar>(a: Seq<T>, b: Seq<T>, m: nat, k: nat, n: nat)
    ensures
        product(a, b, m, k, n).len() == m * n,
{
    lemma_blocks_len(m, |i: int| product_row(a, b, i, k, n), n);
}

/// y = A * B^T, where A is `[m, k]` and B is `[n, k]`; y is `[m, n]`.
pub fn matmul_t<T: Scalar>(a: &[T], b: &[T], m: usize, k: usize, n: usize) -> (r: Vec<T>)
    requires
        scalar::arithmetic::<T>(),
        a@.len() == m * k,
        b@.len() == n * k,
    ensures
        r@ == product(a@, b@, m as nat, k as nat, n as nat),
        r@.len() == m * n,
{
    let ghost f = |i: int| product_row(a@, b@, i, k as nat, n as nat);
    let mut out: Vec<T> = Vec::new();
    for i in 0..m
        invariant
            scalar::arithmetic::<T>(),
            a@.len() == m * k,
            b@.len() == n * k,
            f == (|i: int| product_row(a@, b@, i, k as nat, n as nat)),
            out@ == blocks(i as nat, f),
    {
        let ghost done = out@;
        proof {
            lemma_row_bounds(i as int, m as int, k as int);
        }
        let a_row = row_slice(a, i, k);
        for j in 0..n
            invariant
                scalar::arithmetic::<T>(),
                b@.len() == n * k,
                a_row@ == row(a@, i as int, k as int),
                a_row@.len() == k,
                out@ == done + product_row(a@, b@, i as int, k as nat, j as nat),
        {
            proof {
                lemma_row_bounds(j as int, n as int, k as int);
            }
            let b_row = row_slice(b, j, k);
            let y = dot_product(a_row, b_row);
            out.push(y);
            assert(out@ =~= done + product_row(a@, b@, i as int, k as nat, (j + 1) as nat));
        }
        assert(out@ =~= blocks((i + 1) as nat, f));
    }
    proof {
        lemma_product_len(a@, b@, m as nat, k as nat, n as nat);
    }
    out
}

// ── Sums ─────────────────────────────────────────────────────────────

/// The element-wise sum, as long as the shorter of the two.
pub open spec fn sum_of<T: Scalar>(a: Seq<T>, b: Seq<T>) -> Seq<T> {
    Seq::new(
        if a.len() <= b.len() {
            a.len()
        } else {
            b.len()
        },
        |i: int| scalar::plus(a[i], b[i]),
    )
}

/// Element-wise sum of two vectors; the longer one's rest is dropped.
pub fn add_vecs<T: Scalar>(a: &[T], b: &[T]) -> (r: Vec<T>)
    requires
        scalar::arithmetic::<T>(),
    ensures
        r@ == sum_of(a@, b@),
{
    let n = if a.len() <= b.len() {
        a.len()
    } else {
        b.len()
    };
    let mut out: Vec<T> = Vec::with_capacity(n);
    for i in 0..n
        invariant
            scalar::arithmetic::<T>(),
            n <= a@.len(),
            n <= b@.len(),
            out@ == Seq::new(i as nat, |i: int| scalar::plus(a@[i], b@[i])),
    {
        out.push(a[i] + b[i]);
        assert(out@ =~= Seq::new((i + 1) as nat, |i: int| scalar::plus(a@[i], b@[i])));
    }
    out
}

/// `a` with `b` added to its first elements.
pub open spec fn sum_into<T: Scalar>(a: Seq<T>, b: Seq<T>) -> Seq<T> {
    Seq::new(
        a.len(),
        |i: int|
            if i < b.len() {
                scalar::plus(a[i], b[i])
            } else {
                a[i]
            },
    )
}

/// Adds `b` to `a`, element by element.
pub fn add_vecs_inplace<T: Scalar>(a: &mut Vec<T>, b: &[T])
    requires
        scalar::arithmetic::<T>(),
    ensures
        final(a)@ == sum_into(old(a)@, b@),
{
    let ghost start = a@;
    let n = if a.len() <= b.len() {
        a.len()
    } else {
        b.len()
    };
    for i in 0..n
        invariant
            scalar::arithmetic::<T>(),
            n <= start.len(),
            n <= b@.len(),
            a@.len() == start.len(),
            forall|p: int|
                0 <= p < start.len() ==> #[trigger] a@[p] == (if p < i {
                    scalar::plus(start[p], b@[p])
                } else {
                    start[p]
                }),
    {
        let y = a[i] + b[i];
        a.set(i, y);
    }
    assert(a@ =~= sum_into(start, b@));
}

/// `x`, an `[m, n]` matrix, with `bias` added to each row; an empty bias
/// changes nothing.
pub open spec fn biased<T: Scalar>(x: Seq<T>, bias: Seq<T>, m: nat, n: nat) -> Seq<T> {
    if bias.len() == 0 {
        x
    } else {
        blocks(m, |i: int| sum_of(row(x, i, n as int), bias))
    }
}

/// Adds a per-column bias to a row-major matrix `[m, n]` in place. Does
/// nothing when `bias` is empty, as for a model without biases.
pub fn add_bias<T: Scalar>(x: &mut Vec<T>, bias: &[T], m: usize, n: usize)
    requires
        scalar::arithmetic::<T>(),
        old(x)@.len() == m * n,
        bias@.len() == 0 || n <= bias@.len(),
    ensures
        final(x)@ == biased(old(x)@, bias@, m as nat, n as nat),
        final(x)@.len() == m * n,
{
    if bias.len() == 0 {
        return;
    }
    let ghost start = x@;
    let ghost f = |i: int| sum_of(row(start, i, n as int), bias@);
    let mut out: Vec<T> = Vec::with_capacity(x.len());
    for i in 0..m
        invariant
            scalar::arithmetic::<T>(),
            x@ == start,
            x@.len() == m * n,
            n <= bias@.len(),
            f == (|i: int| sum_of(row(start, i, n as int), bias@)),
            out@ == blocks(i as nat, f),
    {
        proof {
            lemma_row_bounds(i as int, m as int, n as int);
        }
        let r = add_vecs(row_slice(x.as_slice(), i, n), bias);
        extend(&mut out, r.as_slice());
        assert(out@ =~= blocks((i + 1) as nat, f));
    }
    proof {
        assert forall|i: int| 0 <= i < m implies #[trigger] f(i).len() == n by {
            lemma_row_bounds(i, m as int, n as int);
        }
        lemma_blocks_len(m as nat, f, n as nat);
    }
    *x = out;
}

// ── Linear layers ────────────────────────────────────────────────────

/// A row through a linear layer: `x * w^T + bias`, without a bias where it is
/// empty. `w` has `n` rows of `k` elements.
pub open spec fn linear_row<T: Scalar>(x: Seq<T>, w: Seq<T>, bias: Seq<T>, k: nat, n: nat) -> Seq<
    T,
> {
    let y = Seq::new(n, |j: int| dot(x, row(w, j, k as int), k));
    if bias.len() == 0 {
        y
    } else {
        sum_of(y, bias)
    }
}

/// Each of `m` rows through a linear layer.
pub open spec fn linear_of<T: Scalar>(
    x: Seq<T>,
    w: Seq<T>,
    bias: Seq<T>,
    m: nat,
    k: nat,
    n: nat,
) -> Seq<T> {
    blocks(m, |i: int| linear_row(row(x, i, k as int), w, bias, k, n))
}

/// Multiplying and then adding the bias gives each row through the layer.
pub proof fn lemma_linear<T: Scalar>(
    x: Seq<T>,
    w: Seq<T>,
    bias: Seq<T>,
    m: nat,
    k: nat,
    n: nat,
)
    requires
        bias.len() == 0 || n <= bias.len(),
    ensures
        biased(product(x, w, m, k, n), bias, m, n) == linear_of(x, w, bias, m, k, n),
        linear_of(x, w, bias, m, k, n).len() == m * n,
{
    let f = |i: int| linear_row(row(x, i, k as int), w, bias, k, n);
    let g = |i: int| product_row(x, w, i, k, n);
    let p = product(x, w, m, k, n);
    if bias.len() == 0 {
        assert forall|i: int| 0 <= i < m implies #[trigger] g(i) == f(i) by {
            assert(g(i) =~= f(i));
        }
        lemma_blocks_same(m, g, f);
    } else {
        let b = |i: int| sum_of(row(p, i, n as int), bias);
        assert forall|i: int| 0 <= i < m implies #[trigger] b(i) == f(i) by {
            lemma_blocks_row(m, g, n, i);
            assert(g(i) =~= Seq::new(n, |j: int| dot(row(x, i, k as int), row(w, j, k as int), k)));
        }
        lemma_blocks_same(m, b, f);
    }
    lemma_blocks_len(m, f, n);
}

/// `x * w^T + bias` for an `[m, k]` matrix `x` and an `[n, k]` matrix `w`.
pub fn linear<T: Scalar>(x: &[T], w: &[T], bias: &[T], m: usize, k: usize, n: usize) -> (r: Vec<T>)
    requires
        scalar::arithmetic::<T>(),
        x@.len() == m * k,
        w@.len() == n * k,
        bias@.len() == 0 || n <= bias@.len(),
    ensures
        r@ == linear_of(x@, w@, bias@, m as nat, k as nat, n as nat),
        r@.len() == m * n,
{
    let mut y = matmul_t(x, w, m, k, n);
    add_bias(&mut y, bias, m, n);
    proof {
        lemma_linear(x@, w@, bias@, m as nat, k as nat, n as nat);
    }
    y
}

/// One row through a linear layer.
pub fn linear_vec<T: Scalar>(x: &[T], w: &[T], bias: &[T], k: usize, n: usize) -> (r: Vec<T>)
    requires
        scalar::arithmetic::<T>(),
        x@.len() == k,
        w@.len() == n * k,
        bias@.len() == 0 || n <= bias@.len(),
    ensures
        r@ == linear_row(x@, w@, bias@, k as nat, n as nat),
        r@.len() == n,
{
    let mut y: Vec<T> = Vec::with_capacity(n);
    for j in 0..n
        invariant
            scalar::arithmetic::<T>(),
            x@.len() == k,
            w@.len() == n * k,
            y@ == Seq::new(j as nat, |j: int| dot(x@, row(w@, j, k as int), k as nat)),
    {
        proof {
            lemma_row_bounds(j as int, n as int, k as int);
        }
        let d = dot_product(x, row_slice(w, j, k));
        y.push(d);
        assert(y@ =~= Seq::new((j + 1) as nat, |j: int| dot(x@, row(w@, j, k as int), k as nat)));
    }
    if bias.len() == 0 {
        y
    } else {
        add_vecs(y.as_slice(), bias)
    }
}

/// Every row of `n` blocks of width `w` is its block.
pub proof fn lemma_blocks_rows<T>(n: nat, f: spec_fn(int) -> Seq<T>, w: nat)
    requires
        forall|k: int| 0 <= k < n ==> #[trigger] f(k).len() == w,
    ensures
        blocks(n, f).len() == n * w,
        forall|i: int| 0 <= i < n ==> #[trigger] row(blocks(n, f), i, w as int) == f(i),
{
    lemma_blocks_len(n, f, w);
    assert forall|i: int| 0 <= i < n implies #[trigger] row(blocks(n, f), i, w as int) == f(i) by {
        lemma_blocks_row(n, f, w, i);
    }
}

/// The rows of an element-wise sum are the sums of the rows.
pub proof fn lemma_sum_row<T: Scalar>(a: Seq<T>, b: Seq<T>, n: nat, w: nat, i: int)
    requires
        0 <= i < n,
        a.len() == n * w,
        b.len() == n * w,
    ensures
        row(sum_of(a, b), i, w as int) == sum_of(row(a, i, w as int), row(b, i, w as int)),
{
    lemma_row_bounds(i, n as int, w as int);
    assert(row(sum_of(a, b), i, w as int) =~= sum_of(row(a, i, w as int), row(b, i, w as int)));
}

// ── Activations ──────────────────────────────────────────────────────

/// The activation functions that models choose from.
#[derive(Debug, Clone, Copy, PartialEq, Eq, Structural)]
pub enum Activation {
    Gelu,
    Silu,
}

pub open spec fn activated<T, M: Math<T>>(kind: Activation, x: T) -> T {
    match kind {
        Activation::Gelu => scalar::gelu_of::<T, M>(x),
        Activation::Silu => scalar::silu_of::<T, M>(x),
    }
}

/// Applies an activation function to one element.
pub fn activate<T: Scalar, M: Math<T>>(kind: Activation, x: T) -> (r: T)
    requires
        scalar::mathematics::<T, M>(),
    ensures
        r == activated::<T, M>(kind, x),
{
    match kind {
        Activation::Gelu => M::gelu(x),
        Activation::Silu => M::silu(x),
    }
}

/// Every element of `x` under an activation function.
pub open spec fn all_activated<T, M: Math<T>>(kind: Activation, x: Seq<T>) -> Seq<T> {
    Seq::new(x.len(), |i: int| activated::<T, M>(kind, x[i]))
}

/// Applies an activation function to every element.
pub fn activate_all<T: Scalar, M: Math<T>>(kind: Activation, x: &[T]) -> (r: Vec<T>)
    requires
        scalar::mathematics::<T, M>(),
    ensures
        r@ == all_activated::<T, M>(kind, x@),
{
    let mut out: Vec<T> = Vec::with_capacity(x.len());
    for i in 0..x.len()
        invariant
            scalar::mathematics::<T, M>(),
            out@ == all_activated::<T, M>(kind, x@.take(i as int)),
    {
        let y = activate::<T, M>(kind, x[i]);
        out.push(y);
        assert(out@ =~= all_activated::<T, M>(kind, x@.take(i + 1)));
    }
    assert(x@.take(x@.len() as int) =~= x@);
    out
}

/// The element-wise product of two vectors, as long as the shorter.
pub open spec fn product_of<T: Scalar>(a: Seq<T>, b: Seq<T>) -> Seq<T> {
    Seq::new(
        if a.len() <= b.len() {
            a.len()
        } else {
            b.len()
        },
        |i: int| scalar::times(a[i], b[i]),
    )
}

/// Element-wise product; the longer vector's rest is dropped.
pub fn mul_vecs<T: Scalar>(a: &[T], b: &[T]) -> (r: Vec<T>)
    requires
        scalar::arithmetic::<T>(),
    ensures
        r@ == product_of(a@, b@),
{
    let n = if a.len() <= b.len() {
        a.len()
    } else {
        b.len()
    };
    let mut out: Vec<T> = Vec::with_capacity(n);
    for i in 0..n
        invariant
            scalar::arithmetic::<T>(),
            n <= a@.len(),
            n <= b@.len(),
            out@ == Seq::new(i as nat, |i: int| scalar::times(a@[i], b@[i])),
    {
        out.push(a[i] * b[i]);
        assert(out@ =~= Seq::new((i + 1) as nat, |i: int| scalar::times(a@[i], b@[i])));
    }
    out
}

/// Every element times `c`.
pub open spec fn scaled<T: Scalar>(x: Seq<T>, c: T) -> Seq<T> {
    Seq::new(x.len(), |i: int| scalar::times(x[i], c))
}

pub fn scale_vec<T: Scalar>(x: &[T], c: T) -> (r: Vec<T>)
    requires
        scalar::arithmetic::<T>(),
    ensures
        r@ == scaled(x@, c),
{
    let mut out: Vec<T> = Vec::with_capacity(x.len());
    for i in 0..x.len()
        invariant
            scalar::arithmetic::<T>(),
            out@ == scaled(x@.take(i as int), c),
    {
        out.push(x[i] * c);
        assert(out@ =~= scaled(x@.take(i + 1), c));
    }
    assert(x@.take(x@.len() as int) =~= x@);
    out
}

// ── Normalisation ────────────────────────────────────────────────────

/// The sum of the first `n` elements, from the left.
pub open spec fn total<T: Scalar>(x: Seq<T>, n: nat) -> T
    decreases n,
{
    if n == 0 {
        scalar::zero()
    } else {
        scalar::plus(total(x, (n - 1) as nat), x[n - 1])
    }
}

pub fn sum_all<T: Scalar>(x: &[T]) -> (r: T)
    requires
        scalar::arithmetic::<T>(),
    ensures
        r == total(x@, x@.len()),
{
    let mut sum = T::default();
    for i in 0..x.len()
        invariant
            scalar::arithmetic::<T>(),
            sum == total(x@, i as nat),
    {
        sum = sum + x[i];
    }
    sum
}

/// The factor by which root-mean-square normalisation scales a row.
pub open spec fn rms_scale<T: Scalar, M: Math<T>>(x: Seq<T>, eps: T) -> T {
    scalar::over(
        scalar::one::<T, M>(),
        scalar::sqrt_of::<T, M>(
            scalar::plus(
                scalar::over(dot(x, x, x.len()), scalar::count_of::<T, M>(x.len() as usize)),
                eps,
            ),
        ),
    )
}

/// A row under root-mean-square normalisation.
pub open spec fn rms_row<T: Scalar, M: Math<T>>(x: Seq<T>, weight: Seq<T>, eps: T) -> Seq<T> {
    Seq::new(
        x.len(),
        |j: int| scalar::times(scalar::times(x[j], rms_scale::<T, M>(x, eps)), weight[j]),
    )
}

pub fn rms_normalize<T: Scalar, M: Math<T>>(x: &[T], weight: &[T], eps: T) -> (r: Vec<T>)
    requires
        scalar::mathematics::<T, M>(),
        x@.len() <= weight@.len(),
    ensures
        r@ == rms_row::<T, M>(x@, weight@, eps),
{
    let ms = dot_product(x, x) / M::count(x.len());
    let scale = M::one() / M::sqrt(ms + eps);
    let mut out: Vec<T> = Vec::with_capacity(x.len());
    for j in 0..x.len()
        invariant
            scalar::mathematics::<T, M>(),
            x@.len() <= weight@.len(),
            scale == rms_scale::<T, M>(x@, eps),
            out@ == Seq::new(
                j as nat,
                |j: int| scalar::times(scalar::times(x@[j], rms_scale::<T, M>(x@, eps)), weight@[j]),
            ),
    {
        out.push(x[j] * scale * weight[j]);
        assert(out@ =~= Seq::new(
            (j + 1) as nat,
            |j: int| scalar::times(scalar::times(x@[j], rms_scale::<T, M>(x@, eps)), weight@[j]),
        ));
    }
    out
}

/// The mean of a row.
pub open spec fn mean_of<T: Scalar, M: Math<T>>(x: Seq<T>) -> T {
    scalar::over(total(x, x.len()), scalar::count_of::<T, M>(x.len() as usize))
}

/// `x` less `c` in every element.
pub open spec fn shifted<T: Scalar>(x: Seq<T>, c: T) -> Seq<T> {
    Seq::new(x.len(), |i: int| scalar::minus(x[i], c))
}

/// A row less its mean.
pub open spec fn centred<T: Scalar, M: Math<T>>(x: Seq<T>) -> Seq<T> {
    shifted(x, mean_of::<T, M>(x))
}

/// A row under layer normalisation, before weight and bias.
pub open spec fn standardised<T: Scalar, M: Math<T>>(x: Seq<T>, eps: T) -> Seq<T> {
    scaled(centred::<T, M>(x), rms_scale::<T, M>(centred::<T, M>(x), eps))
}

/// A row under layer normalisation with a weight and no bias.
pub open spec fn layer_row<T: Scalar, M: Math<T>>(x: Seq<T>, weight: Seq<T>, eps: T) -> Seq<T> {
    product_of(standardised::<T, M>(x, eps), weight)
}

fn shift_vec<T: Scalar>(x: &[T], c: T) -> (r: Vec<T>)
    requires
        scalar::arithmetic::<T>(),
    ensures
        r@ == shifted(x@, c),
{
    let mut out: Vec<T> = Vec::with_capacity(x.len());
    for i in 0..x.len()
        invariant
            scalar::arithmetic::<T>(),
            out@ == shifted(x@.take(i as int), c),
    {
        out.push(x[i] - c);
        assert(out@ =~= shifted(x@.take(i + 1), c));
    }
    assert(x@.take(x@.len() as int) =~= x@);
    out
}

/// Subtracts the mean and scales to unit variance.
pub fn standardize<T: Scalar, M: Math<T>>(x: &[T], eps: T) -> (r: Vec<T>)
    requires
        scalar::mathematics::<T, M>(),
    ensures
        r@ == standardised::<T, M>(x@, eps),
{
    let mean = sum_all(x) / M::count(x.len());
    let c = shift_vec(x, mean);
    let variance = dot_product(c.as_slice(), c.as_slice()) / M::count(x.len());
    let scale = M::one() / M::sqrt(variance + eps);
    assert(c@.len() == x@.len());
    scale_vec(c.as_slice(), scale)
}

pub fn layer_normalize<T: Scalar, M: Math<T>>(x: &[T], weight: &[T], eps: T) -> (r: Vec<T>)
    requires
        scalar::mathematics::<T, M>(),
    ensures
        r@ == layer_row::<T, M>(x@, weight@, eps),
{
    let s = standardize::<T, M>(x, eps);
    mul_vecs(s.as_slice(), weight)
}

pub open spec fn rms_norm_of<T: Scalar, M: Math<T>>(
    x: Seq<T>,
    weight: Seq<T>,
    eps: T,
    h: nat,
    rows: nat,
) -> Seq<T> {
    blocks(rows, |i: int| rms_row::<T, M>(row(x, i, h as int), weight, eps))
}

/// Root-mean-square normalisation of each of `rows` rows of `h` elements.
pub fn rmsnorm<T: Scalar, M: Math<T>>(
    x: &[T],
    weight: &[T],
    eps: T,
    h: usize,
    rows: usize,
) -> (r: Vec<T>)
    requires
        scalar::mathematics::<T, M>(),
        x@.len() == rows * h,
        h <= weight@.len(),
    ensures
        r@ == rms_norm_of::<T, M>(x@, weight@, eps, h as nat, rows as nat),
        r@.len() == rows * h,
{
    let ghost f = |i: int| rms_row::<T, M>(row(x@, i, h as int), weight@, eps);
    let mut out: Vec<T> = Vec::with_capacity(x.len());
    for i in 0..rows
        invariant
            scalar::mathematics::<T, M>(),
            x@.len() == rows * h,
            h <= weight@.len(),
            f == (|i: int| rms_row::<T, M>(row(x@, i, h as int), weight@, eps)),
            out@ == blocks(i as nat, f),
    {
        proof {
            lemma_row_bounds(i as int, rows as int, h as int);
        }
        let y = rms_normalize::<T, M>(row_slice(x, i, h), weight, eps);
        extend(&mut out, y.as_slice());
        assert(out@ =~= blocks((i + 1) as nat, f));
    }
    proof {
        assert forall|i: int| 0 <= i < rows implies #[trigger] f(i).len() == h by {
            lemma_row_bounds(i, rows as int, h as int);
        }
        lemma_blocks_len(rows as nat, f, h as nat);
    }
    out
}

pub open spec fn layer_norm_of<T: Scalar, M: Math<T>>(
    x: Seq<T>,
    weight: Seq<T>,
    eps: T,
    h: nat,
    rows: nat,
) -> Seq<T> {
    blocks(rows, |i: int| layer_row::<T, M>(row(x, i, h as int), weight, eps))
}

/// Layer normalisation, with a weight and no bias, of each of `rows` rows of
/// `h` elements.
pub fn layernorm<T: Scalar, M: Math<T>>(
    x: &[T],
    weight: &[T],
    eps: T,
    h: usize,
    rows: usize,
) -> (r: Vec<T>)
    requires
        scalar::mathematics::<T, M>(),
        x@.len() == rows * h,
        h <= weight@.len(),
    ensures
        r@ == layer_norm_of::<T, M>(x@, weight@, eps, h as nat, rows as nat),
        r@.len() == rows * h,
{
    let ghost f = |i: int| layer_row::<T, M>(row(x@, i, h as int), weight@, eps);
    let mut out: Vec<T> = Vec::with_capacity(x.len());
    for i in 0..rows
        invariant
            scalar::mathematics::<T, M>(),
            x@.len() == rows * h,
            h <= weight@.len(),
            f == (|i: int| layer_row::<T, M>(row(x@, i, h as int), weight@, eps)),
            out@ == blocks(i as nat, f),
    {
        proof {
            lemma_row_bounds(i as int, rows as int, h as int);
        }
        let y = layer_normalize::<T, M>(row_slice(x, i, h), weight, eps);
        extend(&mut out, y.as_slice());
        assert(out@ =~= blocks((i + 1) as nat, f));
    }
    proof {
        assert forall|i: int| 0 <= i < rows implies #[trigger] f(i).len() == h by {
            lemma_row_bounds(i, rows as int, h as int);
        }
        lemma_blocks_len(rows as nat, f, h as nat);
    }
    out
}

/// Layer normalisation with a weight and a bias.
pub open spec fn layer_norm_bias_of<T: Scalar, M: Math<T>>(
    x: Seq<T>,
    weight: Seq<T>,
    bias: Seq<T>,
    eps: T,
    h: nat,
    rows: nat,
) -> Seq<T> {
    blocks(
        rows,
        |i: int| sum_of(layer_row::<T, M>(row(x, i, h as int), weight, eps), bias),
    )
}

/// Layer normalisation, with a weight and a bias, of each of `rows` rows of
/// `h` elements.
pub fn layernorm_with_bias<T: Scalar, M: Math<T>>(
    x: &[T],
    weight: &[T],
    bias: &[T],
    eps: T,
    h: usize,
    rows: usize,
) -> (r: Vec<T>)
    requires
        scalar::mathematics::<T, M>(),
        x@.len() == rows * h,
        h <= weight@.len(),
        h <= bias@.len(),
    ensures
        r@ == layer_norm_bias_of::<T, M>(x@, weight@, bias@, eps, h as nat, rows as nat),
        r@.len() == rows * h,
{
    let ghost f = |i: int| sum_of(layer_row::<T, M>(row(x@, i, h as int), weight@, eps), bias@);
    let mut out: Vec<T> = Vec::with_capacity(x.len());
    for i in 0..rows
        invariant
            scalar::mathematics::<T, M>(),
            x@.len() == rows * h,
            h <= weight@.len(),
            f == (|i: int|
                sum_of(layer_row::<T, M>(row(x@, i, h as int), weight@, eps), bias@)),
            out@ == blocks(i as nat, f),
    {
        proof {
            lemma_row_bounds(i as int, rows as int, h as int);
        }
        let y = layer_normalize::<T, M>(row_slice(x, i, h), weight, eps);
        let z = add_vecs(y.as_slice(), bias);
        extend(&mut out, z.as_slice());
        assert(out@ =~= blocks((i + 1) as nat, f));
    }
    proof {
        assert forall|i: int| 0 <= i < rows implies #[trigger] f(i).len() == h by {
            lemma_row_bounds(i, rows as int, h as int);
        }
        lemma_blocks_len(rows as nat, f, h as nat);
    }
    out
}

// ── Softmax ──────────────────────────────────────────────────────────

/// The largest of the first `n` elements.
pub open spec fn largest<T, M: Math<T>>(x: Seq<T>, n: nat) -> T
    decreases n,
{
    if n == 0 {
        scalar::lowest::<T, M>()
    } else {
        scalar::max_of::<T, M>(largest::<T, M>(x, (n - 1) as nat), x[n - 1])
    }
}

/// `e` to the power of each element less the largest.
pub open spec fn exponentials<T: Scalar, M: Math<T>>(x: Seq<T>) -> Seq<T> {
    Seq::new(
        x.len(),
        |i: int| scalar::exp_of::<T, M>(scalar::minus(x[i], largest::<T, M>(x, x.len()))),
    )
}

/// The softmax of `x`; where the exponentials do not add up to more than
/// zero they are left as they are.
pub open spec fn softmax_of<T: Scalar, M: Math<T>>(x: Seq<T>) -> Seq<T> {
    let e = exponentials::<T, M>(x);
    let sum = total(e, e.len());
    if scalar::is_greater::<T, M>(sum, scalar::zero()) {
        Seq::new(e.len(), |i: int| scalar::over(e[i], sum))
    } else {
        e
    }
}

pub fn softmax<T: Scalar, M: Math<T>>(x: &[T]) -> (r: Vec<T>)
    requires
        scalar::mathematics::<T, M>(),
    ensures
        r@ == softmax_of::<T, M>(x@),
        r@.len() == x@.len(),
{
    let mut top = M::lowest();
    for i in 0..x.len()
        invariant
            scalar::mathematics::<T, M>(),
            top == largest::<T, M>(x@, i as nat),
    {
        top = M::max(top, x[i]);
    }
    let mut e: Vec<T> = Vec::with_capacity(x.len());
    let mut sum = T::default();
    for i in 0..x.len()
        invariant
            scalar::mathematics::<T, M>(),
            top == largest::<T, M>(x@, x@.len()),
            e@.len() == i,
            e@ == exponentials::<T, M>(x@).take(i as int),
            sum == total(exponentials::<T, M>(x@), i as nat),
    {
        let y = M::exp(x[i] - top);
        e.push(y);
        sum = sum + y;
        assert(e@ =~= exponentials::<T, M>(x@).take(i + 1));
    }
    assert(e@ =~= exponentials::<T, M>(x@));
    if M::greater(sum, T::default()) {
        let mut out: Vec<T> = Vec::with_capacity(x.len());
        for i in 0..e.len()
            invariant
                scalar::mathematics::<T, M>(),
                out@ == Seq::new(i as nat, |i: int| scalar::over(e@[i], sum)),
        {
            out.push(e[i] / sum);
            assert(out@ =~= Seq::new((i + 1) as nat, |i: int| scalar::over(e@[i], sum)));
        }
        assert(out@ =~= softmax_of::<T, M>(x@));
        out
    } else {
        e
    }
}


// ── Rows of other widths ─────────────────────────────────────────────

/// `x` cut off or filled up with zeros to `n` elements.
pub open spec fn fitted<T: Scalar>(x: Seq<T>, n: nat) -> Seq<T> {
    Seq::new(
        n,
        |j: int|
            if j < x.len() {
                x[j]
            } else {
                scalar::zero()
            },
    )
}

/// Truncates or zero-pads a row to `n` elements.
pub fn fit<T: Scalar>(x: &[T], n: usize) -> (r: Vec<T>)
    requires
        scalar::arithmetic::<T>(),
    ensures
        r@ == fitted(x@, n as nat),
{
    let mut out: Vec<T> = Vec::with_capacity(n);
    for j in 0..n
        invariant
            scalar::arithmetic::<T>(),
            out@ == fitted(x@, j as nat),
    {
        if j < x.len() {
            out.push(x[j]);
        } else {
            out.push(T::default());
        }
        assert(out@ =~= fitted(x@, (j + 1) as nat));
    }
    out
}

/// A row with a bias added, unless the bias is empty.
pub open spec fn with_bias<T: Scalar>(x: Seq<T>, bias: Seq<T>) -> Seq<T> {
    if bias.len() == 0 {
        x
    } else {
        sum_of(x, bias)
    }
}

/// Adds a bias to a row, unless the bias is empty.
pub fn add_row_bias<T: Scalar>(x: Vec<T>, bias: &[T]) -> (r: Vec<T>)
    requires
        scalar::arithmetic::<T>(),
        bias@.len() == 0 || x@.len() <= bias@.len(),
    ensures
        r@ == with_bias(x@, bias@),
        r@.len() == x@.len(),
{
    if bias.len() == 0 {
        x
    } else {
        add_vecs(x.as_slice(), bias)
    }
}


/// `x * (1 + scale) + shift`, element by element.
pub open spec fn modulated<T: Scalar, M: Math<T>>(
    x: Seq<T>,
    scale: Seq<T>,
    shift: Seq<T>,
) -> Seq<T> {
    Seq::new(
        x.len(),
        |j: int|
            scalar::plus(
                scalar::times(x[j], scalar::plus(scalar::one::<T, M>(), scale[j])),
                shift[j],
            ),
    )
}

pub fn modulate<T: Scalar, M: Math<T>>(x: &[T], scale: &[T], shift: &[T]) -> (r: Vec<T>)
    requires
        scalar::mathematics::<T, M>(),
        x@.len() <= scale@.len(),
        x@.len() <= shift@.len(),
    ensures
        r@ == modulated::<T, M>(x@, scale@, shift@),
{
    let one = M::one();
    let mut out: Vec<T> = Vec::with_capacity(x.len());
    for j in 0..x.len()
        invariant
            scalar::mathematics::<T, M>(),
            x@.len() <= scale@.len(),
            x@.len() <= shift@.len(),
            one == scalar::one::<T, M>(),
            out@ == modulated::<T, M>(x@.take(j as int), scale@, shift@),
    {
        out.push(x[j] * (one + scale[j]) + shift[j]);
        assert(out@ =~= modulated::<T, M>(x@.take(j + 1), scale@, shift@));
    }
    assert(x@.take(x@.len() as int) =~= x@);
    out
}

/// `x + gate * y`, element by element.
pub open spec fn gated_sum<T: Scalar>(x: Seq<T>, gate: Seq<T>, y: Seq<T>) -> Seq<T> {
    Seq::new(x.len(), |j: int| scalar::plus(x[j], scalar::times(gate[j], y[j])))
}

pub fn add_gated<T: Scalar>(x: &[T], gate: &[T], y: &[T]) -> (r: Vec<T>)
    requires
        scalar::arithmetic::<T>(),
        x@.len() <= gate@.len(),
        x@.len() <= y@.len(),
    ensures
        r@ == gated_sum(x@, gate@, y@),
{
    let mut out: Vec<T> = Vec::with_capacity(x.len());
    for j in 0..x.len()
        invariant
            scalar::arithmetic::<T>(),
            x@.len() <= gate@.len(),
            x@.len() <= y@.len(),
            out@ == gated_sum(x@.take(j as int), gate@, y@),
    {
        out.push(x[j] + gate[j] * y[j]);
        assert(out@ =~= gated_sum(x@.take(j + 1), gate@, y@));
    }
    assert(x@.take(x@.len() as int) =~= x@);
    out
}

} // verus!
