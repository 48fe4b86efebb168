//! Linear layers in a packed form, such as four-bit weights.

use vstd::prelude::*;

use crate::ops;
use crate::ops::{add_bias, matmul_t};
use crate::scalar;
use crate::scalar::Scalar;

verus! {

/// A weight matrix in a packed form that rows can be multiplied with.
pub trait PackedLinear<T>: Sized {
    /// Packs an `[n, k]` matrix.
    fn pack(w: &[T], n: usize, k: usize) -> Self;

    /// Multiplies `m` rows of `k` elements; each gives a row of `n`.
    fn forward(&self, x: &[T], m: usize) -> Vec<T>;

    /// The bytes that the packed form takes.
    fn memory_bytes(&self) -> usize;
}

/// Packing the matrix `w` can give `q`.
pub open spec fn packs_to<T, Q: PackedLinear<T>>(w: Seq<T>, n: usize, k: usize, q: Q) -> bool {
    exists|s: &[T]| s@ == w && #[trigger] call_ensures(Q::pack, (s, n, k), q)
}

/// The packed form of a matrix.
pub open spec fn packed_of<T, Q: PackedLinear<T>>(w: Seq<T>, n: usize, k: usize) -> Q {
    choose|q: Q| packs_to(w, n, k, q)
}

/// Multiplying the rows `x` by `q` can give `y`.
pub open spec fn multiplies_to<T, Q: PackedLinear<T>>(
    q: Q,
    x: Seq<T>,
    m: usize,
    y: Seq<T>,
) -> bool {
    exists|s: &[T], v: Vec<T>|
        s@ == x && v@ == y && #[trigger] call_ensures(Q::forward, (&q, s, m), v)
}

/// What a packed matrix makes of rows.
pub open spec fn packed_output<T, Q: PackedLinear<T>>(q: Q, x: Seq<T>, m: usize) -> Seq<T> {
    choose|y: Seq<T>| multiplies_to(q, x, m, y)
}

/// A single row of `k` elements gives one of `n`.
pub open spec fn maps_row<T, Q: PackedLinear<T>>(q: Q, k: nat, n: nat) -> bool {
    forall|x: Seq<T>| x.len() == k ==> (#[trigger] packed_output(q, x, 1)).len() == n
}

/// Any number of rows of `k` elements give as many of `n`.
pub open spec fn maps_rows<T, Q: PackedLinear<T>>(q: Q, k: nat, n: nat) -> bool {
    forall|x: Seq<T>, m: usize|
        x.len() == m * k ==> (#[trigger] packed_output(q, x, m)).len() == m * n
}

/// The bytes that a packed matrix takes.
pub open spec fn bytes_of<T, Q: PackedLinear<T>>(q: Q) -> usize {
    choose|b: usize| call_ensures(Q::memory_bytes, (&q,), b)
}

/// Packing and multiplying are functions of their operands, and packing an
/// `[n, k]` matrix keeps its dimensions.
pub open spec fn packing<T, Q: PackedLinear<T>>() -> bool {
    &&& forall|s: &[T], n: usize, k: usize, q: Q| #[trigger]
        call_ensures(Q::pack, (s, n, k), q) ==> q == packed_of::<T, Q>(s@, n, k)
    &&& forall|q: &Q, s: &[T], m: usize, v: Vec<T>| #[trigger]
        call_ensures(Q::forward, (q, s, m), v) ==> v@ == packed_output(*q, s@, m)
    &&& forall|q: &Q, b: usize| #[trigger]
        call_ensures(Q::memory_bytes, (q,), b) ==> b == bytes_of::<T, Q>(*q)
    &&& forall|w: Seq<T>, n: usize, k: usize|
        w.len() == n * k ==> {
            &&& maps_row::<T, Q>(#[trigger] packed_of(w, n, k), k as nat, n as nat)
            &&& maps_rows::<T, Q>(packed_of(w, n, k), k as nat, n as nat)
        }
}

/// `m` rows times a weight matrix: the packed form for a single row where
/// there is one, the dense form otherwise.
pub open spec fn gemv_of<T: Scalar, Q: PackedLinear<T>>(
    x: Seq<T>,
    w: Seq<T>,
    q: Option<Q>,
    m: nat,
    k: nat,
    n: nat,
) -> Seq<T> {
    if m == 1 && q is Some {
        packed_output(q->0, x, 1)
    } else {
        ops::linear_of(x, w, Seq::empty(), m, k, n)
    }
}

/// An optional packed form of an `[n, k]` matrix has its dimensions.
pub open spec fn fits<T, Q: PackedLinear<T>>(q: Option<Q>, k: nat, n: nat) -> bool {
    q is Some ==> maps_row::<T, Q>(q->0, k, n)
}

/// GEMV dispatch: use the packed form when available (M=1 decode), else the
/// dense matmul.
pub fn gemv_or_matmul<T: Scalar, Q: PackedLinear<T>>(
    x: &[T],
    dense: &[T],
    packed: &Option<Q>,
    m: usize,
    k: usize,
    n: usize,
) -> (r: Vec<T>)
    requires
        scalar::arithmetic::<T>(),
        packing::<T, Q>(),
        x@.len() == m * k,
        dense@.len() == n * k,
        fits::<T, Q>(*packed, k as nat, n as nat),
    ensures
        r@ == gemv_of(x@, dense@, *packed, m as nat, k as nat, n as nat),
        r@.len() == m * n,
{
    if m == 1 {
        if let Some(q) = packed {
            let y = q.forward(x, 1);
            return y;
        }
    }
    proof {
        ops::lemma_linear(x@, dense@, Seq::empty(), m as nat, k as nat, n as nat);
    }
    matmul_t(x, dense, m, k, n)
}

/// Without a packed form, a single row goes through the dense layer.
pub proof fn lemma_dense_row<T: Scalar, Q: PackedLinear<T>>(
    x: Seq<T>,
    w: Seq<T>,
    k: nat,
    n: nat,
)
    requires
        x.len() == k,
    ensures
        gemv_of::<T, Q>(x, w, None, 1, k, n) == ops::linear_row(x, w, Seq::empty(), k, n),
{
    let f = |i: int| ops::linear_row(ops::row(x, i, k as int), w, Seq::empty(), k, n);
    assert(ops::row(x, 0, k as int) =~= x);
    assert(ops::blocks(1, f) =~= f(0)) by {
        assert(ops::blocks(0, f) =~= Seq::empty());
    }
}

/// `m` rows through a packed matrix, and a bias where there is one.
pub open spec fn packed_linear_of<T: Scalar, Q: PackedLinear<T>>(
    q: Q,
    x: Seq<T>,
    bias: Seq<T>,
    m: usize,
    n: nat,
) -> Seq<T> {
    ops::biased(packed_output(q, x, m), bias, m as nat, n)
}

/// Multiplies `m` rows by a packed `[n, k]` matrix and adds a bias.
pub fn packed_linear<T: Scalar, Q: PackedLinear<T>>(
    q: &Q,
    x: &[T],
    bias: &[T],
    m: usize,
    k: usize,
    n: usize,
) -> (r: Vec<T>)
    requires
        scalar::arithmetic::<T>(),
        packing::<T, Q>(),
        maps_rows::<T, Q>(*q, k as nat, n as nat),
        x@.len() == m * k,
        bias@.len() == 0 || n <= bias@.len(),
    ensures
        r@ == packed_linear_of(*q, x@, bias@, m, n as nat),
        r@.len() == m * n,
{
    let mut y = q.forward(x, m);
    add_bias(&mut y, bias, m, n);
    y
}

} // verus!
