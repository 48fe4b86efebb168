//! Compute backends: where the matrix products of a forward pass are done.

use vstd::prelude::*;

verus! {

/// A device that does the heavy operations of a forward pass.
pub trait ComputeBackend<T> {
    /// `m` rows of `k` elements times the transpose of an `[n, k]` matrix.
    fn matmul_t(&self, a: &[T], b: &[T], m: usize, k: usize, n: usize) -> Vec<T>;

    /// RMS normalisation of rows of `hidden_size` elements.
    fn rmsnorm(&self, x: &[T], weight: &[T], eps: T, hidden_size: usize) -> Vec<T>;

    /// SwiGLU of a gate and a value.
    fn swiglu(&self, gate: &[T], up: &[T]) -> Vec<T>;
}

/// Multiplying on a backend can give `y`.
pub open spec fn multiplies_to<T, B: ComputeBackend<T>>(
    backend: B,
    a: Seq<T>,
    b: Seq<T>,
    m: usize,
    k: usize,
    n: usize,
    y: Seq<T>,
) -> bool {
    exists|s: &[T], t: &[T], v: Vec<T>|
        s@ == a && t@ == b && v@ == y && #[trigger] call_ensures(
            B::matmul_t,
            (&backend, s, t, m, k, n),
            v,
        )
}

/// The product that a backend computes.
pub open spec fn product_on<T, B: ComputeBackend<T>>(
    backend: B,
    a: Seq<T>,
    b: Seq<T>,
    m: usize,
    k: usize,
    n: usize,
) -> Seq<T> {
    choose|y: Seq<T>| multiplies_to(backend, a, b, m, k, n, y)
}

/// Normalising on a backend can give `y`.
pub open spec fn normalizes_to<T, B: ComputeBackend<T>>(
    backend: B,
    x: Seq<T>,
    w: Seq<T>,
    eps: T,
    h: usize,
    y: Seq<T>,
) -> bool {
    exists|s: &[T], t: &[T], v: Vec<T>|
        s@ == x && t@ == w && v@ == y && #[trigger] call_ensures(
            B::rmsnorm,
            (&backend, s, t, eps, h),
            v,
        )
}

/// The normalised rows that a backend computes.
pub open spec fn rms_on<T, B: ComputeBackend<T>>(
    backend: B,
    x: Seq<T>,
    w: Seq<T>,
    eps: T,
    h: usize,
) -> Seq<T> {
    choose|y: Seq<T>| normalizes_to(backend, x, w, eps, h, y)
}

/// SwiGLU on a backend can give `y`.
pub open spec fn gates_to<T, B: ComputeBackend<T>>(
    backend: B,
    gate: Seq<T>,
    up: Seq<T>,
    y: Seq<T>,
) -> bool {
    exists|s: &[T], t: &[T], v: Vec<T>|
        s@ == gate && t@ == up && v@ == y && #[trigger] call_ensures(
            B::swiglu,
            (&backend, s, t),
            v,
        )
}

/// The gated value that a backend computes.
pub open spec fn swiglu_on<T, B: ComputeBackend<T>>(
    backend: B,
    gate: Seq<T>,
    up: Seq<T>,
) -> Seq<T> {
    choose|y: Seq<T>| gates_to(backend, gate, up, y)
}

/// A backend's operations are functions of their operands, and their results
/// have the dimensions of the operation.
pub open spec fn computing<T, B: ComputeBackend<T>>() -> bool {
    &&& forall|backend: &B, a: &[T], b: &[T], m: usize, k: usize, n: usize, v: Vec<T>| #[trigger]
        call_ensures(B::matmul_t, (backend, a, b, m, k, n), v) ==> v@ == product_on(
            *backend,
            a@,
            b@,
            m,
            k,
            n,
        )
    &&& forall|backend: &B, x: &[T], w: &[T], eps: T, h: usize, v: Vec<T>| #[trigger]
        call_ensures(B::rmsnorm, (backend, x, w, eps, h), v) ==> v@ == rms_on(
            *backend,
            x@,
            w@,
            eps,
            h,
        )
    &&& forall|backend: &B, gate: &[T], up: &[T], v: Vec<T>| #[trigger]
        call_ensures(B::swiglu, (backend, gate, up), v) ==> v@ == swiglu_on(
            *backend,
            gate@,
            up@,
        )
    &&& forall|backend: B, a: Seq<T>, b: Seq<T>, m: usize, k: usize, n: usize|
        a.len() == m * k && b.len() == n * k ==> (#[trigger] product_on(
            backend,
            a,
            b,
            m,
            k,
            n,
        )).len() == m * n
    &&& forall|backend: B, x: Seq<T>, w: Seq<T>, eps: T, h: usize|
        (#[trigger] rms_on(backend, x, w, eps, h)).len() == x.len()
    &&& forall|backend: B, gate: Seq<T>, up: Seq<T>|
        gate.len() == up.len() ==> (#[trigger] swiglu_on(backend, gate, up)).len() == up.len()
}

} // verus!
