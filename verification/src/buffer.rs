//! Weight storage: flat element buffers and the tensors read from a
//! checkpoint.

use vstd::prelude::*;

use crate::ops;

verus! {

/// A flat buffer of elements in row-major order.
pub struct AlignedBuffer<T> {
    pub data: Vec<T>,
}

impl<T> View for AlignedBuffer<T> {
    type V = Seq<T>;

    open spec fn view(&self) -> Seq<T> {
        self.data@
    }
}

/// Copies a slice element by element.
pub fn copy_slice<T: Copy>(src: &[T]) -> (r: Vec<T>)
    ensures
        r@ == src@,
{
    let mut out: Vec<T> = Vec::with_capacity(src.len());
    for i in 0..src.len()
        invariant
            out@ == src@.take(i as int),
    {
        out.push(src[i]);
        assert(src@.take(i + 1) =~= src@.take(i as int).push(src@[i as int]));
    }
    assert(src@.take(src@.len() as int) =~= src@);
    out
}

/// Appends every element of `src` to `dst`.
pub fn extend<T: Copy>(dst: &mut Vec<T>, src: &[T])
    ensures
        final(dst)@ == old(dst)@ + src@,
{
    let ghost start = dst@;
    for i in 0..src.len()
        invariant
            dst@ == start + src@.take(i as int),
    {
        dst.push(src[i]);
        assert(start + src@.take(i + 1) =~= (start + src@.take(i as int)).push(src@[i as int]));
    }
    assert(src@.take(src@.len() as int) =~= src@);
}

/// Overwrites `dst[at..at + src.len()]` with `src`.
pub fn copy_into<T: Copy>(dst: &mut Vec<T>, at: usize, src: &[T])
    requires
        at + src@.len() <= old(dst)@.len(),
    ensures
        final(dst)@ == splice(old(dst)@, at as int, src@),
{
    let ghost start = dst@;
    let n = dst.len();
    for i in 0..src.len()
        invariant
            at + src@.len() <= n,
            n == start.len(),
            dst@.len() == n,
            forall|p: int|
                0 <= p < start.len() ==> #[trigger] dst@[p] == (if at <= p < at + i {
                    src@[p - at]
                } else {
                    start[p]
                }),
    {
        dst.set(at + i, src[i]);
    }
    assert(dst@ =~= splice(start, at as int, src@));
}

/// `base` with the elements from `at` on replaced by `part`.
pub open spec fn splice<T>(base: Seq<T>, at: int, part: Seq<T>) -> Seq<T> {
    Seq::new(
        base.len(),
        |p: int|
            if at <= p < at + part.len() {
                part[p - at]
            } else {
                base[p]
            },
    )
}

/// `count` copies of one value.
pub open spec fn repeated<T>(value: T, count: nat) -> Seq<T> {
    Seq::new(count, |i: int| value)
}

/// A vector of `count` copies of `value`.
pub fn filled<T: Copy>(value: T, count: usize) -> (r: Vec<T>)
    ensures
        r@ == repeated(value, count as nat),
{
    let mut out: Vec<T> = Vec::with_capacity(count);
    for i in 0..count
        invariant
            out@ == repeated(value, i as nat),
    {
        out.push(value);
        assert(repeated(value, (i + 1) as nat) =~= repeated(value, i as nat).push(value));
    }
    out
}

/// Overwrites row `i` of the rows of `w` elements at the front of `dst`.
pub fn put_row<T: Copy>(dst: &mut Vec<T>, i: usize, w: usize, src: &[T])
    requires
        src@.len() == w,
        (i + 1) * w <= old(dst)@.len(),
    ensures
        final(dst)@.len() == old(dst)@.len(),
        final(dst)@.take((i + 1) * w) == old(dst)@.take(i * w) + src@,
        final(dst)@.skip((i + 1) * w) == old(dst)@.skip((i + 1) * w),
{
    let ghost start = dst@;
    proof {
        ops::lemma_row_bounds(i as int, i + 1, w as int);
    }
    let n = dst.len();
    let at = i * w;
    copy_into(dst, at, src);
    assert(dst@.take((i + 1) * w) =~= start.take(i * w) + src@);
    assert(dst@.skip((i + 1) * w) =~= start.skip((i + 1) * w));
}

/// A buffer made at least `n` elements long, new elements being `value`.
pub open spec fn grown<T>(buf: Seq<T>, value: T, n: nat) -> Seq<T> {
    if buf.len() < n {
        buf + repeated(value, (n - buf.len()) as nat)
    } else {
        buf
    }
}

/// Makes `buf` at least `n` elements long; it never shrinks.
pub fn grow<T: Copy>(buf: &mut Vec<T>, value: T, n: usize)
    ensures
        final(buf)@ == grown(old(buf)@, value, n as nat),
{
    let ghost start = buf@;
    if buf.len() < n {
        let have = buf.len();
        for i in have..n
            invariant
                have == start.len(),
                have <= n,
                buf@ == start + repeated(value, (i - have) as nat),
        {
            buf.push(value);
            assert(buf@ =~= start + repeated(value, (i + 1 - have) as nat));
        }
    }
    assert(buf@ =~= grown(start, value, n as nat));
}

/// Overwrites every element of `buf` with `value`.
pub fn fill<T: Copy>(buf: &mut Vec<T>, value: T)
    ensures
        final(buf)@ == repeated(value, old(buf)@.len()),
{
    let n = buf.len();
    for i in 0..n
        invariant
            buf@.len() == n,
            forall|k: int| 0 <= k < i ==> buf@[k] == value,
    {
        buf.set(i, value);
    }
    assert(buf@ =~= repeated(value, n as nat));
}

impl<T: Copy> AlignedBuffer<T> {
    /// A buffer without elements, as every weight is before it is loaded.
    pub fn empty() -> (r: Self)
        ensures
            r@ == Seq::<T>::empty(),
    {
        AlignedBuffer { data: Vec::new() }
    }

    pub fn from_vec(data: Vec<T>) -> (r: Self)
        ensures
            r@ == data@,
    {
        AlignedBuffer { data }
    }

    pub fn from_slice(src: &[T]) -> (r: Self)
        ensures
            r@ == src@,
    {
        AlignedBuffer { data: copy_slice(src) }
    }

    pub fn len(&self) -> (r: usize)
        ensures
            r == self@.len(),
    {
        self.data.len()
    }

    pub fn is_empty(&self) -> (r: bool)
        ensures
            r == (self@.len() == 0),
    {
        self.data.len() == 0
    }

    pub fn as_slice(&self) -> (r: &[T])
        ensures
            r@ == self@,
    {
        self.data.as_slice()
    }

    /// A buffer with the same elements.
    pub fn duplicate(&self) -> (r: Self)
        ensures
            r@ == self@,
    {
        AlignedBuffer { data: copy_slice(self.data.as_slice()) }
    }
}

/// A tensor as a checkpoint holds it: its elements and its dimensions.
pub struct RawTensor<T> {
    pub data: AlignedBuffer<T>,
    pub shape: Vec<usize>,
}

} // verus!
