//! The keys and values of the positions that a model has already processed.

use vstd::prelude::*;

use crate::buffer::extend;

verus! {

/// Why a cache cannot be made or extended.
#[derive(Debug, Clone, Copy, PartialEq, Eq, Structural)]
pub enum CacheError {
    /// A row of keys would have more elements than a machine integer counts.
    TooLarge,
    /// The cache holds as many positions as it was made for.
    Full,
    /// A row does not have `num_kv_heads * head_dim` elements.
    RowLength,
}

/// One layer's cache: a key row and a value row for each position.
pub struct KVCacheLayer<T> {
    keys: Vec<T>,
    values: Vec<T>,
    len: usize,
    max_len: usize,
    width: usize,
}

impl<T: Copy> KVCacheLayer<T> {
    /// The key rows, one after the other.
    pub closed spec fn key_rows(self) -> Seq<T> {
        self.keys@
    }

    /// The value rows, one after the other.
    pub closed spec fn value_rows(self) -> Seq<T> {
        self.values@
    }

    /// How many positions are cached.
    pub closed spec fn positions(self) -> nat {
        self.len as nat
    }

    /// How many positions fit.
    pub closed spec fn capacity(self) -> nat {
        self.max_len as nat
    }

    /// Elements in a row.
    pub closed spec fn row_width(self) -> nat {
        self.width as nat
    }

    pub open spec fn wf(self) -> bool {
        &&& self.positions() <= self.capacity()
        &&& self.capacity() <= usize::MAX
        &&& self.key_rows().len() == self.positions() * self.row_width()
        &&& self.value_rows().len() == self.positions() * self.row_width()
    }

    /// An empty cache for `max_len` positions.
    pub fn new(max_len: usize, num_kv_heads: usize, head_dim: usize) -> (r: Result<
        Self,
        CacheError,
    >)
        ensures
            match r {
                Ok(c) => {
                    &&& num_kv_heads * head_dim <= usize::MAX
                    &&& c.wf()
                    &&& c.positions() == 0
                    &&& c.capacity() == max_len
                    &&& c.row_width() == num_kv_heads * head_dim
                    &&& c.key_rows() == Seq::<T>::empty()
                    &&& c.value_rows() == Seq::<T>::empty()
                },
                Err(e) => e == CacheError::TooLarge && num_kv_heads * head_dim > usize::MAX,
            },
    {
        match num_kv_heads.checked_mul(head_dim) {
            Some(width) => {
                let c = KVCacheLayer {
                    keys: Vec::new(),
                    values: Vec::new(),
                    len: 0,
                    max_len,
                    width,
                };
                assert(0 * c.row_width() == 0);
                Ok(c)
            },
            None => Err(CacheError::TooLarge),
        }
    }

    /// Appends the key row and the value row of the next position.
    pub fn append(&mut self, key: &[T], value: &[T]) -> (r: Result<(), CacheError>)
        requires
            old(self).wf(),
        ensures
            final(self).wf(),
            final(self).capacity() == old(self).capacity(),
            final(self).row_width() == old(self).row_width(),
            match r {
                Ok(()) => {
                    &&& old(self).positions() < old(self).capacity()
                    &&& key@.len() == old(self).row_width()
                    &&& value@.len() == old(self).row_width()
                    &&& final(self).positions() == old(self).positions() + 1
                    &&& final(self).key_rows() == old(self).key_rows() + key@
                    &&& final(self).value_rows() == old(self).value_rows() + value@
                },
                Err(e) => {
                    &&& *final(self) == *old(self)
                    &&& e == CacheError::Full <==> old(self).positions() == old(self).capacity()
                    &&& e == CacheError::RowLength <==> old(self).positions() < old(
                        self,
                    ).capacity() && (key@.len() != old(self).row_width() || value@.len() != old(
                        self,
                    ).row_width())
                    &&& e != CacheError::TooLarge
                },
            },
    {
        if self.len == self.max_len {
            return Err(CacheError::Full);
        }
        if key.len() != self.width || value.len() != self.width {
            return Err(CacheError::RowLength);
        }
        extend(&mut self.keys, key);
        extend(&mut self.values, value);
        proof {
            assert((self.len + 1) * self.width == self.len * self.width + self.width)
                by (nonlinear_arith);
        }
        self.len = self.len + 1;
        Ok(())
    }

    /// The cached keys, the cached values and the number of positions.
    pub fn slice(&self) -> (r: (&[T], &[T], usize))
        ensures
            r.0@ == self.key_rows(),
            r.1@ == self.value_rows(),
            r.2 == self.positions(),
    {
        (self.keys.as_slice(), self.values.as_slice(), self.len)
    }

    /// How many positions are cached.
    pub fn len(&self) -> (r: usize)
        ensures
            r == self.positions(),
    {
        self.len
    }

    /// How many positions fit.
    pub fn max_len(&self) -> (r: usize)
        ensures
            r == self.capacity(),
    {
        self.max_len
    }
}

/// The caches of all layers of a model.
pub struct KVCache<T> {
    pub layers: Vec<KVCacheLayer<T>>,
}

impl<T: Copy> KVCache<T> {
    /// Every layer's cache is sound and holds rows of `width` elements.
    pub open spec fn wf(self, width: nat) -> bool {
        forall|i: int|
            0 <= i < self.layers@.len() ==> (#[trigger] self.layers@[i]).wf()
                && self.layers@[i].row_width() == width
    }

    /// An empty cache for `num_layers` layers.
    pub fn new(
        num_layers: usize,
        max_len: usize,
        num_kv_heads: usize,
        head_dim: usize,
    ) -> (r: Result<Self, CacheError>)
        ensures
            match r {
                Ok(c) => {
                    &&& num_layers == 0 || num_kv_heads * head_dim <= usize::MAX
                    &&& c.wf((num_kv_heads * head_dim) as nat)
                    &&& c.layers@.len() == num_layers
                    &&& forall|i: int|
                        0 <= i < num_layers ==> (#[trigger] c.layers@[i]).positions() == 0
                            && c.layers@[i].capacity() == max_len && c.layers@[i].key_rows()
                            == Seq::<T>::empty() && c.layers@[i].value_rows() == Seq::<T>::empty()
                },
                Err(e) => e == CacheError::TooLarge && num_layers > 0 && num_kv_heads * head_dim
                    > usize::MAX,
            },
    {
        let mut layers: Vec<KVCacheLayer<T>> = Vec::with_capacity(num_layers);
        for i in 0..num_layers
            invariant
                layers@.len() == i,
                i > 0 ==> num_kv_heads * head_dim <= usize::MAX,
                forall|j: int|
                    0 <= j < i ==> (#[trigger] layers@[j]).wf() && layers@[j].row_width()
                        == num_kv_heads * head_dim && layers@[j].positions() == 0
                        && layers@[j].capacity() == max_len && layers@[j].key_rows() == Seq::<
                        T,
                    >::empty() && layers@[j].value_rows() == Seq::<T>::empty(),
        {
            match KVCacheLayer::<T>::new(max_len, num_kv_heads, head_dim) {
                Ok(layer) => layers.push(layer),
                Err(e) => return Err(e),
            }
        }
        Ok(KVCache { layers })
    }

    /// How many positions the first layer holds; none without layers.
    pub fn current_len(&self) -> (r: usize)
        ensures
            r == (if self.layers@.len() > 0 {
                self.layers@[0].positions()
            } else {
                0
            }),
    {
        if self.layers.len() > 0 {
            self.layers[0].len()
        } else {
            0
        }
    }
}

} // verus!
