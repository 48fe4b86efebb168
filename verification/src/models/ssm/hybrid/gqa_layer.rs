//! The GQA (grouped query attention) decoder layer and its KV cache.

use vstd::prelude::*;
use vstd::slice::slice_subrange;

use crate::attention;
use crate::attention::{attend_row, HeadLayout};
use crate::buffer;
use crate::buffer::{copy_into, extend, fill, filled};
use crate::config::RoPEStyle;
use crate::models::ssm::ffn;
use crate::models::ssm::ffn::{swiglu_ffn_forward, swiglu_ffn_forward_q4, FfnPacked, FfnWeights};
use crate::ops;
use crate::ops::{add_vecs, dot_product, linear_vec, rms_normalize, row_slice};
use crate::packed;
use crate::packed::{gemv_or_matmul, PackedLinear};
use crate::rope;
use crate::rope::rotate_row;
use crate::scalar;
use crate::scalar::{Math, Scalar};

verus! {

/// State for a single GQA layer's KV cache.
pub struct KvLayerState<T> {
    /// Key cache: `[max_seq * kv_dim]` (flat, row-major).
    pub k_cache: Vec<T>,
    /// Value cache: `[max_seq * kv_dim]` (flat, row-major).
    pub v_cache: Vec<T>,
    /// Maximum sequence length the cache can hold.
    pub max_seq: usize,
    /// Dimension per row: `num_kv_heads * head_dim`.
    pub kv_dim: usize,
    /// Current number of cached tokens.
    pub len: usize,
}

/// The cached rows.
#[verifier::ext_equal]
pub struct KvView<T> {
    pub keys: Seq<T>,
    pub values: Seq<T>,
    pub len: nat,
}

impl<T> View for KvLayerState<T> {
    type V = KvView<T>;

    open spec fn view(&self) -> KvView<T> {
        KvView {
            keys: self.k_cache@.take(self.len * self.kv_dim),
            values: self.v_cache@.take(self.len * self.kv_dim),
            len: self.len as nat,
        }
    }
}

/// A cache without any rows.
pub open spec fn blank_cache<T>() -> KvView<T> {
    KvView { keys: Seq::empty(), values: Seq::empty(), len: 0 }
}

impl<T> KvView<T> {
    /// A row for each cached token.
    pub open spec fn fits(self, kv_dim: nat) -> bool {
        &&& self.keys.len() == self.len * kv_dim
        &&& self.values.len() == self.len * kv_dim
    }
}

impl<T> KvLayerState<T> {
    pub open spec fn wf(&self) -> bool {
        &&& self.len <= self.max_seq
        &&& self.k_cache@.len() == self.max_seq * self.kv_dim
        &&& self.v_cache@.len() == self.max_seq * self.kv_dim
    }

    /// The same room, whatever is cached.
    pub open spec fn same_room(&self, other: Self) -> bool {
        &&& self.max_seq == other.max_seq
        &&& self.kv_dim == other.kv_dim
        &&& self.k_cache@.len() == other.k_cache@.len()
        &&& self.v_cache@.len() == other.v_cache@.len()
    }

    pub proof fn lemma_view_fits(&self)
        requires
            self.wf(),
        ensures
            self@.fits(self.kv_dim as nat),
            self.len * self.kv_dim <= self.max_seq * self.kv_dim,
    {
        assert(self.len * self.kv_dim <= self.max_seq * self.kv_dim) by (nonlinear_arith)
            requires
                self.len <= self.max_seq,
        ;
        assert(0 <= self.len * self.kv_dim) by (nonlinear_arith);
    }
}

impl<T: Scalar> KvLayerState<T> {
    pub fn new(max_seq: usize, num_kv_heads: usize, head_dim: usize) -> (r: Self)
        requires
            scalar::arithmetic::<T>(),
            num_kv_heads * head_dim <= usize::MAX,
            max_seq * (num_kv_heads * head_dim) <= usize::MAX,
        ensures
            r.wf(),
            r@ == blank_cache::<T>(),
            r.max_seq == max_seq,
            r.kv_dim == num_kv_heads * head_dim,
            r.len == 0,
            r.k_cache@ == buffer::repeated(
                scalar::zero::<T>(),
                (max_seq * (num_kv_heads * head_dim)) as nat,
            ),
            r.v_cache@ == r.k_cache@,
    {
        let kv_dim = num_kv_heads * head_dim;
        let zero = T::default();
        let r = KvLayerState {
            k_cache: filled(zero, max_seq * kv_dim),
            v_cache: filled(zero, max_seq * kv_dim),
            max_seq,
            kv_dim,
            len: 0,
        };
        assert(0 * kv_dim == 0) by (nonlinear_arith);
        assert(r@ =~= blank_cache::<T>());
        r
    }

    /// Append a single token's K and V to the cache.
    pub fn append(&mut self, k: &[T], v: &[T])
        requires
            old(self).wf(),
            old(self).len < old(self).max_seq,
            k@.len() == old(self).kv_dim,
            v@.len() == old(self).kv_dim,
        ensures
            final(self).wf(),
            final(self).same_room(*old(self)),
            final(self).len == old(self).len + 1,
            final(self)@.keys == old(self)@.keys + k@,
            final(self)@.values == old(self)@.values + v@,
    {
        assert(1 * self.kv_dim == self.kv_dim);
        self.append_seq(k, v, 1);
        assert(k@.take(self.kv_dim as int) =~= k@);
        assert(v@.take(self.kv_dim as int) =~= v@);
    }

    /// Append multiple tokens' K and V to the cache.
    pub fn append_seq(&mut self, k: &[T], v: &[T], seq_len: usize)
        requires
            old(self).wf(),
            old(self).len + seq_len <= old(self).max_seq,
            seq_len * old(self).kv_dim <= k@.len(),
            seq_len * old(self).kv_dim <= v@.len(),
        ensures
            final(self).wf(),
            final(self).same_room(*old(self)),
            final(self).len == old(self).len + seq_len,
            final(self)@.keys == old(self)@.keys + k@.take(seq_len * old(self).kv_dim),
            final(self)@.values == old(self)@.values + v@.take(seq_len * old(self).kv_dim),
    {
        let ghost start = *self;
        proof {
            let (l, n, w, m) = (
                self.len as int,
                seq_len as int,
                self.kv_dim as int,
                self.max_seq as int,
            );
            assert((l + n) * w == l * w + n * w) by (nonlinear_arith);
            assert((l + n) * w <= m * w) by (nonlinear_arith)
                requires
                    l + n <= m,
                    0 <= w,
            ;
            assert(0 <= l * w && 0 <= n * w) by (nonlinear_arith)
                requires
                    0 <= l,
                    0 <= n,
                    0 <= w,
            ;
        }
        let room = self.k_cache.len();
        let off = self.len * self.kv_dim;
        let size = seq_len * self.kv_dim;
        copy_into(&mut self.k_cache, off, slice_subrange(k, 0, size));
        copy_into(&mut self.v_cache, off, slice_subrange(v, 0, size));
        self.len = self.len + seq_len;
        assert(self@.keys =~= start@.keys + k@.take(size as int));
        assert(self@.values =~= start@.values + v@.take(size as int));
    }

    /// Forgets every token.
    pub fn reset(&mut self)
        requires
            scalar::arithmetic::<T>(),
            old(self).wf(),
        ensures
            final(self).wf(),
            final(self).same_room(*old(self)),
            final(self).len == 0,
            final(self)@ == blank_cache::<T>(),
            final(self).k_cache@ == buffer::repeated(
                scalar::zero::<T>(),
                old(self).k_cache@.len(),
            ),
            final(self).v_cache@ == buffer::repeated(
                scalar::zero::<T>(),
                old(self).v_cache@.len(),
            ),
    {
        let zero = T::default();
        fill(&mut self.k_cache, zero);
        fill(&mut self.v_cache, zero);
        self.len = 0;
        assert(0 * self.kv_dim == 0) by (nonlinear_arith);
        assert(self@ =~= blank_cache::<T>());
    }

    /// Memory in bytes used by this cache entry.
    pub fn memory_bytes(&self) -> (r: usize)
        requires
            self.k_cache@.len() + self.v_cache@.len() <= usize::MAX,
            (self.k_cache@.len() + self.v_cache@.len()) * vstd::layout::size_of::<T>()
                <= usize::MAX,
        ensures
            r == (self.k_cache@.len() + self.v_cache@.len()) * vstd::layout::size_of::<T>(),
    {
        (self.k_cache.len() + self.v_cache.len()) * core::mem::size_of::<T>()
    }
}

/// A head under root-mean-square normalisation, with the weight multiplied by
/// the scale first.
pub open spec fn normed_head<T: Scalar, M: Math<T>>(x: Seq<T>, w: Seq<T>, eps: T) -> Seq<T> {
    Seq::new(
        x.len(),
        |j: int| scalar::times(x[j], scalar::times(w[j], ops::rms_scale::<T, M>(x, eps))),
    )
}

/// A row of heads, each normalised with the same weight.
pub open spec fn normed_heads<T: Scalar, M: Math<T>>(
    x: Seq<T>,
    w: Seq<T>,
    heads: nat,
    head_dim: nat,
    eps: T,
) -> Seq<T> {
    ops::blocks(heads, |h: int| normed_head::<T, M>(ops::row(x, h, head_dim as int), w, eps))
}

proof fn lemma_normed_heads_len<T: Scalar, M: Math<T>>(
    x: Seq<T>,
    w: Seq<T>,
    heads: nat,
    head_dim: nat,
    eps: T,
)
    requires
        x.len() == heads * head_dim,
    ensures
        normed_heads::<T, M>(x, w, heads, head_dim, eps).len() == heads * head_dim,
{
    let f = |h: int| normed_head::<T, M>(ops::row(x, h, head_dim as int), w, eps);
    assert forall|h: int| 0 <= h < heads implies #[trigger] f(h).len() == head_dim by {
        ops::lemma_row_bounds(h, heads as int, head_dim as int);
    }
    ops::lemma_blocks_len(heads, f, head_dim);
}

/// Per-head RMSNorm (Qwen3 style): norm each head's vector with the
/// shared `weight` of length `head_dim`.
pub fn head_rmsnorm<T: Scalar, M: Math<T>>(
    data: &[T],
    weight: &[T],
    heads: usize,
    head_dim: usize,
    eps: T,
) -> (r: Vec<T>)
    requires
        scalar::mathematics::<T, M>(),
        data@.len() == heads * head_dim,
        head_dim <= weight@.len(),
    ensures
        r@ == normed_heads::<T, M>(data@, weight@, heads as nat, head_dim as nat, eps),
        r@.len() == heads * head_dim,
{
    let ghost f = |h: int| normed_head::<T, M>(ops::row(data@, h, head_dim as int), weight@, eps);
    let mut out: Vec<T> = Vec::with_capacity(data.len());
    for h in 0..heads
        invariant
            scalar::mathematics::<T, M>(),
            data@.len() == heads * head_dim,
            head_dim <= weight@.len(),
            f == (|h: int|
                normed_head::<T, M>(ops::row(data@, h, head_dim as int), weight@, eps)),
            out@ == ops::blocks(h as nat, f),
    {
        proof {
            ops::lemma_row_bounds(h as int, heads as int, head_dim as int);
        }
        let ghost done = out@;
        let x = row_slice(data, h, head_dim);
        let scale = M::one() / M::sqrt(dot_product(x, x) / M::count(head_dim) + eps);
        for j in 0..head_dim
            invariant
                scalar::mathematics::<T, M>(),
                x@.len() == head_dim,
                head_dim <= weight@.len(),
                scale == ops::rms_scale::<T, M>(x@, eps),
                out@ == done + normed_head::<T, M>(x@, weight@, eps).take(j as int),
        {
            out.push(x[j] * (weight[j] * scale));
            assert(out@ =~= done + normed_head::<T, M>(x@, weight@, eps).take(j + 1));
        }
        assert(normed_head::<T, M>(x@, weight@, eps).take(head_dim as int) =~= f(h as int));
        assert(out@ =~= ops::blocks((h + 1) as nat, f));
    }
    proof {
        lemma_normed_heads_len::<T, M>(data@, weight@, heads as nat, head_dim as nat, eps);
    }
    out
}

/// A single GQA (Grouped Query Attention) decoder layer.
///
/// Uses standard softmax attention with RoPE and a KV cache. Self-contained
/// so it does not depend on the transformer model builder infrastructure.
pub struct GqaDecoderLayer<T, Q> {
    pub hidden_size: usize,
    pub num_q_heads: usize,
    pub num_kv_heads: usize,
    pub head_dim: usize,
    pub intermediate_size: usize,
    pub norm_eps: T,
    // Attention norm
    pub attn_norm_weight: Vec<T>,  // [hidden_size]
    // Q, K, V projections
    pub w_q: Vec<T>,  // [num_q_heads * head_dim, hidden_size]
    pub w_k: Vec<T>,  // [num_kv_heads * head_dim, hidden_size]
    pub w_v: Vec<T>,  // [num_kv_heads * head_dim, hidden_size]
    pub w_o: Vec<T>,  // [hidden_size, num_q_heads * head_dim]
    // Per-head Q/K norms (Qwen3 style)
    pub q_norm_weight: Vec<T>,  // [head_dim]
    pub k_norm_weight: Vec<T>,  // [head_dim]
    // FFN
    pub ffn_norm_weight: Vec<T>,  // [hidden_size]
    pub ffn_gate_weight: Vec<T>,  // [intermediate_size, hidden_size]
    pub ffn_up_weight: Vec<T>,  // [intermediate_size, hidden_size]
    pub ffn_down_weight: Vec<T>,  // [hidden_size, intermediate_size]
    // Packed weights for fast decode
    pub q4_wq: Option<Q>,
    pub q4_wk: Option<Q>,
    pub q4_wv: Option<Q>,
    pub q4_wo: Option<Q>,
    pub q4_ffn_gate: Option<Q>,
    pub q4_ffn_up: Option<Q>,
    pub q4_ffn_down: Option<Q>,
}

/// The tables of a rotary embedding.
#[verifier::ext_equal]
pub struct RopeTables<T> {
    pub cos: Seq<T>,
    pub sin: Seq<T>,
}

impl<T> RopeTables<T> {
    /// The tables have rows for the first `n` positions.
    pub open spec fn covers(self, n: nat, head_dim: nat) -> bool {
        &&& n * (head_dim / 2) <= self.cos.len()
        &&& n * (head_dim / 2) <= self.sin.len()
    }
}

pub open spec fn tables_of<T>(cos: Seq<T>, sin: Seq<T>) -> RopeTables<T> {
    RopeTables { cos, sin }
}

impl<T: Scalar, Q: PackedLinear<T>> GqaDecoderLayer<T, Q> {
    pub open spec fn spec_layout(&self) -> HeadLayout {
        HeadLayout {
            num_heads: self.num_q_heads,
            num_kv_heads: self.num_kv_heads,
            head_dim: self.head_dim,
        }
    }

    pub open spec fn q_dim(&self) -> nat {
        self.spec_layout().q_dim()
    }

    pub open spec fn kv_dim(&self) -> nat {
        self.spec_layout().kv_dim()
    }

    pub open spec fn ffn(&self) -> FfnWeights<T> {
        ffn::weights_of(
            self.ffn_norm_weight@,
            self.ffn_gate_weight@,
            self.ffn_up_weight@,
            self.ffn_down_weight@,
        )
    }

    pub open spec fn ffn_packed(&self) -> FfnPacked<Q> {
        ffn::packed_as(self.q4_ffn_gate, self.q4_ffn_up, self.q4_ffn_down)
    }

    /// No weight has a packed form.
    pub open spec fn is_dense(&self) -> bool {
        &&& self.q4_wq is None
        &&& self.q4_wk is None
        &&& self.q4_wv is None
        &&& self.q4_wo is None
        &&& self.ffn_packed().is_empty()
    }

    /// The weights have their sizes.
    pub open spec fn wf(&self) -> bool {
        let h = self.hidden_size as nat;
        &&& self.spec_layout().wf()
        &&& self.head_dim > 0
        &&& h <= self.attn_norm_weight@.len()
        &&& self.w_q@.len() == self.q_dim() * h
        &&& self.w_k@.len() == self.kv_dim() * h
        &&& self.w_v@.len() == self.kv_dim() * h
        &&& self.w_o@.len() == h * self.q_dim()
        &&& self.head_dim <= self.q_norm_weight@.len()
        &&& self.head_dim <= self.k_norm_weight@.len()
        &&& self.ffn().fits(h, self.intermediate_size as nat)
        &&& packed::fits::<T, Q>(self.q4_wq, h, self.q_dim())
        &&& packed::fits::<T, Q>(self.q4_wk, h, self.kv_dim())
        &&& packed::fits::<T, Q>(self.q4_wv, h, self.kv_dim())
        &&& packed::fits::<T, Q>(self.q4_wo, self.q_dim(), h)
        &&& self.ffn_packed().fits::<T>(h, self.intermediate_size as nat)
    }

    /// What attention reads of a row.
    pub open spec fn input<M: Math<T>>(&self, x: Seq<T>) -> Seq<T> {
        ops::rms_row::<T, M>(x, self.attn_norm_weight@, self.norm_eps)
    }

    /// Query heads after norm and rotation.
    pub open spec fn placed_query<M: Math<T>>(
        &self,
        q: Seq<T>,
        tables: RopeTables<T>,
        pos: int,
    ) -> Seq<T> {
        rope::rotated_row(
            normed_heads::<T, M>(
                q,
                self.q_norm_weight@,
                self.num_q_heads as nat,
                self.head_dim as nat,
                self.norm_eps,
            ),
            tables.cos,
            tables.sin,
            self.num_q_heads as nat,
            self.head_dim as nat,
            pos,
            RoPEStyle::RotateHalf,
        )
    }

    /// Key heads after norm and rotation.
    pub open spec fn placed_key<M: Math<T>>(
        &self,
        k: Seq<T>,
        tables: RopeTables<T>,
        pos: int,
    ) -> Seq<T> {
        rope::rotated_row(
            normed_heads::<T, M>(
                k,
                self.k_norm_weight@,
                self.num_kv_heads as nat,
                self.head_dim as nat,
                self.norm_eps,
            ),
            tables.cos,
            tables.sin,
            self.num_kv_heads as nat,
            self.head_dim as nat,
            pos,
            RoPEStyle::RotateHalf,
        )
    }

    proof fn lemma_placed_len<M: Math<T>>(
        &self,
        q: Seq<T>,
        k: Seq<T>,
        tables: RopeTables<T>,
        pos: int,
    )
        requires
            q.len() == self.q_dim(),
            k.len() == self.kv_dim(),
        ensures
            self.placed_query::<M>(q, tables, pos).len() == self.q_dim(),
            self.placed_key::<M>(k, tables, pos).len() == self.kv_dim(),
    {
        let d = self.head_dim as nat;
        lemma_normed_heads_len::<T, M>(
            q,
            self.q_norm_weight@,
            self.num_q_heads as nat,
            d,
            self.norm_eps,
        );
        lemma_normed_heads_len::<T, M>(
            k,
            self.k_norm_weight@,
            self.num_kv_heads as nat,
            d,
            self.norm_eps,
        );
        rope::lemma_rotated_row_len(
            normed_heads::<T, M>(
                q,
                self.q_norm_weight@,
                self.num_q_heads as nat,
                d,
                self.norm_eps,
            ),
            tables.cos,
            tables.sin,
            self.num_q_heads as nat,
            d,
            pos,
            RoPEStyle::RotateHalf,
        );
        rope::lemma_rotated_row_len(
            normed_heads::<T, M>(
                k,
                self.k_norm_weight@,
                self.num_kv_heads as nat,
                d,
                self.norm_eps,
            ),
            tables.cos,
            tables.sin,
            self.num_kv_heads as nat,
            d,
            pos,
            RoPEStyle::RotateHalf,
        );
    }

    pub open spec fn raw_query(&self, n: Seq<T>) -> Seq<T> {
        ops::linear_row(n, self.w_q@, Seq::empty(), self.hidden_size as nat, self.q_dim())
    }

    pub open spec fn raw_key(&self, n: Seq<T>) -> Seq<T> {
        ops::linear_row(n, self.w_k@, Seq::empty(), self.hidden_size as nat, self.kv_dim())
    }

    /// The value row of a normed row.
    pub open spec fn value(&self, n: Seq<T>) -> Seq<T> {
        ops::linear_row(n, self.w_v@, Seq::empty(), self.hidden_size as nat, self.kv_dim())
    }

    /// The key row that row `x` leaves at position `pos`.
    pub open spec fn key_row<M: Math<T>>(
        &self,
        x: Seq<T>,
        tables: RopeTables<T>,
        pos: int,
    ) -> Seq<T> {
        self.placed_key::<M>(self.raw_key(self.input::<M>(x)), tables, pos)
    }

    /// The value row that row `x` leaves.
    pub open spec fn value_row<M: Math<T>>(&self, x: Seq<T>) -> Seq<T> {
        self.value(self.input::<M>(x))
    }

    /// The second half of the layer, given the attention output.
    pub open spec fn fed<M: Math<T>>(&self, x: Seq<T>, attn: Seq<T>) -> Seq<T> {
        let mid = ops::sum_of(x, attn);
        ops::sum_of(
            mid,
            ffn::swiglu_row::<T, M>(
                self.ffn(),
                mid,
                self.norm_eps,
                self.hidden_size as nat,
                self.intermediate_size as nat,
            ),
        )
    }

    /// Row `x` at position `pos` through the layer, seeing the first `n` of
    /// the rows `keys` and `values`.
    pub open spec fn output<M: Math<T>>(
        &self,
        x: Seq<T>,
        keys: Seq<T>,
        values: Seq<T>,
        n: nat,
        tables: RopeTables<T>,
        pos: int,
    ) -> Seq<T> {
        let q = self.placed_query::<M>(self.raw_query(self.input::<M>(x)), tables, pos);
        let seen = attention::row_output::<T, M>(self.spec_layout(), q, keys, values, 0, n);
        self.fed::<M>(
            x,
            ops::linear_row(
                seen,
                self.w_o@,
                Seq::empty(),
                self.q_dim(),
                self.hidden_size as nat,
            ),
        )
    }

    /// The key rows of a sequence that starts at position `pos`.
    pub open spec fn key_rows<M: Math<T>>(
        &self,
        x: Seq<T>,
        rows: nat,
        tables: RopeTables<T>,
        pos: int,
    ) -> Seq<T> {
        ops::blocks(
            rows,
            |t: int|
                self.key_row::<M>(ops::row(x, t, self.hidden_size as int), tables, pos + t),
        )
    }

    /// The value rows of a sequence.
    pub open spec fn value_rows<M: Math<T>>(&self, x: Seq<T>, rows: nat) -> Seq<T> {
        ops::blocks(
            rows,
            |t: int| self.value_row::<M>(ops::row(x, t, self.hidden_size as int)),
        )
    }

    /// The cache after a sequence that starts at position `pos`.
    pub open spec fn state_after<M: Math<T>>(
        &self,
        s: KvView<T>,
        x: Seq<T>,
        rows: nat,
        tables: RopeTables<T>,
        pos: int,
    ) -> KvView<T> {
        KvView {
            keys: s.keys + self.key_rows::<M>(x, rows, tables, pos),
            values: s.values + self.value_rows::<M>(x, rows),
            len: s.len + rows,
        }
    }

    /// How many cached rows row `t` of a sequence sees.
    pub open spec fn visible(len: nat, pos: int, rows: nat, t: int) -> nat {
        if pos + t + 1 <= len + rows {
            (pos + t + 1) as nat
        } else {
            len + rows
        }
    }

    /// A sequence that starts at position `pos` through the layer: each row
    /// sees what is cached and the rows up to itself.
    pub open spec fn outputs<M: Math<T>>(
        &self,
        s: KvView<T>,
        x: Seq<T>,
        rows: nat,
        tables: RopeTables<T>,
        pos: int,
    ) -> Seq<T> {
        let after = self.state_after::<M>(s, x, rows, tables, pos);
        ops::blocks(
            rows,
            |t: int|
                self.output::<M>(
                    ops::row(x, t, self.hidden_size as int),
                    after.keys,
                    after.values,
                    Self::visible(s.len, pos, rows, t),
                    tables,
                    pos + t,
                ),
        )
    }

    /// The cache after a single row, by the packed weights where there are any.
    pub open spec fn state_after_one<M: Math<T>>(
        &self,
        s: KvView<T>,
        x: Seq<T>,
        tables: RopeTables<T>,
        pos: int,
    ) -> KvView<T> {
        let n = self.input::<M>(x);
        let h = self.hidden_size as nat;
        KvView {
            keys: s.keys + self.placed_key::<M>(
                packed::gemv_of(n, self.w_k@, self.q4_wk, 1, h, self.kv_dim()),
                tables,
                pos,
            ),
            values: s.values + packed::gemv_of(n, self.w_v@, self.q4_wv, 1, h, self.kv_dim()),
            len: s.len + 1,
        }
    }

    /// A single row through the layer, by the packed weights where there are
    /// any; it sees everything cached and itself.
    pub open spec fn output_one<M: Math<T>>(
        &self,
        s: KvView<T>,
        x: Seq<T>,
        tables: RopeTables<T>,
        pos: int,
    ) -> Seq<T> {
        let n = self.input::<M>(x);
        let h = self.hidden_size as nat;
        let after = self.state_after_one::<M>(s, x, tables, pos);
        let q = self.placed_query::<M>(
            packed::gemv_of(n, self.w_q@, self.q4_wq, 1, h, self.q_dim()),
            tables,
            pos,
        );
        let seen = attention::row_output::<T, M>(
            self.spec_layout(),
            q,
            after.keys,
            after.values,
            0,
            after.len,
        );
        let mid = ops::sum_of(
            x,
            packed::gemv_of(seen, self.w_o@, self.q4_wo, 1, self.q_dim(), h),
        );
        ops::sum_of(
            mid,
            ffn::swiglu_packed::<T, M, Q>(
                self.ffn(),
                self.ffn_packed(),
                mid,
                1,
                self.norm_eps,
                h,
                self.intermediate_size as nat,
            ),
        )
    }

    /// The layer with every weight matrix packed.
    pub open spec fn packed_form(self) -> Self {
        let h = self.hidden_size;
        let q_dim = self.q_dim() as usize;
        let kv_dim = self.kv_dim() as usize;
        let im = self.intermediate_size;
        GqaDecoderLayer {
            q4_wq: Some(packed::packed_of::<T, Q>(self.w_q@, q_dim, h)),
            q4_wk: Some(packed::packed_of::<T, Q>(self.w_k@, kv_dim, h)),
            q4_wv: Some(packed::packed_of::<T, Q>(self.w_v@, kv_dim, h)),
            q4_wo: Some(packed::packed_of::<T, Q>(self.w_o@, h, q_dim)),
            q4_ffn_gate: Some(packed::packed_of::<T, Q>(self.ffn_gate_weight@, im, h)),
            q4_ffn_up: Some(packed::packed_of::<T, Q>(self.ffn_up_weight@, im, h)),
            q4_ffn_down: Some(packed::packed_of::<T, Q>(self.ffn_down_weight@, h, im)),
            ..self
        }
    }

    /// Packs the dense weights for fast GEMV decode.
    pub fn quantize_for_decode(&mut self)
        requires
            packed::packing::<T, Q>(),
            old(self).wf(),
        ensures
            final(self).wf(),
            *final(self) == old(self).packed_form(),
    {
        let h = self.hidden_size;
        let q_dim = self.num_q_heads * self.head_dim;
        let kv_dim = self.num_kv_heads * self.head_dim;
        let im = self.intermediate_size;
        self.q4_wq = Some(Q::pack(self.w_q.as_slice(), q_dim, h));
        self.q4_wk = Some(Q::pack(self.w_k.as_slice(), kv_dim, h));
        self.q4_wv = Some(Q::pack(self.w_v.as_slice(), kv_dim, h));
        self.q4_wo = Some(Q::pack(self.w_o.as_slice(), h, q_dim));
        self.q4_ffn_gate = Some(Q::pack(self.ffn_gate_weight.as_slice(), im, h));
        self.q4_ffn_up = Some(Q::pack(self.ffn_up_weight.as_slice(), im, h));
        self.q4_ffn_down = Some(Q::pack(self.ffn_down_weight.as_slice(), h, im));
    }

    pub fn layout(&self) -> (r: HeadLayout)
        ensures
            r == self.spec_layout(),
    {
        HeadLayout {
            num_heads: self.num_q_heads,
            num_kv_heads: self.num_kv_heads,
            head_dim: self.head_dim,
        }
    }

    /// A cache of this layer's row width.
    pub open spec fn matches(&self, kv: KvLayerState<T>) -> bool {
        kv.wf() && kv.kv_dim == self.kv_dim()
    }

    /// Applies norm and rotation to the heads of a query row.
    fn place_query<M: Math<T>>(&self, q: &[T], cos: &[T], sin: &[T], pos: usize) -> (r: Vec<T>)
        requires
            scalar::mathematics::<T, M>(),
            self.wf(),
            q@.len() == self.q_dim(),
            tables_of(cos@, sin@).covers((pos + 1) as nat, self.head_dim as nat),
        ensures
            r@ == self.placed_query::<M>(q@, tables_of(cos@, sin@), pos as int),
            r@.len() == self.q_dim(),
    {
        let n = head_rmsnorm::<T, M>(
            q,
            self.q_norm_weight.as_slice(),
            self.num_q_heads,
            self.head_dim,
            self.norm_eps,
        );
        rotate_row(
            n.as_slice(),
            cos,
            sin,
            self.num_q_heads,
            self.head_dim,
            pos,
            RoPEStyle::RotateHalf,
        )
    }

    /// Applies norm and rotation to the heads of a key row.
    fn place_key<M: Math<T>>(&self, k: &[T], cos: &[T], sin: &[T], pos: usize) -> (r: Vec<T>)
        requires
            scalar::mathematics::<T, M>(),
            self.wf(),
            k@.len() == self.kv_dim(),
            tables_of(cos@, sin@).covers((pos + 1) as nat, self.head_dim as nat),
        ensures
            r@ == self.placed_key::<M>(k@, tables_of(cos@, sin@), pos as int),
            r@.len() == self.kv_dim(),
    {
        let n = head_rmsnorm::<T, M>(
            k,
            self.k_norm_weight.as_slice(),
            self.num_kv_heads,
            self.head_dim,
            self.norm_eps,
        );
        rotate_row(
            n.as_slice(),
            cos,
            sin,
            self.num_kv_heads,
            self.head_dim,
            pos,
            RoPEStyle::RotateHalf,
        )
    }

    /// Single-token forward through the GQA attention sub-block.
    pub fn attn_forward_one<M: Math<T>>(
        &self,
        normed: &[T],
        kv_state: &mut KvLayerState<T>,
        rope_cos: &[T],
        rope_sin: &[T],
        position: usize,
    ) -> (r: Vec<T>)
        requires
            scalar::mathematics::<T, M>(),
            packed::packing::<T, Q>(),
            self.wf(),
            self.matches(*old(kv_state)),
            old(kv_state).len < old(kv_state).max_seq,
            normed@.len() == self.hidden_size,
            tables_of(rope_cos@, rope_sin@).covers((position + 1) as nat, self.head_dim as nat),
        ensures
            self.matches(*final(kv_state)),
            final(kv_state).same_room(*old(kv_state)),
            ({
                let tables = tables_of(rope_cos@, rope_sin@);
                let h = self.hidden_size as nat;
                let key = self.placed_key::<M>(
                    packed::gemv_of(normed@, self.w_k@, self.q4_wk, 1, h, self.kv_dim()),
                    tables,
                    position as int,
                );
                let value = packed::gemv_of(
                    normed@,
                    self.w_v@,
                    self.q4_wv,
                    1,
                    h,
                    self.kv_dim(),
                );
                let query = self.placed_query::<M>(
                    packed::gemv_of(normed@, self.w_q@, self.q4_wq, 1, h, self.q_dim()),
                    tables,
                    position as int,
                );
                &&& final(kv_state)@.keys == old(kv_state)@.keys + key
                &&& final(kv_state)@.values == old(kv_state)@.values + value
                &&& final(kv_state)@.len == old(kv_state)@.len + 1
                &&& r@ == packed::gemv_of(
                    attention::row_output::<T, M>(
                        self.spec_layout(),
                        query,
                        final(kv_state)@.keys,
                        final(kv_state)@.values,
                        0,
                        final(kv_state)@.len,
                    ),
                    self.w_o@,
                    self.q4_wo,
                    1,
                    self.q_dim(),
                    h,
                )
            }),
            r@.len() == self.hidden_size,
    {
        let h = self.hidden_size;
        let q_dim = self.num_q_heads * self.head_dim;
        let kv_dim = self.num_kv_heads * self.head_dim;
        assert(1 * h == h);
        assert(1 * q_dim == q_dim);
        assert(1 * kv_dim == kv_dim);
        // Project Q, K, V (packed GEMV when available)
        let q = gemv_or_matmul(normed, self.w_q.as_slice(), &self.q4_wq, 1, h, q_dim);
        let k = gemv_or_matmul(normed, self.w_k.as_slice(), &self.q4_wk, 1, h, kv_dim);
        let v = gemv_or_matmul(normed, self.w_v.as_slice(), &self.q4_wv, 1, h, kv_dim);
        // Per-head Q/K norms and RoPE
        let q = self.place_query::<M>(q.as_slice(), rope_cos, rope_sin, position);
        let k = self.place_key::<M>(k.as_slice(), rope_cos, rope_sin, position);
        // Append to KV cache
        kv_state.append(k.as_slice(), v.as_slice());
        let seq_kv = kv_state.len;
        proof {
            kv_state.lemma_view_fits();
        }
        let room = kv_state.k_cache.len();
        let used = seq_kv * kv_dim;
        let keys = slice_subrange(kv_state.k_cache.as_slice(), 0, used);
        let values = slice_subrange(kv_state.v_cache.as_slice(), 0, used);
        assert(keys@ =~= kv_state@.keys);
        assert(values@ =~= kv_state@.values);
        let seen = attend_row::<T, M>(
            self.layout(),
            q.as_slice(),
            keys,
            values,
            0,
            seq_kv,
        );
        // Output projection (packed GEMV when available)
        gemv_or_matmul(seen.as_slice(), self.w_o.as_slice(), &self.q4_wo, 1, q_dim, h)
    }

    /// Process a single token through this GQA layer.
    pub fn forward_one<M: Math<T>>(
        &self,
        hidden: &[T],
        kv_state: &mut KvLayerState<T>,
        rope_cos: &[T],
        rope_sin: &[T],
        position: usize,
    ) -> (r: Vec<T>)
        requires
            scalar::mathematics::<T, M>(),
            packed::packing::<T, Q>(),
            self.wf(),
            self.matches(*old(kv_state)),
            old(kv_state).len < old(kv_state).max_seq,
            hidden@.len() == self.hidden_size,
            tables_of(rope_cos@, rope_sin@).covers((position + 1) as nat, self.head_dim as nat),
        ensures
            self.matches(*final(kv_state)),
            final(kv_state).same_room(*old(kv_state)),
            final(kv_state)@ == self.state_after_one::<M>(
                old(kv_state)@,
                hidden@,
                tables_of(rope_cos@, rope_sin@),
                position as int,
            ),
            r@ == self.output_one::<M>(
                old(kv_state)@,
                hidden@,
                tables_of(rope_cos@, rope_sin@),
                position as int,
            ),
            r@.len() == self.hidden_size,
    {
        let ghost s = kv_state@;
        let h = self.hidden_size;
        let normed = rms_normalize::<T, M>(
            hidden,
            self.attn_norm_weight.as_slice(),
            self.norm_eps,
        );
        let attn = self.attn_forward_one::<M>(
            normed.as_slice(),
            kv_state,
            rope_cos,
            rope_sin,
            position,
        );
        assert(kv_state@ =~= self.state_after_one::<M>(
            s,
            hidden@,
            tables_of(rope_cos@, rope_sin@),
            position as int,
        ));
        let mid = add_vecs(hidden, attn.as_slice());
        assert(1 * h == h);
        let y = swiglu_ffn_forward_q4::<T, M, Q>(
            mid.as_slice(),
            1,
            self.ffn_norm_weight.as_slice(),
            self.ffn_gate_weight.as_slice(),
            self.ffn_up_weight.as_slice(),
            self.ffn_down_weight.as_slice(),
            &self.q4_ffn_gate,
            &self.q4_ffn_up,
            &self.q4_ffn_down,
            self.norm_eps,
            h,
            self.intermediate_size,
        );
        add_vecs(mid.as_slice(), y.as_slice())
    }

    pub proof fn lemma_state_fits<M: Math<T>>(
        &self,
        s: KvView<T>,
        x: Seq<T>,
        rows: nat,
        tables: RopeTables<T>,
        pos: int,
    )
        requires
            s.fits(self.kv_dim()),
        ensures
            self.key_rows::<M>(x, rows, tables, pos).len() == rows * self.kv_dim(),
            self.value_rows::<M>(x, rows).len() == rows * self.kv_dim(),
            self.state_after::<M>(s, x, rows, tables, pos).fits(self.kv_dim()),
    {
        let w = self.kv_dim();
        let f = |t: int|
            self.key_row::<M>(ops::row(x, t, self.hidden_size as int), tables, pos + t);
        let g = |t: int| self.value_row::<M>(ops::row(x, t, self.hidden_size as int));
        assert forall|t: int| 0 <= t < rows implies #[trigger] f(t).len() == w by {
            let n = self.input::<M>(ops::row(x, t, self.hidden_size as int));
            self.lemma_placed_len::<M>(self.raw_query(n), self.raw_key(n), tables, pos + t);
        }
        assert forall|t: int| 0 <= t < rows implies #[trigger] g(t).len() == w by {}
        ops::lemma_blocks_len(rows, f, w);
        ops::lemma_blocks_len(rows, g, w);
        assert((s.len + rows) * w == s.len * w + rows * w) by (nonlinear_arith);
    }

    /// Sequence (prefill) forward through the GQA attention sub-block: appends
    /// the rows' keys and values to the cache and returns each row's attention
    /// output.
    pub fn attn_forward_seq<M: Math<T>>(
        &self,
        hidden: &[T],
        seq_len: usize,
        kv_state: &mut KvLayerState<T>,
        rope_cos: &[T],
        rope_sin: &[T],
        pos_offset: usize,
    ) -> (r: Vec<T>)
        requires
            scalar::mathematics::<T, M>(),
            self.wf(),
            self.matches(*old(kv_state)),
            old(kv_state).len + seq_len <= old(kv_state).max_seq,
            hidden@.len() == seq_len * self.hidden_size,
            pos_offset + seq_len <= usize::MAX,
            tables_of(rope_cos@, rope_sin@).covers(
                (pos_offset + seq_len) as nat,
                self.head_dim as nat,
            ),
        ensures
            self.matches(*final(kv_state)),
            final(kv_state).same_room(*old(kv_state)),
            final(kv_state)@ == self.state_after::<M>(
                old(kv_state)@,
                hidden@,
                seq_len as nat,
                tables_of(rope_cos@, rope_sin@),
                pos_offset as int,
            ),
            r@ == ops::blocks(
                seq_len as nat,
                |t: int|
                    self.attn_row::<M>(
                        ops::row(hidden@, t, self.hidden_size as int),
                        final(kv_state)@,
                        Self::visible(
                            old(kv_state)@.len,
                            pos_offset as int,
                            seq_len as nat,
                            t,
                        ),
                        tables_of(rope_cos@, rope_sin@),
                        pos_offset + t,
                    ),
            ),
            r@.len() == seq_len * self.hidden_size,
    {
        let h = self.hidden_size;
        let q_dim = self.num_q_heads * self.head_dim;
        let kv_dim = self.num_kv_heads * self.head_dim;
        let none: Vec<T> = Vec::new();
        let ghost tables = tables_of(rope_cos@, rope_sin@);
        let ghost s = kv_state@;
        let ghost rows = seq_len as nat;
        let ghost pos = pos_offset as int;
        let ghost half = self.head_dim as int / 2;
        let ghost fk = |t: int| self.key_row::<M>(ops::row(hidden@, t, h as int), tables, pos + t);
        let ghost fv = |t: int| self.value_row::<M>(ops::row(hidden@, t, h as int));
        // Project Q, K, V for all tokens; per-head norms + RoPE per token
        let mut queries: Vec<Vec<T>> = Vec::with_capacity(seq_len);
        let mut keys: Vec<T> = Vec::new();
        let mut values: Vec<T> = Vec::new();
        for t in 0..seq_len
            invariant
                scalar::mathematics::<T, M>(),
                self.wf(),
                h == self.hidden_size,
                q_dim == self.q_dim(),
                kv_dim == self.kv_dim(),
                none@ == Seq::<T>::empty(),
                tables == tables_of(rope_cos@, rope_sin@),
                tables.covers((pos_offset + seq_len) as nat, self.head_dim as nat),
                half == self.head_dim as int / 2,
                pos == pos_offset,
                pos_offset + seq_len <= usize::MAX,
                hidden@.len() == seq_len * h,
                fk == (|t: int|
                    self.key_row::<M>(ops::row(hidden@, t, h as int), tables, pos + t)),
                fv == (|t: int| self.value_row::<M>(ops::row(hidden@, t, h as int))),
                queries@.len() == t,
                forall|u: int|
                    0 <= u < t ==> (#[trigger] queries@[u])@ == self.placed_query::<M>(
                        self.raw_query(self.input::<M>(ops::row(hidden@, u, h as int))),
                        tables,
                        pos + u,
                    ) && queries@[u]@.len() == q_dim,
                keys@ == ops::blocks(t as nat, fk),
                values@ == ops::blocks(t as nat, fv),
        {
            proof {
                ops::lemma_row_bounds(t as int, seq_len as int, h as int);
                ops::lemma_row_bounds(pos + t, pos + seq_len, half);
            }
            let normed = rms_normalize::<T, M>(
                row_slice(hidden, t, h),
                self.attn_norm_weight.as_slice(),
                self.norm_eps,
            );
            let q = linear_vec(normed.as_slice(), self.w_q.as_slice(), none.as_slice(), h, q_dim);
            let k = linear_vec(normed.as_slice(), self.w_k.as_slice(), none.as_slice(), h, kv_dim);
            let v = linear_vec(normed.as_slice(), self.w_v.as_slice(), none.as_slice(), h, kv_dim);
            let q = self.place_query::<M>(q.as_slice(), rope_cos, rope_sin, pos_offset + t);
            let k = self.place_key::<M>(k.as_slice(), rope_cos, rope_sin, pos_offset + t);
            queries.push(q);
            extend(&mut keys, k.as_slice());
            extend(&mut values, v.as_slice());
            assert(keys@ =~= ops::blocks((t + 1) as nat, fk));
            assert(values@ =~= ops::blocks((t + 1) as nat, fv));
        }
        // Append all tokens to KV cache
        let ghost start = *kv_state;
        proof {
            kv_state.lemma_view_fits();
            self.lemma_state_fits::<M>(s, hidden@, rows, tables, pos);
        }
        kv_state.append_seq(keys.as_slice(), values.as_slice(), seq_len);
        let seq_kv = kv_state.len;
        proof {
            assert(keys@.take(seq_len * kv_dim) =~= keys@);
            assert(values@.take(seq_len * kv_dim) =~= values@);
            assert(kv_state@ =~= self.state_after::<M>(s, hidden@, rows, tables, pos));
            kv_state.lemma_view_fits();
        }
        let room = kv_state.k_cache.len();
        let used = seq_kv * kv_dim;
        let all_keys = slice_subrange(kv_state.k_cache.as_slice(), 0, used);
        let all_values = slice_subrange(kv_state.v_cache.as_slice(), 0, used);
        assert(all_keys@ =~= kv_state@.keys);
        assert(all_values@ =~= kv_state@.values);
        // GQA attention with causal mask
        let layout = self.layout();
        let ghost f = |t: int|
            self.attn_row::<M>(
                ops::row(hidden@, t, h as int),
                kv_state@,
                Self::visible(s.len, pos, rows, t),
                tables,
                pos + t,
            );
        let mut out: Vec<T> = Vec::new();
        for t in 0..seq_len
            invariant
                scalar::mathematics::<T, M>(),
                self.wf(),
                h == self.hidden_size,
                q_dim == self.q_dim(),
                kv_dim == self.kv_dim(),
                layout == self.spec_layout(),
                none@ == Seq::<T>::empty(),
                tables == tables_of(rope_cos@, rope_sin@),
                pos == pos_offset,
                pos_offset + seq_len <= usize::MAX,
                rows == seq_len,
                s.len + seq_len == seq_kv,
                all_keys@ == kv_state@.keys,
                all_values@ == kv_state@.values,
                all_keys@.len() == seq_kv * kv_dim,
                all_values@.len() == seq_kv * kv_dim,
                queries@.len() == seq_len,
                forall|u: int|
                    0 <= u < seq_len ==> (#[trigger] queries@[u])@ == self.placed_query::<M>(
                        self.raw_query(self.input::<M>(ops::row(hidden@, u, h as int))),
                        tables,
                        pos + u,
                    ) && queries@[u]@.len() == q_dim,
                f == (|t: int|
                    self.attn_row::<M>(
                        ops::row(hidden@, t, h as int),
                        kv_state@,
                        Self::visible(s.len, pos, rows, t),
                        tables,
                        pos + t,
                    )),
                out@ == ops::blocks(t as nat, f),
        {
            // Causal: can attend up to position (pos_offset + t) in the KV cache.
            let causal_len = if pos_offset + t + 1 <= seq_kv {
                pos_offset + t + 1
            } else {
                seq_kv
            };
            proof {
                assert(causal_len * kv_dim <= seq_kv * kv_dim) by (nonlinear_arith)
                    requires
                        causal_len <= seq_kv,
                ;
                assert((0 + causal_len) * self.spec_layout().kv_dim() == causal_len * kv_dim);
            }
            let q = &queries[t];
            let seen = attend_row::<T, M>(
                layout,
                q.as_slice(),
                all_keys,
                all_values,
                0,
                causal_len,
            );
            let y = linear_vec(seen.as_slice(), self.w_o.as_slice(), none.as_slice(), q_dim, h);
            extend(&mut out, y.as_slice());
            assert(out@ =~= ops::blocks((t + 1) as nat, f));
        }
        proof {
            assert forall|t: int| 0 <= t < rows implies #[trigger] f(t).len() == h by {}
            ops::lemma_blocks_len(rows, f, h as nat);
        }
        out
    }

    /// The attention output of row `x` at position `pos`, which sees the first
    /// `n` cached rows.
    pub open spec fn attn_row<M: Math<T>>(
        &self,
        x: Seq<T>,
        s: KvView<T>,
        n: nat,
        tables: RopeTables<T>,
        pos: int,
    ) -> Seq<T> {
        let q = self.placed_query::<M>(self.raw_query(self.input::<M>(x)), tables, pos);
        ops::linear_row(
            attention::row_output::<T, M>(self.spec_layout(), q, s.keys, s.values, 0, n),
            self.w_o@,
            Seq::empty(),
            self.q_dim(),
            self.hidden_size as nat,
        )
    }

    /// Process a sequence of tokens through this GQA layer (prefill).
    pub fn forward_seq<M: Math<T>>(
        &self,
        hidden: &[T],
        seq_len: usize,
        kv_state: &mut KvLayerState<T>,
        rope_cos: &[T],
        rope_sin: &[T],
        pos_offset: usize,
    ) -> (r: Vec<T>)
        requires
            scalar::mathematics::<T, M>(),
            self.wf(),
            self.matches(*old(kv_state)),
            old(kv_state).len + seq_len <= old(kv_state).max_seq,
            hidden@.len() == seq_len * self.hidden_size,
            pos_offset + seq_len <= usize::MAX,
            tables_of(rope_cos@, rope_sin@).covers(
                (pos_offset + seq_len) as nat,
                self.head_dim as nat,
            ),
        ensures
            self.matches(*final(kv_state)),
            final(kv_state).same_room(*old(kv_state)),
            final(kv_state)@ == self.state_after::<M>(
                old(kv_state)@,
                hidden@,
                seq_len as nat,
                tables_of(rope_cos@, rope_sin@),
                pos_offset as int,
            ),
            r@ == self.outputs::<M>(
                old(kv_state)@,
                hidden@,
                seq_len as nat,
                tables_of(rope_cos@, rope_sin@),
                pos_offset as int,
            ),
            r@.len() == seq_len * self.hidden_size,
    {
        let h = self.hidden_size;
        let im = self.intermediate_size;
        let ghost s = kv_state@;
        let ghost rows = seq_len as nat;
        let ghost tables = tables_of(rope_cos@, rope_sin@);
        let ghost pos = pos_offset as int;
        let attn = self.attn_forward_seq::<M>(
            hidden,
            seq_len,
            kv_state,
            rope_cos,
            rope_sin,
            pos_offset,
        );
        let mid = add_vecs(hidden, attn.as_slice());
        let y = swiglu_ffn_forward::<T, M>(
            mid.as_slice(),
            seq_len,
            self.ffn_norm_weight.as_slice(),
            self.ffn_gate_weight.as_slice(),
            self.ffn_up_weight.as_slice(),
            self.ffn_down_weight.as_slice(),
            self.norm_eps,
            h,
            im,
        );
        let out = add_vecs(mid.as_slice(), y.as_slice());
        proof {
            let after = self.state_after::<M>(s, hidden@, rows, tables, pos);
            let a = |t: int|
                self.attn_row::<M>(
                    ops::row(hidden@, t, h as int),
                    after,
                    Self::visible(s.len, pos, rows, t),
                    tables,
                    pos + t,
                );
            let fy = |t: int|
                ffn::swiglu_row::<T, M>(
                    self.ffn(),
                    ops::row(mid@, t, h as int),
                    self.norm_eps,
                    h as nat,
                    im as nat,
                );
            let o = |t: int|
                self.output::<M>(
                    ops::row(hidden@, t, h as int),
                    after.keys,
                    after.values,
                    Self::visible(s.len, pos, rows, t),
                    tables,
                    pos + t,
                );
            assert forall|t: int| 0 <= t < rows implies #[trigger] a(t).len() == h by {}
            assert forall|t: int| 0 <= t < rows implies #[trigger] fy(t).len() == h by {}
            assert forall|t: int| 0 <= t < rows implies #[trigger] o(t) == ops::row(
                out@,
                t,
                h as int,
            ) by {
                ops::lemma_blocks_row(rows, a, h as nat, t);
                ops::lemma_blocks_row(rows, fy, h as nat, t);
                ops::lemma_sum_row(hidden@, attn@, rows, h as nat, t);
                ops::lemma_sum_row(mid@, y@, rows, h as nat, t);
            }
            let r = |t: int| ops::row(out@, t, h as int);
            ops::lemma_rows(out@, rows, h as nat);
            ops::lemma_blocks_same(rows, o, r);
        }
        out
    }

    // ── Laws ─────────────────────────────────────────────────────────

    /// Without packed weights a single row is a sequence of one row that sees
    /// everything cached.
    pub proof fn lemma_dense_one<M: Math<T>>(
        &self,
        s: KvView<T>,
        x: Seq<T>,
        tables: RopeTables<T>,
        pos: int,
    )
        requires
            self.is_dense(),
            x.len() == self.hidden_size,
        ensures
            self.state_after_one::<M>(s, x, tables, pos).keys == s.keys + self.key_row::<M>(
                x,
                tables,
                pos,
            ),
            self.state_after_one::<M>(s, x, tables, pos).values == s.values + self.value_row::<M>(
                x,
            ),
            self.output_one::<M>(s, x, tables, pos) == self.output::<M>(
                x,
                s.keys + self.key_row::<M>(x, tables, pos),
                s.values + self.value_row::<M>(x),
                s.len + 1,
                tables,
                pos,
            ),
    {
        let n = self.input::<M>(x);
        let h = self.hidden_size as nat;
        packed::lemma_dense_row::<T, Q>(n, self.w_q@, h, self.q_dim());
        packed::lemma_dense_row::<T, Q>(n, self.w_k@, h, self.kv_dim());
        packed::lemma_dense_row::<T, Q>(n, self.w_v@, h, self.kv_dim());
        let after = self.state_after_one::<M>(s, x, tables, pos);
        let q = self.placed_query::<M>(self.raw_query(n), tables, pos);
        self.lemma_placed_len::<M>(self.raw_query(n), self.raw_key(n), tables, pos);
        let seen = attention::row_output::<T, M>(
            self.spec_layout(),
            q,
            after.keys,
            after.values,
            0,
            after.len,
        );
        attention::lemma_row_output_len::<T, M>(
            self.spec_layout(),
            q,
            after.keys,
            after.values,
            0,
            after.len,
        );
        packed::lemma_dense_row::<T, Q>(seen, self.w_o@, self.q_dim(), h);
        let mid = ops::sum_of(
            x,
            ops::linear_row(seen, self.w_o@, Seq::empty(), self.q_dim(), h),
        );
        ffn::lemma_dense_row::<T, M, Q>(
            self.ffn(),
            self.ffn_packed(),
            mid,
            self.norm_eps,
            h,
            self.intermediate_size as nat,
        );
    }

    /// One more row of a sequence that goes on where the cache ends: the
    /// earlier rows stay as they are, and the new row is a decoding step.
    pub proof fn lemma_append_row<M: Math<T>>(
        &self,
        s: KvView<T>,
        x: Seq<T>,
        y: Seq<T>,
        n: nat,
        tables: RopeTables<T>,
    )
        requires
            self.is_dense(),
            self.wf(),
            s.fits(self.kv_dim()),
            x.len() == n * self.hidden_size,
            y.len() == self.hidden_size,
        ensures
            ({
                let pos = s.len as int;
                let before = self.state_after::<M>(s, x, n, tables, pos);
                &&& self.state_after::<M>(s, x + y, n + 1, tables, pos)
                    == self.state_after_one::<M>(before, y, tables, pos + n)
                &&& self.outputs::<M>(s, x + y, n + 1, tables, pos) == self.outputs::<M>(
                    s,
                    x,
                    n,
                    tables,
                    pos,
                ) + self.output_one::<M>(before, y, tables, pos + n)
            }),
    {
        let h = self.hidden_size as int;
        let w = self.kv_dim();
        let pos = s.len as int;
        let z = x + y;
        ops::lemma_row_bounds(n as int, n as int + 1, h);
        let before = self.state_after::<M>(s, x, n, tables, pos);
        let after = self.state_after::<M>(s, z, n + 1, tables, pos);
        assert(ops::row(z, n as int, h) =~= y);
        let fk = |t: int| self.key_row::<M>(ops::row(z, t, h), tables, pos + t);
        let gk = |t: int| self.key_row::<M>(ops::row(x, t, h), tables, pos + t);
        let fv = |t: int| self.value_row::<M>(ops::row(z, t, h));
        let gv = |t: int| self.value_row::<M>(ops::row(x, t, h));
        assert forall|t: int| 0 <= t < n implies ops::row(z, t, h) == ops::row(x, t, h) by {
            ops::lemma_row_bounds(t, n as int, h);
            assert(ops::row(z, t, h) =~= ops::row(x, t, h));
        }
        assert forall|t: int| 0 <= t < n implies #[trigger] fk(t) == gk(t) by {
            assert(ops::row(z, t, h) == ops::row(x, t, h));
        }
        assert forall|t: int| 0 <= t < n implies #[trigger] fv(t) == gv(t) by {
            assert(ops::row(z, t, h) == ops::row(x, t, h));
        }
        ops::lemma_blocks_same(n, fk, gk);
        ops::lemma_blocks_same(n, fv, gv);
        self.lemma_dense_one::<M>(before, y, tables, pos + n);
        ops::lemma_concat_assoc(s.keys, self.key_rows::<M>(x, n, tables, pos), fk(n as int));
        ops::lemma_concat_assoc(s.values, self.value_rows::<M>(x, n), fv(n as int));
        assert(after.keys == before.keys + fk(n as int));
        assert(after.values == before.values + fv(n as int));
        assert(after =~= self.state_after_one::<M>(before, y, tables, pos + n));
        self.lemma_state_fits::<M>(s, x, n, tables, pos);
        self.lemma_state_fits::<M>(s, z, n + 1, tables, pos);
        let f = |t: int|
            self.output::<M>(
                ops::row(z, t, h),
                after.keys,
                after.values,
                Self::visible(s.len, pos, n + 1, t),
                tables,
                pos + t,
            );
        let g = |t: int|
            self.output::<M>(
                ops::row(x, t, h),
                before.keys,
                before.values,
                Self::visible(s.len, pos, n, t),
                tables,
                pos + t,
            );
        assert forall|t: int| 0 <= t < n implies #[trigger] f(t) == g(t) by {
            assert(ops::row(z, t, h) == ops::row(x, t, h));
            let seen = (pos + t + 1) as nat;
            let nx = self.input::<M>(ops::row(x, t, h));
            ops::lemma_row_bounds(t, n as int, h);
            self.lemma_placed_len::<M>(self.raw_query(nx), self.raw_key(nx), tables, pos + t);
            assert(seen * w <= (s.len + n) * w) by (nonlinear_arith)
                requires
                    seen <= s.len + n,
            ;
            assert((s.len + n) * w <= (s.len + n + 1) * w) by (nonlinear_arith);
            assert(after.keys.take((seen * w) as int) =~= before.keys.take((seen * w) as int));
            assert(after.values.take((seen * w) as int) =~= before.values.take((seen * w) as int));
            attention::lemma_row_output_agrees::<T, M>(
                self.spec_layout(),
                self.placed_query::<M>(self.raw_query(nx), tables, pos + t),
                after.keys,
                after.values,
                before.keys,
                before.values,
                0,
                seen,
            );
        }
        ops::lemma_blocks_same(n, f, g);
        assert(f(n as int) == self.output_one::<M>(before, y, tables, pos + n));
    }
}

} // verus!
