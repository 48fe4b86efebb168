//! A DiT-style transformer layer with adaptive layer normalization (adaLN).
//!
//! The conditioning vector decides how the layer scales, shifts and gates its
//! two halves, attention and feed-forward.

use vstd::arithmetic::div_mod::lemma_fundamental_div_mod;
use vstd::prelude::*;
use vstd::slice::slice_subrange;

use crate::attention;
use crate::attention::{attend_row, HeadLayout};
use crate::buffer::{copy_into, copy_slice, extend, put_row, AlignedBuffer, RawTensor};
use crate::config::BITS_1E_6;
use crate::ops;
use crate::ops::{
    activate_all, add_gated, layer_normalize, linear_vec, modulate, row_slice, Activation,
};
use crate::scalar;
use crate::scalar::{Math, Scalar};
use crate::text::str_eq;
use crate::weights;

verus! {

/// The widths that an adaLN layer works with.
#[derive(Debug, Clone, Copy, PartialEq, Eq, Structural)]
pub struct AdaLNShape {
    /// Columns of a token row.
    pub hidden: usize,
    pub num_heads: usize,
    /// Columns of a query, key or value row, over all heads.
    pub inner_dim: usize,
    /// Columns of the feed-forward part's inner row.
    pub inter: usize,
}

impl AdaLNShape {
    pub open spec fn wf(self) -> bool {
        &&& self.num_heads > 0
        &&& self.inner_dim % self.num_heads == 0
        &&& 6 * self.hidden <= usize::MAX
        &&& 3 * self.inner_dim <= usize::MAX
    }

    pub open spec fn spec_layout(self) -> HeadLayout {
        HeadLayout {
            num_heads: self.num_heads,
            num_kv_heads: self.num_heads,
            head_dim: (self.inner_dim as int / self.num_heads as int) as usize,
        }
    }

    /// The heads fill a query row exactly.
    pub proof fn lemma_layout(self)
        requires
            self.wf(),
        ensures
            self.spec_layout().wf(),
            self.spec_layout().q_dim() == self.inner_dim,
            self.spec_layout().kv_dim() == self.inner_dim,
    {
        lemma_fundamental_div_mod(self.inner_dim as int, self.num_heads as int);
        assert(self.num_heads % self.num_heads == 0) by (nonlinear_arith)
            requires
                self.num_heads > 0,
        ;
    }

    pub fn layout(self) -> (r: HeadLayout)
        requires
            self.wf(),
        ensures
            r == self.spec_layout(),
            r.wf(),
    {
        proof {
            self.lemma_layout();
        }
        HeadLayout {
            num_heads: self.num_heads,
            num_kv_heads: self.num_heads,
            head_dim: self.inner_dim / self.num_heads,
        }
    }
}

/// A single DiT-style transformer layer with adaptive layer normalization (adaLN).
///
/// adaLN modulation produces 6 vectors from the conditioning signal:
/// `(scale1, shift1, gate1, scale2, shift2, gate2)` for attention and MLP sub-layers.
pub struct AdaLNTransformerLayer<T> {
    // adaLN modulation: linear from hidden → 6 * hidden
    pub adaln_weight: AlignedBuffer<T>,
    pub adaln_bias: AlignedBuffer<T>,
    // Fused QKV attention
    pub to_qkv: AlignedBuffer<T>,
    pub attn_out_weight: AlignedBuffer<T>,
    pub attn_out_bias: AlignedBuffer<T>,
    // QK norm
    pub attn_norm_weight: AlignedBuffer<T>,
    pub attn_norm_bias: AlignedBuffer<T>,
    // MLP
    pub mlp_norm_weight: AlignedBuffer<T>,
    pub mlp_norm_bias: AlignedBuffer<T>,
    pub mlp_up_weight: AlignedBuffer<T>,
    pub mlp_up_bias: AlignedBuffer<T>,
    pub mlp_down_weight: AlignedBuffer<T>,
    pub mlp_down_bias: AlignedBuffer<T>,
}

impl<T: Copy> AdaLNTransformerLayer<T> {
    /// The weight kept under a checkpoint's field name.
    pub open spec fn field(&self, name: Seq<char>) -> Option<Seq<T>> {
        if name == "adaLN_modulation.1.weight"@ {
            Some(self.adaln_weight@)
        } else if name == "adaLN_modulation.1.bias"@ {
            Some(self.adaln_bias@)
        } else if name == "attn.to_qkv.weight"@ {
            Some(self.to_qkv@)
        } else if name == "attn.to_out.0.weight"@ {
            Some(self.attn_out_weight@)
        } else if name == "attn.to_out.0.bias"@ {
            Some(self.attn_out_bias@)
        } else if name == "attn.norm.weight"@ {
            Some(self.attn_norm_weight@)
        } else if name == "attn.norm.bias"@ {
            Some(self.attn_norm_bias@)
        } else if name == "mlp.net.0.weight"@ {
            Some(self.mlp_norm_weight@)
        } else if name == "mlp.net.0.bias"@ {
            Some(self.mlp_norm_bias@)
        } else if name == "mlp.net.1.weight"@ {
            Some(self.mlp_up_weight@)
        } else if name == "mlp.net.1.bias"@ {
            Some(self.mlp_up_bias@)
        } else if name == "mlp.net.4.weight"@ {
            Some(self.mlp_down_weight@)
        } else if name == "mlp.net.4.bias"@ {
            Some(self.mlp_down_bias@)
        } else {
            None
        }
    }

    /// No weight has been loaded.
    pub open spec fn unloaded(&self) -> bool {
        forall|n: Seq<char>|
            (#[trigger] self.field(n)) is Some ==> self.field(n)->0 == Seq::<T>::empty()
    }

    /// Create a layer with zeroed weights.
    pub fn new_zeroed() -> (r: Self)
        ensures
            r.unloaded(),
    {
        AdaLNTransformerLayer {
            adaln_weight: AlignedBuffer::empty(),
            adaln_bias: AlignedBuffer::empty(),
            to_qkv: AlignedBuffer::empty(),
            attn_out_weight: AlignedBuffer::empty(),
            attn_out_bias: AlignedBuffer::empty(),
            attn_norm_weight: AlignedBuffer::empty(),
            attn_norm_bias: AlignedBuffer::empty(),
            mlp_norm_weight: AlignedBuffer::empty(),
            mlp_norm_bias: AlignedBuffer::empty(),
            mlp_up_weight: AlignedBuffer::empty(),
            mlp_up_bias: AlignedBuffer::empty(),
            mlp_down_weight: AlignedBuffer::empty(),
            mlp_down_bias: AlignedBuffer::empty(),
        }
    }

    /// Assigns a weight by its field name (e.g. "attn.to_qkv.weight").
    /// Returns `true` if the name is one of the layer's.
    pub fn set_weight(&mut self, field: &str, tensor: &RawTensor<T>) -> (r: bool)
        ensures
            r == (old(self).field(field@) is Some),
            forall|n: Seq<char>| #[trigger]
                final(self).field(n) == weights::write(
                    old(self).field(n),
                    n == field@,
                    tensor.data@,
                ),
    {
        if str_eq(field, "adaLN_modulation.1.weight") {
            self.adaln_weight = tensor.data.duplicate();
        } else if str_eq(field, "adaLN_modulation.1.bias") {
            self.adaln_bias = tensor.data.duplicate();
        } else if str_eq(field, "attn.to_qkv.weight") {
            self.to_qkv = tensor.data.duplicate();
        } else if str_eq(field, "attn.to_out.0.weight") {
            self.attn_out_weight = tensor.data.duplicate();
        } else if str_eq(field, "attn.to_out.0.bias") {
            self.attn_out_bias = tensor.data.duplicate();
        } else if str_eq(field, "attn.norm.weight") {
            self.attn_norm_weight = tensor.data.duplicate();
        } else if str_eq(field, "attn.norm.bias") {
            self.attn_norm_bias = tensor.data.duplicate();
        } else if str_eq(field, "mlp.net.0.weight") {
            self.mlp_norm_weight = tensor.data.duplicate();
        } else if str_eq(field, "mlp.net.0.bias") {
            self.mlp_norm_bias = tensor.data.duplicate();
        } else if str_eq(field, "mlp.net.1.weight") {
            self.mlp_up_weight = tensor.data.duplicate();
        } else if str_eq(field, "mlp.net.1.bias") {
            self.mlp_up_bias = tensor.data.duplicate();
        } else if str_eq(field, "mlp.net.4.weight") {
            self.mlp_down_weight = tensor.data.duplicate();
        } else if str_eq(field, "mlp.net.4.bias") {
            self.mlp_down_bias = tensor.data.duplicate();
        } else {
            return false;
        }
        true
    }
}

/// The small number that keeps the norms of a layer defined.
pub open spec fn epsilon<T, M: Math<T>>() -> T {
    scalar::binary64_of::<T, M>(BITS_1E_6)
}

/// One of the six vectors of a modulation.
fn modulation_part<T>(m: &[T], i: usize, h: usize) -> (r: &[T])
    requires
        i < 6,
        6 * h <= m@.len(),
    ensures
        r@ == ops::row(m@, i as int, h as int),
        r@.len() == h,
{
    proof {
        ops::lemma_row_bounds(i as int, 6, h as int);
    }
    row_slice(m, i, h)
}

/// The first `n` elements as a slice.
fn prefix<T>(x: &Vec<T>, n: usize) -> (r: &[T])
    requires
        n <= x@.len(),
    ensures
        r@ == x@.take(n as int),
        r@.len() == n,
{
    slice_subrange(x.as_slice(), 0, n)
}

impl<T: Scalar> AdaLNTransformerLayer<T> {
    /// The weights have the sizes that the shape asks for.
    pub open spec fn wf(&self, s: AdaLNShape) -> bool {
        &&& s.wf()
        &&& self.adaln_weight@.len() == (6 * s.hidden) * s.hidden
        &&& self.adaln_bias@.len() == 0 || 6 * s.hidden <= self.adaln_bias@.len()
        &&& self.to_qkv@.len() == (3 * s.inner_dim) * s.hidden
        &&& self.attn_out_weight@.len() == s.hidden * s.inner_dim
        &&& self.attn_out_bias@.len() == 0 || s.hidden <= self.attn_out_bias@.len()
        &&& s.hidden <= self.attn_norm_weight@.len()
        &&& s.hidden <= self.mlp_norm_weight@.len()
        &&& self.mlp_up_weight@.len() == s.inter * s.hidden
        &&& self.mlp_up_bias@.len() == 0 || s.inter <= self.mlp_up_bias@.len()
        &&& self.mlp_down_weight@.len() == s.hidden * s.inter
        &&& self.mlp_down_bias@.len() == 0 || s.hidden <= self.mlp_down_bias@.len()
    }

    /// The six vectors that a conditioning vector gives.
    pub open spec fn modulation(&self, conditioning: Seq<T>, s: AdaLNShape) -> Seq<T> {
        ops::linear_row(
            conditioning,
            self.adaln_weight@,
            self.adaln_bias@,
            s.hidden as nat,
            (6 * s.hidden) as nat,
        )
    }

    /// What attention reads of a row.
    pub open spec fn attn_input<M: Math<T>>(&self, x: Seq<T>, m: Seq<T>, s: AdaLNShape) -> Seq<T> {
        ops::modulated::<T, M>(
            ops::layer_row::<T, M>(x, self.attn_norm_weight@, epsilon::<T, M>()),
            ops::row(m, 0, s.hidden as int),
            ops::row(m, 1, s.hidden as int),
        )
    }

    /// Query, key and value of a row, one after the other.
    pub open spec fn qkv_row<M: Math<T>>(&self, x: Seq<T>, m: Seq<T>, s: AdaLNShape) -> Seq<T> {
        ops::linear_row(
            self.attn_input::<M>(x, m, s),
            self.to_qkv@,
            Seq::empty(),
            s.hidden as nat,
            (3 * s.inner_dim) as nat,
        )
    }

    /// Query (0), key (1) or value (2) of each row.
    pub open spec fn projected_rows<M: Math<T>>(
        &self,
        x: Seq<T>,
        m: Seq<T>,
        rows: nat,
        part: int,
        s: AdaLNShape,
    ) -> Seq<T> {
        ops::blocks(
            rows,
            |t: int|
                ops::row(
                    self.qkv_row::<M>(ops::row(x, t, s.hidden as int), m, s),
                    part,
                    s.inner_dim as int,
                ),
        )
    }

    /// A row after attention, of which `seen` is what its query saw.
    pub open spec fn attended_row(
        &self,
        x: Seq<T>,
        seen: Seq<T>,
        m: Seq<T>,
        s: AdaLNShape,
    ) -> Seq<T> {
        ops::gated_sum(
            x,
            ops::row(m, 2, s.hidden as int),
            ops::linear_row(
                seen,
                self.attn_out_weight@,
                self.attn_out_bias@,
                s.inner_dim as nat,
                s.hidden as nat,
            ),
        )
    }

    /// What the feed-forward part reads of a row.
    pub open spec fn ffn_input<M: Math<T>>(&self, x: Seq<T>, m: Seq<T>, s: AdaLNShape) -> Seq<T> {
        ops::modulated::<T, M>(
            ops::layer_row::<T, M>(x, self.mlp_norm_weight@, epsilon::<T, M>()),
            ops::row(m, 3, s.hidden as int),
            ops::row(m, 4, s.hidden as int),
        )
    }

    /// The inner row of the feed-forward part.
    pub open spec fn ffn_inner<M: Math<T>>(&self, input: Seq<T>, s: AdaLNShape) -> Seq<T> {
        ops::all_activated::<T, M>(
            Activation::Gelu,
            ops::linear_row(
                input,
                self.mlp_up_weight@,
                self.mlp_up_bias@,
                s.hidden as nat,
                s.inter as nat,
            ),
        )
    }

    /// A row after the feed-forward part with the inner row `up`.
    pub open spec fn fed_row(&self, x: Seq<T>, up: Seq<T>, m: Seq<T>, s: AdaLNShape) -> Seq<T> {
        ops::gated_sum(
            x,
            ops::row(m, 5, s.hidden as int),
            ops::linear_row(
                up,
                self.mlp_down_weight@,
                self.mlp_down_bias@,
                s.inter as nat,
                s.hidden as nat,
            ),
        )
    }

    /// A row through the layer, once the keys and values of all rows are known.
    pub open spec fn output_row<M: Math<T>>(
        &self,
        x: Seq<T>,
        m: Seq<T>,
        keys: Seq<T>,
        values: Seq<T>,
        rows: nat,
        s: AdaLNShape,
    ) -> Seq<T> {
        let query = ops::row(self.qkv_row::<M>(x, m, s), 0, s.inner_dim as int);
        let seen = attention::row_output::<T, M>(s.spec_layout(), query, keys, values, 0, rows);
        let mid = self.attended_row(x, seen, m, s);
        self.fed_row(mid, self.ffn_inner::<M>(self.ffn_input::<M>(mid, m, s), s), m, s)
    }

    /// All rows through the layer.
    pub open spec fn forward_of<M: Math<T>>(
        &self,
        x: Seq<T>,
        conditioning: Seq<T>,
        rows: nat,
        s: AdaLNShape,
    ) -> Seq<T> {
        let m = self.modulation(conditioning, s);
        ops::blocks(
            rows,
            |t: int|
                self.output_row::<M>(
                    ops::row(x, t, s.hidden as int),
                    m,
                    self.projected_rows::<M>(x, m, rows, 1, s),
                    self.projected_rows::<M>(x, m, rows, 2, s),
                    rows,
                    s,
                ),
        )
    }

    pub proof fn lemma_forward_len<M: Math<T>>(
        &self,
        x: Seq<T>,
        conditioning: Seq<T>,
        rows: nat,
        s: AdaLNShape,
    )
        requires
            x.len() == rows * s.hidden,
        ensures
            self.forward_of::<M>(x, conditioning, rows, s).len() == rows * s.hidden,
    {
        let m = self.modulation(conditioning, s);
        let f = |t: int|
            self.output_row::<M>(
                ops::row(x, t, s.hidden as int),
                m,
                self.projected_rows::<M>(x, m, rows, 1, s),
                self.projected_rows::<M>(x, m, rows, 2, s),
                rows,
                s,
            );
        assert forall|t: int| 0 <= t < rows implies #[trigger] f(t).len() == s.hidden by {
            ops::lemma_row_bounds(t, rows as int, s.hidden as int);
        }
        ops::lemma_blocks_len(rows, f, s.hidden as nat);
    }

    proof fn lemma_projected_len<M: Math<T>>(
        &self,
        x: Seq<T>,
        m: Seq<T>,
        rows: nat,
        part: int,
        s: AdaLNShape,
    )
        requires
            0 <= part < 3,
        ensures
            self.projected_rows::<M>(x, m, rows, part, s).len() == rows * s.inner_dim,
    {
        let f = |t: int|
            ops::row(
                self.qkv_row::<M>(ops::row(x, t, s.hidden as int), m, s),
                part,
                s.inner_dim as int,
            );
        assert forall|t: int| 0 <= t < rows implies #[trigger] f(t).len() == s.inner_dim by {
            ops::lemma_row_bounds(part, 3, s.inner_dim as int);
        }
        ops::lemma_blocks_len(rows, f, s.inner_dim as nat);
    }

    fn modulate_by(&self, conditioning: &[T], s: AdaLNShape) -> (r: Vec<T>)
        requires
            scalar::arithmetic::<T>(),
            self.wf(s),
            conditioning@.len() == s.hidden,
        ensures
            r@ == self.modulation(conditioning@, s),
            r@.len() == 6 * s.hidden,
    {
        linear_vec(
            conditioning,
            self.adaln_weight.as_slice(),
            self.adaln_bias.as_slice(),
            s.hidden,
            6 * s.hidden,
        )
    }

    fn read_attn_input<M: Math<T>>(&self, x: &[T], m: &[T], s: AdaLNShape) -> (r: Vec<T>)
        requires
            scalar::mathematics::<T, M>(),
            self.wf(s),
            x@.len() == s.hidden,
            6 * s.hidden <= m@.len(),
        ensures
            r@ == self.attn_input::<M>(x@, m@, s),
            r@.len() == s.hidden,
    {
        let eps = M::from_binary64(BITS_1E_6);
        let n = layer_normalize::<T, M>(x, self.attn_norm_weight.as_slice(), eps);
        modulate::<T, M>(
            n.as_slice(),
            modulation_part(m, 0, s.hidden),
            modulation_part(m, 1, s.hidden),
        )
    }

    fn project_qkv(&self, input: &[T], s: AdaLNShape) -> (r: Vec<T>)
        requires
            scalar::arithmetic::<T>(),
            self.wf(s),
            input@.len() == s.hidden,
        ensures
            r@ == ops::linear_row(
                input@,
                self.to_qkv@,
                Seq::empty(),
                s.hidden as nat,
                (3 * s.inner_dim) as nat,
            ),
            r@.len() == 3 * s.inner_dim,
    {
        let none: Vec<T> = Vec::new();
        linear_vec(input, self.to_qkv.as_slice(), none.as_slice(), s.hidden, 3 * s.inner_dim)
    }

    fn add_attention(&self, x: &[T], seen: &[T], m: &[T], s: AdaLNShape) -> (r: Vec<T>)
        requires
            scalar::arithmetic::<T>(),
            self.wf(s),
            x@.len() == s.hidden,
            seen@.len() == s.inner_dim,
            6 * s.hidden <= m@.len(),
        ensures
            r@ == self.attended_row(x@, seen@, m@, s),
            r@.len() == s.hidden,
    {
        let proj = linear_vec(
            seen,
            self.attn_out_weight.as_slice(),
            self.attn_out_bias.as_slice(),
            s.inner_dim,
            s.hidden,
        );
        add_gated(x, modulation_part(m, 2, s.hidden), proj.as_slice())
    }

    fn read_ffn_input<M: Math<T>>(&self, x: &[T], m: &[T], s: AdaLNShape) -> (r: Vec<T>)
        requires
            scalar::mathematics::<T, M>(),
            self.wf(s),
            x@.len() == s.hidden,
            6 * s.hidden <= m@.len(),
        ensures
            r@ == self.ffn_input::<M>(x@, m@, s),
            r@.len() == s.hidden,
    {
        let eps = M::from_binary64(BITS_1E_6);
        let n = layer_normalize::<T, M>(x, self.mlp_norm_weight.as_slice(), eps);
        modulate::<T, M>(
            n.as_slice(),
            modulation_part(m, 3, s.hidden),
            modulation_part(m, 4, s.hidden),
        )
    }

    fn feed_up<M: Math<T>>(&self, input: &[T], s: AdaLNShape) -> (r: Vec<T>)
        requires
            scalar::mathematics::<T, M>(),
            self.wf(s),
            input@.len() == s.hidden,
        ensures
            r@ == self.ffn_inner::<M>(input@, s),
            r@.len() == s.inter,
    {
        let up = linear_vec(
            input,
            self.mlp_up_weight.as_slice(),
            self.mlp_up_bias.as_slice(),
            s.hidden,
            s.inter,
        );
        activate_all::<T, M>(Activation::Gelu, up.as_slice())
    }

    fn add_fed(&self, x: &[T], up: &[T], m: &[T], s: AdaLNShape) -> (r: Vec<T>)
        requires
            scalar::arithmetic::<T>(),
            self.wf(s),
            x@.len() == s.hidden,
            up@.len() == s.inter,
            6 * s.hidden <= m@.len(),
        ensures
            r@ == self.fed_row(x@, up@, m@, s),
            r@.len() == s.hidden,
    {
        let down = linear_vec(
            up,
            self.mlp_down_weight.as_slice(),
            self.mlp_down_bias.as_slice(),
            s.inter,
            s.hidden,
        );
        add_gated(x, modulation_part(m, 5, s.hidden), down.as_slice())
    }

    /// Forward pass for one DiT adaLN layer.
    ///
    /// `x`: `[seq_len, hidden]` — input token sequence (flat).
    /// `conditioning`: `[hidden]` — action embedding used for adaLN modulation.
    /// `hidden`: hidden dimension of the predictor (e.g. 192).
    /// `num_heads`: number of attention heads (e.g. 16).
    /// `inner_dim`: attention inner dimension = num_heads * head_dim (e.g. 1024).
    /// `inter`: MLP intermediate size (e.g. 2048).
    pub fn forward<M: Math<T>>(
        &self,
        x: &[T],
        conditioning: &[T],
        seq_len: usize,
        hidden: usize,
        num_heads: usize,
        inner_dim: usize,
        inter: usize,
    ) -> (r: Vec<T>)
        requires
            scalar::mathematics::<T, M>(),
            self.wf(shape_of(hidden, num_heads, inner_dim, inter)),
            x@.len() == seq_len * hidden,
            conditioning@.len() == hidden,
        ensures
            r@ == self.forward_of::<M>(
                x@,
                conditioning@,
                seq_len as nat,
                shape_of(hidden, num_heads, inner_dim, inter),
            ),
            r@.len() == seq_len * hidden,
    {
        let s = AdaLNShape { hidden, num_heads, inner_dim, inter };
        let rows = seq_len;
        let m = self.modulate_by(conditioning, s);
        let ghost g = |t: int|
            ops::row(
                self.qkv_row::<M>(ops::row(x@, t, s.hidden as int), m@, s),
                1,
                s.inner_dim as int,
            );
        let ghost v = |t: int|
            ops::row(
                self.qkv_row::<M>(ops::row(x@, t, s.hidden as int), m@, s),
                2,
                s.inner_dim as int,
            );
        let mut keys: Vec<T> = Vec::new();
        let mut values: Vec<T> = Vec::new();
        for t in 0..rows
            invariant
                scalar::mathematics::<T, M>(),
                self.wf(s),
                x@.len() == rows * s.hidden,
                m@.len() == 6 * s.hidden,
                g == (|t: int|
                    ops::row(
                        self.qkv_row::<M>(ops::row(x@, t, s.hidden as int), m@, s),
                        1,
                        s.inner_dim as int,
                    )),
                v == (|t: int|
                    ops::row(
                        self.qkv_row::<M>(ops::row(x@, t, s.hidden as int), m@, s),
                        2,
                        s.inner_dim as int,
                    )),
                keys@ == ops::blocks(t as nat, g),
                values@ == ops::blocks(t as nat, v),
        {
            proof {
                ops::lemma_row_bounds(t as int, rows as int, s.hidden as int);
            }
            let input = self.read_attn_input::<M>(
                row_slice(x, t, s.hidden),
                m.as_slice(),
                s,
            );
            let qkv = self.project_qkv(input.as_slice(), s);
            extend(&mut keys, row_slice(qkv.as_slice(), 1, s.inner_dim));
            extend(&mut values, row_slice(qkv.as_slice(), 2, s.inner_dim));
            assert(keys@ =~= ops::blocks((t + 1) as nat, g));
            assert(values@ =~= ops::blocks((t + 1) as nat, v));
        }
        proof {
            self.lemma_projected_len::<M>(x@, m@, rows as nat, 1, s);
            self.lemma_projected_len::<M>(x@, m@, rows as nat, 2, s);
            s.lemma_layout();
        }
        let layout = s.layout();
        let ghost f = |t: int|
            self.output_row::<M>(
                ops::row(x@, t, s.hidden as int),
                m@,
                keys@,
                values@,
                rows as nat,
                s,
            );
        let mut out: Vec<T> = Vec::new();
        for t in 0..rows
            invariant
                scalar::mathematics::<T, M>(),
                self.wf(s),
                layout == s.spec_layout(),
                layout.wf(),
                layout.q_dim() == s.inner_dim,
                layout.kv_dim() == s.inner_dim,
                x@.len() == rows * s.hidden,
                m@.len() == 6 * s.hidden,
                keys@.len() == rows * s.inner_dim,
                values@.len() == rows * s.inner_dim,
                f == (|t: int|
                    self.output_row::<M>(
                        ops::row(x@, t, s.hidden as int),
                        m@,
                        keys@,
                        values@,
                        rows as nat,
                        s,
                    )),
                out@ == ops::blocks(t as nat, f),
        {
            proof {
                ops::lemma_row_bounds(t as int, rows as int, s.hidden as int);
            }
            let x_row = row_slice(x, t, s.hidden);
            let input = self.read_attn_input::<M>(x_row, m.as_slice(), s);
            let qkv = self.project_qkv(input.as_slice(), s);
            let seen = attend_row::<T, M>(
                layout,
                row_slice(qkv.as_slice(), 0, s.inner_dim),
                keys.as_slice(),
                values.as_slice(),
                0,
                rows,
            );
            proof {
                attention::lemma_row_output_len::<T, M>(
                    layout,
                    ops::row(qkv@, 0, s.inner_dim as int),
                    keys@,
                    values@,
                    0,
                    rows as nat,
                );
            }
            let mid = self.add_attention(x_row, seen.as_slice(), m.as_slice(), s);
            let ffn_input = self.read_ffn_input::<M>(mid.as_slice(), m.as_slice(), s);
            let up = self.feed_up::<M>(ffn_input.as_slice(), s);
            let y = self.add_fed(mid.as_slice(), up.as_slice(), m.as_slice(), s);
            extend(&mut out, y.as_slice());
            assert(out@ =~= ops::blocks((t + 1) as nat, f));
        }
        proof {
            self.lemma_forward_len::<M>(x@, conditioning@, rows as nat, s);
        }
        out
    }
}

/// The shape that the widths of a layer make.
pub open spec fn shape_of(
    hidden: usize,
    num_heads: usize,
    inner_dim: usize,
    inter: usize,
) -> AdaLNShape {
    AdaLNShape { hidden, num_heads, inner_dim, inter }
}

// ── Layers on reused buffers ─────────────────────────────────────────

/// Pre-allocated buffers for fused inference, reused across layers and
/// rollout steps. Except for `seq`, `latent_seq` and `cond` they are scratch
/// space: what they hold between calls means nothing.
pub struct LeWMBuffers<T> {
    pub seq: Vec<T>,  // [seq_len * hidden]
    pub mod_params: Vec<T>,  // [6 * hidden]
    pub normed: Vec<T>,  // [seq_len * hidden]
    pub qkv: Vec<T>,  // [seq_len * 3 * inner_dim]
    pub attn_out: Vec<T>,  // [seq_len * inner_dim]
    pub proj: Vec<T>,  // [seq_len * hidden]
    pub ffn_inter: Vec<T>,  // [seq_len * inter]
    pub ffn_out: Vec<T>,  // [seq_len * hidden]
    pub q_split: Vec<T>,  // [seq_len * inner_dim] — Q after QKV split
    pub k_split: Vec<T>,  // [seq_len * inner_dim] — K after QKV split
    pub v_split: Vec<T>,  // [seq_len * inner_dim] — V after QKV split
    pub mod_copy: Vec<T>,  // [6 * hidden] — copy of mod_params for gate extraction
    pub latent_seq: Vec<T>,  // [seq_len * latent_dim] — bottleneck input sequence
    pub cond: Vec<T>,  // [hidden] — conditioning vector
    pub scores_buf: Vec<T>,  // [seq_len * seq_len] — attention scores
    pub packed_a: Vec<T>,  // matrix packing scratch A
    pub packed_b: Vec<T>,  // matrix packing scratch B
}

impl<T> LeWMBuffers<T> {
    /// The lengths of all buffers.
    pub open spec fn sizes(&self) -> Seq<nat> {
        seq![
            self.seq@.len(),
            self.mod_params@.len(),
            self.normed@.len(),
            self.qkv@.len(),
            self.attn_out@.len(),
            self.proj@.len(),
            self.ffn_inter@.len(),
            self.ffn_out@.len(),
            self.q_split@.len(),
            self.k_split@.len(),
            self.v_split@.len(),
            self.mod_copy@.len(),
            self.latent_seq@.len(),
            self.cond@.len(),
            self.scores_buf@.len(),
            self.packed_a@.len(),
            self.packed_b@.len(),
        ]
    }

    /// The buffers are long enough for `rows` token rows.
    pub open spec fn holds(&self, rows: nat, s: AdaLNShape) -> bool {
        &&& rows * s.hidden <= self.seq@.len()
        &&& 6 * s.hidden <= self.mod_params@.len()
        &&& rows * s.hidden <= self.normed@.len()
        &&& rows * (3 * s.inner_dim) <= self.qkv@.len()
        &&& rows * s.inner_dim <= self.attn_out@.len()
        &&& rows * s.inter <= self.ffn_inter@.len()
        &&& rows * s.inner_dim <= self.q_split@.len()
        &&& rows * s.inner_dim <= self.k_split@.len()
        &&& rows * s.inner_dim <= self.v_split@.len()
        &&& 6 * s.hidden <= self.mod_copy@.len()
        &&& s.hidden <= self.cond@.len()
    }
}

impl<T: Scalar> AdaLNTransformerLayer<T> {
    /// Writes the query, key and value rows of the sequence to their buffers.
    fn split_qkv_into<M: Math<T>>(&self, bufs: &mut LeWMBuffers<T>, rows: usize, s: AdaLNShape)
        requires
            scalar::mathematics::<T, M>(),
            self.wf(s),
            old(bufs).holds(rows as nat, s),
        ensures
            final(bufs).sizes() == old(bufs).sizes(),
            final(bufs).seq == old(bufs).seq,
            final(bufs).mod_copy == old(bufs).mod_copy,
            final(bufs).cond == old(bufs).cond,
            final(bufs).latent_seq == old(bufs).latent_seq,
            ({
                let x = old(bufs).seq@.take(rows * s.hidden);
                let m = old(bufs).mod_copy@.take(6 * s.hidden);
                &&& final(bufs).q_split@.take(rows * s.inner_dim) == self.projected_rows::<M>(
                    x,
                    m,
                    rows as nat,
                    0,
                    s,
                )
                &&& final(bufs).k_split@.take(rows * s.inner_dim) == self.projected_rows::<M>(
                    x,
                    m,
                    rows as nat,
                    1,
                    s,
                )
                &&& final(bufs).v_split@.take(rows * s.inner_dim) == self.projected_rows::<M>(
                    x,
                    m,
                    rows as nat,
                    2,
                    s,
                )
            }),
    {
        let h = s.hidden;
        let inner = s.inner_dim;
        let n = bufs.seq.len();
        let len = rows * h;
        let ghost x = bufs.seq@.take(rows * s.hidden);
        let ghost m = bufs.mod_copy@.take(6 * s.hidden);
        let ghost start = *bufs;
        let ghost fq = |t: int|
            ops::row(self.qkv_row::<M>(ops::row(x, t, h as int), m, s), 0, inner as int);
        let ghost fk = |t: int|
            ops::row(self.qkv_row::<M>(ops::row(x, t, h as int), m, s), 1, inner as int);
        let ghost fv = |t: int|
            ops::row(self.qkv_row::<M>(ops::row(x, t, h as int), m, s), 2, inner as int);
        assert(bufs.q_split@.take(0 * inner) =~= ops::blocks(0, fq));
        assert(bufs.k_split@.take(0 * inner) =~= ops::blocks(0, fk));
        assert(bufs.v_split@.take(0 * inner) =~= ops::blocks(0, fv));
        for t in 0..rows
            invariant
                scalar::mathematics::<T, M>(),
                self.wf(s),
                h == s.hidden,
                inner == s.inner_dim,
                len == rows * h,
                bufs.sizes() == start.sizes(),
                bufs.seq == start.seq,
                bufs.mod_copy == start.mod_copy,
                bufs.cond == start.cond,
                bufs.latent_seq == start.latent_seq,
                bufs.holds(rows as nat, s),
                x == start.seq@.take(rows * s.hidden),
                m == start.mod_copy@.take(6 * s.hidden),
                fq == (|t: int|
                    ops::row(self.qkv_row::<M>(ops::row(x, t, h as int), m, s), 0, inner as int)),
                fk == (|t: int|
                    ops::row(self.qkv_row::<M>(ops::row(x, t, h as int), m, s), 1, inner as int)),
                fv == (|t: int|
                    ops::row(self.qkv_row::<M>(ops::row(x, t, h as int), m, s), 2, inner as int)),
                bufs.q_split@.take(t * inner) == ops::blocks(t as nat, fq),
                bufs.k_split@.take(t * inner) == ops::blocks(t as nat, fk),
                bufs.v_split@.take(t * inner) == ops::blocks(t as nat, fv),
        {
            let ghost before = bufs.sizes();
            proof {
                ops::lemma_row_bounds(t as int, rows as int, h as int);
                ops::lemma_row_bounds(t as int, rows as int, inner as int);
                ops::lemma_row_bounds(t as int, rows as int, 3 * inner);
            }
            let input = self.read_attn_input::<M>(
                row_slice(prefix(&bufs.seq, len), t, h),
                prefix(&bufs.mod_copy, 6 * h),
                s,
            );
            put_row(&mut bufs.normed, t, h, input.as_slice());
            let qkv = self.project_qkv(input.as_slice(), s);
            put_row(&mut bufs.qkv, t, 3 * inner, qkv.as_slice());
            put_row(&mut bufs.q_split, t, inner, row_slice(qkv.as_slice(), 0, inner));
            put_row(&mut bufs.k_split, t, inner, row_slice(qkv.as_slice(), 1, inner));
            put_row(&mut bufs.v_split, t, inner, row_slice(qkv.as_slice(), 2, inner));
            assert(bufs.sizes() =~= before);
        }
    }

    /// Writes what each query row sees to the attention buffer.
    fn attend_into<M: Math<T>>(&self, bufs: &mut LeWMBuffers<T>, rows: usize, s: AdaLNShape)
        requires
            scalar::mathematics::<T, M>(),
            s.wf(),
            old(bufs).holds(rows as nat, s),
        ensures
            final(bufs).sizes() == old(bufs).sizes(),
            final(bufs).seq == old(bufs).seq,
            final(bufs).mod_copy == old(bufs).mod_copy,
            final(bufs).cond == old(bufs).cond,
            final(bufs).latent_seq == old(bufs).latent_seq,
            final(bufs).attn_out@.take(rows * s.inner_dim) == ops::blocks(
                rows as nat,
                |t: int|
                    attention::row_output::<T, M>(
                        s.spec_layout(),
                        ops::row(
                            old(bufs).q_split@.take(rows * s.inner_dim),
                            t,
                            s.inner_dim as int,
                        ),
                        old(bufs).k_split@.take(rows * s.inner_dim),
                        old(bufs).v_split@.take(rows * s.inner_dim),
                        0,
                        rows as nat,
                    ),
            ),
    {
        let inner = s.inner_dim;
        let n = bufs.q_split.len();
        let len = rows * inner;
        let layout = s.layout();
        let ghost start = *bufs;
        let ghost q = bufs.q_split@.take(rows * s.inner_dim);
        let ghost k = bufs.k_split@.take(rows * s.inner_dim);
        let ghost v = bufs.v_split@.take(rows * s.inner_dim);
        let ghost f = |t: int|
            attention::row_output::<T, M>(
                s.spec_layout(),
                ops::row(q, t, s.inner_dim as int),
                k,
                v,
                0,
                rows as nat,
            );
        proof {
            s.lemma_layout();
        }
        assert(bufs.attn_out@.take(0 * inner) =~= ops::blocks(0, f));
        for t in 0..rows
            invariant
                scalar::mathematics::<T, M>(),
                layout == s.spec_layout(),
                layout.wf(),
                layout.q_dim() == s.inner_dim,
                layout.kv_dim() == s.inner_dim,
                inner == s.inner_dim,
                len == rows * inner,
                bufs.sizes() == start.sizes(),
                bufs.seq == start.seq,
                bufs.mod_copy == start.mod_copy,
                bufs.cond == start.cond,
                bufs.latent_seq == start.latent_seq,
                bufs.q_split == start.q_split,
                bufs.k_split == start.k_split,
                bufs.v_split == start.v_split,
                bufs.holds(rows as nat, s),
                q == start.q_split@.take(rows * s.inner_dim),
                k == start.k_split@.take(rows * s.inner_dim),
                v == start.v_split@.take(rows * s.inner_dim),
                f == (|t: int|
                    attention::row_output::<T, M>(
                        s.spec_layout(),
                        ops::row(q, t, s.inner_dim as int),
                        k,
                        v,
                        0,
                        rows as nat,
                    )),
                bufs.attn_out@.take(t * inner) == ops::blocks(t as nat, f),
        {
            let ghost before = bufs.sizes();
            proof {
                ops::lemma_row_bounds(t as int, rows as int, inner as int);
                attention::lemma_row_output_len::<T, M>(
                    layout,
                    ops::row(q, t as int, inner as int),
                    k,
                    v,
                    0,
                    rows as nat,
                );
            }
            let seen = attend_row::<T, M>(
                layout,
                row_slice(prefix(&bufs.q_split, len), t, inner),
                prefix(&bufs.k_split, len),
                prefix(&bufs.v_split, len),
                0,
                rows,
            );
            put_row(&mut bufs.attn_out, t, inner, seen.as_slice());
            assert(bufs.sizes() =~= before);
        }
    }

    /// Adds the gated attention and feed-forward outputs to the sequence, row
    /// by row and in place.
    fn update_sequence<M: Math<T>>(&self, bufs: &mut LeWMBuffers<T>, rows: usize, s: AdaLNShape)
        requires
            scalar::mathematics::<T, M>(),
            self.wf(s),
            old(bufs).holds(rows as nat, s),
        ensures
            final(bufs).sizes() == old(bufs).sizes(),
            final(bufs).cond == old(bufs).cond,
            final(bufs).latent_seq == old(bufs).latent_seq,
            ({
                let x = old(bufs).seq@.take(rows * s.hidden);
                let m = old(bufs).mod_copy@.take(6 * s.hidden);
                let seen = old(bufs).attn_out@.take(rows * s.inner_dim);
                final(bufs).seq@.take(rows * s.hidden) == ops::blocks(
                    rows as nat,
                    |t: int|
                        self.updated_row::<M>(
                            ops::row(x, t, s.hidden as int),
                            ops::row(seen, t, s.inner_dim as int),
                            m,
                            s,
                        ),
                )
            }),
    {
        let h = s.hidden;
        let inner = s.inner_dim;
        let n = bufs.seq.len();
        let n2 = bufs.attn_out.len();
        let len = rows * h;
        let seen_len = rows * inner;
        let ghost start = *bufs;
        let ghost x = bufs.seq@.take(rows * s.hidden);
        let ghost m = bufs.mod_copy@.take(6 * s.hidden);
        let ghost seen = bufs.attn_out@.take(rows * s.inner_dim);
        let ghost f = |t: int|
            self.updated_row::<M>(
                ops::row(x, t, h as int),
                ops::row(seen, t, inner as int),
                m,
                s,
            );
        assert(bufs.seq@.take(0 * h) =~= ops::blocks(0, f));
        assert(bufs.seq@.skip(0 * h) =~= start.seq@.skip(0 * h));
        for t in 0..rows
            invariant
                scalar::mathematics::<T, M>(),
                self.wf(s),
                h == s.hidden,
                inner == s.inner_dim,
                len == rows * h,
                seen_len == rows * inner,
                bufs.sizes() == start.sizes(),
                bufs.mod_copy == start.mod_copy,
                bufs.attn_out == start.attn_out,
                bufs.cond == start.cond,
                bufs.latent_seq == start.latent_seq,
                bufs.seq@.len() == start.seq@.len(),
                bufs.holds(rows as nat, s),
                x == start.seq@.take(rows * s.hidden),
                m == start.mod_copy@.take(6 * s.hidden),
                seen == start.attn_out@.take(rows * s.inner_dim),
                f == (|t: int|
                    self.updated_row::<M>(
                        ops::row(x, t, h as int),
                        ops::row(seen, t, inner as int),
                        m,
                        s,
                    )),
                bufs.seq@.take(t * h) == ops::blocks(t as nat, f),
                bufs.seq@.skip(t * h) == start.seq@.skip(t * h),
        {
            let ghost before = bufs.sizes();
            let ghost held = bufs.seq@;
            proof {
                ops::lemma_row_bounds(t as int, rows as int, h as int);
                ops::lemma_row_bounds(t as int, rows as int, inner as int);
                ops::lemma_row_bounds(t as int, rows as int, s.inter as int);
            }
            let x_row = copy_slice(row_slice(prefix(&bufs.seq, len), t, h));
            assert(x_row@ =~= ops::row(x, t as int, h as int)) by {
                assert forall|j: int| 0 <= j < h implies x_row@[j] == x[t * h + j] by {
                    assert(held.skip(t * h)[j] == start.seq@.skip(t * h)[j]);
                }
            }
            let mid = self.add_attention(
                x_row.as_slice(),
                row_slice(prefix(&bufs.attn_out, seen_len), t, inner),
                prefix(&bufs.mod_copy, 6 * h),
                s,
            );
            let input = self.read_ffn_input::<M>(mid.as_slice(), prefix(&bufs.mod_copy, 6 * h), s);
            put_row(&mut bufs.normed, t, h, input.as_slice());
            let up = self.feed_up::<M>(input.as_slice(), s);
            put_row(&mut bufs.ffn_inter, t, s.inter, up.as_slice());
            let y = self.add_fed(
                mid.as_slice(),
                up.as_slice(),
                prefix(&bufs.mod_copy, 6 * h),
                s,
            );
            put_row(&mut bufs.seq, t, h, y.as_slice());
            assert(bufs.sizes() =~= before);
            assert(bufs.seq@.skip((t + 1) * h) =~= start.seq@.skip((t + 1) * h)) by {
                assert(held.skip((t + 1) * h) =~= held.skip(t * h).skip(h as int));
                assert(start.seq@.skip((t + 1) * h) =~= start.seq@.skip(t * h).skip(h as int));
            }
        }
    }

    /// A row after both halves of the layer, of which `seen` is what its query
    /// saw.
    pub open spec fn updated_row<M: Math<T>>(
        &self,
        x: Seq<T>,
        seen: Seq<T>,
        m: Seq<T>,
        s: AdaLNShape,
    ) -> Seq<T> {
        let mid = self.attended_row(x, seen, m, s);
        self.fed_row(mid, self.ffn_inner::<M>(self.ffn_input::<M>(mid, m, s), s), m, s)
    }

    /// Runs the layer in place on the first `rows` rows of `bufs.seq`, with
    /// the conditioning vector in `bufs.cond`.
    pub fn forward_into<M: Math<T>>(&self, bufs: &mut LeWMBuffers<T>, rows: usize, s: AdaLNShape)
        requires
            scalar::mathematics::<T, M>(),
            self.wf(s),
            old(bufs).holds(rows as nat, s),
        ensures
            final(bufs).seq@.take(rows * s.hidden) == self.forward_of::<M>(
                old(bufs).seq@.take(rows * s.hidden),
                old(bufs).cond@.take(s.hidden as int),
                rows as nat,
                s,
            ),
            final(bufs).sizes() == old(bufs).sizes(),
            final(bufs).cond == old(bufs).cond,
            final(bufs).latent_seq == old(bufs).latent_seq,
    {
        let ghost sizes = bufs.sizes();
        let ghost x = bufs.seq@.take(rows * s.hidden);
        let ghost cond = bufs.cond@.take(s.hidden as int);
        let m = self.modulate_by(prefix(&bufs.cond, s.hidden), s);
        copy_into(&mut bufs.mod_params, 0, m.as_slice());
        copy_into(&mut bufs.mod_copy, 0, m.as_slice());
        assert(bufs.mod_copy@.take(6 * s.hidden) =~= m@);
        assert(bufs.sizes() =~= sizes);
        self.split_qkv_into::<M>(bufs, rows, s);
        proof {
            lemma_holds(bufs, sizes, rows as nat, s);
        }
        let ghost q = bufs.q_split@.take(rows * s.inner_dim);
        let ghost k = bufs.k_split@.take(rows * s.inner_dim);
        let ghost v = bufs.v_split@.take(rows * s.inner_dim);
        self.attend_into::<M>(bufs, rows, s);
        proof {
            lemma_holds(bufs, sizes, rows as nat, s);
        }
        let ghost seen = bufs.attn_out@.take(rows * s.inner_dim);
        self.update_sequence::<M>(bufs, rows, s);
        proof {
            let a = |t: int|
                attention::row_output::<T, M>(
                    s.spec_layout(),
                    ops::row(q, t, s.inner_dim as int),
                    k,
                    v,
                    0,
                    rows as nat,
                );
            let fq = |t: int|
                ops::row(
                    self.qkv_row::<M>(ops::row(x, t, s.hidden as int), m@, s),
                    0,
                    s.inner_dim as int,
                );
            let f = |t: int|
                self.updated_row::<M>(
                    ops::row(x, t, s.hidden as int),
                    ops::row(seen, t, s.inner_dim as int),
                    m@,
                    s,
                );
            let g = |t: int|
                self.output_row::<M>(ops::row(x, t, s.hidden as int), m@, k, v, rows as nat, s);
            s.lemma_layout();
            assert forall|t: int| 0 <= t < rows implies #[trigger] fq(t).len() == s.inner_dim by {
                ops::lemma_row_bounds(0, 3, s.inner_dim as int);
            }
            assert forall|t: int| 0 <= t < rows implies #[trigger] a(t).len() == s.inner_dim by {
                ops::lemma_blocks_row(rows as nat, fq, s.inner_dim as nat, t);
                assert(ops::row(q, t, s.inner_dim as int) == fq(t));
                attention::lemma_row_output_len::<T, M>(
                    s.spec_layout(),
                    ops::row(q, t, s.inner_dim as int),
                    k,
                    v,
                    0,
                    rows as nat,
                );
            }
            assert forall|t: int| 0 <= t < rows implies #[trigger] f(t) == g(t) by {
                ops::lemma_blocks_row(rows as nat, a, s.inner_dim as nat, t);
                ops::lemma_blocks_row(rows as nat, fq, s.inner_dim as nat, t);
                assert(ops::row(seen, t, s.inner_dim as int) == a(t));
                assert(ops::row(q, t, s.inner_dim as int) == fq(t));
            }
            ops::lemma_blocks_same(rows as nat, f, g);
        }
    }
}

/// Buffers of the same lengths hold the same number of rows.
pub proof fn lemma_holds<T>(bufs: &LeWMBuffers<T>, sizes: Seq<nat>, rows: nat, s: AdaLNShape)
    requires
        bufs.sizes() == sizes,
        rows * s.hidden <= sizes[0],
        6 * s.hidden <= sizes[1],
        rows * s.hidden <= sizes[2],
        rows * (3 * s.inner_dim) <= sizes[3],
        rows * s.inner_dim <= sizes[4],
        rows * s.inter <= sizes[6],
        rows * s.inner_dim <= sizes[8],
        rows * s.inner_dim <= sizes[9],
        rows * s.inner_dim <= sizes[10],
        6 * s.hidden <= sizes[11],
        s.hidden <= sizes[13],
    ensures
        bufs.holds(rows, s),
{
    assert(bufs.sizes()[0] == sizes[0]);
    assert(bufs.sizes()[1] == sizes[1]);
    assert(bufs.sizes()[2] == sizes[2]);
    assert(bufs.sizes()[3] == sizes[3]);
    assert(bufs.sizes()[4] == sizes[4]);
    assert(bufs.sizes()[6] == sizes[6]);
    assert(bufs.sizes()[8] == sizes[8]);
    assert(bufs.sizes()[9] == sizes[9]);
    assert(bufs.sizes()[10] == sizes[10]);
    assert(bufs.sizes()[11] == sizes[11]);
    assert(bufs.sizes()[13] == sizes[13]);
}

} // verus!
