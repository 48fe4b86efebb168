//! CodeDeltaTok head with packed weights.
//!
//! Every linear weight matrix (per-block attention Q/K/V/O, SwiGLU
//! gate/up/down and the final `out_proj`) is held in a packed form. Biases,
//! LayerNorm weights, LayerScale vectors and the small parameter embeddings
//! stay as they are.

use vstd::prelude::*;

use crate::attention;
use crate::attention::{bidirectional_attention, HeadLayout};
use crate::buffer::AlignedBuffer;
use crate::config::Binary64;
use crate::models::text_encoder::code_deltatok;
use crate::models::text_encoder::code_deltatok::{
    add_scaled, decoder_rows, encoder_rows, first_rows, CodeDeltaTokConfig, CodeDeltaTokHead,
    DeltaTokBlock, HeadParts,
};
use crate::models::text_encoder::roberta;
use crate::ops;
use crate::ops::{activate_all, layernorm_with_bias, mul_vecs, row_slice, Activation};
use crate::packed;
use crate::packed::{packed_linear, PackedLinear};
use crate::scalar;
use crate::scalar::{Math, Scalar};

verus! {

pub struct Q4DeltaTokBlock<T, Q> {
    pub dim: usize,
    pub num_heads: usize,
    pub intermediate: usize,
    pub layer_norm_eps: Binary64,
    pub norm1_w: AlignedBuffer<T>,
    pub norm1_b: AlignedBuffer<T>,
    pub norm2_w: AlignedBuffer<T>,
    pub norm2_b: AlignedBuffer<T>,
    pub w_q: Q,
    pub q_bias: AlignedBuffer<T>,
    pub w_k: Q,
    pub k_bias: AlignedBuffer<T>,
    pub w_v: Q,
    pub v_bias: AlignedBuffer<T>,
    pub w_o: Q,
    pub o_bias: AlignedBuffer<T>,
    pub mlp_gate: Q,
    pub mlp_gate_b: AlignedBuffer<T>,
    pub mlp_up: Q,
    pub mlp_up_b: AlignedBuffer<T>,
    pub mlp_down: Q,
    pub mlp_down_b: AlignedBuffer<T>,
    pub scale1: AlignedBuffer<T>,
    pub scale2: AlignedBuffer<T>,
}

impl<T: Scalar, Q: PackedLinear<T>> Q4DeltaTokBlock<T, Q> {
    /// The packed form of a block: its matrices packed, all else the same.
    pub open spec fn is_packed_from(&self, b: DeltaTokBlock<T>) -> bool {
        let d = b.dim;
        let inter = b.intermediate;
        &&& self.dim == d
        &&& self.num_heads == b.num_heads
        &&& self.intermediate == inter
        &&& self.layer_norm_eps == b.layer_norm_eps
        &&& self.norm1_w@ == b.norm1_w@
        &&& self.norm1_b@ == b.norm1_b@
        &&& self.norm2_w@ == b.norm2_w@
        &&& self.norm2_b@ == b.norm2_b@
        &&& self.w_q == packed::packed_of::<T, Q>(b.w_q@, d, d)
        &&& self.w_k == packed::packed_of::<T, Q>(b.w_k@, d, d)
        &&& self.w_v == packed::packed_of::<T, Q>(b.w_v@, d, d)
        &&& self.w_o == packed::packed_of::<T, Q>(b.w_o@, d, d)
        &&& self.q_bias@ == b.q_bias@
        &&& self.k_bias@ == b.k_bias@
        &&& self.v_bias@ == b.v_bias@
        &&& self.o_bias@ == b.o_bias@
        &&& self.mlp_gate == packed::packed_of::<T, Q>(b.mlp_gate_w@, inter, d)
        &&& self.mlp_up == packed::packed_of::<T, Q>(b.mlp_up_w@, inter, d)
        &&& self.mlp_down == packed::packed_of::<T, Q>(b.mlp_down_w@, d, inter)
        &&& self.mlp_gate_b@ == b.mlp_gate_b@
        &&& self.mlp_up_b@ == b.mlp_up_b@
        &&& self.mlp_down_b@ == b.mlp_down_b@
        &&& self.scale1@ == b.scale1@
        &&& self.scale2@ == b.scale2@
    }

    /// The weights have their sizes. A bias may be missing.
    pub open spec fn wf(&self) -> bool {
        let d = self.dim as nat;
        let inter = self.intermediate as nat;
        &&& self.num_heads > 0
        &&& self.dim % self.num_heads == 0
        &&& d <= self.norm1_w@.len()
        &&& d <= self.norm1_b@.len()
        &&& d <= self.norm2_w@.len()
        &&& d <= self.norm2_b@.len()
        &&& packed::maps_rows::<T, Q>(self.w_q, d, d)
        &&& packed::maps_rows::<T, Q>(self.w_k, d, d)
        &&& packed::maps_rows::<T, Q>(self.w_v, d, d)
        &&& packed::maps_rows::<T, Q>(self.w_o, d, d)
        &&& packed::maps_rows::<T, Q>(self.mlp_gate, d, inter)
        &&& packed::maps_rows::<T, Q>(self.mlp_up, d, inter)
        &&& packed::maps_rows::<T, Q>(self.mlp_down, inter, d)
        &&& self.q_bias@.len() == 0 || d <= self.q_bias@.len()
        &&& self.k_bias@.len() == 0 || d <= self.k_bias@.len()
        &&& self.v_bias@.len() == 0 || d <= self.v_bias@.len()
        &&& self.o_bias@.len() == 0 || d <= self.o_bias@.len()
        &&& self.mlp_gate_b@.len() == 0 || inter <= self.mlp_gate_b@.len()
        &&& self.mlp_up_b@.len() == 0 || inter <= self.mlp_up_b@.len()
        &&& self.mlp_down_b@.len() == 0 || d <= self.mlp_down_b@.len()
        &&& d <= self.scale1@.len()
        &&& d <= self.scale2@.len()
    }

    pub open spec fn eps<M: Math<T>>(&self) -> T {
        scalar::binary64_of::<T, M>(self.layer_norm_eps.bits)
    }

    pub open spec fn layout(&self) -> HeadLayout {
        HeadLayout {
            num_heads: self.num_heads,
            num_kv_heads: self.num_heads,
            head_dim: (self.dim as int / self.num_heads as int) as usize,
        }
    }

    /// What the attention sub-layer gives.
    pub open spec fn attn_branch<M: Math<T>>(&self, x: Seq<T>, rows: usize) -> Seq<T> {
        let d = self.dim as nat;
        let h1 = ops::layer_norm_bias_of::<T, M>(
            x,
            self.norm1_w@,
            self.norm1_b@,
            self.eps::<M>(),
            d,
            rows as nat,
        );
        let seen = attention::bidirectional_output::<T, M>(
            self.layout(),
            packed::packed_linear_of(self.w_q, h1, self.q_bias@, rows, d),
            packed::packed_linear_of(self.w_k, h1, self.k_bias@, rows, d),
            packed::packed_linear_of(self.w_v, h1, self.v_bias@, rows, d),
            rows as nat,
        );
        packed::packed_linear_of(self.w_o, seen, self.o_bias@, rows, d)
    }

    /// What the feed-forward sub-layer gives.
    pub open spec fn mlp_branch<M: Math<T>>(&self, y: Seq<T>, rows: usize) -> Seq<T> {
        let d = self.dim as nat;
        let inter = self.intermediate as nat;
        let h2 = ops::layer_norm_bias_of::<T, M>(
            y,
            self.norm2_w@,
            self.norm2_b@,
            self.eps::<M>(),
            d,
            rows as nat,
        );
        let gate = ops::all_activated::<T, M>(
            Activation::Silu,
            packed::packed_linear_of(self.mlp_gate, h2, self.mlp_gate_b@, rows, inter),
        );
        let up = packed::packed_linear_of(self.mlp_up, h2, self.mlp_up_b@, rows, inter);
        packed::packed_linear_of(
            self.mlp_down,
            ops::product_of(gate, up),
            self.mlp_down_b@,
            rows,
            d,
        )
    }

    /// Rows through the block.
    pub open spec fn output<M: Math<T>>(&self, x: Seq<T>, rows: usize) -> Seq<T> {
        let d = self.dim as nat;
        let y = code_deltatok::scaled_residual(
            x,
            self.scale1@,
            self.attn_branch::<M>(x, rows),
            d,
            rows as nat,
        );
        code_deltatok::scaled_residual(
            y,
            self.scale2@,
            self.mlp_branch::<M>(y, rows),
            d,
            rows as nat,
        )
    }

    /// Packs the linear weights of a block and copies the rest by value.
    pub fn from_fp32(blk: &DeltaTokBlock<T>) -> (r: Self)
        requires
            packed::packing::<T, Q>(),
        ensures
            r.is_packed_from(*blk),
            blk.wf() ==> r.wf(),
    {
        let d = blk.dim;
        let inter = blk.intermediate;
        Q4DeltaTokBlock {
            dim: d,
            num_heads: blk.num_heads,
            intermediate: inter,
            layer_norm_eps: blk.layer_norm_eps,
            norm1_w: blk.norm1_w.duplicate(),
            norm1_b: blk.norm1_b.duplicate(),
            norm2_w: blk.norm2_w.duplicate(),
            norm2_b: blk.norm2_b.duplicate(),
            w_q: Q::pack(blk.w_q.as_slice(), d, d),
            q_bias: blk.q_bias.duplicate(),
            w_k: Q::pack(blk.w_k.as_slice(), d, d),
            k_bias: blk.k_bias.duplicate(),
            w_v: Q::pack(blk.w_v.as_slice(), d, d),
            v_bias: blk.v_bias.duplicate(),
            w_o: Q::pack(blk.w_o.as_slice(), d, d),
            o_bias: blk.o_bias.duplicate(),
            mlp_gate: Q::pack(blk.mlp_gate_w.as_slice(), inter, d),
            mlp_gate_b: blk.mlp_gate_b.duplicate(),
            mlp_up: Q::pack(blk.mlp_up_w.as_slice(), inter, d),
            mlp_up_b: blk.mlp_up_b.duplicate(),
            mlp_down: Q::pack(blk.mlp_down_w.as_slice(), d, inter),
            mlp_down_b: blk.mlp_down_b.duplicate(),
            scale1: blk.scale1.duplicate(),
            scale2: blk.scale2.duplicate(),
        }
    }

    /// `x` has shape `[seq_len, dim]` (flat, row-major). Returns same shape.
    pub fn forward<M: Math<T>>(&self, x: &[T], seq_len: usize) -> (r: Vec<T>)
        requires
            scalar::mathematics::<T, M>(),
            packed::packing::<T, Q>(),
            self.wf(),
            x@.len() == seq_len * self.dim,
        ensures
            r@ == self.output::<M>(x@, seq_len),
            r@.len() == seq_len * self.dim,
    {
        let d = self.dim;
        let inter = self.intermediate;
        let eps = M::from_binary64(self.layer_norm_eps.bits);
        proof {
            roberta::lemma_heads_fill(d, self.num_heads);
            vstd::arithmetic::div_mod::lemma_mod_self_0(self.num_heads as int);
        }
        // Attention sub-layer.
        let h1 = layernorm_with_bias::<T, M>(
            x,
            self.norm1_w.as_slice(),
            self.norm1_b.as_slice(),
            eps,
            d,
            seq_len,
        );
        let n1 = h1.as_slice();
        let q = packed_linear(&self.w_q, n1, self.q_bias.as_slice(), seq_len, d, d);
        let k = packed_linear(&self.w_k, n1, self.k_bias.as_slice(), seq_len, d, d);
        let v = packed_linear(&self.w_v, n1, self.v_bias.as_slice(), seq_len, d, d);
        let layout = HeadLayout {
            num_heads: self.num_heads,
            num_kv_heads: self.num_heads,
            head_dim: d / self.num_heads,
        };
        let attn = bidirectional_attention::<T, M>(
            layout,
            q.as_slice(),
            k.as_slice(),
            v.as_slice(),
            seq_len,
        );
        let attn_out = packed_linear(
            &self.w_o,
            attn.as_slice(),
            self.o_bias.as_slice(),
            seq_len,
            d,
            d,
        );
        let y = add_scaled(x, self.scale1.as_slice(), attn_out.as_slice(), d, seq_len);
        // Feed-forward sub-layer.
        let h2 = layernorm_with_bias::<T, M>(
            y.as_slice(),
            self.norm2_w.as_slice(),
            self.norm2_b.as_slice(),
            eps,
            d,
            seq_len,
        );
        let n2 = h2.as_slice();
        let raw = packed_linear(
            &self.mlp_gate,
            n2,
            self.mlp_gate_b.as_slice(),
            seq_len,
            d,
            inter,
        );
        let gate = activate_all::<T, M>(Activation::Silu, raw.as_slice());
        let up = packed_linear(&self.mlp_up, n2, self.mlp_up_b.as_slice(), seq_len, d, inter);
        let fused = mul_vecs(gate.as_slice(), up.as_slice());
        let down = packed_linear(
            &self.mlp_down,
            fused.as_slice(),
            self.mlp_down_b.as_slice(),
            seq_len,
            inter,
            d,
        );
        add_scaled(y.as_slice(), self.scale2.as_slice(), down.as_slice(), d, seq_len)
    }

    /// The bytes of all packed matrices.
    pub open spec fn packed_bytes(&self) -> nat {
        packed::bytes_of::<T, Q>(self.w_q) as nat + packed::bytes_of::<T, Q>(self.w_k) as nat
            + packed::bytes_of::<T, Q>(self.w_v) as nat + packed::bytes_of::<T, Q>(
            self.w_o,
        ) as nat + packed::bytes_of::<T, Q>(self.mlp_gate) as nat + packed::bytes_of::<T, Q>(
            self.mlp_up,
        ) as nat + packed::bytes_of::<T, Q>(self.mlp_down) as nat
    }

    /// Total packed storage in bytes (linear weights only).
    pub fn q4_memory_bytes(&self) -> (r: usize)
        requires
            packed::packing::<T, Q>(),
            self.packed_bytes() <= usize::MAX,
        ensures
            r == self.packed_bytes(),
    {
        self.w_q.memory_bytes() + self.w_k.memory_bytes() + self.w_v.memory_bytes()
            + self.w_o.memory_bytes() + self.mlp_gate.memory_bytes() + self.mlp_up.memory_bytes()
            + self.mlp_down.memory_bytes()
    }
}

pub struct Q4CodeDeltaTokHead<T, Q> {
    pub config: CodeDeltaTokConfig,
    pub z_embed: AlignedBuffer<T>,
    pub pos_prev: AlignedBuffer<T>,
    pub pos_next: AlignedBuffer<T>,
    pub pos_z: AlignedBuffer<T>,
    pub encoder: Vec<Q4DeltaTokBlock<T, Q>>,
    pub enc_norm_w: AlignedBuffer<T>,
    pub enc_norm_b: AlignedBuffer<T>,
    pub decoder: Vec<Q4DeltaTokBlock<T, Q>>,
    pub dec_norm_w: AlignedBuffer<T>,
    pub dec_norm_b: AlignedBuffer<T>,
    pub out_proj: Q,
    pub out_proj_b: AlignedBuffer<T>,
}

/// Every block is the packed form of its counterpart.
pub open spec fn stack_packed_from<T: Scalar, Q: PackedLinear<T>>(
    packed: Seq<Q4DeltaTokBlock<T, Q>>,
    blocks: Seq<DeltaTokBlock<T>>,
) -> bool {
    &&& packed.len() == blocks.len()
    &&& forall|i: int| 0 <= i < packed.len() ==> (#[trigger] packed[i]).is_packed_from(blocks[i])
}

/// All blocks of a stack take rows of `d` elements.
pub open spec fn stack_wf<T: Scalar, Q: PackedLinear<T>>(
    blocks: Seq<Q4DeltaTokBlock<T, Q>>,
    d: nat,
) -> bool {
    forall|i: int| 0 <= i < blocks.len() ==> (#[trigger] blocks[i]).wf() && blocks[i].dim == d
}

/// Rows after the first `n` blocks of a stack.
pub open spec fn stacked<T: Scalar, M: Math<T>, Q: PackedLinear<T>>(
    blocks: Seq<Q4DeltaTokBlock<T, Q>>,
    x: Seq<T>,
    rows: usize,
    n: nat,
) -> Seq<T>
    decreases n,
{
    if n == 0 {
        x
    } else {
        blocks[n - 1].output::<M>(stacked::<T, M, Q>(blocks, x, rows, (n - 1) as nat), rows)
    }
}

/// The bytes of the packed matrices of the first `n` blocks.
pub open spec fn stack_bytes<T: Scalar, Q: PackedLinear<T>>(
    blocks: Seq<Q4DeltaTokBlock<T, Q>>,
    n: nat,
) -> nat
    decreases n,
{
    if n == 0 {
        0
    } else {
        stack_bytes(blocks, (n - 1) as nat) + blocks[n - 1].packed_bytes()
    }
}

proof fn lemma_bytes_grow<T: Scalar, Q: PackedLinear<T>>(
    blocks: Seq<Q4DeltaTokBlock<T, Q>>,
    m: nat,
    n: nat,
)
    requires
        m <= n,
    ensures
        stack_bytes(blocks, m) <= stack_bytes(blocks, n),
    decreases n,
{
    if m < n {
        lemma_bytes_grow(blocks, m, (n - 1) as nat);
    }
}

/// Packs every block of a stack.
fn pack_stack<T: Scalar, Q: PackedLinear<T>>(blocks: &Vec<DeltaTokBlock<T>>) -> (r: Vec<
    Q4DeltaTokBlock<T, Q>,
>)
    requires
        packed::packing::<T, Q>(),
    ensures
        stack_packed_from(r@, blocks@),
        forall|d: nat| #[trigger]
            code_deltatok::stack_wf(blocks@, d) ==> stack_wf(r@, d),
{
    let mut out: Vec<Q4DeltaTokBlock<T, Q>> = Vec::with_capacity(blocks.len());
    for n in 0..blocks.len()
        invariant
            packed::packing::<T, Q>(),
            out@.len() == n,
            forall|i: int| 0 <= i < n ==> (#[trigger] out@[i]).is_packed_from(blocks@[i]),
            forall|i: int| 0 <= i < n && blocks@[i].wf() ==> (#[trigger] out@[i]).wf(),
    {
        out.push(Q4DeltaTokBlock::from_fp32(&blocks[n]));
    }
    assert forall|d: nat| #[trigger]
        code_deltatok::stack_wf(blocks@, d) implies stack_wf(out@, d) by {
        assert forall|i: int| 0 <= i < out@.len() implies (#[trigger] out@[i]).wf()
            && out@[i].dim == d by {
            assert(blocks@[i].wf());
            assert(out@[i].is_packed_from(blocks@[i]));
        }
    }
    out
}

/// Runs rows through a stack of blocks.
fn run_stack<T: Scalar, M: Math<T>, Q: PackedLinear<T>>(
    blocks: &Vec<Q4DeltaTokBlock<T, Q>>,
    x: Vec<T>,
    rows: usize,
    d: usize,
) -> (r: Vec<T>)
    requires
        scalar::mathematics::<T, M>(),
        packed::packing::<T, Q>(),
        stack_wf(blocks@, d as nat),
        x@.len() == rows * d,
    ensures
        r@ == stacked::<T, M, Q>(blocks@, x@, rows, blocks@.len()),
        r@.len() == rows * d,
{
    let ghost x0 = x@;
    let mut h = x;
    for i in 0..blocks.len()
        invariant
            scalar::mathematics::<T, M>(),
            packed::packing::<T, Q>(),
            stack_wf(blocks@, d as nat),
            h@.len() == rows * d,
            h@ == stacked::<T, M, Q>(blocks@, x0, rows, i as nat),
    {
        assert(blocks@[i as int].wf());
        h = blocks[i].forward::<M>(h.as_slice(), rows);
    }
    h
}

/// The bytes of the packed matrices of a stack.
fn count_stack_bytes<T: Scalar, Q: PackedLinear<T>>(blocks: &Vec<Q4DeltaTokBlock<T, Q>>) -> (r:
    usize)
    requires
        packed::packing::<T, Q>(),
        stack_bytes(blocks@, blocks@.len()) <= usize::MAX,
    ensures
        r == stack_bytes(blocks@, blocks@.len()),
{
    let mut sum: usize = 0;
    for i in 0..blocks.len()
        invariant
            packed::packing::<T, Q>(),
            stack_bytes(blocks@, blocks@.len()) <= usize::MAX,
            sum == stack_bytes(blocks@, i as nat),
    {
        proof {
            lemma_bytes_grow(blocks@, (i + 1) as nat, blocks@.len());
        }
        sum = sum + blocks[i].q4_memory_bytes();
    }
    sum
}

impl<T: Scalar, Q: PackedLinear<T>> Q4CodeDeltaTokHead<T, Q> {
    pub open spec fn parts(&self) -> HeadParts<T> {
        code_deltatok::parts_of(self.z_embed@, self.pos_z@, self.pos_prev@, self.pos_next@)
    }

    pub open spec fn eps<M: Math<T>>(&self) -> T {
        scalar::binary64_of::<T, M>(self.config.layer_norm_eps.bits)
    }

    /// The weights have their sizes.
    pub open spec fn wf(&self) -> bool {
        let d = self.config.feature_dim as nat;
        let k = self.config.num_delta_tokens as nat;
        &&& k + 2 <= usize::MAX
        &&& self.parts().fits(k, d)
        &&& stack_wf(self.encoder@, d)
        &&& stack_wf(self.decoder@, d)
        &&& d <= self.enc_norm_w@.len()
        &&& d <= self.enc_norm_b@.len()
        &&& d <= self.dec_norm_w@.len()
        &&& d <= self.dec_norm_b@.len()
        &&& packed::maps_rows::<T, Q>(self.out_proj, d, d)
        &&& self.out_proj_b@.len() == 0 || d <= self.out_proj_b@.len()
    }

    /// The packed form of a head: its matrices packed, all else the same.
    pub open spec fn is_packed_from(&self, h: CodeDeltaTokHead<T>) -> bool {
        let d = h.config.feature_dim;
        &&& self.config == h.config
        &&& self.parts() == h.parts()
        &&& stack_packed_from(self.encoder@, h.encoder@)
        &&& self.enc_norm_w@ == h.enc_norm_w@
        &&& self.enc_norm_b@ == h.enc_norm_b@
        &&& stack_packed_from(self.decoder@, h.decoder@)
        &&& self.dec_norm_w@ == h.dec_norm_w@
        &&& self.dec_norm_b@ == h.dec_norm_b@
        &&& self.out_proj == packed::packed_of::<T, Q>(h.out_proj_w@, d, d)
        &&& self.out_proj_b@ == h.out_proj_b@
    }

    /// The delta tokens of a pair of features.
    pub open spec fn delta_of<M: Math<T>>(&self, h_b: Seq<T>, h_a: Seq<T>) -> Seq<T> {
        let d = self.config.feature_dim as nat;
        let k = self.config.num_delta_tokens as nat;
        let rows = stacked::<T, M, Q>(
            self.encoder@,
            self.parts().encoder_input(h_b, h_a, k, d),
            (k + 2) as usize,
            self.encoder@.len(),
        );
        ops::layer_norm_bias_of::<T, M>(
            rows,
            self.enc_norm_w@,
            self.enc_norm_b@,
            self.eps::<M>(),
            d,
            k + 2,
        ).take((k * d) as int)
    }

    /// The after-state that delta tokens and a before-state stand for.
    pub open spec fn reconstruction<M: Math<T>>(&self, delta: Seq<T>, h_b: Seq<T>) -> Seq<T> {
        let d = self.config.feature_dim as nat;
        let k = self.config.num_delta_tokens as nat;
        let rows = stacked::<T, M, Q>(
            self.decoder@,
            self.parts().decoder_input(delta, h_b, d),
            (k + 1) as usize,
            self.decoder@.len(),
        );
        let normed = ops::layer_norm_bias_of::<T, M>(
            rows,
            self.dec_norm_w@,
            self.dec_norm_b@,
            self.eps::<M>(),
            d,
            k + 1,
        );
        packed::packed_linear_of(
            self.out_proj,
            ops::row(normed, k as int, d as int),
            self.out_proj_b@,
            1,
            d,
        )
    }

    /// Packs a head in memory. The source head is left untouched.
    pub fn from_fp32(h: &CodeDeltaTokHead<T>) -> (r: Self)
        requires
            packed::packing::<T, Q>(),
        ensures
            r.is_packed_from(*h),
            h.wf() ==> r.wf(),
    {
        let d = h.config.feature_dim;
        let r = Q4CodeDeltaTokHead {
            config: h.config,
            z_embed: h.z_embed.duplicate(),
            pos_prev: h.pos_prev.duplicate(),
            pos_next: h.pos_next.duplicate(),
            pos_z: h.pos_z.duplicate(),
            encoder: pack_stack::<T, Q>(&h.encoder),
            enc_norm_w: h.enc_norm_w.duplicate(),
            enc_norm_b: h.enc_norm_b.duplicate(),
            decoder: pack_stack::<T, Q>(&h.decoder),
            dec_norm_w: h.dec_norm_w.duplicate(),
            dec_norm_b: h.dec_norm_b.duplicate(),
            out_proj: Q::pack(h.out_proj_w.as_slice(), d, d),
            out_proj_b: h.out_proj_b.duplicate(),
        };
        proof {
            let n = d as nat;
            assert(code_deltatok::stack_wf(h.encoder@, n) ==> stack_wf(r.encoder@, n));
            assert(code_deltatok::stack_wf(h.decoder@, n) ==> stack_wf(r.decoder@, n));
        }
        r
    }

    /// Encode `(h_b, h_a)` pair (each flat `[D]`) into a flat `[K*D]`
    /// delta-token buffer.
    pub fn encode<M: Math<T>>(&self, h_b: &[T], h_a: &[T]) -> (r: Vec<T>)
        requires
            scalar::mathematics::<T, M>(),
            packed::packing::<T, Q>(),
            self.wf(),
            self.config.feature_dim <= h_b@.len(),
            self.config.feature_dim <= h_a@.len(),
        ensures
            r@ == self.delta_of::<M>(h_b@, h_a@),
            r@.len() == self.config.num_delta_tokens * self.config.feature_dim,
    {
        let d = self.config.feature_dim;
        let k = self.config.num_delta_tokens;
        let rows = encoder_rows(
            self.z_embed.as_slice(),
            self.pos_z.as_slice(),
            self.pos_prev.as_slice(),
            self.pos_next.as_slice(),
            h_b,
            h_a,
            k,
            d,
        );
        let h = run_stack::<T, M, Q>(&self.encoder, rows, k + 2, d);
        let normed = layernorm_with_bias::<T, M>(
            h.as_slice(),
            self.enc_norm_w.as_slice(),
            self.enc_norm_b.as_slice(),
            M::from_binary64(self.config.layer_norm_eps.bits),
            d,
            k + 2,
        );
        first_rows(normed.as_slice(), k, d)
    }

    /// Decode `(delta, h_b)` back into a flat `[D]` reconstruction of the
    /// after-state.
    pub fn decode<M: Math<T>>(&self, delta: &[T], h_b: &[T]) -> (r: Vec<T>)
        requires
            scalar::mathematics::<T, M>(),
            packed::packing::<T, Q>(),
            self.wf(),
            delta@.len() == self.config.num_delta_tokens * self.config.feature_dim,
            self.config.feature_dim <= h_b@.len(),
        ensures
            r@ == self.reconstruction::<M>(delta@, h_b@),
            r@.len() == self.config.feature_dim,
    {
        let d = self.config.feature_dim;
        let k = self.config.num_delta_tokens;
        let rows = decoder_rows(delta, self.pos_prev.as_slice(), h_b, d);
        assert((k + 1) * d == k * d + d) by (nonlinear_arith);
        let h = run_stack::<T, M, Q>(&self.decoder, rows, k + 1, d);
        let normed = layernorm_with_bias::<T, M>(
            h.as_slice(),
            self.dec_norm_w.as_slice(),
            self.dec_norm_b.as_slice(),
            M::from_binary64(self.config.layer_norm_eps.bits),
            d,
            k + 1,
        );
        packed_linear(
            &self.out_proj,
            row_slice(normed.as_slice(), k, d),
            self.out_proj_b.as_slice(),
            1,
            d,
            d,
        )
    }

    /// The bytes of all packed matrices.
    pub open spec fn packed_bytes(&self) -> nat {
        packed::bytes_of::<T, Q>(self.out_proj) as nat + stack_bytes(
            self.encoder@,
            self.encoder@.len(),
        ) + stack_bytes(self.decoder@, self.decoder@.len())
    }

    /// Total packed storage across all linear weights.
    pub fn q4_memory_bytes(&self) -> (r: usize)
        requires
            packed::packing::<T, Q>(),
            self.packed_bytes() <= usize::MAX,
        ensures
            r == self.packed_bytes(),
    {
        let own = self.out_proj.memory_bytes();
        let encoder = count_stack_bytes(&self.encoder);
        let decoder = count_stack_bytes(&self.decoder);
        own + encoder + decoder
    }
}

} // verus!
