//! The layers of the hybrid model and the model itself.

use vstd::prelude::*;

use crate::attention;
use crate::config::RoPEStyle;
use crate::laws::equations;
use crate::laws::kernels;
use crate::models::ssm::deltanet_state;
use crate::models::ssm::deltanet_state::DeltaNetView;
use crate::models::ssm::deltanet;
use crate::models::ssm::ffn;
use crate::models::ssm::ffn::{FfnPacked, FfnWeights};
use crate::models::ssm::hybrid::config::{HybridConfig, LayerKind};
use crate::models::ssm::hybrid::deltanet_layer::DeltaNetDecoderLayer;
use crate::models::ssm::hybrid::gqa_layer;
use crate::models::ssm::hybrid::gqa_layer::{GqaDecoderLayer, KvView, RopeTables};
use crate::models::ssm::hybrid::livconv_layer::LivConvDecoderLayer;
use crate::models::ssm::hybrid::model;
use crate::models::ssm::hybrid::model::{HybridLayer, HybridModel, LayerView};
use crate::models::ssm::hybrid::weights;
use crate::ops;
use crate::packed;
use crate::packed::PackedLinear;
use crate::scalar;
use crate::scalar::{Math, Scalar};
use crate::text;
use crate::weights::TensorMap;

verus! {

/// The rows that a DeltaNet layer goes through for one token: queries, keys and
/// values in this order where there are three, one memory for each head.
pub struct DeltaNetSteps<T> {
    pub normed: Seq<T>,
    pub projected: Seq<T>,
    pub windows: (Seq<T>, Seq<T>, Seq<T>),
    pub rows: (Seq<T>, Seq<T>, Seq<T>),
    pub alpha: Seq<T>,
    pub beta: Seq<T>,
    pub queries: Seq<Seq<T>>,
    pub keys: Seq<Seq<T>>,
    pub memories: Seq<Seq<T>>,
    pub seen: Seq<T>,
    pub seen_normed: Seq<T>,
    pub gate: Seq<T>,
    pub gate_active: Seq<T>,
    pub gated: Seq<T>,
    pub out: Seq<T>,
}

/// Head `h` remembers its value under its key of unit length, and reads with
/// its query of unit length.
pub open spec fn is_deltanet_head<T: Scalar, M: Math<T>>(
    r: DeltaNetSteps<T>,
    s: DeltaNetView<T>,
    d: nat,
    h: int,
) -> bool {
    &&& equations::is_unit::<T, M>(r.queries[h], equations::line(r.rows.0, h, d as int))
    &&& equations::is_unit::<T, M>(r.keys[h], equations::line(r.rows.1, h, d as int))
    &&& equations::is_remembered(
        r.memories[h],
        equations::line(s.memory, h, (d * d) as int),
        r.keys[h],
        equations::line(r.rows.2, h, d as int),
        equations::sigmoid::<T, M>(r.alpha[h]),
        equations::sigmoid::<T, M>(r.beta[h]),
        d,
    )
    &&& forall|i: int|
        #![trigger r.seen[h * d + i]]
        0 <= i < d ==> r.seen[h * d + i] == equations::sigma(
            d,
            |j: int| scalar::times(r.memories[h][i * d + j], r.queries[h][j]),
        )
}

/// The rows are what a DeltaNet layer computes from the state `s` and the row
/// `x`.
pub open spec fn are_deltanet_steps<T: Scalar, M: Math<T>>(
    r: DeltaNetSteps<T>,
    layer: DeltaNetDecoderLayer<T>,
    s: DeltaNetView<T>,
    x: Seq<T>,
) -> bool {
    let (hidden, nh, d) = (layer.hidden_size as nat, layer.num_heads as nat, layer.head_dim as nat);
    let inner = nh * d;
    let kernel = layer.conv_kernel as nat;
    let none = Seq::<T>::empty();
    let (q, k, v) = (
        equations::line(r.projected, 0, inner as int),
        equations::line(r.projected, 1, inner as int),
        equations::line(r.projected, 2, inner as int),
    );
    &&& equations::is_rms::<T, M>(r.normed, x, layer.attn_norm_weight@, layer.norm_eps)
    &&& equations::is_linear(r.projected, r.normed, layer.qkv_weight@, none, hidden, 3 * inner)
    &&& equations::is_window(r.windows.0, s.q_conv, q, kernel)
    &&& equations::is_window(r.windows.1, s.k_conv, k, kernel)
    &&& equations::is_window(r.windows.2, s.v_conv, v, kernel)
    &&& equations::is_convolved(
        r.rows.0,
        r.windows.0,
        layer.q_conv_weight@,
        layer.q_conv_bias@,
        inner,
        kernel,
    )
    &&& equations::is_convolved(
        r.rows.1,
        r.windows.1,
        layer.k_conv_weight@,
        layer.k_conv_bias@,
        inner,
        kernel,
    )
    &&& equations::is_convolved(
        r.rows.2,
        r.windows.2,
        layer.v_conv_weight@,
        layer.v_conv_bias@,
        inner,
        kernel,
    )
    &&& equations::is_linear(r.alpha, r.normed, layer.alpha_proj_weight@, none, hidden, nh)
    &&& equations::is_linear(r.beta, r.normed, layer.beta_proj_weight@, none, hidden, nh)
    &&& r.seen.len() == inner
    &&& forall|h: int| 0 <= h < nh ==> #[trigger] is_deltanet_head::<T, M>(r, s, d, h)
    &&& equations::is_rms::<T, M>(r.seen_normed, r.seen, layer.o_norm_weight@, layer.norm_eps)
    &&& equations::is_linear(r.gate, r.normed, layer.gate_proj_weight@, none, hidden, inner)
    &&& equations::is_silu::<T, M>(r.gate_active, r.gate)
    &&& equations::is_product(r.gated, r.seen_normed, r.gate_active)
    &&& equations::is_linear(r.out, r.gated, layer.o_proj_weight@, none, inner, hidden)
}

/// A DeltaNet layer adds to its input row the gated projection of what the heads
/// read, and to that sum its feed-forward network. Its state becomes the heads'
/// memories and the windows that end with the new elements.
#[verifier::spinoff_prover]
#[verifier::rlimit(60)]
pub proof fn lemma_deltanet_layer<T: Scalar, M: Math<T>>(
    r: DeltaNetSteps<T>,
    layer: DeltaNetDecoderLayer<T>,
    s: DeltaNetView<T>,
    x: Seq<T>,
    mid: Seq<T>,
    i: int,
)
    requires
        layer.wf(),
        layer.takes(s),
        x.len() == layer.hidden_size,
        are_deltanet_steps::<T, M>(r, layer, s, x),
        equations::is_sum(mid, x, r.out),
        0 <= i < layer.hidden_size,
    ensures
        layer.output::<M>(s, x).len() == layer.hidden_size,
        layer.output::<M>(s, x)[i] == scalar::plus(
            scalar::plus(x[i], r.out[i]),
            ffn::swiglu_row::<T, M>(
                FfnWeights {
                    norm: layer.ffn_norm_weight@,
                    gate: layer.ffn_gate_weight@,
                    up: layer.ffn_up_weight@,
                    down: layer.ffn_down_weight@,
                },
                mid,
                layer.norm_eps,
                layer.hidden_size as nat,
                layer.intermediate_size as nat,
            )[i],
        ),
        ({
            let after = layer.after::<M>(s, layer.input::<M>(x));
            let d = layer.head_dim;
            &&& after.q_conv == r.windows.0
            &&& after.k_conv == r.windows.1
            &&& after.v_conv == r.windows.2
            &&& forall|h: int|
                0 <= h < layer.num_heads ==> #[trigger] equations::line(after.memory, h, d * d)
                    == r.memories[h]
        }),
{
    let (hidden, nh, d) = (layer.hidden_size as nat, layer.num_heads as nat, layer.head_dim as nat);
    let inner = nh * d;
    let kernel = layer.conv_kernel as nat;
    let none = Seq::<T>::empty();
    let n = r.normed;
    let (q, k, v) = (
        equations::line(r.projected, 0, inner as int),
        equations::line(r.projected, 1, inner as int),
        equations::line(r.projected, 2, inner as int),
    );
    kernels::lemma_rms::<T, M>(n, x, layer.attn_norm_weight@, layer.norm_eps);
    kernels::lemma_linear(r.projected, n, layer.qkv_weight@, none, hidden, 3 * inner);
    assert(q =~= layer.raw(n, 0));
    assert(k =~= layer.raw(n, 1));
    assert(v =~= layer.raw(n, 2));
    kernels::lemma_convolution(
        r.windows.0,
        r.rows.0,
        s.q_conv,
        q,
        layer.q_conv_weight@,
        layer.q_conv_bias@,
        kernel,
    );
    kernels::lemma_convolution(
        r.windows.1,
        r.rows.1,
        s.k_conv,
        k,
        layer.k_conv_weight@,
        layer.k_conv_bias@,
        kernel,
    );
    kernels::lemma_convolution(
        r.windows.2,
        r.rows.2,
        s.v_conv,
        v,
        layer.v_conv_weight@,
        layer.v_conv_bias@,
        kernel,
    );
    kernels::lemma_linear(r.alpha, n, layer.alpha_proj_weight@, none, hidden, nh);
    kernels::lemma_linear(r.beta, n, layer.beta_proj_weight@, none, hidden, nh);
    assert(r.rows.0 == layer.query_row(s, n));
    assert(r.rows.1 == layer.key_row(s, n));
    assert(r.rows.2 == layer.value_row(s, n));
    let fm = |h: int| layer.head_memory::<M>(s, n, h);
    let fr = |h: int|
        deltanet::read_memory(
            layer.head_memory::<M>(s, n, h),
            layer.head_query::<M>(s, n, h),
            d,
        );
    assert forall|h: int| 0 <= h < nh implies #[trigger] fm(h) == r.memories[h] && fm(h).len() == d
        * d && layer.head_query::<M>(s, n, h) == r.queries[h] by {
        assert(is_deltanet_head::<T, M>(r, s, d, h));
        ops::lemma_row_bounds(h, nh as int, d as int);
        ops::lemma_row_bounds(h, nh as int, (d * d) as int);
        assert(equations::line(r.rows.0, h, d as int) == ops::row(r.rows.0, h, d as int));
        assert(equations::line(r.rows.1, h, d as int) == ops::row(r.rows.1, h, d as int));
        assert(equations::line(r.rows.2, h, d as int) == ops::row(r.rows.2, h, d as int));
        assert(equations::line(s.memory, h, (d * d) as int) == ops::row(
            s.memory,
            h,
            (d * d) as int,
        ));
        kernels::lemma_unit::<T, M>(r.queries[h], ops::row(r.rows.0, h, d as int));
        kernels::lemma_unit::<T, M>(r.keys[h], ops::row(r.rows.1, h, d as int));
        kernels::lemma_memory(
            r.memories[h],
            ops::row(s.memory, h, (d * d) as int),
            r.keys[h],
            ops::row(r.rows.2, h, d as int),
            equations::sigmoid::<T, M>(r.alpha[h]),
            equations::sigmoid::<T, M>(r.beta[h]),
            d,
            r.queries[h],
        );
    }
    ops::lemma_blocks_rows(nh, fm, d * d);
    let after = layer.after::<M>(s, n);
    assert(after.memory == ops::blocks(nh, fm));
    assert forall|h: int| 0 <= h < nh implies #[trigger] equations::line(
        after.memory,
        h,
        layer.head_dim * layer.head_dim,
    ) == r.memories[h] by {
        ops::lemma_row_bounds(h, nh as int, (d * d) as int);
        assert(ops::row(after.memory, h, (d * d) as int) == fm(h));
    }
    let seen = layer.seen::<M>(s, n);
    assert(seen == ops::blocks(nh, fr));
    ops::lemma_blocks_rows(nh, fr, d);
    assert forall|h: int| 0 <= h < nh implies #[trigger] ops::row(seen, h, d as int) == ops::row(
        r.seen,
        h,
        d as int,
    ) by {
        assert(is_deltanet_head::<T, M>(r, s, d, h));
        assert(fm(h) == r.memories[h]);
        ops::lemma_row_bounds(h, nh as int, d as int);
        assert(ops::row(seen, h, d as int) == fr(h));
        kernels::lemma_memory(
            fm(h),
            fm(h),
            r.keys[h],
            r.keys[h],
            r.alpha[h],
            r.beta[h],
            d,
            r.queries[h],
        );
        assert forall|e: int| 0 <= e < d implies fr(h)[e] == ops::row(r.seen, h, d as int)[e] by {
            assert(ops::row(r.seen, h, d as int)[e] == r.seen[h * d + e]);
        }
        assert(fr(h) =~= ops::row(r.seen, h, d as int));
    }
    kernels::lemma_same_by_lines(seen, r.seen, nh, d);
    kernels::lemma_rms::<T, M>(r.seen_normed, r.seen, layer.o_norm_weight@, layer.norm_eps);
    kernels::lemma_linear(r.gate, n, layer.gate_proj_weight@, none, hidden, inner);
    kernels::lemma_activations::<T, M>(r.gate_active, r.gate);
    kernels::lemma_elementwise(r.gated, r.seen_normed, r.gate_active);
    kernels::lemma_linear(r.out, r.gated, layer.o_proj_weight@, none, inner, hidden);
    kernels::lemma_elementwise(mid, x, r.out);
}

/// `y[h, j] = x[h, j] * (w[j] / rms(x[h]))`.
pub open spec fn is_query_normed<T: Scalar, M: Math<T>>(
    y: Seq<T>,
    x: Seq<T>,
    w: Seq<T>,
    heads: nat,
    d: nat,
    eps: T,
) -> bool {
    &&& y.len() == heads * d
    &&& forall|h: int, j: int|
        #![trigger y[h * d + j]]
        0 <= h < heads && 0 <= j < d ==> y[h * d + j] == scalar::times(
            x[h * d + j],
            scalar::times(
                w[j],
                equations::inverse_rms::<T, M>(d, |i: int| x[h * d + i], eps),
            ),
        )
}

proof fn lemma_query_normed<T: Scalar, M: Math<T>>(
    y: Seq<T>,
    x: Seq<T>,
    w: Seq<T>,
    heads: nat,
    d: nat,
    eps: T,
)
    requires
        x.len() == heads * d,
    ensures
        is_query_normed::<T, M>(y, x, w, heads, d, eps) <==> y == gqa_layer::normed_heads::<T, M>(
            x,
            w,
            heads,
            d,
            eps,
        ),
{
    let z = gqa_layer::normed_heads::<T, M>(x, w, heads, d, eps);
    let f = |h: int| gqa_layer::normed_head::<T, M>(ops::row(x, h, d as int), w, eps);
    assert forall|h: int| 0 <= h < heads implies #[trigger] f(h).len() == d by {
        ops::lemma_row_bounds(h, heads as int, d as int);
    }
    ops::lemma_blocks_rows(heads, f, d);
    assert(z == ops::blocks(heads, f));
    assert forall|h: int, j: int|
        #![trigger z[h * d + j]]
        0 <= h < heads && 0 <= j < d implies z[h * d + j] == scalar::times(
        x[h * d + j],
        scalar::times(w[j], equations::inverse_rms::<T, M>(d, |i: int| x[h * d + i], eps)),
    ) by {
        ops::lemma_row_bounds(h, heads as int, d as int);
        assert(ops::row(z, h, d as int) == f(h));
        assert(ops::row(z, h, d as int)[j] == z[h * d + j]);
        kernels::lemma_inverse_rms::<T, M>(
            ops::row(x, h, d as int),
            |i: int| x[h * d + i],
            eps,
        );
    }
    if is_query_normed::<T, M>(y, x, w, heads, d, eps) {
        kernels::lemma_same_by_heads(y, z, heads, d);
    }
}

/// The rows that an attention layer of the hybrid model goes through: each of
/// the queries and keys as projected, with its heads normalised, and turned to
/// its position.
pub struct GqaSteps<T> {
    pub normed: Seq<T>,
    pub query: (Seq<T>, Seq<T>, Seq<T>),
    pub key: (Seq<T>, Seq<T>, Seq<T>),
    pub value: Seq<T>,
}

/// The rows are what an attention layer computes for the row `x` at position
/// `pos`, with the packed maps in the place of their weights where `q4` is set.
pub open spec fn are_gqa_steps<T: Scalar, M: Math<T>, Q: PackedLinear<T>>(
    r: GqaSteps<T>,
    layer: GqaDecoderLayer<T, Q>,
    x: Seq<T>,
    tables: RopeTables<T>,
    pos: int,
    q4: bool,
) -> bool {
    let (h, d) = (layer.hidden_size as nat, layer.head_dim as nat);
    let (nq, nk) = (layer.num_q_heads as nat, layer.num_kv_heads as nat);
    let none = None::<Q>;
    let (cos, sin) = (tables.cos, tables.sin);
    let style = RoPEStyle::RotateHalf;
    let wq = if q4 {
        layer.q4_wq
    } else {
        none
    };
    let wk = if q4 {
        layer.q4_wk
    } else {
        none
    };
    let wv = if q4 {
        layer.q4_wv
    } else {
        none
    };
    &&& equations::is_rms::<T, M>(r.normed, x, layer.attn_norm_weight@, layer.norm_eps)
    &&& equations::is_gemv(r.query.0, r.normed, layer.w_q@, wq, h, nq * d)
    &&& is_query_normed::<T, M>(
        r.query.1,
        r.query.0,
        layer.q_norm_weight@,
        nq,
        d,
        layer.norm_eps,
    )
    &&& equations::is_turned(r.query.2, r.query.1, cos, sin, nq, d, pos, style)
    &&& equations::is_gemv(r.key.0, r.normed, layer.w_k@, wk, h, nk * d)
    &&& is_query_normed::<T, M>(r.key.1, r.key.0, layer.k_norm_weight@, nk, d, layer.norm_eps)
    &&& equations::is_turned(r.key.2, r.key.1, cos, sin, nk, d, pos, style)
    &&& equations::is_gemv(r.value, r.normed, layer.w_v@, wv, h, nk * d)
}

proof fn lemma_gqa_projections<T: Scalar, M: Math<T>, Q: PackedLinear<T>>(
    r: GqaSteps<T>,
    layer: GqaDecoderLayer<T, Q>,
    x: Seq<T>,
    tables: RopeTables<T>,
    pos: int,
    q4: bool,
)
    requires
        layer.wf(),
        x.len() == layer.hidden_size,
        0 <= pos,
        tables.covers((pos + 1) as nat, layer.head_dim as nat),
        are_gqa_steps::<T, M, Q>(r, layer, x, tables, pos, q4),
    ensures
        r.normed == layer.input::<M>(x),
        r.query.2.len() == layer.q_dim(),
        r.key.2.len() == layer.kv_dim(),
        r.value.len() == layer.kv_dim(),
        !q4 ==> {
            &&& r.query.2 == layer.placed_query::<M>(layer.raw_query(r.normed), tables, pos)
            &&& r.key.2 == layer.key_row::<M>(x, tables, pos)
            &&& r.value == layer.value_row::<M>(x)
        },
        q4 ==> {
            let h = layer.hidden_size as nat;
            &&& r.query.2 == layer.placed_query::<M>(
                packed::gemv_of(r.normed, layer.w_q@, layer.q4_wq, 1, h, layer.q_dim()),
                tables,
                pos,
            )
            &&& r.key.2 == layer.placed_key::<M>(
                packed::gemv_of(r.normed, layer.w_k@, layer.q4_wk, 1, h, layer.kv_dim()),
                tables,
                pos,
            )
            &&& r.value == packed::gemv_of(
                r.normed,
                layer.w_v@,
                layer.q4_wv,
                1,
                h,
                layer.kv_dim(),
            )
        },
{
    let (h, d) = (layer.hidden_size as nat, layer.head_dim as nat);
    let (nq, nk) = (layer.num_q_heads as nat, layer.num_kv_heads as nat);
    let (cos, sin) = (tables.cos, tables.sin);
    let style = RoPEStyle::RotateHalf;
    let n = r.normed;
    kernels::lemma_rms::<T, M>(n, x, layer.attn_norm_weight@, layer.norm_eps);
    if q4 {
        kernels::lemma_gemv(r.query.0, n, layer.w_q@, layer.q4_wq, h, nq * d);
        kernels::lemma_gemv(r.key.0, n, layer.w_k@, layer.q4_wk, h, nk * d);
        kernels::lemma_gemv(r.value, n, layer.w_v@, layer.q4_wv, h, nk * d);
    } else {
        kernels::lemma_linear(r.query.0, n, layer.w_q@, Seq::empty(), h, nq * d);
        kernels::lemma_linear(r.key.0, n, layer.w_k@, Seq::empty(), h, nk * d);
        kernels::lemma_linear(r.value, n, layer.w_v@, Seq::empty(), h, nk * d);
    }
    lemma_query_normed::<T, M>(
        r.query.1,
        r.query.0,
        layer.q_norm_weight@,
        nq,
        d,
        layer.norm_eps,
    );
    lemma_query_normed::<T, M>(r.key.1, r.key.0, layer.k_norm_weight@, nk, d, layer.norm_eps);
    kernels::lemma_turned(r.query.2, r.query.1, cos, sin, nq, d, pos, style);
    kernels::lemma_turned(r.key.2, r.key.1, cos, sin, nk, d, pos, style);
}

/// An attention layer adds to its input row the projection of what the row's
/// query sees of the first `n` keys and values, and to that sum its feed-forward
/// network.
pub proof fn lemma_gqa_layer<T: Scalar, M: Math<T>, Q: PackedLinear<T>>(
    r: GqaSteps<T>,
    layer: GqaDecoderLayer<T, Q>,
    x: Seq<T>,
    keys: Seq<T>,
    values: Seq<T>,
    n: nat,
    tables: RopeTables<T>,
    pos: int,
    seen: Seq<T>,
    out: Seq<T>,
    mid: Seq<T>,
    i: int,
)
    requires
        layer.wf(),
        x.len() == layer.hidden_size,
        0 <= pos,
        tables.covers((pos + 1) as nat, layer.head_dim as nat),
        n * layer.kv_dim() <= keys.len(),
        are_gqa_steps::<T, M, Q>(r, layer, x, tables, pos, false),
        equations::is_attention::<T, M>(
            seen,
            r.query.2,
            keys,
            values,
            layer.num_q_heads,
            layer.num_kv_heads,
            layer.head_dim,
            0,
            n,
        ),
        equations::is_linear(
            out,
            seen,
            layer.w_o@,
            Seq::empty(),
            layer.num_q_heads as nat * layer.head_dim as nat,
            layer.hidden_size as nat,
        ),
        equations::is_sum(mid, x, out),
        0 <= i < layer.hidden_size,
    ensures
        layer.key_row::<M>(x, tables, pos) == r.key.2,
        layer.value_row::<M>(x) == r.value,
        layer.output::<M>(x, keys, values, n, tables, pos).len() == layer.hidden_size,
        layer.output::<M>(x, keys, values, n, tables, pos)[i] == scalar::plus(
            scalar::plus(x[i], out[i]),
            ffn::swiglu_row::<T, M>(
                FfnWeights {
                    norm: layer.ffn_norm_weight@,
                    gate: layer.ffn_gate_weight@,
                    up: layer.ffn_up_weight@,
                    down: layer.ffn_down_weight@,
                },
                mid,
                layer.norm_eps,
                layer.hidden_size as nat,
                layer.intermediate_size as nat,
            )[i],
        ),
{
    lemma_gqa_projections::<T, M, Q>(r, layer, x, tables, pos, false);
    kernels::lemma_attention::<T, M>(seen, layer.spec_layout(), r.query.2, keys, values, 0, n);
    kernels::lemma_linear(
        out,
        seen,
        layer.w_o@,
        Seq::empty(),
        layer.q_dim(),
        layer.hidden_size as nat,
    );
    kernels::lemma_elementwise(mid, x, out);
}

/// One token's step through an attention layer: its key and value join the
/// cache, its query sees the whole cache, and each packed map takes the place of
/// its weights.
pub proof fn lemma_gqa_step<T: Scalar, M: Math<T>, Q: PackedLinear<T>>(
    r: GqaSteps<T>,
    layer: GqaDecoderLayer<T, Q>,
    s: KvView<T>,
    x: Seq<T>,
    tables: RopeTables<T>,
    pos: int,
    seen: Seq<T>,
    out: Seq<T>,
    mid: Seq<T>,
    i: int,
)
    requires
        layer.wf(),
        s.fits(layer.kv_dim()),
        x.len() == layer.hidden_size,
        0 <= pos,
        tables.covers((pos + 1) as nat, layer.head_dim as nat),
        are_gqa_steps::<T, M, Q>(r, layer, x, tables, pos, true),
        equations::is_attention::<T, M>(
            seen,
            r.query.2,
            s.keys + r.key.2,
            s.values + r.value,
            layer.num_q_heads,
            layer.num_kv_heads,
            layer.head_dim,
            0,
            s.len + 1,
        ),
        equations::is_gemv(
            out,
            seen,
            layer.w_o@,
            layer.q4_wo,
            layer.num_q_heads as nat * layer.head_dim as nat,
            layer.hidden_size as nat,
        ),
        equations::is_sum(mid, x, out),
        0 <= i < layer.hidden_size,
    ensures
        layer.state_after_one::<M>(s, x, tables, pos) == (KvView {
            keys: s.keys + r.key.2,
            values: s.values + r.value,
            len: s.len + 1,
        }),
        layer.output_one::<M>(s, x, tables, pos)[i] == scalar::plus(
            scalar::plus(x[i], out[i]),
            ffn::swiglu_packed::<T, M, Q>(
                FfnWeights {
                    norm: layer.ffn_norm_weight@,
                    gate: layer.ffn_gate_weight@,
                    up: layer.ffn_up_weight@,
                    down: layer.ffn_down_weight@,
                },
                FfnPacked {
                    gate: layer.q4_ffn_gate,
                    up: layer.q4_ffn_up,
                    down: layer.q4_ffn_down,
                },
                mid,
                1,
                layer.norm_eps,
                layer.hidden_size as nat,
                layer.intermediate_size as nat,
            )[i],
        ),
{
    lemma_gqa_projections::<T, M, Q>(r, layer, x, tables, pos, true);
    assert((s.len + 1) * layer.kv_dim() == s.len * layer.kv_dim() + layer.kv_dim())
        by (nonlinear_arith);
    kernels::lemma_attention::<T, M>(
        seen,
        layer.spec_layout(),
        r.query.2,
        s.keys + r.key.2,
        s.values + r.value,
        0,
        s.len + 1,
    );
    attention::lemma_row_output_len::<T, M>(
        layer.spec_layout(),
        r.query.2,
        s.keys + r.key.2,
        s.values + r.value,
        0,
        s.len + 1,
    );
    kernels::lemma_gemv(
        out,
        seen,
        layer.w_o@,
        layer.q4_wo,
        layer.q_dim(),
        layer.hidden_size as nat,
    );
    kernels::lemma_elementwise(mid, x, out);
    let w = ffn::weights_of(
        layer.ffn_norm_weight@,
        layer.ffn_gate_weight@,
        layer.ffn_up_weight@,
        layer.ffn_down_weight@,
    );
    lemma_swiglu_len::<T, M, Q>(
        w,
        layer.ffn_packed(),
        mid,
        layer.norm_eps,
        layer.hidden_size as nat,
        layer.intermediate_size as nat,
    );
}

proof fn lemma_swiglu_len<T: Scalar, M: Math<T>, Q: PackedLinear<T>>(
    w: FfnWeights<T>,
    q: FfnPacked<Q>,
    x: Seq<T>,
    eps: T,
    hidden: nat,
    inter: nat,
)
    requires
        w.fits(hidden, inter),
        q.fits::<T>(hidden, inter),
        x.len() == hidden,
    ensures
        ffn::swiglu_packed::<T, M, Q>(w, q, x, 1, eps, hidden, inter).len() == hidden,
{
    let f = |i: int| ops::rms_row::<T, M>(ops::row(x, i, hidden as int), w.norm, eps);
    assert(ops::row(x, 0, hidden as int) =~= x);
    assert(ops::blocks(0, f) =~= Seq::empty());
    assert(ops::blocks(1, f) =~= f(0)) by {
        reveal_with_fuel(ops::blocks, 2);
    }
    let n = ops::rms_norm_of::<T, M>(x, w.norm, eps, hidden, 1);
    packed::lemma_dense_row::<T, Q>(n, w.gate, hidden, inter);
    packed::lemma_dense_row::<T, Q>(n, w.up, hidden, inter);
    let gate = packed::gemv_of(n, w.gate, q.gate, 1, hidden, inter);
    let up = packed::gemv_of(n, w.up, q.up, 1, hidden, inter);
    let fused = ops::product_of(ops::all_activated::<T, M>(ops::Activation::Silu, gate), up);
    packed::lemma_dense_row::<T, Q>(fused, w.down, inter, hidden);
}

/// Row `t` of a sequence sees the cache and the rows of the sequence up to its
/// own position, each key at its own position.
pub proof fn lemma_gqa_rows<T: Scalar, M: Math<T>, Q: PackedLinear<T>>(
    layer: GqaDecoderLayer<T, Q>,
    s: KvView<T>,
    x: Seq<T>,
    rows: nat,
    tables: RopeTables<T>,
    pos: int,
    keys: Seq<T>,
    values: Seq<T>,
    t: int,
)
    requires
        layer.wf(),
        s.fits(layer.kv_dim()),
        s.len == pos,
        x.len() == rows * layer.hidden_size,
        tables.covers((pos + rows) as nat, layer.head_dim as nat),
        keys.len() == rows * layer.kv_dim(),
        values.len() == rows * layer.kv_dim(),
        forall|k: int|
            0 <= k < rows ==> #[trigger] equations::line(keys, k, layer.kv_dim() as int)
                == layer.key_row::<M>(
                equations::line(x, k, layer.hidden_size as int),
                tables,
                pos + k,
            ),
        forall|k: int|
            0 <= k < rows ==> #[trigger] equations::line(values, k, layer.kv_dim() as int)
                == layer.value_row::<M>(equations::line(x, k, layer.hidden_size as int)),
        0 <= t < rows,
    ensures
        layer.state_after::<M>(s, x, rows, tables, pos) == (KvView {
            keys: s.keys + keys,
            values: s.values + values,
            len: s.len + rows,
        }),
        equations::line(
            layer.outputs::<M>(s, x, rows, tables, pos),
            t,
            layer.hidden_size as int,
        ) == layer.output::<M>(
            equations::line(x, t, layer.hidden_size as int),
            s.keys + keys,
            s.values + values,
            (pos + t + 1) as nat,
            tables,
            pos + t,
        ),
{
    let h = layer.hidden_size as int;
    let w = layer.kv_dim();
    let half = layer.head_dim as int / 2;
    let fk = |k: int| layer.key_row::<M>(ops::row(x, k, h), tables, pos + k);
    let fv = |k: int| layer.value_row::<M>(ops::row(x, k, h));
    assert forall|k: int| 0 <= k < rows implies #[trigger] fk(k).len() == w by {
        ops::lemma_row_bounds(k, rows as int, w as int);
        ops::lemma_row_bounds(k, rows as int, h);
        assert(equations::line(keys, k, w as int) == fk(k));
    }
    ops::lemma_blocks_rows(rows, fk, w);
    ops::lemma_blocks_rows(rows, fv, w);
    let ks = layer.key_rows::<M>(x, rows, tables, pos);
    let vs = layer.value_rows::<M>(x, rows);
    assert(ks == ops::blocks(rows, fk));
    assert(vs == ops::blocks(rows, fv));
    assert forall|k: int| 0 <= k < rows implies #[trigger] ops::row(ks, k, w as int) == ops::row(
        keys,
        k,
        w as int,
    ) by {
        ops::lemma_row_bounds(k, rows as int, w as int);
        ops::lemma_row_bounds(k, rows as int, h);
        assert(ops::row(ks, k, w as int) == fk(k));
        assert(equations::line(keys, k, w as int) == ops::row(keys, k, w as int));
        assert(equations::line(x, k, h) == ops::row(x, k, h));
    }
    assert forall|k: int| 0 <= k < rows implies #[trigger] ops::row(vs, k, w as int) == ops::row(
        values,
        k,
        w as int,
    ) by {
        ops::lemma_row_bounds(k, rows as int, w as int);
        ops::lemma_row_bounds(k, rows as int, h);
        assert(ops::row(vs, k, w as int) == fv(k));
        assert(equations::line(values, k, w as int) == ops::row(values, k, w as int));
        assert(equations::line(x, k, h) == ops::row(x, k, h));
    }
    kernels::lemma_same_by_lines(ks, keys, rows, w);
    kernels::lemma_same_by_lines(vs, values, rows, w);
    let after = layer.state_after::<M>(s, x, rows, tables, pos);
    let f = |k: int|
        layer.output::<M>(
            ops::row(x, k, layer.hidden_size as int),
            after.keys,
            after.values,
            GqaDecoderLayer::<T, Q>::visible(s.len, pos, rows, k),
            tables,
            pos + k,
        );
    assert forall|k: int| 0 <= k < rows implies #[trigger] f(k).len() == h by {
        ops::lemma_row_bounds(k, rows as int, h);
    }
    kernels::lemma_line_of_blocks(rows, f, h as nat, t);
    ops::lemma_row_bounds(t, rows as int, h);
}

/// The rows that a short-convolution layer goes through for one token.
pub struct LivConvSteps<T> {
    pub normed: Seq<T>,
    pub projected: Seq<T>,
    pub gated: Seq<T>,
    pub window: Seq<T>,
    pub convolved: Seq<T>,
    pub passed: Seq<T>,
    pub out: Seq<T>,
}

/// The rows are what a short-convolution layer computes from the window `s` and
/// the row `x`, with the packed maps in the place of their weights where `q4` is
/// set. With three parts in the input projection the second gates the first
/// through SiLU and the third gates the convolution; with two parts the second
/// gates the first through the logistic function.
pub open spec fn are_livconv_steps<T: Scalar, M: Math<T>, Q: PackedLinear<T>>(
    r: LivConvSteps<T>,
    layer: LivConvDecoderLayer<T, Q>,
    s: Seq<T>,
    x: Seq<T>,
    width: nat,
    q4: bool,
) -> bool {
    let (h, inner) = (layer.hidden_size as nat, layer.inner_size as nat);
    let three = width == 3 * inner;
    let p = r.projected;
    &&& layer.input_proj_weight@.len() == width * h
    &&& equations::is_rms::<T, M>(r.normed, x, layer.attn_norm_weight@, layer.norm_eps)
    &&& equations::is_gemv(
        p,
        r.normed,
        layer.input_proj_weight@,
        if q4 {
            layer.q4_in_proj
        } else {
            None
        },
        h,
        width,
    )
    &&& r.gated.len() == inner
    &&& forall|i: int|
        0 <= i < inner ==> #[trigger] r.gated[i] == if three {
            scalar::times(scalar::silu_of::<T, M>(p[inner + i]), p[i])
        } else {
            scalar::times(p[i], equations::sigmoid::<T, M>(p[inner + i]))
        }
    &&& equations::is_window(r.window, s, r.gated, layer.conv_kernel_size as nat)
    &&& equations::is_convolved(
        r.convolved,
        r.window,
        layer.conv_weight@,
        layer.conv_bias@,
        inner,
        layer.conv_kernel_size as nat,
    )
    &&& r.passed.len() == inner
    &&& forall|i: int|
        0 <= i < inner ==> #[trigger] r.passed[i] == if three {
            scalar::times(scalar::silu_of::<T, M>(r.convolved[i]), p[2 * inner + i])
        } else {
            scalar::silu_of::<T, M>(r.convolved[i])
        }
    &&& equations::is_gemv(
        r.out,
        r.passed,
        layer.output_proj_weight@,
        if q4 {
            layer.q4_out_proj
        } else {
            None
        },
        inner,
        h,
    )
}

/// A short-convolution layer adds to its input row the projection of its gated
/// convolution, and to that sum its feed-forward network. Its state becomes the
/// window that ends with the new elements.
pub proof fn lemma_livconv_layer<T: Scalar, M: Math<T>, Q: PackedLinear<T>>(
    r: LivConvSteps<T>,
    layer: LivConvDecoderLayer<T, Q>,
    s: Seq<T>,
    x: Seq<T>,
    width: nat,
    q4: bool,
    mid: Seq<T>,
    i: int,
)
    requires
        layer.wf(),
        layer.takes(s),
        x.len() == layer.hidden_size,
        are_livconv_steps::<T, M, Q>(r, layer, s, x, width, q4),
        equations::is_sum(mid, x, r.out),
        0 <= i < layer.hidden_size,
    ensures
        ({
            let w = FfnWeights {
                norm: layer.ffn_norm_weight@,
                gate: layer.ffn_gate_weight@,
                up: layer.ffn_up_weight@,
                down: layer.ffn_down_weight@,
            };
            let q = FfnPacked {
                gate: layer.q4_ffn_gate,
                up: layer.q4_ffn_up,
                down: layer.q4_ffn_down,
            };
            let (h, n) = (layer.hidden_size as nat, layer.intermediate_size as nat);
            let eps = layer.norm_eps;
            let sum = scalar::plus(x[i], r.out[i]);
            &&& !q4 ==> layer.after::<M>(s, layer.projected::<M>(x)) == r.window
            &&& !q4 ==> layer.output::<M>(s, x)[i] == scalar::plus(
                sum,
                ffn::swiglu_row::<T, M>(w, mid, eps, h, n)[i],
            )
            &&& q4 ==> layer.after::<M>(s, layer.projected_one::<M>(x)) == r.window
            &&& q4 ==> layer.output_one::<M>(s, x)[i] == scalar::plus(
                sum,
                ffn::swiglu_packed::<T, M, Q>(w, q, mid, 1, eps, h, n)[i],
            )
        }),
{
    let (h, inner) = (layer.hidden_size as nat, layer.inner_size as nat);
    let p = r.projected;
    assert(layer.spec_proj_dim() == width) by {
        vstd::arithmetic::div_mod::lemma_div_by_multiple(width as int, h as int);
    }
    kernels::lemma_rms::<T, M>(r.normed, x, layer.attn_norm_weight@, layer.norm_eps);
    let (qi, qo) = if q4 {
        (layer.q4_in_proj, layer.q4_out_proj)
    } else {
        (None, None)
    };
    kernels::lemma_gemv(p, r.normed, layer.input_proj_weight@, qi, h, width);
    packed::lemma_dense_row::<T, Q>(r.normed, layer.input_proj_weight@, h, width);
    assert(r.gated =~= layer.gated_input::<M>(p));
    kernels::lemma_convolution(
        r.window,
        r.convolved,
        s,
        r.gated,
        layer.conv_weight@,
        layer.conv_bias@,
        layer.conv_kernel_size as nat,
    );
    assert(r.passed =~= layer.gated_output::<M>(r.convolved, p));
    kernels::lemma_gemv(r.out, r.passed, layer.output_proj_weight@, qo, inner, h);
    packed::lemma_dense_row::<T, Q>(r.passed, layer.output_proj_weight@, inner, h);
    kernels::lemma_elementwise(mid, x, r.out);
    lemma_swiglu_len::<T, M, Q>(
        layer.ffn(),
        layer.ffn_packed(),
        mid,
        layer.norm_eps,
        h,
        layer.intermediate_size as nat,
    );
}

/// A DeltaNet layer takes its rows one after the other, each from the state that
/// the rows before it leave.
pub proof fn lemma_deltanet_rows<T: Scalar, M: Math<T>>(
    layer: DeltaNetDecoderLayer<T>,
    states: Seq<DeltaNetView<T>>,
    x: Seq<T>,
    rows: nat,
    t: int,
)
    requires
        layer.wf(),
        x.len() == rows * layer.hidden_size,
        states.len() == rows + 1,
        forall|k: int|
            0 <= k < rows ==> #[trigger] states[k + 1] == layer.after::<M>(
                states[k],
                layer.input::<M>(equations::line(x, k, layer.hidden_size as int)),
            ),
        0 <= t < rows,
    ensures
        layer.state_after::<M>(states[0], x, rows) == states[rows as int],
        equations::line(layer.outputs::<M>(states[0], x, rows), t, layer.hidden_size as int)
            == layer.output::<M>(states[t], equations::line(x, t, layer.hidden_size as int)),
{
    let h = layer.hidden_size as int;
    lemma_deltanet_states::<T, M>(layer, states, x, rows, rows);
    lemma_deltanet_states::<T, M>(layer, states, x, rows, t as nat);
    let f = |k: int|
        layer.output::<M>(layer.state_after::<M>(states[0], x, k as nat), ops::row(x, k, h));
    assert forall|k: int| 0 <= k < rows implies #[trigger] f(k).len() == h by {
        ops::lemma_row_bounds(k, rows as int, h);
    }
    kernels::lemma_line_of_blocks(rows, f, h as nat, t);
    ops::lemma_row_bounds(t, rows as int, h);
}

proof fn lemma_deltanet_states<T: Scalar, M: Math<T>>(
    layer: DeltaNetDecoderLayer<T>,
    states: Seq<DeltaNetView<T>>,
    x: Seq<T>,
    rows: nat,
    n: nat,
)
    requires
        n <= rows,
        states.len() == rows + 1,
        forall|k: int|
            0 <= k < rows ==> #[trigger] states[k + 1] == layer.after::<M>(
                states[k],
                layer.input::<M>(equations::line(x, k, layer.hidden_size as int)),
            ),
    ensures
        layer.state_after::<M>(states[0], x, n) == states[n as int],
    decreases n,
{
    if n > 0 {
        let h = layer.hidden_size as int;
        lemma_deltanet_states::<T, M>(layer, states, x, rows, (n - 1) as nat);
        assert(states[(n - 1) + 1] == layer.after::<M>(
            states[n - 1],
            layer.input::<M>(equations::line(x, n - 1, h)),
        ));
        assert((n - 1 + 1) * h == (n - 1) * h + h) by (nonlinear_arith);
    }
}

/// A short-convolution layer takes its rows one after the other, each from the
/// window that the rows before it leave.
pub proof fn lemma_livconv_rows<T: Scalar, M: Math<T>, Q: PackedLinear<T>>(
    layer: LivConvDecoderLayer<T, Q>,
    states: Seq<Seq<T>>,
    x: Seq<T>,
    rows: nat,
    t: int,
)
    requires
        layer.wf(),
        x.len() == rows * layer.hidden_size,
        states.len() == rows + 1,
        forall|k: int|
            0 <= k < rows ==> #[trigger] states[k + 1] == layer.after::<M>(
                states[k],
                layer.projected::<M>(equations::line(x, k, layer.hidden_size as int)),
            ),
        0 <= t < rows,
    ensures
        layer.state_after::<M>(states[0], x, rows) == states[rows as int],
        equations::line(layer.outputs::<M>(states[0], x, rows), t, layer.hidden_size as int)
            == layer.output::<M>(states[t], equations::line(x, t, layer.hidden_size as int)),
{
    let h = layer.hidden_size as int;
    lemma_livconv_states::<T, M, Q>(layer, states, x, rows, rows);
    lemma_livconv_states::<T, M, Q>(layer, states, x, rows, t as nat);
    let f = |k: int|
        layer.output::<M>(layer.state_after::<M>(states[0], x, k as nat), ops::row(x, k, h));
    assert forall|k: int| 0 <= k < rows implies #[trigger] f(k).len() == h by {
        ops::lemma_row_bounds(k, rows as int, h);
    }
    kernels::lemma_line_of_blocks(rows, f, h as nat, t);
    ops::lemma_row_bounds(t, rows as int, h);
}

proof fn lemma_livconv_states<T: Scalar, M: Math<T>, Q: PackedLinear<T>>(
    layer: LivConvDecoderLayer<T, Q>,
    states: Seq<Seq<T>>,
    x: Seq<T>,
    rows: nat,
    n: nat,
)
    requires
        n <= rows,
        states.len() == rows + 1,
        forall|k: int|
            0 <= k < rows ==> #[trigger] states[k + 1] == layer.after::<M>(
                states[k],
                layer.projected::<M>(equations::line(x, k, layer.hidden_size as int)),
            ),
    ensures
        layer.state_after::<M>(states[0], x, n) == states[n as int],
    decreases n,
{
    if n > 0 {
        let h = layer.hidden_size as int;
        lemma_livconv_states::<T, M, Q>(layer, states, x, rows, (n - 1) as nat);
        assert(states[(n - 1) + 1] == layer.after::<M>(
            states[n - 1],
            layer.projected::<M>(equations::line(x, n - 1, h)),
        ));
        assert((n - 1 + 1) * h == (n - 1) * h + h) by (nonlinear_arith);
    }
}

/// Column `j` of a token's embedding is that column of its row of the table,
/// zero for an unknown token, and normalised where the model has a weight for
/// it.
pub proof fn lemma_hybrid_embedding<T: Scalar, M: Math<T>, Q: PackedLinear<T>>(
    model: HybridModel<T, Q>,
    id: u32,
    e: Seq<T>,
    y: Seq<T>,
)
    requires
        model.wf(),
        e.len() == model.config.hidden_size,
        forall|j: int|
            0 <= j < e.len() ==> #[trigger] e[j] == if id < model.config.vocab_size {
                model.embed_tokens@[id * model.config.hidden_size + j]
            } else {
                scalar::zero()
            },
        if model.embed_norm_weight@.len() == 0 {
            y == e
        } else {
            equations::is_rms::<T, M>(
                y,
                e,
                model.embed_norm_weight@,
                scalar::binary64_of::<T, M>(model.config.norm_eps.bits),
            )
        },
    ensures
        model.embed_row::<M>(id) == y,
{
    let h = model.config.hidden_size as int;
    if id < model.config.vocab_size {
        ops::lemma_row_bounds(id as int, model.config.vocab_size as int, h);
    }
    assert(e =~= model.embedding(id));
    kernels::lemma_rms::<T, M>(
        y,
        e,
        model.embed_norm_weight@,
        scalar::binary64_of::<T, M>(model.config.norm_eps.bits),
    );
}

/// The logits of a hidden row are the final normalisation of the row times the
/// output head, which is the embedding table where the model has no head of its
/// own.
pub proof fn lemma_hybrid_logits<T: Scalar, M: Math<T>, Q: PackedLinear<T>>(
    model: HybridModel<T, Q>,
    x: Seq<T>,
    v: int,
)
    requires
        model.wf(),
        x.len() == model.config.hidden_size,
        0 <= v < model.config.vocab_size,
    ensures
        model.logits_of::<M>(x).len() == model.config.vocab_size,
        ({
            let h = model.config.hidden_size as nat;
            let head = match model.lm_head_weight {
                Some(w) => w@,
                None => model.embed_tokens@,
            };
            let s = equations::inverse_rms::<T, M>(
                h,
                |i: int| x[i],
                scalar::binary64_of::<T, M>(model.config.norm_eps.bits),
            );
            model.logits_of::<M>(x)[v] == equations::sigma(
                h,
                |i: int|
                    scalar::times(
                        scalar::times(scalar::times(x[i], s), model.final_norm_weight@[i]),
                        head[v * h + i],
                    ),
            )
        }),
{
    let h = model.config.hidden_size as nat;
    let eps = scalar::binary64_of::<T, M>(model.config.norm_eps.bits);
    let a = ops::rms_row::<T, M>(x, model.final_norm_weight@, eps);
    let s = equations::inverse_rms::<T, M>(h, |i: int| x[i], eps);
    kernels::lemma_rms::<T, M>(a, x, model.final_norm_weight@, eps);
    kernels::lemma_linear(
        model.logits_of::<M>(x),
        a,
        model.head_weight(),
        Seq::empty(),
        h,
        model.config.vocab_size as nat,
    );
    let head = match model.lm_head_weight {
        Some(w) => w@,
        None => model.embed_tokens@,
    };
    let f = |i: int| scalar::times(a[i], head[v * h + i]);
    let g = |i: int|
        scalar::times(
            scalar::times(scalar::times(x[i], s), model.final_norm_weight@[i]),
            head[v * h + i],
        );
    assert forall|i: int| 0 <= i < h implies #[trigger] f(i) == g(i) by {
        assert(a[i] == scalar::times(scalar::times(x[i], s), model.final_norm_weight@[i]));
    }
    kernels::lemma_sigma_same(h, f, g);
}

/// Two hidden rows that the root-mean-square normalisation makes equal have
/// equal logits.
pub proof fn lemma_hybrid_logits_of_scaled<T: Scalar, M: Math<T>, Q: PackedLinear<T>>(
    model: HybridModel<T, Q>,
    x: Seq<T>,
    y: Seq<T>,
)
    requires
        model.wf(),
        x.len() == model.config.hidden_size,
        y.len() == model.config.hidden_size,
        ({
            let eps = scalar::binary64_of::<T, M>(model.config.norm_eps.bits);
            let sx = equations::inverse_rms::<T, M>(x.len(), |i: int| x[i], eps);
            let sy = equations::inverse_rms::<T, M>(y.len(), |i: int| y[i], eps);
            forall|i: int|
                0 <= i < x.len() ==> scalar::times(#[trigger] x[i], sx) == scalar::times(y[i], sy)
        }),
    ensures
        model.logits_of::<M>(x) == model.logits_of::<M>(y),
{
    let eps = scalar::binary64_of::<T, M>(model.config.norm_eps.bits);
    let w = model.final_norm_weight@;
    let a = ops::rms_row::<T, M>(x, w, eps);
    let b = ops::rms_row::<T, M>(y, w, eps);
    kernels::lemma_rms::<T, M>(a, x, w, eps);
    kernels::lemma_rms::<T, M>(b, y, w, eps);
    assert forall|i: int| 0 <= i < a.len() implies a[i] == b[i] by {
        assert(x[i] == x[i]);
    }
    assert(a =~= b);
}

/// Multiplying by `c` passes through sums, means and roots of squares as in the
/// real numbers, and adding `eps` changes nothing.
pub open spec fn scales<T: Scalar, M: Math<T>>(c: T, n: T, eps: T) -> bool {
    let k = scalar::times(c, c);
    let one = scalar::one::<T, M>();
    &&& scalar::times(scalar::zero(), k) == scalar::zero::<T>()
    &&& forall|a: T|
        scalar::times(#[trigger] scalar::times(a, c), scalar::times(a, c)) == scalar::times(
            scalar::times(a, a),
            k,
        )
    &&& forall|a: T, b: T|
        scalar::plus(scalar::times(a, k), scalar::times(b, k)) == scalar::times(
            #[trigger] scalar::plus(a, b),
            k,
        )
    &&& forall|a: T| scalar::over(scalar::times(a, k), n) == scalar::times(
        #[trigger] scalar::over(a, n),
        k,
    )
    &&& forall|a: T| #[trigger] scalar::plus(a, eps) == a
    &&& forall|a: T| scalar::sqrt_of::<T, M>(scalar::times(a, k)) == scalar::times(
        #[trigger] scalar::sqrt_of::<T, M>(a),
        c,
    )
    &&& forall|a: T, r: T|
        scalar::times(scalar::times(a, c), scalar::over(one, scalar::times(r, c)))
            == #[trigger] scalar::times(a, scalar::over(one, r))
}

/// A hidden row and a multiple of it have the same logits, where multiplying
/// behaves as in the real numbers and the constant under the root is nothing.
pub proof fn lemma_hybrid_logits_of_multiple<T: Scalar, M: Math<T>, Q: PackedLinear<T>>(
    model: HybridModel<T, Q>,
    x: Seq<T>,
    c: T,
)
    requires
        model.wf(),
        x.len() == model.config.hidden_size,
        scales::<T, M>(
            c,
            scalar::count_of::<T, M>(model.config.hidden_size),
            scalar::binary64_of::<T, M>(model.config.norm_eps.bits),
        ),
    ensures
        model.logits_of::<M>(Seq::new(x.len(), |i: int| scalar::times(x[i], c)))
            == model.logits_of::<M>(x),
{
    let y = Seq::new(x.len(), |i: int| scalar::times(x[i], c));
    let n = x.len();
    let eps = scalar::binary64_of::<T, M>(model.config.norm_eps.bits);
    let count = scalar::count_of::<T, M>(model.config.hidden_size);
    let k = scalar::times(c, c);
    let f = |i: int| scalar::times(x[i], x[i]);
    let g = |i: int| scalar::times(y[i], y[i]);
    lemma_squares_scale::<T, M>(x, c, count, eps, n);
    let (fx, fy) = (|i: int| x[i], |i: int| y[i]);
    kernels::lemma_sigma_same(n, |i: int| scalar::times(fx(i), fx(i)), f);
    kernels::lemma_sigma_same(n, |i: int| scalar::times(fy(i), fy(i)), g);
    let m = scalar::over(equations::sigma(n, f), count);
    let r = scalar::sqrt_of::<T, M>(m);
    let sx = equations::inverse_rms::<T, M>(n, fx, eps);
    let sy = equations::inverse_rms::<T, M>(n, fy, eps);
    let one = scalar::one::<T, M>();
    assert(scalar::plus(m, eps) == m);
    assert(sx == scalar::over(one, r));
    assert(scalar::over(equations::sigma(n, g), count) == scalar::times(m, k));
    assert(scalar::plus(scalar::times(m, k), eps) == scalar::times(m, k));
    assert(sy == scalar::over(one, scalar::times(r, c)));
    assert forall|i: int| 0 <= i < x.len() implies scalar::times(#[trigger] x[i], sx)
        == scalar::times(y[i], sy) by {
        assert(scalar::times(x[i], scalar::over(one, r)) == scalar::times(
            scalar::times(x[i], c),
            scalar::over(one, scalar::times(r, c)),
        ));
    }
    lemma_hybrid_logits_of_scaled::<T, M, Q>(model, x, y);
}

proof fn lemma_squares_scale<T: Scalar, M: Math<T>>(x: Seq<T>, c: T, count: T, eps: T, n: nat)
    requires
        scales::<T, M>(c, count, eps),
        n <= x.len(),
    ensures
        ({
            let y = Seq::new(x.len(), |i: int| scalar::times(x[i], c));
            equations::sigma(n, |i: int| scalar::times(y[i], y[i])) == scalar::times(
                equations::sigma(n, |i: int| scalar::times(x[i], x[i])),
                scalar::times(c, c),
            )
        }),
    decreases n,
{
    let y = Seq::new(x.len(), |i: int| scalar::times(x[i], c));
    if n > 0 {
        lemma_squares_scale::<T, M>(x, c, count, eps, (n - 1) as nat);
        let f = |i: int| scalar::times(x[i], x[i]);
        let g = |i: int| scalar::times(y[i], y[i]);
        let k = scalar::times(c, c);
        assert(g(n - 1) == scalar::times(f(n - 1), k));
        let s = equations::sigma((n - 1) as nat, f);
        assert(scalar::plus(scalar::times(s, k), scalar::times(f(n - 1), k)) == scalar::times(
            scalar::plus(s, f(n - 1)),
            k,
        ));
    }
}

/// With an identity for its head, a model's logits are the final normalisation
/// of the row itself.
pub proof fn lemma_hybrid_identity_head<T: Scalar, M: Math<T>, Q: PackedLinear<T>>(
    model: HybridModel<T, Q>,
    x: Seq<T>,
    i: int,
)
    requires
        model.wf(),
        x.len() == model.config.hidden_size,
        model.config.vocab_size == model.config.hidden_size,
        forall|a: T| #[trigger] scalar::plus(a, scalar::zero()) == a,
        forall|a: T| #[trigger] scalar::plus(scalar::zero(), a) == a,
        forall|a: T| #[trigger] scalar::times(a, scalar::zero()) == scalar::zero::<T>(),
        forall|a: T| #[trigger] scalar::times(a, scalar::one::<T, M>()) == a,
        forall|v: int, j: int|
            #![trigger model.head_weight()[v * model.config.hidden_size + j]]
            0 <= v < x.len() && 0 <= j < x.len() ==> model.head_weight()[v
                * model.config.hidden_size + j] == if v == j {
                scalar::one::<T, M>()
            } else {
                scalar::zero()
            },
        0 <= i < x.len(),
    ensures
        model.logits_of::<M>(x)[i] == scalar::times(
            scalar::times(
                x[i],
                equations::inverse_rms::<T, M>(
                    x.len(),
                    |j: int| x[j],
                    scalar::binary64_of::<T, M>(model.config.norm_eps.bits),
                ),
            ),
            model.final_norm_weight@[i],
        ),
{
    let h = model.config.hidden_size as nat;
    let eps = scalar::binary64_of::<T, M>(model.config.norm_eps.bits);
    let a = ops::rms_row::<T, M>(x, model.final_norm_weight@, eps);
    kernels::lemma_rms::<T, M>(a, x, model.final_norm_weight@, eps);
    ops::lemma_row_bounds(i, h as int, h as int);
    let w = ops::row(model.head_weight(), i, h as int);
    assert forall|j: int| 0 <= j < h implies #[trigger] w[j] == if j == i {
        scalar::one::<T, M>()
    } else {
        scalar::zero()
    } by {
        assert(w[j] == model.head_weight()[i * model.config.hidden_size + j]);
    }
    lemma_picked::<T, M>(a, w, i, h);
}

proof fn lemma_picked<T: Scalar, M: Math<T>>(a: Seq<T>, w: Seq<T>, i: int, n: nat)
    requires
        0 <= i < w.len(),
        n <= w.len(),
        forall|a: T| #[trigger] scalar::plus(a, scalar::zero()) == a,
        forall|a: T| #[trigger] scalar::plus(scalar::zero(), a) == a,
        forall|a: T| #[trigger] scalar::times(a, scalar::zero()) == scalar::zero::<T>(),
        forall|a: T| #[trigger] scalar::times(a, scalar::one::<T, M>()) == a,
        forall|j: int|
            0 <= j < w.len() ==> #[trigger] w[j] == if j == i {
                scalar::one::<T, M>()
            } else {
                scalar::zero()
            },
    ensures
        ops::dot(a, w, n) == if i < n {
            a[i]
        } else {
            scalar::zero()
        },
    decreases n,
{
    if n > 0 {
        lemma_picked::<T, M>(a, w, i, (n - 1) as nat);
        assert(w[n - 1] == if n - 1 == i {
            scalar::one::<T, M>()
        } else {
            scalar::zero()
        });
    }
}

/// Each layer works as its own kind does: on a sequence, and on one token.
pub proof fn lemma_hybrid_layer<T: Scalar, M: Math<T>, Q: PackedLinear<T>>(
    layer: HybridLayer<T, Q>,
    v: LayerView<T>,
    x: Seq<T>,
    rows: nat,
    tables: RopeTables<T>,
    pos: int,
)
    requires
        layer.takes(v),
    ensures
        layer matches HybridLayer::DeltaNet(l) ==> {
            let s = v->DeltaNet_0;
            &&& v is DeltaNet
            &&& layer.seq_output::<M>(v, x, rows, tables, pos) == l.outputs::<M>(s, x, rows)
            &&& layer.seq_state::<M>(v, x, rows, tables, pos) == LayerView::DeltaNet(
                l.state_after::<M>(s, x, rows),
            )
            &&& layer.one_output::<M>(v, x, tables, pos) == l.output::<M>(s, x)
            &&& layer.one_state::<M>(v, x, tables, pos) == LayerView::DeltaNet(
                l.after::<M>(s, l.input::<M>(x)),
            )
        },
        layer matches HybridLayer::Gqa(l) ==> {
            let s = v->Kv_0;
            &&& v is Kv
            &&& layer.seq_output::<M>(v, x, rows, tables, pos) == l.outputs::<M>(
                s,
                x,
                rows,
                tables,
                pos,
            )
            &&& layer.seq_state::<M>(v, x, rows, tables, pos) == LayerView::Kv(
                l.state_after::<M>(s, x, rows, tables, pos),
            )
            &&& layer.one_output::<M>(v, x, tables, pos) == l.output_one::<M>(s, x, tables, pos)
            &&& layer.one_state::<M>(v, x, tables, pos) == LayerView::Kv(
                l.state_after_one::<M>(s, x, tables, pos),
            )
        },
        layer matches HybridLayer::LivConv(l) ==> {
            let s = v->Conv_0;
            &&& v is Conv
            &&& layer.seq_output::<M>(v, x, rows, tables, pos) == l.outputs::<M>(s, x, rows)
            &&& layer.seq_state::<M>(v, x, rows, tables, pos) == LayerView::<T>::Conv(
                l.state_after::<M>(s, x, rows),
            )
            &&& layer.one_output::<M>(v, x, tables, pos) == l.output_one::<M>(s, x)
            &&& layer.one_state::<M>(v, x, tables, pos) == LayerView::<T>::Conv(
                l.after::<M>(s, l.projected_one::<M>(x)),
            )
        },
{
}

/// The logits behind a prompt are those of its last row behind the last layer;
/// the first layer takes the embeddings in order, and each other layer what the
/// one before it gives.
pub proof fn lemma_hybrid_prefill<T: Scalar, M: Math<T>, Q: PackedLinear<T>>(
    model: HybridModel<T, Q>,
    views: Seq<LayerView<T>>,
    ids: Seq<u32>,
    pos: int,
    states: Seq<Seq<T>>,
)
    requires
        model.wf(),
        ids.len() > 0,
        states.len() == model.layers@.len() + 1,
        states[0].len() == ids.len() * model.config.hidden_size,
        forall|t: int|
            0 <= t < ids.len() ==> #[trigger] equations::line(
                states[0],
                t,
                model.config.hidden_size as int,
            ) == model.embed_row::<M>(ids[t]),
        forall|i: int|
            0 <= i < model.layers@.len() ==> states[i + 1] == (
            #[trigger] model.layers@[i]).seq_output::<M>(
                views[i],
                states[i],
                ids.len(),
                RopeTables { cos: model.rope_cos@, sin: model.rope_sin@ },
                pos,
            ),
    ensures
        model.prefill_logits::<M>(views, ids, pos) == model.logits_of::<M>(
            equations::line(
                states[model.layers@.len() as int],
                ids.len() - 1,
                model.config.hidden_size as int,
            ),
        ),
        forall|i: int|
            0 <= i < model.layers@.len() ==> (#[trigger] model.views_after::<M>(
                views,
                states[0],
                ids.len(),
                pos,
            )[i]) == model.layers@[i].seq_state::<M>(
                views[i],
                states[i],
                ids.len(),
                RopeTables { cos: model.rope_cos@, sin: model.rope_sin@ },
                pos,
            ),
{
    let h = model.config.hidden_size as nat;
    let n = ids.len();
    let e = |t: int| model.embed_row::<M>(ids[t]);
    assert forall|t: int| 0 <= t < n implies #[trigger] e(t).len() == h by {
        if ids[t] < model.config.vocab_size {
            ops::lemma_row_bounds(ids[t] as int, model.config.vocab_size as int, h as int);
        }
    }
    ops::lemma_blocks_rows(n, e, h);
    let x = model.embeddings::<M>(ids);
    assert forall|t: int| 0 <= t < n implies #[trigger] ops::row(x, t, h as int) == ops::row(
        states[0],
        t,
        h as int,
    ) by {
        ops::lemma_row_bounds(t, n as int, h as int);
        assert(ops::row(x, t, h as int) == e(t));
        assert(equations::line(states[0], t, h as int) == ops::row(states[0], t, h as int));
    }
    kernels::lemma_same_by_lines(x, states[0], n, h);
    lemma_hybrid_states::<T, M, Q>(model, views, n, pos, states, model.layers@.len());
    assert forall|i: int| 0 <= i < model.layers@.len() implies (#[trigger] model.views_after::<M>(
        views,
        states[0],
        n,
        pos,
    )[i]) == model.layers@[i].seq_state::<M>(
        views[i],
        states[i],
        n,
        RopeTables { cos: model.rope_cos@, sin: model.rope_sin@ },
        pos,
    ) by {
        lemma_hybrid_states::<T, M, Q>(model, views, n, pos, states, i as nat);
    }
    assert((n - 1 + 1) * h == (n - 1) * h + h) by (nonlinear_arith);
}

proof fn lemma_hybrid_states<T: Scalar, M: Math<T>, Q: PackedLinear<T>>(
    model: HybridModel<T, Q>,
    views: Seq<LayerView<T>>,
    rows: nat,
    pos: int,
    states: Seq<Seq<T>>,
    n: nat,
)
    requires
        n <= model.layers@.len(),
        states.len() == model.layers@.len() + 1,
        forall|i: int|
            0 <= i < model.layers@.len() ==> states[i + 1] == (
            #[trigger] model.layers@[i]).seq_output::<M>(
                views[i],
                states[i],
                rows,
                RopeTables { cos: model.rope_cos@, sin: model.rope_sin@ },
                pos,
            ),
    ensures
        model.hidden_after::<M>(views, states[0], rows, pos, n) == states[n as int],
    decreases n,
{
    if n > 0 {
        lemma_hybrid_states::<T, M, Q>(model, views, rows, pos, states, (n - 1) as nat);
        assert(states[n - 1 + 1] == model.layers@[n - 1].seq_output::<M>(
            views[n - 1],
            states[n - 1],
            rows,
            RopeTables { cos: model.rope_cos@, sin: model.rope_sin@ },
            pos,
        ));
    }
}

/// The logits of one more token are those of its row behind the last layer; the
/// first layer takes its embedding, and each other layer what the one before it
/// gives.
pub proof fn lemma_hybrid_decode<T: Scalar, M: Math<T>, Q: PackedLinear<T>>(
    model: HybridModel<T, Q>,
    views: Seq<LayerView<T>>,
    id: u32,
    pos: int,
    rows: Seq<Seq<T>>,
    n: nat,
)
    requires
        n <= model.layers@.len(),
        rows.len() == model.layers@.len() + 1,
        rows[0] == model.embed_row::<M>(id),
        forall|i: int|
            0 <= i < model.layers@.len() ==> rows[i + 1] == (
            #[trigger] model.layers@[i]).one_output::<M>(
                views[i],
                rows[i],
                RopeTables { cos: model.rope_cos@, sin: model.rope_sin@ },
                pos,
            ),
    ensures
        model.one_after::<M>(views, rows[0], pos, n) == rows[n as int],
        n == model.layers@.len() ==> model.decode_logits::<M>(views, id, pos) == model.logits_of::<
            M,
        >(rows[n as int]),
        n < model.layers@.len() ==> model.views_after_one::<M>(views, rows[0], pos)[n as int]
            == model.layers@[n as int].one_state::<M>(
            views[n as int],
            rows[n as int],
            RopeTables { cos: model.rope_cos@, sin: model.rope_sin@ },
            pos,
        ),
    decreases n,
{
    if n > 0 {
        lemma_hybrid_decode::<T, M, Q>(model, views, id, pos, rows, (n - 1) as nat);
        assert(rows[n - 1 + 1] == model.layers@[n - 1].one_output::<M>(
            views[n - 1],
            rows[n - 1],
            RopeTables { cos: model.rope_cos@, sin: model.rope_sin@ },
            pos,
        ));
    }
}

/// The angle of dimension `i` at position `pos` stands at `pos * (d / 2) + i` of
/// the hybrid model's tables: `pos` over `theta ^ (2 i / d)`.
pub proof fn lemma_hybrid_tables<T: Scalar, M: Math<T>>(
    theta: T,
    d: usize,
    max_pos: nat,
    pos: int,
    i: int,
)
    requires
        0 <= pos < max_pos,
        0 <= i < d as int / 2,
    ensures
        ({
            let half = d as int / 2;
            let exponent = scalar::over(
                scalar::times(
                    scalar::count_of::<T, M>(2),
                    scalar::count_of::<T, M>(i as usize),
                ),
                scalar::count_of::<T, M>(d),
            );
            let angle = scalar::times(
                scalar::count_of::<T, M>(pos as usize),
                scalar::over(scalar::one::<T, M>(), scalar::pow_of::<T, M>(theta, exponent)),
            );
            &&& weights::rope_cosines::<T, M>(theta, d, max_pos)[pos * half + i]
                == scalar::cos_of::<T, M>(angle)
            &&& weights::rope_sines::<T, M>(theta, d, max_pos)[pos * half + i]
                == scalar::sin_of::<T, M>(angle)
        }),
{
    let half = d as nat / 2;
    let fc = |p: int|
        Seq::new(
            d as nat / 2,
            |k: int| scalar::cos_of::<T, M>(weights::rope_angle::<T, M>(theta, d, p, k)),
        );
    let fs = |p: int|
        Seq::new(
            d as nat / 2,
            |k: int| scalar::sin_of::<T, M>(weights::rope_angle::<T, M>(theta, d, p, k)),
        );
    kernels::lemma_line_of_blocks(max_pos, fc, half, pos);
    kernels::lemma_line_of_blocks(max_pos, fs, half, pos);
    let c = weights::rope_cosines::<T, M>(theta, d, max_pos);
    let s = weights::rope_sines::<T, M>(theta, d, max_pos);
    assert(c == ops::blocks(max_pos, fc));
    assert(s == ops::blocks(max_pos, fs));
    ops::lemma_row_bounds(pos, max_pos as int, half as int);
    assert(equations::line(c, pos, half as int)[i] == c[pos * half + i]);
    assert(equations::line(s, pos, half as int)[i] == s[pos * half + i]);
}

/// Packing a layer for decoding keeps its weights and puts beside each matrix the
/// packed form of that matrix.
pub proof fn lemma_packed_layers<T: Scalar, Q: PackedLinear<T>>(
    gqa: GqaDecoderLayer<T, Q>,
    conv: LivConvDecoderLayer<T, Q>,
    width: nat,
)
    requires
        gqa.wf(),
        conv.wf(),
        conv.input_proj_weight@.len() == width * conv.hidden_size,
        width <= usize::MAX,
    ensures
        ({
            let p = gqa.packed_form();
            let (h, n) = (gqa.hidden_size, gqa.intermediate_size);
            let q = (gqa.num_q_heads * gqa.head_dim) as usize;
            let kv = (gqa.num_kv_heads * gqa.head_dim) as usize;
            &&& p.w_q == gqa.w_q && p.w_k == gqa.w_k && p.w_v == gqa.w_v && p.w_o == gqa.w_o
            &&& p.ffn() == gqa.ffn()
            &&& p.q4_wq == Some(packed::packed_of::<T, Q>(gqa.w_q@, q, h))
            &&& p.q4_wk == Some(packed::packed_of::<T, Q>(gqa.w_k@, kv, h))
            &&& p.q4_wv == Some(packed::packed_of::<T, Q>(gqa.w_v@, kv, h))
            &&& p.q4_wo == Some(packed::packed_of::<T, Q>(gqa.w_o@, h, q))
            &&& p.q4_ffn_gate == Some(packed::packed_of::<T, Q>(gqa.ffn_gate_weight@, n, h))
            &&& p.q4_ffn_up == Some(packed::packed_of::<T, Q>(gqa.ffn_up_weight@, n, h))
            &&& p.q4_ffn_down == Some(packed::packed_of::<T, Q>(gqa.ffn_down_weight@, h, n))
        }),
        ({
            let p = conv.packed_form();
            let (h, n) = (conv.hidden_size, conv.intermediate_size);
            let inner = conv.inner_size;
            &&& p.input_proj_weight == conv.input_proj_weight
            &&& p.output_proj_weight == conv.output_proj_weight
            &&& p.conv_weight == conv.conv_weight
            &&& p.ffn() == conv.ffn()
            &&& p.q4_in_proj == Some(
                packed::packed_of::<T, Q>(conv.input_proj_weight@, width as usize, h),
            )
            &&& p.q4_out_proj == Some(
                packed::packed_of::<T, Q>(conv.output_proj_weight@, h, inner),
            )
            &&& p.q4_ffn_gate == Some(packed::packed_of::<T, Q>(conv.ffn_gate_weight@, n, h))
            &&& p.q4_ffn_up == Some(packed::packed_of::<T, Q>(conv.ffn_up_weight@, n, h))
            &&& p.q4_ffn_down == Some(packed::packed_of::<T, Q>(conv.ffn_down_weight@, h, n))
        }),
{
    vstd::arithmetic::div_mod::lemma_div_by_multiple(width as int, conv.hidden_size as int);
}

/// Every tensor of the list is there.
pub open spec fn all_there<T>(
    map: TensorMap<T>,
    prefix: Seq<char>,
    fields: Seq<Seq<char>>,
) -> bool {
    forall|k: int| 0 <= k < fields.len() ==> map.has(prefix + #[trigger] fields[k])
}

/// Nothing is missing exactly where every tensor of the list is there; a name
/// that is missing is one of the list and not there.
pub proof fn lemma_missing<T: Scalar>(
    map: TensorMap<T>,
    prefix: Seq<char>,
    fields: Seq<Seq<char>>,
    k: nat,
)
    requires
        k <= fields.len(),
    ensures
        weights::first_missing(map, prefix, fields, k) is None <==> (forall|i: int|
            k <= i < fields.len() ==> map.has(prefix + #[trigger] fields[i])),
        weights::first_missing(map, prefix, fields, k) matches Some(name) ==> {
            &&& !map.has(name)
            &&& exists|i: int| k <= i < fields.len() && name == prefix + #[trigger] fields[i]
        },
    decreases fields.len() - k,
{
    if k < fields.len() {
        lemma_missing(map, prefix, fields, k + 1);
        let f = fields[k as int];
        if map.has(prefix + f) {
            assert forall|i: int|
                (forall|j: int|
                    k + 1 <= j < fields.len() ==> map.has(prefix + #[trigger] fields[j])) && k <= i
                    < fields.len() implies map.has(prefix + #[trigger] fields[i]) by {
                if i != k {
                    assert(map.has(prefix + fields[i]));
                }
            }
        }
    }
}

/// What stands before every name of a Qwen checkpoint.
pub open spec fn root_of<T>(map: TensorMap<T>) -> Seq<char> {
    if weights::under_model(map) {
        "model."@
    } else {
        Seq::empty()
    }
}

/// A Qwen checkpoint is refused exactly where the embedding is missing or has
/// another size, the final normalisation is missing, or a tensor of a layer is.
pub proof fn lemma_qwen_refusal<T: Scalar>(c: HybridConfig, map: TensorMap<T>)
    ensures
        weights::qwen_refusal(c, map) is None <==> {
            let root = root_of(map);
            &&& map.has(root + "embed_tokens.weight"@)
            &&& map.at(root + "embed_tokens.weight"@).data@.len() == c.vocab_size * c.hidden_size
            &&& map.has(root + "norm.weight"@)
            &&& forall|i: int|
                0 <= i < c.num_layers ==> #[trigger] qwen_layer_complete(c, map, root, i)
        },
{
    assert(root_of(map) == weights::qwen_root(map));
    lemma_qwen_layers(c, map, c.num_layers as nat);
}

/// Every tensor of layer `i` is there.
pub open spec fn qwen_layer_complete<T>(
    c: HybridConfig,
    map: TensorMap<T>,
    root: Seq<char>,
    i: int,
) -> bool {
    all_there(
        map,
        root + "layers."@ + text::decimal_digits(i as nat),
        match c.kind(i) {
            LayerKind::Gqa => weights::qwen_gqa_fields(),
            _ => weights::qwen_deltanet_fields(),
        },
    )
}

proof fn lemma_qwen_layers<T: Scalar>(c: HybridConfig, map: TensorMap<T>, n: nat)
    ensures
        weights::qwen_layers_missing(c, map, n) is None <==> (forall|i: int|
            0 <= i < n ==> #[trigger] qwen_layer_complete(c, map, weights::qwen_root(map), i)),
    decreases n,
{
    if n > 0 {
        let root = weights::qwen_root(map);
        lemma_qwen_layers(c, map, (n - 1) as nat);
        lemma_missing(
            map,
            weights::qwen_layer_prefix(map, n - 1),
            weights::qwen_fields(c, n - 1),
            0,
        );
        assert(weights::first_missing(
            map,
            weights::qwen_layer_prefix(map, n - 1),
            weights::qwen_fields(c, n - 1),
            0,
        ) is None <==> qwen_layer_complete(c, map, root, n - 1));
        if forall|i: int| 0 <= i < n - 1 ==> #[trigger] qwen_layer_complete(c, map, root, i) {
            assert(qwen_layer_complete(c, map, root, n - 1) ==> (forall|i: int|
                0 <= i < n ==> #[trigger] qwen_layer_complete(c, map, root, i)));
        }
    }
}

/// An LFM checkpoint is refused exactly where the embedding, its normalisation
/// or, unless it is tied, the head is missing, where a layer is to be a DeltaNet
/// layer, or where a tensor of a layer is missing.
pub proof fn lemma_lfm_refusal<T: Scalar>(c: HybridConfig, map: TensorMap<T>)
    ensures
        weights::lfm_refusal(c, map) is None <==> {
            &&& map.has("token_embd.weight"@)
            &&& map.has("token_embd_norm.weight"@)
            &&& c.tie_embedding || map.has("output.weight"@)
            &&& forall|i: int| 0 <= i < c.num_layers ==> #[trigger] lfm_layer_complete(c, map, i)
        },
{
    lemma_lfm_layers(c, map, c.num_layers as nat);
}

/// Layer `i` is of a kind that the checkpoint has, with every tensor there.
pub open spec fn lfm_layer_complete<T>(c: HybridConfig, map: TensorMap<T>, i: int) -> bool {
    match c.kind(i) {
        LayerKind::DeltaNet => false,
        LayerKind::Gqa => all_there(
            map,
            "blk."@ + text::decimal_digits(i as nat),
            weights::lfm_gqa_fields(),
        ),
        LayerKind::LivConv => all_there(
            map,
            "blk."@ + text::decimal_digits(i as nat),
            weights::lfm_conv_fields(),
        ),
    }
}

proof fn lemma_lfm_layers<T: Scalar>(c: HybridConfig, map: TensorMap<T>, n: nat)
    ensures
        weights::lfm_layers_refusal(c, map, n) is None <==> (forall|i: int|
            0 <= i < n ==> #[trigger] lfm_layer_complete(c, map, i)),
    decreases n,
{
    if n > 0 {
        lemma_lfm_layers(c, map, (n - 1) as nat);
        let p = weights::lfm_layer_prefix(n - 1);
        lemma_missing(map, p, weights::lfm_conv_fields(), 0);
        lemma_missing(map, p, weights::lfm_gqa_fields(), 0);
        assert(weights::lfm_layer_refusal(c, map, n - 1) is None <==> lfm_layer_complete(
            c,
            map,
            n - 1,
        ));
        if forall|i: int| 0 <= i < n - 1 ==> #[trigger] lfm_layer_complete(c, map, i) {
            assert(lfm_layer_complete(c, map, n - 1) ==> (forall|i: int|
                0 <= i < n ==> #[trigger] lfm_layer_complete(c, map, i)));
        }
    }
}

/// A model that has been loaded stands at the first position and has the angles
/// of its own base and head width.
pub proof fn lemma_loaded_model<T: Scalar, M: Math<T>, Q: PackedLinear<T>>(
    m: HybridModel<T, Q>,
    max_kv_seq: usize,
    pos: int,
    i: int,
)
    requires
        weights::starts_blank(m, max_kv_seq),
        weights::has_tables::<T, M, Q>(m, max_kv_seq),
        0 <= pos < max_kv_seq,
        0 <= i < m.config.gqa_head_dim as int / 2,
    ensures
        m.state.position == 0,
        ({
            let d = m.config.gqa_head_dim;
            let half = d as int / 2;
            let theta = scalar::binary64_of::<T, M>(m.config.rope_theta.bits);
            let exponent = scalar::over(
                scalar::times(
                    scalar::count_of::<T, M>(2),
                    scalar::count_of::<T, M>(i as usize),
                ),
                scalar::count_of::<T, M>(d),
            );
            let angle = scalar::times(
                scalar::count_of::<T, M>(pos as usize),
                scalar::over(scalar::one::<T, M>(), scalar::pow_of::<T, M>(theta, exponent)),
            );
            &&& m.rope_cos@[pos * half + i] == scalar::cos_of::<T, M>(angle)
            &&& m.rope_sin@[pos * half + i] == scalar::sin_of::<T, M>(angle)
        }),
{
    lemma_hybrid_tables::<T, M>(
        scalar::binary64_of::<T, M>(m.config.rope_theta.bits),
        m.config.gqa_head_dim,
        max_kv_seq as nat,
        pos,
        i,
    );
}

/// Row `t` of a sequence sees the positions up to its own, as far as the cache
/// holds any.
pub proof fn lemma_gqa_visible<T: Scalar, Q: PackedLinear<T>>(
    len: nat,
    pos: int,
    rows: nat,
    t: int,
    s: int,
)
    requires
        0 <= pos,
        0 <= t < rows,
        0 <= s,
    ensures
        s < GqaDecoderLayer::<T, Q>::visible(len, pos, rows, t) <==> s <= pos + t && s < len + rows,
{
}

/// A layer's new state is blank, with the dimensions of its kind.
pub proof fn lemma_blank_states<T: Scalar>(c: HybridConfig, i: int)
    ensures
        model::blank_state::<T>(c, LayerKind::DeltaNet) == LayerView::DeltaNet(
            deltanet_state::blank_deltanet::<T>(
                c.deltanet_num_heads as nat,
                c.deltanet_head_dim as nat,
                c.deltanet_conv_kernel as nat,
            ),
        ),
        model::blank_state::<T>(c, LayerKind::Gqa) matches LayerView::Kv(s) && s.len == 0
            && s.keys.len() == 0 && s.values.len() == 0,
        model::blank_state::<T>(c, LayerKind::LivConv) matches LayerView::Conv(s) && s.len()
            == c.livconv_inner_size * c.livconv_kernel_size && (0 <= i < s.len() ==> s[i]
            == scalar::zero::<T>()),
{
}

} // verus!
