//! The causal language model, layer by layer.

use vstd::prelude::*;

use crate::attention;
use crate::config::{FFNConfig, ModelConfig};
use crate::kv_cache::{KVCache, KVCacheLayer};
use crate::laws::equations;
use crate::laws::kernels;
use crate::models::lm::builder;
use crate::models::lm::causal_lm;
use crate::models::lm::causal_lm::{CausalLM, ModelOutput};
use crate::models::lm::decoder_layer::{DecoderLayer, DecoderStructure};
use crate::models::lm::traits::Model;
use crate::norm;
use crate::ops;
use crate::ops::Activation;
use crate::rope;
use crate::scalar;
use crate::scalar::{Math, Scalar};
use crate::weights::WeightTarget;

verus! {

/// A key or query row is the normalised hidden row under a linear map, with its
/// heads normalised and turned to its position; a value row is the linear map
/// alone.
pub proof fn lemma_projections<T: Scalar, M: Math<T>>(
    layer: DecoderLayer<T>,
    x: Seq<T>,
    cos: Seq<T>,
    sin: Seq<T>,
    pos: int,
    a: Seq<T>,
    q: (Seq<T>, Seq<T>, Seq<T>),
    k: (Seq<T>, Seq<T>, Seq<T>),
    v: Seq<T>,
)
    requires
        layer.wf(),
        x.len() == layer.hidden_size,
        0 <= pos,
        layer.angles_reach(cos, sin, pos + 1),
        equations::is_normed::<T, M>(a, layer.attn_norm, x, layer.attn_norm_weight@),
        ({
            let h = layer.hidden_size as nat;
            let layout = layer.attention.spec_layout();
            let (nq, nk) = (layout.num_heads as nat, layout.num_kv_heads as nat);
            let d = layout.head_dim as nat;
            let eps = scalar::binary64_of::<T, M>(layer.attn_norm.spec_eps().bits);
            &&& equations::is_linear(q.0, a, layer.w_q@, layer.q_bias@, h, nq * d)
            &&& equations::is_head_normed::<T, M>(q.1, q.0, layer.q_norm_weight@, nq, d, eps)
            &&& equations::is_turned(q.2, q.1, cos, sin, nq, d, pos, layer.rope_style)
            &&& equations::is_linear(k.0, a, layer.w_k@, layer.k_bias@, h, nk * d)
            &&& equations::is_head_normed::<T, M>(k.1, k.0, layer.k_norm_weight@, nk, d, eps)
            &&& equations::is_turned(k.2, k.1, cos, sin, nk, d, pos, layer.rope_style)
            &&& equations::is_linear(v, a, layer.w_v@, layer.v_bias@, h, nk * d)
        }),
    ensures
        layer.query_row::<M>(x, cos, sin, pos) == q.2,
        layer.key_row::<M>(x, cos, sin, pos) == k.2,
        layer.value_row::<M>(x) == v,
{
    let h = layer.hidden_size as nat;
    let layout = layer.attention.spec_layout();
    let (nq, nk) = (layout.num_heads as nat, layout.num_kv_heads as nat);
    let d = layout.head_dim as nat;
    let eps = scalar::binary64_of::<T, M>(layer.attn_norm.spec_eps().bits);
    kernels::lemma_normed::<T, M>(a, layer.attn_norm, x, layer.attn_norm_weight@);
    kernels::lemma_linear(q.0, a, layer.w_q@, layer.q_bias@, h, nq * d);
    kernels::lemma_head_normed::<T, M>(q.1, q.0, layer.q_norm_weight@, nq, d, eps);
    norm::lemma_head_normed_len::<T, M>(q.0, layer.q_norm_weight@, nq, d, eps);
    kernels::lemma_turned(q.2, q.1, cos, sin, nq, d, pos, layer.rope_style);
    kernels::lemma_linear(k.0, a, layer.w_k@, layer.k_bias@, h, nk * d);
    kernels::lemma_head_normed::<T, M>(k.1, k.0, layer.k_norm_weight@, nk, d, eps);
    norm::lemma_head_normed_len::<T, M>(k.0, layer.k_norm_weight@, nk, d, eps);
    kernels::lemma_turned(k.2, k.1, cos, sin, nk, d, pos, layer.rope_style);
    kernels::lemma_linear(v, a, layer.w_v@, layer.v_bias@, h, nk * d);
}

/// The feed-forward network is `down(silu(gate(x)) * up(x))`, with GELU in
/// place of SiLU where it is configured so, or `down(gelu(up(x)))`.
pub proof fn lemma_ffn<T: Scalar, M: Math<T>>(
    layer: DecoderLayer<T>,
    x: Seq<T>,
    gate: Seq<T>,
    up: Seq<T>,
    active: Seq<T>,
    hidden: Seq<T>,
    down: Seq<T>,
)
    requires
        layer.wf(),
        x.len() == layer.hidden_size,
        ({
            let h = layer.hidden_size as nat;
            let n = layer.ffn.spec_intermediate_size() as nat;
            &&& equations::is_linear(up, x, layer.ffn_up@, Seq::empty(), h, n)
            &&& match layer.ffn {
                FFNConfig::SwiGLU { intermediate_size } => {
                    &&& equations::is_linear(gate, x, layer.ffn_gate@, Seq::empty(), h, n)
                    &&& equations::is_silu::<T, M>(active, gate)
                    &&& equations::is_product(hidden, active, up)
                },
                FFNConfig::GeGLU { intermediate_size } => {
                    &&& equations::is_linear(gate, x, layer.ffn_gate@, Seq::empty(), h, n)
                    &&& equations::is_gelu::<T, M>(active, gate)
                    &&& equations::is_product(hidden, active, up)
                },
                FFNConfig::GELU { intermediate_size } => equations::is_gelu::<T, M>(hidden, up),
            }
            &&& equations::is_linear(down, hidden, layer.ffn_down@, Seq::empty(), n, h)
        }),
    ensures
        layer.ffn_row::<M>(x) == down,
{
    let h = layer.hidden_size as nat;
    let n = layer.ffn.spec_intermediate_size() as nat;
    let none = Seq::<T>::empty();
    kernels::lemma_linear(up, x, layer.ffn_up@, none, h, n);
    kernels::lemma_linear(down, hidden, layer.ffn_down@, none, n, h);
    if layer.ffn.gated() {
        kernels::lemma_linear(gate, x, layer.ffn_gate@, none, h, n);
        kernels::lemma_activations::<T, M>(active, gate);
        kernels::lemma_elementwise(hidden, active, up);
    } else {
        kernels::lemma_activations::<T, M>(hidden, up);
    }
}

/// A layer adds to its input row what the row's query sees, through the output
/// projection, and to that sum its normalised feed-forward network.
pub proof fn lemma_layer<T: Scalar, M: Math<T>>(
    layer: DecoderLayer<T>,
    x: Seq<T>,
    keys: Seq<T>,
    values: Seq<T>,
    start: int,
    n: nat,
    cos: Seq<T>,
    sin: Seq<T>,
    pos: int,
    seen: Seq<T>,
    attn: Seq<T>,
    m: Seq<T>,
    i: int,
)
    requires
        layer.wf(),
        x.len() == layer.hidden_size,
        0 <= pos,
        layer.angles_reach(cos, sin, pos + 1),
        0 <= start,
        (start + n) * layer.attention.spec_layout().kv_dim() <= keys.len(),
        0 <= i < layer.hidden_size,
        ({
            let layout = layer.attention.spec_layout();
            let h = layer.hidden_size as nat;
            &&& equations::is_attention::<T, M>(
                seen,
                layer.query_row::<M>(x, cos, sin, pos),
                keys,
                values,
                layout.num_heads,
                layout.num_kv_heads,
                layout.head_dim,
                start,
                n,
            )
            &&& equations::is_linear(
                attn,
                seen,
                layer.w_o@,
                Seq::empty(),
                layout.num_heads as nat * layout.head_dim as nat,
                h,
            )
            &&& equations::is_normed::<T, M>(
                m,
                layer.ffn_norm,
                Seq::new(h, |j: int| scalar::plus(x[j], attn[j])),
                layer.ffn_norm_weight@,
            )
        }),
    ensures
        layer.output_row::<M>(x, keys, values, start, n, cos, sin, pos).len()
            == layer.hidden_size,
        layer.output_row::<M>(x, keys, values, start, n, cos, sin, pos)[i] == scalar::plus(
            scalar::plus(x[i], attn[i]),
            layer.ffn_row::<M>(m)[i],
        ),
{
    let layout = layer.attention.spec_layout();
    let h = layer.hidden_size as nat;
    let q = layer.query_row::<M>(x, cos, sin, pos);
    lemma_query_len::<T, M>(layer, x, cos, sin, pos);
    kernels::lemma_attention::<T, M>(seen, layout, q, keys, values, start, n);
    kernels::lemma_linear(attn, seen, layer.w_o@, Seq::empty(), layout.q_dim(), h);
    let mid = Seq::new(h, |j: int| scalar::plus(x[j], attn[j]));
    assert(mid =~= ops::sum_of(x, attn));
    kernels::lemma_normed::<T, M>(m, layer.ffn_norm, mid, layer.ffn_norm_weight@);
}

proof fn lemma_query_len<T: Scalar, M: Math<T>>(
    layer: DecoderLayer<T>,
    x: Seq<T>,
    cos: Seq<T>,
    sin: Seq<T>,
    pos: int,
)
    requires
        layer.wf(),
        x.len() == layer.hidden_size,
        0 <= pos,
        layer.angles_reach(cos, sin, pos + 1),
    ensures
        layer.query_row::<M>(x, cos, sin, pos).len() == layer.attention.spec_layout().q_dim(),
        layer.key_row::<M>(x, cos, sin, pos).len() == layer.attention.spec_layout().kv_dim(),
        layer.value_row::<M>(x).len() == layer.attention.spec_layout().kv_dim(),
{
    let h = layer.hidden_size as nat;
    let layout = layer.attention.spec_layout();
    let (nq, nk) = (layout.num_heads as nat, layout.num_kv_heads as nat);
    let d = layout.head_dim as nat;
    let eps = scalar::binary64_of::<T, M>(layer.attn_norm.spec_eps().bits);
    let a = norm::normed_row::<T, M>(layer.attn_norm, x, layer.attn_norm_weight@);
    let q = ops::linear_row(a, layer.w_q@, layer.q_bias@, h, nq * d);
    norm::lemma_head_normed_len::<T, M>(q, layer.q_norm_weight@, nq, d, eps);
    let q = norm::head_normed_row::<T, M>(q, layer.q_norm_weight@, nq, d, eps);
    kernels::lemma_turned(
        rope::rotated_row(q, cos, sin, nq, d, pos, layer.rope_style),
        q,
        cos,
        sin,
        nq,
        d,
        pos,
        layer.rope_style,
    );
    let k = ops::linear_row(a, layer.w_k@, layer.k_bias@, h, nk * d);
    norm::lemma_head_normed_len::<T, M>(k, layer.k_norm_weight@, nk, d, eps);
    let k = norm::head_normed_row::<T, M>(k, layer.k_norm_weight@, nk, d, eps);
    kernels::lemma_turned(
        rope::rotated_row(k, cos, sin, nk, d, pos, layer.rope_style),
        k,
        cos,
        sin,
        nk,
        d,
        pos,
        layer.rope_style,
    );
}

/// Where the output projection and the feed-forward network give zeros, and
/// adding zero changes nothing, a layer hands its input on.
pub proof fn lemma_layer_keeps_residual<T: Scalar, M: Math<T>>(
    layer: DecoderLayer<T>,
    x: Seq<T>,
    keys: Seq<T>,
    values: Seq<T>,
    start: int,
    n: nat,
    cos: Seq<T>,
    sin: Seq<T>,
    pos: int,
)
    requires
        layer.wf(),
        x.len() == layer.hidden_size,
        forall|a: T| #[trigger] scalar::plus(a, scalar::zero()) == a,
        forall|a: T| #[trigger] scalar::times(a, scalar::zero()) == scalar::zero::<T>(),
        forall|i: int| 0 <= i < layer.w_o@.len() ==> #[trigger] layer.w_o@[i] == scalar::zero::<T>(),
        forall|i: int|
            0 <= i < layer.ffn_down@.len() ==> #[trigger] layer.ffn_down@[i] == scalar::zero::<T>(),
    ensures
        layer.output_row::<M>(x, keys, values, start, n, cos, sin, pos) == x,
{
    let layout = layer.attention.spec_layout();
    let h = layer.hidden_size as nat;
    let inter = layer.ffn.spec_intermediate_size() as nat;
    let seen = attention::row_output::<T, M>(
        layout,
        layer.query_row::<M>(x, cos, sin, pos),
        keys,
        values,
        start,
        n,
    );
    kernels::lemma_zero_map(seen, layer.w_o@, layout.q_dim(), h);
    let attn = ops::linear_row(seen, layer.w_o@, Seq::empty(), layout.q_dim(), h);
    let mid = ops::sum_of(x, attn);
    assert(mid =~= x);
    let m = norm::normed_row::<T, M>(layer.ffn_norm, mid, layer.ffn_norm_weight@);
    let none = Seq::<T>::empty();
    let gate = ops::linear_row(m, layer.ffn_gate@, none, h, inter);
    let up = ops::linear_row(m, layer.ffn_up@, none, h, inter);
    let hidden = match layer.ffn {
        FFNConfig::SwiGLU { intermediate_size } => ops::product_of(
            ops::all_activated::<T, M>(Activation::Silu, gate),
            up,
        ),
        FFNConfig::GeGLU { intermediate_size } => ops::product_of(
            ops::all_activated::<T, M>(Activation::Gelu, gate),
            up,
        ),
        FFNConfig::GELU { intermediate_size } => ops::all_activated::<T, M>(Activation::Gelu, up),
    };
    kernels::lemma_zero_map(hidden, layer.ffn_down@, inter, h);
    assert(layer.output_row::<M>(x, keys, values, start, n, cos, sin, pos) =~= x);
}

/// Row `t` of a layer's output is that of row `t` at position `t`, which sees
/// the keys and values of the rows up to `t`, each at its own position.
pub proof fn lemma_layer_rows<T: Scalar, M: Math<T>>(
    layer: DecoderLayer<T>,
    x: Seq<T>,
    rows: nat,
    cos: Seq<T>,
    sin: Seq<T>,
    keys: Seq<T>,
    values: Seq<T>,
    t: int,
)
    requires
        layer.wf(),
        x.len() == rows * layer.hidden_size,
        layer.angles_reach(cos, sin, rows as int),
        keys.len() == rows * layer.attention.spec_layout().kv_dim(),
        values.len() == rows * layer.attention.spec_layout().kv_dim(),
        forall|s: int|
            0 <= s < rows ==> #[trigger] equations::line(
                keys,
                s,
                layer.attention.spec_layout().kv_dim() as int,
            ) == layer.key_row::<M>(
                equations::line(x, s, layer.hidden_size as int),
                cos,
                sin,
                s,
            ),
        forall|s: int|
            0 <= s < rows ==> #[trigger] equations::line(
                values,
                s,
                layer.attention.spec_layout().kv_dim() as int,
            ) == layer.value_row::<M>(equations::line(x, s, layer.hidden_size as int)),
        0 <= t < rows,
    ensures
        layer.forward_of::<M>(x, rows, cos, sin).len() == rows * layer.hidden_size,
        layer.key_rows::<M>(x, rows, cos, sin) == keys,
        layer.value_rows::<M>(x, rows) == values,
        equations::line(
            layer.forward_of::<M>(x, rows, cos, sin),
            t,
            layer.hidden_size as int,
        ) == layer.output_row::<M>(
            equations::line(x, t, layer.hidden_size as int),
            keys,
            values,
            0,
            (t + 1) as nat,
            cos,
            sin,
            t,
        ),
{
    let h = layer.hidden_size as int;
    let half = layer.attention.spec_layout().head_dim as int / 2;
    let w = layer.attention.spec_layout().kv_dim();
    let fk = |s: int| layer.key_row::<M>(ops::row(x, s, h), cos, sin, s);
    let fv = |s: int| layer.value_row::<M>(ops::row(x, s, h));
    assert forall|s: int| 0 <= s < rows implies #[trigger] fk(s).len() == w by {
        ops::lemma_row_bounds(s, rows as int, h);
        ops::lemma_row_bounds(s, rows as int, half);
        lemma_query_len::<T, M>(layer, ops::row(x, s, h), cos, sin, s);
    }
    assert forall|s: int| 0 <= s < rows implies #[trigger] fv(s).len() == w by {
        ops::lemma_row_bounds(s, rows as int, h);
        ops::lemma_row_bounds(s, rows as int, half);
        lemma_query_len::<T, M>(layer, ops::row(x, s, h), cos, sin, s);
    }
    ops::lemma_blocks_rows(rows, fk, w);
    ops::lemma_blocks_rows(rows, fv, w);
    let ks = layer.key_rows::<M>(x, rows, cos, sin);
    let vs = layer.value_rows::<M>(x, rows);
    assert(ks == ops::blocks(rows, fk));
    assert(vs == ops::blocks(rows, fv));
    assert forall|s: int| 0 <= s < rows implies #[trigger] ops::row(ks, s, w as int) == ops::row(
        keys,
        s,
        w as int,
    ) by {
        ops::lemma_row_bounds(s, rows as int, h);
        ops::lemma_row_bounds(s, rows as int, w as int);
        assert(ops::row(ks, s, w as int) == fk(s));
        assert(equations::line(keys, s, w as int) == ops::row(keys, s, w as int));
        assert(equations::line(x, s, h) == ops::row(x, s, h));
    }
    assert forall|s: int| 0 <= s < rows implies #[trigger] ops::row(vs, s, w as int) == ops::row(
        values,
        s,
        w as int,
    ) by {
        ops::lemma_row_bounds(s, rows as int, h);
        ops::lemma_row_bounds(s, rows as int, w as int);
        assert(ops::row(vs, s, w as int) == fv(s));
        assert(equations::line(values, s, w as int) == ops::row(values, s, w as int));
        assert(equations::line(x, s, h) == ops::row(x, s, h));
    }
    kernels::lemma_same_by_lines(ks, keys, rows, w);
    kernels::lemma_same_by_lines(vs, values, rows, w);
    let f = |s: int|
        layer.output_row::<M>(
            ops::row(x, s, h),
            layer.key_rows::<M>(x, rows, cos, sin),
            layer.value_rows::<M>(x, rows),
            0,
            (s + 1) as nat,
            cos,
            sin,
            s,
        );
    assert forall|s: int| 0 <= s < rows implies #[trigger] f(s).len() == h by {
        ops::lemma_row_bounds(s, rows as int, h);
    }
    kernels::lemma_line_of_blocks(rows, f, h as nat, t);
    ops::lemma_row_bounds(t, rows as int, h);
}

/// Column `j` of a token's embedding is that column of its row of the table,
/// times the scale where one is configured, and zero for an unknown token.
pub proof fn lemma_embedding<T: Scalar, M: Math<T>>(model: CausalLM<T>, id: u32, j: int)
    requires
        model.wf(),
        0 <= j < model.config.architecture.hidden_size,
    ensures
        model.embed_row::<M>(id).len() == model.config.architecture.hidden_size,
        ({
            let h = model.config.architecture.hidden_size as int;
            let e = if id < model.config.architecture.vocab_size {
                model.embed_tokens@[id * h + j]
            } else {
                scalar::zero()
            };
            model.embed_row::<M>(id)[j] == match model.config.architecture.embed_scale {
                Some(scale) => scalar::times(e, scalar::binary64_of::<T, M>(scale.bits)),
                None => e,
            }
        }),
{
    let h = model.config.architecture.hidden_size as int;
    if id < model.config.architecture.vocab_size {
        ops::lemma_row_bounds(id as int, model.config.architecture.vocab_size as int, h);
    }
}

/// The logits of a hidden row are its final normalisation times the output
/// head, which is the embedding table where the model has no head of its own.
pub proof fn lemma_logits<T: Scalar, M: Math<T>>(
    model: CausalLM<T>,
    x: Seq<T>,
    a: Seq<T>,
    v: int,
)
    requires
        model.wf(),
        x.len() == model.config.architecture.hidden_size,
        equations::is_normed::<T, M>(a, model.final_norm, x, model.final_norm_weight@),
        0 <= v < model.config.architecture.vocab_size,
    ensures
        model.logits_row::<M>(x).len() == model.config.architecture.vocab_size,
        ({
            let h = model.config.architecture.hidden_size as nat;
            let head = match model.lm_head_weight {
                Some(w) => w@,
                None => model.embed_tokens@,
            };
            model.logits_row::<M>(x)[v] == equations::sigma(
                h,
                |i: int| scalar::times(a[i], head[v * h + i]),
            )
        }),
{
    let h = model.config.architecture.hidden_size as nat;
    kernels::lemma_normed::<T, M>(a, model.final_norm, x, model.final_norm_weight@);
    kernels::lemma_linear(
        model.logits_row::<M>(x),
        a,
        model.head_weight(),
        Seq::empty(),
        h,
        model.config.architecture.vocab_size as nat,
    );
}

/// Row `t` of a model's logits is that of row `t` behind the last layer; the
/// first layer takes the embeddings in order, and each other layer what the one
/// before it gives.
pub proof fn lemma_model<T: Scalar, M: Math<T>>(
    model: CausalLM<T>,
    ids: Seq<u32>,
    states: Seq<Seq<T>>,
    t: int,
)
    requires
        model.wf(),
        model.positions_reach(ids.len() as int),
        0 <= t < ids.len(),
        states.len() == model.layers@.len() + 1,
        states[0].len() == ids.len() * model.config.architecture.hidden_size,
        forall|s: int|
            0 <= s < ids.len() ==> #[trigger] equations::line(
                states[0],
                s,
                model.config.architecture.hidden_size as int,
            ) == model.embed_row::<M>(ids[s]),
        forall|i: int|
            0 <= i < model.layers@.len() ==> states[i + 1] == (
            #[trigger] model.layers@[i]).forward_of::<M>(
                states[i],
                ids.len(),
                model.rope_cos@,
                model.rope_sin@,
            ),
    ensures
        model.logits_of::<M>(ids).len() == ids.len() * model.config.architecture.vocab_size,
        equations::line(
            model.logits_of::<M>(ids),
            t,
            model.config.architecture.vocab_size as int,
        ) == model.logits_row::<M>(
            equations::line(
                states[model.layers@.len() as int],
                t,
                model.config.architecture.hidden_size as int,
            ),
        ),
{
    let h = model.config.architecture.hidden_size as nat;
    let vocab = model.config.architecture.vocab_size as nat;
    let n = ids.len();
    let e = |s: int| model.embed_row::<M>(ids[s]);
    assert forall|s: int| 0 <= s < n implies #[trigger] e(s).len() == h by {
        if ids[s] < vocab {
            ops::lemma_row_bounds(ids[s] as int, vocab as int, h as int);
        }
    }
    ops::lemma_blocks_rows(n, e, h);
    let x = model.embeddings::<M>(ids);
    assert forall|s: int| 0 <= s < n implies #[trigger] ops::row(x, s, h as int) == ops::row(
        states[0],
        s,
        h as int,
    ) by {
        ops::lemma_row_bounds(s, n as int, h as int);
        assert(ops::row(x, s, h as int) == e(s));
        assert(equations::line(states[0], s, h as int) == ops::row(states[0], s, h as int));
    }
    kernels::lemma_same_by_lines(x, states[0], n, h);
    lemma_states::<T, M>(model, n, states, model.layers@.len());
    let last = states[model.layers@.len() as int];
    assert(model.final_hidden::<M>(ids) == last);
    let f = |s: int|
        model.logits_row::<M>(
            ops::row(
                model.final_hidden::<M>(ids),
                s,
                model.config.architecture.hidden_size as int,
            ),
        );
    kernels::lemma_line_of_blocks(n, f, vocab, t);
    ops::lemma_row_bounds(t, n as int, h as int);
}

proof fn lemma_states<T: Scalar, M: Math<T>>(
    model: CausalLM<T>,
    rows: nat,
    states: Seq<Seq<T>>,
    n: nat,
)
    requires
        n <= model.layers@.len(),
        states.len() == model.layers@.len() + 1,
        forall|i: int|
            0 <= i < model.layers@.len() ==> states[i + 1] == (
            #[trigger] model.layers@[i]).forward_of::<M>(
                states[i],
                rows,
                model.rope_cos@,
                model.rope_sin@,
            ),
    ensures
        model.hidden_after::<M>(states[0], rows, n) == states[n as int],
    decreases n,
{
    if n > 0 {
        lemma_states::<T, M>(model, rows, states, (n - 1) as nat);
        assert(states[n - 1 + 1] == model.layers@[n - 1].forward_of::<M>(
            states[n - 1],
            rows,
            model.rope_cos@,
            model.rope_sin@,
        ));
    }
}

/// The angle of dimension `i` at position `pos` stands at `pos * (d / 2) + i` of
/// the tables: `pos` over `base ^ (2 i / d)`, and over the factor of linear
/// scaling.
pub proof fn lemma_tables<T: Scalar, M: Math<T>>(config: ModelConfig, pos: int, i: int)
    requires
        0 <= pos < builder::table_rows(config),
        0 <= i < config.attention.spec_layout().head_dim as int / 2,
    ensures
        ({
            let d = config.attention.spec_layout().head_dim;
            let half = d as int / 2;
            let exponent = scalar::over(
                scalar::times(
                    scalar::count_of::<T, M>(2),
                    scalar::count_of::<T, M>(i as usize),
                ),
                scalar::count_of::<T, M>(d),
            );
            let freq = scalar::over(
                scalar::over(
                    scalar::one::<T, M>(),
                    scalar::pow_of::<T, M>(builder::effective_base::<T, M>(config), exponent),
                ),
                builder::linear_factor::<T, M>(config),
            );
            let angle = scalar::times(scalar::count_of::<T, M>(pos as usize), freq);
            &&& builder::cos_table::<T, M>(config)[pos * half + i] == scalar::cos_of::<T, M>(angle)
            &&& builder::sin_table::<T, M>(config)[pos * half + i] == scalar::sin_of::<T, M>(angle)
        }),
{
    let half = config.attention.spec_layout().head_dim as nat / 2;
    let n = builder::table_rows(config) as nat;
    let fc = |p: int|
        Seq::new(half, |k: int| scalar::cos_of::<T, M>(builder::angle::<T, M>(config, p, k)));
    let fs = |p: int|
        Seq::new(half, |k: int| scalar::sin_of::<T, M>(builder::angle::<T, M>(config, p, k)));
    kernels::lemma_line_of_blocks(n, fc, half, pos);
    kernels::lemma_line_of_blocks(n, fs, half, pos);
    let (c, s) = (builder::cos_table::<T, M>(config), builder::sin_table::<T, M>(config));
    assert(c == ops::blocks(n, fc));
    assert(s == ops::blocks(n, fs));
    ops::lemma_row_bounds(pos, n as int, half as int);
    assert(equations::line(c, pos, half as int)[i] == c[pos * half + i]);
    assert(equations::line(s, pos, half as int)[i] == s[pos * half + i]);
}

/// One decoded token goes through the layers in order. Each adds the token's key
/// and value to its cache and sees what the cache then holds: all of it, or the
/// last positions where a window is configured.
pub proof fn lemma_decode<T: Scalar, M: Math<T>>(
    model: CausalLM<T>,
    cache: Seq<KVCacheLayer<T>>,
    pos: int,
    rows: Seq<Seq<T>>,
    n: nat,
)
    requires
        n <= model.layers@.len(),
        rows.len() == model.layers@.len() + 1,
        forall|i: int|
            0 <= i < model.layers@.len() ==> {
                let layer = #[trigger] model.layers@[i];
                let len = cache[i].positions() + 1;
                let seen = match layer.attention.spec_window() {
                    Some(w) => if w < len {
                        w as nat
                    } else {
                        len
                    },
                    None => len,
                };
                rows[i + 1] == layer.output_row::<M>(
                    rows[i],
                    cache[i].key_rows() + layer.key_row::<M>(
                        rows[i],
                        model.rope_cos@,
                        model.rope_sin@,
                        pos,
                    ),
                    cache[i].value_rows() + layer.value_row::<M>(rows[i]),
                    len - seen,
                    seen,
                    model.rope_cos@,
                    model.rope_sin@,
                    pos,
                )
            },
    ensures
        model.decoded::<M>(rows[0], cache, pos, n) == rows[n as int],
    decreases n,
{
    if n > 0 {
        lemma_decode::<T, M>(model, cache, pos, rows, (n - 1) as nat);
        let layer = model.layers@[n - 1];
        let len = cache[n - 1].positions() + 1;
        let seen = match layer.attention.spec_window() {
            Some(w) => if w < len {
                w as nat
            } else {
                len
            },
            None => len,
        };
        assert(attention::window_start(len, layer.attention.spec_window()) == len - seen);
    }
}

/// A decoding step appends to each layer's cache the key and value of the row
/// that reaches the layer, a prompt those of its rows in order, and a layer that
/// is skipped a row of zeros; what was there stays.
pub proof fn lemma_cache_grows<T: Scalar, M: Math<T>>(
    model: CausalLM<T>,
    i: int,
    before: Seq<KVCacheLayer<T>>,
    after: KVCacheLayer<T>,
    x: Seq<T>,
    pos: int,
    ids: Seq<u32>,
)
    ensures
        model.layer_decoded::<M>(i, before, after, x, pos) ==> {
            let y = model.decoded::<M>(x, before, pos, i as nat);
            let k = model.layers@[i].key_row::<M>(y, model.rope_cos@, model.rope_sin@, pos);
            let v = model.layers@[i].value_row::<M>(y);
            &&& after.positions() == before[i].positions() + 1
            &&& after.key_rows().len() == before[i].key_rows().len() + k.len()
            &&& after.value_rows().len() == before[i].value_rows().len() + v.len()
            &&& forall|p: int|
                0 <= p < after.key_rows().len() ==> #[trigger] after.key_rows()[p] == if p
                    < before[i].key_rows().len() {
                    before[i].key_rows()[p]
                } else {
                    k[p - before[i].key_rows().len()]
                }
            &&& forall|p: int|
                0 <= p < after.value_rows().len() ==> #[trigger] after.value_rows()[p] == if p
                    < before[i].value_rows().len() {
                    before[i].value_rows()[p]
                } else {
                    v[p - before[i].value_rows().len()]
                }
        },
        model.layer_prefilled::<M>(i, before[i], after, ids) ==> {
            let y = model.hidden_after::<M>(model.embeddings::<M>(ids), ids.len(), i as nat);
            let k = model.layers@[i].key_rows::<M>(
                y,
                ids.len(),
                model.rope_cos@,
                model.rope_sin@,
            );
            let v = model.layers@[i].value_rows::<M>(y, ids.len());
            &&& after.positions() == before[i].positions() + ids.len()
            &&& after.key_rows() == before[i].key_rows() + k
            &&& after.value_rows() == before[i].value_rows() + v
        },
        model.layer_padded(before[i], after) ==> {
            let w = model.config.attention.spec_layout().kv_dim();
            &&& after.positions() == before[i].positions() + 1
            &&& after.key_rows().len() == before[i].key_rows().len() + w
            &&& after.value_rows().len() == before[i].value_rows().len() + w
            &&& forall|p: int|
                0 <= p < after.key_rows().len() ==> #[trigger] after.key_rows()[p] == if p
                    < before[i].key_rows().len() {
                    before[i].key_rows()[p]
                } else {
                    scalar::zero()
                }
            &&& forall|p: int|
                0 <= p < after.value_rows().len() ==> #[trigger] after.value_rows()[p] == if p
                    < before[i].value_rows().len() {
                    before[i].value_rows()[p]
                } else {
                    scalar::zero()
                }
        },
{
}

/// A model's parameters are its embeddings, a head of the same size where that
/// is not tied, those of its layers and the final normalisation.
pub proof fn lemma_parameters<T: Scalar>(model: CausalLM<T>, each: int)
    requires
        forall|i: int|
            0 <= i < model.layers@.len() ==> (
            #[trigger] model.structure().layers[i]).param_total() == each,
    ensures
        ({
            let h = model.config.architecture.hidden_size as int;
            let vocab = model.config.architecture.vocab_size as int;
            let tables: int = if model.config.architecture.tie_word_embeddings {
                1
            } else {
                2
            };
            model.param_total() == tables * (vocab * h) + model.layers@.len() * each + h
        }),
{
    let structures = model.structure().layers;
    lemma_layer_parameters(structures, each, model.layers@.len());
    let v = model.config.architecture.vocab_size * model.config.architecture.hidden_size;
    assert(2 * v == v + v) by (nonlinear_arith);
    assert(1 * v == v) by (nonlinear_arith);
}

proof fn lemma_layer_parameters(layers: Seq<DecoderStructure>, each: int, n: nat)
    requires
        forall|i: int| 0 <= i < n ==> (#[trigger] layers[i]).param_total() == each,
    ensures
        causal_lm::layer_params(layers, n) == n * each,
    decreases n,
{
    if n > 0 {
        lemma_layer_parameters(layers, each, (n - 1) as nat);
        assert(layers[n - 1].param_total() == each);
        assert(n * each == (n - 1) * each + each) by (nonlinear_arith);
    } else {
        assert(0 * each == 0) by (nonlinear_arith);
    }
}

/// A prompt's logits are the last row of what a full pass over it gives.
pub proof fn lemma_prefill_is_last_row<T: Scalar, M: Math<T>>(
    model: CausalLM<T>,
    ids: Seq<u32>,
    before: KVCache<T>,
    after: KVCache<T>,
    filled: ModelOutput<T>,
    all: ModelOutput<T>,
)
    requires
        Model::<T, M>::can_prefill(&model, ids, before),
        Model::<T, M>::is_prefill(&model, ids, before, after, filled),
        Model::<T, M>::is_forward(&model, ids, all),
    ensures
        filled.logits@ == equations::line(
            all.logits@,
            ids.len() - 1,
            model.config.architecture.vocab_size as int,
        ),
        all.logits@.len() == ids.len() * model.config.architecture.vocab_size,
        filled.shape@ == seq![1usize, 1usize, model.config.architecture.vocab_size],
        forall|i: int|
            0 <= i < model.layers@.len() ==> (#[trigger] after.layers@[i]).positions()
                == before.layers@[i].positions() + ids.len(),
{
    let h = model.config.architecture.hidden_size as int;
    let vocab = model.config.architecture.vocab_size as nat;
    let f = |t: int|
        model.logits_row::<M>(
            ops::row(
                model.final_hidden::<M>(ids),
                t,
                model.config.architecture.hidden_size as int,
            ),
        );
    kernels::lemma_line_of_blocks(ids.len(), f, vocab, ids.len() - 1);
    assert forall|i: int| 0 <= i < model.layers@.len() implies (
    #[trigger] after.layers@[i]).positions() == before.layers@[i].positions() + ids.len() by {
        let b = before.layers@[i];
    }
}

/// A draft that runs every layer is a decoding step, where embeddings are not
/// scaled; one that runs fewer leaves the state of a shorter model.
pub proof fn lemma_full_draft<T: Scalar, M: Math<T>>(
    model: CausalLM<T>,
    token: u32,
    n: usize,
    before: KVCache<T>,
    after: KVCache<T>,
    out: ModelOutput<T>,
)
    requires
        model.config.architecture.embed_scale is None,
    ensures
        n >= model.layers@.len() ==> (Model::<T, M>::is_draft(&model, token, n, before, after, out)
            <==> Model::<T, M>::is_decode(&model, token, before, after, out)),
        n < model.layers@.len() && Model::<T, M>::is_draft(&model, token, n, before, after, out)
            ==> {
            let pos = if before.layers@.len() > 0 {
                before.layers@[0].positions() as int
            } else {
                0
            };
            &&& out.logits@ == model.logits_row::<M>(
                model.decoded::<M>(model.embed_row::<M>(token), before.layers@, pos, n as nat),
            )
            &&& forall|i: int|
                0 <= i < n ==> model.layer_decoded::<M>(
                    i,
                    before.layers@,
                    #[trigger] after.layers@[i],
                    model.embed_row::<M>(token),
                    pos,
                )
            &&& forall|i: int|
                n <= i < model.layers@.len() ==> model.layer_padded(
                    #[trigger] before.layers@[i],
                    after.layers@[i],
                )
        },
{
}

/// Filling a cache on a device leaves what filling it on the host does, where
/// embeddings are not scaled.
pub proof fn lemma_filled_on_device<T: Scalar, M: Math<T>>(
    model: CausalLM<T>,
    i: int,
    before: KVCacheLayer<T>,
    after: KVCacheLayer<T>,
    ids: Seq<u32>,
)
    requires
        model.config.architecture.embed_scale is None,
    ensures
        model.layer_filled::<M>(i, before, after, ids) <==> model.layer_prefilled::<M>(
            i,
            before,
            after,
            ids,
        ),
{
    ops::lemma_blocks_same(
        ids.len(),
        |t: int| model.token_row(ids[t]),
        |t: int| model.embed_row::<M>(ids[t]),
    );
}

/// The shape that a device is given for the layers is the configured one.
pub proof fn lemma_device_shape<T: Scalar, M: Math<T>>(model: CausalLM<T>)
    ensures
        ({
            let s = model.layer_shape::<M>();
            let l = model.config.attention.spec_layout();
            &&& s.num_heads == l.num_heads
            &&& s.num_kv_heads == l.num_kv_heads
            &&& s.head_dim == l.head_dim
            &&& s.hidden_size == model.config.architecture.hidden_size
            &&& s.intermediate_size == model.config.ffn.spec_intermediate_size()
            &&& model.layers@.len() > 0 ==> s.has_head_norms == model.layers@[0].has_head_norms
            &&& model.layers@.len() > 0 ==> s.eps == scalar::binary64_of::<T, M>(
                model.layers@[0].attn_norm.spec_eps().bits,
            )
        }),
{
}

} // verus!
