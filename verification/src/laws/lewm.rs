//! The latent world model: its tokens, its conditioned layers and its rollout.

use vstd::prelude::*;

use crate::laws::equations;
use crate::laws::kernels;
use crate::laws::text_encoder;
use crate::models::vision::adaln::{AdaLNShape, AdaLNTransformerLayer};
use crate::models::vision::lewm;
use crate::models::vision::lewm::{LeWMConfig, LeWorldModel, ProjectionHead};
use crate::models::vision::lewm_device;
use crate::models::vision::lewm_device::{PredictorDevice, PredictorKernel};
use crate::ops;
use crate::scalar;
use crate::scalar::{Math, Scalar};

verus! {

/// The three tokens are the state, the action and zeros, each with its row of
/// the positional embedding added where there is one.
pub proof fn lemma_tokens<T: Scalar>(model: LeWorldModel<T>, z: Seq<T>, a: Seq<T>, j: int)
    requires
        z.len() == model.config.latent_dim,
        a.len() == model.config.latent_dim,
        0 <= j < model.config.latent_dim,
    ensures
        model.tokens_of(z, a).len() == 3 * model.config.latent_dim,
        ({
            let t = model.tokens_of(z, a);
            let p = model.predictor_pos_embed@;
            let n = model.config.latent_dim;
            &&& t[j] == if j < p.len() {
                scalar::plus(z[j], p[j])
            } else {
                z[j]
            }
            &&& t[n + j] == if n + j < p.len() {
                scalar::plus(a[j], p[n + j])
            } else {
                a[j]
            }
            &&& t[2 * n + j] == if 2 * n + j < p.len() {
                scalar::plus(scalar::zero(), p[2 * n + j])
            } else {
                scalar::zero()
            }
        }),
{
}

/// Without a positional embedding, tokens tell states and actions apart.
pub proof fn lemma_tokens_tell<T: Scalar>(
    model: LeWorldModel<T>,
    z: Seq<T>,
    a: Seq<T>,
    y: Seq<T>,
    b: Seq<T>,
)
    requires
        z.len() == model.config.latent_dim,
        a.len() == model.config.latent_dim,
        y.len() == model.config.latent_dim,
        b.len() == model.config.latent_dim,
        model.predictor_pos_embed@.len() == 0,
        model.tokens_of(z, a) == model.tokens_of(y, b),
    ensures
        z == y,
        a == b,
{
    assert forall|j: int| 0 <= j < z.len() implies z[j] == y[j] && a[j] == b[j] by {
        lemma_tokens(model, z, a, j);
        lemma_tokens(model, y, b, j);
    }
    assert(z =~= y);
    assert(a =~= b);
}

/// A layer's modulation: scale, shift and gate of the attention, then those of
/// the feed-forward network, each as wide as a row.
pub open spec fn is_modulation<T: Scalar>(
    m: Seq<T>,
    layer: AdaLNTransformerLayer<T>,
    conditioning: Seq<T>,
    s: AdaLNShape,
) -> bool {
    equations::is_linear(
        m,
        conditioning,
        layer.adaln_weight@,
        layer.adaln_bias@,
        s.hidden as nat,
        6 * s.hidden as nat,
    )
}

/// `y[j] = x[j] * (1 + m[scale, j]) + m[shift, j]`.
pub open spec fn is_modulated<T: Scalar, M: Math<T>>(
    y: Seq<T>,
    x: Seq<T>,
    m: Seq<T>,
    scale: int,
    shift: int,
    h: int,
) -> bool {
    &&& y.len() == h
    &&& forall|j: int|
        0 <= j < h ==> #[trigger] y[j] == scalar::plus(
            scalar::times(x[j], scalar::plus(scalar::one::<T, M>(), m[scale * h + j])),
            m[shift * h + j],
        )
}

/// `y[j] = x[j] + m[gate, j] * b[j]`.
pub open spec fn is_gated_sum<T: Scalar>(
    y: Seq<T>,
    x: Seq<T>,
    m: Seq<T>,
    gate: int,
    b: Seq<T>,
    h: int,
) -> bool {
    &&& y.len() == h
    &&& forall|j: int|
        0 <= j < h ==> #[trigger] y[j] == scalar::plus(
            x[j],
            scalar::times(m[gate * h + j], b[j]),
        )
}

/// The rows that a conditioned layer goes through for one of its rows.
pub struct AdaLNSteps<T> {
    pub normed: Seq<T>,
    pub modulated: Seq<T>,
    pub fused: Seq<T>,
    pub seen: Seq<T>,
    pub out: Seq<T>,
    pub mid: Seq<T>,
    pub mlp_normed: Seq<T>,
    pub mlp_modulated: Seq<T>,
    pub up: Seq<T>,
    pub active: Seq<T>,
    pub down: Seq<T>,
    pub result: Seq<T>,
}

/// The first rows, up to queries, keys and values, of the row `x`.
pub open spec fn are_adaln_projections<T: Scalar, M: Math<T>>(
    r: AdaLNSteps<T>,
    layer: AdaLNTransformerLayer<T>,
    x: Seq<T>,
    m: Seq<T>,
    s: AdaLNShape,
) -> bool {
    let h = s.hidden as nat;
    let eps = scalar::binary64_of::<T, M>(0x3EB0_C6F7_A0B5_ED8D);
    &&& equations::is_layer_norm::<T, M>(
        r.normed,
        x,
        layer.attn_norm_weight@,
        Seq::empty(),
        eps,
    )
    &&& is_modulated::<T, M>(r.modulated, r.normed, m, 0, 1, h as int)
    &&& equations::is_linear(
        r.fused,
        r.modulated,
        layer.to_qkv@,
        Seq::empty(),
        h,
        3 * s.inner_dim as nat,
    )
}

/// The rows are what a conditioned layer computes for the row `x` under the
/// modulation `m`, with the keys and values of all rows.
pub open spec fn are_adaln_steps<T: Scalar, M: Math<T>>(
    r: AdaLNSteps<T>,
    layer: AdaLNTransformerLayer<T>,
    x: Seq<T>,
    m: Seq<T>,
    keys: Seq<T>,
    values: Seq<T>,
    rows: nat,
    s: AdaLNShape,
) -> bool {
    let (h, inner, inter) = (s.hidden as nat, s.inner_dim as nat, s.inter as nat);
    let eps = scalar::binary64_of::<T, M>(0x3EB0_C6F7_A0B5_ED8D);
    &&& are_adaln_projections::<T, M>(r, layer, x, m, s)
    &&& equations::is_attention::<T, M>(
        r.seen,
        r.fused.subrange(0, inner as int),
        keys,
        values,
        s.num_heads,
        s.num_heads,
        (inner as int / s.num_heads as int) as usize,
        0,
        rows,
    )
    &&& equations::is_linear(
        r.out,
        r.seen,
        layer.attn_out_weight@,
        layer.attn_out_bias@,
        inner,
        h,
    )
    &&& is_gated_sum(r.mid, x, m, 2, r.out, h as int)
    &&& equations::is_layer_norm::<T, M>(
        r.mlp_normed,
        r.mid,
        layer.mlp_norm_weight@,
        Seq::empty(),
        eps,
    )
    &&& is_modulated::<T, M>(r.mlp_modulated, r.mlp_normed, m, 3, 4, h as int)
    &&& equations::is_linear(
        r.up,
        r.mlp_modulated,
        layer.mlp_up_weight@,
        layer.mlp_up_bias@,
        h,
        inter,
    )
    &&& equations::is_gelu::<T, M>(r.active, r.up)
    &&& equations::is_linear(
        r.down,
        r.active,
        layer.mlp_down_weight@,
        layer.mlp_down_bias@,
        inter,
        h,
    )
    &&& is_gated_sum(r.result, r.mid, m, 5, r.down, h as int)
}

proof fn lemma_adaln_projections<T: Scalar, M: Math<T>>(
    r: AdaLNSteps<T>,
    layer: AdaLNTransformerLayer<T>,
    x: Seq<T>,
    m: Seq<T>,
    s: AdaLNShape,
)
    requires
        layer.wf(s),
        x.len() == s.hidden,
        m.len() == 6 * s.hidden,
        are_adaln_projections::<T, M>(r, layer, x, m, s),
    ensures
        r.fused == layer.qkv_row::<M>(x, m, s),
        r.fused.len() == 3 * s.inner_dim,
{
    let h = s.hidden as int;
    let eps = scalar::binary64_of::<T, M>(0x3EB0_C6F7_A0B5_ED8D);
    kernels::lemma_layer_norm::<T, M>(
        r.normed,
        x,
        layer.attn_norm_weight@,
        Seq::empty(),
        eps,
    );
    ops::lemma_row_bounds(0, 6, h);
    ops::lemma_row_bounds(1, 6, h);
    assert(r.modulated =~= layer.attn_input::<M>(x, m, s));
    kernels::lemma_linear(
        r.fused,
        r.modulated,
        layer.to_qkv@,
        Seq::empty(),
        h as nat,
        3 * s.inner_dim as nat,
    );
}

/// A conditioned layer's output row is the last of its steps.
pub proof fn lemma_adaln_row<T: Scalar, M: Math<T>>(
    r: AdaLNSteps<T>,
    layer: AdaLNTransformerLayer<T>,
    x: Seq<T>,
    m: Seq<T>,
    keys: Seq<T>,
    values: Seq<T>,
    rows: nat,
    s: AdaLNShape,
)
    requires
        layer.wf(s),
        x.len() == s.hidden,
        m.len() == 6 * s.hidden,
        keys.len() == rows * s.inner_dim,
        are_adaln_steps::<T, M>(r, layer, x, m, keys, values, rows, s),
    ensures
        layer.output_row::<M>(x, m, keys, values, rows, s) == r.result,
{
    let (h, inner, inter) = (s.hidden as nat, s.inner_dim as nat, s.inter as nat);
    let eps = scalar::binary64_of::<T, M>(0x3EB0_C6F7_A0B5_ED8D);
    lemma_adaln_projections::<T, M>(r, layer, x, m, s);
    text_encoder::lemma_heads_divide(s.inner_dim, s.num_heads);
    let q = r.fused.subrange(0, inner as int);
    assert(q =~= ops::row(r.fused, 0, inner as int));
    kernels::lemma_attention::<T, M>(r.seen, s.spec_layout(), q, keys, values, 0, rows);
    kernels::lemma_linear(r.out, r.seen, layer.attn_out_weight@, layer.attn_out_bias@, inner, h);
    ops::lemma_row_bounds(2, 6, h as int);
    ops::lemma_row_bounds(3, 6, h as int);
    ops::lemma_row_bounds(4, 6, h as int);
    ops::lemma_row_bounds(5, 6, h as int);
    assert(r.mid =~= layer.attended_row(x, r.seen, m, s));
    kernels::lemma_layer_norm::<T, M>(
        r.mlp_normed,
        r.mid,
        layer.mlp_norm_weight@,
        Seq::empty(),
        eps,
    );
    assert(r.mlp_modulated =~= layer.ffn_input::<M>(r.mid, m, s));
    kernels::lemma_linear(
        r.up,
        r.mlp_modulated,
        layer.mlp_up_weight@,
        layer.mlp_up_bias@,
        h,
        inter,
    );
    kernels::lemma_activations::<T, M>(r.active, r.up);
    kernels::lemma_linear(
        r.down,
        r.active,
        layer.mlp_down_weight@,
        layer.mlp_down_bias@,
        inter,
        h,
    );
    assert(r.result =~= layer.fed_row(r.mid, r.active, m, s));
}

/// Every row of a conditioned layer sees the keys and values of all its rows:
/// the second and the third part of their fused projections.
pub proof fn lemma_adaln_layer<T: Scalar, M: Math<T>>(
    steps: Seq<AdaLNSteps<T>>,
    layer: AdaLNTransformerLayer<T>,
    x: Seq<T>,
    conditioning: Seq<T>,
    m: Seq<T>,
    keys: Seq<T>,
    values: Seq<T>,
    rows: nat,
    s: AdaLNShape,
    t: int,
)
    requires
        layer.wf(s),
        x.len() == rows * s.hidden,
        is_modulation(m, layer, conditioning, s),
        steps.len() == rows,
        keys.len() == rows * s.inner_dim,
        values.len() == rows * s.inner_dim,
        forall|k: int|
            0 <= k < rows ==> are_adaln_steps::<T, M>(
                #[trigger] steps[k],
                layer,
                equations::line(x, k, s.hidden as int),
                m,
                keys,
                values,
                rows,
                s,
            ),
        forall|k: int|
            0 <= k < rows ==> #[trigger] equations::line(keys, k, s.inner_dim as int)
                == equations::line(steps[k].fused, 1, s.inner_dim as int),
        forall|k: int|
            0 <= k < rows ==> #[trigger] equations::line(values, k, s.inner_dim as int)
                == equations::line(steps[k].fused, 2, s.inner_dim as int),
        0 <= t < rows,
    ensures
        layer.forward_of::<M>(x, conditioning, rows, s).len() == rows * s.hidden,
        equations::line(layer.forward_of::<M>(x, conditioning, rows, s), t, s.hidden as int)
            == steps[t].result,
{
    let (h, inner) = (s.hidden as int, s.inner_dim as int);
    kernels::lemma_linear(
        m,
        conditioning,
        layer.adaln_weight@,
        layer.adaln_bias@,
        h as nat,
        6 * h as nat,
    );
    assert(m == layer.modulation(conditioning, s));
    lemma_adaln_part::<T, M>(steps, layer, x, m, keys, values, keys, rows, s, 1);
    lemma_adaln_part::<T, M>(steps, layer, x, m, keys, values, values, rows, s, 2);
    let f = |k: int|
        layer.output_row::<M>(
            ops::row(x, k, s.hidden as int),
            m,
            layer.projected_rows::<M>(x, m, rows, 1, s),
            layer.projected_rows::<M>(x, m, rows, 2, s),
            rows,
            s,
        );
    assert forall|k: int| 0 <= k < rows implies #[trigger] f(k).len() == h && f(k)
        == steps[k].result by {
        ops::lemma_row_bounds(k, rows as int, h);
        assert(equations::line(x, k, h) == ops::row(x, k, h));
        lemma_adaln_row::<T, M>(
            steps[k],
            layer,
            ops::row(x, k, h),
            m,
            keys,
            values,
            rows,
            s,
        );
    }
    kernels::lemma_line_of_blocks(rows, f, h as nat, t);
}

proof fn lemma_adaln_part<T: Scalar, M: Math<T>>(
    steps: Seq<AdaLNSteps<T>>,
    layer: AdaLNTransformerLayer<T>,
    x: Seq<T>,
    m: Seq<T>,
    keys: Seq<T>,
    values: Seq<T>,
    parts: Seq<T>,
    rows: nat,
    s: AdaLNShape,
    part: int,
)
    requires
        layer.wf(s),
        x.len() == rows * s.hidden,
        m.len() == 6 * s.hidden,
        steps.len() == rows,
        parts.len() == rows * s.inner_dim,
        1 <= part <= 2,
        forall|k: int|
            0 <= k < rows ==> are_adaln_steps::<T, M>(
                #[trigger] steps[k],
                layer,
                equations::line(x, k, s.hidden as int),
                m,
                keys,
                values,
                rows,
                s,
            ),
        forall|k: int|
            0 <= k < rows ==> #[trigger] equations::line(parts, k, s.inner_dim as int)
                == equations::line(steps[k].fused, part, s.inner_dim as int),
    ensures
        layer.projected_rows::<M>(x, m, rows, part, s) == parts,
{
    let (h, inner) = (s.hidden as int, s.inner_dim as int);
    let f = |k: int|
        ops::row(
            layer.qkv_row::<M>(ops::row(x, k, s.hidden as int), m, s),
            part,
            s.inner_dim as int,
        );
    assert forall|k: int| 0 <= k < rows implies #[trigger] f(k).len() == inner && f(k)
        == ops::row(parts, k, inner) by {
        ops::lemma_row_bounds(k, rows as int, h);
        ops::lemma_row_bounds(k, rows as int, inner);
        ops::lemma_row_bounds(part, 3, inner);
        assert(equations::line(x, k, h) == ops::row(x, k, h));
        lemma_adaln_projections::<T, M>(steps[k], layer, ops::row(x, k, h), m, s);
        assert(equations::line(parts, k, inner) == ops::row(parts, k, inner));
    }
    ops::lemma_blocks_rows(rows, f, inner as nat);
    let z = layer.projected_rows::<M>(x, m, rows, part, s);
    assert(z == ops::blocks(rows, f));
    assert forall|k: int| 0 <= k < rows implies #[trigger] ops::row(z, k, inner) == ops::row(
        parts,
        k,
        inner,
    ) by {
        assert(ops::row(z, k, inner) == f(k));
    }
    kernels::lemma_same_by_lines(z, parts, rows, inner as nat);
}

/// The predictor's layers take each other's output in order, under one
/// conditioning.
pub proof fn lemma_layers_in_order<T: Scalar, M: Math<T>>(
    layers: Seq<AdaLNTransformerLayer<T>>,
    states: Seq<Seq<T>>,
    conditioning: Seq<T>,
    rows: nat,
    s: AdaLNShape,
    n: nat,
)
    requires
        n <= layers.len(),
        states.len() == layers.len() + 1,
        forall|i: int|
            0 <= i < layers.len() ==> states[i + 1] == (#[trigger] layers[i]).forward_of::<M>(
                states[i],
                conditioning,
                rows,
                s,
            ),
    ensures
        lewm::layered::<T, M>(layers, states[0], conditioning, rows, n, s) == states[n as int],
    decreases n,
{
    if n > 0 {
        lemma_layers_in_order::<T, M>(layers, states, conditioning, rows, s, (n - 1) as nat);
        assert(states[n - 1 + 1] == layers[n - 1].forward_of::<M>(
            states[n - 1],
            conditioning,
            rows,
            s,
        ));
    }
}

/// A projection head applies its linear layers in order, with GELU behind each
/// but the last; a layer without weights hands its row on.
pub proof fn lemma_projection_head<T: Scalar, M: Math<T>>(
    head: ProjectionHead<T>,
    maps: Seq<Seq<T>>,
    rows: Seq<Seq<T>>,
    n: nat,
)
    requires
        head.fits(rows[0].len()),
        n <= head.layers@.len(),
        maps.len() == head.layers@.len(),
        rows.len() == head.layers@.len() + 1,
        forall|i: int|
            0 <= i < maps.len() ==> {
                let w = (#[trigger] head.layers@[i]).0@;
                if w.len() == 0 {
                    rows[i + 1] == rows[i]
                } else {
                    &&& equations::is_linear(
                        maps[i],
                        rows[i],
                        w,
                        head.layers@[i].1@,
                        rows[i].len(),
                        w.len() / rows[i].len(),
                    )
                    &&& if i == maps.len() - 1 {
                        rows[i + 1] == maps[i]
                    } else {
                        equations::is_gelu::<T, M>(rows[i + 1], maps[i])
                    }
                }
            },
    ensures
        head.after::<M>(rows[0], n) == rows[n as int],
        rows[n as int].len() == head.width_after(rows[0].len(), n),
        n == head.layers@.len() ==> head.output::<M>(rows[0]) == rows[n as int],
    decreases n,
{
    if n > 0 {
        let k = (n - 1) as nat;
        lemma_projection_head::<T, M>(head, maps, rows, k);
        let (w, b) = (head.layers@[k as int].0@, head.layers@[k as int].1@);
        if w.len() > 0 {
            let before = head.width_after(rows[0].len(), k);
            vstd::arithmetic::div_mod::lemma_fundamental_div_mod(w.len() as int, before as int);
            assert(w.len() == (w.len() / before) * before) by (nonlinear_arith)
                requires
                    w.len() as int == before as int * (w.len() as int / before as int),
                    before > 0,
            ;
            kernels::lemma_linear(
                maps[k as int],
                rows[k as int],
                w,
                b,
                before,
                w.len() / before,
            );
            kernels::lemma_activations::<T, M>(rows[n as int], maps[k as int]);
        }
    }
}

/// `y` is `x` under a linear map; without weights it is the bias alone.
pub open spec fn is_linear_or_zeros<T: Scalar>(
    y: Seq<T>,
    x: Seq<T>,
    w: Seq<T>,
    b: Seq<T>,
    k: nat,
    n: nat,
) -> bool {
    if w.len() == 0 {
        &&& y.len() == n
        &&& forall|j: int|
            0 <= j < n ==> #[trigger] y[j] == if b.len() == 0 {
                scalar::zero()
            } else {
                scalar::plus(scalar::zero(), b[j])
            }
    } else {
        equations::is_linear(y, x, w, b, k, n)
    }
}

proof fn lemma_linear_or_zeros<T: Scalar>(
    y: Seq<T>,
    x: Seq<T>,
    w: Seq<T>,
    b: Seq<T>,
    k: nat,
    n: nat,
)
    requires
        w.len() == 0 || w.len() == n * k,
        b.len() == 0 || n <= b.len(),
        is_linear_or_zeros(y, x, w, b, k, n),
    ensures
        y == lewm::linear_or_zeros(x, w, b, k, n),
{
    if w.len() == 0 {
        assert(y =~= lewm::linear_or_zeros(x, w, b, k, n));
    } else {
        kernels::lemma_linear(y, x, w, b, k, n);
    }
}

/// An action's embedding is its convolution of width one, a linear map, GELU and
/// a second linear map. A convolution with too few weights gives its bias alone.
pub proof fn lemma_action_embedding<T: Scalar, M: Math<T>>(
    model: LeWorldModel<T>,
    action: Seq<T>,
    width: nat,
    mixed: Seq<T>,
    up: Seq<T>,
    active: Seq<T>,
    down: Seq<T>,
)
    requires
        model.action_wf(),
        action.len() == model.config.action_dim,
        ({
            let act = model.config.action_dim as nat;
            let latent = model.config.latent_dim as nat;
            let conv = model.action_conv_weight@;
            &&& if model.action_mlp1_weight@.len() == 0 {
                width == 4 * latent
            } else {
                model.action_mlp1_weight@.len() == width * act
            }
            &&& if conv.len() == 0 {
                mixed == action
            } else if conv.len() < act * act {
                is_linear_or_zeros(
                    mixed,
                    action,
                    Seq::empty(),
                    model.action_conv_bias@,
                    act,
                    act,
                )
            } else {
                equations::is_linear(mixed, action, conv, model.action_conv_bias@, act, act)
            }
            &&& is_linear_or_zeros(
                up,
                mixed,
                model.action_mlp1_weight@,
                model.action_mlp1_bias@,
                act,
                width,
            )
            &&& equations::is_gelu::<T, M>(active, up)
            &&& is_linear_or_zeros(
                down,
                active,
                model.action_mlp2_weight@,
                model.action_mlp2_bias@,
                width,
                latent,
            )
        }),
    ensures
        model.action_embedding::<M>(action) == down,
{
    let act = model.config.action_dim as nat;
    let latent = model.config.latent_dim as nat;
    let w = model.action_mlp1_weight@;
    if w.len() > 0 {
        vstd::arithmetic::div_mod::lemma_div_by_multiple(width as int, act as int);
    }
    assert(model.action_inter() == width);
    let conv = model.action_conv_weight@;
    if 0 < conv.len() < act * act {
        assert(mixed =~= model.action_conv(action));
    } else if conv.len() > 0 {
        kernels::lemma_linear(
            mixed,
            action,
            model.action_conv_weight@,
            model.action_conv_bias@,
            act,
            act,
        );
    }
    lemma_linear_or_zeros(up, mixed, w, model.action_mlp1_bias@, act, width);
    kernels::lemma_activations::<T, M>(active, up);
    lemma_linear_or_zeros(
        down,
        active,
        model.action_mlp2_weight@,
        model.action_mlp2_bias@,
        width,
        latent,
    );
}

/// The next state is read from the third row behind the predictor, normalised
/// and projected. The predictor takes the three tokens, conditioned on the
/// action's embedding, both projected to its width where it has maps for that.
pub proof fn lemma_next_state<T: Scalar, M: Math<T>>(
    model: LeWorldModel<T>,
    z: Seq<T>,
    action: Seq<T>,
    a: Seq<T>,
    tokens: Seq<T>,
    input: Seq<T>,
    conditioning: Seq<T>,
    states: Seq<Seq<T>>,
    normed: Seq<T>,
)
    requires
        model.predictor_wf(),
        z.len() == model.config.latent_dim,
        a == model.action_embedding::<M>(action),
        a.len() == model.config.latent_dim,
        tokens == model.tokens_of(z, a),
        ({
            let (h, latent) = (
                model.config.predictor_hidden as nat,
                model.config.latent_dim as nat,
            );
            let s = AdaLNShape {
                hidden: model.config.predictor_hidden,
                num_heads: model.config.predictor_heads,
                inner_dim: model.config.predictor_inner_dim,
                inter: model.config.predictor_inter,
            };
            let layers = model.predictor_layers@;
            &&& if model.input_proj_weight@.len() > 0 {
                &&& equations::are_linear(
                    input,
                    tokens,
                    model.input_proj_weight@,
                    model.input_proj_bias@,
                    3,
                    latent,
                    h,
                )
                &&& equations::is_linear(
                    conditioning,
                    a,
                    model.cond_proj_weight@,
                    model.cond_proj_bias@,
                    latent,
                    h,
                )
            } else {
                input == tokens && conditioning == a
            }
            &&& states.len() == layers.len() + 1
            &&& states[0] == input
            &&& states[layers.len() as int].len() == 3 * h
            &&& forall|i: int|
                0 <= i < layers.len() ==> states[i + 1] == (
                #[trigger] layers[i]).forward_of::<M>(states[i], conditioning, 3, s)
            &&& equations::is_layer_norm::<T, M>(
                normed,
                equations::line(states[layers.len() as int], 2, h as int),
                model.predictor_norm_weight@,
                model.predictor_norm_bias@,
                scalar::binary64_of::<T, M>(0x3EB0_C6F7_A0B5_ED8D),
            )
        }),
    ensures
        model.next_of::<M>(z, action) == model.pred_proj.output::<M>(normed),
{
    let (h, latent) = (model.config.predictor_hidden as nat, model.config.latent_dim as nat);
    let s = model.config.spec_shape();
    let layers = model.predictor_layers@;
    if model.input_proj_weight@.len() > 0 {
        kernels::lemma_linear_rows(
            input,
            tokens,
            model.input_proj_weight@,
            model.input_proj_bias@,
            3,
            latent,
            h,
        );
        kernels::lemma_linear(
            conditioning,
            a,
            model.cond_proj_weight@,
            model.cond_proj_bias@,
            latent,
            h,
        );
    }
    lemma_layers_in_order::<T, M>(layers, states, conditioning, 3, s, layers.len());
    let x = states[layers.len() as int];
    ops::lemma_row_bounds(2, 3, h as int);
    assert(equations::line(x, 2, h as int) == ops::row(x, 2, h as int));
    kernels::lemma_layer_norm::<T, M>(
        normed,
        ops::row(x, 2, h as int),
        model.predictor_norm_weight@,
        model.predictor_norm_bias@,
        scalar::binary64_of::<T, M>(0x3EB0_C6F7_A0B5_ED8D),
    );
}

/// A rollout feeds each predicted state to the next step, with the actions in
/// order.
pub proof fn lemma_rollout<T: Scalar, M: Math<T>>(
    model: LeWorldModel<T>,
    states: Seq<Seq<T>>,
    actions: Seq<Vec<T>>,
    n: nat,
)
    requires
        n <= actions.len(),
        states.len() == actions.len() + 1,
        forall|i: int|
            0 <= i < actions.len() ==> states[i + 1] == model.next_of::<M>(
                states[i],
                (#[trigger] actions[i])@,
            ),
    ensures
        model.state_after::<M>(states[0], actions, n) == states[n as int],
    decreases n,
{
    if n > 0 {
        lemma_rollout::<T, M>(model, states, actions, (n - 1) as nat);
        assert(states[n - 1 + 1] == model.next_of::<M>(states[n - 1], actions[n - 1]@));
    }
}

/// A parallel rollout puts the three tokens of each action side by side, all
/// from the first state, conditions on the first action, and reads state `i`
/// from row `3 i + 2`.
pub proof fn lemma_parallel<T: Scalar, M: Math<T>>(
    model: LeWorldModel<T>,
    z: Seq<T>,
    actions: Seq<Vec<T>>,
    tokens: Seq<T>,
    x: Seq<T>,
    i: int,
)
    requires
        model.predictor_wf(),
        z.len() == model.config.latent_dim,
        0 <= i < actions.len(),
        tokens.len() == actions.len() * (3 * model.config.latent_dim),
        forall|k: int|
            0 <= k < actions.len() ==> {
                let a = model.action_embedding::<M>(actions[k]@);
                &&& a.len() == model.config.latent_dim
                &&& #[trigger] equations::line(tokens, k, 3 * model.config.latent_dim)
                    == model.tokens_of(z, a)
            },
        x == model.predicted_rows::<M>(
            tokens,
            model.conditioning_of(model.action_embedding::<M>(actions[0]@)),
            3 * actions.len(),
        ),
        x.len() == (3 * actions.len()) * model.config.predictor_hidden,
    ensures
        model.parallel_state::<M>(z, actions, i) == model.state_of::<M>(
            equations::line(x, 3 * i + 2, model.config.predictor_hidden as int),
        ),
{
    let w = (3 * model.config.latent_dim) as nat;
    let n = actions.len();
    let h = model.config.predictor_hidden as int;
    let f = |k: int| model.tokens_of(z, model.action_embedding::<M>(actions[k]@));
    assert forall|k: int| 0 <= k < n implies #[trigger] f(k).len() == w by {
        assert(equations::line(tokens, k, 3 * model.config.latent_dim) == f(k));
    }
    ops::lemma_blocks_rows(n, f, w);
    let y = model.parallel_tokens::<M>(z, actions);
    assert(y == ops::blocks(n, f));
    assert forall|k: int| 0 <= k < n implies #[trigger] ops::row(y, k, w as int) == ops::row(
        tokens,
        k,
        w as int,
    ) by {
        ops::lemma_row_bounds(k, n as int, w as int);
        assert(ops::row(y, k, w as int) == f(k));
        assert(equations::line(tokens, k, 3 * model.config.latent_dim) == ops::row(
            tokens,
            k,
            w as int,
        ));
    }
    kernels::lemma_same_by_lines(y, tokens, n, w);
    ops::lemma_row_bounds(3 * i + 2, 3 * n as int, h);
}

/// On a device the predictor's layers run as one kernel on the projected tokens
/// and conditioning; the next state is read as on the host.
pub proof fn lemma_next_on_device<T: Scalar, M: Math<T>, D: PredictorDevice<T>>(
    model: LeWorldModel<T>,
    device: D,
    kernel: PredictorKernel,
    z: Seq<T>,
    action: Seq<T>,
    x: Seq<T>,
)
    requires
        ({
            let a = model.action_embedding::<M>(action);
            x == lewm_device::predicted_on(
                device,
                kernel,
                model.predictor_input(model.tokens_of(z, a), 3),
                model.conditioning_of(a),
            )
        }),
        x.len() == 3 * model.config.predictor_hidden,
    ensures
        model.next_on::<M, D>(device, kernel, z, action) == model.state_of::<M>(
            equations::line(x, 2, model.config.predictor_hidden as int),
        ),
{
    ops::lemma_row_bounds(2, 3, model.config.predictor_hidden as int);
}

/// A rollout on a device feeds each predicted state to the next step, with the
/// actions in order.
pub proof fn lemma_rollout_on_device<T: Scalar, M: Math<T>, D: PredictorDevice<T>>(
    model: LeWorldModel<T>,
    device: D,
    states: Seq<Seq<T>>,
    actions: Seq<Vec<T>>,
    n: nat,
)
    requires
        n <= actions.len(),
        states.len() == actions.len() + 1,
        forall|i: int|
            0 <= i < actions.len() ==> states[i + 1] == model.next_on::<M, D>(
                device,
                PredictorKernel::Layered,
                states[i],
                (#[trigger] actions[i])@,
            ),
    ensures
        model.state_on::<M, D>(device, states[0], actions, n) == states[n as int],
    decreases n,
{
    if n > 0 {
        lemma_rollout_on_device::<T, M, D>(model, device, states, actions, (n - 1) as nat);
        assert(states[n - 1 + 1] == model.next_on::<M, D>(
            device,
            PredictorKernel::Layered,
            states[n - 1],
            actions[n - 1]@,
        ));
    }
}

/// The encoder is a vision transformer without classes, of the encoder's sizes.
pub proof fn lemma_encoder_config(c: LeWMConfig)
    ensures
        ({
            let v = lewm::encoder_config(c);
            &&& v.image_size == c.image_size
            &&& v.patch_size == c.patch_size
            &&& v.channels == c.channels
            &&& v.hidden_size == c.encoder_hidden
            &&& v.num_layers == c.encoder_layers
            &&& v.num_heads == c.encoder_heads
            &&& v.intermediate_size == c.encoder_inter
            &&& v.num_classes == 0
        }),
{
}

} // verus!
