//! The code world model.

use vstd::prelude::*;

use crate::laws::equations;
use crate::laws::kernels;
use crate::models::vision::code_wm;
use crate::models::vision::code_wm::{
    CodeWorldModel, CodeWorldModelConfig, GeluKind, LoopTrace, TransformerBlock,
};
use crate::ops;
use crate::gelu;
use crate::scalar;
use crate::scalar::{Math, Scalar};

verus! {

/// The exact unit is `x / 2 * (1 + erf(x / sqrt 2))`, the other one
/// `x / 2 * (1 + tanh(sqrt(2 / pi) * (x + 0.044715 x^3)))`.
pub proof fn lemma_gelu_kinds<T: Scalar, M: Math<T>>(x: T)
    ensures
        ({
            let c = |bits: u64| scalar::binary64_of::<T, M>(bits);
            let half = scalar::times(c(0x3FE0_0000_0000_0000), x);
            let one = scalar::one::<T, M>();
            let cube = scalar::times(
                scalar::times(scalar::times(c(0x3FA6_E4E2_6D48_01F7), x), x),
                x,
            );
            &&& code_wm::gelu_of::<T, M>(GeluKind::Erf, x) == scalar::times(
                half,
                scalar::plus(
                    one,
                    gelu::erf_of::<T, M>(scalar::times(x, c(0x3FE6_A09E_667F_3BCD))),
                ),
            )
            &&& code_wm::gelu_of::<T, M>(GeluKind::Tanh, x) == scalar::times(
                half,
                scalar::plus(
                    one,
                    scalar::tanh_of::<T, M>(
                        scalar::times(c(0x3FE9_8845_33D4_3651), scalar::plus(x, cube)),
                    ),
                ),
            )
        }),
{
}

/// The matrices that a block goes through.
pub struct BlockSteps<T> {
    pub normed: Seq<T>,
    pub fused: Seq<T>,
    pub query: Seq<T>,
    pub key: Seq<T>,
    pub value: Seq<T>,
    pub seen: Seq<T>,
    pub out: Seq<T>,
    pub mid: Seq<T>,
    pub mlp_normed: Seq<T>,
    pub up: Seq<T>,
    pub active: Seq<T>,
    pub down: Seq<T>,
    pub result: Seq<T>,
}

/// Each row of `y` is the part of that row of a fused projection: queries, keys
/// and values stand side by side.
pub open spec fn is_part<T>(y: Seq<T>, fused: Seq<T>, rows: nat, d: int, part: int) -> bool {
    &&& y.len() == rows * d
    &&& forall|t: int, j: int|
        #![trigger y[t * d + j]]
        0 <= t < rows && 0 <= j < d ==> y[t * d + j] == fused[t * (3 * d) + part * d + j]
}

/// The matrices are what a block computes from the rows of `x`: each of its two
/// parts works on what went into it, normalised, and is added to it.
pub open spec fn are_block_steps<T: Scalar, M: Math<T>>(
    r: BlockSteps<T>,
    block: TransformerBlock<T>,
    x: Seq<T>,
    rows: nat,
    cfg: CodeWorldModelConfig,
) -> bool {
    let (d, inter) = (cfg.model_dim as nat, cfg.mlp_hidden as nat);
    &&& equations::are_layer_normed::<T, M>(
        r.normed,
        x,
        block.norm1.weight@,
        block.norm1.bias@,
        scalar::binary64_of::<T, M>(block.norm1.eps.bits),
        d,
        rows,
    )
    &&& equations::are_linear(
        r.fused,
        r.normed,
        block.attn_in_proj.weight@,
        block.attn_in_proj.bias@,
        rows,
        d,
        3 * d,
    )
    &&& is_part(r.query, r.fused, rows, d as int, 0)
    &&& is_part(r.key, r.fused, rows, d as int, 1)
    &&& is_part(r.value, r.fused, rows, d as int, 2)
    &&& equations::are_attending::<T, M>(
        r.seen,
        r.query,
        r.key,
        r.value,
        cfg.num_heads,
        cfg.num_heads,
        cfg.head_dim,
        rows,
        false,
    )
    &&& equations::are_linear(
        r.out,
        r.seen,
        block.attn_out_proj.weight@,
        block.attn_out_proj.bias@,
        rows,
        d,
        d,
    )
    &&& equations::is_sum(r.mid, x, r.out)
    &&& equations::are_layer_normed::<T, M>(
        r.mlp_normed,
        r.mid,
        block.norm2.weight@,
        block.norm2.bias@,
        scalar::binary64_of::<T, M>(block.norm2.eps.bits),
        d,
        rows,
    )
    &&& equations::are_linear(
        r.up,
        r.mlp_normed,
        block.mlp_up.weight@,
        block.mlp_up.bias@,
        rows,
        d,
        inter,
    )
    &&& r.active.len() == r.up.len()
    &&& forall|i: int|
        0 <= i < r.active.len() ==> #[trigger] r.active[i] == code_wm::gelu_of::<T, M>(
            cfg.gelu_kind,
            r.up[i],
        )
    &&& equations::are_linear(
        r.down,
        r.active,
        block.mlp_down.weight@,
        block.mlp_down.bias@,
        rows,
        inter,
        d,
    )
    &&& equations::is_sum(r.result, r.mid, r.down)
}

/// A block's output is the last of its steps.
pub proof fn lemma_block<T: Scalar, M: Math<T>>(
    r: BlockSteps<T>,
    block: TransformerBlock<T>,
    x: Seq<T>,
    rows: nat,
    cfg: CodeWorldModelConfig,
)
    requires
        block.wf(cfg),
        x.len() == rows * cfg.model_dim,
        are_block_steps::<T, M>(r, block, x, rows, cfg),
    ensures
        block.output::<M>(x, rows, cfg) == r.result,
{
    let (d, inter) = (cfg.model_dim as nat, cfg.mlp_hidden as nat);
    kernels::lemma_layer_norm_rows::<T, M>(
        r.normed,
        x,
        block.norm1.weight@,
        block.norm1.bias@,
        scalar::binary64_of::<T, M>(block.norm1.eps.bits),
        d,
        rows,
    );
    kernels::lemma_linear_rows(
        r.fused,
        r.normed,
        block.attn_in_proj.weight@,
        block.attn_in_proj.bias@,
        rows,
        d,
        3 * d,
    );
    lemma_part(r.query, r.fused, rows, d, 0);
    lemma_part(r.key, r.fused, rows, d, 1);
    lemma_part(r.value, r.fused, rows, d, 2);
    assert(cfg.num_heads % cfg.num_heads == 0) by {
        vstd::arithmetic::div_mod::lemma_mod_self_0(cfg.num_heads as int);
    }
    kernels::lemma_attending_rows::<T, M>(
        r.seen,
        r.query,
        r.key,
        r.value,
        cfg.layout(),
        rows,
        false,
    );
    kernels::lemma_linear_rows(
        r.out,
        r.seen,
        block.attn_out_proj.weight@,
        block.attn_out_proj.bias@,
        rows,
        d,
        d,
    );
    kernels::lemma_elementwise(r.mid, x, r.out);
    kernels::lemma_layer_norm_rows::<T, M>(
        r.mlp_normed,
        r.mid,
        block.norm2.weight@,
        block.norm2.bias@,
        scalar::binary64_of::<T, M>(block.norm2.eps.bits),
        d,
        rows,
    );
    kernels::lemma_linear_rows(
        r.up,
        r.mlp_normed,
        block.mlp_up.weight@,
        block.mlp_up.bias@,
        rows,
        d,
        inter,
    );
    assert(r.active =~= code_wm::gelued::<T, M>(cfg.gelu_kind, r.up));
    kernels::lemma_linear_rows(
        r.down,
        r.active,
        block.mlp_down.weight@,
        block.mlp_down.bias@,
        rows,
        inter,
        d,
    );
    kernels::lemma_elementwise(r.result, r.mid, r.down);
}

proof fn lemma_part<T>(y: Seq<T>, fused: Seq<T>, rows: nat, d: nat, part: int)
    requires
        fused.len() == rows * (3 * d),
        0 <= part < 3,
        is_part(y, fused, rows, d as int, part),
    ensures
        y == code_wm::fused_part(fused, rows, d, part),
{
    let z = code_wm::fused_part(fused, rows, d, part);
    let f = |t: int| ops::row(ops::row(fused, t, 3 * d as int), part, d as int);
    assert forall|t: int| 0 <= t < rows implies #[trigger] f(t).len() == d by {
        ops::lemma_row_bounds(t, rows as int, 3 * d as int);
        ops::lemma_row_bounds(part, 3, d as int);
    }
    ops::lemma_blocks_rows(rows, f, d);
    assert(z == ops::blocks(rows, f));
    assert forall|t: int, j: int|
        #![trigger y[t * d + j]]
        0 <= t < rows && 0 <= j < d implies y[t * d + j] == z[t * d + j] by {
        ops::lemma_row_bounds(t, rows as int, 3 * d as int);
        ops::lemma_row_bounds(t, rows as int, d as int);
        ops::lemma_row_bounds(part, 3, d as int);
        assert(ops::row(z, t, d as int) == f(t));
        assert(ops::row(z, t, d as int)[j] == z[t * d + j]);
        assert(f(t)[j] == fused[t * (3 * d) + part * d + j]);
    }
    kernels::lemma_same_by_heads(y, z, rows, d);
}

/// One block is applied again and again.
pub proof fn lemma_loops<T: Scalar, M: Math<T>>(
    block: TransformerBlock<T>,
    states: Seq<Seq<T>>,
    rows: nat,
    cfg: CodeWorldModelConfig,
    n: nat,
)
    requires
        n < states.len(),
        forall|i: int|
            0 <= i < states.len() - 1 ==> #[trigger] states[i + 1] == block.output::<M>(
                states[i],
                rows,
                cfg,
            ),
    ensures
        code_wm::looped::<T, M>(block, states[0], rows, cfg, n) == states[n as int],
    decreases n,
{
    if n > 0 {
        lemma_loops::<T, M>(block, states, rows, cfg, (n - 1) as nat);
        assert(states[(n - 1) + 1] == block.output::<M>(states[n - 1], rows, cfg));
    }
}

/// The first row that is encoded is the class token, row `t + 1` the embedding
/// of token `t`, each with its row of the positional encoding added.
pub proof fn lemma_code_tokens<T: Scalar>(
    model: CodeWorldModel<T>,
    tokens: Seq<i64>,
    t: int,
    j: int,
)
    requires
        model.encoder_wf(),
        tokens.len() <= model.config.max_seq_len,
        model.known(tokens),
        0 <= t <= tokens.len(),
        0 <= j < model.config.model_dim,
    ensures
        model.placed(tokens).len() == (tokens.len() + 1) * model.config.model_dim,
        ({
            let d = model.config.model_dim as int;
            let e = if t == 0 {
                model.cls_token@[j]
            } else {
                model.token_embedding@[tokens[t - 1] * d + j]
            };
            model.placed(tokens)[t * d + j] == scalar::plus(e, model.pos_enc@[t * d + j])
        }),
{
    let d = model.config.model_dim as int;
    let n = tokens.len();
    let f = |i: int| ops::row(model.token_embedding@, tokens[i] as int, d);
    assert forall|i: int| 0 <= i < n implies #[trigger] f(i).len() == d by {
        assert(0 <= tokens[i] < model.config.vocab_size);
        ops::lemma_row_bounds(tokens[i] as int, model.config.vocab_size as int, d);
    }
    ops::lemma_blocks_rows(n, f, d as nat);
    let e = model.embeddings(tokens);
    assert(e == ops::blocks(n, f));
    assert((n + 1) * d == n * d + d) by (nonlinear_arith);
    ops::lemma_row_bounds(n as int, model.config.max_seq_len + 1, d);
    ops::lemma_row_bounds(t, n as int + 1, d);
    let x = model.cls_token@ + e;
    if t > 0 {
        ops::lemma_row_bounds(t - 1, n as int, d);
        assert(0 <= tokens[t - 1] < model.config.vocab_size);
        ops::lemma_row_bounds(tokens[t - 1] as int, model.config.vocab_size as int, d);
        assert(ops::row(e, t - 1, d) == f(t - 1));
        assert(ops::row(e, t - 1, d)[j] == e[(t - 1) * d + j]);
        assert(x[t * d + j] == e[(t - 1) * d + j]);
    } else {
        assert(0 * d == 0) by (nonlinear_arith);
        assert(x[j] == model.cls_token@[j]);
    }
}

/// A program's latent is the normalised row of the class token behind the
/// encoder's loops; tokens past the longest sequence are not read.
pub proof fn lemma_latent<T: Scalar, M: Math<T>>(
    model: CodeWorldModel<T>,
    tokens: Seq<i64>,
    shown: Seq<i64>,
    states: Seq<Seq<T>>,
    y: Seq<T>,
)
    requires
        model.encoder_wf(),
        shown.len() == if tokens.len() < model.config.max_seq_len {
            tokens.len()
        } else {
            model.config.max_seq_len as nat
        },
        forall|i: int| 0 <= i < shown.len() ==> #[trigger] shown[i] == tokens[i],
        states.len() == model.config.encoder_loops + 1,
        states[0] == model.placed(shown),
        model.config.model_dim <= states[model.config.encoder_loops as int].len(),
        forall|i: int|
            0 <= i < model.config.encoder_loops ==> #[trigger] states[i + 1]
                == model.encoder_block.output::<M>(states[i], shown.len() + 1, model.config),
        equations::is_layer_norm::<T, M>(
            y,
            states[model.config.encoder_loops as int].subrange(0, model.config.model_dim as int),
            model.encoder_final_norm.weight@,
            model.encoder_final_norm.bias@,
            scalar::binary64_of::<T, M>(model.encoder_final_norm.eps.bits),
        ),
    ensures
        model.latent::<M>(tokens) == y,
{
    assert(shown =~= model.visible(tokens));
    let n = model.config.encoder_loops as nat;
    lemma_loops::<T, M>(model.encoder_block, states, shown.len() + 1, model.config, n);
    lemma_single_norm::<T, M>(
        y,
        states[n as int].subrange(0, model.config.model_dim as int),
        model.encoder_final_norm.weight@,
        model.encoder_final_norm.bias@,
        scalar::binary64_of::<T, M>(model.encoder_final_norm.eps.bits),
        model.config.model_dim as nat,
    );
}

proof fn lemma_single_norm<T: Scalar, M: Math<T>>(
    y: Seq<T>,
    x: Seq<T>,
    w: Seq<T>,
    b: Seq<T>,
    eps: T,
    d: nat,
)
    requires
        x.len() == d,
        d <= w.len(),
        d <= b.len(),
        equations::is_layer_norm::<T, M>(y, x, w, b, eps),
    ensures
        y == ops::layer_norm_bias_of::<T, M>(x, w, b, eps, d, 1),
{
    let f = |i: int| ops::sum_of(ops::layer_row::<T, M>(ops::row(x, i, d as int), w, eps), b);
    assert(ops::row(x, 0, d as int) =~= x);
    assert(ops::blocks(1, f) =~= f(0)) by {
        reveal_with_fuel(ops::blocks, 2);
    }
    kernels::lemma_layer_norm::<T, M>(y, x, w, b, eps);
    assert(y =~= f(0));
}

/// An action's latent is a linear map, the configured unit and a second linear
/// map.
pub proof fn lemma_action_latent<T: Scalar, M: Math<T>>(
    model: CodeWorldModel<T>,
    action: Seq<T>,
    up: Seq<T>,
    active: Seq<T>,
    y: Seq<T>,
)
    requires
        model.action_wf(),
        action.len() == model.config.action_dim,
        ({
            let (a, d) = (model.config.action_dim as nat, model.config.model_dim as nat);
            &&& equations::is_linear(
                up,
                action,
                model.action_fc1.weight@,
                model.action_fc1.bias@,
                a,
                d,
            )
            &&& active.len() == d
            &&& forall|i: int|
                0 <= i < d ==> #[trigger] active[i] == code_wm::gelu_of::<T, M>(
                    model.config.gelu_kind,
                    up[i],
                )
            &&& equations::is_linear(
                y,
                active,
                model.action_fc2.weight@,
                model.action_fc2.bias@,
                d,
                d,
            )
        }),
    ensures
        model.action_latent::<M>(action) == y,
{
    let (a, d) = (model.config.action_dim as nat, model.config.model_dim as nat);
    kernels::lemma_linear(up, action, model.action_fc1.weight@, model.action_fc1.bias@, a, d);
    lemma_single_map(action, model.action_fc1.weight@, model.action_fc1.bias@, a, d);
    assert(active =~= code_wm::gelued::<T, M>(model.config.gelu_kind, up));
    kernels::lemma_linear(y, active, model.action_fc2.weight@, model.action_fc2.bias@, d, d);
    lemma_single_map(active, model.action_fc2.weight@, model.action_fc2.bias@, d, d);
}

proof fn lemma_single_map<T: Scalar>(x: Seq<T>, w: Seq<T>, b: Seq<T>, k: nat, n: nat)
    requires
        x.len() == k,
    ensures
        ops::linear_of(x, w, b, 1, k, n) == ops::linear_row(x, w, b, k, n),
{
    let f = |i: int| ops::linear_row(ops::row(x, i, k as int), w, b, k, n);
    assert(ops::row(x, 0, k as int) =~= x);
    assert(ops::blocks(1, f) =~= f(0)) by {
        reveal_with_fuel(ops::blocks, 2);
    }
}

/// A prediction is the normalised first row behind the predictor's blocks, each
/// applied in order and again and again; the state's and the action's latents
/// are the two rows that go in.
pub proof fn lemma_prediction<T: Scalar, M: Math<T>>(
    model: CodeWorldModel<T>,
    state: Seq<T>,
    action: Seq<T>,
    states: Seq<Seq<T>>,
    y: Seq<T>,
)
    requires
        model.predictor_wf(),
        ({
            let d = model.config.model_dim as int;
            let n = model.predictor_blocks@.len();
            &&& state.len() == d
            &&& action.len() == d
            &&& states.len() == n + 1
            &&& states[0].len() == 2 * d
            &&& forall|j: int|
                0 <= j < 2 * d ==> #[trigger] states[0][j] == if j < d {
                    state[j]
                } else {
                    action[j - d]
                }
            &&& d <= states[n as int].len()
            &&& forall|i: int|
                0 <= i < n ==> states[i + 1] == code_wm::looped::<T, M>(
                    #[trigger] model.predictor_blocks@[i],
                    states[i],
                    2,
                    model.config,
                    model.config.predictor_loops as nat,
                )
            &&& equations::is_layer_norm::<T, M>(
                y,
                states[n as int].subrange(0, d),
                model.predictor_final_norm.weight@,
                model.predictor_final_norm.bias@,
                scalar::binary64_of::<T, M>(model.predictor_final_norm.eps.bits),
            )
        }),
    ensures
        model.prediction::<M>(state, action) == y,
{
    let d = model.config.model_dim as int;
    let n = model.predictor_blocks@.len();
    assert(states[0] =~= state + action);
    lemma_predictor_rows::<T, M>(model, states, n);
    lemma_single_norm::<T, M>(
        y,
        states[n as int].subrange(0, d),
        model.predictor_final_norm.weight@,
        model.predictor_final_norm.bias@,
        scalar::binary64_of::<T, M>(model.predictor_final_norm.eps.bits),
        d as nat,
    );
}

proof fn lemma_predictor_rows<T: Scalar, M: Math<T>>(
    model: CodeWorldModel<T>,
    states: Seq<Seq<T>>,
    n: nat,
)
    requires
        n <= model.predictor_blocks@.len(),
        states.len() == model.predictor_blocks@.len() + 1,
        forall|i: int|
            0 <= i < model.predictor_blocks@.len() ==> states[i + 1] == code_wm::looped::<T, M>(
                #[trigger] model.predictor_blocks@[i],
                states[i],
                2,
                model.config,
                model.config.predictor_loops as nat,
            ),
    ensures
        model.predictor_rows::<M>(states[0], n) == states[n as int],
    decreases n,
{
    if n > 0 {
        lemma_predictor_rows::<T, M>(model, states, (n - 1) as nat);
        assert(states[n - 1 + 1] == code_wm::looped::<T, M>(
            model.predictor_blocks@[n - 1],
            states[n - 1],
            2,
            model.config,
            model.config.predictor_loops as nat,
        ));
    }
}

/// What a trace records of a block: each of the two sums is the one before it
/// plus what its part adds.
pub proof fn lemma_trace<T: Scalar, M: Math<T>>(
    block: TransformerBlock<T>,
    x: Seq<T>,
    rows: nat,
    cfg: CodeWorldModelConfig,
    trace: LoopTrace<T>,
    i: int,
)
    requires
        block.traced::<M>(x, rows, cfg, trace),
        x.len() == trace.attn@.len(),
        x.len() == trace.mlp@.len(),
        0 <= i < x.len(),
    ensures
        trace.norm1@ == block.norm1.output::<M>(x, rows),
        trace.norm2@ == block.norm2.output::<M>(trace.res1@, rows),
        trace.res1@.len() == x.len(),
        trace.res2@.len() == x.len(),
        trace.res1@[i] == scalar::plus(x[i], trace.attn@[i]),
        trace.res2@[i] == scalar::plus(trace.res1@[i], trace.mlp@[i]),
        trace.res2@ == block.output::<M>(x, rows, cfg),
{
}

/// The trace of each loop starts where the one before it ended.
pub proof fn lemma_loop_traces<T: Scalar, M: Math<T>>(
    block: TransformerBlock<T>,
    x: Seq<T>,
    rows: nat,
    cfg: CodeWorldModelConfig,
    traces: Seq<LoopTrace<T>>,
    i: int,
)
    requires
        code_wm::loops_traced::<T, M>(block, x, rows, cfg, traces),
        0 <= i < traces.len(),
    ensures
        i == 0 ==> block.traced::<M>(x, rows, cfg, traces[i]),
        i > 0 ==> block.traced::<M>(traces[i - 1].res2@, rows, cfg, traces[i]),
        code_wm::looped::<T, M>(block, x, rows, cfg, (i + 1) as nat) == traces[i].res2@,
{
    assert(block.traced::<M>(
        code_wm::looped::<T, M>(block, x, rows, cfg, i as nat),
        rows,
        cfg,
        traces[i],
    ));
    if i > 0 {
        assert(block.traced::<M>(
            code_wm::looped::<T, M>(block, x, rows, cfg, (i - 1) as nat),
            rows,
            cfg,
            traces[i - 1],
        ));
    }
}

} // verus!
