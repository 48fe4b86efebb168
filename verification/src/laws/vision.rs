//! The vision transformer and the models that are built on it.

use vstd::prelude::*;

use crate::attention;
use crate::config::{AttentionConfig, Binary64, FFNConfig, NormConfig};
use crate::json::JsonTree;
use crate::laws::equations;
use crate::laws::kernels;
use crate::models::vision::clip;
use crate::models::vision::clip::CLIPModel;
use crate::models::vision::jepa;
use crate::models::vision::jepa::JEPAModel;
use crate::models::vision::vit;
use crate::models::vision::vit::{EncoderLayer, ViTModel};
use crate::models::vision::vit_config;
use crate::models::vision::world_model;
use crate::models::vision::world_model::WorldModel;
use crate::ops;
use crate::scalar;
use crate::scalar::{Math, Scalar};

verus! {

/// `y[j] = x[j] + b[j]` where there is a bias, else `y` is `x`.
pub open spec fn is_biased<T: Scalar>(y: Seq<T>, x: Seq<T>, b: Seq<T>) -> bool {
    if b.len() == 0 {
        y == x
    } else {
        &&& y.len() == x.len()
        &&& forall|j: int| 0 <= j < y.len() ==> #[trigger] y[j] == scalar::plus(x[j], b[j])
    }
}

proof fn lemma_biased<T: Scalar>(y: Seq<T>, x: Seq<T>, b: Seq<T>)
    requires
        b.len() == 0 || x.len() <= b.len(),
        is_biased(y, x, b),
    ensures
        y == ops::with_bias(x, b),
{
    assert(y =~= ops::with_bias(x, b));
}

/// The rows that an encoder layer goes through up to queries, keys and values.
pub struct EncoderProjections<T> {
    pub normed: Seq<T>,
    pub input: Seq<T>,
    pub query: Seq<T>,
    pub key: Seq<T>,
    pub value: Seq<T>,
}

/// The rows are what an encoder layer computes from the row `x`: three linear
/// maps of the normalised row.
pub open spec fn are_encoder_projections<T: Scalar, M: Math<T>>(
    r: EncoderProjections<T>,
    layer: EncoderLayer<T>,
    x: Seq<T>,
) -> bool {
    let h = layer.hidden_size as nat;
    let layout = layer.attention.spec_layout();
    let w = layout.num_heads as nat * layout.head_dim as nat;
    &&& equations::is_normed::<T, M>(r.normed, layer.attn_norm, x, layer.attn_norm_weight@)
    &&& is_biased(r.input, r.normed, layer.attn_norm_bias@)
    &&& equations::is_linear(r.query, r.input, layer.w_q@, layer.q_bias@, h, w)
    &&& equations::is_linear(r.key, r.input, layer.w_k@, layer.k_bias@, h, w)
    &&& equations::is_linear(r.value, r.input, layer.w_v@, layer.v_bias@, h, w)
}

/// An encoder layer's queries, keys and values are those rows.
pub proof fn lemma_encoder_projections<T: Scalar, M: Math<T>>(
    r: EncoderProjections<T>,
    layer: EncoderLayer<T>,
    x: Seq<T>,
)
    requires
        layer.wf(),
        x.len() == layer.hidden_size,
        are_encoder_projections::<T, M>(r, layer, x),
    ensures
        layer.query_row::<M>(x) == r.query,
        layer.key_row::<M>(x) == r.key,
        layer.value_row::<M>(x) == r.value,
{
    let h = layer.hidden_size as nat;
    let w = layer.attention.spec_layout().q_dim();
    kernels::lemma_normed::<T, M>(r.normed, layer.attn_norm, x, layer.attn_norm_weight@);
    lemma_biased(r.input, r.normed, layer.attn_norm_bias@);
    kernels::lemma_linear(r.query, r.input, layer.w_q@, layer.q_bias@, h, w);
    kernels::lemma_linear(r.key, r.input, layer.w_k@, layer.k_bias@, h, w);
    kernels::lemma_linear(r.value, r.input, layer.w_v@, layer.v_bias@, h, w);
}

/// The rows that an encoder layer goes through behind its attention.
pub struct EncoderSteps<T> {
    pub seen: Seq<T>,
    pub out: Seq<T>,
    pub mid: Seq<T>,
    pub normed: Seq<T>,
    pub input: Seq<T>,
    pub up: Seq<T>,
    pub active: Seq<T>,
    pub down: Seq<T>,
}

/// The rows are what an encoder layer computes for the row `x` with the keys and
/// values of all rows.
pub open spec fn are_encoder_steps<T: Scalar, M: Math<T>>(
    r: EncoderSteps<T>,
    layer: EncoderLayer<T>,
    x: Seq<T>,
    keys: Seq<T>,
    values: Seq<T>,
    rows: nat,
) -> bool {
    let h = layer.hidden_size as nat;
    let layout = layer.attention.spec_layout();
    let w = layout.num_heads as nat * layout.head_dim as nat;
    let inter = layer.ffn.spec_intermediate_size() as nat;
    &&& equations::is_attention::<T, M>(
        r.seen,
        layer.query_row::<M>(x),
        keys,
        values,
        layout.num_heads,
        layout.num_heads,
        layout.head_dim,
        0,
        rows,
    )
    &&& equations::is_linear(r.out, r.seen, layer.w_o@, layer.o_bias@, w, h)
    &&& equations::is_sum(r.mid, x, r.out)
    &&& equations::is_normed::<T, M>(r.normed, layer.ffn_norm, r.mid, layer.ffn_norm_weight@)
    &&& is_biased(r.input, r.normed, layer.ffn_norm_bias@)
    &&& equations::is_linear(r.up, r.input, layer.ffn_up@, layer.ffn_up_bias@, h, inter)
    &&& equations::is_gelu::<T, M>(r.active, r.up)
    &&& equations::is_linear(r.down, r.active, layer.ffn_down@, layer.ffn_down_bias@, inter, h)
}

/// An encoder layer adds to its input row the projection of what the row's query
/// sees, and to that sum its normalised feed-forward network.
pub proof fn lemma_encoder_row<T: Scalar, M: Math<T>>(
    r: EncoderSteps<T>,
    layer: EncoderLayer<T>,
    x: Seq<T>,
    keys: Seq<T>,
    values: Seq<T>,
    rows: nat,
    i: int,
)
    requires
        layer.wf(),
        x.len() == layer.hidden_size,
        keys.len() == rows * layer.attention.spec_layout().q_dim(),
        are_encoder_steps::<T, M>(r, layer, x, keys, values, rows),
        0 <= i < layer.hidden_size,
    ensures
        layer.output_row::<M>(x, keys, values, rows).len() == layer.hidden_size,
        layer.output_row::<M>(x, keys, values, rows)[i] == scalar::plus(
            scalar::plus(x[i], r.out[i]),
            r.down[i],
        ),
{
    let h = layer.hidden_size as nat;
    let layout = layer.attention.spec_layout();
    let w = layout.q_dim();
    let inter = layer.ffn.spec_intermediate_size() as nat;
    kernels::lemma_attention::<T, M>(
        r.seen,
        layout,
        layer.query_row::<M>(x),
        keys,
        values,
        0,
        rows,
    );
    kernels::lemma_linear(r.out, r.seen, layer.w_o@, layer.o_bias@, w, h);
    kernels::lemma_elementwise(r.mid, x, r.out);
    kernels::lemma_normed::<T, M>(r.normed, layer.ffn_norm, r.mid, layer.ffn_norm_weight@);
    lemma_biased(r.input, r.normed, layer.ffn_norm_bias@);
    kernels::lemma_linear(r.up, r.input, layer.ffn_up@, layer.ffn_up_bias@, h, inter);
    kernels::lemma_activations::<T, M>(r.active, r.up);
    kernels::lemma_linear(r.down, r.active, layer.ffn_down@, layer.ffn_down_bias@, inter, h);
}

/// Where the two output projections of a layer are zero, and adding zero changes
/// nothing, the layer hands its input on.
pub proof fn lemma_encoder_keeps_residual<T: Scalar, M: Math<T>>(
    layer: EncoderLayer<T>,
    x: Seq<T>,
    keys: Seq<T>,
    values: Seq<T>,
    rows: nat,
)
    requires
        layer.wf(),
        x.len() == layer.hidden_size,
        forall|a: T| #[trigger] scalar::plus(a, scalar::zero()) == a,
        forall|a: T| #[trigger] scalar::times(a, scalar::zero()) == scalar::zero::<T>(),
        layer.o_bias@.len() == 0,
        layer.ffn_down_bias@.len() == 0,
        forall|i: int| 0 <= i < layer.w_o@.len() ==> #[trigger] layer.w_o@[i] == scalar::zero::<T>(),
        forall|i: int|
            0 <= i < layer.ffn_down@.len() ==> #[trigger] layer.ffn_down@[i] == scalar::zero::<T>(),
    ensures
        layer.output_row::<M>(x, keys, values, rows) == x,
{
    let layout = layer.attention.spec_layout();
    let h = layer.hidden_size as nat;
    let inter = layer.ffn.spec_intermediate_size() as nat;
    let seen = attention::row_output::<T, M>(
        layout,
        layer.query_row::<M>(x),
        keys,
        values,
        0,
        rows,
    );
    assert(layer.o_bias@ =~= Seq::empty());
    assert(layer.ffn_down_bias@ =~= Seq::empty());
    kernels::lemma_zero_map(seen, layer.w_o@, layout.q_dim(), h);
    let mid = ops::sum_of(
        x,
        ops::linear_row(seen, layer.w_o@, Seq::empty(), layout.q_dim(), h),
    );
    assert(mid =~= x);
    let normed = ops::with_bias(
        crate::norm::normed_row::<T, M>(layer.ffn_norm, mid, layer.ffn_norm_weight@),
        layer.ffn_norm_bias@,
    );
    let up = ops::linear_row(normed, layer.ffn_up@, layer.ffn_up_bias@, h, inter);
    let active = ops::all_activated::<T, M>(ops::Activation::Gelu, up);
    kernels::lemma_zero_map(active, layer.ffn_down@, inter, h);
    assert(layer.output_row::<M>(x, keys, values, rows) =~= x);
}

/// Every row of an encoder layer sees the keys and values of all its rows.
pub proof fn lemma_encoder_layer<T: Scalar, M: Math<T>>(
    layer: EncoderLayer<T>,
    x: Seq<T>,
    keys: Seq<T>,
    values: Seq<T>,
    rows: nat,
    t: int,
)
    requires
        layer.wf(),
        x.len() == rows * layer.hidden_size,
        keys.len() == rows * layer.attention.spec_layout().q_dim(),
        values.len() == rows * layer.attention.spec_layout().q_dim(),
        forall|k: int|
            0 <= k < rows ==> #[trigger] equations::line(
                keys,
                k,
                layer.attention.spec_layout().q_dim() as int,
            ) == layer.key_row::<M>(equations::line(x, k, layer.hidden_size as int)),
        forall|k: int|
            0 <= k < rows ==> #[trigger] equations::line(
                values,
                k,
                layer.attention.spec_layout().q_dim() as int,
            ) == layer.value_row::<M>(equations::line(x, k, layer.hidden_size as int)),
        0 <= t < rows,
    ensures
        layer.forward_of::<M>(x, rows).len() == rows * layer.hidden_size,
        equations::line(layer.forward_of::<M>(x, rows), t, layer.hidden_size as int)
            == layer.output_row::<M>(
            equations::line(x, t, layer.hidden_size as int),
            keys,
            values,
            rows,
        ),
{
    let h = layer.hidden_size as int;
    let w = layer.attention.spec_layout().q_dim();
    let fk = |k: int| layer.key_row::<M>(ops::row(x, k, h));
    let fv = |k: int| layer.value_row::<M>(ops::row(x, k, h));
    ops::lemma_blocks_rows(rows, fk, w);
    ops::lemma_blocks_rows(rows, fv, w);
    let ks = layer.key_rows::<M>(x, rows);
    let vs = layer.value_rows::<M>(x, rows);
    assert(ks == ops::blocks(rows, fk));
    assert(vs == ops::blocks(rows, fv));
    assert forall|k: int| 0 <= k < rows implies #[trigger] ops::row(ks, k, w as int) == ops::row(
        keys,
        k,
        w as int,
    ) by {
        ops::lemma_row_bounds(k, rows as int, w as int);
        ops::lemma_row_bounds(k, rows as int, h);
        assert(ops::row(ks, k, w as int) == fk(k));
        assert(equations::line(keys, k, w as int) == ops::row(keys, k, w as int));
        assert(equations::line(x, k, h) == ops::row(x, k, h));
    }
    assert forall|k: int| 0 <= k < rows implies #[trigger] ops::row(vs, k, w as int) == ops::row(
        values,
        k,
        w as int,
    ) by {
        ops::lemma_row_bounds(k, rows as int, w as int);
        ops::lemma_row_bounds(k, rows as int, h);
        assert(ops::row(vs, k, w as int) == fv(k));
        assert(equations::line(values, k, w as int) == ops::row(values, k, w as int));
        assert(equations::line(x, k, h) == ops::row(x, k, h));
    }
    kernels::lemma_same_by_lines(ks, keys, rows, w);
    kernels::lemma_same_by_lines(vs, values, rows, w);
    let f = |k: int|
        layer.output_row::<M>(
            ops::row(x, k, layer.hidden_size as int),
            layer.key_rows::<M>(x, rows),
            layer.value_rows::<M>(x, rows),
            rows,
        );
    assert forall|k: int| 0 <= k < rows implies #[trigger] f(k).len() == h by {
        ops::lemma_row_bounds(k, rows as int, h);
    }
    kernels::lemma_line_of_blocks(rows, f, h as nat, t);
    ops::lemma_row_bounds(t, rows as int, h);
}

/// A stack's layers take each other's output in order.
pub proof fn lemma_encoder_stack<T: Scalar, M: Math<T>>(
    layers: Seq<EncoderLayer<T>>,
    states: Seq<Seq<T>>,
    rows: nat,
    n: nat,
)
    requires
        n <= layers.len(),
        states.len() == layers.len() + 1,
        forall|i: int|
            0 <= i < layers.len() ==> states[i + 1] == (#[trigger] layers[i]).forward_of::<M>(
                states[i],
                rows,
            ),
    ensures
        vit::encoded::<T, M>(layers, states[0], rows, n) == states[n as int],
    decreases n,
{
    if n > 0 {
        lemma_encoder_stack::<T, M>(layers, states, rows, (n - 1) as nat);
        assert(states[n - 1 + 1] == layers[n - 1].forward_of::<M>(states[n - 1], rows));
    }
}

/// The vision transformer's tokens are the class token, zeros where there is
/// none, and the patches behind it, each element with that of the positional
/// embedding added where there is one.
pub proof fn lemma_vit_tokens<T: Scalar>(model: ViTModel<T>, patches: Seq<T>, i: int)
    requires
        model.wf(),
        0 <= i < model.config.hidden_size + patches.len(),
    ensures
        model.token_rows(patches).len() == model.config.hidden_size + patches.len(),
        ({
            let h = model.config.hidden_size as int;
            let e = if i >= h {
                patches[i - h]
            } else if model.cls_token@.len() == 0 {
                scalar::zero()
            } else {
                model.cls_token@[i]
            };
            model.token_rows(patches)[i] == if i < model.pos_embed@.len() {
                scalar::plus(e, model.pos_embed@[i])
            } else {
                e
            }
        }),
{
}

/// An image's embedding is the final normalisation of the class token's row
/// behind the last layer. The patches are linear maps of the image's patches.
pub proof fn lemma_vit_embedding<T: Scalar, M: Math<T>>(
    model: ViTModel<T>,
    image: Seq<T>,
    height: nat,
    width: nat,
    patches: Seq<T>,
    states: Seq<Seq<T>>,
    normed: Seq<T>,
    y: Seq<T>,
)
    requires
        model.wf(),
        model.image_fits(image, height as int, width as int),
        ({
            let h = model.config.hidden_size as nat;
            let p = model.config.patch_size as nat;
            let n = model.layers@.len();
            let count = (model.config.spec_num_patches() + 1) as nat;
            &&& patches.len() == (height / p) * (width / p) * h
            &&& forall|py: int, px: int|
                #![trigger equations::line(patches, py * (width / p) as int + px, h as int)]
                0 <= py < height / p && 0 <= px < width / p ==> equations::is_linear(
                    equations::line(patches, py * (width / p) as int + px, h as int),
                    crate::patch::patch_pixels(
                        image,
                        width as int,
                        model.config.channels as int,
                        p,
                        py,
                        px,
                    ),
                    model.patch_proj@,
                    model.patch_proj_bias@,
                    p * p * model.config.channels as nat,
                    h,
                )
            &&& states.len() == n + 1
            &&& states[0] == model.token_rows(patches)
            &&& states[n as int].len() == count * h
            &&& forall|i: int|
                0 <= i < n ==> states[i + 1] == (#[trigger] model.layers@[i]).forward_of::<M>(
                    states[i],
                    count,
                )
            &&& equations::is_normed::<T, M>(
                normed,
                model.final_norm,
                states[n as int].subrange(0, h as int),
                model.final_norm_weight@,
            )
            &&& is_biased(y, normed, model.final_norm_bias@)
        }),
    ensures
        model.image_embedding::<M>(image, height, width) == y,
{
    let h = model.config.hidden_size as nat;
    let p = model.config.patch_size as nat;
    let n = model.layers@.len();
    let count = (model.config.spec_num_patches() + 1) as nat;
    lemma_vit_patches(model, image, height, width, patches);
    lemma_encoder_stack::<T, M>(model.layers@, states, count, n);
    let x = states[n as int];
    ops::lemma_row_bounds(0, count as int, h as int);
    assert(x.subrange(0, h as int) =~= ops::row(x, 0, h as int));
    kernels::lemma_normed::<T, M>(
        normed,
        model.final_norm,
        ops::row(x, 0, h as int),
        model.final_norm_weight@,
    );
    lemma_biased(y, normed, model.final_norm_bias@);
}

proof fn lemma_vit_patches<T: Scalar>(
    model: ViTModel<T>,
    image: Seq<T>,
    height: nat,
    width: nat,
    patches: Seq<T>,
)
    requires
        model.wf(),
        model.image_fits(image, height as int, width as int),
        ({
            let h = model.config.hidden_size as nat;
            let p = model.config.patch_size as nat;
            &&& patches.len() == (height / p) * (width / p) * h
            &&& forall|py: int, px: int|
                #![trigger equations::line(patches, py * (width / p) as int + px, h as int)]
                0 <= py < height / p && 0 <= px < width / p ==> equations::is_linear(
                    equations::line(patches, py * (width / p) as int + px, h as int),
                    crate::patch::patch_pixels(
                        image,
                        width as int,
                        model.config.channels as int,
                        p,
                        py,
                        px,
                    ),
                    model.patch_proj@,
                    model.patch_proj_bias@,
                    p * p * model.config.channels as nat,
                    h,
                )
        }),
    ensures
        ops::biased(
            model.patch_rows(image, height, width),
            model.patch_proj_bias@,
            model.config.spec_num_patches() as nat,
            model.config.hidden_size as nat,
        ) == patches,
{
    let h = model.config.hidden_size as nat;
    let p = model.config.patch_size as nat;
    let k = p * p * model.config.channels as nat;
    let (rows, cols) = (height / p, width / p);
    let b = model.patch_proj_bias@;
    let raw = model.patch_rows(image, height, width);
    let total = rows * cols;
    assert(total == model.config.spec_num_patches());
    crate::patch::lemma_patch_embeddings_len(
        image,
        height,
        width,
        model.config.channels as nat,
        p,
        model.patch_proj@,
        h,
    );
    let f = |i: int| ops::sum_of(ops::row(raw, i, h as int), b);
    let z = ops::biased(raw, b, total, h);
    assert forall|i: int| 0 <= i < total implies #[trigger] f(i).len() == if b.len() == 0 {
        0
    } else {
        h
    } by {
        ops::lemma_row_bounds(i, total as int, h as int);
    }
    if b.len() > 0 {
        ops::lemma_blocks_rows(total, f, h);
        assert(z == ops::blocks(total, f));
    }
    assert forall|i: int| 0 <= i < total implies #[trigger] ops::row(z, i, h as int) == ops::row(
        patches,
        i,
        h as int,
    ) by {
        ops::lemma_row_bounds(i, total as int, h as int);
        assert(cols > 0) by (nonlinear_arith)
            requires
                0 <= i < total,
                total == rows * cols,
        ;
        let (py, px) = (i / cols as int, i % cols as int);
        vstd::arithmetic::div_mod::lemma_fundamental_div_mod(i, cols as int);
        vstd::arithmetic::div_mod::lemma_div_pos_is_pos(i, cols as int);
        assert(py * cols == cols * py) by (nonlinear_arith);
        assert(py < rows) by (nonlinear_arith)
            requires
                i == cols * py + px,
                0 <= px,
                i < rows * cols,
                cols > 0,
        ;
        let pixels = crate::patch::patch_pixels(
            image,
            width as int,
            model.config.channels as int,
            p,
            py,
            px,
        );
        kernels::lemma_patch_embedding(
            image,
            height,
            width,
            model.config.channels as nat,
            p,
            model.patch_proj@,
            h,
            py,
            px,
        );
        let r = equations::line(raw, i, h as int);
        let e = equations::line(patches, i, h as int);
        assert(r == ops::row(raw, i, h as int));
        assert(e == ops::row(patches, i, h as int));
        assert(equations::line(patches, py * cols as int + px, h as int) == e);
        kernels::lemma_linear(r, pixels, model.patch_proj@, Seq::empty(), k, h);
        kernels::lemma_linear(e, pixels, model.patch_proj@, b, k, h);
        if b.len() > 0 {
            assert(ops::row(z, i, h as int) == f(i));
            assert(e =~= f(i));
        } else {
            assert(b =~= Seq::empty());
        }
    }
    assert(z.len() == total * h);
    kernels::lemma_same_by_lines(z, patches, total, h);
}

/// The class logits are a linear map of the embedding, where the model has a
/// head.
pub proof fn lemma_vit_classes<T: Scalar>(model: ViTModel<T>, e: Seq<T>, y: Seq<T>)
    requires
        model.wf(),
        model.classifier_head is Some,
        model.classifier_head->0@.len() > 0,
        equations::is_linear(
            y,
            e,
            model.classifier_head->0@,
            match model.classifier_bias {
                Some(b) => b@,
                None => Seq::empty(),
            },
            model.config.hidden_size as nat,
            model.config.num_classes as nat,
        ),
    ensures
        model.class_logits(e) == Some(y),
{
    kernels::lemma_linear(
        y,
        e,
        model.classifier_head->0@,
        match model.classifier_bias {
            Some(b) => b@,
            None => Seq::empty(),
        },
        model.config.hidden_size as nat,
        model.config.num_classes as nat,
    );
}

/// `y` is `x` over its length, where that is above 1e-12.
pub open spec fn is_unit_vector<T: Scalar, M: Math<T>>(y: Seq<T>, x: Seq<T>) -> bool {
    let len = scalar::sqrt_of::<T, M>(
        equations::sigma(x.len(), |j: int| scalar::times(x[j], x[j])),
    );
    if scalar::is_greater::<T, M>(len, scalar::binary64_of::<T, M>(0x3D71_9799_812D_EA11)) {
        &&& y.len() == x.len()
        &&& forall|i: int| 0 <= i < y.len() ==> #[trigger] y[i] == scalar::over(x[i], len)
    } else {
        y == x
    }
}

/// `y` is `x` under a linear map without bias; without weights it is `x`, cut or
/// filled up with zeros.
pub open spec fn is_projected<T: Scalar>(
    y: Seq<T>,
    x: Seq<T>,
    w: Seq<T>,
    k: nat,
    n: nat,
) -> bool {
    if w.len() == 0 {
        &&& y.len() == n
        &&& forall|j: int|
            0 <= j < n ==> #[trigger] y[j] == if j < x.len() {
                x[j]
            } else {
                scalar::zero()
            }
    } else {
        equations::is_linear(y, x, w, Seq::empty(), k, n)
    }
}

proof fn lemma_projected<T: Scalar>(y: Seq<T>, x: Seq<T>, w: Seq<T>, k: nat, n: nat)
    requires
        w.len() == 0 || w.len() == n * k,
        is_projected(y, x, w, k, n),
    ensures
        y == clip::projected(x, w, k, n),
        y == world_model::projected_row(x, w, k, n),
        y.len() == n,
{
    if w.len() == 0 {
        assert(y =~= ops::fitted(x, n));
    } else {
        kernels::lemma_linear(y, x, w, Seq::empty(), k, n);
    }
}

proof fn lemma_unit_vector<T: Scalar, M: Math<T>>(y: Seq<T>, x: Seq<T>)
    requires
        is_unit_vector::<T, M>(y, x),
    ensures
        y == clip::unit_of::<T, M>(x),
{
    kernels::lemma_dot_is_sigma(x, x, x.len());
    assert(y =~= clip::unit_of::<T, M>(x));
}

/// An image's embedding in the shared space is the vision embedding, projected,
/// at unit length.
pub proof fn lemma_clip_image<T: Scalar, M: Math<T>>(
    model: CLIPModel<T>,
    image: Seq<T>,
    h: nat,
    w: nat,
    p: Seq<T>,
    y: Seq<T>,
)
    requires
        model.vision_wf(),
        is_projected(
            p,
            model.vision_model.image_embedding::<M>(image, h, w),
            model.vision_proj@,
            model.config.vision.hidden_size as nat,
            model.config.embed_dim as nat,
        ),
        is_unit_vector::<T, M>(y, p),
    ensures
        model.image_embedding::<M>(image, h, w) == y,
{
    lemma_projected(
        p,
        model.vision_model.image_embedding::<M>(image, h, w),
        model.vision_proj@,
        model.config.vision.hidden_size as nat,
        model.config.embed_dim as nat,
    );
    lemma_unit_vector::<T, M>(y, p);
}

/// Column `j` of token `t` is that column of the token's row of the table, zero
/// for a token outside it, with that of position `t` added where there is one.
pub proof fn lemma_clip_tokens<T: Scalar>(model: CLIPModel<T>, ids: Seq<u32>, t: int, j: int)
    requires
        0 <= t < ids.len(),
        0 <= j < model.config.text_hidden_size,
    ensures
        model.text_rows(ids).len() == ids.len() * model.config.text_hidden_size,
        ({
            let h = model.config.text_hidden_size as int;
            let id = ids[t];
            let e = if id < model.config.vocab_size && (id + 1) * h
                <= model.text_embeddings@.len() {
                model.text_embeddings@[id * h + j]
            } else {
                scalar::zero()
            };
            model.text_rows(ids)[t * h + j] == if t * h + j < model.text_pos_embed@.len() {
                scalar::plus(e, model.text_pos_embed@[t * h + j])
            } else {
                e
            }
        }),
{
    let h = model.config.text_hidden_size as int;
    let n = ids.len();
    let f = |k: int| model.token_row(ids[k]);
    assert forall|k: int| 0 <= k < n implies #[trigger] f(k).len() == h by {
        ops::lemma_row_bounds(ids[k] as int, ids[k] + 1, h);
    }
    ops::lemma_blocks_rows(n, f, h as nat);
    let x = ops::blocks(n, f);
    ops::lemma_row_bounds(t, n as int, h);
    ops::lemma_row_bounds(ids[t] as int, ids[t] + 1, h);
    assert(ops::row(x, t, h) == f(t));
    assert(ops::row(x, t, h)[j] == x[t * h + j]);
}

/// A text's embedding in the shared space is its last row behind the last layer,
/// normalised, projected, at unit length.
pub proof fn lemma_clip_text<T: Scalar, M: Math<T>>(
    model: CLIPModel<T>,
    ids: Seq<u32>,
    states: Seq<Seq<T>>,
    normed: Seq<T>,
    biased: Seq<T>,
    p: Seq<T>,
    y: Seq<T>,
)
    requires
        model.text_wf(),
        ids.len() > 0,
        ({
            let h = model.config.text_hidden_size as nat;
            let n = model.text_encoder_layers@.len();
            &&& states.len() == n + 1
            &&& states[0] == model.text_rows(ids)
            &&& states[n as int].len() == ids.len() * h
            &&& forall|i: int|
                0 <= i < n ==> states[i + 1] == (
                #[trigger] model.text_encoder_layers@[i]).forward_of::<M>(states[i], ids.len())
            &&& equations::is_normed::<T, M>(
                normed,
                model.text_norm,
                equations::line(states[n as int], ids.len() - 1, h as int),
                model.text_norm_weight@,
            )
            &&& is_biased(biased, normed, model.text_norm_bias@)
            &&& is_projected(
                p,
                biased,
                model.text_proj@,
                h,
                model.config.embed_dim as nat,
            )
            &&& is_unit_vector::<T, M>(y, p)
        }),
    ensures
        model.text_embedding::<M>(ids) == y,
{
    let h = model.config.text_hidden_size as nat;
    let n = model.text_encoder_layers@.len();
    let last = ids.len() - 1;
    let x = states[n as int];
    let b = model.text_norm_bias@;
    lemma_encoder_stack::<T, M>(model.text_encoder_layers@, states, ids.len(), n);
    ops::lemma_row_bounds(last, ids.len() as int, h as int);
    let all = crate::norm::normed::<T, M>(
        model.text_norm,
        x,
        model.text_norm_weight@,
        h,
        ids.len(),
    );
    let f = |i: int|
        crate::norm::normed_row::<T, M>(
            model.text_norm,
            ops::row(x, i, h as int),
            model.text_norm_weight@,
        );
    assert forall|i: int| 0 <= i < ids.len() implies #[trigger] f(i).len() == h by {
        ops::lemma_row_bounds(i, ids.len() as int, h as int);
    }
    ops::lemma_blocks_rows(ids.len(), f, h);
    assert(all == ops::blocks(ids.len(), f));
    assert(ops::row(all, last, h as int) == f(last));
    kernels::lemma_normed::<T, M>(
        normed,
        model.text_norm,
        ops::row(x, last, h as int),
        model.text_norm_weight@,
    );
    lemma_biased(biased, normed, b);
    let rows = ops::biased(all, b, ids.len(), h);
    if b.len() > 0 {
        let g = |i: int| ops::sum_of(ops::row(all, i, h as int), b);
        assert forall|i: int| 0 <= i < ids.len() implies #[trigger] g(i).len() == h by {
            ops::lemma_row_bounds(i, ids.len() as int, h as int);
        }
        ops::lemma_blocks_rows(ids.len(), g, h);
        assert(rows == ops::blocks(ids.len(), g));
        assert(ops::row(rows, last, h as int) == g(last));
    }
    assert(ops::row(rows, last, h as int) == biased);
    lemma_projected(p, biased, model.text_proj@, h, model.config.embed_dim as nat);
    lemma_unit_vector::<T, M>(y, p);
}

/// The world model's next state is read from the first row behind its dynamics,
/// normalised and projected; the two rows that go in are the state, cut or
/// filled up with zeros, and the projected action.
pub proof fn lemma_dynamics<T: Scalar, M: Math<T>>(
    model: WorldModel<T>,
    state: Seq<T>,
    action: Seq<T>,
    first: Seq<T>,
    second: Seq<T>,
    states: Seq<Seq<T>>,
    normed: Seq<T>,
    y: Seq<T>,
)
    requires
        model.dynamics_wf(),
        ({
            let h = model.config.dynamics_hidden_size as nat;
            let n = model.dynamics_layers@.len();
            &&& is_projected(first, state, Seq::empty(), state.len(), h)
            &&& is_projected(
                second,
                action,
                model.action_embed@,
                model.config.action_dim as nat,
                h,
            )
            &&& states.len() == n + 1
            &&& states[0] == first + second
            &&& states[n as int].len() == 2 * h
            &&& forall|i: int|
                0 <= i < n ==> states[i + 1] == (
                #[trigger] model.dynamics_layers@[i]).forward_of::<M>(states[i], 2)
            &&& equations::is_normed::<T, M>(
                normed,
                model.dynamics_norm,
                states[n as int].subrange(0, h as int),
                model.dynamics_norm_weight@,
            )
            &&& is_projected(y, normed, model.output_proj@, h, model.config.latent_dim as nat)
        }),
    ensures
        model.next_of::<M>(state, action) == y,
{
    let h = model.config.dynamics_hidden_size as nat;
    let n = model.dynamics_layers@.len();
    assert(first =~= ops::fitted(state, h));
    lemma_projected(
        second,
        action,
        model.action_embed@,
        model.config.action_dim as nat,
        h,
    );
    lemma_encoder_stack::<T, M>(model.dynamics_layers@, states, 2, n);
    let x = states[n as int];
    assert(x.subrange(0, h as int) =~= ops::row(x, 0, h as int));
    kernels::lemma_normed::<T, M>(
        normed,
        model.dynamics_norm,
        ops::row(x, 0, h as int),
        model.dynamics_norm_weight@,
    );
    lemma_projected(y, normed, model.output_proj@, h, model.config.latent_dim as nat);
}

/// A rollout feeds each predicted state to the next step, with the actions in
/// order.
pub proof fn lemma_dynamics_rollout<T: Scalar, M: Math<T>>(
    model: WorldModel<T>,
    states: Seq<Seq<T>>,
    actions: Seq<Vec<T>>,
    n: nat,
)
    requires
        n <= actions.len(),
        states.len() == actions.len() + 1,
        forall|i: int|
            0 <= i < actions.len() ==> states[i + 1] == model.next_of::<M>(
                states[i],
                (#[trigger] actions[i])@,
            ),
    ensures
        model.state_after::<M>(states[0], actions, n) == states[n as int],
    decreases n,
{
    if n > 0 {
        lemma_dynamics_rollout::<T, M>(model, states, actions, (n - 1) as nat);
        assert(states[n - 1 + 1] == model.next_of::<M>(states[n - 1], actions[n - 1]@));
    }
}

/// The rows that a mask keeps come in order: the number of set entries before
/// `i` is the place of row `i`.
pub proof fn lemma_rows_kept<T>(x: Seq<T>, mask: Seq<bool>, n: nat, w: nat, i: int)
    requires
        0 <= i < n <= mask.len(),
        mask[i],
        x.len() == n * w,
    ensures
        jepa::rows_set(x, mask, n, w as int).len() == jepa::count_set(mask, n) * w,
        jepa::count_set(mask, i as nat) < jepa::count_set(mask, n),
        equations::line(
            jepa::rows_set(x, mask, n, w as int),
            jepa::count_set(mask, i as nat) as int,
            w as int,
        ) == equations::line(x, i, w as int),
        jepa::count_set(mask, n) == mask.take(n as int).filter(|b: bool| b).len(),
    decreases n,
{
    lemma_count_set(mask, n);
    lemma_rows_before(x, mask, n, n, w, i);
}

proof fn lemma_count_set(mask: Seq<bool>, n: nat)
    requires
        n <= mask.len(),
    ensures
        jepa::count_set(mask, n) == mask.take(n as int).filter(|b: bool| b).len(),
    decreases n,
{
    reveal(Seq::filter);
    if n == 0 {
        let keep = |b: bool| b;
        assert(mask.take(0).filter(keep).len() == 0);
    } else {
        lemma_count_set(mask, (n - 1) as nat);
        assert(mask.take(n as int).drop_last() =~= mask.take(n - 1));
        assert(mask.take(n as int).last() == mask[n - 1]);
    }
}

proof fn lemma_rows_before<T>(x: Seq<T>, mask: Seq<bool>, m: nat, n: nat, w: nat, i: int)
    requires
        m <= n <= mask.len(),
        x.len() == n * w,
    ensures
        jepa::rows_set(x, mask, m, w as int).len() == jepa::count_set(mask, m) * w,
        0 <= i < m && mask[i] ==> {
            &&& jepa::count_set(mask, i as nat) < jepa::count_set(mask, m)
            &&& equations::line(
                jepa::rows_set(x, mask, m, w as int),
                jepa::count_set(mask, i as nat) as int,
                w as int,
            ) == equations::line(x, i, w as int)
        },
    decreases m,
{
    if m > 0 {
        let k = (m - 1) as nat;
        lemma_rows_before(x, mask, k, n, w, i);
        ops::lemma_row_bounds(k as int, n as int, w as int);
        let before = jepa::rows_set(x, mask, k, w as int);
        let after = jepa::rows_set(x, mask, m, w as int);
        let c = jepa::count_set(mask, k);
        assert((c + 1) * w == c * w + w) by (nonlinear_arith);
        if 0 <= i < m && mask[i] {
            let at = jepa::count_set(mask, i as nat) as int;
            if i == k {
                assert(equations::line(after, at, w as int) =~= equations::line(x, i, w as int));
            } else {
                ops::lemma_row_bounds(at, c as int, w as int);
                assert(equations::line(after, at, w as int) =~= equations::line(
                    before,
                    at,
                    w as int,
                ));
            }
        }
    } else {
        assert(0 * w == 0) by (nonlinear_arith);
    }
}

/// Each row of `y` is that row of `x` under a projection.
pub open spec fn are_projected<T: Scalar>(
    y: Seq<T>,
    x: Seq<T>,
    w: Seq<T>,
    rows: nat,
    k: nat,
    n: nat,
) -> bool {
    &&& y.len() == rows * n
    &&& forall|t: int|
        0 <= t < rows ==> is_projected(
            #[trigger] equations::line(y, t, n as int),
            equations::line(x, t, k as int),
            w,
            k,
            n,
        )
}

proof fn lemma_projected_rows<T: Scalar>(
    y: Seq<T>,
    x: Seq<T>,
    w: Seq<T>,
    rows: nat,
    k: nat,
    n: nat,
)
    requires
        x.len() == rows * k,
        w.len() == 0 || w.len() == n * k,
        are_projected(y, x, w, rows, k, n),
    ensures
        y == jepa::projected_rows(x, w, rows, k, n),
{
    let z = jepa::projected_rows(x, w, rows, k, n);
    if w.len() == 0 {
        let f = |i: int| ops::fitted(ops::row(x, i, k as int), n);
        ops::lemma_blocks_rows(rows, f, n);
        assert(z == ops::blocks(rows, f));
        assert forall|t: int| 0 <= t < rows implies #[trigger] ops::row(y, t, n as int) == ops::row(
            z,
            t,
            n as int,
        ) by {
            ops::lemma_row_bounds(t, rows as int, n as int);
            ops::lemma_row_bounds(t, rows as int, k as int);
            assert(ops::row(z, t, n as int) == f(t));
            assert(equations::line(y, t, n as int) == ops::row(y, t, n as int));
            assert(equations::line(x, t, k as int) == ops::row(x, t, k as int));
            assert(ops::row(y, t, n as int) =~= f(t));
        }
        kernels::lemma_same_by_lines(y, z, rows, n);
    } else {
        kernels::lemma_linear_rows(y, x, w, Seq::empty(), rows, k, n);
    }
}

/// The predictor takes the projected context rows and a row of zeros for each
/// target behind them; the prediction is the projection of the normalised rows
/// of the targets.
pub proof fn lemma_jepa_prediction<T: Scalar, M: Math<T>>(
    model: JEPAModel<T>,
    context: Seq<T>,
    contexts: nat,
    targets: nat,
    embedded: Seq<T>,
    blank: Seq<T>,
    states: Seq<Seq<T>>,
    normed: Seq<T>,
    y: Seq<T>,
)
    requires
        model.wf(),
        context.len() == contexts * model.config.encoder.hidden_size,
        ({
            let enc = model.config.encoder.hidden_size as nat;
            let pred = model.config.predictor_hidden_size as nat;
            let n = model.predictor_layers@.len();
            let total = contexts + targets;
            &&& are_projected(
                embedded,
                context,
                model.predictor_embed_proj@,
                contexts,
                enc,
                pred,
            )
            &&& blank.len() == targets * pred
            &&& forall|i: int| 0 <= i < blank.len() ==> #[trigger] blank[i] == scalar::zero::<T>()
            &&& states.len() == n + 1
            &&& states[0] == embedded + blank
            &&& states[n as int].len() == total * pred
            &&& forall|i: int|
                0 <= i < n ==> states[i + 1] == (
                #[trigger] model.predictor_layers@[i]).forward_of::<M>(states[i], total)
            &&& equations::are_normed::<T, M>(
                normed,
                model.predictor_norm,
                states[n as int],
                model.predictor_norm_weight@,
                pred,
                total,
            )
            &&& are_projected(
                y,
                normed.subrange((contexts * pred) as int, normed.len() as int),
                model.predictor_output_proj@,
                targets,
                pred,
                enc,
            )
        }),
    ensures
        model.predicted_of::<M>(context, contexts, targets) == y,
{
    let enc = model.config.encoder.hidden_size as nat;
    let pred = model.config.predictor_hidden_size as nat;
    let n = model.predictor_layers@.len();
    let total = contexts + targets;
    lemma_projected_rows(
        embedded,
        context,
        model.predictor_embed_proj@,
        contexts,
        enc,
        pred,
    );
    assert(blank =~= crate::buffer::repeated(scalar::zero(), targets * pred));
    lemma_encoder_stack::<T, M>(model.predictor_layers@, states, total, n);
    kernels::lemma_normed_rows::<T, M>(
        normed,
        model.predictor_norm,
        states[n as int],
        model.predictor_norm_weight@,
        pred,
        total,
    );
    assert(total * pred == contexts * pred + targets * pred) by (nonlinear_arith)
        requires
            total == contexts + targets,
    ;
    let tail = normed.subrange((contexts * pred) as int, normed.len() as int);
    assert(tail =~= normed.skip((contexts * pred) as int));
    lemma_projected_rows(y, tail, model.predictor_output_proj@, targets, pred, enc);
}

/// The patch embeddings are the rows behind the class token's, normalised.
pub proof fn lemma_jepa_patches<T: Scalar, M: Math<T>>(
    model: JEPAModel<T>,
    image: Seq<T>,
    h: nat,
    w: nat,
    x: Seq<T>,
    normed: Seq<T>,
)
    requires
        model.wf(),
        x == model.encoder.encoded_rows::<M>(model.encoder.patch_rows(image, h, w)),
        x.len() == (model.config.encoder.spec_num_patches() + 1)
            * model.config.encoder.hidden_size,
        model.config.encoder.spec_num_patches() >= 0,
        equations::are_normed::<T, M>(
            normed,
            model.encoder.final_norm,
            x,
            model.encoder.final_norm_weight@,
            model.config.encoder.hidden_size as nat,
            (model.config.encoder.spec_num_patches() + 1) as nat,
        ),
    ensures
        model.patch_embeddings::<M>(image, h, w) == normed.subrange(
            model.config.encoder.hidden_size as int,
            normed.len() as int,
        ),
{
    let enc = model.config.encoder.hidden_size as nat;
    let rows = (model.config.encoder.spec_num_patches() + 1) as nat;
    kernels::lemma_normed_rows::<T, M>(
        normed,
        model.encoder.final_norm,
        x,
        model.encoder.final_norm_weight@,
        enc,
        rows,
    );
    ops::lemma_row_bounds(0, rows as int, enc as int);
    assert(normed.subrange(enc as int, normed.len() as int) =~= normed.skip(enc as int));
}

/// The context is the patch embeddings that the mask keeps, in order.
pub proof fn lemma_jepa_context<T: Scalar, M: Math<T>>(
    model: JEPAModel<T>,
    image: Seq<T>,
    h: nat,
    w: nat,
    mask: Seq<bool>,
    i: int,
)
    requires
        0 <= i < model.config.encoder.spec_num_patches() <= mask.len(),
        mask[i],
        model.patch_embeddings::<M>(image, h, w).len() == model.config.encoder.spec_num_patches()
            * model.config.encoder.hidden_size,
    ensures
        equations::line(
            model.context_of::<M>(image, h, w, mask),
            mask.take(i).filter(|b: bool| b).len() as int,
            model.config.encoder.hidden_size as int,
        ) == equations::line(
            model.patch_embeddings::<M>(image, h, w),
            i,
            model.config.encoder.hidden_size as int,
        ),
{
    lemma_count_set(mask, i as nat);
    lemma_rows_kept(
        model.patch_embeddings::<M>(image, h, w),
        mask,
        model.config.encoder.spec_num_patches() as nat,
        model.config.encoder.hidden_size as nat,
        i,
    );
}

/// A plain layer attends in both directions, normalises by layers with 1e-6, and
/// has one hidden map under GELU.
pub proof fn lemma_plain_layer(hidden: usize, heads: usize, d: usize, inter: usize)
    ensures
        ({
            let l = vit::plain_encoder(hidden, heads, d, inter);
            let norm = NormConfig::LayerNorm { eps: Binary64 { bits: 0x3EB0_C6F7_A0B5_ED8D } };
            &&& l.hidden_size == hidden
            &&& l.attn_norm == norm
            &&& l.ffn_norm == norm
            &&& l.attention == (AttentionConfig::Bidirectional { num_heads: heads, head_dim: d })
            &&& l.ffn == (FFNConfig::GELU { intermediate_size: inter })
        }),
{
}

/// A label counts where its name is a decimal number and its value a text; the
/// others are passed over.
pub proof fn lemma_labels(
    fields: Seq<(Seq<char>, JsonTree)>,
    name: Seq<char>,
    value: JsonTree,
    class: usize,
    label: Seq<char>,
)
    ensures
        crate::text::decimal_value(name) == Some(class) && value == JsonTree::Text(label)
            ==> vit_config::label_entries(fields.push((name, value)))
            == vit_config::label_entries(fields).push((class, label)),
        crate::text::decimal_value(name) is None || !(value is Text)
            ==> vit_config::label_entries(fields.push((name, value)))
            == vit_config::label_entries(fields),
        vit_config::label_entries(Seq::empty()) == Seq::<(usize, Seq<char>)>::empty(),
{
    assert(fields.push((name, value)).drop_last() =~= fields);
}

/// The labels stand in the order of their classes: of two with different
/// classes, the one of the smaller class comes first.
pub proof fn lemma_labels_sorted(
    entries: Seq<(usize, Seq<char>)>,
    sorted: Seq<(usize, Seq<char>)>,
    i: int,
    j: int,
)
    requires
        vit_config::is_by_class(entries, sorted),
        0 <= i < sorted.len(),
        0 <= j < sorted.len(),
        sorted[i].0 < sorted[j].0,
    ensures
        i < j,
{
}

} // verus!
