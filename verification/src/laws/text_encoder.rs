//! The text encoders.

use vstd::prelude::*;

use crate::attention::HeadLayout;
use crate::laws::equations;
use crate::laws::kernels;
use crate::models::text_encoder::code_deltatok;
use crate::models::text_encoder::code_deltatok::{
    CodeDeltaTokConfig, CodeDeltaTokHead, DeltaTokBlock, HeadParts,
};
use crate::models::text_encoder::code_deltatok_q4;
use crate::models::text_encoder::code_deltatok_q4::{Q4CodeDeltaTokHead, Q4DeltaTokBlock};
use crate::models::text_encoder::roberta;
use crate::models::text_encoder::roberta::{RoBERTaEmbeddings, RoBERTaEncoder, RoBERTaLayer};
use crate::models::text_encoder::roberta_q4::{Q4RoBERTaEncoder, Q4RoBERTaLayer};
use crate::ops;
use crate::packed;
use crate::packed::PackedLinear;
use crate::scalar;
use crate::scalar::{Math, Scalar};

verus! {

/// The row of a table with `rows` rows that an index picks: an index outside
/// the table picks the last row.
pub open spec fn picked_row(index: int, rows: int) -> int {
    if 0 <= index < rows {
        index
    } else {
        rows - 1
    }
}

/// A real token's position is the number of real tokens up to and with it,
/// behind the padding index; padding stands at the padding index.
pub proof fn lemma_position_ids(mask: Seq<i64>, pad: u32, i: int)
    requires
        0 <= i < mask.len(),
    ensures
        mask[i] == 1 ==> roberta::position_id(mask, pad, i) == pad + mask.take(i + 1).filter(
            |m: i64| m == 1,
        ).len(),
        mask[i] != 1 ==> roberta::position_id(mask, pad, i) == pad,
{
    lemma_real_tokens(mask, (i + 1) as nat);
}

proof fn lemma_real_tokens(mask: Seq<i64>, n: nat)
    requires
        n <= mask.len(),
    ensures
        roberta::real_tokens(mask, n) == mask.take(n as int).filter(|m: i64| m == 1).len(),
    decreases n,
{
    let one = |m: i64| m == 1;
    reveal(Seq::filter);
    if n == 0 {
        assert(mask.take(0).filter(one).len() == 0);
    } else {
        lemma_real_tokens(mask, (n - 1) as nat);
        assert(mask.take(n as int).drop_last() =~= mask.take(n - 1));
        assert(mask.take(n as int).last() == mask[n - 1]);
    }
}

/// Column `j` of token `i` before the normalisation is that column of the
/// token's row of the word table, plus that of its position's row, plus that of
/// the first row of the token types.
pub proof fn lemma_roberta_embedding<T: Scalar>(
    e: RoBERTaEmbeddings<T>,
    ids: Seq<i64>,
    mask: Seq<i64>,
    i: int,
    j: int,
)
    requires
        e.wf(),
        0 <= i < ids.len(),
        0 <= j < e.hidden_size,
    ensures
        e.embedding(ids, mask, i).len() == e.hidden_size,
        ({
            let h = e.hidden_size as int;
            let word = picked_row(ids[i] as int, e.word@.len() as int / h);
            let place = picked_row(
                roberta::position_id(mask, e.pad_token_id, i) as int,
                e.position@.len() as int / h,
            );
            e.embedding(ids, mask, i)[j] == scalar::plus(
                scalar::plus(e.word@[word * h + j], e.position@[place * h + j]),
                e.token_type@[j],
            )
        }),
{
    let h = e.hidden_size as int;
    let word = picked_row(ids[i] as int, e.word@.len() as int / h);
    let place = picked_row(
        roberta::position_id(mask, e.pad_token_id, i) as int,
        e.position@.len() as int / h,
    );
    lemma_picked_inside(ids[i] as int, e.word@.len() as int, h);
    lemma_picked_inside(
        roberta::position_id(mask, e.pad_token_id, i) as int,
        e.position@.len() as int,
        h,
    );
    assert(word == roberta::clamped(ids[i] as int, e.word@.len(), h as nat));
    assert(place == roberta::clamped(
        roberta::position_id(mask, e.pad_token_id, i) as int,
        e.position@.len(),
        h as nat,
    ));
}

proof fn lemma_picked_inside(index: int, len: int, h: int)
    requires
        0 < h <= len,
    ensures
        0 < len / h,
        0 <= picked_row(index, len / h) < len / h,
        0 <= picked_row(index, len / h) * h,
        (picked_row(index, len / h) + 1) * h == picked_row(index, len / h) * h + h,
        (picked_row(index, len / h) + 1) * h <= len,
{
    vstd::arithmetic::div_mod::lemma_fundamental_div_mod(len, h);
    vstd::arithmetic::div_mod::lemma_mod_bound(len, h);
    assert(0 < len / h) by (nonlinear_arith)
        requires
            len == h * (len / h) + len % h,
            0 <= len % h < h <= len,
    ;
    ops::lemma_row_bounds(picked_row(index, len / h), len / h, h);
    assert((len / h) * h == h * (len / h)) by (nonlinear_arith);
}

/// Equal tokens at equal positions have equal rows, and the rows of equal tokens
/// differ only where the rows of their positions do.
pub proof fn lemma_roberta_positions_tell<T: Scalar>(
    e: RoBERTaEmbeddings<T>,
    ids: Seq<i64>,
    mask: Seq<i64>,
    i: int,
    k: int,
    j: int,
)
    requires
        e.wf(),
        0 <= i < ids.len(),
        0 <= k < ids.len(),
        ids[i] == ids[k],
        0 <= j < e.hidden_size,
    ensures
        ({
            let h = e.hidden_size as int;
            let rows = e.position@.len() as int / h;
            let a = picked_row(roberta::position_id(mask, e.pad_token_id, i) as int, rows);
            let b = picked_row(roberta::position_id(mask, e.pad_token_id, k) as int, rows);
            &&& e.position@[a * h + j] == e.position@[b * h + j] ==> e.embedding(ids, mask, i)[j]
                == e.embedding(ids, mask, k)[j]
            &&& (forall|x: T, y: T, z: T, t: T|
                #![trigger scalar::plus(scalar::plus(x, y), t), scalar::plus(scalar::plus(x, z), t)]
                scalar::plus(scalar::plus(x, y), t) == scalar::plus(scalar::plus(x, z), t) ==> y
                    == z) && e.position@[a * h + j] != e.position@[b * h + j] ==> e.embedding(
                ids,
                mask,
                i,
            )[j] != e.embedding(ids, mask, k)[j]
        }),
{
    lemma_roberta_embedding(e, ids, mask, i, j);
    lemma_roberta_embedding(e, ids, mask, k, j);
}

/// The embeddings' output is the layer normalisation of the tokens' rows.
pub proof fn lemma_roberta_embeddings<T: Scalar, M: Math<T>>(
    e: RoBERTaEmbeddings<T>,
    ids: Seq<i64>,
    mask: Seq<i64>,
    sums: Seq<T>,
    y: Seq<T>,
)
    requires
        e.wf(),
        sums.len() == ids.len() * e.hidden_size,
        forall|i: int|
            0 <= i < ids.len() ==> #[trigger] equations::line(sums, i, e.hidden_size as int)
                == e.embedding(ids, mask, i),
        equations::are_layer_normed::<T, M>(
            y,
            sums,
            e.ln_weight@,
            e.ln_bias@,
            scalar::binary64_of::<T, M>(e.layer_norm_eps.bits),
            e.hidden_size as nat,
            ids.len(),
        ),
    ensures
        e.output::<M>(ids, mask) == y,
{
    let h = e.hidden_size as nat;
    let n = ids.len();
    let f = |i: int| e.embedding(ids, mask, i);
    assert forall|i: int| 0 <= i < n implies #[trigger] f(i).len() == h by {
        ops::lemma_row_bounds(i, n as int, h as int);
        assert(equations::line(sums, i, h as int) == f(i));
    }
    ops::lemma_blocks_rows(n, f, h);
    let x = ops::blocks(n, f);
    assert forall|i: int| 0 <= i < n implies #[trigger] ops::row(x, i, h as int) == ops::row(
        sums,
        i,
        h as int,
    ) by {
        ops::lemma_row_bounds(i, n as int, h as int);
        assert(ops::row(x, i, h as int) == f(i));
        assert(equations::line(sums, i, h as int) == ops::row(sums, i, h as int));
    }
    kernels::lemma_same_by_lines(x, sums, n, h);
    kernels::lemma_layer_norm_rows::<T, M>(
        y,
        sums,
        e.ln_weight@,
        e.ln_bias@,
        scalar::binary64_of::<T, M>(e.layer_norm_eps.bits),
        h,
        n,
    );
}

/// The matrices that an encoder layer goes through.
pub struct RoBERTaSteps<T> {
    pub query: Seq<T>,
    pub key: Seq<T>,
    pub value: Seq<T>,
    pub seen: Seq<T>,
    pub out: Seq<T>,
    pub attended: Seq<T>,
    pub normed: Seq<T>,
    pub up: Seq<T>,
    pub active: Seq<T>,
    pub down: Seq<T>,
    pub fed: Seq<T>,
    pub result: Seq<T>,
}

/// The matrices are what an encoder layer computes from the rows of `x`: each of
/// its two parts is added to what went into it, and the sum is normalised.
pub open spec fn are_roberta_steps<T: Scalar, M: Math<T>>(
    r: RoBERTaSteps<T>,
    layer: RoBERTaLayer<T>,
    x: Seq<T>,
    rows: nat,
    mask: Option<Seq<i64>>,
) -> bool {
    let (h, inter) = (layer.hidden_size as nat, layer.intermediate_size as nat);
    let heads = layer.num_heads;
    let d = (h as int / heads as int) as usize;
    let eps = scalar::binary64_of::<T, M>(layer.layer_norm_eps.bits);
    &&& equations::are_linear(r.query, x, layer.w_q@, layer.q_bias@, rows, h, h)
    &&& equations::are_linear(r.key, x, layer.w_k@, layer.k_bias@, rows, h, h)
    &&& equations::are_linear(r.value, x, layer.w_v@, layer.v_bias@, rows, h, h)
    &&& match mask {
        Some(mask) => equations::are_masked_attending::<T, M>(
            r.seen,
            r.query,
            r.key,
            r.value,
            heads,
            d,
            rows,
            mask,
        ),
        None => equations::are_attending::<T, M>(
            r.seen,
            r.query,
            r.key,
            r.value,
            heads,
            heads,
            d,
            rows,
            false,
        ),
    }
    &&& equations::are_linear(r.out, r.seen, layer.w_o@, layer.o_bias@, rows, h, h)
    &&& equations::is_sum(r.attended, x, r.out)
    &&& equations::are_layer_normed::<T, M>(
        r.normed,
        r.attended,
        layer.attn_ln_weight@,
        layer.attn_ln_bias@,
        eps,
        h,
        rows,
    )
    &&& equations::are_linear(r.up, r.normed, layer.w_up@, layer.up_bias@, rows, h, inter)
    &&& r.active.len() == r.up.len()
    &&& forall|i: int|
        0 <= i < r.active.len() ==> #[trigger] r.active[i] == roberta::gelu_erf_of::<T, M>(r.up[i])
    &&& equations::are_linear(r.down, r.active, layer.w_down@, layer.down_bias@, rows, inter, h)
    &&& equations::is_sum(r.fed, r.normed, r.down)
    &&& equations::are_layer_normed::<T, M>(
        r.result,
        r.fed,
        layer.ffn_ln_weight@,
        layer.ffn_ln_bias@,
        eps,
        h,
        rows,
    )
}

/// An encoder layer's output is the last of its steps.
pub proof fn lemma_roberta_layer<T: Scalar, M: Math<T>>(
    r: RoBERTaSteps<T>,
    layer: RoBERTaLayer<T>,
    x: Seq<T>,
    rows: nat,
    mask: Option<Seq<i64>>,
)
    requires
        layer.wf(),
        x.len() == rows * layer.hidden_size,
        roberta::mask_reaches(mask, rows),
        are_roberta_steps::<T, M>(r, layer, x, rows, mask),
    ensures
        layer.output::<M>(x, rows, mask) == r.result,
{
    let (h, inter) = (layer.hidden_size as nat, layer.intermediate_size as nat);
    let heads = layer.num_heads;
    let d = layer.head_dim();
    let eps = scalar::binary64_of::<T, M>(layer.layer_norm_eps.bits);
    lemma_heads_divide(layer.hidden_size, heads);
    kernels::lemma_linear_rows(r.query, x, layer.w_q@, layer.q_bias@, rows, h, h);
    kernels::lemma_linear_rows(r.key, x, layer.w_k@, layer.k_bias@, rows, h, h);
    kernels::lemma_linear_rows(r.value, x, layer.w_v@, layer.v_bias@, rows, h, h);
    match mask {
        Some(mask) => {
            kernels::lemma_masked_rows::<T, M>(
                r.seen,
                r.query,
                r.key,
                r.value,
                heads,
                d,
                rows,
                mask,
            );
        },
        None => {
            kernels::lemma_attending_rows::<T, M>(
                r.seen,
                r.query,
                r.key,
                r.value,
                HeadLayout { num_heads: heads, num_kv_heads: heads, head_dim: d },
                rows,
                false,
            );
        },
    }
    kernels::lemma_linear_rows(r.out, r.seen, layer.w_o@, layer.o_bias@, rows, h, h);
    kernels::lemma_elementwise(r.attended, x, r.out);
    kernels::lemma_layer_norm_rows::<T, M>(
        r.normed,
        r.attended,
        layer.attn_ln_weight@,
        layer.attn_ln_bias@,
        eps,
        h,
        rows,
    );
    kernels::lemma_linear_rows(r.up, r.normed, layer.w_up@, layer.up_bias@, rows, h, inter);
    assert(r.active =~= roberta::gelued::<T, M>(r.up));
    kernels::lemma_linear_rows(r.down, r.active, layer.w_down@, layer.down_bias@, rows, inter, h);
    kernels::lemma_elementwise(r.fed, r.normed, r.down);
    kernels::lemma_layer_norm_rows::<T, M>(
        r.result,
        r.fed,
        layer.ffn_ln_weight@,
        layer.ffn_ln_bias@,
        eps,
        h,
        rows,
    );
}

/// Heads of equal width fill a row.
pub proof fn lemma_heads_divide(h: usize, heads: usize)
    requires
        heads > 0,
        h % heads == 0,
    ensures
        heads * ((h as int / heads as int) as usize) == h,
        heads % heads == 0,
{
    vstd::arithmetic::div_mod::lemma_fundamental_div_mod(h as int, heads as int);
    vstd::arithmetic::div_mod::lemma_mod_self_0(heads as int);
    vstd::arithmetic::div_mod::lemma_div_pos_is_pos(h as int, heads as int);
    vstd::arithmetic::div_mod::lemma_div_is_ordered_by_denominator(h as int, 1, heads as int);
    vstd::arithmetic::div_mod::lemma_div_basics(h as int);
}

/// The encoder's layers take each other's output in order, the first one the
/// embeddings.
pub proof fn lemma_roberta_encoder<T: Scalar, M: Math<T>>(
    encoder: RoBERTaEncoder<T>,
    ids: Seq<i64>,
    mask: Seq<i64>,
    states: Seq<Seq<T>>,
    n: nat,
)
    requires
        n <= encoder.layers@.len(),
        states.len() == encoder.layers@.len() + 1,
        states[0] == encoder.embeddings.output::<M>(ids, mask),
        forall|i: int|
            0 <= i < encoder.layers@.len() ==> states[i + 1] == (
            #[trigger] encoder.layers@[i]).output::<M>(states[i], ids.len(), Some(mask)),
    ensures
        encoder.rows_after::<M>(ids, mask, n) == states[n as int],
        n == encoder.layers@.len() ==> encoder.output::<M>(ids, mask) == states[n as int],
    decreases n,
{
    if n > 0 {
        lemma_roberta_encoder::<T, M>(encoder, ids, mask, states, (n - 1) as nat);
        assert(states[n - 1 + 1] == encoder.layers@[n - 1].output::<M>(
            states[n - 1],
            ids.len(),
            Some(mask),
        ));
    }
}

/// The packed form of `w` multiplies as `w` does.
pub open spec fn packs_exactly<T: Scalar, Q: PackedLinear<T>>(
    w: Seq<T>,
    n: usize,
    k: usize,
) -> bool {
    forall|x: Seq<T>, m: usize|
        x.len() == m * k ==> #[trigger] packed::packed_output(
            packed::packed_of::<T, Q>(w, n, k),
            x,
            m,
        ) == ops::linear_of(x, w, Seq::empty(), m as nat, k as nat, n as nat)
}

proof fn lemma_packed_linear<T: Scalar, Q: PackedLinear<T>>(
    w: Seq<T>,
    x: Seq<T>,
    b: Seq<T>,
    m: usize,
    k: usize,
    n: usize,
)
    requires
        packs_exactly::<T, Q>(w, n, k),
        x.len() == m * k,
        b.len() == 0 || n <= b.len(),
    ensures
        packed::packed_linear_of(packed::packed_of::<T, Q>(w, n, k), x, b, m, n as nat)
            == ops::linear_of(x, w, b, m as nat, k as nat, n as nat),
        ops::linear_of(x, w, b, m as nat, k as nat, n as nat).len() == m * n,
{
    ops::lemma_linear(x, w, b, m as nat, k as nat, n as nat);
    ops::lemma_linear(x, w, Seq::empty(), m as nat, k as nat, n as nat);
}

/// A packed encoder layer whose maps multiply exactly computes what the layer it
/// was packed from does.
pub proof fn lemma_roberta_q4_layer<T: Scalar, M: Math<T>, Q: PackedLinear<T>>(
    q4: Q4RoBERTaLayer<T, Q>,
    layer: RoBERTaLayer<T>,
    x: Seq<T>,
    rows: usize,
    mask: Option<Seq<i64>>,
)
    requires
        layer.wf(),
        q4.is_packed_from(layer),
        x.len() == rows * layer.hidden_size,
        roberta::mask_reaches(mask, rows as nat),
        ({
            let (h, inter) = (layer.hidden_size, layer.intermediate_size);
            &&& packs_exactly::<T, Q>(layer.w_q@, h, h)
            &&& packs_exactly::<T, Q>(layer.w_k@, h, h)
            &&& packs_exactly::<T, Q>(layer.w_v@, h, h)
            &&& packs_exactly::<T, Q>(layer.w_o@, h, h)
            &&& packs_exactly::<T, Q>(layer.w_up@, inter, h)
            &&& packs_exactly::<T, Q>(layer.w_down@, h, inter)
        }),
    ensures
        q4.output::<M>(x, rows, mask) == layer.output::<M>(x, rows as nat, mask),
{
    let (h, inter) = (layer.hidden_size, layer.intermediate_size);
    let n = rows as nat;
    lemma_heads_divide(h, layer.num_heads);
    lemma_packed_linear::<T, Q>(layer.w_q@, x, layer.q_bias@, rows, h, h);
    lemma_packed_linear::<T, Q>(layer.w_k@, x, layer.k_bias@, rows, h, h);
    lemma_packed_linear::<T, Q>(layer.w_v@, x, layer.v_bias@, rows, h, h);
    let q = ops::linear_of(x, layer.w_q@, layer.q_bias@, n, h as nat, h as nat);
    let k = ops::linear_of(x, layer.w_k@, layer.k_bias@, n, h as nat, h as nat);
    let v = ops::linear_of(x, layer.w_v@, layer.v_bias@, n, h as nat, h as nat);
    let seen = roberta::attention_of::<T, M>(q, k, v, n, layer.num_heads, layer.head_dim(), mask);
    match mask {
        Some(mask) => {
            kernels::lemma_masked_rows::<T, M>(
                seen,
                q,
                k,
                v,
                layer.num_heads,
                layer.head_dim(),
                n,
                mask,
            );
        },
        None => {
            kernels::lemma_attending_rows::<T, M>(
                seen,
                q,
                k,
                v,
                HeadLayout {
                    num_heads: layer.num_heads,
                    num_kv_heads: layer.num_heads,
                    head_dim: layer.head_dim(),
                },
                n,
                false,
            );
        },
    }
    assert(seen.len() == rows * h);
    lemma_packed_linear::<T, Q>(layer.w_o@, seen, layer.o_bias@, rows, h, h);
    let sum = ops::sum_of(x, layer.attn_branch::<M>(x, n, mask));
    let normed = ops::layer_norm_bias_of::<T, M>(
        sum,
        layer.attn_ln_weight@,
        layer.attn_ln_bias@,
        layer.eps::<M>(),
        h as nat,
        n,
    );
    kernels::lemma_layer_norm_rows::<T, M>(
        normed,
        sum,
        layer.attn_ln_weight@,
        layer.attn_ln_bias@,
        layer.eps::<M>(),
        h as nat,
        n,
    );
    lemma_packed_linear::<T, Q>(layer.w_up@, normed, layer.up_bias@, rows, h, inter);
    let up = ops::linear_of(normed, layer.w_up@, layer.up_bias@, n, h as nat, inter as nat);
    lemma_packed_linear::<T, Q>(
        layer.w_down@,
        roberta::gelued::<T, M>(up),
        layer.down_bias@,
        rows,
        inter,
        h,
    );
}

/// The packed encoder's layers take each other's output in order, the first one
/// the embeddings.
pub proof fn lemma_roberta_q4_encoder<T: Scalar, M: Math<T>, Q: PackedLinear<T>>(
    encoder: Q4RoBERTaEncoder<T, Q>,
    ids: Seq<i64>,
    mask: Seq<i64>,
    states: Seq<Seq<T>>,
    n: nat,
)
    requires
        n <= encoder.layers@.len(),
        states.len() == encoder.layers@.len() + 1,
        states[0] == encoder.embeddings.output::<M>(ids, mask),
        forall|i: int|
            0 <= i < encoder.layers@.len() ==> states[i + 1] == (
            #[trigger] encoder.layers@[i]).output::<M>(states[i], ids.len() as usize, Some(mask)),
    ensures
        encoder.rows_after::<M>(ids, mask, n) == states[n as int],
        n == encoder.layers@.len() ==> encoder.output::<M>(ids, mask) == states[n as int],
    decreases n,
{
    if n > 0 {
        lemma_roberta_q4_encoder::<T, M, Q>(encoder, ids, mask, states, (n - 1) as nat);
        assert(states[n - 1 + 1] == encoder.layers@[n - 1].output::<M>(
            states[n - 1],
            ids.len() as usize,
            Some(mask),
        ));
    }
}

/// `y[t, j] = x[t, j] + scale[j] * b[t, j]`.
pub open spec fn is_scaled_residual<T: Scalar>(
    y: Seq<T>,
    x: Seq<T>,
    scale: Seq<T>,
    b: Seq<T>,
    d: nat,
    rows: nat,
) -> bool {
    &&& y.len() == rows * d
    &&& forall|t: int, j: int|
        #![trigger y[t * d + j]]
        0 <= t < rows && 0 <= j < d ==> y[t * d + j] == scalar::plus(
            x[t * d + j],
            scalar::times(scale[j], b[t * d + j]),
        )
}

proof fn lemma_scaled_residual<T: Scalar>(
    y: Seq<T>,
    x: Seq<T>,
    scale: Seq<T>,
    b: Seq<T>,
    d: nat,
    rows: nat,
)
    requires
        x.len() == rows * d,
        b.len() == rows * d,
    ensures
        is_scaled_residual(y, x, scale, b, d, rows) <==> y == code_deltatok::scaled_residual(
            x,
            scale,
            b,
            d,
            rows,
        ),
{
    let z = code_deltatok::scaled_residual(x, scale, b, d, rows);
    let f = |t: int| ops::gated_sum(ops::row(x, t, d as int), scale, ops::row(b, t, d as int));
    assert forall|t: int| 0 <= t < rows implies #[trigger] f(t).len() == d by {
        ops::lemma_row_bounds(t, rows as int, d as int);
    }
    ops::lemma_blocks_rows(rows, f, d);
    assert(z == ops::blocks(rows, f));
    assert forall|t: int, j: int|
        #![trigger z[t * d + j]]
        0 <= t < rows && 0 <= j < d implies z[t * d + j] == scalar::plus(
        x[t * d + j],
        scalar::times(scale[j], b[t * d + j]),
    ) by {
        ops::lemma_row_bounds(t, rows as int, d as int);
        assert(ops::row(z, t, d as int) == f(t));
        assert(ops::row(z, t, d as int)[j] == z[t * d + j]);
    }
    if is_scaled_residual(y, x, scale, b, d, rows) {
        kernels::lemma_same_by_heads(y, z, rows, d);
    }
}

/// The matrices that a block of the delta tokenizer goes through.
pub struct DeltaTokSteps<T> {
    pub normed: Seq<T>,
    pub query: Seq<T>,
    pub key: Seq<T>,
    pub value: Seq<T>,
    pub seen: Seq<T>,
    pub out: Seq<T>,
    pub attended: Seq<T>,
    pub mlp_normed: Seq<T>,
    pub gate: Seq<T>,
    pub active: Seq<T>,
    pub up: Seq<T>,
    pub fused: Seq<T>,
    pub down: Seq<T>,
    pub result: Seq<T>,
}

/// The matrices are what a block of the delta tokenizer computes from the rows
/// of `x`: each of its two parts works on what went into it, normalised, and is
/// added to it under a scale for each column.
pub open spec fn are_deltatok_steps<T: Scalar, M: Math<T>>(
    r: DeltaTokSteps<T>,
    block: DeltaTokBlock<T>,
    x: Seq<T>,
    rows: nat,
) -> bool {
    let (d, inter) = (block.dim as nat, block.intermediate as nat);
    let heads = block.num_heads;
    let width = (d as int / heads as int) as usize;
    let eps = scalar::binary64_of::<T, M>(block.layer_norm_eps.bits);
    &&& equations::are_layer_normed::<T, M>(
        r.normed,
        x,
        block.norm1_w@,
        block.norm1_b@,
        eps,
        d,
        rows,
    )
    &&& equations::are_linear(r.query, r.normed, block.w_q@, block.q_bias@, rows, d, d)
    &&& equations::are_linear(r.key, r.normed, block.w_k@, block.k_bias@, rows, d, d)
    &&& equations::are_linear(r.value, r.normed, block.w_v@, block.v_bias@, rows, d, d)
    &&& equations::are_attending::<T, M>(
        r.seen,
        r.query,
        r.key,
        r.value,
        heads,
        heads,
        width,
        rows,
        false,
    )
    &&& equations::are_linear(r.out, r.seen, block.w_o@, block.o_bias@, rows, d, d)
    &&& is_scaled_residual(r.attended, x, block.scale1@, r.out, d, rows)
    &&& equations::are_layer_normed::<T, M>(
        r.mlp_normed,
        r.attended,
        block.norm2_w@,
        block.norm2_b@,
        eps,
        d,
        rows,
    )
    &&& equations::are_linear(
        r.gate,
        r.mlp_normed,
        block.mlp_gate_w@,
        block.mlp_gate_b@,
        rows,
        d,
        inter,
    )
    &&& equations::is_silu::<T, M>(r.active, r.gate)
    &&& equations::are_linear(
        r.up,
        r.mlp_normed,
        block.mlp_up_w@,
        block.mlp_up_b@,
        rows,
        d,
        inter,
    )
    &&& equations::is_product(r.fused, r.active, r.up)
    &&& equations::are_linear(
        r.down,
        r.fused,
        block.mlp_down_w@,
        block.mlp_down_b@,
        rows,
        inter,
        d,
    )
    &&& is_scaled_residual(r.result, r.attended, block.scale2@, r.down, d, rows)
}

/// A block's output is the last of its steps.
pub proof fn lemma_deltatok_block<T: Scalar, M: Math<T>>(
    r: DeltaTokSteps<T>,
    block: DeltaTokBlock<T>,
    x: Seq<T>,
    rows: nat,
)
    requires
        block.wf(),
        x.len() == rows * block.dim,
        are_deltatok_steps::<T, M>(r, block, x, rows),
    ensures
        block.output::<M>(x, rows) == r.result,
{
    let (d, inter) = (block.dim as nat, block.intermediate as nat);
    let eps = scalar::binary64_of::<T, M>(block.layer_norm_eps.bits);
    lemma_heads_divide(block.dim, block.num_heads);
    kernels::lemma_layer_norm_rows::<T, M>(
        r.normed,
        x,
        block.norm1_w@,
        block.norm1_b@,
        eps,
        d,
        rows,
    );
    kernels::lemma_linear_rows(r.query, r.normed, block.w_q@, block.q_bias@, rows, d, d);
    kernels::lemma_linear_rows(r.key, r.normed, block.w_k@, block.k_bias@, rows, d, d);
    kernels::lemma_linear_rows(r.value, r.normed, block.w_v@, block.v_bias@, rows, d, d);
    kernels::lemma_attending_rows::<T, M>(
        r.seen,
        r.query,
        r.key,
        r.value,
        block.layout(),
        rows,
        false,
    );
    kernels::lemma_linear_rows(r.out, r.seen, block.w_o@, block.o_bias@, rows, d, d);
    lemma_scaled_residual(r.attended, x, block.scale1@, r.out, d, rows);
    kernels::lemma_layer_norm_rows::<T, M>(
        r.mlp_normed,
        r.attended,
        block.norm2_w@,
        block.norm2_b@,
        eps,
        d,
        rows,
    );
    kernels::lemma_linear_rows(
        r.gate,
        r.mlp_normed,
        block.mlp_gate_w@,
        block.mlp_gate_b@,
        rows,
        d,
        inter,
    );
    kernels::lemma_activations::<T, M>(r.active, r.gate);
    kernels::lemma_linear_rows(
        r.up,
        r.mlp_normed,
        block.mlp_up_w@,
        block.mlp_up_b@,
        rows,
        d,
        inter,
    );
    kernels::lemma_elementwise(r.fused, r.active, r.up);
    kernels::lemma_linear_rows(
        r.down,
        r.fused,
        block.mlp_down_w@,
        block.mlp_down_b@,
        rows,
        inter,
        d,
    );
    lemma_scaled_residual(r.result, r.attended, block.scale2@, r.down, d, rows);
}

/// A stack's blocks take each other's output in order.
pub proof fn lemma_deltatok_stack<T: Scalar, M: Math<T>>(
    blocks: Seq<DeltaTokBlock<T>>,
    states: Seq<Seq<T>>,
    rows: nat,
    n: nat,
)
    requires
        n <= blocks.len(),
        states.len() == blocks.len() + 1,
        forall|i: int|
            0 <= i < blocks.len() ==> states[i + 1] == (#[trigger] blocks[i]).output::<M>(
                states[i],
                rows,
            ),
    ensures
        code_deltatok::stacked::<T, M>(blocks, states[0], rows, n) == states[n as int],
    decreases n,
{
    if n > 0 {
        lemma_deltatok_stack::<T, M>(blocks, states, rows, (n - 1) as nat);
        assert(states[n - 1 + 1] == blocks[n - 1].output::<M>(states[n - 1], rows));
    }
}

/// The encoder reads the delta tokens, the features before and the features
/// after, each with its own positional row added; the decoder reads the delta
/// tokens as they are and the features before.
pub proof fn lemma_deltatok_inputs<T: Scalar>(
    parts: HeadParts<T>,
    before: Seq<T>,
    after: Seq<T>,
    delta: Seq<T>,
    k: nat,
    d: nat,
    i: int,
    j: int,
)
    requires
        parts.fits(k, d),
        d <= before.len(),
        d <= after.len(),
        delta.len() == k * d,
        0 <= i < k * d,
        0 <= j < d,
    ensures
        parts.encoder_input(before, after, k, d).len() == k * d + d + d,
        parts.encoder_input(before, after, k, d)[i] == scalar::plus(
            parts.z_embed[i],
            parts.pos_z[i],
        ),
        parts.encoder_input(before, after, k, d)[k * d + j] == scalar::plus(
            before[j],
            parts.pos_prev[j],
        ),
        parts.encoder_input(before, after, k, d)[k * d + d + j] == scalar::plus(
            after[j],
            parts.pos_next[j],
        ),
        parts.decoder_input(delta, before, d).len() == k * d + d,
        parts.decoder_input(delta, before, d)[i] == delta[i],
        parts.decoder_input(delta, before, d)[k * d + j] == scalar::plus(
            before[j],
            parts.pos_prev[j],
        ),
{
}

/// The delta is the first rows of the normalised encoder output; the
/// reconstruction is the projection of the last row of the normalised decoder
/// output.
pub proof fn lemma_deltatok_head<T: Scalar, M: Math<T>>(
    head: CodeDeltaTokHead<T>,
    before: Seq<T>,
    after: Seq<T>,
    delta: Seq<T>,
    enc: Seq<T>,
    dec: Seq<T>,
    enc_normed: Seq<T>,
    dec_normed: Seq<T>,
    out: Seq<T>,
)
    requires
        head.wf(),
        ({
            let (d, k) = (head.config.feature_dim as nat, head.config.num_delta_tokens as nat);
            let eps = scalar::binary64_of::<T, M>(head.config.layer_norm_eps.bits);
            let parts = HeadParts {
                z_embed: head.z_embed@,
                pos_z: head.pos_z@,
                pos_prev: head.pos_prev@,
                pos_next: head.pos_next@,
            };
            &&& enc == code_deltatok::stacked::<T, M>(
                head.encoder@,
                parts.encoder_input(before, after, k, d),
                k + 2,
                head.encoder@.len(),
            )
            &&& enc.len() == (k + 2) * d
            &&& equations::are_layer_normed::<T, M>(
                enc_normed,
                enc,
                head.enc_norm_w@,
                head.enc_norm_b@,
                eps,
                d,
                k + 2,
            )
            &&& dec == code_deltatok::stacked::<T, M>(
                head.decoder@,
                parts.decoder_input(delta, before, d),
                k + 1,
                head.decoder@.len(),
            )
            &&& dec.len() == (k + 1) * d
            &&& equations::are_layer_normed::<T, M>(
                dec_normed,
                dec,
                head.dec_norm_w@,
                head.dec_norm_b@,
                eps,
                d,
                k + 1,
            )
            &&& equations::is_linear(
                out,
                equations::line(dec_normed, k as int, d as int),
                head.out_proj_w@,
                head.out_proj_b@,
                d,
                d,
            )
        }),
    ensures
        head.delta_of::<M>(before, after) == enc_normed.subrange(
            0,
            head.config.num_delta_tokens * head.config.feature_dim,
        ),
        head.reconstruction::<M>(delta, before) == out,
{
    let (d, k) = (head.config.feature_dim as nat, head.config.num_delta_tokens as nat);
    let eps = scalar::binary64_of::<T, M>(head.config.layer_norm_eps.bits);
    kernels::lemma_layer_norm_rows::<T, M>(
        enc_normed,
        enc,
        head.enc_norm_w@,
        head.enc_norm_b@,
        eps,
        d,
        k + 2,
    );
    kernels::lemma_layer_norm_rows::<T, M>(
        dec_normed,
        dec,
        head.dec_norm_w@,
        head.dec_norm_b@,
        eps,
        d,
        k + 1,
    );
    ops::lemma_row_bounds(k as int, k as int + 1, d as int);
    let r = ops::row(dec_normed, k as int, d as int);
    kernels::lemma_linear(out, r, head.out_proj_w@, head.out_proj_b@, d, d);
    lemma_single_linear(r, head.out_proj_w@, head.out_proj_b@, d, d);
}

proof fn lemma_single_linear<T: Scalar>(x: Seq<T>, w: Seq<T>, b: Seq<T>, k: nat, n: nat)
    requires
        x.len() == k,
    ensures
        ops::linear_of(x, w, b, 1, k, n) == ops::linear_row(x, w, b, k, n),
{
    let f = |i: int| ops::linear_row(ops::row(x, i, k as int), w, b, k, n);
    assert(ops::row(x, 0, k as int) =~= x);
    assert(ops::blocks(1, f) =~= f(0)) by {
        reveal_with_fuel(ops::blocks, 2);
    }
}

/// A packed block whose maps multiply exactly computes what the block it was
/// packed from does.
pub proof fn lemma_deltatok_q4_block<T: Scalar, M: Math<T>, Q: PackedLinear<T>>(
    q4: Q4DeltaTokBlock<T, Q>,
    block: DeltaTokBlock<T>,
    x: Seq<T>,
    rows: usize,
)
    requires
        block.wf(),
        q4.is_packed_from(block),
        x.len() == rows * block.dim,
        packs_block_exactly::<T, Q>(block),
    ensures
        q4.output::<M>(x, rows) == block.output::<M>(x, rows as nat),
        block.output::<M>(x, rows as nat).len() == rows * block.dim,
{
    let (d, inter) = (block.dim, block.intermediate);
    let n = rows as nat;
    lemma_heads_divide(d, block.num_heads);
    let eps = block.eps::<M>();
    let h1 = ops::layer_norm_bias_of::<T, M>(x, block.norm1_w@, block.norm1_b@, eps, d as nat, n);
    kernels::lemma_layer_norm_rows::<T, M>(
        h1,
        x,
        block.norm1_w@,
        block.norm1_b@,
        eps,
        d as nat,
        n,
    );
    lemma_packed_linear::<T, Q>(block.w_q@, h1, block.q_bias@, rows, d, d);
    lemma_packed_linear::<T, Q>(block.w_k@, h1, block.k_bias@, rows, d, d);
    lemma_packed_linear::<T, Q>(block.w_v@, h1, block.v_bias@, rows, d, d);
    let q = ops::linear_of(h1, block.w_q@, block.q_bias@, n, d as nat, d as nat);
    let k = ops::linear_of(h1, block.w_k@, block.k_bias@, n, d as nat, d as nat);
    let v = ops::linear_of(h1, block.w_v@, block.v_bias@, n, d as nat, d as nat);
    let seen = crate::attention::bidirectional_output::<T, M>(block.layout(), q, k, v, n);
    kernels::lemma_attending_rows::<T, M>(seen, q, k, v, block.layout(), n, false);
    lemma_packed_linear::<T, Q>(block.w_o@, seen, block.o_bias@, rows, d, d);
    let branch = block.attn_branch::<M>(x, n);
    let y = code_deltatok::scaled_residual(x, block.scale1@, branch, d as nat, n);
    lemma_scaled_residual(y, x, block.scale1@, branch, d as nat, n);
    let h2 = ops::layer_norm_bias_of::<T, M>(y, block.norm2_w@, block.norm2_b@, eps, d as nat, n);
    kernels::lemma_layer_norm_rows::<T, M>(
        h2,
        y,
        block.norm2_w@,
        block.norm2_b@,
        eps,
        d as nat,
        n,
    );
    lemma_packed_linear::<T, Q>(block.mlp_gate_w@, h2, block.mlp_gate_b@, rows, d, inter);
    lemma_packed_linear::<T, Q>(block.mlp_up_w@, h2, block.mlp_up_b@, rows, d, inter);
    let gate = ops::all_activated::<T, M>(
        ops::Activation::Silu,
        ops::linear_of(h2, block.mlp_gate_w@, block.mlp_gate_b@, n, d as nat, inter as nat),
    );
    let up = ops::linear_of(h2, block.mlp_up_w@, block.mlp_up_b@, n, d as nat, inter as nat);
    lemma_packed_linear::<T, Q>(
        block.mlp_down_w@,
        ops::product_of(gate, up),
        block.mlp_down_b@,
        rows,
        inter,
        d,
    );
    let out = block.mlp_branch::<M>(y, n);
    lemma_scaled_residual(
        code_deltatok::scaled_residual(y, block.scale2@, out, d as nat, n),
        y,
        block.scale2@,
        out,
        d as nat,
        n,
    );
}

/// The packed forms of a block's weights multiply as the weights do.
pub open spec fn packs_block_exactly<T: Scalar, Q: PackedLinear<T>>(block: DeltaTokBlock<T>) -> bool {
    let (d, inter) = (block.dim, block.intermediate);
    &&& packs_exactly::<T, Q>(block.w_q@, d, d)
    &&& packs_exactly::<T, Q>(block.w_k@, d, d)
    &&& packs_exactly::<T, Q>(block.w_v@, d, d)
    &&& packs_exactly::<T, Q>(block.w_o@, d, d)
    &&& packs_exactly::<T, Q>(block.mlp_gate_w@, inter, d)
    &&& packs_exactly::<T, Q>(block.mlp_up_w@, inter, d)
    &&& packs_exactly::<T, Q>(block.mlp_down_w@, d, inter)
}

proof fn lemma_deltatok_q4_stack<T: Scalar, M: Math<T>, Q: PackedLinear<T>>(
    q4: Seq<Q4DeltaTokBlock<T, Q>>,
    blocks: Seq<DeltaTokBlock<T>>,
    d: nat,
    x: Seq<T>,
    rows: usize,
    n: nat,
)
    requires
        n <= blocks.len(),
        code_deltatok::stack_wf(blocks, d),
        code_deltatok_q4::stack_packed_from(q4, blocks),
        forall|i: int| 0 <= i < blocks.len() ==> packs_block_exactly::<T, Q>(#[trigger] blocks[i]),
        x.len() == rows * d,
    ensures
        code_deltatok_q4::stacked::<T, M, Q>(q4, x, rows, n) == code_deltatok::stacked::<T, M>(
            blocks,
            x,
            rows as nat,
            n,
        ),
        code_deltatok::stacked::<T, M>(blocks, x, rows as nat, n).len() == rows * d,
    decreases n,
{
    if n > 0 {
        lemma_deltatok_q4_stack::<T, M, Q>(q4, blocks, d, x, rows, (n - 1) as nat);
        let y = code_deltatok::stacked::<T, M>(blocks, x, rows as nat, (n - 1) as nat);
        assert(blocks[n - 1].wf());
        assert(q4[n - 1].is_packed_from(blocks[n - 1]));
        lemma_deltatok_q4_block::<T, M, Q>(q4[n - 1], blocks[n - 1], y, rows);
    }
}

/// A packed delta tokenizer whose maps multiply exactly computes what the one it
/// was packed from does.
pub proof fn lemma_deltatok_q4_head<T: Scalar, M: Math<T>, Q: PackedLinear<T>>(
    q4: Q4CodeDeltaTokHead<T, Q>,
    head: CodeDeltaTokHead<T>,
    before: Seq<T>,
    after: Seq<T>,
    delta: Seq<T>,
)
    requires
        head.wf(),
        q4.is_packed_from(head),
        head.config.feature_dim <= before.len(),
        head.config.feature_dim <= after.len(),
        delta.len() == head.config.num_delta_tokens * head.config.feature_dim,
        forall|i: int|
            0 <= i < head.encoder@.len() ==> packs_block_exactly::<T, Q>(
                #[trigger] head.encoder@[i],
            ),
        forall|i: int|
            0 <= i < head.decoder@.len() ==> packs_block_exactly::<T, Q>(
                #[trigger] head.decoder@[i],
            ),
        packs_exactly::<T, Q>(head.out_proj_w@, head.config.feature_dim, head.config.feature_dim),
    ensures
        q4.delta_of::<M>(before, after) == head.delta_of::<M>(before, after),
        q4.reconstruction::<M>(delta, before) == head.reconstruction::<M>(delta, before),
{
    let (d, k) = (head.config.feature_dim as nat, head.config.num_delta_tokens as nat);
    assert((k + 2) * d == k * d + d + d) by (nonlinear_arith);
    assert((k + 1) * d == k * d + d) by (nonlinear_arith);
    let e = head.parts().encoder_input(before, after, k, d);
    let i = head.parts().decoder_input(delta, before, d);
    lemma_deltatok_q4_stack::<T, M, Q>(
        q4.encoder@,
        head.encoder@,
        d,
        e,
        (k + 2) as usize,
        head.encoder@.len(),
    );
    lemma_deltatok_q4_stack::<T, M, Q>(
        q4.decoder@,
        head.decoder@,
        d,
        i,
        (k + 1) as usize,
        head.decoder@.len(),
    );
    let rows = code_deltatok::stacked::<T, M>(head.decoder@, i, k + 1, head.decoder@.len());
    let normed = ops::layer_norm_bias_of::<T, M>(
        rows,
        head.dec_norm_w@,
        head.dec_norm_b@,
        head.eps::<M>(),
        d,
        k + 1,
    );
    kernels::lemma_layer_norm_rows::<T, M>(
        normed,
        rows,
        head.dec_norm_w@,
        head.dec_norm_b@,
        head.eps::<M>(),
        d,
        k + 1,
    );
    ops::lemma_row_bounds(k as int, k as int + 1, d as int);
    lemma_packed_linear::<T, Q>(
        head.out_proj_w@,
        ops::row(normed, k as int, d as int),
        head.out_proj_b@,
        1,
        head.config.feature_dim,
        head.config.feature_dim,
    );
}

/// A block has as many hidden units as its width times the configured ratio.
pub proof fn lemma_deltatok_width<T: Scalar, M: Math<T>>(c: CodeDeltaTokConfig)
    ensures
        c.spec_intermediate::<T, M>() == scalar::cut_down::<T, M>(
            scalar::times(
                scalar::count_of::<T, M>(c.feature_dim),
                scalar::binary64_of::<T, M>(c.mlp_ratio.bits),
            ),
        ),
{
}

} // verus!
