//! Building a `HybridModel` from the tensors of a checkpoint.

use vstd::prelude::*;

use crate::buffer::copy_slice;
use crate::models::ssm::hybrid::config::{HybridConfig, LayerKind};
use crate::models::ssm::hybrid::deltanet_layer::DeltaNetDecoderLayer;
use crate::models::ssm::hybrid::gqa_layer::GqaDecoderLayer;
use crate::models::ssm::hybrid::livconv_layer::LivConvDecoderLayer;
use crate::models::ssm::hybrid::model;
use crate::models::ssm::hybrid::model::{HybridLayer, HybridModel};
use crate::ops;
use crate::packed::PackedLinear;
use crate::scalar;
use crate::scalar::{Math, Scalar};
use crate::text;
use crate::text::{decimal, starts_with};
use crate::weights::TensorMap;

verus! {

// ── Looking tensors up ───────────────────────────────────────────────

/// The first of the names that the checkpoint lacks, from `k` on; a name is
/// the prefix and a field.
pub open spec fn first_missing<T>(
    map: TensorMap<T>,
    prefix: Seq<char>,
    fields: Seq<Seq<char>>,
    k: nat,
) -> Option<Seq<char>>
    decreases fields.len() - k,
{
    if k >= fields.len() {
        None
    } else if !map.has(prefix + fields[k as int]) {
        Some(prefix + fields[k as int])
    } else {
        first_missing(map, prefix, fields, k + 1)
    }
}

/// The elements of the tensors under a prefix, in the order of the fields.
pub open spec fn tensors<T>(
    map: TensorMap<T>,
    prefix: Seq<char>,
    fields: Seq<Seq<char>>,
) -> Seq<Seq<T>> {
    Seq::new(fields.len(), |k: int| map.at(prefix + fields[k]).data@)
}

pub open spec fn missing_text(name: Seq<char>) -> Seq<char> {
    "missing weight: "@ + name
}

fn missing(name: &str) -> (r: String)
    ensures
        r@ == missing_text(name@),
{
    let mut s = "missing weight: ".to_owned();
    s.append(name);
    s
}

/// What each string of a list holds.
pub open spec fn fields_of(v: Seq<&'static str>) -> Seq<Seq<char>> {
    v.map_values(|s: &'static str| s@)
}

fn fetch<T: Copy>(map: &TensorMap<T>, name: &str) -> (r: Result<Vec<T>, String>)
    requires
        map.wf(),
    ensures
        match r {
            Ok(v) => map.has(name@) && v@ == map.at(name@).data@,
            Err(e) => !map.has(name@) && e@ == missing_text(name@),
        },
{
    match map.get(name) {
        Some(t) => Ok(copy_slice(t.data.as_slice())),
        None => Err(missing(name)),
    }
}

/// What the vectors of a list hold.
pub open spec fn rows_of<T>(v: Seq<Vec<T>>) -> Seq<Seq<T>> {
    v.map_values(|w: Vec<T>| w@)
}

fn fetch_all<T: Copy>(map: &TensorMap<T>, prefix: &str, fields: &Vec<&'static str>) -> (r: Result<
    Vec<Vec<T>>,
    String,
>)
    requires
        map.wf(),
    ensures
        match r {
            Ok(v) => {
                &&& first_missing(*map, prefix@, fields_of(fields@), 0) is None
                &&& rows_of(v@) == tensors(*map, prefix@, fields_of(fields@))
            },
            Err(e) => {
                let name = first_missing(*map, prefix@, fields_of(fields@), 0);
                &&& name is Some
                &&& e@ == missing_text(name->0)
            },
        },
{
    let ghost list = fields_of(fields@);
    let mut out: Vec<Vec<T>> = Vec::with_capacity(fields.len());
    for k in 0..fields.len()
        invariant
            map.wf(),
            list == fields_of(fields@),
            first_missing(*map, prefix@, list, 0) == first_missing(*map, prefix@, list, k as nat),
            out@.len() == k,
            forall|j: int|
                0 <= j < k ==> (#[trigger] out@[j])@ == map.at(prefix@ + list[j]).data@,
    {
        let mut name = prefix.to_owned();
        name.append(fields[k]);
        assert(list[k as int] == fields@[k as int]@);
        match fetch(map, name.as_str()) {
            Ok(v) => out.push(v),
            Err(e) => return Err(e),
        }
    }
    assert(rows_of(out@) =~= tensors(*map, prefix@, list));
    Ok(out)
}

/// Moves a vector out of a list.
fn take_at<T>(v: &mut Vec<Vec<T>>, i: usize) -> (r: Vec<T>)
    requires
        i < old(v)@.len(),
    ensures
        r == old(v)@[i as int],
        final(v)@.len() == old(v)@.len(),
        forall|j: int| 0 <= j < old(v)@.len() && j != i ==> #[trigger] final(v)@[j] == old(v)@[j],
{
    let mut r: Vec<T> = Vec::new();
    core::mem::swap(&mut r, &mut v[i]);
    r
}

// ── Layers ───────────────────────────────────────────────────────────

/// The fields of a GQA layer under `model.layers.{i}`.
pub open spec fn qwen_gqa_fields() -> Seq<Seq<char>> {
    seq![
        ".input_layernorm.weight"@,
        ".self_attn.q_proj.weight"@,
        ".self_attn.k_proj.weight"@,
        ".self_attn.v_proj.weight"@,
        ".self_attn.o_proj.weight"@,
        ".self_attn.q_norm.weight"@,
        ".self_attn.k_norm.weight"@,
        ".post_attention_layernorm.weight"@,
        ".mlp.gate_proj.weight"@,
        ".mlp.up_proj.weight"@,
        ".mlp.down_proj.weight"@,
    ]
}

fn list_qwen_gqa_fields() -> (r: Vec<&'static str>)
    ensures
        fields_of(r@) == qwen_gqa_fields(),
{
    let v = vec![
        ".input_layernorm.weight",
        ".self_attn.q_proj.weight",
        ".self_attn.k_proj.weight",
        ".self_attn.v_proj.weight",
        ".self_attn.o_proj.weight",
        ".self_attn.q_norm.weight",
        ".self_attn.k_norm.weight",
        ".post_attention_layernorm.weight",
        ".mlp.gate_proj.weight",
        ".mlp.up_proj.weight",
        ".mlp.down_proj.weight",
    ];
    assert(fields_of(v@) =~= qwen_gqa_fields());
    v
}

/// The fields of a DeltaNet layer under `model.layers.{i}`.
pub open spec fn qwen_deltanet_fields() -> Seq<Seq<char>> {
    seq![
        ".input_layernorm.weight"@,
        ".self_attn.qkv_proj.weight"@,
        ".self_attn.gate_proj.weight"@,
        ".self_attn.beta_proj.weight"@,
        ".self_attn.alpha_proj.weight"@,
        ".self_attn.q_conv1d.weight"@,
        ".self_attn.q_conv1d.bias"@,
        ".self_attn.k_conv1d.weight"@,
        ".self_attn.k_conv1d.bias"@,
        ".self_attn.v_conv1d.weight"@,
        ".self_attn.v_conv1d.bias"@,
        ".self_attn.o_norm.weight"@,
        ".self_attn.o_proj.weight"@,
        ".post_attention_layernorm.weight"@,
        ".mlp.gate_proj.weight"@,
        ".mlp.up_proj.weight"@,
        ".mlp.down_proj.weight"@,
    ]
}

fn list_qwen_deltanet_fields() -> (r: Vec<&'static str>)
    ensures
        fields_of(r@) == qwen_deltanet_fields(),
{
    let v = vec![
        ".input_layernorm.weight",
        ".self_attn.qkv_proj.weight",
        ".self_attn.gate_proj.weight",
        ".self_attn.beta_proj.weight",
        ".self_attn.alpha_proj.weight",
        ".self_attn.q_conv1d.weight",
        ".self_attn.q_conv1d.bias",
        ".self_attn.k_conv1d.weight",
        ".self_attn.k_conv1d.bias",
        ".self_attn.v_conv1d.weight",
        ".self_attn.v_conv1d.bias",
        ".self_attn.o_norm.weight",
        ".self_attn.o_proj.weight",
        ".post_attention_layernorm.weight",
        ".mlp.gate_proj.weight",
        ".mlp.up_proj.weight",
        ".mlp.down_proj.weight",
    ];
    assert(fields_of(v@) =~= qwen_deltanet_fields());
    v
}

/// The fields of a GQA layer under `blk.{i}`.
pub open spec fn lfm_gqa_fields() -> Seq<Seq<char>> {
    seq![
        ".attn_norm.weight"@,
        ".attn_q.weight"@,
        ".attn_k.weight"@,
        ".attn_v.weight"@,
        ".attn_output.weight"@,
        ".attn_q_norm.weight"@,
        ".attn_k_norm.weight"@,
        ".ffn_norm.weight"@,
        ".ffn_gate.weight"@,
        ".ffn_up.weight"@,
        ".ffn_down.weight"@,
    ]
}

fn list_lfm_gqa_fields() -> (r: Vec<&'static str>)
    ensures
        fields_of(r@) == lfm_gqa_fields(),
{
    let v = vec![
        ".attn_norm.weight",
        ".attn_q.weight",
        ".attn_k.weight",
        ".attn_v.weight",
        ".attn_output.weight",
        ".attn_q_norm.weight",
        ".attn_k_norm.weight",
        ".ffn_norm.weight",
        ".ffn_gate.weight",
        ".ffn_up.weight",
        ".ffn_down.weight",
    ];
    assert(fields_of(v@) =~= lfm_gqa_fields());
    v
}

/// The fields of a LIV Conv layer under `blk.{i}`.
pub open spec fn lfm_conv_fields() -> Seq<Seq<char>> {
    seq![
        ".attn_norm.weight"@,
        ".shortconv.in_proj.weight"@,
        ".shortconv.conv.weight"@,
        ".shortconv.out_proj.weight"@,
        ".ffn_norm.weight"@,
        ".ffn_gate.weight"@,
        ".ffn_up.weight"@,
        ".ffn_down.weight"@,
    ]
}

fn list_lfm_conv_fields() -> (r: Vec<&'static str>)
    ensures
        fields_of(r@) == lfm_conv_fields(),
{
    let v = vec![
        ".attn_norm.weight",
        ".shortconv.in_proj.weight",
        ".shortconv.conv.weight",
        ".shortconv.out_proj.weight",
        ".ffn_norm.weight",
        ".ffn_gate.weight",
        ".ffn_up.weight",
        ".ffn_down.weight",
    ];
    assert(fields_of(v@) =~= lfm_conv_fields());
    v
}

/// A GQA layer of the configuration whose weights are `w`, in the order of
/// its fields, with nothing packed.
pub open spec fn gqa_from<T: Scalar, M: Math<T>, Q>(
    c: HybridConfig,
    im: usize,
    w: Seq<Seq<T>>,
    layer: HybridLayer<T, Q>,
) -> bool {
    &&& layer matches HybridLayer::Gqa(l)
    &&& l.hidden_size == c.hidden_size
    &&& l.num_q_heads == c.num_attention_heads
    &&& l.num_kv_heads == c.num_kv_heads
    &&& l.head_dim == c.gqa_head_dim
    &&& l.intermediate_size == im
    &&& l.norm_eps == scalar::binary64_of::<T, M>(c.norm_eps.bits)
    &&& l.attn_norm_weight@ == w[0]
    &&& l.w_q@ == w[1]
    &&& l.w_k@ == w[2]
    &&& l.w_v@ == w[3]
    &&& l.w_o@ == w[4]
    &&& l.q_norm_weight@ == w[5]
    &&& l.k_norm_weight@ == w[6]
    &&& l.ffn_norm_weight@ == w[7]
    &&& l.ffn_gate_weight@ == w[8]
    &&& l.ffn_up_weight@ == w[9]
    &&& l.ffn_down_weight@ == w[10]
    &&& l.q4_wq is None
    &&& l.q4_wk is None
    &&& l.q4_wv is None
    &&& l.q4_wo is None
    &&& l.q4_ffn_gate is None
    &&& l.q4_ffn_up is None
    &&& l.q4_ffn_down is None
}

fn build_gqa<T: Scalar, M: Math<T>, Q: PackedLinear<T>>(
    c: &HybridConfig,
    im: usize,
    weights: Vec<Vec<T>>,
) -> (r: HybridLayer<T, Q>)
    requires
        scalar::mathematics::<T, M>(),
        weights@.len() == 11,
    ensures
        gqa_from::<T, M, Q>(*c, im, rows_of(weights@), r),
{
    let mut w = weights;
    HybridLayer::Gqa(
        GqaDecoderLayer {
            hidden_size: c.hidden_size,
            num_q_heads: c.num_attention_heads,
            num_kv_heads: c.num_kv_heads,
            head_dim: c.gqa_head_dim,
            intermediate_size: im,
            norm_eps: M::from_binary64(c.norm_eps.bits),
            attn_norm_weight: take_at(&mut w, 0),
            w_q: take_at(&mut w, 1),
            w_k: take_at(&mut w, 2),
            w_v: take_at(&mut w, 3),
            w_o: take_at(&mut w, 4),
            q_norm_weight: take_at(&mut w, 5),
            k_norm_weight: take_at(&mut w, 6),
            ffn_norm_weight: take_at(&mut w, 7),
            ffn_gate_weight: take_at(&mut w, 8),
            ffn_up_weight: take_at(&mut w, 9),
            ffn_down_weight: take_at(&mut w, 10),
            q4_wq: None,
            q4_wk: None,
            q4_wv: None,
            q4_wo: None,
            q4_ffn_gate: None,
            q4_ffn_up: None,
            q4_ffn_down: None,
        },
    )
}

/// A DeltaNet layer of the configuration whose weights are `w`, in the order
/// of its fields.
pub open spec fn deltanet_from<T: Scalar, M: Math<T>, Q>(
    c: HybridConfig,
    w: Seq<Seq<T>>,
    layer: HybridLayer<T, Q>,
) -> bool {
    &&& layer matches HybridLayer::DeltaNet(l)
    &&& l.hidden_size == c.hidden_size
    &&& l.num_heads == c.deltanet_num_heads
    &&& l.head_dim == c.deltanet_head_dim
    &&& l.intermediate_size == c.intermediate_size
    &&& l.conv_kernel == c.deltanet_conv_kernel
    &&& l.norm_eps == scalar::binary64_of::<T, M>(c.norm_eps.bits)
    &&& l.attn_norm_weight@ == w[0]
    &&& l.qkv_weight@ == w[1]
    &&& l.gate_proj_weight@ == w[2]
    &&& l.beta_proj_weight@ == w[3]
    &&& l.alpha_proj_weight@ == w[4]
    &&& l.q_conv_weight@ == w[5]
    &&& l.q_conv_bias@ == w[6]
    &&& l.k_conv_weight@ == w[7]
    &&& l.k_conv_bias@ == w[8]
    &&& l.v_conv_weight@ == w[9]
    &&& l.v_conv_bias@ == w[10]
    &&& l.o_norm_weight@ == w[11]
    &&& l.o_proj_weight@ == w[12]
    &&& l.ffn_norm_weight@ == w[13]
    &&& l.ffn_gate_weight@ == w[14]
    &&& l.ffn_up_weight@ == w[15]
    &&& l.ffn_down_weight@ == w[16]
}

fn build_deltanet<T: Scalar, M: Math<T>, Q: PackedLinear<T>>(
    c: &HybridConfig,
    weights: Vec<Vec<T>>,
) -> (r: HybridLayer<T, Q>)
    requires
        scalar::mathematics::<T, M>(),
        weights@.len() == 17,
    ensures
        deltanet_from::<T, M, Q>(*c, rows_of(weights@), r),
{
    let mut w = weights;
    HybridLayer::DeltaNet(
        DeltaNetDecoderLayer {
            hidden_size: c.hidden_size,
            num_heads: c.deltanet_num_heads,
            head_dim: c.deltanet_head_dim,
            intermediate_size: c.intermediate_size,
            conv_kernel: c.deltanet_conv_kernel,
            norm_eps: M::from_binary64(c.norm_eps.bits),
            attn_norm_weight: take_at(&mut w, 0),
            qkv_weight: take_at(&mut w, 1),
            gate_proj_weight: take_at(&mut w, 2),
            beta_proj_weight: take_at(&mut w, 3),
            alpha_proj_weight: take_at(&mut w, 4),
            q_conv_weight: take_at(&mut w, 5),
            q_conv_bias: take_at(&mut w, 6),
            k_conv_weight: take_at(&mut w, 7),
            k_conv_bias: take_at(&mut w, 8),
            v_conv_weight: take_at(&mut w, 9),
            v_conv_bias: take_at(&mut w, 10),
            o_norm_weight: take_at(&mut w, 11),
            o_proj_weight: take_at(&mut w, 12),
            ffn_norm_weight: take_at(&mut w, 13),
            ffn_gate_weight: take_at(&mut w, 14),
            ffn_up_weight: take_at(&mut w, 15),
            ffn_down_weight: take_at(&mut w, 16),
        },
    )
}

/// A LIV Conv layer of the configuration whose weights are `w`, in the order
/// of its fields, without a convolution bias and with nothing packed.
pub open spec fn conv_from<T: Scalar, M: Math<T>, Q>(
    c: HybridConfig,
    im: usize,
    w: Seq<Seq<T>>,
    layer: HybridLayer<T, Q>,
) -> bool {
    &&& layer matches HybridLayer::LivConv(l)
    &&& l.hidden_size == c.hidden_size
    &&& l.inner_size == c.livconv_inner_size
    &&& l.conv_kernel_size == c.livconv_kernel_size
    &&& l.intermediate_size == im
    &&& l.norm_eps == scalar::binary64_of::<T, M>(c.norm_eps.bits)
    &&& l.attn_norm_weight@ == w[0]
    &&& l.input_proj_weight@ == w[1]
    &&& l.conv_weight@ == w[2]
    &&& l.conv_bias@ == Seq::<T>::empty()
    &&& l.output_proj_weight@ == w[3]
    &&& l.ffn_norm_weight@ == w[4]
    &&& l.ffn_gate_weight@ == w[5]
    &&& l.ffn_up_weight@ == w[6]
    &&& l.ffn_down_weight@ == w[7]
    &&& l.q4_in_proj is None
    &&& l.q4_out_proj is None
    &&& l.q4_ffn_gate is None
    &&& l.q4_ffn_up is None
    &&& l.q4_ffn_down is None
}

fn build_conv<T: Scalar, M: Math<T>, Q: PackedLinear<T>>(
    c: &HybridConfig,
    im: usize,
    weights: Vec<Vec<T>>,
) -> (r: HybridLayer<T, Q>)
    requires
        scalar::mathematics::<T, M>(),
        weights@.len() == 8,
    ensures
        conv_from::<T, M, Q>(*c, im, rows_of(weights@), r),
{
    let mut w = weights;
    HybridLayer::LivConv(
        LivConvDecoderLayer {
            hidden_size: c.hidden_size,
            inner_size: c.livconv_inner_size,
            conv_kernel_size: c.livconv_kernel_size,
            intermediate_size: im,
            norm_eps: M::from_binary64(c.norm_eps.bits),
            attn_norm_weight: take_at(&mut w, 0),
            input_proj_weight: take_at(&mut w, 1),
            conv_weight: take_at(&mut w, 2),
            conv_bias: Vec::new(),
            output_proj_weight: take_at(&mut w, 3),
            ffn_norm_weight: take_at(&mut w, 4),
            ffn_gate_weight: take_at(&mut w, 5),
            ffn_up_weight: take_at(&mut w, 6),
            ffn_down_weight: take_at(&mut w, 7),
            q4_in_proj: None,
            q4_out_proj: None,
            q4_ffn_gate: None,
            q4_ffn_up: None,
            q4_ffn_down: None,
        },
    )
}

// ── Rotary tables ────────────────────────────────────────────────────

/// The angle of frequency `i` at position `pos`: `pos * (1 / theta^(2 i / head_dim))`.
pub open spec fn rope_angle<T: Scalar, M: Math<T>>(
    theta: T,
    head_dim: usize,
    pos: int,
    i: int,
) -> T {
    let exponent = scalar::over(
        scalar::times(scalar::count_of::<T, M>(2), scalar::count_of::<T, M>(i as usize)),
        scalar::count_of::<T, M>(head_dim),
    );
    scalar::times(
        scalar::count_of::<T, M>(pos as usize),
        scalar::over(scalar::one::<T, M>(), scalar::pow_of::<T, M>(theta, exponent)),
    )
}

/// The cosines, a row of `head_dim / 2` for each position.
pub open spec fn rope_cosines<T: Scalar, M: Math<T>>(
    theta: T,
    head_dim: usize,
    max_pos: nat,
) -> Seq<T> {
    ops::blocks(
        max_pos,
        |pos: int|
            Seq::new(
                head_dim as nat / 2,
                |i: int| scalar::cos_of::<T, M>(rope_angle::<T, M>(theta, head_dim, pos, i)),
            ),
    )
}

/// The sines, a row of `head_dim / 2` for each position.
pub open spec fn rope_sines<T: Scalar, M: Math<T>>(
    theta: T,
    head_dim: usize,
    max_pos: nat,
) -> Seq<T> {
    ops::blocks(
        max_pos,
        |pos: int|
            Seq::new(
                head_dim as nat / 2,
                |i: int| scalar::sin_of::<T, M>(rope_angle::<T, M>(theta, head_dim, pos, i)),
            ),
    )
}

/// Compute RoPE cos/sin tables for the given max position and head dimension.
pub fn compute_rope_tables<T: Scalar, M: Math<T>>(
    max_pos: usize,
    head_dim: usize,
    rope_theta: T,
) -> (r: (Vec<T>, Vec<T>))
    requires
        scalar::mathematics::<T, M>(),
    ensures
        r.0@ == rope_cosines::<T, M>(rope_theta, head_dim, max_pos as nat),
        r.1@ == rope_sines::<T, M>(rope_theta, head_dim, max_pos as nat),
{
    let half_d = head_dim / 2;
    let mut cos: Vec<T> = Vec::new();
    let mut sin: Vec<T> = Vec::new();
    for pos in 0..max_pos
        invariant
            scalar::mathematics::<T, M>(),
            half_d == head_dim / 2,
            cos@ == rope_cosines::<T, M>(rope_theta, head_dim, pos as nat),
            sin@ == rope_sines::<T, M>(rope_theta, head_dim, pos as nat),
    {
        let ghost cos_done = cos@;
        let ghost sin_done = sin@;
        let ghost f = |i: int|
            scalar::cos_of::<T, M>(rope_angle::<T, M>(rope_theta, head_dim, pos as int, i));
        let ghost g = |i: int|
            scalar::sin_of::<T, M>(rope_angle::<T, M>(rope_theta, head_dim, pos as int, i));
        for i in 0..half_d
            invariant
                scalar::mathematics::<T, M>(),
                f == (|i: int|
                    scalar::cos_of::<T, M>(
                        rope_angle::<T, M>(rope_theta, head_dim, pos as int, i),
                    )),
                g == (|i: int|
                    scalar::sin_of::<T, M>(
                        rope_angle::<T, M>(rope_theta, head_dim, pos as int, i),
                    )),
                cos@ == cos_done + Seq::new(i as nat, f),
                sin@ == sin_done + Seq::new(i as nat, g),
        {
            let exponent = M::count(2) * M::count(i) / M::count(head_dim);
            let freq = M::one() / M::pow(rope_theta, exponent);
            let angle = M::count(pos) * freq;
            cos.push(M::cos(angle));
            sin.push(M::sin(angle));
            assert(cos@ =~= cos_done + Seq::new((i + 1) as nat, f));
            assert(sin@ =~= sin_done + Seq::new((i + 1) as nat, g));
        }
        assert(cos@ =~= rope_cosines::<T, M>(rope_theta, head_dim, (pos + 1) as nat));
        assert(sin@ =~= rope_sines::<T, M>(rope_theta, head_dim, (pos + 1) as nat));
    }
    (cos, sin)
}

// ── Qwen3.5 checkpoints ──────────────────────────────────────────────

/// Whether the names of the checkpoint stand under `model.`.
pub open spec fn under_model<T>(map: TensorMap<T>) -> bool {
    exists|i: int| 0 <= i < map.count() && "model."@.is_prefix_of(#[trigger] map.name(i))
}

/// What the names of the checkpoint start with.
pub open spec fn qwen_root<T>(map: TensorMap<T>) -> Seq<char> {
    if under_model(map) {
        "model."@
    } else {
        Seq::empty()
    }
}

/// What the names of layer `i` start with.
pub open spec fn qwen_layer_prefix<T>(map: TensorMap<T>, i: int) -> Seq<char> {
    qwen_root(map) + "layers."@ + text::decimal_digits(i as nat)
}

/// The fields of layer `i`: every layer that is not GQA is loaded as DeltaNet.
pub open spec fn qwen_fields(c: HybridConfig, i: int) -> Seq<Seq<char>> {
    if c.kind(i) == LayerKind::Gqa {
        qwen_gqa_fields()
    } else {
        qwen_deltanet_fields()
    }
}

/// The first name that the first `n` layers need and the checkpoint lacks.
pub open spec fn qwen_layers_missing<T>(
    c: HybridConfig,
    map: TensorMap<T>,
    n: nat,
) -> Option<Seq<char>>
    decreases n,
{
    if n == 0 {
        None
    } else {
        match qwen_layers_missing(c, map, (n - 1) as nat) {
            Some(name) => Some(name),
            None => first_missing(
                map,
                qwen_layer_prefix(map, n - 1),
                qwen_fields(c, n - 1),
                0,
            ),
        }
    }
}

pub open spec fn embedding_text(expected: nat, got: nat) -> Seq<char> {
    "embed_tokens shape mismatch: expected "@ + text::decimal_digits(expected) + " got "@
        + text::decimal_digits(got)
}

/// Why a checkpoint is refused, if it is: what is missing or misshapen first,
/// in the order of embedding, final norm and layers.
pub open spec fn qwen_refusal<T>(c: HybridConfig, map: TensorMap<T>) -> Option<Seq<char>> {
    let embed = qwen_root(map) + "embed_tokens.weight"@;
    let norm = qwen_root(map) + "norm.weight"@;
    if !map.has(embed) {
        Some(missing_text(embed))
    } else if map.at(embed).data@.len() != c.vocab_size * c.hidden_size {
        Some(embedding_text((c.vocab_size * c.hidden_size) as nat, map.at(embed).data@.len()))
    } else if !map.has(norm) {
        Some(missing_text(norm))
    } else {
        match qwen_layers_missing(c, map, c.num_layers as nat) {
            Some(name) => Some(missing_text(name)),
            None => None,
        }
    }
}

/// Layer `i` holds the tensors of the checkpoint.
pub open spec fn qwen_layer_loaded<T: Scalar, M: Math<T>, Q>(
    c: HybridConfig,
    map: TensorMap<T>,
    i: int,
    layer: HybridLayer<T, Q>,
) -> bool {
    let w = tensors(map, qwen_layer_prefix(map, i), qwen_fields(c, i));
    if c.kind(i) == LayerKind::Gqa {
        gqa_from::<T, M, Q>(c, c.intermediate_size, w, layer)
    } else {
        deltanet_from::<T, M, Q>(c, w, layer)
    }
}

/// The model has seen nothing, and its states have the dimensions of its
/// configuration.
pub open spec fn starts_blank<T: Scalar, Q>(m: HybridModel<T, Q>, max_kv_seq: usize) -> bool {
    &&& m.state.position == 0
    &&& m.state.layer_states@.len() == m.config.num_layers
    &&& forall|i: int|
        0 <= i < m.config.num_layers ==> {
            &&& (#[trigger] m.state.layer_states@[i])@ == model::blank_state::<T>(
                m.config,
                m.config.kind(i),
            )
            &&& model::state_fits(
                m.state.layer_states@[i],
                m.config,
                m.config.kind(i),
                max_kv_seq,
            )
        }
}

/// The rotary tables of the model are those of its configuration.
pub open spec fn has_tables<T: Scalar, M: Math<T>, Q>(
    m: HybridModel<T, Q>,
    max_kv_seq: usize,
) -> bool {
    let theta = scalar::binary64_of::<T, M>(m.config.rope_theta.bits);
    &&& m.rope_cos@ == rope_cosines::<T, M>(theta, m.config.gqa_head_dim, max_kv_seq as nat)
    &&& m.rope_sin@ == rope_sines::<T, M>(theta, m.config.gqa_head_dim, max_kv_seq as nat)
}

fn is_under_model<T>(map: &TensorMap<T>) -> (r: bool)
    ensures
        r == under_model(*map),
{
    let n = map.len();
    for i in 0..n
        invariant
            n == map.count(),
            forall|k: int| 0 <= k < i ==> !"model."@.is_prefix_of(#[trigger] map.name(k)),
    {
        let (name, _) = map.entry(i);
        if starts_with(name, "model.") {
            return true;
        }
    }
    false
}

fn qwen_name<T>(map: &TensorMap<T>, under: bool, tail: &str) -> (r: String)
    requires
        under == under_model(*map),
    ensures
        r@ == qwen_root(*map) + tail@,
{
    if under {
        let mut s = "model.".to_owned();
        s.append(tail);
        s
    } else {
        assert(qwen_root(*map) + tail@ =~= tail@);
        tail.to_owned()
    }
}

impl<T: Scalar, Q: PackedLinear<T>> HybridModel<T, Q> {
    /// Build a HybridModel from a HuggingFace-style weight dictionary.
    ///
    /// Expects Qwen3.5-style weight names:
    /// - `model.embed_tokens.weight`
    /// - `model.layers.{i}.input_layernorm.weight`
    /// - GQA layers: `model.layers.{i}.self_attn.{q,k,v,o}_proj.weight`,
    ///   `q_norm.weight`, `k_norm.weight`
    /// - DeltaNet layers: `model.layers.{i}.self_attn.qkv_proj.weight`,
    ///   `gate_proj.weight`, `alpha_proj.weight`, `beta_proj.weight`,
    ///   `q_conv1d.{weight,bias}`, `k_conv1d.{weight,bias}`, `v_conv1d.{weight,bias}`,
    ///   `o_norm.weight`, `o_proj.weight`
    /// - Both: `model.layers.{i}.mlp.{gate,up,down}_proj.weight`
    /// - `model.norm.weight`, `lm_head.weight`
    ///
    /// Where no name starts with `model.`, the names are expected without it.
    pub fn from_weights<M: Math<T>>(
        config: HybridConfig,
        weights: &TensorMap<T>,
        max_kv_seq: usize,
    ) -> (r: Result<Self, String>)
        requires
            scalar::mathematics::<T, M>(),
            weights.wf(),
            config.wf(),
            weights.has(qwen_root(*weights) + "embed_tokens.weight"@) ==> config.vocab_size
                * config.hidden_size <= usize::MAX,
            forall|i: int|
                qwen_refusal(config, *weights) is None && 0 <= i < config.num_layers
                    ==> model::sizes_fit(
                    config,
                    #[trigger] config.kind(i),
                    max_kv_seq,
                ),
        ensures
            match r {
                Err(e) => qwen_refusal(config, *weights) == Some(e@),
                Ok(m) => {
                    &&& qwen_refusal(config, *weights) is None
                    &&& m.config == config
                    &&& model::general_config(config, m.model_config)
                    &&& m.embed_tokens@ == weights.at(
                        qwen_root(*weights) + "embed_tokens.weight"@,
                    ).data@
                    &&& m.embed_norm_weight@ == Seq::<T>::empty()
                    &&& m.final_norm_weight@ == weights.at(
                        qwen_root(*weights) + "norm.weight"@,
                    ).data@
                    &&& m.lm_head_weight is Some <==> weights.has("lm_head.weight"@)
                    &&& m.lm_head_weight is Some ==> m.lm_head_weight->0@ == weights.at(
                        "lm_head.weight"@,
                    ).data@
                    &&& m.layers@.len() == config.num_layers
                    &&& forall|i: int|
                        0 <= i < config.num_layers ==> qwen_layer_loaded::<T, M, Q>(
                            config,
                            *weights,
                            i,
                            #[trigger] m.layers@[i],
                        )
                    &&& has_tables::<T, M, Q>(m, max_kv_seq)
                    &&& starts_blank(m, max_kv_seq)
                },
            },
    {
        let under = is_under_model(weights);
        // Embedding
        let embed_key = qwen_name(weights, under, "embed_tokens.weight");
        let embed_tokens = match fetch(weights, embed_key.as_str()) {
            Ok(v) => v,
            Err(e) => return Err(e),
        };
        let expected = config.vocab_size * config.hidden_size;
        if embed_tokens.len() != expected {
            let mut e = "embed_tokens shape mismatch: expected ".to_owned();
            e.append(decimal(expected).as_str());
            e.append(" got ");
            e.append(decimal(embed_tokens.len()).as_str());
            return Err(e);
        }
        // Final norm
        let norm_key = qwen_name(weights, under, "norm.weight");
        let final_norm_weight = match fetch(weights, norm_key.as_str()) {
            Ok(v) => v,
            Err(e) => return Err(e),
        };
        // LM head
        let lm_head_weight = match weights.get("lm_head.weight") {
            Some(t) => Some(copy_slice(t.data.as_slice())),
            None => None,
        };
        // RoPE tables
        let theta = M::from_binary64(config.rope_theta.bits);
        let (rope_cos, rope_sin) = compute_rope_tables::<T, M>(
            max_kv_seq,
            config.gqa_head_dim,
            theta,
        );
        // Layers
        let gqa_fields = list_qwen_gqa_fields();
        let deltanet_fields = list_qwen_deltanet_fields();
        let count = config.num_layers;
        let mut layers: Vec<HybridLayer<T, Q>> = Vec::with_capacity(count);
        for i in 0..count
            invariant
                scalar::mathematics::<T, M>(),
                weights.wf(),
                config.wf(),
                count == config.num_layers,
                under == under_model(*weights),
                fields_of(gqa_fields@) == qwen_gqa_fields(),
                fields_of(deltanet_fields@) == qwen_deltanet_fields(),
                qwen_refusal(config, *weights) == match qwen_layers_missing(
                    config,
                    *weights,
                    count as nat,
                ) {
                    Some(name) => Some(missing_text(name)),
                    None => None,
                },
                qwen_layers_missing(config, *weights, i as nat) is None,
                layers@.len() == i,
                forall|j: int|
                    0 <= j < i ==> qwen_layer_loaded::<T, M, Q>(
                        config,
                        *weights,
                        j,
                        #[trigger] layers@[j],
                    ),
        {
            let mut prefix = qwen_name(weights, under, "layers.");
            prefix.append(decimal(i).as_str());
            proof {
                assert(prefix@ == qwen_layer_prefix(*weights, i as int));
                if qwen_layers_missing(config, *weights, (i + 1) as nat) is Some {
                    lemma_missing_stays(config, *weights, (i + 1) as nat, count as nat);
                }
            }
            if config.is_full_attention(i) {
                match fetch_all(weights, prefix.as_str(), &gqa_fields) {
                    Ok(w) => {
                        assert(rows_of(w@).len() == 11);
                        layers.push(build_gqa::<T, M, Q>(&config, config.intermediate_size, w));
                    },
                    Err(e) => return Err(e),
                }
            } else {
                match fetch_all(weights, prefix.as_str(), &deltanet_fields) {
                    Ok(w) => {
                        assert(rows_of(w@).len() == 17);
                        layers.push(build_deltanet::<T, M, Q>(&config, w));
                    },
                    Err(e) => return Err(e),
                }
            }
        }
        Ok(
            HybridModel::new(
                config,
                embed_tokens,
                Vec::new(),
                layers,
                final_norm_weight,
                lm_head_weight,
                rope_cos,
                rope_sin,
                max_kv_seq,
            ),
        )
    }
}

proof fn lemma_missing_stays<T>(c: HybridConfig, map: TensorMap<T>, m: nat, n: nat)
    requires
        m <= n,
        qwen_layers_missing(c, map, m) is Some,
    ensures
        qwen_layers_missing(c, map, n) == qwen_layers_missing(c, map, m),
    decreases n,
{
    if m < n {
        lemma_missing_stays(c, map, m, (n - 1) as nat);
    }
}

// ── LFM2.5 checkpoints ───────────────────────────────────────────────

/// What the names of layer `i` start with.
pub open spec fn lfm_layer_prefix(i: int) -> Seq<char> {
    "blk."@ + text::decimal_digits(i as nat)
}

pub open spec fn unexpected_deltanet_text(i: int) -> Seq<char> {
    "LFM2.5 config has unexpected DeltaNet layer at index "@ + text::decimal_digits(i as nat)
}

/// Why layer `i` is refused, if it is.
pub open spec fn lfm_layer_refusal<T>(c: HybridConfig, map: TensorMap<T>, i: int) -> Option<
    Seq<char>,
> {
    let name = match c.kind(i) {
        LayerKind::LivConv => first_missing(map, lfm_layer_prefix(i), lfm_conv_fields(), 0),
        _ => first_missing(map, lfm_layer_prefix(i), lfm_gqa_fields(), 0),
    };
    if c.kind(i) == LayerKind::DeltaNet {
        Some(unexpected_deltanet_text(i))
    } else {
        match name {
            Some(name) => Some(missing_text(name)),
            None => None,
        }
    }
}

/// Why one of the first `n` layers is refused, if one is.
pub open spec fn lfm_layers_refusal<T>(c: HybridConfig, map: TensorMap<T>, n: nat) -> Option<
    Seq<char>,
>
    decreases n,
{
    if n == 0 {
        None
    } else {
        match lfm_layers_refusal(c, map, (n - 1) as nat) {
            Some(e) => Some(e),
            None => lfm_layer_refusal(c, map, n - 1),
        }
    }
}

/// Why a checkpoint is refused, if it is: what is wrong first, in the order of
/// embedding, final norm, LM head and layers.
pub open spec fn lfm_refusal<T>(c: HybridConfig, map: TensorMap<T>) -> Option<Seq<char>> {
    if !map.has("token_embd.weight"@) {
        Some(missing_text("token_embd.weight"@))
    } else if !map.has("token_embd_norm.weight"@) {
        Some(missing_text("token_embd_norm.weight"@))
    } else if !c.tie_embedding && !map.has("output.weight"@) {
        Some(missing_text("output.weight"@))
    } else {
        lfm_layers_refusal(c, map, c.num_layers as nat)
    }
}

/// All that comes before the layers is there, and so are the tensors of the
/// first layer: the size of its feed-forward block is worked out.
pub open spec fn lfm_reaches_layers<T>(c: HybridConfig, map: TensorMap<T>) -> bool {
    &&& map.has("token_embd.weight"@)
    &&& map.has("token_embd_norm.weight"@)
    &&& c.tie_embedding || map.has("output.weight"@)
    &&& c.num_layers > 0
    &&& lfm_layer_refusal(c, map, 0) is None
}

/// Layer `i` holds the tensors of the checkpoint. The size of its feed-forward
/// block is read off the tensor of its gate projection.
pub open spec fn lfm_layer_loaded<T: Scalar, M: Math<T>, Q>(
    c: HybridConfig,
    map: TensorMap<T>,
    i: int,
    layer: HybridLayer<T, Q>,
) -> bool {
    if c.kind(i) == LayerKind::LivConv {
        let w = tensors(map, lfm_layer_prefix(i), lfm_conv_fields());
        conv_from::<T, M, Q>(c, (w[5].len() / c.hidden_size as nat) as usize, w, layer)
    } else {
        let w = tensors(map, lfm_layer_prefix(i), lfm_gqa_fields());
        gqa_from::<T, M, Q>(c, (w[8].len() / c.hidden_size as nat) as usize, w, layer)
    }
}

proof fn lemma_refusal_stays<T>(c: HybridConfig, map: TensorMap<T>, m: nat, n: nat)
    requires
        m <= n,
        lfm_layers_refusal(c, map, m) is Some,
    ensures
        lfm_layers_refusal(c, map, n) == lfm_layers_refusal(c, map, m),
    decreases n,
{
    if m < n {
        lemma_refusal_stays(c, map, m, (n - 1) as nat);
    }
}

impl<T: Scalar, Q: PackedLinear<T>> HybridModel<T, Q> {
    /// Build a HybridModel from GGUF-style weight dictionary (LFM2.5).
    ///
    /// Expects llama.cpp GGUF tensor names:
    /// - `token_embd.weight`, `token_embd_norm.weight`, `output.weight`
    /// - Conv layers: `blk.{i}.shortconv.{in_proj,conv,out_proj}.weight`
    /// - GQA layers: `blk.{i}.attn_{q,k,v}.weight`, `attn_output.weight`,
    ///   `attn_q_norm.weight`, `attn_k_norm.weight`
    /// - Both: `blk.{i}.attn_norm.weight`, `ffn_{gate,up,down,norm}.weight`
    ///
    /// `token_embd_norm.weight` is the final norm: there is no norm behind the
    /// embedding.
    pub fn from_weights_lfm25<M: Math<T>>(
        config: HybridConfig,
        weights: &TensorMap<T>,
        max_kv_seq: usize,
    ) -> (r: Result<Self, String>)
        requires
            scalar::mathematics::<T, M>(),
            weights.wf(),
            config.wf(),
            lfm_reaches_layers(config, *weights) ==> config.hidden_size > 0,
            forall|i: int|
                lfm_refusal(config, *weights) is None && 0 <= i < config.num_layers
                    ==> model::sizes_fit(
                    config,
                    #[trigger] config.kind(i),
                    max_kv_seq,
                ),
        ensures
            match r {
                Err(e) => lfm_refusal(config, *weights) == Some(e@),
                Ok(m) => {
                    &&& lfm_refusal(config, *weights) is None
                    &&& m.config == config
                    &&& model::general_config(config, m.model_config)
                    &&& m.embed_tokens@ == weights.at("token_embd.weight"@).data@
                    &&& m.embed_norm_weight@ == Seq::<T>::empty()
                    &&& m.final_norm_weight@ == weights.at("token_embd_norm.weight"@).data@
                    &&& m.lm_head_weight is None <==> config.tie_embedding
                    &&& m.lm_head_weight is Some ==> m.lm_head_weight->0@ == weights.at(
                        "output.weight"@,
                    ).data@
                    &&& m.layers@.len() == config.num_layers
                    &&& forall|i: int|
                        0 <= i < config.num_layers ==> lfm_layer_loaded::<T, M, Q>(
                            config,
                            *weights,
                            i,
                            #[trigger] m.layers@[i],
                        )
                    &&& has_tables::<T, M, Q>(m, max_kv_seq)
                    &&& starts_blank(m, max_kv_seq)
                },
            },
    {
        // Embedding and norms
        let embed_tokens = match fetch(weights, "token_embd.weight") {
            Ok(v) => v,
            Err(e) => return Err(e),
        };
        let final_norm_weight = match fetch(weights, "token_embd_norm.weight") {
            Ok(v) => v,
            Err(e) => return Err(e),
        };
        let lm_head_weight = if config.tie_embedding {
            None
        } else {
            match fetch(weights, "output.weight") {
                Ok(v) => Some(v),
                Err(e) => return Err(e),
            }
        };
        // RoPE tables
        let theta = M::from_binary64(config.rope_theta.bits);
        let (rope_cos, rope_sin) = compute_rope_tables::<T, M>(
            max_kv_seq,
            config.gqa_head_dim,
            theta,
        );
        // Layers
        let gqa_fields = list_lfm_gqa_fields();
        let conv_fields = list_lfm_conv_fields();
        let count = config.num_layers;
        let d = config.hidden_size;
        let mut layers: Vec<HybridLayer<T, Q>> = Vec::with_capacity(count);
        for i in 0..count
            invariant
                scalar::mathematics::<T, M>(),
                weights.wf(),
                config.wf(),
                count == config.num_layers,
                d == config.hidden_size,
                weights.has("token_embd.weight"@),
                weights.has("token_embd_norm.weight"@),
                config.tie_embedding || weights.has("output.weight"@),
                lfm_reaches_layers(config, *weights) ==> d > 0,
                fields_of(gqa_fields@) == lfm_gqa_fields(),
                fields_of(conv_fields@) == lfm_conv_fields(),
                lfm_refusal(config, *weights) == lfm_layers_refusal(
                    config,
                    *weights,
                    count as nat,
                ),
                lfm_layers_refusal(config, *weights, i as nat) is None,
                layers@.len() == i,
                forall|j: int|
                    0 <= j < i ==> lfm_layer_loaded::<T, M, Q>(
                        config,
                        *weights,
                        j,
                        #[trigger] layers@[j],
                    ),
        {
            let mut prefix = "blk.".to_owned();
            prefix.append(decimal(i).as_str());
            proof {
                assert(prefix@ == lfm_layer_prefix(i as int));
                if lfm_layers_refusal(config, *weights, (i + 1) as nat) is Some {
                    lemma_refusal_stays(config, *weights, (i + 1) as nat, count as nat);
                } else if lfm_layers_refusal(config, *weights, 1) is Some {
                    lemma_refusal_stays(config, *weights, 1, (i + 1) as nat);
                }
                assert(lfm_layers_refusal(config, *weights, 0) is None);
                assert(lfm_layers_refusal(config, *weights, 1) == lfm_layer_refusal(
                    config,
                    *weights,
                    0,
                ));
            }
            match config.layer_kind(i) {
                LayerKind::LivConv => match fetch_all(weights, prefix.as_str(), &conv_fields) {
                    Ok(w) => {
                        assert(rows_of(w@).len() == 8);
                        assert(rows_of(w@)[5] == w@[5]@);
                        let actual_im = w[5].len() / d;
                        layers.push(build_conv::<T, M, Q>(&config, actual_im, w));
                    },
                    Err(e) => return Err(e),
                },
                LayerKind::Gqa => match fetch_all(weights, prefix.as_str(), &gqa_fields) {
                    Ok(w) => {
                        assert(rows_of(w@).len() == 11);
                        assert(rows_of(w@)[8] == w@[8]@);
                        let actual_im = w[8].len() / d;
                        layers.push(build_gqa::<T, M, Q>(&config, actual_im, w));
                    },
                    Err(e) => return Err(e),
                },
                LayerKind::DeltaNet => {
                    let mut e = "LFM2.5 config has unexpected DeltaNet layer at index ".to_owned();
                    e.append(decimal(i).as_str());
                    return Err(e);
                },
            }
        }
        Ok(
            HybridModel::new(
                config,
                embed_tokens,
                Vec::new(),
                layers,
                final_norm_weight,
                lm_head_weight,
                rope_cos,
                rope_sin,
                max_kv_seq,
            ),
        )
    }
}

} // verus!
