//! Which names a model expects, and how numbers are read from names.

use vstd::prelude::*;

use crate::models::lm::causal_lm::CausalLM;
use crate::models::lm::decoder_layer::DecoderStructure;
use crate::models::text_encoder::code_deltatok;
use crate::models::text_encoder::code_deltatok::{CodeDeltaTokHead, DeltaTokBlock};
use crate::models::text_encoder::roberta;
use crate::models::text_encoder::roberta::{RoBERTaEncoder, RoBERTaLayer};
use crate::models::vision::clip;
use crate::models::vision::clip::CLIPModel;
use crate::models::vision::vit;
use crate::models::vision::vit::{EncoderLayer, ViTModel};
use crate::ops;
use crate::scalar::Scalar;
use crate::text;
use crate::weights;
use crate::weights::WeightTarget;

verus! {

proof fn lemma_either(a: Seq<Seq<char>>, b: Seq<Seq<char>>, x: Seq<char>)
    ensures
        a.contains(x) || b.contains(x) ==> (a + b).contains(x),
{
    if a.contains(x) {
        let i = a.index_of(x);
        assert((a + b)[i] == x);
    }
    if b.contains(x) {
        let i = b.index_of(x);
        assert((a + b)[a.len() + i] == x);
    }
}

proof fn lemma_indexed(
    fields: Seq<Seq<char>>,
    prefix: Seq<char>,
    i: nat,
    name: Seq<char>,
)
    requires
        fields.contains(name),
    ensures
        fields.map_values(|f: Seq<char>| text::indexed_key(prefix, i, f)).contains(
            text::indexed_key(prefix, i, name),
        ),
{
    let g = |f: Seq<char>| text::indexed_key(prefix, i, f);
    let k = fields.index_of(name);
    assert(fields.map_values(g)[k] == text::indexed_key(prefix, i, name));
}

proof fn lemma_stacked(
    n: nat,
    f: spec_fn(int) -> Seq<Seq<char>>,
    i: int,
    key: Seq<char>,
)
    requires
        0 <= i < n,
        f(i).contains(key),
    ensures
        ops::blocks(n, f).contains(key),
{
    let j = f(i).index_of(key);
    weights::lemma_in_blocks(n, f, i, j);
}

/// Every weight of an encoder layer is expected.
pub proof fn lemma_encoder_fields_complete<T: Scalar>(layer: EncoderLayer<T>, name: Seq<char>)
    requires
        layer.field(name) is Some,
    ensures
        vit::encoder_fields().contains(name),
{
    let f = vit::encoder_fields();
    assert(f[0] == "attn_norm.weight"@ && f.contains(f[0]));
    assert(f[1] == "attn_norm.bias"@ && f.contains(f[1]));
    assert(f[2] == "attention.w_q"@ && f.contains(f[2]));
    assert(f[3] == "attention.q_bias"@ && f.contains(f[3]));
    assert(f[4] == "attention.w_k"@ && f.contains(f[4]));
    assert(f[5] == "attention.k_bias"@ && f.contains(f[5]));
    assert(f[6] == "attention.w_v"@ && f.contains(f[6]));
    assert(f[7] == "attention.v_bias"@ && f.contains(f[7]));
    assert(f[8] == "attention.w_o"@ && f.contains(f[8]));
    assert(f[9] == "attention.o_bias"@ && f.contains(f[9]));
    assert(f[10] == "ffn_norm.weight"@ && f.contains(f[10]));
    assert(f[11] == "ffn_norm.bias"@ && f.contains(f[11]));
    assert(f[12] == "ffn.w_up"@ && f.contains(f[12]));
    assert(f[13] == "ffn.up_bias"@ && f.contains(f[13]));
    assert(f[14] == "ffn.w_down"@ && f.contains(f[14]));
    assert(f[15] == "ffn.down_bias"@ && f.contains(f[15]));
}

/// Every weight of a layer of the text encoder is expected.
pub proof fn lemma_roberta_fields_complete<T: Scalar>(layer: RoBERTaLayer<T>, name: Seq<char>)
    requires
        layer.field(name) is Some,
    ensures
        roberta::roberta_fields().contains(name),
{
    let f = roberta::roberta_fields();
    assert(f[0] == "attention.w_q"@ && f.contains(f[0]));
    assert(f[1] == "attention.q_bias"@ && f.contains(f[1]));
    assert(f[2] == "attention.w_k"@ && f.contains(f[2]));
    assert(f[3] == "attention.k_bias"@ && f.contains(f[3]));
    assert(f[4] == "attention.w_v"@ && f.contains(f[4]));
    assert(f[5] == "attention.v_bias"@ && f.contains(f[5]));
    assert(f[6] == "attention.w_o"@ && f.contains(f[6]));
    assert(f[7] == "attention.o_bias"@ && f.contains(f[7]));
    assert(f[8] == "attn_norm.weight"@ && f.contains(f[8]));
    assert(f[9] == "attn_norm.bias"@ && f.contains(f[9]));
    assert(f[10] == "ffn.w_up"@ && f.contains(f[10]));
    assert(f[11] == "ffn.up_bias"@ && f.contains(f[11]));
    assert(f[12] == "ffn.w_down"@ && f.contains(f[12]));
    assert(f[13] == "ffn.down_bias"@ && f.contains(f[13]));
    assert(f[14] == "ffn_norm.weight"@ && f.contains(f[14]));
    assert(f[15] == "ffn_norm.bias"@ && f.contains(f[15]));
}

/// Every weight of a block of the delta tokenizer is expected.
pub proof fn lemma_deltatok_fields_complete<T: Scalar>(block: DeltaTokBlock<T>, name: Seq<char>)
    requires
        block.field(name) is Some,
    ensures
        code_deltatok::deltatok_fields().contains(name),
{
    let f = code_deltatok::deltatok_fields();
    assert(f[0] == "norm1.weight"@ && f.contains(f[0]));
    assert(f[1] == "norm1.bias"@ && f.contains(f[1]));
    assert(f[2] == "norm2.weight"@ && f.contains(f[2]));
    assert(f[3] == "norm2.bias"@ && f.contains(f[3]));
    assert(f[4] == "attn.in_proj_weight"@ && f.contains(f[4]));
    assert(f[5] == "attn.in_proj_bias"@ && f.contains(f[5]));
    assert(f[6] == "attn.out_proj.weight"@ && f.contains(f[6]));
    assert(f[7] == "attn.out_proj.bias"@ && f.contains(f[7]));
    assert(f[8] == "mlp_gate.weight"@ && f.contains(f[8]));
    assert(f[9] == "mlp_gate.bias"@ && f.contains(f[9]));
    assert(f[10] == "mlp_up.weight"@ && f.contains(f[10]));
    assert(f[11] == "mlp_up.bias"@ && f.contains(f[11]));
    assert(f[12] == "mlp_down.weight"@ && f.contains(f[12]));
    assert(f[13] == "mlp_down.bias"@ && f.contains(f[13]));
    assert(f[14] == "scale1"@ && f.contains(f[14]));
    assert(f[15] == "scale2"@ && f.contains(f[15]));
}

/// A decoder layer's expected names are those of its norms and projections, of
/// the norms of its heads where it has them, and of its gate where it has one.
pub proof fn lemma_decoder_fields_complete(s: DecoderStructure)
    ensures
        s.key_fields().contains("attn_norm.weight"@),
        s.key_fields().contains("attention.w_q"@),
        s.key_fields().contains("attention.w_k"@),
        s.key_fields().contains("attention.w_v"@),
        s.key_fields().contains("attention.w_o"@),
        s.has_head_norms ==> s.key_fields().contains("attention.q_norm"@),
        s.has_head_norms ==> s.key_fields().contains("attention.k_norm"@),
        s.key_fields().contains("ffn_norm.weight"@),
        s.ffn.gated() ==> s.key_fields().contains("ffn.w_gate"@),
        s.key_fields().contains("ffn.w_up"@),
        s.key_fields().contains("ffn.w_down"@),
        s.key_fields().len() == 8 + (if s.has_head_norms {
            2int
        } else {
            0
        }) + (if s.ffn.gated() {
            1int
        } else {
            0
        }),
{
    let f = s.key_fields();
    let h: int = if s.has_head_norms {
        2
    } else {
        0
    };
    let g: int = if s.ffn.gated() {
        1
    } else {
        0
    };
    assert(f[0] == "attn_norm.weight"@);
    assert(f[1] == "attention.w_q"@);
    assert(f[2] == "attention.w_k"@);
    assert(f[3] == "attention.w_v"@);
    assert(f[4] == "attention.w_o"@);
    if s.has_head_norms {
        assert(f[5] == "attention.q_norm"@);
        assert(f[6] == "attention.k_norm"@);
    }
    assert(f[5 + h] == "ffn_norm.weight"@);
    if s.ffn.gated() {
        assert(f[6 + h] == "ffn.w_gate"@);
    }
    assert(f[6 + h + g] == "ffn.w_up"@);
    assert(f[7 + h + g] == "ffn.w_down"@);
}

/// The language model expects its own weights and every expected name of every
/// layer.
pub proof fn lemma_causal_lm_expects<T: Scalar>(model: CausalLM<T>, i: int, name: Seq<char>)
    ensures
        model.expected().contains("embed_tokens.weight"@),
        model.expected().contains("norm.weight"@),
        !model.config.architecture.tie_word_embeddings ==> model.expected().contains(
            "lm_head.weight"@,
        ),
        0 <= i < model.layers@.len() && model.layers@[i].structure().key_fields().contains(name)
            ==> model.expected().contains(text::indexed_key("layers["@, i as nat, name)),
{
    let f = |k: int| model.layers@[k].structure().keys(k as nat);
    let a = seq!["embed_tokens.weight"@];
    let b = ops::blocks(model.layers@.len(), f);
    let c = if model.config.architecture.tie_word_embeddings {
        seq!["norm.weight"@]
    } else {
        seq!["norm.weight"@, "lm_head.weight"@]
    };
    assert(a[0] == "embed_tokens.weight"@);
    assert(c[0] == "norm.weight"@);
    lemma_either(a, b, "embed_tokens.weight"@);
    lemma_either(a + b, c, "embed_tokens.weight"@);
    lemma_either(a + b, c, "norm.weight"@);
    if !model.config.architecture.tie_word_embeddings {
        assert(c[1] == "lm_head.weight"@);
        lemma_either(a + b, c, "lm_head.weight"@);
    }
    if 0 <= i < model.layers@.len() && model.layers@[i].structure().key_fields().contains(name) {
        let key = text::indexed_key("layers["@, i as nat, name);
        lemma_indexed(model.layers@[i].structure().key_fields(), "layers["@, i as nat, name);
        lemma_stacked(model.layers@.len(), f, i, key);
        lemma_either(a, b, key);
        lemma_either(a + b, c, key);
    }
}

/// The text encoder expects its own weights and every weight of every layer.
pub proof fn lemma_roberta_expects<T: Scalar>(model: RoBERTaEncoder<T>, i: int, name: Seq<char>)
    ensures
        model.expected().contains("embeddings.word"@),
        model.expected().contains("embeddings.position"@),
        model.expected().contains("embeddings.token_type"@),
        model.expected().contains("embeddings.ln.weight"@),
        model.expected().contains("embeddings.ln.bias"@),
        0 <= i < model.layers@.len() && model.layers@[i].field(name) is Some
            ==> model.expected().contains(text::indexed_key("layers["@, i as nat, name)),
{
    let f = |k: int| roberta::roberta_keys(k as nat);
    let b = ops::blocks(model.layers@.len(), f);
    let a = seq![
        "embeddings.word"@,
        "embeddings.position"@,
        "embeddings.token_type"@,
        "embeddings.ln.weight"@,
        "embeddings.ln.bias"@,
    ];
    assert(a[0] == "embeddings.word"@);
    lemma_either(a, b, "embeddings.word"@);
    assert(a[1] == "embeddings.position"@);
    lemma_either(a, b, "embeddings.position"@);
    assert(a[2] == "embeddings.token_type"@);
    lemma_either(a, b, "embeddings.token_type"@);
    assert(a[3] == "embeddings.ln.weight"@);
    lemma_either(a, b, "embeddings.ln.weight"@);
    assert(a[4] == "embeddings.ln.bias"@);
    lemma_either(a, b, "embeddings.ln.bias"@);
    if 0 <= i < model.layers@.len() && model.layers@[i].field(name) is Some {
        let key = text::indexed_key("layers["@, i as nat, name);
        lemma_roberta_fields_complete(model.layers@[i], name);
        lemma_indexed(roberta::roberta_fields(), "layers["@, i as nat, name);
        lemma_stacked(model.layers@.len(), f, i, key);
        lemma_either(a, b, key);
    }
}

/// The vision transformer expects its own weights, those of its classes where it
/// has any, and every weight of every layer.
pub proof fn lemma_vit_expects<T: Scalar>(model: ViTModel<T>, i: int, name: Seq<char>)
    ensures
        model.expected().contains("patch_proj"@),
        model.expected().contains("patch_proj_bias"@),
        model.expected().contains("cls_token"@),
        model.expected().contains("pos_embed"@),
        model.expected().contains("norm.weight"@),
        model.expected().contains("norm.bias"@),
        model.classifier_head is Some ==> model.expected().contains("classifier.weight"@),
        model.classifier_head is Some ==> model.expected().contains("classifier.bias"@),
        0 <= i < model.layers@.len() && model.layers@[i].field(name) is Some
            ==> model.expected().contains(text::indexed_key("layers["@, i as nat, name)),
{
    let f = |k: int| vit::encoder_keys(k as nat);
    let b = ops::blocks(model.layers@.len(), f);
    let a = seq!["patch_proj"@, "patch_proj_bias"@, "cls_token"@, "pos_embed"@];
    let c = seq!["norm.weight"@, "norm.bias"@];
    let d = if model.classifier_head is Some {
        seq!["classifier.weight"@, "classifier.bias"@]
    } else {
        Seq::empty()
    };
    assert(a[0] == "patch_proj"@);
    lemma_either(a, b, "patch_proj"@);
    lemma_either(a + b, c, "patch_proj"@);
    lemma_either(a + b + c, d, "patch_proj"@);
    assert(a[1] == "patch_proj_bias"@);
    lemma_either(a, b, "patch_proj_bias"@);
    lemma_either(a + b, c, "patch_proj_bias"@);
    lemma_either(a + b + c, d, "patch_proj_bias"@);
    assert(a[2] == "cls_token"@);
    lemma_either(a, b, "cls_token"@);
    lemma_either(a + b, c, "cls_token"@);
    lemma_either(a + b + c, d, "cls_token"@);
    assert(a[3] == "pos_embed"@);
    lemma_either(a, b, "pos_embed"@);
    lemma_either(a + b, c, "pos_embed"@);
    lemma_either(a + b + c, d, "pos_embed"@);
    assert(c[0] == "norm.weight"@);
    lemma_either(a + b, c, "norm.weight"@);
    lemma_either(a + b + c, d, "norm.weight"@);
    assert(c[1] == "norm.bias"@);
    lemma_either(a + b, c, "norm.bias"@);
    lemma_either(a + b + c, d, "norm.bias"@);
    if model.classifier_head is Some {
        assert(d[0] == "classifier.weight"@);
        assert(d[1] == "classifier.bias"@);
        lemma_either(a + b + c, d, "classifier.weight"@);
        lemma_either(a + b + c, d, "classifier.bias"@);
    }
    if 0 <= i < model.layers@.len() && model.layers@[i].field(name) is Some {
        let key = text::indexed_key("layers["@, i as nat, name);
        lemma_encoder_fields_complete(model.layers@[i], name);
        lemma_indexed(vit::encoder_fields(), "layers["@, i as nat, name);
        lemma_stacked(model.layers@.len(), f, i, key);
        lemma_either(a, b, key);
        lemma_either(a + b, c, key);
        lemma_either(a + b + c, d, key);
    }
}

/// The delta tokenizer expects its own weights and every weight of every block.
pub proof fn lemma_deltatok_expects<T: Scalar>(
    model: CodeDeltaTokHead<T>,
    i: int,
    name: Seq<char>,
)
    ensures
        model.expected().contains("z_embed"@),
        model.expected().contains("pos_prev"@),
        model.expected().contains("pos_next"@),
        model.expected().contains("pos_z"@),
        model.expected().contains("encoder_norm.weight"@),
        model.expected().contains("encoder_norm.bias"@),
        model.expected().contains("decoder_norm.weight"@),
        model.expected().contains("decoder_norm.bias"@),
        model.expected().contains("out_proj.weight"@),
        model.expected().contains("out_proj.bias"@),
        0 <= i < model.encoder@.len() && model.encoder@[i].field(name) is Some
            ==> model.expected().contains(text::indexed_key("encoder["@, i as nat, name)),
        0 <= i < model.decoder@.len() && model.decoder@[i].field(name) is Some
            ==> model.expected().contains(text::indexed_key("decoder["@, i as nat, name)),
{
    let f = |k: int| code_deltatok::deltatok_keys("encoder["@, k as nat);
    let g = |k: int| code_deltatok::deltatok_keys("decoder["@, k as nat);
    let b = code_deltatok::stack_keys("encoder["@, model.encoder@.len());
    let c = code_deltatok::stack_keys("decoder["@, model.decoder@.len());
    let a = seq![
        "z_embed"@,
        "pos_prev"@,
        "pos_next"@,
        "pos_z"@,
        "encoder_norm.weight"@,
        "encoder_norm.bias"@,
        "decoder_norm.weight"@,
        "decoder_norm.bias"@,
        "out_proj.weight"@,
        "out_proj.bias"@,
    ];
    assert(a[0] == "z_embed"@);
    lemma_either(a, b, "z_embed"@);
    lemma_either(a + b, c, "z_embed"@);
    assert(a[1] == "pos_prev"@);
    lemma_either(a, b, "pos_prev"@);
    lemma_either(a + b, c, "pos_prev"@);
    assert(a[2] == "pos_next"@);
    lemma_either(a, b, "pos_next"@);
    lemma_either(a + b, c, "pos_next"@);
    assert(a[3] == "pos_z"@);
    lemma_either(a, b, "pos_z"@);
    lemma_either(a + b, c, "pos_z"@);
    assert(a[4] == "encoder_norm.weight"@);
    lemma_either(a, b, "encoder_norm.weight"@);
    lemma_either(a + b, c, "encoder_norm.weight"@);
    assert(a[5] == "encoder_norm.bias"@);
    lemma_either(a, b, "encoder_norm.bias"@);
    lemma_either(a + b, c, "encoder_norm.bias"@);
    assert(a[6] == "decoder_norm.weight"@);
    lemma_either(a, b, "decoder_norm.weight"@);
    lemma_either(a + b, c, "decoder_norm.weight"@);
    assert(a[7] == "decoder_norm.bias"@);
    lemma_either(a, b, "decoder_norm.bias"@);
    lemma_either(a + b, c, "decoder_norm.bias"@);
    assert(a[8] == "out_proj.weight"@);
    lemma_either(a, b, "out_proj.weight"@);
    lemma_either(a + b, c, "out_proj.weight"@);
    assert(a[9] == "out_proj.bias"@);
    lemma_either(a, b, "out_proj.bias"@);
    lemma_either(a + b, c, "out_proj.bias"@);
    if 0 <= i < model.encoder@.len() && model.encoder@[i].field(name) is Some {
        let key = text::indexed_key("encoder["@, i as nat, name);
        lemma_deltatok_fields_complete(model.encoder@[i], name);
        lemma_indexed(code_deltatok::deltatok_fields(), "encoder["@, i as nat, name);
        lemma_stacked(model.encoder@.len(), f, i, key);
        lemma_either(a, b, key);
        lemma_either(a + b, c, key);
    }
    if 0 <= i < model.decoder@.len() && model.decoder@[i].field(name) is Some {
        let key = text::indexed_key("decoder["@, i as nat, name);
        lemma_deltatok_fields_complete(model.decoder@[i], name);
        lemma_indexed(code_deltatok::deltatok_fields(), "decoder["@, i as nat, name);
        lemma_stacked(model.decoder@.len(), g, i, key);
        lemma_either(a + b, c, key);
    }
}

proof fn lemma_clip_parts(
    a: Seq<Seq<char>>,
    v: Seq<Seq<char>>,
    b: Seq<Seq<char>>,
    t: Seq<Seq<char>>,
    c: Seq<Seq<char>>,
    x: Seq<char>,
)
    requires
        a.contains(x) || v.contains(x) || b.contains(x) || t.contains(x) || c.contains(x),
    ensures
        (a + v + b + t + c).contains(x),
{
    lemma_either(a, v, x);
    lemma_either(a + v, b, x);
    lemma_either(a + v + b, t, x);
    lemma_either(a + v + b + t, c, x);
}

/// The two sides of the image and text model expect their own weights, the
/// projections and every weight of every layer.
pub proof fn lemma_clip_expects<T: Scalar>(model: CLIPModel<T>, i: int, name: Seq<char>)
    ensures
        model.expected().contains("vision.patch_proj"@),
        model.expected().contains("vision.cls_token"@),
        model.expected().contains("vision.pos_embed"@),
        model.expected().contains("vision.pre_norm.weight"@),
        model.expected().contains("vision.pre_norm.bias"@),
        model.expected().contains("vision.norm.weight"@),
        model.expected().contains("vision.norm.bias"@),
        model.expected().contains("text.embeddings"@),
        model.expected().contains("text.pos_embed"@),
        model.expected().contains("text.norm.weight"@),
        model.expected().contains("text.norm.bias"@),
        model.expected().contains("vision_proj"@),
        model.expected().contains("text_proj"@),
        0 <= i < model.vision_model.layers@.len() && model.vision_model.layers@[i].field(
            name,
        ) is Some ==> model.expected().contains(
            "vision."@ + text::indexed_key("layers["@, i as nat, name),
        ),
        0 <= i < model.text_encoder_layers@.len() && model.text_encoder_layers@[i].field(
            name,
        ) is Some ==> model.expected().contains(
            "text."@ + text::indexed_key("layers["@, i as nat, name),
        ),
{
    let v = clip::stack_keys("vision."@, model.vision_model.layers@.len());
    let t = clip::stack_keys("text."@, model.text_encoder_layers@.len());
    let a = seq![
        "vision.patch_proj"@,
        "vision.cls_token"@,
        "vision.pos_embed"@,
        "vision.pre_norm.weight"@,
        "vision.pre_norm.bias"@,
    ];
    let b = seq![
        "vision.norm.weight"@,
        "vision.norm.bias"@,
        "text.embeddings"@,
        "text.pos_embed"@,
    ];
    let c = seq![
        "text.norm.weight"@,
        "text.norm.bias"@,
        "vision_proj"@,
        "text_proj"@,
    ];
    assert(a[0] == "vision.patch_proj"@);
    lemma_clip_parts(a, v, b, t, c, "vision.patch_proj"@);
    assert(a[1] == "vision.cls_token"@);
    lemma_clip_parts(a, v, b, t, c, "vision.cls_token"@);
    assert(a[2] == "vision.pos_embed"@);
    lemma_clip_parts(a, v, b, t, c, "vision.pos_embed"@);
    assert(a[3] == "vision.pre_norm.weight"@);
    lemma_clip_parts(a, v, b, t, c, "vision.pre_norm.weight"@);
    assert(a[4] == "vision.pre_norm.bias"@);
    lemma_clip_parts(a, v, b, t, c, "vision.pre_norm.bias"@);
    assert(b[0] == "vision.norm.weight"@);
    lemma_clip_parts(a, v, b, t, c, "vision.norm.weight"@);
    assert(b[1] == "vision.norm.bias"@);
    lemma_clip_parts(a, v, b, t, c, "vision.norm.bias"@);
    assert(b[2] == "text.embeddings"@);
    lemma_clip_parts(a, v, b, t, c, "text.embeddings"@);
    assert(b[3] == "text.pos_embed"@);
    lemma_clip_parts(a, v, b, t, c, "text.pos_embed"@);
    assert(c[0] == "text.norm.weight"@);
    lemma_clip_parts(a, v, b, t, c, "text.norm.weight"@);
    assert(c[1] == "text.norm.bias"@);
    lemma_clip_parts(a, v, b, t, c, "text.norm.bias"@);
    assert(c[2] == "vision_proj"@);
    lemma_clip_parts(a, v, b, t, c, "vision_proj"@);
    assert(c[3] == "text_proj"@);
    lemma_clip_parts(a, v, b, t, c, "text_proj"@);
    if 0 <= i < model.vision_model.layers@.len() && model.vision_model.layers@[i].field(
        name,
    ) is Some {
        lemma_encoder_fields_complete(model.vision_model.layers@[i], name);
        lemma_clip_stack("vision."@, model.vision_model.layers@.len(), i, name);
        lemma_clip_parts(a, v, b, t, c, "vision."@ + text::indexed_key("layers["@, i as nat, name));
    }
    if 0 <= i < model.text_encoder_layers@.len() && model.text_encoder_layers@[i].field(
        name,
    ) is Some {
        lemma_encoder_fields_complete(model.text_encoder_layers@[i], name);
        lemma_clip_stack("text."@, model.text_encoder_layers@.len(), i, name);
        lemma_clip_parts(a, v, b, t, c, "text."@ + text::indexed_key("layers["@, i as nat, name));
    }
}

proof fn lemma_clip_stack(prefix: Seq<char>, n: nat, i: int, name: Seq<char>)
    requires
        0 <= i < n,
        vit::encoder_fields().contains(name),
    ensures
        clip::stack_keys(prefix, n).contains(
            prefix + text::indexed_key("layers["@, i as nat, name),
        ),
{
    let g = |k: Seq<char>| prefix + k;
    let f = |k: int| vit::encoder_keys(k as nat).map_values(|x: Seq<char>| prefix + x);
    let key = text::indexed_key("layers["@, i as nat, name);
    lemma_indexed(vit::encoder_fields(), "layers["@, i as nat, name);
    let j = vit::encoder_keys(i as nat).index_of(key);
    assert(f(i)[j] == prefix + key);
    lemma_stacked(n, f, i, prefix + key);
}

/// A number is read from digits alone, with at most a plus sign before them; no
/// digits and other characters give none.
pub proof fn lemma_number_is_digits(s: Seq<char>, i: int)
    requires
        0 <= i < s.len(),
    ensures
        text::decimal_value(s) is Some && i > 0 ==> '0' <= s[i] <= '9',
        text::decimal_value(s) is Some ==> '0' <= s[0] <= '9' || (s[0] == '+' && s.len() > 1),
        text::decimal_value(Seq::empty()) is None,
        s[0] != '+' ==> text::decimal_value(seq!['+'] + s) == text::decimal_value(s),
        s[0] == '+' ==> text::decimal_value(seq!['+'] + s) is None,
{
    let t = seq!['+'] + s;
    assert(t.skip(1) =~= s);
    if text::decimal_value(s) is Some {
        let digits = if s[0] == '+' {
            s.skip(1)
        } else {
            s
        };
        if s[0] == '+' {
            assert(digits.len() > 0);
            if i > 0 {
                assert(digits[i - 1] == s[i]);
            }
        } else {
            assert(text::is_digit(digits[0]) && text::is_digit(digits[i]));
        }
    }
    if s[0] == '+' {
        assert(!text::is_digit(s[0]));
    }
}

/// A further digit makes a number ten times as large and adds its own value; a
/// number that a machine word cannot hold is none.
pub proof fn lemma_number_grows(s: Seq<char>, d: nat, n: usize)
    requires
        d < 10,
        text::decimal_value(s) == Some(n),
    ensures
        ({
            let t = s.push((48 + d) as u8 as char);
            &&& n * 10 + d <= usize::MAX ==> text::decimal_value(t) == Some((n * 10 + d) as usize)
            &&& n * 10 + d > usize::MAX ==> text::decimal_value(t) is None
        }),
{
    let c = (48 + d) as u8 as char;
    let t = s.push(c);
    let digits = if s[0] == '+' {
        s.skip(1)
    } else {
        s
    };
    let more = digits.push(c);
    if s[0] == '+' {
        assert(t.skip(1) =~= more);
    }
    assert(more.drop_last() =~= digits);
    assert(text::is_digit(c));
    assert(text::digit_value(c) == d);
    assert forall|i: int| 0 <= i < more.len() implies text::is_digit(#[trigger] more[i]) by {
        if i < digits.len() {
            assert(text::is_digit(digits[i]));
        }
    }
}

/// The elements of a tensor are the product of its dimensions.
pub proof fn lemma_volume_grows(shape: Seq<usize>, n: usize)
    ensures
        weights::volume(Seq::empty()) == 1,
        weights::volume(shape.push(n)) == weights::volume(shape) * n,
{
    assert(shape.push(n).drop_last() =~= shape);
}

} // verus!
