//! Which weight a tensor's name stands for.

use vstd::prelude::*;

use crate::models::lm::causal_lm::CausalLM;
use crate::models::ssm::hybrid::config::{HybridConfig, LayerKind};
use crate::models::ssm::hybrid::model::HybridLayer;
use crate::models::ssm::hybrid::weights;
use crate::models::text_encoder::code_deltatok::{CodeDeltaTokHead, DeltaTokBlock};
use crate::models::text_encoder::roberta::{RoBERTaEncoder, RoBERTaLayer};
use crate::models::vision::adaln::AdaLNTransformerLayer;
use crate::models::vision::clip::CLIPModel;
use crate::models::vision::code_wm;
use crate::models::vision::code_wm::{CodeSlot, CodeWorldModel, TransformerBlock};
use crate::models::vision::lewm::LeWorldModel;
use crate::models::vision::lewm_weights;
use crate::models::vision::lewm_weights::{LeWMSlot, Route};
use crate::models::vision::vit;
use crate::models::vision::vit::{EncoderLayer, ViTModel};
use crate::packed::PackedLinear;
use crate::scalar;
use crate::scalar::{Math, Scalar};
use crate::text;
use crate::weights as tensor_weights;
use crate::weights::{Slot, TensorMap, WeightTarget};

verus! {

/// The names under which an encoder layer of the vision transformer takes its
/// weights.
pub proof fn lemma_encoder_layer_names<T: Scalar>(layer: EncoderLayer<T>)
    ensures
        layer.field("attn_norm.weight"@) == Some(layer.attn_norm_weight@),
        layer.field("attn_norm.bias"@) == Some(layer.attn_norm_bias@),
        layer.field("attention.w_q"@) == Some(layer.w_q@),
        layer.field("attention.q_bias"@) == Some(layer.q_bias@),
        layer.field("attention.w_k"@) == Some(layer.w_k@),
        layer.field("attention.k_bias"@) == Some(layer.k_bias@),
        layer.field("attention.w_v"@) == Some(layer.w_v@),
        layer.field("attention.v_bias"@) == Some(layer.v_bias@),
        layer.field("attention.w_o"@) == Some(layer.w_o@),
        layer.field("attention.o_bias"@) == Some(layer.o_bias@),
        layer.field("ffn_norm.weight"@) == Some(layer.ffn_norm_weight@),
        layer.field("ffn_norm.bias"@) == Some(layer.ffn_norm_bias@),
        layer.field("ffn.w_up"@) == Some(layer.ffn_up@),
        layer.field("ffn.up_bias"@) == Some(layer.ffn_up_bias@),
        layer.field("ffn.w_down"@) == Some(layer.ffn_down@),
        layer.field("ffn.down_bias"@) == Some(layer.ffn_down_bias@),
{
    reveal_strlit("attn_norm.weight");
    reveal_strlit("attn_norm.bias");
    reveal_strlit("attention.w_q");
    reveal_strlit("attention.q_bias");
    reveal_strlit("attention.w_k");
    reveal_strlit("attention.k_bias");
    reveal_strlit("attention.w_v");
    reveal_strlit("attention.v_bias");
    reveal_strlit("attention.w_o");
    reveal_strlit("attention.o_bias");
    reveal_strlit("ffn_norm.weight");
    reveal_strlit("ffn_norm.bias");
    reveal_strlit("ffn.w_up");
    reveal_strlit("ffn.up_bias");
    reveal_strlit("ffn.w_down");
    reveal_strlit("ffn.down_bias");
    assert("attn_norm.weight"@.len() == 16 && "attn_norm.weight"@[3] == 'n');
    assert("attn_norm.bias"@.len() == 14);
    assert("attention.w_q"@.len() == 13 && "attention.w_q"@[0] == 'a'
        && "attention.w_q"@[12] == 'q');
    assert("attention.q_bias"@.len() == 16 && "attention.q_bias"@[3] == 'e'
        && "attention.q_bias"@[10] == 'q');
    assert("attention.w_k"@.len() == 13 && "attention.w_k"@[0] == 'a'
        && "attention.w_k"@[12] == 'k');
    assert("attention.k_bias"@.len() == 16 && "attention.k_bias"@[3] == 'e'
        && "attention.k_bias"@[10] == 'k');
    assert("attention.w_v"@.len() == 13 && "attention.w_v"@[0] == 'a'
        && "attention.w_v"@[12] == 'v');
    assert("attention.v_bias"@.len() == 16 && "attention.v_bias"@[3] == 'e'
        && "attention.v_bias"@[10] == 'v');
    assert("attention.w_o"@.len() == 13 && "attention.w_o"@[0] == 'a'
        && "attention.w_o"@[12] == 'o');
    assert("attention.o_bias"@.len() == 16 && "attention.o_bias"@[3] == 'e'
        && "attention.o_bias"@[10] == 'o');
    assert("ffn_norm.weight"@.len() == 15);
    assert("ffn_norm.bias"@.len() == 13 && "ffn_norm.bias"@[0] == 'f'
        && "ffn_norm.bias"@[3] == '_');
    assert("ffn.w_up"@.len() == 8);
    assert("ffn.up_bias"@.len() == 11);
    assert("ffn.w_down"@.len() == 10);
    assert("ffn.down_bias"@.len() == 13 && "ffn.down_bias"@[0] == 'f'
        && "ffn.down_bias"@[3] == '.');
}

/// The names under which a layer of the text encoder takes its weights.
pub proof fn lemma_roberta_layer_names<T: Scalar>(layer: RoBERTaLayer<T>)
    ensures
        layer.field("attention.w_q"@) == Some(layer.w_q@),
        layer.field("attention.q_bias"@) == Some(layer.q_bias@),
        layer.field("attention.w_k"@) == Some(layer.w_k@),
        layer.field("attention.k_bias"@) == Some(layer.k_bias@),
        layer.field("attention.w_v"@) == Some(layer.w_v@),
        layer.field("attention.v_bias"@) == Some(layer.v_bias@),
        layer.field("attention.w_o"@) == Some(layer.w_o@),
        layer.field("attention.o_bias"@) == Some(layer.o_bias@),
        layer.field("attn_norm.weight"@) == Some(layer.attn_ln_weight@),
        layer.field("attn_norm.bias"@) == Some(layer.attn_ln_bias@),
        layer.field("ffn.w_up"@) == Some(layer.w_up@),
        layer.field("ffn.up_bias"@) == Some(layer.up_bias@),
        layer.field("ffn.w_down"@) == Some(layer.w_down@),
        layer.field("ffn.down_bias"@) == Some(layer.down_bias@),
        layer.field("ffn_norm.weight"@) == Some(layer.ffn_ln_weight@),
        layer.field("ffn_norm.bias"@) == Some(layer.ffn_ln_bias@),
{
    reveal_strlit("attention.w_q");
    reveal_strlit("attention.q_bias");
    reveal_strlit("attention.w_k");
    reveal_strlit("attention.k_bias");
    reveal_strlit("attention.w_v");
    reveal_strlit("attention.v_bias");
    reveal_strlit("attention.w_o");
    reveal_strlit("attention.o_bias");
    reveal_strlit("attn_norm.weight");
    reveal_strlit("attn_norm.bias");
    reveal_strlit("ffn.w_up");
    reveal_strlit("ffn.up_bias");
    reveal_strlit("ffn.w_down");
    reveal_strlit("ffn.down_bias");
    reveal_strlit("ffn_norm.weight");
    reveal_strlit("ffn_norm.bias");
    assert("attention.w_q"@.len() == 13 && "attention.w_q"@[0] == 'a'
        && "attention.w_q"@[12] == 'q');
    assert("attention.q_bias"@.len() == 16 && "attention.q_bias"@[3] == 'e'
        && "attention.q_bias"@[10] == 'q');
    assert("attention.w_k"@.len() == 13 && "attention.w_k"@[0] == 'a'
        && "attention.w_k"@[12] == 'k');
    assert("attention.k_bias"@.len() == 16 && "attention.k_bias"@[3] == 'e'
        && "attention.k_bias"@[10] == 'k');
    assert("attention.w_v"@.len() == 13 && "attention.w_v"@[0] == 'a'
        && "attention.w_v"@[12] == 'v');
    assert("attention.v_bias"@.len() == 16 && "attention.v_bias"@[3] == 'e'
        && "attention.v_bias"@[10] == 'v');
    assert("attention.w_o"@.len() == 13 && "attention.w_o"@[0] == 'a'
        && "attention.w_o"@[12] == 'o');
    assert("attention.o_bias"@.len() == 16 && "attention.o_bias"@[3] == 'e'
        && "attention.o_bias"@[10] == 'o');
    assert("attn_norm.weight"@.len() == 16 && "attn_norm.weight"@[3] == 'n');
    assert("attn_norm.bias"@.len() == 14);
    assert("ffn.w_up"@.len() == 8);
    assert("ffn.up_bias"@.len() == 11);
    assert("ffn.w_down"@.len() == 10);
    assert("ffn.down_bias"@.len() == 13 && "ffn.down_bias"@[0] == 'f'
        && "ffn.down_bias"@[3] == '.');
    assert("ffn_norm.weight"@.len() == 15);
    assert("ffn_norm.bias"@.len() == 13 && "ffn_norm.bias"@[0] == 'f'
        && "ffn_norm.bias"@[3] == '_');
}

/// The names under which a block of the delta tokenizer takes its weights;
/// queries, keys and values come fused, in this order.
pub proof fn lemma_deltatok_block_names<T: Scalar>(block: DeltaTokBlock<T>)
    ensures
        block.field("attn.in_proj_weight"@) == Some(block.w_q@ + block.w_k@ + block.w_v@),
        block.field("attn.in_proj_bias"@) == Some(block.q_bias@ + block.k_bias@ + block.v_bias@),
        block.field("norm1.weight"@) == Some(block.norm1_w@),
        block.field("norm1.bias"@) == Some(block.norm1_b@),
        block.field("norm2.weight"@) == Some(block.norm2_w@),
        block.field("norm2.bias"@) == Some(block.norm2_b@),
        block.field("attn.out_proj.weight"@) == Some(block.w_o@),
        block.field("attn.out_proj.bias"@) == Some(block.o_bias@),
        block.field("mlp_gate.weight"@) == Some(block.mlp_gate_w@),
        block.field("mlp_gate.bias"@) == Some(block.mlp_gate_b@),
        block.field("mlp_up.weight"@) == Some(block.mlp_up_w@),
        block.field("mlp_up.bias"@) == Some(block.mlp_up_b@),
        block.field("mlp_down.weight"@) == Some(block.mlp_down_w@),
        block.field("mlp_down.bias"@) == Some(block.mlp_down_b@),
        block.field("scale1"@) == Some(block.scale1@),
        block.field("scale2"@) == Some(block.scale2@),
{
    reveal_strlit("attn.in_proj_weight");
    reveal_strlit("attn.in_proj_bias");
    reveal_strlit("norm1.weight");
    reveal_strlit("norm1.bias");
    reveal_strlit("norm2.weight");
    reveal_strlit("norm2.bias");
    reveal_strlit("attn.out_proj.weight");
    reveal_strlit("attn.out_proj.bias");
    reveal_strlit("mlp_gate.weight");
    reveal_strlit("mlp_gate.bias");
    reveal_strlit("mlp_up.weight");
    reveal_strlit("mlp_up.bias");
    reveal_strlit("mlp_down.weight");
    reveal_strlit("mlp_down.bias");
    reveal_strlit("scale1");
    reveal_strlit("scale2");
    assert("attn.in_proj_weight"@.len() == 19);
    assert("attn.in_proj_bias"@.len() == 17);
    assert("norm1.weight"@.len() == 12 && "norm1.weight"@[4] == '1');
    assert("norm1.bias"@.len() == 10 && "norm1.bias"@[4] == '1');
    assert("norm2.weight"@.len() == 12 && "norm2.weight"@[4] == '2');
    assert("norm2.bias"@.len() == 10 && "norm2.bias"@[4] == '2');
    assert("attn.out_proj.weight"@.len() == 20);
    assert("attn.out_proj.bias"@.len() == 18);
    assert("mlp_gate.weight"@.len() == 15 && "mlp_gate.weight"@[4] == 'g');
    assert("mlp_gate.bias"@.len() == 13 && "mlp_gate.bias"@[4] == 'g');
    assert("mlp_up.weight"@.len() == 13 && "mlp_up.weight"@[4] == 'u');
    assert("mlp_up.bias"@.len() == 11);
    assert("mlp_down.weight"@.len() == 15 && "mlp_down.weight"@[4] == 'd');
    assert("mlp_down.bias"@.len() == 13 && "mlp_down.bias"@[4] == 'd');
    assert("scale1"@.len() == 6 && "scale1"@[5] == '1');
    assert("scale2"@.len() == 6 && "scale2"@[5] == '2');
}

/// The names under which a block of the code world model takes its weights.
pub proof fn lemma_code_block_names<T: Scalar>(block: TransformerBlock<T>)
    ensures
        block.field("norm1.weight"@) == Some(block.norm1.weight@),
        block.field("norm1.bias"@) == Some(block.norm1.bias@),
        block.field("attn.in_proj_weight"@) == Some(block.attn_in_proj.weight@),
        block.field("attn.in_proj_bias"@) == Some(block.attn_in_proj.bias@),
        block.field("attn.out_proj.weight"@) == Some(block.attn_out_proj.weight@),
        block.field("attn.out_proj.bias"@) == Some(block.attn_out_proj.bias@),
        block.field("norm2.weight"@) == Some(block.norm2.weight@),
        block.field("norm2.bias"@) == Some(block.norm2.bias@),
        block.field("mlp.0.weight"@) == Some(block.mlp_up.weight@),
        block.field("mlp.0.bias"@) == Some(block.mlp_up.bias@),
        block.field("mlp.3.weight"@) == Some(block.mlp_down.weight@),
        block.field("mlp.3.bias"@) == Some(block.mlp_down.bias@),
{
    reveal_strlit("norm1.weight");
    reveal_strlit("norm1.bias");
    reveal_strlit("attn.in_proj_weight");
    reveal_strlit("attn.in_proj_bias");
    reveal_strlit("attn.out_proj.weight");
    reveal_strlit("attn.out_proj.bias");
    reveal_strlit("norm2.weight");
    reveal_strlit("norm2.bias");
    reveal_strlit("mlp.0.weight");
    reveal_strlit("mlp.0.bias");
    reveal_strlit("mlp.3.weight");
    reveal_strlit("mlp.3.bias");
    assert("norm1.weight"@.len() == 12 && "norm1.weight"@[0] == 'n' && "norm1.weight"@[4] == '1');
    assert("norm1.bias"@.len() == 10 && "norm1.bias"@[0] == 'n' && "norm1.bias"@[4] == '1');
    assert("attn.in_proj_weight"@.len() == 19);
    assert("attn.in_proj_bias"@.len() == 17);
    assert("attn.out_proj.weight"@.len() == 20);
    assert("attn.out_proj.bias"@.len() == 18);
    assert("norm2.weight"@.len() == 12 && "norm2.weight"@[0] == 'n' && "norm2.weight"@[4] == '2');
    assert("norm2.bias"@.len() == 10 && "norm2.bias"@[0] == 'n' && "norm2.bias"@[4] == '2');
    assert("mlp.0.weight"@.len() == 12 && "mlp.0.weight"@[0] == 'm' && "mlp.0.weight"@[4] == '0');
    assert("mlp.0.bias"@.len() == 10 && "mlp.0.bias"@[0] == 'm' && "mlp.0.bias"@[4] == '0');
    assert("mlp.3.weight"@.len() == 12 && "mlp.3.weight"@[0] == 'm' && "mlp.3.weight"@[4] == '3');
    assert("mlp.3.bias"@.len() == 10 && "mlp.3.bias"@[0] == 'm' && "mlp.3.bias"@[4] == '3');
}

/// The names under which a conditioned layer takes its weights.
pub proof fn lemma_adaln_names<T: Scalar>(layer: AdaLNTransformerLayer<T>)
    ensures
        layer.field("adaLN_modulation.1.weight"@) == Some(layer.adaln_weight@),
        layer.field("adaLN_modulation.1.bias"@) == Some(layer.adaln_bias@),
        layer.field("attn.to_qkv.weight"@) == Some(layer.to_qkv@),
        layer.field("attn.to_out.0.weight"@) == Some(layer.attn_out_weight@),
        layer.field("attn.to_out.0.bias"@) == Some(layer.attn_out_bias@),
        layer.field("attn.norm.weight"@) == Some(layer.attn_norm_weight@),
        layer.field("attn.norm.bias"@) == Some(layer.attn_norm_bias@),
        layer.field("mlp.net.0.weight"@) == Some(layer.mlp_norm_weight@),
        layer.field("mlp.net.0.bias"@) == Some(layer.mlp_norm_bias@),
        layer.field("mlp.net.1.weight"@) == Some(layer.mlp_up_weight@),
        layer.field("mlp.net.1.bias"@) == Some(layer.mlp_up_bias@),
        layer.field("mlp.net.4.weight"@) == Some(layer.mlp_down_weight@),
        layer.field("mlp.net.4.bias"@) == Some(layer.mlp_down_bias@),
{
    reveal_strlit("adaLN_modulation.1.weight");
    reveal_strlit("adaLN_modulation.1.bias");
    reveal_strlit("attn.to_qkv.weight");
    reveal_strlit("attn.to_out.0.weight");
    reveal_strlit("attn.to_out.0.bias");
    reveal_strlit("attn.norm.weight");
    reveal_strlit("attn.norm.bias");
    reveal_strlit("mlp.net.0.weight");
    reveal_strlit("mlp.net.0.bias");
    reveal_strlit("mlp.net.1.weight");
    reveal_strlit("mlp.net.1.bias");
    reveal_strlit("mlp.net.4.weight");
    reveal_strlit("mlp.net.4.bias");
    assert("adaLN_modulation.1.weight"@.len() == 25);
    assert("adaLN_modulation.1.bias"@.len() == 23);
    assert("attn.to_qkv.weight"@.len() == 18 && "attn.to_qkv.weight"@[8] == 'q');
    assert("attn.to_out.0.weight"@.len() == 20);
    assert("attn.to_out.0.bias"@.len() == 18 && "attn.to_out.0.bias"@[8] == 'o');
    assert("attn.norm.weight"@.len() == 16 && "attn.norm.weight"@[0] == 'a');
    assert("attn.norm.bias"@.len() == 14 && "attn.norm.bias"@[0] == 'a');
    assert("mlp.net.0.weight"@.len() == 16 && "mlp.net.0.weight"@[0] == 'm'
        && "mlp.net.0.weight"@[8] == '0');
    assert("mlp.net.0.bias"@.len() == 14 && "mlp.net.0.bias"@[0] == 'm'
        && "mlp.net.0.bias"@[8] == '0');
    assert("mlp.net.1.weight"@.len() == 16 && "mlp.net.1.weight"@[0] == 'm'
        && "mlp.net.1.weight"@[8] == '1');
    assert("mlp.net.1.bias"@.len() == 14 && "mlp.net.1.bias"@[0] == 'm'
        && "mlp.net.1.bias"@[8] == '1');
    assert("mlp.net.4.weight"@.len() == 16 && "mlp.net.4.weight"@[0] == 'm'
        && "mlp.net.4.weight"@[8] == '4');
    assert("mlp.net.4.bias"@.len() == 14 && "mlp.net.4.bias"@[0] == 'm'
        && "mlp.net.4.bias"@[8] == '4');
}

/// The names under which the vision transformer takes its own weights.
pub proof fn lemma_vit_names<T: Scalar>(model: ViTModel<T>)
    ensures
        ViTModel::<T>::slot("patch_proj"@) == Some(Slot::Top("patch_proj"@)),
        model.weight(Slot::Top("patch_proj"@)) == Some(model.patch_proj@),
        ViTModel::<T>::slot("patch_proj_bias"@) == Some(Slot::Top("patch_proj_bias"@)),
        model.weight(Slot::Top("patch_proj_bias"@)) == Some(model.patch_proj_bias@),
        ViTModel::<T>::slot("cls_token"@) == Some(Slot::Top("cls_token"@)),
        model.weight(Slot::Top("cls_token"@)) == Some(model.cls_token@),
        ViTModel::<T>::slot("pos_embed"@) == Some(Slot::Top("pos_embed"@)),
        model.weight(Slot::Top("pos_embed"@)) == Some(model.pos_embed@),
        ViTModel::<T>::slot("norm.weight"@) == Some(Slot::Top("norm.weight"@)),
        model.weight(Slot::Top("norm.weight"@)) == Some(model.final_norm_weight@),
        ViTModel::<T>::slot("norm.bias"@) == Some(Slot::Top("norm.bias"@)),
        model.weight(Slot::Top("norm.bias"@)) == Some(model.final_norm_bias@),
        ViTModel::<T>::slot("classifier.weight"@) == Some(Slot::Top("classifier.weight"@)),
        model.weight(Slot::Top("classifier.weight"@)) == vit::optional(model.classifier_head),
        ViTModel::<T>::slot("classifier.bias"@) == Some(Slot::Top("classifier.bias"@)),
        model.weight(Slot::Top("classifier.bias"@)) == vit::optional(model.classifier_bias),
{
    reveal_strlit("patch_proj");
    reveal_strlit("patch_proj_bias");
    reveal_strlit("cls_token");
    reveal_strlit("pos_embed");
    reveal_strlit("norm.weight");
    reveal_strlit("norm.bias");
    reveal_strlit("classifier.weight");
    reveal_strlit("classifier.bias");
    assert("patch_proj"@.len() == 10);
    assert("patch_proj_bias"@.len() == 15 && "patch_proj_bias"@[0] == 'p');
    assert("cls_token"@.len() == 9 && "cls_token"@[0] == 'c');
    assert("pos_embed"@.len() == 9 && "pos_embed"@[0] == 'p');
    assert("norm.weight"@.len() == 11);
    assert("norm.bias"@.len() == 9 && "norm.bias"@[0] == 'n');
    assert("classifier.weight"@.len() == 17);
    assert("classifier.bias"@.len() == 15 && "classifier.bias"@[0] == 'c');
}

/// The names under which the text encoder takes its own weights.
pub proof fn lemma_roberta_names<T: Scalar>(model: RoBERTaEncoder<T>)
    ensures
        RoBERTaEncoder::<T>::slot("embeddings.word"@) == Some(Slot::Top("embeddings.word"@)),
        model.weight(Slot::Top("embeddings.word"@)) == Some(model.embeddings.word@),
        RoBERTaEncoder::<T>::slot("embeddings.position"@)
            == Some(Slot::Top("embeddings.position"@)),
        model.weight(Slot::Top("embeddings.position"@)) == Some(model.embeddings.position@),
        RoBERTaEncoder::<T>::slot("embeddings.token_type"@)
            == Some(Slot::Top("embeddings.token_type"@)),
        model.weight(Slot::Top("embeddings.token_type"@)) == Some(model.embeddings.token_type@),
        RoBERTaEncoder::<T>::slot("embeddings.ln.weight"@)
            == Some(Slot::Top("embeddings.ln.weight"@)),
        model.weight(Slot::Top("embeddings.ln.weight"@)) == Some(model.embeddings.ln_weight@),
        RoBERTaEncoder::<T>::slot("embeddings.ln.bias"@) == Some(Slot::Top("embeddings.ln.bias"@)),
        model.weight(Slot::Top("embeddings.ln.bias"@)) == Some(model.embeddings.ln_bias@),
{
    reveal_strlit("embeddings.word");
    reveal_strlit("embeddings.position");
    reveal_strlit("embeddings.token_type");
    reveal_strlit("embeddings.ln.weight");
    reveal_strlit("embeddings.ln.bias");
    assert("embeddings.word"@.len() == 15);
    assert("embeddings.position"@.len() == 19);
    assert("embeddings.token_type"@.len() == 21);
    assert("embeddings.ln.weight"@.len() == 20);
    assert("embeddings.ln.bias"@.len() == 18);
}

/// The names under which the delta tokenizer takes its own weights.
pub proof fn lemma_deltatok_names<T: Scalar>(model: CodeDeltaTokHead<T>)
    ensures
        CodeDeltaTokHead::<T>::slot("z_embed"@) == Some(Slot::Top("z_embed"@)),
        model.weight(Slot::Top("z_embed"@)) == Some(model.z_embed@),
        CodeDeltaTokHead::<T>::slot("pos_prev"@) == Some(Slot::Top("pos_prev"@)),
        model.weight(Slot::Top("pos_prev"@)) == Some(model.pos_prev@),
        CodeDeltaTokHead::<T>::slot("pos_next"@) == Some(Slot::Top("pos_next"@)),
        model.weight(Slot::Top("pos_next"@)) == Some(model.pos_next@),
        CodeDeltaTokHead::<T>::slot("pos_z"@) == Some(Slot::Top("pos_z"@)),
        model.weight(Slot::Top("pos_z"@)) == Some(model.pos_z@),
        CodeDeltaTokHead::<T>::slot("encoder_norm.weight"@)
            == Some(Slot::Top("encoder_norm.weight"@)),
        model.weight(Slot::Top("encoder_norm.weight"@)) == Some(model.enc_norm_w@),
        CodeDeltaTokHead::<T>::slot("encoder_norm.bias"@) == Some(Slot::Top("encoder_norm.bias"@)),
        model.weight(Slot::Top("encoder_norm.bias"@)) == Some(model.enc_norm_b@),
        CodeDeltaTokHead::<T>::slot("decoder_norm.weight"@)
            == Some(Slot::Top("decoder_norm.weight"@)),
        model.weight(Slot::Top("decoder_norm.weight"@)) == Some(model.dec_norm_w@),
        CodeDeltaTokHead::<T>::slot("decoder_norm.bias"@) == Some(Slot::Top("decoder_norm.bias"@)),
        model.weight(Slot::Top("decoder_norm.bias"@)) == Some(model.dec_norm_b@),
        CodeDeltaTokHead::<T>::slot("out_proj.weight"@) == Some(Slot::Top("out_proj.weight"@)),
        model.weight(Slot::Top("out_proj.weight"@)) == Some(model.out_proj_w@),
        CodeDeltaTokHead::<T>::slot("out_proj.bias"@) == Some(Slot::Top("out_proj.bias"@)),
        model.weight(Slot::Top("out_proj.bias"@)) == Some(model.out_proj_b@),
{
    reveal_strlit("z_embed");
    reveal_strlit("pos_prev");
    reveal_strlit("pos_next");
    reveal_strlit("pos_z");
    reveal_strlit("encoder_norm.weight");
    reveal_strlit("encoder_norm.bias");
    reveal_strlit("decoder_norm.weight");
    reveal_strlit("decoder_norm.bias");
    reveal_strlit("out_proj.weight");
    reveal_strlit("out_proj.bias");
    assert("z_embed"@.len() == 7);
    assert("pos_prev"@.len() == 8 && "pos_prev"@[4] == 'p');
    assert("pos_next"@.len() == 8 && "pos_next"@[4] == 'n');
    assert("pos_z"@.len() == 5);
    assert("encoder_norm.weight"@.len() == 19 && "encoder_norm.weight"@[0] == 'e');
    assert("encoder_norm.bias"@.len() == 17 && "encoder_norm.bias"@[0] == 'e');
    assert("decoder_norm.weight"@.len() == 19 && "decoder_norm.weight"@[0] == 'd');
    assert("decoder_norm.bias"@.len() == 17 && "decoder_norm.bias"@[0] == 'd');
    assert("out_proj.weight"@.len() == 15);
    assert("out_proj.bias"@.len() == 13);
}

/// The names under which the language model takes its own weights. A head of
/// its own is taken where the embeddings are not tied.
pub proof fn lemma_causal_lm_names<T: Scalar>(model: CausalLM<T>)
    ensures
        CausalLM::<T>::slot("embed_tokens.weight"@) == Some(Slot::Top("embed_tokens.weight"@)),
        CausalLM::<T>::slot("norm.weight"@) == Some(Slot::Top("norm.weight"@)),
        CausalLM::<T>::slot("lm_head.weight"@) == Some(Slot::Top("lm_head.weight"@)),
        model.weight(Slot::Top("embed_tokens.weight"@)) == Some(model.embed_tokens@),
        model.weight(Slot::Top("norm.weight"@)) == Some(model.final_norm_weight@),
        model.config.architecture.tie_word_embeddings ==> model.weight(
            Slot::Top("lm_head.weight"@),
        ) is None,
        !model.config.architecture.tie_word_embeddings ==> model.weight(
            Slot::Top("lm_head.weight"@),
        ) == Some(
            match model.lm_head_weight {
                Some(w) => w@,
                None => Seq::empty(),
            },
        ),
{
    reveal_strlit("embed_tokens.weight");
    reveal_strlit("norm.weight");
    reveal_strlit("lm_head.weight");
    assert("embed_tokens.weight"@.len() == 19);
    assert("norm.weight"@.len() == 11);
    assert("lm_head.weight"@.len() == 14);
}

/// The names under which the code world model takes its own weights.
pub proof fn lemma_code_wm_names<T: Scalar>(model: CodeWorldModel<T>)
    ensures
        code_wm::route("state_encoder.embedding.weight"@)
            == Some(CodeSlot::Own("state_encoder.embedding.weight"@)),
        model.weight(CodeSlot::Own("state_encoder.embedding.weight"@))
            == Some(model.token_embedding@),
        code_wm::route("state_encoder.cls_token"@)
            == Some(CodeSlot::Own("state_encoder.cls_token"@)),
        model.weight(CodeSlot::Own("state_encoder.cls_token"@)) == Some(model.cls_token@),
        code_wm::route("state_encoder.pos_enc.pe"@)
            == Some(CodeSlot::Own("state_encoder.pos_enc.pe"@)),
        model.weight(CodeSlot::Own("state_encoder.pos_enc.pe"@)) == Some(model.pos_enc@),
        code_wm::route("state_encoder.norm.weight"@)
            == Some(CodeSlot::Own("state_encoder.norm.weight"@)),
        model.weight(CodeSlot::Own("state_encoder.norm.weight"@))
            == Some(model.encoder_final_norm.weight@),
        code_wm::route("state_encoder.norm.bias"@)
            == Some(CodeSlot::Own("state_encoder.norm.bias"@)),
        model.weight(CodeSlot::Own("state_encoder.norm.bias"@))
            == Some(model.encoder_final_norm.bias@),
        code_wm::route("action_encoder.net.0.weight"@)
            == Some(CodeSlot::Own("action_encoder.net.0.weight"@)),
        model.weight(CodeSlot::Own("action_encoder.net.0.weight"@))
            == Some(model.action_fc1.weight@),
        code_wm::route("action_encoder.net.0.bias"@)
            == Some(CodeSlot::Own("action_encoder.net.0.bias"@)),
        model.weight(CodeSlot::Own("action_encoder.net.0.bias"@)) == Some(model.action_fc1.bias@),
        code_wm::route("action_encoder.net.2.weight"@)
            == Some(CodeSlot::Own("action_encoder.net.2.weight"@)),
        model.weight(CodeSlot::Own("action_encoder.net.2.weight"@))
            == Some(model.action_fc2.weight@),
        code_wm::route("action_encoder.net.2.bias"@)
            == Some(CodeSlot::Own("action_encoder.net.2.bias"@)),
        model.weight(CodeSlot::Own("action_encoder.net.2.bias"@)) == Some(model.action_fc2.bias@),
        code_wm::route("predictor.norm.weight"@) == Some(CodeSlot::Own("predictor.norm.weight"@)),
        model.weight(CodeSlot::Own("predictor.norm.weight"@))
            == Some(model.predictor_final_norm.weight@),
        code_wm::route("predictor.norm.bias"@) == Some(CodeSlot::Own("predictor.norm.bias"@)),
        model.weight(CodeSlot::Own("predictor.norm.bias"@))
            == Some(model.predictor_final_norm.bias@),
{
    reveal_strlit("state_encoder.embedding.weight");
    reveal_strlit("state_encoder.cls_token");
    reveal_strlit("state_encoder.pos_enc.pe");
    reveal_strlit("state_encoder.norm.weight");
    reveal_strlit("state_encoder.norm.bias");
    reveal_strlit("action_encoder.net.0.weight");
    reveal_strlit("action_encoder.net.0.bias");
    reveal_strlit("action_encoder.net.2.weight");
    reveal_strlit("action_encoder.net.2.bias");
    reveal_strlit("predictor.norm.weight");
    reveal_strlit("predictor.norm.bias");
    assert("state_encoder.embedding.weight"@.len() == 30);
    assert("state_encoder.cls_token"@.len() == 23 && "state_encoder.cls_token"@[14] == 'c');
    assert("state_encoder.pos_enc.pe"@.len() == 24);
    assert("state_encoder.norm.weight"@.len() == 25 && "state_encoder.norm.weight"@[0] == 's');
    assert("state_encoder.norm.bias"@.len() == 23 && "state_encoder.norm.bias"@[14] == 'n');
    assert("action_encoder.net.0.weight"@.len() == 27 && "action_encoder.net.0.weight"@[19] == '0');
    assert("action_encoder.net.0.bias"@.len() == 25 && "action_encoder.net.0.bias"@[0] == 'a'
        && "action_encoder.net.0.bias"@[19] == '0');
    assert("action_encoder.net.2.weight"@.len() == 27 && "action_encoder.net.2.weight"@[19] == '2');
    assert("action_encoder.net.2.bias"@.len() == 25 && "action_encoder.net.2.bias"@[0] == 'a'
        && "action_encoder.net.2.bias"@[19] == '2');
    assert("predictor.norm.weight"@.len() == 21);
    assert("predictor.norm.bias"@.len() == 19);
}

/// The names under which the latent world model takes its own weights.
pub proof fn lemma_lewm_names<T: Scalar>(model: LeWorldModel<T>)
    ensures
        model.weight(LeWMSlot::Own("predictor.pos_embedding"@)) == Some(model.predictor_pos_embed@),
        model.weight(LeWMSlot::Own("predictor.transformer.norm.weight"@))
            == Some(model.predictor_norm_weight@),
        model.weight(LeWMSlot::Own("predictor.transformer.norm.bias"@))
            == Some(model.predictor_norm_bias@),
        model.weight(LeWMSlot::Own("predictor.transformer.input_proj.weight"@))
            == Some(model.input_proj_weight@),
        model.weight(LeWMSlot::Own("predictor.transformer.input_proj.bias"@))
            == Some(model.input_proj_bias@),
        model.weight(LeWMSlot::Own("predictor.transformer.cond_proj.weight"@))
            == Some(model.cond_proj_weight@),
        model.weight(LeWMSlot::Own("predictor.transformer.cond_proj.bias"@))
            == Some(model.cond_proj_bias@),
        model.weight(LeWMSlot::Own("action_encoder.patch_embed.weight"@))
            == Some(model.action_conv_weight@),
        model.weight(LeWMSlot::Own("action_encoder.patch_embed.bias"@))
            == Some(model.action_conv_bias@),
        model.weight(LeWMSlot::Own("action_encoder.embed.0.weight"@))
            == Some(model.action_mlp1_weight@),
        model.weight(LeWMSlot::Own("action_encoder.embed.0.bias"@))
            == Some(model.action_mlp1_bias@),
        model.weight(LeWMSlot::Own("action_encoder.embed.2.weight"@))
            == Some(model.action_mlp2_weight@),
        model.weight(LeWMSlot::Own("action_encoder.embed.2.bias"@))
            == Some(model.action_mlp2_bias@),
        model.weight(LeWMSlot::Hybrid("meta_token"@)) == Some(model.encoder.meta_token@),
        model.weight(LeWMSlot::Hybrid("proj.0.weight"@)) == Some(model.encoder.enc_proj_weight@),
        model.weight(LeWMSlot::Hybrid("proj.0.bias"@)) == Some(model.encoder.enc_proj_bias@),
{
    reveal_strlit("predictor.pos_embedding");
    reveal_strlit("predictor.transformer.norm.weight");
    reveal_strlit("predictor.transformer.norm.bias");
    reveal_strlit("predictor.transformer.input_proj.weight");
    reveal_strlit("predictor.transformer.input_proj.bias");
    reveal_strlit("predictor.transformer.cond_proj.weight");
    reveal_strlit("predictor.transformer.cond_proj.bias");
    reveal_strlit("action_encoder.patch_embed.weight");
    reveal_strlit("action_encoder.patch_embed.bias");
    reveal_strlit("action_encoder.embed.0.weight");
    reveal_strlit("action_encoder.embed.0.bias");
    reveal_strlit("action_encoder.embed.2.weight");
    reveal_strlit("action_encoder.embed.2.bias");
    reveal_strlit("meta_token");
    reveal_strlit("proj.0.weight");
    reveal_strlit("proj.0.bias");
    assert("predictor.pos_embedding"@.len() == 23);
    assert("predictor.transformer.norm.weight"@.len() == 33
        && "predictor.transformer.norm.weight"@[0] == 'p');
    assert("predictor.transformer.norm.bias"@.len() == 31
        && "predictor.transformer.norm.bias"@[0] == 'p');
    assert("predictor.transformer.input_proj.weight"@.len() == 39);
    assert("predictor.transformer.input_proj.bias"@.len() == 37);
    assert("predictor.transformer.cond_proj.weight"@.len() == 38);
    assert("predictor.transformer.cond_proj.bias"@.len() == 36);
    assert("action_encoder.patch_embed.weight"@.len() == 33
        && "action_encoder.patch_embed.weight"@[0] == 'a');
    assert("action_encoder.patch_embed.bias"@.len() == 31
        && "action_encoder.patch_embed.bias"@[0] == 'a');
    assert("action_encoder.embed.0.weight"@.len() == 29
        && "action_encoder.embed.0.weight"@[21] == '0');
    assert("action_encoder.embed.0.bias"@.len() == 27 && "action_encoder.embed.0.bias"@[21] == '0');
    assert("action_encoder.embed.2.weight"@.len() == 29
        && "action_encoder.embed.2.weight"@[21] == '2');
    assert("action_encoder.embed.2.bias"@.len() == 27 && "action_encoder.embed.2.bias"@[21] == '2');
    assert("meta_token"@.len() == 10);
    assert("proj.0.weight"@.len() == 13);
    assert("proj.0.bias"@.len() == 11);
}

/// Those names lead to the weights themselves.
pub proof fn lemma_lewm_own_routes()
    ensures
        lewm_weights::route("predictor.pos_embedding"@)
            == Route::To(LeWMSlot::Own("predictor.pos_embedding"@)),
        lewm_weights::route("predictor.transformer.norm.weight"@)
            == Route::To(LeWMSlot::Own("predictor.transformer.norm.weight"@)),
        lewm_weights::route("predictor.transformer.norm.bias"@)
            == Route::To(LeWMSlot::Own("predictor.transformer.norm.bias"@)),
        lewm_weights::route("predictor.transformer.input_proj.weight"@)
            == Route::To(LeWMSlot::Own("predictor.transformer.input_proj.weight"@)),
        lewm_weights::route("predictor.transformer.input_proj.bias"@)
            == Route::To(LeWMSlot::Own("predictor.transformer.input_proj.bias"@)),
        lewm_weights::route("predictor.transformer.cond_proj.weight"@)
            == Route::To(LeWMSlot::Own("predictor.transformer.cond_proj.weight"@)),
        lewm_weights::route("predictor.transformer.cond_proj.bias"@)
            == Route::To(LeWMSlot::Own("predictor.transformer.cond_proj.bias"@)),
        lewm_weights::route("action_encoder.patch_embed.weight"@)
            == Route::To(LeWMSlot::Own("action_encoder.patch_embed.weight"@)),
        lewm_weights::route("action_encoder.patch_embed.bias"@)
            == Route::To(LeWMSlot::Own("action_encoder.patch_embed.bias"@)),
        lewm_weights::route("action_encoder.embed.0.weight"@)
            == Route::To(LeWMSlot::Own("action_encoder.embed.0.weight"@)),
        lewm_weights::route("action_encoder.embed.0.bias"@)
            == Route::To(LeWMSlot::Own("action_encoder.embed.0.bias"@)),
        lewm_weights::route("action_encoder.embed.2.weight"@)
            == Route::To(LeWMSlot::Own("action_encoder.embed.2.weight"@)),
        lewm_weights::route("action_encoder.embed.2.bias"@)
            == Route::To(LeWMSlot::Own("action_encoder.embed.2.bias"@)),
{
    reveal_strlit("encoder.");
    reveal_strlit("predictor.pos_embedding");
    reveal_strlit("predictor.transformer.norm.weight");
    reveal_strlit("predictor.transformer.norm.bias");
    reveal_strlit("predictor.transformer.input_proj.weight");
    reveal_strlit("predictor.transformer.input_proj.bias");
    reveal_strlit("predictor.transformer.cond_proj.weight");
    reveal_strlit("predictor.transformer.cond_proj.bias");
    reveal_strlit("action_encoder.patch_embed.weight");
    reveal_strlit("action_encoder.patch_embed.bias");
    reveal_strlit("action_encoder.embed.0.weight");
    reveal_strlit("action_encoder.embed.0.bias");
    reveal_strlit("action_encoder.embed.2.weight");
    reveal_strlit("action_encoder.embed.2.bias");
    assert("predictor.pos_embedding"@[0] == 'p');
    assert("predictor.transformer.norm.weight"@[0] == 'p');
    assert("predictor.transformer.norm.bias"@[0] == 'p');
    assert("predictor.transformer.input_proj.weight"@[0] == 'p');
    assert("predictor.transformer.input_proj.bias"@[0] == 'p');
    assert("predictor.transformer.cond_proj.weight"@[0] == 'p');
    assert("predictor.transformer.cond_proj.bias"@[0] == 'p');
    assert("action_encoder.patch_embed.weight"@[0] == 'a');
    assert("action_encoder.patch_embed.bias"@[0] == 'a');
    assert("action_encoder.embed.0.weight"@[0] == 'a');
    assert("action_encoder.embed.0.bias"@[0] == 'a');
    assert("action_encoder.embed.2.weight"@[0] == 'a');
    assert("action_encoder.embed.2.bias"@[0] == 'a');
    assert("encoder."@[0] == 'e');
}

/// The names that an encoder checkpoint gives the weights of a layer.
pub proof fn lemma_lewm_encoder_fields()
    ensures
        lewm_weights::encoder_field("attention.attention.query.weight"@) == Some("attention.w_q"@),
        lewm_weights::encoder_field("attention.attention.query.bias"@) == Some("attention.q_bias"@),
        lewm_weights::encoder_field("attention.attention.key.weight"@) == Some("attention.w_k"@),
        lewm_weights::encoder_field("attention.attention.key.bias"@) == Some("attention.k_bias"@),
        lewm_weights::encoder_field("attention.attention.value.weight"@) == Some("attention.w_v"@),
        lewm_weights::encoder_field("attention.attention.value.bias"@) == Some("attention.v_bias"@),
        lewm_weights::encoder_field("attention.output.dense.weight"@) == Some("attention.w_o"@),
        lewm_weights::encoder_field("attention.output.dense.bias"@) == Some("attention.o_bias"@),
        lewm_weights::encoder_field("intermediate.dense.weight"@) == Some("ffn.w_up"@),
        lewm_weights::encoder_field("intermediate.dense.bias"@) == Some("ffn.up_bias"@),
        lewm_weights::encoder_field("output.dense.weight"@) == Some("ffn.w_down"@),
        lewm_weights::encoder_field("output.dense.bias"@) == Some("ffn.down_bias"@),
        lewm_weights::encoder_field("layernorm_before.weight"@) == Some("attn_norm.weight"@),
        lewm_weights::encoder_field("norm1.weight"@) == Some("attn_norm.weight"@),
        lewm_weights::encoder_field("layernorm_before.bias"@) == Some("attn_norm.bias"@),
        lewm_weights::encoder_field("norm1.bias"@) == Some("attn_norm.bias"@),
        lewm_weights::encoder_field("layernorm_after.weight"@) == Some("ffn_norm.weight"@),
        lewm_weights::encoder_field("norm2.weight"@) == Some("ffn_norm.weight"@),
        lewm_weights::encoder_field("layernorm_after.bias"@) == Some("ffn_norm.bias"@),
        lewm_weights::encoder_field("norm2.bias"@) == Some("ffn_norm.bias"@),
{
    reveal_strlit("attention.attention.query.weight");
    reveal_strlit("attention.attention.query.bias");
    reveal_strlit("attention.attention.key.weight");
    reveal_strlit("attention.attention.key.bias");
    reveal_strlit("attention.attention.value.weight");
    reveal_strlit("attention.attention.value.bias");
    reveal_strlit("attention.output.dense.weight");
    reveal_strlit("attention.output.dense.bias");
    reveal_strlit("intermediate.dense.weight");
    reveal_strlit("intermediate.dense.bias");
    reveal_strlit("output.dense.weight");
    reveal_strlit("output.dense.bias");
    reveal_strlit("layernorm_before.weight");
    reveal_strlit("norm1.weight");
    reveal_strlit("layernorm_before.bias");
    reveal_strlit("norm1.bias");
    reveal_strlit("layernorm_after.weight");
    reveal_strlit("norm2.weight");
    reveal_strlit("layernorm_after.bias");
    reveal_strlit("norm2.bias");
    assert("attention.attention.query.weight"@.len() == 32
        && "attention.attention.query.weight"@[20] == 'q');
    assert("attention.attention.query.bias"@.len() == 30
        && "attention.attention.query.bias"@[20] == 'q');
    assert("attention.attention.key.weight"@.len() == 30
        && "attention.attention.key.weight"@[20] == 'k');
    assert("attention.attention.key.bias"@.len() == 28);
    assert("attention.attention.value.weight"@.len() == 32
        && "attention.attention.value.weight"@[20] == 'v');
    assert("attention.attention.value.bias"@.len() == 30
        && "attention.attention.value.bias"@[20] == 'v');
    assert("attention.output.dense.weight"@.len() == 29);
    assert("attention.output.dense.bias"@.len() == 27);
    assert("intermediate.dense.weight"@.len() == 25);
    assert("intermediate.dense.bias"@.len() == 23 && "intermediate.dense.bias"@[0] == 'i');
    assert("output.dense.weight"@.len() == 19);
    assert("output.dense.bias"@.len() == 17);
    assert("layernorm_before.weight"@.len() == 23 && "layernorm_before.weight"@[0] == 'l');
    assert("norm1.weight"@.len() == 12 && "norm1.weight"@[4] == '1');
    assert("layernorm_before.bias"@.len() == 21);
    assert("norm1.bias"@.len() == 10 && "norm1.bias"@[4] == '1');
    assert("layernorm_after.weight"@.len() == 22);
    assert("norm2.weight"@.len() == 12 && "norm2.weight"@[4] == '2');
    assert("layernorm_after.bias"@.len() == 20);
    assert("norm2.bias"@.len() == 10 && "norm2.bias"@[4] == '2');
}

/// The names that an encoder checkpoint gives the weights around the layers.
pub proof fn lemma_lewm_encoder_routes()
    ensures
        lewm_weights::encoder_route("embeddings.patch_embeddings.projection.weight"@)
            == Route::To(LeWMSlot::Encoder(Slot::Top("patch_proj"@))),
        lewm_weights::encoder_route("embeddings.patch_embeddings.projection.bias"@)
            == Route::To(LeWMSlot::Encoder(Slot::Top("patch_proj_bias"@))),
        lewm_weights::encoder_route("embeddings.cls_token"@)
            == Route::To(LeWMSlot::Encoder(Slot::Top("cls_token"@))),
        lewm_weights::encoder_route("embeddings.position_embeddings"@)
            == Route::To(LeWMSlot::Encoder(Slot::Top("pos_embed"@))),
        lewm_weights::encoder_route("layernorm.weight"@)
            == Route::To(LeWMSlot::Encoder(Slot::Top("norm.weight"@))),
        lewm_weights::encoder_route("layernorm.bias"@)
            == Route::To(LeWMSlot::Encoder(Slot::Top("norm.bias"@))),
{
    reveal_strlit("embeddings.patch_embeddings.projection.weight");
    reveal_strlit("embeddings.patch_embeddings.projection.bias");
    reveal_strlit("embeddings.cls_token");
    reveal_strlit("embeddings.position_embeddings");
    reveal_strlit("layernorm.weight");
    reveal_strlit("layernorm.bias");
    assert("embeddings.patch_embeddings.projection.weight"@.len() == 45);
    assert("embeddings.patch_embeddings.projection.bias"@.len() == 43);
    assert("embeddings.cls_token"@.len() == 20);
    assert("embeddings.position_embeddings"@.len() == 30);
    assert("layernorm.weight"@.len() == 16);
    assert("layernorm.bias"@.len() == 14);
}

/// The names under which the image side takes its weights.
pub proof fn lemma_clip_vision_names<T: Scalar>(model: CLIPModel<T>)
    ensures
        model.vision_weight("patch_proj"@) == Some(model.vision_model.patch_proj@),
        model.vision_weight("cls_token"@) == Some(model.vision_model.cls_token@),
        model.vision_weight("pos_embed"@) == Some(model.vision_model.pos_embed@),
        model.vision_weight("pre_norm.weight"@) == Some(model.vision_pre_norm_weight@),
        model.vision_weight("pre_norm.bias"@) == Some(model.vision_pre_norm_bias@),
        model.vision_weight("norm.weight"@) == Some(model.vision_model.final_norm_weight@),
        model.vision_weight("norm.bias"@) == Some(model.vision_model.final_norm_bias@),
{
    reveal_strlit("patch_proj");
    reveal_strlit("cls_token");
    reveal_strlit("pos_embed");
    reveal_strlit("pre_norm.weight");
    reveal_strlit("pre_norm.bias");
    reveal_strlit("norm.weight");
    reveal_strlit("norm.bias");
    assert("patch_proj"@.len() == 10);
    assert("cls_token"@.len() == 9 && "cls_token"@[0] == 'c');
    assert("pos_embed"@.len() == 9 && "pos_embed"@[0] == 'p');
    assert("pre_norm.weight"@.len() == 15);
    assert("pre_norm.bias"@.len() == 13);
    assert("norm.weight"@.len() == 11);
    assert("norm.bias"@.len() == 9 && "norm.bias"@[0] == 'n');
}

/// The names under which the text side takes its weights.
pub proof fn lemma_clip_text_names<T: Scalar>(model: CLIPModel<T>)
    ensures
        model.text_weight("embeddings"@) == Some(model.text_embeddings@),
        model.text_weight("pos_embed"@) == Some(model.text_pos_embed@),
        model.text_weight("norm.weight"@) == Some(model.text_norm_weight@),
        model.text_weight("norm.bias"@) == Some(model.text_norm_bias@),
{
    reveal_strlit("embeddings");
    reveal_strlit("pos_embed");
    reveal_strlit("norm.weight");
    reveal_strlit("norm.bias");
    assert("embeddings"@.len() == 10);
    assert("pos_embed"@.len() == 9 && "pos_embed"@[0] == 'p');
    assert("norm.weight"@.len() == 11);
    assert("norm.bias"@.len() == 9 && "norm.bias"@[0] == 'n');
}

/// Which tensor of a Qwen checkpoint an attention layer takes for each weight.
pub proof fn lemma_qwen_gqa_tensors<T: Scalar, M: Math<T>, Q: PackedLinear<T>>(
    c: HybridConfig,
    map: TensorMap<T>,
    i: int,
    layer: HybridLayer<T, Q>,
)
    requires
        c.kind(i) == LayerKind::Gqa,
        weights::qwen_layer_loaded::<T, M, Q>(c, map, i, layer),
    ensures
        layer is Gqa,
        ({
            let l = layer->Gqa_0;
            let p = (if weights::under_model(map) {
                "model."@
            } else {
                Seq::empty()
            }) + "layers."@ + text::decimal_digits(i as nat);
            &&& l.attn_norm_weight@ == map.at(p + ".input_layernorm.weight"@).data@
            &&& l.w_q@ == map.at(p + ".self_attn.q_proj.weight"@).data@
            &&& l.w_k@ == map.at(p + ".self_attn.k_proj.weight"@).data@
            &&& l.w_v@ == map.at(p + ".self_attn.v_proj.weight"@).data@
            &&& l.w_o@ == map.at(p + ".self_attn.o_proj.weight"@).data@
            &&& l.q_norm_weight@ == map.at(p + ".self_attn.q_norm.weight"@).data@
            &&& l.k_norm_weight@ == map.at(p + ".self_attn.k_norm.weight"@).data@
            &&& l.ffn_norm_weight@ == map.at(p + ".post_attention_layernorm.weight"@).data@
            &&& l.ffn_gate_weight@ == map.at(p + ".mlp.gate_proj.weight"@).data@
            &&& l.ffn_up_weight@ == map.at(p + ".mlp.up_proj.weight"@).data@
            &&& l.ffn_down_weight@ == map.at(p + ".mlp.down_proj.weight"@).data@
            &&& l.hidden_size == c.hidden_size
            &&& l.num_q_heads == c.num_attention_heads
            &&& l.num_kv_heads == c.num_kv_heads
            &&& l.head_dim == c.gqa_head_dim
            &&& l.norm_eps == scalar::binary64_of::<T, M>(c.norm_eps.bits)
            &&& l.intermediate_size == c.intermediate_size
        }),
{
    let fields = weights::qwen_gqa_fields();
    assert(fields[0] == ".input_layernorm.weight"@);
    assert(fields[1] == ".self_attn.q_proj.weight"@);
    assert(fields[2] == ".self_attn.k_proj.weight"@);
    assert(fields[3] == ".self_attn.v_proj.weight"@);
    assert(fields[4] == ".self_attn.o_proj.weight"@);
    assert(fields[5] == ".self_attn.q_norm.weight"@);
    assert(fields[6] == ".self_attn.k_norm.weight"@);
    assert(fields[7] == ".post_attention_layernorm.weight"@);
    assert(fields[8] == ".mlp.gate_proj.weight"@);
    assert(fields[9] == ".mlp.up_proj.weight"@);
    assert(fields[10] == ".mlp.down_proj.weight"@);
}

/// Which tensor of a Qwen checkpoint a DeltaNet layer takes for each weight.
pub proof fn lemma_qwen_deltanet_tensors<T: Scalar, M: Math<T>, Q: PackedLinear<T>>(
    c: HybridConfig,
    map: TensorMap<T>,
    i: int,
    layer: HybridLayer<T, Q>,
)
    requires
        c.kind(i) != LayerKind::Gqa,
        weights::qwen_layer_loaded::<T, M, Q>(c, map, i, layer),
    ensures
        layer is DeltaNet,
        ({
            let l = layer->DeltaNet_0;
            let p = (if weights::under_model(map) {
                "model."@
            } else {
                Seq::empty()
            }) + "layers."@ + text::decimal_digits(i as nat);
            &&& l.attn_norm_weight@ == map.at(p + ".input_layernorm.weight"@).data@
            &&& l.qkv_weight@ == map.at(p + ".self_attn.qkv_proj.weight"@).data@
            &&& l.gate_proj_weight@ == map.at(p + ".self_attn.gate_proj.weight"@).data@
            &&& l.beta_proj_weight@ == map.at(p + ".self_attn.beta_proj.weight"@).data@
            &&& l.alpha_proj_weight@ == map.at(p + ".self_attn.alpha_proj.weight"@).data@
            &&& l.q_conv_weight@ == map.at(p + ".self_attn.q_conv1d.weight"@).data@
            &&& l.q_conv_bias@ == map.at(p + ".self_attn.q_conv1d.bias"@).data@
            &&& l.k_conv_weight@ == map.at(p + ".self_attn.k_conv1d.weight"@).data@
            &&& l.k_conv_bias@ == map.at(p + ".self_attn.k_conv1d.bias"@).data@
            &&& l.v_conv_weight@ == map.at(p + ".self_attn.v_conv1d.weight"@).data@
            &&& l.v_conv_bias@ == map.at(p + ".self_attn.v_conv1d.bias"@).data@
            &&& l.o_norm_weight@ == map.at(p + ".self_attn.o_norm.weight"@).data@
            &&& l.o_proj_weight@ == map.at(p + ".self_attn.o_proj.weight"@).data@
            &&& l.ffn_norm_weight@ == map.at(p + ".post_attention_layernorm.weight"@).data@
            &&& l.ffn_gate_weight@ == map.at(p + ".mlp.gate_proj.weight"@).data@
            &&& l.ffn_up_weight@ == map.at(p + ".mlp.up_proj.weight"@).data@
            &&& l.ffn_down_weight@ == map.at(p + ".mlp.down_proj.weight"@).data@
            &&& l.hidden_size == c.hidden_size
            &&& l.num_heads == c.deltanet_num_heads
            &&& l.head_dim == c.deltanet_head_dim
            &&& l.intermediate_size == c.intermediate_size
            &&& l.conv_kernel == c.deltanet_conv_kernel
            &&& l.norm_eps == scalar::binary64_of::<T, M>(c.norm_eps.bits)
        }),
{
    let fields = weights::qwen_deltanet_fields();
    assert(fields[0] == ".input_layernorm.weight"@);
    assert(fields[1] == ".self_attn.qkv_proj.weight"@);
    assert(fields[2] == ".self_attn.gate_proj.weight"@);
    assert(fields[3] == ".self_attn.beta_proj.weight"@);
    assert(fields[4] == ".self_attn.alpha_proj.weight"@);
    assert(fields[5] == ".self_attn.q_conv1d.weight"@);
    assert(fields[6] == ".self_attn.q_conv1d.bias"@);
    assert(fields[7] == ".self_attn.k_conv1d.weight"@);
    assert(fields[8] == ".self_attn.k_conv1d.bias"@);
    assert(fields[9] == ".self_attn.v_conv1d.weight"@);
    assert(fields[10] == ".self_attn.v_conv1d.bias"@);
    assert(fields[11] == ".self_attn.o_norm.weight"@);
    assert(fields[12] == ".self_attn.o_proj.weight"@);
    assert(fields[13] == ".post_attention_layernorm.weight"@);
    assert(fields[14] == ".mlp.gate_proj.weight"@);
    assert(fields[15] == ".mlp.up_proj.weight"@);
    assert(fields[16] == ".mlp.down_proj.weight"@);
}

/// Which tensor of an LFM checkpoint an attention layer takes for each weight.
pub proof fn lemma_lfm_gqa_tensors<T: Scalar, M: Math<T>, Q: PackedLinear<T>>(
    c: HybridConfig,
    map: TensorMap<T>,
    i: int,
    layer: HybridLayer<T, Q>,
)
    requires
        c.kind(i) != LayerKind::LivConv,
        weights::lfm_layer_loaded::<T, M, Q>(c, map, i, layer),
    ensures
        layer is Gqa,
        ({
            let l = layer->Gqa_0;
            let p = "blk."@ + text::decimal_digits(i as nat);
            &&& l.attn_norm_weight@ == map.at(p + ".attn_norm.weight"@).data@
            &&& l.w_q@ == map.at(p + ".attn_q.weight"@).data@
            &&& l.w_k@ == map.at(p + ".attn_k.weight"@).data@
            &&& l.w_v@ == map.at(p + ".attn_v.weight"@).data@
            &&& l.w_o@ == map.at(p + ".attn_output.weight"@).data@
            &&& l.q_norm_weight@ == map.at(p + ".attn_q_norm.weight"@).data@
            &&& l.k_norm_weight@ == map.at(p + ".attn_k_norm.weight"@).data@
            &&& l.ffn_norm_weight@ == map.at(p + ".ffn_norm.weight"@).data@
            &&& l.ffn_gate_weight@ == map.at(p + ".ffn_gate.weight"@).data@
            &&& l.ffn_up_weight@ == map.at(p + ".ffn_up.weight"@).data@
            &&& l.ffn_down_weight@ == map.at(p + ".ffn_down.weight"@).data@
            &&& l.hidden_size == c.hidden_size
            &&& l.num_q_heads == c.num_attention_heads
            &&& l.num_kv_heads == c.num_kv_heads
            &&& l.head_dim == c.gqa_head_dim
            &&& l.norm_eps == scalar::binary64_of::<T, M>(c.norm_eps.bits)
            &&& l.intermediate_size == (map.at(p + ".ffn_gate.weight"@).data@.len()
                / c.hidden_size as nat) as usize
        }),
{
    let fields = weights::lfm_gqa_fields();
    assert(fields[0] == ".attn_norm.weight"@);
    assert(fields[1] == ".attn_q.weight"@);
    assert(fields[2] == ".attn_k.weight"@);
    assert(fields[3] == ".attn_v.weight"@);
    assert(fields[4] == ".attn_output.weight"@);
    assert(fields[5] == ".attn_q_norm.weight"@);
    assert(fields[6] == ".attn_k_norm.weight"@);
    assert(fields[7] == ".ffn_norm.weight"@);
    assert(fields[8] == ".ffn_gate.weight"@);
    assert(fields[9] == ".ffn_up.weight"@);
    assert(fields[10] == ".ffn_down.weight"@);
}

/// Which tensor of an LFM checkpoint a short-convolution layer takes for each
/// weight.
pub proof fn lemma_lfm_conv_tensors<T: Scalar, M: Math<T>, Q: PackedLinear<T>>(
    c: HybridConfig,
    map: TensorMap<T>,
    i: int,
    layer: HybridLayer<T, Q>,
)
    requires
        c.kind(i) == LayerKind::LivConv,
        weights::lfm_layer_loaded::<T, M, Q>(c, map, i, layer),
    ensures
        layer is LivConv,
        ({
            let l = layer->LivConv_0;
            let p = "blk."@ + text::decimal_digits(i as nat);
            &&& l.attn_norm_weight@ == map.at(p + ".attn_norm.weight"@).data@
            &&& l.input_proj_weight@ == map.at(p + ".shortconv.in_proj.weight"@).data@
            &&& l.conv_weight@ == map.at(p + ".shortconv.conv.weight"@).data@
            &&& l.output_proj_weight@ == map.at(p + ".shortconv.out_proj.weight"@).data@
            &&& l.ffn_norm_weight@ == map.at(p + ".ffn_norm.weight"@).data@
            &&& l.ffn_gate_weight@ == map.at(p + ".ffn_gate.weight"@).data@
            &&& l.ffn_up_weight@ == map.at(p + ".ffn_up.weight"@).data@
            &&& l.ffn_down_weight@ == map.at(p + ".ffn_down.weight"@).data@
            &&& l.hidden_size == c.hidden_size
            &&& l.inner_size == c.livconv_inner_size
            &&& l.conv_kernel_size == c.livconv_kernel_size
            &&& l.norm_eps == scalar::binary64_of::<T, M>(c.norm_eps.bits)
            &&& l.intermediate_size == (map.at(p + ".ffn_gate.weight"@).data@.len()
                / c.hidden_size as nat) as usize
        }),
{
    let fields = weights::lfm_conv_fields();
    assert(fields[0] == ".attn_norm.weight"@);
    assert(fields[1] == ".shortconv.in_proj.weight"@);
    assert(fields[2] == ".shortconv.conv.weight"@);
    assert(fields[3] == ".shortconv.out_proj.weight"@);
    assert(fields[4] == ".ffn_norm.weight"@);
    assert(fields[5] == ".ffn_gate.weight"@);
    assert(fields[6] == ".ffn_up.weight"@);
    assert(fields[7] == ".ffn_down.weight"@);
}

/// Behind its prefix, a name leads to a weight of the encoder, of the projector or
/// of the projection of predictions. Linear layers stand at places zero, three
/// and four of a projection.
pub proof fn lemma_lewm_prefixes(rest: Seq<char>)
    ensures
        lewm_weights::route("encoder."@ + rest) == lewm_weights::encoder_route(rest),
        lewm_weights::route("projector."@ + rest) == match lewm_weights::head_part(rest) {
            Some((i, bias)) => Route::To(LeWMSlot::Projector(i, bias)),
            None => Route::Nowhere,
        },
        lewm_weights::route("pred_proj."@ + rest) == match lewm_weights::head_part(rest) {
            Some((i, bias)) => Route::To(LeWMSlot::PredProj(i, bias)),
            None => Route::Nowhere,
        },
        lewm_weights::head_layer(0) == Some(0int),
        lewm_weights::head_layer(3) == Some(1int),
        lewm_weights::head_layer(4) == Some(2int),
        forall|k: usize|
            k != 0 && k != 3 && k != 4 ==> #[trigger] lewm_weights::head_layer(k) is None,
{
    reveal_strlit("encoder.");
    reveal_strlit("projector.");
    reveal_strlit("pred_proj.");
    reveal_strlit("predictor.transformer.layers.");
    let e = "encoder."@ + rest;
    let p = "projector."@ + rest;
    let q = "pred_proj."@ + rest;
    assert(e.skip(8) =~= rest);
    assert(p.skip(10) =~= rest);
    assert(q.skip(10) =~= rest);
    assert("encoder."@[0] == 'e' && p[0] == 'p' && q[0] == 'p');
    assert(p[2] == 'o' && q[2] == 'e' && "projector."@[2] == 'o' && "pred_proj."@[2] == 'e');
    assert(p[4] == 'e' && q[4] == '_' && "predictor.transformer.layers."@[4] == 'i');
    assert(!"encoder."@.is_prefix_of(p) && !"encoder."@.is_prefix_of(q));
    assert(!"predictor.transformer.layers."@.is_prefix_of(p));
    assert(!"predictor.transformer.layers."@.is_prefix_of(q));
    assert(!"projector."@.is_prefix_of(q));
    assert("encoder."@.is_prefix_of(e) && "projector."@.is_prefix_of(p));
    assert("pred_proj."@.is_prefix_of(q));
    reveal_strlit("predictor.pos_embedding");
    reveal_strlit("predictor.transformer.norm.weight");
    reveal_strlit("predictor.transformer.norm.bias");
    reveal_strlit("predictor.transformer.input_proj.weight");
    reveal_strlit("predictor.transformer.input_proj.bias");
    reveal_strlit("predictor.transformer.cond_proj.weight");
    reveal_strlit("predictor.transformer.cond_proj.bias");
    reveal_strlit("action_encoder.patch_embed.weight");
    reveal_strlit("action_encoder.patch_embed.bias");
    reveal_strlit("action_encoder.embed.0.weight");
    reveal_strlit("action_encoder.embed.0.bias");
    reveal_strlit("action_encoder.embed.2.weight");
    reveal_strlit("action_encoder.embed.2.bias");
    assert("predictor.pos_embedding"@[2] == 'e' && "predictor.pos_embedding"@[4] == 'i');
    assert("predictor.transformer.norm.weight"@[2] == 'e'
        && "predictor.transformer.norm.weight"@[4] == 'i');
    assert("predictor.transformer.norm.bias"@[2] == 'e'
        && "predictor.transformer.norm.bias"@[4] == 'i');
    assert("predictor.transformer.input_proj.weight"@[2] == 'e'
        && "predictor.transformer.input_proj.weight"@[4] == 'i');
    assert("predictor.transformer.input_proj.bias"@[2] == 'e'
        && "predictor.transformer.input_proj.bias"@[4] == 'i');
    assert("predictor.transformer.cond_proj.weight"@[2] == 'e'
        && "predictor.transformer.cond_proj.weight"@[4] == 'i');
    assert("predictor.transformer.cond_proj.bias"@[2] == 'e'
        && "predictor.transformer.cond_proj.bias"@[4] == 'i');
    assert("action_encoder.patch_embed.weight"@[0] == 'a');
    assert("action_encoder.patch_embed.bias"@[0] == 'a');
    assert("action_encoder.embed.0.weight"@[0] == 'a');
    assert("action_encoder.embed.0.bias"@[0] == 'a');
    assert("action_encoder.embed.2.weight"@[0] == 'a');
    assert("action_encoder.embed.2.bias"@[0] == 'a');
}

/// The weights of an encoder layer lead to that layer.
pub proof fn lemma_lewm_encoder_layers(i: nat, name: Seq<char>, field: Seq<char>)
    requires
        i <= usize::MAX,
        lewm_weights::encoder_field(name) == Some(field),
    ensures
        lewm_weights::encoder_layer_route(
            "encoder.layer."@ + (text::decimal_digits(i) + seq!['.'] + name),
        ) == Route::To(LeWMSlot::Encoder(Slot::Layer("layers"@, i as int, field))),
{
    let rest = text::decimal_digits(i) + seq!['.'] + name;
    let key = "encoder.layer."@ + rest;
    reveal_strlit("encoder.layer.");
    assert(key.skip(14) =~= rest);
    assert("encoder.layer."@.is_prefix_of(key));
    text::lemma_dotted_key_roundtrip(i, name);
}

/// A weight or bias of a projection leads to the linear layer at its place, with
/// or without `net.` before it.
pub proof fn lemma_lewm_head_parts(place: nat, layer: int)
    requires
        place <= usize::MAX,
        lewm_weights::head_layer(place as usize) == Some(layer),
        text::decimal_digits(place).len() > 0,
        text::decimal_digits(place)[0] != 'n',
    ensures
        lewm_weights::head_part(text::decimal_digits(place) + seq!['.'] + "weight"@) == Some(
            (layer, false),
        ),
        lewm_weights::head_part(text::decimal_digits(place) + seq!['.'] + "bias"@) == Some(
            (layer, true),
        ),
        lewm_weights::head_part(
            "net."@ + (text::decimal_digits(place) + seq!['.'] + "weight"@),
        ) == Some((layer, false)),
{
    reveal_strlit("net.");
    reveal_strlit("weight");
    reveal_strlit("bias");
    assert("net."@[0] == 'n');
    assert("weight"@.len() == 6 && "bias"@.len() == 4);
    let w = text::decimal_digits(place) + seq!['.'] + "weight"@;
    let b = text::decimal_digits(place) + seq!['.'] + "bias"@;
    assert(w[0] == text::decimal_digits(place)[0]);
    assert(b[0] == text::decimal_digits(place)[0]);
    assert(!"net."@.is_prefix_of(w));
    assert(!"net."@.is_prefix_of(b));
    assert(("net."@ + w).skip(4) =~= w);
    assert("net."@.is_prefix_of("net."@ + w));
    text::lemma_dotted_key_roundtrip(place, "weight"@);
    text::lemma_dotted_key_roundtrip(place, "bias"@);
}

/// A meta token's tensor sets how many there are: one for each row of the
/// encoder's width. No other tensor changes that.
pub proof fn lemma_lewm_meta_tokens<T: Scalar>(
    model: LeWorldModel<T>,
    route: Route,
    count: nat,
    len: nat,
)
    requires
        model.config.encoder_hidden > 0,
        len == count * model.config.encoder_hidden,
    ensures
        route == Route::To(LeWMSlot::Hybrid("meta_token"@)) ==> model.meta_tokens_after(route, len)
            == count,
        route != Route::To(LeWMSlot::Hybrid("meta_token"@)) ==> model.meta_tokens_after(route, len)
            == model.encoder.num_meta_tokens,
{
    vstd::arithmetic::div_mod::lemma_div_by_multiple(
        count as int,
        model.config.encoder_hidden as int,
    );
}

/// Dimensions are listed in brackets, in order, with a comma between them.
pub proof fn lemma_dims_text(dims: Seq<usize>, n: usize)
    ensures
        tensor_weights::dims_text(Seq::empty()) == "["@ + "]"@,
        tensor_weights::dims_text(dims.push(n)) == tensor_weights::dims_text(dims).drop_last() + (
        if dims.len() == 0 {
            Seq::empty()
        } else {
            ", "@
        }) + text::decimal_digits(n as nat) + "]"@,
{
    reveal_strlit("]");
    lemma_dims_tail(dims, n, 0);
    assert(tensor_weights::dims_text(Seq::empty()) =~= "["@ + "]"@);
    assert(tensor_weights::dims_text(dims).drop_last() =~= "["@ + tensor_weights::dims_tail(
        dims,
        0,
    ));
    assert(tensor_weights::dims_text(dims.push(n)) =~= tensor_weights::dims_text(dims).drop_last()
        + (if dims.len() == 0 {
        Seq::empty()
    } else {
        ", "@
    }) + text::decimal_digits(n as nat) + "]"@);
}

proof fn lemma_dims_tail(dims: Seq<usize>, n: usize, from: nat)
    requires
        from <= dims.len(),
    ensures
        tensor_weights::dims_tail(dims.push(n), from) == tensor_weights::dims_tail(dims, from) + (
        if dims.len() == 0 {
            Seq::empty()
        } else {
            ", "@
        }) + text::decimal_digits(n as nat),
    decreases dims.len() - from,
{
    let more = dims.push(n);
    if from == dims.len() {
        assert(tensor_weights::dims_tail(more, from + 1) =~= Seq::empty());
    } else {
        lemma_dims_tail(dims, n, from + 1);
    }
    assert(tensor_weights::dims_tail(more, from) =~= tensor_weights::dims_tail(dims, from) + (
    if dims.len() == 0 {
        Seq::empty()
    } else {
        ", "@
    }) + text::decimal_digits(n as nat));
}

} // verus!
