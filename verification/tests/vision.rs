use synapse_inference::buffer::{AlignedBuffer, RawTensor};
use synapse_inference::models::vision::clip::{parse_clip_config_json, CLIPConfig, CLIPModel};
use synapse_inference::models::vision::code_wm::{
    gelu_erf, CodeWorldModel, CodeWorldModelConfig, GeluKind,
};
use synapse_inference::models::vision::adaln::LeWMBuffers;
use synapse_inference::models::vision::jepa::{JEPAConfig, JEPAModel};
use synapse_inference::models::vision::lewm::{LeWMConfig, LeWorldModel};
use synapse_inference::models::vision::vit::{ViTConfig, ViTModel};
use synapse_inference::models::vision::world_model::{WorldModel, WorldModelConfig};
use synapse_inference::patch::patch_embed;
use synapse_inference::scalar::Math;
use synapse_inference::weights::{KeyMapping, TensorMap};

/// Single-precision arithmetic.
struct F32Math;

impl Math<f32> for F32Math {
    fn exp(x: f32) -> f32 {
        x.exp()
    }
    fn ln(x: f32) -> f32 {
        x.ln()
    }
    fn sqrt(x: f32) -> f32 {
        x.sqrt()
    }
    fn gelu(x: f32) -> f32 {
        0.5 * x * (1.0 + (0.797_884_56 * (x + 0.044715 * x * x * x)).tanh())
    }
    fn tanh(x: f32) -> f32 {
        x.tanh()
    }
    fn silu(x: f32) -> f32 {
        x / (1.0 + (-x).exp())
    }
    fn softplus(x: f32) -> f32 {
        if x > 20.0 {
            x
        } else {
            (1.0 + x.exp()).ln()
        }
    }
    fn pow(a: f32, b: f32) -> f32 {
        a.powf(b)
    }
    fn cos(x: f32) -> f32 {
        x.cos()
    }
    fn sin(x: f32) -> f32 {
        x.sin()
    }
    fn dynamic_base(base: u64, factor: u64, head_dim: usize) -> f32 {
        let d = head_dim as f64;
        (f64::from_bits(base) * f64::from_bits(factor).powf(d / (d - 2.0))) as f32
    }
    fn max(a: f32, b: f32) -> f32 {
        a.max(b)
    }
    fn greater(a: f32, b: f32) -> bool {
        a > b
    }
    fn is_finite(x: f32) -> bool {
        x.is_finite()
    }
    fn one() -> f32 {
        1.0
    }
    fn lowest() -> f32 {
        f32::NEG_INFINITY
    }
    fn count(n: usize) -> f32 {
        n as f32
    }
    fn to_count(x: f32) -> usize {
        x as usize
    }
    fn from_binary64(bits: u64) -> f32 {
        f64::from_bits(bits) as f32
    }
}

fn gen_weights(len: usize, seed: u32) -> Vec<f32> {
    (0..len)
        .map(|i| {
            let x = ((i as u32).wrapping_mul(2654435761).wrapping_add(seed)) as f32;
            (x / u32::MAX as f32) * 0.36 - 0.18
        })
        .collect()
}

/// The tensors of a checkpoint with the keys that `target` gives them.
fn mapped(weights: &TensorMap<f32>, target: fn(&str) -> Option<String>) -> KeyMapping {
    let mut mapping = Vec::new();
    let mut unmapped = Vec::new();
    for i in 0..weights.len() {
        let (name, _) = weights.entry(i);
        match target(name) {
            Some(key) => mapping.push((name.to_string(), key)),
            None => unmapped.push(name.to_string()),
        }
    }
    KeyMapping { mapping, unmapped }
}

/// `0.rest` split at its first dot.
fn split_index(s: &str) -> Option<(&str, &str)> {
    s.split_once('.')
}

/// Where a tensor of a HuggingFace ViT or DINOv2 checkpoint goes.
fn vit_target(name: &str) -> Option<String> {
    let name = name.strip_prefix("vit.").unwrap_or(name);
    if let Some(rest) = name.strip_prefix("encoder.layer.") {
        let (i, field) = split_index(rest)?;
        let field = match field {
            "attention.attention.query.weight" => "attention.w_q",
            "attention.attention.query.bias" => "attention.q_bias",
            "attention.attention.key.weight" => "attention.w_k",
            "attention.attention.key.bias" => "attention.k_bias",
            "attention.attention.value.weight" => "attention.w_v",
            "attention.attention.value.bias" => "attention.v_bias",
            "attention.output.dense.weight" => "attention.w_o",
            "attention.output.dense.bias" => "attention.o_bias",
            "intermediate.dense.weight" => "ffn.w_up",
            "intermediate.dense.bias" => "ffn.up_bias",
            "output.dense.weight" => "ffn.w_down",
            "output.dense.bias" => "ffn.down_bias",
            "layernorm_before.weight" | "norm1.weight" => "attn_norm.weight",
            "layernorm_before.bias" | "norm1.bias" => "attn_norm.bias",
            "layernorm_after.weight" | "norm2.weight" => "ffn_norm.weight",
            "layernorm_after.bias" | "norm2.bias" => "ffn_norm.bias",
            _ => return None,
        };
        return Some(format!("layers[{i}].{field}"));
    }
    let key = match name {
        "embeddings.patch_embeddings.projection.weight" => "patch_proj",
        "embeddings.patch_embeddings.projection.bias" => "patch_proj_bias",
        "embeddings.cls_token" => "cls_token",
        "embeddings.position_embeddings" => "pos_embed",
        "layernorm.weight" => "norm.weight",
        "layernorm.bias" => "norm.bias",
        _ => return None,
    };
    Some(key.to_string())
}

/// Where a tensor of a HuggingFace CLIP checkpoint goes.
fn clip_target(name: &str) -> Option<String> {
    for (from, to) in [("vision_model.", "vision"), ("text_model.", "text")] {
        if let Some(rest) = name.strip_prefix(from) {
            if let Some(rest) = rest.strip_prefix("encoder.layers.") {
                let (i, field) = split_index(rest)?;
                let field = match field {
                    "self_attn.q_proj.weight" => "attention.w_q",
                    "self_attn.q_proj.bias" => "attention.q_bias",
                    "self_attn.k_proj.weight" => "attention.w_k",
                    "self_attn.k_proj.bias" => "attention.k_bias",
                    "self_attn.v_proj.weight" => "attention.w_v",
                    "self_attn.v_proj.bias" => "attention.v_bias",
                    "self_attn.out_proj.weight" => "attention.w_o",
                    "self_attn.out_proj.bias" => "attention.o_bias",
                    "mlp.fc1.weight" => "ffn.w_up",
                    "mlp.fc1.bias" => "ffn.up_bias",
                    "mlp.fc2.weight" => "ffn.w_down",
                    "mlp.fc2.bias" => "ffn.down_bias",
                    "layer_norm1.weight" => "attn_norm.weight",
                    "layer_norm1.bias" => "attn_norm.bias",
                    "layer_norm2.weight" => "ffn_norm.weight",
                    "layer_norm2.bias" => "ffn_norm.bias",
                    _ => return None,
                };
                return Some(format!("{to}.layers[{i}].{field}"));
            }
            let key = match rest {
                "embeddings.patch_embedding.weight" => "patch_proj",
                "embeddings.class_embedding" => "cls_token",
                "embeddings.position_embedding.weight" => "pos_embed",
                "embeddings.token_embedding.weight" => "embeddings",
                "pre_layernorm.weight" => "pre_norm.weight",
                "pre_layernorm.bias" => "pre_norm.bias",
                "post_layernorm.weight" | "final_layer_norm.weight" => "norm.weight",
                "post_layernorm.bias" | "final_layer_norm.bias" => "norm.bias",
                _ => return None,
            };
            return Some(format!("{to}.{key}"));
        }
    }
    match name {
        "visual_projection.weight" => Some("vision_proj".to_string()),
        "text_projection.weight" => Some("text_proj".to_string()),
        _ => None,
    }
}

// ── ViT ───────────────────────────────────────────────────────────────

fn test_vit_config() -> ViTConfig {
    ViTConfig {
        image_size: 8,
        patch_size: 4,
        channels: 3,
        hidden_size: 32,
        num_layers: 2,
        num_heads: 4,
        intermediate_size: 64,
        num_classes: 10,
    }
}

fn build_test_vit(cfg: &ViTConfig) -> ViTModel<f32> {
    let h = cfg.hidden_size;
    let patch_dim = cfg.patch_size * cfg.patch_size * cfg.channels;
    let inter = cfg.intermediate_size;
    let seq_len = cfg.seq_len();

    let mut model = ViTModel::from_config(cfg);

    // Set weights directly (bypass weight mapper for unit tests)
    model.patch_proj = AlignedBuffer::from_slice(&gen_weights(h * patch_dim, 1));
    model.cls_token = AlignedBuffer::from_slice(&gen_weights(h, 2));
    model.pos_embed = AlignedBuffer::from_slice(&gen_weights(seq_len * h, 3));
    model.final_norm_weight = AlignedBuffer::from_slice(&vec![1.0f32; h]);

    for (i, layer) in model.layers.iter_mut().enumerate() {
        let s = (i as u32 + 1) * 100;
        layer.attn_norm_weight = AlignedBuffer::from_slice(&vec![1.0f32; h]);
        layer.w_q = AlignedBuffer::from_slice(&gen_weights(h * h, s + 1));
        layer.w_k = AlignedBuffer::from_slice(&gen_weights(h * h, s + 2));
        layer.w_v = AlignedBuffer::from_slice(&gen_weights(h * h, s + 3));
        layer.w_o = AlignedBuffer::from_slice(&gen_weights(h * h, s + 4));
        layer.ffn_norm_weight = AlignedBuffer::from_slice(&vec![1.0f32; h]);
        layer.ffn_up = AlignedBuffer::from_slice(&gen_weights(inter * h, s + 5));
        layer.ffn_down = AlignedBuffer::from_slice(&gen_weights(h * inter, s + 6));
    }

    if cfg.num_classes > 0 {
        model.classifier_head = Some(AlignedBuffer::from_slice(&gen_weights(
            cfg.num_classes * h,
            999,
        )));
    }

    model
}

#[test]
fn test_vit_forward_produces_finite_embeddings() {
    let cfg = test_vit_config();
    let model = build_test_vit(&cfg);

    let image: Vec<f32> = (0..cfg.image_size * cfg.image_size * cfg.channels)
        .map(|i| (i as f32) / 255.0)
        .collect();

    let output = model.forward_image::<F32Math>(&image, cfg.image_size, cfg.image_size);

    // Embeddings should have correct size and be finite
    assert_eq!(output.embeddings.len(), cfg.hidden_size);
    assert!(
        output.embeddings.iter().all(|v| v.is_finite()),
        "ViT forward produced non-finite embeddings"
    );

    // Logits should exist (num_classes > 0) and be finite
    let logits = output
        .logits
        .as_ref()
        .expect("expected logits for classification model");
    assert_eq!(logits.len(), cfg.num_classes);
    assert!(
        logits.iter().all(|v| v.is_finite()),
        "ViT forward produced non-finite logits"
    );
}

#[test]
fn test_vit_patch_embed_shape() {
    let cfg = test_vit_config();
    let h = cfg.hidden_size;
    let patch_dim = cfg.patch_size * cfg.patch_size * cfg.channels;

    let image: Vec<f32> = (0..cfg.image_size * cfg.image_size * cfg.channels)
        .map(|i| (i as f32) / 255.0)
        .collect();

    let projection = gen_weights(h * patch_dim, 42);
    let result = patch_embed(
        &image,
        cfg.image_size,
        cfg.image_size,
        cfg.channels,
        cfg.patch_size,
        &projection,
        h,
    );

    let expected_patches = cfg.num_patches();
    assert_eq!(
        result.len(),
        expected_patches * h,
        "Expected {} patches * {} hidden = {} elements, got {}",
        expected_patches,
        h,
        expected_patches * h,
        result.len()
    );
}

// ── JEPA ──────────────────────────────────────────────────────────────

fn test_jepa_config() -> JEPAConfig {
    JEPAConfig {
        encoder: ViTConfig {
            image_size: 8,
            patch_size: 4,
            channels: 3,
            hidden_size: 32,
            num_layers: 2,
            num_heads: 4,
            intermediate_size: 64,
            num_classes: 0,
        },
        predictor_hidden_size: 16,
        predictor_num_layers: 2,
        predictor_num_heads: 4,
    }
}

fn build_test_jepa(cfg: &JEPAConfig) -> JEPAModel<f32> {
    let enc_h = cfg.encoder.hidden_size;
    let pred_h = cfg.predictor_hidden_size;
    let pred_inter = cfg.predictor_intermediate_size();
    let patch_dim = cfg.encoder.patch_size * cfg.encoder.patch_size * cfg.encoder.channels;
    let enc_seq_len = cfg.encoder.seq_len();

    let mut model = JEPAModel::from_config(cfg);

    // Set encoder weights
    model.encoder.patch_proj = AlignedBuffer::from_slice(&gen_weights(enc_h * patch_dim, 1));
    model.encoder.cls_token = AlignedBuffer::from_slice(&gen_weights(enc_h, 2));
    model.encoder.pos_embed = AlignedBuffer::from_slice(&gen_weights(enc_seq_len * enc_h, 3));
    model.encoder.final_norm_weight = AlignedBuffer::from_slice(&vec![1.0f32; enc_h]);

    for (i, layer) in model.encoder.layers.iter_mut().enumerate() {
        let s = (i as u32 + 1) * 100;
        layer.attn_norm_weight = AlignedBuffer::from_slice(&vec![1.0f32; enc_h]);
        layer.w_q = AlignedBuffer::from_slice(&gen_weights(enc_h * enc_h, s + 1));
        layer.w_k = AlignedBuffer::from_slice(&gen_weights(enc_h * enc_h, s + 2));
        layer.w_v = AlignedBuffer::from_slice(&gen_weights(enc_h * enc_h, s + 3));
        layer.w_o = AlignedBuffer::from_slice(&gen_weights(enc_h * enc_h, s + 4));
        layer.ffn_norm_weight = AlignedBuffer::from_slice(&vec![1.0f32; enc_h]);
        layer.ffn_up = AlignedBuffer::from_slice(&gen_weights(
            pred_inter.max(cfg.encoder.intermediate_size) * enc_h,
            s + 5,
        ));
        layer.ffn_down = AlignedBuffer::from_slice(&gen_weights(
            enc_h * pred_inter.max(cfg.encoder.intermediate_size),
            s + 6,
        ));
    }

    // Fix encoder FFN sizes to match encoder config
    for (i, layer) in model.encoder.layers.iter_mut().enumerate() {
        let s = (i as u32 + 1) * 100;
        let enc_inter = cfg.encoder.intermediate_size;
        layer.ffn_up = AlignedBuffer::from_slice(&gen_weights(enc_inter * enc_h, s + 5));
        layer.ffn_down = AlignedBuffer::from_slice(&gen_weights(enc_h * enc_inter, s + 6));
    }

    // Set predictor weights
    model.predictor_embed_proj = AlignedBuffer::from_slice(&gen_weights(enc_h * pred_h, 500));
    model.predictor_output_proj = AlignedBuffer::from_slice(&gen_weights(pred_h * enc_h, 501));
    model.predictor_norm_weight = AlignedBuffer::from_slice(&vec![1.0f32; pred_h]);

    for (i, layer) in model.predictor_layers.iter_mut().enumerate() {
        let s = (i as u32 + 10) * 200;
        layer.attn_norm_weight = AlignedBuffer::from_slice(&vec![1.0f32; pred_h]);
        layer.w_q = AlignedBuffer::from_slice(&gen_weights(pred_h * pred_h, s + 1));
        layer.w_k = AlignedBuffer::from_slice(&gen_weights(pred_h * pred_h, s + 2));
        layer.w_v = AlignedBuffer::from_slice(&gen_weights(pred_h * pred_h, s + 3));
        layer.w_o = AlignedBuffer::from_slice(&gen_weights(pred_h * pred_h, s + 4));
        layer.ffn_norm_weight = AlignedBuffer::from_slice(&vec![1.0f32; pred_h]);
        layer.ffn_up = AlignedBuffer::from_slice(&gen_weights(pred_inter * pred_h, s + 5));
        layer.ffn_down = AlignedBuffer::from_slice(&gen_weights(pred_h * pred_inter, s + 6));
    }

    model
}

#[test]
fn test_jepa_forward_produces_finite_embeddings() {
    let cfg = test_jepa_config();
    let model = build_test_jepa(&cfg);

    let num_patches = cfg.encoder.num_patches(); // 4 patches (8/4)^2
    let image: Vec<f32> =
        (0..cfg.encoder.image_size * cfg.encoder.image_size * cfg.encoder.channels)
            .map(|i| (i as f32) / 255.0)
            .collect();

    // Context: first 2 patches, target: last 2 patches
    let mut context_mask = vec![false; num_patches];
    let mut target_mask = vec![false; num_patches];
    context_mask[0] = true;
    context_mask[1] = true;
    target_mask[2] = true;
    target_mask[3] = true;

    let output = model.forward::<F32Math>(
        &image,
        cfg.encoder.image_size,
        cfg.encoder.image_size,
        &context_mask,
        &target_mask,
    );

    // Context embeddings: 2 patches * encoder hidden_size
    assert_eq!(
        output.context_embeddings.len(),
        2 * cfg.encoder.hidden_size,
        "Context embeddings should have 2 * encoder_dim elements"
    );
    assert!(
        output.context_embeddings.iter().all(|v| v.is_finite()),
        "JEPA context embeddings contain non-finite values"
    );

    // Predicted embeddings: 2 target patches * encoder hidden_size
    assert_eq!(
        output.predicted_embeddings.len(),
        2 * cfg.encoder.hidden_size,
        "Predicted embeddings should have 2 * encoder_dim elements"
    );
    assert!(
        output.predicted_embeddings.iter().all(|v| v.is_finite()),
        "JEPA predicted embeddings contain non-finite values"
    );
}

#[test]
fn jepa_context_rows_are_those_of_all_patches() {
    let cfg = test_jepa_config();
    let model = build_test_jepa(&cfg);
    let (size, e) = (cfg.encoder.image_size, cfg.encoder.hidden_size);
    let n = cfg.encoder.num_patches();
    let image: Vec<f32> = (0..size * size * cfg.encoder.channels)
        .map(|i| (i % 7) as f32 * 0.1)
        .collect();
    let all = vec![true; n];
    let context: Vec<bool> = (0..n).map(|i| i % 2 == 0).collect();
    let (few, many) = (vec![false; n], vec![true; n]);
    let whole = model.forward::<F32Math>(&image, size, size, &all, &few);
    let part = model.forward::<F32Math>(&image, size, size, &context, &many);
    let rows: Vec<f32> = (0..n)
        .filter(|i| context[*i])
        .flat_map(|i| whole.context_embeddings[i * e..(i + 1) * e].to_vec())
        .collect();
    assert_eq!(part.context_embeddings, rows);
    assert_eq!(part.predicted_embeddings.len(), n * e);
    assert!(whole.predicted_embeddings.is_empty());
}

#[test]
fn test_jepa_load_encoder_weights() {

    let cfg = test_jepa_config();
    let mut model = JEPAModel::from_config(&cfg);
    let enc_h = cfg.encoder.hidden_size;
    let enc_inter = cfg.encoder.intermediate_size;
    let patch_dim = cfg.encoder.patch_size * cfg.encoder.patch_size * cfg.encoder.channels;
    let enc_seq_len = cfg.encoder.seq_len();

    // Build fake weight dict with DINOv2 naming
    let mut weights: TensorMap<f32> = TensorMap::new();

    let rt = |len: usize, seed: u32| -> RawTensor<f32> {
        RawTensor {
            data: AlignedBuffer::from_slice(&gen_weights(len, seed)),
            shape: vec![len],
        }
    };
    let ones = |len: usize| -> RawTensor<f32> {
        RawTensor {
            data: AlignedBuffer::from_slice(&vec![1.0f32; len]),
            shape: vec![len],
        }
    };

    weights.insert(
        "embeddings.patch_embeddings.projection.weight".into(),
        rt(enc_h * patch_dim, 1),
    );
    weights.insert(
        "embeddings.patch_embeddings.projection.bias".into(),
        rt(enc_h, 2),
    );
    weights.insert("embeddings.cls_token".into(), rt(enc_h, 3));
    weights.insert(
        "embeddings.position_embeddings".into(),
        rt(enc_seq_len * enc_h, 4),
    );
    weights.insert("layernorm.weight".into(), ones(enc_h));
    weights.insert("layernorm.bias".into(), rt(enc_h, 6));

    for i in 0..cfg.encoder.num_layers {
        let s = (i as u32 + 1) * 100;
        weights.insert(
            format!("encoder.layer.{i}.attention.attention.query.weight"),
            rt(enc_h * enc_h, s + 1),
        );
        weights.insert(
            format!("encoder.layer.{i}.attention.attention.query.bias"),
            rt(enc_h, s + 2),
        );
        weights.insert(
            format!("encoder.layer.{i}.attention.attention.key.weight"),
            rt(enc_h * enc_h, s + 3),
        );
        weights.insert(
            format!("encoder.layer.{i}.attention.attention.key.bias"),
            rt(enc_h, s + 4),
        );
        weights.insert(
            format!("encoder.layer.{i}.attention.attention.value.weight"),
            rt(enc_h * enc_h, s + 5),
        );
        weights.insert(
            format!("encoder.layer.{i}.attention.attention.value.bias"),
            rt(enc_h, s + 6),
        );
        weights.insert(
            format!("encoder.layer.{i}.attention.output.dense.weight"),
            rt(enc_h * enc_h, s + 7),
        );
        weights.insert(
            format!("encoder.layer.{i}.attention.output.dense.bias"),
            rt(enc_h, s + 8),
        );
        weights.insert(
            format!("encoder.layer.{i}.intermediate.dense.weight"),
            rt(enc_inter * enc_h, s + 9),
        );
        weights.insert(
            format!("encoder.layer.{i}.intermediate.dense.bias"),
            rt(enc_inter, s + 10),
        );
        weights.insert(
            format!("encoder.layer.{i}.output.dense.weight"),
            rt(enc_h * enc_inter, s + 11),
        );
        weights.insert(
            format!("encoder.layer.{i}.output.dense.bias"),
            rt(enc_h, s + 12),
        );
        weights.insert(format!("encoder.layer.{i}.norm1.weight"), ones(enc_h));
        weights.insert(format!("encoder.layer.{i}.norm1.bias"), rt(enc_h, s + 14));
        weights.insert(format!("encoder.layer.{i}.norm2.weight"), ones(enc_h));
        weights.insert(format!("encoder.layer.{i}.norm2.bias"), rt(enc_h, s + 16));
    }

    let mapping = mapped(&weights, vit_target);
    let result = model
        .load_encoder_weights(&weights, mapping)
        .expect("load failed");

    // Verify encoder weights loaded
    assert!(
        !model.encoder.patch_proj.is_empty(),
        "encoder patch_proj should be loaded"
    );
    assert!(
        !model.encoder.cls_token.is_empty(),
        "encoder cls_token should be loaded"
    );
    assert!(
        !model.encoder.pos_embed.is_empty(),
        "encoder pos_embed should be loaded"
    );
    assert!(
        !model.encoder.final_norm_weight.is_empty(),
        "encoder final_norm should be loaded"
    );
    assert!(
        !model.encoder.layers[0].w_q.is_empty(),
        "encoder layer 0 w_q should be loaded"
    );

    // Some keys will be missing (patch_proj_bias is provided but classifier is not expected)
    assert!(
        result.unexpected.is_empty(),
        "Should have no unmapped keys, got: {:?}",
        result.unexpected
    );
}

// ── World model ───────────────────────────────────────────────────────

fn test_world_model_config() -> WorldModelConfig {
    WorldModelConfig {
        encoder: ViTConfig {
            image_size: 8,
            patch_size: 4,
            channels: 3,
            hidden_size: 32,
            num_layers: 2,
            num_heads: 4,
            intermediate_size: 64,
            num_classes: 0,
        },
        latent_dim: 16,
        dynamics_num_layers: 2,
        dynamics_num_heads: 4,
        dynamics_hidden_size: 32,
        action_dim: 4,
    }
}

fn build_test_world_model(cfg: &WorldModelConfig) -> WorldModel<f32> {
    let enc_h = cfg.encoder.hidden_size;
    let enc_inter = cfg.encoder.intermediate_size;
    let dyn_h = cfg.dynamics_hidden_size;
    let dyn_inter = cfg.dynamics_intermediate_size();
    let lat_dim = cfg.latent_dim;
    let act_dim = cfg.action_dim;
    let patch_dim = cfg.encoder.patch_size * cfg.encoder.patch_size * cfg.encoder.channels;
    let enc_seq_len = cfg.encoder.seq_len();

    let mut model = WorldModel::from_config(cfg);

    // Encoder weights
    model.encoder.patch_proj = AlignedBuffer::from_slice(&gen_weights(enc_h * patch_dim, 1));
    model.encoder.cls_token = AlignedBuffer::from_slice(&gen_weights(enc_h, 2));
    model.encoder.pos_embed = AlignedBuffer::from_slice(&gen_weights(enc_seq_len * enc_h, 3));
    model.encoder.final_norm_weight = AlignedBuffer::from_slice(&vec![1.0f32; enc_h]);

    for (i, layer) in model.encoder.layers.iter_mut().enumerate() {
        let s = (i as u32 + 1) * 100;
        layer.attn_norm_weight = AlignedBuffer::from_slice(&vec![1.0f32; enc_h]);
        layer.w_q = AlignedBuffer::from_slice(&gen_weights(enc_h * enc_h, s + 1));
        layer.w_k = AlignedBuffer::from_slice(&gen_weights(enc_h * enc_h, s + 2));
        layer.w_v = AlignedBuffer::from_slice(&gen_weights(enc_h * enc_h, s + 3));
        layer.w_o = AlignedBuffer::from_slice(&gen_weights(enc_h * enc_h, s + 4));
        layer.ffn_norm_weight = AlignedBuffer::from_slice(&vec![1.0f32; enc_h]);
        layer.ffn_up = AlignedBuffer::from_slice(&gen_weights(enc_inter * enc_h, s + 5));
        layer.ffn_down = AlignedBuffer::from_slice(&gen_weights(enc_h * enc_inter, s + 6));
    }

    // State projection: [enc_dim, latent_dim]
    model.state_proj = AlignedBuffer::from_slice(&gen_weights(enc_h * lat_dim, 500));

    // Action embedding: [action_dim, dyn_hidden]
    model.action_embed = AlignedBuffer::from_slice(&gen_weights(act_dim * dyn_h, 501));

    // Output projection: [dyn_hidden, latent_dim]
    model.output_proj = AlignedBuffer::from_slice(&gen_weights(dyn_h * lat_dim, 502));

    // Dynamics norm
    model.dynamics_norm_weight = AlignedBuffer::from_slice(&vec![1.0f32; dyn_h]);

    // Dynamics layers
    for (i, layer) in model.dynamics_layers.iter_mut().enumerate() {
        let s = (i as u32 + 10) * 200;
        layer.attn_norm_weight = AlignedBuffer::from_slice(&vec![1.0f32; dyn_h]);
        layer.w_q = AlignedBuffer::from_slice(&gen_weights(dyn_h * dyn_h, s + 1));
        layer.w_k = AlignedBuffer::from_slice(&gen_weights(dyn_h * dyn_h, s + 2));
        layer.w_v = AlignedBuffer::from_slice(&gen_weights(dyn_h * dyn_h, s + 3));
        layer.w_o = AlignedBuffer::from_slice(&gen_weights(dyn_h * dyn_h, s + 4));
        layer.ffn_norm_weight = AlignedBuffer::from_slice(&vec![1.0f32; dyn_h]);
        layer.ffn_up = AlignedBuffer::from_slice(&gen_weights(dyn_inter * dyn_h, s + 5));
        layer.ffn_down = AlignedBuffer::from_slice(&gen_weights(dyn_h * dyn_inter, s + 6));
    }

    model
}

#[test]
fn test_world_model_encode_produces_latent() {
    let cfg = test_world_model_config();
    let model = build_test_world_model(&cfg);

    let image: Vec<f32> =
        (0..cfg.encoder.image_size * cfg.encoder.image_size * cfg.encoder.channels)
            .map(|i| (i as f32) / 255.0)
            .collect();

    let state = model.encode::<F32Math>(&image, cfg.encoder.image_size, cfg.encoder.image_size);

    assert_eq!(
        state.embedding.len(),
        cfg.latent_dim,
        "Latent state should have latent_dim elements"
    );
    assert!(
        state.embedding.iter().all(|v| v.is_finite()),
        "World model encode produced non-finite latent state"
    );
}

#[test]
fn test_world_model_rollout_correct_length() {
    let cfg = test_world_model_config();
    let model = build_test_world_model(&cfg);

    let image: Vec<f32> =
        (0..cfg.encoder.image_size * cfg.encoder.image_size * cfg.encoder.channels)
            .map(|i| (i as f32) / 255.0)
            .collect();

    let initial = model.encode::<F32Math>(&image, cfg.encoder.image_size, cfg.encoder.image_size);

    // 5 actions → should produce 5 predicted states
    let actions: Vec<Vec<f32>> = (0..5)
        .map(|i| {
            (0..cfg.action_dim)
                .map(|j| ((i * cfg.action_dim + j) as f32) * 0.1)
                .collect()
        })
        .collect();

    let output = model.rollout::<F32Math>(&initial, &actions);

    assert_eq!(
        output.states.len(),
        5,
        "Rollout with 5 actions should produce 5 states"
    );

    // All states should have correct dimension and be finite
    for (i, state) in output.states.iter().enumerate() {
        assert_eq!(
            state.embedding.len(),
            cfg.latent_dim,
            "State {i} should have latent_dim elements"
        );
        assert!(
            state.embedding.iter().all(|v| v.is_finite()),
            "State {i} contains non-finite values"
        );
    }
}

#[test]
fn test_world_model_load_encoder_weights() {

    let cfg = test_world_model_config();
    let mut model = WorldModel::from_config(&cfg);
    let enc_h = cfg.encoder.hidden_size;
    let enc_inter = cfg.encoder.intermediate_size;
    let patch_dim = cfg.encoder.patch_size * cfg.encoder.patch_size * cfg.encoder.channels;
    let enc_seq_len = cfg.encoder.seq_len();

    // Build fake weight dict with ViT naming
    let mut weights: TensorMap<f32> = TensorMap::new();

    let rt = |len: usize, seed: u32| -> RawTensor<f32> {
        RawTensor {
            data: AlignedBuffer::from_slice(&gen_weights(len, seed)),
            shape: vec![len],
        }
    };
    let ones = |len: usize| -> RawTensor<f32> {
        RawTensor {
            data: AlignedBuffer::from_slice(&vec![1.0f32; len]),
            shape: vec![len],
        }
    };

    weights.insert(
        "vit.embeddings.patch_embeddings.projection.weight".into(),
        rt(enc_h * patch_dim, 1),
    );
    weights.insert(
        "vit.embeddings.patch_embeddings.projection.bias".into(),
        rt(enc_h, 2),
    );
    weights.insert("vit.embeddings.cls_token".into(), rt(enc_h, 3));
    weights.insert(
        "vit.embeddings.position_embeddings".into(),
        rt(enc_seq_len * enc_h, 4),
    );
    weights.insert("vit.layernorm.weight".into(), ones(enc_h));
    weights.insert("vit.layernorm.bias".into(), rt(enc_h, 6));

    for i in 0..cfg.encoder.num_layers {
        let s = (i as u32 + 1) * 100;
        weights.insert(
            format!("vit.encoder.layer.{i}.attention.attention.query.weight"),
            rt(enc_h * enc_h, s + 1),
        );
        weights.insert(
            format!("vit.encoder.layer.{i}.attention.attention.query.bias"),
            rt(enc_h, s + 2),
        );
        weights.insert(
            format!("vit.encoder.layer.{i}.attention.attention.key.weight"),
            rt(enc_h * enc_h, s + 3),
        );
        weights.insert(
            format!("vit.encoder.layer.{i}.attention.attention.key.bias"),
            rt(enc_h, s + 4),
        );
        weights.insert(
            format!("vit.encoder.layer.{i}.attention.attention.value.weight"),
            rt(enc_h * enc_h, s + 5),
        );
        weights.insert(
            format!("vit.encoder.layer.{i}.attention.attention.value.bias"),
            rt(enc_h, s + 6),
        );
        weights.insert(
            format!("vit.encoder.layer.{i}.attention.output.dense.weight"),
            rt(enc_h * enc_h, s + 7),
        );
        weights.insert(
            format!("vit.encoder.layer.{i}.attention.output.dense.bias"),
            rt(enc_h, s + 8),
        );
        weights.insert(
            format!("vit.encoder.layer.{i}.intermediate.dense.weight"),
            rt(enc_inter * enc_h, s + 9),
        );
        weights.insert(
            format!("vit.encoder.layer.{i}.intermediate.dense.bias"),
            rt(enc_inter, s + 10),
        );
        weights.insert(
            format!("vit.encoder.layer.{i}.output.dense.weight"),
            rt(enc_h * enc_inter, s + 11),
        );
        weights.insert(
            format!("vit.encoder.layer.{i}.output.dense.bias"),
            rt(enc_h, s + 12),
        );
        weights.insert(
            format!("vit.encoder.layer.{i}.layernorm_before.weight"),
            ones(enc_h),
        );
        weights.insert(
            format!("vit.encoder.layer.{i}.layernorm_before.bias"),
            rt(enc_h, s + 14),
        );
        weights.insert(
            format!("vit.encoder.layer.{i}.layernorm_after.weight"),
            ones(enc_h),
        );
        weights.insert(
            format!("vit.encoder.layer.{i}.layernorm_after.bias"),
            rt(enc_h, s + 16),
        );
    }

    let mapping = mapped(&weights, vit_target);
    let result = model
        .load_encoder_weights(&weights, mapping)
        .expect("load failed");

    // Verify encoder weights loaded
    assert!(
        !model.encoder.patch_proj.is_empty(),
        "encoder patch_proj should be loaded"
    );
    assert!(
        !model.encoder.cls_token.is_empty(),
        "encoder cls_token should be loaded"
    );
    assert!(
        !model.encoder.pos_embed.is_empty(),
        "encoder pos_embed should be loaded"
    );
    assert!(
        !model.encoder.final_norm_weight.is_empty(),
        "encoder final_norm should be loaded"
    );
    assert!(
        !model.encoder.layers[0].w_q.is_empty(),
        "encoder layer 0 w_q should be loaded"
    );

    assert!(
        result.unexpected.is_empty(),
        "Should have no unmapped keys, got: {:?}",
        result.unexpected
    );
}

// ── CLIP ──────────────────────────────────────────────────────────────

fn test_clip_config() -> CLIPConfig {
    CLIPConfig {
        vision: ViTConfig {
            image_size: 8,
            patch_size: 4,
            channels: 3,
            hidden_size: 32,
            num_layers: 2,
            num_heads: 4,
            intermediate_size: 64,
            num_classes: 0,
        },
        text_hidden_size: 32,
        text_num_layers: 2,
        text_num_heads: 4,
        text_intermediate_size: 64,
        text_max_position: 16,
        vocab_size: 50,
        embed_dim: 16,
    }
}

fn build_test_clip(cfg: &CLIPConfig) -> CLIPModel<f32> {
    let vh = cfg.vision.hidden_size;
    let th = cfg.text_hidden_size;
    let ed = cfg.embed_dim;
    let v_inter = cfg.vision.intermediate_size;
    let t_inter = cfg.text_intermediate_size;
    let patch_dim = cfg.vision.patch_size * cfg.vision.patch_size * cfg.vision.channels;
    let v_seq_len = cfg.vision.seq_len();

    let mut model = CLIPModel::from_config(cfg);

    // Vision encoder weights
    model.vision_model.patch_proj = AlignedBuffer::from_slice(&gen_weights(vh * patch_dim, 1));
    model.vision_model.cls_token = AlignedBuffer::from_slice(&gen_weights(vh, 2));
    model.vision_model.pos_embed = AlignedBuffer::from_slice(&gen_weights(v_seq_len * vh, 3));
    model.vision_model.final_norm_weight = AlignedBuffer::from_slice(&vec![1.0f32; vh]);

    for (i, layer) in model.vision_model.layers.iter_mut().enumerate() {
        let s = (i as u32 + 1) * 100;
        layer.attn_norm_weight = AlignedBuffer::from_slice(&vec![1.0f32; vh]);
        layer.w_q = AlignedBuffer::from_slice(&gen_weights(vh * vh, s + 1));
        layer.w_k = AlignedBuffer::from_slice(&gen_weights(vh * vh, s + 2));
        layer.w_v = AlignedBuffer::from_slice(&gen_weights(vh * vh, s + 3));
        layer.w_o = AlignedBuffer::from_slice(&gen_weights(vh * vh, s + 4));
        layer.ffn_norm_weight = AlignedBuffer::from_slice(&vec![1.0f32; vh]);
        layer.ffn_up = AlignedBuffer::from_slice(&gen_weights(v_inter * vh, s + 5));
        layer.ffn_down = AlignedBuffer::from_slice(&gen_weights(vh * v_inter, s + 6));
    }

    // Text encoder weights
    model.text_embeddings = AlignedBuffer::from_slice(&gen_weights(cfg.vocab_size * th, 400));
    model.text_pos_embed =
        AlignedBuffer::from_slice(&gen_weights(cfg.text_max_position * th, 401));
    model.text_norm_weight = AlignedBuffer::from_slice(&vec![1.0f32; th]);

    for (i, layer) in model.text_encoder_layers.iter_mut().enumerate() {
        let s = (i as u32 + 10) * 200;
        layer.attn_norm_weight = AlignedBuffer::from_slice(&vec![1.0f32; th]);
        layer.w_q = AlignedBuffer::from_slice(&gen_weights(th * th, s + 1));
        layer.w_k = AlignedBuffer::from_slice(&gen_weights(th * th, s + 2));
        layer.w_v = AlignedBuffer::from_slice(&gen_weights(th * th, s + 3));
        layer.w_o = AlignedBuffer::from_slice(&gen_weights(th * th, s + 4));
        layer.ffn_norm_weight = AlignedBuffer::from_slice(&vec![1.0f32; th]);
        layer.ffn_up = AlignedBuffer::from_slice(&gen_weights(t_inter * th, s + 5));
        layer.ffn_down = AlignedBuffer::from_slice(&gen_weights(th * t_inter, s + 6));
    }

    // Projection weights
    model.vision_proj = AlignedBuffer::from_slice(&gen_weights(vh * ed, 600));
    model.text_proj = AlignedBuffer::from_slice(&gen_weights(th * ed, 601));

    model
}

#[test]
fn test_clip_image_embedding_finite() {
    let cfg = test_clip_config();
    let model = build_test_clip(&cfg);

    let image: Vec<f32> =
        (0..cfg.vision.image_size * cfg.vision.image_size * cfg.vision.channels)
            .map(|i| (i as f32) / 255.0)
            .collect();

    let embedding = model.encode_image::<F32Math>(&image, cfg.vision.image_size, cfg.vision.image_size);

    assert_eq!(
        embedding.len(),
        cfg.embed_dim,
        "Image embedding should have embed_dim elements"
    );
    assert!(
        embedding.iter().all(|v| v.is_finite()),
        "CLIP image embedding contains non-finite values"
    );

    // Should be L2-normalized (norm ~= 1.0)
    let norm: f32 = embedding.iter().map(|x| x * x).sum::<f32>().sqrt();
    assert!(
        (norm - 1.0).abs() < 1e-4,
        "Image embedding should be L2-normalized, got norm = {norm}"
    );
}

#[test]
fn test_clip_text_embedding_finite() {
    let cfg = test_clip_config();
    let model = build_test_clip(&cfg);

    let token_ids: Vec<u32> = vec![1, 5, 10, 20, 3]; // fake token sequence

    let embedding = model.encode_text::<F32Math>(&token_ids);

    assert_eq!(
        embedding.len(),
        cfg.embed_dim,
        "Text embedding should have embed_dim elements"
    );
    assert!(
        embedding.iter().all(|v| v.is_finite()),
        "CLIP text embedding contains non-finite values"
    );

    // Should be L2-normalized
    let norm: f32 = embedding.iter().map(|x| x * x).sum::<f32>().sqrt();
    assert!(
        (norm - 1.0).abs() < 1e-4,
        "Text embedding should be L2-normalized, got norm = {norm}"
    );
}

#[test]
fn test_clip_similarity_in_range() {
    let cfg = test_clip_config();
    let model = build_test_clip(&cfg);

    let image: Vec<f32> =
        (0..cfg.vision.image_size * cfg.vision.image_size * cfg.vision.channels)
            .map(|i| (i as f32) / 255.0)
            .collect();
    let token_ids: Vec<u32> = vec![1, 5, 10, 20, 3];

    let output = model.similarity::<F32Math>(
        &image,
        cfg.vision.image_size,
        cfg.vision.image_size,
        &token_ids,
    );

    assert!(output.similarity.is_finite(), "Similarity should be finite");
    assert!(
        output.similarity >= -1.0 && output.similarity <= 1.0,
        "Cosine similarity should be in [-1, 1], got {}",
        output.similarity
    );
}

#[test]
fn test_clip_load_weights_via_mapper() {

    let cfg = test_clip_config();
    let mut model = CLIPModel::from_config(&cfg);
    let vh = cfg.vision.hidden_size;
    let th = cfg.text_hidden_size;
    let ed = cfg.embed_dim;
    let v_inter = cfg.vision.intermediate_size;
    let t_inter = cfg.text_intermediate_size;
    let patch_dim = cfg.vision.patch_size * cfg.vision.patch_size * cfg.vision.channels;
    let v_seq_len = cfg.vision.seq_len();

    // Build a fake weight dict with HuggingFace CLIP naming
    let mut weights: TensorMap<f32> = TensorMap::new();

    let rt = |len: usize, seed: u32| -> RawTensor<f32> {
        RawTensor {
            data: AlignedBuffer::from_slice(&gen_weights(len, seed)),
            shape: vec![len],
        }
    };

    // Vision global weights
    weights.insert(
        "vision_model.embeddings.patch_embedding.weight".into(),
        rt(vh * patch_dim, 1),
    );
    weights.insert("vision_model.embeddings.class_embedding".into(), rt(vh, 2));
    weights.insert(
        "vision_model.embeddings.position_embedding.weight".into(),
        rt(v_seq_len * vh, 3),
    );
    weights.insert("vision_model.pre_layernorm.weight".into(), rt(vh, 4));
    weights.insert("vision_model.pre_layernorm.bias".into(), rt(vh, 5));
    weights.insert("vision_model.post_layernorm.weight".into(), rt(vh, 6));
    weights.insert("vision_model.post_layernorm.bias".into(), rt(vh, 7));

    // Vision layer weights
    for i in 0..cfg.vision.num_layers {
        let s = (i as u32 + 1) * 100;
        weights.insert(
            format!("vision_model.encoder.layers.{i}.self_attn.q_proj.weight"),
            rt(vh * vh, s + 1),
        );
        weights.insert(
            format!("vision_model.encoder.layers.{i}.self_attn.q_proj.bias"),
            rt(vh, s + 2),
        );
        weights.insert(
            format!("vision_model.encoder.layers.{i}.self_attn.k_proj.weight"),
            rt(vh * vh, s + 3),
        );
        weights.insert(
            format!("vision_model.encoder.layers.{i}.self_attn.k_proj.bias"),
            rt(vh, s + 4),
        );
        weights.insert(
            format!("vision_model.encoder.layers.{i}.self_attn.v_proj.weight"),
            rt(vh * vh, s + 5),
        );
        weights.insert(
            format!("vision_model.encoder.layers.{i}.self_attn.v_proj.bias"),
            rt(vh, s + 6),
        );
        weights.insert(
            format!("vision_model.encoder.layers.{i}.self_attn.out_proj.weight"),
            rt(vh * vh, s + 7),
        );
        weights.insert(
            format!("vision_model.encoder.layers.{i}.self_attn.out_proj.bias"),
            rt(vh, s + 8),
        );
        weights.insert(
            format!("vision_model.encoder.layers.{i}.mlp.fc1.weight"),
            rt(v_inter * vh, s + 9),
        );
        weights.insert(
            format!("vision_model.encoder.layers.{i}.mlp.fc1.bias"),
            rt(v_inter, s + 10),
        );
        weights.insert(
            format!("vision_model.encoder.layers.{i}.mlp.fc2.weight"),
            rt(vh * v_inter, s + 11),
        );
        weights.insert(
            format!("vision_model.encoder.layers.{i}.mlp.fc2.bias"),
            rt(vh, s + 12),
        );
        weights.insert(
            format!("vision_model.encoder.layers.{i}.layer_norm1.weight"),
            rt(vh, s + 13),
        );
        weights.insert(
            format!("vision_model.encoder.layers.{i}.layer_norm1.bias"),
            rt(vh, s + 14),
        );
        weights.insert(
            format!("vision_model.encoder.layers.{i}.layer_norm2.weight"),
            rt(vh, s + 15),
        );
        weights.insert(
            format!("vision_model.encoder.layers.{i}.layer_norm2.bias"),
            rt(vh, s + 16),
        );
    }

    // Text global weights
    weights.insert(
        "text_model.embeddings.token_embedding.weight".into(),
        rt(cfg.vocab_size * th, 400),
    );
    weights.insert(
        "text_model.embeddings.position_embedding.weight".into(),
        rt(cfg.text_max_position * th, 401),
    );
    weights.insert("text_model.final_layer_norm.weight".into(), rt(th, 402));
    weights.insert("text_model.final_layer_norm.bias".into(), rt(th, 403));

    // Text layer weights
    for i in 0..cfg.text_num_layers {
        let s = (i as u32 + 10) * 200;
        weights.insert(
            format!("text_model.encoder.layers.{i}.self_attn.q_proj.weight"),
            rt(th * th, s + 1),
        );
        weights.insert(
            format!("text_model.encoder.layers.{i}.self_attn.q_proj.bias"),
            rt(th, s + 2),
        );
        weights.insert(
            format!("text_model.encoder.layers.{i}.self_attn.k_proj.weight"),
            rt(th * th, s + 3),
        );
        weights.insert(
            format!("text_model.encoder.layers.{i}.self_attn.k_proj.bias"),
            rt(th, s + 4),
        );
        weights.insert(
            format!("text_model.encoder.layers.{i}.self_attn.v_proj.weight"),
            rt(th * th, s + 5),
        );
        weights.insert(
            format!("text_model.encoder.layers.{i}.self_attn.v_proj.bias"),
            rt(th, s + 6),
        );
        weights.insert(
            format!("text_model.encoder.layers.{i}.self_attn.out_proj.weight"),
            rt(th * th, s + 7),
        );
        weights.insert(
            format!("text_model.encoder.layers.{i}.self_attn.out_proj.bias"),
            rt(th, s + 8),
        );
        weights.insert(
            format!("text_model.encoder.layers.{i}.mlp.fc1.weight"),
            rt(t_inter * th, s + 9),
        );
        weights.insert(
            format!("text_model.encoder.layers.{i}.mlp.fc1.bias"),
            rt(t_inter, s + 10),
        );
        weights.insert(
            format!("text_model.encoder.layers.{i}.mlp.fc2.weight"),
            rt(th * t_inter, s + 11),
        );
        weights.insert(
            format!("text_model.encoder.layers.{i}.mlp.fc2.bias"),
            rt(th, s + 12),
        );
        weights.insert(
            format!("text_model.encoder.layers.{i}.layer_norm1.weight"),
            rt(th, s + 13),
        );
        weights.insert(
            format!("text_model.encoder.layers.{i}.layer_norm1.bias"),
            rt(th, s + 14),
        );
        weights.insert(
            format!("text_model.encoder.layers.{i}.layer_norm2.weight"),
            rt(th, s + 15),
        );
        weights.insert(
            format!("text_model.encoder.layers.{i}.layer_norm2.bias"),
            rt(th, s + 16),
        );
    }

    // Projections
    weights.insert("visual_projection.weight".into(), rt(vh * ed, 600));
    weights.insert("text_projection.weight".into(), rt(th * ed, 601));

    let mapping = mapped(&weights, clip_target);
    let result = model
        .load_weights(&weights, mapping)
        .expect("load_weights failed");

    // Verify key weights were loaded (non-empty)
    assert!(
        !model.vision_model.patch_proj.is_empty(),
        "vision patch_proj should be loaded"
    );
    assert!(
        !model.vision_model.cls_token.is_empty(),
        "vision cls_token should be loaded"
    );
    assert!(
        !model.vision_model.pos_embed.is_empty(),
        "vision pos_embed should be loaded"
    );
    assert!(
        !model.vision_pre_norm_weight.is_empty(),
        "vision pre_norm_weight should be loaded"
    );
    assert!(
        !model.vision_model.final_norm_weight.is_empty(),
        "vision norm weight should be loaded"
    );
    assert!(
        !model.text_embeddings.is_empty(),
        "text embeddings should be loaded"
    );
    assert!(
        !model.text_pos_embed.is_empty(),
        "text pos_embed should be loaded"
    );
    assert!(
        !model.text_norm_weight.is_empty(),
        "text norm weight should be loaded"
    );
    assert!(
        !model.text_norm_bias.is_empty(),
        "text norm bias should be loaded"
    );
    assert!(
        !model.vision_proj.is_empty(),
        "vision_proj should be loaded"
    );
    assert!(!model.text_proj.is_empty(), "text_proj should be loaded");
    assert!(
        !model.vision_model.layers[0].w_q.is_empty(),
        "vision layer 0 w_q should be loaded"
    );
    assert!(
        !model.text_encoder_layers[0].w_q.is_empty(),
        "text layer 0 w_q should be loaded"
    );

    // Should have no unmapped keys (everything is CLIP naming)
    assert!(
        result.unexpected.is_empty(),
        "Should have no unmapped keys, got: {:?}",
        result.unexpected
    );
}

#[test]
fn test_clip_load_weights_then_forward() {

    let cfg = test_clip_config();
    let mut model = CLIPModel::from_config(&cfg);
    let vh = cfg.vision.hidden_size;
    let th = cfg.text_hidden_size;
    let ed = cfg.embed_dim;
    let v_inter = cfg.vision.intermediate_size;
    let t_inter = cfg.text_intermediate_size;
    let patch_dim = cfg.vision.patch_size * cfg.vision.patch_size * cfg.vision.channels;
    let v_seq_len = cfg.vision.seq_len();

    let mut weights: TensorMap<f32> = TensorMap::new();

    let rt = |len: usize, seed: u32| -> RawTensor<f32> {
        RawTensor {
            data: AlignedBuffer::from_slice(&gen_weights(len, seed)),
            shape: vec![len],
        }
    };

    // All required weights (same as above, using unit norm weights for stability)
    let ones = |len: usize| -> RawTensor<f32> {
        RawTensor {
            data: AlignedBuffer::from_slice(&vec![1.0f32; len]),
            shape: vec![len],
        }
    };

    weights.insert(
        "vision_model.embeddings.patch_embedding.weight".into(),
        rt(vh * patch_dim, 1),
    );
    weights.insert("vision_model.embeddings.class_embedding".into(), rt(vh, 2));
    weights.insert(
        "vision_model.embeddings.position_embedding.weight".into(),
        rt(v_seq_len * vh, 3),
    );
    weights.insert("vision_model.pre_layernorm.weight".into(), ones(vh));
    weights.insert("vision_model.pre_layernorm.bias".into(), rt(vh, 5));
    weights.insert("vision_model.post_layernorm.weight".into(), ones(vh));
    weights.insert("vision_model.post_layernorm.bias".into(), rt(vh, 7));

    for i in 0..cfg.vision.num_layers {
        let s = (i as u32 + 1) * 100;
        weights.insert(
            format!("vision_model.encoder.layers.{i}.self_attn.q_proj.weight"),
            rt(vh * vh, s + 1),
        );
        weights.insert(
            format!("vision_model.encoder.layers.{i}.self_attn.q_proj.bias"),
            rt(vh, s + 2),
        );
        weights.insert(
            format!("vision_model.encoder.layers.{i}.self_attn.k_proj.weight"),
            rt(vh * vh, s + 3),
        );
        weights.insert(
            format!("vision_model.encoder.layers.{i}.self_attn.k_proj.bias"),
            rt(vh, s + 4),
        );
        weights.insert(
            format!("vision_model.encoder.layers.{i}.self_attn.v_proj.weight"),
            rt(vh * vh, s + 5),
        );
        weights.insert(
            format!("vision_model.encoder.layers.{i}.self_attn.v_proj.bias"),
            rt(vh, s + 6),
        );
        weights.insert(
            format!("vision_model.encoder.layers.{i}.self_attn.out_proj.weight"),
            rt(vh * vh, s + 7),
        );
        weights.insert(
            format!("vision_model.encoder.layers.{i}.self_attn.out_proj.bias"),
            rt(vh, s + 8),
        );
        weights.insert(
            format!("vision_model.encoder.layers.{i}.mlp.fc1.weight"),
            rt(v_inter * vh, s + 9),
        );
        weights.insert(
            format!("vision_model.encoder.layers.{i}.mlp.fc1.bias"),
            rt(v_inter, s + 10),
        );
        weights.insert(
            format!("vision_model.encoder.layers.{i}.mlp.fc2.weight"),
            rt(vh * v_inter, s + 11),
        );
        weights.insert(
            format!("vision_model.encoder.layers.{i}.mlp.fc2.bias"),
            rt(vh, s + 12),
        );
        weights.insert(
            format!("vision_model.encoder.layers.{i}.layer_norm1.weight"),
            ones(vh),
        );
        weights.insert(
            format!("vision_model.encoder.layers.{i}.layer_norm1.bias"),
            rt(vh, s + 14),
        );
        weights.insert(
            format!("vision_model.encoder.layers.{i}.layer_norm2.weight"),
            ones(vh),
        );
        weights.insert(
            format!("vision_model.encoder.layers.{i}.layer_norm2.bias"),
            rt(vh, s + 16),
        );
    }

    weights.insert(
        "text_model.embeddings.token_embedding.weight".into(),
        rt(cfg.vocab_size * th, 400),
    );
    weights.insert(
        "text_model.embeddings.position_embedding.weight".into(),
        rt(cfg.text_max_position * th, 401),
    );
    weights.insert("text_model.final_layer_norm.weight".into(), ones(th));
    weights.insert("text_model.final_layer_norm.bias".into(), rt(th, 403));

    for i in 0..cfg.text_num_layers {
        let s = (i as u32 + 10) * 200;
        weights.insert(
            format!("text_model.encoder.layers.{i}.self_attn.q_proj.weight"),
            rt(th * th, s + 1),
        );
        weights.insert(
            format!("text_model.encoder.layers.{i}.self_attn.q_proj.bias"),
            rt(th, s + 2),
        );
        weights.insert(
            format!("text_model.encoder.layers.{i}.self_attn.k_proj.weight"),
            rt(th * th, s + 3),
        );
        weights.insert(
            format!("text_model.encoder.layers.{i}.self_attn.k_proj.bias"),
            rt(th, s + 4),
        );
        weights.insert(
            format!("text_model.encoder.layers.{i}.self_attn.v_proj.weight"),
            rt(th * th, s + 5),
        );
        weights.insert(
            format!("text_model.encoder.layers.{i}.self_attn.v_proj.bias"),
            rt(th, s + 6),
        );
        weights.insert(
            format!("text_model.encoder.layers.{i}.self_attn.out_proj.weight"),
            rt(th * th, s + 7),
        );
        weights.insert(
            format!("text_model.encoder.layers.{i}.self_attn.out_proj.bias"),
            rt(th, s + 8),
        );
        weights.insert(
            format!("text_model.encoder.layers.{i}.mlp.fc1.weight"),
            rt(t_inter * th, s + 9),
        );
        weights.insert(
            format!("text_model.encoder.layers.{i}.mlp.fc1.bias"),
            rt(t_inter, s + 10),
        );
        weights.insert(
            format!("text_model.encoder.layers.{i}.mlp.fc2.weight"),
            rt(th * t_inter, s + 11),
        );
        weights.insert(
            format!("text_model.encoder.layers.{i}.mlp.fc2.bias"),
            rt(th, s + 12),
        );
        weights.insert(
            format!("text_model.encoder.layers.{i}.layer_norm1.weight"),
            ones(th),
        );
        weights.insert(
            format!("text_model.encoder.layers.{i}.layer_norm1.bias"),
            rt(th, s + 14),
        );
        weights.insert(
            format!("text_model.encoder.layers.{i}.layer_norm2.weight"),
            ones(th),
        );
        weights.insert(
            format!("text_model.encoder.layers.{i}.layer_norm2.bias"),
            rt(th, s + 16),
        );
    }

    weights.insert("visual_projection.weight".into(), rt(vh * ed, 600));
    weights.insert("text_projection.weight".into(), rt(th * ed, 601));

    let mapping = mapped(&weights, clip_target);
    model
        .load_weights(&weights, mapping)
        .expect("load_weights failed");

    // Run forward pass to verify loaded weights produce finite output
    let image: Vec<f32> =
        (0..cfg.vision.image_size * cfg.vision.image_size * cfg.vision.channels)
            .map(|i| (i as f32) / 255.0)
            .collect();
    let token_ids: Vec<u32> = vec![1, 5, 10, 20, 3];

    let output = model.similarity::<F32Math>(
        &image,
        cfg.vision.image_size,
        cfg.vision.image_size,
        &token_ids,
    );

    assert!(
        output.image_embedding.iter().all(|v| v.is_finite()),
        "Image embedding should be finite after weight loading"
    );
    assert!(
        output.text_embedding.iter().all(|v| v.is_finite()),
        "Text embedding should be finite after weight loading"
    );
    assert!(
        output.similarity.is_finite(),
        "Similarity should be finite after weight loading"
    );
}

#[test]
fn test_clip_expected_weight_keys() {
    let cfg = test_clip_config();
    let model = CLIPModel::<f32>::from_config(&cfg);
    let keys = model.expected_weight_keys();

    // Should have vision keys
    assert!(keys.iter().any(|k| k == "vision.patch_proj"));
    assert!(keys.iter().any(|k| k == "vision.cls_token"));
    assert!(keys.iter().any(|k| k == "vision.pos_embed"));
    assert!(keys.iter().any(|k| k == "vision.pre_norm.weight"));
    assert!(keys.iter().any(|k| k == "vision.norm.weight"));
    assert!(keys.iter().any(|k| k == "vision.layers[0].attention.w_q"));

    // Should have text keys
    assert!(keys.iter().any(|k| k == "text.embeddings"));
    assert!(keys.iter().any(|k| k == "text.pos_embed"));
    assert!(keys.iter().any(|k| k == "text.norm.weight"));
    assert!(keys.iter().any(|k| k == "text.layers[0].attention.w_q"));

    // Should have projection keys
    assert!(keys.iter().any(|k| k == "vision_proj"));
    assert!(keys.iter().any(|k| k == "text_proj"));
}

#[test]
fn test_parse_clip_config_json() {
    let json = r#"{
        "projection_dim": 512,
        "vision_config": {
            "hidden_size": 768,
            "num_hidden_layers": 12,
            "num_attention_heads": 12,
            "intermediate_size": 3072,
            "image_size": 224,
            "patch_size": 32,
            "num_channels": 3
        },
        "text_config": {
            "hidden_size": 512,
            "num_hidden_layers": 12,
            "num_attention_heads": 8,
            "intermediate_size": 2048,
            "max_position_embeddings": 77,
            "vocab_size": 49408
        }
    }"#;

    let cfg = parse_clip_config_json(json).expect("Failed to parse CLIP config JSON");
    assert_eq!(cfg.embed_dim, 512);
    assert_eq!(cfg.vision.hidden_size, 768);
    assert_eq!(cfg.vision.num_layers, 12);
    assert_eq!(cfg.vision.num_heads, 12);
    assert_eq!(cfg.vision.intermediate_size, 3072);
    assert_eq!(cfg.vision.image_size, 224);
    assert_eq!(cfg.vision.patch_size, 32);
    assert_eq!(cfg.text_hidden_size, 512);
    assert_eq!(cfg.text_num_layers, 12);
    assert_eq!(cfg.text_num_heads, 8);
    assert_eq!(cfg.text_intermediate_size, 2048);
    assert_eq!(cfg.text_max_position, 77);
    assert_eq!(cfg.vocab_size, 49408);
}

// ── Code world model ──────────────────────────────────────────────────

#[test]
fn config_defaults() {
    let c = CodeWorldModelConfig::g8();
    assert_eq!(c.vocab_size, 662);
    assert_eq!(c.model_dim, 128);
    assert_eq!(c.num_heads, 4);
    assert_eq!(c.head_dim, 32);
    assert_eq!(c.mlp_hidden, 512);
    assert_eq!(c.encoder_loops, 6);
    assert_eq!(c.predictor_depth, 2);
    assert_eq!(c.predictor_loops, 6);
    assert_eq!(c.action_dim, 7);
    assert_eq!(c.gelu_kind, GeluKind::Erf);
}

#[test]
fn code_wm_gelu_erf_matches_pytorch_reference_values() {
    // Reference values from torch.nn.GELU(approximate='none')
    // on inputs [-2.0, -1.0, -0.5, 0.0, 0.5, 1.0, 2.0, 3.0]
    let reference: [(f32, f32); 8] = [
        (-2.0, -0.04550010),
        (-1.0, -0.15865529),
        (-0.5, -0.15426880),
        (0.0, 0.0),
        (0.5, 0.3457312),
        (1.0, 0.8413447),
        (2.0, 1.9545000),
        (3.0, 2.9959502),
    ];
    for (x, expected) in reference {
        let got = gelu_erf::<f32, F32Math>(x);
        let diff = (got - expected).abs();
        assert!(
            diff < 1e-5,
            "gelu_erf({x}) = {got}, expected {expected}, diff = {diff:.3e}"
        );
    }
}

#[test]
fn zero_model_has_expected_shapes() {
    let cfg = CodeWorldModelConfig::g8();
    let m = CodeWorldModel::<f32>::from_config(&cfg);
    assert_eq!(m.token_embedding.len(), 662 * 128);
    assert_eq!(m.cls_token.len(), 128);
    assert_eq!(m.pos_enc.len(), 513 * 128);
    assert_eq!(m.encoder_block.attn_in_proj.weight.len(), 3 * 128 * 128);
    assert_eq!(m.encoder_block.mlp_up.weight.len(), 512 * 128);
    assert_eq!(m.encoder_block.mlp_down.weight.len(), 128 * 512);
    assert_eq!(m.predictor_blocks.len(), 2);
    assert_eq!(m.action_fc1.weight.len(), 128 * 7);
    assert_eq!(m.action_fc2.weight.len(), 128 * 128);
}

// ── LeWM ──────────────────────────────────────────────────────────────

fn small_config() -> LeWMConfig {
    LeWMConfig {
        image_size: 8,
        patch_size: 4,
        channels: 3,
        encoder_hidden: 16,
        encoder_layers: 2,
        encoder_heads: 2,
        encoder_inter: 32,
        predictor_hidden: 16,
        predictor_layers: 2,
        predictor_heads: 2,
        predictor_inner_dim: 16,
        predictor_inter: 32,
        action_dim: 4,
        latent_dim: 16,
    }
}

fn build_test_lewm(cfg: &LeWMConfig) -> LeWorldModel<f32> {
    let h = cfg.encoder_hidden;
    let pred_h = cfg.predictor_hidden;
    let pred_inner = cfg.predictor_inner_dim;
    let pred_inter = cfg.predictor_inter;
    let act_dim = cfg.action_dim;
    let patch_dim = cfg.patch_size * cfg.patch_size * cfg.channels;
    let num_patches = (cfg.image_size / cfg.patch_size).pow(2);
    let enc_seq_len = num_patches + 1;
    let enc_inter = cfg.encoder_inter;

    let mut model = LeWorldModel::from_config(cfg);

    // Encoder weights
    model.encoder.patch_proj = AlignedBuffer::from_slice(&gen_weights(h * patch_dim, 1));
    model.encoder.cls_token = AlignedBuffer::from_slice(&gen_weights(h, 2));
    model.encoder.pos_embed = AlignedBuffer::from_slice(&gen_weights(enc_seq_len * h, 3));
    model.encoder.final_norm_weight = AlignedBuffer::from_slice(&vec![1.0f32; h]);

    for (i, layer) in model.encoder.layers.iter_mut().enumerate() {
        let s = (i as u32 + 1) * 100;
        layer.attn_norm_weight = AlignedBuffer::from_slice(&vec![1.0f32; h]);
        layer.w_q = AlignedBuffer::from_slice(&gen_weights(h * h, s + 1));
        layer.w_k = AlignedBuffer::from_slice(&gen_weights(h * h, s + 2));
        layer.w_v = AlignedBuffer::from_slice(&gen_weights(h * h, s + 3));
        layer.w_o = AlignedBuffer::from_slice(&gen_weights(h * h, s + 4));
        layer.ffn_norm_weight = AlignedBuffer::from_slice(&vec![1.0f32; h]);
        layer.ffn_up = AlignedBuffer::from_slice(&gen_weights(enc_inter * h, s + 5));
        layer.ffn_down = AlignedBuffer::from_slice(&gen_weights(h * enc_inter, s + 6));
    }

    // Projector: [h] → [enc_inter] → [enc_inter] → [pred_h]
    model.projector.layers[0].0 = AlignedBuffer::from_slice(&gen_weights(enc_inter * h, 400));
    model.projector.layers[0].1 = AlignedBuffer::from_slice(&gen_weights(enc_inter, 401));
    model.projector.layers[1].0 =
        AlignedBuffer::from_slice(&gen_weights(enc_inter * enc_inter, 402));
    model.projector.layers[1].1 = AlignedBuffer::from_slice(&gen_weights(enc_inter, 403));
    model.projector.layers[2].0 =
        AlignedBuffer::from_slice(&gen_weights(pred_h * enc_inter, 404));
    model.projector.layers[2].1 = AlignedBuffer::from_slice(&gen_weights(pred_h, 405));

    // Pred_proj: same structure
    model.pred_proj.layers[0].0 =
        AlignedBuffer::from_slice(&gen_weights(enc_inter * pred_h, 500));
    model.pred_proj.layers[0].1 = AlignedBuffer::from_slice(&gen_weights(enc_inter, 501));
    model.pred_proj.layers[1].0 =
        AlignedBuffer::from_slice(&gen_weights(enc_inter * enc_inter, 502));
    model.pred_proj.layers[1].1 = AlignedBuffer::from_slice(&gen_weights(enc_inter, 503));
    model.pred_proj.layers[2].0 =
        AlignedBuffer::from_slice(&gen_weights(pred_h * enc_inter, 504));
    model.pred_proj.layers[2].1 = AlignedBuffer::from_slice(&gen_weights(pred_h, 505));

    // Action encoder
    model.action_conv_weight = AlignedBuffer::from_slice(&gen_weights(act_dim * act_dim, 600));
    model.action_conv_bias = AlignedBuffer::from_slice(&gen_weights(act_dim, 601));
    model.action_mlp1_weight =
        AlignedBuffer::from_slice(&gen_weights(enc_inter * act_dim, 602));
    model.action_mlp1_bias = AlignedBuffer::from_slice(&gen_weights(enc_inter, 603));
    model.action_mlp2_weight = AlignedBuffer::from_slice(&gen_weights(pred_h * enc_inter, 604));
    model.action_mlp2_bias = AlignedBuffer::from_slice(&gen_weights(pred_h, 605));

    // Predictor pos embed: [3, pred_h]
    model.predictor_pos_embed = AlignedBuffer::from_slice(&gen_weights(3 * pred_h, 700));

    // Predictor norm
    model.predictor_norm_weight = AlignedBuffer::from_slice(&vec![1.0f32; pred_h]);
    model.predictor_norm_bias = AlignedBuffer::from_slice(&vec![0.0f32; pred_h]);

    // Predictor layers (adaLN DiT)
    for (i, layer) in model.predictor_layers.iter_mut().enumerate() {
        let s = (i as u32 + 1) * 1000;
        // adaLN: [6*pred_h, pred_h]
        layer.adaln_weight =
            AlignedBuffer::from_slice(&gen_weights(6 * pred_h * pred_h, s + 1));
        layer.adaln_bias = AlignedBuffer::from_slice(&gen_weights(6 * pred_h, s + 2));
        // Fused QKV: [3*inner_dim, pred_h]
        layer.to_qkv = AlignedBuffer::from_slice(&gen_weights(3 * pred_inner * pred_h, s + 3));
        // Attn out: [pred_h, inner_dim]
        layer.attn_out_weight =
            AlignedBuffer::from_slice(&gen_weights(pred_h * pred_inner, s + 4));
        layer.attn_out_bias = AlignedBuffer::from_slice(&gen_weights(pred_h, s + 5));
        // Attn norm (used for pre-attention LN in adaLN)
        layer.attn_norm_weight = AlignedBuffer::from_slice(&vec![1.0f32; pred_h]);
        layer.attn_norm_bias = AlignedBuffer::from_slice(&vec![0.0f32; pred_h]);
        // MLP norm
        layer.mlp_norm_weight = AlignedBuffer::from_slice(&vec![1.0f32; pred_h]);
        layer.mlp_norm_bias = AlignedBuffer::from_slice(&vec![0.0f32; pred_h]);
        // MLP up: [pred_inter, pred_h]
        layer.mlp_up_weight =
            AlignedBuffer::from_slice(&gen_weights(pred_inter * pred_h, s + 10));
        layer.mlp_up_bias = AlignedBuffer::from_slice(&gen_weights(pred_inter, s + 11));
        // MLP down: [pred_h, pred_inter]
        layer.mlp_down_weight =
            AlignedBuffer::from_slice(&gen_weights(pred_h * pred_inter, s + 12));
        layer.mlp_down_bias = AlignedBuffer::from_slice(&gen_weights(pred_h, s + 13));
    }

    model
}

#[test]
fn test_lewm_encode_produces_finite_embeddings() {
    let cfg = small_config();
    let model = build_test_lewm(&cfg);

    let image: Vec<f32> = (0..cfg.image_size * cfg.image_size * cfg.channels)
        .map(|i| (i as f32) / 255.0)
        .collect();

    let z = model.encode::<F32Math>(&image, cfg.image_size, cfg.image_size);

    assert_eq!(
        z.len(),
        cfg.latent_dim,
        "Encoded latent should have latent_dim elements"
    );
    assert!(
        z.iter().all(|v| v.is_finite()),
        "LeWM encode produced non-finite values"
    );
}

#[test]
fn test_lewm_predict_next_produces_finite() {
    let cfg = small_config();
    let model = build_test_lewm(&cfg);

    let z = gen_weights(cfg.latent_dim, 42);
    let action = gen_weights(cfg.action_dim, 43);

    let z_next = model.predict_next::<F32Math>(&z, &action);

    assert_eq!(
        z_next.len(),
        cfg.latent_dim,
        "Predicted latent should have latent_dim elements"
    );
    assert!(
        z_next.iter().all(|v| v.is_finite()),
        "LeWM predict_next produced non-finite values"
    );
}

#[test]
fn test_lewm_rollout_correct_length() {
    let cfg = small_config();
    let model = build_test_lewm(&cfg);

    let z = gen_weights(cfg.latent_dim, 42);
    let actions: Vec<Vec<f32>> = (0..10)
        .map(|i| gen_weights(cfg.action_dim, 100 + i))
        .collect();

    let trajectory = model.rollout::<F32Math>(&z, &actions);

    assert_eq!(
        trajectory.len(),
        10,
        "Rollout with 10 actions should produce 10 states"
    );
    for (i, state) in trajectory.iter().enumerate() {
        assert_eq!(
            state.len(),
            cfg.latent_dim,
            "State {i} should have latent_dim elements"
        );
        assert!(
            state.iter().all(|v| v.is_finite()),
            "State {i} contains non-finite values"
        );
    }
}

#[test]
fn test_lewm_action_encoder_produces_finite() {
    let cfg = small_config();
    let model = build_test_lewm(&cfg);

    let action = gen_weights(cfg.action_dim, 42);
    let a_embed = model.encode_action::<F32Math>(&action);

    assert_eq!(
        a_embed.len(),
        cfg.predictor_hidden,
        "Action embedding should have predictor_hidden elements"
    );
    assert!(
        a_embed.iter().all(|v| v.is_finite()),
        "Action encoder produced non-finite values"
    );
}

#[test]
fn test_lewm_projection_head_roundtrip_shape() {
    let cfg = small_config();
    let model = build_test_lewm(&cfg);

    let x = gen_weights(cfg.encoder_hidden, 42);
    let projected = model.projector.forward::<F32Math>(&x);
    assert_eq!(
        projected.len(),
        cfg.predictor_hidden,
        "Projector output should have predictor_hidden elements"
    );
    assert!(
        projected.iter().all(|v| v.is_finite()),
        "Projector produced non-finite values"
    );
}

#[test]
fn test_lewm_adaln_layer_produces_finite() {
    let cfg = small_config();
    let model = build_test_lewm(&cfg);

    let seq_len = 3;
    let hidden = cfg.predictor_hidden;
    let x = gen_weights(seq_len * hidden, 42);
    let cond = gen_weights(hidden, 43);

    let out = model.predictor_layers[0].forward::<F32Math>(
        &x,
        &cond,
        seq_len,
        hidden,
        cfg.predictor_heads,
        cfg.predictor_inner_dim,
        cfg.predictor_inter,
    );

    assert_eq!(out.len(), seq_len * hidden);
    assert!(
        out.iter().all(|v| v.is_finite()),
        "AdaLN layer produced non-finite values"
    );
}

#[test]
fn test_lewm_load_weights_recognizes_keys() {
    let cfg = small_config();
    let mut model = LeWorldModel::from_config(&cfg);
    let h = cfg.encoder_hidden;
    let pred_h = cfg.predictor_hidden;
    let act_dim = cfg.action_dim;
    let enc_inter = cfg.encoder_inter;
    let pred_inner = cfg.predictor_inner_dim;
    let _pred_inter = cfg.predictor_inter;
    let patch_dim = cfg.patch_size * cfg.patch_size * cfg.channels;
    let enc_seq_len = (cfg.image_size / cfg.patch_size).pow(2) + 1;

    let rt = |len: usize, seed: u32| -> RawTensor<f32> {
        RawTensor {
            data: AlignedBuffer::from_slice(&gen_weights(len, seed)),
            shape: vec![len],
        }
    };

    let mut weights: TensorMap<f32> = TensorMap::new();

    // Encoder
    weights.insert(
        "encoder.embeddings.patch_embeddings.projection.weight".into(),
        rt(h * patch_dim, 1),
    );
    weights.insert("encoder.embeddings.cls_token".into(), rt(h, 2));
    weights.insert(
        "encoder.embeddings.position_embeddings".into(),
        rt(enc_seq_len * h, 3),
    );
    weights.insert("encoder.layernorm.weight".into(), rt(h, 4));
    weights.insert("encoder.layernorm.bias".into(), rt(h, 5));
    weights.insert(
        "encoder.encoder.layer.0.attention.attention.query.weight".into(),
        rt(h * h, 10),
    );

    // Predictor
    weights.insert("predictor.pos_embedding".into(), rt(3 * pred_h, 20));
    weights.insert("predictor.transformer.norm.weight".into(), rt(pred_h, 21));
    weights.insert(
        "predictor.transformer.layers.0.adaLN_modulation.1.weight".into(),
        rt(6 * pred_h * pred_h, 30),
    );
    weights.insert(
        "predictor.transformer.layers.0.attn.to_qkv.weight".into(),
        rt(3 * pred_inner * pred_h, 31),
    );

    // Action encoder
    weights.insert(
        "action_encoder.patch_embed.weight".into(),
        rt(act_dim * act_dim, 40),
    );
    weights.insert(
        "action_encoder.embed.0.weight".into(),
        rt(enc_inter * act_dim, 41),
    );

    // Projector
    weights.insert("projector.0.weight".into(), rt(enc_inter * h, 50));
    weights.insert("projector.0.bias".into(), rt(enc_inter, 51));

    // Pred_proj
    weights.insert("pred_proj.0.weight".into(), rt(enc_inter * pred_h, 60));

    let stats = model.load_weights(&weights).expect("load_weights failed");

    assert!(stats.loaded > 0, "Should have loaded some weights");
    assert!(
        !model.encoder.patch_proj.is_empty(),
        "Encoder patch_proj should be loaded"
    );
    assert!(
        !model.predictor_pos_embed.is_empty(),
        "Predictor pos_embed should be loaded"
    );
    assert!(
        !model.predictor_layers[0].adaln_weight.is_empty(),
        "Predictor layer 0 adaln_weight should be loaded"
    );
    assert!(
        !model.action_conv_weight.is_empty(),
        "Action conv weight should be loaded"
    );
    assert!(
        !model.projector.layers[0].0.is_empty(),
        "Projector layer 0 weight should be loaded"
    );
    assert!(
        !model.pred_proj.layers[0].0.is_empty(),
        "Pred_proj layer 0 weight should be loaded"
    );
}

#[test]
fn test_lewm_different_actions_produce_different_predictions() {
    let cfg = small_config();
    let model = build_test_lewm(&cfg);

    // Use non-trivial initial latent so the target token picks up signal
    let z = gen_weights(cfg.latent_dim, 42);
    let mut action1 = vec![0.0f32; cfg.action_dim];
    let mut action2 = vec![0.0f32; cfg.action_dim];
    action1[0] = 1.0;
    action2[0] = -1.0;

    let z1 = model.predict_next::<F32Math>(&z, &action1);
    let z2 = model.predict_next::<F32Math>(&z, &action2);

    // Different actions should produce different predictions
    let diff: f32 = z1.iter().zip(z2.iter()).map(|(a, b)| (a - b).abs()).sum();
    assert!(
        diff > 1e-6,
        "Different actions should produce different predictions, got diff={diff}"
    );
}

#[test]
fn test_lewm_from_config_dimensions() {
    let cfg = LeWMConfig::pusht();
    let model = LeWorldModel::<f32>::from_config(&cfg);

    assert_eq!(model.encoder.config.hidden_size, 192);
    assert_eq!(model.encoder.config.num_layers, 6);
    assert_eq!(model.encoder.config.num_heads, 3);
    assert_eq!(model.predictor_layers.len(), 6);
    assert_eq!(model.projector.layers.len(), 3);
    assert_eq!(model.pred_proj.layers.len(), 3);
}

#[test]
fn fused_predict_matches_original() {
    let cfg = small_config();
    let model = build_test_lewm(&cfg);
    let mut bufs = LeWMBuffers::<f32>::new(&cfg);

    let z = gen_weights(cfg.latent_dim, 42);
    let action = gen_weights(cfg.action_dim, 43);

    let original = model.predict_next::<F32Math>(&z, &action);
    let fused = model.predict_next_fused::<F32Math>(&z, &action, &mut bufs);

    assert_eq!(original.len(), fused.len());
    for (i, (a, b)) in original.iter().zip(&fused).enumerate() {
        assert!(
            (a - b).abs() < 1e-4,
            "mismatch at index {}: {} vs {} (diff={})",
            i,
            a,
            b,
            (a - b).abs()
        );
    }
}

#[test]
fn fused_rollout_matches_original() {
    let cfg = small_config();
    let model = build_test_lewm(&cfg);

    let z = gen_weights(cfg.latent_dim, 42);
    let actions: Vec<Vec<f32>> = (0..5).map(|i| gen_weights(cfg.action_dim, 100 + i)).collect();

    let original = model.rollout::<F32Math>(&z, &actions);
    let fused = model.rollout_fused::<F32Math>(&z, &actions);

    assert_eq!(original.len(), fused.len());
    for (step, (orig_step, fused_step)) in original.iter().zip(&fused).enumerate() {
        assert_eq!(orig_step.len(), fused_step.len());
        for (i, (a, b)) in orig_step.iter().zip(fused_step).enumerate() {
            assert!(
                (a - b).abs() < 1e-4,
                "step {} index {}: {} vs {} (diff={})",
                step,
                i,
                a,
                b,
                (a - b).abs()
            );
        }
    }
}

#[test]
fn lewm_buffers_correct_sizes() {
    let cfg = LeWMConfig::pusht();
    let bufs = LeWMBuffers::<f32>::new(&cfg);
    assert_eq!(bufs.seq.len(), 3 * 192);
    assert_eq!(bufs.mod_params.len(), 6 * 192);
    assert_eq!(bufs.qkv.len(), 3 * 3 * 1024);
    assert_eq!(bufs.attn_out.len(), 3 * 1024);
    assert_eq!(bufs.ffn_inter.len(), 3 * 2048);
    assert_eq!(bufs.proj.len(), 3 * 192);
    assert_eq!(bufs.ffn_out.len(), 3 * 192);
}

#[test]
fn fused_predict_buffers_reusable() {
    let cfg = small_config();
    let model = build_test_lewm(&cfg);
    let mut bufs = LeWMBuffers::<f32>::new(&cfg);

    let z = gen_weights(cfg.latent_dim, 42);
    let mut action1 = vec![0.0f32; cfg.action_dim];
    let mut action2 = vec![0.0f32; cfg.action_dim];
    action1[0] = 1.0;
    action2[0] = -1.0;

    // Use buffers for two different predictions
    let r1 = model.predict_next_fused::<F32Math>(&z, &action1, &mut bufs);
    let r2 = model.predict_next_fused::<F32Math>(&z, &action2, &mut bufs);

    // Both should produce finite values
    assert!(r1.iter().all(|v| v.is_finite()), "First call produced non-finite");
    assert!(r2.iter().all(|v| v.is_finite()), "Second call produced non-finite");

    // Different actions should give different results
    let diff: f32 = r1.iter().zip(r2.iter()).map(|(a, b)| (a - b).abs()).sum();
    assert!(
        diff > 1e-6,
        "Different actions should produce different predictions with reused buffers"
    );
}

/// Verify predict_rollout_fused returns valid outputs with 1 step.
#[test]
fn lewm_predict_rollout_fused_one_step_produces_finite() {
    let cfg = small_config();
    let model = build_test_lewm(&cfg);
    let mut bufs = LeWMBuffers::<f32>::new(&cfg);

    let z_start = gen_weights(cfg.latent_dim, 42);
    let actions = vec![gen_weights(cfg.action_dim, 100)];

    // Single-step fused should work the same as predict_next
    let outputs = model.predict_rollout_fused::<F32Math>(&z_start, &actions, &mut bufs);

    assert_eq!(outputs.len(), 1, "Should produce 1 output for 1 action");
    assert_eq!(outputs[0].len(), cfg.latent_dim, "Output should have latent_dim elements");
    assert!(outputs[0].iter().all(|v| v.is_finite()), "Output contains non-finite values");
}

/// Verify predict_rollout_fused returns valid outputs.
#[test]
fn lewm_predict_rollout_fused_produces_finite() {
    let cfg = small_config();
    let model = build_test_lewm(&cfg);
    let mut bufs = LeWMBuffers::<f32>::new(&cfg);

    let z_start = gen_weights(cfg.latent_dim, 42);
    let actions: Vec<Vec<f32>> = (0..3)
        .map(|i| gen_weights(cfg.action_dim, 100 + i as u32))
        .collect();

    let outputs = model.predict_rollout_fused::<F32Math>(&z_start, &actions, &mut bufs);

    // Must return 3 outputs
    assert_eq!(outputs.len(), 3, "Should produce 3 outputs for 3 actions");
    for (i, out) in outputs.iter().enumerate() {
        assert_eq!(
            out.len(),
            cfg.latent_dim,
            "Output {} should have latent_dim elements",
            i
        );
        assert!(
            out.iter().all(|v| v.is_finite()),
            "Output {} contains non-finite values",
            i
        );
    }
}

/// Verify predict_rollout_fused step-0 matches sequential predict_next step-0.
/// Steps 1 and 2 differ by design (parallel futures vs autoregressive).
#[test]
fn lewm_rollout_fused_step0_matches_sequential() {
    let cfg = small_config();
    let model = build_test_lewm(&cfg);

    let z = gen_weights(cfg.latent_dim, 42);
    let a0 = gen_weights(cfg.action_dim, 100);
    let a1 = gen_weights(cfg.action_dim, 101);
    let a2 = gen_weights(cfg.action_dim, 102);
    let actions = vec![a0.clone(), a1.clone(), a2.clone()];

    // Sequential: step 0 via predict_next
    let seq0 = model.predict_next::<F32Math>(&z, &a0);

    // Fused: first step
    let mut bufs = LeWMBuffers::<f32>::new(&cfg);
    let fused = model.predict_rollout_fused::<F32Math>(&z, &actions, &mut bufs);

    // Step 0 must match exactly (same z_start, same a0)
    assert_eq!(fused[0].len(), seq0.len());
    let cos_sim = cosine_sim(&fused[0], &seq0);
    assert!(
        cos_sim >= 0.999,
        "Fused step-0 cosine sim vs sequential step-0: {} (want >= 0.999)",
        cos_sim
    );
    // All 3 outputs must be finite
    for (i, out) in fused.iter().enumerate() {
        assert!(
            out.iter().all(|v| v.is_finite()),
            "Fused output {} is not finite",
            i
        );
    }
}

fn cosine_sim(a: &[f32], b: &[f32]) -> f32 {
    let dot: f32 = a.iter().zip(b.iter()).map(|(x, y)| x * y).sum();
    let na: f32 = a.iter().map(|x| x * x).sum::<f32>().sqrt();
    let nb: f32 = b.iter().map(|x| x * x).sum::<f32>().sqrt();
    if na > 0.0 && nb > 0.0 {
        dot / (na * nb)
    } else {
        0.0
    }
}

/// Test: rollout_fused matches sequential rollout for pushT config (192d).
/// Uses seeded weights (not zeroed) so matmul asserts pass.
/// Fused[0] vs sequential[0] cosine sim should be ≥ 0.999.
/// Fused[1] and fused[2] differ from sequential by design (parallel futures vs autoregressive).
#[test]
#[allow(non_snake_case)]
fn lewm_rollout_fused_vs_sequential_pushT() {
    // Build pushT model with seeded weights (replicate build_test_lewm pattern)
    let cfg = LeWMConfig::pusht();
    let model = build_test_lewm_pushT(&cfg);
    let mut bufs = LeWMBuffers::<f32>::new(&cfg);

    let z = gen_weights(cfg.latent_dim, 42);
    let actions: Vec<Vec<f32>> = (0..3).map(|i| gen_weights(cfg.action_dim, 100 + i)).collect();

    let seq_out = model.rollout::<F32Math>(&z, &actions);
    let fused_out = model.predict_rollout_fused::<F32Math>(&z, &actions, &mut bufs);

    assert_eq!(seq_out.len(), fused_out.len());

    // Step 0: must match (same z_start + a0, same computation path)
    let cos0 = cosine_sim(&seq_out[0], &fused_out[0]);
    assert!(
        cos0 >= 0.999,
        "Step 0 cosine sim {} should be ≥ 0.999 (same z_start + a0)",
        cos0
    );

    // Steps 1-2: differ by design (see docstring)
    let cos1 = cosine_sim(&seq_out[1], &fused_out[1]);
    let cos2 = cosine_sim(&seq_out[2], &fused_out[2]);
    assert!(
        seq_out[1].iter().all(|v| v.is_finite()),
        "sequential[1] must be finite"
    );
    assert!(
        fused_out[1].iter().all(|v| v.is_finite()),
        "fused[1] must be finite"
    );
    assert!(
        fused_out[2].iter().all(|v| v.is_finite()),
        "fused[2] must be finite"
    );
    // Document that cos1/cos2 may differ (intentional architectural difference)
    println!("Note: cos1={:.4}, cos2={:.4} (expected lower than cos0 — parallel vs autoregressive)", cos1, cos2);
}

#[allow(non_snake_case)]
/// Build a seeded pushT LeWorldModel (mirrors build_test_lewm for 192d pushT config).
fn build_test_lewm_pushT(cfg: &LeWMConfig) -> LeWorldModel<f32> {
    let h = cfg.encoder_hidden; // 192
    let pred_h = cfg.predictor_hidden; // 192
    let pred_inner = cfg.predictor_inner_dim; // 192
    let pred_inter = cfg.predictor_inter; // 768
    let act_dim = cfg.action_dim; // 10
    let patch_dim = cfg.patch_size * cfg.patch_size * cfg.channels; // 588
    let num_patches = (cfg.image_size / cfg.patch_size).pow(2); // 256
    let enc_seq_len = num_patches + 1; // 257
    let enc_inter = cfg.encoder_inter; // 768

    let mut model = LeWorldModel::from_config(cfg);

    // Encoder weights
    model.encoder.patch_proj = AlignedBuffer::from_slice(&gen_weights(h * patch_dim, 1));
    model.encoder.cls_token = AlignedBuffer::from_slice(&gen_weights(h, 2));
    model.encoder.pos_embed = AlignedBuffer::from_slice(&gen_weights(enc_seq_len * h, 3));
    model.encoder.final_norm_weight = AlignedBuffer::from_slice(&vec![1.0f32; h]);

    for (i, layer) in model.encoder.layers.iter_mut().enumerate() {
        let s = (i as u32 + 1) * 100;
        layer.attn_norm_weight = AlignedBuffer::from_slice(&vec![1.0f32; h]);
        layer.w_q = AlignedBuffer::from_slice(&gen_weights(h * h, s + 1));
        layer.w_k = AlignedBuffer::from_slice(&gen_weights(h * h, s + 2));
        layer.w_v = AlignedBuffer::from_slice(&gen_weights(h * h, s + 3));
        layer.w_o = AlignedBuffer::from_slice(&gen_weights(h * h, s + 4));
        layer.ffn_norm_weight = AlignedBuffer::from_slice(&vec![1.0f32; h]);
        layer.ffn_up = AlignedBuffer::from_slice(&gen_weights(enc_inter * h, s + 5));
        layer.ffn_down = AlignedBuffer::from_slice(&gen_weights(h * enc_inter, s + 6));
    }

    // Projector: [h] → [enc_inter] → [enc_inter] → [pred_h]
    model.projector.layers[0].0 = AlignedBuffer::from_slice(&gen_weights(enc_inter * h, 400));
    model.projector.layers[0].1 = AlignedBuffer::from_slice(&gen_weights(enc_inter, 401));
    model.projector.layers[1].0 = AlignedBuffer::from_slice(&gen_weights(enc_inter * enc_inter, 402));
    model.projector.layers[1].1 = AlignedBuffer::from_slice(&gen_weights(enc_inter, 403));
    model.projector.layers[2].0 = AlignedBuffer::from_slice(&gen_weights(pred_h * enc_inter, 404));
    model.projector.layers[2].1 = AlignedBuffer::from_slice(&gen_weights(pred_h, 405));

    // Pred_proj: same structure
    model.pred_proj.layers[0].0 = AlignedBuffer::from_slice(&gen_weights(enc_inter * pred_h, 500));
    model.pred_proj.layers[0].1 = AlignedBuffer::from_slice(&gen_weights(enc_inter, 501));
    model.pred_proj.layers[1].0 = AlignedBuffer::from_slice(&gen_weights(enc_inter * enc_inter, 502));
    model.pred_proj.layers[1].1 = AlignedBuffer::from_slice(&gen_weights(enc_inter, 503));
    model.pred_proj.layers[2].0 = AlignedBuffer::from_slice(&gen_weights(enc_inter * pred_h, 504));
    model.pred_proj.layers[2].1 = AlignedBuffer::from_slice(&gen_weights(pred_h, 505));

    // Action encoder
    model.action_conv_weight = AlignedBuffer::from_slice(&gen_weights(act_dim * act_dim, 600));
    model.action_conv_bias = AlignedBuffer::from_slice(&gen_weights(act_dim, 601));
    model.action_mlp1_weight = AlignedBuffer::from_slice(&gen_weights(enc_inter * act_dim, 602));
    model.action_mlp1_bias = AlignedBuffer::from_slice(&gen_weights(enc_inter, 603));
    model.action_mlp2_weight = AlignedBuffer::from_slice(&gen_weights(pred_h * enc_inter, 604));
    model.action_mlp2_bias = AlignedBuffer::from_slice(&gen_weights(pred_h, 605));

    // Predictor pos embed: [3, pred_h]
    model.predictor_pos_embed = AlignedBuffer::from_slice(&gen_weights(3 * pred_h, 700));

    // Predictor norm
    model.predictor_norm_weight = AlignedBuffer::from_slice(&vec![1.0f32; pred_h]);
    model.predictor_norm_bias = AlignedBuffer::from_slice(&vec![0.0f32; pred_h]);

    // Predictor layers (adaLN DiT)
    for (i, layer) in model.predictor_layers.iter_mut().enumerate() {
        let s = (i as u32 + 1) * 1000;
        layer.adaln_weight = AlignedBuffer::from_slice(&gen_weights(6 * pred_h * pred_h, s + 1));
        layer.adaln_bias = AlignedBuffer::from_slice(&gen_weights(6 * pred_h, s + 2));
        layer.to_qkv = AlignedBuffer::from_slice(&gen_weights(3 * pred_inner * pred_h, s + 3));
        layer.attn_out_weight = AlignedBuffer::from_slice(&gen_weights(pred_h * pred_inner, s + 4));
        layer.attn_out_bias = AlignedBuffer::from_slice(&gen_weights(pred_h, s + 5));
        layer.attn_norm_weight = AlignedBuffer::from_slice(&vec![1.0f32; pred_h]);
        layer.attn_norm_bias = AlignedBuffer::from_slice(&vec![0.0f32; pred_h]);
        layer.mlp_norm_weight = AlignedBuffer::from_slice(&vec![1.0f32; pred_h]);
        layer.mlp_norm_bias = AlignedBuffer::from_slice(&vec![0.0f32; pred_h]);
        layer.mlp_up_weight = AlignedBuffer::from_slice(&gen_weights(pred_inter * pred_h, s + 10));
        layer.mlp_up_bias = AlignedBuffer::from_slice(&gen_weights(pred_inter, s + 11));
        layer.mlp_down_weight = AlignedBuffer::from_slice(&gen_weights(pred_h * pred_inter, s + 12));
        layer.mlp_down_bias = AlignedBuffer::from_slice(&gen_weights(pred_h, s + 13));
    }

    model
}
