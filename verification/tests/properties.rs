use synapse_inference::attention::{attend_row, causal_attention, HeadLayout};
use synapse_inference::backend::ComputeBackend;
use synapse_inference::buffer::{AlignedBuffer, RawTensor};
use synapse_inference::config;
use synapse_inference::config::{
    ArchitectureConfig, AttentionConfig, Binary64, FFNConfig, ModelConfig, NormConfig,
    PositionConfig, RoPEScaling, RoPEStyle,
};
use synapse_inference::kv_cache::{CacheError, KVCache, KVCacheLayer};
use synapse_inference::models::lm::builder::{precompute_rope_tables, ModelBuilder};
use synapse_inference::models::lm::causal_lm::CausalLM;
use synapse_inference::models::lm::traits::Model;
use synapse_inference::models::ssm::conv::conv_step;
use synapse_inference::models::ssm::deltanet::deltanet_step;
use synapse_inference::models::ssm::hybrid::config::HybridConfig;
use synapse_inference::models::ssm::hybrid::model::{HybridLayer, HybridModel};
use synapse_inference::models::ssm::mamba::selective_scan::{compute_delta, selective_scan_step};
use synapse_inference::models::text_encoder::code_deltatok::{
    parse_block_key, CodeDeltaTokConfig, CodeDeltaTokHead,
};
use synapse_inference::models::text_encoder::code_deltatok_q4::Q4CodeDeltaTokHead;
use synapse_inference::models::text_encoder::masked_attention::masked_bidirectional_attention;
use synapse_inference::models::text_encoder::roberta;
use synapse_inference::models::text_encoder::roberta::{RoBERTaConfig, RoBERTaEncoder};
use synapse_inference::models::text_encoder::roberta_q4::Q4RoBERTaEncoder;
use synapse_inference::models::vision::adaln::LeWMBuffers;
use synapse_inference::models::vision::clip;
use synapse_inference::models::vision::code_wm;
use synapse_inference::models::vision::code_wm::{
    CodeWorldModel, CodeWorldModelConfig, GeluKind, TransformerBlock,
};
use synapse_inference::models::vision::code_wm_fused::{EncoderKernel, EncoderShape};
use synapse_inference::models::vision::lewm::{LeWMConfig, LeWorldModel};
use synapse_inference::models::vision::lewm_device::{PredictorDevice, PredictorKernel};
use synapse_inference::models::vision::vit::{EncoderLayer, ViTConfig, ViTModel};
use synapse_inference::models::vision::world_model::{
    LatentState, RealtimeRollout, WorldModel, WorldModelConfig,
};
use synapse_inference::ops;
use synapse_inference::ops::{fit, linear, matmul_t};
use synapse_inference::packed::PackedLinear;
use synapse_inference::patch::patch_embed;
use synapse_inference::rope::rotate_row;
use synapse_inference::scalar::Math;
use synapse_inference::text::{
    decimal, make_indexed_key, parse_dotted_key, parse_indexed_key, parse_usize,
};
use synapse_inference::weights::{KeyMapping, TensorMap, WeightError};

/// Single-precision arithmetic.
struct F32Math;

impl Math<f32> for F32Math {
    fn exp(x: f32) -> f32 {
        x.exp()
    }
    fn ln(x: f32) -> f32 {
        x.ln()
    }
    fn sqrt(x: f32) -> f32 {
        x.sqrt()
    }
    fn gelu(x: f32) -> f32 {
        0.5 * x * (1.0 + (0.797_884_56 * (x + 0.044715 * x * x * x)).tanh())
    }
    fn tanh(x: f32) -> f32 {
        x.tanh()
    }
    fn silu(x: f32) -> f32 {
        x / (1.0 + (-x).exp())
    }
    fn softplus(x: f32) -> f32 {
        if x > 20.0 {
            x
        } else {
            (1.0 + x.exp()).ln()
        }
    }
    fn pow(a: f32, b: f32) -> f32 {
        a.powf(b)
    }
    fn cos(x: f32) -> f32 {
        x.cos()
    }
    fn sin(x: f32) -> f32 {
        x.sin()
    }
    fn dynamic_base(base: u64, factor: u64, head_dim: usize) -> f32 {
        let d = head_dim as f64;
        (f64::from_bits(base) * f64::from_bits(factor).powf(d / (d - 2.0))) as f32
    }
    fn max(a: f32, b: f32) -> f32 {
        a.max(b)
    }
    fn greater(a: f32, b: f32) -> bool {
        a > b
    }
    fn is_finite(x: f32) -> bool {
        x.is_finite()
    }
    fn one() -> f32 {
        1.0
    }
    fn lowest() -> f32 {
        f32::NEG_INFINITY
    }
    fn count(n: usize) -> f32 {
        n as f32
    }
    fn to_count(x: f32) -> usize {
        x as usize
    }
    fn from_binary64(bits: u64) -> f32 {
        f64::from_bits(bits) as f32
    }
}

/// A packed form that keeps the matrix as it is.
struct Kept {
    w: Vec<f32>,
    n: usize,
    k: usize,
}

impl PackedLinear<f32> for Kept {
    fn pack(w: &[f32], n: usize, k: usize) -> Self {
        Kept {
            w: w.to_vec(),
            n,
            k,
        }
    }
    fn forward(&self, x: &[f32], m: usize) -> Vec<f32> {
        let mut out = vec![0.0f32; m * self.n];
        for i in 0..m {
            for j in 0..self.n {
                for d in 0..self.k {
                    out[i * self.n + j] += x[i * self.k + d] * self.w[j * self.k + d];
                }
            }
        }
        out
    }
    fn memory_bytes(&self) -> usize {
        self.w.len() * 4
    }
}

fn values(len: usize, seed: u32) -> Vec<f32> {
    let mut state = seed as u64 + 1;
    (0..len)
        .map(|_| {
            state = state
                .wrapping_mul(6364136223846793005)
                .wrapping_add(1442695040888963407);
            let bits = 0x3F800000u32 | ((state >> 41) as u32 & 0x7FFFFF);
            (f32::from_bits(bits) - 1.5) * 0.8
        })
        .collect()
}

fn buffer(len: usize, seed: u32) -> AlignedBuffer<f32> {
    AlignedBuffer::from_vec(values(len, seed))
}

fn ones(len: usize) -> AlignedBuffer<f32> {
    AlignedBuffer::from_vec(vec![1.0; len])
}

fn tensor(shape: &[usize], seed: u32) -> RawTensor<f32> {
    RawTensor {
        data: buffer(shape.iter().product(), seed),
        shape: shape.to_vec(),
    }
}

fn close(a: &[f32], b: &[f32], bound: f32) {
    assert_eq!(a.len(), b.len());
    for (i, (x, y)) in a.iter().zip(b.iter()).enumerate() {
        assert!((x - y).abs() <= bound, "element {i}: {x} against {y}");
    }
}

fn differ(a: &[f32], b: &[f32]) -> bool {
    a.iter().zip(b.iter()).any(|(x, y)| (x - y).abs() > 1e-6)
}

// ── Texts and keys ───────────────────────────────────────────────────

#[test]
fn numbers_are_read_back_as_written() {
    for n in [0usize, 7, 10, 99, 1234567890, usize::MAX] {
        assert_eq!(decimal(n), n.to_string());
        assert_eq!(parse_usize(&decimal(n)), Some(n));
    }
    assert_eq!(parse_usize("+5"), Some(5));
    assert_eq!(parse_usize("007"), Some(7));
    for s in ["", "+", "-1", "1x", " 1", "99999999999999999999999"] {
        assert_eq!(parse_usize(s), None);
    }
}

#[test]
fn indexed_keys_are_split_as_built() {
    for (i, field) in [(0usize, "attention.w_q"), (12, "x"), (3, "")] {
        let key = make_indexed_key("layers[", i, field);
        assert_eq!(key, format!("layers[{i}].{field}"));
        assert_eq!(parse_indexed_key("layers[", &key), Some((i, field)));
        assert_eq!(clip::parse_layer_key(&key), Some((i, field)));
        assert_eq!(roberta::parse_layer_key(&key), Some((i, field)));
        let dotted = format!("{i}.{field}");
        assert_eq!(parse_dotted_key(&dotted), Some((i, field)));
    }
    for key in ["layers[1", "layers[].x", "layers[a].x", "layers[1]x", "layer[1].x"] {
        assert_eq!(parse_indexed_key("layers[", key), None);
    }
    assert_eq!(parse_dotted_key("12"), None);
    assert_eq!(parse_dotted_key("x.y"), None);
    assert_eq!(
        parse_block_key("decoder[11].scale1"),
        Some(("decoder", 11, "scale1"))
    );
    assert_eq!(parse_block_key("other[0].scale1"), None);
}

// ── Formulas ─────────────────────────────────────────────────────────

#[test]
fn products_and_sums_have_exact_values() {
    assert_eq!(
        matmul_t(&[1.0f32, 2.0, 3.0, 4.0], &[1.0, 0.0, 0.5, 2.0], 2, 2, 2),
        vec![1.0, 4.5, 3.0, 9.5]
    );
    assert_eq!(
        linear(&[1.0f32, 2.0], &[3.0, 4.0, 5.0, 6.0], &[0.5, -0.5], 1, 2, 2),
        vec![11.5, 16.5]
    );
    assert_eq!(fit(&[1.0f32, 2.0, 3.0], 2), vec![1.0, 2.0]);
    assert_eq!(fit(&[1.0f32, 2.0], 3), vec![1.0, 2.0, 0.0]);
    assert_eq!(
        ops::modulate::<f32, F32Math>(&[2.0, 3.0], &[1.0, 0.5], &[0.25, -1.0]),
        vec![4.25, 3.5]
    );
    assert_eq!(
        ops::add_gated(&[1.0f32, 2.0], &[0.5, 2.0], &[4.0, 3.0]),
        vec![3.0, 8.0]
    );
}

#[test]
fn norms_and_softmax_have_exact_values() {
    close(
        &ops::rmsnorm::<f32, F32Math>(&[3.0, 4.0], &[1.0, 2.0], 0.0, 2, 1),
        &[3.0 / 12.5f32.sqrt(), 8.0 / 12.5f32.sqrt()],
        1e-6,
    );
    close(
        &ops::layernorm_with_bias::<f32, F32Math>(
            &[1.0, 3.0],
            &[2.0, 2.0],
            &[0.5, 0.5],
            0.0,
            2,
            1,
        ),
        &[-1.5, 2.5],
        1e-6,
    );
    close(
        &ops::softmax::<f32, F32Math>(&[0.0, 3.0f32.ln()]),
        &[0.25, 0.75],
        1e-6,
    );
    close(
        &clip::l2_normalize::<f32, F32Math>(&[3.0, 4.0]),
        &[0.6, 0.8],
        1e-6,
    );
    assert_eq!(
        clip::l2_normalize::<f32, F32Math>(&[0.0, 0.0]),
        vec![0.0, 0.0]
    );
}

#[test]
fn rotations_pair_dimensions_by_style() {
    // A quarter turn at position 0 for both pairs.
    let (cos, sin) = (vec![0.0f32, 0.0], vec![1.0f32, 1.0]);
    let x = [1.0f32, 2.0, 3.0, 4.0];
    assert_eq!(
        rotate_row(&x, &cos, &sin, 1, 4, 0, RoPEStyle::RotateHalf),
        vec![-3.0, -4.0, 1.0, 2.0]
    );
    assert_eq!(
        rotate_row(&x, &cos, &sin, 1, 4, 0, RoPEStyle::Interleaved),
        vec![-2.0, 1.0, -4.0, 3.0]
    );
}

#[test]
fn attention_weighs_values_by_softmax() {
    let layout = HeadLayout {
        num_heads: 1,
        num_kv_heads: 1,
        head_dim: 1,
    };
    // Scores 0 and ln 3 with a scale of one.
    let k = [0.0f32, 3.0f32.ln()];
    let v = [8.0f32, 4.0];
    close(
        &attend_row::<f32, F32Math>(layout, &[1.0], &k, &v, 0, 2),
        &[5.0],
        1e-5,
    );
    close(
        &causal_attention::<f32, F32Math>(layout, &[1.0, 1.0], &k, &v, 2),
        &[8.0, 5.0],
        1e-5,
    );
}

#[test]
fn grouped_heads_share_keys_and_values() {
    let layout = HeadLayout {
        num_heads: 4,
        num_kv_heads: 2,
        head_dim: 1,
    };
    let out = attend_row::<f32, F32Math>(layout, &[1.0, 1.0, 1.0, 1.0], &[0.0, 0.0], &[5.0, 7.0], 0, 1);
    close(&out, &[5.0, 5.0, 7.0, 7.0], 1e-6);
}

#[test]
fn patches_are_read_row_by_row() {
    // One channel, 2x2 image, patches of one pixel, projected to two elements.
    assert_eq!(
        patch_embed(&[1.0f32, 2.0, 3.0, 4.0], 2, 2, 1, 1, &[1.0, 10.0], 2),
        vec![1.0, 10.0, 2.0, 20.0, 3.0, 30.0, 4.0, 40.0]
    );
}

#[test]
fn convolution_shifts_its_window() {
    let mut state = vec![1.0f32, 2.0, 3.0];
    let y = conv_step(&[4.0], &mut state, &[1.0, 10.0, 100.0], &[0.5], 3);
    assert_eq!(state, vec![2.0, 3.0, 4.0]);
    assert_eq!(y, vec![432.5]);
}

#[test]
fn delta_rule_has_exact_values() {
    let mut memory = vec![1.0f32, 0.0, 0.0, 1.0];
    let out = deltanet_step(&[1.0, 0.0], &[1.0, 1.0], &[2.0, 3.0], 0.5, 0.25, &mut memory, 2);
    assert_eq!(memory, vec![1.0, 0.5, 0.75, 1.25]);
    assert_eq!(out, vec![1.0, 0.75]);
}

#[test]
fn selective_scan_has_exact_values() {
    // A is minus one, so the state decays by e^-delta.
    let mut state = vec![4.0f32];
    let y = selective_scan_step::<f32, F32Math>(&[2.0], &[1.0], &[0.0], &[3.0], &[0.5], &[10.0], &mut state);
    let h = 4.0 * (-1.0f32).exp() + 6.0;
    close(&state, &[h], 1e-5);
    close(&y, &[0.5 * h + 20.0], 1e-5);
    close(
        &compute_delta::<f32, F32Math>(&[0.0, 25.0]),
        &[2.0f32.ln(), 25.0],
        1e-6,
    );
}

#[test]
fn steps_stay_positive_where_the_sum_rounds_to_one() {
    let raw = [-17.5f32, -20.0, -50.0, -80.0];
    let delta = compute_delta::<f32, F32Math>(&raw);
    for (x, v) in raw.iter().zip(&delta) {
        assert_eq!(1.0 + x.exp(), 1.0);
        assert_eq!(*v, x.exp());
        assert!(*v > 0.0);
    }
    assert_eq!(compute_delta::<f32, F32Math>(&[-5.0]), vec![(1.0 + (-5.0f32).exp()).ln()]);
}

#[test]
fn tanh_form_of_gelu_has_reference_values() {
    for (x, y) in [(0.0f32, 0.0f32), (1.0, 0.841192), (-1.0, -0.158808), (2.0, 1.954598)] {
        assert!((code_wm::gelu_tanh::<f32, F32Math>(x) - y).abs() < 1e-5);
    }
}

#[test]
fn fixed_numbers_are_given_by_their_bits() {
    assert_eq!(f64::from_bits(config::BITS_1E_6), 1e-6);
    assert_eq!(f64::from_bits(config::BITS_1E_5), 1e-5);
    assert_eq!(f64::from_bits(config::BITS_1E_12), 1e-12);
    assert_eq!(f64::from_bits(config::BITS_FOUR), 4.0);
    assert_eq!(f64::from_bits(config::BITS_10000), 10000.0);
    assert_eq!(f64::from_bits(config::BITS_MILLION), 1e6);
}

// ── Caches ───────────────────────────────────────────────────────────

#[test]
fn cache_refuses_what_does_not_fit() {
    let mut cache = KVCacheLayer::<f32>::new(2, 1, 2).unwrap();
    assert_eq!(cache.append(&[1.0], &[1.0, 2.0]), Err(CacheError::RowLength));
    assert_eq!(cache.append(&[1.0, 2.0], &[3.0, 4.0]), Ok(()));
    assert_eq!(cache.append(&[5.0, 6.0], &[7.0, 8.0]), Ok(()));
    assert_eq!(cache.append(&[5.0, 6.0], &[7.0, 8.0]), Err(CacheError::Full));
    assert_eq!(
        cache.slice(),
        (&[1.0f32, 2.0, 5.0, 6.0][..], &[3.0f32, 4.0, 7.0, 8.0][..], 2)
    );
    assert!(matches!(
        KVCacheLayer::<f32>::new(1, usize::MAX, 2),
        Err(CacheError::TooLarge)
    ));
    assert_eq!(KVCache::<f32>::new(0, 4, 1, 2).unwrap().current_len(), 0);
}

// ── Language models ──────────────────────────────────────────────────

fn lm_config(ffn: FFNConfig, norm: NormConfig, scale: Option<Binary64>) -> ModelConfig {
    ModelConfig {
        name: "small".to_string(),
        architecture: ArchitectureConfig {
            hidden_size: 8,
            num_layers: 3,
            vocab_size: 20,
            max_sequence_length: 16,
            tie_word_embeddings: false,
            embed_scale: scale,
        },
        attention: AttentionConfig::GQA {
            num_heads: 4,
            num_kv_heads: 2,
            head_dim: 2,
        },
        norm,
        ffn,
        position: PositionConfig::RoPE {
            base: Binary64 {
                bits: config::BITS_10000,
            },
            max_position_embeddings: 16,
            style: RoPEStyle::RotateHalf,
            scaling: RoPEScaling::Unscaled,
        },
    }
}

fn rms() -> NormConfig {
    NormConfig::RMSNorm {
        eps: Binary64 {
            bits: config::BITS_1E_6,
        },
    }
}

fn swiglu() -> FFNConfig {
    FFNConfig::SwiGLU {
        intermediate_size: 12,
    }
}

fn lm(cfg: &ModelConfig) -> CausalLM<f32> {
    let mut model = ModelBuilder::from_config::<f32, F32Math>(cfg);
    let (h, vocab) = (cfg.architecture.hidden_size, cfg.architecture.vocab_size);
    let inter = cfg.ffn.intermediate_size();
    model.embed_tokens = buffer(vocab * h, 1);
    model.final_norm_weight = ones(h);
    model.lm_head_weight = Some(buffer(vocab * h, 2));
    for (i, layer) in model.layers.iter_mut().enumerate() {
        let s = 10 * (i as u32 + 1);
        layer.attn_norm_weight = ones(h);
        layer.w_q = buffer(8 * h, s);
        layer.w_k = buffer(4 * h, s + 1);
        layer.w_v = buffer(4 * h, s + 2);
        layer.w_o = buffer(h * 8, s + 3);
        layer.q_norm_weight = AlignedBuffer::empty();
        layer.k_norm_weight = AlignedBuffer::empty();
        layer.ffn_norm_weight = ones(h);
        layer.ffn_gate = buffer(inter * h, s + 4);
        layer.ffn_up = buffer(inter * h, s + 5);
        layer.ffn_down = buffer(h * inter, s + 6);
    }
    model
}

fn lm_cache(cfg: &ModelConfig) -> KVCache<f32> {
    KVCache::new(cfg.architecture.num_layers, 16, 2, 2).unwrap()
}

#[test]
fn later_tokens_do_not_change_earlier_logits() {
    let cfg = lm_config(swiglu(), rms(), None);
    let model = lm(&cfg);
    let short = model.forward::<F32Math>(&[3, 1, 4]);
    let long = model.forward::<F32Math>(&[3, 1, 4, 15, 9]);
    assert_eq!(short.shape, [1, 3, 20]);
    assert_eq!(long.shape, [1, 5, 20]);
    assert_eq!(short.logits[..], long.logits[..3 * 20]);
}

#[test]
fn a_scale_on_embeddings_is_applied() {
    let plain = lm_config(swiglu(), rms(), None);
    let scaled = lm_config(
        swiglu(),
        rms(),
        Some(Binary64 {
            bits: config::BITS_FOUR,
        }),
    );
    let mut by_hand = lm(&plain);
    for v in by_hand.embed_tokens.data.iter_mut() {
        *v *= 4.0;
    }
    assert_eq!(
        lm(&scaled).forward::<F32Math>(&[3, 1]).logits,
        by_hand.forward::<F32Math>(&[3, 1]).logits
    );
}

#[test]
fn unknown_tokens_have_a_zero_embedding() {
    let cfg = lm_config(swiglu(), rms(), None);
    let model = lm(&cfg);
    assert_eq!(model.token_embedding(20), vec![0.0; 8]);
    assert_eq!(model.token_embedding(u32::MAX), vec![0.0; 8]);
    assert_eq!(
        model.token_embedding(19)[..],
        model.embed_tokens.as_slice()[19 * 8..]
    );
}

#[test]
fn a_draft_through_all_layers_is_a_decode_step() {
    let cfg = lm_config(swiglu(), rms(), None);
    let model = lm(&cfg);
    let (mut a, mut b, mut c) = (lm_cache(&cfg), lm_cache(&cfg), lm_cache(&cfg));
    for cache in [&mut a, &mut b, &mut c] {
        model.forward_prefill::<F32Math>(&[3, 1], cache);
    }
    let full = model.forward_one::<F32Math>(4, &mut a);
    let draft = model.forward_one_draft::<F32Math>(4, &mut b, 99);
    let short = model.forward_one_draft::<F32Math>(4, &mut c, 1);
    assert_eq!(full.logits, draft.logits);
    assert!(differ(&full.logits, &short.logits));
    assert_eq!(c.current_len(), 3);
    assert!(c.layers.iter().all(|l| l.len() == 3));
    let (keys, values, len) = c.layers[2].slice();
    assert_eq!(keys[(len - 1) * 4..], [0.0; 4]);
    assert_eq!(values[(len - 1) * 4..], [0.0; 4]);
}

#[test]
fn models_run_behind_their_trait() {
    let cfg = lm_config(swiglu(), rms(), None);
    let model = lm(&cfg);
    let mut cache = lm_cache(&cfg);
    let m: &dyn Model<f32, F32Math> = &model;
    let full = m.forward(&[3, 1, 4]);
    let last = m.forward_prefill(&[3, 1, 4], &mut cache);
    close(&last.logits, &full.logits[2 * 20..], 1e-6);
    let one = m.forward_one(15, &mut cache);
    close(
        &one.logits,
        &m.forward(&[3, 1, 4, 15]).logits[3 * 20..],
        1e-5,
    );
    assert_eq!(m.num_layers(), 3);
    assert_eq!(m.config().name, "small");
    assert_eq!(cache.current_len(), 4);
    m.forward_one_draft(2, &mut cache, 2);
    assert_eq!(cache.current_len(), 5);
}

/// A backend that computes on the host.
struct Host;

impl ComputeBackend<f32> for Host {
    fn matmul_t(&self, a: &[f32], b: &[f32], m: usize, k: usize, n: usize) -> Vec<f32> {
        matmul_t(a, b, m, k, n)
    }
    fn rmsnorm(&self, x: &[f32], weight: &[f32], eps: f32, hidden_size: usize) -> Vec<f32> {
        ops::rmsnorm::<f32, F32Math>(x, weight, eps, hidden_size, x.len() / hidden_size)
    }
    fn swiglu(&self, gate: &[f32], up: &[f32]) -> Vec<f32> {
        gate.iter()
            .zip(up.iter())
            .map(|(g, u)| F32Math::silu(*g) * u)
            .collect()
    }
}

#[test]
fn a_backend_on_the_host_changes_nothing() {
    let layer_norm = NormConfig::LayerNorm {
        eps: Binary64 {
            bits: config::BITS_1E_5,
        },
    };
    for cfg in [
        lm_config(swiglu(), rms(), None),
        lm_config(
            FFNConfig::GeGLU {
                intermediate_size: 12,
            },
            layer_norm,
            None,
        ),
        lm_config(
            FFNConfig::GELU {
                intermediate_size: 12,
            },
            rms(),
            None,
        ),
    ] {
        let model = lm(&cfg);
        let ids = [3u32, 1, 4, 25];
        let direct = model.forward::<F32Math>(&ids);
        let dispatched = model.forward_with_backend::<F32Math, Host>(&ids, &Host);
        assert_eq!(direct.shape, dispatched.shape);
        close(&direct.logits, &dispatched.logits, 1e-6);

        let (mut a, mut b) = (lm_cache(&cfg), lm_cache(&cfg));
        let direct = model.forward_prefill::<F32Math>(&ids, &mut a);
        let dispatched = model.forward_prefill_with_backend::<F32Math, Host>(&ids, &mut b, &Host);
        close(&direct.logits, &dispatched.logits, 1e-6);
        assert_eq!(a.layers[2].slice(), b.layers[2].slice());

        let hidden = values(8, 77);
        let (cos, sin) = (&model.rope_cos, &model.rope_sin);
        let direct =
            model.layers[0].forward_one::<F32Math>(&hidden, &mut a.layers[0], 4, cos, sin);
        let dispatched = model.layers[0].forward_one_with_backend::<F32Math, Host>(
            &hidden,
            &mut b.layers[0],
            4,
            &Host,
            cos,
            sin,
        );
        close(&direct, &dispatched, 1e-6);
        assert_eq!(a.layers[0].slice(), b.layers[0].slice());

        let (mut a, mut b) = (lm_cache(&cfg), lm_cache(&cfg));
        for token in ids {
            let direct = model.forward_one::<F32Math>(token, &mut a);
            let dispatched =
                model.forward_one_with_backend::<F32Math, Host>(token, &mut b, &Host);
            assert_eq!(direct.shape, dispatched.shape);
            close(&direct.logits, &dispatched.logits, 1e-6);
        }
        assert_eq!(a.layers[1].slice(), b.layers[1].slice());
    }
}

#[test]
fn layers_on_a_device_are_read_out_on_the_host() {
    let cfg = lm_config(swiglu(), rms(), None);
    let model = lm(&cfg);
    let mut cache = lm_cache(&cfg);
    let direct = model.forward_one::<F32Math>(3, &mut cache);
    let mut cache = lm_cache(&cfg);
    let resident = model.forward_one_gpu_resident::<F32Math, _>(3, |x, shape| {
        assert_eq!(x, model.embed_tokens.data[24..32].to_vec());
        assert_eq!((shape.hidden_size, shape.num_heads, shape.num_kv_heads), (8, 4, 2));
        assert_eq!(shape.has_head_norms, model.layers[0].has_head_norms);
        model.decode_layers::<F32Math>(x, &mut cache, 0, model.layers.len())
    });
    assert_eq!(resident.shape, direct.shape);
    assert_eq!(resident.logits, direct.logits);
}

#[test]
fn a_window_limits_what_decoding_sees() {
    let cfg = lm_config(swiglu(), rms(), None);
    let mut model = lm(&cfg);
    let mut wide = lm_cache(&cfg);
    model.forward_prefill::<F32Math>(&[3, 1, 4, 1], &mut wide);
    let all = model.forward_one::<F32Math>(5, &mut wide);
    for window_size in [2usize, 50] {
        for layer in model.layers.iter_mut() {
            layer.attention = AttentionConfig::SlidingWindow {
                num_heads: 4,
                num_kv_heads: 2,
                head_dim: 2,
                window_size,
            };
        }
        let mut cache = lm_cache(&cfg);
        model.forward_prefill::<F32Math>(&[3, 1, 4, 1], &mut cache);
        let seen = model.forward_one::<F32Math>(5, &mut cache);
        assert_eq!(differ(&seen.logits, &all.logits), window_size == 2);
        assert_eq!(cache.current_len(), 5);
    }
}

#[test]
fn weights_of_a_wrong_shape_are_refused() {
    let cfg = lm_config(swiglu(), rms(), None);
    let mut model = lm(&cfg);
    let kept = model.embed_tokens.data.clone();
    match model.set_weight("embed_tokens.weight", &tensor(&[8, 20], 5)) {
        Err(WeightError::ShapeMismatch(m)) => {
            assert_eq!(m, "embed_tokens.weight: expected [20, 8], got [8, 20]")
        }
        _ => panic!("the shape should be refused"),
    }
    assert_eq!(model.embed_tokens.data, kept);
    match model.set_weight("layers[1].attention.w_k", &tensor(&[3], 5)) {
        Err(WeightError::ShapeMismatch(m)) => {
            assert_eq!(m, "attention.w_k: expected [4, 8], got [3]")
        }
        _ => panic!("the shape should be refused"),
    }
    assert!(model.set_weight("layers[1].attention.w_k", &tensor(&[4, 8], 6)).is_ok());
    assert_eq!(model.layers[1].w_k.data, values(32, 6));
    assert!(model.set_weight("layers[9].attention.w_k", &tensor(&[4, 8], 6)).is_ok());
    assert!(model.set_weight("nothing", &tensor(&[1], 6)).is_ok());
}

#[test]
fn expected_keys_that_nothing_delivers_are_missing() {
    let cfg = lm_config(swiglu(), rms(), None);
    let mut model = lm(&cfg);
    let mut weights = TensorMap::new();
    weights.insert("a".to_string(), tensor(&[8], 3));
    weights.insert("b".to_string(), tensor(&[8], 4));
    let mapping = KeyMapping {
        mapping: vec![
            ("a".to_string(), "norm.weight".to_string()),
            ("absent".to_string(), "layers[0].attention.w_q".to_string()),
            ("b".to_string(), "norm.weight".to_string()),
        ],
        unmapped: vec!["left".to_string()],
    };
    let result = model.load_weights(&weights, mapping).unwrap();
    assert_eq!(result.unexpected, vec!["left"]);
    let expected = model.expected_weight_keys();
    assert_eq!(result.missing.len(), expected.len() - 1);
    assert!(!result.missing.contains(&"norm.weight".to_string()));
    assert!(result.missing.contains(&"layers[0].attention.w_q".to_string()));
    // The last tensor under a key is kept.
    assert_eq!(model.final_norm_weight.data, values(8, 4));
}

#[test]
fn tensors_for_keys_that_nothing_expects_are_unexpected() {
    let cfg = lm_config(swiglu(), rms(), None);
    let mut model = lm(&cfg);
    let head = model.lm_head_weight.as_ref().unwrap().data.clone();
    let mut weights = TensorMap::new();
    weights.insert("a".to_string(), tensor(&[8], 3));
    weights.insert("b".to_string(), tensor(&[8], 4));
    weights.insert("c".to_string(), tensor(&[8], 5));
    let mapping = KeyMapping {
        mapping: vec![
            ("c".to_string(), "layers[9].attn_norm.weight".to_string()),
            ("a".to_string(), "norm.weight".to_string()),
            ("absent".to_string(), "layers[9].ffn_norm.weight".to_string()),
            ("b".to_string(), "nothing".to_string()),
        ],
        unmapped: vec!["left".to_string()],
    };
    let result = model.load_weights(&weights, mapping).unwrap();
    assert_eq!(result.unexpected, vec!["left", "c", "b"]);
    assert_eq!(result.missing.len(), model.expected_weight_keys().len() - 1);
    assert_eq!(model.lm_head_weight.unwrap().data, head);
}

#[test]
fn a_complete_checkpoint_makes_a_built_model_ready() {
    for tied in [false, true] {
        let mut cfg = lm_config(swiglu(), rms(), None);
        cfg.architecture.tie_word_embeddings = tied;
        let mut model = ModelBuilder::from_config::<f32, F32Math>(&cfg);
        let source = lm(&cfg);
        let mut weights = TensorMap::new();
        let mut pairs = Vec::new();
        for key in model.expected_weight_keys() {
            let shape: Vec<usize> = match key.split("].").last().unwrap() {
                "embed_tokens.weight" | "lm_head.weight" => vec![20, 8],
                "attention.w_q" | "attention.w_o" => vec![8, 8],
                "attention.w_k" | "attention.w_v" => vec![4, 8],
                "attention.q_norm" | "attention.k_norm" => vec![2],
                "ffn.w_gate" | "ffn.w_up" => vec![cfg.ffn.intermediate_size(), 8],
                "ffn.w_down" => vec![8, cfg.ffn.intermediate_size()],
                _ => vec![8],
            };
            weights.insert(key.clone(), tensor(&shape, pairs.len() as u32));
            pairs.push((key.clone(), key));
        }
        let mapping = KeyMapping {
            mapping: pairs,
            unmapped: Vec::new(),
        };
        let result = model.load_weights(&weights, mapping).unwrap();
        assert!(result.missing.is_empty() && result.unexpected.is_empty());
        assert_eq!(model.lm_head_weight.is_none(), tied);
        assert_eq!(model.config.ffn, source.config.ffn);
        let out = model.forward::<F32Math>(&[1, 2]);
        assert_eq!(out.logits.len(), 2 * 20);

        // The parameters of a layer are the elements of its tensors.
        let layer = &model.layers[0];
        let sizes: usize = layer
            .weight_keys(0)
            .iter()
            .map(|k| weights.get(k).unwrap().data.len())
            .sum();
        assert_eq!(layer.param_count(), sizes);
    }
}

#[test]
fn a_tensor_entered_again_replaces_the_first() {
    let mut weights = TensorMap::new();
    weights.insert("a".to_string(), tensor(&[2], 1));
    weights.insert("b".to_string(), tensor(&[2], 2));
    weights.insert("a".to_string(), tensor(&[2], 3));
    assert_eq!(weights.len(), 2);
    assert_eq!(weights.get("a").unwrap().data.data, values(2, 3));
    assert!(weights.get("c").is_none());
}

#[test]
fn rope_tables_scale_positions() {
    let mut cfg = lm_config(swiglu(), rms(), None);
    let plain = precompute_rope_tables::<f32, F32Math>(&cfg);
    assert_eq!(plain.0.len(), 16);
    close(&[plain.0[2], plain.1[2]], &[2.0f32.cos(), 2.0f32.sin()], 1e-6);
    cfg.position = PositionConfig::RoPE {
        base: Binary64 {
            bits: config::BITS_10000,
        },
        max_position_embeddings: 16,
        style: RoPEStyle::RotateHalf,
        scaling: RoPEScaling::Linear {
            factor: Binary64 {
                bits: config::BITS_FOUR,
            },
        },
    };
    let stretched = precompute_rope_tables::<f32, F32Math>(&cfg);
    close(&[stretched.0[8]], &[plain.0[2]], 1e-6);
    close(&[stretched.1[8]], &[plain.1[2]], 1e-6);
}

// ── Hybrid models ────────────────────────────────────────────────────

fn qwen_tensors(c: &HybridConfig) -> TensorMap<f32> {
    let (d, im) = (c.hidden_size, c.intermediate_size);
    let nh = c.deltanet_num_heads;
    let n = nh * c.deltanet_head_dim;
    let (q, kv) = (
        c.num_attention_heads * c.gqa_head_dim,
        c.num_kv_heads * c.gqa_head_dim,
    );
    let mut w = TensorMap::new();
    w.insert("model.embed_tokens.weight".to_string(), tensor(&[c.vocab_size, d], 1));
    w.insert("model.norm.weight".to_string(), tensor(&[d], 2));
    w.insert("lm_head.weight".to_string(), tensor(&[c.vocab_size, d], 3));
    for i in 0..c.num_layers {
        let s = 50 * (i as u32 + 1);
        let mut put = |name: &str, shape: &[usize], k: u32| {
            w.insert(format!("model.layers.{i}.{name}"), tensor(shape, s + k));
        };
        put("input_layernorm.weight", &[d], 0);
        put("post_attention_layernorm.weight", &[d], 1);
        put("mlp.gate_proj.weight", &[im, d], 2);
        put("mlp.up_proj.weight", &[im, d], 3);
        put("mlp.down_proj.weight", &[d, im], 4);
        if c.is_full_attention(i) {
            put("self_attn.q_proj.weight", &[q, d], 5);
            put("self_attn.k_proj.weight", &[kv, d], 6);
            put("self_attn.v_proj.weight", &[kv, d], 7);
            put("self_attn.o_proj.weight", &[d, q], 8);
            put("self_attn.q_norm.weight", &[c.gqa_head_dim], 9);
            put("self_attn.k_norm.weight", &[c.gqa_head_dim], 10);
        } else {
            let ck = c.deltanet_conv_kernel;
            put("self_attn.qkv_proj.weight", &[3 * n, d], 5);
            put("self_attn.gate_proj.weight", &[n, d], 6);
            put("self_attn.beta_proj.weight", &[nh, d], 7);
            put("self_attn.alpha_proj.weight", &[nh, d], 8);
            put("self_attn.q_conv1d.weight", &[n, ck], 9);
            put("self_attn.q_conv1d.bias", &[n], 10);
            put("self_attn.k_conv1d.weight", &[n, ck], 11);
            put("self_attn.k_conv1d.bias", &[n], 12);
            put("self_attn.v_conv1d.weight", &[n, ck], 13);
            put("self_attn.v_conv1d.bias", &[n], 14);
            put("self_attn.o_norm.weight", &[n], 15);
            put("self_attn.o_proj.weight", &[d, n], 16);
        }
    }
    w
}

fn hybrid() -> HybridModel<f32, Kept> {
    let config = HybridConfig::tiny_test();
    let weights = qwen_tensors(&config);
    HybridModel::from_weights::<F32Math>(config, &weights, 32)
        .ok()
        .unwrap()
}

#[test]
fn a_missing_tensor_is_named() {
    let mut w = TensorMap::new();
    w.insert("model.norm.weight".to_string(), tensor(&[64], 2));
    let e = HybridModel::<f32, Kept>::from_weights::<F32Math>(HybridConfig::tiny_test(), &w, 32)
        .err()
        .unwrap();
    assert_eq!(e, "missing weight: model.embed_tokens.weight");
    let e =
        HybridModel::<f32, Kept>::from_weights_lfm25::<F32Math>(HybridConfig::tiny_test_livconv(), &w, 32)
            .err()
            .unwrap();
    assert_eq!(e, "missing weight: token_embd.weight");
}

#[test]
fn a_prompt_and_a_step_are_a_longer_prompt() {
    let (mut a, mut b) = (hybrid(), hybrid());
    a.prefill::<F32Math>(&[5, 6, 7]);
    let stepped = a.decode_one::<F32Math>(8);
    let whole = b.prefill::<F32Math>(&[5, 6, 7, 8]);
    close(&stepped.logits, &whole.logits, 1e-5);
    assert_eq!(a.kv_cache_len(), 4);
    assert_eq!(b.kv_cache_len(), 4);
    assert_eq!(a.state.position, b.state.position);
}

#[test]
fn a_device_moves_the_position_of_a_hybrid_model() {
    let mut model = hybrid();
    let d = model.config.hidden_size;
    let row = model.embed_tokens[2 * d..3 * d].to_vec();
    let cached = model.kv_cache_len();
    let out = model.forward_one_gpu_resident(2, |x| {
        assert_eq!(x, row);
        vec![7.0; 3]
    });
    assert_eq!(out.logits, vec![7.0; 3]);
    assert_eq!(out.shape, [1, 1, model.config.vocab_size]);
    assert_eq!(model.state.position, 1);
    assert_eq!(model.kv_cache_len(), cached);
}

#[test]
fn a_reset_model_starts_over() {
    let mut model = hybrid();
    let fresh = hybrid().prefill::<F32Math>(&[5, 6]);
    model.prefill::<F32Math>(&[9, 9, 9]);
    assert!(differ(&model.prefill::<F32Math>(&[5, 6]).logits, &fresh.logits));
    model.reset_state();
    assert_eq!(model.kv_cache_len(), 0);
    assert_eq!(model.prefill::<F32Math>(&[5, 6]).logits, fresh.logits);
    assert_eq!(model.forward::<F32Math>(&[5, 6]).logits, fresh.logits);
    assert_eq!(model.forward_prefill::<F32Math>(&[5, 6]).logits, fresh.logits);
}

#[test]
fn packing_that_keeps_the_weights_keeps_the_logits() {
    let (mut dense, mut packed) = (hybrid(), hybrid());
    packed.quantize_layers_for_decode();
    dense.prefill::<F32Math>(&[5, 6, 7]);
    packed.prefill::<F32Math>(&[5, 6, 7]);
    let a = dense.forward_one::<F32Math>(8);
    let b = packed.forward_one::<F32Math>(8);
    close(&a.logits, &b.logits, 1e-5);
    assert!(matches!(
        &packed.layers[3],
        HybridLayer::Gqa(l) if l.q4_wq.is_some() && l.q4_ffn_down.is_some()
    ));
}

#[test]
fn memory_of_states_is_constant() {
    let mut model = hybrid();
    let (all, delta) = (model.state_memory_bytes(), model.deltanet_state_memory_bytes());
    // Three DeltaNet layers of 4 heads, 16 dimensions and a kernel of 4.
    assert_eq!(delta, 3 * (4 * 16 * 16 + 3 * 4 * 16 * 4) * 4);
    assert_eq!(all - delta, 2 * 32 * (2 * 16) * 4);
    assert_eq!(model.state.kv_memory_bytes(), all - delta);
    model.prefill::<F32Math>(&[1, 2, 3]);
    model.decode_one::<F32Math>(4);
    assert_eq!(model.state_memory_bytes(), all);
    assert_eq!(model.deltanet_state_memory_bytes(), delta);
}

#[test]
fn every_layer_is_of_one_kind() {
    for c in [
        HybridConfig::qwen35_0_8b(),
        HybridConfig::lfm25_350m(),
        HybridConfig::tiny_test(),
        HybridConfig::tiny_test_livconv(),
    ] {
        assert_eq!(
            c.num_deltanet_layers() + c.num_gqa_layers() + c.num_livconv_layers(),
            c.num_layers
        );
    }
}

#[test]
fn lfm_checkpoints_are_read_by_their_names() {
    let c = HybridConfig::tiny_test_livconv();
    let (d, im, inner) = (c.hidden_size, c.intermediate_size, c.livconv_inner_size);
    let (q, kv) = (
        c.num_attention_heads * c.gqa_head_dim,
        c.num_kv_heads * c.gqa_head_dim,
    );
    let mut w = TensorMap::new();
    w.insert("token_embd.weight".to_string(), tensor(&[c.vocab_size, d], 1));
    w.insert("token_embd_norm.weight".to_string(), tensor(&[d], 2));
    w.insert("output.weight".to_string(), tensor(&[c.vocab_size, d], 3));
    for i in 0..c.num_layers {
        let s = 50 * (i as u32 + 1);
        let mut put = |name: &str, shape: &[usize], k: u32| {
            w.insert(format!("blk.{i}.{name}"), tensor(shape, s + k));
        };
        put("attn_norm.weight", &[d], 0);
        put("ffn_norm.weight", &[d], 1);
        put("ffn_gate.weight", &[im, d], 2);
        put("ffn_up.weight", &[im, d], 3);
        put("ffn_down.weight", &[d, im], 4);
        if c.is_full_attention(i) {
            put("attn_q.weight", &[q, d], 5);
            put("attn_k.weight", &[kv, d], 6);
            put("attn_v.weight", &[kv, d], 7);
            put("attn_output.weight", &[d, q], 8);
            put("attn_q_norm.weight", &[c.gqa_head_dim], 9);
            put("attn_k_norm.weight", &[c.gqa_head_dim], 10);
        } else {
            put("shortconv.in_proj.weight", &[3 * inner, d], 5);
            put("shortconv.conv.weight", &[inner, c.livconv_kernel_size], 6);
            put("shortconv.out_proj.weight", &[d, inner], 7);
        }
    }
    let mut model = HybridModel::<f32, Kept>::from_weights_lfm25::<F32Math>(c, &w, 32)
        .ok()
        .unwrap();
    let out = model.forward::<F32Math>(&[1, 2, 3]);
    assert_eq!(out.logits.len(), 128);
    assert!(out.logits.iter().all(|v| v.is_finite()));
    assert_eq!(model.num_layers(), 4);

    // Without a width, a missing tensor is still named.
    let mut empty = HybridConfig::tiny_test_livconv();
    empty.hidden_size = 0;
    let mut w = TensorMap::new();
    w.insert("token_embd.weight".to_string(), tensor(&[0], 1));
    w.insert("token_embd_norm.weight".to_string(), tensor(&[0], 2));
    w.insert("output.weight".to_string(), tensor(&[0], 3));
    match HybridModel::<f32, Kept>::from_weights_lfm25::<F32Math>(empty, &w, 32) {
        Err(e) => assert_eq!(e, "missing weight: blk.0.attn_norm.weight"),
        Ok(_) => panic!("the tensors of the layers should be missing"),
    }
}

#[test]
fn composite_models_build_the_encoder_they_are_told() {
    let vit = ViTConfig {
        num_classes: 3,
        ..small_vit()
    };
    let clip = clip::CLIPModel::<f32>::from_config(&clip::CLIPConfig {
        vision: vit,
        text_hidden_size: 8,
        text_num_layers: 1,
        text_num_heads: 2,
        text_intermediate_size: 16,
        text_max_position: 4,
        vocab_size: 5,
        embed_dim: 4,
    });
    let world = world_model();
    let mut cfg = LeWMConfig::pusht();
    cfg.encoder_layers = 2;
    let lewm = LeWorldModel::<f32>::from_config(&cfg);
    let plain = |h: usize, heads: usize, inter: usize| (h, heads, h / heads, inter);
    for (encoder, expected) in [
        (&clip.vision_model, plain(8, 2, 16)),
        (&world.encoder, plain(8, 2, 16)),
        (&lewm.encoder, plain(192, 3, 768)),
    ] {
        assert_eq!(encoder.config.num_classes, 0);
        assert!(encoder.classifier_head.is_none() && encoder.classifier_bias.is_none());
        assert_eq!(encoder.layers.len(), 2);
        for layer in &encoder.layers {
            let layout = layer.attention.layout();
            assert_eq!(
                (
                    layer.hidden_size,
                    layout.num_heads,
                    layout.head_dim,
                    layer.ffn.intermediate_size()
                ),
                expected
            );
        }
    }
    assert!(clip.vision_model.patch_proj_bias.is_empty());
    assert_eq!(lewm.encoder.num_meta_tokens, 0);
}

// ── Vision models ────────────────────────────────────────────────────

fn small_vit() -> ViTConfig {
    ViTConfig {
        image_size: 4,
        patch_size: 2,
        channels: 1,
        hidden_size: 8,
        num_layers: 2,
        num_heads: 2,
        intermediate_size: 16,
        num_classes: 0,
    }
}

fn fill_layers(layers: &mut [EncoderLayer<f32>], h: usize, inter: usize, seed: u32) {
    for (i, layer) in layers.iter_mut().enumerate() {
        let s = seed + 10 * i as u32;
        layer.attn_norm_weight = ones(h);
        layer.w_q = buffer(h * h, s);
        layer.w_k = buffer(h * h, s + 1);
        layer.w_v = buffer(h * h, s + 2);
        layer.w_o = buffer(h * h, s + 3);
        layer.ffn_norm_weight = ones(h);
        layer.ffn_up = buffer(inter * h, s + 4);
        layer.ffn_down = buffer(h * inter, s + 5);
    }
}

fn fill_vit(vit: &mut ViTModel<f32>, c: &ViTConfig) {
    let h = c.hidden_size;
    vit.patch_proj = buffer(h * 4, 1);
    vit.cls_token = buffer(h, 2);
    vit.pos_embed = buffer(c.seq_len() * h, 3);
    vit.final_norm_weight = ones(h);
    fill_layers(&mut vit.layers, h, c.intermediate_size, 20);
}

fn world_model() -> WorldModel<f32> {
    let cfg = WorldModelConfig {
        encoder: small_vit(),
        latent_dim: 6,
        dynamics_num_layers: 2,
        dynamics_num_heads: 2,
        dynamics_hidden_size: 8,
        action_dim: 3,
    };
    let mut model = WorldModel::from_config(&cfg);
    fill_vit(&mut model.encoder, &cfg.encoder);
    model.state_proj = buffer(8 * 6, 60);
    model.action_embed = buffer(3 * 8, 61);
    model.output_proj = buffer(8 * 6, 62);
    model.dynamics_norm_weight = ones(8);
    fill_layers(&mut model.dynamics_layers, 8, 32, 70);
    model
}

fn actions(n: usize, width: usize) -> Vec<Vec<f32>> {
    (0..n).map(|i| values(width, 200 + i as u32)).collect()
}

#[test]
fn plans_come_true() {
    let mut rollout = RealtimeRollout::new(world_model());
    assert_eq!(rollout.state().embedding, vec![0.0; 6]);
    rollout.reset::<F32Math>(&values(16, 5), 4, 4);
    let start = rollout.state().embedding.clone();
    assert_eq!(
        start,
        rollout.model().encode::<F32Math>(&values(16, 5), 4, 4).embedding
    );
    let actions = actions(4, 3);
    let plan = rollout.plan::<F32Math>(&actions);
    assert_eq!(rollout.state().embedding, start);
    assert_eq!(rollout.steps(), 0);
    for (i, action) in actions.iter().enumerate() {
        let rest = rollout.plan::<F32Math>(&actions[i..].to_vec());
        let next = rollout.step::<F32Math>(action).embedding.clone();
        assert_eq!(next, plan[i].embedding);
        assert_eq!(rest[0].embedding, next);
        assert_eq!(rest.last().unwrap().embedding, plan[3].embedding);
        assert_eq!(rollout.steps(), i + 1);
    }
    rollout.reset_with_state(LatentState { embedding: start });
    assert_eq!(rollout.steps(), 0);
    assert_eq!(rollout.plan::<F32Math>(&actions)[3].embedding, plan[3].embedding);
}

#[test]
fn a_rollout_can_be_cut() {
    let model = world_model();
    let start = LatentState {
        embedding: values(6, 9),
    };
    let actions = actions(5, 3);
    let whole = model.rollout::<F32Math>(&start, &actions).states;
    let first = model.rollout::<F32Math>(&start, &actions[..2].to_vec()).states;
    let rest = model.rollout::<F32Math>(&first[1], &actions[2..].to_vec()).states;
    assert_eq!(whole[1].embedding, first[1].embedding);
    assert_eq!(whole[4].embedding, rest[2].embedding);
}

#[test]
fn missing_projections_cut_or_fill_up() {
    let mut model = world_model();
    model.state_proj = AlignedBuffer::empty();
    let z = model.encode::<F32Math>(&values(16, 5), 4, 4).embedding;
    let image = model.encoder.forward_image::<F32Math>(&values(16, 5), 4, 4);
    assert_eq!(z[..], image.embeddings[..6]);
    assert!(image.logits.is_none());
}

#[test]
fn vit_logits_need_a_head() {
    let mut c = small_vit();
    c.num_classes = 3;
    let mut vit = ViTModel::from_config(&c);
    fill_vit(&mut vit, &c);
    assert!(vit.set_weight("classifier.weight", &tensor(&[3, 8], 8)).is_ok());
    assert!(vit.set_weight("classifier.bias", &tensor(&[3], 9)).is_ok());
    let out = vit.forward_image::<F32Math>(&values(16, 5), 4, 4);
    let by_hand = linear(
        &out.embeddings,
        &values(24, 8),
        &values(3, 9),
        1,
        8,
        3,
    );
    close(&out.logits.unwrap(), &by_hand, 1e-6);
}

#[test]
fn vit_keys_lead_to_weights() {
    let c = small_vit();
    let mut vit = ViTModel::<f32>::from_config(&c);
    let keys = vit.expected_weight_keys();
    let mut weights = TensorMap::new();
    let mut mapping = Vec::new();
    for (i, key) in keys.iter().enumerate() {
        weights.insert(format!("t{i}"), tensor(&[i + 1], i as u32));
        mapping.push((format!("t{i}"), key.clone()));
    }
    let result = vit
        .load_weights(
            &weights,
            KeyMapping {
                mapping,
                unmapped: vec![],
            },
        )
        .unwrap();
    assert!(result.missing.is_empty());
    assert_eq!(vit.patch_proj.len(), 1);
    assert!(vit.layers.iter().all(|l| !l.w_q.is_empty() && !l.ffn_down.is_empty()));
}

#[test]
fn clip_refuses_only_unknown_keys() {
    let cfg = clip::CLIPConfig {
        vision: small_vit(),
        text_hidden_size: 8,
        text_num_layers: 1,
        text_num_heads: 2,
        text_intermediate_size: 16,
        text_max_position: 4,
        vocab_size: 5,
        embed_dim: 4,
    };
    assert_eq!(cfg.text_head_dim(), 4);
    let mut model = clip::CLIPModel::from_config(&cfg);
    match model.set_weight("nope", &tensor(&[1], 1)) {
        Err(WeightError::InvalidFormat(m)) => assert_eq!(m, "Unknown CLIP key: nope"),
        _ => panic!("the key should be refused"),
    }
    assert!(model.set_weight("vision.nope", &tensor(&[1], 1)).is_ok());
    assert!(model.set_weight("text.nope", &tensor(&[1], 1)).is_ok());
    assert!(model.set_vision_weight("layers[1].attention.w_v", &tensor(&[64], 2)).is_ok());
    assert!(model.set_text_weight("norm.bias", &tensor(&[8], 3)).is_ok());
    assert_eq!(model.vision_model.layers[1].w_v.data, values(64, 2));
    assert_eq!(model.text_norm_bias.data, values(8, 3));

    // A refused key is passed over; the others are loaded.
    let keys = model.expected_weight_keys();
    let mut weights = TensorMap::new();
    let mut mapping = vec![("t0".to_string(), "nope".to_string())];
    for (i, key) in keys.iter().enumerate() {
        weights.insert(format!("t{i}"), tensor(&[1], i as u32));
        mapping.push((format!("t{i}"), key.clone()));
    }
    let result = model
        .load_weights(
            &weights,
            KeyMapping {
                mapping,
                unmapped: vec!["x".to_string()],
            },
        )
        .unwrap();
    assert!(result.missing.is_empty());
    assert_eq!(result.unexpected, vec!["x"]);
    assert_eq!(model.text_proj.data, values(1, keys.len() as u32 - 1));
    assert_eq!(model.vision_pre_norm_bias.data, values(1, 4));
}

#[test]
fn clip_texts_end_in_their_last_token() {
    let cfg = clip::CLIPConfig {
        vision: small_vit(),
        text_hidden_size: 4,
        text_num_layers: 0,
        text_num_heads: 1,
        text_intermediate_size: 4,
        text_max_position: 4,
        vocab_size: 3,
        embed_dim: 4,
    };
    let mut model = clip::CLIPModel::from_config(&cfg);
    model.text_embeddings = buffer(3 * 4, 1);
    model.text_pos_embed = AlignedBuffer::from_vec(vec![0.0; 16]);
    model.text_norm_weight = ones(4);
    // Without layers, positions or a projection only the last token counts.
    let a = model.encode_text::<F32Math>(&[0, 1, 2]);
    let b = model.encode_text::<F32Math>(&[1, 1, 2]);
    assert_eq!(a, b);
    let row = &values(12, 1)[8..];
    let normed = ops::layernorm::<f32, F32Math>(row, &[1.0; 4], 1e-6, 4, 1);
    close(&a, &clip::l2_normalize::<f32, F32Math>(&normed), 1e-6);
    // An id outside the vocabulary is a row of zeros.
    assert_eq!(model.encode_text::<F32Math>(&[3]), vec![0.0; 4]);
}

fn lewm() -> LeWorldModel<f32> {
    let c = LeWMConfig {
        image_size: 4,
        patch_size: 2,
        channels: 1,
        encoder_hidden: 8,
        encoder_layers: 1,
        encoder_heads: 2,
        encoder_inter: 16,
        predictor_hidden: 8,
        predictor_layers: 2,
        predictor_heads: 2,
        predictor_inner_dim: 8,
        predictor_inter: 16,
        action_dim: 3,
        latent_dim: 6,
    };
    let mut model = LeWorldModel::from_config(&c);
    model.action_mlp1_weight = buffer(16 * 3, 1);
    model.action_mlp2_weight = buffer(6 * 16, 2);
    model.input_proj_weight = buffer(8 * 6, 3);
    model.cond_proj_weight = buffer(8 * 6, 4);
    model.predictor_pos_embed = buffer(3 * 6, 5);
    model.predictor_norm_weight = ones(8);
    model.predictor_norm_bias = buffer(8, 6);
    model.pred_proj.layers[0].0 = buffer(16 * 8, 7);
    model.pred_proj.layers[0].1 = buffer(16, 8);
    model.pred_proj.layers[1].0 = buffer(16 * 16, 9);
    model.pred_proj.layers[1].1 = buffer(16, 10);
    model.pred_proj.layers[2].0 = buffer(6 * 16, 11);
    model.pred_proj.layers[2].1 = buffer(6, 12);
    for (i, layer) in model.predictor_layers.iter_mut().enumerate() {
        let s = 20 * (i as u32 + 1);
        layer.adaln_weight = buffer(48 * 8, s);
        layer.adaln_bias = buffer(48, s + 1);
        layer.to_qkv = buffer(24 * 8, s + 2);
        layer.attn_out_weight = buffer(8 * 8, s + 3);
        layer.attn_out_bias = buffer(8, s + 4);
        layer.attn_norm_weight = ones(8);
        layer.attn_norm_bias = buffer(8, s + 5);
        layer.mlp_norm_weight = ones(8);
        layer.mlp_norm_bias = buffer(8, s + 6);
        layer.mlp_up_weight = buffer(16 * 8, s + 7);
        layer.mlp_up_bias = buffer(16, s + 8);
        layer.mlp_down_weight = buffer(8 * 16, s + 9);
        layer.mlp_down_bias = buffer(8, s + 10);
    }
    model
}

/// A device that runs the predictor layers on the host, and tells its kernels
/// apart by a shift.
struct HostDevice {
    model: LeWorldModel<f32>,
}

impl PredictorDevice<f32> for HostDevice {
    fn predict(&self, kernel: PredictorKernel, seq: &[f32], conditioning: &[f32]) -> Vec<f32> {
        let c = &self.model.config;
        let mut x = seq.to_vec();
        for layer in &self.model.predictor_layers {
            x = layer.forward::<F32Math>(
                &x,
                conditioning,
                3,
                c.predictor_hidden,
                c.predictor_heads,
                c.predictor_inner_dim,
                c.predictor_inter,
            );
        }
        let shift = match kernel {
            PredictorKernel::Layered => 0.0,
            PredictorKernel::Fused => 0.5,
            PredictorKernel::FusedV3 => 1.0,
        };
        x[2 * c.predictor_hidden] += shift;
        x
    }
}

#[test]
fn a_device_on_the_host_changes_nothing() {
    let model = lewm();
    let device = HostDevice { model: lewm() };
    let (z, action) = (values(6, 31), values(3, 32));
    let direct = model.predict_next::<F32Math>(&z, &action);
    assert_eq!(direct.len(), 6);
    assert_eq!(
        direct,
        model.predict_next_metal::<F32Math, HostDevice>(&z, &action, &device)
    );
    let fused = model.predict_next_metal_fused::<F32Math, HostDevice>(&z, &action, &device);
    let v3 = model.predict_next_metal_v3::<F32Math, HostDevice>(&z, &action, &device);
    assert!(differ(&fused, &direct) && differ(&v3, &fused));
    let actions = actions(3, 3);
    assert_eq!(
        model.rollout::<F32Math>(&z, &actions),
        model.rollout_metal::<F32Math, HostDevice>(&z, &actions, &device)
    );
}

#[test]
fn a_bottleneck_is_bridged_in_every_form() {
    let model = lewm();
    assert!(model.config.has_projection());
    let (z, action) = (values(6, 31), values(3, 32));
    let direct = model.predict_next::<F32Math>(&z, &action);
    let mut bufs = LeWMBuffers::<f32>::new(&model.config);
    close(
        &direct,
        &model.predict_next_fused::<F32Math>(&z, &action, &mut bufs),
        1e-5,
    );
    let together = model.predict_rollout_fused::<F32Math>(&z, &vec![action.clone()], &mut bufs);
    close(&direct, &together[0], 1e-5);
    let actions = actions(4, 3);
    let whole = model.rollout::<F32Math>(&z, &actions);
    let first = model.rollout::<F32Math>(&z, &actions[..2].to_vec());
    let rest = model.rollout::<F32Math>(&first[1], &actions[2..].to_vec());
    assert_eq!(whole[3], rest[1]);
}

#[test]
fn the_slim_world_model_has_a_narrow_latent() {
    let (full, slim) = (LeWMConfig::pusht(), LeWMConfig::slim());
    assert_eq!((slim.latent_dim, slim.encoder_layers, slim.predictor_layers), (96, 4, 4));
    assert_eq!(full.latent_dim, 192);
    assert_eq!(slim.predictor_hidden, full.predictor_hidden);
    let mut model = lewm();
    assert_eq!(model.fuse_mode, 0);
    model.set_fuse_mode(2);
    assert_eq!(model.fuse_mode, 2);
}

#[test]
fn lewm_counts_what_it_loads() {
    let mut model = lewm();
    let mut w = TensorMap::new();
    w.insert("predictor.pos_embedding".to_string(), tensor(&[18], 40));
    w.insert("predictor.transformer.layers.1.attn.to_qkv.weight".to_string(), tensor(&[192], 41));
    w.insert("nothing".to_string(), tensor(&[1], 42));
    w.insert("encoder.proj.0.bias".to_string(), tensor(&[6], 43));
    w.insert("encoder.proj.1.weight".to_string(), tensor(&[6], 44));
    let stats = model.load_weights(&w).unwrap();
    assert_eq!(stats.loaded, 3);
    assert_eq!(stats.skipped, vec!["nothing", "encoder.proj.1.weight"]);
    assert_eq!(model.encoder.enc_proj_bias.data, values(6, 43));
    assert_eq!(model.predictor_pos_embed.data, values(18, 40));
    assert_eq!(model.predictor_layers[1].to_qkv.data, values(192, 41));
    assert_eq!(model.predictor_layers[0].to_qkv.data, values(192, 22));
}

#[test]
fn batch_norm_parameters_are_not_loaded() {
    let mut model = LeWorldModel::<f32>::from_config(&LeWMConfig::pusht());
    let one = RawTensor {
        data: AlignedBuffer::from_slice(&[1.0]),
        shape: vec![1],
    };
    for key in ["encoder.proj.1.weight", "encoder.proj.1.bias", "encoder.proj.2.weight"] {
        assert!(!model.set_weight(key, &one));
    }
    assert!(model.encoder.enc_proj_weight.is_empty());
    assert!(model.encoder.enc_proj_bias.is_empty());
    assert!(model.set_weight("encoder.proj.0.weight", &one));
    assert_eq!(model.encoder.enc_proj_weight.data, vec![1.0]);
}

#[test]
fn only_meta_tokens_need_a_width() {
    let mut cfg = LeWMConfig::pusht();
    cfg.encoder_hidden = 0;
    let mut model = LeWorldModel::<f32>::from_config(&cfg);
    let mut w = TensorMap::new();
    w.insert("encoder.layernorm.weight".to_string(), tensor(&[2], 1));
    w.insert("nothing".to_string(), tensor(&[1], 2));
    let stats = model.load_weights(&w).unwrap();
    assert_eq!((stats.loaded, stats.skipped), (1, vec!["nothing".to_string()]));
    let mut model = lewm();
    let width = model.config.encoder_hidden;
    assert!(model.set_weight("encoder.meta_token", &tensor(&[3 * width], 3)));
    assert_eq!(model.encoder.num_meta_tokens, 3);
}

#[test]
fn used_buffers_change_no_rollout() {
    let model = lewm();
    let (z, actions) = (values(6, 31), actions(3, 3));
    let mut used = LeWMBuffers::<f32>::new(&model.config);
    model.predict_rollout_fused::<F32Math>(&values(6, 99), &actions, &mut used);
    let mut fresh = LeWMBuffers::<f32>::new(&model.config);
    let a = model.predict_rollout_fused::<F32Math>(&z, &actions, &mut used);
    let b = model.predict_rollout_fused::<F32Math>(&z, &actions, &mut fresh);
    assert_eq!(a.len(), 3);
    assert_eq!(a, b);
}

fn code_model() -> CodeWorldModel<f32> {
    let cfg = CodeWorldModelConfig {
        vocab_size: 10,
        max_seq_len: 4,
        model_dim: 8,
        num_heads: 2,
        head_dim: 4,
        mlp_hidden: 16,
        encoder_loops: 2,
        predictor_depth: 2,
        predictor_loops: 2,
        action_dim: 3,
        layernorm_eps: Binary64 {
            bits: config::BITS_1E_5,
        },
        gelu_kind: GeluKind::Erf,
    };
    let mut m = CodeWorldModel::from_config(&cfg);
    let mut w = TensorMap::new();
    w.insert("state_encoder.embedding.weight".to_string(), tensor(&[80], 1));
    w.insert("state_encoder.cls_token".to_string(), tensor(&[8], 2));
    w.insert("state_encoder.pos_enc.pe".to_string(), tensor(&[40], 3));
    w.insert("state_encoder.norm.weight".to_string(), tensor(&[8], 4));
    w.insert("action_encoder.net.0.weight".to_string(), tensor(&[24], 5));
    w.insert("action_encoder.net.2.weight".to_string(), tensor(&[64], 6));
    w.insert("predictor.norm.weight".to_string(), tensor(&[8], 7));
    w.insert("unknown".to_string(), tensor(&[8], 8));
    let stats = m.load_weights(&w).unwrap();
    assert_eq!(stats.loaded, 7);
    assert_eq!(stats.skipped, vec!["unknown"]);
    let mut seed = 20;
    for block in std::iter::once(&mut m.encoder_block).chain(m.predictor_blocks.iter_mut()) {
        for (field, len) in [
            ("norm1.weight", 8),
            ("attn.in_proj_weight", 192),
            ("attn.in_proj_bias", 24),
            ("attn.out_proj.weight", 64),
            ("norm2.weight", 8),
            ("mlp.0.weight", 128),
            ("mlp.3.weight", 128),
        ] {
            seed += 1;
            assert!(code_wm::set_block_weight(block, field, &tensor(&[len], seed)));
        }
        assert!(!code_wm::set_block_weight(block, "mlp.1.weight", &tensor(&[1], 1)));
    }
    m
}

/// Runs the encoder's loops on the host, and then some more.
struct HostLoops {
    config: CodeWorldModelConfig,
    more: usize,
}

impl EncoderKernel<f32> for HostLoops {
    fn run(
        &self,
        seq: &[f32],
        shape: EncoderShape,
        block: &TransformerBlock<f32>,
    ) -> Vec<f32> {
        assert_eq!(seq.len(), shape.rows * shape.model_dim);
        assert_eq!(shape.num_heads, self.config.num_heads);
        assert_eq!(shape.mlp_hidden, self.config.mlp_hidden);
        let mut x = seq.to_vec();
        for _ in 0..shape.loops + self.more {
            x = block.forward::<F32Math>(&x, shape.rows, &self.config);
        }
        x
    }
}

#[test]
fn a_fused_encoder_on_the_host_changes_nothing() {
    let m = code_model();
    let tokens = [1i64, 3, 2];
    let kernel = HostLoops {
        config: m.config,
        more: 0,
    };
    let direct = m.encode::<F32Math>(&tokens);
    assert_eq!(m.encode_fused::<F32Math, HostLoops>(&tokens, &kernel), direct);
    let longer = HostLoops {
        config: m.config,
        more: 1,
    };
    assert!(differ(&m.encode_fused::<F32Math, HostLoops>(&tokens, &longer), &direct));
}

#[test]
fn traces_end_in_the_result() {
    let m = code_model();
    let z = m.encode::<F32Math>(&[1, 2, 3]);
    let trace = m.encode_debug::<F32Math>(&[1, 2, 3]);
    assert_eq!(trace.encoder_final, z);
    assert_eq!(trace.seq_len_with_cls, 4);
    assert_eq!(trace.loops.len(), 2);
    assert_eq!(trace.cls_extracted[..], trace.loops[1].res2[..8]);
    let a = m.encode_action::<F32Math>(&[0.1, -0.2, 0.3]);
    let next = m.predict::<F32Math>(&z, &a);
    let trace = m.predict_debug::<F32Math>(&z, &a);
    assert_eq!(trace.pred_final, next);
    assert_eq!(trace.stacked, [z, a].concat());
    assert_eq!(trace.blocks.len(), 2);
    assert!(next.iter().all(|v| v.is_finite()));
}

#[test]
fn code_beyond_the_longest_sequence_is_cut_off() {
    let m = code_model();
    assert_eq!(
        m.encode::<F32Math>(&[1, 2, 3, 4, 5, 6]),
        m.encode::<F32Math>(&[1, 2, 3, 4])
    );
    assert!(differ(
        &m.encode::<F32Math>(&[1, 2, 3, 4]),
        &m.encode::<F32Math>(&[1, 2, 3, 5])
    ));
}

// ── Text encoders ────────────────────────────────────────────────────

#[test]
fn masked_keys_are_not_read() {
    let (q, v) = (values(12, 1), values(12, 3));
    let mut k = values(12, 2);
    let mask = [1i64, 1, 0];
    let seen = masked_bidirectional_attention::<f32, F32Math>(&q, &k, &v, 3, 2, 2, &mask);
    for x in k[8..].iter_mut() {
        *x = 1000.0;
    }
    assert_eq!(
        seen,
        masked_bidirectional_attention::<f32, F32Math>(&q, &k, &v, 3, 2, 2, &mask)
    );
    let all = masked_bidirectional_attention::<f32, F32Math>(&q, &k, &v, 3, 2, 2, &[1, 1, 1]);
    assert!(differ(&seen, &all));
}

fn roberta_model() -> RoBERTaEncoder<f32> {
    let cfg = RoBERTaConfig {
        vocab_size: 12,
        hidden_size: 8,
        num_hidden_layers: 2,
        num_attention_heads: 2,
        intermediate_size: 16,
        max_position_embeddings: 10,
        type_vocab_size: 1,
        layer_norm_eps: Binary64 {
            bits: config::BITS_1E_5,
        },
        pad_token_id: 1,
    };
    assert_eq!(cfg.head_dim(), 4);
    let mut m = RoBERTaEncoder::from_config(cfg);
    m.embeddings.word = buffer(96, 1);
    m.embeddings.position = buffer(80, 2);
    m.embeddings.token_type = buffer(8, 3);
    m.embeddings.ln_weight = ones(8);
    m.embeddings.ln_bias = buffer(8, 4);
    for (i, l) in m.layers.iter_mut().enumerate() {
        let s = 20 * (i as u32 + 1);
        for (k, (field, len)) in [
            ("attention.w_q", 64),
            ("attention.q_bias", 8),
            ("attention.w_k", 64),
            ("attention.k_bias", 8),
            ("attention.w_v", 64),
            ("attention.v_bias", 8),
            ("attention.w_o", 64),
            ("attention.o_bias", 8),
            ("attn_norm.weight", 8),
            ("attn_norm.bias", 8),
            ("ffn.w_up", 128),
            ("ffn.up_bias", 16),
            ("ffn.w_down", 128),
            ("ffn.down_bias", 8),
            ("ffn_norm.weight", 8),
            ("ffn_norm.bias", 8),
        ]
        .into_iter()
        .enumerate()
        {
            l.set_weight(field, &tensor(&[len], s + k as u32));
        }
    }
    m
}

#[test]
fn padding_leaves_the_feature_as_it_is() {
    let m = roberta_model();
    let bare = m.cls_feature::<F32Math>(&[3, 5, 7], &[1, 1, 1]);
    let padded = m.cls_feature::<F32Math>(&[3, 5, 7, 1, 1], &[1, 1, 1, 0, 0]);
    close(&bare, &padded, 1e-5);
    assert_eq!(m.forward::<F32Math>(&[3, 5, 7], &[1, 1, 1])[..8], bare[..]);
    assert!(differ(&bare, &m.cls_feature::<F32Math>(&[4, 5, 7], &[1, 1, 1])));
}

#[test]
fn packed_text_encoders_agree_with_dense_ones() {
    let m = roberta_model();
    let q = Q4RoBERTaEncoder::<f32, Kept>::from_fp32(&m);
    close(
        &m.forward::<F32Math>(&[3, 5, 7], &[1, 1, 0]),
        &q.forward::<F32Math>(&[3, 5, 7], &[1, 1, 0]),
        1e-5,
    );
    close(
        &m.cls_feature::<F32Math>(&[3, 5], &[1, 1]),
        &q.cls_feature::<F32Math>(&[3, 5], &[1, 1]),
        1e-5,
    );
    // Two layers of four square and two rectangular matrices.
    assert_eq!(q.q4_memory_bytes(), 2 * (4 * 64 + 2 * 128) * 4);
}

#[test]
fn roberta_lists_and_loads_its_keys() {
    let mut m = roberta_model();
    let keys = m.expected_weight_keys();
    assert_eq!(keys.len(), 5 + 2 * 16);
    assert_eq!(keys[0], "embeddings.word");
    let mut w = TensorMap::new();
    w.insert("a".to_string(), tensor(&[64], 90));
    let result = m
        .load_weights(
            &w,
            KeyMapping {
                mapping: vec![("a".to_string(), "layers[1].attention.w_o".to_string())],
                unmapped: vec![],
            },
        )
        .unwrap();
    assert_eq!(result.missing.len(), keys.len() - 1);
    assert_eq!(m.layers[1].w_o.data, values(64, 90));
    assert!(m.set_weight("embeddings.ln.bias", &tensor(&[8], 91)).is_ok());
    assert_eq!(m.embeddings.ln_bias.data, values(8, 91));
}

fn delta_head() -> CodeDeltaTokHead<f32> {
    let cfg = CodeDeltaTokConfig {
        feature_dim: 8,
        num_blocks: 2,
        num_heads: 2,
        num_delta_tokens: 1,
        mlp_ratio: Binary64 {
            bits: config::BITS_FOUR,
        },
        layer_norm_eps: Binary64 {
            bits: config::BITS_1E_6,
        },
    };
    assert_eq!(cfg.head_dim(), 4);
    assert_eq!(cfg.intermediate::<f32, F32Math>(), 32);
    let mut h = CodeDeltaTokHead::from_config::<F32Math>(cfg);
    for (k, (key, len)) in [
        ("z_embed", 8),
        ("pos_prev", 8),
        ("pos_next", 8),
        ("pos_z", 8),
        ("encoder_norm.weight", 8),
        ("encoder_norm.bias", 8),
        ("decoder_norm.weight", 8),
        ("decoder_norm.bias", 8),
        ("out_proj.weight", 64),
        ("out_proj.bias", 8),
    ]
    .into_iter()
    .enumerate()
    {
        h.set_weight(key, &tensor(&[len], k as u32));
    }
    for (n, stack) in ["encoder", "decoder"].into_iter().enumerate() {
        for i in 0..2usize {
            for (k, (field, len)) in [
                ("norm1.weight", 8),
                ("norm2.weight", 8),
                ("attn.in_proj_weight", 192),
                ("attn.in_proj_bias", 24),
                ("norm1.bias", 8),
                ("norm2.bias", 8),
                ("attn.out_proj.weight", 64),
                ("mlp_gate.weight", 256),
                ("mlp_up.weight", 256),
                ("mlp_down.weight", 256),
                ("scale1", 8),
                ("scale2", 8),
            ]
            .into_iter()
            .enumerate()
            {
                let seed = 30 + 40 * n as u32 + 20 * i as u32 + k as u32;
                h.set_weight(&format!("{stack}[{i}].{field}"), &tensor(&[len], seed));
            }
        }
    }
    h
}

#[test]
fn fused_projections_are_split_into_parts() {
    let h = delta_head();
    let whole = values(192, 32);
    assert_eq!(h.encoder[0].w_q.data, whole[..64]);
    assert_eq!(h.encoder[0].w_k.data, whole[64..128]);
    assert_eq!(h.encoder[0].w_v.data, whole[128..]);
    let bias = values(24, 33);
    assert_eq!(h.encoder[0].q_bias.data, bias[..8]);
    assert_eq!(h.encoder[0].v_bias.data, bias[16..]);
    let keys = h.expected_weight_keys();
    assert!(keys.contains(&"encoder[1].attn.in_proj_weight".to_string()));
    assert!(keys.contains(&"out_proj.bias".to_string()));
}

#[test]
fn packed_delta_heads_agree_with_dense_ones() {
    let h = delta_head();
    let q = Q4CodeDeltaTokHead::<f32, Kept>::from_fp32(&h);
    let (before, after) = (values(8, 80), values(8, 81));
    let delta = h.encode::<F32Math>(&before, &after);
    assert_eq!(delta.len(), 8);
    close(&delta, &q.encode::<F32Math>(&before, &after), 1e-5);
    assert!(differ(&delta, &h.encode::<F32Math>(&before, &before)));
    close(
        &h.decode::<F32Math>(&delta, &before),
        &q.decode::<F32Math>(&delta, &before),
        1e-5,
    );
    assert!(q.q4_memory_bytes() > 0);
}
