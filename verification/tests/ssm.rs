use synapse_inference::buffer::{AlignedBuffer, RawTensor};
use synapse_inference::models::ssm::deltanet::{deltanet_seq, deltanet_step, l2_normalize};
use synapse_inference::models::ssm::deltanet_state::DeltaNetLayerState;
use synapse_inference::models::ssm::hybrid::config::{HybridConfig, LayerKind};
use synapse_inference::models::ssm::hybrid::deltanet_layer::DeltaNetDecoderLayer;
use synapse_inference::models::ssm::hybrid::gqa_layer::{GqaDecoderLayer, KvLayerState};
use synapse_inference::models::ssm::hybrid::livconv_layer::{ConvLayerState, LivConvDecoderLayer};
use synapse_inference::models::ssm::hybrid::model::{HybridLayer, HybridModel};
use synapse_inference::models::ssm::mamba::block::MambaBlock;
use synapse_inference::models::ssm::mamba::selective_scan::{
    compute_delta, selective_scan_seq, selective_scan_step,
};
use synapse_inference::models::ssm::mamba::state::{MambaLayerState, RecurrentState};
use synapse_inference::models::ssm::rwkv::state::{RwkvLayerState, RwkvState};
use synapse_inference::packed::PackedLinear;
use synapse_inference::scalar::Math;
use synapse_inference::weights::TensorMap;

/// Single-precision arithmetic.
struct F32Math;

impl Math<f32> for F32Math {
    fn exp(x: f32) -> f32 {
        x.exp()
    }
    fn ln(x: f32) -> f32 {
        x.ln()
    }
    fn sqrt(x: f32) -> f32 {
        x.sqrt()
    }
    fn gelu(x: f32) -> f32 {
        0.5 * x * (1.0 + (0.797_884_56 * (x + 0.044715 * x * x * x)).tanh())
    }
    fn tanh(x: f32) -> f32 {
        x.tanh()
    }
    fn silu(x: f32) -> f32 {
        x / (1.0 + (-x).exp())
    }
    fn softplus(x: f32) -> f32 {
        if x > 20.0 {
            x
        } else {
            (1.0 + x.exp()).ln()
        }
    }
    fn pow(a: f32, b: f32) -> f32 {
        a.powf(b)
    }
    fn cos(x: f32) -> f32 {
        x.cos()
    }
    fn sin(x: f32) -> f32 {
        x.sin()
    }
    fn dynamic_base(base: u64, factor: u64, head_dim: usize) -> f32 {
        let d = head_dim as f64;
        (f64::from_bits(base) * f64::from_bits(factor).powf(d / (d - 2.0))) as f32
    }
    fn max(a: f32, b: f32) -> f32 {
        a.max(b)
    }
    fn greater(a: f32, b: f32) -> bool {
        a > b
    }
    fn is_finite(x: f32) -> bool {
        x.is_finite()
    }
    fn one() -> f32 {
        1.0
    }
    fn lowest() -> f32 {
        f32::NEG_INFINITY
    }
    fn count(n: usize) -> f32 {
        n as f32
    }
    fn to_count(x: f32) -> usize {
        x as usize
    }
    fn from_binary64(bits: u64) -> f32 {
        f64::from_bits(bits) as f32
    }
}

/// A packed form that keeps the matrix as it is.
struct Kept {
    w: Vec<f32>,
    n: usize,
    k: usize,
}

impl PackedLinear<f32> for Kept {
    fn pack(w: &[f32], n: usize, k: usize) -> Self {
        Kept {
            w: w.to_vec(),
            n,
            k,
        }
    }
    fn forward(&self, x: &[f32], m: usize) -> Vec<f32> {
        let mut out = vec![0.0f32; m * self.n];
        for i in 0..m {
            for j in 0..self.n {
                for d in 0..self.k {
                    out[i * self.n + j] += x[i * self.k + d] * self.w[j * self.k + d];
                }
            }
        }
        out
    }
    fn memory_bytes(&self) -> usize {
        self.w.len() * 4
    }
}

// ── DeltaNet recurrence ───────────────────────────────────────────────

// -----------------------------------------------------------------------
// deltanet_step tests
// -----------------------------------------------------------------------

#[test]
fn test_deltanet_step_produces_finite_output() {
    let head_dim = 4;
    let q = vec![0.1, 0.2, 0.3, 0.4];
    let k = vec![0.5, 0.6, 0.7, 0.8];
    let v = vec![0.9, 1.0, 1.1, 1.2];
    let mut memory = vec![0.0f32; head_dim * head_dim];

    let out = deltanet_step(&q, &k, &v, 0.9, 0.5, &mut memory, head_dim);

    assert_eq!(out.len(), head_dim, "output length should equal head_dim");
    for (i, &val) in out.iter().enumerate() {
        assert!(val.is_finite(), "output[{i}] = {val} is not finite");
    }
}

#[test]
fn test_deltanet_step_updates_memory() {
    let head_dim = 4;
    let q = vec![0.1, 0.2, 0.3, 0.4];
    let k = vec![0.5, 0.6, 0.7, 0.8];
    let v = vec![0.9, 1.0, 1.1, 1.2];
    let mut memory = vec![0.0f32; head_dim * head_dim];

    let _ = deltanet_step(&q, &k, &v, 0.9, 0.5, &mut memory, head_dim);

    let mem_sum: f32 = memory.iter().map(|v| v.abs()).sum();
    assert!(mem_sum > 0.0, "memory should be non-zero after a step");
}

#[test]
fn test_deltanet_alpha_controls_decay() {
    // With alpha = 0.0, old memory should be completely erased.
    let head_dim = 4;
    let q = vec![0.1, 0.2, 0.3, 0.4];
    let k = vec![0.5, 0.6, 0.7, 0.8];
    let v = vec![0.9, 1.0, 1.1, 1.2];

    // Seed with arbitrary non-zero memory
    let mut memory = vec![99.0f32; head_dim * head_dim];

    // alpha = 0 => old content is multiplied by zero and erased
    let _ = deltanet_step(&q, &k, &v, 0.0, 1.0, &mut memory, head_dim);

    // The new memory should equal exactly beta * outer(v, k)  (beta=1 here)
    for d in 0..head_dim {
        for j in 0..head_dim {
            let expected = v[d] * k[j];
            let actual = memory[d * head_dim + j];
            assert!(
                (actual - expected).abs() < 1e-6,
                "memory[{d}][{j}] = {actual}, expected {expected}"
            );
        }
    }
}

#[test]
fn test_deltanet_step_first_output_zero_from_zero_state() {
    // When the initial state is zero, the output before the state update is
    // zero. deltanet_step updates state *then* reads it for the output, so
    // the output of the FIRST step should be non-zero (it already includes
    // the new outer product).  Verify the output is finite and has the right
    // length — the exact values are checked implicitly by other tests.
    let head_dim = 4;
    let q = l2_normalize::<f32, F32Math>(&[0.1, 0.2, 0.3, 0.4]);
    let k = l2_normalize::<f32, F32Math>(&[0.5, 0.6, 0.7, 0.8]);
    let v = vec![0.9, 1.0, 1.1, 1.2];
    let mut memory = vec![0.0f32; head_dim * head_dim];

    let out = deltanet_step(&q, &k, &v, 0.9, 0.5, &mut memory, head_dim);

    assert_eq!(out.len(), head_dim);
    assert!(out.iter().all(|v| v.is_finite()));
}

// -----------------------------------------------------------------------
// deltanet_seq tests
// -----------------------------------------------------------------------

#[test]
fn test_deltanet_seq() {
    let head_dim = 4;
    let seq_len = 5;
    let q: Vec<f32> = (0..seq_len * head_dim).map(|i| i as f32 * 0.01).collect();
    let k: Vec<f32> = (0..seq_len * head_dim).map(|i| i as f32 * 0.02).collect();
    let v: Vec<f32> = (0..seq_len * head_dim).map(|i| i as f32 * 0.03 + 0.1).collect();
    let alpha: Vec<f32> = vec![0.95, 0.9, 0.85, 0.8, 0.75];
    let beta: Vec<f32> = vec![0.5, 0.6, 0.7, 0.8, 0.9];
    let mut memory = vec![0.0f32; head_dim * head_dim];

    let out = deltanet_seq(&q, &k, &v, &alpha, &beta, &mut memory, seq_len, head_dim);

    assert_eq!(out.len(), seq_len * head_dim, "output length mismatch");
    for (i, &val) in out.iter().enumerate() {
        assert!(val.is_finite(), "seq output[{i}] = {val} is not finite");
    }
}

#[test]
fn test_deltanet_seq_matches_individual_steps() {
    let head_dim = 4;
    let seq_len = 3;

    let q = vec![
        0.1, 0.2, 0.3, 0.4,
        0.5, 0.6, 0.7, 0.8,
        0.9, 1.0, 1.1, 1.2,
    ];
    let k = vec![
        0.2, 0.3, 0.4, 0.5,
        0.6, 0.7, 0.8, 0.9,
        1.0, 1.1, 1.2, 1.3,
    ];
    let v = vec![
        0.3, 0.4, 0.5, 0.6,
        0.7, 0.8, 0.9, 1.0,
        1.1, 1.2, 1.3, 1.4,
    ];
    let alpha = vec![0.9, 0.8, 0.7];
    let beta = vec![0.5, 0.6, 0.7];

    // Run deltanet_seq
    let mut mem_seq = vec![0.0f32; head_dim * head_dim];
    let seq_out =
        deltanet_seq(&q, &k, &v, &alpha, &beta, &mut mem_seq, seq_len, head_dim);

    // Run individual steps
    let mut mem_step = vec![0.0f32; head_dim * head_dim];
    let mut step_out = Vec::with_capacity(seq_len * head_dim);
    for t in 0..seq_len {
        let q_t = &q[t * head_dim..(t + 1) * head_dim];
        let k_t = &k[t * head_dim..(t + 1) * head_dim];
        let v_t = &v[t * head_dim..(t + 1) * head_dim];
        let o_t =
            deltanet_step(q_t, k_t, v_t, alpha[t], beta[t], &mut mem_step, head_dim);
        step_out.extend_from_slice(&o_t);
    }

    assert_eq!(seq_out.len(), step_out.len());
    for (i, (&a, &b)) in seq_out.iter().zip(step_out.iter()).enumerate() {
        assert!(
            (a - b).abs() < 1e-6,
            "seq vs step output[{i}]: {a} vs {b}"
        );
    }
}

// -----------------------------------------------------------------------
// l2_normalize tests
// -----------------------------------------------------------------------

#[test]
fn test_l2_normalize() {
    let x = vec![3.0f32, 4.0];
    let normed = l2_normalize::<f32, F32Math>(&x);

    // Norm should be 1.0
    let norm: f32 = normed.iter().map(|v| v * v).sum::<f32>().sqrt();
    assert!(
        (norm - 1.0).abs() < 1e-6,
        "expected unit norm, got {norm}"
    );

    // Direction preserved: 3/5 = 0.6, 4/5 = 0.8
    assert!((normed[0] - 0.6).abs() < 1e-6);
    assert!((normed[1] - 0.8).abs() < 1e-6);
}

#[test]
fn test_l2_normalize_zero_vector() {
    // A zero vector should not panic and should produce finite output.
    let x = vec![0.0f32; 4];
    let normed = l2_normalize::<f32, F32Math>(&x);
    assert_eq!(normed.len(), 4);
    assert!(normed.iter().all(|v| v.is_finite()));
}

// ── DeltaNet state ────────────────────────────────────────────────────

#[test]
fn new_creates_correct_sizes() {
    let num_heads = 4;
    let head_dim = 8;
    let conv_kernel = 4;
    let state = DeltaNetLayerState::<f32>::new(num_heads, head_dim, conv_kernel);

    assert_eq!(state.memory.len(), num_heads * head_dim * head_dim);
    assert_eq!(
        state.q_conv_state.len(),
        num_heads * head_dim * conv_kernel
    );
    assert_eq!(
        state.k_conv_state.len(),
        num_heads * head_dim * conv_kernel
    );
    assert_eq!(
        state.v_conv_state.len(),
        num_heads * head_dim * conv_kernel
    );
    assert_eq!(state.num_heads, num_heads);
    assert_eq!(state.head_dim, head_dim);
    assert_eq!(state.conv_kernel, conv_kernel);

    // All buffers should be initialised to zero
    assert!(state.memory.iter().all(|&v| v == 0.0));
    assert!(state.q_conv_state.iter().all(|&v| v == 0.0));
    assert!(state.k_conv_state.iter().all(|&v| v == 0.0));
    assert!(state.v_conv_state.iter().all(|&v| v == 0.0));
}

#[test]
fn reset_clears_all_buffers() {
    let mut state = DeltaNetLayerState::<f32>::new(2, 4, 4);

    // Dirty all buffers
    state.memory[0] = 1.5;
    state.q_conv_state[0] = 2.5;
    state.k_conv_state[0] = 3.5;
    state.v_conv_state[0] = 4.5;

    state.reset();

    assert!(state.memory.iter().all(|&v| v == 0.0), "memory not cleared");
    assert!(
        state.q_conv_state.iter().all(|&v| v == 0.0),
        "q_conv_state not cleared"
    );
    assert!(
        state.k_conv_state.iter().all(|&v| v == 0.0),
        "k_conv_state not cleared"
    );
    assert!(
        state.v_conv_state.iter().all(|&v| v == 0.0),
        "v_conv_state not cleared"
    );
}

#[test]
fn memory_bytes_is_correct() {
    let num_heads = 2;
    let head_dim = 4;
    let conv_kernel = 4;
    let state = DeltaNetLayerState::<f32>::new(num_heads, head_dim, conv_kernel);

    // memory:        2 * 4 * 4 = 32 elements
    // q/k/v_conv:    2 * 4 * 4 = 32 elements each  => 3 * 32 = 96 elements
    // total:         32 + 96 = 128 elements * 4 bytes = 512 bytes
    let expected = (num_heads * head_dim * head_dim
        + 3 * num_heads * head_dim * conv_kernel)
        * 4;
    assert_eq!(state.memory_bytes(), expected);
}

// ── Hybrid configuration ──────────────────────────────────────────────

#[test]
fn test_is_full_attention_pattern() {
    let cfg = HybridConfig::qwen35_0_8b();
    // GQA at indices 3, 7, 11, 15, 19, 23
    for i in 0..24 {
        let expected = (i + 1) % 4 == 0;
        assert_eq!(
            cfg.is_full_attention(i),
            expected,
            "layer {i}: expected is_full_attention={expected}"
        );
    }
}

#[test]
fn test_layer_counts() {
    let cfg = HybridConfig::qwen35_0_8b();
    assert_eq!(cfg.num_gqa_layers(), 6);
    assert_eq!(cfg.num_deltanet_layers(), 18);
    assert_eq!(cfg.num_livconv_layers(), 0);
    assert_eq!(cfg.num_gqa_layers() + cfg.num_deltanet_layers(), cfg.num_layers);
}

#[test]
fn test_tiny_config_counts() {
    let cfg = HybridConfig::tiny_test();
    assert_eq!(cfg.num_layers, 4);
    assert_eq!(cfg.num_gqa_layers(), 1);
    assert_eq!(cfg.num_deltanet_layers(), 3);
    assert!(cfg.is_full_attention(3));
    assert!(!cfg.is_full_attention(0));
    assert!(!cfg.is_full_attention(1));
    assert!(!cfg.is_full_attention(2));
}

#[test]
fn test_lfm25_layer_pattern() {
    let cfg = HybridConfig::lfm25_350m();
    assert_eq!(cfg.num_layers, 16);
    assert_eq!(cfg.num_gqa_layers(), 6);
    assert_eq!(cfg.num_livconv_layers(), 10);
    assert_eq!(cfg.num_deltanet_layers(), 0);

    // Verify the exact interleaving: C,C,A,C,C,A,C,C,A,C,A,C,A,C,A,C
    let expected = [
        LayerKind::LivConv, LayerKind::LivConv, LayerKind::Gqa,
        LayerKind::LivConv, LayerKind::LivConv, LayerKind::Gqa,
        LayerKind::LivConv, LayerKind::LivConv, LayerKind::Gqa,
        LayerKind::LivConv, LayerKind::Gqa,
        LayerKind::LivConv, LayerKind::Gqa,
        LayerKind::LivConv, LayerKind::Gqa,
        LayerKind::LivConv,
    ];
    for (i, &exp) in expected.iter().enumerate() {
        assert_eq!(cfg.layer_kind(i), exp, "layer {i} mismatch");
    }
}

#[test]
fn test_tiny_livconv_config() {
    let cfg = HybridConfig::tiny_test_livconv();
    assert_eq!(cfg.num_layers, 4);
    assert_eq!(cfg.num_livconv_layers(), 2);
    assert_eq!(cfg.num_gqa_layers(), 2);
    assert_eq!(cfg.num_deltanet_layers(), 0);
    assert_eq!(cfg.layer_kind(0), LayerKind::LivConv);
    assert_eq!(cfg.layer_kind(1), LayerKind::Gqa);
    assert_eq!(cfg.layer_kind(2), LayerKind::LivConv);
    assert_eq!(cfg.layer_kind(3), LayerKind::Gqa);
}

// ── Selective scan ────────────────────────────────────────────────────

fn make_test_inputs(d_inner: usize, d_state: usize) -> (Vec<f32>, Vec<f32>, Vec<f32>, Vec<f32>, Vec<f32>, Vec<f32>, Vec<f32>) {
    let x = vec![0.5f32; d_inner];
    let delta = vec![0.1f32; d_inner];
    // a_log: negative values (log of eigenvalues < 1 for stability)
    let a_log = vec![-0.5f32; d_inner * d_state];
    let b = vec![0.3f32; d_state];
    let c = vec![0.2f32; d_state];
    let d_skip = vec![1.0f32; d_inner];
    let ssm_state = vec![0.0f32; d_inner * d_state];
    (x, delta, a_log, b, c, d_skip, ssm_state)
}

#[test]
fn test_selective_scan_step_produces_finite_output() {
    let d_inner = 8;
    let d_state = 4;
    let (x, delta, a_log, b, c, d_skip, mut ssm_state) =
        make_test_inputs(d_inner, d_state);

    let y = selective_scan_step::<f32, F32Math>(&x, &delta, &a_log, &b, &c, &d_skip, &mut ssm_state);

    assert_eq!(y.len(), d_inner);
    for (i, &v) in y.iter().enumerate() {
        assert!(v.is_finite(), "output[{i}] = {v} is not finite");
    }
}

#[test]
fn test_selective_scan_step_updates_state() {
    let d_inner = 4;
    let d_state = 2;
    let (x, delta, a_log, b, c, d_skip, mut ssm_state) =
        make_test_inputs(d_inner, d_state);

    // State should be all zeros before
    assert!(ssm_state.iter().all(|&v| v == 0.0));

    selective_scan_step::<f32, F32Math>(&x, &delta, &a_log, &b, &c, &d_skip, &mut ssm_state);

    // After one step with nonzero input, state must be nonzero
    let any_nonzero = ssm_state.iter().any(|&v| v != 0.0);
    assert!(any_nonzero, "SSM state should be updated after a step with nonzero input");

    // All values should remain finite
    for (i, &v) in ssm_state.iter().enumerate() {
        assert!(v.is_finite(), "ssm_state[{i}] = {v} is not finite after step");
    }
}

#[test]
fn test_selective_scan_sequence() {
    let d_inner = 6;
    let d_state = 3;
    let seq_len = 5;

    let xs = vec![0.4f32; seq_len * d_inner];
    let deltas = vec![0.05f32; seq_len * d_inner];
    let a_log = vec![-0.3f32; d_inner * d_state];
    let bs = vec![0.2f32; seq_len * d_state];
    let cs = vec![0.1f32; seq_len * d_state];
    let d_skip = vec![1.0f32; d_inner];
    let mut ssm_state = vec![0.0f32; d_inner * d_state];

    let outputs = selective_scan_seq::<f32, F32Math>(
        &xs, &deltas, &a_log, &bs, &cs, &d_skip, &mut ssm_state,
    );

    // Output shape check
    assert_eq!(outputs.len(), seq_len * d_inner);

    // All outputs finite
    for (i, &v) in outputs.iter().enumerate() {
        assert!(v.is_finite(), "outputs[{i}] = {v} is not finite");
    }

    // Later timesteps should differ from earlier ones because state accumulates
    let t0 = &outputs[0..d_inner];
    let t4 = &outputs[4 * d_inner..5 * d_inner];
    let different = t0.iter().zip(t4.iter()).any(|(a, b)| (a - b).abs() > 1e-6);
    assert!(different, "outputs at t=0 and t=4 should differ as state accumulates");

    // Final state should be nonzero
    let any_nonzero = ssm_state.iter().any(|&v| v.abs() > 1e-9);
    assert!(any_nonzero, "SSM state should be nonzero after processing a sequence");
}

#[test]
fn compute_delta_is_positive() {
    let raw = vec![-5.0f32, -1.0, 0.0, 1.0, 5.0, 25.0];
    let delta = compute_delta::<f32, F32Math>(&raw);
    for (i, &v) in delta.iter().enumerate() {
        assert!(v > 0.0, "delta[{i}] = {v} should be positive");
        assert!(v.is_finite(), "delta[{i}] = {v} should be finite");
    }
}

#[test]
fn compute_delta_large_input_is_stable() {
    // For very large inputs, softplus(x) ≈ x
    let raw = vec![50.0f32, 100.0];
    let delta = compute_delta::<f32, F32Math>(&raw);
    assert!((delta[0] - 50.0).abs() < 1.0, "softplus(50) should ≈ 50, got {}", delta[0]);
    assert!((delta[1] - 100.0).abs() < 1.0, "softplus(100) should ≈ 100, got {}", delta[1]);
}

// ── Mamba state ───────────────────────────────────────────────────────

#[test]
fn layer_state_initialised_to_zero() {
    let s = MambaLayerState::<f32>::new(8, 4, 4);
    assert!(s.ssm_state.iter().all(|&v| v == 0.0));
    assert!(s.conv_state.iter().all(|&v| v == 0.0));
}

#[test]
fn layer_state_reset_clears_values() {
    let mut s = MambaLayerState::<f32>::new(4, 2, 2);
    s.ssm_state[0] = 1.0;
    s.conv_state[0] = 2.0;
    s.reset();
    assert!(s.ssm_state.iter().all(|&v| v == 0.0));
    assert!(s.conv_state.iter().all(|&v| v == 0.0));
}

#[test]
fn recurrent_state_position_tracking() {
    let mut rs = RecurrentState::<f32>::new(2, 8, 4, 4);
    assert_eq!(rs.position(), 0);
    rs.advance(5);
    assert_eq!(rs.position(), 5);
    rs.advance(3);
    assert_eq!(rs.position(), 8);
    rs.reset();
    assert_eq!(rs.position(), 0);
}

#[test]
fn recurrent_state_memory_bytes_is_nonzero() {
    let rs = RecurrentState::<f32>::new(2, 8, 4, 4);
    // 2 layers * (8*4 + 8*4) * 4 bytes = 2 * 64 * 4 = 512
    assert_eq!(rs.memory_bytes(), 512);
}

#[test]
fn recurrent_state_reset_clears_all_layers() {
    let mut rs = RecurrentState::<f32>::new(3, 4, 2, 2);
    for layer in &mut rs.layers {
        layer.ssm_state[0] = 99.0;
    }
    rs.reset();
    for layer in &rs.layers {
        assert!(layer.ssm_state.iter().all(|&v| v == 0.0));
    }
}

// ── RWKV state ────────────────────────────────────────────────────────

#[test]
fn state_layer_state_initialised_to_zero() {
    let s = RwkvLayerState::<f32>::new(64, 2, 32);
    assert!(s.wkv_state.iter().all(|&v| v == 0.0));
    assert!(s.time_mix_prev.iter().all(|&v| v == 0.0));
    assert!(s.channel_mix_prev.iter().all(|&v| v == 0.0));
}

#[test]
fn layer_state_sizes_are_correct() {
    let s = RwkvLayerState::<f32>::new(64, 2, 32);
    assert_eq!(s.wkv_state.len(), 2 * 32 * 32);
    assert_eq!(s.time_mix_prev.len(), 64);
    assert_eq!(s.channel_mix_prev.len(), 64);
}

#[test]
fn state_layer_state_reset_clears_values() {
    let mut s = RwkvLayerState::<f32>::new(64, 2, 32);
    s.wkv_state[0] = 1.0;
    s.time_mix_prev[0] = 2.0;
    s.channel_mix_prev[0] = 3.0;
    s.reset();
    assert!(s.wkv_state.iter().all(|&v| v == 0.0));
    assert!(s.time_mix_prev.iter().all(|&v| v == 0.0));
    assert!(s.channel_mix_prev.iter().all(|&v| v == 0.0));
}

#[test]
fn rwkv_state_position_tracking() {
    let mut rs = RwkvState::<f32>::new(2, 64, 2, 32);
    assert_eq!(rs.position(), 0);
    rs.advance(5);
    assert_eq!(rs.position(), 5);
    rs.advance(3);
    assert_eq!(rs.position(), 8);
    rs.reset();
    assert_eq!(rs.position(), 0);
}

#[test]
fn rwkv_state_memory_bytes_is_nonzero() {
    let rs = RwkvState::<f32>::new(2, 64, 2, 32);
    // 2 layers * (2*32*32 + 64 + 64) * 4 bytes = 2 * (2048 + 128) * 4 = 17408
    let expected = 2 * (2 * 32 * 32 + 64 + 64) * 4;
    assert_eq!(rs.memory_bytes(), expected);
}

#[test]
fn rwkv_state_reset_clears_all_layers() {
    let mut rs = RwkvState::<f32>::new(3, 64, 2, 32);
    for layer in &mut rs.layers {
        layer.wkv_state[0] = 99.0;
        layer.time_mix_prev[0] = 88.0;
    }
    rs.reset();
    for layer in &rs.layers {
        assert!(layer.wkv_state.iter().all(|&v| v == 0.0));
        assert!(layer.time_mix_prev.iter().all(|&v| v == 0.0));
    }
}

// ── Hybrid layers ─────────────────────────────────────────────────────

fn pseudo_random_vec(seed: u64, len: usize) -> Vec<f32> {
    let mut state = seed;
    (0..len)
        .map(|_| {
            state = state
                .wrapping_mul(6364136223846793005)
                .wrapping_add(1442695040888963407);
            let bits = 0x3F800000u32 | ((state >> 41) as u32 & 0x7FFFFF);
            (f32::from_bits(bits) - 1.5) * 0.2
        })
        .collect()
}

fn make_deltanet_layer() -> DeltaNetDecoderLayer<f32> {
    let hidden_size = 64;
    let num_heads = 4;
    let head_dim = 16;
    let intermediate_size = 128;
    let conv_kernel = 4;
    let nh_hd = num_heads * head_dim;

    DeltaNetDecoderLayer {
        hidden_size,
        num_heads,
        head_dim,
        intermediate_size,
        conv_kernel,
        norm_eps: 1e-6,
        attn_norm_weight: vec![1.0; hidden_size],
        qkv_weight: pseudo_random_vec(1, 3 * nh_hd * hidden_size),
        gate_proj_weight: pseudo_random_vec(2, nh_hd * hidden_size),
        beta_proj_weight: pseudo_random_vec(3, num_heads * hidden_size),
        alpha_proj_weight: pseudo_random_vec(4, num_heads * hidden_size),
        q_conv_weight: pseudo_random_vec(5, nh_hd * conv_kernel),
        q_conv_bias: vec![0.0; nh_hd],
        k_conv_weight: pseudo_random_vec(6, nh_hd * conv_kernel),
        k_conv_bias: vec![0.0; nh_hd],
        v_conv_weight: pseudo_random_vec(7, nh_hd * conv_kernel),
        v_conv_bias: vec![0.0; nh_hd],
        o_norm_weight: vec![1.0; nh_hd],
        o_proj_weight: pseudo_random_vec(8, hidden_size * nh_hd),
        ffn_norm_weight: vec![1.0; hidden_size],
        ffn_gate_weight: pseudo_random_vec(9, intermediate_size * hidden_size),
        ffn_up_weight: pseudo_random_vec(10, intermediate_size * hidden_size),
        ffn_down_weight: pseudo_random_vec(11, hidden_size * intermediate_size),
    }
}

fn make_gqa_layer() -> GqaDecoderLayer<f32, Kept> {
    let hidden_size = 64;
    let num_q_heads = 4;
    let num_kv_heads = 2;
    let head_dim = 16;
    let intermediate_size = 128;

    GqaDecoderLayer {
        hidden_size,
        num_q_heads,
        num_kv_heads,
        head_dim,
        intermediate_size,
        norm_eps: 1e-6,
        attn_norm_weight: vec![1.0; hidden_size],
        w_q: pseudo_random_vec(20, num_q_heads * head_dim * hidden_size),
        w_k: pseudo_random_vec(21, num_kv_heads * head_dim * hidden_size),
        w_v: pseudo_random_vec(22, num_kv_heads * head_dim * hidden_size),
        w_o: pseudo_random_vec(23, hidden_size * num_q_heads * head_dim),
        q_norm_weight: vec![1.0; head_dim],
        k_norm_weight: vec![1.0; head_dim],
        ffn_norm_weight: vec![1.0; hidden_size],
        ffn_gate_weight: pseudo_random_vec(24, intermediate_size * hidden_size),
        ffn_up_weight: pseudo_random_vec(25, intermediate_size * hidden_size),
        ffn_down_weight: pseudo_random_vec(26, hidden_size * intermediate_size),
        q4_wq: None, q4_wk: None, q4_wv: None, q4_wo: None,
        q4_ffn_gate: None, q4_ffn_up: None, q4_ffn_down: None,
    }
}

#[test]
fn deltanet_layer_forward_one_produces_finite_output() {
    let layer = make_deltanet_layer();
    let mut state = DeltaNetLayerState::new(4, 16, 4);
    let input = pseudo_random_vec(100, 64);

    let output = layer.forward_one::<F32Math>(&input, &mut state);

    assert_eq!(output.len(), 64);
    for (i, &v) in output.iter().enumerate() {
        assert!(v.is_finite(), "output[{i}] = {v} is not finite");
    }
}

#[test]
fn deltanet_layer_forward_seq_produces_finite_output() {
    let layer = make_deltanet_layer();
    let mut state = DeltaNetLayerState::new(4, 16, 4);
    let seq_len = 3;
    let input = pseudo_random_vec(101, seq_len * 64);

    let output = layer.forward_seq::<F32Math>(&input, seq_len, &mut state);

    assert_eq!(output.len(), seq_len * 64);
    for (i, &v) in output.iter().enumerate() {
        assert!(v.is_finite(), "output[{i}] = {v} is not finite");
    }
}

fn make_layer_rope_tables(max_pos: usize, half_d: usize) -> (Vec<f32>, Vec<f32>) {
    let mut cos = vec![0.0f32; max_pos * half_d];
    let mut sin = vec![0.0f32; max_pos * half_d];
    let head_dim = half_d * 2;
    for pos in 0..max_pos {
        for i in 0..half_d {
            let freq = 1.0 / (10000.0f32).powf(2.0 * i as f32 / head_dim as f32);
            let angle = pos as f32 * freq;
            cos[pos * half_d + i] = angle.cos();
            sin[pos * half_d + i] = angle.sin();
        }
    }
    (cos, sin)
}

#[test]
fn gqa_layer_forward_one_produces_finite_output() {
    let layer = make_gqa_layer();
    let mut kv = KvLayerState::new(32, 2, 16);
    let (cos, sin) = make_layer_rope_tables(32, 8);
    let input = pseudo_random_vec(200, 64);

    let output = layer.forward_one::<F32Math>(&input, &mut kv, &cos, &sin, 0);

    assert_eq!(output.len(), 64);
    for (i, &v) in output.iter().enumerate() {
        assert!(v.is_finite(), "output[{i}] = {v} is not finite");
    }
    assert_eq!(kv.len, 1);
}

#[test]
fn gqa_layer_forward_seq_produces_finite_output() {
    let layer = make_gqa_layer();
    let mut kv = KvLayerState::new(32, 2, 16);
    let (cos, sin) = make_layer_rope_tables(32, 8);
    let seq_len = 5;
    let input = pseudo_random_vec(201, seq_len * 64);

    let output = layer.forward_seq::<F32Math>(&input, seq_len, &mut kv, &cos, &sin, 0);

    assert_eq!(output.len(), seq_len * 64);
    for (i, &v) in output.iter().enumerate() {
        assert!(v.is_finite(), "output[{i}] = {v} is not finite");
    }
    assert_eq!(kv.len, seq_len);
}

#[test]
fn kv_cache_grows_with_tokens() {
    let layer = make_gqa_layer();
    let mut kv = KvLayerState::new(32, 2, 16);
    let (cos, sin) = make_layer_rope_tables(32, 8);

    let input = pseudo_random_vec(300, 64);
    let _ = layer.forward_one::<F32Math>(&input, &mut kv, &cos, &sin, 0);
    assert_eq!(kv.len, 1);

    let _ = layer.forward_one::<F32Math>(&input, &mut kv, &cos, &sin, 1);
    assert_eq!(kv.len, 2);

    let _ = layer.forward_one::<F32Math>(&input, &mut kv, &cos, &sin, 2);
    assert_eq!(kv.len, 3);
}

// --------------- LIV Conv tests ---------------

fn make_livconv_layer() -> LivConvDecoderLayer<f32, Kept> {
    let hidden_size = 64;
    let inner_size = 64;
    let conv_kernel_size = 4;
    let intermediate_size = 128;

    LivConvDecoderLayer {
        hidden_size,
        inner_size,
        conv_kernel_size,
        intermediate_size,
        norm_eps: 1e-6,
        attn_norm_weight: vec![1.0; hidden_size],
        input_proj_weight: pseudo_random_vec(40, 2 * inner_size * hidden_size),
        conv_weight: pseudo_random_vec(41, inner_size * conv_kernel_size),
        conv_bias: vec![0.0; inner_size],
        output_proj_weight: pseudo_random_vec(42, hidden_size * inner_size),
        ffn_norm_weight: vec![1.0; hidden_size],
        ffn_gate_weight: pseudo_random_vec(43, intermediate_size * hidden_size),
        ffn_up_weight: pseudo_random_vec(44, intermediate_size * hidden_size),
        ffn_down_weight: pseudo_random_vec(45, hidden_size * intermediate_size),
        q4_in_proj: None, q4_out_proj: None,
        q4_ffn_gate: None, q4_ffn_up: None, q4_ffn_down: None,
    }
}

#[test]
fn livconv_layer_forward_one_produces_finite_output() {
    let layer = make_livconv_layer();
    let mut state = ConvLayerState::new(64, 4);
    let input = pseudo_random_vec(500, 64);

    let output = layer.forward_one::<F32Math>(&input, &mut state);

    assert_eq!(output.len(), 64);
    for (i, &v) in output.iter().enumerate() {
        assert!(v.is_finite(), "output[{i}] = {v} is not finite");
    }
}

#[test]
fn livconv_layer_forward_seq_produces_finite_output() {
    let layer = make_livconv_layer();
    let mut state = ConvLayerState::new(64, 4);
    let seq_len = 5;
    let input = pseudo_random_vec(501, seq_len * 64);

    let output = layer.forward_seq::<F32Math>(&input, seq_len, &mut state);

    assert_eq!(output.len(), seq_len * 64);
    for (i, &v) in output.iter().enumerate() {
        assert!(v.is_finite(), "output[{i}] = {v} is not finite");
    }
}

#[test]
fn livconv_state_reset_gives_same_output() {
    let layer = make_livconv_layer();
    let mut state = ConvLayerState::new(64, 4);
    let input = pseudo_random_vec(502, 3 * 64);

    let out1 = layer.forward_seq::<F32Math>(&input, 3, &mut state);
    state.reset();
    let out2 = layer.forward_seq::<F32Math>(&input, 3, &mut state);

    for (i, (&a, &b)) in out1.iter().zip(out2.iter()).enumerate() {
        assert!((a - b).abs() < 1e-5, "output[{i}] differs after reset: {a} vs {b}");
    }
}

// ── Mamba block ───────────────────────────────────────────────────────

fn make_test_block() -> MambaBlock<f32> {
    let d_model = 16usize;
    let d_inner = 32usize;
    let d_state = 4usize;
    let d_conv = 4usize;
    let dt_rank = 2usize; // ceil(16 / 16) = 1, but use 2 for test variety

    MambaBlock {
        d_model,
        d_inner,
        d_state,
        d_conv,
        dt_rank,
        norm_weight: vec![1.0f32; d_model],
        norm_eps: 1e-5,
        in_proj_weight: pseudo_random_vec(1, 2 * d_inner * d_model),
        in_proj_bias: vec![],
        conv1d_weight: pseudo_random_vec(2, d_inner * d_conv),
        conv1d_bias: vec![0.0f32; d_inner],
        x_proj_weight: pseudo_random_vec(3, (dt_rank + 2 * d_state) * d_inner),
        dt_proj_weight: pseudo_random_vec(4, d_inner * dt_rank),
        dt_proj_bias: vec![0.0f32; d_inner],
        a_log: pseudo_random_vec(5, d_inner * d_state)
            .into_iter()
            .map(|v| -v.abs() - 0.1)
            .collect(),
        d_param: vec![1.0f32; d_inner],
        out_proj_weight: pseudo_random_vec(6, d_model * d_inner),
        out_proj_bias: vec![],
    }
}

#[test]
fn test_mamba_block_forward_one() {
    let block = make_test_block();
    let mut state = MambaLayerState::<f32>::new(block.d_inner, block.d_state, block.d_conv);
    let input = pseudo_random_vec(42, block.d_model);

    let output = block.forward_one::<F32Math>(&input, &mut state);

    assert_eq!(output.len(), block.d_model, "output length should be d_model");
    for (i, &v) in output.iter().enumerate() {
        assert!(v.is_finite(), "output[{i}] = {v} is not finite");
    }
}

#[test]
fn test_mamba_block_forward_seq() {
    let block = make_test_block();
    let seq_len = 4usize;
    let mut state = MambaLayerState::<f32>::new(block.d_inner, block.d_state, block.d_conv);
    let input = pseudo_random_vec(7, seq_len * block.d_model);

    let output = block.forward_seq::<F32Math>(&input, seq_len, &mut state);

    assert_eq!(output.len(), seq_len * block.d_model, "output length should be seq_len * d_model");
    for (i, &v) in output.iter().enumerate() {
        assert!(v.is_finite(), "output[{i}] = {v} is not finite");
    }
}

#[test]
fn test_mamba_block_seq_matches_steps() {
    let block = make_test_block();
    let seq_len = 4usize;
    let d_model = block.d_model;

    let input = pseudo_random_vec(99, seq_len * d_model);

    // Run forward_seq
    let mut state_seq = MambaLayerState::<f32>::new(block.d_inner, block.d_state, block.d_conv);
    let seq_output = block.forward_seq::<F32Math>(&input, seq_len, &mut state_seq);

    // Run forward_one step-by-step
    let mut state_steps = MambaLayerState::<f32>::new(block.d_inner, block.d_state, block.d_conv);
    let mut step_outputs = Vec::with_capacity(seq_len * d_model);
    for t in 0..seq_len {
        let token = &input[t * d_model..(t + 1) * d_model];
        let out = block.forward_one::<F32Math>(token, &mut state_steps);
        step_outputs.extend_from_slice(&out);
    }

    assert_eq!(seq_output.len(), step_outputs.len());

    let max_diff = seq_output
        .iter()
        .zip(step_outputs.iter())
        .map(|(&a, &b)| (a - b).abs())
        .fold(0.0f32, f32::max);

    assert!(
        max_diff < 1e-4,
        "seq and step-by-step outputs differ by {max_diff} (threshold 1e-4)"
    );
}

// ── Hybrid model ──────────────────────────────────────────────────────

fn make_rope_tables(max_pos: usize, head_dim: usize) -> (Vec<f32>, Vec<f32>) {
    let half_d = head_dim / 2;
    let mut cos = vec![0.0f32; max_pos * half_d];
    let mut sin = vec![0.0f32; max_pos * half_d];
    for pos in 0..max_pos {
        for i in 0..half_d {
            let freq = 1.0 / (10000.0f32).powf(2.0 * i as f32 / head_dim as f32);
            let angle = pos as f32 * freq;
            cos[pos * half_d + i] = angle.cos();
            sin[pos * half_d + i] = angle.sin();
        }
    }
    (cos, sin)
}

fn make_test_model() -> HybridModel<f32, Kept> {
    let config = HybridConfig::tiny_test();
    let d = config.hidden_size;       // 64
    let vocab = config.vocab_size;    // 128
    let nh_dn = config.deltanet_num_heads; // 4
    let hd_dn = config.deltanet_head_dim;  // 16
    let ck = config.deltanet_conv_kernel;   // 4
    let nq = config.num_attention_heads;    // 4
    let nkv = config.num_kv_heads;          // 2
    let hd_gqa = config.gqa_head_dim;       // 16
    let im = config.intermediate_size;      // 128
    let nh_hd_dn = nh_dn * hd_dn;          // 64

    let embed_tokens = pseudo_random_vec(100, vocab * d);
    let final_norm_weight = vec![1.0f32; d];
    let lm_head_weight = pseudo_random_vec(200, vocab * d);

    let max_kv_seq = 64;
    let (rope_cos, rope_sin) = make_rope_tables(max_kv_seq, hd_gqa);

    let mut layers = Vec::new();
    for layer_idx in 0..config.num_layers {
        let seed_base = (layer_idx as u64 + 1) * 1000;
        if config.is_full_attention(layer_idx) {
            // GQA layer
            layers.push(HybridLayer::Gqa(GqaDecoderLayer {
                hidden_size: d,
                num_q_heads: nq,
                num_kv_heads: nkv,
                head_dim: hd_gqa,
                intermediate_size: im,
                norm_eps: f64::from_bits(config.norm_eps.bits) as f32,
                attn_norm_weight: vec![1.0; d],
                w_q: pseudo_random_vec(seed_base + 1, nq * hd_gqa * d),
                w_k: pseudo_random_vec(seed_base + 2, nkv * hd_gqa * d),
                w_v: pseudo_random_vec(seed_base + 3, nkv * hd_gqa * d),
                w_o: pseudo_random_vec(seed_base + 4, d * nq * hd_gqa),
                q_norm_weight: vec![1.0; hd_gqa],
                k_norm_weight: vec![1.0; hd_gqa],
                ffn_norm_weight: vec![1.0; d],
                ffn_gate_weight: pseudo_random_vec(seed_base + 5, im * d),
                ffn_up_weight: pseudo_random_vec(seed_base + 6, im * d),
                ffn_down_weight: pseudo_random_vec(seed_base + 7, d * im),
                q4_wq: None, q4_wk: None, q4_wv: None, q4_wo: None,
                q4_ffn_gate: None, q4_ffn_up: None, q4_ffn_down: None,
            }));
        } else {
            // DeltaNet layer
            layers.push(HybridLayer::DeltaNet(DeltaNetDecoderLayer {
                hidden_size: d,
                num_heads: nh_dn,
                head_dim: hd_dn,
                intermediate_size: im,
                conv_kernel: ck,
                norm_eps: f64::from_bits(config.norm_eps.bits) as f32,
                attn_norm_weight: vec![1.0; d],
                qkv_weight: pseudo_random_vec(seed_base + 1, 3 * nh_hd_dn * d),
                gate_proj_weight: pseudo_random_vec(seed_base + 2, nh_hd_dn * d),
                beta_proj_weight: pseudo_random_vec(seed_base + 3, nh_dn * d),
                alpha_proj_weight: pseudo_random_vec(seed_base + 4, nh_dn * d),
                q_conv_weight: pseudo_random_vec(seed_base + 5, nh_hd_dn * ck),
                q_conv_bias: vec![0.0; nh_hd_dn],
                k_conv_weight: pseudo_random_vec(seed_base + 6, nh_hd_dn * ck),
                k_conv_bias: vec![0.0; nh_hd_dn],
                v_conv_weight: pseudo_random_vec(seed_base + 7, nh_hd_dn * ck),
                v_conv_bias: vec![0.0; nh_hd_dn],
                o_norm_weight: vec![1.0; nh_hd_dn],
                o_proj_weight: pseudo_random_vec(seed_base + 8, d * nh_hd_dn),
                ffn_norm_weight: vec![1.0; d],
                ffn_gate_weight: pseudo_random_vec(seed_base + 9, im * d),
                ffn_up_weight: pseudo_random_vec(seed_base + 10, im * d),
                ffn_down_weight: pseudo_random_vec(seed_base + 11, d * im),
            }));
        }
    }

    HybridModel::new(
        config,
        embed_tokens,
        vec![], // no embed norm in tests
        layers,
        final_norm_weight,
        Some(lm_head_weight),
        rope_cos,
        rope_sin,
        max_kv_seq,
    )
}

#[test]
fn test_hybrid_forward_produces_finite_logits() {
    let mut model = make_test_model();
    let vocab = model.config.vocab_size;

    let output = model.forward::<F32Math>(&[1, 2, 3]);
    assert_eq!(output.shape, [1, 1, vocab]);
    assert_eq!(output.logits.len(), vocab);
    for (i, &v) in output.logits.iter().enumerate() {
        assert!(v.is_finite(), "logit[{i}] = {v} is not finite");
    }
}

#[test]
fn test_hybrid_prefill_then_decode() {
    let mut model = make_test_model();
    let vocab = model.config.vocab_size;

    model.reset_state();
    let out1 = model.prefill::<F32Math>(&[1, 2, 3]);
    assert_eq!(out1.shape, [1, 1, vocab]);
    for (i, &v) in out1.logits.iter().enumerate() {
        assert!(v.is_finite(), "prefill logit[{i}] = {v} is not finite");
    }

    let out2 = model.decode_one::<F32Math>(4);
    assert_eq!(out2.shape, [1, 1, vocab]);
    for (i, &v) in out2.logits.iter().enumerate() {
        assert!(v.is_finite(), "decode1 logit[{i}] = {v} is not finite");
    }

    let out3 = model.decode_one::<F32Math>(5);
    assert_eq!(out3.shape, [1, 1, vocab]);
    for (i, &v) in out3.logits.iter().enumerate() {
        assert!(v.is_finite(), "decode2 logit[{i}] = {v} is not finite");
    }
}

#[test]
fn test_hybrid_deltanet_state_constant() {
    let mut model = make_test_model();

    // DeltaNet state memory should be constant regardless of tokens processed
    let dn_mem_before = model.deltanet_state_memory_bytes();
    assert!(dn_mem_before > 0, "DeltaNet state memory should be nonzero");

    model.reset_state();
    let _ = model.prefill::<F32Math>(&[1, 2, 3]);
    let dn_mem_after_prefill = model.deltanet_state_memory_bytes();
    assert_eq!(
        dn_mem_before, dn_mem_after_prefill,
        "DeltaNet state memory should not change after prefill"
    );

    let _ = model.decode_one::<F32Math>(4);
    let _ = model.decode_one::<F32Math>(5);
    let dn_mem_after_decode = model.deltanet_state_memory_bytes();
    assert_eq!(
        dn_mem_before, dn_mem_after_decode,
        "DeltaNet state memory should not change after decode steps"
    );

    // KV cache logical length should grow
    assert_eq!(
        model.kv_cache_len(),
        5,
        "KV cache should hold 5 tokens (3 prefill + 2 decode)"
    );
}

#[test]
fn test_hybrid_reset_state() {
    let mut model = make_test_model();

    // Process some tokens
    model.reset_state();
    let out1 = model.prefill::<F32Math>(&[1, 2, 3]);

    // Reset and process the same tokens again
    model.reset_state();
    let out2 = model.prefill::<F32Math>(&[1, 2, 3]);

    // Should produce identical logits
    assert_eq!(out1.logits.len(), out2.logits.len());
    for (i, (&a, &b)) in out1.logits.iter().zip(out2.logits.iter()).enumerate() {
        assert!(
            (a - b).abs() < 1e-5,
            "logit[{i}] differs after reset: {a} vs {b}"
        );
    }

    // KV cache should be back to fresh state
    assert_eq!(model.kv_cache_len(), 3);
}

#[test]
fn test_hybrid_layer_pattern() {
    let model = make_test_model();
    assert_eq!(model.layers.len(), 4);

    // Layers 0, 1, 2 should be DeltaNet; layer 3 should be GQA
    for (i, layer) in model.layers.iter().enumerate() {
        let kind = model.config.layer_kind(i);
        match (layer, kind) {
            (HybridLayer::DeltaNet(_), LayerKind::DeltaNet) => {}
            (HybridLayer::Gqa(_), LayerKind::Gqa) => {}
            (HybridLayer::LivConv(_), LayerKind::LivConv) => {}
            _ => panic!("layer {i}: type/config mismatch"),
        }
    }
}

// ---- LIV Conv hybrid model tests ----

fn make_livconv_test_model() -> HybridModel<f32, Kept> {
    let config = HybridConfig::tiny_test_livconv();
    let d = config.hidden_size;       // 64
    let vocab = config.vocab_size;    // 128
    let nq = config.num_attention_heads;    // 4
    let nkv = config.num_kv_heads;          // 2
    let hd_gqa = config.gqa_head_dim;       // 16
    let im = config.intermediate_size;      // 128
    let inner = config.livconv_inner_size;   // 64
    let ck = config.livconv_kernel_size;     // 4

    let embed_tokens = pseudo_random_vec(100, vocab * d);
    let final_norm_weight = vec![1.0f32; d];
    let lm_head_weight = pseudo_random_vec(200, vocab * d);

    let max_kv_seq = 64;
    let (rope_cos, rope_sin) = make_rope_tables(max_kv_seq, hd_gqa);

    let mut layers = Vec::new();
    for layer_idx in 0..config.num_layers {
        let seed_base = (layer_idx as u64 + 1) * 1000;
        match config.layer_kind(layer_idx) {
            LayerKind::LivConv => {
                layers.push(HybridLayer::LivConv(LivConvDecoderLayer {
                    hidden_size: d,
                    inner_size: inner,
                    conv_kernel_size: ck,
                    intermediate_size: im,
                    norm_eps: f64::from_bits(config.norm_eps.bits) as f32,
                    attn_norm_weight: vec![1.0; d],
                    input_proj_weight: pseudo_random_vec(seed_base + 1, 2 * inner * d),
                    conv_weight: pseudo_random_vec(seed_base + 2, inner * ck),
                    conv_bias: vec![0.0; inner],
                    output_proj_weight: pseudo_random_vec(seed_base + 3, d * inner),
                    ffn_norm_weight: vec![1.0; d],
                    ffn_gate_weight: pseudo_random_vec(seed_base + 4, im * d),
                    ffn_up_weight: pseudo_random_vec(seed_base + 5, im * d),
                    ffn_down_weight: pseudo_random_vec(seed_base + 6, d * im),
                    q4_in_proj: None, q4_out_proj: None,
                    q4_ffn_gate: None, q4_ffn_up: None, q4_ffn_down: None,
                }));
            }
            LayerKind::Gqa => {
                layers.push(HybridLayer::Gqa(GqaDecoderLayer {
                    hidden_size: d,
                    num_q_heads: nq,
                    num_kv_heads: nkv,
                    head_dim: hd_gqa,
                    intermediate_size: im,
                    norm_eps: f64::from_bits(config.norm_eps.bits) as f32,
                    attn_norm_weight: vec![1.0; d],
                    w_q: pseudo_random_vec(seed_base + 1, nq * hd_gqa * d),
                    w_k: pseudo_random_vec(seed_base + 2, nkv * hd_gqa * d),
                    w_v: pseudo_random_vec(seed_base + 3, nkv * hd_gqa * d),
                    w_o: pseudo_random_vec(seed_base + 4, d * nq * hd_gqa),
                    q_norm_weight: vec![1.0; hd_gqa],
                    k_norm_weight: vec![1.0; hd_gqa],
                    ffn_norm_weight: vec![1.0; d],
                    ffn_gate_weight: pseudo_random_vec(seed_base + 5, im * d),
                    ffn_up_weight: pseudo_random_vec(seed_base + 6, im * d),
                    ffn_down_weight: pseudo_random_vec(seed_base + 7, d * im),
                    q4_wq: None, q4_wk: None, q4_wv: None, q4_wo: None,
                    q4_ffn_gate: None, q4_ffn_up: None, q4_ffn_down: None,
                }));
            }
            LayerKind::DeltaNet => unreachable!("livconv test config has no DeltaNet"),
        }
    }

    HybridModel::new(
        config, embed_tokens, vec![], layers, final_norm_weight,
        Some(lm_head_weight), rope_cos, rope_sin, max_kv_seq,
    )
}

#[test]
fn test_livconv_hybrid_forward() {
    let mut model = make_livconv_test_model();
    let output = model.forward::<F32Math>(&[1, 2, 3]);
    assert_eq!(output.shape, [1, 1, model.config.vocab_size]);
    for (i, &v) in output.logits.iter().enumerate() {
        assert!(v.is_finite(), "logit[{i}] = {v} is not finite");
    }
}

#[test]
fn test_livconv_hybrid_prefill_then_decode() {
    let mut model = make_livconv_test_model();
    model.reset_state();
    let out1 = model.prefill::<F32Math>(&[1, 2, 3]);
    for (i, &v) in out1.logits.iter().enumerate() {
        assert!(v.is_finite(), "prefill logit[{i}] = {v} is not finite");
    }
    let out2 = model.decode_one::<F32Math>(4);
    for (i, &v) in out2.logits.iter().enumerate() {
        assert!(v.is_finite(), "decode logit[{i}] = {v} is not finite");
    }
}

#[test]
fn test_livconv_hybrid_reset() {
    let mut model = make_livconv_test_model();
    model.reset_state();
    let out1 = model.prefill::<F32Math>(&[1, 2, 3]);
    model.reset_state();
    let out2 = model.prefill::<F32Math>(&[1, 2, 3]);
    for (i, (&a, &b)) in out1.logits.iter().zip(out2.logits.iter()).enumerate() {
        assert!((a - b).abs() < 1e-5, "logit[{i}] differs: {a} vs {b}");
    }
}

#[test]
fn test_hybrid_model_from_weights() {

    let config = HybridConfig::tiny_test();
    let d = config.hidden_size;
    let vocab = config.vocab_size;
    let im = config.intermediate_size;
    let nh_dn = config.deltanet_num_heads;
    let hd_dn = config.deltanet_head_dim;
    let nh_hd_dn = nh_dn * hd_dn;
    let ck = config.deltanet_conv_kernel;
    let nq = config.num_attention_heads;
    let nkv = config.num_kv_heads;
    let hd_gqa = config.gqa_head_dim;

    let mut weights: TensorMap<f32> = TensorMap::new();
    let make = |shape: Vec<usize>, seed: u64| -> RawTensor<f32> {
        let len: usize = shape.iter().product();
        RawTensor {
            data: AlignedBuffer::from_slice(&pseudo_random_vec(seed, len)),
            shape,
        }
    };

    weights.insert("model.embed_tokens.weight".into(), make(vec![vocab, d], 10));
    weights.insert("model.norm.weight".into(), make(vec![d], 11));
    weights.insert("lm_head.weight".into(), make(vec![vocab, d], 12));

    for i in 0..config.num_layers {
        let s = (i as u64 + 1) * 100;
        let p = format!("model.layers.{i}");

        if config.is_full_attention(i) {
            weights.insert(format!("{p}.input_layernorm.weight"), make(vec![d], s));
            weights.insert(format!("{p}.self_attn.q_proj.weight"), make(vec![nq * hd_gqa, d], s+1));
            weights.insert(format!("{p}.self_attn.k_proj.weight"), make(vec![nkv * hd_gqa, d], s+2));
            weights.insert(format!("{p}.self_attn.v_proj.weight"), make(vec![nkv * hd_gqa, d], s+3));
            weights.insert(format!("{p}.self_attn.o_proj.weight"), make(vec![d, nq * hd_gqa], s+4));
            weights.insert(format!("{p}.self_attn.q_norm.weight"), make(vec![hd_gqa], s+5));
            weights.insert(format!("{p}.self_attn.k_norm.weight"), make(vec![hd_gqa], s+6));
            weights.insert(format!("{p}.post_attention_layernorm.weight"), make(vec![d], s+7));
            weights.insert(format!("{p}.mlp.gate_proj.weight"), make(vec![im, d], s+8));
            weights.insert(format!("{p}.mlp.up_proj.weight"), make(vec![im, d], s+9));
            weights.insert(format!("{p}.mlp.down_proj.weight"), make(vec![d, im], s+10));
        } else {
            weights.insert(format!("{p}.input_layernorm.weight"), make(vec![d], s));
            weights.insert(format!("{p}.self_attn.qkv_proj.weight"), make(vec![3 * nh_hd_dn, d], s+1));
            weights.insert(format!("{p}.self_attn.gate_proj.weight"), make(vec![nh_hd_dn, d], s+2));
            weights.insert(format!("{p}.self_attn.beta_proj.weight"), make(vec![nh_dn, d], s+3));
            weights.insert(format!("{p}.self_attn.alpha_proj.weight"), make(vec![nh_dn, d], s+4));
            weights.insert(format!("{p}.self_attn.q_conv1d.weight"), make(vec![nh_hd_dn, ck], s+5));
            weights.insert(format!("{p}.self_attn.q_conv1d.bias"), make(vec![nh_hd_dn], s+6));
            weights.insert(format!("{p}.self_attn.k_conv1d.weight"), make(vec![nh_hd_dn, ck], s+7));
            weights.insert(format!("{p}.self_attn.k_conv1d.bias"), make(vec![nh_hd_dn], s+8));
            weights.insert(format!("{p}.self_attn.v_conv1d.weight"), make(vec![nh_hd_dn, ck], s+9));
            weights.insert(format!("{p}.self_attn.v_conv1d.bias"), make(vec![nh_hd_dn], s+10));
            weights.insert(format!("{p}.self_attn.o_norm.weight"), make(vec![nh_hd_dn], s+11));
            weights.insert(format!("{p}.self_attn.o_proj.weight"), make(vec![d, nh_hd_dn], s+12));
            weights.insert(format!("{p}.post_attention_layernorm.weight"), make(vec![d], s+13));
            weights.insert(format!("{p}.mlp.gate_proj.weight"), make(vec![im, d], s+14));
            weights.insert(format!("{p}.mlp.up_proj.weight"), make(vec![im, d], s+15));
            weights.insert(format!("{p}.mlp.down_proj.weight"), make(vec![d, im], s+16));
        }
    }

    let mut model = HybridModel::<f32, Kept>::from_weights::<F32Math>(config, &weights, 64)
        .expect("from_weights should succeed");

    let output = model.forward::<F32Math>(&[1, 2, 3]);
    assert_eq!(output.shape, [1, 1, model.config.vocab_size]);
    for (i, &v) in output.logits.iter().enumerate() {
        assert!(v.is_finite(), "from_weights logit[{i}] = {v} is not finite");
    }
}
