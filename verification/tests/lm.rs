use synapse_inference::buffer::{AlignedBuffer, RawTensor};
use synapse_inference::config::{
    ArchitectureConfig, AttentionConfig, Binary64, FFNConfig, ModelConfig, NormConfig,
    PositionConfig, RoPEStyle, BITS_10000, BITS_1E_5, BITS_1E_6,
};
use synapse_inference::kv_cache::{KVCache, KVCacheLayer};
use synapse_inference::models::lm::builder::ModelBuilder;
use synapse_inference::models::lm::causal_lm::CausalLM;
use synapse_inference::models::lm::decoder_layer::DecoderLayer;
use synapse_inference::norm;
use synapse_inference::norm::apply_norm;
use synapse_inference::ops;
use synapse_inference::ops::{activate, activate_all, matmul_t, mul_vecs, Activation};
use synapse_inference::rope::apply_rope_inplace;
use synapse_inference::scalar::Math;
use synapse_inference::weights::{KeyMapping, TensorMap};

/// Single-precision arithmetic.
struct F32Math;

impl Math<f32> for F32Math {
    fn exp(x: f32) -> f32 {
        x.exp()
    }
    fn ln(x: f32) -> f32 {
        x.ln()
    }
    fn sqrt(x: f32) -> f32 {
        x.sqrt()
    }
    fn gelu(x: f32) -> f32 {
        0.5 * x * (1.0 + (0.797_884_56 * (x + 0.044715 * x * x * x)).tanh())
    }
    fn tanh(x: f32) -> f32 {
        x.tanh()
    }
    fn silu(x: f32) -> f32 {
        x / (1.0 + (-x).exp())
    }
    fn softplus(x: f32) -> f32 {
        if x > 20.0 {
            x
        } else {
            (1.0 + x.exp()).ln()
        }
    }
    fn pow(a: f32, b: f32) -> f32 {
        a.powf(b)
    }
    fn cos(x: f32) -> f32 {
        x.cos()
    }
    fn sin(x: f32) -> f32 {
        x.sin()
    }
    fn dynamic_base(base: u64, factor: u64, head_dim: usize) -> f32 {
        let d = head_dim as f64;
        (f64::from_bits(base) * f64::from_bits(factor).powf(d / (d - 2.0))) as f32
    }
    fn max(a: f32, b: f32) -> f32 {
        a.max(b)
    }
    fn greater(a: f32, b: f32) -> bool {
        a > b
    }
    fn is_finite(x: f32) -> bool {
        x.is_finite()
    }
    fn one() -> f32 {
        1.0
    }
    fn lowest() -> f32 {
        f32::NEG_INFINITY
    }
    fn count(n: usize) -> f32 {
        n as f32
    }
    fn to_count(x: f32) -> usize {
        x as usize
    }
    fn from_binary64(bits: u64) -> f32 {
        f64::from_bits(bits) as f32
    }
}

fn rmsnorm(x: &[f32], weight: &[f32], eps: f32, hidden: usize) -> Vec<f32> {
    ops::rmsnorm::<f32, F32Math>(x, weight, eps, hidden, x.len() / hidden)
}

fn apply_headwise_rmsnorm(
    x: &[f32],
    weight: &[f32],
    rows: usize,
    heads: usize,
    head_dim: usize,
    eps: f32,
) -> Vec<f32> {
    norm::apply_headwise_rmsnorm::<f32, F32Math>(x, weight, rows, heads, head_dim, eps)
}

fn silu(x: f32) -> f32 {
    activate::<f32, F32Math>(Activation::Silu, x)
}

fn gelu(x: f32) -> f32 {
    activate::<f32, F32Math>(Activation::Gelu, x)
}

fn norm_1e_5() -> NormConfig {
    NormConfig::RMSNorm {
        eps: Binary64 { bits: BITS_1E_5 },
    }
}

/// SwiGLU over whole vectors.
fn swiglu_fused(gate: &[f32], up: &[f32]) -> Vec<f32> {
    let activated = activate_all::<f32, F32Math>(Activation::Silu, gate);
    mul_vecs(&activated, up)
}

// ── Test-only naive reference implementations ────────────────────────

/// Naive triple-loop reference implementation of y = A * B^T.
///
/// Kept for test comparison against the SIMD path.
fn matmul_t_naive(a: &[f32], b: &[f32], m: usize, k: usize, n: usize) -> Vec<f32> {
    assert_eq!(a.len(), m * k);
    assert_eq!(b.len(), n * k);
    let mut out = vec![0.0f32; m * n];
    for i in 0..m {
        let a_row = &a[i * k..(i + 1) * k];
        for j in 0..n {
            let b_row = &b[j * k..(j + 1) * k];
            let mut sum = 0.0f32;
            for d in 0..k {
                sum += a_row[d] * b_row[d];
            }
            out[i * n + j] = sum;
        }
    }
    out
}

/// Naive scalar RMS normalization (reference for test comparison).
///
/// Uses `black_box` on the accumulator to prevent LLVM auto-vectorization,
/// giving a fair scalar-vs-SIMD benchmark comparison.
fn rmsnorm_naive(x: &[f32], weight: &[f32], eps: f32, hidden_size: usize) -> Vec<f32> {
    let n = x.len() / hidden_size;
    let mut out = vec![0.0f32; x.len()];
    for i in 0..n {
        let off = i * hidden_size;
        let slice = &x[off..off + hidden_size];
        let mut ms = 0.0f32;
        for j in 0..hidden_size {
            ms += slice[j] * slice[j];
            ms = std::hint::black_box(ms);
        }
        ms /= hidden_size as f32;
        let scale = 1.0 / (ms + eps).sqrt();
        for j in 0..hidden_size {
            out[off + j] = std::hint::black_box(slice[j] * scale) * weight[j];
        }
    }
    out
}

/// Naive scalar headwise RMS normalization (reference for test comparison).
fn apply_headwise_rmsnorm_naive(
    x: &[f32],
    weight: &[f32],
    rows: usize,
    heads: usize,
    head_dim: usize,
    eps: f32,
) -> Vec<f32> {
    if weight.is_empty() {
        return x.to_vec();
    }

    let mut out = vec![0.0f32; x.len()];
    let stride = heads * head_dim;
    for row in 0..rows {
        let row_offset = row * stride;
        for head in 0..heads {
            let head_offset = row_offset + head * head_dim;
            let slice = &x[head_offset..head_offset + head_dim];
            let ms = slice.iter().map(|v| v * v).sum::<f32>() / head_dim as f32;
            let scale = 1.0 / (ms + eps).sqrt();
            for idx in 0..head_dim {
                out[head_offset + idx] = slice[idx] * scale * weight[idx];
            }
        }
    }
    out
}

// ── Test helpers ─────────────────────────────────────────────────────

/// Generate deterministic pseudo-random f32 values in [-1, 1].
fn pseudo_rand(len: usize, seed: u64) -> Vec<f32> {
    let mut state = seed;
    (0..len)
        .map(|_| {
            // xorshift64
            state ^= state << 13;
            state ^= state >> 7;
            state ^= state << 17;
            ((state as f64) / (u64::MAX as f64) * 2.0 - 1.0) as f32
        })
        .collect()
}

/// Assert element-wise closeness: |a - e| <= atol + rtol * |e|.
/// Same semantics as numpy.allclose.
fn assert_close(actual: &[f32], expected: &[f32], rtol: f32, label: &str) {
    const ATOL: f32 = 2e-5; // Allows for GEMV vs tiled SGEMM accumulation order differences
    assert_eq!(actual.len(), expected.len(), "{label}: length mismatch");
    for (i, (&a, &e)) in actual.iter().zip(expected.iter()).enumerate() {
        let diff = (a - e).abs();
        let bound = ATOL + rtol * e.abs();
        assert!(
            diff <= bound,
            "{label}[{i}]: simd={a}, naive={e}, diff={diff} > bound={bound} \
             (atol={ATOL}, rtol={rtol})"
        );
    }
}

// ── Correctness tests: SIMD matches naive ─────────────────────────
// Tolerance: SIMD tiling reorders accumulation vs the scalar loop,
// causing O(k · eps) relative error.  Use 1e-5 for small k, 1e-4
// for k >= 512 (consistent with the full-model 1e-4 requirement).

#[test]
fn matmul_simd_vs_naive_1x512_x_512x1024() {
    let (m, k, n) = (1, 512, 1024);
    let a = pseudo_rand(m * k, 42);
    let b = pseudo_rand(n * k, 123);
    let simd = matmul_t(&a, &b, m, k, n);
    let naive = matmul_t_naive(&a, &b, m, k, n);
    assert_close(&simd, &naive, 1e-4, "[1,512]x[512,1024]");
}

#[test]
fn matmul_simd_vs_naive_4x1024_x_1024x3072() {
    let (m, k, n) = (4, 1024, 3072);
    let a = pseudo_rand(m * k, 7);
    let b = pseudo_rand(n * k, 99);
    let simd = matmul_t(&a, &b, m, k, n);
    let naive = matmul_t_naive(&a, &b, m, k, n);
    assert_close(&simd, &naive, 1e-4, "[4,1024]x[1024,3072]");
}

#[test]
fn matmul_simd_vs_naive_128x1024_x_1024x1024() {
    let (m, k, n) = (128, 1024, 1024);
    let a = pseudo_rand(m * k, 314);
    let b = pseudo_rand(n * k, 159);
    let simd = matmul_t(&a, &b, m, k, n);
    let naive = matmul_t_naive(&a, &b, m, k, n);
    assert_close(&simd, &naive, 1e-4, "[128,1024]x[1024,1024]");
}

// ── Edge cases ───────────────────────────────────────────────────

#[test]
fn matmul_edge_m1_single_token() {
    let (m, k, n) = (1, 64, 128);
    let a = pseudo_rand(m * k, 1);
    let b = pseudo_rand(n * k, 2);
    let simd = matmul_t(&a, &b, m, k, n);
    let naive = matmul_t_naive(&a, &b, m, k, n);
    assert_close(&simd, &naive, 1e-5, "m=1 single token");
}

#[test]
fn matmul_edge_k1() {
    let (m, k, n) = (8, 1, 16);
    let a = pseudo_rand(m * k, 10);
    let b = pseudo_rand(n * k, 20);
    let simd = matmul_t(&a, &b, m, k, n);
    let naive = matmul_t_naive(&a, &b, m, k, n);
    assert_close(&simd, &naive, 1e-5, "k=1");
}

#[test]
fn matmul_edge_non_power_of_2() {
    let (m, k, n) = (13, 67, 101);
    let a = pseudo_rand(m * k, 55);
    let b = pseudo_rand(n * k, 77);
    let simd = matmul_t(&a, &b, m, k, n);
    let naive = matmul_t_naive(&a, &b, m, k, n);
    assert_close(&simd, &naive, 1e-4, "non-pow2 [13,67]x[67,101]");
}

#[test]
fn matmul_edge_small_1x1() {
    let a = vec![3.0f32];
    let b = vec![5.0f32];
    let simd = matmul_t(&a, &b, 1, 1, 1);
    let naive = matmul_t_naive(&a, &b, 1, 1, 1);
    assert_close(&simd, &naive, 1e-5, "1x1");
}

// ── RMSNorm: SIMD vs naive correctness ────────────────────────────

#[test]
fn rmsnorm_simd_vs_naive_1x1024() {
    let hidden = 1024;
    let x = pseudo_rand(hidden, 42);
    let w = pseudo_rand(hidden, 100)
        .iter()
        .map(|v| v.abs() + 0.1)
        .collect::<Vec<_>>();
    let simd = rmsnorm(&x, &w, 1e-5, hidden);
    let naive = rmsnorm_naive(&x, &w, 1e-5, hidden);
    assert_close(&simd, &naive, 1e-5, "rmsnorm [1,1024]");
}

#[test]
fn rmsnorm_simd_vs_naive_4x1024() {
    let hidden = 1024;
    let x = pseudo_rand(4 * hidden, 7);
    let w = pseudo_rand(hidden, 200)
        .iter()
        .map(|v| v.abs() + 0.1)
        .collect::<Vec<_>>();
    let simd = rmsnorm(&x, &w, 1e-5, hidden);
    let naive = rmsnorm_naive(&x, &w, 1e-5, hidden);
    assert_close(&simd, &naive, 1e-5, "rmsnorm [4,1024]");
}

#[test]
fn rmsnorm_simd_vs_naive_128x1024() {
    let hidden = 1024;
    let x = pseudo_rand(128 * hidden, 314);
    let w = pseudo_rand(hidden, 300)
        .iter()
        .map(|v| v.abs() + 0.1)
        .collect::<Vec<_>>();
    let simd = rmsnorm(&x, &w, 1e-5, hidden);
    let naive = rmsnorm_naive(&x, &w, 1e-5, hidden);
    assert_close(&simd, &naive, 1e-5, "rmsnorm [128,1024]");
}

#[test]
fn rmsnorm_weighted_vs_unweighted() {
    let hidden = 64;
    let x = pseudo_rand(2 * hidden, 55);
    let ones = vec![1.0f32; hidden];
    let gamma = pseudo_rand(hidden, 77)
        .iter()
        .map(|v| v.abs() + 0.5)
        .collect::<Vec<_>>();

    let out_unit = rmsnorm(&x, &ones, 1e-5, hidden);
    let out_weighted = rmsnorm(&x, &gamma, 1e-5, hidden);

    // Weighted output should equal unit output * gamma element-wise.
    let out_unit_naive = rmsnorm_naive(&x, &ones, 1e-5, hidden);
    let out_weighted_naive = rmsnorm_naive(&x, &gamma, 1e-5, hidden);

    // Verify the naive weighted = naive_unit * gamma
    for i in 0..out_weighted_naive.len() {
        let j = i % hidden;
        let expected = out_unit_naive[i] * gamma[j];
        assert!(
            (out_weighted_naive[i] - expected).abs() < 1e-5,
            "naive weighted[{i}] mismatch: {} vs {}",
            out_weighted_naive[i],
            expected,
        );
    }

    // Verify SIMD matches naive for both
    assert_close(&out_unit, &out_unit_naive, 1e-5, "rmsnorm unit weight");
    assert_close(&out_weighted, &out_weighted_naive, 1e-5, "rmsnorm weighted");
}

#[test]
fn rmsnorm_edge_hidden1_batch1() {
    let x = vec![3.0f32];
    let w = vec![2.0f32];
    let simd = rmsnorm(&x, &w, 1e-5, 1);
    let naive = rmsnorm_naive(&x, &w, 1e-5, 1);
    assert_close(&simd, &naive, 1e-5, "rmsnorm h=1 b=1");
}

#[test]
fn headwise_rmsnorm_simd_vs_naive() {
    let (rows, heads, head_dim) = (4, 8, 128);
    let total = rows * heads * head_dim;
    let x = pseudo_rand(total, 42);
    let w = pseudo_rand(head_dim, 99)
        .iter()
        .map(|v| v.abs() + 0.1)
        .collect::<Vec<_>>();
    let eps = 1e-5;

    let simd = apply_headwise_rmsnorm(&x, &w, rows, heads, head_dim, eps);
    let naive = apply_headwise_rmsnorm_naive(&x, &w, rows, heads, head_dim, eps);
    assert_close(&simd, &naive, 1e-5, "headwise rmsnorm");
}



// ── SwiGLU fused vs manual correctness ──────────────────────────

/// Manual silu(gate)*up reference.
fn swiglu_manual(gate: &[f32], up: &[f32]) -> Vec<f32> {
    gate.iter()
        .zip(up.iter())
        .map(|(&g, &u)| silu(g) * u)
        .collect()
}

#[test]
fn swiglu_fused_vs_manual_1024() {
    let gate = pseudo_rand(1024, 42);
    let up = pseudo_rand(1024, 99);
    let fused = swiglu_fused(&gate, &up);
    let manual = swiglu_manual(&gate, &up);
    assert_close(&fused, &manual, 1e-5, "swiglu [1024]");
}

#[test]
fn swiglu_fused_vs_manual_3072() {
    let gate = pseudo_rand(3072, 7);
    let up = pseudo_rand(3072, 13);
    let fused = swiglu_fused(&gate, &up);
    let manual = swiglu_manual(&gate, &up);
    assert_close(&fused, &manual, 1e-5, "swiglu [3072]");
}

#[test]
fn swiglu_fused_vs_manual_11008() {
    let gate = pseudo_rand(11008, 314);
    let up = pseudo_rand(11008, 159);
    let fused = swiglu_fused(&gate, &up);
    let manual = swiglu_manual(&gate, &up);
    assert_close(&fused, &manual, 1e-5, "swiglu [11008]");
}

// ── GeGLU / GELU paths still work ───────────────────────────────

#[test]
fn geglu_path_correctness() {
    let len = 1024;
    let gate = pseudo_rand(len, 55);
    let up = pseudo_rand(len, 77);
    let mut result = vec![0.0f32; len];
    for i in 0..len {
        result[i] = gelu(gate[i]) * up[i];
    }
    // Sanity: GeGLU output should differ from SwiGLU output
    let swiglu_result = swiglu_manual(&gate, &up);
    let differs = result
        .iter()
        .zip(swiglu_result.iter())
        .any(|(a, b)| (a - b).abs() > 1e-3);
    assert!(differs, "GeGLU and SwiGLU outputs should differ");

    // Verify GeGLU values are reasonable (not NaN/Inf)
    for (i, &v) in result.iter().enumerate() {
        assert!(v.is_finite(), "GeGLU[{i}] is not finite: {v}");
    }
}

#[test]
fn gelu_path_correctness() {
    let len = 1024;
    let x = pseudo_rand(len, 42);
    let mut activated = x.clone();
    for v in activated.iter_mut() {
        *v = gelu(*v);
    }
    // GELU should be approximately x for large positive x, ~0 for large negative x
    for (i, (&orig, &act)) in x.iter().zip(activated.iter()).enumerate() {
        assert!(act.is_finite(), "GELU[{i}] is not finite: {act}");
        if orig > 3.0 {
            // For large positive inputs, gelu(x) ≈ x
            assert!(
                (act - orig).abs() < 0.1,
                "GELU[{i}]: expected ~{orig}, got {act}"
            );
        }
        if orig < -3.0 {
            // For large negative inputs, gelu(x) ≈ 0
            assert!(act.abs() < 0.1, "GELU[{i}]: expected ~0, got {act}");
        }
    }
}


// ── forward_one / KV-cache tests ────────────────────────────────

/// Build test RoPE cos/sin tables.
fn make_test_rope(head_dim: usize, max_pos: usize) -> (Vec<f32>, Vec<f32>) {
    let half_d = head_dim / 2;
    let base: f32 = 10_000.0;
    let mut cos = vec![0.0f32; max_pos * half_d];
    let mut sin = vec![0.0f32; max_pos * half_d];
    for pos in 0..max_pos {
        for i in 0..half_d {
            let freq = 1.0 / base.powf(2.0 * i as f32 / head_dim as f32);
            let angle = pos as f32 * freq;
            cos[pos * half_d + i] = angle.cos();
            sin[pos * half_d + i] = angle.sin();
        }
    }
    (cos, sin)
}

/// Build a test DecoderLayer with pseudo-random weights.
fn make_test_layer(
    hidden: usize,
    num_heads: usize,
    num_kv_heads: usize,
    head_dim: usize,
    inter: usize,
) -> DecoderLayer<f32> {
    let q_dim = num_heads * head_dim;
    let kv_dim = num_kv_heads * head_dim;
    DecoderLayer {
        attn_norm: norm_1e_5(),
        attention: AttentionConfig::GQA {
            num_heads,
            num_kv_heads,
            head_dim,
        },
        ffn_norm: norm_1e_5(),
        ffn: FFNConfig::SwiGLU {
            intermediate_size: inter,
        },
        hidden_size: hidden,
        has_head_norms: true,
        rope_style: RoPEStyle::default(),
        attn_norm_weight: AlignedBuffer::from_vec(
            pseudo_rand(hidden, 1000)
                .iter()
                .map(|v| v.abs() + 0.1)
                .collect(),
        ),
        w_q: AlignedBuffer::from_vec(pseudo_rand(q_dim * hidden, 2000)),
        w_k: AlignedBuffer::from_vec(pseudo_rand(kv_dim * hidden, 3000)),
        w_v: AlignedBuffer::from_vec(pseudo_rand(kv_dim * hidden, 4000)),
        w_o: AlignedBuffer::from_vec(pseudo_rand(hidden * q_dim, 5000)),
        q_norm_weight: AlignedBuffer::from_vec(
            pseudo_rand(head_dim, 6000)
                .iter()
                .map(|v| v.abs() + 0.1)
                .collect(),
        ),
        k_norm_weight: AlignedBuffer::from_vec(
            pseudo_rand(head_dim, 7000)
                .iter()
                .map(|v| v.abs() + 0.1)
                .collect(),
        ),
        q_bias: AlignedBuffer::empty(),
        k_bias: AlignedBuffer::empty(),
        v_bias: AlignedBuffer::empty(),
        ffn_norm_weight: AlignedBuffer::from_vec(
            pseudo_rand(hidden, 8000)
                .iter()
                .map(|v| v.abs() + 0.1)
                .collect(),
        ),
        ffn_gate: AlignedBuffer::from_vec(pseudo_rand(inter * hidden, 9000)),
        ffn_up: AlignedBuffer::from_vec(pseudo_rand(inter * hidden, 10000)),
        ffn_down: AlignedBuffer::from_vec(pseudo_rand(hidden * inter, 11000)),
    }
}

/// forward_one() output at position N must match the last position of
/// forward() when given the same input sequence.
#[test]
fn forward_one_matches_forward_last_position() {
    let (hidden, num_heads, num_kv_heads, head_dim, inter) = (64, 4, 4, 16, 128);
    let layer = make_test_layer(hidden, num_heads, num_kv_heads, head_dim, inter);
    let (rope_cos, rope_sin) = make_test_rope(head_dim, 64);
    let seq_len = 5;

    // Build a multi-token input: [seq_len, hidden]
    let input = pseudo_rand(seq_len * hidden, 42);

    // Full forward pass
    let full_out = layer.forward::<F32Math>(&input, seq_len, &rope_cos, &rope_sin);

    // Incremental forward_one for each token
    let mut cache = KVCacheLayer::new(64, num_kv_heads, head_dim).unwrap();
    let mut last_out = vec![0.0f32; hidden];
    for t in 0..seq_len {
        let token = &input[t * hidden..(t + 1) * hidden];
        last_out = layer.forward_one::<F32Math>(token, &mut cache, t, &rope_cos, &rope_sin);
    }

    // Compare: forward_one output at last position should match
    // forward() output at the last position.
    let full_last = &full_out[(seq_len - 1) * hidden..seq_len * hidden];
    assert_close(
        &last_out,
        full_last,
        1e-4,
        "forward_one vs forward last pos",
    );
}

/// KV-cache values after forward_one() must match K/V computed by the
/// full forward() path at the same positions.
#[test]
fn kv_cache_values_match_full_forward() {
    let (hidden, num_heads, num_kv_heads, head_dim, inter) = (64, 4, 4, 16, 128);
    let layer = make_test_layer(hidden, num_heads, num_kv_heads, head_dim, inter);
    let kv_dim = num_kv_heads * head_dim;
    let seq_len = 4;

    let input = pseudo_rand(seq_len * hidden, 77);
    let h = hidden;
    let eps = 1e-5f32;

    // Compute what full forward would produce for K/V:
    // 1. norm the input
    let normed = apply_norm::<f32, F32Math>(
        &input,
        layer.attn_norm_weight.as_slice(),
        layer.attn_norm,
        h,
        seq_len,
    );
    // 2. project K, V
    let k_full = matmul_t(&normed, layer.w_k.as_slice(), seq_len, h, kv_dim);
    let v_full = matmul_t(&normed, layer.w_v.as_slice(), seq_len, h, kv_dim);
    // 3. apply headwise norm to K (V is raw)
    let k_full_normed = apply_headwise_rmsnorm(
        &k_full,
        layer.k_norm_weight.as_slice(),
        seq_len,
        num_kv_heads,
        head_dim,
        eps,
    );

    // Apply RoPE to the normed K (matching what forward_one does)
    let (rope_cos, rope_sin) = make_test_rope(head_dim, 64);
    let mut k_full_roped = k_full_normed.clone();
    apply_rope_inplace(
        &mut k_full_roped,
        &rope_cos,
        &rope_sin,
        seq_len,
        num_kv_heads,
        head_dim,
        0,
        RoPEStyle::RotateHalf,
    );

    // Now run forward_one incrementally and collect cache contents
    let mut cache = KVCacheLayer::new(64, num_kv_heads, head_dim).unwrap();
    for t in 0..seq_len {
        let token = &input[t * h..(t + 1) * h];
        let _ = layer.forward_one::<F32Math>(token, &mut cache, t, &rope_cos, &rope_sin);
    }

    let (cached_k, cached_v, cached_len) = cache.slice();
    assert_eq!(cached_len, seq_len);

    // Cached K should match RoPE'd normed K from full forward
    assert_close(
        cached_k,
        &k_full_roped,
        1e-5,
        "cached K vs full RoPE'd normed K",
    );
    // Cached V should match raw V from full forward
    assert_close(cached_v, &v_full, 1e-5, "cached V vs full raw V");
}

/// GQA test: n_kv_heads < n_heads. forward_one must still match
/// the last position of forward().
#[test]
fn forward_one_gqa_heads_expansion() {
    // 8 Q-heads, 2 KV-heads -> groups = 4
    let (hidden, num_heads, num_kv_heads, head_dim, inter) = (64, 8, 2, 8, 128);
    let layer = make_test_layer(hidden, num_heads, num_kv_heads, head_dim, inter);
    let (rope_cos, rope_sin) = make_test_rope(head_dim, 64);
    let seq_len = 6;

    let input = pseudo_rand(seq_len * hidden, 314);

    // Full forward
    let full_out = layer.forward::<F32Math>(&input, seq_len, &rope_cos, &rope_sin);

    // Incremental forward_one
    let mut cache = KVCacheLayer::new(64, num_kv_heads, head_dim).unwrap();
    let mut last_out = vec![0.0f32; hidden];
    for t in 0..seq_len {
        let token = &input[t * hidden..(t + 1) * hidden];
        last_out = layer.forward_one::<F32Math>(token, &mut cache, t, &rope_cos, &rope_sin);
    }

    let full_last = &full_out[(seq_len - 1) * hidden..seq_len * hidden];
    assert_close(&last_out, full_last, 1e-4, "forward_one GQA (8h/2kv)");
}

#[test]
fn rope_interleaved_vs_rotate_half_differ() {
    // Verify that the two RoPE styles produce different outputs for the same input.
    let head_dim = 8;
    let half_d = head_dim / 2;
    let num_heads = 1;
    let seq_len = 1;
    let max_pos = 4;

    // Precompute tables
    let base = 10_000.0f32;
    let mut cos = vec![0.0f32; max_pos * half_d];
    let mut sin = vec![0.0f32; max_pos * half_d];
    for pos in 0..max_pos {
        for i in 0..half_d {
            let freq = 1.0 / base.powf(2.0 * i as f32 / head_dim as f32);
            let angle = pos as f32 * freq;
            cos[pos * half_d + i] = angle.cos();
            sin[pos * half_d + i] = angle.sin();
        }
    }

    // Test at pos=2 where angles are non-trivial
    let input: Vec<f32> = (1..=head_dim).map(|x| x as f32).collect();

    let mut rh = input.clone();
    apply_rope_inplace(
        &mut rh,
        &cos,
        &sin,
        seq_len,
        num_heads,
        head_dim,
        2,
        RoPEStyle::RotateHalf,
    );

    let mut il = input.clone();
    apply_rope_inplace(
        &mut il,
        &cos,
        &sin,
        seq_len,
        num_heads,
        head_dim,
        2,
        RoPEStyle::Interleaved,
    );

    // Outputs should differ (different dimension pairing)
    assert_ne!(
        rh, il,
        "RotateHalf and Interleaved should produce different results"
    );
}

#[test]
fn rope_interleaved_roundtrip() {
    // Applying interleaved RoPE at pos=0 with angle=0 should be identity.
    let head_dim = 8;
    let half_d = head_dim / 2;
    // At pos=0, all angles are 0 -> cos=1, sin=0 -> identity
    let cos = vec![1.0f32; half_d];
    let sin = vec![0.0f32; half_d];

    let input: Vec<f32> = (1..=head_dim).map(|x| x as f32).collect();
    let mut out = input.clone();
    apply_rope_inplace(
        &mut out,
        &cos,
        &sin,
        1,
        1,
        head_dim,
        0,
        RoPEStyle::Interleaved,
    );
    assert_eq!(out, input, "RoPE at pos=0 should be identity");
}

// ── Sliding window attention tests ──────────────────────────────

/// Build a test DecoderLayer with sliding window attention.
fn make_test_layer_sliding_window(
    hidden: usize,
    num_heads: usize,
    num_kv_heads: usize,
    head_dim: usize,
    inter: usize,
    window_size: usize,
) -> DecoderLayer<f32> {
    let q_dim = num_heads * head_dim;
    let kv_dim = num_kv_heads * head_dim;
    DecoderLayer {
        attn_norm: norm_1e_5(),
        attention: AttentionConfig::SlidingWindow {
            num_heads,
            num_kv_heads,
            head_dim,
            window_size,
        },
        ffn_norm: norm_1e_5(),
        ffn: FFNConfig::SwiGLU {
            intermediate_size: inter,
        },
        hidden_size: hidden,
        has_head_norms: true,
        rope_style: RoPEStyle::default(),
        attn_norm_weight: AlignedBuffer::from_vec(
            pseudo_rand(hidden, 1000)
                .iter()
                .map(|v| v.abs() + 0.1)
                .collect(),
        ),
        w_q: AlignedBuffer::from_vec(pseudo_rand(q_dim * hidden, 2000)),
        w_k: AlignedBuffer::from_vec(pseudo_rand(kv_dim * hidden, 3000)),
        w_v: AlignedBuffer::from_vec(pseudo_rand(kv_dim * hidden, 4000)),
        w_o: AlignedBuffer::from_vec(pseudo_rand(hidden * q_dim, 5000)),
        q_norm_weight: AlignedBuffer::from_vec(
            pseudo_rand(head_dim, 6000)
                .iter()
                .map(|v| v.abs() + 0.1)
                .collect(),
        ),
        k_norm_weight: AlignedBuffer::from_vec(
            pseudo_rand(head_dim, 7000)
                .iter()
                .map(|v| v.abs() + 0.1)
                .collect(),
        ),
        q_bias: AlignedBuffer::empty(),
        k_bias: AlignedBuffer::empty(),
        v_bias: AlignedBuffer::empty(),
        ffn_norm_weight: AlignedBuffer::from_vec(
            pseudo_rand(hidden, 8000)
                .iter()
                .map(|v| v.abs() + 0.1)
                .collect(),
        ),
        ffn_gate: AlignedBuffer::from_vec(pseudo_rand(inter * hidden, 9000)),
        ffn_up: AlignedBuffer::from_vec(pseudo_rand(inter * hidden, 10000)),
        ffn_down: AlignedBuffer::from_vec(pseudo_rand(hidden * inter, 11000)),
    }
}

/// Sliding window decode: with window_size=4 and 8 cached positions,
/// forward_one at position 8 should only attend to the last 4 positions
/// (positions 5-8), producing a different result than full attention.
#[test]
fn sliding_window_attention_limits_decode_context() {
    let (hidden, num_heads, num_kv_heads, head_dim, inter) = (64, 4, 4, 16, 128);
    let window_size = 4;
    let total_positions = 8;

    // Build two layers with identical weights: one with sliding window, one without
    let sw_layer = make_test_layer_sliding_window(
        hidden,
        num_heads,
        num_kv_heads,
        head_dim,
        inter,
        window_size,
    );
    let full_layer = make_test_layer(hidden, num_heads, num_kv_heads, head_dim, inter);

    let (rope_cos, rope_sin) = make_test_rope(head_dim, 64);

    // Generate input tokens
    let input = pseudo_rand((total_positions + 1) * hidden, 42);

    // Fill both caches with 8 positions
    let mut sw_cache = KVCacheLayer::new(64, num_kv_heads, head_dim).unwrap();
    let mut full_cache = KVCacheLayer::new(64, num_kv_heads, head_dim).unwrap();

    for t in 0..total_positions {
        let token = &input[t * hidden..(t + 1) * hidden];
        let _ = sw_layer.forward_one::<F32Math>(token, &mut sw_cache, t, &rope_cos, &rope_sin);
        let _ = full_layer.forward_one::<F32Math>(token, &mut full_cache, t, &rope_cos, &rope_sin);
    }

    // Both caches should have 8 entries
    let (_, _, sw_len) = sw_cache.slice();
    let (_, _, full_len) = full_cache.slice();
    assert_eq!(sw_len, total_positions);
    assert_eq!(full_len, total_positions);

    // Now decode at position 8 with both layers
    let decode_token = &input[total_positions * hidden..(total_positions + 1) * hidden];
    let sw_out = sw_layer.forward_one::<F32Math>(
        decode_token,
        &mut sw_cache,
        total_positions,
        &rope_cos,
        &rope_sin,
    );
    let full_out = full_layer.forward_one::<F32Math>(
        decode_token,
        &mut full_cache,
        total_positions,
        &rope_cos,
        &rope_sin,
    );

    // The outputs should differ because sliding window attends to only
    // the last 4 positions while full attention attends to all 9.
    let differs = sw_out
        .iter()
        .zip(full_out.iter())
        .any(|(a, b)| (a - b).abs() > 1e-5);
    assert!(
        differs,
        "Sliding window (ws=4) output should differ from full attention with 9 cached positions"
    );

    // Verify the cache still has all 9 entries (sliding window only limits
    // attention, not cache storage)
    let (_, _, sw_len_after) = sw_cache.slice();
    assert_eq!(
        sw_len_after,
        total_positions + 1,
        "Cache should still store all positions, not be truncated by sliding window"
    );

    // Additional verification: sliding window with window_size >= seq_len
    // should behave identically to full attention
    let big_window_layer = make_test_layer_sliding_window(
        hidden,
        num_heads,
        num_kv_heads,
        head_dim,
        inter,
        100, // window >> total positions
    );
    let mut big_cache = KVCacheLayer::new(64, num_kv_heads, head_dim).unwrap();
    let mut full_cache2 = KVCacheLayer::new(64, num_kv_heads, head_dim).unwrap();

    for t in 0..total_positions {
        let token = &input[t * hidden..(t + 1) * hidden];
        let _ = big_window_layer.forward_one::<F32Math>(token, &mut big_cache, t, &rope_cos, &rope_sin);
        let _ = full_layer.forward_one::<F32Math>(token, &mut full_cache2, t, &rope_cos, &rope_sin);
    }

    let big_out = big_window_layer.forward_one::<F32Math>(
        decode_token,
        &mut big_cache,
        total_positions,
        &rope_cos,
        &rope_sin,
    );
    let full_out2 = full_layer.forward_one::<F32Math>(
        decode_token,
        &mut full_cache2,
        total_positions,
        &rope_cos,
        &rope_sin,
    );

    assert_close(
        &big_out,
        &full_out2,
        1e-5,
        "Sliding window with window >= seq_len should match full attention",
    );
}

// ── Whole models ─────────────────────────────────────────────────────

fn test_config() -> ModelConfig {
    ModelConfig {
        name: "CausalLMTest".to_string(),
        architecture: ArchitectureConfig {
            hidden_size: 64,
            num_layers: 4,
            vocab_size: 256,
            max_sequence_length: 64,
            tie_word_embeddings: true,
            embed_scale: None,
        },
        attention: AttentionConfig::GQA {
            num_heads: 4,
            num_kv_heads: 2,
            head_dim: 16,
        },
        norm: NormConfig::RMSNorm {
            eps: Binary64 { bits: BITS_1E_6 },
        },
        ffn: FFNConfig::SwiGLU {
            intermediate_size: 128,
        },
        position: PositionConfig::RoPE {
            base: Binary64 { bits: BITS_10000 },
            max_position_embeddings: 64,
            style: Default::default(),
            scaling: Default::default(),
        },
    }
}

fn gen_weights(len: usize, seed: u32) -> Vec<f32> {
    (0..len)
        .map(|i| {
            let x = ((i as u32).wrapping_mul(2654435761).wrapping_add(seed)) as f32;
            (x / u32::MAX as f32) * 0.36 - 0.18
        })
        .collect()
}

fn generate_fake_hf_weights(cfg: &ModelConfig) -> TensorMap<f32> {
    let h = cfg.architecture.hidden_size;
    let vocab = cfg.architecture.vocab_size;
    let q_dim = cfg.attention.num_heads() * cfg.attention.head_dim();
    let kv_dim = cfg.attention.num_kv_heads() * cfg.attention.head_dim();
    let inter = cfg.ffn.intermediate_size();
    let nl = cfg.architecture.num_layers;

    let fake = |shape: Vec<usize>, seed: u32| -> RawTensor<f32> {
        let n: usize = shape.iter().product();
        RawTensor {
            data: AlignedBuffer::from_slice(&gen_weights(n, seed)),
            shape,
        }
    };

    let mut w = TensorMap::new();
    w.insert("model.embed_tokens.weight".into(), fake(vec![vocab, h], 1));
    for i in 0..nl {
        let s = (i as u32 + 1) * 100;
        w.insert(
            format!("model.layers.{i}.input_layernorm.weight"),
            fake(vec![h], s),
        );
        w.insert(
            format!("model.layers.{i}.self_attn.q_proj.weight"),
            fake(vec![q_dim, h], s + 1),
        );
        w.insert(
            format!("model.layers.{i}.self_attn.k_proj.weight"),
            fake(vec![kv_dim, h], s + 2),
        );
        w.insert(
            format!("model.layers.{i}.self_attn.v_proj.weight"),
            fake(vec![kv_dim, h], s + 3),
        );
        w.insert(
            format!("model.layers.{i}.self_attn.o_proj.weight"),
            fake(vec![h, q_dim], s + 4),
        );
        w.insert(
            format!("model.layers.{i}.self_attn.q_norm.weight"),
            fake(vec![cfg.attention.head_dim()], s + 5),
        );
        w.insert(
            format!("model.layers.{i}.self_attn.k_norm.weight"),
            fake(vec![cfg.attention.head_dim()], s + 6),
        );
        w.insert(
            format!("model.layers.{i}.post_attention_layernorm.weight"),
            fake(vec![h], s + 7),
        );
        w.insert(
            format!("model.layers.{i}.mlp.gate_proj.weight"),
            fake(vec![inter, h], s + 8),
        );
        w.insert(
            format!("model.layers.{i}.mlp.up_proj.weight"),
            fake(vec![inter, h], s + 9),
        );
        w.insert(
            format!("model.layers.{i}.mlp.down_proj.weight"),
            fake(vec![h, inter], s + 10),
        );
    }
    w.insert("model.norm.weight".into(), fake(vec![h], 9999));
    w.insert("lm_head.weight".into(), fake(vec![vocab, h], 9998));
    w
}

/// Where the tensors of a HuggingFace Qwen3 checkpoint go.
fn qwen3_mapping(layers: usize) -> KeyMapping {
    let mut mapping = vec![(
        "model.embed_tokens.weight".to_string(),
        "embed_tokens.weight".to_string(),
    )];
    for i in 0..layers {
        for (from, to) in [
            ("input_layernorm.weight", "attn_norm.weight"),
            ("self_attn.q_proj.weight", "attention.w_q"),
            ("self_attn.k_proj.weight", "attention.w_k"),
            ("self_attn.v_proj.weight", "attention.w_v"),
            ("self_attn.o_proj.weight", "attention.w_o"),
            ("self_attn.q_norm.weight", "attention.q_norm"),
            ("self_attn.k_norm.weight", "attention.k_norm"),
            ("post_attention_layernorm.weight", "ffn_norm.weight"),
            ("mlp.gate_proj.weight", "ffn.w_gate"),
            ("mlp.up_proj.weight", "ffn.w_up"),
            ("mlp.down_proj.weight", "ffn.w_down"),
        ] {
            mapping.push((
                format!("model.layers.{i}.{from}"),
                format!("layers[{i}].{to}"),
            ));
        }
    }
    mapping.push(("model.norm.weight".to_string(), "norm.weight".to_string()));
    mapping.push(("lm_head.weight".to_string(), "lm_head.weight".to_string()));
    KeyMapping {
        mapping,
        unmapped: vec![],
    }
}

fn build_test_model(cfg: &ModelConfig) -> CausalLM<f32> {
    let mut model = ModelBuilder::from_config::<f32, F32Math>(cfg);
    let weights = generate_fake_hf_weights(cfg);
    let mapping = qwen3_mapping(cfg.architecture.num_layers);
    let result = model.load_weights(&weights, mapping).unwrap();
    assert!(
        result.missing.is_empty(),
        "Missing keys: {:?}",
        result.missing
    );
    model
}

fn make_cache(cfg: &ModelConfig) -> KVCache<f32> {
    KVCache::new(
        cfg.architecture.num_layers,
        cfg.architecture.max_sequence_length,
        cfg.attention.num_kv_heads(),
        cfg.attention.head_dim(),
    )
    .unwrap()
}

/// forward_prefill() logits must match forward() last-position logits within 1e-5.
#[test]
fn forward_prefill_matches_forward() {
    let cfg = test_config();
    let model = build_test_model(&cfg);
    let vocab = cfg.architecture.vocab_size;

    let prompts: Vec<Vec<u32>> =
        vec![vec![1, 2, 3, 4], vec![10, 20, 30], vec![5, 5, 5, 5, 5, 5]];

    for prompt in &prompts {
        let mut cache = make_cache(&cfg);
        let prefill_out = model.forward_prefill::<F32Math>(prompt, &mut cache);

        let full_out = model.forward::<F32Math>(prompt);
        let seq_len = full_out.shape[1];
        let full_last_logits = &full_out.logits[(seq_len - 1) * vocab..seq_len * vocab];

        assert_eq!(prefill_out.logits.len(), full_last_logits.len());
        for (i, (&a, &b)) in prefill_out
            .logits
            .iter()
            .zip(full_last_logits.iter())
            .enumerate()
        {
            assert!(
                (a - b).abs() < 1e-5,
                "Logit {i} mismatch: prefill={a}, full={b} (prompt={:?})",
                prompt
            );
        }
    }
}

/// forward_prefill(prompt) then forward_one(token) must match
/// forward(prompt ++ [token]) last-position logits within 1e-5.
#[test]
fn prefill_then_one_matches_full_forward() {
    let cfg = test_config();
    let model = build_test_model(&cfg);
    let vocab = cfg.architecture.vocab_size;

    let prompt = vec![1u32, 2, 3, 4];
    let next_token = 42u32;

    // Cached path: prefill + single decode step
    let mut cache = make_cache(&cfg);
    let _ = model.forward_prefill::<F32Math>(&prompt, &mut cache);
    let one_out = model.forward_one::<F32Math>(next_token, &mut cache);

    // Reference: full forward on concatenated sequence
    let mut full_tokens = prompt.clone();
    full_tokens.push(next_token);
    let full_out = model.forward::<F32Math>(&full_tokens);
    let seq_len = full_out.shape[1];
    let full_last_logits = &full_out.logits[(seq_len - 1) * vocab..seq_len * vocab];

    assert_eq!(one_out.logits.len(), full_last_logits.len());
    for (i, (&a, &b)) in one_out
        .logits
        .iter()
        .zip(full_last_logits.iter())
        .enumerate()
    {
        assert!(
            (a - b).abs() < 1e-5,
            "Logit {i} mismatch: cached={a}, full={b}",
        );
    }
}

/// Multi-step decode: forward_prefill(prompt) then forward_one() × 3 must match
/// forward(prompt ++ decode_tokens) last-position logits within 1e-5.
/// Verifies KV-cache accumulation across multiple decode steps.
#[test]
fn multi_step_decode_matches_full_forward() {
    let cfg = test_config();
    let model = build_test_model(&cfg);
    let vocab = cfg.architecture.vocab_size;

    let prompt = vec![1u32, 2, 3];
    let decode_tokens = vec![10u32, 20, 30];

    // Cached path: prefill + multiple decode steps
    let mut cache = make_cache(&cfg);
    let _ = model.forward_prefill::<F32Math>(&prompt, &mut cache);

    let mut cached_logits = Vec::new();
    for &tok in &decode_tokens {
        let out = model.forward_one::<F32Math>(tok, &mut cache);
        cached_logits = out.logits;
    }

    // Verify cache accumulated correctly
    let expected_len = prompt.len() + decode_tokens.len();
    assert_eq!(
        cache.current_len(),
        expected_len,
        "Cache should hold prompt + decode tokens"
    );

    // Reference: full forward on all tokens
    let mut all_tokens = prompt.clone();
    all_tokens.extend_from_slice(&decode_tokens);
    let full_out = model.forward::<F32Math>(&all_tokens);
    let seq_len = full_out.shape[1];
    let full_last_logits = &full_out.logits[(seq_len - 1) * vocab..seq_len * vocab];

    assert_eq!(cached_logits.len(), full_last_logits.len());
    for (i, (&a, &b)) in cached_logits
        .iter()
        .zip(full_last_logits.iter())
        .enumerate()
    {
        assert!(
            (a - b).abs() < 1e-5,
            "Logit {i} mismatch after multi-step decode: cached={a}, full={b}",
        );
    }
}
