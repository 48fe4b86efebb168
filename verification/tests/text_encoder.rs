use synapse_inference::models::text_encoder::code_deltatok::{parse_block_key, CodeDeltaTokConfig};
use synapse_inference::models::text_encoder::roberta::{gelu_erf, RoBERTaEmbeddings};
use synapse_inference::models::text_encoder::unixcoder::unixcoder_base;
use synapse_inference::scalar::Math;

/// Single-precision arithmetic.
struct F32Math;

impl Math<f32> for F32Math {
    fn exp(x: f32) -> f32 {
        x.exp()
    }
    fn ln(x: f32) -> f32 {
        x.ln()
    }
    fn sqrt(x: f32) -> f32 {
        x.sqrt()
    }
    fn gelu(x: f32) -> f32 {
        0.5 * x * (1.0 + (0.797_884_56 * (x + 0.044715 * x * x * x)).tanh())
    }
    fn tanh(x: f32) -> f32 {
        x.tanh()
    }
    fn silu(x: f32) -> f32 {
        x / (1.0 + (-x).exp())
    }
    fn softplus(x: f32) -> f32 {
        if x > 20.0 {
            x
        } else {
            (1.0 + x.exp()).ln()
        }
    }
    fn pow(a: f32, b: f32) -> f32 {
        a.powf(b)
    }
    fn cos(x: f32) -> f32 {
        x.cos()
    }
    fn sin(x: f32) -> f32 {
        x.sin()
    }
    fn dynamic_base(base: u64, factor: u64, head_dim: usize) -> f32 {
        let d = head_dim as f64;
        (f64::from_bits(base) * f64::from_bits(factor).powf(d / (d - 2.0))) as f32
    }
    fn max(a: f32, b: f32) -> f32 {
        a.max(b)
    }
    fn greater(a: f32, b: f32) -> bool {
        a > b
    }
    fn is_finite(x: f32) -> bool {
        x.is_finite()
    }
    fn one() -> f32 {
        1.0
    }
    fn lowest() -> f32 {
        f32::NEG_INFINITY
    }
    fn count(n: usize) -> f32 {
        n as f32
    }
    fn to_count(x: f32) -> usize {
        x as usize
    }
    fn from_binary64(bits: u64) -> f32 {
        f64::from_bits(bits) as f32
    }
}

#[test]
fn parse_block_key_roundtrip() {
    assert_eq!(
        parse_block_key("encoder[7].attn.in_proj_weight"),
        Some(("encoder", 7, "attn.in_proj_weight")),
    );
    assert_eq!(
        parse_block_key("decoder[0].mlp_down.weight"),
        Some(("decoder", 0, "mlp_down.weight")),
    );
    assert_eq!(parse_block_key("z_embed"), None);
}

#[test]
fn config_paper_default_matches_cdt_k1_4blk() {
    let c = CodeDeltaTokConfig::paper_default();
    assert_eq!(c.feature_dim, 768);
    assert_eq!(c.num_blocks, 4);
    assert_eq!(c.num_heads, 12);
    assert_eq!(c.num_delta_tokens, 1);
    assert_eq!(c.intermediate::<f32, F32Math>(), 3072);
}

#[test]
fn position_ids_match_hf_cumsum_trick() {
    // Example from the HF source comment:
    // attention_mask = [1, 1, 1, 0, 0], pad_token_id = 1.
    // Expected position_ids = [2, 3, 4, 1, 1].
    let cfg = unixcoder_base();
    let emb = RoBERTaEmbeddings::<f32>::new(&cfg);
    let mask = vec![1i64, 1, 1, 0, 0];
    let ids = emb.position_ids(&mask, 5);
    assert_eq!(ids, vec![2, 3, 4, 1, 1]);
}

#[test]
fn roberta_gelu_erf_matches_pytorch_reference_values() {
    // Values from PyTorch: `torch.nn.functional.gelu(torch.tensor([...]))`
    // exact mode (approximate='none').
    let cases = [
        (-3.0_f32, -0.0040_f32),
        (-1.0, -0.1587),
        ( 0.0,  0.0),
        ( 0.5,  0.3457),
        ( 1.0,  0.8413),
        ( 2.0,  1.9545),
        ( 3.0,  2.9960),
    ];
    for (x, expected) in cases {
        let got = gelu_erf::<f32, F32Math>(x);
        assert!((got - expected).abs() < 2e-4,
                "gelu_erf({x}) = {got}, expected ~{expected}");
    }
}
