use synapse_inference::config::BITS_1E_5;
use synapse_inference::json::{parse, Json};
use synapse_inference::models::text_encoder::roberta::parse_roberta_config;
use synapse_inference::models::text_encoder::unixcoder::unixcoder_base;
use synapse_inference::models::vision::clip::{clip_config_from, parse_clip_config_json};
use synapse_inference::models::vision::code_wm::{CodeWorldModelConfig, GeluKind};
use synapse_inference::models::vision::lewm::LeWMConfig;
use synapse_inference::models::vision::vit_config::{
    parse_vit_config_json, parse_vit_labels_json, vit_config_from, vit_labels_from,
};

const BROKEN: &str = "{\"image_size\": ";
const BROKEN_MESSAGE: &str = "EOF while parsing a value at line 1 column 15";

fn object(fields: Vec<(&str, Json)>) -> Json {
    Json::Object(
        fields
            .into_iter()
            .map(|(name, value)| (name.to_string(), value))
            .collect(),
    )
}

fn whole(n: u64) -> Json {
    Json::Number {
        unsigned: Some(n),
        binary64: Some((n as f64).to_bits()),
    }
}

fn text(s: &str) -> Json {
    Json::Text(s.to_string())
}

#[test]
fn parsed_values_keep_their_kind() {
    let v = parse(
        r#"{"n": 7, "m": -7, "x": 0.5, "s": "hi", "b": true, "z": null, "a": [1, "two"], "o": {"k": 1}}"#,
    )
    .unwrap();
    assert_eq!(v.unsigned("n"), Some(7));
    assert_eq!(v.binary64("n"), Some(7.0f64.to_bits()));
    assert_eq!(v.unsigned("m"), None);
    assert_eq!(v.binary64("m"), Some((-7.0f64).to_bits()));
    assert_eq!(v.unsigned("x"), None);
    assert_eq!(v.binary64("x"), Some(0.5f64.to_bits()));
    assert_eq!(v.text("s"), Some("hi"));
    assert_eq!(v.text("n"), None);
    assert!(matches!(v.get("b"), Some(Json::Bool(true))));
    assert!(matches!(v.get("z"), Some(Json::Null)));
    assert!(matches!(v.get("a"), Some(Json::Array(items)) if items.len() == 2));
    assert_eq!(v.get("o").and_then(|o| o.unsigned("k")), Some(1));
    assert!(v.get("missing").is_none());
    assert_eq!(v.size_or("n", 3), 7);
    assert_eq!(v.size_or("s", 3), 3);
    assert_eq!(v.size_or("missing", 3), 3);
}

#[test]
fn a_value_that_is_no_object_has_no_fields() {
    for json in ["3", "\"s\"", "[1]", "null", "true"] {
        let v = parse(json).unwrap();
        assert!(v.get("k").is_none());
        assert_eq!(v.size_or("k", 9), 9);
    }
}

#[test]
fn the_last_of_two_equal_names_counts() {
    let v = object(vec![("k", whole(1)), ("j", whole(3)), ("k", whole(2))]);
    assert_eq!(v.unsigned("k"), Some(2));
    assert_eq!(v.unsigned("j"), Some(3));
    assert_eq!(
        parse(r#"{"k": 1, "k": 2}"#).unwrap().unsigned("k"),
        Some(2)
    );
}

#[test]
fn broken_texts_are_refused_with_the_reason() {
    assert_eq!(parse(BROKEN).err().unwrap(), BROKEN_MESSAGE);
    assert_eq!(parse_vit_config_json(BROKEN).unwrap_err(), BROKEN_MESSAGE);
    assert_eq!(parse_vit_labels_json(BROKEN).unwrap_err(), BROKEN_MESSAGE);
    assert_eq!(parse_clip_config_json(BROKEN).unwrap_err(), BROKEN_MESSAGE);
    assert_eq!(parse_roberta_config(BROKEN).err().unwrap(), BROKEN_MESSAGE);
    let prefixed = format!("Failed to parse config JSON: {BROKEN_MESSAGE}");
    assert_eq!(LeWMConfig::from_json_str(BROKEN).err().unwrap(), prefixed);
    assert_eq!(
        CodeWorldModelConfig::from_json_str(BROKEN).unwrap_err(),
        prefixed
    );
    assert_eq!(
        CodeWorldModelConfig::checked_from_json_str(BROKEN)
            .unwrap()
            .unwrap_err(),
        prefixed
    );
}

#[test]
fn vit_config_reads_fields_and_falls_back() {
    let c = parse_vit_config_json("{}").unwrap();
    assert_eq!(
        (c.image_size, c.patch_size, c.channels, c.hidden_size),
        (224, 16, 3, 768)
    );
    assert_eq!(
        (
            c.num_layers,
            c.num_heads,
            c.intermediate_size,
            c.num_classes
        ),
        (12, 12, 3072, 1000)
    );

    let c = parse_vit_config_json(
        r#"{"image_size": 32, "patch_size": 8, "num_channels": 1, "hidden_size": 64,
            "num_hidden_layers": 3, "num_attention_heads": 4, "intermediate_size": 128,
            "num_labels": 7}"#,
    )
    .unwrap();
    assert_eq!(
        (c.image_size, c.patch_size, c.channels, c.hidden_size),
        (32, 8, 1, 64)
    );
    assert_eq!(
        (
            c.num_layers,
            c.num_heads,
            c.intermediate_size,
            c.num_classes
        ),
        (3, 4, 128, 7)
    );
}

#[test]
fn vit_classes_are_counted_by_their_labels_first() {
    let c = parse_vit_config_json(
        r#"{"num_labels": 7, "id2label": {"0": "cat", "1": "dog", "2": "eel"}}"#,
    )
    .unwrap();
    assert_eq!(c.num_classes, 3);
    let c = parse_vit_config_json(r#"{"num_labels": 7, "id2label": ["cat"]}"#).unwrap();
    assert_eq!(c.num_classes, 7);
    let c = vit_config_from(&object(vec![("id2label", object(vec![]))]));
    assert_eq!(c.num_classes, 0);
}

#[test]
fn vit_labels_are_ordered_by_class_number() {
    let labels = parse_vit_labels_json(
        r#"{"id2label": {"10": "ten", "2": "two", "1": "one", "0": "zero"}}"#,
    )
    .unwrap();
    assert_eq!(labels, vec!["zero", "one", "two", "ten"]);
    assert_eq!(parse_vit_labels_json("{}").unwrap(), Vec::<String>::new());
}

#[test]
fn vit_labels_skip_what_is_no_class_or_no_name() {
    let v = object(vec![(
        "id2label",
        object(vec![
            ("b", text("no number")),
            ("1", whole(5)),
            ("-1", text("negative")),
            ("", text("empty")),
            ("3", text("three")),
        ]),
    )]);
    assert_eq!(vit_labels_from(&v), vec!["three"]);
}

#[test]
fn vit_labels_of_one_class_keep_their_order() {
    let v = object(vec![(
        "id2label",
        object(vec![
            ("+1", text("first")),
            ("0", text("zero")),
            ("01", text("second")),
            ("1", text("third")),
        ]),
    )]);
    assert_eq!(vit_labels_from(&v), vec!["zero", "first", "second", "third"]);
}

#[test]
fn clip_config_falls_back_section_by_section() {
    let c = parse_clip_config_json(r#"{"vision_config": {"hidden_size": 1024}}"#).unwrap();
    assert_eq!(c.vision.hidden_size, 1024);
    assert_eq!(c.vision.patch_size, 32);
    assert_eq!(c.vision.num_classes, 0);
    assert_eq!(c.text_hidden_size, 512);
    assert_eq!(c.text_num_layers, 12);
    assert_eq!(c.text_num_heads, 8);
    assert_eq!(c.text_intermediate_size, 2048);
    assert_eq!(c.text_max_position, 77);
    assert_eq!(c.vocab_size, 49408);
    assert_eq!(c.embed_dim, 512);

    let c = clip_config_from(&object(vec![
        ("projection_dim", whole(256)),
        ("text_config", object(vec![("vocab_size", whole(99))])),
    ]));
    assert_eq!(c.embed_dim, 256);
    assert_eq!(c.vocab_size, 99);
    assert_eq!(c.vision.hidden_size, 768);
}

#[test]
fn lewm_config_defaults_to_pusht() {
    assert_eq!(
        LeWMConfig::from_json_str("{}").unwrap(),
        LeWMConfig::pusht()
    );
    let c = LeWMConfig::from_json_str(r#"{"latent_dim": 96, "encoder_layers": 4}"#).unwrap();
    assert_eq!(c.latent_dim, 96);
    assert_eq!(c.encoder_layers, 4);
    assert_eq!(c.predictor_hidden, 192);
    assert_eq!(c.predictor_inner_dim, 1024);
    assert!(c.has_projection());
}

#[test]
fn code_config_derives_what_is_left_out() {
    let c = CodeWorldModelConfig::from_json_str("{}").unwrap();
    assert_eq!(c, CodeWorldModelConfig::g8());

    let c = CodeWorldModelConfig::from_json_str(
        r#"{"model_dim": 64, "num_heads": 8, "layernorm_eps": 0.25, "gelu_kind": "tanh"}"#,
    )
    .unwrap();
    assert_eq!(c.head_dim, 8);
    assert_eq!(c.mlp_hidden, 256);
    assert_eq!(c.layernorm_eps.bits, 0.25f64.to_bits());
    assert_eq!(c.gelu_kind, GeluKind::Tanh);

    let c = CodeWorldModelConfig::from_json_str(
        r#"{"head_dim": 5, "mlp_hidden": 6, "gelu_kind": "other"}"#,
    )
    .unwrap();
    assert_eq!(c.head_dim, 5);
    assert_eq!(c.mlp_hidden, 6);
    assert_eq!(c.gelu_kind, GeluKind::Erf);
}

#[test]
fn code_config_without_heads_is_left_open() {
    assert!(CodeWorldModelConfig::checked_from_json_str(r#"{"num_heads": 0}"#).is_none());
    assert!(
        CodeWorldModelConfig::checked_from_json_str(r#"{"model_dim": 18446744073709551615}"#)
            .is_none()
    );
    let c = CodeWorldModelConfig::checked_from_json_str(r#"{"num_heads": 2}"#)
        .unwrap()
        .unwrap();
    assert_eq!(c.head_dim, 64);
}

#[test]
fn roberta_config_defaults_and_overrides() {
    let c = parse_roberta_config("{}").unwrap();
    assert_eq!(c.vocab_size, 50265);
    assert_eq!(c.hidden_size, 768);
    assert_eq!(c.num_hidden_layers, 12);
    assert_eq!(c.num_attention_heads, 12);
    assert_eq!(c.intermediate_size, 3072);
    assert_eq!(c.max_position_embeddings, 514);
    assert_eq!(c.type_vocab_size, 1);
    assert_eq!(c.layer_norm_eps.bits, BITS_1E_5);
    assert_eq!(c.layer_norm_eps.bits, 1e-5f64.to_bits());
    assert_eq!(c.pad_token_id, 1);

    let base = unixcoder_base();
    let c = parse_roberta_config(&format!(
        r#"{{"vocab_size": {}, "max_position_embeddings": {}, "type_vocab_size": {},
            "layer_norm_eps": 1e-12, "pad_token_id": 3}}"#,
        base.vocab_size, base.max_position_embeddings, base.type_vocab_size
    ))
    .unwrap();
    assert_eq!(c.vocab_size, base.vocab_size);
    assert_eq!(c.max_position_embeddings, base.max_position_embeddings);
    assert_eq!(c.type_vocab_size, base.type_vocab_size);
    assert_eq!(c.layer_norm_eps.bits, 1e-12f64.to_bits());
    assert_eq!(c.pad_token_id, 3);
}
