use synapse_inference::chat_template::{ChatMessage, ChatTemplate};
use synapse_inference::model_adapter::{
    adapter_for_kind, ModelAdapter, ModelAdapterKind, ReasoningMarkers, ThinkingMode,
};

fn user_message(content: &str) -> Vec<ChatMessage> {
    vec![ChatMessage {
        role: "user".into(),
        content: content.into(),
    }]
}

#[test]
fn generic_adapter_uses_raw_content_without_template() {
    let prompt = adapter_for_kind(ModelAdapterKind::Generic)
        .format_chat_prompt(None, &user_message("hello"), ThinkingMode::Auto)
        .unwrap();
    assert_eq!(prompt, "hello");
}

#[test]
fn qwen3_adapter_appends_empty_think_block_when_disabled() {
    let prompt = adapter_for_kind(ModelAdapterKind::Qwen3)
        .format_chat_prompt(None, &user_message("hello"), ThinkingMode::Disabled)
        .unwrap();

    assert!(prompt.contains("<|im_start|>assistant\n"));
    assert!(prompt.ends_with("<think>\n\n</think>\n\n"));
}

#[test]
fn qwen3_adapter_keeps_auto_prompt_unchanged() {
    let prompt = adapter_for_kind(ModelAdapterKind::Qwen3)
        .format_chat_prompt(None, &user_message("hello"), ThinkingMode::Auto)
        .unwrap();

    assert!(prompt.contains("<|im_start|>assistant\n"));
    assert!(!prompt.ends_with("<think>\n\n</think>\n\n"));
}

#[test]
fn qwen3_adapter_exposes_reasoning_markers() {
    assert_eq!(
        adapter_for_kind(ModelAdapterKind::Qwen3).reasoning_markers(),
        Some(ReasoningMarkers {
            start: "<think>",
            end: "</think>",
        })
    );
    assert_eq!(
        adapter_for_kind(ModelAdapterKind::Generic).reasoning_markers(),
        None
    );
}

#[test]
fn qwen3_is_detected_case_insensitively() {
    assert_eq!(
        ModelAdapterKind::from_model_name("Qwen3-0.6B"),
        ModelAdapterKind::Qwen3
    );
    assert_eq!(
        ModelAdapterKind::from_model_name("qwen3"),
        ModelAdapterKind::Qwen3
    );
    assert_eq!(
        ModelAdapterKind::from_model_name("llama"),
        ModelAdapterKind::Generic
    );
}

#[test]
fn family_is_found_anywhere_in_the_name() {
    for name in ["my-QWEN3", "QwEn3", "a/qwen3/b", "qqwen3"] {
        assert_eq!(
            ModelAdapterKind::from_model_name(name),
            ModelAdapterKind::Qwen3
        );
    }
    for name in ["", "qwen", "qwen2.5", "qwen-3", "3qwen"] {
        assert_eq!(
            ModelAdapterKind::from_model_name(name),
            ModelAdapterKind::Generic
        );
    }
    assert_eq!(ModelAdapterKind::Generic.family(), "generic");
    assert_eq!(ModelAdapterKind::Qwen3.family(), "qwen3");
}

#[test]
fn thinking_modes_are_read_back_from_their_names() {
    for mode in [ThinkingMode::Auto, ThinkingMode::Disabled] {
        assert_eq!(ThinkingMode::parse_cli(mode.as_str()), Ok(mode));
    }
    assert_eq!(
        ThinkingMode::parse_cli("on"),
        Err("Unknown thinking mode: on. Expected one of: auto, disabled".to_string())
    );
    assert_eq!(ThinkingMode::default(), ThinkingMode::Auto);
}

#[test]
fn families_start_in_their_own_thinking_mode() {
    assert_eq!(
        adapter_for_kind(ModelAdapterKind::Generic).default_cli_thinking_mode(),
        ThinkingMode::Auto
    );
    assert_eq!(
        adapter_for_kind(ModelAdapterKind::Qwen3).default_cli_thinking_mode(),
        ThinkingMode::Disabled
    );
}

#[test]
fn generic_adapter_joins_a_conversation_by_lines() {
    let mut messages = user_message("hello");
    messages.push(ChatMessage {
        role: "assistant".into(),
        content: "hi".into(),
    });
    let adapter = adapter_for_kind(ModelAdapterKind::Generic);
    assert_eq!(
        adapter
            .format_chat_prompt(None, &messages, ThinkingMode::Disabled)
            .unwrap(),
        "user: hello\nassistant: hi"
    );
    assert_eq!(
        adapter
            .format_chat_prompt(None, &messages[1..], ThinkingMode::Auto)
            .unwrap(),
        "assistant: hi"
    );
    assert_eq!(
        adapter
            .format_chat_prompt(None, &[], ThinkingMode::Auto)
            .unwrap(),
        ""
    );
}

#[test]
fn turning_thinking_off_only_appends_the_empty_block() {
    let adapter = adapter_for_kind(ModelAdapterKind::Qwen3);
    let messages = user_message("hello");
    let auto = adapter
        .format_chat_prompt(None, &messages, ThinkingMode::Auto)
        .unwrap();
    let disabled = adapter
        .format_chat_prompt(None, &messages, ThinkingMode::Disabled)
        .unwrap();
    assert_eq!(
        auto,
        "<|im_start|>user\nhello<|im_end|>\n<|im_start|>assistant\n"
    );
    assert_eq!(disabled, auto + "<think>\n\n</think>\n\n");
}

#[test]
fn a_template_of_the_caller_is_used() {
    let template = ChatTemplate {
        turn_start: "[".into(),
        turn_end: "]".into(),
    };
    let messages = user_message("hello");
    for kind in [ModelAdapterKind::Generic, ModelAdapterKind::Qwen3] {
        assert_eq!(
            adapter_for_kind(kind)
                .format_chat_prompt(Some(&template), &messages, ThinkingMode::Auto)
                .unwrap(),
            "[user\nhello]\n[assistant\n"
        );
    }
    assert_eq!(
        adapter_for_kind(ModelAdapterKind::Generic)
            .format_chat_prompt(Some(&template), &messages, ThinkingMode::Disabled)
            .unwrap(),
        "[user\nhello]\n[assistant\n"
    );
}
