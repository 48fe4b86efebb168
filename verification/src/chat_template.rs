//! Chat prompts in the ChatML layout: delimited turns, an opened assistant
//! turn at the end, and the empty reasoning block that turns thinking off.

use vstd::prelude::*;

use crate::ops;

verus! {

/// One message of a conversation.
#[derive(Debug, Clone, PartialEq, Eq)]
pub struct ChatMessage {
    pub role: String,
    pub content: String,
}

/// What a prompt is rendered with.
#[derive(Debug, Clone, Copy, PartialEq, Eq, Structural)]
pub struct ChatTemplateOptions {
    /// `Some(false)` closes the reasoning block before the model writes it;
    /// otherwise the model decides.
    pub enable_thinking: Option<bool>,
}

impl Default for ChatTemplateOptions {
    fn default() -> (r: Self)
        ensures
            r.enable_thinking == None::<bool>,
    {
        ChatTemplateOptions { enable_thinking: None }
    }
}

/// The delimiters around a turn.
#[derive(Debug, Clone, PartialEq, Eq)]
pub struct ChatTemplate {
    pub turn_start: String,
    pub turn_end: String,
}

/// A reasoning block with nothing in it.
pub open spec fn empty_think_block() -> Seq<char> {
    "<think>\n\n</think>\n\n"@
}

/// One finished turn between two delimiters.
pub open spec fn turn(start: Seq<char>, end: Seq<char>, message: ChatMessage) -> Seq<char> {
    start + message.role@ + "\n"@ + message.content@ + end + "\n"@
}

/// The finished turns and the opened turn of the assistant.
pub open spec fn conversation(
    start: Seq<char>,
    end: Seq<char>,
    messages: Seq<ChatMessage>,
) -> Seq<char> {
    ops::blocks(messages.len(), |i: int| turn(start, end, messages[i])) + start + "assistant\n"@
}

/// The whole prompt.
pub open spec fn rendered(
    start: Seq<char>,
    end: Seq<char>,
    messages: Seq<ChatMessage>,
    enable_thinking: Option<bool>,
) -> Seq<char> {
    if enable_thinking == Some(false) {
        conversation(start, end, messages) + empty_think_block()
    } else {
        conversation(start, end, messages)
    }
}

impl ChatTemplate {
    /// The template of the Qwen3 family.
    pub fn default_qwen3() -> (r: Self)
        ensures
            r.turn_start@ == "<|im_start|>"@,
            r.turn_end@ == "<|im_end|>"@,
    {
        ChatTemplate {
            turn_start: "<|im_start|>".to_owned(),
            turn_end: "<|im_end|>".to_owned(),
        }
    }

    /// Render a conversation as a prompt.
    pub fn apply_with_options(
        &self,
        messages: &[ChatMessage],
        options: ChatTemplateOptions,
    ) -> (r: String)
        ensures
            r@ == rendered(
                self.turn_start@,
                self.turn_end@,
                messages@,
                options.enable_thinking,
            ),
    {
        let ghost f = |i: int| turn(self.turn_start@, self.turn_end@, messages@[i]);
        let mut out = String::new();
        for i in 0..messages.len()
            invariant
                f == (|i: int| turn(self.turn_start@, self.turn_end@, messages@[i])),
                out@ == ops::blocks(i as nat, f),
        {
            out.append(self.turn_start.as_str());
            out.append(messages[i].role.as_str());
            out.append("\n");
            out.append(messages[i].content.as_str());
            out.append(self.turn_end.as_str());
            out.append("\n");
            assert(out@ =~= ops::blocks((i + 1) as nat, f));
        }
        out.append(self.turn_start.as_str());
        out.append("assistant\n");
        match options.enable_thinking {
            Some(false) => {
                out.append("<think>\n\n</think>\n\n");
            },
            _ => {},
        }
        out
    }
}

} // verus!
