//! What differs between model families at the chat level: how a conversation
//! becomes a prompt, and whether the model writes its reasoning down.

use vstd::prelude::*;

use crate::chat_template;
use crate::chat_template::{ChatMessage, ChatTemplate, ChatTemplateOptions};
use crate::text::{str_eq, to_chars};

verus! {

/// Whether a model may write its reasoning before the answer.
#[derive(Debug, Clone, Copy, PartialEq, Eq, Structural)]
pub enum ThinkingMode {
    Auto,
    Disabled,
}

impl Default for ThinkingMode {
    fn default() -> (r: Self)
        ensures
            r == ThinkingMode::Auto,
    {
        ThinkingMode::Auto
    }
}

/// What an unknown thinking mode is answered with.
pub open spec fn unknown_mode_text(value: Seq<char>) -> Seq<char> {
    "Unknown thinking mode: "@ + value + ". Expected one of: auto, disabled"@
}

impl ThinkingMode {
    /// The name of the mode.
    pub open spec fn name(self) -> Seq<char> {
        match self {
            ThinkingMode::Auto => "auto"@,
            ThinkingMode::Disabled => "disabled"@,
        }
    }

    /// The mode that a command line names.
    pub fn parse_cli(value: &str) -> (r: Result<Self, String>)
        ensures
            match r {
                Ok(mode) => value@ == mode.name(),
                Err(e) => {
                    &&& forall|mode: ThinkingMode| value@ != #[trigger] mode.name()
                    &&& e@ == unknown_mode_text(value@)
                },
            },
    {
        if str_eq(value, "auto") {
            Ok(ThinkingMode::Auto)
        } else if str_eq(value, "disabled") {
            Ok(ThinkingMode::Disabled)
        } else {
            let mut e = "Unknown thinking mode: ".to_owned();
            e.append(value);
            e.append(". Expected one of: auto, disabled");
            Err(e)
        }
    }

    /// The name of the mode.
    pub fn as_str(self) -> (r: &'static str)
        ensures
            r@ == self.name(),
    {
        match self {
            ThinkingMode::Auto => "auto",
            ThinkingMode::Disabled => "disabled",
        }
    }
}

/// No two modes share a name, so a name is read back as the mode it names.
pub proof fn lemma_mode_names_differ(a: ThinkingMode, b: ThinkingMode)
    requires
        a.name() == b.name(),
    ensures
        a == b,
{
    reveal_strlit("auto");
    reveal_strlit("disabled");
    assert("auto"@.len() == 4 && "disabled"@.len() == 8);
}

/// The texts between which a model writes its reasoning.
#[derive(Debug, Clone, Copy, PartialEq, Eq)]
pub struct ReasoningMarkers {
    pub start: &'static str,
    pub end: &'static str,
}

/// What a model family brings to a chat.
pub trait ModelAdapter: Sync {
    /// The name of the family.
    fn family(&self) -> (r: &'static str);

    /// The mode that a command line starts with.
    fn default_cli_thinking_mode(&self) -> (r: ThinkingMode)
        default_ensures
            r == ThinkingMode::Auto,
    {
        ThinkingMode::Auto
    }

    /// The texts around the reasoning, for a family that writes it down.
    fn reasoning_markers(&self) -> (r: Option<ReasoningMarkers>)
        default_ensures
            r is None,
    {
        None
    }

    /// The prompt of a conversation.
    fn format_chat_prompt(
        &self,
        template: Option<&ChatTemplate>,
        messages: &[ChatMessage],
        thinking_mode: ThinkingMode,
    ) -> (r: Result<String, String>);
}

/// The model families with an adapter.
#[derive(Debug, Clone, Copy, PartialEq, Eq, Structural)]
pub enum ModelAdapterKind {
    Generic,
    Qwen3,
}

/// A character with an ASCII capital made small.
pub open spec fn small(c: char) -> char {
    if 'A' <= c <= 'Z' {
        (c as u32 + 32) as char
    } else {
        c
    }
}

/// A text with its ASCII capitals made small.
pub open spec fn small_text(s: Seq<char>) -> Seq<char> {
    s.map_values(|c: char| small(c))
}

/// Whether `part` stands in `s` from position `i` on.
pub open spec fn stands_at(s: Seq<char>, part: Seq<char>, i: int) -> bool {
    0 <= i && i + part.len() <= s.len() && s.subrange(i, i + part.len()) == part
}

/// Whether `part` stands anywhere in `s`.
pub open spec fn contains_text(s: Seq<char>, part: Seq<char>) -> bool {
    exists|i: int| stands_at(s, part, i)
}

fn to_small(c: char) -> (r: char)
    ensures
        r == small(c),
{
    if 'A' <= c && c <= 'Z' {
        let code = (c as u32 + 32) as u8;
        code as char
    } else {
        c
    }
}

impl ModelAdapterKind {
    /// The family of a model with this name.
    pub open spec fn of_name(name: Seq<char>) -> ModelAdapterKind {
        if contains_text(small_text(name), "qwen3"@) {
            ModelAdapterKind::Qwen3
        } else {
            ModelAdapterKind::Generic
        }
    }

    /// The name of the family.
    pub open spec fn family_name(self) -> Seq<char> {
        match self {
            ModelAdapterKind::Generic => "generic"@,
            ModelAdapterKind::Qwen3 => "qwen3"@,
        }
    }

    /// Find the family of a model by its name, in capitals or not.
    pub fn from_model_name(name: &str) -> (r: Self)
        ensures
            r == ModelAdapterKind::of_name(name@),
    {
        let chars = to_chars(name);
        let part = to_chars("qwen3");
        proof {
            reveal_strlit("qwen3");
            assert(part@.len() == 5);
        }
        let ghost s = small_text(name@);
        let n = chars.len();
        let m = part.len();
        if n < m {
            return ModelAdapterKind::Generic;
        }
        for i in 0..n - m + 1
            invariant
                0 < m,
                n == chars@.len(),
                m == part@.len(),
                m <= n,
                chars@ == name@,
                part@ == "qwen3"@,
                s == small_text(name@),
                forall|k: int| 0 <= k < i ==> !(#[trigger] stands_at(s, "qwen3"@, k)),
        {
            let mut all = true;
            assert(s.subrange(i as int, i + 0) =~= part@.take(0));
            for j in 0..m
                invariant
                    n == chars@.len(),
                    m == part@.len(),
                    i + m <= n,
                    chars@ == name@,
                    s == small_text(name@),
                    all == (s.subrange(i as int, i + j) == part@.take(j as int)),
            {
                let same = to_small(chars[i + j]) == part[j];
                let ghost head = s.subrange(i as int, i + j);
                assert(s.subrange(i as int, i + j + 1) =~= head.push(s[i + j]));
                assert(part@.take(j + 1) =~= part@.take(j as int).push(part@[j as int]));
                proof {
                    if s.subrange(i as int, i + j + 1) == part@.take(j + 1) {
                        assert(s.subrange(i as int, i + j + 1)[j as int] == s[i + j]);
                        assert(head =~= s.subrange(i as int, i + j + 1).take(j as int));
                        assert(part@.take(j as int) =~= part@.take(j + 1).take(j as int));
                    }
                }
                if !same {
                    all = false;
                }
            }
            assert(part@.take(m as int) =~= part@);
            if all {
                assert(stands_at(s, "qwen3"@, i as int));
                return ModelAdapterKind::Qwen3;
            }
        }
        ModelAdapterKind::Generic
    }

    /// The name of the family.
    pub fn family(self) -> (r: &'static str)
        ensures
            r@ == self.family_name(),
    {
        adapter_for_kind(self).family()
    }
}

/// A model's name in capitals belongs to the same family.
pub proof fn lemma_case_does_not_matter(a: Seq<char>, b: Seq<char>)
    requires
        small_text(a) == small_text(b),
    ensures
        ModelAdapterKind::of_name(a) == ModelAdapterKind::of_name(b),
{
}

/// The adapter of a family.
#[derive(Debug, Clone, Copy, PartialEq, Eq, Structural)]
pub enum FamilyAdapter {
    Generic(GenericAdapter),
    Qwen3(Qwen3Adapter),
}

/// Find the adapter of a family.
pub fn adapter_for_kind(kind: ModelAdapterKind) -> (r: FamilyAdapter)
    ensures
        r.kind() == kind,
{
    match kind {
        ModelAdapterKind::Generic => FamilyAdapter::Generic(GenericAdapter),
        ModelAdapterKind::Qwen3 => FamilyAdapter::Qwen3(Qwen3Adapter),
    }
}

impl FamilyAdapter {
    /// The family that the adapter is for.
    pub open spec fn kind(self) -> ModelAdapterKind {
        match self {
            FamilyAdapter::Generic(_) => ModelAdapterKind::Generic,
            FamilyAdapter::Qwen3(_) => ModelAdapterKind::Qwen3,
        }
    }
}

/// A message as a line.
pub open spec fn line_of(message: ChatMessage) -> Seq<char> {
    message.role@ + ": "@ + message.content@
}

/// The first `n` messages as lines.
pub open spec fn lines_of(messages: Seq<ChatMessage>, n: nat) -> Seq<char>
    decreases n,
{
    if n == 0 {
        Seq::empty()
    } else if n == 1 {
        line_of(messages[0])
    } else {
        lines_of(messages, (n - 1) as nat) + "\n"@ + line_of(messages[n - 1])
    }
}

/// The prompt of a family without a layout of its own.
pub open spec fn generic_prompt(
    template: Option<&ChatTemplate>,
    messages: Seq<ChatMessage>,
) -> Seq<char> {
    match template {
        Some(t) => chat_template::rendered(t.turn_start@, t.turn_end@, messages, None),
        None => if messages.len() == 1 && messages[0].role@ == "user"@ {
            messages[0].content@
        } else {
            lines_of(messages, messages.len())
        },
    }
}

/// The prompt of the Qwen3 family.
pub open spec fn qwen3_prompt(
    template: Option<&ChatTemplate>,
    messages: Seq<ChatMessage>,
    mode: ThinkingMode,
) -> Seq<char> {
    let enable_thinking = Some(mode != ThinkingMode::Disabled);
    match template {
        Some(t) => chat_template::rendered(
            t.turn_start@,
            t.turn_end@,
            messages,
            enable_thinking,
        ),
        None => chat_template::rendered(
            "<|im_start|>"@,
            "<|im_end|>"@,
            messages,
            enable_thinking,
        ),
    }
}

impl ModelAdapterKind {
    /// The prompt of a conversation with a model of the family.
    pub open spec fn prompt(
        self,
        template: Option<&ChatTemplate>,
        messages: Seq<ChatMessage>,
        mode: ThinkingMode,
    ) -> Seq<char> {
        match self {
            ModelAdapterKind::Generic => generic_prompt(template, messages),
            ModelAdapterKind::Qwen3 => qwen3_prompt(template, messages, mode),
        }
    }
}

/// The adapter of models without a layout of their own.
#[derive(Debug, Clone, Copy, PartialEq, Eq, Structural)]
pub struct GenericAdapter;

impl ModelAdapter for GenericAdapter {
    fn family(&self) -> (r: &'static str)
        ensures
            r@ == "generic"@,
    {
        "generic"
    }

    fn format_chat_prompt(
        &self,
        template: Option<&ChatTemplate>,
        messages: &[ChatMessage],
        thinking_mode: ThinkingMode,
    ) -> (r: Result<String, String>)
        ensures
            r matches Ok(prompt) && prompt@ == generic_prompt(template, messages@),
    {
        if let Some(t) = template {
            return Ok(t.apply_with_options(messages, ChatTemplateOptions::default()));
        }
        if messages.len() == 1 && str_eq(messages[0].role.as_str(), "user") {
            return Ok(messages[0].content.as_str().to_owned());
        }
        let mut prompt = String::new();
        for i in 0..messages.len()
            invariant
                prompt@ == lines_of(messages@, i as nat),
        {
            if i > 0 {
                prompt.append("\n");
            }
            prompt.append(messages[i].role.as_str());
            prompt.append(": ");
            prompt.append(messages[i].content.as_str());
            assert(prompt@ =~= lines_of(messages@, (i + 1) as nat));
        }
        Ok(prompt)
    }
}

/// The adapter of the Qwen3 family.
#[derive(Debug, Clone, Copy, PartialEq, Eq, Structural)]
pub struct Qwen3Adapter;

impl ModelAdapter for Qwen3Adapter {
    fn family(&self) -> (r: &'static str)
        ensures
            r@ == "qwen3"@,
    {
        "qwen3"
    }

    fn default_cli_thinking_mode(&self) -> (r: ThinkingMode)
        ensures
            r == ThinkingMode::Disabled,
    {
        ThinkingMode::Disabled
    }

    fn reasoning_markers(&self) -> (r: Option<ReasoningMarkers>)
        ensures
            r matches Some(markers) && markers.start@ == "<think>"@ && markers.end@
                == "</think>"@,
    {
        Some(ReasoningMarkers { start: "<think>", end: "</think>" })
    }

    fn format_chat_prompt(
        &self,
        template: Option<&ChatTemplate>,
        messages: &[ChatMessage],
        thinking_mode: ThinkingMode,
    ) -> (r: Result<String, String>)
        ensures
            r matches Ok(prompt) && prompt@ == qwen3_prompt(template, messages@, thinking_mode),
    {
        let options = ChatTemplateOptions {
            enable_thinking: Some(thinking_mode != ThinkingMode::Disabled),
        };
        match template {
            Some(t) => Ok(t.apply_with_options(messages, options)),
            None => {
                let t = ChatTemplate::default_qwen3();
                Ok(t.apply_with_options(messages, options))
            },
        }
    }
}

impl ModelAdapter for FamilyAdapter {
    fn family(&self) -> (r: &'static str)
        ensures
            r@ == self.kind().family_name(),
    {
        match self {
            FamilyAdapter::Generic(a) => a.family(),
            FamilyAdapter::Qwen3(a) => a.family(),
        }
    }

    fn default_cli_thinking_mode(&self) -> (r: ThinkingMode)
        ensures
            r == (match self.kind() {
                ModelAdapterKind::Generic => ThinkingMode::Auto,
                ModelAdapterKind::Qwen3 => ThinkingMode::Disabled,
            }),
    {
        match self {
            FamilyAdapter::Generic(a) => a.default_cli_thinking_mode(),
            FamilyAdapter::Qwen3(a) => a.default_cli_thinking_mode(),
        }
    }

    fn reasoning_markers(&self) -> (r: Option<ReasoningMarkers>)
        ensures
            match self.kind() {
                ModelAdapterKind::Generic => r is None,
                ModelAdapterKind::Qwen3 => r matches Some(markers) && markers.start@
                    == "<think>"@ && markers.end@ == "</think>"@,
            },
    {
        match self {
            FamilyAdapter::Generic(a) => a.reasoning_markers(),
            FamilyAdapter::Qwen3(a) => a.reasoning_markers(),
        }
    }

    fn format_chat_prompt(
        &self,
        template: Option<&ChatTemplate>,
        messages: &[ChatMessage],
        thinking_mode: ThinkingMode,
    ) -> (r: Result<String, String>)
        ensures
            r matches Ok(prompt) && prompt@ == self.kind().prompt(
                template,
                messages@,
                thinking_mode,
            ),
    {
        match self {
            FamilyAdapter::Generic(a) => a.format_chat_prompt(template, messages, thinking_mode),
            FamilyAdapter::Qwen3(a) => a.format_chat_prompt(template, messages, thinking_mode),
        }
    }
}

/// Turning thinking off adds an empty reasoning block at the end of a Qwen3
/// prompt and changes nothing else in it.
pub proof fn lemma_disabled_appends_think_block(
    template: Option<&ChatTemplate>,
    messages: Seq<ChatMessage>,
)
    ensures
        qwen3_prompt(template, messages, ThinkingMode::Disabled) == qwen3_prompt(
            template,
            messages,
            ThinkingMode::Auto,
        ) + chat_template::empty_think_block(),
{
}

} // verus!
