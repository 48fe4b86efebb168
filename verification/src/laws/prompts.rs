//! How conversations become prompts.

use vstd::prelude::*;

use crate::chat_template;
use crate::chat_template::{ChatMessage, ChatTemplate};
use crate::model_adapter;
use crate::model_adapter::{ModelAdapterKind, ThinkingMode};
use crate::ops;

verus! {

/// A prompt is its first message's turn and the prompt of the other messages; a
/// turn is the role, a new line and the content between the markers, and another
/// new line. The prompt of no message opens the assistant's turn.
pub proof fn lemma_turns(
    start: Seq<char>,
    end: Seq<char>,
    first: ChatMessage,
    rest: Seq<ChatMessage>,
    enable_thinking: Option<bool>,
)
    ensures
        chat_template::rendered(start, end, seq![first] + rest, enable_thinking) == start
            + first.role@ + "\n"@ + first.content@ + end + "\n"@ + chat_template::rendered(
            start,
            end,
            rest,
            enable_thinking,
        ),
        chat_template::rendered(start, end, Seq::empty(), None) == start + "assistant\n"@,
{
    let all = seq![first] + rest;
    let f = |i: int| chat_template::turn(start, end, all[i]);
    let g = |i: int| chat_template::turn(start, end, rest[i]);
    assert forall|i: int| 0 <= i < rest.len() implies #[trigger] g(i) == f(i + 1) by {
        assert(all[i + 1] == rest[i]);
    }
    lemma_shifted(f, g, rest.len());
    assert(all[0] == first);
    assert(chat_template::conversation(start, end, all) =~= f(0) + chat_template::conversation(
        start,
        end,
        rest,
    ));
    assert(chat_template::rendered(start, end, all, enable_thinking) =~= f(0)
        + chat_template::rendered(start, end, rest, enable_thinking));
    let none = Seq::<ChatMessage>::empty();
    assert(ops::blocks(0, |i: int| chat_template::turn(start, end, none[i])) =~= Seq::empty());
    assert(chat_template::rendered(start, end, none, None) =~= start + "assistant\n"@);
}

proof fn lemma_shifted(f: spec_fn(int) -> Seq<char>, g: spec_fn(int) -> Seq<char>, n: nat)
    requires
        forall|i: int| 0 <= i < n ==> #[trigger] g(i) == f(i + 1),
    ensures
        ops::blocks((n + 1) as nat, f) == f(0) + ops::blocks(n, g),
    decreases n,
{
    if n == 0 {
        assert(ops::blocks(1, f) == ops::blocks(0, f) + f(0));
        assert(ops::blocks(1, f) =~= f(0) + ops::blocks(0, g));
    } else {
        lemma_shifted(f, g, (n - 1) as nat);
        assert(g(n - 1) == f(n as int));
        assert(ops::blocks((n + 1) as nat, f) =~= f(0) + ops::blocks(n, g));
    }
}

/// Thinking that is switched off closes an empty block of thoughts at the end of
/// the prompt; nothing else changes a prompt.
pub proof fn lemma_thinking(start: Seq<char>, end: Seq<char>, messages: Seq<ChatMessage>)
    ensures
        chat_template::rendered(start, end, messages, Some(false)) == chat_template::rendered(
            start,
            end,
            messages,
            None,
        ) + "<think>\n\n</think>\n\n"@,
        chat_template::rendered(start, end, messages, Some(true)) == chat_template::rendered(
            start,
            end,
            messages,
            None,
        ),
{
}

/// Without a template, one message of the user is its own prompt, and other
/// messages are lines of role and content.
pub proof fn lemma_generic_prompt(messages: Seq<ChatMessage>, next: ChatMessage)
    ensures
        next.role@ == "user"@ ==> model_adapter::generic_prompt(None, seq![next]) == next.content@,
        next.role@ != "user"@ ==> model_adapter::generic_prompt(None, seq![next]) == next.role@
            + ": "@ + next.content@,
        messages.len() >= 2 ==> model_adapter::generic_prompt(None, messages.push(next))
            == model_adapter::generic_prompt(None, messages) + "\n"@ + next.role@ + ": "@
            + next.content@,
        messages.len() == 1 ==> model_adapter::generic_prompt(None, messages.push(next))
            == messages[0].role@ + ": "@ + messages[0].content@ + "\n"@ + next.role@ + ": "@
            + next.content@,
        model_adapter::generic_prompt(None, Seq::empty()) == Seq::<char>::empty(),
{
    let all = messages.push(next);
    if messages.len() >= 1 {
        lemma_lines_prefix(messages, next, messages.len());
        assert(all[messages.len() as int] == next);
        assert(model_adapter::lines_of(all, all.len()) =~= model_adapter::lines_of(
            messages,
            messages.len(),
        ) + "\n"@ + next.role@ + ": "@ + next.content@);
    }
}

proof fn lemma_lines_prefix(messages: Seq<ChatMessage>, next: ChatMessage, n: nat)
    requires
        n <= messages.len(),
    ensures
        model_adapter::lines_of(messages.push(next), n) == model_adapter::lines_of(messages, n),
    decreases n,
{
    if n > 1 {
        lemma_lines_prefix(messages, next, (n - 1) as nat);
    }
}

/// A template's markers are used where there is one; Qwen3 has markers of its
/// own where there is none, and switches thinking off when it is disabled.
pub proof fn lemma_adapter_prompts(
    template: &ChatTemplate,
    messages: Seq<ChatMessage>,
    mode: ThinkingMode,
)
    ensures
        ({
            let t = (template.turn_start@, template.turn_end@);
            let thinks = mode != ThinkingMode::Disabled;
            &&& ModelAdapterKind::Generic.prompt(Some(template), messages, mode)
                == chat_template::rendered(t.0, t.1, messages, None)
            &&& ModelAdapterKind::Generic.prompt(None, messages, mode)
                == model_adapter::generic_prompt(None, messages)
            &&& ModelAdapterKind::Qwen3.prompt(Some(template), messages, mode)
                == chat_template::rendered(t.0, t.1, messages, Some(thinks))
            &&& ModelAdapterKind::Qwen3.prompt(None, messages, mode) == chat_template::rendered(
                "<|im_start|>"@,
                "<|im_end|>"@,
                messages,
                Some(thinks),
            )
        }),
{
}

/// A name stands for Qwen3 when it holds `qwen3` in letters of any case, with
/// anything before and behind.
pub proof fn lemma_qwen3_names(before: Seq<char>, name: Seq<char>, after: Seq<char>)
    requires
        name.len() == 5,
        name[0] == 'q' || name[0] == 'Q',
        name[1] == 'w' || name[1] == 'W',
        name[2] == 'e' || name[2] == 'E',
        name[3] == 'n' || name[3] == 'N',
        name[4] == '3',
    ensures
        ModelAdapterKind::of_name(before + name + after) == ModelAdapterKind::Qwen3,
{
    let s = model_adapter::small_text(before + name + after);
    reveal_strlit("qwen3");
    let i = before.len() as int;
    assert(s.subrange(i, i + 5) =~= "qwen3"@);
    assert(model_adapter::stands_at(s, "qwen3"@, i));
}

/// A name without the digit stands for no known family.
pub proof fn lemma_other_names(name: Seq<char>)
    requires
        forall|i: int| 0 <= i < name.len() ==> #[trigger] name[i] != '3',
    ensures
        ModelAdapterKind::of_name(name) == ModelAdapterKind::Generic,
{
    let s = model_adapter::small_text(name);
    reveal_strlit("qwen3");
    assert("qwen3"@[4] == '3');
    assert forall|i: int| !model_adapter::stands_at(s, "qwen3"@, i) by {
        if model_adapter::stands_at(s, "qwen3"@, i) {
            assert(s.subrange(i, i + 5)[4] == s[i + 4]);
            assert(name[i + 4] != '3');
        }
    }
}

} // verus!
