//! Laws of prompts: what a model gets to read of a chat, and where.

use vstd::prelude::*;

use crate::chat::call_object;
use crate::chat::chat_prompt;
use crate::chat::chatml_calls;
use crate::chat::chatml_message;
use crate::chat::chatml_messages;
use crate::chat::chatml_prompt;
use crate::chat::chatml_system;
use crate::chat::function_pointer;
use crate::chat::functions_listing;
use crate::chat::harmony_calls;
use crate::chat::harmony_message;
use crate::chat::harmony_messages;
use crate::chat::harmony_prompt;
use crate::chat::harmony_system;
use crate::chat::in_small_letters;
use crate::chat::law_messages_keep_order;
use crate::chat::reads_harmony;
use crate::chat::system_content;
use crate::chat::tools_listing;
use crate::json::escaped;
use crate::json::item_pointer;
use crate::json::json_node;
use crate::json::json_pretty_list;
use crate::json::member_list;
use crate::json::quoted;
use crate::json::NodeView;
use crate::json::Shape;
use crate::number::decimal;
use crate::ollama_types::CallView;
use crate::ollama_types::MessageView;
use crate::text::ends_with;
use crate::text::is_ascii_text;
use crate::text::occurs_at;
use crate::text::starts_with;

verus! {

/// The first message that the system wrote gives the system message.
proof fn lemma_first_system(before: Seq<MessageView>, system: MessageView, after: Seq<MessageView>)
    requires
        system.role == "system"@,
        forall|i: int| 0 <= i < before.len() ==> (#[trigger] before[i]).role != "system"@,
    ensures
        system_content(before + seq![system] + after) == Some(system.content),
    decreases before.len(),
{
    let all = before + seq![system] + after;
    if before.len() == 0 {
        assert(all[0] == system);
    } else {
        let rest = before.skip(1);
        assert forall|i: int| 0 <= i < rest.len() implies (#[trigger] rest[i]).role != "system"@ by {
            assert(rest[i] == before[i + 1]);
        }
        lemma_first_system(rest, system, after);
        assert(all[0] == before[0]);
        assert(all.skip(1) =~= rest + seq![system] + after);
    }
}

proof fn lemma_no_system(messages: Seq<MessageView>)
    requires
        forall|i: int| 0 <= i < messages.len() ==> (#[trigger] messages[i]).role != "system"@,
    ensures
        system_content(messages) is None,
    decreases messages.len(),
{
    if messages.len() > 0 {
        let rest = messages.skip(1);
        assert forall|i: int| 0 <= i < rest.len() implies (#[trigger] rest[i]).role != "system"@ by {
            assert(rest[i] == messages[i + 1]);
        }
        lemma_no_system(rest);
    }
}

/// A text that stands between two others stands in the whole.
proof fn lemma_stands_between(a: Seq<char>, p: Seq<char>, b: Seq<char>)
    ensures
        occurs_at(a + p + b, p, a.len() as int),
{
    assert((a + p + b).subrange(a.len() as int, (a.len() + p.len()) as int) =~= p);
}

/// What stands in a part of a text stands in the text.
proof fn lemma_stands_within(a: Seq<char>, s: Seq<char>, b: Seq<char>, p: Seq<char>, i: int)
    requires
        occurs_at(s, p, i),
    ensures
        occurs_at(a + s + b, p, a.len() + i),
{
    let k = a.len() + i;
    assert((a + s + b).subrange(k, k + p.len()) =~= s.subrange(i, i + p.len()));
}

// ---------------------------------------------------------------------------
// ChatML

/// The calls of an assistant are shown one after the other, each as a JSON object
/// between tags.
pub proof fn law_chatml_shows_each_call(calls: Seq<CallView>, call: CallView)
    ensures
        chatml_calls(Seq::empty()) == Seq::<char>::empty(),
        chatml_calls(calls.push(call)) == chatml_calls(calls) + "<tool_call>\n{\"arguments\":"@
            + call.arguments + ",\"name\":"@ + quoted(call.name) + "}\n</tool_call>"@,
{
    assert(calls.push(call).drop_last() =~= calls);
    let entries = seq![("arguments"@, call.arguments), ("name"@, quoted(call.name))];
    let first = entries.drop_last();
    assert(first.drop_last() =~= Seq::<(Seq<char>, Seq<char>)>::empty());
    assert(first.last() == ("arguments"@, call.arguments));
    reveal_strlit("arguments");
    reveal_strlit("name");
    reveal_strlit("<tool_call>\n{\"arguments\":");
    reveal_strlit("<tool_call>\n");
    reveal_strlit(",\"name\":");
    reveal_strlit("}\n</tool_call>");
    reveal_strlit("\n</tool_call>");
    lemma_plain_escape("arguments"@);
    lemma_plain_escape("name"@);
    assert(member_list(first) == quoted("arguments"@) + seq![':'] + call.arguments);
    assert(member_list(entries) == member_list(first) + seq![','] + (quoted("name"@) + seq![':']
        + quoted(call.name)));
    assert("<tool_call>\n"@ + call_object(call) + "\n</tool_call>"@
        =~= "<tool_call>\n{\"arguments\":"@ + call.arguments + ",\"name\":"@ + quoted(call.name)
        + "}\n</tool_call>"@);
    assert(chatml_calls(calls.push(call)) =~= chatml_calls(calls) + ("<tool_call>\n"@
        + call_object(call) + "\n</tool_call>"@));
    assert(chatml_calls(calls.push(call)) =~= chatml_calls(calls)
        + "<tool_call>\n{\"arguments\":"@ + call.arguments + ",\"name\":"@ + quoted(call.name)
        + "}\n</tool_call>"@);
}

/// A text of small letters stands in a JSON string as it is.
proof fn lemma_plain_escape(s: Seq<char>)
    requires
        forall|i: int| 0 <= i < s.len() ==> 'a' <= #[trigger] s[i] <= 'z',
    ensures
        escaped(s) == s,
        quoted(s) == seq!['"'] + s + seq!['"'],
    decreases s.len(),
{
    if s.len() > 0 {
        let front = s.drop_last();
        assert forall|i: int| 0 <= i < front.len() implies 'a' <= #[trigger] front[i] <= 'z' by {
            assert(front[i] == s[i]);
        }
        lemma_plain_escape(front);
        assert('a' <= s[s.len() - 1] <= 'z');
        assert(escaped(s) =~= s);
    } else {
        assert(escaped(s) =~= s);
    }
}

/// A message that the system did not write stands in its place among the others:
/// who wrote it, on a line of its own, what was written, and the calls that were
/// made. One that the system wrote does not stand among the others.
pub proof fn law_chatml_keeps_each_message(
    before: Seq<MessageView>,
    m: MessageView,
    after: Seq<MessageView>,
)
    ensures
        chatml_messages(Seq::empty()) == Seq::<char>::empty(),
        m.role == "system"@ ==> chatml_messages(before + seq![m] + after) == chatml_messages(before)
            + chatml_messages(after),
        m.role != "system"@ ==> chatml_messages(before + seq![m] + after) == chatml_messages(before)
            + ("<|im_start|>"@ + m.role + "\n"@ + m.content + (match m.calls {
            Some(calls) => chatml_calls(calls),
            None => Seq::empty(),
        }) + "<|im_end|>\n"@) + chatml_messages(after),
{
    let one = seq![m];
    law_messages_keep_order(before + one, after);
    law_messages_keep_order(before, one);
    let none = Seq::<MessageView>::empty();
    assert(one.drop_last() =~= none);
    assert(chatml_messages(none) =~= Seq::<char>::empty());
    assert(chatml_messages(one) =~= chatml_message(m));
    if m.role == "system"@ {
        assert(chatml_messages(before) + Seq::<char>::empty() =~= chatml_messages(before));
    } else {
        let calls = match m.calls {
            Some(calls) => chatml_calls(calls),
            None => Seq::empty(),
        };
        assert(chatml_message(m) =~= "<|im_start|>"@ + m.role + "\n"@ + m.content + calls
            + "<|im_end|>\n"@);
    }
}

proof fn lemma_regroup(
    h: Seq<char>,
    a: Seq<char>,
    front: Seq<char>,
    mid: Seq<char>,
    end: Seq<char>,
    c: Seq<char>,
    open: Seq<char>,
)
    ensures
        h + (a + (front + mid + end) + c) + open == (h + a) + front + (mid + (end + c + open)),
{
    assert(h + (a + (front + mid + end) + c) + open =~= (h + a) + front + (mid + (end + c + open)));
}

/// The prompt around a message that the system did not write.
proof fn lemma_around_message(messages: Seq<MessageView>, listing: Option<Seq<char>>, i: int) -> (r: (
    Seq<char>,
    Seq<char>,
))
    requires
        0 <= i < messages.len(),
        messages[i].role != "system"@,
    ensures
        chatml_prompt(messages, listing) == r.0 + ("<|im_start|>"@ + messages[i].role + "\n"@
            + messages[i].content) + ((match messages[i].calls {
            Some(calls) => chatml_calls(calls),
            None => Seq::empty(),
        }) + r.1),
{
    let before = messages.take(i);
    let m = messages[i];
    let after = messages.skip(i + 1);
    law_chatml_keeps_each_message(before, m, after);
    assert(messages =~= before + seq![m] + after);
    let front = "<|im_start|>"@ + m.role + "\n"@ + m.content;
    let calls = match m.calls {
        Some(calls) => chatml_calls(calls),
        None => Seq::empty(),
    };
    let system = chatml_system(system_content(messages), listing);
    let a = system + chatml_messages(before);
    let b = "<|im_end|>\n"@ + chatml_messages(after) + "<|im_start|>assistant\n"@;
    lemma_regroup(
        system,
        chatml_messages(before),
        front,
        calls,
        "<|im_end|>\n"@,
        chatml_messages(after),
        "<|im_start|>assistant\n"@,
    );
    assert(chatml_prompt(messages, listing) == system + chatml_messages(messages)
        + "<|im_start|>assistant\n"@);
    (a, b)
}

/// Each message that the system did not write stands in the prompt with its role and
/// its content.
pub proof fn law_chatml_prompt_holds_each_message(
    messages: Seq<MessageView>,
    listing: Option<Seq<char>>,
    i: int,
)
    requires
        0 <= i < messages.len(),
        messages[i].role != "system"@,
    ensures
        exists|at: int| #[trigger]
            occurs_at(
                chatml_prompt(messages, listing),
                "<|im_start|>"@ + messages[i].role + "\n"@ + messages[i].content,
                at,
            ),
{
    let (a, b) = lemma_around_message(messages, listing, i);
    let front = "<|im_start|>"@ + messages[i].role + "\n"@ + messages[i].content;
    let calls = match messages[i].calls {
        Some(calls) => chatml_calls(calls),
        None => Seq::empty(),
    };
    lemma_stands_between(a, front, calls + b);
}

/// Each call of a message that the system did not write stands in the prompt with its
/// name and its arguments.
pub proof fn law_chatml_prompt_holds_each_call(
    messages: Seq<MessageView>,
    listing: Option<Seq<char>>,
    i: int,
    calls: Seq<CallView>,
    k: int,
)
    requires
        0 <= i < messages.len(),
        messages[i].role != "system"@,
        messages[i].calls == Some(calls),
        0 <= k < calls.len(),
    ensures
        exists|at: int| #[trigger]
            occurs_at(
                chatml_prompt(messages, listing),
                "<tool_call>\n{\"arguments\":"@ + calls[k].arguments + ",\"name\":"@ + quoted(
                    calls[k].name,
                ) + "}\n</tool_call>"@,
                at,
            ),
{
    let (a, b) = lemma_around_message(messages, listing, i);
    let front = "<|im_start|>"@ + messages[i].role + "\n"@ + messages[i].content;
    let own = "<tool_call>\n{\"arguments\":"@ + calls[k].arguments + ",\"name\":"@ + quoted(
        calls[k].name,
    ) + "}\n</tool_call>"@;
    let at = lemma_call_stands(calls, k);
    lemma_stands_within(a + front, chatml_calls(calls), b, own, at);
    assert(chatml_prompt(messages, listing) =~= (a + front) + chatml_calls(calls) + b);
}

proof fn lemma_call_stands(calls: Seq<CallView>, k: int) -> (at: int)
    requires
        0 <= k < calls.len(),
    ensures
        occurs_at(
            chatml_calls(calls),
            "<tool_call>\n{\"arguments\":"@ + calls[k].arguments + ",\"name\":"@ + quoted(
                calls[k].name,
            ) + "}\n</tool_call>"@,
            at,
        ),
    decreases calls.len(),
{
    let front = calls.drop_last();
    let last = calls.last();
    assert(front.push(last) =~= calls);
    law_chatml_shows_each_call(front, last);
    let none = Seq::<char>::empty();
    let shown = "<tool_call>\n{\"arguments\":"@ + last.arguments + ",\"name\":"@ + quoted(last.name)
        + "}\n</tool_call>"@;
    assert(chatml_calls(calls) =~= chatml_calls(front) + shown + none);
    if k == calls.len() - 1 {
        lemma_stands_between(chatml_calls(front), shown, none);
        chatml_calls(front).len() as int
    } else {
        let at = lemma_call_stands(front, k);
        let own = "<tool_call>\n{\"arguments\":"@ + calls[k].arguments + ",\"name\":"@ + quoted(
            calls[k].name,
        ) + "}\n</tool_call>"@;
        assert(front[k] == calls[k]);
        assert(chatml_calls(calls) =~= none + chatml_calls(front) + shown);
        lemma_stands_within(none, chatml_calls(front), shown, own, at);
        at
    }
}

/// Without tools and without a system message, a prompt is the messages and the open
/// answer. The first system message, wherever it stands, comes before all others.
pub proof fn law_chatml_prompt_begins_with_system(
    before: Seq<MessageView>,
    system: MessageView,
    after: Seq<MessageView>,
)
    requires
        system.role == "system"@,
        forall|i: int| 0 <= i < before.len() ==> (#[trigger] before[i]).role != "system"@,
    ensures
        chatml_prompt(before, None) == chatml_messages(before) + "<|im_start|>assistant\n"@,
        chatml_prompt(before + seq![system] + after, None) == "<|im_start|>system\n"@
            + system.content + "<|im_end|>\n"@ + chatml_messages(before) + chatml_messages(after)
            + "<|im_start|>assistant\n"@,
{
    lemma_no_system(before);
    lemma_first_system(before, system, after);
    law_chatml_keeps_each_message(before, system, after);
    assert(chatml_prompt(before, None) =~= chatml_messages(before) + "<|im_start|>assistant\n"@);
    assert(chatml_prompt(before + seq![system] + after, None) =~= "<|im_start|>system\n"@
        + system.content + "<|im_end|>\n"@ + chatml_messages(before) + chatml_messages(after)
        + "<|im_start|>assistant\n"@);
}

/// With tools, a prompt begins with the system message, where there is one, then
/// lists the functions on offer between tags, and goes on with the messages.
pub proof fn law_chatml_prompt_lists_tools(messages: Seq<MessageView>, listing: Seq<char>)
    ensures
        ({
            let prompt = chatml_prompt(messages, Some(listing));
            let own = match system_content(messages) {
                Some(s) => s + "\n\n"@,
                None => Seq::empty(),
            };
            &&& starts_with(prompt, "<|im_start|>system\n"@ + own + "# Tools\n\n"@)
            &&& exists|at: int| #[trigger]
                occurs_at(prompt, "<tools>\n"@ + listing + "\n</tools>"@, at)
            &&& ends_with(
                prompt,
                "<|im_end|>\n"@ + chatml_messages(messages) + "<|im_start|>assistant\n"@,
            )
        }),
{
    let prompt = chatml_prompt(messages, Some(listing));
    let own = match system_content(messages) {
        Some(s) => s + "\n\n"@,
        None => Seq::empty(),
    };
    let l1 = "# Tools\n\nYou may call one or more functions to assist with the user query.\n\n"@;
    let l2 = "You are provided with function signatures within <tools></tools> XML tags:\n<tools>\n"@;
    let l3 =
        "\n</tools>\n\nFor each function call, return a json object with function name and arguments within <tool_call></tool_call> XML tags:\n<tool_call>\n{\"name\": \"function_name\", \"arguments\": {\"arg_name\": \"arg_value\"}}\n</tool_call>\nWhen no tool call is needed, respond directly with standard text.<|im_end|>\n"@;
    let open = "<|im_start|>assistant\n"@;
    reveal_strlit(
        "# Tools\n\nYou may call one or more functions to assist with the user query.\n\n",
    );
    reveal_strlit("# Tools\n\n");
    reveal_strlit(
        "You are provided with function signatures within <tools></tools> XML tags:\n<tools>\n",
    );
    reveal_strlit("<tools>\n");
    reveal_strlit("\n</tools>");
    reveal_strlit(
        "\n</tools>\n\nFor each function call, return a json object with function name and arguments within <tool_call></tool_call> XML tags:\n<tool_call>\n{\"name\": \"function_name\", \"arguments\": {\"arg_name\": \"arg_value\"}}\n</tool_call>\nWhen no tool call is needed, respond directly with standard text.<|im_end|>\n",
    );
    reveal_strlit("<|im_end|>\n");
    assert(prompt =~= "<|im_start|>system\n"@ + own + l1 + l2 + listing + l3 + chatml_messages(
        messages,
    ) + open);
    assert(l1.subrange(0, 9) =~= "# Tools\n\n"@);
    let head = "<|im_start|>system\n"@ + own;
    assert(prompt.subrange(0, head.len() as int + 9) =~= head + l1.subrange(0, 9));
    assert(l2.subrange(l2.len() - 8, l2.len() as int) =~= "<tools>\n"@);
    assert(l3.subrange(0, 9) =~= "\n</tools>"@);
    let a = head + l1 + l2.subrange(0, l2.len() - 8);
    let mid = "<tools>\n"@ + listing + "\n</tools>"@;
    let b = l3.subrange(9, l3.len() as int) + chatml_messages(messages) + open;
    assert(l2 =~= l2.subrange(0, l2.len() - 8) + "<tools>\n"@);
    assert(l3 =~= "\n</tools>"@ + l3.subrange(9, l3.len() as int));
    assert(prompt =~= a + mid + b);
    lemma_stands_between(a, mid, b);
    let tail = "<|im_end|>\n"@ + chatml_messages(messages) + open;
    assert(l3.subrange(l3.len() - 11, l3.len() as int) =~= "<|im_end|>\n"@);
    assert(prompt.subrange(prompt.len() - tail.len(), prompt.len() as int) =~= tail);
}

// ---------------------------------------------------------------------------
// Harmony

/// The calls of an assistant are shown one after the other, each with its name and
/// its arguments.
pub proof fn law_harmony_shows_each_call(calls: Seq<CallView>, call: CallView)
    ensures
        harmony_calls(Seq::empty()) == Seq::<char>::empty(),
        harmony_calls(calls.push(call)) == harmony_calls(calls)
            + "<|start|>assistant to=functions."@ + call.name
            + "<|channel|>commentary<|message|>"@ + call.arguments + "<|call|>\n"@,
{
    assert(calls.push(call).drop_last() =~= calls);
}

/// A message that the system did not write stands in its place among the others:
/// one of the assistant as its calls and its text, where it has any, and any other
/// with its role and its text. One that the system wrote does not stand among them.
pub proof fn law_harmony_keeps_each_message(
    before: Seq<MessageView>,
    m: MessageView,
    after: Seq<MessageView>,
)
    ensures
        harmony_messages(Seq::empty()) == Seq::<char>::empty(),
        ({
            let all = harmony_messages(before + seq![m] + after);
            let a = harmony_messages(before);
            let b = harmony_messages(after);
            let calls = match m.calls {
                Some(calls) => harmony_calls(calls),
                None => Seq::empty(),
            };
            &&& m.role == "system"@ ==> all == a + b
            &&& m.role == "assistant"@ && m.content.len() == 0 ==> all == a + calls + b
            &&& m.role == "assistant"@ && m.content.len() > 0 ==> all == a + calls
                + "<|start|>assistant<|message|>"@ + m.content + "<|return|>\n"@ + b
            &&& m.role != "system"@ && m.role != "assistant"@ ==> all == a + "<|start|>"@ + m.role
                + "<|message|>"@ + m.content + "<|end|>\n"@ + b
        }),
{
    let one = seq![m];
    law_messages_keep_order(before + one, after);
    law_messages_keep_order(before, one);
    let none = Seq::<MessageView>::empty();
    assert(one.drop_last() =~= none);
    assert(harmony_messages(none) =~= Seq::<char>::empty());
    assert(harmony_messages(one) =~= harmony_message(m));
    let all = harmony_messages(before + seq![m] + after);
    let a = harmony_messages(before);
    let b = harmony_messages(after);
    let calls = match m.calls {
        Some(calls) => harmony_calls(calls),
        None => Seq::empty(),
    };
    reveal_strlit("system");
    reveal_strlit("assistant");
    assert("system"@.len() != "assistant"@.len());
    if m.role == "system"@ {
        assert(all =~= a + b);
    } else if m.role == "assistant"@ {
        if m.content.len() == 0 {
            assert(all =~= a + calls + b);
        } else {
            assert(all =~= a + calls + "<|start|>assistant<|message|>"@ + m.content
                + "<|return|>\n"@ + b);
        }
    } else {
        assert(all =~= a + "<|start|>"@ + m.role + "<|message|>"@ + m.content + "<|end|>\n"@ + b);
    }
}

/// Each message that the system did not write stands in the prompt: one that has text
/// with its role and its text.
pub proof fn law_harmony_prompt_holds_each_message(
    messages: Seq<MessageView>,
    listing: Option<Seq<char>>,
    i: int,
)
    requires
        0 <= i < messages.len(),
        messages[i].role != "system"@,
        messages[i].role != "assistant"@ || messages[i].content.len() > 0,
    ensures
        exists|at: int| #[trigger]
            occurs_at(
                harmony_prompt(messages, listing),
                "<|start|>"@ + messages[i].role + "<|message|>"@ + messages[i].content,
                at,
            ),
{
    let before = messages.take(i);
    let m = messages[i];
    let after = messages.skip(i + 1);
    law_harmony_keeps_each_message(before, m, after);
    assert(messages =~= before + seq![m] + after);
    let front = "<|start|>"@ + m.role + "<|message|>"@ + m.content;
    let system = harmony_system(system_content(messages), listing);
    let open = "<|start|>assistant"@;
    let b = harmony_messages(after);
    assert(harmony_prompt(messages, listing) == system + harmony_messages(messages) + open);
    if m.role == "assistant"@ {
        let calls = match m.calls {
            Some(calls) => harmony_calls(calls),
            None => Seq::empty(),
        };
        reveal_strlit("<|start|>assistant<|message|>");
        reveal_strlit("<|start|>");
        reveal_strlit("assistant");
        reveal_strlit("<|message|>");
        assert("<|start|>assistant<|message|>"@ =~= "<|start|>"@ + m.role + "<|message|>"@);
        let a = harmony_messages(before) + calls;
        let end = "<|return|>\n"@;
        assert(harmony_messages(messages) =~= a + (front + Seq::empty() + end) + b);
        lemma_regroup(system, a, front, Seq::empty(), end, b, open);
        lemma_stands_between(system + a, front, Seq::empty() + (end + b + open));
    } else {
        let a = harmony_messages(before);
        let end = "<|end|>\n"@;
        assert(harmony_messages(messages) =~= a + (front + Seq::empty() + end) + b);
        lemma_regroup(system, a, front, Seq::empty(), end, b, open);
        lemma_stands_between(system + a, front, Seq::empty() + (end + b + open));
    }
}

/// Without tools and without a system message, a prompt is the messages and the open
/// answer. The first system message, wherever it stands, comes before all others.
pub proof fn law_harmony_prompt_begins_with_system(
    before: Seq<MessageView>,
    system: MessageView,
    after: Seq<MessageView>,
)
    requires
        system.role == "system"@,
        forall|i: int| 0 <= i < before.len() ==> (#[trigger] before[i]).role != "system"@,
    ensures
        harmony_prompt(before, None) == harmony_messages(before) + "<|start|>assistant"@,
        harmony_prompt(before + seq![system] + after, None) == "<|start|>system<|message|>"@
            + system.content + "<|end|>\n"@ + harmony_messages(before) + harmony_messages(after)
            + "<|start|>assistant"@,
{
    lemma_no_system(before);
    lemma_first_system(before, system, after);
    law_harmony_keeps_each_message(before, system, after);
    assert(harmony_prompt(before, None) =~= harmony_messages(before) + "<|start|>assistant"@);
    assert(harmony_prompt(before + seq![system] + after, None) =~= "<|start|>system<|message|>"@
        + system.content + "<|end|>\n"@ + harmony_messages(before) + harmony_messages(after)
        + "<|start|>assistant"@);
}

/// With tools, a prompt begins with the system message, or else with a plain one,
/// then lists the tools on offer, and goes on with the messages.
pub proof fn law_harmony_prompt_lists_tools(messages: Seq<MessageView>, listing: Seq<char>)
    ensures
        ({
            let prompt = harmony_prompt(messages, Some(listing));
            let own = match system_content(messages) {
                Some(s) => s,
                None => "You are a helpful assistant."@,
            };
            &&& starts_with(prompt, "<|start|>system<|message|>"@ + own)
            &&& exists|at: int| #[trigger]
                occurs_at(prompt, "```json\n"@ + listing + "\n```"@, at)
            &&& ends_with(
                prompt,
                "<|end|>\n"@ + harmony_messages(messages) + "<|start|>assistant"@,
            )
        }),
{
    let prompt = harmony_prompt(messages, Some(listing));
    let own = match system_content(messages) {
        Some(s) => s,
        None => "You are a helpful assistant."@,
    };
    let l1 = "\n\nYou have access to the following functions:\n```json\n"@;
    let l2 =
        "\n```\n\nTo call a function, respond strictly in this format:\nto=functions.<function_name><|channel|>commentary<|message|>{\"arg_name\": \"arg_value\"}<|call|>\nWhen no function call is needed, respond with standard text.<|end|>\n"@;
    let open = "<|start|>assistant"@;
    reveal_strlit("\n\nYou have access to the following functions:\n```json\n");
    reveal_strlit(
        "\n```\n\nTo call a function, respond strictly in this format:\nto=functions.<function_name><|channel|>commentary<|message|>{\"arg_name\": \"arg_value\"}<|call|>\nWhen no function call is needed, respond with standard text.<|end|>\n",
    );
    reveal_strlit("```json\n");
    reveal_strlit("\n```");
    reveal_strlit("<|end|>\n");
    let head = "<|start|>system<|message|>"@ + own;
    assert(prompt =~= head + l1 + listing + l2 + harmony_messages(messages) + open);
    assert(prompt.subrange(0, head.len() as int) =~= head);
    let cut1 = l1.subrange(0, l1.len() - 8);
    let cut2 = l2.subrange(4, l2.len() as int);
    assert(l1 =~= cut1 + "```json\n"@);
    assert(l2 =~= "\n```"@ + cut2);
    let mid = "```json\n"@ + listing + "\n```"@;
    assert(prompt =~= (head + cut1) + mid + (cut2 + harmony_messages(messages) + open));
    lemma_stands_between(head + cut1, mid, cut2 + harmony_messages(messages) + open);
    let tail = "<|end|>\n"@ + harmony_messages(messages) + open;
    assert(l2.subrange(l2.len() - 8, l2.len() as int) =~= "<|end|>\n"@);
    assert(prompt.subrange(prompt.len() - tail.len(), prompt.len() as int) =~= tail);
}

// ---------------------------------------------------------------------------
// The choice of the format, and of what is listed

/// The models of the architectures `gptoss`, `gpt-oss` and `openai_moe` read the
/// Harmony format, and no others.
pub proof fn law_harmony_is_for_gpt_oss(lowered: Seq<char>)
    ensures
        reads_harmony(lowered) <==> lowered == "gptoss"@ || lowered == "gpt-oss"@ || lowered
            == "openai_moe"@,
{
}

/// A text in small letters: each ASCII capital letter is 32 places further on, and
/// any other ASCII character is as it was.
pub proof fn law_small_letters(s: Seq<char>)
    requires
        forall|i: int| 0 <= i < s.len() ==> ((#[trigger] s[i]) as int) < 0x80,
    ensures
        in_small_letters(s).len() == s.len(),
        forall|i: int|
            0 <= i < s.len() ==> (#[trigger] in_small_letters(s)[i]) as int == (if 'A' <= s[i]
                <= 'Z' {
                s[i] as int + 32
            } else {
                s[i] as int
            }),
{
    assert(is_ascii_text(s));
}

/// Only the items of a JSON array that is not empty are listed as tools: in a ChatML
/// prompt the function of each, where it has one under that key, or else the item
/// itself, and in a Harmony prompt each item itself.
pub proof fn law_each_tool_is_listed(text: Seq<char>, n: nat, own: Seq<char>)
    requires
        json_node(text, Seq::empty()) == Some(NodeView { text: own, shape: Shape::Array(n) }),
        n > 0,
    ensures
        exists|places: Seq<Seq<char>>|
            functions_listing(Some(text)) == Some(#[trigger] json_pretty_list(text, places))
                && places.len() == n && forall|i: int|
                0 <= i < n ==> #[trigger] places[i] == (if json_node(
                    text,
                    seq!['/'] + decimal(i as nat) + "/function"@,
                ) is Some {
                    seq!['/'] + decimal(i as nat) + "/function"@
                } else {
                    seq!['/'] + decimal(i as nat)
                }),
        exists|places: Seq<Seq<char>>|
            tools_listing(Some(text)) == Some(#[trigger] json_pretty_list(text, places))
                && places.len() == n && forall|i: int|
                0 <= i < n ==> #[trigger] places[i] == seq!['/'] + decimal(i as nat),
{
    let a = Seq::new(n, |i: int| function_pointer(text, i as nat));
    let b = Seq::new(n, |i: int| item_pointer(i as nat));
    assert(functions_listing(Some(text)) == Some(json_pretty_list(text, a)));
    assert(tools_listing(Some(text)) == Some(json_pretty_list(text, b)));
}

/// What is no JSON array, or an empty one, lists no tools.
pub proof fn law_no_tools_are_listed(text: Seq<char>)
    requires
        !(json_node(text, Seq::empty()) matches Some(node) && node.shape matches Shape::Array(n) && n
            > 0),
    ensures
        functions_listing(Some(text)) is None,
        tools_listing(Some(text)) is None,
        functions_listing(None) is None,
        tools_listing(None) is None,
{
}

/// Models of the architectures `gptoss`, `gpt-oss` and `openai_moe`, in whatever case
/// they are written, get a prompt in the Harmony format, and all others one in ChatML.
pub proof fn law_format_follows_architecture(
    messages: Seq<MessageView>,
    tools: Option<Seq<char>>,
    arch: Seq<char>,
    lowered: Seq<char>,
)
    requires
        arch.len() == lowered.len(),
        forall|i: int|
            0 <= i < arch.len() ==> ((#[trigger] arch[i]) as int) < 0x80 && lowered[i] as int == (
            if 'A' <= arch[i] <= 'Z' {
                arch[i] as int + 32
            } else {
                arch[i] as int
            }),
    ensures
        lowered == "gptoss"@ || lowered == "gpt-oss"@ || lowered == "openai_moe"@ ==> chat_prompt(
            messages,
            tools,
            Some(arch),
        ) == harmony_prompt(messages, tools_listing(tools)),
        lowered != "gptoss"@ && lowered != "gpt-oss"@ && lowered != "openai_moe"@ ==> chat_prompt(
            messages,
            tools,
            Some(arch),
        ) == chatml_prompt(messages, functions_listing(tools)),
        chat_prompt(messages, tools, None) == chatml_prompt(messages, functions_listing(tools)),
{
    law_small_letters(arch);
    let own = in_small_letters(arch);
    assert forall|i: int| 0 <= i < own.len() implies own[i] == lowered[i] by {
        assert((arch[i] as int) < 0x80);
        assert(own[i] as int == lowered[i] as int);
    }
    assert(own =~= lowered);
}

/// With tools, a ChatML prompt tells how to call them.
pub proof fn law_chatml_prompt_tells_how_to_call(messages: Seq<MessageView>, listing: Seq<char>)
    ensures
        ({
            let own = match system_content(messages) {
                Some(s) => s + "\n\n"@,
                None => Seq::empty(),
            };
            chatml_prompt(messages, Some(listing)) == "<|im_start|>system\n"@ + own
                + "# Tools\n\nYou may call one or more functions to assist with the user query.\n\n"@
                + "You are provided with function signatures within <tools></tools> XML tags:\n<tools>\n"@
                + listing
                + "\n</tools>\n\nFor each function call, return a json object with function name and arguments within <tool_call></tool_call> XML tags:\n<tool_call>\n{\"name\": \"function_name\", \"arguments\": {\"arg_name\": \"arg_value\"}}\n</tool_call>\nWhen no tool call is needed, respond directly with standard text.<|im_end|>\n"@
                + chatml_messages(messages) + "<|im_start|>assistant\n"@
        }),
{
}

/// With tools, a Harmony prompt tells how to call them.
pub proof fn law_harmony_prompt_tells_how_to_call(messages: Seq<MessageView>, listing: Seq<char>)
    ensures
        ({
            let own = match system_content(messages) {
                Some(s) => s,
                None => "You are a helpful assistant."@,
            };
            harmony_prompt(messages, Some(listing)) == "<|start|>system<|message|>"@ + own
                + "\n\nYou have access to the following functions:\n```json\n"@ + listing
                + "\n```\n\nTo call a function, respond strictly in this format:\nto=functions.<function_name><|channel|>commentary<|message|>{\"arg_name\": \"arg_value\"}<|call|>\nWhen no function call is needed, respond with standard text.<|end|>\n"@
                + harmony_messages(messages) + "<|start|>assistant"@
        }),
{
}

} // verus!
