//! Prompts: a chat and the tools on offer, written the way a model expects them.

use vstd::prelude::*;

use crate::call_syntax::read_whole;
use crate::call_syntax::whole;
use crate::json::entries_view;
use crate::json::item_pointer;
use crate::json::json_at;
use crate::json::json_node;
use crate::json::json_pretty_list;
use crate::json::object_text;
use crate::json::pretty_list;
use crate::json::push_item;
use crate::json::quote;
use crate::json::quoted;
use crate::json::texts;
use crate::json::write_object;
use crate::json::JsonKind;
use crate::json::Shape;
use crate::ollama_types::functions_view;
use crate::ollama_types::messages_view;
use crate::ollama_types::CallView;
use crate::ollama_types::ChatMessage;
use crate::ollama_types::FunctionCall;
use crate::ollama_types::MessageView;
use crate::ollama_types::ToolCall;
use crate::text::ascii_lowered;
use crate::text::chars_of;
use crate::text::copy_str;
use crate::text::ends_with;
use crate::text::is_ascii_text;
use crate::text::lowered_ascii;
use crate::text::push_all;
use crate::text::same_text;
use crate::text::starts_with;
use crate::text::string_of;

verus! {

// ---------------------------------------------------------------------------
// Messages

/// The content of the first system message.
pub open spec fn system_content(messages: Seq<MessageView>) -> Option<Seq<char>>
    decreases messages.len(),
{
    if messages.len() == 0 {
        None
    } else if messages[0].role == "system"@ {
        Some(messages[0].content)
    } else {
        system_content(messages.skip(1))
    }
}

/// The content of the first system message.
fn find_system(messages: &[ChatMessage]) -> (r: Option<&str>)
    ensures
        match r {
            Some(s) => system_content(messages_view(messages@)) == Some(s@),
            None => system_content(messages_view(messages@)) is None,
        },
{
    let ghost all = messages_view(messages@);
    let mut i: usize = 0;
    proof {
        assert(all.skip(0) =~= all);
    }
    while i < messages.len()
        invariant
            all == messages_view(messages@),
            i <= messages@.len(),
            system_content(all) == system_content(all.skip(i as int)),
        decreases messages@.len() - i,
    {
        proof {
            assert(all.skip(i as int)[0] == messages@[i as int]@);
            assert(all.skip(i as int).skip(1) =~= all.skip(i + 1));
        }
        if same_text(messages[i].role.as_str(), "system") {
            return Some(messages[i].content.as_str());
        }
        i = i + 1;
    }
    None
}

// ---------------------------------------------------------------------------
// Tools

/// The number of tools on offer: the items of a JSON array that is not empty.
pub open spec fn tool_count(tools: Option<Seq<char>>) -> nat {
    match tools {
        Some(text) => match whole(text) {
            Some(n) => match n.shape {
                Shape::Array(k) => k,
                _ => 0,
            },
            None => 0,
        },
        None => 0,
    }
}

/// The pointer to the function of a tool: its member `function`, or else the tool
/// itself.
pub open spec fn function_pointer(text: Seq<char>, i: nat) -> Seq<char> {
    let inner = item_pointer(i) + "/function"@;
    if json_node(text, inner) is Some {
        inner
    } else {
        item_pointer(i)
    }
}

/// The functions of the tools, as indented JSON.
pub open spec fn functions_text(text: Seq<char>, n: nat) -> Seq<char> {
    json_pretty_list(text, Seq::new(n, |i: int| function_pointer(text, i as nat)))
}

/// The tools themselves, as indented JSON.
pub open spec fn tools_text(text: Seq<char>, n: nat) -> Seq<char> {
    json_pretty_list(text, Seq::new(n, |i: int| item_pointer(i as nat)))
}

/// What a ChatML prompt lists of the tools on offer: their functions.
pub open spec fn functions_listing(tools: Option<Seq<char>>) -> Option<Seq<char>> {
    let n = tool_count(tools);
    if n > 0 {
        Some(functions_text(tools->0, n))
    } else {
        None
    }
}

/// What a Harmony prompt lists of the tools on offer: the tools themselves.
pub open spec fn tools_listing(tools: Option<Seq<char>>) -> Option<Seq<char>> {
    let n = tool_count(tools);
    if n > 0 {
        Some(tools_text(tools->0, n))
    } else {
        None
    }
}

/// The text of an optional string.
pub open spec fn text_of(s: Option<&str>) -> Option<Seq<char>> {
    match s {
        Some(t) => Some(t@),
        None => None,
    }
}

/// Counts the tools on offer.
fn count_tools(tools: Option<&str>) -> (r: usize)
    ensures
        r == tool_count(text_of(tools)),
{
    match tools {
        Some(text) => match read_whole(text) {
            Some(node) => match node.kind {
                JsonKind::Array(n) => n,
                _ => 0,
            },
            None => 0,
        },
        None => 0,
    }
}

/// Writes the tools, or their functions alone, as indented JSON.
fn write_tools(text: &str, n: usize, functions: bool) -> (r: String)
    ensures
        functions ==> r@ == functions_text(text@, n as nat),
        !functions ==> r@ == tools_text(text@, n as nat),
{
    let mut pointers: Vec<String> = Vec::new();
    let ghost wanted = |i: int|
        if functions {
            function_pointer(text@, i as nat)
        } else {
            item_pointer(i as nat)
        };
    let mut i: usize = 0;
    while i < n
        invariant
            i <= n,
            pointers@.len() == i,
            forall|k: int| 0 <= k < i ==> #[trigger] pointers@[k]@ == wanted(k),
            wanted == (|k: int|
                if functions {
                    function_pointer(text@, k as nat)
                } else {
                    item_pointer(k as nat)
                }),
        decreases n - i,
    {
        let mut place: Vec<char> = Vec::new();
        push_item(&mut place, i);
        proof {
            assert(place@ =~= item_pointer(i as nat));
        }
        let outer = string_of(place.as_slice());
        let member = chars_of("/function");
        push_all(&mut place, member.as_slice());
        let inner = string_of(place.as_slice());
        let chosen = if functions && json_at(text, inner.as_str()).is_some() {
            inner
        } else {
            outer
        };
        proof {
            assert(chosen@ == wanted(i as int));
        }
        pointers.push(chosen);
        i = i + 1;
    }
    proof {
        if functions {
            assert(texts(pointers@) =~= Seq::new(
                n as nat,
                |k: int| function_pointer(text@, k as nat),
            ));
        } else {
            assert(texts(pointers@) =~= Seq::new(n as nat, |k: int| item_pointer(k as nat)));
        }
    }
    pretty_list(text, &pointers)
}

/// Lists the tools on offer, or their functions alone; none where there are none.
fn list_tools(tools: Option<&str>, functions: bool) -> (r: Option<String>)
    ensures
        ({
            let wanted = if functions {
                functions_listing(text_of(tools))
            } else {
                tools_listing(text_of(tools))
            };
            match r {
                Some(s) => wanted == Some(s@),
                None => wanted is None,
            }
        }),
{
    let n: usize = count_tools(tools);
    match tools {
        Some(text) if n > 0 => Some(write_tools(text, n, functions)),
        _ => None,
    }
}

// ---------------------------------------------------------------------------
// ChatML

/// A call as a JSON object, with the members in the order of their keys.
pub open spec fn call_object(call: CallView) -> Seq<char> {
    object_text(seq![("arguments"@, call.arguments), ("name"@, quoted(call.name))])
}

/// The calls of an assistant's message.
pub open spec fn chatml_calls(calls: Seq<CallView>) -> Seq<char>
    decreases calls.len(),
{
    if calls.len() == 0 {
        Seq::empty()
    } else {
        chatml_calls(calls.drop_last()) + "<tool_call>\n"@ + call_object(calls.last())
            + "\n</tool_call>"@
    }
}

/// One message; system messages stand at the beginning of the prompt instead.
pub open spec fn chatml_message(m: MessageView) -> Seq<char> {
    if m.role == "system"@ {
        Seq::empty()
    } else {
        let calls = match m.calls {
            Some(calls) => chatml_calls(calls),
            None => Seq::empty(),
        };
        "<|im_start|>"@ + m.role + "\n"@ + m.content + calls + "<|im_end|>\n"@
    }
}

/// All messages.
pub open spec fn chatml_messages(messages: Seq<MessageView>) -> Seq<char>
    decreases messages.len(),
{
    if messages.len() == 0 {
        Seq::empty()
    } else {
        chatml_messages(messages.drop_last()) + chatml_message(messages.last())
    }
}

/// What stands before the messages: the system message, and how to call the
/// functions listed.
pub open spec fn chatml_system(system: Option<Seq<char>>, listing: Option<Seq<char>>) -> Seq<char> {
    if listing is Some {
        let own = match system {
            Some(s) => s + "\n\n"@,
            None => Seq::empty(),
        };
        "<|im_start|>system\n"@ + own
            + "# Tools\n\nYou may call one or more functions to assist with the user query.\n\n"@
            + "You are provided with function signatures within <tools></tools> XML tags:\n<tools>\n"@
            + listing->0
            + "\n</tools>\n\nFor each function call, return a json object with function name and arguments within <tool_call></tool_call> XML tags:\n<tool_call>\n{\"name\": \"function_name\", \"arguments\": {\"arg_name\": \"arg_value\"}}\n</tool_call>\nWhen no tool call is needed, respond directly with standard text.<|im_end|>\n"@
    } else {
        match system {
            Some(s) => "<|im_start|>system\n"@ + s + "<|im_end|>\n"@,
            None => Seq::empty(),
        }
    }
}

/// The prompt in ChatML, open for the assistant's answer.
pub open spec fn chatml_prompt(messages: Seq<MessageView>, listing: Option<Seq<char>>) -> Seq<char> {
    chatml_system(system_content(messages), listing) + chatml_messages(messages)
        + "<|im_start|>assistant\n"@
}

/// Writes a call as a JSON object.
fn write_call(call: &FunctionCall) -> (r: String)
    ensures
        r@ == call_object(call@),
{
    let entries: Vec<(&str, String)> = vec![
        ("arguments", copy_str(call.arguments.text())),
        ("name", quote(call.name.as_str())),
    ];
    proof {
        assert(entries_view(entries@) =~= seq![
            ("arguments"@, call@.arguments),
            ("name"@, quoted(call@.name)),
        ]);
    }
    write_object(&entries)
}

/// Appends the calls of an assistant's message.
fn push_chatml_calls(out: &mut String, calls: &Vec<ToolCall>)
    ensures
        final(out)@ == old(out)@ + chatml_calls(functions_view(calls@)),
{
    let ghost start = out@;
    let ghost all = functions_view(calls@);
    let mut i: usize = 0;
    proof {
        assert(all.take(0) =~= Seq::<CallView>::empty());
        assert(start + chatml_calls(all.take(0)) =~= start);
    }
    while i < calls.len()
        invariant
            all == functions_view(calls@),
            i <= calls@.len(),
            out@ == start + chatml_calls(all.take(i as int)),
        decreases calls@.len() - i,
    {
        out.append("<tool_call>\n");
        let object = write_call(&calls[i].function);
        out.append(object.as_str());
        out.append("\n</tool_call>");
        proof {
            assert(all.take(i + 1).drop_last() =~= all.take(i as int));
            assert(all.take(i + 1).last() == calls@[i as int].function@);
            assert(out@ =~= start + chatml_calls(all.take(i + 1)));
        }
        i = i + 1;
    }
    proof {
        assert(all.take(all.len() as int) =~= all);
    }
}

/// Writes the prompt in ChatML, with the functions on offer as they are listed.
pub fn format_chatml_prompt(messages: &[ChatMessage], listing: Option<&str>) -> (r: String)
    ensures
        r@ == chatml_prompt(messages_view(messages@), text_of(listing)),
{
    let ghost all = messages_view(messages@);
    let system = find_system(messages);
    let mut prompt = String::new();
    match listing {
        Some(listed) => {
            prompt.append("<|im_start|>system\n");
            if let Some(s) = system {
                prompt.append(s);
                prompt.append("\n\n");
            }
            prompt.append(
                "# Tools\n\nYou may call one or more functions to assist with the user query.\n\n",
            );
            prompt.append(
                "You are provided with function signatures within <tools></tools> XML tags:\n<tools>\n",
            );
            prompt.append(listed);
            prompt.append(
                "\n</tools>\n\nFor each function call, return a json object with function name and arguments within <tool_call></tool_call> XML tags:\n<tool_call>\n{\"name\": \"function_name\", \"arguments\": {\"arg_name\": \"arg_value\"}}\n</tool_call>\nWhen no tool call is needed, respond directly with standard text.<|im_end|>\n",
            );
        },
        None => {
            if let Some(s) = system {
                prompt.append("<|im_start|>system\n");
                prompt.append(s);
                prompt.append("<|im_end|>\n");
            }
        },
    }
    let ghost head = chatml_system(system_content(all), text_of(listing));
    proof {
        assert(prompt@ =~= head);
        assert(all.take(0) =~= Seq::<MessageView>::empty());
        assert(head + chatml_messages(all.take(0)) =~= head);
    }
    let mut i: usize = 0;
    while i < messages.len()
        invariant
            all == messages_view(messages@),
            i <= messages@.len(),
            prompt@ == head + chatml_messages(all.take(i as int)),
        decreases messages@.len() - i,
    {
        let m = &messages[i];
        let ghost done = chatml_messages(all.take(i as int));
        proof {
            assert(all.take(i + 1).drop_last() =~= all.take(i as int));
            assert(all.take(i + 1).last() == m@);
        }
        if !same_text(m.role.as_str(), "system") {
            prompt.append("<|im_start|>");
            prompt.append(m.role.as_str());
            prompt.append("\n");
            prompt.append(m.content.as_str());
            if let Some(calls) = &m.tool_calls {
                push_chatml_calls(&mut prompt, calls);
            }
            prompt.append("<|im_end|>\n");
        }
        proof {
            assert(prompt@ =~= head + (done + chatml_message(m@)));
        }
        i = i + 1;
    }
    proof {
        assert(all.take(all.len() as int) =~= all);
    }
    prompt.append("<|im_start|>assistant\n");
    prompt
}

// ---------------------------------------------------------------------------
// Harmony

/// The calls of an assistant's message.
pub open spec fn harmony_calls(calls: Seq<CallView>) -> Seq<char>
    decreases calls.len(),
{
    if calls.len() == 0 {
        Seq::empty()
    } else {
        harmony_calls(calls.drop_last()) + "<|start|>assistant to=functions."@ + calls.last().name
            + "<|channel|>commentary<|message|>"@ + calls.last().arguments + "<|call|>\n"@
    }
}

/// One message; system messages stand at the beginning of the prompt instead.
pub open spec fn harmony_message(m: MessageView) -> Seq<char> {
    if m.role == "system"@ {
        Seq::empty()
    } else if m.role == "assistant"@ {
        let calls = match m.calls {
            Some(calls) => harmony_calls(calls),
            None => Seq::empty(),
        };
        if m.content.len() == 0 {
            calls
        } else {
            calls + "<|start|>assistant<|message|>"@ + m.content + "<|return|>\n"@
        }
    } else {
        "<|start|>"@ + m.role + "<|message|>"@ + m.content + "<|end|>\n"@
    }
}

/// All messages.
pub open spec fn harmony_messages(messages: Seq<MessageView>) -> Seq<char>
    decreases messages.len(),
{
    if messages.len() == 0 {
        Seq::empty()
    } else {
        harmony_messages(messages.drop_last()) + harmony_message(messages.last())
    }
}

/// What stands before the messages: the system message, and how to call the
/// tools listed.
pub open spec fn harmony_system(system: Option<Seq<char>>, listing: Option<Seq<char>>) -> Seq<char> {
    if listing is Some {
        let own = match system {
            Some(s) => s,
            None => "You are a helpful assistant."@,
        };
        "<|start|>system<|message|>"@ + own
            + "\n\nYou have access to the following functions:\n```json\n"@
            + listing->0
            + "\n```\n\nTo call a function, respond strictly in this format:\nto=functions.<function_name><|channel|>commentary<|message|>{\"arg_name\": \"arg_value\"}<|call|>\nWhen no function call is needed, respond with standard text.<|end|>\n"@
    } else {
        match system {
            Some(s) => "<|start|>system<|message|>"@ + s + "<|end|>\n"@,
            None => Seq::empty(),
        }
    }
}

/// The prompt in the Harmony format, open for the assistant's answer.
pub open spec fn harmony_prompt(messages: Seq<MessageView>, listing: Option<Seq<char>>) -> Seq<char> {
    harmony_system(system_content(messages), listing) + harmony_messages(messages)
        + "<|start|>assistant"@
}

/// Appends the calls of an assistant's message.
fn push_harmony_calls(out: &mut String, calls: &Vec<ToolCall>)
    ensures
        final(out)@ == old(out)@ + harmony_calls(functions_view(calls@)),
{
    let ghost start = out@;
    let ghost all = functions_view(calls@);
    let mut i: usize = 0;
    proof {
        assert(all.take(0) =~= Seq::<CallView>::empty());
        assert(start + harmony_calls(all.take(0)) =~= start);
    }
    while i < calls.len()
        invariant
            all == functions_view(calls@),
            i <= calls@.len(),
            out@ == start + harmony_calls(all.take(i as int)),
        decreases calls@.len() - i,
    {
        out.append("<|start|>assistant to=functions.");
        out.append(calls[i].function.name.as_str());
        out.append("<|channel|>commentary<|message|>");
        out.append(calls[i].function.arguments.text());
        out.append("<|call|>\n");
        proof {
            assert(all.take(i + 1).drop_last() =~= all.take(i as int));
            assert(all.take(i + 1).last() == calls@[i as int].function@);
            assert(out@ =~= start + harmony_calls(all.take(i + 1)));
        }
        i = i + 1;
    }
    proof {
        assert(all.take(all.len() as int) =~= all);
    }
}

/// Writes the prompt in the Harmony format of GPT-OSS models, with the tools on
/// offer as they are listed.
pub fn format_gptoss_chat_prompt(messages: &[ChatMessage], listing: Option<&str>) -> (r: String)
    ensures
        r@ == harmony_prompt(messages_view(messages@), text_of(listing)),
{
    let ghost all = messages_view(messages@);
    let system = find_system(messages);
    let mut prompt = String::new();
    match listing {
        Some(listed) => {
            prompt.append("<|start|>system<|message|>");
            match system {
                Some(s) => {
                    prompt.append(s);
                },
                None => {
                    prompt.append("You are a helpful assistant.");
                },
            }
            prompt.append("\n\nYou have access to the following functions:\n```json\n");
            prompt.append(listed);
            prompt.append(
                "\n```\n\nTo call a function, respond strictly in this format:\nto=functions.<function_name><|channel|>commentary<|message|>{\"arg_name\": \"arg_value\"}<|call|>\nWhen no function call is needed, respond with standard text.<|end|>\n",
            );
        },
        None => {
            if let Some(s) = system {
                prompt.append("<|start|>system<|message|>");
                prompt.append(s);
                prompt.append("<|end|>\n");
            }
        },
    }
    let ghost head = harmony_system(system_content(all), text_of(listing));
    proof {
        assert(prompt@ =~= head);
        assert(all.take(0) =~= Seq::<MessageView>::empty());
        assert(head + harmony_messages(all.take(0)) =~= head);
    }
    let mut i: usize = 0;
    while i < messages.len()
        invariant
            all == messages_view(messages@),
            i <= messages@.len(),
            prompt@ == head + harmony_messages(all.take(i as int)),
        decreases messages@.len() - i,
    {
        let m = &messages[i];
        let ghost done = harmony_messages(all.take(i as int));
        proof {
            assert(all.take(i + 1).drop_last() =~= all.take(i as int));
            assert(all.take(i + 1).last() == m@);
        }
        if same_text(m.role.as_str(), "system") {
        } else if same_text(m.role.as_str(), "assistant") {
            if let Some(calls) = &m.tool_calls {
                push_harmony_calls(&mut prompt, calls);
            }
            if !m.content.as_str().is_empty() {
                prompt.append("<|start|>assistant<|message|>");
                prompt.append(m.content.as_str());
                prompt.append("<|return|>\n");
            }
        } else {
            prompt.append("<|start|>");
            prompt.append(m.role.as_str());
            prompt.append("<|message|>");
            prompt.append(m.content.as_str());
            prompt.append("<|end|>\n");
        }
        proof {
            assert(prompt@ =~= head + (done + harmony_message(m@)));
        }
        i = i + 1;
    }
    proof {
        assert(all.take(all.len() as int) =~= all);
    }
    prompt.append("<|start|>assistant");
    prompt
}

// ---------------------------------------------------------------------------
// Choosing the format

/// `str::to_lowercase`, for texts with characters beyond ASCII.
pub uninterp spec fn lowercase(s: Seq<char>) -> Seq<char>;

/// Calls `str::to_lowercase`. Claimed: the text depends on the given text alone.
#[verifier::external_body]
fn to_lower(s: &str) -> (r: String)
    ensures
        r@ == lowercase(s@),
{
    s.to_lowercase()
}

/// A text in small letters.
pub open spec fn in_small_letters(s: Seq<char>) -> Seq<char> {
    if is_ascii_text(s) {
        ascii_lowered(s)
    } else {
        lowercase(s)
    }
}

/// Writes a text in small letters.
pub fn to_small_letters(s: &str) -> (r: String)
    ensures
        r@ == in_small_letters(s@),
{
    let chars = chars_of(s);
    match lowered_ascii(chars.as_slice()) {
        Some(small) => string_of(small.as_slice()),
        None => to_lower(s),
    }
}

/// An architecture, in small letters, whose models read the Harmony format.
pub open spec fn reads_harmony(lowered: Seq<char>) -> bool {
    lowered == "gptoss"@ || lowered == "gpt-oss"@ || lowered == "openai_moe"@
}

/// Whether the models of an architecture, given in small letters, read the
/// Harmony format.
pub fn is_gpt_oss(lowered: &str) -> (r: bool)
    ensures
        r == reads_harmony(lowered@),
{
    same_text(lowered, "gptoss") || same_text(lowered, "gpt-oss") || same_text(
        lowered,
        "openai_moe",
    )
}

/// The prompt for a chat with the tools on offer, in the format that models of the
/// architecture read.
pub open spec fn chat_prompt(
    messages: Seq<MessageView>,
    tools: Option<Seq<char>>,
    arch: Option<Seq<char>>,
) -> Seq<char> {
    match arch {
        Some(a) if reads_harmony(in_small_letters(a)) => harmony_prompt(
            messages,
            tools_listing(tools),
        ),
        _ => chatml_prompt(messages, functions_listing(tools)),
    }
}

/// Writes a chat, and the tools on offer given as a JSON text, as a prompt in the
/// format that models of the architecture read: Harmony for GPT-OSS, and ChatML
/// for all others.
pub fn format_chat_prompt(
    messages: &[ChatMessage],
    tools: Option<&str>,
    arch: Option<&str>,
) -> (r: String)
    ensures
        if arch matches Some(a) && reads_harmony(in_small_letters(a@)) {
            r@ == harmony_prompt(messages_view(messages@), tools_listing(text_of(tools)))
        } else {
            r@ == chatml_prompt(messages_view(messages@), functions_listing(text_of(tools)))
        },
        r@ == chat_prompt(messages_view(messages@), text_of(tools), text_of(arch)),
{
    let harmony: bool = match arch {
        Some(a) => {
            let lowered = to_small_letters(a);
            is_gpt_oss(lowered.as_str())
        },
        None => false,
    };
    match (harmony, list_tools(tools, !harmony)) {
        (true, Some(listing)) => format_gptoss_chat_prompt(messages, Some(listing.as_str())),
        (true, None) => format_gptoss_chat_prompt(messages, None),
        (false, Some(listing)) => format_chatml_prompt(messages, Some(listing.as_str())),
        (false, None) => format_chatml_prompt(messages, None),
    }
}

// ---------------------------------------------------------------------------
// Laws of prompts

/// A prompt is open for the assistant's answer, in both formats.
pub proof fn law_prompt_is_open(messages: Seq<MessageView>, listing: Option<Seq<char>>)
    ensures
        ends_with(chatml_prompt(messages, listing), "<|im_start|>assistant\n"@),
        ends_with(harmony_prompt(messages, listing), "<|start|>assistant"@),
{
    let a = chatml_prompt(messages, listing);
    let b = harmony_prompt(messages, listing);
    let tail_a = "<|im_start|>assistant\n"@;
    let tail_b = "<|start|>assistant"@;
    assert(a.subrange(a.len() - tail_a.len(), a.len() as int) =~= tail_a);
    assert(b.subrange(b.len() - tail_b.len(), b.len() as int) =~= tail_b);
}

/// Messages stand in a prompt in the order of the chat: what is said later comes
/// after what is said before.
pub proof fn law_messages_keep_order(before: Seq<MessageView>, after: Seq<MessageView>)
    ensures
        chatml_messages(before + after) == chatml_messages(before) + chatml_messages(after),
        harmony_messages(before + after) == harmony_messages(before) + harmony_messages(after),
    decreases after.len(),
{
    let all = before + after;
    if after.len() == 0 {
        assert(all =~= before);
        assert(chatml_messages(before) + chatml_messages(after) =~= chatml_messages(before));
        assert(harmony_messages(before) + harmony_messages(after) =~= harmony_messages(before));
    } else {
        law_messages_keep_order(before, after.drop_last());
        assert(all.drop_last() =~= before + after.drop_last());
        assert(all.last() == after.last());
        assert(chatml_messages(all) =~= chatml_messages(before) + chatml_messages(after));
        assert(harmony_messages(all) =~= harmony_messages(before) + harmony_messages(after));
    }
}

/// The system message stands at the beginning of a prompt without tools, wherever
/// it stands in the chat.
pub proof fn law_system_message_comes_first(messages: Seq<MessageView>, system: Seq<char>)
    requires
        system_content(messages) == Some(system),
    ensures
        starts_with(
            chatml_prompt(messages, None),
            "<|im_start|>system\n"@ + system + "<|im_end|>\n"@,
        ),
        starts_with(
            harmony_prompt(messages, None),
            "<|start|>system<|message|>"@ + system + "<|end|>\n"@,
        ),
{
    let a = "<|im_start|>system\n"@ + system + "<|im_end|>\n"@;
    let b = "<|start|>system<|message|>"@ + system + "<|end|>\n"@;
    assert(chatml_prompt(messages, None).subrange(0, a.len() as int) =~= a);
    assert(harmony_prompt(messages, None).subrange(0, b.len() as int) =~= b);
}

} // verus!
