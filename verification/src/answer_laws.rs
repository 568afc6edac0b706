//! Laws of answers: what clients of the two interfaces are told.

use vstd::prelude::*;

use crate::json::escape;
use crate::json::escaped;
use crate::json::json_node;
use crate::json::object_text;
use crate::json::quoted;
use crate::json::texts;
use crate::json::NodeView;
use crate::json::Shape;
use crate::number::decimal;
use crate::number::parameter_size;
use crate::number_laws::law_bases;
use crate::ollama_types::CallView;
use crate::ollama_types::ChatMessage;
use crate::ollama_types::GenerateOptions;
use crate::ollama_types::GenerationStats;
use crate::ollama_types::SamplingParams;
use crate::ollama_types::ToolCall;
use crate::ollama_types::ToolCallView;
use crate::openai::completion_chunk;
use crate::openai::has_chat_options;
use crate::openai::has_completion_options;
use crate::openai::internal_call;
use crate::openai::is_internal;
use crate::openai::last_chunk;
use crate::openai::openai_call;
use crate::openai::openai_calls;
use crate::openai::openai_error;
use crate::openai::role_chunk;
use crate::openai::text_chunk;
use crate::openai::token_counts;
use crate::openai_types::OpenAICallView;
use crate::openai_types::OpenAIChatCompletionRequest;
use crate::openai_types::OpenAIChatMessage;
use crate::openai_types::OpenAICompletionRequest;
use crate::registry::tag_of;
use crate::registry::ModelView;
use crate::routes::end_part;
use crate::routes::follows_options;
use crate::routes::last_part;
use crate::routes::model_hint;
use crate::routes::text_part;
use crate::routes::token_part;
use crate::routes::unknown_message;
use crate::text_laws::spelled;

verus! {

// ---------------------------------------------------------------------------
// JSON texts

/// A character that a JSON string shows as it is.
pub open spec fn is_shown_as_is(c: char) -> bool {
    c >= ' ' && c != '"' && c != '\\'
}

proof fn lemma_escaped(s: Seq<char>)
    requires
        forall|i: int| 0 <= i < s.len() ==> is_shown_as_is(#[trigger] s[i]),
    ensures
        escaped(s) == s,
    decreases s.len(),
{
    if s.len() > 0 {
        let t = s.drop_last();
        assert forall|i: int| 0 <= i < t.len() implies is_shown_as_is(#[trigger] t[i]) by {
            assert(t[i] == s[i]);
        }
        lemma_escaped(t);
        assert(is_shown_as_is(s[s.len() - 1]));
        assert(t + seq![s.last()] =~= s);
    } else {
        assert(s =~= Seq::empty());
    }
}

/// A text without quotation marks, backslashes and control characters is a JSON string
/// as it is, between quotation marks.
pub proof fn law_plain_string(s: Seq<char>)
    requires
        forall|i: int| 0 <= i < s.len() ==> is_shown_as_is(#[trigger] s[i]),
    ensures
        quoted(s) == seq!['"'] + s + seq!['"'],
{
    lemma_escaped(s);
}

proof fn lemma_escaped_apart(a: Seq<char>, c: char, b: Seq<char>)
    ensures
        escaped(a + seq![c] + b) == escaped(a) + escape(c) + escaped(b),
    decreases b.len(),
{
    let s = a + seq![c] + b;
    if b.len() == 0 {
        assert(s.drop_last() =~= a);
        assert(escaped(a) + escape(c) + escaped(b) =~= escaped(a) + escape(c));
    } else {
        assert(s.drop_last() =~= a + seq![c] + b.drop_last());
        lemma_escaped_apart(a, c, b.drop_last());
        assert(escaped(a) + escape(c) + escaped(b.drop_last()) + escape(b.last()) =~= escaped(a)
            + escape(c) + (escaped(b.drop_last()) + escape(b.last())));
    }
}

/// Within a JSON string a quotation mark, a backslash, a tab and the end of a line stand
/// behind a backslash.
pub proof fn law_escapes_of_string(a: Seq<char>, c: char, b: Seq<char>)
    ensures
        c == '"' ==> escaped(a + seq![c] + b) == escaped(a) + seq!['\\', '"'] + escaped(b),
        c == '\\' ==> escaped(a + seq![c] + b) == escaped(a) + seq!['\\', '\\'] + escaped(b),
        c as int == 8 ==> escaped(a + seq![c] + b) == escaped(a) + seq!['\\', 'b'] + escaped(b),
        c as int == 9 ==> escaped(a + seq![c] + b) == escaped(a) + seq!['\\', 't'] + escaped(b),
        c as int == 10 ==> escaped(a + seq![c] + b) == escaped(a) + seq!['\\', 'n'] + escaped(b),
        c as int == 12 ==> escaped(a + seq![c] + b) == escaped(a) + seq!['\\', 'f'] + escaped(b),
        c as int == 13 ==> escaped(a + seq![c] + b) == escaped(a) + seq!['\\', 'r'] + escaped(b),
        is_shown_as_is(c) ==> escaped(a + seq![c] + b) == escaped(a) + seq![c] + escaped(b),
{
    lemma_escaped_apart(a, c, b);
}

/// The text of an object: its first member, then the others, each behind a comma.
pub proof fn law_text_of_object(
    key: Seq<char>,
    value: Seq<char>,
    more: Seq<(Seq<char>, Seq<char>)>,
    last: Seq<char>,
    end: Seq<char>,
)
    ensures
        object_text(Seq::empty()) == seq!['{', '}'],
        object_text(seq![(key, value)]) == seq!['{'] + quoted(key) + seq![':'] + value + seq!['}'],
        more.len() > 0 ==> object_text(more.push((last, end))) == object_text(more).drop_last()
            + seq![','] + quoted(last) + seq![':'] + end + seq!['}'],
{
    let none = Seq::<(Seq<char>, Seq<char>)>::empty();
    assert(object_text(none) =~= seq!['{', '}']);
    let one = seq![(key, value)];
    assert(one.drop_last() =~= none);
    assert(object_text(one) =~= seq!['{'] + quoted(key) + seq![':'] + value + seq!['}']);
    if more.len() > 0 {
        let all = more.push((last, end));
        assert(all.drop_last() =~= more);
        assert(object_text(all) =~= object_text(more).drop_last() + seq![','] + quoted(last) + seq![
            ':',
        ] + end + seq!['}']);
    }
}

// ---------------------------------------------------------------------------
// Calls of the OpenAI interface

/// A call that a client sends comes back to it as it was, as long as its arguments are
/// an object in compact form.
pub proof fn law_call_comes_back(call: OpenAICallView, chat_id: Seq<char>, i: nat)
    requires
        call.call_type == "function"@,
        json_node(call.arguments, Seq::empty()) == Some(
            NodeView { text: call.arguments, shape: Shape::Object },
        ),
    ensures
        openai_call(internal_call(call), chat_id, i) == call,
{
}

/// The arguments of a call that a client sends are taken as JSON, or else as a string.
pub proof fn law_arguments_of_client(call: OpenAICallView)
    ensures
        ({
            let own = internal_call(call);
            &&& own.id == Some(call.id)
            &&& own.call_type == Some(call.call_type)
            &&& own.function.name == call.name
            &&& json_node(call.arguments, Seq::empty()) matches Some(node)
                ==> own.function.arguments == node.text
            &&& json_node(call.arguments, Seq::empty()) is None ==> own.function.arguments
                == quoted(call.arguments)
        }),
{
}

/// A call keeps its identifier; one without any gets one of the chat and of its place.
pub proof fn law_identifier_of_call(call: ToolCallView, chat_id: Seq<char>, i: nat)
    ensures
        ({
            let shown = openai_call(call, chat_id, i);
            &&& call.id matches Some(id) ==> shown.id == id
            &&& call.id is None ==> shown.id == seq!['c', 'a', 'l', 'l', '_'] + chat_id + seq!['_']
                + decimal(i)
            &&& shown.call_type == "function"@
            &&& shown.name == call.function.name
            &&& shown.arguments == call.function.arguments
        }),
{
    reveal_strlit("call_");
    reveal_strlit("_");
    assert("call_"@ =~= seq!['c', 'a', 'l', 'l', '_']);
    assert("_"@ =~= seq!['_']);
}

/// Calls without identifiers get different ones.
pub proof fn law_identifiers_differ(
    a: ToolCallView,
    b: ToolCallView,
    chat_id: Seq<char>,
    i: nat,
    j: nat,
)
    requires
        a.id is None,
        b.id is None,
        i != j,
    ensures
        openai_call(a, chat_id, i).id != openai_call(b, chat_id, j).id,
{
    let front = "call_"@ + chat_id + "_"@;
    let n = front.len() as int;
    law_bases(i);
    law_bases(j);
    assert((front + decimal(i)).skip(n) =~= decimal(i));
    assert((front + decimal(j)).skip(n) =~= decimal(j));
}

/// All calls of an answer are shown, in order.
pub proof fn law_each_call_is_shown(calls: Seq<ToolCall>, chat_id: Seq<char>, i: int)
    requires
        0 <= i < calls.len(),
    ensures
        openai_calls(calls, chat_id).len() == calls.len(),
        openai_calls(calls, chat_id)[i].name == calls[i].function.name@,
        openai_calls(calls, chat_id)[i].arguments == calls[i].function.arguments@,
{
}

// ---------------------------------------------------------------------------
// Parts of streamed answers

/// The parts of a streamed answer to a chat are marked as such, belong to the chat and
/// name the model. The first tells that the assistant speaks and nothing else; those
/// for the tokens tell the text and nothing else.
pub proof fn law_parts_of_chat(
    chat_id: Seq<char>,
    model: Seq<char>,
    created: u64,
    text: Seq<char>,
)
    ensures
        ({
            let first = role_chunk(chat_id, model, created);
            &&& first.id == chat_id && first.model == model && first.created == created
            &&& first.object == "chat.completion.chunk"@ && first.index == 0
            &&& first.delta.role == Some("assistant"@)
            &&& first.delta.content is None && first.delta.tool_calls is None
            &&& first.finish_reason is None
        }),
        ({
            let part = text_chunk(chat_id, model, created, text);
            &&& part.id == chat_id && part.model == model && part.created == created
            &&& part.object == "chat.completion.chunk"@ && part.index == 0
            &&& part.delta.content == Some(text)
            &&& part.delta.role is None && part.delta.tool_calls is None
            &&& part.finish_reason is None
        }),
{
}

/// The last part of a streamed answer tells no text. With tool calls it shows them all
/// and tells that they are why the answer ends; without any the answer just stops.
pub proof fn law_last_part_of_chat(
    chat_id: Seq<char>,
    model: Seq<char>,
    created: u64,
    calls: Option<Vec<ToolCall>>,
)
    ensures
        ({
            let last = last_chunk(chat_id, model, created, calls);
            &&& last.id == chat_id && last.model == model && last.created == created
            &&& last.object == "chat.completion.chunk"@ && last.index == 0
            &&& last.delta.role is None && last.delta.content is None
            &&& calls is None ==> last.delta.tool_calls is None && last.finish_reason == Some(
                "stop"@,
            )
            &&& calls matches Some(list) ==> last.finish_reason == Some("tool_calls"@)
                && last.delta.tool_calls == Some(openai_calls(list@, chat_id))
        }),
{
}

/// A part of a streamed completion tells its text; only the last one tells that the
/// completion stops.
pub proof fn law_parts_of_completion(
    id: Seq<char>,
    model: Seq<char>,
    created: u64,
    text: Seq<char>,
    last: bool,
)
    ensures
        ({
            let part = completion_chunk(id, model, created, text, last);
            &&& part.id == id && part.model == model && part.created == created
            &&& part.object == "text_completion"@ && part.index == 0
            &&& part.text == text
            &&& last ==> part.finish_reason == Some("stop"@)
            &&& !last ==> part.finish_reason is None
        }),
{
}

/// The tokens that are counted are those of the prompt and those that were made.
pub proof fn law_tokens_are_counted(stats: GenerationStats)
    ensures
        token_counts(Some(stats)) == (stats.prompt_tokens, stats.tokens_generated),
        token_counts(None) == (0u32, 0u32),
{
}

/// A part of a streamed answer tells the text and that it is not the last; the last one
/// that it is, why, and what the answer took.
pub proof fn law_parts_of_generation(
    model: Seq<char>,
    created_at: Seq<char>,
    text: Seq<char>,
    total: u64,
    load: u64,
    stats: GenerationStats,
)
    ensures
        ({
            let part = token_part(model, created_at, text);
            &&& part.model == model && part.created_at == created_at && part.response == text
            &&& !part.done && part.done_reason is None
            &&& part.eval_count is None && part.total_duration is None
        }),
        ({
            let part = last_part(model, created_at, text, total, load, Some(stats));
            &&& part.model == model && part.created_at == created_at && part.response == text
            &&& part.done && part.done_reason == Some("stop"@)
            &&& part.total_duration == Some(total) && part.load_duration == Some(load)
            &&& part.prompt_eval_count == Some(stats.prompt_tokens)
            &&& part.prompt_eval_duration == Some(stats.prompt_eval_duration)
            &&& part.eval_count == Some(stats.tokens_generated)
            &&& part.eval_duration == Some(stats.eval_duration)
        }),
{
}

/// A part of a streamed answer to a chat is a message of the assistant; the last one
/// shows the tool calls, where there are any, and what the answer took.
pub proof fn law_messages_of_answer(
    model: Seq<char>,
    created_at: Seq<char>,
    text: Seq<char>,
    calls: Seq<CallView>,
    total: u64,
    load: u64,
    stats: GenerationStats,
)
    ensures
        ({
            let part = text_part(model, created_at, text);
            &&& part.model == model && part.created_at == created_at
            &&& part.message.role == "assistant"@ && part.message.content == text
            &&& part.message.calls is None
            &&& !part.done && part.done_reason is None
        }),
        ({
            let part = end_part(model, created_at, text, calls, total, load, Some(stats));
            &&& part.model == model && part.created_at == created_at
            &&& part.message.role == "assistant"@ && part.message.content == text
            &&& calls.len() > 0 ==> part.message.calls == Some(calls)
            &&& calls.len() == 0 ==> part.message.calls is None
            &&& part.done && part.done_reason == Some("stop"@)
            &&& part.total_duration == Some(total) && part.load_duration == Some(load)
            &&& part.prompt_eval_count == Some(stats.prompt_tokens)
            &&& part.prompt_eval_duration == Some(stats.prompt_eval_duration)
            &&& part.eval_count == Some(stats.tokens_generated)
            &&& part.eval_duration == Some(stats.eval_duration)
        }),
{
}

// ---------------------------------------------------------------------------
// Messages and descriptions

proof fn lemma_three_members(
    a: (Seq<char>, Seq<char>),
    b: (Seq<char>, Seq<char>),
    c: (Seq<char>, Seq<char>),
)
    ensures
        object_text(seq![a, b, c]) == seq!['{'] + quoted(a.0) + seq![':'] + a.1 + seq![','] + quoted(
            b.0,
        ) + seq![':'] + b.1 + seq![','] + quoted(c.0) + seq![':'] + c.1 + seq!['}'],
{
    law_text_of_object(a.0, a.1, seq![a], b.0, b.1);
    law_text_of_object(a.0, a.1, seq![a, b], c.0, c.1);
    assert(seq![a].push(b) =~= seq![a, b]);
    assert(seq![a, b].push(c) =~= seq![a, b, c]);
    let one = seq!['{'] + quoted(a.0) + seq![':'] + a.1;
    assert((one + seq!['}']).drop_last() =~= one);
    let two = one + seq![','] + quoted(b.0) + seq![':'] + b.1;
    assert((two + seq!['}']).drop_last() =~= two);
}

proof fn lemma_literal(s: Seq<char>)
    requires
        s == "code"@ || s == "message"@ || s == "type"@ || s == "error"@ || s == "model_not_found"@
            || s == "invalid_request_error"@,
    ensures
        quoted(s) == seq!['"'] + s + seq!['"'],
{
    reveal_strlit("code");
    reveal_strlit("message");
    reveal_strlit("type");
    reveal_strlit("error");
    reveal_strlit("model_not_found");
    reveal_strlit("invalid_request_error");
    law_plain_string(s);
}

#[verifier::rlimit(40)]
proof fn lemma_error_parts(
    e: Seq<char>,
    c: Seq<char>,
    n: Seq<char>,
    m: Seq<char>,
    q: Seq<char>,
    k: Seq<char>,
    i: Seq<char>,
)
    ensures
        ({
            let mark = seq!['"'];
            let inner = seq!['{'] + (mark + c + mark) + seq![':'] + (mark + n + mark) + seq![','] + (
            mark + m + mark) + seq![':'] + q + seq![','] + (mark + k + mark) + seq![':'] + (mark + i
                + mark) + seq!['}'];
            seq!['{'] + (mark + e + mark) + seq![':'] + inner + seq!['}']
        }) == (seq!['{', '"'] + e + seq!['"', ':', '{', '"'] + c + seq!['"', ':', '"'] + n + seq![
            '"',
            ',',
            '"',
        ] + m + seq!['"', ':']) + q + (seq![',', '"'] + k + seq!['"', ':', '"'] + i + seq![
            '"',
            '}',
            '}',
        ]),
{
    let mark = seq!['"'];
    let inner = seq!['{'] + (mark + c + mark) + seq![':'] + (mark + n + mark) + seq![','] + (mark + m
        + mark) + seq![':'] + q + seq![','] + (mark + k + mark) + seq![':'] + (mark + i + mark)
        + seq!['}'];
    assert(seq!['{'] + (mark + e + mark) + seq![':'] + inner + seq!['}'] =~= (seq!['{', '"'] + e
        + seq!['"', ':', '{', '"'] + c + seq!['"', ':', '"'] + n + seq!['"', ',', '"'] + m + seq![
        '"',
        ':',
    ]) + q + (seq![',', '"'] + k + seq!['"', ':', '"'] + i + seq!['"', '}', '}']));
}

/// An unknown model is named in the message that there is none, and the error that
/// reports a message holds it.
#[verifier::rlimit(40)]
pub proof fn law_unknown_model_is_named(name: Seq<char>)
    ensures
        unknown_message(name) == "model '"@ + name + "' not found"@,
        openai_error(name) == "{\"error\":{\"code\":\"model_not_found\",\"message\":"@ + quoted(name)
            + ",\"type\":\"invalid_request_error\"}}"@,
{
    lemma_literal("code"@);
    lemma_literal("message"@);
    lemma_literal("type"@);
    lemma_literal("error"@);
    lemma_literal("model_not_found"@);
    lemma_literal("invalid_request_error"@);
    let code = ("code"@, quoted("model_not_found"@));
    let message = ("message"@, quoted(name));
    let kind = ("type"@, quoted("invalid_request_error"@));
    lemma_three_members(code, message, kind);
    let inner = object_text(seq![code, message, kind]);
    law_text_of_object("error"@, inner, Seq::empty(), "error"@, inner);
    lemma_error_text();
    lemma_error_parts(
        "error"@,
        "code"@,
        "model_not_found"@,
        "message"@,
        quoted(name),
        "type"@,
        "invalid_request_error"@,
    );
}

spec fn error_front() -> Seq<char> {
    seq!['{', '"'] + "error"@ + seq!['"', ':', '{', '"'] + "code"@ + seq!['"', ':', '"']
        + "model_not_found"@ + seq!['"', ',', '"'] + "message"@ + seq!['"', ':']
}

spec fn error_back() -> Seq<char> {
    seq![',', '"'] + "type"@ + seq!['"', ':', '"'] + "invalid_request_error"@ + seq![
        '"',
        '}',
        '}',
    ]
}

proof fn lemma_error_text()
    ensures
        error_front() == "{\"error\":{\"code\":\"model_not_found\",\"message\":"@,
        error_back() == ",\"type\":\"invalid_request_error\"}}"@,
{
    reveal_strlit("code");
    reveal_strlit("message");
    reveal_strlit("type");
    reveal_strlit("error");
    reveal_strlit("model_not_found");
    reveal_strlit("invalid_request_error");
    reveal_strlit("{\"error\":{\"code\":\"model_not_found\",\"message\":");
    reveal_strlit(",\"type\":\"invalid_request_error\"}}");
    assert(error_front() =~= "{\"error\":{\"code\":\"model_not_found\",\"message\":"@);
    assert(error_back() =~= ",\"type\":\"invalid_request_error\"}}"@);
}

/// A model is described by its format, its family, its size and its quantization, which
/// is unknown where the file does not tell it.
pub proof fn law_model_is_described(m: ModelView)
    ensures
        ({
            let tag = tag_of(m);
            &&& tag.name == m.name && tag.model == m.name && tag.size == m.size
            &&& tag.details.format == "gguf"@
            &&& tag.details.family == m.architecture
            &&& tag.details.parameter_size == parameter_size(m.parameter_count as nat)
            &&& m.quantization matches Some(q) ==> tag.details.quantization_level == q
            &&& m.quantization is None ==> tag.details.quantization_level == "unknown"@
        }),
{
}

// ---------------------------------------------------------------------------
// Requests

/// What a request asks for is done, and what it does not ask for is done by default.
pub proof fn law_options_come_before_defaults<F>(
    sampling: SamplingParams<F>,
    defaults: SamplingParams<F>,
    opts: GenerateOptions<F>,
)
    requires
        follows_options(sampling, defaults, opts),
    ensures
        opts.temperature matches Some(t) ==> sampling.temperature == t,
        opts.temperature is None ==> sampling.temperature == defaults.temperature,
        opts.top_k matches Some(k) ==> sampling.top_k == k,
        opts.top_k is None ==> sampling.top_k == defaults.top_k,
        opts.top_p matches Some(p) ==> sampling.top_p == p,
        opts.top_p is None ==> sampling.top_p == defaults.top_p,
        opts.repeat_penalty matches Some(p) ==> sampling.repeat_penalty == p,
        opts.repeat_penalty is None ==> sampling.repeat_penalty == defaults.repeat_penalty,
        opts.num_predict matches Some(n) ==> sampling.max_tokens == n,
        opts.num_predict is None ==> sampling.max_tokens == defaults.max_tokens,
        opts.seed matches Some(n) ==> sampling.seed == n,
        opts.seed is None ==> sampling.seed == defaults.seed,
        opts.stop matches Some(list) ==> texts(sampling.stop_sequences@) == texts(list@),
        opts.stop is None ==> texts(sampling.stop_sequences@) == texts(defaults.stop_sequences@),
{
}

/// A request for a chat decides how its answer is generated, as far as it says so; the
/// presence penalty is the penalty on repetition.
pub proof fn law_chat_request_is_followed<F>(
    sampling: SamplingParams<F>,
    defaults: SamplingParams<F>,
    opts: GenerateOptions<F>,
    req: OpenAIChatCompletionRequest<F>,
)
    requires
        has_chat_options(opts, req),
        follows_options(sampling, defaults, opts),
    ensures
        req.temperature matches Some(t) ==> sampling.temperature == t,
        req.temperature is None ==> sampling.temperature == defaults.temperature,
        req.top_p matches Some(p) ==> sampling.top_p == p,
        req.top_p is None ==> sampling.top_p == defaults.top_p,
        req.presence_penalty matches Some(p) ==> sampling.repeat_penalty == p,
        req.presence_penalty is None ==> sampling.repeat_penalty == defaults.repeat_penalty,
        req.max_tokens matches Some(n) ==> sampling.max_tokens == n,
        req.max_tokens is None ==> sampling.max_tokens == defaults.max_tokens,
        req.seed matches Some(n) ==> sampling.seed == n,
        req.seed is None ==> sampling.seed == defaults.seed,
        req.stop matches Some(list) ==> texts(sampling.stop_sequences@) == texts(list@),
        req.stop is None ==> texts(sampling.stop_sequences@) == texts(defaults.stop_sequences@),
        sampling.top_k == defaults.top_k,
{
}

/// A request for a completion decides the same, but for the penalty and the seed.
pub proof fn law_completion_request_is_followed<F>(
    sampling: SamplingParams<F>,
    defaults: SamplingParams<F>,
    opts: GenerateOptions<F>,
    req: OpenAICompletionRequest<F>,
)
    requires
        has_completion_options(opts, req),
        follows_options(sampling, defaults, opts),
    ensures
        req.temperature matches Some(t) ==> sampling.temperature == t,
        req.temperature is None ==> sampling.temperature == defaults.temperature,
        req.top_p matches Some(p) ==> sampling.top_p == p,
        req.top_p is None ==> sampling.top_p == defaults.top_p,
        req.max_tokens matches Some(n) ==> sampling.max_tokens == n,
        req.max_tokens is None ==> sampling.max_tokens == defaults.max_tokens,
        req.stop matches Some(list) ==> texts(sampling.stop_sequences@) == texts(list@),
        req.stop is None ==> texts(sampling.stop_sequences@) == texts(defaults.stop_sequences@),
        sampling.top_k == defaults.top_k,
        sampling.repeat_penalty == defaults.repeat_penalty,
        sampling.seed == defaults.seed,
{
}

/// A message that a client sends is taken with its role, its content and all its calls.
pub proof fn law_message_of_client(message: ChatMessage, from: OpenAIChatMessage)
    requires
        is_internal(message, from),
    ensures
        message.role@ == from.role@,
        from.content matches Some(s) ==> message.content@ == s@,
        from.content is None ==> message.content@.len() == 0,
        from.tool_calls is None ==> message.tool_calls is None,
        from.tool_calls matches Some(calls) ==> (message.tool_calls matches Some(own)
            && own@.len() == calls@.len() && forall|i: int|
            0 <= i < calls@.len() ==> (#[trigger] own@[i]).function.name@ == calls@[i]@.name),
{
    if let Some(calls) = from.tool_calls {
        let own = message.tool_calls->0;
        assert forall|i: int| 0 <= i < calls@.len() implies (#[trigger] own@[i]).function.name@
            == calls@[i]@.name by {
            assert(own@[i]@ == internal_call(calls@[i]@));
        }
    }
}

/// All that is known of the model stands in what a prompt is made for.
pub proof fn law_hint_holds_each_name(
    arch: Seq<char>,
    active: Seq<char>,
    requested: Seq<char>,
    template: Seq<char>,
)
    ensures
        model_hint(arch, active, requested, template) == spelled(
            seq![arch, active, requested, template],
            ' ',
        ),
{
    reveal_strlit(" ");
    let all = seq![arch, active, requested, template];
    assert(" "@ =~= seq![' ']);
    assert(all.skip(1) =~= seq![active, requested, template]);
    assert(seq![active, requested, template].skip(1) =~= seq![requested, template]);
    assert(seq![requested, template].skip(1) =~= seq![template]);
    assert(spelled(seq![template], ' ') == template);
    assert(spelled(seq![requested, template], ' ') =~= requested + seq![' '] + template);
    assert(spelled(seq![active, requested, template], ' ') == active + seq![' '] + (requested + seq![
        ' ',
    ] + template));
    assert(spelled(all, ' ') == arch + seq![' '] + (active + seq![' '] + (requested + seq![' ']
        + template)));
    assert(model_hint(arch, active, requested, template) =~= spelled(all, ' '));
}

} // verus!
