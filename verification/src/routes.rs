//! What the server answers to requests of the Ollama interface.

use vstd::prelude::*;

use crate::json::entries_view;
use crate::json::object_text;
use crate::json::quote;
use crate::json::quoted;
use crate::json::texts;
use crate::json::Json;
use crate::number::decimal;
use crate::number::decimal_of;
use crate::ollama_types::details_of;
use crate::ollama_types::functions_view;
use crate::ollama_types::option_text;
use crate::ollama_types::CallView;
use crate::ollama_types::ChatMessage;
use crate::ollama_types::ChatPartView;
use crate::ollama_types::ChatResponseChunk;
use crate::ollama_types::GenerateOptions;
use crate::ollama_types::GenerateResponseChunk;
use crate::ollama_types::GenerationStats;
use crate::ollama_types::InfoView;
use crate::ollama_types::MessageView;
use crate::ollama_types::PartView;
use crate::ollama_types::SamplingParams;
use crate::ollama_types::ShowResponse;
use crate::ollama_types::ToolCall;
use crate::registry::info_of;
use crate::registry::resolved;
use crate::registry::ModelRegistry;
use crate::streaming::joined;
use crate::streaming::law_sendings_are_in_order;
use crate::streaming::law_stream_keeps_answer;
use crate::streaming::sendings;
use crate::streaming::sent_texts;
use crate::streaming::stream_after;
use crate::streaming::stream_step;
use crate::streaming::streamed;
use crate::streaming::ChatStream;
use crate::text::copy_str;
use crate::text::string_of;
use crate::tool_calls::are_calls;
use crate::tool_calls::extraction;
use crate::tool_calls::is_call;
use crate::tool_calls::try_parse_tool_calls;

verus! {

// ---------------------------------------------------------------------------
// Sampling

/// What is asked for, or else the default.
pub open spec fn chosen<T>(asked: Option<T>, default: T) -> T {
    match asked {
        Some(t) => t,
        None => default,
    }
}

/// A copy of a list of strings.
pub fn copy_texts(list: &Vec<String>) -> (r: Vec<String>)
    ensures
        texts(r@) == texts(list@),
{
    let mut out: Vec<String> = Vec::new();
    let mut i: usize = 0;
    while i < list.len()
        invariant
            i <= list@.len(),
            out@.len() == i,
            forall|k: int| 0 <= k < i ==> #[trigger] out@[k]@ == list@[k]@,
        decreases list@.len() - i,
    {
        out.push(copy_str(list[i].as_str()));
        i = i + 1;
    }
    proof {
        assert(texts(out@) =~= texts(list@));
    }
    out
}

/// An answer is generated as the options ask, and by default where they do not.
pub open spec fn follows_options<F>(
    sampling: SamplingParams<F>,
    defaults: SamplingParams<F>,
    opts: GenerateOptions<F>,
) -> bool {
    &&& sampling.temperature == chosen(opts.temperature, defaults.temperature)
    &&& sampling.top_k == chosen(opts.top_k, defaults.top_k)
    &&& sampling.top_p == chosen(opts.top_p, defaults.top_p)
    &&& sampling.repeat_penalty == chosen(opts.repeat_penalty, defaults.repeat_penalty)
    &&& sampling.max_tokens == chosen(opts.num_predict, defaults.max_tokens)
    &&& sampling.seed == chosen(opts.seed, defaults.seed)
    &&& texts(sampling.stop_sequences@) == texts(
        match opts.stop {
            Some(stops) => stops@,
            None => defaults.stop_sequences@,
        },
    )
}

/// How an answer is generated: as the options ask, and by default where they do
/// not.
pub fn build_sampling<F: Copy>(defaults: SamplingParams<F>, opts: &GenerateOptions<F>) -> (r:
    SamplingParams<F>)
    ensures
        r.temperature == chosen(opts.temperature, defaults.temperature),
        r.top_k == chosen(opts.top_k, defaults.top_k),
        r.top_p == chosen(opts.top_p, defaults.top_p),
        r.repeat_penalty == chosen(opts.repeat_penalty, defaults.repeat_penalty),
        r.max_tokens == chosen(opts.num_predict, defaults.max_tokens),
        r.seed == chosen(opts.seed, defaults.seed),
        texts(r.stop_sequences@) == texts(
            match opts.stop {
                Some(stops) => stops@,
                None => defaults.stop_sequences@,
            },
        ),
        follows_options(r, defaults, *opts),
{
    let mut s = defaults;
    if let Some(t) = opts.temperature {
        s.temperature = t;
    }
    if let Some(k) = opts.top_k {
        s.top_k = k;
    }
    if let Some(p) = opts.top_p {
        s.top_p = p;
    }
    if let Some(rp) = opts.repeat_penalty {
        s.repeat_penalty = rp;
    }
    if let Some(n) = opts.num_predict {
        s.max_tokens = n;
    }
    if let Some(seed) = opts.seed {
        s.seed = seed;
    }
    if let Some(stops) = &opts.stop {
        s.stop_sequences = copy_texts(stops);
    }
    s
}

// ---------------------------------------------------------------------------
// Prompts

/// What is known of the model that a prompt is for: its architecture, its name,
/// the name it was asked for under, and its own template, with spaces between
/// them.
pub open spec fn model_hint(
    arch: Seq<char>,
    active: Seq<char>,
    requested: Seq<char>,
    template: Seq<char>,
) -> Seq<char> {
    arch + " "@ + active + " "@ + requested + " "@ + template
}

/// Writes what is known of the model that a prompt is for.
pub fn write_model_hint(arch: &str, active: &str, requested: &str, template: &str) -> (r: String)
    ensures
        r@ == model_hint(arch@, active@, requested@, template@),
{
    let mut out = copy_str(arch);
    out.append(" ");
    out.append(active);
    out.append(" ");
    out.append(requested);
    out.append(" ");
    out.append(template);
    out
}

// ---------------------------------------------------------------------------
// Answers

/// The tokens of an answer one after the other.
pub fn join_tokens(tokens: &Vec<String>) -> (r: String)
    ensures
        r@ == joined(texts(tokens@)),
{
    let ghost all = texts(tokens@);
    let mut out = String::new();
    proof {
        assert(all.take(0) =~= Seq::<Seq<char>>::empty());
        assert(out@ =~= joined(all.take(0)));
    }
    let mut i: usize = 0;
    while i < tokens.len()
        invariant
            all == texts(tokens@),
            i <= tokens@.len(),
            out@ == joined(all.take(i as int)),
        decreases tokens@.len() - i,
    {
        proof {
            assert(all.take(i + 1).drop_last() =~= all.take(i as int));
            assert(all.take(i + 1).last() == tokens@[i as int]@);
        }
        out.append(tokens[i].as_str());
        i = i + 1;
    }
    proof {
        assert(all.take(all.len() as int) =~= all);
    }
    out
}

/// The part of an answer to `/api/generate` that a token gives.
pub open spec fn token_part(model: Seq<char>, created_at: Seq<char>, text: Seq<char>) -> PartView {
    PartView {
        model,
        created_at,
        response: text,
        done: false,
        done_reason: None,
        total_duration: None,
        load_duration: None,
        prompt_eval_count: None,
        prompt_eval_duration: None,
        eval_count: None,
        eval_duration: None,
    }
}

/// The end of an answer to `/api/generate`, or a whole answer, with what it took.
pub open spec fn last_part(
    model: Seq<char>,
    created_at: Seq<char>,
    response: Seq<char>,
    total_duration: u64,
    load_duration: u64,
    stats: Option<GenerationStats>,
) -> PartView {
    PartView {
        model,
        created_at,
        response,
        done: true,
        done_reason: Some("stop"@),
        total_duration: Some(total_duration),
        load_duration: Some(load_duration),
        prompt_eval_count: match stats {
            Some(s) => Some(s.prompt_tokens),
            None => None,
        },
        prompt_eval_duration: match stats {
            Some(s) => Some(s.prompt_eval_duration),
            None => None,
        },
        eval_count: match stats {
            Some(s) => Some(s.tokens_generated),
            None => None,
        },
        eval_duration: match stats {
            Some(s) => Some(s.eval_duration),
            None => None,
        },
    }
}

/// A part of an answer to `/api/generate`.
pub fn make_generate_chunk(model_name: String, created_at: String, text: String) -> (r:
    GenerateResponseChunk)
    ensures
        r@ == token_part(model_name@, created_at@, text@),
{
    GenerateResponseChunk {
        model: model_name,
        created_at,
        response: text,
        done: false,
        done_reason: None,
        total_duration: None,
        load_duration: None,
        prompt_eval_count: None,
        prompt_eval_duration: None,
        eval_count: None,
        eval_duration: None,
    }
}

/// An answer reports what it took, where that is known.
pub open spec fn reports(
    stats: Option<GenerationStats>,
    prompt_eval_count: Option<u32>,
    prompt_eval_duration: Option<u64>,
    eval_count: Option<u32>,
    eval_duration: Option<u64>,
) -> bool {
    match stats {
        Some(s) => {
            &&& prompt_eval_count == Some(s.prompt_tokens)
            &&& prompt_eval_duration == Some(s.prompt_eval_duration)
            &&& eval_count == Some(s.tokens_generated)
            &&& eval_duration == Some(s.eval_duration)
        },
        None => {
            &&& prompt_eval_count is None
            &&& prompt_eval_duration is None
            &&& eval_count is None
            &&& eval_duration is None
        },
    }
}

/// The end of an answer to `/api/generate`, or a whole answer, with what it took.
/// Durations are in nanoseconds.
pub fn finish_generate(
    model_name: String,
    created_at: String,
    response: String,
    total_duration: u64,
    load_duration: u64,
    stats: Option<GenerationStats>,
) -> (r: GenerateResponseChunk)
    ensures
        r@ == last_part(
            model_name@,
            created_at@,
            response@,
            total_duration,
            load_duration,
            stats,
        ),
{
    GenerateResponseChunk {
        model: model_name,
        created_at,
        response,
        done: true,
        done_reason: Some(copy_str("stop")),
        total_duration: Some(total_duration),
        load_duration: Some(load_duration),
        prompt_eval_count: match stats {
            Some(s) => Some(s.prompt_tokens),
            None => None,
        },
        prompt_eval_duration: match stats {
            Some(s) => Some(s.prompt_eval_duration),
            None => None,
        },
        eval_count: match stats {
            Some(s) => Some(s.tokens_generated),
            None => None,
        },
        eval_duration: match stats {
            Some(s) => Some(s.eval_duration),
            None => None,
        },
    }
}

/// The whole answer to `/api/generate` that the tokens of a model give.
pub fn whole_generate(
    tokens: &Vec<String>,
    model_name: String,
    created_at: String,
    total_duration: u64,
    load_duration: u64,
    stats: Option<GenerationStats>,
) -> (r: GenerateResponseChunk)
    ensures
        r@ == last_part(
            model_name@,
            created_at@,
            joined(texts(tokens@)),
            total_duration,
            load_duration,
            stats,
        ),
{
    let response = join_tokens(tokens);
    finish_generate(model_name, created_at, response, total_duration, load_duration, stats)
}

/// A message of the assistant with the given content and calls.
pub open spec fn is_from_assistant(
    message: ChatMessage,
    content: Seq<char>,
    tool_calls: Option<Vec<ToolCall>>,
) -> bool {
    message.role@ == "assistant"@ && message.content@ == content && message.tool_calls == tool_calls
}

/// A part of an answer to `/api/chat`.
pub fn make_chat_chunk(model_name: &str, created_at: String, content: String, done: bool) -> (r:
    ChatResponseChunk)
    ensures
        r == (ChatResponseChunk {
            model: r.model,
            created_at,
            message: r.message,
            done,
            done_reason: None,
            total_duration: None,
            load_duration: None,
            prompt_eval_count: None,
            prompt_eval_duration: None,
            eval_count: None,
            eval_duration: None,
        }),
        r.model@ == model_name@,
        is_from_assistant(r.message, content@, None),
{
    ChatResponseChunk {
        model: copy_str(model_name),
        created_at,
        message: ChatMessage { role: copy_str("assistant"), content, tool_calls: None },
        done,
        done_reason: None,
        total_duration: None,
        load_duration: None,
        prompt_eval_count: None,
        prompt_eval_duration: None,
        eval_count: None,
        eval_duration: None,
    }
}

/// The end of an answer to `/api/chat`, or a whole answer, with its tool calls and
/// what it took. Durations are in nanoseconds.
pub fn finish_chat(
    model_name: String,
    created_at: String,
    content: String,
    tool_calls: Option<Vec<ToolCall>>,
    total_duration: u64,
    load_duration: u64,
    stats: Option<GenerationStats>,
) -> (r: ChatResponseChunk)
    ensures
        r == (ChatResponseChunk {
            model: model_name,
            created_at,
            message: r.message,
            done: true,
            done_reason: r.done_reason,
            total_duration: Some(total_duration),
            load_duration: Some(load_duration),
            prompt_eval_count: r.prompt_eval_count,
            prompt_eval_duration: r.prompt_eval_duration,
            eval_count: r.eval_count,
            eval_duration: r.eval_duration,
        }),
        is_from_assistant(r.message, content@, tool_calls),
        option_text(r.done_reason) == Some("stop"@),
        reports(
            stats,
            r.prompt_eval_count,
            r.prompt_eval_duration,
            r.eval_count,
            r.eval_duration,
        ),
{
    ChatResponseChunk {
        model: model_name,
        created_at,
        message: ChatMessage { role: copy_str("assistant"), content, tool_calls },
        done: true,
        done_reason: Some(copy_str("stop")),
        total_duration: Some(total_duration),
        load_duration: Some(load_duration),
        prompt_eval_count: match stats {
            Some(s) => Some(s.prompt_tokens),
            None => None,
        },
        prompt_eval_duration: match stats {
            Some(s) => Some(s.prompt_eval_duration),
            None => None,
        },
        eval_count: match stats {
            Some(s) => Some(s.tokens_generated),
            None => None,
        },
        eval_duration: match stats {
            Some(s) => Some(s.eval_duration),
            None => None,
        },
    }
}

/// A part of an answer to `/api/chat` that adds text; it says nothing of the end.
pub open spec fn text_part(model: Seq<char>, created_at: Seq<char>, text: Seq<char>) -> ChatPartView {
    ChatPartView {
        model,
        created_at,
        message: MessageView { role: "assistant"@, content: text, calls: None },
        done: false,
        done_reason: None,
        total_duration: None,
        load_duration: None,
        prompt_eval_count: None,
        prompt_eval_duration: None,
        eval_count: None,
        eval_duration: None,
    }
}

/// The calls of a message: none where the list is empty.
pub open spec fn some_calls(calls: Seq<CallView>) -> Option<Seq<CallView>> {
    if calls.len() > 0 {
        Some(calls)
    } else {
        None
    }
}

/// The end of an answer to `/api/chat`, or a whole answer, with its tool calls and
/// what it took.
pub open spec fn end_part(
    model: Seq<char>,
    created_at: Seq<char>,
    content: Seq<char>,
    calls: Seq<CallView>,
    total_duration: u64,
    load_duration: u64,
    stats: Option<GenerationStats>,
) -> ChatPartView {
    let took = last_part(model, created_at, content, total_duration, load_duration, stats);
    ChatPartView {
        model,
        created_at,
        message: MessageView { role: "assistant"@, content, calls: some_calls(calls) },
        done: true,
        done_reason: Some("stop"@),
        total_duration: took.total_duration,
        load_duration: took.load_duration,
        prompt_eval_count: took.prompt_eval_count,
        prompt_eval_duration: took.prompt_eval_duration,
        eval_count: took.eval_count,
        eval_duration: took.eval_duration,
    }
}

/// Tool calls that stand for `calls` show them.
proof fn lemma_calls_shown(tool_calls: Option<Vec<ToolCall>>, calls: Seq<CallView>)
    requires
        are_calls(tool_calls, calls),
    ensures
        some_calls(calls) == (match tool_calls {
            Some(list) => Some(functions_view(list@)),
            None => None,
        }),
{
    if let Some(list) = tool_calls {
        assert forall|i: int| 0 <= i < calls.len() implies functions_view(list@)[i] == calls[i] by {
            assert(is_call(list@[i], calls[i]));
        }
        assert(functions_view(list@) =~= calls);
    }
}

/// Takes the next token of a streamed answer to `/api/chat`; gives the part of the
/// answer that is to be sent for it.
pub fn push_chat_token(stream: &mut ChatStream, model_name: &str, created_at: String, token: &str) -> (r:
    Option<ChatResponseChunk>)
    ensures
        final(stream)@ == stream_step(old(stream)@, token@).0,
        match stream_step(old(stream)@, token@).1 {
            Some(text) => r matches Some(chunk) && chunk@ == text_part(
                model_name@,
                created_at@,
                text,
            ),
            None => r is None,
        },
{
    match stream.push(token) {
        Some(text) => Some(make_chat_chunk(model_name, created_at, text, false)),
        None => None,
    }
}

/// Ends a streamed answer to `/api/chat`: the last part has the tool calls of the
/// whole answer and no text. None where the answer cannot be taken apart.
pub fn finish_chat_stream(
    stream: ChatStream,
    model_name: String,
    created_at: String,
    total_duration: u64,
    load_duration: u64,
    stats: Option<GenerationStats>,
) -> (r: Option<ChatResponseChunk>)
    ensures
        match extraction(stream@.full) {
            Some(scan) => r matches Some(chunk) && chunk@ == end_part(
                model_name@,
                created_at@,
                Seq::empty(),
                scan.calls,
                total_duration,
                load_duration,
                stats,
            ) && are_calls(chunk.message.tool_calls, scan.calls),
            None => r is None,
        },
{
    match stream.finish() {
        Some(calls) => {
            proof {
                lemma_calls_shown(calls, extraction(stream@.full)->0.calls);
            }
            let content = String::new();
            proof {
                assert(content@ =~= Seq::<char>::empty());
            }
            Some(
                finish_chat(
                    model_name,
                    created_at,
                    content,
                    calls,
                    total_duration,
                    load_duration,
                    stats,
                ),
            )
        },
        None => None,
    }
}

/// The whole answer to `/api/chat` that the tokens of a model give: the text for the
/// user and the tool calls in them. None where they cannot be taken apart.
pub fn whole_chat(
    tokens: &Vec<String>,
    model_name: String,
    created_at: String,
    total_duration: u64,
    load_duration: u64,
    stats: Option<GenerationStats>,
) -> (r: Option<ChatResponseChunk>)
    ensures
        match extraction(joined(texts(tokens@))) {
            Some(scan) => r matches Some(answer) && answer@ == end_part(
                model_name@,
                created_at@,
                scan.text,
                scan.calls,
                total_duration,
                load_duration,
                stats,
            ) && are_calls(answer.message.tool_calls, scan.calls),
            None => r is None,
        },
{
    match try_parse_tool_calls(join_tokens(tokens).as_str()) {
        Some((content, tool_calls)) => {
            proof {
                lemma_calls_shown(tool_calls, extraction(joined(texts(tokens@)))->0.calls);
            }
            Some(
                finish_chat(
                    model_name,
                    created_at,
                    content,
                    tool_calls,
                    total_duration,
                    load_duration,
                    stats,
                ),
            )
        },
        None => None,
    }
}

/// A JSON text as one line of a stream.
pub fn ndjson_line(json: &str) -> (r: String)
    ensures
        r@ == json@ + "\n"@,
{
    let mut line = copy_str(json);
    line.append("\n");
    line
}

// ---------------------------------------------------------------------------
// Models

/// What `/api/show` tells of a model file besides the details.
pub open spec fn shown_info(info: InfoView) -> Seq<char> {
    object_text(
        seq![
            ("general.architecture"@, quoted(info.architecture)),
            ("general.context_length"@, decimal(info.context_length as nat)),
            ("general.parameter_count"@, decimal(info.parameter_count as nat)),
        ],
    )
}

/// The message that there is no model of the name.
pub open spec fn unknown_message(name: Seq<char>) -> Seq<char> {
    "model '"@ + name + "' not found"@
}

/// What is told of the model that a request means, or else the message that there
/// is none; `path_exists` says whether the request, without white space around it,
/// is the path of a file.
pub fn show_model(registry: &ModelRegistry, model: &str, path_exists: bool) -> (r: Result<
    ShowResponse,
    String,
>)
    ensures
        match resolved(registry.models@, model@, path_exists) {
            Some(i) => r matches Ok(shown) && shown.details@ == details_of(
                info_of(registry.models@[i]@),
            ) && shown.model_info@ == shown_info(info_of(registry.models@[i]@)),
            None => r matches Err(message) && message@ == unknown_message(model@),
        },
{
    match registry.resolve_model(model, path_exists) {
        Some(found) => {
            let info = found.to_gguf_info();
            let entries: Vec<(&str, String)> = vec![
                ("general.architecture", quote(info.architecture.as_str())),
                (
                    "general.context_length",
                    string_of(decimal_of(info.context_length as u128).as_slice()),
                ),
                (
                    "general.parameter_count",
                    string_of(decimal_of(info.parameter_count as u128).as_slice()),
                ),
            ];
            proof {
                assert(entries_view(entries@) =~= seq![
                    ("general.architecture"@, quoted(info@.architecture)),
                    ("general.context_length"@, decimal(info@.context_length as nat)),
                    ("general.parameter_count"@, decimal(info@.parameter_count as nat)),
                ]);
            }
            Ok(ShowResponse { details: info.details(), model_info: Json::object(&entries) })
        },
        None => {
            let mut message = copy_str("model '");
            message.append(model);
            message.append("' not found");
            Err(message)
        },
    }
}

/// An object with one member that is a string.
pub open spec fn one_member(key: Seq<char>, value: Seq<char>) -> Seq<char> {
    object_text(seq![(key, quoted(value))])
}

/// Writes an object with one member that is a string.
fn write_member(key: &str, value: &str) -> (r: Json)
    ensures
        r@ == one_member(key@, value@),
{
    let entries: Vec<(&str, String)> = vec![(key, quote(value))];
    proof {
        assert(entries_view(entries@) =~= seq![(key@, quoted(value@))]);
    }
    Json::object(&entries)
}

/// The body of an answer that reports an error.
pub fn error_body(message: &str) -> (r: Json)
    ensures
        r@ == one_member("error"@, message@),
{
    write_member("error", message)
}

/// The body of the answer that the server is up.
pub fn health_body() -> (r: Json)
    ensures
        r@ == one_member("status"@, "ok"@),
{
    write_member("status", "ok")
}

/// The body of the answer that tells the version.
pub fn version_body(version: &str) -> (r: Json)
    ensures
        r@ == one_member("version"@, version@),
{
    write_member("version", version)
}

// ---------------------------------------------------------------------------
// Laws of answers

/// The parts of a streamed answer to `/api/generate`: one for each token, each with
/// the time at which it was made, and one at the end.
pub open spec fn generate_parts(
    model: Seq<char>,
    tokens: Seq<Seq<char>>,
    times: Seq<Seq<char>>,
    now: Seq<char>,
    total_duration: u64,
    load_duration: u64,
    stats: Option<GenerationStats>,
) -> Seq<PartView> {
    Seq::new(tokens.len(), |i: int| token_part(model, times[i], tokens[i])).push(
        last_part(model, now, Seq::empty(), total_duration, load_duration, stats),
    )
}

/// The texts of the parts of an answer.
pub open spec fn responses(parts: Seq<PartView>) -> Seq<Seq<char>> {
    Seq::new(parts.len(), |i: int| parts[i].response)
}

/// A streamed answer to `/api/generate` has one part for each token, with its text,
/// and one last part without text, which alone is done and tells what the answer
/// took, where that is known. The texts of its parts joined are that of the whole
/// answer to the same tokens.
pub proof fn law_streamed_answer_is_whole(
    model: Seq<char>,
    tokens: Seq<Seq<char>>,
    times: Seq<Seq<char>>,
    now: Seq<char>,
    total_duration: u64,
    load_duration: u64,
    stats: Option<GenerationStats>,
)
    ensures
        ({
            let parts = generate_parts(
                model,
                tokens,
                times,
                now,
                total_duration,
                load_duration,
                stats,
            );
            let end = parts.last();
            let whole = last_part(
                model,
                now,
                joined(tokens),
                total_duration,
                load_duration,
                stats,
            );
            &&& parts.len() == tokens.len() + 1
            &&& forall|i: int|
                0 <= i < tokens.len() ==> !(#[trigger] parts[i]).done && parts[i].response
                    == tokens[i]
            &&& end.done && end.response == Seq::<char>::empty()
            &&& reports(
                stats,
                end.prompt_eval_count,
                end.prompt_eval_duration,
                end.eval_count,
                end.eval_duration,
            )
            &&& joined(responses(parts)) == whole.response
        }),
{
    let parts = generate_parts(model, tokens, times, now, total_duration, load_duration, stats);
    let all = responses(parts);
    assert(all.drop_last() =~= tokens);
    assert(all.last() == Seq::<char>::empty());
    assert(joined(tokens) + Seq::<char>::empty() =~= joined(tokens));
}

/// The parts of a streamed answer to `/api/chat`: one for each text that is sent,
/// with the time at which it was made, and one at the end.
pub open spec fn chat_parts(
    model: Seq<char>,
    tokens: Seq<Seq<char>>,
    times: Seq<Seq<char>>,
    now: Seq<char>,
    calls: Seq<CallView>,
    total_duration: u64,
    load_duration: u64,
    stats: Option<GenerationStats>,
) -> Seq<ChatPartView> {
    text_parts(model, tokens, times).push(
        end_part(model, now, Seq::empty(), calls, total_duration, load_duration, stats),
    )
}

/// The parts of a streamed answer to `/api/chat` that are sent for the given tokens.
pub open spec fn text_parts(
    model: Seq<char>,
    tokens: Seq<Seq<char>>,
    times: Seq<Seq<char>>,
) -> Seq<ChatPartView> {
    let sent = sendings(tokens);
    Seq::new(sent.len(), |i: int| text_part(model, times[sent[i].0], sent[i].1))
}

/// A streamed answer to `/api/chat` is sent in order: first the texts that are sent
/// for the tokens, and then one part without text, which alone is done, has the tool
/// calls of the whole answer, and tells what the answer took, where that is known.
pub proof fn law_streamed_chat_is_in_order(
    model: Seq<char>,
    tokens: Seq<Seq<char>>,
    times: Seq<Seq<char>>,
    now: Seq<char>,
    total_duration: u64,
    load_duration: u64,
    stats: Option<GenerationStats>,
)
    requires
        extraction(joined(tokens)) is Some,
    ensures
        ({
            let calls = extraction(joined(tokens))->0.calls;
            let parts = chat_parts(
                model,
                tokens,
                times,
                now,
                calls,
                total_duration,
                load_duration,
                stats,
            );
            let sent = sendings(tokens);
            let end = parts.last();
            &&& parts.len() == sent.len() + 1
            &&& forall|i: int|
                0 <= i < sent.len() ==> parts[i] == text_part(
                    model,
                    times[(#[trigger] sent[i]).0],
                    sent[i].1,
                )
            &&& forall|i: int|
                0 <= i < parts.len() ==> ((#[trigger] parts[i]).done <==> i == sent.len())
            &&& end.message.content == Seq::<char>::empty()
            &&& end.message.calls == some_calls(calls)
            &&& reports(
                stats,
                end.prompt_eval_count,
                end.prompt_eval_duration,
                end.eval_count,
                end.eval_duration,
            )
            &&& joined(sent_texts(sent)) == streamed(tokens)
            &&& stream_after(tokens).full == joined(tokens)
        }),
{
    law_sendings_are_in_order(tokens);
    law_stream_keeps_answer(tokens);
}

/// One more token adds to the parts of a stream the one that is sent for it, where
/// one is.
pub proof fn law_parts_follow_tokens(
    model: Seq<char>,
    tokens: Seq<Seq<char>>,
    times: Seq<Seq<char>>,
    token: Seq<char>,
    time: Seq<char>,
)
    requires
        times.len() == tokens.len(),
    ensures
        text_parts(model, Seq::empty(), Seq::empty()) == Seq::<ChatPartView>::empty(),
        ({
            let before = text_parts(model, tokens, times);
            let after = text_parts(model, tokens.push(token), times.push(time));
            after == (match stream_step(stream_after(tokens), token).1 {
                Some(text) => before.push(text_part(model, time, text)),
                None => before,
            })
        }),
{
    let none = Seq::<Seq<char>>::empty();
    assert(sendings(none) =~= Seq::<(int, Seq<char>)>::empty());
    assert(text_parts(model, none, none) =~= Seq::<ChatPartView>::empty());
    law_sendings_are_in_order(tokens);
    let all = tokens.push(token);
    assert(all.drop_last() =~= tokens);
    let before = text_parts(model, tokens, times);
    let after = text_parts(model, all, times.push(time));
    match stream_step(stream_after(tokens), token).1 {
        Some(text) => {
            assert(after =~= before.push(text_part(model, time, text)));
        },
        None => {
            assert(after =~= before);
        },
    }
}

} // verus!
