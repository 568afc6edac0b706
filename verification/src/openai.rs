//! What the server answers to requests of the OpenAI interface.

use vstd::prelude::*;

use crate::call_syntax::read_value;
use crate::call_syntax::value_of;
use crate::ids::long_text;
use crate::ids::uuid_simple;
use crate::json::entries_view;
use crate::json::object_text;
use crate::json::quote;
use crate::json::quoted;
use crate::json::texts;
use crate::json::write_object;
use crate::json::Json;
use crate::number::decimal;
use crate::number::decimal_of;
use crate::ollama_types::option_text;
use crate::ollama_types::CallView;
use crate::ollama_types::ChatMessage;
use crate::ollama_types::FunctionCall;
use crate::ollama_types::GenerateOptions;
use crate::ollama_types::GenerationStats;
use crate::ollama_types::ToolCall;
use crate::ollama_types::ToolCallView;
use crate::openai_types::completion_view;
use crate::openai_types::is_chunk;
use crate::openai_types::openai_calls_view;
use crate::openai_types::ChunkView;
use crate::openai_types::CompletionView;
use crate::openai_types::DeltaView;
use crate::openai_types::OpenAICallView;
use crate::openai_types::OpenAIChatChoice;
use crate::openai_types::OpenAIChatChunkChoice;
use crate::openai_types::OpenAIChatChunkResponse;
use crate::openai_types::OpenAIChatCompletionRequest;
use crate::openai_types::OpenAIChatCompletionResponse;
use crate::openai_types::OpenAIChatDelta;
use crate::openai_types::OpenAIChatMessage;
use crate::openai_types::OpenAICompletionChoice;
use crate::openai_types::OpenAICompletionChunkResponse;
use crate::openai_types::OpenAICompletionRequest;
use crate::openai_types::OpenAICompletionResponse;
use crate::openai_types::OpenAIFunctionCall;
use crate::openai_types::OpenAIModelEntry;
use crate::openai_types::OpenAIModelList;
use crate::openai_types::OpenAIToolCall;
use crate::openai_types::OpenAIUsage;
use crate::openai_types::StreamEvent;
use crate::registry::sorts;
use crate::registry::tag_of;
use crate::registry::ModelRegistry;
use crate::registry::RegisteredModel;
use crate::routes::copy_texts;
use crate::routes::join_tokens;
use crate::streaming::joined;
use crate::streaming::law_sendings_are_in_order;
use crate::streaming::law_stream_keeps_answer;
use crate::streaming::sendings;
use crate::streaming::sent_texts;
use crate::streaming::stream_after;
use crate::streaming::stream_start;
use crate::streaming::stream_step;
use crate::streaming::streamed;
use crate::streaming::ChatStream;
use crate::streaming::StreamView;
use crate::text::copy_str;
use crate::text::string_of;
use crate::tool_calls::are_calls;
use crate::tool_calls::extraction;
use crate::tool_calls::try_parse_tool_calls;

verus! {

// ---------------------------------------------------------------------------
// Requests

/// A copy of an optional list of strings.
fn copy_stops(stop: &Option<Vec<String>>) -> (r: Option<Vec<String>>)
    ensures
        match *stop {
            Some(list) => r matches Some(own) && texts(own@) == texts(list@),
            None => r is None,
        },
{
    match stop {
        Some(list) => Some(copy_texts(list)),
        None => None,
    }
}

/// The same texts, or none in both.
pub open spec fn same_stops(a: Option<Vec<String>>, b: Option<Vec<String>>) -> bool {
    match (a, b) {
        (Some(x), Some(y)) => texts(x@) == texts(y@),
        (None, None) => true,
        _ => false,
    }
}

/// The options are those of a request for a chat.
pub open spec fn has_chat_options<F>(
    opts: GenerateOptions<F>,
    req: OpenAIChatCompletionRequest<F>,
) -> bool {
    &&& opts.temperature == req.temperature
    &&& opts.top_k is None
    &&& opts.top_p == req.top_p
    &&& opts.repeat_penalty == req.presence_penalty
    &&& opts.num_predict == req.max_tokens
    &&& opts.seed == req.seed
    &&& same_stops(opts.stop, req.stop)
    &&& opts.num_ctx is None
}

/// The options are those of a request for a completion.
pub open spec fn has_completion_options<F>(
    opts: GenerateOptions<F>,
    req: OpenAICompletionRequest<F>,
) -> bool {
    &&& opts.temperature == req.temperature
    &&& opts.top_k is None
    &&& opts.top_p == req.top_p
    &&& opts.repeat_penalty is None
    &&& opts.num_predict == req.max_tokens
    &&& opts.seed is None
    &&& same_stops(opts.stop, req.stop)
    &&& opts.num_ctx is None
}

/// The options of a request for a chat. Its presence penalty is taken for the
/// penalty on repetition.
pub fn chat_options<F: Copy>(req: &OpenAIChatCompletionRequest<F>) -> (r: GenerateOptions<F>)
    ensures
        r == (GenerateOptions {
            temperature: req.temperature,
            top_k: None,
            top_p: req.top_p,
            repeat_penalty: req.presence_penalty,
            num_predict: req.max_tokens,
            seed: req.seed,
            stop: r.stop,
            num_ctx: None,
        }),
        same_stops(r.stop, req.stop),
        has_chat_options(r, *req),
{
    GenerateOptions {
        temperature: req.temperature,
        top_k: None,
        top_p: req.top_p,
        repeat_penalty: req.presence_penalty,
        num_predict: req.max_tokens,
        seed: req.seed,
        stop: copy_stops(&req.stop),
        num_ctx: None,
    }
}

/// The options of a request for a completion.
pub fn completion_options<F: Copy>(req: &OpenAICompletionRequest<F>) -> (r: GenerateOptions<F>)
    ensures
        r == (GenerateOptions {
            temperature: req.temperature,
            top_k: None,
            top_p: req.top_p,
            repeat_penalty: None,
            num_predict: req.max_tokens,
            seed: None,
            stop: r.stop,
            num_ctx: None,
        }),
        same_stops(r.stop, req.stop),
        has_completion_options(r, *req),
{
    GenerateOptions {
        temperature: req.temperature,
        top_k: None,
        top_p: req.top_p,
        repeat_penalty: None,
        num_predict: req.max_tokens,
        seed: None,
        stop: copy_stops(&req.stop),
        num_ctx: None,
    }
}

/// A call as it stands in the chats of this library.
pub open spec fn internal_call(call: OpenAICallView) -> ToolCallView {
    ToolCallView {
        id: Some(call.id),
        call_type: Some(call.call_type),
        function: CallView { name: call.name, arguments: value_of(call.arguments) },
    }
}

/// A message stands for one of the OpenAI interface: it has the same role, the
/// same content, empty where there is none, and the same calls.
pub open spec fn is_internal(message: ChatMessage, from: OpenAIChatMessage) -> bool {
    &&& message.role@ == from.role@
    &&& message.content@ == (match from.content {
        Some(s) => s@,
        None => Seq::empty(),
    })
    &&& match (message.tool_calls, from.tool_calls) {
        (Some(own), Some(calls)) => own@.len() == calls@.len() && forall|i: int|
            0 <= i < calls@.len() ==> (#[trigger] own@[i])@ == internal_call(calls@[i]@),
        (None, None) => true,
        _ => false,
    }
}

/// The calls of a message as they stand in the chats of this library.
fn internal_calls(calls: &Vec<OpenAIToolCall>) -> (r: Vec<ToolCall>)
    ensures
        r@.len() == calls@.len(),
        forall|i: int| 0 <= i < calls@.len() ==> (#[trigger] r@[i])@ == internal_call(calls@[i]@),
{
    let mut out: Vec<ToolCall> = Vec::new();
    let mut i: usize = 0;
    while i < calls.len()
        invariant
            i <= calls@.len(),
            out@.len() == i,
            forall|k: int| 0 <= k < i ==> (#[trigger] out@[k])@ == internal_call(calls@[k]@),
        decreases calls@.len() - i,
    {
        let call = &calls[i];
        out.push(
            ToolCall {
                id: Some(copy_str(call.id.as_str())),
                call_type: Some(copy_str(call.call_type.as_str())),
                function: FunctionCall {
                    name: copy_str(call.function.name.as_str()),
                    arguments: read_value(call.function.arguments.as_str()),
                },
            },
        );
        i = i + 1;
    }
    out
}

/// The messages of a request as they stand in the chats of this library.
pub fn internal_messages(messages: &Vec<OpenAIChatMessage>) -> (r: Vec<ChatMessage>)
    ensures
        r@.len() == messages@.len(),
        forall|i: int| 0 <= i < messages@.len() ==> is_internal(#[trigger] r@[i], messages@[i]),
{
    let mut out: Vec<ChatMessage> = Vec::new();
    let mut i: usize = 0;
    while i < messages.len()
        invariant
            i <= messages@.len(),
            out@.len() == i,
            forall|k: int| 0 <= k < i ==> is_internal(#[trigger] out@[k], messages@[k]),
        decreases messages@.len() - i,
    {
        let m = &messages[i];
        let content = match &m.content {
            Some(s) => copy_str(s.as_str()),
            None => String::new(),
        };
        let tool_calls = match &m.tool_calls {
            Some(calls) => Some(internal_calls(calls)),
            None => None,
        };
        out.push(ChatMessage { role: copy_str(m.role.as_str()), content, tool_calls });
        i = i + 1;
    }
    out
}

// ---------------------------------------------------------------------------
// Identifiers

/// An identifier of a chat made at the present moment.
pub fn new_chat_id() -> (r: String)
    ensures
        exists|nanos: nat| r@ == "chatcmpl-"@ + #[trigger] long_text(nanos),
{
    let mut id = copy_str("chatcmpl-");
    let stamp = uuid_simple();
    id.append(stamp.as_str());
    proof {
        let nanos = choose|nanos: nat| stamp@ == #[trigger] long_text(nanos);
        assert(id@ == "chatcmpl-"@ + long_text(nanos));
    }
    id
}

/// An identifier of a completion made at the present moment.
pub fn new_completion_id() -> (r: String)
    ensures
        exists|nanos: nat| r@ == "cmpl-"@ + #[trigger] long_text(nanos),
{
    let mut id = copy_str("cmpl-");
    let stamp = uuid_simple();
    id.append(stamp.as_str());
    proof {
        let nanos = choose|nanos: nat| stamp@ == #[trigger] long_text(nanos);
        assert(id@ == "cmpl-"@ + long_text(nanos));
    }
    id
}

// ---------------------------------------------------------------------------
// Tool calls

/// A call as clients of the OpenAI interface see it: under its own identifier, or
/// else under one made from those of the chat and of its place.
pub open spec fn openai_call(call: ToolCallView, chat_id: Seq<char>, i: nat) -> OpenAICallView {
    OpenAICallView {
        id: match call.id {
            Some(id) => id,
            None => "call_"@ + chat_id + "_"@ + decimal(i),
        },
        call_type: "function"@,
        name: call.function.name,
        arguments: call.function.arguments,
    }
}

/// The calls of an answer as clients of the OpenAI interface see them.
pub open spec fn openai_calls(calls: Seq<ToolCall>, chat_id: Seq<char>) -> Seq<OpenAICallView> {
    Seq::new(calls.len(), |i: int| openai_call(calls[i]@, chat_id, i as nat))
}

/// The calls of an answer as clients of the OpenAI interface see them.
pub fn to_openai_calls(calls: &Vec<ToolCall>, chat_id: &str) -> (r: Vec<OpenAIToolCall>)
    ensures
        openai_calls_view(r@) == openai_calls(calls@, chat_id@),
{
    let mut out: Vec<OpenAIToolCall> = Vec::new();
    let mut i: usize = 0;
    while i < calls.len()
        invariant
            i <= calls@.len(),
            out@.len() == i,
            forall|k: int|
                0 <= k < i ==> (#[trigger] out@[k])@ == openai_call(
                    calls@[k]@,
                    chat_id@,
                    k as nat,
                ),
        decreases calls@.len() - i,
    {
        let call = &calls[i];
        let id = match &call.id {
            Some(id) => copy_str(id.as_str()),
            None => {
                let mut own = copy_str("call_");
                own.append(chat_id);
                own.append("_");
                own.append(string_of(decimal_of(i as u128).as_slice()).as_str());
                own
            },
        };
        out.push(
            OpenAIToolCall {
                id,
                call_type: copy_str("function"),
                function: OpenAIFunctionCall {
                    name: copy_str(call.function.name.as_str()),
                    arguments: copy_str(call.function.arguments.text()),
                },
            },
        );
        i = i + 1;
    }
    proof {
        assert(openai_calls_view(out@) =~= openai_calls(calls@, chat_id@));
    }
    out
}

// ---------------------------------------------------------------------------
// Streamed answers

/// A part of a streamed answer to a chat.
pub open spec fn chat_chunk(
    chat_id: Seq<char>,
    model: Seq<char>,
    created: u64,
    delta: DeltaView,
    finish_reason: Option<Seq<char>>,
) -> ChunkView {
    ChunkView {
        id: chat_id,
        object: "chat.completion.chunk"@,
        created,
        model,
        index: 0,
        delta,
        finish_reason,
    }
}

/// A part of a streamed answer to a chat that adds `delta` to the message.
fn make_chunk(
    chat_id: &str,
    model_name: &str,
    created: u64,
    delta: OpenAIChatDelta,
    finish_reason: Option<String>,
) -> (r: OpenAIChatChunkResponse)
    ensures
        is_chunk(
            r,
            chat_chunk(chat_id@, model_name@, created, delta@, option_text(finish_reason)),
        ),
{
    OpenAIChatChunkResponse {
        id: copy_str(chat_id),
        object: "chat.completion.chunk",
        created,
        model: copy_str(model_name),
        choices: vec![OpenAIChatChunkChoice { index: 0, delta, finish_reason }],
    }
}

/// The first part of a streamed answer to a chat: who speaks.
pub open spec fn role_chunk(chat_id: Seq<char>, model: Seq<char>, created: u64) -> ChunkView {
    chat_chunk(
        chat_id,
        model,
        created,
        DeltaView { role: Some("assistant"@), content: None, tool_calls: None },
        None,
    )
}

/// A part of a streamed answer to a chat that adds text.
pub open spec fn text_chunk(
    chat_id: Seq<char>,
    model: Seq<char>,
    created: u64,
    text: Seq<char>,
) -> ChunkView {
    chat_chunk(
        chat_id,
        model,
        created,
        DeltaView { role: None, content: Some(text), tool_calls: None },
        None,
    )
}

/// The first part of a streamed answer to a chat: who speaks.
pub fn make_openai_role_chunk(chat_id: &str, model_name: &str, created: u64) -> (r:
    OpenAIChatChunkResponse)
    ensures
        is_chunk(r, role_chunk(chat_id@, model_name@, created)),
{
    make_chunk(
        chat_id,
        model_name,
        created,
        OpenAIChatDelta { role: Some(copy_str("assistant")), content: None, tool_calls: None },
        None,
    )
}

/// A later part of a streamed answer to a chat.
pub fn make_openai_chat_chunk(
    chat_id: &str,
    model_name: &str,
    created: u64,
    content: Option<String>,
    tool_calls: Option<Vec<OpenAIToolCall>>,
    finish_reason: Option<String>,
) -> (r: OpenAIChatChunkResponse)
    ensures
        is_chunk(
            r,
            chat_chunk(
                chat_id@,
                model_name@,
                created,
                (DeltaView {
                    role: None,
                    content: option_text(content),
                    tool_calls: (match tool_calls {
                        Some(calls) => Some(openai_calls_view(calls@)),
                        None => None,
                    }),
                }),
                option_text(finish_reason),
            ),
        ),
{
    make_chunk(
        chat_id,
        model_name,
        created,
        OpenAIChatDelta { role: None, content, tool_calls },
        finish_reason,
    )
}

/// The last part of a streamed answer to a chat: the tool calls, where the answer
/// has any, and why it ends.
pub open spec fn last_chunk(
    chat_id: Seq<char>,
    model: Seq<char>,
    created: u64,
    tool_calls: Option<Vec<ToolCall>>,
) -> ChunkView {
    match tool_calls {
        Some(calls) => chat_chunk(
            chat_id,
            model,
            created,
            DeltaView {
                role: None,
                content: None,
                tool_calls: Some(openai_calls(calls@, chat_id)),
            },
            Some("tool_calls"@),
        ),
        None => chat_chunk(
            chat_id,
            model,
            created,
            DeltaView { role: None, content: None, tool_calls: None },
            Some("stop"@),
        ),
    }
}

/// The last part of a streamed answer to a chat: the tool calls, where the answer
/// has any, and why it ends.
pub fn finish_openai_chat(
    chat_id: &str,
    model_name: &str,
    created: u64,
    tool_calls: &Option<Vec<ToolCall>>,
) -> (r: OpenAIChatChunkResponse)
    ensures
        is_chunk(r, last_chunk(chat_id@, model_name@, created, *tool_calls)),
{
    match tool_calls {
        Some(calls) => make_openai_chat_chunk(
            chat_id,
            model_name,
            created,
            None,
            Some(to_openai_calls(calls, chat_id)),
            Some(copy_str("tool_calls")),
        ),
        None => make_openai_chat_chunk(
            chat_id,
            model_name,
            created,
            None,
            None,
            Some(copy_str("stop")),
        ),
    }
}

/// Takes the next token of a streamed answer to a chat; gives the part of the
/// answer that is to be sent for it.
pub fn push_openai_token(
    stream: &mut ChatStream,
    chat_id: &str,
    model_name: &str,
    created: u64,
    token: &str,
) -> (r: Option<OpenAIChatChunkResponse>)
    ensures
        final(stream)@ == stream_step(old(stream)@, token@).0,
        match stream_step(old(stream)@, token@).1 {
            Some(text) => r matches Some(chunk) && is_chunk(
                chunk,
                text_chunk(chat_id@, model_name@, created, text),
            ),
            None => r is None,
        },
{
    match stream.push(token) {
        Some(text) => Some(
            make_openai_chat_chunk(chat_id, model_name, created, Some(text), None, None),
        ),
        None => None,
    }
}

/// Ends a streamed answer to a chat with the tool calls of the whole answer. None
/// where the answer cannot be taken apart.
pub fn finish_openai_stream(stream: &ChatStream, chat_id: &str, model_name: &str, created: u64) -> (r:
    Option<OpenAIChatChunkResponse>)
    ensures
        match extraction(stream@.full) {
            Some(scan) => r matches Some(chunk) && exists|calls: Option<Vec<ToolCall>>| #[trigger]
                are_calls(calls, scan.calls) && is_chunk(
                    chunk,
                    last_chunk(chat_id@, model_name@, created, calls),
                ),
            None => r is None,
        },
{
    match stream.finish() {
        Some(calls) => Some(finish_openai_chat(chat_id, model_name, created, &calls)),
        None => None,
    }
}

/// The contents of an event of a streamed answer to a chat.
pub open spec fn is_event(
    event: StreamEvent<OpenAIChatChunkResponse>,
    contents: StreamEvent<ChunkView>,
) -> bool {
    match (event, contents) {
        (StreamEvent::Part(chunk), StreamEvent::Part(own)) => is_chunk(chunk, own),
        (StreamEvent::Done, StreamEvent::Done) => true,
        _ => false,
    }
}

/// The contents of the events of a streamed answer to a chat.
pub open spec fn are_events(
    events: Seq<StreamEvent<OpenAIChatChunkResponse>>,
    contents: Seq<StreamEvent<ChunkView>>,
) -> bool {
    events.len() == contents.len() && forall|i: int|
        0 <= i < events.len() ==> is_event(#[trigger] events[i], contents[i])
}

/// The mathematical form of an [`OpenAIChatStream`].
pub struct OpenAIStreamView {
    pub stream: StreamView,
    pub chat_id: Seq<char>,
    pub model: Seq<char>,
    pub created: u64,
}

/// A streamed answer to a chat, from its first event to its last.
pub struct OpenAIChatStream {
    stream: ChatStream,
    chat_id: String,
    model_name: String,
    created: u64,
}

impl View for OpenAIChatStream {
    type V = OpenAIStreamView;

    closed spec fn view(&self) -> OpenAIStreamView {
        OpenAIStreamView {
            stream: self.stream@,
            chat_id: self.chat_id@,
            model: self.model_name@,
            created: self.created,
        }
    }
}

/// The event that is sent for a token, where one is.
pub open spec fn token_event(state: OpenAIStreamView, token: Seq<char>) -> Option<StreamEvent<ChunkView>> {
    match stream_step(state.stream, token).1 {
        Some(text) => Some(
            StreamEvent::Part(text_chunk(state.chat_id, state.model, state.created, text)),
        ),
        None => None,
    }
}

/// The events that end a stream.
pub open spec fn closing_events(state: OpenAIStreamView, calls: Option<Vec<ToolCall>>) -> Seq<
    StreamEvent<ChunkView>,
> {
    seq![
        StreamEvent::Part(last_chunk(state.chat_id, state.model, state.created, calls)),
        StreamEvent::Done,
    ]
}

impl OpenAIChatStream {
    /// Begins a streamed answer; gives the event that is to be sent first.
    pub fn open(chat_id: String, model_name: String, created: u64) -> (r: (Self, StreamEvent<OpenAIChatChunkResponse>))
        ensures
            r.0@ == (OpenAIStreamView {
                stream: stream_start(),
                chat_id: chat_id@,
                model: model_name@,
                created,
            }),
            is_event(r.1, StreamEvent::Part(role_chunk(chat_id@, model_name@, created))),
    {
        let first = make_openai_role_chunk(chat_id.as_str(), model_name.as_str(), created);
        let stream = OpenAIChatStream { stream: ChatStream::new(), chat_id, model_name, created };
        (stream, StreamEvent::Part(first))
    }

    /// Takes the next token; gives the event that is to be sent for it.
    pub fn push(&mut self, token: &str) -> (r: Option<StreamEvent<OpenAIChatChunkResponse>>)
        ensures
            final(self)@ == (OpenAIStreamView {
                stream: stream_step(old(self)@.stream, token@).0,
                ..old(self)@
            }),
            match token_event(old(self)@, token@) {
                Some(contents) => r matches Some(event) && is_event(event, contents),
                None => r is None,
            },
    {
        let part = push_openai_token(
            &mut self.stream,
            self.chat_id.as_str(),
            self.model_name.as_str(),
            self.created,
            token,
        );
        match part {
            Some(chunk) => Some(StreamEvent::Part(chunk)),
            None => None,
        }
    }

    /// Ends the answer; gives the events that are to be sent last: the last part, with
    /// the tool calls of the whole answer, and the closing mark. None where the answer
    /// cannot be taken apart.
    pub fn close(self) -> (r: Option<Vec<StreamEvent<OpenAIChatChunkResponse>>>)
        ensures
            match extraction(self@.stream.full) {
                Some(scan) => r matches Some(events) && exists|calls: Option<Vec<ToolCall>>|
                    #[trigger] are_calls(calls, scan.calls) && are_events(
                        events@,
                        closing_events(self@, calls),
                    ),
                None => r is None,
            },
    {
        let end = finish_openai_stream(
            &self.stream,
            self.chat_id.as_str(),
            self.model_name.as_str(),
            self.created,
        );
        match end {
            Some(chunk) => {
                let events: Vec<StreamEvent<OpenAIChatChunkResponse>> = vec![
                    StreamEvent::Part(chunk),
                    StreamEvent::Done,
                ];
                proof {
                    let scan = extraction(self@.stream.full)->0;
                    let calls = choose|calls: Option<Vec<ToolCall>>| #[trigger]
                        are_calls(calls, scan.calls) && is_chunk(
                            chunk,
                            last_chunk(self@.chat_id, self@.model, self@.created, calls),
                        );
                    assert(are_events(events@, closing_events(self@, calls)));
                }
                Some(events)
            },
            None => None,
        }
    }
}

/// A part of a streamed completion: a piece of text, or the end of it.
pub open spec fn completion_chunk(
    id: Seq<char>,
    model: Seq<char>,
    created: u64,
    text: Seq<char>,
    last: bool,
) -> CompletionView {
    CompletionView {
        id,
        object: "text_completion"@,
        created,
        model,
        index: 0,
        text,
        finish_reason: if last {
            Some("stop"@)
        } else {
            None
        },
    }
}

/// Why a completion ends, once it does.
fn finish_reason(last: bool) -> (r: Option<String>)
    ensures
        option_text(r) == (if last {
            Some("stop"@)
        } else {
            None
        }),
{
    if last {
        Some(copy_str("stop"))
    } else {
        None
    }
}

/// A part of a streamed completion has one choice, and these are its contents.
pub open spec fn is_completion_part(
    chunk: OpenAICompletionChunkResponse,
    contents: CompletionView,
) -> bool {
    chunk.choices@.len() == 1 && contents == completion_view(
        chunk.id,
        chunk.object,
        chunk.created,
        chunk.model,
        chunk.choices@[0],
    )
}

/// A part of a streamed completion: a piece of text, or the end of it.
pub fn make_completion_chunk(
    completion_id: &str,
    model_name: &str,
    created: u64,
    text: String,
    last: bool,
) -> (r: OpenAICompletionChunkResponse)
    ensures
        is_completion_part(
            r,
            completion_chunk(completion_id@, model_name@, created, text@, last),
        ),
{
    OpenAICompletionChunkResponse {
        id: copy_str(completion_id),
        object: "text_completion",
        created,
        model: copy_str(model_name),
        choices: vec![OpenAICompletionChoice { index: 0, text, finish_reason: finish_reason(last) }],
    }
}

/// Ends a streamed completion; gives the events that are to be sent last: the last
/// part and the closing mark.
pub fn close_completion(completion_id: &str, model_name: &str, created: u64) -> (r: Vec<
    StreamEvent<OpenAICompletionChunkResponse>,
>)
    ensures
        r@.len() == 2,
        r@[0] matches StreamEvent::Part(chunk) && is_completion_part(
            chunk,
            completion_chunk(completion_id@, model_name@, created, Seq::empty(), true),
        ),
        r@[1] is Done,
{
    let text = String::new();
    proof {
        assert(text@ =~= Seq::<char>::empty());
    }
    let end = make_completion_chunk(completion_id, model_name, created, text, true);
    vec![StreamEvent::Part(end), StreamEvent::Done]
}

/// A JSON text as one event of a stream.
pub fn sse_event(json: &str) -> (r: String)
    ensures
        r@ == "data: "@ + json@ + "\n\n"@,
{
    let mut event = copy_str("data: ");
    event.append(json);
    event.append("\n\n");
    event
}

/// The event that ends a stream.
pub fn sse_done() -> (r: String)
    ensures
        r@ == "data: [DONE]\n\n"@,
{
    copy_str("data: [DONE]\n\n")
}

// ---------------------------------------------------------------------------
// Whole answers

/// The tokens of the prompt and of the answer; none where nothing is known.
pub open spec fn token_counts(stats: Option<GenerationStats>) -> (u32, u32) {
    match stats {
        Some(s) => (s.prompt_tokens, s.tokens_generated),
        None => (0, 0),
    }
}

/// The tokens can be counted together.
pub open spec fn is_countable(stats: Option<GenerationStats>) -> bool {
    token_counts(stats).0 + token_counts(stats).1 <= u32::MAX
}

/// Whether the tokens can be counted together.
pub fn can_count(stats: &Option<GenerationStats>) -> (r: bool)
    ensures
        r == is_countable(*stats),
{
    match stats {
        Some(s) => s.prompt_tokens <= u32::MAX - s.tokens_generated,
        None => true,
    }
}

/// What an answer used up.
pub fn usage(stats: Option<GenerationStats>) -> (r: OpenAIUsage)
    requires
        is_countable(stats),
    ensures
        r.prompt_tokens == token_counts(stats).0,
        r.completion_tokens == token_counts(stats).1,
        r.total_tokens == r.prompt_tokens + r.completion_tokens,
{
    match stats {
        Some(s) => OpenAIUsage {
            prompt_tokens: s.prompt_tokens,
            completion_tokens: s.tokens_generated,
            total_tokens: s.prompt_tokens + s.tokens_generated,
        },
        None => OpenAIUsage { prompt_tokens: 0, completion_tokens: 0, total_tokens: 0 },
    }
}

/// A whole answer to a chat, with the given text and tool calls.
pub open spec fn is_completion(
    answer: OpenAIChatCompletionResponse,
    chat_id: Seq<char>,
    created: u64,
    model: Seq<char>,
    content: Seq<char>,
    tool_calls: Option<Vec<ToolCall>>,
    stats: Option<GenerationStats>,
) -> bool {
    let choice = answer.choices@[0];
    &&& answer.id@ == chat_id
    &&& answer.object@ == "chat.completion"@
    &&& answer.created == created
    &&& answer.model@ == model
    &&& answer.choices@.len() == 1
    &&& choice.index == 0
    &&& option_text(choice.finish_reason) == Some("stop"@)
    &&& choice.message.role@ == "assistant"@
    &&& option_text(choice.message.content) == Some(content)
    &&& choice.message.tool_call_id is None
    &&& match (choice.message.tool_calls, tool_calls) {
        (Some(own), Some(calls)) => openai_calls_view(own@) == openai_calls(calls@, chat_id),
        (None, None) => true,
        _ => false,
    }
    &&& answer.usage.prompt_tokens == token_counts(stats).0
    &&& answer.usage.completion_tokens == token_counts(stats).1
    &&& answer.usage.total_tokens == answer.usage.prompt_tokens + answer.usage.completion_tokens
}

/// A whole answer to a chat.
pub fn chat_completion(
    chat_id: String,
    created: u64,
    model_name: String,
    content: String,
    tool_calls: Option<Vec<ToolCall>>,
    stats: Option<GenerationStats>,
) -> (r: OpenAIChatCompletionResponse)
    requires
        is_countable(stats),
    ensures
        is_completion(r, chat_id@, created, model_name@, content@, tool_calls, stats),
{
    let own = match &tool_calls {
        Some(calls) => Some(to_openai_calls(calls, chat_id.as_str())),
        None => None,
    };
    OpenAIChatCompletionResponse {
        id: chat_id,
        object: "chat.completion",
        created,
        model: model_name,
        choices: vec![
            OpenAIChatChoice {
                index: 0,
                message: OpenAIChatMessage {
                    role: copy_str("assistant"),
                    content: Some(content),
                    tool_calls: own,
                    tool_call_id: None,
                },
                finish_reason: Some(copy_str("stop")),
            },
        ],
        usage: usage(stats),
    }
}

/// The whole answer to a chat that the tokens of a model give: the text for the user
/// and the tool calls in them. None where they cannot be taken apart.
pub fn whole_chat_completion(
    tokens: &Vec<String>,
    chat_id: String,
    created: u64,
    model_name: String,
    stats: Option<GenerationStats>,
) -> (r: Option<OpenAIChatCompletionResponse>)
    requires
        is_countable(stats),
    ensures
        match extraction(joined(texts(tokens@))) {
            Some(scan) => r matches Some(answer) && exists|calls: Option<Vec<ToolCall>>| #[trigger]
                are_calls(calls, scan.calls) && is_completion(
                    answer,
                    chat_id@,
                    created,
                    model_name@,
                    scan.text,
                    calls,
                    stats,
                ),
            None => r is None,
        },
{
    match try_parse_tool_calls(join_tokens(tokens).as_str()) {
        Some((content, tool_calls)) => Some(
            chat_completion(chat_id, created, model_name, content, tool_calls, stats),
        ),
        None => None,
    }
}

/// A whole completion.
pub fn text_completion(
    completion_id: String,
    created: u64,
    model_name: String,
    text: String,
    stats: Option<GenerationStats>,
) -> (r: OpenAICompletionResponse)
    requires
        is_countable(stats),
    ensures
        r.choices@.len() == 1,
        completion_view(r.id, r.object, r.created, r.model, r.choices@[0]) == completion_chunk(
            completion_id@,
            model_name@,
            created,
            text@,
            true,
        ),
        r.usage.prompt_tokens == token_counts(stats).0,
        r.usage.completion_tokens == token_counts(stats).1,
        r.usage.total_tokens == r.usage.prompt_tokens + r.usage.completion_tokens,
{
    OpenAICompletionResponse {
        id: completion_id,
        object: "text_completion",
        created,
        model: model_name,
        choices: vec![OpenAICompletionChoice { index: 0, text, finish_reason: finish_reason(true) }],
        usage: usage(stats),
    }
}

/// The whole completion that the tokens of a model give.
pub fn whole_completion(
    tokens: &Vec<String>,
    completion_id: String,
    created: u64,
    model_name: String,
    stats: Option<GenerationStats>,
) -> (r: OpenAICompletionResponse)
    requires
        is_countable(stats),
    ensures
        r.choices@.len() == 1,
        completion_view(r.id, r.object, r.created, r.model, r.choices@[0]) == completion_chunk(
            completion_id@,
            model_name@,
            created,
            joined(texts(tokens@)),
            true,
        ),
        r.usage.prompt_tokens == token_counts(stats).0,
        r.usage.completion_tokens == token_counts(stats).1,
        r.usage.total_tokens == r.usage.prompt_tokens + r.usage.completion_tokens,
{
    text_completion(completion_id, created, model_name, join_tokens(tokens), stats)
}

/// The entry of a model in the list of models.
pub open spec fn is_entry(entry: OpenAIModelEntry, name: Seq<char>, created: u64) -> bool {
    entry.id@ == name && entry.object@ == "model"@ && entry.created == created && entry.owned_by@
        == "hypura"@
}

/// Entries list the names of the models in order.
pub open spec fn lists_names(
    entries: Seq<OpenAIModelEntry>,
    models: Seq<RegisteredModel>,
    created: u64,
) -> bool {
    exists|order: Seq<int>| #[trigger]
        sorts(order, models) && entries.len() == order.len() && forall|i: int|
            0 <= i < entries.len() ==> is_entry(
                #[trigger] entries[i],
                models[order[i]].name@,
                created,
            )
}

/// The list of the models, in the order of their names.
pub fn model_list(registry: &ModelRegistry, created: u64) -> (r: OpenAIModelList)
    requires
        registry.wf(),
    ensures
        r.object@ == "list"@,
        lists_names(r.data@, registry.models@, created),
{
    let tags = registry.list_models();
    let ghost models = registry.models@;
    let ghost order = choose|order: Seq<int>| #[trigger]
        sorts(order, models) && tags@.len() == order.len() && forall|i: int|
            0 <= i < tags@.len() ==> (#[trigger] tags@[i])@ == tag_of(models[order[i]]@);
    let mut data: Vec<OpenAIModelEntry> = Vec::new();
    let mut i: usize = 0;
    while i < tags.len()
        invariant
            tags@.len() == order.len(),
            forall|k: int|
                0 <= k < tags@.len() ==> (#[trigger] tags@[k])@ == tag_of(models[order[k]]@),
            i <= tags@.len(),
            data@.len() == i,
            forall|k: int|
                0 <= k < i ==> is_entry(#[trigger] data@[k], models[order[k]].name@, created),
        decreases tags@.len() - i,
    {
        proof {
            assert(tags@[i as int]@ == tag_of(models[order[i as int]]@));
        }
        data.push(
            OpenAIModelEntry {
                id: copy_str(tags[i].name.as_str()),
                object: "model",
                created,
                owned_by: "hypura",
            },
        );
        i = i + 1;
    }
    OpenAIModelList { object: "list", data }
}

/// The body of an answer that reports an error, with the members in the order of
/// their keys.
pub open spec fn openai_error(message: Seq<char>) -> Seq<char> {
    let inner = object_text(
        seq![
            ("code"@, quoted("model_not_found"@)),
            ("message"@, quoted(message)),
            ("type"@, quoted("invalid_request_error"@)),
        ],
    );
    object_text(seq![("error"@, inner)])
}

/// Writes the body of an answer that reports an error.
pub fn openai_error_body(message: &str) -> (r: Json)
    ensures
        r@ == openai_error(message@),
{
    let members: Vec<(&str, String)> = vec![
        ("code", quote("model_not_found")),
        ("message", quote(message)),
        ("type", quote("invalid_request_error")),
    ];
    proof {
        assert(entries_view(members@) =~= seq![
            ("code"@, quoted("model_not_found"@)),
            ("message"@, quoted(message@)),
            ("type"@, quoted("invalid_request_error"@)),
        ]);
    }
    let inner = write_object(&members);
    let ghost text = inner@;
    let outer: Vec<(&str, String)> = vec![("error", inner)];
    proof {
        assert(entries_view(outer@) =~= seq![("error"@, text)]);
    }
    Json::object(&outer)
}

// ---------------------------------------------------------------------------
// Laws of answers

/// The events of a streamed answer to a chat: who speaks, what is sent for the
/// tokens, the tool calls with the end, and the closing mark.
pub open spec fn chat_events(
    chat_id: Seq<char>,
    model: Seq<char>,
    created: u64,
    tokens: Seq<Seq<char>>,
    calls: Option<Vec<ToolCall>>,
) -> Seq<StreamEvent<ChunkView>> {
    events_before_end(chat_id, model, created, tokens) + closing_events(
        OpenAIStreamView { stream: stream_after(tokens), chat_id, model, created },
        calls,
    )
}

/// The events of a streamed answer to a chat that are sent up to the last of the
/// given tokens.
pub open spec fn events_before_end(
    chat_id: Seq<char>,
    model: Seq<char>,
    created: u64,
    tokens: Seq<Seq<char>>,
) -> Seq<StreamEvent<ChunkView>> {
    let texts = sent_texts(sendings(tokens));
    seq![StreamEvent::Part(role_chunk(chat_id, model, created))] + Seq::new(
        texts.len(),
        |i: int| StreamEvent::Part(text_chunk(chat_id, model, created, texts[i])),
    )
}

/// An event tells who speaks.
pub open spec fn tells_role(event: StreamEvent<ChunkView>) -> bool {
    event matches StreamEvent::Part(chunk) && chunk.delta.role is Some
}

/// An event tells why the answer ends.
pub open spec fn tells_end(event: StreamEvent<ChunkView>) -> bool {
    event matches StreamEvent::Part(chunk) && chunk.finish_reason is Some
}

/// An event shows tool calls.
pub open spec fn shows_calls(event: StreamEvent<ChunkView>) -> bool {
    event matches StreamEvent::Part(chunk) && chunk.delta.tool_calls is Some
}

/// A streamed answer to a chat is sent in order: first, and nowhere else, who
/// speaks; then the texts that are sent for the tokens; then one part, and one only,
/// that tells why the answer ends and alone shows tool calls, where the whole answer
/// has any; and last the closing mark.
pub proof fn law_streamed_chat_is_in_order(
    chat_id: Seq<char>,
    model: Seq<char>,
    created: u64,
    tokens: Seq<Seq<char>>,
    calls: Option<Vec<ToolCall>>,
)
    requires
        extraction(joined(tokens)) matches Some(scan) && are_calls(calls, scan.calls),
    ensures
        ({
            let events = chat_events(chat_id, model, created, tokens, calls);
            let texts = sent_texts(sendings(tokens));
            let end = texts.len() as int + 1;
            &&& events.len() == texts.len() + 3
            &&& events[0] == StreamEvent::Part(role_chunk(chat_id, model, created))
            &&& forall|i: int|
                0 <= i < texts.len() ==> events[i + 1] == StreamEvent::Part(
                    text_chunk(chat_id, model, created, #[trigger] texts[i]),
                )
            &&& events[end] == StreamEvent::Part(last_chunk(chat_id, model, created, calls))
            &&& events[end + 1] is Done
            &&& forall|i: int|
                0 <= i < events.len() ==> (tells_role(#[trigger] events[i]) <==> i == 0)
            &&& forall|i: int|
                0 <= i < events.len() ==> (tells_end(#[trigger] events[i]) <==> i == end)
            &&& forall|i: int|
                0 <= i < events.len() ==> (#[trigger] events[i] is Done <==> i == end + 1)
            &&& forall|i: int|
                0 <= i < events.len() ==> (shows_calls(#[trigger] events[i]) <==> i == end
                    && extraction(joined(tokens))->0.calls.len() > 0)
            &&& joined(texts) == streamed(tokens)
            &&& stream_after(tokens).full == joined(tokens)
        }),
{
    law_sendings_are_in_order(tokens);
    law_stream_keeps_answer(tokens);
}

/// One more token adds to the events of a stream the one that is sent for it, where
/// one is.
pub proof fn law_events_follow_tokens(
    chat_id: Seq<char>,
    model: Seq<char>,
    created: u64,
    tokens: Seq<Seq<char>>,
    token: Seq<char>,
)
    ensures
        events_before_end(chat_id, model, created, Seq::empty()) == seq![
            StreamEvent::Part(role_chunk(chat_id, model, created)),
        ],
        ({
            let before = events_before_end(chat_id, model, created, tokens);
            let after = events_before_end(chat_id, model, created, tokens.push(token));
            let state = OpenAIStreamView { stream: stream_after(tokens), chat_id, model, created };
            after == (match token_event(state, token) {
                Some(event) => before.push(event),
                None => before,
            })
        }),
{
    let none = Seq::<Seq<char>>::empty();
    assert(sendings(none) =~= Seq::<(int, Seq<char>)>::empty());
    assert(events_before_end(chat_id, model, created, none) =~= seq![
        StreamEvent::Part(role_chunk(chat_id, model, created)),
    ]);
    let all = tokens.push(token);
    assert(all.drop_last() =~= tokens);
    let before = events_before_end(chat_id, model, created, tokens);
    let after = events_before_end(chat_id, model, created, all);
    let state = OpenAIStreamView { stream: stream_after(tokens), chat_id, model, created };
    match token_event(state, token) {
        Some(event) => {
            assert(after =~= before.push(event));
        },
        None => {
            assert(after =~= before);
        },
    }
}

/// The parts of a streamed completion: one for each token and one at the end.
pub open spec fn completion_parts(
    id: Seq<char>,
    model: Seq<char>,
    created: u64,
    tokens: Seq<Seq<char>>,
) -> Seq<CompletionView> {
    Seq::new(tokens.len(), |i: int| completion_chunk(id, model, created, tokens[i], false)).push(
        completion_chunk(id, model, created, Seq::empty(), true),
    )
}

/// The events of a streamed completion: its parts and the closing mark.
pub open spec fn completion_events(
    id: Seq<char>,
    model: Seq<char>,
    created: u64,
    tokens: Seq<Seq<char>>,
) -> Seq<StreamEvent<CompletionView>> {
    let parts = completion_parts(id, model, created, tokens);
    Seq::new(parts.len(), |i: int| StreamEvent::Part(parts[i])).push(StreamEvent::Done)
}

/// A streamed completion has one part for each token and one last part without
/// text, which alone says why it ends; the closing mark comes after it, and nowhere
/// else. The texts of its parts joined are that of the whole completion.
pub proof fn law_streamed_completion_is_whole(
    id: Seq<char>,
    model: Seq<char>,
    created: u64,
    tokens: Seq<Seq<char>>,
)
    ensures
        ({
            let parts = completion_parts(id, model, created, tokens);
            let events = completion_events(id, model, created, tokens);
            let whole = completion_chunk(id, model, created, joined(tokens), true);
            &&& parts.len() == tokens.len() + 1
            &&& forall|i: int|
                0 <= i < tokens.len() ==> (#[trigger] parts[i]).finish_reason is None
                    && parts[i].text == tokens[i]
            &&& parts.last().finish_reason == Some("stop"@)
            &&& joined(Seq::new(parts.len(), |i: int| parts[i].text)) == whole.text
            &&& events.len() == parts.len() + 1
            &&& forall|i: int|
                0 <= i < parts.len() ==> events[i] == StreamEvent::Part(#[trigger] parts[i])
            &&& events.last() is Done
        }),
{
    let parts = completion_parts(id, model, created, tokens);
    let all = Seq::new(parts.len(), |i: int| parts[i].text);
    assert(all.drop_last() =~= tokens);
    assert(all.last() == Seq::<char>::empty());
    assert(joined(tokens) + Seq::<char>::empty() =~= joined(tokens));
}

} // verus!
