//! The types of the OpenAI interface.

use vstd::prelude::*;

use crate::ollama_types::option_text;

verus! {

/// A call of a function, with its arguments as a JSON text.
pub struct OpenAIFunctionCall {
    pub name: String,
    pub arguments: String,
}

/// A call of a tool.
pub struct OpenAIToolCall {
    pub id: String,
    pub call_type: String,
    pub function: OpenAIFunctionCall,
}

/// One message of a chat.
pub struct OpenAIChatMessage {
    pub role: String,
    pub content: Option<String>,
    pub tool_calls: Option<Vec<OpenAIToolCall>>,
    pub tool_call_id: Option<String>,
}

/// A request to `/v1/chat/completions`. `F` is the type of fractions.
pub struct OpenAIChatCompletionRequest<F> {
    pub model: String,
    pub messages: Vec<OpenAIChatMessage>,
    pub temperature: Option<F>,
    pub top_p: Option<F>,
    pub max_tokens: Option<u32>,
    pub stop: Option<Vec<String>>,
    pub seed: Option<u32>,
    pub presence_penalty: Option<F>,
    pub stream: bool,
    /// The tools on offer, as a JSON text.
    pub tools: Option<String>,
}

/// A request to `/v1/completions`. `F` is the type of fractions.
pub struct OpenAICompletionRequest<F> {
    pub model: String,
    pub prompt: String,
    pub temperature: Option<F>,
    pub top_p: Option<F>,
    pub max_tokens: Option<u32>,
    pub stop: Option<Vec<String>>,
    pub stream: bool,
}

/// What an answer used up.
pub struct OpenAIUsage {
    pub prompt_tokens: u32,
    pub completion_tokens: u32,
    pub total_tokens: u32,
}

/// One answer to a chat.
pub struct OpenAIChatChoice {
    pub index: u32,
    pub message: OpenAIChatMessage,
    pub finish_reason: Option<String>,
}

/// The answer of `/v1/chat/completions`.
pub struct OpenAIChatCompletionResponse {
    pub id: String,
    pub object: &'static str,
    pub created: u64,
    pub model: String,
    pub choices: Vec<OpenAIChatChoice>,
    pub usage: OpenAIUsage,
}

/// What a part of a streamed answer adds to the message.
pub struct OpenAIChatDelta {
    pub role: Option<String>,
    pub content: Option<String>,
    pub tool_calls: Option<Vec<OpenAIToolCall>>,
}

/// A part of one streamed answer.
pub struct OpenAIChatChunkChoice {
    pub index: u32,
    pub delta: OpenAIChatDelta,
    pub finish_reason: Option<String>,
}

/// A part of the streamed answer of `/v1/chat/completions`.
pub struct OpenAIChatChunkResponse {
    pub id: String,
    pub object: &'static str,
    pub created: u64,
    pub model: String,
    pub choices: Vec<OpenAIChatChunkChoice>,
}

/// An event of a streamed answer of which `C` is a part.
pub enum StreamEvent<C> {
    /// A part of the answer.
    Part(C),
    /// The closing mark.
    Done,
}

/// One completion of a prompt, or a part of it.
pub struct OpenAICompletionChoice {
    pub index: u32,
    pub text: String,
    pub finish_reason: Option<String>,
}

/// The answer of `/v1/completions`.
pub struct OpenAICompletionResponse {
    pub id: String,
    pub object: &'static str,
    pub created: u64,
    pub model: String,
    pub choices: Vec<OpenAICompletionChoice>,
    pub usage: OpenAIUsage,
}

/// A part of the streamed answer of `/v1/completions`.
pub struct OpenAICompletionChunkResponse {
    pub id: String,
    pub object: &'static str,
    pub created: u64,
    pub model: String,
    pub choices: Vec<OpenAICompletionChoice>,
}

/// An entry of the list of models.
pub struct OpenAIModelEntry {
    pub id: String,
    pub object: &'static str,
    pub created: u64,
    pub owned_by: &'static str,
}

/// The answer of `/v1/models`.
pub struct OpenAIModelList {
    pub object: &'static str,
    pub data: Vec<OpenAIModelEntry>,
}

/// The mathematical form of an [`OpenAIToolCall`].
pub struct OpenAICallView {
    pub id: Seq<char>,
    pub call_type: Seq<char>,
    pub name: Seq<char>,
    pub arguments: Seq<char>,
}

impl View for OpenAIToolCall {
    type V = OpenAICallView;

    open spec fn view(&self) -> OpenAICallView {
        OpenAICallView {
            id: self.id@,
            call_type: self.call_type@,
            name: self.function.name@,
            arguments: self.function.arguments@,
        }
    }
}

/// The mathematical form of a list of tool calls.
pub open spec fn openai_calls_view(calls: Seq<OpenAIToolCall>) -> Seq<OpenAICallView> {
    Seq::new(calls.len(), |i: int| calls[i]@)
}

/// The mathematical form of an [`OpenAIChatDelta`].
pub struct DeltaView {
    pub role: Option<Seq<char>>,
    pub content: Option<Seq<char>>,
    pub tool_calls: Option<Seq<OpenAICallView>>,
}

impl View for OpenAIChatDelta {
    type V = DeltaView;

    open spec fn view(&self) -> DeltaView {
        DeltaView {
            role: option_text(self.role),
            content: option_text(self.content),
            tool_calls: match self.tool_calls {
                Some(calls) => Some(openai_calls_view(calls@)),
                None => None,
            },
        }
    }
}

/// The mathematical form of an [`OpenAIChatChunkResponse`] with one choice.
pub struct ChunkView {
    pub id: Seq<char>,
    pub object: Seq<char>,
    pub created: u64,
    pub model: Seq<char>,
    pub index: u32,
    pub delta: DeltaView,
    pub finish_reason: Option<Seq<char>>,
}

/// A chunk has one choice, and these are its contents.
pub open spec fn is_chunk(chunk: OpenAIChatChunkResponse, contents: ChunkView) -> bool {
    &&& chunk.choices@.len() == 1
    &&& contents == ChunkView {
        id: chunk.id@,
        object: chunk.object@,
        created: chunk.created,
        model: chunk.model@,
        index: chunk.choices@[0].index,
        delta: chunk.choices@[0].delta@,
        finish_reason: option_text(chunk.choices@[0].finish_reason),
    }
}

/// The mathematical form of an answer of `/v1/completions`, or a part of one, with
/// one choice.
pub struct CompletionView {
    pub id: Seq<char>,
    pub object: Seq<char>,
    pub created: u64,
    pub model: Seq<char>,
    pub index: u32,
    pub text: Seq<char>,
    pub finish_reason: Option<Seq<char>>,
}

/// The contents of an answer whose only choice is the given one.
pub open spec fn completion_view(
    id: String,
    object: &str,
    created: u64,
    model: String,
    choice: OpenAICompletionChoice,
) -> CompletionView {
    CompletionView {
        id: id@,
        object: object@,
        created,
        model: model@,
        index: choice.index,
        text: choice.text@,
        finish_reason: option_text(choice.finish_reason),
    }
}

} // verus!
