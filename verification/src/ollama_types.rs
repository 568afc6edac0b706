//! The types of the Ollama interface: chats, tool calls, models and answers.

use vstd::prelude::*;

use crate::json::Json;
use crate::number::format_parameter_size;
use crate::number::parameter_size;
use crate::text::copy_str;

verus! {

/// A call of a function, with its arguments as JSON.
pub struct FunctionCall {
    pub name: String,
    pub arguments: Json,
}

/// A call of a tool, as clients see it.
pub struct ToolCall {
    pub id: Option<String>,
    pub call_type: Option<String>,
    pub function: FunctionCall,
}

/// One message of a chat.
pub struct ChatMessage {
    pub role: String,
    pub content: String,
    pub tool_calls: Option<Vec<ToolCall>>,
}

/// The mathematical form of a [`FunctionCall`].
pub struct CallView {
    pub name: Seq<char>,
    pub arguments: Seq<char>,
}

/// The mathematical form of a [`ChatMessage`]: role, content, and the function
/// calls of an assistant.
pub struct MessageView {
    pub role: Seq<char>,
    pub content: Seq<char>,
    pub calls: Option<Seq<CallView>>,
}

impl View for FunctionCall {
    type V = CallView;

    open spec fn view(&self) -> CallView {
        CallView { name: self.name@, arguments: self.arguments@ }
    }
}

/// The mathematical form of a [`ToolCall`].
pub struct ToolCallView {
    pub id: Option<Seq<char>>,
    pub call_type: Option<Seq<char>>,
    pub function: CallView,
}

impl View for ToolCall {
    type V = ToolCallView;

    open spec fn view(&self) -> ToolCallView {
        ToolCallView {
            id: option_text(self.id),
            call_type: option_text(self.call_type),
            function: self.function@,
        }
    }
}

/// The text of an optional string.
pub open spec fn option_text(s: Option<String>) -> Option<Seq<char>> {
    match s {
        Some(t) => Some(t@),
        None => None,
    }
}

/// The mathematical form of a list of function calls.
pub open spec fn calls_view(calls: Seq<FunctionCall>) -> Seq<CallView> {
    Seq::new(calls.len(), |i: int| calls[i]@)
}

/// The functions that a list of tool calls calls.
pub open spec fn functions_view(calls: Seq<ToolCall>) -> Seq<CallView> {
    Seq::new(calls.len(), |i: int| calls[i].function@)
}

impl View for ChatMessage {
    type V = MessageView;

    open spec fn view(&self) -> MessageView {
        MessageView {
            role: self.role@,
            content: self.content@,
            calls: match self.tool_calls {
                Some(calls) => Some(functions_view(calls@)),
                None => None,
            },
        }
    }
}

/// The mathematical form of a list of messages.
pub open spec fn messages_view(messages: Seq<ChatMessage>) -> Seq<MessageView> {
    Seq::new(messages.len(), |i: int| messages[i]@)
}

/// A copy of an optional string.
pub fn copy_option(s: &Option<String>) -> (r: Option<String>)
    ensures
        option_text(r) == option_text(*s),
{
    match s {
        Some(t) => Some(copy_str(t.as_str())),
        None => None,
    }
}

// ---------------------------------------------------------------------------
// Models

/// What a model file says of itself.
pub struct ModelMetadata {
    pub architecture: String,
    pub parameter_count: u64,
    pub quantization: Option<String>,
    pub context_length: u32,
}

impl ModelMetadata {
    /// A copy.
    pub fn copy(&self) -> (r: Self)
        ensures
            r.architecture@ == self.architecture@,
            r.parameter_count == self.parameter_count,
            option_text(r.quantization) == option_text(self.quantization),
            r.context_length == self.context_length,
    {
        ModelMetadata {
            architecture: copy_str(self.architecture.as_str()),
            parameter_count: self.parameter_count,
            quantization: copy_option(&self.quantization),
            context_length: self.context_length,
        }
    }
}

/// What is reported of a model file.
pub struct GgufInfo {
    pub file_size: u64,
    pub architecture: String,
    pub parameter_count: u64,
    pub quantization: String,
    pub context_length: u32,
}

/// What is shown of a model.
pub struct ModelDetails {
    pub format: String,
    pub family: String,
    pub parameter_size: String,
    pub quantization_level: String,
}

/// An entry of the list of models.
pub struct ModelTag {
    pub name: String,
    pub model: String,
    pub size: u64,
    pub details: ModelDetails,
}

/// A model that is loaded.
pub struct ProcessModel {
    pub name: String,
    pub model: String,
    pub size: u64,
    pub digest: String,
    pub details: ModelDetails,
    pub expires_at: String,
    pub size_vram: u64,
    pub context_size: u32,
}

/// The mathematical form of a [`GgufInfo`].
pub struct InfoView {
    pub file_size: u64,
    pub architecture: Seq<char>,
    pub parameter_count: u64,
    pub quantization: Seq<char>,
    pub context_length: u32,
}

/// The mathematical form of [`ModelDetails`].
pub struct DetailsView {
    pub format: Seq<char>,
    pub family: Seq<char>,
    pub parameter_size: Seq<char>,
    pub quantization_level: Seq<char>,
}

/// The mathematical form of a [`ModelTag`].
pub struct TagView {
    pub name: Seq<char>,
    pub model: Seq<char>,
    pub size: u64,
    pub details: DetailsView,
}

/// The mathematical form of a [`ProcessModel`].
pub struct ProcessView {
    pub name: Seq<char>,
    pub model: Seq<char>,
    pub size: u64,
    pub digest: Seq<char>,
    pub details: DetailsView,
    pub expires_at: Seq<char>,
    pub size_vram: u64,
    pub context_size: u32,
}

impl View for GgufInfo {
    type V = InfoView;

    open spec fn view(&self) -> InfoView {
        InfoView {
            file_size: self.file_size,
            architecture: self.architecture@,
            parameter_count: self.parameter_count,
            quantization: self.quantization@,
            context_length: self.context_length,
        }
    }
}

impl View for ModelDetails {
    type V = DetailsView;

    open spec fn view(&self) -> DetailsView {
        DetailsView {
            format: self.format@,
            family: self.family@,
            parameter_size: self.parameter_size@,
            quantization_level: self.quantization_level@,
        }
    }
}

impl View for ModelTag {
    type V = TagView;

    open spec fn view(&self) -> TagView {
        TagView {
            name: self.name@,
            model: self.model@,
            size: self.size,
            details: self.details@,
        }
    }
}

impl View for ProcessModel {
    type V = ProcessView;

    open spec fn view(&self) -> ProcessView {
        ProcessView {
            name: self.name@,
            model: self.model@,
            size: self.size,
            digest: self.digest@,
            details: self.details@,
            expires_at: self.expires_at@,
            size_vram: self.size_vram,
            context_size: self.context_size,
        }
    }
}

/// What is shown of a model file.
pub open spec fn details_of(info: InfoView) -> DetailsView {
    DetailsView {
        format: "gguf"@,
        family: info.architecture,
        parameter_size: parameter_size(info.parameter_count as nat),
        quantization_level: info.quantization,
    }
}

impl GgufInfo {
    /// A copy.
    pub fn copy(&self) -> (r: Self)
        ensures
            r@ == self@,
    {
        GgufInfo {
            file_size: self.file_size,
            architecture: copy_str(self.architecture.as_str()),
            parameter_count: self.parameter_count,
            quantization: copy_str(self.quantization.as_str()),
            context_length: self.context_length,
        }
    }

    /// What is shown of the model.
    pub fn details(&self) -> (r: ModelDetails)
        ensures
            r@ == details_of(self@),
    {
        ModelDetails {
            format: copy_str("gguf"),
            family: copy_str(self.architecture.as_str()),
            parameter_size: format_parameter_size(self.parameter_count),
            quantization_level: copy_str(self.quantization.as_str()),
        }
    }
}

// ---------------------------------------------------------------------------
// Answers

/// What a model used up to write an answer; durations are in nanoseconds.
#[derive(Clone, Copy)]
pub struct GenerationStats {
    pub prompt_tokens: u32,
    pub prompt_eval_duration: u64,
    pub tokens_generated: u32,
    pub eval_duration: u64,
}

/// An answer to `/api/generate`, or a part of one.
pub struct GenerateResponseChunk {
    pub model: String,
    pub created_at: String,
    pub response: String,
    pub done: bool,
    pub done_reason: Option<String>,
    pub total_duration: Option<u64>,
    pub load_duration: Option<u64>,
    pub prompt_eval_count: Option<u32>,
    pub prompt_eval_duration: Option<u64>,
    pub eval_count: Option<u32>,
    pub eval_duration: Option<u64>,
}

/// The mathematical form of a [`GenerateResponseChunk`].
pub struct PartView {
    pub model: Seq<char>,
    pub created_at: Seq<char>,
    pub response: Seq<char>,
    pub done: bool,
    pub done_reason: Option<Seq<char>>,
    pub total_duration: Option<u64>,
    pub load_duration: Option<u64>,
    pub prompt_eval_count: Option<u32>,
    pub prompt_eval_duration: Option<u64>,
    pub eval_count: Option<u32>,
    pub eval_duration: Option<u64>,
}

impl View for GenerateResponseChunk {
    type V = PartView;

    open spec fn view(&self) -> PartView {
        PartView {
            model: self.model@,
            created_at: self.created_at@,
            response: self.response@,
            done: self.done,
            done_reason: option_text(self.done_reason),
            total_duration: self.total_duration,
            load_duration: self.load_duration,
            prompt_eval_count: self.prompt_eval_count,
            prompt_eval_duration: self.prompt_eval_duration,
            eval_count: self.eval_count,
            eval_duration: self.eval_duration,
        }
    }
}

/// An answer to `/api/chat`, or a part of one.
pub struct ChatResponseChunk {
    pub model: String,
    pub created_at: String,
    pub message: ChatMessage,
    pub done: bool,
    pub done_reason: Option<String>,
    pub total_duration: Option<u64>,
    pub load_duration: Option<u64>,
    pub prompt_eval_count: Option<u32>,
    pub prompt_eval_duration: Option<u64>,
    pub eval_count: Option<u32>,
    pub eval_duration: Option<u64>,
}

/// The mathematical form of a [`ChatResponseChunk`].
pub struct ChatPartView {
    pub model: Seq<char>,
    pub created_at: Seq<char>,
    pub message: MessageView,
    pub done: bool,
    pub done_reason: Option<Seq<char>>,
    pub total_duration: Option<u64>,
    pub load_duration: Option<u64>,
    pub prompt_eval_count: Option<u32>,
    pub prompt_eval_duration: Option<u64>,
    pub eval_count: Option<u32>,
    pub eval_duration: Option<u64>,
}

impl View for ChatResponseChunk {
    type V = ChatPartView;

    open spec fn view(&self) -> ChatPartView {
        ChatPartView {
            model: self.model@,
            created_at: self.created_at@,
            message: self.message@,
            done: self.done,
            done_reason: option_text(self.done_reason),
            total_duration: self.total_duration,
            load_duration: self.load_duration,
            prompt_eval_count: self.prompt_eval_count,
            prompt_eval_duration: self.prompt_eval_duration,
            eval_count: self.eval_count,
            eval_duration: self.eval_duration,
        }
    }
}

/// What `/api/show` tells of a model.
pub struct ShowResponse {
    pub details: ModelDetails,
    pub model_info: Json,
}

/// How a request wants its answer to be generated. `F` is the type of fractions.
pub struct GenerateOptions<F> {
    pub temperature: Option<F>,
    pub top_k: Option<i32>,
    pub top_p: Option<F>,
    pub repeat_penalty: Option<F>,
    pub num_predict: Option<u32>,
    pub seed: Option<u32>,
    pub stop: Option<Vec<String>>,
    pub num_ctx: Option<u32>,
}

/// How an answer is generated. `F` is the type of fractions.
pub struct SamplingParams<F> {
    pub temperature: F,
    pub top_k: i32,
    pub top_p: F,
    pub repeat_penalty: F,
    pub max_tokens: u32,
    pub seed: u32,
    pub stop_sequences: Vec<String>,
}

} // verus!
