use hypura::json::Json;
use hypura::ollama_types::FunctionCall;
use hypura::ollama_types::GenerateOptions;
use hypura::ollama_types::GenerationStats;
use hypura::ollama_types::ModelMetadata;
use hypura::ollama_types::SamplingParams;
use hypura::ollama_types::ToolCall;
use hypura::openai::can_count;
use hypura::openai::chat_completion;
use hypura::openai::chat_options;
use hypura::openai::close_completion;
use hypura::openai::completion_options;
use hypura::openai::internal_messages;
use hypura::openai::make_completion_chunk;
use hypura::openai::make_openai_role_chunk;
use hypura::openai::model_list;
use hypura::openai::new_chat_id;
use hypura::openai::new_completion_id;
use hypura::openai::openai_error_body;
use hypura::openai::sse_done;
use hypura::openai::sse_event;
use hypura::openai::text_completion;
use hypura::openai::to_openai_calls;
use hypura::openai::whole_completion;
use hypura::openai_types::OpenAIChatCompletionRequest;
use hypura::openai_types::OpenAIChatMessage;
use hypura::openai_types::OpenAICompletionRequest;
use hypura::openai_types::OpenAIFunctionCall;
use hypura::openai_types::OpenAIToolCall;
use hypura::openai_types::StreamEvent;
use hypura::registry::Discovered;
use hypura::registry::FoundFile;
use hypura::registry::ModelRegistry;
use hypura::routes::build_sampling;
use hypura::routes::error_body;
use hypura::routes::finish_chat;
use hypura::routes::finish_generate;
use hypura::routes::health_body;
use hypura::routes::join_tokens;
use hypura::routes::make_generate_chunk;
use hypura::routes::ndjson_line;
use hypura::routes::show_model;
use hypura::routes::version_body;
use hypura::routes::whole_generate;
use hypura::routes::write_model_hint;

fn defaults() -> SamplingParams<f32> {
    SamplingParams {
        temperature: 0.8,
        top_k: 40,
        top_p: 0.9,
        repeat_penalty: 1.1,
        max_tokens: 512,
        seed: 1,
        stop_sequences: vec!["END".into()],
    }
}

fn no_options() -> GenerateOptions<f32> {
    GenerateOptions {
        temperature: None,
        top_k: None,
        top_p: None,
        repeat_penalty: None,
        num_predict: None,
        seed: None,
        stop: None,
        num_ctx: None,
    }
}

#[test]
fn defaults_stand_where_nothing_is_asked() {
    let s = build_sampling(defaults(), &no_options());
    assert_eq!(s.temperature, 0.8);
    assert_eq!(s.top_k, 40);
    assert_eq!(s.stop_sequences, vec!["END"]);
}

#[test]
fn options_take_the_place_of_defaults() {
    let opts = GenerateOptions {
        temperature: Some(0.1),
        top_k: Some(-1),
        top_p: Some(0.2),
        repeat_penalty: Some(0.3),
        num_predict: Some(9),
        seed: Some(8),
        stop: Some(vec!["a".into(), "b".into()]),
        num_ctx: Some(7),
    };
    let s = build_sampling(defaults(), &opts);
    assert_eq!(s.temperature, 0.1);
    assert_eq!(s.top_k, -1);
    assert_eq!(s.top_p, 0.2);
    assert_eq!(s.repeat_penalty, 0.3);
    assert_eq!(s.max_tokens, 9);
    assert_eq!(s.seed, 8);
    assert_eq!(s.stop_sequences, vec!["a", "b"]);
}

#[test]
fn options_of_openai_requests() {
    let req = OpenAIChatCompletionRequest {
        model: "m".into(),
        messages: vec![],
        temperature: Some(0.5),
        top_p: None,
        max_tokens: Some(3),
        stop: Some(vec!["x".into()]),
        seed: Some(4),
        presence_penalty: Some(1.5),
        stream: false,
        tools: None,
    };
    let o = chat_options(&req);
    assert_eq!(o.temperature, Some(0.5));
    assert_eq!(o.repeat_penalty, Some(1.5));
    assert_eq!(o.num_predict, Some(3));
    assert_eq!(o.seed, Some(4));
    assert_eq!(o.stop, Some(vec!["x".to_string()]));
    assert_eq!(o.top_k, None);
    assert_eq!(o.num_ctx, None);
    let req = OpenAICompletionRequest {
        model: "m".into(),
        prompt: "p".into(),
        temperature: None,
        top_p: Some(0.25),
        max_tokens: None,
        stop: None,
        stream: true,
    };
    let o = completion_options(&req);
    assert_eq!(o.top_p, Some(0.25));
    assert_eq!(o.repeat_penalty, None);
    assert_eq!(o.seed, None);
    assert_eq!(o.stop, None);
}

#[test]
fn messages_of_openai_requests() {
    let call = |arguments: &str| OpenAIToolCall {
        id: "i".into(),
        call_type: "function".into(),
        function: OpenAIFunctionCall { name: "f".into(), arguments: arguments.into() },
    };
    let messages = vec![
        OpenAIChatMessage { role: "user".into(), content: Some("hi".into()), tool_calls: None, tool_call_id: None },
        OpenAIChatMessage {
            role: "assistant".into(),
            content: None,
            tool_calls: Some(vec![call("{ \"a\" : 1 }"), call("not json")]),
            tool_call_id: None,
        },
    ];
    let own = internal_messages(&messages);
    assert_eq!(own.len(), 2);
    assert_eq!(own[0].role, "user");
    assert_eq!(own[0].content, "hi");
    assert!(own[0].tool_calls.is_none());
    assert_eq!(own[1].content, "");
    let calls = own[1].tool_calls.as_ref().unwrap();
    assert_eq!(calls[0].id.as_deref(), Some("i"));
    assert_eq!(calls[0].call_type.as_deref(), Some("function"));
    assert_eq!(calls[0].function.name, "f");
    assert_eq!(calls[0].function.arguments.text(), "{\"a\":1}");
    assert_eq!(calls[1].function.arguments.text(), "\"not json\"");
}

fn tool_call(id: Option<&str>) -> ToolCall {
    ToolCall {
        id: id.map(|s| s.to_string()),
        call_type: None,
        function: FunctionCall { name: "f".into(), arguments: Json::parse("{\"k\": [1, 2]}").unwrap() },
    }
}

#[test]
fn calls_without_identifier_get_one() {
    let calls = to_openai_calls(&vec![tool_call(Some("own")), tool_call(None)], "chat");
    assert_eq!(calls[0].id, "own");
    assert_eq!(calls[1].id, "call_chat_1");
    assert_eq!(calls[1].call_type, "function");
    assert_eq!(calls[1].function.arguments, "{\"k\":[1,2]}");
}

const STATS: GenerationStats = GenerationStats {
    prompt_tokens: 5,
    prompt_eval_duration: 50,
    tokens_generated: 6,
    eval_duration: 60,
};

#[test]
fn usage_adds_up() {
    let r = chat_completion("id".into(), 9, "m".into(), "text".into(), Some(vec![tool_call(None)]), Some(STATS));
    assert_eq!(r.id, "id");
    assert_eq!(r.object, "chat.completion");
    assert_eq!(r.created, 9);
    assert_eq!(r.model, "m");
    assert_eq!(r.choices.len(), 1);
    assert_eq!(r.choices[0].index, 0);
    assert_eq!(r.choices[0].message.role, "assistant");
    assert_eq!(r.choices[0].message.content.as_deref(), Some("text"));
    assert_eq!(r.choices[0].message.tool_calls.as_ref().unwrap()[0].id, "call_id_0");
    assert_eq!(r.choices[0].message.tool_call_id, None);
    assert_eq!(r.choices[0].finish_reason.as_deref(), Some("stop"));
    assert_eq!(r.usage.prompt_tokens, 5);
    assert_eq!(r.usage.completion_tokens, 6);
    assert_eq!(r.usage.total_tokens, 11);
    let r = text_completion("id".into(), 9, "m".into(), "text".into(), None);
    assert_eq!(r.object, "text_completion");
    assert_eq!(r.choices[0].text, "text");
    assert_eq!(r.choices[0].finish_reason.as_deref(), Some("stop"));
    assert_eq!(r.usage.total_tokens, 0);
}

#[test]
fn tokens_that_cannot_be_counted_together() {
    assert!(can_count(&None));
    assert!(can_count(&Some(STATS)));
    assert!(can_count(&Some(GenerationStats { prompt_tokens: u32::MAX - 6, ..STATS })));
    assert!(!can_count(&Some(GenerationStats { prompt_tokens: u32::MAX - 5, ..STATS })));
}

#[test]
fn parts_of_completions() {
    let part = make_completion_chunk("id", "m", 9, "x".into(), false);
    assert_eq!(part.object, "text_completion");
    assert_eq!(part.choices[0].text, "x");
    assert_eq!(part.choices[0].finish_reason, None);
    let end = make_completion_chunk("id", "m", 9, String::new(), true);
    assert_eq!(end.choices[0].finish_reason.as_deref(), Some("stop"));
    let role = make_openai_role_chunk("id", "m", 9);
    assert_eq!(role.choices[0].delta.role.as_deref(), Some("assistant"));
    assert_eq!(role.choices[0].delta.content, None);
}

#[test]
fn frames_of_streams() {
    assert_eq!(ndjson_line("{}"), "{}\n");
    assert_eq!(sse_event("{}"), "data: {}\n\n");
    assert_eq!(sse_done(), "data: [DONE]\n\n");
}

#[test]
fn answers_to_generate() {
    let part = make_generate_chunk("m".into(), "t".into(), "x".into());
    assert_eq!(part.response, "x");
    assert!(!part.done);
    assert_eq!(part.total_duration, None);
    let end = finish_generate("m".into(), "t".into(), "all".into(), 1, 2, Some(STATS));
    assert_eq!(end.response, "all");
    assert!(end.done);
    assert_eq!(end.done_reason.as_deref(), Some("stop"));
    assert_eq!(end.total_duration, Some(1));
    assert_eq!(end.load_duration, Some(2));
    assert_eq!(end.prompt_eval_count, Some(5));
    assert_eq!(end.prompt_eval_duration, Some(50));
    assert_eq!(end.eval_count, Some(6));
    assert_eq!(end.eval_duration, Some(60));
    let end = finish_generate("m".into(), "t".into(), "all".into(), 1, 2, None);
    assert_eq!(end.eval_count, None);
    let chat = finish_chat("m".into(), "t".into(), "c".into(), Some(vec![tool_call(None)]), 1, 2, None);
    assert_eq!(chat.message.content, "c");
    assert_eq!(chat.message.tool_calls.unwrap().len(), 1);
    assert_eq!(join_tokens(&vec!["a".into(), "".into(), "bc".into()]), "abc");
}

#[test]
fn streamed_answers_are_whole() {
    let tokens: Vec<String> = vec!["a".into(), "".into(), "bc".into()];
    let mut parts: Vec<String> = tokens
        .iter()
        .map(|t| make_generate_chunk("m".into(), "t".into(), t.clone()).response)
        .collect();
    parts.push(finish_generate("m".into(), "t".into(), String::new(), 1, 2, None).response);
    assert_eq!(parts.concat(), finish_generate("m".into(), "t".into(), join_tokens(&tokens), 1, 2, None).response);
    let mut texts: Vec<String> = tokens
        .iter()
        .map(|t| make_completion_chunk("id", "m", 9, t.clone(), false).choices[0].text.clone())
        .collect();
    texts.push(make_completion_chunk("id", "m", 9, String::new(), true).choices[0].text.clone());
    let end = close_completion("id", "m", 9);
    assert_eq!(end.len(), 2);
    match &end[0] {
        StreamEvent::Part(chunk) => {
            assert_eq!(chunk.choices[0].text, "");
            assert_eq!(chunk.choices[0].finish_reason.as_deref(), Some("stop"));
        }
        StreamEvent::Done => panic!("the last part comes first"),
    }
    assert!(matches!(end[1], StreamEvent::Done));
    assert_eq!(texts.concat(), "abc");
    assert_eq!(whole_generate(&tokens, "m".into(), "t".into(), 1, 2, None).response, "abc");
    assert_eq!(whole_completion(&tokens, "id".into(), 9, "m".into(), None).choices[0].text, "abc");
}

#[test]
fn bodies_of_errors() {
    assert_eq!(error_body("a \"b\"").text(), "{\"error\":\"a \\\"b\\\"\"}");
    assert_eq!(
        openai_error_body("gone").text(),
        "{\"error\":{\"code\":\"model_not_found\",\"message\":\"gone\",\"type\":\"invalid_request_error\"}}"
    );
    assert_eq!(health_body().text(), "{\"status\":\"ok\"}");
    assert_eq!(version_body("0.2.2").text(), "{\"version\":\"0.2.2\"}");
}

#[test]
fn identifiers_of_answers() {
    let chat = new_chat_id();
    assert!(u128::from_str_radix(chat.strip_prefix("chatcmpl-").unwrap(), 16).is_ok());
    let completion = new_completion_id();
    assert!(u128::from_str_radix(completion.strip_prefix("cmpl-").unwrap(), 16).is_ok());
}

#[test]
fn hints_name_the_model() {
    assert_eq!(write_model_hint("llama", "a", "b", "{{x}}"), "llama a b {{x}}");
}

fn registry() -> ModelRegistry {
    let model = |path: &str| FoundFile {
        path: path.into(),
        size: 5,
        metadata: ModelMetadata {
            architecture: "qwen".into(),
            parameter_count: 500_000_000,
            quantization: None,
            context_length: 2048,
        },
    };
    ModelRegistry::new(None, None, Discovered { custom: vec![], local: vec![model("/b.gguf"), model("/a.gguf")], ollama: vec![] })
}

#[test]
fn models_are_shown() {
    let r = registry();
    let shown = show_model(&r, "a", false).ok().unwrap();
    assert_eq!(shown.details.format, "gguf");
    assert_eq!(shown.details.family, "qwen");
    assert_eq!(shown.details.parameter_size, "500M");
    assert_eq!(shown.details.quantization_level, "unknown");
    assert_eq!(
        shown.model_info.text(),
        "{\"general.architecture\":\"qwen\",\"general.context_length\":2048,\"general.parameter_count\":500000000}"
    );
    assert_eq!(show_model(&r, "zz", false).err().unwrap(), "model 'zz' not found");
}

#[test]
fn models_of_the_openai_interface() {
    let list = model_list(&registry(), 77);
    assert_eq!(list.object, "list");
    let ids: Vec<&str> = list.data.iter().map(|e| e.id.as_str()).collect();
    assert_eq!(ids, vec!["a", "b"]);
    assert_eq!(list.data[0].object, "model");
    assert_eq!(list.data[0].created, 77);
    assert_eq!(list.data[0].owned_by, "hypura");
}
