use hypura::ollama_types::GenerationStats;
use hypura::openai::finish_openai_stream;
use hypura::openai::push_openai_token;
use hypura::openai::whole_chat_completion;
use hypura::openai::OpenAIChatStream;
use hypura::openai_types::OpenAIChatChunkResponse;
use hypura::openai_types::StreamEvent;
use hypura::routes::finish_chat_stream;
use hypura::routes::push_chat_token;
use hypura::routes::whole_chat;
use hypura::streaming::ChatStream;

fn stream(tokens: &[&str]) -> (Vec<String>, ChatStream) {
    let mut s = ChatStream::new();
    let sent = tokens.iter().filter_map(|t| s.push(t)).collect();
    (sent, s)
}

fn sent(tokens: &[&str]) -> Vec<String> {
    stream(tokens).0
}

#[test]
fn plain_answers_stream_token_by_token() {
    assert_eq!(sent(&["Hi", " there", "", "!"]), vec!["Hi", " there", "", "!"]);
}

#[test]
fn thoughts_are_not_streamed() {
    assert_eq!(sent(&["<think>", "a", "b</think>", "\n\nYes", " sir"]), vec!["\n\nYes", " sir"]);
    assert_eq!(sent(&["<think>x</think> Yes"]), vec!["Yes"]);
    assert_eq!(sent(&["<|channel>thought", "\nx<channel|>", "Y"]), vec!["Y"]);
    assert_eq!(sent(&["<thought>", "x"]), Vec::<String>::new());
}

#[test]
fn tool_calls_are_not_streamed() {
    for first in ["<tool_call>", "<|tool_call>call:f{}", "```json\n", "[TOOL_CALLS]", "to=functions.f", "call:f{}", "to=other"] {
        assert_eq!(sent(&[first, "more", "text"]), Vec::<String>::new());
    }
    assert_eq!(sent(&["{\"na", "me\": \"f\"", "}"]), Vec::<String>::new());
    assert_eq!(sent(&["[{\"name\"", ":1}]"]), Vec::<String>::new());
}

#[test]
fn a_call_after_a_thought_is_not_streamed() {
    let (sent, s) = stream(&["<|channel>thought\nhmm<channel|>", "<|tool_call>call:f{}", "<tool_call|>"]);
    assert_eq!(sent, Vec::<String>::new());
    let calls = s.finish().unwrap().unwrap();
    assert_eq!(calls.len(), 1);
    assert_eq!(calls[0].function.name, "f");
    let (sent, _) = stream(&["<think>", "x</think>", "\n\n", " ", "<tool_call>{}", "</tool_call>"]);
    assert_eq!(sent, Vec::<String>::new());
    let (sent, _) = stream(&["<think>x</think>", "\n", "Yes"]);
    assert_eq!(sent, vec!["\nYes"]);
    let (sent, _) = stream(&["<think>a</think>", "<think>b</think>", "Yes"]);
    assert_eq!(sent, vec!["Yes"]);
}

#[test]
fn blank_beginnings_are_sent() {
    assert_eq!(sent(&["\n", "Hi"]), vec!["\n", "Hi"]);
}

#[test]
fn headers_are_dropped() {
    assert_eq!(sent(&["<|start|>assistant to=user", "<|message|>", "Hi", "!"]), vec!["Hi", "!"]);
    assert_eq!(sent(&["<|channel|>final<|message|>Hi"]), vec!["Hi"]);
    assert_eq!(sent(&["to=user", "\nHi", " all"]), vec!["Hi", " all"]);
}

#[test]
fn what_may_become_a_call_is_held_back() {
    assert_eq!(sent(&["{"]), Vec::<String>::new());
    assert_eq!(sent(&["{", "\"a\": 1, \"b\": 2, \"c\": 3, \"ddddd\"", ": 4}"]), vec!["{\"a\": 1, \"b\": 2, \"c\": 3, \"ddddd\"", ": 4}"]);
    assert_eq!(sent(&["<|x|>"]), Vec::<String>::new());
    assert_eq!(sent(&["<|\u{e9}\u{e9}\u{e9}\u{e9}\u{e9}\u{e9}\u{e9}\u{e9}\u{e9}\u{e9}\u{e9}\u{e9}\u{e9}\u{e9}"]), Vec::<String>::new());
    assert_eq!(sent(&["<|\u{e9}\u{e9}\u{e9}\u{e9}\u{e9}\u{e9}\u{e9}\u{e9}\u{e9}\u{e9}\u{e9}\u{e9}\u{e9}\u{e9}a"]).len(), 1);
}

#[test]
fn whole_answers_are_kept() {
    let (_, s) = stream(&["<think>", "x</think>", "<tool_call>{\"name\":\"f\",\"arguments\":{}}", "</tool_call>"]);
    assert_eq!(s.full_text(), "<think>x</think><tool_call>{\"name\":\"f\",\"arguments\":{}}</tool_call>");
    let calls = s.finish().unwrap().unwrap();
    assert_eq!(calls.len(), 1);
    assert_eq!(calls[0].function.name, "f");
    assert!(stream(&["Hi"]).1.finish().unwrap().is_none());
    assert!(stream(&["<function=f>"]).1.finish().is_none());
}

#[test]
fn parts_of_ollama_answers() {
    let mut s = ChatStream::new();
    let part = push_chat_token(&mut s, "m", "now".into(), "Hi").unwrap();
    assert_eq!(part.model, "m");
    assert_eq!(part.created_at, "now");
    assert_eq!(part.message.role, "assistant");
    assert_eq!(part.message.content, "Hi");
    assert!(part.message.tool_calls.is_none());
    assert!(!part.done);
    assert_eq!(part.done_reason, None);
    assert_eq!(part.eval_count, None);
    let stats = GenerationStats { prompt_tokens: 3, prompt_eval_duration: 30, tokens_generated: 4, eval_duration: 40 };
    let end = finish_chat_stream(s, "m".into(), "later".into(), 100, 0, Some(stats)).unwrap();
    assert!(end.done);
    assert_eq!(end.done_reason.as_deref(), Some("stop"));
    assert_eq!(end.message.content, "");
    assert!(end.message.tool_calls.is_none());
    assert_eq!(end.total_duration, Some(100));
    assert_eq!(end.load_duration, Some(0));
    assert_eq!(end.prompt_eval_count, Some(3));
    assert_eq!(end.prompt_eval_duration, Some(30));
    assert_eq!(end.eval_count, Some(4));
    assert_eq!(end.eval_duration, Some(40));
    assert!(push_chat_token(&mut ChatStream::new(), "m", "now".into(), "<tool_call>").is_none());
}

#[test]
fn parts_of_openai_answers() {
    let mut s = ChatStream::new();
    let part = push_openai_token(&mut s, "id", "m", 7, "Hi").unwrap();
    assert_eq!(part.id, "id");
    assert_eq!(part.object, "chat.completion.chunk");
    assert_eq!(part.created, 7);
    assert_eq!(part.model, "m");
    assert_eq!(part.choices.len(), 1);
    assert_eq!(part.choices[0].index, 0);
    assert_eq!(part.choices[0].delta.content.as_deref(), Some("Hi"));
    assert_eq!(part.choices[0].delta.role, None);
    assert_eq!(part.choices[0].finish_reason, None);
    let end = finish_openai_stream(&s, "id", "m", 7).unwrap();
    assert_eq!(end.choices[0].finish_reason.as_deref(), Some("stop"));
    assert_eq!(end.choices[0].delta.content, None);
    assert!(end.choices[0].delta.tool_calls.is_none());

    let mut s = ChatStream::new();
    assert!(push_openai_token(&mut s, "id", "m", 7, "<tool_call>{\"name\":\"f\",\"arguments\":{\"a\":1}}</tool_call>").is_none());
    let end = finish_openai_stream(&s, "id", "m", 7).unwrap();
    assert_eq!(end.choices[0].finish_reason.as_deref(), Some("tool_calls"));
    let calls = end.choices[0].delta.tool_calls.as_ref().unwrap();
    assert_eq!(calls.len(), 1);
    assert_eq!(calls[0].call_type, "function");
    assert_eq!(calls[0].function.name, "f");
    assert_eq!(calls[0].function.arguments, "{\"a\":1}");
    assert!(calls[0].id.starts_with("call_"));
}

fn events(tokens: &[&str]) -> Vec<StreamEvent<OpenAIChatChunkResponse>> {
    let (mut s, first) = OpenAIChatStream::open("id".into(), "m".into(), 7);
    let mut out = vec![first];
    for t in tokens {
        out.extend(s.push(t));
    }
    out.extend(s.close().unwrap());
    out
}

fn described(event: &StreamEvent<OpenAIChatChunkResponse>) -> String {
    match event {
        StreamEvent::Part(chunk) => {
            assert_eq!((chunk.id.as_str(), chunk.model.as_str(), chunk.created), ("id", "m", 7));
            assert_eq!(chunk.choices.len(), 1);
            let choice = &chunk.choices[0];
            let calls = choice.delta.tool_calls.as_ref().map_or(0, |c| c.len());
            format!("{:?} {:?} {} {:?}", choice.delta.role, choice.delta.content, calls, choice.finish_reason)
        }
        StreamEvent::Done => "done".into(),
    }
}

#[test]
fn openai_chats_are_streamed_in_order() {
    let all: Vec<String> = events(&["<think>x</think>", "Hi", "!"]).iter().map(described).collect();
    assert_eq!(
        all,
        vec![
            "Some(\"assistant\") None 0 None",
            "None Some(\"Hi\") 0 None",
            "None Some(\"!\") 0 None",
            "None None 0 Some(\"stop\")",
            "done",
        ]
    );
    let all: Vec<String> = events(&["<tool_call>", "{\"name\":\"f\"}", "</tool_call>"]).iter().map(described).collect();
    assert_eq!(
        all,
        vec!["Some(\"assistant\") None 0 None", "None None 1 Some(\"tool_calls\")", "done"]
    );
    assert_eq!(events(&[]).len(), 3);
    let (mut s, _) = OpenAIChatStream::open("id".into(), "m".into(), 7);
    s.push("<function=f>");
    assert!(s.close().is_none());
}

#[test]
fn ollama_chats_are_streamed_in_order() {
    let tokens = ["<think>", "x</think>", "Hi", "!", "<tool_call>{\"name\":\"f\"}</tool_call>"];
    let mut s = ChatStream::new();
    let mut parts = Vec::new();
    for (i, t) in tokens.iter().enumerate() {
        parts.extend(push_chat_token(&mut s, "m", i.to_string(), t));
    }
    parts.extend(finish_chat_stream(s, "m".into(), "end".into(), 9, 0, None));
    let times: Vec<&str> = parts.iter().map(|p| p.created_at.as_str()).collect();
    assert_eq!(times, vec!["2", "3", "4", "end"]);
    let done: Vec<bool> = parts.iter().map(|p| p.done).collect();
    assert_eq!(done, vec![false, false, false, true]);
    assert_eq!(parts[3].message.content, "");
    assert_eq!(parts[3].message.tool_calls.as_ref().unwrap().len(), 1);
    assert_eq!(parts[3].eval_count, None);
}

fn texts(tokens: &[&str]) -> Vec<String> {
    tokens.iter().map(|t| t.to_string()).collect()
}

#[test]
fn whole_chats_are_taken_apart() {
    let tokens = texts(&["<think>x</think> A", " <tool_call>{\"name\":\"f\",\"arguments\":{\"a\":1}}", "</tool_call> B "]);
    let stats = GenerationStats { prompt_tokens: 3, prompt_eval_duration: 30, tokens_generated: 4, eval_duration: 40 };
    let answer = whole_chat_completion(&tokens, "id".into(), 7, "m".into(), Some(stats)).unwrap();
    assert_eq!((answer.id.as_str(), answer.model.as_str(), answer.created), ("id", "m", 7));
    assert_eq!(answer.choices.len(), 1);
    assert_eq!(answer.choices[0].message.content.as_deref(), Some("A  B"));
    let calls = answer.choices[0].message.tool_calls.as_ref().unwrap();
    assert_eq!(calls.len(), 1);
    assert_eq!(calls[0].function.arguments, "{\"a\":1}");
    assert_eq!(answer.usage.total_tokens, 7);

    let answer = whole_chat(&tokens, "m".into(), "now".into(), 9, 0, Some(stats)).unwrap();
    assert!(answer.done);
    assert_eq!(answer.message.content, "A  B");
    assert_eq!(answer.message.tool_calls.unwrap()[0].function.name, "f");
    assert_eq!((answer.total_duration, answer.load_duration, answer.eval_count), (Some(9), Some(0), Some(4)));

    let broken = texts(&["<function=", "f>"]);
    assert!(whole_chat_completion(&broken, "id".into(), 7, "m".into(), None).is_none());
    assert!(whole_chat(&broken, "m".into(), "now".into(), 9, 0, None).is_none());
}
