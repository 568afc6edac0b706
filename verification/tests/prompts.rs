use hypura::chat::format_chat_prompt;
use hypura::chat::format_chatml_prompt;
use hypura::chat::format_gptoss_chat_prompt;
use hypura::chat::is_gpt_oss;
use hypura::chat::to_small_letters;
use hypura::json::Json;
use hypura::ollama_types::ChatMessage;
use hypura::ollama_types::FunctionCall;
use hypura::ollama_types::ToolCall;

fn message(role: &str, content: &str) -> ChatMessage {
    ChatMessage { role: role.into(), content: content.into(), tool_calls: None }
}

#[test]
fn test_format_chat_prompt_with_tools() {
    let messages = vec![message("user", "What is 2+2?")];
    let tools = "[{\"type\": \"function\", \"function\": {\"name\": \"calc\", \"description\": \"Evaluate math expression\"}}]";
    let prompt = format_chat_prompt(&messages, Some(tools), None);
    assert!(prompt.contains("# Tools"));
    assert!(prompt.contains("\"name\": \"calc\""));
    assert!(prompt.contains("<|im_start|>user\nWhat is 2+2?<|im_end|>\n<|im_start|>assistant\n"));

    let gpt_prompt = format_chat_prompt(&messages, Some(tools), Some("gptoss"));
    assert!(gpt_prompt.contains("<|start|>system<|message|>"));
    assert!(gpt_prompt.contains("to=functions.<function_name>"));
    assert!(gpt_prompt.contains("<|start|>user<|message|>What is 2+2?<|end|>"));
    assert!(gpt_prompt.ends_with("<|start|>assistant"));
}

#[test]
fn functions_are_listed_without_their_tools() {
    let messages = vec![message("user", "x")];
    let tools = "[{\"type\":\"function\",\"function\":{\"name\":\"f\"}},{\"name\":\"g\"}]";
    let prompt = format_chat_prompt(&messages, Some(tools), Some("llama"));
    assert!(prompt.contains("<tools>\n[\n  {\n    \"name\": \"f\"\n  },\n  {\n    \"name\": \"g\"\n  }\n]\n</tools>"));
    let prompt = format_chat_prompt(&messages, Some(tools), Some("GPT-OSS"));
    assert!(prompt.contains("```json\n[\n  {\n    \"function\": {\n      \"name\": \"f\"\n    },\n    \"type\": \"function\"\n  },\n  {\n    \"name\": \"g\"\n  }\n]\n```"));
}

#[test]
fn no_tools_means_no_listing() {
    let messages = vec![message("user", "x")];
    let bare = "<|im_start|>user\nx<|im_end|>\n<|im_start|>assistant\n";
    assert_eq!(format_chat_prompt(&messages, None, None), bare);
    assert_eq!(format_chat_prompt(&messages, Some("[]"), None), bare);
    assert_eq!(format_chat_prompt(&messages, Some("{\"a\":1}"), Some("qwen")), bare);
    assert_eq!(
        format_chat_prompt(&messages, Some("[]"), Some("OpenAI_MoE")),
        "<|start|>user<|message|>x<|end|>\n<|start|>assistant"
    );
}

#[test]
fn system_message_comes_first() {
    let messages = vec![message("user", "a"), message("system", "Be brief."), message("assistant", "b"), message("system", "ignored")];
    assert_eq!(
        format_chatml_prompt(&messages, None),
        "<|im_start|>system\nBe brief.<|im_end|>\n<|im_start|>user\na<|im_end|>\n<|im_start|>assistant\nb<|im_end|>\n<|im_start|>assistant\n"
    );
    assert_eq!(
        format_gptoss_chat_prompt(&messages, None),
        "<|start|>system<|message|>Be brief.<|end|>\n<|start|>user<|message|>a<|end|>\n<|start|>assistant<|message|>b<|return|>\n<|start|>assistant"
    );
}

#[test]
fn listings_follow_the_system_message() {
    let messages = vec![message("system", "S")];
    let prompt = format_chatml_prompt(&messages, Some("LIST"));
    assert!(prompt.starts_with("<|im_start|>system\nS\n\n# Tools\n\nYou may call one or more functions"));
    assert!(prompt.contains("<tools>\nLIST\n</tools>"));
    let prompt = format_gptoss_chat_prompt(&[], Some("LIST"));
    assert!(prompt.starts_with("<|start|>system<|message|>You are a helpful assistant.\n\nYou have access to the following functions:\n```json\nLIST\n```"));
}

#[test]
fn calls_of_the_assistant_are_written_out() {
    let call = || ToolCall {
        id: None,
        call_type: None,
        function: FunctionCall {
            name: "f\"".into(),
            arguments: Json::parse("{\"n\": 1}").unwrap(),
        },
    };
    let messages = vec![ChatMessage {
        role: "assistant".into(),
        content: String::new(),
        tool_calls: Some(vec![call(), call()]),
    }];
    let object = "<tool_call>\n{\"arguments\":{\"n\":1},\"name\":\"f\\\"\"}\n</tool_call>";
    assert_eq!(
        format_chatml_prompt(&messages, None),
        format!("<|im_start|>assistant\n{object}{object}<|im_end|>\n<|im_start|>assistant\n")
    );
    assert_eq!(
        format_gptoss_chat_prompt(&messages[..], None),
        "<|start|>assistant to=functions.f\"<|channel|>commentary<|message|>{\"n\":1}<|call|>\n<|start|>assistant to=functions.f\"<|channel|>commentary<|message|>{\"n\":1}<|call|>\n<|start|>assistant"
    );
}

#[test]
fn architectures_of_gpt_oss() {
    assert!(is_gpt_oss("gptoss"));
    assert!(is_gpt_oss("gpt-oss"));
    assert!(is_gpt_oss("openai_moe"));
    assert!(!is_gpt_oss("llama"));
    assert!(!is_gpt_oss("gpt-oss 20b"));
}

#[test]
fn texts_in_small_letters() {
    assert_eq!(to_small_letters("GPT-OSS 20B_x@[`{"), "gpt-oss 20b_x@[`{");
    assert_eq!(to_small_letters("A\u{c4}\u{130}z"), "a\u{e4}i\u{307}z");
    assert_eq!(to_small_letters(""), "");
}

#[test]
fn prompts_end_open_for_the_answer() {
    for arch in [None, Some("llama"), Some("gptoss")] {
        let prompt = format_chat_prompt(&[message("tool", "42")], None, arch);
        assert!(prompt.ends_with("<|im_start|>assistant\n") || prompt.ends_with("<|start|>assistant"));
    }
}

#[test]
fn later_messages_come_after_earlier_ones() {
    let first = [message("user", "a")];
    let both = [message("user", "a"), message("user", "b")];
    let short = format_chatml_prompt(&first, None);
    let long = format_chatml_prompt(&both, None);
    let head = short.strip_suffix("<|im_start|>assistant\n").unwrap();
    assert_eq!(long.strip_prefix(head).unwrap(), "<|im_start|>user\nb<|im_end|>\n<|im_start|>assistant\n");
}
