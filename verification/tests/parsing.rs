use hypura::call_syntax::find_matching_brace;
use hypura::call_syntax::parse_gemma_call;
use hypura::call_syntax::parse_json_tool_call;
use hypura::call_syntax::parse_simple_kv;
use hypura::call_syntax::quote_unquoted_keys;
use hypura::call_syntax::read_value;
use hypura::call_syntax::value_or_string;
use hypura::chat::format_chatml_prompt;
use hypura::cleaning::strip_channel_tags;
use hypura::json::Json;
use hypura::ollama_types::ChatMessage;
use hypura::ollama_types::FunctionCall;
use hypura::ollama_types::ToolCall;
use hypura::text::chars_of;
use hypura::text::string_of;
use hypura::tool_calls::parse_tool_calls;
use hypura::tool_calls::push_calls;
use hypura::tool_calls::try_parse_tool_calls;
use serde_json::Value;

fn arguments(call: &ToolCall) -> Value {
    serde_json::from_str(call.function.arguments.text()).unwrap()
}

#[test]
fn test_parse_gptoss_tool_call() {
    let raw = "<|channel|>thought\nNeed station data\n<|end|><|start|>assistant to=functions.get_station_data<|channel|>commentary<|message|>{\"station_id\": 104, \"sensor\": \"temperature\"}<|call|>";
    let (content, tool_calls) = parse_tool_calls(raw);
    assert_eq!(content, "");
    assert!(tool_calls.is_some());
    let tcs = tool_calls.unwrap();
    assert_eq!(tcs.len(), 1);
    assert_eq!(tcs[0].function.name, "get_station_data");
    assert_eq!(arguments(&tcs[0])["station_id"], Value::from(104));
    assert_eq!(arguments(&tcs[0])["sensor"], Value::from("temperature"));
}

#[test]
fn test_parse_gemma4_tool_call() {
    let raw = "<|channel>thought\nNeed to get weather for Paris\n<channel|><|tool_call>call:get_current_weather{location:<|\"|>Paris<|\"|>,unit:<|\"|>celsius<|\"|>}<tool_call|>";
    let (content, tool_calls) = parse_tool_calls(raw);
    assert_eq!(content, "");
    assert!(tool_calls.is_some());
    let tcs = tool_calls.unwrap();
    assert_eq!(tcs.len(), 1);
    assert_eq!(tcs[0].function.name, "get_current_weather");
    assert_eq!(arguments(&tcs[0])["location"], Value::from("Paris"));
    assert_eq!(arguments(&tcs[0])["unit"], Value::from("celsius"));
}

#[test]
fn test_parse_json_tool_call() {
    let raw = "Let me check that for you.\n<tool_call>\n{\"name\": \"calculator\", \"arguments\": {\"expression\": \"2+2\"}}\n</tool_call>";
    let (content, tool_calls) = parse_tool_calls(raw);
    assert_eq!(content, "Let me check that for you.");
    assert!(tool_calls.is_some());
    let tcs = tool_calls.unwrap();
    assert_eq!(tcs[0].function.name, "calculator");
    assert_eq!(arguments(&tcs[0])["expression"], Value::from("2+2"));
}

#[test]
fn test_parse_mistral_tool_call() {
    let raw = "[TOOL_CALLS] [{\"name\": \"get_current_weather\", \"arguments\": {\"location\": \"Tokyo\"}}]";
    let (content, tool_calls) = parse_tool_calls(raw);
    assert_eq!(content, "");
    assert!(tool_calls.is_some());
    let tcs = tool_calls.unwrap();
    assert_eq!(tcs.len(), 1);
    assert_eq!(tcs[0].function.name, "get_current_weather");
    assert_eq!(arguments(&tcs[0])["location"], Value::from("Tokyo"));
}

#[test]
fn test_parse_qwen38_xml_tool_call() {
    let raw = "<think>\nThinking about weather...\n</think>\n<tool_call>\n<function=get_forecast>\n<parameter=location>\nGraz, Austria\n</parameter>\n<parameter=hours>\n12\n</parameter>\n</function>\n</tool_call>";
    let (content, tool_calls) = parse_tool_calls(raw);
    assert_eq!(content, "");
    assert!(tool_calls.is_some());
    let tcs = tool_calls.unwrap();
    assert_eq!(tcs.len(), 1);
    assert_eq!(tcs[0].function.name, "get_forecast");
    assert_eq!(arguments(&tcs[0])["location"], Value::from("Graz, Austria"));
    assert_eq!(arguments(&tcs[0])["hours"], Value::from(12));
}

fn parse(raw: &str) -> (String, Vec<(String, String)>) {
    let (content, calls) = try_parse_tool_calls(raw).unwrap();
    let list = calls.unwrap_or_default();
    let pairs = list
        .iter()
        .map(|c| (c.function.name.clone(), c.function.arguments.text().to_string()))
        .collect();
    (content, pairs)
}

fn one(name: &str, arguments: &str) -> Vec<(String, String)> {
    vec![(name.to_string(), arguments.to_string())]
}

#[test]
fn plain_text_is_trimmed_and_kept() {
    assert_eq!(parse("  The sum is 4 (2 < 3).\n"), ("The sum is 4 (2 < 3).".to_string(), vec![]));
    assert!(parse_tool_calls("hello").1.is_none());
    assert_eq!(parse(""), (String::new(), vec![]));
}

#[test]
fn thoughts_are_taken_out() {
    assert_eq!(parse("<think>hm\n</think>Yes.").0, "Yes.");
    assert_eq!(parse("<thought>a</thought>b<thought>c</thought>d").0, "bd");
    assert_eq!(parse("<|channel>thought\nx<channel|> Fine").0, "Fine");
    assert_eq!(parse("<|channel|>analysis hm<|end|>Fine").0, "Fine");
}

#[test]
fn a_thought_that_is_not_closed_loses_its_tag() {
    assert_eq!(parse("<think>still thinking").0, "still thinking");
}

#[test]
fn headers_and_control_tokens_are_taken_out() {
    assert_eq!(parse("to=user<|message|>Hi<|end|>").0, "Hi");
    assert_eq!(parse("to=user\nHi").0, "Hi");
    assert_eq!(parse("<|im_start|>assistant\nHi<|im_end|>").0, "Hi");
    assert_eq!(parse("<|channel|>final<|message|>Hi<|return|>").0, "Hi");
}

#[test]
fn harmony_call_leaves_the_text_around_it() {
    let (content, calls) = parse("Ok. to=functions.f<|message|>{\"b\":1,\"a\":[true]}<|call|> Done.");
    assert_eq!(content, "Ok.  Done.");
    assert_eq!(calls, one("f", "{\"a\":[true],\"b\":1}"));
}

#[test]
fn harmony_call_may_end_with_its_brace() {
    assert_eq!(parse("to=functions.f {\"x\":{}} rest"), ("rest".to_string(), one("f", "{\"x\":{}}")));
}

#[test]
fn harmony_call_with_the_wrong_arguments_is_no_call() {
    assert_eq!(parse("to=functions.f<|message|>[1]<|call|>").1, vec![]);
    assert_eq!(parse("to=functions.<|message|>{}<|call|>").1, vec![]);
}

#[test]
fn two_harmony_calls_keep_their_order() {
    let raw = "to=functions.a<|message|>{}<|call|>to=functions.b<|message|>{}<|call|>";
    let calls = parse(raw).1;
    assert_eq!(calls.len(), 2);
    assert_eq!(calls[0].0, "a");
    assert_eq!(calls[1].0, "b");
}

#[test]
fn a_cut_inside_a_character_has_no_answer() {
    assert!(try_parse_tool_calls("to=functions.f<|message|>{}<|end|>\u{e9}").is_none());
    assert!(try_parse_tool_calls("to=functions.f<|message|>{}<|end|>e").is_some());
    assert!(try_parse_tool_calls("to=functions.f<|message|>{}<|call|>\u{e9}").is_some());
}

#[test]
fn bare_gemma_call_is_found() {
    assert_eq!(
        parse("I will call:sum{a:1, b:\"two\"} now"),
        ("I will  now".to_string(), one("sum", "{\"a\":1,\"b\":\"two\"}"))
    );
    assert_eq!(parse("please call: me").0, "please call: me");
}

#[test]
fn gemma_block_that_is_no_call_is_cut_out() {
    assert_eq!(parse("x<|tool_call>call:nothing<tool_call|>y"), ("xy".to_string(), vec![]));
    assert_eq!(
        parse("<tool_call>call:f{}</tool_call>z"),
        ("z".to_string(), one("f", "{}"))
    );
}

#[test]
fn xml_call_without_parameters_has_no_arguments() {
    assert_eq!(
        parse("a <function=now></function> b"),
        ("a  b".to_string(), one("now", "{}"))
    );
}

#[test]
fn later_xml_parameter_takes_the_place_of_an_earlier_one() {
    let raw = "<function=f><parameter=k>1</parameter><parameter=k>true</parameter><parameter=s>x y</parameter></function>";
    assert_eq!(parse(raw).1, one("f", "{\"k\":true,\"s\":\"x y\"}"));
}

#[test]
fn xml_call_that_is_not_closed_has_no_answer() {
    assert!(try_parse_tool_calls("<function=f><parameter=k>1</parameter>").is_none());
    assert_eq!(parse("<function=f").0, "<function=f");
}

#[test]
fn json_calls_between_each_pair_of_tags() {
    let call = "{\"name\":\"f\",\"arguments\":{\"n\":2}}";
    let tags = [
        ("<tool_call>", "</tool_call>"),
        ("<toolcall>", "</toolcall>"),
        ("```tool_call", "```"),
        ("<|tool_call>", "<tool_call|>"),
        ("[TOOL_CALLS]", "[/TOOL_CALLS]"),
    ];
    for (open, close) in tags {
        let raw = format!("before {open}{call}{close} after");
        assert_eq!(parse(&raw), ("before  after".to_string(), one("f", "{\"n\":2}")));
    }
}

#[test]
fn json_array_gives_a_call_for_each_item() {
    let raw = "<tool_call>[{\"name\":\"a\",\"arguments\":{}},7,{\"function\":{\"name\":\"b\",\"arguments\":\"{\\\"x\\\":1}\"}}]</tool_call>";
    let calls = parse(raw).1;
    assert_eq!(calls, vec![
        ("a".to_string(), "{}".to_string()),
        ("b".to_string(), "{\"x\":1}".to_string()),
    ]);
}

#[test]
fn json_block_without_a_call_is_cut_out() {
    assert_eq!(parse("a<tool_call>no json</tool_call>b"), ("ab".to_string(), vec![]));
}

#[test]
fn mistral_call_may_be_an_object() {
    assert_eq!(
        parse("Sure [TOOL_CALLS]{\"name\":\"f\",\"arguments\":{\"q\":\"\u{fc}\"}}"),
        ("Sure".to_string(), one("f", "{\"q\":\"\u{fc}\"}"))
    );
    assert_eq!(parse("[TOOL_CALLS] soon").0, "[TOOL_CALLS] soon");
}

#[test]
fn content_is_left_of_the_output() {
    let raw = "A<think>b</think>C to=self<|message|>d<|eom|>E<tool_call>{}</tool_call>F";
    let (content, _) = parse(raw);
    assert_eq!(content, "AC EF");
    let mut rest = raw.chars();
    assert!(content.chars().all(|c| rest.any(|d| d == c)));
    assert_eq!(content.trim(), content);
}

#[test]
fn identifiers_of_calls_are_made_from_the_clock() {
    let calls = parse_tool_calls("<tool_call>{\"name\":\"f\"}</tool_call>").1.unwrap();
    let id = calls[0].id.clone().unwrap();
    assert_eq!(id.len(), 13);
    assert!(id.starts_with("call_"));
    assert!(id[5..].chars().all(|c| c.is_ascii_hexdigit() && !c.is_ascii_uppercase()));
    assert_eq!(calls[0].call_type.clone().unwrap(), "function");
}

#[test]
fn arguments_that_are_no_object_are_left_out() {
    let call = parse_json_tool_call("{\"name\":\"f\",\"arguments\":[1]}").unwrap();
    assert_eq!(call.arguments.text(), "{}");
    let call = parse_json_tool_call("{\"name\":\"f\",\"arguments\":\"7\"}").unwrap();
    assert_eq!(call.arguments.text(), "7");
    let call = parse_json_tool_call("{\"name\":\"f\",\"arguments\":\"no json\"}").unwrap();
    assert_eq!(call.arguments.text(), "{}");
    assert!(parse_json_tool_call("{\"arguments\":{}}").is_none());
    assert!(parse_json_tool_call("{\"name\":7}").is_none());
}

#[test]
fn keys_get_quotation_marks() {
    let fix = |s: &str| string_of(&quote_unquoted_keys(&chars_of(s)));
    assert_eq!(fix("{a: 1, b_2 : \"c: d\"}"), "{\"a\": 1, \"b_2\" : \"c: d\"}");
    assert_eq!(fix("{\u{fc}ber: x}"), "{\"\u{fc}ber\": x}");
    assert_eq!(fix("{k\u{fc}2: \"a\\\"b: c\"}"), "{\"k\u{fc}2\": \"a\\\"b: c\"}");
    assert_eq!(fix("{\u{2460}: 1}"), "{\u{2460}: 1}");
}

#[test]
fn bare_pairs_are_read() {
    let members = parse_simple_kv(&chars_of("{a: 1, \"b\": true, c: x y, d, e: +7, f: 99999999999999999999}"));
    assert_eq!(members.len(), 5);
    assert_eq!(members["a"], Value::from(1));
    assert_eq!(members["b"], Value::from(true));
    assert_eq!(members["c"], Value::from("x y"));
    assert_eq!(members["e"], Value::from(7));
    assert_eq!(members["f"], Value::from("99999999999999999999"));
}

#[test]
fn gemma_arguments_fall_back_to_bare_pairs() {
    let call = parse_gemma_call(&chars_of("f {b: x, a: -1}")).unwrap();
    assert_eq!(call.name, "f");
    assert_eq!(call.arguments.text(), "{\"a\":-1,\"b\":\"x\"}");
    assert!(parse_gemma_call(&chars_of("{a: 1}")).is_none());
    assert!(parse_gemma_call(&chars_of("f")).is_none());
}

#[test]
fn braces_in_strings_do_not_count() {
    assert_eq!(find_matching_brace(&chars_of("x{\"}\\\"}\":{}}y"), 0), Some(12));
    assert_eq!(find_matching_brace(&chars_of("{{}"), 0), None);
    assert_eq!(find_matching_brace(&chars_of("none"), 0), None);
}

#[test]
fn cleaning_keeps_plain_text() {
    let clean = |s: &str| string_of(&strip_channel_tags(&chars_of(s)));
    assert_eq!(clean(" a < b "), " a < b ");
    assert_eq!(clean("x<|channel|>commentary y<|end|>z"), "xz");
    assert_eq!(clean("to=someone"), "");
}

#[test]
fn json_values_are_held_as_compact_text() {
    assert_eq!(Json::parse(" { \"b\" : [ 1 , 2 ] , \"a\" : null } ").unwrap().text(), "{\"a\":null,\"b\":[1,2]}");
    assert!(Json::parse("{").is_none());
    assert_eq!(Json::string("a\"\\\n\u{1}\u{fc}/").text(), "\"a\\\"\\\\\\n\\u0001\u{fc}/\"");
    assert_eq!(Json::string("\u{8}\u{9}\u{c}\u{d}\u{1f}\u{7f}").text(), "\"\\b\\t\\f\\r\\u001f\u{7f}\"");
}

#[test]
fn text_that_is_no_json_is_a_string() {
    assert_eq!(read_value(" [1, 2] ").text(), "[1,2]");
    assert_eq!(read_value("x y").text(), "\"x y\"");
    assert_eq!(value_or_string(Json::parse("7"), "ignored").text(), "7");
    assert_eq!(value_or_string(None, "kept").text(), "\"kept\"");
}

#[test]
fn calls_that_are_there_are_added_in_order() {
    let call = |name: &str| FunctionCall { name: name.into(), arguments: Json::parse("{}").unwrap() };
    let mut calls = vec![call("a")];
    push_calls(&mut calls, vec![Some(call("b")), None, Some(call("c"))]);
    let names: Vec<&str> = calls.iter().map(|c| c.name.as_str()).collect();
    assert_eq!(names, vec!["a", "b", "c"]);
}

#[test]
fn marking_keys_twice_is_once() {
    for s in ["{a: 1, b_2 : \"c: d\"}", "x y: z", "\\\"a: b", "\u{fc}ber : \u{2003}x", "a:b:c", ""] {
        let once = quote_unquoted_keys(&chars_of(s));
        assert_eq!(quote_unquoted_keys(&once), once);
        let quotes = once.iter().filter(|c| **c == '"').count() - s.matches('"').count();
        assert_eq!(quotes % 2, 0);
        assert_eq!(once.len(), s.chars().count() + quotes);
    }
}

fn shown(name: &str, arguments: &str) -> String {
    let call = ToolCall {
        id: None,
        call_type: None,
        function: FunctionCall { name: name.into(), arguments: Json::parse(arguments).unwrap() },
    };
    let message = ChatMessage { role: "assistant".into(), content: String::new(), tool_calls: Some(vec![call]) };
    let prompt = format_chatml_prompt(&[message], None);
    prompt
        .strip_prefix("<|im_start|>assistant\n")
        .and_then(|p| p.strip_suffix("<|im_end|>\n<|im_start|>assistant\n"))
        .unwrap()
        .to_string()
}

#[test]
fn calls_that_a_prompt_shows_are_read_back() {
    let calls = [
        ("f", "{}"),
        ("get_weather", "{\"city\":\"Graz\",\"days\":[1,2]}"),
        ("g", "{\"a\":{\"b\":null}}"),
        ("a\"\\\n\u{fc}\u{1}", "{\"a\":-7,\"b\":18446744073709551615,\"c\":true}"),
        ("h", "{\"html\":\"<b>x = 1</b> <tool_call>\",\"q\":\"a=b&c<d\"}"),
        ("i", "{\"to\":\"[TOOL_CALLS]\",\"x\":\"```\"}"),
    ];
    for (name, arguments) in calls {
        assert_eq!(parse(&shown(name, arguments)), (String::new(), one(name, arguments)));
    }
}

#[test]
fn shown_calls_are_read_back_as_deep_as_json_is_read() {
    let nested = |n: usize| format!("{{\"a\":{}{}}}", "[".repeat(n - 1), "]".repeat(n - 1));
    assert_eq!(parse(&shown("f", &nested(126))), (String::new(), one("f", &nested(126))));
    assert_eq!(parse(&shown("f", &nested(127))).1, Vec::new());
}

#[test]
fn white_space_ends_a_key() {
    let marked = |s: &str| string_of(&quote_unquoted_keys(&chars_of(s)));
    assert_eq!(marked("{a\u{3000}: 1, \u{fc}\u{2003}b: 2}"), "{\"a\"\u{3000}: 1, \u{fc}\u{2003}\"b\": 2}");
}
