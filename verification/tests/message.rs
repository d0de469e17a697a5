use bytes::Bytes;
use claude_sse::json::{parse, render};
use claude_sse::{
    process_grounding_metadata, process_response, BlockType, GeminiPart, Json, LogEntry, StreamingState,
    Usage, UsageMetadata,
};

fn text_of(chunks: &[Bytes]) -> String {
    chunks
        .iter()
        .map(|b| String::from_utf8(b.to_vec()).unwrap_or_default())
        .collect()
}

fn json(text: &str) -> Json {
    parse(text).unwrap()
}

#[test]
fn json_is_read_and_written() {
    let text = r#"{"a":[1,-2,1.5,true,null,"x\ny"],"b":{"c":"d"},"a2":18446744073709551615}"#;
    let value = json(text);
    assert_eq!(
        value.get("a").unwrap().at(0).unwrap().as_u64(),
        Some(1)
    );
    assert_eq!(value.get("a").unwrap().at(1).unwrap().as_u64(), None);
    assert_eq!(value.get("a").unwrap().at(5).unwrap().as_str(), Some("x\ny"));
    assert!(value.get("a").unwrap().at(6).is_none());
    assert_eq!(value.get("b").unwrap().get("c").unwrap().as_str(), Some("d"));
    assert!(value.get("z").is_none());
    assert_eq!(value.get("a").unwrap().as_array().unwrap().len(), 6);
    assert!(value.is_object());
    assert_eq!(
        render(value.copy()),
        r#"{"a":[1,-2,1.5,true,null,"x\ny"],"a2":18446744073709551615,"b":{"c":"d"}}"#
    );
    assert_eq!(render(value), render(json(text)));
    assert!(parse("{").is_none());
}

#[test]
fn later_members_replace_earlier_ones() {
    let value = Json::object().with("a", Json::Unsigned(1)).with("a", Json::Unsigned(2));
    assert_eq!(value.get("a").unwrap().as_u64(), Some(2));
    assert_eq!(render(value), r#"{"a":2}"#);
    let value = Json::object()
        .with("b", Json::Unsigned(1))
        .with("a", Json::Unsigned(2))
        .with("b", Json::object().with("c", Json::Null).with("c", Json::text("d")))
        .with("a", Json::Unsigned(3));
    assert_eq!(render(value), r#"{"a":3,"b":{"c":"d"}}"#);
    assert_eq!(json(r#"{"a":1,"a":2}"#).get("a").unwrap().as_u64(), Some(2));
    assert_eq!(render(Json::Null.with("a", Json::Null)), "null");
}

#[test]
fn usage_is_read() {
    let usage = UsageMetadata::from_json(&json(
        r#"{"promptTokenCount":3,"candidatesTokenCount":null,"cachedContentTokenCount":5}"#,
    ))
    .unwrap();
    assert_eq!(usage.prompt_token_count, Some(3));
    assert_eq!(usage.candidates_token_count, None);
    assert_eq!(usage.total_token_count, None);
    let counts = Usage::from_metadata(Some(&usage));
    assert_eq!(counts.input_tokens, 0);
    assert_eq!(
        render(counts.to_json()),
        r#"{"cache_read_input_tokens":5,"input_tokens":0,"output_tokens":0}"#
    );
    assert!(UsageMetadata::from_json(&json(r#"{"promptTokenCount":4294967296}"#)).is_none());
    assert!(UsageMetadata::from_json(&json(r#"{"promptTokenCount":"3"}"#)).is_none());
    assert!(UsageMetadata::from_json(&json("3")).is_none());
    assert_eq!(Usage::from_metadata(None).output_tokens, 0);
}

#[test]
fn parts_are_read() {
    let part = GeminiPart::from_json(&json(
        r#"{"text":"t","thought":true,"functionCall":{"name":"f","args":{"x":1},"id":"i"}}"#,
    ))
    .unwrap();
    assert_eq!(part.text.as_deref(), Some("t"));
    assert!(part.thought);
    let call = part.function_call.unwrap();
    assert_eq!(call.name, "f");
    assert_eq!(call.id.as_deref(), Some("i"));
    assert_eq!(render(call.args.unwrap()), r#"{"x":1}"#);
    assert!(GeminiPart::from_json(&json(r#"{"text":1}"#)).is_none());
    assert!(GeminiPart::from_json(&json(r#"{"thought":"yes"}"#)).is_none());
    assert!(GeminiPart::from_json(&json(r#"{"functionCall":{}}"#)).is_none());
    assert!(GeminiPart::from_json(&json("[]")).is_none());
}

#[test]
fn tool_calls_are_blocks_of_their_own() {
    let mut state = StreamingState::new();
    let raw = json(
        r#"{"candidates":[{"content":{"parts":[{"text":"a"},{"text":5},{"functionCall":{"name":"f","args":{"y":2.5,"x":1}}},{"functionCall":{"name":"g","id":"i"}}]},"finishReason":"STOP"}],"responseId":"r"}"#,
    );
    let output = text_of(&process_response(&raw, &mut state));
    assert!(output.contains(
        "{\"content_block\":{\"id\":\"toolu_r_1\",\"input\":{},\"name\":\"f\",\"type\":\"tool_use\"},\"index\":1,\"type\":\"content_block_start\"}"
    ));
    assert!(output.contains(
        "{\"delta\":{\"partial_json\":\"{\\\"x\\\":1,\\\"y\\\":2.5}\",\"type\":\"input_json_delta\"},\"index\":1,\"type\":\"content_block_delta\"}"
    ));
    assert!(output.contains("\"id\":\"i\""));
    assert!(output.contains("\"stop_reason\":\"tool_use\""));
    assert!(state.has_content && state.used_tool && !state.has_thinking);
    assert_eq!(state.block_index, 3);
}

#[test]
fn thinking_and_text_take_turns() {
    let mut state = StreamingState::new();
    let raw = json(
        r#"{"candidates":[{"content":{"parts":[{"text":"h","thought":true},{"text":"m","thought":true},{"text":"a"}]}}]}"#,
    );
    let output = text_of(&process_response(&raw, &mut state));
    assert_eq!(output.matches("event: content_block_start\n").count(), 2);
    assert_eq!(output.matches("event: content_block_delta\n").count(), 3);
    assert_eq!(output.matches("event: content_block_stop\n").count(), 1);
    assert!(output.contains("{\"delta\":{\"thinking\":\"m\",\"type\":\"thinking_delta\"},\"index\":0,"));
    assert!(output.contains("\"id\":\"msg_unknown\""));
    assert_eq!(state.current_block_type(), Some(BlockType::Text));
    assert_eq!(state.block_index, 1);
}

#[test]
fn message_stops_once() {
    let mut state = StreamingState::new();
    let raw = json(r#"{"candidates":[{"finishReason":"MAX_TOKENS"}]}"#);
    let first = text_of(&process_response(&raw, &mut state));
    assert!(first.contains("\"stop_reason\":\"max_tokens\""));
    assert_eq!(first.matches("event: message_stop\n").count(), 1);
    let second = text_of(&process_response(&raw, &mut state));
    assert_eq!(second.matches("event: message_delta\n").count(), 1);
    assert_eq!(second.matches("event: message_stop\n").count(), 0);
    assert_eq!(second.matches("event: message_start\n").count(), 0);
}

#[test]
fn nothing_ends_before_it_begins() {
    let mut state = StreamingState::new();
    assert!(state.emit_finish(Some("STOP"), None).is_empty());
    assert!(!state.message_stop_sent);
}

#[test]
fn grounding_is_remembered() {
    let mut state = StreamingState::new();
    process_response(
        &json(r#"{"candidates":[{"groundingMetadata":{"webSearchQueries":["q","r"],"groundingChunks":[{"web":{}}]}}]}"#),
        &mut state,
    );
    assert_eq!(state.web_search_query.as_deref(), Some("q"));
    assert_eq!(state.grounding_chunks.as_ref().unwrap().len(), 1);
    process_response(
        &json(r#"{"candidates":[{"groundingMetadata":{"webSearchQueries":[1,"r"],"grounding_metadata":{"groundingChunks":[]}}}]}"#),
        &mut state,
    );
    assert_eq!(state.web_search_query.as_deref(), Some("q"));
    assert_eq!(state.grounding_chunks.as_ref().unwrap().len(), 0);
    process_response(&json(r#"{"candidates":[{"groundingMetadata":{}}]}"#), &mut state);
    assert_eq!(state.grounding_chunks.as_ref().unwrap().len(), 0);
}

#[test]
fn search_results_are_two_blocks() {
    let mut state = StreamingState::new();
    let metadata = json(
        r#"{"webSearchQueries":[1,"q"],"groundingChunks":[{"web":{"uri":"u","title":"t"}},{"web":{"title":"x"}},{"web":{"uri":"v"}},{}]}"#,
    );
    let chunks = process_grounding_metadata(&metadata, &mut state, "abc").unwrap();
    let mut expected = String::new();
    expected.push_str("event: content_block_start\ndata: {\"content_block\":{\"id\":\"srvtoolu_abc\",\"input\":{\"query\":\"q\"},\"name\":\"web_search\",\"type\":\"server_tool_use\"},\"index\":0,\"type\":\"content_block_start\"}\n\n");
    expected.push_str("event: content_block_stop\ndata: {\"index\":0,\"type\":\"content_block_stop\"}\n\n");
    expected.push_str("event: content_block_start\ndata: {\"content_block\":{\"content\":[{\"encrypted_content\":\"\",\"page_age\":null,\"title\":\"t\",\"url\":\"u\"},{\"encrypted_content\":\"\",\"page_age\":null,\"title\":\"Source\",\"url\":\"v\"}],\"tool_use_id\":\"srvtoolu_abc\",\"type\":\"web_search_tool_result\"},\"index\":1,\"type\":\"content_block_start\"}\n\n");
    expected.push_str("event: content_block_stop\ndata: {\"index\":1,\"type\":\"content_block_stop\"}\n\n");
    assert_eq!(text_of(&chunks), expected);
    assert_eq!(state.block_index, 2);
    assert!(matches!(&state.log[..], [LogEntry::Searched { results: 2, query }] if query == "q"));
}

#[test]
fn no_search_results_send_nothing() {
    let mut state = StreamingState::new();
    for text in [
        r#"{}"#,
        r#"{"groundingChunks":3}"#,
        r#"{"groundingChunks":[]}"#,
        r#"{"groundingChunks":[{"web":{"uri":""}}]}"#,
    ] {
        assert!(process_grounding_metadata(&json(text), &mut state, "abc").is_none());
    }
    assert_eq!(state.block_index, 0);
}

#[test]
fn server_tool_use_is_written_where_it_is_known() {
    let usage = Usage {
        input_tokens: 1,
        output_tokens: 2,
        cache_read_input_tokens: None,
        cache_creation_input_tokens: Some(3),
        server_tool_use: Some(json(r#"{"web_search_requests":1}"#)),
    };
    assert_eq!(
        render(usage.to_json()),
        r#"{"cache_creation_input_tokens":3,"input_tokens":1,"output_tokens":2,"server_tool_use":{"web_search_requests":1}}"#
    );
}
