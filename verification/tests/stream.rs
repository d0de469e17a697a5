use bytes::Bytes;
use claude_sse::{
    create_claude_sse_stream, emit_force_stop, process_sse_line, ClaudeSseStream, Completion,
    LogEntry, StreamingState, UpstreamEvent,
};

fn text_of(chunks: &[Bytes]) -> String {
    chunks
        .iter()
        .map(|b| String::from_utf8(b.to_vec()).unwrap_or_default())
        .collect()
}

fn new_stream(trace_id: &str, context_limit: u32) -> ClaudeSseStream {
    create_claude_sse_stream(
        trace_id.to_string(),
        "test@example.com".to_string(),
        None,
        false,
        context_limit,
        None,
        1,
        Vec::new(),
    )
}

/// Feeds the events, then the end of the upstream unless it failed.
fn translate(mut stream: ClaudeSseStream, events: Vec<UpstreamEvent>) -> String {
    let mut output = String::new();
    for event in events {
        output.push_str(&text_of(&stream.advance(event)));
    }
    output.push_str(&text_of(&stream.advance(UpstreamEvent::Ended)));
    assert!(stream.is_closed());
    output
}

fn data(json: &str) -> UpstreamEvent {
    UpstreamEvent::Chunk(Bytes::from(format!("data: {}\n\n", json)))
}

fn failure(reason: &str) -> UpstreamEvent {
    UpstreamEvent::Failed(reason.to_string())
}

const STOP: &str = "event: message_stop\ndata: {\"type\":\"message_stop\"}\n\n";

#[test]
fn test_process_sse_line_done() {
    let mut state = StreamingState::new();
    let result = process_sse_line("data: [DONE]", &mut state, "test_id", "test@example.com");
    assert!(result.is_some());
    let chunks = result.unwrap();
    assert!(!chunks.is_empty());

    let all_text: String = text_of(&chunks);
    assert!(all_text.contains("message_stop"));
}

#[test]
fn test_process_sse_line_with_text() {
    let mut state = StreamingState::new();

    let test_data = r#"data: {"candidates":[{"content":{"parts":[{"text":"Hello"}]}}],"usageMetadata":{},"modelVersion":"test","responseId":"123"}"#;

    let result = process_sse_line(test_data, &mut state, "test_id", "test@example.com");
    assert!(result.is_some());

    let chunks = result.unwrap();
    assert!(!chunks.is_empty());

    let all_text: String = text_of(&chunks);

    assert!(all_text.contains("message_start"));
    assert!(all_text.contains("content_block_start"));
    assert!(all_text.contains("Hello"));
}

#[test]
fn test_thinking_only_interruption_recovery() {
    let thinking_json = r#"{"candidates":[{"content":{"parts":[{"text":"Thinking...","thought":true}]}}],"modelVersion":"gemini-2.0-flash-thinking","responseId":"msg_interrupted"}"#;
    let output = translate(new_stream("trace_test", 1_000), vec![data(thinking_json)]);

    assert!(output.contains("Thinking..."));
    assert!(output.contains("Recovered by Antigravity"));
    assert!(output.contains("\"usage\":"));
    assert!(output.contains("\"output_tokens\":100"));
}

#[test]
fn test_claude_sse_stream_normal_completion() {
    let chunk1 = r#"{"candidates":[{"content":{"parts":[{"text":"Hello world"}]}}],"modelVersion":"gemini-2.5-pro","responseId":"msg_normal_1"}"#;
    let chunk_done = r#"{"candidates":[{"content":{"parts":[{"text":""}]},"finishReason":"STOP"}],"usageMetadata":{"promptTokenCount":15,"candidatesTokenCount":5,"totalTokenCount":20},"modelVersion":"gemini-2.5-pro","responseId":"msg_normal_2"}"#;
    let full_output = translate(
        new_stream("trace_normal", 100_000),
        vec![data(chunk1), data(chunk_done)],
    );

    assert!(full_output.contains("event: message_start\n"));
    assert!(full_output.contains("event: content_block_start\n"));
    assert!(full_output.contains("event: content_block_delta\n"));
    assert!(full_output.contains("event: content_block_stop\n"));
    assert!(full_output.contains("event: message_delta\n"));
    assert!(full_output.contains("event: message_stop\n"));
    assert!(full_output.contains("data: {\"type\":\"message_stop\"}\n\n"));
}

#[test]
fn test_claude_sse_stream_upstream_error_format() {
    let full_output = translate(
        new_stream("trace_error", 100_000),
        vec![failure("upstream connection reset by peer")],
    );

    assert!(
        full_output.starts_with("event: error\n"),
        "Output should start with 'event: error'"
    );
    assert!(
        full_output.contains("data: "),
        "Output should contain 'data: '"
    );

    let data_line = full_output
        .lines()
        .find(|l| l.starts_with("data: "))
        .expect("Should have data line");
    let json_str = data_line.strip_prefix("data: ").unwrap().trim();
    let parsed: serde_json::Value =
        serde_json::from_str(json_str).expect("data must be valid JSON");

    assert_eq!(parsed.get("type").and_then(|v| v.as_str()), Some("error"));
    let error_obj = parsed.get("error").expect("Must have 'error' object");
    assert_eq!(
        error_obj.get("type").and_then(|v| v.as_str()),
        Some("api_error")
    );
    let message = error_obj
        .get("message")
        .and_then(|v| v.as_str())
        .expect("Must have 'message'");
    assert!(message.contains("upstream connection reset by peer"));
}

#[test]
fn test_claude_sse_stream_fatal_error_no_message_stop() {
    let chunk1 = r#"{"candidates":[{"content":{"parts":[{"text":"Partial text before error"}]}}],"modelVersion":"gemini-2.5-pro","responseId":"msg_fatal_1"}"#;
    let full_output = translate(
        new_stream("trace_fatal", 100_000),
        vec![data(chunk1), failure("abrupt stream disconnection")],
    );

    assert!(full_output.contains("event: message_start\n"));
    assert!(full_output.contains("Partial text before error"));
    assert!(full_output.contains("event: error\n"));

    let error_pos = full_output
        .find("event: error\n")
        .expect("Must contain event: error");
    let after_error = &full_output[error_pos..];

    assert!(
        !after_error.contains("event: message_stop"),
        "Must not emit message_stop after error"
    );
    assert!(
        !after_error.contains("event: message_delta"),
        "Must not emit message_delta after error"
    );
    assert!(
        !after_error.contains("\"type\":\"message_stop\""),
        "Must not contain message_stop JSON after error"
    );
}

#[test]
fn test_claude_sse_stream_omp_client_parsing() {
    let full_output = translate(new_stream("trace_omp", 100_000), vec![failure("upstream timeout")]);

    let mut caught_omp_error: Option<String> = None;
    let mut saw_message_stop = false;

    let frames: Vec<&str> = full_output
        .split("\n\n")
        .filter(|s| !s.trim().is_empty())
        .collect();
    for frame in frames {
        let mut event_name: Option<&str> = None;
        let mut data_str: Option<&str> = None;

        for line in frame.lines() {
            if let Some(ev) = line.strip_prefix("event: ") {
                event_name = Some(ev.trim());
            } else if let Some(d) = line.strip_prefix("data: ") {
                data_str = Some(d.trim());
            }
        }

        if event_name == Some("error") {
            if let Some(data) = data_str {
                let parsed: serde_json::Value = serde_json::from_str(data).unwrap();
                let msg = parsed
                    .get("error")
                    .and_then(|e| e.get("message"))
                    .and_then(|m| m.as_str());
                caught_omp_error = msg.map(|s| s.to_string());
            }
        } else if event_name == Some("message_stop") {
            saw_message_stop = true;
        }
    }

    assert!(
        caught_omp_error.is_some(),
        "OMP parser should have caught the stream error"
    );
    assert!(caught_omp_error.unwrap().contains("upstream timeout"));
    assert!(
        !saw_message_stop,
        "OMP parser should not see message_stop on stream failure"
    );
}

const HELLO: &str = r#"{"response":{"candidates":[{"content":{"parts":[{"text":"Hi"}]},"finishReason":"STOP"}],"usageMetadata":{"promptTokenCount":15,"candidatesTokenCount":5,"cachedContentTokenCount":4},"modelVersion":"m","responseId":"r1"}}"#;

fn hello_output() -> String {
    let mut expected = String::new();
    expected.push_str("event: message_start\ndata: {\"message\":{\"content\":[],\"id\":\"r1\",\"model\":\"m\",\"role\":\"assistant\",\"stop_reason\":null,\"stop_sequence\":null,\"type\":\"message\",\"usage\":{\"cache_read_input_tokens\":4,\"input_tokens\":11,\"output_tokens\":5}},\"type\":\"message_start\"}\n\n");
    expected.push_str("event: content_block_start\ndata: {\"content_block\":{\"text\":\"\",\"type\":\"text\"},\"index\":0,\"type\":\"content_block_start\"}\n\n");
    expected.push_str("event: content_block_delta\ndata: {\"delta\":{\"text\":\"Hi\",\"type\":\"text_delta\"},\"index\":0,\"type\":\"content_block_delta\"}\n\n");
    expected.push_str("event: content_block_stop\ndata: {\"index\":0,\"type\":\"content_block_stop\"}\n\n");
    expected.push_str("event: message_delta\ndata: {\"delta\":{\"stop_reason\":\"end_turn\",\"stop_sequence\":null},\"type\":\"message_delta\",\"usage\":{\"cache_read_input_tokens\":4,\"input_tokens\":11,\"output_tokens\":5}}\n\n");
    expected.push_str(STOP);
    expected
}

#[test]
fn complete_message_is_sent_exactly() {
    assert_eq!(translate(new_stream("t", 0), vec![data(HELLO)]), hello_output());
}

#[test]
fn cuts_do_not_matter() {
    let whole = format!("data: {}\r\n\r\ndata: [DONE]\n", HELLO);
    let pieces: Vec<UpstreamEvent> = whole
        .as_bytes()
        .chunks(3)
        .map(|piece| UpstreamEvent::Chunk(Bytes::from(piece.to_vec())))
        .collect();
    assert_eq!(translate(new_stream("t", 0), pieces), hello_output());
}

#[test]
fn cut_within_a_character_does_not_matter() {
    let whole = "data: {\"candidates\":[{\"content\":{\"parts\":[{\"text\":\"h\u{e9}\"}]}}]}\n";
    let bytes = whole.as_bytes();
    let cut = bytes.iter().position(|b| *b >= 0x80).unwrap() + 1;
    let mut stream = new_stream("t", 0);
    assert!(stream
        .advance(UpstreamEvent::Chunk(Bytes::from(bytes[..cut].to_vec())))
        .is_empty());
    assert_eq!(stream.buffered(), cut);
    let rest = stream.advance(UpstreamEvent::Chunk(Bytes::from(bytes[cut..].to_vec())));
    assert!(text_of(&rest).contains("h\u{e9}"));
    assert_eq!(stream.buffered(), 0);
}

#[test]
fn last_line_is_flushed() {
    let line = UpstreamEvent::Chunk(Bytes::from(format!("data: {}", HELLO)));
    assert_eq!(translate(new_stream("t", 0), vec![line]), hello_output());
}

#[test]
fn timeouts_only_ping() {
    let output = translate(
        new_stream("t", 0),
        vec![UpstreamEvent::TimedOut, data(HELLO), UpstreamEvent::TimedOut],
    );
    assert_eq!(output, format!(": ping\n\n{}: ping\n\n", hello_output()));
}

#[test]
fn invalid_lines_are_skipped() {
    let mut state = StreamingState::new();
    assert!(process_sse_line("event: x", &mut state, "", "").is_none());
    assert!(process_sse_line("data:{}", &mut state, "", "").is_none());
    assert!(process_sse_line("data: ", &mut state, "", "").is_none());
    assert!(process_sse_line("data:   \u{3000}", &mut state, "", "").is_none());
    assert!(process_sse_line("data: {not json", &mut state, "", "").is_none());
    assert!(!state.message_start_sent);
    let invalid = UpstreamEvent::Chunk(Bytes::from(vec![0x64, 0xff, 0x0a]));
    assert!(new_stream("t", 0).advance(invalid).is_empty());
}

#[test]
fn done_is_recognized_among_white_space() {
    let mut state = StreamingState::new();
    let chunks = process_sse_line("data: \u{a0}[DONE]\u{2003}", &mut state, "", "").unwrap();
    assert_eq!(text_of(&chunks), STOP);
    assert!(process_sse_line("data: [DONE]", &mut state, "", "").is_none());
}

#[test]
fn force_stop_sends_the_end_once() {
    let mut state = StreamingState::new();
    let line = r#"data: {"candidates":[{"content":{"parts":[{"text":"a"}]}}]}"#;
    process_sse_line(line, &mut state, "", "").unwrap();
    let chunks = emit_force_stop(&mut state);
    assert_eq!(chunks.len(), 3);
    assert_eq!(text_of(&chunks[2..]), STOP);
    assert!(state.message_stop_sent);
    assert!(emit_force_stop(&mut state).is_empty());
}

#[test]
fn empty_response_is_filled() {
    let mut stream = new_stream("t", 0);
    let output = text_of(&stream.advance_at(UpstreamEvent::Ended, 1_700_000_000_123));
    assert!(output.starts_with("event: message_start\n"));
    assert!(output.contains("\"id\":\"msg_recovered_1700000000123\""));
    assert!(output.contains("\"model\":\"gemini-auto\""));
    assert!(output.contains("\"content_block\":{\"text\":\".\",\"type\":\"text\"}"));
    assert!(output.contains("\"usage\":{\"input_tokens\":1,\"output_tokens\":1}"));
    assert!(output.ends_with(STOP));
    assert_eq!(output.matches("event: message_start\n").count(), 1);
    assert_eq!(output.matches("event: message_stop\n").count(), 1);
    assert!(stream.advance(UpstreamEvent::Ended).is_empty());
}

#[test]
fn empty_response_is_named_by_the_clock() {
    let mut stream = new_stream("t", 0);
    let output = text_of(&stream.advance(UpstreamEvent::Ended));
    let start = output.find("msg_recovered_").unwrap() + "msg_recovered_".len();
    let digits: String = output[start..].chars().take_while(|c| c.is_ascii_digit()).collect();
    assert!(digits.parse::<u64>().unwrap() > 1_600_000_000_000);
}

#[test]
fn negative_time_is_written_with_its_sign() {
    let mut stream = new_stream("t", 0);
    let output = text_of(&stream.advance_at(UpstreamEvent::Ended, -7));
    assert!(output.contains("\"id\":\"msg_recovered_-7\""));
}

#[test]
fn interruption_closes_the_thinking_block() {
    let line = r#"{"candidates":[{"content":{"parts":[{"text":"hm","thought":true}]}}],"responseId":"r"}"#;
    let mut stream = new_stream("t", 0);
    stream.advance(data(line));
    let output = text_of(&stream.advance(UpstreamEvent::Ended));
    let mut expected = String::new();
    expected.push_str("event: content_block_stop\ndata: {\"index\":0,\"type\":\"content_block_stop\"}\n\n");
    expected.push_str("event: content_block_start\ndata: {\"content_block\":{\"text\":\"\\n\\n[System] Upstream model interrupted after thinking. (Recovered by Antigravity)\",\"type\":\"text\"},\"index\":1,\"type\":\"content_block_start\"}\n\n");
    expected.push_str("event: content_block_stop\ndata: {\"index\":1,\"type\":\"content_block_stop\"}\n\n");
    expected.push_str("event: message_delta\ndata: {\"delta\":{\"stop_reason\":\"end_turn\",\"stop_sequence\":null},\"type\":\"message_delta\",\"usage\":{\"input_tokens\":0,\"output_tokens\":100}}\n\n");
    expected.push_str("event: message_delta\ndata: {\"delta\":{\"stop_reason\":\"end_turn\",\"stop_sequence\":null},\"type\":\"message_delta\",\"usage\":{\"input_tokens\":0,\"output_tokens\":0}}\n\n");
    expected.push_str(STOP);
    assert_eq!(output, expected);
}

#[test]
fn error_is_sent_exactly() {
    let mut stream = new_stream("t", 0);
    let output = text_of(&stream.advance(failure("a \"b\"\nc")));
    assert_eq!(
        output,
        "event: error\ndata: {\"error\":{\"message\":\"Stream error: a \\\"b\\\"\\nc\",\"type\":\"api_error\"},\"type\":\"error\"}\n\n"
    );
    assert!(stream.is_closed());
    assert!(stream.advance(data(HELLO)).is_empty());
    assert!(stream.advance(UpstreamEvent::TimedOut).is_empty());
    assert!(stream.advance(UpstreamEvent::Ended).is_empty());
}

#[test]
fn every_event_is_read_back() {
    let output = hello_output();
    let frames: Vec<&str> = output.split("\n\n").filter(|f| !f.is_empty()).collect();
    let names: Vec<&str> = frames
        .iter()
        .map(|f| f.lines().next().unwrap().strip_prefix("event: ").unwrap())
        .collect();
    assert_eq!(
        names,
        vec![
            "message_start",
            "content_block_start",
            "content_block_delta",
            "content_block_stop",
            "message_delta",
            "message_stop",
        ]
    );
    for (frame, name) in frames.iter().zip(names) {
        let data = frame.lines().nth(1).unwrap().strip_prefix("data: ").unwrap();
        let parsed: serde_json::Value = serde_json::from_str(data).unwrap();
        assert_eq!(parsed.get("type").and_then(|v| v.as_str()), Some(name));
    }
}

#[test]
fn early_done_is_followed_by_made_up_content() {
    let mut stream = new_stream("t", 0);
    let done = UpstreamEvent::Chunk(Bytes::from("data: [DONE]\n"));
    assert_eq!(text_of(&stream.advance(done)), STOP);
    let rest = text_of(&stream.advance_at(UpstreamEvent::Ended, 5));
    assert!(rest.starts_with("event: message_start\n"));
    assert!(rest.contains("\"text\":\".\""));
    assert!(!rest.contains("event: message_stop\n"));
}

#[test]
fn small_chunks_have_room() {
    let mut stream = new_stream("t", 0);
    let chunk = Bytes::from("data: ");
    assert!(stream.has_room(&chunk));
    assert!(stream.advance(UpstreamEvent::Chunk(chunk.clone())).is_empty());
    assert!(stream.has_room(&chunk));
    assert_eq!(stream.buffered(), 6);
}

#[test]
fn blocks_are_numbered_over_lines() {
    let thought = r#"{"candidates":[{"content":{"parts":[{"text":"h","thought":true}]}}],"responseId":"r"}"#;
    let text = r#"{"candidates":[{"content":{"parts":[{"text":"a"}]}}]}"#;
    let call = r#"{"candidates":[{"content":{"parts":[{"functionCall":{"name":"f"}}]}}]}"#;
    let output = translate(new_stream("t", 0), vec![data(thought), data(text), data(call)]);
    for index in 0..3 {
        let start = format!("\"index\":{},\"type\":\"content_block_start\"", index);
        let stop = format!("\"index\":{},\"type\":\"content_block_stop\"", index);
        assert_eq!(output.matches(&start).count(), 1);
        assert_eq!(output.matches(&stop).count(), 1);
        assert!(output.find(&start) < output.find(&stop));
    }
    assert_eq!(output.matches("event: message_start\n").count(), 1);
    assert!(output.contains("\"id\":\"toolu_r_2\""));
    assert!(output.ends_with(STOP));
}

#[test]
fn completion_is_logged() {
    let mut stream = new_stream("t", 0);
    stream.advance(data(HELLO));
    assert_eq!(stream.trace_id(), "t");
    assert_eq!(stream.email(), "test@example.com");
    assert_eq!(stream.log().len(), 1);
    let expected = Completion { input_tokens: 11, output_tokens: 5, cached_tokens: Some(4) };
    assert!(matches!(&stream.log()[0], LogEntry::Completed(c) if *c == expected));
    let uncached = r#"{"candidates":[{"finishReason":"STOP"}],"usageMetadata":{"promptTokenCount":3,"cachedContentTokenCount":0}}"#;
    stream.advance(data(uncached));
    let expected = Completion { input_tokens: 3, output_tokens: 0, cached_tokens: None };
    assert!(matches!(&stream.log()[1], LogEntry::Completed(c) if *c == expected));
    let silent = r#"{"candidates":[{"finishReason":"STOP"}]}"#;
    stream.advance(data(silent));
    assert_eq!(stream.log().len(), 2);
}

#[test]
fn interruption_is_logged() {
    let line = r#"{"candidates":[{"content":{"parts":[{"text":"hm","thought":true}]}}]}"#;
    let mut stream = new_stream("t", 0);
    stream.advance(data(line));
    assert!(stream.log().is_empty());
    stream.advance(UpstreamEvent::Ended);
    assert!(matches!(stream.log()[..], [LogEntry::Interrupted]));
}

#[test]
fn pending_line_is_told_from_white_space() {
    let mut stream = new_stream("t", 0);
    assert!(!stream.has_pending_line());
    stream.advance(UpstreamEvent::Chunk(Bytes::from(" \t")));
    assert!(!stream.has_pending_line());
    stream.advance(UpstreamEvent::Chunk(Bytes::from("x")));
    assert!(stream.has_pending_line());
    stream.advance(UpstreamEvent::Chunk(Bytes::from(vec![0xff])));
    assert!(!stream.has_pending_line());
}

#[test]
fn sources_are_shown_when_the_message_ends() {
    let found = r#"{"candidates":[{"content":{"parts":[{"text":"a"}]},"groundingMetadata":{"webSearchQueries":["q"],"groundingChunks":[{"web":{"uri":"u","title":"t"}},{"web":{}},{"web":{"uri":"v"}}]}}],"responseId":"r"}"#;
    let mut stream = new_stream("t", 0);
    let first = text_of(&stream.advance(data(found)));
    assert!(!first.contains("Web search"));
    let last = text_of(&stream.advance(UpstreamEvent::Ended));
    let mut expected = String::new();
    expected.push_str("event: content_block_stop\ndata: {\"index\":0,\"type\":\"content_block_stop\"}\n\n");
    expected.push_str("event: content_block_start\ndata: {\"content_block\":{\"text\":\"\",\"type\":\"text\"},\"index\":1,\"type\":\"content_block_start\"}\n\n");
    expected.push_str("event: content_block_delta\ndata: {\"delta\":{\"text\":\"\\n\\nWeb search: q\\n\\n- [t](u)\\n- [Source](v)\\n\",\"type\":\"text_delta\"},\"index\":1,\"type\":\"content_block_delta\"}\n\n");
    expected.push_str("event: content_block_stop\ndata: {\"index\":1,\"type\":\"content_block_stop\"}\n\n");
    expected.push_str("event: message_delta\ndata: {\"delta\":{\"stop_reason\":\"end_turn\",\"stop_sequence\":null},\"type\":\"message_delta\",\"usage\":{\"input_tokens\":0,\"output_tokens\":0}}\n\n");
    expected.push_str(STOP);
    assert_eq!(last, expected);
}

#[test]
fn sources_are_shown_once() {
    let found = r#"{"candidates":[{"finishReason":"STOP","groundingMetadata":{"groundingChunks":[{"web":{"uri":"u"}}]}}]}"#;
    let output = translate(new_stream("t", 0), vec![data(found), data(found)]);
    assert_eq!(output.matches("\\n\\nWeb search\\n\\n- [Source](u)\\n").count(), 1);
    assert_eq!(output.matches("event: message_stop\n").count(), 1);
}

#[test]
fn search_without_sources_shows_nothing() {
    let found = r#"{"candidates":[{"content":{"parts":[{"text":"a"}]},"finishReason":"STOP","groundingMetadata":{"webSearchQueries":["q"],"groundingChunks":[{"web":{"title":"t"}}]}}]}"#;
    let output = translate(new_stream("t", 0), vec![data(found)]);
    assert!(!output.contains("Web search"));
    assert_eq!(output.matches("event: content_block_start\n").count(), 1);
}

#[test]
fn time_names_only_made_up_messages() {
    let line = r#"{"candidates":[{"content":{"parts":[{"text":"a"}]}}]}"#;
    let mut a = new_stream("t", 0);
    let mut b = new_stream("t", 0);
    a.advance(data(line));
    b.advance(data(line));
    assert_eq!(
        text_of(&a.advance_at(UpstreamEvent::Ended, 1)),
        text_of(&b.advance_at(UpstreamEvent::Ended, 2))
    );
    let mut blank = new_stream("t", 0);
    let output = text_of(&blank.advance_at(UpstreamEvent::Ended, i64::MIN));
    assert!(output.contains("\"msg_recovered_-9223372036854775808\""));
}
