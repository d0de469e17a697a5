//! That the data of every event is read back as it was sent.

use crate::client::{chunk_text, data_text, event_of, law_client_reads_event};
use crate::frame::{are_frames, is_frame, json_str, FrameView};
use crate::json::{empty_object, is_plain, json_document, JsonView};
use crate::part::{part_of, FunctionCallView};
use crate::search::{found_json, results_of, search_json, search_results};
use crate::state::{
    content_json, delta_json, message_json, reported_usage, tool_json, BlockType, StateView,
    StreamOptions,
};
use crate::stream::{
    initial_stream, interruption_notice, recovered_response, recovery_usage, EventView, StreamView,
};
use crate::usage::{usage_json, usage_of, Usage, UsageMetadata};
use bytes::Bytes;
use vstd::prelude::*;

verus! {

/// Whether the data of a frame holds nothing that is read otherwise than it is
/// written.
pub open spec fn is_plain_frame(frame: FrameView) -> bool {
    frame is MessageStop || frame is Ping || is_plain(frame.data(), 100)
}

/// Whether that holds of every frame.
pub open spec fn are_plain(frames: Seq<FrameView>) -> bool {
    forall|i: int| 0 <= i < frames.len() ==> is_plain_frame(#[trigger] frames[i])
}

proof fn lemma_concat(a: Seq<FrameView>, b: Seq<FrameView>)
    requires
        are_plain(a),
        are_plain(b),
    ensures
        are_plain(a + b),
{
    let all = a + b;
    assert forall|i: int| 0 <= i < all.len() implies is_plain_frame(#[trigger] all[i]) by {
        if i < a.len() {
            assert(is_plain_frame(a[i]));
        } else {
            assert(is_plain_frame(b[i - a.len()]));
        }
    }
}

proof fn lemma_push(frames: Seq<FrameView>, frame: FrameView)
    requires
        are_plain(frames),
        is_plain_frame(frame),
    ensures
        are_plain(frames.push(frame)),
{
    let all = frames.push(frame);
    assert forall|i: int| 0 <= i < all.len() implies is_plain_frame(#[trigger] all[i]) by {
        if i < frames.len() {
            assert(is_plain_frame(frames[i]));
        }
    }
}

proof fn lemma_with(json: JsonView, name: Seq<char>, value: JsonView, depth: nat)
    requires
        json is Object,
        depth > 0,
        is_plain(json, depth),
        is_plain(value, (depth - 1) as nat),
    ensures
        json.with(name, value) is Object,
        is_plain(json.with(name, value), depth),
{
    let members = json->Object_0;
    let more = members.insert(name, value);
    assert forall|other: Seq<char>| #[trigger] more.contains_key(other) implies is_plain(
        more[other],
        (depth - 1) as nat,
    ) by {
        if other != name {
            assert(members.contains_key(other));
        }
    }
}

proof fn lemma_typed(frame: FrameView)
    ensures
        ({
            let typed = empty_object().with("type"@, json_str(frame.name()));
            typed is Object && is_plain(typed, 100)
        }),
{
    lemma_with(empty_object(), "type"@, json_str(frame.name()), 100);
}

proof fn lemma_usage(usage: Usage, depth: nat)
    requires
        depth > 0,
        usage.server_tool_use is None,
    ensures
        is_plain(usage_json(usage), depth),
{
    let one = empty_object().with(
        "input_tokens"@,
        crate::json::unsigned(usage.input_tokens as u64),
    );
    lemma_with(
        empty_object(),
        "input_tokens"@,
        crate::json::unsigned(usage.input_tokens as u64),
        depth,
    );
    lemma_with(
        one,
        "output_tokens"@,
        crate::json::unsigned(usage.output_tokens as u64),
        depth,
    );
    let two = one.with("output_tokens"@, crate::json::unsigned(usage.output_tokens as u64));
    let read = "cache_read_input_tokens"@;
    let created = "cache_creation_input_tokens"@;
    let three = crate::usage::with_count(two, read, usage.cache_read_input_tokens);
    if let Some(n) = usage.cache_read_input_tokens {
        lemma_with(two, read, crate::json::unsigned(n as u64), depth);
    }
    if let Some(n) = usage.cache_creation_input_tokens {
        lemma_with(three, created, crate::json::unsigned(n as u64), depth);
    }
}

/// An object with two texts.
proof fn lemma_two_texts(a: Seq<char>, x: Seq<char>, b: Seq<char>, y: Seq<char>, depth: nat)
    requires
        depth > 0,
    ensures
        ({
            let json = empty_object().with(a, json_str(x)).with(b, json_str(y));
            json is Object && is_plain(json, depth)
        }),
{
    lemma_with(empty_object(), a, json_str(x), depth);
    lemma_with(empty_object().with(a, json_str(x)), b, json_str(y), depth);
}

proof fn lemma_tool_json(id: Seq<char>, name: Seq<char>)
    ensures
        is_plain(tool_json(id, name), 99),
{
    lemma_two_texts("type"@, "tool_use"@, "id"@, id, 99);
    let two = empty_object().with("type"@, json_str("tool_use"@)).with("id"@, json_str(id));
    lemma_with(two, "name"@, json_str(name), 99);
    lemma_with(two.with("name"@, json_str(name)), "input"@, empty_object(), 99);
}

proof fn lemma_message_json(raw: JsonView)
    ensures
        is_plain(message_json(raw), 99),
{
    let id = crate::state::text_or(raw, "responseId"@, "msg_unknown"@);
    let model = crate::state::text_or(raw, "modelVersion"@, ""@);
    let none = JsonView::Array(Seq::empty());
    let usage = usage_of(reported_usage(raw));
    lemma_two_texts("id"@, id, "type"@, "message"@, 99);
    let two = empty_object().with("id"@, json_str(id)).with("type"@, json_str("message"@));
    let three = two.with("role"@, json_str("assistant"@));
    let four = three.with("content"@, none);
    let five = four.with("model"@, json_str(model));
    let six = five.with("stop_reason"@, JsonView::Null);
    let seven = six.with("stop_sequence"@, JsonView::Null);
    lemma_with(two, "role"@, json_str("assistant"@), 99);
    lemma_with(three, "content"@, none, 99);
    lemma_with(four, "model"@, json_str(model), 99);
    lemma_with(five, "stop_reason"@, JsonView::Null, 99);
    lemma_with(six, "stop_sequence"@, JsonView::Null, 99);
    lemma_usage(usage, 98);
    lemma_with(seven, "usage"@, usage_json(usage), 99);
}

proof fn lemma_message_start(raw: JsonView)
    ensures
        is_plain_frame(FrameView::MessageStart { message: message_json(raw) }),
{
    let frame = FrameView::MessageStart { message: message_json(raw) };
    lemma_typed(frame);
    lemma_message_json(raw);
    lemma_with(
        empty_object().with("type"@, json_str(frame.name())),
        "message"@,
        message_json(raw),
        100,
    );
}

proof fn lemma_indexed(frame: FrameView, index: usize)
    ensures
        ({
            let json = empty_object().with("type"@, json_str(frame.name())).with(
                "index"@,
                crate::json::unsigned(index as u64),
            );
            json is Object && is_plain(json, 100)
        }),
{
    lemma_typed(frame);
    lemma_with(
        empty_object().with("type"@, json_str(frame.name())),
        "index"@,
        crate::json::unsigned(index as u64),
        100,
    );
}

proof fn lemma_block_start(index: usize, block: JsonView)
    requires
        is_plain(block, 99),
    ensures
        is_plain_frame(FrameView::BlockStart { index, block }),
{
    let frame = FrameView::BlockStart { index, block };
    lemma_indexed(frame, index);
    let json = empty_object().with("type"@, json_str(frame.name())).with(
        "index"@,
        crate::json::unsigned(index as u64),
    );
    lemma_with(json, "content_block"@, block, 100);
}

proof fn lemma_block_delta(
    index: usize,
    kind: Seq<char>,
    name: Seq<char>,
    content: Seq<char>,
)
    ensures
        is_plain_frame(FrameView::BlockDelta { index, delta: delta_json(kind, name, content) }),
{
    let delta = delta_json(kind, name, content);
    let frame = FrameView::BlockDelta { index, delta };
    lemma_indexed(frame, index);
    lemma_two_texts("type"@, kind, name, content, 99);
    let json = empty_object().with("type"@, json_str(frame.name())).with(
        "index"@,
        crate::json::unsigned(index as u64),
    );
    lemma_with(json, "delta"@, delta, 100);
}

proof fn lemma_message_delta(stop_reason: Seq<char>, usage: Usage)
    requires
        usage.server_tool_use is None,
    ensures
        is_plain_frame(FrameView::MessageDelta { stop_reason, usage: usage_json(usage) }),
{
    let frame = FrameView::MessageDelta { stop_reason, usage: usage_json(usage) };
    let typed = empty_object().with("type"@, json_str(frame.name()));
    let reason = empty_object().with("stop_reason"@, json_str(stop_reason));
    let delta = reason.with("stop_sequence"@, JsonView::Null);
    lemma_typed(frame);
    lemma_with(empty_object(), "stop_reason"@, json_str(stop_reason), 99);
    lemma_with(reason, "stop_sequence"@, JsonView::Null, 99);
    lemma_with(typed, "delta"@, delta, 100);
    lemma_usage(usage, 99);
    lemma_with(typed.with("delta"@, delta), "usage"@, usage_json(usage), 100);
}

proof fn lemma_error(reason: Seq<char>)
    ensures
        is_plain_frame(FrameView::Error { reason }),
{
    let frame = FrameView::Error { reason };
    lemma_typed(frame);
    lemma_two_texts("type"@, "api_error"@, "message"@, reason, 99);
    lemma_with(
        empty_object().with("type"@, json_str(frame.name())),
        "error"@,
        empty_object().with("type"@, json_str("api_error"@)).with("message"@, json_str(reason)),
        100,
    );
}

proof fn lemma_end_block(state: StateView)
    ensures
        are_plain(state.end_block().frames),
{
    lemma_indexed(FrameView::BlockStop { index: state.block_index }, state.block_index);
}

proof fn lemma_start_block(state: StateView, kind: BlockType, block: JsonView)
    requires
        is_plain(block, 99),
    ensures
        are_plain(state.start_block(kind, block).frames),
{
    let closed = state.end_block();
    lemma_end_block(state);
    lemma_block_start(closed.state.block_index, block);
    lemma_push(
        closed.frames,
        FrameView::BlockStart { index: closed.state.block_index, block },
    );
}

proof fn lemma_text(state: StateView, text: Seq<char>)
    ensures
        are_plain(state.text(text).frames),
        are_plain(state.thinking(text).frames),
{
    if text.len() > 0 {
        let block = content_json("text"@, ""@);
        let opened = state.ensure_block(BlockType::Text, block);
        lemma_two_texts("type"@, "text"@, "text"@, ""@, 99);
        lemma_start_block(state, BlockType::Text, block);
        lemma_block_delta(opened.state.block_index, "text_delta"@, "text"@, text);
        lemma_push(opened.frames, state.text(text).frames.last());
        let thought = content_json("thinking"@, ""@);
        let opened = state.ensure_block(BlockType::Thinking, thought);
        lemma_two_texts("type"@, "thinking"@, "thinking"@, ""@, 99);
        lemma_start_block(state, BlockType::Thinking, thought);
        lemma_block_delta(opened.state.block_index, "thinking_delta"@, "thinking"@, text);
        lemma_push(opened.frames, state.thinking(text).frames.last());
    }
}

proof fn lemma_tool_call(state: StateView, call: FunctionCallView)
    ensures
        are_plain(state.tool_call(call).frames),
{
    let block = tool_json(state.tool_id(call), call.name);
    let opened = state.start_block(BlockType::ToolUse, block);
    lemma_tool_json(state.tool_id(call), call.name);
    lemma_start_block(state, BlockType::ToolUse, block);
    let input = match call.args {
        Some(args) => {
            let content = crate::json::json_text(args);
            lemma_block_delta(
                opened.state.block_index,
                "input_json_delta"@,
                "partial_json"@,
                content,
            );
            seq![
                FrameView::BlockDelta {
                    index: opened.state.block_index,
                    delta: delta_json("input_json_delta"@, "partial_json"@, content),
                },
            ]
        },
        None => Seq::empty(),
    };
    lemma_end_block(opened.state);
    lemma_concat(opened.frames, input);
    lemma_concat(opened.frames + input, opened.state.end_block().frames);
}

proof fn lemma_parts(state: StateView, parts: Seq<JsonView>)
    ensures
        are_plain(state.parts(parts).frames),
    decreases parts.len(),
{
    if parts.len() > 0 {
        let before = state.parts(parts.drop_last());
        lemma_parts(state, parts.drop_last());
        if let Some(part) = part_of(parts.last()) {
            match (part.function_call, part.text) {
                (Some(call), _) => lemma_tool_call(before.state, call),
                (None, Some(text)) => lemma_text(before.state, text),
                (None, None) => {},
            }
            lemma_concat(before.frames, before.state.part(part).frames);
        } else {
            lemma_concat(before.frames, Seq::empty());
        }
    }
}

proof fn lemma_close(state: StateView, reason: Option<Seq<char>>, usage: Option<UsageMetadata>)
    ensures
        are_plain(state.close(reason, usage).frames),
{
    let closed = state.end_block();
    let why = crate::state::stop_reason(state.used_tool, reason);
    let delta = FrameView::MessageDelta { stop_reason: why, usage: usage_json(usage_of(usage)) };
    lemma_end_block(state);
    lemma_message_delta(why, usage_of(usage));
    lemma_push(closed.frames, delta);
    lemma_concat(closed.frames.push(delta), seq![FrameView::MessageStop]);
    lemma_concat(closed.frames.push(delta), Seq::empty());
}

proof fn lemma_sources(state: StateView)
    ensures
        are_plain(state.sources().frames),
{
    let text = crate::sources::sources_text(state.web_search_query, state.grounding_chunks);
    if !state.message_stop_sent && text.len() > 0 {
        let block = content_json("text"@, ""@);
        let opened = state.start_block(BlockType::Text, block);
        lemma_two_texts("type"@, "text"@, "text"@, ""@, 99);
        lemma_start_block(state, BlockType::Text, block);
        lemma_block_delta(opened.state.block_index, "text_delta"@, "text"@, text);
        lemma_push(opened.frames, state.sources().frames.last());
    }
}

proof fn lemma_finish(state: StateView, reason: Option<Seq<char>>, usage: Option<UsageMetadata>)
    ensures
        are_plain(state.finish(reason, usage).frames),
{
    let shown = state.sources();
    lemma_sources(state);
    lemma_close(shown.state, reason, usage);
    lemma_concat(shown.frames, shown.state.close(reason, usage).frames);
}

proof fn lemma_response(state: StateView, raw: JsonView)
    ensures
        are_plain(state.response(raw).frames),
{
    let begun = state.begin(raw);
    let sent = begun.state.ground(raw).parts(crate::line::parts_of(raw));
    let done = sent.state.conclude(raw);
    lemma_message_start(raw);
    lemma_parts(begun.state.ground(raw), crate::line::parts_of(raw));
    if let Some(reason) = crate::line::finish_reason(raw) {
        lemma_finish(sent.state.completed(raw), Some(reason), reported_usage(raw));
    }
    lemma_concat(begun.frames, sent.frames);
    lemma_concat(begun.frames + sent.frames, done.frames);
}

proof fn lemma_raw_line(state: StateView, line: Seq<u8>)
    ensures
        are_plain(state.raw_line(line).frames),
{
    reveal(StateView::line);
    lemma_finish(state, None, None);
    let text = crate::text::trimmed(vstd::utf8::decode_utf8(line));
    if let Some(data) = crate::line::line_data(text) {
        if let Some(json) = json_document(data) {
            lemma_response(state, crate::line::unwrapped(json));
        }
    }
}

proof fn lemma_raw_lines(state: StateView, lines: Seq<Seq<u8>>)
    ensures
        are_plain(state.raw_lines(lines).frames),
    decreases lines.len(),
{
    if lines.len() > 0 {
        let before = state.raw_lines(lines.drop_last());
        lemma_raw_lines(state, lines.drop_last());
        lemma_raw_line(before.state, lines.last());
        lemma_concat(before.frames, before.state.raw_line(lines.last()).frames);
    }
}

proof fn lemma_recovery_block(state: StateView, text: Seq<char>, input: u32, output: u32)
    ensures
        are_plain(state.recovery_block(text, recovery_usage(input, output)).frames),
{
    let block = content_json("text"@, text);
    let opened = state.start_block(BlockType::Text, block);
    let closed = opened.state.end_block();
    let usage = Usage {
        input_tokens: input,
        output_tokens: output,
        cache_read_input_tokens: None,
        cache_creation_input_tokens: None,
        server_tool_use: None,
    };
    lemma_two_texts("type"@, "text"@, "text"@, text, 99);
    lemma_start_block(state, BlockType::Text, block);
    lemma_end_block(opened.state);
    lemma_concat(opened.frames, closed.frames);
    lemma_message_delta("end_turn"@, usage);
    lemma_push(
        opened.frames + closed.frames,
        FrameView::MessageDelta { stop_reason: "end_turn"@, usage: usage_json(usage) },
    );
}

proof fn lemma_recover(state: StateView, now_millis: i64)
    ensures
        are_plain(state.recover(now_millis).frames),
{
    reveal(StateView::recover);
    let raw = recovered_response(now_millis);
    let begun = state.begin(raw);
    lemma_message_start(raw);
    lemma_recovery_block(state, interruption_notice(), 0, 100);
    lemma_recovery_block(begun.state, "."@, 1, 1);
    lemma_concat(
        begun.frames,
        begun.state.recovery_block("."@, recovery_usage(1, 1)).frames,
    );
}

proof fn lemma_advance(stream: StreamView, event: EventView, now_millis: i64)
    ensures
        are_plain(stream.advance(event, now_millis).frames),
{
    match event {
        EventView::Chunk(bytes) => lemma_raw_lines(
            stream.state,
            crate::buffer::complete_lines(stream.buffer + bytes),
        ),
        EventView::Failed(reason) => lemma_error("Stream error: "@ + reason),
        EventView::TimedOut => {},
        EventView::Ended => {
            let flushed = stream.state.raw_line(stream.buffer);
            let recovered = flushed.state.recover(now_millis);
            let stopped = recovered.state.force_stop();
            lemma_raw_line(stream.state, stream.buffer);
            lemma_recover(flushed.state, now_millis);
            lemma_finish(recovered.state, None, None);
            lemma_concat(flushed.frames, recovered.frames);
            lemma_concat(flushed.frames + recovered.frames, stopped.frames);
        },
    }
}

/// Whatever happens upstream, the data of every frame that a stream sends holds
/// nothing that is read otherwise than it is written.
pub proof fn law_stream_is_plain(options: StreamOptions, events: Seq<(EventView, i64)>)
    ensures
        are_plain(initial_stream(options).run(events).frames),
    decreases events.len(),
{
    if events.len() > 0 {
        let before = initial_stream(options).run(events.drop_last());
        let (event, now_millis) = events.last();
        law_stream_is_plain(options, events.drop_last());
        lemma_advance(before.stream, event, now_millis);
        lemma_concat(before.frames, before.stream.advance(event, now_millis).frames);
    }
}

proof fn lemma_results(chunks: Seq<JsonView>)
    ensures
        forall|i: int|
            0 <= i < results_of(chunks).len() ==> is_plain(#[trigger] results_of(chunks)[i], 97),
    decreases chunks.len(),
{
    if chunks.len() > 0 {
        let before = results_of(chunks.drop_last());
        let last = crate::search::results_of_chunk(chunks.last());
        lemma_results(chunks.drop_last());
        if let Some(web) = chunks.last().get("web"@) {
            let url = crate::state::text_or(web, "uri"@, ""@);
            let title = crate::state::text_or(web, "title"@, "Source"@);
            lemma_two_texts("url"@, url, "title"@, title, 97);
            let two = empty_object().with("url"@, json_str(url)).with("title"@, json_str(title));
            lemma_with(two, "encrypted_content"@, json_str(""@), 97);
            lemma_with(
                two.with("encrypted_content"@, json_str(""@)),
                "page_age"@,
                JsonView::Null,
                97,
            );
        }
        assert forall|i: int| 0 <= i < (before + last).len() implies is_plain(
            #[trigger] (before + last)[i],
            97,
        ) by {
            if i < before.len() {
                assert(is_plain(before[i], 97));
            }
        }
    }
}

/// The data of the frames of search results holds nothing that is read otherwise
/// than it is written.
pub proof fn law_search_is_plain(state: StateView, metadata: JsonView, random_id: Seq<char>)
    ensures
        are_plain(state.search(metadata, random_id).frames),
{
    let step = state.search(metadata, random_id);
    let results = search_results(metadata);
    if results.len() > 0 {
        let id = "srvtoolu_"@ + random_id;
        let query = crate::search::query_of(metadata);
        let first = state.block_index;
        let second = crate::state::next_index(first);
        let input = empty_object().with("query"@, json_str(query));
        lemma_two_texts("type"@, "server_tool_use"@, "id"@, id, 99);
        let two = empty_object().with("type"@, json_str("server_tool_use"@)).with(
            "id"@,
            json_str(id),
        );
        lemma_with(two, "name"@, json_str("web_search"@), 99);
        lemma_with(empty_object(), "query"@, json_str(query), 98);
        lemma_with(two.with("name"@, json_str("web_search"@)), "input"@, input, 99);
        lemma_block_start(first, search_json(id, query));
        lemma_indexed(FrameView::BlockStop { index: first }, first);
        if let Some(chunks) = crate::line::array(metadata.get("groundingChunks"@)) {
            lemma_results(chunks);
        }
        lemma_two_texts("type"@, "web_search_tool_result"@, "tool_use_id"@, id, 99);
        lemma_with(
            empty_object().with("type"@, json_str("web_search_tool_result"@)).with(
                "tool_use_id"@,
                json_str(id),
            ),
            "content"@,
            JsonView::Array(results),
            99,
        );
        lemma_block_start(second, found_json(id, results));
        lemma_indexed(FrameView::BlockStop { index: second }, second);
    }
}

/// A client that reads what a stream sent finds, in the chunk of every event but
/// the end of the message, its name and a JSON document that holds its data. The
/// end of the message is sent as a fixed text.
pub proof fn law_client_reads_data(
    options: StreamOptions,
    events: Seq<(EventView, i64)>,
    chunks: Seq<Bytes>,
    i: int,
)
    requires
        are_frames(chunks, initial_stream(options).run(events).frames),
        0 <= i < chunks.len(),
    ensures
        ({
            let frame = initial_stream(options).run(events).frames[i];
            frame is MessageStop || frame is Ping || {
                &&& event_of(chunk_text(chunks[i])) == Some((frame.name(), data_text(frame)))
                &&& json_document(data_text(frame)) == Some(frame.data())
            }
        }),
{
    let frames = initial_stream(options).run(events).frames;
    law_stream_is_plain(options, events);
    assert(is_frame(chunks[i], frames[i]));
    assert(is_plain_frame(frames[i]));
    if !(frames[i] is MessageStop || frames[i] is Ping) {
        law_client_reads_event(chunks[i], frames[i]);
    }
}

} // verus!
