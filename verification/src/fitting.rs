//! That what comes into a content block is of the kind of the block.

use crate::frame::FrameView;
use crate::json::{json_document, JsonView};
use crate::part::{part_of, FunctionCallView};
use crate::reading::is_typed;
use crate::state::{content_json, delta_json, BlockType, StateView, Step, StreamOptions};
use crate::stream::{initial_stream, EventView, StreamView};
use crate::usage::UsageMetadata;
use vstd::prelude::*;

verus! {

/// The name of the kind of the open block, or nothing where none is open.
pub open spec fn kind_name(block: Option<BlockType>) -> Seq<char> {
    match block {
        Some(BlockType::Text) => "text"@,
        Some(BlockType::Thinking) => "thinking"@,
        Some(BlockType::ToolUse) => "tool_use"@,
        None => Seq::empty(),
    }
}

/// Whether a frame fits the kind of the open block: a delta brings what the block
/// holds, and a block says of what kind it is.
pub open spec fn fits(kind: Seq<char>, frame: FrameView) -> bool {
    match frame {
        FrameView::BlockStart { block, .. } => {
            ||| is_typed(block, "text"@)
            ||| is_typed(block, "thinking"@)
            ||| is_typed(block, "tool_use"@)
        },
        FrameView::BlockDelta { delta, .. } => {
            ||| kind == "text"@ && is_typed(delta, "text_delta"@)
            ||| kind == "thinking"@ && is_typed(delta, "thinking_delta"@)
            ||| kind == "tool_use"@ && is_typed(delta, "input_json_delta"@)
        },
        _ => true,
    }
}

/// The kind of the open block after a frame.
pub open spec fn kind_after(kind: Seq<char>, frame: FrameView) -> Seq<char> {
    match frame {
        FrameView::BlockStart { block, .. } => crate::reading::text_under(block, "type"@),
        FrameView::BlockStop { .. } => Seq::empty(),
        _ => kind,
    }
}

/// The kind of the open block after several frames.
pub open spec fn kind_after_all(kind: Seq<char>, frames: Seq<FrameView>) -> Seq<char>
    decreases frames.len(),
{
    if frames.len() == 0 {
        kind
    } else {
        kind_after(kind_after_all(kind, frames.drop_last()), frames.last())
    }
}

/// Whether several frames fit, in their order.
pub open spec fn all_fit(kind: Seq<char>, frames: Seq<FrameView>) -> bool
    decreases frames.len(),
{
    frames.len() == 0 || {
        &&& all_fit(kind, frames.drop_last())
        &&& fits(kind_after_all(kind, frames.drop_last()), frames.last())
    }
}

/// Whether the frames of a step fit, and the state knows which block they leave
/// open.
pub open spec fn is_fitting(state: StateView, step: Step) -> bool {
    &&& all_fit(kind_name(state.block), step.frames)
    &&& kind_after_all(kind_name(state.block), step.frames) == kind_name(step.state.block)
}

proof fn lemma_concat(kind: Seq<char>, a: Seq<FrameView>, b: Seq<FrameView>)
    ensures
        kind_after_all(kind, a + b) == kind_after_all(kind_after_all(kind, a), b),
        all_fit(kind, a + b) <==> all_fit(kind, a) && all_fit(kind_after_all(kind, a), b),
    decreases b.len(),
{
    if b.len() == 0 {
        assert(a + b =~= a);
    } else {
        assert((a + b).drop_last() =~= a + b.drop_last());
        lemma_concat(kind, a, b.drop_last());
    }
}

proof fn lemma_push(kind: Seq<char>, frames: Seq<FrameView>, frame: FrameView)
    ensures
        kind_after_all(kind, frames.push(frame)) == kind_after(kind_after_all(kind, frames), frame),
        all_fit(kind, frames.push(frame)) <==> all_fit(kind, frames) && fits(
            kind_after_all(kind, frames),
            frame,
        ),
{
    assert(frames.push(frame).drop_last() =~= frames);
}

proof fn lemma_one(kind: Seq<char>, frame: FrameView)
    ensures
        kind_after_all(kind, seq![frame]) == kind_after(kind, frame),
        all_fit(kind, seq![frame]) <==> fits(kind, frame),
{
    assert(seq![frame] =~= Seq::empty().push(frame));
    lemma_push(kind, Seq::empty(), frame);
}

proof fn lemma_then(state: StateView, first: Step, second: Step)
    requires
        is_fitting(state, first),
        is_fitting(first.state, second),
    ensures
        is_fitting(state, Step { state: second.state, frames: first.frames + second.frames }),
{
    lemma_concat(kind_name(state.block), first.frames, second.frames);
}

proof fn lemma_literals()
    ensures
        "type"@ != "text"@,
        "type"@ != "thinking"@,
        "type"@ != "partial_json"@,
        "type"@ != "id"@,
        "type"@ != "name"@,
        "type"@ != "input"@,
{
    reveal_strlit("type");
    reveal_strlit("text");
    reveal_strlit("thinking");
    reveal_strlit("partial_json");
    reveal_strlit("id");
    reveal_strlit("name");
    reveal_strlit("input");
    assert("type"@[1] == 'y' && "text"@[1] == 'e');
    assert("type"@[0] == 't' && "name"@[0] == 'n');
    assert("type"@.len() == 4 && "thinking"@.len() == 8 && "partial_json"@.len() == 12);
    assert("id"@.len() == 2 && "input"@.len() == 5);
}

proof fn lemma_end_block(state: StateView)
    ensures
        is_fitting(state, state.end_block()),
{
    lemma_one(kind_name(state.block), FrameView::BlockStop { index: state.block_index });
}

proof fn lemma_start_block(state: StateView, kind: BlockType, block: JsonView)
    requires
        is_typed(block, kind_name(Some(kind))),
    ensures
        is_fitting(state, state.start_block(kind, block)),
{
    let closed = state.end_block();
    lemma_end_block(state);
    lemma_push(
        kind_name(state.block),
        closed.frames,
        FrameView::BlockStart { index: closed.state.block_index, block },
    );
}

proof fn lemma_pieces(state: StateView, text: Seq<char>)
    ensures
        is_fitting(state, state.text(text)),
        is_fitting(state, state.thinking(text)),
{
    lemma_literals();
    if text.len() > 0 {
        let block = content_json("text"@, ""@);
        assert(is_typed(block, "text"@));
        lemma_start_block(state, BlockType::Text, block);
        let opened = state.ensure_block(BlockType::Text, block);
        let frame = state.text(text).frames.last();
        assert(is_typed(delta_json("text_delta"@, "text"@, text), "text_delta"@));
        lemma_push(kind_name(state.block), opened.frames, frame);
        let block = content_json("thinking"@, ""@);
        assert(is_typed(block, "thinking"@));
        lemma_start_block(state, BlockType::Thinking, block);
        let opened = state.ensure_block(BlockType::Thinking, block);
        let frame = state.thinking(text).frames.last();
        assert(is_typed(delta_json("thinking_delta"@, "thinking"@, text), "thinking_delta"@));
        lemma_push(kind_name(state.block), opened.frames, frame);
    }
}

proof fn lemma_tool_call(state: StateView, call: FunctionCallView)
    ensures
        is_fitting(state, state.tool_call(call)),
{
    lemma_literals();
    let block = crate::state::tool_json(state.tool_id(call), call.name);
    assert(is_typed(block, "tool_use"@));
    let opened = state.start_block(BlockType::ToolUse, block);
    let stop = FrameView::BlockStop { index: opened.state.block_index };
    let kind = kind_name(state.block);
    lemma_start_block(state, BlockType::ToolUse, block);
    match call.args {
        Some(args) => {
            let delta = delta_json(
                "input_json_delta"@,
                "partial_json"@,
                crate::json::json_text(args),
            );
            assert(is_typed(delta, "input_json_delta"@));
            let frame = FrameView::BlockDelta { index: opened.state.block_index, delta };
            lemma_push(kind, opened.frames, frame);
            lemma_push(kind, opened.frames.push(frame), stop);
            assert(state.tool_call(call).frames =~= opened.frames.push(frame).push(stop));
        },
        None => {
            lemma_push(kind, opened.frames, stop);
            assert(state.tool_call(call).frames =~= opened.frames.push(stop));
        },
    }
}

proof fn lemma_parts(state: StateView, parts: Seq<JsonView>)
    ensures
        is_fitting(state, state.parts(parts)),
    decreases parts.len(),
{
    if parts.len() > 0 {
        let before = state.parts(parts.drop_last());
        lemma_parts(state, parts.drop_last());
        if let Some(part) = part_of(parts.last()) {
            match (part.function_call, part.text) {
                (Some(call), _) => lemma_tool_call(before.state, call),
                (None, Some(text)) => lemma_pieces(before.state, text),
                (None, None) => {},
            }
            lemma_then(state, before, before.state.part(part));
        } else {
            lemma_then(state, before, before.state.stay());
        }
    }
}

proof fn lemma_sources(state: StateView)
    ensures
        is_fitting(state, state.sources()),
{
    lemma_literals();
    let text = crate::sources::sources_text(state.web_search_query, state.grounding_chunks);
    let block = content_json("text"@, ""@);
    assert(is_typed(block, "text"@));
    assert(is_typed(delta_json("text_delta"@, "text"@, text), "text_delta"@));
    lemma_start_block(state, BlockType::Text, block);
    if !state.message_stop_sent && text.len() > 0 {
        lemma_push(
            kind_name(state.block),
            state.start_block(BlockType::Text, block).frames,
            state.sources().frames.last(),
        );
    }
}

proof fn lemma_finish(state: StateView, reason: Option<Seq<char>>, usage: Option<UsageMetadata>)
    ensures
        is_fitting(state, state.finish(reason, usage)),
{
    if state.message_start_sent {
        let shown = state.sources();
        let ended = shown.state.close(reason, usage);
        let closed = shown.state.end_block();
        let kind = kind_name(shown.state.block);
        let delta = FrameView::MessageDelta {
            stop_reason: crate::state::stop_reason(shown.state.used_tool, reason),
            usage: crate::usage::usage_json(crate::usage::usage_of(usage)),
        };
        lemma_sources(state);
        lemma_end_block(shown.state);
        lemma_push(kind, closed.frames, delta);
        lemma_push(kind, closed.frames.push(delta), FrameView::MessageStop);
        if state.message_stop_sent {
            assert(ended.frames =~= closed.frames.push(delta));
        } else {
            assert(ended.frames =~= closed.frames.push(delta).push(FrameView::MessageStop));
        }
        lemma_then(state, shown, ended);
    }
}

proof fn lemma_force_stop(state: StateView)
    ensures
        is_fitting(state, state.force_stop()),
{
    lemma_finish(state, None, None);
    lemma_one(kind_name(state.block), FrameView::MessageStop);
}

proof fn lemma_begin(state: StateView, raw: JsonView)
    ensures
        is_fitting(state, state.begin(raw)),
{
    lemma_one(
        kind_name(state.block),
        FrameView::MessageStart { message: crate::state::message_json(raw) },
    );
}

proof fn lemma_response(state: StateView, raw: JsonView)
    ensures
        is_fitting(state, state.response(raw)),
{
    let begun = state.begin(raw);
    let parts = crate::line::parts_of(raw);
    let sent = begun.state.ground(raw).parts(parts);
    lemma_begin(state, raw);
    lemma_parts(begun.state.ground(raw), parts);
    lemma_then(state, begun, sent);
    if let Some(reason) = crate::line::finish_reason(raw) {
        lemma_finish(
            sent.state.completed(raw),
            Some(reason),
            crate::state::reported_usage(raw),
        );
    }
    lemma_then(
        state,
        Step { state: sent.state, frames: begun.frames + sent.frames },
        sent.state.conclude(raw),
    );
}

proof fn lemma_raw_line(state: StateView, line: Seq<u8>)
    ensures
        is_fitting(state, state.raw_line(line)),
{
    reveal(StateView::line);
    lemma_force_stop(state);
    let text = crate::text::trimmed(vstd::utf8::decode_utf8(line));
    if let Some(data) = crate::line::line_data(text) {
        if let Some(json) = json_document(data) {
            lemma_response(state, crate::line::unwrapped(json));
        }
    }
}

proof fn lemma_raw_lines(state: StateView, lines: Seq<Seq<u8>>)
    ensures
        is_fitting(state, state.raw_lines(lines)),
    decreases lines.len(),
{
    if lines.len() > 0 {
        let before = state.raw_lines(lines.drop_last());
        lemma_raw_lines(state, lines.drop_last());
        lemma_raw_line(before.state, lines.last());
        lemma_then(state, before, before.state.raw_line(lines.last()));
    }
}

proof fn lemma_recovery_block(state: StateView, text: Seq<char>, usage: JsonView)
    ensures
        is_fitting(state, state.recovery_block(text, usage)),
{
    lemma_literals();
    let block = content_json("text"@, text);
    let kind = kind_name(state.block);
    assert(is_typed(block, "text"@));
    let opened = state.start_block(BlockType::Text, block);
    let stop = FrameView::BlockStop { index: opened.state.block_index };
    let delta = FrameView::MessageDelta { stop_reason: "end_turn"@, usage };
    lemma_start_block(state, BlockType::Text, block);
    lemma_push(kind, opened.frames, stop);
    lemma_push(kind, opened.frames.push(stop), delta);
    assert(state.recovery_block(text, usage).frames =~= opened.frames.push(stop).push(delta));
}

proof fn lemma_end(state: StateView, rest: Seq<u8>, now_millis: i64)
    ensures
        is_fitting(state, state.end(rest, now_millis)),
{
    reveal(StateView::recover);
    let flushed = state.raw_line(rest);
    let recovered = flushed.state.recover(now_millis);
    lemma_raw_line(state, rest);
    if !flushed.state.has_content {
        if flushed.state.has_thinking {
            lemma_recovery_block(
                flushed.state.logged(crate::log::LogView::Interrupted),
                crate::stream::interruption_notice(),
                crate::stream::recovery_usage(0, 100),
            );
        } else {
            let raw = crate::stream::recovered_response(now_millis);
            let begun = flushed.state.begin(raw);
            lemma_begin(flushed.state, raw);
            lemma_recovery_block(begun.state, "."@, crate::stream::recovery_usage(1, 1));
            lemma_then(
                flushed.state,
                begun,
                begun.state.recovery_block("."@, crate::stream::recovery_usage(1, 1)),
            );
        }
    }
    lemma_then(state, flushed, recovered);
    lemma_force_stop(recovered.state);
    lemma_then(
        state,
        Step { state: recovered.state, frames: flushed.frames + recovered.frames },
        recovered.state.force_stop(),
    );
}

proof fn lemma_advance(stream: StreamView, event: EventView, now_millis: i64)
    ensures
        ({
            let step = stream.advance(event, now_millis);
            is_fitting(stream.state, Step { state: step.stream.state, frames: step.frames })
        }),
{
    let kind = kind_name(stream.state.block);
    match event {
        EventView::Chunk(bytes) => lemma_raw_lines(
            stream.state,
            crate::buffer::complete_lines(stream.buffer + bytes),
        ),
        EventView::Failed(reason) => lemma_one(
            kind,
            FrameView::Error { reason: "Stream error: "@ + reason },
        ),
        EventView::TimedOut => lemma_one(kind, FrameView::Ping),
        EventView::Ended => lemma_end(stream.state, stream.buffer, now_millis),
    }
}

/// Whatever happens upstream, each block says that it is one of text, of thinking
/// or of a tool call, and each delta brings what the open block is for.
pub proof fn law_deltas_fit_their_blocks(options: StreamOptions, events: Seq<(EventView, i64)>)
    ensures
        all_fit(Seq::empty(), initial_stream(options).run(events).frames),
        kind_after_all(Seq::empty(), initial_stream(options).run(events).frames) == kind_name(
            initial_stream(options).run(events).stream.state.block,
        ),
    decreases events.len(),
{
    if events.len() > 0 {
        let before = initial_stream(options).run(events.drop_last());
        let (event, now_millis) = events.last();
        law_deltas_fit_their_blocks(options, events.drop_last());
        lemma_advance(before.stream, event, now_millis);
        lemma_concat(
            Seq::empty(),
            before.frames,
            before.stream.advance(event, now_millis).frames,
        );
    }
}

} // verus!
