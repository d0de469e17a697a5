//! What a client reads of the content that came from upstream.

use crate::buffer::complete_lines;
use crate::frame::FrameView;
use crate::json::{json_document, json_text, JsonView};
use crate::laws::{all_go_on, bytes_of, goes_on, is_sound_stream, law_pieces_act_as_one};
use crate::part::{part_of, FunctionCallView};
use crate::sources::sources_text;
use crate::state::{BlockType, StateView, StreamOptions};
use crate::stream::{initial_stream, EventView, StreamView};
use crate::text::{has_prefix, trimmed};
use crate::usage::UsageMetadata;
use vstd::prelude::*;
use vstd::utf8::{decode_utf8, valid_utf8};

verus! {

/// The kinds of content that a message carries.
pub enum Channel {
    Text,
    Thinking,
    /// The arguments of tool calls.
    Input,
}

/// Whether a value says of itself that it is of a type.
pub open spec fn is_typed(json: JsonView, kind: Seq<char>) -> bool {
    json.get("type"@) == Some(JsonView::Text(kind))
}

/// The text of a member; nothing where it is no text.
pub open spec fn text_under(json: JsonView, name: Seq<char>) -> Seq<char> {
    match json.get(name) {
        Some(JsonView::Text(s)) => s,
        _ => Seq::empty(),
    }
}

/// What a client adds to what it has read of a channel when a frame comes: the
/// text that a block begins with, and that of each delta.
pub open spec fn adds(frame: FrameView, channel: Channel) -> Seq<char> {
    match (frame, channel) {
        (FrameView::BlockStart { block, .. }, Channel::Text) if is_typed(block, "text"@) =>
            text_under(block, "text"@),
        (FrameView::BlockStart { block, .. }, Channel::Thinking) if is_typed(block, "thinking"@) =>
            text_under(block, "thinking"@),
        (FrameView::BlockDelta { delta, .. }, Channel::Text) if is_typed(delta, "text_delta"@) =>
            text_under(delta, "text"@),
        (FrameView::BlockDelta { delta, .. }, Channel::Thinking) if is_typed(
            delta,
            "thinking_delta"@,
        ) => text_under(delta, "thinking"@),
        (FrameView::BlockDelta { delta, .. }, Channel::Input) if is_typed(
            delta,
            "input_json_delta"@,
        ) => text_under(delta, "partial_json"@),
        _ => Seq::empty(),
    }
}

/// What a client reads of a channel.
pub open spec fn read(frames: Seq<FrameView>, channel: Channel) -> Seq<char>
    decreases frames.len(),
{
    if frames.len() == 0 {
        Seq::empty()
    } else {
        read(frames.drop_last(), channel) + adds(frames.last(), channel)
    }
}

/// The names of the tools that a client is asked to use, in order.
pub open spec fn tools_read(frames: Seq<FrameView>) -> Seq<Seq<char>>
    decreases frames.len(),
{
    if frames.len() == 0 {
        Seq::empty()
    } else {
        let before = tools_read(frames.drop_last());
        match frames.last() {
            FrameView::BlockStart { block, .. } if is_typed(block, "tool_use"@) => before.push(
                text_under(block, "name"@),
            ),
            _ => before,
        }
    }
}

/// Whether a member is missing or null.
pub open spec fn is_missing(json: JsonView, name: Seq<char>) -> bool {
    json.get(name) is None || json.get(name) == Some(JsonView::Null)
}

/// Whether a member is a text.
pub open spec fn is_text(json: JsonView, name: Seq<char>) -> bool {
    json.get(name) matches Some(JsonView::Text(_))
}

/// Whether a member is a Boolean.
pub open spec fn is_flag(json: JsonView, name: Seq<char>) -> bool {
    json.get(name) matches Some(JsonView::Bool(_))
}

/// Whether a call names its tool, and has an id that is a text if it has one.
pub open spec fn is_well_formed_call(call: JsonView) -> bool {
    &&& is_text(call, "name"@)
    &&& is_missing(call, "id"@) || is_text(call, "id"@)
}

/// Whether the members of a part have the types that they should have.
pub open spec fn is_well_formed_part(part: JsonView) -> bool {
    &&& part is Object
    &&& is_missing(part, "text"@) || is_text(part, "text"@)
    &&& is_missing(part, "thought"@) || is_flag(part, "thought"@)
    &&& is_missing(part, "functionCall"@) || is_well_formed_call(
        part.get("functionCall"@).unwrap(),
    )
}

/// Whether a part calls a tool.
pub open spec fn is_call(part: JsonView) -> bool {
    is_well_formed_part(part) && !is_missing(part, "functionCall"@)
}

/// What a part holds for a channel.
pub open spec fn part_content(part: JsonView, channel: Channel) -> Seq<char> {
    let is_thought = part.get("thought"@) == Some(JsonView::Bool(true));
    if !is_well_formed_part(part) {
        Seq::empty()
    } else if is_call(part) {
        let call = part.get("functionCall"@).unwrap();
        match channel {
            Channel::Input if !is_missing(call, "args"@) => json_text(call.get("args"@).unwrap()),
            _ => Seq::empty(),
        }
    } else {
        match channel {
            Channel::Text if !is_thought => text_under(part, "text"@),
            Channel::Thinking if is_thought => text_under(part, "text"@),
            _ => Seq::empty(),
        }
    }
}

/// What parts hold for a channel, joined in order.
pub open spec fn content(parts: Seq<JsonView>, channel: Channel) -> Seq<char>
    decreases parts.len(),
{
    if parts.len() == 0 {
        Seq::empty()
    } else {
        content(parts.drop_last(), channel) + part_content(parts.last(), channel)
    }
}

/// The names of the tools that parts call, in order.
pub open spec fn tools_called(parts: Seq<JsonView>) -> Seq<Seq<char>>
    decreases parts.len(),
{
    if parts.len() == 0 {
        Seq::empty()
    } else {
        let before = tools_called(parts.drop_last());
        if is_call(parts.last()) {
            before.push(text_under(parts.last().get("functionCall"@).unwrap(), "name"@))
        } else {
            before
        }
    }
}

/// The first candidate of a response.
pub open spec fn lead(raw: JsonView) -> JsonView {
    match raw.get("candidates"@) {
        Some(JsonView::Array(items)) if items.len() > 0 => items[0],
        _ => JsonView::Null,
    }
}

/// The parts of a response.
pub open spec fn lead_parts(raw: JsonView) -> Seq<JsonView> {
    match lead(raw).get("content"@) {
        Some(content) => match content.get("parts"@) {
            Some(JsonView::Array(parts)) => parts,
            _ => Seq::empty(),
        },
        None => Seq::empty(),
    }
}

/// The response that a line brings: a JSON document after `data: `, or its member
/// `response`.
pub open spec fn line_response(line: Seq<u8>) -> Option<JsonView> {
    let text = trimmed(decode_utf8(line));
    let data = trimmed(text.skip(6));
    if valid_utf8(line) && has_prefix(text, "data: "@) && data.len() > 0 && data != "[DONE]"@ {
        match json_document(data) {
            Some(json) => match json.get("response"@) {
                Some(response) => Some(response),
                None => Some(json),
            },
            None => None,
        }
    } else {
        None
    }
}

/// What a line brings for a channel.
pub open spec fn line_content(line: Seq<u8>, channel: Channel) -> Seq<char> {
    match line_response(line) {
        Some(raw) => content(lead_parts(raw), channel),
        None => Seq::empty(),
    }
}

/// What lines bring for a channel, joined in order.
pub open spec fn received(lines: Seq<Seq<u8>>, channel: Channel) -> Seq<char>
    decreases lines.len(),
{
    if lines.len() == 0 {
        Seq::empty()
    } else {
        received(lines.drop_last(), channel) + line_content(lines.last(), channel)
    }
}

/// The names of the types, and of the members of content, are all distinct.
proof fn lemma_literals()
    ensures
        "type"@ != "text"@,
        "type"@ != "thinking"@,
        "type"@ != "partial_json"@,
        "type"@ != "id"@,
        "type"@ != "name"@,
        "type"@ != "input"@,
        "id"@ != "name"@,
        "id"@ != "input"@,
        "name"@ != "input"@,
        "text"@ != "thinking"@,
        "text"@ != "tool_use"@,
        "thinking"@ != "tool_use"@,
        "text_delta"@ != "thinking_delta"@,
        "text_delta"@ != "input_json_delta"@,
        "thinking_delta"@ != "input_json_delta"@,
{
    reveal_strlit("type");
    reveal_strlit("text");
    reveal_strlit("thinking");
    reveal_strlit("partial_json");
    reveal_strlit("id");
    reveal_strlit("name");
    reveal_strlit("input");
    reveal_strlit("tool_use");
    reveal_strlit("text_delta");
    reveal_strlit("thinking_delta");
    reveal_strlit("input_json_delta");
    assert("type"@[1] == 'y' && "text"@[1] == 'e');
    assert("thinking"@[1] == 'h' && "tool_use"@[1] == 'o');
    assert("type"@.len() == 4 && "thinking"@.len() == 8 && "partial_json"@.len() == 12);
    assert("id"@.len() == 2 && "name"@.len() == 4 && "input"@.len() == 5);
    assert("type"@[0] == 't' && "name"@[0] == 'n');
    assert("tool_use"@.len() == 8 && "text"@.len() == 4);
    assert("text_delta"@.len() == 10 && "thinking_delta"@.len() == 14);
    assert("input_json_delta"@.len() == 16);
}

pub(crate) proof fn lemma_read_concat(a: Seq<FrameView>, b: Seq<FrameView>, channel: Channel)
    ensures
        read(a + b, channel) == read(a, channel) + read(b, channel),
        tools_read(a + b) == tools_read(a) + tools_read(b),
    decreases b.len(),
{
    if b.len() == 0 {
        assert(a + b =~= a);
        assert(read(a, channel) + read(b, channel) =~= read(a, channel));
        assert(tools_read(a) + tools_read(b) =~= tools_read(a));
    } else {
        assert((a + b).drop_last() =~= a + b.drop_last());
        lemma_read_concat(a, b.drop_last(), channel);
        assert(read(a + b, channel) =~= read(a, channel) + read(b, channel));
        assert(tools_read(a + b) =~= tools_read(a) + tools_read(b));
    }
}

pub(crate) proof fn lemma_read_push(frames: Seq<FrameView>, frame: FrameView, channel: Channel)
    ensures
        read(frames.push(frame), channel) == read(frames, channel) + adds(frame, channel),
{
    assert(frames.push(frame).drop_last() =~= frames);
}

pub(crate) proof fn lemma_read_one(frame: FrameView, channel: Channel)
    ensures
        read(seq![frame], channel) == adds(frame, channel),
        tools_read(seq![frame]) == match frame {
            FrameView::BlockStart { block, .. } if is_typed(block, "tool_use"@) => seq![
                text_under(block, "name"@),
            ],
            _ => Seq::empty(),
        },
{
    let frames = seq![frame];
    assert(frames.drop_last() =~= Seq::empty());
    assert(read(frames.drop_last(), channel) =~= Seq::empty());
    assert(tools_read(frames.drop_last()) =~= Seq::empty());
    assert(read(frames, channel) =~= adds(frame, channel));
    assert(Seq::<Seq<char>>::empty().push(Seq::empty()) =~= seq![Seq::<char>::empty()]);
    match frame {
        FrameView::BlockStart { block, .. } if is_typed(block, "tool_use"@) => {
            assert(tools_read(frames) =~= seq![text_under(block, "name"@)]);
        },
        _ => {},
    }
}

/// Frames that neither begin a block nor add to one carry no content.
pub(crate) proof fn lemma_no_content(frames: Seq<FrameView>, channel: Channel)
    requires
        forall|i: int|
            0 <= i < frames.len() ==> !((#[trigger] frames[i]) is BlockStart) && !(
            frames[i] is BlockDelta),
    ensures
        read(frames, channel) == Seq::<char>::empty(),
        tools_read(frames) == Seq::<Seq<char>>::empty(),
    decreases frames.len(),
{
    if frames.len() > 0 {
        let rest = frames.drop_last();
        assert forall|i: int| 0 <= i < rest.len() implies !((#[trigger] rest[i]) is BlockStart)
            && !(rest[i] is BlockDelta) by {
            assert(rest[i] == frames[i]);
        }
        lemma_no_content(rest, channel);
        let last = frames[frames.len() - 1];
        assert(!(last is BlockStart) && !(last is BlockDelta));
        assert(read(frames, channel) =~= Seq::empty());
    }
}

proof fn lemma_start_block(state: StateView, kind: BlockType, block: JsonView, channel: Channel)
    ensures
        ({
            let frame = FrameView::BlockStart { index: 0, block };
            let frames = state.start_block(kind, block).frames;
            &&& read(frames, channel) == adds(frame, channel)
            &&& tools_read(frames) == tools_read(seq![frame])
        }),
{
    let frame = FrameView::BlockStart { index: 0, block };
    let closed = state.end_block();
    let start = FrameView::BlockStart { index: closed.state.block_index, block };
    lemma_no_content(closed.frames, channel);
    lemma_read_push(closed.frames, start, channel);
    assert(state.start_block(kind, block).frames.drop_last() =~= closed.frames);
    assert(seq![frame].drop_last() =~= Seq::empty());
    assert(tools_read(seq![frame].drop_last()) =~= Seq::empty());
    assert(read(closed.frames.push(start), channel) =~= adds(frame, channel));
}

/// A piece of text, or of thinking, is sent as it is.
proof fn lemma_piece(state: StateView, text: Seq<char>, channel: Channel)
    ensures
        read(state.text(text).frames, channel) == match channel {
            Channel::Text => text,
            _ => Seq::empty(),
        },
        read(state.thinking(text).frames, channel) == match channel {
            Channel::Thinking => text,
            _ => Seq::empty(),
        },
        tools_read(state.text(text).frames) == Seq::<Seq<char>>::empty(),
        tools_read(state.thinking(text).frames) == Seq::<Seq<char>>::empty(),
{
    lemma_literals();
    if text.len() == 0 {
        assert(text =~= Seq::empty());
    } else {
        let block = crate::state::content_json("text"@, ""@);
        let opened = state.ensure_block(BlockType::Text, block);
        let frames = state.text(text).frames;
        reveal_strlit("");
        assert(""@ =~= Seq::empty());
        lemma_start_block(state, BlockType::Text, block, channel);
        lemma_read_push(opened.frames, frames.last(), channel);
        assert(frames.drop_last() =~= opened.frames);
        lemma_read_one(FrameView::BlockStart { index: 0, block }, channel);
        assert(block.get("type"@) == Some(JsonView::Text("text"@)));
        assert(tools_read(opened.frames) =~= Seq::empty());
        assert(tools_read(frames) =~= Seq::empty());
        assert(read(frames, channel) =~= adds(frames.last(), channel));
        let block = crate::state::content_json("thinking"@, ""@);
        let opened = state.ensure_block(BlockType::Thinking, block);
        let frames = state.thinking(text).frames;
        lemma_start_block(state, BlockType::Thinking, block, channel);
        lemma_read_push(opened.frames, frames.last(), channel);
        assert(frames.drop_last() =~= opened.frames);
        lemma_read_one(FrameView::BlockStart { index: 0, block }, channel);
        assert(block.get("type"@) == Some(JsonView::Text("thinking"@)));
        assert(tools_read(opened.frames) =~= Seq::empty());
        assert(tools_read(frames) =~= Seq::empty());
        assert(read(frames, channel) =~= adds(frames.last(), channel));
    }
}

/// How many frames begin a block.
pub open spec fn block_starts(frames: Seq<FrameView>) -> nat
    decreases frames.len(),
{
    if frames.len() == 0 {
        0
    } else {
        block_starts(frames.drop_last()) + if frames.last() is BlockStart {
            1nat
        } else {
            0
        }
    }
}

/// A tool call is sent whole, in a block of its own: the block names the tool and
/// has the id of the call, if it has one, and the deltas of the block bring its
/// arguments, if it has any. Nothing else is sent but the end of a block that was
/// open.
pub proof fn law_tool_call_is_whole(state: StateView, call: FunctionCallView)
    ensures
        ({
            let frames = state.tool_call(call).frames;
            let first: int = if state.block is Some {
                1
            } else {
                0
            };
            let n = frames.len() as int;
            &&& block_starts(frames) == 1
            &&& state.block is Some ==> frames[0] is BlockStop
            &&& frames[first] matches FrameView::BlockStart { index, block } && {
                &&& is_typed(block, "tool_use"@)
                &&& block.get("name"@) == Some(JsonView::Text(call.name))
                &&& call.id matches Some(id) ==> block.get("id"@) == Some(JsonView::Text(id))
                &&& is_text(block, "id"@)
                &&& block.get("input"@) == Some(JsonView::Object(Map::empty()))
                &&& frames[n - 1] == FrameView::BlockStop { index }
                &&& forall|i: int|
                    first < i < n - 1 ==> ((#[trigger] frames[i]) matches FrameView::BlockDelta {
                        index: at,
                        delta,
                    } && at == index && is_typed(delta, "input_json_delta"@))
            }
            &&& read(frames, Channel::Input) == match call.args {
                Some(args) => json_text(args),
                None => Seq::empty(),
            }
            &&& read(frames, Channel::Text) == Seq::<char>::empty()
            &&& read(frames, Channel::Thinking) == Seq::<char>::empty()
            &&& tools_read(frames) == seq![call.name]
        }),
{
    lemma_literals();
    let id = state.tool_id(call);
    let block = crate::state::tool_json(id, call.name);
    let opened = state.start_block(BlockType::ToolUse, block);
    let closed = opened.state.end_block();
    let frames = state.tool_call(call).frames;
    let body = frames.skip(opened.frames.len() as int);
    assert(frames =~= opened.frames + body);
    assert(block.get("type"@) == Some(JsonView::Text("tool_use"@)));
    assert(block.get("name"@) == Some(JsonView::Text(call.name)));
    assert(block.get("id"@) == Some(JsonView::Text(id)));
    assert(block.get("input"@) == Some(JsonView::Object(Map::empty())));
    assert forall|channel: Channel| #[trigger] read(frames, channel) == read(body, channel) by {
        lemma_start_block(state, BlockType::ToolUse, block, channel);
        lemma_read_concat(opened.frames, body, channel);
        assert(read(opened.frames, channel) =~= Seq::empty());
        assert(read(frames, channel) =~= read(body, channel));
    }
    let stop = closed.frames;
    lemma_start_block(state, BlockType::ToolUse, block, Channel::Text);
    lemma_read_concat(opened.frames, body, Channel::Text);
    lemma_read_one(FrameView::BlockStart { index: 0, block }, Channel::Text);
    reveal_with_fuel(block_starts, 5);
    assert(opened.frames.drop_last() =~= state.end_block().frames);
    match call.args {
        Some(args) => {
            let delta = crate::state::delta_json(
                "input_json_delta"@,
                "partial_json"@,
                json_text(args),
            );
            let frame = FrameView::BlockDelta { index: opened.state.block_index, delta };
            assert(delta.get("type"@) == Some(JsonView::Text("input_json_delta"@)));
            assert(delta.get("partial_json"@) == Some(JsonView::Text(json_text(args))));
            assert(body =~= seq![frame] + stop);
            assert forall|channel: Channel| #[trigger]
                read(body, channel) == adds(frame, channel) by {
                lemma_read_one(frame, channel);
                lemma_no_content(stop, channel);
                lemma_read_concat(seq![frame], stop, channel);
                assert(read(body, channel) =~= adds(frame, channel));
            }
            lemma_read_one(frame, Channel::Text);
            lemma_no_content(stop, Channel::Text);
            lemma_read_concat(seq![frame], stop, Channel::Text);
            assert(tools_read(body) =~= Seq::empty());
            assert(frames.drop_last() =~= opened.frames.push(frame));
            assert(frames.drop_last().drop_last() =~= opened.frames);
            assert(frames.drop_last().drop_last().drop_last() =~= state.end_block().frames);
        },
        None => {
            assert(body =~= stop);
            assert forall|channel: Channel| #[trigger]
                read(body, channel) == Seq::<char>::empty() by {
                lemma_no_content(body, channel);
            }
            lemma_no_content(body, Channel::Text);
            assert(frames.drop_last() =~= opened.frames);
            assert(frames.drop_last().drop_last() =~= state.end_block().frames);
        },
    }
    assert(seq![call.name] + Seq::<Seq<char>>::empty() =~= seq![call.name]);
    if state.block is Some {
        assert(state.end_block().frames.drop_last() =~= Seq::empty());
    }
}

/// A part is read where its members have the types that they should have, and
/// holds what they hold.
pub proof fn law_part_is_read(json: JsonView)
    ensures
        part_of(json) is Some <==> is_well_formed_part(json),
        part_of(json) matches Some(part) ==> {
            &&& part.text is Some <==> is_text(json, "text"@)
            &&& part.text matches Some(text) ==> json.get("text"@) == Some(JsonView::Text(text))
            &&& part.thought <==> json.get("thought"@) == Some(JsonView::Bool(true))
            &&& part.function_call is Some <==> is_call(json)
            &&& part.function_call matches Some(call) ==> {
                let given = json.get("functionCall"@).unwrap();
                &&& given.get("name"@) == Some(JsonView::Text(call.name))
                &&& call.id is Some <==> is_text(given, "id"@)
                &&& call.id matches Some(id) ==> given.get("id"@) == Some(JsonView::Text(id))
                &&& call.args is None <==> is_missing(given, "args"@)
                &&& call.args is Some ==> given.get("args"@) == call.args
            }
        },
{
}

/// What the parts of a response hold reaches the client, piece by piece and in
/// order, whatever block is open: the text as text, the thoughts as thinking, the
/// arguments of calls as input, with the names of the tools. The state knows which
/// of them it has sent, and nothing else of it changes but its blocks.
pub proof fn law_parts_keep_content(state: StateView, parts: Seq<JsonView>, channel: Channel)
    ensures
        read(state.parts(parts).frames, channel) == content(parts, channel),
        tools_read(state.parts(parts).frames) == tools_called(parts),
        ({
            let after = state.parts(parts).state;
            &&& after.has_content <==> state.has_content || content(parts, Channel::Text).len() > 0
                || tools_called(parts).len() > 0
            &&& after.has_thinking <==> state.has_thinking || content(
                parts,
                Channel::Thinking,
            ).len() > 0
            &&& after.used_tool <==> state.used_tool || tools_called(parts).len() > 0
            &&& after == StateView {
                block: after.block,
                block_index: after.block_index,
                has_content: after.has_content,
                has_thinking: after.has_thinking,
                used_tool: after.used_tool,
                ..state
            }
        }),
    decreases parts.len(),
{
    if parts.len() > 0 {
        let last = parts.last();
        let before = state.parts(parts.drop_last());
        law_parts_keep_content(state, parts.drop_last(), channel);
        law_parts_keep_content(state, parts.drop_last(), Channel::Text);
        law_parts_keep_content(state, parts.drop_last(), Channel::Thinking);
        law_part_is_read(last);
        let step = match part_of(last) {
            Some(part) => before.state.part(part),
            None => before.state.stay(),
        };
        lemma_read_concat(before.frames, step.frames, channel);
        assert(read(Seq::<FrameView>::empty(), channel) =~= Seq::empty());
        if let Some(part) = part_of(last) {
            match (part.function_call, part.text) {
                (Some(call), _) => {
                    law_tool_call_is_whole(before.state, call);
                    assert(tools_read(step.frames) =~= seq![call.name]);
                    assert(tools_called(parts) =~= tools_called(parts.drop_last()) + seq![
                        call.name,
                    ]);
                },
                (None, Some(text)) => {
                    lemma_piece(before.state, text, channel);
                    assert(tools_called(parts) =~= tools_called(parts.drop_last()) + Seq::empty());
                },
                (None, None) => {
                    assert(tools_called(parts) =~= tools_called(parts.drop_last()) + Seq::empty());
                },
            }
        } else {
            assert(tools_called(parts) =~= tools_called(parts.drop_last()) + Seq::empty());
        }
        assert(read(step.frames, channel) =~= part_content(last, channel));
    }
}

/// Whether a response says that it is complete.
pub open spec fn is_complete(raw: JsonView) -> bool {
    is_text(lead(raw), "finishReason"@)
}

/// The sources that a client is shown with a response: those of the latest web
/// search, where the response completes a message that had not stopped.
pub open spec fn sources_shown(state: StateView, raw: JsonView) -> Seq<char> {
    let after = state.response(raw).state;
    if is_complete(raw) && !state.message_stop_sent {
        sources_text(after.web_search_query, after.grounding_chunks)
    } else {
        Seq::empty()
    }
}

pub(crate) proof fn lemma_finish_read(
    state: StateView,
    reason: Option<Seq<char>>,
    usage: Option<UsageMetadata>,
    channel: Channel,
)
    ensures
        read(state.finish(reason, usage).frames, channel) == match channel {
            Channel::Text if state.message_start_sent && !state.message_stop_sent => sources_text(
                state.web_search_query,
                state.grounding_chunks,
            ),
            _ => Seq::empty(),
        },
        tools_read(state.finish(reason, usage).frames) == Seq::<Seq<char>>::empty(),
{
    if state.message_start_sent {
        let text = sources_text(state.web_search_query, state.grounding_chunks);
        let shown = state.sources();
        let closed = shown.state.close(reason, usage);
        lemma_read_concat(shown.frames, closed.frames, channel);
        lemma_no_content(closed.frames, channel);
        if state.message_stop_sent || text.len() == 0 {
            assert(text.len() == 0 ==> text =~= Seq::empty());
            assert(read(state.finish(reason, usage).frames, channel) =~= Seq::empty());
        } else {
            let fresh = StateView { block: None, ..state.end_block().state };
            let block = crate::state::content_json("text"@, ""@);
            lemma_piece(fresh, text, channel);
            lemma_no_content(state.end_block().frames, channel);
            assert(fresh.end_block().frames =~= Seq::empty());
            assert(shown.frames =~= state.end_block().frames + fresh.text(text).frames);
            lemma_read_concat(state.end_block().frames, fresh.text(text).frames, channel);
            assert(read(state.finish(reason, usage).frames, channel) =~= read(
                fresh.text(text).frames,
                channel,
            ));
        }
        assert(tools_read(state.finish(reason, usage).frames) =~= Seq::empty());
    }
}

/// What a response holds reaches the client. Besides, the client reads the
/// sources of a web search, after the text.
pub proof fn law_response_keeps_content(state: StateView, raw: JsonView, channel: Channel)
    ensures
        read(state.response(raw).frames, channel) == content(lead_parts(raw), channel) + (
        match channel {
            Channel::Text => sources_shown(state, raw),
            _ => Seq::empty(),
        }),
        tools_read(state.response(raw).frames) == tools_called(lead_parts(raw)),
{
    let begun = state.begin(raw);
    let parts = crate::line::parts_of(raw);
    let sent = begun.state.ground(raw).parts(parts);
    let done = sent.state.conclude(raw);
    assert(lead(raw).get("content"@) is None ==> parts.len() == 0);
    assert(parts =~= lead_parts(raw));
    law_parts_keep_content(begun.state.ground(raw), parts, channel);
    lemma_no_content(begun.frames, channel);
    lemma_read_concat(begun.frames, sent.frames, channel);
    lemma_read_concat(begun.frames + sent.frames, done.frames, channel);
    assert(is_complete(raw) <==> crate::line::finish_reason(raw) is Some);
    if let Some(reason) = crate::line::finish_reason(raw) {
        lemma_finish_read(
            sent.state.completed(raw),
            Some(reason),
            crate::state::reported_usage(raw),
            channel,
        );
    } else {
        lemma_no_content(done.frames, channel);
    }
    assert(read(state.response(raw).frames, channel) =~= content(lead_parts(raw), channel) + (
    match channel {
        Channel::Text => sources_shown(state, raw),
        _ => Seq::empty(),
    }));
    assert(tools_read(state.response(raw).frames) =~= tools_called(lead_parts(raw)));
}

/// Whether a text is the one that shows the sources of a web search.
pub open spec fn shows_sources(text: Seq<char>) -> bool {
    has_prefix(text, "\n\nWeb search"@)
}

/// Whether a client reads what came, but for one place at most where it reads the
/// sources of a web search.
pub open spec fn is_read(text: Seq<char>, came: Seq<char>, shown: Seq<char>) -> bool {
    &&& shown.len() > 0 ==> shows_sources(shown)
    &&& exists|cut: int|
        0 <= cut <= came.len() && text == #[trigger] came.take(cut) + shown + came.skip(cut)
}

proof fn lemma_sources_prefix(query: Option<Seq<char>>, chunks: Option<Seq<JsonView>>)
    ensures
        sources_text(query, chunks).len() > 0 ==> shows_sources(sources_text(query, chunks)),
{
    reveal_strlit("\n\nWeb search");
    reveal_strlit("\n\nWeb search: ");
    reveal_strlit("\n\nWeb search\n\n");
    let text = sources_text(query, chunks);
    let prefix = "\n\nWeb search"@;
    if text.len() > 0 {
        assert(text.take(prefix.len() as int) =~= prefix);
    }
}

/// What a line adds, and what it shows besides.
proof fn lemma_raw_line_read(state: StateView, line: Seq<u8>, channel: Channel) -> (shown: Seq<
    char,
>)
    ensures
        read(state.raw_line(line).frames, channel) == line_content(line, channel) + shown,
        tools_read(state.raw_line(line).frames) == line_tools(line),
        !(channel is Text) ==> shown.len() == 0,
        shown.len() > 0 ==> shows_sources(shown) && !state.message_stop_sent && state.raw_line(
            line,
        ).state.message_stop_sent,
        state.message_stop_sent ==> state.raw_line(line).state.message_stop_sent,
{
    reveal(StateView::line);
    reveal_strlit("data: ");
    let text = trimmed(decode_utf8(line));
    let step = state.raw_line(line);
    match line_response(line) {
        Some(raw) => {
            assert(step == state.response(raw));
            law_response_keeps_content(state, raw, channel);
            let after = step.state;
            lemma_sources_prefix(after.web_search_query, after.grounding_chunks);
            let parts = crate::line::parts_of(raw);
            law_parts_keep_content(state.begin(raw).state.ground(raw), parts, channel);
            assert(is_complete(raw) <==> crate::line::finish_reason(raw) is Some);
            match channel {
                Channel::Text => sources_shown(state, raw),
                _ => Seq::empty(),
            }
        },
        None => {
            let shown = read(step.frames, channel);
            lemma_finish_read(state, None, None, channel);
            lemma_no_content(seq![FrameView::MessageStop], channel);
            lemma_no_content(Seq::empty(), channel);
            lemma_sources_prefix(state.web_search_query, state.grounding_chunks);
            assert(line_content(line, channel) + shown =~= shown);
            shown
        },
    }
}

/// The names of the tools that a line calls, in order.
pub open spec fn line_tools(line: Seq<u8>) -> Seq<Seq<char>> {
    match line_response(line) {
        Some(raw) => tools_called(lead_parts(raw)),
        None => Seq::empty(),
    }
}

/// The names of the tools that lines call, in order.
pub open spec fn tools_received(lines: Seq<Seq<u8>>) -> Seq<Seq<char>>
    decreases lines.len(),
{
    if lines.len() == 0 {
        Seq::empty()
    } else {
        tools_received(lines.drop_last()) + line_tools(lines.last())
    }
}

proof fn lemma_raw_lines_read(state: StateView, lines: Seq<Seq<u8>>, channel: Channel) -> (shown:
    Seq<char>)
    ensures
        is_read(read(state.raw_lines(lines).frames, channel), received(lines, channel), shown),
        tools_read(state.raw_lines(lines).frames) == tools_received(lines),
        !(channel is Text) ==> shown.len() == 0,
        shown.len() > 0 ==> !state.message_stop_sent && state.raw_lines(
            lines,
        ).state.message_stop_sent,
        state.message_stop_sent ==> state.raw_lines(lines).state.message_stop_sent,
    decreases lines.len(),
{
    let all = received(lines, channel);
    let text = read(state.raw_lines(lines).frames, channel);
    if lines.len() == 0 {
        let shown = Seq::<char>::empty();
        assert(text =~= all.take(0) + shown + all.skip(0));
        shown
    } else {
        let rest = lines.drop_last();
        let before = state.raw_lines(rest);
        let came = received(rest, channel);
        let more = line_content(lines.last(), channel);
        let had = lemma_raw_lines_read(state, rest, channel);
        let now = lemma_raw_line_read(before.state, lines.last(), channel);
        lemma_read_concat(before.frames, before.state.raw_line(lines.last()).frames, channel);
        let cut = choose|cut: int|
            0 <= cut <= came.len() && read(before.frames, channel) == #[trigger] came.take(cut)
                + had + came.skip(cut);
        if had.len() > 0 {
            assert(now =~= Seq::empty());
            assert(text =~= all.take(cut) + had + all.skip(cut));
            had
        } else {
            let end = all.len() as int;
            assert(had =~= Seq::empty());
            assert(text =~= all.take(end) + now + all.skip(end));
            now
        }
    }
}

/// Whatever lines come, the client reads what their responses hold, joined in
/// order. Between two pieces of the text it may read, once, the sources of a web
/// search.
pub proof fn law_lines_keep_content(state: StateView, lines: Seq<Seq<u8>>)
    ensures
        exists|shown: Seq<char>| #[trigger]
            is_read(
                read(state.raw_lines(lines).frames, Channel::Text),
                received(lines, Channel::Text),
                shown,
            ) && (state.message_stop_sent ==> shown.len() == 0),
        read(state.raw_lines(lines).frames, Channel::Thinking) == received(
            lines,
            Channel::Thinking,
        ),
        read(state.raw_lines(lines).frames, Channel::Input) == received(lines, Channel::Input),
        tools_read(state.raw_lines(lines).frames) == tools_received(lines),
{
    let shown = lemma_raw_lines_read(state, lines, Channel::Text);
    assert(is_read(
        read(state.raw_lines(lines).frames, Channel::Text),
        received(lines, Channel::Text),
        shown,
    ));
    assert forall|channel: Channel| !(channel is Text) implies #[trigger] read(
        state.raw_lines(lines).frames,
        channel,
    ) == received(lines, channel) by {
        let none = lemma_raw_lines_read(state, lines, channel);
        let came = received(lines, channel);
        let text = read(state.raw_lines(lines).frames, channel);
        let cut = choose|cut: int|
            0 <= cut <= came.len() && text == #[trigger] came.take(cut) + none + came.skip(cut);
        assert(text =~= came);
    }
}

/// A message whose responses never told of a web search shows no sources.
proof fn lemma_no_sources(state: StateView, lines: Seq<Seq<u8>>)
    requires
        state.grounding_chunks is None,
        forall|i: int| 0 <= i < lines.len() ==> !tells_of_search(#[trigger] lines[i]),
    ensures
        read(state.raw_lines(lines).frames, Channel::Text) == received(lines, Channel::Text),
        state.raw_lines(lines).state.grounding_chunks is None,
    decreases lines.len(),
{
    if lines.len() > 0 {
        let rest = lines.drop_last();
        let line = lines[lines.len() - 1];
        assert forall|i: int| 0 <= i < rest.len() implies !tells_of_search(#[trigger] rest[i]) by {
            assert(rest[i] == lines[i]);
        }
        lemma_no_sources(state, rest);
        let before = state.raw_lines(rest);
        let step = before.state.raw_line(line);
        lemma_read_concat(before.frames, step.frames, Channel::Text);
        reveal(StateView::line);
        reveal_strlit("data: ");
        assert(!tells_of_search(line));
        match line_response(line) {
            Some(raw) => {
                let begun = before.state.begin(raw).state;
                law_response_keeps_content(before.state, raw, Channel::Text);
                law_parts_keep_content(
                    begun.ground(raw),
                    crate::line::parts_of(raw),
                    Channel::Text,
                );
                assert(begun.ground(raw) == begun);
                assert(sources_shown(before.state, raw) =~= Seq::empty());
            },
            None => {
                lemma_finish_read(before.state, None, None, Channel::Text);
                lemma_no_content(seq![FrameView::MessageStop], Channel::Text);
            },
        }
        assert(read(step.frames, Channel::Text) =~= line_content(line, Channel::Text));
    }
}

/// Whether a line brings a response that tells of a web search.
pub open spec fn tells_of_search(line: Seq<u8>) -> bool {
    line_response(line) matches Some(raw) && lead(raw).get("groundingMetadata"@) is Some
}

/// Time-outs and cuts aside, a stream reads as one piece.
pub(crate) proof fn lemma_run_reads(stream: StreamView, events: Seq<(EventView, i64)>, channel: Channel)
    requires
        is_sound_stream(stream),
        !stream.closed,
        all_go_on(events),
    ensures
        stream.run(events).stream == stream.receive(bytes_of(events)).stream,
        read(stream.run(events).frames, channel) == read(
            stream.receive(bytes_of(events)).frames,
            channel,
        ),
        tools_read(stream.run(events).frames) == tools_read(
            stream.receive(bytes_of(events)).frames,
        ),
    decreases events.len(),
{
    if events.len() == 0 {
        assert(stream.buffer + Seq::<u8>::empty() =~= stream.buffer);
        assert(stream.receive(bytes_of(events)) == stream.stay());
    } else {
        let rest = events.drop_last();
        let (event, now_millis) = events.last();
        assert forall|i: int| 0 <= i < rest.len() implies goes_on((#[trigger] rest[i]).0) by {
            assert(rest[i] == events[i]);
        }
        assert(goes_on(events[events.len() - 1].0));
        lemma_run_reads(stream, rest, channel);
        let before = stream.run(rest);
        let last = before.stream.advance(event, now_millis);
        lemma_read_concat(before.frames, last.frames, channel);
        match event {
            EventView::Chunk(bytes) => {
                let whole = stream.receive(bytes_of(rest));
                let pieces = seq![
                    (EventView::Chunk(bytes_of(rest)), now_millis),
                    (EventView::Chunk(bytes), now_millis),
                ];
                law_pieces_act_as_one(stream, pieces);
                assert(pieces.drop_last().drop_last() =~= Seq::empty());
                assert(stream.run(pieces.drop_last().drop_last()) == stream.stay());
                assert(stream.run(pieces.drop_last()).frames =~= whole.frames);
                assert(bytes_of(pieces.drop_last().drop_last()) =~= Seq::empty());
                assert(bytes_of(pieces.drop_last()) =~= bytes_of(rest));
                assert(bytes_of(pieces) =~= bytes_of(events));
                assert(stream.run(pieces).frames =~= whole.frames + last.frames);
                lemma_read_concat(whole.frames, last.frames, channel);
            },
            _ => {
                lemma_no_content(last.frames, channel);
                assert(bytes_of(events) == bytes_of(rest));
                assert(read(stream.run(events).frames, channel) =~= read(before.frames, channel));
                assert(tools_read(stream.run(events).frames) =~= tools_read(before.frames));
            },
        }
    }
}

/// Whatever comes from upstream, and however it is cut, the client of a stream
/// reads what the responses hold, joined in order: all of the thinking and of the
/// tool calls, and all of the text, with the sources of a web search in one place
/// at most. Where no response tells of a web search, the text alone.
pub proof fn law_stream_keeps_content(options: StreamOptions, events: Seq<(EventView, i64)>)
    requires
        all_go_on(events),
    ensures
        ({
            let frames = initial_stream(options).run(events).frames;
            let lines = complete_lines(bytes_of(events));
            &&& exists|shown: Seq<char>| #[trigger]
                is_read(read(frames, Channel::Text), received(lines, Channel::Text), shown)
            &&& (forall|i: int| 0 <= i < lines.len() ==> !tells_of_search(#[trigger] lines[i]))
                ==> read(frames, Channel::Text) == received(lines, Channel::Text)
            &&& read(frames, Channel::Thinking) == received(lines, Channel::Thinking)
            &&& read(frames, Channel::Input) == received(lines, Channel::Input)
            &&& tools_read(frames) == tools_received(lines)
        }),
{
    let stream = initial_stream(options);
    let lines = complete_lines(bytes_of(events));
    assert(stream.buffer + bytes_of(events) =~= bytes_of(events));
    lemma_run_reads(stream, events, Channel::Text);
    lemma_run_reads(stream, events, Channel::Thinking);
    lemma_run_reads(stream, events, Channel::Input);
    law_lines_keep_content(stream.state, lines);
    if forall|i: int| 0 <= i < lines.len() ==> !tells_of_search(#[trigger] lines[i]) {
        lemma_no_sources(stream.state, lines);
    }
}

/// Parts act one after another: those that come together act as those that come
/// first, and then the others.
pub proof fn law_parts_act_in_order(state: StateView, a: Seq<JsonView>, b: Seq<JsonView>)
    ensures
        state.parts(a + b).state == state.parts(a).state.parts(b).state,
        state.parts(a + b).frames == state.parts(a).frames + state.parts(a).state.parts(b).frames,
    decreases b.len(),
{
    if b.len() == 0 {
        assert(a + b =~= a);
        assert(state.parts(a).frames + Seq::<FrameView>::empty() =~= state.parts(a).frames);
    } else {
        assert((a + b).drop_last() =~= a + b.drop_last());
        law_parts_act_in_order(state, a, b.drop_last());
        assert(state.parts(a + b).frames =~= state.parts(a).frames + state.parts(a).state.parts(
            b,
        ).frames);
    }
}

/// A piece of text, or of thinking, goes on in a block of its kind that is open,
/// and else gets a block of its own, which stays open. No piece, no frame.
pub proof fn law_pieces_share_a_block(state: StateView, text: Seq<char>)
    ensures
        text.len() == 0 ==> state.text(text) == state.stay() && state.thinking(text)
            == state.stay(),
        text.len() > 0 ==> {
            let said = state.text(text);
            let thought = state.thinking(text);
            &&& said.state.block == Some(BlockType::Text)
            &&& thought.state.block == Some(BlockType::Thinking)
            &&& said.frames.last() is BlockDelta
            &&& thought.frames.last() is BlockDelta
            &&& state.block == Some(BlockType::Text) ==> said.frames.len() == 1
            &&& state.block == Some(BlockType::Thinking) ==> thought.frames.len() == 1
            &&& state.block != Some(BlockType::Text) ==> block_starts(said.frames) == 1
            &&& state.block != Some(BlockType::Thinking) ==> block_starts(thought.frames) == 1
        },
{
    reveal_with_fuel(block_starts, 4);
    if text.len() > 0 {
        let ended = state.end_block().frames;
        let said = state.text(text).frames;
        let thought = state.thinking(text).frames;
        if state.block is Some {
            assert(ended.drop_last() =~= Seq::empty());
        }
        if state.block != Some(BlockType::Text) {
            assert(said.drop_last().drop_last() =~= ended);
        }
        if state.block != Some(BlockType::Thinking) {
            assert(thought.drop_last().drop_last() =~= ended);
        }
    }
}

} // verus!
