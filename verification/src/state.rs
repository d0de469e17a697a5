//! The state of one message while it is streamed, and the frames that
//! each step of it sends.

use crate::frame::{
    are_frames, block_delta_chunk, block_start_chunk, block_stop_chunk, json_str,
    message_delta_chunk, message_start_chunk, message_stop_chunk, FrameView,
};
use crate::json::{empty_object, item_views, json_text, render, Json, JsonView};
use crate::log::{log_views, LogEntry, LogView};
use crate::part::{text_view, FunctionCall, FunctionCallView, GeminiPart, PartView};
use crate::sources::{sources_of, sources_text};
use crate::text::{natural, numeral, same_text};
use crate::usage::{usage_json, usage_metadata_of, usage_of, Usage, UsageMetadata};
use bytes::Bytes;
use vstd::prelude::*;

verus! {

/// The kinds of content blocks.
#[derive(Clone, Copy, Debug, PartialEq, Eq, Structural)]
pub enum BlockType {
    Text,
    Thinking,
    ToolUse,
}

/// What is known of the request that a stream answers. It is kept with the
/// stream; nothing that is sent depends on it.
#[derive(Debug)]
pub struct StreamOptions {
    pub session_id: Option<String>,
    pub scaling_enabled: bool,
    pub context_limit: u32,
    pub estimated_prompt_tokens: Option<u32>,
    pub message_count: usize,
    pub registered_tool_names: Vec<String>,
}

/// The state of a message that is being streamed.
#[derive(Debug)]
pub struct StreamingState {
    pub options: StreamOptions,
    /// The block that is open, if any.
    pub block: Option<BlockType>,
    /// The index of the open block, or of the next one.
    pub block_index: usize,
    pub message_id: String,
    pub message_start_sent: bool,
    pub message_stop_sent: bool,
    pub has_thinking: bool,
    pub has_content: bool,
    pub used_tool: bool,
    /// The query of the latest web search, shown when the message ends.
    pub web_search_query: Option<String>,
    /// The sources that the latest web search found, shown when the message ends.
    pub grounding_chunks: Option<Vec<Json>>,
    /// What happened so far that is worth a line in a log.
    pub log: Vec<LogEntry>,
}

/// The state of a message that is being streamed.
pub struct StateView {
    pub options: StreamOptions,
    pub block: Option<BlockType>,
    pub block_index: usize,
    pub message_id: Seq<char>,
    pub message_start_sent: bool,
    pub message_stop_sent: bool,
    pub has_thinking: bool,
    pub has_content: bool,
    pub used_tool: bool,
    pub web_search_query: Option<Seq<char>>,
    pub grounding_chunks: Option<Seq<JsonView>>,
    pub log: Seq<LogView>,
}

/// The items of an optional list.
pub open spec fn list_view(list: Option<Vec<Json>>) -> Option<Seq<JsonView>> {
    match list {
        Some(items) => Some(item_views(items@)),
        None => None,
    }
}

impl View for StreamingState {
    type V = StateView;

    open spec fn view(&self) -> StateView {
        StateView {
            options: self.options,
            block: self.block,
            block_index: self.block_index,
            message_id: self.message_id@,
            message_start_sent: self.message_start_sent,
            message_stop_sent: self.message_stop_sent,
            has_thinking: self.has_thinking,
            has_content: self.has_content,
            used_tool: self.used_tool,
            web_search_query: text_view(self.web_search_query),
            grounding_chunks: list_view(self.grounding_chunks),
            log: log_views(self.log@),
        }
    }
}

/// A step: the state after it and the frames that it sends.
pub struct Step {
    pub state: StateView,
    pub frames: Seq<FrameView>,
}

/// The index after `index`; the counter wraps around.
pub open spec fn next_index(index: usize) -> usize {
    if index == usize::MAX {
        0
    } else {
        (index + 1) as usize
    }
}

/// The text member of an object, or a default.
pub open spec fn text_or(json: JsonView, name: Seq<char>, default: Seq<char>) -> Seq<char> {
    match json.get(name) {
        Some(JsonView::Text(s)) => s,
        _ => default,
    }
}

/// The token counts that a response reports, where it reports any.
pub open spec fn reported_usage(raw: JsonView) -> Option<UsageMetadata> {
    match raw.get("usageMetadata"@) {
        Some(usage) => usage_metadata_of(usage),
        None => None,
    }
}

/// The message that a response begins.
pub open spec fn message_json(raw: JsonView) -> JsonView {
    empty_object().with("id"@, json_str(text_or(raw, "responseId"@, "msg_unknown"@))).with(
        "type"@,
        json_str("message"@),
    ).with("role"@, json_str("assistant"@)).with("content"@, JsonView::Array(Seq::empty())).with(
        "model"@,
        json_str(text_or(raw, "modelVersion"@, ""@)),
    ).with("stop_reason"@, JsonView::Null).with("stop_sequence"@, JsonView::Null).with(
        "usage"@,
        usage_json(usage_of(reported_usage(raw))),
    )
}

/// A content block of type `kind` whose member of the same name is `content`.
pub open spec fn content_json(kind: Seq<char>, content: Seq<char>) -> JsonView {
    empty_object().with("type"@, json_str(kind)).with(kind, json_str(content))
}

/// A delta of type `kind` with one text member.
pub open spec fn delta_json(kind: Seq<char>, name: Seq<char>, content: Seq<char>) -> JsonView {
    empty_object().with("type"@, json_str(kind)).with(name, json_str(content))
}

/// The block that opens a tool call.
pub open spec fn tool_json(id: Seq<char>, name: Seq<char>) -> JsonView {
    empty_object().with("type"@, json_str("tool_use"@)).with("id"@, json_str(id)).with(
        "name"@,
        json_str(name),
    ).with("input"@, empty_object())
}

/// The id of a tool call that came without one.
pub open spec fn fallback_tool_id(message_id: Seq<char>, index: usize) -> Seq<char> {
    "toolu_"@ + message_id + "_"@ + numeral(index as nat)
}

/// Why a message stopped.
pub open spec fn stop_reason(used_tool: bool, finish_reason: Option<Seq<char>>) -> Seq<char> {
    if used_tool {
        "tool_use"@
    } else if finish_reason == Some("MAX_TOKENS"@) {
        "max_tokens"@
    } else {
        "end_turn"@
    }
}

impl StateView {
    /// No step.
    pub open spec fn stay(self) -> Step {
        Step { state: self, frames: Seq::empty() }
    }

    /// The state with one more entry in its log.
    pub open spec fn logged(self, entry: LogView) -> StateView {
        StateView { log: self.log.push(entry), ..self }
    }

    /// Closes the open block, if there is one.
    pub open spec fn end_block(self) -> Step {
        if self.block is None {
            self.stay()
        } else {
            Step {
                state: StateView {
                    block: None,
                    block_index: next_index(self.block_index),
                    ..self
                },
                frames: seq![FrameView::BlockStop { index: self.block_index }],
            }
        }
    }

    /// Closes the open block and opens another.
    pub open spec fn start_block(self, kind: BlockType, block: JsonView) -> Step {
        let closed = self.end_block();
        Step {
            state: StateView { block: Some(kind), ..closed.state },
            frames: closed.frames.push(
                FrameView::BlockStart { index: closed.state.block_index, block },
            ),
        }
    }

    /// Opens a block of the given kind, unless one is open.
    pub open spec fn ensure_block(self, kind: BlockType, block: JsonView) -> Step {
        if self.block == Some(kind) {
            self.stay()
        } else {
            self.start_block(kind, block)
        }
    }

    /// Begins the message.
    pub open spec fn message_start(self, raw: JsonView) -> Step {
        Step {
            state: StateView {
                message_id: text_or(raw, "responseId"@, "msg_unknown"@),
                message_start_sent: true,
                ..self
            },
            frames: seq![FrameView::MessageStart { message: message_json(raw) }],
        }
    }

    /// Sends a piece of text.
    pub open spec fn text(self, text: Seq<char>) -> Step {
        if text.len() == 0 {
            self.stay()
        } else {
            let opened = self.ensure_block(BlockType::Text, content_json("text"@, ""@));
            Step {
                state: StateView { has_content: true, ..opened.state },
                frames: opened.frames.push(
                    FrameView::BlockDelta {
                        index: opened.state.block_index,
                        delta: delta_json("text_delta"@, "text"@, text),
                    },
                ),
            }
        }
    }

    /// Sends a piece of thinking.
    pub open spec fn thinking(self, text: Seq<char>) -> Step {
        if text.len() == 0 {
            self.stay()
        } else {
            let opened = self.ensure_block(BlockType::Thinking, content_json("thinking"@, ""@));
            Step {
                state: StateView { has_thinking: true, ..opened.state },
                frames: opened.frames.push(
                    FrameView::BlockDelta {
                        index: opened.state.block_index,
                        delta: delta_json("thinking_delta"@, "thinking"@, text),
                    },
                ),
            }
        }
    }

    /// The id of a tool call.
    pub open spec fn tool_id(self, call: FunctionCallView) -> Seq<char> {
        match call.id {
            Some(id) => id,
            None => fallback_tool_id(self.message_id, self.end_block().state.block_index),
        }
    }

    /// Sends a tool call, as a block of its own.
    pub open spec fn tool_call(self, call: FunctionCallView) -> Step {
        let opened = self.start_block(BlockType::ToolUse, tool_json(self.tool_id(call), call.name));
        let input = match call.args {
            Some(args) => seq![
                FrameView::BlockDelta {
                    index: opened.state.block_index,
                    delta: delta_json("input_json_delta"@, "partial_json"@, json_text(args)),
                },
            ],
            None => Seq::empty(),
        };
        let closed = opened.state.end_block();
        Step {
            state: StateView { has_content: true, used_tool: true, ..closed.state },
            frames: opened.frames + input + closed.frames,
        }
    }

    /// Sends one part of a candidate.
    pub open spec fn part(self, part: PartView) -> Step {
        match (part.function_call, part.text) {
            (Some(call), _) => self.tool_call(call),
            (None, Some(text)) => if part.thought {
                self.thinking(text)
            } else {
                self.text(text)
            },
            (None, None) => self.stay(),
        }
    }

    /// Shows the sources of the latest web search, if it found any, as a text
    /// block of Markdown, unless the message has stopped.
    pub open spec fn sources(self) -> Step {
        let text = sources_text(self.web_search_query, self.grounding_chunks);
        if self.message_stop_sent || text.len() == 0 {
            self.stay()
        } else {
            let opened = self.start_block(BlockType::Text, content_json("text"@, ""@));
            Step {
                state: StateView { has_content: true, ..opened.state },
                frames: opened.frames.push(
                    FrameView::BlockDelta {
                        index: opened.state.block_index,
                        delta: delta_json("text_delta"@, "text"@, text),
                    },
                ),
            }
        }
    }

    /// Closes the open block, reports why the message stopped and, once, that it
    /// did.
    pub open spec fn close(
        self,
        finish_reason: Option<Seq<char>>,
        usage: Option<UsageMetadata>,
    ) -> Step {
        let closed = self.end_block();
        let delta = FrameView::MessageDelta {
            stop_reason: stop_reason(self.used_tool, finish_reason),
            usage: usage_json(usage_of(usage)),
        };
        let stop = if self.message_stop_sent {
            Seq::empty()
        } else {
            seq![FrameView::MessageStop]
        };
        Step {
            state: StateView { message_stop_sent: true, ..closed.state },
            frames: closed.frames.push(delta) + stop,
        }
    }

    /// Ends the message, if it has begun: shows the sources of a web search, then
    /// closes the message.
    pub open spec fn finish(
        self,
        finish_reason: Option<Seq<char>>,
        usage: Option<UsageMetadata>,
    ) -> Step {
        if !self.message_start_sent {
            self.stay()
        } else {
            let shown = self.sources();
            let closed = shown.state.close(finish_reason, usage);
            Step { state: closed.state, frames: shown.frames + closed.frames }
        }
    }

    /// Makes sure that the end of the message has been sent.
    pub open spec fn force_stop(self) -> Step {
        if self.message_stop_sent {
            self.stay()
        } else {
            let ended = self.finish(None, None);
            if ended.frames.len() == 0 {
                Step {
                    state: StateView { message_stop_sent: true, ..ended.state },
                    frames: seq![FrameView::MessageStop],
                }
            } else {
                ended
            }
        }
    }
}

pub(crate) fn text_member_or<'a>(json: &'a Json, name: &str, default: &'a str) -> (r: &'a str)
    ensures
        r@ == text_or(json@, name@, default@),
{
    match json.get(name) {
        Some(Json::Text(s)) => s.as_str(),
        _ => default,
    }
}

/// The token counts that a response reports, where it reports any.
pub(crate) fn response_usage(raw: &Json) -> (r: Option<UsageMetadata>)
    ensures
        r == reported_usage(raw@),
{
    match raw.get("usageMetadata") {
        Some(usage) => UsageMetadata::from_json(usage),
        None => None,
    }
}

fn message_of(raw: &Json) -> (r: Json)
    ensures
        r@ == message_json(raw@),
{
    let usage = match response_usage(raw) {
        Some(metadata) => Usage::from_metadata(Some(&metadata)),
        None => Usage::from_metadata(None),
    };
    let content: Vec<Json> = Vec::new();
    assert(item_views(content@) =~= Seq::empty());
    Json::object().with("id", Json::text(text_member_or(raw, "responseId", "msg_unknown"))).with(
        "type",
        Json::text("message"),
    ).with("role", Json::text("assistant")).with("content", Json::Array(content)).with(
        "model",
        Json::text(text_member_or(raw, "modelVersion", "")),
    ).with("stop_reason", Json::Null).with("stop_sequence", Json::Null).with(
        "usage",
        usage.to_json(),
    )
}

pub(crate) fn content_of(kind: &str, content: &str) -> (r: Json)
    ensures
        r@ == content_json(kind@, content@),
{
    Json::object().with("type", Json::text(kind)).with(kind, Json::text(content))
}

fn delta_of(kind: &str, name: &str, content: &str) -> (r: Json)
    ensures
        r@ == delta_json(kind@, name@, content@),
{
    Json::object().with("type", Json::text(kind)).with(name, Json::text(content))
}

impl StreamingState {
    /// The state before anything was sent, with nothing known of the request.
    pub fn new() -> (r: StreamingState)
        ensures
            r@ == initial_state(r.options),
            r.options.session_id is None,
            !r.options.scaling_enabled,
            r.options.context_limit == 0,
            r.options.estimated_prompt_tokens is None,
            r.options.message_count == 0,
            r.options.registered_tool_names@.len() == 0,
    {
        let log: Vec<LogEntry> = Vec::new();
        assert(log_views(log@) =~= Seq::empty());
        StreamingState {
            options: StreamOptions {
                session_id: None,
                scaling_enabled: false,
                context_limit: 0,
                estimated_prompt_tokens: None,
                message_count: 0,
                registered_tool_names: Vec::new(),
            },
            block: None,
            block_index: 0,
            message_id: String::new(),
            message_start_sent: false,
            message_stop_sent: false,
            has_thinking: false,
            has_content: false,
            used_tool: false,
            web_search_query: None,
            grounding_chunks: None,
            log,
        }
    }

    /// The kind of the open block, if there is one.
    pub fn current_block_type(&self) -> (r: Option<BlockType>)
        ensures
            r == self@.block,
    {
        self.block
    }

    /// Closes the open block, if there is one.
    pub fn end_block(&mut self) -> (r: Vec<Bytes>)
        ensures
            final(self)@ == old(self)@.end_block().state,
            are_frames(r@, old(self)@.end_block().frames),
    {
        let mut chunks: Vec<Bytes> = Vec::new();
        if self.block.is_some() {
            chunks.push(block_stop_chunk(self.block_index));
            self.block_index = self.block_index.wrapping_add(1);
            self.block = None;
        }
        chunks
    }

    /// Closes the open block and opens another.
    pub fn start_block(&mut self, kind: BlockType, block: Json) -> (r: Vec<Bytes>)
        ensures
            final(self)@ == old(self)@.start_block(kind, block@).state,
            are_frames(r@, old(self)@.start_block(kind, block@).frames),
    {
        let mut chunks = self.end_block();
        chunks.push(block_start_chunk(self.block_index, block));
        self.block = Some(kind);
        chunks
    }

    /// Opens a block of the given kind, unless one is open.
    fn ensure_block(&mut self, kind: BlockType, block: Json) -> (r: Vec<Bytes>)
        ensures
            final(self)@ == old(self)@.ensure_block(kind, block@).state,
            are_frames(r@, old(self)@.ensure_block(kind, block@).frames),
    {
        match self.block {
            Some(open) if open == kind => Vec::new(),
            _ => self.start_block(kind, block),
        }
    }

    /// Begins the message.
    pub fn emit_message_start(&mut self, raw: &Json) -> (r: Bytes)
        ensures
            final(self)@ == old(self)@.message_start(raw@).state,
            are_frames(seq![r], old(self)@.message_start(raw@).frames),
    {
        self.message_id = text_member_or(raw, "responseId", "msg_unknown").to_owned();
        self.message_start_sent = true;
        message_start_chunk(message_of(raw))
    }

    fn emit_text(&mut self, text: &str) -> (r: Vec<Bytes>)
        ensures
            final(self)@ == old(self)@.text(text@).state,
            are_frames(r@, old(self)@.text(text@).frames),
    {
        if text.is_empty() {
            return Vec::new();
        }
        let mut chunks = self.ensure_block(BlockType::Text, content_of("text", ""));
        chunks.push(block_delta_chunk(self.block_index, delta_of("text_delta", "text", text)));
        self.has_content = true;
        chunks
    }

    fn emit_thinking(&mut self, text: &str) -> (r: Vec<Bytes>)
        ensures
            final(self)@ == old(self)@.thinking(text@).state,
            are_frames(r@, old(self)@.thinking(text@).frames),
    {
        if text.is_empty() {
            return Vec::new();
        }
        let mut chunks = self.ensure_block(BlockType::Thinking, content_of("thinking", ""));
        chunks.push(
            block_delta_chunk(self.block_index, delta_of("thinking_delta", "thinking", text)),
        );
        self.has_thinking = true;
        chunks
    }

    fn emit_tool_call(&mut self, call: &FunctionCall) -> (r: Vec<Bytes>)
        ensures
            final(self)@ == old(self)@.tool_call(call@).state,
            are_frames(r@, old(self)@.tool_call(call@).frames),
    {
        let mut chunks = self.end_block();
        let id = match &call.id {
            Some(id) => id.clone(),
            None => {
                let mut id: String = "toolu_".to_owned();
                id.append(self.message_id.as_str());
                id.append("_");
                id.append(natural(self.block_index as u64).as_str());
                id
            },
        };
        let block = Json::object().with("type", Json::text("tool_use")).with(
            "id",
            Json::Text(id),
        ).with("name", Json::Text(call.name.clone())).with("input", Json::object());
        let mut opened = self.start_block(BlockType::ToolUse, block);
        chunks.append(&mut opened);
        match &call.args {
            Some(args) => {
                let text = render(args.copy());
                chunks.push(
                    block_delta_chunk(
                        self.block_index,
                        delta_of("input_json_delta", "partial_json", text.as_str()),
                    ),
                );
            },
            None => {},
        }
        let mut closed = self.end_block();
        chunks.append(&mut closed);
        self.has_content = true;
        self.used_tool = true;
        chunks
    }

    /// Adds an entry to the log.
    pub(crate) fn record(&mut self, entry: LogEntry)
        ensures
            final(self)@ == old(self)@.logged(entry@),
    {
        let ghost before = self.log@;
        self.log.push(entry);
        assert(log_views(self.log@) =~= log_views(before).push(entry@));
    }

    /// Shows the sources of the latest web search, if it found any.
    fn emit_sources(&mut self) -> (r: Vec<Bytes>)
        ensures
            final(self)@ == old(self)@.sources().state,
            are_frames(r@, old(self)@.sources().frames),
    {
        if self.message_stop_sent {
            return Vec::new();
        }
        let text = sources_of(&self.web_search_query, &self.grounding_chunks);
        if text.as_str().is_empty() {
            return Vec::new();
        }
        let mut chunks = self.start_block(BlockType::Text, content_of("text", ""));
        chunks.push(
            block_delta_chunk(self.block_index, delta_of("text_delta", "text", text.as_str())),
        );
        self.has_content = true;
        chunks
    }

    /// Sends one part of a candidate.
    pub fn process_part(&mut self, part: &GeminiPart) -> (r: Vec<Bytes>)
        ensures
            final(self)@ == old(self)@.part(part@).state,
            are_frames(r@, old(self)@.part(part@).frames),
    {
        match (&part.function_call, &part.text) {
            (Some(call), _) => self.emit_tool_call(call),
            (None, Some(text)) => if part.thought {
                self.emit_thinking(text.as_str())
            } else {
                self.emit_text(text.as_str())
            },
            (None, None) => Vec::new(),
        }
    }

    /// Ends the message, if it has begun.
    pub fn emit_finish(
        &mut self,
        finish_reason: Option<&str>,
        usage: Option<&UsageMetadata>,
    ) -> (r: Vec<Bytes>)
        ensures
            final(self)@ == old(self)@.finish(reason_view(finish_reason), usage_view(usage)).state,
            are_frames(
                r@,
                old(self)@.finish(reason_view(finish_reason), usage_view(usage)).frames,
            ),
    {
        if !self.message_start_sent {
            return Vec::new();
        }
        let mut chunks = self.emit_sources();
        let mut closed = self.end_block();
        chunks.append(&mut closed);
        let reason = if self.used_tool {
            "tool_use"
        } else {
            match finish_reason {
                Some(reason) => if same_text(reason, "MAX_TOKENS") {
                    "max_tokens"
                } else {
                    "end_turn"
                },
                None => "end_turn",
            }
        };
        chunks.push(message_delta_chunk(reason, Usage::from_metadata(usage).to_json()));
        if !self.message_stop_sent {
            chunks.push(message_stop_chunk());
            self.message_stop_sent = true;
        }
        chunks
    }
}

/// Makes sure that the end of the message has been sent.
pub fn emit_force_stop(state: &mut StreamingState) -> (r: Vec<Bytes>)
    ensures
        final(state)@ == old(state)@.force_stop().state,
        are_frames(r@, old(state)@.force_stop().frames),
{
    if state.message_stop_sent {
        return Vec::new();
    }
    let mut chunks = state.emit_finish(None, None);
    if chunks.is_empty() {
        chunks.push(message_stop_chunk());
        state.message_stop_sent = true;
    }
    chunks
}

/// The characters of an optional finish reason.
pub open spec fn reason_view(reason: Option<&str>) -> Option<Seq<char>> {
    match reason {
        Some(s) => Some(s@),
        None => None,
    }
}

/// Optional token counts, by value.
pub open spec fn usage_view(usage: Option<&UsageMetadata>) -> Option<UsageMetadata> {
    match usage {
        Some(m) => Some(*m),
        None => None,
    }
}

/// The state before anything was sent.
pub open spec fn initial_state(options: StreamOptions) -> StateView {
    StateView {
        options,
        block: None,
        block_index: 0,
        message_id: Seq::empty(),
        message_start_sent: false,
        message_stop_sent: false,
        has_thinking: false,
        has_content: false,
        used_tool: false,
        web_search_query: None,
        grounding_chunks: None,
        log: Seq::empty(),
    }
}

} // verus!
