//! The stream as a whole: what it sends for each thing that happens upstream.

use crate::buffer::{
    buffer_bytes, buffer_slice, chunk_slice, clear_buffer, complete_lines, extend_buffer,
    incomplete_line, line_length, new_buffer, take_line, BUFFER_LIMIT,
};
use crate::frame::{
    are_frames, chunk_bytes, error_chunk, json_str, message_delta_chunk, ping_chunk, FrameView,
};
use crate::json::{empty_object, Json, JsonView};
use crate::line::process_sse_line;
use crate::log::{log_views, LogEntry, LogView};
use crate::state::{
    content_json, content_of, emit_force_stop, initial_state, BlockType, StateView, Step,
    StreamOptions, StreamingState,
};
use crate::text::{decimal, signed_numeral, text_of_utf8, trim, trimmed};
use crate::usage::{usage_json, Usage};
use bytes::{Bytes, BytesMut};
use vstd::prelude::*;
use vstd::utf8::{decode_utf8, valid_utf8};

verus! {

/// What happens upstream.
#[derive(Debug)]
pub enum UpstreamEvent {
    /// Bytes arrived.
    Chunk(Bytes),
    /// The connection failed, for the reason given.
    Failed(String),
    /// Nothing arrived for a while.
    TimedOut,
    /// The upstream ended.
    Ended,
}

/// What happens upstream.
pub enum EventView {
    Chunk(Seq<u8>),
    Failed(Seq<char>),
    TimedOut,
    Ended,
}

impl View for UpstreamEvent {
    type V = EventView;

    open spec fn view(&self) -> EventView {
        match self {
            UpstreamEvent::Chunk(chunk) => EventView::Chunk(chunk_bytes(*chunk)),
            UpstreamEvent::Failed(reason) => EventView::Failed(reason@),
            UpstreamEvent::TimedOut => EventView::TimedOut,
            UpstreamEvent::Ended => EventView::Ended,
        }
    }
}

/// A stream: the state of its message, the bytes of the line that is not
/// complete yet, and whether it is over.
pub struct StreamView {
    pub state: StateView,
    pub buffer: Seq<u8>,
    pub closed: bool,
}

/// A step of a stream: the stream after it and the frames that it sends.
pub struct StreamStep {
    pub stream: StreamView,
    pub frames: Seq<FrameView>,
}

/// What a user is told when the model stopped after thinking.
pub open spec fn interruption_notice() -> Seq<char> {
    "\n\n[System] Upstream model interrupted after thinking. (Recovered by Antigravity)"@
}

/// The token counts of a recovered message.
pub open spec fn recovery_usage(input_tokens: u32, output_tokens: u32) -> JsonView {
    usage_json(
        Usage {
            input_tokens,
            output_tokens,
            cache_read_input_tokens: None,
            cache_creation_input_tokens: None,
            server_tool_use: None,
        },
    )
}

/// The response that stands in for one that never began.
pub open spec fn recovered_response(now_millis: i64) -> JsonView {
    empty_object().with(
        "responseId"@,
        json_str("msg_recovered_"@ + signed_numeral(now_millis as int)),
    ).with("modelVersion"@, json_str("gemini-auto"@))
}

impl StateView {
    /// Translates the bytes of a line, where they are valid UTF-8.
    pub open spec fn raw_line(self, line: Seq<u8>) -> Step {
        if valid_utf8(line) {
            self.line(trimmed(decode_utf8(line)))
        } else {
            self.stay()
        }
    }

    /// Translates lines, in order.
    pub open spec fn raw_lines(self, lines: Seq<Seq<u8>>) -> Step
        decreases lines.len(),
    {
        if lines.len() == 0 {
            self.stay()
        } else {
            let before = self.raw_lines(lines.drop_last());
            let last = before.state.raw_line(lines.last());
            Step { state: last.state, frames: before.frames + last.frames }
        }
    }

    /// Sends a text block of its own and the token counts that go with it.
    pub open spec fn recovery_block(self, text: Seq<char>, usage: JsonView) -> Step {
        let opened = self.start_block(BlockType::Text, content_json("text"@, text));
        let closed = opened.state.end_block();
        Step {
            state: StateView { has_content: true, ..closed.state },
            frames: (opened.frames + closed.frames).push(
                FrameView::MessageDelta { stop_reason: "end_turn"@, usage },
            ),
        }
    }

    /// Whether a message has to be made up altogether, under a name of its own.
    pub open spec fn is_blank(self) -> bool {
        !self.has_content && !self.has_thinking && !self.message_start_sent
    }

    /// Makes up for content that never came.
    #[verifier::opaque]
    pub open spec fn recover(self, now_millis: i64) -> Step {
        if self.has_content {
            self.stay()
        } else if self.has_thinking {
            self.logged(LogView::Interrupted).recovery_block(
                interruption_notice(),
                recovery_usage(0, 100),
            )
        } else {
            let begun = self.begin(recovered_response(now_millis));
            let filled = begun.state.recovery_block("."@, recovery_usage(1, 1));
            Step { state: filled.state, frames: begun.frames + filled.frames }
        }
    }

    /// Ends the stream after its last bytes.
    pub open spec fn end(self, rest: Seq<u8>, now_millis: i64) -> Step {
        let flushed = self.raw_line(rest);
        let recovered = flushed.state.recover(now_millis);
        let stopped = recovered.state.force_stop();
        Step {
            state: stopped.state,
            frames: flushed.frames + recovered.frames + stopped.frames,
        }
    }
}

impl StreamView {
    /// No step.
    pub open spec fn stay(self) -> StreamStep {
        StreamStep { stream: self, frames: Seq::empty() }
    }

    /// Translates the lines that the bytes complete.
    pub open spec fn receive(self, bytes: Seq<u8>) -> StreamStep {
        let all = self.buffer + bytes;
        let step = self.state.raw_lines(complete_lines(all));
        StreamStep {
            stream: StreamView { state: step.state, buffer: incomplete_line(all), ..self },
            frames: step.frames,
        }
    }

    /// Reports a failure, which is the last thing that a stream sends.
    pub open spec fn fail(self, reason: Seq<char>) -> StreamStep {
        StreamStep {
            stream: StreamView { closed: true, ..self },
            frames: seq![FrameView::Error { reason: "Stream error: "@ + reason }],
        }
    }

    /// Ends the stream.
    pub open spec fn end(self, now_millis: i64) -> StreamStep {
        let step = self.state.end(self.buffer, now_millis);
        StreamStep {
            stream: StreamView { state: step.state, buffer: Seq::empty(), closed: true },
            frames: step.frames,
        }
    }

    /// Answers what happened upstream. The time, in milliseconds since 1970,
    /// names a message that had to be made up.
    pub open spec fn advance(self, event: EventView, now_millis: i64) -> StreamStep {
        if self.closed {
            self.stay()
        } else {
            match event {
                EventView::Chunk(bytes) => self.receive(bytes),
                EventView::Failed(reason) => self.fail(reason),
                EventView::TimedOut => StreamStep { stream: self, frames: seq![FrameView::Ping] },
                EventView::Ended => self.end(now_millis),
            }
        }
    }

    /// Answers what happened upstream, one thing after another, each with the
    /// time at which it happened.
    pub open spec fn run(self, events: Seq<(EventView, i64)>) -> StreamStep
        decreases events.len(),
    {
        if events.len() == 0 {
            self.stay()
        } else {
            let before = self.run(events.drop_last());
            let last = before.stream.advance(events.last().0, events.last().1);
            StreamStep { stream: last.stream, frames: before.frames + last.frames }
        }
    }
}

/// The stream before anything happened.
pub open spec fn initial_stream(options: StreamOptions) -> StreamView {
    StreamView { state: initial_state(options), buffer: Seq::empty(), closed: false }
}

/// Calls `chrono::Utc::now` and `DateTime::timestamp_millis`: the milliseconds
/// since 1970. Nothing is said of the time that the clock shows. It panics where
/// the machine's clock stands before 1970, or beyond the years that `chrono` counts.
#[verifier::external_body]
fn current_millis() -> (r: i64)
{
    chrono::Utc::now().timestamp_millis()
}

/// Translates the bytes of a line, where they are valid UTF-8.
fn process_raw_line(line: &[u8], state: &mut StreamingState, trace_id: &str, email: &str) -> (r: Vec<
    Bytes,
>)
    ensures
        final(state)@ == old(state)@.raw_line(line@).state,
        are_frames(r@, old(state)@.raw_line(line@).frames),
{
    match text_of_utf8(line) {
        Some(text) => match process_sse_line(trim(text), state, trace_id, email) {
            Some(chunks) => chunks,
            None => Vec::new(),
        },
        None => Vec::new(),
    }
}

/// Sends a text block of its own and the token counts that go with it.
fn emit_recovery_block(
    state: &mut StreamingState,
    text: &str,
    input_tokens: u32,
    output_tokens: u32,
) -> (r: Vec<Bytes>)
    ensures
        final(state)@ == old(state)@.recovery_block(
            text@,
            recovery_usage(input_tokens, output_tokens),
        ).state,
        are_frames(
            r@,
            old(state)@.recovery_block(text@, recovery_usage(input_tokens, output_tokens)).frames,
        ),
{
    let mut chunks = state.start_block(BlockType::Text, content_of("text", text));
    let mut closed = state.end_block();
    chunks.append(&mut closed);
    state.has_content = true;
    let usage = Usage {
        input_tokens,
        output_tokens,
        cache_read_input_tokens: None,
        cache_creation_input_tokens: None,
        server_tool_use: None,
    };
    chunks.push(message_delta_chunk("end_turn", usage.to_json()));
    chunks
}

impl StreamingState {
    /// Whether a message has to be made up altogether.
    fn is_blank(&self) -> (r: bool)
        ensures
            r == self@.is_blank(),
    {
        !self.has_content && !self.has_thinking && !self.message_start_sent
    }
}

/// Makes up for content that never came. The time, in milliseconds since 1970,
/// names a message that has to be made up altogether.
pub fn emit_recovery(state: &mut StreamingState, now_millis: i64) -> (r: Vec<Bytes>)
    ensures
        final(state)@ == old(state)@.recover(now_millis).state,
        are_frames(r@, old(state)@.recover(now_millis).frames),
{
    reveal(StateView::recover);
    if state.has_content {
        return Vec::new();
    }
    if state.has_thinking {
        state.record(LogEntry::Interrupted);
        return emit_recovery_block(
            state,
            "\n\n[System] Upstream model interrupted after thinking. (Recovered by Antigravity)",
            0,
            100,
        );
    }
    let mut chunks: Vec<Bytes> = Vec::new();
    if !state.message_start_sent {
        let mut id: String = "msg_recovered_".to_owned();
        id.append(decimal(now_millis).as_str());
        let response = Json::object().with("responseId", Json::Text(id)).with(
            "modelVersion",
            Json::text("gemini-auto"),
        );
        chunks.push(state.emit_message_start(&response));
    }
    let mut filled = emit_recovery_block(state, ".", 1, 1);
    chunks.append(&mut filled);
    chunks
}

/// A Messages event stream that follows a Gemini one.
#[derive(Debug)]
pub struct ClaudeSseStream {
    trace_id: String,
    email: String,
    state: StreamingState,
    buffer: BytesMut,
    closed: bool,
}

impl View for ClaudeSseStream {
    type V = StreamView;

    closed spec fn view(&self) -> StreamView {
        StreamView {
            state: self.state@,
            buffer: buffer_bytes(self.buffer),
            closed: self.closed,
        }
    }
}

/// A stream that answers one request. It is driven by `ClaudeSseStream::advance`.
/// The trace id and the e-mail address name the request to whoever writes its log.
pub fn create_claude_sse_stream(
    trace_id: String,
    email: String,
    session_id: Option<String>,
    scaling_enabled: bool,
    context_limit: u32,
    estimated_prompt_tokens: Option<u32>,
    message_count: usize,
    registered_tool_names: Vec<String>,
) -> (r: ClaudeSseStream)
    ensures
        r.request() == (trace_id@, email@),
        r@ == initial_stream(
            (StreamOptions {
                session_id,
                scaling_enabled,
                context_limit,
                estimated_prompt_tokens,
                message_count,
                registered_tool_names,
            }),
        ),
{
    let mut state = StreamingState::new();
    state.options = StreamOptions {
        session_id,
        scaling_enabled,
        context_limit,
        estimated_prompt_tokens,
        message_count,
        registered_tool_names,
    };
    ClaudeSseStream { trace_id, email, state, buffer: new_buffer(), closed: false }
}

impl ClaudeSseStream {
    /// The trace id and the e-mail address of the request.
    pub closed spec fn request(&self) -> (Seq<char>, Seq<char>) {
        (self.trace_id@, self.email@)
    }

    /// The trace id of the request.
    pub fn trace_id(&self) -> (r: &str)
        ensures
            r@ == self.request().0,
    {
        self.trace_id.as_str()
    }

    /// The e-mail address of the account.
    pub fn email(&self) -> (r: &str)
        ensures
            r@ == self.request().1,
    {
        self.email.as_str()
    }

    /// What happened so far that is worth a line in a log, in order.
    pub fn log(&self) -> (r: &Vec<LogEntry>)
        ensures
            log_views(r@) == self@.state.log,
    {
        &self.state.log
    }

    /// Whether the stream is over.
    pub fn is_closed(&self) -> (r: bool)
        ensures
            r == self@.closed,
    {
        self.closed
    }

    /// How many bytes wait for the end of their line.
    pub fn buffered(&self) -> (r: usize)
        ensures
            r == self@.buffer.len(),
    {
        buffer_slice(&self.buffer).len()
    }

    /// Whether a line waits that has more than white space, so that an end of the
    /// stream flushes it.
    pub fn has_pending_line(&self) -> (r: bool)
        ensures
            r == (valid_utf8(self@.buffer) && trimmed(decode_utf8(self@.buffer)).len() > 0),
    {
        match text_of_utf8(buffer_slice(&self.buffer)) {
            Some(text) => !trim(text).is_empty(),
            None => false,
        }
    }

    /// Whether the bytes of a chunk fit into the buffer.
    pub fn has_room(&self, chunk: &Bytes) -> (r: bool)
        ensures
            r == (self@.buffer.len() + chunk_bytes(*chunk).len() <= BUFFER_LIMIT),
    {
        let waiting: usize = self.buffered();
        waiting <= BUFFER_LIMIT && chunk_slice(chunk).len() <= BUFFER_LIMIT - waiting
    }

    /// Translates the lines that the bytes complete.
    fn receive(&mut self, bytes: &[u8]) -> (r: Vec<Bytes>)
        requires
            old(self)@.buffer.len() + bytes@.len() <= BUFFER_LIMIT,
        ensures
            final(self).request() == old(self).request(),
            final(self)@ == old(self)@.receive(bytes@).stream,
            are_frames(r@, old(self)@.receive(bytes@).frames),
    {
        let ghost before = self.state@;
        let ghost all = buffer_bytes(self.buffer) + bytes@;
        let ghost mut done: Seq<Seq<u8>> = Seq::empty();
        let mut chunks: Vec<Bytes> = Vec::new();
        extend_buffer(&mut self.buffer, bytes);
        assert(done + complete_lines(all) =~= complete_lines(all));
        loop
            invariant
                self.closed == old(self).closed,
                self.request() == old(self).request(),
                self.state@ == before.raw_lines(done).state,
                are_frames(chunks@, before.raw_lines(done).frames),
                done + complete_lines(buffer_bytes(self.buffer)) == complete_lines(all),
                incomplete_line(buffer_bytes(self.buffer)) == incomplete_line(all),
            ensures
                line_length(buffer_bytes(self.buffer)) == 0,
            decreases buffer_bytes(self.buffer).len(),
        {
            let ghost waiting = buffer_bytes(self.buffer);
            match take_line(&mut self.buffer) {
                Some(line) => {
                    let ghost first = buffer_bytes(line);
                    let mut sent = process_raw_line(
                        buffer_slice(&line),
                        &mut self.state,
                        self.trace_id.as_str(),
                        self.email.as_str(),
                    );
                    chunks.append(&mut sent);
                    proof {
                        assert(done.push(first).drop_last() =~= done);
                        assert(done.push(first) + complete_lines(buffer_bytes(self.buffer))
                            =~= done + complete_lines(waiting));
                        done = done.push(first);
                    }
                },
                None => break,
            }
        }
        assert(done =~= complete_lines(all));
        chunks
    }

    /// Reports a failure, which is the last thing that a stream sends.
    fn fail(&mut self, reason: &str) -> (r: Vec<Bytes>)
        ensures
            final(self).request() == old(self).request(),
            final(self)@ == old(self)@.fail(reason@).stream,
            are_frames(r@, old(self)@.fail(reason@).frames),
    {
        let mut message: String = "Stream error: ".to_owned();
        message.append(reason);
        let mut chunks: Vec<Bytes> = Vec::new();
        chunks.push(error_chunk(message.as_str()));
        self.closed = true;
        chunks
    }

    /// Translates the line that is not complete, and empties the buffer.
    fn flush(&mut self) -> (r: Vec<Bytes>)
        ensures
            final(self).request() == old(self).request(),
            final(self)@ == (StreamView {
                state: old(self)@.state.raw_line(old(self)@.buffer).state,
                buffer: Seq::empty(),
                ..old(self)@
            }),
            are_frames(r@, old(self)@.state.raw_line(old(self)@.buffer).frames),
    {
        let chunks = process_raw_line(
            buffer_slice(&self.buffer),
            &mut self.state,
            self.trace_id.as_str(),
            self.email.as_str(),
        );
        clear_buffer(&mut self.buffer);
        chunks
    }

    /// Makes up for missing content at the given time, and stops the message.
    fn wind_up(&mut self, now_millis: i64) -> (r: Vec<Bytes>)
        ensures
            final(self).request() == old(self).request(),
            final(self)@ == (StreamView {
                state: old(self)@.state.recover(now_millis).state.force_stop().state,
                closed: true,
                ..old(self)@
            }),
            are_frames(
                r@,
                old(self)@.state.recover(now_millis).frames + old(self)@.state.recover(
                    now_millis,
                ).state.force_stop().frames,
            ),
    {
        let mut chunks = emit_recovery(&mut self.state, now_millis);
        let mut stopped = emit_force_stop(&mut self.state);
        chunks.append(&mut stopped);
        self.closed = true;
        chunks
    }

    /// Ends the stream at the given time, in milliseconds since 1970.
    fn end(&mut self, now_millis: i64) -> (r: Vec<Bytes>)
        ensures
            final(self).request() == old(self).request(),
            final(self)@ == old(self)@.end(now_millis).stream,
            are_frames(r@, old(self)@.end(now_millis).frames),
    {
        let mut chunks = self.flush();
        let mut rest = self.wind_up(now_millis);
        chunks.append(&mut rest);
        chunks
    }

    /// Answers what happened upstream, at the given time in milliseconds since
    /// 1970.
    pub fn advance_at(&mut self, event: UpstreamEvent, now_millis: i64) -> (r: Vec<Bytes>)
        requires
            event@ matches EventView::Chunk(bytes) ==> old(self)@.buffer.len() + bytes.len()
                <= BUFFER_LIMIT,
        ensures
            final(self).request() == old(self).request(),
            final(self)@ == old(self)@.advance(event@, now_millis).stream,
            are_frames(r@, old(self)@.advance(event@, now_millis).frames),
    {
        if self.closed {
            return Vec::new();
        }
        match event {
            UpstreamEvent::Chunk(chunk) => self.receive(chunk_slice(&chunk)),
            UpstreamEvent::Failed(reason) => self.fail(reason.as_str()),
            UpstreamEvent::TimedOut => {
                let mut chunks: Vec<Bytes> = Vec::new();
                chunks.push(ping_chunk());
                chunks
            },
            UpstreamEvent::Ended => self.end(now_millis),
        }
    }

    /// Answers what happened upstream, at the time that the clock shows. The clock
    /// is read only where a message has to be made up altogether.
    pub fn advance(&mut self, event: UpstreamEvent) -> (r: Vec<Bytes>)
        requires
            event@ matches EventView::Chunk(bytes) ==> old(self)@.buffer.len() + bytes.len()
                <= BUFFER_LIMIT,
        ensures
            final(self).request() == old(self).request(),
            exists|now_millis: i64|
                {
                    let step = #[trigger] old(self)@.advance(event@, now_millis);
                    final(self)@ == step.stream && are_frames(r@, step.frames)
                },
    {
        match event {
            UpstreamEvent::Ended if !self.closed => {
                let ghost before = self@;
                let mut chunks = self.flush();
                let now_millis: i64 = if self.state.is_blank() {
                    current_millis()
                } else {
                    0
                };
                let mut rest = self.wind_up(now_millis);
                chunks.append(&mut rest);
                assert(are_frames(chunks@, before.advance(event@, now_millis).frames));
                chunks
            },
            _ => self.advance_at(event, 0),
        }
    }
}

} // verus!
