//! The order in which the frames of a streamed message may come, and that every
//! stream keeps to it.

use crate::frame::FrameView;
use crate::json::JsonView;
use crate::part::{part_of, FunctionCallView};
use crate::state::{next_index, BlockType, StateView, Step};
use crate::usage::UsageMetadata;
use vstd::prelude::*;

verus! {

/// What a client knows from the frames it has seen.
pub struct Progress {
    /// The message has begun.
    pub started: bool,
    /// A content block is open.
    pub open: bool,
    /// The index of the open block, or of the next one.
    pub index: usize,
    /// The message has stopped.
    pub stopped: bool,
}

/// Before the first frame.
pub open spec fn no_progress() -> Progress {
    Progress { started: false, open: false, index: 0, stopped: false }
}

impl Progress {
    /// Whether a frame may come next. A message begins once and stops once;
    /// blocks come one after another, within a message that has begun, numbered
    /// in order; deltas belong to the open block; a message reports why it
    /// stopped, and stops, between blocks.
    pub open spec fn admits(self, frame: FrameView) -> bool {
        match frame {
            FrameView::MessageStart { .. } => !self.started && !self.open,
            FrameView::BlockStart { index, .. } => self.started && !self.open && index
                == self.index,
            FrameView::BlockDelta { index, .. } => self.open && index == self.index,
            FrameView::BlockStop { index } => self.open && index == self.index,
            FrameView::MessageDelta { .. } => self.started && !self.open,
            FrameView::MessageStop => !self.stopped && !self.open,
            FrameView::Error { .. } | FrameView::Ping => true,
        }
    }

    /// What a client knows after a frame.
    pub open spec fn after(self, frame: FrameView) -> Progress {
        match frame {
            FrameView::MessageStart { .. } => Progress { started: true, ..self },
            FrameView::BlockStart { .. } => Progress { open: true, ..self },
            FrameView::BlockStop { .. } => Progress {
                open: false,
                index: next_index(self.index),
                ..self
            },
            FrameView::MessageStop => Progress { stopped: true, ..self },
            _ => self,
        }
    }

    /// What a client knows after several frames.
    pub open spec fn after_all(self, frames: Seq<FrameView>) -> Progress
        decreases frames.len(),
    {
        if frames.len() == 0 {
            self
        } else {
            self.after_all(frames.drop_last()).after(frames.last())
        }
    }

    /// Whether several frames may come next, in their order.
    pub open spec fn admits_all(self, frames: Seq<FrameView>) -> bool
        decreases frames.len(),
    {
        frames.len() == 0 || {
            &&& self.admits_all(frames.drop_last())
            &&& self.after_all(frames.drop_last()).admits(frames.last())
        }
    }
}

/// What the client of a message knows.
pub open spec fn progress(state: StateView) -> Progress {
    Progress {
        started: state.message_start_sent,
        open: state.block is Some,
        index: state.block_index,
        stopped: state.message_stop_sent,
    }
}

/// The invariant of a message: content, thinking and open blocks come only after
/// its beginning, and an open block holds one of the two.
pub open spec fn is_sound(state: StateView) -> bool {
    &&& state.has_content || state.has_thinking ==> state.message_start_sent
    &&& state.block is Some ==> state.has_content || state.has_thinking
}

/// Whether a frame opens a content block.
pub open spec fn opens_block(frame: FrameView) -> bool {
    frame is BlockStart
}

/// Whether some frame opens a content block.
pub open spec fn opens_some_block(frames: Seq<FrameView>) -> bool {
    exists|i: int| 0 <= i < frames.len() && opens_block(#[trigger] frames[i])
}

/// Whether no frame is a ping or an error.
pub open spec fn only_message(frames: Seq<FrameView>) -> bool {
    forall|i: int|
        0 <= i < frames.len() ==> !((#[trigger] frames[i]) is Ping) && !(frames[i] is Error)
}

/// Whether a step from a state keeps to the order of frames, keeps the invariant,
/// and sends a block where it claims content.
pub open spec fn is_orderly(state: StateView, step: Step) -> bool {
    &&& is_sound(step.state)
    &&& progress(state).admits_all(step.frames)
    &&& progress(state).after_all(step.frames) == progress(step.state)
    &&& only_message(step.frames)
    &&& step.state.has_content || step.state.has_thinking ==> state.has_content
        || state.has_thinking || opens_some_block(step.frames)
    &&& state.has_content ==> step.state.has_content
    &&& state.message_start_sent ==> step.state.message_start_sent
    &&& state.message_stop_sent ==> step.state.message_stop_sent
}

pub(crate) proof fn lemma_concat(p: Progress, a: Seq<FrameView>, b: Seq<FrameView>)
    ensures
        p.after_all(a + b) == p.after_all(a).after_all(b),
        p.admits_all(a + b) <==> p.admits_all(a) && p.after_all(a).admits_all(b),
    decreases b.len(),
{
    if b.len() == 0 {
        assert(a + b =~= a);
    } else {
        assert((a + b).drop_last() =~= a + b.drop_last());
        lemma_concat(p, a, b.drop_last());
    }
}

/// Orderly steps make an orderly step.
proof fn lemma_then(state: StateView, first: Step, second: Step)
    requires
        is_orderly(state, first),
        is_orderly(first.state, second),
    ensures
        is_orderly(
            state,
            Step { state: second.state, frames: first.frames + second.frames },
        ),
{
    lemma_concat(progress(state), first.frames, second.frames);
    let all = first.frames + second.frames;
    if opens_some_block(first.frames) {
        let i = choose|i: int| 0 <= i < first.frames.len() && opens_block(#[trigger] first.frames[i]);
        assert(all[i] == first.frames[i]);
    }
    if opens_some_block(second.frames) {
        let i = choose|i: int|
            0 <= i < second.frames.len() && opens_block(#[trigger] second.frames[i]);
        assert(all[first.frames.len() + i] == second.frames[i]);
    }
    assert forall|i: int| 0 <= i < all.len() implies !((#[trigger] all[i]) is Ping) && !(
    all[i] is Error) by {
        if i < first.frames.len() {
            assert(all[i] == first.frames[i]);
        } else {
            assert(all[i] == second.frames[i - first.frames.len()]);
        }
    }
}

proof fn lemma_stay(state: StateView)
    requires
        is_sound(state),
    ensures
        is_orderly(state, state.stay()),
{
}

pub(crate) proof fn lemma_one(p: Progress, frame: FrameView)
    ensures
        p.after_all(seq![frame]) == p.after(frame),
        p.admits_all(seq![frame]) <==> p.admits(frame),
{
    let frames = seq![frame];
    assert(frames.drop_last() =~= Seq::empty());
    assert(p.after_all(frames.drop_last()) == p && p.admits_all(frames.drop_last()));
}

proof fn lemma_push(p: Progress, frames: Seq<FrameView>, frame: FrameView)
    ensures
        p.after_all(frames.push(frame)) == p.after_all(frames).after(frame),
        p.admits_all(frames.push(frame)) <==> p.admits_all(frames) && p.after_all(frames).admits(
            frame,
        ),
{
    assert(frames.push(frame).drop_last() =~= frames);
}

proof fn lemma_end_block(state: StateView)
    requires
        is_sound(state),
    ensures
        is_orderly(state, state.end_block()),
{
    if state.block is Some {
        lemma_one(progress(state), FrameView::BlockStop { index: state.block_index });
    }
}

/// A block is opened in order. Its content is still to come.
proof fn lemma_start_block(state: StateView, kind: BlockType, block: JsonView)
    requires
        is_sound(state),
        state.message_start_sent,
    ensures
        ({
            let step = state.start_block(kind, block);
            &&& progress(state).admits_all(step.frames)
            &&& progress(state).after_all(step.frames) == progress(step.state)
            &&& only_message(step.frames)
            &&& opens_some_block(step.frames)
        }),
{
    let closed = state.end_block();
    let frame = FrameView::BlockStart { index: closed.state.block_index, block };
    lemma_end_block(state);
    lemma_push(progress(state), closed.frames, frame);
    let frames = closed.frames.push(frame);
    assert(opens_block(frames[frames.len() - 1]));
}

proof fn lemma_ensure_block(state: StateView, kind: BlockType, block: JsonView)
    requires
        is_sound(state),
        state.message_start_sent,
    ensures
        ({
            let step = state.ensure_block(kind, block);
            &&& progress(state).admits_all(step.frames)
            &&& progress(state).after_all(step.frames) == progress(step.state)
            &&& only_message(step.frames)
            &&& state.has_content || state.has_thinking || opens_some_block(step.frames)
        }),
{
    if state.block != Some(kind) {
        lemma_start_block(state, kind, block);
    }
}

proof fn lemma_opens_more(frames: Seq<FrameView>, more: Seq<FrameView>)
    requires
        opens_some_block(frames),
    ensures
        opens_some_block(frames + more),
{
    let i = choose|i: int| 0 <= i < frames.len() && opens_block(#[trigger] frames[i]);
    assert((frames + more)[i] == frames[i]);
}

proof fn lemma_text(state: StateView, text: Seq<char>)
    requires
        is_sound(state),
        state.message_start_sent,
    ensures
        is_orderly(state, state.text(text)),
{
    if text.len() > 0 {
        let block = crate::state::content_json("text"@, ""@);
        let opened = state.ensure_block(BlockType::Text, block);
        let frame = state.text(text).frames.last();
        lemma_ensure_block(state, BlockType::Text, block);
        lemma_push(progress(state), opened.frames, frame);
        assert(opened.frames.push(frame) =~= opened.frames + seq![frame]);
        if opens_some_block(opened.frames) {
            lemma_opens_more(opened.frames, seq![frame]);
        }
    }
}

proof fn lemma_thinking(state: StateView, text: Seq<char>)
    requires
        is_sound(state),
        state.message_start_sent,
    ensures
        is_orderly(state, state.thinking(text)),
{
    if text.len() > 0 {
        let block = crate::state::content_json("thinking"@, ""@);
        let opened = state.ensure_block(BlockType::Thinking, block);
        let frame = state.thinking(text).frames.last();
        lemma_ensure_block(state, BlockType::Thinking, block);
        lemma_push(progress(state), opened.frames, frame);
        assert(opened.frames.push(frame) =~= opened.frames + seq![frame]);
        if opens_some_block(opened.frames) {
            lemma_opens_more(opened.frames, seq![frame]);
        }
    }
}

proof fn lemma_tool_call(state: StateView, call: FunctionCallView)
    requires
        is_sound(state),
        state.message_start_sent,
    ensures
        is_orderly(state, state.tool_call(call)),
{
    let block = crate::state::tool_json(state.tool_id(call), call.name);
    let opened = state.start_block(BlockType::ToolUse, block);
    let closed = opened.state.end_block();
    let stop = FrameView::BlockStop { index: opened.state.block_index };
    let p = progress(state);
    lemma_start_block(state, BlockType::ToolUse, block);
    assert(closed.frames =~= seq![stop]);
    match call.args {
        Some(args) => {
            let delta = FrameView::BlockDelta {
                index: opened.state.block_index,
                delta: crate::state::delta_json(
                    "input_json_delta"@,
                    "partial_json"@,
                    crate::json::json_text(args),
                ),
            };
            lemma_push(p, opened.frames, delta);
            lemma_push(p, opened.frames.push(delta), stop);
            assert(state.tool_call(call).frames =~= opened.frames.push(delta).push(stop));
            assert(state.tool_call(call).frames =~= opened.frames + seq![delta, stop]);
            lemma_opens_more(opened.frames, seq![delta, stop]);
        },
        None => {
            lemma_push(p, opened.frames, stop);
            assert(state.tool_call(call).frames =~= opened.frames.push(stop));
            assert(state.tool_call(call).frames =~= opened.frames + seq![stop]);
            lemma_opens_more(opened.frames, seq![stop]);
        },
    }
}

proof fn lemma_parts(state: StateView, parts: Seq<JsonView>)
    requires
        is_sound(state),
        state.message_start_sent,
    ensures
        is_orderly(state, state.parts(parts)),
    decreases parts.len(),
{
    if parts.len() > 0 {
        let before = state.parts(parts.drop_last());
        lemma_parts(state, parts.drop_last());
        match part_of(parts.last()) {
            Some(part) => {
                match (part.function_call, part.text) {
                    (Some(call), _) => lemma_tool_call(before.state, call),
                    (None, Some(text)) => if part.thought {
                        lemma_thinking(before.state, text);
                    } else {
                        lemma_text(before.state, text);
                    },
                    (None, None) => lemma_stay(before.state),
                }
                lemma_then(state, before, before.state.part(part));
            },
            None => {
                lemma_stay(before.state);
                lemma_then(state, before, before.state.stay());
            },
        }
    }
}

proof fn lemma_sources(state: StateView)
    requires
        is_sound(state),
        state.message_start_sent,
    ensures
        is_orderly(state, state.sources()),
{
    let text = crate::sources::sources_text(state.web_search_query, state.grounding_chunks);
    if state.message_stop_sent || text.len() == 0 {
        lemma_stay(state);
    } else {
        let block = crate::state::content_json("text"@, ""@);
        let opened = state.start_block(BlockType::Text, block);
        let frame = state.sources().frames.last();
        lemma_start_block(state, BlockType::Text, block);
        lemma_push(progress(state), opened.frames, frame);
        assert(opened.frames.push(frame) =~= opened.frames + seq![frame]);
        lemma_opens_more(opened.frames, seq![frame]);
    }
}

proof fn lemma_close(
    state: StateView,
    reason: Option<Seq<char>>,
    usage: Option<UsageMetadata>,
)
    requires
        is_sound(state),
        state.message_start_sent,
    ensures
        is_orderly(state, state.close(reason, usage)),
{
    let closed = state.end_block();
    let delta = FrameView::MessageDelta {
        stop_reason: crate::state::stop_reason(state.used_tool, reason),
        usage: crate::usage::usage_json(crate::usage::usage_of(usage)),
    };
    lemma_end_block(state);
    lemma_push(progress(state), closed.frames, delta);
    lemma_push(progress(state), closed.frames.push(delta), FrameView::MessageStop);
    if state.message_stop_sent {
        assert(state.close(reason, usage).frames =~= closed.frames.push(delta));
    } else {
        assert(state.close(reason, usage).frames =~= closed.frames.push(delta).push(
            FrameView::MessageStop,
        ));
    }
}

proof fn lemma_finish(
    state: StateView,
    reason: Option<Seq<char>>,
    usage: Option<UsageMetadata>,
)
    requires
        is_sound(state),
    ensures
        is_orderly(state, state.finish(reason, usage)),
{
    if state.message_start_sent {
        let shown = state.sources();
        lemma_sources(state);
        lemma_close(shown.state, reason, usage);
        lemma_then(state, shown, shown.state.close(reason, usage));
    }
}

/// Forcing a message to stop keeps to the order of frames.
proof fn lemma_force_stop(state: StateView)
    requires
        is_sound(state),
    ensures
        is_orderly(state, state.force_stop()),
        state.force_stop().state.message_stop_sent,
{
    lemma_finish(state, None, None);
    lemma_one(progress(state), FrameView::MessageStop);
}

/// A response keeps to the order of frames.
pub proof fn law_response_is_orderly(state: StateView, raw: JsonView)
    requires
        is_sound(state),
    ensures
        is_orderly(state, state.response(raw)),
{
    let begun = state.begin(raw);
    let grounded = begun.state.ground(raw);
    let parts = crate::line::parts_of(raw);
    let sent = grounded.parts(parts);
    lemma_one(
        progress(state),
        FrameView::MessageStart { message: crate::state::message_json(raw) },
    );
    assert(is_orderly(state, begun));
    lemma_parts(grounded, parts);
    assert(is_orderly(begun.state, sent));
    lemma_then(state, begun, sent);
    let both = Step { state: sent.state, frames: begun.frames + sent.frames };
    match crate::line::finish_reason(raw) {
        Some(reason) => lemma_finish(
            sent.state.completed(raw),
            Some(reason),
            crate::state::reported_usage(raw),
        ),
        None => lemma_stay(sent.state),
    }
    lemma_then(state, both, sent.state.conclude(raw));
}

/// Every line keeps to the order of frames.
pub proof fn law_line_is_orderly(state: StateView, line: Seq<char>)
    requires
        is_sound(state),
    ensures
        is_orderly(state, state.line(line)),
{
    reveal(StateView::line);
    lemma_stay(state);
    lemma_force_stop(state);
    if let Some(data) = crate::line::line_data(line) {
        if let Some(json) = crate::json::json_document(data) {
            law_response_is_orderly(state, crate::line::unwrapped(json));
        }
    }
}

proof fn lemma_raw_line(state: StateView, line: Seq<u8>)
    requires
        is_sound(state),
    ensures
        is_orderly(state, state.raw_line(line)),
{
    lemma_stay(state);
    law_line_is_orderly(state, crate::text::trimmed(vstd::utf8::decode_utf8(line)));
}

pub(crate) proof fn lemma_raw_lines(state: StateView, lines: Seq<Seq<u8>>)
    requires
        is_sound(state),
    ensures
        is_orderly(state, state.raw_lines(lines)),
    decreases lines.len(),
{
    if lines.len() == 0 {
        lemma_stay(state);
    } else {
        let before = state.raw_lines(lines.drop_last());
        lemma_raw_lines(state, lines.drop_last());
        lemma_raw_line(before.state, lines.last());
        lemma_then(state, before, before.state.raw_line(lines.last()));
    }
}

proof fn lemma_recovery_block(state: StateView, text: Seq<char>, usage: JsonView)
    requires
        is_sound(state),
        state.message_start_sent,
    ensures
        is_orderly(state, state.recovery_block(text, usage)),
{
    let block = crate::state::content_json("text"@, text);
    let opened = state.start_block(BlockType::Text, block);
    let stop = FrameView::BlockStop { index: opened.state.block_index };
    let delta = FrameView::MessageDelta { stop_reason: "end_turn"@, usage };
    let p = progress(state);
    lemma_start_block(state, BlockType::Text, block);
    lemma_push(p, opened.frames, stop);
    lemma_push(p, opened.frames.push(stop), delta);
    assert(state.recovery_block(text, usage).frames =~= opened.frames.push(stop).push(delta));
    assert(state.recovery_block(text, usage).frames =~= opened.frames + seq![stop, delta]);
    lemma_opens_more(opened.frames, seq![stop, delta]);
}

proof fn lemma_recover(state: StateView, now_millis: i64)
    requires
        is_sound(state),
    ensures
        is_orderly(state, state.recover(now_millis)),
        state.recover(now_millis).state.has_content,
{
    reveal(StateView::recover);
    if state.has_content {
        lemma_stay(state);
    } else if state.has_thinking {
        lemma_recovery_block(
            state,
            crate::stream::interruption_notice(),
            crate::stream::recovery_usage(0, 100),
        );
    } else {
        let raw = crate::stream::recovered_response(now_millis);
        let begun = state.begin(raw);
        lemma_one(
            progress(state),
            FrameView::MessageStart { message: crate::state::message_json(raw) },
        );
        assert(is_orderly(state, begun));
        lemma_recovery_block(begun.state, "."@, crate::stream::recovery_usage(1, 1));
        lemma_then(
            state,
            begun,
            begun.state.recovery_block("."@, crate::stream::recovery_usage(1, 1)),
        );
    }
}

/// The end of a stream keeps to the order of frames, and leaves a message that
/// has begun, has content and has stopped.
pub proof fn law_end_is_orderly(state: StateView, rest: Seq<u8>, now_millis: i64)
    requires
        is_sound(state),
    ensures
        is_orderly(state, state.end(rest, now_millis)),
        state.end(rest, now_millis).state.message_start_sent,
        state.end(rest, now_millis).state.has_content,
        state.end(rest, now_millis).state.message_stop_sent,
{
    let flushed = state.raw_line(rest);
    let recovered = flushed.state.recover(now_millis);
    let stopped = recovered.state.force_stop();
    lemma_raw_line(state, rest);
    lemma_recover(flushed.state, now_millis);
    lemma_then(state, flushed, recovered);
    lemma_force_stop(recovered.state);
    lemma_then(
        state,
        Step { state: recovered.state, frames: flushed.frames + recovered.frames },
        stopped,
    );
}

/// Search results come in order, between the blocks of a message that has begun.
pub proof fn law_search_is_orderly(state: StateView, metadata: JsonView, random_id: Seq<char>)
    requires
        is_sound(state),
        state.message_start_sent,
        state.block is None,
    ensures
        is_orderly(state, state.search(metadata, random_id)),
{
    let step = state.search(metadata, random_id);
    let p = progress(state);
    if step.frames.len() > 0 {
        let none = Seq::<FrameView>::empty();
        let one = none.push(step.frames[0]);
        let two = one.push(step.frames[1]);
        let three = two.push(step.frames[2]);
        lemma_push(p, none, step.frames[0]);
        lemma_push(p, one, step.frames[1]);
        lemma_push(p, two, step.frames[2]);
        lemma_push(p, three, step.frames[3]);
        assert(step.frames =~= three.push(step.frames[3]));
    }
}

} // verus!
