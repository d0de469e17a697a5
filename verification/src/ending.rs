//! What a client has read when a stream is over.

use crate::buffer::{complete_lines, incomplete_line};
use crate::frame::FrameView;
use crate::laws::{all_go_on, bytes_of};
use crate::meaning::law_recovery_is_exact;
use crate::reading::{
    law_parts_keep_content, law_response_keeps_content, lead_parts, lemma_finish_read,
    lemma_no_content, lemma_read_concat, lemma_run_reads, line_content, line_response, line_tools,
    read, received, sources_shown, tells_of_search, tools_read, tools_received, Channel,
};
use crate::state::{StateView, StreamOptions};
use crate::stream::{initial_stream, EventView};
use vstd::prelude::*;

verus! {

/// What a line does to a message that knows of no web search.
proof fn lemma_line(state: StateView, line: Seq<u8>, channel: Channel)
    requires
        state.grounding_chunks is None,
        !tells_of_search(line),
    ensures
        ({
            let step = state.raw_line(line);
            &&& read(step.frames, channel) == line_content(line, channel)
            &&& tools_read(step.frames) == line_tools(line)
            &&& step.state.grounding_chunks is None
            &&& step.state.has_content <==> state.has_content || line_content(
                line,
                Channel::Text,
            ).len() > 0 || line_tools(line).len() > 0
            &&& step.state.has_thinking <==> state.has_thinking || line_content(
                line,
                Channel::Thinking,
            ).len() > 0
        }),
{
    reveal(StateView::line);
    reveal_strlit("data: ");
    let step = state.raw_line(line);
    match line_response(line) {
        Some(raw) => {
            let begun = state.begin(raw).state;
            let parts = crate::line::parts_of(raw);
            assert(parts =~= lead_parts(raw));
            assert(begun.ground(raw) == begun);
            law_response_keeps_content(state, raw, channel);
            law_parts_keep_content(begun, parts, channel);
            assert(sources_shown(state, raw) =~= Seq::empty());
            assert(read(step.frames, channel) =~= line_content(line, channel));
        },
        None => {
            lemma_finish_read(state, None, None, channel);
            lemma_no_content(seq![FrameView::MessageStop], channel);
            lemma_no_content(Seq::empty(), channel);
        },
    }
}

proof fn lemma_lines(state: StateView, lines: Seq<Seq<u8>>, channel: Channel)
    requires
        state.grounding_chunks is None,
        forall|i: int| 0 <= i < lines.len() ==> !tells_of_search(#[trigger] lines[i]),
    ensures
        ({
            let step = state.raw_lines(lines);
            &&& read(step.frames, channel) == received(lines, channel)
            &&& tools_read(step.frames) == tools_received(lines)
            &&& step.state.grounding_chunks is None
            &&& step.state.has_content <==> state.has_content || received(
                lines,
                Channel::Text,
            ).len() > 0 || tools_received(lines).len() > 0
            &&& step.state.has_thinking <==> state.has_thinking || received(
                lines,
                Channel::Thinking,
            ).len() > 0
        }),
    decreases lines.len(),
{
    if lines.len() > 0 {
        let rest = lines.drop_last();
        let line = lines[lines.len() - 1];
        assert forall|i: int| 0 <= i < rest.len() implies !tells_of_search(#[trigger] rest[i]) by {
            assert(rest[i] == lines[i]);
        }
        lemma_lines(state, rest, channel);
        let before = state.raw_lines(rest);
        lemma_line(before.state, line, channel);
        lemma_read_concat(before.frames, before.state.raw_line(line).frames, channel);
    }
}

/// What a client reads where there was neither text nor a tool call: that the
/// model was interrupted, if it had been thinking, or a dot.
pub open spec fn made_up(had_thinking: bool) -> Seq<char> {
    if had_thinking {
        "\n\n[System] Upstream model interrupted after thinking. (Recovered by Antigravity)"@
    } else {
        "."@
    }
}

/// The client of a stream that is over has read all that came, the last line
/// included, whether it was complete or not. Where there was neither text nor a
/// tool call, it has read what was made up, and only there. This is of streams
/// whose responses told of no web search.
pub proof fn law_ended_stream_keeps_content(
    options: StreamOptions,
    events: Seq<(EventView, i64)>,
    now_millis: i64,
)
    requires
        all_go_on(events),
        forall|i: int|
            0 <= i < complete_lines(bytes_of(events)).len() ==> !tells_of_search(
                #[trigger] complete_lines(bytes_of(events))[i],
            ),
        !tells_of_search(incomplete_line(bytes_of(events))),
    ensures
        ({
            let frames = initial_stream(options).run(
                events.push((EventView::Ended, now_millis)),
            ).frames;
            let lines = complete_lines(bytes_of(events)).push(incomplete_line(bytes_of(events)));
            let text = received(lines, Channel::Text);
            let thinking = received(lines, Channel::Thinking);
            &&& read(frames, Channel::Thinking) == thinking
            &&& read(frames, Channel::Input) == received(lines, Channel::Input)
            &&& tools_read(frames) == tools_received(lines)
            &&& text.len() > 0 || tools_received(lines).len() > 0 ==> read(frames, Channel::Text)
                == text
            &&& text.len() == 0 && tools_received(lines).len() == 0 ==> read(
                frames,
                Channel::Text,
            ) == made_up(thinking.len() > 0)
        }),
{
    let stream = initial_stream(options);
    let all = events.push((EventView::Ended, now_millis));
    let lines = complete_lines(bytes_of(events)).push(incomplete_line(bytes_of(events)));
    assert(all.drop_last() =~= events);
    assert(stream.buffer + bytes_of(events) =~= bytes_of(events));
    let before = stream.run(events);
    let last = before.stream.advance(EventView::Ended, now_millis);
    assert forall|i: int| 0 <= i < lines.len() implies !tells_of_search(#[trigger] lines[i]) by {
        if i < lines.len() - 1 {
            assert(lines[i] == complete_lines(bytes_of(events))[i]);
        }
    }
    assert(lines.drop_last() =~= complete_lines(bytes_of(events)));
    let flushed = before.stream.state.raw_line(before.stream.buffer);
    let recovered = flushed.state.recover(now_millis);
    let stopped = recovered.state.force_stop();
    law_recovery_is_exact(flushed.state, now_millis);
    lemma_run_reads(stream, events, Channel::Text);
    assert(!before.stream.closed);
    lemma_lines(stream.state, lines, Channel::Text);
    assert forall|channel: Channel| #[trigger]
        read(stream.run(all).frames, channel) == received(lines, channel) + read(
            recovered.frames,
            channel,
        ) && tools_read(stream.run(all).frames) == tools_received(lines) + tools_read(
            recovered.frames,
        ) by {
        lemma_run_reads(stream, events, channel);
        lemma_lines(stream.state, lines, channel);
        let whole = stream.state.raw_lines(lines.drop_last());
        lemma_read_concat(whole.frames, flushed.frames, channel);
        lemma_read_concat(before.frames, last.frames, channel);
        lemma_read_concat(flushed.frames, recovered.frames, channel);
        lemma_read_concat(flushed.frames + recovered.frames, stopped.frames, channel);
        assert(recovered.state.grounding_chunks is None) by {
            reveal(StateView::recover);
        }
        lemma_finish_read(recovered.state, None, None, channel);
        lemma_no_content(seq![FrameView::MessageStop], channel);
        lemma_no_content(Seq::empty(), channel);
        assert(read(stopped.frames, channel) =~= Seq::empty());
        assert(tools_read(stopped.frames) =~= Seq::empty());
        assert(read(stream.run(all).frames, channel) =~= received(lines, channel) + read(
            recovered.frames,
            channel,
        ));
        assert(tools_read(stream.run(all).frames) =~= tools_received(lines) + tools_read(
            recovered.frames,
        ));
    }
    assert(read(stream.run(all).frames, Channel::Text) == received(lines, Channel::Text) + read(
        recovered.frames,
        Channel::Text,
    ));
    assert(tools_read(recovered.frames) =~= Seq::empty()) by {
        lemma_recovery_calls_no_tool(flushed.state, now_millis);
    }
    if flushed.state.has_content {
        lemma_no_content(recovered.frames, Channel::Text);
        lemma_no_content(recovered.frames, Channel::Thinking);
        lemma_no_content(recovered.frames, Channel::Input);
    }
    assert(read(stream.run(all).frames, Channel::Thinking) =~= received(lines, Channel::Thinking));
    assert(read(stream.run(all).frames, Channel::Input) =~= received(lines, Channel::Input));
    assert(tools_read(stream.run(all).frames) =~= tools_received(lines));
    if received(lines, Channel::Text).len() == 0 {
        assert(received(lines, Channel::Text) =~= Seq::empty());
        assert(read(stream.run(all).frames, Channel::Text) =~= read(
            recovered.frames,
            Channel::Text,
        ));
    }
    if flushed.state.has_content {
        assert(read(stream.run(all).frames, Channel::Text) =~= received(lines, Channel::Text));
    }
}

proof fn lemma_recovery_calls_no_tool(state: StateView, now_millis: i64)
    ensures
        tools_read(state.recover(now_millis).frames) == Seq::<Seq<char>>::empty(),
{
    reveal(StateView::recover);
    reveal_strlit("type");
    reveal_strlit("text");
    reveal_strlit("tool_use");
    assert("type"@[1] == 'y' && "text"@[1] == 'e');
    assert("tool_use"@.len() == 8 && "text"@.len() == 4);
    let frames = state.recover(now_millis).frames;
    assert forall|i: int| 0 <= i < frames.len() implies !calls_tool(#[trigger] frames[i]) by {}
    lemma_no_tools(frames);
}

spec fn calls_tool(frame: FrameView) -> bool {
    frame matches FrameView::BlockStart { block, .. } && crate::reading::is_typed(
        block,
        "tool_use"@,
    )
}

proof fn lemma_no_tools(frames: Seq<FrameView>)
    requires
        forall|i: int| 0 <= i < frames.len() ==> !calls_tool(#[trigger] frames[i]),
    ensures
        tools_read(frames) == Seq::<Seq<char>>::empty(),
    decreases frames.len(),
{
    if frames.len() > 0 {
        let rest = frames.drop_last();
        assert forall|i: int| 0 <= i < rest.len() implies !calls_tool(#[trigger] rest[i]) by {
            assert(rest[i] == frames[i]);
        }
        lemma_no_tools(rest);
        assert(!calls_tool(frames[frames.len() - 1]));
    }
}

} // verus!
