//! What holds of a stream as a whole.

use crate::buffer::{
    complete_lines, incomplete_line, lemma_line_length_bound, lemma_lines_of_pieces, line_length,
    LINE_FEED,
};
use crate::frame::FrameView;
use crate::json::JsonView;
use crate::line::{finish_reason, parts_of};
use crate::log::{completion_of, LogView};
use crate::protocol::{
    is_sound, law_end_is_orderly, lemma_concat, lemma_one, lemma_raw_lines, no_progress,
    opens_block, opens_some_block, progress, Progress,
};
use crate::sources::sources_text;
use crate::state::{content_json, delta_json, reported_usage, StateView, StreamOptions};
use crate::stream::{initial_stream, interruption_notice, EventView, StreamView};
use crate::text::{is_white_space, trim_start, trimmed};
use crate::usage::UsageMetadata;
use vstd::prelude::*;
use vstd::utf8::{
    decode_utf8, decode_utf8_split, encode_utf8, encode_utf8_decode_utf8, encode_utf8_valid_utf8,
    is_ascii_chars_encode_utf8, is_char_boundary_iff_not_is_continuation_byte,
    is_continuation_byte, utf8_byte_ranges_bitwise, valid_utf8, valid_utf8_concat,
    valid_utf8_split,
};

verus! {

/// Whether an event leaves the stream open.
pub open spec fn goes_on(event: EventView) -> bool {
    event is Chunk || event is TimedOut
}

/// Whether every event leaves the stream open.
pub open spec fn all_go_on(events: Seq<(EventView, i64)>) -> bool {
    forall|i: int| 0 <= i < events.len() ==> goes_on((#[trigger] events[i]).0)
}

/// How many frames begin a message.
pub open spec fn starts(frames: Seq<FrameView>) -> nat
    decreases frames.len(),
{
    if frames.len() == 0 {
        0
    } else {
        starts(frames.drop_last()) + if frames.last() is MessageStart {
            1nat
        } else {
            0
        }
    }
}

/// How many frames stop a message.
pub open spec fn stops(frames: Seq<FrameView>) -> nat
    decreases frames.len(),
{
    if frames.len() == 0 {
        0
    } else {
        stops(frames.drop_last()) + if frames.last() is MessageStop {
            1nat
        } else {
            0
        }
    }
}

/// Of frames in order, those that begin a message are counted by the client's
/// progress, and those that stop it too.
proof fn lemma_counts(p: Progress, frames: Seq<FrameView>)
    requires
        p.admits_all(frames),
    ensures
        starts(frames) == if p.after_all(frames).started && !p.started {
            1nat
        } else {
            0
        },
        stops(frames) == if p.after_all(frames).stopped && !p.stopped {
            1nat
        } else {
            0
        },
        p.started ==> p.after_all(frames).started,
        p.stopped ==> p.after_all(frames).stopped,
    decreases frames.len(),
{
    if frames.len() > 0 {
        lemma_counts(p, frames.drop_last());
    }
}

/// What holds of a stream after every step.
pub open spec fn is_sound_stream(stream: StreamView) -> bool {
    is_sound(stream.state) && line_length(stream.buffer) == 0
}

proof fn lemma_incomplete(bytes: Seq<u8>)
    ensures
        line_length(incomplete_line(bytes)) == 0,
    decreases bytes.len(),
{
    let n = line_length(bytes);
    lemma_line_length_bound(bytes);
    if n > 0 {
        lemma_incomplete(bytes.skip(n as int));
    }
}

/// Each step of a stream keeps to the order of frames.
pub proof fn law_step_is_orderly(stream: StreamView, event: EventView, now_millis: i64)
    requires
        is_sound_stream(stream),
    ensures
        ({
            let step = stream.advance(event, now_millis);
            &&& is_sound_stream(step.stream)
            &&& progress(stream.state).admits_all(step.frames)
            &&& progress(stream.state).after_all(step.frames) == progress(step.stream.state)
        }),
{
    if !stream.closed {
        match event {
            EventView::Chunk(bytes) => {
                let all = stream.buffer + bytes;
                lemma_raw_lines(stream.state, complete_lines(all));
                lemma_incomplete(all);
            },
            EventView::Failed(reason) => {
                lemma_one(
                    progress(stream.state),
                    FrameView::Error { reason: "Stream error: "@ + reason },
                );
            },
            EventView::TimedOut => {
                lemma_one(progress(stream.state), FrameView::Ping);
            },
            EventView::Ended => {
                law_end_is_orderly(stream.state, stream.buffer, now_millis);
            },
        }
    }
}

/// Whatever happens upstream, the frames that a stream sends keep to the order
/// of a streamed message.
pub proof fn law_stream_is_orderly(options: StreamOptions, events: Seq<(EventView, i64)>)
    ensures
        ({
            let step = initial_stream(options).run(events);
            &&& is_sound_stream(step.stream)
            &&& no_progress().admits_all(step.frames)
            &&& no_progress().after_all(step.frames) == progress(step.stream.state)
        }),
    decreases events.len(),
{
    if events.len() > 0 {
        let before = initial_stream(options).run(events.drop_last());
        let (event, now_millis) = events.last();
        law_stream_is_orderly(options, events.drop_last());
        law_step_is_orderly(before.stream, event, now_millis);
        lemma_concat(
            no_progress(),
            before.frames,
            before.stream.advance(event, now_millis).frames,
        );
    }
}

proof fn lemma_stays_open(stream: StreamView, events: Seq<(EventView, i64)>)
    requires
        !stream.closed,
        all_go_on(events),
    ensures
        !stream.run(events).stream.closed,
    decreases events.len(),
{
    if events.len() > 0 {
        let rest = events.drop_last();
        assert forall|i: int| 0 <= i < rest.len() implies goes_on((#[trigger] rest[i]).0) by {
            assert(rest[i] == events[i]);
        }
        lemma_stays_open(stream, rest);
        assert(goes_on(events[events.len() - 1].0));
    }
}

proof fn lemma_content_has_block(options: StreamOptions, events: Seq<(EventView, i64)>)
    ensures
        ({
            let step = initial_stream(options).run(events);
            step.stream.state.has_content || step.stream.state.has_thinking ==> opens_some_block(
                step.frames,
            )
        }),
    decreases events.len(),
{
    if events.len() > 0 {
        let before = initial_stream(options).run(events.drop_last());
        let (event, now_millis) = events.last();
        let last = before.stream.advance(event, now_millis);
        let all = before.frames + last.frames;
        lemma_content_has_block(options, events.drop_last());
        law_stream_is_orderly(options, events.drop_last());
        if !before.stream.closed {
            match event {
                EventView::Chunk(bytes) => {
                    lemma_raw_lines(
                        before.stream.state,
                        complete_lines(before.stream.buffer + bytes),
                    );
                },
                EventView::Ended => {
                    law_end_is_orderly(before.stream.state, before.stream.buffer, now_millis);
                },
                _ => {},
            }
        }
        if opens_some_block(before.frames) {
            let i = choose|i: int|
                0 <= i < before.frames.len() && opens_block(#[trigger] before.frames[i]);
            assert(all[i] == before.frames[i]);
        } else if opens_some_block(last.frames) {
            let i = choose|i: int|
                0 <= i < last.frames.len() && opens_block(#[trigger] last.frames[i]);
            assert(all[before.frames.len() + i] == last.frames[i]);
        }
    }
}

/// A stream whose upstream ended without a failure has sent one beginning of a
/// message, one end of it, and at least one content block; then it is over.
pub proof fn law_ended_stream_is_complete(
    options: StreamOptions,
    events: Seq<(EventView, i64)>,
    now_millis: i64,
)
    requires
        all_go_on(events),
    ensures
        ({
            let step = initial_stream(options).run(events.push((EventView::Ended, now_millis)));
            &&& starts(step.frames) == 1
            &&& stops(step.frames) == 1
            &&& opens_some_block(step.frames)
            &&& step.stream.closed
        }),
{
    let all = events.push((EventView::Ended, now_millis));
    let before = initial_stream(options).run(events);
    let step = initial_stream(options).run(all);
    assert(all.drop_last() =~= events);
    lemma_stays_open(initial_stream(options), events);
    law_stream_is_orderly(options, events);
    law_end_is_orderly(before.stream.state, before.stream.buffer, now_millis);
    law_stream_is_orderly(options, all);
    lemma_counts(no_progress(), step.frames);
    lemma_content_has_block(options, all);
}

/// Whatever happens upstream, a message begins at most once and stops at most
/// once.
pub proof fn law_at_most_one_start_and_stop(options: StreamOptions, events: Seq<(EventView, i64)>)
    ensures
        starts(initial_stream(options).run(events).frames) <= 1,
        stops(initial_stream(options).run(events).frames) <= 1,
{
    law_stream_is_orderly(options, events);
    lemma_counts(no_progress(), initial_stream(options).run(events).frames);
}

/// A stream that is over sends nothing more.
pub proof fn law_closed_stream_is_silent(stream: StreamView, events: Seq<(EventView, i64)>)
    requires
        stream.closed,
    ensures
        stream.run(events) == stream.stay(),
    decreases events.len(),
{
    if events.len() > 0 {
        law_closed_stream_is_silent(stream, events.drop_last());
        assert(stream.run(events).frames =~= Seq::empty());
    }
}

proof fn lemma_run_concat(
    stream: StreamView,
    a: Seq<(EventView, i64)>,
    b: Seq<(EventView, i64)>,
)
    ensures
        stream.run(a + b).stream == stream.run(a).stream.run(b).stream,
        stream.run(a + b).frames == stream.run(a).frames + stream.run(a).stream.run(b).frames,
    decreases b.len(),
{
    if b.len() == 0 {
        assert(a + b =~= a);
        assert(stream.run(a).frames + Seq::<FrameView>::empty() =~= stream.run(a).frames);
    } else {
        assert((a + b).drop_last() =~= a + b.drop_last());
        lemma_run_concat(stream, a, b.drop_last());
        assert(stream.run(a + b).frames =~= stream.run(a).frames + stream.run(a).stream.run(
            b,
        ).frames);
    }
}

/// A failure upstream is answered by an error and by nothing else: whatever
/// follows it, no end of the message is sent any more.
pub proof fn law_failure_is_the_last_frame(
    stream: StreamView,
    reason: Seq<char>,
    now_millis: i64,
    events: Seq<(EventView, i64)>,
)
    requires
        !stream.closed,
    ensures
        stream.run(seq![(EventView::Failed(reason), now_millis)] + events).frames == seq![
            FrameView::Error { reason: "Stream error: "@ + reason },
        ],
{
    let failed = seq![(EventView::Failed(reason), now_millis)];
    assert(failed.drop_last() =~= Seq::empty());
    assert(stream.run(failed.drop_last()) == stream.stay());
    assert(stream.run(failed).frames =~= stream.fail(reason).frames);
    lemma_run_concat(stream, failed, events);
    law_closed_stream_is_silent(stream.run(failed).stream, events);
}

proof fn lemma_raw_lines_concat(state: StateView, a: Seq<Seq<u8>>, b: Seq<Seq<u8>>)
    ensures
        state.raw_lines(a + b).state == state.raw_lines(a).state.raw_lines(b).state,
        state.raw_lines(a + b).frames == state.raw_lines(a).frames + state.raw_lines(
            a,
        ).state.raw_lines(b).frames,
    decreases b.len(),
{
    if b.len() == 0 {
        assert(a + b =~= a);
        assert(state.raw_lines(a).frames + Seq::<FrameView>::empty() =~= state.raw_lines(a).frames);
    } else {
        assert((a + b).drop_last() =~= a + b.drop_last());
        lemma_raw_lines_concat(state, a, b.drop_last());
        assert(state.raw_lines(a + b).frames =~= state.raw_lines(a).frames + state.raw_lines(
            a,
        ).state.raw_lines(b).frames);
    }
}

/// Whether every event brings bytes.
pub open spec fn all_chunks(events: Seq<(EventView, i64)>) -> bool {
    forall|i: int| 0 <= i < events.len() ==> (#[trigger] events[i]).0 is Chunk
}

/// The bytes that the events bring, one after another.
pub open spec fn bytes_of(events: Seq<(EventView, i64)>) -> Seq<u8>
    decreases events.len(),
{
    if events.len() == 0 {
        Seq::empty()
    } else {
        match events.last().0 {
            EventView::Chunk(bytes) => bytes_of(events.drop_last()) + bytes,
            _ => bytes_of(events.drop_last()),
        }
    }
}

/// Bytes that come in pieces have the effect of the same bytes in one piece.
pub proof fn law_pieces_act_as_one(stream: StreamView, events: Seq<(EventView, i64)>)
    requires
        is_sound_stream(stream),
        !stream.closed,
        all_chunks(events),
    ensures
        stream.run(events) == stream.receive(bytes_of(events)),
    decreases events.len(),
{
    if events.len() == 0 {
        assert(stream.buffer + Seq::<u8>::empty() =~= stream.buffer);
        assert(stream.receive(bytes_of(events)) == stream.stay());
    } else {
        let rest = events.drop_last();
        assert forall|i: int| 0 <= i < rest.len() implies (#[trigger] rest[i]).0 is Chunk by {
            assert(rest[i] == events[i]);
        }
        law_pieces_act_as_one(stream, rest);
        assert(events[events.len() - 1].0 is Chunk);
        let bytes = events.last().0->Chunk_0;
        let before = stream.buffer + bytes_of(rest);
        lemma_lines_of_pieces(before, bytes);
        lemma_raw_lines_concat(
            stream.state,
            complete_lines(before),
            complete_lines(incomplete_line(before) + bytes),
        );
        assert(stream.buffer + bytes_of(events) =~= before + bytes);
    }
}

/// Where the bytes are cut does not matter: the same bytes in other pieces give
/// the same frames and leave the same stream.
pub proof fn law_cuts_do_not_matter(
    stream: StreamView,
    a: Seq<(EventView, i64)>,
    b: Seq<(EventView, i64)>,
)
    requires
        is_sound_stream(stream),
        !stream.closed,
        all_chunks(a),
        all_chunks(b),
        bytes_of(a) == bytes_of(b),
    ensures
        stream.run(a) == stream.run(b),
{
    law_pieces_act_as_one(stream, a);
    law_pieces_act_as_one(stream, b);
}

/// The events other than time-outs.
pub open spec fn without_timeouts(events: Seq<(EventView, i64)>) -> Seq<(EventView, i64)> {
    events.filter(|event: (EventView, i64)| !(event.0 is TimedOut))
}

/// The frames other than pings.
pub open spec fn without_pings(frames: Seq<FrameView>) -> Seq<FrameView> {
    frames.filter(|frame: FrameView| !(frame is Ping))
}

proof fn lemma_no_pings(frames: Seq<FrameView>)
    requires
        forall|i: int| 0 <= i < frames.len() ==> !((#[trigger] frames[i]) is Ping),
    ensures
        without_pings(frames) == frames,
    decreases frames.len(),
{
    reveal(Seq::filter);
    if frames.len() > 0 {
        let rest = frames.drop_last();
        assert forall|i: int| 0 <= i < rest.len() implies !((#[trigger] rest[i]) is Ping) by {
            assert(rest[i] == frames[i]);
        }
        lemma_no_pings(rest);
        assert(!(frames[frames.len() - 1] is Ping));
        assert(rest.push(frames.last()) =~= frames);
    }
}

/// Time-outs send pings and change nothing else.
pub proof fn law_timeouts_only_ping(options: StreamOptions, events: Seq<(EventView, i64)>)
    ensures
        ({
            let stream = initial_stream(options);
            let quiet = stream.run(without_timeouts(events));
            &&& quiet.stream == stream.run(events).stream
            &&& quiet.frames == without_pings(stream.run(events).frames)
        }),
    decreases events.len(),
{
    reveal(Seq::filter);
    let stream = initial_stream(options);
    if events.len() > 0 {
        let rest = events.drop_last();
        let (event, now_millis) = events.last();
        let before = stream.run(rest);
        let last = before.stream.advance(event, now_millis);
        let pred = |frame: FrameView| !(frame is Ping);
        law_timeouts_only_ping(options, rest);
        law_stream_is_orderly(options, rest);
        Seq::filter_distributes_over_add(before.frames, last.frames, pred);
        if event is TimedOut {
            if before.stream.closed {
                assert(last.frames =~= Seq::empty());
            } else {
                assert(last.frames.drop_last() =~= Seq::empty());
                assert(without_pings(last.frames.drop_last()) =~= Seq::empty());
            }
            assert(without_pings(last.frames) =~= Seq::empty());
            assert(without_pings(before.frames) + Seq::<FrameView>::empty() =~= without_pings(
                before.frames,
            ));
        } else {
            if !before.stream.closed {
                match event {
                    EventView::Chunk(bytes) => lemma_raw_lines(
                        before.stream.state,
                        complete_lines(before.stream.buffer + bytes),
                    ),
                    EventView::Ended => law_end_is_orderly(
                        before.stream.state,
                        before.stream.buffer,
                        now_millis,
                    ),
                    _ => {},
                }
            }
            lemma_no_pings(last.frames);
            assert(without_timeouts(events).drop_last() =~= without_timeouts(rest));
        }
    }
}

proof fn lemma_no_stops(frames: Seq<FrameView>)
    requires
        forall|i: int| 0 <= i < frames.len() ==> !((#[trigger] frames[i]) is MessageStop),
    ensures
        stops(frames) == 0,
    decreases frames.len(),
{
    if frames.len() > 0 {
        let rest = frames.drop_last();
        assert forall|i: int| 0 <= i < rest.len() implies !(
        (#[trigger] rest[i]) is MessageStop) by {
            assert(rest[i] == frames[i]);
        }
        lemma_no_stops(rest);
        assert(!(frames[frames.len() - 1] is MessageStop));
    }
}

/// Forcing a message to stop sends its end, unless it was sent; a second time it
/// sends nothing.
pub proof fn law_force_stop_once(state: StateView)
    ensures
        state.force_stop().state.message_stop_sent,
        state.message_stop_sent ==> state.force_stop() == state.stay(),
        !state.message_stop_sent ==> stops(state.force_stop().frames) == 1
            && state.force_stop().frames.last() is MessageStop,
        state.force_stop().state.force_stop() == state.force_stop().state.stay(),
{
    if !state.message_stop_sent {
        let frames = state.force_stop().frames;
        let before = frames.drop_last();
        if state.message_start_sent {
            assert forall|i: int| 0 <= i < before.len() implies !(
            (#[trigger] before[i]) is MessageStop) by {
                let shown = state.sources();
                let closed = shown.state.close(None, None);
                assert(frames == shown.frames + closed.frames);
                if i >= shown.frames.len() {
                    assert(before[i] == closed.frames[i - shown.frames.len()]);
                } else {
                    assert(before[i] == shown.frames[i]);
                }
            }
        }
        lemma_no_stops(before);
    }
}

proof fn lemma_trim_start_push(s: Seq<char>, c: char)
    requires
        is_white_space(c),
    ensures
        trim_start(s.push(c)) == if trim_start(s).len() == 0 {
            Seq::empty()
        } else {
            trim_start(s).push(c)
        },
    decreases s.len(),
{
    if s.len() == 0 {
        assert(s.push(c).skip(1) =~= Seq::empty());
        assert(trim_start(Seq::<char>::empty()) =~= Seq::empty());
    } else if is_white_space(s[0]) {
        assert(s.push(c).skip(1) =~= s.skip(1).push(c));
        lemma_trim_start_push(s.skip(1), c);
    }
}

proof fn lemma_trimmed_push(s: Seq<char>, c: char)
    requires
        is_white_space(c),
    ensures
        trimmed(s.push(c)) == trimmed(s),
{
    lemma_trim_start_push(s, c);
    let t = trim_start(s);
    if t.len() > 0 {
        assert(t.push(c).drop_last() =~= t);
    } else {
        assert(t =~= Seq::empty());
    }
}

/// A line feed at the end of a line does not change what the line means.
proof fn lemma_line_feed(bytes: Seq<u8>)
    ensures
        valid_utf8(bytes.push(LINE_FEED)) <==> valid_utf8(bytes),
        valid_utf8(bytes) ==> trimmed(decode_utf8(bytes.push(LINE_FEED))) == trimmed(
            decode_utf8(bytes),
        ),
{
    let feed = seq![LINE_FEED];
    let all = bytes.push(LINE_FEED);
    let n = bytes.len() as int;
    assert(all =~= bytes + feed);
    assert(all.subrange(0, n) =~= bytes);
    assert(all.subrange(n, all.len() as int) =~= feed);
    encode_utf8_decode_utf8(seq!['\n']);
    encode_utf8_valid_utf8(seq!['\n']);
    assert(encode_utf8(seq!['\n']) =~= feed) by {
        is_ascii_chars_encode_utf8(seq!['\n']);
    }
    if valid_utf8(bytes) {
        valid_utf8_concat(bytes, feed);
    }
    if valid_utf8(all) {
        assert(!is_continuation_byte(all[n])) by {
            assert(all[n] == 10u8);
            utf8_byte_ranges_bitwise(10u8);
        }
        is_char_boundary_iff_not_is_continuation_byte(all, n);
        valid_utf8_split(all, n);
        decode_utf8_split(all, n);
        assert(decode_utf8(all) =~= decode_utf8(bytes).push('\n'));
        lemma_trimmed_push(decode_utf8(bytes), '\n');
    }
}

proof fn lemma_last_byte_ends_line(bytes: Seq<u8>)
    requires
        line_length(bytes) == 0,
    ensures
        line_length(bytes.push(LINE_FEED)) == bytes.len() + 1,
    decreases bytes.len(),
{
    let all = bytes.push(LINE_FEED);
    if bytes.len() > 0 {
        assert(all[0] == bytes[0]);
        assert(all.skip(1) =~= bytes.skip(1).push(LINE_FEED));
        lemma_last_byte_ends_line(bytes.skip(1));
    }
}

proof fn lemma_empty_line(state: StateView)
    ensures
        state.raw_line(Seq::empty()) == state.stay(),
{
    let empty = Seq::<u8>::empty();
    assert(decode_utf8(empty) =~= Seq::empty());
    assert(trimmed(Seq::empty()) =~= Seq::empty());
    reveal(StateView::line);
    reveal_strlit("data: ");
}

/// The last line needs no line feed: a stream that ends without one sends what
/// it would have sent with one.
pub proof fn law_last_line_is_flushed(stream: StreamView, now_millis: i64)
    requires
        is_sound_stream(stream),
    ensures
        ({
            let fed = stream.receive(seq![LINE_FEED]);
            let ended = fed.stream.end(now_millis);
            &&& ended.stream == stream.end(now_millis).stream
            &&& fed.frames + ended.frames == stream.end(now_millis).frames
        }),
{
    let all = stream.buffer.push(LINE_FEED);
    let empty = Seq::<u8>::empty();
    let fed = stream.receive(seq![LINE_FEED]);
    let ended = fed.stream.end(now_millis);
    assert(stream.buffer + seq![LINE_FEED] =~= all);
    lemma_last_byte_ends_line(stream.buffer);
    assert(all.take(all.len() as int) =~= all);
    assert(all.skip(all.len() as int) =~= empty);
    assert(complete_lines(empty) =~= Seq::empty());
    assert(complete_lines(all) =~= seq![all]);
    assert(seq![all].drop_last() =~= Seq::empty());
    assert(stream.state.raw_lines(Seq::empty()) == stream.state.stay());
    lemma_line_feed(stream.buffer);
    assert(incomplete_line(all) == incomplete_line(empty));
    assert(fed.stream.buffer == empty);
    let flushed = stream.state.raw_line(stream.buffer);
    assert(fed.stream.state == flushed.state);
    assert(fed.frames =~= flushed.frames);
    lemma_empty_line(flushed.state);
    let recovered = flushed.state.recover(now_millis);
    let stopped = recovered.state.force_stop();
    assert(ended.frames =~= recovered.frames + stopped.frames);
    assert(stream.end(now_millis).frames =~= flushed.frames + recovered.frames + stopped.frames);
}

/// The output tokens that a message reports, where a frame reports them.
pub open spec fn reported_output(frame: FrameView) -> Option<u64> {
    match frame {
        FrameView::MessageDelta { usage, .. } => match usage.get("output_tokens"@) {
            Some(count) => count.unsigned(),
            None => None,
        },
        _ => None,
    }
}

/// Content that never came is made up for, once: a text block comes, and the
/// message reports that it has output tokens. Where the model had been thinking,
/// the text tells that it was interrupted.
pub proof fn law_missing_content_is_made_up(state: StateView, now_millis: i64)
    requires
        !state.has_content,
    ensures
        ({
            let step = state.recover(now_millis);
            let text = if state.has_thinking {
                interruption_notice()
            } else {
                "."@
            };
            &&& step.state.has_content
            &&& reported_output(step.frames.last()) matches Some(n) && n > 0
            &&& exists|i: int|
                0 <= i < step.frames.len() && (#[trigger] step.frames[i] matches
                    FrameView::BlockStart { block, .. } && block == content_json("text"@, text))
            &&& step.state.recover(now_millis) == step.state.stay()
        }),
{
    reveal(StateView::recover);
    reveal_strlit("input_tokens");
    reveal_strlit("output_tokens");
    let step = state.recover(now_millis);
    let n = step.frames.len();
    assert(step.frames[n - 3] is BlockStart);
}

/// A message that had not stopped when its upstream ended is stopped by the last
/// frame.
pub proof fn law_end_stops_the_message(stream: StreamView, now_millis: i64)
    requires
        !stream.state.raw_line(stream.buffer).state.message_stop_sent,
    ensures
        stream.end(now_millis).frames.len() > 0,
        stream.end(now_millis).frames.last() is MessageStop,
{
    let flushed = stream.state.raw_line(stream.buffer);
    let recovered = flushed.state.recover(now_millis);
    assert(!recovered.state.message_stop_sent) by {
        reveal(StateView::recover);
    }
    law_force_stop_once(recovered.state);
    let stopped = recovered.state.force_stop();
    assert(stopped.frames.len() > 0);
    assert(stream.end(now_millis).frames.last() == stopped.frames.last());
}

/// The time matters only to a message that has to be made up altogether.
pub proof fn law_time_only_names_blank_messages(stream: StreamView, a: i64, b: i64)
    requires
        !stream.state.raw_line(stream.buffer).state.is_blank(),
    ensures
        stream.end(a) == stream.end(b),
{
    reveal(StateView::recover);
}

/// Sources that a web search found are shown when a message that has begun first
/// ends: as Markdown, in a text block of their own, before the message reports
/// why it stopped.
pub proof fn law_sources_are_shown(
    state: StateView,
    reason: Option<Seq<char>>,
    usage: Option<UsageMetadata>,
)
    requires
        state.message_start_sent,
        !state.message_stop_sent,
        sources_text(state.web_search_query, state.grounding_chunks).len() > 0,
    ensures
        ({
            let text = sources_text(state.web_search_query, state.grounding_chunks);
            let frames = state.finish(reason, usage).frames;
            let n = frames.len() as int;
            let index = state.end_block().state.block_index;
            &&& n >= 5
            &&& frames[n - 5] == FrameView::BlockStart { index, block: content_json("text"@, ""@) }
            &&& frames[n - 4] == FrameView::BlockDelta {
                index,
                delta: delta_json("text_delta"@, "text"@, text),
            }
            &&& frames[n - 3] == FrameView::BlockStop { index }
            &&& frames[n - 2] is MessageDelta
            &&& frames[n - 1] is MessageStop
        }),
{
}

proof fn lemma_parts_log(state: StateView, parts: Seq<JsonView>)
    ensures
        state.parts(parts).state.log == state.log,
    decreases parts.len(),
{
    if parts.len() > 0 {
        lemma_parts_log(state, parts.drop_last());
    }
}

/// A response is logged where it says that it is complete and reports its token
/// counts, and nothing else of it is.
pub proof fn law_completion_is_logged(state: StateView, raw: JsonView)
    ensures
        state.response(raw).state.log == match (finish_reason(raw), reported_usage(raw)) {
            (Some(_), Some(metadata)) => state.log.push(
                LogView::Completed(completion_of(metadata)),
            ),
            _ => state.log,
        },
{
    lemma_parts_log(state.begin(raw).state.ground(raw), parts_of(raw));
}

} // verus!
