//! How a client reads the frames.

use crate::frame::{are_frames, chunk_bytes, is_frame, FrameView};
use crate::json::{is_plain, json_document, json_text, JsonView};
use crate::text::has_prefix;
use bytes::Bytes;
use vstd::prelude::*;
use vstd::utf8::{decode_utf8, encode_utf8_decode_utf8};

verus! {

/// The characters before the first line feed.
pub open spec fn first_line(text: Seq<char>) -> Seq<char>
    decreases text.len(),
{
    if text.len() == 0 || text[0] == '\n' {
        Seq::empty()
    } else {
        seq![text[0]] + first_line(text.skip(1))
    }
}

/// The name and the data of an event, from a frame of two lines and an empty one.
pub open spec fn event_of(text: Seq<char>) -> Option<(Seq<char>, Seq<char>)> {
    let event = first_line(text);
    let data = first_line(text.skip(event.len() as int + 1));
    if has_prefix(event, "event: "@) && has_prefix(data, "data: "@) && text == event + seq!['\n']
        + data + seq!['\n', '\n'] {
        Some((event.skip(7), data.skip(6)))
    } else {
        None
    }
}

/// The length of the first frame with the empty line that ends it, or 0 where no
/// frame is complete.
pub open spec fn frame_length(text: Seq<char>) -> nat
    decreases text.len(),
{
    if text.len() < 2 {
        0
    } else if text[0] == '\n' && text[1] == '\n' {
        2
    } else {
        let n = frame_length(text.skip(1));
        if n == 0 {
            0
        } else {
            n + 1
        }
    }
}

/// The complete frames of a text.
pub open spec fn frames_in(text: Seq<char>) -> Seq<Seq<char>>
    decreases text.len(),
{
    let n = frame_length(text);
    if 0 < n <= text.len() {
        seq![text.take(n as int)] + frames_in(text.skip(n as int))
    } else {
        Seq::empty()
    }
}

/// The data of an event as it is sent.
pub open spec fn data_text(frame: FrameView) -> Seq<char> {
    match frame {
        FrameView::MessageStop => "{\"type\":\"message_stop\"}"@,
        _ => json_text(frame.data()),
    }
}

/// The characters that a chunk holds.
pub open spec fn chunk_text(chunk: Bytes) -> Seq<char> {
    decode_utf8(chunk_bytes(chunk))
}

/// The characters that chunks hold, one after another.
pub open spec fn joined(chunks: Seq<Bytes>) -> Seq<char>
    decreases chunks.len(),
{
    if chunks.len() == 0 {
        Seq::empty()
    } else {
        chunk_text(chunks[0]) + joined(chunks.skip(1))
    }
}

/// The texts of frames.
pub open spec fn texts(frames: Seq<FrameView>) -> Seq<Seq<char>> {
    Seq::new(frames.len(), |i: int| frames[i].text())
}

proof fn lemma_first_line(line: Seq<char>, rest: Seq<char>)
    requires
        !line.contains('\n'),
    ensures
        first_line(line + seq!['\n'] + rest) == line,
    decreases line.len(),
{
    let text = line + seq!['\n'] + rest;
    if line.len() == 0 {
        assert(text[0] == '\n');
        assert(first_line(text) =~= line);
    } else {
        assert(line[0] != '\n');
        assert(text[0] == line[0]);
        let tail = line.skip(1);
        assert forall|i: int| 0 <= i < tail.len() implies tail[i] != '\n' by {
            assert(tail[i] == line[i + 1]);
        }
        assert(!tail.contains('\n'));
        lemma_first_line(tail, rest);
        assert(text.skip(1) =~= tail + seq!['\n'] + rest);
        assert(seq![line[0]] + tail =~= line);
    }
}

/// The names of events have no line breaks.
proof fn lemma_names(frame: FrameView)
    ensures
        !frame.name().contains('\n'),
{
    reveal_strlit("message_start");
    reveal_strlit("content_block_start");
    reveal_strlit("content_block_delta");
    reveal_strlit("content_block_stop");
    reveal_strlit("message_delta");
    reveal_strlit("message_stop");
    reveal_strlit("error");
    reveal_strlit("");
}

/// A frame that is no ping is an event with a name and data of one line each.
proof fn lemma_frame_text(chunk: Bytes, frame: FrameView)
    requires
        is_frame(chunk, frame),
        !(frame is Ping),
    ensures
        frame.text() == "event: "@ + frame.name() + seq!['\n'] + ("data: "@ + data_text(frame))
            + seq!['\n', '\n'],
        !frame.name().contains('\n'),
        !data_text(frame).contains('\n'),
        "event: "@.len() == 7,
        "data: "@.len() == 6,
        !"event: "@.contains('\n'),
        !"data: "@.contains('\n'),
{
    reveal_strlit("event: ");
    reveal_strlit("\ndata: ");
    reveal_strlit("data: ");
    reveal_strlit("\n\n");
    lemma_names(frame);
    let right = "event: "@ + frame.name() + seq!['\n'] + ("data: "@ + data_text(frame)) + seq![
        '\n',
        '\n',
    ];
    if frame is MessageStop {
        reveal_strlit("{\"type\":\"message_stop\"}");
        reveal_strlit("message_stop");
        reveal_strlit("event: message_stop\ndata: {\"type\":\"message_stop\"}\n\n");
        assert(frame.text() =~= right);
    } else {
        assert("\ndata: "@ =~= seq!['\n'] + "data: "@);
        assert(frame.text() =~= right);
    }
}

/// A client that reads the chunk of an event finds the name and the data that
/// the event has.
pub proof fn law_client_reads_event(chunk: Bytes, frame: FrameView)
    requires
        is_frame(chunk, frame),
        !(frame is Ping),
    ensures
        event_of(chunk_text(chunk)) == Some((frame.name(), data_text(frame))),
{
    let event = "event: "@ + frame.name();
    let data = "data: "@ + data_text(frame);
    let text = frame.text();
    encode_utf8_decode_utf8(text);
    lemma_frame_text(chunk, frame);
    assert(!event.contains('\n')) by {
        if event.contains('\n') {
            let i = choose|i: int| 0 <= i < event.len() && event[i] == '\n';
            if i < 7 {
                assert("event: "@[i] == '\n');
            } else {
                assert(frame.name()[i - 7] == '\n');
            }
        }
    }
    assert(!data.contains('\n')) by {
        if data.contains('\n') {
            let i = choose|i: int| 0 <= i < data.len() && data[i] == '\n';
            if i < 6 {
                assert("data: "@[i] == '\n');
            } else {
                assert(data_text(frame)[i - 6] == '\n');
            }
        }
    }
    assert(text =~= event + seq!['\n'] + (data + seq!['\n', '\n']));
    lemma_first_line(event, data + seq!['\n', '\n']);
    assert(text.skip(event.len() as int + 1) =~= data + seq!['\n'] + seq!['\n']);
    lemma_first_line(data, seq!['\n']);
    assert(event.take(7) =~= "event: "@);
    assert(data.take(6) =~= "data: "@);
    assert(event.skip(7) =~= frame.name());
    assert(data.skip(6) =~= data_text(frame));
}

/// Whether a text is one frame: it ends with an empty line and holds no other.
spec fn is_one_frame(text: Seq<char>) -> bool {
    &&& text.len() >= 2
    &&& text[text.len() - 2] == '\n'
    &&& text[text.len() - 1] == '\n'
    &&& forall|i: int|
        0 <= i < text.len() - 2 ==> !((#[trigger] text[i]) == '\n' && text[i + 1] == '\n')
}

proof fn lemma_frame_length(text: Seq<char>, rest: Seq<char>)
    requires
        is_one_frame(text),
    ensures
        frame_length(text + rest) == text.len(),
    decreases text.len(),
{
    let all = text + rest;
    assert(all[0] == text[0] && all[1] == text[1]);
    if text.len() > 2 {
        let tail = text.skip(1);
        assert forall|i: int| 0 <= i < tail.len() - 2 implies !((#[trigger] tail[i]) == '\n'
            && tail[i + 1] == '\n') by {
            assert(tail[i] == text[i + 1]);
        }
        lemma_frame_length(tail, rest);
        assert(all.skip(1) =~= tail + rest);
    }
}

proof fn lemma_is_one_frame(chunk: Bytes, frame: FrameView)
    requires
        is_frame(chunk, frame),
    ensures
        is_one_frame(frame.text()),
{
    let text = frame.text();
    if frame is Ping {
        reveal_strlit(": ping\n\n");
    } else {
        let name = frame.name();
        let data = data_text(frame);
        lemma_frame_text(chunk, frame);
        reveal_strlit("event: ");
        reveal_strlit("data: ");
        assert forall|i: int| 0 <= i < text.len() - 2 implies !((#[trigger] text[i]) == '\n'
            && text[i + 1] == '\n') by {
            let middle = 7 + name.len() as int;
            if i < middle {
                if i < 7 {
                    assert(text[i] == "event: "@[i]);
                } else {
                    assert(text[i] == name[i - 7]);
                }
            } else if i == middle {
                assert(text[i + 1] == "data: "@[0]);
            } else if i < middle + 7 {
                assert(text[i] == "data: "@[i - middle - 1]);
            } else {
                assert(text[i] == data[i - middle - 7]);
            }
        }
    }
}

/// A client that reads the chunks one after another finds the frames that were
/// sent, whole and in order.
pub proof fn law_client_splits_frames(chunks: Seq<Bytes>, frames: Seq<FrameView>)
    requires
        are_frames(chunks, frames),
    ensures
        frames_in(joined(chunks)) == texts(frames),
    decreases chunks.len(),
{
    if chunks.len() == 0 {
        assert(frames_in(joined(chunks)) =~= texts(frames));
    } else {
        let first = frames[0].text();
        let more = frames.skip(1);
        let rest = joined(chunks.skip(1));
        assert(is_frame(chunks[0], frames[0]));
        assert forall|i: int| 0 <= i < chunks.skip(1).len() implies is_frame(
            #[trigger] chunks.skip(1)[i],
            more[i],
        ) by {
            assert(is_frame(chunks[i + 1], frames[i + 1]));
        }
        law_client_splits_frames(chunks.skip(1), more);
        encode_utf8_decode_utf8(first);
        lemma_is_one_frame(chunks[0], frames[0]);
        lemma_frame_length(first, rest);
        assert((first + rest).take(first.len() as int) =~= first);
        assert((first + rest).skip(first.len() as int) =~= rest);
        assert(seq![first] + texts(more) =~= texts(frames));
    }
}

/// A client that reads the chunk of an error finds an event of that name whose
/// data is an error envelope with the reason as its message.
pub proof fn law_client_sees_error(chunk: Bytes, reason: Seq<char>)
    requires
        is_frame(chunk, FrameView::Error { reason }),
    ensures
        ({
            let data = data_text(FrameView::Error { reason });
            &&& event_of(chunk_text(chunk)) == Some(("error"@, data))
            &&& json_document(data) matches Some(envelope) && {
                &&& envelope.get("type"@) == Some(JsonView::Text("error"@))
                &&& envelope.get("error"@) matches Some(error) && {
                    &&& error.get("type"@) == Some(JsonView::Text("api_error"@))
                    &&& error.get("message"@) == Some(JsonView::Text(reason))
                }
            }
        }),
{
    let frame = FrameView::Error { reason };
    law_client_reads_event(chunk, frame);
    reveal_strlit("type");
    reveal_strlit("error");
    reveal_strlit("message");
    assert("type"@.len() == 4 && "error"@.len() == 5 && "message"@.len() == 7);
    assert(is_plain(frame.data(), 100)) by {
        reveal_with_fuel(is_plain, 4);
        let envelope = frame.data()->Object_0;
        let error = envelope["error"@]->Object_0;
        assert forall|name: Seq<char>| #[trigger] error.contains_key(name) implies is_plain(
            error[name],
            98,
        ) by {}
        assert forall|name: Seq<char>| #[trigger] envelope.contains_key(name) implies is_plain(
            envelope[name],
            99,
        ) by {}
    }
}

} // verus!
