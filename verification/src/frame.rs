//! The frames of a Messages event stream and the chunks of bytes that carry them.

use crate::json::{
    empty_object, is_plain, json_document, json_text, render, unsigned, Json, JsonView,
};
use bytes::Bytes;
use vstd::prelude::*;
use vstd::utf8::encode_utf8;

verus! {

/// A frame of a Messages event stream.
pub enum FrameView {
    MessageStart { message: JsonView },
    BlockStart { index: usize, block: JsonView },
    BlockDelta { index: usize, delta: JsonView },
    BlockStop { index: usize },
    MessageDelta { stop_reason: Seq<char>, usage: JsonView },
    MessageStop,
    Error { reason: Seq<char> },
    Ping,
}

/// A JSON string.
pub open spec fn json_str(s: Seq<char>) -> JsonView {
    JsonView::Text(s)
}

/// The text of an event with its name and its data.
pub open spec fn event_text(name: Seq<char>, data: Seq<char>) -> Seq<char> {
    "event: "@ + name + "\ndata: "@ + data + "\n\n"@
}

impl FrameView {
    /// The name of the event; a ping is a comment and has none.
    pub open spec fn name(self) -> Seq<char> {
        match self {
            FrameView::MessageStart { .. } => "message_start"@,
            FrameView::BlockStart { .. } => "content_block_start"@,
            FrameView::BlockDelta { .. } => "content_block_delta"@,
            FrameView::BlockStop { .. } => "content_block_stop"@,
            FrameView::MessageDelta { .. } => "message_delta"@,
            FrameView::MessageStop => "message_stop"@,
            FrameView::Error { .. } => "error"@,
            FrameView::Ping => ""@,
        }
    }

    /// The data of the event.
    pub open spec fn data(self) -> JsonView {
        let typed = empty_object().with("type"@, json_str(self.name()));
        match self {
            FrameView::MessageStart { message } => typed.with("message"@, message),
            FrameView::BlockStart { index, block } => typed.with(
                "index"@,
                unsigned(index as u64),
            ).with("content_block"@, block),
            FrameView::BlockDelta { index, delta } => typed.with(
                "index"@,
                unsigned(index as u64),
            ).with("delta"@, delta),
            FrameView::BlockStop { index } => typed.with("index"@, unsigned(index as u64)),
            FrameView::MessageDelta { stop_reason, usage } => typed.with(
                "delta"@,
                empty_object().with("stop_reason"@, json_str(stop_reason)).with(
                    "stop_sequence"@,
                    JsonView::Null,
                ),
            ).with("usage"@, usage),
            FrameView::Error { reason } => typed.with(
                "error"@,
                empty_object().with("type"@, json_str("api_error"@)).with(
                    "message"@,
                    json_str(reason),
                ),
            ),
            FrameView::MessageStop | FrameView::Ping => typed,
        }
    }

    /// The frame as it is sent.
    pub open spec fn text(self) -> Seq<char> {
        match self {
            FrameView::MessageStop =>
                "event: message_stop\ndata: {\"type\":\"message_stop\"}\n\n"@,
            FrameView::Ping => ": ping\n\n"@,
            _ => event_text(self.name(), json_text(self.data())),
        }
    }
}

#[verifier::external_type_specification]
#[verifier::external_body]
pub struct ExBytes(Bytes);

/// The bytes that a `bytes::Bytes` holds.
pub uninterp spec fn chunk_bytes(chunk: Bytes) -> Seq<u8>;

/// Calls `From<String>` of `bytes::Bytes`: the UTF-8 encoding of the text.
#[verifier::external_body]
fn chunk_of(text: String) -> (r: Bytes)
    ensures
        chunk_bytes(r) == encode_utf8(text@),
{
    Bytes::from(text)
}

/// Whether the text of a JSON value is a single line, from which plain values
/// are read back.
pub open spec fn is_legible(json: JsonView) -> bool {
    &&& !json_text(json).contains('\n')
    &&& !json_text(json).contains('\r')
    &&& is_plain(json, 100) ==> json_document(json_text(json)) == Some(json)
}

/// Whether a chunk holds the text of a frame, in UTF-8, with legible data.
pub open spec fn is_frame(chunk: Bytes, frame: FrameView) -> bool {
    &&& chunk_bytes(chunk) == encode_utf8(frame.text())
    &&& frame is MessageStop || frame is Ping || is_legible(frame.data())
}

/// Whether the chunks hold the frames, one each, in order.
pub open spec fn are_frames(chunks: Seq<Bytes>, frames: Seq<FrameView>) -> bool {
    &&& chunks.len() == frames.len()
    &&& forall|i: int| 0 <= i < chunks.len() ==> is_frame(#[trigger] chunks[i], frames[i])
}

/// The chunk of an event.
pub(crate) fn event_chunk(name: &str, data: Json) -> (r: Bytes)
    ensures
        chunk_bytes(r) == encode_utf8(event_text(name@, json_text(data@))),
        is_legible(data@),
{
    let mut text: String = "event: ".to_owned();
    text.append(name);
    text.append("\ndata: ");
    text.append(render(data).as_str());
    text.append("\n\n");
    chunk_of(text)
}

/// The data that every event begins with.
fn typed(name: &str) -> (r: Json)
    ensures
        r@ == empty_object().with("type"@, json_str(name@)),
{
    Json::object().with("type", Json::text(name))
}

pub(crate) fn message_start_chunk(message: Json) -> (r: Bytes)
    ensures
        is_frame(r, FrameView::MessageStart { message: message@ }),
{
    event_chunk("message_start", typed("message_start").with("message", message))
}

pub(crate) fn block_start_chunk(index: usize, block: Json) -> (r: Bytes)
    ensures
        is_frame(r, FrameView::BlockStart { index, block: block@ }),
{
    event_chunk(
        "content_block_start",
        typed("content_block_start").with("index", Json::Unsigned(index as u64)).with(
            "content_block",
            block,
        ),
    )
}

pub(crate) fn block_delta_chunk(index: usize, delta: Json) -> (r: Bytes)
    ensures
        is_frame(r, FrameView::BlockDelta { index, delta: delta@ }),
{
    event_chunk(
        "content_block_delta",
        typed("content_block_delta").with("index", Json::Unsigned(index as u64)).with(
            "delta",
            delta,
        ),
    )
}

pub(crate) fn block_stop_chunk(index: usize) -> (r: Bytes)
    ensures
        is_frame(r, FrameView::BlockStop { index }),
{
    event_chunk(
        "content_block_stop",
        typed("content_block_stop").with("index", Json::Unsigned(index as u64)),
    )
}

pub(crate) fn message_delta_chunk(stop_reason: &str, usage: Json) -> (r: Bytes)
    ensures
        is_frame(r, FrameView::MessageDelta { stop_reason: stop_reason@, usage: usage@ }),
{
    let delta = Json::object().with("stop_reason", Json::text(stop_reason)).with(
        "stop_sequence",
        Json::Null,
    );
    event_chunk("message_delta", typed("message_delta").with("delta", delta).with("usage", usage))
}

pub(crate) fn message_stop_chunk() -> (r: Bytes)
    ensures
        is_frame(r, FrameView::MessageStop),
{
    chunk_of("event: message_stop\ndata: {\"type\":\"message_stop\"}\n\n".to_owned())
}

pub(crate) fn error_chunk(reason: &str) -> (r: Bytes)
    ensures
        is_frame(r, FrameView::Error { reason: reason@ }),
{
    let error = Json::object().with("type", Json::text("api_error")).with(
        "message",
        Json::text(reason),
    );
    event_chunk("error", typed("error").with("error", error))
}

pub(crate) fn ping_chunk() -> (r: Bytes)
    ensures
        is_frame(r, FrameView::Ping),
{
    chunk_of(": ping\n\n".to_owned())
}

} // verus!
