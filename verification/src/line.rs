//! The lines of a Gemini event stream.

use crate::frame::{are_frames, FrameView};
use crate::json::{item_views, json_document, parse, Json, JsonView};
use crate::log::{completion_of, Completion, LogEntry, LogView};
use crate::part::{part_of, GeminiPart};
use crate::state::{
    emit_force_stop, reason_view, reported_usage, response_usage, StateView, Step, StreamingState,
};
use crate::text::{has_prefix, same_text, strip_prefix, trim, trimmed};
use bytes::Bytes;
use vstd::prelude::*;

verus! {

/// The member of what may be an object.
pub open spec fn member(json: Option<JsonView>, name: Seq<char>) -> Option<JsonView> {
    match json {
        Some(j) => j.get(name),
        None => None,
    }
}

/// The items of what may be an array.
pub open spec fn array(json: Option<JsonView>) -> Option<Seq<JsonView>> {
    match json {
        Some(j) => j.items(),
        None => None,
    }
}

/// The characters of what may be a string.
pub open spec fn string(json: Option<JsonView>) -> Option<Seq<char>> {
    match json {
        Some(j) => j.text(),
        None => None,
    }
}

/// The first candidate of a response.
pub open spec fn candidate(raw: JsonView) -> Option<JsonView> {
    match raw.get("candidates"@) {
        Some(candidates) => candidates.at(0),
        None => None,
    }
}

/// What a response tells of a web search.
pub open spec fn grounding(raw: JsonView) -> Option<JsonView> {
    member(candidate(raw), "groundingMetadata"@)
}

/// The query of the web search.
pub open spec fn search_query(grounding: JsonView) -> Option<Seq<char>> {
    match array(grounding.get("webSearchQueries"@)) {
        Some(queries) => if queries.len() > 0 {
            queries[0].text()
        } else {
            None
        },
        None => None,
    }
}

/// The sources that the web search found.
pub open spec fn found_chunks(grounding: JsonView) -> Option<Seq<JsonView>> {
    match array(grounding.get("groundingChunks"@)) {
        Some(chunks) => Some(chunks),
        None => array(member(grounding.get("grounding_metadata"@), "groundingChunks"@)),
    }
}

/// The parts of the first candidate.
pub open spec fn parts_of(raw: JsonView) -> Seq<JsonView> {
    match array(member(member(candidate(raw), "content"@), "parts"@)) {
        Some(parts) => parts,
        None => Seq::empty(),
    }
}

/// Why the first candidate ended, where it did.
pub open spec fn finish_reason(raw: JsonView) -> Option<Seq<char>> {
    string(member(candidate(raw), "finishReason"@))
}

/// The response itself, which may be wrapped in a member of that name.
pub open spec fn unwrapped(json: JsonView) -> JsonView {
    match json.get("response"@) {
        Some(response) => response,
        None => json,
    }
}

/// The data of a line, where it has any.
pub open spec fn line_data(line: Seq<char>) -> Option<Seq<char>> {
    if has_prefix(line, "data: "@) && trimmed(line.skip(6)).len() > 0 {
        Some(trimmed(line.skip(6)))
    } else {
        None
    }
}

impl StateView {
    /// Remembers the latest web search.
    pub open spec fn ground(self, raw: JsonView) -> StateView {
        match grounding(raw) {
            Some(grounding) => StateView {
                web_search_query: match search_query(grounding) {
                    Some(query) => Some(query),
                    None => self.web_search_query,
                },
                grounding_chunks: match found_chunks(grounding) {
                    Some(chunks) => Some(chunks),
                    None => self.grounding_chunks,
                },
                ..self
            },
            None => self,
        }
    }

    /// Sends the well-formed ones of the parts, in order.
    pub open spec fn parts(self, parts: Seq<JsonView>) -> Step
        decreases parts.len(),
    {
        if parts.len() == 0 {
            self.stay()
        } else {
            let before = self.parts(parts.drop_last());
            let last = match part_of(parts.last()) {
                Some(part) => before.state.part(part),
                None => before.state.stay(),
            };
            Step { state: last.state, frames: before.frames + last.frames }
        }
    }

    /// Begins the message, unless it has begun.
    pub open spec fn begin(self, raw: JsonView) -> Step {
        if self.message_start_sent {
            self.stay()
        } else {
            self.message_start(raw)
        }
    }

    /// Logs the token counts that a response reports.
    pub open spec fn completed(self, raw: JsonView) -> StateView {
        match reported_usage(raw) {
            Some(metadata) => self.logged(LogView::Completed(completion_of(metadata))),
            None => self,
        }
    }

    /// Ends the message, where the response says so.
    pub open spec fn conclude(self, raw: JsonView) -> Step {
        match finish_reason(raw) {
            Some(reason) => self.completed(raw).finish(Some(reason), reported_usage(raw)),
            None => self.stay(),
        }
    }

    /// Sends what a response holds.
    pub open spec fn response(self, raw: JsonView) -> Step {
        let begun = self.begin(raw);
        let sent = begun.state.ground(raw).parts(parts_of(raw));
        let done = sent.state.conclude(raw);
        Step { state: done.state, frames: begun.frames + sent.frames + done.frames }
    }

    /// Translates the data of a line.
    pub open spec fn data(self, data: Seq<char>) -> Step {
        if data == "[DONE]"@ {
            self.force_stop()
        } else {
            match json_document(data) {
                Some(json) => self.response(unwrapped(json)),
                None => self.stay(),
            }
        }
    }

    /// Translates a line.
    #[verifier::opaque]
    pub open spec fn line(self, line: Seq<char>) -> Step {
        match line_data(line) {
            Some(data) => self.data(data),
            None => self.stay(),
        }
    }
}

/// The chunks, unless there are none.
fn unless_empty(chunks: Vec<Bytes>) -> (r: Option<Vec<Bytes>>)
    ensures
        r is None <==> chunks@.len() == 0,
        r matches Some(v) ==> v@ == chunks@,
{
    if chunks.is_empty() {
        None
    } else {
        Some(chunks)
    }
}

/// The frames of a translation that may come to nothing.
pub open spec fn are_frames_if_any(chunks: Option<Vec<Bytes>>, frames: Seq<FrameView>) -> bool {
    match chunks {
        Some(chunks) => frames.len() > 0 && are_frames(chunks@, frames),
        None => frames.len() == 0,
    }
}

fn first_candidate(raw: &Json) -> (r: Option<&Json>)
    ensures
        r is Some <==> candidate(raw@) is Some,
        r matches Some(json) ==> candidate(raw@) == Some(json@),
{
    match raw.get("candidates") {
        Some(candidates) => candidates.at(0),
        None => None,
    }
}

pub(crate) fn array_member<'a>(json: &'a Json, name: &str) -> (r: Option<&'a Vec<Json>>)
    ensures
        r is Some <==> array(json@.get(name@)) is Some,
        r matches Some(items) ==> array(json@.get(name@)) == Some(item_views(items@)),
{
    match json.get(name) {
        Some(value) => value.as_array(),
        None => None,
    }
}

fn copy_items(items: &Vec<Json>) -> (r: Vec<Json>)
    ensures
        item_views(r@) == item_views(items@),
{
    let mut copies: Vec<Json> = Vec::new();
    for i in 0..items.len()
        invariant
            copies@.len() == i,
            forall|j: int| 0 <= j < i ==> (#[trigger] copies@[j])@ == items@[j]@,
    {
        copies.push(items[i].copy());
    }
    assert(item_views(copies@) =~= item_views(items@));
    copies
}

/// Remembers the latest web search.
fn capture_grounding(raw: &Json, state: &mut StreamingState)
    ensures
        final(state)@ == old(state)@.ground(raw@),
{
    let candidate = match first_candidate(raw) {
        Some(candidate) => candidate,
        None => return,
    };
    let grounding = match candidate.get("groundingMetadata") {
        Some(grounding) => grounding,
        None => return,
    };
    if let Some(queries) = array_member(grounding, "webSearchQueries") {
        if queries.len() > 0 {
            assert(item_views(queries@)[0] == queries@[0]@);
            if let Some(query) = queries[0].as_str() {
                state.web_search_query = Some(query.to_owned());
            }
        }
    }
    if let Some(chunks) = array_member(grounding, "groundingChunks") {
        state.grounding_chunks = Some(copy_items(chunks));
    } else if let Some(inner) = grounding.get("grounding_metadata") {
        if let Some(chunks) = array_member(inner, "groundingChunks") {
            state.grounding_chunks = Some(copy_items(chunks));
        }
    }
}

fn candidate_parts(raw: &Json) -> (r: Option<&Vec<Json>>)
    ensures
        r is None ==> parts_of(raw@).len() == 0,
        r matches Some(parts) ==> parts_of(raw@) == item_views(parts@),
{
    match first_candidate(raw) {
        Some(candidate) => match candidate.get("content") {
            Some(content) => array_member(content, "parts"),
            None => None,
        },
        None => None,
    }
}

fn candidate_finish_reason(raw: &Json) -> (r: Option<&str>)
    ensures
        reason_view(r) == finish_reason(raw@),
{
    match first_candidate(raw) {
        Some(candidate) => match candidate.get("finishReason") {
            Some(reason) => reason.as_str(),
            None => None,
        },
        None => None,
    }
}

/// Sends the well-formed ones of the parts, in order.
fn process_parts(parts: &Vec<Json>, state: &mut StreamingState) -> (r: Vec<Bytes>)
    ensures
        final(state)@ == old(state)@.parts(item_views(parts@)).state,
        are_frames(r@, old(state)@.parts(item_views(parts@)).frames),
{
    let ghost views = item_views(parts@);
    let ghost before = state@;
    let mut chunks: Vec<Bytes> = Vec::new();
    assert(views.take(0) =~= Seq::empty());
    for i in 0..parts.len()
        invariant
            views == item_views(parts@),
            state@ == before.parts(views.take(i as int)).state,
            are_frames(chunks@, before.parts(views.take(i as int)).frames),
    {
        assert(views.take(i + 1).drop_last() =~= views.take(i as int));
        assert(views.take(i + 1).last() == parts@[i as int]@);
        if let Some(part) = GeminiPart::from_json(&parts[i]) {
            let mut sent = state.process_part(&part);
            chunks.append(&mut sent);
        }
    }
    assert(views.take(parts@.len() as int) =~= views);
    chunks
}

/// Sends what a response holds.
pub fn process_response(raw: &Json, state: &mut StreamingState) -> (r: Vec<Bytes>)
    ensures
        final(state)@ == old(state)@.response(raw@).state,
        are_frames(r@, old(state)@.response(raw@).frames),
{
    let mut chunks: Vec<Bytes> = Vec::new();
    if !state.message_start_sent {
        chunks.push(state.emit_message_start(raw));
    }
    capture_grounding(raw, state);
    if let Some(parts) = candidate_parts(raw) {
        let mut sent = process_parts(parts, state);
        chunks.append(&mut sent);
    }
    if let Some(reason) = candidate_finish_reason(raw) {
        let usage = response_usage(raw);
        if let Some(metadata) = &usage {
            state.record(LogEntry::Completed(Completion::from_metadata(metadata)));
        }
        let mut done = state.emit_finish(Some(reason), usage.as_ref());
        chunks.append(&mut done);
    }
    chunks
}

/// Translates one line of a Gemini event stream. The trace id and the e-mail
/// address are not used: the entries of the state's log belong to one request,
/// and whoever writes them down names it.
pub fn process_sse_line(
    line: &str,
    state: &mut StreamingState,
    _trace_id: &str,
    _email: &str,
) -> (r: Option<Vec<Bytes>>)
    ensures
        final(state)@ == old(state)@.line(line@).state,
        are_frames_if_any(r, old(state)@.line(line@).frames),
{
    proof {
        reveal(StateView::line);
        reveal_strlit("data: ");
    }
    let rest = match strip_prefix(line, "data: ") {
        Some(rest) => rest,
        None => return None,
    };
    let data = trim(rest);
    if data.is_empty() {
        return None;
    }
    if same_text(data, "[DONE]") {
        return unless_empty(emit_force_stop(state));
    }
    let json = match parse(data) {
        Some(json) => json,
        None => return None,
    };
    let raw = match json.get("response") {
        Some(response) => response,
        None => &json,
    };
    unless_empty(process_response(raw, state))
}

} // verus!
