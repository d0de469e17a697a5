//! Web-search results as content blocks of their own.

use crate::frame::{block_start_chunk, block_stop_chunk, json_str, FrameView};
use crate::json::{empty_object, item_views, Json, JsonView};
use crate::line::{are_frames_if_any, array, array_member};
use crate::log::{LogEntry, LogView};
use crate::state::{next_index, text_member_or, text_or, StateView, Step, StreamingState};
use bytes::Bytes;
use vstd::prelude::*;

verus! {

/// The first string among the items, or the empty one.
pub open spec fn first_string(items: Seq<JsonView>) -> Seq<char>
    decreases items.len(),
{
    if items.len() == 0 {
        Seq::empty()
    } else {
        match items[0].text() {
            Some(s) => s,
            None => first_string(items.skip(1)),
        }
    }
}

/// The query that the search results answer.
pub open spec fn query_of(metadata: JsonView) -> Seq<char> {
    match array(metadata.get("webSearchQueries"@)) {
        Some(queries) => first_string(queries),
        None => Seq::empty(),
    }
}

/// The search result of a web page.
pub open spec fn result_json(web: JsonView) -> JsonView {
    empty_object().with("url"@, json_str(text_or(web, "uri"@, ""@))).with(
        "title"@,
        json_str(text_or(web, "title"@, "Source"@)),
    ).with("encrypted_content"@, json_str(""@)).with("page_age"@, JsonView::Null)
}

/// The search result that a grounding chunk gives, if any: that of a web page
/// with an address.
pub open spec fn results_of_chunk(chunk: JsonView) -> Seq<JsonView> {
    match chunk.get("web"@) {
        Some(web) => if text_or(web, "uri"@, ""@).len() > 0 {
            seq![result_json(web)]
        } else {
            Seq::empty()
        },
        None => Seq::empty(),
    }
}

/// The search results that the grounding chunks give, in order.
pub open spec fn results_of(chunks: Seq<JsonView>) -> Seq<JsonView>
    decreases chunks.len(),
{
    if chunks.len() == 0 {
        Seq::empty()
    } else {
        results_of(chunks.drop_last()) + results_of_chunk(chunks.last())
    }
}

/// The search results of a response.
pub open spec fn search_results(metadata: JsonView) -> Seq<JsonView> {
    match array(metadata.get("groundingChunks"@)) {
        Some(chunks) => results_of(chunks),
        None => Seq::empty(),
    }
}

/// The block of the search itself.
pub open spec fn search_json(id: Seq<char>, query: Seq<char>) -> JsonView {
    empty_object().with("type"@, json_str("server_tool_use"@)).with("id"@, json_str(id)).with(
        "name"@,
        json_str("web_search"@),
    ).with("input"@, empty_object().with("query"@, json_str(query)))
}

/// The block of the search results.
pub open spec fn found_json(id: Seq<char>, results: Seq<JsonView>) -> JsonView {
    empty_object().with("type"@, json_str("web_search_tool_result"@)).with(
        "tool_use_id"@,
        json_str(id),
    ).with("content"@, JsonView::Array(results))
}

impl StateView {
    /// Sends the search and its results, where there are any, as two blocks.
    pub open spec fn search(self, metadata: JsonView, random_id: Seq<char>) -> Step {
        let results = search_results(metadata);
        if results.len() == 0 {
            self.stay()
        } else {
            let id = "srvtoolu_"@ + random_id;
            let first = self.block_index;
            let second = next_index(first);
            Step {
                state: StateView { block_index: next_index(second), ..self }.logged(
                    LogView::Searched { results: results.len(), query: query_of(metadata) },
                ),
                frames: seq![
                    FrameView::BlockStart {
                        index: first,
                        block: search_json(id, query_of(metadata)),
                    },
                    FrameView::BlockStop { index: first },
                    FrameView::BlockStart { index: second, block: found_json(id, results) },
                    FrameView::BlockStop { index: second },
                ],
            }
        }
    }
}

fn first_text(items: &Vec<Json>) -> (r: String)
    ensures
        r@ == first_string(item_views(items@)),
{
    let ghost views = item_views(items@);
    assert(views.skip(0) =~= views);
    for i in 0..items.len()
        invariant
            views == item_views(items@),
            first_string(views) == first_string(views.skip(i as int)),
    {
        assert(views.skip(i as int)[0] == items@[i as int]@);
        assert(views.skip(i as int).skip(1) =~= views.skip(i + 1));
        if let Some(s) = items[i].as_str() {
            return s.to_owned();
        }
    }
    String::new()
}

fn web_results(chunks: &Vec<Json>) -> (r: Vec<Json>)
    ensures
        item_views(r@) == results_of(item_views(chunks@)),
{
    let ghost views = item_views(chunks@);
    let mut results: Vec<Json> = Vec::new();
    assert(item_views(results@) =~= results_of(views.take(0)));
    for i in 0..chunks.len()
        invariant
            views == item_views(chunks@),
            item_views(results@) == results_of(views.take(i as int)),
    {
        assert(views.take(i + 1).drop_last() =~= views.take(i as int));
        assert(views.take(i + 1).last() == chunks@[i as int]@);
        let ghost before = item_views(results@);
        if let Some(web) = chunks[i].get("web") {
            let uri = text_member_or(web, "uri", "");
            if !uri.is_empty() {
                let result = Json::object().with("url", Json::text(uri)).with(
                    "title",
                    Json::text(text_member_or(web, "title", "Source")),
                ).with("encrypted_content", Json::text("")).with("page_age", Json::Null);
                results.push(result);
                assert(item_views(results@) =~= before.push(result@));
            }
        }
        assert(item_views(results@) =~= before + results_of_chunk(chunks@[i as int]@));
    }
    assert(views.take(chunks@.len() as int) =~= views);
    results
}

/// Sends the web search of a response and its results as content blocks. The
/// random id tells the search from others; the caller draws it.
pub fn process_grounding_metadata(
    metadata: &Json,
    state: &mut StreamingState,
    random_id: &str,
) -> (r: Option<Vec<Bytes>>)
    ensures
        final(state)@ == old(state)@.search(metadata@, random_id@).state,
        are_frames_if_any(r, old(state)@.search(metadata@, random_id@).frames),
{
    let query = match array_member(metadata, "webSearchQueries") {
        Some(queries) => first_text(queries),
        None => String::new(),
    };
    let results = match array_member(metadata, "groundingChunks") {
        Some(chunks) => web_results(chunks),
        None => return None,
    };
    assert(item_views(results@).len() == results@.len());
    if results.is_empty() {
        return None;
    }
    state.record(LogEntry::Searched { results: results.len(), query: query.clone() });
    let mut id: String = "srvtoolu_".to_owned();
    id.append(random_id);
    let input = Json::object().with("query", Json::Text(query));
    let search = Json::object().with("type", Json::text("server_tool_use")).with(
        "id",
        Json::text(id.as_str()),
    ).with("name", Json::text("web_search")).with("input", input);
    let found = Json::object().with("type", Json::text("web_search_tool_result")).with(
        "tool_use_id",
        Json::text(id.as_str()),
    ).with("content", Json::Array(results));
    let mut chunks: Vec<Bytes> = Vec::new();
    chunks.push(block_start_chunk(state.block_index, search));
    chunks.push(block_stop_chunk(state.block_index));
    state.block_index = state.block_index.wrapping_add(1);
    chunks.push(block_start_chunk(state.block_index, found));
    chunks.push(block_stop_chunk(state.block_index));
    state.block_index = state.block_index.wrapping_add(1);
    Some(chunks)
}

} // verus!
