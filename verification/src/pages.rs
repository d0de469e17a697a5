//! Which web pages a client is told of.

use crate::frame::FrameView;
use crate::json::JsonView;
use crate::log::LogView;
use crate::meaning::array_under;
use crate::reading::{is_typed, text_under};
use crate::search::{first_string, results_of};
use crate::sources::{source_links, sources_text};
use crate::state::{next_index, StateView};
use vstd::prelude::*;

verus! {

/// A web page.
pub struct Page {
    pub address: Seq<char>,
    pub title: Seq<char>,
}

/// The page of a grounding chunk, if it has an address.
pub open spec fn page_of(chunk: JsonView) -> Seq<Page> {
    match chunk.get("web"@) {
        Some(web) if text_under(web, "uri"@).len() > 0 => seq![
            Page {
                address: text_under(web, "uri"@),
                title: match web.get("title"@) {
                    Some(JsonView::Text(title)) => title,
                    _ => "Source"@,
                },
            },
        ],
        _ => Seq::empty(),
    }
}

/// The pages of grounding chunks, in order.
pub open spec fn pages(chunks: Seq<JsonView>) -> Seq<Page>
    decreases chunks.len(),
{
    if chunks.len() == 0 {
        Seq::empty()
    } else {
        page_of(chunks[0]) + pages(chunks.skip(1))
    }
}

proof fn lemma_pages_push(chunks: Seq<JsonView>, chunk: JsonView)
    ensures
        pages(chunks.push(chunk)) == pages(chunks) + page_of(chunk),
    decreases chunks.len(),
{
    let all = chunks.push(chunk);
    if chunks.len() == 0 {
        assert(all.skip(1) =~= Seq::empty());
        assert(pages(all.skip(1)) =~= Seq::empty());
        assert(pages(all) =~= pages(chunks) + page_of(chunk));
    } else {
        assert(all.skip(1) =~= chunks.skip(1).push(chunk));
        lemma_pages_push(chunks.skip(1), chunk);
        assert(pages(all) =~= pages(chunks) + page_of(chunk));
    }
}

/// Whether a search result tells of a page.
pub open spec fn tells_of(result: JsonView, page: Page) -> bool {
    &&& result.get("url"@) == Some(JsonView::Text(page.address))
    &&& result.get("title"@) == Some(JsonView::Text(page.title))
    &&& result.get("encrypted_content"@) == Some(JsonView::Text(Seq::empty()))
    &&& result.get("page_age"@) == Some(JsonView::Null)
}

/// Whether search results tell of pages, one of each, in order.
pub open spec fn all_tell_of(results: Seq<JsonView>, pages: Seq<Page>) -> bool {
    &&& results.len() == pages.len()
    &&& forall|i: int| 0 <= i < results.len() ==> tells_of(#[trigger] results[i], pages[i])
}

proof fn lemma_results(chunks: Seq<JsonView>)
    ensures
        all_tell_of(results_of(chunks), pages(chunks)),
    decreases chunks.len(),
{
    if chunks.len() > 0 {
        let rest = chunks.drop_last();
        let last = chunks.last();
        lemma_results(rest);
        assert(rest.push(last) =~= chunks);
        lemma_pages_push(rest, last);
        reveal_strlit("url");
        reveal_strlit("title");
        reveal_strlit("encrypted_content");
        reveal_strlit("page_age");
        reveal_strlit("");
        assert("url"@.len() == 3 && "title"@.len() == 5 && "encrypted_content"@.len() == 17);
        assert("page_age"@.len() == 8);
        assert(""@ =~= Seq::empty());
        let new = crate::search::results_of_chunk(last);
        assert(new.len() == page_of(last).len());
        assert(new.len() > 0 ==> tells_of(new[0], page_of(last)[0]));
    }
}

/// Whether a text is the first of the items that is a text, or nothing where none
/// is.
pub open spec fn is_first_text(text: Seq<char>, items: Seq<JsonView>) -> bool {
    ||| exists|i: int|
        0 <= i < items.len() && #[trigger] items[i] == JsonView::Text(text) && forall|j: int|
            0 <= j < i ==> !((#[trigger] items[j]) is Text)
    ||| text.len() == 0 && forall|i: int| 0 <= i < items.len() ==> !((#[trigger] items[i]) is Text)
}

proof fn lemma_first_text(items: Seq<JsonView>)
    ensures
        is_first_text(first_string(items), items),
    decreases items.len(),
{
    if items.len() > 0 {
        if items[0] is Text {
            assert(items[0] == JsonView::Text(first_string(items)));
        } else {
            let rest = items.skip(1);
            let text = first_string(rest);
            lemma_first_text(rest);
            assert(forall|i: int| 0 < i < items.len() ==> #[trigger] items[i] == rest[i - 1]);
            if exists|i: int|
                0 <= i < rest.len() && #[trigger] rest[i] == JsonView::Text(text) && forall|j: int|
                    0 <= j < i ==> !((#[trigger] rest[j]) is Text) {
                let i = choose|i: int|
                    0 <= i < rest.len() && #[trigger] rest[i] == JsonView::Text(text) && forall|
                        j: int,
                    |
                        0 <= j < i ==> !((#[trigger] rest[j]) is Text);
                assert(items[i + 1] == JsonView::Text(text));
                assert forall|j: int| 0 <= j < i + 1 implies !((#[trigger] items[j]) is Text) by {
                    if j > 0 {
                        assert(items[j] == rest[j - 1]);
                    }
                }
            } else {
                assert forall|i: int| 0 <= i < items.len() implies !(
                (#[trigger] items[i]) is Text) by {
                    if i > 0 {
                        assert(items[i] == rest[i - 1]);
                    }
                }
            }
        }
    }
}

/// A web search is sent where it found pages with an address, and only there: a
/// block that names the search and its query, and a block of the same id that tells
/// of each page, in order, each block closed at once. It is logged with the number
/// of pages and the query.
pub proof fn law_search_tells_of_pages(state: StateView, metadata: JsonView, random_id: Seq<char>)
    ensures
        ({
            let step = state.search(metadata, random_id);
            let found = match array_under(metadata, "groundingChunks"@) {
                Some(chunks) => pages(chunks),
                None => Seq::empty(),
            };
            let queries = match array_under(metadata, "webSearchQueries"@) {
                Some(queries) => queries,
                None => Seq::empty(),
            };
            let id = JsonView::Text("srvtoolu_"@ + random_id);
            &&& found.len() == 0 ==> step == state.stay()
            &&& found.len() > 0 ==> {
                &&& step.frames.len() == 4
                &&& step.frames[0] matches FrameView::BlockStart { index, block } && {
                    &&& index == state.block_index
                    &&& is_typed(block, "server_tool_use"@)
                    &&& block.get("id"@) == Some(id)
                    &&& block.get("name"@) == Some(JsonView::Text("web_search"@))
                    &&& block.get("input"@) matches Some(input) && {
                        &&& input.get("query"@) is Some
                        &&& is_first_text(text_under(input, "query"@), queries)
                        &&& step.state.log == state.log.push(
                            LogView::Searched {
                                results: found.len(),
                                query: text_under(input, "query"@),
                            },
                        )
                    }
                }
                &&& step.frames[1] == FrameView::BlockStop { index: state.block_index }
                &&& step.frames[2] matches FrameView::BlockStart { index, block } && {
                    &&& index == next_index(state.block_index)
                    &&& is_typed(block, "web_search_tool_result"@)
                    &&& block.get("tool_use_id"@) == Some(id)
                    &&& array_under(block, "content"@) matches Some(results) && all_tell_of(
                        results,
                        found,
                    )
                }
                &&& step.frames[3] == FrameView::BlockStop { index: next_index(state.block_index) }
                &&& step.state.block_index == next_index(next_index(state.block_index))
                &&& step.state == StateView {
                    block_index: step.state.block_index,
                    log: step.state.log,
                    ..state
                }
            }
        }),
{
    reveal_strlit("type");
    reveal_strlit("id");
    reveal_strlit("name");
    reveal_strlit("input");
    reveal_strlit("tool_use_id");
    reveal_strlit("content");
    assert("type"@.len() == 4 && "id"@.len() == 2 && "name"@.len() == 4 && "input"@.len() == 5);
    assert("tool_use_id"@.len() == 11 && "content"@.len() == 7);
    assert("type"@[0] == 't' && "name"@[0] == 'n');
    if let Some(chunks) = array_under(metadata, "groundingChunks"@) {
        lemma_results(chunks);
    }
    match array_under(metadata, "webSearchQueries"@) {
        Some(queries) => lemma_first_text(queries),
        None => lemma_first_text(Seq::empty()),
    }
}

/// The index after another, as long as it does not wrap around.
pub proof fn law_next_index(index: usize)
    ensures
        index < usize::MAX ==> next_index(index) == index + 1,
        index == usize::MAX ==> next_index(index) == 0,
{
}

/// The links to pages, as a list in Markdown.
pub open spec fn links(pages: Seq<Page>) -> Seq<char>
    decreases pages.len(),
{
    if pages.len() == 0 {
        Seq::empty()
    } else {
        let page = pages[0];
        "- ["@ + page.title + "]("@ + page.address + ")\n"@ + links(pages.skip(1))
    }
}

proof fn lemma_links_concat(a: Seq<Page>, b: Seq<Page>)
    ensures
        links(a + b) == links(a) + links(b),
    decreases a.len(),
{
    if a.len() == 0 {
        assert(a + b =~= b);
        assert(links(a) + links(b) =~= links(b));
    } else {
        assert((a + b).skip(1) =~= a.skip(1) + b);
        lemma_links_concat(a.skip(1), b);
        assert(links(a + b) =~= links(a) + links(b));
    }
}

proof fn lemma_source_links(chunks: Seq<JsonView>)
    ensures
        source_links(chunks) == links(pages(chunks)),
    decreases chunks.len(),
{
    if chunks.len() > 0 {
        let rest = chunks.drop_last();
        let last = chunks.last();
        lemma_source_links(rest);
        assert(rest.push(last) =~= chunks);
        lemma_pages_push(rest, last);
        lemma_links_concat(pages(rest), page_of(last));
        reveal_strlit("");
        assert(""@ =~= Seq::empty());
        if page_of(last).len() > 0 {
            assert(page_of(last).skip(1) =~= Seq::empty());
            assert(links(page_of(last).skip(1)) =~= Seq::empty());
        }
        assert(crate::sources::source_link(last) =~= links(page_of(last)));
    }
}

/// The sources that a client is shown are the pages with an address that the
/// latest web search found, each as a link with its title, in order, under the
/// query, where there is one. Where there are no such pages, nothing is shown.
pub proof fn law_sources_are_the_pages(query: Option<Seq<char>>, chunks: Option<Seq<JsonView>>)
    ensures
        ({
            let found = match chunks {
                Some(chunks) => pages(chunks),
                None => Seq::empty(),
            };
            let text = sources_text(query, chunks);
            &&& found.len() == 0 ==> text.len() == 0
            &&& found.len() > 0 && query is Some ==> text == "\n\nWeb search: "@ + query->0
                + "\n\n"@ + links(found)
            &&& found.len() > 0 && query is None ==> text == "\n\nWeb search\n\n"@ + links(found)
        }),
{
    if let Some(chunks) = chunks {
        lemma_source_links(chunks);
        reveal_strlit("- [");
        assert("- ["@.len() == 3);
    }
}

} // verus!
