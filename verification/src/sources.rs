//! The sources of a web search, as Markdown.

use crate::json::{item_views, Json, JsonView};
use crate::part::text_view;
use crate::state::{list_view, text_member_or, text_or};
use vstd::prelude::*;

verus! {

/// The link to the web page of a grounding chunk, as an item of a list; nothing
/// where the page has no address.
pub open spec fn source_link(chunk: JsonView) -> Seq<char> {
    match chunk.get("web"@) {
        Some(web) => if text_or(web, "uri"@, ""@).len() > 0 {
            "- ["@ + text_or(web, "title"@, "Source"@) + "]("@ + text_or(web, "uri"@, ""@) + ")\n"@
        } else {
            Seq::empty()
        },
        None => Seq::empty(),
    }
}

/// The links to the web pages of grounding chunks, in order.
pub open spec fn source_links(chunks: Seq<JsonView>) -> Seq<char>
    decreases chunks.len(),
{
    if chunks.len() == 0 {
        Seq::empty()
    } else {
        source_links(chunks.drop_last()) + source_link(chunks.last())
    }
}

/// The Markdown of a web search: its query, where it is known, and the links that
/// it found. Nothing where it found none.
pub open spec fn sources_text(query: Option<Seq<char>>, chunks: Option<Seq<JsonView>>) -> Seq<
    char,
> {
    let links = match chunks {
        Some(chunks) => source_links(chunks),
        None => Seq::empty(),
    };
    if links.len() == 0 {
        Seq::empty()
    } else {
        match query {
            Some(query) => "\n\nWeb search: "@ + query + "\n\n"@ + links,
            None => "\n\nWeb search\n\n"@ + links,
        }
    }
}

fn links_of(chunks: &Vec<Json>) -> (r: String)
    ensures
        r@ == source_links(item_views(chunks@)),
{
    let ghost views = item_views(chunks@);
    let mut links: String = String::new();
    for i in 0..chunks.len()
        invariant
            views == item_views(chunks@),
            links@ == source_links(views.take(i as int)),
    {
        assert(views.take(i + 1).drop_last() =~= views.take(i as int));
        assert(views.take(i + 1).last() == chunks@[i as int]@);
        let ghost before = links@;
        if let Some(web) = chunks[i].get("web") {
            let uri = text_member_or(web, "uri", "");
            if !uri.is_empty() {
                links.append("- [");
                links.append(text_member_or(web, "title", "Source"));
                links.append("](");
                links.append(uri);
                links.append(")\n");
            }
        }
        assert(links@ =~= before + source_link(chunks@[i as int]@));
    }
    assert(views.take(chunks@.len() as int) =~= views);
    links
}

/// The Markdown of a web search.
pub(crate) fn sources_of(query: &Option<String>, chunks: &Option<Vec<Json>>) -> (r: String)
    ensures
        r@ == sources_text(text_view(*query), list_view(*chunks)),
{
    let links = match chunks {
        Some(chunks) => links_of(chunks),
        None => String::new(),
    };
    if links.as_str().is_empty() {
        return String::new();
    }
    let mut text: String = String::new();
    match query {
        Some(query) => {
            text.append("\n\nWeb search: ");
            text.append(query.as_str());
            text.append("\n\n");
        },
        None => text.append("\n\nWeb search\n\n"),
    }
    text.append(links.as_str());
    assert(text@ =~= sources_text(text_view(*query), list_view(*chunks)));
    text
}

} // verus!
