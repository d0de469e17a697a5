//! What is worth a line in a log.

use crate::usage::{or_zero, usage_of, Usage, UsageMetadata};
use vstd::prelude::*;

verus! {

/// The token counts of a completed message. The input tokens leave out the
/// cached ones, which are named where there are any.
#[derive(Clone, Copy, Debug, PartialEq, Eq)]
pub struct Completion {
    pub input_tokens: u32,
    pub output_tokens: u32,
    pub cached_tokens: Option<u32>,
}

/// Something that happened to a message.
#[derive(Debug)]
pub enum LogEntry {
    /// The response said that it was complete, and reported its token counts.
    Completed(Completion),
    /// The upstream ended after thinking, before any content.
    Interrupted,
    /// So many search results were sent for a query.
    Searched { results: usize, query: String },
}

/// Something that happened to a message.
pub enum LogView {
    Completed(Completion),
    Interrupted,
    Searched { results: nat, query: Seq<char> },
}

impl View for LogEntry {
    type V = LogView;

    open spec fn view(&self) -> LogView {
        match self {
            LogEntry::Completed(completion) => LogView::Completed(*completion),
            LogEntry::Interrupted => LogView::Interrupted,
            LogEntry::Searched { results, query } => LogView::Searched {
                results: *results as nat,
                query: query@,
            },
        }
    }
}

/// The entries of a log, by their views.
pub open spec fn log_views(entries: Seq<LogEntry>) -> Seq<LogView> {
    entries.map_values(|entry: LogEntry| entry@)
}

/// The token counts that a completed response is logged with.
pub open spec fn completion_of(metadata: UsageMetadata) -> Completion {
    let cached = or_zero(metadata.cached_content_token_count);
    Completion {
        input_tokens: usage_of(Some(metadata)).input_tokens,
        output_tokens: or_zero(metadata.candidates_token_count),
        cached_tokens: if cached > 0 {
            Some(cached)
        } else {
            None
        },
    }
}

impl Completion {
    /// The token counts that a completed response is logged with.
    pub fn from_metadata(metadata: &UsageMetadata) -> (r: Completion)
        ensures
            r == completion_of(*metadata),
    {
        let usage = Usage::from_metadata(Some(metadata));
        let cached: u32 = metadata.cached_content_token_count.unwrap_or(0);
        Completion {
            input_tokens: usage.input_tokens,
            output_tokens: usage.output_tokens,
            cached_tokens: if cached > 0 {
                Some(cached)
            } else {
                None
            },
        }
    }
}

} // verus!
