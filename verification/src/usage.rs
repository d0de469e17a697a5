//! Token counts: as Gemini reports them and as a message carries them.

use crate::json::{empty_object, unsigned, Json, JsonView};
use vstd::prelude::*;

verus! {

/// The token counts of a Gemini response.
#[derive(Clone, Copy, Debug)]
pub struct UsageMetadata {
    pub prompt_token_count: Option<u32>,
    pub candidates_token_count: Option<u32>,
    pub total_token_count: Option<u32>,
    pub cached_content_token_count: Option<u32>,
}

/// A count that may be missing or null; `None` where it is anything else but a
/// number of 32 bits.
pub open spec fn count_of(json: JsonView, name: Seq<char>) -> Option<Option<u32>> {
    match json.get(name) {
        None => Some(None),
        Some(JsonView::Null) => Some(None),
        Some(value) => match value.unsigned() {
            Some(n) => if n <= u32::MAX {
                Some(Some(n as u32))
            } else {
                None
            },
            None => None,
        },
    }
}

/// The token counts that a `usageMetadata` object holds, where it is well formed.
pub open spec fn usage_metadata_of(json: JsonView) -> Option<UsageMetadata> {
    match (
        count_of(json, "promptTokenCount"@),
        count_of(json, "candidatesTokenCount"@),
        count_of(json, "totalTokenCount"@),
        count_of(json, "cachedContentTokenCount"@),
    ) {
        (Some(prompt), Some(candidates), Some(total), Some(cached)) if json is Object => Some(
            UsageMetadata {
                prompt_token_count: prompt,
                candidates_token_count: candidates,
                total_token_count: total,
                cached_content_token_count: cached,
            },
        ),
        _ => None,
    }
}

fn count(json: &Json, name: &str) -> (r: Option<Option<u32>>)
    ensures
        r == count_of(json@, name@),
{
    match json.get(name) {
        None => Some(None),
        Some(Json::Null) => Some(None),
        Some(value) => match value.as_u64() {
            Some(n) => if n <= u32::MAX as u64 {
                Some(Some(n as u32))
            } else {
                None
            },
            None => None,
        },
    }
}

impl UsageMetadata {
    /// Reads a `usageMetadata` object.
    pub fn from_json(json: &Json) -> (r: Option<UsageMetadata>)
        ensures
            r == usage_metadata_of(json@),
    {
        if !json.is_object() {
            return None;
        }
        match (
            count(json, "promptTokenCount"),
            count(json, "candidatesTokenCount"),
            count(json, "totalTokenCount"),
            count(json, "cachedContentTokenCount"),
        ) {
            (Some(prompt), Some(candidates), Some(total), Some(cached)) => Some(
                UsageMetadata {
                    prompt_token_count: prompt,
                    candidates_token_count: candidates,
                    total_token_count: total,
                    cached_content_token_count: cached,
                },
            ),
            _ => None,
        }
    }
}

/// The token counts of a message.
#[derive(Debug)]
pub struct Usage {
    pub input_tokens: u32,
    pub output_tokens: u32,
    pub cache_read_input_tokens: Option<u32>,
    pub cache_creation_input_tokens: Option<u32>,
    /// How often tools of the server were used.
    pub server_tool_use: Option<Json>,
}

/// The value of an optional count, with 0 for a missing one.
pub open spec fn or_zero(count: Option<u32>) -> u32 {
    match count {
        Some(n) => n,
        None => 0,
    }
}

/// The counts of a message from those of a Gemini response, where there
/// are any. The input tokens leave out those that were read from the cache.
pub open spec fn usage_of(metadata: Option<UsageMetadata>) -> Usage {
    match metadata {
        Some(m) => {
            let prompt = or_zero(m.prompt_token_count);
            let cached = or_zero(m.cached_content_token_count);
            Usage {
                input_tokens: if prompt < cached {
                    0
                } else {
                    (prompt - cached) as u32
                },
                output_tokens: or_zero(m.candidates_token_count),
                cache_read_input_tokens: m.cached_content_token_count,
                cache_creation_input_tokens: None,
                server_tool_use: None,
            }
        },
        None => Usage {
            input_tokens: 0,
            output_tokens: 0,
            cache_read_input_tokens: None,
            cache_creation_input_tokens: None,
            server_tool_use: None,
        },
    }
}

/// The member of an object for a count, where there is one.
pub open spec fn with_count(json: JsonView, name: Seq<char>, count: Option<u32>) -> JsonView {
    match count {
        Some(n) => json.with(name, unsigned(n as u64)),
        None => json,
    }
}

/// The JSON of token counts; what is missing is left out.
pub open spec fn usage_json(usage: Usage) -> JsonView {
    let counts = empty_object().with("input_tokens"@, unsigned(usage.input_tokens as u64)).with(
        "output_tokens"@,
        unsigned(usage.output_tokens as u64),
    );
    let cached = with_count(
        with_count(counts, "cache_read_input_tokens"@, usage.cache_read_input_tokens),
        "cache_creation_input_tokens"@,
        usage.cache_creation_input_tokens,
    );
    match usage.server_tool_use {
        Some(tools) => cached.with("server_tool_use"@, tools@),
        None => cached,
    }
}

fn add_count(json: Json, name: &str, count: Option<u32>) -> (r: Json)
    ensures
        r@ == with_count(json@, name@, count),
{
    match count {
        Some(n) => json.with(name, Json::Unsigned(n as u64)),
        None => json,
    }
}

impl Usage {
    /// The counts of a message from those of a Gemini response, where
    /// there are any.
    pub fn from_metadata(metadata: Option<&UsageMetadata>) -> (r: Usage)
        ensures
            r == usage_of(
                match metadata {
                    Some(m) => Some(*m),
                    None => None,
                },
            ),
    {
        match metadata {
            Some(m) => {
                let cached: u32 = m.cached_content_token_count.unwrap_or(0);
                Usage {
                    input_tokens: m.prompt_token_count.unwrap_or(0).saturating_sub(cached),
                    output_tokens: m.candidates_token_count.unwrap_or(0),
                    cache_read_input_tokens: m.cached_content_token_count,
                    cache_creation_input_tokens: None,
                    server_tool_use: None,
                }
            },
            None => Usage {
                input_tokens: 0,
                output_tokens: 0,
                cache_read_input_tokens: None,
                cache_creation_input_tokens: None,
                server_tool_use: None,
            },
        }
    }

    /// The JSON of the counts; what is missing is left out.
    pub fn to_json(&self) -> (r: Json)
        ensures
            r@ == usage_json(*self),
    {
        let counts = Json::object().with(
            "input_tokens",
            Json::Unsigned(self.input_tokens as u64),
        ).with("output_tokens", Json::Unsigned(self.output_tokens as u64));
        let cached = add_count(
            add_count(counts, "cache_read_input_tokens", self.cache_read_input_tokens),
            "cache_creation_input_tokens",
            self.cache_creation_input_tokens,
        );
        match &self.server_tool_use {
            Some(tools) => cached.with("server_tool_use", tools.copy()),
            None => cached,
        }
    }
}

} // verus!
