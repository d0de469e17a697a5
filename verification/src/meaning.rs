//! What the operations are for, stated of what goes in and of what comes out.

use crate::buffer::{complete_lines, incomplete_line, line_length, LINE_FEED};
use crate::frame::{are_frames, FrameView};
use crate::json::{empty_object, json_document, members, Json, JsonView, NumberView};
use crate::laws::{starts, stops};
use crate::line::are_frames_if_any;
use crate::log::{completion_of, LogView};
use crate::part::FunctionCallView;
use crate::reading::{
    block_starts, content, is_complete, is_missing, is_typed, law_parts_keep_content,
    law_response_keeps_content, lead, lead_parts, lemma_no_content, lemma_read_concat,
    lemma_read_one, read, tools_called, Channel,
};
use crate::state::{StateView, StreamOptions, StreamingState};
use crate::stream::initial_stream;
use crate::text::{digit, has_prefix, numeral, signed_numeral, trimmed};
use crate::usage::{usage_json, usage_metadata_of, usage_of, Usage, UsageMetadata};
use bytes::Bytes;
use vstd::prelude::*;
use vstd::utf8::{encode_utf8, encode_utf8_decode_utf8, encode_utf8_valid_utf8, valid_utf8};

verus! {

/// The number of an optional count, 0 where it is missing.
pub open spec fn amount(count: Option<u32>) -> int {
    match count {
        Some(n) => n as int,
        None => 0,
    }
}

/// Tokens are accounted for: those of the prompt are either input tokens or were
/// read from the cache, those of the candidates are output tokens.
pub proof fn law_tokens_are_accounted(m: UsageMetadata)
    ensures
        ({
            let usage = usage_of(Some(m));
            let prompt = amount(m.prompt_token_count);
            let cached = amount(m.cached_content_token_count);
            &&& cached <= prompt ==> usage.input_tokens + cached == prompt
            &&& cached > prompt ==> usage.input_tokens == 0
            &&& usage.output_tokens == amount(m.candidates_token_count)
            &&& usage.cache_read_input_tokens == m.cached_content_token_count
            &&& usage.cache_creation_input_tokens is None
            &&& usage.server_tool_use is None
        }),
        usage_of(None).input_tokens == 0,
        usage_of(None).output_tokens == 0,
        usage_of(None).cache_read_input_tokens is None,
        usage_of(None).cache_creation_input_tokens is None,
        usage_of(None).server_tool_use is None,
{
}

/// Counts that differ only in that one of them is missing where the other is 0
/// report the same input and output tokens.
pub proof fn law_missing_counts_are_zero(a: UsageMetadata, b: UsageMetadata)
    requires
        amount(a.prompt_token_count) == amount(b.prompt_token_count),
        amount(a.cached_content_token_count) == amount(b.cached_content_token_count),
        amount(a.candidates_token_count) == amount(b.candidates_token_count),
    ensures
        usage_of(Some(a)).input_tokens == usage_of(Some(b)).input_tokens,
        usage_of(Some(a)).output_tokens == usage_of(Some(b)).output_tokens,
        completion_of(a) == completion_of(b),
{
}

/// A completed response is logged with its tokens accounted for, and with the
/// cached ones where there are any.
pub proof fn law_completion_accounts_tokens(m: UsageMetadata)
    ensures
        ({
            let completion = completion_of(m);
            let prompt = amount(m.prompt_token_count);
            let cached = amount(m.cached_content_token_count);
            &&& cached <= prompt ==> completion.input_tokens + cached == prompt
            &&& cached > prompt ==> completion.input_tokens == 0
            &&& completion.output_tokens == amount(m.candidates_token_count)
            &&& completion.cached_tokens is Some <==> cached > 0
            &&& amount(completion.cached_tokens) == cached
        }),
{
}

/// Whether a member is a number of 32 bits.
pub open spec fn is_count(json: JsonView, name: Seq<char>) -> bool {
    json.get(name) matches Some(JsonView::Number(NumberView::Unsigned(n))) && n <= u32::MAX
}

/// Whether a member is missing, null or a number of 32 bits.
pub open spec fn may_be_count(json: JsonView, name: Seq<char>) -> bool {
    is_missing(json, name) || is_count(json, name)
}

/// Whether a count is that of a member.
pub open spec fn is_count_of(count: Option<u32>, json: JsonView, name: Seq<char>) -> bool {
    match count {
        Some(n) => json.get(name) == Some(JsonView::Number(NumberView::Unsigned(n as u64))),
        None => is_missing(json, name),
    }
}

/// Token counts are read where each of them is missing or a number of 32 bits,
/// and each of them from its own member.
pub proof fn law_usage_is_read(json: JsonView)
    ensures
        usage_metadata_of(json) is Some <==> json is Object && may_be_count(
            json,
            "promptTokenCount"@,
        ) && may_be_count(json, "candidatesTokenCount"@) && may_be_count(json, "totalTokenCount"@)
            && may_be_count(json, "cachedContentTokenCount"@),
        usage_metadata_of(json) matches Some(m) ==> {
            &&& is_count_of(m.prompt_token_count, json, "promptTokenCount"@)
            &&& is_count_of(m.candidates_token_count, json, "candidatesTokenCount"@)
            &&& is_count_of(m.total_token_count, json, "totalTokenCount"@)
            &&& is_count_of(m.cached_content_token_count, json, "cachedContentTokenCount"@)
        },
{
}

/// The member that an optional count has.
pub open spec fn count_member(count: Option<u32>) -> Option<JsonView> {
    match count {
        Some(n) => Some(JsonView::Number(NumberView::Unsigned(n as u64))),
        None => None,
    }
}

/// A client finds each token count under its own name, and none that is missing.
pub proof fn law_usage_is_written(usage: Usage)
    ensures
        ({
            let json = usage_json(usage);
            &&& json.get("input_tokens"@) == count_member(Some(usage.input_tokens))
            &&& json.get("output_tokens"@) == count_member(Some(usage.output_tokens))
            &&& json.get("cache_read_input_tokens"@) == count_member(usage.cache_read_input_tokens)
            &&& json.get("cache_creation_input_tokens"@) == count_member(
                usage.cache_creation_input_tokens,
            )
            &&& json.get("server_tool_use"@) == match usage.server_tool_use {
                Some(tools) => Some(tools@),
                None => None,
            }
        }),
{
    reveal_strlit("input_tokens");
    reveal_strlit("output_tokens");
    reveal_strlit("cache_read_input_tokens");
    reveal_strlit("cache_creation_input_tokens");
    reveal_strlit("server_tool_use");
    assert("input_tokens"@.len() == 12 && "output_tokens"@.len() == 13);
    assert("cache_read_input_tokens"@.len() == 23 && "cache_creation_input_tokens"@.len() == 27);
    assert("server_tool_use"@.len() == 15);
}

/// The number under a name, 0 where there is none.
pub open spec fn number_under(json: JsonView, name: Seq<char>) -> int {
    match json.get(name) {
        Some(JsonView::Number(NumberView::Unsigned(n))) => n as int,
        _ => 0,
    }
}

/// The token counts that a response reports; nothing where they are malformed.
pub open spec fn counts_reported(raw: JsonView) -> JsonView {
    match raw.get("usageMetadata"@) {
        Some(u) => if u is Object && may_be_count(u, "promptTokenCount"@) && may_be_count(
            u,
            "candidatesTokenCount"@,
        ) && may_be_count(u, "totalTokenCount"@) && may_be_count(u, "cachedContentTokenCount"@) {
            u
        } else {
            JsonView::Null
        },
        None => JsonView::Null,
    }
}

/// Whether the token counts that a client finds account for those that a response
/// reports.
pub open spec fn accounts_for(usage: JsonView, raw: JsonView) -> bool {
    let u = counts_reported(raw);
    let prompt = number_under(u, "promptTokenCount"@);
    let cached = number_under(u, "cachedContentTokenCount"@);
    &&& is_count(usage, "input_tokens"@)
    &&& is_count(usage, "output_tokens"@)
    &&& cached <= prompt ==> number_under(usage, "input_tokens"@) + cached == prompt
    &&& cached > prompt ==> number_under(usage, "input_tokens"@) == 0
    &&& number_under(usage, "output_tokens"@) == number_under(u, "candidatesTokenCount"@)
    &&& number_under(usage, "cache_read_input_tokens"@) == cached
    &&& usage.get("cache_read_input_tokens"@) is Some <==> is_count(u, "cachedContentTokenCount"@)
    &&& usage.get("cache_creation_input_tokens"@) is None
    &&& usage.get("server_tool_use"@) is None
}

proof fn lemma_accounts(raw: JsonView)
    ensures
        accounts_for(usage_json(usage_of(crate::state::reported_usage(raw))), raw),
{
    let reported = crate::state::reported_usage(raw);
    law_usage_is_written(usage_of(reported));
    if let Some(u) = raw.get("usageMetadata"@) {
        law_usage_is_read(u);
    }
    if let Some(m) = reported {
        law_tokens_are_accounted(m);
    }
}

/// The text of a member, or another one.
pub open spec fn text_or_else(json: JsonView, name: Seq<char>, other: Seq<char>) -> JsonView {
    match json.get(name) {
        Some(JsonView::Text(s)) => JsonView::Text(s),
        _ => JsonView::Text(other),
    }
}

/// A message begins with the response that brings it first: under the id and the
/// model of the response, from the assistant, empty, not stopped yet, and with its
/// tokens accounted for. A message that has begun does not begin again.
pub proof fn law_message_begins(state: StateView, raw: JsonView)
    ensures
        state.message_start_sent ==> state.begin(raw) == state.stay(),
        !state.message_start_sent ==> {
            let step = state.begin(raw);
            &&& step.frames.len() == 1
            &&& step.frames[0] matches FrameView::MessageStart { message } && {
                &&& message.get("id"@) == Some(text_or_else(raw, "responseId"@, "msg_unknown"@))
                &&& message.get("model"@) == Some(text_or_else(raw, "modelVersion"@, ""@))
                &&& is_typed(message, "message"@)
                &&& message.get("role"@) == Some(JsonView::Text("assistant"@))
                &&& message.get("content"@) == Some(JsonView::Array(Seq::empty()))
                &&& message.get("stop_reason"@) == Some(JsonView::Null)
                &&& message.get("stop_sequence"@) == Some(JsonView::Null)
                &&& message.get("usage"@) matches Some(usage) && accounts_for(usage, raw)
                &&& message.get("id"@) == Some(JsonView::Text(step.state.message_id))
            }
            &&& step.state == StateView {
                message_start_sent: true,
                message_id: step.state.message_id,
                ..state
            }
        },
{
    lemma_accounts(raw);
    reveal_strlit("id");
    reveal_strlit("type");
    reveal_strlit("role");
    reveal_strlit("content");
    reveal_strlit("model");
    reveal_strlit("stop_reason");
    reveal_strlit("stop_sequence");
    reveal_strlit("usage");
    assert("id"@.len() == 2 && "type"@.len() == 4 && "role"@.len() == 4 && "content"@.len() == 7);
    assert("model"@.len() == 5 && "stop_reason"@.len() == 11 && "stop_sequence"@.len() == 13);
    assert("usage"@.len() == 5 && "usage"@[0] == 'u' && "model"@[0] == 'm');
    assert("type"@[0] == 't' && "role"@[0] == 'r');
}

/// How many frames report why a message stopped.
pub open spec fn reports(frames: Seq<FrameView>) -> nat
    decreases frames.len(),
{
    if frames.len() == 0 {
        0
    } else {
        reports(frames.drop_last()) + if frames.last() is MessageDelta {
            1nat
        } else {
            0
        }
    }
}

/// Whether every frame belongs to a content block.
pub open spec fn only_blocks(frames: Seq<FrameView>) -> bool {
    forall|i: int|
        0 <= i < frames.len() ==> (#[trigger] frames[i]) is BlockStart || frames[i] is BlockDelta
            || frames[i] is BlockStop
}

proof fn lemma_counts_concat(a: Seq<FrameView>, b: Seq<FrameView>)
    ensures
        starts(a + b) == starts(a) + starts(b),
        stops(a + b) == stops(a) + stops(b),
        reports(a + b) == reports(a) + reports(b),
        block_starts(a + b) == block_starts(a) + block_starts(b),
    decreases b.len(),
{
    if b.len() == 0 {
        assert(a + b =~= a);
    } else {
        assert((a + b).drop_last() =~= a + b.drop_last());
        lemma_counts_concat(a, b.drop_last());
    }
}

proof fn lemma_counts_one(frame: FrameView)
    ensures
        starts(seq![frame]) == if frame is MessageStart {
            1nat
        } else {
            0
        },
        stops(seq![frame]) == if frame is MessageStop {
            1nat
        } else {
            0
        },
        reports(seq![frame]) == if frame is MessageDelta {
            1nat
        } else {
            0
        },
        block_starts(seq![frame]) == if frame is BlockStart {
            1nat
        } else {
            0
        },
{
    let none = seq![frame].drop_last();
    assert(none =~= Seq::empty());
    assert(starts(none) == 0 && stops(none) == 0 && reports(none) == 0 && block_starts(none) == 0);
}

proof fn lemma_only_blocks(frames: Seq<FrameView>)
    requires
        only_blocks(frames),
    ensures
        starts(frames) == 0,
        stops(frames) == 0,
        reports(frames) == 0,
    decreases frames.len(),
{
    if frames.len() > 0 {
        let rest = frames.drop_last();
        assert forall|i: int| 0 <= i < rest.len() implies (#[trigger] rest[i]) is BlockStart
            || rest[i] is BlockDelta || rest[i] is BlockStop by {
            assert(rest[i] == frames[i]);
        }
        lemma_only_blocks(rest);
        let last = frames[frames.len() - 1];
        assert(last is BlockStart || last is BlockDelta || last is BlockStop);
    }
}

proof fn lemma_parts_blocks(state: StateView, parts: Seq<JsonView>)
    ensures
        only_blocks(state.parts(parts).frames),
    decreases parts.len(),
{
    if parts.len() > 0 {
        let before = state.parts(parts.drop_last());
        let frames = state.parts(parts).frames;
        lemma_parts_blocks(state, parts.drop_last());
        assert forall|i: int| 0 <= i < frames.len() implies (#[trigger] frames[i]) is BlockStart
            || frames[i] is BlockDelta || frames[i] is BlockStop by {
            if i < before.frames.len() {
                assert(frames[i] == before.frames[i]);
            } else if let Some(part) = crate::part::part_of(parts.last()) {
                assert(frames[i] == before.state.part(part).frames[i - before.frames.len()]);
            }
        }
    }
}

/// Why a client is told that a message stopped: it has to use a tool, the tokens
/// did not suffice, or the model had said what it had to say.
pub open spec fn told_reason(uses_tool: bool, given: Option<JsonView>) -> Seq<char> {
    if uses_tool {
        "tool_use"@
    } else if given == Some(JsonView::Text("MAX_TOKENS"@)) {
        "max_tokens"@
    } else {
        "end_turn"@
    }
}

/// The frames with which a message ends: one report why, and the stop that comes
/// once.
proof fn lemma_finish_frames(
    state: StateView,
    reason: Option<Seq<char>>,
    usage: Option<UsageMetadata>,
)
    requires
        state.message_start_sent,
    ensures
        ({
            let frames = state.finish(reason, usage).frames;
            let n = frames.len() as int;
            let at = if state.message_stop_sent {
                n - 1
            } else {
                n - 2
            };
            &&& starts(frames) == 0
            &&& reports(frames) == 1
            &&& stops(frames) == if state.message_stop_sent {
                0nat
            } else {
                1
            }
            &&& 0 <= at
            &&& frames[at] == FrameView::MessageDelta {
                stop_reason: crate::state::stop_reason(state.used_tool, reason),
                usage: usage_json(usage_of(usage)),
            }
            &&& !state.message_stop_sent ==> frames[n - 1] is MessageStop
            &&& state.finish(reason, usage).state.message_stop_sent
            &&& state.finish(reason, usage).state.web_search_query == state.web_search_query
            &&& state.finish(reason, usage).state.grounding_chunks == state.grounding_chunks
        }),
{
    let shown = state.sources();
    let closed = shown.state.end_block();
    let ended = shown.state.close(reason, usage);
    let delta = FrameView::MessageDelta {
        stop_reason: crate::state::stop_reason(state.used_tool, reason),
        usage: usage_json(usage_of(usage)),
    };
    let stop = if state.message_stop_sent {
        Seq::empty()
    } else {
        seq![FrameView::MessageStop]
    };
    lemma_only_blocks(shown.frames);
    lemma_only_blocks(closed.frames);
    lemma_counts_one(delta);
    lemma_counts_one(FrameView::MessageStop);
    assert(closed.frames.push(delta) =~= closed.frames + seq![delta]);
    lemma_counts_concat(closed.frames, seq![delta]);
    lemma_counts_concat(closed.frames.push(delta), stop);
    assert(ended.frames =~= closed.frames.push(delta) + stop);
    lemma_counts_concat(shown.frames, ended.frames);
}

/// A response that says why it is complete ends the message: the client is told
/// why, once, with the tokens accounted for, and the message stops, unless it has
/// stopped. Another response ends nothing.
pub proof fn law_complete_response_ends_message(state: StateView, raw: JsonView)
    ensures
        ({
            let step = state.response(raw);
            let n = step.frames.len() as int;
            let at = if state.message_stop_sent {
                n - 1
            } else {
                n - 2
            };
            let uses_tool = state.used_tool || tools_called(lead_parts(raw)).len() > 0;
            &&& starts(step.frames) == if state.message_start_sent {
                0nat
            } else {
                1
            }
            &&& !state.message_start_sent ==> n > 0 && step.frames[0] is MessageStart
            &&& !is_complete(raw) ==> reports(step.frames) == 0 && stops(step.frames) == 0
                && step.state.message_stop_sent == state.message_stop_sent
            &&& is_complete(raw) ==> {
                &&& reports(step.frames) == 1
                &&& stops(step.frames) == if state.message_stop_sent {
                    0nat
                } else {
                    1
                }
                &&& 0 <= at < n
                &&& !state.message_stop_sent ==> step.frames[n - 1] is MessageStop
                &&& step.state.message_stop_sent
                &&& step.frames[at] matches FrameView::MessageDelta { stop_reason, usage } && {
                    &&& stop_reason == told_reason(uses_tool, lead(raw).get("finishReason"@))
                    &&& accounts_for(usage, raw)
                }
            }
        }),
{
    let begun = state.begin(raw);
    let parts = crate::line::parts_of(raw);
    let sent = begun.state.ground(raw).parts(parts);
    let done = sent.state.conclude(raw);
    assert(parts =~= lead_parts(raw));
    law_parts_keep_content(begun.state.ground(raw), parts, Channel::Text);
    lemma_parts_blocks(begun.state.ground(raw), parts);
    lemma_only_blocks(sent.frames);
    lemma_accounts(raw);
    if !state.message_start_sent {
        lemma_counts_one(begun.frames[0]);
        assert(begun.frames =~= seq![begun.frames[0]]);
    }
    lemma_counts_concat(begun.frames, sent.frames);
    lemma_counts_concat(begun.frames + sent.frames, done.frames);
    assert(is_complete(raw) <==> crate::line::finish_reason(raw) is Some);
    if let Some(reason) = crate::line::finish_reason(raw) {
        assert(lead(raw).get("finishReason"@) == Some(JsonView::Text(reason)));
        lemma_finish_frames(
            sent.state.completed(raw),
            Some(reason),
            crate::state::reported_usage(raw),
        );
    }
}

/// Forcing a message that has begun to stop tells the client why, once, and that
/// no tokens are known of.
pub proof fn law_forced_stop_is_told(state: StateView)
    requires
        state.message_start_sent,
        !state.message_stop_sent,
    ensures
        ({
            let frames = state.force_stop().frames;
            let n = frames.len() as int;
            &&& reports(frames) == 1
            &&& n >= 2
            &&& frames[n - 1] is MessageStop
            &&& frames[n - 2] matches FrameView::MessageDelta { stop_reason, usage } && {
                &&& stop_reason == told_reason(state.used_tool, None)
                &&& accounts_for(usage, JsonView::Null)
            }
        }),
{
    lemma_finish_frames(state, None, None);
    lemma_accounts(JsonView::Null);
}

/// What a response tells of a web search.
pub open spec fn search_told(raw: JsonView) -> JsonView {
    match lead(raw).get("groundingMetadata"@) {
        Some(g) => g,
        None => JsonView::Null,
    }
}

/// The array under a name.
pub open spec fn array_under(json: JsonView, name: Seq<char>) -> Option<Seq<JsonView>> {
    match json.get(name) {
        Some(JsonView::Array(items)) => Some(items),
        _ => None,
    }
}

/// The latest web search wins: a query and sources that a response tells of take
/// the place of what was known before, and what it does not tell of stays known.
pub proof fn law_latest_search_wins(state: StateView, raw: JsonView)
    ensures
        ({
            let after = state.response(raw).state;
            let g = search_told(raw);
            let queries = array_under(g, "webSearchQueries"@);
            let sources = array_under(g, "groundingChunks"@);
            let nested = match g.get("grounding_metadata"@) {
                Some(inner) => array_under(inner, "groundingChunks"@),
                None => None,
            };
            &&& queries is Some && queries->0.len() > 0 && queries->0[0] is Text
                ==> after.web_search_query == Some(queries->0[0]->Text_0)
            &&& !(queries is Some && queries->0.len() > 0 && queries->0[0] is Text)
                ==> after.web_search_query == state.web_search_query
            &&& sources is Some ==> after.grounding_chunks == sources
            &&& sources is None && nested is Some ==> after.grounding_chunks == nested
            &&& sources is None && nested is None ==> after.grounding_chunks
                == state.grounding_chunks
        }),
{
    let begun = state.begin(raw).state.ground(raw);
    let parts = crate::line::parts_of(raw);
    law_parts_keep_content(begun, parts, Channel::Text);
    let sent = begun.parts(parts);
    if let Some(reason) = crate::line::finish_reason(raw) {
        lemma_finish_frames(
            sent.state.completed(raw),
            Some(reason),
            crate::state::reported_usage(raw),
        );
    }
}

/// Recovery sends what it must and nothing else. Where content came, nothing.
/// Where only thinking came, the notice that it was interrupted, in one text block,
/// with 100 output tokens. Where nothing came, a dot, with one token each way, in a
/// message that is named after the time where it had not begun.
pub proof fn law_recovery_is_exact(state: StateView, now_millis: i64)
    ensures
        state.has_content ==> state.recover(now_millis) == state.stay(),
        !state.has_content ==> {
            let step = state.recover(now_millis);
            let frames = step.frames;
            let n = frames.len() as int;
            let blank = !state.has_thinking && !state.message_start_sent;
            &&& block_starts(frames) == 1
            &&& reports(frames) == 1
            &&& stops(frames) == 0
            &&& starts(frames) == if blank {
                1nat
            } else {
                0
            }
            &&& n == 3 + (if blank {
                1int
            } else {
                0
            }) + (if state.block is Some {
                1int
            } else {
                0
            })
            &&& read(frames, Channel::Text) == if state.has_thinking {
                "\n\n[System] Upstream model interrupted after thinking. (Recovered by Antigravity)"@
            } else {
                "."@
            }
            &&& read(frames, Channel::Thinking) == Seq::<char>::empty()
            &&& read(frames, Channel::Input) == Seq::<char>::empty()
            &&& frames[n - 1] matches FrameView::MessageDelta { stop_reason, usage } && {
                &&& stop_reason == "end_turn"@
                &&& usage.get("input_tokens"@) == count_member(
                    Some(
                        if state.has_thinking {
                            0u32
                        } else {
                            1
                        },
                    ),
                )
                &&& usage.get("output_tokens"@) == count_member(
                    Some(
                        if state.has_thinking {
                            100u32
                        } else {
                            1
                        },
                    ),
                )
                &&& usage.get("cache_read_input_tokens"@) is None
                &&& usage.get("cache_creation_input_tokens"@) is None
                &&& usage.get("server_tool_use"@) is None
            }
            &&& blank ==> (frames[0] matches FrameView::MessageStart { message } && {
                &&& message.get("id"@) == Some(
                    JsonView::Text("msg_recovered_"@ + signed_numeral(now_millis as int)),
                )
                &&& message.get("model"@) == Some(JsonView::Text("gemini-auto"@))
            })
            &&& step.state.block is None
            &&& step.state.has_content
            &&& step.state.message_stop_sent == state.message_stop_sent
            &&& step.state.log == if state.has_thinking {
                state.log.push(LogView::Interrupted)
            } else {
                state.log
            }
        },
{
    reveal(StateView::recover);
    if !state.has_content {
        let raw = crate::stream::recovered_response(now_millis);
        let begun = if state.has_thinking {
            state.logged(LogView::Interrupted).stay()
        } else {
            state.begin(raw)
        };
        let text = if state.has_thinking {
            crate::stream::interruption_notice()
        } else {
            "."@
        };
        let usage = if state.has_thinking {
            crate::stream::recovery_usage(0, 100)
        } else {
            crate::stream::recovery_usage(1, 1)
        };
        let step = state.recover(now_millis);
        let filled = begun.state.recovery_block(text, usage);
        assert(step.frames =~= begun.frames + filled.frames);
        lemma_recovery_block(begun.state, text, usage);
        lemma_counts_concat(begun.frames, filled.frames);
        law_message_begins(state, raw);
        if begun.frames.len() > 0 {
            lemma_counts_one(begun.frames[0]);
            assert(begun.frames =~= seq![begun.frames[0]]);
        }
        assert forall|channel: Channel| #[trigger]
            read(step.frames, channel) == read(filled.frames, channel) by {
            lemma_no_content(begun.frames, channel);
            lemma_read_concat(begun.frames, filled.frames, channel);
            assert(read(step.frames, channel) =~= read(filled.frames, channel));
        }
        reveal_strlit("responseId");
        reveal_strlit("modelVersion");
        assert("responseId"@.len() == 10 && "modelVersion"@.len() == 12);
        law_usage_is_written(
            Usage {
                input_tokens: 0,
                output_tokens: 100,
                cache_read_input_tokens: None,
                cache_creation_input_tokens: None,
                server_tool_use: None,
            },
        );
        law_usage_is_written(
            Usage {
                input_tokens: 1,
                output_tokens: 1,
                cache_read_input_tokens: None,
                cache_creation_input_tokens: None,
                server_tool_use: None,
            },
        );
    }
}

proof fn lemma_recovery_block(state: StateView, text: Seq<char>, usage: JsonView)
    ensures
        ({
            let frames = state.recovery_block(text, usage).frames;
            &&& block_starts(frames) == 1
            &&& reports(frames) == 1
            &&& starts(frames) == 0
            &&& stops(frames) == 0
            &&& read(frames, Channel::Text) == text
            &&& read(frames, Channel::Thinking) == Seq::<char>::empty()
            &&& read(frames, Channel::Input) == Seq::<char>::empty()
        }),
{
    let block = crate::state::content_json("text"@, text);
    let ended = state.end_block();
    let start = FrameView::BlockStart { index: ended.state.block_index, block };
    let stop = FrameView::BlockStop { index: ended.state.block_index };
    let delta = FrameView::MessageDelta { stop_reason: "end_turn"@, usage };
    let rest = seq![stop, delta];
    let frames = state.recovery_block(text, usage).frames;
    assert(frames =~= ended.frames + (seq![start] + rest));
    assert(rest =~= seq![stop] + seq![delta]);
    lemma_only_blocks(ended.frames);
    if state.block is Some {
        lemma_counts_one(ended.frames[0]);
        assert(ended.frames =~= seq![ended.frames[0]]);
    }
    lemma_counts_one(start);
    lemma_counts_one(stop);
    lemma_counts_one(delta);
    lemma_counts_concat(seq![stop], seq![delta]);
    lemma_counts_concat(seq![start], rest);
    lemma_counts_concat(ended.frames, seq![start] + rest);
    reveal_strlit("type");
    reveal_strlit("text");
    reveal_strlit("thinking");
    assert("type"@[1] == 'y' && "text"@[1] == 'e');
    assert("thinking"@.len() == 8 && "text"@.len() == 4);
    assert(is_typed(block, "text"@));
    assert forall|channel: Channel| #[trigger]
        read(frames, channel) == crate::reading::adds(start, channel) by {
        lemma_no_content(ended.frames, channel);
        lemma_no_content(rest, channel);
        lemma_read_one(start, channel);
        lemma_read_concat(seq![start], rest, channel);
        lemma_read_concat(ended.frames, seq![start] + rest, channel);
        assert(read(frames, channel) =~= crate::reading::adds(start, channel));
    }
}

/// The bytes of lines, joined.
pub open spec fn joined_lines(lines: Seq<Seq<u8>>) -> Seq<u8>
    decreases lines.len(),
{
    if lines.len() == 0 {
        Seq::empty()
    } else {
        joined_lines(lines.drop_last()) + lines.last()
    }
}

proof fn lemma_joined_front(first: Seq<u8>, lines: Seq<Seq<u8>>)
    ensures
        joined_lines(seq![first] + lines) == first + joined_lines(lines),
    decreases lines.len(),
{
    let all = seq![first] + lines;
    if lines.len() == 0 {
        assert(all.drop_last() =~= Seq::empty());
        assert(joined_lines(all.drop_last()) =~= Seq::empty());
        assert(joined_lines(all) =~= first + joined_lines(lines));
    } else {
        assert(all.drop_last() =~= seq![first] + lines.drop_last());
        lemma_joined_front(first, lines.drop_last());
        assert(joined_lines(all) =~= first + joined_lines(lines));
    }
}

proof fn lemma_line_end(bytes: Seq<u8>)
    ensures
        line_length(bytes) <= bytes.len(),
        line_length(bytes) > 0 ==> bytes[line_length(bytes) - 1] == LINE_FEED && forall|i: int|
            0 <= i < line_length(bytes) - 1 ==> #[trigger] bytes[i] != LINE_FEED,
        line_length(bytes) == 0 ==> forall|i: int|
            0 <= i < bytes.len() ==> #[trigger] bytes[i] != LINE_FEED,
    decreases bytes.len(),
{
    if bytes.len() > 0 && bytes[0] != LINE_FEED {
        let rest = bytes.skip(1);
        lemma_line_end(rest);
        assert forall|i: int| 1 <= i < bytes.len() implies #[trigger] bytes[i] == rest[i - 1] by {}
    }
}

/// Whether a line ends with a line feed and holds no other.
pub open spec fn is_one_line(line: Seq<u8>) -> bool {
    &&& line.len() > 0
    &&& line.last() == 10u8
    &&& forall|i: int| 0 <= i < line.len() - 1 ==> #[trigger] line[i] != 10u8
}

/// No byte is lost, made up or moved where bytes are split into lines: the lines,
/// each up to its line feed, and then what follows the last line feed, are the
/// bytes.
pub proof fn law_lines_are_the_bytes(bytes: Seq<u8>)
    ensures
        joined_lines(complete_lines(bytes)) + incomplete_line(bytes) == bytes,
        forall|k: int|
            0 <= k < complete_lines(bytes).len() ==> is_one_line(
                #[trigger] complete_lines(bytes)[k],
            ),
        forall|i: int|
            0 <= i < incomplete_line(bytes).len() ==> #[trigger] incomplete_line(bytes)[i] != 10u8,
    decreases bytes.len(),
{
    let n = line_length(bytes) as int;
    lemma_line_end(bytes);
    if n > 0 {
        let first = bytes.take(n);
        let rest = bytes.skip(n);
        law_lines_are_the_bytes(rest);
        lemma_joined_front(first, complete_lines(rest));
        assert(is_one_line(first));
        assert(complete_lines(bytes) =~= seq![first] + complete_lines(rest));
        assert forall|k: int| 0 <= k < complete_lines(bytes).len() implies is_one_line(
            #[trigger] complete_lines(bytes)[k],
        ) by {
            if k > 0 {
                assert(complete_lines(bytes)[k] == complete_lines(rest)[k - 1]);
            }
        }
        assert(joined_lines(complete_lines(bytes)) + incomplete_line(bytes) =~= first + (
        joined_lines(complete_lines(rest)) + incomplete_line(rest)));
        assert(first + rest =~= bytes);
    } else {
        assert(complete_lines(bytes) =~= Seq::empty());
        assert(joined_lines(complete_lines(bytes)) + incomplete_line(bytes) =~= bytes);
    }
}

/// The bytes of a text are a line of that text, white space around it aside; bytes
/// that are no text are no line.
pub proof fn law_line_of_text(state: StateView, text: Seq<char>, bytes: Seq<u8>)
    ensures
        state.raw_line(encode_utf8(text)) == state.line(trimmed(text)),
        !valid_utf8(bytes) ==> state.raw_line(bytes) == state.stay(),
{
    encode_utf8_decode_utf8(text);
    encode_utf8_valid_utf8(text);
}

/// A line of data is the response that its JSON holds, in a member of that name or
/// by itself; white space around the JSON does not matter.
pub proof fn law_data_line_is_response(state: StateView, data: Seq<char>, json: JsonView)
    requires
        trimmed(data).len() > 0,
        trimmed(data) != "[DONE]"@,
        json_document(trimmed(data)) == Some(json),
    ensures
        state.line("data: "@ + data) == match json.get("response"@) {
            Some(response) => state.response(response),
            None => state.response(json),
        },
{
    reveal(StateView::line);
    reveal_strlit("data: ");
    let line = "data: "@ + data;
    assert(line.take(6) =~= "data: "@);
    assert(line.skip(6) =~= data);
}

/// The line that says that all is done forces the message to stop.
pub proof fn law_done_line_stops(state: StateView, data: Seq<char>)
    requires
        trimmed(data) == "[DONE]"@,
    ensures
        state.line("data: "@ + data) == state.force_stop(),
{
    reveal(StateView::line);
    reveal_strlit("data: ");
    reveal_strlit("[DONE]");
    let line = "data: "@ + data;
    assert(line.take(6) =~= "data: "@);
    assert(line.skip(6) =~= data);
}

/// Lines without data, and data that is neither JSON nor the end, are passed over.
pub proof fn law_other_lines_are_passed_over(state: StateView, line: Seq<char>)
    requires
        !has_prefix(line, "data: "@) || trimmed(line.skip(6)).len() == 0 || (trimmed(line.skip(6))
            != "[DONE]"@ && json_document(trimmed(line.skip(6))) is None),
    ensures
        state.line(line) == state.stay(),
{
    reveal(StateView::line);
}

/// Lines act one after another.
pub proof fn law_lines_act_in_order(state: StateView, lines: Seq<Seq<u8>>, line: Seq<u8>)
    ensures
        state.raw_lines(Seq::empty()) == state.stay(),
        ({
            let before = state.raw_lines(lines);
            let step = state.raw_lines(lines.push(line));
            &&& step.state == before.state.raw_line(line).state
            &&& step.frames == before.frames + before.state.raw_line(line).frames
        }),
{
    assert(lines.push(line).drop_last() =~= lines);
}

/// What a client finds in the events: each under its own name, with the members
/// that it is for.
pub proof fn law_events_have_their_members(frame: FrameView)
    ensures
        !(frame is Ping) ==> is_typed(frame.data(), frame.name()),
        match frame {
            FrameView::MessageStart { message } => {
                &&& frame.name() == "message_start"@
                &&& frame.data().get("message"@) == Some(message)
            },
            FrameView::BlockStart { index, block } => {
                &&& frame.name() == "content_block_start"@
                &&& number_under(frame.data(), "index"@) == index
                &&& frame.data().get("index"@) is Some
                &&& frame.data().get("content_block"@) == Some(block)
            },
            FrameView::BlockDelta { index, delta } => {
                &&& frame.name() == "content_block_delta"@
                &&& number_under(frame.data(), "index"@) == index
                &&& frame.data().get("index"@) is Some
                &&& frame.data().get("delta"@) == Some(delta)
            },
            FrameView::BlockStop { index } => {
                &&& frame.name() == "content_block_stop"@
                &&& number_under(frame.data(), "index"@) == index
                &&& frame.data().get("index"@) is Some
            },
            FrameView::MessageDelta { stop_reason, usage } => {
                &&& frame.name() == "message_delta"@
                &&& frame.data().get("usage"@) == Some(usage)
                &&& frame.data().get("delta"@) matches Some(delta) && {
                    &&& delta.get("stop_reason"@) == Some(JsonView::Text(stop_reason))
                    &&& delta.get("stop_sequence"@) == Some(JsonView::Null)
                }
            },
            FrameView::MessageStop => {
                &&& frame.name() == "message_stop"@
                &&& frame.text()
                    == "event: message_stop\ndata: {\"type\":\"message_stop\"}\n\n"@
            },
            FrameView::Error { reason } => {
                &&& frame.name() == "error"@
                &&& frame.data().get("error"@) matches Some(error) && {
                    &&& is_typed(error, "api_error"@)
                    &&& error.get("message"@) == Some(JsonView::Text(reason))
                }
            },
            FrameView::Ping => frame.text() == ": ping\n\n"@,
        },
{
    reveal_strlit("type");
    reveal_strlit("index");
    reveal_strlit("content_block");
    reveal_strlit("delta");
    reveal_strlit("usage");
    reveal_strlit("message");
    reveal_strlit("error");
    reveal_strlit("stop_reason");
    reveal_strlit("stop_sequence");
    assert("type"@.len() == 4 && "index"@.len() == 5 && "content_block"@.len() == 13);
    assert("delta"@.len() == 5 && "usage"@.len() == 5 && "message"@.len() == 7);
    assert("error"@.len() == 5 && "stop_reason"@.len() == 11 && "stop_sequence"@.len() == 13);
    assert("index"@[0] == 'i' && "delta"@[0] == 'd' && "usage"@[0] == 'u');
}

/// Chunks that may come to nothing come to nothing where there are no frames, and
/// only there; else they are the frames.
pub proof fn law_nothing_is_sent_for_nothing(chunks: Option<Vec<Bytes>>, frames: Seq<FrameView>)
    requires
        are_frames_if_any(chunks, frames),
    ensures
        chunks is None <==> frames.len() == 0,
        chunks matches Some(v) ==> are_frames(v@, frames) && v@.len() == frames.len(),
{
}

/// A member that is added is found, and the others are found as before. What is
/// no object has no members and gets none.
pub proof fn law_members_are_found(
    json: JsonView,
    name: Seq<char>,
    value: JsonView,
    other: Seq<char>,
)
    ensures
        json is Object ==> json.with(name, value).get(name) == Some(value),
        other != name ==> json.with(name, value).get(other) == json.get(other),
        !(json is Object) ==> json.with(name, value) == json && json.get(name) is None,
        empty_object().get(name) is None,
{
}

/// Of the members of an object, the last one under a name counts, and no other is
/// found.
pub proof fn law_last_member_counts(pairs: Seq<(Seq<char>, JsonView)>, name: Seq<char>)
    ensures
        forall|i: int|
            0 <= i < pairs.len() && (#[trigger] pairs[i]).0 == name && (forall|j: int|
                i < j < pairs.len() ==> (#[trigger] pairs[j]).0 != name) ==> members(
                pairs,
            ).contains_key(name) && members(pairs)[name] == pairs[i].1,
        (forall|i: int| 0 <= i < pairs.len() ==> (#[trigger] pairs[i]).0 != name) ==> !members(
            pairs,
        ).contains_key(name),
    decreases pairs.len(),
{
    if pairs.len() > 0 {
        let rest = pairs.drop_last();
        let n = pairs.len() - 1;
        law_last_member_counts(rest, name);
        assert(forall|j: int| 0 <= j < n ==> #[trigger] rest[j] == pairs[j]);
        assert forall|i: int|
            0 <= i < pairs.len() && (#[trigger] pairs[i]).0 == name && (forall|j: int|
                i < j < pairs.len() ==> (#[trigger] pairs[j]).0 != name) implies members(
            pairs,
        ).contains_key(name) && members(pairs)[name] == pairs[i].1 by {
            if i < n {
                assert(pairs[n].0 != name);
                assert(rest[i].0 == name);
                assert forall|j: int| i < j < rest.len() implies (#[trigger] rest[j]).0 != name by {
                    assert(rest[j] == pairs[j]);
                }
            }
        }
        if forall|i: int| 0 <= i < pairs.len() ==> (#[trigger] pairs[i]).0 != name {
            assert(pairs[n].0 != name);
            assert forall|i: int| 0 <= i < rest.len() implies (#[trigger] rest[i]).0 != name by {
                assert(rest[i] == pairs[i]);
            }
        }
    }
}

/// The value of a character as a decimal digit.
pub open spec fn digit_value(c: char) -> int {
    c as int - '0' as int
}

/// The value of a decimal numeral.
pub open spec fn numeral_value(digits: Seq<char>) -> int
    decreases digits.len(),
{
    if digits.len() == 0 {
        0
    } else {
        10 * numeral_value(digits.drop_last()) + digit_value(digits.last())
    }
}

/// A numeral is made of digits, does not begin with a zero unless it is one, and
/// has the value of the number.
pub proof fn law_numeral_has_its_value(n: nat)
    ensures
        numeral_value(numeral(n)) == n,
        numeral(n).len() > 0,
        forall|i: int| 0 <= i < numeral(n).len() ==> '0' <= #[trigger] numeral(n)[i] <= '9',
        n > 0 ==> numeral(n)[0] != '0',
        n == 0 ==> numeral(n) == seq!['0'],
    decreases n,
{
    if n < 10 {
        let digits = numeral(n);
        assert(digits.drop_last() =~= Seq::empty());
        assert(numeral_value(digits.drop_last()) == 0);
        assert(digit_value(digit(n as int)) == n);
    } else {
        let digits = numeral(n);
        law_numeral_has_its_value(n / 10);
        assert(digits.drop_last() =~= numeral(n / 10));
        assert(digit_value(digit((n % 10) as int)) == n % 10);
        assert(digits[0] == numeral(n / 10)[0]);
        assert forall|i: int| 0 <= i < digits.len() implies '0' <= #[trigger] digits[i]
            <= '9' by {
            if i < digits.len() - 1 {
                assert(digits[i] == numeral(n / 10)[i]);
            }
        }
    }
}

/// The numeral of a negative number is that of its opposite after a minus sign,
/// and no other numeral begins with one.
pub proof fn law_signed_numeral(n: int)
    ensures
        n < 0 ==> signed_numeral(n) == seq!['-'] + numeral((-n) as nat),
        n >= 0 ==> signed_numeral(n) == numeral(n as nat) && signed_numeral(n)[0] != '-',
{
    if n >= 0 {
        law_numeral_has_its_value(n as nat);
    }
}

/// Calls without an id of their own get one that tells them from the other calls
/// of the message.
pub proof fn law_fallback_ids_differ(message_id: Seq<char>, a: usize, b: usize)
    requires
        a != b,
    ensures
        crate::state::fallback_tool_id(message_id, a) != crate::state::fallback_tool_id(
            message_id,
            b,
        ),
        has_prefix(crate::state::fallback_tool_id(message_id, a), "toolu_"@ + message_id),
{
    let start = "toolu_"@ + message_id + "_"@;
    let x = start + numeral(a as nat);
    let y = start + numeral(b as nat);
    law_numeral_has_its_value(a as nat);
    law_numeral_has_its_value(b as nat);
    assert(x.skip(start.len() as int) =~= numeral(a as nat));
    assert(y.skip(start.len() as int) =~= numeral(b as nat));
    let prefix = "toolu_"@ + message_id;
    assert(x.take(prefix.len() as int) =~= prefix);
}

/// A response that is complete and reports well-formed token counts is logged, with
/// its tokens accounted for. Another response is not.
pub proof fn law_log_accounts_tokens(state: StateView, raw: JsonView)
    ensures
        ({
            let log = state.response(raw).state.log;
            let u = counts_reported(raw);
            let prompt = number_under(u, "promptTokenCount"@);
            let cached = number_under(u, "cachedContentTokenCount"@);
            &&& !(is_complete(raw) && u is Object) ==> log == state.log
            &&& is_complete(raw) && u is Object ==> {
                &&& log.len() == state.log.len() + 1
                &&& log.drop_last() == state.log
                &&& log.last() matches LogView::Completed(c) && {
                    &&& cached <= prompt ==> c.input_tokens + cached == prompt
                    &&& cached > prompt ==> c.input_tokens == 0
                    &&& c.output_tokens == number_under(u, "candidatesTokenCount"@)
                    &&& c.cached_tokens is Some <==> cached > 0
                    &&& amount(c.cached_tokens) == cached
                }
            }
        }),
{
    crate::laws::law_completion_is_logged(state, raw);
    assert(is_complete(raw) <==> crate::line::finish_reason(raw) is Some);
    if let Some(u) = raw.get("usageMetadata"@) {
        law_usage_is_read(u);
        if let Some(m) = usage_metadata_of(u) {
            law_completion_accounts_tokens(m);
            assert(state.log.push(LogView::Completed(completion_of(m))).drop_last() =~= state.log);
        }
    }
}

/// A JSON value holds what it was made of.
pub proof fn law_json_holds_what_it_is_made_of(json: Json)
    ensures
        match json {
            Json::Null => json@ == JsonView::Null,
            Json::Bool(b) => json@ == JsonView::Bool(b),
            Json::Unsigned(n) => json@.unsigned() == Some(n),
            Json::Number(n) => json@ is Number,
            Json::Text(s) => json@.text() == Some(s@),
            Json::Array(v) => json@.items() matches Some(items) && items.len() == v@.len()
                && forall|i: int|
                0 <= i < v@.len() ==> json@.at(i) == Some((#[trigger] v@[i])@),
            Json::Object(v) => json@ is Object && (forall|i: int|
                0 <= i < v@.len() && (forall|j: int|
                    i < j < v@.len() ==> (#[trigger] v@[j]).0@ != v@[i].0@) ==> json@.get(
                    (#[trigger] v@[i]).0@,
                ) == Some(v@[i].1@)) && forall|name: Seq<char>|
                (forall|i: int| 0 <= i < v@.len() ==> (#[trigger] v@[i]).0@ != name)
                    ==> #[trigger] json@.get(name) is None,
        },
{
    match json {
        Json::Array(v) => {
            let items = crate::json::item_views(v@);
            assert forall|i: int| 0 <= i < v@.len() implies json@.at(i) == Some(
                (#[trigger] v@[i])@,
            ) by {
                assert(items[i] == v@[i]@);
            }
        },
        Json::Object(v) => {
            let pairs = crate::json::entry_views(v@);
            assert(pairs.len() == v@.len());
            assert forall|i: int| 0 <= i < v@.len() implies (#[trigger] pairs[i]) == (
                v@[i].0@,
                v@[i].1@,
            ) by {}
            assert forall|i: int|
                0 <= i < v@.len() && (forall|j: int|
                    i < j < v@.len() ==> (#[trigger] v@[j]).0@ != v@[i].0@) implies json@.get(
                (#[trigger] v@[i]).0@,
            ) == Some(v@[i].1@) by {
                law_last_member_counts(pairs, v@[i].0@);
                assert(pairs[i].0 == v@[i].0@);
                assert forall|j: int| i < j < pairs.len() implies (#[trigger] pairs[j]).0
                    != v@[i].0@ by {
                    assert(v@[j].0@ != v@[i].0@);
                }
            }
            assert forall|name: Seq<char>|
                (forall|i: int| 0 <= i < v@.len() ==> (#[trigger] v@[i]).0@ != name) implies
                #[trigger] json@.get(name) is None by {
                law_last_member_counts(pairs, name);
                assert forall|i: int| 0 <= i < pairs.len() implies (#[trigger] pairs[i]).0
                    != name by {
                    assert(v@[i].0@ != name);
                }
            }
        },
        _ => {},
    }
}

/// The state of a message, as it is spoken of, is the one that is kept.
pub proof fn law_state_is_what_is_kept(state: StreamingState)
    ensures
        state@.block == state.block,
        state@.block_index == state.block_index,
        state@.message_id == state.message_id@,
        state@.message_start_sent == state.message_start_sent,
        state@.message_stop_sent == state.message_stop_sent,
        state@.has_thinking == state.has_thinking,
        state@.has_content == state.has_content,
        state@.used_tool == state.used_tool,
        state@.options == state.options,
        state@.web_search_query is Some <==> state.web_search_query is Some,
        state.web_search_query matches Some(query) ==> state@.web_search_query == Some(query@),
        state@.grounding_chunks is Some <==> state.grounding_chunks is Some,
        state.grounding_chunks matches Some(v) ==> (state@.grounding_chunks matches Some(items)
            && items.len() == v@.len() && forall|i: int|
            0 <= i < v@.len() ==> (#[trigger] items[i]) == v@[i]@),
        state@.log.len() == state.log@.len(),
        forall|i: int| 0 <= i < state.log@.len() ==> (#[trigger] state@.log[i]) == state.log@[i]@,
{
}

/// A call without an id gets one that is made of the message and of the index of
/// the block that the call is sent in.
pub proof fn law_unnamed_calls_get_ids(state: StateView, call: FunctionCallView)
    requires
        call.id is None,
    ensures
        ({
            let frames = state.tool_call(call).frames;
            let first: int = if state.block is Some {
                1
            } else {
                0
            };
            frames[first] matches FrameView::BlockStart { index, block } && block.get("id"@)
                == Some(
                JsonView::Text("toolu_"@ + state.message_id + "_"@ + numeral(index as nat)),
            )
        }),
{
    reveal_strlit("type");
    reveal_strlit("id");
    reveal_strlit("name");
    reveal_strlit("input");
    assert("type"@.len() == 4 && "id"@.len() == 2 && "name"@.len() == 4 && "input"@.len() == 5);
}

/// A response leaves a message that has begun, knows whether it used a tool, what
/// was sent of it and whether it stopped, and is the answer to the same request. A
/// message that had begun keeps its id.
pub proof fn law_response_updates_state(state: StateView, raw: JsonView)
    ensures
        ({
            let after = state.response(raw).state;
            let parts = lead_parts(raw);
            &&& after.message_start_sent
            &&& after.message_stop_sent <==> state.message_stop_sent || is_complete(raw)
            &&& after.used_tool <==> state.used_tool || tools_called(parts).len() > 0
            &&& after.has_thinking <==> state.has_thinking || content(
                parts,
                Channel::Thinking,
            ).len() > 0
            &&& after.has_content <==> state.has_content || read(
                state.response(raw).frames,
                Channel::Text,
            ).len() > 0 || tools_called(parts).len() > 0
            &&& state.message_start_sent ==> after.message_id == state.message_id
            &&& !state.message_start_sent ==> JsonView::Text(after.message_id) == text_or_else(
                raw,
                "responseId"@,
                "msg_unknown"@,
            )
            &&& after.options == state.options
            &&& is_complete(raw) ==> after.block is None
        }),
{
    let begun = state.begin(raw).state.ground(raw);
    let parts = crate::line::parts_of(raw);
    assert(parts =~= lead_parts(raw));
    law_parts_keep_content(begun, parts, Channel::Text);
    law_parts_keep_content(begun, parts, Channel::Thinking);
    law_response_keeps_content(state, raw, Channel::Text);
    assert(is_complete(raw) <==> crate::line::finish_reason(raw) is Some);
}

/// Forcing a message to stop closes its block, shows sources where there are any,
/// and changes nothing else.
pub proof fn law_forced_stop_changes_little(state: StateView)
    ensures
        ({
            let after = state.force_stop().state;
            &&& after.message_stop_sent
            &&& !state.message_stop_sent && state.message_start_sent ==> after.block is None
            &&& after == StateView {
                block: after.block,
                block_index: after.block_index,
                message_stop_sent: true,
                has_content: after.has_content,
                ..state
            }
            &&& after.has_content <==> state.has_content || read(
                state.force_stop().frames,
                Channel::Text,
            ).len() > 0
        }),
{
    crate::reading::lemma_finish_read(state, None, None, Channel::Text);
    lemma_no_content(seq![FrameView::MessageStop], Channel::Text);
}

/// Recovery leaves the rest of a message as it is.
pub proof fn law_recovery_changes_little(state: StateView, now_millis: i64)
    ensures
        ({
            let after = state.recover(now_millis).state;
            &&& after == StateView {
                block: after.block,
                block_index: after.block_index,
                message_id: after.message_id,
                message_start_sent: after.message_start_sent,
                has_content: true,
                log: after.log,
                ..state
            }
            &&& state.message_start_sent ==> after.message_id == state.message_id
            &&& after.message_start_sent <==> state.message_start_sent || (!state.has_content
                && !state.has_thinking)
        }),
{
    reveal(StateView::recover);
}

/// A message that has to be made up altogether is told by the time from those that
/// are made up at other times; it is one that has not begun, with nothing to send.
pub proof fn law_blank_messages_are_named_by_time(state: StateView, a: i64, b: i64)
    requires
        a != b,
    ensures
        state.is_blank() ==> state.recover(a).frames != state.recover(b).frames,
        state.is_blank() <==> !state.has_content && !state.has_thinking
            && !state.message_start_sent,
{
    if state.is_blank() {
        law_recovery_is_exact(state, a);
        law_recovery_is_exact(state, b);
        let prefix = "msg_recovered_"@;
        let x = signed_numeral(a as int);
        let y = signed_numeral(b as int);
        let n = prefix.len() as int;
        lemma_signed_numerals_differ(a as int, b as int);
        assert((prefix + x).skip(n) =~= x);
        assert((prefix + y).skip(n) =~= y);
        if state.recover(a).frames == state.recover(b).frames {
            assert(state.recover(a).frames[0] == state.recover(b).frames[0]);
            assert(prefix + x == prefix + y);
        }
    }
}

proof fn lemma_signed_numerals_differ(a: int, b: int)
    requires
        a != b,
    ensures
        signed_numeral(a) != signed_numeral(b),
{
    law_signed_numeral(a);
    law_signed_numeral(b);
    let x = if a < 0 {
        (-a) as nat
    } else {
        a as nat
    };
    let y = if b < 0 {
        (-b) as nat
    } else {
        b as nat
    };
    law_numeral_has_its_value(x);
    law_numeral_has_its_value(y);
    assert((seq!['-'] + numeral(x)).skip(1) =~= numeral(x));
    assert((seq!['-'] + numeral(y)).skip(1) =~= numeral(y));
    assert((seq!['-'] + numeral(x))[0] == '-');
    assert((seq!['-'] + numeral(y))[0] == '-');
}

/// A new stream has sent nothing, knows of nothing, and waits for bytes.
pub proof fn law_new_stream_is_empty(options: StreamOptions)
    ensures
        ({
            let stream = initial_stream(options);
            &&& !stream.closed
            &&& stream.buffer.len() == 0
            &&& stream.state.options == options
            &&& stream.state.block is None
            &&& stream.state.block_index == 0
            &&& !stream.state.message_start_sent
            &&& !stream.state.message_stop_sent
            &&& !stream.state.has_thinking
            &&& !stream.state.has_content
            &&& !stream.state.used_tool
            &&& stream.state.web_search_query is None
            &&& stream.state.grounding_chunks is None
            &&& stream.state.log.len() == 0
        }),
{
}

} // verus!
