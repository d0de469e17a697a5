//! The parts of a Gemini candidate.

use crate::json::{Json, JsonView};
use vstd::prelude::*;

verus! {

/// A call of a tool.
pub struct FunctionCallView {
    pub name: Seq<char>,
    pub args: Option<JsonView>,
    pub id: Option<Seq<char>>,
}

/// One part of a candidate's content.
pub struct PartView {
    pub text: Option<Seq<char>>,
    pub thought: bool,
    pub function_call: Option<FunctionCallView>,
}

/// A call of a tool.
#[derive(Debug)]
pub struct FunctionCall {
    pub name: String,
    pub args: Option<Json>,
    pub id: Option<String>,
}

/// One part of a candidate's content.
#[derive(Debug)]
pub struct GeminiPart {
    pub text: Option<String>,
    pub thought: bool,
    pub function_call: Option<FunctionCall>,
}

/// The characters of an optional text.
pub open spec fn text_view(text: Option<String>) -> Option<Seq<char>> {
    match text {
        Some(s) => Some(s@),
        None => None,
    }
}

impl View for FunctionCall {
    type V = FunctionCallView;

    open spec fn view(&self) -> FunctionCallView {
        FunctionCallView {
            name: self.name@,
            args: match self.args {
                Some(json) => Some(json@),
                None => None,
            },
            id: text_view(self.id),
        }
    }
}

impl View for GeminiPart {
    type V = PartView;

    open spec fn view(&self) -> PartView {
        PartView {
            text: text_view(self.text),
            thought: self.thought,
            function_call: match self.function_call {
                Some(call) => Some(call@),
                None => None,
            },
        }
    }
}

/// A text that may be missing or null; `None` where it is anything else but a
/// string.
pub open spec fn text_of(json: JsonView, name: Seq<char>) -> Option<Option<Seq<char>>> {
    match json.get(name) {
        None => Some(None),
        Some(JsonView::Null) => Some(None),
        Some(JsonView::Text(s)) => Some(Some(s)),
        Some(_) => None,
    }
}

/// A flag that may be missing or null, which both mean `false`; `None` where it
/// is anything else but a Boolean.
pub open spec fn flag_of(json: JsonView, name: Seq<char>) -> Option<bool> {
    match json.get(name) {
        None => Some(false),
        Some(JsonView::Null) => Some(false),
        Some(JsonView::Bool(b)) => Some(b),
        Some(_) => None,
    }
}

/// The call that a `functionCall` object holds, where it is well formed.
pub open spec fn function_call_of(json: JsonView) -> Option<FunctionCallView> {
    match (text_of(json, "name"@), text_of(json, "id"@)) {
        (Some(Some(name)), Some(id)) => Some(
            FunctionCallView {
                name,
                args: match json.get("args"@) {
                    Some(JsonView::Null) => None,
                    args => args,
                },
                id,
            },
        ),
        _ => None,
    }
}

/// A call that may be missing or null; `None` where it is malformed.
pub open spec fn optional_call_of(json: JsonView, name: Seq<char>) -> Option<
    Option<FunctionCallView>,
> {
    match json.get(name) {
        None => Some(None),
        Some(JsonView::Null) => Some(None),
        Some(call) => match function_call_of(call) {
            Some(call) => Some(Some(call)),
            None => None,
        },
    }
}

/// The part that an object holds, where it is well formed.
pub open spec fn part_of(json: JsonView) -> Option<PartView> {
    match (
        text_of(json, "text"@),
        flag_of(json, "thought"@),
        optional_call_of(json, "functionCall"@),
    ) {
        (Some(text), Some(thought), Some(function_call)) if json is Object => Some(
            PartView { text, thought, function_call },
        ),
        _ => None,
    }
}

fn text_member(json: &Json, name: &str) -> (r: Option<Option<String>>)
    ensures
        r is Some <==> text_of(json@, name@) is Some,
        r matches Some(text) ==> text_of(json@, name@) == Some(text_view(text)),
{
    match json.get(name) {
        None => Some(None),
        Some(Json::Null) => Some(None),
        Some(Json::Text(s)) => Some(Some(s.clone())),
        Some(_) => None,
    }
}

fn flag_member(json: &Json, name: &str) -> (r: Option<bool>)
    ensures
        r == flag_of(json@, name@),
{
    match json.get(name) {
        None => Some(false),
        Some(Json::Null) => Some(false),
        Some(Json::Bool(b)) => Some(*b),
        Some(_) => None,
    }
}

impl FunctionCall {
    /// Reads a `functionCall` object.
    pub fn from_json(json: &Json) -> (r: Option<FunctionCall>)
        ensures
            r is Some <==> function_call_of(json@) is Some,
            r matches Some(call) ==> function_call_of(json@) == Some(call@),
    {
        match (text_member(json, "name"), text_member(json, "id")) {
            (Some(Some(name)), Some(id)) => {
                let args = match json.get("args") {
                    None => None,
                    Some(Json::Null) => None,
                    Some(args) => Some(args.copy()),
                };
                Some(FunctionCall { name, args, id })
            },
            _ => None,
        }
    }
}

impl GeminiPart {
    /// Reads one of a candidate's parts.
    pub fn from_json(json: &Json) -> (r: Option<GeminiPart>)
        ensures
            r is Some <==> part_of(json@) is Some,
            r matches Some(part) ==> part_of(json@) == Some(part@),
    {
        if !json.is_object() {
            return None;
        }
        let function_call = match json.get("functionCall") {
            None => None,
            Some(Json::Null) => None,
            Some(call) => match FunctionCall::from_json(call) {
                Some(call) => Some(call),
                None => return None,
            },
        };
        match (text_member(json, "text"), flag_member(json, "thought")) {
            (Some(text), Some(thought)) => Some(GeminiPart { text, thought, function_call }),
            _ => None,
        }
    }
}

} // verus!
