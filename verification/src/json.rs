//! JSON values, read and written with `serde_json`.

use crate::text::same_text;
use serde_json::{Number, Value};
use vstd::prelude::*;

verus! {

/// A JSON number.
pub enum NumberView {
    Unsigned(u64),
    /// A number that is no `u64`, by its numeral.
    Numeral(Seq<char>),
}

/// A JSON value as mathematics sees it: an object is a map, so the order of its
/// members carries no meaning.
pub enum JsonView {
    Null,
    Bool(bool),
    Number(NumberView),
    Text(Seq<char>),
    Array(Seq<JsonView>),
    Object(Map<Seq<char>, JsonView>),
}

/// The members of an object written one after another; a later one replaces an
/// earlier one of the same name.
pub open spec fn members(pairs: Seq<(Seq<char>, JsonView)>) -> Map<Seq<char>, JsonView>
    decreases pairs.len(),
{
    if pairs.len() == 0 {
        Map::empty()
    } else {
        members(pairs.drop_last()).insert(pairs.last().0, pairs.last().1)
    }
}

/// The object with the given members.
pub open spec fn object(pairs: Seq<(Seq<char>, JsonView)>) -> JsonView {
    JsonView::Object(members(pairs))
}

/// The number `n`.
pub open spec fn unsigned(n: u64) -> JsonView {
    JsonView::Number(NumberView::Unsigned(n))
}

/// The object without members.
pub open spec fn empty_object() -> JsonView {
    JsonView::Object(Map::empty())
}

/// Whether a value has no number but the `u64`, and arrays and objects nested at
/// most `depth` deep.
pub open spec fn is_plain(json: JsonView, depth: nat) -> bool
    decreases depth,
{
    match json {
        JsonView::Number(n) => n is Unsigned,
        JsonView::Array(items) => depth > 0 && forall|i: int|
            0 <= i < items.len() ==> is_plain(#[trigger] items[i], (depth - 1) as nat),
        JsonView::Object(m) => depth > 0 && forall|name: Seq<char>| #[trigger]
            m.contains_key(name) ==> is_plain(m[name], (depth - 1) as nat),
        _ => true,
    }
}

impl JsonView {
    /// The object with one more member; what is no object stays as it is.
    pub open spec fn with(self, name: Seq<char>, value: JsonView) -> JsonView {
        match self {
            JsonView::Object(m) => JsonView::Object(m.insert(name, value)),
            _ => self,
        }
    }

    /// The member of an object by its name.
    pub open spec fn get(self, name: Seq<char>) -> Option<JsonView> {
        match self {
            JsonView::Object(m) => if m.contains_key(name) {
                Some(m[name])
            } else {
                None
            },
            _ => None,
        }
    }

    /// The item of an array by its position.
    pub open spec fn at(self, i: int) -> Option<JsonView> {
        match self {
            JsonView::Array(items) => if 0 <= i < items.len() {
                Some(items[i])
            } else {
                None
            },
            _ => None,
        }
    }

    /// The characters of a JSON string.
    pub open spec fn text(self) -> Option<Seq<char>> {
        match self {
            JsonView::Text(s) => Some(s),
            _ => None,
        }
    }

    /// The items of an array.
    pub open spec fn items(self) -> Option<Seq<JsonView>> {
        match self {
            JsonView::Array(items) => Some(items),
            _ => None,
        }
    }

    /// The number, where it is an integer of 64 bits without a sign.
    pub open spec fn unsigned(self) -> Option<u64> {
        match self {
            JsonView::Number(NumberView::Unsigned(n)) => Some(n),
            _ => None,
        }
    }
}

/// A JSON value.
#[derive(Debug)]
pub enum Json {
    Null,
    Bool(bool),
    Unsigned(u64),
    Number(Number),
    Text(String),
    Array(Vec<Json>),
    Object(Vec<(String, Json)>),
}

impl View for Json {
    type V = JsonView;

    open spec fn view(&self) -> JsonView {
        json_view(*self)
    }
}

/// What a `Json` holds.
pub open spec fn json_view(json: Json) -> JsonView
    decreases json,
{
    match json {
        Json::Null => JsonView::Null,
        Json::Bool(b) => JsonView::Bool(b),
        Json::Unsigned(n) => unsigned(n),
        Json::Number(n) => JsonView::Number(number_view(n)),
        Json::Text(s) => JsonView::Text(s@),
        Json::Array(v) => JsonView::Array(item_views(v@)),
        Json::Object(v) => object(entry_views(v@)),
    }
}

/// The items of an array, by their views.
pub open spec fn item_views(items: Seq<Json>) -> Seq<JsonView>
    decreases items,
{
    Seq::new(
        items.len(),
        |i: int|
            if 0 <= i < items.len() {
                json_view(items[i])
            } else {
                JsonView::Null
            },
    )
}

/// The members of an object, by the views of their names and values.
pub open spec fn entry_views(entries: Seq<(String, Json)>) -> Seq<(Seq<char>, JsonView)>
    decreases entries,
{
    Seq::new(
        entries.len(),
        |i: int|
            if 0 <= i < entries.len() {
                (entries[i].0@, json_view(entries[i].1))
            } else {
                (Seq::empty(), JsonView::Null)
            },
    )
}

/// A `serde_json::Value` taken apart by one level.
enum Layer {
    Null,
    Bool(bool),
    Unsigned(u64),
    Number(Number),
    Text(String),
    Array(Vec<Value>),
    Object(Vec<(String, Value)>),
}

spec fn layer_json(layer: Layer) -> JsonView {
    match layer {
        Layer::Null => JsonView::Null,
        Layer::Bool(b) => JsonView::Bool(b),
        Layer::Unsigned(n) => unsigned(n),
        Layer::Number(n) => JsonView::Number(number_view(n)),
        Layer::Text(s) => JsonView::Text(s@),
        Layer::Array(v) => JsonView::Array(v@.map_values(|value: Value| value_json(value))),
        Layer::Object(v) => object(pair_views(v@)),
    }
}

spec fn pair_views(pairs: Seq<(String, Value)>) -> Seq<(Seq<char>, JsonView)> {
    pairs.map_values(|p: (String, Value)| (p.0@, value_json(p.1)))
}

#[verifier::external_type_specification]
#[verifier::external_body]
pub struct ExValue(Value);

#[verifier::external_type_specification]
#[verifier::external_body]
pub struct ExNumber(Number);

/// What a `serde_json::Value` holds.
pub uninterp spec fn value_json(value: Value) -> JsonView;

/// The number that a `serde_json::Number` holds.
pub uninterp spec fn number_view(number: Number) -> NumberView;

/// What `serde_json` reads from a text, where the text is a JSON document.
pub uninterp spec fn json_document(text: Seq<char>) -> Option<JsonView>;

/// What `serde_json` writes for a JSON value.
pub uninterp spec fn json_text(json: JsonView) -> Seq<char>;

/// Calls `serde_json::from_str`.
#[verifier::external_body]
fn read_value(text: &str) -> (r: Option<Value>)
    ensures
        r is Some <==> json_document(text@) is Some,
        r matches Some(value) ==> json_document(text@) == Some(value_json(value)),
{
    serde_json::from_str(text).ok()
}

/// Calls `Display` of `serde_json::Value`, which writes compact JSON. Control
/// characters are escaped, so the text is a single line. What is written is read
/// back, except that a number with a fraction may change in its last digit and
/// that the reader refuses arrays and objects nested 128 deep.
#[verifier::external_body]
fn write_value(value: Value) -> (r: String)
    ensures
        r@ == json_text(value_json(value)),
        !r@.contains('\n'),
        !r@.contains('\r'),
        is_plain(value_json(value), 100) ==> json_document(r@) == Some(value_json(value)),
{
    value.to_string()
}

/// Calls `serde_json::Number::as_u64`.
#[verifier::external_body]
fn number_unsigned(number: &Number) -> (r: Option<u64>)
    ensures
        r == JsonView::Number(number_view(*number)).unsigned(),
{
    number.as_u64()
}

/// Calls `clone` of `serde_json::Number`.
#[verifier::external_body]
fn copy_number(number: &Number) -> (r: Number)
    ensures
        number_view(r) == number_view(*number),
{
    number.clone()
}

/// Matches on the variants of `serde_json::Value`. The names of an object's
/// members are distinct.
#[verifier::external_body]
fn open_value(value: Value) -> (r: Layer)
    ensures
        layer_json(r) == value_json(value),
        r matches Layer::Object(v) ==> forall|i: int, j: int|
            0 <= i < j < v@.len() ==> (#[trigger] v@[i]).0@ != (#[trigger] v@[j]).0@,
{
    match value {
        Value::Null => Layer::Null,
        Value::Bool(b) => Layer::Bool(b),
        Value::Number(n) => Layer::Number(n),
        Value::String(s) => Layer::Text(s),
        Value::Array(v) => Layer::Array(v),
        Value::Object(m) => Layer::Object(m.into_iter().collect()),
    }
}

/// Builds the variant of `serde_json::Value`. The names of an object's members
/// must be distinct: nothing says which of two members with one name would stay.
#[verifier::external_body]
fn close_value(layer: Layer) -> (r: Value)
    requires
        layer matches Layer::Object(v) ==> forall|i: int, j: int|
            0 <= i < j < v@.len() ==> (#[trigger] v@[i]).0@ != (#[trigger] v@[j]).0@,
    ensures
        value_json(r) == layer_json(layer),
{
    match layer {
        Layer::Null => Value::Null,
        Layer::Bool(b) => Value::Bool(b),
        Layer::Unsigned(n) => Value::from(n),
        Layer::Number(n) => Value::Number(n),
        Layer::Text(s) => Value::String(s),
        Layer::Array(v) => Value::Array(v),
        Layer::Object(v) => Value::Object(v.into_iter().collect()),
    }
}

proof fn lemma_members_finite(pairs: Seq<(Seq<char>, JsonView)>)
    ensures
        members(pairs).dom().finite(),
    decreases pairs.len(),
{
    if pairs.len() > 0 {
        lemma_members_finite(pairs.drop_last());
    }
}

proof fn lemma_members_last(pairs: Seq<(Seq<char>, JsonView)>, i: int)
    requires
        0 <= i < pairs.len(),
        forall|j: int| i < j < pairs.len() ==> (#[trigger] pairs[j]).0 != pairs[i].0,
    ensures
        members(pairs).contains_key(pairs[i].0),
        members(pairs)[pairs[i].0] == pairs[i].1,
    decreases pairs.len(),
{
    if i < pairs.len() - 1 {
        let rest = pairs.drop_last();
        assert(forall|j: int| i < j < rest.len() ==> (#[trigger] rest[j]).0 == pairs[j].0);
        lemma_members_last(rest, i);
        assert(pairs[pairs.len() - 1].0 != pairs[i].0);
    }
}

proof fn lemma_members_absent(pairs: Seq<(Seq<char>, JsonView)>, name: Seq<char>)
    requires
        forall|j: int| 0 <= j < pairs.len() ==> (#[trigger] pairs[j]).0 != name,
    ensures
        !members(pairs).contains_key(name),
    decreases pairs.len(),
{
    if pairs.len() > 0 {
        let rest = pairs.drop_last();
        assert(forall|j: int| 0 <= j < rest.len() ==> (#[trigger] rest[j]).0 == pairs[j].0);
        lemma_members_absent(rest, name);
        assert(pairs[pairs.len() - 1].0 != name);
    }
}

fn from_value(value: Value) -> (r: Json)
    ensures
        r@ == value_json(value),
    decreases value_json(value),
{
    match open_value(value) {
        Layer::Null => Json::Null,
        Layer::Bool(b) => Json::Bool(b),
        Layer::Unsigned(n) => Json::Unsigned(n),
        Layer::Number(n) => Json::Number(n),
        Layer::Text(s) => Json::Text(s),
        Layer::Array(values) => {
            let ghost views = values@.map_values(|v: Value| value_json(v));
            let mut items: Vec<Json> = Vec::new();
            for v in iter: values
                invariant
                    views == iter.seq().map_values(|v: Value| value_json(v)),
                    value_json(value) == JsonView::Array(views),
                    items@.len() == iter.index(),
                    forall|i: int| 0 <= i < items@.len() ==> (#[trigger] items@[i])@ == views[i],
            {
                proof {
                    let top = value_json(value);
                    assert(value_json(v) == views[iter.index() as int]);
                    assert(decreases_to!(top => top->Array_0));
                    assert(decreases_to!(views => views[iter.index() as int]));
                }
                items.push(from_value(v));
            }
            assert(item_views(items@) =~= views);
            Json::Array(items)
        },
        Layer::Object(pairs) => {
            let ghost views = pair_views(pairs@);
            let mut entries: Vec<(String, Json)> = Vec::new();
            for p in iter: pairs
                invariant
                    views == pair_views(iter.seq()),
                    value_json(value) == object(views),
                    forall|a: int, b: int| 0 <= a < b < views.len() ==> (#[trigger] views[a]).0 != (
                    #[trigger] views[b]).0,
                    entries@.len() == iter.index(),
                    forall|i: int|
                        0 <= i < entries@.len() ==> (#[trigger] entries@[i]).0@ == views[i].0
                            && entries@[i].1@ == views[i].1,
            {
                proof {
                    let top = value_json(value);
                    let name = views[iter.index() as int].0;
                    lemma_members_last(views, iter.index() as int);
                    lemma_members_finite(views);
                    assert(decreases_to!(top => top->Object_0));
                    assert(decreases_to!(members(views) => members(views)[name]));
                }
                entries.push((p.0, from_value(p.1)));
            }
            assert(entry_views(entries@) =~= views);
            Json::Object(entries)
        },
    }
}

/// Whether one of the members has the given name.
fn has_name(pairs: &Vec<(String, Value)>, name: &str) -> (r: bool)
    ensures
        r == exists|i: int| 0 <= i < pairs@.len() && (#[trigger] pairs@[i]).0@ == name@,
{
    for i in 0..pairs.len()
        invariant
            forall|j: int| 0 <= j < i ==> (#[trigger] pairs@[j]).0@ != name@,
    {
        if same_text(pairs[i].0.as_str(), name) {
            return true;
        }
    }
    false
}

fn into_value(json: Json) -> (r: Value)
    ensures
        value_json(r) == json@,
    decreases json,
{
    match json {
        Json::Null => close_value(Layer::Null),
        Json::Bool(b) => close_value(Layer::Bool(b)),
        Json::Unsigned(n) => close_value(Layer::Unsigned(n)),
        Json::Number(n) => close_value(Layer::Number(n)),
        Json::Text(s) => close_value(Layer::Text(s)),
        Json::Array(items) => {
            let ghost views = item_views(items@);
            let mut values: Vec<Value> = Vec::new();
            for item in iter: items
                invariant
                    views == item_views(iter.seq()),
                    decreases_to!(json => iter.seq()),
                    values@.len() == iter.index(),
                    forall|i: int|
                        0 <= i < values@.len() ==> value_json(#[trigger] values@[i]) == views[i],
            {
                assert(decreases_to!(iter.seq() => iter.seq()[iter.index() as int]));
                values.push(into_value(item));
            }
            assert(values@.map_values(|v: Value| value_json(v)) =~= views);
            close_value(Layer::Array(values))
        },
        Json::Object(entries) => {
            let ghost all = entries@;
            let ghost views = entry_views(all);
            let mut entries = entries;
            let mut pairs: Vec<(String, Value)> = Vec::new();
            assert(entries@ =~= all.take(all.len() as int));
            assert(views.take(all.len() as int) =~= views);
            assert(pair_views(pairs@) =~= Seq::empty());
            assert(members(views) =~= members(views).union_prefer_right(
                members(pair_views(pairs@)),
            ));
            // Of members with one name the last counts, so they are taken from the back.
            loop
                invariant
                    decreases_to!(json => all),
                    views == entry_views(all),
                    entries@.len() <= all.len(),
                    entries@ == all.take(entries@.len() as int),
                    members(views) == members(
                        views.take(entries@.len() as int),
                    ).union_prefer_right(members(pair_views(pairs@))),
                    forall|i: int, j: int|
                        0 <= i < j < pairs@.len() ==> (#[trigger] pairs@[i]).0@ != (
                        #[trigger] pairs@[j]).0@,
                ensures
                    entries@.len() == 0,
                decreases entries@.len(),
            {
                let entry = match entries.pop() {
                    Some(entry) => entry,
                    None => break,
                };
                let ghost n = entries@.len() as int;
                let ghost before = pair_views(pairs@);
                assert(decreases_to!(all => all[n]));
                assert(entry == all[n]);
                assert(views.take(n + 1).drop_last() =~= views.take(n));
                assert(views.take(n + 1).last() == (entry.0@, entry.1@));
                if has_name(&pairs, entry.0.as_str()) {
                    proof {
                        let i = choose|i: int|
                            0 <= i < pairs@.len() && (#[trigger] pairs@[i]).0@ == entry.0@;
                        assert(before[i].0 == entry.0@);
                        lemma_members_last(before, i);
                    }
                    assert(members(views) =~= members(views.take(n)).union_prefer_right(
                        members(before),
                    ));
                } else {
                    pairs.push((entry.0, into_value(entry.1)));
                    assert(pair_views(pairs@).drop_last() =~= before);
                    assert(members(views) =~= members(views.take(n)).union_prefer_right(
                        members(pair_views(pairs@)),
                    )) by {
                        lemma_members_absent(before, views[n].0);
                    }
                }
            }
            assert(members(views) =~= members(pair_views(pairs@)));
            close_value(Layer::Object(pairs))
        },
    }
}

/// Reads a JSON document.
pub fn parse(text: &str) -> (r: Option<Json>)
    ensures
        r is Some <==> json_document(text@) is Some,
        r matches Some(json) ==> json_document(text@) == Some(json@),
{
    match read_value(text) {
        Some(value) => Some(from_value(value)),
        None => None,
    }
}

/// Writes a JSON value on a single line.
pub fn render(json: Json) -> (r: String)
    ensures
        r@ == json_text(json@),
        !r@.contains('\n'),
        !r@.contains('\r'),
        is_plain(json@, 100) ==> json_document(r@) == Some(json@),
{
    write_value(into_value(json))
}

impl Json {
    /// The JSON string with the given characters.
    pub fn text(s: &str) -> (r: Json)
        ensures
            r@ == JsonView::Text(s@),
    {
        Json::Text(s.to_owned())
    }

    /// The object without members.
    pub fn object() -> (r: Json)
        ensures
            r@ == empty_object(),
    {
        let entries: Vec<(String, Json)> = Vec::new();
        assert(entry_views(entries@).len() == 0);
        Json::Object(entries)
    }

    /// The object with one more member; what is no object stays as it is.
    pub fn with(self, name: &str, value: Json) -> (r: Json)
        ensures
            r@ == self@.with(name@, value@),
    {
        match self {
            Json::Object(entries) => {
                let ghost views = entry_views(entries@);
                let mut entries = entries;
                entries.push((name.to_owned(), value));
                assert(entry_views(entries@).drop_last() =~= views);
                Json::Object(entries)
            },
            other => other,
        }
    }

    /// The member of an object by its name.
    pub fn get(&self, name: &str) -> (r: Option<&Json>)
        ensures
            r is Some <==> self@.get(name@) is Some,
            r matches Some(json) ==> self@.get(name@) == Some(json@),
    {
        match self {
            Json::Object(entries) => {
                let ghost views = entry_views(entries@);
                let mut i: usize = entries.len();
                while i > 0
                    invariant
                        i <= entries@.len(),
                        views == entry_views(entries@),
                        self@ == object(views),
                        forall|j: int| i <= j < views.len() ==> (#[trigger] views[j]).0 != name@,
                    decreases i,
                {
                    i = i - 1;
                    assert(views[i as int].0 == entries@[i as int].0@);
                    if same_text(entries[i].0.as_str(), name) {
                        proof {
                            lemma_members_last(views, i as int);
                        }
                        return Some(&entries[i].1);
                    }
                }
                proof {
                    lemma_members_absent(views, name@);
                }
                None
            },
            _ => None,
        }
    }

    /// The item of an array by its position.
    pub fn at(&self, i: usize) -> (r: Option<&Json>)
        ensures
            r is Some <==> self@.at(i as int) is Some,
            r matches Some(json) ==> self@.at(i as int) == Some(json@),
    {
        match self {
            Json::Array(items) => if i < items.len() {
                assert(item_views(items@)[i as int] == items@[i as int]@);
                Some(&items[i])
            } else {
                None
            },
            _ => None,
        }
    }

    /// The characters of a JSON string.
    pub fn as_str(&self) -> (r: Option<&str>)
        ensures
            r is Some <==> self@.text() is Some,
            r matches Some(s) ==> self@.text() == Some(s@),
    {
        match self {
            Json::Text(s) => Some(s.as_str()),
            _ => None,
        }
    }

    /// The items of an array.
    pub fn as_array(&self) -> (r: Option<&Vec<Json>>)
        ensures
            r is Some <==> self@.items() is Some,
            r matches Some(items) ==> self@.items() == Some(item_views(items@)),
    {
        match self {
            Json::Array(items) => Some(items),
            _ => None,
        }
    }

    /// Whether the value is an object.
    pub fn is_object(&self) -> (r: bool)
        ensures
            r == (self@ is Object),
    {
        match self {
            Json::Object(_) => true,
            _ => false,
        }
    }

    /// The number, where it is an integer of 64 bits without a sign.
    pub fn as_u64(&self) -> (r: Option<u64>)
        ensures
            r == self@.unsigned(),
    {
        match self {
            Json::Unsigned(n) => Some(*n),
            Json::Number(n) => number_unsigned(n),
            _ => None,
        }
    }

    /// A value that holds the same.
    pub fn copy(&self) -> (r: Json)
        ensures
            r@ == self@,
        decreases self,
    {
        match self {
            Json::Null => Json::Null,
            Json::Bool(b) => Json::Bool(*b),
            Json::Unsigned(n) => Json::Unsigned(*n),
            Json::Number(n) => Json::Number(copy_number(n)),
            Json::Text(s) => Json::Text(s.clone()),
            Json::Array(items) => {
                let mut copies: Vec<Json> = Vec::new();
                for i in 0..items.len()
                    invariant
                        decreases_to!(self => items@),
                        copies@.len() == i,
                        forall|j: int| 0 <= j < i ==> (#[trigger] copies@[j])@ == items@[j]@,
                {
                    assert(decreases_to!(items@ => items@[i as int]));
                    copies.push(items[i].copy());
                }
                assert(item_views(copies@) =~= item_views(items@));
                Json::Array(copies)
            },
            Json::Object(entries) => {
                let mut copies: Vec<(String, Json)> = Vec::new();
                for i in 0..entries.len()
                    invariant
                        decreases_to!(self => entries@),
                        copies@.len() == i,
                        forall|j: int|
                            0 <= j < i ==> (#[trigger] copies@[j]).0@ == entries@[j].0@
                                && copies@[j].1@ == entries@[j].1@,
                {
                    assert(decreases_to!(entries@ => entries@[i as int]));
                    copies.push((entries[i].0.clone(), entries[i].1.copy()));
                }
                assert(entry_views(copies@) =~= entry_views(entries@));
                Json::Object(copies)
            },
        }
    }
}

} // verus!
