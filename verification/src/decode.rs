//! Decoding server payloads: JSON-RPC bodies read by `serde_json`, and
//! replies checked against the protocol's types by `lsp-types`, then read
//! into the library's types.
use vstd::prelude::*;
use crate::json::{
    Json, JsonValue, JsonNumber, NumberModel, model_items, lemma_model_items, model_members, lemma_model_members,
    lemma_model_items_push, lemma_model_members_push, member_index, first_key_index,
};
use crate::strings::owned;
use crate::text::{LspPosition, LspRange};
use crate::parse::{DefinitionResponse, ProtocolLocation, ProtocolLocationLink, ProtocolTextEdit};
use crate::hover::{
    Documentation, HoverContents, MarkedString, MarkupKind, ParameterInformation, ParameterLabel, SignatureHelp,
    SignatureInformation,
};
use crate::sync::{TextDocumentSyncCapability, TextDocumentSyncKind};
use crate::types::LspClientError;
use serde_json::Value;

verus! {

/// A `serde_json` value, carried through the decoding wrappers.
#[verifier::external_type_specification]
#[verifier::external_body]
pub struct ExSerdeJsonValue(Value);

/// The library's JSON value for a `serde_json` value, variant by variant
/// (integers as integers, other numbers by their text).
#[verifier::external_body]
pub(crate) fn json_of_serde(value: &Value) -> JsonValue {
    match value {
        Value::Null => JsonValue::Null,
        Value::Bool(b) => JsonValue::Bool(*b),
        Value::Number(n) => JsonValue::Number(match (n.as_u64(), n.as_i64()) {
            (Some(u), _) => JsonNumber::PosInt(u),
            (None, Some(i)) => JsonNumber::NegInt(i),
            _ => JsonNumber::Float(n.to_string()),
        }),
        Value::String(s) => JsonValue::String(s.clone()),
        Value::Array(items) => JsonValue::Array(items.iter().map(json_of_serde).collect()),
        Value::Object(map) => JsonValue::Object(map.iter().map(|(k, v)| (k.clone(), json_of_serde(v))).collect()),
    }
}

/// The `serde_json` value for a JSON value of the library, variant by
/// variant, or the error text of a number whose text does not read as a
/// JSON number. Objects are expected with each key once (see `dedup_json`).
#[verifier::external_body]
pub(crate) fn serde_of_json(value: &JsonValue) -> Result<Value, String> {
    Ok(match value {
        JsonValue::Null => Value::Null,
        JsonValue::Bool(b) => Value::Bool(*b),
        JsonValue::Number(JsonNumber::PosInt(u)) => Value::from(*u),
        JsonValue::Number(JsonNumber::NegInt(i)) => Value::from(*i),
        JsonValue::Number(JsonNumber::Float(t)) => Value::Number(t.parse().map_err(|e: serde_json::Error| e.to_string())?),
        JsonValue::String(s) => Value::String(s.clone()),
        JsonValue::Array(items) => Value::Array(items.iter().map(serde_of_json).collect::<Result<_, _>>()?),
        JsonValue::Object(ms) => serde_object_of(ms)?,
    })
}

/// The `serde_json` object for the members of a JSON object of the library,
/// member by member (see `serde_of_json`).
#[verifier::external_body]
fn serde_object_of(members: &Vec<(String, JsonValue)>) -> Result<Value, String> {
    Ok(Value::Object(members.iter().map(|(k, v)| Ok((k.clone(), serde_of_json(v)?))).collect::<Result<_, String>>()?))
}


/// The value with only the first member of each key kept in every object,
/// at any depth: what lookups in the library see, and what is handed to
/// `serde_json`.
pub open spec fn dedup_spec(j: Json) -> Json
    decreases j,
{
    match j {
        Json::Array(items) => Json::Array(dedup_items(items)),
        Json::Object(members) => Json::Object(dedup_members(members)),
        _ => j,
    }
}

pub open spec fn dedup_items(items: Seq<Json>) -> Seq<Json>
    decreases items,
{
    if items.len() == 0 {
        Seq::empty()
    } else {
        dedup_items(items.subrange(0, items.len() - 1)).push(dedup_spec(items[items.len() - 1]))
    }
}

pub open spec fn dedup_members(members: Seq<(Seq<char>, Json)>) -> Seq<(Seq<char>, Json)>
    decreases members,
{
    if members.len() == 0 {
        Seq::empty()
    } else {
        let rest = dedup_members(members.subrange(0, members.len() - 1));
        let k = members[members.len() - 1].0;
        if first_key_index(rest, k) is Some {
            rest
        } else {
            rest.push((k, dedup_spec(members[members.len() - 1].1)))
        }
    }
}

/// The value with only the first member of each key kept, at any depth.
pub fn dedup_json(value: &JsonValue) -> (r: JsonValue)
    ensures
        r.model() == dedup_spec(value.model()),
    decreases value,
{
    match value {
        JsonValue::Array(items) => {
            let mut out: Vec<JsonValue> = Vec::new();
            let mut i: usize = 0;
            proof {
                lemma_model_items(items@);
            }
            let ghost im = model_items(items@);
            while i < items.len()
                invariant
                    *value == JsonValue::Array(*items),
                    im == model_items(items@),
                    im.len() == items@.len(),
                    forall|k: int| 0 <= k < items@.len() ==> #[trigger] im[k] == items@[k].model(),
                    i <= items@.len(),
                    model_items(out@) == dedup_items(im.take(i as int)),
                decreases items@.len() - i,
            {
                proof {
                    vstd::std_specs::vec::axiom_vec_index_decreases(*items, i as int);
                    assert(decreases_to!(*value => (*value)->Array_0));
                    assert(decreases_to!(*value => items@[i as int]));
                    assert(im.take(i + 1).subrange(0, i as int) =~= im.take(i as int));
                }
                let v = dedup_json(&items[i]);
                proof {
                    lemma_model_items_push(out@, v);
                }
                out.push(v);
                i += 1;
            }
            proof {
                assert(im.take(items@.len() as int) =~= im);
            }
            JsonValue::Array(out)
        },
        JsonValue::Object(members) => {
            let mut out: Vec<(String, JsonValue)> = Vec::new();
            let mut i: usize = 0;
            proof {
                lemma_model_members(members@);
            }
            let ghost mm = model_members(members@);
            while i < members.len()
                invariant
                    *value == JsonValue::Object(*members),
                    mm == model_members(members@),
                    mm.len() == members@.len(),
                    forall|k: int|
                        0 <= k < members@.len() ==> #[trigger] mm[k] == (members@[k].0@, members@[k].1.model()),
                    i <= members@.len(),
                    model_members(out@) == dedup_members(mm.take(i as int)),
                decreases members@.len() - i,
            {
                proof {
                    vstd::std_specs::vec::axiom_vec_index_decreases(*members, i as int);
                    assert(decreases_to!(*value => (*value)->Object_0));
                    assert(decreases_to!(members@[i as int] => members@[i as int].1));
                    assert(decreases_to!(*value => members@[i as int].1));
                    assert(mm.take(i + 1).subrange(0, i as int) =~= mm.take(i as int));
                }
                match member_index(&out, members[i].0.as_str()) {
                    Some(_) => {},
                    None => {
                        let key = members[i].0.clone();
                        let v = dedup_json(&members[i].1);
                        proof {
                            lemma_model_members_push(out@, (key, v));
                        }
                        out.push((key, v));
                    },
                }
                i += 1;
            }
            proof {
                assert(mm.take(members@.len() as int) =~= mm);
            }
            JsonValue::Object(out)
        },
        _ => value.clone(),
    }
}

/// A decoding outcome as plain values.
pub open spec fn outcome_model(r: Result<JsonValue, String>) -> Result<Json, Seq<char>> {
    match r {
        Ok(v) => Ok(v.model()),
        Err(e) => Err(e@),
    }
}

/// What `serde_json::from_slice` reads from `bytes`: the JSON value, or the
/// display text of its error.
pub uninterp spec fn json_from_bytes(bytes: Seq<u8>) -> Result<Json, Seq<char>>;

/// `serde_json::from_slice::<serde_json::Value>` on a message body, its
/// value converted; the result is named by `json_from_bytes`.
#[verifier::external_body]
fn json_body(body: &[u8]) -> (r: Result<JsonValue, String>)
    ensures
        outcome_model(r) == json_from_bytes(body@),
{
    serde_json::from_slice::<serde_json::Value>(body).map(|v| json_of_serde(&v)).map_err(|e| e.to_string())
}

/// What `lsp_types::HoverContents` makes of a JSON value: the value it
/// decodes to, written back as JSON by `serde_json::to_value`, or the error's
/// text (a number whose text does not read as a JSON number gives its own
/// error).
pub uninterp spec fn hover_contents_decode(j: Json) -> Result<Json, Seq<char>>;

/// Decodes hover contents as `lsp_types::HoverContents` and writes them back.
#[verifier::external_body]
fn hover_contents_normalized(value: &JsonValue) -> (r: Result<JsonValue, String>)
    ensures
        outcome_model(r) == hover_contents_decode(value.model()),
{
    match serde_json::from_value::<lsp_types::HoverContents>(serde_of_json(value)?) {
        Ok(t) => serde_json::to_value(t).map(|v| json_of_serde(&v)).map_err(|e| e.to_string()),
        Err(e) => Err(e.to_string()),
    }
}

/// What `Option<lsp_types::GotoDefinitionResponse>` makes of a JSON value,
/// written back as JSON, or the error's text (a number whose text does not
/// read as a JSON number gives its own error).
pub uninterp spec fn definition_decode(j: Json) -> Result<Json, Seq<char>>;

#[verifier::external_body]
fn definition_normalized(value: &JsonValue) -> (r: Result<JsonValue, String>)
    ensures
        outcome_model(r) == definition_decode(value.model()),
{
    match serde_json::from_value::<Option<lsp_types::GotoDefinitionResponse>>(serde_of_json(value)?) {
        Ok(t) => serde_json::to_value(t).map(|v| json_of_serde(&v)).map_err(|e| e.to_string()),
        Err(e) => Err(e.to_string()),
    }
}

/// What `Vec<lsp_types::Location>` makes of a JSON value, written back as
/// JSON, or the error's text (a number whose text does not read as a JSON
/// number gives its own error).
pub uninterp spec fn locations_decode(j: Json) -> Result<Json, Seq<char>>;

#[verifier::external_body]
fn locations_normalized(value: &JsonValue) -> (r: Result<JsonValue, String>)
    ensures
        outcome_model(r) == locations_decode(value.model()),
{
    match serde_json::from_value::<Vec<lsp_types::Location>>(serde_of_json(value)?) {
        Ok(t) => serde_json::to_value(t).map(|v| json_of_serde(&v)).map_err(|e| e.to_string()),
        Err(e) => Err(e.to_string()),
    }
}

/// What `Option<Vec<lsp_types::TextEdit>>` makes of a JSON value, written
/// back as JSON, or the error's text (a number whose text does not read as a
/// JSON number gives its own error).
pub uninterp spec fn text_edits_decode(j: Json) -> Result<Json, Seq<char>>;

#[verifier::external_body]
fn text_edits_normalized(value: &JsonValue) -> (r: Result<JsonValue, String>)
    ensures
        outcome_model(r) == text_edits_decode(value.model()),
{
    match serde_json::from_value::<Option<Vec<lsp_types::TextEdit>>>(serde_of_json(value)?) {
        Ok(t) => serde_json::to_value(t).map(|v| json_of_serde(&v)).map_err(|e| e.to_string()),
        Err(e) => Err(e.to_string()),
    }
}

/// What `lsp_types::InitializeResult` makes of a JSON value, written back as
/// JSON, or the error's text (a number whose text does not read as a JSON
/// number gives its own error).
pub uninterp spec fn initialize_result_decode(j: Json) -> Result<Json, Seq<char>>;

#[verifier::external_body]
fn initialize_result_normalized(value: &JsonValue) -> (r: Result<JsonValue, String>)
    ensures
        outcome_model(r) == initialize_result_decode(value.model()),
{
    match serde_json::from_value::<lsp_types::InitializeResult>(serde_of_json(value)?) {
        Ok(t) => serde_json::to_value(t).map(|v| json_of_serde(&v)).map_err(|e| e.to_string()),
        Err(e) => Err(e.to_string()),
    }
}

/// The error of a JSON-RPC body that does not parse.
pub open spec fn payload_error_text(e: Seq<char>) -> Seq<char> {
    "failed to parse JSON-RPC payload: "@ + e
}

/// Parses a JSON-RPC message body.
pub fn parse_json_body(body: &[u8]) -> (r: Result<JsonValue, LspClientError>)
    ensures
        match (r, json_from_bytes(body@)) {
            (Ok(v), Ok(j)) => v.model() == j,
            (Err(LspClientError::Protocol(m)), Err(e)) => m@ == payload_error_text(e),
            _ => false,
        },
{
    match json_body(body) {
        Ok(v) => Ok(v),
        Err(e) => {
            let mut m = owned("failed to parse JSON-RPC payload: ");
            m.append(e.as_str());
            Err(LspClientError::Protocol(m))
        },
    }
}


// ---------------------------------------------------------------------------
// Reading decoded replies
// ---------------------------------------------------------------------------

/// A 32-bit unsigned number.
pub open spec fn u32_of(j: Option<Json>) -> Option<u32> {
    match Json::u64_opt(j) {
        Some(n) => if n <= u32::MAX as u64 {
            Some(n as u32)
        } else {
            None
        },
        None => None,
    }
}

/// `{"line": l, "character": c}`.
pub open spec fn position_of(j: Option<Json>) -> Option<LspPosition> {
    match (u32_of(Json::get_opt(j, "line"@)), u32_of(Json::get_opt(j, "character"@))) {
        (Some(l), Some(c)) => Some(LspPosition { line: l, character: c }),
        _ => None,
    }
}

/// `{"start": …, "end": …}`.
pub open spec fn range_of(j: Option<Json>) -> Option<LspRange> {
    match (position_of(Json::get_opt(j, "start"@)), position_of(Json::get_opt(j, "end"@))) {
        (Some(a), Some(b)) => Some(LspRange { start: a, end: b }),
        _ => None,
    }
}

/// A location: `uri` and `range`.
#[verifier::opaque]
pub open spec fn location_of(j: Json) -> Option<(Seq<char>, LspRange)> {
    match (Json::str_opt(j.get("uri"@)), range_of(j.get("range"@))) {
        (Some(u), Some(r)) => Some((u, r)),
        _ => None,
    }
}

/// A location link: `targetUri` and `targetSelectionRange`.
#[verifier::opaque]
pub open spec fn link_of(j: Json) -> Option<(Seq<char>, LspRange)> {
    match (Json::str_opt(j.get("targetUri"@)), range_of(j.get("targetSelectionRange"@))) {
        (Some(u), Some(r)) => Some((u, r)),
        _ => None,
    }
}

/// A text edit: `range` and `newText`.
#[verifier::opaque]
pub open spec fn edit_of(j: Json) -> Option<(LspRange, Seq<char>)> {
    match (range_of(j.get("range"@)), Json::str_opt(j.get("newText"@))) {
        (Some(r), Some(t)) => Some((r, t)),
        _ => None,
    }
}

/// Each item read by `f`, when all of them read.
pub open spec fn each_of<T>(items: Seq<Json>, f: spec_fn(Json) -> Option<T>) -> Option<Seq<T>>
    decreases items.len(),
{
    if items.len() == 0 {
        Some(Seq::empty())
    } else {
        match (each_of(items.drop_last(), f), f(items.last())) {
            (Some(a), Some(b)) => Some(a.push(b)),
            _ => None,
        }
    }
}

proof fn lemma_each_of_prefix<T>(items: Seq<Json>, f: spec_fn(Json) -> Option<T>, k: int)
    requires
        0 <= k <= items.len(),
        each_of(items, f) is Some,
    ensures
        each_of(items.take(k), f) is Some,
    decreases items.len(),
{
    if k == items.len() {
        assert(items.take(k) =~= items);
    } else {
        lemma_each_of_prefix(items.drop_last(), f, k);
        assert(items.drop_last().take(k) =~= items.take(k));
    }
}

proof fn lemma_each_of_step<T>(items: Seq<Json>, f: spec_fn(Json) -> Option<T>, i: int)
    requires
        0 <= i < items.len(),
    ensures
        each_of(items.take(i + 1), f) == match (each_of(items.take(i), f), f(items[i])) {
            (Some(a), Some(b)) => Some(a.push(b)),
            _ => None::<Seq<T>>,
        },
{
    assert(items.take(i + 1).drop_last() =~= items.take(i));
}

pub open spec fn location_view(l: ProtocolLocation) -> (Seq<char>, LspRange) {
    (l.uri@, l.range)
}

pub open spec fn link_view(l: ProtocolLocationLink) -> (Seq<char>, LspRange) {
    (l.target_uri@, l.target_selection_range)
}

pub open spec fn edit_view(e: ProtocolTextEdit) -> (LspRange, Seq<char>) {
    (e.range, e.new_text@)
}

fn read_u32(j: Option<&JsonValue>) -> (r: Option<u32>)
    ensures
        r == u32_of(crate::json::model_opt(j)),
{
    match j {
        Some(v) => match v.as_u64() {
            Some(n) => if n <= 0xffff_ffff {
                Some(n as u32)
            } else {
                None
            },
            None => None,
        },
        None => None,
    }
}

fn field<'a>(j: Option<&'a JsonValue>, key: &str) -> (r: Option<&'a JsonValue>)
    ensures
        crate::json::model_opt(r) == Json::get_opt(crate::json::model_opt(j), key@),
{
    match j {
        Some(v) => v.get(key),
        None => None,
    }
}

fn read_position(j: Option<&JsonValue>) -> (r: Option<LspPosition>)
    ensures
        r == position_of(crate::json::model_opt(j)),
{
    match (read_u32(field(j, "line")), read_u32(field(j, "character"))) {
        (Some(l), Some(c)) => Some(LspPosition { line: l, character: c }),
        _ => None,
    }
}

fn read_range(j: Option<&JsonValue>) -> (r: Option<LspRange>)
    ensures
        r == range_of(crate::json::model_opt(j)),
{
    match (read_position(field(j, "start")), read_position(field(j, "end"))) {
        (Some(a), Some(b)) => Some(LspRange { start: a, end: b }),
        _ => None,
    }
}

fn read_str(j: Option<&JsonValue>) -> (r: Option<String>)
    ensures
        crate::types::opt_view(r) == Json::str_opt(crate::json::model_opt(j)),
{
    match j {
        Some(v) => match v.as_str() {
            Some(t) => Some(owned(t)),
            None => None,
        },
        None => None,
    }
}

fn read_location(j: &JsonValue) -> (r: Option<ProtocolLocation>)
    ensures
        match r {
            Some(l) => location_of(j.model()) == Some(location_view(l)),
            None => location_of(j.model()) is None,
        },
{
    proof {
        reveal(location_of);
    }
    match (read_str(j.get("uri")), read_range(j.get("range"))) {
        (Some(u), Some(r)) => Some(ProtocolLocation { uri: u, range: r }),
        _ => None,
    }
}

fn read_link(j: &JsonValue) -> (r: Option<ProtocolLocationLink>)
    ensures
        match r {
            Some(l) => link_of(j.model()) == Some(link_view(l)),
            None => link_of(j.model()) is None,
        },
{
    proof {
        reveal(link_of);
    }
    match (read_str(j.get("targetUri")), read_range(j.get("targetSelectionRange"))) {
        (Some(u), Some(r)) => Some(ProtocolLocationLink { target_uri: u, target_selection_range: r }),
        _ => None,
    }
}

fn read_edit(j: &JsonValue) -> (r: Option<ProtocolTextEdit>)
    ensures
        match r {
            Some(e) => edit_of(j.model()) == Some(edit_view(e)),
            None => edit_of(j.model()) is None,
        },
{
    proof {
        reveal(edit_of);
    }
    match (read_range(j.get("range")), read_str(j.get("newText"))) {
        (Some(r), Some(t)) => Some(ProtocolTextEdit { range: r, new_text: t }),
        _ => None,
    }
}

fn read_locations(items: &Vec<JsonValue>) -> (r: Option<Vec<ProtocolLocation>>)
    ensures
        match r {
            Some(v) => each_of(model_items(items@), |j: Json| location_of(j)) == Some(
                v@.map_values(|l: ProtocolLocation| location_view(l)),
            ),
            None => each_of(model_items(items@), |j: Json| location_of(j)) is None,
        },
{
    let ghost ms = model_items(items@);
    let ghost f = |j: Json| location_of(j);
    proof {
        lemma_model_items(items@);
        assert(ms.take(0) =~= Seq::<Json>::empty());
    }
    let mut out: Vec<ProtocolLocation> = Vec::new();
    let mut i: usize = 0;
    while i < items.len()
        invariant
            ms == model_items(items@),
            ms.len() == items@.len(),
            forall|k: int| 0 <= k < items@.len() ==> #[trigger] ms[k] == items@[k].model(),
            f == (|j: Json| location_of(j)),
            i <= items@.len(),
            each_of(ms.take(i as int), f) == Some(out@.map_values(|l: ProtocolLocation| location_view(l))),
        decreases items@.len() - i,
    {
        proof {
            lemma_each_of_step(ms, f, i as int);
        }
        match read_location(&items[i]) {
            Some(l) => {
                proof {
                    assert(out@.push(l).map_values(|l: ProtocolLocation| location_view(l)) =~= out@.map_values(
                        |l: ProtocolLocation| location_view(l),
                    ).push(location_view(l)));
                }
                out.push(l);
            },
            None => {
                proof {
                    if each_of(ms, f) is Some {
                        lemma_each_of_prefix(ms, f, i + 1);
                    }
                }
                return None;
            },
        }
        i += 1;
    }
    proof {
        assert(ms.take(ms.len() as int) =~= ms);
    }
    Some(out)
}

fn read_links(items: &Vec<JsonValue>) -> (r: Option<Vec<ProtocolLocationLink>>)
    ensures
        match r {
            Some(v) => each_of(model_items(items@), |j: Json| link_of(j)) == Some(
                v@.map_values(|l: ProtocolLocationLink| link_view(l)),
            ),
            None => each_of(model_items(items@), |j: Json| link_of(j)) is None,
        },
{
    let ghost ms = model_items(items@);
    let ghost f = |j: Json| link_of(j);
    proof {
        lemma_model_items(items@);
        assert(ms.take(0) =~= Seq::<Json>::empty());
    }
    let mut out: Vec<ProtocolLocationLink> = Vec::new();
    let mut i: usize = 0;
    while i < items.len()
        invariant
            ms == model_items(items@),
            ms.len() == items@.len(),
            forall|k: int| 0 <= k < items@.len() ==> #[trigger] ms[k] == items@[k].model(),
            f == (|j: Json| link_of(j)),
            i <= items@.len(),
            each_of(ms.take(i as int), f) == Some(out@.map_values(|l: ProtocolLocationLink| link_view(l))),
        decreases items@.len() - i,
    {
        proof {
            lemma_each_of_step(ms, f, i as int);
        }
        match read_link(&items[i]) {
            Some(l) => {
                proof {
                    assert(out@.push(l).map_values(|l: ProtocolLocationLink| link_view(l)) =~= out@.map_values(
                        |l: ProtocolLocationLink| link_view(l),
                    ).push(link_view(l)));
                }
                out.push(l);
            },
            None => {
                proof {
                    if each_of(ms, f) is Some {
                        lemma_each_of_prefix(ms, f, i + 1);
                    }
                }
                return None;
            },
        }
        i += 1;
    }
    proof {
        assert(ms.take(ms.len() as int) =~= ms);
    }
    Some(out)
}

fn read_edits(items: &Vec<JsonValue>) -> (r: Option<Vec<ProtocolTextEdit>>)
    ensures
        match r {
            Some(v) => each_of(model_items(items@), |j: Json| edit_of(j)) == Some(
                v@.map_values(|e: ProtocolTextEdit| edit_view(e)),
            ),
            None => each_of(model_items(items@), |j: Json| edit_of(j)) is None,
        },
{
    let ghost ms = model_items(items@);
    let ghost f = |j: Json| edit_of(j);
    proof {
        lemma_model_items(items@);
        assert(ms.take(0) =~= Seq::<Json>::empty());
    }
    let mut out: Vec<ProtocolTextEdit> = Vec::new();
    let mut i: usize = 0;
    while i < items.len()
        invariant
            ms == model_items(items@),
            ms.len() == items@.len(),
            forall|k: int| 0 <= k < items@.len() ==> #[trigger] ms[k] == items@[k].model(),
            f == (|j: Json| edit_of(j)),
            i <= items@.len(),
            each_of(ms.take(i as int), f) == Some(out@.map_values(|e: ProtocolTextEdit| edit_view(e))),
        decreases items@.len() - i,
    {
        proof {
            lemma_each_of_step(ms, f, i as int);
        }
        match read_edit(&items[i]) {
            Some(e) => {
                proof {
                    assert(out@.push(e).map_values(|e: ProtocolTextEdit| edit_view(e)) =~= out@.map_values(
                        |e: ProtocolTextEdit| edit_view(e),
                    ).push(edit_view(e)));
                }
                out.push(e);
            },
            None => {
                proof {
                    if each_of(ms, f) is Some {
                        lemma_each_of_prefix(ms, f, i + 1);
                    }
                }
                return None;
            },
        }
        i += 1;
    }
    proof {
        assert(ms.take(ms.len() as int) =~= ms);
    }
    Some(out)
}


/// A marked string as plain values.
pub enum MarkedView {
    Plain(Seq<char>),
    Code(Seq<char>, Seq<char>),
}

/// Hover contents as plain values.
pub enum ContentsView {
    Scalar(MarkedView),
    Array(Seq<MarkedView>),
    Markup(MarkupKind, Seq<char>),
}

pub open spec fn marked_view(m: MarkedString) -> MarkedView {
    match m {
        MarkedString::String(t) => MarkedView::Plain(t@),
        MarkedString::LanguageString { language, value } => MarkedView::Code(language@, value@),
    }
}

pub open spec fn contents_view(h: HoverContents) -> ContentsView {
    match h {
        HoverContents::Scalar(m) => ContentsView::Scalar(marked_view(m)),
        HoverContents::Array(ms) => ContentsView::Array(ms@.map_values(|m: MarkedString| marked_view(m))),
        HoverContents::Markup { kind, value } => ContentsView::Markup(kind, value@),
    }
}

/// A marked string: a string, or `{"language": …, "value": …}`.
#[verifier::opaque]
pub open spec fn marked_of(j: Json) -> Option<MarkedView> {
    match j {
        Json::Str(t) => Some(MarkedView::Plain(t)),
        _ => match (Json::str_opt(j.get("language"@)), Json::str_opt(j.get("value"@))) {
            (Some(l), Some(v)) => Some(MarkedView::Code(l, v)),
            _ => None,
        },
    }
}

/// A markup kind by its protocol name.
pub open spec fn markup_kind_of(j: Option<Json>) -> Option<MarkupKind> {
    match Json::str_opt(j) {
        Some(k) => if k == "plaintext"@ {
            Some(MarkupKind::PlainText)
        } else if k == "markdown"@ {
            Some(MarkupKind::Markdown)
        } else {
            None
        },
        None => None,
    }
}

/// Hover contents: an array of marked strings, a markup object (it has a
/// `kind`), or one marked string.
pub open spec fn contents_of(j: Json) -> Option<ContentsView> {
    match j {
        Json::Array(items) => match each_of(items, |x: Json| marked_of(x)) {
            Some(ms) => Some(ContentsView::Array(ms)),
            None => None,
        },
        _ => if j.get("kind"@) is Some {
            match (markup_kind_of(j.get("kind"@)), Json::str_opt(j.get("value"@))) {
                (Some(k), Some(v)) => Some(ContentsView::Markup(k, v)),
                _ => None,
            }
        } else {
            match marked_of(j) {
                Some(m) => Some(ContentsView::Scalar(m)),
                None => None,
            }
        },
    }
}

fn read_marked(j: &JsonValue) -> (r: Option<MarkedString>)
    ensures
        match r {
            Some(m) => marked_of(j.model()) == Some(marked_view(m)),
            None => marked_of(j.model()) is None,
        },
{
    proof {
        reveal(marked_of);
    }
    match j.as_str() {
        Some(t) => return Some(MarkedString::String(owned(t))),
        None => {},
    }
    match (read_str(j.get("language")), read_str(j.get("value"))) {
        (Some(l), Some(v)) => Some(MarkedString::LanguageString { language: l, value: v }),
        _ => None,
    }
}

fn read_marked_all(items: &Vec<JsonValue>) -> (r: Option<Vec<MarkedString>>)
    ensures
        match r {
            Some(v) => each_of(model_items(items@), |j: Json| marked_of(j)) == Some(
                v@.map_values(|m: MarkedString| marked_view(m)),
            ),
            None => each_of(model_items(items@), |j: Json| marked_of(j)) is None,
        },
{
    let ghost ms = model_items(items@);
    let ghost f = |j: Json| marked_of(j);
    proof {
        lemma_model_items(items@);
        assert(ms.take(0) =~= Seq::<Json>::empty());
    }
    let mut out: Vec<MarkedString> = Vec::new();
    let mut i: usize = 0;
    while i < items.len()
        invariant
            ms == model_items(items@),
            ms.len() == items@.len(),
            forall|k: int| 0 <= k < items@.len() ==> #[trigger] ms[k] == items@[k].model(),
            f == (|j: Json| marked_of(j)),
            i <= items@.len(),
            each_of(ms.take(i as int), f) == Some(out@.map_values(|m: MarkedString| marked_view(m))),
        decreases items@.len() - i,
    {
        proof {
            lemma_each_of_step(ms, f, i as int);
        }
        match read_marked(&items[i]) {
            Some(m) => {
                let ghost mv = marked_view(m);
                proof {
                    assert(out@.push(m).map_values(|m: MarkedString| marked_view(m)) =~= out@.map_values(
                        |m: MarkedString| marked_view(m),
                    ).push(mv));
                }
                out.push(m);
            },
            None => {
                proof {
                    if each_of(ms, f) is Some {
                        lemma_each_of_prefix(ms, f, i + 1);
                    }
                }
                return None;
            },
        }
        i += 1;
    }
    proof {
        assert(ms.take(ms.len() as int) =~= ms);
    }
    Some(out)
}

fn read_markup_kind(j: Option<&JsonValue>) -> (r: Option<MarkupKind>)
    ensures
        r == markup_kind_of(crate::json::model_opt(j)),
{
    proof {
        reveal_strlit("plaintext");
        reveal_strlit("markdown");
    }
    match j {
        Some(v) => match v.as_str() {
            Some(k) => if crate::strings::str_eq(k, "plaintext") {
                Some(MarkupKind::PlainText)
            } else if crate::strings::str_eq(k, "markdown") {
                Some(MarkupKind::Markdown)
            } else {
                None
            },
            None => None,
        },
        None => None,
    }
}

fn read_contents(j: &JsonValue) -> (r: Option<HoverContents>)
    ensures
        match r {
            Some(h) => contents_of(j.model()) == Some(contents_view(h)),
            None => contents_of(j.model()) is None,
        },
{
    match j.as_array() {
        Some(items) => {
            return match read_marked_all(items) {
                Some(ms) => Some(HoverContents::Array(ms)),
                None => None,
            };
        },
        None => {},
    }
    match j.get("kind") {
        Some(_) => match (read_markup_kind(j.get("kind")), read_str(j.get("value"))) {
            (Some(k), Some(v)) => Some(HoverContents::Markup { kind: k, value: v }),
            _ => None,
        },
        None => match read_marked(j) {
            Some(m) => Some(HoverContents::Scalar(m)),
            None => None,
        },
    }
}

/// Hover contents as a `textDocument/hover` reply holds them: none when
/// `lsp-types` does not decode them.
pub open spec fn hover_reply_spec(j: Json) -> Option<ContentsView> {
    match hover_contents_decode(dedup_spec(j)) {
        Ok(n) => contents_of(n),
        Err(_) => None,
    }
}

/// The hover contents of a `textDocument/hover` reply, if they decode.
pub fn decode_hover_contents(contents: &JsonValue) -> (r: Option<HoverContents>)
    ensures
        match r {
            Some(h) => hover_reply_spec(contents.model()) == Some(contents_view(h)),
            None => hover_reply_spec(contents.model()) is None,
        },
{
    match hover_contents_normalized(&dedup_json(contents)) {
        Ok(n) => read_contents(&n),
        Err(_) => None,
    }
}

/// The text of a value that decodes but does not read as expected.
pub open spec fn unreadable_text() -> Seq<char> {
    "unexpected value"@
}

/// `failed to decode <what> response from `<server>`: <error>`.
pub open spec fn decode_error_text(what: Seq<char>, server_id: Seq<char>, e: Seq<char>) -> Seq<char> {
    "failed to decode "@ + what + " response from `"@ + server_id + "`: "@ + e
}

fn decode_error(what: &str, server_id: &str, e: &str) -> (r: LspClientError)
    ensures
        r matches LspClientError::Protocol(m) && m@ == decode_error_text(what@, server_id@, e@),
{
    let mut m = owned("failed to decode ");
    m.append(what);
    m.append(" response from `");
    m.append(server_id);
    m.append("`: ");
    m.append(e);
    LspClientError::Protocol(m)
}

/// A definition reply as plain values.
pub enum DefinitionView {
    Scalar((Seq<char>, LspRange)),
    Array(Seq<(Seq<char>, LspRange)>),
    Link(Seq<(Seq<char>, LspRange)>),
}

pub open spec fn definition_view(d: DefinitionResponse) -> DefinitionView {
    match d {
        DefinitionResponse::Scalar(l) => DefinitionView::Scalar(location_view(l)),
        DefinitionResponse::Array(ls) => DefinitionView::Array(ls@.map_values(|l: ProtocolLocation| location_view(l))),
        DefinitionResponse::Link(ls) => DefinitionView::Link(ls@.map_values(|l: ProtocolLocationLink| link_view(l))),
    }
}

/// A decoded definition reply: `null`, one location, locations, or links.
pub open spec fn definition_of(j: Json) -> Option<Option<DefinitionView>> {
    match j {
        Json::Null => Some(None),
        Json::Array(items) => match each_of(items, |x: Json| location_of(x)) {
            Some(ls) => Some(Some(DefinitionView::Array(ls))),
            None => match each_of(items, |x: Json| link_of(x)) {
                Some(ls) => Some(Some(DefinitionView::Link(ls))),
                None => None,
            },
        },
        _ => match location_of(j) {
            Some(l) => Some(Some(DefinitionView::Scalar(l))),
            None => None,
        },
    }
}

/// A `textDocument/definition` (or implementation) reply, or the error.
pub open spec fn definition_reply_spec(server_id: Seq<char>, j: Json) -> Result<Option<DefinitionView>, Seq<char>> {
    match definition_decode(dedup_spec(j)) {
        Err(e) => Err(decode_error_text("location"@, server_id, e)),
        Ok(n) => match definition_of(n) {
            Some(d) => Ok(d),
            None => Err(decode_error_text("location"@, server_id, unreadable_text())),
        },
    }
}

pub fn decode_definition_response(server_id: &str, value: &JsonValue) -> (r: Result<
    Option<DefinitionResponse>,
    LspClientError,
>)
    ensures
        match (r, definition_reply_spec(server_id@, value.model())) {
            (Ok(Some(d)), Ok(Some(m))) => definition_view(d) == m,
            (Ok(None), Ok(None)) => true,
            (Err(LspClientError::Protocol(t)), Err(e)) => t@ == e,
            _ => false,
        },
{
    let n = match definition_normalized(&dedup_json(value)) {
        Ok(n) => n,
        Err(e) => return Err(decode_error("location", server_id, e.as_str())),
    };
    if n.is_null() {
        return Ok(None);
    }
    match n.as_array() {
        Some(items) => match read_locations(items) {
            Some(ls) => Ok(Some(DefinitionResponse::Array(ls))),
            None => match read_links(items) {
                Some(ls) => Ok(Some(DefinitionResponse::Link(ls))),
                None => Err(decode_error("location", server_id, "unexpected value")),
            },
        },
        None => match read_location(&n) {
            Some(l) => Ok(Some(DefinitionResponse::Scalar(l))),
            None => Err(decode_error("location", server_id, "unexpected value")),
        },
    }
}

/// A `textDocument/references` reply: none for `null`, else the decoded
/// locations, or the error.
pub open spec fn reference_reply_spec(server_id: Seq<char>, j: Json) -> Result<Seq<(Seq<char>, LspRange)>, Seq<char>> {
    if j is Null {
        Ok(Seq::empty())
    } else {
        match locations_decode(dedup_spec(j)) {
            Err(e) => Err(decode_error_text("reference"@, server_id, e)),
            Ok(n) => match n.as_array() {
                Some(items) => match each_of(items, |x: Json| location_of(x)) {
                    Some(ls) => Ok(ls),
                    None => Err(decode_error_text("reference"@, server_id, unreadable_text())),
                },
                None => Err(decode_error_text("reference"@, server_id, unreadable_text())),
            },
        }
    }
}

pub fn decode_reference_response(server_id: &str, value: &JsonValue) -> (r: Result<Vec<ProtocolLocation>, LspClientError>)
    ensures
        match (r, reference_reply_spec(server_id@, value.model())) {
            (Ok(v), Ok(m)) => v@.map_values(|l: ProtocolLocation| location_view(l)) == m,
            (Err(LspClientError::Protocol(t)), Err(e)) => t@ == e,
            _ => false,
        },
{
    if value.is_null() {
        let v: Vec<ProtocolLocation> = Vec::new();
        proof {
            assert(v@.map_values(|l: ProtocolLocation| location_view(l)) =~= Seq::empty());
        }
        return Ok(v);
    }
    let n = match locations_normalized(&dedup_json(value)) {
        Ok(n) => n,
        Err(e) => return Err(decode_error("reference", server_id, e.as_str())),
    };
    match n.as_array() {
        Some(items) => match read_locations(items) {
            Some(ls) => Ok(ls),
            None => Err(decode_error("reference", server_id, "unexpected value")),
        },
        None => Err(decode_error("reference", server_id, "unexpected value")),
    }
}

/// A formatting reply: none for `null`, else the decoded edits, or the
/// error naming the kind of formatting.
pub open spec fn text_edit_reply_spec(server_id: Seq<char>, format_kind: Seq<char>, j: Json) -> Result<
    Option<Seq<(LspRange, Seq<char>)>>,
    Seq<char>,
> {
    match text_edits_decode(dedup_spec(j)) {
        Err(e) => Err(decode_error_text(format_kind, server_id, e)),
        Ok(Json::Null) => Ok(None),
        Ok(n) => match n.as_array() {
            Some(items) => match each_of(items, |x: Json| edit_of(x)) {
                Some(es) => Ok(Some(es)),
                None => Err(decode_error_text(format_kind, server_id, unreadable_text())),
            },
            None => Err(decode_error_text(format_kind, server_id, unreadable_text())),
        },
    }
}

pub fn decode_text_edit_response(server_id: &str, format_kind: &str, value: &JsonValue) -> (r: Result<
    Option<Vec<ProtocolTextEdit>>,
    LspClientError,
>)
    ensures
        match (r, text_edit_reply_spec(server_id@, format_kind@, value.model())) {
            (Ok(Some(v)), Ok(Some(m))) => v@.map_values(|e: ProtocolTextEdit| edit_view(e)) == m,
            (Ok(None), Ok(None)) => true,
            (Err(LspClientError::Protocol(t)), Err(e)) => t@ == e,
            _ => false,
        },
{
    let n = match text_edits_normalized(&dedup_json(value)) {
        Ok(n) => n,
        Err(e) => return Err(decode_error(format_kind, server_id, e.as_str())),
    };
    if n.is_null() {
        return Ok(None);
    }
    match n.as_array() {
        Some(items) => match read_edits(items) {
            Some(es) => Ok(Some(es)),
            None => Err(decode_error(format_kind, server_id, "unexpected value")),
        },
        None => Err(decode_error(format_kind, server_id, "unexpected value")),
    }
}

/// A text sync kind from a JSON number; 1 (full) for anything that is not a
/// 32-bit integer.
pub open spec fn sync_kind_of(j: Json) -> TextDocumentSyncKind {
    match j {
        Json::Number(NumberModel::PosInt(u)) => if u <= i32::MAX as u64 {
            TextDocumentSyncKind(u as i32)
        } else {
            TextDocumentSyncKind(1)
        },
        Json::Number(NumberModel::NegInt(i)) => if i >= i32::MIN as i64 {
            TextDocumentSyncKind(i as i32)
        } else {
            TextDocumentSyncKind(1)
        },
        _ => TextDocumentSyncKind(1),
    }
}

/// The text sync capability: a kind, or options with an optional `change`
/// kind; none when absent.
pub open spec fn sync_capability_of(j: Option<Json>) -> Option<TextDocumentSyncCapability> {
    match j {
        Some(Json::Number(n)) => Some(TextDocumentSyncCapability::Kind(sync_kind_of(Json::Number(n)))),
        Some(Json::Object(ms)) => Some(
            TextDocumentSyncCapability::Options(
                match Json::Object(ms).get("change"@) {
                    Some(Json::Number(n)) => Some(sync_kind_of(Json::Number(n))),
                    _ => None,
                },
            ),
        ),
        _ => None,
    }
}

/// What an `initialize` reply tells the client: how to sync documents, and
/// whether completion items are resolved lazily; or the error.
pub open spec fn initialize_reply_spec(server_id: Seq<char>, j: Json) -> Result<
    (Option<TextDocumentSyncCapability>, bool),
    Seq<char>,
> {
    match initialize_result_decode(dedup_spec(j)) {
        Err(e) => Err("failed to decode initialize response for `"@ + server_id + "`: "@ + e),
        Ok(n) => {
            let caps = n.get("capabilities"@);
            Ok(
                (
                    sync_capability_of(Json::get_opt(caps, "textDocumentSync"@)),
                    Json::get_opt(Json::get_opt(caps, "completionProvider"@), "resolveProvider"@) == Some(
                        Json::Bool(true),
                    ),
                ),
            )
        },
    }
}

fn read_sync_kind(j: &JsonValue) -> (r: TextDocumentSyncKind)
    ensures
        r == sync_kind_of(j.model()),
{
    match j {
        JsonValue::Number(JsonNumber::PosInt(u)) => if *u <= 0x7fff_ffff {
            TextDocumentSyncKind(*u as i32)
        } else {
            TextDocumentSyncKind(1)
        },
        JsonValue::Number(JsonNumber::NegInt(i)) => if *i >= -0x8000_0000 {
            TextDocumentSyncKind(*i as i32)
        } else {
            TextDocumentSyncKind(1)
        },
        _ => TextDocumentSyncKind(1),
    }
}

fn read_sync_capability(j: Option<&JsonValue>) -> (r: Option<TextDocumentSyncCapability>)
    ensures
        r == sync_capability_of(crate::json::model_opt(j)),
{
    match j {
        Some(v) => match v {
            JsonValue::Number(_) => Some(TextDocumentSyncCapability::Kind(read_sync_kind(v))),
            JsonValue::Object(_) => Some(
                TextDocumentSyncCapability::Options(
                    match v.get("change") {
                        Some(c) => match c {
                            JsonValue::Number(_) => Some(read_sync_kind(c)),
                            _ => None,
                        },
                        None => None,
                    },
                ),
            ),
            _ => None,
        },
        None => None,
    }
}

/// The text sync capability of an `initialize` reply and whether the
/// server resolves completion items.
pub fn decode_initialize_result(server_id: &str, value: &JsonValue) -> (r: Result<
    (Option<TextDocumentSyncCapability>, bool),
    LspClientError,
>)
    ensures
        match (r, initialize_reply_spec(server_id@, value.model())) {
            (Ok(v), Ok(m)) => v == m,
            (Err(LspClientError::Protocol(t)), Err(e)) => t@ == e,
            _ => false,
        },
{
    let n = match initialize_result_normalized(&dedup_json(value)) {
        Ok(n) => n,
        Err(e) => {
            let mut m = owned("failed to decode initialize response for `");
            m.append(server_id);
            m.append("`: ");
            m.append(e.as_str());
            return Err(LspClientError::Protocol(m));
        },
    };
    let caps = n.get("capabilities");
    let sync = read_sync_capability(field(caps, "textDocumentSync"));
    let resolve = match field(field(caps, "completionProvider"), "resolveProvider") {
        Some(v) => match v {
            JsonValue::Bool(b) => *b,
            _ => false,
        },
        None => false,
    };
    Ok((sync, resolve))
}


/// What `Option<lsp_types::SignatureHelp>` makes of a JSON value, written
/// back as JSON, or the error's text (a number whose text does not read as a
/// JSON number gives its own error).
pub uninterp spec fn signature_help_decode(j: Json) -> Result<Json, Seq<char>>;

#[verifier::external_body]
fn signature_help_normalized(value: &JsonValue) -> (r: Result<JsonValue, String>)
    ensures
        outcome_model(r) == signature_help_decode(value.model()),
{
    match serde_json::from_value::<Option<lsp_types::SignatureHelp>>(serde_of_json(value)?) {
        Ok(t) => serde_json::to_value(t).map(|v| json_of_serde(&v)).map_err(|e| e.to_string()),
        Err(e) => Err(e.to_string()),
    }
}

/// Documentation as plain values.
pub enum DocView {
    Plain(Seq<char>),
    Markup(MarkupKind, Seq<char>),
}

/// A parameter label as plain values.
pub enum LabelView {
    Simple(Seq<char>),
    Offsets(u32, u32),
}

/// A parameter: its label and documentation.
pub type ParamView = (LabelView, Option<DocView>);

/// A signature: label, documentation, parameters and active parameter.
pub type SignatureView = (Seq<char>, Option<DocView>, Option<Seq<ParamView>>, Option<u32>);

/// Signature help: signatures, active signature and active parameter.
pub type HelpView = (Seq<SignatureView>, Option<u32>, Option<u32>);

pub open spec fn doc_view(d: Documentation) -> DocView {
    match d {
        Documentation::String(t) => DocView::Plain(t@),
        Documentation::MarkupContent { kind, value } => DocView::Markup(kind, value@),
    }
}

pub open spec fn opt_doc_view(d: Option<Documentation>) -> Option<DocView> {
    match d {
        Some(x) => Some(doc_view(x)),
        None => None,
    }
}

pub open spec fn param_view(p: ParameterInformation) -> ParamView {
    (
        match p.label {
            ParameterLabel::Simple(t) => LabelView::Simple(t@),
            ParameterLabel::LabelOffsets(a, b) => LabelView::Offsets(a, b),
        },
        opt_doc_view(p.documentation),
    )
}

pub open spec fn signature_view(s: SignatureInformation) -> SignatureView {
    (
        s.label@,
        opt_doc_view(s.documentation),
        match s.parameters {
            Some(ps) => Some(ps@.map_values(|p: ParameterInformation| param_view(p))),
            None => None,
        },
        s.active_parameter,
    )
}

pub open spec fn help_view(h: SignatureHelp) -> HelpView {
    (h.signatures@.map_values(|s: SignatureInformation| signature_view(s)), h.active_signature, h.active_parameter)
}

/// An optional field: absent or `null` reads as `Some(None)`.
pub open spec fn optional<T>(j: Option<Json>, f: spec_fn(Json) -> Option<T>) -> Option<Option<T>> {
    match j {
        None => Some(None),
        Some(Json::Null) => Some(None),
        Some(x) => match f(x) {
            Some(v) => Some(Some(v)),
            None => None,
        },
    }
}

/// Documentation: a string, or `{"kind": …, "value": …}`.
pub open spec fn doc_of(j: Json) -> Option<DocView> {
    match j {
        Json::Str(t) => Some(DocView::Plain(t)),
        _ => match (markup_kind_of(j.get("kind"@)), Json::str_opt(j.get("value"@))) {
            (Some(k), Some(v)) => Some(DocView::Markup(k, v)),
            _ => None,
        },
    }
}

/// A parameter label: a string, or a pair of character offsets.
pub open spec fn label_of(j: Json) -> Option<LabelView> {
    match j {
        Json::Str(t) => Some(LabelView::Simple(t)),
        Json::Array(items) => if items.len() == 2 {
            match (u32_of(Some(items[0])), u32_of(Some(items[1]))) {
                (Some(a), Some(b)) => Some(LabelView::Offsets(a, b)),
                _ => None,
            }
        } else {
            None
        },
        _ => None,
    }
}

#[verifier::opaque]
pub open spec fn param_of(j: Json) -> Option<ParamView> {
    match (j.get("label"@), optional(j.get("documentation"@), |d: Json| doc_of(d))) {
        (Some(l), Some(d)) => match label_of(l) {
            Some(lv) => Some((lv, d)),
            None => None,
        },
        _ => None,
    }
}

pub open spec fn params_field(p: Json) -> Option<Seq<ParamView>> {
    match p.as_array() {
        Some(items) => each_of(items, |x: Json| param_of(x)),
        None => None,
    }
}

#[verifier::opaque]
pub open spec fn signature_of(j: Json) -> Option<SignatureView> {
    match (
        Json::str_opt(j.get("label"@)),
        optional(j.get("documentation"@), |d: Json| doc_of(d)),
        optional(j.get("parameters"@), |p: Json| params_field(p)),
        optional(j.get("activeParameter"@), |n: Json| u32_of(Some(n))),
    ) {
        (Some(l), Some(d), Some(ps), Some(a)) => Some((l, d, ps, a)),
        _ => None,
    }
}

/// Decoded signature help: `null`, or its signatures and active indices.
pub open spec fn help_of(j: Json) -> Option<Option<HelpView>> {
    match j {
        Json::Null => Some(None),
        _ => match (
            Json::array_opt(j.get("signatures"@)),
            optional(j.get("activeSignature"@), |n: Json| u32_of(Some(n))),
            optional(j.get("activeParameter"@), |n: Json| u32_of(Some(n))),
        ) {
            (Some(items), Some(s), Some(p)) => match each_of(items, |x: Json| signature_of(x)) {
                Some(sigs) => Some(Some((sigs, s, p))),
                None => None,
            },
            _ => None,
        },
    }
}

/// A `textDocument/signatureHelp` reply, or the error.
pub open spec fn signature_help_reply_spec(server_id: Seq<char>, j: Json) -> Result<Option<HelpView>, Seq<char>> {
    match signature_help_decode(dedup_spec(j)) {
        Err(e) => Err(decode_error_text("signature help"@, server_id, e)),
        Ok(n) => match help_of(n) {
            Some(h) => Ok(h),
            None => Err(decode_error_text("signature help"@, server_id, unreadable_text())),
        },
    }
}

fn read_opt_u32(j: Option<&JsonValue>) -> (r: Option<Option<u32>>)
    ensures
        r == optional(crate::json::model_opt(j), |n: Json| u32_of(Some(n))),
{
    match j {
        None => Some(None),
        Some(v) => if v.is_null() {
            Some(None)
        } else {
            match read_u32(Some(v)) {
                Some(n) => Some(Some(n)),
                None => None,
            }
        },
    }
}

fn read_doc(j: &JsonValue) -> (r: Option<Documentation>)
    ensures
        match r {
            Some(d) => doc_of(j.model()) == Some(doc_view(d)),
            None => doc_of(j.model()) is None,
        },
{
    match j.as_str() {
        Some(t) => return Some(Documentation::String(owned(t))),
        None => {},
    }
    match (read_markup_kind(j.get("kind")), read_str(j.get("value"))) {
        (Some(k), Some(v)) => Some(Documentation::MarkupContent { kind: k, value: v }),
        _ => None,
    }
}

fn read_opt_doc(j: Option<&JsonValue>) -> (r: Option<Option<Documentation>>)
    ensures
        match r {
            Some(d) => optional(crate::json::model_opt(j), |d: Json| doc_of(d)) == Some(opt_doc_view(d)),
            None => optional(crate::json::model_opt(j), |d: Json| doc_of(d)) is None,
        },
{
    match j {
        None => Some(None),
        Some(v) => if v.is_null() {
            Some(None)
        } else {
            match read_doc(v) {
                Some(d) => Some(Some(d)),
                None => None,
            }
        },
    }
}

fn read_label(j: &JsonValue) -> (r: Option<ParameterLabel>)
    ensures
        match r {
            Some(l) => label_of(j.model()) == Some(
                match l {
                    ParameterLabel::Simple(t) => LabelView::Simple(t@),
                    ParameterLabel::LabelOffsets(a, b) => LabelView::Offsets(a, b),
                },
            ),
            None => label_of(j.model()) is None,
        },
{
    match j.as_str() {
        Some(t) => return Some(ParameterLabel::Simple(owned(t))),
        None => {},
    }
    match j.as_array() {
        Some(items) => {
            proof {
                lemma_model_items(items@);
            }
            if items.len() == 2 {
                match (read_u32(Some(&items[0])), read_u32(Some(&items[1]))) {
                    (Some(a), Some(b)) => Some(ParameterLabel::LabelOffsets(a, b)),
                    _ => None,
                }
            } else {
                None
            }
        },
        None => None,
    }
}

fn read_param(j: &JsonValue) -> (r: Option<ParameterInformation>)
    ensures
        match r {
            Some(p) => param_of(j.model()) == Some(param_view(p)),
            None => param_of(j.model()) is None,
        },
{
    proof {
        reveal(param_of);
    }
    let doc = read_opt_doc(j.get("documentation"));
    let label = match j.get("label") {
        Some(l) => read_label(l),
        None => return None,
    };
    match (label, doc) {
        (Some(l), Some(d)) => Some(ParameterInformation { label: l, documentation: d }),
        _ => None,
    }
}

fn read_params(items: &Vec<JsonValue>) -> (r: Option<Vec<ParameterInformation>>)
    ensures
        match r {
            Some(v) => each_of(model_items(items@), |j: Json| param_of(j)) == Some(
                v@.map_values(|p: ParameterInformation| param_view(p)),
            ),
            None => each_of(model_items(items@), |j: Json| param_of(j)) is None,
        },
{
    let ghost ms = model_items(items@);
    let ghost f = |j: Json| param_of(j);
    proof {
        lemma_model_items(items@);
        assert(ms.take(0) =~= Seq::<Json>::empty());
    }
    let mut out: Vec<ParameterInformation> = Vec::new();
    let mut i: usize = 0;
    while i < items.len()
        invariant
            ms == model_items(items@),
            ms.len() == items@.len(),
            forall|k: int| 0 <= k < items@.len() ==> #[trigger] ms[k] == items@[k].model(),
            f == (|j: Json| param_of(j)),
            i <= items@.len(),
            each_of(ms.take(i as int), f) == Some(out@.map_values(|p: ParameterInformation| param_view(p))),
        decreases items@.len() - i,
    {
        proof {
            lemma_each_of_step(ms, f, i as int);
        }
        match read_param(&items[i]) {
            Some(p) => {
                let ghost pv = param_view(p);
                proof {
                    assert(out@.push(p).map_values(|p: ParameterInformation| param_view(p)) =~= out@.map_values(
                        |p: ParameterInformation| param_view(p),
                    ).push(pv));
                }
                out.push(p);
            },
            None => {
                proof {
                    if each_of(ms, f) is Some {
                        lemma_each_of_prefix(ms, f, i + 1);
                    }
                }
                return None;
            },
        }
        i += 1;
    }
    proof {
        assert(ms.take(ms.len() as int) =~= ms);
    }
    Some(out)
}

fn read_opt_params(j: Option<&JsonValue>) -> (r: Option<Option<Vec<ParameterInformation>>>)
    ensures
        match r {
            Some(Some(v)) => optional(crate::json::model_opt(j), |p: Json| params_field(p)) == Some(
                Some(v@.map_values(|p: ParameterInformation| param_view(p))),
            ),
            Some(None) => optional(crate::json::model_opt(j), |p: Json| params_field(p)) == Some(
                None::<Seq<ParamView>>,
            ),
            None => optional(crate::json::model_opt(j), |p: Json| params_field(p)) is None,
        },
{
    match j {
        None => Some(None),
        Some(v) => if v.is_null() {
            Some(None)
        } else {
            match v.as_array() {
                Some(items) => match read_params(items) {
                    Some(ps) => Some(Some(ps)),
                    None => None,
                },
                None => None,
            }
        },
    }
}


fn read_signature(j: &JsonValue) -> (r: Option<SignatureInformation>)
    ensures
        match r {
            Some(s) => signature_of(j.model()) == Some(signature_view(s)),
            None => signature_of(j.model()) is None,
        },
{
    proof {
        reveal(signature_of);
    }
    let label = read_str(j.get("label"));
    let doc = read_opt_doc(j.get("documentation"));
    let params = read_opt_params(j.get("parameters"));
    let active = read_opt_u32(j.get("activeParameter"));
    match (label, doc, params, active) {
        (Some(l), Some(d), Some(ps), Some(a)) => Some(
            SignatureInformation { label: l, documentation: d, parameters: ps, active_parameter: a },
        ),
        _ => None,
    }
}

fn read_signatures(items: &Vec<JsonValue>) -> (r: Option<Vec<SignatureInformation>>)
    ensures
        match r {
            Some(v) => each_of(model_items(items@), |j: Json| signature_of(j)) == Some(
                v@.map_values(|s: SignatureInformation| signature_view(s)),
            ),
            None => each_of(model_items(items@), |j: Json| signature_of(j)) is None,
        },
{
    let ghost ms = model_items(items@);
    let ghost f = |j: Json| signature_of(j);
    proof {
        lemma_model_items(items@);
        assert(ms.take(0) =~= Seq::<Json>::empty());
    }
    let mut out: Vec<SignatureInformation> = Vec::new();
    let mut i: usize = 0;
    while i < items.len()
        invariant
            ms == model_items(items@),
            ms.len() == items@.len(),
            forall|k: int| 0 <= k < items@.len() ==> #[trigger] ms[k] == items@[k].model(),
            f == (|j: Json| signature_of(j)),
            i <= items@.len(),
            each_of(ms.take(i as int), f) == Some(out@.map_values(|s: SignatureInformation| signature_view(s))),
        decreases items@.len() - i,
    {
        proof {
            lemma_each_of_step(ms, f, i as int);
        }
        match read_signature(&items[i]) {
            Some(x) => {
                let ghost sv = signature_view(x);
                proof {
                    assert(out@.push(x).map_values(|s: SignatureInformation| signature_view(s)) =~= out@.map_values(
                        |s: SignatureInformation| signature_view(s),
                    ).push(sv));
                }
                out.push(x);
            },
            None => {
                proof {
                    if each_of(ms, f) is Some {
                        lemma_each_of_prefix(ms, f, i + 1);
                    }
                }
                return None;
            },
        }
        i += 1;
    }
    proof {
        assert(ms.take(ms.len() as int) =~= ms);
    }
    Some(out)
}

/// A `textDocument/signatureHelp` reply: none for `null`.
pub fn decode_signature_help(server_id: &str, value: &JsonValue) -> (r: Result<Option<SignatureHelp>, LspClientError>)
    ensures
        match (r, signature_help_reply_spec(server_id@, value.model())) {
            (Ok(Some(h)), Ok(Some(m))) => help_view(h) == m,
            (Ok(None), Ok(None)) => true,
            (Err(LspClientError::Protocol(t)), Err(e)) => t@ == e,
            _ => false,
        },
{
    let n = match signature_help_normalized(&dedup_json(value)) {
        Ok(n) => n,
        Err(e) => return Err(decode_error("signature help", server_id, e.as_str())),
    };
    if n.is_null() {
        return Ok(None);
    }
    let sigs = match field(Some(&n), "signatures") {
        Some(v) => v.as_array(),
        None => None,
    };
    let active_signature = read_opt_u32(n.get("activeSignature"));
    let active_parameter = read_opt_u32(n.get("activeParameter"));
    match (sigs, active_signature, active_parameter) {
        (Some(items), Some(s), Some(p)) => match read_signatures(items) {
            Some(signatures) => Ok(
                Some(SignatureHelp { signatures, active_signature: s, active_parameter: p }),
            ),
            None => Err(decode_error("signature help", server_id, "unexpected value")),
        },
        _ => Err(decode_error("signature help", server_id, "unexpected value")),
    }
}


// ---------------------------------------------------------------------------
// Encoding outgoing messages and log text
// ---------------------------------------------------------------------------

/// What `serde_json::to_vec` writes for a JSON value, or the error's text (a
/// number whose text does not read as a JSON number gives its own error).
pub uninterp spec fn json_bytes(j: Json) -> Result<Seq<u8>, Seq<char>>;

#[verifier::external_body]
fn json_to_vec(value: &JsonValue) -> (r: Result<Vec<u8>, String>)
    ensures
        match r {
            Ok(b) => json_bytes(value.model()) == Ok::<Seq<u8>, Seq<char>>(b@),
            Err(e) => json_bytes(value.model()) == Err::<Seq<u8>, Seq<char>>(e@),
        },
{
    serde_json::to_vec(&serde_of_json(value)?).map_err(|e| e.to_string())
}

/// What `serde_json::to_string_pretty` writes for a JSON value, or the
/// error's text.
pub uninterp spec fn json_pretty(j: Json) -> Result<Seq<char>, Seq<char>>;

#[verifier::external_body]
fn json_to_string_pretty(value: &JsonValue) -> (r: Result<String, String>)
    ensures
        match r {
            Ok(t) => json_pretty(value.model()) == Ok::<Seq<char>, Seq<char>>(t@),
            Err(e) => json_pretty(value.model()) == Err::<Seq<char>, Seq<char>>(e@),
        },
{
    serde_json::to_string_pretty(&serde_of_json(value)?).map_err(|e| e.to_string())
}

/// What the `Display` of `serde_json::Value` writes (compact JSON) for a
/// JSON value, or the conversion's error text.
pub uninterp spec fn json_compact(j: Json) -> Result<Seq<char>, Seq<char>>;

#[verifier::external_body]
fn json_to_string(value: &JsonValue) -> (r: Result<String, String>)
    ensures
        match r {
            Ok(t) => json_compact(value.model()) == Ok::<Seq<char>, Seq<char>>(t@),
            Err(e) => json_compact(value.model()) == Err::<Seq<char>, Seq<char>>(e@),
        },
{
    serde_of_json(value).map(|v| v.to_string())
}

pub open spec fn encode_error_text(e: Seq<char>) -> Seq<char> {
    "failed to encode JSON-RPC message: "@ + e
}

/// The bytes of an outgoing JSON-RPC message (each key once), or the error.
pub fn encode_message(message: &JsonValue) -> (r: Result<Vec<u8>, LspClientError>)
    ensures
        match (r, json_bytes(dedup_spec(message.model()))) {
            (Ok(b), Ok(m)) => b@ == m,
            (Err(LspClientError::Protocol(t)), Err(e)) => t@ == encode_error_text(e),
            _ => false,
        },
{
    match json_to_vec(&dedup_json(message)) {
        Ok(b) => Ok(b),
        Err(e) => {
            let mut m = owned("failed to encode JSON-RPC message: ");
            m.append(e.as_str());
            Err(LspClientError::Protocol(m))
        },
    }
}

/// The transport-log text of a message: the redacted message as pretty
/// JSON, or as compact JSON when that fails, or the error text when the
/// message cannot be written at all.
pub open spec fn log_text_spec(message: Json) -> Seq<char> {
    let redacted = dedup_spec(crate::transport::sanitize_spec(message));
    match json_pretty(redacted) {
        Ok(t) => t,
        Err(_) => match json_compact(redacted) {
            Ok(t) => t,
            Err(e) => e,
        },
    }
}

pub fn format_transport_message(message: &JsonValue) -> (r: String)
    ensures
        r@ == log_text_spec(message.model()),
{
    let redacted = dedup_json(&crate::transport::sanitize_transport_message(message));
    match json_to_string_pretty(&redacted) {
        Ok(t) => t,
        Err(_) => match json_to_string(&redacted) {
            Ok(t) => t,
            Err(e) => e,
        },
    }
}

} // verus!
