//! Reading protocol payloads: diagnostics, text edits, code actions,
//! completion items, inline completions, server commands and locations,
//! each stated as a function of the payload's JSON model.
use vstd::prelude::*;
use crate::json::{JsonValue, Json, model_items, model_members, lemma_model_items, lemma_model_members, object2, string_value};
use crate::strings::{owned, string_of, trim_spec, trim_chars, concat3};
use crate::text::{TextPoint, TextRange, LspRange, text_range_from_lsp_range};
use crate::types::{Diagnostic, DiagnosticSeverity, LspTextEdit, LspDocumentTextEdits, LspCodeAction, LspClientError, LspLocation, opt_view};
use crate::paths::PathStyle;
use crate::uri::{file_uri_to_path_spec, file_uri_to_path_in_style};

verus! {

/// A point whose line and character are read as `u64` and cast to `usize`.
pub open spec fn diagnostic_point_spec(j: Option<Json>) -> Option<TextPoint> {
    match (Json::u64_opt(Json::get_opt(j, "line"@)), Json::u64_opt(Json::get_opt(j, "character"@))) {
        (Some(l), Some(c)) => Some(TextPoint { line: l as usize, column: c as usize }),
        _ => None,
    }
}

/// A point whose line and character must fit in `usize`.
pub open spec fn inline_point_spec(j: Option<Json>) -> Option<TextPoint> {
    match (Json::u64_opt(Json::get_opt(j, "line"@)), Json::u64_opt(Json::get_opt(j, "character"@))) {
        (Some(l), Some(c)) => if l <= usize::MAX && c <= usize::MAX {
            Some(TextPoint { line: l as usize, column: c as usize })
        } else {
            None
        },
        _ => None,
    }
}

/// A range from the `start` and `end` points of a JSON range.
pub open spec fn inline_range_spec(j: Option<Json>) -> Option<TextRange> {
    match (inline_point_spec(Json::get_opt(j, "start"@)), inline_point_spec(Json::get_opt(j, "end"@))) {
        (Some(s), Some(e)) => Some(TextRange { start: s, end: e }),
        _ => None,
    }
}

fn diagnostic_point(value: &JsonValue) -> (r: Option<TextPoint>)
    ensures
        r == diagnostic_point_spec(Some(value.model())),
{
    let line = match value.get("line") {
        Some(l) => match l.as_u64() {
            Some(n) => n,
            None => return None,
        },
        None => return None,
    };
    let character = match value.get("character") {
        Some(c) => match c.as_u64() {
            Some(n) => n,
            None => return None,
        },
        None => return None,
    };
    Some(TextPoint::new(line as usize, character as usize))
}

/// The point of a JSON `{ line, character }` object.
pub fn parse_inline_text_point(value: &JsonValue) -> (r: Option<TextPoint>)
    ensures
        r == inline_point_spec(Some(value.model())),
{
    let line = match value.get("line") {
        Some(l) => match l.as_u64() {
            Some(n) => n,
            None => return None,
        },
        None => return None,
    };
    let character = match value.get("character") {
        Some(c) => match c.as_u64() {
            Some(n) => n,
            None => return None,
        },
        None => return None,
    };
    if line > usize::MAX as u64 || character > usize::MAX as u64 {
        return None;
    }
    Some(TextPoint::new(line as usize, character as usize))
}

/// The range of a JSON `{ start, end }` object.
pub fn parse_inline_text_range(value: &JsonValue) -> (r: Option<TextRange>)
    ensures
        r == inline_range_spec(Some(value.model())),
{
    let start = match value.get("start") {
        Some(s) => match parse_inline_text_point(s) {
            Some(p) => p,
            None => return None,
        },
        None => return None,
    };
    let end = match value.get("end") {
        Some(e) => match parse_inline_text_point(e) {
            Some(p) => p,
            None => return None,
        },
        None => return None,
    };
    Some(TextRange::new(start, end))
}

/// A text edit: its range and new text.
pub open spec fn edit_view(e: LspTextEdit) -> (TextRange, Seq<char>) {
    (e.range, e.new_text@)
}

pub open spec fn edit_views(v: Seq<LspTextEdit>) -> Seq<(TextRange, Seq<char>)> {
    v.map_values(|e: LspTextEdit| edit_view(e))
}

/// A JSON `{ range, newText }` edit.
pub open spec fn inline_edit_spec(j: Json) -> Option<(TextRange, Seq<char>)> {
    match (inline_range_spec(j.get("range"@)), Json::str_opt(j.get("newText"@))) {
        (Some(r), Some(t)) => Some((r, t)),
        _ => None,
    }
}

/// The edits of a JSON array that read as edits, in order; none for a
/// non-array.
pub open spec fn inline_edits_from(items: Seq<Json>) -> Seq<(TextRange, Seq<char>)>
    decreases items.len(),
{
    if items.len() == 0 {
        Seq::empty()
    } else {
        let rest = inline_edits_from(items.drop_last());
        match inline_edit_spec(items.last()) {
            Some(e) => rest.push(e),
            None => rest,
        }
    }
}

pub open spec fn inline_edits_spec(j: Json) -> Seq<(TextRange, Seq<char>)> {
    match j.as_array() {
        Some(items) => inline_edits_from(items),
        None => Seq::empty(),
    }
}

pub fn parse_inline_text_edit(value: &JsonValue) -> (r: Option<LspTextEdit>)
    ensures
        match r {
            Some(e) => inline_edit_spec(value.model()) == Some(edit_view(e)),
            None => inline_edit_spec(value.model()) is None,
        },
{
    let range = match value.get("range") {
        Some(r) => match parse_inline_text_range(r) {
            Some(r) => r,
            None => return None,
        },
        None => return None,
    };
    let new_text = match value.get("newText") {
        Some(t) => match t.as_str() {
            Some(t) => t,
            None => return None,
        },
        None => return None,
    };
    Some(LspTextEdit::new(range, owned(new_text)))
}

/// The edits of a JSON array, skipping entries that are not edits.
pub fn parse_inline_text_edits(value: &JsonValue) -> (r: Vec<LspTextEdit>)
    ensures
        edit_views(r@) == inline_edits_spec(value.model()),
{
    let mut out: Vec<LspTextEdit> = Vec::new();
    let items = match value.as_array() {
        Some(items) => items,
        None => {
            proof {
                assert(edit_views(out@) =~= Seq::empty());
            }
            return out;
        },
    };
    proof {
        lemma_model_items(items@);
    }
    let ghost ms = model_items(items@);
    let mut i: usize = 0;
    while i < items.len()
        invariant
            ms == model_items(items@),
            ms.len() == items@.len(),
            forall|k: int| 0 <= k < items@.len() ==> #[trigger] ms[k] == items@[k].model(),
            i <= items@.len(),
            edit_views(out@) == inline_edits_from(ms.take(i as int)),
        decreases items@.len() - i,
    {
        proof {
            assert(ms.take(i + 1).drop_last() =~= ms.take(i as int));
            assert(ms.take(i + 1).last() == items@[i as int].model());
        }
        match parse_inline_text_edit(&items[i]) {
            Some(e) => {
                proof {
                    assert(edit_views(out@.push(e)) =~= edit_views(out@).push(edit_view(e)));
                }
                out.push(e);
            },
            None => {},
        }
        i += 1;
    }
    proof {
        assert(ms.take(ms.len() as int) =~= ms);
    }
    out
}

/// A diagnostic as its source, message, severity and range.
pub open spec fn diagnostic_view(d: Diagnostic) -> (Seq<char>, Seq<char>, DiagnosticSeverity, TextRange) {
    (d.source@, d.message@, d.severity, d.range)
}

pub open spec fn diagnostic_views(v: Seq<Diagnostic>) -> Seq<(Seq<char>, Seq<char>, DiagnosticSeverity, TextRange)> {
    v.map_values(|d: Diagnostic| diagnostic_view(d))
}

/// The severity of a protocol severity number (absent counts as 3): 1 is an
/// error, 2 a warning, anything else information.
pub open spec fn severity_spec(n: Option<u64>) -> DiagnosticSeverity {
    match n {
        Some(1) => DiagnosticSeverity::Error,
        Some(2) => DiagnosticSeverity::Warning,
        _ => DiagnosticSeverity::Information,
    }
}

/// A protocol diagnostic: it needs a range with both points; the source
/// defaults to `lsp`, the message to empty.
pub open spec fn diagnostic_spec(j: Json) -> Option<(Seq<char>, Seq<char>, DiagnosticSeverity, TextRange)> {
    let range = j.get("range"@);
    match (
        diagnostic_point_spec(Json::get_opt(range, "start"@)),
        diagnostic_point_spec(Json::get_opt(range, "end"@)),
    ) {
        (Some(s), Some(e)) => Some(
            (
                match Json::str_opt(j.get("source"@)) {
                    Some(src) => src,
                    None => "lsp"@,
                },
                match Json::str_opt(j.get("message"@)) {
                    Some(m) => m,
                    None => Seq::empty(),
                },
                severity_spec(Json::u64_opt(j.get("severity"@))),
                TextRange { start: s, end: e },
            ),
        ),
        _ => None,
    }
}

pub fn parse_diagnostic(value: &JsonValue) -> (r: Option<Diagnostic>)
    ensures
        match r {
            Some(d) => diagnostic_spec(value.model()) == Some(diagnostic_view(d)),
            None => diagnostic_spec(value.model()) is None,
        },
{
    let range = match value.get("range") {
        Some(r) => r,
        None => return None,
    };
    let start = match range.get("start") {
        Some(s) => match diagnostic_point(s) {
            Some(p) => p,
            None => return None,
        },
        None => return None,
    };
    let end = match range.get("end") {
        Some(e) => match diagnostic_point(e) {
            Some(p) => p,
            None => return None,
        },
        None => return None,
    };
    let severity_number = match value.get("severity") {
        Some(s) => s.as_u64(),
        None => None,
    };
    let severity = match severity_number {
        Some(1) => DiagnosticSeverity::Error,
        Some(2) => DiagnosticSeverity::Warning,
        _ => DiagnosticSeverity::Information,
    };
    let source = match value.get("source") {
        Some(s) => match s.as_str() {
            Some(s) => owned(s),
            None => owned("lsp"),
        },
        None => owned("lsp"),
    };
    let message = match value.get("message") {
        Some(m) => match m.as_str() {
            Some(m) => owned(m),
            None => String::new(),
        },
        None => String::new(),
    };
    Some(Diagnostic::new(source, message, severity, TextRange::new(start, end)))
}

/// The diagnostics of a JSON array that read as diagnostics, in order.
pub open spec fn diagnostics_from(items: Seq<Json>) -> Seq<(Seq<char>, Seq<char>, DiagnosticSeverity, TextRange)>
    decreases items.len(),
{
    if items.len() == 0 {
        Seq::empty()
    } else {
        let rest = diagnostics_from(items.drop_last());
        match diagnostic_spec(items.last()) {
            Some(d) => rest.push(d),
            None => rest,
        }
    }
}

/// `textDocument/publishDiagnostics` parameters: the document's path (its
/// `uri` must be a file URI) and its diagnostics (none when absent).
pub open spec fn publish_spec(params: Json, style: PathStyle) -> Option<
    (Seq<char>, Seq<(Seq<char>, Seq<char>, DiagnosticSeverity, TextRange)>),
> {
    match Json::str_opt(params.get("uri"@)) {
        Some(uri) => match file_uri_to_path_spec(uri, style) {
            Some(path) => Some(
                (
                    path,
                    match Json::array_opt(params.get("diagnostics"@)) {
                        Some(items) => diagnostics_from(items),
                        None => Seq::empty(),
                    },
                ),
            ),
            None => None,
        },
        None => None,
    }
}

fn parse_diagnostic_items(items: &Vec<JsonValue>) -> (out: Vec<Diagnostic>)
    ensures
        diagnostic_views(out@) == diagnostics_from(model_items(items@)),
{
    let mut out: Vec<Diagnostic> = Vec::new();
    proof {
        lemma_model_items(items@);
    }
    let ghost ms = model_items(items@);
    let mut i: usize = 0;
    while i < items.len()
        invariant
            ms == model_items(items@),
            ms.len() == items@.len(),
            forall|k: int| 0 <= k < items@.len() ==> #[trigger] ms[k] == items@[k].model(),
            i <= items@.len(),
            diagnostic_views(out@) == diagnostics_from(ms.take(i as int)),
        decreases items@.len() - i,
    {
        proof {
            assert(ms.take(i + 1).drop_last() =~= ms.take(i as int));
            assert(ms.take(i + 1).last() == items@[i as int].model());
        }
        match parse_diagnostic(&items[i]) {
            Some(d) => {
                proof {
                    assert(diagnostic_views(out@.push(d)) =~= diagnostic_views(out@).push(
                        diagnostic_view(d),
                    ));
                }
                out.push(d);
            },
            None => {},
        }
        i += 1;
    }
    proof {
        assert(ms.take(ms.len() as int) =~= ms);
    }
    out
}

pub fn parse_publish_diagnostics_in_style(params: &JsonValue, style: PathStyle) -> (r: Option<(String, Vec<Diagnostic>)>)
    ensures
        match r {
            Some((p, ds)) => publish_spec(params.model(), style) == Some((p@, diagnostic_views(ds@))),
            None => publish_spec(params.model(), style) is None,
        },
{
    let uri = match params.get("uri") {
        Some(u) => match u.as_str() {
            Some(u) => u,
            None => return None,
        },
        None => return None,
    };
    let path = match file_uri_to_path_in_style(uri, style) {
        Some(p) => p,
        None => return None,
    };
    let items = match params.get("diagnostics") {
        Some(d) => d.as_array(),
        None => None,
    };
    match items {
        Some(items) => Some((path, parse_diagnostic_items(items))),
        None => {
            let out: Vec<Diagnostic> = Vec::new();
            proof {
                assert(diagnostic_views(out@) =~= Seq::empty());
            }
            Some((path, out))
        },
    }
}

/// `textDocument/publishDiagnostics` parameters, with the host's path rules.
pub fn parse_publish_diagnostics(params: &JsonValue) -> (r: Option<(String, Vec<Diagnostic>)>)
    ensures
        exists|style: PathStyle|
            match r {
                Some((p, ds)) => publish_spec(params.model(), style) == Some((p@, diagnostic_views(ds@))),
                None => publish_spec(params.model(), style) is None,
            },
{
    let style = crate::paths::host_path_style();
    parse_publish_diagnostics_in_style(params, style)
}

/// Members of a JSON object.
pub open spec fn object_members(j: Option<Json>) -> Option<Seq<(Seq<char>, Json)>> {
    match j {
        Some(Json::Object(ms)) => Some(ms),
        _ => None,
    }
}

/// The edits of one document: its path and its edits.
pub open spec fn document_edits_view(d: LspDocumentTextEdits) -> (Seq<char>, Seq<(TextRange, Seq<char>)>) {
    (d.path@, edit_views(d.edits@))
}

pub open spec fn document_edits_views(v: Seq<LspDocumentTextEdits>) -> Seq<(Seq<char>, Seq<(TextRange, Seq<char>)>)> {
    v.map_values(|d: LspDocumentTextEdits| document_edits_view(d))
}

/// A `TextDocumentEdit`: a file URI and at least one edit.
pub open spec fn document_change_spec(j: Json, style: PathStyle) -> Option<(Seq<char>, Seq<(TextRange, Seq<char>)>)> {
    match Json::str_opt(Json::get_opt(j.get("textDocument"@), "uri"@)) {
        Some(uri) => match file_uri_to_path_spec(uri, style) {
            Some(path) => match j.get("edits"@) {
                Some(ev) => {
                    let edits = inline_edits_spec(ev);
                    if edits.len() > 0 {
                        Some((path, edits))
                    } else {
                        None
                    }
                },
                None => None,
            },
            None => None,
        },
        None => None,
    }
}

pub fn parse_code_action_document_change(value: &JsonValue, style: PathStyle) -> (r: Option<LspDocumentTextEdits>)
    ensures
        match r {
            Some(d) => document_change_spec(value.model(), style) == Some(document_edits_view(d)),
            None => document_change_spec(value.model(), style) is None,
        },
{
    let uri = match crate::json::str_opt(crate::json::get_opt(value.get("textDocument"), "uri")) {
        Some(u) => u,
        None => return None,
    };
    let path = match file_uri_to_path_in_style(uri, style) {
        Some(p) => p,
        None => return None,
    };
    let edits_value = match value.get("edits") {
        Some(e) => e,
        None => return None,
    };
    let edits = parse_inline_text_edits(edits_value);
    if edits.len() == 0 {
        return None;
    }
    Some(LspDocumentTextEdits::new(path, edits))
}

/// The `changes` map of a workspace edit: per file URI, its edits, skipping
/// other URIs and documents without edits.
pub open spec fn changes_from(members: Seq<(Seq<char>, Json)>, style: PathStyle) -> Seq<(Seq<char>, Seq<(TextRange, Seq<char>)>)>
    decreases members.len(),
{
    if members.len() == 0 {
        Seq::empty()
    } else {
        let rest = changes_from(members.drop_last(), style);
        let (uri, ev) = members.last();
        match file_uri_to_path_spec(uri, style) {
            Some(path) => {
                let edits = inline_edits_spec(ev);
                if edits.len() > 0 {
                    rest.push((path, edits))
                } else {
                    rest
                }
            },
            None => rest,
        }
    }
}

/// The `documentChanges` array: the document edits in order, and whether
/// some entry is a resource operation (has a `kind`) instead.
pub open spec fn document_changes_from(items: Seq<Json>, style: PathStyle) -> (Seq<(Seq<char>, Seq<(TextRange, Seq<char>)>)>, bool)
    decreases items.len(),
{
    if items.len() == 0 {
        (Seq::empty(), false)
    } else {
        let (docs, resources) = document_changes_from(items.drop_last(), style);
        match document_change_spec(items.last(), style) {
            Some(d) => (docs.push(d), resources),
            None => (docs, resources || items.last().get("kind"@) is Some),
        }
    }
}

/// A code action's workspace edit: the document edits of `changes`, then
/// those of `documentChanges`, and whether resource operations were left out.
pub open spec fn workspace_edit_spec(j: Option<Json>, style: PathStyle) -> (Seq<(Seq<char>, Seq<(TextRange, Seq<char>)>)>, bool) {
    match j {
        None => (Seq::empty(), false),
        Some(v) => {
            let first = match object_members(v.get("changes"@)) {
                Some(ms) => changes_from(ms, style),
                None => Seq::empty(),
            };
            let (second, resources) = match Json::array_opt(v.get("documentChanges"@)) {
                Some(items) => document_changes_from(items, style),
                None => (Seq::empty(), false),
            };
            (first + second, resources)
        },
    }
}

fn parse_changes_map(members: &Vec<(String, JsonValue)>, style: PathStyle, out: &mut Vec<LspDocumentTextEdits>)
    ensures
        document_edits_views(final(out)@) == document_edits_views(old(out)@) + changes_from(
            model_members(members@),
            style,
        ),
{
    proof {
        lemma_model_members(members@);
    }
    let ghost ms = model_members(members@);
    let ghost start = document_edits_views(out@);
    let mut i: usize = 0;
    proof {
        assert(start + changes_from(ms.take(0), style) =~= start);
    }
    while i < members.len()
        invariant
            ms == model_members(members@),
            ms.len() == members@.len(),
            forall|k: int|
                0 <= k < members@.len() ==> #[trigger] ms[k] == (members@[k].0@, members@[k].1.model()),
            i <= members@.len(),
            document_edits_views(out@) == start + changes_from(ms.take(i as int), style),
        decreases members@.len() - i,
    {
        proof {
            assert(ms.take(i + 1).drop_last() =~= ms.take(i as int));
            assert(ms.take(i + 1).last() == ms[i as int]);
        }
        let uri = members[i].0.as_str();
        match file_uri_to_path_in_style(uri, style) {
            Some(path) => {
                let edits = parse_inline_text_edits(&members[i].1);
                if edits.len() > 0 {
                    let d = LspDocumentTextEdits::new(path, edits);
                    proof {
                        assert(document_edits_views(out@.push(d)) =~= document_edits_views(out@).push(
                            document_edits_view(d),
                        ));
                    }
                    out.push(d);
                }
            },
            None => {},
        }
        i += 1;
    }
    proof {
        assert(ms.take(ms.len() as int) =~= ms);
    }
}

fn parse_document_changes(items: &Vec<JsonValue>, style: PathStyle, out: &mut Vec<LspDocumentTextEdits>) -> (resources: bool)
    ensures
        document_edits_views(final(out)@) == document_edits_views(old(out)@) + document_changes_from(
            model_items(items@),
            style,
        ).0,
        resources == document_changes_from(model_items(items@), style).1,
{
    proof {
        lemma_model_items(items@);
    }
    let ghost ms = model_items(items@);
    let ghost start = document_edits_views(out@);
    let mut resources = false;
    let mut i: usize = 0;
    proof {
        assert(start + document_changes_from(ms.take(0), style).0 =~= start);
    }
    while i < items.len()
        invariant
            ms == model_items(items@),
            ms.len() == items@.len(),
            forall|k: int| 0 <= k < items@.len() ==> #[trigger] ms[k] == items@[k].model(),
            i <= items@.len(),
            document_edits_views(out@) == start + document_changes_from(ms.take(i as int), style).0,
            resources == document_changes_from(ms.take(i as int), style).1,
        decreases items@.len() - i,
    {
        proof {
            assert(ms.take(i + 1).drop_last() =~= ms.take(i as int));
            assert(ms.take(i + 1).last() == items@[i as int].model());
        }
        match parse_code_action_document_change(&items[i], style) {
            Some(d) => {
                proof {
                    assert(document_edits_views(out@.push(d)) =~= document_edits_views(out@).push(
                        document_edits_view(d),
                    ));
                }
                out.push(d);
            },
            None => {
                if items[i].get("kind").is_some() {
                    resources = true;
                }
            },
        }
        i += 1;
    }
    proof {
        assert(ms.take(ms.len() as int) =~= ms);
    }
    resources
}

/// The document edits of a code action's workspace edit, and whether it also
/// holds resource operations.
pub fn parse_code_action_workspace_edit(value: Option<&JsonValue>, style: PathStyle) -> (r: (Vec<LspDocumentTextEdits>, bool))
    ensures
        (document_edits_views(r.0@), r.1) == workspace_edit_spec(crate::json::model_opt(value), style),
{
    let mut document_edits: Vec<LspDocumentTextEdits> = Vec::new();
    let value = match value {
        Some(v) => v,
        None => {
            proof {
                assert(document_edits_views(document_edits@) =~= Seq::empty());
            }
            return (document_edits, false);
        },
    };
    proof {
        assert(document_edits_views(document_edits@) =~= Seq::empty());
    }
    match value.get("changes") {
        Some(changes) => match changes.as_object() {
            Some(members) => parse_changes_map(members, style, &mut document_edits),
            None => {},
        },
        None => {},
    }
    let ghost after_changes = document_edits_views(document_edits@);
    let mut resources = false;
    match value.get("documentChanges") {
        Some(changes) => match changes.as_array() {
            Some(items) => {
                resources = parse_document_changes(items, style, &mut document_edits);
            },
            None => {},
        },
        None => {},
    }
    proof {
        let first = match object_members(value.model().get("changes"@)) {
            Some(ms) => changes_from(ms, style),
            None => Seq::empty(),
        };
        assert(after_changes =~= Seq::empty() + first);
        match Json::array_opt(value.model().get("documentChanges"@)) {
            Some(items) => {},
            None => {
                assert(document_edits_views(document_edits@) =~= first + Seq::empty());
            },
        }
    }
    (document_edits, resources)
}

/// The command a code action runs: a bare command string, or the `command`
/// field of a command object.
pub open spec fn command_name_spec(j: Json) -> Option<Seq<char>> {
    match j.get("command"@) {
        Some(Json::Str(c)) => Some(c),
        Some(Json::Object(ms)) => Json::str_opt(Json::Object(ms).get("command"@)),
        _ => None,
    }
}

pub fn parse_code_action_command_name(value: &JsonValue) -> (r: Option<String>)
    ensures
        opt_view(r) == command_name_spec(value.model()),
{
    match value.get("command") {
        Some(JsonValue::String(command)) => Some(owned(command.as_str())),
        Some(c) => match c {
            JsonValue::Object(_) => match c.get("command") {
                Some(name) => match name.as_str() {
                    Some(n) => Some(owned(n)),
                    None => None,
                },
                None => None,
            },
            _ => None,
        },
        None => None,
    }
}

/// A code action as read from the protocol.
pub struct CodeActionModel {
    pub server_id: Seq<char>,
    pub title: Seq<char>,
    pub kind: Option<Seq<char>>,
    pub disabled_reason: Option<Seq<char>>,
    pub preferred: bool,
    pub document_edits: Seq<(Seq<char>, Seq<(TextRange, Seq<char>)>)>,
    pub command_name: Option<Seq<char>>,
    pub has_resource_operations: bool,
}

pub open spec fn code_action_view(a: LspCodeAction) -> CodeActionModel {
    CodeActionModel {
        server_id: a.server_id@,
        title: a.title@,
        kind: opt_view(a.kind),
        disabled_reason: opt_view(a.disabled_reason),
        preferred: a.preferred,
        document_edits: document_edits_views(a.document_edits@),
        command_name: opt_view(a.command_name),
        has_resource_operations: a.has_resource_operations,
    }
}

/// A code action: its title, trimmed, must not be empty; `isPreferred`
/// defaults to false.
pub open spec fn code_action_spec(server_id: Seq<char>, j: Json, style: PathStyle) -> Option<CodeActionModel> {
    match Json::str_opt(j.get("title"@)) {
        Some(raw_title) => {
            let title = trim_spec(raw_title);
            if title.len() == 0 {
                None
            } else {
                let (edits, resources) = workspace_edit_spec(j.get("edit"@), style);
                Some(
                    CodeActionModel {
                        server_id,
                        title,
                        kind: Json::str_opt(j.get("kind"@)),
                        disabled_reason: Json::str_opt(Json::get_opt(j.get("disabled"@), "reason"@)),
                        preferred: match j.get("isPreferred"@) {
                            Some(Json::Bool(b)) => b,
                            _ => false,
                        },
                        document_edits: edits,
                        command_name: command_name_spec(j),
                        has_resource_operations: resources,
                    },
                )
            }
        },
        None => None,
    }
}

fn opt_owned(s: Option<&str>) -> (r: Option<String>)
    ensures
        opt_view(r) == crate::notify::opt_str(s),
{
    match s {
        Some(s) => Some(owned(s)),
        None => None,
    }
}

pub fn parse_code_action_item(server_id: &str, value: &JsonValue, style: PathStyle) -> (r: Option<LspCodeAction>)
    ensures
        match r {
            Some(a) => code_action_spec(server_id@, value.model(), style) == Some(code_action_view(a)),
            None => code_action_spec(server_id@, value.model(), style) is None,
        },
{
    let raw_title = match value.get("title") {
        Some(t) => match t.as_str() {
            Some(t) => t,
            None => return None,
        },
        None => return None,
    };
    let title_chars = trim_chars(raw_title);
    if title_chars.len() == 0 {
        return None;
    }
    let kind = opt_owned(crate::json::str_opt(value.get("kind")));
    let disabled_reason = opt_owned(crate::json::str_opt(crate::json::get_opt(value.get("disabled"), "reason")));
    let preferred = match value.get("isPreferred") {
        Some(p) => match p.as_bool() {
            Some(b) => b,
            None => false,
        },
        None => false,
    };
    let (document_edits, has_resource_operations) = parse_code_action_workspace_edit(value.get("edit"), style);
    let command_name = parse_code_action_command_name(value);
    Some(
        LspCodeAction {
            server_id: owned(server_id),
            title: string_of(title_chars.as_slice()),
            kind,
            disabled_reason,
            preferred,
            document_edits,
            command_name,
            has_resource_operations,
        },
    )
}

pub open spec fn code_actions_from(server_id: Seq<char>, items: Seq<Json>, style: PathStyle) -> Seq<CodeActionModel>
    decreases items.len(),
{
    if items.len() == 0 {
        Seq::empty()
    } else {
        let rest = code_actions_from(server_id, items.drop_last(), style);
        match code_action_spec(server_id, items.last(), style) {
            Some(a) => rest.push(a),
            None => rest,
        }
    }
}

pub open spec fn code_action_views(v: Seq<LspCodeAction>) -> Seq<CodeActionModel> {
    v.map_values(|a: LspCodeAction| code_action_view(a))
}

/// The error text for a code action response that is not an array.
pub open spec fn code_action_shape_error(server_id: Seq<char>) -> Seq<char> {
    "failed to decode code action response from `"@ + server_id + "`: expected an array"@
}

/// A `textDocument/codeAction` response: no actions for `null`, an error for
/// anything but an array, else the entries that read as code actions.
#[verifier::spinoff_prover]
#[verifier::rlimit(30)]
pub fn parse_code_action_response_in_style(server_id: &str, value: &JsonValue, style: PathStyle) -> (r: Result<
    Vec<LspCodeAction>,
    LspClientError,
>)
    ensures
        value.model() is Null ==> (r matches Ok(v) && v@.len() == 0),
        !(value.model() is Null) && !(value.model() is Array) ==> (r matches Err(
            LspClientError::Protocol(m),
        ) && m@ == code_action_shape_error(server_id@)),
        value.model() is Array ==> (r matches Ok(v) && code_action_views(v@) == code_actions_from(
            server_id@,
            value.model()->Array_0,
            style,
        )),
{
    if value.is_null() {
        return Ok(Vec::new());
    }
    let items = match value.as_array() {
        Some(items) => items,
        None => {
            return Err(
                LspClientError::Protocol(
                    concat3("failed to decode code action response from `", server_id, "`: expected an array"),
                ),
            );
        },
    };
    let mut out: Vec<LspCodeAction> = Vec::new();
    proof {
        lemma_model_items(items@);
    }
    let ghost ms = model_items(items@);
    let mut i: usize = 0;
    while i < items.len()
        invariant
            ms == model_items(items@),
            ms.len() == items@.len(),
            forall|k: int| 0 <= k < items@.len() ==> #[trigger] ms[k] == items@[k].model(),
            i <= items@.len(),
            code_action_views(out@) == code_actions_from(server_id@, ms.take(i as int), style),
        decreases items@.len() - i,
    {
        proof {
            assert(ms.take(i + 1).drop_last() =~= ms.take(i as int));
            assert(ms.take(i + 1).last() == items@[i as int].model());
        }
        match parse_code_action_item(server_id, &items[i], style) {
            Some(a) => {
                proof {
                    assert(code_action_views(out@.push(a)) =~= code_action_views(out@).push(
                        code_action_view(a),
                    ));
                }
                out.push(a);
            },
            None => {},
        }
        i += 1;
    }
    proof {
        assert(ms.take(ms.len() as int) =~= ms);
    }
    Ok(out)
}

/// A `textDocument/codeAction` response, with the host's path rules.
pub fn parse_code_action_response(server_id: &str, value: &JsonValue) -> (r: Result<Vec<LspCodeAction>, LspClientError>)
    ensures
        value.model() is Null ==> (r matches Ok(v) && v@.len() == 0),
        !(value.model() is Null) && !(value.model() is Array) ==> (r matches Err(
            LspClientError::Protocol(m),
        ) && m@ == code_action_shape_error(server_id@)),
        value.model() is Array ==> (r matches Ok(v) && exists|style: PathStyle|
            code_action_views(v@) == code_actions_from(server_id@, value.model()->Array_0, style)),
{
    parse_code_action_response_in_style(server_id, value, crate::paths::host_path_style())
}

/// A location of the protocol (`Location`): a URI and a range.
#[derive(Debug, Clone, PartialEq, Eq)]
pub struct ProtocolLocation {
    pub uri: String,
    pub range: LspRange,
}

/// A location link of the protocol (`LocationLink`), by its target.
#[derive(Debug, Clone, PartialEq, Eq)]
pub struct ProtocolLocationLink {
    pub target_uri: String,
    pub target_selection_range: LspRange,
}

/// A decoded `textDocument/definition` response.
#[derive(Debug, Clone, PartialEq, Eq)]
pub enum DefinitionResponse {
    Scalar(ProtocolLocation),
    Array(Vec<ProtocolLocation>),
    Link(Vec<ProtocolLocationLink>),
}

/// A text edit of the protocol (`TextEdit`).
#[derive(Debug, Clone, PartialEq, Eq)]
pub struct ProtocolTextEdit {
    pub range: LspRange,
    pub new_text: String,
}

/// A location as its server, path, file path, URI and range.
pub open spec fn location_view(l: LspLocation) -> (Seq<char>, Seq<char>, Option<Seq<char>>, Seq<char>, TextRange) {
    (l.server_id@, l.path@, opt_view(l.file_path), l.uri@, l.range)
}

pub open spec fn location_views(v: Seq<LspLocation>) -> Seq<(Seq<char>, Seq<char>, Option<Seq<char>>, Seq<char>, TextRange)> {
    v.map_values(|l: LspLocation| location_view(l))
}

/// A location by URI: the file path where the URI is a file URI, and the
/// URI itself as the path otherwise.
pub open spec fn location_spec(server_id: Seq<char>, uri: Seq<char>, range: TextRange, style: PathStyle) -> (
    Seq<char>,
    Seq<char>,
    Option<Seq<char>>,
    Seq<char>,
    TextRange,
) {
    let file_path = file_uri_to_path_spec(uri, style);
    (
        server_id,
        match file_path {
            Some(p) => p,
            None => uri,
        },
        file_path,
        uri,
        range,
    )
}

/// The editor range of a protocol range.
pub open spec fn text_range_of(r: LspRange) -> TextRange {
    TextRange {
        start: TextPoint { line: r.start.line as usize, column: r.start.character as usize },
        end: TextPoint { line: r.end.line as usize, column: r.end.character as usize },
    }
}

impl LspLocation {
    pub fn from_uri_in_style(server_id: &str, uri: &str, range: TextRange, style: PathStyle) -> (r: Self)
        ensures
            location_view(r) == location_spec(server_id@, uri@, range, style),
    {
        let file_path = file_uri_to_path_in_style(uri, style);
        let path = match &file_path {
            Some(p) => owned(p.as_str()),
            None => owned(uri),
        };
        LspLocation { server_id: owned(server_id), path, file_path, uri: owned(uri), range }
    }

    /// A location by URI, with the host's path rules.
    pub fn from_uri(server_id: &str, uri: &str, range: TextRange) -> (r: Self)
        ensures
            exists|style: PathStyle| location_view(r) == location_spec(server_id@, uri@, range, style),
    {
        LspLocation::from_uri_in_style(server_id, uri, range, crate::paths::host_path_style())
    }
}

pub fn location_from_lsp(server_id: &str, location: &ProtocolLocation, style: PathStyle) -> (r: Option<LspLocation>)
    ensures
        r matches Some(l) && location_view(l) == location_spec(
            server_id@,
            location.uri@,
            text_range_of(location.range),
            style,
        ),
{
    Some(
        LspLocation::from_uri_in_style(
            server_id,
            location.uri.as_str(),
            text_range_from_lsp_range(location.range),
            style,
        ),
    )
}

pub fn location_from_link(server_id: &str, link: &ProtocolLocationLink, style: PathStyle) -> (r: Option<LspLocation>)
    ensures
        r matches Some(l) && location_view(l) == location_spec(
            server_id@,
            link.target_uri@,
            text_range_of(link.target_selection_range),
            style,
        ),
{
    Some(
        LspLocation::from_uri_in_style(
            server_id,
            link.target_uri.as_str(),
            text_range_from_lsp_range(link.target_selection_range),
            style,
        ),
    )
}

pub open spec fn locations_of(server_id: Seq<char>, ls: Seq<ProtocolLocation>, style: PathStyle) -> Seq<
    (Seq<char>, Seq<char>, Option<Seq<char>>, Seq<char>, TextRange),
> {
    ls.map_values(|l: ProtocolLocation| location_spec(server_id, l.uri@, text_range_of(l.range), style))
}

pub open spec fn links_of(server_id: Seq<char>, ls: Seq<ProtocolLocationLink>, style: PathStyle) -> Seq<
    (Seq<char>, Seq<char>, Option<Seq<char>>, Seq<char>, TextRange),
> {
    ls.map_values(
        |l: ProtocolLocationLink|
            location_spec(server_id, l.target_uri@, text_range_of(l.target_selection_range), style),
    )
}

/// The locations of protocol locations, in order.
pub fn locations_from_lsp(server_id: &str, locations: &[ProtocolLocation], style: PathStyle) -> (r: Vec<LspLocation>)
    ensures
        location_views(r@) == locations_of(server_id@, locations@, style),
{
    let mut out: Vec<LspLocation> = Vec::new();
    let mut i: usize = 0;
    while i < locations.len()
        invariant
            i <= locations@.len(),
            location_views(out@) == locations_of(server_id@, locations@.take(i as int), style),
        decreases locations@.len() - i,
    {
        match location_from_lsp(server_id, &locations[i], style) {
            Some(l) => {
                proof {
                    assert(locations_of(server_id@, locations@.take(i + 1), style) =~= locations_of(
                        server_id@,
                        locations@.take(i as int),
                        style,
                    ).push(location_view(l)));
                    assert(location_views(out@.push(l)) =~= location_views(out@).push(location_view(l)));
                }
                out.push(l);
            },
            None => {},
        }
        i += 1;
    }
    proof {
        assert(locations@.take(locations@.len() as int) =~= locations@);
    }
    out
}

/// The locations of protocol location links (by their targets), in order.
pub fn locations_from_links(server_id: &str, links: &[ProtocolLocationLink], style: PathStyle) -> (r: Vec<LspLocation>)
    ensures
        location_views(r@) == links_of(server_id@, links@, style),
{
    let mut out: Vec<LspLocation> = Vec::new();
    let mut i: usize = 0;
    while i < links.len()
        invariant
            i <= links@.len(),
            location_views(out@) == links_of(server_id@, links@.take(i as int), style),
        decreases links@.len() - i,
    {
        match location_from_link(server_id, &links[i], style) {
            Some(l) => {
                proof {
                    assert(links_of(server_id@, links@.take(i + 1), style) =~= links_of(
                        server_id@,
                        links@.take(i as int),
                        style,
                    ).push(location_view(l)));
                    assert(location_views(out@.push(l)) =~= location_views(out@).push(location_view(l)));
                }
                out.push(l);
            },
            None => {},
        }
        i += 1;
    }
    proof {
        assert(links@.take(links@.len() as int) =~= links@);
    }
    out
}

/// The locations a decoded definition response lists.
pub open spec fn definition_locations_spec(server_id: Seq<char>, response: DefinitionResponse, style: PathStyle) -> Seq<
    (Seq<char>, Seq<char>, Option<Seq<char>>, Seq<char>, TextRange),
> {
    match response {
        DefinitionResponse::Scalar(l) => seq![location_spec(server_id, l.uri@, text_range_of(l.range), style)],
        DefinitionResponse::Array(ls) => locations_of(server_id, ls@, style),
        DefinitionResponse::Link(ls) => links_of(server_id, ls@, style),
    }
}

pub fn definition_locations(server_id: &str, response: &DefinitionResponse, style: PathStyle) -> (r: Vec<LspLocation>)
    ensures
        location_views(r@) == definition_locations_spec(server_id@, *response, style),
{
    match response {
        DefinitionResponse::Scalar(location) => {
            let mut out: Vec<LspLocation> = Vec::new();
            match location_from_lsp(server_id, location, style) {
                Some(l) => {
                    out.push(l);
                },
                None => {},
            }
            proof {
                assert(location_views(out@) =~= seq![location_view(out@[0])]);
            }
            out
        },
        DefinitionResponse::Array(locations) => locations_from_lsp(server_id, locations.as_slice(), style),
        DefinitionResponse::Link(links) => locations_from_links(server_id, links.as_slice(), style),
    }
}

/// The editor edit of a protocol text edit.
pub fn lsp_text_edit_from_lsp(edit: &ProtocolTextEdit) -> (r: LspTextEdit)
    ensures
        edit_view(r) == (text_range_of(edit.range), edit.new_text@),
{
    LspTextEdit::new(text_range_from_lsp_range(edit.range), owned(edit.new_text.as_str()))
}

/// The editor edits of decoded formatting edits (`None` stays `None`).
pub fn text_edits_from_lsp(edits: Option<&[ProtocolTextEdit]>) -> (r: Option<Vec<LspTextEdit>>)
    ensures
        match edits {
            Some(es) => r matches Some(v) && edit_views(v@) == es@.map_values(
                |e: ProtocolTextEdit| (text_range_of(e.range), e.new_text@),
            ),
            None => r is None,
        },
{
    let es = match edits {
        Some(es) => es,
        None => return None,
    };
    let mut out: Vec<LspTextEdit> = Vec::new();
    let mut i: usize = 0;
    while i < es.len()
        invariant
            i <= es@.len(),
            edit_views(out@) == es@.take(i as int).map_values(
                |e: ProtocolTextEdit| (text_range_of(e.range), e.new_text@),
            ),
        decreases es@.len() - i,
    {
        let e = lsp_text_edit_from_lsp(&es[i]);
        proof {
            assert(es@.take(i + 1).map_values(|e: ProtocolTextEdit| (text_range_of(e.range), e.new_text@))
                =~= es@.take(i as int).map_values(
                |e: ProtocolTextEdit| (text_range_of(e.range), e.new_text@),
            ).push(edit_view(e)));
            assert(edit_views(out@.push(e)) =~= edit_views(out@).push(edit_view(e)));
        }
        out.push(e);
        i += 1;
    }
    proof {
        assert(es@.take(es@.len() as int) =~= es@);
    }
    Some(out)
}


/// Diagnostic severities follow the protocol's numbers: a diagnostic with
/// severity 1 is an error, 2 a warning, and any other (or none) is read as
/// information; whether it reads at all does not depend on its severity.
pub proof fn law_diagnostic_severity_numbers(j: Json)
    ensures
        diagnostic_spec(j) matches Some(d) ==> {
            &&& Json::u64_opt(j.get("severity"@)) == Some(1u64) ==> d.2 == DiagnosticSeverity::Error
            &&& Json::u64_opt(j.get("severity"@)) == Some(2u64) ==> d.2 == DiagnosticSeverity::Warning
            &&& Json::u64_opt(j.get("severity"@)) != Some(1u64) && Json::u64_opt(j.get("severity"@)) != Some(2u64)
                ==> d.2 == DiagnosticSeverity::Information
        },
        diagnostic_spec(j) is Some <==> (diagnostic_point_spec(Json::get_opt(j.get("range"@), "start"@)) is Some
            && diagnostic_point_spec(Json::get_opt(j.get("range"@), "end"@)) is Some),
{
}

} // verus!
