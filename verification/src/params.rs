//! Request parameters the client sends: document URIs, positions and
//! ranges, text-document-position parameters, inline completion and code
//! action parameters, and formatting options. Objects list their members in
//! key order, as the encoder writes them.
use vstd::prelude::*;
use crate::json::{Json, JsonValue, JsonNumber, NumberModel, model_members, model_items, push_member, push_item};
use crate::strings::{owned, decimal, u64_decimal};
use crate::text::{TextPoint, TextRange};
use crate::types::{Diagnostic, DiagnosticSeverity, LspClientError, LspFormattingOptions};
use crate::uri::{file_uri_spec, path_to_file_uri};

verus! {

/// What parsing `s` as a URI reports: `None` when it parses, else the
/// parser's error text.
pub uninterp spec fn uri_parse_failure(s: Seq<char>) -> Option<Seq<char>>;

/// Parses `s` as an LSP URI (`lsp_types::Uri::from_str`, which runs the
/// `fluent_uri` parser). The result is named, as a function of `s` alone:
/// `None` when the text parses, else the error's display text. The parser
/// panics on input longer than `i32::MAX` bytes, which `requires` leaves out.
#[verifier::external_body]
fn uri_parse_error(s: &str) -> (r: Option<String>)
    requires
        vstd::utf8::encode_utf8(s@).len() <= 0x7fff_ffff,
    ensures
        crate::types::opt_view(r) == uri_parse_failure(s@),
{
    match s.parse::<lsp_types::Uri>() {
        Ok(_) => None,
        Err(error) => Some(error.to_string()),
    }
}

/// Whether the `file://` URI of `path` is short enough for the URI parser,
/// which panics on input longer than `i32::MAX` bytes.
pub open spec fn uri_fits(path: Seq<char>) -> bool {
    vstd::utf8::encode_utf8(file_uri_spec(path)).len() <= 0x7fff_ffff
}

/// The error for a path whose URI does not parse.
pub open spec fn uri_error_text(path: Seq<char>, error: Seq<char>) -> Seq<char> {
    "failed to convert `"@ + path + "` into a valid file URI: "@ + error
}

/// The URI of `path`, or the message of the error the parser gave.
pub open spec fn path_uri_spec(path: Seq<char>) -> Result<Seq<char>, Seq<char>> {
    match uri_parse_failure(file_uri_spec(path)) {
        None => Ok(file_uri_spec(path)),
        Some(e) => Err(uri_error_text(path, e)),
    }
}

/// Whether a result carries the given value or protocol error text.
pub open spec fn matches_spec<T>(r: Result<T, LspClientError>, s: Result<Seq<char>, Seq<char>>, view: spec_fn(T) -> Seq<char>) -> bool {
    match (r, s) {
        (Ok(v), Ok(w)) => view(v) == w,
        (Err(LspClientError::Protocol(m)), Err(w)) => m@ == w,
        _ => false,
    }
}

/// The `file://` URI of `path`, checked by the URI parser.
pub fn path_to_uri(path: &str) -> (r: Result<String, LspClientError>)
    requires
        uri_fits(path@),
    ensures
        matches_spec(r, path_uri_spec(path@), |s: String| s@),
{
    let uri = path_to_file_uri(path);
    proof {
        assert(uri_fits(path@));
    }
    match uri_parse_error(uri.as_str()) {
        None => Ok(uri),
        Some(error) => {
            let mut m = owned("failed to convert `");
            m.append(path);
            m.append("` into a valid file URI: ");
            m.append(error.as_str());
            Err(LspClientError::Protocol(m))
        },
    }
}

pub open spec fn num(n: u64) -> Json {
    Json::Number(NumberModel::PosInt(n))
}

/// `{"character": c, "line": l}`.
pub open spec fn position_json(line: u32, character: u32) -> Json {
    Json::Object(seq![("character"@, num(character as u64)), ("line"@, num(line as u64))])
}

/// A range with each coordinate cut to 32 bits, as the client converts
/// buffer points.
pub open spec fn range_json(r: TextRange) -> Json {
    Json::Object(
        seq![
            ("end"@, position_json(r.end.line as u32, r.end.column as u32)),
            ("start"@, position_json(r.start.line as u32, r.start.column as u32)),
        ],
    )
}

fn number(n: u64) -> (r: JsonValue)
    ensures
        r.model() == num(n),
{
    JsonValue::Number(JsonNumber::PosInt(n))
}

fn position_object(line: u32, character: u32) -> (r: JsonValue)
    ensures
        r.model() == position_json(line, character),
{
    crate::json::object2("character", number(character as u64), "line", number(line as u64))
}

/// The LSP form of a buffer range.
pub fn range_object(r: TextRange) -> (v: JsonValue)
    ensures
        v.model() == range_json(r),
{
    #[verifier::truncate]
    let el = r.end.line as u32;
    #[verifier::truncate]
    let ec = r.end.column as u32;
    #[verifier::truncate]
    let sl = r.start.line as u32;
    #[verifier::truncate]
    let sc = r.start.column as u32;
    crate::json::object2("end", position_object(el, ec), "start", position_object(sl, sc))
}

/// The error for a coordinate that does not fit in 32 bits.
pub open spec fn position_error_text(what: Seq<char>, n: usize) -> Seq<char> {
    what + " "@ + decimal(n as nat) + " does not fit in LSP position range"@
}

/// A buffer point as an LSP position: the line is checked first, then the
/// column; each must fit in `u32`.
pub open spec fn lsp_position_spec(p: TextPoint) -> Result<(u32, u32), Seq<char>> {
    if p.line > u32::MAX {
        Err(position_error_text("line"@, p.line))
    } else if p.column > u32::MAX {
        Err(position_error_text("column"@, p.column))
    } else {
        Ok((p.line as u32, p.column as u32))
    }
}

fn position_error(what: &str, n: usize) -> (r: LspClientError)
    ensures
        r matches LspClientError::Protocol(m) && m@ == position_error_text(what@, n),
{
    let mut m = owned(what);
    m.append(" ");
    let d = u64_decimal(n as u64);
    m.append(d.as_str());
    m.append(" does not fit in LSP position range");
    LspClientError::Protocol(m)
}

/// The LSP position of a buffer point, or an error when a coordinate does
/// not fit.
pub fn lsp_position(p: TextPoint) -> (r: Result<(u32, u32), LspClientError>)
    ensures
        match (r, lsp_position_spec(p)) {
            (Ok(v), Ok(w)) => v == w,
            (Err(LspClientError::Protocol(m)), Err(w)) => m@ == w,
            _ => false,
        },
{
    if p.line > u32::MAX as usize {
        return Err(position_error("line", p.line));
    }
    if p.column > u32::MAX as usize {
        return Err(position_error("column", p.column));
    }
    Ok((p.line as u32, p.column as u32))
}

/// `{"position": …, "textDocument": {"uri": …}}`, or the first error: the
/// line, the column, then the URI.
pub open spec fn text_document_position_spec(path: Seq<char>, p: TextPoint) -> Result<Json, Seq<char>> {
    match lsp_position_spec(p) {
        Err(e) => Err(e),
        Ok((l, c)) => match path_uri_spec(path) {
            Err(e) => Err(e),
            Ok(uri) => Ok(
                Json::Object(
                    seq![
                        ("position"@, position_json(l, c)),
                        ("textDocument"@, Json::Object(seq![("uri"@, Json::Str(uri))])),
                    ],
                ),
            ),
        },
    }
}

/// Whether a result carries the given JSON or protocol error text.
pub open spec fn json_result_matches(r: Result<JsonValue, LspClientError>, s: Result<Json, Seq<char>>) -> bool {
    match (r, s) {
        (Ok(v), Ok(w)) => v.model() == w,
        (Err(LspClientError::Protocol(m)), Err(w)) => m@ == w,
        _ => false,
    }
}

/// Parameters naming a document and a position in it.
pub fn text_document_position_params(path: &str, position: TextPoint) -> (r: Result<JsonValue, LspClientError>)
    requires
        uri_fits(path@),
    ensures
        json_result_matches(r, text_document_position_spec(path@, position)),
{
    let (line, character) = match lsp_position(position) {
        Ok(v) => v,
        Err(e) => return Err(e),
    };
    let uri = match path_to_uri(path) {
        Ok(u) => u,
        Err(e) => return Err(e),
    };
    let doc = crate::json::object1("uri", JsonValue::String(uri));
    Ok(crate::json::object2("position", position_object(line, character), "textDocument", doc))
}

/// `{"textDocument": {"uri": …}}`, or the URI error.
pub open spec fn text_document_spec(path: Seq<char>) -> Result<Json, Seq<char>> {
    match path_uri_spec(path) {
        Err(e) => Err(e),
        Ok(uri) => Ok(Json::Object(seq![("textDocument"@, Json::Object(seq![("uri"@, Json::Str(uri))]))])),
    }
}

/// Parameters naming a document alone, as `textDocument/didFocus` sends them.
pub fn text_document_params(path: &str) -> (r: Result<JsonValue, LspClientError>)
    requires
        uri_fits(path@),
    ensures
        json_result_matches(r, text_document_spec(path@)),
{
    let uri = match path_to_uri(path) {
        Ok(u) => u,
        Err(e) => return Err(e),
    };
    let doc = crate::json::object1("uri", JsonValue::String(uri));
    Ok(crate::json::object1("textDocument", doc))
}

/// A JSON integer for an `i32`.
pub open spec fn int_json(v: i32) -> Json {
    if v >= 0 {
        Json::Number(NumberModel::PosInt(v as u64))
    } else {
        Json::Number(NumberModel::NegInt(v as i64))
    }
}

fn int_value(v: i32) -> (r: JsonValue)
    ensures
        r.model() == int_json(v),
{
    if v >= 0 {
        JsonValue::Number(JsonNumber::PosInt(v as u64))
    } else {
        JsonValue::Number(JsonNumber::NegInt(v as i64))
    }
}

/// `{"insertSpaces": …, "tabSize": …}`.
pub open spec fn formatting_options_json(o: LspFormattingOptions) -> Json {
    Json::Object(seq![("insertSpaces"@, Json::Bool(o.insert_spaces)), ("tabSize"@, num(o.tab_size as u64))])
}

/// The LSP formatting options for the editor's tab settings.
pub fn lsp_formatting_options(options: LspFormattingOptions) -> (r: JsonValue)
    ensures
        r.model() == formatting_options_json(options),
{
    crate::json::object2(
        "insertSpaces",
        JsonValue::Bool(options.insert_spaces),
        "tabSize",
        number(options.tab_size as u64),
    )
}

/// Inline completion parameters: the document with its version, the
/// position, an automatic trigger (`triggerKind` 2) and the formatting
/// options; or the first error, as for text-document-position parameters.
pub open spec fn inline_completion_spec(
    path: Seq<char>,
    version: i32,
    p: TextPoint,
    o: LspFormattingOptions,
) -> Result<Json, Seq<char>> {
    match text_document_position_spec(path, p) {
        Err(e) => Err(e),
        Ok(tdp) => match path_uri_spec(path) {
            Err(e) => Err(e),
            Ok(uri) => Ok(
                Json::Object(
                    seq![
                        ("context"@, Json::Object(seq![("triggerKind"@, num(2))])),
                        ("formattingOptions"@, formatting_options_json(o)),
                        ("position"@, tdp->Object_0[0].1),
                        (
                            "textDocument"@,
                            Json::Object(seq![("uri"@, Json::Str(uri)), ("version"@, int_json(version))]),
                        ),
                    ],
                ),
            ),
        },
    }
}

/// Parameters of `textDocument/inlineCompletion`.
pub fn inline_completion_params(
    path: &str,
    version: i32,
    position: TextPoint,
    options: LspFormattingOptions,
) -> (r: Result<JsonValue, LspClientError>)
    requires
        uri_fits(path@),
    ensures
        json_result_matches(r, inline_completion_spec(path@, version, position, options)),
{
    let (line, character) = match lsp_position(position) {
        Ok(v) => v,
        Err(e) => return Err(e),
    };
    let uri = match path_to_uri(path) {
        Ok(u) => u,
        Err(e) => return Err(e),
    };
    let mut m: Vec<(String, JsonValue)> = Vec::new();
    push_member(&mut m, "context", crate::json::object1("triggerKind", number(2)));
    push_member(&mut m, "formattingOptions", lsp_formatting_options(options));
    push_member(&mut m, "position", position_object(line, character));
    push_member(
        &mut m,
        "textDocument",
        crate::json::object2("uri", JsonValue::String(uri), "version", int_value(version)),
    );
    proof {
        assert(model_members(Seq::<(String, JsonValue)>::empty()) =~= Seq::empty());
    }
    let r = JsonValue::Object(m);
    proof {
        let w = inline_completion_spec(path@, version, position, options);
        assert(r.model()->Object_0 =~= w->Ok_0->Object_0);
    }
    Ok(r)
}

/// The LSP severity number: 1 error, 2 warning, 3 information.
pub open spec fn severity_number(s: DiagnosticSeverity) -> u64 {
    match s {
        DiagnosticSeverity::Error => 1,
        DiagnosticSeverity::Warning => 2,
        DiagnosticSeverity::Information => 3,
    }
}

/// A diagnostic in LSP form: message, range, severity and source.
pub open spec fn diagnostic_json(d: Diagnostic) -> Json {
    Json::Object(
        seq![
            ("message"@, Json::Str(d.message@)),
            ("range"@, range_json(d.range)),
            ("severity"@, num(severity_number(d.severity))),
            ("source"@, Json::Str(d.source@)),
        ],
    )
}

/// A diagnostic as sent back to the server in a code action request.
pub fn lsp_code_action_diagnostic(d: &Diagnostic) -> (r: JsonValue)
    ensures
        r.model() == diagnostic_json(*d),
{
    let severity: u64 = match d.severity {
        DiagnosticSeverity::Error => 1,
        DiagnosticSeverity::Warning => 2,
        DiagnosticSeverity::Information => 3,
    };
    let mut m: Vec<(String, JsonValue)> = Vec::new();
    push_member(&mut m, "message", JsonValue::String(owned(d.message.as_str())));
    push_member(&mut m, "range", range_object(d.range));
    push_member(&mut m, "severity", number(severity));
    push_member(&mut m, "source", JsonValue::String(owned(d.source.as_str())));
    proof {
        assert(model_members(Seq::<(String, JsonValue)>::empty()) =~= Seq::empty());
    }
    let r = JsonValue::Object(m);
    proof {
        assert(r.model()->Object_0 =~= diagnostic_json(*d)->Object_0);
    }
    r
}

/// `textDocument/codeAction` parameters: the diagnostics, an invoked
/// trigger (`triggerKind` 1), the range, the document, and the work-done
/// token when there is one; or the URI error.
pub open spec fn code_action_params_spec(
    path: Seq<char>,
    range: TextRange,
    diagnostics: Seq<Diagnostic>,
    token: Option<Seq<char>>,
) -> Result<Json, Seq<char>> {
    match path_uri_spec(path) {
        Err(e) => Err(e),
        Ok(uri) => {
            let base = seq![
                (
                    "context"@,
                    Json::Object(
                        seq![
                            ("diagnostics"@, Json::Array(diagnostics.map_values(|d: Diagnostic| diagnostic_json(d)))),
                            ("triggerKind"@, num(1)),
                        ],
                    ),
                ),
                ("range"@, range_json(range)),
                ("textDocument"@, Json::Object(seq![("uri"@, Json::Str(uri))])),
            ];
            Ok(
                Json::Object(
                    match token {
                        Some(t) => base.push(("workDoneToken"@, Json::Str(t))),
                        None => base,
                    },
                ),
            )
        },
    }
}

/// Parameters of `textDocument/codeAction`.
pub fn code_action_params(
    path: &str,
    range: TextRange,
    diagnostics: &[Diagnostic],
    work_done_token: Option<&str>,
) -> (r: Result<JsonValue, LspClientError>)
    requires
        uri_fits(path@),
    ensures
        json_result_matches(
            r,
            code_action_params_spec(
                path@,
                range,
                diagnostics@,
                match work_done_token {
                    Some(t) => Some(t@),
                    None => None,
                },
            ),
        ),
{
    let uri = match path_to_uri(path) {
        Ok(u) => u,
        Err(e) => return Err(e),
    };
    let mut items: Vec<JsonValue> = Vec::new();
    let mut i: usize = 0;
    proof {
        assert(model_items(items@) =~= diagnostics@.take(0).map_values(|d: Diagnostic| diagnostic_json(d)));
    }
    while i < diagnostics.len()
        invariant
            i <= diagnostics@.len(),
            model_items(items@) == diagnostics@.take(i as int).map_values(|d: Diagnostic| diagnostic_json(d)),
        decreases diagnostics@.len() - i,
    {
        push_item(&mut items, lsp_code_action_diagnostic(&diagnostics[i]));
        proof {
            assert(diagnostics@.take(i + 1).map_values(|d: Diagnostic| diagnostic_json(d)) =~= diagnostics@.take(
                i as int,
            ).map_values(|d: Diagnostic| diagnostic_json(d)).push(diagnostic_json(diagnostics@[i as int])));
        }
        i += 1;
    }
    proof {
        assert(diagnostics@.take(diagnostics@.len() as int) =~= diagnostics@);
    }
    let context = crate::json::object2("diagnostics", JsonValue::Array(items), "triggerKind", number(1));
    let mut m: Vec<(String, JsonValue)> = Vec::new();
    push_member(&mut m, "context", context);
    push_member(&mut m, "range", range_object(range));
    push_member(&mut m, "textDocument", crate::json::object1("uri", JsonValue::String(uri)));
    let ghost base = model_members(m@);
    match work_done_token {
        Some(t) => push_member(&mut m, "workDoneToken", JsonValue::String(owned(t))),
        None => {},
    }
    proof {
        assert(model_members(Seq::<(String, JsonValue)>::empty()) =~= Seq::empty());
    }
    let r = JsonValue::Object(m);
    proof {
        let w = code_action_params_spec(
            path@,
            range,
            diagnostics@,
            match work_done_token {
                Some(t) => Some(t@),
                None => None,
            },
        );
        assert(r.model()->Object_0 =~= w->Ok_0->Object_0);
    }
    Ok(r)
}

} // verus!
