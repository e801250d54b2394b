use editor_lsp::json::{JsonNumber, JsonValue};
use editor_lsp::params::{
    code_action_params, inline_completion_params, lsp_code_action_diagnostic, lsp_formatting_options,
    lsp_position, path_to_uri, range_object, text_document_params, text_document_position_params,
};
use editor_lsp::text::{TextPoint, TextRange};
use editor_lsp::types::{Diagnostic, DiagnosticSeverity, LspClientError, LspFormattingOptions};

fn to_serde(v: &JsonValue) -> serde_json::Value {
    match v {
        JsonValue::Null => serde_json::Value::Null,
        JsonValue::Bool(b) => serde_json::Value::Bool(*b),
        JsonValue::Number(JsonNumber::PosInt(n)) => serde_json::Value::from(*n),
        JsonValue::Number(JsonNumber::NegInt(n)) => serde_json::Value::from(*n),
        JsonValue::Number(JsonNumber::Float(t)) => serde_json::from_str(t).expect("number"),
        JsonValue::String(s) => serde_json::Value::String(s.clone()),
        JsonValue::Array(items) => serde_json::Value::Array(items.iter().map(to_serde).collect()),
        JsonValue::Object(members) => {
            let mut map = serde_json::Map::new();
            for (k, v) in members {
                map.insert(k.clone(), to_serde(v));
            }
            serde_json::Value::Object(map)
        }
    }
}

fn protocol_message(error: LspClientError) -> String {
    match error {
        LspClientError::Protocol(message) => message,
        other => panic!("unexpected error {other:?}"),
    }
}

#[test]
fn code_action_params_use_flattened_lsp_shape() {
    let path = "P:\\volt\\src\\main.ts";
    let range = TextRange::new(TextPoint::new(3, 4), TextPoint::new(3, 7));
    let diagnostics = vec![Diagnostic::new(
        "typescript".to_owned(),
        "Cannot find name `missingSymbol`.".to_owned(),
        DiagnosticSeverity::Error,
        range,
    )];
    let params = code_action_params(path, range, &diagnostics, Some("progress:textDocument/codeAction:test"))
        .expect("code action params");
    let encoded = to_serde(&params);
    let expected_uri = path_to_uri(path).expect("uri");

    assert_eq!(
        encoded.get("textDocument").and_then(|text_document| text_document.get("uri")).and_then(serde_json::Value::as_str),
        Some(expected_uri.as_str())
    );
    let expected_range: serde_json::Value = serde_json::from_str(
        r#"{"start": { "line": 3, "character": 4 }, "end": { "line": 3, "character": 7 }}"#,
    )
    .expect("range");
    assert_eq!(encoded.get("range"), Some(&expected_range));
    assert_eq!(
        encoded.get("context").and_then(|context| context.get("triggerKind")).and_then(serde_json::Value::as_u64),
        Some(1)
    );
    assert_eq!(
        encoded
            .get("context")
            .and_then(|context| context.get("diagnostics"))
            .and_then(serde_json::Value::as_array)
            .map(Vec::len),
        Some(1)
    );
    assert_eq!(
        encoded
            .get("context")
            .and_then(|context| context.get("diagnostics"))
            .and_then(serde_json::Value::as_array)
            .and_then(|diagnostics| diagnostics.first())
            .and_then(|diagnostic| diagnostic.get("severity"))
            .and_then(serde_json::Value::as_u64),
        Some(1)
    );
    assert_eq!(
        encoded.get("workDoneToken"),
        Some(&serde_json::Value::String("progress:textDocument/codeAction:test".to_owned()))
    );
}

#[test]
fn code_action_params_decode_as_lsp_types() {
    let range = TextRange::new(TextPoint::new(0, 0), TextPoint::new(0, 2));
    let params = code_action_params("/work/a.rs", range, &[], None).expect("params");
    let decoded: lsp_types::CodeActionParams = serde_json::from_value(to_serde(&params)).expect("decodes");
    assert_eq!(decoded.text_document.uri.as_str(), "file:///work/a.rs");
    assert!(decoded.context.diagnostics.is_empty());
    assert!(decoded.work_done_progress_params.work_done_token.is_none());
}

#[test]
fn position_params_carry_uri_and_position() {
    let params = text_document_position_params("/work/src/main.rs", TextPoint::new(12, 5)).expect("params");
    let decoded: lsp_types::TextDocumentPositionParams = serde_json::from_value(to_serde(&params)).expect("decodes");
    assert_eq!(decoded.text_document.uri.as_str(), "file:///work/src/main.rs");
    assert_eq!(decoded.position, lsp_types::Position::new(12, 5));
}

#[test]
fn oversized_coordinates_are_rejected_line_first() {
    let big = (u32::MAX as usize) + 1;
    let error = text_document_position_params("/a.rs", TextPoint::new(big, big)).expect_err("line too large");
    assert_eq!(protocol_message(error), format!("line {big} does not fit in LSP position range"));
    let error = lsp_position(TextPoint::new(1, big)).expect_err("column too large");
    assert_eq!(protocol_message(error), format!("column {big} does not fit in LSP position range"));
    assert_eq!(lsp_position(TextPoint::new(7, 9)).expect("fits"), (7, 9));
}

#[test]
fn inline_completion_params_name_version_trigger_and_options() {
    let params = inline_completion_params("/w/a.ts", 4, TextPoint::new(2, 3), LspFormattingOptions::new(2, true))
        .expect("params");
    let value = to_serde(&params);
    assert_eq!(value["textDocument"]["uri"], serde_json::Value::String("file:///w/a.ts".to_owned()));
    assert_eq!(value["textDocument"]["version"], serde_json::Value::from(4));
    assert_eq!(value["position"]["line"], serde_json::Value::from(2));
    assert_eq!(value["position"]["character"], serde_json::Value::from(3));
    assert_eq!(value["context"]["triggerKind"], serde_json::Value::from(2));
    assert_eq!(value["formattingOptions"]["tabSize"], serde_json::Value::from(2));
    assert_eq!(value["formattingOptions"]["insertSpaces"], serde_json::Value::Bool(true));
}

#[test]
fn formatting_options_decode_as_lsp_types() {
    let decoded: lsp_types::FormattingOptions =
        serde_json::from_value(to_serde(&lsp_formatting_options(LspFormattingOptions::new(8, false)))).expect("decodes");
    assert_eq!(decoded.tab_size, 8);
    assert!(!decoded.insert_spaces);
}

#[test]
fn diagnostics_go_back_to_the_server_in_lsp_form() {
    let d = Diagnostic::new(
        "clippy".to_owned(),
        "needless borrow".to_owned(),
        DiagnosticSeverity::Warning,
        TextRange::new(TextPoint::new(1, 2), TextPoint::new(1, 6)),
    );
    let decoded: lsp_types::Diagnostic =
        serde_json::from_value(to_serde(&lsp_code_action_diagnostic(&d))).expect("decodes");
    assert_eq!(decoded.severity, Some(lsp_types::DiagnosticSeverity::WARNING));
    assert_eq!(decoded.source.as_deref(), Some("clippy"));
    assert_eq!(decoded.message, "needless borrow");
    assert_eq!(decoded.range.end, lsp_types::Position::new(1, 6));
}

#[test]
fn range_coordinates_are_cut_to_32_bits() {
    let big = (u32::MAX as usize) + 3;
    let value = to_serde(&range_object(TextRange::new(TextPoint::new(big, 0), TextPoint::new(0, 1))));
    assert_eq!(value["start"]["line"], serde_json::Value::from(2));
}

#[test]
fn uris_that_parse_are_returned_unchanged() {
    assert_eq!(path_to_uri("/tmp/a b.rs").expect("uri"), "file:///tmp/a%20b.rs");
}

#[test]
fn client_errors_read_as_sentences() {
    assert_eq!(
        LspClientError::Timeout("textDocument/hover".to_owned()).message(),
        "timed out waiting for LSP response to `textDocument/hover`"
    );
    assert_eq!(
        LspClientError::Disconnected("rust-analyzer".to_owned()).message(),
        "language server `rust-analyzer` disconnected"
    );
    assert_eq!(LspClientError::Protocol("bad frame".to_owned()).message(), "bad frame");
    let io = LspClientError::Io(std::io::Error::new(std::io::ErrorKind::Other, "pipe closed"));
    assert_eq!(io.message(), "pipe closed");
}

#[test]
fn text_document_params_name_the_document_uri() {
    let params = text_document_params("/tmp/a b.rs").expect("params");
    let expected: serde_json::Value = serde_json::from_str(r#"{ "textDocument": { "uri": "file:///tmp/a%20b.rs" } }"#).unwrap();
    assert_eq!(to_serde(&params), expected);
}
