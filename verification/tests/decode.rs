use editor_lsp::decode::{
    decode_definition_response, decode_hover_contents, decode_initialize_result, decode_reference_response,
    decode_signature_help, decode_text_edit_response, parse_json_body,
};
use editor_lsp::hover::{Documentation, HoverContents, MarkedString, MarkupKind, ParameterLabel};
use editor_lsp::json::{JsonNumber, JsonValue};
use editor_lsp::parse::DefinitionResponse;
use editor_lsp::sync::{TextDocumentSyncCapability, TextDocumentSyncKind};
use editor_lsp::types::LspClientError;

fn j(text: &str) -> JsonValue {
    parse_json_body(text.as_bytes()).expect("json")
}

fn message(error: LspClientError) -> String {
    match error {
        LspClientError::Protocol(m) => m,
        other => panic!("unexpected {other:?}"),
    }
}

#[test]
fn json_bodies_parse_into_values() {
    let value = parse_json_body(br#"{"id": 3, "result": [true, null, -2, "x"]}"#).expect("parses");
    assert_eq!(value.get("id").and_then(JsonValue::as_u64), Some(3));
    match value.get("result") {
        Some(JsonValue::Array(items)) => {
            assert_eq!(items.len(), 4);
            assert_eq!(items[0], JsonValue::Bool(true));
            assert_eq!(items[1], JsonValue::Null);
            assert_eq!(items[2], JsonValue::Number(JsonNumber::NegInt(-2)));
            assert_eq!(items[3], JsonValue::String("x".to_owned()));
        }
        other => panic!("unexpected {other:?}"),
    }
    let error = message(parse_json_body(b"{not json").unwrap_err());
    assert!(error.starts_with("failed to parse JSON-RPC payload: "), "{error}");
}

#[test]
fn hover_contents_decode_in_each_shape() {
    assert_eq!(
        decode_hover_contents(&j(r#"{"kind": "markdown", "value": "**x**"}"#)),
        Some(HoverContents::Markup { kind: MarkupKind::Markdown, value: "**x**".to_owned() })
    );
    assert_eq!(
        decode_hover_contents(&j(r#""plain""#)),
        Some(HoverContents::Scalar(MarkedString::String("plain".to_owned())))
    );
    assert_eq!(
        decode_hover_contents(&j(r#"[{"language": "rust", "value": "fn f()"}, "doc"]"#)),
        Some(HoverContents::Array(vec![
            MarkedString::LanguageString { language: "rust".to_owned(), value: "fn f()".to_owned() },
            MarkedString::String("doc".to_owned()),
        ]))
    );
    assert_eq!(decode_hover_contents(&j("42")), None);
}

#[test]
fn definition_replies_decode_locations_and_links() {
    let location = r#"{"uri": "file:///a.rs", "range": {"start": {"line": 1, "character": 2}, "end": {"line": 1, "character": 5}}}"#;
    match decode_definition_response("ra", &j(location)).expect("ok") {
        Some(DefinitionResponse::Scalar(l)) => {
            assert_eq!(l.uri, "file:///a.rs");
            assert_eq!(l.range.start.character, 2);
        }
        other => panic!("unexpected {other:?}"),
    }
    match decode_definition_response("ra", &j(&format!("[{location}]"))).expect("ok") {
        Some(DefinitionResponse::Array(ls)) => assert_eq!(ls.len(), 1),
        other => panic!("unexpected {other:?}"),
    }
    let link = r#"[{"targetUri": "file:///b.rs", "targetRange": {"start": {"line": 0, "character": 0}, "end": {"line": 9, "character": 0}}, "targetSelectionRange": {"start": {"line": 3, "character": 4}, "end": {"line": 3, "character": 8}}}]"#;
    match decode_definition_response("ra", &j(link)).expect("ok") {
        Some(DefinitionResponse::Link(ls)) => {
            assert_eq!(ls[0].target_uri, "file:///b.rs");
            assert_eq!(ls[0].target_selection_range.start.line, 3);
        }
        other => panic!("unexpected {other:?}"),
    }
    assert!(decode_definition_response("ra", &JsonValue::Null).expect("ok").is_none());
    let error = message(decode_definition_response("ra", &j(r#"{"uri": 5}"#)).unwrap_err());
    assert!(error.starts_with("failed to decode location response from `ra`: "), "{error}");
}

#[test]
fn reference_and_formatting_replies_decode() {
    assert!(decode_reference_response("ra", &JsonValue::Null).expect("ok").is_empty());
    let refs = decode_reference_response(
        "ra",
        &j(r#"[{"uri": "file:///a.rs", "range": {"start": {"line": 0, "character": 0}, "end": {"line": 0, "character": 1}}}]"#),
    )
    .expect("ok");
    assert_eq!(refs.len(), 1);
    let error = message(decode_reference_response("ra", &j("{}")).unwrap_err());
    assert!(error.starts_with("failed to decode reference response from `ra`: "), "{error}");

    assert!(decode_text_edit_response("ra", "formatting", &JsonValue::Null).expect("ok").is_none());
    let edits = decode_text_edit_response(
        "ra",
        "formatting",
        &j(r#"[{"range": {"start": {"line": 0, "character": 0}, "end": {"line": 0, "character": 3}}, "newText": "let"}]"#),
    )
    .expect("ok")
    .expect("edits");
    assert_eq!(edits[0].new_text, "let");
    let error = message(decode_text_edit_response("ra", "range formatting", &j("3")).unwrap_err());
    assert!(error.starts_with("failed to decode range formatting response from `ra`: "), "{error}");
}

#[test]
fn signature_help_replies_decode() {
    let help = decode_signature_help(
        "ra",
        &j(r#"{"signatures": [{"label": "f(a, b)", "documentation": {"kind": "markdown", "value": "doc"},
              "parameters": [{"label": [2, 3]}, {"label": "b", "documentation": "second"}]}],
              "activeSignature": 0, "activeParameter": 1}"#),
    )
    .expect("ok")
    .expect("help");
    assert_eq!(help.active_signature, Some(0));
    assert_eq!(help.active_parameter, Some(1));
    let sig = &help.signatures[0];
    assert_eq!(sig.label, "f(a, b)");
    assert_eq!(sig.documentation, Some(Documentation::MarkupContent { kind: MarkupKind::Markdown, value: "doc".to_owned() }));
    let params = sig.parameters.as_ref().expect("parameters");
    assert_eq!(params[0].label, ParameterLabel::LabelOffsets(2, 3));
    assert_eq!(params[1].label, ParameterLabel::Simple("b".to_owned()));
    assert_eq!(params[1].documentation, Some(Documentation::String("second".to_owned())));
    assert!(decode_signature_help("ra", &JsonValue::Null).expect("ok").is_none());
    let error = message(decode_signature_help("ra", &j(r#"{"signatures": 1}"#)).unwrap_err());
    assert!(error.starts_with("failed to decode signature help response from `ra`: "), "{error}");
}

#[test]
fn initialize_replies_give_sync_kind_and_resolve_support() {
    let (sync, resolve) = decode_initialize_result(
        "ra",
        &j(r#"{"capabilities": {"textDocumentSync": 2, "completionProvider": {"resolveProvider": true}}}"#),
    )
    .expect("ok");
    assert_eq!(sync, Some(TextDocumentSyncCapability::Kind(TextDocumentSyncKind(2))));
    assert!(resolve);
    let (sync, resolve) =
        decode_initialize_result("ra", &j(r#"{"capabilities": {"textDocumentSync": {"openClose": true, "change": 1}}}"#))
            .expect("ok");
    assert_eq!(sync, Some(TextDocumentSyncCapability::Options(Some(TextDocumentSyncKind(1)))));
    assert!(!resolve);
    let (sync, _) = decode_initialize_result("ra", &j(r#"{"capabilities": {}}"#)).expect("ok");
    assert_eq!(sync, None);
    let error = message(decode_initialize_result("ra", &j("[]")).unwrap_err());
    assert!(error.starts_with("failed to decode initialize response for `ra`: "), "{error}");
}

#[test]
fn repeated_keys_keep_the_first_member() {
    let value = JsonValue::Object(vec![
        ("a".to_owned(), JsonValue::Bool(true)),
        ("b".to_owned(), JsonValue::Array(vec![JsonValue::Object(vec![
            ("x".to_owned(), JsonValue::Null),
            ("x".to_owned(), JsonValue::Bool(false)),
        ])])),
        ("a".to_owned(), JsonValue::Bool(false)),
    ]);
    let unique = editor_lsp::decode::dedup_json(&value);
    assert_eq!(
        unique,
        JsonValue::Object(vec![
            ("a".to_owned(), JsonValue::Bool(true)),
            ("b".to_owned(), JsonValue::Array(vec![JsonValue::Object(vec![("x".to_owned(), JsonValue::Null)])])),
        ])
    );
    let bytes = editor_lsp::decode::encode_message(&value).expect("encodes");
    assert_eq!(String::from_utf8(bytes).unwrap(), r#"{"a":true,"b":[{"x":null}]}"#);
}

#[test]
fn numbers_with_unreadable_text_are_encoding_errors() {
    let bad = JsonValue::Object(vec![("n".to_owned(), JsonValue::Number(JsonNumber::Float("1.5x".to_owned())))]);
    let error = message(editor_lsp::decode::encode_message(&bad).unwrap_err());
    assert!(error.starts_with("failed to encode JSON-RPC message: "), "{error}");
    let good = JsonValue::Object(vec![("n".to_owned(), JsonValue::Number(JsonNumber::Float("1.5".to_owned())))]);
    assert_eq!(String::from_utf8(editor_lsp::decode::encode_message(&good).unwrap()).unwrap(), r#"{"n":1.5}"#);
}

#[test]
fn transport_log_text_is_redacted_pretty_json() {
    let message = j(r#"{"params": {"password": "hunter2", "user": "sam"}}"#);
    let text = editor_lsp::decode::format_transport_message(&message);
    assert!(text.contains("[redacted]"), "{text}");
    assert!(!text.contains("hunter2"), "{text}");
    assert!(text.contains('\n'), "{text}");
    let reparsed = j(&text);
    assert_eq!(reparsed.get("params").and_then(|p| p.get("user")).and_then(JsonValue::as_str), Some("sam"));
}
