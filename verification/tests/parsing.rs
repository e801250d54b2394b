use editor_lsp::capabilities::client_capabilities;
use editor_lsp::completion::{
    completion_needs_resolve, execute_command_params, parse_completion_kind, resolved_completion_item, parse_completion_response, parse_copilot_sign_in_response,
    parse_inline_completion_response, parse_lsp_server_command,
};
use editor_lsp::hover::{
    markdown_code_fence, parse_hover_response, signature_help_contents, Documentation, HoverContents, LspSignatureHelpContents,
    MarkedString, MarkupKind, ParameterInformation, ParameterLabel, SignatureHelp, SignatureInformation,
};
use editor_lsp::json::{JsonNumber, JsonValue};
use editor_lsp::logs::{LspNotificationLevel, LspNotificationProgress};
use editor_lsp::notify::{
    parse_progress_notification, parse_show_message_notification, parse_window_message_notification,
    ProgressTracks,
};
use editor_lsp::parse::{
    definition_locations, locations_from_lsp, parse_code_action_response, parse_diagnostic,
    parse_publish_diagnostics, text_edits_from_lsp, DefinitionResponse, ProtocolLocation, ProtocolLocationLink,
    ProtocolTextEdit,
};
use editor_lsp::order::sort_locations;
use editor_lsp::paths::PathStyle;
use editor_lsp::plain::{
    char_to_byte_offset, documentation_lines, hover_lines, normalize_lines, parameter_label_text, signature_help_lines,
    string_slice_by_chars,
};
use editor_lsp::text::{diagnostic_matches_request_range, LspPosition, LspRange, TextPoint, TextRange};
use editor_lsp::transport::{request_timeout_millis, sanitize_transport_message, work_done_progress_token};
use editor_lsp::types::{DiagnosticSeverity, LspCompletionKind};

fn to_model(v: &serde_json::Value) -> JsonValue {
    match v {
        serde_json::Value::Null => JsonValue::Null,
        serde_json::Value::Bool(b) => JsonValue::Bool(*b),
        serde_json::Value::Number(n) => {
            if let Some(u) = n.as_u64() {
                JsonValue::Number(JsonNumber::PosInt(u))
            } else if let Some(i) = n.as_i64() {
                JsonValue::Number(JsonNumber::NegInt(i))
            } else {
                JsonValue::Number(JsonNumber::Float(n.to_string()))
            }
        }
        serde_json::Value::String(s) => JsonValue::String(s.clone()),
        serde_json::Value::Array(items) => JsonValue::Array(items.iter().map(to_model).collect()),
        serde_json::Value::Object(map) => {
            JsonValue::Object(map.iter().map(|(k, v)| (k.clone(), to_model(v))).collect())
        }
    }
}

fn to_serde(v: &JsonValue) -> serde_json::Value {
    match v {
        JsonValue::Null => serde_json::Value::Null,
        JsonValue::Bool(b) => serde_json::Value::Bool(*b),
        JsonValue::Number(JsonNumber::PosInt(u)) => serde_json::Value::from(*u),
        JsonValue::Number(JsonNumber::NegInt(i)) => serde_json::Value::from(*i),
        JsonValue::Number(JsonNumber::Float(text)) => serde_json::from_str(text).unwrap(),
        JsonValue::String(s) => serde_json::Value::String(s.clone()),
        JsonValue::Array(items) => serde_json::Value::Array(items.iter().map(to_serde).collect()),
        JsonValue::Object(members) => {
            let mut map = serde_json::Map::new();
            for (k, v) in members {
                if !map.contains_key(k) {
                    map.insert(k.clone(), to_serde(v));
                }
            }
            serde_json::Value::Object(map)
        }
    }
}

fn j(text: &str) -> JsonValue {
    to_model(&serde_json::from_str::<serde_json::Value>(text).unwrap())
}

fn same(actual: &JsonValue, expected: &str) -> bool {
    to_serde(actual) == serde_json::from_str::<serde_json::Value>(expected).unwrap()
}


fn lsp_range(l0: u32, c0: u32, l1: u32, c1: u32) -> LspRange {
    LspRange { start: LspPosition { line: l0, character: c0 }, end: LspPosition { line: l1, character: c1 } }
}

#[test]
fn tests_completion_parser_handles_lists_and_docs() {
    let response = j(r#"{
        "isIncomplete": false,
        "items": [
            {
                "label": "println!",
                "kind": 3,
                "insertText": "println!",
                "detail": "macro_rules! println",
                "documentation": { "kind": "markdown", "value": "Prints to stdout." }
            }
        ]
    }"#);
    let items = parse_completion_response("rust-analyzer", &response);
    assert_eq!(items.len(), 1);
    assert_eq!(items[0].label(), "println!");
    assert_eq!(items[0].kind(), Some(LspCompletionKind::Function));
    assert_eq!(items[0].documentation(), Some("Prints to stdout."));
    assert_eq!(items[0].edit_range(), None);
}

#[test]
fn completion_parser_prefers_text_edit_over_insert_text_and_keeps_range() {
    let response = j(r#"[
        {
            "label": "bar",
            "kind": 2,
            "insertText": "bar",
            "textEdit": {
                "range": { "start": { "line": 0, "character": 3 }, "end": { "line": 0, "character": 4 } },
                "newText": ".bar()"
            }
        }
    ]"#);
    let items = parse_completion_response("csharp-ls", &response);
    assert_eq!(items.len(), 1);
    assert_eq!(items[0].label(), "bar");
    assert_eq!(items[0].insert_text(), ".bar()");
    assert_eq!(items[0].edit_range(), Some(TextRange::new(TextPoint::new(0, 3), TextPoint::new(0, 4))));
}

#[test]
fn completion_parser_reads_insert_replace_edit_replace_range() {
    let response = j(r#"[
        {
            "label": "bar",
            "kind": 2,
            "textEdit": {
                "newText": "bar()",
                "insert": { "start": { "line": 0, "character": 4 }, "end": { "line": 0, "character": 4 } },
                "replace": { "start": { "line": 0, "character": 3 }, "end": { "line": 0, "character": 4 } }
            }
        }
    ]"#);
    let items = parse_completion_response("csharp-ls", &response);
    assert_eq!(items.len(), 1);
    assert_eq!(items[0].insert_text(), "bar()");
    assert_eq!(items[0].edit_range(), Some(TextRange::new(TextPoint::new(0, 3), TextPoint::new(0, 4))));
}

#[test]
fn completion_items_fall_back_to_label_and_detail() {
    let items = parse_completion_response(
        "ra",
        &j(r#"[ { "label": "x", "detail": "d", "kind": 99 }, { "kind": 1 }, 5 ]"#),
    );
    assert_eq!(items.len(), 1);
    assert_eq!(items[0].insert_text(), "x");
    assert_eq!(items[0].documentation(), Some("d"));
    assert_eq!(items[0].kind(), None);
    assert!(parse_completion_response("ra", &j(r#""text""#)).is_empty());
    assert_eq!(parse_completion_kind(25), Some(LspCompletionKind::TypeParameter));
    assert_eq!(parse_completion_kind(0), None);
}

#[test]
fn hover_parser_preserves_markdown_content() {
    let contents = HoverContents::Markup {
        kind: MarkupKind::Markdown,
        value: "```rust\nfn example()\n```\n\nSample docs".to_owned(),
    };
    let hover = parse_hover_response("rust-analyzer", &contents).expect("hover");
    assert_eq!(hover.server_id(), "rust-analyzer");
    assert!(hover.is_markdown());
    assert_eq!(hover.text(), "```rust\nfn example()\n```\n\nSample docs");
    assert_eq!(
        hover.lines(),
        &["```rust".to_owned(), "fn example()".to_owned(), "```".to_owned(), String::new(), "Sample docs".to_owned()]
    );
}

#[test]
fn hover_parser_formats_marked_string_language_blocks_as_markdown() {
    let contents = HoverContents::Array(vec![
        MarkedString::LanguageString { language: "rust".to_owned(), value: "fn main() {}".to_owned() },
        MarkedString::String("Runs the example.".to_owned()),
    ]);
    let hover = parse_hover_response("rust-analyzer", &contents).expect("hover");
    assert!(hover.is_markdown());
    assert_eq!(hover.text(), "```rust\nfn main() {}\n```\n\nRuns the example.");
    assert_eq!(hover.lines()[0], "```rust");
    assert_eq!(hover.lines()[1], "fn main() {}");
    assert_eq!(hover.lines()[4], "Runs the example.");
}

#[test]
fn hover_parser_keeps_plaintext_markup_plain() {
    let contents = HoverContents::Markup { kind: MarkupKind::PlainText, value: "alpha\r\nbeta\r".to_owned() };
    let hover = parse_hover_response("rust-analyzer", &contents).expect("hover");
    assert!(!hover.is_markdown());
    assert_eq!(hover.text(), "alpha\nbeta\n");
    assert_eq!(hover.lines(), &["alpha".to_owned(), "beta".to_owned()]);
    let blank = HoverContents::Scalar(MarkedString::String(" \n ".to_owned()));
    assert!(parse_hover_response("rust-analyzer", &blank).is_none());
    assert_eq!(markdown_code_fence("  ", "x"), "```\nx\n```");
}

fn sample_signature_help() -> SignatureHelp {
    SignatureHelp {
        signatures: vec![
            SignatureInformation {
                label: "do_thing(value: String)".to_owned(),
                documentation: Some(Documentation::String("Fallback overload".to_owned())),
                parameters: None,
                active_parameter: None,
            },
            SignatureInformation {
                label: "do_thing(value: String, count: usize)".to_owned(),
                documentation: Some(Documentation::MarkupContent {
                    kind: MarkupKind::Markdown,
                    value: "Formats the value multiple times.".to_owned(),
                }),
                parameters: Some(vec![
                    ParameterInformation {
                        label: ParameterLabel::Simple("value: String".to_owned()),
                        documentation: Some(Documentation::String("Value to format.".to_owned())),
                    },
                    ParameterInformation {
                        label: ParameterLabel::Simple("count: usize".to_owned()),
                        documentation: Some(Documentation::MarkupContent {
                            kind: MarkupKind::Markdown,
                            value: "Number of repetitions.".to_owned(),
                        }),
                    },
                ]),
                active_parameter: Some(1),
            },
        ],
        active_signature: Some(1),
        active_parameter: Some(0),
    }
}

#[test]
fn tests_signature_help_parser_surfaces_active_parameter_and_docs() {
    let signature_help = LspSignatureHelpContents::new("rust-analyzer".to_owned(), sample_signature_help());
    assert_eq!(signature_help.server_id(), "rust-analyzer");
    let markdown = signature_help.markdown_text(Some("rust"));
    assert!(markdown.contains("**Signature 1/2**"));
    assert!(markdown.contains("**Signature 2/2 (active)**"));
    assert!(markdown.contains("```rust\ndo_thing(value: String)\n```"));
    assert!(markdown.contains("```rust\ndo_thing(value: String, count: usize)\n```"));
    assert!(!markdown.contains("**Parameter:**"));
    assert!(markdown.contains("Number of repetitions."));
    assert!(markdown.contains("Formats the value multiple times."));
    assert!(markdown.contains("Fallback overload"));
}

#[test]
fn tests_signature_help_parser_supports_label_offsets() {
    let help = SignatureHelp {
        signatures: vec![SignatureInformation {
            label: "call(alpha, beta)".to_owned(),
            documentation: None,
            parameters: Some(vec![
                ParameterInformation { label: ParameterLabel::LabelOffsets(5, 10), documentation: None },
                ParameterInformation { label: ParameterLabel::LabelOffsets(12, 16), documentation: None },
            ]),
            active_parameter: None,
        }],
        active_signature: Some(0),
        active_parameter: Some(1),
    };
    let signature_help = LspSignatureHelpContents::new("rust-analyzer".to_owned(), help);
    assert!(signature_help.active_parameter_range().is_some_and(|range| range.start == 12 && range.end == 16));
}

#[test]
fn signature_help_active_parameter_range_supports_simple_labels() {
    let help = SignatureHelp {
        signatures: vec![SignatureInformation {
            label: "call(alpha, beta)".to_owned(),
            documentation: None,
            parameters: Some(vec![
                ParameterInformation { label: ParameterLabel::Simple("alpha".to_owned()), documentation: None },
                ParameterInformation { label: ParameterLabel::Simple("beta".to_owned()), documentation: None },
            ]),
            active_parameter: None,
        }],
        active_signature: Some(0),
        active_parameter: Some(1),
    };
    let signature_help = LspSignatureHelpContents::new("rust-analyzer".to_owned(), help);
    let range = signature_help.active_parameter_range().expect("active parameter range");
    assert_eq!(range.label, "call(alpha, beta)");
    assert_eq!(range.start, 12);
    assert_eq!(range.end, 16);
}

#[test]
fn tests_diagnostics_parser_maps_lsp_fields() {
    let params = j(r#"{
        "uri": "file:///P:/volt/src/main.rs",
        "diagnostics": [
            {
                "range": { "start": { "line": 1, "character": 2 }, "end": { "line": 1, "character": 5 } },
                "severity": 2,
                "source": "rust-analyzer",
                "message": "unused binding"
            }
        ]
    }"#);
    let (path, diagnostics) = parse_publish_diagnostics(&params).expect("diagnostics");
    assert!(std::path::Path::new(&path).ends_with(std::path::Path::new("src").join("main.rs")));
    assert_eq!(diagnostics.len(), 1);
    assert_eq!(diagnostics[0].severity(), DiagnosticSeverity::Warning);
    assert_eq!(diagnostics[0].message(), "unused binding");
}

#[test]
fn diagnostics_default_source_message_and_severity() {
    let d = parse_diagnostic(&j(r#"{ "range": { "start": { "line": 0, "character": 0 }, "end": { "line": 0, "character": 1 } } }"#))
        .expect("diagnostic");
    assert_eq!(d.source(), "lsp");
    assert_eq!(d.message(), "");
    assert_eq!(d.severity(), DiagnosticSeverity::Information);
    assert!(parse_diagnostic(&j(r#"{ "range": { "start": { "line": 0 } } }"#)).is_none());
    assert!(parse_publish_diagnostics(&j(r#"{ "uri": "untitled:1" }"#)).is_none());
}

#[test]
fn tests_formatting_parser_maps_text_edits() {
    let edits = [ProtocolTextEdit { range: lsp_range(2, 4, 2, 9), new_text: "value".to_owned() }];
    let edits = text_edits_from_lsp(Some(&edits)).expect("text edits");
    assert_eq!(edits.len(), 1);
    assert_eq!(edits[0].range().start(), TextPoint::new(2, 4));
    assert_eq!(edits[0].range().end(), TextPoint::new(2, 9));
    assert_eq!(edits[0].new_text(), "value");
    assert!(text_edits_from_lsp(None).is_none());
}

#[test]
fn tests_definition_parser_supports_location_links() {
    let response = DefinitionResponse::Link(vec![ProtocolLocationLink {
        target_uri: "file:///P:/volt/src/lib.rs".to_owned(),
        target_selection_range: lsp_range(11, 4, 11, 10),
    }]);
    let locations = definition_locations("rust-analyzer", &response, PathStyle::Posix);
    assert_eq!(locations.len(), 1);
    assert_eq!(locations[0].server_id(), "rust-analyzer");
    assert_eq!(locations[0].uri(), "file:///P:/volt/src/lib.rs");
    assert!(locations[0].is_file_path());
    assert!(locations[0]
        .file_path()
        .is_some_and(|path| std::path::Path::new(path).ends_with(std::path::Path::new("src").join("lib.rs"))));
    assert!(std::path::Path::new(locations[0].path()).ends_with(std::path::Path::new("src").join("lib.rs")));
    assert_eq!(locations[0].range().start(), TextPoint::new(11, 4));
    assert_eq!(locations[0].range().end(), TextPoint::new(11, 10));
}

#[test]
fn definition_parser_preserves_uri_backed_locations() {
    let locations = locations_from_lsp(
        "csharp-ls",
        &[ProtocolLocation { uri: "csharp:/metadata/Volt/Program".to_owned(), range: lsp_range(5, 1, 5, 12) }],
        PathStyle::Posix,
    );
    assert_eq!(locations.len(), 1);
    assert_eq!(locations[0].uri(), "csharp:/metadata/Volt/Program");
    assert!(!locations[0].is_file_path());
    assert_eq!(locations[0].file_path(), None);
    assert_eq!(locations[0].path(), "csharp:/metadata/Volt/Program");
}

#[test]
fn tests_code_action_parser_collects_active_file_edits() {
    let response = j(r#"[
        {
            "title": "Fix unused import",
            "kind": "quickfix",
            "isPreferred": true,
            "edit": {
                "changes": {
                    "file:///P:/volt/src/main.rs": [
                        {
                            "range": { "start": { "line": 3, "character": 0 }, "end": { "line": 4, "character": 0 } },
                            "newText": ""
                        }
                    ]
                }
            }
        }
    ]"#);
    let actions = parse_code_action_response("rust-analyzer", &response).expect("code actions");
    assert_eq!(actions.len(), 1);
    assert_eq!(actions[0].server_id(), "rust-analyzer");
    assert_eq!(actions[0].title(), "Fix unused import");
    assert_eq!(actions[0].kind(), Some("quickfix"));
    assert!(actions[0].is_preferred());
    assert_eq!(actions[0].document_edits().len(), 1);
    assert!(std::path::Path::new(actions[0].document_edits()[0].path())
        .ends_with(std::path::Path::new("src").join("main.rs")));
    assert_eq!(actions[0].document_edits()[0].edits().len(), 1);
    assert_eq!(actions[0].document_edits()[0].edits()[0].range().start(), TextPoint::new(3, 0));
}

#[test]
fn tests_code_action_parser_tracks_command_and_resource_operations() {
    let response = j(r#"[
        {
            "title": "Apply workspace fix",
            "kind": "quickfix",
            "disabled": { "reason": "build script output is stale" },
            "command": { "title": "Apply workspace edit", "command": "rust-analyzer.applySourceChange" },
            "edit": {
                "documentChanges": [
                    {
                        "textDocument": { "uri": "file:///P:/volt/src/lib.rs", "version": 3 },
                        "edits": [
                            {
                                "range": { "start": { "line": 0, "character": 0 }, "end": { "line": 0, "character": 0 } },
                                "newText": "use std::fmt;\n"
                            }
                        ]
                    },
                    { "kind": "rename", "oldUri": "file:///P:/volt/src/old.rs", "newUri": "file:///P:/volt/src/new.rs" }
                ]
            }
        },
        { "title": "Trigger organize imports", "command": "rust-analyzer.organizeImports" }
    ]"#);
    let actions = parse_code_action_response("rust-analyzer", &response).expect("code actions");
    assert_eq!(actions.len(), 2);
    assert_eq!(actions[0].disabled_reason(), Some("build script output is stale"));
    assert_eq!(actions[0].command_name(), Some("rust-analyzer.applySourceChange"));
    assert!(actions[0].has_resource_operations());
    assert_eq!(actions[0].document_edits().len(), 1);
    assert_eq!(actions[1].command_name(), Some("rust-analyzer.organizeImports"));
    assert!(actions[1].document_edits().is_empty());
}

#[test]
fn code_action_responses_must_be_arrays() {
    assert!(parse_code_action_response("ra", &JsonValue::Null).expect("null").is_empty());
    let err = parse_code_action_response("ra", &j(r#"{ "title": "x" }"#)).expect_err("not an array");
    match err {
        editor_lsp::types::LspClientError::Protocol(message) => {
            assert_eq!(message, "failed to decode code action response from `ra`: expected an array")
        }
        _ => panic!("expected a protocol error"),
    }
    let actions = parse_code_action_response("ra", &j(r#"[ { "title": "   " }, { "title": " Fix " } ]"#)).unwrap();
    assert_eq!(actions.len(), 1);
    assert_eq!(actions[0].title(), "Fix");
}

#[test]
fn tests_point_requests_match_covering_diagnostics() {
    let point = TextPoint::new(4, 12);
    let range = TextRange::new(point, point);
    let diagnostic = TextRange::new(TextPoint::new(4, 0), TextPoint::new(4, 20));
    assert!(diagnostic_matches_request_range(diagnostic, range));
    assert!(!diagnostic_matches_request_range(TextRange::new(TextPoint::new(5, 0), TextPoint::new(5, 4)), range));
}

#[test]
fn tests_progress_notifications_update_existing_track() {
    let begin = j(r#"{ "token": "rust-analyzer/index", "value": { "kind": "begin", "title": "Indexing", "message": "Scanning workspace", "percentage": 12 } }"#);
    let report = j(r#"{ "token": "rust-analyzer/index", "value": { "kind": "report", "message": "Building symbol graph", "percentage": 58 } }"#);
    let end = j(r#"{ "token": "rust-analyzer/index", "value": { "kind": "end", "message": "Indexed workspace" } }"#);
    let mut tracks = ProgressTracks::new();

    let begin = parse_progress_notification("rust-analyzer", None, &begin, &mut tracks).expect("begin progress notification");
    assert!(begin.active());
    assert_eq!(begin.body_lines(), ["Indexing", "Scanning workspace"]);
    assert_eq!(begin.progress().and_then(LspNotificationProgress::percentage), Some(12));

    let report = parse_progress_notification("rust-analyzer", None, &report, &mut tracks).expect("report progress notification");
    assert!(report.active());
    assert_eq!(report.body_lines(), ["Indexing", "Building symbol graph"]);
    assert_eq!(report.progress().and_then(LspNotificationProgress::percentage), Some(58));

    let end = parse_progress_notification("rust-analyzer", None, &end, &mut tracks).expect("end progress notification");
    assert!(!end.active());
    assert_eq!(end.progress().and_then(LspNotificationProgress::percentage), Some(58));
    assert_eq!(end.body_lines(), ["Indexing", "Indexed workspace"]);
    assert_eq!(tracks.len(), 0);
}

#[test]
fn tests_work_done_progress_params_generate_unique_tokens() {
    assert_eq!(work_done_progress_token("textDocument/hover", 1), "progress:textDocument/hover:1");
    assert_eq!(work_done_progress_token("textDocument/signatureHelp", 2), "progress:textDocument/signatureHelp:2");
}

#[test]
fn tests_initialize_request_timeout_is_extended() {
    assert_eq!(request_timeout_millis("initialize"), 10_000);
    assert_eq!(request_timeout_millis("textDocument/codeAction"), 3_000);
    assert_eq!(request_timeout_millis("textDocument/hover"), 400);
    assert_eq!(request_timeout_millis("textDocument/inlineCompletion"), 1_200);
}

#[test]
fn tests_show_message_notifications_map_severity_levels() {
    let params = j(r#"{ "type": 1, "message": "failed to load workspace" }"#);
    let notification = parse_show_message_notification("rust-analyzer", None, &params).expect("notification");
    assert_eq!(notification.level(), LspNotificationLevel::Error);
    assert_eq!(notification.body_lines(), ["failed to load workspace"]);
    assert!(!notification.active());
}

#[test]
fn show_message_notifications_ignore_non_error_levels() {
    assert!(parse_show_message_notification("rust-analyzer", None, &j(r#"{ "type": 2, "message": "workspace indexing warning" }"#)).is_none());
    assert!(parse_show_message_notification("rust-analyzer", None, &j(r#"{ "type": 3, "message": "background info" }"#)).is_none());
}

#[test]
fn log_message_error_from_ols_does_not_become_ui_notification() {
    let params = j(r#"{ "type": 1, "message": "Starting Odin Language Server dev-2026-05" }"#);
    let root = r"P:\odinpong";
    assert!(parse_window_message_notification("window/logMessage", "ols", Some(root), &params).is_none());
    let toast = parse_window_message_notification("window/showMessage", "ols", Some(root), &params)
        .expect("showMessage Error still becomes a toast");
    assert_eq!(toast.level(), LspNotificationLevel::Error);
    assert_eq!(toast.body_lines(), ["Starting Odin Language Server dev-2026-05", r"P:\odinpong"]);
}

#[test]
fn transport_message_redacts_sqls_connection_secrets() {
    let message = j(r#"{
        "method": "workspace/didChangeConfiguration",
        "params": { "settings": { "sqls": { "connections": [ {
            "alias": "assetfusion",
            "driver": "mssql",
            "dataSourceName": "Data Source=assetfusion.database.windows.net;Password=secret;",
            "password": "secret",
            "passwd": "secret"
        } ] } } }
    }"#);
    let formatted = serde_json::to_string_pretty(&to_serde(&sanitize_transport_message(&message))).unwrap();
    assert!(formatted.contains("\"alias\": \"assetfusion\""));
    assert!(formatted.contains("\"driver\": \"mssql\""));
    assert!(formatted.contains("\"dataSourceName\": \"[redacted]\""));
    assert!(formatted.contains("\"password\": \"[redacted]\""));
    assert!(formatted.contains("\"passwd\": \"[redacted]\""));
    assert!(!formatted.contains("assetfusion.database.windows.net"));
    assert!(!formatted.contains("secret"));
}

#[test]
fn inline_completions_normalize_line_endings_and_default_range() {
    let items = parse_inline_completion_response(
        "copilot-language-server",
        Some("/volt"),
        TextPoint::new(3, 2),
        &j(r#"{ "items": [ { "insertText": "a\r\nb" }, { "insertText": "" }, { "insertText": "x", "range": { "start": { "line": 1, "character": 0 }, "end": { "line": 1, "character": 4 } } } ] }"#),
    );
    assert_eq!(items.len(), 2);
    assert_eq!(items[0].insert_text(), "a\nb");
    assert_eq!(items[0].range(), TextRange::new(TextPoint::new(3, 2), TextPoint::new(3, 2)));
    assert_eq!(items[1].range(), TextRange::new(TextPoint::new(1, 0), TextPoint::new(1, 4)));
}

#[test]
fn server_commands_need_title_and_command() {
    let command = parse_lsp_server_command(Some(&j(r#"{ "title": " Sign in ", "command": " github.copilot.finishDeviceFlow ", "arguments": [1, "x"] }"#)))
        .expect("command");
    assert_eq!(command.title(), "Sign in");
    assert_eq!(command.command(), "github.copilot.finishDeviceFlow");
    assert_eq!(command.arguments().len(), 2);
    let params = execute_command_params(&command);
    assert_eq!(
        to_serde(&params),
        serde_json::from_str::<serde_json::Value>(r#"{ "command": "github.copilot.finishDeviceFlow", "arguments": [1, "x"] }"#).unwrap()
    );
    assert!(parse_lsp_server_command(Some(&j(r#"{ "title": "", "command": "x" }"#))).is_none());
    assert!(parse_lsp_server_command(None).is_none());
    let prompt = parse_copilot_sign_in_response(&j(r#"{ "userCode": " ABCD-1234 ", "command": { "title": "t", "command": "c" } }"#))
        .expect("prompt");
    assert_eq!(prompt.user_code(), "ABCD-1234");
    assert!(parse_copilot_sign_in_response(&j(r#"{ "userCode": "  ", "command": { "title": "t", "command": "c" } }"#)).is_none());
}

#[test]
fn tests_location_sorting_deduplicates_reference_results() {
    let mut locations = locations_from_lsp(
        "rust-analyzer",
        &[
            ProtocolLocation { uri: "file:///P:/volt/src/main.rs".to_owned(), range: lsp_range(7, 3, 7, 8) },
            ProtocolLocation { uri: "file:///P:/volt/src/lib.rs".to_owned(), range: lsp_range(2, 1, 2, 6) },
            ProtocolLocation { uri: "file:///P:/volt/src/main.rs".to_owned(), range: lsp_range(7, 3, 7, 8) },
        ],
        PathStyle::Windows,
    );
    sort_locations(&mut locations);
    assert_eq!(locations.len(), 2);
    assert!(locations[0].path().ends_with("src\\lib.rs"));
    assert!(locations[1].path().ends_with("src\\main.rs"));
}

#[test]
fn sorting_orders_by_uri_then_range_and_keeps_first_server() {
    let mut locations = locations_from_lsp(
        "a-server",
        &[
            ProtocolLocation { uri: "file:///b.rs".to_owned(), range: lsp_range(1, 0, 1, 2) },
            ProtocolLocation { uri: "file:///a.rs".to_owned(), range: lsp_range(4, 0, 4, 1) },
            ProtocolLocation { uri: "file:///a.rs".to_owned(), range: lsp_range(2, 5, 2, 6) },
        ],
        PathStyle::Posix,
    );
    locations.extend(locations_from_lsp(
        "b-server",
        &[ProtocolLocation { uri: "file:///a.rs".to_owned(), range: lsp_range(2, 5, 2, 6) }],
        PathStyle::Posix,
    ));
    sort_locations(&mut locations);
    assert_eq!(locations.len(), 3);
    assert_eq!(locations[0].uri(), "file:///a.rs");
    assert_eq!(locations[0].range().start().line, 2);
    assert_eq!(locations[0].server_id(), "a-server");
    assert_eq!(locations[1].range().start().line, 4);
    assert_eq!(locations[2].uri(), "file:///b.rs");
}

#[test]
fn client_capabilities_enable_window_work_done_progress_and_show_document() {
    let capabilities: lsp_types::ClientCapabilities =
        serde_json::from_value(to_serde(&client_capabilities())).expect("client capabilities");
    assert_eq!(
        capabilities.window.as_ref().and_then(|window| window.work_done_progress),
        Some(true)
    );
    assert_eq!(
        capabilities.window.and_then(|window| window.show_document).map(|show_document| show_document.support),
        Some(true)
    );
}

#[test]
fn client_capabilities_enable_window_work_done_progress() {
    let capabilities: lsp_types::ClientCapabilities =
        serde_json::from_value(to_serde(&client_capabilities())).expect("client capabilities");
    assert_eq!(capabilities.window.and_then(|window| window.work_done_progress), Some(true));
}

#[test]
fn client_capabilities_offer_code_action_literals_and_completion_resolve() {
    let value = to_serde(&client_capabilities());
    let kinds = value["textDocument"]["codeAction"]["codeActionLiteralSupport"]["codeActionKind"]["valueSet"]
        .as_array()
        .expect("kinds")
        .len();
    assert_eq!(kinds, 8);
    assert_eq!(
        value["textDocument"]["completion"]["completionItem"]["resolveSupport"]["properties"],
        serde_json::Value::Array(vec!["documentation".into(), "detail".into()])
    );
    assert_eq!(value["workspace"]["workspaceEdit"]["documentChanges"], serde_json::Value::Bool(true));
}

#[test]
fn client_signature_help_parser_surfaces_active_parameter_and_docs() {
    let lines = signature_help_lines(&sample_signature_help());
    assert_eq!(lines[0], "do_thing(value: String, count: usize)");
    assert!(lines.iter().any(|line| line == "Overload 2/2"));
    assert!(lines.iter().any(|line| line == "Parameter: count: usize"));
    assert!(lines.iter().any(|line| line.contains("Number of repetitions")));
    assert!(lines.iter().any(|line| line.contains("Formats the value multiple times")));
    assert_eq!(lines.len(), 5);
}

#[test]
fn client_signature_help_parser_supports_label_offsets() {
    let help = SignatureHelp {
        signatures: vec![SignatureInformation {
            label: "call(alpha, beta)".to_owned(),
            documentation: None,
            parameters: Some(vec![
                ParameterInformation { label: ParameterLabel::LabelOffsets(5, 10), documentation: None },
                ParameterInformation { label: ParameterLabel::LabelOffsets(12, 16), documentation: None },
            ]),
            active_parameter: None,
        }],
        active_signature: Some(0),
        active_parameter: Some(1),
    };
    let lines = signature_help_lines(&help);
    assert!(lines.iter().any(|line| line == "Parameter: beta"));
    assert_eq!(lines, vec!["call(alpha, beta)".to_owned(), "Parameter: beta".to_owned()]);
}

#[test]
fn hover_parser_flattens_markup_content() {
    let contents = j(r#"{"kind": "markdown", "value": "```rust\nfn example()\n```\n\nSample docs"}"#);
    let lines = hover_lines(&contents);
    assert!(lines.iter().any(|line| line.contains("fn example")));
    assert!(lines.iter().any(|line| line.contains("Sample docs")));
    assert_eq!(lines, vec!["```rust".to_owned(), "fn example()".to_owned(), "```".to_owned(), "Sample docs".to_owned()]);
}

#[test]
fn hover_lines_walk_arrays_and_language_blocks() {
    let contents = j(r#"["first  \r\n\n second", {"language": "rust"}, 7, {"kind": "plaintext"}]"#);
    assert_eq!(
        hover_lines(&contents),
        vec!["first".to_owned(), " second".to_owned(), "Language: rust".to_owned()]
    );
}

#[test]
fn char_slices_and_byte_offsets_count_characters() {
    assert_eq!(string_slice_by_chars("héllo", 1, 3).as_deref(), Some("él"));
    assert_eq!(string_slice_by_chars("héllo", 3, 1), None);
    assert_eq!(string_slice_by_chars("héllo", 2, 6), None);
    assert_eq!(char_to_byte_offset("héllo", 2), Some(3));
    assert_eq!(char_to_byte_offset("héllo", 5), Some(6));
    assert_eq!(char_to_byte_offset("héllo", 6), None);
    assert_eq!(char_to_byte_offset("a😀b", 2), Some(5));
}

#[test]
fn parameter_labels_are_trimmed_and_never_empty() {
    assert_eq!(parameter_label_text(&ParameterLabel::Simple("  x: i32 ".to_owned()), "f(x: i32)").as_deref(), Some("x: i32"));
    assert_eq!(parameter_label_text(&ParameterLabel::Simple("   ".to_owned()), "f()"), None);
    assert_eq!(parameter_label_text(&ParameterLabel::LabelOffsets(2, 9), "f( x: i32 )").as_deref(), Some("x: i32"));
    assert_eq!(parameter_label_text(&ParameterLabel::LabelOffsets(2, 40), "f(x)"), None);
    assert_eq!(normalize_lines("a \n\n  b\r\n"), vec!["a".to_owned(), "  b".to_owned()]);
    assert_eq!(documentation_lines(&Documentation::String("one\ntwo".to_owned())).len(), 2);
}

#[test]
fn sanitizing_twice_equals_sanitizing_once() {
    let message = j(r#"{"params": {"settings": {"apiKey": "abc", "nested": [{"password": 1}, "x"]}, "token": "t"}}"#);
    let once = sanitize_transport_message(&message);
    let twice = sanitize_transport_message(&once);
    assert_eq!(once, twice);
    assert_eq!(to_serde(&once)["params"]["settings"]["apiKey"], serde_json::Value::String("[redacted]".to_owned()));
    assert_eq!(to_serde(&once)["params"]["settings"]["nested"][0]["password"], serde_json::Value::String("[redacted]".to_owned()));
}

#[test]
fn client_completion_parser_handles_lists_and_docs() {
    let response = j(r#"{"isIncomplete": false, "items": [{"label": "println!", "kind": 3, "insertText": "println!",
        "detail": "macro_rules! println", "documentation": { "kind": "markdown", "value": "Prints to stdout." }}]}"#);
    let items = parse_completion_response("rust-analyzer", &response);
    assert_eq!(items.len(), 1);
    assert_eq!(items[0].label(), "println!");
    assert_eq!(items[0].kind(), Some(LspCompletionKind::Function));
    assert_eq!(items[0].documentation(), Some("Prints to stdout."));
}

#[test]
fn client_diagnostics_parser_maps_lsp_fields() {
    let params = j(r#"{"uri": "file:///P:/volt/src/main.rs", "diagnostics": [{"range": {"start": {"line": 1, "character": 2},
        "end": {"line": 1, "character": 5}}, "severity": 2, "source": "rust-analyzer", "message": "unused binding"}]}"#);
    let (path, diagnostics) = parse_publish_diagnostics(&params).expect("diagnostics");
    assert!(std::path::Path::new(&path).ends_with(std::path::Path::new("src").join("main.rs")));
    assert_eq!(diagnostics.len(), 1);
    assert_eq!(diagnostics[0].severity(), DiagnosticSeverity::Warning);
    assert_eq!(diagnostics[0].message(), "unused binding");
}

#[test]
fn client_formatting_parser_maps_text_edits() {
    let edits = [ProtocolTextEdit { range: lsp_range(2, 4, 2, 9), new_text: "value".to_owned() }];
    let edits = text_edits_from_lsp(Some(&edits)).expect("text edits");
    assert_eq!(edits.len(), 1);
    assert_eq!(edits[0].range().start(), TextPoint::new(2, 4));
    assert_eq!(edits[0].range().end(), TextPoint::new(2, 9));
    assert_eq!(edits[0].new_text(), "value");
}

#[test]
fn client_definition_parser_supports_location_links() {
    let response = DefinitionResponse::Link(vec![ProtocolLocationLink {
        target_uri: "file:///P:/volt/src/lib.rs".to_owned(),
        target_selection_range: lsp_range(11, 4, 11, 10),
    }]);
    let locations = definition_locations("rust-analyzer", &response, PathStyle::Posix);
    assert_eq!(locations.len(), 1);
    assert_eq!(locations[0].server_id(), "rust-analyzer");
    assert!(std::path::Path::new(locations[0].path()).ends_with(std::path::Path::new("src").join("lib.rs")));
    assert_eq!(locations[0].range().start(), TextPoint::new(11, 4));
    assert_eq!(locations[0].range().end(), TextPoint::new(11, 10));
}

#[test]
fn client_location_sorting_deduplicates_reference_results() {
    let mut locations = locations_from_lsp(
        "rust-analyzer",
        &[
            ProtocolLocation { uri: "file:///P:/volt/src/main.rs".to_owned(), range: lsp_range(7, 3, 7, 8) },
            ProtocolLocation { uri: "file:///P:/volt/src/lib.rs".to_owned(), range: lsp_range(2, 1, 2, 6) },
            ProtocolLocation { uri: "file:///P:/volt/src/main.rs".to_owned(), range: lsp_range(7, 3, 7, 8) },
        ],
        PathStyle::Posix,
    );
    sort_locations(&mut locations);
    assert_eq!(locations.len(), 2);
    assert!(std::path::Path::new(locations[0].path()).ends_with(std::path::Path::new("src").join("lib.rs")));
    assert!(std::path::Path::new(locations[1].path()).ends_with(std::path::Path::new("src").join("main.rs")));
}

#[test]
fn client_code_action_parser_collects_active_file_edits() {
    let response = j(r#"[{"title": "Fix unused import", "kind": "quickfix", "isPreferred": true, "edit": {"changes": {
        "file:///P:/volt/src/main.rs": [{"range": {"start": {"line": 3, "character": 0}, "end": {"line": 4, "character": 0}}, "newText": ""}]}}}]"#);
    let actions = parse_code_action_response("rust-analyzer", &response).expect("code actions");
    assert_eq!(actions.len(), 1);
    assert_eq!(actions[0].title(), "Fix unused import");
    assert_eq!(actions[0].kind(), Some("quickfix"));
    assert!(actions[0].is_preferred());
    assert_eq!(actions[0].document_edits().len(), 1);
    assert_eq!(actions[0].document_edits()[0].edits()[0].range().start(), TextPoint::new(3, 0));
}

#[test]
fn client_code_action_parser_tracks_command_and_resource_operations() {
    let response = j(r#"[{"title": "Apply workspace fix", "kind": "quickfix", "disabled": {"reason": "build script output is stale"},
        "command": {"title": "Apply workspace edit", "command": "rust-analyzer.applySourceChange"},
        "edit": {"documentChanges": [{"textDocument": {"uri": "file:///P:/volt/src/lib.rs", "version": 3},
        "edits": [{"range": {"start": {"line": 0, "character": 0}, "end": {"line": 0, "character": 0}}, "newText": "use std::fmt;\n"}]},
        {"kind": "rename", "oldUri": "file:///P:/volt/src/old.rs", "newUri": "file:///P:/volt/src/new.rs"}]}},
        {"title": "Trigger organize imports", "command": "rust-analyzer.organizeImports"}]"#);
    let actions = parse_code_action_response("rust-analyzer", &response).expect("code actions");
    assert_eq!(actions.len(), 2);
    assert_eq!(actions[0].disabled_reason(), Some("build script output is stale"));
    assert_eq!(actions[0].command_name(), Some("rust-analyzer.applySourceChange"));
    assert!(actions[0].has_resource_operations());
    assert_eq!(actions[0].document_edits().len(), 1);
    assert_eq!(actions[1].command_name(), Some("rust-analyzer.organizeImports"));
    assert!(actions[1].document_edits().is_empty());
}

#[test]
fn client_point_requests_match_covering_diagnostics() {
    let point = TextPoint::new(4, 12);
    let range = TextRange::new(point, point);
    let diagnostic = TextRange::new(TextPoint::new(4, 0), TextPoint::new(4, 20));
    assert!(diagnostic_matches_request_range(diagnostic, range));
    assert!(!diagnostic_matches_request_range(TextRange::new(TextPoint::new(5, 0), TextPoint::new(5, 4)), range));
}

#[test]
fn client_progress_notifications_update_existing_track() {
    let begin = j(r#"{ "token": "rust-analyzer/index", "value": { "kind": "begin", "title": "Indexing", "message": "Scanning workspace", "percentage": 12 } }"#);
    let report = j(r#"{ "token": "rust-analyzer/index", "value": { "kind": "report", "message": "Building symbol graph", "percentage": 58 } }"#);
    let end = j(r#"{ "token": "rust-analyzer/index", "value": { "kind": "end", "message": "Indexed workspace" } }"#);
    let mut tracks = ProgressTracks::new();
    let begin = parse_progress_notification("rust-analyzer", None, &begin, &mut tracks).expect("begin");
    assert!(begin.active());
    assert_eq!(begin.body_lines(), ["Indexing", "Scanning workspace"]);
    let report = parse_progress_notification("rust-analyzer", None, &report, &mut tracks).expect("report");
    assert_eq!(report.body_lines(), ["Indexing", "Building symbol graph"]);
    assert_eq!(report.progress().and_then(LspNotificationProgress::percentage), Some(58));
    let end = parse_progress_notification("rust-analyzer", None, &end, &mut tracks).expect("end");
    assert!(!end.active());
    assert_eq!(end.body_lines(), ["Indexing", "Indexed workspace"]);
    assert_eq!(tracks.len(), 0);
}

#[test]
fn client_work_done_progress_params_generate_unique_tokens() {
    assert_eq!(work_done_progress_token("textDocument/hover", 1), "progress:textDocument/hover:1");
    assert_eq!(work_done_progress_token("textDocument/signatureHelp", 2), "progress:textDocument/signatureHelp:2");
}

#[test]
fn client_initialize_request_timeout_is_extended() {
    assert_eq!(request_timeout_millis("initialize"), 10_000);
    assert_eq!(request_timeout_millis("textDocument/hover"), 400);
}

#[test]
fn client_show_message_notifications_map_severity_levels() {
    let params = j(r#"{ "type": 1, "message": "failed to load workspace" }"#);
    let notification = parse_show_message_notification("rust-analyzer", None, &params).expect("notification");
    assert_eq!(notification.level(), LspNotificationLevel::Error);
    assert_eq!(notification.body_lines(), ["failed to load workspace"]);
    assert!(!notification.active());
}

#[test]
fn completion_resolve_keeps_original_members_the_reply_left_out() {
    let items = parse_completion_response(
        "rust-analyzer",
        &j(r#"[{ "label": "push", "kind": 2, "data": { "id": 7 }, "insertText": "push($0)" }]"#),
    );
    let item = &items[0];
    assert!(completion_needs_resolve(item, true));
    assert!(!completion_needs_resolve(item, false));
    let resolved = resolved_completion_item(
        "rust-analyzer",
        item,
        j(r#"{ "label": "push", "documentation": { "kind": "markdown", "value": "Appends an element." } }"#),
    )
    .expect("resolved");
    assert_eq!(resolved.label(), "push");
    assert_eq!(resolved.insert_text(), "push($0)");
    assert_eq!(resolved.kind(), Some(LspCompletionKind::Method));
    assert_eq!(resolved.documentation(), Some("Appends an element."));
    assert!(!completion_needs_resolve(&resolved, true));
    let raw = to_serde(&resolved.raw_item);
    assert_eq!(raw.get("data"), Some(&serde_json::from_str::<serde_json::Value>(r#"{ "id": 7 }"#).unwrap()));
}

#[test]
fn completion_resolve_errors_name_the_server() {
    let items = parse_completion_response("biome", &j(r#"[{ "label": "x" }]"#));
    let item = &items[0];
    match resolved_completion_item("biome", item, j("[1]")) {
        Err(editor_lsp::types::LspClientError::Protocol(message)) => assert_eq!(
            message,
            "language server `biome` returned a non-object completionItem/resolve response"
        ),
        other => panic!("unexpected {other:?}"),
    }
    match resolved_completion_item("biome", item, j(r#"{ "label": 3 }"#)) {
        Err(editor_lsp::types::LspClientError::Protocol(message)) => assert_eq!(
            message,
            "language server `biome` returned an invalid completionItem/resolve response"
        ),
        other => panic!("unexpected {other:?}"),
    }
}

#[test]
fn signature_help_without_signatures_is_dropped() {
    let empty = SignatureHelp { signatures: Vec::new(), active_signature: None, active_parameter: None };
    assert!(signature_help_contents("rust-analyzer", empty).is_none());
    let contents = signature_help_contents("rust-analyzer", sample_signature_help()).expect("kept");
    assert_eq!(contents.server_id(), "rust-analyzer");
    assert_eq!(contents.signature_help, sample_signature_help());
}

#[test]
fn progress_percentages_above_100_are_capped() {
    let begin = j(r#"{ "token": 7, "value": { "kind": "begin", "title": "Build", "percentage": 250 } }"#);
    let report = j(r#"{ "token": 7, "value": { "kind": "report" } }"#);
    let mut tracks = ProgressTracks::new();
    let begin = parse_progress_notification("ra", None, &begin, &mut tracks).expect("begin");
    assert_eq!(begin.progress().and_then(LspNotificationProgress::percentage), Some(100));
    let report = parse_progress_notification("ra", None, &report, &mut tracks).expect("report");
    assert_eq!(report.progress().and_then(LspNotificationProgress::percentage), Some(100));
}
