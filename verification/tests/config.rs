use editor_lsp::config::{
    initialization_options_for_server, normalized_workspace_configuration_settings, server_request_response,
    SessionWorkspaceConfiguration,
};
use editor_lsp::json::{merge_json_values, JsonNumber, JsonValue};
use editor_lsp::logs::{LspNotificationAction, LspNotificationLevel};
use editor_lsp::notify::parse_copilot_status_notification;

fn to_model(v: &serde_json::Value) -> JsonValue {
    match v {
        serde_json::Value::Null => JsonValue::Null,
        serde_json::Value::Bool(b) => JsonValue::Bool(*b),
        serde_json::Value::Number(n) => {
            if let Some(u) = n.as_u64() {
                JsonValue::Number(JsonNumber::PosInt(u))
            } else if let Some(i) = n.as_i64() {
                JsonValue::Number(JsonNumber::NegInt(i))
            } else {
                JsonValue::Number(JsonNumber::Float(n.to_string()))
            }
        }
        serde_json::Value::String(s) => JsonValue::String(s.clone()),
        serde_json::Value::Array(items) => JsonValue::Array(items.iter().map(to_model).collect()),
        serde_json::Value::Object(map) => {
            JsonValue::Object(map.iter().map(|(k, v)| (k.clone(), to_model(v))).collect())
        }
    }
}

fn to_serde(v: &JsonValue) -> serde_json::Value {
    match v {
        JsonValue::Null => serde_json::Value::Null,
        JsonValue::Bool(b) => serde_json::Value::Bool(*b),
        JsonValue::Number(JsonNumber::PosInt(u)) => serde_json::Value::from(*u),
        JsonValue::Number(JsonNumber::NegInt(i)) => serde_json::Value::from(*i),
        JsonValue::Number(JsonNumber::Float(text)) => serde_json::from_str(text).unwrap(),
        JsonValue::String(s) => serde_json::Value::String(s.clone()),
        JsonValue::Array(items) => serde_json::Value::Array(items.iter().map(to_serde).collect()),
        JsonValue::Object(members) => {
            let mut map = serde_json::Map::new();
            for (k, v) in members {
                if !map.contains_key(k) {
                    map.insert(k.clone(), to_serde(v));
                }
            }
            serde_json::Value::Object(map)
        }
    }
}

fn j(text: &str) -> JsonValue {
    to_model(&serde_json::from_str::<serde_json::Value>(text).unwrap())
}

fn same(actual: &JsonValue, expected: &str) -> bool {
    to_serde(actual) == serde_json::from_str::<serde_json::Value>(expected).unwrap()
}

#[test]
fn non_csharp_non_copilot_servers_do_not_receive_initialization_options() {
    assert!(initialization_options_for_server("rust-analyzer", None).is_none());
    assert!(initialization_options_for_server("marksman", None).is_none());
}

#[test]
fn workspace_configuration_settings_unwrap_matching_section() {
    let settings = normalized_workspace_configuration_settings(
        Some("csharp"),
        Some(j(r#"{ "csharp": { "solutionPathOverride": "P:\\volt\\Volt.sln" } }"#)),
    )
    .expect("settings");
    assert!(same(&settings, r#"{ "solutionPathOverride": "P:\\volt\\Volt.sln" }"#));
}

#[test]
fn workspace_configuration_requests_return_matching_section_settings() {
    let workspace_configuration = SessionWorkspaceConfiguration {
        section: Some("csharp".to_owned()),
        base_settings: Some(j(r#"{ "formatting": { "organizeImports": true, "useTabs": false } }"#)),
        runtime_override: Some(j(
            r#"{ "solutionPathOverride": "P:\\volt\\Volt.sln", "formatting": { "useTabs": true } }"#,
        )),
    };
    let method = JsonValue::String("workspace/configuration".to_owned());
    let params = j(r#"{ "items": [ { "section": "csharp" }, { "section": "other" }, {} ] }"#);
    let response = server_request_response(
        "csharp-ls",
        Some(r"P:\volt"),
        Some(&method),
        Some(&params),
        Some(&workspace_configuration),
    );
    assert!(same(
        &response.result,
        r#"[ { "formatting": { "organizeImports": true, "useTabs": true }, "solutionPathOverride": "P:\\volt\\Volt.sln" }, null, null ]"#
    ));
    assert!(response.notification.is_none());
    let payload = workspace_configuration.did_change_configuration_payload(false).expect("payload");
    assert!(same(
        &payload,
        r#"{ "csharp": { "formatting": { "organizeImports": true, "useTabs": true }, "solutionPathOverride": "P:\\volt\\Volt.sln" } }"#
    ));
}

#[test]
fn workspace_configuration_requests_support_unsectioned_settings() {
    let workspace_configuration = SessionWorkspaceConfiguration {
        section: None,
        base_settings: Some(j(r#"{ "featureFlag": true }"#)),
        runtime_override: Some(j(r#"{ "featureFlag": false, "verbosity": "debug" }"#)),
    };
    let method = JsonValue::String("workspace/configuration".to_owned());
    let params = j(r#"{ "items": [ {}, { "section": "other" } ] }"#);
    let response =
        server_request_response("rust-analyzer", None, Some(&method), Some(&params), Some(&workspace_configuration));
    assert!(same(&response.result, r#"[ { "featureFlag": false, "verbosity": "debug" }, null ]"#));
    assert!(response.notification.is_none());
}

#[test]
fn server_request_response_turns_copilot_show_document_into_browser_action() {
    let method = JsonValue::String("window/showDocument".to_owned());
    let params = j(r#"{ "uri": "https://github.com/login/device" }"#);
    let response = server_request_response(
        "copilot-language-server",
        Some(r"P:\volt"),
        Some(&method),
        Some(&params),
        None,
    );
    assert!(same(&response.result, r#"{ "success": true }"#));
    let notification = response.notification.expect("showDocument notification");
    assert_eq!(notification.server_id(), "copilot-language-server");
    assert_eq!(notification.root(), Some(r"P:\volt"));
    assert_eq!(
        notification.action(),
        Some(&LspNotificationAction::OpenBrowserPopup { url: "https://github.com/login/device".to_owned() })
    );
}

#[test]
fn copilot_status_notifications_offer_sign_in_action() {
    let notification = parse_copilot_status_notification(
        "copilot-language-server",
        Some(r"P:\volt"),
        &j(r#"{ "kind": "Error", "message": "Sign in to use GitHub Copilot." }"#),
    )
    .expect("copilot status notification");
    assert_eq!(notification.level(), LspNotificationLevel::Error);
    assert_eq!(notification.root(), Some(r"P:\volt"));
    assert_eq!(notification.action(), Some(&LspNotificationAction::CopilotSignIn));
}

#[test]
fn copilot_status_notifications_ignore_non_error_updates() {
    assert!(parse_copilot_status_notification(
        "copilot-language-server",
        Some(r"P:\volt"),
        &j(r#"{ "kind": "Normal", "message": "Getting code actions from Copilot." }"#),
    )
    .is_none());
    assert!(parse_copilot_status_notification(
        "copilot-language-server",
        Some(r"P:\volt"),
        &j(r#"{ "kind": "Warning", "message": "Transient warning." }"#),
    )
    .is_none());
}

#[test]
fn csharp_and_copilot_servers_receive_initialization_options() {
    let csharp = initialization_options_for_server("csharp-ls", None).expect("csharp options");
    assert!(same(&csharp, r#"{ "experimental": { "csharp": { "metadataUris": true } } }"#));
    let roslyn = initialization_options_for_server("roslyn-language-server", None).expect("roslyn options");
    assert!(same(&roslyn, r#"{ "experimental": { "csharp": { "metadataUris": true } } }"#));
    let copilot = initialization_options_for_server("copilot-language-server", None).expect("copilot options");
    assert!(same(
        &copilot,
        r#"{ "editorInfo": { "name": "Volt", "version": "0.1.0" }, "editorPluginInfo": { "name": "Volt Copilot", "version": "0.1.0" } }"#
    ));
}

#[test]
fn runtime_initialization_options_merge_with_server_defaults() {
    let merged = initialization_options_for_server(
        "csharp-ls",
        Some(&j(r#"{ "experimental": { "csharp": { "solutionStyle": true } } }"#)),
    )
    .expect("merged");
    assert!(same(&merged, r#"{ "experimental": { "csharp": { "metadataUris": true, "solutionStyle": true } } }"#));
    let sqls = initialization_options_for_server(
        "sqls",
        Some(&j(
            r#"{ "connectionConfig": { "driver": "mssql", "dataSourceName": "Data Source=example.database.windows.net;Initial Catalog=volt" } }"#,
        )),
    )
    .expect("sqls");
    assert!(same(
        &sqls,
        r#"{ "connectionConfig": { "driver": "mssql", "dataSourceName": "Data Source=example.database.windows.net;Initial Catalog=volt" } }"#
    ));
}

#[test]
fn merged_settings_take_override_members_and_keep_the_rest() {
    let base = j(r#"{"a": 1, "b": {"c": 1, "d": 2}, "f": [1]}"#);
    let overlay = j(r#"{"b": {"d": 3}, "e": 4, "f": {"x": true}}"#);
    let merged = to_serde(&merge_json_values(&base, &overlay));
    let expected: serde_json::Value =
        serde_json::from_str(r#"{"a": 1, "b": {"c": 1, "d": 3}, "e": 4, "f": {"x": true}}"#).unwrap();
    assert_eq!(merged, expected);
    let scalar = j("7");
    assert_eq!(to_serde(&merge_json_values(&base, &scalar)), serde_json::Value::from(7));
}

#[test]
fn runtime_override_change_sends_the_sectioned_settings_once() {
    let mut workspace_configuration = SessionWorkspaceConfiguration {
        section: Some("csharp".to_owned()),
        base_settings: Some(j(r#"{ "formatting": { "useTabs": false } }"#)),
        runtime_override: None,
    };
    let params = workspace_configuration
        .apply_runtime_override(Some(j(r#"{ "csharp": { "solutionPathOverride": "P:\\volt\\Volt.sln" } }"#)))
        .expect("changed settings are sent");
    assert!(same(
        &params,
        r#"{ "settings": { "csharp": { "formatting": { "useTabs": false }, "solutionPathOverride": "P:\\volt\\Volt.sln" } } }"#
    ));
    let again = workspace_configuration
        .apply_runtime_override(Some(j(r#"{ "solutionPathOverride": "P:\\volt\\Volt.sln" }"#)));
    assert!(again.is_none());
    let cleared = workspace_configuration.apply_runtime_override(None).expect("clearing changes the settings");
    assert!(same(&cleared, r#"{ "settings": { "csharp": { "formatting": { "useTabs": false } } } }"#));
}

#[test]
fn runtime_override_of_settingless_session_sends_null_section() {
    let mut workspace_configuration =
        SessionWorkspaceConfiguration { section: Some("csharp".to_owned()), base_settings: None, runtime_override: None };
    let params = workspace_configuration
        .apply_runtime_override(Some(j(r#"{ "csharp": { "x": 1 } }"#)))
        .expect("sent");
    assert!(same(&params, r#"{ "settings": { "csharp": { "x": 1 } } }"#));
    let cleared = workspace_configuration.apply_runtime_override(None).expect("sent");
    assert!(same(&cleared, r#"{ "settings": { "csharp": null } }"#));
}

#[test]
fn initial_configuration_notification_carries_settings_in_effect() {
    let sectioned = SessionWorkspaceConfiguration {
        section: Some("csharp".to_owned()),
        base_settings: Some(j(r#"{ "a": 1 }"#)),
        runtime_override: Some(j(r#"{ "b": 2 }"#)),
    };
    assert!(same(&sectioned.initial_notification().expect("sent"), r#"{ "settings": { "csharp": { "a": 1, "b": 2 } } }"#));
    let empty = SessionWorkspaceConfiguration { section: Some("csharp".to_owned()), base_settings: None, runtime_override: None };
    assert!(empty.initial_notification().is_none());
    let bare = SessionWorkspaceConfiguration { section: None, base_settings: Some(j(r#"{ "x": true }"#)), runtime_override: None };
    assert!(same(&bare.initial_notification().expect("sent"), r#"{ "settings": { "x": true } }"#));
}
