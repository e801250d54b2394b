use editor_lsp::initialize::{announced_client_capabilities, initialize_params, workspace_folder_name};
use editor_lsp::json::{JsonNumber, JsonValue};
use editor_lsp::paths::PathStyle;

#[test]
fn workspace_folder_names_follow_the_last_component() {
    assert_eq!(workspace_folder_name("/home/sam/volt", PathStyle::Posix), "volt");
    assert_eq!(workspace_folder_name("/home/sam/volt/", PathStyle::Posix), "volt");
    assert_eq!(workspace_folder_name("/", PathStyle::Posix), "workspace");
    assert_eq!(workspace_folder_name("/home/..", PathStyle::Posix), "workspace");
    assert_eq!(workspace_folder_name("P:\\volt", PathStyle::Windows), "volt");
    assert_eq!(workspace_folder_name("C:\\", PathStyle::Windows), "workspace");
    assert_eq!(workspace_folder_name("\\\\server\\share", PathStyle::Windows), "workspace");
    assert_eq!(workspace_folder_name("\\\\server\\share\\proj", PathStyle::Windows), "proj");
}

#[test]
fn initialize_params_name_the_root_folder_and_token() {
    let caps = announced_client_capabilities().expect("capabilities");
    assert!(caps.get("window").is_some());
    let params = initialize_params(
        Some("/tmp/volt"),
        42,
        Some(JsonValue::Bool(true)),
        caps,
        "progress:initialize:1",
        PathStyle::Posix,
    )
    .expect("params");
    assert_eq!(params.get("processId"), Some(&JsonValue::Number(JsonNumber::PosInt(42))));
    assert_eq!(params.get("initializationOptions"), Some(&JsonValue::Bool(true)));
    assert_eq!(params.get("trace").and_then(JsonValue::as_str), Some("off"));
    assert_eq!(params.get("rootUri"), Some(&JsonValue::Null));
    assert_eq!(params.get("workDoneToken").and_then(JsonValue::as_str), Some("progress:initialize:1"));
    assert_eq!(params.get("clientInfo").and_then(|c| c.get("name")).and_then(JsonValue::as_str), Some("volt"));
    match params.get("workspaceFolders") {
        Some(JsonValue::Array(folders)) => {
            assert_eq!(folders[0].get("name").and_then(JsonValue::as_str), Some("volt"));
            assert_eq!(folders[0].get("uri").and_then(JsonValue::as_str), Some("file:///tmp/volt"));
        }
        other => panic!("unexpected {other:?}"),
    }
    let bare = initialize_params(None, 1, None, JsonValue::Object(Vec::new()), "t", PathStyle::Posix).expect("params");
    assert!(bare.get("workspaceFolders").is_none());
    assert!(bare.get("initializationOptions").is_none());
}
