use editor_lsp::paths::{
    language_server_session_in_workspace_scope, language_server_session_in_workspace_scope_in_style,
    normalize_session_root_in_style, path_equals_or_under_in_style, paths_equal, LspLiveSession, PathStyle,
    SessionKey,
};

fn sample_root(name: &str) -> String {
    format!("/{name}")
}

fn join(base: &str, parts: &[&str]) -> String {
    let mut out = base.to_owned();
    for part in parts {
        out.push('/');
        out.push_str(part);
    }
    out
}

#[test]
fn session_key_normalizes_windows_root_casing() {
    let upper = SessionKey::new_in_style("ols", Some(r"P:\odinpong"), PathStyle::Windows);
    let lower = SessionKey::new_in_style("ols", Some(r"p:\odinpong"), PathStyle::Windows);
    assert_eq!(upper, lower);
    assert!(upper.same_as(&lower));
}

#[test]
fn session_in_scope_when_open_buffer_is_tracked() {
    let workspace = sample_root("volt");
    let nested = join(&workspace, &["crates", "editor-lsp"]);
    let served = [join(&workspace, &["src", "main.rs"])];
    assert!(language_server_session_in_workspace_scope(
        Some(workspace.as_str()),
        &served,
        &served,
        Some(nested.as_str()),
    ));
}

#[test]
fn session_in_scope_when_root_under_project_workspace_without_open_buffer() {
    let workspace = sample_root("volt");
    let session_root = join(&workspace, &["crates", "editor-lsp"]);
    let served = [join(&workspace, &["src", "lib.rs"])];
    let open: [String; 0] = [];
    assert!(language_server_session_in_workspace_scope(
        Some(session_root.as_str()),
        &served,
        &open,
        Some(workspace.as_str()),
    ));
}

#[test]
fn session_out_of_scope_when_parent_root_and_no_open_buffer() {
    let workspace = sample_root("volt");
    let nested = join(&workspace, &["crates", "editor-lsp"]);
    let served = [join(&workspace, &["src", "main.rs"])];
    let open: [String; 0] = [];
    assert!(!language_server_session_in_workspace_scope(
        Some(workspace.as_str()),
        &served,
        &open,
        Some(nested.as_str()),
    ));
}

#[test]
fn default_workspace_lists_only_sessions_serving_open_buffers() {
    let root = sample_root("scratch");
    let served = [join(&root, &["main.rs"])];
    assert!(language_server_session_in_workspace_scope(Some(root.as_str()), &served, &served, None));
    assert!(!language_server_session_in_workspace_scope(Some(root.as_str()), &served, &[], None));
}

#[test]
fn live_session_picker_label_includes_server_and_root() {
    let root = "/volt";
    let with_root = LspLiveSession::new("rust-analyzer", Some(root));
    assert_eq!(with_root.picker_label(), format!("rust-analyzer — {}", root));
    let no_root = LspLiveSession::new("marksman", None);
    assert_eq!(no_root.picker_label(), "marksman — (no root)");
}

#[test]
fn windows_scope_ignores_root_case_and_separator_style() {
    let served = [r"P:\Volt\src\main.rs".to_owned()];
    let open = ["p:/volt/src/main.rs".to_owned()];
    assert!(language_server_session_in_workspace_scope_in_style(
        Some(r"P:\Volt"),
        &served,
        &open,
        None,
        PathStyle::Windows,
    ));
    assert!(!language_server_session_in_workspace_scope_in_style(
        Some("/Volt"),
        &["/Volt/a.rs".to_owned()],
        &["/volt/a.rs".to_owned()],
        None,
        PathStyle::Posix,
    ));
}

#[test]
fn component_paths_compare_without_redundant_separators() {
    assert!(paths_equal("/a//b/./c/", "/a/b/c", PathStyle::Posix));
    assert!(!paths_equal("/a/b", "a/b", PathStyle::Posix));
    assert!(path_equals_or_under_in_style("/a/b/c", "/a/b", PathStyle::Posix));
    assert!(!path_equals_or_under_in_style("/a/bc", "/a/b", PathStyle::Posix));
    assert_eq!(
        normalize_session_root_in_style(Some(r"C:\Work"), PathStyle::Windows),
        Some(r"c:\work".to_owned())
    );
    assert_eq!(normalize_session_root_in_style(Some("/Work"), PathStyle::Posix), Some("/Work".to_owned()));
}
