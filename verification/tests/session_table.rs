use editor_lsp::paths::{PathStyle, SessionKey};
use editor_lsp::json::JsonValue;
use editor_lsp::session_table::{remove_key, EnsureAction, OverrideTable, SessionTable};
use editor_lsp::types::LspClientError;

fn key(server: &str, root: Option<&str>) -> SessionKey {
    SessionKey::new_in_style(server, root, PathStyle::Posix)
}

fn labels(table: &mut SessionTable, path: &str) -> Vec<String> {
    table.session_labels_for_path(path)
}

#[test]
fn tests_session_labels_ignore_stale_tracked_session_keys() {
    let mut table = SessionTable::new(PathStyle::Windows);
    table.track_session("src\\main.rs", &key("rust-analyzer", None));
    assert!(labels(&mut table, "src\\main.rs").is_empty());
    assert!(table.tracked_sessions_for_path("src\\main.rs").is_empty());
}

#[test]
fn client_session_labels_ignore_stale_tracked_session_keys() {
    let mut table = SessionTable::new(PathStyle::Posix);
    table.track_session("src/main.rs", &key("rust-analyzer", None));
    table.insert_session(key("biome", None));
    table.track_session("src/main.rs", &key("biome", None));
    assert_eq!(labels(&mut table, "src/main.rs"), vec!["biome".to_owned()]);
}

#[test]
fn tracked_sessions_come_in_key_order_and_drop_disconnected_ones() {
    let mut table = SessionTable::new(PathStyle::Posix);
    for server in ["rust-analyzer", "biome", "clippy"] {
        table.insert_session(key(server, Some("/w")));
        table.track_session("/w/src/main.rs", &key(server, Some("/w")));
    }
    table.track_session("/w/src/main.rs", &key("biome", Some("/w")));
    table.mark_disconnected(&key("clippy", Some("/w")));
    let live: Vec<String> = table.tracked_sessions_for_path("/w/src//main.rs").into_iter().map(|k| k.server_id).collect();
    assert_eq!(live, vec!["biome".to_owned(), "rust-analyzer".to_owned()]);
    assert_eq!(table.session_state(&key("clippy", Some("/w"))), None);
    assert_eq!(table.session_state(&key("biome", Some("/w"))), Some(false));
}

#[test]
fn live_session_lookup_by_server_needs_a_root_when_ambiguous() {
    let mut table = SessionTable::new(PathStyle::Posix);
    table.insert_session(key("rust-analyzer", Some("/a")));
    assert_eq!(
        table.live_session_for_server("rust-analyzer", None).expect("one").map(|k| k.root),
        Some(Some("/a".to_owned()))
    );
    table.insert_session(key("rust-analyzer", Some("/b")));
    match table.live_session_for_server("rust-analyzer", None) {
        Err(LspClientError::Protocol(message)) => assert_eq!(
            message,
            "multiple live `rust-analyzer` sessions matched the request; provide a workspace root"
        ),
        other => panic!("unexpected {other:?}"),
    }
    assert!(table.live_session_for_server("rust-analyzer", Some("/b")).expect("root").is_some());
    table.mark_disconnected(&key("rust-analyzer", Some("/b")));
    assert!(table.live_session_for_server("rust-analyzer", Some("/b")).expect("root").is_none());
    assert_eq!(table.session_state(&key("rust-analyzer", Some("/b"))), None);
    assert!(table.live_session_for_server("clangd", None).expect("none").is_none());
}

#[test]
fn stop_session_removes_live_session_and_returns_tracked_paths() {
    let mut table = SessionTable::new(PathStyle::Posix);
    let ra = key("rust-analyzer", Some("/w"));
    table.insert_session(key("rust-analyzer", Some("/w")));
    table.track_session("/w/a.rs", &ra);
    table.track_session("/w/b.rs", &ra);
    table.track_session("/w/c.ts", &key("biome", Some("/w")));
    let paths = table.paths_tracking(&ra);
    assert_eq!(paths, vec!["/w/a.rs".to_owned(), "/w/b.rs".to_owned()]);
    for path in &paths {
        table.close_buffer(path);
    }
    table.shutdown_sessions(&vec![key("rust-analyzer", Some("/w"))]);
    assert_eq!(table.session_state(&ra), None);
    assert!(table.paths_tracking(&ra).is_empty());
    assert!(table.tracked_sessions_for_path("/w/a.rs").is_empty());
}

#[test]
fn close_buffer_returns_known_sessions_and_forgets_the_document() {
    let mut table = SessionTable::new(PathStyle::Posix);
    table.insert_session(key("rust-analyzer", None));
    table.track_session("/x.rs", &key("rust-analyzer", None));
    table.track_session("/x.rs", &key("gone", None));
    let closed: Vec<String> = table.close_buffer("/x.rs").into_iter().map(|k| k.server_id).collect();
    assert_eq!(closed, vec!["rust-analyzer".to_owned()]);
    assert!(table.close_buffer("/x.rs").is_empty());
    assert_eq!(table.session_state(&key("rust-analyzer", None)), Some(false));
}

#[test]
fn live_sessions_for_workspace_includes_root_scoped_and_buffer_served() {
    let mut table = SessionTable::new(PathStyle::Posix);
    let parent = key("rust-analyzer", Some("/volt"));
    let under = key("marksman", Some("/volt/crates/editor-lsp"));
    let outside = key("clangd", Some("/elsewhere"));
    table.insert_session(key("rust-analyzer", Some("/volt")));
    table.insert_session(key("marksman", Some("/volt/crates/editor-lsp")));
    table.insert_session(key("clangd", Some("/elsewhere")));
    table.track_session("/volt/crates/editor-lsp/lib.rs", &parent);
    table.track_session("/volt/src/main.rs", &under);
    table.track_session("/elsewhere/x.c", &outside);
    let listed = table.live_sessions_for_workspace(&["/volt/crates/editor-lsp/lib.rs".to_owned()], Some("/volt"));
    let ids: Vec<String> = listed.iter().map(|session| session.server_id().to_owned()).collect();
    assert_eq!(ids, vec!["marksman".to_owned(), "rust-analyzer".to_owned()]);
    table.mark_disconnected(&under);
    let listed = table.live_sessions_for_workspace(&[], Some("/volt"));
    let ids: Vec<String> = listed.iter().map(|session| session.server_id().to_owned()).collect();
    assert_eq!(ids, vec!["rust-analyzer".to_owned()]);
    assert_eq!(table.session_state(&under), None);
}

#[test]
fn close_buffer_keeps_session_alive_for_next_file() {
    let mut table = SessionTable::new(PathStyle::Windows);
    let ra = key("rust-analyzer", Some("P:\\workspace"));
    table.insert_session(key("rust-analyzer", Some("P:\\workspace")));
    table.track_session("P:\\workspace\\src\\a.rs", &ra);
    table.close_buffer("P:\\workspace\\src\\a.rs");
    assert_eq!(table.session_state(&ra), Some(false));
    table.track_session("P:\\workspace\\src\\b.rs", &ra);
    assert_eq!(table.tracked_sessions_for_path("P:\\workspace\\src\\b.rs").len(), 1);
}

#[test]
fn stop_buffer_shuts_down_session() {
    let mut table = SessionTable::new(PathStyle::Windows);
    let ra = key("rust-analyzer", Some("P:\\workspace"));
    table.insert_session(key("rust-analyzer", Some("P:\\workspace")));
    table.track_session("P:\\workspace\\src\\a.rs", &ra);
    let keys = table.close_buffer("P:\\workspace\\src\\a.rs");
    table.shutdown_sessions(&keys);
    assert_eq!(table.session_state(&ra), None);
}

#[test]
fn overrides_report_whether_they_changed() {
    let mut table = OverrideTable::new();
    let ra = key("rust-analyzer", Some("/w"));
    assert!(!table.replace(&ra, None));
    assert!(table.replace(&ra, Some(JsonValue::Bool(true))));
    assert!(!table.replace(&ra, Some(JsonValue::Bool(true))));
    assert_eq!(table.get(&ra), Some(JsonValue::Bool(true)));
    assert!(table.get(&key("rust-analyzer", None)).is_none());
    assert!(table.replace(&ra, Some(JsonValue::Bool(false))));
    assert!(table.replace(&ra, None));
    assert!(table.get(&ra).is_none());
}

#[test]
fn sessions_for_root_select_by_normalized_root() {
    let win = |server: &str, root: Option<&str>| SessionKey::new_in_style(server, root, PathStyle::Windows);
    let mut table = SessionTable::new(PathStyle::Windows);
    table.insert_session(win("rust-analyzer", Some("C:\\Work")));
    table.insert_session(win("biome", Some("C:\\Other")));
    table.insert_session(win("clippy", Some("c:\\work")));
    table.insert_session(win("marksman", None));
    let servers: Vec<String> =
        table.sessions_for_root(Some("C:\\WORK")).into_iter().map(|k| k.server_id).collect();
    assert_eq!(servers, vec!["rust-analyzer".to_owned(), "clippy".to_owned()]);
    let rootless: Vec<String> = table.sessions_for_root(None).into_iter().map(|k| k.server_id).collect();
    assert_eq!(rootless, vec!["marksman".to_owned()]);
    assert!(table.sessions_for_root(Some("/nowhere")).is_empty());
}

#[test]
fn settings_override_key_lookup_goes_through_the_section() {
    let mut overrides = OverrideTable::new();
    let k = key("vtsls", Some("/w"));
    assert!(!overrides.settings_contain_key(&k, Some("typescript"), "tsdk"));
    let settings = JsonValue::Object(vec![(
        "typescript".to_owned(),
        JsonValue::Object(vec![("tsdk".to_owned(), JsonValue::String("/sdk".to_owned()))]),
    )]);
    assert!(overrides.replace(&k, Some(settings)));
    assert!(overrides.settings_contain_key(&k, Some("typescript"), "tsdk"));
    assert!(!overrides.settings_contain_key(&k, None, "tsdk"));
    assert!(overrides.settings_contain_key(&k, None, "typescript"));
    assert!(!overrides.settings_contain_key(&key("vtsls", None), Some("typescript"), "tsdk"));
}

#[test]
fn ensuring_sessions_reuses_starts_and_skips_failed_servers() {
    let mut table = SessionTable::new(PathStyle::Posix);
    let mut failures: Vec<SessionKey> = Vec::new();
    let mut handled: Vec<SessionKey> = Vec::new();
    let ra = key("rust-analyzer", Some("/w"));
    let biome = key("biome", Some("/w"));
    table.insert_session(ra.clone());

    assert_eq!(table.ensure_step(&mut failures, &mut handled, &ra, false), EnsureAction::Reuse);
    assert_eq!(handled.len(), 1);
    assert_eq!(table.ensure_step(&mut failures, &mut handled, &ra, false), EnsureAction::Skip);

    assert_eq!(table.ensure_step(&mut failures, &mut handled, &biome, false), EnsureAction::Start);
    assert!(!table.record_start_outcome(&mut failures, &mut handled, &biome, false, false));
    assert_eq!(failures.len(), 1);
    assert_eq!(table.ensure_step(&mut failures, &mut handled, &biome, false), EnsureAction::Skip);
    assert!(table.record_start_outcome(&mut failures, &mut handled, &biome, false, true));
    assert_eq!(failures.len(), 1);

    assert_eq!(table.ensure_step(&mut failures, &mut handled, &biome, true), EnsureAction::Start);
    assert!(failures.is_empty());
    assert!(!table.record_start_outcome(&mut failures, &mut handled, &biome, true, true));
    assert_eq!(table.session_state(&biome), Some(false));
    assert_eq!(handled.len(), 2);
}

#[test]
fn forced_retry_drops_disconnected_sessions_before_deciding() {
    let mut table = SessionTable::new(PathStyle::Posix);
    let mut failures: Vec<SessionKey> = Vec::new();
    let mut handled: Vec<SessionKey> = Vec::new();
    let ra = key("rust-analyzer", None);
    table.insert_session(ra.clone());
    table.mark_disconnected(&ra);
    assert_eq!(table.ensure_step(&mut failures, &mut handled, &ra, false), EnsureAction::Reuse);
    let mut handled: Vec<SessionKey> = Vec::new();
    assert_eq!(table.ensure_step(&mut failures, &mut handled, &ra, true), EnsureAction::Start);
    assert_eq!(table.session_state(&ra), None);
    let mut keys = vec![ra.clone(), key("biome", None), ra.clone()];
    remove_key(&mut keys, &ra);
    assert_eq!(keys.len(), 1);
    assert_eq!(keys[0].server_id, "biome");
}

#[test]
fn session_labels_are_sorted_live_server_ids() {
    let mut table = SessionTable::new(PathStyle::Posix);
    for server in ["rust-analyzer", "biome", "clippy"] {
        table.insert_session(key(server, Some("/w")));
        table.track_session("/w/a.rs", &key(server, Some("/w")));
    }
    table.insert_session(key("biome", Some("/v")));
    table.track_session("/w/a.rs", &key("biome", Some("/v")));
    table.mark_disconnected(&key("clippy", Some("/w")));
    assert!(table.has_live_sessions_for_path("/w/a.rs"));
    assert_eq!(labels(&mut table, "/w/a.rs"), vec!["biome".to_owned(), "rust-analyzer".to_owned()]);
    assert!(!table.has_live_sessions_for_path("/w/other.rs"));
    assert!(labels(&mut table, "/w/other.rs").is_empty());
}
