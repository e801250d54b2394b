use editor_lsp::diagnostics::{
    collect_path_diagnostics, note_session_disconnect_diagnostics, record_published_diagnostics,
    sort_diagnostics, workspace_diagnostics, DiagnosticsChanges, SessionDiagnostics,
};
use editor_lsp::paths::PathStyle;
use editor_lsp::text::{TextPoint, TextRange};
use editor_lsp::types::{Diagnostic, DiagnosticSeverity};

fn diag(line: usize, column: usize, severity: DiagnosticSeverity, message: &str) -> Diagnostic {
    Diagnostic::new(
        "test".to_owned(),
        message.to_owned(),
        severity,
        TextRange::new(TextPoint::new(line, column), TextPoint::new(line, column + 1)),
    )
}

#[test]
fn published_diagnostics_read_back_and_mark_path_dirty() {
    let mut session = SessionDiagnostics::new(PathStyle::Posix);
    let mut changes = DiagnosticsChanges::new(PathStyle::Posix);
    record_published_diagnostics(
        &mut session,
        &mut changes,
        "/work/src/main.rs",
        vec![diag(3, 1, DiagnosticSeverity::Error, "boom")],
    );
    let read = session.diagnostics_for_path("/work/src/main.rs");
    assert_eq!(read.len(), 1);
    assert_eq!(read[0].message, "boom");
    assert!(session.diagnostics_for_path("/work/src/lib.rs").is_empty());
    assert_eq!(changes.generation(), 1);
    assert_eq!(changes.take_dirty_diagnostic_paths(), vec!["/work/src/main.rs".to_owned()]);
    assert!(changes.take_dirty_diagnostic_paths().is_empty());
}

#[test]
fn republishing_replaces_and_marks_path_once() {
    let mut session = SessionDiagnostics::new(PathStyle::Posix);
    let mut changes = DiagnosticsChanges::new(PathStyle::Posix);
    record_published_diagnostics(&mut session, &mut changes, "/a.rs", vec![diag(1, 0, DiagnosticSeverity::Warning, "old")]);
    record_published_diagnostics(&mut session, &mut changes, "/a.rs", Vec::new());
    assert!(session.diagnostics_for_path("/a.rs").is_empty());
    assert_eq!(changes.generation(), 2);
    assert_eq!(changes.take_dirty_diagnostic_paths().len(), 1);
}

#[test]
fn disconnect_marks_every_published_path_dirty() {
    let mut session = SessionDiagnostics::new(PathStyle::Posix);
    let mut changes = DiagnosticsChanges::new(PathStyle::Posix);
    record_published_diagnostics(&mut session, &mut changes, "/a.rs", Vec::new());
    record_published_diagnostics(&mut session, &mut changes, "/b.rs", Vec::new());
    let _ = changes.take_dirty_diagnostic_paths();
    note_session_disconnect_diagnostics(&session, &mut changes);
    assert_eq!(changes.generation(), 2);
    assert_eq!(changes.take_dirty_diagnostic_paths(), vec!["/a.rs".to_owned(), "/b.rs".to_owned()]);
}

#[test]
fn generation_wraps_at_the_end_of_the_range() {
    let mut changes = DiagnosticsChanges::new(PathStyle::Posix);
    changes.generation = u64::MAX;
    changes.bump_generation();
    assert_eq!(changes.generation(), 0);
}

#[test]
fn diagnostics_sort_by_position_then_severity_and_keep_ties_in_order() {
    let sorted = sort_diagnostics(vec![
        diag(4, 0, DiagnosticSeverity::Error, "late"),
        diag(1, 2, DiagnosticSeverity::Information, "info"),
        diag(1, 2, DiagnosticSeverity::Error, "first error"),
        diag(1, 2, DiagnosticSeverity::Error, "second error"),
        diag(1, 0, DiagnosticSeverity::Warning, "early"),
    ]);
    let messages: Vec<&str> = sorted.iter().map(|d| d.message.as_str()).collect();
    assert_eq!(messages, vec!["early", "first error", "second error", "info", "late"]);
}

#[test]
fn collected_diagnostics_merge_sessions() {
    let mut first = SessionDiagnostics::new(PathStyle::Posix);
    let mut second = SessionDiagnostics::new(PathStyle::Posix);
    let mut changes = DiagnosticsChanges::new(PathStyle::Posix);
    record_published_diagnostics(&mut first, &mut changes, "/m.rs", vec![diag(5, 0, DiagnosticSeverity::Error, "a")]);
    record_published_diagnostics(&mut second, &mut changes, "/m.rs", vec![diag(2, 0, DiagnosticSeverity::Error, "b")]);
    record_published_diagnostics(&mut second, &mut changes, "/other.rs", vec![diag(0, 0, DiagnosticSeverity::Error, "c")]);
    let merged = collect_path_diagnostics(&vec![first, second], "/m.rs");
    let messages: Vec<&str> = merged.iter().map(|d| d.message.as_str()).collect();
    assert_eq!(messages, vec!["b", "a"]);
}

#[test]
fn memory_session_publish_bumps_generation_and_dirty_path() {
    let path = "src/main.rs";
    let mut session = SessionDiagnostics::new(PathStyle::Posix);
    let mut changes = DiagnosticsChanges::new(PathStyle::Posix);
    record_published_diagnostics(&mut session, &mut changes, path, vec![diag(0, 0, DiagnosticSeverity::Error, "cannot find value `missing`")]);
    assert_eq!(changes.generation(), 1);
    assert_eq!(changes.take_dirty_diagnostic_paths(), vec![path.to_owned()]);
    assert!(changes.take_dirty_diagnostic_paths().is_empty());
    record_published_diagnostics(&mut session, &mut changes, path, vec![diag(0, 0, DiagnosticSeverity::Warning, "unused variable")]);
    assert_eq!(changes.generation(), 2);
    assert_eq!(changes.take_dirty_diagnostic_paths(), vec![path.to_owned()]);
    assert_eq!(collect_path_diagnostics(&vec![session], path)[0].message, "unused variable");
}

#[test]
fn memory_session_disconnect_bumps_generation_and_clears_path() {
    let path = "src/lib.rs";
    let mut session = SessionDiagnostics::new(PathStyle::Posix);
    let mut changes = DiagnosticsChanges::new(PathStyle::Posix);
    record_published_diagnostics(&mut session, &mut changes, path, vec![diag(0, 0, DiagnosticSeverity::Error, "cannot find value `missing`")]);
    let _ = changes.take_dirty_diagnostic_paths();
    note_session_disconnect_diagnostics(&session, &mut changes);
    changes.bump_generation();
    assert_eq!(changes.generation(), 2);
    assert_eq!(changes.take_dirty_diagnostic_paths(), vec![path.to_owned()]);
    // A disconnected session no longer takes part in lookups.
    let live: Vec<SessionDiagnostics> = Vec::new();
    assert!(collect_path_diagnostics(&live, path).is_empty());
}

#[test]
fn two_memory_sessions_merge_and_sort_diagnostics_for_path() {
    let path = "src/main.rs";
    let later = Diagnostic::new(
        "rustc".to_owned(),
        "cannot find value `missing`".to_owned(),
        DiagnosticSeverity::Error,
        TextRange::new(TextPoint::new(4, 2), TextPoint::new(4, 9)),
    );
    let earlier = Diagnostic::new(
        "biome".to_owned(),
        "formatting suggestion".to_owned(),
        DiagnosticSeverity::Information,
        TextRange::new(TextPoint::new(1, 0), TextPoint::new(1, 6)),
    );
    let mut changes = DiagnosticsChanges::new(PathStyle::Posix);
    let mut rust = SessionDiagnostics::new(PathStyle::Posix);
    let mut biome = SessionDiagnostics::new(PathStyle::Posix);
    record_published_diagnostics(&mut rust, &mut changes, path, vec![later.clone()]);
    record_published_diagnostics(&mut biome, &mut changes, path, vec![earlier.clone()]);
    assert_eq!(collect_path_diagnostics(&vec![rust, biome], path), vec![earlier, later]);
}

#[test]
fn workspace_diagnostics_collect_entries_across_live_sessions() {
    let lib_path = "src/lib.rs";
    let main_path = "src/main.rs";
    let error = Diagnostic::new(
        "rustc".to_owned(),
        "cannot find value `missing` in this scope".to_owned(),
        DiagnosticSeverity::Error,
        TextRange::new(TextPoint::new(4, 2), TextPoint::new(4, 9)),
    );
    let warning = Diagnostic::new(
        "rustc".to_owned(),
        "unused variable: `value`".to_owned(),
        DiagnosticSeverity::Warning,
        TextRange::new(TextPoint::new(7, 4), TextPoint::new(7, 9)),
    );
    let info = Diagnostic::new(
        "biome".to_owned(),
        "formatting suggestion".to_owned(),
        DiagnosticSeverity::Information,
        TextRange::new(TextPoint::new(1, 0), TextPoint::new(1, 6)),
    );
    let mut changes = DiagnosticsChanges::new(PathStyle::Posix);
    let mut rust = SessionDiagnostics::new(PathStyle::Posix);
    record_published_diagnostics(&mut rust, &mut changes, lib_path, vec![error.clone()]);
    record_published_diagnostics(&mut rust, &mut changes, main_path, vec![warning.clone()]);
    let mut biome = SessionDiagnostics::new(PathStyle::Posix);
    record_published_diagnostics(&mut biome, &mut changes, main_path, vec![info.clone()]);
    let mut gone = SessionDiagnostics::new(PathStyle::Posix);
    record_published_diagnostics(&mut gone, &mut changes, main_path, vec![info.clone()]);

    let sessions = vec![
        ("rust-analyzer".to_owned(), false, rust),
        ("biome".to_owned(), false, biome),
        ("stale".to_owned(), true, gone),
    ];
    let diagnostics = workspace_diagnostics(&sessions);
    assert_eq!(diagnostics.len(), 3);
    assert!(diagnostics.iter().any(|entry| {
        entry.server_id() == "rust-analyzer" && entry.path() == lib_path && entry.diagnostic() == &error
    }));
    assert!(diagnostics.iter().any(|entry| {
        entry.server_id() == "rust-analyzer" && entry.path() == main_path && entry.diagnostic() == &warning
    }));
    assert!(diagnostics.iter().any(|entry| {
        entry.server_id() == "biome" && entry.path() == main_path && entry.diagnostic() == &info
    }));
}
