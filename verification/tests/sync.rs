use editor_lsp::documents::{
    buffer_needs_sync, plan_buffer_sync, DocumentSyncAction, DocumentSyncState, TrackedBufferState,
};
use editor_lsp::paths::PathStyle;
use editor_lsp::sync::{
    full_document_range, incremental_content_changes, line_slice, lsp_position_on_text,
    map_exclusive_range_through_edit, text_document_content_change, text_end_position, usable_edit_chain,
    utf16_column, TextDocumentContentChange, TextDocumentSyncKind, SYNC_KIND_FULL, SYNC_KIND_INCREMENTAL,
};
use editor_lsp::text::{LspPosition, LspRange, TextEdit, TextPoint};

/// A recorded edit of a one-line buffer: bytes `start..old_end` replaced by
/// text ending at byte `new_end`, at the given columns.
fn edit(before: u64, start: usize, old_end: usize, new_end: usize, cols: (usize, usize, usize)) -> TextEdit {
    TextEdit {
        before_revision: before,
        after_revision: before + 1,
        start_byte: start,
        old_end_byte: old_end,
        new_end_byte: new_end,
        start_position: TextPoint::new(0, cols.0),
        old_end_position: TextPoint::new(0, cols.1),
        new_end_position: TextPoint::new(0, cols.2),
    }
}

fn range(l0: u32, c0: u32, l1: u32, c1: u32) -> Option<LspRange> {
    Some(LspRange {
        start: LspPosition { line: l0, character: c0 },
        end: LspPosition { line: l1, character: c1 },
    })
}

/// One client with one session: syncs buffers as the client manager does.
struct Client {
    session: DocumentSyncState,
    buffer: Option<TrackedBufferState>,
    last_sent: Option<DocumentSyncAction>,
    fail_next_send: bool,
}

impl Client {
    fn new(kind: i32) -> Self {
        let mut session = DocumentSyncState::new(PathStyle::Posix);
        session.set_text_document_sync_kind(TextDocumentSyncKind(kind));
        Client { session, buffer: None, last_sent: None, fail_next_send: false }
    }

    fn sync(&mut self, path: &str, text: &str, revision: u64, edits: Option<&[TextEdit]>) -> Result<(), ()> {
        let current = self.session.has_open_document(path) && !self.session.path_needs_full_document(path);
        let (plan, state) = plan_buffer_sync(self.buffer, revision, current);
        self.buffer = Some(state);
        if plan.already_synced {
            return Ok(());
        }
        let chain = usable_edit_chain(edits, plan.last_revision, revision);
        let previous = self.session.open_document_text(path);
        let incremental = match (previous.as_deref(), chain) {
            (Some(previous), Some(chain)) => incremental_content_changes(previous, text, chain),
            _ => None,
        };
        let action = self.session.plan_sync_text_document(path, plan.version, text, incremental.as_deref());
        let failed = std::mem::replace(&mut self.fail_next_send, false);
        match &action {
            DocumentSyncAction::Open { text, .. } => {
                if !failed {
                    self.session.record_did_open(path, text);
                }
            }
            DocumentSyncAction::Change { used_incremental, .. } => {
                self.session.record_did_change(path, text, !failed, *used_incremental);
            }
        }
        self.last_sent = Some(action);
        if failed { Err(()) } else { Ok(()) }
    }

    fn last_changes(&self) -> Vec<TextDocumentContentChange> {
        match &self.last_sent {
            Some(DocumentSyncAction::Change { changes, .. }) => changes.clone(),
            _ => Vec::new(),
        }
    }
}

#[test]
fn did_open_still_sends_full_text() {
    let mut client = Client::new(SYNC_KIND_INCREMENTAL);
    client.sync("src/main.rs", "fn main() {}", 0, None).unwrap();
    match &client.last_sent {
        Some(DocumentSyncAction::Open { text, .. }) => assert_eq!(text, "fn main() {}"),
        _ => panic!("didOpen must not send didChange"),
    }
}

#[test]
fn incremental_did_change_emits_one_event_per_contiguous_edit() {
    let mut client = Client::new(SYNC_KIND_INCREMENTAL);
    client.sync("src/main.rs", "hello", 0, None).unwrap();
    let edits = [edit(0, 5, 5, 6, (5, 5, 6)), edit(1, 6, 6, 7, (6, 6, 7))];
    client.sync("src/main.rs", "helloab", 2, Some(&edits)).unwrap();
    let changes = client.last_changes();
    assert_eq!(changes.len(), 2);
    assert_eq!(changes[0].text, "a");
    assert_eq!(changes[1].text, "b");
    assert_eq!(changes[1].range, range(0, 6, 0, 6));
}

#[test]
fn incremental_did_change_sends_only_inserted_character() {
    let mut client = Client::new(SYNC_KIND_INCREMENTAL);
    client.sync("src/main.rs", "hello", 0, None).unwrap();
    let edits = [edit(0, 5, 5, 6, (5, 5, 6))];
    client.sync("src/main.rs", "hello!", 1, Some(&edits)).unwrap();
    let changes = client.last_changes();
    assert_eq!(changes.len(), 1);
    assert_eq!(changes[0].text, "!");
    assert_eq!(changes[0].range, range(0, 5, 0, 5));
    assert_eq!(changes[0].range_length, None);
}

#[test]
fn incremental_did_change_includes_newline_in_range_and_text() {
    let mut client = Client::new(SYNC_KIND_INCREMENTAL);
    client.sync("src/main.rs", "ab", 0, None).unwrap();
    let first = [TextEdit {
        before_revision: 0,
        after_revision: 1,
        start_byte: 1,
        old_end_byte: 1,
        new_end_byte: 2,
        start_position: TextPoint::new(0, 1),
        old_end_position: TextPoint::new(0, 1),
        new_end_position: TextPoint::new(1, 0),
    }];
    client.sync("src/main.rs", "a\nb", 1, Some(&first)).unwrap();
    let changes = client.last_changes();
    assert_eq!(changes.len(), 1);
    assert_eq!(changes[0].text, "\n");
    assert_eq!(changes[0].range, range(0, 1, 0, 1));

    let second = [TextEdit {
        before_revision: 1,
        after_revision: 2,
        start_byte: 2,
        old_end_byte: 2,
        new_end_byte: 3,
        start_position: TextPoint::new(1, 0),
        old_end_position: TextPoint::new(1, 0),
        new_end_position: TextPoint::new(1, 1),
    }];
    client.sync("src/main.rs", "a\nxb", 2, Some(&second)).unwrap();
    let next = client.last_changes();
    assert_eq!(next.len(), 1);
    assert_eq!(next[0].text, "x");
    assert_eq!(next[0].range, range(1, 0, 1, 0));
}

#[test]
fn incremental_did_change_sends_empty_text_for_range_delete() {
    let mut client = Client::new(SYNC_KIND_INCREMENTAL);
    client.sync("src/main.rs", "hello", 0, None).unwrap();
    let edits = [edit(0, 1, 4, 1, (1, 4, 1))];
    client.sync("src/main.rs", "ho", 1, Some(&edits)).unwrap();
    let changes = client.last_changes();
    assert_eq!(changes.len(), 1);
    assert_eq!(changes[0].text, "");
    assert_eq!(changes[0].range, range(0, 1, 0, 4));
}

#[test]
fn incremental_did_change_replace_covers_old_range_and_new_text() {
    let mut client = Client::new(SYNC_KIND_INCREMENTAL);
    client.sync("src/main.rs", "hello", 0, None).unwrap();
    let edits = [edit(0, 1, 4, 4, (1, 4, 4))];
    client.sync("src/main.rs", "hippo", 1, Some(&edits)).unwrap();
    let changes = client.last_changes();
    assert_eq!(changes.len(), 1);
    assert_eq!(changes[0].text, "ipp");
    assert_eq!(changes[0].range, range(0, 1, 0, 4));
}

#[test]
fn incremental_did_change_uses_utf16_columns_on_emoji_line() {
    let mut client = Client::new(SYNC_KIND_INCREMENTAL);
    client.sync("src/main.rs", "a😀b", 0, None).unwrap();
    let edits = [edit(0, 5, 5, 6, (2, 2, 3))];
    client.sync("src/main.rs", "a😀xb", 1, Some(&edits)).unwrap();
    let changes = client.last_changes();
    assert_eq!(changes.len(), 1);
    assert_eq!(changes[0].text, "x");
    assert_eq!(changes[0].range, range(0, 3, 0, 3), "😀 is one TextPoint column and two UTF-16 code units");
}

#[test]
fn incremental_missing_edit_chain_uses_full_document_replacement() {
    let mut client = Client::new(SYNC_KIND_INCREMENTAL);
    client.sync("src/main.rs", "hello", 0, None).unwrap();
    client.sync("src/main.rs", "replaced", 99, None).unwrap();
    let changes = client.last_changes();
    assert_eq!(changes.len(), 1);
    assert_eq!(changes[0].text, "replaced");
    assert_eq!(changes[0].range, range(0, 0, 0, 5));
}

#[test]
fn full_sync_sends_null_range_and_full_text_even_with_edits() {
    let mut client = Client::new(SYNC_KIND_FULL);
    client.sync("src/main.rs", "hello", 0, None).unwrap();
    let edits = [edit(0, 5, 5, 6, (5, 5, 6))];
    client.sync("src/main.rs", "hello!", 1, Some(&edits)).unwrap();
    let changes = client.last_changes();
    assert_eq!(changes.len(), 1);
    assert_eq!(changes[0].range, None);
    assert_eq!(changes[0].text, "hello!");
}

#[test]
fn incremental_send_error_recovers_with_full_document() {
    let mut client = Client::new(SYNC_KIND_INCREMENTAL);
    client.sync("src/main.rs", "hello", 0, None).unwrap();
    client.fail_next_send = true;
    let first = [edit(0, 5, 5, 6, (5, 5, 6))];
    assert!(client.sync("src/main.rs", "hello!", 1, Some(&first)).is_err());
    let second = [edit(1, 6, 6, 7, (6, 6, 7))];
    client.sync("src/main.rs", "hello!?", 2, Some(&second)).unwrap();
    let changes = client.last_changes();
    assert_eq!(changes.len(), 1);
    assert_eq!(changes[0].text, "hello!?", "recovery must send the full document, not a stale incremental slice");
    assert_eq!(changes[0].range, range(0, 0, 0, 5));
}

#[test]
fn close_then_open_then_incremental_edits_work_again() {
    let mut client = Client::new(SYNC_KIND_INCREMENTAL);
    client.sync("src/main.rs", "hello", 0, None).unwrap();
    client.session.record_did_close("src/main.rs");
    client.buffer = None;
    client.sync("src/main.rs", "hello!", 1, None).unwrap();
    match &client.last_sent {
        Some(DocumentSyncAction::Open { text, .. }) => assert_eq!(text, "hello!"),
        _ => panic!("expected didOpen after close"),
    }
    let edits = [edit(1, 6, 6, 7, (6, 6, 7))];
    client.sync("src/main.rs", "hello!?", 2, Some(&edits)).unwrap();
    let changes = client.last_changes();
    assert_eq!(changes.len(), 1);
    assert_eq!(changes[0].text, "?");
    assert_eq!(changes[0].range, range(0, 6, 0, 6));
}

#[test]
fn full_sync_uses_null_range_change() {
    let change = text_document_content_change(TextDocumentSyncKind(SYNC_KIND_FULL), "line one", "updated");
    assert_eq!(change.range, None);
    assert_eq!(change.range_length, None);
    assert_eq!(change.text, "updated");
}

#[test]
fn same_revision_is_not_resent() {
    let mut client = Client::new(SYNC_KIND_INCREMENTAL);
    client.sync("src/main.rs", "hello", 3, None).unwrap();
    client.last_sent = None;
    client.sync("src/main.rs", "hello", 3, None).unwrap();
    assert!(client.last_sent.is_none());
    assert_eq!(client.buffer.unwrap().version, 1);
}

#[test]
fn edit_chain_needs_a_linked_path_between_revisions() {
    let edits = [edit(3, 0, 0, 1, (0, 0, 1)), edit(4, 1, 1, 2, (1, 1, 2)), edit(5, 2, 2, 3, (2, 2, 3))];
    assert_eq!(usable_edit_chain(Some(&edits), Some(4), 6).map(|c| c.len()), Some(2));
    assert_eq!(usable_edit_chain(Some(&edits), Some(4), 4).map(|c| c.len()), Some(0));
    assert!(usable_edit_chain(Some(&edits), Some(4), 5).is_none());
    assert!(usable_edit_chain(Some(&edits), Some(9), 6).is_none());
    assert!(usable_edit_chain(None, Some(4), 6).is_none());
    let broken = [edit(3, 0, 0, 1, (0, 0, 1)), edit(7, 1, 1, 2, (1, 1, 2))];
    assert!(usable_edit_chain(Some(&broken), Some(3), 8).is_none());
}

#[test]
fn ranges_move_through_later_edits() {
    let later = edit(0, 2, 4, 7, (2, 4, 7));
    assert_eq!(map_exclusive_range_through_edit(0, 2, &later), Some((0, 2)));
    assert_eq!(map_exclusive_range_through_edit(5, 6, &later), Some((8, 9)));
    assert_eq!(map_exclusive_range_through_edit(3, 5, &later), None);
    let shrink = edit(0, 0, 5, 0, (0, 5, 0));
    assert_eq!(map_exclusive_range_through_edit(6, 8, &shrink), Some((1, 3)));
}

#[test]
fn positions_count_utf16_units_and_lines() {
    assert_eq!(line_slice("one\ntwo\r\nthree", 1), "two\r");
    assert_eq!(line_slice("one\ntwo", 5), "");
    assert_eq!(utf16_column("a😀b", 2), 3);
    assert_eq!(utf16_column("a\r\nb", 5), 1);
    assert_eq!(text_end_position("a😀\nbc"), LspPosition { line: 1, character: 2 });
    assert_eq!(text_end_position(""), LspPosition { line: 0, character: 0 });
    assert_eq!(full_document_range("ab\r\n").end, LspPosition { line: 1, character: 0 });
    assert_eq!(
        lsp_position_on_text("x\n😀y", TextPoint::new(1, 1)),
        LspPosition { line: 1, character: 2 }
    );
}

#[test]
fn replaying_edits_that_do_not_reach_the_new_text_gives_no_changes() {
    let edits = [edit(0, 5, 5, 6, (5, 5, 6))];
    assert!(incremental_content_changes("hello", "hellox", &edits).is_some());
    assert!(incremental_content_changes("hello", "jello!", &edits).is_none());
    let out_of_bounds = [edit(0, 9, 9, 10, (9, 9, 10))];
    assert!(incremental_content_changes("hello", "hello!", &out_of_bounds).is_none());
    assert_eq!(incremental_content_changes("a", "b", &[]).map(|v| v.len()), Some(0));
}

#[test]
fn two_sessions_receive_the_same_incremental_content_changes() {
    let mut rust = Client::new(SYNC_KIND_INCREMENTAL);
    let mut biome = Client::new(SYNC_KIND_INCREMENTAL);
    rust.sync("src/main.rs", "hello", 0, None).unwrap();
    biome.sync("src/main.rs", "hello", 0, None).unwrap();
    let edits = [edit(0, 5, 5, 6, (5, 5, 6))];
    rust.sync("src/main.rs", "hello!", 1, Some(&edits)).unwrap();
    biome.sync("src/main.rs", "hello!", 1, Some(&edits)).unwrap();
    assert_eq!(rust.last_changes(), biome.last_changes());
    assert_eq!(rust.last_changes()[0].text, "!");
}

#[test]
fn buffers_need_sync_unless_a_live_session_has_the_revision() {
    let servers = vec!["rust-analyzer".to_owned(), "biome".to_owned()];
    assert!(!buffer_needs_sync(Some(3), true, 3, &servers, &[]));
    assert!(buffer_needs_sync(Some(3), false, 3, &servers, &[]));
    assert!(buffer_needs_sync(Some(2), true, 3, &servers, &[]));
    assert!(buffer_needs_sync(None, false, 1, &servers, &["rust-analyzer".to_owned()]));
    assert!(!buffer_needs_sync(None, false, 1, &servers, &["rust-analyzer".to_owned(), "biome".to_owned()]));
    assert!(!buffer_needs_sync(None, false, 1, &[], &[]));
}

#[test]
fn change_texts_put_over_the_edit_ranges_rebuild_the_new_text() {
    // "hello world" -> "hello brave world" -> "hi brave world"
    let edits = [edit(0, 6, 6, 12, (6, 6, 12)), edit(1, 1, 5, 2, (1, 5, 2))];
    let changes = incremental_content_changes("hello world", "hi brave world", &edits).expect("changes");
    assert_eq!(changes.len(), edits.len());
    let mut working = "hello world".to_owned();
    for (change, e) in changes.iter().zip(edits.iter()) {
        working.replace_range(e.start_byte..e.old_end_byte, &change.text);
    }
    assert_eq!(working, "hi brave world");
    assert_eq!(changes[0].text, "brave ");
    assert_eq!(changes[1].text, "i");
}
