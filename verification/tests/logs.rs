use editor_lsp::notify::{record_show_message, window_notice};
use editor_lsp::logs::{
    LspLogDirection, LspLogEntry, LspNotification, LspNotificationLevel, LspNotificationLog,
    LspNotificationProgress, LspTransportLog,
};

#[test]
fn client_transport_log_snapshot_is_bounded_and_tracks_revision() {
    let mut log = LspTransportLog::new(2);
    log.record(LspLogEntry::new(LspLogDirection::Event, "rust-analyzer", "started"));
    log.record(LspLogEntry::new(LspLogDirection::Outgoing, "rust-analyzer", "{\"id\":1}"));
    log.record(LspLogEntry::new(LspLogDirection::Incoming, "rust-analyzer", "{\"result\":1}"));

    let snapshot = log.snapshot();
    assert_eq!(snapshot.revision(), 3);
    assert_eq!(snapshot.entries().len(), 2);
    assert_eq!(snapshot.entries()[0].direction(), LspLogDirection::Outgoing);
    assert_eq!(snapshot.entries()[1].direction(), LspLogDirection::Incoming);
}

#[test]
fn tests_transport_log_snapshot_is_bounded_and_tracks_revision() {
    let mut log = LspTransportLog::new(2);
    log.record(LspLogEntry::new(LspLogDirection::Event, "rust-analyzer", "started"));
    log.record(LspLogEntry::new(LspLogDirection::Outgoing, "rust-analyzer", "{\"id\":1}"));
    log.record(LspLogEntry::new(LspLogDirection::Incoming, "rust-analyzer", "{\"result\":1}"));

    let snapshot = log.snapshot();
    assert_eq!(snapshot.revision(), 3);
    assert_eq!(snapshot.entries().len(), 2);
    assert_eq!(snapshot.entries()[0].direction(), LspLogDirection::Outgoing);
    assert_eq!(snapshot.entries()[1].direction(), LspLogDirection::Incoming);
}

#[test]
fn client_notification_log_snapshot_is_bounded_and_tracks_revision() {
    let mut log = LspNotificationLog::new(2);
    log.record(LspNotification::new(
        "session:rust-analyzer:global",
        "rust-analyzer",
        LspNotificationLevel::Info,
        "LSP · rust-analyzer",
        vec!["Starting".to_owned()],
        None,
        true,
    ));
    log.record(LspNotification::new(
        "progress:rust-analyzer:token-1",
        "rust-analyzer",
        LspNotificationLevel::Info,
        "LSP · rust-analyzer",
        vec!["Indexing".to_owned()],
        Some(LspNotificationProgress::new(Some(25))),
        true,
    ));
    log.record(LspNotification::new(
        "session:rust-analyzer:global",
        "rust-analyzer",
        LspNotificationLevel::Success,
        "LSP · rust-analyzer",
        vec!["Ready".to_owned()],
        None,
        false,
    ));

    let snapshot = log.snapshot();
    assert_eq!(snapshot.revision(), 3);
    assert_eq!(snapshot.entries().len(), 2);
    assert_eq!(snapshot.entries()[0].notification().key(), "progress:rust-analyzer:token-1");
    assert_eq!(snapshot.entries()[1].notification().level(), LspNotificationLevel::Success);
}

#[test]
fn tests_notification_log_snapshot_is_bounded_and_tracks_revision() {
    let mut log = LspNotificationLog::new(2);
    log.record(LspNotification {
        key: "session:rust-analyzer:global".to_owned(),
        server_id: "rust-analyzer".to_owned(),
        root: None,
        level: LspNotificationLevel::Info,
        title: "LSP · rust-analyzer".to_owned(),
        body_lines: vec!["Starting".to_owned()],
        progress: None,
        active: true,
        action: None,
    });
    log.record(LspNotification {
        key: "progress:rust-analyzer:token-1".to_owned(),
        server_id: "rust-analyzer".to_owned(),
        root: None,
        level: LspNotificationLevel::Info,
        title: "LSP · rust-analyzer".to_owned(),
        body_lines: vec!["Indexing".to_owned()],
        progress: Some(LspNotificationProgress::new(Some(25))),
        active: true,
        action: None,
    });
    log.record(LspNotification {
        key: "session:rust-analyzer:global".to_owned(),
        server_id: "rust-analyzer".to_owned(),
        root: None,
        level: LspNotificationLevel::Success,
        title: "LSP · rust-analyzer".to_owned(),
        body_lines: vec!["Ready".to_owned()],
        progress: None,
        active: false,
        action: None,
    });

    let snapshot = log.snapshot();
    assert_eq!(snapshot.revision(), 3);
    assert_eq!(snapshot.entries().len(), 2);
    assert_eq!(snapshot.entries()[0].notification().key(), "progress:rust-analyzer:token-1");
    assert_eq!(snapshot.entries()[1].notification().level(), LspNotificationLevel::Success);
}

#[test]
fn notification_entries_carry_increasing_revisions() {
    let mut log = LspNotificationLog::new(5);
    for body in ["one", "two", "three"] {
        log.record(LspNotification::new(
            "session:ra:global",
            "ra",
            LspNotificationLevel::Info,
            "LSP · ra",
            vec![body.to_owned()],
            None,
            true,
        ));
    }
    let snapshot = log.snapshot();
    let revisions: Vec<u64> = snapshot.entries().iter().map(|e| e.revision()).collect();
    assert_eq!(revisions, vec![1, 2, 3]);
}

#[test]
fn transport_log_with_zero_capacity_keeps_nothing_but_counts() {
    let mut log = LspTransportLog::new(0);
    log.record(LspLogEntry::new(LspLogDirection::Event, "ra", "started"));
    let snapshot = log.snapshot();
    assert_eq!(snapshot.revision(), 1);
    assert!(snapshot.entries().is_empty());
    assert_eq!(LspLogDirection::Outgoing.label(), "OUT");
}

#[test]
fn transport_log_snapshot_only_when_revision_moved() {
    let mut log = LspTransportLog::new(4);
    assert!(log.snapshot_if_changed(0).is_none());
    log.record(LspLogEntry::new(LspLogDirection::Event, "rust-analyzer", "started"));
    let snapshot = log.snapshot_if_changed(0).expect("moved");
    assert_eq!(snapshot.revision(), 1);
    assert_eq!(snapshot.entries().len(), 1);
    assert!(log.snapshot_if_changed(1).is_none());
}

#[test]
fn log_and_notification_revision_skip_cloning_unchanged_snapshots() {
    let mut log = LspTransportLog::new(8);
    assert_eq!(log.revision(), 0);
    assert!(log.snapshot_if_changed(0).is_none());
    log.record(LspLogEntry::new(LspLogDirection::Event, "rust-analyzer", "started"));
    assert_eq!(log.revision(), 1);
    assert_eq!(log.snapshot_if_changed(0).expect("moved").revision(), 1);
    assert!(log.snapshot_if_changed(1).is_none());

    let mut notifications = LspNotificationLog::new(8);
    assert_eq!(notifications.revision(), 0);
    assert!(notifications.snapshot_if_changed(0).is_none());
    record_show_message(&mut notifications, "rust-analyzer", "Indexing");
    assert_eq!(notifications.revision(), 1);
    assert_eq!(notifications.snapshot_if_changed(0).expect("moved").revision(), 1);
    assert!(notifications.snapshot_if_changed(1).is_none());
}

#[test]
fn shown_messages_become_informational_notifications() {
    let notice = window_notice("rust-analyzer", "Indexing");
    assert_eq!(notice.key(), "window:rust-analyzer:Indexing");
    assert_eq!(notice.server_id(), "rust-analyzer");
    assert_eq!(notice.root(), None);
    assert_eq!(notice.level(), LspNotificationLevel::Info);
    assert_eq!(notice.title(), "LSP · rust-analyzer");
    assert_eq!(notice.body_lines(), &["Indexing".to_owned()]);
    assert!(notice.progress().is_none());
    assert!(!notice.active());
    assert!(notice.action().is_none());

    let mut log = LspNotificationLog::new(1);
    record_show_message(&mut log, "biome", "first");
    record_show_message(&mut log, "biome", "second");
    let snapshot = log.snapshot();
    assert_eq!(snapshot.revision(), 2);
    assert_eq!(snapshot.entries().len(), 1);
    assert_eq!(snapshot.entries()[0].revision(), 2);
    assert_eq!(snapshot.entries()[0].notification().key(), "window:biome:second");
}

#[test]
fn notification_log_after_n_records_keeps_consecutive_newest() {
    let mut log = LspNotificationLog::new(3);
    for i in 0..5 {
        record_show_message(&mut log, "biome", &format!("message {i}"));
    }
    let snapshot = log.snapshot();
    assert_eq!(snapshot.revision(), 5);
    let revisions: Vec<u64> = snapshot.entries().iter().map(|e| e.revision()).collect();
    assert_eq!(revisions, vec![3, 4, 5]);
    let mut short = LspNotificationLog::new(10);
    record_show_message(&mut short, "biome", "only");
    assert_eq!(short.snapshot().entries().len(), 1);
    assert_eq!(short.snapshot().entries()[0].revision(), 1);
}

#[test]
fn entries_can_carry_a_given_timestamp() {
    let at = std::time::UNIX_EPOCH + std::time::Duration::from_secs(7);
    let entry = LspLogEntry::with_timestamp(at, LspLogDirection::Incoming, "biome", "{}");
    assert_eq!(entry.timestamp(), at);
    assert_eq!(entry.direction(), LspLogDirection::Incoming);
    assert_eq!(entry.server_id(), "biome");
    assert_eq!(entry.body(), "{}");
}
