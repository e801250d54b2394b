use editor_lsp::order::{sort_code_actions, sorted_unique_strings, str_less};
use editor_lsp::types::LspCodeAction;

fn action(server: &str, title: &str, kind: Option<&str>, preferred: bool, command: &str) -> LspCodeAction {
    LspCodeAction {
        server_id: server.to_owned(),
        title: title.to_owned(),
        kind: kind.map(str::to_owned),
        disabled_reason: None,
        preferred,
        document_edits: Vec::new(),
        command_name: Some(command.to_owned()),
        has_resource_operations: false,
    }
}

#[test]
fn code_actions_sort_preferred_first_then_by_title_server_kind() {
    let sorted = sort_code_actions(vec![
        action("rust-analyzer", "b", None, false, "1"),
        action("rust-analyzer", "a", Some("quickfix"), false, "2"),
        action("rust-analyzer", "a", None, false, "3"),
        action("clippy", "z", None, true, "4"),
        action("rust-analyzer", "a", None, false, "5"),
        action("clangd", "a", None, false, "6"),
    ]);
    let commands: Vec<&str> = sorted.iter().map(|a| a.command_name().unwrap()).collect();
    assert_eq!(commands, vec!["4", "6", "3", "5", "2", "1"]);
}

#[test]
fn strings_order_by_character_code() {
    assert!(str_less("B", "a"));
    assert!(str_less("ab", "abc"));
    assert!(!str_less("abc", "abc"));
    assert!(!str_less("b", "abc"));
}

#[test]
fn session_labels_are_sorted_and_listed_once() {
    let labels = sorted_unique_strings(&vec![
        "rust-analyzer".to_owned(),
        "copilot-language-server".to_owned(),
        "rust-analyzer".to_owned(),
        "clangd".to_owned(),
    ]);
    assert_eq!(labels, vec!["clangd".to_owned(), "copilot-language-server".to_owned(), "rust-analyzer".to_owned()]);
}
