use editor_lsp::windows::{
    explicit_windows_env_value, parse_windows_cmd_environment, parse_windows_nvm_current_version,
    spawn_error_should_retry, windows_command_extensions, windows_launch_program_candidates,
    windows_nvm_version_dir_candidates, windows_path_entries, windows_runtime_candidate_paths, windows_runtime_environment,
    windows_runtime_program_names, windows_should_retry_spawn_error, windows_nvm_home, windows_nvm_node_dir_candidates,
    windows_nvm_environment,
};

#[test]
fn client_windows_launch_program_candidates_include_command_shims() {
    let candidates = windows_launch_program_candidates(
        "vscode-json-language-server",
        &windows_command_extensions(None),
    );
    assert!(candidates.contains(&"vscode-json-language-server.cmd".to_owned()));
}

#[test]
fn tests_windows_launch_program_candidates_include_command_shims() {
    let candidates = windows_launch_program_candidates(
        "vscode-json-language-server",
        &windows_command_extensions(None),
    );
    assert!(candidates.contains(&"vscode-json-language-server.cmd".to_owned()));
}

#[test]
fn client_windows_parse_cmd_environment_extracts_variables() {
    let env = parse_windows_cmd_environment(
        "SET PATH=C:\\fnm;C:\\tools\r\nSET FNM_DIR=C:\\Users\\sam\\AppData\\Roaming\\fnm\r\n",
    )
    .expect("fnm env should parse");
    assert_eq!(
        env,
        vec![
            ("PATH".to_owned(), "C:\\fnm;C:\\tools".to_owned()),
            ("FNM_DIR".to_owned(), "C:\\Users\\sam\\AppData\\Roaming\\fnm".to_owned()),
        ]
    );
}

#[test]
fn tests_windows_parse_cmd_environment_extracts_variables() {
    let env = parse_windows_cmd_environment(
        "SET PATH=C:\\fnm;C:\\tools\r\nSET FNM_DIR=C:\\Users\\sam\\AppData\\Roaming\\fnm\r\n",
    )
    .expect("fnm env should parse");
    assert_eq!(
        env,
        vec![
            ("PATH".to_owned(), "C:\\fnm;C:\\tools".to_owned()),
            ("FNM_DIR".to_owned(), "C:\\Users\\sam\\AppData\\Roaming\\fnm".to_owned()),
        ]
    );
}

#[test]
fn client_windows_should_retry_invalid_exe_format() {
    let error = std::io::Error::from_raw_os_error(193);
    assert!(windows_should_retry_spawn_error(&error));
}

#[test]
fn tests_windows_should_retry_invalid_exe_format() {
    let error = std::io::Error::from_raw_os_error(193);
    assert!(windows_should_retry_spawn_error(&error));
}

#[test]
fn parse_windows_nvm_current_version_extracts_active_version() {
    let version = parse_windows_nvm_current_version("v22.1.0\r\n").expect("nvm current should parse");
    assert_eq!(version, "v22.1.0");
}

#[test]
fn nvm_current_version_skips_placeholders() {
    assert_eq!(parse_windows_nvm_current_version("No current version.\r\n"), Some("version.".to_owned()));
    assert_eq!(parse_windows_nvm_current_version("Nothing set.\r\n"), None);
    assert_eq!(parse_windows_nvm_current_version("  NONE  N/A 18.2.0 "), Some("18.2.0".to_owned()));
    assert_eq!(parse_windows_nvm_current_version(""), None);
}

#[test]
fn command_extensions_come_from_pathext_or_defaults() {
    assert_eq!(
        windows_command_extensions(Some(" .COM; .Exe ;;.cmd ")),
        vec![".com".to_owned(), ".exe".to_owned(), ".cmd".to_owned()]
    );
    assert_eq!(
        windows_command_extensions(Some(" ; ")),
        vec![".com".to_owned(), ".exe".to_owned(), ".bat".to_owned(), ".cmd".to_owned()]
    );
}

#[test]
fn launch_candidates_skip_programs_with_extensions_and_repeats() {
    let exts = vec![".exe".to_owned(), ".cmd".to_owned(), ".exe".to_owned(), String::new()];
    assert!(windows_launch_program_candidates("node.exe", &exts).is_empty());
    assert_eq!(
        windows_launch_program_candidates("node", &exts),
        vec!["node.exe".to_owned(), "node.cmd".to_owned()]
    );
    assert_eq!(
        windows_launch_program_candidates(r"C:\tools.d\node", &exts),
        vec![r"C:\tools.d\node.exe".to_owned(), r"C:\tools.d\node.cmd".to_owned()]
    );
    assert_eq!(windows_launch_program_candidates(".hidden", &exts).len(), 2);
}

#[test]
fn spawn_retry_only_for_missing_or_invalid_programs() {
    assert!(spawn_error_should_retry(true, None));
    assert!(spawn_error_should_retry(false, Some(193)));
    assert!(!spawn_error_should_retry(false, Some(5)));
    assert!(!spawn_error_should_retry(false, None));
}

#[test]
fn runtime_environment_puts_runtime_path_first() {
    let env = vec![("Path".to_owned(), r"C:\custom".to_owned()), ("HOME".to_owned(), "h".to_owned())];
    let runtime = vec![("PATH".to_owned(), r"C:\fnm".to_owned()), ("FNM_DIR".to_owned(), "d".to_owned())];
    assert_eq!(
        windows_runtime_environment(&env, &runtime),
        vec![
            ("PATH".to_owned(), r"C:\fnm;C:\custom".to_owned()),
            ("FNM_DIR".to_owned(), "d".to_owned()),
            ("HOME".to_owned(), "h".to_owned()),
        ]
    );
    let runtime_without_path = vec![("NVM_HOME".to_owned(), "n".to_owned())];
    assert_eq!(
        windows_runtime_environment(&env, &runtime_without_path),
        vec![
            ("NVM_HOME".to_owned(), "n".to_owned()),
            ("HOME".to_owned(), "h".to_owned()),
            ("PATH".to_owned(), r"C:\custom".to_owned()),
        ]
    );
    assert_eq!(explicit_windows_env_value(&env, "PATH"), Some(&r"C:\custom".to_owned()));
    assert_eq!(explicit_windows_env_value(&env, "TEMP"), None);
}

#[test]
fn runtime_names_and_path_entries() {
    let exts = vec![".cmd".to_owned()];
    assert_eq!(
        windows_runtime_program_names("eslint", &exts),
        vec!["eslint.cmd".to_owned(), "eslint".to_owned()]
    );
    assert!(windows_runtime_program_names(r"bin\eslint", &exts).is_empty());
    assert_eq!(
        windows_path_entries(r" C:\a ;; C:\b;"),
        vec![r"C:\a".to_owned(), r"C:\b".to_owned()]
    );
    assert_eq!(
        windows_nvm_version_dir_candidates("22.1.0"),
        vec!["22.1.0".to_owned(), "v22.1.0".to_owned()]
    );
    assert_eq!(
        windows_nvm_version_dir_candidates("v22.1.0"),
        vec!["v22.1.0".to_owned(), "22.1.0".to_owned()]
    );
}

#[test]
fn runtime_candidate_paths_put_shims_before_extensionless_scripts() {
    let extensions = vec![".exe".to_owned(), ".cmd".to_owned()];
    let names = windows_runtime_program_names("typescript-language-server", &extensions);
    let dirs = windows_path_entries(r" C:\node ; ;C:\tools\ ;C:\node");
    let paths = windows_runtime_candidate_paths(&names, &dirs);
    assert_eq!(
        paths,
        vec![
            r"C:\node\typescript-language-server.exe".to_owned(),
            r"C:\node\typescript-language-server.cmd".to_owned(),
            r"C:\node\typescript-language-server".to_owned(),
            r"C:\tools\typescript-language-server.exe".to_owned(),
            r"C:\tools\typescript-language-server.cmd".to_owned(),
            r"C:\tools\typescript-language-server".to_owned(),
        ]
    );
    assert!(windows_runtime_program_names(r"bin\server", &extensions).is_empty());
}

#[test]
fn nvm_home_prefers_nvm_home_then_appdata() {
    assert_eq!(windows_nvm_home(Some("D:\\tools\\nvm"), Some("C:\\AppData")), Some("D:\\tools\\nvm".to_owned()));
    assert_eq!(
        windows_nvm_home(None, Some("C:\\Users\\sam\\AppData\\Roaming")),
        Some("C:\\Users\\sam\\AppData\\Roaming\\nvm".to_owned())
    );
    assert_eq!(windows_nvm_home(None, Some("C:\\Roaming\\")), Some("C:\\Roaming\\nvm".to_owned()));
    assert_eq!(windows_nvm_home(None, None), None);
}

#[test]
fn nvm_node_dirs_accept_version_with_or_without_v_prefix() {
    let home = "C:\\Users\\sam\\AppData\\Roaming\\nvm";
    assert_eq!(
        windows_nvm_node_dir_candidates(home, "22.1.0"),
        vec![format!("{home}\\22.1.0"), format!("{home}\\v22.1.0")]
    );
    assert_eq!(
        windows_nvm_node_dir_candidates(home, "v22.1.0"),
        vec![format!("{home}\\v22.1.0"), format!("{home}\\22.1.0")]
    );
}

#[test]
fn nvm_environment_keeps_nvm_path_ahead_of_explicit_path() {
    let nvm_env = windows_nvm_environment(
        "C:\\Users\\sam\\AppData\\Roaming\\nvm\\v22.1.0",
        "C:\\Users\\sam\\AppData\\Roaming\\nvm",
        None,
    );
    assert_eq!(nvm_env.len(), 2);
    let merged = windows_runtime_environment(
        &[
            ("PATH".to_owned(), "C:\\custom".to_owned()),
            ("NODE_OPTIONS".to_owned(), "--trace-warnings".to_owned()),
        ],
        &nvm_env,
    );
    let value = |key: &str| merged.iter().find(|(k, _)| k == key).map(|(_, v)| v.clone());
    assert_eq!(value("PATH"), Some("C:\\Users\\sam\\AppData\\Roaming\\nvm\\v22.1.0;C:\\custom".to_owned()));
    assert_eq!(value("NVM_HOME"), Some("C:\\Users\\sam\\AppData\\Roaming\\nvm".to_owned()));
    assert_eq!(value("NODE_OPTIONS"), Some("--trace-warnings".to_owned()));
    let with_link = windows_nvm_environment("C:\\n\\v1", "C:\\n", Some("C:\\nodejs"));
    assert_eq!(with_link[2], ("NVM_SYMLINK".to_owned(), "C:\\nodejs".to_owned()));
}
