use bwrap_run::cli::{
    choose_sandbox_identifier, default_sandbox_identifier, parse_command_line,
    resolve_host_environment_base_paths, sandbox_directory_names, sandbox_persistence_directory,
    CliRequest, DataRootEntry,
};

fn args(items: &[&[u8]]) -> Vec<Vec<u8>> {
    items.iter().map(|a| a.to_vec()).collect()
}

#[test]
fn no_arguments_shows_help() {
    assert!(matches!(parse_command_line(&args(&[b"bwrap-run"])), CliRequest::ShowHelp));
    assert!(matches!(parse_command_line(&Vec::new()), CliRequest::ShowHelp));
}

#[test]
fn help_and_list_options() {
    assert!(matches!(parse_command_line(&args(&[b"bwrap-run", b"--help"])), CliRequest::ShowHelp));
    assert!(matches!(parse_command_line(&args(&[b"bwrap-run", b"--list", b"x"])), CliRequest::ListSandboxes));
}

#[test]
fn id_without_name_is_an_error() {
    assert!(matches!(parse_command_line(&args(&[b"bwrap-run", b"--id"])), CliRequest::MissingSandboxId));
}

#[test]
fn id_with_command_and_arguments() {
    match parse_command_line(&args(&[b"bwrap-run", b"--id", b"browser_work", b"firefox", b"-P", b"work"])) {
        CliRequest::RunInSandbox { sandbox_id, command, arguments } => {
            assert_eq!(sandbox_id, "browser_work");
            assert_eq!(command, b"firefox".to_vec());
            assert_eq!(arguments, args(&[b"-P", b"work"]));
        }
        _ => panic!("expected a run in a named sandbox"),
    }
}

#[test]
fn id_without_command_runs_bash() {
    match parse_command_line(&args(&[b"bwrap-run", b"--id", b"test_sandbox"])) {
        CliRequest::RunInSandbox { sandbox_id, command, arguments } => {
            assert_eq!(sandbox_id, "test_sandbox");
            assert_eq!(command, b"/bin/bash".to_vec());
            assert!(arguments.is_empty());
        }
        _ => panic!("expected a run in a named sandbox"),
    }
}

#[test]
fn id_with_invalid_utf8_is_decoded_lossily() {
    match parse_command_line(&args(&[b"bwrap-run", b"--id", b"a\xffb"])) {
        CliRequest::RunInSandbox { sandbox_id, .. } => assert_eq!(sandbox_id, "a\u{fffd}b"),
        _ => panic!("expected a run in a named sandbox"),
    }
}

#[test]
fn plain_command_asks_for_identifier() {
    match parse_command_line(&args(&[b"bwrap-run", b"./Desktop/hello", b"--id", b"x"])) {
        CliRequest::RunAfterPrompt { command, arguments } => {
            assert_eq!(command, b"./Desktop/hello".to_vec());
            assert_eq!(arguments, args(&[b"--id", b"x"]));
        }
        _ => panic!("expected a run after the prompt"),
    }
}

#[test]
fn identifier_from_prompt_answer() {
    assert_eq!(choose_sandbox_identifier("test_sandbox\n", "firefox"), "test_sandbox");
    assert_eq!(choose_sandbox_identifier("  my box \t\r\n", "firefox"), "my box");
    assert_eq!(choose_sandbox_identifier("\u{3000}x\u{a0}", "firefox"), "x");
}

#[test]
fn empty_answer_takes_default() {
    assert_eq!(choose_sandbox_identifier("\n", "firefox"), "firefox");
    assert_eq!(choose_sandbox_identifier("", "firefox"), "firefox");
    assert_eq!(choose_sandbox_identifier(" \u{2028}\u{85} ", "firefox"), "firefox");
}

#[test]
fn identifier_trimming_agrees_with_std() {
    for s in ["", " a ", "\u{200b}a", "a\u{1680}", "\u{feff}x", "x y", "\u{180e}z"] {
        let expected = if s.trim().is_empty() { "d".to_string() } else { s.trim().to_string() };
        assert_eq!(choose_sandbox_identifier(s, "d"), expected, "{:?}", s);
    }
}

#[test]
fn default_identifier_is_file_name() {
    assert_eq!(default_sandbox_identifier(b"/usr/sbin/firefox"), "firefox");
    assert_eq!(default_sandbox_identifier(b"/"), "");
}

#[test]
fn base_paths_under_home() {
    let (home, root) = resolve_host_environment_base_paths(b"/home/elysia".to_vec());
    assert_eq!(home, b"/home/elysia".to_vec());
    assert_eq!(root, b"/home/elysia/.sandbox_data".to_vec());
}

#[test]
fn persistence_directory_of_sandbox() {
    assert_eq!(
        sandbox_persistence_directory(b"/home/elysia/.sandbox_data", "test_sandbox"),
        b"/home/elysia/.sandbox_data/test_sandbox".to_vec()
    );
    assert_eq!(sandbox_persistence_directory(b"/home/elysia/.sandbox_data", "/etc"), b"/etc".to_vec());
}

#[test]
fn listing_keeps_directories_in_order() {
    let entries = vec![
        DataRootEntry { file_name: b"faugus-launcher".to_vec(), is_dir: true },
        DataRootEntry { file_name: b"notes.txt".to_vec(), is_dir: false },
        DataRootEntry { file_name: b"test_sandbox".to_vec(), is_dir: true },
        DataRootEntry { file_name: b"wine".to_vec(), is_dir: true },
    ];
    assert_eq!(sandbox_directory_names(&entries), vec!["faugus-launcher", "test_sandbox", "wine"]);
    assert!(sandbox_directory_names(&Vec::new()).is_empty());
}
