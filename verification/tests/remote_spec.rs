use codex_remote::remote::{
    make_spec, parse_spec, relative_remote_path, remote_index_path, shell_path, ssh_control_path,
    validate_remote_delete_target, RemoteSpec,
};

#[test]
fn parses_remote_alias_and_absolute_path() {
    assert_eq!(
        parse_spec("ssh://dev/home/user/.codex/sessions").unwrap(),
        RemoteSpec {
            host: "dev".to_string(),
            path: "/home/user/.codex/sessions".to_string(),
        }
    );
}

#[test]
fn makes_remote_spec_from_alias_and_tilde_path() {
    assert_eq!(
        make_spec("dev", "~/.codex/sessions").unwrap(),
        "ssh://dev/~/.codex/sessions"
    );
}

#[test]
fn rejects_unsafe_or_ambiguous_remote_specs() {
    assert!(make_spec("", "/tmp/sessions").is_err());
    assert!(make_spec("dev host", "/tmp/sessions").is_err());
    assert!(make_spec("dev", "relative/sessions").is_err());
    assert!(parse_spec("ssh://dev").is_err());
}

#[test]
fn shell_path_expands_tilde_without_exposing_shell_input() {
    assert_eq!(shell_path("~/.codex/sessions"), "$HOME/'.codex/sessions'");
    assert_eq!(shell_path("/tmp/my sessions"), "'/tmp/my sessions'");
}

#[test]
fn ssh_control_path_is_short_enough_for_openssh() {
    let path = ssh_control_path();
    assert_eq!(path, "/tmp/ct-ssh-%C");
    assert!(path.len() < 104);
}

#[test]
fn derives_remote_session_index_next_to_sessions_directory() {
    assert_eq!(
        remote_index_path("~/.codex/sessions"),
        "~/.codex/session_index.jsonl"
    );
    assert_eq!(
        remote_index_path("/home/user/.codex/sessions"),
        "/home/user/.codex/session_index.jsonl"
    );
    assert_eq!(
        remote_index_path("~/.codex/sessions/2026/09/07/rollout-a.jsonl"),
        "~/.codex/session_index.jsonl"
    );
}

#[test]
fn maps_only_files_inside_remote_root() {
    assert_eq!(
        relative_remote_path(
            "/home/user/.codex/sessions",
            "/home/user/.codex/sessions/2026/09/07/rollout-a.jsonl"
        ),
        Some("2026/09/07/rollout-a.jsonl".to_string())
    );
    assert!(relative_remote_path("/home/user/.codex/sessions", "/tmp/other.jsonl").is_none());
}

#[test]
fn validates_remote_delete_targets_and_siblings() {
    let root = parse_spec("ssh://dev/~/.codex/sessions").unwrap();
    let target =
        parse_spec("ssh://dev/~/.codex/sessions/2026/09/07/rollout-example.jsonl.zst").unwrap();
    assert_eq!(
        validate_remote_delete_target(&root, &target).unwrap(),
        [
            "~/.codex/sessions/2026/09/07/rollout-example.jsonl".to_string(),
            "~/.codex/sessions/2026/09/07/rollout-example.jsonl.zst".to_string(),
        ]
    );
    assert!(validate_remote_delete_target(
        &root,
        &parse_spec("ssh://dev/~/.codex/other/rollout-example.jsonl").unwrap()
    )
    .is_err());
    assert!(validate_remote_delete_target(
        &root,
        &parse_spec("ssh://other/~/.codex/sessions/rollout-example.jsonl").unwrap()
    )
    .is_err());
}
