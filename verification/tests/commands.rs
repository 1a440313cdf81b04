use codex_remote::commands::{
    delete_remote_session, discover_remote_sessions, discover_remote_sessions_full,
    file_snapshot_text, read_remote_file, remote_file_snapshot, remote_sessions_snapshot,
    sessions_snapshot_text, snapshot_outcome, ssh_arguments, ssh_failure_message,
    ssh_failure_text, test_connection, title_cache_key,
};
use codex_remote::download::{parse_remote_session, temporary_root_name};
use codex_remote::remote::{parse_spec, ssh_control_path};

#[test]
fn connection_test_checks_the_directory() {
    let request = test_connection("ssh://dev/~/.codex/sessions").unwrap();
    assert_eq!(request.host, "dev");
    assert_eq!(request.command, "test -d $HOME/'.codex/sessions'");
    assert_eq!(
        test_connection("ssh://dev").unwrap_err(),
        "remote sessions path must be ssh://host/path"
    );
}

#[test]
fn remote_delete_names_both_variants_quoted() {
    let request = delete_remote_session(
        "ssh://dev/~/.codex/sessions",
        "ssh://dev/~/.codex/sessions/2026/09/07/rollout-example.jsonl.zst",
    )
    .unwrap();
    let plain = "$HOME/'.codex/sessions/2026/09/07/rollout-example.jsonl'";
    let compressed = "$HOME/'.codex/sessions/2026/09/07/rollout-example.jsonl.zst'";
    assert_eq!(request.host, "dev");
    assert_eq!(
        request.command,
        format!(
            "if [ ! -e {plain} ] && [ ! -e {compressed} ]; then echo 'remote session file does not exist' >&2; exit 1; fi; rm -f -- {plain} {compressed}"
        )
    );
}

#[test]
fn remote_delete_refuses_paths_outside_the_tree() {
    assert_eq!(
        delete_remote_session(
            "ssh://dev/~/.codex/sessions",
            "ssh://dev/~/.codex/sessions/../rollout-a.jsonl"
        )
        .unwrap_err(),
        "remote session path is outside the configured sessions directory"
    );
    assert_eq!(
        delete_remote_session("ssh://dev/~/.codex/sessions", "ssh://other/~/.codex/sessions/rollout-a.jsonl")
            .unwrap_err(),
        "remote session host does not match the configured sessions host"
    );
    assert_eq!(
        delete_remote_session("/local", "ssh://dev/~/rollout-a.jsonl").unwrap_err(),
        "invalid remote sessions path: /local"
    );
}

#[test]
fn reads_quote_the_path() {
    let request = read_remote_file("dev", "/a b/it's");
    assert_eq!(request.host, "dev");
    assert_eq!(request.command, "cat -- '/a b/it'\\''s'");
}

#[test]
fn discovery_and_snapshots_run_python_over_the_directory() {
    for request in [
        discover_remote_sessions("ssh://dev/~/.codex/sessions").unwrap(),
        discover_remote_sessions_full("ssh://dev/~/.codex/sessions").unwrap(),
        remote_sessions_snapshot("ssh://dev/~/.codex/sessions").unwrap(),
    ] {
        assert_eq!(request.host, "dev");
        assert!(request.command.starts_with("python3 - $HOME/'.codex/sessions' <<'PY'\n"));
        assert!(request.command.ends_with("\nPY"));
    }
    let fast = discover_remote_sessions("ssh://dev/~/.codex/sessions").unwrap();
    assert!(fast.command.contains("def first_record(path):"));
    let full = discover_remote_sessions_full("ssh://dev/~/.codex/sessions").unwrap();
    assert!(full.command.contains("class ZstdStream:"));
    let snapshot = remote_sessions_snapshot("ssh://dev/srv/s").unwrap();
    assert!(snapshot.command.starts_with("python3 - '/srv/s' <<'PY'\n"));
    assert!(snapshot.command.contains("print('\\n'.join(sorted(rows)))"));
}

#[test]
fn file_snapshot_needs_a_rollout() {
    let request = remote_file_snapshot("ssh://dev/~/s/2026/rollout-a.jsonl/").unwrap();
    assert!(request
        .command
        .starts_with("python3 - $HOME/'s/2026/rollout-a.jsonl' <<'PY'\n"));
    assert_eq!(
        remote_file_snapshot("ssh://dev/~/.codex/sessions").unwrap_err(),
        "remote session path must point to a rollout JSONL file"
    );
}

#[test]
fn snapshot_output_must_be_utf8() {
    assert_eq!(sessions_snapshot_text(b"a:1:2:3\n".to_vec()).unwrap(), "a:1:2:3\n");
    assert_eq!(file_snapshot_text("é".as_bytes().to_vec()).unwrap(), "é");
    assert!(sessions_snapshot_text(vec![0xff])
        .unwrap_err()
        .starts_with("invalid remote sessions snapshot: "));
    assert!(file_snapshot_text(vec![b'a', 0xc0])
        .unwrap_err()
        .starts_with("invalid remote file snapshot: "));
    assert_eq!(
        sessions_snapshot_text(vec![0xff]).unwrap_err(),
        "invalid remote sessions snapshot: invalid utf-8 sequence of 1 bytes from index 0"
    );
}

#[test]
fn snapshot_errors_carry_their_prefix() {
    assert_eq!(snapshot_outcome("bad: ", Ok("x".to_string())), Ok("x".to_string()));
    assert_eq!(
        snapshot_outcome("bad: ", Err("why".to_string())),
        Err("bad: why".to_string())
    );
}

#[test]
fn ssh_runs_batch_mode_with_a_shared_connection() {
    let args = ssh_arguments("dev", "ls");
    let expected = [
        "-o",
        "BatchMode=yes",
        "-o",
        "ConnectTimeout=10",
        "-o",
        "Compression=yes",
        "-o",
        "ControlMaster=auto",
        "-o",
        "ControlPersist=60",
        "-o",
        "ControlPath=/tmp/ct-ssh-%C",
        "dev",
        "ls",
    ];
    assert_eq!(args, expected);
    assert_eq!(ssh_control_path().len(), 14);
}

#[test]
fn ssh_failures_prefer_the_error_output() {
    assert_eq!(
        ssh_failure_message("dev", b"  Permission denied (publickey).\r\n", "exit status: 255"),
        "ssh connection to dev failed: Permission denied (publickey)."
    );
    assert_eq!(
        ssh_failure_message("dev", b"", "exit status: 255"),
        "ssh connection to dev failed (exit status: 255)"
    );
    assert_eq!(
        ssh_failure_message("dev", b" \n\t", "exit status: 1"),
        "ssh connection to dev failed (exit status: 1)"
    );
    assert_eq!(
        ssh_failure_message("dev", &[0xff, b'x'], "exit status: 1"),
        "ssh connection to dev failed: \u{FFFD}x"
    );
    assert_eq!(
        ssh_failure_message("dev", &[b' ', 0xc3, 0x28, b'\n'], "exit status: 1"),
        "ssh connection to dev failed: \u{FFFD}("
    );
}

#[test]
fn ssh_failure_text_trims_the_decoded_output() {
    assert_eq!(
        ssh_failure_text("dev", "\u{3000}denied\t", "exit status: 5"),
        "ssh connection to dev failed: denied"
    );
    assert_eq!(
        ssh_failure_text("h", "\u{2028}", "signal: 9"),
        "ssh connection to h failed (signal: 9)"
    );
}

#[test]
fn title_cache_is_keyed_by_host_and_index() {
    let spec = parse_spec("ssh://dev/~/.codex/sessions").unwrap();
    assert_eq!(title_cache_key(&spec), "dev:~/.codex/session_index.jsonl");
}

#[test]
fn remote_session_download_plan() {
    let plan =
        parse_remote_session("ssh://dev/~/.codex/sessions/2026/09/07/rollout-a.jsonl").unwrap();
    assert_eq!(plan.spec.host, "dev");
    assert_eq!(plan.spec.path, "~/.codex/sessions/2026/09/07/rollout-a.jsonl");
    assert_eq!(plan.remote_path, "~/.codex/sessions/2026/09/07/rollout-a.jsonl");
    assert_eq!(plan.file_name, "rollout-a.jsonl");
    assert_eq!(plan.request.host, "dev");
    assert_eq!(
        plan.request.command,
        "cat -- $HOME/'.codex/sessions/2026/09/07/rollout-a.jsonl'"
    );
    assert_eq!(
        parse_remote_session("ssh://dev/~/.codex/sessions").err().unwrap(),
        "remote session path must point to a rollout JSONL file"
    );
}

#[test]
fn scratch_directory_name_ends_in_the_drawn_id() {
    assert_eq!(
        temporary_root_name("session", "0b8a6c1e-52f4-4d1a-9c3e-7f21d0a4b5c6"),
        "codex-trace-remote-session-0b8a6c1e-52f4-4d1a-9c3e-7f21d0a4b5c6"
    );
    assert_eq!(temporary_root_name("", "x"), "codex-trace-remote--x");
}
