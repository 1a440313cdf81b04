use codex_remote::remote::{
    format_remote_file, join_remote_path, make_spec, parse_spec, relative_remote_path,
    remote_file_path, remote_index_path, remote_rollout_variants, shell_path,
    shell_quote_fragment, valid_host, validate_remote_delete_target, is_remote_spec, RemoteSpec,
};

fn spec(host: &str, path: &str) -> RemoteSpec {
    RemoteSpec { host: host.to_string(), path: path.to_string() }
}

#[test]
fn parse_spec_reports_each_error() {
    assert_eq!(
        parse_spec("http://dev/x").unwrap_err(),
        "invalid remote sessions path: http://dev/x"
    );
    assert_eq!(
        parse_spec("ssh://dev").unwrap_err(),
        "remote sessions path must be ssh://host/path"
    );
    assert_eq!(
        parse_spec("ssh://-oProxyCommand=x/y").unwrap_err(),
        "remote SSH host must be a non-empty host or SSH config alias"
    );
    assert_eq!(
        parse_spec("ssh:///srv").unwrap_err(),
        "remote SSH host must be a non-empty host or SSH config alias"
    );
    assert_eq!(
        parse_spec("ssh://dev/").unwrap_err(),
        "remote sessions directory must not be empty"
    );
}

#[test]
fn parse_spec_keeps_home_paths_and_makes_others_absolute() {
    assert_eq!(parse_spec("ssh://dev/~").unwrap(), spec("dev", "~"));
    assert_eq!(parse_spec("ssh://dev/~/s").unwrap(), spec("dev", "~/s"));
    assert_eq!(parse_spec("ssh://dev/~x").unwrap(), spec("dev", "/~x"));
    assert_eq!(parse_spec("ssh://dev/srv/s").unwrap(), spec("dev", "/srv/s"));
    assert_eq!(
        parse_spec("ssh://me@dev.example:22/srv").unwrap(),
        spec("me@dev.example:22", "/srv")
    );
}

#[test]
fn make_spec_trims_and_reports_each_error() {
    assert_eq!(make_spec("  dev ", " /tmp/s ").unwrap(), "ssh://dev/tmp/s");
    assert_eq!(make_spec("\u{3000}dev\u{2003}", "\t//tmp\n").unwrap(), "ssh://dev/tmp");
    assert_eq!(make_spec("dev", "~").unwrap(), "ssh://dev/~");
    assert_eq!(
        make_spec("dev", "   ").unwrap_err(),
        "remote sessions directory must not be empty"
    );
    assert_eq!(
        make_spec("dev", "relative/sessions").unwrap_err(),
        "remote sessions directory must be absolute or start with ~/"
    );
    assert_eq!(
        make_spec("dev host", "/tmp").unwrap_err(),
        "remote SSH host must be a non-empty host or SSH config alias"
    );
}

#[test]
fn made_sources_parse_back() {
    let made = make_spec(" dev ", "/srv/sessions").unwrap();
    assert!(is_remote_spec(&made));
    assert_eq!(parse_spec(&made).unwrap(), spec("dev", "/srv/sessions"));
    let home = make_spec("dev", "~/.codex/sessions").unwrap();
    assert_eq!(parse_spec(&home).unwrap(), spec("dev", "~/.codex/sessions"));
    let doubled = make_spec("dev", "///srv").unwrap();
    assert_eq!(parse_spec(&doubled).unwrap(), spec("dev", "/srv"));
}

#[test]
fn absolute_tilde_directory_does_not_survive_the_round_trip() {
    let made = make_spec("dev", "/~/s").unwrap();
    assert_eq!(made, "ssh://dev/~/s");
    assert_eq!(parse_spec(&made).unwrap(), spec("dev", "~/s"));
}

#[test]
fn hosts_are_checked_character_by_character() {
    assert!(valid_host("dev"));
    assert!(valid_host("user@dev.example.com:2222"));
    assert!(valid_host("a_b-c"));
    assert!(!valid_host(""));
    assert!(!valid_host("-oProxyCommand=evil"));
    assert!(!valid_host("dev host"));
    assert!(!valid_host("dév"));
    assert!(!valid_host("dev;rm"));
}

#[test]
fn quoting_escapes_single_quotes() {
    assert_eq!(shell_quote_fragment("it's"), "'it'\\''s'");
    assert_eq!(shell_quote_fragment(""), "''");
    assert_eq!(shell_quote_fragment("$(rm -rf /)"), "'$(rm -rf /)'");
    assert_eq!(shell_path("~"), "$HOME");
    assert_eq!(shell_path("~/a'b"), "$HOME/'a'\\''b'");
    assert_eq!(shell_path("~user/x"), "'~user/x'");
}

#[test]
fn remote_locations_join_and_format() {
    assert_eq!(format_remote_file("dev", "//a/b"), "ssh://dev/a/b");
    assert_eq!(format_remote_file("dev", "~/a"), "ssh://dev/~/a");
    assert_eq!(join_remote_path("/r//", "//x/y"), "/r/x/y");
    assert_eq!(join_remote_path("~", "2026/a.jsonl"), "~/2026/a.jsonl");
}

#[test]
fn remote_file_path_accepts_only_rollout_files() {
    assert_eq!(
        remote_file_path("/a/rollout-x.jsonl//").unwrap(),
        "/a/rollout-x.jsonl"
    );
    assert_eq!(remote_file_path("/a/rollout-x.jsonl.zst").unwrap(), "/a/rollout-x.jsonl.zst");
    let dir_error = "remote session path must point to a rollout JSONL file";
    assert_eq!(remote_file_path("~/").unwrap_err(), dir_error);
    assert_eq!(remote_file_path("").unwrap_err(), dir_error);
    assert_eq!(remote_file_path("///").unwrap_err(), dir_error);
    assert_eq!(remote_file_path("/home/u/.codex/sessions/").unwrap_err(), dir_error);
    assert_eq!(
        remote_file_path("/a/b.txt").unwrap_err(),
        "remote session path must end in .jsonl or .jsonl.zst"
    );
}

#[test]
fn relative_paths_never_escape_the_root() {
    assert_eq!(relative_remote_path("/r/", "/r/a"), Some("a".to_string()));
    assert_eq!(relative_remote_path("/r", "/r/./a"), Some("./a".to_string()));
    assert_eq!(relative_remote_path("/r", "/r//a"), None);
    assert_eq!(relative_remote_path("/r", "/r/a/../b"), None);
    assert_eq!(relative_remote_path("/r", "/r/.."), None);
    assert_eq!(relative_remote_path("/r", "/r"), None);
    assert_eq!(relative_remote_path("/r", "/r/"), None);
    assert_eq!(relative_remote_path("/r", "/rx/a"), None);
    assert_eq!(relative_remote_path("/r", "/r/a..b/c"), Some("a..b/c".to_string()));
}

#[test]
fn relative_then_join_gives_the_file_back() {
    let root = "/home/u/.codex/sessions/";
    let file = "/home/u/.codex/sessions/2026/09/07/rollout-a.jsonl";
    let rel = relative_remote_path(root, file).unwrap();
    assert_eq!(join_remote_path(root, &rel), file);
    let joined = join_remote_path("~/s", "2026/rollout-b.jsonl");
    assert_eq!(relative_remote_path("~/s", &joined), Some("2026/rollout-b.jsonl".to_string()));
}

#[test]
fn rollout_variants_pair_plain_and_compressed() {
    assert_eq!(
        remote_rollout_variants("~/s/rollout-a.jsonl").unwrap(),
        ["~/s/rollout-a.jsonl".to_string(), "~/s/rollout-a.jsonl.zst".to_string()]
    );
    assert_eq!(
        remote_rollout_variants("~/s/rollout-a.jsonl.zst/").unwrap(),
        ["~/s/rollout-a.jsonl".to_string(), "~/s/rollout-a.jsonl.zst".to_string()]
    );
    assert_eq!(
        remote_rollout_variants("rollout-a.jsonl.zst").unwrap(),
        ["rollout-a.jsonl".to_string(), "rollout-a.jsonl.zst".to_string()]
    );
    assert_eq!(
        remote_rollout_variants("~/s/other.jsonl").unwrap_err(),
        "remote session path must point to a rollout file"
    );
    assert_eq!(
        remote_rollout_variants("~/s/rollout-a.txt").unwrap_err(),
        "remote session path must end in .jsonl or .jsonl.zst"
    );
    assert_eq!(
        remote_rollout_variants("/").unwrap_err(),
        "remote session path has no file name"
    );
    assert_eq!(
        remote_rollout_variants("~/s/..").unwrap_err(),
        "remote session path has no file name"
    );
}

#[test]
fn delete_targets_report_host_and_root_errors() {
    let root = spec("dev", "~/.codex/sessions");
    assert_eq!(
        validate_remote_delete_target(&root, &spec("other", "~/.codex/sessions/rollout-a.jsonl"))
            .unwrap_err(),
        "remote session host does not match the configured sessions host"
    );
    assert_eq!(
        validate_remote_delete_target(&root, &spec("dev", "~/.codex/sessions/../rollout-a.jsonl"))
            .unwrap_err(),
        "remote session path is outside the configured sessions directory"
    );
    assert_eq!(
        validate_remote_delete_target(&root, &spec("dev", "~/.codex/sessions/x/notes.txt"))
            .unwrap_err(),
        "remote session path must point to a rollout file"
    );
    assert_eq!(
        validate_remote_delete_target(&root, &spec("dev", "~/.codex/sessions/x/rollout-a.jsonl"))
            .unwrap(),
        [
            "~/.codex/sessions/x/rollout-a.jsonl".to_string(),
            "~/.codex/sessions/x/rollout-a.jsonl.zst".to_string()
        ]
    );
}

#[test]
fn index_path_edge_cases() {
    assert_eq!(remote_index_path(""), "./session_index.jsonl");
    assert_eq!(remote_index_path("/"), "./session_index.jsonl");
    assert_eq!(remote_index_path("sessions"), "session_index.jsonl");
    assert_eq!(remote_index_path("./sessions"), "./session_index.jsonl");
    assert_eq!(remote_index_path("~/.codex/sessions/"), "~/.codex/session_index.jsonl");
    assert_eq!(remote_index_path("~/.codex/./sessions"), "~/.codex/session_index.jsonl");
    assert_eq!(remote_index_path("/sessions"), "/session_index.jsonl");
    assert_eq!(remote_index_path("/rollout-a.jsonl"), "./session_index.jsonl");
}

#[test]
fn rollout_index_is_beside_its_sessions_directory() {
    assert_eq!(
        remote_index_path("/srv/s/2026/01/02/rollout-b.jsonl.zst"),
        remote_index_path("/srv/s")
    );
    assert_eq!(remote_index_path("/srv/s"), "/srv/session_index.jsonl");
}

/// Reads one shell word made of literal characters, backslash escapes and
/// single-quoted runs, as a POSIX shell does.
fn read_shell_word(word: &str) -> Option<String> {
    let mut out = String::new();
    let mut chars = word.chars();
    let mut quoted = false;
    while let Some(c) = chars.next() {
        if quoted {
            if c == '\'' {
                quoted = false;
            } else {
                out.push(c);
            }
        } else if c == '\'' {
            quoted = true;
        } else if c == '\\' {
            out.push(chars.next()?);
        } else if " \t\n|&;<>()$`\"*?[#~=%{}".contains(c) {
            return None;
        } else {
            out.push(c);
        }
    }
    if quoted {
        None
    } else {
        Some(out)
    }
}

#[test]
fn quoted_words_read_back_as_the_quoted_text() {
    for text in ["", "plain", "it's", "''", "a'b'c", "$(id)", "`id`; rm -rf ~", "tab\there", "é ü"] {
        assert_eq!(read_shell_word(&shell_quote_fragment(text)), Some(text.to_string()));
    }
    let word = shell_path("~/it's here");
    assert!(word.starts_with("$HOME"));
    assert_eq!(read_shell_word(&word["$HOME".len()..]), Some("/it's here".to_string()));
    assert_eq!(read_shell_word(&shell_path("/x;y")), Some("/x;y".to_string()));
}

#[test]
fn parsed_sources_are_made_again() {
    for value in ["ssh://dev/~/.codex/sessions", "ssh://dev/srv/codex", "ssh://a@b:22/~"] {
        let parsed = parse_spec(value).unwrap();
        assert_eq!(make_spec(&parsed.host, &parsed.path).unwrap(), value);
    }
}

#[test]
fn index_is_shared_with_a_dotted_sessions_directory() {
    assert_eq!(
        remote_index_path("/a/./2026/01/02/rollout-x.jsonl"),
        remote_index_path("/a/.")
    );
    assert_eq!(remote_index_path("/a/."), "/session_index.jsonl");
    assert_eq!(
        remote_index_path("/srv/s/2026/01/02/rollout-x.jsonl.zst"),
        remote_index_path("/srv/s")
    );
}
