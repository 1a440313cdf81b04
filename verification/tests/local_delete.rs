use codex_remote::session::{
    check_sessions_root, delete_session_from_path, load_session_from_path,
    local_delete_targets, local_rollout_variants, DeletePlan, FileProbe, LocalCandidate,
    SessionsRoot,
};

fn resolved(path: &str, canonical: &str, is_file: bool) -> LocalCandidate {
    LocalCandidate {
        path: path.to_string(),
        probe: FileProbe::Resolved { canonical: canonical.to_string(), is_file },
    }
}

fn missing(path: &str) -> LocalCandidate {
    LocalCandidate { path: path.to_string(), probe: FileProbe::Missing }
}

#[test]
fn loading_passes_non_empty_paths_on() {
    assert_eq!(load_session_from_path("/s/rollout-a.jsonl").unwrap(), "/s/rollout-a.jsonl");
}

#[test]
fn delete_plans_follow_the_connection_type() {
    assert_eq!(
        delete_session_from_path("", "/s/rollout-a.jsonl").err().unwrap(),
        "no session path provided"
    );
    assert_eq!(
        delete_session_from_path("/s", "").err().unwrap(),
        "no session path provided"
    );
    assert_eq!(
        delete_session_from_path("/s", "ssh://dev/~/s/rollout-a.jsonl").err().unwrap(),
        "session source and session path must use the same connection type"
    );
    assert!(matches!(
        delete_session_from_path("/s", "/s/rollout-a.jsonl"),
        Ok(DeletePlan::Local)
    ));
    match delete_session_from_path("ssh://dev/~/s", "ssh://dev/~/s/rollout-a.jsonl") {
        Ok(DeletePlan::Remote(request)) => {
            assert_eq!(request.host, "dev");
            assert!(request.command.ends_with("rm -f -- $HOME/'s/rollout-a.jsonl' $HOME/'s/rollout-a.jsonl.zst'"));
        }
        _ => panic!("expected a remote plan"),
    }
}

#[test]
fn local_variants_pair_plain_and_compressed() {
    assert_eq!(
        local_rollout_variants("/a/rollout-x.jsonl").unwrap(),
        ["/a/rollout-x.jsonl".to_string(), "/a/rollout-x.jsonl.zst".to_string()]
    );
    assert_eq!(
        local_rollout_variants("/a/rollout-x.jsonl.zst").unwrap(),
        ["/a/rollout-x.jsonl".to_string(), "/a/rollout-x.jsonl.zst".to_string()]
    );
    assert_eq!(
        local_rollout_variants("/a/rollout-x.jsonl/").unwrap(),
        ["/a/rollout-x.jsonl/".to_string(), "/a/rollout-x.jsonl.zst".to_string()]
    );
    assert_eq!(
        local_rollout_variants("a/rollout-x.jsonl").unwrap_err(),
        "session path must be absolute"
    );
    assert_eq!(local_rollout_variants("/").unwrap_err(), "session path has no file name");
    assert_eq!(
        local_rollout_variants("/a/x.jsonl").unwrap_err(),
        "session path must point to a rollout file"
    );
    assert_eq!(
        local_rollout_variants("/a/rollout-x").unwrap_err(),
        "session path must end in .jsonl or .jsonl.zst"
    );
}

#[test]
fn sessions_root_must_resolve_to_a_directory() {
    assert_eq!(
        check_sessions_root(&SessionsRoot::Unresolved("No such file".to_string())).unwrap_err(),
        "resolve sessions directory: No such file"
    );
    assert_eq!(
        check_sessions_root(&SessionsRoot::Resolved { canonical: "/s".to_string(), is_dir: false })
            .unwrap_err(),
        "configured sessions path is not a directory"
    );
    assert_eq!(
        check_sessions_root(&SessionsRoot::Resolved { canonical: "/s".to_string(), is_dir: true })
            .unwrap(),
        "/s"
    );
}

#[test]
fn local_delete_removes_existing_files_inside_the_root() {
    let both = vec![
        resolved("/s/2026/rollout-a.jsonl", "/s/2026/rollout-a.jsonl", true),
        resolved("/s/2026/rollout-a.jsonl.zst", "/s/2026/rollout-a.jsonl.zst", true),
    ];
    assert_eq!(
        local_delete_targets("/s", &both).unwrap(),
        vec!["/s/2026/rollout-a.jsonl".to_string(), "/s/2026/rollout-a.jsonl.zst".to_string()]
    );
    let one = vec![missing("/s/rollout-a.jsonl"), resolved("/s/rollout-a.jsonl.zst", "/s/rollout-a.jsonl.zst", true)];
    assert_eq!(
        local_delete_targets("/s", &one).unwrap(),
        vec!["/s/rollout-a.jsonl.zst".to_string()]
    );
}

#[test]
fn local_delete_refuses_unsafe_targets() {
    assert_eq!(
        local_delete_targets("/s", &vec![resolved("/s/rollout-a.jsonl", "/other/rollout-a.jsonl", true)])
            .unwrap_err(),
        "session path is outside the configured sessions directory"
    );
    assert_eq!(
        local_delete_targets("/s", &vec![resolved("/sx/rollout-a.jsonl", "/sx/rollout-a.jsonl", true)])
            .unwrap_err(),
        "session path is outside the configured sessions directory"
    );
    assert_eq!(
        local_delete_targets("/s", &vec![resolved("/s/rollout-a.jsonl", "/s/rollout-a.jsonl", false)])
            .unwrap_err(),
        "session path is not a file"
    );
    assert_eq!(
        local_delete_targets("/s", &vec![missing("/s/rollout-a.jsonl"), missing("/s/rollout-a.jsonl.zst")])
            .unwrap_err(),
        "session file does not exist"
    );
    let unresolved = vec![LocalCandidate {
        path: "/s/rollout-a.jsonl".to_string(),
        probe: FileProbe::Unresolved("Permission denied".to_string()),
    }];
    assert_eq!(
        local_delete_targets("/s", &unresolved).unwrap_err(),
        "resolve session file: Permission denied"
    );
    let later_error = vec![
        resolved("/s/rollout-a.jsonl", "/s/rollout-a.jsonl", true),
        resolved("/s/rollout-a.jsonl.zst", "/elsewhere", true),
    ];
    assert_eq!(
        local_delete_targets("/s", &later_error).unwrap_err(),
        "session path is outside the configured sessions directory"
    );
}

#[test]
fn local_variants_are_siblings_even_below_a_dot() {
    assert_eq!(
        local_rollout_variants("/a/rollout-x.jsonl/.").unwrap(),
        ["/a/rollout-x.jsonl/.".to_string(), "/a/rollout-x.jsonl.zst".to_string()]
    );
    assert_eq!(
        local_rollout_variants("/rollout-y.jsonl.zst").unwrap(),
        ["/rollout-y.jsonl".to_string(), "/rollout-y.jsonl.zst".to_string()]
    );
}
