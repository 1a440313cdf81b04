use codex_remote::session::load_session_from_path;

#[test]
fn load_session_from_path_rejects_empty_path() {
    let result = load_session_from_path("");

    assert_eq!(result.unwrap_err(), "no session path provided");
}
