use codex_remote::discovery::{newest_first, remote_session_location};
use codex_remote::lines::nonempty_lines;
use codex_remote::remote::{parse_spec, relative_remote_path};
use codex_remote::download::merged_session_fields;
use codex_remote::titles::{
    cached_title, entry_from_members, index_entry, index_titles, is_truthy, number_is_zero,
    remote_session_title, title_cache_is_fresh, title_for, JsonMember, TITLE_CACHE_TTL_NANOS,
};

const INDEX: &str = "{\"id\":\"s1\",\"thread_name\":\"  First  \"}\n{\"id\":\"s2\",\"title\":\"Second\"}\nnot json\n\n{\"id\":\"s1\",\"thread_name\":\"Renamed\"}\r\n{\"id\":\"s3\",\"thread_name\":null,\"title\":\"Fallback\"}\n{\"id\":\"s4\",\"thread_name\":\"   \"}\n{\"id\":5,\"title\":\"Numeric\"}\n[\"id\",\"x\"]";

#[test]
fn lines_skip_empty_pieces() {
    assert_eq!(
        nonempty_lines(b"a\n\nb\n"),
        vec![b"a".to_vec(), b"b".to_vec()]
    );
    assert_eq!(nonempty_lines(b""), Vec::<Vec<u8>>::new());
    assert_eq!(nonempty_lines(b"\n\n"), Vec::<Vec<u8>>::new());
    assert_eq!(nonempty_lines(b"tail"), vec![b"tail".to_vec()]);
}

#[test]
fn index_entries_follow_the_file() {
    let entries = index_titles(INDEX.as_bytes());
    assert_eq!(
        entries,
        vec![
            ("s1".to_string(), "First".to_string()),
            ("s2".to_string(), "Second".to_string()),
            ("s1".to_string(), "Renamed".to_string()),
            ("s3".to_string(), "Fallback".to_string()),
        ]
    );
}

#[test]
fn later_index_lines_replace_earlier_titles() {
    let entries = index_titles(INDEX.as_bytes());
    assert_eq!(title_for(&entries, "s1"), Some("Renamed".to_string()));
    assert_eq!(title_for(&entries, "s2"), Some("Second".to_string()));
    assert_eq!(title_for(&entries, "s3"), Some("Fallback".to_string()));
    assert_eq!(title_for(&entries, "s4"), None);
    assert_eq!(title_for(&entries, "5"), None);
    assert_eq!(remote_session_title(INDEX.as_bytes(), "s1"), Some("Renamed".to_string()));
    assert_eq!(remote_session_title(b"garbage", "s1"), None);
}

#[test]
fn discovered_paths_become_remote_locations() {
    let home = parse_spec("ssh://dev/~/.codex/sessions").unwrap();
    assert_eq!(
        remote_session_location(&home, "2026/09/07/rollout-a.jsonl"),
        "ssh://dev/~/.codex/sessions/2026/09/07/rollout-a.jsonl"
    );
    let absolute = parse_spec("ssh://dev/home/u/s/").unwrap();
    assert_eq!(
        remote_session_location(&absolute, "/2026/rollout-b.jsonl"),
        "ssh://dev/home/u/s/2026/rollout-b.jsonl"
    );
}

#[test]
fn discovered_locations_trace_back_to_their_source() {
    let source = parse_spec("ssh://dev/home/u/s").unwrap();
    let location = remote_session_location(&source, "2026/01/rollout-c.jsonl");
    let parsed = parse_spec(&location).unwrap();
    assert_eq!(parsed.host, "dev");
    assert_eq!(parsed.path, "/home/u/s/2026/01/rollout-c.jsonl");
    assert_eq!(
        relative_remote_path(&source.path, &parsed.path),
        Some("2026/01/rollout-c.jsonl".to_string())
    );
}

#[test]
fn sessions_are_listed_newest_first_and_stably() {
    let times: Vec<Vec<u8>> = ["2026-01-02", "2026-03-01", "2026-01-02", "2025", ""]
        .iter()
        .map(|t| t.as_bytes().to_vec())
        .collect();
    assert_eq!(newest_first(&times), vec![1, 0, 2, 3, 4]);
    assert_eq!(newest_first(&Vec::new()), Vec::<usize>::new());
    let same: Vec<Vec<u8>> = vec![b"t".to_vec(), b"t".to_vec(), b"t".to_vec()];
    assert_eq!(newest_first(&same), vec![0, 1, 2]);
}

#[test]
fn titles_stay_fresh_for_thirty_seconds() {
    assert!(title_cache_is_fresh(0));
    assert!(title_cache_is_fresh(29_999_999_999));
    assert!(!title_cache_is_fresh(30_000_000_000));
    assert!(!title_cache_is_fresh(u128::MAX));
    assert_eq!(TITLE_CACHE_TTL_NANOS, 30_000_000_000);
}

fn entry(line: &str) -> Option<(String, String)> {
    index_entry(line.as_bytes())
}

fn titled(id: &str, title: &str) -> Option<(String, String)> {
    Some((id.to_string(), title.to_string()))
}

#[test]
fn empty_thread_names_fall_back_to_the_title() {
    assert_eq!(entry(r#"{"id":"a","thread_name":"","title":"T"}"#), titled("a", "T"));
    assert_eq!(entry(r#"{"id":"a","thread_name":null,"title":" T "}"#), titled("a", "T"));
    assert_eq!(entry(r#"{"id":"a","thread_name":false,"title":"T"}"#), titled("a", "T"));
    assert_eq!(entry(r#"{"id":"a","thread_name":0,"title":"T"}"#), titled("a", "T"));
    assert_eq!(entry(r#"{"id":"a","thread_name":-0.0,"title":"T"}"#), titled("a", "T"));
    assert_eq!(entry(r#"{"id":"a","thread_name":[],"title":"T"}"#), titled("a", "T"));
    assert_eq!(entry(r#"{"id":"a","thread_name":{},"title":"T"}"#), titled("a", "T"));
    assert_eq!(entry(r#"{"id":"a","title":"T"}"#), titled("a", "T"));
}

#[test]
fn present_thread_names_win_even_when_unusable() {
    assert_eq!(entry(r#"{"id":"a","thread_name":"N","title":"T"}"#), titled("a", "N"));
    assert_eq!(entry(r#"{"id":"a","thread_name":"   ","title":"T"}"#), None);
    assert_eq!(entry(r#"{"id":"a","thread_name":1,"title":"T"}"#), None);
    assert_eq!(entry(r#"{"id":"a","thread_name":true,"title":"T"}"#), None);
    assert_eq!(entry(r#"{"id":"a","thread_name":["x"],"title":"T"}"#), None);
    assert_eq!(entry(r#"{"id":"a","thread_name":"","title":""}"#), None);
    assert_eq!(entry(r#"{"id":"a","thread_name":"","title":5}"#), None);
    assert_eq!(entry(r#"{"id":1,"thread_name":"N"}"#), None);
}

#[test]
fn number_texts_that_denote_zero() {
    for zero in ["0", "-0", "0.0", "-0.0", "0e5", "0.000E-3"] {
        assert!(number_is_zero(zero), "{zero}");
    }
    for other in ["1", "-2", "0.5", "1e-7", "10", "0.01"] {
        assert!(!number_is_zero(other), "{other}");
    }
}

#[test]
fn member_kinds_and_truthiness() {
    assert!(!is_truthy(&JsonMember::Null));
    assert!(is_truthy(&JsonMember::Bool(true)));
    assert!(!is_truthy(&JsonMember::Number("0.0".to_string())));
    assert!(is_truthy(&JsonMember::Number("3".to_string())));
    assert!(!is_truthy(&JsonMember::Text(String::new())));
    assert!(is_truthy(&JsonMember::Text(" ".to_string())));
    assert!(!is_truthy(&JsonMember::Array(0)));
    assert!(is_truthy(&JsonMember::Object(2)));
    assert_eq!(
        entry_from_members(
            Some(JsonMember::Text("s".to_string())),
            Some(JsonMember::Text(String::new())),
            Some(JsonMember::Text(" Title\t".to_string())),
        ),
        titled("s", "Title")
    );
    assert_eq!(
        entry_from_members(Some(JsonMember::Text("s".to_string())), None, None),
        None
    );
}

#[test]
fn fresh_cached_titles_answer_without_a_read() {
    let titles = vec![
        ("a".to_string(), "One".to_string()),
        ("a".to_string(), "Two".to_string()),
    ];
    assert_eq!(cached_title(Some(0), &titles, "a"), Some(Some("Two".to_string())));
    assert_eq!(cached_title(Some(29_999_999_999), &titles, "b"), Some(None));
    assert_eq!(cached_title(Some(30_000_000_000), &titles, "a"), None);
    assert_eq!(cached_title(None, &titles, "a"), None);
}

#[test]
fn fetched_sessions_keep_their_location_and_index_title() {
    assert_eq!(
        merged_session_fields("ssh://dev/~/s/rollout-a.jsonl", Some("old".to_string()), Some("new".to_string())),
        ("ssh://dev/~/s/rollout-a.jsonl".to_string(), Some("new".to_string()))
    );
    assert_eq!(
        merged_session_fields("ssh://dev/x", Some("old".to_string()), None),
        ("ssh://dev/x".to_string(), Some("old".to_string()))
    );
    assert_eq!(merged_session_fields("ssh://dev/x", None, None), ("ssh://dev/x".to_string(), None));
}
