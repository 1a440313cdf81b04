//! Session titles from Codex Desktop's `session_index.jsonl`, one JSON
//! object per line. A line names a session by `id` and its title by
//! `thread_name`, or by `title` when `thread_name` is missing or holds a
//! value that counts as empty (`null`, `false`, zero, `""`, `[]`, `{}`), the
//! same choice the discovery programs make. Titles are trimmed; lines
//! without a string id or a non-blank string title are skipped, and a later
//! line for the same id replaces an earlier one.
use vstd::prelude::*;
use serde_json::Value;
use crate::lines::{byte_views, lines_view, nonempty_lines};
use crate::text::{chars_of, string_from_range, trim_range, trim_ws};

verus! {

pub const ID_KEY: &'static str = "id";

pub const THREAD_NAME_KEY: &'static str = "thread_name";

pub const TITLE_KEY: &'static str = "title";

/// One member of a JSON object, as far as the title rule looks at it: its
/// kind, a string's text, a number's text, a boolean, or how many items an
/// array or object holds.
#[derive(Debug)]
pub enum JsonMember {
    Null,
    Bool(bool),
    Number(String),
    Text(String),
    Array(usize),
    Object(usize),
}

/// The mathematical form of a [`JsonMember`].
pub enum MemberView {
    Null,
    Bool(bool),
    Number(Seq<char>),
    Text(Seq<char>),
    Array(nat),
    Object(nat),
}

impl View for JsonMember {
    type V = MemberView;

    open spec fn view(&self) -> MemberView {
        match self {
            JsonMember::Null => MemberView::Null,
            JsonMember::Bool(b) => MemberView::Bool(*b),
            JsonMember::Number(t) => MemberView::Number(t@),
            JsonMember::Text(t) => MemberView::Text(t@),
            JsonMember::Array(n) => MemberView::Array(*n as nat),
            JsonMember::Object(n) => MemberView::Object(*n as nat),
        }
    }
}

/// What one line holds under one key: `None` when the line is not a JSON
/// object or has no such member.
pub uninterp spec fn json_member(line: Seq<u8>, key: Seq<char>) -> Option<MemberView>;

/// The view of an optional member.
pub open spec fn option_member_view(m: Option<JsonMember>) -> Option<MemberView> {
    match m {
        None => None,
        Some(v) => Some(v@),
    }
}

/// Parses one line with `serde_json::from_slice::<serde_json::Value>` and
/// looks up `key` with `Value::get`, reporting the member's variant with a
/// number as its `Display` text and an array or object by its length. The
/// result is named `json_member`; what JSON text gives which result is not
/// stated here.
#[verifier::external_body]
fn json_member_of(line: &[u8], key: &str) -> (r: Option<JsonMember>)
    ensures
        option_member_view(r) == json_member(line@, key@),
{
    let value = serde_json::from_slice::<Value>(line).ok()?;
    Some(match value.get(key)? {
        Value::Null => JsonMember::Null,
        Value::Bool(b) => JsonMember::Bool(*b),
        Value::Number(n) => JsonMember::Number(n.to_string()),
        Value::String(t) => JsonMember::Text(t.clone()),
        Value::Array(a) => JsonMember::Array(a.len()),
        Value::Object(o) => JsonMember::Object(o.len()),
    })
}

/// Where the exponent of a number's text starts (its first `e` or `E`), or
/// the text's length.
pub open spec fn exponent_start(t: Seq<char>) -> int
    decreases t.len(),
{
    if t.len() == 0 || t[0] == 'e' || t[0] == 'E' {
        0
    } else {
        1 + exponent_start(t.drop_first())
    }
}

/// A number's text denotes zero: every digit before its exponent is `0`.
pub open spec fn number_text_is_zero(t: Seq<char>) -> bool {
    forall|i: int| 0 <= i < exponent_start(t) ==> ('1' <= #[trigger] t[i] && t[i] <= '9') == false
}

/// Whether a member counts as present when choosing between `thread_name`
/// and `title`: `null`, `false`, zero, the empty string and empty arrays
/// and objects do not.
pub open spec fn member_truthy(m: MemberView) -> bool {
    match m {
        MemberView::Null => false,
        MemberView::Bool(b) => b,
        MemberView::Number(t) => !number_text_is_zero(t),
        MemberView::Text(t) => t.len() > 0,
        MemberView::Array(n) => n > 0,
        MemberView::Object(n) => n > 0,
    }
}

/// The member that names a line's title: `thread_name` when it counts as
/// present, otherwise `title`.
pub open spec fn chosen_title_member(line: Seq<u8>) -> Option<MemberView> {
    match json_member(line, THREAD_NAME_KEY@) {
        Some(m) => if member_truthy(m) {
            Some(m)
        } else {
            json_member(line, TITLE_KEY@)
        },
        None => json_member(line, TITLE_KEY@),
    }
}

/// The id and trimmed title that one index line contributes, if any.
pub open spec fn index_entry_view(line: Seq<u8>) -> Option<(Seq<char>, Seq<char>)> {
    match json_member(line, ID_KEY@) {
        Some(MemberView::Text(id)) => match chosen_title_member(line) {
            Some(MemberView::Text(t)) => if trim_ws(t).len() > 0 {
                Some((id, trim_ws(t)))
            } else {
                None
            },
            _ => None,
        },
        _ => None,
    }
}

proof fn lemma_exponent_start(t: Seq<char>)
    ensures
        0 <= exponent_start(t) <= t.len(),
        exponent_start(t) < t.len() ==> (t[exponent_start(t)] == 'e' || t[exponent_start(t)] == 'E'),
        forall|i: int| 0 <= i < exponent_start(t) ==> t[i] != 'e' && t[i] != 'E',
    decreases t.len(),
{
    if t.len() > 0 && t[0] != 'e' && t[0] != 'E' {
        lemma_exponent_start(t.drop_first());
        assert forall|i: int| 0 <= i < exponent_start(t) implies t[i] != 'e' && t[i] != 'E' by {
            if i > 0 {
                assert(t[i] == t.drop_first()[i - 1]);
            }
        }
    }
}

/// Whether a number's text denotes zero.
pub fn number_is_zero(t: &str) -> (r: bool)
    ensures
        r == number_text_is_zero(t@),
{
    let v = chars_of(t);
    proof {
        lemma_exponent_start(v@);
    }
    let mut i: usize = 0;
    while i < v.len()
        invariant
            i <= v.len(),
            v@ == t@,
            0 <= exponent_start(v@) <= v@.len(),
            exponent_start(v@) < v@.len() ==> (v@[exponent_start(v@)] == 'e' || v@[exponent_start(
                v@,
            )] == 'E'),
            forall|j: int| 0 <= j < exponent_start(v@) ==> v@[j] != 'e' && v@[j] != 'E',
            i <= exponent_start(v@),
            forall|j: int| 0 <= j < i ==> ('1' <= #[trigger] v@[j] && v@[j] <= '9') == false,
        decreases v.len() - i,
    {
        let c = v[i];
        if c == 'e' || c == 'E' {
            assert(i == exponent_start(v@));
            return true;
        }
        if '1' <= c && c <= '9' {
            return false;
        }
        i += 1;
    }
    true
}

/// Whether a member counts as present when choosing between `thread_name`
/// and `title`.
pub fn is_truthy(m: &JsonMember) -> (r: bool)
    ensures
        r == member_truthy(m@),
{
    match m {
        JsonMember::Null => false,
        JsonMember::Bool(b) => *b,
        JsonMember::Number(t) => !number_is_zero(t.as_str()),
        JsonMember::Text(t) => !t.as_str().is_empty(),
        JsonMember::Array(n) => *n > 0,
        JsonMember::Object(n) => *n > 0,
    }
}

/// The id and trimmed title one index line contributes, from the members the
/// line holds under `id`, `thread_name` and `title`.
pub fn entry_from_members(
    id: Option<JsonMember>,
    thread_name: Option<JsonMember>,
    title: Option<JsonMember>,
) -> (r: Option<(String, String)>)
    ensures
        ({
            let chosen = match option_member_view(thread_name) {
                Some(m) => if member_truthy(m) {
                    Some(m)
                } else {
                    option_member_view(title)
                },
                None => option_member_view(title),
            };
            let expected = match option_member_view(id) {
                Some(MemberView::Text(i)) => match chosen {
                    Some(MemberView::Text(t)) => if trim_ws(t).len() > 0 {
                        Some((i, trim_ws(t)))
                    } else {
                        None
                    },
                    _ => None,
                },
                _ => None,
            };
            match r {
                Some(p) => expected == Some((p.0@, p.1@)),
                None => expected is None,
            }
        }),
{
    let chosen = match thread_name {
        Some(m) => if is_truthy(&m) {
            Some(m)
        } else {
            title
        },
        None => title,
    };
    match id {
        Some(JsonMember::Text(id)) => match chosen {
            Some(JsonMember::Text(t)) => {
                let v = chars_of(t.as_str());
                let (a, b) = trim_range(&v);
                if a < b {
                    Some((id, string_from_range(&v, a, b)))
                } else {
                    None
                }
            },
            _ => None,
        },
        _ => None,
    }
}

/// The entries of a sequence of index lines, in order.
pub open spec fn index_entries_view(lines: Seq<Seq<u8>>) -> Seq<(Seq<char>, Seq<char>)>
    decreases lines.len(),
{
    if lines.len() == 0 {
        seq![]
    } else {
        let head = index_entries_view(lines.drop_last());
        match index_entry_view(lines.last()) {
            Some(e) => head.push(e),
            None => head,
        }
    }
}

/// The texts of a sequence of (id, title) pairs.
pub open spec fn pair_views(v: Seq<(String, String)>) -> Seq<(Seq<char>, Seq<char>)> {
    v.map_values(|p: (String, String)| (p.0@, p.1@))
}

/// The title of the last entry for `id`, as a map that keeps the latest
/// insertion would give it.
pub open spec fn latest_title(entries: Seq<(Seq<char>, Seq<char>)>, id: Seq<char>) -> Option<Seq<char>>
    decreases entries.len(),
{
    if entries.len() == 0 {
        None
    } else if entries.last().0 == id {
        Some(entries.last().1)
    } else {
        latest_title(entries.drop_last(), id)
    }
}

/// The id and trimmed title that one index line contributes, if any.
pub fn index_entry(line: &[u8]) -> (r: Option<(String, String)>)
    ensures
        match r {
            Some(p) => index_entry_view(line@) == Some((p.0@, p.1@)),
            None => index_entry_view(line@) is None,
        },
{
    let id = json_member_of(line, ID_KEY);
    let thread_name = json_member_of(line, THREAD_NAME_KEY);
    let title = json_member_of(line, TITLE_KEY);
    entry_from_members(id, thread_name, title)
}

/// All (id, title) entries of an index file's bytes, in file order.
pub fn index_titles(output: &[u8]) -> (r: Vec<(String, String)>)
    ensures
        pair_views(r@) == index_entries_view(lines_view(output@)),
{
    let lines = nonempty_lines(output);
    let ghost all = byte_views(lines@);
    let mut out: Vec<(String, String)> = Vec::new();
    let mut i: usize = 0;
    while i < lines.len()
        invariant
            i <= lines.len(),
            all == byte_views(lines@),
            pair_views(out@) == index_entries_view(all.take(i as int)),
        decreases lines.len() - i,
    {
        assert(all.take(i + 1).drop_last() =~= all.take(i as int));
        assert(all.take(i + 1).last() == lines@[i as int]@);
        let ghost before = pair_views(out@);
        match index_entry(lines[i].as_slice()) {
            Some(e) => {
                out.push(e);
                assert(pair_views(out@) =~= before.push((out@.last().0@, out@.last().1@)));
            },
            None => {},
        }
        i += 1;
    }
    assert(all.take(lines.len() as int) =~= all);
    out
}

/// The title recorded for `session_id`: the one from the last entry with
/// that id.
pub fn title_for(entries: &Vec<(String, String)>, session_id: &str) -> (r: Option<String>)
    ensures
        match r {
            Some(t) => latest_title(pair_views(entries@), session_id@) == Some(t@),
            None => latest_title(pair_views(entries@), session_id@) is None,
        },
{
    let ghost all = pair_views(entries@);
    let target = chars_of(session_id);
    let mut i = entries.len();
    assert(all.take(i as int) =~= all);
    while i > 0
        invariant
            i <= entries.len(),
            all == pair_views(entries@),
            target@ == session_id@,
            latest_title(all, session_id@) == latest_title(all.take(i as int), session_id@),
        decreases i,
    {
        let ghost prefix = all.take(i as int);
        assert(prefix.drop_last() =~= all.take(i - 1));
        let id = chars_of(entries[i - 1].0.as_str());
        if crate::unix_path::same_chars(&id, &target) {
            let t = entries[i - 1].1.clone();
            return Some(t);
        }
        i -= 1;
    }
    None
}

/// The title that a remote index file records for one session.
pub fn remote_session_title(index: &[u8], session_id: &str) -> (r: Option<String>)
    ensures
        match r {
            Some(t) => latest_title(index_entries_view(lines_view(index@)), session_id@) == Some(
                t@,
            ),
            None => latest_title(index_entries_view(lines_view(index@)), session_id@) is None,
        },
{
    let entries = index_titles(index);
    title_for(&entries, session_id)
}

/// How long titles read from a remote index stay fresh: thirty seconds, in
/// nanoseconds.
pub const TITLE_CACHE_TTL_NANOS: u128 = 30_000_000_000;

/// Whether titles read `elapsed_nanos` nanoseconds ago may still be used.
pub fn title_cache_is_fresh(elapsed_nanos: u128) -> (r: bool)
    ensures
        r == (elapsed_nanos < TITLE_CACHE_TTL_NANOS),
{
    elapsed_nanos < TITLE_CACHE_TTL_NANOS
}

/// What the title cache answers: with titles read `age_nanos` nanoseconds
/// ago (`None` when nothing is cached), the latest title for `id` while
/// that reading is fresh; `None` when the index has to be read again.
pub open spec fn cached_title_view(
    age_nanos: Option<u128>,
    entries: Seq<(Seq<char>, Seq<char>)>,
    id: Seq<char>,
) -> Option<Option<Seq<char>>> {
    match age_nanos {
        Some(age) => if age < TITLE_CACHE_TTL_NANOS {
            Some(latest_title(entries, id))
        } else {
            None
        },
        None => None,
    }
}

/// The title cache's answer for one session, from the cached titles and how
/// long ago they were read: `Some(title)` when they are fresh, `None` when
/// the index has to be read again.
pub fn cached_title(age_nanos: Option<u128>, titles: &Vec<(String, String)>, session_id: &str) -> (r:
    Option<Option<String>>)
    ensures
        match r {
            Some(Some(t)) => cached_title_view(age_nanos, pair_views(titles@), session_id@) == Some(
                Some(t@),
            ),
            Some(None) => cached_title_view(age_nanos, pair_views(titles@), session_id@) == Some(
                None::<Seq<char>>,
            ),
            None => cached_title_view(age_nanos, pair_views(titles@), session_id@) is None,
        },
{
    match age_nanos {
        Some(age) => if title_cache_is_fresh(age) {
            Some(title_for(titles, session_id))
        } else {
            None
        },
        None => None,
    }
}

} // verus!
