//! Remote sessions sources, written `ssh://<host>/<path>`, and the paths and
//! shell words derived from them.
//!
//! The host is handed to the user's own `ssh` client, so it is restricted to
//! characters that cannot be read as an option or split into several words.
//! Remote paths are quoted for the remote shell, except for a leading `~`,
//! which becomes `$HOME` so that the remote shell still expands it.
use vstd::prelude::*;
use crate::text::{
    chars_of, ends_with, extend_chars, push_range, range_ends_with, range_starts_with, skip_char,
    skip_char_back, starts_with, string_from_range, string_of, trim_end_char, trim_range,
    trim_start_char, trim_ws,
};
use crate::unix_path::{
    char_views, components_of, file_name_range, find_sep, first_sep, has_root, parent_len,
    path_ancestor, path_components, path_file_name, path_join, path_parent, path_with_file_name,
    push_join, same_chars, vec_from_range,
};

verus! {

/// Scheme prefix of a remote sessions source.
pub const PREFIX: &'static str = "ssh://";

pub const INVALID_SOURCE: &'static str = "invalid remote sessions path: ";

pub const SOURCE_SHAPE_ERROR: &'static str = "remote sessions path must be ssh://host/path";

pub const HOST_ERROR: &'static str = "remote SSH host must be a non-empty host or SSH config alias";

pub const EMPTY_DIR_ERROR: &'static str = "remote sessions directory must not be empty";

pub const RELATIVE_DIR_ERROR: &'static str = "remote sessions directory must be absolute or start with ~/";

pub const NOT_A_ROLLOUT_FILE: &'static str = "remote session path must point to a rollout JSONL file";

pub const ROLLOUT_SUFFIX_ERROR: &'static str = "remote session path must end in .jsonl or .jsonl.zst";

pub const NO_FILE_NAME: &'static str = "remote session path has no file name";

pub const NOT_A_ROLLOUT: &'static str = "remote session path must point to a rollout file";

pub const HOST_MISMATCH: &'static str = "remote session host does not match the configured sessions host";

pub const OUTSIDE_ROOT: &'static str = "remote session path is outside the configured sessions directory";

pub const HOME: &'static str = "$HOME";

pub const INDEX_FILE: &'static str = "session_index.jsonl";

pub const PLAIN_SUFFIX: &'static str = ".jsonl";

pub const COMPRESSED_SUFFIX: &'static str = ".jsonl.zst";

pub const ZST_SUFFIX: &'static str = ".zst";

pub const ROLLOUT_PREFIX: &'static str = "rollout-";

pub const SESSIONS_SUFFIX: &'static str = "/sessions";

pub const CONTROL_PATH: &'static str = "/tmp/ct-ssh-%C";

/// A parsed remote sessions source: the SSH host (or `~/.ssh/config`
/// alias) and the directory or file on that host.
#[derive(Debug, PartialEq, Eq)]
pub struct RemoteSpec {
    pub host: String,
    pub path: String,
}

/// The host and path of a parsed source, or the error text.
pub open spec fn spec_outcome(r: Result<RemoteSpec, String>) -> Result<(Seq<char>, Seq<char>), Seq<char>> {
    match r {
        Ok(s) => Ok((s.host@, s.path@)),
        Err(e) => Err(e@),
    }
}

/// The text of a string result, or the error text.
pub open spec fn text_outcome(r: Result<String, String>) -> Result<Seq<char>, Seq<char>> {
    match r {
        Ok(s) => Ok(s@),
        Err(e) => Err(e@),
    }
}

/// The two texts of a pair result, or the error text.
pub open spec fn pair_outcome(r: Result<[String; 2], String>) -> Result<(Seq<char>, Seq<char>), Seq<char>> {
    match r {
        Ok(a) => Ok((a[0]@, a[1]@)),
        Err(e) => Err(e@),
    }
}

/// A character allowed in a host: ASCII letters and digits and `.` `_` `-` `@` `:`.
pub open spec fn is_host_char(c: char) -> bool {
    ('a' <= c && c <= 'z') || ('A' <= c && c <= 'Z') || ('0' <= c && c <= '9') || c == '.' || c
        == '_' || c == '-' || c == '@' || c == ':'
}

/// A usable host: non-empty, not starting with `-`, made of host characters.
pub open spec fn valid_host_spec(h: Seq<char>) -> bool {
    h.len() > 0 && h[0] != '-' && forall|i: int| 0 <= i < h.len() ==> #[trigger] is_host_char(h[i])
}

/// A path that the remote shell resolves against the home directory.
pub open spec fn home_relative(p: Seq<char>) -> bool {
    p == seq!['~'] || starts_with(p, seq!['~', '/'])
}

/// What `parse_spec` gives: the host and path of `ssh://host/path`. A path
/// that does not start with `~` is made absolute.
pub open spec fn parse_spec_view(v: Seq<char>) -> Result<(Seq<char>, Seq<char>), Seq<char>> {
    if !starts_with(v, PREFIX@) {
        Err(INVALID_SOURCE@ + v)
    } else {
        let rest = v.skip(PREFIX@.len() as int);
        let i = first_sep(rest);
        if i >= rest.len() {
            Err(SOURCE_SHAPE_ERROR@)
        } else if !valid_host_spec(rest.take(i)) {
            Err(HOST_ERROR@)
        } else if rest.skip(i + 1).len() == 0 {
            Err(EMPTY_DIR_ERROR@)
        } else {
            let p = rest.skip(i + 1);
            Ok(
                (
                    rest.take(i),
                    if home_relative(p) {
                        p
                    } else {
                        seq!['/'] + p
                    },
                ),
            )
        }
    }
}

/// `ssh://host/path` with the leading separators of `path` dropped.
pub open spec fn remote_file_view(host: Seq<char>, path: Seq<char>) -> Seq<char> {
    PREFIX@ + host + seq!['/'] + trim_start_char(path, '/')
}

/// What `make_spec` gives for a host and a directory typed by the user.
pub open spec fn make_spec_view(host: Seq<char>, path: Seq<char>) -> Result<Seq<char>, Seq<char>> {
    let h = trim_ws(host);
    let p = trim_ws(path);
    if !valid_host_spec(h) {
        Err(HOST_ERROR@)
    } else if p.len() == 0 {
        Err(EMPTY_DIR_ERROR@)
    } else if !(p[0] == '/' || home_relative(p)) {
        Err(RELATIVE_DIR_ERROR@)
    } else {
        Ok(remote_file_view(h, p))
    }
}

/// `root` without trailing separators, a separator, then `relative` without
/// leading separators.
pub open spec fn join_remote_view(root: Seq<char>, relative: Seq<char>) -> Seq<char> {
    trim_end_char(root, '/') + seq!['/'] + trim_start_char(relative, '/')
}

/// How one character is written inside single quotes.
pub open spec fn quote_piece(c: char) -> Seq<char> {
    if c == '\'' {
        seq!['\'', '\\', '\'', '\'']
    } else {
        seq![c]
    }
}

/// The text between the outer single quotes.
pub open spec fn escape_quotes(s: Seq<char>) -> Seq<char>
    decreases s.len(),
{
    if s.len() == 0 {
        seq![]
    } else {
        escape_quotes(s.drop_last()) + quote_piece(s.last())
    }
}

/// `s` as one single-quoted shell word.
pub open spec fn shell_quote_view(s: Seq<char>) -> Seq<char> {
    seq!['\''] + escape_quotes(s) + seq!['\'']
}

/// A path as a shell word: `~` becomes `$HOME`, the rest is quoted.
pub open spec fn shell_path_view(p: Seq<char>) -> Seq<char> {
    if p == seq!['~'] {
        HOME@
    } else if starts_with(p, seq!['~', '/']) {
        HOME@ + seq!['/'] + shell_quote_view(p.skip(2))
    } else {
        shell_quote_view(p)
    }
}

/// What `remote_file_path` gives: the path of a rollout file, or an error
/// when the path names a directory or another kind of file.
pub open spec fn remote_file_path_view(p: Seq<char>) -> Result<Seq<char>, Seq<char>> {
    let t = trim_end_char(p, '/');
    if t.len() == 0 || t == seq!['~'] || ends_with(t, SESSIONS_SUFFIX@) {
        Err(NOT_A_ROLLOUT_FILE@)
    } else if !(ends_with(t, PLAIN_SUFFIX@) || ends_with(t, COMPRESSED_SUFFIX@)) {
        Err(ROLLOUT_SUFFIX_ERROR@)
    } else {
        Ok(t)
    }
}

/// What `relative_remote_path` gives: the part of `file` below `root`, when
/// it is a relative path that never climbs with `..`.
pub open spec fn relative_remote_view(root: Seq<char>, file: Seq<char>) -> Option<Seq<char>> {
    let r = trim_end_char(root, '/');
    if starts_with(file, r) && file.len() > r.len() && file[r.len() as int] == '/' {
        let rel = file.skip(r.len() + 1int);
        if rel.len() == 0 || has_root(rel) || path_components(rel).contains(seq!['.', '.']) {
            None
        } else {
            Some(rel)
        }
    } else {
        None
    }
}

/// What `remote_rollout_variants` gives: the plain and the compressed name
/// of one rollout, in that order.
pub open spec fn rollout_variants_view(path: Seq<char>) -> Result<(Seq<char>, Seq<char>), Seq<char>> {
    let t = trim_end_char(path, '/');
    match path_file_name(t) {
        None => Err(NO_FILE_NAME@),
        Some(name) => if !starts_with(name, ROLLOUT_PREFIX@) {
            Err(NOT_A_ROLLOUT@)
        } else if ends_with(name, COMPRESSED_SUFFIX@) {
            Ok(
                (
                    path_with_file_name(
                        t,
                        name.take(name.len() - COMPRESSED_SUFFIX@.len()) + PLAIN_SUFFIX@,
                    ),
                    t,
                ),
            )
        } else if ends_with(name, PLAIN_SUFFIX@) {
            Ok((t, t + ZST_SUFFIX@))
        } else {
            Err(ROLLOUT_SUFFIX_ERROR@)
        },
    }
}

/// What `validate_remote_delete_target` gives: both variants of the target
/// rollout, when the target is on the configured host and both lie below
/// the configured directory.
pub open spec fn delete_target_view(
    root_host: Seq<char>,
    root_path: Seq<char>,
    target_host: Seq<char>,
    target_path: Seq<char>,
) -> Result<(Seq<char>, Seq<char>), Seq<char>> {
    if root_host != target_host {
        Err(HOST_MISMATCH@)
    } else {
        match rollout_variants_view(target_path) {
            Err(e) => Err(e),
            Ok((a, b)) => if relative_remote_view(root_path, a) is None || relative_remote_view(
                root_path,
                b,
            ) is None {
                Err(OUTSIDE_ROOT@)
            } else {
                Ok((a, b))
            },
        }
    }
}

/// What `remote_index_path` gives: `session_index.jsonl` next to the
/// sessions directory. For a rollout file the directory is five levels up
/// (`sessions/YYYY/MM/DD/file`); a missing parent counts as `.`.
pub open spec fn index_path_view(root: Seq<char>) -> Seq<char> {
    let up = if ends_with(root, PLAIN_SUFFIX@) || ends_with(root, COMPRESSED_SUFFIX@) {
        path_ancestor(root, 5)
    } else {
        path_parent(root)
    };
    let dir = match up {
        Some(d) => d,
        None => seq!['.'],
    };
    path_join(dir, INDEX_FILE@)
}

/// Whether `value` names a remote sessions source.
pub fn is_remote_spec(value: &str) -> (b: bool)
    ensures
        b == starts_with(value@, PREFIX@),
{
    let v = chars_of(value);
    let pre = chars_of(PREFIX);
    assert(v@.subrange(0, v@.len() as int) =~= v@);
    range_starts_with(&v, 0, v.len(), &pre)
}

fn host_char(c: char) -> (b: bool)
    ensures
        b == is_host_char(c),
{
    ('a' <= c && c <= 'z') || ('A' <= c && c <= 'Z') || ('0' <= c && c <= '9') || c == '.' || c
        == '_' || c == '-' || c == '@' || c == ':'
}

fn valid_host_range(v: &Vec<char>, from: usize, to: usize) -> (b: bool)
    requires
        from <= to <= v.len(),
    ensures
        b == valid_host_spec(v@.subrange(from as int, to as int)),
{
    let ghost h = v@.subrange(from as int, to as int);
    if from == to {
        return false;
    }
    if v[from] == '-' {
        assert(h[0] == v@[from as int]);
        return false;
    }
    let mut i = from;
    while i < to
        invariant
            from <= i <= to <= v.len(),
            h == v@.subrange(from as int, to as int),
            forall|j: int| 0 <= j < i - from ==> #[trigger] is_host_char(h[j]),
        decreases to - i,
    {
        if !host_char(v[i]) {
            assert(h[i - from] == v@[i as int]);
            assert(!is_host_char(h[i - from]));
            return false;
        }
        assert(h[i - from] == v@[i as int]);
        i += 1;
    }
    assert(h[0] == v@[from as int]);
    true
}

/// Whether `host` can be handed to `ssh` as a host or config alias.
pub fn valid_host(host: &str) -> (b: bool)
    ensures
        b == valid_host_spec(host@),
{
    let v = chars_of(host);
    assert(v@.subrange(0, v@.len() as int) =~= v@);
    valid_host_range(&v, 0, v.len())
}

fn is_home_relative(v: &Vec<char>, from: usize, to: usize) -> (b: bool)
    requires
        from <= to <= v.len(),
    ensures
        b == home_relative(v@.subrange(from as int, to as int)),
{
    let ghost p = v@.subrange(from as int, to as int);
    if to - from == 1 && v[from] == '~' {
        assert(p =~= seq!['~']);
        return true;
    }
    if to - from >= 2 && v[from] == '~' && v[from + 1] == '/' {
        assert(p.subrange(0, 2) =~= seq!['~', '/']);
        return true;
    }
    assert(!home_relative(p)) by {
        if p == seq!['~'] {
            assert(p.len() == 1);
            assert(p[0] == '~');
            assert(p[0] == v@[from as int]);
        }
        if starts_with(p, seq!['~', '/']) {
            assert(p.subrange(0, 2)[0] == v@[from as int]);
            assert(p.subrange(0, 2)[1] == v@[from + 1]);
        }
    }
    false
}

/// Parses `ssh://host/path` into its host and path.
pub fn parse_spec(value: &str) -> (r: Result<RemoteSpec, String>)
    ensures
        spec_outcome(r) == parse_spec_view(value@),
{
    let v = chars_of(value);
    let pre = chars_of(PREFIX);
    let n = v.len();
    assert(v@.subrange(0, n as int) =~= v@);
    if !range_starts_with(&v, 0, n, &pre) {
        let mut m = string_of(INVALID_SOURCE);
        m.append(value);
        return Err(m);
    }
    let s0 = pre.len();
    let ghost rest = v@.skip(s0 as int);
    assert(rest =~= v@.subrange(s0 as int, n as int));
    let i = find_sep(&v, s0, n);
    if i == n {
        return Err(string_of(SOURCE_SHAPE_ERROR));
    }
    assert(rest.take((i - s0) as int) =~= v@.subrange(s0 as int, i as int));
    if !valid_host_range(&v, s0, i) {
        return Err(string_of(HOST_ERROR));
    }
    assert(rest.skip((i - s0) + 1) =~= v@.subrange(i + 1, n as int));
    if i + 1 == n {
        return Err(string_of(EMPTY_DIR_ERROR));
    }
    let host = string_from_range(&v, s0, i);
    let path = if is_home_relative(&v, i + 1, n) {
        string_from_range(&v, i + 1, n)
    } else {
        let mut p = String::new();
        p.push('/');
        push_range(&mut p, &v, i + 1, n);
        p
    };
    Ok(RemoteSpec { host, path })
}

/// Appends `remote_file_view(v[hf..ht], v[pf..pt])` to `out`.
fn push_remote_file(
    out: &mut String,
    hv: &Vec<char>,
    hf: usize,
    ht: usize,
    pv: &Vec<char>,
    pf: usize,
    pt: usize,
)
    requires
        hf <= ht <= hv.len(),
        pf <= pt <= pv.len(),
    ensures
        final(out)@ == old(out)@ + remote_file_view(
            hv@.subrange(hf as int, ht as int),
            pv@.subrange(pf as int, pt as int),
        ),
{
    out.append(PREFIX);
    push_range(out, hv, hf, ht);
    out.push('/');
    let a = skip_char(pv, pf, pt, '/');
    push_range(out, pv, a, pt);
    assert(out@ =~= old(out)@ + remote_file_view(
        hv@.subrange(hf as int, ht as int),
        pv@.subrange(pf as int, pt as int),
    ));
}

/// Builds `ssh://host/path` from a host and a directory typed by the user.
pub fn make_spec(host: &str, path: &str) -> (r: Result<String, String>)
    ensures
        text_outcome(r) == make_spec_view(host@, path@),
{
    let hv = chars_of(host);
    let pv = chars_of(path);
    let (hf, ht) = trim_range(&hv);
    let (pf, pt) = trim_range(&pv);
    if !valid_host_range(&hv, hf, ht) {
        return Err(string_of(HOST_ERROR));
    }
    if pf == pt {
        return Err(string_of(EMPTY_DIR_ERROR));
    }
    let ghost p = pv@.subrange(pf as int, pt as int);
    assert(p[0] == pv@[pf as int]);
    if !(pv[pf] == '/' || is_home_relative(&pv, pf, pt)) {
        return Err(string_of(RELATIVE_DIR_ERROR));
    }
    let mut out = String::new();
    push_remote_file(&mut out, &hv, hf, ht, &pv, pf, pt);
    Ok(out)
}

/// `ssh://host/path` for a file below a remote sessions directory.
pub fn format_remote_file(host: &str, path: &str) -> (r: String)
    ensures
        r@ == remote_file_view(host@, path@),
{
    let hv = chars_of(host);
    let pv = chars_of(path);
    let mut out = String::new();
    push_remote_file(&mut out, &hv, 0, hv.len(), &pv, 0, pv.len());
    assert(hv@.subrange(0, hv@.len() as int) =~= hv@);
    assert(pv@.subrange(0, pv@.len() as int) =~= pv@);
    out
}

/// Joins a path relative to a remote sessions directory onto it.
pub fn join_remote_path(root: &str, relative: &str) -> (r: String)
    ensures
        r@ == join_remote_view(root@, relative@),
{
    let rv = chars_of(root);
    let lv = chars_of(relative);
    assert(rv@.subrange(0, rv@.len() as int) =~= rv@);
    assert(lv@.subrange(0, lv@.len() as int) =~= lv@);
    let b = skip_char_back(&rv, 0, rv.len(), '/');
    let a = skip_char(&lv, 0, lv.len(), '/');
    let mut out = string_from_range(&rv, 0, b);
    out.push('/');
    push_range(&mut out, &lv, a, lv.len());
    assert(out@ =~= join_remote_view(root@, relative@));
    out
}

/// Appends `shell_quote_view(v[from..to])` to `out`.
fn push_quoted(out: &mut String, v: &Vec<char>, from: usize, to: usize)
    requires
        from <= to <= v.len(),
    ensures
        final(out)@ == old(out)@ + shell_quote_view(v@.subrange(from as int, to as int)),
{
    out.push('\'');
    let ghost start = out@;
    let mut i = from;
    while i < to
        invariant
            from <= i <= to <= v.len(),
            out@ == start + escape_quotes(v@.subrange(from as int, i as int)),
        decreases to - i,
    {
        let c = v[i];
        if c == '\'' {
            out.push('\'');
            out.push('\\');
            out.push('\'');
            out.push('\'');
        } else {
            out.push(c);
        }
        let ghost next = v@.subrange(from as int, i + 1);
        assert(next.drop_last() =~= v@.subrange(from as int, i as int));
        assert(next.last() == c);
        i += 1;
    }
    out.push('\'');
    assert(out@ =~= old(out)@ + shell_quote_view(v@.subrange(from as int, to as int)));
}

/// `value` as one single-quoted word for a POSIX shell.
pub fn shell_quote_fragment(value: &str) -> (r: String)
    ensures
        r@ == shell_quote_view(value@),
{
    let v = chars_of(value);
    let mut out = String::new();
    push_quoted(&mut out, &v, 0, v.len());
    assert(v@.subrange(0, v@.len() as int) =~= v@);
    out
}

/// `path` as a shell word for the remote host; a leading `~` stays
/// expandable as `$HOME`, everything else is quoted.
pub fn shell_path(path: &str) -> (r: String)
    ensures
        r@ == shell_path_view(path@),
{
    let v = chars_of(path);
    let n = v.len();
    if n == 1 && v[0] == '~' {
        assert(v@ =~= seq!['~']);
        return string_of(HOME);
    }
    if n >= 2 && v[0] == '~' && v[1] == '/' {
        assert(v@.subrange(0, 2) =~= seq!['~', '/']);
        assert(v@.skip(2) =~= v@.subrange(2, n as int));
        let mut out = string_of(HOME);
        out.push('/');
        push_quoted(&mut out, &v, 2, n);
        return out;
    }
    assert(v@ != seq!['~']) by {
        if v@ == seq!['~'] {
            assert(v@[0] == '~');
        }
    }
    assert(!starts_with(v@, seq!['~', '/'])) by {
        if starts_with(v@, seq!['~', '/']) {
            assert(v@.subrange(0, 2)[0] == v@[0]);
            assert(v@.subrange(0, 2)[1] == v@[1]);
        }
    }
    let mut out = String::new();
    push_quoted(&mut out, &v, 0, n);
    assert(v@.subrange(0, n as int) =~= v@);
    out
}

/// The OpenSSH `ControlPath` shared by all connections. OpenSSH limits it to
/// 104 bytes; `%C` keeps hosts and configurations apart by hash.
pub fn ssh_control_path() -> (r: String)
    ensures
        r@ == CONTROL_PATH@,
        r@.len() < 104,
{
    proof {
        reveal_strlit("/tmp/ct-ssh-%C");
    }
    string_of(CONTROL_PATH)
}

/// The rollout file named by a remote path, or an error for a directory or
/// another kind of file.
pub fn remote_file_path(path: &str) -> (r: Result<String, String>)
    ensures
        text_outcome(r) == remote_file_path_view(path@),
{
    let v = chars_of(path);
    let n = v.len();
    assert(v@.subrange(0, n as int) =~= v@);
    let t = skip_char_back(&v, 0, n, '/');
    let ghost tv = v@.subrange(0, t as int);
    let sessions = chars_of(SESSIONS_SUFFIX);
    let plain = chars_of(PLAIN_SUFFIX);
    let compressed = chars_of(COMPRESSED_SUFFIX);
    let is_tilde = t == 1 && v[0] == '~';
    assert(is_tilde == (tv == seq!['~'])) by {
        if tv == seq!['~'] {
            assert(tv.len() == 1);
            assert(tv[0] == '~');
            assert(tv[0] == v@[0]);
        }
        if is_tilde {
            assert(tv =~= seq!['~']);
        }
    }
    if t == 0 || is_tilde || range_ends_with(&v, 0, t, &sessions) {
        return Err(string_of(NOT_A_ROLLOUT_FILE));
    }
    if !(range_ends_with(&v, 0, t, &plain) || range_ends_with(&v, 0, t, &compressed)) {
        return Err(string_of(ROLLOUT_SUFFIX_ERROR));
    }
    Ok(string_from_range(&v, 0, t))
}

/// The part of `file` below the directory `root`, if `file` lies strictly
/// inside it and its relative part never climbs out with `..`.
#[verifier::loop_isolation(false)]
pub fn relative_remote_path(root: &str, file: &str) -> (r: Option<String>)
    ensures
        match r {
            Some(s) => relative_remote_view(root@, file@) == Some(s@),
            None => relative_remote_view(root@, file@) is None,
        },
{
    let rv = chars_of(root);
    let fv = chars_of(file);
    assert(rv@.subrange(0, rv@.len() as int) =~= rv@);
    assert(fv@.subrange(0, fv@.len() as int) =~= fv@);
    let b = skip_char_back(&rv, 0, rv.len(), '/');
    let trimmed = vec_from_range(&rv, 0, b);
    let n = fv.len();
    if !(range_starts_with(&fv, 0, n, &trimmed) && n > b && fv[b] == '/') {
        return None;
    }
    let rel = vec_from_range(&fv, b + 1, n);
    assert(rel@ =~= fv@.skip(b + 1));
    if rel.len() == 0 || rel[0] == '/' {
        return None;
    }
    let comps = components_of(&rel);
    let dots: Vec<char> = vec!['.', '.'];
    assert(dots@ =~= seq!['.', '.']);
    let mut i: usize = 0;
    while i < comps.len()
        invariant
            char_views(comps@) == path_components(rel@),
            dots@ == seq!['.', '.'],
            i <= comps.len(),
            forall|j: int| 0 <= j < i ==> path_components(rel@)[j] != seq!['.', '.'],
        decreases comps.len() - i,
    {
        if same_chars(&comps[i], &dots) {
            assert(path_components(rel@)[i as int] == seq!['.', '.']);
            return None;
        }
        i += 1;
    }
    assert(!path_components(rel@).contains(seq!['.', '.']));
    Some(string_from_range(&fv, b + 1, n))
}

/// The plain and compressed names of the rollout a remote path points to.
pub fn remote_rollout_variants(path: &str) -> (r: Result<[String; 2], String>)
    ensures
        pair_outcome(r) == rollout_variants_view(path@),
{
    let v = chars_of(path);
    let n = v.len();
    assert(v@.subrange(0, n as int) =~= v@);
    let t = skip_char_back(&v, 0, n, '/');
    let (a, b) = match file_name_range(&v, t) {
        Some(range) => range,
        None => {
            return Err(string_of(NO_FILE_NAME));
        },
    };
    let ghost name = v@.subrange(a as int, b as int);
    let rollout = chars_of(ROLLOUT_PREFIX);
    if !range_starts_with(&v, a, b, &rollout) {
        return Err(string_of(NOT_A_ROLLOUT));
    }
    let compressed = chars_of(COMPRESSED_SUFFIX);
    let plain = chars_of(PLAIN_SUFFIX);
    if range_ends_with(&v, a, b, &compressed) {
        let parent = match parent_len(&v, t) {
            Some(p) => p,
            None => {
                assert(false);
                return Err(string_of(NO_FILE_NAME));
            },
        };
        let cut = b - compressed.len();
        let mut new_name = vec_from_range(&v, a, cut);
        let ghost stem = new_name@;
        extend_chars(&mut new_name, &plain);
        assert(stem =~= name.take(name.len() - COMPRESSED_SUFFIX@.len()));
        let mut first = String::new();
        push_join(&mut first, &v, parent, &new_name);
        return Ok([first, string_from_range(&v, 0, t)]);
    }
    if range_ends_with(&v, a, b, &plain) {
        let first = string_from_range(&v, 0, t);
        let mut second = string_from_range(&v, 0, t);
        second.append(ZST_SUFFIX);
        return Ok([first, second]);
    }
    Err(string_of(ROLLOUT_SUFFIX_ERROR))
}

/// Checks that a remote delete target is a rollout on the configured host
/// whose plain and compressed names both lie below the configured directory,
/// and returns those two names.
pub fn validate_remote_delete_target(root: &RemoteSpec, target: &RemoteSpec) -> (r: Result<
    [String; 2],
    String,
>)
    ensures
        pair_outcome(r) == delete_target_view(root.host@, root.path@, target.host@, target.path@),
{
    if root.host != target.host {
        return Err(string_of(HOST_MISMATCH));
    }
    let variants = remote_rollout_variants(target.path.as_str())?;
    if relative_remote_path(root.path.as_str(), variants[0].as_str()).is_none()
        || relative_remote_path(root.path.as_str(), variants[1].as_str()).is_none() {
        return Err(string_of(OUTSIDE_ROOT));
    }
    Ok(variants)
}

/// Where Codex keeps `session_index.jsonl` for a remote sessions directory
/// or for a rollout file below it.
pub fn remote_index_path(root: &str) -> (r: String)
    ensures
        r@ == index_path_view(root@),
{
    let v = chars_of(root);
    let n = v.len();
    assert(v@.subrange(0, n as int) =~= v@);
    let plain = chars_of(PLAIN_SUFFIX);
    let compressed = chars_of(COMPRESSED_SUFFIX);
    let is_file = range_ends_with(&v, 0, n, &plain) || range_ends_with(&v, 0, n, &compressed);
    let steps: usize = if is_file {
        5
    } else {
        1
    };
    let mut len = n;
    let mut found = true;
    let mut k: usize = 0;
    while k < steps && found
        invariant
            k <= steps,
            len <= n == v.len(),
            found ==> path_ancestor(v@, k as nat) == Some(v@.subrange(0, len as int)),
            !found ==> path_ancestor(v@, steps as nat) is None,
        decreases steps - k + (if found { 1int } else { 0int }),
    {
        match parent_len(&v, len) {
            Some(p) => {
                len = p;
                k += 1;
            },
            None => {
                proof {
                    lemma_ancestor_stays_none(v@, (k + 1) as nat, steps as nat);
                }
                found = false;
            },
        }
    }
    let mut out = String::new();
    let index = chars_of(INDEX_FILE);
    if found {
        push_join(&mut out, &v, len, &index);
    } else {
        let dot: Vec<char> = vec!['.'];
        assert(dot@ =~= seq!['.']);
        assert(dot@.subrange(0, 1) =~= dot@);
        push_join(&mut out, &dot, 1, &index);
    }
    proof {
        if !is_file {
            assert(path_ancestor(v@, 1) == path_parent(v@)) by {
                assert(path_ancestor(v@, 0) == Some(v@));
            }
        }
    }
    assert(out@ =~= index_path_view(root@));
    out
}

/// Once a step up has no parent, no further step has one.
proof fn lemma_ancestor_stays_none(s: Seq<char>, k: nat, m: nat)
    requires
        path_ancestor(s, k) is None,
        k <= m,
    ensures
        path_ancestor(s, m) is None,
    decreases m - k,
{
    if k < m {
        lemma_ancestor_stays_none(s, k + 1, m);
    }
}

} // verus!
