//! Loading and deleting a session rollout chosen in the picker.
//!
//! Deleting is constrained to the sessions tree the picker entry came from.
//! For a remote tree the whole decision ends in one [`SshRequest`]. For a
//! local tree the caller resolves paths on disk and hands the findings back:
//! first for the sessions directory ([`check_sessions_root`]), then for the
//! two rollout names ([`local_delete_targets`]), which decides what to remove.
use vstd::prelude::*;
use crate::commands::{delete_remote_session, delete_remote_view, SshRequest};
use crate::remote::{
    is_remote_spec, pair_outcome, text_outcome, COMPRESSED_SUFFIX, PLAIN_SUFFIX, PREFIX,
    ROLLOUT_PREFIX, ZST_SUFFIX,
};
use crate::text::{
    chars_of, ends_with, extend_chars, range_ends_with, range_starts_with, starts_with,
    string_of,
};
use crate::unix_path::{
    file_name_range, has_root, parent_len, path_file_name, path_starts_with, path_with_file_name,
    push_join, starts_with_path, vec_from_range,
};

verus! {

pub const NO_SESSION_PATH_PROVIDED: &'static str = "no session path provided";

pub const SESSION_FILE_NOT_FOUND: &'static str = "session file does not exist";

pub const MIXED_CONNECTIONS: &'static str = "session source and session path must use the same connection type";

pub const RESOLVE_ROOT: &'static str = "resolve sessions directory: ";

pub const ROOT_NOT_DIR: &'static str = "configured sessions path is not a directory";

pub const RESOLVE_FILE: &'static str = "resolve session file: ";

pub const OUTSIDE_SESSIONS: &'static str = "session path is outside the configured sessions directory";

pub const NOT_A_FILE: &'static str = "session path is not a file";

pub const NOT_ABSOLUTE: &'static str = "session path must be absolute";

pub const LOCAL_NO_FILE_NAME: &'static str = "session path has no file name";

pub const LOCAL_NOT_ROLLOUT: &'static str = "session path must point to a rollout file";

pub const LOCAL_SUFFIX_ERROR: &'static str = "session path must end in .jsonl or .jsonl.zst";

/// The path to hand to the session parser, or the error for an empty path.
pub fn load_session_from_path(path: &str) -> (r: Result<String, String>)
    ensures
        text_outcome(r) == (if path@.len() == 0 {
            Err(NO_SESSION_PATH_PROVIDED@)
        } else {
            Ok(path@)
        }),
{
    if path.is_empty() {
        return Err(string_of(NO_SESSION_PATH_PROVIDED));
    }
    Ok(string_of(path))
}

/// How a delete proceeds: by one remote command, or on the local disk.
#[derive(Debug)]
pub enum DeletePlan {
    Remote(SshRequest),
    Local,
}

/// The remote host and command of a plan (`None` for a local delete), or
/// the error text.
pub open spec fn plan_outcome(r: Result<DeletePlan, String>) -> Result<Option<(Seq<char>, Seq<char>)>, Seq<char>> {
    match r {
        Ok(DeletePlan::Remote(q)) => Ok(Some((q.host@, q.command@))),
        Ok(DeletePlan::Local) => Ok(None),
        Err(e) => Err(e@),
    }
}

/// What `delete_session_from_path` decides.
pub open spec fn delete_plan_view(dir: Seq<char>, path: Seq<char>) -> Result<Option<(Seq<char>, Seq<char>)>, Seq<char>> {
    if dir.len() == 0 || path.len() == 0 {
        Err(NO_SESSION_PATH_PROVIDED@)
    } else if starts_with(dir, PREFIX@) != starts_with(path, PREFIX@) {
        Err(MIXED_CONNECTIONS@)
    } else if starts_with(dir, PREFIX@) {
        match delete_remote_view(dir, path) {
            Ok(q) => Ok(Some(q)),
            Err(e) => Err(e),
        }
    } else {
        Ok(None)
    }
}

/// Decides how to delete a rollout picked from the sessions source
/// `sessions_dir`: both must be given and of the same kind, local or
/// `ssh://`; a remote delete is checked and turned into its command.
pub fn delete_session_from_path(sessions_dir: &str, path: &str) -> (r: Result<DeletePlan, String>)
    ensures
        plan_outcome(r) == delete_plan_view(sessions_dir@, path@),
{
    if sessions_dir.is_empty() || path.is_empty() {
        return Err(string_of(NO_SESSION_PATH_PROVIDED));
    }
    let sessions_remote = is_remote_spec(sessions_dir);
    let path_remote = is_remote_spec(path);
    if sessions_remote != path_remote {
        return Err(string_of(MIXED_CONNECTIONS));
    }
    if sessions_remote {
        return match delete_remote_session(sessions_dir, path) {
            Ok(q) => Ok(DeletePlan::Remote(q)),
            Err(e) => Err(e),
        };
    }
    Ok(DeletePlan::Local)
}

/// What `local_rollout_variants` gives: the plain and compressed names of a
/// local rollout, in that order.
pub open spec fn local_variants_view(p: Seq<char>) -> Result<(Seq<char>, Seq<char>), Seq<char>> {
    if !has_root(p) {
        Err(NOT_ABSOLUTE@)
    } else {
        match path_file_name(p) {
            None => Err(LOCAL_NO_FILE_NAME@),
            Some(name) => if !starts_with(name, ROLLOUT_PREFIX@) {
                Err(LOCAL_NOT_ROLLOUT@)
            } else if ends_with(name, COMPRESSED_SUFFIX@) {
                Ok(
                    (
                        path_with_file_name(
                            p,
                            name.take(name.len() - COMPRESSED_SUFFIX@.len()) + PLAIN_SUFFIX@,
                        ),
                        p,
                    ),
                )
            } else if ends_with(name, PLAIN_SUFFIX@) {
                Ok((p, path_with_file_name(p, name + ZST_SUFFIX@)))
            } else {
                Err(LOCAL_SUFFIX_ERROR@)
            },
        }
    }
}

/// The plain and compressed names of the local rollout `path` points to.
pub fn local_rollout_variants(path: &str) -> (r: Result<[String; 2], String>)
    ensures
        pair_outcome(r) == local_variants_view(path@),
{
    let v = chars_of(path);
    let n = v.len();
    assert(v@.subrange(0, n as int) =~= v@);
    if !(n > 0 && v[0] == '/') {
        return Err(string_of(NOT_ABSOLUTE));
    }
    let (a, b) = match file_name_range(&v, n) {
        Some(range) => range,
        None => {
            return Err(string_of(LOCAL_NO_FILE_NAME));
        },
    };
    let ghost name = v@.subrange(a as int, b as int);
    let rollout = chars_of(ROLLOUT_PREFIX);
    if !range_starts_with(&v, a, b, &rollout) {
        return Err(string_of(LOCAL_NOT_ROLLOUT));
    }
    let parent = match parent_len(&v, n) {
        Some(p) => p,
        None => {
            assert(false);
            return Err(string_of(LOCAL_NO_FILE_NAME));
        },
    };
    let compressed = chars_of(COMPRESSED_SUFFIX);
    let plain = chars_of(PLAIN_SUFFIX);
    if range_ends_with(&v, a, b, &compressed) {
        let mut new_name = vec_from_range(&v, a, b - compressed.len());
        let ghost stem = new_name@;
        assert(stem =~= name.take(name.len() - COMPRESSED_SUFFIX@.len()));
        extend_chars(&mut new_name, &plain);
        let mut first = String::new();
        push_join(&mut first, &v, parent, &new_name);
        return Ok([first, string_of(path)]);
    }
    if range_ends_with(&v, a, b, &plain) {
        let mut new_name = vec_from_range(&v, a, b);
        let zst = chars_of(ZST_SUFFIX);
        extend_chars(&mut new_name, &zst);
        let mut second = String::new();
        push_join(&mut second, &v, parent, &new_name);
        return Ok([string_of(path), second]);
    }
    Err(string_of(LOCAL_SUFFIX_ERROR))
}

/// What resolving the configured sessions directory found.
#[derive(Debug)]
pub enum SessionsRoot {
    /// Resolving failed, with the error's description.
    Unresolved(String),
    /// The canonical path, and whether it is a directory.
    Resolved { canonical: String, is_dir: bool },
}

/// What `check_sessions_root` gives: the canonical sessions directory.
pub open spec fn sessions_root_view(root: SessionsRoot) -> Result<Seq<char>, Seq<char>> {
    match root {
        SessionsRoot::Unresolved(e) => Err(RESOLVE_ROOT@ + e@),
        SessionsRoot::Resolved { canonical, is_dir } => if is_dir {
            Ok(canonical@)
        } else {
            Err(ROOT_NOT_DIR@)
        },
    }
}

/// The canonical sessions directory to delete below, or why there is none.
pub fn check_sessions_root(root: &SessionsRoot) -> (r: Result<String, String>)
    ensures
        text_outcome(r) == sessions_root_view(*root),
{
    match root {
        SessionsRoot::Unresolved(e) => {
            let mut m = string_of(RESOLVE_ROOT);
            m.append(e.as_str());
            Err(m)
        },
        SessionsRoot::Resolved { canonical, is_dir } => {
            if *is_dir {
                Ok(string_of(canonical.as_str()))
            } else {
                Err(string_of(ROOT_NOT_DIR))
            }
        },
    }
}

/// What the disk says about one rollout name.
#[derive(Debug)]
pub enum FileProbe {
    /// Nothing exists under the name.
    Missing,
    /// It exists but could not be resolved, with the error's description.
    Unresolved(String),
    /// Its canonical path, and whether that is a regular file.
    Resolved { canonical: String, is_file: bool },
}

/// One rollout name and what the disk says about it.
#[derive(Debug)]
pub struct LocalCandidate {
    pub path: String,
    pub probe: FileProbe,
}

/// `done` followed by the names of a successful rest.
pub open spec fn after(done: Seq<Seq<char>>, rest: Result<Seq<Seq<char>>, Seq<char>>) -> Result<Seq<Seq<char>>, Seq<char>> {
    match rest {
        Ok(names) => Ok(done + names),
        Err(e) => Err(e),
    }
}

/// The names to remove among candidates `i..`, in order, stopping at the
/// first candidate that cannot be removed safely.
pub open spec fn removable_from(root: Seq<char>, c: Seq<LocalCandidate>, i: int) -> Result<Seq<Seq<char>>, Seq<char>>
    decreases c.len() - i,
{
    if i < 0 || i >= c.len() {
        Ok(seq![])
    } else {
        match c[i].probe {
            FileProbe::Missing => removable_from(root, c, i + 1),
            FileProbe::Unresolved(e) => Err(RESOLVE_FILE@ + e@),
            FileProbe::Resolved { canonical, is_file } => if !path_starts_with(canonical@, root) {
                Err(OUTSIDE_SESSIONS@)
            } else if !is_file {
                Err(NOT_A_FILE@)
            } else {
                after(seq![c[i].path@], removable_from(root, c, i + 1))
            },
        }
    }
}

/// What `local_delete_targets` gives: the existing names, all resolving to
/// regular files below the sessions directory, or an error.
pub open spec fn local_targets_view(root: Seq<char>, c: Seq<LocalCandidate>) -> Result<Seq<Seq<char>>, Seq<char>> {
    match removable_from(root, c, 0) {
        Ok(names) => if names.len() == 0 {
            Err(SESSION_FILE_NOT_FOUND@)
        } else {
            Ok(names)
        },
        Err(e) => Err(e),
    }
}

/// The texts of a list result, or the error text.
pub open spec fn list_outcome(r: Result<Vec<String>, String>) -> Result<Seq<Seq<char>>, Seq<char>> {
    match r {
        Ok(v) => Ok(v@.map_values(|s: String| s@)),
        Err(e) => Err(e@),
    }
}

/// Decides which rollout names to remove below the canonical sessions
/// directory `root`: every existing name must resolve to a regular file
/// inside it, and at least one must exist.
pub fn local_delete_targets(root: &str, candidates: &Vec<LocalCandidate>) -> (r: Result<
    Vec<String>,
    String,
>)
    ensures
        list_outcome(r) == local_targets_view(root@, candidates@),
{
    let root_chars = chars_of(root);
    let mut out: Vec<String> = Vec::new();
    let mut i: usize = 0;
    while i < candidates.len()
        invariant
            i <= candidates.len(),
            root_chars@ == root@,
            removable_from(root@, candidates@, 0) == after(
                out@.map_values(|s: String| s@),
                removable_from(root@, candidates@, i as int),
            ),
        decreases candidates.len() - i,
    {
        let ghost done = out@.map_values(|s: String| s@);
        match &candidates[i].probe {
            FileProbe::Missing => {},
            FileProbe::Unresolved(e) => {
                let mut m = string_of(RESOLVE_FILE);
                m.append(e.as_str());
                return Err(m);
            },
            FileProbe::Resolved { canonical, is_file } => {
                let c = chars_of(canonical.as_str());
                if !starts_with_path(&c, &root_chars) {
                    return Err(string_of(OUTSIDE_SESSIONS));
                }
                if !*is_file {
                    return Err(string_of(NOT_A_FILE));
                }
                out.push(string_of(candidates[i].path.as_str()));
                assert(out@.map_values(|s: String| s@) =~= done + seq![candidates@[i as int].path@]);
                proof {
                    let rest = removable_from(root@, candidates@, i + 1);
                    match rest {
                        Ok(names) => {
                            assert(done + (seq![candidates@[i as int].path@] + names) =~= (done
                                + seq![candidates@[i as int].path@]) + names);
                        },
                        Err(e) => {},
                    }
                }
            },
        }
        i += 1;
    }
    assert(removable_from(root@, candidates@, i as int) == Ok::<Seq<Seq<char>>, Seq<char>>(
        seq![],
    ));
    assert(out@.map_values(|s: String| s@) + Seq::<Seq<char>>::empty() =~= out@.map_values(
        |s: String| s@,
    ));
    if out.len() == 0 {
        return Err(string_of(SESSION_FILE_NOT_FOUND));
    }
    Ok(out)
}

} // verus!
