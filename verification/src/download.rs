//! Fetching one remote rollout for full parsing: which file to read, under
//! which local name to keep it, and the scratch directory it goes into.
use vstd::prelude::*;
use crate::commands::{read_remote_file, SshRequest, CAT};
use crate::remote::{
    parse_spec, parse_spec_view, remote_file_path, remote_file_path_view, shell_path_view,
    RemoteSpec,
};
use crate::text::{chars_of, string_from_range, string_of};
use crate::unix_path::{file_name_range, path_file_name};

verus! {

pub const REMOTE_NO_FILE_NAME: &'static str = "remote session path has no file name";

pub const SCRATCH_PREFIX: &'static str = "codex-trace-remote-";

pub const DASH: &'static str = "-";

/// What to fetch for one remote rollout.
#[derive(Debug)]
pub struct RemoteDownload {
    /// The parsed source.
    pub spec: RemoteSpec,
    /// The rollout's path on the remote host.
    pub remote_path: String,
    /// The name to keep the local copy under.
    pub file_name: String,
    /// The request that prints the rollout's bytes.
    pub request: SshRequest,
}

/// What `parse_remote_session` decides: the host, the source path, the
/// rollout path and the local file name.
pub open spec fn download_view(v: Seq<char>) -> Result<(Seq<char>, Seq<char>, Seq<char>, Seq<char>), Seq<char>> {
    match parse_spec_view(v) {
        Err(e) => Err(e),
        Ok((h, p)) => match remote_file_path_view(p) {
            Err(e) => Err(e),
            Ok(f) => match path_file_name(f) {
                None => Err(REMOTE_NO_FILE_NAME@),
                Some(name) => Ok((h, p, f, name)),
            },
        },
    }
}

/// The fields of a download plan, or the error text.
pub open spec fn download_outcome(r: Result<RemoteDownload, String>) -> Result<(Seq<char>, Seq<char>, Seq<char>, Seq<char>), Seq<char>> {
    match r {
        Ok(d) => Ok((d.spec.host@, d.spec.path@, d.remote_path@, d.file_name@)),
        Err(e) => Err(e@),
    }
}

/// Plans fetching the rollout an `ssh://` location points to: the rollout
/// path is checked, and the request reads it with `cat`.
pub fn parse_remote_session(spec_value: &str) -> (r: Result<RemoteDownload, String>)
    ensures
        download_outcome(r) == download_view(spec_value@),
        r matches Ok(d) ==> d.request.host@ == d.spec.host@ && d.request.command@ == CAT@
            + shell_path_view(d.remote_path@),
{
    let spec = parse_spec(spec_value)?;
    let remote_path = remote_file_path(spec.path.as_str())?;
    let v = chars_of(remote_path.as_str());
    assert(v@.subrange(0, v@.len() as int) =~= v@);
    let file_name = match file_name_range(&v, v.len()) {
        Some((a, b)) => string_from_range(&v, a, b),
        None => {
            return Err(string_of(REMOTE_NO_FILE_NAME));
        },
    };
    let request = read_remote_file(spec.host.as_str(), remote_path.as_str());
    Ok(RemoteDownload { spec, remote_path, file_name, request })
}

/// The name of a fresh scratch directory for remote data of one kind:
/// `codex-trace-remote-<label>-<id>`, where `id` is the text of a freshly
/// drawn random UUID.
pub fn temporary_root_name(label: &str, id: &str) -> (r: String)
    ensures
        r@ == SCRATCH_PREFIX@ + label@ + DASH@ + id@,
{
    let mut name = string_of(SCRATCH_PREFIX);
    name.append(label);
    name.append(DASH);
    name.append(id);
    name
}

/// The path and title a fetched rollout is shown with: its `ssh://`
/// location, so that it is reloaded from there, and the title from the
/// remote index when that has one, otherwise the title parsed from the
/// rollout.
pub fn merged_session_fields(
    location: &str,
    parsed_title: Option<String>,
    index_title: Option<String>,
) -> (r: (String, Option<String>))
    ensures
        r.0@ == location@,
        r.1 == (if index_title is Some {
            index_title
        } else {
            parsed_title
        }),
{
    let title = match index_title {
        Some(t) => Some(t),
        None => parsed_title,
    };
    (string_of(location), title)
}

} // verus!
