//! The commands run on a remote host through the user's OpenSSH client.
//!
//! Every remote operation is first turned into an [`SshRequest`]: the host to
//! connect to and the one shell command to run there. Running the request,
//! with the arguments from [`ssh_arguments`], is left to the caller.
use vstd::prelude::*;
use vstd::utf8::{decode_utf8, valid_utf8};
use crate::remote::{
    delete_target_view, index_path_view, parse_spec, parse_spec_view, remote_file_path,
    remote_file_path_view, remote_index_path, shell_path, shell_path_view, text_outcome,
    validate_remote_delete_target, RemoteSpec, CONTROL_PATH,
};
use crate::scripts::{
    REMOTE_DISCOVERY_FAST_SCRIPT, REMOTE_DISCOVERY_FULL_SCRIPT, REMOTE_FILE_SNAPSHOT_SCRIPT,
    REMOTE_SNAPSHOT_SCRIPT,
};
use crate::text::{chars_of, string_from_range, string_of, trim_range, trim_ws};

verus! {

pub const PYTHON_HEAD: &'static str = "python3 - ";

pub const HEREDOC_OPEN: &'static str = " <<'PY'\n";

pub const HEREDOC_CLOSE: &'static str = "\nPY";

pub const TEST_DIR: &'static str = "test -d ";

pub const CAT: &'static str = "cat -- ";

pub const DELETE_HEAD: &'static str = "if [ ! -e ";

pub const DELETE_AND: &'static str = " ] && [ ! -e ";

pub const DELETE_THEN: &'static str = " ]; then echo 'remote session file does not exist' >&2; exit 1; fi; rm -f -- ";

pub const SPACE: &'static str = " ";

pub const OPTION_FLAG: &'static str = "-o";

pub const BATCH_MODE: &'static str = "BatchMode=yes";

pub const CONNECT_TIMEOUT: &'static str = "ConnectTimeout=10";

pub const COMPRESSION: &'static str = "Compression=yes";

pub const CONTROL_MASTER: &'static str = "ControlMaster=auto";

pub const CONTROL_PERSIST: &'static str = "ControlPersist=60";

pub const CONTROL_PATH_OPTION: &'static str = "ControlPath=";

pub const SSH_FAILED_HEAD: &'static str = "ssh connection to ";

pub const SSH_FAILED_STATUS: &'static str = " failed (";

pub const SSH_FAILED_STATUS_END: &'static str = ")";

pub const SSH_FAILED_DETAIL: &'static str = " failed: ";

pub const BAD_SESSIONS_SNAPSHOT: &'static str = "invalid remote sessions snapshot: ";

pub const BAD_FILE_SNAPSHOT: &'static str = "invalid remote file snapshot: ";

pub const CACHE_KEY_SEPARATOR: &'static str = ":";

/// One command to run on one host.
#[derive(Debug)]
pub struct SshRequest {
    pub host: String,
    pub command: String,
}

/// The host and command of a request, or the error text.
pub open spec fn request_outcome(r: Result<SshRequest, String>) -> Result<(Seq<char>, Seq<char>), Seq<char>> {
    match r {
        Ok(q) => Ok((q.host@, q.command@)),
        Err(e) => Err(e@),
    }
}

/// `python3 - <path> <<'PY'` followed by the program and the closing `PY`.
pub open spec fn python_command_view(path: Seq<char>, script: Seq<char>) -> Seq<char> {
    PYTHON_HEAD@ + shell_path_view(path) + HEREDOC_OPEN@ + script + HEREDOC_CLOSE@
}

/// A request for the source `v` whose command comes from its path.
pub open spec fn on_source(v: Seq<char>, command: spec_fn(Seq<char>) -> Seq<char>) -> Result<(Seq<char>, Seq<char>), Seq<char>> {
    match parse_spec_view(v) {
        Ok((h, p)) => Ok((h, command(p))),
        Err(e) => Err(e),
    }
}

/// The command that removes whichever of two rollout names exist, and fails
/// when neither does.
pub open spec fn delete_command_view(plain: Seq<char>, compressed: Seq<char>) -> Seq<char> {
    DELETE_HEAD@ + shell_path_view(plain) + DELETE_AND@ + shell_path_view(compressed)
        + DELETE_THEN@ + shell_path_view(plain) + SPACE@ + shell_path_view(compressed)
}

/// What `delete_remote_session` gives.
pub open spec fn delete_remote_view(dir: Seq<char>, path: Seq<char>) -> Result<(Seq<char>, Seq<char>), Seq<char>> {
    match parse_spec_view(dir) {
        Err(e) => Err(e),
        Ok((rh, rp)) => match parse_spec_view(path) {
            Err(e) => Err(e),
            Ok((th, tp)) => match delete_target_view(rh, rp, th, tp) {
                Err(e) => Err(e),
                Ok((a, b)) => Ok((rh, delete_command_view(a, b))),
            },
        },
    }
}

/// What `remote_file_snapshot` gives.
pub open spec fn file_snapshot_view(v: Seq<char>) -> Result<(Seq<char>, Seq<char>), Seq<char>> {
    match parse_spec_view(v) {
        Err(e) => Err(e),
        Ok((h, p)) => match remote_file_path_view(p) {
            Err(e) => Err(e),
            Ok(f) => Ok((h, python_command_view(f, REMOTE_FILE_SNAPSHOT_SCRIPT@))),
        },
    }
}

/// The arguments handed to `ssh`: non-interactive, a ten second connect
/// timeout, compression, and a shared control connection kept for a minute.
pub open spec fn ssh_arguments_view(host: Seq<char>, command: Seq<char>) -> Seq<Seq<char>> {
    seq![
        OPTION_FLAG@,
        BATCH_MODE@,
        OPTION_FLAG@,
        CONNECT_TIMEOUT@,
        OPTION_FLAG@,
        COMPRESSION@,
        OPTION_FLAG@,
        CONTROL_MASTER@,
        OPTION_FLAG@,
        CONTROL_PERSIST@,
        OPTION_FLAG@,
        CONTROL_PATH_OPTION@ + CONTROL_PATH@,
        host,
        command,
    ]
}

/// The message for a failed `ssh` run: the trimmed error output when there
/// is any, the exit status otherwise.
pub open spec fn ssh_failure_view(host: Seq<char>, detail: Seq<char>, status: Seq<char>) -> Seq<char> {
    if trim_ws(detail).len() == 0 {
        SSH_FAILED_HEAD@ + host + SSH_FAILED_STATUS@ + status + SSH_FAILED_STATUS_END@
    } else {
        SSH_FAILED_HEAD@ + host + SSH_FAILED_DETAIL@ + trim_ws(detail)
    }
}

/// `python3 - <path> <<'PY' ... PY` for a program and the path it reads.
pub fn python_command(path: &str, script: &str) -> (r: String)
    ensures
        r@ == python_command_view(path@, script@),
{
    let mut out = string_of(PYTHON_HEAD);
    let word = shell_path(path);
    out.append(word.as_str());
    out.append(HEREDOC_OPEN);
    out.append(script);
    out.append(HEREDOC_CLOSE);
    out
}

/// The command that runs a discovery program over a sessions directory.
pub fn remote_discovery_command(spec: &RemoteSpec, discovery_script: &str) -> (r: String)
    ensures
        r@ == python_command_view(spec.path@, discovery_script@),
{
    python_command(spec.path.as_str(), discovery_script)
}

/// The request that prints the bytes of one remote file.
pub fn read_remote_file(host: &str, path: &str) -> (r: SshRequest)
    ensures
        r.host@ == host@,
        r.command@ == CAT@ + shell_path_view(path@),
{
    let mut command = string_of(CAT);
    let word = shell_path(path);
    command.append(word.as_str());
    SshRequest { host: string_of(host), command }
}

/// The request that lists one metadata record per rollout, read from the
/// first record of each file only.
pub fn discover_remote_sessions(spec_value: &str) -> (r: Result<SshRequest, String>)
    ensures
        request_outcome(r) == on_source(
            spec_value@,
            |p: Seq<char>| python_command_view(p, REMOTE_DISCOVERY_FAST_SCRIPT@),
        ),
{
    let spec = parse_spec(spec_value)?;
    let command = remote_discovery_command(&spec, REMOTE_DISCOVERY_FAST_SCRIPT);
    Ok(SshRequest { host: spec.host, command })
}

/// The request that lists one metadata record per rollout, with turns,
/// model, tokens, ongoing state and spawned workers counted over the
/// whole file.
pub fn discover_remote_sessions_full(spec_value: &str) -> (r: Result<SshRequest, String>)
    ensures
        request_outcome(r) == on_source(
            spec_value@,
            |p: Seq<char>| python_command_view(p, REMOTE_DISCOVERY_FULL_SCRIPT@),
        ),
{
    let spec = parse_spec(spec_value)?;
    let command = remote_discovery_command(&spec, REMOTE_DISCOVERY_FULL_SCRIPT);
    Ok(SshRequest { host: spec.host, command })
}

/// The cheap request that checks credentials and that the sessions
/// directory exists.
pub fn test_connection(spec_value: &str) -> (r: Result<SshRequest, String>)
    ensures
        request_outcome(r) == on_source(
            spec_value@,
            |p: Seq<char>| TEST_DIR@ + shell_path_view(p),
        ),
{
    let spec = parse_spec(spec_value)?;
    let mut command = string_of(TEST_DIR);
    let word = shell_path(spec.path.as_str());
    command.append(word.as_str());
    Ok(SshRequest { host: spec.host, command })
}

/// The request that deletes one remote rollout and its plain or compressed
/// sibling. Both the sessions directory and the selected file are checked
/// first, so the command never names a file outside the configured tree or
/// on another host.
pub fn delete_remote_session(sessions_dir: &str, session_path: &str) -> (r: Result<
    SshRequest,
    String,
>)
    ensures
        request_outcome(r) == delete_remote_view(sessions_dir@, session_path@),
{
    let root = parse_spec(sessions_dir)?;
    let target = parse_spec(session_path)?;
    let variants = validate_remote_delete_target(&root, &target)?;
    let plain = shell_path(variants[0].as_str());
    let compressed = shell_path(variants[1].as_str());
    let mut command = string_of(DELETE_HEAD);
    command.append(plain.as_str());
    command.append(DELETE_AND);
    command.append(compressed.as_str());
    command.append(DELETE_THEN);
    command.append(plain.as_str());
    command.append(SPACE);
    command.append(compressed.as_str());
    Ok(SshRequest { host: root.host, command })
}

/// The key under which titles read from a source's `session_index.jsonl`
/// are cached: `host:index_path`.
pub fn title_cache_key(spec: &RemoteSpec) -> (r: String)
    ensures
        r@ == spec.host@ + CACHE_KEY_SEPARATOR@ + index_path_view(spec.path@),
{
    let mut key = string_of(spec.host.as_str());
    key.append(CACHE_KEY_SEPARATOR);
    let index = remote_index_path(spec.path.as_str());
    key.append(index.as_str());
    key
}

/// The request that fingerprints a remote rollout tree without reading the
/// rollouts themselves.
pub fn remote_sessions_snapshot(spec_value: &str) -> (r: Result<SshRequest, String>)
    ensures
        request_outcome(r) == on_source(
            spec_value@,
            |p: Seq<char>| python_command_view(p, REMOTE_SNAPSHOT_SCRIPT@),
        ),
{
    let spec = parse_spec(spec_value)?;
    let command = python_command(spec.path.as_str(), REMOTE_SNAPSHOT_SCRIPT);
    Ok(SshRequest { host: spec.host, command })
}

/// The request that fingerprints one remote rollout.
pub fn remote_file_snapshot(spec_value: &str) -> (r: Result<SshRequest, String>)
    ensures
        request_outcome(r) == file_snapshot_view(spec_value@),
{
    let spec = parse_spec(spec_value)?;
    let remote_path = remote_file_path(spec.path.as_str())?;
    let command = python_command(remote_path.as_str(), REMOTE_FILE_SNAPSHOT_SCRIPT);
    Ok(SshRequest { host: spec.host, command })
}

/// The arguments to hand to `ssh` for one request.
pub fn ssh_arguments(host: &str, command: &str) -> (r: Vec<String>)
    ensures
        r@.map_values(|s: String| s@) == ssh_arguments_view(host@, command@),
{
    let mut args: Vec<String> = Vec::new();
    args.push(string_of(OPTION_FLAG));
    args.push(string_of(BATCH_MODE));
    args.push(string_of(OPTION_FLAG));
    args.push(string_of(CONNECT_TIMEOUT));
    args.push(string_of(OPTION_FLAG));
    args.push(string_of(COMPRESSION));
    args.push(string_of(OPTION_FLAG));
    args.push(string_of(CONTROL_MASTER));
    args.push(string_of(OPTION_FLAG));
    args.push(string_of(CONTROL_PERSIST));
    args.push(string_of(OPTION_FLAG));
    let mut control = string_of(CONTROL_PATH_OPTION);
    control.append(CONTROL_PATH);
    args.push(control);
    args.push(string_of(host));
    args.push(string_of(command));
    assert(args@.map_values(|s: String| s@) =~= ssh_arguments_view(host@, command@));
    args
}

/// What `String::from_utf8_lossy` makes of a byte string: the decoded text,
/// with each invalid sequence replaced by U+FFFD.
pub uninterp spec fn lossy_decode(bytes: Seq<u8>) -> Seq<char>;

/// `String::from_utf8_lossy`, owned: its text is the named lossy decoding of
/// the bytes, and equals their decoding when they are valid UTF-8.
#[verifier::external_body]
fn lossy_text(bytes: &[u8]) -> (r: String)
    ensures
        r@ == lossy_decode(bytes@),
        valid_utf8(bytes@) ==> r@ == decode_utf8(bytes@),
{
    String::from_utf8_lossy(bytes).into_owned()
}

/// The message for an `ssh` run that did not succeed, from its decoded error
/// output and its exit status as text: the trimmed error output, or the
/// status when there is none.
pub fn ssh_failure_text(host: &str, detail: &str, status: &str) -> (r: String)
    ensures
        r@ == ssh_failure_view(host@, detail@, status@),
{
    let v = chars_of(detail);
    let (a, b) = trim_range(&v);
    let mut out = string_of(SSH_FAILED_HEAD);
    out.append(host);
    if a == b {
        out.append(SSH_FAILED_STATUS);
        out.append(status);
        out.append(SSH_FAILED_STATUS_END);
    } else {
        out.append(SSH_FAILED_DETAIL);
        let trimmed = string_from_range(&v, a, b);
        out.append(trimmed.as_str());
    }
    out
}

/// The message for an `ssh` run that did not succeed, from its raw error
/// output (decoded lossily) and its exit status as text.
pub fn ssh_failure_message(host: &str, stderr: &[u8], status: &str) -> (r: String)
    ensures
        r@ == ssh_failure_view(host@, lossy_decode(stderr@), status@),
        valid_utf8(stderr@) ==> r@ == ssh_failure_view(host@, decode_utf8(stderr@), status@),
{
    let detail = lossy_text(stderr);
    ssh_failure_text(host, detail.as_str(), status)
}

/// The text of the error `String::from_utf8` reports for bytes that are not
/// valid UTF-8 (the error's `Display`).
pub uninterp spec fn utf8_error_text(bytes: Seq<u8>) -> Seq<char>;

/// `String::from_utf8`: the text when the bytes are valid UTF-8, otherwise
/// the error's description, named by `utf8_error_text`.
#[verifier::external_body]
fn utf8_text(bytes: Vec<u8>) -> (r: Result<String, String>)
    ensures
        r is Ok <==> valid_utf8(bytes@),
        r matches Ok(s) ==> s@ == decode_utf8(bytes@),
        r matches Err(e) ==> e@ == utf8_error_text(bytes@),
{
    String::from_utf8(bytes).map_err(|e| e.to_string())
}

/// A snapshot as text: the decoded text as it is, or the decoding error
/// behind `prefix`.
pub fn snapshot_outcome(prefix: &str, decoded: Result<String, String>) -> (r: Result<String, String>)
    ensures
        text_outcome(r) == match decoded {
            Ok(s) => Ok::<Seq<char>, Seq<char>>(s@),
            Err(e) => Err(prefix@ + e@),
        },
{
    match decoded {
        Ok(s) => Ok(s),
        Err(e) => {
            let mut m = string_of(prefix);
            m.append(e.as_str());
            Err(m)
        },
    }
}

/// The fingerprint printed by the snapshot program, as text.
pub fn sessions_snapshot_text(output: Vec<u8>) -> (r: Result<String, String>)
    ensures
        text_outcome(r) == if valid_utf8(output@) {
            Ok::<Seq<char>, Seq<char>>(decode_utf8(output@))
        } else {
            Err(BAD_SESSIONS_SNAPSHOT@ + utf8_error_text(output@))
        },
{
    snapshot_outcome(BAD_SESSIONS_SNAPSHOT, utf8_text(output))
}

/// The fingerprint printed by the file snapshot program, as text.
pub fn file_snapshot_text(output: Vec<u8>) -> (r: Result<String, String>)
    ensures
        text_outcome(r) == if valid_utf8(output@) {
            Ok::<Seq<char>, Seq<char>>(decode_utf8(output@))
        } else {
            Err(BAD_FILE_SNAPSHOT@ + utf8_error_text(output@))
        },
{
    snapshot_outcome(BAD_FILE_SNAPSHOT, utf8_text(output))
}

} // verus!
