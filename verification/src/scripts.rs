//! The Python programs run on the remote host. Each reads its target path
//! from `sys.argv[1]` and prints its findings to standard output.

use vstd::prelude::*;

verus! {

/// Full metadata scan: reads every record of every rollout to count turns,
/// tokens and workers, and prints one JSON object per session.
pub const REMOTE_DISCOVERY_FULL_SCRIPT: &'static str = r#"
import json, os, shutil, subprocess, sys, time

root = os.path.expanduser(sys.argv[1])
now = time.time()
zstd_binary = shutil.which('zstd')
try:
    import zstandard
except ImportError:
    zstandard = None

class ZstdStream:
    def __init__(self, path):
        self.compressed = open(path, 'rb')
        self.reader = zstandard.ZstdDecompressor().stream_reader(self.compressed)

    def __iter__(self):
        return self

    def __next__(self):
        raw = self.reader.readline()
        if not raw:
            raise StopIteration
        return raw

    def close(self):
        self.reader.close()
        self.compressed.close()

def stream(path):
    if path.endswith('.zst'):
        if zstd_binary:
            return subprocess.Popen([zstd_binary, '-q', '-dc', path], stdout=subprocess.PIPE, stderr=subprocess.DEVNULL).stdout
        if zstandard:
            return ZstdStream(path)
        raise RuntimeError('compressed rollout requires zstd or Python zstandard')
    return open(path, 'rb')

def text(value):
    return value if isinstance(value, str) else None

# Codex Desktop keeps user-facing titles in the sibling session_index.jsonl,
# not in rollout files. Read it once so discovery returns the same names as the
# local Desktop session picker. Missing/malformed index lines are harmless.
index_titles = {}
index_path = os.path.join(os.path.dirname(root), 'session_index.jsonl')
try:
    with open(index_path, 'r', encoding='utf-8') as index:
        for raw in index:
            try:
                value = json.loads(raw)
            except Exception:
                continue
            session_id = text(value.get('id'))
            title = text(value.get('thread_name') or value.get('title'))
            if session_id and title and title.strip():
                index_titles[session_id] = title.strip()
except OSError:
    pass

for dirpath, _, names in os.walk(root):
    for name in names:
        if not (name.startswith('rollout-') and (name.endswith('.jsonl') or name.endswith('.jsonl.zst'))):
            continue
        path = os.path.join(dirpath, name)
        try:
            fh = stream(path)
            first = None
            turns = 0
            model = None
            thread_name = None
            total_tokens = None
            end_time = None
            ongoing = False
            has_end = False
            spawned = []
            for raw in fh:
                try:
                    value = json.loads(raw)
                except Exception:
                    continue
                if first is None:
                    first = value
                typ = value.get('type')
                payload = value.get('payload') or {}
                if typ == 'session_end':
                    has_end = True
                    ongoing = False
                    end_time = end_time or text(value.get('timestamp'))
                elif typ == 'event_msg':
                    event = payload.get('type')
                    if event == 'task_started':
                        turns += 1
                        ongoing = not has_end
                        end_time = None
                    elif event == 'user_message' and turns == 0:
                        turns = 1
                        ongoing = not has_end
                        end_time = None
                    elif event == 'task_complete':
                        ongoing = False
                        end_time = text(value.get('timestamp'))
                        if total_tokens is None:
                            total_tokens = payload.get('total_tokens')
                    elif event in ('turn_aborted', 'token_budget_abort', 'inference_stream_cancelled'):
                        ongoing = False
                        end_time = text(value.get('timestamp'))
                    elif event == 'token_count':
                        info = payload.get('info') or {}
                        usage = info.get('total_token_usage') or {}
                        total_tokens = usage.get('total_tokens', total_tokens)
                    elif event == 'thread_name_updated':
                        thread_name = text(payload.get('thread_name'))
                    elif event == 'collab_agent_spawn_end':
                        new_id = payload.get('new_session_id') or payload.get('new_thread_id')
                        if isinstance(new_id, str) and new_id and new_id not in spawned:
                            spawned.append(new_id)
                elif typ == 'turn_context':
                    model = text(payload.get('model')) or model
            try:
                fh.close()
            except Exception:
                pass
            if not first:
                continue
            meta = first.get('payload') or first
            session_id = text(meta.get('id')) or text(meta.get('session_id')) or text((meta.get('thread') or {}).get('sessionId'))
            if not session_id:
                continue
            thread_name = index_titles.get(session_id) or thread_name
            start_time = text(meta.get('timestamp')) or text(first.get('timestamp')) or ''
            try:
                ongoing = ongoing and (now - os.path.getmtime(path) <= 60) and not has_end and turns > 0
            except Exception:
                ongoing = False
            source = meta.get('source')
            source_subagent = source.get('subagent') if isinstance(source, dict) else None
            print(json.dumps({
                'id': session_id,
                'path': os.path.relpath(path, root),
                'cwd': text(meta.get('cwd')),
                'git_branch': text((meta.get('git') or {}).get('branch')),
                'originator': text(meta.get('originator')),
                'model': model,
                'cli_version': text(meta.get('cli_version')),
                'thread_name': thread_name,
                'turn_count': turns,
                'start_time': start_time,
                'end_time': end_time,
                'total_tokens': total_tokens,
                'is_ongoing': ongoing,
                'is_external_worker': bool(source_subagent),
                'is_inline_worker': False,
                'worker_nickname': None,
                'worker_role': None,
                'spawned_worker_ids': spawned,
                'date_group': '/'.join(os.path.relpath(os.path.dirname(path), root).split(os.sep)[-3:]),
                'ai_title': text(meta.get('ai-title')),
                'is_headless': meta.get('originator') == 'remote-control' or source == 'remote-control',
                'is_archived': bool(meta.get('archived', False)),
                'approval_mode': text(meta.get('ask_for_approval')),
                'history_base_thread_id': text((meta.get('history_base') or {}).get('thread_id')),
                'forked_from_thread_id': text(meta.get('forked_from_id')),
                'mentioned_thread_ids': [],
            }, separators=(',', ':')), flush=True)
        except Exception:
            continue
"#;

/// Fast picker scan: reads only the first record of each rollout and prints
/// one JSON object per session.
pub const REMOTE_DISCOVERY_FAST_SCRIPT: &'static str = r#"
import json, os, shutil, subprocess, sys

root = os.path.expanduser(sys.argv[1])
zstd_binary = shutil.which('zstd')
try:
    import zstandard
except ImportError:
    zstandard = None

def text(value):
    return value if isinstance(value, str) else None

def first_record(path):
    try:
        if path.endswith('.zst'):
            if zstd_binary:
                process = subprocess.Popen(
                    [zstd_binary, '-q', '-dc', path],
                    stdout=subprocess.PIPE,
                    stderr=subprocess.DEVNULL,
                )
                raw = process.stdout.readline()
                process.kill()
                process.wait()
            elif zstandard:
                with open(path, 'rb') as compressed:
                    reader = zstandard.ZstdDecompressor().stream_reader(compressed)
                    raw = reader.readline()
                    reader.close()
            else:
                return None
        else:
            with open(path, 'rb') as stream:
                raw = stream.readline()
        return json.loads(raw) if raw else None
    except Exception:
        return None

index_titles = {}
index_path = os.path.join(os.path.dirname(root), 'session_index.jsonl')
try:
    with open(index_path, 'r', encoding='utf-8') as index:
        for raw in index:
            try:
                value = json.loads(raw)
            except Exception:
                continue
            session_id = text(value.get('id'))
            title = text(value.get('thread_name') or value.get('title'))
            if session_id and title and title.strip():
                index_titles[session_id] = title.strip()
except OSError:
    pass

for dirpath, _, names in os.walk(root):
    for name in names:
        if not (name.startswith('rollout-') and (name.endswith('.jsonl') or name.endswith('.jsonl.zst'))):
            continue
        path = os.path.join(dirpath, name)
        first = first_record(path)
        if not first:
            continue
        meta = first.get('payload') or first
        session_id = text(meta.get('id')) or text(meta.get('session_id')) or text((meta.get('thread') or {}).get('sessionId'))
        if not session_id:
            continue
        source = meta.get('source')
        source_subagent = source.get('subagent') if isinstance(source, dict) else None
        relative_dir = os.path.relpath(os.path.dirname(path), root)
        print(json.dumps({
            'id': session_id,
            'path': os.path.relpath(path, root),
            'cwd': text(meta.get('cwd')),
            'git_branch': text((meta.get('git') or {}).get('branch')),
            'originator': text(meta.get('originator')),
            'model': None,
            'cli_version': text(meta.get('cli_version')),
            'thread_name': index_titles.get(session_id),
            'turn_count': 0,
            'start_time': text(meta.get('timestamp')) or text(first.get('timestamp')) or '',
            'end_time': None,
            'total_tokens': None,
            'is_ongoing': False,
            'is_external_worker': bool(source_subagent),
            'is_inline_worker': False,
            'worker_nickname': None,
            'worker_role': None,
            'spawned_worker_ids': [],
            'date_group': '/'.join(relative_dir.split(os.sep)[-3:]),
            'ai_title': text(meta.get('ai-title')),
            'is_headless': meta.get('originator') == 'remote-control' or source == 'remote-control',
            'is_archived': bool(meta.get('archived', False)),
            'approval_mode': text(meta.get('ask_for_approval')),
            'history_base_thread_id': text((meta.get('history_base') or {}).get('thread_id')),
            'forked_from_thread_id': text(meta.get('forked_from_id')),
            'mentioned_thread_ids': [],
        }, separators=(',', ':')), flush=True)
"#;

/// Fingerprint of the rollout tree and of `session_index.jsonl`: relative
/// path, size, modification time and inode of each file, sorted.
pub const REMOTE_SNAPSHOT_SCRIPT: &'static str = r#"
import os, sys
root = os.path.expanduser(sys.argv[1])
rows = []
for dirpath, _, names in os.walk(root):
    for name in names:
        if name.startswith('rollout-') and (name.endswith('.jsonl') or name.endswith('.jsonl.zst')):
            path = os.path.join(dirpath, name)
            try:
                stat = os.stat(path)
                rows.append(f'{os.path.relpath(path, root)}:{stat.st_size}:{stat.st_mtime_ns}:{stat.st_ino}')
            except OSError:
                pass
index_path = os.path.join(os.path.dirname(root), 'session_index.jsonl')
try:
    stat = os.stat(index_path)
    rows.append(f'../session_index.jsonl:{stat.st_size}:{stat.st_mtime_ns}:{stat.st_ino}')
except OSError:
    pass
print('\n'.join(sorted(rows)))
"#;

/// Fingerprint of one file: size, modification time and inode.
pub const REMOTE_FILE_SNAPSHOT_SCRIPT: &'static str = r#"
import os, sys
path = os.path.expanduser(sys.argv[1])
stat = os.stat(path)
print(f'{stat.st_size}:{stat.st_mtime_ns}:{stat.st_ino}')
"#;

} // verus!
