//! Properties that relate several operations of the library.
use vstd::prelude::*;
use crate::commands::{
    delete_command_view, delete_remote_view, file_snapshot_view, python_command_view,
};
use crate::download::download_view;
use crate::scripts::REMOTE_FILE_SNAPSHOT_SCRIPT;
use crate::remote::{
    escape_quotes, home_relative, index_path_view, is_host_char, join_remote_view,
    make_spec_view, parse_spec_view, quote_piece, relative_remote_view, remote_file_path_view,
    rollout_variants_view,
    shell_path_view, shell_quote_view, valid_host_spec, COMPRESSED_SUFFIX, HOME, PLAIN_SUFFIX,
    PREFIX, ROLLOUT_PREFIX, ZST_SUFFIX,
};
use crate::discovery::{
    bytes_lt, lemma_bytes_lt_irreflexive, lemma_bytes_lt_total, lemma_bytes_lt_transitive,
    newest_first_order, session_location_view,
};
use crate::lines::lines_view;
use crate::titles::{
    cached_title_view, index_entries_view, index_entry_view, latest_title, TITLE_CACHE_TTL_NANOS,
};
use vstd::set_lib::{lemma_int_range, lemma_subset_equality, set_int_range};
use crate::session::{
    local_targets_view, local_variants_view, removable_from, FileProbe, LocalCandidate,
};
use crate::text::{
    ends_with, is_whitespace, lemma_trim_end_char, starts_with, trim_end_char, trim_end_ws,
    trim_start_char, trim_start_ws, trim_ws,
};
use crate::unix_path::{
    body_start, first_sep, has_root, last_piece, last_sep, lemma_first_sep,
    lemma_first_sep_of_join, lemma_last_sep, lemma_parent_of_join, lemma_parent_of_trimmed,
    lemma_with_file_name, path_ancestor, path_components, path_file_name, path_join, path_parent,
    path_starts_with, plain_segment, trim_back, trimmed_path,
};

verus! {

/// How a POSIX shell reads a word made only of literal characters,
/// backslash escapes and single-quoted runs, outside any quotes. `None` when
/// the word holds an unquoted character that the shell would treat specially.
pub open spec fn sh_read_unquoted(s: Seq<char>) -> Option<Seq<char>>
    decreases s.len(), 0int,
{
    if s.len() == 0 {
        Some(seq![])
    } else if s[0] == '\'' {
        sh_read_quoted(s.drop_first())
    } else if s[0] == '\\' {
        if s.len() >= 2 {
            match sh_read_unquoted(s.skip(2)) {
                Some(r) => Some(seq![s[1]] + r),
                None => None,
            }
        } else {
            None
        }
    } else if sh_special(s[0]) {
        None
    } else {
        match sh_read_unquoted(s.drop_first()) {
            Some(r) => Some(seq![s[0]] + r),
            None => None,
        }
    }
}

/// How the shell reads the rest of a word inside single quotes, where every
/// character up to the closing quote stands for itself.
pub open spec fn sh_read_quoted(s: Seq<char>) -> Option<Seq<char>>
    decreases s.len(), 1int,
{
    if s.len() == 0 {
        None
    } else if s[0] == '\'' {
        sh_read_unquoted(s.drop_first())
    } else {
        match sh_read_quoted(s.drop_first()) {
            Some(r) => Some(seq![s[0]] + r),
            None => None,
        }
    }
}

/// Characters that mean something to the shell when unquoted.
pub open spec fn sh_special(c: char) -> bool {
    c == ' ' || c == '\t' || c == '\n' || c == '|' || c == '&' || c == ';' || c == '<' || c == '>'
        || c == '(' || c == ')' || c == '$' || c == '`' || c == '"' || c == '*' || c == '?' || c
        == '[' || c == '#' || c == '~' || c == '=' || c == '%' || c == '{' || c == '}'
}

proof fn lemma_escape_append(a: Seq<char>, b: Seq<char>)
    ensures
        escape_quotes(a + b) == escape_quotes(a) + escape_quotes(b),
    decreases b.len(),
{
    if b.len() == 0 {
        assert(a + b =~= a);
        assert(escape_quotes(b) =~= Seq::<char>::empty());
        assert(escape_quotes(a) + escape_quotes(b) =~= escape_quotes(a));
    } else {
        lemma_escape_append(a, b.drop_last());
        assert((a + b).drop_last() =~= a + b.drop_last());
        assert((a + b).last() == b.last());
        assert(escape_quotes(a) + escape_quotes(b) =~= escape_quotes(a) + escape_quotes(
            b.drop_last(),
        ) + quote_piece(b.last()));
    }
}

proof fn lemma_escape_front(v: Seq<char>)
    requires
        v.len() > 0,
    ensures
        escape_quotes(v) == quote_piece(v[0]) + escape_quotes(v.drop_first()),
{
    let one = seq![v[0]];
    assert(v =~= one + v.drop_first());
    lemma_escape_append(one, v.drop_first());
    assert(one.drop_last() =~= Seq::<char>::empty());
    assert(one.last() == v[0]);
    assert(escape_quotes(Seq::<char>::empty()) == Seq::<char>::empty());
    assert(escape_quotes(one) == escape_quotes(one.drop_last()) + quote_piece(one.last()));
    assert(escape_quotes(one) =~= quote_piece(v[0]));
}

/// Inside single quotes, the escaped text of `v` reads back as `v`, and the
/// shell goes on with whatever follows the closing quote.
proof fn lemma_read_escaped(v: Seq<char>, rest: Seq<char>)
    ensures
        sh_read_quoted(escape_quotes(v) + seq!['\''] + rest) == match sh_read_unquoted(rest) {
            Some(r) => Some(v + r),
            None => None,
        },
    decreases v.len(),
{
    if v.len() == 0 {
        assert(escape_quotes(v) + seq!['\''] + rest =~= seq!['\''] + rest);
        assert((seq!['\''] + rest).drop_first() =~= rest);
        match sh_read_unquoted(rest) {
            Some(r) => {
                assert(v + r =~= r);
            },
            None => {},
        }
    } else {
        let w = v.drop_first();
        lemma_escape_front(v);
        lemma_read_escaped(w, rest);
        let tail = escape_quotes(w) + seq!['\''] + rest;
        if v[0] == '\'' {
            let s = seq!['\'', '\\', '\'', '\''] + tail;
            assert(escape_quotes(v) + seq!['\''] + rest =~= s);
            let u = seq!['\\', '\'', '\''] + tail;
            assert(s.drop_first() =~= u);
            assert(sh_read_quoted(s) == sh_read_unquoted(u));
            let q = seq!['\''] + tail;
            assert(u.skip(2) =~= q);
            assert(u[1] == '\'');
            assert(sh_read_unquoted(u) == match sh_read_unquoted(q) {
                Some(r) => Some(seq!['\''] + r),
                None => None,
            });
            assert(q.drop_first() =~= tail);
            assert(sh_read_unquoted(q) == sh_read_quoted(tail));
            match sh_read_unquoted(rest) {
                Some(r) => {
                    assert(seq!['\''] + (w + r) =~= v + r);
                },
                None => {},
            }
        } else {
            let s = seq![v[0]] + tail;
            assert(escape_quotes(v) + seq!['\''] + rest =~= s);
            assert(s.drop_first() =~= tail);
            assert(sh_read_quoted(s) == match sh_read_quoted(tail) {
                Some(r) => Some(seq![v[0]] + r),
                None => None,
            });
        }
        match sh_read_unquoted(rest) {
            Some(r) => {
                assert(seq![v[0]] + (w + r) =~= v + r);
            },
            None => {},
        }
    }
}

/// A quoted word reads back as exactly the text that was quoted: no part of
/// the text can reach the remote shell as syntax.
pub proof fn law_shell_quote_reads_back(v: Seq<char>)
    ensures
        sh_read_unquoted(shell_quote_view(v)) == Some(v),
{
    lemma_read_escaped(v, seq![]);
    let s = shell_quote_view(v);
    assert(s.drop_first() =~= escape_quotes(v) + seq!['\''] + Seq::<char>::empty());
    assert(v + Seq::<char>::empty() =~= v);
}

/// A path found below a remote root, joined back onto that root, gives the
/// path again.
pub proof fn law_relative_then_join(root: Seq<char>, file: Seq<char>)
    requires
        relative_remote_view(root, file) is Some,
    ensures
        join_remote_view(root, relative_remote_view(root, file).unwrap()) == file,
{
    let r = trim_end_char(root, '/');
    let rel = file.skip(r.len() + 1int);
    assert(rel[0] != '/');
    assert(trim_start_char(rel, '/') == rel);
    assert(file.subrange(0, r.len() as int) == r);
    assert(r + seq!['/'] + rel =~= file);
}

/// A relative path that never climbs with `..`, joined onto a remote root,
/// is found below that root again.
pub proof fn law_join_then_relative(root: Seq<char>, rel: Seq<char>)
    requires
        rel.len() > 0,
        rel[0] != '/',
        !path_components(rel).contains(seq!['.', '.']),
    ensures
        relative_remote_view(root, join_remote_view(root, rel)) == Some(rel),
{
    let r = trim_end_char(root, '/');
    assert(trim_start_char(rel, '/') == rel);
    let file = join_remote_view(root, rel);
    assert(file =~= r + seq!['/'] + rel);
    assert(file.subrange(0, r.len() as int) =~= r);
    assert(file[r.len() as int] == '/');
    assert(file.skip(r.len() + 1int) =~= rel);
    assert(!has_root(rel));
}

/// A source that parses is a remote source.
pub proof fn law_parsed_sources_are_remote(v: Seq<char>)
    requires
        parse_spec_view(v) is Ok,
    ensures
        starts_with(v, PREFIX@),
{
}

/// A remote delete runs on the configured host and names only the plain
/// and compressed variants of the target rollout, both of which lie below
/// the configured sessions directory.
pub proof fn law_remote_delete_stays_inside(dir: Seq<char>, path: Seq<char>)
    requires
        delete_remote_view(dir, path) is Ok,
    ensures
        parse_spec_view(dir) is Ok,
        parse_spec_view(path) is Ok,
        parse_spec_view(path)->Ok_0.0 == parse_spec_view(dir)->Ok_0.0,
        rollout_variants_view(parse_spec_view(path)->Ok_0.1) is Ok,
        ({
            let (host, root) = parse_spec_view(dir)->Ok_0;
            let (plain, compressed) = rollout_variants_view(parse_spec_view(path)->Ok_0.1)->Ok_0;
            &&& relative_remote_view(root, plain) is Some
            &&& relative_remote_view(root, compressed) is Some
            &&& delete_remote_view(dir, path) == Ok::<(Seq<char>, Seq<char>), Seq<char>>(
                (host, delete_command_view(plain, compressed)),
            )
        }),
{
}

/// A candidate that may be removed: it resolves to a regular file below the
/// canonical sessions directory.
pub open spec fn removable(root: Seq<char>, c: LocalCandidate) -> bool {
    match c.probe {
        FileProbe::Resolved { canonical, is_file } => path_starts_with(canonical@, root) && is_file,
        _ => false,
    }
}

proof fn lemma_removable_from(root: Seq<char>, c: Seq<LocalCandidate>, i: int)
    requires
        0 <= i,
        removable_from(root, c, i) is Ok,
    ensures
        forall|k: int|
            0 <= k < removable_from(root, c, i)->Ok_0.len() ==> exists|j: int|
                i <= j < c.len() && c[j].path@ == #[trigger] removable_from(root, c, i)->Ok_0[k]
                    && removable(root, c[j]),
        forall|j: int|
            i <= j < c.len() && !(c[j].probe is Missing) ==> removable_from(
                root,
                c,
                i,
            )->Ok_0.contains(#[trigger] c[j].path@),
    decreases c.len() - i,
{
    if i < c.len() {
        lemma_removable_from(root, c, i + 1);
        let names = removable_from(root, c, i)->Ok_0;
        let rest = removable_from(root, c, i + 1)->Ok_0;
        match c[i].probe {
            FileProbe::Missing => {
                assert forall|j: int| i <= j < c.len() && !(c[j].probe is Missing) implies names.contains(
                    #[trigger] c[j].path@,
                ) by {
                    assert(j != i);
                }
            },
            FileProbe::Unresolved(_) => {},
            FileProbe::Resolved { canonical, is_file } => {
                assert(names =~= seq![c[i].path@] + rest);
                assert forall|k: int| 0 <= k < names.len() implies exists|j: int|
                    i <= j < c.len() && c[j].path@ == #[trigger] names[k] && removable(root, c[j]) by {
                    if k == 0 {
                        assert(names[k] == c[i].path@);
                    } else {
                        assert(names[k] == rest[k - 1]);
                    }
                }
                assert forall|j: int| i <= j < c.len() && !(c[j].probe is Missing) implies names.contains(
                    #[trigger] c[j].path@,
                ) by {
                    if j == i {
                        assert(names[0] == c[i].path@);
                    } else {
                        let k = choose|k: int| 0 <= k < rest.len() && rest[k] == c[j].path@;
                        assert(names[k + 1] == c[j].path@);
                    }
                }
            },
        }
    }
}

/// A local delete removes at least one name; every name it removes is one of
/// the candidates and resolves to a regular file below the sessions
/// directory; and every candidate that exists on disk is removed.
pub proof fn law_local_delete_stays_inside(root: Seq<char>, c: Seq<LocalCandidate>)
    requires
        local_targets_view(root, c) is Ok,
    ensures
        local_targets_view(root, c)->Ok_0.len() > 0,
        forall|k: int|
            0 <= k < local_targets_view(root, c)->Ok_0.len() ==> exists|j: int|
                0 <= j < c.len() && c[j].path@ == #[trigger] local_targets_view(root, c)->Ok_0[k]
                    && removable(root, c[j]),
        forall|j: int|
            0 <= j < c.len() && !(c[j].probe is Missing) ==> local_targets_view(
                root,
                c,
            )->Ok_0.contains(#[trigger] c[j].path@),
{
    lemma_removable_from(root, c, 0);
}

/// A source built by `make_spec` parses back to the trimmed host and to the
/// directory as typed, with its leading separators collapsed to one. This
/// holds unless the directory consists of separators only, or it is an
/// absolute path whose first piece is `~` (such as `/~/s`), which the
/// source text cannot tell apart from a home-relative path.
pub proof fn law_make_then_parse(host: Seq<char>, path: Seq<char>)
    requires
        make_spec_view(host, path) is Ok,
        trim_start_char(trim_ws(path), '/').len() > 0,
        home_relative(trim_ws(path)) || !home_relative(trim_start_char(trim_ws(path), '/')),
    ensures
        parse_spec_view(make_spec_view(host, path)->Ok_0) == Ok::<
            (Seq<char>, Seq<char>),
            Seq<char>,
        >(
            (
                trim_ws(host),
                if home_relative(trim_ws(path)) {
                    trim_ws(path)
                } else {
                    seq!['/'] + trim_start_char(trim_ws(path), '/')
                },
            ),
        ),
{
    let h = trim_ws(host);
    let p = trim_ws(path);
    let q = trim_start_char(p, '/');
    let s = make_spec_view(host, path)->Ok_0;
    assert(valid_host_spec(h));
    assert(s == PREFIX@ + h + seq!['/'] + q);
    assert(s.subrange(0, PREFIX@.len() as int) =~= PREFIX@);
    let rest = s.skip(PREFIX@.len() as int);
    assert(rest =~= h + seq!['/'] + q);
    assert forall|i: int| 0 <= i < h.len() implies #[trigger] h[i] != '/' by {
        assert(is_host_char(h[i]));
    }
    lemma_first_sep_of_join(h, q);
    assert(rest.take(h.len() as int) =~= h);
    assert(rest.skip(h.len() + 1int) =~= q);
    if home_relative(p) {
        assert(p[0] == '~') by {
            if p != seq!['~'] {
                assert(p.subrange(0, 2)[0] == p[0]);
            }
        }
        assert(q == p);
    }
}

proof fn lemma_trim_start_ws_suffix(s: Seq<char>)
    ensures
        trim_start_ws(s).len() <= s.len(),
        trim_start_ws(s) =~= s.skip(s.len() - trim_start_ws(s).len()),
    decreases s.len(),
{
    if s.len() > 0 && is_whitespace(s[0]) {
        lemma_trim_start_ws_suffix(s.drop_first());
    }
}

proof fn lemma_trim_end_ws_shorter(s: Seq<char>)
    ensures
        trim_end_ws(s).len() <= s.len(),
        s.len() > 0 && is_whitespace(s.last()) ==> trim_end_ws(s).len() < s.len(),
    decreases s.len(),
{
    if s.len() > 0 && is_whitespace(s.last()) {
        lemma_trim_end_ws_shorter(s.drop_last());
    }
}

/// Text that `str::trim` leaves as it is does not end in whitespace.
proof fn lemma_trimmed_text_end(s: Seq<char>)
    requires
        trim_ws(s) == s,
        s.len() > 0,
    ensures
        !is_whitespace(s.last()),
{
    lemma_trim_start_ws_suffix(s);
    let u = trim_start_ws(s);
    lemma_trim_end_ws_shorter(u);
    assert(u.len() == s.len());
    assert(u =~= s);
}

/// A source that `parse_spec` accepts, written without surrounding
/// whitespace and with a single separator after the host, is what
/// `make_spec` builds from the host and directory it parses to.
pub proof fn law_parse_then_make(value: Seq<char>)
    requires
        parse_spec_view(value) is Ok,
        trim_ws(value) == value,
        value[PREFIX@.len() + parse_spec_view(value)->Ok_0.0.len() + 1int] != '/',
    ensures
        make_spec_view(parse_spec_view(value)->Ok_0.0, parse_spec_view(value)->Ok_0.1) == Ok::<
            Seq<char>,
            Seq<char>,
        >(value),
{
    let n = PREFIX@.len() as int;
    let rest = value.skip(n);
    lemma_first_sep(rest);
    let i = first_sep(rest);
    let h = rest.take(i);
    let q = rest.skip(i + 1);
    let p = parse_spec_view(value)->Ok_0.1;
    assert(parse_spec_view(value)->Ok_0.0 == h);
    assert(value =~= PREFIX@ + h + seq!['/'] + q) by {
        assert(value.subrange(0, n) == PREFIX@);
    }
    assert(q[0] == value[n + h.len() + 1]);
    assert(q.last() == value.last());
    lemma_trimmed_text_end(value);
    assert(valid_host_spec(h));
    assert(!is_whitespace(h[0])) by {
        assert(is_host_char(h[0]));
    }
    assert(!is_whitespace(h.last())) by {
        assert(is_host_char(h[h.len() - 1]));
    }
    assert(trim_start_ws(h) == h);
    assert(trim_end_ws(h) == h);
    assert(p.last() == q.last());
    if home_relative(q) {
        assert(p == q);
        assert(q[0] == '~') by {
            if q != seq!['~'] {
                assert(q.subrange(0, 2)[0] == q[0]);
            }
        }
        assert(trim_start_char(p, '/') == q);
    } else {
        assert(p == seq!['/'] + q);
        assert(p.drop_first() =~= q);
        assert(trim_start_char(q, '/') == q);
        assert(trim_start_char(p, '/') == q);
    }
    assert(trim_start_ws(p) == p);
    assert(trim_end_ws(p) == p);
    assert(trim_ws(p) == p);
    assert(trim_ws(h) == h);
}

/// `session_index.jsonl` found from a rollout at `root/YYYY/MM/DD/file` is
/// the one found from the sessions directory `root` itself, for any
/// non-empty `root` that is not itself named like a rollout.
pub proof fn law_rollout_index_beside_sessions_dir(
    root: Seq<char>,
    year: Seq<char>,
    month: Seq<char>,
    day: Seq<char>,
    file: Seq<char>,
)
    requires
        root.len() > 0,
        !(ends_with(root, PLAIN_SUFFIX@) || ends_with(root, COMPRESSED_SUFFIX@)),
        plain_segment(year),
        plain_segment(month),
        plain_segment(day),
        plain_segment(file),
        ends_with(file, PLAIN_SUFFIX@) || ends_with(file, COMPRESSED_SUFFIX@),
    ensures
        index_path_view(
            root + seq!['/'] + year + seq!['/'] + month + seq!['/'] + day + seq!['/'] + file,
        ) == index_path_view(root),
{
    let p1 = root + seq!['/'] + year;
    let p2 = p1 + seq!['/'] + month;
    let p3 = p2 + seq!['/'] + day;
    let p4 = p3 + seq!['/'] + file;
    lemma_parent_of_join(root, year);
    lemma_parent_of_join(p1, month);
    lemma_parent_of_join(p2, day);
    lemma_parent_of_join(p3, file);
    let full = root + seq!['/'] + year + seq!['/'] + month + seq!['/'] + day + seq!['/'] + file;
    assert(full =~= p4);
    assert(ends_with(p4, PLAIN_SUFFIX@) || ends_with(p4, COMPRESSED_SUFFIX@)) by {
        if ends_with(file, PLAIN_SUFFIX@) {
            assert(p4.subrange(p4.len() - PLAIN_SUFFIX@.len(), p4.len() as int) =~= file.subrange(
                file.len() - PLAIN_SUFFIX@.len(),
                file.len() as int,
            ));
        } else {
            assert(p4.subrange(p4.len() - COMPRESSED_SUFFIX@.len(), p4.len() as int)
                =~= file.subrange(file.len() - COMPRESSED_SUFFIX@.len(), file.len() as int));
        }
    }
    assert(path_ancestor(p4, 0) == Some(p4));
    assert(path_ancestor(p4, 1) == Some(p3));
    assert(path_ancestor(p4, 2) == Some(p2));
    assert(path_ancestor(p4, 3) == Some(p1));
    assert(path_ancestor(p4, 4) == Some(trim_back(root, body_start(root))));
    lemma_parent_of_trimmed(root);
    assert(path_ancestor(p4, 5) == path_parent(root));
}

/// A remote path as a shell word reads back as the path: `~` becomes the
/// `$HOME` reference and everything after it reads back literally.
pub proof fn law_shell_path_reads_back(p: Seq<char>)
    ensures
        p == seq!['~'] ==> shell_path_view(p) == HOME@,
        starts_with(p, seq!['~', '/']) ==> shell_path_view(p).subrange(0, HOME@.len() as int)
            == HOME@ && sh_read_unquoted(shell_path_view(p).skip(HOME@.len() as int)) == Some(
            p.skip(1),
        ),
        !(p == seq!['~'] || starts_with(p, seq!['~', '/'])) ==> sh_read_unquoted(
            shell_path_view(p),
        ) == Some(p),
{
    law_shell_quote_reads_back(p);
    if starts_with(p, seq!['~', '/']) && p != seq!['~'] {
        let x = p.skip(2);
        law_shell_quote_reads_back(x);
        let w = shell_path_view(p);
        let rest = seq!['/'] + shell_quote_view(x);
        assert(w =~= HOME@ + rest);
        assert(w.subrange(0, HOME@.len() as int) =~= HOME@);
        assert(w.skip(HOME@.len() as int) =~= rest);
        assert(!sh_special('/'));
        assert(rest.drop_first() =~= shell_quote_view(x));
        assert(p[1] == '/') by {
            assert(p.subrange(0, 2)[1] == p[1]);
        }
        assert(p.skip(1) =~= seq!['/'] + x);
    }
}

/// A source built by `make_spec` is a remote source.
pub proof fn law_made_sources_are_remote(host: Seq<char>, path: Seq<char>)
    requires
        make_spec_view(host, path) is Ok,
    ensures
        starts_with(make_spec_view(host, path)->Ok_0, PREFIX@),
{
    let s = make_spec_view(host, path)->Ok_0;
    assert(s.subrange(0, PREFIX@.len() as int) =~= PREFIX@);
}

/// The directory of a source is written so that discovery locations can be
/// traced back to it: home-relative, or absolute with a first piece that
/// does not begin with another separator or with `~`.
pub open spec fn plain_source_dir(root: Seq<char>) -> bool {
    home_relative(root) || (root.len() >= 2 && root[0] == '/' && root[1] != '/' && root[1] != '~')
}

/// The location given to a discovered rollout parses back to the same host
/// and to the rollout's path, which lies below the source directory exactly
/// at the reported relative path; so the rollout can be deleted through the
/// source it was discovered in.
pub proof fn law_discovered_location_round_trip(dir: Seq<char>, rel: Seq<char>)
    requires
        parse_spec_view(dir) is Ok,
        plain_source_dir(parse_spec_view(dir)->Ok_0.1),
        rel.len() > 0,
        rel[0] != '/',
        !path_components(rel).contains(seq!['.', '.']),
    ensures
        ({
            let (host, root) = parse_spec_view(dir)->Ok_0;
            &&& parse_spec_view(session_location_view(host, root, rel)) == Ok::<
                (Seq<char>, Seq<char>),
                Seq<char>,
            >((host, join_remote_view(root, rel)))
            &&& relative_remote_view(root, join_remote_view(root, rel)) == Some(rel)
        }),
{
    let (host, root) = parse_spec_view(dir)->Ok_0;
    law_join_then_relative(root, rel);
    lemma_trim_end_char(root, '/');
    let r = trim_end_char(root, '/');
    assert(trim_start_char(rel, '/') == rel);
    let join = join_remote_view(root, rel);
    assert(join == r + seq!['/'] + rel);
    assert(r.len() >= 1) by {
        if r.len() == 0 {
            assert(root[0] == '/');
            if home_relative(root) {
                if root != seq!['~'] {
                    assert(root.subrange(0, 2)[0] == root[0]);
                }
            }
        }
    }
    assert(r[0] == root[0]);
    let q = trim_start_char(join, '/');
    if home_relative(root) {
        assert(root[0] == '~') by {
            if root != seq!['~'] {
                assert(root.subrange(0, 2)[0] == root[0]);
            }
        }
        assert(q == join);
        assert(home_relative(join)) by {
            if r.len() >= 2 {
                assert(r[1] == root[1]);
                assert(root[1] == '/') by {
                    if root == seq!['~'] {
                    } else {
                        assert(root.subrange(0, 2)[1] == root[1]);
                    }
                }
            }
            assert(join.subrange(0, 2) =~= seq!['~', '/']);
        }
    } else {
        assert(r.len() >= 2);
        assert(r[1] == root[1]);
        assert(join[0] == '/');
        assert(join[1] == root[1]);
        assert(join.drop_first()[0] == root[1]);
        assert(trim_start_char(join.drop_first(), '/') == join.drop_first());
        assert(q == join.drop_first());
        assert(!home_relative(q)) by {
            if q == seq!['~'] {
                assert(q[0] == '~');
            }
            if starts_with(q, seq!['~', '/']) {
                assert(q.subrange(0, 2)[0] == q[0]);
            }
        }
        assert(seq!['/'] + q =~= join);
    }
    let l = session_location_view(host, root, rel);
    assert(l == PREFIX@ + host + seq!['/'] + q);
    assert(l.subrange(0, PREFIX@.len() as int) =~= PREFIX@);
    let rest = l.skip(PREFIX@.len() as int);
    assert(rest =~= host + seq!['/'] + q);
    assert(valid_host_spec(host));
    assert forall|i: int| 0 <= i < host.len() implies #[trigger] host[i] != '/' by {
        assert(is_host_char(host[i]));
    }
    lemma_first_sep_of_join(host, q);
    assert(rest.take(host.len() as int) =~= host);
    assert(rest.skip(host.len() + 1int) =~= q);
    assert(q.len() > 0);
}

/// `o` lists index `x` somewhere.
pub open spec fn lists(o: Seq<usize>, x: int) -> bool {
    exists|i: int| 0 <= i < o.len() && #[trigger] o[i] as int == x
}

/// `n` distinct indexes below `n` list every index below `n`.
proof fn lemma_distinct_indexes_cover(o: Seq<usize>, n: nat)
    requires
        o.len() == n,
        forall|i: int| 0 <= i < o.len() ==> #[trigger] o[i] < n,
        forall|i: int, j: int| 0 <= i < j < o.len() ==> #[trigger] o[i] != #[trigger] o[j],
    ensures
        forall|x: int| 0 <= x < n ==> #[trigger] lists(o, x),
{
    let oi = o.map_values(|x: usize| x as int);
    assert(oi.no_duplicates()) by {
        assert forall|i: int, j: int| 0 <= i < oi.len() && 0 <= j < oi.len() && i != j implies oi[i]
            != oi[j] by {
            if i < j {
                assert(o[i] != o[j]);
            } else {
                assert(o[j] != o[i]);
            }
        }
    }
    oi.unique_seq_to_set();
    lemma_int_range(0, n as int);
    assert(oi.to_set().subset_of(set_int_range(0, n as int))) by {
        assert forall|x: int| oi.to_set().contains(x) implies set_int_range(0, n as int).contains(x) by {
            assert(oi.contains(x));
            let i = choose|i: int| 0 <= i < oi.len() && oi[i] == x;
            assert(o[i] < n);
        }
    }
    vstd::seq_lib::seq_to_set_is_finite(oi);
    lemma_subset_equality(oi.to_set(), set_int_range(0, n as int));
    assert forall|x: int| 0 <= x < n implies #[trigger] lists(o, x) by {
        assert(set_int_range(0, n as int).contains(x));
        assert(oi.to_set().contains(x));
        assert(oi.contains(x));
        let i = choose|i: int| 0 <= i < oi.len() && oi[i] == x;
        assert(o[i] as int == x);
    }
}

/// Index `x` is listed before index `y`: a greater key, or an equal key and
/// an earlier input position.
pub open spec fn listed_before(keys: Seq<Seq<u8>>, x: int, y: int) -> bool {
    bytes_lt(keys[y], keys[x]) || (keys[x] == keys[y] && x < y)
}

proof fn lemma_order_pairs(keys: Seq<Seq<u8>>, o: Seq<usize>, i: int, j: int)
    requires
        newest_first_order(keys, o),
        0 <= i < j < o.len(),
    ensures
        listed_before(keys, o[i] as int, o[j] as int),
{
    lemma_bytes_lt_total(keys[o[i] as int], keys[o[j] as int]);
}

proof fn lemma_listed_before_asymmetric(keys: Seq<Seq<u8>>, x: int, y: int)
    requires
        listed_before(keys, x, y),
    ensures
        !listed_before(keys, y, x),
{
    lemma_bytes_lt_irreflexive(keys[x]);
    lemma_bytes_lt_irreflexive(keys[y]);
    if bytes_lt(keys[y], keys[x]) && bytes_lt(keys[x], keys[y]) {
        lemma_bytes_lt_transitive(keys[x], keys[y], keys[x]);
    }
}

proof fn lemma_orders_agree_below(keys: Seq<Seq<u8>>, a: Seq<usize>, b: Seq<usize>, k: int)
    requires
        newest_first_order(keys, a),
        newest_first_order(keys, b),
        0 <= k <= a.len(),
    ensures
        forall|i: int| 0 <= i < k ==> a[i] == b[i],
    decreases k,
{
    if k > 0 {
        let m = k - 1;
        lemma_orders_agree_below(keys, a, b, m);
        if a[m] != b[m] {
            let n = keys.len();
            lemma_distinct_indexes_cover(a, n);
            lemma_distinct_indexes_cover(b, n);
            assert(lists(a, b[m] as int));
            assert(lists(b, a[m] as int));
            let p = choose|p: int| 0 <= p < a.len() && #[trigger] a[p] as int == b[m] as int;
            let q = choose|q: int| 0 <= q < b.len() && #[trigger] b[q] as int == a[m] as int;
            if p < m {
                assert(a[p] == b[p]);
            }
            if q < m {
                assert(a[q] == b[q]);
            }
            assert(p > m);
            assert(q > m);
            lemma_order_pairs(keys, a, m, p);
            lemma_order_pairs(keys, b, m, q);
            lemma_listed_before_asymmetric(keys, a[m] as int, b[m] as int);
        }
    }
}

/// Only one arrangement is newest first and stable, so the contract of
/// `newest_first` fixes its result.
pub proof fn law_newest_first_is_unique(keys: Seq<Seq<u8>>, a: Seq<usize>, b: Seq<usize>)
    requires
        newest_first_order(keys, a),
        newest_first_order(keys, b),
    ensures
        a == b,
{
    lemma_orders_agree_below(keys, a, b, a.len() as int);
    assert(a =~= b);
}

/// A rollout named `<stem>.jsonl` or `<stem>.jsonl.zst` directly inside the
/// directory `d` has the variants `d/<stem>.jsonl` and `d/<stem>.jsonl.zst`,
/// remote or local: deleting one rollout removes the plain file and its
/// compressed sibling, nothing else.
pub proof fn law_variants_are_plain_and_compressed(d: Seq<char>, stem: Seq<char>, compressed: bool)
    requires
        trimmed_path(d),
        d.last() != '/',
        starts_with(stem, ROLLOUT_PREFIX@),
        forall|i: int| 0 <= i < stem.len() ==> #[trigger] stem[i] != '/',
    ensures
        ({
            let name = stem + if compressed {
                COMPRESSED_SUFFIX@
            } else {
                PLAIN_SUFFIX@
            };
            let p = d + seq!['/'] + name;
            let expected = (d + seq!['/'] + stem + PLAIN_SUFFIX@, d + seq!['/'] + stem
                + COMPRESSED_SUFFIX@);
            &&& rollout_variants_view(p) == Ok::<(Seq<char>, Seq<char>), Seq<char>>(expected)
            &&& has_root(d) ==> local_variants_view(p) == Ok::<
                (Seq<char>, Seq<char>),
                Seq<char>,
            >(expected)
        }),
{
    reveal_strlit(".jsonl");
    reveal_strlit(".jsonl.zst");
    reveal_strlit(".zst");
    reveal_strlit("rollout-");
    let suffix = if compressed {
        COMPRESSED_SUFFIX@
    } else {
        PLAIN_SUFFIX@
    };
    let name = stem + suffix;
    let p = d + seq!['/'] + name;
    assert(stem.len() >= 8) by {
        assert(ROLLOUT_PREFIX@.len() == 8);
    }
    assert(plain_segment(name)) by {
        assert forall|i: int| 0 <= i < name.len() implies #[trigger] name[i] != '/' by {
            if i >= stem.len() {
                assert(name[i] == suffix[i - stem.len()]);
            }
        }
        assert(name.len() >= 2);
        assert(name[0] == stem[0]);
        assert(stem.subrange(0, 8)[0] == stem[0]);
    }
    assert(name != seq!['.', '.']) by {
        assert(name.len() > 2);
    }
    lemma_parent_of_join(d, name);
    assert(p.last() == name.last());
    assert(trim_end_char(p, '/') == p);
    assert(name.subrange(0, 8) =~= stem.subrange(0, 8));
    assert(starts_with(name, ROLLOUT_PREFIX@));
    let with_plain = d + seq!['/'] + stem + PLAIN_SUFFIX@;
    let with_zst = d + seq!['/'] + stem + COMPRESSED_SUFFIX@;
    assert(has_root(p) == has_root(d)) by {
        assert(p[0] == d[0]);
    }
    if compressed {
        assert(name.subrange(name.len() - 10, name.len() as int) =~= COMPRESSED_SUFFIX@);
        assert(name.take(name.len() - 10) =~= stem);
        assert(path_join(d, stem + PLAIN_SUFFIX@) =~= with_plain);
        assert(p =~= with_zst);
    } else {
        assert(name.subrange(name.len() - 6, name.len() as int) =~= PLAIN_SUFFIX@);
        assert(!ends_with(name, COMPRESSED_SUFFIX@)) by {
            if ends_with(name, COMPRESSED_SUFFIX@) {
                assert(name.subrange(name.len() - 10, name.len() as int)[9] == name[name.len() - 1]);
            }
        }
        assert(p + ZST_SUFFIX@ =~= with_zst);
        assert(path_join(d, name + ZST_SUFFIX@) =~= with_zst);
        assert(p =~= with_plain);
    }
}

proof fn lemma_index_entries_append(a: Seq<Seq<u8>>, b: Seq<Seq<u8>>)
    ensures
        index_entries_view(a + b) == index_entries_view(a) + index_entries_view(b),
    decreases b.len(),
{
    if b.len() == 0 {
        assert(a + b =~= a);
        assert(index_entries_view(a) + index_entries_view(b) =~= index_entries_view(a));
    } else {
        lemma_index_entries_append(a, b.drop_last());
        assert((a + b).drop_last() =~= a + b.drop_last());
        assert((a + b).last() == b.last());
        match index_entry_view(b.last()) {
            Some(e) => {
                assert(index_entries_view(a) + index_entries_view(b) =~= (index_entries_view(a)
                    + index_entries_view(b.drop_last())).push(e));
            },
            None => {},
        }
    }
}

/// A line of `session_index.jsonl` that names no session with a title
/// (malformed JSON, no string id, no usable title) changes no title,
/// wherever it stands.
pub proof fn law_unusable_index_lines_are_harmless(
    before: Seq<Seq<u8>>,
    line: Seq<u8>,
    after: Seq<Seq<u8>>,
)
    requires
        index_entry_view(line) is None,
    ensures
        index_entries_view(before + seq![line] + after) == index_entries_view(before + after),
{
    lemma_index_entries_append(before + seq![line], after);
    lemma_index_entries_append(before, seq![line]);
    lemma_index_entries_append(before, after);
    let one = seq![line];
    assert(one.drop_last() =~= Seq::<Seq<u8>>::empty());
    assert(one.last() == line);
    assert(index_entries_view(Seq::<Seq<u8>>::empty()) == Seq::<(Seq<char>, Seq<char>)>::empty());
    assert(index_entries_view(one) == index_entries_view(one.drop_last()));
    assert(index_entries_view(one) =~= Seq::<(Seq<char>, Seq<char>)>::empty());
    assert(index_entries_view(before) + Seq::<(Seq<char>, Seq<char>)>::empty() =~= index_entries_view(
        before,
    ));
}

/// The two local variants of a rollout are siblings: both lie in the
/// directory of the given path, named `<stem>.jsonl` and `<stem>.jsonl.zst`
/// after the stem of the given file name.
pub proof fn law_local_variants_are_siblings(p: Seq<char>)
    requires
        local_variants_view(p) is Ok,
    ensures
        ({
            let name = path_file_name(p)->Some_0;
            let stem = if ends_with(name, COMPRESSED_SUFFIX@) {
                name.take(name.len() - COMPRESSED_SUFFIX@.len())
            } else {
                name.take(name.len() - PLAIN_SUFFIX@.len())
            };
            let plain = local_variants_view(p)->Ok_0.0;
            let compressed = local_variants_view(p)->Ok_0.1;
            &&& path_parent(plain) == path_parent(p)
            &&& path_parent(compressed) == path_parent(p)
            &&& path_file_name(plain) == Some(stem + PLAIN_SUFFIX@)
            &&& path_file_name(compressed) == Some(stem + COMPRESSED_SUFFIX@)
        }),
{
    reveal_strlit(".jsonl");
    reveal_strlit(".jsonl.zst");
    reveal_strlit(".zst");
    reveal_strlit("rollout-");
    let name = path_file_name(p)->Some_0;
    let t = trim_back(p, 1);
    lemma_last_sep(t, 1);
    assert(name == last_piece(t, 1));
    assert forall|i: int| 0 <= i < name.len() implies #[trigger] name[i] != '/' by {
        assert(name[i] == t[last_sep(t, 1) + 1 + i]);
    }
    assert(name.len() >= 8 && name[0] == 'r') by {
        assert(name.subrange(0, 8) == ROLLOUT_PREFIX@);
        assert(name.subrange(0, 8)[0] == name[0]);
    }
    if ends_with(name, COMPRESSED_SUFFIX@) {
        let stem = name.take(name.len() - 10);
        let other = stem + PLAIN_SUFFIX@;
        assert(name =~= stem + COMPRESSED_SUFFIX@);
        assert(plain_segment(other)) by {
            assert forall|i: int| 0 <= i < other.len() implies #[trigger] other[i] != '/' by {
                if i < stem.len() {
                    assert(other[i] == name[i]);
                }
            }
            assert(other[0] == name[0]);
        }
        assert(other != seq!['.', '.']) by {
            assert(other.len() > 2);
        }
        lemma_with_file_name(p, other);
    } else {
        let stem = name.take(name.len() - 6);
        let other = name + ZST_SUFFIX@;
        assert(name =~= stem + PLAIN_SUFFIX@);
        assert(other =~= stem + COMPRESSED_SUFFIX@);
        assert(plain_segment(other)) by {
            assert forall|i: int| 0 <= i < other.len() implies #[trigger] other[i] != '/' by {
                if i < name.len() {
                    assert(other[i] == name[i]);
                }
            }
            assert(other[0] == name[0]);
        }
        assert(other != seq!['.', '.']) by {
            assert(other.len() > 2);
        }
        lemma_with_file_name(p, other);
    }
}

/// Titles read from an index and asked for again while they are fresh
/// answer as reading the index again would: the cache gives the latest title
/// the index records for the session, with no new read.
pub proof fn law_fresh_titles_answer_as_a_read(index: Seq<u8>, age_nanos: u128, id: Seq<char>)
    requires
        age_nanos < TITLE_CACHE_TTL_NANOS,
    ensures
        cached_title_view(Some(age_nanos), index_entries_view(lines_view(index)), id) == Some(
            latest_title(index_entries_view(lines_view(index)), id),
        ),
{
}

/// Whether a candidate exists on disk.
pub open spec fn on_disk() -> spec_fn(LocalCandidate) -> bool {
    |x: LocalCandidate| !(x.probe is Missing)
}

/// A candidate's path.
pub open spec fn candidate_path() -> spec_fn(LocalCandidate) -> Seq<char> {
    |x: LocalCandidate| x.path@
}

/// The paths of the candidates that exist on disk, in order.
pub open spec fn existing_paths(c: Seq<LocalCandidate>) -> Seq<Seq<char>> {
    c.filter(on_disk()).map_values(candidate_path())
}

proof fn lemma_removable_existing(root: Seq<char>, c: Seq<LocalCandidate>, i: int)
    requires
        0 <= i <= c.len(),
        forall|j: int| i <= j < c.len() && !(c[j].probe is Missing) ==> removable(root, c[j]),
    ensures
        removable_from(root, c, i) == Ok::<Seq<Seq<char>>, Seq<char>>(existing_paths(c.skip(i))),
    decreases c.len() - i,
{
    let pred = on_disk();
    let path = candidate_path();
    reveal_with_fuel(Seq::<LocalCandidate>::filter, 2);
    if i == c.len() {
        assert(c.skip(i) =~= Seq::<LocalCandidate>::empty());
        assert(existing_paths(c.skip(i)) =~= Seq::<Seq<char>>::empty());
    } else {
        lemma_removable_existing(root, c, i + 1);
        let head = seq![c[i]];
        assert(c.skip(i) =~= head + c.skip(i + 1));
        Seq::filter_distributes_over_add(head, c.skip(i + 1), pred);
        assert(head.drop_last() =~= Seq::<LocalCandidate>::empty());
        assert(head.last() == c[i]);
        let rest = c.skip(i + 1).filter(pred);
        if pred(c[i]) {
            assert(head.filter(pred) =~= seq![c[i]]);
            assert((seq![c[i]] + rest).map_values(path) =~= seq![c[i].path@] + rest.map_values(
                path,
            ));
            assert(removable(root, c[i]));
        } else {
            assert(head.filter(pred) =~= Seq::<LocalCandidate>::empty());
            assert(Seq::<LocalCandidate>::empty() + rest =~= rest);
        }
    }
}

/// Deleting a local rollout removes exactly the variants that exist, in
/// order: a variant that is missing is skipped and never makes the delete
/// fail, as long as one variant exists and every existing one is a regular
/// file below the sessions directory.
pub proof fn law_missing_variants_are_skipped(root: Seq<char>, c: Seq<LocalCandidate>)
    requires
        exists|j: int| 0 <= j < c.len() && !(#[trigger] c[j].probe is Missing),
        forall|j: int| 0 <= j < c.len() && !(c[j].probe is Missing) ==> removable(root, #[trigger] c[j]),
    ensures
        local_targets_view(root, c) == Ok::<Seq<Seq<char>>, Seq<char>>(existing_paths(c)),
        existing_paths(c).len() > 0,
{
    lemma_removable_existing(root, c, 0);
    assert(c.skip(0) =~= c);
    let pred = on_disk();
    let j = choose|j: int| 0 <= j < c.len() && !(#[trigger] c[j].probe is Missing);
    c.lemma_filter_contains(pred, j);
    assert(c.filter(pred).len() > 0);
}

/// The local copy of a fetched rollout keeps the remote file's own name, the
/// last component of the checked rollout path, compressed suffix and all.
pub proof fn law_download_keeps_the_remote_file_name(v: Seq<char>)
    requires
        download_view(v) is Ok,
    ensures
        ({
            let (host, dir, remote, name) = download_view(v)->Ok_0;
            &&& parse_spec_view(v) == Ok::<(Seq<char>, Seq<char>), Seq<char>>((host, dir))
            &&& remote_file_path_view(dir) == Ok::<Seq<char>, Seq<char>>(remote)
            &&& path_file_name(remote) == Some(name)
        }),
{
}

/// Fingerprinting one rollout runs the single-file snapshot program, on the
/// checked rollout path of the source, on the source's host.
pub proof fn law_file_snapshot_runs_the_file_program(v: Seq<char>)
    requires
        file_snapshot_view(v) is Ok,
    ensures
        ({
            let (h, p) = parse_spec_view(v)->Ok_0;
            &&& remote_file_path_view(p) is Ok
            &&& file_snapshot_view(v) == Ok::<(Seq<char>, Seq<char>), Seq<char>>(
                (h, python_command_view(remote_file_path_view(p)->Ok_0, REMOTE_FILE_SNAPSHOT_SCRIPT@)),
            )
        }),
{
}

/// A host made of ASCII letters of either case, digits and `. _ - @ :`, not
/// starting with `-`, is accepted: `ssh://host/dir` parses to that host and
/// the directory (made absolute unless it is home-relative).
pub proof fn law_ascii_hosts_are_accepted(h: Seq<char>, dir: Seq<char>)
    requires
        h.len() > 0,
        h[0] != '-',
        forall|i: int|
            0 <= i < h.len() ==> ('a' <= #[trigger] h[i] <= 'z') || ('A' <= h[i] <= 'Z') || (
            '0' <= h[i] <= '9') || h[i] == '.' || h[i] == '_' || h[i] == '-' || h[i] == '@' || h[i]
                == ':',
        dir.len() > 0,
    ensures
        valid_host_spec(h),
        parse_spec_view(PREFIX@ + h + seq!['/'] + dir) == Ok::<(Seq<char>, Seq<char>), Seq<char>>(
            (
                h,
                if home_relative(dir) {
                    dir
                } else {
                    seq!['/'] + dir
                },
            ),
        ),
{
    let v = PREFIX@ + h + seq!['/'] + dir;
    assert(v.subrange(0, PREFIX@.len() as int) =~= PREFIX@);
    let rest = v.skip(PREFIX@.len() as int);
    assert(rest =~= h + seq!['/'] + dir);
    assert forall|i: int| 0 <= i < h.len() implies #[trigger] h[i] != '/' by {
        assert(is_host_char(h[i]));
    }
    lemma_first_sep_of_join(h, dir);
    assert(rest.take(h.len() as int) =~= h);
    assert(rest.skip(h.len() + 1int) =~= dir);
}

/// Exactly these hosts are usable: non-empty, not starting with `-`, and
/// made of ASCII letters of either case, digits and `. _ - @ :`.
pub proof fn law_host_rule(h: Seq<char>)
    ensures
        valid_host_spec(h) <==> (h.len() > 0 && h[0] != '-' && forall|i: int|
            0 <= i < h.len() ==> ('a' <= #[trigger] h[i] <= 'z') || ('A' <= h[i] <= 'Z') || (
            '0' <= h[i] <= '9') || h[i] == '.' || h[i] == '_' || h[i] == '-' || h[i] == '@' || h[i]
                == ':'),
{
    assert forall|i: int| 0 <= i < h.len() implies is_host_char(h[i]) == (('a' <= #[trigger] h[i]
        <= 'z') || ('A' <= h[i] <= 'Z') || ('0' <= h[i] <= '9') || h[i] == '.' || h[i] == '_'
        || h[i] == '-' || h[i] == '@' || h[i] == ':') by {}
}

/// The order of start times is byte-wise lexicographic: after a common
/// prefix of length `k`, the first differing byte decides, and a proper
/// prefix comes first.
pub proof fn law_byte_order_is_lexicographic(a: Seq<u8>, b: Seq<u8>, k: int)
    requires
        0 <= k <= a.len(),
        k <= b.len(),
        a.take(k) == b.take(k),
    ensures
        k < a.len() && k < b.len() && a[k] != b[k] ==> (bytes_lt(a, b) <==> a[k] < b[k]),
        k == a.len() ==> (bytes_lt(a, b) <==> k < b.len()),
        k == b.len() && k < a.len() ==> !bytes_lt(a, b),
    decreases k,
{
    if k > 0 {
        assert(a[0] == a.take(k)[0]);
        assert(b[0] == b.take(k)[0]);
        assert(a.drop_first().take(k - 1) =~= a.take(k).drop_first());
        assert(b.drop_first().take(k - 1) =~= b.take(k).drop_first());
        law_byte_order_is_lexicographic(a.drop_first(), b.drop_first(), k - 1);
        if k < a.len() {
            assert(a.drop_first()[k - 1] == a[k]);
        }
        if k < b.len() {
            assert(b.drop_first()[k - 1] == b[k]);
        }
    }
}

/// Sessions come newest first: where two start times agree up to position
/// `k` and the first is greater there (or the second ends there), the first
/// is listed before the second.
pub proof fn law_later_start_times_are_listed_first(
    keys: Seq<Seq<u8>>,
    order: Seq<usize>,
    p: int,
    q: int,
    k: int,
)
    requires
        newest_first_order(keys, order),
        0 <= p < order.len(),
        0 <= q < order.len(),
        0 <= k <= keys[order[p] as int].len(),
        k <= keys[order[q] as int].len(),
        keys[order[p] as int].take(k) == keys[order[q] as int].take(k),
        (k < keys[order[q] as int].len() && k < keys[order[p] as int].len()
            && keys[order[q] as int][k] < keys[order[p] as int][k]) || (k == keys[order[q] as int].len()
            && k < keys[order[p] as int].len()),
    ensures
        p < q,
{
    let x = keys[order[p] as int];
    let y = keys[order[q] as int];
    law_byte_order_is_lexicographic(y, x, k);
    assert(bytes_lt(y, x));
    if q < p {
        assert(!bytes_lt(keys[order[q] as int], keys[order[p] as int]));
    }
    if p == q {
        lemma_bytes_lt_irreflexive(x);
    }
}

} // verus!
