//! A model of how Unix paths split into components, and the operations on
//! paths that the session logic needs: the parent directory, the final file
//! name, joining a relative name, and component-wise prefix tests.
//!
//! A path is a sequence of characters. It may begin with a root `/`, or with a
//! leading `.` that stands for the current directory (`.` alone or `./...`).
//! The rest (the body) is split at `/`; empty pieces and `.` pieces are not
//! components, `..` is the parent-directory component, anything else is a
//! normal component. All exec functions below work on a prefix `s[..len]` of a
//! character vector, because every parent of a path is a prefix of it.
use vstd::prelude::*;

verus! {

/// The path starts with a root separator.
pub open spec fn has_root(s: Seq<char>) -> bool {
    s.len() > 0 && s[0] == '/'
}

/// The path starts with a `.` that stands for the current directory.
pub open spec fn has_cur_dir(s: Seq<char>) -> bool {
    !has_root(s) && s.len() > 0 && s[0] == '.' && (s.len() == 1 || s[1] == '/')
}

/// Where the body starts: after the root or the leading current-directory dot.
pub open spec fn body_start(s: Seq<char>) -> nat {
    if has_root(s) || has_cur_dir(s) {
        1
    } else {
        0
    }
}

/// A piece of the body that is not a component.
pub open spec fn ignorable(piece: Seq<char>) -> bool {
    piece.len() == 0 || piece == seq!['.']
}

/// Index of the last separator at or after `start`, or `start - 1` if none.
pub open spec fn last_sep(s: Seq<char>, start: nat) -> int
    decreases s.len(),
{
    if s.len() <= start {
        start - 1
    } else if s.last() == '/' {
        s.len() - 1
    } else {
        last_sep(s.drop_last(), start)
    }
}

pub proof fn lemma_last_sep(s: Seq<char>, start: nat)
    requires
        start < s.len(),
    ensures
        start - 1 <= last_sep(s, start) < s.len(),
        last_sep(s, start) >= start ==> s[last_sep(s, start)] == '/',
        forall|j: int| last_sep(s, start) < j < s.len() && j >= start ==> s[j] != '/',
    decreases s.len(),
{
    if s.last() == '/' {
    } else if s.len() - 1 > start {
        lemma_last_sep(s.drop_last(), start);
        assert forall|j: int| last_sep(s, start) < j < s.len() && j >= start implies s[j]
            != '/' by {
            if j < s.len() - 1 {
                assert(s[j] == s.drop_last()[j]);
            }
        }
        if last_sep(s, start) >= start {
            assert(s[last_sep(s, start)] == s.drop_last()[last_sep(s, start)]);
        }
    } else {
        assert(s.drop_last().len() <= start);
        assert(last_sep(s.drop_last(), start) == start - 1);
    }
}

/// Where the path is cut when the last piece (with its separator, if any) goes.
pub open spec fn cut_point(s: Seq<char>, start: nat) -> int {
    let k = last_sep(s, start);
    if k >= start {
        k
    } else {
        start as int
    }
}

/// The last piece of the body: the text after its last separator.
pub open spec fn last_piece(s: Seq<char>, start: nat) -> Seq<char> {
    s.subrange(last_sep(s, start) + 1, s.len() as int)
}

/// Drops trailing separators and `.` pieces from the body.
pub open spec fn trim_back(s: Seq<char>, start: nat) -> Seq<char>
    decreases s.len(),
{
    if s.len() <= start {
        s
    } else if ignorable(last_piece(s, start)) {
        proof {
            lemma_last_sep(s, start);
        }
        trim_back(s.subrange(0, cut_point(s, start)), start)
    } else {
        s
    }
}

/// The parent of a path, as `std::path::Path::parent` gives it on Unix:
/// `None` for the empty path and for a bare root.
pub open spec fn path_parent(s: Seq<char>) -> Option<Seq<char>> {
    let b = body_start(s);
    let t = trim_back(s, b);
    if t.len() > b {
        Some(trim_back(t.subrange(0, cut_point(t, b)), b))
    } else if has_cur_dir(s) {
        Some(Seq::empty())
    } else {
        None
    }
}

/// The final component of a path, when it is a normal component.
pub open spec fn path_file_name(s: Seq<char>) -> Option<Seq<char>> {
    let b = body_start(s);
    let t = trim_back(s, b);
    if t.len() > b && last_piece(t, b) != seq!['.', '.'] {
        Some(last_piece(t, b))
    } else {
        None
    }
}

/// Joins a relative name onto a path, adding a separator where one is needed.
pub open spec fn path_join(base: Seq<char>, name: Seq<char>) -> Seq<char> {
    if base.len() == 0 || base.last() == '/' {
        base + name
    } else {
        base + seq!['/'] + name
    }
}

/// `Path::with_file_name` on a path that has a file name.
pub open spec fn path_with_file_name(s: Seq<char>, name: Seq<char>) -> Seq<char> {
    path_join(path_parent(s).unwrap(), name)
}

/// `n` steps up the directory tree; `None` once a step has no parent.
pub open spec fn path_ancestor(s: Seq<char>, n: nat) -> Option<Seq<char>>
    decreases n,
{
    if n == 0 {
        Some(s)
    } else {
        match path_ancestor(s, (n - 1) as nat) {
            Some(p) => path_parent(p),
            None => None,
        }
    }
}

/// Index of the first separator, or the length when there is none.
pub open spec fn first_sep(s: Seq<char>) -> int
    decreases s.len(),
{
    if s.len() == 0 {
        0
    } else if s[0] == '/' {
        0
    } else {
        1 + first_sep(s.drop_first())
    }
}

pub proof fn lemma_first_sep(s: Seq<char>)
    ensures
        0 <= first_sep(s) <= s.len(),
        first_sep(s) < s.len() ==> s[first_sep(s)] == '/',
        forall|j: int| 0 <= j < first_sep(s) ==> s[j] != '/',
    decreases s.len(),
{
    if s.len() > 0 && s[0] != '/' {
        lemma_first_sep(s.drop_first());
        assert forall|j: int| 0 <= j < first_sep(s) implies s[j] != '/' by {
            if j > 0 {
                assert(s[j] == s.drop_first()[j - 1]);
            }
        }
    }
}

/// The components of a body, front to back.
pub open spec fn body_components(s: Seq<char>) -> Seq<Seq<char>>
    decreases s.len(),
{
    if s.len() == 0 {
        seq![]
    } else {
        let i = first_sep(s);
        proof {
            lemma_first_sep(s);
        }
        let piece = s.subrange(0, i);
        let rest = if i < s.len() {
            s.subrange(i + 1, s.len() as int)
        } else {
            Seq::<char>::empty()
        };
        if ignorable(piece) {
            body_components(rest)
        } else {
            seq![piece] + body_components(rest)
        }
    }
}

/// All components of a path; the root is written `/` and the leading
/// current directory `.`, which no normal component can equal.
pub open spec fn path_components(s: Seq<char>) -> Seq<Seq<char>> {
    if has_root(s) {
        seq![seq!['/']] + body_components(s.subrange(1, s.len() as int))
    } else if has_cur_dir(s) {
        seq![seq!['.']] + body_components(s.subrange(1, s.len() as int))
    } else {
        body_components(s)
    }
}

/// `Path::starts_with`: the components of `base` begin the components of `s`.
pub open spec fn path_starts_with(s: Seq<char>, base: Seq<char>) -> bool {
    path_components(base).len() <= path_components(s).len() && path_components(s).subrange(
        0,
        path_components(base).len() as int,
    ) == path_components(base)
}

/// Where the body of `s[..len]` starts.
pub fn body_start_of(s: &Vec<char>, len: usize) -> (b: usize)
    requires
        len <= s.len(),
    ensures
        b == body_start(s@.subrange(0, len as int)),
        b <= len,
{
    if len > 0 && s[0] == '/' {
        1
    } else if len > 0 && s[0] == '.' && (len == 1 || s[1] == '/') {
        1
    } else {
        0
    }
}

/// One past the last separator of `s[start..len]`, or `start` if there is none.
fn after_last_sep(s: &Vec<char>, len: usize, start: usize) -> (k: usize)
    requires
        start < len <= s.len(),
    ensures
        k == last_sep(s@.subrange(0, len as int), start as nat) + 1,
{
    let ghost full = s@.subrange(0, len as int);
    let mut i = len;
    while i > start
        invariant
            start <= i <= len <= s.len(),
            full == s@.subrange(0, len as int),
            last_sep(full, start as nat) == last_sep(s@.subrange(0, i as int), start as nat),
        decreases i,
    {
        let ghost p = s@.subrange(0, i as int);
        if s[i - 1] == '/' {
            assert(p.last() == '/');
            return i;
        }
        assert(p.drop_last() =~= s@.subrange(0, i - 1));
        i -= 1;
    }
    start
}

/// Length of `trim_back(s[..len], start)`, which is a prefix of `s`.
pub fn trim_back_len(s: &Vec<char>, len: usize, start: usize) -> (n: usize)
    requires
        start <= len <= s.len(),
    ensures
        start <= n <= len,
        trim_back(s@.subrange(0, len as int), start as nat) == s@.subrange(0, n as int),
{
    let mut n = len;
    let mut done = false;
    while !done && n > start
        invariant
            start <= n <= len <= s.len(),
            trim_back(s@.subrange(0, len as int), start as nat) == (if done {
                s@.subrange(0, n as int)
            } else {
                trim_back(s@.subrange(0, n as int), start as nat)
            }),
        decreases n + (if done { 0int } else { 1int }),
    {
        let ghost p = s@.subrange(0, n as int);
        let k = after_last_sep(s, n, start);
        proof {
            lemma_last_sep(p, start as nat);
        }
        assert(last_piece(p, start as nat) =~= s@.subrange(k as int, n as int));
        if k == n || (k + 1 == n && s[k] == '.') {
            assert(ignorable(last_piece(p, start as nat))) by {
                if k < n {
                    assert(s@.subrange(k as int, n as int) =~= seq!['.']);
                }
            }
            let cut = if k > start {
                k - 1
            } else {
                start
            };
            assert(cut == cut_point(p, start as nat));
            assert(p.subrange(0, cut as int) =~= s@.subrange(0, cut as int));
            n = cut;
        } else {
            assert(!ignorable(last_piece(p, start as nat))) by {
                if last_piece(p, start as nat) == seq!['.'] {
                    assert(last_piece(p, start as nat)[0] == s@[k as int]);
                }
            }
            done = true;
        }
    }
    n
}

/// The parent of `s[..len]`, which is always a prefix `s[..n]`.
pub fn parent_len(s: &Vec<char>, len: usize) -> (r: Option<usize>)
    requires
        len <= s.len(),
    ensures
        match r {
            Some(n) => n <= len && path_parent(s@.subrange(0, len as int)) == Some(
                s@.subrange(0, n as int),
            ),
            None => path_parent(s@.subrange(0, len as int)) is None,
        },
{
    let ghost p = s@.subrange(0, len as int);
    let b = body_start_of(s, len);
    let t = trim_back_len(s, len, b);
    if t > b {
        let ghost tp = s@.subrange(0, t as int);
        let k = after_last_sep(s, t, b);
        proof {
            lemma_last_sep(tp, b as nat);
        }
        let cut = if k > b {
            k - 1
        } else {
            b
        };
        assert(cut == cut_point(tp, b as nat));
        assert(tp.subrange(0, cut as int) =~= s@.subrange(0, cut as int));
        let n = trim_back_len(s, cut, b);
        Some(n)
    } else if len > 0 && s[0] == '.' && (len == 1 || s[1] == '/') {
        assert(has_cur_dir(p));
        Some(0)
    } else {
        None
    }
}

/// The file name of `s[..len]`, as the range `s[from..to]`.
pub fn file_name_range(s: &Vec<char>, len: usize) -> (r: Option<(usize, usize)>)
    requires
        len <= s.len(),
    ensures
        match r {
            Some((from, to)) => from <= to <= len && path_file_name(s@.subrange(0, len as int))
                == Some(s@.subrange(from as int, to as int)),
            None => path_file_name(s@.subrange(0, len as int)) is None,
        },
{
    let ghost p = s@.subrange(0, len as int);
    let b = body_start_of(s, len);
    let t = trim_back_len(s, len, b);
    if t > b {
        let ghost tp = s@.subrange(0, t as int);
        let k = after_last_sep(s, t, b);
        proof {
            lemma_last_sep(tp, b as nat);
        }
        assert(last_piece(tp, b as nat) =~= s@.subrange(k as int, t as int));
        if t >= 2 && k == t - 2 && s[k] == '.' && s[k + 1] == '.' {
            assert(last_piece(tp, b as nat) =~= seq!['.', '.']);
            None
        } else {
            assert(last_piece(tp, b as nat) != seq!['.', '.']) by {
                if last_piece(tp, b as nat) == seq!['.', '.'] {
                    assert(last_piece(tp, b as nat).len() == 2);
                    assert(last_piece(tp, b as nat)[0] == s@[k as int]);
                    assert(last_piece(tp, b as nat)[1] == s@[k + 1]);
                }
            }
            Some((k, t))
        }
    } else {
        None
    }
}

/// Index of the first separator in `v[from..to]`, or `to`.
pub fn find_sep(v: &Vec<char>, from: usize, to: usize) -> (i: usize)
    requires
        from <= to <= v.len(),
    ensures
        from <= i <= to,
        i - from == first_sep(v@.subrange(from as int, to as int)),
{
    let mut i = from;
    while i < to && v[i] != '/'
        invariant
            from <= i <= to <= v.len(),
            first_sep(v@.subrange(from as int, to as int)) == (i - from) + first_sep(
                v@.subrange(i as int, to as int),
            ),
        decreases to - i,
    {
        assert(v@.subrange(i as int, to as int).drop_first() =~= v@.subrange(i + 1, to as int));
        i += 1;
    }
    i
}

/// A new vector holding `v[from..to]`.
pub fn vec_from_range(v: &Vec<char>, from: usize, to: usize) -> (r: Vec<char>)
    requires
        from <= to <= v.len(),
    ensures
        r@ == v@.subrange(from as int, to as int),
{
    let mut r: Vec<char> = Vec::new();
    let mut i = from;
    while i < to
        invariant
            from <= i <= to <= v.len(),
            r@ == v@.subrange(from as int, i as int),
        decreases to - i,
    {
        r.push(v[i]);
        assert(v@.subrange(from as int, i + 1) =~= v@.subrange(from as int, i as int).push(
            v@[i as int],
        ));
        i += 1;
    }
    r
}

/// Whether two character vectors hold the same characters.
pub fn same_chars(a: &Vec<char>, b: &Vec<char>) -> (r: bool)
    ensures
        r == (a@ == b@),
{
    if a.len() != b.len() {
        return false;
    }
    let mut i: usize = 0;
    while i < a.len()
        invariant
            a.len() == b.len(),
            i <= a.len(),
            forall|j: int| 0 <= j < i ==> a@[j] == b@[j],
        decreases a.len() - i,
    {
        if a[i] != b[i] {
            return false;
        }
        i += 1;
    }
    assert(a@ =~= b@);
    true
}

/// The character sequences held by a sequence of character vectors.
pub open spec fn char_views(v: Seq<Vec<char>>) -> Seq<Seq<char>> {
    v.map_values(|c: Vec<char>| c@)
}

/// The components of `s`, each as its characters.
pub fn components_of(s: &Vec<char>) -> (r: Vec<Vec<char>>)
    ensures
        char_views(r@) == path_components(s@),
{
    let n = s.len();
    let mut out: Vec<Vec<char>> = Vec::new();
    let b = body_start_of(s, n);
    assert(s@.subrange(0, n as int) =~= s@);
    if b == 1 {
        let mut first: Vec<char> = Vec::new();
        first.push(s[0]);
        assert(first@ =~= seq![s@[0]]);
        out.push(first);
    }
    let ghost head = char_views(out@);
    assert(path_components(s@) == head + body_components(s@.subrange(b as int, n as int))) by {
        if b == 1 {
            assert(head =~= seq![seq![s@[0]]]);
        } else {
            assert(head =~= Seq::<Seq<char>>::empty());
            assert(s@.subrange(0, n as int) =~= s@);
        }
    }
    let mut i = b;
    while i < n
        invariant
            b <= i <= n == s.len(),
            path_components(s@) == char_views(out@) + body_components(
                s@.subrange(i as int, n as int),
            ),
        decreases n - i,
    {
        let ghost rest = s@.subrange(i as int, n as int);
        let j = find_sep(s, i, n);
        proof {
            lemma_first_sep(rest);
        }
        assert(rest.subrange(0, (j - i) as int) =~= s@.subrange(i as int, j as int));
        let piece = vec_from_range(s, i, j);
        let ghost before = char_views(out@);
        let ignore = j == i || (j == i + 1 && s[i] == '.');
        assert(ignore == ignorable(piece@)) by {
            if piece@ == seq!['.'] {
                assert(piece@[0] == s@[i as int]);
            }
            if j == i + 1 && s@[i as int] == '.' {
                assert(piece@ =~= seq!['.']);
            }
        }
        if !ignore {
            out.push(piece);
            assert(char_views(out@) =~= before + seq![piece@]);
        }
        if j < n {
            assert(rest.subrange((j - i) + 1, rest.len() as int) =~= s@.subrange(j + 1, n as int));
            i = j + 1;
        } else {
            assert(s@.subrange(n as int, n as int) =~= Seq::<char>::empty());
            i = n;
        }
        assert(body_components(rest) == (if ignore {
            body_components(s@.subrange(i as int, n as int))
        } else {
            seq![piece@] + body_components(s@.subrange(i as int, n as int))
        }));
    }
    assert(s@.subrange(n as int, n as int) =~= Seq::<char>::empty());
    assert(char_views(out@) =~= path_components(s@));
    out
}

/// `Path::starts_with`: whether the components of `base` begin those of `s`.
pub fn starts_with_path(s: &Vec<char>, base: &Vec<char>) -> (r: bool)
    ensures
        r == path_starts_with(s@, base@),
{
    let cs = components_of(s);
    let cb = components_of(base);
    if cb.len() > cs.len() {
        return false;
    }
    let mut i: usize = 0;
    while i < cb.len()
        invariant
            char_views(cs@) == path_components(s@),
            char_views(cb@) == path_components(base@),
            cb.len() <= cs.len(),
            i <= cb.len(),
            forall|j: int| 0 <= j < i ==> char_views(cs@)[j] == char_views(cb@)[j],
        decreases cb.len() - i,
    {
        if !same_chars(&cs[i], &cb[i]) {
            assert(char_views(cs@)[i as int] != char_views(cb@)[i as int]);
            assert(path_components(s@).subrange(0, path_components(base@).len() as int)[i as int]
                != path_components(base@)[i as int]);
            return false;
        }
        i += 1;
    }
    assert(path_components(s@).subrange(0, path_components(base@).len() as int)
        =~= path_components(base@));
    true
}

/// Appends `path_join(base, name)` to `out`, where `base` is `s[..len]`.
pub fn push_join(out: &mut String, s: &Vec<char>, len: usize, name: &Vec<char>)
    requires
        len <= s.len(),
    ensures
        final(out)@ == old(out)@ + path_join(s@.subrange(0, len as int), name@),
{
    crate::text::push_range(out, s, 0, len);
    let ghost base = s@.subrange(0, len as int);
    if len > 0 && s[len - 1] != '/' {
        out.push('/');
    }
    crate::text::push_range(out, name, 0, name.len());
    assert(name@.subrange(0, name@.len() as int) =~= name@);
    if len > 0 && s[len - 1] != '/' {
        assert(out@ =~= old(out)@ + (base + seq!['/'] + name@)) by {
            assert(base.last() == s@[len - 1]);
        }
    } else {
        assert(out@ =~= old(out)@ + (base + name@));
    }
}

/// A normal piece of a path: non-empty, not `.`, and without separators.
pub open spec fn plain_segment(seg: Seq<char>) -> bool {
    seg.len() > 0 && seg != seq!['.'] && forall|i: int| 0 <= i < seg.len() ==> #[trigger] seg[i] != '/'
}

/// A path with nothing to trim at its end: no trailing separator or `.`.
pub open spec fn trimmed_path(d: Seq<char>) -> bool {
    d.len() > 0 && trim_back(d, body_start(d)) == d
}

proof fn lemma_last_sep_of_join(d: Seq<char>, seg: Seq<char>, b: nat)
    requires
        b <= d.len(),
        forall|i: int| 0 <= i < seg.len() ==> #[trigger] seg[i] != '/',
    ensures
        last_sep(d + seq!['/'] + seg, b) == d.len(),
    decreases seg.len(),
{
    let s = d + seq!['/'] + seg;
    if seg.len() == 0 {
        assert(s.last() == '/');
    } else {
        assert(s.last() == seg[seg.len() - 1]);
        assert(s.drop_last() =~= d + seq!['/'] + seg.drop_last());
        lemma_last_sep_of_join(d, seg.drop_last(), b);
    }
}

/// Joining a normal piece onto a non-empty path gives a trimmed path whose
/// parent is `d` with its trailing separators and `.` pieces dropped (so `d`
/// itself when `d` is trimmed).
pub proof fn lemma_parent_of_join(d: Seq<char>, seg: Seq<char>)
    requires
        d.len() > 0,
        plain_segment(seg),
    ensures
        path_parent(d + seq!['/'] + seg) == Some(trim_back(d, body_start(d))),
        trimmed_path(d + seq!['/'] + seg),
        seg != seq!['.', '.'] ==> path_file_name(d + seq!['/'] + seg) == Some(seg),
{
    let s = d + seq!['/'] + seg;
    let b = body_start(d);
    assert(s[0] == d[0]);
    if d.len() == 1 {
        assert(s[1] == '/');
    } else {
        assert(s[1] == d[1]);
    }
    assert(body_start(s) == b);
    lemma_last_sep_of_join(d, seg, b);
    assert(last_piece(s, b) =~= seg);
    assert(trim_back(s, b) == s);
    assert(cut_point(s, b) == d.len());
    assert(s.subrange(0, d.len() as int) =~= d);
}

/// The first separator of `h / x`, when `h` holds none, follows `h`.
pub proof fn lemma_first_sep_of_join(h: Seq<char>, x: Seq<char>)
    requires
        forall|i: int| 0 <= i < h.len() ==> #[trigger] h[i] != '/',
    ensures
        first_sep(h + seq!['/'] + x) == h.len(),
    decreases h.len(),
{
    let s = h + seq!['/'] + x;
    if h.len() > 0 {
        assert(s[0] == h[0]);
        assert(s.drop_first() =~= h.drop_first() + seq!['/'] + x);
        assert forall|i: int| 0 <= i < h.drop_first().len() implies #[trigger] h.drop_first()[i]
            != '/' by {
            assert(h.drop_first()[i] == h[i + 1]);
        }
        lemma_first_sep_of_join(h.drop_first(), x);
    } else {
        assert(s[0] == '/');
    }
}

/// Trimming stops at a prefix of `s` that is at least `start` long (when
/// `s` is) and that trimming leaves as it is.
pub proof fn lemma_trim_back_settles(s: Seq<char>, start: nat)
    ensures
        trim_back(s, start).len() <= s.len(),
        trim_back(s, start) =~= s.subrange(0, trim_back(s, start).len() as int),
        s.len() >= start ==> trim_back(s, start).len() >= start,
        trim_back(trim_back(s, start), start) == trim_back(s, start),
    decreases s.len(),
{
    if s.len() > start && ignorable(last_piece(s, start)) {
        lemma_last_sep(s, start);
        let s2 = s.subrange(0, cut_point(s, start));
        lemma_trim_back_settles(s2, start);
        let t = trim_back(s2, start);
        assert(t =~= s.subrange(0, t.len() as int));
    }
}

/// A path with no root and no leading current-directory `.` keeps a
/// non-empty first piece however much its end is trimmed, so its trimmed
/// form has no root and no leading `.` either.
pub proof fn lemma_trim_back_keeps_first_piece(s: Seq<char>)
    requires
        s.len() > 0,
        !has_root(s),
        !has_cur_dir(s),
    ensures
        trim_back(s, 0).len() > 0,
        !has_root(trim_back(s, 0)),
        !has_cur_dir(trim_back(s, 0)),
    decreases s.len(),
{
    if ignorable(last_piece(s, 0)) {
        lemma_last_sep(s, 0);
        let k = last_sep(s, 0);
        if k < 0 {
            assert(last_piece(s, 0) =~= s);
            assert(false);
        }
        let s2 = s.subrange(0, k);
        assert(k > 0);
        assert(s2[0] == s[0]);
        if s2.len() > 1 {
            assert(s2[1] == s[1]);
        } else {
            assert(s[1] == '/');
        }
        lemma_trim_back_keeps_first_piece(s2);
    }
}

/// The parent of a path is the parent of its trimmed form.
pub proof fn lemma_parent_of_trimmed(s: Seq<char>)
    requires
        s.len() > 0,
    ensures
        path_parent(trim_back(s, body_start(s))) == path_parent(s),
{
    let b = body_start(s);
    let t = trim_back(s, b);
    lemma_trim_back_settles(s, b);
    if has_root(s) || has_cur_dir(s) {
        assert(t[0] == s[0]);
        if t.len() > 1 {
            assert(t[1] == s[1]);
        }
    } else {
        lemma_trim_back_keeps_first_piece(s);
    }
    assert(body_start(t) == b);
    assert(has_cur_dir(t) == has_cur_dir(s));
}

/// A normal piece right below the root has the root as its parent and is
/// its own file name.
proof fn lemma_join_root(name: Seq<char>)
    requires
        plain_segment(name),
    ensures
        path_parent(seq!['/'] + name) == Some(seq!['/']),
        name != seq!['.', '.'] ==> path_file_name(seq!['/'] + name) == Some(name),
{
    let s = seq!['/'] + name;
    assert(has_root(s));
    lemma_last_sep(s, 1);
    if last_sep(s, 1) >= 1 {
        assert(s[last_sep(s, 1)] == name[last_sep(s, 1) - 1]);
    }
    assert(last_sep(s, 1) == 0);
    assert(last_piece(s, 1) =~= name);
    assert(trim_back(s, 1) == s);
    assert(s.subrange(0, 1) =~= seq!['/']);
}

/// `Path::with_file_name` on an absolute path that has a file name keeps the
/// parent and puts the new name in place of the old.
pub proof fn lemma_with_file_name(p: Seq<char>, name: Seq<char>)
    requires
        has_root(p),
        path_file_name(p) is Some,
        plain_segment(name),
    ensures
        path_parent(path_with_file_name(p, name)) == path_parent(p),
        name != seq!['.', '.'] ==> path_file_name(path_with_file_name(p, name)) == Some(name),
{
    let t = trim_back(p, 1);
    lemma_trim_back_settles(p, 1);
    assert(t[0] == p[0]);
    lemma_last_sep(t, 1);
    let x = t.subrange(0, cut_point(t, 1));
    let d = trim_back(x, 1);
    lemma_trim_back_settles(x, 1);
    assert(d[0] == x[0]);
    assert(path_parent(p) == Some(d));
    if d.len() == 1 {
        assert(d =~= seq!['/']);
        assert(path_join(d, name) == d + name);
        lemma_join_root(name);
    } else {
        assert(d.last() != '/') by {
            if d.last() == '/' {
                assert(last_sep(d, 1) == d.len() - 1);
                assert(last_piece(d, 1).len() == 0);
                lemma_last_sep(d, 1);
                lemma_trim_back_settles(d.subrange(0, cut_point(d, 1)), 1);
            }
        }
        assert(body_start(d) == 1);
        assert(trimmed_path(d));
        lemma_parent_of_join(d, name);
    }
}

} // verus!
