//! Splitting command output into its non-empty lines.
use vstd::prelude::*;

verus! {

/// Index of the last newline byte in `s`, or `-1`.
pub open spec fn last_newline(s: Seq<u8>) -> int
    decreases s.len(),
{
    if s.len() == 0 {
        -1
    } else if s.last() == 10u8 {
        s.len() - 1
    } else {
        last_newline(s.drop_last())
    }
}

pub proof fn lemma_last_newline(s: Seq<u8>)
    ensures
        -1 <= last_newline(s) < s.len(),
        last_newline(s) >= 0 ==> s[last_newline(s)] == 10u8,
        forall|j: int| last_newline(s) < j < s.len() ==> s[j] != 10u8,
    decreases s.len(),
{
    if s.len() > 0 && s.last() != 10u8 {
        lemma_last_newline(s.drop_last());
        assert forall|j: int| last_newline(s) < j < s.len() implies s[j] != 10u8 by {
            if j < s.len() - 1 {
                assert(s[j] == s.drop_last()[j]);
            }
        }
        if last_newline(s) >= 0 {
            assert(s[last_newline(s)] == s.drop_last()[last_newline(s)]);
        }
    }
}

/// The non-empty lines of `s`: the pieces between newline bytes, in order,
/// without the empty ones.
pub open spec fn lines_view(s: Seq<u8>) -> Seq<Seq<u8>>
    decreases s.len(),
{
    if s.len() == 0 {
        seq![]
    } else {
        let k = last_newline(s);
        proof {
            lemma_last_newline(s);
        }
        let head = if k >= 0 {
            lines_view(s.subrange(0, k))
        } else {
            seq![]
        };
        let tail = s.subrange(k + 1, s.len() as int);
        if tail.len() == 0 {
            head
        } else {
            head.push(tail)
        }
    }
}

/// The byte sequences held by a sequence of byte vectors.
pub open spec fn byte_views(v: Seq<Vec<u8>>) -> Seq<Seq<u8>> {
    v.map_values(|b: Vec<u8>| b@)
}

/// When `s[start..i]` holds no newline and `start` begins a line, the last
/// newline of `s[..i]` is the one just before `start`.
proof fn lemma_last_newline_of_line(s: Seq<u8>, start: int, i: int)
    requires
        0 <= start <= i <= s.len(),
        start == 0 || s[start - 1] == 10u8,
        forall|j: int| start <= j < i ==> s[j] != 10u8,
    ensures
        last_newline(s.subrange(0, i)) == start - 1,
    decreases i - start,
{
    if i > start {
        assert(s.subrange(0, i).drop_last() =~= s.subrange(0, i - 1));
        lemma_last_newline_of_line(s, start, i - 1);
    } else if start > 0 {
        assert(s.subrange(0, i).last() == s[start - 1]);
    }
}

/// The lines of `s[..start]` when `start` begins a line.
proof fn lemma_lines_at_line_start(s: Seq<u8>, start: int)
    requires
        0 < start <= s.len(),
        s[start - 1] == 10u8,
    ensures
        lines_view(s.subrange(0, start)) == lines_view(s.subrange(0, start - 1)),
{
    let p = s.subrange(0, start);
    assert(p.last() == 10u8);
    assert(last_newline(p) == start - 1);
    assert(p.subrange(0, start - 1) =~= s.subrange(0, start - 1));
    assert(p.subrange(start, start) =~= Seq::<u8>::empty());
}

/// The lines of `s[..i]` when `s[start..i]` is the last, unfinished line.
proof fn lemma_lines_with_last_line(s: Seq<u8>, start: int, i: int)
    requires
        0 <= start <= i <= s.len(),
        start == 0 || s[start - 1] == 10u8,
        forall|j: int| start <= j < i ==> s[j] != 10u8,
    ensures
        lines_view(s.subrange(0, i)) == (if i > start {
            lines_view(s.subrange(0, start)).push(s.subrange(start, i))
        } else {
            lines_view(s.subrange(0, start))
        }),
{
    if i > start {
        let p = s.subrange(0, i);
        lemma_last_newline_of_line(s, start, i);
        assert(p.subrange(start, i) =~= s.subrange(start, i));
        if start > 0 {
            assert(p.subrange(0, start - 1) =~= s.subrange(0, start - 1));
            lemma_lines_at_line_start(s, start);
        } else {
            assert(s.subrange(0, 0) =~= Seq::<u8>::empty());
        }
    }
}

/// The non-empty lines of `output`.
pub fn nonempty_lines(output: &[u8]) -> (r: Vec<Vec<u8>>)
    ensures
        byte_views(r@) == lines_view(output@),
{
    let n = output.len();
    let mut out: Vec<Vec<u8>> = Vec::new();
    let mut line: Vec<u8> = Vec::new();
    let mut start: usize = 0;
    let mut i: usize = 0;
    assert(output@.subrange(0, 0) =~= Seq::<u8>::empty());
    while i < n
        invariant
            start <= i <= n == output@.len(),
            start == 0 || output@[start - 1] == 10u8,
            forall|j: int| start <= j < i ==> output@[j] != 10u8,
            line@ == output@.subrange(start as int, i as int),
            byte_views(out@) == lines_view(output@.subrange(0, start as int)),
        decreases n - i,
    {
        let b = output[i];
        if b == 10u8 {
            proof {
                lemma_lines_with_last_line(output@, start as int, i as int);
                lemma_lines_at_line_start(output@, i + 1);
                assert(output@.subrange(0, i + 1).subrange(0, i as int) =~= output@.subrange(
                    0,
                    i as int,
                ));
            }
            if i > start {
                let ghost before = byte_views(out@);
                out.push(line);
                assert(byte_views(out@) =~= before.push(output@.subrange(start as int, i as int)));
            }
            line = Vec::new();
            i += 1;
            start = i;
            assert(line@ =~= output@.subrange(start as int, i as int));
        } else {
            line.push(b);
            assert(output@.subrange(start as int, i + 1) =~= output@.subrange(
                start as int,
                i as int,
            ).push(b));
            i += 1;
        }
    }
    proof {
        lemma_lines_with_last_line(output@, start as int, n as int);
        assert(output@.subrange(0, n as int) =~= output@);
    }
    if n > start {
        let ghost before = byte_views(out@);
        out.push(line);
        assert(byte_views(out@) =~= before.push(output@.subrange(start as int, n as int)));
    }
    out
}

} // verus!
