//! Turning the records printed by a remote discovery program into picker
//! entries: each record's path, relative to the sessions directory, becomes
//! an `ssh://` location, and the records are shown newest first.
use vstd::prelude::*;
use crate::lines::byte_views;
use crate::remote::{
    format_remote_file, join_remote_path, join_remote_view, remote_file_view, RemoteSpec,
};

verus! {

/// `ssh://host/...` for a path reported relative to the sessions directory.
pub open spec fn session_location_view(host: Seq<char>, root: Seq<char>, relative: Seq<char>) -> Seq<char> {
    remote_file_view(host, join_remote_view(root, relative))
}

/// The `ssh://` location of a rollout reported relative to the sessions
/// directory of `spec`.
pub fn remote_session_location(spec: &RemoteSpec, relative: &str) -> (r: String)
    ensures
        r@ == session_location_view(spec.host@, spec.path@, relative@),
{
    let remote_path = join_remote_path(spec.path.as_str(), relative);
    format_remote_file(spec.host.as_str(), remote_path.as_str())
}

/// Byte-wise lexicographic order, which is how Rust orders strings.
pub open spec fn bytes_lt(a: Seq<u8>, b: Seq<u8>) -> bool
    decreases a.len(),
{
    if a.len() == 0 {
        b.len() > 0
    } else if b.len() == 0 {
        false
    } else if a[0] != b[0] {
        a[0] < b[0]
    } else {
        bytes_lt(a.drop_first(), b.drop_first())
    }
}

pub proof fn lemma_bytes_lt_irreflexive(a: Seq<u8>)
    ensures
        !bytes_lt(a, a),
    decreases a.len(),
{
    if a.len() > 0 {
        lemma_bytes_lt_irreflexive(a.drop_first());
    }
}

pub proof fn lemma_bytes_lt_transitive(a: Seq<u8>, b: Seq<u8>, c: Seq<u8>)
    requires
        bytes_lt(a, b),
        bytes_lt(b, c),
    ensures
        bytes_lt(a, c),
    decreases a.len(),
{
    if a.len() > 0 && b.len() > 0 && c.len() > 0 && a[0] == b[0] && b[0] == c[0] {
        lemma_bytes_lt_transitive(a.drop_first(), b.drop_first(), c.drop_first());
    }
}

pub proof fn lemma_bytes_lt_total(a: Seq<u8>, b: Seq<u8>)
    ensures
        a == b || bytes_lt(a, b) || bytes_lt(b, a),
    decreases a.len(),
{
    if a.len() > 0 && b.len() > 0 && a[0] == b[0] {
        lemma_bytes_lt_total(a.drop_first(), b.drop_first());
        if a.drop_first() == b.drop_first() {
            assert(a =~= seq![a[0]] + a.drop_first());
            assert(b =~= seq![b[0]] + b.drop_first());
        }
    } else if a.len() == 0 && b.len() == 0 {
        assert(a =~= b);
    }
}

/// Whether `a` comes before `b` in byte-wise lexicographic order.
pub fn bytes_less(a: &Vec<u8>, b: &Vec<u8>) -> (r: bool)
    ensures
        r == bytes_lt(a@, b@),
{
    let mut i: usize = 0;
    assert(a@.skip(0) =~= a@);
    assert(b@.skip(0) =~= b@);
    while i < a.len() && i < b.len() && a[i] == b[i]
        invariant
            i <= a.len(),
            i <= b.len(),
            bytes_lt(a@, b@) == bytes_lt(a@.skip(i as int), b@.skip(i as int)),
        decreases a.len() - i,
    {
        assert(a@.skip(i as int).drop_first() =~= a@.skip(i + 1));
        assert(b@.skip(i as int).drop_first() =~= b@.skip(i + 1));
        i += 1;
    }
    if i == a.len() {
        i < b.len()
    } else if i == b.len() {
        false
    } else {
        assert(a@.skip(i as int)[0] == a@[i as int]);
        assert(b@.skip(i as int)[0] == b@[i as int]);
        a[i] < b[i]
    }
}

/// `order` lists distinct indexes below `n`, one per position.
pub open spec fn distinct_indexes(order: Seq<usize>, n: int) -> bool {
    &&& forall|i: int| 0 <= i < order.len() ==> #[trigger] order[i] < n
    &&& forall|i: int, j: int| 0 <= i < j < order.len() ==> #[trigger] order[i] != #[trigger] order[j]
}

/// No key comes before a key listed later: newest (greatest) first.
pub open spec fn newest_first_sorted(keys: Seq<Seq<u8>>, order: Seq<usize>) -> bool {
    forall|i: int, j: int|
        0 <= i < j < order.len() ==> !bytes_lt(
            keys[#[trigger] order[i] as int],
            keys[#[trigger] order[j] as int],
        )
}

/// Equal keys keep their relative input order.
pub open spec fn stable(keys: Seq<Seq<u8>>, order: Seq<usize>) -> bool {
    forall|i: int, j: int|
        0 <= i < j < order.len() && keys[#[trigger] order[i] as int] == keys[#[trigger] order[j] as int]
            ==> order[i] < order[j]
}

/// `order` is the stable newest-first arrangement of all indexes of `keys`.
pub open spec fn newest_first_order(keys: Seq<Seq<u8>>, order: Seq<usize>) -> bool {
    &&& order.len() == keys.len()
    &&& distinct_indexes(order, keys.len() as int)
    &&& newest_first_sorted(keys, order)
    &&& stable(keys, order)
}

/// Inserting index `k`, which is above every listed index, before the first
/// key that comes before its own keeps the arrangement sorted and stable.
proof fn lemma_insert_keeps_order(keys: Seq<Seq<u8>>, order: Seq<usize>, p: int, k: usize)
    requires
        k < keys.len(),
        0 <= p <= order.len(),
        distinct_indexes(order, k as int),
        newest_first_sorted(keys, order),
        stable(keys, order),
        forall|q: int| 0 <= q < p ==> !bytes_lt(keys[#[trigger] order[q] as int], keys[k as int]),
        p < order.len() ==> bytes_lt(keys[order[p] as int], keys[k as int]),
    ensures
        distinct_indexes(order.insert(p, k), k + 1),
        newest_first_sorted(keys, order.insert(p, k)),
        stable(keys, order.insert(p, k)),
{
    let s = order.insert(p, k);
    assert forall|i: int| 0 <= i < s.len() implies #[trigger] s[i] < k + 1 by {
        if i < p {
            assert(s[i] == order[i]);
        } else if i > p {
            assert(s[i] == order[i - 1]);
        }
    }
    assert forall|i: int, j: int| 0 <= i < j < s.len() implies #[trigger] s[i] != #[trigger] s[j] by {
        if i < p && j < p {
            assert(s[i] == order[i] && s[j] == order[j]);
        } else if i < p && j == p {
            assert(s[i] == order[i]);
        } else if i < p && j > p {
            assert(s[i] == order[i] && s[j] == order[j - 1]);
        } else if i == p {
            assert(s[j] == order[j - 1]);
        } else {
            assert(s[i] == order[i - 1] && s[j] == order[j - 1]);
        }
    }
    assert forall|i: int, j: int| 0 <= i < j < s.len() implies !bytes_lt(
        keys[#[trigger] s[i] as int],
        keys[#[trigger] s[j] as int],
    ) by {
        if i < p && j < p {
            assert(s[i] == order[i] && s[j] == order[j]);
        } else if i < p && j == p {
            assert(s[i] == order[i]);
        } else if i < p && j > p {
            assert(s[i] == order[i] && s[j] == order[j - 1]);
        } else if i == p {
            assert(s[j] == order[j - 1]);
            let a = keys[order[p] as int];
            let c = keys[order[j - 1] as int];
            if bytes_lt(keys[k as int], c) {
                if j - 1 > p {
                    assert(!bytes_lt(a, c));
                    lemma_bytes_lt_transitive(a, keys[k as int], c);
                } else {
                    lemma_bytes_lt_transitive(a, keys[k as int], a);
                    lemma_bytes_lt_irreflexive(a);
                }
            }
        } else {
            assert(s[i] == order[i - 1] && s[j] == order[j - 1]);
        }
    }
    assert forall|i: int, j: int|
        0 <= i < j < s.len() && keys[#[trigger] s[i] as int] == keys[#[trigger] s[j] as int]
            implies s[i] < s[j] by {
        if i < p && j < p {
            assert(s[i] == order[i] && s[j] == order[j]);
        } else if i < p && j == p {
            assert(s[i] == order[i]);
        } else if i < p && j > p {
            assert(s[i] == order[i] && s[j] == order[j - 1]);
        } else if i == p {
            assert(s[j] == order[j - 1]);
            let a = keys[order[p] as int];
            let c = keys[order[j - 1] as int];
            assert(c == keys[k as int]);
            if j - 1 > p {
                assert(!bytes_lt(a, c));
            } else {
                lemma_bytes_lt_irreflexive(a);
            }
        } else {
            assert(s[i] == order[i - 1] && s[j] == order[j - 1]);
        }
    }
}

/// The positions of the records in newest-first order of their start times,
/// compared as strings; records with equal start times keep their order.
pub fn newest_first(start_times: &Vec<Vec<u8>>) -> (order: Vec<usize>)
    ensures
        newest_first_order(byte_views(start_times@), order@),
{
    let ghost keys = byte_views(start_times@);
    let n = start_times.len();
    let mut order: Vec<usize> = Vec::new();
    let mut k: usize = 0;
    while k < n
        invariant
            k <= n == start_times.len(),
            keys == byte_views(start_times@),
            keys.len() == n,
            order.len() == k,
            distinct_indexes(order@, k as int),
            newest_first_sorted(keys, order@),
            stable(keys, order@),
        decreases n - k,
    {
        let mut p: usize = 0;
        while p < order.len() && !bytes_less(&start_times[order[p]], &start_times[k])
            invariant
                k < n == start_times.len(),
                keys == byte_views(start_times@),
                keys.len() == n,
                p <= order.len(),
                distinct_indexes(order@, k as int),
                forall|q: int|
                    0 <= q < p ==> !bytes_lt(keys[#[trigger] order@[q] as int], keys[k as int]),
            decreases order.len() - p,
        {
            assert(keys[order@[p as int] as int] == start_times@[order@[p as int] as int]@);
            p += 1;
        }
        proof {
            if p < order.len() {
                assert(keys[order@[p as int] as int] == start_times@[order@[p as int] as int]@);
                assert(keys[k as int] == start_times@[k as int]@);
            }
            lemma_insert_keeps_order(keys, order@, p as int, k);
        }
        order.insert(p, k);
        k += 1;
    }
    order
}

} // verus!
