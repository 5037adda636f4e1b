//! Minimum level filters chosen by the module path of an event.
use vstd::prelude::*;
use vstd::string::*;

use crate::buf::{compare_bytes, lemma_lex_transitive, lemma_lex_trichotomy, lex_lt};
use crate::level::{min_filter_matches, FilterLevel, Level, MinLevelFilter};

verus! {

/// The byte `:`.
pub open spec fn colon() -> u8 {
    58
}

/// The segments of `s` from `cur` on: `cur` is the current segment so far, and each
/// `::`, matched from left to right, ends a segment.
pub open spec fn split_segments(s: Seq<u8>, cur: Seq<u8>) -> Seq<Seq<u8>>
    decreases s.len(),
{
    if s.len() == 0 {
        seq![cur]
    } else if s.len() >= 2 && s[0] == colon() && s[1] == colon() {
        seq![cur] + split_segments(s.skip(2), Seq::empty())
    } else {
        split_segments(s.drop_first(), cur.push(s[0]))
    }
}

/// The segments of a module path like `a::b::c`: its text split at each `::`.
pub open spec fn path_segments(path: Seq<u8>) -> Seq<Seq<u8>> {
    split_segments(path, Seq::empty())
}

/// The text of byte strings.
pub open spec fn bytes_view(v: Seq<Vec<u8>>) -> Seq<Seq<u8>> {
    v.map_values(|b: Vec<u8>| b@)
}

/// Split the bytes of a module path into its segments at each `::`.
pub fn segments(path: &[u8]) -> (r: Vec<Vec<u8>>)
    ensures
        bytes_view(r@) == path_segments(path@),
{
    let mut out: Vec<Vec<u8>> = Vec::new();
    let mut cur: Vec<u8> = Vec::new();
    let mut i: usize = 0;
    assert(path@.skip(0) =~= path@);
    assert(bytes_view(out@) + split_segments(path@, cur@) =~= path_segments(path@));
    while i < path.len()
        invariant
            i <= path@.len(),
            bytes_view(out@) + split_segments(path@.skip(i as int), cur@) == path_segments(path@),
        decreases path@.len() - i,
    {
        let ghost rest = path@.skip(i as int);
        if i + 1 < path.len() && path[i] == 58 && path[i + 1] == 58 {
            assert(rest.skip(2) =~= path@.skip(i + 2));
            let ghost seg = cur@;
            out.push(cur);
            cur = Vec::new();
            assert(bytes_view(out@) =~= bytes_view(out@.drop_last()).push(seg));
            assert(bytes_view(out@.drop_last()) + split_segments(rest, seg) =~= bytes_view(out@) + split_segments(path@.skip(i + 2), cur@));
            i = i + 2;
        } else {
            assert(rest.drop_first() =~= path@.skip(i + 1));
            cur.push(path[i]);
            i = i + 1;
        }
    }
    assert(path@.skip(i as int) =~= Seq::<u8>::empty());
    out.push(cur);
    assert(bytes_view(out@) =~= bytes_view(out@.drop_last()).push(cur@));
    out
}

/// A node of the path tree: the filter for the path it stands at, if one was set, and
/// its children by segment, sorted.
struct PathNode<L> {
    min_level: Option<MinLevelFilter<L>>,
    children: Vec<(Vec<u8>, PathNode<L>)>,
}

/// The child of `n` under the segment `k`, if any.
spec fn child_for<L>(n: PathNode<L>, k: Seq<u8>) -> Option<PathNode<L>> {
    if exists|i: int| 0 <= i < n.children@.len() && (#[trigger] n.children@[i]).0@ == k {
        let i = choose|i: int| 0 <= i < n.children@.len() && (#[trigger] n.children@[i]).0@ == k;
        Some(n.children@[i].1)
    } else {
        None
    }
}

/// The node of the tree rooted at `n` for the path `p`, if any.
spec fn node_at<L>(n: PathNode<L>, p: Seq<Seq<u8>>) -> Option<PathNode<L>>
    decreases p.len(),
{
    if p.len() == 0 {
        Some(n)
    } else {
        match child_for(n, p[0]) {
            Some(c) => node_at(c, p.drop_first()),
            None => None,
        }
    }
}

/// The filter set for the path `p` in the tree rooted at `n`, if any.
spec fn filter_at<L>(n: PathNode<L>, p: Seq<Seq<u8>>) -> Option<(L, Option<L>)> {
    match node_at(n, p) {
        Some(m) => match m.min_level {
            Some(f) => Some(f@),
            None => None,
        },
        None => None,
    }
}

/// The children's segments are strictly sorted.
spec fn keys_sorted<L>(cs: Seq<(Vec<u8>, PathNode<L>)>) -> bool {
    forall|i: int, j: int| 0 <= i < j < cs.len() ==> lex_lt(#[trigger] cs[i].0@, #[trigger] cs[j].0@)
}

/// Every node of the tree rooted at `n` has strictly sorted children.
spec fn node_wf<L>(n: PathNode<L>) -> bool {
    forall|p: Seq<Seq<u8>>| #[trigger] node_at(n, p) is Some ==> keys_sorted(node_at(n, p).unwrap().children@)
}

proof fn lemma_child_for_index<L>(n: PathNode<L>, i: int)
    requires
        keys_sorted(n.children@),
        0 <= i < n.children@.len(),
    ensures
        child_for(n, n.children@[i].0@) == Some(n.children@[i].1),
{
    let k = n.children@[i].0@;
    assert(0 <= i < n.children@.len() && n.children@[i].0@ == k);
    let j = choose|j: int| 0 <= j < n.children@.len() && (#[trigger] n.children@[j]).0@ == k;
    lemma_lex_trichotomy(k, k);
    if j < i {
        assert(lex_lt(n.children@[j].0@, n.children@[i].0@));
    } else if j > i {
        assert(lex_lt(n.children@[i].0@, n.children@[j].0@));
    }
}

proof fn lemma_child_for_none<L>(n: PathNode<L>, k: Seq<u8>)
    requires
        forall|i: int| 0 <= i < n.children@.len() ==> (#[trigger] n.children@[i]).0@ != k,
    ensures
        child_for(n, k) is None,
{
}

/// The nodes at paths that start with `seg` are the nodes below the child under `seg`.
proof fn lemma_node_at_child<L>(n: PathNode<L>, seg: Seq<u8>, q: Seq<Seq<u8>>)
    ensures
        node_at(n, seq![seg] + q) == match child_for(n, seg) {
            Some(c) => node_at(c, q),
            None => None,
        },
{
    let p = seq![seg] + q;
    assert(p[0] == seg);
    assert(p.drop_first() =~= q);
}

/// If a path has a node, so has each of its prefixes.
proof fn lemma_node_at_prefix<L>(n: PathNode<L>, p: Seq<Seq<u8>>, k: int)
    requires
        0 <= k <= p.len(),
        node_at(n, p) is Some,
    ensures
        node_at(n, p.take(k)) is Some,
    decreases p.len(),
{
    if k > 0 {
        let c = child_for(n, p[0]).unwrap();
        lemma_node_at_prefix(c, p.drop_first(), k - 1);
        assert(p.take(k).drop_first() =~= p.drop_first().take(k - 1));
        assert(p.take(k)[0] == p[0]);
    }
}

/// The node for a path extended by one segment is the child of the path's node.
proof fn lemma_node_at_snoc<L>(n: PathNode<L>, p: Seq<Seq<u8>>, k: Seq<u8>)
    ensures
        node_at(n, p.push(k)) == match node_at(n, p) {
            Some(m) => child_for(m, k),
            None => None,
        },
    decreases p.len(),
{
    if p.len() == 0 {
        assert(p.push(k).drop_first() =~= Seq::<Seq<u8>>::empty());
        match child_for(n, k) {
            Some(c) => {
                assert(node_at(c, Seq::<Seq<u8>>::empty()) == Some(c));
            },
            None => {},
        }
    } else {
        assert(p.push(k).drop_first() =~= p.drop_first().push(k));
        assert(p.push(k)[0] == p[0]);
        match child_for(n, p[0]) {
            Some(c) => {
                lemma_node_at_snoc(c, p.drop_first(), k);
            },
            None => {},
        }
    }
}

/// The subtree under a child of a well-formed node is well-formed.
proof fn lemma_child_wf<L>(n: PathNode<L>, seg: Seq<u8>, c: PathNode<L>)
    requires
        node_wf(n),
        child_for(n, seg) == Some(c),
    ensures
        node_wf(c),
{
    assert forall|q: Seq<Seq<u8>>| #[trigger] node_at(c, q) is Some implies keys_sorted(
        node_at(c, q).unwrap().children@,
    ) by {
        lemma_node_at_child(n, seg, q);
        assert(node_at(n, seq![seg] + q) is Some);
    }
}

/// Replacing the children under segments other than `seg` by equal ones leaves the
/// children under those segments unchanged.
proof fn lemma_child_for_other<L>(n: PathNode<L>, n2: PathNode<L>, k: Seq<u8>, seg: Seq<u8>)
    requires
        keys_sorted(n.children@),
        keys_sorted(n2.children@),
        k != seg,
        forall|i: int| 0 <= i < n2.children@.len() && (#[trigger] n2.children@[i]).0@ != seg ==> exists|
            j: int,
        | 0 <= j < n.children@.len() && #[trigger] n.children@[j] == n2.children@[i],
        forall|j: int| 0 <= j < n.children@.len() && (#[trigger] n.children@[j]).0@ != seg ==> exists|
            i: int,
        | 0 <= i < n2.children@.len() && #[trigger] n2.children@[i] == n.children@[j],
    ensures
        child_for(n2, k) == child_for(n, k),
{
    if exists|i: int| 0 <= i < n2.children@.len() && (#[trigger] n2.children@[i]).0@ == k {
        let i = choose|i: int| 0 <= i < n2.children@.len() && (#[trigger] n2.children@[i]).0@ == k;
        lemma_child_for_index(n2, i);
        let j = choose|j: int| 0 <= j < n.children@.len() && #[trigger] n.children@[j] == n2.children@[i];
        lemma_child_for_index(n, j);
    } else if exists|j: int| 0 <= j < n.children@.len() && (#[trigger] n.children@[j]).0@ == k {
        let j = choose|j: int| 0 <= j < n.children@.len() && (#[trigger] n.children@[j]).0@ == k;
        let i = choose|i: int| 0 <= i < n2.children@.len() && #[trigger] n2.children@[i] == n.children@[j];
        assert(n2.children@[i].0@ == k);
    }
}

/// Setting the filter of a node itself changes only the filter at the empty path.
proof fn lemma_set_filter<L>(n: PathNode<L>, n2: PathNode<L>, v: (L, Option<L>))
    requires
        node_wf(n),
        n2.children == n.children,
        n2.min_level is Some,
        n2.min_level.unwrap()@ == v,
    ensures
        node_wf(n2),
        forall|p: Seq<Seq<u8>>| #[trigger] filter_at(n2, p) == if p.len() == 0 {
            Some(v)
        } else {
            filter_at(n, p)
        },
{
    assert forall|p: Seq<Seq<u8>>| p.len() > 0 implies #[trigger] node_at(n2, p) == node_at(n, p) by {
        assert(child_for(n2, p[0]) == child_for(n, p[0]));
    }
    assert(node_at(n, Seq::<Seq<u8>>::empty()) == Some(n));
    assert forall|p: Seq<Seq<u8>>| #[trigger] node_at(n2, p) is Some implies keys_sorted(
        node_at(n2, p).unwrap().children@,
    ) by {
        if p.len() > 0 {
            assert(node_at(n2, p) == node_at(n, p));
        }
    }
    assert forall|p: Seq<Seq<u8>>| #[trigger] filter_at(n2, p) == if p.len() == 0 {
        Some(v)
    } else {
        filter_at(n, p)
    } by {
        if p.len() > 0 {
            assert(node_at(n2, p) == node_at(n, p));
        }
    }
}

/// The children of `n` with the entry at `idx` given the subtree `c`.
proof fn lemma_children_replaced<L>(n: PathNode<L>, n2: PathNode<L>, idx: int, c: PathNode<L>)
    requires
        keys_sorted(n.children@),
        0 <= idx < n.children@.len(),
        n2.children@ == n.children@.update(idx, (n.children@[idx].0, c)),
    ensures
        keys_sorted(n2.children@),
        child_for(n2, n.children@[idx].0@) == Some(c),
        forall|k: Seq<u8>| k != n.children@[idx].0@ ==> #[trigger] child_for(n2, k) == child_for(n, k),
{
    let seg = n.children@[idx].0@;
    assert forall|a: int, b: int| 0 <= a < b < n2.children@.len() implies lex_lt(
        #[trigger] n2.children@[a].0@,
        #[trigger] n2.children@[b].0@,
    ) by {
        assert(n2.children@[a].0@ == n.children@[a].0@);
        assert(n2.children@[b].0@ == n.children@[b].0@);
    }
    lemma_child_for_index(n2, idx);
    assert forall|k: Seq<u8>| k != seg implies #[trigger] child_for(n2, k) == child_for(n, k) by {
        assert forall|a: int| 0 <= a < n2.children@.len() && (#[trigger] n2.children@[a]).0@ != seg implies exists|
            b: int,
        | 0 <= b < n.children@.len() && #[trigger] n.children@[b] == n2.children@[a] by {
            assert(n.children@[a] == n2.children@[a]);
        }
        assert forall|b: int| 0 <= b < n.children@.len() && (#[trigger] n.children@[b]).0@ != seg implies exists|
            a: int,
        | 0 <= a < n2.children@.len() && #[trigger] n2.children@[a] == n.children@[b] by {
            assert(n.children@[b] == n2.children@[b]);
        }
        lemma_child_for_other(n, n2, k, seg);
    }
}

/// The children of `n` with a new entry for `key` at `idx`, where it sorts.
proof fn lemma_children_inserted<L>(n: PathNode<L>, n2: PathNode<L>, idx: int, key: Vec<u8>, c: PathNode<L>)
    requires
        keys_sorted(n.children@),
        0 <= idx <= n.children@.len(),
        forall|j: int| 0 <= j < idx ==> lex_lt(#[trigger] n.children@[j].0@, key@),
        forall|j: int| idx <= j < n.children@.len() ==> lex_lt(key@, #[trigger] n.children@[j].0@),
        n2.children@ == n.children@.insert(idx, (key, c)),
    ensures
        keys_sorted(n2.children@),
        child_for(n, key@) is None,
        child_for(n2, key@) == Some(c),
        forall|k: Seq<u8>| k != key@ ==> #[trigger] child_for(n2, k) == child_for(n, k),
{
    let old_children = n.children@;
    let segv = key@;
    assert forall|a: int, b: int| 0 <= a < b < n2.children@.len() implies lex_lt(
        #[trigger] n2.children@[a].0@,
        #[trigger] n2.children@[b].0@,
    ) by {
        if a < idx && b < idx {
            assert(n2.children@[a] == old_children[a]);
            assert(n2.children@[b] == old_children[b]);
        } else if a < idx && b == idx {
            assert(n2.children@[a] == old_children[a]);
        } else if a < idx && b > idx {
            assert(n2.children@[a] == old_children[a]);
            assert(n2.children@[b] == old_children[b - 1]);
            lemma_lex_transitive(old_children[a].0@, segv, old_children[b - 1].0@);
        } else if a == idx {
            assert(n2.children@[b] == old_children[b - 1]);
        } else {
            assert(n2.children@[a] == old_children[a - 1]);
            assert(n2.children@[b] == old_children[b - 1]);
        }
    }
    lemma_child_for_index(n2, idx);
    assert forall|j: int| 0 <= j < old_children.len() implies (#[trigger] old_children[j]).0@ != segv by {
        lemma_lex_trichotomy(old_children[j].0@, segv);
    }
    lemma_child_for_none(n, segv);
    assert forall|k: Seq<u8>| k != segv implies #[trigger] child_for(n2, k) == child_for(n, k) by {
        assert forall|a: int| 0 <= a < n2.children@.len() && (#[trigger] n2.children@[a]).0@ != segv implies exists|
            b: int,
        | 0 <= b < old_children.len() && #[trigger] old_children[b] == n2.children@[a] by {
            if a < idx {
                assert(old_children[a] == n2.children@[a]);
            } else {
                assert(old_children[a - 1] == n2.children@[a]);
            }
        }
        assert forall|b: int| 0 <= b < old_children.len() && (#[trigger] old_children[b]).0@ != segv implies exists|
            a: int,
        | 0 <= a < n2.children@.len() && #[trigger] n2.children@[a] == old_children[b] by {
            if b < idx {
                assert(old_children[b] == n2.children@[b]);
            } else {
                assert(old_children[b] == n2.children@[b + 1]);
            }
        }
        lemma_child_for_other(n, n2, k, segv);
    }
}

/// A node that agrees with `n` but for its child under `seg`, now `c`, has the filters of
/// `n`, but at paths that start with `seg`, where it has those of `c`.
proof fn lemma_update_child<L>(
    n: PathNode<L>,
    n2: PathNode<L>,
    seg: Seq<u8>,
    c: PathNode<L>,
    t: Seq<Seq<u8>>,
    v: (L, Option<L>),
)
    requires
        node_wf(n),
        node_wf(c),
        keys_sorted(n2.children@),
        n2.min_level == n.min_level,
        child_for(n2, seg) == Some(c),
        forall|k: Seq<u8>| k != seg ==> #[trigger] child_for(n2, k) == child_for(n, k),
        forall|q: Seq<Seq<u8>>| #[trigger] filter_at(c, q) == if q == t {
            Some(v)
        } else {
            filter_at(n, seq![seg] + q)
        },
    ensures
        node_wf(n2),
        forall|p: Seq<Seq<u8>>| #[trigger] filter_at(n2, p) == if p == seq![seg] + t {
            Some(v)
        } else {
            filter_at(n, p)
        },
{
    assert(node_at(n, Seq::<Seq<u8>>::empty()) == Some(n));
    assert(node_at(n2, Seq::<Seq<u8>>::empty()) == Some(n2));
    assert forall|p: Seq<Seq<u8>>| p.len() > 0 && p[0] != seg implies #[trigger] node_at(n2, p) == node_at(
        n,
        p,
    ) by {
        assert(child_for(n2, p[0]) == child_for(n, p[0]));
    }
    assert forall|p: Seq<Seq<u8>>| #[trigger] node_at(n2, p) is Some implies keys_sorted(
        node_at(n2, p).unwrap().children@,
    ) by {
        if p.len() > 0 {
            if p[0] == seg {
                assert(node_at(n2, p) == node_at(c, p.drop_first()));
            } else {
                assert(node_at(n2, p) == node_at(n, p));
            }
        }
    }
    let target = seq![seg] + t;
    assert(target[0] == seg);
    assert(target.drop_first() =~= t);
    assert forall|p: Seq<Seq<u8>>| #[trigger] filter_at(n2, p) == if p == target {
        Some(v)
    } else {
        filter_at(n, p)
    } by {
        if p.len() > 0 {
            assert(p =~= seq![p[0]] + p.drop_first());
            if p[0] == seg {
                assert(node_at(n2, p) == node_at(c, p.drop_first()));
                assert(filter_at(n2, p) == filter_at(c, p.drop_first()));
            } else {
                assert(node_at(n2, p) == node_at(n, p));
            }
        }
    }
}

impl<L> PathNode<L> {
    /// A node with no filter and no children.
    fn new() -> (r: Self)
        ensures
            r.min_level is None,
            r.children@.len() == 0,
            node_wf(r),
            forall|p: Seq<Seq<u8>>| #[trigger] filter_at(r, p) is None,
    {
        let r = PathNode { min_level: None, children: Vec::new() };
        assert forall|p: Seq<Seq<u8>>| #[trigger] node_at(r, p) is Some implies keys_sorted(node_at(r, p).unwrap().children@) by {
            if p.len() > 0 {
                lemma_child_for_none(r, p[0]);
            }
        }
        assert forall|p: Seq<Seq<u8>>| #[trigger] filter_at(r, p) is None by {
            if p.len() > 0 {
                lemma_child_for_none(r, p[0]);
            }
        }
        r
    }
}

/// The outcome of searching sorted children for a segment: the index of the child under
/// it, or the index it would be inserted at.
fn search_children<L>(children: &Vec<(Vec<u8>, PathNode<L>)>, seg: &[u8]) -> (r: Result<usize, usize>)
    requires
        keys_sorted(children@),
    ensures
        r matches Ok(i) ==> i < children@.len() && children@[i as int].0@ == seg@,
        r matches Err(i) ==> i <= children@.len() && (forall|j: int| 0 <= j < i ==> lex_lt(
            #[trigger] children@[j].0@,
            seg@,
        )) && (forall|j: int| i <= j < children@.len() ==> lex_lt(seg@, #[trigger] children@[j].0@)),
{
    let mut lo: usize = 0;
    let mut hi: usize = children.len();
    while lo < hi
        invariant
            lo <= hi <= children@.len(),
            keys_sorted(children@),
            forall|j: int| 0 <= j < lo ==> lex_lt(#[trigger] children@[j].0@, seg@),
            forall|j: int| hi <= j < children@.len() ==> lex_lt(seg@, #[trigger] children@[j].0@),
        decreases hi - lo,
    {
        let mid = lo + (hi - lo) / 2;
        let c = compare_bytes(children[mid].0.as_slice(), seg);
        if c == 0 {
            return Ok(mid);
        } else if c < 0 {
            assert forall|j: int| 0 <= j < mid + 1 implies lex_lt(#[trigger] children@[j].0@, seg@) by {
                if j < mid {
                    lemma_lex_transitive(children@[j].0@, children@[mid as int].0@, seg@);
                }
            }
            lo = mid + 1;
        } else {
            assert forall|j: int| mid <= j < children@.len() implies lex_lt(seg@, #[trigger] children@[j].0@) by {
                if j > mid {
                    lemma_lex_transitive(seg@, children@[mid as int].0@, children@[j].0@);
                }
            }
            hi = mid;
        }
    }
    Err(lo)
}


/// Set the filter for the path `segs[i..]` below `node`, creating nodes as needed.
fn insert_filter<L>(node: &mut PathNode<L>, segs: &Vec<Vec<u8>>, i: usize, f: MinLevelFilter<L>)
    requires
        node_wf(*old(node)),
        i <= segs@.len(),
    ensures
        node_wf(*final(node)),
        forall|p: Seq<Seq<u8>>| #[trigger] filter_at(*final(node), p) == if p == bytes_view(segs@).skip(
            i as int,
        ) {
            Some(f@)
        } else {
            filter_at(*old(node), p)
        },
    decreases segs@.len() - i,
{
    let ghost old_node = *node;
    let ghost fv = f@;
    if i == segs.len() {
        node.min_level = Some(f);
        proof {
            let empty = Seq::<Seq<u8>>::empty();
            assert(bytes_view(segs@).skip(i as int) =~= empty);
            lemma_set_filter(old_node, *node, fv);
            assert forall|p: Seq<Seq<u8>>| p.len() == 0 implies p == empty by {
                assert(p =~= empty);
            }
        }
        return;
    }
    let seg = &segs[i];
    let ghost segv = seg@;
    let ghost rest = bytes_view(segs@).skip(i + 1);
    proof {
        assert(bytes_view(segs@).skip(i as int) =~= seq![segv] + rest);
        assert(node_at(old_node, Seq::<Seq<u8>>::empty()) == Some(old_node));
    }
    match search_children(&node.children, seg.as_slice()) {
        Ok(idx) => {
            let ghost old_children = node.children@;
            let (key, mut child) = node.children.remove(idx);
            proof {
                lemma_child_for_index(old_node, idx as int);
                lemma_child_wf(old_node, segv, child);
            }
            insert_filter(&mut child, segs, i + 1, f);
            let ghost new_child = child;
            node.children.insert(idx, (key, child));
            proof {
                assert(node.children@ =~= old_children.update(
                    idx as int,
                    (old_children[idx as int].0, new_child),
                ));
                lemma_children_replaced(old_node, *node, idx as int, new_child);
                assert forall|q: Seq<Seq<u8>>| #[trigger] filter_at(new_child, q) == if q == rest {
                    Some(fv)
                } else {
                    filter_at(old_node, seq![segv] + q)
                } by {
                    lemma_node_at_child(old_node, segv, q);
                }
                lemma_update_child(old_node, *node, segv, new_child, rest, fv);
            }
        },
        Err(idx) => {
            let mut child = PathNode::new();
            insert_filter(&mut child, segs, i + 1, f);
            let ghost new_child = child;
            let key = seg.clone();
            proof {
                assert(key@ =~= segv);
            }
            node.children.insert(idx, (key, child));
            proof {
                lemma_children_inserted(old_node, *node, idx as int, key, new_child);
                assert forall|q: Seq<Seq<u8>>| #[trigger] filter_at(new_child, q) == if q == rest {
                    Some(fv)
                } else {
                    filter_at(old_node, seq![segv] + q)
                } by {
                    lemma_node_at_child(old_node, segv, q);
                }
                lemma_update_child(old_node, *node, segv, new_child, rest, fv);
            }
        },
    }
}


/// The filter that applies to an event from the module with segments `segs`, looking at
/// its first `k` segments: the filter set for the longest of those prefixes that has one.
pub open spec fn deepest_filter<L>(
    m: Map<Seq<Seq<u8>>, (L, Option<L>)>,
    segs: Seq<Seq<u8>>,
    k: nat,
) -> Option<(L, Option<L>)>
    decreases k,
{
    if m.dom().contains(segs.take(k as int)) {
        Some(m[segs.take(k as int)])
    } else if k == 0 {
        None
    } else {
        deepest_filter(m, segs, (k - 1) as nat)
    }
}

/// Whether a path map with filters `m` lets an event through from the module with
/// segments `segs` that carries the level `lvl`: the filter set for the longest prefix
/// of the module that has one decides; with no such filter, the event passes.
pub open spec fn path_map_matches<L: FilterLevel>(
    m: Map<Seq<Seq<u8>>, (L, Option<L>)>,
    segs: Seq<Seq<u8>>,
    lvl: Option<L>,
) -> bool {
    match deepest_filter(m, segs, segs.len()) {
        Some(f) => min_filter_matches(f.0, f.1, lvl),
        None => true,
    }
}

/// A filter that applies a [`MinLevelFilter`] based on the module of an event.
///
/// Different modules can apply different level filters. Event modules are matched by
/// their segments: the filter of the most specific module in the map that the event's
/// module is, or is a child of, is checked. If an event's module doesn't match any in the
/// map then it passes the filter, unless a default was set with
/// [`MinLevelPathMap::default_min_level`].
pub struct MinLevelPathMap<L> {
    root: PathNode<L>,
}

impl<L> MinLevelPathMap<L> {
    #[verifier::type_invariant]
    spec fn inv(self) -> bool {
        node_wf(self.root)
    }
}

impl<L> View for MinLevelPathMap<L> {
    /// The filters set, by the segments of the module they were set for; the default is
    /// set for the empty sequence of segments.
    type V = Map<Seq<Seq<u8>>, (L, Option<L>)>;

    closed spec fn view(&self) -> Map<Seq<Seq<u8>>, (L, Option<L>)> {
        filters_of(self.root)
    }
}

/// The filters set in the tree rooted at `n`, by path.
spec fn filters_of<L>(n: PathNode<L>) -> Map<Seq<Seq<u8>>, (L, Option<L>)> {
    Map::new(|p: Seq<Seq<u8>>| filter_at(n, p) is Some, |p: Seq<Seq<u8>>| filter_at(n, p).unwrap())
}

/// Past the first prefix of `segs` without a node, no longer prefix has a filter.
proof fn lemma_deepest_after_missing<L>(root: PathNode<L>, segs: Seq<Seq<u8>>, i: int, k: nat)
    requires
        0 <= i < k <= segs.len(),
        node_at(root, segs.take(i + 1)) is None,
    ensures
        deepest_filter(filters_of(root), segs, k) == deepest_filter(filters_of(root), segs, i as nat),
    decreases k,
{
    if node_at(root, segs.take(k as int)) is Some {
        lemma_node_at_prefix(root, segs.take(k as int), i + 1);
        assert(segs.take(k as int).take(i + 1) =~= segs.take(i + 1));
    }
    assert(!filters_of(root).dom().contains(segs.take(k as int)));
    if k > i + 1 {
        lemma_deepest_after_missing(root, segs, i, (k - 1) as nat);
    }
}

/// Each module path's filters, in order, as segments and filter views.
pub open spec fn levels_view<L>(levels: Seq<(&str, MinLevelFilter<L>)>) -> Seq<(Seq<Seq<u8>>, (L, Option<L>))> {
    levels.map_values(|e: (&str, MinLevelFilter<L>)| (path_segments(e.0.spec_bytes()), e.1@))
}

/// The filters `m` with each of `levels` set in turn.
pub open spec fn insert_all<L>(
    m: Map<Seq<Seq<u8>>, (L, Option<L>)>,
    levels: Seq<(Seq<Seq<u8>>, (L, Option<L>))>,
) -> Map<Seq<Seq<u8>>, (L, Option<L>)>
    decreases levels.len(),
{
    if levels.len() == 0 {
        m
    } else {
        insert_all(m.insert(levels[0].0, levels[0].1), levels.drop_first())
    }
}

impl<L: FilterLevel> MinLevelPathMap<L> {
    /// Create an empty map.
    pub fn new() -> (r: Self)
        ensures
            r@ == Map::<Seq<Seq<u8>>, (L, Option<L>)>::empty(),
    {
        let r = MinLevelPathMap { root: PathNode::new() };
        assert(r@ =~= Map::<Seq<Seq<u8>>, (L, Option<L>)>::empty());
        r
    }

    /// Specify the minimum level for any modules that don't match any added by
    /// [`MinLevelPathMap::min_level`].
    pub fn default_min_level(&mut self, min_level: MinLevelFilter<L>) -> (r: &mut Self)
        ensures
            (*r)@ == old(self)@.insert(Seq::empty(), min_level@),
            *final(self) == *final(r),
    {
        proof {
            use_type_invariant(&*self);
        }
        let ghost old_root = self.root;
        let ghost fv = min_level@;
        let mut root = PathNode::new();
        core::mem::swap(&mut root, &mut self.root);
        root.min_level = Some(min_level);
        proof {
            lemma_set_filter(old_root, root, fv);
        }
        self.root = root;
        proof {
            let empty = Seq::<Seq<u8>>::empty();
            assert forall|p: Seq<Seq<u8>>| p.len() == 0 implies p == empty by {
                assert(p =~= empty);
            }
            assert(self@ =~= old(self)@.insert(empty, fv));
        }
        self
    }

    /// Specify the minimum level for a module and its children.
    pub fn min_level(&mut self, path: &str, min_level: MinLevelFilter<L>) -> (r: &mut Self)
        ensures
            (*r)@ == old(self)@.insert(path_segments(path.spec_bytes()), min_level@),
            *final(self) == *final(r),
    {
        proof {
            use_type_invariant(&*self);
        }
        let ghost old_root = self.root;
        let ghost fv = min_level@;
        let segs = segments(path.as_bytes());
        let mut root = PathNode::new();
        core::mem::swap(&mut root, &mut self.root);
        insert_filter(&mut root, &segs, 0, min_level);
        self.root = root;
        proof {
            assert(bytes_view(segs@).skip(0) =~= bytes_view(segs@));
            assert(self@ =~= old(self)@.insert(path_segments(path.spec_bytes()), fv));
        }
        self
    }

    /// Whether an event from the module `path` that carries the level `lvl` (`None` for
    /// an unleveled event) passes: the filter of the most specific module in the map that
    /// `path` is, or is a child of, decides, and with none the event passes.
    pub fn matches(&self, path: &str, lvl: Option<L>) -> (r: bool)
        ensures
            r == path_map_matches(self@, path_segments(path.spec_bytes()), lvl),
    {
        proof {
            use_type_invariant(self);
        }
        let segs = segments(path.as_bytes());
        let ghost sv = bytes_view(segs@);
        let ghost m = self@;
        let mut node = &self.root;
        let mut filter: Option<&MinLevelFilter<L>> = self.root.min_level.as_ref();
        let mut i: usize = 0;
        let mut done = false;
        proof {
            assert(sv.take(0) =~= Seq::<Seq<u8>>::empty());
            assert(node_at(self.root, sv.take(0)) == Some(self.root));
        }
        while i < segs.len() && !done
            invariant
                i <= segs@.len(),
                sv == bytes_view(segs@),
                sv.len() == segs@.len(),
                node_wf(self.root),
                m == filters_of(self.root),
                node_at(self.root, sv.take(i as int)) == Some(*node),
                match filter {
                    Some(f) => deepest_filter(m, sv, i as nat) == Some(f@),
                    None => deepest_filter(m, sv, i as nat) is None,
                },
                done ==> i < sv.len() && node_at(self.root, sv.take(i + 1)) is None,
            decreases sv.len() - i + if done { 0int } else { 1int },
        {
            let seg = &segs[i];
            let ghost segv = sv[i as int];
            assert(seg@ == segv);
            assert(keys_sorted(node.children@));
            proof {
                lemma_node_at_snoc(self.root, sv.take(i as int), segv);
                assert(sv.take(i + 1) =~= sv.take(i as int).push(segv));
            }
            match search_children(&node.children, seg.as_slice()) {
                Ok(idx) => {
                    proof {
                        lemma_child_for_index(*node, idx as int);
                    }
                    node = &node.children[idx].1;
                    if node.min_level.is_some() {
                        filter = node.min_level.as_ref();
                    }
                    i = i + 1;
                },
                Err(_) => {
                    proof {
                        assert forall|j: int| 0 <= j < node.children@.len() implies (
                        #[trigger] node.children@[j]).0@ != segv by {
                            lemma_lex_trichotomy(node.children@[j].0@, segv);
                        }
                        lemma_child_for_none(*node, segv);
                    }
                    done = true;
                },
            }
        }
        proof {
            if done {
                lemma_deepest_after_missing(self.root, sv, i as int, sv.len());
            }
        }
        match filter {
            Some(f) => f.matches(lvl),
            None => true,
        }
    }
}

/// Construct a set of [`MinLevelFilter`]s that are applied based on the module of an event.
pub fn min_by_path_filter(levels: Vec<(&str, MinLevelFilter<Level>)>) -> (r: MinLevelPathMap<Level>)
    ensures
        r@ == insert_all(Map::empty(), levels_view(levels@)),
{
    let mut map = MinLevelPathMap::new();
    let mut rest = levels;
    while rest.len() > 0
        invariant
            insert_all(map@, levels_view(rest@)) == insert_all(Map::empty(), levels_view(levels@)),
        decreases rest.len(),
    {
        let ghost before = levels_view(rest@);
        let (path, min_level) = rest.remove(0);
        proof {
            assert(levels_view(rest@) =~= before.drop_first());
        }
        map.min_level(path, min_level);
    }
    map
}


/// Prefixes of `segs` longer than `lo` and no longer than `k` without a filter don't
/// change which filter applies.
proof fn lemma_deepest_skip<L>(m: Map<Seq<Seq<u8>>, (L, Option<L>)>, segs: Seq<Seq<u8>>, lo: nat, k: nat)
    requires
        lo <= k,
        forall|j: int| lo < j <= k ==> !m.dom().contains(#[trigger] segs.take(j)),
    ensures
        deepest_filter(m, segs, k) == deepest_filter(m, segs, lo),
    decreases k,
{
    if k > lo {
        assert(!m.dom().contains(segs.take(k as int)));
        lemma_deepest_skip(m, segs, lo, (k - 1) as nat);
    }
}

/// A filter set for a module decides for events from that module, and from each of its
/// children that no more specific module in the map covers.
pub proof fn law_path_filter_covers_children<L: FilterLevel>(
    m: Map<Seq<Seq<u8>>, (L, Option<L>)>,
    module: Seq<Seq<u8>>,
    child: Seq<Seq<u8>>,
    f: (L, Option<L>),
    lvl: Option<L>,
)
    requires
        module.len() <= child.len(),
        child.take(module.len() as int) == module,
        forall|k: int| module.len() < k <= child.len() ==> !m.dom().contains(#[trigger] child.take(k)),
    ensures
        path_map_matches(m.insert(module, f), child, lvl) == min_filter_matches(f.0, f.1, lvl),
{
    let m2 = m.insert(module, f);
    assert forall|k: int| module.len() < k <= child.len() implies !m2.dom().contains(#[trigger] child.take(k)) by {
        assert(child.take(k).len() != module.len());
    }
    lemma_deepest_skip(m2, child, module.len(), child.len());
}

/// With no filter set for a module, for any module it is a child of, or as a default,
/// events from it pass whatever their level.
pub proof fn law_unmatched_module_passes<L: FilterLevel>(
    m: Map<Seq<Seq<u8>>, (L, Option<L>)>,
    module: Seq<Seq<u8>>,
    lvl: Option<L>,
)
    requires
        forall|k: int| 0 <= k <= module.len() ==> !m.dom().contains(#[trigger] module.take(k)),
    ensures
        path_map_matches(m, module, lvl),
{
    lemma_deepest_skip(m, module, 0, module.len());
    assert(!m.dom().contains(module.take(0)));
}

} // verus!
