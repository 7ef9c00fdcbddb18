//! The directory tree of a manifest, held as an arena: node 0 is the root, every
//! other node names its parent by index, and parents come before children.
use vstd::prelude::*;
use crate::manifest::{ManifestEntry, same_bytes, under};
use crate::name::{run_before, short_name, short_name_of, MAX_NAME, SLASH};
use crate::BuildError;

verus! {

pub struct Node {
    /// Full logical path; empty for the root.
    pub path: Vec<u8>,
    /// Where the last component starts in `path`.
    pub name_lo: usize,
    pub parent: usize,
    pub is_dir: bool,
    /// For a file, the manifest entry it holds.
    pub entry: usize,
    /// The 8.3 name of the last component.
    pub short: Vec<u8>,
}

pub open spec fn node_wf(t: Seq<Node>, k: int) -> bool {
    let n = t[k];
    &&& 0 <= n.parent < k
    &&& t[n.parent as int].is_dir
    &&& n.name_lo < n.path@.len()
    &&& n.path@.len() - n.name_lo <= MAX_NAME
    &&& n.short@ == short_name(n.path@.subrange(n.name_lo as int, n.path@.len() as int))
    &&& if n.parent == 0 {
        n.name_lo == 0
    } else {
        n.name_lo > 0 && n.path@[n.name_lo - 1] == SLASH
            && n.path@.take(n.name_lo - 1) == t[n.parent as int].path@
    }
}

/// The root first, then nodes whose parents are directories that come before them.
pub open spec fn tree_wf(t: Seq<Node>) -> bool {
    &&& t.len() > 0
    &&& t[0].is_dir
    &&& t[0].path@.len() == 0
    &&& forall|k: int| 0 < k < t.len() ==> #[trigger] node_wf(t, k)
}

/// Some file node holds manifest entry `i`.
pub open spec fn holds_entry(t: Seq<Node>, i: int) -> bool {
    exists|k: int| 0 < k < t.len() && !(#[trigger] t[k]).is_dir && t[k].entry == i
}

/// No two directory nodes share a path.
pub open spec fn dirs_unique(t: Seq<Node>) -> bool {
    forall|a: int, b: int| 0 <= a < b < t.len() && (#[trigger] t[a]).is_dir && (#[trigger] t[b]).is_dir
        ==> t[a].path@ != t[b].path@
}

/// Every directory below the root is one that some manifest path passes through.
pub open spec fn dirs_needed(t: Seq<Node>, m: Seq<ManifestEntry>) -> bool {
    forall|k: int| 0 < k < t.len() && (#[trigger] t[k]).is_dir ==>
        exists|i: int| 0 <= i < m.len() && under(t[k].path@, #[trigger] m[i].path@)
}

/// Every file node holds a manifest entry under that entry's path, every
/// manifest entry has a file node, and the directories are those the paths
/// pass through, each once.
pub open spec fn tree_of(t: Seq<Node>, m: Seq<ManifestEntry>) -> bool {
    &&& tree_wf(t)
    &&& dirs_unique(t)
    &&& dirs_needed(t, m)
    &&& forall|k: int| 0 < k < t.len() && !(#[trigger] t[k]).is_dir ==>
        t[k].entry < m.len() && t[k].path@ == m[t[k].entry as int].path@
    &&& forall|i: int| 0 <= i < m.len() ==> #[trigger] holds_entry(t, i)
}

/// What a node records: path, start of its name, parent, kind, manifest entry.
pub type NodeView = (Seq<u8>, int, int, bool, int);

pub open spec fn node_view(n: Node) -> NodeView {
    (n.path@, n.name_lo as int, n.parent as int, n.is_dir, n.entry as int)
}

pub open spec fn views(t: Seq<Node>) -> Seq<NodeView> {
    Seq::new(t.len(), |k: int| node_view(t[k]))
}

/// The first directory among `ts[..n]` whose path is `q`, or -1.
pub open spec fn find_first(ts: Seq<NodeView>, q: Seq<u8>, n: int) -> int
    decreases n,
{
    if n <= 0 {
        -1
    } else {
        let f = find_first(ts, q, n - 1);
        if f >= 0 { f } else if ts[n - 1].3 && ts[n - 1].0 == q { n - 1 } else { -1 }
    }
}

/// Walks path `p` from byte `j`, in directory `cur` whose component starts at
/// `start`, adding each directory not met before; ends with the tree, the
/// directory of the last component, and where that component starts.
pub open spec fn walk(ts: Seq<NodeView>, p: Seq<u8>, j: int, cur: int, start: int) -> (Seq<NodeView>, int, int)
    decreases p.len() - j,
{
    if j >= p.len() || j < 0 {
        (ts, cur, start)
    } else if p[j] == SLASH {
        let f = find_first(ts, p.take(j), ts.len() as int);
        if f >= 0 {
            walk(ts, p, j + 1, f, j + 1)
        } else {
            walk(ts.push((p.take(j), start, cur, true, 0)), p, j + 1, ts.len() as int, j + 1)
        }
    } else {
        walk(ts, p, j + 1, cur, start)
    }
}

pub open spec fn add_file(ts: Seq<NodeView>, p: Seq<u8>, i: int) -> Seq<NodeView> {
    let w = walk(ts, p, 0, 0, 0);
    w.0.push((p, w.2, w.1, false, i))
}

/// The tree of the first `i` manifest entries: the root, then for each entry the
/// directories it passes through that are new, then its file.
pub open spec fn tree_model(m: Seq<ManifestEntry>, i: int) -> Seq<NodeView>
    decreases i,
{
    if i <= 0 {
        seq![(Seq::<u8>::empty(), 0int, 0int, true, 0int)]
    } else {
        add_file(tree_model(m, i - 1), m[i - 1].path@, i - 1)
    }
}

pub proof fn lemma_find_first(ts: Seq<NodeView>, q: Seq<u8>, n: int)
    requires
        0 <= n <= ts.len(),
    ensures
        find_first(ts, q, n) == -1 <==> forall|k: int| 0 <= k < n ==> !(ts[k].3 && ts[k].0 == q),
        find_first(ts, q, n) >= 0 ==> find_first(ts, q, n) < n && ts[find_first(ts, q, n)].3
            && ts[find_first(ts, q, n)].0 == q
            && forall|k: int| 0 <= k < find_first(ts, q, n) ==> !(ts[k].3 && ts[k].0 == q),
        find_first(ts, q, n) >= -1,
    decreases n,
{
    if n > 0 {
        lemma_find_first(ts, q, n - 1);
    }
}

/// Index of the directory node whose path is `p[..len]`, if there is one.
fn find_dir(t: &Vec<Node>, p: &Vec<u8>, len: usize) -> (r: Option<usize>)
    requires
        len <= p@.len(),
    ensures
        r matches Some(k) ==> k < t@.len() && t@[k as int].is_dir && t@[k as int].path@ == p@.take(len as int),
        r is None ==> forall|k: int| 0 <= k < t@.len() && (#[trigger] t@[k]).is_dir ==> t@[k].path@ != p@.take(len as int),
        r matches Some(k) ==> forall|j: int| 0 <= j < k && (#[trigger] t@[j]).is_dir ==> t@[j].path@ != p@.take(len as int),
{
    let mut prefix: Vec<u8> = Vec::new();
    let mut i: usize = 0;
    while i < len
        invariant
            len <= p@.len(),
            i <= len,
            prefix@ =~= p@.take(i as int),
        decreases len - i,
    {
        prefix.push(p[i]);
        i = i + 1;
        assert(prefix@ =~= p@.take(i as int));
    }
    let mut k: usize = 0;
    while k < t.len()
        invariant
            prefix@ == p@.take(len as int),
            k <= t@.len(),
            forall|j: int| 0 <= j < k && (#[trigger] t@[j]).is_dir ==> t@[j].path@ != p@.take(len as int),
        decreases t@.len() - k,
    {
        if t[k].is_dir && same_bytes(&t[k].path, &prefix) {
            return Some(k);
        }
        k = k + 1;
    }
    None
}

fn copy_prefix(p: &Vec<u8>, len: usize) -> (r: Vec<u8>)
    requires
        len <= p@.len(),
    ensures
        r@ == p@.take(len as int),
{
    let mut out: Vec<u8> = Vec::new();
    let mut i: usize = 0;
    while i < len
        invariant
            len <= p@.len(),
            i <= len,
            out@ =~= p@.take(i as int),
        decreases len - i,
    {
        out.push(p[i]);
        i = i + 1;
        assert(out@ =~= p@.take(i as int));
    }
    out
}

/// Builds the tree of a well-formed manifest, creating each directory that a
/// path passes through the first time it is met. Nodes come in manifest order.
pub fn build_tree(m: &Vec<ManifestEntry>) -> (r: Vec<Node>)
    requires
        forall|i: int| 0 <= i < m@.len() ==> crate::name::valid_path(#[trigger] m@[i].path@),
    ensures
        tree_of(r@, m@),
        views(r@) == tree_model(m@, m@.len() as int),
{
    let mut t: Vec<Node> = Vec::new();
    t.push(Node { path: Vec::new(), name_lo: 0, parent: 0, is_dir: true, entry: 0, short: Vec::new() });
    assert(views(t@) =~= tree_model(m@, 0));
    let mut i: usize = 0;
    while i < m.len()
        invariant
            i <= m@.len(),
            forall|q: int| 0 <= q < m@.len() ==> crate::name::valid_path(#[trigger] m@[q].path@),
            tree_wf(t@),
            dirs_unique(t@),
            dirs_needed(t@, m@),
            forall|k: int| 0 < k < t@.len() && !(#[trigger] t@[k]).is_dir ==>
                t@[k].entry < m@.len() && t@[k].path@ == m@[t@[k].entry as int].path@,
            forall|q: int| 0 <= q < i ==> #[trigger] holds_entry(t@, q),
            views(t@) == tree_model(m@, i as int),
        decreases m@.len() - i,
    {
        let ghost goal = walk(tree_model(m@, i as int), m@[i as int].path@, 0, 0, 0);
        let p = &m[i].path;
        let n = p.len();
        let mut cur: usize = 0;
        let mut start: usize = 0;
        let mut j: usize = 0;
        while j < n
            invariant
                i < m@.len(),
                p == &m@[i as int].path,
                n == p@.len(),
                crate::name::valid_path(p@),
                start <= j <= n,
                tree_wf(t@),
                dirs_unique(t@),
                dirs_needed(t@, m@),
                cur < t@.len(),
                t@[cur as int].is_dir,
                cur == 0 ==> start == 0,
                run_before(p@, j as int) == j - start,
                cur != 0 ==> start > 0 && p@[start - 1] == SLASH && t@[cur as int].path@ == p@.take(start - 1),
                start < n,
                forall|k: int| 0 < k < t@.len() && !(#[trigger] t@[k]).is_dir ==>
                    t@[k].entry < m@.len() && t@[k].path@ == m@[t@[k].entry as int].path@,
                forall|q: int| 0 <= q < i ==> #[trigger] holds_entry(t@, q),
                walk(views(t@), p@, j as int, cur as int, start as int) == goal,
                goal == walk(tree_model(m@, i as int), m@[i as int].path@, 0, 0, 0),
            decreases n - j,
        {
            assert(run_before(p@, j as int) <= MAX_NAME);
            if p[j] == SLASH {
                assert(j > start) by {
                    if j == start {
                        if start == 0 {
                        } else {
                            assert(p@[start - 1] == SLASH && p@[(start - 1) + 1] != SLASH);
                        }
                    }
                }
                let ghost before = t@;
                let ghost vs = views(t@);
                proof {
                    lemma_find_first(vs, p@.take(j as int), vs.len() as int);
                }
                match find_dir(&t, p, j) {
                    Some(k) => {
                        let ghost f = find_first(vs, p@.take(j as int), vs.len() as int);
                        assert(vs[k as int].3 && vs[k as int].0 == p@.take(j as int));
                        assert(f == k) by {
                            if f < k {
                                assert(t@[f].is_dir && t@[f].path@ == p@.take(j as int));
                            }
                        }
                        assert(walk(vs, p@, j as int, cur as int, start as int)
                            == walk(vs, p@, j + 1, k as int, j + 1));
                        cur = k;
                    },
                    None => {
                        let path = copy_prefix(p, j);
                        let short = short_name_of(p, start, j);
                        assert(path@.subrange(start as int, j as int) =~= p@.subrange(start as int, j as int));
                        assert(cur != 0 ==> path@.take(start - 1) =~= p@.take(start - 1));
                        let ghost nv: NodeView = (p@.take(j as int), start as int, cur as int, true, 0int);
                        assert(find_first(vs, p@.take(j as int), vs.len() as int) == -1) by {
                            assert forall|k: int| 0 <= k < vs.len() implies !(vs[k].3 && vs[k].0 == p@.take(j as int)) by {
                                assert(vs[k] == node_view(t@[k]));
                            }
                        }
                        assert(walk(vs, p@, j as int, cur as int, start as int)
                            == walk(vs.push(nv), p@, j + 1, vs.len() as int, j + 1));
                        t.push(Node { path, name_lo: start, parent: cur, is_dir: true, entry: 0, short });
                        assert(views(t@) =~= vs.push(nv));
                        assert(node_wf(t@, t@.len() - 1));
                        assert(under(p@.take(j as int), m@[i as int].path@));
                        assert forall|a: int| 0 < a < t@.len() && (#[trigger] t@[a]).is_dir implies
                            exists|q: int| 0 <= q < m@.len() && under(t@[a].path@, #[trigger] m@[q].path@) by {
                            if a < t@.len() - 1 {
                                assert(t@[a] == before[a]);
                            } else {
                                assert(under(t@[a].path@, m@[i as int].path@));
                            }
                        }
                        assert forall|a: int, b: int| 0 <= a < b < t@.len() && (#[trigger] t@[a]).is_dir
                            && (#[trigger] t@[b]).is_dir implies t@[a].path@ != t@[b].path@ by {
                            if b < t@.len() - 1 {
                                assert(t@[a] == before[a] && t@[b] == before[b]);
                            } else {
                                assert(t@[a] == before[a]);
                            }
                        }
                        assert forall|k: int| 0 < k < t@.len() implies #[trigger] node_wf(t@, k) by {
                            if k < t@.len() - 1 {
                                assert(node_wf(before, k));
                            }
                        }
                        assert forall|q: int| 0 <= q < i implies #[trigger] holds_entry(t@, q) by {
                            assert(holds_entry(before, q));
                            let k = choose|k: int| 0 < k < before.len() && !(#[trigger] before[k]).is_dir
                                && before[k].entry == q;
                            assert(t@[k] == before[k]);
                        }
                        cur = t.len() - 1;
                    },
                }
                assert(t@[cur as int].path@ == p@.take(j as int));
                assert(j + 1 < n) by {
                    assert(p@[j as int] == SLASH);
                }
                start = j + 1;
            } else {
                assert(walk(views(t@), p@, j as int, cur as int, start as int)
                    == walk(views(t@), p@, j + 1, cur as int, start as int));
            }
            j = j + 1;
        }
        let ghost before = t@;
        assert(run_before(p@, n as int) <= MAX_NAME);
        assert(walk(views(t@), p@, n as int, cur as int, start as int) == (views(t@), cur as int, start as int));
        let path = copy_prefix(p, n);
        let short = short_name_of(p, start, n);
        assert(path@ =~= p@);
        assert(path@.subrange(start as int, n as int) =~= p@.subrange(start as int, n as int));
        assert(cur != 0 ==> path@.take(start - 1) =~= p@.take(start - 1));
        t.push(Node { path, name_lo: start, parent: cur, is_dir: false, entry: i, short });
        assert(views(t@) =~= views(before).push((m@[i as int].path@, start as int, cur as int, false, i as int)));
        assert(views(t@) == tree_model(m@, i + 1));
        assert(node_wf(t@, t@.len() - 1));
        assert forall|a: int| 0 < a < t@.len() && (#[trigger] t@[a]).is_dir implies
            exists|q: int| 0 <= q < m@.len() && under(t@[a].path@, #[trigger] m@[q].path@) by {
            assert(t@[a] == before[a]);
        }
        assert forall|a: int, b: int| 0 <= a < b < t@.len() && (#[trigger] t@[a]).is_dir
            && (#[trigger] t@[b]).is_dir implies t@[a].path@ != t@[b].path@ by {
            assert(t@[a] == before[a] && t@[b] == before[b]);
        }
        assert forall|k: int| 0 < k < t@.len() implies #[trigger] node_wf(t@, k) by {
            if k < t@.len() - 1 {
                assert(node_wf(before, k));
            }
        }
        assert forall|q: int| 0 <= q < i + 1 implies #[trigger] holds_entry(t@, q) by {
            if q == i {
                assert(!t@[t@.len() - 1].is_dir);
            } else {
                assert(holds_entry(before, q));
                let k = choose|k: int| 0 < k < before.len() && !(#[trigger] before[k]).is_dir
                    && before[k].entry == q;
                assert(t@[k] == before[k]);
            }
        }
        i = i + 1;
    }
    t
}

} // verus!

verus! {

/// Nodes `a` and `b` sit in one directory under one 8.3 name.
pub open spec fn clash(t: Seq<Node>, a: int, b: int) -> bool {
    0 < a < b < t.len() && t[a].parent == t[b].parent && t[a].short@ == t[b].short@
}

pub open spec fn has_clash(t: Seq<Node>) -> bool {
    exists|a: int, b: int| #[trigger] clash(t, a, b)
}

/// Fails where two entries of one directory would share an 8.3 name.
pub fn check_names(t: &Vec<Node>) -> (r: Result<(), BuildError>)
    ensures
        (r is Ok) <==> !has_clash(t@),
        r is Err ==> r matches Err(BuildError::NameCollision { .. }),
        r matches Err(BuildError::NameCollision { first, second }) ==> exists|a: int, b: int|
            #[trigger] clash(t@, a, b) && first@ == t@[a].path@ && second@ == t@[b].path@,
{
    let n = t.len();
    let mut b: usize = 1;
    while b < n
        invariant
            n == t@.len(),
            1 <= b,
            forall|x: int, y: int| #[trigger] clash(t@, x, y) ==> y >= b,
        decreases n - b,
    {
        let mut a: usize = 1;
        while a < b
            invariant
                n == t@.len(),
                1 <= a <= b < n,
                forall|x: int, y: int| #[trigger] clash(t@, x, y) ==> y >= b,
                forall|x: int| #[trigger] clash(t@, x, b as int) ==> x >= a,
            decreases b - a,
        {
            if t[a].parent == t[b].parent && same_bytes(&t[a].short, &t[b].short) {
                let first = t[a].path.clone();
                let second = t[b].path.clone();
                assert(clash(t@, a as int, b as int));
                return Err(BuildError::NameCollision { first, second });
            }
            a = a + 1;
        }
        b = b + 1;
    }
    Ok(())
}

} // verus!
