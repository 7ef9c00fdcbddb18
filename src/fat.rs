//! The FAT32 volume: cluster accounting, the allocation table, directory
//! entries and the data region.
//!
//! Clusters are handed out first-fit on an empty volume, so each node of the
//! tree gets one contiguous run, in node order, starting at cluster 2 (the root).
use vstd::prelude::*;
use crate::bytes::{le16, le32, zeros, push_le16, push_le32, push_zeros, push_slice};
use crate::layout::{MAX_CLUSTERS, SLACK};
use crate::manifest::ManifestEntry;
use crate::tree::{Node, tree_of, tree_wf};
use crate::BuildError;

verus! {

pub open spec fn ceil_div(a: nat, b: nat) -> nat {
    if b == 0 { 0 } else { ((a + b - 1) as int / b as int) as nat }
}

/// The last component of node `c`'s path.
pub open spec fn node_name(t: Seq<Node>, c: int) -> Seq<u8> {
    t[c].path@.subrange(t[c].name_lo as int, t[c].path@.len() as int)
}

/// Long-name entries for a name of `len` bytes: 13 characters each.
pub open spec fn lfn_count(len: nat) -> nat {
    ((len + 12) as int / 13) as nat
}

/// Directory entries of node `c`: its long-name entries and its 8.3 entry.
pub open spec fn slots(t: Seq<Node>, c: int) -> nat {
    1 + lfn_count(node_name(t, c).len())
}

/// Directory entries that the children of `d` among nodes `1..upto` take.
pub open spec fn child_slots(t: Seq<Node>, d: int, upto: int) -> nat
    decreases upto,
{
    if upto <= 1 {
        0
    } else {
        child_slots(t, d, upto - 1) + if t[upto - 1].parent == d { slots(t, upto - 1) } else { 0nat }
    }
}

pub proof fn lemma_child_slots_mono(t: Seq<Node>, d: int, a: int, b: int)
    requires
        a <= b,
    ensures
        child_slots(t, d, a) <= child_slots(t, d, b),
    decreases b - a,
{
    if a < b {
        lemma_child_slots_mono(t, d, a, b - 1);
    }
}

/// Directory entries of node `d`: its children's, plus `.` and `..` below the root.
pub open spec fn entry_count(t: Seq<Node>, d: int) -> nat {
    child_slots(t, d, t.len() as int) + if d == 0 { 0nat } else { 2nat }
}

/// Clusters of node `k`: a directory takes at least one; a file as many as its bytes fill.
pub open spec fn node_clusters(t: Seq<Node>, m: Seq<ManifestEntry>, k: int) -> nat {
    if t[k].is_dir {
        let c = ceil_div(32 * entry_count(t, k), 512);
        if c == 0 { 1 } else { c }
    } else {
        ceil_div(m[t[k].entry as int].data@.len(), 512)
    }
}

pub open spec fn clusters_before(t: Seq<Node>, m: Seq<ManifestEntry>, k: int) -> nat
    decreases k,
{
    if k <= 0 {
        0
    } else {
        clusters_before(t, m, k - 1) + node_clusters(t, m, k - 1)
    }
}

/// A file of more bytes than a directory entry can record.
pub open spec fn file_too_large(m: Seq<ManifestEntry>) -> bool {
    exists|i: int| 0 <= i < m.len() && (#[trigger] m[i].data@).len() > u32::MAX
}

pub proof fn lemma_clusters_before_mono(t: Seq<Node>, m: Seq<ManifestEntry>, j: int, k: int)
    requires
        0 <= j <= k,
    ensures
        clusters_before(t, m, j) <= clusters_before(t, m, k),
    decreases k - j,
{
    if j < k {
        lemma_clusters_before_mono(t, m, j, k - 1);
    }
}

fn count_children(t: &Vec<Node>, d: usize) -> (r: Option<u64>)
    requires
        tree_wf(t@),
    ensures
        r matches Some(c) ==> c == child_slots(t@, d as int, t@.len() as int) && c <= 0xffff_ffff,
        r is None ==> child_slots(t@, d as int, t@.len() as int) > 0xffff_ffff,
{
    let mut c: u64 = 0;
    let mut k: usize = 1;
    if t.len() == 0 {
        return Some(0);
    }
    while k < t.len()
        invariant
            tree_wf(t@),
            1 <= k <= t@.len(),
            c == child_slots(t@, d as int, k as int),
            c <= 0xffff_ffff,
        decreases t@.len() - k,
    {
        if t[k].parent == d {
            assert(crate::tree::node_wf(t@, k as int));
            let len = t[k].path.len() - t[k].name_lo;
            c = c + 1 + ((len as u64 + 12) / 13);
            if c > 0xffff_ffff {
                proof {
                    lemma_child_slots_mono(t@, d as int, k + 1, t@.len() as int);
                }
                return None;
            }
        }
        k = k + 1;
    }
    Some(c)
}

/// The clusters each node takes. Fails where a file is too large for FAT32, or
/// where the content alone would leave no room for the slack below the cluster limit.
pub fn cluster_counts(t: &Vec<Node>, m: &Vec<ManifestEntry>) -> (r: Result<Vec<u64>, BuildError>)
    requires
        tree_of(t@, m@),
    ensures
        r is Err <==> file_too_large(m@) || clusters_before(t@, m@, t@.len() as int) > MAX_CLUSTERS - SLACK,
        r matches Err(e) ==> e is SizeOverflow,
        r matches Ok(v) ==> v@.len() == t@.len()
            && forall|k: int| 0 <= k < t@.len() ==> v@[k] == node_clusters(t@, m@, k),
{
    let mut i: usize = 0;
    while i < m.len()
        invariant
            i <= m@.len(),
            forall|q: int| 0 <= q < i ==> (#[trigger] m@[q].data@).len() <= u32::MAX,
        decreases m@.len() - i,
    {
        if m[i].data.len() > 0xffff_ffff {
            return Err(BuildError::SizeOverflow { clusters: m[i].data.len() as u64 / 512 + 1 });
        }
        i = i + 1;
    }
    let mut v: Vec<u64> = Vec::new();
    let mut total: u64 = 0;
    let mut k: usize = 0;
    while k < t.len()
        invariant
            tree_of(t@, m@),
            !file_too_large(m@),
            k <= t@.len(),
            v@.len() == k,
            forall|j: int| 0 <= j < k ==> v@[j] == node_clusters(t@, m@, j),
            total == clusters_before(t@, m@, k as int),
            total <= MAX_CLUSTERS - SLACK,
        decreases t@.len() - k,
    {
        let c: u64 = if t[k].is_dir {
            let kids_opt = count_children(t, k);
            if kids_opt.is_none() {
                let ghost e = entry_count(t@, k as int);
                assert(ceil_div(32 * e, 512) > MAX_CLUSTERS) by (nonlinear_arith)
                    requires e > 0xffff_ffff;
                proof {
                    lemma_clusters_before_mono(t@, m@, k as int + 1, t@.len() as int);
                }
                return Err(BuildError::SizeOverflow { clusters: MAX_CLUSTERS });
            }
            let kids = kids_opt.unwrap();
            let entries: u64 = if k == 0 { kids } else { kids + 2 };
            let bytes = 32 * entries;
            let q = (bytes + 511) / 512;
            if q == 0 { 1 } else { q }
        } else {
            let e = t[k].entry;
            assert(0 < k ==> !(t@[k as int].is_dir) ==> t@[k as int].entry < m@.len());
            let len = m[e].data.len() as u64;
            (len + 511) / 512
        };
        assert(c == node_clusters(t@, m@, k as int));
        if c > MAX_CLUSTERS - SLACK - total {
            proof {
                lemma_clusters_before_mono(t@, m@, k as int + 1, t@.len() as int);
            }
            return Err(BuildError::SizeOverflow { clusters: MAX_CLUSTERS });
        }
        v.push(c);
        total = total + c;
        k = k + 1;
    }
    Ok(v)
}

} // verus!

verus! {

/// FAT entry that ends a cluster chain.
pub const EOC: u32 = 0x0fff_ffff;
/// FAT entry 0: the media descriptor in the low byte.
pub const MEDIA_ENTRY: u32 = 0x0fff_fff8;
/// Directory-entry date: 1980-01-01, so that images do not depend on the clock.
pub const DATE: u16 = 0x0021;
pub const ATTR_DIR: u8 = 0x10;
pub const ATTR_FILE: u8 = 0x20;

/// First cluster of node `k`, or 0 where it takes none (an empty file).
pub open spec fn start_cluster(t: Seq<Node>, m: Seq<ManifestEntry>, k: int) -> nat {
    if node_clusters(t, m, k) == 0 { 0 } else { 2 + clusters_before(t, m, k) }
}

/// The chain of a run of `n` clusters from `first`: each links to the next, the last ends it.
pub open spec fn chain(first: nat, n: nat) -> Seq<u32> {
    Seq::new(n, |i: int| if i + 1 < n { (first + i + 1) as u32 } else { EOC })
}

pub open spec fn chains(t: Seq<Node>, m: Seq<ManifestEntry>, k: int) -> Seq<u32>
    decreases k,
{
    if k <= 0 {
        Seq::empty()
    } else {
        chains(t, m, k - 1) + chain(2 + clusters_before(t, m, k - 1), node_clusters(t, m, k - 1))
    }
}

pub open spec fn le32s(s: Seq<u32>) -> Seq<u8>
    decreases s.len(),
{
    if s.len() == 0 {
        Seq::empty()
    } else {
        le32s(s.drop_last()) + le32(s.last())
    }
}

/// All entries of one FAT of a volume of `clusters` clusters.
pub open spec fn fat_entries(t: Seq<Node>, m: Seq<ManifestEntry>, clusters: nat) -> Seq<u32> {
    seq![MEDIA_ENTRY, EOC] + chains(t, m, t.len() as int)
        + Seq::new((clusters - clusters_before(t, m, t.len() as int)) as nat, |i: int| 0u32)
}

pub proof fn lemma_le32s_push(s: Seq<u32>, x: u32)
    ensures
        le32s(s.push(x)) == le32s(s) + le32(x),
{
    assert(s.push(x).drop_last() =~= s);
}

pub proof fn lemma_le32s_len(s: Seq<u32>)
    ensures
        le32s(s).len() == 4 * s.len(),
    decreases s.len(),
{
    if s.len() > 0 {
        lemma_le32s_len(s.drop_last());
    }
}

fn push_entry(v: &mut Vec<u8>, x: u32, Ghost(s): Ghost<Seq<u32>>, Ghost(base): Ghost<Seq<u8>>)
    requires
        old(v)@ == base + le32s(s),
    ensures
        final(v)@ == base + le32s(s.push(x)),
{
    push_le32(v, x);
    proof {
        lemma_le32s_push(s, x);
    }
    assert(final(v)@ =~= base + le32s(s.push(x)));
}

/// Appends the FAT entries of `chains(t, m, t.len())`.
fn push_chains(v: &mut Vec<u8>, t: &Vec<Node>, m: &Vec<ManifestEntry>, counts: &Vec<u64>)
    requires
        counts@.len() == t@.len(),
        forall|k: int| 0 <= k < t@.len() ==> counts@[k] == node_clusters(t@, m@, k),
        clusters_before(t@, m@, t@.len() as int) <= MAX_CLUSTERS,
    ensures
        final(v)@ == old(v)@ + le32s(chains(t@, m@, t@.len() as int)),
{
    let ghost base = v@;
    let mut next: u64 = 2;
    let mut k: usize = 0;
    assert(le32s(Seq::<u32>::empty()) =~= Seq::<u8>::empty());
    assert(v@ =~= base + le32s(chains(t@, m@, 0)));
    while k < t.len()
        invariant
            counts@.len() == t@.len(),
            forall|j: int| 0 <= j < t@.len() ==> counts@[j] == node_clusters(t@, m@, j),
            clusters_before(t@, m@, t@.len() as int) <= MAX_CLUSTERS,
            k <= t@.len(),
            next == 2 + clusters_before(t@, m@, k as int),
            v@ == base + le32s(chains(t@, m@, k as int)),
        decreases t@.len() - k,
    {
        proof {
            lemma_clusters_before_mono(t@, m@, k as int + 1, t@.len() as int);
        }
        let n = counts[k];
        let ghost done = chains(t@, m@, k as int);
        let mut i: u64 = 0;
        while i < n
            invariant
                n == node_clusters(t@, m@, k as int),
                next == 2 + clusters_before(t@, m@, k as int),
                next + n <= MAX_CLUSTERS + 2,
                i <= n,
                v@ == base + le32s(done + chain(next as nat, n as nat).take(i as int)),
            decreases n - i,
        {
            let x: u32 = if i + 1 < n { (next + i + 1) as u32 } else { EOC };
            let ghost s = done + chain(next as nat, n as nat).take(i as int);
            push_entry(v, x, Ghost(s), Ghost(base));
            assert(s.push(x) =~= done + chain(next as nat, n as nat).take(i + 1));
            i = i + 1;
        }
        assert(chain(next as nat, n as nat).take(n as int) =~= chain(next as nat, n as nat));
        next = next + n;
        k = k + 1;
    }
}

/// One FAT: its entries, then zeros to the end of its last sector.
pub open spec fn fat_bytes(t: Seq<Node>, m: Seq<ManifestEntry>, clusters: nat, fat_sectors: nat) -> Seq<u8> {
    le32s(fat_entries(t, m, clusters)) + zeros((fat_sectors * 512 - 4 * (clusters + 2)) as nat)
}

pub fn push_fat(v: &mut Vec<u8>, t: &Vec<Node>, m: &Vec<ManifestEntry>, counts: &Vec<u64>, clusters: u64, fat_sectors: u64)
    requires
        counts@.len() == t@.len(),
        forall|k: int| 0 <= k < t@.len() ==> counts@[k] == node_clusters(t@, m@, k),
        clusters_before(t@, m@, t@.len() as int) <= clusters <= MAX_CLUSTERS,
        4 * (clusters + 2) <= fat_sectors * 512 <= 4 * MAX_CLUSTERS + 1024,
    ensures
        final(v)@ == old(v)@ + fat_bytes(t@, m@, clusters as nat, fat_sectors as nat),
{
    let ghost base = v@;
    let ghost ents = fat_entries(t@, m@, clusters as nat);
    push_le32(v, MEDIA_ENTRY);
    push_le32(v, EOC);
    proof {
        lemma_le32s_push(Seq::empty(), MEDIA_ENTRY);
        lemma_le32s_push(seq![MEDIA_ENTRY], EOC);
        assert(Seq::<u32>::empty().push(MEDIA_ENTRY) =~= seq![MEDIA_ENTRY]);
        assert(seq![MEDIA_ENTRY].push(EOC) =~= seq![MEDIA_ENTRY, EOC]);
        assert(le32s(Seq::<u32>::empty()) =~= Seq::<u8>::empty());
    }
    assert(v@ =~= base + le32s(seq![MEDIA_ENTRY, EOC]));
    let ghost head = v@;
    push_chains(v, t, m, counts);
    let ghost used = clusters_before(t@, m@, t@.len() as int);
    let prefix_ghost: Ghost<Seq<u32>> = Ghost(seq![MEDIA_ENTRY, EOC] + chains(t@, m@, t@.len() as int));
    proof {
        lemma_le32s_concat(seq![MEDIA_ENTRY, EOC], chains(t@, m@, t@.len() as int));
    }
    assert(v@ =~= base + le32s(prefix_ghost@));
    let mut used_exec: u64 = 0;
    let mut k: usize = 0;
    while k < counts.len()
        invariant
            counts@.len() == t@.len(),
            forall|j: int| 0 <= j < t@.len() ==> counts@[j] == node_clusters(t@, m@, j),
            used <= clusters <= MAX_CLUSTERS,
            used == clusters_before(t@, m@, t@.len() as int),
            k <= t@.len(),
            used_exec == clusters_before(t@, m@, k as int),
        decreases t@.len() - k,
    {
        proof {
            lemma_clusters_before_mono(t@, m@, k as int + 1, t@.len() as int);
        }
        used_exec = used_exec + counts[k];
        k = k + 1;
    }
    let free = clusters - used_exec;
    let mut i: u64 = 0;
    while i < free
        invariant
            free == clusters - used,
            i <= free,
            v@ == base + le32s(prefix_ghost@ + Seq::new(i as nat, |j: int| 0u32)),
        decreases free - i,
    {
        let ghost s = prefix_ghost@ + Seq::new(i as nat, |j: int| 0u32);
        push_entry(v, 0, Ghost(s), Ghost(base));
        assert(s.push(0u32) =~= prefix_ghost@ + Seq::new((i + 1) as nat, |j: int| 0u32));
        i = i + 1;
    }
    assert(prefix_ghost@ + Seq::new(free as nat, |j: int| 0u32) =~= ents);
    proof {
        lemma_le32s_len(ents);
    }
    push_zeros(v, fat_sectors * 512 - 4 * (clusters + 2));
    assert(final(v)@ =~= base + fat_bytes(t@, m@, clusters as nat, fat_sectors as nat));
}

pub proof fn lemma_le32s_concat(a: Seq<u32>, b: Seq<u32>)
    ensures
        le32s(a + b) == le32s(a) + le32s(b),
    decreases b.len(),
{
    if b.len() == 0 {
        assert(a + b =~= a);
        assert(le32s(b) =~= Seq::<u8>::empty());
        assert(le32s(a) + le32s(b) =~= le32s(a));
    } else {
        lemma_le32s_concat(a, b.drop_last());
        assert((a + b).drop_last() =~= a + b.drop_last());
        assert((a + b).last() == b.last());
        assert(le32s(a) + le32s(b) =~= le32s(a) + le32s(b.drop_last()) + le32(b.last()));
    }
}

} // verus!

verus! {

/// A 32-byte directory entry.
pub open spec fn dir_entry(short: Seq<u8>, attr: u8, first: nat, size: nat) -> Seq<u8> {
    short + seq![attr, 0u8, 0u8] + le16(0) + le16(DATE) + le16(DATE) + le16((first / 0x10000) as u16)
        + le16(0) + le16(DATE) + le16((first % 0x10000) as u16) + le32(size as u32)
}

/// The size a directory entry records for node `c`: the file's length, 0 for a directory.
pub open spec fn node_size(t: Seq<Node>, m: Seq<ManifestEntry>, c: int) -> nat {
    if t[c].is_dir { 0 } else { m[t[c].entry as int].data@.len() }
}

/// The checksum of an 8.3 name that its long-name entries carry, over its first `i` bytes.
pub open spec fn lfn_sum(short: Seq<u8>, i: int) -> nat
    decreases i,
{
    if i <= 0 {
        0
    } else {
        let s = lfn_sum(short, i - 1);
        (((s % 2) * 128 + s / 2 + short[i - 1]) % 256) as nat
    }
}

/// Byte `hi` of UTF-16 character `k` of a long name: the name, a terminating
/// zero, then 0xFFFF padding.
pub open spec fn lfn_char(name: Seq<u8>, k: int, hi: bool) -> u8 {
    if k < name.len() {
        if hi { 0 } else { name[k] }
    } else if k == name.len() {
        0
    } else {
        0xff
    }
}

/// Byte `b` of long-name entry `ord` (from 1), which holds characters
/// `13 * (ord - 1)` on; the last one is flagged with 0x40.
pub open spec fn lfn_byte(name: Seq<u8>, ord: int, last: bool, cs: u8, b: int) -> u8 {
    let base = (ord - 1) * 13;
    if b == 0 {
        if last { (ord + 0x40) as u8 } else { ord as u8 }
    } else if b < 11 {
        lfn_char(name, base + (b - 1) / 2, (b - 1) % 2 == 1)
    } else if b == 11 {
        0x0f
    } else if b == 12 {
        0
    } else if b == 13 {
        cs
    } else if b < 26 {
        lfn_char(name, base + 5 + (b - 14) / 2, (b - 14) % 2 == 1)
    } else if b < 28 {
        0
    } else {
        lfn_char(name, base + 11 + (b - 28) / 2, (b - 28) % 2 == 1)
    }
}

pub open spec fn lfn_entry(name: Seq<u8>, ord: int, last: bool, cs: u8) -> Seq<u8> {
    Seq::new(32, |b: int| lfn_byte(name, ord, last, cs, b))
}

/// Long-name entries `i` down to 1 of `n`, in the order they stand on disk.
pub open spec fn lfn_run(name: Seq<u8>, cs: u8, n: int, i: int) -> Seq<u8>
    decreases i,
{
    if i <= 0 {
        Seq::empty()
    } else {
        lfn_entry(name, i, i == n, cs) + lfn_run(name, cs, n, i - 1)
    }
}

/// Node `c`'s entries: its long name, then its 8.3 entry.
pub open spec fn entry_of(t: Seq<Node>, m: Seq<ManifestEntry>, c: int) -> Seq<u8> {
    let n = lfn_count(node_name(t, c).len()) as int;
    lfn_run(node_name(t, c), lfn_sum(t[c].short@, 11) as u8, n, n) + short_entry(t, m, c)
}

pub open spec fn short_entry(t: Seq<Node>, m: Seq<ManifestEntry>, c: int) -> Seq<u8> {
    dir_entry(t[c].short@, if t[c].is_dir { ATTR_DIR } else { ATTR_FILE }, start_cluster(t, m, c), node_size(t, m, c))
}

/// Entries of the children of `d` among nodes `1..upto`, in node order.
pub open spec fn children_entries(t: Seq<Node>, m: Seq<ManifestEntry>, d: int, upto: int) -> Seq<u8>
    decreases upto,
{
    if upto <= 1 {
        Seq::empty()
    } else {
        children_entries(t, m, d, upto - 1) + if t[upto - 1].parent == d { entry_of(t, m, upto - 1) } else { Seq::empty() }
    }
}

pub open spec fn dot_name() -> Seq<u8> {
    seq![0x2eu8] + Seq::new(10, |i: int| 0x20u8)
}

pub open spec fn dotdot_name() -> Seq<u8> {
    seq![0x2eu8, 0x2eu8] + Seq::new(9, |i: int| 0x20u8)
}

/// `..` of a directory whose parent is the root points at cluster 0.
pub open spec fn parent_cluster(t: Seq<Node>, m: Seq<ManifestEntry>, d: int) -> nat {
    if t[d].parent == 0 { 0 } else { start_cluster(t, m, t[d].parent as int) }
}

pub open spec fn dir_bytes(t: Seq<Node>, m: Seq<ManifestEntry>, d: int) -> Seq<u8> {
    (if d == 0 {
        Seq::empty()
    } else {
        dir_entry(dot_name(), ATTR_DIR, start_cluster(t, m, d), 0)
            + dir_entry(dotdot_name(), ATTR_DIR, parent_cluster(t, m, d), 0)
    }) + children_entries(t, m, d, t.len() as int)
}

/// What node `k` holds: its entries for a directory, its content for a file.
pub open spec fn node_bytes(t: Seq<Node>, m: Seq<ManifestEntry>, k: int) -> Seq<u8> {
    if t[k].is_dir { dir_bytes(t, m, k) } else { m[t[k].entry as int].data@ }
}

/// Node `k`'s run of clusters: what it holds, then zeros.
pub open spec fn node_run(t: Seq<Node>, m: Seq<ManifestEntry>, k: int) -> Seq<u8> {
    node_bytes(t, m, k) + zeros((node_clusters(t, m, k) * 512 - node_bytes(t, m, k).len()) as nat)
}

/// The runs of nodes `0..k`, which fill the data region from cluster 2 on.
pub open spec fn data_runs(t: Seq<Node>, m: Seq<ManifestEntry>, k: int) -> Seq<u8>
    decreases k,
{
    if k <= 0 { Seq::empty() } else { data_runs(t, m, k - 1) + node_run(t, m, k - 1) }
}

pub proof fn lemma_lfn_run_len(name: Seq<u8>, cs: u8, n: int, i: int)
    ensures
        lfn_run(name, cs, n, i).len() == if i <= 0 { 0 } else { 32 * i },
    decreases i,
{
    if i > 0 {
        lemma_lfn_run_len(name, cs, n, i - 1);
    }
}

pub proof fn lemma_children_entries_len(t: Seq<Node>, m: Seq<ManifestEntry>, d: int, upto: int)
    requires
        upto <= t.len(),
        forall|k: int| 0 < k < t.len() ==> (#[trigger] t[k]).short@.len() == 11,
    ensures
        children_entries(t, m, d, upto).len() == 32 * child_slots(t, d, upto),
    decreases upto,
{
    if upto > 1 {
        lemma_children_entries_len(t, m, d, upto - 1);
        let c = upto - 1;
        let n = lfn_count(node_name(t, c).len()) as int;
        lemma_lfn_run_len(node_name(t, c), lfn_sum(t[c].short@, 11) as u8, n, n);
    }
}

fn lfn_checksum(short: &Vec<u8>) -> (r: u8)
    requires
        short@.len() == 11,
    ensures
        r == lfn_sum(short@, 11) as u8,
{
    let mut s: u32 = 0;
    let mut i: usize = 0;
    while i < 11
        invariant
            short@.len() == 11,
            i <= 11,
            s == lfn_sum(short@, i as int),
            s < 256,
        decreases 11 - i,
    {
        s = ((s % 2) * 128 + s / 2 + short[i] as u32) % 256;
        i = i + 1;
    }
    s as u8
}

fn lfn_char_exec(p: &Vec<u8>, lo: usize, k: usize, hi: bool) -> (r: u8)
    requires
        lo <= p@.len(),
        k <= 300,
    ensures
        r == lfn_char(p@.subrange(lo as int, p@.len() as int), k as int, hi),
{
    let len = p.len() - lo;
    if k < len {
        if hi { 0 } else { p[lo + k] }
    } else if k == len {
        0
    } else {
        0xff
    }
}

fn push_lfn_entry(v: &mut Vec<u8>, p: &Vec<u8>, lo: usize, ord: usize, last: bool, cs: u8)
    requires
        lo <= p@.len(),
        1 <= ord <= 20,
    ensures
        final(v)@ == old(v)@ + lfn_entry(p@.subrange(lo as int, p@.len() as int), ord as int, last, cs),
{
    let ghost base = v@;
    let ghost name = p@.subrange(lo as int, p@.len() as int);
    let base_k = (ord - 1) * 13;
    let mut b: usize = 0;
    while b < 32
        invariant
            lo <= p@.len(),
            1 <= ord <= 20,
            base_k == (ord - 1) * 13,
            name == p@.subrange(lo as int, p@.len() as int),
            b <= 32,
            v@ =~= base + lfn_entry(name, ord as int, last, cs).take(b as int),
        decreases 32 - b,
    {
        let x: u8 = if b == 0 {
            if last { (ord + 0x40) as u8 } else { ord as u8 }
        } else if b < 11 {
            lfn_char_exec(p, lo, base_k + (b - 1) / 2, (b - 1) % 2 == 1)
        } else if b == 11 {
            0x0f
        } else if b == 12 {
            0
        } else if b == 13 {
            cs
        } else if b < 26 {
            lfn_char_exec(p, lo, base_k + 5 + (b - 14) / 2, (b - 14) % 2 == 1)
        } else if b < 28 {
            0
        } else {
            lfn_char_exec(p, lo, base_k + 11 + (b - 28) / 2, (b - 28) % 2 == 1)
        };
        assert(x == lfn_byte(name, ord as int, last, cs, b as int));
        v.push(x);
        b = b + 1;
        assert(v@ =~= base + lfn_entry(name, ord as int, last, cs).take(b as int));
    }
    assert(lfn_entry(name, ord as int, last, cs).take(32) =~= lfn_entry(name, ord as int, last, cs));
}

/// Appends the long-name entries of the name `p[lo..]`, last part first.
fn push_lfn_run(v: &mut Vec<u8>, p: &Vec<u8>, lo: usize, cs: u8)
    requires
        lo <= p@.len(),
        p@.len() - lo <= 255,
    ensures
        final(v)@ == old(v)@ + lfn_run(p@.subrange(lo as int, p@.len() as int), cs,
            lfn_count((p@.len() - lo) as nat) as int, lfn_count((p@.len() - lo) as nat) as int),
{
    let ghost base = v@;
    let ghost name = p@.subrange(lo as int, p@.len() as int);
    let n = (p.len() - lo + 12) / 13;
    let mut i: usize = n;
    while i > 0
        invariant
            lo <= p@.len(),
            n <= 20,
            n == lfn_count((p@.len() - lo) as nat),
            name == p@.subrange(lo as int, p@.len() as int),
            i <= n,
            v@ + lfn_run(name, cs, n as int, i as int) == base + lfn_run(name, cs, n as int, n as int),
        decreases i,
    {
        let ghost prev = v@;
        push_lfn_entry(v, p, lo, i, i == n, cs);
        assert(prev + lfn_run(name, cs, n as int, i as int)
            =~= v@ + lfn_run(name, cs, n as int, i - 1));
        i = i - 1;
    }
    assert(v@ + lfn_run(name, cs, n as int, 0) =~= v@);
}

pub proof fn lemma_ceil_cover(a: nat)
    ensures
        a <= ceil_div(a, 512) * 512,
{
    assert(a <= ((a + 511) as int / 512) * 512) by (nonlinear_arith);
}

pub proof fn lemma_data_runs_len(t: Seq<Node>, m: Seq<ManifestEntry>, k: int)
    requires
        0 <= k <= t.len(),
        forall|j: int| 0 <= j < t.len() ==> node_bytes(t, m, j).len() <= node_clusters(t, m, j) * 512,
    ensures
        data_runs(t, m, k).len() == clusters_before(t, m, k) * 512,
    decreases k,
{
    if k > 0 {
        lemma_data_runs_len(t, m, k - 1);
        assert(node_bytes(t, m, k - 1).len() <= node_clusters(t, m, k - 1) * 512);
    }
}

fn push_dir_entry(v: &mut Vec<u8>, short: &Vec<u8>, attr: u8, first: u64, size: u64)
    requires
        first <= u32::MAX,
        size <= u32::MAX,
    ensures
        final(v)@ == old(v)@ + dir_entry(short@, attr, first as nat, size as nat),
{
    let ghost base = v@;
    push_slice(v, short.as_slice());
    v.push(attr);
    v.push(0u8);
    v.push(0u8);
    push_le16(v, 0);
    push_le16(v, DATE);
    push_le16(v, DATE);
    push_le16(v, (first / 0x10000) as u16);
    push_le16(v, 0);
    push_le16(v, DATE);
    push_le16(v, (first % 0x10000) as u16);
    push_le32(v, size as u32);
    assert(final(v)@ =~= base + dir_entry(short@, attr, first as nat, size as nat));
}

/// Start clusters of all nodes, from their cluster counts.
pub fn start_clusters(t: &Vec<Node>, m: &Vec<ManifestEntry>, counts: &Vec<u64>) -> (r: Vec<u64>)
    requires
        counts@.len() == t@.len(),
        forall|k: int| 0 <= k < t@.len() ==> counts@[k] == node_clusters(t@, m@, k),
        clusters_before(t@, m@, t@.len() as int) <= MAX_CLUSTERS,
    ensures
        r@.len() == t@.len(),
        forall|k: int| 0 <= k < t@.len() ==> r@[k] == start_cluster(t@, m@, k) && r@[k] <= MAX_CLUSTERS + 2,
{
    let mut r: Vec<u64> = Vec::new();
    let mut next: u64 = 2;
    let mut k: usize = 0;
    while k < t.len()
        invariant
            counts@.len() == t@.len(),
            forall|j: int| 0 <= j < t@.len() ==> counts@[j] == node_clusters(t@, m@, j),
            clusters_before(t@, m@, t@.len() as int) <= MAX_CLUSTERS,
            k <= t@.len(),
            r@.len() == k,
            next == 2 + clusters_before(t@, m@, k as int),
            forall|j: int| 0 <= j < k ==> r@[j] == start_cluster(t@, m@, j) && r@[j] <= MAX_CLUSTERS + 2,
        decreases t@.len() - k,
    {
        proof {
            lemma_clusters_before_mono(t@, m@, k as int + 1, t@.len() as int);
        }
        r.push(if counts[k] == 0 { 0 } else { next });
        next = next + counts[k];
        k = k + 1;
    }
    r
}

} // verus!

verus! {

fn push_children(v: &mut Vec<u8>, t: &Vec<Node>, m: &Vec<ManifestEntry>, starts: &Vec<u64>, d: usize)
    requires
        tree_of(t@, m@),
        !file_too_large(m@),
        starts@.len() == t@.len(),
        forall|k: int| 0 <= k < t@.len() ==> starts@[k] == start_cluster(t@, m@, k) && starts@[k] <= MAX_CLUSTERS + 2,
    ensures
        final(v)@ == old(v)@ + children_entries(t@, m@, d as int, t@.len() as int),
{
    let ghost base = v@;
    if t.len() <= 1 {
        return;
    }
    let mut c: usize = 1;
    while c < t.len()
        invariant
            tree_of(t@, m@),
            !file_too_large(m@),
            starts@.len() == t@.len(),
            forall|k: int| 0 <= k < t@.len() ==> starts@[k] == start_cluster(t@, m@, k) && starts@[k] <= MAX_CLUSTERS + 2,
            1 <= c <= t@.len(),
            v@ == base + children_entries(t@, m@, d as int, c as int),
        decreases t@.len() - c,
    {
        let ghost prev = v@;
        if t[c].parent == d {
            let size: u64 = if t[c].is_dir {
                0
            } else {
                assert(0 < c < t@.len() && !t@[c as int].is_dir);
                let len = m[t[c].entry].data.len() as u64;
                assert(len <= u32::MAX) by {
                    if len > u32::MAX {
                        assert((m@[t@[c as int].entry as int].data@).len() > u32::MAX);
                    }
                }
                len
            };
            let attr = if t[c].is_dir { ATTR_DIR } else { ATTR_FILE };
            assert(crate::tree::node_wf(t@, c as int));
            let cs = lfn_checksum(&t[c].short);
            push_lfn_run(v, &t[c].path, t[c].name_lo, cs);
            push_dir_entry(v, &t[c].short, attr, starts[c], size);
            assert(v@ =~= base + children_entries(t@, m@, d as int, c as int + 1));
        } else {
            assert(v@ =~= base + children_entries(t@, m@, d as int, c as int + 1));
        }
        c = c + 1;
    }
}

/// Appends the data region: each node's run of clusters, in node order.
pub fn push_data_region(v: &mut Vec<u8>, t: &Vec<Node>, m: &Vec<ManifestEntry>, counts: &Vec<u64>, starts: &Vec<u64>)
    requires
        tree_of(t@, m@),
        !file_too_large(m@),
        counts@.len() == t@.len(),
        forall|k: int| 0 <= k < t@.len() ==> counts@[k] == node_clusters(t@, m@, k),
        clusters_before(t@, m@, t@.len() as int) <= MAX_CLUSTERS,
        starts@.len() == t@.len(),
        forall|k: int| 0 <= k < t@.len() ==> starts@[k] == start_cluster(t@, m@, k) && starts@[k] <= MAX_CLUSTERS + 2,
    ensures
        final(v)@ == old(v)@ + data_runs(t@, m@, t@.len() as int),
{
    let ghost base = v@;
    proof {
        assert forall|k: int| 0 < k < t@.len() implies (#[trigger] t@[k]).short@.len() == 11 by {
            assert(crate::tree::node_wf(t@, k));
        }
    }
    let mut k: usize = 0;
    assert(v@ =~= base + data_runs(t@, m@, 0));
    while k < t.len()
        invariant
            tree_of(t@, m@),
            !file_too_large(m@),
            forall|j: int| 0 < j < t@.len() ==> (#[trigger] t@[j]).short@.len() == 11,
            counts@.len() == t@.len(),
            forall|j: int| 0 <= j < t@.len() ==> counts@[j] == node_clusters(t@, m@, j),
            clusters_before(t@, m@, t@.len() as int) <= MAX_CLUSTERS,
            starts@.len() == t@.len(),
            forall|j: int| 0 <= j < t@.len() ==> starts@[j] == start_cluster(t@, m@, j) && starts@[j] <= MAX_CLUSTERS + 2,
            k <= t@.len(),
            v@ == base + data_runs(t@, m@, k as int),
        decreases t@.len() - k,
    {
        let ghost before = v@;
        let before_len = v.len();
        proof {
            lemma_clusters_before_mono(t@, m@, k as int + 1, t@.len() as int);
        }
        if t[k].is_dir {
            if k > 0 {
                let p = t[k].parent;
                assert(crate::tree::node_wf(t@, k as int));
                let pc: u64 = if p == 0 { 0 } else { starts[p] };
                let dot: Vec<u8> = vec![0x2e, 0x20, 0x20, 0x20, 0x20, 0x20, 0x20, 0x20, 0x20, 0x20, 0x20];
                let dotdot: Vec<u8> = vec![0x2e, 0x2e, 0x20, 0x20, 0x20, 0x20, 0x20, 0x20, 0x20, 0x20, 0x20];
                assert(dot@ =~= dot_name());
                assert(dotdot@ =~= dotdot_name());
                push_dir_entry(v, &dot, ATTR_DIR, starts[k], 0);
                push_dir_entry(v, &dotdot, ATTR_DIR, pc, 0);
            }
            push_children(v, t, m, starts, k);
            proof {
                lemma_children_entries_len(t@, m@, k as int, t@.len() as int);
                lemma_ceil_cover(32 * entry_count(t@, k as int));
            }
            assert(v@ =~= before + dir_bytes(t@, m@, k as int));
        } else {
            assert(0 < k < t@.len());
            push_slice(v, m[t[k].entry].data.as_slice());
            proof {
                lemma_ceil_cover(m@[t@[k as int].entry as int].data@.len());
            }
        }
        assert(v@ == before + node_bytes(t@, m@, k as int));
        let written = v.len() - before_len;
        push_zeros(v, counts[k] * 512 - written as u64);
        assert(v@ =~= base + data_runs(t@, m@, k as int + 1));
        k = k + 1;
    }
}

} // verus!
