//! Properties of the images that `build` returns, proved over `image_spec`.
use vstd::prelude::*;
use crate::bytes::{le32, zeros};
use crate::fat::{entry_of, children_entries, dir_bytes, lfn_run, lfn_sum, lfn_count, node_name, dir_entry, node_size, ATTR_DIR, ATTR_FILE, clusters_before, data_runs, node_bytes, node_clusters, start_cluster, lemma_ceil_cover,
    lemma_children_entries_len, entry_count, fat_bytes, fat_entries, lemma_le32s_len, chains};
use crate::gpt::{crc32_of, gpt_header, esp_type, partition_array, protective_mbr, header_sector};
use crate::image::{built_image, image_spec, layout_of, esp_spec, fits};
use crate::layout::{clusters_for, fat_sectors_for, MAX_CLUSTERS, PART_START, RESERVED};
use crate::manifest::ManifestEntry;
use crate::tree::{Node, tree_of, node_wf};
use crate::volume::reserved_region;

verus! {

/// Byte offset of the partition array: after the MBR and the primary header.
pub open spec fn array_offset() -> int {
    1024
}

pub proof fn lemma_head_lens(t: Seq<Node>, m: Seq<ManifestEntry>, disk_guid: Seq<u8>, part_guid: Seq<u8>)
    requires
        disk_guid.len() == 16,
        part_guid.len() == 16,
    ensures
        protective_mbr(layout_of(t, m).total_sectors).len() == 512,
        partition_array(part_guid, layout_of(t, m).esp_sectors).len() == 128 * 128,
        forall|a: u64, b: u64, c: u64, d: u64, crc: u32| #[trigger] header_sector(a, b, c, disk_guid, d, crc).len() == 512,
{
}

/// The partition array of every image holds exactly one partition: entry 0 has the
/// EFI System Partition type, and the other 127 entries are unused (all zero).
pub proof fn lemma_single_esp(t: Seq<Node>, m: Seq<ManifestEntry>, disk_guid: Seq<u8>, part_guid: Seq<u8>, volume_id: u32)
    requires
        disk_guid.len() == 16,
        part_guid.len() == 16,
    ensures
        image_spec(t, m, disk_guid, part_guid, volume_id).subrange(array_offset(), array_offset() + 16) == esp_type(),
        forall|e: int| 1 <= e < 128 ==> #[trigger] image_spec(t, m, disk_guid, part_guid, volume_id).subrange(
            array_offset() + 128 * e, array_offset() + 128 * e + 128) == zeros(128),
{
    let img = image_spec(t, m, disk_guid, part_guid, volume_id);
    let l = layout_of(t, m);
    let total = l.total_sectors;
    let arr = partition_array(part_guid, l.esp_sectors);
    lemma_head_lens(t, m, disk_guid, part_guid);
    let head = protective_mbr(total) + header_sector(1, (total - 1) as u64, (total - 34) as u64, disk_guid, 2,
        crate::gpt::crc32_of(arr));
    assert(head.len() == 1024);
    assert(img.subrange(1024, 1024 + 16384int) =~= arr);
    assert(img.subrange(1024, 1040int) =~= esp_type());
    assert forall|e: int| 1 <= e < 128 implies #[trigger] img.subrange(array_offset() + 128 * e,
        array_offset() + 128 * e + 128) == zeros(128) by {
        assert(img.subrange(1024 + 128 * e, 1024 + 128 * e + 128) =~= arr.subrange(128 * e, 128 * e + 128));
        assert(arr.subrange(128 * e, 128 * e + 128) =~= zeros(128));
    }
}

/// Byte offset of cluster 2, where the data region starts.
pub open spec fn data_offset(t: Seq<Node>, m: Seq<ManifestEntry>) -> int {
    (PART_START + RESERVED + 2 * layout_of(t, m).fat_sectors) * 512
}

pub proof fn lemma_chains_len(t: Seq<Node>, m: Seq<ManifestEntry>, k: int)
    requires
        k >= 0,
    ensures
        chains(t, m, k).len() == clusters_before(t, m, k),
    decreases k,
{
    if k > 0 {
        lemma_chains_len(t, m, k - 1);
    }
}

pub proof fn lemma_runs_fit(t: Seq<Node>, m: Seq<ManifestEntry>)
    requires
        tree_of(t, m),
    ensures
        forall|j: int| 0 <= j < t.len() ==> (#[trigger] node_bytes(t, m, j)).len() <= node_clusters(t, m, j) * 512,
{
    assert forall|k: int| 0 < k < t.len() implies (#[trigger] t[k]).short@.len() == 11 by {
        assert(node_wf(t, k));
    }
    assert forall|j: int| 0 <= j < t.len() implies (#[trigger] node_bytes(t, m, j)).len() <= node_clusters(t, m, j) * 512 by {
        if t[j].is_dir {
            lemma_children_entries_len(t, m, j, t.len() as int);
            lemma_ceil_cover(32 * entry_count(t, j));
        } else {
            lemma_ceil_cover(m[t[j].entry as int].data@.len());
        }
    }
}

pub proof fn lemma_run_at(t: Seq<Node>, m: Seq<ManifestEntry>, n: int, k: int)
    requires
        0 <= k < n <= t.len(),
        forall|j: int| 0 <= j < t.len() ==> (#[trigger] node_bytes(t, m, j)).len() <= node_clusters(t, m, j) * 512,
    ensures
        data_runs(t, m, n).subrange((clusters_before(t, m, k) * 512) as int,
            (clusters_before(t, m, k) * 512 + node_bytes(t, m, k).len()) as int) == node_bytes(t, m, k),
    decreases n,
{
    crate::fat::lemma_data_runs_len(t, m, n - 1);
    let lo = (clusters_before(t, m, k) * 512) as int;
    let hi = lo + node_bytes(t, m, k).len();
    if k == n - 1 {
        assert(data_runs(t, m, n).subrange(lo, hi) =~= node_bytes(t, m, k));
    } else {
        lemma_run_at(t, m, n - 1, k);
        crate::fat::lemma_clusters_before_mono(t, m, k + 1, n - 1);
        assert(data_runs(t, m, n).subrange(lo, hi) =~= data_runs(t, m, n - 1).subrange(lo, hi));
    }
}

/// Lengths and bounds of the layout of a tree that fits.
pub proof fn lemma_layout_facts(t: Seq<Node>, m: Seq<ManifestEntry>)
    requires
        fits(t, m),
    ensures
        clusters_before(t, m, t.len() as int) <= layout_of(t, m).clusters <= MAX_CLUSTERS,
        layout_of(t, m).fat_sectors * 512 <= 4 * MAX_CLUSTERS + 1024,
        fat_bytes(t, m, layout_of(t, m).clusters as nat, layout_of(t, m).fat_sectors as nat).len()
            == layout_of(t, m).fat_sectors * 512,
{
    let l = layout_of(t, m);
    let n = t.len() as int;
    let c = clusters_for(clusters_before(t, m, n));
    let f = fat_sectors_for(c);
    assert(4 * (c + 2) <= f * 512 <= 4 * MAX_CLUSTERS + 1024) by (nonlinear_arith)
        requires
            f == ((c + 2) * 4 + 511) / 512,
            c <= MAX_CLUSTERS;
    lemma_chains_len(t, m, n);
    lemma_le32s_len(fat_entries(t, m, l.clusters as nat));
}

/// Reading a file back: the bytes of the cluster run that its directory entry
/// records (first cluster `start_cluster`, length the file's size) are the
/// content of its manifest entry.
#[verifier::rlimit(60)]
pub proof fn lemma_file_round_trip(t: Seq<Node>, m: Seq<ManifestEntry>, disk_guid: Seq<u8>, part_guid: Seq<u8>, volume_id: u32, k: int)
    requires
        fits(t, m),
        disk_guid.len() == 16,
        part_guid.len() == 16,
        0 < k < t.len(),
        !t[k].is_dir,
        m[t[k].entry as int].data@.len() > 0,
    ensures
        image_spec(t, m, disk_guid, part_guid, volume_id).subrange(
            data_offset(t, m) + (start_cluster(t, m, k) - 2) * 512,
            data_offset(t, m) + (start_cluster(t, m, k) - 2) * 512 + m[t[k].entry as int].data@.len(),
        ) == m[t[k].entry as int].data@,
{
    let img = image_spec(t, m, disk_guid, part_guid, volume_id);
    let l = layout_of(t, m);
    let n = t.len() as int;
    let used = clusters_before(t, m, n);
    let data = m[t[k].entry as int].data@;
    lemma_runs_fit(t, m);
    lemma_run_at(t, m, n, k);
    lemma_head_lens(t, m, disk_guid, part_guid);
    lemma_layout_facts(t, m);
    assert(node_clusters(t, m, k) > 0) by {
        assert(data.len() <= node_clusters(t, m, k) * 512);
    }
    let lo = (clusters_before(t, m, k) * 512) as int;
    let esp = esp_spec(t, m, volume_id);
    let pre = reserved_region(l.esp_sectors as u32, l.fat_sectors as u32, volume_id, (l.clusters - used) as u32, (used + 2) as u32)
        + fat_bytes(t, m, l.clusters as nat, l.fat_sectors as nat) + fat_bytes(t, m, l.clusters as nat, l.fat_sectors as nat);
    assert(pre.len() == (RESERVED + 2 * l.fat_sectors) * 512);
    let e0: int = 17408int;
    assert(e0 == PART_START * 512);
    assert(img.subrange(e0, e0 + esp.len()) =~= esp);
    assert(esp.subrange(pre.len() as int, (pre.len() + data_runs(t, m, n).len()) as int) =~= data_runs(t, m, n));
    let dr = data_runs(t, m, n);
    crate::fat::lemma_data_runs_len(t, m, n);
    crate::fat::lemma_clusters_before_mono(t, m, k + 1, n);
    assert(lo + data.len() <= dr.len());
    let pre_len = pre.len() as int;
    assert(data_offset(t, m) == e0 + pre_len);
    assert(esp.subrange(pre_len + lo, pre_len + lo + data.len()) =~= dr.subrange(lo, lo + data.len()));
    assert(img.subrange(e0 + pre_len + lo, e0 + pre_len + lo + data.len()) =~= esp.subrange(pre_len + lo, pre_len + lo + data.len()));
}

/// The image is exactly as long as the sizing formula says: `total_sectors`
/// sectors of the layout that the content's clusters call for.
pub proof fn lemma_image_len(t: Seq<Node>, m: Seq<ManifestEntry>, disk_guid: Seq<u8>, part_guid: Seq<u8>, volume_id: u32)
    requires
        fits(t, m),
        disk_guid.len() == 16,
        part_guid.len() == 16,
    ensures
        image_spec(t, m, disk_guid, part_guid, volume_id).len() == layout_of(t, m).total_sectors * 512,
{
    let l = layout_of(t, m);
    let n = t.len() as int;
    lemma_layout_facts(t, m);
    lemma_head_lens(t, m, disk_guid, part_guid);
    lemma_runs_fit(t, m);
    crate::fat::lemma_data_runs_len(t, m, n);
    assert(esp_spec(t, m, volume_id).len() == l.esp_sectors * 512);
}

/// Building twice from one manifest with the same GUIDs and volume id gives
/// byte-identical images.
pub proof fn lemma_rebuild_identical(m: Seq<ManifestEntry>, disk_guid: Seq<u8>, part_guid: Seq<u8>, volume_id: u32, a: Seq<u8>, b: Seq<u8>)
    requires
        built_image(m, disk_guid, part_guid, volume_id, a),
        built_image(m, disk_guid, part_guid, volume_id, b),
    ensures
        a == b,
{
    let t1 = choose|t: Seq<Node>| #[trigger] fits(t, m) && crate::tree::views(t) == crate::tree::tree_model(m, m.len() as int)
        && a == image_spec(t, m, disk_guid, part_guid, volume_id);
    let t2 = choose|t: Seq<Node>| #[trigger] fits(t, m) && crate::tree::views(t) == crate::tree::tree_model(m, m.len() as int)
        && b == image_spec(t, m, disk_guid, part_guid, volume_id);
    crate::determinism::lemma_image_congruence(t1, t2, m, disk_guid, part_guid, volume_id);
}

/// Every image that `build` returns declares exactly one partition, of the EFI
/// System Partition type; the other 127 entries of its partition array are unused.
pub proof fn lemma_built_single_esp(m: Seq<ManifestEntry>, disk_guid: Seq<u8>, part_guid: Seq<u8>, volume_id: u32, img: Seq<u8>)
    requires
        built_image(m, disk_guid, part_guid, volume_id, img),
        disk_guid.len() == 16,
        part_guid.len() == 16,
    ensures
        img.subrange(array_offset(), array_offset() + 16) == esp_type(),
        forall|e: int| 1 <= e < 128 ==> #[trigger] img.subrange(array_offset() + 128 * e, array_offset() + 128 * e + 128)
            == zeros(128),
{
    let t = choose|t: Seq<Node>| #[trigger] fits(t, m) && crate::tree::views(t) == crate::tree::tree_model(m, m.len() as int)
        && img == image_spec(t, m, disk_guid, part_guid, volume_id);
    lemma_single_esp(t, m, disk_guid, part_guid, volume_id);
}

proof fn lemma_child_listed(t: Seq<Node>, m: Seq<ManifestEntry>, d: int, upto: int, k: int)
    requires
        0 < k < upto <= t.len(),
        t[k].parent == d,
    ensures
        exists|off: int| 0 <= off && off + entry_of(t, m, k).len() <= children_entries(t, m, d, upto).len()
            && #[trigger] children_entries(t, m, d, upto).subrange(off, off + entry_of(t, m, k).len()) == entry_of(t, m, k),
    decreases upto,
{
    let ce = children_entries(t, m, d, upto);
    let e = entry_of(t, m, k);
    if k == upto - 1 {
        let off = children_entries(t, m, d, upto - 1).len() as int;
        assert(ce.subrange(off, off + e.len()) =~= e);
    } else {
        lemma_child_listed(t, m, d, upto - 1, k);
        let off = choose|off: int| 0 <= off && off + e.len() <= children_entries(t, m, d, upto - 1).len()
            && #[trigger] children_entries(t, m, d, upto - 1).subrange(off, off + e.len()) == e;
        assert(ce.subrange(off, off + e.len()) =~= children_entries(t, m, d, upto - 1).subrange(off, off + e.len()));
    }
}

/// Looking a path up: every node below the root is listed in its parent
/// directory's bytes by its entries, a long name that spells its last path
/// component and an 8.3 entry with its first cluster and size; and a file node's
/// path is the logical path of the manifest entry it holds.
pub proof fn lemma_entry_listed(t: Seq<Node>, m: Seq<ManifestEntry>, k: int)
    requires
        tree_of(t, m),
        0 < k < t.len(),
    ensures
        exists|off: int| 0 <= off && off + entry_of(t, m, k).len() <= dir_bytes(t, m, t[k].parent as int).len()
            && #[trigger] dir_bytes(t, m, t[k].parent as int).subrange(off, off + entry_of(t, m, k).len()) == entry_of(t, m, k),
        entry_of(t, m, k) == lfn_run(node_name(t, k), lfn_sum(t[k].short@, 11) as u8,
            lfn_count(node_name(t, k).len()) as int, lfn_count(node_name(t, k).len()) as int)
            + dir_entry(t[k].short@, if t[k].is_dir { ATTR_DIR } else { ATTR_FILE }, start_cluster(t, m, k), node_size(t, m, k)),
        !t[k].is_dir ==> t[k].path@ == m[t[k].entry as int].path@,
{
    let d = t[k].parent as int;
    assert(node_wf(t, k));
    lemma_child_listed(t, m, d, t.len() as int, k);
    let e = entry_of(t, m, k);
    let ce = children_entries(t, m, d, t.len() as int);
    let off = choose|off: int| 0 <= off && off + e.len() <= ce.len() && #[trigger] ce.subrange(off, off + e.len()) == e;
    let head = dir_bytes(t, m, d).len() - ce.len();
    assert(dir_bytes(t, m, d).subrange(head + off, head + off + e.len()) =~= ce.subrange(off, off + e.len()));
}

proof fn lemma_header_crc_fields(my_lba: u64, alt_lba: u64, last_usable: u64, disk_guid: Seq<u8>, array_lba: u64, array_crc: u32)
    requires
        disk_guid.len() == 16,
    ensures
        ({
            let h = header_sector(my_lba, alt_lba, last_usable, disk_guid, array_lba, array_crc).subrange(0, 92);
            &&& h.subrange(16, 20) == le32(crc32_of(h.subrange(0, 16) + zeros(4) + h.subrange(20, 92)))
            &&& h.subrange(88, 92) == le32(array_crc)
        }),
{
    let blank = gpt_header(my_lba, alt_lba, last_usable, disk_guid, array_lba, array_crc, 0);
    let full = gpt_header(my_lba, alt_lba, last_usable, disk_guid, array_lba, array_crc, crc32_of(blank));
    let h = header_sector(my_lba, alt_lba, last_usable, disk_guid, array_lba, array_crc).subrange(0, 92);
    assert(h =~= full);
    assert((0u32 & 0xff) == 0 && ((0u32 >> 8u32) & 0xff) == 0 && ((0u32 >> 16u32) & 0xff) == 0
        && ((0u32 >> 24u32) & 0xff) == 0) by (bit_vector);
    assert(le32(0) =~= zeros(4));
    assert(h.subrange(0, 16) + zeros(4) + h.subrange(20, 92) =~= blank);
    assert(h.subrange(16, 20) =~= le32(crc32_of(blank)));
    assert(h.subrange(88, 92) =~= le32(array_crc));
}

/// The primary GPT header checksums itself, taken with its CRC field zero, and
/// records the checksum of the partition array that follows it.
pub proof fn lemma_primary_header_crcs(t: Seq<Node>, m: Seq<ManifestEntry>, disk_guid: Seq<u8>, part_guid: Seq<u8>, volume_id: u32)
    requires
        disk_guid.len() == 16,
        part_guid.len() == 16,
    ensures
        ({
            let img = image_spec(t, m, disk_guid, part_guid, volume_id);
            let h = img.subrange(512, 604);
            &&& h.subrange(16, 20) == le32(crc32_of(h.subrange(0, 16) + zeros(4) + h.subrange(20, 92)))
            &&& h.subrange(88, 92) == le32(crc32_of(img.subrange(1024, 17408)))
        }),
{
    let img = image_spec(t, m, disk_guid, part_guid, volume_id);
    let l = layout_of(t, m);
    let total = l.total_sectors;
    let arr = partition_array(part_guid, l.esp_sectors);
    lemma_head_lens(t, m, disk_guid, part_guid);
    let hs = header_sector(1, (total - 1) as u64, (total - 34) as u64, disk_guid, 2, crate::gpt::crc32_of(arr));
    lemma_header_crc_fields(1, (total - 1) as u64, (total - 34) as u64, disk_guid, 2, crate::gpt::crc32_of(arr));
    assert(img.subrange(512, 604) =~= hs.subrange(0, 92));
    assert(img.subrange(1024, 17408) =~= arr);
}

/// The two copies of the FAT in the volume are identical.
pub proof fn lemma_fat_copies_equal(t: Seq<Node>, m: Seq<ManifestEntry>, disk_guid: Seq<u8>, part_guid: Seq<u8>, volume_id: u32)
    requires
        fits(t, m),
        disk_guid.len() == 16,
        part_guid.len() == 16,
    ensures
        ({
            let img = image_spec(t, m, disk_guid, part_guid, volume_id);
            let a = ((PART_START + RESERVED) * 512) as int;
            let f = (layout_of(t, m).fat_sectors * 512) as int;
            img.subrange(a, a + f) == img.subrange(a + f, a + 2 * f)
        }),
{
    let img = image_spec(t, m, disk_guid, part_guid, volume_id);
    let l = layout_of(t, m);
    let used = clusters_before(t, m, t.len() as int);
    lemma_layout_facts(t, m);
    lemma_head_lens(t, m, disk_guid, part_guid);
    let fb = fat_bytes(t, m, l.clusters as nat, l.fat_sectors as nat);
    let rr = reserved_region(l.esp_sectors as u32, l.fat_sectors as u32, volume_id, (l.clusters - used) as u32, (used + 2) as u32);
    assert(rr.len() == 32 * 512);
    let esp = esp_spec(t, m, volume_id);
    let e0: int = 17408int;
    let f = fb.len() as int;
    let r0: int = 16384int;
    assert(img.subrange(e0, e0 + esp.len()) =~= esp);
    assert(esp.subrange(r0, r0 + f) =~= fb);
    assert(esp.subrange(r0 + f, r0 + 2 * f) =~= fb);
    assert(img.subrange(e0 + r0, e0 + r0 + f) =~= esp.subrange(r0, r0 + f));
    assert(img.subrange(e0 + r0 + f, e0 + r0 + 2 * f) =~= esp.subrange(r0 + f, r0 + 2 * f));
}

} // verus!
