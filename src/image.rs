//! Assembles the whole image: MBR and primary GPT, the EFI System Partition
//! holding the FAT32 volume, and the backup GPT at the end.
use vstd::prelude::*;
use crate::bytes::{zeros, push_zeros, push_slice};
use crate::fat::{clusters_before, data_runs, fat_bytes, file_too_large, cluster_counts, start_clusters, push_fat, push_data_region};
use crate::gpt::{crc32_of, header_sector, partition_array, protective_mbr, array_crc, make_partition_array, push_header_sector, push_protective_mbr};
use crate::layout::{clusters_for, fat_sectors_for, compute_layout, Layout, GPT_TAIL, MAX_CLUSTERS, PART_START, RESERVED, SLACK};
use crate::manifest::{ManifestEntry, check_manifest, conflict, has_conflict, manifest_invalid, manifest_ok};
use crate::tree::{Node, build_tree, check_names, clash, has_clash, tree_of, tree_model, tree_wf, views};
use crate::volume::{reserved_region, push_reserved_region};
use crate::BuildError;

verus! {

/// What a build takes besides the manifest. Fixed values give identical images.
pub struct BuildParams {
    pub disk_guid: [u8; 16],
    pub partition_guid: [u8; 16],
    pub volume_id: u32,
}

/// The layout that the content of tree `t` calls for.
pub open spec fn layout_of(t: Seq<Node>, m: Seq<ManifestEntry>) -> Layout {
    let clusters = clusters_for(clusters_before(t, m, t.len() as int));
    let fat = fat_sectors_for(clusters);
    let esp = RESERVED + 2 * fat + clusters;
    Layout {
        clusters: clusters as u64,
        fat_sectors: fat as u64,
        esp_sectors: esp as u64,
        total_sectors: (PART_START + esp + GPT_TAIL) as u64,
    }
}

/// The EFI System Partition: reserved region, two FATs, the data region, free clusters.
pub open spec fn esp_spec(t: Seq<Node>, m: Seq<ManifestEntry>, volume_id: u32) -> Seq<u8> {
    let l = layout_of(t, m);
    let used = clusters_before(t, m, t.len() as int);
    reserved_region(l.esp_sectors as u32, l.fat_sectors as u32, volume_id, (l.clusters - used) as u32, (used + 2) as u32)
        + fat_bytes(t, m, l.clusters as nat, l.fat_sectors as nat) + fat_bytes(t, m, l.clusters as nat, l.fat_sectors as nat)
        + data_runs(t, m, t.len() as int) + zeros(((l.clusters - used) * 512) as nat)
}

/// The whole image of tree `t`.
pub open spec fn image_spec(t: Seq<Node>, m: Seq<ManifestEntry>, disk_guid: Seq<u8>, part_guid: Seq<u8>, volume_id: u32) -> Seq<u8> {
    let l = layout_of(t, m);
    let total = l.total_sectors;
    let arr = partition_array(part_guid, l.esp_sectors);
    protective_mbr(total)
        + header_sector(1, (total - 1) as u64, (total - 34) as u64, disk_guid, 2, crc32_of(arr))
        + arr
        + esp_spec(t, m, volume_id)
        + arr + header_sector((total - 1) as u64, 1, (total - 34) as u64, disk_guid, (total - 33) as u64, crc32_of(arr))
}

/// A tree of `m` that an image can be made of: no 8.3 clash, and within FAT32's limits.
pub open spec fn fits(t: Seq<Node>, m: Seq<ManifestEntry>) -> bool {
    &&& tree_of(t, m)
    &&& !has_clash(t)
    &&& !file_too_large(m)
    &&& clusters_before(t, m, t.len() as int) <= MAX_CLUSTERS - SLACK
}

/// `img` is the image of the tree that manifest `m` describes.
pub open spec fn built_image(m: Seq<ManifestEntry>, disk_guid: Seq<u8>, part_guid: Seq<u8>, volume_id: u32, img: Seq<u8>) -> bool {
    exists|t: Seq<Node>| #[trigger] fits(t, m) && views(t) == tree_model(m, m.len() as int)
        && img == image_spec(t, m, disk_guid, part_guid, volume_id)
}

/// The tree that manifest `m` describes has two entries of one directory under
/// one 8.3 name.
pub open spec fn model_clash(m: Seq<ManifestEntry>) -> bool {
    exists|t: Seq<Node>| #[trigger] tree_wf(t) && views(t) == tree_model(m, m.len() as int) && has_clash(t)
}

/// The content of the tree that manifest `m` describes fits in a FAT32 volume.
pub open spec fn model_fits(m: Seq<ManifestEntry>) -> bool {
    exists|t: Seq<Node>| #[trigger] tree_wf(t) && views(t) == tree_model(m, m.len() as int)
        && clusters_before(t, m, t.len() as int) <= MAX_CLUSTERS - SLACK
}

/// Builds the image of a manifest.
pub fn build(m: &Vec<ManifestEntry>, p: &BuildParams) -> (r: Result<Vec<u8>, BuildError>)
    ensures
        (r matches Err(BuildError::InvalidManifest)) <==> manifest_invalid(m@),
        (r matches Err(BuildError::PathConflict { .. })) <==> !manifest_invalid(m@) && has_conflict(m@),
        r matches Err(BuildError::PathConflict { first, second }) ==> first < second < m@.len()
            && conflict(m@[first as int].path@, m@[second as int].path@),
        manifest_ok(m@) ==> (r is Ok || r matches Err(BuildError::NameCollision { .. })
            || r matches Err(BuildError::SizeOverflow { .. })),
        manifest_ok(m@) && model_clash(m@) ==> r matches Err(BuildError::NameCollision { .. }),
        r matches Err(BuildError::NameCollision { first, second }) ==> model_clash(m@) && (exists|t: Seq<Node>, a: int, b: int|
            tree_of(t, m@) && views(t) == tree_model(m@, m@.len() as int) && #[trigger] clash(t, a, b)
            && first@ == t[a].path@ && second@ == t[b].path@),
        manifest_ok(m@) && !model_clash(m@) && !file_too_large(m@) && model_fits(m@) ==> r is Ok,
        r matches Err(BuildError::SizeOverflow { .. }) ==> file_too_large(m@) || (exists|t: Seq<Node>|
            #[trigger] tree_of(t, m@) && views(t) == tree_model(m@, m@.len() as int)
            && clusters_before(t, m@, t.len() as int) > MAX_CLUSTERS - SLACK),
        r matches Ok(img) ==> manifest_ok(m@) && built_image(m@, p.disk_guid@, p.partition_guid@, p.volume_id, img@),
{
    check_manifest(m)?;
    let t = build_tree(m);
    proof {
        assert(tree_wf(t@));
    }
    match check_names(&t) {
        Ok(()) => {},
        Err(e) => {
            return Err(e);
        },
    }
    proof {
        if model_clash(m@) {
            let t2 = choose|t2: Seq<Node>| #[trigger] tree_wf(t2) && views(t2) == tree_model(m@, m@.len() as int)
                && has_clash(t2);
            crate::determinism::lemma_same_shape(t2, t@);
            let (a, b) = choose|a: int, b: int| #[trigger] clash(t2, a, b);
            assert(t2[a].parent == t@[a].parent && t2[b].parent == t@[b].parent);
            assert(clash(t@, a, b));
        }
    }
    let counts = match cluster_counts(&t, m) {
        Ok(c) => c,
        Err(e) => {
            proof {
                if model_fits(m@) && !file_too_large(m@) {
                    let t2 = choose|t2: Seq<Node>| #[trigger] tree_wf(t2) && views(t2) == tree_model(m@, m@.len() as int)
                        && clusters_before(t2, m@, t2.len() as int) <= MAX_CLUSTERS - SLACK;
                    crate::determinism::lemma_same_shape(t2, t@);
                    crate::determinism::lemma_clusters_before(t2, t@, m@, t2.len() as int);
                }
            }
            return Err(e);
        },
    };
    let mut content: u64 = 0;
    let mut k: usize = 0;
    while k < counts.len()
        invariant
            counts@.len() == t@.len(),
            forall|j: int| 0 <= j < t@.len() ==> counts@[j] == crate::fat::node_clusters(t@, m@, j),
            clusters_before(t@, m@, t@.len() as int) <= MAX_CLUSTERS - SLACK,
            k <= t@.len(),
            content == clusters_before(t@, m@, k as int),
        decreases t@.len() - k,
    {
        proof {
            crate::fat::lemma_clusters_before_mono(t@, m@, k as int + 1, t@.len() as int);
        }
        content = content + counts[k];
        k = k + 1;
    }
    let l = compute_layout(content)?;
    assert(l == layout_of(t@, m@));
    assert(4 * (l.clusters + 2) <= l.fat_sectors * 512 <= 4 * MAX_CLUSTERS + 1024) by (nonlinear_arith)
        requires
            l.fat_sectors == ((l.clusters + 2) * 4 + 511) / 512,
            l.clusters <= MAX_CLUSTERS;
    let starts = start_clusters(&t, m, &counts);
    let total = l.total_sectors;
    let arr = make_partition_array(&p.partition_guid, l.esp_sectors);
    let crc = array_crc(&arr);
    let mut img: Vec<u8> = Vec::new();
    push_protective_mbr(&mut img, total);
    push_header_sector(&mut img, 1, total - 1, total - 34, &p.disk_guid, 2, crc);
    push_slice(&mut img, arr.as_slice());
    let ghost esp_start = img@;
    push_reserved_region(&mut img, l.esp_sectors as u32, l.fat_sectors as u32, p.volume_id,
        (l.clusters - content) as u32, (content + 2) as u32);
    push_fat(&mut img, &t, m, &counts, l.clusters, l.fat_sectors);
    push_fat(&mut img, &t, m, &counts, l.clusters, l.fat_sectors);
    push_data_region(&mut img, &t, m, &counts, &starts);
    push_zeros(&mut img, (l.clusters - content) * 512);
    assert(img@ =~= esp_start + esp_spec(t@, m@, p.volume_id));
    push_slice(&mut img, arr.as_slice());
    push_header_sector(&mut img, total - 1, 1, total - 34, &p.disk_guid, total - 33, crc);
    assert(img@ =~= image_spec(t@, m@, p.disk_guid@, p.partition_guid@, p.volume_id));
    assert(fits(t@, m@));
    Ok(img)
}

} // verus!
