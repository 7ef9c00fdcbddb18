//! Sizing: how many clusters, FAT sectors and image sectors a given content needs.
//!
//! The volume is always FAT32 with 512-byte sectors and one sector per cluster,
//! since the target firmware is UEFI. The partition starts right after the
//! primary GPT, so the image is no larger than the content calls for.
use vstd::prelude::*;
use crate::BuildError;

verus! {

pub const SECTOR: u64 = 512;
/// First sector of the EFI System Partition: after the MBR, the primary GPT
/// header and its 32-sector partition array.
pub const PART_START: u64 = 34;
/// Reserved sectors at the start of the volume (boot sector, FSInfo, their backups).
pub const RESERVED: u64 = 32;
/// Sectors of the backup partition array (32) and backup GPT header (1).
pub const GPT_TAIL: u64 = 33;
/// FAT32 needs at least this many clusters; firmware takes a smaller volume for FAT16.
pub const MIN_CLUSTERS: u64 = 65525;
/// Policy slack: free clusters kept beyond what the content needs, so that
/// metadata can grow without the FAT having to grow.
pub const SLACK: u64 = 64;
/// The most clusters a FAT32 volume can address.
pub const MAX_CLUSTERS: u64 = 0x0fff_fff5;

pub struct Layout {
    pub clusters: u64,
    pub fat_sectors: u64,
    pub esp_sectors: u64,
    pub total_sectors: u64,
}

pub open spec fn clusters_for(content: nat) -> nat {
    if content + SLACK < MIN_CLUSTERS {
        MIN_CLUSTERS as nat
    } else {
        (content + SLACK) as nat
    }
}

/// Sectors for one FAT: four bytes per cluster, plus the two reserved entries.
pub open spec fn fat_sectors_for(clusters: nat) -> nat {
    (((clusters + 2) * 4 + 511) as int / 512) as nat
}

/// The layout of an image whose files and directories take `content` clusters.
pub open spec fn layout_spec(l: Layout, content: nat) -> bool {
    &&& l.clusters == clusters_for(content)
    &&& l.fat_sectors == fat_sectors_for(l.clusters as nat)
    &&& l.esp_sectors == RESERVED + 2 * l.fat_sectors + l.clusters
    &&& l.total_sectors == PART_START + l.esp_sectors + GPT_TAIL
}

pub fn compute_layout(content: u64) -> (r: Result<Layout, BuildError>)
    ensures
        (r is Ok) <==> (clusters_for(content as nat) <= MAX_CLUSTERS),
        r matches Ok(l) ==> (layout_spec(l, content as nat)),
        r matches Err(e) ==> (e == BuildError::SizeOverflow { clusters: content }),
{
    if content > MAX_CLUSTERS - SLACK {
        return Err(BuildError::SizeOverflow { clusters: content });
    }
    let clusters = if content + SLACK < MIN_CLUSTERS { MIN_CLUSTERS } else { content + SLACK };
    let fat_sectors = ((clusters + 2) * 4 + 511) / 512;
    let esp_sectors = RESERVED + 2 * fat_sectors + clusters;
    Ok(Layout { clusters, fat_sectors, esp_sectors, total_sectors: PART_START + esp_sectors + GPT_TAIL })
}

} // verus!
