//! The reserved region of the FAT32 volume: boot sector and FSInfo sector,
//! with their backup copies at sectors 6 and 7.
use vstd::prelude::*;
use crate::bytes::{le16, le32, zeros, push_le16, push_le32, push_zeros, push_slice};
use crate::layout::PART_START;

verus! {

pub open spec fn boot_sector(esp_sectors: u32, fat_sectors: u32, volume_id: u32) -> Seq<u8> {
    seq![0xebu8, 0x58, 0x90] + seq![0x4du8, 0x53, 0x57, 0x49, 0x4e, 0x34, 0x2e, 0x31]
        + le16(512) + seq![1u8] + le16(32) + seq![2u8] + le16(0) + le16(0) + seq![0xf8u8] + le16(0)
        + le16(63) + le16(255) + le32(PART_START as u32) + le32(esp_sectors) + le32(fat_sectors)
        + le16(0) + le16(0) + le32(2) + le16(1) + le16(6) + zeros(12)
        + seq![0x80u8, 0, 0x29] + le32(volume_id)
        + seq![0x4eu8, 0x4f, 0x20, 0x4e, 0x41, 0x4d, 0x45, 0x20, 0x20, 0x20, 0x20]
        + seq![0x46u8, 0x41, 0x54, 0x33, 0x32, 0x20, 0x20, 0x20] + zeros(420) + seq![0x55u8, 0xaa]
}

pub open spec fn fsinfo_sector(free: u32, next_free: u32) -> Seq<u8> {
    le32(0x4161_5252) + zeros(480) + le32(0x6141_7272) + le32(free) + le32(next_free) + zeros(12)
        + le32(0xaa55_0000)
}

/// Sectors 0 to 31 of the volume.
pub open spec fn reserved_region(esp_sectors: u32, fat_sectors: u32, volume_id: u32, free: u32, next_free: u32) -> Seq<u8> {
    boot_sector(esp_sectors, fat_sectors, volume_id) + fsinfo_sector(free, next_free) + zeros(4 * 512)
        + boot_sector(esp_sectors, fat_sectors, volume_id) + fsinfo_sector(free, next_free) + zeros(24 * 512)
}

fn push_boot_sector(v: &mut Vec<u8>, esp_sectors: u32, fat_sectors: u32, volume_id: u32)
    ensures
        final(v)@ == old(v)@ + boot_sector(esp_sectors, fat_sectors, volume_id),
{
    let ghost base = v@;
    let head: Vec<u8> = vec![0xeb, 0x58, 0x90, 0x4d, 0x53, 0x57, 0x49, 0x4e, 0x34, 0x2e, 0x31];
    push_slice(v, head.as_slice());
    push_le16(v, 512);
    v.push(1u8);
    push_le16(v, 32);
    v.push(2u8);
    push_le16(v, 0);
    push_le16(v, 0);
    v.push(0xf8u8);
    push_le16(v, 0);
    push_le16(v, 63);
    push_le16(v, 255);
    push_le32(v, PART_START as u32);
    push_le32(v, esp_sectors);
    push_le32(v, fat_sectors);
    push_le16(v, 0);
    push_le16(v, 0);
    push_le32(v, 2);
    push_le16(v, 1);
    push_le16(v, 6);
    push_zeros(v, 12);
    v.push(0x80u8);
    v.push(0u8);
    v.push(0x29u8);
    push_le32(v, volume_id);
    let label: Vec<u8> = vec![0x4e, 0x4f, 0x20, 0x4e, 0x41, 0x4d, 0x45, 0x20, 0x20, 0x20, 0x20,
        0x46, 0x41, 0x54, 0x33, 0x32, 0x20, 0x20, 0x20];
    push_slice(v, label.as_slice());
    push_zeros(v, 420);
    v.push(0x55u8);
    v.push(0xaau8);
    assert(final(v)@ =~= base + boot_sector(esp_sectors, fat_sectors, volume_id));
}

fn push_fsinfo(v: &mut Vec<u8>, free: u32, next_free: u32)
    ensures
        final(v)@ == old(v)@ + fsinfo_sector(free, next_free),
{
    let ghost base = v@;
    push_le32(v, 0x4161_5252);
    push_zeros(v, 480);
    push_le32(v, 0x6141_7272);
    push_le32(v, free);
    push_le32(v, next_free);
    push_zeros(v, 12);
    push_le32(v, 0xaa55_0000);
    assert(final(v)@ =~= base + fsinfo_sector(free, next_free));
}

pub fn push_reserved_region(v: &mut Vec<u8>, esp_sectors: u32, fat_sectors: u32, volume_id: u32, free: u32, next_free: u32)
    ensures
        final(v)@ == old(v)@ + reserved_region(esp_sectors, fat_sectors, volume_id, free, next_free),
        reserved_region(esp_sectors, fat_sectors, volume_id, free, next_free).len() == 32 * 512,
{
    let ghost base = v@;
    push_boot_sector(v, esp_sectors, fat_sectors, volume_id);
    push_fsinfo(v, free, next_free);
    push_zeros(v, 4 * 512);
    push_boot_sector(v, esp_sectors, fat_sectors, volume_id);
    push_fsinfo(v, free, next_free);
    push_zeros(v, 24 * 512);
    assert(final(v)@ =~= base + reserved_region(esp_sectors, fat_sectors, volume_id, free, next_free));
}

} // verus!
