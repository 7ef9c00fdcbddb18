//! The GUID partition table: protective MBR, headers and the partition array,
//! with one EFI System Partition.
use vstd::prelude::*;
use crate::bytes::{le32, le64, zeros, push_le32, push_le64, push_zeros, push_slice};
use crate::layout::PART_START;

verus! {

/// Number of entries in the partition array, and the size of each.
pub const ENTRIES: u64 = 128;
pub const ENTRY_SIZE: u64 = 128;
/// First sector a partition may use: after the MBR, header and 32-sector array.
pub const FIRST_USABLE: u64 = 34;

/// CRC-32 (IEEE) of the given bytes.
pub uninterp spec fn crc32_of(b: Seq<u8>) -> u32;

/// Relies on crc32fast::hash: the IEEE CRC-32 of the bytes, which depends on them alone.
#[verifier::external_body]
fn crc32(b: &[u8]) -> (r: u32)
    ensures
        r == crc32_of(b@),
{
    crc32fast::hash(b)
}

/// The EFI System Partition type, C12A7328-F81F-11D2-BA4B-00A0C93EC93B, as stored.
pub open spec fn esp_type() -> Seq<u8> {
    seq![0x28u8, 0x73, 0x2a, 0xc1, 0x1f, 0xf8, 0xd2, 0x11, 0xba, 0x4b, 0x00, 0xa0, 0xc9, 0x3e, 0xc9, 0x3b]
}

/// "EFI System Partition" in UTF-16LE, padded to 72 bytes.
pub open spec fn part_name() -> Seq<u8> {
    seq![0x45u8, 0, 0x46, 0, 0x49, 0, 0x20, 0, 0x53, 0, 0x79, 0, 0x73, 0, 0x74, 0, 0x65, 0, 0x6d, 0,
        0x20, 0, 0x50, 0, 0x61, 0, 0x72, 0, 0x74, 0, 0x69, 0, 0x74, 0, 0x69, 0, 0x6f, 0, 0x6e, 0]
        + zeros(32)
}

pub open spec fn protective_mbr(total_sectors: u64) -> Seq<u8> {
    let size: u32 = if total_sectors - 1 > u32::MAX { u32::MAX } else { (total_sectors - 1) as u32 };
    zeros(446) + seq![0u8, 0, 2, 0, 0xee, 0xff, 0xff, 0xff] + le32(1) + le32(size) + zeros(48)
        + seq![0x55u8, 0xaa]
}

/// The partition array: the ESP over `esp_sectors` sectors from `PART_START`, then unused entries.
pub open spec fn partition_array(part_guid: Seq<u8>, esp_sectors: u64) -> Seq<u8> {
    esp_type() + part_guid + le64(PART_START) + le64((PART_START + esp_sectors - 1) as u64) + le64(0)
        + part_name() + zeros(((ENTRIES - 1) * ENTRY_SIZE) as nat)
}

/// The 92 bytes of a GPT header.
pub open spec fn gpt_header(my_lba: u64, alt_lba: u64, last_usable: u64, disk_guid: Seq<u8>, array_lba: u64, array_crc: u32, crc: u32) -> Seq<u8> {
    seq![0x45u8, 0x46, 0x49, 0x20, 0x50, 0x41, 0x52, 0x54] + le32(0x0001_0000) + le32(92) + le32(crc)
        + le32(0) + le64(my_lba) + le64(alt_lba) + le64(FIRST_USABLE) + le64(last_usable) + disk_guid
        + le64(array_lba) + le32(ENTRIES as u32) + le32(ENTRY_SIZE as u32) + le32(array_crc)
}

/// A header sector: the header with its own CRC, taken with the CRC field zero.
pub open spec fn header_sector(my_lba: u64, alt_lba: u64, last_usable: u64, disk_guid: Seq<u8>, array_lba: u64, array_crc: u32) -> Seq<u8> {
    gpt_header(my_lba, alt_lba, last_usable, disk_guid, array_lba, array_crc,
        crc32_of(gpt_header(my_lba, alt_lba, last_usable, disk_guid, array_lba, array_crc, 0))) + zeros(420)
}

fn push_array16(v: &mut Vec<u8>, g: &[u8; 16])
    ensures
        final(v)@ == old(v)@ + g@,
{
    let ghost base = v@;
    let mut i: usize = 0;
    while i < 16
        invariant
            i <= 16,
            g@.len() == 16,
            v@ =~= base + g@.take(i as int),
        decreases 16 - i,
    {
        v.push(g[i]);
        i = i + 1;
        assert(v@ =~= base + g@.take(i as int));
    }
    assert(g@.take(16) =~= g@);
}

pub fn push_protective_mbr(v: &mut Vec<u8>, total_sectors: u64)
    requires
        total_sectors >= 1,
    ensures
        final(v)@ == old(v)@ + protective_mbr(total_sectors),
{
    let ghost base = v@;
    push_zeros(v, 446);
    let head: Vec<u8> = vec![0, 0, 2, 0, 0xee, 0xff, 0xff, 0xff];
    push_slice(v, head.as_slice());
    push_le32(v, 1);
    let size: u32 = if total_sectors - 1 > 0xffff_ffff { 0xffff_ffff } else { (total_sectors - 1) as u32 };
    push_le32(v, size);
    push_zeros(v, 48);
    v.push(0x55u8);
    v.push(0xaau8);
    assert(final(v)@ =~= base + protective_mbr(total_sectors));
}

pub fn make_partition_array(part_guid: &[u8; 16], esp_sectors: u64) -> (r: Vec<u8>)
    requires
        1 <= esp_sectors <= u64::MAX - PART_START,
    ensures
        r@ == partition_array(part_guid@, esp_sectors),
{
    let mut v: Vec<u8> = Vec::new();
    let ty: Vec<u8> = vec![0x28, 0x73, 0x2a, 0xc1, 0x1f, 0xf8, 0xd2, 0x11, 0xba, 0x4b, 0x00, 0xa0, 0xc9, 0x3e, 0xc9, 0x3b];
    push_slice(&mut v, ty.as_slice());
    push_array16(&mut v, part_guid);
    push_le64(&mut v, PART_START);
    push_le64(&mut v, PART_START + esp_sectors - 1);
    push_le64(&mut v, 0);
    let name: Vec<u8> = vec![0x45, 0, 0x46, 0, 0x49, 0, 0x20, 0, 0x53, 0, 0x79, 0, 0x73, 0, 0x74, 0, 0x65, 0, 0x6d, 0,
        0x20, 0, 0x50, 0, 0x61, 0, 0x72, 0, 0x74, 0, 0x69, 0, 0x74, 0, 0x69, 0, 0x6f, 0, 0x6e, 0];
    push_slice(&mut v, name.as_slice());
    push_zeros(&mut v, 32);
    push_zeros(&mut v, (ENTRIES - 1) * ENTRY_SIZE);
    assert(v@ =~= partition_array(part_guid@, esp_sectors));
    v
}

/// The header with the given CRC field, as its own buffer.
pub fn make_gpt_header(my_lba: u64, alt_lba: u64, last_usable: u64, disk_guid: &[u8; 16], array_lba: u64, array_crc: u32, crc: u32) -> (r: Vec<u8>)
    ensures
        r@ == gpt_header(my_lba, alt_lba, last_usable, disk_guid@, array_lba, array_crc, crc),
{
    let mut v: Vec<u8> = Vec::new();
    let sig: Vec<u8> = vec![0x45, 0x46, 0x49, 0x20, 0x50, 0x41, 0x52, 0x54];
    push_slice(&mut v, sig.as_slice());
    push_le32(&mut v, 0x0001_0000);
    push_le32(&mut v, 92);
    push_le32(&mut v, crc);
    push_le32(&mut v, 0);
    push_le64(&mut v, my_lba);
    push_le64(&mut v, alt_lba);
    push_le64(&mut v, FIRST_USABLE);
    push_le64(&mut v, last_usable);
    push_array16(&mut v, disk_guid);
    push_le64(&mut v, array_lba);
    push_le32(&mut v, ENTRIES as u32);
    push_le32(&mut v, ENTRY_SIZE as u32);
    push_le32(&mut v, array_crc);
    assert(v@ =~= gpt_header(my_lba, alt_lba, last_usable, disk_guid@, array_lba, array_crc, crc));
    v
}

/// Appends a header sector, checksumming the header with its CRC field zero.
pub fn push_header_sector(v: &mut Vec<u8>, my_lba: u64, alt_lba: u64, last_usable: u64, disk_guid: &[u8; 16], array_lba: u64, array_crc: u32)
    ensures
        final(v)@ == old(v)@ + header_sector(my_lba, alt_lba, last_usable, disk_guid@, array_lba, array_crc),
{
    let ghost base = v@;
    let blank = make_gpt_header(my_lba, alt_lba, last_usable, disk_guid, array_lba, array_crc, 0);
    let crc = crc32(blank.as_slice());
    let hdr = make_gpt_header(my_lba, alt_lba, last_usable, disk_guid, array_lba, array_crc, crc);
    push_slice(v, hdr.as_slice());
    push_zeros(v, 420);
}

/// CRC-32 of a partition array.
pub fn array_crc(a: &Vec<u8>) -> (r: u32)
    ensures
        r == crc32_of(a@),
{
    crc32(a.as_slice())
}

} // verus!
