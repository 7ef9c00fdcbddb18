use esp_image::gpt::array_crc;
use esp_image::image::{build, BuildParams};
use esp_image::layout::compute_layout;
use esp_image::manifest::ManifestEntry;
use esp_image::name::short_name_of;
use esp_image::BuildError;

fn entry(path: &str, data: Vec<u8>) -> ManifestEntry {
    ManifestEntry { path: path.as_bytes().to_vec(), data }
}

fn params() -> BuildParams {
    BuildParams { disk_guid: [0x11; 16], partition_guid: [0x22; 16], volume_id: 0x1234_5678 }
}

fn blob(len: usize, seed: u8) -> Vec<u8> {
    (0..len).map(|i| (i as u8).wrapping_mul(31).wrapping_add(seed)).collect()
}

fn u16_at(b: &[u8], o: usize) -> u64 {
    u16::from_le_bytes([b[o], b[o + 1]]) as u64
}

fn u32_at(b: &[u8], o: usize) -> u64 {
    u32::from_le_bytes([b[o], b[o + 1], b[o + 2], b[o + 3]]) as u64
}

fn u64_at(b: &[u8], o: usize) -> u64 {
    u32_at(b, o) | (u32_at(b, o + 4) << 32)
}

/// A reader for the volume, written from the on-disk formats.
struct Volume<'a> {
    img: &'a [u8],
    fat: usize,
    data: usize,
    root: u64,
}

struct DirEntry {
    long: String,
    name: Vec<u8>,
    attr: u8,
    cluster: u64,
    size: u64,
}

impl<'a> Volume<'a> {
    fn open(img: &'a [u8]) -> Volume<'a> {
        let start = u64_at(img, 1024 + 32) as usize * 512;
        let bs = &img[start..start + 512];
        assert_eq!(&bs[510..512], &[0x55, 0xaa]);
        assert_eq!(&bs[82..90], b"FAT32   ");
        let bps = u16_at(bs, 11) as usize;
        assert_eq!(bps, 512);
        let reserved = u16_at(bs, 14) as usize;
        let fats = bs[16] as usize;
        let fat_size = u32_at(bs, 36) as usize;
        let root = u32_at(bs, 44);
        Volume {
            img,
            fat: start + reserved * bps,
            data: start + (reserved + fats * fat_size) * bps,
            root,
        }
    }

    fn chain(&self, first: u64) -> Vec<u64> {
        let mut out = Vec::new();
        let mut c = first;
        while c >= 2 && c < 0x0fff_fff8 {
            out.push(c);
            c = u32_at(self.img, self.fat + 4 * c as usize) & 0x0fff_ffff;
        }
        out
    }

    fn read(&self, first: u64, size: u64) -> Vec<u8> {
        let mut out = Vec::new();
        for c in self.chain(first) {
            let o = self.data + (c as usize - 2) * 512;
            out.extend_from_slice(&self.img[o..o + 512]);
        }
        out.truncate(size as usize);
        out
    }

    fn list(&self, first: u64) -> Vec<DirEntry> {
        let raw = self.read(first, u64::MAX);
        let mut out = Vec::new();
        let mut long: Vec<u16> = Vec::new();
        let mut sum: Option<u8> = None;
        for e in raw.chunks(32) {
            if e[0] == 0 {
                break;
            }
            if e[11] == 0x0f {
                let mut part = Vec::new();
                for o in (1..11).step_by(2).chain((14..26).step_by(2)).chain((28..32).step_by(2)) {
                    part.push(u16_at(e, o) as u16);
                }
                if e[0] & 0x40 != 0 {
                    long.clear();
                }
                part.extend_from_slice(&long);
                long = part;
                sum = Some(e[13]);
                continue;
            }
            let name = e[0..11].to_vec();
            let text = match sum {
                Some(cs) => {
                    assert_eq!(cs, lfn_checksum(&name));
                    let end = long.iter().position(|c| *c == 0).unwrap_or(long.len());
                    String::from_utf16(&long[..end]).unwrap()
                }
                None => String::new(),
            };
            long.clear();
            sum = None;
            let cluster = (u16_at(e, 20) << 16) | u16_at(e, 26);
            out.push(DirEntry { long: text, name, attr: e[11], cluster, size: u32_at(e, 28) });
        }
        out
    }

    fn lookup(&self, path: &str) -> Option<DirEntry> {
        let mut dir = self.root;
        let parts: Vec<&str> = path.split('/').collect();
        for (i, part) in parts.iter().enumerate() {
            let found = self.list(dir).into_iter().find(|e| e.long == *part)?;
            if i + 1 == parts.len() {
                return Some(found);
            }
            dir = found.cluster;
        }
        None
    }

    fn file(&self, path: &str) -> Vec<u8> {
        let e = self.lookup(path).expect("file present");
        assert_eq!(e.attr, 0x20);
        self.read(e.cluster, e.size)
    }
}

fn lfn_checksum(short: &[u8]) -> u8 {
    short.iter().fold(0u8, |s, c| ((s & 1) << 7).wrapping_add(s >> 1).wrapping_add(*c))
}

fn check_gpt(img: &[u8]) {
    let total = (img.len() / 512) as u64;
    for (hdr_lba, arr_lba) in [(1u64, 2u64), (total - 1, total - 33)] {
        let h = &img[hdr_lba as usize * 512..hdr_lba as usize * 512 + 92];
        assert_eq!(&h[0..8], b"EFI PART");
        assert_eq!(u64_at(h, 24), hdr_lba);
        assert_eq!(u64_at(h, 72), arr_lba);
        let mut blank = h.to_vec();
        blank[16..20].copy_from_slice(&[0, 0, 0, 0]);
        assert_eq!(crc32fast::hash(&blank) as u64, u32_at(h, 16));
        let arr = &img[arr_lba as usize * 512..arr_lba as usize * 512 + 128 * 128];
        assert_eq!(crc32fast::hash(arr) as u64, u32_at(h, 88));
    }
}

fn esp_type() -> [u8; 16] {
    [0x28, 0x73, 0x2a, 0xc1, 0x1f, 0xf8, 0xd2, 0x11, 0xba, 0x4b, 0x00, 0xa0, 0xc9, 0x3e, 0xc9, 0x3b]
}

fn sample() -> Vec<ManifestEntry> {
    vec![
        entry("kernel", blob(70_000, 1)),
        entry("efi/boot/bootx64.efi", blob(5_000, 2)),
        entry("limine.conf", b"timeout: 0\n/ReductOS\n    protocol: limine\n".to_vec()),
        entry("drv/acpid", blob(900, 3)),
        entry("drv/pcid", blob(513, 4)),
        entry("drv/nvmed", blob(512, 5)),
        entry("drv/fsmd", blob(1, 6)),
    ]
}

#[test]
fn image_has_exactly_one_esp_partition() {
    let img = build(&sample(), &params()).unwrap();
    check_gpt(&img);
    let arr = &img[1024..1024 + 128 * 128];
    assert_eq!(&arr[0..16], &esp_type());
    assert_eq!(&arr[16..32], &[0x22; 16]);
    assert_eq!(u64_at(arr, 32), 34);
    assert_eq!(u64_at(arr, 40), (img.len() / 512) as u64 - 34);
    assert!(arr[128..].iter().all(|b| *b == 0));
    assert_eq!(img[446 + 4], 0xee);
    assert_eq!(&img[510..512], &[0x55, 0xaa]);
}

#[test]
fn files_read_back_by_path() {
    let m = sample();
    let img = build(&m, &params()).unwrap();
    let vol = Volume::open(&img);
    for e in &m {
        let p = std::str::from_utf8(&e.path).unwrap();
        assert_eq!(vol.file(p), e.data, "{}", p);
    }
}

#[test]
fn same_manifest_and_params_give_identical_images() {
    let a = build(&sample(), &params()).unwrap();
    let b = build(&sample(), &params()).unwrap();
    assert!(a == b);
}

#[test]
fn file_below_file_is_a_path_conflict() {
    let m = vec![entry("a/b", vec![1]), entry("a/b/c", vec![2])];
    assert_eq!(build(&m, &params()), Err(BuildError::PathConflict { first: 0, second: 1 }));
    let m = vec![entry("a/b/c", vec![2]), entry("a/b", vec![1])];
    assert_eq!(build(&m, &params()), Err(BuildError::PathConflict { first: 0, second: 1 }));
}

#[test]
fn duplicate_path_is_a_path_conflict() {
    let m = vec![entry("x", vec![1]), entry("y", vec![1]), entry("x", vec![2])];
    assert_eq!(build(&m, &params()), Err(BuildError::PathConflict { first: 0, second: 2 }));
}

#[test]
fn kernel_and_drivers_give_the_smallest_image() {
    let m = vec![
        entry("kernel", blob(10 * 1024 * 1024, 7)),
        entry("drv/acpid", blob(700, 1)),
        entry("drv/pcid", blob(800, 2)),
        entry("drv/nvmed", blob(900, 3)),
        entry("drv/fsmd", blob(1000, 4)),
    ];
    let img = build(&m, &params()).unwrap();
    check_gpt(&img);
    // root 1 + kernel 20480 + drv 1 + drivers 2 each; below the FAT32 minimum, so 65525
    // clusters, 512 FAT sectors, 32 + 1024 + 65525 ESP sectors, 34 + 66581 + 33 in all.
    assert_eq!(img.len(), 66648 * 512);
    let vol = Volume::open(&img);
    assert_eq!(vol.file("kernel"), m[0].data);
    assert_eq!(vol.file("drv/fsmd"), m[4].data);
}

#[test]
fn large_content_grows_the_volume() {
    let m = vec![entry("kernel", blob(40 * 1024 * 1024, 9))];
    let img = build(&m, &params()).unwrap();
    // root 1 + kernel 81920 + slack 64 = 81985 clusters, 641 FAT sectors.
    assert_eq!(img.len(), (34 + 32 + 2 * 641 + 81985 + 33) * 512);
    check_gpt(&img);
}

#[test]
fn siblings_with_one_short_name_collide() {
    let m = vec![entry("drv/driver12.bin", vec![1]), entry("drv/driver123.bin", vec![2])];
    assert_eq!(
        build(&m, &params()),
        Err(BuildError::NameCollision {
            first: b"drv/driver12.bin".to_vec(),
            second: b"drv/driver123.bin".to_vec(),
        })
    );
}

#[test]
fn same_short_name_in_different_directories_is_fine() {
    let m = vec![entry("a/driver12.bin", vec![1]), entry("b/driver123.bin", vec![2])];
    assert!(build(&m, &params()).is_ok());
}

#[test]
fn limine_scenario() {
    let m = vec![
        entry("efi/boot/bootx64.efi", blob(512 * 1024, 1)),
        entry("limine.conf", blob(200, 2)),
        entry("kernel", blob(8 * 1024 * 1024, 3)),
    ];
    let img = build(&m, &params()).unwrap();
    check_gpt(&img);
    let vol = Volume::open(&img);
    let root = vol.list(vol.root);
    let names: Vec<(String, u8)> = root.iter().map(|e| (e.long.clone(), e.attr)).collect();
    assert_eq!(
        names,
        vec![("efi".to_string(), 0x10), ("limine.conf".to_string(), 0x20), ("kernel".to_string(), 0x20)]
    );
    assert_eq!(root[1].name, b"LIMINE  CON".to_vec());
    assert_eq!(root[1].size, 200);
    assert_eq!(vol.file("limine.conf"), m[1].data);
    let efi = vol.list(root[0].cluster);
    assert_eq!(efi[0].name, b".          ".to_vec());
    assert_eq!(efi[1].name, b"..         ".to_vec());
    assert_eq!(efi[1].cluster, 0);
    assert_eq!(efi.len(), 3);
    assert_eq!(efi[2].name, b"BOOT       ".to_vec());
    assert_eq!(efi[2].long, "boot");
    let boot = vol.list(efi[2].cluster);
    assert_eq!(boot.len(), 3);
    assert_eq!(boot[2].name, b"BOOTX64 EFI".to_vec());
    assert_eq!(boot[2].long, "bootx64.efi");
    assert_eq!(boot[2].size, 512 * 1024);
    assert_eq!(boot[1].cluster, root[0].cluster);
    assert_eq!(vol.file("efi/boot/bootx64.efi"), m[0].data);
    assert_eq!(vol.file("kernel"), m[2].data);
}

#[test]
fn empty_manifest_is_invalid() {
    assert_eq!(build(&vec![], &params()), Err(BuildError::InvalidManifest));
}

#[test]
fn manifest_without_content_is_invalid() {
    let m = vec![entry("a", vec![]), entry("b", vec![])];
    assert_eq!(build(&m, &params()), Err(BuildError::InvalidManifest));
}

#[test]
fn malformed_paths_are_invalid() {
    for p in ["", "/kernel", "kernel/", "a//b", ".hidden", "a/../b", "a b", "a\\b"] {
        let m = vec![entry(p, vec![1])];
        assert_eq!(build(&m, &params()), Err(BuildError::InvalidManifest), "{:?}", p);
    }
}

#[test]
fn long_components_are_limited() {
    let ok = "n".repeat(255);
    assert!(build(&vec![entry(&format!("d/{}", ok), vec![1])], &params()).is_ok());
    let long = "n".repeat(256);
    assert_eq!(build(&vec![entry(&format!("d/{}", long), vec![1])], &params()), Err(BuildError::InvalidManifest));
}

#[test]
fn long_names_read_back() {
    let name = "a-rather-long-file-name.with.dots.txt";
    let m = vec![entry(&format!("dir/{}", name), blob(3000, 8)), entry("dir/x", vec![1])];
    let img = build(&m, &params()).unwrap();
    let vol = Volume::open(&img);
    let e = vol.lookup(&format!("dir/{}", name)).unwrap();
    assert_eq!(e.name, b"A-RATHERTXT".to_vec());
    assert_eq!(vol.file(&format!("dir/{}", name)), m[0].data);
}

#[test]
fn empty_file_takes_no_cluster() {
    let m = vec![entry("empty", vec![]), entry("full", vec![9; 10])];
    let img = build(&m, &params()).unwrap();
    let vol = Volume::open(&img);
    let e = vol.lookup("empty").unwrap();
    assert_eq!((e.cluster, e.size), (0, 0));
    assert_eq!(vol.file("full"), vec![9; 10]);
    assert_eq!(vol.lookup("full").unwrap().cluster, 3);
}

#[test]
fn short_names() {
    let cases: [(&str, &[u8; 11]); 6] = [
        ("bootx64.efi", b"BOOTX64 EFI"),
        ("limine.conf", b"LIMINE  CON"),
        ("kernel", b"KERNEL     "),
        ("a.b.c", b"A_B     C  "),
        ("verylongname.text", b"VERYLONGTEX"),
        ("x+y.", b"X_Y        "),
    ];
    for (name, want) in cases {
        let b = name.as_bytes().to_vec();
        assert_eq!(short_name_of(&b, 0, b.len()), want.to_vec(), "{}", name);
    }
}

#[test]
fn layout_formula() {
    let l = compute_layout(0).ok().unwrap();
    assert_eq!((l.clusters, l.fat_sectors, l.esp_sectors, l.total_sectors), (65525, 512, 66581, 66648));
    let l = compute_layout(100_000).ok().unwrap();
    assert_eq!((l.clusters, l.fat_sectors), (100_064, 782));
    assert_eq!(l.esp_sectors, 32 + 2 * 782 + 100_064);
    assert_eq!(l.total_sectors, 34 + l.esp_sectors + 33);
    assert!(matches!(compute_layout(0x0fff_fff5), Err(BuildError::SizeOverflow { clusters: 0x0fff_fff5 })));
}

#[test]
fn partition_array_checksum() {
    assert_eq!(array_crc(&b"123456789".to_vec()), 0xcbf4_3926);
}

#[test]
fn volume_fields() {
    let img = build(&sample(), &params()).unwrap();
    let bs = &img[34 * 512..35 * 512];
    assert_eq!(&bs[0..3], &[0xeb, 0x58, 0x90]);
    assert_eq!(bs[13], 1);
    assert_eq!(u16_at(bs, 14), 32);
    assert_eq!(bs[16], 2);
    assert_eq!(u32_at(bs, 28), 34);
    assert_eq!(u32_at(bs, 32), (img.len() / 512 - 34 - 33) as u64);
    assert_eq!(u32_at(bs, 67), 0x1234_5678);
    assert_eq!(&img[(34 + 6) * 512..(34 + 7) * 512], bs);
    let fsinfo = &img[35 * 512..36 * 512];
    assert_eq!(u32_at(fsinfo, 0), 0x4161_5252);
    assert_eq!(u32_at(fsinfo, 484), 0x6141_7272);
    let vol = Volume::open(&img);
    assert_eq!(u32_at(&img, vol.fat), 0x0fff_fff8);
    assert_eq!(&img[vol.fat..vol.data - (vol.data - vol.fat) / 2], &img[vol.data - (vol.data - vol.fat) / 2..vol.data]);
}
