use kernel_core::block::{BlockDevice, DriverError};
use kernel_core::sysroot_blob::{gpt_layout, parse_table, part_name_matches, scan_sector, GptLayout, SysrootBlob};

/// A plain in-memory disk; reads past the end fail.
struct Disk {
    sectors: Vec<[u8; 512]>,
}

impl BlockDevice for Disk {
    fn read_blocks(&self, lba: u64, buf: &mut [u8]) -> Result<(), DriverError> {
        for (k, chunk) in buf.chunks_mut(512).enumerate() {
            let idx = lba as usize + k;
            if idx >= self.sectors.len() {
                return Err(DriverError::OutOfBounds);
            }
            chunk.copy_from_slice(&self.sectors[idx][..chunk.len()]);
        }
        Ok(())
    }
    fn write_blocks(&self, _lba: u64, _buf: &[u8]) -> Result<(), DriverError> {
        Err(DriverError::ReadOnly)
    }
    fn block_size(&self) -> usize {
        512
    }
    fn is_read_only(&self) -> bool {
        true
    }
    fn flush(&self) -> Result<(), DriverError> {
        Ok(())
    }
}

fn utf16(name: &str, field: usize) -> Vec<u8> {
    let mut v = Vec::new();
    for b in name.bytes() {
        v.push(b);
        v.push(0);
    }
    v.resize(field, 0);
    v
}

fn header(files: &[(&str, u64, u64)]) -> [u8; 512] {
    let mut s = [0u8; 512];
    s[0..8].copy_from_slice(b"SEMSYSR1");
    s[8..12].copy_from_slice(&(files.len() as u32).to_le_bytes());
    for (i, (name, lba, len)) in files.iter().enumerate() {
        let off = 16 + 80 * i;
        s[off..off + name.len()].copy_from_slice(name.as_bytes());
        s[off + 64..off + 72].copy_from_slice(&lba.to_le_bytes());
        s[off + 72..off + 80].copy_from_slice(&len.to_le_bytes());
    }
    s
}

fn pattern_sector(seed: u8) -> [u8; 512] {
    let mut s = [0u8; 512];
    for (i, b) in s.iter_mut().enumerate() {
        *b = seed.wrapping_add(i as u8);
    }
    s
}

/// A raw disk: header at sector 0, file "a" in sectors 1..3 (700 bytes),
/// file "libcore.rmeta" at sector 3 (10 bytes).
fn raw_disk() -> Disk {
    let mut sectors = vec![[0u8; 512]; 8];
    sectors[0] = header(&[("a", 1, 700), ("libcore.rmeta", 3, 10)]);
    sectors[1] = pattern_sector(0);
    sectors[2] = pattern_sector(100);
    sectors[3] = pattern_sector(7);
    Disk { sectors }
}

#[test]
fn part_name_matching() {
    assert!(part_name_matches(&utf16("SEMOS_SYSROOT", 72), b"SEMOS_SYSROOT"));
    assert!(!part_name_matches(&utf16("SEMOS_SYSROOTX", 72), b"SEMOS_SYSROOT"));
    assert!(!part_name_matches(&utf16("SEMOS_SYS", 72), b"SEMOS_SYSROOT"));
    // Name exactly fills the field.
    assert!(part_name_matches(&utf16("AB", 4), b"AB"));
    // Field shorter than the target.
    assert!(!part_name_matches(&utf16("A", 2), b"AB"));
    // A non-zero high byte is not ASCII.
    let mut raw = utf16("AB", 8);
    raw[1] = 1;
    assert!(!part_name_matches(&raw, b"AB"));
}

#[test]
fn gpt_header_layouts() {
    let plain = [0u8; 512];
    assert_eq!(gpt_layout(&plain), GptLayout::NoGpt);
    let mut g = [0u8; 512];
    g[0..8].copy_from_slice(b"EFI PART");
    g[72..80].copy_from_slice(&2u64.to_le_bytes());
    g[80..84].copy_from_slice(&128u32.to_le_bytes());
    g[84..88].copy_from_slice(&128u32.to_le_bytes());
    assert_eq!(gpt_layout(&g), GptLayout::Table { entries_lba: 2, num_entries: 128, entry_size: 128 });
    g[84..88].copy_from_slice(&0u32.to_le_bytes());
    assert_eq!(gpt_layout(&g), GptLayout::Malformed);
    g[84..88].copy_from_slice(&1024u32.to_le_bytes());
    assert_eq!(gpt_layout(&g), GptLayout::Malformed);
}

fn gpt_entry(name: &str, first_lba: u64) -> [u8; 128] {
    let mut e = [0u8; 128];
    e[0] = 0xAF; // non-zero type GUID
    e[32..40].copy_from_slice(&first_lba.to_le_bytes());
    e[56..128].copy_from_slice(&utf16(name, 72));
    e
}

#[test]
fn sector_scan_finds_the_partition() {
    let mut sec = [0u8; 512];
    sec[0..128].copy_from_slice(&gpt_entry("EFI", 34));
    // entry 1 unused (all zero)
    sec[256..384].copy_from_slice(&gpt_entry("SEMOS_SYSROOT", 4096));
    assert_eq!(scan_sector(&sec, 128, 4), Some(4096));
    assert_eq!(scan_sector(&sec, 128, 2), None);
}

#[test]
fn table_parsing() {
    let h = header(&[("x", 5, 9)]);
    let files = parse_table(&h).unwrap();
    assert_eq!(files.len(), 1);
    assert_eq!(files[0].name, b"x".to_vec());
    assert_eq!(files[0].lba, 5);
    assert_eq!(files[0].len, 9);
    let mut bad = h;
    bad[0] = b'X';
    assert!(parse_table(&bad).is_none());
    let mut zero = h;
    zero[8] = 0;
    assert!(parse_table(&zero).is_none());
    let mut many = h;
    many[8] = 7;
    assert!(parse_table(&many).is_none());
}

#[test]
fn probe_raw_disk_and_lookup() {
    let disk = raw_disk();
    let mut blob = SysrootBlob::new();
    blob.probe(Some(&disk));
    assert_eq!(blob.base_lba, 0);
    assert_eq!(blob.count(), 2);
    assert_eq!(blob.find("libcore.rmeta"), Some(1));
    assert_eq!(blob.find("a"), Some(0));
    assert_eq!(blob.find("missing"), None);
    assert_eq!(blob.file_len(0), Some(700));
    assert_eq!(blob.file_len(2), None);
    let mut name = [0xFFu8; 4];
    assert_eq!(blob.info(1, &mut name), Some(10));
    assert_eq!(&name, b"libc");
    let mut wide = [0xFFu8; 16];
    assert_eq!(blob.info(0, &mut wide), Some(700));
    assert_eq!(wide[0], b'a');
    assert_eq!(wide[1], 0xFF);
    assert_eq!(blob.info(9, &mut wide), None);
}

#[test]
fn probe_without_device_or_blob() {
    let mut blob = SysrootBlob::new();
    blob.probe::<Disk>(None);
    assert_eq!(blob.count(), 0);
    let empty = Disk { sectors: vec![[0u8; 512]; 4] };
    blob.probe(Some(&empty));
    assert_eq!(blob.count(), 0);
    assert_eq!(blob.find("a"), None);
    let mut buf = [0u8; 4];
    assert_eq!(blob.read(Some(&empty), 0, 0, &mut buf), None);
}

#[test]
fn read_across_sectors() {
    let disk = raw_disk();
    let mut blob = SysrootBlob::new();
    blob.probe(Some(&disk));
    let mut buf = [0u8; 20];
    // Bytes 505..525 of file "a" straddle its two sectors.
    assert_eq!(blob.read(Some(&disk), 0, 505, &mut buf), Some(20));
    for k in 0..7 {
        assert_eq!(buf[k], (505 + k) as u8);
    }
    for k in 7..20 {
        assert_eq!(buf[k], 100u8.wrapping_add((k - 7) as u8));
    }
    // Reads stop at the end of the file.
    let mut big = [0u8; 64];
    assert_eq!(blob.read(Some(&disk), 0, 690, &mut big), Some(10));
    assert_eq!(blob.read(Some(&disk), 0, 700, &mut big), Some(0));
    assert_eq!(blob.read(Some(&disk), 5, 0, &mut big), None);
    assert_eq!(blob.read::<Disk>(None, 0, 0, &mut big), None);
    let mut small = [0u8; 3];
    assert_eq!(blob.read(Some(&disk), 1, 2, &mut small), Some(3));
    assert_eq!(small, [9, 10, 11]);
}

#[test]
fn read_failure_midway_returns_partial() {
    // File "big" claims 40000 bytes from sector 1, but the disk ends at sector 64.
    let mut sectors = vec![[0u8; 512]; 65];
    sectors[0] = header(&[("big", 1, 40000)]);
    sectors[1] = pattern_sector(1);
    let disk = Disk { sectors };
    let mut blob = SysrootBlob::new();
    blob.probe(Some(&disk));
    // The first pass (64 sectors) succeeds, the second fails: a partial read.
    let mut buf = vec![0u8; 32768 + 10];
    assert_eq!(blob.read(Some(&disk), 0, 0, &mut buf), Some(32768));
    assert_eq!(buf[0], 1);
    assert_eq!(buf[32768], 0);
    // Starting past the readable part fails outright.
    let mut buf2 = vec![0u8; 16];
    assert_eq!(blob.read(Some(&disk), 0, 32768, &mut buf2), None);
}

#[test]
fn probe_gpt_partition() {
    let mut sectors = vec![[0u8; 512]; 16];
    let mut g = [0u8; 512];
    g[0..8].copy_from_slice(b"EFI PART");
    g[72..80].copy_from_slice(&2u64.to_le_bytes());
    g[80..84].copy_from_slice(&8u32.to_le_bytes());
    g[84..88].copy_from_slice(&128u32.to_le_bytes());
    sectors[1] = g;
    // Entries 0..4 in sector 2 (unused / other), the target is entry 5 in sector 3.
    sectors[2][0..128].copy_from_slice(&gpt_entry("EFI", 40));
    sectors[3][128..256].copy_from_slice(&gpt_entry("SEMOS_SYSROOT", 10));
    sectors[10] = header(&[("f", 1, 4)]);
    sectors[11] = pattern_sector(50);
    let disk = Disk { sectors };
    let mut blob = SysrootBlob::new();
    blob.probe(Some(&disk));
    assert_eq!(blob.base_lba, 10);
    assert_eq!(blob.count(), 1);
    let mut buf = [0u8; 8];
    assert_eq!(blob.read(Some(&disk), 0, 0, &mut buf), Some(4));
    assert_eq!(&buf[..4], &[50, 51, 52, 53]);

    // A GPT without the partition: nothing is probed.
    let mut sectors2 = disk.sectors.clone();
    sectors2[3] = [0u8; 512];
    let disk2 = Disk { sectors: sectors2 };
    let mut blob2 = SysrootBlob::new();
    blob2.probe(Some(&disk2));
    assert_eq!(blob2.count(), 0);
    assert_eq!(blob2.base_lba, 0);
}
