use kernel_core::block::{BlockDevice, DriverError};
use kernel_core::journal::{
    choose_superblock, decode_superblock, encode_record, encode_superblock, journaled_insert, journaled_remove,
    mount, record_head, scan_record, CommitPolicy, Journal, MountOutcome, RecordBody, RecordHead, Superblock,
    REC_MAGIC, SECTOR,
};
use kernel_core::search::{SearchError, SearchStats, SemanticSearch};
use kernel_core::storage::snapshot::{
    check_snapshot_payload, load_snapshot, parse_snapshot_header, save_snapshot, snapshot_header_sector,
    snapshot_payload_sector, snapshot_save_check, MAX_SNAPSHOT_BYTES, SNAPSHOT_MAGIC,
};
use kernel_core::object::{RelationType, SemanticObject};
use kernel_core::registry::{ObjectRegistry, MAX_OBJECTS};
use kernel_core::suid::SUID;
use kernel_core::tier::SecurityTier;
use std::cell::RefCell;
use std::rc::Rc;

/// An in-memory disk of 512-byte sectors shared between handles.
#[derive(Clone)]
struct RamDisk {
    sectors: Rc<RefCell<Vec<[u8; 512]>>>,
    fail_writes: Rc<RefCell<bool>>,
}

impl RamDisk {
    fn new(n: usize) -> Self {
        RamDisk { sectors: Rc::new(RefCell::new(vec![[0u8; 512]; n])), fail_writes: Rc::new(RefCell::new(false)) }
    }
}

impl BlockDevice for RamDisk {
    fn read_blocks(&self, lba: u64, buf: &mut [u8]) -> Result<(), DriverError> {
        let s = self.sectors.borrow();
        for (k, chunk) in buf.chunks_mut(SECTOR).enumerate() {
            let idx = lba as usize + k;
            if idx >= s.len() {
                return Err(DriverError::OutOfBounds);
            }
            chunk.copy_from_slice(&s[idx][..chunk.len()]);
        }
        Ok(())
    }

    fn write_blocks(&self, lba: u64, buf: &[u8]) -> Result<(), DriverError> {
        if *self.fail_writes.borrow() {
            return Err(DriverError::IoError);
        }
        let mut s = self.sectors.borrow_mut();
        for (k, chunk) in buf.chunks(SECTOR).enumerate() {
            let idx = lba as usize + k;
            if idx >= s.len() {
                return Err(DriverError::OutOfBounds);
            }
            s[idx][..chunk.len()].copy_from_slice(chunk);
        }
        Ok(())
    }

    fn block_size(&self) -> usize {
        512
    }

    fn is_read_only(&self) -> bool {
        false
    }

    fn flush(&self) -> Result<(), DriverError> {
        Ok(())
    }
}

fn obj(high: u64, low: u64, content: &[u8]) -> SemanticObject {
    SemanticObject::with_content(SUID::new(high, low), SecurityTier::Internal, 3, content).unwrap()
}

#[test]
fn registry_insert_get_remove() {
    let mut reg = ObjectRegistry::new();
    assert!(reg.is_empty());
    let a = obj(1, 2, b"alpha");
    let b = obj(3, 4, b"beta");
    assert!(reg.insert(a));
    assert!(reg.insert(b));
    assert!(!reg.insert(obj(1, 2, b"again")));
    assert_eq!(reg.len(), 2);
    let got = reg.get(&SUID::new(1, 2)).unwrap();
    assert_eq!(got.content.as_bytes().unwrap(), b"alpha");
    assert!(reg.contains(&SUID::new(3, 4)));
    let removed = reg.remove(&SUID::new(1, 2)).unwrap();
    assert_eq!(removed.suid, SUID::new(1, 2));
    assert!(reg.get(&SUID::new(1, 2)).is_none());
    assert!(reg.remove(&SUID::new(1, 2)).is_none());
    assert_eq!(reg.len(), 1);
}

#[test]
fn registry_same_bucket_chain() {
    // Identifiers whose high ^ low share the low byte land in one bucket.
    let mut reg = ObjectRegistry::new();
    for k in 0..5u64 {
        assert!(reg.insert(obj(k << 8, 0x17, b"x")));
    }
    for k in 0..5u64 {
        assert!(reg.contains(&SUID::new(k << 8, 0x17)));
    }
    assert!(reg.remove(&SUID::new(2 << 8, 0x17)).is_some());
    assert!(!reg.contains(&SUID::new(2 << 8, 0x17)));
    for k in [0u64, 1, 3, 4] {
        assert!(reg.contains(&SUID::new(k << 8, 0x17)));
    }
    assert_eq!(reg.iter().len(), 4);
}

#[test]
fn registry_full_and_queries() {
    let mut reg = ObjectRegistry::new();
    for k in 0..MAX_OBJECTS as u64 {
        assert!(reg.insert(obj(k, 0, b"")));
    }
    assert!(!reg.has_free_slot());
    assert!(!reg.insert(obj(99999, 1, b"")));
    assert_eq!(reg.len(), MAX_OBJECTS);
    let mut linked = obj(5000, 5000, b"l");
    reg.remove(&SUID::new(7, 0));
    assert!(linked.add_link(SUID::new(1, 0), RelationType::References));
    assert!(reg.insert(linked));
    assert_eq!(reg.find_linked_to(SUID::new(1, 0)).len(), 1);
    assert_eq!(reg.find_by_tier(SecurityTier::Internal).len(), MAX_OBJECTS);
    assert_eq!(reg.find_by_tier(SecurityTier::Secret).len(), 0);
    if let Some(o) = reg.get_mut(&SUID::new(5000, 5000)) {
        o.owner = 9;
    }
    assert_eq!(reg.get(&SUID::new(5000, 5000)).unwrap().owner, 9);
}

#[test]
fn superblock_roundtrip() {
    let sb = Superblock { generation: 7, log_start: 12, log_sectors: 100, high_water: 41, clean_shutdown: true };
    let img = encode_superblock(&sb);
    assert_eq!(img.len(), 512);
    assert_eq!(decode_superblock(&img), Some(sb));
    let mut bad = img.clone();
    bad[9] ^= 1;
    assert_eq!(decode_superblock(&bad), None);
}

#[test]
fn record_image_layout() {
    let o = obj(0x11, 0x22, b"hello");
    let img = encode_record(Some(&o), None, 5, None);
    assert_eq!(img.len() % 512, 0);
    assert_eq!(&img[0..4], &REC_MAGIC);
    assert_eq!(img[6], 1);
    assert_eq!(&img[52..56], &5u32.to_le_bytes());
    assert_eq!(&img[64..69], b"hello");
    let t = encode_record(None, Some(SUID::new(1, 1)), 6, None);
    assert_eq!(t[6], 2);
    assert_eq!(t.len(), 512);
}

#[test]
fn mount_formats_then_replays_writes() {
    let disk = RamDisk::new(64);
    let mut reg = ObjectRegistry::new();
    let (out, j, _) = mount(disk.clone(), 0, 60, &mut reg);
    assert!(matches!(out, MountOutcome::Formatted));
    let mut j: Journal<RamDisk> = j.unwrap();
    assert_eq!(j.head, 2);
    assert_eq!(j.next_seq, 1);
    assert!(j.policy == CommitPolicy::WriteThrough);
    let mut a = obj(10, 20, b"persisted content");
    assert!(a.add_link(SUID::new(3, 3), RelationType::Contains));
    assert!(journaled_insert(&mut reg, &mut j, a));
    assert!(journaled_insert(&mut reg, &mut j, obj(30, 40, b"second")));
    assert!(journaled_remove(&mut reg, &mut j, &SUID::new(30, 40)).is_some());
    assert_eq!(j.next_seq, 4);

    // A fresh registry replays the log.
    let mut reg2 = ObjectRegistry::new();
    let (out2, j2, _) = mount(disk.clone(), 0, 60, &mut reg2);
    match out2 {
        MountOutcome::Mounted { records, torn } => {
            assert_eq!(records, 3);
            assert!(!torn);
        }
        _ => panic!("expected a replay"),
    }
    let j2 = j2.unwrap();
    assert_eq!(j2.next_seq, 4);
    let back = reg2.get(&SUID::new(10, 20)).unwrap();
    assert_eq!(back.content.as_bytes().unwrap(), b"persisted content");
    assert_eq!(back.get_links().len(), 1);
    assert_eq!(back.owner, 3);
    assert!(reg2.get(&SUID::new(30, 40)).is_none());
}

#[test]
fn mount_stops_at_torn_record() {
    let disk = RamDisk::new(64);
    let mut reg = ObjectRegistry::new();
    let (_, j, _) = mount(disk.clone(), 0, 60, &mut reg);
    let mut j = j.unwrap();
    assert!(journaled_insert(&mut reg, &mut j, obj(1, 1, b"one")));
    let second_at = j.head;
    assert!(journaled_insert(&mut reg, &mut j, obj(2, 2, b"two")));
    disk.sectors.borrow_mut()[second_at as usize][70] ^= 0xFF;
    let mut reg2 = ObjectRegistry::new();
    let (out, _, _) = mount(disk.clone(), 0, 60, &mut reg2);
    match out {
        MountOutcome::Mounted { records, torn } => {
            assert_eq!(records, 1);
            assert!(torn);
        }
        _ => panic!("expected a replay"),
    }
    assert!(reg2.contains(&SUID::new(1, 1)));
    assert!(!reg2.contains(&SUID::new(2, 2)));
}

#[test]
fn write_failure_aborts_insert() {
    let disk = RamDisk::new(64);
    let mut reg = ObjectRegistry::new();
    let (_, j, _) = mount(disk.clone(), 0, 60, &mut reg);
    let mut j = j.unwrap();
    *disk.fail_writes.borrow_mut() = true;
    assert!(!journaled_insert(&mut reg, &mut j, obj(9, 9, b"lost")));
    assert!(!reg.contains(&SUID::new(9, 9)));
    assert_eq!(j.next_seq, 1);
}

#[test]
fn mount_unavailable_on_read_error() {
    let disk = RamDisk::new(1);
    let mut reg = ObjectRegistry::new();
    let (out, j, _) = mount(disk, 0, 10, &mut reg);
    assert!(matches!(out, MountOutcome::Unavailable));
    assert!(j.is_none());
}

#[test]
fn snapshot_roundtrip_and_errors() {
    let disk = RamDisk::new(16);
    let payload: Vec<u8> = (0..1300u32).map(|i| (i * 7) as u8).collect();
    save_snapshot(&disk, &payload).unwrap();
    let mut out = vec![0u8; 2000];
    let n = load_snapshot(&disk, &mut out).unwrap();
    assert_eq!(n, 1300);
    assert_eq!(&out[..n], &payload[..]);
    let mut small = vec![0u8; 10];
    assert_eq!(load_snapshot(&disk, &mut small), Err(DriverError::BufferTooSmall));
    disk.sectors.borrow_mut()[2][5] ^= 1;
    assert_eq!(load_snapshot(&disk, &mut out), Err(DriverError::IoError));
    let fresh = RamDisk::new(4);
    assert_eq!(load_snapshot(&fresh, &mut out), Err(DriverError::NotReady));
    let big = vec![0u8; MAX_SNAPSHOT_BYTES + 1];
    assert_eq!(save_snapshot(&disk, &big), Err(DriverError::InvalidParameter));
}

#[test]
fn semantic_search_store_and_remove() {
    let mut reg = ObjectRegistry::new();
    let mut search = SemanticSearch::new();
    assert_eq!(search.store(&mut reg, SUID::new(1, 1), SecurityTier::Public, 0, b"x"), Err(SearchError::NotInitialized));
    assert_eq!(search.stats(&reg, 0), SearchStats::default());
    search.init();
    search.store(&mut reg, SUID::new(1, 1), SecurityTier::Sensitive, 4, b"doc").unwrap();
    assert_eq!(search.store(&mut reg, SUID::new(1, 1), SecurityTier::Public, 0, b""), Err(SearchError::RegistryFull));
    assert_eq!(search.store(&mut reg, SUID::new(2, 2), SecurityTier::Public, 0, &[0u8; 300]), Err(SearchError::ContentTooLarge));
    assert_eq!(search.update_embedding_target(&reg, &SUID::new(1, 1)), Ok(SecurityTier::Sensitive));
    assert_eq!(search.update_embedding_target(&reg, &SUID::new(9, 9)), Err(SearchError::NotFound));
    let st = search.stats(&reg, 3);
    assert_eq!(st.object_count, 1);
    assert_eq!(st.vector_count, 3);
    assert_eq!(st.max_objects, 1024);
    assert_eq!(st.dimensions, 64);
    assert_eq!(search.remove(&mut reg, &SUID::new(1, 1)), Ok(()));
    assert_eq!(search.remove(&mut reg, &SUID::new(1, 1)), Err(SearchError::NotFound));
    assert_eq!(SearchError::IndexFull.to_error_code(), -21);
    assert_eq!(SearchError::NotFound.to_error_code(), -4);
}

#[test]
fn snapshot_save_check_order() {
    assert_eq!(snapshot_save_check(true, 4096, MAX_SNAPSHOT_BYTES + 1), Err(DriverError::ReadOnly));
    assert_eq!(snapshot_save_check(false, 4096, MAX_SNAPSHOT_BYTES + 1), Err(DriverError::InvalidParameter));
    assert_eq!(snapshot_save_check(false, 4096, 10), Err(DriverError::NotSupported));
    assert_eq!(snapshot_save_check(false, 512, MAX_SNAPSHOT_BYTES), Ok(()));
}

#[test]
fn snapshot_sectors_and_header_parse() {
    let payload: Vec<u8> = (0..700u32).map(|i| i as u8).collect();
    let h = snapshot_header_sector(&payload);
    assert_eq!(h.len(), 512);
    assert_eq!(&h[0..8], &SNAPSHOT_MAGIC.to_le_bytes());
    assert_eq!(&h[8..12], &1u32.to_le_bytes());
    assert_eq!(&h[12..16], &700u32.to_le_bytes());
    let sum: u32 = payload.iter().map(|&b| b as u32).sum();
    assert_eq!(&h[16..20], &sum.to_le_bytes());
    assert!(h[20..].iter().all(|&b| b == 0));
    let s1 = snapshot_payload_sector(&payload, 1);
    assert_eq!(s1.len(), 512);
    assert_eq!(&s1[..188], &payload[512..700]);
    assert!(s1[188..].iter().all(|&b| b == 0));
    assert_eq!(parse_snapshot_header(&h, 1000), Ok((700, sum)));
    assert_eq!(parse_snapshot_header(&h, 699), Err(DriverError::BufferTooSmall));
    assert_eq!(parse_snapshot_header(&[0u8; 512], 1000), Err(DriverError::NotReady));
    assert_eq!(check_snapshot_payload(&payload, 700, sum), Ok(700));
    assert_eq!(check_snapshot_payload(&payload, 700, sum + 1), Err(DriverError::IoError));
}

#[test]
fn choose_superblock_prefers_newer_valid_copy() {
    let old = Superblock { generation: 3, log_start: 2, log_sectors: 50, high_water: 9, clean_shutdown: false };
    let new = Superblock { generation: 4, ..old };
    let a = encode_superblock(&old);
    let b = encode_superblock(&new);
    let zero = vec![0u8; 512];
    assert_eq!(choose_superblock(&a, &b), Some(new));
    assert_eq!(choose_superblock(&b, &a), Some(new));
    assert_eq!(choose_superblock(&a, &a), Some(old));
    assert_eq!(choose_superblock(&zero, &a), Some(old));
    assert_eq!(choose_superblock(&a, &zero), Some(old));
    assert_eq!(choose_superblock(&zero, &zero), None);
}

#[test]
fn record_head_and_scan() {
    let o = obj(0x11, 0x22, b"hello");
    let img = encode_record(Some(&o), None, 5, None);
    let sec = &img[0..512];
    match record_head(sec, 10) {
        RecordHead::Record { sectors, link_count, content_len } => {
            assert_eq!(sectors, 1);
            assert_eq!(link_count, 0);
            assert_eq!(content_len, 5);
            match scan_record(sec, &img, link_count, content_len) {
                RecordBody::Upsert { obj, seq } => {
                    assert_eq!(seq, 5);
                    assert_eq!(obj.suid, o.suid);
                }
                _ => panic!("expected an upsert"),
            }
            let mut bad = img.clone();
            bad[66] ^= 1;
            assert!(matches!(scan_record(&bad[0..512], &bad, 0, 5), RecordBody::Torn));
        }
        _ => panic!("expected a record"),
    }
    assert!(matches!(record_head(sec, 0), RecordHead::Torn));
    assert!(matches!(record_head(&[0u8; 512], 10), RecordHead::End));
    let mut junk = [0u8; 512];
    junk[100] = 1;
    assert!(matches!(record_head(&junk, 10), RecordHead::Torn));
    let t = encode_record(None, Some(SUID::new(1, 2)), 6, None);
    match scan_record(&t[0..512], &t, 0, 0) {
        RecordBody::Tombstone { suid, seq } => {
            assert_eq!(suid, SUID::new(1, 2));
            assert_eq!(seq, 6);
        }
        _ => panic!("expected a tombstone"),
    }
}
