use kernel_core::crc32::crc32;
use kernel_core::storage::boot::{run_boot_sequence, BootContext, BootState};
use kernel_core::storage::persistence::{
    decrypt_pool, encrypt_pool, generate_nonce, PoolDeserializer, PoolMetadata, PoolSerializer,
};
use kernel_core::storage::{PoolEntry, PoolTable, StorageError, StorageHeader, STORAGE_MAGIC};
use kernel_core::tier::SecurityTier;

#[test]
fn test_pool_metadata_size() {
    assert_eq!(PoolMetadata::SIZE, 32);
}

#[test]
fn crc32_check_value() {
    assert_eq!(crc32(b"123456789"), 0xCBF4_3926);
    assert_eq!(crc32(b""), 0);
}

#[test]
fn header_roundtrip_and_verify() {
    let salt = [7u8; 32];
    let h = StorageHeader::new(salt, 72, 1000);
    assert!(h.verify());
    let bytes = h.to_bytes();
    assert_eq!(bytes.len(), StorageHeader::SIZE);
    assert_eq!(&bytes[0..4], &STORAGE_MAGIC);
    let back = StorageHeader::from_bytes(&bytes);
    assert!(back.verify());
    assert_eq!(back.get_salt(), salt);
    assert_eq!(back.total_size, 1000);
    let mut corrupt = bytes.clone();
    corrupt[10] ^= 1;
    assert!(!StorageHeader::from_bytes(&corrupt).verify());
}

#[test]
fn pool_entries_and_table() {
    let e = PoolEntry::new(SecurityTier::Sensitive, 100, 200, 150);
    assert_eq!(e.tier, 2);
    assert_eq!(e.flags, PoolEntry::FLAG_ENCRYPTED | PoolEntry::FLAG_SENSITIVE);
    assert!(e.is_encrypted());
    let p = PoolEntry::new(SecurityTier::Public, 0, 0, 0);
    assert_eq!(p.flags, PoolEntry::FLAG_ENCRYPTED);
    let mut t = PoolTable::new();
    t.entries[1] = e;
    let bytes = t.to_bytes();
    assert_eq!(bytes.len(), PoolTable::SIZE);
    let back = PoolTable::from_bytes(&bytes, 0);
    assert_eq!(back.entries[1].data_offset, 100);
    assert_eq!(back.entries[1].data_size, 200);
    assert_eq!(back.entries[0].data_size, 0);
}

#[test]
fn metadata_and_serializer() {
    let allocated = [true, false, true];
    let f0 = [1u8; 16];
    let f1 = [2u8; 16];
    let f2 = [3u8; 16];
    let frames: [&[u8]; 3] = [&f0, &f1, &f2];
    let m = PoolMetadata::from_pool(3, &allocated, 0x1000, SecurityTier::Internal);
    assert_eq!(m.allocation_bitmap, 0b101);
    assert_eq!(m.allocated_count, 2);
    let mut s = PoolSerializer::new();
    let n = s.serialize_pool(3, &allocated, &frames, 0x1000, SecurityTier::Internal).unwrap();
    assert_eq!(n, 32 + 32);
    assert_eq!(s.len(), n);
    let data = s.data().to_vec();
    assert_eq!(&data[32..48], &f0);
    assert_eq!(&data[48..64], &f2);
    let mut d = PoolDeserializer::new(&data);
    let back = d.read_metadata().unwrap();
    assert_eq!(back.base_addr, 0x1000);
    assert_eq!(back.allocation_bitmap, 0b101);
    assert_eq!(back.tier, 1);
    assert_eq!(d.read_frame(16).unwrap(), &f0);
    assert_eq!(d.remaining(), 16);
    assert_eq!(d.read_frame(17), Err(StorageError::BufferTooSmall));
}

#[test]
fn serializer_reports_overflow() {
    let allocated = [true, true];
    let big = vec![0u8; 40000];
    let frames: [&[u8]; 2] = [&big, &big];
    let mut s = PoolSerializer::new();
    assert_eq!(
        s.serialize_pool(2, &allocated, &frames, 0, SecurityTier::Public),
        Err(StorageError::BufferTooSmall)
    );
}

#[test]
fn pool_encryption_roundtrip() {
    let key = [9u8; 32];
    let nonce = generate_nonce(SecurityTier::Secret, 5);
    assert_eq!(nonce[0], 3);
    assert_eq!(nonce[1], 1);
    assert_eq!(nonce[4], 5);
    let plain = b"pool contents".to_vec();
    let mut out = [0u8; 64];
    let n = encrypt_pool(SecurityTier::Secret, &plain, &nonce, Some(&key), &mut out).unwrap();
    assert_eq!(n, 28 + plain.len());
    assert_ne!(&out[28..28 + plain.len()], &plain[..]);
    let mut back = [0u8; 64];
    let m = decrypt_pool(SecurityTier::Secret, &out[..n], Some(&key), &mut back).unwrap();
    assert_eq!(&back[..m], &plain[..]);
    assert_eq!(
        decrypt_pool(SecurityTier::Public, &out[..n], Some(&key), &mut back),
        Err(StorageError::AuthenticationFailed)
    );
    assert_eq!(decrypt_pool(SecurityTier::Secret, &out[..n], None, &mut back), Err(StorageError::KeyNotInitialized));
    assert_eq!(encrypt_pool(SecurityTier::Secret, &plain, &nonce, None, &mut out), Err(StorageError::KeyNotInitialized));
    let mut small = [0u8; 10];
    assert_eq!(
        encrypt_pool(SecurityTier::Secret, &plain, &nonce, Some(&key), &mut small),
        Err(StorageError::BufferTooSmall)
    );
}

#[test]
fn boot_modes() {
    let empty = [0u8; 100];
    let mut ctx = BootContext::new();
    assert_eq!(ctx.check_storage(&empty), BootState::Fresh);
    assert_eq!(ctx.check_storage(&[1u8; 10]), BootState::Fresh);
    let junk = [1u8; 100];
    assert_eq!(ctx.check_storage(&junk), BootState::Corrupted);
    assert!(run_boot_sequence(&junk).is_err());
    let h = StorageHeader::new([4u8; 32], 72, 72);
    let bytes = h.to_bytes();
    let mut ctx = run_boot_sequence(&bytes).unwrap();
    assert_eq!(ctx.state, BootState::Locked);
    assert_eq!(ctx.try_unlock(), Ok([4u8; 32]));
    assert_eq!(ctx.complete_unlock(false, true), Err(StorageError::DecryptionFailed));
    assert_eq!(ctx.state, BootState::Failed);
    assert_eq!(ctx.remaining_attempts(), 2);
    assert_eq!(ctx.try_unlock(), Ok([4u8; 32]));
    assert_eq!(ctx.complete_unlock(true, true), Ok(()));
    assert!(ctx.is_unlocked(true));
    assert_eq!(ctx.try_unlock(), Err(StorageError::InvalidHeader));
    ctx.lock_system();
    assert_eq!(ctx.state, BootState::Locked);
}
