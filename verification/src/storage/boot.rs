//! Boot-time unlock: decide from the storage image whether this is a fresh
//! system, a locked one or a corrupted one, and track unlock attempts. The
//! key derivation itself is done by the caller, which reports its outcome.
use vstd::prelude::*;
use crate::storage::{StorageHeader, StorageError, STORAGE_MAGIC, STORAGE_VERSION};
use crate::crc32::crc32_spec;

verus! {

/// Where the unlock flow stands.
#[derive(Debug, Clone, Copy, PartialEq, Eq, Structural)]
pub enum BootState {
    Unknown,
    Fresh,
    Locked,
    Unlocked,
    Failed,
    Corrupted,
}

/// Steps of the boot sequence.
#[derive(Debug, Clone, Copy, PartialEq, Eq, Structural)]
pub enum BootSequence {
    HardwareInit,
    MemoryInit,
    StorageCheck,
    PassphrasePrompt,
    Unlock,
    LoadPools,
    StartScheduler,
    Complete,
    Error,
}

/// Whether the header held at the start of `storage` is valid.
pub open spec fn header_valid(storage: Seq<u8>) -> bool {
    exists|h: StorageHeader| #[trigger] h.layout() == storage.subrange(0, StorageHeader::SIZE as int)
        && h.magic@ == STORAGE_MAGIC@ && h.version == STORAGE_VERSION
        && h.checksum == crc32_spec(h.checksum_input())
}

/// The state `check_storage` decides on: fresh when there is no header or
/// the first 64 bytes are zero and the header is invalid, corrupted when the
/// header is invalid otherwise, locked when it is valid.
pub open spec fn storage_state(storage: Seq<u8>) -> BootState {
    if storage.len() < StorageHeader::SIZE {
        BootState::Fresh
    } else if !header_valid(storage) {
        if forall|i: int| 0 <= i < 64 ==> storage[i] == 0 { BootState::Fresh } else { BootState::Corrupted }
    } else {
        BootState::Locked
    }
}

/// State of the unlock flow.
pub struct BootContext {
    pub state: BootState,
    /// The storage salt, once a valid header was found.
    pub salt: Option<[u8; 32]>,
    pub attempts: u8,
    pub max_attempts: u8,
}

impl BootContext {
    /// Nothing checked yet; three attempts allowed.
    pub fn new() -> (r: Self)
        ensures r.state == BootState::Unknown, r.salt is None, r.attempts == 0, r.max_attempts == 3,
    {
        BootContext { state: BootState::Unknown, salt: None, attempts: 0, max_attempts: 3 }
    }

    /// Decide the boot mode from the storage image; a valid header's salt is kept.
    pub fn check_storage(&mut self, storage: &[u8]) -> (r: BootState)
        ensures
            r == storage_state(storage@),
            final(self).state == r,
            final(self).attempts == old(self).attempts, final(self).max_attempts == old(self).max_attempts,
            r == BootState::Locked ==> exists|h: StorageHeader| h.layout() == storage@.subrange(0, StorageHeader::SIZE as int)
                && final(self).salt == Some(h.salt),
            r != BootState::Locked ==> final(self).salt == old(self).salt,
    {
        if storage.len() < StorageHeader::SIZE {
            self.state = BootState::Fresh;
            return self.state;
        }
        let header = StorageHeader::from_bytes(storage);
        proof {
            assert forall|h: StorageHeader| #[trigger] h.layout() == storage@.subrange(0, StorageHeader::SIZE as int)
                implies h == header by {
                crate::storage::law_header_roundtrip(header, h);
            }
        }
        if !header.verify() {
            let mut is_empty = true;
            let mut i: usize = 0;
            while i < 64
                invariant
                    i <= 64, storage@.len() >= 72,
                    is_empty == (forall|j: int| 0 <= j < i ==> storage@[j] == 0),
                decreases 64 - i,
            {
                if storage[i] != 0 {
                    is_empty = false;
                }
                i += 1;
            }
            if is_empty {
                self.state = BootState::Fresh;
            } else {
                self.state = BootState::Corrupted;
            }
            return self.state;
        }
        self.salt = Some(header.get_salt());
        self.state = BootState::Locked;
        self.state
    }

    /// Start an unlock attempt: only from the locked or failed state, and
    /// only with a salt. Counts the attempt and returns the salt for the key
    /// derivation, whose outcome goes to `complete_unlock`.
    pub fn try_unlock(&mut self) -> (r: Result<[u8; 32], StorageError>)
        requires
            (old(self).state == BootState::Locked || old(self).state == BootState::Failed)
                ==> old(self).attempts < 255,
        ensures
            final(self).state == old(self).state, final(self).salt == old(self).salt,
            final(self).max_attempts == old(self).max_attempts,
            !(old(self).state == BootState::Locked || old(self).state == BootState::Failed) ==>
                r == Err::<[u8; 32], StorageError>(StorageError::InvalidHeader) && final(self).attempts == old(self).attempts,
            (old(self).state == BootState::Locked || old(self).state == BootState::Failed) ==>
                final(self).attempts == old(self).attempts + 1
                && r == (match old(self).salt {
                    Some(s) => Ok::<[u8; 32], StorageError>(s),
                    None => Err(StorageError::InvalidHeader),
                }),
    {
        if self.state != BootState::Locked && self.state != BootState::Failed {
            return Err(StorageError::InvalidHeader);
        }
        self.attempts = self.attempts + 1;
        match self.salt {
            Some(s) => Ok(s),
            None => Err(StorageError::InvalidHeader),
        }
    }

    /// Record the outcome of the key derivation of an unlock attempt: the
    /// master key (`master_ok`) and then the pool keys (`keys_ok`).
    pub fn complete_unlock(&mut self, master_ok: bool, keys_ok: bool) -> (r: Result<(), StorageError>)
        ensures
            final(self).salt == old(self).salt, final(self).attempts == old(self).attempts,
            final(self).max_attempts == old(self).max_attempts,
            !master_ok ==> r == Err::<(), StorageError>(StorageError::DecryptionFailed)
                && final(self).state == BootState::Failed,
            master_ok && !keys_ok ==> r == Err::<(), StorageError>(StorageError::KeyNotInitialized)
                && final(self).state == BootState::Failed,
            master_ok && keys_ok ==> r == Ok::<(), StorageError>(()) && final(self).state == BootState::Unlocked,
    {
        if !master_ok {
            self.state = BootState::Failed;
            return Err(StorageError::DecryptionFailed);
        }
        if !keys_ok {
            self.state = BootState::Failed;
            return Err(StorageError::KeyNotInitialized);
        }
        self.state = BootState::Unlocked;
        Ok(())
    }

    /// Start setting up fresh storage with a newly generated `salt`: only
    /// from the fresh state. The key derivation's outcome goes to
    /// `complete_fresh`.
    pub fn init_fresh(&mut self, salt: [u8; 32]) -> (r: Result<[u8; 32], StorageError>)
        ensures
            final(self).attempts == old(self).attempts, final(self).max_attempts == old(self).max_attempts,
            final(self).state == old(self).state,
            old(self).state != BootState::Fresh ==> r == Err::<[u8; 32], StorageError>(StorageError::InvalidHeader)
                && final(self).salt == old(self).salt,
            old(self).state == BootState::Fresh ==> r == Ok::<[u8; 32], StorageError>(salt)
                && final(self).salt == Some(salt),
    {
        if self.state != BootState::Fresh {
            return Err(StorageError::InvalidHeader);
        }
        self.salt = Some(salt);
        Ok(salt)
    }

    /// Record the outcome of the key derivation for fresh storage.
    pub fn complete_fresh(&mut self, master_ok: bool, keys_ok: bool) -> (r: Result<(), StorageError>)
        ensures
            final(self).salt == old(self).salt, final(self).attempts == old(self).attempts,
            final(self).max_attempts == old(self).max_attempts,
            !(master_ok && keys_ok) ==> r == Err::<(), StorageError>(StorageError::KeyNotInitialized)
                && final(self).state == old(self).state,
            master_ok && keys_ok ==> r == Ok::<(), StorageError>(()) && final(self).state == BootState::Unlocked,
    {
        if !master_ok || !keys_ok {
            return Err(StorageError::KeyNotInitialized);
        }
        self.state = BootState::Unlocked;
        Ok(())
    }

    /// Lock the system again (the caller clears the keys).
    pub fn lock_system(&mut self)
        ensures
            final(self).state == BootState::Locked, final(self).salt == old(self).salt,
            final(self).attempts == old(self).attempts, final(self).max_attempts == old(self).max_attempts,
    {
        self.state = BootState::Locked;
    }

    /// Unlocked here and the master key is held (`master_unlocked`).
    pub fn is_unlocked(&self, master_unlocked: bool) -> (r: bool)
        ensures r == (self.state == BootState::Unlocked && master_unlocked),
    {
        self.state == BootState::Unlocked && master_unlocked
    }

    /// Attempts left, never below zero.
    pub fn remaining_attempts(&self) -> (r: u8)
        ensures r == (if self.attempts <= self.max_attempts { (self.max_attempts - self.attempts) as u8 } else { 0u8 }),
    {
        self.max_attempts.saturating_sub(self.attempts)
    }
}

/// Check the storage and start the boot: a corrupted image is refused with
/// `ChecksumFailed`, otherwise the boot context is returned.
pub fn run_boot_sequence(storage: &[u8]) -> (r: Result<BootContext, StorageError>)
    ensures
        storage_state(storage@) == BootState::Corrupted
            <==> r == Err::<BootContext, StorageError>(StorageError::ChecksumFailed),
        r matches Ok(ctx) ==> ctx.state == storage_state(storage@) && ctx.attempts == 0 && ctx.max_attempts == 3,
        r is Ok || r == Err::<BootContext, StorageError>(StorageError::ChecksumFailed),
{
    let mut ctx = BootContext::new();
    let state = ctx.check_storage(storage);
    if state == BootState::Corrupted {
        return Err(StorageError::ChecksumFailed);
    }
    Ok(ctx)
}

/// Once the attempts reach the maximum, no attempts remain.
pub proof fn law_attempts_exhausted(attempts: u8, max_attempts: u8)
    requires attempts >= max_attempts,
    ensures (if attempts <= max_attempts { (max_attempts - attempts) as u8 } else { 0u8 }) == 0,
{
}

} // verus!
