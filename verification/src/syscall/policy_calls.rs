//! The policy-store system calls: security policies kept as objects in the
//! registry under policy SUIDs, created and read subject to the caller's
//! identity. The caller moves bytes to and from user memory.
use vstd::prelude::*;
use crate::registry::ObjectRegistry;
use crate::object::{SemanticObject, ObjectContent, INLINE_CAPACITY};
use crate::policy::{PolicyObject, MAX_POLICY_SIZE, POLICY_FLAG_IMMUTABLE, policy_type_code};
use crate::security::{UserId, USER_ADMIN, USER_SYSTEM, USER_NOBODY, POLICY_BASE, SYSTEM_POLICY_BASE,
    SYSTEM_POLICY_MASK, is_policy_suid, is_system_policy};
use crate::suid::SUID;
use crate::tier::SecurityTier;
use crate::syscall::sem_calls::{SYS_ERR, suid_of};

verus! {

/// Refused: bad arguments or policy data.
pub const POLICY_INVALID: u64 = 0xFFFF_FFFF_FFFF_FFFE;
/// Refused: the caller may not do this.
pub const POLICY_DENIED: u64 = 0xFFFF_FFFF_FFFF_FFFD;

/// A policy SUID (`0x7000...` to `0x7FFF...` in the high half).
pub open spec fn policy_suid(s: SUID) -> bool {
    POLICY_BASE <= s.high < 0x8000_0000_0000_0000u64
}

/// A system-policy SUID.
pub open spec fn system_policy_suid(s: SUID) -> bool {
    SYSTEM_POLICY_BASE <= s.high <= SYSTEM_POLICY_MASK
}

/// The policy read back from stored bytes: `deserialize` keeps only the
/// type byte, so it is owned by nobody and has no flags.
pub open spec fn stored_policy_ok(b: Seq<u8>) -> bool {
    b.len() > 0 && b[0] <= 4
}

/// Whether `user` may replace a stored policy (read back: owned by nobody,
/// not immutable): the administrator, or the nobody user.
pub open spec fn may_replace_stored(user: UserId) -> bool {
    user == USER_NOBODY || user == USER_ADMIN
}

/// The user-memory arguments SYS_LLM_SET_POLICY reads: a non-null pointer
/// and 1 to `MAX_POLICY_SIZE` bytes.
pub fn set_policy_args_ok(data_ptr: u64, data_len: u64) -> (r: bool)
    ensures r == (data_ptr != 0 && 0 < data_len as usize <= MAX_POLICY_SIZE),
{
    let n = data_len as usize;
    data_ptr != 0 && n > 0 && n <= MAX_POLICY_SIZE
}

/// The content bytes of `o`, when it has well-formed byte content.
fn content_bytes(o: &SemanticObject) -> (r: Option<&[u8]>)
    ensures
        r is Some <==> (o.content.wf() && o.content.bytes() is Some),
        r matches Some(b) ==> o.content.bytes() == Some(b@),
{
    match &o.content {
        ObjectContent::Inline { len, .. } => {
            if *len > INLINE_CAPACITY {
                return None;
            }
        },
        _ => {},
    }
    o.content.as_bytes()
}

/// SYS_LLM_SET_POLICY by `requester` with the policy bytes. The SUID must
/// be a policy SUID and the bytes must deserialize (else `POLICY_INVALID`);
/// replacing a stored policy needs `can_modify` on it, creating a system
/// policy needs the system user or the administrator (else
/// `POLICY_DENIED`). A policy that is neither active nor has rules is
/// refused (`POLICY_INVALID`); as deserialization keeps only the type
/// byte, every policy is refused there, and the registry never changes.
pub fn sys_llm_set_policy(reg: &mut ObjectRegistry, requester: UserId, suid_high: u64, suid_low: u64, data: &[u8])
    -> (r: u64)
    requires old(reg).wf(),
    ensures
        final(reg).wf(),
        final(reg)@ == old(reg)@,
        ({
            let s = suid_of(suid_high, suid_low);
            let exists_ = old(reg)@.dom().contains(s);
            let stored = old(reg)@[s].content;
            let guarded = exists_ && stored.wf() && stored.bytes() is Some
                && stored_policy_ok(stored.bytes()->0) && !may_replace_stored(requester);
            let new_system = !exists_ && system_policy_suid(s) && requester != USER_ADMIN && requester != USER_SYSTEM;
            r == (if !(0 < data@.len() <= MAX_POLICY_SIZE) || !policy_suid(s) || !stored_policy_ok(data@) {
                POLICY_INVALID
            } else if guarded || new_system {
                POLICY_DENIED
            } else {
                POLICY_INVALID
            })
        }),
{
    let n = data.len();
    if n == 0 || n > MAX_POLICY_SIZE {
        return POLICY_INVALID;
    }
    let suid = SUID::new(suid_high, suid_low);
    if !is_policy_suid(&suid) {
        return POLICY_INVALID;
    }
    let policy = match PolicyObject::deserialize(data) {
        Ok(p) => p,
        Err(_) => { return POLICY_INVALID; },
    };
    match reg.get(&suid) {
        Some(existing) => {
            match content_bytes(existing) {
                Some(c) => {
                    match PolicyObject::deserialize(c) {
                        Ok(ep) => {
                            assert(0u16 & POLICY_FLAG_IMMUTABLE == 0) by (bit_vector);
                            if !ep.can_modify(requester) {
                                return POLICY_DENIED;
                            }
                        },
                        Err(_) => {},
                    }
                },
                None => {},
            }
        },
        None => {
            if is_system_policy(&suid) && requester != USER_ADMIN && requester != USER_SYSTEM {
                return POLICY_DENIED;
            }
        },
    }
    assert(0u16 & crate::policy::POLICY_FLAG_ENABLED == 0) by (bit_vector);
    if !policy.is_active(0) && policy.rule_count == 0 {
        return POLICY_INVALID;
    }
    let obj = match SemanticObject::with_content(suid, SecurityTier::Secret, policy.owner, data) {
        Some(o) => o,
        None => { return SYS_ERR; },
    };
    if reg.insert(obj) { suid_high } else { SYS_ERR }
}

/// SYS_LLM_GET_POLICY by `requester` for a buffer of `out_len` bytes: the
/// stored policy bytes (cut to the buffer) and their count; 0 if no object
/// is stored there; `SYS_ERR` for an empty buffer, a SUID outside the
/// policy range, content that is not bytes or does not deserialize;
/// `POLICY_DENIED` unless the requester may read it (system policies: the
/// system user or the administrator; others: the policy owner, which reads
/// back as nobody, or the administrator).
pub fn sys_llm_get_policy(reg: &ObjectRegistry, requester: UserId, suid_high: u64, suid_low: u64, out_len: u64)
    -> (r: (u64, Vec<u8>))
    requires reg.wf(),
    ensures
        ({
            let s = suid_of(suid_high, suid_low);
            let cap = out_len as usize;
            let c = reg@[s].content;
            let readable = if system_policy_suid(s) { requester == USER_ADMIN || requester == USER_SYSTEM }
                else { requester == USER_NOBODY || requester == USER_ADMIN };
            if cap == 0 || !policy_suid(s) {
                r.0 == SYS_ERR && r.1@.len() == 0
            } else if !reg@.dom().contains(s) {
                r.0 == 0 && r.1@.len() == 0
            } else if !(c.wf() && c.bytes() is Some) || !stored_policy_ok(c.bytes()->0) {
                r.0 == SYS_ERR && r.1@.len() == 0
            } else if !readable {
                r.0 == POLICY_DENIED && r.1@.len() == 0
            } else {
                let b = c.bytes()->0;
                let n = if b.len() < cap { b.len() as int } else { cap as int };
                r.0 == n && r.1@ == b.subrange(0, n)
            }
        }),
{
    let cap = out_len as usize;
    if cap == 0 {
        return (SYS_ERR, Vec::new());
    }
    let suid = SUID::new(suid_high, suid_low);
    if !is_policy_suid(&suid) {
        return (SYS_ERR, Vec::new());
    }
    let obj = match reg.get(&suid) {
        Some(o) => o,
        None => { return (0, Vec::new()); },
    };
    let content = match content_bytes(obj) {
        Some(c) => c,
        None => { return (SYS_ERR, Vec::new()); },
    };
    let policy = match PolicyObject::deserialize(content) {
        Ok(p) => p,
        Err(_) => { return (SYS_ERR, Vec::new()); },
    };
    let can_read = if is_system_policy(&suid) {
        requester == USER_ADMIN || requester == USER_SYSTEM
    } else {
        requester == policy.owner || requester == USER_ADMIN
    };
    if !can_read {
        return (POLICY_DENIED, Vec::new());
    }
    let n = if content.len() < cap { content.len() } else { cap };
    (n as u64, vstd::slice::slice_to_vec(vstd::slice::slice_subrange(content, 0, n)))
}

} // verus!
