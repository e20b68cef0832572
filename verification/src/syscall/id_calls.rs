//! The user-identity system calls, over the scheduler (the running task's
//! user and tier) and the user registry. The caller moves bytes to and from
//! user memory.
use vstd::prelude::*;
use crate::scheduler::{Scheduler, TaskInfo};
use crate::tier::{SecurityTier, tier_level};
use crate::users::{UserRegistry, MAX_USERNAME_LEN, can_setuid_to, is_privileged, setuid_allowed,
    create_allowed, created, id_in_use, first_holder};
use crate::security::{USER_SYSTEM, USER_ADMIN};
use crate::syscall::{tier_from_u8, format_user_record, user_record_text};
use crate::syscall::sem_calls::SYS_ERR;
use crate::text::utf8_valid;

verus! {

/// The tier of a level (3 and above: secret).
pub open spec fn level_tier(n: nat) -> SecurityTier {
    if n == 0 { SecurityTier::Public } else if n == 1 { SecurityTier::Internal }
    else if n == 2 { SecurityTier::Sensitive } else { SecurityTier::Secret }
}

/// Size of the buffer a user record is rendered into.
pub const USER_RECORD_SCRATCH: usize = 96;

/// SYS_GETUID: the running task's user.
pub fn sys_getuid(sched: &Scheduler) -> (r: u64)
    requires sched.wf(),
    ensures r == sched.tasks@[sched.current as int].user_id,
{
    sched.current_user_id() as u64
}

/// SYS_SETUID: switch the running task to user `uid` when
/// `can_setuid_to` allows it (0); `SYS_ERR` for an id above 255 or a
/// refused switch, with nothing changed.
pub fn sys_setuid(sched: &mut Scheduler, users: &UserRegistry, uid: u64) -> (r: u64)
    requires old(sched).wf(),
    ensures
        final(sched).wf(),
        ({
            let cur = old(sched).tasks@[old(sched).current as int];
            let ok = uid <= 255 && setuid_allowed(users@, cur.user_id, uid as u8);
            &&& (r == 0 <==> ok)
            &&& (!ok ==> r == SYS_ERR && *final(sched) == *old(sched))
            &&& (ok ==> final(sched).current == old(sched).current
                && final(sched).tasks@ == old(sched).tasks@.update(old(sched).current as int,
                    TaskInfo { user_id: uid as u8, ..cur }))
        }),
{
    if uid > 255 {
        return SYS_ERR;
    }
    let target = uid as u8;
    let requester = sched.current_user_id();
    if !can_setuid_to(requester, target, users) {
        return SYS_ERR;
    }
    sched.set_current_user_id(target);
    0
}

/// SYS_CREATE_USER with the name bytes read from the caller: only the
/// system user or the administrator may create users; the name must be 1
/// to `MAX_USERNAME_LEN` bytes of UTF-8; the new user's tier is the
/// requested one clamped to the caller's task tier; the group is the low
/// byte of `group`. The new user's id, or `SYS_ERR`.
pub fn sys_create_user(sched: &Scheduler, users: &mut UserRegistry, name: &[u8], tier: u64, group: u64) -> (r: u64)
    requires sched.wf(),
    ensures
        ({
            let cur = sched.tasks@[sched.current as int];
            let t = tier as u8;
            let c1 = if t < cur.max_tier { t } else { cur.max_tier };
            let level: nat = if c1 < 3 { c1 as nat } else { 3 };
            let ok = is_privileged_spec(cur.user_id) && 0 < name@.len() <= MAX_USERNAME_LEN && utf8_valid(name@)
                && create_allowed(old(users)@, name@);
            &&& (r != SYS_ERR <==> ok)
            &&& (!ok ==> final(users)@ == old(users)@)
            &&& (ok ==> r <= 255 && created(old(users)@, final(users)@, r as int, name@, (group & 0xFFu64) as u8,
                level_tier(level)))
        }),
{
    let requester = sched.current_user_id();
    if !is_privileged(requester) {
        return SYS_ERR;
    }
    let len = name.len();
    if len == 0 || len > MAX_USERNAME_LEN {
        return SYS_ERR;
    }
    let name_str = match crate::text::str_from_utf8(name) {
        Some(s) => s,
        None => { return SYS_ERR; },
    };
    let requester_tier = sched.current_task_max_tier();
    let t: u8 = tier as u8;
    let c1 = if t < requester_tier { t } else { requester_tier };
    let c2 = if c1 < 3 { c1 } else { 3 };
    let new_tier = tier_from_u8(c2);
    assert(new_tier == level_tier(if c1 < 3 { c1 as nat } else { 3 }));
    let group_id = (group & 0xFF) as u8;
    match users.create_user(name_str, group_id, new_tier) {
        Ok(uid) => uid as u64,
        Err(_) => SYS_ERR,
    }
}

/// The system user or the administrator.
pub open spec fn is_privileged_spec(id: u8) -> bool {
    id == USER_SYSTEM || id == USER_ADMIN
}

/// SYS_LOOKUP_USER for a caller buffer of `cap` bytes: the account's
/// record `uid=.. name=.. tier=.. group=.. flags=0x..` (cut to
/// `USER_RECORD_SCRATCH` bytes) and its length; 0 and nothing for an
/// unknown user; `SYS_ERR` for an id above 255 or a record longer than `cap`.
pub fn sys_lookup_user(users: &UserRegistry, uid: u64, cap: usize) -> (r: (u64, Vec<u8>))
    ensures
        uid > 255 ==> r.0 == SYS_ERR && r.1@.len() == 0,
        uid <= 255 && !id_in_use(users@, uid as int) ==> r.0 == 0 && r.1@.len() == 0,
        uid <= 255 && id_in_use(users@, uid as int) ==> exists|k: int| #[trigger] first_holder(users@, uid as int, k) && ({
            let text = user_record_text(users@[k]);
            let n = if text.len() < USER_RECORD_SCRATCH { text.len() as int } else { USER_RECORD_SCRATCH as int };
            if n > cap { r.0 == SYS_ERR && r.1@.len() == 0 } else { r.0 == n && r.1@ == text.subrange(0, n) }
        }),
{
    if uid > 255 {
        return (SYS_ERR, Vec::new());
    }
    let acc = match users.lookup(uid as u8) {
        Some(a) => a,
        None => { return (0, Vec::new()); },
    };
    let mut scratch = [0u8; 96];
    let written = format_user_record(acc, &mut scratch);
    if written > cap {
        return (SYS_ERR, Vec::new());
    }
    let out = vstd::slice::slice_to_vec(vstd::slice::slice_subrange(scratch.as_slice(), 0, written));
    (written as u64, out)
}

} // verus!
