//! The working-directory and environment system calls of the running
//! process. The caller checks the argument lengths with the `*_lengths_ok`
//! functions before reading user memory, and copies results out.
use vstd::prelude::*;
use vstd::string::StringSliceAdditionalSpecFns;
use crate::process::{Process, ENV_BLOCK_SIZE, cwd_bytes, env_bytes, env_value, env_remove, env_entry,
    same_but_cwd, same_but_env};
use crate::process::manager::{ProcessManager, slot_of};
use crate::syscall::sem_calls::SYS_ERR;
use crate::text::utf8_valid;

verus! {

/// Longest working directory, in bytes.
pub const CWD_MAX: usize = 128;
/// Largest buffer SYS_GET_CWD accepts.
pub const CWD_BUF_MAX: usize = 256;
/// Longest environment key.
pub const ENV_KEY_MAX: usize = 64;
/// Longest environment value (and largest value buffer).
pub const ENV_VALUE_MAX: usize = 1024;

/// The running process's table slot, if any.
pub open spec fn current_proc(procs: ProcessManager) -> Option<Process> {
    slot_of(procs.table@, procs.current)
}

/// SYS_GET_CWD for a caller buffer of `buf_len` bytes: the working
/// directory and its length; `SYS_ERR` for a buffer of 0 or more than
/// `CWD_BUF_MAX` bytes, without a running process, or when the directory
/// does not fit the buffer.
pub fn sys_get_cwd(procs: &ProcessManager, buf_len: u64) -> (r: (u64, Vec<u8>))
    requires procs.wf(),
    ensures
        ({
            let cap = buf_len as usize;
            let ok = 0 < cap <= CWD_BUF_MAX && current_proc(*procs) is Some
                && current_proc(*procs)->0.cwd_len <= CWD_MAX && current_proc(*procs)->0.cwd_len <= cap;
            &&& (!ok ==> r.0 == SYS_ERR && r.1@.len() == 0)
            &&& (ok ==> r.0 == current_proc(*procs)->0.cwd_len && r.1@ == cwd_bytes(&current_proc(*procs)->0))
        }),
{
    let cap = buf_len as usize;
    if cap == 0 || cap > CWD_BUF_MAX {
        return (SYS_ERR, Vec::new());
    }
    let p = match procs.table.get(procs.current) {
        Some(p) => p,
        None => { return (SYS_ERR, Vec::new()); },
    };
    let n = p.cwd_len;
    if n > CWD_MAX || n > cap {
        return (SYS_ERR, Vec::new());
    }
    let v = vstd::slice::slice_to_vec(vstd::slice::slice_subrange(p.cwd.as_slice(), 0, n));
    (n as u64, v)
}

/// The path length SYS_SET_CWD reads: 1 to `CWD_MAX` bytes.
pub fn set_cwd_length_ok(path_len: u64) -> (r: bool)
    ensures r == (0 < path_len as usize <= CWD_MAX),
{
    let n = path_len as usize;
    n > 0 && n <= CWD_MAX
}

/// SYS_SET_CWD with the path bytes: 0 once the running process's working
/// directory is `path`; `SYS_ERR` (nothing changed) for an empty or too long
/// path, one that is not UTF-8 or not absolute, or without a running process.
pub fn sys_set_cwd(procs: &mut ProcessManager, path: &[u8]) -> (r: u64)
    requires old(procs).wf(),
    ensures
        final(procs).wf(), final(procs).current == old(procs).current,
        ({
            let ok = 0 < path@.len() <= CWD_MAX && utf8_valid(path@) && current_proc(*old(procs)) is Some
                && path@[0] == 47u8;
            &&& (r == 0 <==> ok)
            &&& (!ok ==> r == SYS_ERR && final(procs).table@ == old(procs).table@)
            &&& (ok ==> ({
                let i = old(procs).current.0 as int;
                &&& final(procs).table@ == old(procs).table@.update(i, final(procs).table@[i])
                &&& final(procs).table@[i] matches Some(q) && cwd_bytes(&q) == path@
                    && same_but_cwd(&q, &old(procs).table@[i]->0)
            }))
        }),
{
    let n = path.len();
    if n == 0 || n > CWD_MAX {
        return SYS_ERR;
    }
    let s = match crate::text::str_from_utf8(path) {
        Some(s) => s,
        None => { return SYS_ERR; },
    };
    let cur = procs.current;
    proof {
        old(procs).table.lemma_len();
        crate::syscall::sem_calls::lemma_insert_same_seq(old(procs).table@, cur.0 as int);
    }
    match procs.table.get_mut(cur) {
        Some(p) => if p.set_cwd(s) { 0 } else { SYS_ERR },
        None => SYS_ERR,
    }
}

/// The lengths SYS_GET_ENV works with: a key of 1 to `ENV_KEY_MAX` bytes
/// and a value buffer of 1 to `ENV_VALUE_MAX` bytes.
pub fn get_env_lengths_ok(key_len: u64, val_buf_len: u64) -> (r: bool)
    ensures r == (0 < key_len as usize <= ENV_KEY_MAX && 0 < val_buf_len as usize <= ENV_VALUE_MAX),
{
    let k = key_len as usize;
    let v = val_buf_len as usize;
    k > 0 && k <= ENV_KEY_MAX && v > 0 && v <= ENV_VALUE_MAX
}

/// SYS_GET_ENV with the key bytes and a value buffer of `val_buf_len`
/// bytes: the value and its length; 0 and nothing if the key is not set;
/// `SYS_ERR` for bad lengths, a key that is not UTF-8, no running process,
/// an environment block longer than its buffer, or a value that does not fit.
pub fn sys_get_env(procs: &ProcessManager, key: &[u8], val_buf_len: u64) -> (r: (u64, Vec<u8>))
    requires procs.wf(),
    ensures
        ({
            let cap = val_buf_len as usize;
            let pre = 0 < key@.len() <= ENV_KEY_MAX && 0 < cap <= ENV_VALUE_MAX && utf8_valid(key@)
                && current_proc(*procs) is Some && current_proc(*procs)->0.env_len <= ENV_BLOCK_SIZE;
            let found = env_value(env_bytes(&current_proc(*procs)->0), key@);
            &&& (!pre ==> r.0 == SYS_ERR && r.1@.len() == 0)
            &&& (pre && found is None ==> r.0 == 0 && r.1@.len() == 0)
            &&& (pre && found is Some && found->0.len() > cap ==> r.0 == SYS_ERR && r.1@.len() == 0)
            &&& (pre && found is Some && found->0.len() <= cap ==> r.0 == found->0.len() && r.1@ == found->0)
        }),
{
    let k = key.len();
    let cap = val_buf_len as usize;
    if k == 0 || k > ENV_KEY_MAX || cap == 0 || cap > ENV_VALUE_MAX {
        return (SYS_ERR, Vec::new());
    }
    let ks = match crate::text::str_from_utf8(key) {
        Some(s) => s,
        None => { return (SYS_ERR, Vec::new()); },
    };
    let p = match procs.table.get(procs.current) {
        Some(p) => p,
        None => { return (SYS_ERR, Vec::new()); },
    };
    if p.env_len > ENV_BLOCK_SIZE {
        return (SYS_ERR, Vec::new());
    }
    match p.env_get(ks) {
        Some(value) => {
            if value.len() > cap {
                return (SYS_ERR, Vec::new());
            }
            (value.len() as u64, vstd::slice::slice_to_vec(value))
        },
        None => (0, Vec::new()),
    }
}

/// The lengths SYS_SET_ENV works with: a key of 1 to `ENV_KEY_MAX` bytes
/// and a value of at most `ENV_VALUE_MAX` bytes.
pub fn set_env_lengths_ok(key_len: u64, val_len: u64) -> (r: bool)
    ensures r == (0 < key_len as usize <= ENV_KEY_MAX && val_len as usize <= ENV_VALUE_MAX),
{
    let k = key_len as usize;
    let v = val_len as usize;
    k > 0 && k <= ENV_KEY_MAX && v <= ENV_VALUE_MAX
}

/// SYS_SET_ENV with the key and value bytes: 0 once `key=value` is the
/// last entry of the running process's environment; `SYS_ERR` for bad
/// lengths or UTF-8, no running process, an environment block longer than
/// its buffer, or no room (the old entry for the key is then gone).
pub fn sys_set_env(procs: &mut ProcessManager, key: &[u8], value: &[u8]) -> (r: u64)
    requires old(procs).wf(),
    ensures
        final(procs).wf(), final(procs).current == old(procs).current,
        ({
            let pre = 0 < key@.len() <= ENV_KEY_MAX && value@.len() <= ENV_VALUE_MAX && utf8_valid(key@)
                && utf8_valid(value@) && current_proc(*old(procs)) is Some
                && current_proc(*old(procs))->0.env_len <= ENV_BLOCK_SIZE;
            let i = old(procs).current.0 as int;
            let e = env_bytes(&current_proc(*old(procs))->0);
            let fits = env_remove(e, key@).len() + env_entry(key@, value@).len() <= ENV_BLOCK_SIZE;
            &&& (r == 0 <==> pre && fits)
            &&& (r != 0 ==> r == SYS_ERR)
            &&& (!pre ==> final(procs).table@ == old(procs).table@)
            &&& (pre ==> final(procs).table@ == old(procs).table@.update(i, final(procs).table@[i]))
            &&& (pre ==> (final(procs).table@[i] matches Some(q) && same_but_env(&q, &old(procs).table@[i]->0)
                && env_bytes(&q) == (if fits { env_remove(e, key@) + env_entry(key@, value@) } else { env_remove(e, key@) })))
        }),
{
    let k = key.len();
    if k == 0 || k > ENV_KEY_MAX || value.len() > ENV_VALUE_MAX {
        return SYS_ERR;
    }
    let ks = match crate::text::str_from_utf8(key) {
        Some(s) => s,
        None => { return SYS_ERR; },
    };
    let vs = match crate::text::str_from_utf8(value) {
        Some(s) => s,
        None => { return SYS_ERR; },
    };
    let cur = procs.current;
    proof {
        old(procs).table.lemma_len();
        crate::syscall::sem_calls::lemma_insert_same_seq(old(procs).table@, cur.0 as int);
    }
    match procs.table.get_mut(cur) {
        Some(p) => {
            if p.env_len > ENV_BLOCK_SIZE {
                return SYS_ERR;
            }
            if p.env_set(ks, vs) { 0 } else { SYS_ERR }
        },
        None => SYS_ERR,
    }
}

} // verus!
