//! System-call argument handling: user pointer ranges, the argv/envp blob
//! format, the records handed back to user space, and the text of a user
//! record.
use vstd::prelude::*;
use crate::bytes::{from_le32, read_le32};
use crate::fmt::{dec_digits, hex_digits_lower, push_decimal, push_hex_lower};
use crate::tier::{SecurityTier, tier_level};
use crate::users::UserAccount;

pub mod numbers;
pub mod sem_calls;
pub mod id_calls;
pub mod task_calls;
pub mod env_calls;
pub mod hash_call;
pub mod policy_calls;

verus! {

/// First address above user space.
pub const USER_ADDR_LIMIT: u64 = 0x0000_8000_0000_0000;
/// Most bytes of an argv or envp blob.
pub const MAX_BLOB_BYTES: usize = 1024;
/// Most items of an argv or envp blob.
pub const MAX_BLOB_ITEMS: usize = 32;

/// File metadata returned by `SYS_STATX`.
#[derive(Clone, Copy, Debug)]
pub struct StatX {
    pub size: u64,
    pub suid_high: u64,
    pub suid_low: u64,
    /// Creation time, Unix seconds (0 if unknown).
    pub created_at: u64,
    /// Last write time, Unix seconds (0 if unknown).
    pub modified_at: u64,
    /// 0 binary, 1 text, 2 vector, 3 directory, 4 reference.
    pub file_type: u32,
    /// 0 public, 1 internal, 2 sensitive, 3 secret.
    pub tier: u32,
    pub _reserved: [u64; 3],
}

/// Where the argv and envp blobs of a spawn request are.
#[derive(Clone, Copy, Debug)]
pub struct SpawnArgs {
    pub argv_blob_ptr: u64,
    pub argv_blob_len: u32,
    pub envp_blob_ptr: u64,
    pub envp_blob_len: u32,
}

/// Whether `[ptr, ptr + len)` is a non-empty range of user space.
pub fn validate_user_ptr(ptr: u64, len: u64) -> (r: bool)
    ensures r == (ptr != 0 && len != 0 && ptr + len <= USER_ADDR_LIMIT),
{
    if ptr == 0 || len == 0 {
        return false;
    }
    if ptr >= USER_ADDR_LIMIT {
        return false;
    }
    match ptr.checked_add(len) {
        Some(end) => end <= USER_ADDR_LIMIT,
        None => false,
    }
}

/// The tier of a tier number (3 and above are secret).
pub fn tier_from_u8(t: u8) -> (r: SecurityTier)
    ensures tier_level(r) == (if t < 3 { t as nat } else { 3 }),
{
    match t {
        0 => SecurityTier::Public,
        1 => SecurityTier::Internal,
        2 => SecurityTier::Sensitive,
        _ => SecurityTier::Secret,
    }
}

// ------------------------------------------------------------------ blobs

/// The items of a blob `[count: u32][len: u32][bytes]...` read from
/// `cursor` on, `n` items to go; none if one runs past the end.
pub open spec fn blob_items_from(b: Seq<u8>, cursor: int, n: nat) -> Option<Seq<Seq<u8>>>
    decreases n,
{
    if n == 0 {
        Some(Seq::empty())
    } else if cursor + 4 > b.len() {
        None
    } else {
        let len = from_le32(b.subrange(cursor, cursor + 4)) as int;
        if cursor + 4 + len > b.len() {
            None
        } else {
            match blob_items_from(b, cursor + 4 + len, (n - 1) as nat) {
                Some(rest) => Some(seq![b.subrange(cursor + 4, cursor + 4 + len)] + rest),
                None => None,
            }
        }
    }
}

/// The items of a blob holding at most `max_items`.
pub open spec fn blob_items(b: Seq<u8>, max_items: nat) -> Option<Seq<Seq<u8>>> {
    if b.len() < 4 {
        None
    } else {
        let count = from_le32(b.subrange(0, 4)) as nat;
        if count > max_items { None } else { blob_items_from(b, 4, count) }
    }
}

/// Split an argv/envp blob into its items (at most `max_items`); none if
/// the blob is malformed.
pub fn parse_argv_blob<'a>(blob: &'a [u8], max_items: usize) -> (r: Option<Vec<&'a [u8]>>)
    ensures
        r is Some <==> blob_items(blob@, max_items as nat) is Some,
        r matches Some(v) ==> v@.len() == blob_items(blob@, max_items as nat)->0.len()
            && forall|k: int| 0 <= k < v@.len() ==> (#[trigger] v@[k])@ == blob_items(blob@, max_items as nat)->0[k],
{
    let n = blob.len();
    if n < 4 {
        return None;
    }
    let count = read_le32(blob, 0) as usize;
    if count > max_items {
        return None;
    }
    let ghost items = blob_items(blob@, max_items as nat);
    let mut out: Vec<&'a [u8]> = Vec::new();
    let mut cursor: usize = 4;
    let mut i: usize = 0;
    while i < count
        invariant
            i <= count, n == blob@.len(), cursor <= n, count <= max_items,
            count as nat == from_le32(blob@.subrange(0, 4)) as nat,
            out@.len() == i,
            blob_items(blob@, max_items as nat) == match blob_items_from(blob@, cursor as int, (count - i) as nat) {
                Some(rest) => Some(Seq::new(i as nat, |k: int| out@[k]@) + rest),
                None => None::<Seq<Seq<u8>>>,
            },
        decreases count - i,
    {
        if n - cursor < 4 {
            return None;
        }
        let len = read_le32(blob, cursor) as usize;
        let start = cursor + 4;
        if len > n - start {
            return None;
        }
        let item = vstd::slice::slice_subrange(blob, start, start + len);
        let ghost before = out@;
        out.push(item);
        cursor = start + len;
        i += 1;
        proof {
            match blob_items_from(blob@, cursor as int, (count - i) as nat) {
                Some(rest) => {
                    assert(Seq::new((i - 1) as nat, |k: int| before[k]@) + (seq![item@] + rest)
                        =~= Seq::new(i as nat, |k: int| out@[k]@) + rest);
                }
                None => {}
            }
        }
    }
    proof {
        assert(blob_items_from(blob@, cursor as int, 0) == Some(Seq::<Seq<u8>>::empty()));
        assert(Seq::new(count as nat, |k: int| out@[k]@) + Seq::<Seq<u8>>::empty()
            =~= Seq::new(count as nat, |k: int| out@[k]@));
    }
    Some(out)
}

// ------------------------------------------------------------------ text

/// Copy as much of `src` as fits into `dst`; the bytes copied.
pub fn copy_clamped(dst: &mut [u8], src: &[u8]) -> (r: usize)
    ensures
        r == (if src@.len() < old(dst)@.len() { src@.len() } else { old(dst)@.len() }),
        final(dst)@.len() == old(dst)@.len(),
        final(dst)@.subrange(0, r as int) == src@.subrange(0, r as int),
        final(dst)@.subrange(r as int, old(dst)@.len() as int) == old(dst)@.subrange(r as int, old(dst)@.len() as int),
{
    let n = if src.len() < dst.len() { src.len() } else { dst.len() };
    let part = vstd::slice::slice_subrange(src, 0, n);
    crate::bytes::copy_into(dst, 0, part);
    assert(dst@.subrange(0, n as int) =~= src@.subrange(0, n as int));
    assert(dst@.subrange(n as int, old(dst)@.len() as int) =~= old(dst)@.subrange(n as int, old(dst)@.len() as int));
    n
}

/// Copy as much of the string `s` as fits into `dst`; the bytes copied.
pub fn write_str(dst: &mut [u8], s: &[u8]) -> (r: usize)
    ensures
        r == (if s@.len() < old(dst)@.len() { s@.len() } else { old(dst)@.len() }),
        final(dst)@.len() == old(dst)@.len(),
        final(dst)@.subrange(0, r as int) == s@.subrange(0, r as int),
        final(dst)@.subrange(r as int, old(dst)@.len() as int) == old(dst)@.subrange(r as int, old(dst)@.len() as int),
{
    copy_clamped(dst, s)
}

/// Write as many decimal digits of `n` as fit into `dst`, most
/// significant first; the digits written.
pub fn write_dec(dst: &mut [u8], n: u64) -> (r: usize)
    ensures
        r == (if dec_digits(n as nat).len() < old(dst)@.len() { dec_digits(n as nat).len() } else { old(dst)@.len() }),
        final(dst)@.len() == old(dst)@.len(),
        final(dst)@.subrange(0, r as int) == dec_digits(n as nat).subrange(0, r as int),
        final(dst)@.subrange(r as int, old(dst)@.len() as int) == old(dst)@.subrange(r as int, old(dst)@.len() as int),
{
    let mut digits: Vec<u8> = Vec::new();
    push_decimal(&mut digits, n);
    assert(digits@ =~= dec_digits(n as nat));
    copy_clamped(dst, digits.as_slice())
}

/// Write as many lower-case hex digits of `n` as fit into `dst`, most
/// significant first; the digits written.
pub fn write_hex(dst: &mut [u8], n: u64) -> (r: usize)
    ensures
        r == (if hex_digits_lower(n as nat).len() < old(dst)@.len() { hex_digits_lower(n as nat).len() }
            else { old(dst)@.len() }),
        final(dst)@.len() == old(dst)@.len(),
        final(dst)@.subrange(0, r as int) == hex_digits_lower(n as nat).subrange(0, r as int),
        final(dst)@.subrange(r as int, old(dst)@.len() as int) == old(dst)@.subrange(r as int, old(dst)@.len() as int),
{
    let mut digits: Vec<u8> = Vec::new();
    push_hex_lower(&mut digits, n);
    assert(digits@ =~= hex_digits_lower(n as nat));
    copy_clamped(dst, digits.as_slice())
}

/// `uid=<id> name=<name> tier=<tier> group=<group> flags=0x<flags>`.
pub open spec fn user_record_text(acc: UserAccount) -> Seq<u8> {
    seq![0x75u8, 0x69u8, 0x64u8, 0x3Du8] + dec_digits(acc.id as nat)
        + seq![0x20u8, 0x6Eu8, 0x61u8, 0x6Du8, 0x65u8, 0x3Du8] + acc.name_view()
        + seq![0x20u8, 0x74u8, 0x69u8, 0x65u8, 0x72u8, 0x3Du8] + dec_digits(tier_level(acc.default_max_tier))
        + seq![0x20u8, 0x67u8, 0x72u8, 0x6Fu8, 0x75u8, 0x70u8, 0x3Du8] + dec_digits(acc.group as nat)
        + seq![0x20u8, 0x66u8, 0x6Cu8, 0x61u8, 0x67u8, 0x73u8, 0x3Du8, 0x30u8, 0x78u8] + hex_digits_lower(acc.flags.0 as nat)
}

/// Render a user account for `SYS_LOOKUP_USER`, cut to the size of `out`;
/// the bytes written.
pub fn format_user_record(acc: &UserAccount, out: &mut [u8]) -> (r: usize)
    ensures
        r == (if user_record_text(*acc).len() < old(out)@.len() { user_record_text(*acc).len() } else { old(out)@.len() }),
        final(out)@.len() == old(out)@.len(),
        final(out)@.subrange(0, r as int) == user_record_text(*acc).subrange(0, r as int),
{
    let mut t: Vec<u8> = Vec::new();
    t.push(0x75); t.push(0x69); t.push(0x64); t.push(0x3D);
    push_decimal(&mut t, acc.id as u64);
    t.push(0x20); t.push(0x6E); t.push(0x61); t.push(0x6D); t.push(0x65); t.push(0x3D);
    crate::bytes::push_bytes(&mut t, acc.name());
    t.push(0x20); t.push(0x74); t.push(0x69); t.push(0x65); t.push(0x72); t.push(0x3D);
    push_decimal(&mut t, acc.default_max_tier.as_u8() as u64);
    t.push(0x20); t.push(0x67); t.push(0x72); t.push(0x6F); t.push(0x75); t.push(0x70); t.push(0x3D);
    push_decimal(&mut t, acc.group as u64);
    t.push(0x20); t.push(0x66); t.push(0x6C); t.push(0x61); t.push(0x67); t.push(0x73); t.push(0x3D); t.push(0x30);
    t.push(0x78);
    push_hex_lower(&mut t, acc.flags.0 as u64);
    assert(t@ =~= user_record_text(*acc));
    copy_clamped(out, t.as_slice())
}

} // verus!
