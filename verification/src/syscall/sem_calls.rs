//! The semantic-object system calls, over the object registry and the
//! calling task's tier and user. The caller moves bytes to and from user
//! memory; these functions decide and update the registry.
use vstd::prelude::*;
use crate::registry::ObjectRegistry;
use crate::object::{SemanticObject, ObjectContent, RelationType, ObjectLink, INLINE_CAPACITY, MAX_LINKS,
    MAX_FILE_CONTENT, OBJECT_FLAG_IMMUTABLE};
use crate::suid::SUID;
use crate::tier::tier_level;
use crate::syscall::tier_from_u8;

verus! {

/// The error value of a system call.
pub const SYS_ERR: u64 = 0xFFFF_FFFF_FFFF_FFFF;
/// Most content bytes a semantic call accepts.
pub const MAX_SEM_DATA: usize = 1024;
/// Most objects `sem_query` lists.
pub const MAX_QUERY_RESULTS: usize = 64;

/// The SUID with these halves.
pub open spec fn suid_of(high: u64, low: u64) -> SUID {
    SUID { high, low }
}

/// The smaller of two bytes.
pub open spec fn min_u8(a: u8, b: u8) -> u8 {
    if a < b { a } else { b }
}

/// Tier level of a created object: the requested tier (its low byte)
/// clamped to the caller's, 3 and above meaning secret.
pub open spec fn created_level(tier: u64, max_tier: u8) -> nat {
    let t = min_u8(tier as u8, max_tier);
    if t < 3 { t as nat } else { 3 }
}

/// The caller of tier `max_tier` may see `o`.
pub open spec fn visible(o: SemanticObject, max_tier: u8) -> bool {
    tier_level(o.tier) <= max_tier
}

/// The content pointer and length packed in SYS_SEM_CREATE's fourth
/// argument (pointer in the low 32 bits, length above), when the content
/// is to be read: a non-null pointer and 1 to `MAX_SEM_DATA` bytes.
pub fn sem_create_content(content_info: u64) -> (r: Option<(u64, usize)>)
    ensures
        r == (if (content_info & 0xFFFF_FFFFu64) != 0 && 0 < ((content_info >> 32u64) as usize)
            && ((content_info >> 32u64) as usize) <= MAX_SEM_DATA {
            Some((content_info & 0xFFFF_FFFFu64, (content_info >> 32u64) as usize))
        } else {
            None
        }),
{
    let ptr = content_info & 0xFFFF_FFFF;
    let len = (content_info >> 32) as usize;
    if ptr != 0 && len > 0 && len <= MAX_SEM_DATA { Some((ptr, len)) } else { None }
}

/// SYS_SEM_CREATE: a new object `suid_high:suid_low` owned by `owner`, of
/// the requested tier clamped to `max_tier`, holding `content` (read by the
/// caller when `sem_create_content` asked for it) or nothing. 0 on success;
/// `SYS_ERR` if the content does not fit inline, the SUID is taken or the
/// registry is full.
pub fn sem_create(reg: &mut ObjectRegistry, max_tier: u8, owner: u8, suid_high: u64, suid_low: u64, tier: u64,
    content: Option<&[u8]>) -> (r: u64)
    requires old(reg).wf(),
    ensures
        final(reg).wf(),
        r == 0 || r == SYS_ERR,
        r == 0 <==> (!old(reg)@.dom().contains(suid_of(suid_high, suid_low)) && !old(reg).is_full()
            && (content matches Some(d) ==> d@.len() <= INLINE_CAPACITY)),
        r == 0 ==> final(reg)@ == old(reg)@.insert(suid_of(suid_high, suid_low), final(reg)@[suid_of(suid_high, suid_low)]),
        r == 0 ==> ({
            let o = final(reg)@[suid_of(suid_high, suid_low)];
            &&& o.wf() && o.suid == suid_of(suid_high, suid_low) && o.owner == owner
            &&& tier_level(o.tier) == created_level(tier, max_tier)
            &&& o.link_count == 0 && o.flags.bits == 0
            &&& o.content.bytes() == (match content { Some(d) => Some(d@), None => None::<Seq<u8>> })
        }),
        r != 0 ==> final(reg)@ == old(reg)@,
{
    let t: u8 = tier as u8;
    let obj_tier = if t < max_tier { t } else { max_tier };
    let suid = SUID::new(suid_high, suid_low);
    let security_tier = tier_from_u8(obj_tier);
    let obj = match content {
        Some(data) => match SemanticObject::with_content(suid, security_tier, owner, data) {
            Some(o) => o,
            None => { return SYS_ERR; },
        },
        None => SemanticObject::new(suid, security_tier, owner),
    };
    if reg.insert(obj) { 0 } else { SYS_ERR }
}

/// SYS_SEM_READ: the bytes of object `suid_high:suid_low` for the caller
/// to copy out (its length is the call's value); no bytes for content that
/// is empty or an embedding. `None` (`SYS_ERR`) if the object is missing,
/// above `max_tier`, or claims more inline bytes than it holds.
pub fn sem_read<'a>(reg: &'a ObjectRegistry, max_tier: u8, suid_high: u64, suid_low: u64) -> (r: Option<&'a [u8]>)
    requires reg.wf(),
    ensures
        ({
            let s = suid_of(suid_high, suid_low);
            &&& r is Some <==> (reg@.dom().contains(s) && visible(reg@[s], max_tier) && reg@[s].content.wf())
            &&& r matches Some(b) ==> b@ == (match reg@[s].content.bytes() { Some(x) => x, None => Seq::<u8>::empty() })
        }),
{
    let suid = SUID::new(suid_high, suid_low);
    let obj = match reg.get(&suid) {
        Some(o) => o,
        None => { return None; },
    };
    if obj.tier.as_u8() > max_tier {
        return None;
    }
    match &obj.content {
        ObjectContent::Inline { len, .. } => {
            if *len > INLINE_CAPACITY {
                return None;
            }
        },
        _ => {},
    }
    match obj.content.as_bytes() {
        Some(data) => Some(data),
        None => {
            let empty: &[u8] = &[];
            assert(empty@ =~= Seq::<u8>::empty());
            Some(empty)
        },
    }
}

/// SYS_SEM_WRITE: replace the content of object `suid_high:suid_low` with
/// `data` (inline up to 256 bytes, on the heap beyond). 0 on success;
/// `SYS_ERR` for more than `MAX_SEM_DATA` bytes, a missing object, one
/// above `max_tier`, or an immutable one.
pub fn sem_write(reg: &mut ObjectRegistry, max_tier: u8, suid_high: u64, suid_low: u64, data: &[u8]) -> (r: u64)
    requires old(reg).wf(),
    ensures
        final(reg).wf(),
        ({
            let s = suid_of(suid_high, suid_low);
            let ok = data@.len() <= MAX_SEM_DATA && old(reg)@.dom().contains(s) && visible(old(reg)@[s], max_tier)
                && old(reg)@[s].flags.bits & OBJECT_FLAG_IMMUTABLE == 0;
            &&& (r == 0 <==> ok)
            &&& (r != 0 ==> r == SYS_ERR && final(reg)@ == old(reg)@)
            &&& (r == 0 ==> final(reg)@ == old(reg)@.insert(s, final(reg)@[s])
                && final(reg)@[s] == (SemanticObject { content: final(reg)@[s].content, ..old(reg)@[s] })
                && final(reg)@[s].content.wf() && final(reg)@[s].content.bytes() == Some(data@))
        }),
{
    if data.len() > MAX_SEM_DATA {
        return SYS_ERR;
    }
    let suid = SUID::new(suid_high, suid_low);
    proof { lemma_insert_same(old(reg)@, suid); }
    match reg.get_mut(&suid) {
        Some(obj) => {
            if obj.tier.as_u8() > max_tier {
                return SYS_ERR;
            }
            if obj.flags.is_immutable() {
                return SYS_ERR;
            }
            match ObjectContent::from_bytes(data) {
                Some(c) => {
                    obj.content = c;
                    0
                },
                None => SYS_ERR,
            }
        },
        None => SYS_ERR,
    }
}

/// Putting back the value a key already has leaves a map unchanged.
pub proof fn lemma_insert_same<K, V>(m: Map<K, V>, k: K)
    ensures m.dom().contains(k) ==> m.insert(k, m[k]) == m,
{
    if m.dom().contains(k) {
        assert(m.insert(k, m[k]) =~= m);
    }
}

/// SYS_SEM_DELETE: remove object `suid_high:suid_low`. 0 on success;
/// `SYS_ERR` if it is missing or above `max_tier`.
pub fn sem_delete(reg: &mut ObjectRegistry, max_tier: u8, suid_high: u64, suid_low: u64) -> (r: u64)
    requires old(reg).wf(),
    ensures
        final(reg).wf(),
        ({
            let s = suid_of(suid_high, suid_low);
            let ok = old(reg)@.dom().contains(s) && visible(old(reg)@[s], max_tier);
            &&& (r == 0 <==> ok)
            &&& (ok ==> final(reg)@ == old(reg)@.remove(s))
            &&& (!ok ==> r == SYS_ERR && final(reg)@ == old(reg)@)
        }),
{
    let suid = SUID::new(suid_high, suid_low);
    match reg.get(&suid) {
        Some(obj) => {
            if obj.tier.as_u8() > max_tier {
                return SYS_ERR;
            }
        },
        None => { return SYS_ERR; },
    }
    match reg.remove(&suid) {
        Some(_) => 0,
        None => SYS_ERR,
    }
}

/// SYS_SEM_LINK: add a `References` link from `src` to `dst`. 0 on
/// success; `SYS_ERR` if the source is missing, above `max_tier`, or has
/// all its link slots in use.
pub fn sem_link(reg: &mut ObjectRegistry, max_tier: u8, src_high: u64, src_low: u64, dst_high: u64, dst_low: u64)
    -> (r: u64)
    requires old(reg).wf(),
    ensures
        final(reg).wf(),
        ({
            let s = suid_of(src_high, src_low);
            let ok = old(reg)@.dom().contains(s) && visible(old(reg)@[s], max_tier) && old(reg)@[s].link_count < MAX_LINKS;
            &&& (r == 0 <==> ok)
            &&& (!ok ==> r == SYS_ERR && final(reg)@ == old(reg)@)
            &&& (ok ==> final(reg)@ == old(reg)@.insert(s, final(reg)@[s])
                && final(reg)@[s].link_seq() == old(reg)@[s].link_seq().push(
                    ObjectLink { target: suid_of(dst_high, dst_low), relationship: RelationType::References })
                && final(reg)@[s].link_count == old(reg)@[s].link_count + 1
                && final(reg)@[s].content == old(reg)@[s].content && final(reg)@[s].tier == old(reg)@[s].tier
                && final(reg)@[s].owner == old(reg)@[s].owner && final(reg)@[s].flags == old(reg)@[s].flags)
        }),
{
    let suid = SUID::new(src_high, src_low);
    proof { lemma_insert_same(old(reg)@, suid); }
    match reg.get_mut(&suid) {
        Some(obj) => {
            if obj.tier.as_u8() > max_tier {
                return SYS_ERR;
            }
            if obj.add_link(SUID::new(dst_high, dst_low), RelationType::References) { 0 } else { SYS_ERR }
        },
        None => SYS_ERR,
    }
}

/// The SUIDs of the objects of `objs` whose tier level is at most `filter`, in order.
pub open spec fn tier_filtered(objs: Seq<SemanticObject>, filter: u8) -> Seq<SUID>
    decreases objs.len(),
{
    if objs.len() == 0 {
        Seq::empty()
    } else {
        let prev = tier_filtered(objs.drop_last(), filter);
        if tier_level(objs.last().tier) <= filter { prev.push(objs.last().suid) } else { prev }
    }
}

/// SYS_SEM_QUERY: the objects at or below the requested tier (clamped to
/// `max_tier`), in registry order. Returns how many there are and the
/// SUIDs of the first `min(max_results, MAX_QUERY_RESULTS)` of them.
pub fn sem_query(reg: &ObjectRegistry, max_tier: u8, tier_filter: u64, max_results: u64) -> (r: (u64, Vec<SUID>))
    requires reg.wf(),
    ensures
        ({
            let t = tier_filter as u8;
            let filter = if t < max_tier { t } else { max_tier };
            let all = tier_filtered(reg.listing(), filter);
            let m = max_results as usize;
            let limit = if m < MAX_QUERY_RESULTS { m as int } else { MAX_QUERY_RESULTS as int };
            &&& r.0 == all.len()
            &&& r.1@ == all.take(if all.len() < limit { all.len() as int } else { limit })
        }),
{
    let t: u8 = tier_filter as u8;
    let filter = if t < max_tier { t } else { max_tier };
    let m = max_results as usize;
    let limit = if m < MAX_QUERY_RESULTS { m } else { MAX_QUERY_RESULTS };
    let objs = reg.iter();
    let ghost listing = objs@.map_values(|o: &SemanticObject| *o);
    let mut count: u64 = 0;
    let mut out: Vec<SUID> = Vec::new();
    let mut i: usize = 0;
    while i < objs.len()
        invariant
            listing == objs@.map_values(|o: &SemanticObject| *o),
            i <= objs@.len(),
            limit <= MAX_QUERY_RESULTS,
            count == tier_filtered(listing.subrange(0, i as int), filter).len(),
            out@ == tier_filtered(listing.subrange(0, i as int), filter).take(
                if count < limit { count as int } else { limit as int }),
            count <= i,
        decreases objs@.len() - i,
    {
        let o = objs[i];
        proof {
            assert(listing.subrange(0, i + 1).drop_last() =~= listing.subrange(0, i as int));
            assert(listing.subrange(0, i + 1).last() == *o);
        }
        if o.tier.as_u8() <= filter {
            let ghost prev = tier_filtered(listing.subrange(0, i as int), filter);
            if count < limit as u64 {
                out.push(o.suid);
                proof { assert(out@ =~= prev.push(o.suid).take(count + 1)); }
            } else {
                proof { assert(out@ =~= prev.push(o.suid).take(limit as int)); }
            }
            count = count + 1;
        }
        i += 1;
    }
    proof { assert(listing.subrange(0, objs@.len() as int) =~= listing); }
    (count, out)
}

/// How many of the first `n` link slots hold a link.
pub open spec fn links_in_use(links: Seq<Option<ObjectLink>>, n: int) -> nat
    decreases n,
{
    if n <= 0 { 0 } else { links_in_use(links, n - 1) + (if links[n - 1] is Some { 1nat } else { 0nat }) }
}

/// SYS_SEM_META: `[tier, owner, content length, links in use, flags]` of
/// object `suid_high:suid_low`; `None` (`SYS_ERR`) if it is missing, above
/// `max_tier`, or counts more links than it has slots.
pub fn sem_meta(reg: &ObjectRegistry, max_tier: u8, suid_high: u64, suid_low: u64) -> (r: Option<[u64; 5]>)
    requires reg.wf(),
    ensures
        ({
            let s = suid_of(suid_high, suid_low);
            let o = reg@[s];
            &&& r is Some <==> (reg@.dom().contains(s) && visible(o, max_tier) && o.link_count <= MAX_LINKS)
            &&& r matches Some(m) ==> m@ == seq![tier_level(o.tier) as u64, o.owner as u64,
                o.content.spec_len() as u64, links_in_use(o.links@, o.link_count as int) as u64, o.flags.bits as u64]
        }),
{
    let suid = SUID::new(suid_high, suid_low);
    let obj = match reg.get(&suid) {
        Some(o) => o,
        None => { return None; },
    };
    if obj.tier.as_u8() > max_tier {
        return None;
    }
    let n = obj.link_count as usize;
    if n > MAX_LINKS {
        return None;
    }
    let mut used: u64 = 0;
    let mut i: usize = 0;
    while i < n
        invariant
            n == obj.link_count, n <= MAX_LINKS, i <= n,
            used == links_in_use(obj.links@, i as int),
            used <= i,
        decreases n - i,
    {
        if obj.links[i].is_some() {
            used = used + 1;
        }
        i += 1;
    }
    let m = [obj.tier.as_u8() as u64, obj.owner as u64, obj.content.len() as u64, used, obj.flags.as_u32() as u64];
    assert(m@ =~= seq![tier_level(obj.tier) as u64, obj.owner as u64, obj.content.spec_len() as u64,
        links_in_use(obj.links@, obj.link_count as int) as u64, obj.flags.bits as u64]);
    Some(m)
}

/// Putting back the element a sequence already has leaves it unchanged.
pub proof fn lemma_insert_same_seq<T>(s: Seq<T>, i: int)
    ensures 0 <= i < s.len() ==> s.update(i, s[i]) == s,
{
    if 0 <= i < s.len() {
        assert(s.update(i, s[i]) =~= s);
    }
}

} // verus!
