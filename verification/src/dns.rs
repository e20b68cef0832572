//! DNS A-record client: query encoding, response parsing, a small host
//! cache, and the timing decisions of one resolution.
use vstd::prelude::*;
use vstd::string::StringSliceAdditionalSpecFns;
use crate::bytes::{be16, from_be16, u16_to_be, read_be16, push_bytes};

verus! {

/// DNS server port.
pub const DNS_PORT: u16 = 53;
/// Local port of the query socket.
pub const LOCAL_PORT: u16 = 49153;
pub const QTYPE_A: u16 = 1;
pub const QCLASS_IN: u16 = 1;
/// Standard query with recursion desired.
pub const FLAGS_RD: u16 = 0x0100;
/// Largest datagram handled (classic DNS over UDP).
pub const UDP_PAYLOAD: usize = 512;
pub const CACHE_SLOTS: usize = 8;
/// Longest host name the cache keeps.
pub const CACHE_HOST_MAX: usize = 64;
/// Longest label of a name.
pub const MAX_LABEL: usize = 63;
/// Name labels followed before a name is declared malformed.
pub const NAME_LABEL_LIMIT: u64 = 128;

// ------------------------------------------------------------------ query

/// Index of the first '.' in `h` at or after `i`, or `h.len()`.
pub open spec fn dot_from(h: Seq<u8>, i: int) -> int
    decreases h.len() - i,
{
    if i >= h.len() { h.len() as int } else if h[i] == 0x2Eu8 { i } else { dot_from(h, i + 1) }
}

/// The length-prefixed labels of the dotted name `h[i..]` (no root byte);
/// none if a label is empty or longer than 63 bytes.
pub open spec fn labels_from(h: Seq<u8>, i: int) -> Option<Seq<u8>>
    decreases h.len() - i, 1int,
{
    if i > h.len() || i < 0 {
        None
    } else {
        let d = dot_from(h, i);
        let n = d - i;
        if n <= 0 || n > 63 {
            None
        } else if d >= h.len() {
            Some(seq![n as u8] + h.subrange(i, d))
        } else {
            match labels_from_next(h, d + 1, i) {
                Some(rest) => Some(seq![n as u8] + h.subrange(i, d) + rest),
                None => None,
            }
        }
    }
}

/// `labels_from(h, j)` for a `j` past position `i` (keeps the recursion
/// measure visible).
pub open spec fn labels_from_next(h: Seq<u8>, j: int, i: int) -> Option<Seq<u8>>
    decreases h.len() - i, 0int,
{
    if i < j <= h.len() { labels_from(h, j) } else { None }
}

/// The query for an A record of `host` with transaction id `txid`.
pub open spec fn query_bytes(host: Seq<u8>, txid: u16) -> Option<Seq<u8>> {
    match labels_from(host, 0) {
        Some(q) => Some(be16(txid) + be16(FLAGS_RD) + be16(1) + be16(0) + be16(0) + be16(0) + q + seq![0u8]
            + be16(QTYPE_A) + be16(QCLASS_IN)),
        None => None,
    }
}

proof fn lemma_dot_from(h: Seq<u8>, i: int)
    requires 0 <= i <= h.len(),
    ensures
        i <= dot_from(h, i) <= h.len(),
        dot_from(h, i) < h.len() ==> h[dot_from(h, i)] == 0x2Eu8,
        forall|k: int| i <= k < dot_from(h, i) ==> h[k] != 0x2Eu8,
    decreases h.len() - i,
{
    if i < h.len() && h[i] != 0x2Eu8 {
        lemma_dot_from(h, i + 1);
    }
}

/// Encode the labels of `host` from byte `i` on; none on an empty or
/// over-long label.
fn encode_labels(host: &[u8], i: usize, out: &mut Vec<u8>) -> (ok: bool)
    requires i <= host@.len(),
    ensures
        ok == (labels_from(host@, i as int) is Some),
        ok ==> final(out)@ == old(out)@ + labels_from(host@, i as int)->0,
    decreases host@.len() - i,
{
    let mut d = i;
    while d < host.len() && host[d] != 0x2E
        invariant i <= d <= host@.len(), forall|k: int| i <= k < d ==> host@[k] != 0x2Eu8,
        decreases host@.len() - d,
    {
        d += 1;
    }
    proof {
        lemma_dot_from(host@, i as int);
        if dot_from(host@, i as int) != d as int {
            if dot_from(host@, i as int) < d as int {
                assert(host@[dot_from(host@, i as int)] == 0x2Eu8);
            } else {
                assert(host@[d as int] == 0x2Eu8);
            }
        }
    }
    let n = d - i;
    if n == 0 || n > MAX_LABEL {
        return false;
    }
    out.push(n as u8);
    push_bytes(out, vstd::slice::slice_subrange(host, i, d));
    if d >= host.len() {
        return true;
    }
    let ghost mid = out@;
    let ok = encode_labels(host, d + 1, out);
    proof {
        if ok {
            assert(final(out)@ =~= old(out)@ + labels_from(host@, i as int)->0) by {
                assert(labels_from_next(host@, d + 1, i as int) == labels_from(host@, d + 1));
            }
        }
    }
    ok
}

/// Encode an A-record query for `host` into `out`; the query length, or
/// none if a label is empty or longer than 63 bytes, or the query does not
/// fit `out`.
pub fn build_query(host: &str, txid: u16, out: &mut [u8]) -> (r: Option<usize>)
    ensures
        final(out)@.len() == old(out)@.len(),
        r is Some <==> query_bytes(host.spec_bytes(), txid) is Some
            && query_bytes(host.spec_bytes(), txid)->0.len() <= old(out)@.len(),
        r matches Some(n) ==> n == query_bytes(host.spec_bytes(), txid)->0.len()
            && final(out)@.subrange(0, n as int) == query_bytes(host.spec_bytes(), txid)->0,
{
    let hb = host.as_bytes();
    let mut q: Vec<u8> = Vec::new();
    push_bytes(&mut q, u16_to_be(txid).as_slice());
    push_bytes(&mut q, u16_to_be(FLAGS_RD).as_slice());
    push_bytes(&mut q, u16_to_be(1u16).as_slice());
    push_bytes(&mut q, u16_to_be(0u16).as_slice());
    push_bytes(&mut q, u16_to_be(0u16).as_slice());
    push_bytes(&mut q, u16_to_be(0u16).as_slice());
    if !encode_labels(hb, 0, &mut q) {
        return None;
    }
    q.push(0u8);
    push_bytes(&mut q, u16_to_be(QTYPE_A).as_slice());
    push_bytes(&mut q, u16_to_be(QCLASS_IN).as_slice());
    assert(q@ =~= query_bytes(hb@, txid)->0);
    if q.len() > out.len() {
        return None;
    }
    crate::bytes::copy_into(out, 0, q.as_slice());
    assert(out@.subrange(0, q@.len() as int) =~= q@);
    Some(q.len())
}

// --------------------------------------------------------------- response

/// Where the name starting at `pos` ends, following at most `fuel` labels;
/// a compression pointer ends it after two bytes, the root label after one.
pub open spec fn name_end(buf: Seq<u8>, pos: int, fuel: nat) -> Option<int>
    decreases fuel,
{
    if fuel == 0 || pos < 0 || pos >= buf.len() {
        None
    } else if buf[pos] & 0xC0u8 == 0xC0u8 {
        Some(pos + 2)
    } else if buf[pos] == 0 {
        Some(pos + 1)
    } else {
        name_end(buf, pos + 1 + buf[pos], (fuel - 1) as nat)
    }
}

/// The offset just past the name at `pos`, following at most 128 labels.
pub fn skip_name(buf: &[u8], pos: usize) -> (r: Option<usize>)
    requires buf@.len() <= isize::MAX,
    ensures
        r is Some <==> name_end(buf@, pos as int, 128) is Some,
        r matches Some(p) ==> p == name_end(buf@, pos as int, 128)->0,
{
    let _n = buf.len();
    let mut p = pos;
    let mut guard: u64 = 0;
    loop
        invariant
            guard <= NAME_LABEL_LIMIT, buf@.len() <= isize::MAX,
            name_end(buf@, p as int, (128 - guard) as nat) == name_end(buf@, pos as int, 128),
            _n == buf@.len(),
        decreases 128 - guard,
    {
        if guard >= NAME_LABEL_LIMIT || p >= buf.len() {
            return None;
        }
        guard += 1;
        let len = buf[p];
        if len & 0xC0 == 0xC0 {
            return Some(p + 2);
        }
        if len == 0 {
            return Some(p + 1);
        }
        p = match p.checked_add(1 + len as usize) {
            Some(x) => x,
            None => {
                assert(name_end(buf@, p + 1 + len, (128 - guard) as nat) is None);
                return None;
            }
        };
    }
}

/// Offset after `n` questions from `pos` (each a name, type and class).
pub open spec fn questions_end(buf: Seq<u8>, pos: int, n: nat) -> Option<int>
    decreases n,
{
    if n == 0 {
        Some(pos)
    } else {
        match name_end(buf, pos, 128) {
            Some(p) => if p + 4 > buf.len() { None } else { questions_end(buf, p + 4, (n - 1) as nat) },
            None => None,
        }
    }
}

/// The address of the first A/IN record of length 4 among `n` answer
/// records from `pos`; none on a truncated record or if there is none.
pub open spec fn first_a_record(buf: Seq<u8>, pos: int, n: nat) -> Option<Seq<u8>>
    decreases n,
{
    if n == 0 {
        None
    } else {
        match name_end(buf, pos, 128) {
            Some(p) => {
                if p + 10 > buf.len() {
                    None
                } else {
                    let rtype = from_be16(buf.subrange(p, p + 2));
                    let rclass = from_be16(buf.subrange(p + 2, p + 4));
                    let rdlen = from_be16(buf.subrange(p + 8, p + 10));
                    let end = p + 10 + rdlen;
                    if end > buf.len() {
                        None
                    } else if rtype == QTYPE_A && rclass == QCLASS_IN && rdlen == 4 {
                        Some(buf.subrange(p + 10, p + 14))
                    } else {
                        first_a_record(buf, end, (n - 1) as nat)
                    }
                }
            },
            None => None,
        }
    }
}

/// The IPv4 address a response to query `txid` gives: the id must match,
/// the response bit be set, the error code be zero and some answer be an
/// A record.
pub open spec fn response_address(buf: Seq<u8>, txid: u16) -> Option<Seq<u8>> {
    if buf.len() < 12 {
        None
    } else {
        let flags = from_be16(buf.subrange(2, 4));
        let ancount = from_be16(buf.subrange(6, 8));
        if from_be16(buf.subrange(0, 2)) != txid || flags & 0x8000u16 == 0 || flags & 0x000Fu16 != 0 || ancount == 0 {
            None
        } else {
            match questions_end(buf, 12, from_be16(buf.subrange(4, 6)) as nat) {
                Some(p) => first_a_record(buf, p, ancount as nat),
                None => None,
            }
        }
    }
}

/// Parse a response to query `txid`: the first A record's address.
pub fn parse_response(buf: &[u8], txid: u16) -> (r: Option<[u8; 4]>)
    requires buf@.len() <= isize::MAX,
    ensures
        r is Some <==> response_address(buf@, txid) is Some,
        r matches Some(a) ==> a@ == response_address(buf@, txid)->0,
{
    let n = buf.len();
    if n < 12 {
        return None;
    }
    let id = read_be16(buf, 0);
    if id != txid {
        return None;
    }
    let flags = read_be16(buf, 2);
    if flags & 0x8000 == 0 {
        return None;
    }
    if flags & 0x000F != 0 {
        return None;
    }
    let qdcount = read_be16(buf, 4);
    let ancount = read_be16(buf, 6);
    if ancount == 0 {
        return None;
    }
    let mut pos: usize = 12;
    let mut q: u16 = 0;
    assert(buf@.subrange(0, 2) =~= buf@.subrange(0, 2));
    assert(response_address(buf@, txid) == match questions_end(buf@, 12, qdcount as nat) {
        Some(p) => first_a_record(buf@, p, ancount as nat),
        None => None,
    });
    while q < qdcount
        invariant
            q <= qdcount, n == buf@.len(), pos <= n, n <= isize::MAX,
            response_address(buf@, txid) == match questions_end(buf@, 12, qdcount as nat) {
                Some(p) => first_a_record(buf@, p, ancount as nat),
                None => None::<Seq<u8>>,
            },
            questions_end(buf@, 12, qdcount as nat) == questions_end(buf@, pos as int, (qdcount - q) as nat),
        decreases qdcount - q,
    {
        pos = match skip_name(buf, pos) {
            Some(p) => p,
            None => return None,
        };
        if pos > n || n - pos < 4 {
            return None;
        }
        pos = pos + 4;
        q += 1;
    }
    let mut a: u16 = 0;
    while a < ancount
        invariant
            a <= ancount, n == buf@.len(), pos <= n, n <= isize::MAX,
            response_address(buf@, txid) == first_a_record(buf@, pos as int, (ancount - a) as nat),
        decreases ancount - a,
    {
        pos = match skip_name(buf, pos) {
            Some(p) => p,
            None => return None,
        };
        if pos > n || n - pos < 10 {
            return None;
        }
        let rtype = read_be16(buf, pos);
        let rclass = read_be16(buf, pos + 2);
        let rdlength = read_be16(buf, pos + 8) as usize;
        let rdata_start = pos + 10;
        if rdlength > n - rdata_start {
            return None;
        }
        let rdata_end = rdata_start + rdlength;
        if rtype == QTYPE_A && rclass == QCLASS_IN && rdlength == 4 {
            let r = [buf[rdata_start], buf[rdata_start + 1], buf[rdata_start + 2], buf[rdata_start + 3]];
            assert(r@ =~= buf@.subrange(rdata_start as int, rdata_start + 4));
            return Some(r);
        }
        pos = rdata_end;
        a += 1;
    }
    None
}

// ------------------------------------------------------------------ cache

/// One cached host → address pair.
#[derive(Clone, Copy)]
pub struct CacheEntry {
    pub used: bool,
    pub host_len: usize,
    pub host: [u8; 64],
    pub ip: [u8; 4],
}

/// Whether entry `e` caches host name `h`.
pub open spec fn entry_holds(e: CacheEntry, h: Seq<u8>) -> bool {
    e.used && e.host_len == h.len() && h.len() <= CACHE_HOST_MAX && e.host@.subrange(0, h.len() as int) == h
}

/// First entry from `i` on that caches `h`.
pub open spec fn first_holding(es: Seq<CacheEntry>, h: Seq<u8>, i: int) -> Option<int>
    decreases es.len() - i,
{
    if i < 0 || i >= es.len() { None } else if entry_holds(es[i], h) { Some(i) } else { first_holding(es, h, i + 1) }
}

/// First entry from `i` on that is free or already caches `h`.
pub open spec fn first_reusable(es: Seq<CacheEntry>, h: Seq<u8>, i: int) -> Option<int>
    decreases es.len() - i,
{
    if i < 0 || i >= es.len() { None }
    else if !es[i].used || entry_holds(es[i], h) { Some(i) }
    else { first_reusable(es, h, i + 1) }
}

/// `e` made to cache `h` → `ip`.
pub open spec fn filled(e: CacheEntry, h: Seq<u8>, ip: [u8; 4]) -> CacheEntry {
    CacheEntry {
        used: true,
        host_len: h.len() as usize,
        host: e.host,
        ip,
    }
}

/// The slot an insert of `h` fills: the first free one or the one already
/// caching `h`; when there is none, the round-robin victim.
pub open spec fn insert_slot(c: DnsCache, h: Seq<u8>) -> int {
    match first_reusable(c.entries@, h, 0) {
        Some(i) => i,
        None => (c.next % CACHE_SLOTS) as int,
    }
}

/// `c1` is `c0` after caching `h` → `ip` (a name too long is not cached).
pub open spec fn cache_inserted(c0: DnsCache, h: Seq<u8>, ip: [u8; 4], c1: DnsCache) -> bool {
    let es = c0.entries@;
    if h.len() > CACHE_HOST_MAX {
        c1 == c0
    } else {
        let idx = insert_slot(c0, h);
        &&& c1.next == (if first_reusable(es, h, 0) is Some { c0.next } else { c0.next.wrapping_add(1) })
        &&& c1.entries@.len() == CACHE_SLOTS
        &&& forall|j: int| 0 <= j < CACHE_SLOTS && j != idx ==> #[trigger] c1.entries@[j] == es[j]
        &&& c1.entries@[idx].used
        &&& c1.entries@[idx].host_len == h.len()
        &&& c1.entries@[idx].ip == ip
        &&& c1.entries@[idx].host@ == h + es[idx].host@.subrange(h.len() as int, 64)
    }
}

proof fn lemma_first_holding_at(es: Seq<CacheEntry>, h: Seq<u8>, i: int, k: int)
    requires 0 <= i <= k < es.len(), entry_holds(es[k], h),
        forall|j: int| i <= j < k ==> !entry_holds(#[trigger] es[j], h),
    ensures first_holding(es, h, i) == Some(k),
    decreases k - i,
{
    if i < k {
        lemma_first_holding_at(es, h, i + 1, k);
    }
}

proof fn lemma_first_holding_found(es: Seq<CacheEntry>, h: Seq<u8>, i: int)
    requires 0 <= i, first_holding(es, h, i) is Some,
    ensures ({
        let k = first_holding(es, h, i)->0;
        &&& i <= k < es.len() && entry_holds(es[k], h)
        &&& forall|j: int| i <= j < k ==> !entry_holds(#[trigger] es[j], h)
    }),
    decreases es.len() - i,
{
    if i < es.len() && !entry_holds(es[i], h) {
        lemma_first_holding_found(es, h, i + 1);
    }
}

proof fn lemma_first_reusable_skips(es: Seq<CacheEntry>, h: Seq<u8>, i: int)
    requires 0 <= i,
    ensures
        first_reusable(es, h, i) matches Some(k) ==> i <= k < es.len()
            && forall|j: int| i <= j < k ==> !entry_holds(#[trigger] es[j], h),
        first_reusable(es, h, i) is None ==> forall|j: int| i <= j < es.len() ==> !entry_holds(#[trigger] es[j], h),
    decreases es.len() - i,
{
    if i < es.len() && !(!es[i].used || entry_holds(es[i], h)) {
        lemma_first_reusable_skips(es, h, i + 1);
    }
}

/// After caching `h` → `ip`, a lookup of `h` answers `ip`.
pub proof fn law_cache_insert_then_lookup(c0: DnsCache, h: Seq<u8>, ip: [u8; 4], c1: DnsCache)
    requires c0.wf(), h.len() <= CACHE_HOST_MAX, cache_inserted(c0, h, ip, c1),
    ensures
        first_holding(c1.entries@, h, 0) is Some,
        c1.entries@[first_holding(c1.entries@, h, 0)->0].ip == ip,
{
    let es = c0.entries@;
    let idx = insert_slot(c0, h);
    lemma_first_reusable_skips(es, h, 0);
    assert(c1.entries@[idx].host@.subrange(0, h.len() as int) =~= h);
    assert forall|j: int| 0 <= j < idx implies !entry_holds(#[trigger] c1.entries@[j], h) by {
        assert(c1.entries@[j] == es[j]);
    }
    lemma_first_holding_at(c1.entries@, h, 0, idx);
}

/// A cached answer stays: inserting another name `h2` leaves the lookup of
/// `h` as it was unless the insert took the very slot that answered it.
pub proof fn law_cache_lookup_kept(c0: DnsCache, h: Seq<u8>, h2: Seq<u8>, ip2: [u8; 4], c1: DnsCache)
    requires
        c0.wf(), h != h2, cache_inserted(c0, h2, ip2, c1),
        first_holding(c0.entries@, h, 0) matches Some(k) && (h2.len() > CACHE_HOST_MAX || k != insert_slot(c0, h2)),
    ensures
        first_holding(c1.entries@, h, 0) == first_holding(c0.entries@, h, 0),
        first_holding(c1.entries@, h, 0) matches Some(k) ==> c1.entries@[k].ip == c0.entries@[k].ip,
{
    if h2.len() <= CACHE_HOST_MAX {
        let es = c0.entries@;
        let k = first_holding(es, h, 0)->0;
        lemma_first_holding_found(es, h, 0);
        let idx = insert_slot(c0, h2);
        lemma_first_reusable_skips(es, h2, 0);
        assert(!entry_holds(c1.entries@[idx], h)) by {
            if entry_holds(c1.entries@[idx], h) {
                assert(c1.entries@[idx].host@.subrange(0, h2.len() as int) =~= h2);
                assert(h =~= h2);
            }
        }
        assert forall|j: int| 0 <= j < k implies !entry_holds(#[trigger] c1.entries@[j], h) by {
            if j != idx { assert(c1.entries@[j] == es[j]); }
        }
        assert(c1.entries@[k] == es[k]);
        lemma_first_holding_at(c1.entries@, h, 0, k);
    }
}

/// The small host → address cache, with round-robin replacement.
pub struct DnsCache {
    pub entries: Vec<CacheEntry>,
    /// Next victim when every entry holds another host.
    pub next: usize,
}

impl DnsCache {
    pub open spec fn wf(&self) -> bool {
        &&& self.entries@.len() == CACHE_SLOTS
        &&& forall|i: int| 0 <= i < CACHE_SLOTS ==> #[trigger] self.entries@[i].host_len <= CACHE_HOST_MAX
    }

    /// An empty cache.
    pub fn new() -> (r: Self)
        ensures r.wf(), r.next == 0, forall|i: int| 0 <= i < CACHE_SLOTS ==> !(#[trigger] r.entries@[i]).used,
    {
        let mut entries: Vec<CacheEntry> = Vec::new();
        let mut i: usize = 0;
        while i < CACHE_SLOTS
            invariant i <= CACHE_SLOTS, entries@.len() == i,
                forall|k: int| 0 <= k < i ==> !(#[trigger] entries@[k]).used && entries@[k].host_len == 0,
            decreases CACHE_SLOTS - i,
        {
            entries.push(CacheEntry { used: false, host_len: 0, host: [0u8; 64], ip: [0u8; 4] });
            i += 1;
        }
        DnsCache { entries, next: 0 }
    }

    fn holds(e: &CacheEntry, hb: &[u8]) -> (r: bool)
        requires e.host_len <= CACHE_HOST_MAX,
        ensures r == entry_holds(*e, hb@),
    {
        if !e.used || e.host_len != hb.len() {
            return false;
        }
        let mut k: usize = 0;
        while k < hb.len()
            invariant k <= hb@.len(), hb@.len() == e.host_len, e.host_len <= CACHE_HOST_MAX,
                forall|j: int| 0 <= j < k ==> e.host@[j] == hb@[j],
            decreases hb@.len() - k,
        {
            if e.host[k] != hb[k] {
                return false;
            }
            k += 1;
        }
        assert(e.host@.subrange(0, hb@.len() as int) =~= hb@);
        true
    }

    /// The cached address of `host`, from the first entry holding it.
    pub fn lookup(&self, host: &str) -> (r: Option<[u8; 4]>)
        requires self.wf(),
        ensures
            r is Some <==> first_holding(self.entries@, host.spec_bytes(), 0) is Some,
            r matches Some(ip) ==> ip == self.entries@[first_holding(self.entries@, host.spec_bytes(), 0)->0].ip,
    {
        let hb = host.as_bytes();
        let mut i: usize = 0;
        while i < CACHE_SLOTS
            invariant self.wf(), i <= CACHE_SLOTS, hb@ == host.spec_bytes(),
                first_holding(self.entries@, hb@, 0) == first_holding(self.entries@, hb@, i as int),
            decreases CACHE_SLOTS - i,
        {
            if Self::holds(&self.entries[i], hb) {
                assert(first_holding(self.entries@, hb@, i as int) == Some(i as int));
                return Some(self.entries[i].ip);
            }
            i += 1;
        }
        None
    }

    fn find_reusable(&self, hb: &[u8]) -> (r: Option<usize>)
        requires self.wf(),
        ensures
            r is Some <==> first_reusable(self.entries@, hb@, 0) is Some,
            r matches Some(i) ==> i == first_reusable(self.entries@, hb@, 0)->0 && i < CACHE_SLOTS,
    {
        let mut i: usize = 0;
        while i < CACHE_SLOTS
            invariant self.wf(), i <= CACHE_SLOTS,
                first_reusable(self.entries@, hb@, 0) == first_reusable(self.entries@, hb@, i as int),
            decreases CACHE_SLOTS - i,
        {
            let e = self.entries[i];
            if !e.used || Self::holds(&e, hb) {
                assert(first_reusable(self.entries@, hb@, i as int) == Some(i as int));
                return Some(i);
            }
            i += 1;
        }
        None
    }

    /// Remember `host` → `ip` (hosts longer than 64 bytes are not cached):
    /// in the first free entry or the one already holding the host, else in
    /// the round-robin victim.
    pub fn insert(&mut self, host: &str, ip: [u8; 4])
        requires old(self).wf(),
        ensures
            final(self).wf(),
            cache_inserted(*old(self), host.spec_bytes(), ip, *final(self)),
    {
        let hb = host.as_bytes();
        if hb.len() > CACHE_HOST_MAX {
            return;
        }
        let slot = self.find_reusable(hb);
        let idx = match slot {
            Some(k) => k,
            None => {
                let k = self.next % CACHE_SLOTS;
                self.next = self.next.wrapping_add(1);
                k
            }
        };
        let mut e = self.entries[idx];
        e.used = true;
        e.host_len = hb.len();
        let ghost s0 = *self;
        let mut k: usize = 0;
        while k < hb.len()
            invariant k <= hb@.len(), hb@.len() <= CACHE_HOST_MAX, idx < CACHE_SLOTS,
                *self == s0, e.used, e.host_len == hb@.len(),
                self.entries@.len() == CACHE_SLOTS,
                forall|j: int| 0 <= j < k ==> e.host@[j] == hb@[j],
                forall|j: int| k <= j < 64 ==> e.host@[j] == self.entries@[idx as int].host@[j],
            decreases hb@.len() - k,
        {
            e.host[k] = hb[k];
            k += 1;
        }
        e.ip = ip;
        let ghost before = self.entries@;
        self.entries.set(idx, e);
        assert(e.host@ =~= hb@ + before[idx as int].host@.subrange(hb@.len() as int, 64));
    }
}

// -------------------------------------------------------------- resolving

/// What the first step of a resolution found.
pub enum ResolveStart {
    /// The cache held the host.
    Cached([u8; 4]),
    /// The network is down or the name cannot be queried.
    Failed,
    /// Send `query` and drive `state` with replies and clock readings.
    Query { query: Vec<u8>, state: Resolution },
}

/// An outstanding query.
pub struct Resolution {
    pub txid: u16,
    /// Clock reading at which the resolution gives up.
    pub deadline: u64,
    /// Clock ticks between retransmissions while nothing has arrived.
    pub resend_ticks: u64,
    pub last_send: u64,
    /// Whether any datagram arrived.
    pub rx_seen: bool,
    /// Steps taken.
    pub polls: u64,
}

/// Steps after which a resolution stops even if the clock does not move.
pub const MAX_POLLS: u64 = 5000000;

/// What one step of a resolution decided.
pub struct ResolveStep {
    /// Send the query again.
    pub resend: bool,
    /// The resolution is over.
    pub done: bool,
    /// The address found, when over with success.
    pub address: Option<[u8; 4]>,
}

/// Ticks to wait for a reply: three seconds' worth, saturating.
pub open spec fn wait_budget(tick_hz: u64) -> u64 {
    if tick_hz * 3 > u64::MAX { u64::MAX } else { (tick_hz * 3) as u64 }
}

/// Transaction id of a query started at clock reading `now`.
pub open spec fn txid_for(now: u64) -> u16 {
    ((now as u16) ^ 0x5EEDu16) as u16
}

/// Start resolving `host`: the cached address, or the query to send and
/// the state that waits about three seconds (`3 * tick_hz` ticks) for the
/// reply, re-sending four times a second.
pub fn begin_resolve(cache: &DnsCache, host: &str, net_up: bool, now: u64, tick_hz: u64) -> (r: ResolveStart)
    requires cache.wf(),
    ensures
        first_holding(cache.entries@, host.spec_bytes(), 0) is Some ==> (r matches ResolveStart::Cached(ip)
            && ip == cache.entries@[first_holding(cache.entries@, host.spec_bytes(), 0)->0].ip),
        first_holding(cache.entries@, host.spec_bytes(), 0) is None ==> (r is Failed <==> (!net_up
            || query_bytes(host.spec_bytes(), txid_for(now)) is None
            || query_bytes(host.spec_bytes(), txid_for(now))->0.len() > UDP_PAYLOAD)),
        r matches ResolveStart::Query { query, state } ==> first_holding(cache.entries@, host.spec_bytes(), 0) is None
            && query@ == query_bytes(host.spec_bytes(), txid_for(now))->0
            && state.txid == txid_for(now)
            && state.deadline == now.saturating_add(wait_budget(tick_hz))
            && state.resend_ticks == (if tick_hz / 4 > 1 { tick_hz / 4 } else { 1 })
            && state.last_send == now && !state.rx_seen && state.polls == 0,
{
    match cache.lookup(host) {
        Some(ip) => return ResolveStart::Cached(ip),
        None => {}
    }
    if !net_up {
        return ResolveStart::Failed;
    }
    let txid: u16 = (now as u16) ^ 0x5EED;
    let mut buf = [0u8; 512];
    let qlen = match build_query(host, txid, &mut buf) {
        Some(n) => n,
        None => return ResolveStart::Failed,
    };
    let query = vstd::slice::slice_to_vec(vstd::slice::slice_subrange(buf.as_slice(), 0, qlen));
    let quarter = tick_hz / 4;
    let state = Resolution {
        txid,
        deadline: now.saturating_add(if tick_hz > u64::MAX / 3 { u64::MAX } else { tick_hz * 3 }),
        resend_ticks: if quarter > 1 { quarter } else { 1 },
        last_send: now,
        rx_seen: false,
        polls: 0,
    };
    ResolveStart::Query { query, state }
}

impl Resolution {
    /// One poll: `reply` is the datagram received, if any, and `now` the
    /// clock. Over when a reply carries an address, at the deadline, or
    /// after `MAX_POLLS` steps; re-send while nothing has arrived and a
    /// resend interval has passed.
    pub fn step(&mut self, reply: Option<&[u8]>, now: u64) -> (r: ResolveStep)
        requires reply matches Some(b) ==> b@.len() <= isize::MAX,
        ensures
            final(self).txid == old(self).txid, final(self).deadline == old(self).deadline,
            final(self).resend_ticks == old(self).resend_ticks,
            final(self).rx_seen == (old(self).rx_seen || reply is Some),
            ({
                let got = match reply {
                    Some(b) => response_address(b@, old(self).txid),
                    None => None,
                };
                let waited = if now >= old(self).last_send { now - old(self).last_send } else { 0 };
                let resend = !final(self).rx_seen && waited >= old(self).resend_ticks;
                if got is Some {
                    &&& r.done && !r.resend
                    &&& (r.address matches Some(a) && a@ == got->0)
                    &&& final(self).polls == old(self).polls && final(self).last_send == old(self).last_send
                } else if now >= old(self).deadline {
                    r.done && !r.resend && r.address is None
                        && final(self).polls == old(self).polls && final(self).last_send == old(self).last_send
                } else {
                    &&& r.resend == resend
                    &&& final(self).last_send == (if resend { now } else { old(self).last_send })
                    &&& final(self).polls == old(self).polls.saturating_add(1)
                    &&& r.done == (final(self).polls > MAX_POLLS)
                    &&& r.address is None
                }
            }),
    {
        match reply {
            Some(b) => {
                self.rx_seen = true;
                match parse_response(b, self.txid) {
                    Some(ip) => return ResolveStep { resend: false, done: true, address: Some(ip) },
                    None => {}
                }
            }
            None => {}
        }
        if now >= self.deadline {
            return ResolveStep { resend: false, done: true, address: None };
        }
        let mut resend = false;
        if !self.rx_seen && now.saturating_sub(self.last_send) >= self.resend_ticks {
            resend = true;
            self.last_send = now;
        }
        self.polls = self.polls.saturating_add(1);
        ResolveStep { resend, done: self.polls > MAX_POLLS, address: None }
    }
}

} // verus!
