//! Write-through journal for the object registry: an append-only log of
//! full-state object records on a block-device region, with CRC-gated
//! replay and two superblock copies.
use vstd::prelude::*;
use crate::bytes::{be64, from_be64, le16, le32, le64, from_le16, from_le32, from_le64, u16_to_le, u32_to_le, u64_to_le,
    read_le16, read_le32, read_le64, push_bytes, lemma_le64_roundtrip, lemma_le32_roundtrip};
use crate::crc32::{crc32, crc32_spec};
use crate::object::{ContentType, ObjectContent, ObjectLink, RelationType, SemanticObject, MAX_LINKS, MAX_FILE_CONTENT};
use crate::registry::ObjectRegistry;
use crate::suid::SUID;
use crate::tier::SecurityTier;
pub use crate::block::{BlockDevice, DriverError, DevOp, traced_read, traced_write, is_read_at, read_data,
    is_write, writes};

verus! {

/// Record magic, "SFRO".
pub const REC_MAGIC: [u8; 4] = [0x53, 0x46, 0x52, 0x4F];
/// Superblock magic, "SFSB".
pub const SB_MAGIC: [u8; 4] = [0x53, 0x46, 0x53, 0x42];
pub const FORMAT_VERSION: u16 = 1;

pub const OP_UPSERT: u8 = 1;
pub const OP_TOMBSTONE: u8 = 2;
/// Reserved for group commit.
pub const OP_COMMIT: u8 = 3;

pub const FLAG_COMMITTED: u8 = 1;

/// Fixed record header size.
pub const HEADER_LEN: usize = 64;
/// Serialized size of one link: target SUID and relationship byte.
pub const LINK_LEN: usize = 17;

pub const SECTOR: usize = 512;

/// When records become durable. Only write-through is implemented: every
/// record is committed before the mutation returns.
#[derive(Clone, Copy, PartialEq, Eq, Structural)]
pub enum CommitPolicy {
    WriteThrough,
    GroupCommit { interval_ticks: u64 },
}

// ------------------------------------------------------------ byte layout

/// Big-endian bytes of an identifier (as `SUID::to_bytes`).
pub open spec fn suid_bytes(s: SUID) -> Seq<u8> {
    be64(s.high) + be64(s.low)
}

pub open spec fn relation_code(r: RelationType) -> u8 {
    match r {
        RelationType::Contains => 0,
        RelationType::References => 1,
        RelationType::DerivedFrom => 2,
        RelationType::SimilarTo => 3,
        RelationType::Supersedes => 4,
        RelationType::Custom => 255,
    }
}

pub open spec fn relation_of(v: u8) -> RelationType {
    if v == 1 { RelationType::References }
    else if v == 2 { RelationType::DerivedFrom }
    else if v == 3 { RelationType::SimilarTo }
    else if v == 4 { RelationType::Supersedes }
    else if v == 255 { RelationType::Custom }
    else { RelationType::Contains }
}

pub open spec fn content_type_code(c: ContentType) -> u8 {
    match c {
        ContentType::Binary => 0,
        ContentType::Text => 1,
        ContentType::Vector => 2,
        ContentType::Structured => 3,
        ContentType::Reference => 4,
    }
}

pub open spec fn content_type_of(v: u8) -> ContentType {
    if v == 1 { ContentType::Text }
    else if v == 2 { ContentType::Vector }
    else if v == 3 { ContentType::Structured }
    else if v == 4 { ContentType::Reference }
    else { ContentType::Binary }
}

pub open spec fn tier_code(t: SecurityTier) -> u8 {
    match t {
        SecurityTier::Public => 0,
        SecurityTier::Internal => 1,
        SecurityTier::Sensitive => 2,
        SecurityTier::Secret => 3,
    }
}

pub open spec fn tier_of(v: u8) -> SecurityTier {
    if v == 1 { SecurityTier::Internal }
    else if v == 2 { SecurityTier::Sensitive }
    else if v == 3 { SecurityTier::Secret }
    else { SecurityTier::Public }
}

fn relation_to_u8(r: RelationType) -> (v: u8)
    ensures v == relation_code(r),
{
    match r {
        RelationType::Contains => 0,
        RelationType::References => 1,
        RelationType::DerivedFrom => 2,
        RelationType::SimilarTo => 3,
        RelationType::Supersedes => 4,
        RelationType::Custom => 255,
    }
}

fn relation_from_u8(v: u8) -> (r: RelationType)
    ensures r == relation_of(v),
{
    match v {
        1 => RelationType::References,
        2 => RelationType::DerivedFrom,
        3 => RelationType::SimilarTo,
        4 => RelationType::Supersedes,
        255 => RelationType::Custom,
        _ => RelationType::Contains,
    }
}

fn content_type_to_u8(c: ContentType) -> (v: u8)
    ensures v == content_type_code(c),
{
    match c {
        ContentType::Binary => 0,
        ContentType::Text => 1,
        ContentType::Vector => 2,
        ContentType::Structured => 3,
        ContentType::Reference => 4,
    }
}

fn content_type_from_u8(v: u8) -> (r: ContentType)
    ensures r == content_type_of(v),
{
    match v {
        1 => ContentType::Text,
        2 => ContentType::Vector,
        3 => ContentType::Structured,
        4 => ContentType::Reference,
        _ => ContentType::Binary,
    }
}

fn tier_to_u8(t: SecurityTier) -> (v: u8)
    ensures v == tier_code(t),
{
    match t {
        SecurityTier::Public => 0,
        SecurityTier::Internal => 1,
        SecurityTier::Sensitive => 2,
        SecurityTier::Secret => 3,
    }
}

fn tier_from_u8(v: u8) -> (r: SecurityTier)
    ensures r == tier_of(v),
{
    match v {
        1 => SecurityTier::Internal,
        2 => SecurityTier::Sensitive,
        3 => SecurityTier::Secret,
        _ => SecurityTier::Public,
    }
}

// ------------------------------------------------------------ superblock

/// The superblock: which region holds the log and how far sequence numbers
/// have gone.
#[derive(Clone, Copy, Debug, PartialEq, Eq, Structural)]
pub struct Superblock {
    pub generation: u64,
    pub log_start: u64,
    pub log_sectors: u64,
    pub high_water: u64,
    pub clean_shutdown: bool,
}

/// The 40 checksummed bytes of a superblock.
pub open spec fn superblock_body(sb: Superblock) -> Seq<u8> {
    SB_MAGIC@ + le16(FORMAT_VERSION) + seq![if sb.clean_shutdown { 1u8 } else { 0u8 }, 0u8]
        + le64(sb.generation) + le64(sb.log_start) + le64(sb.log_sectors) + le64(sb.high_water)
}

/// The sector image of a superblock: body, CRC-32 of the body, zeros.
pub open spec fn superblock_image(sb: Superblock) -> Seq<u8> {
    superblock_body(sb) + le32(crc32_spec(superblock_body(sb))) + Seq::new(468, |i: int| 0u8)
}

/// Whether `b` starts with a valid superblock: magic, version and CRC.
pub open spec fn superblock_valid(b: Seq<u8>) -> bool {
    &&& b.subrange(0, 4) == SB_MAGIC@
    &&& from_le16(b.subrange(4, 6)) == FORMAT_VERSION
    &&& crc32_spec(b.subrange(0, 40)) == from_le32(b.subrange(40, 44))
}

/// The superblock the bytes `b` describe.
pub open spec fn superblock_fields(b: Seq<u8>) -> Superblock {
    Superblock {
        generation: from_le64(b.subrange(8, 16)),
        log_start: from_le64(b.subrange(16, 24)),
        log_sectors: from_le64(b.subrange(24, 32)),
        high_water: from_le64(b.subrange(32, 40)),
        clean_shutdown: b[6] != 0,
    }
}

/// Serialize a superblock into one sector.
pub fn encode_superblock(sb: &Superblock) -> (r: Vec<u8>)
    ensures r@ == superblock_image(*sb),
{
    let mut out: Vec<u8> = Vec::new();
    push_bytes(&mut out, SB_MAGIC.as_slice());
    push_bytes(&mut out, u16_to_le(FORMAT_VERSION).as_slice());
    out.push(if sb.clean_shutdown { 1u8 } else { 0u8 });
    out.push(0u8);
    push_bytes(&mut out, u64_to_le(sb.generation).as_slice());
    push_bytes(&mut out, u64_to_le(sb.log_start).as_slice());
    push_bytes(&mut out, u64_to_le(sb.log_sectors).as_slice());
    push_bytes(&mut out, u64_to_le(sb.high_water).as_slice());
    assert(out@ =~= superblock_body(*sb));
    let crc = crc32(out.as_slice());
    push_bytes(&mut out, u32_to_le(crc).as_slice());
    let ghost with_crc = out@;
    let mut i: usize = 44;
    while i < SECTOR
        invariant 44 <= i <= SECTOR, out@.len() == i, out@.subrange(0, 44) == with_crc,
            forall|k: int| 44 <= k < i ==> out@[k] == 0u8,
        decreases SECTOR - i,
    {
        out.push(0u8);
        i += 1;
    }
    assert(out@ =~= superblock_image(*sb));
    out
}

/// Parse a superblock sector; none unless magic, version and CRC check.
pub fn decode_superblock(buf: &[u8]) -> (r: Option<Superblock>)
    requires buf@.len() >= 44,
    ensures
        r is Some <==> superblock_valid(buf@),
        r matches Some(sb) ==> sb == superblock_fields(buf@),
{
    let _n = buf.len();
    if !(buf[0] == SB_MAGIC[0] && buf[1] == SB_MAGIC[1] && buf[2] == SB_MAGIC[2] && buf[3] == SB_MAGIC[3]) {
        assert(buf@.subrange(0, 4) != SB_MAGIC@) by {
            if buf@.subrange(0, 4) == SB_MAGIC@ {
                assert(buf@.subrange(0, 4)[0] == buf@[0] && buf@.subrange(0, 4)[3] == buf@[3]);
                assert(buf@.subrange(0, 4)[1] == buf@[1] && buf@.subrange(0, 4)[2] == buf@[2]);
            }
        }
        return None;
    }
    assert(buf@.subrange(0, 4) =~= SB_MAGIC@);
    if read_le16(buf, 4) != FORMAT_VERSION {
        return None;
    }
    let stored = read_le32(buf, 40);
    let body = vstd::slice::slice_subrange(buf, 0, 40);
    if crc32(body) != stored {
        return None;
    }
    Some(Superblock {
        generation: read_le64(buf, 8),
        log_start: read_le64(buf, 16),
        log_sectors: read_le64(buf, 24),
        high_water: read_le64(buf, 32),
        clean_shutdown: buf[6] != 0,
    })
}

/// Decoding the image of a superblock gives it back.
pub proof fn law_superblock_roundtrip(sb: Superblock)
    ensures
        superblock_valid(superblock_image(sb)),
        superblock_fields(superblock_image(sb)) == sb,
{
    let img = superblock_image(sb);
    let body = superblock_body(sb);
    assert(img.subrange(0, 40) =~= body);
    assert(img.subrange(0, 4) =~= SB_MAGIC@);
    assert(img.subrange(4, 6) =~= le16(FORMAT_VERSION));
    assert(((1u16 >> 8u16) as u8) == 0u8 && (1u16 as u8) == 1u8) by (bit_vector);
    assert(le16(FORMAT_VERSION) =~= seq![1u8, 0u8]);
    assert((((0u8 as u16) << 8u16) | (1u8 as u16)) == 1u16) by (bit_vector);
    assert(img.subrange(40, 44) =~= le32(crc32_spec(body)));
    lemma_le32_roundtrip(crc32_spec(body));
    assert(img.subrange(8, 16) =~= le64(sb.generation));
    assert(img.subrange(16, 24) =~= le64(sb.log_start));
    assert(img.subrange(24, 32) =~= le64(sb.log_sectors));
    assert(img.subrange(32, 40) =~= le64(sb.high_water));
    lemma_le64_roundtrip(sb.generation);
    lemma_le64_roundtrip(sb.log_start);
    lemma_le64_roundtrip(sb.log_sectors);
    lemma_le64_roundtrip(sb.high_water);
}

// ---------------------------------------------------------------- record

/// Link bytes: each link's target SUID followed by its relationship code.
pub open spec fn links_bytes(links: Seq<ObjectLink>) -> Seq<u8>
    decreases links.len(),
{
    if links.len() == 0 {
        Seq::empty()
    } else {
        links_bytes(links.drop_last()) + suid_bytes(links.last().target) + seq![relation_code(links.last().relationship)]
    }
}

/// The 64-byte record header; `meta` fills bytes 32..52.
pub open spec fn record_header(op: u8, seq: u64, suid: SUID, meta: Seq<u8>, content_len: nat, link_count: nat) -> Seq<u8> {
    REC_MAGIC@ + le16(FORMAT_VERSION) + seq![op, FLAG_COMMITTED] + le64(seq) + suid_bytes(suid) + meta
        + le32(content_len as u32) + le32(link_count as u32) + seq![0u8, 0u8, 0u8, 0u8]
}

/// Header bytes 32..52 of an object record: tier, owner, content type, a
/// zero flag byte, creation and modification times.
pub open spec fn object_meta(o: SemanticObject) -> Seq<u8> {
    seq![tier_code(o.tier), o.owner, content_type_code(o.content_type), 0u8] + le64(o.created_at) + le64(o.modified_at)
}

/// The content bytes a record of `o` carries: the override if given, else
/// the object's bytes (none for embeddings and empty content).
pub open spec fn persisted_content(o: SemanticObject, ov: Option<Seq<u8>>) -> Seq<u8> {
    match ov {
        Some(b) => b,
        None => match o.content.bytes() {
            Some(b) => b,
            None => Seq::empty(),
        },
    }
}

/// Checksummed bytes of an object record.
pub open spec fn upsert_body(seq: u64, o: SemanticObject, content: Seq<u8>) -> Seq<u8> {
    record_header(OP_UPSERT, seq, o.suid, object_meta(o), content.len(), o.link_count as nat)
        + links_bytes(o.link_seq()) + content
}

/// Checksummed bytes of a tombstone record.
pub open spec fn tombstone_body(seq: u64, suid: SUID) -> Seq<u8> {
    record_header(OP_TOMBSTONE, seq, suid, Seq::new(20, |i: int| 0u8), 0, 0)
}

/// Zero bytes needed to fill the last sector of `n` bytes.
pub open spec fn sector_padding(n: nat) -> nat {
    if n % 512 == 0 { 0 } else { (512 - n % 512) as nat }
}

/// On-disk image of a record: body, CRC-32 of the body, zero padding to a
/// whole number of sectors.
pub open spec fn record_image(body: Seq<u8>) -> Seq<u8> {
    body + le32(crc32_spec(body)) + Seq::new(sector_padding(body.len() + 4), |i: int| 0u8)
}

/// The body of the record that `append_record` writes for these arguments.
pub open spec fn record_body(obj: Option<SemanticObject>, tombstone_suid: Option<SUID>, seq: u64,
    ov: Option<Seq<u8>>) -> Seq<u8>
{
    match obj {
        Some(o) => upsert_body(seq, o, persisted_content(o, ov)),
        None => tombstone_body(seq, match tombstone_suid { Some(s) => s, None => SUID { high: 0, low: 0 } }),
    }
}

pub open spec fn opt_object(o: Option<&SemanticObject>) -> Option<SemanticObject> {
    match o {
        Some(x) => Some(*x),
        None => None,
    }
}

pub open spec fn opt_bytes(b: Option<&[u8]>) -> Option<Seq<u8>> {
    match b {
        Some(x) => Some(x@),
        None => None,
    }
}

proof fn lemma_links_bytes_len(links: Seq<ObjectLink>)
    ensures links_bytes(links).len() == 17 * links.len(),
    decreases links.len(),
{
    if links.len() > 0 { lemma_links_bytes_len(links.drop_last()); }
}

proof fn lemma_image_len(body: Seq<u8>)
    ensures
        record_image(body).len() % 512 == 0,
        record_image(body).len() >= body.len() + 4,
        record_image(body).len() < body.len() + 4 + 512,
{
}

/// Serialize a record: an upsert of `obj` (its content, or
/// `content_override`), or, without an object, a tombstone for
/// `tombstone_suid`.
#[verifier::rlimit(50)]
#[verifier::spinoff_prover]
pub fn encode_record(obj: Option<&SemanticObject>, tombstone_suid: Option<SUID>, seq: u64,
    content_override: Option<&[u8]>) -> (r: Vec<u8>)
    requires
        obj matches Some(o) ==> o.wf()
            && persisted_content(*o, opt_bytes(content_override)).len() <= u32::MAX,
    ensures
        r@ == record_image(record_body(opt_object(obj), tombstone_suid, seq,
            opt_bytes(content_override))),
        r@.len() % 512 == 0,
{
    let empty: Vec<u8> = Vec::new();
    let mut out: Vec<u8> = Vec::new();
    push_bytes(&mut out, REC_MAGIC.as_slice());
    push_bytes(&mut out, u16_to_le(FORMAT_VERSION).as_slice());
    let ghost body: Seq<u8>;
    match obj {
        Some(o) => {
            let content: &[u8] = match content_override {
                Some(b) => b,
                None => match o.content.as_bytes() {
                    Some(b) => b,
                    None => empty.as_slice(),
                },
            };
            assert(content@ == persisted_content(*o, opt_bytes(content_override)));
            out.push(OP_UPSERT);
            out.push(FLAG_COMMITTED);
            push_bytes(&mut out, u64_to_le(seq).as_slice());
            push_bytes(&mut out, o.suid.to_bytes().as_slice());
            out.push(tier_to_u8(o.tier));
            out.push(o.owner);
            out.push(content_type_to_u8(o.content_type));
            out.push(0u8);
            push_bytes(&mut out, u64_to_le(o.created_at).as_slice());
            push_bytes(&mut out, u64_to_le(o.modified_at).as_slice());
            push_bytes(&mut out, u32_to_le(content.len() as u32).as_slice());
            push_bytes(&mut out, u32_to_le(o.link_count as u32).as_slice());
            push_bytes(&mut out, [0u8, 0u8, 0u8, 0u8].as_slice());
            let ghost hdr = out@;
            assert(hdr =~= record_header(OP_UPSERT, seq, o.suid, object_meta(*o), content@.len(), o.link_count as nat));
            let links = o.get_links();
            let mut i: usize = 0;
            while i < links.len()
                invariant
                    o.wf(), i <= links@.len(), links@ == o.links@.subrange(0, o.link_count as int),
                    out@ == hdr + links_bytes(o.link_seq().subrange(0, i as int)),
                decreases links@.len() - i,
            {
                assert(o.link_seq().subrange(0, i as int + 1).drop_last() =~= o.link_seq().subrange(0, i as int));
                match &links[i] {
                    Some(l) => {
                        push_bytes(&mut out, l.target.to_bytes().as_slice());
                        out.push(relation_to_u8(l.relationship));
                        assert(o.link_seq()[i as int] == *l);
                    }
                    None => {
                        assert(o.links@[i as int] is Some);
                    }
                }
                i += 1;
            }
            assert(o.link_seq().subrange(0, links@.len() as int) =~= o.link_seq());
            push_bytes(&mut out, content);
            proof {
                body = upsert_body(seq, *o, content@);
                assert(out@ =~= body);
            }
        }
        None => {
            let suid = match tombstone_suid {
                Some(s) => s,
                None => SUID { high: 0, low: 0 },
            };
            out.push(OP_TOMBSTONE);
            out.push(FLAG_COMMITTED);
            push_bytes(&mut out, u64_to_le(seq).as_slice());
            push_bytes(&mut out, suid.to_bytes().as_slice());
            let zeros = [0u8; 20];
            assert(zeros@ =~= Seq::new(20, |i: int| 0u8));
            push_bytes(&mut out, zeros.as_slice());
            push_bytes(&mut out, u32_to_le(0u32).as_slice());
            push_bytes(&mut out, u32_to_le(0u32).as_slice());
            push_bytes(&mut out, [0u8, 0u8, 0u8, 0u8].as_slice());
            proof {
                body = tombstone_body(seq, suid);
                assert(out@ =~= body);
            }
        }
    }
    assert(out@ =~= body);
    let crc = crc32(out.as_slice());
    push_bytes(&mut out, u32_to_le(crc).as_slice());
    let ghost with_crc = out@;
    let rem = out.len() % SECTOR;
    let pad: usize = if rem == 0 { 0 } else { SECTOR - rem };
    assert(pad == sector_padding(body.len() + 4));
    let mut k: usize = 0;
    while k < pad
        invariant k <= pad, pad < 512, out@.len() == with_crc.len() + k,
            out@.subrange(0, with_crc.len() as int) == with_crc,
            forall|j: int| with_crc.len() <= j < out@.len() ==> out@[j] == 0u8,
        decreases pad - k,
    {
        out.push(0u8);
        k += 1;
    }
    assert(out@ =~= record_image(body));
    out
}

/// Number of sectors the record for these arguments occupies.
pub open spec fn record_sectors(obj: Option<SemanticObject>, tombstone_suid: Option<SUID>, seq: u64,
    ov: Option<Seq<u8>>) -> int
{
    (record_image(record_body(obj, tombstone_suid, seq, ov)).len() / 512) as int
}

proof fn lemma_links_bytes_at(ls: Seq<ObjectLink>, i: int)
    requires 0 <= i < ls.len(),
    ensures
        links_bytes(ls).len() == 17 * ls.len(),
        links_bytes(ls).subrange(17 * i, 17 * i + 16) == suid_bytes(ls[i].target),
        links_bytes(ls)[17 * i + 16] == relation_code(ls[i].relationship),
    decreases ls.len(),
{
    lemma_links_bytes_len(ls);
    let pre = links_bytes(ls.drop_last());
    lemma_links_bytes_len(ls.drop_last());
    let lb = links_bytes(ls);
    assert(lb == pre + suid_bytes(ls.last().target) + seq![relation_code(ls.last().relationship)]);
    if i == ls.len() - 1 {
        assert(lb.subrange(17 * i, 17 * i + 16) =~= suid_bytes(ls[i].target));
    } else {
        lemma_links_bytes_at(ls.drop_last(), i);
        assert(lb.subrange(17 * i, 17 * i + 16) =~= pre.subrange(17 * i, 17 * i + 16));
        assert(lb[17 * i + 16] == pre[17 * i + 16]);
    }
}

proof fn lemma_header_fields(seq: u64, o: SemanticObject, clen: nat, lc: nat)
    requires clen <= u32::MAX, lc <= u32::MAX,
    ensures ({
        let hdr = record_header(OP_UPSERT, seq, o.suid, object_meta(o), clen, lc);
        &&& hdr.len() == 64
        &&& hdr.subrange(0, 4) == REC_MAGIC@
        &&& hdr[6] == OP_UPSERT
        &&& from_le64(hdr.subrange(8, 16)) == seq
        &&& (SUID { high: from_be64(hdr.subrange(16, 24)), low: from_be64(hdr.subrange(24, 32)) }) == o.suid
        &&& tier_of(hdr[32]) == o.tier
        &&& hdr[33] == o.owner
        &&& content_type_of(hdr[34]) == o.content_type
        &&& from_le64(hdr.subrange(36, 44)) == o.created_at
        &&& from_le64(hdr.subrange(44, 52)) == o.modified_at
        &&& from_le32(hdr.subrange(52, 56)) == clen
        &&& from_le32(hdr.subrange(56, 60)) == lc
    }),
{
    let hdr = record_header(OP_UPSERT, seq, o.suid, object_meta(o), clen, lc);
    assert(hdr.subrange(0, 4) =~= REC_MAGIC@);
    assert(hdr.subrange(8, 16) =~= le64(seq));
    lemma_le64_roundtrip(seq);
    assert(hdr.subrange(16, 24) =~= be64(o.suid.high));
    assert(hdr.subrange(24, 32) =~= be64(o.suid.low));
    crate::bytes::lemma_be64_roundtrip(o.suid.high);
    crate::bytes::lemma_be64_roundtrip(o.suid.low);
    assert(hdr.subrange(36, 44) =~= le64(o.created_at));
    assert(hdr.subrange(44, 52) =~= le64(o.modified_at));
    lemma_le64_roundtrip(o.created_at);
    lemma_le64_roundtrip(o.modified_at);
    assert(hdr.subrange(52, 56) =~= le32(clen as u32));
    assert(hdr.subrange(56, 60) =~= le32(lc as u32));
    lemma_le32_roundtrip(clen as u32);
    lemma_le32_roundtrip(lc as u32);
}

proof fn lemma_links_decode(img: Seq<u8>, ls: Seq<ObjectLink>)
    requires img.len() >= 64 + 17 * ls.len(), img.subrange(64, 64 + 17 * ls.len() as int) == links_bytes(ls),
    ensures decoded_links(img, ls.len()) == ls,
{
    lemma_links_bytes_len(ls);
    let lb = links_bytes(ls);
    assert forall|i: int| 0 <= i < ls.len() implies #[trigger] decoded_link(img, i) == ls[i] by {
        lemma_links_bytes_at(ls, i);
        let p = 64 + 17 * i;
        assert(img.subrange(p, p + 8) =~= lb.subrange(17 * i, 17 * i + 16).subrange(0, 8));
        assert(img.subrange(p + 8, p + 16) =~= lb.subrange(17 * i, 17 * i + 16).subrange(8, 16));
        assert(suid_bytes(ls[i].target).subrange(0, 8) =~= be64(ls[i].target.high));
        assert(suid_bytes(ls[i].target).subrange(8, 16) =~= be64(ls[i].target.low));
        crate::bytes::lemma_be64_roundtrip(ls[i].target.high);
        crate::bytes::lemma_be64_roundtrip(ls[i].target.low);
        assert(img[p + 16] == img.subrange(64, 64 + 17 * ls.len() as int)[17 * i + 16]);
        assert(relation_of(relation_code(ls[i].relationship)) == ls[i].relationship);
    }
    assert(decoded_links(img, ls.len()) =~= ls);
}

proof fn lemma_image_tail(body: Seq<u8>)
    ensures ({
        let img = record_image(body);
        let off = body.len() as int;
        &&& img.subrange(0, off) == body
        &&& crc32_spec(img.subrange(0, off)) == from_le32(img.subrange(off, off + 4))
        &&& img.len() == ((off + 4 + 511) / 512) * 512
    }),
{
    let img = record_image(body);
    let off = body.len() as int;
    assert(img.subrange(0, off) =~= body);
    assert(img.subrange(off, off + 4) =~= le32(crc32_spec(body)));
    lemma_le32_roundtrip(crc32_spec(body));
    let n = off + 4;
    assert(((n + 511) / 512) * 512 == n + sector_padding(n as nat)) by (nonlinear_arith)
        requires n >= 0;
}

/// The image of an upsert record replays to the object it was written
/// from: mount finds the record magic, the operation, the sequence number,
/// the object's identity, metadata and links, its content, and a matching
/// CRC, where `decode_object` reads them.
#[verifier::rlimit(60)]
#[verifier::spinoff_prover]
pub proof fn law_upsert_record_roundtrip(seq: u64, o: SemanticObject, content: Seq<u8>)
    requires o.wf(), content.len() <= u32::MAX,
    ensures ({
        let body = upsert_body(seq, o, content);
        let img = record_image(body);
        let lc = o.link_count as int;
        let off = 64 + 17 * lc + content.len();
        &&& body.len() == off
        &&& img.subrange(0, 4) == REC_MAGIC@
        &&& img[6] == OP_UPSERT
        &&& from_le64(img.subrange(8, 16)) == seq
        &&& (SUID { high: from_be64(img.subrange(16, 24)), low: from_be64(img.subrange(24, 32)) }) == o.suid
        &&& tier_of(img[32]) == o.tier
        &&& img[33] == o.owner
        &&& content_type_of(img[34]) == o.content_type
        &&& from_le64(img.subrange(36, 44)) == o.created_at
        &&& from_le64(img.subrange(44, 52)) == o.modified_at
        &&& from_le32(img.subrange(52, 56)) == content.len()
        &&& from_le32(img.subrange(56, 60)) == o.link_count
        &&& decoded_links(img, o.link_count as nat) == o.link_seq()
        &&& img.subrange(64 + 17 * lc, off) == content
        &&& crc32_spec(img.subrange(0, off)) == from_le32(img.subrange(off, off + 4))
        &&& img.len() == ((off + 4 + 511) / 512) * 512
    }),
{
    let body = upsert_body(seq, o, content);
    let img = record_image(body);
    let lc = o.link_count as int;
    let ls = o.link_seq();
    lemma_links_bytes_len(ls);
    let hdr = record_header(OP_UPSERT, seq, o.suid, object_meta(o), content.len(), o.link_count as nat);
    lemma_header_fields(seq, o, content.len(), o.link_count as nat);
    let off = 64 + 17 * lc + content.len();
    lemma_image_tail(body);
    assert(img.subrange(0, 64) =~= hdr);
    assert(img.subrange(0, 4) =~= hdr.subrange(0, 4));
    assert(img.subrange(8, 16) =~= hdr.subrange(8, 16));
    assert(img.subrange(16, 24) =~= hdr.subrange(16, 24));
    assert(img.subrange(24, 32) =~= hdr.subrange(24, 32));
    assert(img.subrange(36, 44) =~= hdr.subrange(36, 44));
    assert(img.subrange(44, 52) =~= hdr.subrange(44, 52));
    assert(img.subrange(52, 56) =~= hdr.subrange(52, 56));
    assert(img.subrange(56, 60) =~= hdr.subrange(56, 60));
    assert(img[6] == hdr[6] && img[32] == hdr[32] && img[33] == hdr[33] && img[34] == hdr[34]);
    let lb = links_bytes(ls);
    assert(body == hdr + lb + content);
    assert(body.subrange(64, 64 + 17 * lc) =~= lb);
    assert(img.subrange(64, 64 + 17 * lc) =~= body.subrange(64, 64 + 17 * lc));
    lemma_links_decode(img, ls);
    assert(img.subrange(64 + 17 * lc, off) =~= content);
}

// ---------------------------------------------------------------- journal

/// A mounted journal.
pub struct Journal<D: BlockDevice> {
    pub dev: D,
    /// First sector of the log region.
    pub log_start: u64,
    /// Sectors in the log region.
    pub log_sectors: u64,
    /// Next free sector for appends.
    pub head: u64,
    /// Next commit sequence number.
    pub next_seq: u64,
    pub policy: CommitPolicy,
    /// Set while the log is being replayed: mutations are not journaled.
    pub replaying: bool,
    /// Set once mounted; the hooks do nothing before.
    pub enabled: bool,
    /// Every operation the journal has handed to its device, in order.
    pub log: Ghost<Seq<DevOp>>,
}

/// Sector `i` of a whole-sector image.
pub open spec fn sector_of(img: Seq<u8>, i: int) -> Seq<u8> {
    img.subrange(512 * i, 512 * i + 512)
}

/// The first `k` sectors of `img` written from sector `lba` on, each
/// successfully.
pub open spec fn sector_writes(lba: u64, img: Seq<u8>, k: int) -> Seq<DevOp> {
    Seq::new(k as nat, |i: int| DevOp::Write { lba: (lba + i) as u64, data: sector_of(img, i), ok: true })
}

/// The device log `new` is `old` after writing `img` from sector `lba` on,
/// one sector at a time in order: every sector written when `ok`, otherwise
/// the writes up to the first that failed.
pub open spec fn image_written(old: Seq<DevOp>, new: Seq<DevOp>, lba: u64, img: Seq<u8>, ok: bool) -> bool {
    if ok {
        new == old + sector_writes(lba, img, (img.len() / 512) as int)
    } else {
        exists|k: int| #![trigger sector_writes(lba, img, k)] 0 <= k < img.len() / 512
            && new == (old + sector_writes(lba, img, k)).push(
                DevOp::Write { lba: (lba + k) as u64, data: sector_of(img, k), ok: false })
    }
}

/// Write a whole-sector `image` to consecutive sectors from `lba`; the
/// number of sectors written, or the first write error.
fn write_sectors<D: BlockDevice>(dev: &D, log: &mut Ghost<Seq<DevOp>>, lba: u64, image: &[u8])
    -> (r: Result<u64, ()>)
    requires image@.len() % 512 == 0, lba + image@.len() / 512 <= u64::MAX,
    ensures
        r matches Ok(n) ==> n == image@.len() / 512,
        image_written(old(log)@, final(log)@, lba, image@, (r is Ok)),
{
    let len = image.len();
    let n = len / SECTOR;
    let mut k: usize = 0;
    let ghost log0 = log@;
    while k < n
        invariant k <= n, n == image@.len() / 512, image@.len() % 512 == 0, lba + n <= u64::MAX,
            len == image@.len(), log@ == log0 + sector_writes(lba, image@, k as int), log0 == old(log)@,
        decreases n - k,
    {
        assert((k + 1) * 512 <= image@.len()) by (nonlinear_arith)
            requires k < n, n == image@.len() / 512, image@.len() % 512 == 0;
        let sec = vstd::slice::slice_subrange(image, k * SECTOR, k * SECTOR + SECTOR);
        let ghost before = log@;
        match traced_write(dev, log, lba + k as u64, sec) {
            Ok(()) => {
                assert(log@ =~= log0 + sector_writes(lba, image@, k + 1));
            }
            Err(_) => {
                let ghost done = sector_writes(lba, image@, k as int);
                return Err(());
            }
        }
        k += 1;
    }
    Ok(n as u64)
}

impl<D: BlockDevice> Journal<D> {
    /// Whether mutations are journaled now.
    pub open spec fn active(&self) -> bool {
        self.enabled && !self.replaying
    }

    /// `new` is `self` after it tried to append the record of these
    /// arguments at its head, `ok` whether the device took every sector: the
    /// record image written sector by sector in order (up to the first
    /// failed write), and on success the head moved past it and the
    /// sequence number advanced.
    pub open spec fn appended(&self, new: Self, obj: Option<SemanticObject>, tombstone_suid: Option<SUID>,
        ov: Option<Seq<u8>>, ok: bool) -> bool
    {
        let img = record_image(record_body(obj, tombstone_suid, self.next_seq, ov));
        &&& image_written(self.log@, new.log@, self.head, img, ok)
        &&& ok ==> new == Journal { head: (self.head + img.len() / 512) as u64,
            next_seq: (self.next_seq + 1) as u64, log: new.log, ..*self }
        &&& !ok ==> new == Journal { log: new.log, ..*self }
    }

    /// Whether one more record of these arguments fits the counters.
    pub open spec fn room_for(&self, obj: Option<SemanticObject>, tombstone_suid: Option<SUID>,
        ov: Option<Seq<u8>>) -> bool
    {
        self.active() ==> self.head + record_sectors(obj, tombstone_suid, self.next_seq, ov) <= u64::MAX
            && self.next_seq < u64::MAX
    }

    /// Serialize a record and write it at the head; the sectors written.
    pub fn append_record(&mut self, obj: Option<&SemanticObject>, tombstone_suid: Option<SUID>, seq: u64,
        content_override: Option<&[u8]>) -> (r: Result<u64, ()>)
        requires
            obj matches Some(o) ==> o.wf() && persisted_content(*o, opt_bytes(content_override)).len() <= u32::MAX,
            old(self).head + record_sectors(opt_object(obj), tombstone_suid, seq, opt_bytes(content_override))
                <= u64::MAX,
        ensures
            r matches Ok(n) ==> n == record_sectors(opt_object(obj), tombstone_suid, seq, opt_bytes(content_override)),
            *final(self) == (Journal { log: final(self).log, ..*old(self) }),
            image_written(old(self).log@, final(self).log@, old(self).head,
                record_image(record_body(opt_object(obj), tombstone_suid, seq, opt_bytes(content_override))), (r is Ok)),
    {
        let image = encode_record(obj, tombstone_suid, seq, content_override);
        write_sectors(&self.dev, &mut self.log, self.head, image.as_slice())
    }

    /// Journal `record` at the head when active; whether the mutation may go on.
    fn commit(&mut self, obj: Option<&SemanticObject>, tombstone_suid: Option<SUID>,
        content_override: Option<&[u8]>) -> (r: bool)
        requires
            obj matches Some(o) ==> o.wf() && persisted_content(*o, opt_bytes(content_override)).len() <= u32::MAX,
            old(self).room_for(opt_object(obj), tombstone_suid, opt_bytes(content_override)),
        ensures
            !old(self).active() ==> r && *final(self) == *old(self),
            old(self).active() ==> old(self).appended(*final(self), opt_object(obj), tombstone_suid,
                opt_bytes(content_override), r),
    {
        if !(self.enabled && !self.replaying) {
            return true;
        }
        let seq = self.next_seq;
        match self.append_record(obj, tombstone_suid, seq, content_override) {
            Ok(sectors) => {
                self.head = self.head + sectors;
                self.next_seq = self.next_seq + 1;
                true
            }
            Err(()) => false,
        }
    }

    /// Registry-insert hook: journal an upsert of `obj` before it becomes
    /// visible. False means the disk write failed and the insert must not
    /// happen.
    pub fn on_insert(&mut self, obj: &SemanticObject) -> (r: bool)
        requires
            obj.wf(), persisted_content(*obj, None).len() <= u32::MAX,
            old(self).room_for(Some(*obj), None, None),
        ensures
            !old(self).active() ==> r && *final(self) == *old(self),
            old(self).active() ==> old(self).appended(*final(self), Some(*obj), None, None, r),
    {
        self.commit(Some(obj), None, None)
    }

    /// Registry-remove hook: journal a tombstone for `suid`.
    pub fn on_remove(&mut self, suid: &SUID) -> (r: bool)
        requires old(self).room_for(None, Some(*suid), None),
        ensures
            !old(self).active() ==> r && *final(self) == *old(self),
            old(self).active() ==> old(self).appended(*final(self), None, Some(*suid), None, r),
    {
        self.commit(None, Some(*suid), None)
    }

    /// Content-update hook: journal `obj` with `new_content` before the
    /// caller stores the new content.
    pub fn on_update(&mut self, obj: &SemanticObject, new_content: &[u8]) -> (r: bool)
        requires
            obj.wf(), new_content@.len() <= u32::MAX,
            old(self).room_for(Some(*obj), None, Some(new_content@)),
        ensures
            !old(self).active() ==> r && *final(self) == *old(self),
            old(self).active() ==> old(self).appended(*final(self), Some(*obj), None, Some(new_content@), r),
    {
        self.commit(Some(obj), None, Some(new_content))
    }

    /// Whether the journal is mounted.
    pub fn is_mounted(&self) -> (r: bool)
        ensures r == self.enabled,
    {
        self.enabled
    }
}

/// Insert into the registry, journaling first: nothing happens unless the
/// SUID is new, a slot is free and the journal accepted the record.
pub fn journaled_insert<D: BlockDevice>(reg: &mut ObjectRegistry, journal: &mut Journal<D>, object: SemanticObject)
    -> (r: bool)
    requires
        old(reg).wf(), object.wf(), persisted_content(object, None).len() <= u32::MAX,
        old(journal).room_for(Some(object), None, None),
    ensures
        final(reg).wf(),
        r ==> final(reg)@ == old(reg)@.insert(object.suid, object),
        !r ==> final(reg)@ == old(reg)@,
        (old(reg)@.dom().contains(object.suid) || old(reg).is_full()) ==> !r && *final(journal) == *old(journal),
        !old(reg)@.dom().contains(object.suid) && !old(reg).is_full() && !old(journal).active()
            ==> r && *final(journal) == *old(journal),
        !old(reg)@.dom().contains(object.suid) && !old(reg).is_full() && old(journal).active()
            ==> old(journal).appended(*final(journal), Some(object), None, None, r),
{
    if reg.contains(&object.suid) || !reg.has_free_slot() {
        return false;
    }
    if !journal.on_insert(&object) {
        return false;
    }
    reg.insert(object)
}

/// Remove from the registry, journaling a tombstone first: nothing happens
/// unless the SUID is present and the journal accepted the record.
pub fn journaled_remove<D: BlockDevice>(reg: &mut ObjectRegistry, journal: &mut Journal<D>, suid: &SUID)
    -> (r: Option<SemanticObject>)
    requires old(reg).wf(), old(journal).room_for(None, Some(*suid), None),
    ensures
        final(reg).wf(),
        r matches Some(o) ==> o == old(reg)@[*suid] && final(reg)@ == old(reg)@.remove(*suid),
        r is None ==> final(reg)@ == old(reg)@,
        !old(reg)@.dom().contains(*suid) ==> r is None && *final(journal) == *old(journal),
        old(reg)@.dom().contains(*suid) && !old(journal).active() ==> r is Some && *final(journal) == *old(journal),
        old(reg)@.dom().contains(*suid) && old(journal).active()
            ==> old(journal).appended(*final(journal), None, Some(*suid), None, (r is Some)),
{
    if !reg.contains(suid) {
        return None;
    }
    if !journal.on_remove(suid) {
        return None;
    }
    reg.remove(suid)
}

// ---------------------------------------------------------------- replay

/// Link `i` as laid out in a record image.
pub open spec fn decoded_link(b: Seq<u8>, i: int) -> ObjectLink {
    let off = 64 + 17 * i;
    ObjectLink {
        target: SUID { high: from_be64(b.subrange(off, off + 8)), low: from_be64(b.subrange(off + 8, off + 16)) },
        relationship: relation_of(b[off + 16]),
    }
}

/// The first `n` links of a record image.
pub open spec fn decoded_links(b: Seq<u8>, n: nat) -> Seq<ObjectLink> {
    Seq::new(n, |i: int| decoded_link(b, i))
}

/// `r` is the object an upsert record with first sector `sec`, image `buf`,
/// `link_count` links and `content_len` content bytes describes.
pub open spec fn object_decoded(sec: Seq<u8>, buf: Seq<u8>, link_count: int, content_len: int, r: SemanticObject)
    -> bool
{
    &&& r.wf()
    &&& r.suid == (SUID { high: from_be64(sec.subrange(16, 24)), low: from_be64(sec.subrange(24, 32)) })
    &&& r.tier == tier_of(sec[32]) && r.owner == sec[33] && r.content_type == content_type_of(sec[34])
    &&& r.created_at == from_le64(sec.subrange(36, 44)) && r.modified_at == from_le64(sec.subrange(44, 52))
    &&& r.flags.bits == 0 && r.capabilities.bits == 0
    &&& r.link_seq() == decoded_links(buf, link_count as nat)
    &&& (content_len == 0 || content_len > MAX_FILE_CONTENT ==> r.content is Empty)
    &&& (0 < content_len <= MAX_FILE_CONTENT ==> r.content.bytes()
            == Some(buf.subrange(64 + 17 * link_count, 64 + 17 * link_count + content_len)))
}

/// Rebuild the object of an upsert record from its first sector `sec` and
/// its whole image `buf`. Content longer than a file may hold, and empty
/// content, come back as no content.
pub fn decode_object(sec: &[u8], buf: &[u8], link_count: usize, content_len: usize) -> (r: SemanticObject)
    requires sec@.len() >= 64, link_count <= MAX_LINKS, 64 + 17 * link_count + content_len <= buf@.len(),
    ensures object_decoded(sec@, buf@, link_count as int, content_len as int, r),
{
    let _n = sec.len();
    let _m = buf.len();
    let id: [u8; 16] = crate::bytes::to_array(sec, 16);
    let suid = SUID::from_bytes(&id);
    assert(id@.subrange(0, 8) =~= sec@.subrange(16, 24));
    assert(id@.subrange(8, 16) =~= sec@.subrange(24, 32));
    let mut obj = SemanticObject::new(suid, tier_from_u8(sec[32]), sec[33]);
    let mut i: usize = 0;
    while i < link_count
        invariant
            i <= link_count, link_count <= MAX_LINKS, 64 + 17 * link_count + content_len <= buf@.len(),
            obj.wf(), obj.link_count == i, obj.link_seq() == decoded_links(buf@, i as nat),
            obj.suid == suid, obj.tier == tier_of(sec@[32]), obj.owner == sec@[33],
            obj.flags.bits == 0, obj.capabilities.bits == 0, obj.content is Empty,
        decreases link_count - i,
    {
        let off = HEADER_LEN + i * LINK_LEN;
        let t: [u8; 16] = crate::bytes::to_array(buf, off);
        let target = SUID::from_bytes(&t);
        assert(t@.subrange(0, 8) =~= buf@.subrange(off as int, off + 8));
        assert(t@.subrange(8, 16) =~= buf@.subrange(off + 8, off + 16));
        let rel = relation_from_u8(buf[off + 16]);
        let ok = obj.add_link(target, rel);
        assert(ok);
        assert(obj.link_seq() =~= decoded_links(buf@, (i + 1) as nat));
        i += 1;
    }
    obj.content_type = content_type_from_u8(sec[34]);
    obj.created_at = read_le64(sec, 36);
    obj.modified_at = read_le64(sec, 44);
    let content_off = HEADER_LEN + link_count * LINK_LEN;
    if content_len != 0 {
        let content = vstd::slice::slice_subrange(buf, content_off, content_off + content_len);
        obj.content = match ObjectContent::from_bytes(content) {
            Some(c) => c,
            None => ObjectContent::Empty,
        };
    }
    obj
}

/// Apply a replayed upsert: drop any older state of the object, then
/// store it (which only fails when it is new and the registry is full).
pub fn replay_upsert(reg: &mut ObjectRegistry, obj: SemanticObject)
    requires old(reg).wf(),
    ensures
        final(reg).wf(),
        final(reg)@ == (if old(reg)@.dom().contains(obj.suid) || !old(reg).is_full() {
            old(reg)@.insert(obj.suid, obj)
        } else {
            old(reg)@
        }),
{
    let suid = obj.suid;
    let gone = reg.remove(&suid);
    let ghost mid = reg@;
    let ok = reg.insert(obj);
    proof {
        if gone is Some {
            assert(mid.insert(suid, obj) =~= old(reg)@.insert(suid, obj));
        }
    }
}

/// Apply a replayed tombstone.
pub fn replay_tombstone(reg: &mut ObjectRegistry, suid: &SUID)
    requires old(reg).wf(),
    ensures final(reg).wf(), final(reg)@ == old(reg)@.remove(*suid),
{
    let gone = reg.remove(suid);
    proof {
        if gone is None {
            assert(old(reg)@.remove(*suid) =~= old(reg)@);
        }
    }
}

/// Result of a mount attempt.
pub enum MountOutcome {
    /// The log was replayed; `records` were applied. `torn` is set when
    /// replay stopped at a damaged or partial record rather than at a
    /// zeroed tail.
    Mounted { records: usize, torn: bool },
    /// No valid superblock: the region was formatted empty.
    Formatted,
    /// The device failed while probing or formatting.
    Unavailable,
}

/// Whether every byte of `b` is zero.
fn all_zero(b: &[u8]) -> (r: bool)
    ensures r == forall|k: int| 0 <= k < b@.len() ==> b@[k] == 0u8,
{
    let mut i: usize = 0;
    while i < b.len()
        invariant i <= b@.len(), forall|k: int| 0 <= k < i ==> b@[k] == 0u8,
        decreases b@.len() - i,
    {
        if b[i] != 0 {
            return false;
        }
        i += 1;
    }
    true
}

/// The superblock sector `b` holds, if it is valid.
pub open spec fn decoded_superblock(b: Seq<u8>) -> Option<Superblock> {
    if superblock_valid(b) { Some(superblock_fields(b)) } else { None }
}

/// The superblock mount goes by, from its two copies: the valid one with the
/// higher generation (the first on a tie); none if neither is valid.
pub open spec fn chosen_superblock(s0: Seq<u8>, s1: Seq<u8>) -> Option<Superblock> {
    match decoded_superblock(s0) {
        None => decoded_superblock(s1),
        Some(a) => match decoded_superblock(s1) {
            Some(b) => if b.generation > a.generation { Some(b) } else { Some(a) },
            None => Some(a),
        },
    }
}

/// Pick the superblock from the two copies read at mount.
pub fn choose_superblock(s0: &[u8], s1: &[u8]) -> (r: Option<Superblock>)
    requires s0@.len() == SECTOR, s1@.len() == SECTOR,
    ensures r == chosen_superblock(s0@, s1@),
{
    let a = decode_superblock(s0);
    let b = decode_superblock(s1);
    match a {
        None => b,
        Some(x) => match b {
            Some(y) => if y.generation > x.generation { Some(y) } else { Some(x) },
            None => Some(x),
        },
    }
}

/// What the first sector of a log record says.
pub enum RecordHead {
    /// A zeroed sector: the log ends here.
    End,
    /// Damage: a bad magic over nonzero bytes, too many links, or a record
    /// running past the log.
    Torn,
    /// A record too large to hold in memory: replay stops here.
    Stop,
    /// A record of `sectors` sectors with these links and content bytes.
    Record { sectors: u64, link_count: usize, content_len: usize },
}

/// Sectors of a record with `link_count` links and `content_len` content bytes.
pub open spec fn record_span(link_count: int, content_len: int) -> int {
    (64 + 17 * link_count + content_len + 4 + 511) / 512
}

/// What `record_head` makes of a first sector `sec` with `room` sectors
/// left in the log.
pub open spec fn record_head_spec(sec: Seq<u8>, room: u64) -> RecordHead {
    let cl = from_le32(sec.subrange(52, 56));
    let lc = from_le32(sec.subrange(56, 60));
    if sec.subrange(0, 4) != REC_MAGIC@ {
        if forall|k: int| 0 <= k < sec.len() ==> sec[k] == 0u8 { RecordHead::End } else { RecordHead::Torn }
    } else if lc > MAX_LINKS {
        RecordHead::Torn
    } else if record_span(lc as int, cl as int) > room {
        RecordHead::Torn
    } else if record_span(lc as int, cl as int) > usize::MAX / 512 {
        RecordHead::Stop
    } else {
        RecordHead::Record { sectors: record_span(lc as int, cl as int) as u64, link_count: lc as usize,
            content_len: cl as usize }
    }
}

/// Read the first sector of a log record.
pub fn record_head(sec: &[u8], room: u64) -> (r: RecordHead)
    requires sec@.len() == SECTOR,
    ensures r == record_head_spec(sec@, room),
{
    let magic = vstd::slice::slice_subrange(sec, 0, 4);
    if !(sec[0] == REC_MAGIC[0] && sec[1] == REC_MAGIC[1] && sec[2] == REC_MAGIC[2] && sec[3] == REC_MAGIC[3]) {
        assert(sec@.subrange(0, 4) != REC_MAGIC@) by {
            if sec@.subrange(0, 4) == REC_MAGIC@ {
                assert(magic@[0] == REC_MAGIC@[0] && magic@[1] == REC_MAGIC@[1]
                    && magic@[2] == REC_MAGIC@[2] && magic@[3] == REC_MAGIC@[3]);
            }
        }
        if all_zero(sec) {
            return RecordHead::End;
        }
        return RecordHead::Torn;
    }
    assert(sec@.subrange(0, 4) =~= REC_MAGIC@);
    let content_len = read_le32(sec, 52) as usize;
    let link_count = read_le32(sec, 56) as usize;
    if link_count > MAX_LINKS {
        return RecordHead::Torn;
    }
    let total: u64 = (HEADER_LEN + link_count * LINK_LEN) as u64 + content_len as u64 + 4;
    let sectors: u64 = (total + 511) / 512;
    if sectors > room {
        return RecordHead::Torn;
    }
    if sectors > (usize::MAX / SECTOR) as u64 {
        return RecordHead::Stop;
    }
    RecordHead::Record { sectors, link_count, content_len }
}

/// What the whole image of a log record says.
pub enum RecordBody {
    /// The CRC does not match, or the operation is unknown.
    Torn,
    /// Store `obj`; the record's sequence number is `seq`.
    Upsert { obj: SemanticObject, seq: u64 },
    /// Remove `suid`; the record's sequence number is `seq`.
    Tombstone { suid: SUID, seq: u64 },
}

/// Offset of the CRC of a record with these links and content bytes.
pub open spec fn crc_offset(link_count: int, content_len: int) -> int {
    64 + 17 * link_count + content_len
}

/// Whether the record image `buf` carries the right CRC.
pub open spec fn record_crc_ok(buf: Seq<u8>, link_count: int, content_len: int) -> bool {
    let off = crc_offset(link_count, content_len);
    crc32_spec(buf.subrange(0, off)) == from_le32(buf.subrange(off, off + 4))
}

/// Check and decode a whole record image `buf` whose first sector is `sec`.
pub fn scan_record(sec: &[u8], buf: &[u8], link_count: usize, content_len: usize) -> (r: RecordBody)
    requires
        sec@.len() == SECTOR, link_count <= MAX_LINKS,
        crc_offset(link_count as int, content_len as int) + 4 <= buf@.len(),
    ensures
        !record_crc_ok(buf@, link_count as int, content_len as int) ==> r is Torn,
        record_crc_ok(buf@, link_count as int, content_len as int) && sec@[6] != OP_UPSERT
            && sec@[6] != OP_TOMBSTONE ==> r is Torn,
        record_crc_ok(buf@, link_count as int, content_len as int) && sec@[6] == OP_UPSERT
            ==> (r matches RecordBody::Upsert { obj, seq } && seq == from_le64(sec@.subrange(8, 16))
                && object_decoded(sec@, buf@, link_count as int, content_len as int, obj)),
        record_crc_ok(buf@, link_count as int, content_len as int) && sec@[6] == OP_TOMBSTONE
            ==> (r matches RecordBody::Tombstone { suid, seq } && seq == from_le64(sec@.subrange(8, 16))
                && suid == (SUID { high: from_be64(sec@.subrange(16, 24)), low: from_be64(sec@.subrange(24, 32)) })),
{
    let _blen = buf.len();
    let crc_off: usize = HEADER_LEN + link_count * LINK_LEN + content_len;
    let stored = read_le32(buf, crc_off);
    if crc32(vstd::slice::slice_subrange(buf, 0, crc_off)) != stored {
        return RecordBody::Torn;
    }
    let op = sec[6];
    let seq = read_le64(sec, 8);
    if op == OP_UPSERT {
        let obj = decode_object(sec, buf, link_count, content_len);
        RecordBody::Upsert { obj, seq }
    } else if op == OP_TOMBSTONE {
        let id: [u8; 16] = crate::bytes::to_array(sec, 16);
        let suid = SUID::from_bytes(&id);
        assert(id@.subrange(0, 8) =~= sec@.subrange(16, 24));
        assert(id@.subrange(8, 16) =~= sec@.subrange(24, 32));
        RecordBody::Tombstone { suid, seq }
    } else {
        RecordBody::Torn
    }
}

/// A record applied at mount.
pub ghost enum Replayed {
    Upsert(SemanticObject),
    Tombstone(SUID),
}

/// The log scan that the device operations `t` record, from sector `head`
/// of a log ending at `log_end`, and the records `recs` it applied in order.
/// Each record's first sector is read, judged by `record_head_spec`, then
/// the whole record is read and judged by its CRC and operation; the scan
/// ends at the log's end, at a failed read, and at the first record that
/// is not sound.
pub open spec fn log_scan(t: Seq<DevOp>, head: u64, log_end: u64, recs: Seq<Replayed>) -> bool
    decreases t.len(),
{
    if head >= log_end {
        t.len() == 0 && recs.len() == 0
    } else if t.len() == 0 || !is_read_at(t[0], head) {
        false
    } else {
        match read_data(t[0]) {
            None => t.len() == 1 && recs.len() == 0,
            Some(sec) => match record_head_spec(sec, (log_end - head) as u64) {
                RecordHead::Record { sectors, link_count, content_len } => {
                    &&& t.len() >= 2 && is_read_at(t[1], head)
                    &&& match read_data(t[1]) {
                        None => t.len() == 2 && recs.len() == 0,
                        Some(buf) => {
                            let sound = record_crc_ok(buf, link_count as int, content_len as int)
                                && (sec[6] == OP_UPSERT || sec[6] == OP_TOMBSTONE);
                            if !sound {
                                t.len() == 2 && recs.len() == 0
                            } else {
                                &&& recs.len() >= 1
                                &&& (if sec[6] == OP_UPSERT {
                                    recs[0] matches Replayed::Upsert(obj)
                                        && object_decoded(sec, buf, link_count as int, content_len as int, obj)
                                } else {
                                    recs[0] == Replayed::Tombstone(SUID { high: from_be64(sec.subrange(16, 24)),
                                        low: from_be64(sec.subrange(24, 32)) })
                                })
                                &&& log_scan(t.subrange(2, t.len() as int), (head + sectors) as u64, log_end,
                                    recs.subrange(1, recs.len() as int))
                            }
                        },
                    }
                },
                _ => t.len() == 1 && recs.len() == 0,
            },
        }
    }
}

proof fn lemma_replay_push(m0: Map<SUID, SemanticObject>, recs: Seq<Replayed>, mid: Map<SUID, SemanticObject>,
    rec: Replayed, m1: Map<SUID, SemanticObject>)
    requires registry_replay(m0, recs, mid), replay_step(mid, rec, m1),
    ensures registry_replay(m0, recs.push(rec), m1),
{
    let ms = choose|ms: Seq<Map<SUID, SemanticObject>>| #[trigger] replay_states(ms, recs) && ms[0] == m0
        && ms[recs.len() as int] == mid;
    let ms2 = ms.push(m1);
    let r2 = recs.push(rec);
    assert forall|k: int| 0 <= k < r2.len() implies replay_step(#[trigger] ms2[k], r2[k], ms2[k + 1]) by {
        if k < recs.len() {
            assert(replay_step(ms[k], recs[k], ms[k + 1]));
        }
    }
    assert(replay_states(ms2, r2));
}

proof fn lemma_replay_empty(m0: Map<SUID, SemanticObject>)
    ensures registry_replay(m0, Seq::empty(), m0),
{
    assert(replay_states(seq![m0], Seq::empty()));
}

/// The record a sound record image applies.
pub open spec fn replayed_of(b: RecordBody) -> Replayed {
    match b {
        RecordBody::Upsert { obj, .. } => Replayed::Upsert(obj),
        RecordBody::Tombstone { suid, .. } => Replayed::Tombstone(suid),
        RecordBody::Torn => Replayed::Tombstone(SUID { high: 0, low: 0 }),
    }
}

/// One replayed record on the registry's map: an upsert stores the object
/// (unless it is new and the registry is full), a tombstone removes.
pub open spec fn replay_step(m0: Map<SUID, SemanticObject>, rec: Replayed, m1: Map<SUID, SemanticObject>) -> bool {
    match rec {
        Replayed::Upsert(o) => m1 == m0.insert(o.suid, o) || (m1 == m0 && !m0.dom().contains(o.suid)),
        Replayed::Tombstone(s) => m1 == m0.remove(s),
    }
}

/// The registry maps `ms` are the states of a replay of `recs`: the first
/// is where it starts, and each record takes one to the next.
pub open spec fn replay_states(ms: Seq<Map<SUID, SemanticObject>>, recs: Seq<Replayed>) -> bool {
    &&& ms.len() == recs.len() + 1
    &&& forall|k: int| 0 <= k < recs.len() ==> replay_step(#[trigger] ms[k], recs[k], ms[k + 1])
}

/// `m1` is `m0` after replaying `recs` in order.
pub open spec fn registry_replay(m0: Map<SUID, SemanticObject>, recs: Seq<Replayed>,
    m1: Map<SUID, SemanticObject>) -> bool
{
    exists|ms: Seq<Map<SUID, SemanticObject>>| #[trigger] replay_states(ms, recs) && ms[0] == m0
        && ms[recs.len() as int] == m1
}

/// The superblock a region is formatted with: first generation, the log
/// right after the two superblock copies, nothing written yet.
pub open spec fn first_superblock(sb_lba: u64, log_sectors: u64) -> Superblock {
    Superblock { generation: 1, log_start: (sb_lba + 2) as u64, log_sectors, high_water: 0, clean_shutdown: false }
}

/// Mount the journal on `dev`: superblocks at `sb_lba` and `sb_lba + 1`,
/// log after them. The two copies go through `choose_superblock`. With a
/// valid one the log is replayed into `reg` record by record (`record_head`,
/// then `scan_record`) up to the first bad record; without one the region
/// is formatted with `encode_superblock` of a first-generation superblock.
/// The last part of the result is every operation handed to the device, in
/// order.
#[verifier::rlimit(80)]
#[verifier::spinoff_prover]
pub fn mount<D: BlockDevice>(dev: D, sb_lba: u64, log_sectors: u64, reg: &mut ObjectRegistry)
    -> (r: (MountOutcome, Option<Journal<D>>, Ghost<Seq<DevOp>>))
    requires old(reg).wf(), sb_lba + 2 <= u64::MAX,
    ensures
        final(reg).wf(),
        r.1 is None <==> r.0 is Unavailable,
        r.1 matches Some(j) ==> j.log == r.2,
        r.0 is Unavailable ==> final(reg)@ == old(reg)@,
        ({
            let t = r.2@;
            let img = superblock_image(first_superblock(sb_lba, log_sectors));
            &&& t.len() >= 1 && is_read_at(t[0], sb_lba)
            &&& read_data(t[0]) is None ==> r.0 is Unavailable && t.len() == 1
            &&& read_data(t[0]) is Some ==> t.len() >= 2 && is_read_at(t[1], (sb_lba + 1) as u64)
            &&& read_data(t[0]) is Some && read_data(t[1]) is None ==> r.0 is Unavailable && t.len() == 2
            &&& match (read_data(t[0]), read_data(t[1])) {
                (Some(s0), Some(s1)) => match chosen_superblock(s0, s1) {
                None => {
                &&& final(reg)@ == old(reg)@
                &&& t.len() >= 3 && writes(t[2], sb_lba, img)
                &&& is_write(t[2], sb_lba, img, false) ==> r.0 is Unavailable && t.len() == 3
                &&& is_write(t[2], sb_lba, img, true) ==> t.len() == 4 && writes(t[3], (sb_lba + 1) as u64, img)
                &&& r.0 is Formatted <==> (t.len() == 4 && is_write(t[3], (sb_lba + 1) as u64, img, true))
                &&& r.0 is Formatted ==> (r.1 matches Some(j) && j.log_start == sb_lba + 2
                    && j.log_sectors == log_sectors && j.head == sb_lba + 2 && j.next_seq == 1
                    && j.policy == CommitPolicy::WriteThrough && !j.replaying && j.enabled)
                },
                Some(sb) => {
                &&& r.0 is Mounted
                &&& r.1 matches Some(j) && j.enabled && !j.replaying && j.policy == CommitPolicy::WriteThrough
                    && j.log_start == sb.log_start && j.log_sectors == sb.log_sectors
                    && j.next_seq >= sb.high_water.saturating_add(1) && j.next_seq >= 1
                    && j.log_start <= j.head <= j.log_start.saturating_add(j.log_sectors)
                &&& t.len() >= 4
                &&& exists|recs: Seq<Replayed>| log_scan(t.subrange(2, t.len() - 2), sb.log_start,
                    sb.log_start.saturating_add(sb.log_sectors), recs)
                    && #[trigger] registry_replay(old(reg)@, recs, final(reg)@)
                &&& ({
                    let j = r.1->0;
                    let fin = superblock_image(Superblock { generation: sb.generation.saturating_add(1),
                        log_start: sb.log_start, log_sectors: sb.log_sectors, high_water: (j.next_seq - 1) as u64,
                        clean_shutdown: false });
                    writes(t[t.len() - 2], sb_lba, fin) && writes(t[t.len() - 1], (sb_lba + 1) as u64, fin)
                })
                },
                },
                _ => true,
            }
        }),
{
    let mut trace: Ghost<Seq<DevOp>> = Ghost(Seq::empty());
    let mut s0: Vec<u8> = vec![0u8; SECTOR];
    if traced_read(&dev, &mut trace, sb_lba, s0.as_mut_slice()).is_err() {
        return (MountOutcome::Unavailable, None, trace);
    }
    let mut s1: Vec<u8> = vec![0u8; SECTOR];
    if traced_read(&dev, &mut trace, sb_lba + 1, s1.as_mut_slice()).is_err() {
        return (MountOutcome::Unavailable, None, trace);
    }
    let ghost reads = trace@;
    assert(read_data(reads[0]) == Some(s0@) && read_data(reads[1]) == Some(s1@));
    let best = choose_superblock(s0.as_slice(), s1.as_slice());

    let (log_start, log_len, mut next_seq, generation) = match best {
        Some(sb) => (sb.log_start, sb.log_sectors, sb.high_water.saturating_add(1), sb.generation),
        None => {
            let sb = Superblock {
                generation: 1,
                log_start: sb_lba + 2,
                log_sectors,
                high_water: 0,
                clean_shutdown: false,
            };
            let img = encode_superblock(&sb);
            if traced_write(&dev, &mut trace, sb_lba, img.as_slice()).is_err() {
                return (MountOutcome::Unavailable, None, trace);
            }
            if traced_write(&dev, &mut trace, sb_lba + 1, img.as_slice()).is_err() {
                return (MountOutcome::Unavailable, None, trace);
            }
            let j = Journal {
                dev,
                log_start: sb_lba + 2,
                log_sectors,
                head: sb_lba + 2,
                next_seq: 1,
                policy: CommitPolicy::WriteThrough,
                replaying: false,
                enabled: true,
                log: trace,
            };
            return (MountOutcome::Formatted, Some(j), trace);
        }
    };

    let mut sec: Vec<u8> = vec![0u8; SECTOR];
    let mut applied: usize = 0;
    let mut head = log_start;
    let log_end = log_start.saturating_add(log_len);
    let mut torn = false;
    let ghost hw = next_seq;
    let ghost mut done: Seq<DevOp> = Seq::empty();
    let ghost mut recs: Seq<Replayed> = Seq::empty();
    proof {
        lemma_replay_empty(old(reg)@);
        assert forall|rest: Seq<DevOp>, rr: Seq<Replayed>| log_scan(rest, head, log_end, rr)
            implies #[trigger] log_scan(done + rest, log_start, log_end, recs + rr) by {
            assert(done + rest =~= rest);
            assert(recs + rr =~= rr);
        }
    }
    loop
        invariant_except_break
            forall|rest: Seq<DevOp>, rr: Seq<Replayed>| log_scan(rest, head, log_end, rr)
                ==> #[trigger] log_scan(done + rest, log_start, log_end, recs + rr),
        invariant
            old(reg).wf(), reg.wf(), sec@.len() == SECTOR, log_start <= head <= log_end,
            log_end == log_start.saturating_add(log_len), next_seq >= hw, hw >= 1,
            trace@ == reads + done, reads.len() == 2,
            registry_replay(old(reg)@, recs, reg@),
        ensures
            trace@ == reads + done, reads.len() == 2,
            log_scan(done, log_start, log_end, recs),
            registry_replay(old(reg)@, recs, reg@),
        decreases log_end - head,
    {
        let ghost done0 = done;
        let ghost recs0 = recs;
        let ghost head0 = head;
        if head >= log_end {
            proof {
                assert(log_scan(Seq::empty(), head, log_end, Seq::empty()));
                assert(done + Seq::<DevOp>::empty() =~= done);
                assert(recs + Seq::<Replayed>::empty() =~= recs);
            }
            break;
        }
        let rd = traced_read(&dev, &mut trace, head, sec.as_mut_slice());
        let ghost op1 = trace@.last();
        assert(trace@ =~= reads + done.push(op1));
        if rd.is_err() {
            proof {
                let tail = seq![op1];
                assert(log_scan(tail, head, log_end, Seq::empty()));
                assert(log_scan(done0 + tail, log_start, log_end, recs0 + Seq::<Replayed>::empty()));
                assert(recs0 + Seq::<Replayed>::empty() =~= recs0);
                assert(done0 + tail =~= done0.push(op1));
                done = done0.push(op1);
            }
            break;
        }
        let ghost sec0 = sec@;
        let hd = record_head(sec.as_slice(), log_end - head);
        proof {
            if !(hd is Record) {
                let tail = seq![op1];
                assert(log_scan(tail, head, log_end, Seq::empty()));
                assert(log_scan(done0 + tail, log_start, log_end, recs0 + Seq::<Replayed>::empty()));
                assert(recs0 + Seq::<Replayed>::empty() =~= recs0);
                assert(done0 + tail =~= done0.push(op1));
            }
        }
        let (sectors, link_count, content_len) = match hd {
            RecordHead::End => {
                proof { done = done0.push(op1); }
                break;
            },
            RecordHead::Torn => {
                torn = true;
                proof { done = done0.push(op1); }
                break;
            },
            RecordHead::Stop => {
                proof { done = done0.push(op1); }
                break;
            },
            RecordHead::Record { sectors, link_count, content_len } => (sectors, link_count, content_len),
        };
        let nbytes: usize = sectors as usize * SECTOR;
        let mut buf: Vec<u8> = vec![0u8; nbytes];
        let rd2 = traced_read(&dev, &mut trace, head, buf.as_mut_slice());
        let ghost op2 = trace@.last();
        assert(trace@ =~= reads + done0.push(op1).push(op2));
        if rd2.is_err() {
            torn = true;
            proof {
                let tail = seq![op1, op2];
                assert(tail.subrange(2, 2) =~= Seq::<DevOp>::empty());
                assert(log_scan(tail, head, log_end, Seq::empty()));
                assert(log_scan(done0 + tail, log_start, log_end, recs0 + Seq::<Replayed>::empty()));
                assert(recs0 + Seq::<Replayed>::empty() =~= recs0);
                assert(done0 + tail =~= done0.push(op1).push(op2));
                done = done0.push(op1).push(op2);
            }
            break;
        }
        assert(crc_offset(link_count as int, content_len as int) + 4 <= buf@.len()) by (nonlinear_arith)
            requires sectors == record_span(link_count as int, content_len as int), sectors * 512 == buf@.len(),
                link_count >= 0, content_len >= 0;
        let ghost reg0 = reg@;
        let body = scan_record(sec.as_slice(), buf.as_slice(), link_count, content_len);
        let ghost rec: Replayed = replayed_of(body);
        proof {
            if body is Torn {
                let tail = seq![op1, op2];
                assert(tail.subrange(2, 2) =~= Seq::<DevOp>::empty());
                assert(log_scan(tail, head, log_end, Seq::empty()));
                assert(log_scan(done0 + tail, log_start, log_end, recs0 + Seq::<Replayed>::empty()));
                assert(recs0 + Seq::<Replayed>::empty() =~= recs0);
                assert(done0 + tail =~= done0.push(op1).push(op2));
            }
        }
        let seq = match body {
            RecordBody::Torn => {
                torn = true;
                proof { done = done0.push(op1).push(op2); }
                break;
            },
            RecordBody::Upsert { obj, seq } => {
                replay_upsert(reg, obj);
                seq
            },
            RecordBody::Tombstone { suid, seq } => {
                replay_tombstone(reg, &suid);
                seq
            },
        };
        if seq >= next_seq {
            next_seq = seq.saturating_add(1);
        }
        if applied < usize::MAX {
            applied += 1;
        }
        head = head + sectors;
        proof {
            let pair = seq![op1, op2];
            assert forall|rest: Seq<DevOp>, rr: Seq<Replayed>| log_scan(rest, head, log_end, rr)
                implies #[trigger] log_scan(done0 + pair + rest, log_start, log_end, recs0.push(rec) + rr) by {
                let rest2 = pair + rest;
                let rr2 = seq![rec] + rr;
                assert(rest2.subrange(2, rest2.len() as int) =~= rest);
                assert(rr2.subrange(1, rr2.len() as int) =~= rr);
                assert(rest2[0] == op1 && rest2[1] == op2 && rr2[0] == rec);
                assert(log_scan(rest2, head0, log_end, rr2));
                assert(done0 + pair + rest =~= done0 + rest2);
                assert(recs0.push(rec) + rr =~= recs0 + rr2);
            }
            assert(replay_step(reg0, rec, reg@));
            lemma_replay_push(old(reg)@, recs0, reg0, rec, reg@);
            assert(done0 + pair =~= done0.push(op1).push(op2));
            done = done0 + pair;
            recs = recs0.push(rec);
        }
    }

    let sb = Superblock {
        generation: generation.saturating_add(1),
        log_start,
        log_sectors: log_len,
        high_water: next_seq - 1,
        clean_shutdown: false,
    };
    let img = encode_superblock(&sb);
    let _ = traced_write(&dev, &mut trace, sb_lba, img.as_slice());
    let _ = traced_write(&dev, &mut trace, sb_lba + 1, img.as_slice());
    proof {
        let t = trace@;
        assert(t.subrange(2, t.len() - 2) =~= done);
        assert(log_scan(t.subrange(2, t.len() - 2), log_start, log_end, recs)
            && registry_replay(old(reg)@, recs, reg@));
    }
    let j = Journal {
        dev,
        log_start,
        log_sectors: log_len,
        head,
        next_seq,
        policy: CommitPolicy::WriteThrough,
        replaying: false,
        enabled: true,
        log: trace,
    };
    (MountOutcome::Mounted { records: applied, torn }, Some(j), trace)
}

} // verus!
