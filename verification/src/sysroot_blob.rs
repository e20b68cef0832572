//! A read-only file table stored in sector 0 of a disk (or of a GPT
//! partition named `SEMOS_SYSROOT`), and byte-granular reads of the files
//! it lists.
//!
//! Format (little-endian, 512-byte sectors):
//! sector 0:  +0 magic `SEMSYSR1`, +8 count u32, +12 reserved u32,
//!            +16 records[count] of 80 bytes: name[64] NUL-padded, lba u64, len u64.
use vstd::prelude::*;
use vstd::string::StringSliceAdditionalSpecFns;
use crate::block::{BlockDevice, DevOp, traced_read, is_read_at, read_data};
use crate::bytes::{from_le32, from_le64, read_le32, read_le64};

verus! {

/// Bytes per sector.
pub const SECTOR: usize = 512;
/// Bytes of a record's name field.
pub const NAME_LEN: usize = 64;
/// Bytes per file record.
pub const REC_LEN: usize = 80;
/// Most records that fit after the 16-byte header in one sector.
pub const MAX_FILES: usize = 6;
/// Sectors read per pass when streaming a file.
pub const SCRATCH_SECTORS: usize = 64;

/// The blob magic `SEMSYSR1`.
pub open spec fn blob_magic() -> Seq<u8> {
    seq![0x53u8, 0x45, 0x4d, 0x53, 0x59, 0x53, 0x52, 0x31]
}

/// The GPT header signature `EFI PART`.
pub open spec fn gpt_signature() -> Seq<u8> {
    seq![0x45u8, 0x46, 0x49, 0x20, 0x50, 0x41, 0x52, 0x54]
}

/// The partition name the blob lives in, `SEMOS_SYSROOT`, as ASCII.
pub open spec fn target_part_name() -> Seq<u8> {
    seq![0x53u8, 0x45, 0x4d, 0x4f, 0x53, 0x5f, 0x53, 0x59, 0x53, 0x52, 0x4f, 0x4f, 0x54]
}

/// The `i`-th UTF-16LE code unit of `raw`.
pub open spec fn utf16_unit(raw: Seq<u8>, i: int) -> int {
    raw[2 * i] + 256 * raw[2 * i + 1]
}

/// A NUL-padded UTF-16LE name (trailing odd byte ignored) spells the ASCII
/// `target`: its first units are the target bytes and every later unit is 0.
pub open spec fn part_name_matches_spec(raw: Seq<u8>, target: Seq<u8>) -> bool {
    let n = raw.len() / 2;
    &&& target.len() <= n
    &&& forall|i: int| 0 <= i < target.len() ==> utf16_unit(raw, i) == target[i] as int
    &&& forall|i: int| target.len() <= i < n ==> utf16_unit(raw, i) == 0
}

/// Compare a GPT partition name (UTF-16LE, NUL-padded) with an ASCII target.
pub fn part_name_matches(raw: &[u8], target: &[u8]) -> (r: bool)
    ensures r == part_name_matches_spec(raw@, target@),
{
    let rl = raw.len();
    let n = rl / 2;
    if target.len() > n {
        return false;
    }
    let mut i: usize = 0;
    while i < n
        invariant
            rl == raw@.len(),
            n == raw@.len() / 2,
            target@.len() <= n,
            i <= n,
            forall|k: int| 0 <= k < i && k < target@.len() ==> utf16_unit(raw@, k) == target@[k] as int,
            forall|k: int| target@.len() <= k < i ==> utf16_unit(raw@, k) == 0,
        decreases n - i,
    {
        let code: u32 = raw[2 * i] as u32 + 256 * (raw[2 * i + 1] as u32);
        let want: u32 = if i < target.len() { target[i] as u32 } else { 0 };
        assert(code == utf16_unit(raw@, i as int));
        if code != want {
            return false;
        }
        i += 1;
    }
    true
}

/// What a GPT header sector says about where the partition entries are.
#[derive(Debug, Clone, Copy, PartialEq, Eq, Structural)]
pub enum GptLayout {
    /// No `EFI PART` signature: the disk is not GPT-partitioned.
    NoGpt,
    /// A GPT whose entry size cannot be scanned safely.
    Malformed,
    /// Entries start at `entries_lba`; `num_entries` of `entry_size` bytes each.
    Table { entries_lba: u64, num_entries: u32, entry_size: u32 },
}

/// Smallest entry that holds the fields the scan reads (type GUID, first
/// LBA, and the start of the name).
pub const MIN_ENTRY_SIZE: u32 = 56;

/// The layout a GPT header sector describes.
pub open spec fn gpt_layout_spec(hdr: Seq<u8>) -> GptLayout {
    if hdr.subrange(0, 8) != gpt_signature() {
        GptLayout::NoGpt
    } else {
        let es = from_le32(hdr.subrange(84, 88));
        if es < MIN_ENTRY_SIZE || es > SECTOR {
            GptLayout::Malformed
        } else {
            GptLayout::Table {
                entries_lba: from_le64(hdr.subrange(72, 80)),
                num_entries: from_le32(hdr.subrange(80, 84)),
                entry_size: es,
            }
        }
    }
}

/// `s[off..off+8)` equals the 8 bytes `m`.
fn eight_bytes_eq(s: &[u8], off: usize, m: [u8; 8]) -> (r: bool)
    requires off + 8 <= s@.len(),
    ensures r == (s@.subrange(off as int, off + 8) == m@),
{
    let sl = s.len();
    let mut i: usize = 0;
    while i < 8
        invariant
            sl == s@.len(),
            off + 8 <= s@.len(),
            i <= 8,
            forall|k: int| 0 <= k < i ==> s@[off + k] == m@[k],
        decreases 8 - i,
    {
        if s[off + i] != m[i] {
            assert(s@.subrange(off as int, off + 8)[i as int] != m@[i as int]);
            return false;
        }
        i += 1;
    }
    assert(s@.subrange(off as int, off + 8) =~= m@);
    true
}

/// Read the partition-entry layout from a GPT header sector.
pub fn gpt_layout(hdr: &[u8]) -> (r: GptLayout)
    requires hdr@.len() == SECTOR,
    ensures r == gpt_layout_spec(hdr@),
{
    let sig: [u8; 8] = [0x45u8, 0x46, 0x49, 0x20, 0x50, 0x41, 0x52, 0x54];
    assert(sig@ =~= gpt_signature());
    if !eight_bytes_eq(hdr, 0, sig) {
        return GptLayout::NoGpt;
    }
    let es = read_le32(hdr, 84);
    if es < MIN_ENTRY_SIZE || es > 512 {
        return GptLayout::Malformed;
    }
    GptLayout::Table { entries_lba: read_le64(hdr, 72), num_entries: read_le32(hdr, 80), entry_size: es }
}

/// The bytes of entry `i` in a sector of `entry_size`-byte entries.
pub open spec fn entry_bytes(sec: Seq<u8>, entry_size: int, i: int) -> Seq<u8> {
    sec.subrange(i * entry_size, i * entry_size + entry_size)
}

/// Where a partition entry starts, if it is in use and named `SEMOS_SYSROOT`.
/// An entry with an all-zero type GUID is unused; the name is the UTF-16LE
/// field at byte 56, up to 72 bytes.
pub open spec fn entry_match(e: Seq<u8>) -> Option<u64> {
    if forall|k: int| 0 <= k < 16 ==> e[k] == 0u8 {
        None
    } else if part_name_matches_spec(e.subrange(56, if e.len() < 128 { e.len() as int } else { 128 }), target_part_name()) {
        Some(from_le64(e.subrange(32, 40)))
    } else {
        None
    }
}

/// The first match among entries `i..count` of a sector.
pub open spec fn first_match(sec: Seq<u8>, entry_size: int, i: int, count: int) -> Option<u64>
    decreases count - i,
{
    if i >= count {
        None
    } else {
        match entry_match(entry_bytes(sec, entry_size, i)) {
            Some(l) => Some(l),
            None => first_match(sec, entry_size, i + 1, count),
        }
    }
}

/// Scan the first `count` entries of one sector of the entry array.
pub fn scan_sector(sec: &[u8], entry_size: usize, count: usize) -> (r: Option<u64>)
    requires
        MIN_ENTRY_SIZE <= entry_size <= SECTOR,
        sec@.len() == SECTOR,
        count * entry_size <= SECTOR,
    ensures r == first_match(sec@, entry_size as int, 0, count as int),
{
    let name: [u8; 13] = [0x53u8, 0x45, 0x4d, 0x4f, 0x53, 0x5f, 0x53, 0x59, 0x53, 0x52, 0x4f, 0x4f, 0x54];
    assert(name@ =~= target_part_name());
    let mut i: usize = 0;
    while i < count
        invariant
            MIN_ENTRY_SIZE <= entry_size <= SECTOR,
            sec@.len() == SECTOR,
            count * entry_size <= SECTOR,
            i <= count,
            name@ == target_part_name(),
            first_match(sec@, entry_size as int, 0, count as int)
                == first_match(sec@, entry_size as int, i as int, count as int),
        decreases count - i,
    {
        proof {
            assert((i + 1) * entry_size <= count * entry_size) by (nonlinear_arith)
                requires i < count;
            assert((i + 1) * entry_size == i * entry_size + entry_size) by (nonlinear_arith);
        }
        let start = i * entry_size;
        let e = vstd::slice::slice_subrange(sec, start, start + entry_size);
        assert(e@ == entry_bytes(sec@, entry_size as int, i as int));
        let mut used = false;
        let mut k: usize = 0;
        while k < 16
            invariant
                e@.len() == entry_size,
                MIN_ENTRY_SIZE <= entry_size,
                k <= 16,
                used <==> exists|j: int| 0 <= j < k && e@[j] != 0u8,
            decreases 16 - k,
        {
            if e[k] != 0 {
                used = true;
            }
            k += 1;
        }
        if used {
            let end = if entry_size < 128 { entry_size } else { 128 };
            let raw = vstd::slice::slice_subrange(e, 56, end);
            if part_name_matches(raw, &name) {
                return Some(read_le64(e, 32));
            }
        }
        i += 1;
    }
    None
}

/// One file listed in the blob header.
#[derive(Debug, Clone)]
pub struct SysrootFile {
    /// The name bytes before the first NUL (at most `NAME_LEN`).
    pub name: Vec<u8>,
    /// First sector of the file, relative to the blob base.
    pub lba: u64,
    /// Length in bytes.
    pub len: u64,
}

/// The name field of record `i` of a header sector.
pub open spec fn record_name_field(hdr: Seq<u8>, i: int) -> Seq<u8> {
    hdr.subrange(16 + 80 * i, 16 + 80 * i + 64)
}

/// `f` is record `i` of the header: its name is the name field up to the
/// first NUL, and its sector and length are the two little-endian words
/// after the name field.
pub open spec fn record_matches(hdr: Seq<u8>, i: int, f: SysrootFile) -> bool {
    let field = record_name_field(hdr, i);
    let n = f.name@.len();
    &&& n <= NAME_LEN
    &&& f.name@ == field.subrange(0, n as int)
    &&& forall|k: int| 0 <= k < n ==> field[k] != 0u8
    &&& (n < NAME_LEN ==> field[n as int] == 0u8)
    &&& f.lba == from_le64(hdr.subrange(16 + 80 * i + 64, 16 + 80 * i + 72))
    &&& f.len == from_le64(hdr.subrange(16 + 80 * i + 72, 16 + 80 * i + 80))
}

/// The file count a header sector declares.
pub open spec fn header_count(hdr: Seq<u8>) -> u32 {
    from_le32(hdr.subrange(8, 12))
}

/// A header sector holds a usable file table: the magic matches and the
/// count is between 1 and `MAX_FILES`.
pub open spec fn header_valid(hdr: Seq<u8>) -> bool {
    &&& hdr.subrange(0, 8) == blob_magic()
    &&& 1 <= header_count(hdr) <= MAX_FILES
}

/// `files` is exactly the table of a valid header sector.
pub open spec fn table_matches(hdr: Seq<u8>, files: Seq<SysrootFile>) -> bool {
    &&& files.len() == header_count(hdr)
    &&& forall|i: int| 0 <= i < files.len() ==> record_matches(hdr, i, #[trigger] files[i])
}

/// Decode record `i` of a header sector.
fn parse_record(hdr: &[u8], i: usize) -> (f: SysrootFile)
    requires
        hdr@.len() == SECTOR,
        i < MAX_FILES,
    ensures record_matches(hdr@, i as int, f),
{
    let off = 16 + 80 * i;
    let mut name: Vec<u8> = Vec::new();
    let mut k: usize = 0;
    while k < NAME_LEN && hdr[off + k] != 0
        invariant
            hdr@.len() == SECTOR,
            off == 16 + 80 * i,
            i < MAX_FILES,
            k <= NAME_LEN,
            name@ == record_name_field(hdr@, i as int).subrange(0, k as int),
            forall|j: int| 0 <= j < k ==> record_name_field(hdr@, i as int)[j] != 0u8,
        decreases NAME_LEN - k,
    {
        name.push(hdr[off + k]);
        k += 1;
        assert(name@ =~= record_name_field(hdr@, i as int).subrange(0, k as int));
    }
    SysrootFile { name, lba: read_le64(hdr, off + 64), len: read_le64(hdr, off + 72) }
}

/// Decode the file table of a header sector; `None` if the magic is wrong or
/// the count is 0 or above `MAX_FILES`.
pub fn parse_table(hdr: &[u8]) -> (r: Option<Vec<SysrootFile>>)
    requires hdr@.len() == SECTOR,
    ensures
        r is Some <==> header_valid(hdr@),
        r matches Some(files) ==> table_matches(hdr@, files@),
{
    let magic: [u8; 8] = [0x53u8, 0x45, 0x4d, 0x53, 0x59, 0x53, 0x52, 0x31];
    assert(magic@ =~= blob_magic());
    if !eight_bytes_eq(hdr, 0, magic) {
        return None;
    }
    let count = read_le32(hdr, 8);
    if count == 0 || count > 6 {
        return None;
    }
    let n = count as usize;
    let mut files: Vec<SysrootFile> = Vec::new();
    let mut i: usize = 0;
    while i < n
        invariant
            hdr@.len() == SECTOR,
            n == header_count(hdr@),
            n <= MAX_FILES,
            i <= n,
            files@.len() == i,
            forall|j: int| 0 <= j < i ==> record_matches(hdr@, j, #[trigger] files@[j]),
        decreases n - i,
    {
        let f = parse_record(hdr, i);
        files.push(f);
        i += 1;
    }
    Some(files)
}

/// The scan of the partition-entry array as the reads `t` went: sector `lba`
/// holds the next entries, `left` of them remain, each `es` bytes, and `r` is
/// what the scan gives. A failed read ends it with none; a sector holding the
/// partition ends it with the partition's first sector; the last sector
/// number ends it with none.
pub open spec fn entry_scan(t: Seq<DevOp>, lba: u64, left: u32, es: u32, r: Option<u64>) -> bool
    decreases t.len(),
{
    if left == 0 {
        t.len() == 0 && r is None
    } else if t.len() == 0 {
        false
    } else {
        let here: u32 = if left < 512u32 / es { left } else { 512u32 / es };
        &&& is_read_at(t[0], lba)
        &&& match read_data(t[0]) {
            None => t.len() == 1 && r is None,
            Some(sec) => match first_match(sec, es as int, 0, here as int) {
                Some(l) => t.len() == 1 && r == Some(l),
                None => if lba == u64::MAX {
                    t.len() == 1 && r is None
                } else {
                    entry_scan(t.subrange(1, t.len() as int), (lba + 1) as u64, (left - here) as u32, es, r)
                },
            },
        }
    }
}

/// Where the blob lives, as the reads `t` went: the GPT header at sector 1
/// first. A failed read or a disk without GPT gives sector 0; a GPT whose
/// entries cannot be scanned gives none; otherwise the entry scan decides.
pub open spec fn resolved(t: Seq<DevOp>, r: Option<u64>) -> bool {
    &&& t.len() >= 1 && is_read_at(t[0], 1)
    &&& match read_data(t[0]) {
        None => t.len() == 1 && r == Some(0u64),
        Some(h) => match gpt_layout_spec(h) {
            GptLayout::NoGpt => t.len() == 1 && r == Some(0u64),
            GptLayout::Malformed => t.len() == 1 && r is None,
            GptLayout::Table { entries_lba, num_entries, entry_size } =>
                entry_scan(t.subrange(1, t.len() as int), entries_lba, num_entries, entry_size, r),
        },
    }
}

/// Where the blob should live on `dev`: `Some(0)` if the GPT header cannot
/// be read or the disk has no GPT (the blob then starts at sector 0);
/// the first sector of the `SEMOS_SYSROOT` partition if the GPT lists one;
/// `None` if the disk is GPT-partitioned without that partition, or its
/// entry table cannot be scanned, so that nothing clobbers its partition table.
fn resolve_base_lba<D: BlockDevice>(dev: &D, trace: &mut Ghost<Seq<DevOp>>) -> (r: Option<u64>)
    requires old(trace)@.len() == 0,
    ensures resolved(final(trace)@, r),
{
    let mut hdr: Vec<u8> = vec![0u8; SECTOR];
    if traced_read(dev, trace, 1, hdr.as_mut_slice()).is_err() {
        return Some(0);
    }
    let ghost first = trace@;
    let (entries_lba, num_entries, entry_size) = match gpt_layout(hdr.as_slice()) {
        GptLayout::NoGpt => { return Some(0); },
        GptLayout::Malformed => { return None; },
        GptLayout::Table { entries_lba, num_entries, entry_size } => (entries_lba, num_entries, entry_size),
    };
    let es = entry_size as usize;
    let per_sector: u32 = 512 / entry_size;
    let mut scanned: u32 = 0;
    let mut lba = entries_lba;
    proof {
        assert forall|rest: Seq<DevOp>, r: Option<u64>|
            #[trigger] entry_scan(trace@.subrange(1, trace@.len() as int) + rest, entries_lba, num_entries,
                entry_size, r) == entry_scan(rest, lba, (num_entries - scanned) as u32, entry_size, r) by {
            assert(trace@.subrange(1, trace@.len() as int) + rest =~= rest);
        }
    }
    loop
        invariant_except_break
            forall|rest: Seq<DevOp>, r: Option<u64>|
                #[trigger] entry_scan(trace@.subrange(1, trace@.len() as int) + rest, entries_lba, num_entries,
                    entry_size, r) == entry_scan(rest, lba, (num_entries - scanned) as u32, entry_size, r),
        invariant
            MIN_ENTRY_SIZE <= entry_size <= SECTOR,
            es == entry_size,
            per_sector == 512u32 / entry_size,
            scanned <= num_entries,
            trace@.len() >= 1, trace@[0] == first[0], first.len() == 1,
            read_data(first[0]) == Some(hdr@), is_read_at(first[0], 1),
            gpt_layout_spec(hdr@) == (GptLayout::Table { entries_lba, num_entries, entry_size }),
        ensures
            entry_scan(trace@.subrange(1, trace@.len() as int), entries_lba, num_entries, entry_size, None),
        decreases num_entries - scanned,
    {
        if scanned >= num_entries {
            proof {
                assert(trace@.subrange(1, trace@.len() as int) + Seq::<DevOp>::empty()
                    =~= trace@.subrange(1, trace@.len() as int));
                assert(entry_scan(Seq::<DevOp>::empty(), lba, (num_entries - scanned) as u32, entry_size, None));
            }
            break;
        }
        let ghost done = trace@.subrange(1, trace@.len() as int);
        let ghost left0 = (num_entries - scanned) as u32;
        let ghost lba0 = lba;
        let mut sec: Vec<u8> = vec![0u8; SECTOR];
        let rd = traced_read(dev, trace, lba, sec.as_mut_slice());
        let ghost op = trace@.last();
        assert(trace@.subrange(1, trace@.len() as int) =~= done + seq![op]);
        if rd.is_err() {
            proof {
                assert(entry_scan(seq![op], lba0, left0, entry_size, None));
                assert(entry_scan(done + seq![op], entries_lba, num_entries, entry_size, None)
                    == entry_scan(seq![op], lba0, left0, entry_size, None));
            }
            break;
        }
        let left = num_entries - scanned;
        let here: u32 = if left < per_sector { left } else { per_sector };
        proof {
            assert(per_sector * entry_size <= 512) by (nonlinear_arith)
                requires per_sector == 512u32 / entry_size, entry_size > 0;
            assert(here * entry_size <= per_sector * entry_size) by (nonlinear_arith)
                requires here <= per_sector;
            assert(per_sector >= 1) by (nonlinear_arith)
                requires per_sector == 512u32 / entry_size, 0 < entry_size <= 512;
        }
        if let Some(first_lba) = scan_sector(sec.as_slice(), es, here as usize) {
            proof {
                assert(read_data(op) == Some(sec@));
                assert(entry_scan(seq![op], lba0, left0, entry_size, Some(first_lba)));
                assert(entry_scan(done + seq![op], entries_lba, num_entries, entry_size, Some(first_lba))
                    == entry_scan(seq![op], lba0, left0, entry_size, Some(first_lba)));
                assert(trace@[0] == first[0]);
            }
            return Some(first_lba);
        }
        scanned = scanned + here;
        if lba == u64::MAX {
            proof {
                assert(read_data(op) == Some(sec@));
                assert(entry_scan(seq![op], lba0, left0, entry_size, None));
                assert(entry_scan(done + seq![op], entries_lba, num_entries, entry_size, None)
                    == entry_scan(seq![op], lba0, left0, entry_size, None));
            }
            break;
        }
        lba = lba + 1;
        proof {
            assert(read_data(op) == Some(sec@));
            assert forall|rest: Seq<DevOp>, r: Option<u64>|
                #[trigger] entry_scan(trace@.subrange(1, trace@.len() as int) + rest, entries_lba, num_entries,
                    entry_size, r) == entry_scan(rest, lba, (num_entries - scanned) as u32, entry_size, r) by {
                assert(trace@.subrange(1, trace@.len() as int) + rest =~= done + (seq![op] + rest));
                assert(entry_scan(done + (seq![op] + rest), entries_lba, num_entries, entry_size, r)
                    == entry_scan(seq![op] + rest, lba0, left0, entry_size, r));
                assert((seq![op] + rest).subrange(1, (seq![op] + rest).len() as int) =~= rest);
                assert((seq![op] + rest)[0] == op);
            }
        }
    }
    proof {
        assert(trace@[0] == first[0]);
    }
    None
}

/// The sysroot blob found on a disk: where it starts and, once a valid
/// header has been read, its file table.
pub struct SysrootBlob {
    /// Absolute sector of the blob header (0 outside a partition).
    pub base_lba: u64,
    /// The file table, if a blob was found.
    pub table: Option<Vec<SysrootFile>>,
}

/// `name` is the name of file `i` and of no earlier file.
pub open spec fn first_named(files: Seq<SysrootFile>, name: Seq<u8>, i: int) -> bool {
    &&& 0 <= i < files.len()
    &&& files[i].name@ == name
    &&& forall|j: int| 0 <= j < i ==> files[j].name@ != name
}

impl SysrootBlob {
    /// The table, when present, has 1 to `MAX_FILES` entries with names of
    /// at most `NAME_LEN` bytes.
    pub open spec fn wf(&self) -> bool {
        self.table matches Some(files) ==> {
            &&& 1 <= files@.len() <= MAX_FILES
            &&& forall|i: int| 0 <= i < files@.len() ==> (#[trigger] files@[i]).name@.len() <= NAME_LEN
        }
    }

    /// The number of files the table lists (0 without a blob).
    pub open spec fn spec_count(&self) -> nat {
        match self.table {
            Some(files) => files@.len(),
            None => 0,
        }
    }

    /// No blob found yet.
    pub fn new() -> (r: Self)
        ensures r.base_lba == 0, r.table is None, r.wf(),
    {
        SysrootBlob { base_lba: 0, table: None }
    }

    /// Adopt the header sector read at `base_lba`: the table is set when the
    /// sector holds a valid header, and left as it was otherwise.
    pub fn adopt_header(&mut self, hdr: &[u8])
        requires old(self).wf(), hdr@.len() == SECTOR,
        ensures
            final(self).wf(),
            final(self).base_lba == old(self).base_lba,
            header_valid(hdr@) ==> (final(self).table matches Some(files) && table_matches(hdr@, files@)),
            !header_valid(hdr@) ==> final(self).table == old(self).table,
    {
        match parse_table(hdr) {
            Some(files) => {
                proof {
                    assert forall|i: int| 0 <= i < files@.len() implies (#[trigger] files@[i]).name@.len() <= NAME_LEN by {
                        assert(record_matches(hdr@, i, files@[i]));
                    }
                }
                self.table = Some(files);
            },
            None => {},
        }
    }

    /// Look for a blob on `dev` (no device: nothing changes). The base sector
    /// is taken from the partition table; the table is set only when the
    /// header sector there reads back valid.
    pub fn probe<D: BlockDevice>(&mut self, dev: Option<&D>) -> (t: Ghost<Seq<DevOp>>)
        requires old(self).wf(),
        ensures
            final(self).wf(),
            dev is None ==> *final(self) == *old(self) && t@.len() == 0,
            dev is Some ==> {
                ||| resolved(t@, None) && *final(self) == *old(self)
                ||| t@.len() >= 2 && resolved(t@.subrange(0, t@.len() - 1), Some(final(self).base_lba))
                    && is_read_at(t@.last(), final(self).base_lba)
                    && (match read_data(t@.last()) {
                        None => final(self).table == old(self).table,
                        Some(h) => h.len() == SECTOR
                            && (header_valid(h) ==> (final(self).table matches Some(files) && table_matches(h, files@)))
                            && (!header_valid(h) ==> final(self).table == old(self).table),
                    })
            },
    {
        let mut trace: Ghost<Seq<DevOp>> = Ghost(Seq::empty());
        let d = match dev {
            Some(d) => d,
            None => { return trace; },
        };
        let base = match resolve_base_lba(d, &mut trace) {
            Some(b) => b,
            None => { return trace; },
        };
        let ghost found = trace@;
        self.base_lba = base;
        let mut hdr: Vec<u8> = vec![0u8; SECTOR];
        if traced_read(d, &mut trace, base, hdr.as_mut_slice()).is_err() {
            assert(trace@.subrange(0, trace@.len() - 1) =~= found);
            return trace;
        }
        assert(trace@.subrange(0, trace@.len() - 1) =~= found);
        self.adopt_header(hdr.as_slice());
        trace
    }

    /// Number of files listed (0 if no blob).
    pub fn count(&self) -> (r: usize)
        requires self.wf(),
        ensures r == self.spec_count(),
    {
        match &self.table {
            Some(files) => files.len(),
            None => 0,
        }
    }

    /// Index of the first file named exactly `name`.
    pub fn find(&self, name: &str) -> (r: Option<usize>)
        requires self.wf(),
        ensures
            match self.table {
                None => r is None,
                Some(files) => match r {
                    Some(i) => first_named(files@, name.spec_bytes(), i as int),
                    None => forall|j: int| 0 <= j < files@.len() ==> files@[j].name@ != name.spec_bytes(),
                },
            },
    {
        let files = match &self.table {
            Some(f) => f,
            None => { return None; },
        };
        let target = name.as_bytes();
        let mut i: usize = 0;
        while i < files.len()
            invariant
                self.table == Some(*files),
                target@ == name.spec_bytes(),
                i <= files@.len(),
                forall|j: int| 0 <= j < i ==> files@[j].name@ != target@,
            decreases files@.len() - i,
        {
            if bytes_equal(files[i].name.as_slice(), target) {
                return Some(i);
            }
            i += 1;
        }
        None
    }

    /// Byte length of file `idx`, or `None` if out of range or no blob.
    pub fn file_len(&self, idx: usize) -> (r: Option<u64>)
        requires self.wf(),
        ensures
            match self.table {
                Some(files) => if idx < files@.len() { r == Some(files@[idx as int].len) } else { r is None },
                None => r is None,
            },
    {
        match &self.table {
            Some(files) => if idx < files.len() { Some(files[idx].len) } else { None },
            None => None,
        }
    }

    /// Copy file `idx`'s name into the front of `out_name` (as much as fits)
    /// and return its byte length; `None`, with `out_name` untouched, if `idx`
    /// is out of range or there is no blob.
    pub fn info(&self, idx: usize, out_name: &mut [u8]) -> (r: Option<u64>)
        requires self.wf(),
        ensures
            final(out_name)@.len() == old(out_name)@.len(),
            match self.table {
                Some(files) => if idx < files@.len() {
                    let nm = files@[idx as int].name@;
                    let n = if nm.len() < old(out_name)@.len() { nm.len() as int } else { old(out_name)@.len() as int };
                    &&& r == Some(files@[idx as int].len)
                    &&& final(out_name)@ == nm.subrange(0, n) + old(out_name)@.subrange(n, old(out_name)@.len() as int)
                } else {
                    r is None && final(out_name)@ == old(out_name)@
                },
                None => r is None && final(out_name)@ == old(out_name)@,
            },
    {
        let files = match &self.table {
            Some(f) => f,
            None => { return None; },
        };
        if idx >= files.len() {
            return None;
        }
        let f = &files[idx];
        let nl = f.name.len();
        let ol = out_name.len();
        let n = if nl < ol { nl } else { ol };
        let src = vstd::slice::slice_subrange(f.name.as_slice(), 0, n);
        crate::bytes::copy_into(out_name, 0, src);
        proof {
            assert(old(out_name)@.subrange(0, 0) + src@ + old(out_name)@.subrange(n as int, ol as int)
                =~= src@ + old(out_name)@.subrange(n as int, ol as int));
        }
        Some(f.len)
    }

    /// Read up to `buf.len()` bytes of file `idx` starting at byte `offset`,
    /// streaming whole sectors from `dev`. `Some(0)` at or past the end of the
    /// file; `None` if `idx` is out of range, there is no blob or no device,
    /// or the first sector read fails. A later failed read ends the transfer
    /// with the bytes produced so far. Only `buf[..n]` is written.
    pub fn read<D: BlockDevice>(&self, dev: Option<&D>, idx: usize, offset: u64, buf: &mut [u8]) -> (r: Option<usize>)
        requires self.wf(),
        ensures
            final(buf)@.len() == old(buf)@.len(),
            r is None ==> final(buf)@ == old(buf)@,
            r matches Some(n) ==> n <= old(buf)@.len()
                && final(buf)@.subrange(n as int, old(buf)@.len() as int)
                    == old(buf)@.subrange(n as int, old(buf)@.len() as int),
            match self.table {
                None => r is None,
                Some(files) => if idx >= files@.len() {
                    r is None
                } else if offset >= files@[idx as int].len {
                    r == Some(0usize)
                } else {
                    let left = files@[idx as int].len - offset;
                    let want = if left < old(buf)@.len() { left } else { old(buf)@.len() as int };
                    &&& (dev is None ==> r is None)
                    &&& (r matches Some(n) ==> n <= want && (n == 0 ==> want == 0))
                },
            },
    {
        let files = match &self.table {
            Some(f) => f,
            None => { return None; },
        };
        if idx >= files.len() {
            return None;
        }
        let file_lba = files[idx].lba;
        let file_len = files[idx].len;
        if offset >= file_len {
            return Some(0);
        }
        let blen = buf.len();
        let left = file_len - offset;
        let want: usize = if left < blen as u64 { left as usize } else { blen };
        let d = match dev {
            Some(d) => d,
            None => { return None; },
        };
        let base = self.base_lba;
        let mut produced: usize = 0;
        while produced < want
            invariant
                self.table == Some(*files),
                idx < files@.len(),
                file_len == files@[idx as int].len,
                offset < file_len,
                left == file_len - offset,
                want == (if left < blen { left as int } else { blen as int }),
                dev == Some(d),
                want <= blen,
                blen == old(buf)@.len(),
                buf@.len() == blen,
                produced <= want,
                produced == 0 ==> buf@ == old(buf)@,
                buf@.subrange(produced as int, blen as int) == old(buf)@.subrange(produced as int, blen as int),
            decreases want - produced,
        {
            let start = match base.checked_add(file_lba) {
                Some(x) => x,
                None => { return if produced > 0 { Some(produced) } else { None }; },
            };
            let pos = match start.checked_mul(512) {
                Some(x) => match x.checked_add(offset) {
                    Some(y) => y.checked_add(produced as u64),
                    None => None,
                },
                None => None,
            };
            let pos = match pos {
                Some(p) => p,
                None => { return if produced > 0 { Some(produced) } else { None }; },
            };
            let first_lba = pos / 512;
            let sub = (pos % 512) as usize;
            let remaining = want - produced;
            let max_bytes = SCRATCH_SECTORS * SECTOR - sub;
            let chunk = if remaining < max_bytes { remaining } else { max_bytes };
            let nsect = (sub + chunk + (SECTOR - 1)) / SECTOR;
            let mut scratch: Vec<u8> = vec![0u8; nsect * SECTOR];
            if d.read_blocks(first_lba, scratch.as_mut_slice()).is_err() {
                return if produced > 0 { Some(produced) } else { None };
            }
            assert(sub + chunk <= nsect * SECTOR);
            let part = vstd::slice::slice_subrange(scratch.as_slice(), sub, sub + chunk);
            let ghost before = buf@;
            crate::bytes::copy_into(buf, produced, part);
            proof {
                let p = produced as int;
                let c = chunk as int;
                assert(buf@.subrange(p + c, blen as int) =~= before.subrange(p + c, blen as int));
                assert(before.subrange(p + c, blen as int) =~= old(buf)@.subrange(p + c, blen as int)) by {
                    assert forall|k: int| p + c <= k < blen implies before[k] == old(buf)@[k] by {
                        assert(before.subrange(p, blen as int)[k - p] == old(buf)@.subrange(p, blen as int)[k - p]);
                    }
                }
            }
            produced = produced + chunk;
        }
        Some(produced)
    }
}

/// Two byte strings are equal.
fn bytes_equal(a: &[u8], b: &[u8]) -> (r: bool)
    ensures r == (a@ == b@),
{
    if a.len() != b.len() {
        return false;
    }
    let mut i: usize = 0;
    while i < a.len()
        invariant
            a@.len() == b@.len(),
            i <= a@.len(),
            forall|k: int| 0 <= k < i ==> a@[k] == b@[k],
        decreases a@.len() - i,
    {
        if a[i] != b[i] {
            return false;
        }
        i += 1;
    }
    assert(a@ =~= b@);
    true
}

} // verus!
