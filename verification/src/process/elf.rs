//! ELF64 loader checks: header validation, the loadable segments, and the
//! resulting entry point, heap start and stack top. Built for x86_64.
use vstd::prelude::*;
use vstd::string::StringSliceAdditionalSpecFns;
use crate::fmt::{dec_digits, push_decimal};
use crate::bytes::{from_le16, from_le32, from_le64, read_le16, read_le32, read_le64, le16, le32, le64,
    u16_to_le, u32_to_le, u64_to_le, push_bytes, to_array};

verus! {

/// Machine type of AArch64.
pub const EM_AARCH64: u16 = 183;
/// Machine type of x86_64.
pub const EM_X86_64: u16 = 62;
/// The machine this kernel is built for.
pub const EXPECTED_MACHINE: u16 = 62;

/// Loadable segment.
pub const PT_LOAD: u32 = 1;
/// Segment flags.
pub const PF_X: u32 = 1;
pub const PF_W: u32 = 2;
pub const PF_R: u32 = 4;

pub const ELFCLASS64: u8 = 2;
pub const ELFDATA2LSB: u8 = 1;
pub const ET_EXEC: u16 = 2;
pub const ET_DYN: u16 = 3;
/// Load address of position-independent executables.
pub const PIE_BASE: u64 = 0x40_0000;
/// Top of the user stack.
pub const STACK_TOP: u64 = 0x7F_FFFF_0000;
/// User stack size.
pub const STACK_SIZE: usize = 65536;
/// Start of kernel space; no user segment may lie there.
pub const KERNEL_SPACE: u64 = 0xFFFF_0000_0000_0000;
/// Bytes of an ELF64 header.
pub const EHDR_SIZE: usize = 64;
/// Bytes of a program header.
pub const PHDR_SIZE: usize = 56;

/// ELF64 file header.
#[derive(Debug, Clone, Copy)]
pub struct Elf64Header {
    pub e_ident: [u8; 16],
    pub e_type: u16,
    pub e_machine: u16,
    pub e_version: u32,
    pub e_entry: u64,
    pub e_phoff: u64,
    pub e_shoff: u64,
    pub e_flags: u32,
    pub e_ehsize: u16,
    pub e_phentsize: u16,
    pub e_phnum: u16,
    pub e_shentsize: u16,
    pub e_shnum: u16,
    pub e_shstrndx: u16,
}

/// ELF64 program header.
#[derive(Debug, Clone, Copy)]
pub struct Elf64Phdr {
    pub p_type: u32,
    pub p_flags: u32,
    pub p_offset: u64,
    pub p_vaddr: u64,
    pub p_paddr: u64,
    pub p_filesz: u64,
    pub p_memsz: u64,
    pub p_align: u64,
}

/// What the loader learned about an executable.
#[derive(Debug, Clone, Copy, PartialEq, Eq, Structural)]
pub struct ElfInfo {
    pub entry: usize,
    /// Load base (non-zero for position-independent executables).
    pub base: usize,
    /// End of the loaded segments rounded up to a page: the heap start.
    pub brk: usize,
    pub stack_top: usize,
    pub num_segments: usize,
}

/// Why an executable is refused.
#[derive(Debug, Clone, Copy, PartialEq, Eq, Structural)]
pub enum ElfError {
    BadMagic,
    WrongClass,
    WrongEndian,
    WrongMachine,
    UnsupportedType,
    TooSmall,
    BadProgramHeader,
    OverlapsKernel,
    OutOfMemory,
}

pub open spec fn u16_at(d: Seq<u8>, off: int) -> u16 { from_le16(d.subrange(off, off + 2)) }
pub open spec fn u32_at(d: Seq<u8>, off: int) -> u32 { from_le32(d.subrange(off, off + 4)) }
pub open spec fn u64_at(d: Seq<u8>, off: int) -> u64 { from_le64(d.subrange(off, off + 8)) }

/// `h` holds the header fields stored at the start of `d`.
pub open spec fn header_parsed(h: Elf64Header, d: Seq<u8>) -> bool {
    &&& h.e_ident@ == d.subrange(0, 16)
    &&& h.e_type == u16_at(d, 16) && h.e_machine == u16_at(d, 18) && h.e_version == u32_at(d, 20)
    &&& h.e_entry == u64_at(d, 24) && h.e_phoff == u64_at(d, 32) && h.e_shoff == u64_at(d, 40)
    &&& h.e_flags == u32_at(d, 48) && h.e_ehsize == u16_at(d, 52) && h.e_phentsize == u16_at(d, 54)
    &&& h.e_phnum == u16_at(d, 56) && h.e_shentsize == u16_at(d, 58) && h.e_shnum == u16_at(d, 60)
    &&& h.e_shstrndx == u16_at(d, 62)
}

/// `p` holds the program header fields stored in `d` at `off`.
pub open spec fn phdr_parsed(p: Elf64Phdr, d: Seq<u8>, off: int) -> bool {
    &&& p.p_type == u32_at(d, off) && p.p_flags == u32_at(d, off + 4) && p.p_offset == u64_at(d, off + 8)
    &&& p.p_vaddr == u64_at(d, off + 16) && p.p_paddr == u64_at(d, off + 24)
    &&& p.p_filesz == u64_at(d, off + 32) && p.p_memsz == u64_at(d, off + 40) && p.p_align == u64_at(d, off + 48)
}

/// The header checks, in order: size, magic, class, byte order, machine, type.
pub open spec fn validate_spec(d: Seq<u8>) -> Result<(), ElfError> {
    if d.len() < EHDR_SIZE {
        Err(ElfError::TooSmall)
    } else if d.subrange(0, 4) != seq![0x7Fu8, 0x45u8, 0x4Cu8, 0x46u8] {
        Err(ElfError::BadMagic)
    } else if d[4] != ELFCLASS64 {
        Err(ElfError::WrongClass)
    } else if d[5] != ELFDATA2LSB {
        Err(ElfError::WrongEndian)
    } else if u16_at(d, 18) != EXPECTED_MACHINE {
        Err(ElfError::WrongMachine)
    } else if u16_at(d, 16) != ET_EXEC && u16_at(d, 16) != ET_DYN {
        Err(ElfError::UnsupportedType)
    } else {
        Ok(())
    }
}

/// Offset of program header `i`.
pub open spec fn phdr_off(d: Seq<u8>, i: int) -> int {
    u64_at(d, 32) as int + i * (u16_at(d, 54) as int)
}

/// Walk program headers `i..phnum`, with the highest segment end `max` and
/// the loadable-segment count `n` so far. None when a program header does
/// not fit the file, a segment starts in kernel space, its file bytes run
/// past the file, or its end does not fit 64 bits.
pub open spec fn scan_segments(d: Seq<u8>, base: u64, i: int, max: u64, n: nat) -> Option<(u64, nat)>
    decreases u16_at(d, 56) - i,
{
    if i < 0 || i >= u16_at(d, 56) {
        Some((max, n))
    } else {
        let off = phdr_off(d, i);
        if off + PHDR_SIZE > d.len() {
            None
        } else if u32_at(d, off) != PT_LOAD {
            scan_segments(d, base, i + 1, max, n)
        } else {
            let vaddr = ((u64_at(d, off + 16) + base) % 0x1_0000_0000_0000_0000) as u64;
            let end = vaddr + u64_at(d, off + 40);
            if vaddr >= KERNEL_SPACE {
                None
            } else if u64_at(d, off + 8) + u64_at(d, off + 32) > d.len() {
                None
            } else if end > u64::MAX {
                None
            } else {
                scan_segments(d, base, i + 1, if end > max { end as u64 } else { max }, n + 1)
            }
        }
    }
}

/// Load base: `PIE_BASE` for position-independent executables.
pub open spec fn load_base(d: Seq<u8>) -> u64 {
    if u16_at(d, 16) == ET_DYN { PIE_BASE } else { 0 }
}

/// What `load_elf` returns for `d`.
pub open spec fn load_spec(d: Seq<u8>) -> Option<ElfInfo> {
    if validate_spec(d) is Err {
        None
    } else {
        let base = load_base(d);
        match scan_segments(d, base, 0, 0, 0) {
            None => None,
            Some((max, n)) => if n == 0 || max + 0xFFF > u64::MAX {
                None
            } else {
                Some(ElfInfo {
                    entry: ((u64_at(d, 24) + base) % 0x1_0000_0000_0000_0000) as usize,
                    base: base as usize,
                    brk: (((max + 0xFFF) as u64) & !0xFFFu64) as usize,
                    stack_top: STACK_TOP as usize,
                    num_segments: n as usize,
                })
            },
        }
    }
}

/// Check the header and read it.
pub fn validate_header(data: &[u8]) -> (r: Result<Elf64Header, ElfError>)
    ensures
        r is Ok <==> validate_spec(data@) is Ok,
        r matches Err(e) ==> validate_spec(data@) == Err::<(), ElfError>(e),
        r matches Ok(h) ==> header_parsed(h, data@),
{
    if data.len() < EHDR_SIZE {
        return Err(ElfError::TooSmall);
    }
    let magic_ok = data[0] == 0x7F && data[1] == 0x45 && data[2] == 0x4C && data[3] == 0x46;
    assert(magic_ok == (data@.subrange(0, 4) =~= seq![0x7Fu8, 0x45u8, 0x4Cu8, 0x46u8]));
    if !magic_ok {
        return Err(ElfError::BadMagic);
    }
    if data[4] != ELFCLASS64 {
        return Err(ElfError::WrongClass);
    }
    if data[5] != ELFDATA2LSB {
        return Err(ElfError::WrongEndian);
    }
    let e_machine = read_le16(data, 18);
    if e_machine != EXPECTED_MACHINE {
        return Err(ElfError::WrongMachine);
    }
    let e_type = read_le16(data, 16);
    if e_type != ET_EXEC && e_type != ET_DYN {
        return Err(ElfError::UnsupportedType);
    }
    Ok(Elf64Header {
        e_ident: to_array::<16>(data, 0),
        e_type,
        e_machine,
        e_version: read_le32(data, 20),
        e_entry: read_le64(data, 24),
        e_phoff: read_le64(data, 32),
        e_shoff: read_le64(data, 40),
        e_flags: read_le32(data, 48),
        e_ehsize: read_le16(data, 52),
        e_phentsize: read_le16(data, 54),
        e_phnum: read_le16(data, 56),
        e_shentsize: read_le16(data, 58),
        e_shnum: read_le16(data, 60),
        e_shstrndx: read_le16(data, 62),
    })
}

/// Program header `index`; `BadProgramHeader` if it does not fit the file.
pub fn get_phdr(data: &[u8], header: &Elf64Header, index: u16) -> (r: Result<Elf64Phdr, ElfError>)
    ensures
        ({
            let off = header.e_phoff as int + index * (header.e_phentsize as int);
            &&& r is Ok <==> off + PHDR_SIZE <= data@.len()
            &&& r is Err ==> r == Err::<Elf64Phdr, ElfError>(ElfError::BadProgramHeader)
            &&& r matches Ok(p) ==> phdr_parsed(p, data@, off)
        }),
{
    let a = index as u64;
    let b = header.e_phentsize as u64;
    assert(a * b <= 65535 * 65535) by (nonlinear_arith) requires a <= 65535, b <= 65535;
    let rel = a * b;
    let len = data.len() as u64;
    if header.e_phoff > len || rel > len - header.e_phoff || (PHDR_SIZE as u64) > len - header.e_phoff - rel {
        return Err(ElfError::BadProgramHeader);
    }
    let off = (header.e_phoff + rel) as usize;
    Ok(Elf64Phdr {
        p_type: read_le32(data, off),
        p_flags: read_le32(data, off + 4),
        p_offset: read_le64(data, off + 8),
        p_vaddr: read_le64(data, off + 16),
        p_paddr: read_le64(data, off + 24),
        p_filesz: read_le64(data, off + 32),
        p_memsz: read_le64(data, off + 40),
        p_align: read_le64(data, off + 48),
    })
}

/// Validate an executable and compute where it loads: entry point, base,
/// heap start (end of the highest segment rounded up to 4 KiB), stack top
/// and the number of loadable segments. None if it is refused.
#[verifier::spinoff_prover]
#[verifier::rlimit(40)]
pub fn load_elf(data: &[u8]) -> (r: Option<ElfInfo>)
    ensures r == load_spec(data@),
{
    let header = match validate_header(data) {
        Ok(h) => h,
        Err(_) => { return None; }
    };
    let base: u64 = if header.e_type == ET_DYN { PIE_BASE } else { 0 };
    let mut max_addr: u64 = 0;
    let mut num_segments: usize = 0;
    let mut i: u16 = 0;
    let ghost d = data@;
    while i < header.e_phnum
        invariant
            header_parsed(header, d), d == data@, base == load_base(d), num_segments <= i,
            i <= header.e_phnum,
            scan_segments(d, base, 0, 0, 0) == scan_segments(d, base, i as int, max_addr, num_segments as nat),
        decreases header.e_phnum - i,
    {
        let phdr = match get_phdr(data, &header, i) {
            Ok(p) => p,
            Err(_) => { return None; }
        };
        if phdr.p_type == PT_LOAD {
            let vaddr = phdr.p_vaddr.wrapping_add(base);
            if vaddr >= KERNEL_SPACE {
                return None;
            }
            let len = data.len() as u64;
            if phdr.p_offset > len || phdr.p_filesz > len - phdr.p_offset {
                return None;
            }
            if phdr.p_memsz > u64::MAX - vaddr {
                return None;
            }
            let end_addr = vaddr + phdr.p_memsz;
            if end_addr > max_addr {
                max_addr = end_addr;
            }
            num_segments += 1;
        }
        i += 1;
    }
    if num_segments == 0 || max_addr > u64::MAX - 0xFFF {
        return None;
    }
    let entry = header.e_entry.wrapping_add(base);
    let brk = (max_addr + 0xFFF) & !0xFFFu64;
    Some(ElfInfo {
        entry: entry as usize,
        base: base as usize,
        brk: brk as usize,
        stack_top: STACK_TOP as usize,
        num_segments,
    })
}

/// The header and program header shared by the two sample executables: an
/// x86_64 executable entered at 0x400078 with one 256-byte read+execute
/// segment at 0x400000 holding the whole file.
pub open spec fn sample_headers() -> Seq<u8> {
    seq![0x7Fu8, 0x45u8, 0x4Cu8, 0x46u8, 2u8, 1u8, 1u8] + Seq::new(9, |i: int| 0u8)
        + le16(ET_EXEC) + le16(EXPECTED_MACHINE) + le32(1) + le64(0x400078) + le64(64)
        + Seq::new(12, |i: int| 0u8) + le16(64) + le16(56) + le16(1) + Seq::new(6, |i: int| 0u8)
        + le32(PT_LOAD) + le32(PF_R | PF_X) + le64(0) + le64(0x400000) + le64(0x400000)
        + le64(256) + le64(256) + le64(0x1000)
}

/// The code of the test executable: `xor edi, edi; mov eax, 2; syscall`.
pub open spec fn exit_code_bytes() -> Seq<u8> {
    seq![0x31u8, 0xFFu8, 0xB8u8] + le32(2) + seq![0x0Fu8, 0x05u8]
}

/// The string the hello executable writes.
pub open spec fn hello_text() -> Seq<u8> {
    seq![72u8, 101u8, 108u8, 108u8, 111u8, 32u8, 102u8, 114u8, 111u8, 109u8, 32u8, 82u8, 105u8, 110u8,
        103u8, 32u8, 51u8, 32u8, 69u8, 76u8, 70u8, 32u8, 98u8, 105u8, 110u8, 97u8, 114u8, 121u8, 33u8, 10u8]
}

/// The code of the hello executable: write the string at 0x4000D0, then exit(0).
pub open spec fn hello_code_bytes() -> Seq<u8> {
    seq![0x48u8, 0xBFu8] + le64(0x4000D0) + seq![0xBEu8] + le32(30) + seq![0xB8u8] + le32(0)
        + seq![0x0Fu8, 0x05u8, 0x31u8, 0xFFu8, 0xB8u8] + le32(2) + seq![0x0Fu8, 0x05u8]
}

fn push_zeros(v: &mut Vec<u8>, n: usize)
    ensures final(v)@ == old(v)@ + Seq::new(n as nat, |i: int| 0u8),
{
    let mut i: usize = 0;
    let ghost v0 = v@;
    while i < n
        invariant i <= n, v@ == v0 + Seq::new(i as nat, |k: int| 0u8),
        decreases n - i,
    {
        v.push(0);
        i += 1;
        assert(v@ =~= v0 + Seq::new(i as nat, |k: int| 0u8));
    }
}

fn push_sample_headers(v: &mut Vec<u8>)
    ensures final(v)@ == old(v)@ + sample_headers(),
{
    let ghost v0 = v@;
    let ident = [0x7Fu8, 0x45, 0x4C, 0x46, 2, 1, 1];
    push_bytes(v, ident.as_slice());
    push_zeros(v, 9);
    push_bytes(v, u16_to_le(ET_EXEC).as_slice());
    push_bytes(v, u16_to_le(EXPECTED_MACHINE).as_slice());
    push_bytes(v, u32_to_le(1).as_slice());
    push_bytes(v, u64_to_le(0x400078).as_slice());
    push_bytes(v, u64_to_le(64).as_slice());
    push_zeros(v, 12);
    push_bytes(v, u16_to_le(64).as_slice());
    push_bytes(v, u16_to_le(56).as_slice());
    push_bytes(v, u16_to_le(1).as_slice());
    push_zeros(v, 6);
    push_bytes(v, u32_to_le(PT_LOAD).as_slice());
    push_bytes(v, u32_to_le(PF_R | PF_X).as_slice());
    push_bytes(v, u64_to_le(0).as_slice());
    push_bytes(v, u64_to_le(0x400000).as_slice());
    push_bytes(v, u64_to_le(0x400000).as_slice());
    push_bytes(v, u64_to_le(256).as_slice());
    push_bytes(v, u64_to_le(256).as_slice());
    push_bytes(v, u64_to_le(0x1000).as_slice());
    assert(ident@ =~= seq![0x7Fu8, 0x45u8, 0x4Cu8, 0x46u8, 2u8, 1u8, 1u8]);
    assert(v@ =~= v0 + sample_headers());
}

/// A minimal x86_64 executable that exits with code 0.
pub fn create_test_elf() -> (r: [u8; 256])
    ensures r@ == sample_headers() + exit_code_bytes() + Seq::new(127, |i: int| 0u8),
{
    let mut v: Vec<u8> = Vec::new();
    push_sample_headers(&mut v);
    let code = [0x31u8, 0xFF, 0xB8];
    push_bytes(&mut v, code.as_slice());
    push_bytes(&mut v, u32_to_le(2).as_slice());
    let sc = [0x0Fu8, 0x05];
    push_bytes(&mut v, sc.as_slice());
    push_zeros(&mut v, 127);
    assert(code@ =~= seq![0x31u8, 0xFFu8, 0xB8u8]);
    assert(sc@ =~= seq![0x0Fu8, 0x05u8]);
    assert(v@ =~= sample_headers() + exit_code_bytes() + Seq::new(127, |i: int| 0u8));
    to_array::<256>(v.as_slice(), 0)
}

/// An x86_64 executable that writes "Hello from Ring 3 ELF binary!\n"
/// (stored at offset 0xD0 of its segment) and exits with code 0.
pub fn create_hello_elf() -> (r: [u8; 256])
    ensures
        r@ == sample_headers() + hello_code_bytes() + Seq::new(57, |i: int| 0u8) + hello_text()
            + Seq::new(18, |i: int| 0u8),
{
    let mut v: Vec<u8> = Vec::new();
    push_sample_headers(&mut v);
    let c1 = [0x48u8, 0xBF];
    push_bytes(&mut v, c1.as_slice());
    push_bytes(&mut v, u64_to_le(0x4000D0).as_slice());
    let c2 = [0xBEu8];
    push_bytes(&mut v, c2.as_slice());
    push_bytes(&mut v, u32_to_le(30).as_slice());
    let c3 = [0xB8u8];
    push_bytes(&mut v, c3.as_slice());
    push_bytes(&mut v, u32_to_le(0).as_slice());
    let c4 = [0x0Fu8, 0x05, 0x31, 0xFF, 0xB8];
    push_bytes(&mut v, c4.as_slice());
    push_bytes(&mut v, u32_to_le(2).as_slice());
    let c5 = [0x0Fu8, 0x05];
    push_bytes(&mut v, c5.as_slice());
    push_zeros(&mut v, 57);
    let msg = [72u8, 101, 108, 108, 111, 32, 102, 114, 111, 109, 32, 82, 105, 110, 103, 32, 51, 32, 69, 76,
        70, 32, 98, 105, 110, 97, 114, 121, 33, 10];
    push_bytes(&mut v, msg.as_slice());
    push_zeros(&mut v, 18);
    assert(c1@ =~= seq![0x48u8, 0xBFu8]);
    assert(c2@ =~= seq![0xBEu8]);
    assert(c3@ =~= seq![0xB8u8]);
    assert(c4@ =~= seq![0x0Fu8, 0x05u8, 0x31u8, 0xFFu8, 0xB8u8]);
    assert(c5@ =~= seq![0x0Fu8, 0x05u8]);
    assert(msg@ =~= hello_text());
    assert(v@ =~= sample_headers() + hello_code_bytes() + Seq::new(57, |i: int| 0u8) + hello_text()
        + Seq::new(18, |i: int| 0u8));
    to_array::<256>(v.as_slice(), 0)
}

/// "R--" style text of segment flags: read, write, execute.
pub fn flags_str(flags: u32) -> (r: &'static str)
    ensures
        r@ == seq![if flags & PF_R != 0 { 'R' } else { '-' }, if flags & PF_W != 0 { 'W' } else { '-' },
            if flags & PF_X != 0 { 'X' } else { '-' }],
{
    let r = flags & PF_R != 0;
    let w = flags & PF_W != 0;
    let x = flags & PF_X != 0;
    proof {
        reveal_strlit("R--");
        reveal_strlit("RW-");
        reveal_strlit("R-X");
        reveal_strlit("RWX");
        reveal_strlit("--X");
        reveal_strlit("-W-");
        reveal_strlit("-WX");
        reveal_strlit("---");
    }
    let s = if r {
        if w { if x { "RWX" } else { "RW-" } } else { if x { "R-X" } else { "R--" } }
    } else {
        if w { if x { "-WX" } else { "-W-" } } else { if x { "--X" } else { "---" } }
    };
    assert(s@ =~= seq![if r { 'R' } else { '-' }, if w { 'W' } else { '-' }, if x { 'X' } else { '-' }]);
    s
}


/// The message for a refused header.
pub open spec fn elf_error_text(e: ElfError) -> Seq<u8> {
    match e {
        ElfError::BadMagic => "bad magic\n".spec_bytes(),
        ElfError::WrongClass => "not 64-bit\n".spec_bytes(),
        ElfError::WrongEndian => "not little-endian\n".spec_bytes(),
        ElfError::WrongMachine => "wrong architecture\n".spec_bytes(),
        ElfError::UnsupportedType => "unsupported type\n".spec_bytes(),
        ElfError::TooSmall => "data too small\n".spec_bytes(),
        _ => "unknown error\n".spec_bytes(),
    }
}

/// The lines for the loadable segments among program headers `0..i`.
pub open spec fn segment_lines(d: Seq<u8>, i: int) -> Seq<u8>
    decreases i,
{
    if i <= 0 {
        Seq::empty()
    } else {
        let off = phdr_off(d, i - 1);
        let prev = segment_lines(d, i - 1);
        if off + PHDR_SIZE <= d.len() && u32_at(d, off) == PT_LOAD {
            prev + "  LOAD: 0x".spec_bytes() + dec_digits(u64_at(d, off + 16) as nat) + " (".spec_bytes()
                + dec_digits(u64_at(d, off + 40) as nat) + " bytes) ".spec_bytes()
                + flags_text(u32_at(d, off + 4)) + "\n".spec_bytes()
        } else {
            prev
        }
    }
}

/// The flag text of `flags_str`, as bytes.
pub open spec fn flags_text(flags: u32) -> Seq<u8> {
    seq![if flags & PF_R != 0 { 82u8 } else { 45u8 }, if flags & PF_W != 0 { 87u8 } else { 45u8 },
        if flags & PF_X != 0 { 88u8 } else { 45u8 }]
}

/// The description `elf_info_text` gives of `d`.
pub open spec fn elf_info_spec(d: Seq<u8>) -> Seq<u8> {
    match validate_spec(d) {
        Err(e) => "[elf] Invalid ELF: ".spec_bytes() + elf_error_text(e),
        Ok(_) => "[elf] ELF64 ".spec_bytes()
            + (if u16_at(d, 16) == ET_EXEC { "executable".spec_bytes() } else { "PIE/shared object".spec_bytes() })
            + "\n".spec_bytes() + "[elf] Entry: 0x".spec_bytes() + dec_digits(u64_at(d, 24) as nat) + "\n".spec_bytes()
            + "[elf] Program headers: ".spec_bytes() + dec_digits(u16_at(d, 56) as nat) + "\n".spec_bytes()
            + segment_lines(d, u16_at(d, 56) as int),
    }
}

fn flags_bytes(flags: u32) -> (r: [u8; 3])
    ensures r@ == flags_text(flags),
{
    let r = [if flags & PF_R != 0 { 82u8 } else { 45u8 }, if flags & PF_W != 0 { 87u8 } else { 45u8 },
        if flags & PF_X != 0 { 88u8 } else { 45u8 }];
    assert(r@ =~= flags_text(flags));
    r
}

/// A description of an executable for the debug log: its kind, entry point
/// and loadable segments (numbers in decimal), or why it is refused.
pub fn elf_info_text(data: &[u8]) -> (r: Vec<u8>)
    ensures r@ == elf_info_spec(data@),
{
    let mut out: Vec<u8> = Vec::new();
    let header = match validate_header(data) {
        Ok(h) => h,
        Err(e) => {
            push_bytes(&mut out, "[elf] Invalid ELF: ".as_bytes());
            let msg = match e {
                ElfError::BadMagic => "bad magic\n",
                ElfError::WrongClass => "not 64-bit\n",
                ElfError::WrongEndian => "not little-endian\n",
                ElfError::WrongMachine => "wrong architecture\n",
                ElfError::UnsupportedType => "unsupported type\n",
                ElfError::TooSmall => "data too small\n",
                _ => "unknown error\n",
            };
            push_bytes(&mut out, msg.as_bytes());
            return out;
        }
    };
    push_bytes(&mut out, "[elf] ELF64 ".as_bytes());
    if header.e_type == ET_EXEC {
        push_bytes(&mut out, "executable".as_bytes());
    } else {
        push_bytes(&mut out, "PIE/shared object".as_bytes());
    }
    push_bytes(&mut out, "\n".as_bytes());
    push_bytes(&mut out, "[elf] Entry: 0x".as_bytes());
    push_decimal(&mut out, header.e_entry);
    push_bytes(&mut out, "\n".as_bytes());
    push_bytes(&mut out, "[elf] Program headers: ".as_bytes());
    push_decimal(&mut out, header.e_phnum as u64);
    push_bytes(&mut out, "\n".as_bytes());
    let ghost prefix = out@;
    let mut i: u16 = 0;
    while i < header.e_phnum
        invariant
            header_parsed(header, data@), i <= header.e_phnum,
            out@ == prefix + segment_lines(data@, i as int),
        decreases header.e_phnum - i,
    {
        if let Ok(p) = get_phdr(data, &header, i) {
            if p.p_type == PT_LOAD {
                push_bytes(&mut out, "  LOAD: 0x".as_bytes());
                push_decimal(&mut out, p.p_vaddr);
                push_bytes(&mut out, " (".as_bytes());
                push_decimal(&mut out, p.p_memsz);
                push_bytes(&mut out, " bytes) ".as_bytes());
                push_bytes(&mut out, flags_bytes(p.p_flags).as_slice());
                push_bytes(&mut out, "\n".as_bytes());
            }
        }
        i += 1;
        proof {
            assert(out@ =~= prefix + segment_lines(data@, i as int));
        }
    }
    out
}

/// What the walk over program headers `i..` guarantees of the highest segment
/// end it returns: it is at least the end it started from, and at least the
/// end of the memory image (`p_memsz`) of every loadable segment it passes.
proof fn lemma_scan_covers(d: Seq<u8>, base: u64, i: int, max: u64, n: nat, k: int)
    requires 0 <= i,
    ensures
        match scan_segments(d, base, i, max, n) {
            Some((m, _)) => m >= max && ((i <= k < u16_at(d, 56) && u32_at(d, phdr_off(d, k)) == PT_LOAD) ==>
                m as int >= (u64_at(d, phdr_off(d, k) + 16) + base) % 0x1_0000_0000_0000_0000
                    + u64_at(d, phdr_off(d, k) + 40)),
            None => true,
        },
    decreases u16_at(d, 56) - i,
{
    if i < u16_at(d, 56) {
        let off = phdr_off(d, i);
        if off + PHDR_SIZE > d.len() {
        } else if u32_at(d, off) != PT_LOAD {
            lemma_scan_covers(d, base, i + 1, max, n, k);
        } else {
            let vaddr = ((u64_at(d, off + 16) + base) % 0x1_0000_0000_0000_0000) as u64;
            let end = vaddr + u64_at(d, off + 40);
            if end <= u64::MAX {
                let nm: u64 = if end > max { end as u64 } else { max };
                lemma_scan_covers(d, base, i + 1, nm, n + 1, k);
            }
        }
    }
}

/// The heap of an accepted executable begins at or after the end of every
/// loadable segment's memory image, `.bss` included: for each `PT_LOAD`
/// program header `p` (the `k`-th) of an image that `load_elf` accepts,
/// `brk` is the page-aligned address `heap` with
/// `heap >= p_vaddr + base + p_memsz`.
pub proof fn law_brk_covers_segments(d: Seq<u8>, info: ElfInfo, k: int, p: Elf64Phdr) -> (heap: u64)
    requires
        load_spec(d) == Some(info),
        0 <= k < u16_at(d, 56),
        phdr_parsed(p, d, phdr_off(d, k)),
        p.p_type == PT_LOAD,
    ensures
        info.brk == heap as usize,
        heap % 0x1000 == 0,
        heap as int >= (p.p_vaddr as int + info.base as int) % 0x1_0000_0000_0000_0000 + p.p_memsz as int,
{
    let base = load_base(d);
    lemma_scan_covers(d, base, 0, 0, 0, k);
    let m: u64 = scan_segments(d, base, 0, 0, 0).unwrap().0;
    let heap: u64 = ((m + 0xFFF) as u64) & !0xFFFu64;
    assert(m <= 0xFFFF_FFFF_FFFF_F000u64 ==> heap >= m && heap % 0x1000 == 0) by (bit_vector)
        requires heap == ((m + 0xFFF) as u64) & !0xFFFu64;
    heap
}

} // verus!
