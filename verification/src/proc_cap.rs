//! Process capability system: a 64-bit set of permission flags.
use vstd::prelude::*;
use crate::tier::SecurityTier;

verus! {

/// Whether bit `i` of `bits` is set.
pub open spec fn bit64(bits: u64, i: u64) -> bool {
    (bits >> i) & 1u64 == 1u64
}

/// Setting bit `j` sets exactly that bit.
pub proof fn lemma_bit64_or(a: u64, i: u64, j: u64)
    requires i < 64, j < 64,
    ensures bit64(a | (1u64 << j), i) == (bit64(a, i) || i == j),
{
    assert(((a | (1u64 << j)) >> i) & 1u64 == 1u64 <==> ((a >> i) & 1u64 == 1u64 || i == j))
        by (bit_vector) requires i < 64, j < 64;
}

/// Clearing bit `j` clears exactly that bit.
pub proof fn lemma_bit64_clear(a: u64, i: u64, j: u64)
    requires i < 64, j < 64,
    ensures bit64(a & !(1u64 << j), i) == (bit64(a, i) && i != j),
{
    assert(((a & !(1u64 << j)) >> i) & 1u64 == 1u64 <==> ((a >> i) & 1u64 == 1u64 && i != j))
        by (bit_vector) requires i < 64, j < 64;
}

/// A single-bit mask tests exactly that bit.
pub proof fn lemma_bit64_test(a: u64, j: u64)
    requires j < 64,
    ensures ((a & (1u64 << j)) != 0) == bit64(a, j),
{
    assert(((a & (1u64 << j)) != 0) <==> ((a >> j) & 1u64 == 1u64)) by (bit_vector) requires j < 64;
}

/// Bitwise and/or act bit by bit.
pub proof fn lemma_bit64_and_or(a: u64, b: u64, i: u64)
    requires i < 64,
    ensures
        bit64(a & b, i) == (bit64(a, i) && bit64(b, i)),
        bit64(a | b, i) == (bit64(a, i) || bit64(b, i)),
        bit64(!a, i) == !bit64(a, i),
{
    assert(((a & b) >> i) & 1u64 == 1u64 <==> ((a >> i) & 1u64 == 1u64 && (b >> i) & 1u64 == 1u64))
        by (bit_vector) requires i < 64;
    assert(((a | b) >> i) & 1u64 == 1u64 <==> ((a >> i) & 1u64 == 1u64 || (b >> i) & 1u64 == 1u64))
        by (bit_vector) requires i < 64;
    assert(((!a) >> i) & 1u64 == 1u64 <==> !((a >> i) & 1u64 == 1u64)) by (bit_vector) requires i < 64;
}

} // verus!

verus! {

/// Individual process capabilities. Each has a fixed bit index; categories
/// occupy consecutive blocks of eight bits.
#[derive(Debug, Clone, Copy, PartialEq, Eq, Structural)]
pub enum Capability {
    MemAlloc, MemFree, MemMap, MemDma, MemKernel,
    ProcSpawn, ProcKill, ProcPriority, ProcDebug, ProcSetCap,
    FileRead, FileWrite, FileExec, FileCreate, FileDelete, FileChmod, FileBypass,
    DevConsole, DevBlock, DevFramebuffer, DevNetwork, DevAll,
    SysReboot, SysTime, SysModule, SysMount, SysRawIo,
    SemQuery, SemCreate, SemModify, SemDelete,
    SemTierPublic, SemTierInternal, SemTierSensitive, SemTierSecret,
}

/// Bit index of a capability.
pub open spec fn cap_index(c: Capability) -> u64 {
    match c {
        Capability::MemAlloc => 0, Capability::MemFree => 1, Capability::MemMap => 2,
        Capability::MemDma => 3, Capability::MemKernel => 4,
        Capability::ProcSpawn => 8, Capability::ProcKill => 9, Capability::ProcPriority => 10,
        Capability::ProcDebug => 11, Capability::ProcSetCap => 12,
        Capability::FileRead => 16, Capability::FileWrite => 17, Capability::FileExec => 18,
        Capability::FileCreate => 19, Capability::FileDelete => 20, Capability::FileChmod => 21,
        Capability::FileBypass => 22,
        Capability::DevConsole => 24, Capability::DevBlock => 25, Capability::DevFramebuffer => 26,
        Capability::DevNetwork => 27, Capability::DevAll => 28,
        Capability::SysReboot => 32, Capability::SysTime => 33, Capability::SysModule => 34,
        Capability::SysMount => 35, Capability::SysRawIo => 36,
        Capability::SemQuery => 40, Capability::SemCreate => 41, Capability::SemModify => 42,
        Capability::SemDelete => 43, Capability::SemTierPublic => 44,
        Capability::SemTierInternal => 45, Capability::SemTierSensitive => 46,
        Capability::SemTierSecret => 47,
    }
}

impl Capability {
    /// The capability's bit index.
    pub fn index(self) -> (r: u64)
        ensures r == cap_index(self), r < 48,
    {
        match self {
            Capability::MemAlloc => 0, Capability::MemFree => 1, Capability::MemMap => 2,
            Capability::MemDma => 3, Capability::MemKernel => 4,
            Capability::ProcSpawn => 8, Capability::ProcKill => 9, Capability::ProcPriority => 10,
            Capability::ProcDebug => 11, Capability::ProcSetCap => 12,
            Capability::FileRead => 16, Capability::FileWrite => 17, Capability::FileExec => 18,
            Capability::FileCreate => 19, Capability::FileDelete => 20, Capability::FileChmod => 21,
            Capability::FileBypass => 22,
            Capability::DevConsole => 24, Capability::DevBlock => 25, Capability::DevFramebuffer => 26,
            Capability::DevNetwork => 27, Capability::DevAll => 28,
            Capability::SysReboot => 32, Capability::SysTime => 33, Capability::SysModule => 34,
            Capability::SysMount => 35, Capability::SysRawIo => 36,
            Capability::SemQuery => 40, Capability::SemCreate => 41, Capability::SemModify => 42,
            Capability::SemDelete => 43, Capability::SemTierPublic => 44,
            Capability::SemTierInternal => 45, Capability::SemTierSensitive => 46,
            Capability::SemTierSecret => 47,
        }
    }

    /// Single-bit mask of this capability.
    pub fn bit(self) -> (r: u64)
        ensures r == 1u64 << cap_index(self),
    {
        1u64 << self.index()
    }

    /// Mask of the eight bits of category `category` (0 = memory, 1 = process, ...).
    pub fn category_mask(category: u32) -> (r: u64)
        requires category < 8,
        ensures r == 0xFFu64 << (category * 8) as u64,
    {
        0xFFu64 << (category * 8) as u64
    }
}

/// A set of process capabilities, one bit per [`Capability`].
#[derive(Debug, Clone, Copy, PartialEq, Eq, Structural)]
pub struct CapabilitySet {
    pub bits: u64,
}

/// Bits that are never inherited by child processes.
pub open spec fn non_inheritable_bits() -> u64 {
    (1u64 << 4u64) | (1u64 << 12u64) | (1u64 << 22u64) | (1u64 << 28u64) | (1u64 << 36u64) | (1u64 << 34u64)
}

impl CapabilitySet {
    /// Whether `cap` is in the set.
    pub open spec fn has_spec(&self, cap: Capability) -> bool {
        bit64(self.bits, cap_index(cap))
    }

    /// The empty set.
    pub fn empty() -> (r: Self)
        ensures r.bits == 0,
    {
        CapabilitySet { bits: 0 }
    }

    /// The full set (every bit).
    pub fn all() -> (r: Self)
        ensures r.bits == 0xFFFF_FFFF_FFFF_FFFFu64,
    {
        CapabilitySet { bits: 0xFFFF_FFFF_FFFF_FFFFu64 }
    }

    /// Whether `cap` is in the set.
    pub fn has(&self, cap: Capability) -> (r: bool)
        ensures r == self.has_spec(cap),
    {
        let i = cap.index();
        proof { lemma_bit64_test(self.bits, i); }
        (self.bits & (1u64 << i)) != 0
    }

    /// Add `cap`.
    pub fn add(&mut self, cap: Capability)
        ensures final(self).bits == old(self).bits | (1u64 << cap_index(cap)),
    {
        self.bits = self.bits | (1u64 << cap.index());
    }

    /// Remove `cap`.
    pub fn remove(&mut self, cap: Capability)
        ensures final(self).bits == old(self).bits & !(1u64 << cap_index(cap)),
    {
        self.bits = self.bits & !(1u64 << cap.index());
    }

    /// Whether every capability of `other` is in `self`.
    pub fn contains(&self, other: &CapabilitySet) -> (r: bool)
        ensures r == ((self.bits & other.bits) == other.bits),
    {
        (self.bits & other.bits) == other.bits
    }

    /// Intersection.
    pub fn intersect(&self, other: &CapabilitySet) -> (r: CapabilitySet)
        ensures r.bits == self.bits & other.bits,
    {
        CapabilitySet { bits: self.bits & other.bits }
    }

    /// Union.
    pub fn union(&self, other: &CapabilitySet) -> (r: CapabilitySet)
        ensures r.bits == self.bits | other.bits,
    {
        CapabilitySet { bits: self.bits | other.bits }
    }

    /// A set from raw bits.
    pub fn from_bits(bits: u64) -> (r: Self)
        ensures r.bits == bits,
    {
        CapabilitySet { bits }
    }

    /// The raw bits.
    pub fn bits(&self) -> (r: u64)
        ensures r == self.bits,
    {
        self.bits
    }

    /// Capabilities of a typical user process.
    pub fn default_user() -> (r: Self)
        ensures r.bits == 0x1100_010f_0103u64,
    {
        let mut set = Self::empty();
        set.add(Capability::MemAlloc);
        set.add(Capability::MemFree);
        set.add(Capability::ProcSpawn);
        set.add(Capability::FileRead);
        set.add(Capability::FileWrite);
        set.add(Capability::FileExec);
        set.add(Capability::FileCreate);
        set.add(Capability::DevConsole);
        set.add(Capability::SemQuery);
        set.add(Capability::SemTierPublic);
        let ghost b = set.bits;
        assert(b == 0x1100_010f_0103u64) by (bit_vector)
            requires b == ((((((((((0u64 | (1u64 << 0u64)) | (1u64 << 1u64)) | (1u64 << 8u64)) | (1u64 << 16u64))
            | (1u64 << 17u64)) | (1u64 << 18u64)) | (1u64 << 19u64)) | (1u64 << 24u64))
            | (1u64 << 40u64)) | (1u64 << 44u64));
        set
    }

    /// Capabilities of a sandboxed process.
    pub fn minimal() -> (r: Self)
        ensures r.bits == 0x1100_0101_0003u64,
    {
        let mut set = Self::empty();
        set.add(Capability::MemAlloc);
        set.add(Capability::MemFree);
        set.add(Capability::FileRead);
        set.add(Capability::DevConsole);
        set.add(Capability::SemQuery);
        set.add(Capability::SemTierPublic);
        let ghost b = set.bits;
        assert(b == 0x1100_0101_0003u64) by (bit_vector)
            requires b == ((((((0u64 | (1u64 << 0u64)) | (1u64 << 1u64)) | (1u64 << 16u64)) | (1u64 << 24u64))
            | (1u64 << 40u64)) | (1u64 << 44u64));
        set
    }

    /// Capabilities a child may inherit: everything but MemKernel, ProcSetCap,
    /// FileBypass, DevAll, SysRawIo and SysModule.
    pub fn inheritable() -> (r: Self)
        ensures r.bits == !non_inheritable_bits(),
    {
        let b = 0xFFFF_FFFF_FFFF_FFFFu64
            & !(Capability::MemKernel.bit())
            & !(Capability::ProcSetCap.bit())
            & !(Capability::FileBypass.bit())
            & !(Capability::DevAll.bit())
            & !(Capability::SysRawIo.bit())
            & !(Capability::SysModule.bit());
        assert(b == !non_inheritable_bits()) by (bit_vector)
            requires b == 0xFFFF_FFFF_FFFF_FFFFu64 & !(1u64 << 4u64) & !(1u64 << 12u64) & !(1u64 << 22u64)
                & !(1u64 << 28u64) & !(1u64 << 36u64) & !(1u64 << 34u64);
        Self::from_bits(b)
    }

    /// The capabilities a child process gets: the inheritable subset of ours.
    pub fn inherit(&self) -> (r: Self)
        ensures r.bits == self.bits & !non_inheritable_bits(),
    {
        self.intersect(&Self::inheritable())
    }

    /// Number of capabilities (set bits).
    pub fn count(&self) -> (r: u32)
        ensures r == popcount(self.bits, 64),
    {
        let mut n: u32 = 0;
        let mut i: u64 = 0;
        while i < 64
            invariant i <= 64, n == popcount(self.bits, i as nat), n <= i,
            decreases 64 - i,
        {
            if (self.bits >> i) & 1 == 1 {
                n = n + 1;
            }
            i = i + 1;
        }
        n
    }
}

/// Number of set bits among the low `n` bits of `bits`.
pub open spec fn popcount(bits: u64, n: nat) -> nat
    decreases n,
{
    if n == 0 { 0 } else { popcount(bits, (n - 1) as nat) + if bit64(bits, (n - 1) as u64) { 1nat } else { 0nat } }
}

/// Error of a capability check.
#[derive(Debug, Clone, Copy, PartialEq, Eq, Structural)]
pub enum CapError {
    MissingCapability(Capability),
    NotPermitted,
}

/// Check that the current process (if any) holds `cap`. Without a current
/// process (early boot) the caller is the kernel and the check passes.
pub fn check(current: Option<&CapabilitySet>, cap: Capability) -> (r: Result<(), CapError>)
    ensures
        r == (match current {
            Some(c) => if c.has_spec(cap) { Ok(()) } else { Err(CapError::MissingCapability(cap)) },
            None => Ok(()),
        }),
{
    match current {
        Some(c) => if c.has(cap) { Ok(()) } else { Err(CapError::MissingCapability(cap)) },
        None => Ok(()),
    }
}

/// Check every capability of `caps` in order; the first missing one is reported.
pub fn check_all(current: Option<&CapabilitySet>, caps: &[Capability]) -> (r: Result<(), CapError>)
    ensures
        match current {
            None => r == Ok::<(), CapError>(()),
            Some(c) => match r {
                Ok(_) => forall|i: int| 0 <= i < caps@.len() ==> c.has_spec(#[trigger] caps@[i]),
                Err(e) => exists|i: int| 0 <= i < caps@.len()
                    && e == CapError::MissingCapability(caps@[i])
                    && !c.has_spec(caps@[i])
                    && forall|j: int| 0 <= j < i ==> c.has_spec(#[trigger] caps@[j]),
            },
        },
{
    let mut i: usize = 0;
    while i < caps.len()
        invariant
            i <= caps@.len(),
            current is None || forall|j: int| 0 <= j < i ==> current.unwrap().has_spec(#[trigger] caps@[j]),
        decreases caps@.len() - i,
    {
        match check(current, caps[i]) {
            Ok(()) => {}
            Err(e) => { return Err(e); }
        }
        i = i + 1;
    }
    Ok(())
}

/// The capability that guards access to `tier`.
pub open spec fn tier_cap(tier: SecurityTier) -> Capability {
    match tier {
        SecurityTier::Public => Capability::SemTierPublic,
        SecurityTier::Internal => Capability::SemTierInternal,
        SecurityTier::Sensitive => Capability::SemTierSensitive,
        SecurityTier::Secret => Capability::SemTierSecret,
    }
}

/// Check that the current process may access `tier`.
pub fn check_tier(current: Option<&CapabilitySet>, tier: SecurityTier) -> (r: Result<(), CapError>)
    ensures
        r == (match current {
            Some(c) => if c.has_spec(tier_cap(tier)) { Ok(()) } else { Err(CapError::MissingCapability(tier_cap(tier))) },
            None => Ok(()),
        }),
{
    let required_cap = match tier {
        SecurityTier::Public => Capability::SemTierPublic,
        SecurityTier::Internal => Capability::SemTierInternal,
        SecurityTier::Sensitive => Capability::SemTierSensitive,
        SecurityTier::Secret => Capability::SemTierSecret,
    };
    check(current, required_cap)
}

/// After `add(c)`, exactly the old capabilities and `c` are present.
pub proof fn law_add_then_has(s: CapabilitySet, c: Capability, d: Capability)
    ensures
        (CapabilitySet { bits: s.bits | (1u64 << cap_index(c)) }).has_spec(d) == (s.has_spec(d) || d == c),
{
    lemma_bit64_or(s.bits, cap_index(d), cap_index(c));
    lemma_index_injective(c, d);
}

/// After `remove(c)`, `c` is absent and every other capability is unchanged.
pub proof fn law_remove_then_has(s: CapabilitySet, c: Capability, d: Capability)
    ensures
        (CapabilitySet { bits: s.bits & !(1u64 << cap_index(c)) }).has_spec(d) == (s.has_spec(d) && d != c),
{
    lemma_bit64_clear(s.bits, cap_index(d), cap_index(c));
    lemma_index_injective(c, d);
}

/// An inherited set never holds a dangerous capability, and holds every other
/// capability exactly when the parent does.
pub proof fn law_inherit(s: CapabilitySet, d: Capability)
    ensures
        (CapabilitySet { bits: s.bits & !non_inheritable_bits() }).has_spec(d) ==
            (s.has_spec(d) && d != Capability::MemKernel && d != Capability::ProcSetCap
                && d != Capability::FileBypass && d != Capability::DevAll
                && d != Capability::SysRawIo && d != Capability::SysModule),
{
    let i = cap_index(d);
    let b = s.bits;
    assert(((b & !((1u64 << 4u64) | (1u64 << 12u64) | (1u64 << 22u64) | (1u64 << 28u64) | (1u64 << 36u64) | (1u64 << 34u64))) >> i) & 1u64 == 1u64
        <==> (((b >> i) & 1u64 == 1u64) && i != 4 && i != 12 && i != 22 && i != 28 && i != 36 && i != 34))
        by (bit_vector) requires i < 64;
}

proof fn lemma_index_injective(c: Capability, d: Capability)
    ensures (cap_index(c) == cap_index(d)) == (c == d),
{
}

} // verus!
