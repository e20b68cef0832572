//! Capability tokens for semantic objects.
use vstd::prelude::*;
use crate::suid::SUID;
use crate::slots::{count_some, lemma_count_some_update, lemma_count_some_bound, lemma_count_lt};

verus! {

/// Rights a capability can grant on an object; bit index = position.
#[derive(Debug, Clone, Copy, PartialEq, Eq, Structural)]
pub enum CapabilityType {
    Read, Write, Execute, Delete, Link, ChangeTier, Delegate, Owner,
}

/// Bit index of a right.
pub open spec fn right_index(c: CapabilityType) -> u8 {
    match c {
        CapabilityType::Read => 0, CapabilityType::Write => 1, CapabilityType::Execute => 2,
        CapabilityType::Delete => 3, CapabilityType::Link => 4, CapabilityType::ChangeTier => 5,
        CapabilityType::Delegate => 6, CapabilityType::Owner => 7,
    }
}

impl CapabilityType {
    /// The right with index `val`, if any.
    pub fn from_u8(val: u8) -> (r: Option<Self>)
        ensures
            r is Some <==> val < 8,
            r matches Some(c) ==> right_index(c) == val,
    {
        match val {
            0 => Some(CapabilityType::Read),
            1 => Some(CapabilityType::Write),
            2 => Some(CapabilityType::Execute),
            3 => Some(CapabilityType::Delete),
            4 => Some(CapabilityType::Link),
            5 => Some(CapabilityType::ChangeTier),
            6 => Some(CapabilityType::Delegate),
            7 => Some(CapabilityType::Owner),
            _ => None,
        }
    }

    /// The right's index.
    pub fn index(&self) -> (r: u8)
        ensures r == right_index(*self), r < 8,
    {
        match self {
            CapabilityType::Read => 0, CapabilityType::Write => 1, CapabilityType::Execute => 2,
            CapabilityType::Delete => 3, CapabilityType::Link => 4, CapabilityType::ChangeTier => 5,
            CapabilityType::Delegate => 6, CapabilityType::Owner => 7,
        }
    }

    /// Single-bit mask of the right.
    pub fn mask(&self) -> (r: u8)
        ensures r == 1u8 << right_index(*self),
    {
        1u8 << self.index()
    }
}

/// A set of rights, one bit each.
#[derive(Clone, Copy, Debug, PartialEq, Eq, Structural)]
pub struct CapabilitySet {
    pub bits: u8,
}

/// Whether right `c` is in `bits`.
pub open spec fn has_right(bits: u8, c: CapabilityType) -> bool {
    bits & (1u8 << right_index(c)) != 0
}

impl CapabilitySet {
    pub fn empty() -> (r: Self) ensures r.bits == 0 { CapabilitySet { bits: 0 } }

    pub fn all() -> (r: Self) ensures r.bits == 0xFF { CapabilitySet { bits: 0xFF } }

    /// Read only.
    pub fn read_only() -> (r: Self) ensures r.bits == 1 { CapabilitySet { bits: 1 } }

    /// Read and write.
    pub fn read_write() -> (r: Self) ensures r.bits == 3 { CapabilitySet { bits: 3 } }

    /// The set holding just `cap`.
    pub fn from_cap(cap: CapabilityType) -> (r: Self)
        ensures r.bits == 1u8 << right_index(cap),
    {
        CapabilitySet { bits: cap.mask() }
    }

    /// Whether `cap` is in the set.
    pub fn has(&self, cap: CapabilityType) -> (r: bool)
        ensures r == has_right(self.bits, cap),
    {
        self.bits & cap.mask() != 0
    }

    /// Add `cap`.
    pub fn grant(&mut self, cap: CapabilityType)
        ensures final(self).bits == old(self).bits | (1u8 << right_index(cap)),
    {
        self.bits = self.bits | cap.mask();
    }

    /// Remove `cap`.
    pub fn revoke(&mut self, cap: CapabilityType)
        ensures final(self).bits == old(self).bits & !(1u8 << right_index(cap)),
    {
        self.bits = self.bits & !cap.mask();
    }

    pub fn union(&self, other: &Self) -> (r: Self)
        ensures r.bits == self.bits | other.bits,
    {
        CapabilitySet { bits: self.bits | other.bits }
    }

    pub fn intersect(&self, other: &Self) -> (r: Self)
        ensures r.bits == self.bits & other.bits,
    {
        CapabilitySet { bits: self.bits & other.bits }
    }

    /// Whether every right of `other` is in `self`.
    pub fn contains_all(&self, other: &Self) -> (r: bool)
        ensures r == ((self.bits & other.bits) == other.bits),
    {
        (self.bits & other.bits) == other.bits
    }

    pub fn is_empty(&self) -> (r: bool) ensures r == (self.bits == 0) { self.bits == 0 }

    pub fn bits(&self) -> (r: u8) ensures r == self.bits { self.bits }
}

/// A capability token for one object.
#[derive(Clone, Copy, Debug, PartialEq, Eq, Structural)]
pub struct Capability {
    pub target: SUID,
    pub caps: CapabilitySet,
    /// 0 = never expires.
    pub expires_at: u64,
    pub delegatable: bool,
}

/// Whether a token has expired at `now`.
pub open spec fn expired(c: Capability, now: u64) -> bool {
    c.expires_at != 0 && now > c.expires_at
}

impl Capability {
    /// A non-expiring, non-delegatable token.
    pub fn new(target: SUID, caps: CapabilitySet) -> (r: Self)
        ensures r == (Capability { target, caps, expires_at: 0, delegatable: false }),
    {
        Capability { target, caps, expires_at: 0, delegatable: false }
    }

    /// A non-delegatable token that expires at `expires_at`.
    pub fn with_expiry(target: SUID, caps: CapabilitySet, expires_at: u64) -> (r: Self)
        ensures r == (Capability { target, caps, expires_at, delegatable: false }),
    {
        Capability { target, caps, expires_at, delegatable: false }
    }

    /// Whether the token grants `cap`.
    pub fn allows(&self, cap: CapabilityType) -> (r: bool)
        ensures r == has_right(self.caps.bits, cap),
    {
        self.caps.has(cap)
    }

    /// Whether the token has expired at `current_time`.
    pub fn is_expired(&self, current_time: u64) -> (r: bool)
        ensures r == expired(*self, current_time),
    {
        self.expires_at != 0 && current_time > self.expires_at
    }

    /// A restricted copy for another holder: only if this token is delegatable
    /// and holds Delegate; the copy keeps target and expiry, holds the
    /// intersection of rights and cannot be delegated further.
    pub fn delegate(&self, new_caps: CapabilitySet) -> (r: Option<Self>)
        ensures
            r is Some <==> (self.delegatable && has_right(self.caps.bits, CapabilityType::Delegate)),
            r matches Some(d) ==> d == (Capability {
                target: self.target,
                caps: CapabilitySet { bits: self.caps.bits & new_caps.bits },
                expires_at: self.expires_at,
                delegatable: false,
            }),
    {
        if !self.delegatable || !self.caps.has(CapabilityType::Delegate) {
            return None;
        }
        Some(Capability {
            target: self.target,
            caps: self.caps.intersect(&new_caps),
            expires_at: self.expires_at,
            delegatable: false,
        })
    }
}

/// Slots in a process capability table.
pub const MAX_CAPS: usize = 64;

/// Whether slot `o` holds a token for `t`.
pub open spec fn slot_for(o: Option<Capability>, t: SUID) -> bool {
    match o { Some(c) => c.target == t, None => false }
}

/// No two occupied slots hold tokens for the same target.
pub open spec fn unique_targets(s: Seq<Option<Capability>>) -> bool {
    forall|i: int, j: int| #![trigger s[i], s[j]]
        0 <= i < s.len() && 0 <= j < s.len() && i != j && s[i] is Some && s[j] is Some
            ==> s[i].unwrap().target != s[j].unwrap().target
}

/// Per-process table of capability tokens.
pub struct CapabilityTable {
    pub entries: Vec<Option<Capability>>,
    pub count: usize,
}

impl CapabilityTable {
    /// Table invariant: fixed size, and `count` counts occupied slots.
    pub open spec fn wf(&self) -> bool {
        self.entries@.len() == MAX_CAPS && self.count == count_some(self.entries@)
            && unique_targets(self.entries@)
    }

    /// An empty table.
    pub fn new() -> (r: Self)
        ensures r.wf(), forall|i: int| 0 <= i < MAX_CAPS ==> r.entries@[i] is None,
    {
        let mut entries: Vec<Option<Capability>> = Vec::new();
        let mut i: usize = 0;
        while i < MAX_CAPS
            invariant i <= MAX_CAPS, entries@.len() == i,
                forall|k: int| 0 <= k < i ==> entries@[k] is None,
                count_some(entries@) == 0,
            decreases MAX_CAPS - i,
        {
            let ghost prev = entries@;
            entries.push(None);
            assert(entries@.drop_last() =~= prev);
            i = i + 1;
        }
        CapabilityTable { entries, count: 0 }
    }
}


impl CapabilityTable {
    /// The token for `target`, if the table holds one.
    pub fn lookup(&self, target: &SUID) -> (r: Option<&Capability>)
        requires self.wf(),
        ensures
            r matches Some(c) ==> exists|i: int| 0 <= i < MAX_CAPS && self.entries@[i] == Some(*c) && c.target == *target,
            r is None ==> forall|i: int| 0 <= i < MAX_CAPS ==> !slot_for(#[trigger] self.entries@[i], *target),
    {
        let mut i: usize = 0;
        while i < self.entries.len()
            invariant
                self.wf(), i <= MAX_CAPS,
                forall|k: int| 0 <= k < i ==> !slot_for(#[trigger] self.entries@[k], *target),
            decreases MAX_CAPS - i,
        {
            match &self.entries[i] {
                Some(cap) => {
                    if cap.target == *target {
                        return Some(cap);
                    }
                }
                None => {}
            }
            i = i + 1;
        }
        None
    }

    /// Index of the slot for `target`, if any.
    fn find(&self, target: &SUID) -> (r: Option<usize>)
        requires self.wf(),
        ensures
            r matches Some(i) ==> i < MAX_CAPS && slot_for(self.entries@[i as int], *target),
            r is None ==> forall|i: int| 0 <= i < MAX_CAPS ==> !slot_for(#[trigger] self.entries@[i], *target),
    {
        let mut i: usize = 0;
        while i < self.entries.len()
            invariant
                self.wf(), i <= MAX_CAPS,
                forall|k: int| 0 <= k < i ==> !slot_for(#[trigger] self.entries@[k], *target),
            decreases MAX_CAPS - i,
        {
            match &self.entries[i] {
                Some(cap) => { if cap.target == *target { return Some(i); } }
                None => {}
            }
            i = i + 1;
        }
        None
    }

    /// Add a token. A token for the same target is merged (rights unioned,
    /// other fields kept); otherwise the first free slot takes it. Returns
    /// false, leaving the table unchanged, when the table is full.
    pub fn insert(&mut self, cap: Capability) -> (r: bool)
        requires old(self).wf(),
        ensures
            final(self).wf(),
            (exists|i: int| 0 <= i < MAX_CAPS && slot_for(old(self).entries@[i], cap.target)) ==> r && exists|i: int|
                0 <= i < MAX_CAPS && slot_for(old(self).entries@[i], cap.target) && final(self).entries@
                    == old(self).entries@.update(i, Some(Capability {
                        caps: CapabilitySet { bits: old(self).entries@[i].unwrap().caps.bits | cap.caps.bits },
                        ..old(self).entries@[i].unwrap() })),
            !(exists|i: int| 0 <= i < MAX_CAPS && slot_for(old(self).entries@[i], cap.target)) ==> (
                if exists|i: int| 0 <= i < MAX_CAPS && old(self).entries@[i] is None {
                    r && exists|i: int| 0 <= i < MAX_CAPS && old(self).entries@[i] is None
                        && (forall|j: int| 0 <= j < i ==> old(self).entries@[j] is Some)
                        && final(self).entries@ == old(self).entries@.update(i, Some(cap))
                } else {
                    !r && final(self).entries@ == old(self).entries@
                }),
    {
        match self.find(&cap.target) {
            Some(i) => {
                let existing = self.entries[i].unwrap();
                let merged = Capability { caps: existing.caps.union(&cap.caps), ..existing };
                let ghost old_e = self.entries@;
                self.entries.set(i, Some(merged));
                proof {
                    lemma_count_some_update(old_e, i as int, Some(merged));
                    assert forall|a: int, b: int| #![trigger self.entries@[a], self.entries@[b]]
                        0 <= a < MAX_CAPS && 0 <= b < MAX_CAPS && a != b && self.entries@[a] is Some && self.entries@[b] is Some
                        implies self.entries@[a].unwrap().target != self.entries@[b].unwrap().target by {
                        assert(old_e[a] is Some && old_e[b] is Some);
                    }
                }
                true
            }
            None => {
                let mut j: usize = 0;
                while j < self.entries.len()
                    invariant
                        self.wf(), j <= MAX_CAPS, self.entries@ == old(self).entries@, self.count == old(self).count,
                        forall|k: int| 0 <= k < j ==> self.entries@[k] is Some,
                        forall|k: int| 0 <= k < MAX_CAPS ==> !slot_for(#[trigger] old(self).entries@[k], cap.target),
                    decreases MAX_CAPS - j,
                {
                    if self.entries[j].is_none() {
                        let ghost old_e = self.entries@;
                        self.entries.set(j, Some(cap));
                        proof {
                            lemma_count_some_update(old_e, j as int, Some(cap));
                            lemma_count_some_bound(old_e);
                            lemma_count_lt(old_e, j as int);
                        }
                        self.count = self.count + 1;
                        proof {
                            assert forall|a: int, b: int| #![trigger self.entries@[a], self.entries@[b]]
                                0 <= a < MAX_CAPS && 0 <= b < MAX_CAPS && a != b && self.entries@[a] is Some && self.entries@[b] is Some
                                implies self.entries@[a].unwrap().target != self.entries@[b].unwrap().target by {
                                if a != j && b != j { assert(old_e[a] is Some && old_e[b] is Some); }
                                else if a == j { assert(!slot_for(old_e[b], cap.target)); }
                                else { assert(!slot_for(old_e[a], cap.target)); }
                            }
                        }
                        return true;
                    }
                    j = j + 1;
                }
                false
            }
        }
    }

    /// Whether the table holds an unexpired token for `target` granting `required`.
    pub fn check(&self, target: &SUID, required: CapabilityType, current_time: u64) -> (r: bool)
        requires self.wf(),
        ensures
            r == exists|i: int| 0 <= i < MAX_CAPS && #[trigger] slot_for(self.entries@[i], *target)
                && !expired(self.entries@[i].unwrap(), current_time)
                && has_right(self.entries@[i].unwrap().caps.bits, required),
    {
        match self.find(target) {
            Some(i) => {
                let c = self.entries[i].unwrap();
                proof {
                    if exists|k: int| 0 <= k < MAX_CAPS && #[trigger] slot_for(self.entries@[k], *target)
                        && !expired(self.entries@[k].unwrap(), current_time)
                        && has_right(self.entries@[k].unwrap().caps.bits, required) {
                        let k = choose|k: int| 0 <= k < MAX_CAPS && #[trigger] slot_for(self.entries@[k], *target)
                            && !expired(self.entries@[k].unwrap(), current_time)
                            && has_right(self.entries@[k].unwrap().caps.bits, required);
                        assert(self.entries@[k] is Some && self.entries@[i as int] is Some);
                    }
                }
                !c.is_expired(current_time) && c.allows(required)
            }
            None => false,
        }
    }

    /// Remove the token for `target`; false if there is none.
    pub fn remove(&mut self, target: &SUID) -> (r: bool)
        requires old(self).wf(),
        ensures
            final(self).wf(),
            r == exists|i: int| 0 <= i < MAX_CAPS && slot_for(old(self).entries@[i], *target),
            r ==> exists|i: int| 0 <= i < MAX_CAPS && slot_for(old(self).entries@[i], *target)
                && final(self).entries@ == old(self).entries@.update(i, None),
            !r ==> final(self).entries@ == old(self).entries@,
    {
        match self.find(target) {
            Some(i) => {
                let ghost old_e = self.entries@;
                self.entries.set(i, None);
                proof {
                    lemma_count_some_update(old_e, i as int, None);
                    assert forall|a: int, b: int| #![trigger self.entries@[a], self.entries@[b]]
                        0 <= a < MAX_CAPS && 0 <= b < MAX_CAPS && a != b && self.entries@[a] is Some && self.entries@[b] is Some
                        implies self.entries@[a].unwrap().target != self.entries@[b].unwrap().target by {
                        assert(old_e[a] is Some && old_e[b] is Some);
                    }
                }
                self.count = self.count - 1;
                true
            }
            None => false,
        }
    }

    /// Remove every token expired at `current_time`.
    pub fn cleanup_expired(&mut self, current_time: u64)
        requires old(self).wf(),
        ensures
            final(self).wf(),
            forall|i: int| 0 <= i < MAX_CAPS ==> #[trigger] final(self).entries@[i] == (match old(self).entries@[i] {
                Some(c) => if expired(c, current_time) { None } else { Some(c) },
                None => None,
            }),
    {
        let mut i: usize = 0;
        while i < self.entries.len()
            invariant
                self.wf(), i <= MAX_CAPS,
                forall|k: int| 0 <= k < i ==> #[trigger] self.entries@[k] == (match old(self).entries@[k] {
                    Some(c) => if expired(c, current_time) { None } else { Some(c) },
                    None => None,
                }),
                forall|k: int| i <= k < MAX_CAPS ==> #[trigger] self.entries@[k] == old(self).entries@[k],
            decreases MAX_CAPS - i,
        {
            let e = self.entries[i];
            match e {
                Some(c) => {
                    if c.is_expired(current_time) {
                        let ghost old_e = self.entries@;
                        self.entries.set(i, None);
                        proof {
                            lemma_count_some_update(old_e, i as int, None);
                            assert forall|a: int, b: int| #![trigger self.entries@[a], self.entries@[b]]
                                0 <= a < MAX_CAPS && 0 <= b < MAX_CAPS && a != b && self.entries@[a] is Some && self.entries@[b] is Some
                                implies self.entries@[a].unwrap().target != self.entries@[b].unwrap().target by {
                                assert(old_e[a] is Some && old_e[b] is Some);
                            }
                        }
                        self.count = self.count - 1;
                    }
                }
                None => {}
            }
            i = i + 1;
        }
    }

    /// Number of tokens held.
    pub fn len(&self) -> (r: usize)
        requires self.wf(),
        ensures r == count_some(self.entries@),
    {
        self.count
    }

    /// Whether the table holds no token.
    pub fn is_empty(&self) -> (r: bool)
        requires self.wf(),
        ensures r == (count_some(self.entries@) == 0),
    {
        self.count == 0
    }
}

/// Merging into an existing token keeps one token per object; after an
/// insertion the token for the object grants everything the new token grants.
pub proof fn law_insert_grants(old_caps: CapabilitySet, new_caps: CapabilitySet, c: CapabilityType)
    requires has_right(new_caps.bits, c),
    ensures has_right(old_caps.bits | new_caps.bits, c),
{
    let m = 1u8 << right_index(c);
    let a = old_caps.bits;
    let b = new_caps.bits;
    assert((b & m) != 0u8 ==> ((a | b) & m) != 0u8) by (bit_vector);
}

/// A delegated token never grants a right its source lacks.
pub proof fn law_delegate_attenuates(src: CapabilitySet, req: CapabilitySet, c: CapabilityType)
    ensures has_right(src.bits & req.bits, c) ==> has_right(src.bits, c) && has_right(req.bits, c),
{
    let m = 1u8 << right_index(c);
    let a = src.bits;
    let b = req.bits;
    assert(((a & b) & m) != 0u8 ==> (a & m) != 0u8 && (b & m) != 0u8) by (bit_vector);
}

/// Expiry of a token in a table: a token whose `expires_at` is 0 never
/// expires, and one with a deadline lives up to and including it. While the
/// token held in slot `i` for object `c.target` lives at time `now`, the check
/// for `c.target` answers true for every right the token grants, and cleanup
/// at `now` keeps it; once past a nonzero deadline the check answers false
/// and cleanup removes it.
pub proof fn law_token_expiry(t: CapabilityTable, i: int, c: Capability, required: CapabilityType, now: u64)
    requires
        t.wf(),
        0 <= i < MAX_CAPS,
        t.entries@[i] == Some(c),
    ensures
        (c.expires_at == 0 || now <= c.expires_at) && has_right(c.caps.bits, required) ==>
            exists|k: int| 0 <= k < MAX_CAPS && #[trigger] slot_for(t.entries@[k], c.target)
                && !expired(t.entries@[k].unwrap(), now)
                && has_right(t.entries@[k].unwrap().caps.bits, required),
        (c.expires_at == 0 || now <= c.expires_at) ==> (match t.entries@[i] {
            Some(x) => if expired(x, now) { None } else { Some(x) },
            None => None,
        }) == Some(c),
        (c.expires_at != 0 && now > c.expires_at) ==>
            !exists|k: int| 0 <= k < MAX_CAPS && #[trigger] slot_for(t.entries@[k], c.target)
                && !expired(t.entries@[k].unwrap(), now)
                && has_right(t.entries@[k].unwrap().caps.bits, required),
        (c.expires_at != 0 && now > c.expires_at) ==> (match t.entries@[i] {
            Some(x) => if expired(x, now) { None } else { Some(x) },
            None => None,
        }) == Option::<Capability>::None,
{
    assert(slot_for(t.entries@[i], c.target));
    if c.expires_at != 0 && now > c.expires_at {
        assert forall|k: int| 0 <= k < MAX_CAPS && #[trigger] slot_for(t.entries@[k], c.target)
            implies k == i by {
            if k != i {
                assert(t.entries@[k] is Some && t.entries@[i] is Some);
            }
        }
    }
}

} // verus!
