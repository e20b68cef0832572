//! The object registry: SUID → object lookup through a chained hash table
//! over a fixed pool of entry slots.
use vstd::prelude::*;
use crate::suid::SUID;
use crate::object::SemanticObject;
use crate::tier::SecurityTier;

verus! {

/// Most objects the registry holds.
pub const MAX_OBJECTS: usize = 1024;
/// Hash buckets (a power of two).
pub const NUM_BUCKETS: usize = 256;

/// Bucket of an identifier: the low byte of `high ^ low`.
pub open spec fn bucket_of(s: SUID) -> int {
    ((s.high ^ s.low) & 255u64) as int
}

/// Every identifier falls in one of the buckets.
pub proof fn lemma_bucket_range(s: SUID)
    ensures 0 <= bucket_of(s) < NUM_BUCKETS,
{
    let x = s.high ^ s.low;
    assert(x & 255u64 < 256u64) by (bit_vector);
}

/// One occupied slot: the key, the object and the next slot of its chain.
pub struct RegistryEntry {
    pub suid: SUID,
    pub object: SemanticObject,
    pub next: Option<usize>,
}

/// Whether some slot holds key `s`.
pub open spec fn slots_hold(es: Seq<Option<RegistryEntry>>, s: SUID) -> bool {
    exists|i: int| 0 <= i < es.len() && #[trigger] es[i] is Some && es[i]->0.suid == s
}

/// The object stored under `s` (meaningful when `slots_hold`).
pub open spec fn slots_object(es: Seq<Option<RegistryEntry>>, s: SUID) -> SemanticObject {
    es[choose|i: int| 0 <= i < es.len() && #[trigger] es[i] is Some && es[i]->0.suid == s]->0.object
}

/// No key occurs in two slots.
pub open spec fn slots_unique(es: Seq<Option<RegistryEntry>>) -> bool {
    forall|i: int, j: int|
        0 <= i < es.len() && 0 <= j < es.len() && i != j && #[trigger] es[i] is Some && #[trigger] es[j] is Some
            ==> es[i]->0.suid != es[j]->0.suid
}

/// The key → object map the slots hold.
pub open spec fn slots_map(es: Seq<Option<RegistryEntry>>) -> Map<SUID, SemanticObject> {
    Map::new(|s: SUID| slots_hold(es, s), |s: SUID| slots_object(es, s))
}

/// The stored objects in slot order.
pub open spec fn slots_list(es: Seq<Option<RegistryEntry>>) -> Seq<SemanticObject>
    decreases es.len(),
{
    if es.len() == 0 {
        Seq::empty()
    } else {
        let rest = slots_list(es.drop_last());
        match es.last() {
            Some(e) => rest.push(e.object),
            None => rest,
        }
    }
}

/// A slot holding key `s` gives the map's entry for `s`.
pub proof fn lemma_slot_in_map(es: Seq<Option<RegistryEntry>>, i: int)
    requires slots_unique(es), 0 <= i < es.len(), es[i] is Some,
    ensures
        slots_map(es).dom().contains(es[i]->0.suid),
        slots_map(es)[es[i]->0.suid] == es[i]->0.object,
{
    let s = es[i]->0.suid;
    assert(slots_hold(es, s));
    let j = choose|j: int| 0 <= j < es.len() && #[trigger] es[j] is Some && es[j]->0.suid == s;
    assert(j == i);
}

/// Filling a free slot with a new key adds that key to the map.
pub proof fn lemma_slots_fill(es: Seq<Option<RegistryEntry>>, i: int, e: RegistryEntry)
    requires slots_unique(es), 0 <= i < es.len(), es[i] is None, !slots_hold(es, e.suid),
    ensures
        slots_unique(es.update(i, Some(e))),
        slots_map(es.update(i, Some(e))) == slots_map(es).insert(e.suid, e.object),
{
    let es2 = es.update(i, Some(e));
    assert forall|a: int, b: int|
        0 <= a < es2.len() && 0 <= b < es2.len() && a != b && #[trigger] es2[a] is Some && #[trigger] es2[b] is Some
        implies es2[a]->0.suid != es2[b]->0.suid by {
        if a == i {
            assert(es[b] is Some && es[b]->0.suid == es2[b]->0.suid);
        } else if b == i {
            assert(es[a] is Some && es[a]->0.suid == es2[a]->0.suid);
        }
    }
    let m = slots_map(es).insert(e.suid, e.object);
    assert forall|s: SUID| #[trigger] slots_map(es2).dom().contains(s) <==> m.dom().contains(s) by {
        if slots_hold(es2, s) {
            let j = choose|j: int| 0 <= j < es2.len() && #[trigger] es2[j] is Some && es2[j]->0.suid == s;
            if j != i { assert(es[j] is Some && es[j]->0.suid == s); }
        }
        if s == e.suid { assert(es2[i] is Some); }
        else if slots_hold(es, s) {
            let j = choose|j: int| 0 <= j < es.len() && #[trigger] es[j] is Some && es[j]->0.suid == s;
            assert(es2[j] is Some && es2[j]->0.suid == s);
        }
    }
    assert forall|s: SUID| #[trigger] slots_map(es2).dom().contains(s) implies slots_map(es2)[s] == m[s] by {
        let j = choose|j: int| 0 <= j < es2.len() && #[trigger] es2[j] is Some && es2[j]->0.suid == s;
        lemma_slot_in_map(es2, j);
        if j != i {
            lemma_slot_in_map(es, j);
        }
    }
    assert(slots_map(es2) =~= m);
}

/// Emptying a slot removes its key from the map.
pub proof fn lemma_slots_clear(es: Seq<Option<RegistryEntry>>, i: int)
    requires slots_unique(es), 0 <= i < es.len(), es[i] is Some,
    ensures
        slots_unique(es.update(i, None)),
        slots_map(es.update(i, None)) == slots_map(es).remove(es[i]->0.suid),
{
    let es2 = es.update(i, None::<RegistryEntry>);
    let k = es[i]->0.suid;
    assert forall|a: int, b: int|
        0 <= a < es2.len() && 0 <= b < es2.len() && a != b && #[trigger] es2[a] is Some && #[trigger] es2[b] is Some
        implies es2[a]->0.suid != es2[b]->0.suid by {
        assert(es[a] is Some && es[b] is Some);
    }
    let m = slots_map(es).remove(k);
    assert forall|s: SUID| #[trigger] slots_map(es2).dom().contains(s) <==> m.dom().contains(s) by {
        if slots_hold(es2, s) {
            let j = choose|j: int| 0 <= j < es2.len() && #[trigger] es2[j] is Some && es2[j]->0.suid == s;
            assert(es[j] is Some);
            assert(j != i);
            if s == k { assert(es[i] is Some); }
        }
        if slots_hold(es, s) && s != k {
            let j = choose|j: int| 0 <= j < es.len() && #[trigger] es[j] is Some && es[j]->0.suid == s;
            assert(j != i);
            assert(es2[j] is Some && es2[j]->0.suid == s);
        }
    }
    assert forall|s: SUID| #[trigger] slots_map(es2).dom().contains(s) implies slots_map(es2)[s] == m[s] by {
        let j = choose|j: int| 0 <= j < es2.len() && #[trigger] es2[j] is Some && es2[j]->0.suid == s;
        lemma_slot_in_map(es2, j);
        assert(es[j] is Some);
        lemma_slot_in_map(es, j);
    }
    assert(slots_map(es2) =~= m);
}

/// Changing only a slot's chain link leaves keys, objects and order alone.
pub proof fn lemma_slots_relink(es: Seq<Option<RegistryEntry>>, i: int, n: Option<usize>)
    requires slots_unique(es), 0 <= i < es.len(), es[i] is Some,
    ensures ({
        let es2 = es.update(i, Some(RegistryEntry { suid: es[i]->0.suid, object: es[i]->0.object, next: n }));
        &&& slots_unique(es2)
        &&& slots_map(es2) == slots_map(es)
        &&& slots_list(es2) == slots_list(es)
    }),
{
    let es2 = es.update(i, Some(RegistryEntry { suid: es[i]->0.suid, object: es[i]->0.object, next: n }));
    assert forall|j: int| 0 <= j < es.len() implies (#[trigger] es2[j] is Some) == (es[j] is Some)
        && (es[j] is Some ==> es2[j]->0.suid == es[j]->0.suid && es2[j]->0.object == es[j]->0.object) by {}
    assert forall|a: int, b: int|
        0 <= a < es2.len() && 0 <= b < es2.len() && a != b && #[trigger] es2[a] is Some && #[trigger] es2[b] is Some
        implies es2[a]->0.suid != es2[b]->0.suid by {
        assert(es[a] is Some && es[b] is Some);
    }
    assert forall|s: SUID| #[trigger] slots_map(es2).dom().contains(s) <==> slots_map(es).dom().contains(s) by {
        if slots_hold(es2, s) {
            let j = choose|j: int| 0 <= j < es2.len() && #[trigger] es2[j] is Some && es2[j]->0.suid == s;
            assert(es[j] is Some);
        }
        if slots_hold(es, s) {
            let j = choose|j: int| 0 <= j < es.len() && #[trigger] es[j] is Some && es[j]->0.suid == s;
            assert(es2[j] is Some);
        }
    }
    assert forall|s: SUID| #[trigger] slots_map(es2).dom().contains(s) implies slots_map(es2)[s] == slots_map(es)[s] by {
        let j = choose|j: int| 0 <= j < es2.len() && #[trigger] es2[j] is Some && es2[j]->0.suid == s;
        lemma_slot_in_map(es2, j);
        assert(es[j] is Some);
        lemma_slot_in_map(es, j);
    }
    assert(slots_map(es2) =~= slots_map(es));
    lemma_list_relink(es, i, n);
}

proof fn lemma_list_relink(es: Seq<Option<RegistryEntry>>, i: int, n: Option<usize>)
    requires 0 <= i < es.len(), es[i] is Some,
    ensures slots_list(es.update(i, Some(RegistryEntry { suid: es[i]->0.suid, object: es[i]->0.object, next: n })))
        == slots_list(es),
    decreases es.len(),
{
    let e2 = RegistryEntry { suid: es[i]->0.suid, object: es[i]->0.object, next: n };
    let es2 = es.update(i, Some(e2));
    if i == es.len() - 1 {
        assert(es2.drop_last() =~= es.drop_last());
    } else {
        lemma_list_relink(es.drop_last(), i, n);
        assert(es2.drop_last() =~= es.drop_last().update(i, Some(e2)));
    }
}

spec fn chain_ok_parts(bk: Seq<Option<usize>>, es: Seq<Option<RegistryEntry>>, ch: Seq<Seq<usize>>, b: int) -> bool {
    let c = ch[b];
    &&& bk[b] == (if c.len() == 0 { None } else { Some(c[0]) })
    &&& forall|k: int| 0 <= k < c.len() ==> {
        &&& #[trigger] c[k] < MAX_OBJECTS
        &&& es[c[k] as int] is Some
        &&& es[c[k] as int]->0.next == (if k + 1 < c.len() { Some(c[k + 1]) } else { None::<usize> })
        &&& bucket_of(es[c[k] as int]->0.suid) == b
    }
    &&& forall|k1: int, k2: int| 0 <= k1 < k2 < c.len() ==> #[trigger] c[k1] != #[trigger] c[k2]
}

spec fn parts_wf(bk: Seq<Option<usize>>, es: Seq<Option<RegistryEntry>>, count: usize, ch: Seq<Seq<usize>>) -> bool {
    &&& bk.len() == NUM_BUCKETS
    &&& es.len() == MAX_OBJECTS
    &&& ch.len() == NUM_BUCKETS
    &&& forall|b: int| 0 <= b < NUM_BUCKETS ==> #[trigger] chain_ok_parts(bk, es, ch, b)
    &&& forall|i: int| 0 <= i < MAX_OBJECTS && #[trigger] es[i] is Some
        ==> ch[bucket_of(es[i]->0.suid)].contains(i as usize)
    &&& slots_unique(es)
    &&& count == crate::slots::count_some(es)
}

/// Slot `i` with its object replaced by `o`.
spec fn with_object(es: Seq<Option<RegistryEntry>>, i: int, o: SemanticObject) -> Seq<Option<RegistryEntry>> {
    es.update(i, Some(RegistryEntry { suid: es[i]->0.suid, object: o, next: es[i]->0.next }))
}

/// Replacing the object of an occupied slot keeps the table well formed
/// and maps its key to the new object.
proof fn lemma_with_object(bk: Seq<Option<usize>>, es: Seq<Option<RegistryEntry>>, count: usize,
    ch: Seq<Seq<usize>>, i: int, o: SemanticObject)
    requires parts_wf(bk, es, count, ch), 0 <= i < MAX_OBJECTS, es[i] is Some,
    ensures
        parts_wf(bk, with_object(es, i, o), count, ch),
        slots_map(with_object(es, i, o)) == slots_map(es).insert(es[i]->0.suid, o),
{
    let es2 = with_object(es, i, o);
    assert forall|j: int| 0 <= j < es.len() implies (#[trigger] es2[j] is Some) == (es[j] is Some)
        && (es[j] is Some ==> es2[j]->0.suid == es[j]->0.suid && es2[j]->0.next == es[j]->0.next) by {}
    assert forall|b: int| 0 <= b < NUM_BUCKETS implies #[trigger] chain_ok_parts(bk, es2, ch, b) by {
        assert(chain_ok_parts(bk, es, ch, b));
    }
    assert forall|j: int| 0 <= j < MAX_OBJECTS && #[trigger] es2[j] is Some
        implies ch[bucket_of(es2[j]->0.suid)].contains(j as usize) by {
        assert(es[j] is Some);
    }
    assert forall|a: int, b: int|
        0 <= a < es2.len() && 0 <= b < es2.len() && a != b && #[trigger] es2[a] is Some && #[trigger] es2[b] is Some
        implies es2[a]->0.suid != es2[b]->0.suid by {
        assert(es[a] is Some && es[b] is Some);
    }
    crate::slots::lemma_count_some_update(es, i, es2[i]);
    let k = es[i]->0.suid;
    let m = slots_map(es).insert(k, o);
    assert forall|s: SUID| #[trigger] slots_map(es2).dom().contains(s) <==> m.dom().contains(s) by {
        if slots_hold(es2, s) {
            let j = choose|j: int| 0 <= j < es2.len() && #[trigger] es2[j] is Some && es2[j]->0.suid == s;
            assert(es[j] is Some);
        }
        if slots_hold(es, s) {
            let j = choose|j: int| 0 <= j < es.len() && #[trigger] es[j] is Some && es[j]->0.suid == s;
            assert(es2[j] is Some);
        }
        if s == k { assert(es2[i] is Some); }
    }
    assert forall|s: SUID| #[trigger] slots_map(es2).dom().contains(s) implies slots_map(es2)[s] == m[s] by {
        let j = choose|j: int| 0 <= j < es2.len() && #[trigger] es2[j] is Some && es2[j]->0.suid == s;
        lemma_slot_in_map(es2, j);
        assert(es[j] is Some);
        lemma_slot_in_map(es, j);
    }
    assert(slots_map(es2) =~= m);
}

/// The SUID → object registry.
pub struct ObjectRegistry {
    buckets: Vec<Option<usize>>,
    entries: Vec<Option<RegistryEntry>>,
    count: usize,
    /// Slot indices of each bucket's chain, head first.
    chains: Ghost<Seq<Seq<usize>>>,
}

impl View for ObjectRegistry {
    type V = Map<SUID, SemanticObject>;

    closed spec fn view(&self) -> Map<SUID, SemanticObject> {
        slots_map(self.entries@)
    }
}

impl ObjectRegistry {
    /// Well-formedness: the chains thread exactly the occupied slots, each
    /// through the bucket of its key, keys are distinct, and `count` is the
    /// number of occupied slots.
    pub closed spec fn wf(&self) -> bool {
        parts_wf(self.buckets@, self.entries@, self.count, self.chains@)
    }

    /// Number of objects held.
    pub closed spec fn size(&self) -> nat {
        self.count as nat
    }

    /// The held objects in slot order.
    pub closed spec fn listing(&self) -> Seq<SemanticObject> {
        slots_list(self.entries@)
    }

    /// Whether every slot is occupied.
    pub closed spec fn is_full(&self) -> bool {
        forall|i: int| 0 <= i < MAX_OBJECTS ==> #[trigger] self.entries@[i] is Some
    }

    /// An empty registry.
    pub fn new() -> (r: Self)
        ensures r.wf(), r@ == Map::<SUID, SemanticObject>::empty(), r.size() == 0, r.listing().len() == 0,
            keyed_by_own_suid(r@),
    {
        let mut buckets: Vec<Option<usize>> = Vec::new();
        let mut b: usize = 0;
        while b < NUM_BUCKETS
            invariant b <= NUM_BUCKETS, buckets@.len() == b, forall|j: int| 0 <= j < b ==> buckets@[j] is None,
            decreases NUM_BUCKETS - b,
        {
            buckets.push(None);
            b += 1;
        }
        let mut entries: Vec<Option<RegistryEntry>> = Vec::new();
        let mut i: usize = 0;
        while i < MAX_OBJECTS
            invariant i <= MAX_OBJECTS, entries@.len() == i, forall|j: int| 0 <= j < i ==> entries@[j] is None,
                crate::slots::count_some(entries@) == 0, slots_list(entries@).len() == 0,
            decreases MAX_OBJECTS - i,
        {
            let ghost before = entries@;
            entries.push(None);
            assert(entries@.drop_last() =~= before);
            i += 1;
        }
        let r = ObjectRegistry {
            buckets,
            entries,
            count: 0,
            chains: Ghost(Seq::new(NUM_BUCKETS as nat, |b: int| Seq::<usize>::empty())),
        };
        assert forall|b: int| 0 <= b < NUM_BUCKETS implies #[trigger] chain_ok_parts(r.buckets@, r.entries@, r.chains@, b) by {}
        assert(r@ =~= Map::<SUID, SemanticObject>::empty());
        r
    }

    /// Empty the registry.
    pub fn init(&mut self)
        ensures final(self).wf(), final(self)@ == Map::<SUID, SemanticObject>::empty(), final(self).size() == 0,
    {
        *self = Self::new();
    }

    /// Bucket index of an identifier.
    fn hash(suid: &SUID) -> (r: usize)
        ensures r == bucket_of(*suid), r < NUM_BUCKETS,
    {
        let h = suid.high ^ suid.low;
        assert((h & 255u64) < 256u64) by (bit_vector);
        (h & 255u64) as usize
    }

    /// First free slot, if any.
    fn alloc_entry(&self) -> (r: Option<usize>)
        requires self.entries@.len() == MAX_OBJECTS,
        ensures
            r is None <==> self.is_full(),
            r matches Some(i) ==> i < MAX_OBJECTS && self.entries@[i as int] is None,
    {
        let mut i: usize = 0;
        while i < MAX_OBJECTS
            invariant i <= MAX_OBJECTS, self.entries@.len() == MAX_OBJECTS,
                forall|j: int| 0 <= j < i ==> #[trigger] self.entries@[j] is Some,
            decreases MAX_OBJECTS - i,
        {
            if self.entries[i].is_none() {
                return Some(i);
            }
            i += 1;
        }
        None
    }

    /// Walk the chain of `suid`'s bucket; the slot holding it, if any.
    fn find_slot(&self, suid: &SUID) -> (r: Option<usize>)
        requires self.wf(),
        ensures
            r is Some <==> self@.dom().contains(*suid),
            r matches Some(i) ==> i < MAX_OBJECTS && self.entries@[i as int] is Some
                && self.entries@[i as int]->0.suid == *suid,
    {
        let b = Self::hash(suid);
        let ghost c = self.chains@[b as int];
        assert(chain_ok_parts(self.buckets@, self.entries@, self.chains@, b as int));
        let mut current = self.buckets[b];
        let ghost mut k: int = 0;
        loop
            invariant
                self.wf(), b == bucket_of(*suid), b < NUM_BUCKETS, c == self.chains@[b as int], chain_ok_parts(self.buckets@, self.entries@, self.chains@, b as int),
                0 <= k <= c.len(),
                current == (if k < c.len() { Some(c[k]) } else { None::<usize> }),
                forall|k2: int| 0 <= k2 < k ==> self.entries@[#[trigger] c[k2] as int]->0.suid != *suid,
            decreases c.len() - k,
        {
            match current {
                None => {
                    proof {
                        if slots_hold(self.entries@, *suid) {
                            let j = choose|j: int| 0 <= j < self.entries@.len() && #[trigger] self.entries@[j] is Some
                                && self.entries@[j]->0.suid == *suid;
                            assert(c.contains(j as usize));
                            let k2 = choose|k2: int| 0 <= k2 < c.len() && c[k2] == j as usize;
                            assert(self.entries@[c[k2] as int]->0.suid != *suid);
                        }
                    }
                    return None;
                }
                Some(idx) => {
                    let hit = match &self.entries[idx] {
                        Some(e) => e.suid == *suid,
                        None => false,
                    };
                    if hit {
                        proof { lemma_slot_in_map(self.entries@, idx as int); }
                        return Some(idx);
                    }
                    current = match &self.entries[idx] {
                        Some(e) => e.next,
                        None => None,
                    };
                    proof { k = k + 1; }
                }
            }
        }
    }

    /// Add `object` under its SUID; false if that SUID is present or every
    /// slot is taken.
    pub fn insert(&mut self, object: SemanticObject) -> (r: bool)
        requires old(self).wf(),
        ensures
            final(self).wf(),
            r == (!old(self)@.dom().contains(object.suid) && !old(self).is_full()),
            r ==> final(self)@ == old(self)@.insert(object.suid, object) && final(self).size() == old(self).size() + 1,
            keyed_by_own_suid(old(self)@) ==> keyed_by_own_suid(final(self)@),
            !r ==> final(self)@ == old(self)@ && final(self).size() == old(self).size(),
    {
        let suid = object.suid;
        if self.find_slot(&suid).is_some() {
            return false;
        }
        let idx = match self.alloc_entry() {
            Some(i) => i,
            None => return false,
        };
        self.place(idx, object);
        true
    }

    /// Put `object` into the free slot `idx` at the head of its chain.
    fn place(&mut self, idx: usize, object: SemanticObject)
        requires
            old(self).wf(), idx < MAX_OBJECTS, old(self).entries@[idx as int] is None,
            !old(self)@.dom().contains(object.suid),
        ensures
            final(self).wf(),
            final(self)@ == old(self)@.insert(object.suid, object),
            final(self).size() == old(self).size() + 1,
    {
        let ghost es = self.entries@;
        let ghost chains = self.chains@;
        let suid = object.suid;
        let b = Self::hash(&suid);
        let entry = RegistryEntry { suid, object, next: self.buckets[b] };
        proof {
            crate::slots::lemma_count_lt(es, idx as int);
            crate::slots::lemma_count_some_update(es, idx as int, Some(entry));
            lemma_slots_fill(es, idx as int, entry);
            // The free slot is on no chain.
            assert forall|b2: int, k: int| 0 <= b2 < NUM_BUCKETS && 0 <= k < chains[b2].len()
                implies #[trigger] chains[b2][k] != idx by {
                assert(chain_ok_parts(self.buckets@, self.entries@, self.chains@, b2));
            }
        }
        self.entries.set(idx, Some(entry));
        self.buckets.set(b, Some(idx));
        self.count = self.count + 1;
        self.chains = Ghost(chains.update(b as int, seq![idx].add(chains[b as int])));
        proof {
            let es2 = self.entries@;
            assert forall|b2: int| 0 <= b2 < NUM_BUCKETS implies #[trigger] chain_ok_parts(self.buckets@, self.entries@, self.chains@, b2) by {
                assert(chain_ok_parts(old(self).buckets@, old(self).entries@, old(self).chains@, b2));
                let c = self.chains@[b2];
                if b2 == b as int {
                    let c0 = chains[b2];
                    assert forall|k: int| 0 <= k < c.len() implies {
                        &&& #[trigger] c[k] < MAX_OBJECTS
                        &&& es2[c[k] as int] is Some
                        &&& es2[c[k] as int]->0.next == (if k + 1 < c.len() { Some(c[k + 1]) } else { None::<usize> })
                        &&& bucket_of(es2[c[k] as int]->0.suid) == b2
                    } by {
                        if k > 0 {
                            assert(c[k] == c0[k - 1]);
                            assert(c0[k - 1] != idx);
                        }
                    }
                    assert forall|k1: int, k2: int| 0 <= k1 < k2 < c.len() implies #[trigger] c[k1] != #[trigger] c[k2] by {
                        if k1 == 0 {
                            assert(c[k2] == c0[k2 - 1]);
                        } else {
                            assert(c[k1] == c0[k1 - 1] && c[k2] == c0[k2 - 1]);
                        }
                    }
                } else {
                    assert forall|k: int| 0 <= k < c.len() implies {
                        &&& #[trigger] c[k] < MAX_OBJECTS
                        &&& es2[c[k] as int] is Some
                        &&& es2[c[k] as int]->0.next == (if k + 1 < c.len() { Some(c[k + 1]) } else { None::<usize> })
                        &&& bucket_of(es2[c[k] as int]->0.suid) == b2
                    } by {
                        assert(c[k] != idx);
                    }
                }
            }
            assert forall|i: int| 0 <= i < MAX_OBJECTS && #[trigger] es2[i] is Some
                implies self.chains@[bucket_of(es2[i]->0.suid)].contains(i as usize) by {
                if i == idx as int {
                    assert(self.chains@[b as int][0] == idx);
                } else {
                    assert(old(self).entries@[i] is Some);
                    assert(forall|i2: int| 0 <= i2 < MAX_OBJECTS && #[trigger] old(self).entries@[i2] is Some
                        ==> old(self).chains@[bucket_of(old(self).entries@[i2]->0.suid)].contains(i2 as usize));
                    let bb = bucket_of(es[i]->0.suid);
                    lemma_bucket_range(es[i]->0.suid);
                    assert(chains[bb].contains(i as usize));
                    let k = choose|k: int| 0 <= k < chains[bb].len() && chains[bb][k] == i as usize;
                    if bb == b as int {
                        assert(self.chains@[bb][k + 1] == i as usize);
                    } else {
                        assert(self.chains@[bb][k] == i as usize);
                    }
                }
            }
        }
    }

    /// The object stored under `suid`.
    pub fn get(&self, suid: &SUID) -> (r: Option<&SemanticObject>)
        requires self.wf(),
        ensures
            r is Some <==> self@.dom().contains(*suid),
            r matches Some(o) ==> *o == self@[*suid],
    {
        match self.find_slot(suid) {
            Some(idx) => {
                proof { lemma_slot_in_map(self.entries@, idx as int); }
                match &self.entries[idx] {
                    Some(e) => Some(&e.object),
                    None => None,
                }
            }
            None => None,
        }
    }

    /// The object stored under `suid`, for update in place.
    pub fn get_mut(&mut self, suid: &SUID) -> (r: Option<&mut SemanticObject>)
        requires old(self).wf(),
        ensures
            r is Some <==> old(self)@.dom().contains(*suid),
            r is None ==> *final(self) == *old(self),
            r matches Some(o) ==> *o == old(self)@[*suid],
            r matches Some(o) ==> final(self).wf(),
            r matches Some(o) ==> final(self)@ == old(self)@.insert(*suid, *final(o)),
            r matches Some(o) ==> final(self).size() == old(self).size(),
    {
        match self.find_slot(suid) {
            Some(idx) => {
                proof {
                    lemma_slot_in_map(self.entries@, idx as int);
                    let es = self.entries@;
                    assert forall|x: RegistryEntry| x.suid == es[idx as int]->0.suid && x.next == es[idx as int]->0.next
                        implies parts_wf(self.buckets@, #[trigger] es.update(idx as int, Some(x)), self.count, self.chains@)
                        && slots_map(es.update(idx as int, Some(x))) == self@.insert(*suid, x.object) by {
                        lemma_with_object(self.buckets@, es, self.count, self.chains@, idx as int, x.object);
                        assert(es.update(idx as int, Some(x)) == with_object(es, idx as int, x.object));
                    }
                }
                match self.entries[idx].as_mut() {
                    Some(e) => Some(&mut e.object),
                    None => None,
                }
            }
            None => None,
        }
    }

    /// Remove and return the object stored under `suid`.
    pub fn remove(&mut self, suid: &SUID) -> (r: Option<SemanticObject>)
        requires old(self).wf(),
        ensures
            final(self).wf(),
            r is Some <==> old(self)@.dom().contains(*suid),
            r matches Some(o) ==> o == old(self)@[*suid]
                && final(self)@ == old(self)@.remove(*suid) && final(self).size() + 1 == old(self).size()
                && !final(self).is_full(),
            r matches Some(o) ==> (keyed_by_own_suid(old(self)@) ==> o.suid == *suid),
            keyed_by_own_suid(old(self)@) ==> keyed_by_own_suid(final(self)@),
            r is None ==> *final(self) == *old(self),
    {
        let b = Self::hash(suid);
        let ghost c = self.chains@[b as int];
        assert(chain_ok_parts(self.buckets@, self.entries@, self.chains@, b as int));
        let mut prev: Option<usize> = None;
        let mut current = self.buckets[b];
        let ghost mut k: int = 0;
        loop
            invariant
                self == old(self), self.wf(), b == bucket_of(*suid), b < NUM_BUCKETS, c == self.chains@[b as int],
                chain_ok_parts(self.buckets@, self.entries@, self.chains@, b as int),
                0 <= k <= c.len(),
                current == (if k < c.len() { Some(c[k]) } else { None::<usize> }),
                prev == (if k == 0 { None::<usize> } else { Some(c[k - 1]) }),
                forall|k2: int| 0 <= k2 < k ==> self.entries@[#[trigger] c[k2] as int]->0.suid != *suid,
            decreases c.len() - k,
        {
            match current {
                None => {
                    proof {
                        if slots_hold(self.entries@, *suid) {
                            let j = choose|j: int| 0 <= j < self.entries@.len() && #[trigger] self.entries@[j] is Some
                                && self.entries@[j]->0.suid == *suid;
                            assert(c.contains(j as usize));
                            let k2 = choose|k2: int| 0 <= k2 < c.len() && c[k2] == j as usize;
                            assert(self.entries@[c[k2] as int]->0.suid != *suid);
                        }
                    }
                    return None;
                }
                Some(idx) => {
                    let (hit, next) = match &self.entries[idx] {
                        Some(e) => (e.suid == *suid, e.next),
                        None => (false, None),
                    };
                    if hit {
                        proof { lemma_slot_in_map(self.entries@, idx as int); }
                        let removed = self.unlink(b, prev, idx, next, Ghost(k));
                        return Some(removed);
                    }
                    prev = current;
                    current = next;
                    proof { k = k + 1; }
                }
            }
        }
    }

    /// Take slot `idx`, at position `k` of bucket `b`'s chain, out of the
    /// chain and the table.
    fn unlink(&mut self, b: usize, prev: Option<usize>, idx: usize, next: Option<usize>, Ghost(k): Ghost<int>)
        -> (r: SemanticObject)
        requires
            old(self).wf(), b < NUM_BUCKETS, 0 <= k < old(self).chains@[b as int].len(),
            old(self).chains@[b as int][k] == idx,
            prev == (if k == 0 { None::<usize> } else { Some(old(self).chains@[b as int][k - 1]) }),
            next == old(self).entries@[idx as int]->0.next,
        ensures
            final(self).wf(),
            r == old(self).entries@[idx as int]->0.object,
            final(self)@ == old(self)@.remove(old(self).entries@[idx as int]->0.suid),
            final(self).size() + 1 == old(self).size(),
            !final(self).is_full(),
    {
        let ghost chains = self.chains@;
        let ghost c = chains[b as int];
        assert(chain_ok_parts(self.buckets@, self.entries@, self.chains@, b as int));
        assert(c[k] < MAX_OBJECTS);
        let ghost es0 = self.entries@;
        match prev {
            Some(p) => {
                assert(c[k - 1] < MAX_OBJECTS);
                proof { lemma_slots_relink(es0, p as int, next); }
                if let Some(pe) = self.entries[p].as_mut() {
                    pe.next = next;
                }
                assert(self.entries@ == es0.update(p as int,
                    Some(RegistryEntry { suid: es0[p as int]->0.suid, object: es0[p as int]->0.object, next })));
            }
            None => {
                self.buckets.set(b, next);
            }
        }
        let ghost es1 = self.entries@;
        assert(es1[idx as int] == es0[idx as int]) by {
            if k > 0 { assert(c[k - 1] != c[k]); }
        }
        let removed = self.entries[idx].take().unwrap();
        proof {
            crate::slots::lemma_count_pos(es1, idx as int);
            crate::slots::lemma_count_some_update(es1, idx as int, None);
            lemma_slots_clear(es1, idx as int);
            if k > 0 {
                crate::slots::lemma_count_some_update(es0, c[k - 1] as int, es1[c[k - 1] as int]);
            }
        }
        self.count = self.count - 1;
        self.chains = Ghost(chains.update(b as int, c.remove(k)));
        proof { lemma_unlink(*old(self), *self, b as int, k); }
        assert(self.entries@[idx as int] is None);
        removed.object
    }


    /// Whether a slot is free.
    pub fn has_free_slot(&self) -> (r: bool)
        requires self.wf(),
        ensures r == !self.is_full(),
    {
        self.alloc_entry().is_some()
    }

    /// Whether an object is stored under `suid`.
    pub fn contains(&self, suid: &SUID) -> (r: bool)
        requires self.wf(),
        ensures r == self@.dom().contains(*suid),
    {
        self.find_slot(suid).is_some()
    }

    /// Number of stored objects.
    pub fn len(&self) -> (r: usize)
        ensures r == self.size(),
    {
        self.count
    }

    /// Whether the registry holds no object.
    pub fn is_empty(&self) -> (r: bool)
        ensures r == (self.size() == 0),
    {
        self.count == 0
    }

    /// All stored objects, in slot order.
    pub fn iter(&self) -> (r: Vec<&SemanticObject>)
        requires self.wf(),
        ensures r@.map_values(|o: &SemanticObject| *o) == self.listing(),
    {
        let mut out: Vec<&SemanticObject> = Vec::new();
        let mut i: usize = 0;
        while i < self.entries.len()
            invariant i <= self.entries@.len(),
                out@.map_values(|o: &SemanticObject| *o) == slots_list(self.entries@.subrange(0, i as int)),
            decreases self.entries@.len() - i,
        {
            let ghost before = out@;
            assert(self.entries@.subrange(0, i as int + 1).drop_last() =~= self.entries@.subrange(0, i as int));
            match &self.entries[i] {
                Some(e) => {
                    out.push(&e.object);
                    assert(out@.map_values(|o: &SemanticObject| *o)
                        =~= before.map_values(|o: &SemanticObject| *o).push(e.object));
                }
                None => {}
            }
            i += 1;
        }
        assert(self.entries@.subrange(0, self.entries@.len() as int) =~= self.entries@);
        out
    }

    /// The stored objects of tier `tier`, in slot order.
    pub fn find_by_tier(&self, tier: SecurityTier) -> (r: Vec<&SemanticObject>)
        requires self.wf(),
        ensures r@.map_values(|o: &SemanticObject| *o) == self.listing().filter(|o: SemanticObject| o.tier == tier),
    {
        let all = self.iter();
        let mut out: Vec<&SemanticObject> = Vec::new();
        let ghost l = all@.map_values(|o: &SemanticObject| *o);
        let mut i: usize = 0;
        while i < all.len()
            invariant i <= all@.len(), l == all@.map_values(|o: &SemanticObject| *o),
                out@.map_values(|o: &SemanticObject| *o) == l.subrange(0, i as int).filter(|o: SemanticObject| o.tier == tier),
            decreases all@.len() - i,
        {
            let ghost before = out@;
            assert(l.subrange(0, i as int + 1).drop_last() =~= l.subrange(0, i as int));
            proof { reveal(Seq::filter); }
            let o = all[i];
            if o.tier == tier {
                out.push(o);
                assert(out@.map_values(|o: &SemanticObject| *o)
                    =~= before.map_values(|o: &SemanticObject| *o).push(*o));
            }
            i += 1;
        }
        assert(l.subrange(0, l.len() as int) =~= l);
        out
    }

    /// The stored objects with a link to `target`, in slot order.
    pub fn find_linked_to(&self, target: SUID) -> (r: Vec<&SemanticObject>)
        requires self.wf(), forall|k: int| 0 <= k < self.listing().len() ==> #[trigger] self.listing()[k].wf(),
        ensures r@.map_values(|o: &SemanticObject| *o) == self.listing().filter(|o: SemanticObject| links_to(o, target)),
    {
        let all = self.iter();
        let mut out: Vec<&SemanticObject> = Vec::new();
        let ghost l = all@.map_values(|o: &SemanticObject| *o);
        let mut i: usize = 0;
        while i < all.len()
            invariant i <= all@.len(), l == all@.map_values(|o: &SemanticObject| *o), l == self.listing(),
                forall|k: int| 0 <= k < l.len() ==> #[trigger] l[k].wf(),
                out@.map_values(|o: &SemanticObject| *o) == l.subrange(0, i as int).filter(|o: SemanticObject| links_to(o, target)),
            decreases all@.len() - i,
        {
            let ghost before = out@;
            assert(l.subrange(0, i as int + 1).drop_last() =~= l.subrange(0, i as int));
            proof { reveal(Seq::filter); }
            let o = all[i];
            assert(l[i as int] == *o);
            if has_link_to(o, &target) {
                out.push(o);
                assert(out@.map_values(|o: &SemanticObject| *o)
                    =~= before.map_values(|o: &SemanticObject| *o).push(*o));
            }
            i += 1;
        }
        assert(l.subrange(0, l.len() as int) =~= l);
        out
    }
}

/// The chains stay well formed when slot `c[k]` of bucket `b` is cut out
/// of its chain (its predecessor, or the bucket head, taking its successor)
/// and emptied.
#[verifier::rlimit(60)]
#[verifier::spinoff_prover]
proof fn lemma_unlink(r0: ObjectRegistry, r1: ObjectRegistry, b: int, k: int)
    requires
        r0.wf(), 0 <= b < NUM_BUCKETS, 0 <= k < r0.chains@[b].len(),
        ({
            let c = r0.chains@[b];
            let idx = c[k] as int;
            let es0 = r0.entries@;
            let nx = es0[idx]->0.next;
            let es1 = if k > 0 {
                es0.update(c[k - 1] as int, Some(RegistryEntry {
                    suid: es0[c[k - 1] as int]->0.suid, object: es0[c[k - 1] as int]->0.object, next: nx }))
            } else { es0 };
            &&& r1.entries@ == es1.update(idx, None)
            &&& r1.buckets@ == (if k == 0 { r0.buckets@.update(b, nx) } else { r0.buckets@ })
            &&& r1.chains@ == r0.chains@.update(b, c.remove(k))
        }),
    ensures
        forall|b2: int| 0 <= b2 < NUM_BUCKETS ==> #[trigger] chain_ok_parts(r1.buckets@, r1.entries@, r1.chains@, b2),
        forall|i: int| 0 <= i < MAX_OBJECTS && #[trigger] r1.entries@[i] is Some
            ==> r1.chains@[bucket_of(r1.entries@[i]->0.suid)].contains(i as usize),
{
    let c = r0.chains@[b];
    let idx = c[k];
    let es0 = r0.entries@;
    let es2 = r1.entries@;
    assert(chain_ok_parts(r0.buckets@, r0.entries@, r0.chains@, b));
    assert forall|b2: int| 0 <= b2 < NUM_BUCKETS implies #[trigger] chain_ok_parts(r1.buckets@, r1.entries@, r1.chains@, b2) by {
        assert(chain_ok_parts(r0.buckets@, r0.entries@, r0.chains@, b2));
        let c2 = r1.chains@[b2];
        if b2 == b {
            assert forall|j: int| 0 <= j < c2.len() implies {
                &&& #[trigger] c2[j] < MAX_OBJECTS
                &&& es2[c2[j] as int] is Some
                &&& es2[c2[j] as int]->0.next == (if j + 1 < c2.len() { Some(c2[j + 1]) } else { None::<usize> })
                &&& bucket_of(es2[c2[j] as int]->0.suid) == b2
            } by {
                if j < k {
                    assert(c2[j] == c[j]);
                    assert(c[j] != c[k]);
                } else {
                    assert(c2[j] == c[j + 1]);
                    assert(c[j + 1] != c[k]);
                    if k > 0 { assert(c[k - 1] != c[j + 1]); }
                }
            }
            assert forall|k1: int, k2: int| 0 <= k1 < k2 < c2.len() implies #[trigger] c2[k1] != #[trigger] c2[k2] by {
                let a = if k1 < k { k1 } else { k1 + 1 };
                let d = if k2 < k { k2 } else { k2 + 1 };
                assert(c2[k1] == c[a] && c2[k2] == c[d]);
            }
        } else {
            let cc = r0.chains@[b2];
            assert(c2 == cc);
            assert forall|j: int| 0 <= j < c2.len() implies {
                &&& #[trigger] c2[j] < MAX_OBJECTS
                &&& es2[c2[j] as int] is Some
                &&& es2[c2[j] as int]->0.next == (if j + 1 < c2.len() { Some(c2[j + 1]) } else { None::<usize> })
                &&& bucket_of(es2[c2[j] as int]->0.suid) == b2
            } by {
                assert(bucket_of(es0[cc[j] as int]->0.suid) == b2);
                assert(cc[j] != idx);
                if k > 0 { assert(cc[j] != c[k - 1]); }
            }
        }
    }
    assert forall|i: int| 0 <= i < MAX_OBJECTS && #[trigger] es2[i] is Some
        implies r1.chains@[bucket_of(es2[i]->0.suid)].contains(i as usize) by {
        assert(i != idx as int);
        assert(es0[i] is Some);
        assert(forall|i2: int| 0 <= i2 < MAX_OBJECTS && #[trigger] r0.entries@[i2] is Some
            ==> r0.chains@[bucket_of(r0.entries@[i2]->0.suid)].contains(i2 as usize));
        assert(0 <= i < MAX_OBJECTS);
        assert(es0[i]->0.suid == es2[i]->0.suid);
        let bb = bucket_of(es0[i]->0.suid);
        lemma_bucket_range(es0[i]->0.suid);
        assert(r0.chains@[bb].contains(i as usize));
        let j = choose|j: int| 0 <= j < r0.chains@[bb].len() && r0.chains@[bb][j] == i as usize;
        if bb == b {
            assert(j != k);
            if j < k {
                assert(r1.chains@[bb][j] == i as usize);
            } else {
                assert(r1.chains@[bb][j - 1] == i as usize);
            }
        } else {
            assert(r1.chains@[bb][j] == i as usize);
        }
    }
}

/// Every object is held under its own SUID.
pub open spec fn keyed_by_own_suid(m: Map<SUID, SemanticObject>) -> bool {
    forall|s: SUID| #[trigger] m.dom().contains(s) ==> m[s].suid == s
}

/// The registry holds each object under its own SUID, and keeps doing so:
/// the empty registry does, an insert (which stores under the object's
/// SUID) and a removal keep it, and so does an update in place that leaves
/// the SUID as it was. So a removal under `s` gives back an object whose
/// SUID is `s`.
pub proof fn law_keyed_by_own_suid(m: Map<SUID, SemanticObject>, o: SemanticObject, s: SUID)
    requires keyed_by_own_suid(m),
    ensures
        keyed_by_own_suid(Map::<SUID, SemanticObject>::empty()),
        keyed_by_own_suid(m.insert(o.suid, o)),
        keyed_by_own_suid(m.remove(s)),
        m.dom().contains(s) && o.suid == s ==> keyed_by_own_suid(m.insert(s, o)),
        m.dom().contains(s) ==> m[s].suid == s,
{
}

/// A stored object is found again under its SUID.
pub proof fn law_insert_then_get(m: Map<SUID, SemanticObject>, o: SemanticObject)
    ensures
        m.insert(o.suid, o).dom().contains(o.suid),
        m.insert(o.suid, o)[o.suid] == o,
{
}

/// Removing what was just inserted under a new SUID gives the registry back.
pub proof fn law_insert_then_remove(m: Map<SUID, SemanticObject>, o: SemanticObject)
    requires !m.dom().contains(o.suid),
    ensures m.insert(o.suid, o).remove(o.suid) == m,
{
    assert(m.insert(o.suid, o).remove(o.suid) =~= m);
}

/// After a removal the SUID is absent, and nothing else changed.
pub proof fn law_remove_then_absent(m: Map<SUID, SemanticObject>, s: SUID, t: SUID)
    requires t != s,
    ensures
        !m.remove(s).dom().contains(s),
        m.remove(s).dom().contains(t) == m.dom().contains(t),
        m.dom().contains(t) ==> m.remove(s)[t] == m[t],
{
}

/// Whether one of `o`'s links points at `target`.
pub open spec fn links_to(o: SemanticObject, target: SUID) -> bool {
    exists|k: int| 0 <= k < o.link_count && (#[trigger] o.links@[k])->0.target == target
}

fn has_link_to(o: &SemanticObject, target: &SUID) -> (r: bool)
    requires o.wf(),
    ensures r == links_to(*o, *target),
{
    let links = o.get_links();
    let mut i: usize = 0;
    while i < links.len()
        invariant i <= links@.len(), links@ == o.links@.subrange(0, o.link_count as int), o.wf(),
            forall|k: int| 0 <= k < i ==> (#[trigger] o.links@[k])->0.target != *target,
        decreases links@.len() - i,
    {
        let hit = match &links[i] {
            Some(l) => l.target == *target,
            None => false,
        };
        assert(links@[i as int] == o.links@[i as int]);
        if hit {
            return true;
        }
        i += 1;
    }
    false
}

} // verus!
