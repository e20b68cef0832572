//! Semantic objects: the unit of storage, addressed by SUID, with a
//! security tier, content, and typed links to other objects.
use vstd::prelude::*;
use crate::suid::SUID;
use crate::sem_cap::CapabilitySet;
use crate::tier::{SecurityTier, tier_level};

verus! {

/// Links per object.
pub const MAX_LINKS: usize = 16;
/// Largest content of one object (2 MiB).
pub const MAX_CONTENT_SIZE: usize = 2097152;
/// Largest heap-held content.
pub const MAX_FILE_CONTENT: usize = 2097152;
/// Largest content kept inline.
pub const INLINE_CAPACITY: usize = 256;

/// Kind of content.
#[derive(Debug, Clone, Copy, PartialEq, Eq, Structural)]
pub enum ContentType {
    Binary,
    Text,
    Vector,
    Structured,
    Reference,
}

/// An object's content.
pub enum ObjectContent {
    /// Small content kept in the object (at most 256 bytes).
    Inline { data: [u8; 256], len: usize },
    /// Larger content kept on the heap.
    Allocated { data: Vec<u8> },
    /// An embedding of `dimensions` 32-bit values stored elsewhere.
    Vector { dimensions: u16, data_ptr: usize },
    /// No content.
    Empty,
}

impl ObjectContent {
    /// Inline content fits its buffer.
    pub open spec fn wf(&self) -> bool {
        self matches ObjectContent::Inline { len, .. } ==> len <= INLINE_CAPACITY
    }

    /// The bytes of the content, for inline and heap content.
    pub open spec fn bytes(&self) -> Option<Seq<u8>> {
        match self {
            ObjectContent::Inline { data, len } => Some(data@.subrange(0, *len as int)),
            ObjectContent::Allocated { data } => Some(data@),
            _ => None,
        }
    }

    /// The content's length in bytes.
    pub open spec fn spec_len(&self) -> int {
        match self {
            ObjectContent::Inline { len, .. } => *len as int,
            ObjectContent::Allocated { data } => data@.len() as int,
            ObjectContent::Vector { dimensions, .. } => *dimensions as int * 4,
            ObjectContent::Empty => 0,
        }
    }

    /// No content.
    pub fn default() -> (r: Self)
        ensures r is Empty,
    {
        ObjectContent::Empty
    }

    /// Inline content holding `data`; none if it exceeds 256 bytes.
    pub fn from_inline(data: &[u8]) -> (r: Option<Self>)
        ensures
            r is Some <==> data@.len() <= INLINE_CAPACITY,
            r matches Some(c) ==> c is Inline && c.wf() && c.bytes() == Some(data@),
    {
        if data.len() > INLINE_CAPACITY {
            return None;
        }
        let mut buf = [0u8; 256];
        let mut i: usize = 0;
        while i < data.len()
            invariant i <= data@.len(), data@.len() <= 256, buf@.len() == 256,
                forall|j: int| 0 <= j < i ==> buf@[j] == data@[j],
            decreases data@.len() - i,
        {
            buf[i] = data[i];
            i += 1;
        }
        let c = ObjectContent::Inline { data: buf, len: data.len() };
        assert(buf@.subrange(0, data@.len() as int) =~= data@);
        Some(c)
    }

    /// Content holding `data`: inline up to 256 bytes, on the heap up to
    /// `MAX_FILE_CONTENT`, none beyond.
    pub fn from_bytes(data: &[u8]) -> (r: Option<Self>)
        ensures
            r is Some <==> data@.len() <= MAX_FILE_CONTENT,
            r matches Some(c) ==> c.wf() && c.bytes() == Some(data@)
                && (data@.len() <= INLINE_CAPACITY <==> c is Inline),
    {
        if data.len() <= INLINE_CAPACITY {
            return Self::from_inline(data);
        }
        if data.len() > MAX_FILE_CONTENT {
            return None;
        }
        let mut v: Vec<u8> = Vec::new();
        crate::bytes::push_bytes(&mut v, data);
        assert(v@ =~= data@);
        Some(ObjectContent::Allocated { data: v })
    }

    /// The content's bytes (none for embeddings and empty content).
    pub fn as_bytes(&self) -> (r: Option<&[u8]>)
        requires self.wf(),
        ensures
            r is Some <==> self.bytes() is Some,
            r matches Some(b) ==> self.bytes() == Some(b@),
    {
        match self {
            ObjectContent::Inline { data, len } => Some(vstd::slice::slice_subrange(data.as_slice(), 0, *len)),
            ObjectContent::Allocated { data } => Some(data.as_slice()),
            _ => None,
        }
    }

    /// Length of the content (an embedding counts four bytes per dimension).
    pub fn len(&self) -> (r: usize)
        ensures r == self.spec_len(),
    {
        match self {
            ObjectContent::Inline { len, .. } => *len,
            ObjectContent::Allocated { data } => data.len(),
            ObjectContent::Vector { dimensions, .. } => *dimensions as usize * 4,
            ObjectContent::Empty => 0,
        }
    }

    /// Whether the content has length zero.
    pub fn is_empty(&self) -> (r: bool)
        ensures r == (self.spec_len() == 0),
    {
        self.len() == 0
    }
}

/// Kind of relationship a link expresses.
#[derive(Debug, Clone, Copy, PartialEq, Eq, Structural)]
pub enum RelationType {
    Contains,
    References,
    DerivedFrom,
    SimilarTo,
    Supersedes,
    Custom,
}

/// A typed link to another object.
#[derive(Clone, Copy, Debug, PartialEq, Eq, Structural)]
pub struct ObjectLink {
    pub target: SUID,
    pub relationship: RelationType,
}

pub const OBJECT_FLAG_ENCRYPTED: u32 = 1;
pub const OBJECT_FLAG_IMMUTABLE: u32 = 2;
pub const OBJECT_FLAG_SYSTEM: u32 = 4;
pub const OBJECT_FLAG_DELETED: u32 = 8;

/// Object state flags.
#[derive(Clone, Copy, Debug, PartialEq, Eq, Structural)]
pub struct ObjectFlags {
    pub bits: u32,
}

impl ObjectFlags {
    /// No flags.
    pub fn none() -> (r: Self)
        ensures r.bits == 0,
    {
        ObjectFlags { bits: 0 }
    }

    /// The flag word holding just `bit`.
    pub fn from_bits(bits: u32) -> (r: Self)
        ensures r.bits == bits,
    {
        ObjectFlags { bits }
    }

    pub fn is_encrypted(&self) -> (r: bool)
        ensures r == (self.bits & OBJECT_FLAG_ENCRYPTED != 0),
    {
        self.bits & OBJECT_FLAG_ENCRYPTED != 0
    }

    pub fn is_immutable(&self) -> (r: bool)
        ensures r == (self.bits & OBJECT_FLAG_IMMUTABLE != 0),
    {
        self.bits & OBJECT_FLAG_IMMUTABLE != 0
    }

    pub fn is_system(&self) -> (r: bool)
        ensures r == (self.bits & OBJECT_FLAG_SYSTEM != 0),
    {
        self.bits & OBJECT_FLAG_SYSTEM != 0
    }

    pub fn is_deleted(&self) -> (r: bool)
        ensures r == (self.bits & OBJECT_FLAG_DELETED != 0),
    {
        self.bits & OBJECT_FLAG_DELETED != 0
    }

    /// Set the bits of `flag`.
    pub fn set(&mut self, flag: Self)
        ensures final(self).bits == old(self).bits | flag.bits,
    {
        self.bits = self.bits | flag.bits;
    }

    /// Clear the bits of `flag`.
    pub fn clear(&mut self, flag: Self)
        ensures final(self).bits == old(self).bits & !flag.bits,
    {
        self.bits = self.bits & !flag.bits;
    }

    /// The flag word.
    pub fn as_u32(&self) -> (r: u32)
        ensures r == self.bits,
    {
        self.bits
    }
}

/// A semantic object.
pub struct SemanticObject {
    pub suid: SUID,
    pub tier: SecurityTier,
    pub content_type: ContentType,
    pub flags: ObjectFlags,
    /// Creation time (ticks since boot).
    pub created_at: u64,
    pub modified_at: u64,
    /// Owning task.
    pub owner: u8,
    /// Rights required to access the object.
    pub capabilities: CapabilitySet,
    pub content: ObjectContent,
    /// Link slots; the first `link_count` are in use.
    pub links: [Option<ObjectLink>; 16],
    pub link_count: u8,
}

impl SemanticObject {
    /// Object invariant: the link count fits the slots, the used slots hold
    /// links, the rest are empty, and the content is well formed.
    pub open spec fn wf(&self) -> bool {
        &&& self.link_count <= MAX_LINKS
        &&& forall|i: int| 0 <= i < self.link_count ==> #[trigger] self.links@[i] is Some
        &&& forall|i: int| self.link_count <= i < MAX_LINKS ==> #[trigger] self.links@[i] is None
        &&& self.content.wf()
    }

    /// The links in use, in order.
    pub open spec fn link_seq(&self) -> Seq<ObjectLink> {
        self.links@.subrange(0, self.link_count as int).map_values(|o: Option<ObjectLink>| o->0)
    }

    /// An empty binary object with no flags, links, rights or content.
    pub fn new(suid: SUID, tier: SecurityTier, owner: u8) -> (r: Self)
        ensures
            r.wf(), r.suid == suid, r.tier == tier, r.owner == owner, r.content_type == ContentType::Binary,
            r.flags.bits == 0, r.created_at == 0, r.modified_at == 0, r.capabilities.bits == 0,
            r.content is Empty, r.link_count == 0,
    {
        SemanticObject {
            suid,
            tier,
            content_type: ContentType::Binary,
            flags: ObjectFlags::none(),
            created_at: 0,
            modified_at: 0,
            owner,
            capabilities: CapabilitySet::empty(),
            content: ObjectContent::Empty,
            links: [None; 16],
            link_count: 0,
        }
    }

    /// A new object with inline content; none if the content exceeds 256 bytes.
    pub fn with_content(suid: SUID, tier: SecurityTier, owner: u8, content: &[u8]) -> (r: Option<Self>)
        ensures
            r is Some <==> content@.len() <= INLINE_CAPACITY,
            r matches Some(o) ==> o.wf() && o.suid == suid && o.tier == tier && o.owner == owner
                && o.content.bytes() == Some(content@) && o.link_count == 0 && o.flags.bits == 0
                && o.content_type == ContentType::Binary,
    {
        let mut obj = Self::new(suid, tier, owner);
        match ObjectContent::from_inline(content) {
            Some(c) => {
                obj.content = c;
                Some(obj)
            }
            None => None,
        }
    }

    /// Append a link; false when all 16 slots are used.
    pub fn add_link(&mut self, target: SUID, relationship: RelationType) -> (r: bool)
        ensures
            old(self).wf() ==> final(self).wf(),
            r == (old(self).link_count < MAX_LINKS),
            r ==> final(self).link_seq() == old(self).link_seq().push(ObjectLink { target, relationship }),
            r ==> final(self).link_count == old(self).link_count + 1,
            !r ==> *final(self) == *old(self),
            final(self).suid == old(self).suid, final(self).tier == old(self).tier,
            final(self).content == old(self).content, final(self).owner == old(self).owner,
            final(self).content_type == old(self).content_type, final(self).flags == old(self).flags,
            final(self).created_at == old(self).created_at, final(self).modified_at == old(self).modified_at,
            final(self).capabilities == old(self).capabilities,
    {
        if self.link_count as usize >= MAX_LINKS {
            return false;
        }
        let idx = self.link_count as usize;
        let ghost before = self.link_seq();
        self.links[idx] = Some(ObjectLink { target, relationship });
        self.link_count = self.link_count + 1;
        assert(self.link_seq() =~= before.push(ObjectLink { target, relationship }));
        true
    }

    /// Remove the first link to `target`, closing the gap; false if there is none.
    pub fn remove_link(&mut self, target: &SUID) -> (r: bool)
        requires old(self).wf(),
        ensures
            final(self).wf(),
            r == exists|i: int| 0 <= i < old(self).link_seq().len() && #[trigger] old(self).link_seq()[i].target == *target,
            r ==> exists|i: int| 0 <= i < old(self).link_seq().len() && old(self).link_seq()[i].target == *target
                && (forall|j: int| 0 <= j < i ==> #[trigger] old(self).link_seq()[j].target != *target)
                && final(self).link_seq() == old(self).link_seq().remove(i),
            !r ==> final(self).link_seq() == old(self).link_seq(),
            final(self).suid == old(self).suid, final(self).tier == old(self).tier,
            final(self).content == old(self).content, final(self).owner == old(self).owner,
    {
        let n = self.link_count as usize;
        let ghost before = self.link_seq();
        let mut i: usize = 0;
        while i < n
            invariant
                i <= n, n == self.link_count, *self == *old(self), self.wf(), before == self.link_seq(),
                forall|j: int| 0 <= j < i ==> #[trigger] before[j].target != *target,
            decreases n - i,
        {
            let hit = match &self.links[i] {
                Some(link) => link.target == *target,
                None => false,
            };
            if hit {
                let mut j: usize = i;
                while j + 1 < n
                    invariant
                        i <= j < n, n == self.link_count, n <= MAX_LINKS, self.links@.len() == 16,
                        self.suid == old(self).suid, self.tier == old(self).tier,
                        self.content == old(self).content, self.owner == old(self).owner,
                        forall|k: int| 0 <= k < i ==> #[trigger] self.links@[k] == old(self).links@[k],
                        forall|k: int| i <= k < j ==> #[trigger] self.links@[k] == old(self).links@[k + 1],
                        forall|k: int| j <= k < 16 ==> #[trigger] self.links@[k] == old(self).links@[k],
                    decreases n - j,
                {
                    let next = self.links[j + 1];
                    self.links[j] = next;
                    j += 1;
                }
                self.links[n - 1] = None;
                self.link_count = self.link_count - 1;
                proof {
                    assert(before[i as int].target == *target);
                    assert(self.link_seq() =~= before.remove(i as int));
                }
                return true;
            }
            i += 1;
        }
        false
    }

    /// The link slots in use.
    pub fn get_links(&self) -> (r: &[Option<ObjectLink>])
        requires self.wf(),
        ensures r@ == self.links@.subrange(0, self.link_count as int),
    {
        vstd::slice::slice_subrange(self.links.as_slice(), 0, self.link_count as usize)
    }

    /// Whether a task of tier `task_tier` may access the object.
    pub fn can_access(&self, task_tier: SecurityTier) -> (r: bool)
        ensures r == (tier_level(self.tier) <= tier_level(task_tier)),
    {
        task_tier.can_access(self.tier)
    }
}

/// Adding a link and then removing links to the same target (when there
/// was none before) gives back the original links.
pub proof fn law_add_then_remove_link(links: Seq<ObjectLink>, l: ObjectLink)
    requires forall|i: int| 0 <= i < links.len() ==> #[trigger] links[i].target != l.target,
    ensures
        links.push(l)[links.len() as int].target == l.target,
        forall|j: int| 0 <= j < links.len() ==> #[trigger] links.push(l)[j].target != l.target,
        links.push(l).remove(links.len() as int) == links,
{
    assert(links.push(l).remove(links.len() as int) =~= links);
}

} // verus!
