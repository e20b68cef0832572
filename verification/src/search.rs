//! Semantic search front end: storing objects in the registry with their
//! tier and content, and the bookkeeping around the embedding index (the
//! index itself, which works on floating-point vectors, is kept by the
//! caller).
use vstd::prelude::*;
use crate::object::{ObjectContent, SemanticObject, INLINE_CAPACITY};
use crate::registry::{ObjectRegistry, MAX_OBJECTS};
use crate::suid::SUID;
use crate::tier::SecurityTier;

verus! {

/// Most search results returned.
pub const MAX_SEARCH_RESULTS: usize = 32;
/// Dimensions of the default embedding.
pub const DEFAULT_DIMS: usize = 64;
/// Capacity of the embedding index.
pub const MAX_VECTORS: usize = 512;

/// Why a search operation failed.
#[derive(Debug, Clone, Copy, PartialEq, Eq, Structural)]
pub enum SearchError {
    NotInitialized,
    NotFound,
    RegistryFull,
    IndexFull,
    /// Content too large to keep inline.
    ContentTooLarge,
    PermissionDenied,
    InvalidDimensions,
}

/// The system-call error code of a search error.
pub open spec fn error_code(e: SearchError) -> int {
    match e {
        SearchError::NotInitialized => -20,
        SearchError::NotFound => -4,
        SearchError::RegistryFull => -9,
        SearchError::IndexFull => -21,
        SearchError::ContentTooLarge => -14,
        SearchError::PermissionDenied => -3,
        SearchError::InvalidDimensions => -22,
    }
}

impl SearchError {
    /// The system-call error code.
    pub fn to_error_code(self) -> (r: i64)
        ensures r == error_code(self),
    {
        match self {
            SearchError::NotInitialized => -20,
            SearchError::NotFound => -4,
            SearchError::RegistryFull => -9,
            SearchError::IndexFull => -21,
            SearchError::ContentTooLarge => -14,
            SearchError::PermissionDenied => -3,
            SearchError::InvalidDimensions => -22,
        }
    }
}

/// Index statistics.
#[derive(Clone, Copy, Debug, PartialEq, Eq, Structural)]
pub struct SearchStats {
    pub object_count: usize,
    pub vector_count: usize,
    pub max_objects: usize,
    pub max_vectors: usize,
    pub dimensions: usize,
}

impl Default for SearchStats {
    fn default() -> (r: Self)
        ensures r.object_count == 0 && r.vector_count == 0 && r.max_objects == 0 && r.max_vectors == 0
            && r.dimensions == 0,
    {
        SearchStats { object_count: 0, vector_count: 0, max_objects: 0, max_vectors: 0, dimensions: 0 }
    }
}

/// The search engine.
pub struct SemanticSearch {
    pub initialized: bool,
}

impl SemanticSearch {
    /// Not yet initialized.
    pub fn new() -> (r: Self)
        ensures !r.initialized,
    {
        SemanticSearch { initialized: false }
    }

    /// Mark the engine ready (the caller sets up its embedding index).
    pub fn init(&mut self)
        ensures final(self).initialized,
    {
        self.initialized = true;
    }

    /// Store a new object `suid` of `tier` and `owner` with inline
    /// `content` in the registry. The caller then indexes its embedding
    /// and, if the index is full, removes the object again.
    pub fn store(&self, reg: &mut ObjectRegistry, suid: SUID, tier: SecurityTier, owner: u8, content: &[u8])
        -> (r: Result<(), SearchError>)
        requires old(reg).wf(),
        ensures
            final(reg).wf(),
            !self.initialized ==> r == Err::<(), SearchError>(SearchError::NotInitialized) && final(reg)@ == old(reg)@,
            self.initialized && content@.len() > INLINE_CAPACITY
                ==> r == Err::<(), SearchError>(SearchError::ContentTooLarge) && final(reg)@ == old(reg)@,
            self.initialized && content@.len() <= INLINE_CAPACITY
                && (old(reg)@.dom().contains(suid) || old(reg).is_full())
                ==> r == Err::<(), SearchError>(SearchError::RegistryFull) && final(reg)@ == old(reg)@,
            r is Ok <==> self.initialized && content@.len() <= INLINE_CAPACITY
                && !old(reg)@.dom().contains(suid) && !old(reg).is_full(),
            r is Ok ==> final(reg)@.dom() == old(reg)@.dom().insert(suid)
                && final(reg)@[suid].suid == suid && final(reg)@[suid].tier == tier && final(reg)@[suid].owner == owner
                && (content@.len() == 0 ==> final(reg)@[suid].content is Empty)
                && (content@.len() > 0 ==> final(reg)@[suid].content.bytes() == Some(content@))
                && forall|t: SUID| t != suid && #[trigger] old(reg)@.dom().contains(t) ==> final(reg)@[t] == old(reg)@[t],
    {
        if !self.initialized {
            return Err(SearchError::NotInitialized);
        }
        let mut object = SemanticObject::new(suid, tier, owner);
        if content.len() > 0 {
            match ObjectContent::from_inline(content) {
                Some(c) => { object.content = c; }
                None => return Err(SearchError::ContentTooLarge),
            }
        }
        if !reg.insert(object) {
            return Err(SearchError::RegistryFull);
        }
        Ok(())
    }

    /// The checks before an embedding update: the tier of the stored object
    /// (the caller updates or inserts its embedding).
    pub fn update_embedding_target(&self, reg: &ObjectRegistry, suid: &SUID) -> (r: Result<SecurityTier, SearchError>)
        requires reg.wf(),
        ensures
            !self.initialized ==> r == Err::<SecurityTier, SearchError>(SearchError::NotInitialized),
            self.initialized && !reg@.dom().contains(*suid) ==> r == Err::<SecurityTier, SearchError>(SearchError::NotFound),
            self.initialized && reg@.dom().contains(*suid) ==> r == Ok::<SecurityTier, SearchError>(reg@[*suid].tier),
    {
        if !self.initialized {
            return Err(SearchError::NotInitialized);
        }
        match reg.get(suid) {
            Some(o) => Ok(o.tier),
            None => Err(SearchError::NotFound),
        }
    }

    /// Remove the object `suid` from the registry (after the caller dropped
    /// its embedding).
    pub fn remove(&self, reg: &mut ObjectRegistry, suid: &SUID) -> (r: Result<(), SearchError>)
        requires old(reg).wf(),
        ensures
            final(reg).wf(),
            !self.initialized ==> r == Err::<(), SearchError>(SearchError::NotInitialized) && final(reg)@ == old(reg)@,
            self.initialized ==> (r is Ok <==> old(reg)@.dom().contains(*suid)),
            self.initialized && r is Err ==> r == Err::<(), SearchError>(SearchError::NotFound),
            final(reg)@ == (if self.initialized { old(reg)@.remove(*suid) } else { old(reg)@ }),
    {
        if !self.initialized {
            return Err(SearchError::NotInitialized);
        }
        match reg.remove(suid) {
            Some(_) => Ok(()),
            None => {
                assert(old(reg)@.remove(*suid) =~= old(reg)@);
                Err(SearchError::NotFound)
            }
        }
    }

    /// Statistics, given the number of indexed embeddings; all zero before
    /// initialization.
    pub fn stats(&self, reg: &ObjectRegistry, vector_count: usize) -> (r: SearchStats)
        ensures
            !self.initialized ==> r == (SearchStats { object_count: 0, vector_count: 0, max_objects: 0, max_vectors: 0,
                dimensions: 0 }),
            self.initialized ==> r == (SearchStats { object_count: reg.size() as usize, vector_count,
                max_objects: MAX_OBJECTS, max_vectors: MAX_VECTORS, dimensions: DEFAULT_DIMS }),
    {
        if !self.initialized {
            return SearchStats::default();
        }
        SearchStats {
            object_count: reg.len(),
            vector_count,
            max_objects: MAX_OBJECTS,
            max_vectors: MAX_VECTORS,
            dimensions: DEFAULT_DIMS,
        }
    }
}

} // verus!
