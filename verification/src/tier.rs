use vstd::prelude::*;

verus! {

/// Security tier of a memory pool, a task or a semantic object.
/// Ordered from least to most sensitive.
#[derive(Clone, Copy, Debug, PartialEq, Eq, Structural)]
pub enum SecurityTier {
    Public,
    Internal,
    Sensitive,
    Secret,
}

/// Numeric level of a tier (0 = Public, 3 = Secret).
pub open spec fn tier_level(t: SecurityTier) -> nat {
    match t {
        SecurityTier::Public => 0,
        SecurityTier::Internal => 1,
        SecurityTier::Sensitive => 2,
        SecurityTier::Secret => 3,
    }
}

impl SecurityTier {
    /// The tier's numeric level.
    pub fn as_u8(self) -> (r: u8)
        ensures r == tier_level(self),
    {
        match self {
            SecurityTier::Public => 0,
            SecurityTier::Internal => 1,
            SecurityTier::Sensitive => 2,
            SecurityTier::Secret => 3,
        }
    }

    /// A holder of tier `self` may access objects at `target` iff `target`
    /// is no more sensitive than `self`.
    pub fn can_access(self, target: SecurityTier) -> (r: bool)
        ensures r == (tier_level(target) <= tier_level(self)),
    {
        target.as_u8() <= self.as_u8()
    }
}

} // verus!
