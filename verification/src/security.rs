//! Security framework: error codes, reserved user ids and the policy SUID ranges.
use vstd::prelude::*;
use crate::suid::SUID;

verus! {

/// User identifier.
pub type UserId = u8;

/// Kernel / system processes.
pub const USER_SYSTEM: UserId = 0;
/// Administrator.
pub const USER_ADMIN: UserId = 1;
/// Guest / anonymous.
pub const USER_GUEST: UserId = 254;
/// Invalid / no user.
pub const USER_NOBODY: UserId = 255;

/// Base of all policy SUIDs (high word).
pub const POLICY_BASE: u64 = 0x7000_0000_0000_0000;
pub const SYSTEM_POLICY_BASE: u64 = 0x7000_0000_0000_0000;
pub const SYSTEM_POLICY_MASK: u64 = 0x7000_FFFF_FFFF_FFFF;
pub const USER_POLICY_BASE: u64 = 0x7100_0000_0000_0000;
pub const USER_POLICY_MASK: u64 = 0x71FF_FFFF_FFFF_FFFF;
pub const APP_POLICY_BASE: u64 = 0x7200_0000_0000_0000;
pub const APP_POLICY_MASK: u64 = 0x72FF_FFFF_FFFF_FFFF;

/// Whether `suid` lies in the policy range.
pub fn is_policy_suid(suid: &SUID) -> (r: bool)
    ensures r == (POLICY_BASE <= suid.high < 0x8000_0000_0000_0000u64),
{
    suid.high >= POLICY_BASE && suid.high < 0x8000_0000_0000_0000u64
}

/// Whether `suid` lies in the system-policy range.
pub fn is_system_policy(suid: &SUID) -> (r: bool)
    ensures r == (SYSTEM_POLICY_BASE <= suid.high <= SYSTEM_POLICY_MASK),
{
    suid.high >= SYSTEM_POLICY_BASE && suid.high <= SYSTEM_POLICY_MASK
}

/// The SUID of system policy number `policy_id`.
pub fn new_system_policy(policy_id: u32) -> (r: SUID)
    ensures r.high == SYSTEM_POLICY_BASE | (policy_id as u64), r.low == 0,
{
    SUID::new(SYSTEM_POLICY_BASE | (policy_id as u64), 0)
}

/// The SUID of policy `policy_id` of user `user_id`.
pub fn new_user_policy(user_id: u8, policy_id: u32) -> (r: SUID)
    ensures r.high == USER_POLICY_BASE | ((user_id as u64) << 32u64) | (policy_id as u64), r.low == 0,
{
    SUID::new(USER_POLICY_BASE | ((user_id as u64) << 32) | (policy_id as u64), 0)
}

/// System policy SUIDs are policy SUIDs and are recognised as system policies.
pub proof fn law_system_policy_in_range(policy_id: u32)
    ensures
        POLICY_BASE <= SYSTEM_POLICY_BASE | (policy_id as u64) < 0x8000_0000_0000_0000u64,
        SYSTEM_POLICY_BASE <= SYSTEM_POLICY_BASE | (policy_id as u64) <= SYSTEM_POLICY_MASK,
{
    let p = policy_id as u64;
    assert(0x7000_0000_0000_0000u64 <= (0x7000_0000_0000_0000u64 | p) <= 0x7000_FFFF_FFFF_FFFFu64)
        by (bit_vector) requires p < 0x1_0000_0000u64;
}

/// Errors of the security framework.
#[derive(Debug, Clone, Copy, PartialEq, Eq, Structural)]
pub enum SecurityError {
    PolicyNotFound,
    AccessDenied,
    InvalidPolicy,
    NotInitialized,
    InsufficientPrivilege,
    EvaluationError,
    MissingContext,
}

impl SecurityError {
    /// Syscall error code (-70 .. -76).
    pub fn to_error_code(self) -> (r: i64)
        ensures r == match self {
            SecurityError::PolicyNotFound => -70,
            SecurityError::AccessDenied => -71,
            SecurityError::InvalidPolicy => -72,
            SecurityError::NotInitialized => -73,
            SecurityError::InsufficientPrivilege => -74,
            SecurityError::EvaluationError => -75,
            SecurityError::MissingContext => -76,
        },
    {
        match self {
            SecurityError::PolicyNotFound => -70,
            SecurityError::AccessDenied => -71,
            SecurityError::InvalidPolicy => -72,
            SecurityError::NotInitialized => -73,
            SecurityError::InsufficientPrivilege => -74,
            SecurityError::EvaluationError => -75,
            SecurityError::MissingContext => -76,
        }
    }
}

/// Whether the security framework has been initialised (state kept by the caller).
pub struct SecurityState {
    pub initialized: bool,
}

impl SecurityState {
    /// Not yet initialised.
    pub fn new() -> (r: Self) ensures !r.initialized { SecurityState { initialized: false } }

    /// Mark the framework initialised.
    pub fn init(&mut self) ensures final(self).initialized { self.initialized = true; }

    /// Whether the framework is initialised.
    pub fn is_initialized(&self) -> (r: bool) ensures r == self.initialized { self.initialized }
}

/// Extra context bytes carried with a request.
pub struct ContextInfo {
    pub data: [u8; 64],
    pub len: usize,
}

impl ContextInfo {
    /// Empty context.
    pub fn new() -> (r: Self)
        ensures r.len == 0, forall|i: int| 0 <= i < 64 ==> r.data@[i] == 0,
    {
        ContextInfo { data: [0u8; 64], len: 0 }
    }
}

} // verus!
