//! Security policies: targets, rules, conditions and actions.
use vstd::prelude::*;
use crate::suid::SUID;
use crate::tier::SecurityTier;
use vstd::slice::slice_subrange;
use crate::security::{UserId, SecurityError, USER_NOBODY, USER_ADMIN};

verus! {

/// Maximum number of rules per policy.
pub const MAX_RULES_PER_POLICY: usize = 16;
/// Maximum size of a serialized policy.
pub const MAX_POLICY_SIZE: usize = 2048;

/// When a policy is evaluated.
#[derive(Debug, Clone, Copy, PartialEq, Eq, Structural)]
pub enum PolicyType {
    ObjectAccess,
    UserIsolation,
    TierEscalation,
    TimeBasedAccess,
    ContextDependent,
}

/// Wire code of a policy type.
pub open spec fn policy_type_code(t: PolicyType) -> u8 {
    match t {
        PolicyType::ObjectAccess => 0,
        PolicyType::UserIsolation => 1,
        PolicyType::TierEscalation => 2,
        PolicyType::TimeBasedAccess => 3,
        PolicyType::ContextDependent => 4,
    }
}

impl PolicyType {
    /// Wire code (0..4).
    pub fn as_u8(self) -> (r: u8)
        ensures r == policy_type_code(self),
    {
        match self {
            PolicyType::ObjectAccess => 0,
            PolicyType::UserIsolation => 1,
            PolicyType::TierEscalation => 2,
            PolicyType::TimeBasedAccess => 3,
            PolicyType::ContextDependent => 4,
        }
    }
}

/// What a policy applies to.
#[derive(Debug, Clone, Copy)]
pub enum PolicyTarget {
    AllObjects,
    /// Up to four SUIDs and how many of them are used.
    ObjectsBySUID([SUID; 4], usize),
    ObjectsByOwner(UserId),
    ObjectsByTier(SecurityTier),
    User(UserId),
    Everyone,
    ObjectsByPattern(u32),
}

/// A condition a rule tests.
#[derive(Debug, Clone, Copy, PartialEq, Eq, Structural)]
pub enum RuleCondition {
    Always,
    RequesterIs(UserId),
    RequesterInGroup(u16),
    ObjectTierIs(SecurityTier),
    ObjectOwnedBy(UserId),
    /// Start hour, end hour (24h).
    TimeWindow(u32, u32),
    ContextHasFlag(u32),
    RequesterTierIs(SecurityTier),
}

/// Predefined redaction profiles.
#[derive(Debug, Clone, Copy, PartialEq, Eq, Structural)]
pub enum RedactionProfile {
    Standard,
    Medical,
    Financial,
    NamesOnly,
    /// Everything blanked.
    Full,
    /// No redaction (passthrough).
    NoRedaction,
    Custom(u8),
}

/// What a matching rule does.
#[derive(Debug, Clone, Copy, PartialEq, Eq, Structural)]
pub enum PolicyAction {
    Allow(SecurityTier),
    Deny,
    AllowWithRedaction(RedactionProfile),
    RequireEscalation,
    LogAndAllow(SecurityTier),
    Continue,
}

pub const POLICY_FLAG_ENABLED: u16 = 1;
pub const POLICY_FLAG_AUDITED: u16 = 2;
pub const POLICY_FLAG_IMMUTABLE: u16 = 4;
pub const POLICY_FLAG_SYSTEM: u16 = 8;

/// Policy-level flags.
#[derive(Clone, Copy, Debug, PartialEq, Eq, Structural)]
pub struct PolicyFlags(pub u16);

impl PolicyFlags {
    /// Enabled, nothing else.
    pub fn new() -> (r: Self) ensures r.0 == POLICY_FLAG_ENABLED { PolicyFlags(POLICY_FLAG_ENABLED) }
    pub fn is_enabled(&self) -> (r: bool) ensures r == (self.0 & POLICY_FLAG_ENABLED != 0) { self.0 & POLICY_FLAG_ENABLED != 0 }
    pub fn is_audited(&self) -> (r: bool) ensures r == (self.0 & POLICY_FLAG_AUDITED != 0) { self.0 & POLICY_FLAG_AUDITED != 0 }
    pub fn is_immutable(&self) -> (r: bool) ensures r == (self.0 & POLICY_FLAG_IMMUTABLE != 0) { self.0 & POLICY_FLAG_IMMUTABLE != 0 }
    pub fn is_system(&self) -> (r: bool) ensures r == (self.0 & POLICY_FLAG_SYSTEM != 0) { self.0 & POLICY_FLAG_SYSTEM != 0 }
}

pub const RULE_FLAG_ENABLED: u8 = 1;
pub const RULE_FLAG_TERMINAL: u8 = 2;
pub const RULE_FLAG_AUDIT: u8 = 4;

/// Rule-level flags.
#[derive(Clone, Copy, Debug, PartialEq, Eq, Structural)]
pub struct RuleFlags(pub u8);

impl RuleFlags {
    /// Enabled, nothing else.
    pub fn new() -> (r: Self) ensures r.0 == RULE_FLAG_ENABLED { RuleFlags(RULE_FLAG_ENABLED) }
    pub fn is_enabled(&self) -> (r: bool) ensures r == (self.0 & RULE_FLAG_ENABLED != 0) { self.0 & RULE_FLAG_ENABLED != 0 }
    pub fn is_terminal(&self) -> (r: bool) ensures r == (self.0 & RULE_FLAG_TERMINAL != 0) { self.0 & RULE_FLAG_TERMINAL != 0 }
    pub fn should_audit(&self) -> (r: bool) ensures r == (self.0 & RULE_FLAG_AUDIT != 0) { self.0 & RULE_FLAG_AUDIT != 0 }
}

/// One rule: up to four conditions (all must hold) and an action.
#[derive(Clone, Copy, Debug)]
pub struct PolicyRule {
    pub conditions: [RuleCondition; 4],
    pub condition_count: usize,
    pub action: PolicyAction,
    pub rule_priority: u16,
    pub flags: RuleFlags,
}

impl PolicyRule {
    /// Active conditions.
    pub open spec fn conds(&self) -> Seq<RuleCondition> {
        self.conditions@.subrange(0, self.condition_count as int)
    }

    /// An empty, disabled rule that denies.
    pub fn empty() -> (r: Self)
        ensures
            r.condition_count == 0, r.action == PolicyAction::Deny, r.rule_priority == 0, r.flags.0 == 0,
            forall|i: int| 0 <= i < 4 ==> r.conditions@[i] == RuleCondition::Always,
    {
        PolicyRule {
            conditions: [RuleCondition::Always, RuleCondition::Always, RuleCondition::Always, RuleCondition::Always],
            condition_count: 0,
            action: PolicyAction::Deny,
            rule_priority: 0,
            flags: RuleFlags(0),
        }
    }

    /// An enabled rule with one condition.
    pub fn simple(condition: RuleCondition, action: PolicyAction) -> (r: Self)
        ensures
            r.condition_count == 1, r.conds() == seq![condition], r.action == action,
            r.rule_priority == 0, r.flags.0 == RULE_FLAG_ENABLED,
    {
        let mut rule = Self::empty();
        rule.conditions[0] = condition;
        rule.condition_count = 1;
        rule.action = action;
        rule.flags = RuleFlags::new();
        assert(rule.conds() =~= seq![condition]);
        rule
    }

    /// Append a condition; at most four.
    pub fn add_condition(&mut self, condition: RuleCondition) -> (r: Result<(), SecurityError>)
        requires old(self).condition_count <= 4,
        ensures
            old(self).condition_count >= 4 ==> r == Err::<(), SecurityError>(SecurityError::InvalidPolicy) && *final(self) == *old(self),
            old(self).condition_count < 4 ==> r is Ok && final(self).conds() == old(self).conds().push(condition)
                && final(self).action == old(self).action && final(self).flags == old(self).flags
                && final(self).rule_priority == old(self).rule_priority,
    {
        if self.condition_count >= 4 {
            return Err(SecurityError::InvalidPolicy);
        }
        self.conditions[self.condition_count] = condition;
        self.condition_count = self.condition_count + 1;
        assert(self.conds() =~= old(self).conds().push(condition));
        Ok(())
    }

    /// The active conditions.
    pub fn conditions(&self) -> (r: &[RuleCondition])
        requires self.condition_count <= 4,
        ensures r@ == self.conds(),
    {
        slice_subrange(self.conditions.as_slice(), 0, self.condition_count)
    }
}

/// A policy object.
#[derive(Clone, Copy)]
pub struct PolicyObject {
    pub policy_type: PolicyType,
    pub target: PolicyTarget,
    pub rules: [PolicyRule; MAX_RULES_PER_POLICY],
    pub rule_count: usize,
    pub priority: u32,
    pub owner: UserId,
    /// 0 = never expires.
    pub expires_at: u64,
    pub flags: PolicyFlags,
}

/// Whether a policy is active at time `now`.
pub open spec fn policy_active(p: PolicyObject, now: u64) -> bool {
    p.flags.0 & POLICY_FLAG_ENABLED != 0 && (p.expires_at == 0 || p.expires_at > now)
}

impl PolicyObject {
    /// Active rules.
    pub open spec fn active_rules(&self) -> Seq<PolicyRule> {
        self.rules@.subrange(0, self.rule_count as int)
    }

    /// An empty, disabled policy for everyone, owned by nobody.
    pub fn empty() -> (r: Self)
        ensures
            r.policy_type == PolicyType::ObjectAccess, r.target == PolicyTarget::Everyone,
            r.rule_count == 0, r.priority == 0, r.owner == USER_NOBODY, r.expires_at == 0, r.flags.0 == 0,
    {
        let e = PolicyRule::empty();
        PolicyObject {
            policy_type: PolicyType::ObjectAccess,
            target: PolicyTarget::Everyone,
            rules: [e, e, e, e, e, e, e, e, e, e, e, e, e, e, e, e],
            rule_count: 0,
            priority: 0,
            owner: USER_NOBODY,
            expires_at: 0,
            flags: PolicyFlags(0),
        }
    }

    /// An enabled policy with no rules.
    pub fn new(policy_type: PolicyType, target: PolicyTarget, owner: UserId, priority: u32) -> (r: Self)
        ensures
            r.policy_type == policy_type, r.target == target, r.owner == owner, r.priority == priority,
            r.rule_count == 0, r.expires_at == 0, r.flags.0 == POLICY_FLAG_ENABLED,
    {
        let mut policy = Self::empty();
        policy.policy_type = policy_type;
        policy.target = target;
        policy.owner = owner;
        policy.priority = priority;
        policy.flags = PolicyFlags::new();
        policy
    }

    /// Append a rule; at most sixteen.
    pub fn add_rule(&mut self, rule: PolicyRule) -> (r: Result<(), SecurityError>)
        requires old(self).rule_count <= MAX_RULES_PER_POLICY,
        ensures
            old(self).rule_count >= MAX_RULES_PER_POLICY ==> r == Err::<(), SecurityError>(SecurityError::InvalidPolicy)
                && final(self).rule_count == old(self).rule_count && final(self).rules == old(self).rules,
            old(self).rule_count < MAX_RULES_PER_POLICY ==> r is Ok
                && final(self).rule_count == old(self).rule_count + 1
                && final(self).active_rules() == old(self).active_rules().push(rule),
            final(self).policy_type == old(self).policy_type, final(self).target == old(self).target,
            final(self).priority == old(self).priority, final(self).owner == old(self).owner,
            final(self).expires_at == old(self).expires_at, final(self).flags == old(self).flags,
    {
        if self.rule_count >= MAX_RULES_PER_POLICY {
            return Err(SecurityError::InvalidPolicy);
        }
        self.rules[self.rule_count] = rule;
        self.rule_count = self.rule_count + 1;
        assert(self.active_rules() =~= old(self).active_rules().push(rule));
        Ok(())
    }

    /// The active rules.
    pub fn rules(&self) -> (r: &[PolicyRule])
        requires self.rule_count <= MAX_RULES_PER_POLICY,
        ensures r@ == self.active_rules(),
    {
        slice_subrange(self.rules.as_slice(), 0, self.rule_count)
    }

    /// Whether the policy is enabled and not expired at time `now`.
    pub fn is_active(&self, now: u64) -> (r: bool)
        ensures r == policy_active(*self, now),
    {
        self.flags.is_enabled() && (self.expires_at == 0 || self.expires_at > now)
    }

    /// Whether `user` may modify the policy: never if immutable, else the owner or admin.
    pub fn can_modify(&self, user: UserId) -> (r: bool)
        ensures r == (self.flags.0 & POLICY_FLAG_IMMUTABLE == 0 && (user == self.owner || user == USER_ADMIN)),
    {
        if self.flags.is_immutable() {
            false
        } else {
            user == self.owner || user == USER_ADMIN
        }
    }

    /// Write the header (type, rule count, priority's low byte, owner) into
    /// `out`, which must hold at least 64 bytes; returns 4.
    pub fn serialize(&self, out: &mut [u8]) -> (r: Result<usize, SecurityError>)
        ensures
            old(out)@.len() < 64 ==> r == Err::<usize, SecurityError>(SecurityError::InvalidPolicy) && final(out)@ == old(out)@,
            old(out)@.len() >= 64 ==> r == Ok::<usize, SecurityError>(4) && final(out)@ == old(out)@
                .update(0, policy_type_code(self.policy_type))
                .update(1, self.rule_count as u8)
                .update(2, self.priority as u8)
                .update(3, self.owner),
    {
        if out.len() < 64 {
            return Err(SecurityError::InvalidPolicy);
        }
        out[0] = self.policy_type.as_u8();
        out[1] = self.rule_count as u8;
        out[2] = self.priority as u8;
        out[3] = self.owner;
        Ok(4)
    }

    /// Read a policy back: only the type byte is interpreted; everything else
    /// is the empty policy's.
    pub fn deserialize(data: &[u8]) -> (r: Result<Self, SecurityError>)
        ensures
            (data@.len() == 0 || data@[0] > 4) <==> r == Err::<Self, SecurityError>(SecurityError::InvalidPolicy),
            r is Ok <==> (data@.len() > 0 && data@[0] <= 4),
            r matches Ok(p) ==> policy_type_code(p.policy_type) == data@[0] && p.target == PolicyTarget::Everyone
                && p.rule_count == 0 && p.priority == 0 && p.owner == USER_NOBODY && p.expires_at == 0 && p.flags.0 == 0,
    {
        if data.len() == 0 {
            return Err(SecurityError::InvalidPolicy);
        }
        let mut policy = Self::empty();
        policy.policy_type = match data[0] {
            0 => PolicyType::ObjectAccess,
            1 => PolicyType::UserIsolation,
            2 => PolicyType::TierEscalation,
            3 => PolicyType::TimeBasedAccess,
            4 => PolicyType::ContextDependent,
            _ => { return Err(SecurityError::InvalidPolicy); }
        };
        Ok(policy)
    }
}

/// Deserializing a serialized header gives back the policy type.
pub proof fn law_policy_type_roundtrip(t: PolicyType)
    ensures policy_type_code(t) <= 4,
{
}

} // verus!
