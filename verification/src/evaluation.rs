//! Policy evaluation engine.
use vstd::prelude::*;
use crate::suid::SUID;
use crate::tier::SecurityTier;
use crate::security::{UserId, USER_SYSTEM, USER_NOBODY, new_system_policy, new_user_policy};
use crate::registry::ObjectRegistry;
use crate::object::{ObjectContent, INLINE_CAPACITY};
use crate::policy::{
    PolicyObject, PolicyType, PolicyTarget, PolicyAction, PolicyRule, RuleCondition, RedactionProfile,
    policy_active, POLICY_FLAG_ENABLED, RULE_FLAG_ENABLED, RULE_FLAG_TERMINAL, MAX_RULES_PER_POLICY, policy_type_code,
};

verus! {

broadcast use vstd::seq_lib::group_to_multiset_ensures;

/// Maximum policies evaluated per request.
pub const MAX_POLICIES_PER_REQUEST: usize = 32;

/// Kind of request being made.
#[derive(Debug, Clone, Copy, PartialEq, Eq, Structural)]
pub enum RequestType {
    DirectAccess,
    LLMContext,
    LLMStream,
    ObjectCreate,
    ObjectModify,
    Administrative,
}

/// Request context information.
#[derive(Clone, Copy, Debug, PartialEq, Eq, Structural)]
pub struct RequestContext {
    pub request_type: RequestType,
    pub flags: u32,
    pub app_context: u32,
}

/// Everything a policy decision depends on.
#[derive(Clone, Copy, Debug, PartialEq, Eq, Structural)]
pub struct EvaluationContext {
    pub requester_id: UserId,
    pub requester_tier: SecurityTier,
    pub target_suid: SUID,
    pub target_tier: Option<SecurityTier>,
    pub target_owner: Option<UserId>,
    pub context: RequestContext,
    /// Ticks since boot (read as seconds).
    pub current_time: u64,
}

/// Outcome of a policy evaluation.
#[derive(Debug, Clone, Copy, PartialEq, Eq, Structural)]
pub enum PolicyResult {
    Allow(SecurityTier),
    Deny,
    AllowWithRedaction(RedactionProfile),
    RequireEscalation,
    NoMatch,
}

/// Whether a policy of this type applies to this request type.
pub open spec fn type_applies(t: PolicyType, r: RequestType) -> bool {
    match t {
        PolicyType::ObjectAccess => r == RequestType::DirectAccess || r == RequestType::LLMContext || r == RequestType::LLMStream,
        _ => true,
    }
}

/// Whether a policy is considered for a request at time `now`.
pub open spec fn policy_applies(p: PolicyObject, ctx: EvaluationContext, now: u64) -> bool {
    policy_active(p, now) && type_applies(p.policy_type, ctx.context.request_type)
}

/// A target whose SUID list is within its four slots.
pub open spec fn target_wf(t: PolicyTarget) -> bool {
    match t { PolicyTarget::ObjectsBySUID(_, n) => n <= 4, _ => true }
}

/// Whether a policy's target covers the request.
pub open spec fn target_holds(t: PolicyTarget, ctx: EvaluationContext) -> bool {
    match t {
        PolicyTarget::AllObjects => true,
        PolicyTarget::Everyone => true,
        PolicyTarget::User(u) => u == ctx.requester_id,
        PolicyTarget::ObjectsByOwner(o) => ctx.target_owner == Some(o),
        PolicyTarget::ObjectsByTier(t) => ctx.target_tier == Some(t),
        PolicyTarget::ObjectsBySUID(suids, n) =>
            exists|i: int| 0 <= i < n && suids@[i] == ctx.target_suid,
        PolicyTarget::ObjectsByPattern(_) => false,
    }
}

/// Hour of day of a tick count read as seconds.
pub open spec fn hour_of(t: u64) -> u64 { (t / 3600) % 24 }

/// Whether one condition holds.
pub open spec fn cond_holds(c: RuleCondition, ctx: EvaluationContext) -> bool {
    match c {
        RuleCondition::Always => true,
        RuleCondition::RequesterIs(u) => u == ctx.requester_id,
        RuleCondition::RequesterTierIs(t) => t == ctx.requester_tier,
        RuleCondition::ObjectTierIs(t) => ctx.target_tier == Some(t),
        RuleCondition::ObjectOwnedBy(o) => ctx.target_owner == Some(o),
        RuleCondition::TimeWindow(s, e) => hour_of(ctx.current_time) >= s as u64 && hour_of(ctx.current_time) < e as u64,
        RuleCondition::ContextHasFlag(m) => ctx.context.flags & m != 0,
        RuleCondition::RequesterInGroup(_) => false,
    }
}

/// A rule matches when it has conditions and all of them hold.
pub open spec fn rule_holds(r: PolicyRule, ctx: EvaluationContext) -> bool {
    r.condition_count != 0 && forall|i: int| 0 <= i < r.condition_count ==> cond_holds(#[trigger] r.conditions@[i], ctx)
}

/// Decision of an action.
pub open spec fn action_result(a: PolicyAction) -> PolicyResult {
    match a {
        PolicyAction::Allow(t) => PolicyResult::Allow(t),
        PolicyAction::Deny => PolicyResult::Deny,
        PolicyAction::AllowWithRedaction(p) => PolicyResult::AllowWithRedaction(p),
        PolicyAction::RequireEscalation => PolicyResult::RequireEscalation,
        PolicyAction::LogAndAllow(t) => PolicyResult::Allow(t),
        PolicyAction::Continue => PolicyResult::NoMatch,
    }
}

/// Decision of a rule list, rules taken in order: the first enabled matching
/// rule decides, unless it is non-terminal with action Continue.
pub open spec fn eval_rules(rules: Seq<PolicyRule>, ctx: EvaluationContext) -> Option<PolicyResult>
    decreases rules.len(),
{
    if rules.len() == 0 {
        None
    } else {
        let r = rules[0];
        if r.flags.0 & RULE_FLAG_ENABLED == 0 || !rule_holds(r, ctx) {
            eval_rules(rules.drop_first(), ctx)
        } else if r.flags.0 & RULE_FLAG_TERMINAL != 0 {
            Some(action_result(r.action))
        } else if r.action == PolicyAction::Continue {
            eval_rules(rules.drop_first(), ctx)
        } else {
            Some(action_result(r.action))
        }
    }
}

/// Decision of one policy.
pub open spec fn eval_policy(p: PolicyObject, ctx: EvaluationContext) -> Option<PolicyResult> {
    if !target_holds(p.target, ctx) { None } else { eval_rules(p.active_rules(), ctx) }
}

/// Decision of the first policy in `ps` that decides.
pub open spec fn first_decision(ps: Seq<PolicyObject>, ctx: EvaluationContext) -> Option<PolicyResult>
    decreases ps.len(),
{
    if ps.len() == 0 { None } else {
        match eval_policy(ps[0], ctx) {
            Some(r) => Some(r),
            None => first_decision(ps.drop_first(), ctx),
        }
    }
}

/// At most the first `MAX_POLICIES_PER_REQUEST` elements of `s`.
pub open spec fn capped(s: Seq<PolicyObject>) -> Seq<PolicyObject> {
    if s.len() <= MAX_POLICIES_PER_REQUEST { s } else { s.take(MAX_POLICIES_PER_REQUEST as int) }
}

/// Priorities do not increase along `ps`.
pub open spec fn sorted_by_priority(ps: Seq<PolicyObject>) -> bool {
    forall|i: int, j: int| 0 <= i < j < ps.len() ==> ps[i].priority >= ps[j].priority
}

/// A policy with a sane rule count and target.
pub open spec fn policy_wf(p: PolicyObject) -> bool {
    p.rule_count <= MAX_RULES_PER_POLICY && target_wf(p.target)
        && forall|i: int| 0 <= i < p.rule_count ==> (#[trigger] p.rules@[i]).condition_count <= 4
}

/// The policy engine.
pub struct PolicyEngine {
    pub initialized: bool,
    pub default_action: PolicyAction,
}

impl PolicyEngine {
    /// Uninitialised engine; default is to allow public access.
    pub fn new() -> (r: Self)
        ensures !r.initialized, r.default_action == PolicyAction::Allow(SecurityTier::Public),
    {
        PolicyEngine { initialized: false, default_action: PolicyAction::Allow(SecurityTier::Public) }
    }

    /// Initialise; the default becomes "allow public access".
    pub fn init(&mut self)
        ensures final(self).initialized, final(self).default_action == PolicyAction::Allow(SecurityTier::Public),
    {
        self.initialized = true;
        self.default_action = PolicyAction::Allow(SecurityTier::Public);
    }

    /// Set the action used when no policy decides.
    pub fn set_default_action(&mut self, action: PolicyAction)
        ensures final(self).default_action == action, final(self).initialized == old(self).initialized,
    {
        self.default_action = action;
    }

    /// Whether `policy` is considered for this request at time `now`.
    pub fn policy_matches(&self, policy: &PolicyObject, context: &EvaluationContext, now: u64) -> (r: bool)
        ensures r == policy_applies(*policy, *context, now),
    {
        if !policy.is_active(now) {
            return false;
        }
        match policy.policy_type {
            PolicyType::ObjectAccess => match context.context.request_type {
                RequestType::DirectAccess => true,
                RequestType::LLMContext => true,
                RequestType::LLMStream => true,
                _ => false,
            },
            _ => true,
        }
    }

    /// Whether the policy target covers the request.
    #[verifier::loop_isolation(false)]
    pub fn target_matches(&self, target: &PolicyTarget, context: &EvaluationContext) -> (r: bool)
        requires target_wf(*target),
        ensures r == target_holds(*target, *context),
    {
        match target {
            PolicyTarget::AllObjects => true,
            PolicyTarget::Everyone => true,
            PolicyTarget::User(user_id) => *user_id == context.requester_id,
            PolicyTarget::ObjectsByOwner(owner_id) => match context.target_owner {
                Some(o) => o == *owner_id,
                None => false,
            },
            PolicyTarget::ObjectsByTier(tier) => match context.target_tier {
                Some(t) => t == *tier,
                None => false,
            },
            PolicyTarget::ObjectsBySUID(suids, count) => {
                let mut i: usize = 0;
                while i < *count
                    invariant i <= *count, *count <= 4,
                        forall|k: int| 0 <= k < i ==> suids@[k] != context.target_suid,
                    decreases *count - i,
                {
                    if suids[i] == context.target_suid {
                        assert(suids@[i as int] == context.target_suid);
                        return true;
                    }
                    i = i + 1;
                }
                false
            }
            PolicyTarget::ObjectsByPattern(_) => false,
        }
    }

    /// Whether one condition holds.
    pub fn condition_matches(&self, condition: &RuleCondition, context: &EvaluationContext) -> (r: bool)
        ensures r == cond_holds(*condition, *context),
    {
        match condition {
            RuleCondition::Always => true,
            RuleCondition::RequesterIs(user_id) => *user_id == context.requester_id,
            RuleCondition::RequesterTierIs(tier) => *tier == context.requester_tier,
            RuleCondition::ObjectTierIs(tier) => match context.target_tier {
                Some(t) => t == *tier,
                None => false,
            },
            RuleCondition::ObjectOwnedBy(owner) => match context.target_owner {
                Some(o) => o == *owner,
                None => false,
            },
            RuleCondition::TimeWindow(start_hour, end_hour) => {
                let current_hour = (context.current_time / 3600) % 24;
                current_hour >= *start_hour as u64 && current_hour < *end_hour as u64
            }
            RuleCondition::ContextHasFlag(flag_mask) => (context.context.flags & *flag_mask) != 0,
            RuleCondition::RequesterInGroup(_) => false,
        }
    }

    /// Whether a rule matches: it has conditions and all hold.
    pub fn rule_matches(&self, rule: &PolicyRule, context: &EvaluationContext) -> (r: bool)
        requires rule.condition_count <= 4,
        ensures r == rule_holds(*rule, *context),
    {
        if rule.condition_count == 0 {
            return false;
        }
        let mut i: usize = 0;
        while i < rule.condition_count
            invariant i <= rule.condition_count, rule.condition_count <= 4,
                forall|k: int| 0 <= k < i ==> cond_holds(#[trigger] rule.conditions@[k], *context),
            decreases rule.condition_count - i,
        {
            if !self.condition_matches(&rule.conditions[i], context) {
                return false;
            }
            i = i + 1;
        }
        true
    }

    /// Decision of an action.
    pub fn apply_action(&self, action: &PolicyAction) -> (r: PolicyResult)
        ensures r == action_result(*action),
    {
        match action {
            PolicyAction::Allow(tier) => PolicyResult::Allow(*tier),
            PolicyAction::Deny => PolicyResult::Deny,
            PolicyAction::AllowWithRedaction(profile) => PolicyResult::AllowWithRedaction(*profile),
            PolicyAction::RequireEscalation => PolicyResult::RequireEscalation,
            PolicyAction::LogAndAllow(tier) => PolicyResult::Allow(*tier),
            PolicyAction::Continue => PolicyResult::NoMatch,
        }
    }

    /// Decision of one policy: none unless the target covers the request,
    /// then the rules in order.
    #[verifier::loop_isolation(false)]
    pub fn evaluate_policy(&self, policy: &PolicyObject, context: &EvaluationContext) -> (r: Option<PolicyResult>)
        requires policy_wf(*policy),
        ensures r == eval_policy(*policy, *context),
    {
        if !self.target_matches(&policy.target, context) {
            return None;
        }
        let mut i: usize = 0;
        proof { assert(policy.active_rules().subrange(0, policy.rule_count as int) =~= policy.active_rules()); }
        while i < policy.rule_count
            invariant
                i <= policy.rule_count, policy_wf(*policy),
                eval_rules(policy.active_rules(), *context) == eval_rules(policy.active_rules().subrange(i as int, policy.rule_count as int), *context),
            decreases policy.rule_count - i,
        {
            let rule = &policy.rules[i];
            let ghost rest = policy.active_rules().subrange(i as int, policy.rule_count as int);
            assert(rest[0] == *rule);
            assert(rest.drop_first() =~= policy.active_rules().subrange(i + 1, policy.rule_count as int));
            assert(policy_wf(*policy) ==> rule.condition_count <= 4);
            if rule.flags.is_enabled() && self.rule_matches(rule, context) {
                let result = self.apply_action(&rule.action);
                assert(rule_holds(*rule, *context));
                if rule.flags.is_terminal() {
                    return Some(result);
                }
                match rule.action {
                    PolicyAction::Continue => {}
                    _ => { return Some(result); }
                }
            }
            i = i + 1;
        }
        proof { assert(policy.active_rules().subrange(i as int, policy.rule_count as int).len() == 0); }
        None
    }

    /// Decision when no policy decides.
    pub fn apply_default_action(&self, action: &PolicyAction) -> (r: PolicyResult)
        ensures r == action_result(*action),
    {
        self.apply_action(action)
    }

    /// Order policies by priority, highest first (exchange sort).
    pub fn sort_policies_by_priority(&self, policies: &mut Vec<PolicyObject>)
        ensures
            final(policies)@.to_multiset() == old(policies)@.to_multiset(),
            final(policies)@.len() == old(policies)@.len(),
            sorted_by_priority(final(policies)@),
    {
        let n = policies.len();
        let mut i: usize = 0;
        while i < n
            invariant
                n == policies@.len(), i <= n,
                policies@.to_multiset() == old(policies)@.to_multiset(),
                forall|a: int, b: int| 0 <= a < b < n && a < i ==> policies@[a].priority >= policies@[b].priority,
            decreases n - i,
        {
            let mut j: usize = i + 1;
            while j < n
                invariant
                    n == policies@.len(), i < n, i + 1 <= j <= n,
                    policies@.to_multiset() == old(policies)@.to_multiset(),
                    forall|a: int, b: int| 0 <= a < b < n && a < i ==> policies@[a].priority >= policies@[b].priority,
                    forall|b: int| i < b < j ==> policies@[i as int].priority >= policies@[b].priority,
                decreases n - j,
            {
                if policies[j].priority > policies[i].priority {
                    let a = policies[i];
                    let b = policies[j];
                    let ghost s0 = policies@;
                    policies.set(i, b);
                    policies.set(j, a);
                    proof {
                        assert(policies@ == s0.update(i as int, b).update(j as int, a));
                    }
                }
                j = j + 1;
            }
            i = i + 1;
        }
    }

    /// Decide a request from candidate policies: keep those that apply at
    /// `now`, order them by priority, and take the first decision; an
    /// uninitialised engine denies, and with no decision the default action applies.
    #[verifier::loop_isolation(false)]
    pub fn evaluate_candidates(&self, candidates: &Vec<PolicyObject>, context: &EvaluationContext, now: u64) -> (r: PolicyResult)
        requires forall|i: int| 0 <= i < candidates@.len() ==> policy_wf(#[trigger] candidates@[i]),
        ensures
            !self.initialized ==> r == PolicyResult::Deny,
            self.initialized ==> exists|ordered: Seq<PolicyObject>|
                ordered.to_multiset() == capped(candidates@.filter(|p: PolicyObject| policy_applies(p, *context, now))).to_multiset()
                && sorted_by_priority(ordered)
                && r == match first_decision(ordered, *context) {
                    Some(d) => d,
                    None => action_result(self.default_action),
                },
    {
        if !self.initialized {
            return PolicyResult::Deny;
        }
        let mut matching: Vec<PolicyObject> = Vec::new();
        let mut i: usize = 0;
        let ghost pred = |p: PolicyObject| policy_applies(p, *context, now);
        proof {
            assert(candidates@.subrange(0, 0).filter(pred) =~= Seq::<PolicyObject>::empty()) by {
                reveal_with_fuel(Seq::filter, 1);
            }
        }
        while i < candidates.len()
            invariant
                i <= candidates@.len(),
                matching@ == capped(candidates@.subrange(0, i as int).filter(pred)),
                matching@.len() <= MAX_POLICIES_PER_REQUEST,
                forall|k: int| 0 <= k < candidates@.len() ==> policy_wf(#[trigger] candidates@[k]),
                forall|k: int| 0 <= k < matching@.len() ==> policy_wf(#[trigger] matching@[k]),
            decreases candidates@.len() - i,
        {
            let p = candidates[i];
            if self.policy_matches(&p, context, now) {
                if matching.len() < MAX_POLICIES_PER_REQUEST {
                    matching.push(p);
                }
            }
            proof {
                reveal_with_fuel(Seq::filter, 1);
                assert(candidates@.subrange(0, i + 1).drop_last() =~= candidates@.subrange(0, i as int));
                let f0 = candidates@.subrange(0, i as int).filter(pred);
                let f1 = candidates@.subrange(0, i + 1).filter(pred);
                if pred(p) {
                    assert(f1 =~= f0.push(p));
                    if f0.len() >= MAX_POLICIES_PER_REQUEST {
                        assert(capped(f1) =~= capped(f0));
                    }
                } else {
                    assert(f1 =~= f0);
                }
            }
            i = i + 1;
        }
        proof { assert(candidates@.subrange(0, candidates@.len() as int) =~= candidates@); }
        let ghost before_sort = matching@;
        self.sort_policies_by_priority(&mut matching);
        proof {
            assert forall|k: int| 0 <= k < matching@.len() implies policy_wf(#[trigger] matching@[k]) by {
                assert(matching@.to_multiset().count(matching@[k]) > 0);
                assert(before_sort.contains(matching@[k]));
            }
        }
        let mut j: usize = 0;
        proof { assert(matching@.subrange(0, matching@.len() as int) =~= matching@); }
        while j < matching.len()
            invariant
                j <= matching@.len(),
                forall|k: int| 0 <= k < matching@.len() ==> policy_wf(#[trigger] matching@[k]),
                first_decision(matching@, *context) == first_decision(matching@.subrange(j as int, matching@.len() as int), *context),
            decreases matching@.len() - j,
        {
            let ghost rest = matching@.subrange(j as int, matching@.len() as int);
            assert(rest.drop_first() =~= matching@.subrange(j + 1, matching@.len() as int));
            match self.evaluate_policy(&matching[j], context) {
                Some(result) => { return result; }
                None => {}
            }
            j = j + 1;
        }
        self.apply_default_action(&self.default_action)
    }
}

/// Policy numbers looked up in the registry for each request.
pub const POLICY_SCAN_LIMIT: u32 = 1000;

/// The policy stored under `suid`: its object content read back with
/// `PolicyObject::deserialize`. Content that is not bytes, does not
/// deserialize, or claims more inline bytes than an object holds gives none.
fn stored_policy(reg: &ObjectRegistry, suid: &SUID) -> (r: Option<PolicyObject>)
    requires reg.wf(),
    ensures
        ({
            let c = reg@[*suid].content;
            r is Some <==> (reg@.dom().contains(*suid) && c.wf() && c.bytes() is Some
                && c.bytes()->0.len() > 0 && c.bytes()->0[0] <= 4)
        }),
        r matches Some(p) ==> p.flags.0 == 0 && policy_wf(p)
            && policy_type_code(p.policy_type) == reg@[*suid].content.bytes()->0[0]
            && p.target == PolicyTarget::Everyone && p.rule_count == 0 && p.priority == 0
            && p.owner == USER_NOBODY && p.expires_at == 0,
{
    let obj = match reg.get(suid) {
        Some(o) => o,
        None => { return None; },
    };
    match &obj.content {
        ObjectContent::Inline { len, .. } => {
            if *len > INLINE_CAPACITY {
                return None;
            }
        },
        _ => {},
    }
    let bytes = match obj.content.as_bytes() {
        Some(b) => b,
        None => { return None; },
    };
    match PolicyObject::deserialize(bytes) {
        Ok(p) => Some(p),
        Err(_) => None,
    }
}

/// A sequence none of whose elements satisfies `pred` filters to nothing.
proof fn lemma_filter_none(s: Seq<PolicyObject>, pred: spec_fn(PolicyObject) -> bool)
    requires forall|i: int| 0 <= i < s.len() ==> !pred(#[trigger] s[i]),
    ensures s.filter(pred).len() == 0,
    decreases s.len(),
{
    reveal_with_fuel(Seq::filter, 1);
    if s.len() > 0 {
        assert forall|i: int| 0 <= i < s.drop_last().len() implies !pred(#[trigger] s.drop_last()[i]) by {
            assert(s.drop_last()[i] == s[i]);
        }
        lemma_filter_none(s.drop_last(), pred);
        assert(!pred(s[s.len() - 1]));
    }
}

impl PolicyEngine {
    /// Decide a request from the policies stored in `reg`: for each policy
    /// number below `POLICY_SCAN_LIMIT`, the system policy and (unless the
    /// requester is the system user) the requester's own, then
    /// `evaluate_candidates` at `now`. Stored policies are read back from
    /// their type byte alone, so they are never enabled and never decide:
    /// the default action applies, and an uninitialised engine denies.
    pub fn evaluate(&self, reg: &ObjectRegistry, context: &EvaluationContext, now: u64) -> (r: PolicyResult)
        requires reg.wf(),
        ensures r == (if self.initialized { action_result(self.default_action) } else { PolicyResult::Deny }),
    {
        if !self.initialized {
            return PolicyResult::Deny;
        }
        let mut candidates: Vec<PolicyObject> = Vec::new();
        let mut id: u32 = 0;
        while id < POLICY_SCAN_LIMIT
            invariant
                reg.wf(),
                id <= POLICY_SCAN_LIMIT,
                forall|k: int| 0 <= k < candidates@.len() ==> (#[trigger] candidates@[k]).flags.0 == 0
                    && policy_wf(candidates@[k]),
            decreases POLICY_SCAN_LIMIT - id,
        {
            if let Some(p) = stored_policy(reg, &new_system_policy(id)) {
                candidates.push(p);
            }
            if context.requester_id != USER_SYSTEM {
                if let Some(p) = stored_policy(reg, &new_user_policy(context.requester_id, id)) {
                    candidates.push(p);
                }
            }
            id += 1;
        }
        let r = self.evaluate_candidates(&candidates, context, now);
        proof {
            let pred = |p: PolicyObject| policy_applies(p, *context, now);
            assert(0u16 & POLICY_FLAG_ENABLED == 0) by (bit_vector);
            assert forall|i: int| 0 <= i < candidates@.len() implies !pred(#[trigger] candidates@[i]) by {
                assert(candidates@[i].flags.0 == 0);
            }
            lemma_filter_none(candidates@, pred);
            let f = candidates@.filter(pred);
            assert(capped(f) =~= Seq::<PolicyObject>::empty());
            let ordered = choose|ordered: Seq<PolicyObject>|
                ordered.to_multiset() == capped(candidates@.filter(|p: PolicyObject| policy_applies(p, *context, now))).to_multiset()
                && sorted_by_priority(ordered)
                && r == match first_decision(ordered, *context) {
                    Some(d) => d,
                    None => action_result(self.default_action),
                };
            assert(ordered.to_multiset().len() == 0);
            assert(ordered.len() == 0);
        }
        r
    }
}

/// The context of a request by `requester_id` (at `requester_tier`) on
/// `target_suid`: the target's tier and owner when `reg` holds it, no
/// request flags, and the clock reading `now`.
pub fn create_evaluation_context(reg: &ObjectRegistry, requester_id: UserId, requester_tier: SecurityTier,
    target_suid: SUID, request_type: RequestType, now: u64) -> (r: EvaluationContext)
    requires reg.wf(),
    ensures
        r.requester_id == requester_id, r.requester_tier == requester_tier, r.target_suid == target_suid,
        r.target_tier == (if reg@.dom().contains(target_suid) { Some(reg@[target_suid].tier) } else { None }),
        r.target_owner == (if reg@.dom().contains(target_suid) { Some(reg@[target_suid].owner) } else { None }),
        r.context == (RequestContext { request_type, flags: 0, app_context: 0 }),
        r.current_time == now,
{
    let (target_tier, target_owner) = match reg.get(&target_suid) {
        Some(obj) => (Some(obj.tier), Some(obj.owner)),
        None => (None, None),
    };
    EvaluationContext {
        requester_id,
        requester_tier,
        target_suid,
        target_tier,
        target_owner,
        context: RequestContext { request_type, flags: 0, app_context: 0 },
        current_time: now,
    }
}

/// A time window is read in hours of the day: for a context whose clock
/// reads `day` days, `hour` hours and `sec` seconds (ticks read as seconds),
/// the condition `TimeWindow(start, end)` holds exactly when
/// `start <= hour < end`, whatever the day and the seconds.
pub proof fn law_time_window_hour(start: u32, end: u32, ctx: EvaluationContext, day: int, hour: int, sec: int)
    requires
        0 <= day,
        0 <= hour < 24,
        0 <= sec < 3600,
        ctx.current_time == day * 86400 + hour * 3600 + sec,
    ensures
        cond_holds(RuleCondition::TimeWindow(start, end), ctx) <==> (start <= hour && hour < end),
{
    let t: int = ctx.current_time as int;
    assert(t == (day * 24 + hour) * 3600 + sec) by (nonlinear_arith)
        requires t == day * 86400 + hour * 3600 + sec;
    vstd::arithmetic::div_mod::lemma_fundamental_div_mod_converse(t, 3600, day * 24 + hour, sec);
    vstd::arithmetic::div_mod::lemma_fundamental_div_mod_converse(day * 24 + hour, 24, day, hour);
    assert(hour_of(ctx.current_time) == hour);
}

} // verus!
