use kernel_core::evaluation::{
    create_evaluation_context, EvaluationContext, PolicyEngine, PolicyResult, RequestContext, RequestType,
};
use kernel_core::object::{ObjectContent, SemanticObject};
use kernel_core::policy::{PolicyAction, PolicyObject, PolicyRule, PolicyTarget, PolicyType, RuleCondition};
use kernel_core::registry::ObjectRegistry;
use kernel_core::security::{new_system_policy, new_user_policy, USER_ADMIN, USER_SYSTEM};
use kernel_core::suid::SUID;
use kernel_core::tier::SecurityTier;

fn deny_all_policy() -> PolicyObject {
    let mut p = PolicyObject::new(PolicyType::UserIsolation, PolicyTarget::Everyone, USER_SYSTEM, 10);
    p.add_rule(PolicyRule::simple(RuleCondition::Always, PolicyAction::Deny)).unwrap();
    p
}

fn context(requester: u8, target: SUID) -> EvaluationContext {
    EvaluationContext {
        requester_id: requester,
        requester_tier: SecurityTier::Internal,
        target_suid: target,
        target_tier: None,
        target_owner: None,
        context: RequestContext { request_type: RequestType::DirectAccess, flags: 0, app_context: 0 },
        current_time: 0,
    }
}

fn store_policy(reg: &mut ObjectRegistry, suid: SUID, p: &PolicyObject) {
    let mut buf = [0u8; 64];
    let n = p.serialize(&mut buf).unwrap();
    let mut obj = SemanticObject::new(suid, SecurityTier::Secret, USER_SYSTEM);
    obj.content = ObjectContent::from_inline(&buf[..n]).unwrap();
    assert!(reg.insert(obj));
}

#[test]
fn candidates_decide_by_their_rules() {
    let mut engine = PolicyEngine::new();
    let ctx = context(USER_ADMIN, SUID::new(1, 2));
    assert_eq!(engine.evaluate_candidates(&vec![deny_all_policy()], &ctx, 0), PolicyResult::Deny);
    engine.init();
    assert_eq!(engine.evaluate_candidates(&vec![deny_all_policy()], &ctx, 0), PolicyResult::Deny);
    assert_eq!(engine.evaluate_candidates(&vec![], &ctx, 0), PolicyResult::Allow(SecurityTier::Public));
}

#[test]
fn stored_policies_fall_back_to_the_default() {
    let mut reg = ObjectRegistry::new();
    store_policy(&mut reg, new_system_policy(3), &deny_all_policy());
    store_policy(&mut reg, new_user_policy(USER_ADMIN, 7), &deny_all_policy());
    let ctx = context(USER_ADMIN, SUID::new(1, 2));
    let mut engine = PolicyEngine::new();
    assert_eq!(engine.evaluate(&reg, &ctx, 0), PolicyResult::Deny);
    engine.init();
    // A stored policy is read back from its type byte alone, disabled.
    assert_eq!(engine.evaluate(&reg, &ctx, 0), PolicyResult::Allow(SecurityTier::Public));
    engine.set_default_action(PolicyAction::RequireEscalation);
    assert_eq!(engine.evaluate(&reg, &ctx, 0), PolicyResult::RequireEscalation);
}

#[test]
fn context_reads_the_target_object() {
    let mut reg = ObjectRegistry::new();
    let target = SUID::new(9, 9);
    assert!(reg.insert(SemanticObject::new(target, SecurityTier::Sensitive, USER_ADMIN)));
    let c = create_evaluation_context(&reg, USER_ADMIN, SecurityTier::Secret, target, RequestType::LLMContext, 77);
    assert_eq!(c.target_tier, Some(SecurityTier::Sensitive));
    assert_eq!(c.target_owner, Some(USER_ADMIN));
    assert_eq!(c.current_time, 77);
    assert_eq!(c.context, RequestContext { request_type: RequestType::LLMContext, flags: 0, app_context: 0 });
    let missing = create_evaluation_context(&reg, USER_ADMIN, SecurityTier::Secret, SUID::new(1, 1),
        RequestType::DirectAccess, 0);
    assert_eq!(missing.target_tier, None);
    assert_eq!(missing.target_owner, None);
}
