use kernel_core::proc_cap::{Capability, CapabilitySet};
use kernel_core::policy::{PolicyAction, PolicyObject, PolicyRule, PolicyTarget, PolicyType, RuleCondition};
use kernel_core::security::{USER_ADMIN, USER_GUEST, USER_NOBODY, USER_SYSTEM};
use kernel_core::suid::SUID;
use kernel_core::tier::SecurityTier;
use kernel_core::users::{can_setuid_to, groups, is_privileged, UserRegistry, FIRST_DYNAMIC_USER};

#[test]
fn test_capability_set() {
    let mut set = CapabilitySet::empty();
    assert!(!set.has(Capability::MemAlloc));

    set.add(Capability::MemAlloc);
    assert!(set.has(Capability::MemAlloc));

    set.remove(Capability::MemAlloc);
    assert!(!set.has(Capability::MemAlloc));
}

#[test]
fn test_inheritance() {
    let parent = CapabilitySet::all();
    let child = parent.inherit();

    assert!(!child.has(Capability::MemKernel));
    assert!(!child.has(Capability::SysRawIo));
}

#[test]
fn test_policy_creation() {
    let mut policy = PolicyObject::new(PolicyType::ObjectAccess, PolicyTarget::Everyone, USER_ADMIN, 100);

    let rule = PolicyRule::simple(RuleCondition::Always, PolicyAction::Allow(SecurityTier::Public));

    assert!(policy.add_rule(rule).is_ok());
    assert_eq!(policy.rule_count, 1);
    assert!(policy.is_active(0));
}

#[test]
fn init_populates_builtins() {
    let mut r = UserRegistry::new();
    r.init();
    assert!(r.lookup(USER_SYSTEM).is_some());
    assert!(r.lookup(USER_ADMIN).is_some());
    assert!(r.lookup(USER_GUEST).is_some());
    assert!(r.lookup(USER_NOBODY).is_some());
}

#[test]
fn create_and_delete_dynamic_user() {
    let mut r = UserRegistry::new();
    r.init();
    let id = r.create_user("alice", groups::USERS, SecurityTier::Internal).unwrap();
    assert!(id >= FIRST_DYNAMIC_USER);
    assert_eq!(r.lookup(id).unwrap().name(), b"alice");
    assert!(r.create_user("alice", groups::USERS, SecurityTier::Internal).is_err());
    assert!(r.delete_user(id).is_ok());
    assert!(r.delete_user(USER_ADMIN).is_err());
}

#[test]
fn setuid_policy() {
    let mut r = UserRegistry::new();
    r.init();
    let alice = r.create_user("alice", groups::USERS, SecurityTier::Internal).unwrap();
    assert!(can_setuid_to(USER_ADMIN, alice, &r));
    assert!(!can_setuid_to(USER_ADMIN, USER_SYSTEM, &r));
    assert!(!can_setuid_to(alice, USER_ADMIN, &r));
}

#[test]
fn test_suid_null() {
    assert!(SUID::null().is_null());
    assert!(!SUID::system(1).is_null());
}

#[test]
fn test_suid_version() {
    let suid = SUID::system(42);
    assert_eq!(suid.version(), SUID::VERSION_1);
    assert_eq!(suid.suid_type(), SUID::TYPE_SYSTEM);
}

#[test]
fn test_suid_bytes_roundtrip() {
    let original = SUID::new(0x1234567890ABCDEF, 0xFEDCBA0987654321);
    let bytes = original.to_bytes();
    let recovered = SUID::from_bytes(&bytes);
    assert_eq!(original, recovered);
}

#[test]
fn user_ids_are_handed_out_in_order_and_reused() {
    let mut r = UserRegistry::new();
    r.init();
    assert_eq!(r.count(), 4);
    let a = r.create_user("a", groups::USERS, SecurityTier::Public).unwrap();
    let b = r.create_user("b", groups::USERS, SecurityTier::Public).unwrap();
    assert_eq!(a, 10);
    assert_eq!(b, 11);
    assert_eq!(r.count(), 6);
    assert!(r.delete_user(a).is_ok());
    assert!(r.lookup(a).is_none());
    let c = r.create_user("c", groups::USERS, SecurityTier::Public).unwrap();
    assert_eq!(c, 10);
    assert_eq!(r.lookup_by_name(b"c").unwrap().id, 10);
    assert_eq!(r.iter().len(), 6);
}

#[test]
fn user_names_are_validated() {
    let mut r = UserRegistry::new();
    r.init();
    assert!(r.create_user("", groups::USERS, SecurityTier::Public).is_err());
    let long = "abcdefghijklmnopqrstuvwxyz0123456";
    assert!(r.create_user(long, groups::USERS, SecurityTier::Public).is_err());
    assert!(r.create_user("system", groups::USERS, SecurityTier::Public).is_err());
    assert!(r.delete_user(77).is_err());
    assert!(is_privileged(USER_SYSTEM));
    assert!(is_privileged(USER_ADMIN));
    assert!(!is_privileged(USER_GUEST));
}

#[test]
fn registry_fills_up() {
    let mut r = UserRegistry::new();
    r.init();
    let names = [
        "u0", "u1", "u2", "u3", "u4", "u5", "u6", "u7", "u8", "u9", "u10", "u11", "u12", "u13",
        "u14", "u15", "u16", "u17", "u18", "u19", "u20", "u21", "u22", "u23", "u24", "u25", "u26",
        "u27",
    ];
    for n in names.iter() {
        assert!(r.create_user(n, groups::USERS, SecurityTier::Public).is_ok());
    }
    assert_eq!(r.count(), 32);
    assert!(r.create_user("one-more", groups::USERS, SecurityTier::Public).is_err());
}
