use kernel_core::object::{ObjectContent, SemanticObject, OBJECT_FLAG_IMMUTABLE};
use kernel_core::security::{new_system_policy, new_user_policy, USER_ADMIN, USER_GUEST, USER_SYSTEM};
use kernel_core::syscall::policy_calls::{
    set_policy_args_ok, sys_llm_get_policy, sys_llm_set_policy, POLICY_DENIED, POLICY_INVALID,
};
use kernel_core::process::manager::ProcessManager;
use kernel_core::process::{ExitStatus, ProcessId, ProcessState};
use kernel_core::registry::ObjectRegistry;
use kernel_core::scheduler::{BlockReason, Scheduler, TaskState};
use kernel_core::suid::SUID;
use kernel_core::syscall::env_calls::{
    get_env_lengths_ok, set_cwd_length_ok, set_env_lengths_ok, sys_get_cwd, sys_get_env, sys_set_cwd, sys_set_env,
};
use kernel_core::syscall::hash_call::sys_hash;
use kernel_core::syscall::id_calls::{sys_create_user, sys_getuid, sys_lookup_user, sys_setuid};
use kernel_core::syscall::numbers::{decode, Syscall, SYS_BRK, SYS_PS, SYS_SEM_CREATE, SYS_TCP_STATE, SYS_WRITE};
use kernel_core::syscall::sem_calls::{
    sem_create, sem_create_content, sem_delete, sem_link, sem_meta, sem_query, sem_read, sem_write, SYS_ERR,
};
use kernel_core::syscall::task_calls::{
    futex_addr_ok, sys_exit, sys_futex_wait, sys_futex_wake, sys_getpid, sys_kill, sys_ps, sys_sleep,
    sys_thread_join, sys_wait_begin, sys_waitnb, wait_result, JoinStep, WaitPlan,
};
use kernel_core::tier::SecurityTier;
use kernel_core::users::UserRegistry;

fn sched() -> Scheduler {
    let mut s = Scheduler::new();
    s.init_core();
    s
}

#[test]
fn numbers_route_to_calls() {
    assert_eq!(decode(SYS_WRITE), Some(Syscall::Write));
    assert_eq!(decode(SYS_SEM_CREATE), Some(Syscall::SemCreate));
    assert_eq!(decode(SYS_PS), Some(Syscall::Ps));
    assert_eq!(decode(SYS_TCP_STATE), Some(Syscall::TcpState));
    // Numbered but not served.
    assert_eq!(decode(SYS_BRK), None);
    assert_eq!(decode(9999), None);
}

#[test]
fn semantic_create_read_write_delete() {
    let mut reg = ObjectRegistry::new();
    // tier 3 requested by a tier-1 caller: clamped to Internal.
    assert_eq!(sem_create(&mut reg, 1, 7, 1, 2, 3, Some(b"hello")), 0);
    let obj = reg.get(&SUID::new(1, 2)).unwrap();
    assert_eq!(obj.tier, SecurityTier::Internal);
    assert_eq!(obj.owner, 7);
    assert_eq!(sem_create(&mut reg, 1, 7, 1, 2, 0, None), SYS_ERR);
    assert_eq!(sem_create(&mut reg, 3, 7, 5, 5, 2, Some(&[1u8; 300])), SYS_ERR);
    assert_eq!(sem_create(&mut reg, 3, 7, 9, 9, 300, None), 0);
    // 300 as a byte is 44: above secret, clamped to the caller (3).
    assert_eq!(reg.get(&SUID::new(9, 9)).unwrap().tier, SecurityTier::Secret);

    assert_eq!(sem_read(&reg, 1, 1, 2), Some(&b"hello"[..]));
    assert_eq!(sem_read(&reg, 0, 1, 2), None);
    assert_eq!(sem_read(&reg, 3, 4, 4), None);
    assert_eq!(sem_read(&reg, 3, 9, 9), Some(&b""[..]));

    assert_eq!(sem_write(&mut reg, 1, 1, 2, &[7u8; 600]), 0);
    assert_eq!(sem_read(&reg, 1, 1, 2).unwrap().len(), 600);
    assert_eq!(sem_write(&mut reg, 1, 1, 2, &[7u8; 1025]), SYS_ERR);
    assert_eq!(sem_write(&mut reg, 0, 1, 2, b"x"), SYS_ERR);
    reg.get_mut(&SUID::new(1, 2)).unwrap().flags.bits = OBJECT_FLAG_IMMUTABLE;
    assert_eq!(sem_write(&mut reg, 3, 1, 2, b"x"), SYS_ERR);

    assert_eq!(sem_delete(&mut reg, 0, 1, 2), SYS_ERR);
    assert_eq!(sem_delete(&mut reg, 3, 1, 2), 0);
    assert_eq!(sem_delete(&mut reg, 3, 1, 2), SYS_ERR);
}

#[test]
fn semantic_content_argument() {
    assert_eq!(sem_create_content(0x0000_0010_0000_1000), Some((0x1000, 16)));
    assert_eq!(sem_create_content(0x0000_0010_0000_0000), None);
    assert_eq!(sem_create_content(0x0000_0401_0000_1000), None);
    assert_eq!(sem_create_content(0x1000), None);
}

#[test]
fn semantic_link_query_meta() {
    let mut reg = ObjectRegistry::new();
    assert_eq!(sem_create(&mut reg, 3, 1, 1, 1, 0, Some(b"abc")), 0);
    assert_eq!(sem_create(&mut reg, 3, 1, 2, 2, 2, None), 0);
    assert_eq!(sem_create(&mut reg, 3, 1, 3, 3, 1, None), 0);
    assert_eq!(sem_link(&mut reg, 3, 1, 1, 2, 2), 0);
    assert_eq!(sem_link(&mut reg, 1, 2, 2, 1, 1), SYS_ERR);
    assert_eq!(sem_link(&mut reg, 3, 8, 8, 1, 1), SYS_ERR);

    let (n, suids) = sem_query(&reg, 3, 1, 10);
    assert_eq!(n, 2);
    assert_eq!(suids.len(), 2);
    assert!(suids.contains(&SUID::new(1, 1)) && suids.contains(&SUID::new(3, 3)));
    let (n, suids) = sem_query(&reg, 3, 3, 1);
    assert_eq!(n, 3);
    assert_eq!(suids.len(), 1);
    // The caller tier caps the filter.
    assert_eq!(sem_query(&reg, 0, 3, 64).0, 1);

    assert_eq!(sem_meta(&reg, 3, 1, 1), Some([0, 1, 3, 1, 0]));
    assert_eq!(sem_meta(&reg, 1, 2, 2), None);
    assert_eq!(sem_meta(&reg, 3, 7, 7), None);
}

#[test]
fn identity_calls() {
    let mut s = sched();
    let mut users = UserRegistry::new();
    users.init();
    assert_eq!(sys_getuid(&s), USER_SYSTEM as u64);
    let alice = sys_create_user(&s, &mut users, b"alice", 2, 0x1_05);
    assert_ne!(alice, SYS_ERR);
    let acc = users.lookup(alice as u8).unwrap();
    assert_eq!(acc.group, 5);
    assert_eq!(acc.default_max_tier, SecurityTier::Sensitive);
    assert_eq!(sys_create_user(&s, &mut users, b"alice", 2, 5), SYS_ERR);
    assert_eq!(sys_create_user(&s, &mut users, b"", 2, 5), SYS_ERR);
    assert_eq!(sys_create_user(&s, &mut users, &[0xFF, 0xFE], 2, 5), SYS_ERR);

    let (n, text) = sys_lookup_user(&users, alice, 96);
    assert_eq!(n as usize, text.len());
    assert!(String::from_utf8(text).unwrap().starts_with(&format!("uid={} name=alice tier=2 group=5", alice)));
    assert_eq!(sys_lookup_user(&users, alice, 4).0, SYS_ERR);
    assert_eq!(sys_lookup_user(&users, 77, 96), (0, vec![]));
    assert_eq!(sys_lookup_user(&users, 300, 96).0, SYS_ERR);

    assert_eq!(sys_setuid(&mut s, &users, alice), 0);
    assert_eq!(sys_getuid(&s), alice);
    // An ordinary user may not switch, nor create users.
    assert_eq!(sys_setuid(&mut s, &users, USER_ADMIN as u64), SYS_ERR);
    assert_eq!(sys_create_user(&s, &mut users, b"bob", 0, 5), SYS_ERR);
    assert_eq!(sys_setuid(&mut s, &users, 256), SYS_ERR);
}

#[test]
fn futex_sleep_exit_and_join() {
    let mut s = sched();
    assert_eq!(sys_getpid(&s), 0);
    assert!(futex_addr_ok(0x1000));
    assert!(!futex_addr_ok(0x1002));
    assert!(!futex_addr_ok(0));
    assert_eq!(sys_futex_wait(&mut s, 0x1000, 5, 4), 1);
    assert_eq!(s.task_state(0), TaskState::Running);

    let t = s.alloc_task_slot("t", 1, true).unwrap();
    s.mark_ready(t);
    assert_eq!(sys_thread_join(&mut s, 0), JoinStep::Finished(SYS_ERR));
    assert_eq!(sys_thread_join(&mut s, 99), JoinStep::Finished(SYS_ERR));
    assert_eq!(sys_thread_join(&mut s, 7), JoinStep::Finished(SYS_ERR));
    assert_eq!(sys_thread_join(&mut s, t as u64), JoinStep::Blocked(t));
    assert_eq!(s.task_block_reason(0), BlockReason::JoinTask(t));

    assert_eq!(sys_futex_wake(&mut s, 0, 10), 0);
    assert_eq!(sys_futex_wake(&mut s, 0x2000, 10), 0);

    let mut s2 = sched();
    assert_eq!(sys_futex_wait(&mut s2, 0x1000, 5, 5), 0);
    assert_eq!(s2.task_block_reason(0), BlockReason::Futex(0x1000));

    let mut s3 = sched();
    assert_eq!(sys_sleep(&mut s3, 0, 100), 0);
    assert_eq!(s3.task_state(0), TaskState::Running);
    assert_eq!(sys_sleep(&mut s3, 5, 100), 0);
    assert_eq!(s3.task_block_reason(0), BlockReason::Sleep);
    assert_eq!(s3.tasks[0].wake_at, 105);
    assert_eq!(sys_sleep(&mut s3, 5, u64::MAX), 0);
    assert_eq!(s3.tasks[0].wake_at, u64::MAX);

    let mut s4 = sched();
    assert_eq!(sys_exit(&mut s4, 42), 0);
    assert_eq!(s4.task_state(0), TaskState::Exited);
    assert_eq!(s4.task_exit_code(0), 42);
}

#[test]
fn ps_records() {
    let mut s = sched();
    let t = s.alloc_task_slot("w", 2, false).unwrap();
    s.mark_ready(t);
    let (n, bytes) = sys_ps(&s, 100);
    assert_eq!(n, 2);
    assert_eq!(bytes.len(), 48);
    assert_eq!(&bytes[0..4], &[0, 0, 0, 0]);
    assert_eq!(bytes[16], 2); // running
    assert_eq!(bytes[17], 3); // kernel task tier
    assert_eq!(bytes[18], 1); // kernel
    assert_eq!(&bytes[24..28], &(t as u32).to_le_bytes());
    assert_eq!(bytes[24 + 16], 1); // ready
    assert_eq!(bytes[24 + 18], 0); // user
    assert_eq!(sys_ps(&s, 30), (1, bytes[..24].to_vec()));
    assert_eq!(sys_ps(&s, 10), (0, vec![]));
}

#[test]
fn wait_kill_and_waitnb() {
    let mut pm = ProcessManager::new();
    pm.init();
    let mut s = sched();
    assert_eq!(sys_waitnb(&mut pm), SYS_ERR);
    let child = pm.spawn_user(&mut s, "worker").unwrap();
    let slot = pm.get(child).unwrap().task_id.unwrap();
    s.mark_ready(slot);
    assert_eq!(sys_waitnb(&mut pm), 0);
    assert_eq!(sys_wait_begin(&pm, &mut s, 0), WaitPlan::AnyChild);
    assert_eq!(sys_wait_begin(&pm, &mut s, 40), WaitPlan::Child(ProcessId(40)));
    // The parent kills its child.
    assert_eq!(sys_kill(&mut pm, &mut s, 40), SYS_ERR);
    assert_eq!(sys_kill(&mut pm, &mut s, child.0 as u64), 0);
    assert_eq!(pm.get(child).unwrap().state, ProcessState::Zombie);
    assert_eq!(pm.get(child).unwrap().exit_status.code, 137);
    assert_eq!(s.task_state(slot), TaskState::Exited);
    let code = s.task_exit_code(slot);
    assert_eq!(sys_wait_begin(&pm, &mut s, child.0 as u64), WaitPlan::Finished(code));
    assert_eq!(sys_waitnb(&mut pm), child.0 as u64);
    assert!(pm.get(child).is_none());
    assert_eq!(wait_result(Some(ExitStatus::failure(-1))), u64::MAX);
    assert_eq!(wait_result(Some(ExitStatus::success())), 0);
    assert_eq!(wait_result(None), SYS_ERR);
}

#[test]
fn cwd_and_env_calls() {
    let mut pm = ProcessManager::new();
    pm.init();
    assert!(set_cwd_length_ok(5));
    assert!(!set_cwd_length_ok(0));
    assert!(!set_cwd_length_ok(129));
    assert_eq!(sys_set_cwd(&mut pm, b"/home/a"), 0);
    assert_eq!(sys_get_cwd(&pm, 64), (7, b"/home/a".to_vec()));
    assert_eq!(sys_get_cwd(&pm, 3).0, SYS_ERR);
    assert_eq!(sys_get_cwd(&pm, 0).0, SYS_ERR);
    assert_eq!(sys_set_cwd(&mut pm, b"relative"), SYS_ERR);
    assert_eq!(sys_set_cwd(&mut pm, &[b'/', 0xFF]), SYS_ERR);

    assert!(get_env_lengths_ok(4, 10));
    assert!(!get_env_lengths_ok(65, 10));
    assert!(set_env_lengths_ok(4, 0));
    assert!(!set_env_lengths_ok(4, 1025));
    assert_eq!(sys_set_env(&mut pm, b"HOME", b"/root"), 0);
    assert_eq!(sys_get_env(&pm, b"HOME", 64), (5, b"/root".to_vec()));
    assert_eq!(sys_get_env(&pm, b"HOME", 2).0, SYS_ERR);
    assert_eq!(sys_get_env(&pm, b"PATH", 64), (0, vec![]));
    assert_eq!(sys_set_env(&mut pm, b"", b"x"), SYS_ERR);
    assert_eq!(sys_set_env(&mut pm, b"K", &[0xC0]), SYS_ERR);

    // No running process.
    pm.set_current_pid(ProcessId(50));
    assert_eq!(sys_get_cwd(&pm, 64).0, SYS_ERR);
    assert_eq!(sys_set_env(&mut pm, b"A", b"B"), SYS_ERR);
}

#[test]
fn hash_call() {
    let d = sys_hash(b"abc").unwrap();
    assert_eq!(d[0], 0xba);
    assert_eq!(d[31], 0xad);
    assert!(sys_hash(b"").is_none());
    assert!(sys_hash(&vec![0u8; 65537]).is_none());
}

#[test]
fn policy_store_calls() {
    let mut reg = ObjectRegistry::new();
    let sys = new_system_policy(4);
    let usr = new_user_policy(10, 2);
    assert!(set_policy_args_ok(0x1000, 4));
    assert!(!set_policy_args_ok(0, 4));
    assert!(!set_policy_args_ok(0x1000, 0));
    assert!(!set_policy_args_ok(0x1000, 2049));

    assert_eq!(sys_llm_set_policy(&mut reg, USER_ADMIN, 1, 1, &[1, 0, 0, 0]), POLICY_INVALID);
    assert_eq!(sys_llm_set_policy(&mut reg, USER_ADMIN, sys.high, sys.low, &[]), POLICY_INVALID);
    assert_eq!(sys_llm_set_policy(&mut reg, USER_ADMIN, sys.high, sys.low, &[9]), POLICY_INVALID);
    assert_eq!(sys_llm_set_policy(&mut reg, USER_GUEST, sys.high, sys.low, &[1]), POLICY_DENIED);
    // Read back from its type byte, the policy is disabled and has no rules.
    assert_eq!(sys_llm_set_policy(&mut reg, USER_ADMIN, sys.high, sys.low, &[1]), POLICY_INVALID);
    assert!(reg.is_empty());

    let mut obj = SemanticObject::new(sys, SecurityTier::Secret, USER_SYSTEM);
    obj.content = ObjectContent::from_inline(&[2, 0, 0, 0]).unwrap();
    assert!(reg.insert(obj));
    let mut uobj = SemanticObject::new(usr, SecurityTier::Secret, 10);
    uobj.content = ObjectContent::from_inline(&[3, 1, 2, 10, 5]).unwrap();
    assert!(reg.insert(uobj));
    assert_eq!(sys_llm_set_policy(&mut reg, 10, usr.high, usr.low, &[1]), POLICY_DENIED);
    assert_eq!(sys_llm_set_policy(&mut reg, USER_ADMIN, usr.high, usr.low, &[1]), POLICY_INVALID);

    assert_eq!(sys_llm_get_policy(&reg, USER_SYSTEM, sys.high, sys.low, 64), (4, vec![2, 0, 0, 0]));
    assert_eq!(sys_llm_get_policy(&reg, USER_SYSTEM, sys.high, sys.low, 2), (2, vec![2, 0]));
    assert_eq!(sys_llm_get_policy(&reg, USER_GUEST, sys.high, sys.low, 64).0, POLICY_DENIED);
    assert_eq!(sys_llm_get_policy(&reg, USER_ADMIN, usr.high, usr.low, 64), (5, vec![3, 1, 2, 10, 5]));
    // The owner byte is not read back: the user's own policy reads as nobody's.
    assert_eq!(sys_llm_get_policy(&reg, 10, usr.high, usr.low, 64).0, POLICY_DENIED);
    assert_eq!(sys_llm_get_policy(&reg, USER_ADMIN, sys.high, sys.low + 1, 64), (0, vec![]));
    assert_eq!(sys_llm_get_policy(&reg, USER_ADMIN, 5, 5, 64).0, SYS_ERR);
    assert_eq!(sys_llm_get_policy(&reg, USER_ADMIN, sys.high, sys.low, 0).0, SYS_ERR);
}

#[test]
fn env_set_get_any_key() {
    let mut pm = ProcessManager::new();
    pm.init();
    assert_eq!(sys_set_env(&mut pm, b"A", b"1"), 0);
    assert_eq!(sys_set_env(&mut pm, b"B", b"2"), 0);
    assert_eq!(sys_set_env(&mut pm, b"A", b"three"), 0);
    assert_eq!(sys_get_env(&pm, b"A", 64), (5, b"three".to_vec()));
    assert_eq!(sys_get_env(&pm, b"B", 64), (1, b"2".to_vec()));
    assert_eq!(sys_set_env(&mut pm, b"B", b""), 0);
    assert_eq!(sys_get_env(&pm, b"B", 64), (0, vec![]));
    assert_eq!(sys_get_env(&pm, b"A", 64), (5, b"three".to_vec()));
}

#[test]
fn cwd_requires_well_formed_utf8() {
    let mut pm = ProcessManager::new();
    pm.init();
    assert_eq!(sys_set_cwd(&mut pm, b"/caf\xC3\xA9"), 0);
    assert_eq!(sys_set_cwd(&mut pm, b"/\xC0\x80"), SYS_ERR);
    assert_eq!(sys_set_cwd(&mut pm, b"/\xED\xA0\x80"), SYS_ERR);
    assert_eq!(sys_set_cwd(&mut pm, b"/\xF4\x90\x80\x80"), SYS_ERR);
    assert_eq!(sys_set_cwd(&mut pm, b"/\xF0\x9F\x98\x80"), 0);
}
