use kernel_core::pairing::{
    build_confirm, build_hello, confirm_mac, crc16_ccitt, decode_base32, decode_payload, derive_session,
    encode_base32, encode_payload, pairing_id, parse_frame_header, verify_confirm, PairError, PairRecord,
    PairingPayload, FRAME_CONFIRM, FRAME_HELLO, PAYLOAD_LEN, VERSION,
};
use kernel_core::process::elf::{create_hello_elf, ElfInfo};
use kernel_core::process::manager::{Platform, ProcessManager, WaitStep, MINIMAL_CAPS};
use kernel_core::process::{ProcessId, ProcessState};
use kernel_core::scheduler::Scheduler;
use kernel_core::x25519::x25519_base;
use std::cell::RefCell;

struct FakePlatform {
    calls: RefCell<Vec<String>>,
    fail_stack: bool,
}

impl Platform for FakePlatform {
    fn create_address_space(&self, _max_tier: u8) -> Option<u64> {
        self.calls.borrow_mut().push("create".into());
        Some(0x1000)
    }
    fn map_elf_segment(&self, _space: u64, vaddr: u64, data: &[u8], memsz: usize, x: bool, _w: bool) -> bool {
        self.calls.borrow_mut().push(format!("map {:x} {} {} {}", vaddr, data.len(), memsz, x));
        true
    }
    fn map_user_stack(&self, _space: u64, top: u64, _size: u64) -> Option<u64> {
        self.calls.borrow_mut().push("stack".into());
        if self.fail_stack { None } else { Some(top) }
    }
    fn setup_user_argv(&self, _space: u64, top: u64, argv: &[&[u8]], _envp: &[&[u8]]) -> Option<u64> {
        Some(top - 16 * (argv.len() as u64 + 1))
    }
    fn spawn_user_task(&self, _name: &'static str, _rip: u64, _rsp: u64, _cr3: u64, _tier: u8) -> Option<usize> {
        Some(5)
    }
    fn destroy_address_space(&self, _space: u64) {
        self.calls.borrow_mut().push("destroy".into());
    }
}

#[test]
fn spawn_from_elf_records_child() {
    let mut pm = ProcessManager::new();
    pm.init();
    let p = FakePlatform { calls: RefCell::new(vec![]), fail_stack: false };
    let elf = create_hello_elf();
    let args: [&[u8]; 1] = [b"hello"];
    let pid = pm.spawn_from_elf_with_args(&p, "hello", &elf, 0, &args, &[], 65536).unwrap();
    assert_eq!(pid, ProcessId(2));
    let child = pm.get(pid).unwrap();
    assert_eq!(child.state, ProcessState::Running);
    assert_eq!(child.task_id, Some(5));
    assert_eq!(child.parent, Some(ProcessId(0)));
    assert_eq!(child.capabilities.bits, MINIMAL_CAPS);
    assert_eq!(child.entry_point, 0x400078);
    assert_eq!(child.stack_ptr as u64, 0x7F_FFFF_0000 - 32);
    assert!(pm.get(ProcessId(0)).unwrap().children.contains(&Some(pid)));
    assert_eq!(pm.process_count(), 3);
    let calls = p.calls.borrow();
    assert_eq!(calls[0], "create");
    assert!(calls[1].starts_with("map 400000"));
}

#[test]
fn spawn_failure_destroys_space_and_records_nothing() {
    let mut pm = ProcessManager::new();
    pm.init();
    let p = FakePlatform { calls: RefCell::new(vec![]), fail_stack: true };
    let elf = create_hello_elf();
    assert!(pm.spawn_from_elf(&p, "hello", &elf, 0, 65536).is_none());
    assert_eq!(p.calls.borrow().last().unwrap(), "destroy");
    assert_eq!(pm.process_count(), 2);
    assert!(pm.spawn_from_elf(&p, "bad", &[0u8; 10], 0, 65536).is_none());
}

#[test]
fn exit_wait_and_reap() {
    let mut pm = ProcessManager::new();
    pm.init();
    let mut sched = Scheduler::new();
    sched.init_core();
    let child = pm.spawn_user(&mut sched, "worker").unwrap();
    assert_eq!(pm.get(child).unwrap().capabilities.bits, MINIMAL_CAPS);
    assert!(pm.wait_begin(child));
    assert!(!pm.wait_begin(ProcessId(40)));
    assert!(matches!(pm.wait_poll(child), WaitStep::Block));
    assert_eq!(pm.get(ProcessId(0)).unwrap().state, ProcessState::Waiting);
    pm.set_current_pid(child);
    pm.exit_current(3);
    assert_eq!(pm.get(child).unwrap().state, ProcessState::Zombie);
    pm.set_current_pid(ProcessId(0));
    match pm.waitpid_any_poll() {
        WaitStep::Done(Some((pid, status))) => {
            assert_eq!(pid, child);
            assert_eq!(status.code, 3);
        }
        _ => panic!("expected a reaped child"),
    }
    assert!(pm.get(child).is_none());
    assert_eq!(pm.get(ProcessId(0)).unwrap().state, ProcessState::Running);
    assert!(matches!(pm.waitpid_any_poll(), WaitStep::Done(None)));
}

#[test]
fn kernel_spawn_inherits_rights() {
    let mut pm = ProcessManager::new();
    pm.init();
    let mut sched = Scheduler::new();
    sched.init_core();
    let k = pm.spawn(&mut sched, "kworker").unwrap();
    let bits = pm.get(k).unwrap().capabilities.bits;
    assert_ne!(bits, 0);
    assert_eq!(bits & pm.get(ProcessId(0)).unwrap().capabilities.bits, bits);
    assert_eq!(pm.list_processes().len(), 3);
}

fn sample_payload() -> PairingPayload {
    PairingPayload { version: VERSION, phone_pub: [7u8; 32], ip: [192, 168, 1, 20], port: 7777, nonce_p: [3u8; 16] }
}

#[test]
fn crc16_check_value() {
    assert_eq!(crc16_ccitt(b"123456789"), 0x29B1);
}

#[test]
fn base32_roundtrip_and_alphabet() {
    let data = [0u8, 1, 2, 0xFF, 0x80, 0x7F, 42];
    let text = encode_base32(&data);
    assert_eq!(text.len(), (8 * data.len() + 4) / 5);
    assert_eq!(decode_base32(&text).unwrap(), data.to_vec());
    assert_eq!(encode_base32(&[0xFF]), b"ZW".to_vec());
    assert_eq!(decode_base32(b"zw").unwrap(), vec![0xFF]);
    assert_eq!(decode_base32(b"Z-W").unwrap(), vec![0xFF]);
    assert!(decode_base32(b"ZU").is_none());
}

#[test]
fn payload_text_roundtrip() {
    let p = sample_payload();
    let bytes = p.to_bytes();
    assert_eq!(bytes.len(), PAYLOAD_LEN);
    let mut out = [0u8; 96];
    let n = encode_payload(&p, &mut out);
    assert_eq!(n, 95);
    let s = std::str::from_utf8(&out[..n]).unwrap().to_lowercase();
    let back = decode_payload(&s).unwrap();
    assert_eq!(back.phone_pub, p.phone_pub);
    assert_eq!(back.ip, p.ip);
    assert_eq!(back.port, 7777);
    assert_eq!(back.nonce_p, p.nonce_p);
    let mut small = [0u8; 10];
    assert_eq!(encode_payload(&p, &mut small), 0);
}

#[test]
fn payload_errors() {
    let p = sample_payload();
    let mut b = p.to_bytes();
    assert_eq!(PairingPayload::from_bytes(&b[..58]).unwrap_err(), PairError::BadLength);
    b[30] ^= 1;
    assert_eq!(PairingPayload::from_bytes(&b).unwrap_err(), PairError::BadCrc);
    let mut m = p.to_bytes();
    m[0] = b'X';
    assert_eq!(PairingPayload::from_bytes(&m).unwrap_err(), PairError::BadMagic);
    let mut v = p.to_bytes();
    v[2] = 9;
    assert_eq!(PairingPayload::from_bytes(&v).unwrap_err(), PairError::BadVersion);
    assert_eq!(decode_payload("not*base32").unwrap_err(), PairError::BadChar);
    assert_eq!(decode_payload("0000").unwrap_err(), PairError::BadLength);
}

#[test]
fn both_sides_derive_the_same_session() {
    let phone_priv = [0x11u8; 32];
    let sem_priv = [0x22u8; 32];
    let phone_pub = x25519_base(&phone_priv);
    let sem_pub = x25519_base(&sem_priv);
    let np = [1u8; 16];
    let ns = [2u8; 16];
    let a = derive_session(VERSION, &phone_pub, &np, &sem_pub, &ns, &sem_priv, &phone_pub);
    let b = derive_session(VERSION, &phone_pub, &np, &sem_pub, &ns, &phone_priv, &sem_pub);
    assert_eq!(a.session_key, b.session_key);
    assert_eq!(a.transcript_hash, b.transcript_hash);
    assert_eq!(a.sas, b.sas);
    assert!(a.sas < 1_000_000);
    let mac = confirm_mac(&a.session_key, &a.transcript_hash, true);
    assert!(verify_confirm(&b.session_key, &b.transcript_hash, true, &mac));
    assert!(!verify_confirm(&b.session_key, &b.transcript_hash, false, &mac));
    assert!(!verify_confirm(&b.session_key, &b.transcript_hash, true, &mac[..31]));
    let mut id = [0u8; 16];
    assert_eq!(pairing_id(&phone_pub, &sem_pub, &mut id), 16);
    assert!(id.iter().all(|c| c.is_ascii_hexdigit() && !c.is_ascii_uppercase()));
}

#[test]
fn frames_and_records() {
    let mut out = [0u8; 64];
    assert_eq!(build_hello(&[5u8; 32], &[6u8; 16], &mut out), 52);
    assert_eq!(parse_frame_header(&out[..3]), Some((FRAME_HELLO, 49)));
    assert_eq!(build_confirm(&[9u8; 32], &mut out), 35);
    assert_eq!(parse_frame_header(&out[..3]), Some((FRAME_CONFIRM, 32)));
    assert_eq!(parse_frame_header(&[0, 0, 1]), None);
    assert_eq!(parse_frame_header(&[0, 127, 1]), None);
    assert_eq!(parse_frame_header(&[0, 126, 1]), Some((1, 125)));
    let r = PairRecord { phone_pub: [4u8; 32], ip: [10, 0, 0, 2], port: 443, created_at: 1_700_000_000 };
    let bytes = r.to_bytes();
    let back = PairRecord::from_bytes(&bytes).unwrap();
    assert_eq!(back.created_at, 1_700_000_000);
    assert_eq!(back.port, 443);
    assert!(PairRecord::from_bytes(&bytes[..48]).is_none());
}

#[test]
fn register_child_records_platform_task() {
    let mut pm = ProcessManager::new();
    pm.init();
    let info = ElfInfo { entry: 0x40_1000, base: 0, brk: 0x40_3000, stack_top: 0x7fff_0000, num_segments: 1 };
    let pid = pm.register_child("child", 5, info, 0x7ffe_ff00).unwrap();
    assert_eq!(pid, ProcessId(2));
    let p = pm.get(pid).unwrap();
    assert_eq!(p.task_id, Some(5));
    assert_eq!(p.entry_point, 0x40_1000);
    assert_eq!(p.brk, 0x40_3000);
    assert_eq!(p.stack_ptr, 0x7ffe_ff00);
    assert_eq!(p.parent, Some(ProcessId(0)));
    assert_eq!(p.capabilities.bits, MINIMAL_CAPS);
    assert_eq!(p.state, ProcessState::Running);
}

#[test]
fn spawn_takes_task_slots_until_full() {
    let mut pm = ProcessManager::new();
    pm.init();
    let mut sched = Scheduler::new();
    sched.init_core();
    let first = pm.spawn_user(&mut sched, "w").unwrap();
    assert_eq!(pm.get(first).unwrap().task_id, Some(1));
    assert_eq!(sched.tasks[1].max_tier, 0);
    assert!(!sched.tasks[1].is_kernel);
    let k = pm.spawn(&mut sched, "k").unwrap();
    assert_eq!(pm.get(k).unwrap().task_id, Some(2));
    assert_eq!(sched.tasks[2].max_tier, 3);
    assert!(sched.tasks[2].is_kernel);
    for _ in 3..16 {
        assert!(pm.spawn_user(&mut sched, "w").is_some());
    }
    let before = pm.process_count();
    assert!(pm.spawn_user(&mut sched, "w").is_none());
    assert!(pm.spawn(&mut sched, "k").is_none());
    assert_eq!(pm.process_count(), before);
}

#[test]
fn payload_text_ignores_case_and_hyphens() {
    let p = sample_payload();
    let mut out = [0u8; 96];
    let n = encode_payload(&p, &mut out);
    let text = std::str::from_utf8(&out[..n]).unwrap();
    let mut mixed = String::new();
    for (k, c) in text.chars().enumerate() {
        if k % 5 == 0 {
            mixed.push('-');
        }
        mixed.push(if k % 2 == 0 { c.to_ascii_lowercase() } else { c });
    }
    let a = decode_payload(text).unwrap();
    let b = decode_payload(&mixed).unwrap();
    assert_eq!(a.phone_pub, b.phone_pub);
    assert_eq!(a.ip, b.ip);
    assert_eq!(a.port, b.port);
    assert_eq!(a.nonce_p, b.nonce_p);
}
