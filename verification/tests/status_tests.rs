use kernel_core::clock::ticks_to_millis;
use kernel_core::netlog::{datagram_ranges, MTU};
use kernel_core::scheduler::Scheduler;
use kernel_core::storage::status_text;

#[test]
fn scheduler_status_lists_live_tasks() {
    let mut sched = Scheduler::new();
    sched.init_core();
    let slot = sched.alloc_task_slot("shell", 1, false).unwrap();
    sched.mark_ready(slot);
    let text = String::from_utf8(sched.status_text()).unwrap();
    let expected = format!(
        "\n=== Scheduler Status ===\n  Context switches: 0\n  Current task: 0\n  Tasks:\n    [0] kernel (kernel) - RUNNING (runs: 0)\n    [{}] shell (user) - ready (runs: 0)\n========================\n",
        slot
    );
    assert_eq!(text, expected);
}

#[test]
fn scheduler_status_of_empty_table() {
    let sched = Scheduler::new();
    let text = String::from_utf8(sched.status_text()).unwrap();
    assert_eq!(
        text,
        "\n=== Scheduler Status ===\n  Context switches: 0\n  Current task: 0\n  Tasks:\n========================\n"
    );
}

#[test]
fn storage_status_reports_sizes() {
    let text = String::from_utf8(status_text()).unwrap();
    assert_eq!(
        text,
        "\n  Storage Status:\n    Header size: 72 bytes\n    Pool entry size: 28 bytes\n    Encrypted header size: 28 bytes\n"
    );
}

#[test]
fn datagram_split() {
    assert!(datagram_ranges(0).is_empty());
    assert_eq!(datagram_ranges(10), vec![(0, 10)]);
    assert_eq!(datagram_ranges(MTU), vec![(0, 1400)]);
    assert_eq!(datagram_ranges(3000), vec![(0, 1400), (1400, 2800), (2800, 3000)]);
}

#[test]
fn tick_milliseconds() {
    assert_eq!(ticks_to_millis(0), 0);
    assert_eq!(ticks_to_millis(123), 1230);
    assert_eq!(ticks_to_millis(u64::MAX / 2), i64::MAX);
    // Past i64::MAX the cast wraps negative and the product saturates low.
    assert_eq!(ticks_to_millis(u64::MAX), -10);
    assert_eq!(ticks_to_millis(1u64 << 63), i64::MIN);
}
