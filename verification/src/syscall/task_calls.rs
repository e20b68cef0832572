//! The task and process system calls that decide over the scheduler and the
//! process table: identity of the running task, exit, futexes, joining a
//! thread and the non-blocking wait. Yielding the CPU after a call that
//! blocks is the caller's part.
use vstd::prelude::*;
use crate::scheduler::{Scheduler, TaskInfo, TaskState, BlockReason, MAX_TASKS, futex_waiters, futex_woken, with_state};
use crate::process::{ProcessId, ProcessState, ExitStatus, MAX_CHILDREN, MAX_PROCESSES};
use crate::process::manager::{ProcessManager, WaitStep, slot_of, first_zombie_child};
use crate::syscall::sem_calls::SYS_ERR;
use crate::bytes::{le32, le64, u32_to_le, u64_to_le, push_bytes};

verus! {

/// SYS_GETPID: the running task's scheduler slot.
pub fn sys_getpid(sched: &Scheduler) -> (r: u64)
    ensures r == sched.current,
{
    sched.current_task_index() as u64
}

/// SYS_EXIT: publish `code` and mark the running task exited (the caller
/// then yields). Always 0.
pub fn sys_exit(sched: &mut Scheduler, code: u64) -> (r: u64)
    requires old(sched).wf(),
    ensures
        r == 0, final(sched).wf(), final(sched).current == old(sched).current,
        final(sched).tasks@ == old(sched).tasks@.update(old(sched).current as int,
            TaskInfo { exit_code: code, state: TaskState::Exited, ..old(sched).tasks@[old(sched).current as int] }),
{
    sched.exit_current(code);
    0
}

/// A futex word address is usable: non-null and 4-byte aligned.
pub fn futex_addr_ok(addr: u64) -> (r: bool)
    ensures r == (addr != 0 && addr % 4 == 0),
{
    let ok = addr != 0 && addr & 3 == 0;
    assert(addr & 3 == addr % 4) by (bit_vector);
    ok
}

/// SYS_FUTEX_WAIT once the caller read the word at `addr` (`observed`):
/// 1 if it no longer holds `expected`; otherwise the running task blocks
/// on `addr` and the result is 0 (the caller yields).
pub fn sys_futex_wait(sched: &mut Scheduler, addr: u64, expected: u64, observed: u32) -> (r: u64)
    requires old(sched).wf(),
    ensures
        final(sched).wf(),
        observed as u64 != expected ==> r == 1 && *final(sched) == *old(sched),
        observed as u64 == expected ==> r == 0 && final(sched).current == old(sched).current
            && final(sched).tasks@ == old(sched).tasks@.update(old(sched).current as int, TaskInfo {
                state: TaskState::Blocked, block_reason: BlockReason::Futex(addr), wake_at: 0,
                ..old(sched).tasks@[old(sched).current as int] }),
{
    if observed as u64 != expected {
        return 1;
    }
    sched.futex_block(addr);
    0
}

/// SYS_FUTEX_WAKE: wake up to `max_count` tasks blocked on `addr` (in slot
/// order); the number woken. A null address wakes nobody.
pub fn sys_futex_wake(sched: &mut Scheduler, addr: u64, max_count: u64) -> (r: u64)
    requires old(sched).wf(),
    ensures
        final(sched).wf(),
        addr == 0 ==> r == 0 && *final(sched) == *old(sched),
        addr != 0 ==> ({
            let max: usize = if max_count > usize::MAX { usize::MAX } else { max_count as usize };
            let n = futex_waiters(old(sched).tasks@, addr, MAX_TASKS as int);
            &&& r == (if n < max { n } else { max as nat })
            &&& final(sched).current == old(sched).current
            &&& forall|j: int| 0 <= j < MAX_TASKS ==> #[trigger] final(sched).tasks@[j] ==
                if futex_woken(old(sched).tasks@, addr, max, j) {
                    TaskInfo { state: TaskState::Ready, block_reason: BlockReason::NoReason, ..old(sched).tasks@[j] }
                } else {
                    old(sched).tasks@[j]
                }
        }),
{
    if addr == 0 {
        return 0;
    }
    let max: usize = if max_count > usize::MAX as u64 { usize::MAX } else { max_count as usize };
    sched.futex_wake(addr, max) as u64
}

/// What SYS_THREAD_JOIN decided.
#[derive(Debug, Clone, Copy, PartialEq, Eq, Structural)]
pub enum JoinStep {
    /// The call returns this value now.
    Finished(u64),
    /// The running task now waits for the slot to exit; once it runs
    /// again, the call returns that slot's exit code.
    Blocked(usize),
}

/// SYS_THREAD_JOIN(tid): `SYS_ERR` for a slot out of range, the caller's
/// own slot or an empty one; the exit code of an exited slot; otherwise the
/// running task blocks until the slot exits.
pub fn sys_thread_join(sched: &mut Scheduler, tid: u64) -> (r: JoinStep)
    requires old(sched).wf(),
    ensures
        final(sched).wf(),
        ({
            let slot = tid as usize;
            let bad = slot >= MAX_TASKS || slot == old(sched).current
                || (old(sched).tasks@[slot as int].state == TaskState::Empty);
            &&& (bad ==> r == JoinStep::Finished(SYS_ERR) && *final(sched) == *old(sched))
            &&& (!bad && old(sched).tasks@[slot as int].state == TaskState::Exited ==>
                r == JoinStep::Finished(old(sched).tasks@[slot as int].exit_code) && *final(sched) == *old(sched))
            &&& (!bad && old(sched).tasks@[slot as int].state != TaskState::Exited ==> r == JoinStep::Blocked(slot)
                && final(sched).current == old(sched).current
                && final(sched).tasks@ == old(sched).tasks@.update(old(sched).current as int, TaskInfo {
                    state: TaskState::Blocked, block_reason: BlockReason::JoinTask(slot), wake_at: 0,
                    ..old(sched).tasks@[old(sched).current as int] }))
        }),
{
    let slot = tid as usize;
    if slot >= MAX_TASKS {
        return JoinStep::Finished(SYS_ERR);
    }
    if slot == sched.current_task_index() {
        return JoinStep::Finished(SYS_ERR);
    }
    let st = sched.task_state(slot);
    if st == TaskState::Exited {
        return JoinStep::Finished(sched.task_exit_code(slot));
    }
    if st == TaskState::Empty {
        return JoinStep::Finished(SYS_ERR);
    }
    sched.join_block(slot);
    JoinStep::Blocked(slot)
}

/// SYS_WAITNB: reap the first child (in child-slot order) that has exited
/// and return its PID; 0 if children exist but none has exited;
/// `SYS_ERR` without a running process or without children.
pub fn sys_waitnb(procs: &mut ProcessManager) -> (r: u64)
    requires old(procs).wf(),
    ensures
        final(procs).wf(), final(procs).current == old(procs).current,
        ({
            let cur = slot_of(old(procs).table@, old(procs).current);
            match cur {
                None => r == SYS_ERR && final(procs).table@ == old(procs).table@,
                Some(p) => if p.child_count == 0 {
                    r == SYS_ERR && final(procs).table@ == old(procs).table@
                } else {
                    match first_zombie_child(old(procs).table@, p.children@, 0) {
                        Some(c) => r == c.0 && final(procs).table@[c.0 as int] is None,
                        None => r == 0 && final(procs).table@ == old(procs).table@,
                    }
                }
            }
        }),
{
    let current = procs.current;
    let (children, count) = match procs.table.get(current) {
        Some(p) => (p.children, p.child_count),
        None => { return SYS_ERR; },
    };
    if count == 0 {
        return SYS_ERR;
    }
    let ghost t0 = procs.table@;
    let mut i: usize = 0;
    while i < MAX_CHILDREN
        invariant
            i <= MAX_CHILDREN, *procs == *old(procs), procs.wf(), procs.current == current,
            t0 == old(procs).table@,
            slot_of(t0, current) matches Some(p) && p.children == children && p.child_count == count,
            count != 0,
            first_zombie_child(t0, children@, 0) == first_zombie_child(t0, children@, i as int),
        decreases MAX_CHILDREN - i,
    {
        match children[i] {
            Some(child_pid) => {
                let zombie = match procs.table.get(child_pid) {
                    Some(c) => c.state == ProcessState::Zombie,
                    None => false,
                };
                if zombie {
                    assert(first_zombie_child(t0, children@, i as int) == Some(child_pid));
                    let _ = procs.wait_poll(child_pid);
                    return child_pid.0 as u64;
                }
            },
            None => {},
        }
        i += 1;
    }
    0
}

/// SYS_SLEEP at clock reading `now`: the running task sleeps until
/// `now + ticks` (saturating); a zero-tick sleep returns at once. Always 0
/// (the caller yields after a sleep).
pub fn sys_sleep(sched: &mut Scheduler, ticks: u64, now: u64) -> (r: u64)
    requires old(sched).wf(),
    ensures
        r == 0, final(sched).wf(),
        ticks == 0 ==> *final(sched) == *old(sched),
        ticks != 0 ==> final(sched).current == old(sched).current
            && final(sched).tasks@ == old(sched).tasks@.update(old(sched).current as int, TaskInfo {
                state: TaskState::Blocked, wake_at: now.saturating_add(ticks), block_reason: BlockReason::Sleep,
                ..old(sched).tasks@[old(sched).current as int] }),
{
    if ticks == 0 {
        return 0;
    }
    sched.sleep_current(now.saturating_add(ticks));
    0
}

/// SYS_KILL(pid): the parent of the target, or a caller whose task has the
/// secret tier, makes it a zombie killed by signal 9 and marks its task
/// exited (0). `SYS_ERR` for an unknown target or a refused caller.
pub fn sys_kill(procs: &mut ProcessManager, sched: &mut Scheduler, pid: u64) -> (r: u64)
    requires old(procs).wf(), old(sched).wf(),
    ensures
        final(procs).wf(), final(sched).wf(), final(procs).current == old(procs).current,
        final(sched).current == old(sched).current,
        ({
            let target = ProcessId(pid as u32);
            let tgt = slot_of(old(procs).table@, target);
            let caller_tier = old(sched).tasks@[old(sched).current as int].max_tier;
            let allowed = tgt matches Some(t) && (t.parent == Some(old(procs).current) || caller_tier >= 3);
            &&& (r == 0 <==> allowed)
            &&& (!allowed ==> r == SYS_ERR && final(procs).table@ == old(procs).table@ && *final(sched) == *old(sched))
            &&& (allowed ==> (final(procs).table@[target.0 as int] matches Some(k) && k.state == ProcessState::Zombie
                && k.exit_status == (ExitStatus { code: 137, signaled: true, signal: 9 }) && k.pid == tgt->0.pid
                && k.parent == tgt->0.parent))
            &&& (allowed ==> match tgt->0.task_id {
                Some(slot) => if slot < MAX_TASKS {
                    final(sched).tasks@ == old(sched).tasks@.update(slot as int,
                        with_state(old(sched).tasks@[slot as int], TaskState::Exited))
                } else { *final(sched) == *old(sched) },
                None => *final(sched) == *old(sched),
            })
        }),
{
    let target_pid = ProcessId(pid as u32);
    let caller_pid = procs.current;
    let caller_tier = sched.current_task_max_tier();
    let allowed = match procs.table.get(target_pid) {
        Some(t) => t.parent == Some(caller_pid) || caller_tier >= 3,
        None => false,
    };
    if !allowed {
        return SYS_ERR;
    }
    let task = match procs.table.get(target_pid) {
        Some(p) => p.task_id,
        None => { return SYS_ERR; },
    };
    proof { procs.table.lemma_len(); }
    match procs.table.get_mut(target_pid) {
        Some(p) => { p.exit(ExitStatus::killed(9)); },
        None => { return SYS_ERR; },
    }
    match task {
        Some(slot) => sched.mark_exited(slot),
        None => {},
    }
    0
}

/// Bytes of one SYS_PS record.
pub const PS_RECORD: usize = 24;

/// The number SYS_PS reports for a task state.
pub open spec fn state_code(st: TaskState) -> u8 {
    match st {
        TaskState::Empty => 0,
        TaskState::Ready => 1,
        TaskState::Running => 2,
        TaskState::Blocked => 3,
        TaskState::Exited => 4,
    }
}

/// The SYS_PS record of the task in slot `i`: slot and id (32-bit), run
/// count (64-bit), state, tier, kernel flag, user, four zero bytes; little-endian.
pub open spec fn ps_record(t: TaskInfo, i: int) -> Seq<u8> {
    le32(i as u32) + le32(t.id as u32) + le64(t.run_count)
        + seq![state_code(t.state), t.max_tier, if t.is_kernel { 1u8 } else { 0u8 }, t.user_id, 0u8, 0u8, 0u8, 0u8]
}

/// The records of the non-empty slots among `0..i`, stopping after `cap` of them.
pub open spec fn ps_records(tasks: Seq<TaskInfo>, i: int, cap: nat) -> (Seq<u8>, nat)
    decreases i,
{
    if i <= 0 {
        (Seq::empty(), 0)
    } else {
        let (b, n) = ps_records(tasks, i - 1, cap);
        if tasks[i - 1].state == TaskState::Empty || n >= cap { (b, n) } else { (b + ps_record(tasks[i - 1], i - 1), n + 1) }
    }
}

fn state_number(st: TaskState) -> (r: u8)
    ensures r == state_code(st),
{
    match st {
        TaskState::Empty => 0,
        TaskState::Ready => 1,
        TaskState::Running => 2,
        TaskState::Blocked => 3,
        TaskState::Exited => 4,
    }
}

/// SYS_PS for a caller buffer of `buf_len` bytes: one record per
/// non-empty task slot, in slot order, as many as fit; the count and the bytes.
pub fn sys_ps(sched: &Scheduler, buf_len: u64) -> (r: (u64, Vec<u8>))
    ensures
        ({
            let cap = ((buf_len as usize) / PS_RECORD) as nat;
            let (b, n) = ps_records(sched.tasks@, MAX_TASKS as int, cap);
            r.0 == n && r.1@ == b
        }),
{
    let cap = (buf_len as usize) / PS_RECORD;
    let mut out: Vec<u8> = Vec::new();
    let mut n: usize = 0;
    let mut i: usize = 0;
    while i < MAX_TASKS
        invariant
            i <= MAX_TASKS, n <= i,
            (out@, n as nat) == ps_records(sched.tasks@, i as int, cap as nat),
        decreases MAX_TASKS - i,
    {
        let t = sched.tasks[i];
        if t.state != TaskState::Empty && n < cap {
            let ghost before = out@;
            push_bytes(&mut out, u32_to_le(i as u32).as_slice());
            push_bytes(&mut out, u32_to_le(t.id as u32).as_slice());
            push_bytes(&mut out, u64_to_le(t.run_count).as_slice());
            let tail = [state_number(t.state), t.max_tier, if t.is_kernel { 1u8 } else { 0u8 }, t.user_id, 0u8, 0u8, 0u8, 0u8];
            push_bytes(&mut out, tail.as_slice());
            proof {
                assert(out@ =~= before + ps_record(t, i as int));
            }
            n += 1;
        }
        i += 1;
    }
    (n as u64, out)
}

/// How SYS_WAIT proceeds.
#[derive(Debug, Clone, Copy, PartialEq, Eq, Structural)]
pub enum WaitPlan {
    /// The call returns this value now.
    Finished(u64),
    /// The running task now blocks until the child's task slot exits; once
    /// it runs again, the call returns that slot's exit code.
    JoinSlot(usize),
    /// Wait for any child over the process table (`waitpid_any_poll` until
    /// done); the result is `wait_result` of what it collects.
    AnyChild,
    /// Wait for this child over the process table (`wait_begin`, then
    /// `wait_poll` until done); the result is `wait_result` of what it collects.
    Child(ProcessId),
}

/// SYS_WAIT(pid), first step: `pid` 0 waits for any child; a child whose
/// task slot is valid and not the caller's is joined through the scheduler
/// (its exit code at once if it has exited; a slot that is empty falls back
/// to the process table); otherwise the wait goes through the process table.
pub fn sys_wait_begin(procs: &ProcessManager, sched: &mut Scheduler, pid: u64) -> (r: WaitPlan)
    requires procs.wf(), old(sched).wf(),
    ensures
        final(sched).wf(),
        pid == 0 ==> r == WaitPlan::AnyChild && *final(sched) == *old(sched),
        pid != 0 ==> ({
            let child = ProcessId(pid as u32);
            let slot_opt = match slot_of(procs.table@, child) { Some(p) => p.task_id, None => None };
            match slot_opt {
                Some(slot) => if slot < MAX_TASKS && slot != old(sched).current
                    && old(sched).tasks@[slot as int].state != TaskState::Empty {
                    if old(sched).tasks@[slot as int].state == TaskState::Exited {
                        r == WaitPlan::Finished(old(sched).tasks@[slot as int].exit_code) && *final(sched) == *old(sched)
                    } else {
                        r == WaitPlan::JoinSlot(slot) && final(sched).current == old(sched).current
                            && final(sched).tasks@ == old(sched).tasks@.update(old(sched).current as int, TaskInfo {
                                state: TaskState::Blocked, block_reason: BlockReason::JoinTask(slot), wake_at: 0,
                                ..old(sched).tasks@[old(sched).current as int] })
                    }
                } else {
                    r == WaitPlan::Child(child) && *final(sched) == *old(sched)
                },
                None => r == WaitPlan::Child(child) && *final(sched) == *old(sched),
            }
        }),
{
    if pid == 0 {
        return WaitPlan::AnyChild;
    }
    let child = ProcessId(pid as u32);
    let slot = match procs.table.get(child) {
        Some(p) => p.task_id,
        None => None,
    };
    match slot {
        Some(slot) => {
            if slot < MAX_TASKS && slot != sched.current_task_index() {
                let st = sched.task_state(slot);
                if st == TaskState::Exited {
                    return WaitPlan::Finished(sched.task_exit_code(slot));
                }
                if st != TaskState::Empty {
                    sched.join_block(slot);
                    return WaitPlan::JoinSlot(slot);
                }
            }
            WaitPlan::Child(child)
        },
        None => WaitPlan::Child(child),
    }
}

/// The value SYS_WAIT returns for what a process-table wait collected: the
/// exit code (sign-extended) or `SYS_ERR` when nothing was collected.
pub fn wait_result(status: Option<ExitStatus>) -> (r: u64)
    ensures r == (match status { Some(s) => s.code as u64, None => SYS_ERR }),
{
    match status {
        Some(s) => s.code as u64,
        None => SYS_ERR,
    }
}

} // verus!
