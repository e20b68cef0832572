//! Platform-independent scheduler state: the task table and the
//! round-robin choice of the next task. The platform performs the actual
//! context switch.
use vstd::prelude::*;
use vstd::string::StringSliceAdditionalSpecFns;
use crate::bytes::push_bytes;
use crate::fmt::{dec_digits, push_decimal};

verus! {

/// Task slots.
pub const MAX_TASKS: usize = 16;
/// Timer interrupts per second.
pub const SCHEDULER_TICK_HZ: u64 = 62;
/// Stack bytes per task.
pub const TASK_STACK_SIZE: usize = 262144;

/// State of a task slot.
#[derive(Debug, Clone, Copy, PartialEq, Eq, Structural)]
pub enum TaskState {
    Empty,
    Ready,
    Running,
    Blocked,
    Exited,
}

/// Why a task is blocked.
#[derive(Debug, Clone, Copy, PartialEq, Eq, Structural)]
pub enum BlockReason {
    /// Not blocked, or blocked until woken explicitly.
    NoReason,
    /// Sleeping until `wake_at`.
    Sleep,
    /// Waiting for data on a pipe.
    PipeRead(usize),
    /// Waiting for room on a pipe.
    PipeWrite(usize),
    /// Waiting for a child process to exit (woken explicitly).
    WaitChild,
    /// Waiting on a futex word at this address (woken explicitly).
    Futex(u64),
    /// Waiting for the task in this slot to exit.
    JoinTask(usize),
}

/// Scheduler metadata of one task.
#[derive(Clone, Copy)]
pub struct TaskInfo {
    pub id: usize,
    pub state: TaskState,
    pub name: &'static str,
    /// Times the task has been picked to run.
    pub run_count: u64,
    /// Highest tier the task may access (0 = public .. 3 = secret).
    pub max_tier: u8,
    /// Kernel mode (true) or user mode (false).
    pub is_kernel: bool,
    /// Tick at which a sleeping task wakes; 0 for none.
    pub wake_at: u64,
    pub block_reason: BlockReason,
    /// Effective user the task acts for.
    pub user_id: u8,
    /// Exit code published when the task exits.
    pub exit_code: u64,
}

impl TaskInfo {
    /// An unused slot.
    pub fn empty() -> (r: Self)
        ensures
            r.id == 0, r.state == TaskState::Empty, r.run_count == 0, r.max_tier == 0,
            r.is_kernel, r.wake_at == 0, r.block_reason == BlockReason::NoReason,
            r.user_id == 255, r.exit_code == 0, r.name@ == ""@,
    {
        TaskInfo {
            id: 0,
            state: TaskState::Empty,
            name: "",
            run_count: 0,
            max_tier: 0,
            is_kernel: true,
            wake_at: 0,
            block_reason: BlockReason::NoReason,
            user_id: 255,
            exit_code: 0,
        }
    }
}

/// The task as it is after being woken: ready, no wake tick, no reason.
pub open spec fn woken(t: TaskInfo) -> TaskInfo {
    TaskInfo { state: TaskState::Ready, wake_at: 0, block_reason: BlockReason::NoReason, ..t }
}

/// The task with another state.
pub open spec fn with_state(t: TaskInfo, s: TaskState) -> TaskInfo {
    TaskInfo { state: s, ..t }
}

/// Whether a blocked task's wait is over at tick `now`, given the pipes
/// that hold data (`readable`) and have room (`writable`).
pub open spec fn should_wake(t: TaskInfo, tasks: Seq<TaskInfo>, now: u64, readable: Seq<usize>,
    writable: Seq<usize>) -> bool {
    t.state == TaskState::Blocked && match t.block_reason {
        BlockReason::Sleep => t.wake_at > 0 && now >= t.wake_at,
        BlockReason::PipeRead(p) => readable.contains(p),
        BlockReason::PipeWrite(p) => writable.contains(p),
        BlockReason::JoinTask(s) => s < MAX_TASKS && tasks[s as int].state == TaskState::Exited,
        _ => false,
    }
}

/// The task table after waking every task whose wait is over.
pub open spec fn wake_all(tasks: Seq<TaskInfo>, now: u64, readable: Seq<usize>, writable: Seq<usize>)
    -> Seq<TaskInfo> {
    Seq::new(tasks.len(), |i: int|
        if should_wake(tasks[i], tasks, now, readable, writable) { woken(tasks[i]) } else { tasks[i] })
}

/// The task table after the running task `cur` is put back to ready.
pub open spec fn yield_current(tasks: Seq<TaskInfo>, cur: int) -> Seq<TaskInfo> {
    if tasks[cur].state == TaskState::Running {
        tasks.update(cur, with_state(tasks[cur], TaskState::Ready))
    } else {
        tasks
    }
}

/// The task `k` slots after `cur`, cyclically, is ready.
pub open spec fn ready_at(tasks: Seq<TaskInfo>, cur: int, k: int) -> bool {
    tasks[(cur + k) % (MAX_TASKS as int)].state == TaskState::Ready
}

/// The least offset `k >= from` (at most `MAX_TASKS`) such that the task
/// `k` slots after `cur`, cyclically, is ready; -1 if none.
pub open spec fn first_ready_from(tasks: Seq<TaskInfo>, cur: int, from: int) -> int
    decreases MAX_TASKS + 1 - from,
{
    if from > MAX_TASKS {
        -1
    } else if tasks[(cur + from) % (MAX_TASKS as int)].state == TaskState::Ready {
        from
    } else {
        first_ready_from(tasks, cur, from + 1)
    }
}

/// The slot chosen to run next from table `s` with `cur` running: the first
/// ready slot after `cur` in cyclic order (ending with `cur` itself), else 0.
pub open spec fn next_slot(s: Seq<TaskInfo>, cur: int) -> int {
    let off = first_ready_from(s, cur, 1);
    if off >= 0 { (cur + off) % (MAX_TASKS as int) } else { 0 }
}

/// Number of tasks among the first `n` blocked on the futex at `addr`.
pub open spec fn futex_waiters(tasks: Seq<TaskInfo>, addr: u64, n: int) -> nat
    decreases n,
{
    if n <= 0 {
        0
    } else {
        futex_waiters(tasks, addr, n - 1) + if blocked_on_futex(tasks[n - 1], addr) { 1nat } else { 0nat }
    }
}

/// The task is blocked on the futex at `addr`.
pub open spec fn blocked_on_futex(t: TaskInfo, addr: u64) -> bool {
    t.state == TaskState::Blocked && t.block_reason == BlockReason::Futex(addr)
}

/// A futex wake of at most `max` tasks wakes task `j`: it waits on `addr`
/// and fewer than `max` waiters come before it.
pub open spec fn futex_woken(tasks: Seq<TaskInfo>, addr: u64, max: usize, j: int) -> bool {
    blocked_on_futex(tasks[j], addr) && futex_waiters(tasks, addr, j) < max
}

/// A slot a new task may take: empty, or its task has exited.
pub open spec fn reusable(t: TaskInfo) -> bool {
    t.state == TaskState::Empty || t.state == TaskState::Exited
}

/// Slot `i` is the first reusable slot from 1 up (slot 0 is the kernel's).
pub open spec fn first_reusable(tasks: Seq<TaskInfo>, i: int) -> bool {
    1 <= i < MAX_TASKS && reusable(tasks[i]) && forall|j: int| 1 <= j < i ==> !#[trigger] reusable(tasks[j])
}

/// Scheduler state: the task table, the running slot, and counters.
pub struct Scheduler {
    pub tasks: [TaskInfo; 16],
    /// Index of the running task.
    pub current: usize,
    /// Id handed to the next task.
    pub next_task_id: usize,
    /// Context switches so far.
    pub context_switches: u64,
    pub initialized: bool,
}

/// Whether `x` occurs in `s`.
fn slice_contains(s: &[usize], x: usize) -> (r: bool)
    ensures r == s@.contains(x),
{
    let mut i: usize = 0;
    while i < s.len()
        invariant i <= s@.len(), forall|j: int| 0 <= j < i ==> s@[j] != x,
        decreases s@.len() - i,
    {
        if s[i] == x {
            assert(s@[i as int] == x);
            return true;
        }
        i += 1;
    }
    false
}

/// Search offsets from `from`: skipping a non-ready one does not change the result.
proof fn lemma_first_ready_step(tasks: Seq<TaskInfo>, cur: int, from: int)
    requires
        1 <= from <= MAX_TASKS,
        tasks[(cur + from) % (MAX_TASKS as int)].state != TaskState::Ready,
    ensures first_ready_from(tasks, cur, from) == first_ready_from(tasks, cur, from + 1),
{
}

impl Scheduler {
    /// Scheduler invariant: the running index is a slot.
    pub open spec fn wf(&self) -> bool {
        self.current < MAX_TASKS
    }

    /// Every slot empty, not yet initialised.
    pub fn new() -> (r: Self)
        ensures
            r.wf(), !r.initialized, r.current == 0, r.next_task_id == 1, r.context_switches == 0,
            forall|i: int| 0 <= i < MAX_TASKS ==> (#[trigger] r.tasks@[i]).state == TaskState::Empty,
    {
        let e = TaskInfo::empty();
        Scheduler { tasks: [e; 16], current: 0, next_task_id: 1, context_switches: 0, initialized: false }
    }

    /// Install the kernel task in slot 0 (running, secret tier, system user)
    /// and mark the scheduler initialised.
    pub fn init_core(&mut self)
        ensures
            final(self).wf(), final(self).initialized, final(self).current == 0,
            final(self).tasks@ == old(self).tasks@.update(0, final(self).tasks@[0]),
            final(self).tasks@[0].id == 0, final(self).tasks@[0].state == TaskState::Running,
            final(self).tasks@[0].name@ == "kernel"@, final(self).tasks@[0].run_count == 0,
            final(self).tasks@[0].max_tier == 3, final(self).tasks@[0].is_kernel,
            final(self).tasks@[0].wake_at == 0, final(self).tasks@[0].block_reason == BlockReason::NoReason,
            final(self).tasks@[0].user_id == 0, final(self).tasks@[0].exit_code == 0,
            final(self).next_task_id == old(self).next_task_id,
            final(self).context_switches == old(self).context_switches,
    {
        self.tasks[0] = TaskInfo {
            id: 0,
            state: TaskState::Running,
            name: "kernel",
            run_count: 0,
            max_tier: 3,
            is_kernel: true,
            wake_at: 0,
            block_reason: BlockReason::NoReason,
            user_id: 0,
            exit_code: 0,
        };
        self.current = 0;
        self.initialized = true;
    }

    /// Highest tier of the running task.
    pub fn current_task_max_tier(&self) -> (r: u8)
        requires self.wf(),
        ensures r == self.tasks@[self.current as int].max_tier,
    {
        self.tasks[self.current].max_tier
    }

    /// Whether the running task is a user-mode task.
    pub fn current_task_is_user(&self) -> (r: bool)
        requires self.wf(),
        ensures r == !self.tasks@[self.current as int].is_kernel,
    {
        !self.tasks[self.current].is_kernel
    }

    /// Index of the running task.
    pub fn current_task_index(&self) -> (r: usize)
        ensures r == self.current,
    {
        self.current
    }

    /// Effective user of the running task.
    pub fn current_user_id(&self) -> (r: u8)
        requires self.wf(),
        ensures r == self.tasks@[self.current as int].user_id,
    {
        self.tasks[self.current].user_id
    }

    /// Set the effective user of the running task.
    pub fn set_current_user_id(&mut self, uid: u8)
        requires old(self).wf(),
        ensures
            final(self).wf(), final(self).current == old(self).current,
            final(self).tasks@ == old(self).tasks@.update(old(self).current as int,
                TaskInfo { user_id: uid, ..old(self).tasks@[old(self).current as int] }),
    {
        let c = self.current;
        self.tasks[c].user_id = uid;
    }

    /// Round-robin choice of the next task. Wakes blocked tasks whose wait
    /// is over (`readable` / `writable`: the pipes that hold data / have
    /// room), puts the running task back to ready, and picks the first ready
    /// slot after it. Returns `(from, to)` when the running task changes.
    pub fn pick_next(&mut self, now: u64, readable: &[usize], writable: &[usize]) -> (r: Option<(usize, usize)>)
        requires
            old(self).wf(),
        ensures
            final(self).wf(),
            final(self).next_task_id == old(self).next_task_id,
            final(self).initialized == old(self).initialized,
            !old(self).initialized ==> r is None && *final(self) == *old(self),
            old(self).initialized ==> {
                let cur = old(self).current as int;
                let s2 = yield_current(wake_all(old(self).tasks@, now, readable@, writable@), cur);
                let next = next_slot(s2, cur);
                if next == cur && s2[cur].state == TaskState::Ready {
                    &&& r is None
                    &&& final(self).tasks@ == s2.update(cur, with_state(s2[cur], TaskState::Running))
                    &&& final(self).current == old(self).current
                    &&& final(self).context_switches == old(self).context_switches
                } else {
                    &&& r == Some((old(self).current, next as usize))
                    &&& final(self).tasks@ == s2.update(next, TaskInfo {
                            state: TaskState::Running, run_count: s2[next].run_count.wrapping_add(1), ..s2[next] })
                    &&& final(self).current == next
                    &&& final(self).context_switches == old(self).context_switches.wrapping_add(1)
                }
            },
    {
        if !self.initialized {
            return None;
        }
        let cur = self.current;
        let ghost s0 = self.tasks@;
        let mut i: usize = 0;
        while i < MAX_TASKS
            invariant
                i <= MAX_TASKS, self.current == cur, cur < MAX_TASKS, s0.len() == MAX_TASKS,
                self.initialized, self.next_task_id == old(self).next_task_id,
                self.context_switches == old(self).context_switches,
                forall|j: int| 0 <= j < i ==> #[trigger] self.tasks@[j] == wake_all(s0, now, readable@, writable@)[j],
                forall|j: int| i <= j < MAX_TASKS ==> #[trigger] self.tasks@[j] == s0[j],
                forall|j: int| 0 <= j < MAX_TASKS ==>
                    ((#[trigger] self.tasks@[j]).state == TaskState::Exited) == (s0[j].state == TaskState::Exited),
                forall|j: int| 0 <= j < MAX_TASKS ==> (#[trigger] self.tasks@[j]).run_count == s0[j].run_count,
            decreases MAX_TASKS - i,
        {
            let t = self.tasks[i];
            if t.state == TaskState::Blocked {
                let wake = match t.block_reason {
                    BlockReason::Sleep => t.wake_at > 0 && now >= t.wake_at,
                    BlockReason::PipeRead(p) => slice_contains(readable, p),
                    BlockReason::PipeWrite(p) => slice_contains(writable, p),
                    BlockReason::JoinTask(s) => s < MAX_TASKS && self.tasks[s].state == TaskState::Exited,
                    _ => false,
                };
                if wake {
                    self.tasks[i].state = TaskState::Ready;
                    self.tasks[i].wake_at = 0;
                    self.tasks[i].block_reason = BlockReason::NoReason;
                }
            }
            i += 1;
        }
        let ghost s1 = self.tasks@;
        assert(s1 =~= wake_all(s0, now, readable@, writable@));
        if self.tasks[cur].state == TaskState::Running {
            self.tasks[cur].state = TaskState::Ready;
        }
        let ghost s2 = self.tasks@;
        assert(s2 =~= yield_current(s1, cur as int));
        let mut k: usize = 1;
        let mut found = false;
        let mut next: usize = 0;
        while k <= MAX_TASKS
            invariant_except_break
                1 <= k <= MAX_TASKS + 1, cur < MAX_TASKS, self.tasks@ == s2, !found,
                first_ready_from(s2, cur as int, 1) == first_ready_from(s2, cur as int, k as int),
            ensures
                self.tasks@ == s2,
                found ==> next < MAX_TASKS && first_ready_from(s2, cur as int, 1) >= 0
                    && next == (cur + first_ready_from(s2, cur as int, 1)) % (MAX_TASKS as int),
                !found ==> first_ready_from(s2, cur as int, 1) == -1,
            decreases MAX_TASKS + 1 - k,
        {
            let cand = (cur + k) % MAX_TASKS;
            if self.tasks[cand].state == TaskState::Ready {
                next = cand;
                found = true;
                break;
            }
            proof {
                lemma_first_ready_step(s2, cur as int, k as int);
            }
            k += 1;
        }
        if !found {
            next = 0;
        }
        assert(next == next_slot(s2, cur as int));
        if next == cur && self.tasks[cur].state == TaskState::Ready {
            self.tasks[cur].state = TaskState::Running;
            return None;
        }
        self.tasks[next].state = TaskState::Running;
        self.tasks[next].run_count = self.tasks[next].run_count.wrapping_add(1);
        self.current = next;
        self.context_switches = self.context_switches.wrapping_add(1);
        Some((cur, next))
    }

    /// The first reusable slot from 1 up.
    pub fn next_reusable_slot(&self) -> (r: Option<usize>)
        ensures
            r is None <==> forall|i: int| 1 <= i < MAX_TASKS ==> !#[trigger] reusable(self.tasks@[i]),
            r matches Some(i) ==> first_reusable(self.tasks@, i as int),
    {
        let mut i: usize = 1;
        while i < MAX_TASKS
            invariant 1 <= i <= MAX_TASKS, forall|j: int| 1 <= j < i ==> !#[trigger] reusable(self.tasks@[j]),
            decreases MAX_TASKS - i,
        {
            if self.tasks[i].state == TaskState::Exited || self.tasks[i].state == TaskState::Empty {
                assert(reusable(self.tasks@[i as int]));
                return Some(i);
            }
            i += 1;
        }
        None
    }

    /// Reserve a slot for a new task, blocked until `mark_ready`, acting for
    /// `user_id`. The slot is the first empty or exited one from 1 up; the
    /// caller releases the platform resources of a slot whose task had exited.
    pub fn alloc_task_slot_with_user(&mut self, name: &'static str, max_tier: u8, is_kernel: bool,
        user_id: u8) -> (r: Option<usize>)
        requires old(self).wf(),
        ensures
            final(self).wf(), final(self).current == old(self).current,
            final(self).initialized == old(self).initialized,
            final(self).context_switches == old(self).context_switches,
            r is None <==> forall|i: int| 1 <= i < MAX_TASKS ==> !#[trigger] reusable(old(self).tasks@[i]),
            r is None ==> *final(self) == *old(self),
            r matches Some(i) ==> first_reusable(old(self).tasks@, i as int)
                && final(self).tasks@ == old(self).tasks@.update(i as int, TaskInfo {
                    id: old(self).next_task_id, state: TaskState::Blocked, name: name, run_count: 0,
                    max_tier: max_tier, is_kernel: is_kernel, wake_at: 0,
                    block_reason: BlockReason::NoReason, user_id: user_id, exit_code: 0 })
                && final(self).next_task_id == old(self).next_task_id.wrapping_add(1),
    {
        match self.next_reusable_slot() {
            Some(i) => {
                let task_id = self.next_task_id;
                self.next_task_id = self.next_task_id.wrapping_add(1);
                self.tasks[i] = TaskInfo {
                    id: task_id,
                    state: TaskState::Blocked,
                    name,
                    run_count: 0,
                    max_tier,
                    is_kernel,
                    wake_at: 0,
                    block_reason: BlockReason::NoReason,
                    user_id,
                    exit_code: 0,
                };
                Some(i)
            }
            None => None,
        }
    }

    /// Reserve a slot acting for the running task's user.
    pub fn alloc_task_slot(&mut self, name: &'static str, max_tier: u8, is_kernel: bool) -> (r: Option<usize>)
        requires old(self).wf(),
        ensures
            final(self).wf(), final(self).current == old(self).current,
            r is None <==> forall|i: int| 1 <= i < MAX_TASKS ==> !#[trigger] reusable(old(self).tasks@[i]),
            r is None ==> *final(self) == *old(self),
            r matches Some(i) ==> first_reusable(old(self).tasks@, i as int)
                && final(self).tasks@ == old(self).tasks@.update(i as int, TaskInfo {
                    id: old(self).next_task_id, state: TaskState::Blocked, name: name, run_count: 0,
                    max_tier: max_tier, is_kernel: is_kernel, wake_at: 0,
                    block_reason: BlockReason::NoReason,
                    user_id: old(self).tasks@[old(self).current as int].user_id, exit_code: 0 }),
    {
        let uid = self.current_user_id();
        self.alloc_task_slot_with_user(name, max_tier, is_kernel, uid)
    }

    /// Set the user of slot `slot` (ignored for an invalid slot).
    pub fn set_slot_user_id(&mut self, slot: usize, uid: u8)
        requires old(self).wf(),
        ensures
            final(self).wf(), final(self).current == old(self).current,
            slot < MAX_TASKS ==> final(self).tasks@ == old(self).tasks@.update(slot as int,
                TaskInfo { user_id: uid, ..old(self).tasks@[slot as int] }),
            slot >= MAX_TASKS ==> *final(self) == *old(self),
    {
        if slot >= MAX_TASKS {
            return;
        }
        self.tasks[slot].user_id = uid;
    }

    /// Make a reserved slot (blocked with no reason) ready to run; other
    /// slots are left alone.
    pub fn mark_ready(&mut self, slot: usize)
        requires old(self).wf(),
        ensures
            final(self).wf(), final(self).current == old(self).current,
            (slot < MAX_TASKS && old(self).tasks@[slot as int].state == TaskState::Blocked
                && old(self).tasks@[slot as int].block_reason == BlockReason::NoReason)
                ==> final(self).tasks@ == old(self).tasks@.update(slot as int,
                    with_state(old(self).tasks@[slot as int], TaskState::Ready)),
            !(slot < MAX_TASKS && old(self).tasks@[slot as int].state == TaskState::Blocked
                && old(self).tasks@[slot as int].block_reason == BlockReason::NoReason)
                ==> *final(self) == *old(self),
    {
        if slot >= MAX_TASKS {
            return;
        }
        if self.tasks[slot].state == TaskState::Blocked && self.tasks[slot].block_reason == BlockReason::NoReason {
            self.tasks[slot].state = TaskState::Ready;
        }
    }

    /// (context switches, running index).
    pub fn stats(&self) -> (r: (u64, usize))
        ensures r == (self.context_switches, self.current),
    {
        (self.context_switches, self.current)
    }

    /// State of a slot (empty for an invalid slot).
    pub fn task_state(&self, slot: usize) -> (r: TaskState)
        ensures r == (if slot < MAX_TASKS { self.tasks@[slot as int].state } else { TaskState::Empty }),
    {
        if slot >= MAX_TASKS {
            return TaskState::Empty;
        }
        self.tasks[slot].state
    }

    /// Name of a slot's task (empty for an invalid slot).
    pub fn task_name(&self, slot: usize) -> (r: &'static str)
        ensures
            slot < MAX_TASKS ==> r == self.tasks@[slot as int].name,
            slot >= MAX_TASKS ==> r@ == ""@,
    {
        if slot >= MAX_TASKS {
            return "";
        }
        self.tasks[slot].name
    }

    /// How often a slot's task was picked (0 for an invalid slot).
    pub fn task_run_count(&self, slot: usize) -> (r: u64)
        ensures r == (if slot < MAX_TASKS { self.tasks@[slot as int].run_count } else { 0 }),
    {
        if slot >= MAX_TASKS {
            return 0;
        }
        self.tasks[slot].run_count
    }

    /// Why a slot's task is blocked (no reason for an invalid slot).
    pub fn task_block_reason(&self, slot: usize) -> (r: BlockReason)
        ensures r == (if slot < MAX_TASKS { self.tasks@[slot as int].block_reason } else { BlockReason::NoReason }),
    {
        if slot >= MAX_TASKS {
            return BlockReason::NoReason;
        }
        self.tasks[slot].block_reason
    }

    /// Exit code of a slot's task (0 for an invalid slot).
    pub fn task_exit_code(&self, slot: usize) -> (r: u64)
        ensures r == (if slot < MAX_TASKS { self.tasks@[slot as int].exit_code } else { 0 }),
    {
        if slot >= MAX_TASKS {
            return 0;
        }
        self.tasks[slot].exit_code
    }

    /// Block the running task on the futex word at `addr`.
    pub fn futex_block(&mut self, addr: u64)
        requires old(self).wf(),
        ensures
            final(self).wf(), final(self).current == old(self).current,
            final(self).tasks@ == old(self).tasks@.update(old(self).current as int, TaskInfo {
                state: TaskState::Blocked, block_reason: BlockReason::Futex(addr), wake_at: 0,
                ..old(self).tasks@[old(self).current as int] }),
    {
        let c = self.current;
        self.tasks[c].state = TaskState::Blocked;
        self.tasks[c].block_reason = BlockReason::Futex(addr);
        self.tasks[c].wake_at = 0;
    }

    /// Wake at most `max` tasks blocked on the futex at `addr`, in slot
    /// order; returns how many were woken.
    pub fn futex_wake(&mut self, addr: u64, max: usize) -> (r: usize)
        requires old(self).wf(),
        ensures
            final(self).wf(), final(self).current == old(self).current,
            r == (if futex_waiters(old(self).tasks@, addr, MAX_TASKS as int) < max {
                futex_waiters(old(self).tasks@, addr, MAX_TASKS as int) } else { max as nat }),
            forall|j: int| 0 <= j < MAX_TASKS ==> #[trigger] final(self).tasks@[j] ==
                if futex_woken(old(self).tasks@, addr, max, j) {
                    TaskInfo { state: TaskState::Ready, block_reason: BlockReason::NoReason, ..old(self).tasks@[j] }
                } else {
                    old(self).tasks@[j]
                },
    {
        if max == 0 {
            return 0;
        }
        let ghost s0 = self.tasks@;
        let mut woken: usize = 0;
        let mut i: usize = 0;
        while i < MAX_TASKS
            invariant_except_break
                i <= MAX_TASKS, self.current == old(self).current, self.wf(), s0 == old(self).tasks@,
                woken == futex_waiters(s0, addr, i as int), woken < max,
                forall|j: int| 0 <= j < i ==> #[trigger] self.tasks@[j] ==
                    if futex_woken(s0, addr, max, j) {
                        TaskInfo { state: TaskState::Ready, block_reason: BlockReason::NoReason, ..s0[j] }
                    } else { s0[j] },
                forall|j: int| i <= j < MAX_TASKS ==> #[trigger] self.tasks@[j] == s0[j],
            ensures
                self.current == old(self).current, self.wf(),
                woken == (if futex_waiters(s0, addr, MAX_TASKS as int) < max {
                    futex_waiters(s0, addr, MAX_TASKS as int) } else { max as nat }),
                forall|j: int| 0 <= j < MAX_TASKS ==> #[trigger] self.tasks@[j] ==
                    if futex_woken(s0, addr, max, j) {
                        TaskInfo { state: TaskState::Ready, block_reason: BlockReason::NoReason, ..s0[j] }
                    } else { s0[j] },
            decreases MAX_TASKS - i,
        {
            if self.tasks[i].state == TaskState::Blocked && self.tasks[i].block_reason == BlockReason::Futex(addr) {
                self.tasks[i].state = TaskState::Ready;
                self.tasks[i].block_reason = BlockReason::NoReason;
                woken += 1;
                if woken >= max {
                    proof {
                        assert forall|j: int| i < j < MAX_TASKS implies !futex_woken(s0, addr, max, j) by {
                            lemma_futex_waiters_mono(s0, addr, i as int + 1, j);
                        }
                        lemma_futex_waiters_mono(s0, addr, i as int + 1, MAX_TASKS as int);
                    }
                    break;
                }
            }
            i += 1;
        }
        woken
    }

    /// Block the running task until the task in `target_slot` exits.
    pub fn join_block(&mut self, target_slot: usize)
        requires old(self).wf(),
        ensures
            final(self).wf(), final(self).current == old(self).current,
            final(self).tasks@ == old(self).tasks@.update(old(self).current as int, TaskInfo {
                state: TaskState::Blocked, block_reason: BlockReason::JoinTask(target_slot), wake_at: 0,
                ..old(self).tasks@[old(self).current as int] }),
    {
        let c = self.current;
        self.tasks[c].state = TaskState::Blocked;
        self.tasks[c].block_reason = BlockReason::JoinTask(target_slot);
        self.tasks[c].wake_at = 0;
    }

    /// Record the running task's exit code.
    /// Put the running task to sleep until tick `wake_at`.
    pub fn sleep_current(&mut self, wake_at: u64)
        requires old(self).wf(),
        ensures
            final(self).wf(), final(self).current == old(self).current,
            final(self).tasks@ == old(self).tasks@.update(old(self).current as int, TaskInfo {
                state: TaskState::Blocked, wake_at, block_reason: BlockReason::Sleep,
                ..old(self).tasks@[old(self).current as int] }),
    {
        let c = self.current;
        self.tasks[c].state = TaskState::Blocked;
        self.tasks[c].wake_at = wake_at;
        self.tasks[c].block_reason = BlockReason::Sleep;
    }

    /// Mark the task in `slot` exited (ignored for an invalid slot).
    pub fn mark_exited(&mut self, slot: usize)
        requires old(self).wf(),
        ensures
            final(self).wf(), final(self).current == old(self).current,
            slot < MAX_TASKS ==> final(self).tasks@ == old(self).tasks@.update(slot as int,
                with_state(old(self).tasks@[slot as int], TaskState::Exited)),
            slot >= MAX_TASKS ==> *final(self) == *old(self),
    {
        if slot < MAX_TASKS {
            self.tasks[slot].state = TaskState::Exited;
        }
    }

    /// The running task leaves for good: its exit code is published and it
    /// is marked exited, so `pick_next` never picks it again.
    pub fn exit_current(&mut self, code: u64)
        requires old(self).wf(),
        ensures
            final(self).wf(), final(self).current == old(self).current,
            final(self).tasks@ == old(self).tasks@.update(old(self).current as int,
                TaskInfo { exit_code: code, state: TaskState::Exited, ..old(self).tasks@[old(self).current as int] }),
    {
        let c = self.current;
        self.tasks[c].exit_code = code;
        self.tasks[c].state = TaskState::Exited;
    }

    pub fn set_current_exit_code(&mut self, code: u64)
        requires old(self).wf(),
        ensures
            final(self).wf(), final(self).current == old(self).current,
            final(self).tasks@ == old(self).tasks@.update(old(self).current as int,
                TaskInfo { exit_code: code, ..old(self).tasks@[old(self).current as int] }),
    {
        let c = self.current;
        self.tasks[c].exit_code = code;
    }
}

/// Counting waiters over a longer prefix never gives fewer.
pub proof fn lemma_futex_waiters_mono(tasks: Seq<TaskInfo>, addr: u64, a: int, b: int)
    requires 0 <= a <= b,
    ensures futex_waiters(tasks, addr, a) <= futex_waiters(tasks, addr, b),
    decreases b - a,
{
    if a < b {
        lemma_futex_waiters_mono(tasks, addr, a, b - 1);
    }
}

/// The task chosen by `pick_next` is ready when it is chosen (unless no
/// task at all is ready, when slot 0 is taken), and no ready task lies
/// strictly between the running one and the chosen one in cyclic order.
pub proof fn law_round_robin_fair(s: Seq<TaskInfo>, cur: int)
    requires s.len() == MAX_TASKS, 0 <= cur < MAX_TASKS,
    ensures
        first_ready_from(s, cur, 1) >= 0 ==> s[next_slot(s, cur)].state == TaskState::Ready,
        first_ready_from(s, cur, 1) >= 0 ==> forall|k: int| 1 <= k < first_ready_from(s, cur, 1)
            ==> !#[trigger] ready_at(s, cur, k),
        first_ready_from(s, cur, 1) < 0 ==> forall|i: int| 0 <= i < MAX_TASKS
            ==> #[trigger] s[i].state != TaskState::Ready,
{
    lemma_first_ready_props(s, cur, 1);
    if first_ready_from(s, cur, 1) < 0 {
        assert forall|i: int| 0 <= i < MAX_TASKS implies #[trigger] s[i].state != TaskState::Ready by {
            let k = if i > cur { i - cur } else { i - cur + MAX_TASKS as int };
            assert((cur + k) % (MAX_TASKS as int) == i);
            assert(!ready_at(s, cur, k));
        }
    }
}

/// What `first_ready_from` says about the offsets it passes over.
pub proof fn lemma_first_ready_props(s: Seq<TaskInfo>, cur: int, from: int)
    requires 1 <= from,
    ensures
        first_ready_from(s, cur, from) == -1 || from <= first_ready_from(s, cur, from) <= MAX_TASKS,
        first_ready_from(s, cur, from) >= 0 ==>
            s[(cur + first_ready_from(s, cur, from)) % (MAX_TASKS as int)].state == TaskState::Ready,
        forall|k: int| from <= k <= MAX_TASKS
            && (first_ready_from(s, cur, from) == -1 || k < first_ready_from(s, cur, from))
            ==> !#[trigger] ready_at(s, cur, k),
    decreases MAX_TASKS + 1 - from,
{
    if from <= MAX_TASKS && s[(cur + from) % (MAX_TASKS as int)].state != TaskState::Ready {
        lemma_first_ready_props(s, cur, from + 1);
    }
}

/// The word the status listing shows for a task state.
pub open spec fn state_label(st: TaskState) -> Seq<u8> {
    match st {
        TaskState::Empty => "empty".spec_bytes(),
        TaskState::Ready => "ready".spec_bytes(),
        TaskState::Running => "RUNNING".spec_bytes(),
        TaskState::Blocked => "blocked".spec_bytes(),
        TaskState::Exited => "exited".spec_bytes(),
    }
}

/// The listing line of the task in slot `i`.
pub open spec fn task_line(t: TaskInfo, i: int) -> Seq<u8> {
    "    [".spec_bytes() + dec_digits(i as nat) + "] ".spec_bytes() + t.name.spec_bytes()
        + (if t.is_kernel { " (kernel)".spec_bytes() } else { " (user)".spec_bytes() })
        + " - ".spec_bytes() + state_label(t.state) + " (runs: ".spec_bytes()
        + dec_digits(t.run_count as nat) + ")\n".spec_bytes()
}

/// The lines of the non-empty slots among `0..i`.
pub open spec fn task_lines(tasks: Seq<TaskInfo>, i: int) -> Seq<u8>
    decreases i,
{
    if i <= 0 {
        Seq::empty()
    } else if tasks[i - 1].state == TaskState::Empty {
        task_lines(tasks, i - 1)
    } else {
        task_lines(tasks, i - 1) + task_line(tasks[i - 1], i - 1)
    }
}

/// The scheduler status report.
pub open spec fn status_spec(s: Scheduler) -> Seq<u8> {
    "\n=== Scheduler Status ===\n".spec_bytes() + "  Context switches: ".spec_bytes()
        + dec_digits(s.context_switches as nat) + "\n  Current task: ".spec_bytes()
        + dec_digits(s.current as nat) + "\n".spec_bytes() + "  Tasks:\n".spec_bytes()
        + task_lines(s.tasks@, MAX_TASKS as int) + "========================\n".spec_bytes()
}

fn state_word(st: TaskState) -> (r: &'static str)
    ensures r.spec_bytes() == state_label(st),
{
    match st {
        TaskState::Empty => "empty",
        TaskState::Ready => "ready",
        TaskState::Running => "RUNNING",
        TaskState::Blocked => "blocked",
        TaskState::Exited => "exited",
    }
}

impl Scheduler {
    /// The status report for the log: context switches, the running slot and
    /// one line per non-empty slot (name, kernel or user, state, run count).
    #[verifier::spinoff_prover]
    #[verifier::rlimit(40)]
    pub fn status_text(&self) -> (r: Vec<u8>)
        ensures r@ == status_spec(*self),
    {
        let mut out: Vec<u8> = Vec::new();
        push_bytes(&mut out, "\n=== Scheduler Status ===\n".as_bytes());
        push_bytes(&mut out, "  Context switches: ".as_bytes());
        push_decimal(&mut out, self.context_switches);
        push_bytes(&mut out, "\n  Current task: ".as_bytes());
        push_decimal(&mut out, self.current as u64);
        push_bytes(&mut out, "\n".as_bytes());
        push_bytes(&mut out, "  Tasks:\n".as_bytes());
        let ghost prefix = out@;
        let mut i: usize = 0;
        while i < MAX_TASKS
            invariant
                i <= MAX_TASKS,
                out@ == prefix + task_lines(self.tasks@, i as int),
            decreases MAX_TASKS - i,
        {
            let t = self.tasks[i];
            if t.state != TaskState::Empty {
                let ghost before = out@;
                push_bytes(&mut out, "    [".as_bytes());
                push_decimal(&mut out, i as u64);
                push_bytes(&mut out, "] ".as_bytes());
                push_bytes(&mut out, t.name.as_bytes());
                if t.is_kernel {
                    push_bytes(&mut out, " (kernel)".as_bytes());
                } else {
                    push_bytes(&mut out, " (user)".as_bytes());
                }
                push_bytes(&mut out, " - ".as_bytes());
                push_bytes(&mut out, state_word(t.state).as_bytes());
                push_bytes(&mut out, " (runs: ".as_bytes());
                push_decimal(&mut out, t.run_count);
                push_bytes(&mut out, ")\n".as_bytes());
                proof {
                    assert(out@ =~= before + task_line(t, i as int));
                }
            }
            i += 1;
            proof {
                assert(out@ =~= prefix + task_lines(self.tasks@, i as int));
            }
        }
        push_bytes(&mut out, "========================\n".as_bytes());
        out
    }
}

/// Pipe waits in a scheduling step: a task blocked waiting for data on pipe
/// `p` becomes ready exactly when `p` is among the pipes that hold data
/// (`readable`), and one blocked waiting for room on `p` exactly when `p` is
/// among the pipes with room (`writable`); the other list plays no part.
/// This holds of the table `pick_next` chooses from, after the running task
/// `cur` is put back to ready.
pub proof fn law_pipe_wake(s: Seq<TaskInfo>, i: int, cur: int, p: usize, now: u64,
    readable: Seq<usize>, writable: Seq<usize>)
    requires
        s.len() == MAX_TASKS,
        0 <= i < MAX_TASKS,
        0 <= cur < MAX_TASKS,
        s[i].state == TaskState::Blocked,
        s[i].block_reason == BlockReason::PipeWrite(p) || s[i].block_reason == BlockReason::PipeRead(p),
    ensures
        s[i].block_reason == BlockReason::PipeWrite(p) ==>
            yield_current(wake_all(s, now, readable, writable), cur)[i].state
                == (if writable.contains(p) { TaskState::Ready } else { TaskState::Blocked }),
        s[i].block_reason == BlockReason::PipeRead(p) ==>
            yield_current(wake_all(s, now, readable, writable), cur)[i].state
                == (if readable.contains(p) { TaskState::Ready } else { TaskState::Blocked }),
{
    let w = wake_all(s, now, readable, writable);
    assert(w[i].state == (if should_wake(s[i], s, now, readable, writable) { TaskState::Ready } else { TaskState::Blocked }));
    assert(w[i].state != TaskState::Running);
}

} // verus!
