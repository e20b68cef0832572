//! The process manager: the process table with the current PID, and the
//! bookkeeping of spawning, exiting and waiting.
use vstd::prelude::*;
use vstd::string::StringSliceAdditionalSpecFns;
use crate::process::{Process, ProcessId, ProcessState, ProcessTable, ExitStatus, MAX_PROCESSES, MAX_CHILDREN,
    fresh_process, first_free_child, first_child_slot, KERNEL_PID, INIT_PID};
use crate::process::elf::{load_elf, load_spec, validate_header, get_phdr, ElfInfo, PT_LOAD, PF_X, PF_W};
use crate::proc_cap::CapabilitySet;
use crate::scheduler::{Scheduler, TaskInfo, TaskState, BlockReason, MAX_TASKS, reusable, first_reusable};
use crate::slots::count_some;

verus! {

/// The hardware services that spawning from an executable needs; a
/// platform port implements them.
pub trait Platform {
    /// A new address space limited to `max_tier`; none if out of memory.
    fn create_address_space(&self, max_tier: u8) -> Option<u64>;

    /// Map a segment at `virt_addr`: `data`, then zeros up to `memsz`.
    fn map_elf_segment(&self, space: u64, virt_addr: u64, data: &[u8], memsz: usize, executable: bool,
        writable: bool) -> bool;

    /// Map a user stack below `stack_top`; the initial stack pointer.
    fn map_user_stack(&self, space: u64, stack_top: u64, stack_size: u64) -> Option<u64>;

    /// Write `argv` and `envp` onto the stack; the adjusted stack pointer.
    fn setup_user_argv(&self, space: u64, stack_top: u64, argv: &[&[u8]], envp: &[&[u8]]) -> Option<u64>;

    /// Start a user-mode task; its scheduler slot.
    fn spawn_user_task(&self, name: &'static str, user_rip: u64, user_rsp: u64, cr3: u64, max_tier: u8)
        -> Option<usize>;

    /// Free an address space.
    fn destroy_address_space(&self, space: u64);
}

/// Capability bits of the minimal set given to user processes.
pub const MINIMAL_CAPS: u64 = 0x1100_0101_0003u64;

/// `p` is the process registered for a task started from an executable:
/// user capabilities, running in `task`, entry, stack and heap from the
/// loader, working directory and environment copied from the parent.
pub open spec fn spawned_child(p: Process, pid: ProcessId, parent_pid: ProcessId, parent: Option<Process>,
    name: Seq<u8>, task: usize, info: ElfInfo, rsp: u64) -> bool
{
    let base = Process { cwd: p.cwd, cwd_len: p.cwd_len, env: p.env, env_len: p.env_len, ..p };
    &&& p.task_id == Some(task)
    &&& p.state == ProcessState::Running
    &&& p.capabilities.bits == MINIMAL_CAPS
    &&& p.entry_point == info.entry
    &&& p.stack_ptr == rsp as usize
    &&& p.brk == info.brk
    &&& p.pid == pid && p.parent == Some(parent_pid)
    &&& p.child_count == 0
    &&& forall|i: int| 0 <= i < MAX_CHILDREN ==> #[trigger] p.children@[i] is None
    &&& crate::process::name_bytes(&p) == name.subrange(0, if name.len() < 31 { name.len() as int } else { 31 })
    &&& match parent {
        Some(q) => p.cwd == q.cwd && p.cwd_len == q.cwd_len && p.env == q.env && p.env_len == q.env_len,
        None => crate::process::cwd_bytes(&p) == seq![47u8] && p.env_len == 0,
    }
}

/// `q2` is `q` with `child` recorded in its first free child slot (or
/// unchanged when none is free).
pub open spec fn child_added(q: Process, q2: Process, child: ProcessId) -> bool {
    &&& q2.pid == q.pid && q2.parent == q.parent && q2.state == q.state
    &&& q2.env == q.env && q2.env_len == q.env_len
    &&& (q.child_count < usize::MAX && exists|i: int| 0 <= i < MAX_CHILDREN && #[trigger] q.children@[i] is None) ==> (exists|i: int|
        first_free_child(q.children@, i) && q2.children@ == q.children@.update(i, Some(child)))
    &&& (q.child_count == usize::MAX || forall|i: int| 0 <= i < MAX_CHILDREN ==> #[trigger] q.children@[i] is Some)
        ==> q2.children == q.children
}

/// The process in the slot of `pid`, if the PID is in range.
pub open spec fn slot_of(t: Seq<Option<Process>>, pid: ProcessId) -> Option<Process> {
    if pid.0 < MAX_PROCESSES { t[pid.0 as int] } else { None }
}

/// `pid` is the lowest free PID from 2 up in `t`.
pub open spec fn lowest_free_pid(t: Seq<Option<Process>>, pid: ProcessId) -> bool {
    2 <= pid.0 < MAX_PROCESSES && t[pid.0 as int] is None && forall|i: int| 2 <= i < pid.0 ==> #[trigger] t[i] is Some
}

/// The first child slot (in order) naming a zombie process, from `i` on.
pub open spec fn first_zombie_child(t: Seq<Option<Process>>, children: Seq<Option<ProcessId>>, i: int)
    -> Option<ProcessId>
    decreases MAX_CHILDREN - i,
{
    if i >= MAX_CHILDREN || i < 0 {
        None
    } else {
        match children[i] {
            Some(c) => if slot_of(t, c) matches Some(p) && p.state == ProcessState::Zombie {
                Some(c)
            } else {
                first_zombie_child(t, children, i + 1)
            },
            None => first_zombie_child(t, children, i + 1),
        }
    }
}

/// One call made to the platform, with what came back.
pub ghost enum PlatformCall {
    CreateSpace { max_tier: u8, result: Option<u64> },
    MapSegment { space: u64, vaddr: u64, data: Seq<u8>, memsz: usize, executable: bool, writable: bool, ok: bool },
    MapStack { space: u64, stack_top: u64, stack_size: u64, result: Option<u64> },
    SetupArgv { space: u64, stack_top: u64, argv: Seq<Seq<u8>>, envp: Seq<Seq<u8>>, result: Option<u64> },
    SpawnTask { name: Seq<u8>, user_rip: u64, user_rsp: u64, cr3: u64, max_tier: u8, result: Option<usize> },
    Destroy { space: u64 },
}

/// The byte strings of a list of slices.
pub open spec fn byte_strings(v: Seq<&[u8]>) -> Seq<Seq<u8>> {
    v.map_values(|a: &[u8]| a@)
}

fn pf_create<P: Platform>(p: &P, log: &mut Ghost<Seq<PlatformCall>>, max_tier: u8) -> (r: Option<u64>)
    ensures final(log)@ == old(log)@.push(PlatformCall::CreateSpace { max_tier, result: r }),
{
    let r = p.create_address_space(max_tier);
    *log = Ghost(log@.push(PlatformCall::CreateSpace { max_tier, result: r }));
    r
}

fn pf_map_segment<P: Platform>(p: &P, log: &mut Ghost<Seq<PlatformCall>>, space: u64, vaddr: u64, data: &[u8],
    memsz: usize, executable: bool, writable: bool) -> (r: bool)
    ensures
        final(log)@ == old(log)@.push(PlatformCall::MapSegment { space, vaddr, data: data@, memsz, executable,
            writable, ok: r }),
{
    let r = p.map_elf_segment(space, vaddr, data, memsz, executable, writable);
    *log = Ghost(log@.push(PlatformCall::MapSegment { space, vaddr, data: data@, memsz, executable, writable, ok: r }));
    r
}

fn pf_map_stack<P: Platform>(p: &P, log: &mut Ghost<Seq<PlatformCall>>, space: u64, stack_top: u64,
    stack_size: u64) -> (r: Option<u64>)
    ensures final(log)@ == old(log)@.push(PlatformCall::MapStack { space, stack_top, stack_size, result: r }),
{
    let r = p.map_user_stack(space, stack_top, stack_size);
    *log = Ghost(log@.push(PlatformCall::MapStack { space, stack_top, stack_size, result: r }));
    r
}

fn pf_setup_argv<P: Platform>(p: &P, log: &mut Ghost<Seq<PlatformCall>>, space: u64, stack_top: u64,
    argv: &[&[u8]], envp: &[&[u8]]) -> (r: Option<u64>)
    ensures
        final(log)@ == old(log)@.push(PlatformCall::SetupArgv { space, stack_top, argv: byte_strings(argv@),
            envp: byte_strings(envp@), result: r }),
{
    let r = p.setup_user_argv(space, stack_top, argv, envp);
    *log = Ghost(log@.push(PlatformCall::SetupArgv { space, stack_top, argv: byte_strings(argv@),
        envp: byte_strings(envp@), result: r }));
    r
}

fn pf_spawn_task<P: Platform>(p: &P, log: &mut Ghost<Seq<PlatformCall>>, name: &'static str, user_rip: u64,
    user_rsp: u64, cr3: u64, max_tier: u8) -> (r: Option<usize>)
    ensures
        final(log)@ == old(log)@.push(PlatformCall::SpawnTask { name: name.spec_bytes(), user_rip, user_rsp, cr3,
            max_tier, result: r }),
{
    let r = p.spawn_user_task(name, user_rip, user_rsp, cr3, max_tier);
    *log = Ghost(log@.push(PlatformCall::SpawnTask { name: name.spec_bytes(), user_rip, user_rsp, cr3, max_tier,
        result: r }));
    r
}

fn pf_destroy<P: Platform>(p: &P, log: &mut Ghost<Seq<PlatformCall>>, space: u64)
    ensures final(log)@ == old(log)@.push(PlatformCall::Destroy { space }),
{
    p.destroy_address_space(space);
    *log = Ghost(log@.push(PlatformCall::Destroy { space }));
}

/// Whether `c` frees an address space.
pub open spec fn is_destroy(c: PlatformCall) -> bool {
    c is Destroy
}

/// Whether `c` is a call on address space `space` other than freeing it
/// (creating it counts as on no space).
pub open spec fn uses_space(c: PlatformCall, space: u64) -> bool {
    match c {
        PlatformCall::MapSegment { space: s, .. } => s == space,
        PlatformCall::MapStack { space: s, .. } => s == space,
        PlatformCall::SetupArgv { space: s, .. } => s == space,
        PlatformCall::SpawnTask { cr3, .. } => cr3 == space,
        _ => false,
    }
}

/// The calls a spawn made on the platform, for an image loaded as `info`
/// with `stack_size` bytes of stack, `argv`, `envp`, name and tier, given
/// the outcome `r`: first the address space; then segment maps on it, the
/// stack, the arguments and the task, each with what the one before gave;
/// on any failure after the address space exists, exactly one call that
/// frees it, as the last call.
pub open spec fn spawn_calls(calls: Seq<PlatformCall>, info: ElfInfo, max_tier: u8, stack_size: u64,
    argv: Seq<Seq<u8>>, envp: Seq<Seq<u8>>, name: Seq<u8>, ok: bool) -> bool
{
    &&& calls.len() >= 1
    &&& calls[0] matches PlatformCall::CreateSpace { max_tier: t, result } && t == max_tier
    &&& match calls[0]->CreateSpace_result {
        None => calls.len() == 1 && !ok,
        Some(cr3) => {
            &&& forall|i: int| 1 <= i < calls.len() - 1 ==> uses_space(#[trigger] calls[i], cr3)
            &&& forall|i: int| 1 <= i < calls.len() - 1 ==> !is_destroy(#[trigger] calls[i])
            &&& !ok ==> calls.len() >= 2 && calls.last() == PlatformCall::Destroy { space: cr3 }
            &&& ok ==> ({
                &&& calls.len() >= 4 && !is_destroy(calls.last()) && uses_space(calls.last(), cr3)
                &&& match (calls[calls.len() - 3], calls[calls.len() - 2], calls.last()) {
                    (PlatformCall::MapStack { stack_top, stack_size: sz, result: Some(rsp0), .. },
                        PlatformCall::SetupArgv { stack_top: top2, argv: a, envp: e, result: Some(rsp1), .. },
                        PlatformCall::SpawnTask { name: n, user_rip, user_rsp, max_tier: t2, result: Some(_), .. }) =>
                        stack_top == info.stack_top as u64 && sz == stack_size && top2 == rsp0 && a == argv
                            && e == envp && n == name && user_rip == info.entry as u64 && user_rsp == rsp1
                            && t2 == max_tier,
                    _ => false,
                }
            })
        },
    }
}

/// The process table and the PID of the running process.
pub struct ProcessManager {
    pub table: ProcessTable,
    pub current: ProcessId,
    /// Every call the manager has made to the platform, in order.
    pub platform_log: Ghost<Seq<PlatformCall>>,
}

impl ProcessManager {
    pub open spec fn wf(&self) -> bool {
        self.table.wf()
    }

    /// An empty table; PID 0 running.
    pub fn new() -> (r: Self)
        ensures r.wf(), r.current == ProcessId(0), forall|i: int| 0 <= i < MAX_PROCESSES ==> #[trigger] r.table@[i] is None,
    {
        ProcessManager { table: ProcessTable::new(), current: ProcessId(0), platform_log: Ghost(Seq::empty()) }
    }

    /// Install the kernel (PID 0) and init (PID 1) processes; PID 0 runs.
    pub fn init(&mut self)
        requires old(self).wf(),
        ensures
            final(self).wf(), final(self).current == ProcessId(0),
            old(self).table@[0] is None ==> (final(self).table@[0] matches Some(k) && k.pid == ProcessId(KERNEL_PID)
                && k.state == ProcessState::Running),
            old(self).table@[1] is None ==> (final(self).table@[1] matches Some(p) && p.pid == ProcessId(INIT_PID)
                && p.parent == Some(ProcessId(KERNEL_PID))),
    {
        let k = Process::kernel();
        let _ = self.table.insert(k);
        let i = Process::init();
        let _ = self.table.insert(i);
        self.current = ProcessId(0);
    }

    /// PID of the running process.
    pub fn current_pid(&self) -> (r: ProcessId)
        ensures r == self.current,
    {
        self.current
    }

    /// Make `pid` the running process.
    pub fn set_current_pid(&mut self, pid: ProcessId)
        ensures final(self).current == pid, final(self).table == old(self).table,
    {
        self.current = pid;
    }

    /// The running process.
    pub fn current(&self) -> (r: Option<&Process>)
        requires self.wf(),
        ensures
            r is Some <==> (self.current.0 < MAX_PROCESSES && self.table@[self.current.0 as int] is Some),
            r matches Some(p) ==> self.table@[self.current.0 as int] == Some(*p),
    {
        self.table.get(self.current)
    }

    /// The process with PID `pid`.
    pub fn get(&self, pid: ProcessId) -> (r: Option<&Process>)
        requires self.wf(),
        ensures
            r is Some <==> (pid.0 < MAX_PROCESSES && self.table@[pid.0 as int] is Some),
            r matches Some(p) ==> self.table@[pid.0 as int] == Some(*p),
    {
        self.table.get(pid)
    }

    /// PID of the process running in scheduler slot `slot`.
    pub fn pid_for_slot(&self, slot: usize) -> (r: Option<ProcessId>)
        requires self.wf(),
        ensures
            r is None <==> forall|i: int| 0 <= i < MAX_PROCESSES
                ==> !(#[trigger] self.table@[i] matches Some(p) && p.task_id == Some(slot)),
            r matches Some(pid) ==> exists|i: int| crate::process::first_on_task(self.table@, slot, i)
                && self.table@[i]->0.pid == pid,
    {
        self.table.find_pid_by_task(slot)
    }

    /// Number of processes.
    pub fn process_count(&self) -> (r: usize)
        requires self.wf(),
        ensures r == count_some(self.table@),
    {
        self.table.count()
    }

    /// Record a newly started task `task_slot` as a child of the running
    /// process: the last step of spawning from an executable, once the
    /// platform has started the task with stack pointer `user_rsp`.
    pub fn register_child(&mut self, name: &'static str, task_slot: usize, info: ElfInfo, user_rsp: u64)
        -> (r: Option<ProcessId>)
        requires old(self).wf(),
        ensures
            final(self).wf(), final(self).current == old(self).current,
            final(self).platform_log == old(self).platform_log,
            r is None <==> forall|i: int| 2 <= i < MAX_PROCESSES ==> #[trigger] old(self).table@[i] is Some,
            r is None ==> final(self).table@ == old(self).table@,
            r matches Some(pid) ==> lowest_free_pid(old(self).table@, pid),
            r matches Some(pid) ==> final(self).table@[pid.0 as int] is Some,
            r matches Some(pid) ==> old(self).current.0 != pid.0 ==> spawned_child(final(self).table@[pid.0 as int]->0,
                pid, old(self).current, slot_of(old(self).table@, old(self).current), name.spec_bytes(), task_slot,
                info, user_rsp),
            r matches Some(pid) ==> forall|i: int| 0 <= i < MAX_PROCESSES && i != pid.0 && i != old(self).current.0
                ==> #[trigger] final(self).table@[i] == old(self).table@[i],
            r matches Some(pid) ==> (old(self).current.0 < MAX_PROCESSES && old(self).table@[old(self).current.0 as int] is Some
                ==> (final(self).table@[old(self).current.0 as int] matches Some(q2)
                    && child_added(old(self).table@[old(self).current.0 as int]->0, q2, pid))),
    {
        let parent_pid = self.current;
        let pid = match self.table.alloc_pid() {
            Some(p) => p,
            None => return None,
        };
        let mut proc = Process::new(pid, Some(parent_pid), name);
        proc.capabilities = CapabilitySet::minimal();
        match self.table.get(parent_pid) {
            Some(parent) => {
                proc.cwd = parent.cwd;
                proc.cwd_len = parent.cwd_len;
                proc.env = parent.env;
                proc.env_len = parent.env_len;
            }
            None => {}
        }
        proc.task_id = Some(task_slot);
        proc.state = ProcessState::Running;
        proc.entry_point = info.entry;
        proc.stack_ptr = #[verifier::truncate] (user_rsp as usize);
        proc.brk = info.brk;
        let ghost t0 = self.table@;
        let ghost child = proc;
        let ok = self.table.insert(proc);
        assert(ok);
        let ghost t1 = self.table@;
        assert(t1 == t0.update(pid.0 as int, Some(child)));
        match self.table.get_mut(parent_pid) {
            Some(parent) => {
                if parent.child_count < usize::MAX {
                    let _ = parent.add_child(pid);
                }
            }
            None => {}
        }
        Some(pid)
    }

    /// Start a user process from the executable `elf_data` with `argv` and
    /// `envp`: load it, give it an address space limited to `max_tier`, map
    /// its segments and a stack of `stack_size` bytes, start its task and
    /// record it as a child of the running process. On a platform failure
    /// the address space is freed and nothing is recorded.
    pub fn spawn_from_elf_with_args<P: Platform>(&mut self, platform: &P, name: &'static str, elf_data: &[u8],
        max_tier: u8, argv: &[&[u8]], envp: &[&[u8]], stack_size: u64) -> (r: Option<ProcessId>)
        requires old(self).wf(),
        ensures
            final(self).wf(), final(self).current == old(self).current,
            load_spec(elf_data@) is None ==> r is None,
            (forall|i: int| 2 <= i < MAX_PROCESSES ==> #[trigger] old(self).table@[i] is Some) ==> r is None,
            r is None ==> final(self).table@ == old(self).table@,
            final(self).platform_log@.len() >= old(self).platform_log@.len(),
            final(self).platform_log@.subrange(0, old(self).platform_log@.len() as int) == old(self).platform_log@,
            load_spec(elf_data@) is None ==> final(self).platform_log@ == old(self).platform_log@,
            ({
                let calls = final(self).platform_log@.subrange(old(self).platform_log@.len() as int,
                    final(self).platform_log@.len() as int);
                let ok = calls.len() > 1 && !is_destroy(calls.last());
                load_spec(elf_data@) matches Some(info) ==> {
                    &&& spawn_calls(calls, info, max_tier, stack_size, byte_strings(argv@), byte_strings(envp@),
                        name.spec_bytes(), ok)
                    &&& r is Some ==> ok
                    &&& ok ==> (r is None <==> forall|i: int| 2 <= i < MAX_PROCESSES ==> #[trigger] old(self).table@[i] is Some)
                    &&& r matches Some(pid) ==> old(self).current.0 != pid.0 ==> (match calls.last() {
                        PlatformCall::SpawnTask { user_rsp, result: Some(task), .. } =>
                            spawned_child(final(self).table@[pid.0 as int]->0, pid, old(self).current,
                                slot_of(old(self).table@, old(self).current), name.spec_bytes(), task, info, user_rsp),
                        _ => false,
                    })
                }
            }),
            r matches Some(pid) ==> lowest_free_pid(old(self).table@, pid),
            r matches Some(pid) ==> final(self).table@[pid.0 as int] is Some,
            r matches Some(pid) ==> forall|i: int| 0 <= i < MAX_PROCESSES && i != pid.0 && i != old(self).current.0
                ==> #[trigger] final(self).table@[i] == old(self).table@[i],
            r matches Some(pid) ==> (old(self).current.0 < MAX_PROCESSES && old(self).table@[old(self).current.0 as int] is Some
                ==> (final(self).table@[old(self).current.0 as int] matches Some(q2)
                    && child_added(old(self).table@[old(self).current.0 as int]->0, q2, pid))),
    {
        let ghost log0 = self.platform_log@;
        let ghost base = log0.len() as int;
        let info = match load_elf(elf_data) {
            Some(i) => i,
            None => {
                assert(self.platform_log@.subrange(0, base) =~= log0);
                return None;
            }
        };
        let cr3 = match pf_create(platform, &mut self.platform_log, max_tier) {
            Some(c) => c,
            None => {
                assert(self.platform_log@.subrange(base, self.platform_log@.len() as int)
                    =~= seq![PlatformCall::CreateSpace { max_tier, result: None }]);
                assert(self.platform_log@.subrange(0, base) =~= log0);
                return None;
            }
        };
        let ghost first = PlatformCall::CreateSpace { max_tier, result: Some(cr3) };
        let header = match validate_header(elf_data) {
            Ok(h) => h,
            Err(_) => {
                pf_destroy(platform, &mut self.platform_log, cr3);
                assert(self.platform_log@.subrange(base, self.platform_log@.len() as int)
                    =~= seq![first, PlatformCall::Destroy { space: cr3 }]);
                assert(self.platform_log@.subrange(0, base) =~= log0);
                return None;
            }
        };
        let len = elf_data.len();
        let mut i: u16 = 0;
        while i < header.e_phnum
            invariant
                self.table == old(self).table, self.current == old(self).current, old(self).wf(),
                len == elf_data@.len(),
                self.platform_log@.len() >= base + 1, self.platform_log@.subrange(0, base) == log0,
                self.platform_log@[base] == first, log0 == old(self).platform_log@, base == log0.len(),
                first == (PlatformCall::CreateSpace { max_tier, result: Some(cr3) }),
                load_spec(elf_data@) == Some(info),
                forall|k: int| base + 1 <= k < self.platform_log@.len() ==> uses_space(#[trigger] self.platform_log@[k], cr3)
                    && !is_destroy(self.platform_log@[k]),
            decreases header.e_phnum - i,
        {
            let phdr = match get_phdr(elf_data, &header, i) {
                Ok(p) => p,
                Err(_) => {
                    pf_destroy(platform, &mut self.platform_log, cr3);
                    assert(self.platform_log@.subrange(0, base) =~= log0);
                    return None;
                }
            };
            if phdr.p_type == PT_LOAD {
                let vaddr = phdr.p_vaddr.wrapping_add(info.base as u64);
                let filesz = phdr.p_filesz;
                let offset = phdr.p_offset;
                let memsz = #[verifier::truncate] (phdr.p_memsz as usize);
                let executable = phdr.p_flags & PF_X != 0;
                let writable = phdr.p_flags & PF_W != 0;
                let seg: &[u8] = if filesz > 0 && offset <= len as u64 && filesz <= len as u64 - offset {
                    vstd::slice::slice_subrange(elf_data, offset as usize, (offset + filesz) as usize)
                } else {
                    vstd::slice::slice_subrange(elf_data, 0, 0)
                };
                if !pf_map_segment(platform, &mut self.platform_log, cr3, vaddr, seg, memsz, executable, writable) {
                    pf_destroy(platform, &mut self.platform_log, cr3);
                    assert(self.platform_log@.subrange(0, base) =~= log0);
                    return None;
                }
            }
            i += 1;
        }
        let stack_top = info.stack_top as u64;
        let user_rsp = match pf_map_stack(platform, &mut self.platform_log, cr3, stack_top, stack_size) {
            Some(rsp) => rsp,
            None => {
                pf_destroy(platform, &mut self.platform_log, cr3);
                assert(self.platform_log@.subrange(0, base) =~= log0);
                return None;
            }
        };
        let user_rsp = match pf_setup_argv(platform, &mut self.platform_log, cr3, user_rsp, argv, envp) {
            Some(rsp) => rsp,
            None => {
                pf_destroy(platform, &mut self.platform_log, cr3);
                assert(self.platform_log@.subrange(0, base) =~= log0);
                return None;
            }
        };
        let user_rip = info.entry as u64;
        let task_slot = match pf_spawn_task(platform, &mut self.platform_log, name, user_rip, user_rsp, cr3, max_tier) {
            Some(slot) => slot,
            None => {
                pf_destroy(platform, &mut self.platform_log, cr3);
                assert(self.platform_log@.subrange(0, base) =~= log0);
                return None;
            }
        };
        assert(self.platform_log@.subrange(0, base) =~= log0);
        let r = self.register_child(name, task_slot, info, user_rsp);
        proof {
            if let Some(pid) = r {
                if old(self).current.0 != pid.0 {
                    assert(spawned_child(self.table@[pid.0 as int]->0, pid, old(self).current,
                        slot_of(old(self).table@, old(self).current), name.spec_bytes(), task_slot, info, user_rsp));
                }
            }
        }
        r
    }

    /// `spawn_from_elf_with_args` without arguments or environment.
    pub fn spawn_from_elf<P: Platform>(&mut self, platform: &P, name: &'static str, elf_data: &[u8], max_tier: u8,
        stack_size: u64) -> (r: Option<ProcessId>)
        requires old(self).wf(),
        ensures
            final(self).wf(), final(self).current == old(self).current,
            load_spec(elf_data@) is None ==> r is None,
            (forall|i: int| 2 <= i < MAX_PROCESSES ==> #[trigger] old(self).table@[i] is Some) ==> r is None,
            r is None ==> final(self).table@ == old(self).table@,
            r matches Some(pid) ==> lowest_free_pid(old(self).table@, pid)
                && final(self).table@[pid.0 as int] is Some,
            final(self).platform_log@.len() >= old(self).platform_log@.len(),
            final(self).platform_log@.subrange(0, old(self).platform_log@.len() as int) == old(self).platform_log@,
            load_spec(elf_data@) is None ==> final(self).platform_log@ == old(self).platform_log@,
            ({
                let calls = final(self).platform_log@.subrange(old(self).platform_log@.len() as int,
                    final(self).platform_log@.len() as int);
                let ok = calls.len() > 1 && !is_destroy(calls.last());
                load_spec(elf_data@) matches Some(info) ==> {
                    &&& spawn_calls(calls, info, max_tier, stack_size, Seq::empty(), Seq::empty(), name.spec_bytes(), ok)
                    &&& r is Some ==> ok
                }
            }),
    {
        let no_args: Vec<&[u8]> = Vec::new();
        assert(byte_strings(no_args@) =~= Seq::<Seq<u8>>::empty());
        self.spawn_from_elf_with_args(platform, name, elf_data, max_tier, no_args.as_slice(), no_args.as_slice(),
            stack_size)
    }
}

/// What one check of a wait found.
pub enum WaitStep<T> {
    /// The wait is over with this result.
    Done(Option<T>),
    /// Nothing to collect yet: the caller blocks and checks again.
    Block,
}

impl ProcessManager {
    /// Start a scheduler task for a new child of the running process and
    /// record it: a kernel task inheriting the parent's rights and the
    /// running task's tier, or a user task with minimal rights at the
    /// lowest tier.
    fn spawn_task(&mut self, sched: &mut Scheduler, name: &'static str, kernel: bool) -> (r: Option<ProcessId>)
        requires old(self).wf(), old(sched).wf(),
        ensures
            final(self).wf(), final(sched).wf(), final(self).current == old(self).current,
            r is None ==> final(self).table@ == old(self).table@,
            r matches Some(pid) ==> lowest_free_pid(old(self).table@, pid),
            r matches Some(pid) ==> (final(self).table@[pid.0 as int] matches Some(p)
                && (old(self).current.0 != pid.0 ==> p.state == ProcessState::Running && p.task_id is Some
                    && p.parent == Some(old(self).current) && p.pid == pid
                    && (!kernel ==> p.capabilities.bits == MINIMAL_CAPS)
                    && (kernel ==> p.capabilities.bits == (match slot_of(old(self).table@, old(self).current) {
                        Some(q) => q.capabilities.bits & !crate::proc_cap::non_inheritable_bits(),
                        None => 0u64,
                    })))),
            r matches Some(pid) ==> forall|i: int| 0 <= i < MAX_PROCESSES && i != pid.0 && i != old(self).current.0
                ==> #[trigger] final(self).table@[i] == old(self).table@[i],
            r is None <==> ((forall|i: int| 2 <= i < MAX_PROCESSES ==> #[trigger] old(self).table@[i] is Some)
                || (forall|i: int| 1 <= i < MAX_TASKS ==> !#[trigger] reusable(old(sched).tasks@[i]))),
            r is None ==> *final(sched) == *old(sched),
            final(sched).current == old(sched).current,
            r matches Some(pid) ==> exists|slot: int| #[trigger] first_reusable(old(sched).tasks@, slot)
                && final(sched).tasks@ == old(sched).tasks@.update(slot, TaskInfo {
                    id: old(sched).next_task_id, state: TaskState::Blocked, name: name, run_count: 0,
                    max_tier: if kernel { old(sched).tasks@[old(sched).current as int].max_tier } else { 0u8 },
                    is_kernel: kernel, wake_at: 0, block_reason: BlockReason::NoReason,
                    user_id: old(sched).tasks@[old(sched).current as int].user_id, exit_code: 0 })
                && (old(self).current.0 != pid.0 ==> final(self).table@[pid.0 as int]->0.task_id == Some(slot as usize)),
            r matches Some(pid) ==> (old(self).current.0 < MAX_PROCESSES && old(self).table@[old(self).current.0 as int] is Some
                ==> (final(self).table@[old(self).current.0 as int] matches Some(q2)
                    && child_added(old(self).table@[old(self).current.0 as int]->0, q2, pid))),
    {
        let parent_pid = self.current;
        let pid = match self.table.alloc_pid() {
            Some(p) => p,
            None => return None,
        };
        let mut proc = Process::new(pid, Some(parent_pid), name);
        let tier: u8 = if kernel {
            match self.table.get(parent_pid) {
                Some(parent) => { proc.capabilities = parent.capabilities.inherit(); }
                None => {}
            }
            sched.current_task_max_tier()
        } else {
            proc.capabilities = CapabilitySet::minimal();
            0u8
        };
        let task_id = match sched.alloc_task_slot(name, tier, kernel) {
            Some(t) => t,
            None => return None,
        };
        proc.task_id = Some(task_id);
        proc.state = ProcessState::Running;
        let ghost t0 = self.table@;
        let ghost child = proc;
        let ok = self.table.insert(proc);
        assert(ok);
        assert(self.table@ == t0.update(pid.0 as int, Some(child)));
        match self.table.get_mut(parent_pid) {
            Some(parent) => {
                if parent.child_count < usize::MAX {
                    let _ = parent.add_child(pid);
                }
            }
            None => {}
        }
        Some(pid)
    }

    /// Start a kernel-mode child of the running process.
    pub fn spawn(&mut self, sched: &mut Scheduler, name: &'static str) -> (r: Option<ProcessId>)
        requires old(self).wf(), old(sched).wf(),
        ensures
            final(self).wf(), final(sched).wf(), final(self).current == old(self).current,
            r is None ==> final(self).table@ == old(self).table@,
            r matches Some(pid) ==> lowest_free_pid(old(self).table@, pid) && final(self).table@[pid.0 as int] is Some,
            r is None <==> ((forall|i: int| 2 <= i < MAX_PROCESSES ==> #[trigger] old(self).table@[i] is Some)
                || (forall|i: int| 1 <= i < MAX_TASKS ==> !#[trigger] reusable(old(sched).tasks@[i]))),
            r is None ==> *final(sched) == *old(sched),
    {
        self.spawn_task(sched, name, true)
    }

    /// Start a user-mode child of the running process.
    pub fn spawn_user(&mut self, sched: &mut Scheduler, name: &'static str) -> (r: Option<ProcessId>)
        requires old(self).wf(), old(sched).wf(),
        ensures
            final(self).wf(), final(sched).wf(), final(self).current == old(self).current,
            r is None ==> final(self).table@ == old(self).table@,
            r matches Some(pid) ==> lowest_free_pid(old(self).table@, pid) && final(self).table@[pid.0 as int] is Some,
            r matches Some(pid) ==> old(self).current.0 != pid.0 ==> (final(self).table@[pid.0 as int] matches Some(p)
                && p.capabilities.bits == MINIMAL_CAPS),
            r is None <==> ((forall|i: int| 2 <= i < MAX_PROCESSES ==> #[trigger] old(self).table@[i] is Some)
                || (forall|i: int| 1 <= i < MAX_TASKS ==> !#[trigger] reusable(old(sched).tasks@[i]))),
            r is None ==> *final(sched) == *old(sched),
    {
        self.spawn_task(sched, name, false)
    }

    /// The bookkeeping of the running process exiting with `code`: it
    /// becomes a zombie holding the status, its children pass to init, and
    /// a waiting parent is woken.
    pub fn exit_current(&mut self, code: i32)
        requires old(self).wf(),
        ensures
            final(self).wf(), final(self).current == old(self).current,
            slot_of(old(self).table@, old(self).current) is None ==> final(self).table@ == old(self).table@,
            slot_of(old(self).table@, old(self).current) is Some ==> (final(self).table@[old(self).current.0 as int]
                matches Some(p) && p.state == ProcessState::Zombie
                && p.exit_status == (ExitStatus { code, signaled: false, signal: 0 })),
    {
        let pid = self.current;
        let (children, parent) = match self.table.get_mut(pid) {
            Some(proc) => {
                proc.exit(ExitStatus::failure(code));
                (proc.children, proc.parent)
            }
            None => return,
        };
        let ghost zombie = self.table@[pid.0 as int]->0;
        let mut k: usize = 0;
        while k < MAX_CHILDREN
            invariant
                k <= MAX_CHILDREN, self.wf(), self.current == pid, pid.0 < MAX_PROCESSES,
                self.table@[pid.0 as int] matches Some(p) && p.state == ProcessState::Zombie
                    && p.exit_status == (ExitStatus { code, signaled: false, signal: 0 }),
            decreases MAX_CHILDREN - k,
        {
            match children[k] {
                Some(child_pid) => {
                    if child_pid.0 != pid.0 {
                        match self.table.get_mut(child_pid) {
                            Some(child) => { child.parent = Some(ProcessId(INIT_PID)); }
                            None => {}
                        }
                    }
                    if pid.0 != INIT_PID {
                        match self.table.get_mut(ProcessId(INIT_PID)) {
                            Some(init) => {
                                if init.child_count < usize::MAX {
                                    let _ = init.add_child(child_pid);
                                }
                            }
                            None => {}
                        }
                    }
                }
                None => {}
            }
            k += 1;
        }
        match parent {
            Some(parent_pid) => {
                if parent_pid.0 != pid.0 {
                    match self.table.get_mut(parent_pid) {
                        Some(pp) => {
                            if pp.state == ProcessState::Waiting {
                                pp.state = ProcessState::Running;
                            }
                        }
                        None => {}
                    }
                }
            }
            None => {}
        }
    }

    /// Start waiting for `child_pid`: whether it is a child of the running
    /// process.
    pub fn wait_begin(&self, child_pid: ProcessId) -> (r: bool)
        requires self.wf(),
        ensures r == (slot_of(self.table@, self.current) matches Some(p)
            && exists|i: int| 0 <= i < MAX_CHILDREN && #[trigger] p.children@[i] == Some(child_pid)),
    {
        match self.table.get(self.current) {
            Some(proc) => {
                let mut i: usize = 0;
                while i < MAX_CHILDREN
                    invariant i <= MAX_CHILDREN, proc.children@.len() == MAX_CHILDREN,
                        slot_of(self.table@, self.current) == Some(*proc),
                        forall|j: int| 0 <= j < i ==> #[trigger] proc.children@[j] != Some(child_pid),
                    decreases MAX_CHILDREN - i,
                {
                    if proc.children[i] == Some(child_pid) {
                        assert(proc.children@[i as int] == Some(child_pid));
                        return true;
                    }
                    i += 1;
                }
                false
            }
            None => false,
        }
    }

    /// One check of a wait for `child_pid`: a zombie child is reaped (its
    /// status returned, the child removed from the parent and the table, the
    /// parent running); a live child makes the parent wait; a missing child
    /// ends the wait with nothing.
    pub fn wait_poll(&mut self, child_pid: ProcessId) -> (r: WaitStep<ExitStatus>)
        requires old(self).wf(),
        ensures
            final(self).wf(), final(self).current == old(self).current,
            slot_of(old(self).table@, child_pid) is None ==> (r matches WaitStep::Done(x) && x is None)
                && final(self).table@ == old(self).table@,
            slot_of(old(self).table@, child_pid) is Some && slot_of(old(self).table@, child_pid)->0.state == ProcessState::Zombie ==>
                (r matches WaitStep::Done(x) && x == Some(slot_of(old(self).table@, child_pid)->0.exit_status))
                && final(self).table@[child_pid.0 as int] is None,
            slot_of(old(self).table@, child_pid) is Some && slot_of(old(self).table@, child_pid)->0.state != ProcessState::Zombie ==>
                r is Block && (slot_of(old(self).table@, old(self).current) matches Some(p) ==>
                    (final(self).table@[old(self).current.0 as int] matches Some(p2) && p2.state == ProcessState::Waiting)),
    {
        let state = match self.table.get(child_pid) {
            Some(child) => child.state,
            None => return WaitStep::Done(None),
        };
        let current = self.current;
        if state != ProcessState::Zombie {
            match self.table.get_mut(current) {
                Some(p) => { p.state = ProcessState::Waiting; }
                None => {}
            }
            return WaitStep::Block;
        }
        let status = match self.table.get_mut(child_pid) {
            Some(child) => child.reap(),
            None => return WaitStep::Done(None),
        };
        if current.0 != child_pid.0 {
            match self.table.get_mut(current) {
                Some(p) => {
                    let has = exists_child(p, child_pid);
                    if has && p.child_count > 0 {
                        let _ = p.remove_child(child_pid);
                    }
                    p.state = ProcessState::Running;
                }
                None => {}
            }
        }
        let _ = self.table.remove(child_pid);
        WaitStep::Done(Some(status))
    }

    /// One check of a wait for any child: reap the first zombie child; end
    /// with nothing when there are no children (or no running process);
    /// otherwise make the parent wait.
    pub fn waitpid_any_poll(&mut self) -> (r: WaitStep<(ProcessId, ExitStatus)>)
        requires old(self).wf(),
        ensures
            final(self).wf(), final(self).current == old(self).current,
            slot_of(old(self).table@, old(self).current) is None ==> (r matches WaitStep::Done(x) && x is None),
            r matches WaitStep::Done(x) ==> (x matches Some(pair) ==> (slot_of(old(self).table@, pair.0)
                matches Some(c) && c.state == ProcessState::Zombie && c.exit_status == pair.1)),
            ({
                let t = old(self).table@;
                match slot_of(t, old(self).current) {
                    None => final(self).table@ == t,
                    Some(p) => match first_zombie_child(t, p.children@, 0) {
                        Some(c) => (r matches WaitStep::Done(x) && x == Some((c, slot_of(t, c)->0.exit_status)))
                            && final(self).table@[c.0 as int] is None,
                        None => if p.child_count == 0 {
                            (r matches WaitStep::Done(x) && x is None) && final(self).table@ == t
                        } else {
                            r is Block && final(self).table@ == t.update(old(self).current.0 as int,
                                Some(Process { state: ProcessState::Waiting, ..p }))
                        },
                    },
                }
            }),
    {
        let current = self.current;
        let children = match self.table.get(current) {
            Some(p) => p.children,
            None => return WaitStep::Done(None),
        };
        let count = match self.table.get(current) {
            Some(p) => p.child_count,
            None => return WaitStep::Done(None),
        };
        let ghost t0 = self.table@;
        let mut i: usize = 0;
        while i < MAX_CHILDREN
            invariant i <= MAX_CHILDREN, *self == *old(self), self.wf(), self.current == current,
                t0 == old(self).table@,
                slot_of(t0, current) matches Some(p) && p.children == children && p.child_count == count,
                first_zombie_child(t0, children@, 0) == first_zombie_child(t0, children@, i as int),
            decreases MAX_CHILDREN - i,
        {
            match children[i] {
                Some(child_pid) => {
                    let zombie = match self.table.get(child_pid) {
                        Some(c) => c.state == ProcessState::Zombie,
                        None => false,
                    };
                    if zombie {
                        assert(first_zombie_child(t0, children@, i as int) == Some(child_pid));
                        match self.wait_poll(child_pid) {
                            WaitStep::Done(Some(status)) => return WaitStep::Done(Some((child_pid, status))),
                            _ => return WaitStep::Done(None),
                        }
                    }
                }
                None => {}
            }
            i += 1;
        }
        if count == 0 {
            return WaitStep::Done(None);
        }
        proof { self.table.lemma_len(); }
        match self.table.get_mut(current) {
            Some(p) => { p.state = ProcessState::Waiting; }
            None => {}
        }
        WaitStep::Block
    }

    /// All processes, in PID order.
    pub fn list_processes(&self) -> (r: Vec<&Process>)
        requires self.wf(),
        ensures
            r@.len() == crate::process::live_prefix(self.table@, MAX_PROCESSES as int).len(),
            forall|i: int| 0 <= i < r@.len() ==> *r@[i] == crate::process::live_prefix(self.table@, MAX_PROCESSES as int)[i],
    {
        self.table.iter()
    }
}

/// Whether `p` lists `child` among its children.
fn exists_child(p: &Process, child: ProcessId) -> (r: bool)
    ensures r == exists|i: int| 0 <= i < MAX_CHILDREN && #[trigger] p.children@[i] == Some(child),
{
    let mut i: usize = 0;
    while i < MAX_CHILDREN
        invariant i <= MAX_CHILDREN, p.children@.len() == MAX_CHILDREN,
            forall|j: int| 0 <= j < i ==> #[trigger] p.children@[j] != Some(child),
        decreases MAX_CHILDREN - i,
    {
        if p.children[i] == Some(child) {
            return true;
        }
        i += 1;
    }
    false
}

} // verus!
