//! Process management: process control blocks, file descriptor tables and
//! the process table.
use vstd::prelude::*;
use vstd::string::StringSliceAdditionalSpecFns;
use crate::proc_cap::{Capability, CapabilitySet};
use crate::slots::{count_some, lemma_count_some_update, lemma_count_lt, lemma_count_pos};

pub mod fd_flags;
pub mod elf;
pub mod manager;

verus! {

/// Scheduler task slot index.
pub type TaskId = usize;

/// PID of the kernel process.
pub const KERNEL_PID: u32 = 0;
/// PID of the init process.
pub const INIT_PID: u32 = 1;

/// Process identifier.
#[derive(Debug, Clone, Copy, PartialEq, Eq, Structural, PartialOrd, Ord, Hash)]
pub struct ProcessId(pub u32);

impl ProcessId {
    /// The raw PID.
    pub fn as_u32(self) -> (r: u32)
        ensures r == self.0,
    {
        self.0
    }
}

/// Life-cycle state of a process.
#[derive(Debug, Clone, Copy, PartialEq, Eq, Structural)]
pub enum ProcessState {
    Creating,
    Running,
    Waiting,
    Stopped,
    Zombie,
    Dead,
}

/// How a process ended.
#[derive(Debug, Clone, Copy, PartialEq, Eq, Structural)]
pub struct ExitStatus {
    /// Exit code (0 = success).
    pub code: i32,
    /// Whether a signal ended the process.
    pub signaled: bool,
    /// The signal, when signaled.
    pub signal: u8,
}

impl ExitStatus {
    /// Normal exit with code 0.
    pub fn success() -> (r: Self)
        ensures r == (ExitStatus { code: 0, signaled: false, signal: 0 }),
    {
        ExitStatus { code: 0, signaled: false, signal: 0 }
    }

    /// Normal exit with `code`.
    pub fn failure(code: i32) -> (r: Self)
        ensures r == (ExitStatus { code: code, signaled: false, signal: 0 }),
    {
        ExitStatus { code, signaled: false, signal: 0 }
    }

    /// Killed by `signal`: the code is 128 plus the signal number.
    pub fn killed(signal: u8) -> (r: Self)
        ensures r.code == 128 + signal, r.signaled, r.signal == signal,
    {
        ExitStatus { code: 128 + signal as i32, signaled: true, signal }
    }
}

/// What a file descriptor refers to.
#[derive(Debug, Clone, Copy, PartialEq, Eq, Structural)]
pub enum FdEntry {
    Empty,
    Console,
    File { inode: u32, position: usize, flags: u32 },
    Pipe { pipe_id: u32, is_read_end: bool },
}

/// Descriptors per process.
pub const MAX_FDS: usize = 64;

/// Slot `fd` is where `alloc_fd` places a new entry: the first empty slot at or
/// after the hint if there is one, else the first empty slot.
pub open spec fn alloc_slot(s: Seq<FdEntry>, hint: int, fd: int) -> bool {
    &&& 0 <= fd < MAX_FDS
    &&& s[fd] is Empty
    &&& if exists|j: int| hint <= j < MAX_FDS && #[trigger] s[j] is Empty {
            hint <= fd && forall|j: int| hint <= j < fd ==> !(#[trigger] s[j] is Empty)
        } else {
            forall|j: int| 0 <= j < fd ==> !(#[trigger] s[j] is Empty)
        }
}

/// A process's file descriptor table.
pub struct FdTable {
    entries: [FdEntry; 64],
    next_fd: usize,
}

impl View for FdTable {
    type V = Seq<FdEntry>;

    closed spec fn view(&self) -> Seq<FdEntry> {
        self.entries@
    }
}

impl FdTable {
    /// Where the next search for a free descriptor starts.
    pub closed spec fn next_hint(&self) -> int {
        self.next_fd as int
    }

    /// All descriptors closed.
    pub fn new() -> (r: Self)
        ensures
            r@.len() == MAX_FDS,
            forall|i: int| 0 <= i < MAX_FDS ==> #[trigger] r@[i] is Empty,
            r.next_hint() == 0,
    {
        FdTable { entries: [FdEntry::Empty; 64], next_fd: 0 }
    }

    /// Descriptors 0, 1 and 2 on the console, the rest closed.
    pub fn with_stdio() -> (r: Self)
        ensures
            r@.len() == MAX_FDS,
            r@[0] is Console, r@[1] is Console, r@[2] is Console,
            forall|i: int| 3 <= i < MAX_FDS ==> #[trigger] r@[i] is Empty,
            r.next_hint() == 3,
    {
        let mut table = Self::new();
        table.entries[0] = FdEntry::Console;
        table.entries[1] = FdEntry::Console;
        table.entries[2] = FdEntry::Console;
        table.next_fd = 3;
        table
    }

    /// Place `entry` in a free descriptor and return its number.
    pub fn alloc_fd(&mut self, entry: FdEntry) -> (r: Option<i32>)
        ensures
            final(self)@.len() == MAX_FDS,
            r is None <==> forall|i: int| 0 <= i < MAX_FDS ==> !(#[trigger] old(self)@[i] is Empty),
            r is None ==> final(self)@ == old(self)@ && final(self).next_hint() == old(self).next_hint(),
            r matches Some(fd) ==> alloc_slot(old(self)@, old(self).next_hint(), fd as int)
                && final(self)@ == old(self)@.update(fd as int, entry)
                && final(self).next_hint() == (if fd >= old(self).next_hint() { fd + 1 } else {
                    old(self).next_hint() }),
    {
        let start = self.next_fd;
        let mut i: usize = start;
        while i < 64
            invariant
                *self == *old(self),
                start == self.next_fd, start <= i, i <= 64 || i == start, self@.len() == 64,
                forall|j: int| start <= j < i ==> !(#[trigger] self@[j] is Empty),
            decreases 64 - i,
        {
            if matches!(self.entries[i], FdEntry::Empty) {
                let ghost before = self@;
                self.entries[i] = entry;
                self.next_fd = i + 1;
                proof {
                    assert(before[i as int] is Empty);
                }
                return Some(i as i32);
            }
            i += 1;
        }
        let mut j: usize = 0;
        while j < start && j < 64
            invariant
                *self == *old(self),
                start == self.next_fd, self@.len() == 64,
                forall|k: int| start <= k < MAX_FDS ==> !(#[trigger] self@[k] is Empty),
                forall|k: int| 0 <= k < j ==> !(#[trigger] self@[k] is Empty),
            decreases 64 - j,
        {
            if matches!(self.entries[j], FdEntry::Empty) {
                let ghost before = self@;
                self.entries[j] = entry;
                proof {
                    assert(before[j as int] is Empty);
                }
                return Some(j as i32);
            }
            j += 1;
        }
        None
    }

    /// The entry of an open descriptor.
    pub fn get(&self, fd: i32) -> (r: Option<&FdEntry>)
        ensures
            r is Some <==> (0 <= fd < MAX_FDS && !(self@[fd as int] is Empty)),
            r matches Some(e) ==> *e == self@[fd as int],
    {
        if fd >= 0 && (fd as usize) < MAX_FDS {
            let entry = &self.entries[fd as usize];
            if !matches!(entry, FdEntry::Empty) {
                return Some(entry);
            }
        }
        None
    }

    /// Mutable access to the entry of an open descriptor.
    pub fn get_mut(&mut self, fd: i32) -> (r: Option<&mut FdEntry>)
        ensures
            r is Some <==> (0 <= fd < MAX_FDS && !(old(self)@[fd as int] is Empty)),
            r is None ==> final(self)@ == old(self)@,
            r is Some ==> *r->0 == old(self)@[fd as int]
                && final(self)@ == old(self)@.update(fd as int, *final(r->0)),
            final(self).next_hint() == old(self).next_hint(),
    {
        if fd >= 0 && (fd as usize) < MAX_FDS {
            if !matches!(self.entries[fd as usize], FdEntry::Empty) {
                return Some(&mut self.entries[fd as usize]);
            }
        }
        None
    }

    /// Close an open descriptor; false if it was not open.
    pub fn close(&mut self, fd: i32) -> (r: bool)
        ensures
            r == (0 <= fd < MAX_FDS && !(old(self)@[fd as int] is Empty)),
            r ==> final(self)@ == old(self)@.update(fd as int, FdEntry::Empty)
                && final(self).next_hint() == (if fd < old(self).next_hint() { fd as int } else {
                    old(self).next_hint() }),
            !r ==> final(self)@ == old(self)@ && final(self).next_hint() == old(self).next_hint(),
    {
        if fd >= 0 && (fd as usize) < MAX_FDS {
            if !matches!(self.entries[fd as usize], FdEntry::Empty) {
                self.entries[fd as usize] = FdEntry::Empty;
                if (fd as usize) < self.next_fd {
                    self.next_fd = fd as usize;
                }
                return true;
            }
        }
        false
    }

    /// Copy an open descriptor into a newly allocated one.
    pub fn dup(&mut self, old_fd: i32) -> (r: Option<i32>)
        ensures
            !(0 <= old_fd < MAX_FDS && !(old(self)@[old_fd as int] is Empty)) ==> r is None
                && final(self)@ == old(self)@ && final(self).next_hint() == old(self).next_hint(),
            (0 <= old_fd < MAX_FDS && !(old(self)@[old_fd as int] is Empty)) ==> {
                &&& final(self)@.len() == MAX_FDS
                &&& r is None <==> forall|i: int| 0 <= i < MAX_FDS ==> !(#[trigger] old(self)@[i] is Empty)
                &&& r is None ==> final(self)@ == old(self)@
                &&& r matches Some(fd) ==> alloc_slot(old(self)@, old(self).next_hint(), fd as int)
                    && final(self)@ == old(self)@.update(fd as int, old(self)@[old_fd as int])
            },
    {
        if let Some(entry) = self.get(old_fd) {
            let entry = *entry;
            self.alloc_fd(entry)
        } else {
            None
        }
    }

    /// Make `new_fd` refer to what `old_fd` refers to.
    pub fn dup2(&mut self, old_fd: i32, new_fd: i32) -> (r: Option<i32>)
        ensures
            r is Some <==> (0 <= new_fd < MAX_FDS && 0 <= old_fd < MAX_FDS
                && !(old(self)@[old_fd as int] is Empty)),
            r matches Some(fd) ==> fd == new_fd
                && final(self)@ == old(self)@.update(new_fd as int, old(self)@[old_fd as int]),
            r is None ==> final(self)@ == old(self)@,
            final(self).next_hint() == old(self).next_hint(),
    {
        if new_fd < 0 || (new_fd as usize) >= MAX_FDS {
            return None;
        }
        if let Some(entry) = self.get(old_fd) {
            let entry = *entry;
            self.entries[new_fd as usize] = entry;
            Some(new_fd)
        } else {
            None
        }
    }
}

/// A descriptor closed by `close` is no longer open.
pub proof fn law_close_then_get(before: Seq<FdEntry>, after: Seq<FdEntry>, fd: int)
    requires
        0 <= fd < before.len(),
        after == before.update(fd, FdEntry::Empty),
    ensures
        after[fd] is Empty,
        forall|i: int| 0 <= i < before.len() && i != fd ==> after[i] == before[i],
{
}

/// After `dup2(old_fd, new_fd)`, both descriptors refer to the same thing.
pub proof fn law_dup2_shares(before: Seq<FdEntry>, after: Seq<FdEntry>, old_fd: int, new_fd: int)
    requires
        0 <= old_fd < before.len(),
        0 <= new_fd < before.len(),
        after == before.update(new_fd, before[old_fd]),
    ensures
        after[new_fd] == after[old_fd],
        after[new_fd] == before[old_fd],
{
}


/// Child slots per process.
pub const MAX_CHILDREN: usize = 32;
/// Size of a process's environment block.
pub const ENV_BLOCK_SIZE: usize = 512;

// ---------------------------------------------------------------------------
// The environment block: packed `KEY=VALUE\0KEY=VALUE\0...` entries.
// ---------------------------------------------------------------------------

/// End of the entry that starts at `start`: the first NUL at or after it, or
/// the end of the block.
pub open spec fn entry_end(e: Seq<u8>, start: int) -> int
    decreases e.len() - start,
{
    if start >= e.len() {
        start
    } else if e[start] == 0 {
        start
    } else {
        entry_end(e, start + 1)
    }
}

/// First `=` in `e[i..end)`, or -1.
pub open spec fn find_eq(e: Seq<u8>, i: int, end: int) -> int
    decreases end - i,
{
    if i >= end {
        -1
    } else if e[i] == 61 {
        i
    } else {
        find_eq(e, i + 1, end)
    }
}

/// The entry whose key is `key`, searching from the entry starting at `start`:
/// the bounds `(start, end)` of its bytes. An entry's key is what precedes its
/// first `=`; entries with no `=` have none.
pub open spec fn env_find(e: Seq<u8>, key: Seq<u8>, start: int) -> Option<(int, int)>
    decreases e.len() + 1 - start,
{
    if start < 0 || start >= e.len() {
        None
    } else {
        let end = entry_end(e, start);
        let eq = find_eq(e, start, end);
        if eq >= 0 && e.subrange(start, eq) == key {
            Some((start, end))
        } else {
            proof {
                lemma_entry_end(e, start);
            }
            env_find(e, key, end + 1)
        }
    }
}

/// The value stored under `key`, if an entry holds it.
pub open spec fn env_value(e: Seq<u8>, key: Seq<u8>) -> Option<Seq<u8>> {
    match env_find(e, key, 0) {
        Some((s, t)) => Some(e.subrange(find_eq(e, s, t) + 1, t)),
        None => None,
    }
}

/// The block with the entry for `key` (and its NUL) taken out.
pub open spec fn env_remove(e: Seq<u8>, key: Seq<u8>) -> Seq<u8> {
    match env_find(e, key, 0) {
        Some((s, t)) => e.subrange(0, s) + e.subrange(if t < e.len() { t + 1 } else { t }, e.len() as int),
        None => e,
    }
}

/// The bytes of one entry: `KEY=VALUE\0`.
pub open spec fn env_entry(key: Seq<u8>, value: Seq<u8>) -> Seq<u8> {
    key + seq![61u8] + value + seq![0u8]
}

pub proof fn lemma_entry_end(e: Seq<u8>, start: int)
    requires 0 <= start,
    ensures
        start <= entry_end(e, start),
        start < e.len() ==> entry_end(e, start) <= e.len(),
        forall|k: int| start <= k < entry_end(e, start) ==> e[k] != 0,
        entry_end(e, start) < e.len() ==> e[entry_end(e, start)] == 0,
    decreases e.len() - start,
{
    if start < e.len() && e[start] != 0 {
        lemma_entry_end(e, start + 1);
    }
}

/// `entry_end` is the end of the run of non-NUL bytes.
pub proof fn lemma_entry_end_is(e: Seq<u8>, start: int, end: int)
    requires
        0 <= start <= end <= e.len(),
        forall|k: int| start <= k < end ==> e[k] != 0,
        end == e.len() || e[end] == 0,
    ensures entry_end(e, start) == end,
    decreases end - start,
{
    if start < end {
        lemma_entry_end_is(e, start + 1, end);
    }
}

/// `find_eq` is the first `=` of the range, or -1 if it has none.
pub proof fn lemma_find_eq_is(e: Seq<u8>, i: int, q: int, end: int)
    requires
        i <= q <= end,
        forall|k: int| i <= k < q ==> e[k] != 61,
        q == end || e[q] == 61,
    ensures find_eq(e, i, end) == (if q < end { q } else { -1 }),
    decreases q - i,
{
    if i < q {
        lemma_find_eq_is(e, i + 1, q, end);
    }
}

/// End of the entry of `env[..len]` that starts at `start`.
fn scan_entry_end(env: &[u8], len: usize, start: usize) -> (end: usize)
    requires start < len <= env@.len(),
    ensures end == entry_end(env@.subrange(0, len as int), start as int), start <= end <= len,
{
    let ghost e = env@.subrange(0, len as int);
    let mut end = start;
    while end < len && env[end] != 0
        invariant
            start <= end <= len, len <= env@.len(), e == env@.subrange(0, len as int),
            forall|k: int| start <= k < end ==> e[k] != 0,
        decreases len - end,
    {
        end += 1;
    }
    proof {
        lemma_entry_end_is(e, start as int, end as int);
    }
    end
}

/// First `=` in `env[start..end)`.
fn scan_eq(env: &[u8], len: usize, start: usize, end: usize) -> (r: Option<usize>)
    requires start <= end <= len <= env@.len(),
    ensures
        r is None ==> find_eq(env@.subrange(0, len as int), start as int, end as int) == -1,
        r matches Some(q) ==> q == find_eq(env@.subrange(0, len as int), start as int, end as int)
            && start <= q < end,
{
    let ghost e = env@.subrange(0, len as int);
    let mut i = start;
    while i < end
        invariant
            start <= i <= end, end <= len, len <= env@.len(), e == env@.subrange(0, len as int),
            forall|k: int| start <= k < i ==> e[k] != 61,
        decreases end - i,
    {
        if env[i] == 61 {
            proof {
                lemma_find_eq_is(e, start as int, i as int, end as int);
            }
            return Some(i);
        }
        i += 1;
    }
    proof {
        lemma_find_eq_is(e, start as int, end as int, end as int);
    }
    None
}

/// Whether `a[lo..hi)` equals `b`.
fn range_eq(a: &[u8], lo: usize, hi: usize, b: &[u8]) -> (r: bool)
    requires lo <= hi <= a@.len(),
    ensures r == (a@.subrange(lo as int, hi as int) == b@),
{
    if hi - lo != b.len() {
        return false;
    }
    let mut i: usize = 0;
    while i < b.len()
        invariant
            lo <= hi <= a@.len(), hi - lo == b@.len(), i <= b@.len(),
            forall|k: int| 0 <= k < i ==> #[trigger] a@[lo + k] == b@[k],
        decreases b@.len() - i,
    {
        if a[lo + i] != b[i] {
            assert(a@.subrange(lo as int, hi as int)[i as int] != b@[i as int]);
            return false;
        }
        i += 1;
    }
    assert forall|k: int| 0 <= k < b@.len() implies a@.subrange(lo as int, hi as int)[k] == b@[k] by {
        assert(a@[lo + k] == b@[k]);
    }
    assert(a@.subrange(lo as int, hi as int) =~= b@);
    true
}

/// The first entry of `env[..len]` whose key is `key`.
fn find_entry(env: &[u8], len: usize, key: &[u8]) -> (r: Option<(usize, usize, usize)>)
    requires len <= env@.len(), env@.len() <= ENV_BLOCK_SIZE,
    ensures
        r is None ==> env_find(env@.subrange(0, len as int), key@, 0) is None,
        r matches Some((s, t, q)) ==> env_find(env@.subrange(0, len as int), key@, 0) == Some((s as int, t as int))
            && q == find_eq(env@.subrange(0, len as int), s as int, t as int)
            && s <= q < t <= len,
{
    let ghost e = env@.subrange(0, len as int);
    let mut start: usize = 0;
    while start < len
        invariant
            len <= env@.len(), env@.len() <= ENV_BLOCK_SIZE, e == env@.subrange(0, len as int), start <= len + 1,
            env_find(e, key@, 0) == env_find(e, key@, start as int),
        decreases len + 1 - start,
    {
        let end = scan_entry_end(env, len, start);
        match scan_eq(env, len, start, end) {
            Some(q) => {
                if range_eq(env, start, q, key) {
                    proof {
                        assert(e.subrange(start as int, q as int) =~= env@.subrange(start as int, q as int));
                    }
                    return Some((start, end, q));
                }
                proof {
                    assert(e.subrange(start as int, q as int) =~= env@.subrange(start as int, q as int));
                }
            }
            None => {}
        }
        start = end + 1;
    }
    None
}

/// Process control block.
pub struct Process {
    pub pid: ProcessId,
    /// Parent process (none for the kernel).
    pub parent: Option<ProcessId>,
    /// Child slots.
    pub children: [Option<ProcessId>; 32],
    pub child_count: usize,
    /// Scheduler task slot, once one is assigned.
    pub task_id: Option<TaskId>,
    pub state: ProcessState,
    /// Valid once the process is a zombie.
    pub exit_status: ExitStatus,
    pub capabilities: CapabilitySet,
    pub fds: FdTable,
    /// Name buffer and length.
    pub name: [u8; 32],
    pub name_len: usize,
    /// Working directory (absolute path) and its length.
    pub cwd: [u8; 128],
    pub cwd_len: usize,
    /// Environment block (`KEY=VALUE\0...`) and bytes used.
    pub env: [u8; 512],
    pub env_len: usize,
    pub entry_point: usize,
    pub stack_ptr: usize,
    pub brk: usize,
}

/// The used part of the environment block.
pub open spec fn env_bytes(p: &Process) -> Seq<u8> {
    p.env@.subrange(0, p.env_len as int)
}

/// The used part of the working-directory buffer.
pub open spec fn cwd_bytes(p: &Process) -> Seq<u8> {
    p.cwd@.subrange(0, p.cwd_len as int)
}

/// The used part of the name buffer.
pub open spec fn name_bytes(p: &Process) -> Seq<u8> {
    p.name@.subrange(0, p.name_len as int)
}

/// `a` and `b` agree on everything but the environment and working directory.
pub open spec fn same_but_env_cwd(a: &Process, b: &Process) -> bool {
    &&& a.pid == b.pid && a.parent == b.parent && a.children == b.children
    &&& a.child_count == b.child_count && a.task_id == b.task_id && a.state == b.state
    &&& a.exit_status == b.exit_status && a.capabilities == b.capabilities && a.fds == b.fds
    &&& a.name == b.name && a.name_len == b.name_len
    &&& a.entry_point == b.entry_point && a.stack_ptr == b.stack_ptr && a.brk == b.brk
}

/// `a` and `b` agree on everything but the environment.
pub open spec fn same_but_env(a: &Process, b: &Process) -> bool {
    same_but_env_cwd(a, b) && a.cwd == b.cwd && a.cwd_len == b.cwd_len
}

/// `a` and `b` agree on everything but the working directory.
pub open spec fn same_but_cwd(a: &Process, b: &Process) -> bool {
    same_but_env_cwd(a, b) && a.env == b.env && a.env_len == b.env_len
}

/// Children slot `i` is the first free one.
pub open spec fn first_free_child(c: Seq<Option<ProcessId>>, i: int) -> bool {
    0 <= i < c.len() && c[i] is None && forall|j: int| 0 <= j < i ==> #[trigger] c[j] is Some
}

/// Children slot `i` is the first one holding `child`.
pub open spec fn first_child_slot(c: Seq<Option<ProcessId>>, child: ProcessId, i: int) -> bool {
    0 <= i < c.len() && c[i] == Some(child) && forall|j: int| 0 <= j < i ==> #[trigger] c[j] != Some(child)
}

/// A freshly made process: the given identity, no children, no task,
/// creating, success status, no capabilities, stdio descriptors, the name
/// cut to 31 bytes, working directory `/`, empty environment.
pub open spec fn fresh_process(p: &Process, pid: ProcessId, parent: Option<ProcessId>, name: Seq<u8>) -> bool {
    &&& p.pid == pid && p.parent == parent
    &&& forall|i: int| 0 <= i < MAX_CHILDREN ==> #[trigger] p.children@[i] is None
    &&& p.child_count == 0 && p.task_id is None && p.state == ProcessState::Creating
    &&& p.exit_status == ExitStatus { code: 0, signaled: false, signal: 0 }
    &&& p.capabilities.bits == 0
    &&& p.fds@.len() == MAX_FDS && p.fds@[0] is Console && p.fds@[1] is Console && p.fds@[2] is Console
    &&& (forall|i: int| 3 <= i < MAX_FDS ==> #[trigger] p.fds@[i] is Empty)
    &&& name_bytes(p) == name.subrange(0, if name.len() < 31 { name.len() as int } else { 31 })
    &&& cwd_bytes(p) == seq![47u8]
    &&& p.env_len == 0
    &&& p.entry_point == 0 && p.stack_ptr == 0 && p.brk == 0
}

impl Process {
    /// A new process in the creating state.
    pub fn new(pid: ProcessId, parent: Option<ProcessId>, name: &str) -> (r: Self)
        ensures fresh_process(&r, pid, parent, name.spec_bytes()),
    {
        let mut p = Process {
            pid,
            parent,
            children: [None; 32],
            child_count: 0,
            task_id: None,
            state: ProcessState::Creating,
            exit_status: ExitStatus::success(),
            capabilities: CapabilitySet::empty(),
            fds: FdTable::with_stdio(),
            name: [0u8; 32],
            name_len: 0,
            cwd: [0u8; 128],
            cwd_len: 1,
            env: [0u8; 512],
            env_len: 0,
            entry_point: 0,
            stack_ptr: 0,
            brk: 0,
        };
        let bytes = name.as_bytes();
        let n: usize = if bytes.len() < 31 { bytes.len() } else { 31 };
        let mut i: usize = 0;
        while i < n
            invariant
                n <= 31, n <= bytes@.len(), i <= n, p.name@.len() == 32,
                forall|j: int| 0 <= j < i ==> p.name@[j] == bytes@[j],
                p.pid == pid, p.parent == parent,
                forall|j: int| 0 <= j < MAX_CHILDREN ==> #[trigger] p.children@[j] is None,
                p.child_count == 0, p.task_id is None, p.state == ProcessState::Creating,
                p.exit_status == (ExitStatus { code: 0, signaled: false, signal: 0 }),
                p.capabilities.bits == 0,
                p.fds@.len() == MAX_FDS, p.fds@[0] is Console, p.fds@[1] is Console, p.fds@[2] is Console,
                forall|j: int| 3 <= j < MAX_FDS ==> #[trigger] p.fds@[j] is Empty,
                p.cwd@.len() == 128, p.cwd_len == 1, p.env_len == 0,
                p.entry_point == 0, p.stack_ptr == 0, p.brk == 0,
            decreases n - i,
        {
            p.name[i] = bytes[i];
            i += 1;
        }
        p.name_len = n;
        p.cwd[0] = 47;
        proof {
            assert(name_bytes(&p) =~= bytes@.subrange(0, n as int));
            assert(cwd_bytes(&p) =~= seq![47u8]);
        }
        p
    }

    /// The kernel process: PID 0, every capability, running.
    pub fn kernel() -> (r: Self)
        ensures
            r.pid == ProcessId(KERNEL_PID), r.parent is None,
            r.capabilities.bits == 0xFFFF_FFFF_FFFF_FFFF,
            r.state == ProcessState::Running,
    {
        let mut p = Self::new(ProcessId(KERNEL_PID), None, "kernel");
        p.capabilities = CapabilitySet::all();
        p.state = ProcessState::Running;
        p
    }

    /// The init process: PID 1, child of the kernel, default user capabilities.
    pub fn init() -> (r: Self)
        ensures
            r.pid == ProcessId(INIT_PID), r.parent == Some(ProcessId(KERNEL_PID)),
            r.capabilities.bits == 0x1100_010f_0103u64,
            r.state == ProcessState::Creating,
    {
        let mut p = Self::new(ProcessId(INIT_PID), Some(ProcessId(KERNEL_PID)), "init");
        p.capabilities = CapabilitySet::default_user();
        p
    }

    /// The name, or `???` if it is not valid UTF-8.
    pub fn name(&self) -> (r: &str)
        requires self.name_len <= 32,
        ensures
            crate::text::utf8_valid(name_bytes(self)) ==> r.spec_bytes() == name_bytes(self),
            !crate::text::utf8_valid(name_bytes(self)) ==> r@ == "???"@,
    {
        match crate::text::str_from_utf8(vstd::slice::slice_subrange(self.name.as_slice(), 0, self.name_len)) {
            Some(s) => s,
            None => "???",
        }
    }

    /// The working directory, or `/` if it is not valid UTF-8.
    pub fn cwd(&self) -> (r: &str)
        requires self.cwd_len <= 128,
        ensures
            crate::text::utf8_valid(cwd_bytes(self)) ==> r.spec_bytes() == cwd_bytes(self),
            !crate::text::utf8_valid(cwd_bytes(self)) ==> r@ == "/"@,
    {
        match crate::text::str_from_utf8(vstd::slice::slice_subrange(self.cwd.as_slice(), 0, self.cwd_len)) {
            Some(s) => s,
            None => "/",
        }
    }

    /// Record `child_pid` in the first free child slot; false if all are used.
    pub fn add_child(&mut self, child_pid: ProcessId) -> (r: bool)
        requires old(self).child_count < usize::MAX,
        ensures
            r == exists|i: int| 0 <= i < MAX_CHILDREN && #[trigger] old(self).children@[i] is None,
            r ==> exists|i: int| first_free_child(old(self).children@, i)
                && final(self).children@ == old(self).children@.update(i, Some(child_pid)),
            r ==> final(self).child_count == old(self).child_count + 1,
            !r ==> final(self).children == old(self).children && final(self).child_count == old(self).child_count,
            final(self).pid == old(self).pid, final(self).parent == old(self).parent,
            final(self).state == old(self).state, final(self).env == old(self).env,
            final(self).env_len == old(self).env_len,
    {
        let mut i: usize = 0;
        while i < 32
            invariant
                i <= 32, *self == *old(self), old(self).child_count < usize::MAX,
                forall|j: int| 0 <= j < i ==> #[trigger] self.children@[j] is Some,
            decreases 32 - i,
        {
            if self.children[i].is_none() {
                let ghost before = self.children@;
                self.children[i] = Some(child_pid);
                self.child_count = self.child_count + 1;
                proof {
                    assert(first_free_child(before, i as int));
                }
                return true;
            }
            i += 1;
        }
        false
    }

    /// Clear the first child slot holding `child_pid`; false if none does.
    pub fn remove_child(&mut self, child_pid: ProcessId) -> (r: bool)
        requires
            (exists|i: int| 0 <= i < MAX_CHILDREN && #[trigger] old(self).children@[i] == Some(child_pid))
                ==> old(self).child_count > 0,
        ensures
            r == exists|i: int| 0 <= i < MAX_CHILDREN && #[trigger] old(self).children@[i] == Some(child_pid),
            r ==> exists|i: int| first_child_slot(old(self).children@, child_pid, i)
                && final(self).children@ == old(self).children@.update(i, None),
            r ==> final(self).child_count == old(self).child_count - 1,
            !r ==> final(self).children == old(self).children && final(self).child_count == old(self).child_count,
            final(self).pid == old(self).pid, final(self).parent == old(self).parent,
            final(self).state == old(self).state,
    {
        let mut i: usize = 0;
        while i < 32
            invariant
                i <= 32, *self == *old(self),
                (exists|k: int| 0 <= k < MAX_CHILDREN && #[trigger] self.children@[k] == Some(child_pid))
                    ==> self.child_count > 0,
                forall|j: int| 0 <= j < i ==> #[trigger] self.children@[j] != Some(child_pid),
            decreases 32 - i,
        {
            if self.children[i] == Some(child_pid) {
                let ghost before = self.children@;
                assert(before[i as int] == Some(child_pid));
                self.children[i] = None;
                self.child_count = self.child_count - 1;
                proof {
                    assert(first_child_slot(before, child_pid, i as int));
                }
                return true;
            }
            i += 1;
        }
        false
    }

    /// Whether the process holds `cap`.
    pub fn has_capability(&self, cap: Capability) -> (r: bool)
        ensures r == crate::proc_cap::bit64(self.capabilities.bits, crate::proc_cap::cap_index(cap)),
    {
        self.capabilities.has(cap)
    }

    /// Replace the working directory with `path`, which must be absolute and
    /// fit the buffer; false (and no change) otherwise.
    pub fn set_cwd(&mut self, path: &str) -> (r: bool)
        ensures
            r == (path.spec_bytes().len() > 0 && path.spec_bytes()[0] == 47u8
                && path.spec_bytes().len() <= 128),
            r ==> cwd_bytes(final(self)) == path.spec_bytes() && same_but_cwd(final(self), old(self)),
            !r ==> *final(self) == *old(self),
    {
        let bytes = path.as_bytes();
        if bytes.len() == 0 || bytes[0] != 47 || bytes.len() > 128 {
            return false;
        }
        let mut i: usize = 0;
        while i < bytes.len()
            invariant
                bytes@.len() <= 128, i <= bytes@.len(), self.cwd@.len() == 128,
                forall|j: int| 0 <= j < i ==> self.cwd@[j] == bytes@[j],
                same_but_cwd(self, old(self)),
            decreases bytes@.len() - i,
        {
            self.cwd[i] = bytes[i];
            i += 1;
        }
        self.cwd_len = bytes.len();
        assert(cwd_bytes(self) =~= bytes@);
        true
    }

    /// The value of the environment variable `key`, if set.
    pub fn env_get(&self, key: &str) -> (r: Option<&[u8]>)
        requires self.env_len <= ENV_BLOCK_SIZE,
        ensures
            r is None <==> env_value(env_bytes(self), key.spec_bytes()) is None,
            r matches Some(v) ==> env_value(env_bytes(self), key.spec_bytes()) == Some(v@),
    {
        let key_bytes = key.as_bytes();
        let env = self.env.as_slice();
        match find_entry(env, self.env_len, key_bytes) {
            Some((s, t, q)) => {
                let v = vstd::slice::slice_subrange(env, q + 1, t);
                proof {
                    assert(v@ =~= env_bytes(self).subrange(q + 1, t as int));
                }
                Some(v)
            }
            None => None,
        }
    }

    /// Set `key` to `value`: any entry for `key` is taken out, then
    /// `KEY=VALUE\0` is appended if it fits. False if it does not fit (the
    /// old entry stays removed).
    #[verifier::rlimit(60)]
    #[verifier::spinoff_prover]
    pub fn env_set(&mut self, key: &str, value: &str) -> (r: bool)
        requires old(self).env_len <= ENV_BLOCK_SIZE,
        ensures
            final(self).env_len <= ENV_BLOCK_SIZE,
            same_but_env(final(self), old(self)),
            r == (env_remove(env_bytes(old(self)), key.spec_bytes()).len()
                + env_entry(key.spec_bytes(), value.spec_bytes()).len() <= ENV_BLOCK_SIZE),
            r ==> env_bytes(final(self)) == env_remove(env_bytes(old(self)), key.spec_bytes())
                + env_entry(key.spec_bytes(), value.spec_bytes()),
            !r ==> env_bytes(final(self)) == env_remove(env_bytes(old(self)), key.spec_bytes()),
    {
        let key_bytes = key.as_bytes();
        let value_bytes = value.as_bytes();
        let ghost e = env_bytes(self);
        let found = find_entry(self.env.as_slice(), self.env_len, key_bytes);
        if let Some((start, end, _q)) = found {
            let consumed: usize = if end < self.env_len { end - start + 1 } else { end - start };
            let src: usize = start + consumed;
            let tail_len: usize = self.env_len - src;
            let ghost old_env = self.env@;
            let mut i: usize = 0;
            while i < tail_len
                invariant
                    self.env@.len() == 512, old_env.len() == 512,
                    start + consumed + tail_len == self.env_len, self.env_len <= 512,
                    consumed >= 1, i <= tail_len,
                    forall|k: int| 0 <= k < start ==> self.env@[k] == old_env[k],
                    forall|k: int| 0 <= k < i ==> #[trigger] self.env@[start + k] == old_env[start + consumed + k],
                    forall|k: int| start + consumed + i <= k < 512 ==> self.env@[k] == old_env[k],
                    same_but_env(self, old(self)),
                decreases tail_len - i,
            {
                let b = self.env[start + consumed + i];
                self.env[start + i] = b;
                i += 1;
            }
            self.env_len = self.env_len - consumed;
            proof {
                let target = env_remove(e, key_bytes@);
                assert(target =~= e.subrange(0, start as int) + e.subrange(src as int, e.len() as int));
                assert forall|k: int| 0 <= k < self.env_len implies #[trigger] env_bytes(self)[k] == target[k] by {
                    if k >= start {
                        let k2 = k - start;
                        assert(self.env@[start + k2] == old_env[start + consumed + k2]);
                    }
                }
                assert(env_bytes(self) =~= target);
            }
        }
        let ghost e1 = env_bytes(self);
        let kl = key_bytes.len();
        let vl = value_bytes.len();
        if kl > ENV_BLOCK_SIZE || vl > ENV_BLOCK_SIZE || self.env_len + kl + vl + 2 > ENV_BLOCK_SIZE {
            return false;
        }
        let p0 = self.env_len;
        let mut i: usize = 0;
        while i < kl
            invariant
                self.env@.len() == 512, p0 == self.env_len, p0 + kl + vl + 2 <= 512, i <= kl,
                kl == key_bytes@.len(), e1 == env_bytes(self),
                forall|k: int| 0 <= k < i ==> #[trigger] self.env@[p0 + k] == key_bytes@[k],
                same_but_env(self, old(self)),
            decreases kl - i,
        {
            self.env[p0 + i] = key_bytes[i];
            i += 1;
            proof { assert(e1 =~= env_bytes(self)); }
        }
        self.env[p0 + kl] = 61;
        let mut j: usize = 0;
        while j < vl
            invariant
                self.env@.len() == 512, p0 == self.env_len, p0 + kl + vl + 2 <= 512, j <= vl,
                kl == key_bytes@.len(), vl == value_bytes@.len(), e1 == env_bytes(self),
                forall|k: int| 0 <= k < kl ==> #[trigger] self.env@[p0 + k] == key_bytes@[k],
                self.env@[p0 + kl] == 61,
                forall|k: int| 0 <= k < j ==> #[trigger] self.env@[p0 + kl + 1 + k] == value_bytes@[k],
                same_but_env(self, old(self)),
            decreases vl - j,
        {
            self.env[p0 + kl + 1 + j] = value_bytes[j];
            j += 1;
            proof { assert(e1 =~= env_bytes(self)); }
        }
        self.env[p0 + kl + 1 + vl] = 0;
        self.env_len = p0 + kl + vl + 2;
        proof {
            let target = e1 + env_entry(key_bytes@, value_bytes@);
            assert forall|k: int| 0 <= k < self.env_len implies #[trigger] env_bytes(self)[k] == target[k] by {
                if k < p0 {
                } else if k < p0 + kl {
                    let k2 = k - p0;
                    assert(self.env@[p0 + k2] == key_bytes@[k2]);
                } else if k == p0 + kl {
                } else if k < p0 + kl + 1 + vl {
                    let k2 = k - p0 - kl - 1;
                    assert(self.env@[p0 + kl + 1 + k2] == value_bytes@[k2]);
                }
            }
            assert(env_bytes(self) =~= target);
        }
        true
    }

    /// Copy the working directory and environment of `parent`.
    pub fn inherit_env_cwd_from(&mut self, parent: &Process)
        requires parent.cwd_len <= 128, parent.env_len <= ENV_BLOCK_SIZE,
        ensures
            cwd_bytes(final(self)) == cwd_bytes(parent),
            env_bytes(final(self)) == env_bytes(parent),
            same_but_env_cwd(final(self), old(self)),
    {
        let mut i: usize = 0;
        while i < parent.cwd_len
            invariant
                parent.cwd_len <= 128, i <= parent.cwd_len, self.cwd@.len() == 128, parent.cwd@.len() == 128,
                forall|k: int| 0 <= k < i ==> self.cwd@[k] == parent.cwd@[k],
                same_but_env_cwd(self, old(self)),
            decreases parent.cwd_len - i,
        {
            self.cwd[i] = parent.cwd[i];
            i += 1;
        }
        self.cwd_len = parent.cwd_len;
        let mut j: usize = 0;
        while j < parent.env_len
            invariant
                parent.env_len <= 512, j <= parent.env_len, self.env@.len() == 512, parent.env@.len() == 512,
                forall|k: int| 0 <= k < j ==> self.env@[k] == parent.env@[k],
                cwd_bytes(self) == cwd_bytes(parent),
                same_but_env_cwd(self, old(self)),
            decreases parent.env_len - j,
        {
            self.env[j] = parent.env[j];
            j += 1;
            proof { assert(cwd_bytes(self) =~= cwd_bytes(parent)); }
        }
        self.env_len = parent.env_len;
        proof {
            assert(cwd_bytes(self) =~= cwd_bytes(parent));
            assert(env_bytes(self) =~= env_bytes(parent));
        }
    }

    /// Record the exit status and become a zombie.
    pub fn exit(&mut self, status: ExitStatus)
        ensures
            final(self).exit_status == status,
            final(self).state == ProcessState::Zombie,
            final(self).pid == old(self).pid, final(self).parent == old(self).parent,
            final(self).children == old(self).children, final(self).child_count == old(self).child_count,
    {
        self.exit_status = status;
        self.state = ProcessState::Zombie;
    }

    /// Collect the exit status and become dead.
    pub fn reap(&mut self) -> (r: ExitStatus)
        ensures
            r == old(self).exit_status,
            final(self).state == ProcessState::Dead,
            final(self).exit_status == old(self).exit_status,
            final(self).pid == old(self).pid, final(self).parent == old(self).parent,
            final(self).children == old(self).children, final(self).child_count == old(self).child_count,
    {
        let status = self.exit_status;
        self.state = ProcessState::Dead;
        status
    }
}


/// `find_eq` only looks at the bytes of its range.
pub proof fn lemma_find_eq_agree(a: Seq<u8>, b: Seq<u8>, i: int, end: int)
    requires forall|k: int| i <= k < end ==> a[k] == b[k],
    ensures find_eq(a, i, end) == find_eq(b, i, end),
    decreases end - i,
{
    if i < end {
        lemma_find_eq_agree(a, b, i + 1, end);
    }
}

/// Searching a block with an entry appended, from an entry boundary of the
/// original block that has no entry for `key` from there on, finds the
/// appended entry.
proof fn lemma_find_appended(rest: Seq<u8>, key: Seq<u8>, value: Seq<u8>, s: int)
    requires
        0 <= s <= rest.len(),
        s == 0 || rest[s - 1] == 0,
        rest.len() == 0 || rest.last() == 0,
        env_find(rest, key, s) is None,
        forall|i: int| 0 <= i < key.len() ==> key[i] != 0 && key[i] != 61,
        forall|i: int| 0 <= i < value.len() ==> value[i] != 0,
    ensures
        env_find(rest + env_entry(key, value), key, s)
            == Some((rest.len() as int, (rest.len() + key.len() + 1 + value.len()) as int)),
    decreases rest.len() - s,
{
    let f = rest + env_entry(key, value);
    let l = rest.len() as int;
    let kl = key.len() as int;
    let vl = value.len() as int;
    assert(f.len() == l + kl + vl + 2);
    if s == l {
        assert forall|k: int| l <= k < l + kl + 1 + vl implies f[k] != 0 by {
            if k < l + kl {
                assert(f[k] == key[k - l]);
            } else if k > l + kl {
                assert(f[k] == value[k - l - kl - 1]);
            }
        }
        lemma_entry_end_is(f, l, l + kl + 1 + vl);
        assert forall|k: int| l <= k < l + kl implies f[k] != 61 by {
            assert(f[k] == key[k - l]);
        }
        lemma_find_eq_is(f, l, l + kl, l + kl + 1 + vl);
        assert(f.subrange(l, l + kl) =~= key);
    } else {
        lemma_entry_end(rest, s);
        let end0 = entry_end(rest, s);
        if end0 >= l {
            assert(rest[l - 1] != 0);
        }
        assert(end0 < l);
        lemma_entry_end_is(f, s, end0);
        lemma_find_eq_agree(f, rest, s, end0);
        let eq = find_eq(rest, s, end0);
        if eq >= 0 {
            lemma_find_eq_bounds(rest, s, end0);
            assert(f.subrange(s, eq) =~= rest.subrange(s, eq));
        }
        lemma_find_appended(rest, key, value, end0 + 1);
    }
}

/// `find_eq` is -1 or an index of its range.
pub proof fn lemma_find_eq_bounds(e: Seq<u8>, i: int, end: int)
    ensures find_eq(e, i, end) == -1 || i <= find_eq(e, i, end) < end,
    decreases end - i,
{
    if i < end {
        lemma_find_eq_bounds(e, i + 1, end);
    }
}

/// An environment block: empty, or ending with the NUL of its last entry.
pub open spec fn env_terminated(e: Seq<u8>) -> bool {
    e.len() == 0 || e.last() == 0
}

/// `key` names at most one entry of `e`.
pub open spec fn env_key_once(e: Seq<u8>, key: Seq<u8>) -> bool {
    env_find(e, key, 0) matches Some((s, t)) ==> env_find(e, key, t + 1) is None
}

/// A match found in `y`, placed after `n` bytes.
pub open spec fn shift_found(r: Option<(int, int)>, n: int) -> Option<(int, int)> {
    match r {
        Some((a, b)) => Some((a + n, b + n)),
        None => None,
    }
}

proof fn lemma_entry_end_shift(x: Seq<u8>, y: Seq<u8>, j: int)
    requires 0 <= j,
    ensures entry_end(x + y, x.len() + j) == x.len() + entry_end(y, j),
    decreases y.len() - j,
{
    if j < y.len() && y[j] != 0 {
        assert((x + y)[x.len() + j] == y[j]);
        lemma_entry_end_shift(x, y, j + 1);
    } else if j < y.len() {
        assert((x + y)[x.len() + j] == y[j]);
    }
}

proof fn lemma_find_eq_shift(x: Seq<u8>, y: Seq<u8>, a: int, b: int)
    requires 0 <= a, b <= y.len(),
    ensures find_eq(x + y, x.len() + a, x.len() + b) == (if find_eq(y, a, b) >= 0 { find_eq(y, a, b) + x.len() } else { -1 }),
    decreases b - a,
{
    if a < b {
        assert((x + y)[x.len() + a] == y[a]);
        lemma_find_eq_shift(x, y, a + 1, b);
    }
}

/// Searching past a block `x` is searching `y`.
proof fn lemma_env_find_shift(x: Seq<u8>, y: Seq<u8>, key: Seq<u8>, j: int)
    requires 0 <= j,
    ensures env_find(x + y, key, x.len() + j) == shift_found(env_find(y, key, j), x.len() as int),
    decreases y.len() + 1 - j,
{
    let f = x + y;
    let n = x.len() as int;
    if j < y.len() {
        lemma_entry_end_shift(x, y, j);
        lemma_entry_end(y, j);
        let end = entry_end(y, j);
        lemma_find_eq_shift(x, y, j, end);
        let q = find_eq(y, j, end);
        lemma_find_eq_bounds(y, j, end);
        if q >= 0 {
            assert(f.subrange(n + j, q + n) =~= y.subrange(j, q));
        }
        lemma_env_find_shift(x, y, key, end + 1);
    }
}

proof fn lemma_entry_end_prefix(x: Seq<u8>, y: Seq<u8>, i: int)
    requires 0 <= i < x.len(), x.last() == 0,
    ensures entry_end(x + y, i) == entry_end(x, i), entry_end(x, i) < x.len(),
    decreases x.len() - i,
{
    assert((x + y)[i] == x[i]);
    if x[i] != 0 {
        lemma_entry_end_prefix(x, y, i + 1);
    }
}

proof fn lemma_find_eq_prefix(x: Seq<u8>, y: Seq<u8>, a: int, b: int)
    requires 0 <= a, b <= x.len(),
    ensures find_eq(x + y, a, b) == find_eq(x, a, b),
    decreases b - a,
{
    if a < b {
        assert((x + y)[a] == x[a]);
        lemma_find_eq_prefix(x, y, a + 1, b);
    }
}

/// Searching a block `x` followed by `y` from an entry of `x`: a match in
/// `x` if there is one, else the search of `y`.
proof fn lemma_env_find_concat(x: Seq<u8>, y: Seq<u8>, key: Seq<u8>, i: int)
    requires env_terminated(x), 0 <= i <= x.len(),
    ensures env_find(x + y, key, i) == (if env_find(x, key, i) is Some { env_find(x, key, i) }
        else { shift_found(env_find(y, key, 0), x.len() as int) }),
    decreases x.len() - i,
{
    if i == x.len() {
        lemma_env_find_shift(x, y, key, 0);
    } else {
        lemma_entry_end_prefix(x, y, i);
        let end = entry_end(x, i);
        lemma_entry_end(x, i);
        lemma_find_eq_prefix(x, y, i, end);
        let q = find_eq(x, i, end);
        if q >= 0 {
            lemma_find_eq_bounds(x, i, end);
            assert((x + y).subrange(i, q) =~= x.subrange(i, q));
        }
        lemma_env_find_concat(x, y, key, end + 1);
    }
}

proof fn lemma_env_find_result(e: Seq<u8>, key: Seq<u8>, i: int)
    requires 0 <= i,
    ensures env_find(e, key, i) matches Some((a, b)) ==> i <= a < e.len() && b == entry_end(e, a)
        && (a == i || e[a - 1] == 0) && find_eq(e, a, b) >= 0 && e.subrange(a, find_eq(e, a, b)) == key,
    decreases e.len() + 1 - i,
{
    if i < e.len() {
        lemma_entry_end(e, i);
        let end = entry_end(e, i);
        lemma_env_find_result(e, key, end + 1);
    }
}

/// Setting `key` and reading it back gives the value set, whatever the block
/// held before: the old entry of `key` is taken out and the new one
/// appended (for a block in which `key` names at most one entry, as in
/// every block `env_set` builds, and which it keeps so).
pub proof fn law_env_set_get_any(e: Seq<u8>, key: Seq<u8>, value: Seq<u8>)
    requires
        env_terminated(e), env_key_once(e, key),
        forall|i: int| 0 <= i < key.len() ==> key[i] != 0 && key[i] != 61,
        forall|i: int| 0 <= i < value.len() ==> value[i] != 0,
    ensures
        env_value(env_remove(e, key) + env_entry(key, value), key) == Some(value),
        env_terminated(env_remove(e, key) + env_entry(key, value)),
        env_key_once(env_remove(e, key) + env_entry(key, value), key),
{
    let rest = env_remove(e, key);
    match env_find(e, key, 0) {
        None => {},
        Some((s, t)) => {
            lemma_env_find_result(e, key, 0);
            lemma_entry_end_prefix(e, Seq::<u8>::empty(), s);
            assert(e + Seq::<u8>::empty() =~= e);
            assert(t == entry_end(e, s));
            lemma_entry_end(e, s);
            assert(0 <= s < t + 1 <= e.len());
            let x = e.subrange(0, s);
            let z = e.subrange(s, e.len() as int);
            let w = e.subrange(0, t + 1);
            let y = e.subrange(t + 1, e.len() as int);
            assert(x + z =~= e);
            assert(w + y =~= e);
            lemma_env_find_concat(x, z, key, 0);
            if env_find(x, key, 0) is Some {
                lemma_env_find_result(x, key, 0);
            }
            assert(env_find(x, key, 0) is None);
            lemma_env_find_shift(w, y, key, 0);
            assert(env_find(y, key, 0) is None);
            assert(rest =~= x + y);
            lemma_env_find_concat(x, y, key, 0);
            if y.len() > 0 {
                assert(rest.last() == e.last());
            }
        },
    }
    assert(env_terminated(rest));
    assert(env_find(rest, key, 0) is None);
    law_env_set_then_get(rest, key, value);
    lemma_find_appended(rest, key, value, 0);
}

/// The value of `key` in a block `x` followed by `y`: its value in `x` if
/// `x` has an entry for it, else its value in `y`.
proof fn lemma_env_value_concat(x: Seq<u8>, y: Seq<u8>, key: Seq<u8>)
    requires env_terminated(x),
    ensures env_value(x + y, key) == (if env_find(x, key, 0) is Some { env_value(x, key) } else { env_value(y, key) }),
{
    lemma_env_find_concat(x, y, key, 0);
    match env_find(x, key, 0) {
        Some((a, b)) => {
            lemma_env_find_result(x, key, 0);
            lemma_entry_end_prefix(x, y, a);
            lemma_find_eq_prefix(x, y, a, b);
            lemma_find_eq_bounds(x, a, b);
            let q = find_eq(x, a, b);
            lemma_entry_end(x, a);
            assert((x + y).subrange(q + 1, b) =~= x.subrange(q + 1, b));
        },
        None => {
            match env_find(y, key, 0) {
                Some((a, b)) => {
                    lemma_env_find_result(y, key, 0);
                    lemma_entry_end(y, a);
                    lemma_find_eq_shift(x, y, a, b);
                    lemma_find_eq_bounds(y, a, b);
                    let q = find_eq(y, a, b);
                    let n = x.len() as int;
                    assert((x + y).subrange(q + n + 1, b + n) =~= y.subrange(q + 1, b));
                },
                None => {},
            }
        },
    }
}

/// A block holding one entry whose key is `k` has no entry for another key.
proof fn lemma_env_single_entry(m: Seq<u8>, k: Seq<u8>, other: Seq<u8>)
    requires
        m.len() >= 1, m.last() == 0, forall|i: int| 0 <= i < m.len() - 1 ==> m[i] != 0,
        find_eq(m, 0, m.len() - 1) >= 0, m.subrange(0, find_eq(m, 0, m.len() - 1)) == k, other != k,
    ensures env_find(m, other, 0) is None, env_value(m, other) is None,
{
    lemma_entry_end_is(m, 0, m.len() - 1);
    assert(env_find(m, other, m.len() as int) is None);
    assert(m.subrange(0, find_eq(m, 0, m.len() - 1)) != other);
}

/// Setting `key` leaves every other key's value as it was (in a block where
/// `key` names at most one entry).
pub proof fn law_env_set_keeps_others(e: Seq<u8>, key: Seq<u8>, value: Seq<u8>, other: Seq<u8>)
    requires
        env_terminated(e), env_key_once(e, key), other != key,
        forall|i: int| 0 <= i < key.len() ==> key[i] != 0 && key[i] != 61,
        forall|i: int| 0 <= i < value.len() ==> value[i] != 0,
    ensures
        env_value(env_remove(e, key) + env_entry(key, value), other) == env_value(e, other),
{
    let rest = env_remove(e, key);
    let ent = env_entry(key, value);
    law_env_set_get_any(e, key, value);
    // the new entry does not hold `other`
    let kl = key.len() as int;
    assert forall|i: int| 0 <= i < ent.len() - 1 implies ent[i] != 0 by {
        if i < kl { assert(ent[i] == key[i]); } else if i > kl { assert(ent[i] == value[i - kl - 1]); }
    }
    assert forall|i: int| 0 <= i < kl implies ent[i] != 61 by { assert(ent[i] == key[i]); }
    lemma_find_eq_is(ent, 0, kl, ent.len() - 1);
    assert(ent.subrange(0, kl) =~= key);
    lemma_env_single_entry(ent, key, other);
    match env_find(e, key, 0) {
        None => {
            lemma_env_value_concat(e, ent, other);
        },
        Some((s, t)) => {
            lemma_env_find_result(e, key, 0);
            lemma_entry_end(e, s);
            lemma_entry_end_prefix(e, Seq::<u8>::empty(), s);
            assert(e + Seq::<u8>::empty() =~= e);
            let x = e.subrange(0, s);
            let m = e.subrange(s, t + 1);
            let y = e.subrange(t + 1, e.len() as int);
            assert(rest =~= x + y);
            assert(e =~= x + (m + y));
            // `x` is a whole block: empty or ending with the NUL of an entry
            assert(env_terminated(x));
            lemma_env_value_concat(x, m + y, other);
            lemma_env_value_concat(x, y, other);
            lemma_env_value_concat(x + y, ent, other);
            // the removed entry holds `key`, not `other`
            lemma_find_eq_bounds(e, s, t);
            let q = find_eq(e, s, t);
            assert forall|i: int| 0 <= i < m.len() - 1 implies m[i] != 0 by { assert(m[i] == e[s + i]); }
            lemma_find_eq_shift(Seq::<u8>::empty(), m, 0, t - s);
            assert(Seq::<u8>::empty() + m =~= m);
            lemma_find_eq_shift(x, m + y, 0, t - s);
            lemma_find_eq_prefix(m, y, 0, t - s);
            assert(find_eq(e, s, t) == find_eq(m, 0, t - s) + s);
            assert(m.subrange(0, q - s) =~= e.subrange(s, q));
            lemma_env_single_entry(m, key, other);
            lemma_env_value_concat(m, y, other);
            if y.len() > 0 {
                assert(env_terminated(x + y));
            } else {
                assert(x + y =~= x);
            }
        },
    }
}

/// Reading a variable back after setting it gives the value set: when the
/// block left once the old entry is taken out ends on an entry boundary and
/// holds no other entry for `key`, and `key` holds no NUL or `=` and `value`
/// no NUL, the value found for `key` after the append is `value`.
pub proof fn law_env_set_then_get(rest: Seq<u8>, key: Seq<u8>, value: Seq<u8>)
    requires
        rest.len() == 0 || rest.last() == 0,
        env_find(rest, key, 0) is None,
        forall|i: int| 0 <= i < key.len() ==> key[i] != 0 && key[i] != 61,
        forall|i: int| 0 <= i < value.len() ==> value[i] != 0,
    ensures
        env_value(rest + env_entry(key, value), key) == Some(value),
{
    let f = rest + env_entry(key, value);
    let l = rest.len() as int;
    let kl = key.len() as int;
    let vl = value.len() as int;
    lemma_find_appended(rest, key, value, 0);
    assert forall|k: int| l <= k < l + kl implies f[k] != 61 by {
        assert(f[k] == key[k - l]);
    }
    lemma_find_eq_is(f, l, l + kl, l + kl + 1 + vl);
    assert(f.subrange(l + kl + 1, l + kl + 1 + vl) =~= value);
}


/// Slots in the process table (a PID is its slot).
pub const MAX_PROCESSES: usize = 64;

/// The processes in occupied slots, in slot order, among the first `n`.
pub open spec fn live_prefix(s: Seq<Option<Process>>, n: int) -> Seq<Process>
    decreases n,
{
    if n <= 0 {
        Seq::empty()
    } else if s[n - 1] is Some {
        live_prefix(s, n - 1).push(s[n - 1]->0)
    } else {
        live_prefix(s, n - 1)
    }
}

/// Slot `i` is the first occupied slot whose process runs on task `slot`.
pub open spec fn first_on_task(s: Seq<Option<Process>>, slot: usize, i: int) -> bool {
    &&& 0 <= i < s.len()
    &&& s[i] matches Some(p) && p.task_id == Some(slot)
    &&& forall|j: int| 0 <= j < i ==> !(#[trigger] s[j] matches Some(q) && q.task_id == Some(slot))
}

/// The table of processes, indexed by PID.
pub struct ProcessTable {
    processes: Vec<Option<Process>>,
    count: usize,
}

impl View for ProcessTable {
    type V = Seq<Option<Process>>;

    closed spec fn view(&self) -> Seq<Option<Process>> {
        self.processes@
    }
}

impl ProcessTable {
    /// Table invariant: one slot per PID, and the count counts occupied slots.
    pub closed spec fn wf(&self) -> bool {
        self.processes@.len() == MAX_PROCESSES && self.count == count_some(self.processes@)
    }

    /// A well-formed table has one slot per PID.
    pub proof fn lemma_len(&self)
        requires self.wf(),
        ensures self@.len() == MAX_PROCESSES,
    {
    }

    /// An empty table.
    pub fn new() -> (r: Self)
        ensures
            r.wf(),
            forall|i: int| 0 <= i < MAX_PROCESSES ==> #[trigger] r@[i] is None,
    {
        let mut v: Vec<Option<Process>> = Vec::new();
        let mut i: usize = 0;
        while i < MAX_PROCESSES
            invariant
                i <= MAX_PROCESSES, v@.len() == i, count_some(v@) == 0,
                forall|j: int| 0 <= j < i ==> #[trigger] v@[j] is None,
            decreases MAX_PROCESSES - i,
        {
            let ghost before = v@;
            v.push(None);
            proof {
                assert(v@.drop_last() =~= before);
            }
            i += 1;
        }
        ProcessTable { processes: v, count: 0 }
    }

    /// The process with PID `pid`.
    pub fn get(&self, pid: ProcessId) -> (r: Option<&Process>)
        requires self.wf(),
        ensures
            r is Some <==> (pid.0 < MAX_PROCESSES && self@[pid.0 as int] is Some),
            r matches Some(p) ==> self@[pid.0 as int] == Some(*p),
    {
        let idx = pid.0 as usize;
        if idx < MAX_PROCESSES {
            self.processes[idx].as_ref()
        } else {
            None
        }
    }

    /// Mutable access to the process with PID `pid`.
    pub fn get_mut(&mut self, pid: ProcessId) -> (r: Option<&mut Process>)
        requires old(self).wf(),
        ensures
            r is Some <==> (pid.0 < MAX_PROCESSES && old(self)@[pid.0 as int] is Some),
            r is None ==> final(self)@ == old(self)@,
            r is Some ==> old(self)@[pid.0 as int] == Some(*r->0)
                && final(self)@ == old(self)@.update(pid.0 as int, Some(*final(r->0))),
            final(self).wf(),
    {
        let idx = pid.0 as usize;
        if idx < MAX_PROCESSES {
            proof {
                if self@[idx as int] is Some {
                    assert forall|x: Process| #[trigger] count_some(self@.update(idx as int, Some(x)))
                        == count_some(self@) by {
                        lemma_count_some_update(self@, idx as int, Some(x));
                    }
                }
            }
            let slot = &mut self.processes[idx];
            slot.as_mut()
        } else {
            None
        }
    }

    /// Put `proc` in the slot of its PID; false if the PID is out of range
    /// or taken.
    pub fn insert(&mut self, proc: Process) -> (r: bool)
        requires old(self).wf(),
        ensures
            final(self).wf(),
            r == (proc.pid.0 < MAX_PROCESSES && old(self)@[proc.pid.0 as int] is None),
            r ==> final(self)@ == old(self)@.update(proc.pid.0 as int, Some(proc)),
            !r ==> final(self)@ == old(self)@,
    {
        let idx = proc.pid.0 as usize;
        if idx < MAX_PROCESSES && self.processes[idx].is_none() {
            proof {
                lemma_count_lt(self@, idx as int);
                lemma_count_some_update(self@, idx as int, Some(proc));
            }
            self.processes.set(idx, Some(proc));
            self.count = self.count + 1;
            true
        } else {
            false
        }
    }

    /// Take the process with PID `pid` out of the table.
    pub fn remove(&mut self, pid: ProcessId) -> (r: Option<Process>)
        requires old(self).wf(),
        ensures
            final(self).wf(),
            r == (if pid.0 < MAX_PROCESSES { old(self)@[pid.0 as int] } else { None::<Process> }),
            r is Some ==> final(self)@ == old(self)@.update(pid.0 as int, None),
            r is None ==> final(self)@ == old(self)@,
    {
        let idx = pid.0 as usize;
        if idx < MAX_PROCESSES {
            if self.processes[idx].is_some() {
                proof {
                    lemma_count_pos(self@, idx as int);
                    lemma_count_some_update(self@, idx as int, None);
                }
                let p = self.processes[idx].take();
                self.count = self.count - 1;
                return p;
            }
        }
        None
    }

    /// The lowest free PID from 2 up (0 and 1 belong to kernel and init).
    pub fn alloc_pid(&self) -> (r: Option<ProcessId>)
        requires self.wf(),
        ensures
            r is None <==> forall|i: int| 2 <= i < MAX_PROCESSES ==> #[trigger] self@[i] is Some,
            r matches Some(p) ==> 2 <= p.0 < MAX_PROCESSES && self@[p.0 as int] is None
                && forall|i: int| 2 <= i < p.0 ==> #[trigger] self@[i] is Some,
    {
        let mut i: usize = 2;
        while i < MAX_PROCESSES
            invariant
                2 <= i <= MAX_PROCESSES, self.wf(),
                forall|j: int| 2 <= j < i ==> #[trigger] self@[j] is Some,
            decreases MAX_PROCESSES - i,
        {
            if self.processes[i].is_none() {
                return Some(ProcessId(i as u32));
            }
            i += 1;
        }
        None
    }

    /// Number of processes in the table.
    pub fn count(&self) -> (r: usize)
        requires self.wf(),
        ensures r == count_some(self@),
    {
        self.count
    }

    /// The processes, in PID order.
    pub fn iter(&self) -> (r: Vec<&Process>)
        requires self.wf(),
        ensures
            r@.len() == live_prefix(self@, MAX_PROCESSES as int).len(),
            forall|i: int| 0 <= i < r@.len() ==> *r@[i] == live_prefix(self@, MAX_PROCESSES as int)[i],
    {
        let mut out: Vec<&Process> = Vec::new();
        let mut i: usize = 0;
        while i < MAX_PROCESSES
            invariant
                i <= MAX_PROCESSES, self.wf(),
                out@.len() == live_prefix(self@, i as int).len(),
                forall|k: int| 0 <= k < out@.len() ==> *out@[k] == live_prefix(self@, i as int)[k],
            decreases MAX_PROCESSES - i,
        {
            match self.processes[i].as_ref() {
                Some(p) => {
                    out.push(p);
                }
                None => {}
            }
            i += 1;
        }
        out
    }

    /// The PID of the first process (in PID order) running on task `slot`.
    pub fn find_pid_by_task(&self, slot: usize) -> (r: Option<ProcessId>)
        requires self.wf(),
        ensures
            r is None <==> forall|i: int| 0 <= i < MAX_PROCESSES
                ==> !(#[trigger] self@[i] matches Some(p) && p.task_id == Some(slot)),
            r matches Some(pid) ==> exists|i: int| first_on_task(self@, slot, i) && self@[i]->0.pid == pid,
    {
        let mut i: usize = 0;
        while i < MAX_PROCESSES
            invariant
                i <= MAX_PROCESSES, self.wf(),
                forall|j: int| 0 <= j < i ==> !(#[trigger] self@[j] matches Some(q) && q.task_id == Some(slot)),
            decreases MAX_PROCESSES - i,
        {
            match self.processes[i].as_ref() {
                Some(p) => {
                    if p.task_id == Some(slot) {
                        assert(first_on_task(self@, slot, i as int));
                        return Some(p.pid);
                    }
                }
                None => {}
            }
            i += 1;
        }
        None
    }
}

/// A process inserted into a free slot is found by `get` under its PID, and
/// after `remove` it is gone.
pub proof fn law_insert_get_remove(before: Seq<Option<Process>>, p: Process)
    requires
        before.len() == MAX_PROCESSES,
        p.pid.0 < MAX_PROCESSES,
        before[p.pid.0 as int] is None,
    ensures
        before.update(p.pid.0 as int, Some(p))[p.pid.0 as int] == Some(p),
        before.update(p.pid.0 as int, Some(p)).update(p.pid.0 as int, None) == before,
{
    assert(before.update(p.pid.0 as int, Some(p)).update(p.pid.0 as int, None) =~= before);
}

} // verus!
