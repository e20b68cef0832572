//! System-call numbers and the routing of a number to its call.
use vstd::prelude::*;

verus! {

pub const SYS_WRITE: u64 = 0;
pub const SYS_READ: u64 = 1;
pub const SYS_EXIT: u64 = 2;
pub const SYS_YIELD: u64 = 3;
pub const SYS_GETPID: u64 = 4;
pub const SYS_SLEEP: u64 = 5;
pub const SYS_INFO: u64 = 6;
pub const SYS_OPEN: u64 = 10;
pub const SYS_CLOSE: u64 = 11;
pub const SYS_FREAD: u64 = 12;
pub const SYS_FWRITE: u64 = 13;
pub const SYS_SEEK: u64 = 14;
pub const SYS_STAT: u64 = 15;
pub const SYS_MKDIR: u64 = 16;
pub const SYS_UNLINK: u64 = 17;
pub const SYS_READDIR: u64 = 18;
pub const SYS_FSYNC: u64 = 19;
pub const SYS_SEM_CREATE: u64 = 20;
pub const SYS_SEM_READ: u64 = 21;
pub const SYS_SEM_WRITE: u64 = 22;
pub const SYS_SEM_DELETE: u64 = 23;
pub const SYS_SEM_LINK: u64 = 24;
pub const SYS_SEM_QUERY: u64 = 25;
pub const SYS_SEM_SEARCH: u64 = 26;
pub const SYS_SEM_META: u64 = 27;
pub const SYS_ALLOC: u64 = 30;
pub const SYS_FREE: u64 = 31;
pub const SYS_POOL_INFO: u64 = 32;
pub const SYS_BRK: u64 = 33;
pub const SYS_HEAP_ALLOC: u64 = 34;
pub const SYS_HEAP_FREE: u64 = 35;
pub const SYS_RENAME: u64 = 36;
pub const SYS_TRUNCATE: u64 = 37;
pub const SYS_STATX: u64 = 38;
pub const SYS_MMAP_ANON: u64 = 39;
pub const SYS_SPAWN: u64 = 40;
pub const SYS_WAIT: u64 = 41;
pub const SYS_KILL: u64 = 42;
pub const SYS_EXEC: u64 = 43;
pub const SYS_DUP: u64 = 44;
pub const SYS_DUP2: u64 = 45;
pub const SYS_PIPE: u64 = 46;
pub const SYS_LLM_QUERY: u64 = 50;
pub const SYS_LLM_CONTEXT: u64 = 51;
pub const SYS_LLM_REDACT: u64 = 52;
pub const SYS_LLM_SUMMARIZE: u64 = 53;
pub const SYS_LLM_ACCESS: u64 = 54;
pub const SYS_LLM_STREAM_START: u64 = 55;
pub const SYS_LLM_STREAM_READ: u64 = 56;
pub const SYS_LLM_SET_POLICY: u64 = 57;
pub const SYS_LLM_GET_POLICY: u64 = 58;
pub const SYS_ENCRYPT: u64 = 60;
pub const SYS_DECRYPT: u64 = 61;
pub const SYS_HASH: u64 = 62;
pub const SYS_PERSIST: u64 = 63;
pub const SYS_RESTORE: u64 = 64;
pub const SYS_TIME: u64 = 70;
pub const SYS_UPTIME: u64 = 71;
pub const SYS_REBOOT: u64 = 72;
pub const SYS_SYSINFO: u64 = 73;
pub const SYS_GETUID: u64 = 80;
pub const SYS_SETUID: u64 = 81;
pub const SYS_CREATE_USER: u64 = 82;
pub const SYS_LOOKUP_USER: u64 = 83;
pub const SYS_GET_CWD: u64 = 74;
pub const SYS_SET_CWD: u64 = 75;
pub const SYS_GET_ENV: u64 = 76;
pub const SYS_SET_ENV: u64 = 77;
pub const SYS_FUTEX_WAIT: u64 = 90;
pub const SYS_FUTEX_WAKE: u64 = 91;
pub const SYS_THREAD_SPAWN: u64 = 92;
pub const SYS_THREAD_JOIN: u64 = 93;
pub const SYS_WAITNB: u64 = 94;
pub const SYS_DNS_RESOLVE: u64 = 100;
pub const SYS_TCP_CONNECT: u64 = 101;
pub const SYS_TCP_READ: u64 = 102;
pub const SYS_TCP_WRITE: u64 = 103;
pub const SYS_TCP_CLOSE: u64 = 104;
pub const SYS_TCP_STATE: u64 = 105;
pub const SYS_PS: u64 = 110;
pub const SYS_ASK: u64 = 111;
pub const SYS_AGENT: u64 = 112;
pub const SYS_EDIT: u64 = 113;
pub const SYS_USBINFO: u64 = 114;
/// Returned by a non-blocking network or pipe call that has nothing yet.
pub const NET_WOULDBLOCK: u64 = 0xFFFF_FFFF_FFFF_FFFE;

/// The calls the kernel serves.
#[derive(Debug, Clone, Copy, PartialEq, Eq, Structural)]
pub enum Syscall {
    Write,
    Read,
    Exit,
    Yield,
    Getpid,
    Sleep,
    Info,
    Open,
    Close,
    Fread,
    Fwrite,
    Seek,
    Stat,
    Mkdir,
    Unlink,
    Readdir,
    Fsync,
    SemCreate,
    SemRead,
    SemWrite,
    SemDelete,
    SemLink,
    SemQuery,
    SemSearch,
    SemMeta,
    Alloc,
    Free,
    PoolInfo,
    HeapAlloc,
    HeapFree,
    Rename,
    Truncate,
    Statx,
    MmapAnon,
    Spawn,
    Wait,
    Kill,
    Dup,
    Dup2,
    Pipe,
    LlmQuery,
    LlmContext,
    LlmRedact,
    LlmSummarize,
    LlmAccess,
    LlmStreamStart,
    LlmStreamRead,
    LlmSetPolicy,
    LlmGetPolicy,
    Encrypt,
    Decrypt,
    Hash,
    Time,
    Sysinfo,
    Getuid,
    Setuid,
    CreateUser,
    LookupUser,
    GetCwd,
    SetCwd,
    GetEnv,
    SetEnv,
    FutexWait,
    FutexWake,
    ThreadSpawn,
    ThreadJoin,
    Waitnb,
    DnsResolve,
    TcpConnect,
    TcpRead,
    TcpWrite,
    TcpClose,
    TcpState,
    Ps,
    Ask,
    Agent,
    Edit,
    Usbinfo,
}

/// The number of a call.
pub open spec fn number_of(k: Syscall) -> u64 {
    match k {
        Syscall::Write => SYS_WRITE,
        Syscall::Read => SYS_READ,
        Syscall::Exit => SYS_EXIT,
        Syscall::Yield => SYS_YIELD,
        Syscall::Getpid => SYS_GETPID,
        Syscall::Sleep => SYS_SLEEP,
        Syscall::Info => SYS_INFO,
        Syscall::Open => SYS_OPEN,
        Syscall::Close => SYS_CLOSE,
        Syscall::Fread => SYS_FREAD,
        Syscall::Fwrite => SYS_FWRITE,
        Syscall::Seek => SYS_SEEK,
        Syscall::Stat => SYS_STAT,
        Syscall::Mkdir => SYS_MKDIR,
        Syscall::Unlink => SYS_UNLINK,
        Syscall::Readdir => SYS_READDIR,
        Syscall::Fsync => SYS_FSYNC,
        Syscall::SemCreate => SYS_SEM_CREATE,
        Syscall::SemRead => SYS_SEM_READ,
        Syscall::SemWrite => SYS_SEM_WRITE,
        Syscall::SemDelete => SYS_SEM_DELETE,
        Syscall::SemLink => SYS_SEM_LINK,
        Syscall::SemQuery => SYS_SEM_QUERY,
        Syscall::SemSearch => SYS_SEM_SEARCH,
        Syscall::SemMeta => SYS_SEM_META,
        Syscall::Alloc => SYS_ALLOC,
        Syscall::Free => SYS_FREE,
        Syscall::PoolInfo => SYS_POOL_INFO,
        Syscall::HeapAlloc => SYS_HEAP_ALLOC,
        Syscall::HeapFree => SYS_HEAP_FREE,
        Syscall::Rename => SYS_RENAME,
        Syscall::Truncate => SYS_TRUNCATE,
        Syscall::Statx => SYS_STATX,
        Syscall::MmapAnon => SYS_MMAP_ANON,
        Syscall::Spawn => SYS_SPAWN,
        Syscall::Wait => SYS_WAIT,
        Syscall::Kill => SYS_KILL,
        Syscall::Dup => SYS_DUP,
        Syscall::Dup2 => SYS_DUP2,
        Syscall::Pipe => SYS_PIPE,
        Syscall::LlmQuery => SYS_LLM_QUERY,
        Syscall::LlmContext => SYS_LLM_CONTEXT,
        Syscall::LlmRedact => SYS_LLM_REDACT,
        Syscall::LlmSummarize => SYS_LLM_SUMMARIZE,
        Syscall::LlmAccess => SYS_LLM_ACCESS,
        Syscall::LlmStreamStart => SYS_LLM_STREAM_START,
        Syscall::LlmStreamRead => SYS_LLM_STREAM_READ,
        Syscall::LlmSetPolicy => SYS_LLM_SET_POLICY,
        Syscall::LlmGetPolicy => SYS_LLM_GET_POLICY,
        Syscall::Encrypt => SYS_ENCRYPT,
        Syscall::Decrypt => SYS_DECRYPT,
        Syscall::Hash => SYS_HASH,
        Syscall::Time => SYS_TIME,
        Syscall::Sysinfo => SYS_SYSINFO,
        Syscall::Getuid => SYS_GETUID,
        Syscall::Setuid => SYS_SETUID,
        Syscall::CreateUser => SYS_CREATE_USER,
        Syscall::LookupUser => SYS_LOOKUP_USER,
        Syscall::GetCwd => SYS_GET_CWD,
        Syscall::SetCwd => SYS_SET_CWD,
        Syscall::GetEnv => SYS_GET_ENV,
        Syscall::SetEnv => SYS_SET_ENV,
        Syscall::FutexWait => SYS_FUTEX_WAIT,
        Syscall::FutexWake => SYS_FUTEX_WAKE,
        Syscall::ThreadSpawn => SYS_THREAD_SPAWN,
        Syscall::ThreadJoin => SYS_THREAD_JOIN,
        Syscall::Waitnb => SYS_WAITNB,
        Syscall::DnsResolve => SYS_DNS_RESOLVE,
        Syscall::TcpConnect => SYS_TCP_CONNECT,
        Syscall::TcpRead => SYS_TCP_READ,
        Syscall::TcpWrite => SYS_TCP_WRITE,
        Syscall::TcpClose => SYS_TCP_CLOSE,
        Syscall::TcpState => SYS_TCP_STATE,
        Syscall::Ps => SYS_PS,
        Syscall::Ask => SYS_ASK,
        Syscall::Agent => SYS_AGENT,
        Syscall::Edit => SYS_EDIT,
        Syscall::Usbinfo => SYS_USBINFO,
    }
}

/// The call a number selects; `None` for a number the kernel does not
/// serve (the call then fails with the error value).
pub fn decode(num: u64) -> (r: Option<Syscall>)
    ensures
        r matches Some(k) ==> number_of(k) == num,
        r is None ==> forall|k: Syscall| number_of(k) != num,
{
    match num {
        SYS_WRITE => Some(Syscall::Write),
        SYS_READ => Some(Syscall::Read),
        SYS_EXIT => Some(Syscall::Exit),
        SYS_YIELD => Some(Syscall::Yield),
        SYS_GETPID => Some(Syscall::Getpid),
        SYS_SLEEP => Some(Syscall::Sleep),
        SYS_INFO => Some(Syscall::Info),
        SYS_OPEN => Some(Syscall::Open),
        SYS_CLOSE => Some(Syscall::Close),
        SYS_FREAD => Some(Syscall::Fread),
        SYS_FWRITE => Some(Syscall::Fwrite),
        SYS_SEEK => Some(Syscall::Seek),
        SYS_STAT => Some(Syscall::Stat),
        SYS_MKDIR => Some(Syscall::Mkdir),
        SYS_UNLINK => Some(Syscall::Unlink),
        SYS_READDIR => Some(Syscall::Readdir),
        SYS_FSYNC => Some(Syscall::Fsync),
        SYS_SEM_CREATE => Some(Syscall::SemCreate),
        SYS_SEM_READ => Some(Syscall::SemRead),
        SYS_SEM_WRITE => Some(Syscall::SemWrite),
        SYS_SEM_DELETE => Some(Syscall::SemDelete),
        SYS_SEM_LINK => Some(Syscall::SemLink),
        SYS_SEM_QUERY => Some(Syscall::SemQuery),
        SYS_SEM_SEARCH => Some(Syscall::SemSearch),
        SYS_SEM_META => Some(Syscall::SemMeta),
        SYS_ALLOC => Some(Syscall::Alloc),
        SYS_FREE => Some(Syscall::Free),
        SYS_POOL_INFO => Some(Syscall::PoolInfo),
        SYS_HEAP_ALLOC => Some(Syscall::HeapAlloc),
        SYS_HEAP_FREE => Some(Syscall::HeapFree),
        SYS_RENAME => Some(Syscall::Rename),
        SYS_TRUNCATE => Some(Syscall::Truncate),
        SYS_STATX => Some(Syscall::Statx),
        SYS_MMAP_ANON => Some(Syscall::MmapAnon),
        SYS_SPAWN => Some(Syscall::Spawn),
        SYS_WAIT => Some(Syscall::Wait),
        SYS_KILL => Some(Syscall::Kill),
        SYS_DUP => Some(Syscall::Dup),
        SYS_DUP2 => Some(Syscall::Dup2),
        SYS_PIPE => Some(Syscall::Pipe),
        SYS_LLM_QUERY => Some(Syscall::LlmQuery),
        SYS_LLM_CONTEXT => Some(Syscall::LlmContext),
        SYS_LLM_REDACT => Some(Syscall::LlmRedact),
        SYS_LLM_SUMMARIZE => Some(Syscall::LlmSummarize),
        SYS_LLM_ACCESS => Some(Syscall::LlmAccess),
        SYS_LLM_STREAM_START => Some(Syscall::LlmStreamStart),
        SYS_LLM_STREAM_READ => Some(Syscall::LlmStreamRead),
        SYS_LLM_SET_POLICY => Some(Syscall::LlmSetPolicy),
        SYS_LLM_GET_POLICY => Some(Syscall::LlmGetPolicy),
        SYS_ENCRYPT => Some(Syscall::Encrypt),
        SYS_DECRYPT => Some(Syscall::Decrypt),
        SYS_HASH => Some(Syscall::Hash),
        SYS_TIME => Some(Syscall::Time),
        SYS_SYSINFO => Some(Syscall::Sysinfo),
        SYS_GETUID => Some(Syscall::Getuid),
        SYS_SETUID => Some(Syscall::Setuid),
        SYS_CREATE_USER => Some(Syscall::CreateUser),
        SYS_LOOKUP_USER => Some(Syscall::LookupUser),
        SYS_GET_CWD => Some(Syscall::GetCwd),
        SYS_SET_CWD => Some(Syscall::SetCwd),
        SYS_GET_ENV => Some(Syscall::GetEnv),
        SYS_SET_ENV => Some(Syscall::SetEnv),
        SYS_FUTEX_WAIT => Some(Syscall::FutexWait),
        SYS_FUTEX_WAKE => Some(Syscall::FutexWake),
        SYS_THREAD_SPAWN => Some(Syscall::ThreadSpawn),
        SYS_THREAD_JOIN => Some(Syscall::ThreadJoin),
        SYS_WAITNB => Some(Syscall::Waitnb),
        SYS_DNS_RESOLVE => Some(Syscall::DnsResolve),
        SYS_TCP_CONNECT => Some(Syscall::TcpConnect),
        SYS_TCP_READ => Some(Syscall::TcpRead),
        SYS_TCP_WRITE => Some(Syscall::TcpWrite),
        SYS_TCP_CLOSE => Some(Syscall::TcpClose),
        SYS_TCP_STATE => Some(Syscall::TcpState),
        SYS_PS => Some(Syscall::Ps),
        SYS_ASK => Some(Syscall::Ask),
        SYS_AGENT => Some(Syscall::Agent),
        SYS_EDIT => Some(Syscall::Edit),
        SYS_USBINFO => Some(Syscall::Usbinfo),
        _ => None,
    }
}

} // verus!
