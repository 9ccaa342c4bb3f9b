//! System-call numbers of the traced architecture (the generic 64-bit table).

use vstd::prelude::*;

verus! {

pub const SYS_GETDENTS64: u64 = 0x3d;
pub const SYS_IOCTL: u64 = 0x1d;
pub const SYS_FACCESSAT: u64 = 0x30;
pub const SYS_OPENAT: u64 = 0x38;
pub const SYS_CLOSE: u64 = 0x39;
pub const SYS_READ: u64 = 0x3f;
pub const SYS_WRITE: u64 = 0x40;
pub const SYS_WRITEV: u64 = 0x42;
pub const SYS_STATFS64: u64 = 0x2b;
pub const SYS_FSTATAT: u64 = 0x4f;
pub const SYS_EXIT_GROUP: u64 = 0x5e;
pub const SYS_SET_TID_ADDRESS: u64 = 0x60;
pub const SYS_SET_ROBUST_LIST: u64 = 0x63;
pub const SYS_CLOCK_GETTIME: u64 = 0x71;
pub const SYS_KILL: u64 = 0x81;
pub const SYS_TGKILL: u64 = 0x83;
pub const SYS_RT_SIGACTION: u64 = 0x86;
pub const SYS_RT_SIGPROCMASK: u64 = 0x87;
pub const SYS_RT_SIGRETURN: u64 = 0x8b;
pub const SYS_UNAME: u64 = 0xa0;
pub const SYS_GETPID: u64 = 0xac;
pub const SYS_GETTID: u64 = 0xb2;
pub const SYS_BRK: u64 = 0xd6;
pub const SYS_MUNMAP: u64 = 0xd7;
pub const SYS_CLONE: u64 = 0xdc;
pub const SYS_EXECVE: u64 = 0xdd;
pub const SYS_MMAP: u64 = 0xde;
pub const SYS_MPROTECT: u64 = 0xe2;
pub const SYS_WAIT4: u64 = 0x104;
pub const SYS_PRLIMIT64: u64 = 0x105;
pub const SYS_GETRANDOM: u64 = 0x116;

} // verus!
