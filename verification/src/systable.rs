//! Query a syscall's name from its number.

use vstd::prelude::*;

verus! {

/// The numbers this table knows a name for.
pub open spec fn known_sysno(sysno: usize) -> bool {
    ||| sysno == 0x1d
    ||| sysno == 0x30
    ||| sysno == 0x38
    ||| sysno == 0x39
    ||| sysno == 0x3f
    ||| sysno == 0x40
    ||| sysno == 0x4f
    ||| sysno == 0x5e
    ||| sysno == 0x60
    ||| sysno == 0x63
    ||| sysno == 0xa0
    ||| sysno == 0xd6
    ||| sysno == 0xde
    ||| sysno == 0xe2
    ||| sysno == 0x105
    ||| sysno == 0x116
}

/// The name of a known syscall number.
pub open spec fn spec_sys_name(sysno: usize) -> Seq<char> {
    if sysno == 0x1d {
        "ioctl"@
    } else if sysno == 0x30 {
        "faccessat"@
    } else if sysno == 0x38 {
        "openat"@
    } else if sysno == 0x39 {
        "close"@
    } else if sysno == 0x3f {
        "read"@
    } else if sysno == 0x40 {
        "write"@
    } else if sysno == 0x4f {
        "fstatat"@
    } else if sysno == 0x5e {
        "exit_group"@
    } else if sysno == 0x60 {
        "set_tid_address"@
    } else if sysno == 0x63 {
        "set_robust_list"@
    } else if sysno == 0xa0 {
        "uname"@
    } else if sysno == 0xd6 {
        "brk"@
    } else if sysno == 0xde {
        "mmap"@
    } else if sysno == 0xe2 {
        "mprotect"@
    } else if sysno == 0x105 {
        "prlimit64"@
    } else {
        "getrandom"@
    }
}

/// The name of a syscall number the table knows.
pub fn name(sysno: usize) -> (r: &'static str)
    requires
        known_sysno(sysno),
    ensures
        r@ == spec_sys_name(sysno),
{
    if sysno == 0x1d {
        "ioctl"
    } else if sysno == 0x30 {
        "faccessat"
    } else if sysno == 0x38 {
        "openat"
    } else if sysno == 0x39 {
        "close"
    } else if sysno == 0x3f {
        "read"
    } else if sysno == 0x40 {
        "write"
    } else if sysno == 0x4f {
        "fstatat"
    } else if sysno == 0x5e {
        "exit_group"
    } else if sysno == 0x60 {
        "set_tid_address"
    } else if sysno == 0x63 {
        "set_robust_list"
    } else if sysno == 0xa0 {
        "uname"
    } else if sysno == 0xd6 {
        "brk"
    } else if sysno == 0xde {
        "mmap"
    } else if sysno == 0xe2 {
        "mprotect"
    } else if sysno == 0x105 {
        "prlimit64"
    } else {
        "getrandom"
    }
}

} // verus!
