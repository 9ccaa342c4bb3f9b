//! Names for the errno values that decoded results may carry.

use vstd::prelude::*;

verus! {

/// No such file or directory
pub const ENOENT: i32 = 2;

/// No child processes
pub const ECHILD: i32 = 10;

/// Not a directory
pub const ENOTDIR: i32 = 20;

/// Is a directory
pub const EISDIR: i32 = 21;

/// Invalid argument
pub const EINVAL: i32 = 22;

/// The text `errno_name` returns for a raw result value.
pub open spec fn spec_errno_name(err: int) -> Seq<char> {
    if err == 0 {
        "OK"@
    } else if err == -2 {
        "ENOENT"@
    } else if err == -10 {
        "ECHILD"@
    } else if err == -20 {
        "ENOTDIR"@
    } else if err == -21 {
        "EISDIR"@
    } else if err == -22 {
        "EINVAL"@
    } else {
        "Unknown errno"@
    }
}

/// Name of the errno carried by a non-positive syscall result.
pub fn errno_name(err: i64) -> (r: &'static str)
    ensures
        r@ == spec_errno_name(err as i32 as int),
{
    let err: i32 = err as i32;
    if err == 0 {
        "OK"
    } else if err == -ENOENT {
        "ENOENT"
    } else if err == -ECHILD {
        "ECHILD"
    } else if err == -ENOTDIR {
        "ENOTDIR"
    } else if err == -EISDIR {
        "EISDIR"
    } else if err == -EINVAL {
        "EINVAL"
    } else {
        "Unknown errno"
    }
}

} // verus!
