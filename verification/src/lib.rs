//! Decoder for binary system-call trace streams.
//!
//! An instrumented kernel logs every syscall entry, exit, and asynchronous
//! signal delivery of all observed execution contexts into one append-only
//! byte stream.  This library frames that stream into events, reconstructs
//! per-context flows of matched request/response pairs (handling clone/vfork
//! fusion and signal interposition), and renders each matched call as text.

use vstd::prelude::*;

pub mod errno;
pub mod event;
pub mod flow;
pub mod fmt;
pub mod framer;
pub mod fs;
pub mod mmap;
pub mod render;
pub mod run;
pub mod signal;
pub mod sys;
pub mod sysno;
pub mod systable;

verus! {

/// Direction tag of a request (syscall entry) record.
pub const IN: u64 = 0;

/// Direction tag of a response (syscall exit) record.
pub const OUT: u64 = 1;

/// Trap cause recorded for a syscall trap from user mode.
pub const USER_ECALL: u64 = 8;

} // verus!
