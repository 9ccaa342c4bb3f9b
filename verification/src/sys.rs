//! Resource-limit decoding.

use vstd::prelude::*;
use vstd::bytes::spec_u64_from_le_bytes;
use vstd::string::StringExecFns;
use crate::fmt::{fmt_hex_digits, hex_digits};
use crate::framer::read_u64_at;

verus! {

/// Resource number of the maximum stack size.
pub const RLIMIT_STACK: u64 = 3;

/// Resource number of the maximum number of open files.
pub const RLIMIT_NOFILE: u64 = 7;

/// A resource limit: its current (soft) and maximum (hard) values.
#[derive(Clone, Copy, Debug)]
pub struct RLimit64 {
    pub rlim_cur: u64,
    pub rlim_max: u64,
}

/// The display of a resource limit.
pub open spec fn spec_rlimit_repr(r: RLimit64) -> Seq<char> {
    "RLimit64 {cur:"@ + hex_digits(r.rlim_cur as nat) + " max:"@ + hex_digits(r.rlim_max as nat)
        + "}"@
}

impl RLimit64 {
    /// Decodes a limit from its 16-byte buffer.
    pub fn from_bytes(b: &[u8]) -> (r: Self)
        requires
            b@.len() >= 16,
        ensures
            r.rlim_cur == spec_u64_from_le_bytes(b@.subrange(0, 8)),
            r.rlim_max == spec_u64_from_le_bytes(b@.subrange(8, 16)),
    {
        RLimit64 { rlim_cur: read_u64_at(b, 0), rlim_max: read_u64_at(b, 8) }
    }

    /// Renders the limit as text.
    pub fn render(&self) -> (r: String)
        ensures
            r@ == spec_rlimit_repr(*self),
    {
        let mut s = String::from_str("RLimit64 {cur:");
        let part = fmt_hex_digits(self.rlim_cur);
        s.append(part.as_str());
        s.append(" max:");
        let part = fmt_hex_digits(self.rlim_max);
        s.append(part.as_str());
        s.append("}");
        s
    }
}

} // verus!
