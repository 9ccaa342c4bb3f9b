//! Signal names and the decoded signal action.

use vstd::prelude::*;
use vstd::bytes::spec_u64_from_le_bytes;
use vstd::string::StringExecFns;
use crate::fmt::{dec_digits, fmt_dec_u64, spec_hex, fmt_hex};
use crate::framer::read_u64_at;

verus! {

/// The display name of a signal number: the standard name for 1 to 31,
/// otherwise `SIG` followed by the number.
pub open spec fn spec_sig_name(signo: u64) -> Seq<char> {
    if signo == 1 {
        "SIGHUP"@
    } else if signo == 2 {
        "SIGINT"@
    } else if signo == 3 {
        "SIGQUIT"@
    } else if signo == 4 {
        "SIGILL"@
    } else if signo == 5 {
        "SIGTRAP"@
    } else if signo == 6 {
        "SIGABRT"@
    } else if signo == 7 {
        "SIGBUS"@
    } else if signo == 8 {
        "SIGFPE"@
    } else if signo == 9 {
        "SIGKILL"@
    } else if signo == 10 {
        "SIGUSR1"@
    } else if signo == 11 {
        "SIGSEGV"@
    } else if signo == 12 {
        "SIGUSR2"@
    } else if signo == 13 {
        "SIGPIPE"@
    } else if signo == 14 {
        "SIGALRM"@
    } else if signo == 15 {
        "SIGTERM"@
    } else if signo == 16 {
        "SIGSTKFLT"@
    } else if signo == 17 {
        "SIGCHLD"@
    } else if signo == 18 {
        "SIGCONT"@
    } else if signo == 19 {
        "SIGSTOP"@
    } else if signo == 20 {
        "SIGTSTP"@
    } else if signo == 21 {
        "SIGTTIN"@
    } else if signo == 22 {
        "SIGTTOU"@
    } else if signo == 23 {
        "SIGURG"@
    } else if signo == 24 {
        "SIGXCPU"@
    } else if signo == 25 {
        "SIGXFSZ"@
    } else if signo == 26 {
        "SIGVTALRM"@
    } else if signo == 27 {
        "SIGPROF"@
    } else if signo == 28 {
        "SIGWINCH"@
    } else if signo == 29 {
        "SIGIO"@
    } else if signo == 30 {
        "SIGPWR"@
    } else if signo == 31 {
        "SIGSYS"@
    } else {
        "SIG"@ + dec_digits(signo as nat)
    }
}

/// The display name of a signal number.
pub fn sig_name(signo: u64) -> (r: String)
    ensures
        r@ == spec_sig_name(signo),
{
    if signo == 1 {
        String::from_str("SIGHUP")
    } else if signo == 2 {
        String::from_str("SIGINT")
    } else if signo == 3 {
        String::from_str("SIGQUIT")
    } else if signo == 4 {
        String::from_str("SIGILL")
    } else if signo == 5 {
        String::from_str("SIGTRAP")
    } else if signo == 6 {
        String::from_str("SIGABRT")
    } else if signo == 7 {
        String::from_str("SIGBUS")
    } else if signo == 8 {
        String::from_str("SIGFPE")
    } else if signo == 9 {
        String::from_str("SIGKILL")
    } else if signo == 10 {
        String::from_str("SIGUSR1")
    } else if signo == 11 {
        String::from_str("SIGSEGV")
    } else if signo == 12 {
        String::from_str("SIGUSR2")
    } else if signo == 13 {
        String::from_str("SIGPIPE")
    } else if signo == 14 {
        String::from_str("SIGALRM")
    } else if signo == 15 {
        String::from_str("SIGTERM")
    } else if signo == 16 {
        String::from_str("SIGSTKFLT")
    } else if signo == 17 {
        String::from_str("SIGCHLD")
    } else if signo == 18 {
        String::from_str("SIGCONT")
    } else if signo == 19 {
        String::from_str("SIGSTOP")
    } else if signo == 20 {
        String::from_str("SIGTSTP")
    } else if signo == 21 {
        String::from_str("SIGTTIN")
    } else if signo == 22 {
        String::from_str("SIGTTOU")
    } else if signo == 23 {
        String::from_str("SIGURG")
    } else if signo == 24 {
        String::from_str("SIGXCPU")
    } else if signo == 25 {
        String::from_str("SIGXFSZ")
    } else if signo == 26 {
        String::from_str("SIGVTALRM")
    } else if signo == 27 {
        String::from_str("SIGPROF")
    } else if signo == 28 {
        String::from_str("SIGWINCH")
    } else if signo == 29 {
        String::from_str("SIGIO")
    } else if signo == 30 {
        String::from_str("SIGPWR")
    } else if signo == 31 {
        String::from_str("SIGSYS")
    } else {
        let mut s = String::from_str("SIG");
        let d = fmt_dec_u64(signo);
        s.append(d.as_str());
        s
    }
}

/// A decoded signal action: the handler's entry address, its flags, and
/// its signal mask.
#[derive(Clone, Copy, Debug)]
pub struct SigAction {
    pub handler: u64,
    pub flags: u64,
    pub mask: u64,
}

/// `a` holds exactly the fields of the 24-byte signal action at the front
/// of `b`.
pub open spec fn sigaction_matches(a: SigAction, b: Seq<u8>) -> bool {
    &&& a.handler == spec_u64_from_le_bytes(b.subrange(0, 8))
    &&& a.flags == spec_u64_from_le_bytes(b.subrange(8, 16))
    &&& a.mask == spec_u64_from_le_bytes(b.subrange(16, 24))
}

/// The display of a signal action.
pub open spec fn spec_sigaction_repr(a: SigAction) -> Seq<char> {
    "{handler: "@ + spec_hex(a.handler as nat) + ", flags: "@ + spec_hex(a.flags as nat)
        + ", mask: "@ + spec_hex(a.mask as nat) + "}"@
}

impl SigAction {
    /// Decodes a signal action from its first 24 bytes.
    pub fn from_bytes(b: &[u8]) -> (r: Self)
        requires
            b@.len() >= 24,
        ensures
            sigaction_matches(r, b@.subrange(0, 24)),
    {
        let ghost pre = b@.subrange(0, 24);
        proof {
            assert(pre.subrange(0, 8) =~= b@.subrange(0, 8));
            assert(pre.subrange(8, 16) =~= b@.subrange(8, 16));
            assert(pre.subrange(16, 24) =~= b@.subrange(16, 24));
        }
        SigAction {
            handler: read_u64_at(b, 0),
            flags: read_u64_at(b, 8),
            mask: read_u64_at(b, 16),
        }
    }

    /// Renders the action as text.
    pub fn render(&self) -> (r: String)
        ensures
            r@ == spec_sigaction_repr(*self),
    {
        let mut s = String::from_str("{handler: ");
        let part = fmt_hex(self.handler);
        s.append(part.as_str());
        s.append(", flags: ");
        let part = fmt_hex(self.flags);
        s.append(part.as_str());
        s.append(", mask: ");
        let part = fmt_hex(self.mask);
        s.append(part.as_str());
        s.append("}");
        s
    }
}

} // verus!
