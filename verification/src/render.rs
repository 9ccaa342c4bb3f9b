//! Per-syscall rendering: decoded arguments and result text for each
//! matched call.
//!
//! The renderer is contractually non-failing: an unknown syscall renders
//! under a fixed fallback label with raw hex arguments, and a payload that
//! cannot be decoded renders as a fixed parse-error marker rather than
//! propagating any failure.

use vstd::prelude::*;
use vstd::bytes::spec_u64_from_le_bytes;
use vstd::pervasive::VecAdditionalExecFns;
use vstd::slice::slice_subrange;
use vstd::string::StringExecFns;
use vstd::utf8::{decode_utf8, valid_utf8};
use crate::errno::{errno_name, spec_errno_name};
use crate::event::SigStage;
use crate::sysno::{SYS_BRK, SYS_CLOCK_GETTIME, SYS_CLONE, SYS_CLOSE, SYS_EXECVE, SYS_EXIT_GROUP,
    SYS_FACCESSAT, SYS_FSTATAT, SYS_GETDENTS64, SYS_GETPID, SYS_GETRANDOM, SYS_GETTID, SYS_IOCTL,
    SYS_KILL, SYS_MMAP, SYS_MPROTECT, SYS_OPENAT, SYS_PRLIMIT64, SYS_READ, SYS_RT_SIGACTION,
    SYS_RT_SIGPROCMASK, SYS_SET_ROBUST_LIST, SYS_SET_TID_ADDRESS, SYS_STATFS64, SYS_TGKILL,
    SYS_UNAME, SYS_WAIT4, SYS_WRITE, SYS_WRITEV};
use crate::event::{EventModel, PayloadModel, TraceEvent, TracePayload};
use crate::fmt::{
    dec_digits, fmt_dec_i64, fmt_dec_u64, fmt_hex, fmt_quoted, join_sep, push_char, spec_dec_int,
    spec_hex, spec_join_sep, spec_oct, spec_quoted, fmt_oct,
};
use crate::framer::{read_u32_at, read_u64_at};
use crate::mmap::{map_name, prot_name, spec_map_names, spec_prot_name};
use crate::signal::{sig_name, spec_sig_name, spec_sigaction_repr, SigAction};
use crate::fs::{lemma_fsinfo_of, spec_fsinfo_of, spec_fsinfo_repr, FileSystemInfo};

verus! {

/// The `openat` file-descriptor value that names the current directory.
pub const AT_FDCWD: u64 = 0xffffffffffffff9cu64;

/// The marker shown where embedded bytes cannot be decoded as text.
pub const PARSE_ERR_MARKER: &'static str = "[!parse_str_err!]";

/// The views of a list of rendered arguments.
pub open spec fn views_of(args: Seq<String>) -> Seq<Seq<char>> {
    args.map_values(|s: String| s@)
}

/// Index of the first zero byte, or -1 when none occurs.
pub open spec fn nul_pos(s: Seq<u8>) -> int
    decreases s.len(),
{
    if s.len() == 0 {
        -1
    } else if s[0] == 0 {
        0
    } else {
        let r = nul_pos(s.drop_first());
        if r < 0 {
            -1
        } else {
            1 + r
        }
    }
}

/// `nul_pos` finds the first zero byte, and a negative result means none
/// occurs.
pub proof fn lemma_nul_pos(s: Seq<u8>)
    ensures
        -1 <= nul_pos(s) < s.len(),
        nul_pos(s) >= 0 ==> s[nul_pos(s)] == 0,
        nul_pos(s) >= 0 ==> forall|j: int| 0 <= j < nul_pos(s) ==> s[j] != 0,
        nul_pos(s) == -1 ==> forall|j: int| 0 <= j < s.len() ==> s[j] != 0,
    decreases s.len(),
{
    if s.len() > 0 && s[0] != 0 {
        lemma_nul_pos(s.drop_first());
        if nul_pos(s) >= 0 {
            assert forall|j: int| 0 <= j < nul_pos(s) implies s[j] != 0 by {
                if j >= 1 {
                    assert(s[j] == s.drop_first()[j - 1]);
                }
            }
        } else {
            assert forall|j: int| 0 <= j < s.len() implies s[j] != 0 by {
                if j >= 1 {
                    assert(s[j] == s.drop_first()[j - 1]);
                }
            }
        }
    }
}

/// Position of the first zero byte of the slice, if any.
fn find_nul(data: &[u8]) -> (r: Option<usize>)
    ensures
        match r {
            Some(i) => nul_pos(data@) == i && i < data@.len(),
            None => nul_pos(data@) == -1,
        },
{
    let mut i: usize = 0;
    while i < data.len() && data[i] != 0
        invariant
            i <= data@.len(),
            forall|j: int| 0 <= j < i ==> data@[j] != 0,
        decreases data@.len() - i,
    {
        i = i + 1;
    }
    proof {
        lemma_nul_pos(data@);
        let p = nul_pos(data@);
        if i < data@.len() {
            if p == -1 {
                assert(data@[i as int] != 0);
            } else if p < i {
                assert(data@[p] != 0);
            } else if p > i {
                assert(data@[i as int] != 0);
            }
        } else if p >= 0 {
            assert(data@[p] != 0);
        }
    }
    if i < data.len() {
        Some(i)
    } else {
        None
    }
}

/// Relies on `core::str::from_utf8`: it returns a string slice exactly
/// when the bytes are valid UTF-8, and that slice holds the characters
/// the bytes encode.
#[verifier::external_body]
fn bytes_to_str<'a>(b: &'a [u8]) -> (r: Option<&'a str>)
    ensures
        r is Some <==> valid_utf8(b@),
        r is Some ==> r->0@ == decode_utf8(b@),
{
    core::str::from_utf8(b).ok()
}

/// The display of a C string holding a file path: the bytes up to the
/// first zero, quoted verbatim when they are valid UTF-8, else the
/// parse-error marker; a string with no terminator is unreadable too.
pub open spec fn spec_path_repr(data: Seq<u8>) -> Seq<char> {
    if nul_pos(data) >= 0 && valid_utf8(data.take(nul_pos(data))) {
        seq!['"'] + decode_utf8(data.take(nul_pos(data))) + seq!['"']
    } else {
        "[!parse_str_err!]"@
    }
}

/// Renders a payload that carries a path.
pub fn path_repr(data: &Vec<u8>) -> (r: String)
    ensures
        r@ == spec_path_repr(data@),
{
    match find_nul(data.as_slice()) {
        Some(n) => {
            let prefix = slice_subrange(data.as_slice(), 0, n);
            proof {
                assert(prefix@ =~= data@.take(nul_pos(data@)));
            }
            match bytes_to_str(prefix) {
                Some(text) => {
                    let mut s = String::new();
                    push_char(&mut s, '"');
                    s.append(text);
                    push_char(&mut s, '"');
                    proof {
                        assert(s@ =~= spec_path_repr(data@));
                    }
                    s
                },
                None => String::from_str(PARSE_ERR_MARKER),
            }
        },
        None => String::from_str(PARSE_ERR_MARKER),
    }
}

/// The display of a C string holding arbitrary bytes: the bytes up to the
/// first zero, quoted with escapes, or the parse-error marker when no
/// terminator occurs.
pub open spec fn spec_cstr_debug(data: Seq<u8>) -> Seq<char> {
    if nul_pos(data) >= 0 {
        spec_quoted(data.take(nul_pos(data)))
    } else {
        "[!parse_str_err!]"@
    }
}

/// Renders a payload that carries a text buffer.
pub fn cstr_debug(data: &Vec<u8>) -> (r: String)
    ensures
        r@ == spec_cstr_debug(data@),
{
    match find_nul(data.as_slice()) {
        Some(n) => {
            let prefix = slice_subrange(data.as_slice(), 0, n);
            proof {
                assert(prefix@ =~= data@.take(nul_pos(data@)));
            }
            fmt_quoted(prefix)
        },
        None => String::from_str(PARSE_ERR_MARKER),
    }
}

/// What one syscall renderer produces: the call's display name, how many
/// arguments it shows, its result text, and the argument texts after the
/// per-syscall decoders ran.
#[verifier::ext_equal]
pub struct RenderModel {
    pub name: Seq<char>,
    pub argc: int,
    pub result: Seq<char>,
    pub args: Seq<Seq<char>>,
}

/// The common result text: an errno name for a zero-or-negative result,
/// else the value in hexadecimal.
pub open spec fn spec_result_common(result: u64) -> Seq<char> {
    if result as i64 <= 0 {
        spec_errno_name(result as i64 as i32 as int)
    } else {
        spec_hex(result as nat)
    }
}

/// Replaces one rendered argument.
fn set_arg(args: &mut Vec<String>, i: usize, v: String)
    requires
        i < old(args)@.len(),
    ensures
        final(args)@.len() == old(args)@.len(),
        views_of(final(args)@) == views_of(old(args)@).update(i as int, v@),
{
    let ghost before = views_of(args@);
    args.set(i, v);
    proof {
        assert(views_of(args@) =~= before.update(i as int, v@));
    }
}

/// The argument list with register 0 renamed to `AT_FDCWD` when it holds
/// that value.
pub open spec fn spec_at_fdcwd(e: EventModel, args: Seq<Seq<char>>) -> Seq<Seq<char>> {
    if e.head.ax@[0] == AT_FDCWD && args.len() > 0 {
        args.update(0, "AT_FDCWD"@)
    } else {
        args
    }
}

/// The argument list with the path payload rendered into its slot.
pub open spec fn spec_path_args(e: EventModel, args: Seq<Seq<char>>) -> Seq<Seq<char>> {
    if e.payloads.len() >= 1 && e.payloads[0].index < args.len() {
        args.update(e.payloads[0].index as int, spec_path_repr(e.payloads[0].data))
    } else {
        args
    }
}

/// The display of a stat payload: the decoded buffer, or the parse-error
/// marker when the block is too short to hold one.
pub open spec fn spec_stat_payload(p: PayloadModel) -> Seq<char> {
    if p.data.len() >= 120 {
        spec_stat_repr(p.data)
    } else {
        "[!parse_str_err!]"@
    }
}

/// The display of the interesting fields of a stat buffer.
pub open spec fn spec_stat_repr(b: Seq<u8>) -> Seq<char> {
    "{dev="@ + spec_hex(spec_u64_from_le_bytes(b.subrange(0, 8)) as nat) + ", ino="@ + dec_digits(
        spec_u64_from_le_bytes(b.subrange(8, 16)) as nat,
    ) + ", mode="@ + spec_oct(crate::framer::spec_u32_at(b, 16) as nat) + ", nlink="@ + dec_digits(
        crate::framer::spec_u32_at(b, 20) as nat,
    ) + ", rdev="@ + dec_digits(spec_u64_from_le_bytes(b.subrange(32, 40)) as nat) + ", size="@
        + dec_digits(spec_u64_from_le_bytes(b.subrange(48, 56)) as nat) + ", blksize="@
        + dec_digits(crate::framer::spec_u32_at(b, 56) as nat) + ", blocks="@ + dec_digits(
        spec_u64_from_le_bytes(b.subrange(64, 72)) as nat,
    ) + "}"@
}

/// The stat buffer a `fstatat` response documents, decoded field by field.
#[derive(Clone, Copy, Debug)]
pub struct KStat {
    pub st_dev: u64,
    pub st_ino: u64,
    pub st_mode: u32,
    pub st_nlink: u32,
    pub st_uid: u32,
    pub st_gid: u32,
    pub st_rdev: u64,
    pub st_size: u64,
    pub st_blksize: u32,
    pub st_blocks: u64,
}

impl KStat {
    /// Decodes the buffer from its first 120 bytes.
    pub fn from_bytes(b: &[u8]) -> (r: Self)
        requires
            b@.len() >= 120,
        ensures
            r.st_dev == spec_u64_from_le_bytes(b@.subrange(0, 8)),
            r.st_ino == spec_u64_from_le_bytes(b@.subrange(8, 16)),
            r.st_mode == crate::framer::spec_u32_at(b@, 16),
            r.st_nlink == crate::framer::spec_u32_at(b@, 20),
            r.st_uid == crate::framer::spec_u32_at(b@, 24),
            r.st_gid == crate::framer::spec_u32_at(b@, 28),
            r.st_rdev == spec_u64_from_le_bytes(b@.subrange(32, 40)),
            r.st_size == spec_u64_from_le_bytes(b@.subrange(48, 56)),
            r.st_blksize == crate::framer::spec_u32_at(b@, 56),
            r.st_blocks == spec_u64_from_le_bytes(b@.subrange(64, 72)),
    {
        KStat {
            st_dev: read_u64_at(b, 0),
            st_ino: read_u64_at(b, 8),
            st_mode: read_u32_at(b, 16),
            st_nlink: read_u32_at(b, 20),
            st_uid: read_u32_at(b, 24),
            st_gid: read_u32_at(b, 28),
            st_rdev: read_u64_at(b, 32),
            st_size: read_u64_at(b, 48),
            st_blksize: read_u32_at(b, 56),
            st_blocks: read_u64_at(b, 64),
        }
    }
}

impl TraceEvent {
    /// The common rendering: the given name and argument count, and the
    /// errno-or-hex result text.
    pub fn do_common(&self, name: &'static str, argc: usize) -> (r: (
        &'static str,
        usize,
        String,
    ))
        ensures
            r.0 == name,
            r.1 == argc,
            r.2@ == spec_result_common(self.result),
    {
        if (self.result as i64) <= 0 {
            (name, argc, String::from_str(errno_name(self.result as i64)))
        } else {
            (name, argc, fmt_hex(self.result))
        }
    }

    /// Renders the path payload into its argument slot.
    pub fn do_path(&self, args: &mut Vec<String>)
        ensures
            final(args)@.len() == old(args)@.len(),
            views_of(final(args)@) == spec_path_args(self@, views_of(old(args)@)),
    {
        if self.payloads.len() >= 1 {
            let idx = self.payloads[0].index;
            proof {
                assert(self@.payloads[0] == self.payloads@[0]@);
            }
            if idx < args.len() {
                let v = path_repr(&self.payloads[0].data);
                set_arg(args, idx, v);
            }
        }
    }

    /// Renders an `openat` call.
    pub fn do_openat(&self, args: &mut Vec<String>) -> (r: (&'static str, usize, String))
        ensures
            final(args)@.len() == old(args)@.len(),
            views_of(final(args)@) == spec_path_args(
                self@,
                spec_at_fdcwd(self@, views_of(old(args)@)),
            ),
            r.0 == "openat",
            r.1 == 4,
            r.2@ == spec_result_common(self.result),
    {
        if self.head.ax[0] == AT_FDCWD && args.len() > 0 {
            set_arg(args, 0, String::from_str("AT_FDCWD"));
        }
        self.do_path(args);
        self.do_common("openat", 4)
    }

    /// Renders a `faccessat` call; it shows three arguments, since the
    /// four-argument form is `faccessat2`.
    pub fn do_faccessat(&self, args: &mut Vec<String>) -> (r: (&'static str, usize, String))
        ensures
            final(args)@.len() == old(args)@.len(),
            views_of(final(args)@) == spec_path_args(
                self@,
                spec_at_fdcwd(self@, views_of(old(args)@)),
            ),
            r.0 == "faccessat",
            r.1 == 3,
            r.2@ == spec_result_common(self.result),
    {
        if self.head.ax[0] == AT_FDCWD && args.len() > 0 {
            set_arg(args, 0, String::from_str("AT_FDCWD"));
        }
        self.do_path(args);
        self.do_common("faccessat", 3)
    }
}

/// One stat payload applied to the argument list: a block for slot 2
/// renders the buffer there.
pub open spec fn apply_stat(args: Seq<Seq<char>>, p: PayloadModel) -> Seq<Seq<char>> {
    if p.index == 2 && 2 < args.len() {
        args.update(2, spec_stat_payload(p))
    } else {
        args
    }
}

/// All stat payloads applied in order.
pub open spec fn spec_stat_args(ps: Seq<PayloadModel>, args: Seq<Seq<char>>) -> Seq<Seq<char>>
    decreases ps.len(),
{
    if ps.len() == 0 {
        args
    } else {
        spec_stat_args(ps.drop_first(), apply_stat(args, ps[0]))
    }
}

/// The display of one field of the uname buffer.
pub open spec fn spec_uname_field(data: Seq<u8>, i: int) -> Seq<char> {
    spec_cstr_debug(data.subrange(65 * i, 65 * i + 65))
}

/// The display of the uname buffer: its six fields, quoted, joined by a
/// comma, between braces.
pub open spec fn spec_uname_repr(data: Seq<u8>) -> Seq<char> {
    seq!['{'] + spec_join_sep(
        seq![
            spec_uname_field(data, 0),
            spec_uname_field(data, 1),
            spec_uname_field(data, 2),
            spec_uname_field(data, 3),
            spec_uname_field(data, 4),
            spec_uname_field(data, 5),
        ],
        ", "@,
    ) + seq!['}']
}

/// The signal action encoded at the front of `b`.
pub open spec fn spec_action_of(b: Seq<u8>) -> SigAction {
    SigAction {
        handler: spec_u64_from_le_bytes(b.subrange(0, 8)),
        flags: spec_u64_from_le_bytes(b.subrange(8, 16)),
        mask: spec_u64_from_le_bytes(b.subrange(16, 24)),
    }
}

/// Decodes the signal action a response's first payload block carries,
/// and names the slot it documents.
pub fn parse_sigaction(evt: &TraceEvent) -> (r: (SigAction, usize))
    requires
        evt.payloads@.len() >= 1,
        evt.payloads@[0]@.data.len() >= 24,
    ensures
        r.0 == spec_action_of(evt@.payloads[0].data),
        r.1 == evt@.payloads[0].index,
{
    let p = &evt.payloads[0];
    proof {
        assert(evt@.payloads[0] == evt.payloads@[0]@);
    }
    let a = SigAction::from_bytes(p.data.as_slice());
    proof {
        assert(p.data@.subrange(0, 24).subrange(0, 8) =~= p.data@.subrange(0, 8));
        assert(p.data@.subrange(0, 24).subrange(8, 16) =~= p.data@.subrange(8, 16));
        assert(p.data@.subrange(0, 24).subrange(16, 24) =~= p.data@.subrange(16, 24));
    }
    (a, p.index)
}

impl TraceEvent {
    /// Renders one stat payload: the decoded buffer, or the parse-error
    /// marker when the block is too short.
    pub fn handle_stat(&self, payload: &TracePayload) -> (r: String)
        ensures
            r@ == spec_stat_payload(payload@),
    {
        if payload.data.len() >= 120 {
            let k = KStat::from_bytes(payload.data.as_slice());
            let mut s = String::from_str("{dev=");
            let part = fmt_hex(k.st_dev);
            s.append(part.as_str());
            s.append(", ino=");
            let part = fmt_dec_u64(k.st_ino);
            s.append(part.as_str());
            s.append(", mode=");
            let part = fmt_oct(k.st_mode as u64);
            s.append(part.as_str());
            s.append(", nlink=");
            let part = fmt_dec_u64(k.st_nlink as u64);
            s.append(part.as_str());
            s.append(", rdev=");
            let part = fmt_dec_u64(k.st_rdev);
            s.append(part.as_str());
            s.append(", size=");
            let part = fmt_dec_u64(k.st_size);
            s.append(part.as_str());
            s.append(", blksize=");
            let part = fmt_dec_u64(k.st_blksize as u64);
            s.append(part.as_str());
            s.append(", blocks=");
            let part = fmt_dec_u64(k.st_blocks);
            s.append(part.as_str());
            s.append("}");
            proof {
                assert(s@ =~= spec_stat_repr(payload.data@));
            }
            s
        } else {
            String::from_str(PARSE_ERR_MARKER)
        }
    }

    /// Renders an `fstatat` call: directory argument, path, and — on
    /// success — the returned stat buffer.
    pub fn do_fstatat(&self, args: &mut Vec<String>) -> (r: (&'static str, usize, String))
        requires
            old(args)@.len() == 7,
        ensures
            final(args)@.len() == 7,
            views_of(final(args)@) == ({
                let a = spec_path_args(self@, spec_at_fdcwd(self@, views_of(old(args)@)));
                if self.result == 0 {
                    spec_stat_args(self@.payloads, a)
                } else {
                    a
                }
            }),
            r.0 == "fstatat",
            r.1 == 4,
            r.2@ == spec_result_common(self.result),
    {
        if self.head.ax[0] == AT_FDCWD {
            set_arg(args, 0, String::from_str("AT_FDCWD"));
        }
        self.do_path(args);
        if self.result == 0 {
            let ghost ps = self@.payloads;
            let ghost base = views_of(args@);
            let mut i: usize = 0;
            proof {
                assert(ps.skip(0) =~= ps);
            }
            while i < self.payloads.len()
                invariant
                    i <= self.payloads@.len(),
                    ps == self@.payloads,
                    ps.len() == self.payloads@.len(),
                    args@.len() == 7,
                    spec_stat_args(ps.skip(i as int), views_of(args@)) == spec_stat_args(ps, base),
                decreases self.payloads@.len() - i,
            {
                let ghost rem = ps.skip(i as int);
                proof {
                    assert(rem.drop_first() =~= ps.skip(i + 1));
                    assert(rem[0] == ps[i as int]);
                    assert(ps[i as int] == self.payloads@[i as int]@);
                }
                let p = &self.payloads[i];
                if p.index == 2 {
                    let v = self.handle_stat(p);
                    set_arg(args, 2, v);
                }
                i = i + 1;
            }
            proof {
                assert(ps.skip(ps.len() as int) =~= Seq::<PayloadModel>::empty());
            }
        }
        self.do_common("fstatat", 4)
    }

    /// Renders a `uname` call: the six fields of the returned buffer.
    pub fn do_uname(&self, args: &mut Vec<String>) -> (r: (&'static str, usize, String))
        requires
            old(args)@.len() == 7,
        ensures
            final(args)@.len() == 7,
            views_of(final(args)@) == ({
                let a = views_of(old(args)@);
                if self@.payloads.len() == 1 && self@.payloads[0].index == 0
                    && self@.payloads[0].data.len() >= 390 {
                    a.update(0, spec_uname_repr(self@.payloads[0].data))
                } else {
                    a
                }
            }),
            r.0 == "uname",
            r.1 == 1,
            r.2@ == spec_hex(self.result as nat),
    {
        if self.payloads.len() == 1 {
            proof {
                assert(self@.payloads[0] == self.payloads@[0]@);
            }
            let p = &self.payloads[0];
            if p.index == 0 && p.data.len() >= 390 {
                let ghost data = p.data@;
                let mut parts: Vec<String> = Vec::new();
                let mut i: usize = 0;
                while i < 6
                    invariant
                        i <= 6,
                        data == p.data@,
                        data.len() >= 390,
                        parts@.len() == i,
                        forall|j: int|
                            0 <= j < i ==> (#[trigger] parts@[j])@ == spec_uname_field(data, j),
                    decreases 6 - i,
                {
                    let field = slice_subrange(p.data.as_slice(), 65 * i, 65 * i + 65);
                    proof {
                        assert(field@ =~= data.subrange(65 * (i as int), 65 * (i as int) + 65));
                    }
                    let v = cstr_debug_slice(field);
                    parts.push(v);
                    i = i + 1;
                }
                let joined = join_sep(&parts, 6, ", ");
                let mut s = String::new();
                push_char(&mut s, '{');
                s.append(joined.as_str());
                push_char(&mut s, '}');
                proof {
                    assert(parts@.take(6).map_values(|q: String| q@) =~= seq![
                        spec_uname_field(data, 0),
                        spec_uname_field(data, 1),
                        spec_uname_field(data, 2),
                        spec_uname_field(data, 3),
                        spec_uname_field(data, 4),
                        spec_uname_field(data, 5),
                    ]);
                    assert(s@ =~= spec_uname_repr(data));
                }
                set_arg(args, 0, s);
            }
        }
        (
            "uname",
            1,
            fmt_hex(self.result),
        )
    }

    /// Renders an `mmap` call: protection and mapping flags by name, the
    /// file descriptor signed, and `MAP_FAILED` for a failed mapping.
    pub fn do_mmap(&self, args: &mut Vec<String>) -> (r: (&'static str, usize, String))
        requires
            old(args)@.len() == 7,
        ensures
            final(args)@.len() == 7,
            views_of(final(args)@) == ({
                let a = if self@.head.ax@[0] == 0 {
                    views_of(old(args)@).update(0, "NULL"@)
                } else {
                    views_of(old(args)@)
                };
                a.update(2, spec_prot_name(self@.head.ax@[2])).update(
                    3,
                    spec_join_sep(spec_map_names(self@.head.ax@[3]), "|"@),
                ).update(4, spec_dec_int(self@.head.ax@[4] as i64 as int))
            }),
            r.0 == "mmap",
            r.1 == 6,
            r.2@ == (if self.result as i64 <= 0 {
                "MAP_FAILED"@
            } else {
                spec_hex(self.result as nat)
            }),
    {
        if self.head.ax[0] == 0 {
            set_arg(args, 0, String::from_str("NULL"));
        }
        let v = prot_name(self.head.ax[2]);
        set_arg(args, 2, v);
        let v = map_name(self.head.ax[3]);
        set_arg(args, 3, v);
        let v = fmt_dec_i64(self.head.ax[4] as i64);
        set_arg(args, 4, v);
        if (self.result as i64) <= 0 {
            ("mmap", 6, String::from_str("MAP_FAILED"))
        } else {
            ("mmap", 6, fmt_hex(self.result))
        }
    }

    /// Renders an `rt_sigaction` call: the signal by name and the
    /// installed action decoded from the attached payload.
    pub fn do_rt_sigaction(&self, args: &mut Vec<String>) -> (r: (&'static str, usize, String))
        requires
            old(args)@.len() == 7,
        ensures
            final(args)@.len() == 7,
            views_of(final(args)@) == ({
                let a = views_of(old(args)@).update(0, spec_sig_name(self@.head.ax@[0]));
                if self@.payloads.len() >= 1 && self@.payloads[0].data.len() >= 24
                    && self@.payloads[0].index < 7 {
                    a.update(
                        self@.payloads[0].index as int,
                        spec_sigaction_repr(spec_action_of(self@.payloads[0].data)),
                    )
                } else {
                    a
                }
            }),
            r.0 == "rt_sigaction",
            r.1 == 3,
            r.2@ == spec_hex(self.result as nat),
    {
        let signum = self.head.ax[0];
        let v = sig_name(signum);
        set_arg(args, 0, v);
        if self.payloads.len() >= 1 {
            proof {
                assert(self@.payloads[0] == self.payloads@[0]@);
            }
            if self.payloads[0].data.len() >= 24 {
                let (action, index) = parse_sigaction(self);
                if index < 7 {
                    let v = action.render();
                    set_arg(args, index, v);
                }
            }
        }
        ("rt_sigaction", 3, fmt_hex(self.result))
    }

    /// Renders an `mprotect` call.
    pub fn do_mprotect(&self, args: &mut Vec<String>) -> (r: (&'static str, usize, String))
        requires
            old(args)@.len() == 7,
        ensures
            final(args)@.len() == 7,
            views_of(final(args)@) == ({
                let a = if self@.head.ax@[0] == 0 {
                    views_of(old(args)@).update(0, "NULL"@)
                } else {
                    views_of(old(args)@)
                };
                a.update(2, spec_prot_name(self@.head.ax@[2]))
            }),
            r.0 == "mprotect",
            r.1 == 3,
            r.2@ == spec_result_common(self.result),
    {
        if self.head.ax[0] == 0 {
            set_arg(args, 0, String::from_str("NULL"));
        }
        let v = prot_name(self.head.ax[2]);
        set_arg(args, 2, v);
        self.do_common("mprotect", 3)
    }
}

/// Renders a text buffer given as a slice.
pub fn cstr_debug_slice(data: &[u8]) -> (r: String)
    ensures
        r@ == spec_cstr_debug(data@),
{
    match find_nul(data) {
        Some(n) => {
            let prefix = slice_subrange(data, 0, n);
            proof {
                assert(prefix@ =~= data@.take(nul_pos(data@)));
            }
            fmt_quoted(prefix)
        },
        None => String::from_str(PARSE_ERR_MARKER),
    }
}

/// The display of a statfs payload: the decoded buffer, or the parse-error
/// marker when the block is too short.
pub open spec fn spec_fsinfo_payload(p: PayloadModel) -> Seq<char> {
    if p.data.len() >= 120 {
        spec_fsinfo_repr(spec_fsinfo_of(p.data.subrange(0, 120)))
    } else {
        "[!parse_str_err!]"@
    }
}

/// One statfs payload applied to the argument list: slot 0 carries the
/// path, slot 1 the buffer.
pub open spec fn apply_statfs(args: Seq<Seq<char>>, p: PayloadModel) -> Seq<Seq<char>> {
    if p.index == 0 && args.len() > 0 {
        args.update(0, spec_path_repr(p.data))
    } else if p.index == 1 && args.len() > 1 {
        args.update(1, spec_fsinfo_payload(p))
    } else {
        args
    }
}

/// All statfs payloads applied in order.
pub open spec fn spec_statfs_args(ps: Seq<PayloadModel>, args: Seq<Seq<char>>) -> Seq<Seq<char>>
    decreases ps.len(),
{
    if ps.len() == 0 {
        args
    } else {
        spec_statfs_args(ps.drop_first(), apply_statfs(args, ps[0]))
    }
}

/// One execve payload applied to the program-name slot.
pub open spec fn apply_exec0(args: Seq<Seq<char>>, p: PayloadModel) -> Seq<Seq<char>> {
    if p.index == 0 && args.len() > 0 {
        args.update(0, spec_cstr_debug(p.data))
    } else {
        args
    }
}

/// All execve program-name payloads applied in order.
pub open spec fn spec_exec_arg0(ps: Seq<PayloadModel>, args: Seq<Seq<char>>) -> Seq<Seq<char>>
    decreases ps.len(),
{
    if ps.len() == 0 {
        args
    } else {
        spec_exec_arg0(ps.drop_first(), apply_exec0(args, ps[0]))
    }
}

/// The rendered entries of the execve list in slot `idx` (its argument or
/// environment strings), in payload order.
pub open spec fn spec_exec_list(ps: Seq<PayloadModel>, idx: usize) -> Seq<Seq<char>>
    decreases ps.len(),
{
    if ps.len() == 0 {
        Seq::empty()
    } else {
        (if ps[0].index == idx {
            seq![spec_cstr_debug(ps[0].data)]
        } else {
            Seq::empty()
        }) + spec_exec_list(ps.drop_first(), idx)
    }
}

/// An execve list between braces.
pub open spec fn spec_braced_list(items: Seq<Seq<char>>) -> Seq<char> {
    seq!['{'] + spec_join_sep(items, ", "@) + seq!['}']
}

impl TraceEvent {
    /// Renders a `write` call: the descriptor signed, and — for standard
    /// output or error — the written text.
    pub fn do_write(&self, args: &mut Vec<String>) -> (r: (&'static str, usize, String))
        requires
            old(args)@.len() == 7,
        ensures
            final(args)@.len() == 7,
            views_of(final(args)@) == ({
                let a = views_of(old(args)@).update(
                    0,
                    spec_dec_int(self@.head.ax@[0] as i64 as int),
                );
                if (self@.head.ax@[0] == 1 || self@.head.ax@[0] == 2) && self@.payloads.len() == 1
                    && self@.payloads[0].index < 7 {
                    a.update(
                        self@.payloads[0].index as int,
                        spec_cstr_debug(self@.payloads[0].data),
                    )
                } else {
                    a
                }
            }),
            r.0 == "write",
            r.1 == 3,
            r.2@ == spec_hex(self.result as nat),
    {
        let v = fmt_dec_i64(self.head.ax[0] as i64);
        set_arg(args, 0, v);
        if (self.head.ax[0] == 1 || self.head.ax[0] == 2) && self.payloads.len() == 1 {
            proof {
                assert(self@.payloads[0] == self.payloads@[0]@);
            }
            let idx = self.payloads[0].index;
            if idx < 7 {
                let v = cstr_debug(&self.payloads[0].data);
                set_arg(args, idx, v);
            }
        }
        ("write", 3, fmt_hex(self.result))
    }

    /// Renders a `read` call: the descriptor signed, and — for standard
    /// input — the read text.
    pub fn do_read(&self, args: &mut Vec<String>) -> (r: (&'static str, usize, String))
        requires
            old(args)@.len() == 7,
        ensures
            final(args)@.len() == 7,
            views_of(final(args)@) == ({
                let a = views_of(old(args)@).update(
                    0,
                    spec_dec_int(self@.head.ax@[0] as i64 as int),
                );
                if self@.head.ax@[0] == 0 && self@.payloads.len() == 1 && self@.payloads[0].index
                    < 7 {
                    a.update(
                        self@.payloads[0].index as int,
                        spec_cstr_debug(self@.payloads[0].data),
                    )
                } else {
                    a
                }
            }),
            r.0 == "read",
            r.1 == 3,
            r.2@ == spec_hex(self.result as nat),
    {
        let v = fmt_dec_i64(self.head.ax[0] as i64);
        set_arg(args, 0, v);
        if self.head.ax[0] == 0 && self.payloads.len() == 1 {
            proof {
                assert(self@.payloads[0] == self.payloads@[0]@);
            }
            let idx = self.payloads[0].index;
            if idx < 7 {
                let v = cstr_debug(&self.payloads[0].data);
                set_arg(args, idx, v);
            }
        }
        ("read", 3, fmt_hex(self.result))
    }

    /// Renders a `statfs64` call: the path and the returned buffer.
    pub fn do_statfs64(&self, args: &mut Vec<String>) -> (r: (&'static str, usize, String))
        requires
            old(args)@.len() == 7,
        ensures
            final(args)@.len() == 7,
            views_of(final(args)@) == spec_statfs_args(self@.payloads, views_of(old(args)@)),
            r.0 == "statfs64",
            r.1 == 2,
            r.2@ == spec_hex(self.result as nat),
    {
        let ghost ps = self@.payloads;
        let ghost base = views_of(args@);
        let mut i: usize = 0;
        proof {
            assert(ps.skip(0) =~= ps);
        }
        while i < self.payloads.len()
            invariant
                i <= self.payloads@.len(),
                ps == self@.payloads,
                ps.len() == self.payloads@.len(),
                args@.len() == 7,
                spec_statfs_args(ps.skip(i as int), views_of(args@)) == spec_statfs_args(ps, base),
            decreases self.payloads@.len() - i,
        {
            let ghost rem = ps.skip(i as int);
            proof {
                assert(rem.drop_first() =~= ps.skip(i + 1));
                assert(rem[0] == ps[i as int]);
                assert(ps[i as int] == self.payloads@[i as int]@);
            }
            let p = &self.payloads[i];
            if p.index == 0 {
                let v = path_repr(&p.data);
                set_arg(args, 0, v);
            } else if p.index == 1 {
                if p.data.len() >= 120 {
                    let info = FileSystemInfo::from_bytes(p.data.as_slice());
                    proof {
                        lemma_fsinfo_of(info, p.data@.subrange(0, 120));
                    }
                    let v = info.render();
                    set_arg(args, 1, v);
                } else {
                    set_arg(args, 1, String::from_str(PARSE_ERR_MARKER));
                }
            }
            i = i + 1;
        }
        proof {
            assert(ps.skip(ps.len() as int) =~= Seq::<PayloadModel>::empty());
        }
        ("statfs64", 2, fmt_hex(self.result))
    }

    /// Renders an `execve` call: the program name, and the argument and
    /// environment lists gathered from the payload blocks.
    pub fn do_execve(&self, args: &mut Vec<String>) -> (r: (&'static str, usize, String))
        requires
            old(args)@.len() == 7,
        ensures
            final(args)@.len() == 7,
            views_of(final(args)@) == spec_exec_arg0(self@.payloads, views_of(old(args)@)).update(
                1,
                spec_braced_list(spec_exec_list(self@.payloads, 1)),
            ).update(2, spec_braced_list(spec_exec_list(self@.payloads, 2))),
            r.0 == "execve",
            r.1 == 3,
            r.2@ == spec_hex(self.result as nat),
    {
        let ghost ps = self@.payloads;
        let ghost base = views_of(args@);
        let mut argv: Vec<String> = Vec::new();
        let mut envp: Vec<String> = Vec::new();
        let mut i: usize = 0;
        proof {
            assert(ps.skip(0) =~= ps);
        }
        while i < self.payloads.len()
            invariant
                i <= self.payloads@.len(),
                ps == self@.payloads,
                ps.len() == self.payloads@.len(),
                args@.len() == 7,
                spec_exec_arg0(ps.skip(i as int), views_of(args@)) == spec_exec_arg0(ps, base),
                spec_exec_list(ps, 1) == argv@.map_values(|q: String| q@) + spec_exec_list(
                    ps.skip(i as int),
                    1,
                ),
                spec_exec_list(ps, 2) == envp@.map_values(|q: String| q@) + spec_exec_list(
                    ps.skip(i as int),
                    2,
                ),
            decreases self.payloads@.len() - i,
        {
            let ghost rem = ps.skip(i as int);
            let ghost argv0 = argv@.map_values(|q: String| q@);
            let ghost envp0 = envp@.map_values(|q: String| q@);
            proof {
                assert(rem.drop_first() =~= ps.skip(i + 1));
                assert(rem[0] == ps[i as int]);
                assert(ps[i as int] == self.payloads@[i as int]@);
            }
            let p = &self.payloads[i];
            if p.index == 0 {
                let v = cstr_debug(&p.data);
                set_arg(args, 0, v);
            } else if p.index == 1 {
                let v = cstr_debug(&p.data);
                argv.push(v);
                proof {
                    assert(argv@.map_values(|q: String| q@) =~= argv0 + seq![
                        spec_cstr_debug(rem[0].data),
                    ]);
                    assert(argv0 + (seq![spec_cstr_debug(rem[0].data)] + spec_exec_list(
                        ps.skip(i + 1),
                        1,
                    )) =~= (argv0 + seq![spec_cstr_debug(rem[0].data)]) + spec_exec_list(
                        ps.skip(i + 1),
                        1,
                    ));
                }
            } else if p.index == 2 {
                let v = cstr_debug(&p.data);
                envp.push(v);
                proof {
                    assert(envp@.map_values(|q: String| q@) =~= envp0 + seq![
                        spec_cstr_debug(rem[0].data),
                    ]);
                    assert(envp0 + (seq![spec_cstr_debug(rem[0].data)] + spec_exec_list(
                        ps.skip(i + 1),
                        2,
                    )) =~= (envp0 + seq![spec_cstr_debug(rem[0].data)]) + spec_exec_list(
                        ps.skip(i + 1),
                        2,
                    ));
                }
            }
            proof {
                if rem[0].index != 1 {
                    assert(Seq::<Seq<char>>::empty() + spec_exec_list(ps.skip(i + 1), 1)
                        =~= spec_exec_list(ps.skip(i + 1), 1));
                }
                if rem[0].index != 2 {
                    assert(Seq::<Seq<char>>::empty() + spec_exec_list(ps.skip(i + 1), 2)
                        =~= spec_exec_list(ps.skip(i + 1), 2));
                }
            }
            i = i + 1;
        }
        proof {
            assert(ps.skip(ps.len() as int) =~= Seq::<PayloadModel>::empty());
            assert(argv@.map_values(|q: String| q@) + Seq::<Seq<char>>::empty() =~= argv@
                .map_values(|q: String| q@));
            assert(envp@.map_values(|q: String| q@) + Seq::<Seq<char>>::empty() =~= envp@
                .map_values(|q: String| q@));
        }
        let n1 = argv.len();
        let joined = join_sep(&argv, n1, ", ");
        let mut v1 = String::new();
        push_char(&mut v1, '{');
        v1.append(joined.as_str());
        push_char(&mut v1, '}');
        proof {
            assert(argv@.take(n1 as int) =~= argv@);
            assert(v1@ =~= spec_braced_list(spec_exec_list(ps, 1)));
        }
        set_arg(args, 1, v1);
        let n2 = envp.len();
        let joined = join_sep(&envp, n2, ", ");
        let mut v2 = String::new();
        push_char(&mut v2, '{');
        v2.append(joined.as_str());
        push_char(&mut v2, '}');
        proof {
            assert(envp@.take(n2 as int) =~= envp@);
            assert(v2@ =~= spec_braced_list(spec_exec_list(ps, 2)));
        }
        set_arg(args, 2, v2);
        ("execve", 3, fmt_hex(self.result))
    }
}

/// A rendering that only names the call and gives the common result text.
pub open spec fn common_render(name: Seq<char>, argc: int, e: EventModel, args: Seq<Seq<char>>)
    -> RenderModel {
    RenderModel { name, argc, result: spec_result_common(e.result), args }
}

/// The per-syscall rendering dispatch: what `handle_syscall` produces for
/// each syscall number, with the fixed fallback for an unknown one.
pub open spec fn spec_syscall_render(e: EventModel, args: Seq<Seq<char>>) -> RenderModel {
    let sysno = e.head.ax@[7];
    if sysno == SYS_IOCTL {
        common_render("ioctl"@, 3, e, args)
    } else if sysno == SYS_FACCESSAT {
        common_render("faccessat"@, 3, e, spec_path_args(e, spec_at_fdcwd(e, args)))
    } else if sysno == SYS_OPENAT {
        common_render("openat"@, 4, e, spec_path_args(e, spec_at_fdcwd(e, args)))
    } else if sysno == SYS_CLOSE {
        common_render("close"@, 1, e, args)
    } else if sysno == SYS_READ {
        RenderModel {
            name: "read"@,
            argc: 3,
            result: spec_hex(e.result as nat),
            args: ({
                let a = args.update(0, spec_dec_int(e.head.ax@[0] as i64 as int));
                if e.head.ax@[0] == 0 && e.payloads.len() == 1 && e.payloads[0].index < 7 {
                    a.update(e.payloads[0].index as int, spec_cstr_debug(e.payloads[0].data))
                } else {
                    a
                }
            }),
        }
    } else if sysno == SYS_WRITE {
        RenderModel {
            name: "write"@,
            argc: 3,
            result: spec_hex(e.result as nat),
            args: ({
                let a = args.update(0, spec_dec_int(e.head.ax@[0] as i64 as int));
                if (e.head.ax@[0] == 1 || e.head.ax@[0] == 2) && e.payloads.len() == 1
                    && e.payloads[0].index < 7 {
                    a.update(e.payloads[0].index as int, spec_cstr_debug(e.payloads[0].data))
                } else {
                    a
                }
            }),
        }
    } else if sysno == SYS_WRITEV {
        common_render("writev"@, 3, e, args)
    } else if sysno == SYS_FSTATAT {
        common_render(
            "fstatat"@,
            4,
            e,
            ({
                let a = spec_path_args(e, spec_at_fdcwd(e, args));
                if e.result == 0 {
                    spec_stat_args(e.payloads, a)
                } else {
                    a
                }
            }),
        )
    } else if sysno == SYS_EXIT_GROUP {
        common_render("exit_group"@, 1, e, args)
    } else if sysno == SYS_SET_TID_ADDRESS {
        common_render("set_tid_address"@, 1, e, args)
    } else if sysno == SYS_SET_ROBUST_LIST {
        common_render("set_robust_list"@, 2, e, args)
    } else if sysno == SYS_CLOCK_GETTIME {
        common_render("clock_gettime"@, 2, e, args)
    } else if sysno == SYS_UNAME {
        RenderModel {
            name: "uname"@,
            argc: 1,
            result: spec_hex(e.result as nat),
            args: if e.payloads.len() == 1 && e.payloads[0].index == 0 && e.payloads[0].data.len()
                >= 390 {
                args.update(0, spec_uname_repr(e.payloads[0].data))
            } else {
                args
            },
        }
    } else if sysno == SYS_BRK {
        common_render("brk"@, 1, e, args)
    } else if sysno == SYS_MMAP {
        RenderModel {
            name: "mmap"@,
            argc: 6,
            result: if e.result as i64 <= 0 {
                "MAP_FAILED"@
            } else {
                spec_hex(e.result as nat)
            },
            args: ({
                let a = if e.head.ax@[0] == 0 {
                    args.update(0, "NULL"@)
                } else {
                    args
                };
                a.update(2, spec_prot_name(e.head.ax@[2])).update(
                    3,
                    spec_join_sep(spec_map_names(e.head.ax@[3]), "|"@),
                ).update(4, spec_dec_int(e.head.ax@[4] as i64 as int))
            }),
        }
    } else if sysno == SYS_MPROTECT {
        common_render(
            "mprotect"@,
            3,
            e,
            ({
                let a = if e.head.ax@[0] == 0 {
                    args.update(0, "NULL"@)
                } else {
                    args
                };
                a.update(2, spec_prot_name(e.head.ax@[2]))
            }),
        )
    } else if sysno == SYS_PRLIMIT64 {
        common_render("prlimit64"@, 4, e, args)
    } else if sysno == SYS_GETRANDOM {
        common_render("getrandom"@, 3, e, args)
    } else if sysno == SYS_KILL {
        common_render("kill"@, 2, e, args)
    } else if sysno == SYS_RT_SIGACTION {
        RenderModel {
            name: "rt_sigaction"@,
            argc: 3,
            result: spec_hex(e.result as nat),
            args: ({
                let a = args.update(0, spec_sig_name(e.head.ax@[0]));
                if e.payloads.len() >= 1 && e.payloads[0].data.len() >= 24 && e.payloads[0].index
                    < 7 {
                    a.update(
                        e.payloads[0].index as int,
                        spec_sigaction_repr(spec_action_of(e.payloads[0].data)),
                    )
                } else {
                    a
                }
            }),
        }
    } else if sysno == SYS_RT_SIGPROCMASK {
        common_render("sigprocmask"@, 4, e, args)
    } else if sysno == SYS_CLONE {
        common_render("clone"@, 5, e, args)
    } else if sysno == SYS_EXECVE {
        RenderModel {
            name: "execve"@,
            argc: 3,
            result: spec_hex(e.result as nat),
            args: spec_exec_arg0(e.payloads, args).update(
                1,
                spec_braced_list(spec_exec_list(e.payloads, 1)),
            ).update(2, spec_braced_list(spec_exec_list(e.payloads, 2))),
        }
    } else if sysno == SYS_GETTID {
        common_render("get_tid"@, 0, e, args)
    } else if sysno == SYS_GETPID {
        common_render("getpid"@, 0, e, args)
    } else if sysno == SYS_TGKILL {
        common_render("tgkill"@, 3, e, args)
    } else if sysno == SYS_WAIT4 {
        common_render("wait4"@, 4, e, args)
    } else if sysno == SYS_GETDENTS64 {
        common_render("getdents64"@, 3, e, args)
    } else if sysno == SYS_STATFS64 {
        RenderModel {
            name: "statfs64"@,
            argc: 2,
            result: spec_hex(e.result as nat),
            args: spec_statfs_args(e.payloads, args),
        }
    } else {
        RenderModel {
            name: "[unknown sysno]"@,
            argc: 7,
            result: spec_hex(e.result as nat),
            args,
        }
    }
}

impl TraceEvent {
    /// Renders this matched call: its display name, the number of
    /// arguments to show, its result text, and the decoded arguments
    /// written into `args`.
    #[verifier::rlimit(50)]
    pub fn handle_syscall(&self, args: &mut Vec<String>) -> (r: (&'static str, usize, String))
        requires
            old(args)@.len() == 7,
        ensures
            final(args)@.len() == 7,
            r.1 <= 7,
            ({
                let out = spec_syscall_render(self@, views_of(old(args)@));
                &&& r.0@ == out.name
                &&& r.1 == out.argc
                &&& r.2@ == out.result
                &&& views_of(final(args)@) == out.args
            }),
    {
        let sysno = self.head.ax[7];
        if sysno == SYS_IOCTL {
            self.do_common("ioctl", 3)
        } else if sysno == SYS_FACCESSAT {
            self.do_faccessat(args)
        } else if sysno == SYS_OPENAT {
            self.do_openat(args)
        } else if sysno == SYS_CLOSE {
            self.do_common("close", 1)
        } else if sysno == SYS_READ {
            self.do_read(args)
        } else if sysno == SYS_WRITE {
            self.do_write(args)
        } else if sysno == SYS_WRITEV {
            self.do_common("writev", 3)
        } else if sysno == SYS_FSTATAT {
            self.do_fstatat(args)
        } else if sysno == SYS_EXIT_GROUP {
            self.do_common("exit_group", 1)
        } else if sysno == SYS_SET_TID_ADDRESS {
            self.do_common("set_tid_address", 1)
        } else if sysno == SYS_SET_ROBUST_LIST {
            self.do_common("set_robust_list", 2)
        } else if sysno == SYS_CLOCK_GETTIME {
            self.do_common("clock_gettime", 2)
        } else if sysno == SYS_UNAME {
            self.do_uname(args)
        } else if sysno == SYS_BRK {
            self.do_common("brk", 1)
        } else if sysno == SYS_MMAP {
            self.do_mmap(args)
        } else if sysno == SYS_MPROTECT {
            self.do_mprotect(args)
        } else if sysno == SYS_PRLIMIT64 {
            self.do_common("prlimit64", 4)
        } else if sysno == SYS_GETRANDOM {
            self.do_common("getrandom", 3)
        } else if sysno == SYS_KILL {
            self.do_common("kill", 2)
        } else if sysno == SYS_RT_SIGACTION {
            self.do_rt_sigaction(args)
        } else if sysno == SYS_RT_SIGPROCMASK {
            self.do_common("sigprocmask", 4)
        } else if sysno == SYS_CLONE {
            self.do_common("clone", 5)
        } else if sysno == SYS_EXECVE {
            self.do_execve(args)
        } else if sysno == SYS_GETTID {
            self.do_common("get_tid", 0)
        } else if sysno == SYS_GETPID {
            self.do_common("getpid", 0)
        } else if sysno == SYS_TGKILL {
            self.do_common("tgkill", 3)
        } else if sysno == SYS_WAIT4 {
            self.do_common("wait4", 4)
        } else if sysno == SYS_GETDENTS64 {
            self.do_common("getdents64", 3)
        } else if sysno == SYS_STATFS64 {
            self.do_statfs64(args)
        } else {
            ("[unknown sysno]", 7, fmt_hex(self.result))
        }
    }
}

/// The seven argument cells as first rendered: each register in
/// hexadecimal.
pub open spec fn spec_args_init(e: EventModel) -> Seq<Seq<char>> {
    Seq::new(7, |i: int| spec_hex(e.head.ax@[i] as nat))
}

/// The printed line of one matched call:
/// `[<number>]<name>(<args>) -> <result>, usp: <hex>`.
pub open spec fn spec_call_line(e: EventModel) -> Seq<char> {
    let out = spec_syscall_render(e, spec_args_init(e));
    seq!['['] + dec_digits(e.head.ax@[7] as nat) + "]"@ + out.name + "("@ + spec_join_sep(
        out.args.take(out.argc),
        ", "@,
    ) + ") -> "@ + out.result + ", usp: "@ + spec_hex(e.head.usp as nat)
}

/// The printed line of one flow entry: a synthesized handler invocation
/// renders as a signal-enter marker; an interrupted call is prefixed with
/// its signal-exit marker; an ordinary call renders as its call line.
pub open spec fn spec_render_line(e: EventModel) -> Seq<char> {
    match e.signal {
        SigStage::Enter(signo) => "Signal["@ + spec_sig_name(signo) + "] enter.."@,
        SigStage::Exit(signo) => "Signal["@ + spec_sig_name(signo) + "] exit..\n"@
            + spec_call_line(e),
        SigStage::Empty => spec_call_line(e),
    }
}

impl TraceEvent {
    /// Renders this flow entry as its printed line.
    pub fn render(&self) -> (r: String)
        ensures
            r@ == spec_render_line(self@),
    {
        let mut s = String::new();
        match self.signal {
            SigStage::Enter(signo) => {
                s.append("Signal[");
                let part = sig_name(signo);
                s.append(part.as_str());
                s.append("] enter..");
                proof {
                    assert(s@ =~= spec_render_line(self@));
                }
                return s;
            },
            SigStage::Exit(signo) => {
                s.append("Signal[");
                let part = sig_name(signo);
                s.append(part.as_str());
                s.append("] exit..\n");
            },
            SigStage::Empty => {},
        }
        let ghost prefix = s@;
        let mut args: Vec<String> = Vec::new();
        let mut i: usize = 0;
        while i < 7
            invariant
                i <= 7,
                args@.len() == i,
                forall|j: int|
                    0 <= j < i ==> (#[trigger] args@[j])@ == spec_hex(self.head.ax@[j] as nat),
            decreases 7 - i,
        {
            let v = fmt_hex(self.head.ax[i]);
            args.push(v);
            i = i + 1;
        }
        proof {
            assert(views_of(args@) =~= spec_args_init(self@));
        }
        let (name, argc, result) = self.handle_syscall(&mut args);
        let ghost out = spec_syscall_render(self@, spec_args_init(self@));
        push_char(&mut s, '[');
        let part = fmt_dec_u64(self.head.ax[7]);
        s.append(part.as_str());
        s.append("]");
        s.append(name);
        s.append("(");
        let joined = join_sep(&args, argc, ", ");
        proof {
            assert(args@.take(argc as int).map_values(|q: String| q@) =~= out.args.take(out.argc));
        }
        s.append(joined.as_str());
        s.append(") -> ");
        s.append(result.as_str());
        s.append(", usp: ");
        let part = fmt_hex(self.head.usp);
        s.append(part.as_str());
        proof {
            assert(s@ =~= prefix + spec_call_line(self@));
            assert(s@ =~= spec_render_line(self@));
        }
        s
    }
}

/// The banner printed before one context's calls.
pub open spec fn spec_banner(key: u64) -> Seq<char> {
    "Task["@ + spec_hex(key as nat) + "] ========>"@
}

/// The printed lines of one flow: its context banner, then one line per
/// matched call, in order.
pub open spec fn spec_flow_lines(key: u64, events: Seq<EventModel>) -> Seq<Seq<char>> {
    seq![spec_banner(key)] + events.map_values(|e: EventModel| spec_render_line(e))
}

/// Renders one context's flow: the banner, then each call's line.
pub fn render_flow(key: u64, events: &Vec<TraceEvent>) -> (r: Vec<String>)
    ensures
        r@.map_values(|s: String| s@) == spec_flow_lines(
            key,
            events@.map_values(|e: TraceEvent| e@),
        ),
{
    let mut out: Vec<String> = Vec::new();
    let mut banner = String::from_str("Task[");
    let part = fmt_hex(key);
    banner.append(part.as_str());
    banner.append("] ========>");
    proof {
        assert(banner@ =~= spec_banner(key));
    }
    out.push(banner);
    let ghost evs = events@.map_values(|e: TraceEvent| e@);
    let mut i: usize = 0;
    while i < events.len()
        invariant
            i <= events@.len(),
            evs == events@.map_values(|e: TraceEvent| e@),
            evs.len() == events@.len(),
            out@.len() == i + 1,
            out@[0]@ == spec_banner(key),
            forall|j: int|
                0 <= j < i ==> (#[trigger] out@[j + 1])@ == spec_render_line(evs[j]),
        decreases events@.len() - i,
    {
        let line = events[i].render();
        proof {
            assert(events@[i as int]@ == evs[i as int]);
        }
        out.push(line);
        i = i + 1;
    }
    proof {
        let lhs = out@.map_values(|s: String| s@);
        let rhs = spec_flow_lines(key, evs);
        assert forall|j: int| 0 <= j < lhs.len() implies lhs[j] == rhs[j] by {
            if j > 0 {
                assert(out@[(j - 1) + 1]@ == spec_render_line(evs[j - 1]));
            }
        }
        assert(lhs =~= rhs);
    }
    out
}

} // verus!
