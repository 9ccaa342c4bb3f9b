//! Exact-value tests for the text rendering layer.

use lkdiff::errno::errno_name;
use lkdiff::fmt::{fmt_dec_i64, fmt_dec_u64, fmt_hex, fmt_hex_upper, fmt_oct, fmt_quoted, join_sep};
use lkdiff::fs::{f_flags_name, f_type_name, mode_name, open_flags_name, VfsNodePerm};
use lkdiff::mmap::{map_name, prot_name};
use lkdiff::signal::{sig_name, SigAction};
use lkdiff::sys::RLimit64;
use lkdiff::systable::name;

#[test]
fn hex_renders_with_prefix() {
    assert_eq!(fmt_hex(0), "0x0");
    assert_eq!(fmt_hex(0x2a), "0x2a");
    assert_eq!(fmt_hex(0xdeadbeef), "0xdeadbeef");
    assert_eq!(fmt_hex(u64::MAX), "0xffffffffffffffff");
}

#[test]
fn hex_upper_has_no_prefix() {
    assert_eq!(fmt_hex_upper(0xef53), "EF53");
    assert_eq!(fmt_hex_upper(9), "9");
}

#[test]
fn decimal_renders_signed_and_unsigned() {
    assert_eq!(fmt_dec_u64(0), "0");
    assert_eq!(fmt_dec_u64(1234567890), "1234567890");
    assert_eq!(fmt_dec_i64(-100), "-100");
    assert_eq!(fmt_dec_i64(i64::MIN), "-9223372036854775808");
    assert_eq!(fmt_dec_i64(7), "7");
}

#[test]
fn octal_renders_with_prefix() {
    assert_eq!(fmt_oct(0o755), "0o755");
    assert_eq!(fmt_oct(0), "0o0");
}

#[test]
fn quoting_escapes_non_printable_bytes() {
    assert_eq!(fmt_quoted(b"hello"), "\"hello\"");
    assert_eq!(fmt_quoted(b"a\tb\nc"), "\"a\\tb\\nc\"");
    assert_eq!(fmt_quoted(b"q\"w\\e"), "\"q\\\"w\\\\e\"");
    assert_eq!(fmt_quoted(&[0x01u8, 0xffu8]), "\"\\x01\\xff\"");
}

#[test]
fn join_uses_separator_between_parts() {
    let parts = vec!["a".to_string(), "b".to_string(), "c".to_string()];
    assert_eq!(join_sep(&parts, 3, ", "), "a, b, c");
    assert_eq!(join_sep(&parts, 2, "|"), "a|b");
    assert_eq!(join_sep(&parts, 1, "|"), "a");
    assert_eq!(join_sep(&parts, 0, "|"), "");
}

#[test]
fn errno_names_match_their_values() {
    assert_eq!(errno_name(0), "OK");
    assert_eq!(errno_name(-2), "ENOENT");
    assert_eq!(errno_name(-10), "ECHILD");
    assert_eq!(errno_name(-20), "ENOTDIR");
    assert_eq!(errno_name(-21), "EISDIR");
    assert_eq!(errno_name(-22), "EINVAL");
    assert_eq!(errno_name(-99), "Unknown errno");
}

#[test]
fn permission_bits_render_as_rwx() {
    let p = VfsNodePerm::from_bits_truncate(0o755);
    assert_eq!(&p.rwx_buf(), b"rwxr-xr-x");
    let p = VfsNodePerm::from_bits_truncate(0o640);
    assert_eq!(&p.rwx_buf(), b"rw-r-----");
    let p = VfsNodePerm::from_bits_truncate(0);
    assert_eq!(&p.rwx_buf(), b"---------");
}

#[test]
fn mode_names_show_type_and_bits() {
    assert_eq!(mode_name(0o100644), "\"File rw-r--r--\"");
    assert_eq!(mode_name(0o40755), "\"Dir rwxr-xr-x\"");
    assert_eq!(mode_name(0o120777), "\"SymLink rwxrwxrwx\"");
    assert_eq!(mode_name(0o777), "\"Unknown rwxrwxrwx\"");
}

#[test]
fn open_flags_join_by_pipe() {
    assert_eq!(open_flags_name(0), "O_RDONLY");
    assert_eq!(open_flags_name(0o1), "O_WRONLY");
    assert_eq!(open_flags_name(0o2 | 0o100 | 0o1000), "O_RDWR|O_CREAT|O_TRUNC");
    assert_eq!(open_flags_name(0o200000), "O_RDONLY|O_DIRECTORY");
}

#[test]
fn filesystem_type_names() {
    assert_eq!(f_type_name(0xef53), "ext2|ext3|ext4");
    assert_eq!(f_type_name(0xef51), "ext2");
    assert_eq!(f_type_name(0x137d), "ext");
    assert_eq!(f_type_name(0x9fa0), "9FA0");
}

#[test]
fn mount_flags_join_by_pipe() {
    assert_eq!(f_flags_name(0x0001 | 0x0020), "ST_RDONLY|ST_VALID");
    assert_eq!(f_flags_name(0), "");
}

#[test]
fn protection_and_map_flags() {
    assert_eq!(prot_name(0), "PROT_NONE");
    assert_eq!(prot_name(0x1 | 0x4), "PROT_READ|PROT_EXEC");
    assert_eq!(map_name(0x02 | 0x20), "MAP_PRIVATE|MAP_ANONYMOUS");
    assert_eq!(map_name(0x01 | 0x10), "MAP_SHARED|MAP_FIXED");
}

#[test]
fn signal_names() {
    assert_eq!(sig_name(9), "SIGKILL");
    assert_eq!(sig_name(17), "SIGCHLD");
    assert_eq!(sig_name(64), "SIG64");
}

#[test]
fn sigaction_renders_its_fields() {
    let a = SigAction { handler: 0x1000, flags: 0x4, mask: 0 };
    assert_eq!(a.render(), "{handler: 0x1000, flags: 0x4, mask: 0x0}");
}

#[test]
fn rlimit_renders_its_fields() {
    let bytes = [
        0x00u8, 0x20, 0, 0, 0, 0, 0, 0, 0xff, 0xff, 0, 0, 0, 0, 0, 0,
    ];
    let r = RLimit64::from_bytes(&bytes);
    assert_eq!(r.render(), "RLimit64 {cur:2000 max:ffff}");
}

#[test]
fn syscall_table_names() {
    assert_eq!(name(0x38), "openat");
    assert_eq!(name(0x5e), "exit_group");
    assert_eq!(name(0x116), "getrandom");
}
