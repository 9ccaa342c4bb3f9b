//! Rendering tests: per-syscall argument decoding and whole printed lines.

use lkdiff::event::{SigStage, TraceEvent, TraceHead, TracePayload};
use lkdiff::render::{parse_sigaction, render_flow};

fn mk_head(inout: u64, sysno: u64, key: u64) -> TraceHead {
    let mut ax = [0u64; 8];
    ax[7] = sysno;
    TraceHead {
        magic: 0x6b6c,
        headsize: 200,
        totalsize: 200,
        inout,
        cause: 8,
        epc: 0,
        ax,
        usp: 0,
        stack: [0u64; 8],
        orig_a0: 0,
        satp: 0,
        tp: 0,
        sscratch: key,
    }
}

fn mk_event(inout: u64, sysno: u64, key: u64) -> TraceEvent {
    TraceEvent { head: mk_head(inout, sysno, key), result: 0, payloads: Vec::new(), signal: SigStage::Empty }
}

fn hex_args(e: &TraceEvent) -> Vec<String> {
    (0..7).map(|i| format!("{:#x}", e.head.ax[i])).collect()
}

#[test]
fn openat_renders_path_and_at_fdcwd() {
    let mut e = mk_event(1, 0x38, 1);
    e.head.ax[0] = -100i64 as u64;
    e.result = 3;
    e.payloads.push(TracePayload { inout: 0, index: 1, data: b"/etc/passwd\0".to_vec() });
    let mut args = hex_args(&e);
    let (name, argc, result) = e.handle_syscall(&mut args);
    assert_eq!(name, "openat");
    assert_eq!(argc, 4);
    assert_eq!(result, "0x3");
    assert_eq!(args[0], "AT_FDCWD");
    assert_eq!(args[1], "\"/etc/passwd\"");
}

#[test]
fn openat_with_unreadable_path_shows_the_marker() {
    let mut e = mk_event(1, 0x38, 1);
    e.result = 3;
    // invalid UTF-8 before the terminator
    e.payloads.push(TracePayload { inout: 0, index: 1, data: vec![0xff, 0xfe, 0] });
    let mut args = hex_args(&e);
    e.handle_syscall(&mut args);
    assert_eq!(args[1], "[!parse_str_err!]");

    // no terminator at all
    let mut e = mk_event(1, 0x38, 1);
    e.payloads.push(TracePayload { inout: 0, index: 1, data: b"abc".to_vec() });
    let mut args = hex_args(&e);
    e.handle_syscall(&mut args);
    assert_eq!(args[1], "[!parse_str_err!]");
}

#[test]
fn failed_openat_renders_errno() {
    let mut e = mk_event(1, 0x38, 1);
    e.result = -2i64 as u64;
    e.payloads.push(TracePayload { inout: 0, index: 1, data: b"/nope\0".to_vec() });
    let mut args = hex_args(&e);
    let (_, _, result) = e.handle_syscall(&mut args);
    assert_eq!(result, "ENOENT");
}

#[test]
fn write_to_stdout_shows_the_text() {
    let mut e = mk_event(1, 0x40, 1);
    e.head.ax[0] = 1;
    e.result = 6;
    e.payloads.push(TracePayload { inout: 1, index: 1, data: b"hello\n\0".to_vec() });
    let mut args = hex_args(&e);
    let (name, argc, result) = e.handle_syscall(&mut args);
    assert_eq!(name, "write");
    assert_eq!(argc, 3);
    assert_eq!(result, "0x6");
    assert_eq!(args[0], "1");
    assert_eq!(args[1], "\"hello\\n\"");
}

#[test]
fn write_to_other_descriptors_keeps_raw_arguments() {
    let mut e = mk_event(1, 0x40, 1);
    e.head.ax[0] = 5;
    e.head.ax[1] = 0xabc;
    e.result = 1;
    e.payloads.push(TracePayload { inout: 1, index: 1, data: b"x\0".to_vec() });
    let mut args = hex_args(&e);
    e.handle_syscall(&mut args);
    assert_eq!(args[0], "5");
    assert_eq!(args[1], "0xabc");
}

#[test]
fn mmap_names_flags_and_failure() {
    let mut e = mk_event(1, 0xde, 1);
    e.head.ax[0] = 0;
    e.head.ax[2] = 0x1 | 0x2;
    e.head.ax[3] = 0x02 | 0x20;
    e.head.ax[4] = -1i64 as u64;
    e.result = -12i64 as u64;
    let mut args = hex_args(&e);
    let (name, argc, result) = e.handle_syscall(&mut args);
    assert_eq!(name, "mmap");
    assert_eq!(argc, 6);
    assert_eq!(result, "MAP_FAILED");
    assert_eq!(args[0], "NULL");
    assert_eq!(args[2], "PROT_READ|PROT_WRITE");
    assert_eq!(args[3], "MAP_PRIVATE|MAP_ANONYMOUS");
    assert_eq!(args[4], "-1");
}

#[test]
fn rt_sigaction_names_signal_and_handler() {
    let mut e = mk_event(1, 0x86, 1);
    e.head.ax[0] = 17;
    e.result = 0;
    let mut action = vec![0u8; 24];
    action[0] = 0x00;
    action[1] = 0x50;
    action[8] = 0x04;
    e.payloads.push(TracePayload { inout: 1, index: 1, data: action });
    let (a, idx) = parse_sigaction(&e);
    assert_eq!(a.handler, 0x5000);
    assert_eq!(a.flags, 4);
    assert_eq!(idx, 1);
    let mut args = hex_args(&e);
    let (name, argc, result) = e.handle_syscall(&mut args);
    assert_eq!(name, "rt_sigaction");
    assert_eq!(argc, 3);
    assert_eq!(result, "0x0");
    assert_eq!(args[0], "SIGCHLD");
    assert_eq!(args[1], "{handler: 0x5000, flags: 0x4, mask: 0x0}");
}

#[test]
fn fstatat_decodes_the_stat_buffer() {
    let mut e = mk_event(1, 0x4f, 1);
    e.head.ax[0] = -100i64 as u64;
    e.result = 0;
    e.payloads.push(TracePayload { inout: 0, index: 1, data: b"/a\0".to_vec() });
    let mut stat = vec![0u8; 120];
    stat[0] = 0x1a; // st_dev
    stat[8] = 42; // st_ino
    stat[16] = 0xa4; // st_mode = 0o100644
    stat[17] = 0x81;
    stat[20] = 1; // st_nlink
    stat[48] = 100; // st_size
    stat[56] = 0; // st_blksize
    stat[57] = 0x10; // 4096
    stat[64] = 8; // st_blocks
    e.payloads.push(TracePayload { inout: 1, index: 2, data: stat });
    let mut args = hex_args(&e);
    let (name, argc, result) = e.handle_syscall(&mut args);
    assert_eq!(name, "fstatat");
    assert_eq!(argc, 4);
    assert_eq!(result, "OK");
    assert_eq!(args[0], "AT_FDCWD");
    assert_eq!(args[1], "\"/a\"");
    assert_eq!(
        args[2],
        "{dev=0x1a, ino=42, mode=0o100644, nlink=1, rdev=0, size=100, blksize=4096, blocks=8}"
    );
}

#[test]
fn uname_shows_all_six_fields() {
    let mut e = mk_event(1, 0xa0, 1);
    e.result = 0;
    let mut buf = vec![0u8; 390];
    let fields: [&[u8]; 6] = [b"Linux", b"host", b"6.1", b"#1", b"riscv64", b"(none)"];
    for (i, f) in fields.iter().enumerate() {
        buf[65 * i..65 * i + f.len()].copy_from_slice(f);
    }
    e.payloads.push(TracePayload { inout: 1, index: 0, data: buf });
    let mut args = hex_args(&e);
    let (name, argc, _) = e.handle_syscall(&mut args);
    assert_eq!(name, "uname");
    assert_eq!(argc, 1);
    assert_eq!(args[0], "{\"Linux\", \"host\", \"6.1\", \"#1\", \"riscv64\", \"(none)\"}");
}

#[test]
fn execve_gathers_argument_and_environment_lists() {
    let mut e = mk_event(1, 0xdd, 1);
    e.result = 0;
    e.payloads.push(TracePayload { inout: 0, index: 0, data: b"/bin/sh\0".to_vec() });
    e.payloads.push(TracePayload { inout: 0, index: 1, data: b"sh\0".to_vec() });
    e.payloads.push(TracePayload { inout: 0, index: 1, data: b"-c\0".to_vec() });
    e.payloads.push(TracePayload { inout: 0, index: 2, data: b"HOME=/\0".to_vec() });
    let mut args = hex_args(&e);
    let (name, argc, result) = e.handle_syscall(&mut args);
    assert_eq!(name, "execve");
    assert_eq!(argc, 3);
    assert_eq!(result, "0x0");
    assert_eq!(args[0], "\"/bin/sh\"");
    assert_eq!(args[1], "{\"sh\", \"-c\"}");
    assert_eq!(args[2], "{\"HOME=/\"}");
}

#[test]
fn statfs64_decodes_path_and_filesystem_info() {
    let mut e = mk_event(1, 0x2b, 1);
    e.result = 0;
    e.payloads.push(TracePayload { inout: 0, index: 0, data: b"/\0".to_vec() });
    let mut buf = vec![0u8; 120];
    buf[0] = 0x53; // f_type = 0xef53
    buf[1] = 0xef;
    buf[8] = 0x00; // f_bsize = 0x1000
    buf[9] = 0x10;
    buf[64] = 255; // f_namelen
    buf[80] = 0x01; // f_flags = ST_RDONLY
    let mut args = hex_args(&e);
    e.payloads.push(TracePayload { inout: 1, index: 1, data: buf });
    let (name, argc, _) = e.handle_syscall(&mut args);
    assert_eq!(name, "statfs64");
    assert_eq!(argc, 2);
    assert_eq!(args[0], "\"/\"");
    assert_eq!(
        args[1],
        "FileSystemInfo { f_type: ext2|ext3|ext4, f_bsize: 1000, f_blocks: 0, f_bfree: 0, \
         f_bavail: 0, f_files: 0, f_ffree: 0, f_fsid: KernelFsid { val: [0, 0] }, \
         f_namelen: 255, f_frsize: 0, f_flags: ST_RDONLY, f_spare: [0, 0, 0, 0] }"
    );
}

#[test]
fn unknown_syscalls_render_under_the_fallback_label() {
    let mut e = mk_event(1, 0x999, 1);
    e.result = 0x1234;
    let mut args = hex_args(&e);
    let (name, argc, result) = e.handle_syscall(&mut args);
    assert_eq!(name, "[unknown sysno]");
    assert_eq!(argc, 7);
    assert_eq!(result, "0x1234");
}

#[test]
fn whole_lines_and_banner() {
    let mut e = mk_event(1, 0xd6, 0x10);
    e.head.ax[0] = 0x1000;
    e.head.usp = 0x4000;
    e.result = 0x2000;
    let mut enter = mk_event(1, 0, 0x10);
    enter.signal = SigStage::Enter(2);
    let lines = render_flow(0x10, &vec![e, enter]);
    assert_eq!(lines.len(), 3);
    assert_eq!(lines[0], "Task[0x10] ========>");
    assert_eq!(lines[1], "[214]brk(0x1000) -> 0x2000, usp: 0x4000");
    assert_eq!(lines[2], "Signal[SIGINT] enter..");
}

#[test]
fn interrupted_calls_carry_the_signal_exit_prefix() {
    let mut e = mk_event(1, 0x3f, 0x10);
    e.result = 5;
    e.signal = SigStage::Exit(17);
    let line = e.render();
    assert_eq!(line, "Signal[SIGCHLD] exit..\n[63]read(0, 0x0, 0x0) -> 0x5, usp: 0x0");
}
