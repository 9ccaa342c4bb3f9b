//! End-to-end tests: byte stream in, printed lines out.

use lkdiff::event::{SigStage, TraceEvent, TraceHead, TracePayload};
use lkdiff::flow::{Diagnostic, FlowError};
use lkdiff::framer::{encode_event, FramingError};
use lkdiff::run::{run_trace, TraceError};

fn mk_head(inout: u64, sysno: u64, key: u64) -> TraceHead {
    let mut ax = [0u64; 8];
    ax[7] = sysno;
    TraceHead {
        magic: 0x6b6c,
        headsize: 200,
        totalsize: 200,
        inout,
        cause: 8,
        epc: 0,
        ax,
        usp: 0,
        stack: [0u64; 8],
        orig_a0: 0,
        satp: 0,
        tp: 0,
        sscratch: key,
    }
}

fn mk_event(inout: u64, sysno: u64, key: u64) -> TraceEvent {
    TraceEvent { head: mk_head(inout, sysno, key), result: 0, payloads: Vec::new(), signal: SigStage::Empty }
}

fn stream(events: &[TraceEvent]) -> Vec<u8> {
    let mut out = Vec::new();
    for e in events {
        out.extend_from_slice(&encode_event(e).unwrap());
    }
    out
}

#[test]
fn whole_run_renders_flushed_and_remaining_flows() {
    let mut req = mk_event(0, 0xd6, 0x10);
    req.head.ax[0] = 0x1000;
    let mut resp = mk_event(1, 0xd6, 0x10);
    resp.head.ax[0] = 0x2000;
    let exit = mk_event(0, 0x5e, 0x10);
    let mut other_req = mk_event(0, 0x39, 0x8);
    other_req.head.ax[0] = 3;
    let mut other_resp = mk_event(1, 0x39, 0x8);
    other_resp.head.ax[0] = 0;

    let bytes = stream(&[req, other_req, resp, other_resp, exit]);
    let out = run_trace(&bytes).unwrap();
    assert!(out.diags.is_empty());
    // the flow of context 0x10 is flushed by exit_group, the other at end
    // of stream
    assert_eq!(
        out.lines,
        vec![
            "Task[0x10] ========>".to_string(),
            "[214]brk(0x1000) -> 0x2000, usp: 0x0".to_string(),
            "[94]exit_group(0x0) -> OK, usp: 0x0".to_string(),
            "Task[0x8] ========>".to_string(),
            "[57]close(0x3) -> OK, usp: 0x0".to_string(),
        ]
    );
}

#[test]
fn openat_line_shows_the_decoded_path() {
    let mut req = mk_event(0, 0x38, 1);
    req.head.ax[0] = -100i64 as u64;
    req.head.ax[2] = 0;
    req.payloads.push(TracePayload { inout: 0, index: 1, data: b"/etc/passwd\0".to_vec() });
    let mut resp = mk_event(1, 0x38, 1);
    resp.head.ax[0] = 3;
    let bytes = stream(&[req, resp]);
    let out = run_trace(&bytes).unwrap();
    assert_eq!(out.lines.len(), 2);
    assert_eq!(out.lines[1], "[56]openat(AT_FDCWD, \"/etc/passwd\", 0x0, 0x0) -> 0x3, usp: 0x0");
}

#[test]
fn mismatched_response_emits_exactly_one_diagnostic() {
    let req = mk_event(0, 0xd6, 1);
    let mut resp = mk_event(1, 0x1d, 1);
    resp.head.ax[0] = 1;
    let bytes = stream(&[req, resp]);
    let out = run_trace(&bytes).unwrap();
    assert_eq!(out.diags, vec![Diagnostic::SysnoMismatch { response: 0x1d, request: 0xd6 }]);
    assert_eq!(out.lines, vec![
        "Task[0x1] ========>".to_string(),
        "[214]brk(0x0) -> 0x1, usp: 0x0".to_string(),
    ]);
}

#[test]
fn truncated_stream_is_a_framing_error() {
    let bytes = stream(&[mk_event(0, 0xd6, 1)]);
    let err = run_trace(&bytes[..150]).unwrap_err();
    assert_eq!(err, TraceError::Framing(FramingError::Truncated));

    // a well-formed record followed by a partial header fails too
    let mut both = bytes.clone();
    both.extend_from_slice(&bytes[..77]);
    let err = run_trace(&both).unwrap_err();
    assert_eq!(err, TraceError::Framing(FramingError::Truncated));
}

#[test]
fn corrupt_magic_is_a_framing_error() {
    let mut bytes = stream(&[mk_event(0, 0xd6, 1)]);
    bytes[1] = 0;
    let err = run_trace(&bytes).unwrap_err();
    assert_eq!(err, TraceError::Framing(FramingError::BadMagic));
}

#[test]
fn non_syscall_trap_cause_is_rejected() {
    let mut evt = mk_event(0, 0xd6, 1);
    evt.head.cause = 12;
    let bytes = stream(&[evt]);
    let err = run_trace(&bytes).unwrap_err();
    assert_eq!(err, TraceError::Framing(FramingError::BadCause));
}

#[test]
fn orphan_response_is_a_flow_error() {
    let bytes = stream(&[mk_event(1, 0x3f, 7)]);
    let err = run_trace(&bytes).unwrap_err();
    assert_eq!(err, TraceError::Flow(FlowError::OrphanResponse { key: 7 }));
}

#[test]
fn empty_stream_produces_nothing() {
    let out = run_trace(&[]).unwrap();
    assert!(out.lines.is_empty());
    assert!(out.diags.is_empty());
}

#[test]
fn vfork_scenario_end_to_end() {
    let mut clone_req = mk_event(0, 0xdc, 0xa);
    clone_req.head.ax[0] = 0x11;
    let mut child_resp = mk_event(1, 0xdc, 0xb);
    child_resp.head.orig_a0 = 0x7777;
    let mut parent_resp = mk_event(1, 0xdc, 0xa);
    parent_resp.head.ax[0] = 0xb;
    parent_resp.head.orig_a0 = 0x7777;
    let bytes = stream(&[clone_req, child_resp, parent_resp]);
    let out = run_trace(&bytes).unwrap();
    assert_eq!(
        out.lines,
        vec![
            "Task[0xa] ========>".to_string(),
            "[220]clone(0x7777, 0x0, 0x0, 0x0, 0x0) -> 0xb, usp: 0x0".to_string(),
            "Task[0xb] ========>".to_string(),
            "[220]clone(0x7777, 0x0, 0x0, 0x0, 0x0) -> OK, usp: 0x0".to_string(),
        ]
    );
}
