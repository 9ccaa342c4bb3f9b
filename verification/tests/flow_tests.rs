//! Reconstructor tests: FIFO pairing, flush-once, vfork fusion, signal
//! interposition, mismatch tolerance, and every error variant.

use std::collections::HashSet;
use lkdiff::event::{SigStage, TraceEvent, TraceFlow, TraceHead};
use lkdiff::event::TracePayload;
use lkdiff::flow::{Diagnostic, FlowError, Reconstructor};

fn mk_head(inout: u64, sysno: u64, key: u64) -> TraceHead {
    let mut ax = [0u64; 8];
    ax[7] = sysno;
    TraceHead {
        magic: 0x6b6c,
        headsize: 200,
        totalsize: 200,
        inout,
        cause: 8,
        epc: 0,
        ax,
        usp: 0,
        stack: [0u64; 8],
        orig_a0: 0,
        satp: 0,
        tp: 0,
        sscratch: key,
    }
}

fn mk_event(inout: u64, sysno: u64, key: u64) -> TraceEvent {
    TraceEvent { head: mk_head(inout, sysno, key), result: 0, payloads: Vec::new(), signal: SigStage::Empty }
}

#[test]
fn fifo_pairs_give_one_matched_call_each_in_order() {
    // two contexts interleaved; each pair must yield exactly one matched
    // call, with argument register 0 and the result kept distinct
    let mut recon = Reconstructor::new();

    let mut req_a = mk_event(0, 0xd6, 1);
    req_a.head.ax[0] = 0x111;
    let mut req_b = mk_event(0, 0x39, 2);
    req_b.head.ax[0] = 0x222;
    let mut resp_b = mk_event(1, 0x39, 2);
    resp_b.head.ax[0] = 0x42;
    let mut resp_a = mk_event(1, 0xd6, 1);
    resp_a.head.ax[0] = 0x43;
    let mut req_a2 = mk_event(0, 0x40, 1);
    req_a2.head.ax[0] = 0x333;
    let mut resp_a2 = mk_event(1, 0x40, 1);
    resp_a2.head.ax[0] = 0x44;

    for e in [req_a, req_b, resp_b, resp_a, req_a2, resp_a2] {
        let out = recon.handle_event(e).unwrap();
        assert!(out.flushed.is_none());
        assert!(out.diags.is_empty());
    }

    let flows = recon.finish();
    assert_eq!(flows.len(), 2);
    assert_eq!(flows[0].0, 1);
    assert_eq!(flows[1].0, 2);
    let fa = &flows[0].1;
    assert_eq!(fa.events.len(), 2);
    assert_eq!(fa.events[0].head.ax[7], 0xd6);
    assert_eq!(fa.events[0].head.ax[0], 0x111);
    assert_eq!(fa.events[0].result, 0x43);
    assert_eq!(fa.events[0].head.inout, 1);
    assert_eq!(fa.events[1].head.ax[7], 0x40);
    assert_eq!(fa.events[1].head.ax[0], 0x333);
    assert_eq!(fa.events[1].result, 0x44);
    let fb = &flows[1].1;
    assert_eq!(fb.events.len(), 1);
    assert_eq!(fb.events[0].head.ax[0], 0x222);
    assert_eq!(fb.events[0].result, 0x42);
}

#[test]
fn exit_group_flushes_and_destroys_the_flow() {
    let mut recon = Reconstructor::new();
    let req = mk_event(0, 0xd6, 9);
    let mut resp = mk_event(1, 0xd6, 9);
    resp.head.ax[0] = 5;
    recon.handle_event(req).unwrap();
    recon.handle_event(resp).unwrap();

    let out = recon.handle_event(mk_event(0, 0x5e, 9)).unwrap();
    let (key, flow) = out.flushed.expect("exit_group must flush");
    assert_eq!(key, 9);
    assert_eq!(flow.events.len(), 2);
    assert_eq!(flow.events[1].head.ax[7], 0x5e);

    // the flow no longer exists: a further response on that context is an
    // orphan
    let err = recon.handle_event(mk_event(1, 0xd6, 9)).unwrap_err();
    assert_eq!(err, FlowError::OrphanResponse { key: 9 });
}

#[test]
fn vfork_child_return_edge_seeds_the_new_context() {
    let mut recon = Reconstructor::new();
    // context A makes an earlier complete call, then issues clone
    recon.handle_event(mk_event(0, 0xd6, 0xa)).unwrap();
    let mut ra = mk_event(1, 0xd6, 0xa);
    ra.head.ax[0] = 1;
    recon.handle_event(ra).unwrap();
    let mut clone_req = mk_event(0, 0xdc, 0xa);
    clone_req.head.ax[0] = 0x9999;
    recon.handle_event(clone_req).unwrap();

    // the next event is a response tagged under brand-new context B
    let mut child_resp = mk_event(1, 0xdc, 0xb);
    child_resp.head.ax[0] = 0;
    child_resp.head.orig_a0 = 0x7777;
    let out = recon.handle_event(child_resp).unwrap();
    assert!(out.flushed.is_none());
    assert!(out.diags.is_empty());

    // a later clone response on A completes A's pending request
    let mut parent_resp = mk_event(1, 0xdc, 0xa);
    parent_resp.head.ax[0] = 0xb;
    parent_resp.head.orig_a0 = 0x7777;
    recon.handle_event(parent_resp).unwrap();

    let flows = recon.finish();
    assert_eq!(flows.len(), 2);
    assert_eq!(flows[0].0, 0xa);
    assert_eq!(flows[1].0, 0xb);
    let fa = &flows[0].1;
    assert_eq!(fa.events.len(), 2);
    assert_eq!(fa.events[1].head.ax[7], 0xdc);
    assert_eq!(fa.events[1].head.inout, 1);
    assert_eq!(fa.events[1].result, 0xb);
    assert_eq!(fa.events[1].head.ax[0], 0x7777);
    let fb = &flows[1].1;
    assert_eq!(fb.events.len(), 1);
    assert_eq!(fb.events[0].head.ax[7], 0xdc);
    assert_eq!(fb.events[0].head.inout, 1);
    assert_eq!(fb.events[0].head.ax[0], 0x7777);
    assert_eq!(fb.events[0].result, 0);
}

#[test]
fn signal_interposition_defers_and_sigreturn_restores() {
    let mut recon = Reconstructor::new();
    let key = 0xc;

    // install a handler at 0x5000 via a completed rt_sigaction
    let mut install_req = mk_event(0, 0x86, key);
    install_req.head.ax[0] = 17;
    recon.handle_event(install_req).unwrap();
    let mut install_resp = mk_event(1, 0x86, key);
    let mut action = vec![0u8; 24];
    action[0] = 0x00;
    action[1] = 0x50;
    install_resp.payloads.push(TracePayload { inout: 1, index: 1, data: action });
    recon.handle_event(install_resp).unwrap();

    // a read is pending
    let read_req = mk_event(0, 0x3f, key);
    recon.handle_event(read_req).unwrap();

    // a response arrives whose program counter matches the handler
    let mut sig_resp = mk_event(1, 0x3f, key);
    sig_resp.head.epc = 0x5000;
    sig_resp.head.ax[0] = 17;
    let out = recon.handle_event(sig_resp).unwrap();
    assert!(out.flushed.is_none());

    // the handler runs one complete call of its own
    recon.handle_event(mk_event(0, 0xac, key)).unwrap();
    recon.handle_event(mk_event(1, 0xac, key)).unwrap();

    // the signal return restores read as the active pending request
    let sigret = mk_event(0, 0x8b, key);
    recon.handle_event(sigret).unwrap();

    // and its response completes it
    let mut read_resp = mk_event(1, 0x3f, key);
    read_resp.head.ax[0] = 0x99;
    recon.handle_event(read_resp).unwrap();

    let flows = recon.finish();
    assert_eq!(flows.len(), 1);
    let f = &flows[0].1;
    // rt_sigaction, signal-enter pseudo entry, getpid, restored read
    assert_eq!(f.events.len(), 4);
    assert!(matches!(f.events[1].signal, SigStage::Enter(17)));
    assert_eq!(f.events[1].head.inout, 1);
    assert_eq!(f.events[2].head.ax[7], 0xac);
    assert!(matches!(f.events[3].signal, SigStage::Exit(17)));
    assert_eq!(f.events[3].head.ax[7], 0x3f);
    assert_eq!(f.events[3].result, 0x99);
    assert_eq!(f.events[3].head.inout, 1);
    assert!(f.signal_stack.is_empty());
}

#[test]
fn default_handler_installs_are_not_remembered() {
    let mut recon = Reconstructor::new();
    let key = 0xd;
    let mut install_req = mk_event(0, 0x86, key);
    install_req.head.ax[0] = 2;
    recon.handle_event(install_req).unwrap();
    let mut install_resp = mk_event(1, 0x86, key);
    // handler 0 is the default sentinel: not an asynchronous entry point
    install_resp.payloads.push(TracePayload { inout: 1, index: 1, data: vec![0u8; 24] });
    recon.handle_event(install_resp).unwrap();

    recon.handle_event(mk_event(0, 0x3f, key)).unwrap();
    // epc 0 must not look like a handler entry
    let mut resp = mk_event(1, 0x3f, key);
    resp.head.epc = 0;
    recon.handle_event(resp).unwrap();
    let flows = recon.finish();
    assert_eq!(flows[0].1.events.len(), 2);
    assert!(flows[0].1.signal_stack.is_empty());
}

#[test]
fn sysno_mismatch_completes_with_one_diagnostic() {
    let mut recon = Reconstructor::new();
    recon.handle_event(mk_event(0, 0xd6, 3)).unwrap();
    let mut resp = mk_event(1, 0x1d, 3);
    resp.head.ax[0] = 7;
    let out = recon.handle_event(resp).unwrap();
    assert_eq!(out.diags.len(), 1);
    assert_eq!(out.diags[0], Diagnostic::SysnoMismatch { response: 0x1d, request: 0xd6 });
    let flows = recon.finish();
    assert_eq!(flows[0].1.events.len(), 1);
    assert_eq!(flows[0].1.events[0].head.inout, 1);
    assert_eq!(flows[0].1.events[0].result, 7);
}

#[test]
fn stale_request_is_reported_but_not_fatal() {
    let mut recon = Reconstructor::new();
    recon.handle_event(mk_event(0, 0xd6, 4)).unwrap();
    let out = recon.handle_event(mk_event(0, 0x39, 4)).unwrap();
    assert_eq!(out.diags.len(), 1);
    assert_eq!(out.diags[0], Diagnostic::StaleRequest { sysno: 0xd6 });
    let flows = recon.finish();
    assert_eq!(flows[0].1.events.len(), 2);
}

#[test]
fn first_sighting_response_is_an_orphan() {
    let mut recon = Reconstructor::new();
    let err = recon.handle_event(mk_event(1, 0x3f, 8)).unwrap_err();
    assert_eq!(err, FlowError::OrphanResponse { key: 8 });
}

#[test]
fn clone_response_without_cached_request_is_an_orphan() {
    let mut recon = Reconstructor::new();
    let err = recon.handle_event(mk_event(1, 0xdc, 8)).unwrap_err();
    assert_eq!(err, FlowError::OrphanResponse { key: 8 });
}

#[test]
fn sigreturn_without_interrupted_call_is_an_orphan() {
    let mut recon = Reconstructor::new();
    let err = recon.handle_event(mk_event(0, 0x8b, 8)).unwrap_err();
    assert_eq!(err, FlowError::OrphanSignalReturn { key: 8 });
}

#[test]
fn response_to_an_empty_flow_has_no_pending_request() {
    let mut recon = Reconstructor {
        flows: vec![(5, TraceFlow::new())],
        pending_clone: None,
        sighand_set: HashSet::new(),
    };
    let err = recon.handle_event(mk_event(1, 0x3f, 5)).unwrap_err();
    assert_eq!(err, FlowError::NoPendingRequest { key: 5 });
}

#[test]
fn a_context_may_reappear_as_a_fresh_flow_after_its_flush() {
    let mut recon = Reconstructor::new();
    recon.handle_event(mk_event(0, 0xd6, 9)).unwrap();
    let out = recon.handle_event(mk_event(0, 0x5e, 9)).unwrap();
    assert_eq!(out.flushed.unwrap().1.events.len(), 2);

    // a new request under the same key starts over: the old flow is gone
    recon.handle_event(mk_event(0, 0x39, 9)).unwrap();
    let flows = recon.finish();
    assert_eq!(flows.len(), 1);
    assert_eq!(flows[0].0, 9);
    assert_eq!(flows[0].1.events.len(), 1);
    assert_eq!(flows[0].1.events[0].head.ax[7], 0x39);
}

#[test]
fn ignore_sentinel_handler_installs_are_not_remembered() {
    let mut recon = Reconstructor::new();
    let key = 0xe;
    recon.handle_event(mk_event(0, 0x86, key)).unwrap();
    let mut install_resp = mk_event(1, 0x86, key);
    // handler 1 is the ignore sentinel
    let mut action = vec![0u8; 24];
    action[0] = 1;
    install_resp.payloads.push(TracePayload { inout: 1, index: 1, data: action });
    recon.handle_event(install_resp).unwrap();

    recon.handle_event(mk_event(0, 0x3f, key)).unwrap();
    let mut resp = mk_event(1, 0x3f, key);
    resp.head.epc = 1;
    recon.handle_event(resp).unwrap();
    let flows = recon.finish();
    assert!(flows[0].1.signal_stack.is_empty());
    assert_eq!(flows[0].1.events.len(), 2);
}
