//! Framing tests: record round-trips and corrupt-stream rejection.

use lkdiff::event::{SigStage, TraceEvent, TraceHead, TracePayload};
use lkdiff::framer::{encode_event, parse_event, FramingError, LK_MAGIC, TE_SIZE};

fn mk_head(inout: u64, sysno: u64, key: u64) -> TraceHead {
    let mut ax = [0u64; 8];
    ax[7] = sysno;
    TraceHead {
        magic: LK_MAGIC,
        headsize: TE_SIZE as u16,
        totalsize: TE_SIZE as u32,
        inout,
        cause: 8,
        epc: 0x1234,
        ax,
        usp: 0xbeef,
        stack: [7u64; 8],
        orig_a0: 0x55,
        satp: 0x66,
        tp: 0x77,
        sscratch: key,
    }
}

fn mk_event(inout: u64, sysno: u64, key: u64) -> TraceEvent {
    TraceEvent { head: mk_head(inout, sysno, key), result: 0, payloads: Vec::new(), signal: SigStage::Empty }
}

#[test]
fn record_round_trip_keeps_registers_and_payload_bytes() {
    let mut req = mk_event(0, 0x38, 0x42);
    req.head.ax[0] = 0xffffffffffffff9c;
    req.head.ax[1] = 0x9000;
    req.payloads.push(TracePayload { inout: 0, index: 1, data: b"/tmp/x\0".to_vec() });
    req.payloads.push(TracePayload { inout: 0, index: 3, data: vec![1, 2, 3] });
    let bytes = encode_event(&req).unwrap();
    assert_eq!(bytes.len(), 200 + 8 + 7 + 8 + 3);

    let (decoded, advance) = parse_event(&bytes, 0).unwrap();
    assert_eq!(advance, bytes.len());
    assert_eq!(decoded.head.magic, LK_MAGIC);
    assert_eq!(decoded.head.headsize, 200);
    assert_eq!(decoded.head.totalsize as usize, bytes.len());
    assert_eq!(decoded.head.inout, req.head.inout);
    assert_eq!(decoded.head.cause, req.head.cause);
    assert_eq!(decoded.head.epc, req.head.epc);
    assert_eq!(decoded.head.ax, req.head.ax);
    assert_eq!(decoded.head.usp, req.head.usp);
    assert_eq!(decoded.head.stack, req.head.stack);
    assert_eq!(decoded.head.orig_a0, req.head.orig_a0);
    assert_eq!(decoded.head.satp, req.head.satp);
    assert_eq!(decoded.head.tp, req.head.tp);
    assert_eq!(decoded.head.sscratch, req.head.sscratch);
    assert_eq!(decoded.payloads.len(), 2);
    assert_eq!(decoded.payloads[0].index, 1);
    assert_eq!(decoded.payloads[0].data, b"/tmp/x\0".to_vec());
    assert_eq!(decoded.payloads[1].index, 3);
    assert_eq!(decoded.payloads[1].data, vec![1, 2, 3]);
}

#[test]
fn response_round_trip_keeps_direction() {
    let mut resp = mk_event(1, 0x3f, 0x43);
    resp.payloads.push(TracePayload { inout: 1, index: 1, data: b"hi\0".to_vec() });
    let bytes = encode_event(&resp).unwrap();
    let (decoded, _) = parse_event(&bytes, 0).unwrap();
    assert_eq!(decoded.head.inout, 1);
    assert_eq!(decoded.payloads[0].inout, 1);
}

#[test]
fn stream_ending_mid_header_is_truncated() {
    let bytes = encode_event(&mk_event(0, 0xd6, 1)).unwrap();
    let r = parse_event(&bytes[..100], 0);
    assert_eq!(r.unwrap_err(), FramingError::Truncated);
}

#[test]
fn record_overrunning_the_stream_is_truncated() {
    let bytes = encode_event(&mk_event(0, 0xd6, 1)).unwrap();
    let r = parse_event(&bytes[..199], 0);
    assert_eq!(r.unwrap_err(), FramingError::Truncated);
}

#[test]
fn bad_magic_is_rejected() {
    let mut bytes = encode_event(&mk_event(0, 0xd6, 1)).unwrap();
    bytes[0] = 0;
    assert_eq!(parse_event(&bytes, 0).unwrap_err(), FramingError::BadMagic);
}

#[test]
fn bad_header_size_is_rejected() {
    let mut bytes = encode_event(&mk_event(0, 0xd6, 1)).unwrap();
    bytes[2] = 0xff;
    assert_eq!(parse_event(&bytes, 0).unwrap_err(), FramingError::BadHeadSize);
}

#[test]
fn total_size_below_header_size_is_rejected() {
    let mut bytes = encode_event(&mk_event(0, 0xd6, 1)).unwrap();
    bytes[4] = 100;
    bytes[5] = 0;
    bytes[6] = 0;
    bytes[7] = 0;
    assert_eq!(parse_event(&bytes, 0).unwrap_err(), FramingError::BadTotalSize);
}

#[test]
fn payload_accounting_drift_is_rejected() {
    let mut evt = mk_event(1, 0x3f, 1);
    evt.payloads.push(TracePayload { inout: 1, index: 1, data: vec![9, 9] });
    let mut bytes = encode_event(&evt).unwrap();
    // the sub-header claims more bytes than the record holds
    bytes[204] = 0xff;
    assert_eq!(parse_event(&bytes, 0).unwrap_err(), FramingError::BadPayload);
}

#[test]
fn oversized_slot_index_cannot_be_encoded() {
    let mut evt = mk_event(0, 0x38, 1);
    evt.payloads.push(TracePayload { inout: 0, index: 0x10000, data: vec![1] });
    assert!(encode_event(&evt).is_none());
}

#[test]
fn empty_payload_blocks_round_trip() {
    let mut evt = mk_event(1, 0x3f, 1);
    evt.payloads.push(TracePayload { inout: 1, index: 1, data: Vec::new() });
    let bytes = encode_event(&evt).unwrap();
    assert_eq!(bytes.len(), 208);
    let (decoded, advance) = parse_event(&bytes, 0).unwrap();
    assert_eq!(advance, 208);
    assert_eq!(decoded.payloads.len(), 1);
    assert!(decoded.payloads[0].data.is_empty());
}
