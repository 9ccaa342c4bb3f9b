//! Trace events and per-context flows.
//!
//! A [`TraceEvent`] is one framed record of the stream: a fixed-size header,
//! the payload blocks that followed it, and — once its response has been
//! fused in — the call's result.  A [`TraceFlow`] is the ordered list of
//! calls reconstructed for one execution context.

use vstd::prelude::*;
use std::collections::HashSet;

verus! {

/// Fixed-layout record header written by the tracing kernel.
///
/// By convention register 7 holds the syscall number and registers 0 to 6
/// its arguments.  `orig_a0` preserves the first argument because register 0
/// is overwritten by the clone/vfork emulation.  `sscratch` is the
/// per-context scratch identifier that keys flows.
#[derive(Clone, Copy, Debug)]
pub struct TraceHead {
    pub magic: u16,
    /// Size of this fixed header.
    pub headsize: u16,
    /// Size of the whole record, header and payload together.
    pub totalsize: u32,
    /// Direction: request or response.
    pub inout: u64,
    /// Trap cause.
    pub cause: u64,
    /// Faulting/return program counter.
    pub epc: u64,
    /// General registers at trap time.
    pub ax: [u64; 8],
    /// User stack pointer.
    pub usp: u64,
    /// Saved register snapshot.
    pub stack: [u64; 8],
    /// Original first argument, preserved across clone/vfork emulation.
    pub orig_a0: u64,
    /// Address-space identifier.
    pub satp: u64,
    /// Thread pointer.
    pub tp: u64,
    /// Per-context scratch identifier: the context key.
    pub sscratch: u64,
}

/// Mathematical value of one payload block.
#[verifier::ext_equal]
pub struct PayloadModel {
    pub inout: u64,
    pub index: usize,
    pub data: Seq<u8>,
}

/// One variable-length payload block: which argument slot it documents,
/// and its raw bytes.  The direction is inherited from the record header.
#[derive(Debug)]
pub struct TracePayload {
    pub inout: u64,
    pub index: usize,
    pub data: Vec<u8>,
}

impl View for TracePayload {
    type V = PayloadModel;

    open spec fn view(&self) -> PayloadModel {
        PayloadModel { inout: self.inout, index: self.index, data: self.data@ }
    }
}

impl Clone for TracePayload {
    /// Clones the block; the copy has the same model.
    fn clone(&self) -> (r: Self)
        ensures
            r@ == self@,
    {
        TracePayload { inout: self.inout, index: self.index, data: clone_bytes(&self.data) }
    }
}

/// Copies a byte vector, keeping its contents.
pub fn clone_bytes(v: &Vec<u8>) -> (r: Vec<u8>)
    ensures
        r@ == v@,
{
    let mut out: Vec<u8> = Vec::new();
    let mut i: usize = 0;
    while i < v.len()
        invariant
            i <= v@.len(),
            out@ == v@.take(i as int),
        decreases v@.len() - i,
    {
        out.push(v[i]);
        proof {
            assert(out@ =~= v@.take(i + 1));
        }
        i = i + 1;
    }
    proof {
        assert(v@.take(v@.len() as int) =~= v@);
    }
    out
}

/// Where an entry stands with respect to signal delivery: untouched by
/// signals, the synthesized entry of a handler invocation, or a call that a
/// signal interrupted.
#[derive(Clone, Copy, Debug, PartialEq, Eq, Structural)]
pub enum SigStage {
    Empty,
    Enter(u64),
    Exit(u64),
}

/// Mathematical value of one trace event.
#[verifier::ext_equal]
pub struct EventModel {
    pub head: TraceHead,
    pub result: u64,
    pub payloads: Seq<PayloadModel>,
    pub signal: SigStage,
}

/// One framed record; after reconstruction, a matched call with its fused
/// result and the payload blocks of both sides.
#[derive(Debug)]
pub struct TraceEvent {
    pub head: TraceHead,
    pub result: u64,
    pub payloads: Vec<TracePayload>,
    pub signal: SigStage,
}

impl View for TraceEvent {
    type V = EventModel;

    open spec fn view(&self) -> EventModel {
        EventModel {
            head: self.head,
            result: self.result,
            payloads: self.payloads@.map_values(|p: TracePayload| p@),
            signal: self.signal,
        }
    }
}

impl Clone for TraceEvent {
    /// Clones the event; the copy has the same model.
    fn clone(&self) -> (r: Self)
        ensures
            r@ == self@,
    {
        let payloads = self.payloads.clone();
        proof {
            assert(payloads@.map_values(|p: TracePayload| p@) =~= self.payloads@.map_values(
                |p: TracePayload| p@,
            ));
        }
        TraceEvent { head: self.head, result: self.result, payloads, signal: self.signal }
    }
}

/// Mathematical value of one per-context flow.
#[verifier::ext_equal]
pub struct FlowModel {
    pub events: Seq<EventModel>,
    pub signal_stack: Seq<EventModel>,
    pub sighand_set: Set<usize>,
}

/// The ordered calls reconstructed for one execution context, with the stack
/// of calls that signal deliveries have interrupted.
#[derive(Debug)]
pub struct TraceFlow {
    pub events: Vec<TraceEvent>,
    pub signal_stack: Vec<TraceEvent>,
    pub sighand_set: HashSet<usize>,
}

impl View for TraceFlow {
    type V = FlowModel;

    open spec fn view(&self) -> FlowModel {
        FlowModel {
            events: self.events@.map_values(|e: TraceEvent| e@),
            signal_stack: self.signal_stack@.map_values(|e: TraceEvent| e@),
            sighand_set: self.sighand_set@,
        }
    }
}

/// An empty flow model.
pub open spec fn empty_flow() -> FlowModel {
    FlowModel { events: Seq::empty(), signal_stack: Seq::empty(), sighand_set: Set::empty() }
}

impl TraceFlow {
    /// A new, empty flow.
    pub fn new() -> (r: Self)
        ensures
            r@ == empty_flow(),
    {
        let r = TraceFlow {
            events: Vec::new(),
            signal_stack: Vec::new(),
            sighand_set: HashSet::new(),
        };
        proof {
            assert(r@ =~~= empty_flow());
        }
        r
    }
}

} // verus!
