//! Flow reconstructor: the per-context state machine that pairs each
//! syscall's entry record with its exit record despite interleaving across
//! contexts, clone/vfork fusion (a child's return edge may surface under a
//! brand-new context before the parent's own call returns), and asynchronous
//! signal delivery interrupting a pending call.
//!
//! The machine is specified by [`spec_step`], a total transition function on
//! the reconstructor's mathematical state; [`Reconstructor::handle_event`]
//! is proved to implement it exactly.

use vstd::prelude::*;
use vstd::seq_lib::*;
use vstd::bytes::{spec_u64_from_le_bytes, u64_from_le_bytes};
use vstd::slice::slice_subrange;
use vstd::array::{spec_array_fill_for_copy_type, spec_array_update};
use std::collections::HashSet;
use crate::event::{empty_flow, EventModel, FlowModel, SigStage, TraceEvent, TraceFlow, TraceHead, TracePayload};
use crate::sysno::{SYS_CLONE, SYS_EXECVE, SYS_EXIT_GROUP, SYS_RT_SIGACTION, SYS_RT_SIGRETURN};
use crate::{IN, OUT};

verus! {

broadcast use vstd::std_specs::hash::group_hash_axioms, vstd::array::group_array_axioms;

/// A non-fatal observation made while reconstructing; processing continues.
#[derive(Clone, Copy, Debug, PartialEq, Eq, Structural)]
pub enum Diagnostic {
    /// A new request arrived while the previous call of the same context
    /// never returned (the tracee was probably killed mid-call).
    StaleRequest { sysno: u64 },
    /// A response's syscall number differs from its matched request's.
    SysnoMismatch { response: u64, request: u64 },
}

/// A structural violation of request/response pairing; fatal, since no
/// further pairing can be trusted.
#[derive(Clone, Copy, Debug, PartialEq, Eq, Structural)]
pub enum FlowError {
    /// A context's first observed record is a response that no cached clone
    /// request can explain.
    OrphanResponse { key: u64 },
    /// A response arrived for a context whose flow holds no entry.
    NoPendingRequest { key: u64 },
    /// A signal return arrived while no call stood interrupted.
    OrphanSignalReturn { key: u64 },
}

/// Mathematical state of the reconstructor: per-context flows ordered by
/// context key, the cached outstanding clone request, and the set of
/// installed signal-handler entry addresses.
#[verifier::ext_equal]
pub struct ReconModel {
    pub flows: Seq<(u64, FlowModel)>,
    pub pending_clone: Option<EventModel>,
    pub sighand_set: Set<usize>,
}

/// What one step of the machine produces.
#[verifier::ext_equal]
pub struct StepModel {
    /// The state after the step; a failing step leaves the state it had
    /// reached (at most a fresh, still-empty context flow beyond where it
    /// started).
    pub state: ReconModel,
    /// A flow flushed by a terminal request, ready to print.
    pub flushed: Option<(u64, FlowModel)>,
    /// Diagnostics the step emits.
    pub diags: Seq<Diagnostic>,
    /// The structural violation that stopped the step, if any.
    pub error: Option<FlowError>,
}

/// Context keys appear at most once and in increasing order.
pub open spec fn flows_sorted(flows: Seq<(u64, FlowModel)>) -> bool {
    forall|i: int, j: int| 0 <= i < j < flows.len() ==> flows[i].0 < flows[j].0
}

/// Index of the flow keyed `k`, or -1 when none exists.
pub open spec fn flow_index(flows: Seq<(u64, FlowModel)>, k: u64) -> int
    decreases flows.len(),
{
    if flows.len() == 0 {
        -1
    } else if flows[0].0 == k {
        0
    } else {
        let r = flow_index(flows.drop_first(), k);
        if r < 0 {
            -1
        } else {
            1 + r
        }
    }
}

/// Position at which a flow keyed `k` is inserted to keep the keys ordered.
pub open spec fn insert_pos(flows: Seq<(u64, FlowModel)>, k: u64) -> int
    decreases flows.len(),
{
    if flows.len() == 0 {
        0
    } else if k < flows[0].0 {
        0
    } else {
        1 + insert_pos(flows.drop_first(), k)
    }
}

/// The flows with a new flow keyed `k` inserted in key order.
pub open spec fn insert_flow(flows: Seq<(u64, FlowModel)>, k: u64, f: FlowModel) -> Seq<
    (u64, FlowModel),
> {
    flows.insert(insert_pos(flows, k), (k, f))
}

/// `flow_index` finds the first occurrence of `k`, and a negative result
/// means `k` does not occur at all.
pub proof fn lemma_flow_index(flows: Seq<(u64, FlowModel)>, k: u64)
    ensures
        -1 <= flow_index(flows, k) < flows.len(),
        flow_index(flows, k) >= 0 ==> flows[flow_index(flows, k)].0 == k,
        flow_index(flows, k) >= 0 ==> forall|j: int|
            0 <= j < flow_index(flows, k) ==> (#[trigger] flows[j]).0 != k,
        flow_index(flows, k) == -1 ==> forall|j: int|
            0 <= j < flows.len() ==> (#[trigger] flows[j]).0 != k,
    decreases flows.len(),
{
    if flows.len() > 0 && flows[0].0 != k {
        lemma_flow_index(flows.drop_first(), k);
        if flow_index(flows.drop_first(), k) >= 0 {
            assert forall|j: int| 0 <= j < flow_index(flows, k) implies (#[trigger] flows[j]).0
                != k by {
                if j >= 1 {
                    assert(flows[j] == flows.drop_first()[j - 1]);
                }
            }
        } else {
            assert forall|j: int| 0 <= j < flows.len() implies (#[trigger] flows[j]).0 != k by {
                if j >= 1 {
                    assert(flows[j] == flows.drop_first()[j - 1]);
                }
            }
        }
    }
}

/// `insert_pos` splits the keys: everything before it is smaller than `k`,
/// and — when the flows are sorted and `k` is absent — everything from it
/// on is larger.
pub proof fn lemma_insert_pos(flows: Seq<(u64, FlowModel)>, k: u64)
    requires
        flows_sorted(flows),
        flow_index(flows, k) == -1,
    ensures
        0 <= insert_pos(flows, k) <= flows.len(),
        forall|j: int| 0 <= j < insert_pos(flows, k) ==> (#[trigger] flows[j]).0 < k,
        forall|j: int|
            insert_pos(flows, k) <= j < flows.len() ==> (#[trigger] flows[j]).0 > k,
    decreases flows.len(),
{
    lemma_flow_index(flows, k);
    if flows.len() > 0 && !(k < flows[0].0) {
        let rest = flows.drop_first();
        assert forall|i: int, j: int| 0 <= i < j < rest.len() implies (#[trigger] rest[i]).0 < (
        #[trigger] rest[j]).0 by {
            assert(rest[i] == flows[i + 1]);
            assert(rest[j] == flows[j + 1]);
        }
        assert(flow_index(rest, k) == -1) by {
            lemma_flow_index(rest, k);
            if flow_index(rest, k) >= 0 {
                let fi = flow_index(rest, k);
                assert(rest[fi] == flows[fi + 1]);
            }
        }
        lemma_insert_pos(rest, k);
        assert forall|j: int| 0 <= j < insert_pos(flows, k) implies (#[trigger] flows[j]).0
            < k by {
            if j >= 1 {
                assert(flows[j] == rest[j - 1]);
            }
        }
        assert forall|j: int| insert_pos(flows, k) <= j < flows.len() implies (
        #[trigger] flows[j]).0 > k by {
            assert(flows[j] == rest[j - 1]);
        }
    }
}

/// Inserting an absent key keeps the flows sorted and adds exactly that key.
pub proof fn lemma_insert_flow_sorted(flows: Seq<(u64, FlowModel)>, k: u64, f: FlowModel)
    requires
        flows_sorted(flows),
        flow_index(flows, k) == -1,
    ensures
        flows_sorted(insert_flow(flows, k, f)),
        insert_flow(flows, k, f).len() == flows.len() + 1,
{
    lemma_insert_pos(flows, k);
}

/// The installed handler address carried by an event's first payload block,
/// when the block is present and long enough to hold a signal action.
pub open spec fn spec_sigaction_handler(e: EventModel) -> Option<u64> {
    if e.payloads.len() >= 1 && e.payloads[0].data.len() >= 24 {
        Some(spec_u64_from_le_bytes(e.payloads[0].data.subrange(0, 8)))
    } else {
        None
    }
}

/// The all-zero header carried by a synthesized signal-enter entry.
pub open spec fn spec_zero_head() -> TraceHead {
    TraceHead {
        magic: 0,
        headsize: 0,
        totalsize: 0,
        inout: 0,
        cause: 0,
        epc: 0,
        ax: spec_array_fill_for_copy_type::<u64, 8>(0u64),
        usp: 0,
        stack: spec_array_fill_for_copy_type::<u64, 8>(0u64),
        orig_a0: 0,
        satp: 0,
        tp: 0,
        sscratch: 0,
    }
}

/// The entry synthesized when a handler invocation for signal `signo` is
/// observed: a zero-argument pseudo-call, already complete.
pub open spec fn spec_signal_entry(signo: u64) -> EventModel {
    EventModel {
        head: TraceHead {
            inout: OUT,
            ax: spec_array_update(spec_zero_head().ax, 0, signo),
            ..spec_zero_head()
        },
        result: 0,
        payloads: Seq::empty(),
        signal: SigStage::Enter(signo),
    }
}

/// The matched call that fusing response `resp` into pending request `req`
/// yields: the request's registers — with register 0 restored from the
/// response's saved original argument when the call is a clone, since the
/// vfork emulation clobbers it — the response's register 0 as the result,
/// and the payload blocks of both sides.
pub open spec fn spec_fuse(req: EventModel, resp: EventModel) -> EventModel {
    EventModel {
        head: TraceHead {
            inout: OUT,
            ax: if req.head.ax@[7] == SYS_CLONE {
                spec_array_update(req.head.ax, 0, resp.head.orig_a0)
            } else {
                req.head.ax
            },
            ..req.head
        },
        result: resp.head.ax@[0],
        payloads: req.payloads + resp.payloads,
        signal: req.signal,
    }
}

/// A step that failed: the state stands, nothing is flushed or reported
/// beyond the error itself.
pub open spec fn step_fail(m: ReconModel, err: FlowError) -> StepModel {
    StepModel { state: m, flushed: None, diags: Seq::empty(), error: Some(err) }
}

/// One request processed against the flow at index `idx`.
pub open spec fn spec_step_request(m: ReconModel, e: EventModel, idx: int) -> StepModel {
    let k = m.flows[idx].0;
    let f = m.flows[idx].1;
    let diags: Seq<Diagnostic> = if f.events.len() > 0 && f.events.last().head.inout != OUT {
        seq![Diagnostic::StaleRequest { sysno: f.events.last().head.ax@[7] }]
    } else {
        Seq::empty()
    };
    let sysno = e.head.ax@[7];
    if sysno == SYS_CLONE {
        // The result may need fusing into a brand-new child context as well
        // as here, so cache the request before storing it.
        let f2 = FlowModel { events: f.events.push(e), ..f };
        StepModel {
            state: ReconModel {
                flows: m.flows.update(idx, (k, f2)),
                pending_clone: Some(e),
                ..m
            },
            flushed: None,
            diags,
            error: None,
        }
    } else if sysno == SYS_RT_SIGRETURN {
        // The interrupted call becomes the active pending request again;
        // the signal-return request itself is not stored.
        if f.signal_stack.len() == 0 {
            step_fail(m, FlowError::OrphanSignalReturn { key: k })
        } else {
            let f2 = FlowModel {
                events: f.events.push(f.signal_stack.last()),
                signal_stack: f.signal_stack.drop_last(),
                ..f
            };
            StepModel {
                state: ReconModel { flows: m.flows.update(idx, (k, f2)), ..m },
                flushed: None,
                diags,
                error: None,
            }
        }
    } else if sysno == SYS_EXIT_GROUP {
        // Terminal: append, flush the whole flow, destroy it.
        let f2 = FlowModel { events: f.events.push(e), ..f };
        StepModel {
            state: ReconModel { flows: m.flows.remove(idx), ..m },
            flushed: Some((k, f2)),
            diags,
            error: None,
        }
    } else {
        let f2 = FlowModel { events: f.events.push(e), ..f };
        StepModel {
            state: ReconModel { flows: m.flows.update(idx, (k, f2)), ..m },
            flushed: None,
            diags,
            error: None,
        }
    }
}

/// One response processed against the flow at index `idx`.
pub open spec fn spec_step_response(m: ReconModel, e: EventModel, idx: int) -> StepModel {
    let k = m.flows[idx].0;
    let f = m.flows[idx].1;
    if f.events.len() == 0 {
        step_fail(m, FlowError::NoPendingRequest { key: k })
    } else {
        let last = f.events.last();
        let diags: Seq<Diagnostic> = if e.head.ax@[7] != last.head.ax@[7] {
            seq![
                Diagnostic::SysnoMismatch {
                    response: e.head.ax@[7],
                    request: last.head.ax@[7],
                },
            ]
        } else {
            Seq::empty()
        };
        if m.sighand_set.contains(e.head.epc as usize) && last.head.ax@[7] != SYS_EXECVE {
            // The response's program counter is a registered handler entry:
            // asynchronous delivery.  Defer the pending call and synthesize
            // the handler invocation.  An execve pending request is exempt,
            // since exec discards pending signal state.
            let signo = e.head.ax@[0];
            let interrupted = EventModel { signal: SigStage::Exit(signo), ..last };
            let f2 = FlowModel {
                events: f.events.drop_last().push(spec_signal_entry(signo)),
                signal_stack: f.signal_stack.push(interrupted),
                ..f
            };
            StepModel {
                state: ReconModel { flows: m.flows.update(idx, (k, f2)), ..m },
                flushed: None,
                diags,
                error: None,
            }
        } else {
            // Normal return: fuse the response into the pending request.
            let fused = spec_fuse(last, e);
            let f2 = FlowModel { events: f.events.update(f.events.len() - 1, fused), ..f };
            let sighands = if last.head.ax@[7] == SYS_RT_SIGACTION {
                // A successful install of a non-default handler is
                // remembered, so later deliveries can be recognized.
                match spec_sigaction_handler(e) {
                    Some(h) => if h != 0 && h != 1 {
                        m.sighand_set.insert(h as usize)
                    } else {
                        m.sighand_set
                    },
                    None => m.sighand_set,
                }
            } else {
                m.sighand_set
            };
            StepModel {
                state: ReconModel {
                    flows: m.flows.update(idx, (k, f2)),
                    sighand_set: sighands,
                    ..m
                },
                flushed: None,
                diags,
                error: None,
            }
        }
    }
}

/// The transition function of the reconstructor: how one event, taken in
/// file order, transforms the state.
pub open spec fn spec_step(m: ReconModel, e: EventModel) -> StepModel {
    let k = e.head.sscratch;
    let idx = flow_index(m.flows, k);
    if idx < 0 {
        if e.head.inout == IN {
            // Ordinary first sighting of a context: a fresh flow, then the
            // request is processed against it.
            let flows1 = insert_flow(m.flows, k, empty_flow());
            let m1 = ReconModel { flows: flows1, ..m };
            spec_step_request(m1, e, flow_index(flows1, k))
        } else if e.head.ax@[7] == SYS_CLONE {
            // A vfork child's first observed record is its own return edge:
            // seed the new flow with the cached clone request.
            match m.pending_clone {
                Some(req) => {
                    let seeded = FlowModel { events: seq![req], ..empty_flow() };
                    let flows1 = insert_flow(m.flows, k, seeded);
                    let m1 = ReconModel { flows: flows1, pending_clone: None, ..m };
                    spec_step_response(m1, e, flow_index(flows1, k))
                },
                None => step_fail(m, FlowError::OrphanResponse { key: k }),
            }
        } else {
            step_fail(m, FlowError::OrphanResponse { key: k })
        }
    } else {
        if e.head.inout == IN {
            spec_step_request(m, e, idx)
        } else {
            spec_step_response(m, e, idx)
        }
    }
}

/// What one successful step hands back to the caller.
#[derive(Debug)]
pub struct StepOut {
    /// A flow flushed by a terminal request, with its context key, ready to
    /// print.
    pub flushed: Option<(u64, TraceFlow)>,
    /// Diagnostics the step emitted, in order.
    pub diags: Vec<Diagnostic>,
}

/// The reconstructor: owns every flow, the cached outstanding clone request
/// and the set of known signal-handler entry addresses for a whole run.
pub struct Reconstructor {
    /// Per-context flows, keyed and ordered by context key.
    pub flows: Vec<(u64, TraceFlow)>,
    /// At most one cached clone-with-vfork request.
    pub pending_clone: Option<TraceEvent>,
    /// Entry addresses of installed signal handlers, across all contexts.
    pub sighand_set: HashSet<usize>,
}

impl View for Reconstructor {
    type V = ReconModel;

    open spec fn view(&self) -> ReconModel {
        ReconModel {
            flows: self.flows@.map_values(|p: (u64, TraceFlow)| (p.0, p.1@)),
            pending_clone: match self.pending_clone {
                Some(e) => Some(e@),
                None => None,
            },
            sighand_set: self.sighand_set@,
        }
    }
}

/// The state every reconstructor operation starts from and returns to:
/// context keys orderly and unique.
pub open spec fn recon_wf(m: ReconModel) -> bool {
    flows_sorted(m.flows)
}

/// The state before any event: no flows, no cached clone request, no known
/// handler addresses.
pub open spec fn empty_recon() -> ReconModel {
    ReconModel { flows: Seq::empty(), pending_clone: None, sighand_set: Set::empty() }
}

impl Reconstructor {
    /// A reconstructor that has seen nothing yet.
    pub fn new() -> (r: Self)
        ensures
            r@ == empty_recon(),
            recon_wf(r@),
    {
        let r = Reconstructor { flows: Vec::new(), pending_clone: None, sighand_set: HashSet::new() };
        proof {
            assert(r@ =~~= empty_recon());
        }
        r
    }

    /// Index of the flow keyed `k`, if one exists.
    fn find_flow_index(&self, k: u64) -> (r: Option<usize>)
        ensures
            match r {
                Some(i) => flow_index(self@.flows, k) == i,
                None => flow_index(self@.flows, k) == -1,
            },
    {
        let ghost flows = self@.flows;
        let mut i: usize = 0;
        while i < self.flows.len()
            invariant
                i <= self.flows@.len(),
                flows == self@.flows,
                flows.len() == self.flows@.len(),
                forall|j: int| 0 <= j < i ==> (#[trigger] flows[j]).0 != k,
            decreases self.flows@.len() - i,
        {
            if self.flows[i].0 == k {
                proof {
                    assert(flows[i as int].0 == k);
                    lemma_flow_index(flows, k);
                    let fi = flow_index(flows, k);
                    if fi < i {
                        assert(flows[fi].0 == k);
                    }
                    if fi > i {
                        assert(flows[i as int].0 != k);
                    }
                }
                return Some(i);
            }
            i = i + 1;
        }
        proof {
            lemma_flow_index(flows, k);
            let fi = flow_index(flows, k);
            if fi >= 0 {
                assert(flows[fi].0 == k);
            }
        }
        None
    }

    /// Inserts a new flow keyed `k` at its ordered position and returns that
    /// position.
    fn insert_flow_at(&mut self, k: u64, flow: TraceFlow) -> (pos: usize)
        requires
            recon_wf(old(self)@),
            flow_index(old(self)@.flows, k) == -1,
        ensures
            recon_wf(final(self)@),
            final(self)@.flows == insert_flow(old(self)@.flows, k, flow@),
            final(self)@.pending_clone == old(self)@.pending_clone,
            final(self)@.sighand_set == old(self)@.sighand_set,
            pos == flow_index(final(self)@.flows, k),
            pos < final(self)@.flows.len(),
    {
        let ghost flows = self@.flows;
        proof {
            lemma_insert_pos(flows, k);
        }
        let mut i: usize = 0;
        while i < self.flows.len() && self.flows[i].0 < k
            invariant
                i <= self.flows@.len(),
                flows == self@.flows,
                flows.len() == self.flows@.len(),
                forall|j: int| 0 <= j < i ==> (#[trigger] flows[j]).0 < k,
            decreases self.flows@.len() - i,
        {
            i = i + 1;
        }
        proof {
            lemma_flow_index(flows, k);
            let p = insert_pos(flows, k);
            if i < p {
                assert(flows[i as int].0 < k);
            }
            if i > p {
                assert(flows[p].0 > k);
                assert(flows[p].0 < k);
            }
            assert(i == p);
        }
        let ghost old_model = self@;
        self.flows.insert(i, (k, flow));
        proof {
            let new_flows = self@.flows;
            assert(new_flows =~= insert_flow(old_model.flows, k, flow@)) by {
                assert(self.flows@ == old(self).flows@.insert(i as int, (k, flow)));
                assert(forall|j: int|
                    0 <= j < new_flows.len() ==> new_flows[j] == (#[trigger] self.flows@[j].0,
                    self.flows@[j].1@));
                assert(forall|j: int|
                    0 <= j < flows.len() ==> flows[j] == (#[trigger] old(self).flows@[j].0, old(
                        self,
                    ).flows@[j].1@));
            }
            lemma_insert_flow_sorted(old_model.flows, k, flow@);
            assert(final(self)@.pending_clone == old(self)@.pending_clone);
            assert(final(self)@.sighand_set == old(self)@.sighand_set);
            lemma_flow_index(new_flows, k);
            let fi = flow_index(new_flows, k);
            assert(new_flows[i as int].0 == k);
            if fi < i {
                assert(new_flows[fi].0 == old_model.flows[fi].0);
                assert(new_flows[fi].0 < k);
            }
            assert(fi == i);
        }
        i
    }
}

impl Reconstructor {
    /// Processes a request against the existing flow at `idx`, as
    /// [`spec_step_request`] says.
    fn step_request(&mut self, idx: usize, evt: TraceEvent) -> (r: Result<StepOut, FlowError>)
        requires
            recon_wf(old(self)@),
            idx < old(self).flows@.len(),
        ensures
            recon_wf(final(self)@),
            ({
                let sm = spec_step_request(old(self)@, evt@, idx as int);
                match r {
                    Ok(out) => {
                        &&& sm.error is None
                        &&& final(self)@ == sm.state
                        &&& match out.flushed {
                            Some(p) => sm.flushed == Some((p.0, p.1@)),
                            None => sm.flushed is None,
                        }
                        &&& out.diags@ == sm.diags
                    },
                    Err(fe) => sm.error == Some(fe) && final(self)@ == old(self)@,
                }
            }),
    {
        let ghost m = old(self)@;
        let ghost sm = spec_step_request(m, evt@, idx as int);
        let ghost e = evt@;
        let mut pair = self.flows.remove(idx);
        let k = pair.0;
        let ghost f = m.flows[idx as int].1;
        proof {
            assert(m.flows[idx as int] == (k, pair.1@));
        }
        let mut diags: Vec<Diagnostic> = Vec::new();
        if pair.1.events.len() > 0 {
            let last = &pair.1.events[pair.1.events.len() - 1];
            proof {
                assert(f.events.last() == last@);
            }
            if last.head.inout != OUT {
                diags.push(Diagnostic::StaleRequest { sysno: last.head.ax[7] });
            }
        }
        let ghost spec_diags: Seq<Diagnostic> = if f.events.len() > 0 && f.events.last().head.inout
            != OUT {
            seq![Diagnostic::StaleRequest { sysno: f.events.last().head.ax@[7] }]
        } else {
            Seq::empty()
        };
        proof {
            assert(diags@ =~= spec_diags);
        }
        let sysno = evt.head.ax[7];
        if sysno == SYS_CLONE {
            self.pending_clone = Some(evt.clone());
            pair.1.events.push(evt);
            proof {
                assert(pair.1@ =~~= (FlowModel { events: f.events.push(e), ..f }));
            }
            self.flows.insert(idx, pair);
            proof {
                lemma_remove_insert_update(old(self).flows@, self.flows@, idx as int);
                assert(final(self)@ =~~= sm.state);
                lemma_update_keeps_sorted(m.flows, sm.state.flows, idx as int);
            }
            Ok(StepOut { flushed: None, diags })
        } else if sysno == SYS_RT_SIGRETURN {
            match pair.1.signal_stack.pop() {
                Some(restored) => {
                    proof {
                        assert(restored@ == f.signal_stack.last());
                        assert(pair.1@.signal_stack =~= f.signal_stack.drop_last());
                    }
                    pair.1.events.push(restored);
                    proof {
                        assert(pair.1@ =~~= (FlowModel {
                            events: f.events.push(f.signal_stack.last()),
                            signal_stack: f.signal_stack.drop_last(),
                            ..f
                        }));
                    }
                    self.flows.insert(idx, pair);
                    proof {
                        lemma_remove_insert_update(old(self).flows@, self.flows@, idx as int);
                        assert(final(self)@ =~~= sm.state);
                        lemma_update_keeps_sorted(m.flows, sm.state.flows, idx as int);
                    }
                    Ok(StepOut { flushed: None, diags })
                },
                None => {
                    self.flows.insert(idx, pair);
                    proof {
                        lemma_remove_insert_update(old(self).flows@, self.flows@, idx as int);
                        assert(self.flows@[idx as int].1@ =~~= f);
                        assert(self@.flows =~= m.flows.update(idx as int, m.flows[idx as int]));
                        assert(m.flows.update(idx as int, m.flows[idx as int]) =~= m.flows);
                        assert(final(self)@ =~~= old(self)@);
                    }
                    Err(FlowError::OrphanSignalReturn { key: k })
                },
            }
        } else if sysno == SYS_EXIT_GROUP {
            pair.1.events.push(evt);
            proof {
                assert(pair.1@ =~~= (FlowModel { events: f.events.push(e), ..f }));
                lemma_remove_map(old(self).flows@, idx as int);
                assert(final(self)@ =~~= sm.state);
                lemma_remove_keeps_sorted(m.flows, idx as int);
            }
            Ok(StepOut { flushed: Some(pair), diags })
        } else {
            pair.1.events.push(evt);
            proof {
                assert(pair.1@ =~~= (FlowModel { events: f.events.push(e), ..f }));
            }
            self.flows.insert(idx, pair);
            proof {
                lemma_remove_insert_update(old(self).flows@, self.flows@, idx as int);
                assert(final(self)@ =~~= sm.state);
                lemma_update_keeps_sorted(m.flows, sm.state.flows, idx as int);
            }
            Ok(StepOut { flushed: None, diags })
        }
    }
}

/// A remove followed by an insert of a new entry at the same position is,
/// on the model, an update at that position.
pub proof fn lemma_remove_insert_update(
    orig: Seq<(u64, TraceFlow)>,
    after: Seq<(u64, TraceFlow)>,
    idx: int,
)
    requires
        0 <= idx < orig.len(),
        after =~= orig.remove(idx).insert(idx, after[idx]),
    ensures
        after.map_values(|p: (u64, TraceFlow)| (p.0, p.1@)) =~= orig.map_values(
            |p: (u64, TraceFlow)| (p.0, p.1@),
        ).update(idx, (after[idx].0, after[idx].1@)),
{
    let f = |p: (u64, TraceFlow)| (p.0, p.1@);
    assert forall|j: int| 0 <= j < after.len() implies after.map_values(f)[j] == orig.map_values(
        f,
    ).update(idx, (after[idx].0, after[idx].1@))[j] by {
        if j < idx {
            assert(after[j] == orig.remove(idx)[j]);
            assert(orig.remove(idx)[j] == orig[j]);
        } else if j > idx {
            assert(after[j] == orig.remove(idx)[j - 1]);
            assert(orig.remove(idx)[j - 1] == orig[j]);
        }
    }
}

/// Removing an entry commutes with taking the model view.
pub proof fn lemma_remove_map(orig: Seq<(u64, TraceFlow)>, idx: int)
    requires
        0 <= idx < orig.len(),
    ensures
        orig.remove(idx).map_values(|p: (u64, TraceFlow)| (p.0, p.1@)) =~= orig.map_values(
            |p: (u64, TraceFlow)| (p.0, p.1@),
        ).remove(idx),
{
    let f = |p: (u64, TraceFlow)| (p.0, p.1@);
    assert forall|j: int| 0 <= j < orig.len() - 1 implies orig.remove(idx).map_values(f)[j]
        == orig.map_values(f).remove(idx)[j] by {
        if j < idx {
            assert(orig.remove(idx)[j] == orig[j]);
        } else {
            assert(orig.remove(idx)[j] == orig[j + 1]);
        }
    }
}

/// Updating one entry in place keeps the keys sorted when the key at that
/// position is unchanged.
pub proof fn lemma_update_keeps_sorted(
    before: Seq<(u64, FlowModel)>,
    after: Seq<(u64, FlowModel)>,
    idx: int,
)
    requires
        flows_sorted(before),
        0 <= idx < before.len(),
        after.len() == before.len(),
        after[idx].0 == before[idx].0,
        forall|j: int| 0 <= j < after.len() && j != idx ==> after[j] == before[j],
    ensures
        flows_sorted(after),
{
    assert forall|i: int, j: int| 0 <= i < j < after.len() implies after[i].0 < after[j].0 by {
        assert(before[i].0 < before[j].0);
    }
}

/// Removing an entry keeps the keys sorted.
pub proof fn lemma_remove_keeps_sorted(flows: Seq<(u64, FlowModel)>, idx: int)
    requires
        flows_sorted(flows),
        0 <= idx < flows.len(),
    ensures
        flows_sorted(flows.remove(idx)),
{
    let after = flows.remove(idx);
    assert forall|i: int, j: int| 0 <= i < j < after.len() implies after[i].0 < after[j].0 by {
        let i0 = if i < idx { i } else { i + 1 };
        let j0 = if j < idx { j } else { j + 1 };
        assert(after[i] == flows[i0]);
        assert(after[j] == flows[j0]);
        assert(flows[i0].0 < flows[j0].0);
    }
}

impl Reconstructor {
    /// Processes a response against the existing flow at `idx`, as
    /// [`spec_step_response`] says.
    fn step_response(&mut self, idx: usize, evt: TraceEvent) -> (r: Result<StepOut, FlowError>)
        requires
            recon_wf(old(self)@),
            idx < old(self).flows@.len(),
        ensures
            recon_wf(final(self)@),
            ({
                let sm = spec_step_response(old(self)@, evt@, idx as int);
                match r {
                    Ok(out) => {
                        &&& sm.error is None
                        &&& final(self)@ == sm.state
                        &&& match out.flushed {
                            Some(p) => sm.flushed == Some((p.0, p.1@)),
                            None => sm.flushed is None,
                        }
                        &&& out.diags@ == sm.diags
                    },
                    Err(fe) => sm.error == Some(fe) && final(self)@ == old(self)@,
                }
            }),
    {
        let ghost m = old(self)@;
        let ghost sm = spec_step_response(m, evt@, idx as int);
        let ghost e = evt@;
        let mut pair = self.flows.remove(idx);
        let k = pair.0;
        let ghost f = m.flows[idx as int].1;
        proof {
            assert(m.flows[idx as int] == (k, pair.1@));
        }
        if pair.1.events.len() == 0 {
            self.flows.insert(idx, pair);
            proof {
                lemma_remove_insert_update(old(self).flows@, self.flows@, idx as int);
                assert(self.flows@[idx as int].1@ =~~= f);
                assert(self@.flows =~= m.flows.update(idx as int, m.flows[idx as int]));
                assert(m.flows.update(idx as int, m.flows[idx as int]) =~= m.flows);
                assert(final(self)@ =~~= old(self)@);
            }
            return Err(FlowError::NoPendingRequest { key: k });
        }
        let n = pair.1.events.len();
        let last_sysno = pair.1.events[n - 1].head.ax[7];
        proof {
            assert(f.events.last() == pair.1.events@[n - 1]@);
            assert(last_sysno == f.events.last().head.ax@[7]);
        }
        let mut diags: Vec<Diagnostic> = Vec::new();
        if evt.head.ax[7] != last_sysno {
            diags.push(
                Diagnostic::SysnoMismatch { response: evt.head.ax[7], request: last_sysno },
            );
        }
        let ghost spec_diags: Seq<Diagnostic> = if e.head.ax@[7] != f.events.last().head.ax@[7] {
            seq![
                Diagnostic::SysnoMismatch {
                    response: e.head.ax@[7],
                    request: f.events.last().head.ax@[7],
                },
            ]
        } else {
            Seq::empty()
        };
        proof {
            assert(diags@ =~= spec_diags);
        }
        if self.sighand_set.contains(&(evt.head.epc as usize)) && last_sysno != SYS_EXECVE {
            // Asynchronous signal delivery: defer the pending call and
            // synthesize the handler invocation.
            let signo = evt.head.ax[0];
            let mut interrupted = pair.1.events.pop().unwrap();
            interrupted.signal = SigStage::Exit(signo);
            proof {
                assert(interrupted@ =~~= (EventModel {
                    signal: SigStage::Exit(signo),
                    ..f.events.last()
                }));
            }
            pair.1.signal_stack.push(interrupted);
            let mut sig_ax: [u64; 8] = [0; 8];
            sig_ax[0] = signo;
            let sig_entry = TraceEvent {
                head: TraceHead {
                    magic: 0,
                    headsize: 0,
                    totalsize: 0,
                    inout: OUT,
                    cause: 0,
                    epc: 0,
                    ax: sig_ax,
                    usp: 0,
                    stack: [0; 8],
                    orig_a0: 0,
                    satp: 0,
                    tp: 0,
                    sscratch: 0,
                },
                result: 0,
                payloads: Vec::new(),
                signal: SigStage::Enter(signo),
            };
            proof {
                assert(sig_ax@ =~= spec_signal_entry(signo).head.ax@);
                assert(sig_ax == spec_signal_entry(signo).head.ax);
                assert(sig_entry@ =~~= spec_signal_entry(signo));
            }
            pair.1.events.push(sig_entry);
            proof {
                assert(pair.1@.events =~= f.events.drop_last().push(spec_signal_entry(signo)));
                assert(pair.1@ =~~= (FlowModel {
                    events: f.events.drop_last().push(spec_signal_entry(signo)),
                    signal_stack: f.signal_stack.push(
                        EventModel { signal: SigStage::Exit(signo), ..f.events.last() },
                    ),
                    ..f
                }));
            }
            self.flows.insert(idx, pair);
            proof {
                lemma_remove_insert_update(old(self).flows@, self.flows@, idx as int);
                assert(final(self)@ =~~= sm.state);
                lemma_update_keeps_sorted(m.flows, sm.state.flows, idx as int);
            }
            Ok(StepOut { flushed: None, diags })
        } else {
            // Normal return: fuse the response into the pending request.
            let ehead = evt.head;
            let mut last = pair.1.events.pop().unwrap();
            if last.head.ax[7] == SYS_CLONE {
                last.head.ax[0] = ehead.orig_a0;
            }
            last.head.inout = OUT;
            last.result = ehead.ax[0];
            proof {
                if f.events.last().head.ax@[7] == SYS_CLONE {
                    assert(last.head.ax@ =~= spec_array_update(
                        f.events.last().head.ax,
                        0,
                        e.head.orig_a0,
                    )@);
                    assert(last.head.ax == spec_array_update(
                        f.events.last().head.ax,
                        0,
                        e.head.orig_a0,
                    ));
                }
            }
            if last.head.ax[7] == SYS_RT_SIGACTION {
                // Remember a successful install of a non-default handler.
                if evt.payloads.len() >= 1 {
                    let p0 = &evt.payloads[0];
                    if p0.data.len() >= 24 {
                        proof {
                            assert(p0.data@.subrange(0, 8) == e.payloads[0].data.subrange(0, 8));
                        }
                        let h = u64_from_le_bytes(slice_subrange(p0.data.as_slice(), 0, 8));
                        if h != 0 && h != 1 {
                            self.sighand_set.insert(h as usize);
                        }
                    }
                }
            }
            let mut resp_payloads = evt.payloads;
            last.payloads.append(&mut resp_payloads);
            proof {
                assert(last.payloads@.map_values(|p: TracePayload| p@) =~= f.events.last().payloads
                    + e.payloads);
                assert(last@ =~~= spec_fuse(f.events.last(), e));
            }
            pair.1.events.push(last);
            proof {
                assert(pair.1@.events =~= f.events.update(
                    f.events.len() - 1,
                    spec_fuse(f.events.last(), e),
                ));
                assert(pair.1@ =~~= (FlowModel {
                    events: f.events.update(f.events.len() - 1, spec_fuse(f.events.last(), e)),
                    ..f
                }));
            }
            self.flows.insert(idx, pair);
            proof {
                lemma_remove_insert_update(old(self).flows@, self.flows@, idx as int);
                assert(final(self)@.flows =~= sm.state.flows);
                assert(final(self)@.sighand_set =~= sm.state.sighand_set);
                assert(final(self)@ =~~= sm.state);
                lemma_update_keeps_sorted(m.flows, sm.state.flows, idx as int);
            }
            Ok(StepOut { flushed: None, diags })
        }
    }
}

impl Reconstructor {
    /// Processes one event, taken in file order, exactly as the transition
    /// function [`spec_step`] says: the state is transformed, a flow flushed
    /// by a terminal request is handed back, diagnostics are reported, and a
    /// structural violation stops the step with the state unchanged.
    pub fn handle_event(&mut self, evt: TraceEvent) -> (r: Result<StepOut, FlowError>)
        requires
            recon_wf(old(self)@),
        ensures
            recon_wf(final(self)@),
            ({
                let sm = spec_step(old(self)@, evt@);
                match r {
                    Ok(out) => {
                        &&& sm.error is None
                        &&& final(self)@ == sm.state
                        &&& match out.flushed {
                            Some(p) => sm.flushed == Some((p.0, p.1@)),
                            None => sm.flushed is None,
                        }
                        &&& out.diags@ == sm.diags
                    },
                    Err(fe) => sm.error == Some(fe) && final(self)@ == sm.state,
                }
            }),
    {
        let ghost m = old(self)@;
        let ghost sm = spec_step(m, evt@);
        let k = evt.head.sscratch;
        let idx: usize = match self.find_flow_index(k) {
            Some(i) => {
                proof {
                    lemma_flow_index(m.flows, k);
                }
                i
            },
            None => {
                if evt.head.inout == IN {
                    let pos = self.insert_flow_at(k, TraceFlow::new());
                    proof {
                        assert(self@ =~~= (ReconModel {
                            flows: insert_flow(m.flows, k, empty_flow()),
                            ..m
                        }));
                    }
                    pos
                } else if evt.head.ax[7] == SYS_CLONE {
                    match self.pending_clone.take() {
                        Some(req) => {
                            let ghost reqm = req@;
                            let mut seeded = TraceFlow::new();
                            seeded.events.push(req);
                            proof {
                                assert(seeded@ =~~= (FlowModel {
                                    events: seq![reqm],
                                    ..empty_flow()
                                }));
                            }
                            let pos = self.insert_flow_at(k, seeded);
                            proof {
                                assert(self@ =~~= (ReconModel {
                                    flows: insert_flow(
                                        m.flows,
                                        k,
                                        FlowModel { events: seq![reqm], ..empty_flow() },
                                    ),
                                    pending_clone: None,
                                    ..m
                                }));
                            }
                            pos
                        },
                        None => {
                            proof {
                                assert(final(self)@ =~~= old(self)@);
                            }
                            return Err(FlowError::OrphanResponse { key: k });
                        },
                    }
                } else {
                    return Err(FlowError::OrphanResponse { key: k });
                }
            },
        };
        let ghost m1 = self@;
        proof {
            assert(sm == if evt@.head.inout == IN {
                spec_step_request(m1, evt@, idx as int)
            } else {
                spec_step_response(m1, evt@, idx as int)
            });
        }
        if evt.head.inout == IN {
            self.step_request(idx, evt)
        } else {
            self.step_response(idx, evt)
        }
    }

    /// Hands back every flow still held at end of stream, in context-key
    /// order, for the final flush: partial traces are valid, not an error.
    pub fn finish(self) -> (r: Vec<(u64, TraceFlow)>)
        ensures
            r@.map_values(|p: (u64, TraceFlow)| (p.0, p.1@)) == self@.flows,
    {
        self.flows
    }
}

/// In a well-formed state a context key occurs at exactly one position:
/// the one `flow_index` names.
pub proof fn lemma_key_unique(flows: Seq<(u64, FlowModel)>, k: u64, j: int)
    requires
        flows_sorted(flows),
        flow_index(flows, k) >= 0,
        0 <= j < flows.len(),
        j != flow_index(flows, k),
    ensures
        flows[j].0 != k,
{
    lemma_flow_index(flows, k);
    let idx = flow_index(flows, k);
    if j > idx {
        assert(flows[idx].0 < flows[j].0);
    }
}

/// Law: a flow cannot be flushed twice.  An `exit_group` request flushes
/// the context's whole flow, and afterwards no flow for that context
/// exists.
pub proof fn lemma_flow_flushed_once(m: ReconModel, e: EventModel)
    requires
        recon_wf(m),
        e.head.inout == IN,
        e.head.ax@[7] == SYS_EXIT_GROUP,
        flow_index(m.flows, e.head.sscratch) >= 0,
    ensures
        ({
            let sm = spec_step(m, e);
            &&& sm.error is None
            &&& sm.flushed is Some
            &&& (sm.flushed->0).0 == e.head.sscratch
            &&& flow_index(sm.state.flows, e.head.sscratch) == -1
        }),
{
    let k = e.head.sscratch;
    let idx = flow_index(m.flows, k);
    lemma_flow_index(m.flows, k);
    let sm = spec_step(m, e);
    let after = sm.state.flows;
    assert(after == m.flows.remove(idx));
    lemma_flow_index(after, k);
    let fi = flow_index(after, k);
    if fi >= 0 {
        assert(after[fi].0 == k);
        if fi < idx {
            assert(after[fi] == m.flows[fi]);
            lemma_key_unique(m.flows, k, fi);
        } else {
            assert(after[fi] == m.flows[fi + 1]);
            lemma_key_unique(m.flows, k, fi + 1);
        }
    }
}

/// Law: vfork fusion.  Context A issues a clone request; the next event is
/// a response tagged under a brand-new context B.  Then A's flow still ends
/// in the unmatched clone request, while B's flow is seeded with one
/// already-matched call whose argument register 0 is A's saved original
/// argument and whose result is the response's register 0.  A later clone
/// response on A completes A's pending request the same way.
pub proof fn lemma_vfork_fusion(m: ReconModel, req: EventModel, resp: EventModel)
    requires
        recon_wf(m),
        req.head.inout == IN,
        req.head.ax@[7] == SYS_CLONE,
        flow_index(m.flows, req.head.sscratch) >= 0,
        resp.head.inout == OUT,
        resp.head.ax@[7] == SYS_CLONE,
        resp.head.sscratch != req.head.sscratch,
        flow_index(m.flows, resp.head.sscratch) == -1,
        !m.sighand_set.contains(resp.head.epc as usize),
    ensures
        ({
            let s1 = spec_step(m, req);
            let s2 = spec_step(s1.state, resp);
            let a = req.head.sscratch;
            let b = resp.head.sscratch;
            &&& s1.error is None
            &&& s2.error is None
            // A's flow still ends in the unmatched clone request.
            &&& flow_index(s2.state.flows, a) >= 0
            &&& s2.state.flows[flow_index(s2.state.flows, a)].1.events.last() == req
            &&& req.head.inout != OUT
            // B's flow holds exactly the fused seeded call.
            &&& flow_index(s2.state.flows, b) >= 0
            &&& s2.state.flows[flow_index(s2.state.flows, b)].1.events =~= seq![
                spec_fuse(req, resp),
            ]
            &&& spec_fuse(req, resp).head.ax@[0] == resp.head.orig_a0
            &&& spec_fuse(req, resp).result == resp.head.ax@[0]
            &&& spec_fuse(req, resp).head.inout == OUT
        }),
{
    let a = req.head.sscratch;
    let b = resp.head.sscratch;
    let idx_a = flow_index(m.flows, a);
    lemma_flow_index(m.flows, a);
    let s1 = spec_step(m, req);
    let f_a = m.flows[idx_a].1;
    let f_a2 = FlowModel { events: f_a.events.push(req), ..f_a };
    assert(s1.state.flows == m.flows.update(idx_a, (a, f_a2)));
    assert(s1.state.pending_clone == Some(req));
    lemma_update_keeps_sorted(m.flows, s1.state.flows, idx_a);
    // b is still absent after the update
    assert(flow_index(s1.state.flows, b) == -1) by {
        lemma_flow_index(s1.state.flows, b);
        let fi = flow_index(s1.state.flows, b);
        if fi >= 0 {
            assert(s1.state.flows[fi].0 == b);
            if fi == idx_a {
                assert(s1.state.flows[fi].0 == a);
            } else {
                assert(s1.state.flows[fi] == m.flows[fi]);
                lemma_flow_index(m.flows, b);
            }
        }
    }
    lemma_key_unique_eq(s1.state.flows, a, idx_a);
    let s2 = spec_step(s1.state, resp);
    let seeded = FlowModel { events: seq![req], ..empty_flow() };
    let flows1 = insert_flow(s1.state.flows, b, seeded);
    lemma_insert_flow_sorted(s1.state.flows, b, seeded);
    let idx_b = flow_index(flows1, b);
    lemma_insert_pos(s1.state.flows, b);
    lemma_flow_index_after_insert(s1.state.flows, b, seeded);
    assert(idx_b == insert_pos(s1.state.flows, b));
    assert(flows1[idx_b].1 == seeded);
    // the seeded flow has one unmatched entry, so the response fuses
    assert(seeded.events.len() == 1);
    assert(seeded.events.last() == req);
    let fused = spec_fuse(req, resp);
    let f_b2 = FlowModel { events: seeded.events.update(0, fused), ..seeded };
    assert(s2.error is None);
    assert(s2.state.flows == flows1.update(idx_b, (b, f_b2)));
    assert(f_b2.events =~= seq![fused]);
    // A's flow is untouched by the second step
    lemma_flow_index(s2.state.flows, a);
    lemma_flow_index(flows1, a);
    let idx_a2 = flow_index(s2.state.flows, a);
    assert(flows_sorted(s2.state.flows)) by {
        lemma_update_keeps_sorted(flows1, s2.state.flows, idx_b);
    }
    assert(idx_a2 >= 0) by {
        lemma_insert_preserves_other_keys(s1.state.flows, b, seeded, a);
        if flow_index(flows1, a) != idx_b {
            assert(s2.state.flows[flow_index(flows1, a)] == flows1[flow_index(flows1, a)]);
        }
        lemma_flow_index(flows1, a);
        if flow_index(s2.state.flows, a) == -1 {
            assert(s2.state.flows[flow_index(flows1, a)].0 == a);
        }
    }
    assert(s2.state.flows[idx_a2].0 == a);
    assert(idx_a2 != idx_b) by {
        assert(s2.state.flows[idx_b].0 == b);
    }
    assert(s2.state.flows[idx_a2] == flows1[idx_a2]);
    assert(flows1[idx_a2].0 == a);
    // flows1[idx_a2] comes from s1.state.flows, where a maps to f_a2
    let p = insert_pos(s1.state.flows, b);
    if idx_a2 < p {
        assert(flows1[idx_a2] == s1.state.flows[idx_a2]);
        lemma_key_unique_eq(s1.state.flows, a, idx_a2);
        assert(s1.state.flows[idx_a2].1 == f_a2);
    } else {
        assert(idx_a2 != p) by {
            assert(flows1[p].0 == b);
        }
        assert(flows1[idx_a2] == s1.state.flows[idx_a2 - 1]);
        lemma_key_unique_eq(s1.state.flows, a, idx_a2 - 1);
        assert(s1.state.flows[idx_a2 - 1].1 == f_a2);
    }
    assert(s2.state.flows[idx_a2].1.events.last() == req);
    lemma_key_unique_eq(s2.state.flows, b, idx_b);
    assert(flow_index(s2.state.flows, b) == idx_b);
    assert(s2.state.flows[idx_b].1 == f_b2);
    assert(s2.state.flows[flow_index(s2.state.flows, b)].1.events =~= seq![fused]);
    assert(fused.head.ax@[0] == resp.head.orig_a0);
    assert(fused.result == resp.head.ax@[0]);
    assert(fused.head.inout == OUT);
}

/// In a sorted state, any position holding key `k` is the position
/// `flow_index` names, and so holds `flow_index`'s flow.
pub proof fn lemma_key_unique_eq(flows: Seq<(u64, FlowModel)>, k: u64, j: int)
    requires
        flows_sorted(flows),
        0 <= j < flows.len(),
        flows[j].0 == k,
    ensures
        flow_index(flows, k) == j,
{
    lemma_flow_index(flows, k);
    let idx = flow_index(flows, k);
    if idx == -1 {
        assert(flows[j].0 != k);
    } else if idx < j {
        assert(flows[idx].0 < flows[j].0);
    } else if idx > j {
        assert(flows[j].0 != k);
    }
}

/// After inserting key `k`, `flow_index` finds it at the insertion
/// position.
pub proof fn lemma_flow_index_after_insert(flows: Seq<(u64, FlowModel)>, k: u64, f: FlowModel)
    requires
        flows_sorted(flows),
        flow_index(flows, k) == -1,
    ensures
        flow_index(insert_flow(flows, k, f), k) == insert_pos(flows, k),
{
    lemma_insert_pos(flows, k);
    lemma_insert_flow_sorted(flows, k, f);
    let flows1 = insert_flow(flows, k, f);
    let p = insert_pos(flows, k);
    assert(flows1[p].0 == k);
    lemma_key_unique_eq(flows1, k, p);
}

/// Inserting one key leaves every other key present.
pub proof fn lemma_insert_preserves_other_keys(
    flows: Seq<(u64, FlowModel)>,
    k: u64,
    f: FlowModel,
    other: u64,
)
    requires
        flows_sorted(flows),
        flow_index(flows, k) == -1,
        flow_index(flows, other) >= 0,
        other != k,
    ensures
        flow_index(insert_flow(flows, k, f), other) >= 0,
        insert_flow(flows, k, f)[flow_index(insert_flow(flows, k, f), other)].1 == flows[
            flow_index(flows, other)
        ].1,
{
    lemma_insert_pos(flows, k);
    lemma_insert_flow_sorted(flows, k, f);
    lemma_flow_index(flows, other);
    let flows1 = insert_flow(flows, k, f);
    let p = insert_pos(flows, k);
    let i = flow_index(flows, other);
    let i1: int = if i < p {
        i
    } else {
        i + 1
    };
    assert(flows1[i1] == flows[i]);
    lemma_key_unique_eq(flows1, other, i1);
}

/// The flow a state holds for context `k`, if any.
pub open spec fn flow_of(m: ReconModel, k: u64) -> Option<FlowModel> {
    let i = flow_index(m.flows, k);
    if i >= 0 {
        Some(m.flows[i].1)
    } else {
        None
    }
}

/// Two flow sequences with the same keys at the same positions index every
/// key at the same place.
pub proof fn lemma_flow_index_keys(
    s1: Seq<(u64, FlowModel)>,
    s2: Seq<(u64, FlowModel)>,
    k: u64,
)
    requires
        s1.len() == s2.len(),
        forall|j: int| 0 <= j < s1.len() ==> (#[trigger] s1[j]).0 == (#[trigger] s2[j]).0,
    ensures
        flow_index(s1, k) == flow_index(s2, k),
    decreases s1.len(),
{
    if s1.len() > 0 {
        assert(s1[0].0 == s2[0].0);
        if s1[0].0 != k {
            lemma_flow_index_keys(s1.drop_first(), s2.drop_first(), k);
        }
    }
}

/// Law: no cross-context interference.  One step, whatever it does, leaves
/// the flow of every other context exactly as it was: a response is never
/// attributed to another context, and only the event's own context can be
/// flushed.
pub proof fn lemma_step_frame(m: ReconModel, e: EventModel, k2: u64)
    requires
        recon_wf(m),
        k2 != e.head.sscratch,
    ensures
        flow_of(spec_step(m, e).state, k2) == flow_of(m, k2),
        spec_step(m, e).flushed is Some ==> (spec_step(m, e).flushed->0).0 == e.head.sscratch,
{
    let k = e.head.sscratch;
    let idx0 = flow_index(m.flows, k);
    lemma_flow_index(m.flows, k);
    lemma_flow_index(m.flows, k2);
    let sm = spec_step(m, e);
    if idx0 < 0 {
        let may_seed = if e.head.inout == IN {
            Some(empty_flow())
        } else if e.head.ax@[7] == SYS_CLONE && m.pending_clone is Some {
            Some(FlowModel { events: seq![m.pending_clone->0], ..empty_flow() })
        } else {
            None
        };
        match may_seed {
            None => {
                assert(sm.state == m);
            },
            Some(seed) => {
                let flows1 = insert_flow(m.flows, k, seed);
                lemma_insert_pos(m.flows, k);
                lemma_insert_flow_sorted(m.flows, k, seed);
                lemma_flow_index_after_insert(m.flows, k, seed);
                let idx1 = flow_index(flows1, k);
                assert(0 <= idx1 < flows1.len());
                assert(flows1[idx1].0 == k);
                lemma_step_inner_frame(
                    ReconModel {
                        flows: flows1,
                        pending_clone: if e.head.inout == IN {
                            m.pending_clone
                        } else {
                            None
                        },
                        ..m
                    },
                    e,
                    idx1,
                    k2,
                );
                if flow_index(m.flows, k2) >= 0 {
                    lemma_insert_preserves_other_keys(m.flows, k, seed, k2);
                } else {
                    lemma_absent_after_insert(m.flows, k, seed, k2);
                }
            },
        }
    } else {
        assert(m.flows[idx0].0 == k);
        lemma_step_inner_frame(m, e, idx0, k2);
    }
}

/// A key absent before an insert of a different key is absent after it.
pub proof fn lemma_absent_after_insert(
    flows: Seq<(u64, FlowModel)>,
    k: u64,
    f: FlowModel,
    k2: u64,
)
    requires
        flows_sorted(flows),
        flow_index(flows, k) == -1,
        flow_index(flows, k2) == -1,
        k2 != k,
    ensures
        flow_index(insert_flow(flows, k, f), k2) == -1,
{
    lemma_insert_pos(flows, k);
    lemma_insert_flow_sorted(flows, k, f);
    let flows1 = insert_flow(flows, k, f);
    let p = insert_pos(flows, k);
    lemma_flow_index(flows1, k2);
    lemma_flow_index(flows, k2);
    let fi = flow_index(flows1, k2);
    if fi >= 0 {
        assert(flows1[fi].0 == k2);
        if fi < p {
            assert(flows1[fi] == flows[fi]);
        } else if fi == p {
            assert(flows1[fi].0 == k);
        } else {
            assert(flows1[fi] == flows[fi - 1]);
        }
    }
}

/// Request and response steps against the flow at `idx` leave every other
/// context's flow unchanged.
pub proof fn lemma_step_inner_frame(m: ReconModel, e: EventModel, idx: int, k2: u64)
    requires
        recon_wf(m),
        0 <= idx < m.flows.len(),
        m.flows[idx].0 != k2,
    ensures
        ({
            let sm = if e.head.inout == IN {
                spec_step_request(m, e, idx)
            } else {
                spec_step_response(m, e, idx)
            };
            flow_of(sm.state, k2) == flow_of(m, k2)
        }),
{
    let sm = if e.head.inout == IN {
        spec_step_request(m, e, idx)
    } else {
        spec_step_response(m, e, idx)
    };
    let after = sm.state.flows;
    lemma_flow_index(m.flows, k2);
    if after =~= m.flows {
    } else if after.len() == m.flows.len() {
        // an update at idx
        assert(forall|j: int| 0 <= j < after.len() && j != idx ==> after[j] == m.flows[j]);
        assert(forall|j: int| 0 <= j < after.len() ==> (#[trigger] after[j]).0 == m.flows[j].0);
        lemma_flow_index_keys(m.flows, after, k2);
        if flow_index(m.flows, k2) >= 0 {
            assert(flow_index(m.flows, k2) != idx);
        }
    } else {
        // a removal at idx
        assert(after == m.flows.remove(idx));
        let i = flow_index(m.flows, k2);
        if i >= 0 {
            let i1: int = if i < idx {
                i
            } else {
                i - 1
            };
            assert(after[i1] == m.flows[i]);
            lemma_remove_keeps_sorted(m.flows, idx);
            lemma_key_unique_eq(after, k2, i1);
        } else {
            lemma_flow_index(after, k2);
            let fi = flow_index(after, k2);
            if fi >= 0 {
                assert(after[fi].0 == k2);
                if fi < idx {
                    assert(after[fi] == m.flows[fi]);
                } else {
                    assert(after[fi] == m.flows[fi + 1]);
                }
            }
        }
    }
}

/// Law: one strictly well-formed FIFO request/response pair yields exactly
/// one matched call.  Starting from any state whose context is idle (no
/// flow yet, or its last call already complete), a plain request followed
/// by its response appends exactly one matched call to that context's flow,
/// after the calls already there; argument register 0 and the result are
/// kept distinct (the matched call's register 0 is the request's, its
/// result is the response's register 0); no diagnostic is emitted, nothing
/// is flushed, and no other state — other contexts' flows, the cached
/// clone request, the handler addresses — moves.
pub proof fn lemma_fifo_pair(m: ReconModel, req: EventModel, resp: EventModel)
    requires
        recon_wf(m),
        req.head.inout == IN,
        resp.head.inout == OUT,
        resp.head.sscratch == req.head.sscratch,
        resp.head.ax@[7] == req.head.ax@[7],
        req.head.ax@[7] != SYS_CLONE,
        req.head.ax@[7] != SYS_RT_SIGRETURN,
        req.head.ax@[7] != SYS_EXIT_GROUP,
        req.head.ax@[7] != SYS_RT_SIGACTION,
        !m.sighand_set.contains(resp.head.epc as usize),
        ({
            let i = flow_index(m.flows, req.head.sscratch);
            i >= 0 ==> (m.flows[i].1.events.len() > 0 ==> m.flows[i].1.events.last().head.inout
                == OUT)
        }),
    ensures
        ({
            let s1 = spec_step(m, req);
            let s2 = spec_step(s1.state, resp);
            let k = req.head.sscratch;
            let i0 = flow_index(m.flows, k);
            let old_events: Seq<EventModel> = if i0 >= 0 {
                m.flows[i0].1.events
            } else {
                Seq::empty()
            };
            &&& s1.error is None && s2.error is None
            &&& s1.diags =~= Seq::<Diagnostic>::empty() && s2.diags =~= Seq::<
                Diagnostic,
            >::empty()
            &&& s1.flushed is None && s2.flushed is None
            &&& flow_of(s2.state, k) == Some(
                FlowModel {
                    events: old_events.push(spec_fuse(req, resp)),
                    ..(if i0 >= 0 {
                        m.flows[i0].1
                    } else {
                        empty_flow()
                    })
                },
            )
            &&& spec_fuse(req, resp).head.ax@[0] == req.head.ax@[0]
            &&& spec_fuse(req, resp).result == resp.head.ax@[0]
            &&& spec_fuse(req, resp).head.inout == OUT
            &&& forall|k2: u64| k2 != k ==> flow_of(s2.state, k2) == flow_of(m, k2)
            &&& s2.state.pending_clone == m.pending_clone
            &&& s2.state.sighand_set == m.sighand_set
        }),
{
    let k = req.head.sscratch;
    let i0 = flow_index(m.flows, k);
    lemma_flow_index(m.flows, k);
    let s1 = spec_step(m, req);
    let old_flow: FlowModel = if i0 >= 0 {
        m.flows[i0].1
    } else {
        empty_flow()
    };
    let old_events = old_flow.events;
    let f1 = FlowModel { events: old_events.push(req), ..old_flow };
    // After the request, the context's flow ends in the unmatched request.
    let idx1: int = if i0 >= 0 {
        i0
    } else {
        insert_pos(m.flows, k)
    };
    if i0 >= 0 {
        assert(s1.state.flows == m.flows.update(i0, (k, f1)));
        lemma_update_keeps_sorted(m.flows, s1.state.flows, i0);
        lemma_key_unique_eq(s1.state.flows, k, i0);
    } else {
        let flows0 = insert_flow(m.flows, k, empty_flow());
        lemma_insert_pos(m.flows, k);
        lemma_insert_flow_sorted(m.flows, k, empty_flow());
        lemma_flow_index_after_insert(m.flows, k, empty_flow());
        let p = insert_pos(m.flows, k);
        assert(flows0[p] == (k, empty_flow()));
        assert(empty_flow().events.len() == 0);
        assert(s1.state.flows == flows0.update(p, (k, f1)));
        lemma_update_keeps_sorted(flows0, s1.state.flows, p);
        lemma_key_unique_eq(s1.state.flows, k, p);
        assert(f1.events =~= old_events.push(req));
    }
    assert(flow_index(s1.state.flows, k) == idx1);
    assert(s1.state.flows[idx1] == (k, f1));
    assert(s1.error is None);
    assert(s1.diags =~= Seq::<Diagnostic>::empty());
    assert(s1.flushed is None);
    assert(s1.state.sighand_set == m.sighand_set);
    assert(s1.state.pending_clone == m.pending_clone);
    // The response fuses into that request.
    let s2 = spec_step(s1.state, resp);
    assert(f1.events.last() == req);
    let fused = spec_fuse(req, resp);
    let f2 = FlowModel { events: f1.events.update(f1.events.len() - 1, fused), ..f1 };
    assert(s2.error is None);
    assert(s2.state.flows == s1.state.flows.update(idx1, (k, f2)));
    assert(s2.diags =~= Seq::<Diagnostic>::empty());
    assert(s2.flushed is None);
    lemma_update_keeps_sorted(s1.state.flows, s2.state.flows, idx1);
    lemma_key_unique_eq(s2.state.flows, k, idx1);
    assert(f2.events =~= old_events.push(fused));
    assert(flow_of(s2.state, k) == Some(f2));
    assert(f2 =~~= (FlowModel { events: old_events.push(fused), ..old_flow }));
    // Frame: every other context is untouched.
    assert forall|k2: u64| k2 != k implies flow_of(s2.state, k2) == flow_of(m, k2) by {
        lemma_step_frame(m, req, k2);
        lemma_step_frame(s1.state, resp, k2);
        assert(recon_wf(s1.state));
    }
}

/// Law: signal interposition.  A context holds a pending request; a
/// response arrives whose program counter matches a registered handler
/// address.  The pending call moves onto the signal stack, marked with the
/// delivered signal, and a synthesized already-complete signal-enter entry
/// takes its place.  The subsequent signal-return request restores the
/// interrupted call as the active pending request rather than appending a
/// new one.
pub proof fn lemma_signal_interposition(m: ReconModel, resp: EventModel, sigret: EventModel)
    requires
        recon_wf(m),
        flow_index(m.flows, resp.head.sscratch) >= 0,
        ({
            let f = m.flows[flow_index(m.flows, resp.head.sscratch)].1;
            &&& f.events.len() > 0
            &&& f.events.last().head.inout != OUT
            &&& f.events.last().head.ax@[7] != SYS_EXECVE
        }),
        resp.head.inout == OUT,
        m.sighand_set.contains(resp.head.epc as usize),
        sigret.head.inout == IN,
        sigret.head.ax@[7] == SYS_RT_SIGRETURN,
        sigret.head.sscratch == resp.head.sscratch,
    ensures
        ({
            let k = resp.head.sscratch;
            let f = m.flows[flow_index(m.flows, k)].1;
            let pending = f.events.last();
            let signo = resp.head.ax@[0];
            let interrupted = EventModel { signal: SigStage::Exit(signo), ..pending };
            let s1 = spec_step(m, resp);
            let s2 = spec_step(s1.state, sigret);
            &&& s1.error is None
            // the pending call is deferred, not dropped
            &&& flow_of(s1.state, k) == Some(
                FlowModel {
                    events: f.events.drop_last().push(spec_signal_entry(signo)),
                    signal_stack: f.signal_stack.push(interrupted),
                    ..f
                },
            )
            &&& s2.error is None
            // the signal return restores it as the active pending request
            &&& flow_of(s2.state, k) is Some
            &&& (flow_of(s2.state, k)->0).events.last() == interrupted
            &&& interrupted.head.inout == pending.head.inout
            &&& (flow_of(s2.state, k)->0).events.len() == f.events.len() + 1
            &&& (flow_of(s2.state, k)->0).signal_stack == f.signal_stack
        }),
{
    let k = resp.head.sscratch;
    let idx = flow_index(m.flows, k);
    lemma_flow_index(m.flows, k);
    let f = m.flows[idx].1;
    let pending = f.events.last();
    let signo = resp.head.ax@[0];
    let interrupted = EventModel { signal: SigStage::Exit(signo), ..pending };
    let s1 = spec_step(m, resp);
    let f1 = FlowModel {
        events: f.events.drop_last().push(spec_signal_entry(signo)),
        signal_stack: f.signal_stack.push(interrupted),
        ..f
    };
    assert(s1.error is None);
    assert(s1.state.flows == m.flows.update(idx, (k, f1)));
    lemma_update_keeps_sorted(m.flows, s1.state.flows, idx);
    lemma_key_unique_eq(s1.state.flows, k, idx);
    assert(flow_of(s1.state, k) == Some(f1));
    let s2 = spec_step(s1.state, sigret);
    assert(f1.signal_stack.len() > 0);
    assert(f1.signal_stack.last() == interrupted);
    let f2 = FlowModel {
        events: f1.events.push(interrupted),
        signal_stack: f1.signal_stack.drop_last(),
        ..f1
    };
    assert(s2.error is None);
    assert(s2.state.flows == s1.state.flows.update(idx, (k, f2)));
    lemma_update_keeps_sorted(s1.state.flows, s2.state.flows, idx);
    lemma_key_unique_eq(s2.state.flows, k, idx);
    assert(flow_of(s2.state, k) == Some(f2));
    assert(f2.events.last() == interrupted);
    assert(f2.events.len() == f.events.len() + 1);
    assert(f2.signal_stack =~= f.signal_stack);
}

/// Law: mismatch tolerance.  A response whose syscall number differs from
/// its matched request's still completes the match, emits exactly one
/// diagnostic, and does not abort.
pub proof fn lemma_mismatch_tolerated(m: ReconModel, resp: EventModel)
    requires
        recon_wf(m),
        flow_index(m.flows, resp.head.sscratch) >= 0,
        m.flows[flow_index(m.flows, resp.head.sscratch)].1.events.len() > 0,
        resp.head.inout == OUT,
        resp.head.ax@[7] != m.flows[
            flow_index(m.flows, resp.head.sscratch)
        ].1.events.last().head.ax@[7],
        !m.sighand_set.contains(resp.head.epc as usize),
    ensures
        ({
            let k = resp.head.sscratch;
            let f = m.flows[flow_index(m.flows, k)].1;
            let last = f.events.last();
            let sm = spec_step(m, resp);
            &&& sm.error is None
            &&& sm.diags =~= seq![
                Diagnostic::SysnoMismatch {
                    response: resp.head.ax@[7],
                    request: last.head.ax@[7],
                },
            ]
            &&& flow_of(sm.state, k) == Some(
                FlowModel {
                    events: f.events.update(f.events.len() - 1, spec_fuse(last, resp)),
                    ..f
                },
            )
            &&& spec_fuse(last, resp).head.inout == OUT
            &&& spec_fuse(last, resp).result == resp.head.ax@[0]
        }),
{
    let k = resp.head.sscratch;
    let idx = flow_index(m.flows, k);
    lemma_flow_index(m.flows, k);
    let f = m.flows[idx].1;
    let last = f.events.last();
    let sm = spec_step(m, resp);
    let f2 = FlowModel { events: f.events.update(f.events.len() - 1, spec_fuse(last, resp)), ..f };
    assert(sm.state.flows == m.flows.update(idx, (k, f2)));
    lemma_update_keeps_sorted(m.flows, sm.state.flows, idx);
    lemma_key_unique_eq(sm.state.flows, k, idx);
    assert(flow_of(sm.state, k) == Some(f2));
}

/// An ordinary syscall number: one with none of the reconstructor's
/// special control-flow handling.
pub open spec fn plain_sysno(s: u64) -> bool {
    &&& s != SYS_CLONE
    &&& s != SYS_RT_SIGRETURN
    &&& s != SYS_EXIT_GROUP
    &&& s != SYS_RT_SIGACTION
}

/// The predicate picking one context's events.
pub open spec fn key_pred(k: u64) -> spec_fn(EventModel) -> bool {
    |e: EventModel| e.head.sscratch == k
}

/// The subsequence of the stream that belongs to context `k`, in file
/// order.
pub open spec fn project(evs: Seq<EventModel>, k: u64) -> Seq<EventModel> {
    evs.filter(key_pred(k))
}

/// A context's subsequence is strictly FIFO: alternating request/response,
/// each response matching its request's syscall number, no call left open.
pub open spec fn paired(s: Seq<EventModel>) -> bool {
    &&& s.len() % 2 == 0
    &&& forall|i: int|
        0 <= i < s.len() ==> if i % 2 == 0 {
            (#[trigger] s[i]).head.inout == IN
        } else {
            s[i].head.inout == OUT && s[i].head.ax@[7] == s[i - 1].head.ax@[7]
        }
}

/// A strictly well-formed FIFO stream: every event an ordinary call, and
/// every context's subsequence paired.
pub open spec fn fifo_wf(evs: Seq<EventModel>) -> bool {
    &&& forall|i: int| 0 <= i < evs.len() ==> plain_sysno((#[trigger] evs[i]).head.ax@[7])
    &&& forall|k: u64| paired(#[trigger] project(evs, k))
}

/// The state after stepping through a whole sequence of events, or `None`
/// when some step raised a structural violation.
pub open spec fn steps_result(m: ReconModel, evs: Seq<EventModel>) -> Option<ReconModel>
    decreases evs.len(),
{
    if evs.len() == 0 {
        Some(m)
    } else {
        let sm = spec_step(m, evs[0]);
        if sm.error is Some {
            None
        } else {
            steps_result(sm.state, evs.drop_first())
        }
    }
}

/// The matched calls a paired subsequence yields: one per pair, in
/// submission order.
pub open spec fn fused_pairs(s: Seq<EventModel>) -> Seq<EventModel>
    decreases s.len(),
{
    if s.len() < 2 {
        Seq::empty()
    } else {
        seq![spec_fuse(s[0], s[1])] + fused_pairs(s.skip(2))
    }
}

/// `fused_pairs` of an even-length sequence holds exactly the fusion of
/// each request with its response, in order.
pub proof fn lemma_fused_pairs_index(s: Seq<EventModel>, j: int)
    requires
        s.len() % 2 == 0,
        0 <= j < s.len() / 2,
    ensures
        fused_pairs(s).len() == s.len() / 2,
        fused_pairs(s)[j] == spec_fuse(s[2 * j], s[2 * j + 1]),
    decreases s.len(),
{
    lemma_fused_pairs_len(s);
    if j > 0 {
        lemma_fused_pairs_index(s.skip(2), j - 1);
        assert(s.skip(2)[2 * (j - 1)] == s[2 * j]);
        assert(s.skip(2)[2 * (j - 1) + 1] == s[2 * j + 1]);
    }
}

/// An even-length sequence fuses to half as many matched calls.
pub proof fn lemma_fused_pairs_len(s: Seq<EventModel>)
    requires
        s.len() % 2 == 0,
    ensures
        fused_pairs(s).len() == s.len() / 2,
    decreases s.len(),
{
    if s.len() >= 2 {
        lemma_fused_pairs_len(s.skip(2));
    }
}

/// Appending one request/response pair appends exactly one fused call.
pub proof fn lemma_fused_pairs_snoc(s: Seq<EventModel>, a: EventModel, b: EventModel)
    requires
        s.len() % 2 == 0,
    ensures
        fused_pairs(s.push(a).push(b)) == fused_pairs(s).push(spec_fuse(a, b)),
    decreases s.len(),
{
    let t = s.push(a).push(b);
    if s.len() == 0 {
        assert(t.skip(2) =~= Seq::<EventModel>::empty());
        assert(t[0] == a);
        assert(t[1] == b);
        assert(fused_pairs(t) == seq![spec_fuse(a, b)] + fused_pairs(t.skip(2)));
        assert(seq![spec_fuse(a, b)] + Seq::<EventModel>::empty() =~= fused_pairs(s).push(
            spec_fuse(a, b),
        ));
    } else {
        assert(t.skip(2) =~= s.skip(2).push(a).push(b));
        lemma_fused_pairs_snoc(s.skip(2), a, b);
        assert(t[0] == s[0]);
        assert(t[1] == s[1]);
        assert(fused_pairs(t) == seq![spec_fuse(s[0], s[1])] + fused_pairs(s.skip(2)).push(
            spec_fuse(a, b),
        ));
        assert(seq![spec_fuse(s[0], s[1])] + fused_pairs(s.skip(2)).push(spec_fuse(a, b)) =~= (seq![
            spec_fuse(s[0], s[1]),
        ] + fused_pairs(s.skip(2))).push(spec_fuse(a, b)));
    }
}

/// Extending the prefix by one event extends exactly its own context's
/// projection, by exactly that event.
pub proof fn lemma_project_take(evs: Seq<EventModel>, i: int, k: u64)
    requires
        0 <= i < evs.len(),
    ensures
        project(evs.take(i + 1), k) == project(evs.take(i), k) + (if evs[i].head.sscratch == k {
            seq![evs[i]]
        } else {
            Seq::empty()
        }),
{
    reveal_with_fuel(Seq::filter, 3);
    let single = seq![evs[i]];
    assert(evs.take(i + 1) =~= evs.take(i) + single);
    Seq::filter_distributes_over_add(evs.take(i), single, key_pred(k));
    assert(single.drop_last() =~= Seq::<EventModel>::empty());
    if evs[i].head.sscratch == k {
        assert(single.filter(key_pred(k)) =~= single);
    } else {
        assert(single.filter(key_pred(k)) =~= Seq::<EventModel>::empty());
    }
}

/// The whole stream's projection decomposes around any prefix.
pub proof fn lemma_project_split(evs: Seq<EventModel>, i: int, k: u64)
    requires
        0 <= i <= evs.len(),
    ensures
        project(evs, k) == project(evs.take(i), k) + project(evs.skip(i), k),
{
    assert(evs =~= evs.take(i) + evs.skip(i));
    Seq::filter_distributes_over_add(evs.take(i), evs.skip(i), key_pred(k));
}

/// The reconstruction invariant of a strictly FIFO stream after `i`
/// events: the cached clone request and the handler set never populate,
/// and each context's flow holds exactly the fused calls of its completed
/// pairs, plus its one still-pending request when its last pair is open.
pub open spec fn fifo_inv(evs: Seq<EventModel>, i: int, m: ReconModel) -> bool {
    &&& recon_wf(m)
    &&& m.pending_clone is None
    &&& m.sighand_set == Set::<usize>::empty()
    &&& forall|k: u64|
        {
            let p = #[trigger] project(evs.take(i), k);
            if p.len() == 0 {
                flow_of(m, k) is None
            } else if p.len() % 2 == 0 {
                flow_of(m, k) == Some(FlowModel { events: fused_pairs(p), ..empty_flow() })
            } else {
                flow_of(m, k) == Some(
                    FlowModel {
                        events: fused_pairs(p.take(p.len() - 1)).push(p.last()),
                        ..empty_flow()
                    },
                ) && plain_sysno(p.last().head.ax@[7]) && p.last().head.inout == IN
            }
        }
}

/// An ordinary request appends itself as the context's pending call and
/// moves nothing else.
pub proof fn lemma_plain_request_step(m: ReconModel, e: EventModel)
    requires
        recon_wf(m),
        e.head.inout == IN,
        plain_sysno(e.head.ax@[7]),
    ensures
        ({
            let sm = spec_step(m, e);
            let k = e.head.sscratch;
            let old_flow = match flow_of(m, k) {
                Some(f) => f,
                None => empty_flow(),
            };
            &&& sm.error is None
            &&& recon_wf(sm.state)
            &&& flow_of(sm.state, k) == Some(
                FlowModel { events: old_flow.events.push(e), ..old_flow },
            )
            &&& sm.state.pending_clone == m.pending_clone
            &&& sm.state.sighand_set == m.sighand_set
            &&& sm.flushed is None
        }),
{
    let k = e.head.sscratch;
    let i0 = flow_index(m.flows, k);
    lemma_flow_index(m.flows, k);
    let sm = spec_step(m, e);
    if i0 >= 0 {
        let f = m.flows[i0].1;
        let f1 = FlowModel { events: f.events.push(e), ..f };
        assert(sm.state.flows == m.flows.update(i0, (k, f1)));
        lemma_update_keeps_sorted(m.flows, sm.state.flows, i0);
        lemma_key_unique_eq(sm.state.flows, k, i0);
        assert(flow_of(sm.state, k) == Some(f1));
    } else {
        let flows0 = insert_flow(m.flows, k, empty_flow());
        lemma_insert_pos(m.flows, k);
        lemma_insert_flow_sorted(m.flows, k, empty_flow());
        lemma_flow_index_after_insert(m.flows, k, empty_flow());
        let p = insert_pos(m.flows, k);
        assert(flows0[p] == (k, empty_flow()));
        let f1 = FlowModel { events: empty_flow().events.push(e), ..empty_flow() };
        assert(sm.state.flows == flows0.update(p, (k, f1)));
        lemma_update_keeps_sorted(flows0, sm.state.flows, p);
        lemma_key_unique_eq(sm.state.flows, k, p);
        assert(flow_of(sm.state, k) == Some(f1));
    }
}

/// A response to a pending ordinary call fuses into it and moves nothing
/// else; with no handler addresses known, no delivery can be suspected.
pub proof fn lemma_plain_response_step(m: ReconModel, e: EventModel)
    requires
        recon_wf(m),
        e.head.inout != IN,
        m.sighand_set == Set::<usize>::empty(),
        flow_of(m, e.head.sscratch) is Some,
        (flow_of(m, e.head.sscratch)->0).events.len() > 0,
        (flow_of(m, e.head.sscratch)->0).events.last().head.ax@[7] != SYS_RT_SIGACTION,
    ensures
        ({
            let sm = spec_step(m, e);
            let k = e.head.sscratch;
            let f = flow_of(m, k)->0;
            &&& sm.error is None
            &&& recon_wf(sm.state)
            &&& flow_of(sm.state, k) == Some(
                FlowModel {
                    events: f.events.update(
                        f.events.len() - 1,
                        spec_fuse(f.events.last(), e),
                    ),
                    ..f
                },
            )
            &&& sm.state.pending_clone == m.pending_clone
            &&& sm.state.sighand_set == m.sighand_set
            &&& sm.flushed is None
        }),
{
    let k = e.head.sscratch;
    let i0 = flow_index(m.flows, k);
    lemma_flow_index(m.flows, k);
    let f = m.flows[i0].1;
    let sm = spec_step(m, e);
    assert(!m.sighand_set.contains(e.head.epc as usize));
    let fused = spec_fuse(f.events.last(), e);
    let f1 = FlowModel { events: f.events.update(f.events.len() - 1, fused), ..f };
    assert(sm.state.flows == m.flows.update(i0, (k, f1)));
    lemma_update_keeps_sorted(m.flows, sm.state.flows, i0);
    lemma_key_unique_eq(sm.state.flows, k, i0);
    assert(flow_of(sm.state, k) == Some(f1));
}

/// The induction step behind the FIFO-stream law: the invariant survives
/// the rest of the stream.
proof fn lemma_fifo_steps(evs: Seq<EventModel>, i: int, m: ReconModel)
    requires
        fifo_wf(evs),
        0 <= i <= evs.len(),
        fifo_inv(evs, i, m),
    ensures
        steps_result(m, evs.skip(i)) is Some,
        fifo_inv(evs, evs.len() as int, steps_result(m, evs.skip(i))->0),
    decreases evs.len() - i,
{
    if i == evs.len() {
        assert(evs.skip(i) =~= Seq::<EventModel>::empty());
    } else {
        let e = evs[i];
        let k = e.head.sscratch;
        let p = project(evs.take(i), k);
        let pfull = project(evs, k);
        lemma_project_take(evs, i, k);
        let q = project(evs.take(i + 1), k);
        assert(q == p + seq![e]);
        lemma_project_split(evs, i + 1, k);
        assert(pfull == q + project(evs.skip(i + 1), k));
        // the next event's direction follows from FIFO pairing
        assert(paired(pfull));
        assert(pfull[p.len() as int] == e) by {
            assert(q[p.len() as int] == e);
        }
        assert(plain_sysno(e.head.ax@[7]));
        let sm = spec_step(m, e);
        if p.len() % 2 == 0 {
            // an open slot: the event is a request
            assert(e.head.inout == IN);
            lemma_plain_request_step(m, e);
            assert(fifo_inv(evs, i + 1, sm.state)) by {
                lemma_fifo_inv_advance_request(evs, i, m, sm.state);
            }
        } else {
            // a pending request: the event is its response
            assert(e.head.inout == OUT);
            assert(e.head.inout != IN);
            assert(p.len() >= 1);
            assert(p.last() == pfull[p.len() - 1]) by {
                assert(q[p.len() - 1] == p.last());
            }
            lemma_plain_response_step(m, e);
            assert(fifo_inv(evs, i + 1, sm.state)) by {
                lemma_fifo_inv_advance_response(evs, i, m, sm.state);
            }
        }
        assert(evs.skip(i).drop_first() =~= evs.skip(i + 1));
        assert(evs.skip(i)[0] == e);
        lemma_fifo_steps(evs, i + 1, sm.state);
    }
}

/// Advancing the invariant over one request.
proof fn lemma_fifo_inv_advance_request(evs: Seq<EventModel>, i: int, m: ReconModel, m1: ReconModel)
    requires
        fifo_wf(evs),
        0 <= i < evs.len(),
        fifo_inv(evs, i, m),
        evs[i].head.inout == IN,
        plain_sysno(evs[i].head.ax@[7]),
        project(evs.take(i), evs[i].head.sscratch).len() % 2 == 0,
        m1 == spec_step(m, evs[i]).state,
        spec_step(m, evs[i]).error is None,
        recon_wf(m1),
        m1.pending_clone == m.pending_clone,
        m1.sighand_set == m.sighand_set,
        ({
            let k = evs[i].head.sscratch;
            let old_flow = match flow_of(m, k) {
                Some(f) => f,
                None => empty_flow(),
            };
            flow_of(m1, k) == Some(
                FlowModel { events: old_flow.events.push(evs[i]), ..old_flow },
            )
        }),
    ensures
        fifo_inv(evs, i + 1, m1),
{
    let e = evs[i];
    let k = e.head.sscratch;
    assert forall|k2: u64|
        {
            let p2 = #[trigger] project(evs.take(i + 1), k2);
            if p2.len() == 0 {
                flow_of(m1, k2) is None
            } else if p2.len() % 2 == 0 {
                flow_of(m1, k2) == Some(FlowModel { events: fused_pairs(p2), ..empty_flow() })
            } else {
                flow_of(m1, k2) == Some(
                    FlowModel {
                        events: fused_pairs(p2.take(p2.len() - 1)).push(p2.last()),
                        ..empty_flow()
                    },
                ) && plain_sysno(p2.last().head.ax@[7]) && p2.last().head.inout == IN
            }
        } by {
        lemma_project_take(evs, i, k2);
        let p = project(evs.take(i), k2);
        let p2 = project(evs.take(i + 1), k2);
        if k2 == k {
            assert(p2 == p.push(e)) by {
                assert(p + seq![e] =~= p.push(e));
            }
            assert(p2.take(p2.len() - 1) =~= p);
            assert(p2.last() == e);
            let old_flow = match flow_of(m, k) {
                Some(f) => f,
                None => empty_flow(),
            };
            if p.len() == 0 {
                assert(old_flow == empty_flow());
                assert(old_flow.events =~= fused_pairs(p));
            } else {
                assert(old_flow.events == fused_pairs(p));
            }
            assert(flow_of(m1, k) == Some(
                FlowModel { events: fused_pairs(p).push(e), ..empty_flow() },
            )) by {
                assert((FlowModel { events: old_flow.events.push(e), ..old_flow }) =~~= (
                FlowModel { events: fused_pairs(p).push(e), ..empty_flow() }));
            }
        } else {
            assert(p2 == p) by {
                assert(p + Seq::<EventModel>::empty() =~= p);
            }
            lemma_step_frame(m, e, k2);
        }
    }
}

/// Advancing the invariant over one response.
proof fn lemma_fifo_inv_advance_response(
    evs: Seq<EventModel>,
    i: int,
    m: ReconModel,
    m1: ReconModel,
)
    requires
        fifo_wf(evs),
        0 <= i < evs.len(),
        fifo_inv(evs, i, m),
        evs[i].head.inout == OUT,
        project(evs.take(i), evs[i].head.sscratch).len() % 2 == 1,
        m1 == spec_step(m, evs[i]).state,
        spec_step(m, evs[i]).error is None,
        recon_wf(m1),
        m1.pending_clone == m.pending_clone,
        m1.sighand_set == m.sighand_set,
        flow_of(m, evs[i].head.sscratch) is Some,
        ({
            let k = evs[i].head.sscratch;
            let f = flow_of(m, k)->0;
            f.events.len() > 0 && flow_of(m1, k) == Some(
                FlowModel {
                    events: f.events.update(
                        f.events.len() - 1,
                        spec_fuse(f.events.last(), evs[i]),
                    ),
                    ..f
                },
            )
        }),
    ensures
        fifo_inv(evs, i + 1, m1),
{
    let e = evs[i];
    let k = e.head.sscratch;
    assert forall|k2: u64|
        {
            let p2 = #[trigger] project(evs.take(i + 1), k2);
            if p2.len() == 0 {
                flow_of(m1, k2) is None
            } else if p2.len() % 2 == 0 {
                flow_of(m1, k2) == Some(FlowModel { events: fused_pairs(p2), ..empty_flow() })
            } else {
                flow_of(m1, k2) == Some(
                    FlowModel {
                        events: fused_pairs(p2.take(p2.len() - 1)).push(p2.last()),
                        ..empty_flow()
                    },
                ) && plain_sysno(p2.last().head.ax@[7]) && p2.last().head.inout == IN
            }
        } by {
        lemma_project_take(evs, i, k2);
        let p = project(evs.take(i), k2);
        let p2 = project(evs.take(i + 1), k2);
        if k2 == k {
            assert(p2 == p.push(e)) by {
                assert(p + seq![e] =~= p.push(e));
            }
            let f = flow_of(m, k)->0;
            let n = p.len() as int;
            assert(f.events == fused_pairs(p.take(n - 1)).push(p.last()));
            assert(f.events.last() == p.last());
            assert(f.events.update(f.events.len() - 1, spec_fuse(p.last(), e))
                =~= fused_pairs(p.take(n - 1)).push(spec_fuse(p.last(), e)));
            assert(fused_pairs(p2) == fused_pairs(p.take(n - 1)).push(spec_fuse(p.last(), e)))
                by {
                assert(p.take(n - 1).len() % 2 == 0);
                lemma_fused_pairs_snoc(p.take(n - 1), p.last(), e);
                assert(p.take(n - 1).push(p.last()).push(e) =~= p2);
            }
            assert(flow_of(m1, k) == Some(FlowModel { events: fused_pairs(p2), ..empty_flow() }))
                by {
                assert((FlowModel {
                    events: f.events.update(f.events.len() - 1, spec_fuse(f.events.last(), e)),
                    ..f
                }) =~~= (FlowModel { events: fused_pairs(p2), ..empty_flow() }));
            }
        } else {
            assert(p2 == p) by {
                assert(p + Seq::<EventModel>::empty() =~= p);
            }
            lemma_step_frame(m, e, k2);
        }
    }
}

/// Law: a strictly well-formed FIFO stream reconstructs without error into
/// exactly one matched call per request/response pair, per context, in
/// submission order.  Each matched call is the fusion of its pair: the
/// request's registers — register 0 included — with the response's
/// register 0 as the result, kept distinct.
pub proof fn lemma_fifo_stream(evs: Seq<EventModel>)
    requires
        fifo_wf(evs),
    ensures
        steps_result(empty_recon(), evs) is Some,
        forall|k: u64|
            {
                let p = #[trigger] project(evs, k);
                flow_of(steps_result(empty_recon(), evs)->0, k) == (if p.len() == 0 {
                    None::<FlowModel>
                } else {
                    Some(FlowModel { events: fused_pairs(p), ..empty_flow() })
                })
            },
        forall|k: u64, j: int|
            0 <= j < project(evs, k).len() / 2 ==> #[trigger] fused_pairs(project(evs, k))[j]
                == spec_fuse(project(evs, k)[2 * j], project(evs, k)[2 * j + 1]),
{
    assert(fifo_inv(evs, 0, empty_recon())) by {
        assert forall|k: u64|
            {
                let p = #[trigger] project(evs.take(0), k);
                p.len() == 0 && flow_of(empty_recon(), k) is None
            } by {
            assert(evs.take(0) =~= Seq::<EventModel>::empty());
            Seq::lemma_filter_len(evs.take(0), key_pred(k));
        }
    }
    assert(evs.skip(0) =~= evs);
    lemma_fifo_steps(evs, 0, empty_recon());
    let fin = steps_result(empty_recon(), evs)->0;
    assert forall|k: u64|
        {
            let p = #[trigger] project(evs, k);
            flow_of(fin, k) == (if p.len() == 0 {
                None::<FlowModel>
            } else {
                Some(FlowModel { events: fused_pairs(p), ..empty_flow() })
            })
        } by {
        assert(evs.take(evs.len() as int) =~= evs);
        assert(project(evs.take(evs.len() as int), k) == project(evs, k));
        assert(paired(project(evs, k)));
    }
    assert forall|k: u64, j: int| 0 <= j < project(evs, k).len() / 2 implies #[trigger] fused_pairs(
        project(evs, k),
    )[j] == spec_fuse(project(evs, k)[2 * j], project(evs, k)[2 * j + 1]) by {
        assert(paired(project(evs, k)));
        lemma_fused_pairs_index(project(evs, k), j);
    }
}

} // verus!
