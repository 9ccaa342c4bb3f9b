//! The whole run, end to end: frame the stream, reconstruct the flows, and
//! render every matched call — one pass over a closed byte stream.
//!
//! [`spec_run`] is the mathematical description of a run; [`run_trace`] is
//! proved to produce exactly its lines and diagnostics, or its error.

use vstd::prelude::*;
use crate::event::FlowModel;
use crate::flow::{
    empty_recon, recon_wf, spec_step, Diagnostic, FlowError, ReconModel, Reconstructor,
};
use crate::framer::{
    parse_event, spec_event_of, spec_frame_error, spec_record_advance, FramingError, TE_SIZE,
    lemma_event_of_unique,
};
use crate::render::{render_flow, spec_flow_lines};
use crate::USER_ECALL;

verus! {

/// Why a run stopped before the end of the stream.
#[derive(Clone, Copy, Debug, PartialEq, Eq, Structural)]
pub enum TraceError {
    /// The stream is corrupt: framing failed.
    Framing(FramingError),
    /// The reconstruction invariants are violated: further output would be
    /// untrustworthy.
    Flow(FlowError),
}

/// What a run produces: the printed lines gathered so far, the diagnostics
/// emitted, and the error that stopped it, if any.
#[verifier::ext_equal]
pub struct RunModel {
    pub lines: Seq<Seq<char>>,
    pub diags: Seq<Diagnostic>,
    pub error: Option<TraceError>,
}

/// The lines of a flow flushed by one step, if it flushed one.
pub open spec fn flush_lines_opt(fl: Option<(u64, FlowModel)>) -> Seq<Seq<char>> {
    match fl {
        Some(p) => spec_flow_lines(p.0, p.1.events),
        None => Seq::empty(),
    }
}

/// The lines of every flow still held at end of stream, flushed in key
/// order.
pub open spec fn spec_flush_all(flows: Seq<(u64, FlowModel)>) -> Seq<Seq<char>>
    decreases flows.len(),
{
    if flows.len() == 0 {
        Seq::empty()
    } else {
        spec_flow_lines(flows[0].0, flows[0].1.events) + spec_flush_all(flows.drop_first())
    }
}

/// The remainder of a run: from state `m` at stream position `pos`.  A
/// stream that ends exactly at a record boundary flushes the remaining
/// flows; one that ends mid-header is corrupt; otherwise one record is
/// framed, checked to be a user syscall trap, and stepped through the
/// reconstructor, and the run continues `totalsize` bytes further on.
pub open spec fn spec_run_from(m: ReconModel, bytes: Seq<u8>, pos: int) -> RunModel
    decreases bytes.len() - pos,
    when 0 <= pos <= bytes.len()
{
    if pos == bytes.len() {
        RunModel { lines: spec_flush_all(m.flows), diags: Seq::empty(), error: None }
    } else if bytes.len() - pos < TE_SIZE {
        RunModel {
            lines: Seq::empty(),
            diags: Seq::empty(),
            error: Some(TraceError::Framing(FramingError::Truncated)),
        }
    } else {
        let b = bytes.skip(pos);
        match spec_frame_error(b) {
            Some(fe) => RunModel {
                lines: Seq::empty(),
                diags: Seq::empty(),
                error: Some(TraceError::Framing(fe)),
            },
            None => {
                let e = spec_event_of(b);
                if e.head.cause != USER_ECALL {
                    RunModel {
                        lines: Seq::empty(),
                        diags: Seq::empty(),
                        error: Some(TraceError::Framing(FramingError::BadCause)),
                    }
                } else {
                    let sm = spec_step(m, e);
                    match sm.error {
                        Some(fe) => RunModel {
                            lines: Seq::empty(),
                            diags: Seq::empty(),
                            error: Some(TraceError::Flow(fe)),
                        },
                        None => {
                            let rest = spec_run_from(
                                sm.state,
                                bytes,
                                pos + spec_record_advance(b),
                            );
                            RunModel {
                                lines: flush_lines_opt(sm.flushed) + rest.lines,
                                diags: sm.diags + rest.diags,
                                error: rest.error,
                            }
                        },
                    }
                }
            },
        }
    }
}

/// A whole run over the stream, from the empty state.
pub open spec fn spec_run(bytes: Seq<u8>) -> RunModel {
    spec_run_from(empty_recon(), bytes, 0)
}

/// Law: truncated input is rejected.  Wherever a run reaches a position
/// with fewer bytes left than one record header, it raises the truncation
/// framing error instead of flushing partial output.
pub proof fn lemma_truncated_rejected(m: ReconModel, bytes: Seq<u8>, pos: int)
    requires
        0 <= pos <= bytes.len(),
        0 < bytes.len() - pos < TE_SIZE,
    ensures
        spec_run_from(m, bytes, pos).error == Some(TraceError::Framing(FramingError::Truncated)),
        spec_run_from(m, bytes, pos).lines == Seq::<Seq<char>>::empty(),
{
}

/// What one successful run hands back.
#[derive(Debug)]
pub struct RunOutput {
    /// The printed lines: for each flushed flow its banner and one line
    /// per matched call; flows flushed by `exit_group` come first, in
    /// stream order, then at end of stream the remaining flows in
    /// context-key order.
    pub lines: Vec<String>,
    /// The diagnostics emitted along the way, in order.
    pub diags: Vec<Diagnostic>,
}

/// Runs the whole pipeline over a closed byte stream: produces exactly the
/// lines and diagnostics of [`spec_run`], or stops with its error.
pub fn run_trace(bytes: &[u8]) -> (r: Result<RunOutput, TraceError>)
    ensures
        match r {
            Ok(out) => {
                &&& spec_run(bytes@).error is None
                &&& out.lines@.map_values(|s: String| s@) == spec_run(bytes@).lines
                &&& out.diags@ == spec_run(bytes@).diags
            },
            Err(te) => spec_run(bytes@).error == Some(te),
        },
{
    let mut recon = Reconstructor::new();
    let mut lines: Vec<String> = Vec::new();
    let mut diags: Vec<Diagnostic> = Vec::new();
    let mut pos: usize = 0;
    let n: usize = bytes.len();
    while n - pos >= TE_SIZE
        invariant
            n == bytes@.len(),
            pos <= bytes@.len(),
            recon_wf(recon@),
            ({
                let cur = spec_run_from(recon@, bytes@, pos as int);
                let whole = spec_run(bytes@);
                &&& whole.error == cur.error
                &&& whole.lines == lines@.map_values(|s: String| s@) + cur.lines
                &&& whole.diags == diags@ + cur.diags
            }),
        decreases bytes@.len() - pos,
    {
        let ghost m0 = recon@;
        let ghost pos0 = pos as int;
        let ghost b = bytes@.skip(pos as int);
        let (evt, newpos) = match parse_event(bytes, pos) {
            Ok(p) => p,
            Err(fe) => {
                proof {
                    assert(spec_run_from(m0, bytes@, pos0).error == Some(
                        TraceError::Framing(fe),
                    ));
                }
                return Err(TraceError::Framing(fe));
            },
        };
        proof {
            lemma_event_of_unique(evt@, b);
        }
        if evt.head.cause != USER_ECALL {
            return Err(TraceError::Framing(FramingError::BadCause));
        }
        let step = match recon.handle_event(evt) {
            Ok(s) => s,
            Err(fe) => {
                return Err(TraceError::Flow(fe));
            },
        };
        let ghost sm = spec_step(m0, evt@);
        let ghost lines0 = lines@.map_values(|s: String| s@);
        let ghost diags0 = diags@;
        match step.flushed {
            Some(pair) => {
                let mut fl = render_flow(pair.0, &pair.1.events);
                let ghost flv = fl@.map_values(|s: String| s@);
                lines.append(&mut fl);
                proof {
                    assert(lines@.map_values(|s: String| s@) =~= lines0 + flv);
                }
            },
            None => {
                proof {
                    assert(lines0 + flush_lines_opt(sm.flushed) =~= lines0);
                }
            },
        }
        let mut ds = step.diags;
        diags.append(&mut ds);
        pos = newpos;
        proof {
            let rest = spec_run_from(sm.state, bytes@, pos as int);
            assert(spec_run_from(m0, bytes@, pos0) == RunModel {
                lines: flush_lines_opt(sm.flushed) + rest.lines,
                diags: sm.diags + rest.diags,
                error: rest.error,
            });
            assert(lines@.map_values(|s: String| s@) =~= lines0 + flush_lines_opt(sm.flushed));
            assert((lines0 + flush_lines_opt(sm.flushed)) + rest.lines =~= lines0 + (
            flush_lines_opt(sm.flushed) + rest.lines));
            assert((diags0 + sm.diags) + rest.diags =~= diags0 + (sm.diags + rest.diags));
        }
    }
    if pos < n {
        return Err(TraceError::Framing(FramingError::Truncated));
    }
    let flows = recon.finish();
    let ghost fmodels = flows@.map_values(|p: (u64, crate::event::TraceFlow)| (p.0, p.1@));
    let ghost lines_before = lines@.map_values(|s: String| s@);
    let mut i: usize = 0;
    proof {
        assert(fmodels.skip(0) =~= fmodels);
    }
    while i < flows.len()
        invariant
            i <= flows@.len(),
            fmodels == flows@.map_values(|p: (u64, crate::event::TraceFlow)| (p.0, p.1@)),
            fmodels.len() == flows@.len(),
            lines@.map_values(|s: String| s@) + spec_flush_all(fmodels.skip(i as int))
                == lines_before + spec_flush_all(fmodels),
        decreases flows@.len() - i,
    {
        let ghost rem = fmodels.skip(i as int);
        let ghost lines1 = lines@.map_values(|s: String| s@);
        proof {
            assert(rem.drop_first() =~= fmodels.skip(i + 1));
            assert(rem[0] == fmodels[i as int]);
            assert(fmodels[i as int] == (flows@[i as int].0, flows@[i as int].1@));
        }
        let pair = &flows[i];
        let mut fl = render_flow(pair.0, &pair.1.events);
        let ghost flv = fl@.map_values(|s: String| s@);
        lines.append(&mut fl);
        proof {
            assert(lines@.map_values(|s: String| s@) =~= lines1 + flv);
            assert((lines1 + flv) + spec_flush_all(fmodels.skip(i + 1)) =~= lines1 + (flv
                + spec_flush_all(fmodels.skip(i + 1))));
        }
        i = i + 1;
    }
    proof {
        assert(fmodels.skip(fmodels.len() as int) =~= Seq::<(u64, FlowModel)>::empty());
        assert(lines@.map_values(|s: String| s@) + Seq::<Seq<char>>::empty() =~= lines@.map_values(
            |s: String| s@,
        ));
        assert(lines_before + Seq::<Seq<char>>::empty() =~= lines_before);
        assert(diags@ + Seq::<Diagnostic>::empty() =~= diags@);
    }
    Ok(RunOutput { lines, diags })
}

} // verus!
