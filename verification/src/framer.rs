//! Event framer: decodes one fixed-size record header plus zero or more
//! variable-length payload blocks from a byte stream into a [`TraceEvent`],
//! and encodes an event back into record bytes.
//!
//! Every multi-byte field is little-endian.  A record always advances the
//! cursor by exactly `totalsize` bytes, measured from the header's start;
//! `totalsize` is authoritative, whatever the payload sub-headers claim.

use vstd::prelude::*;
use vstd::bytes::*;
use vstd::slice::{slice_subrange, slice_to_vec};
use crate::event::{EventModel, PayloadModel, SigStage, TraceEvent, TraceHead, TracePayload};

verus! {

/// Protocol constant every record header must carry.
pub const LK_MAGIC: u16 = 0x6b6c;

/// Size in bytes of the fixed record header.
pub const TE_SIZE: usize = 200;

/// Size in bytes of one payload sub-header.
pub const PL_SIZE: usize = 8;

/// Why a stream could not be framed.  All of these are fatal: the stream is
/// corrupt and no further record can be trusted.
#[derive(Clone, Copy, Debug, PartialEq, Eq, Structural)]
pub enum FramingError {
    /// The stream ends in the middle of a header or of a record.
    Truncated,
    /// A header's magic tag is not the protocol constant.
    BadMagic,
    /// A header's size field is not the fixed header size.
    BadHeadSize,
    /// A record's total size is smaller than its header.
    BadTotalSize,
    /// A payload sub-header declares bytes that its record does not hold.
    BadPayload,
    /// A record's trap cause is not a user syscall trap.
    BadCause,
}

/// `h` holds exactly the fields encoded in the first `TE_SIZE` bytes of `b`.
pub open spec fn head_matches(h: TraceHead, b: Seq<u8>) -> bool {
    &&& h.magic == spec_u16_from_le_bytes(b.subrange(0, 2))
    &&& h.headsize == spec_u16_from_le_bytes(b.subrange(2, 4))
    &&& h.totalsize == spec_u32_from_le_bytes(b.subrange(4, 8))
    &&& h.inout == spec_u64_from_le_bytes(b.subrange(8, 16))
    &&& h.cause == spec_u64_from_le_bytes(b.subrange(16, 24))
    &&& h.epc == spec_u64_from_le_bytes(b.subrange(24, 32))
    &&& forall|i: int|
        0 <= i < 8 ==> h.ax@[i] == spec_u64_from_le_bytes(b.subrange(32 + 8 * i, 40 + 8 * i))
    &&& h.usp == spec_u64_from_le_bytes(b.subrange(96, 104))
    &&& forall|i: int|
        0 <= i < 8 ==> h.stack@[i] == spec_u64_from_le_bytes(b.subrange(104 + 8 * i, 112 + 8 * i))
    &&& h.orig_a0 == spec_u64_from_le_bytes(b.subrange(168, 176))
    &&& h.satp == spec_u64_from_le_bytes(b.subrange(176, 184))
    &&& h.tp == spec_u64_from_le_bytes(b.subrange(184, 192))
    &&& h.sscratch == spec_u64_from_le_bytes(b.subrange(192, 200))
}

/// Two headers matching the same bytes are the same header.
pub proof fn lemma_head_matches_unique(h1: TraceHead, h2: TraceHead, b: Seq<u8>)
    requires
        head_matches(h1, b),
        head_matches(h2, b),
    ensures
        h1 == h2,
{
    assert(h1.ax@ =~= h2.ax@);
    assert(h1.stack@ =~= h2.stack@);
    assert(h1.ax == h2.ax);
    assert(h1.stack == h2.stack);
}

/// The payload blocks encoded in the payload region `p` of a record whose
/// direction flag is `dir`, or `None` when a sub-header declares more bytes
/// than the region holds.  Each block is a sub-header (a tag the consumer
/// ignores, a slot index, a byte length) followed by that many raw bytes.
pub open spec fn spec_parse_payloads(p: Seq<u8>, dir: u64) -> Option<Seq<PayloadModel>>
    decreases p.len(),
{
    if p.len() == 0 {
        Some(Seq::empty())
    } else if p.len() < 8 {
        None
    } else {
        let index = spec_u16_from_le_bytes(p.subrange(2, 4));
        let len = spec_u32_from_le_bytes(p.subrange(4, 8));
        if p.len() < 8 + len {
            None
        } else {
            let block = PayloadModel {
                inout: dir,
                index: index as usize,
                data: p.subrange(8, 8 + len),
            };
            match spec_parse_payloads(p.subrange(8 + len, p.len() as int), dir) {
                Some(rest) => Some(seq![block] + rest),
                None => None,
            }
        }
    }
}

/// How the framer judges the stream suffix `b`: `None` when one whole record
/// stands at its front, otherwise the framing error it raises.
pub open spec fn spec_frame_error(b: Seq<u8>) -> Option<FramingError> {
    if b.len() < TE_SIZE {
        Some(FramingError::Truncated)
    } else if spec_u16_from_le_bytes(b.subrange(0, 2)) != LK_MAGIC {
        Some(FramingError::BadMagic)
    } else if spec_u16_from_le_bytes(b.subrange(2, 4)) != TE_SIZE as u16 {
        Some(FramingError::BadHeadSize)
    } else if spec_u32_from_le_bytes(b.subrange(4, 8)) < TE_SIZE as u32 {
        Some(FramingError::BadTotalSize)
    } else if b.len() < spec_u32_from_le_bytes(b.subrange(4, 8)) {
        Some(FramingError::Truncated)
    } else if spec_parse_payloads(
        b.subrange(TE_SIZE as int, spec_u32_from_le_bytes(b.subrange(4, 8)) as int),
        spec_u64_from_le_bytes(b.subrange(8, 16)),
    ) is None {
        Some(FramingError::BadPayload)
    } else {
        None
    }
}

/// The record size the front of `b` declares.
pub open spec fn spec_record_advance(b: Seq<u8>) -> int {
    spec_u32_from_le_bytes(b.subrange(4, 8)) as int
}

/// `e` is the event framed from the front of the stream suffix `b`.
pub open spec fn event_matches(e: EventModel, b: Seq<u8>) -> bool {
    &&& head_matches(e.head, b.subrange(0, TE_SIZE as int))
    &&& Some(e.payloads) == spec_parse_payloads(
        b.subrange(TE_SIZE as int, spec_record_advance(b)),
        e.head.inout,
    )
    &&& e.result == 0
    &&& e.signal == SigStage::Empty
}

pub(crate) fn read_u64_at(bytes: &[u8], off: usize) -> (x: u64)
    requires
        off + 8 <= bytes@.len(),
    ensures
        x == spec_u64_from_le_bytes(bytes@.subrange(off as int, off + 8)),
{
    let n: usize = bytes.len();
    proof {
        assert(off + 8 <= n);
    }
    u64_from_le_bytes(slice_subrange(bytes, off, off + 8))
}

/// The little-endian `u32` standing at `off`.
pub open spec fn spec_u32_at(b: Seq<u8>, off: int) -> u32 {
    spec_u32_from_le_bytes(b.subrange(off, off + 4))
}

/// Reads the little-endian `u32` at `off`.
pub(crate) fn read_u32_at(bytes: &[u8], off: usize) -> (x: u32)
    requires
        off + 4 <= bytes@.len(),
    ensures
        x == spec_u32_at(bytes@, off as int),
{
    let n: usize = bytes.len();
    proof {
        assert(off + 4 <= n);
    }
    u32_from_le_bytes(slice_subrange(bytes, off, off + 4))
}

/// Frames one record that starts at `pos`, decoding its header field by
/// field and collecting its payload blocks; returns the event and the
/// position of the next record, `totalsize` bytes further on.
pub fn parse_event(bytes: &[u8], pos: usize) -> (r: Result<(TraceEvent, usize), FramingError>)
    requires
        pos <= bytes@.len(),
    ensures
        match r {
            Ok((e, newpos)) => {
                &&& spec_frame_error(bytes@.skip(pos as int)) is None
                &&& event_matches(e@, bytes@.skip(pos as int))
                &&& newpos == pos + spec_record_advance(bytes@.skip(pos as int))
                &&& pos < newpos <= bytes@.len()
            },
            Err(fe) => Some(fe) == spec_frame_error(bytes@.skip(pos as int)),
        },
{
    let ghost b = bytes@.skip(pos as int);
    if bytes.len() - pos < TE_SIZE {
        return Err(FramingError::Truncated);
    }
    proof {
        assert(b.subrange(0, 2) =~= bytes@.subrange(pos as int, pos + 2));
        assert(b.subrange(2, 4) =~= bytes@.subrange(pos + 2, pos + 4));
        assert(b.subrange(4, 8) =~= bytes@.subrange(pos + 4, pos + 8));
    }
    let magic = u16_from_le_bytes(slice_subrange(bytes, pos, pos + 2));
    let headsize = u16_from_le_bytes(slice_subrange(bytes, pos + 2, pos + 4));
    let totalsize = u32_from_le_bytes(slice_subrange(bytes, pos + 4, pos + 8));
    if magic != LK_MAGIC {
        return Err(FramingError::BadMagic);
    }
    if headsize != TE_SIZE as u16 {
        return Err(FramingError::BadHeadSize);
    }
    if totalsize < TE_SIZE as u32 {
        return Err(FramingError::BadTotalSize);
    }
    if ((bytes.len() - pos) as u64) < (totalsize as u64) {
        return Err(FramingError::Truncated);
    }
    proof {
        assert(b.subrange(8, 16) =~= bytes@.subrange(pos + 8, pos + 16));
        assert(b.subrange(16, 24) =~= bytes@.subrange(pos + 16, pos + 24));
        assert(b.subrange(24, 32) =~= bytes@.subrange(pos + 24, pos + 32));
        assert(b.subrange(96, 104) =~= bytes@.subrange(pos + 96, pos + 104));
        assert(b.subrange(168, 176) =~= bytes@.subrange(pos + 168, pos + 176));
        assert(b.subrange(176, 184) =~= bytes@.subrange(pos + 176, pos + 184));
        assert(b.subrange(184, 192) =~= bytes@.subrange(pos + 184, pos + 192));
        assert(b.subrange(192, 200) =~= bytes@.subrange(pos + 192, pos + 200));
    }
    let inout = read_u64_at(bytes, pos + 8);
    let cause = read_u64_at(bytes, pos + 16);
    let epc = read_u64_at(bytes, pos + 24);
    let mut ax: [u64; 8] = [0; 8];
    let mut i: usize = 0;
    while i < 8
        invariant
            i <= 8,
            pos + TE_SIZE <= bytes@.len(),
            bytes@.len() <= usize::MAX,
            b == bytes@.skip(pos as int),
            forall|j: int|
                0 <= j < i ==> ax@[j] == spec_u64_from_le_bytes(
                    b.subrange(32 + 8 * j, 40 + 8 * j),
                ),
        decreases 8 - i,
    {
        proof {
            assert(b.subrange(32 + 8 * i, 40 + 8 * i) =~= bytes@.subrange(
                pos + 32 + 8 * i,
                pos + 40 + 8 * i,
            ));
        }
        let v = read_u64_at(bytes, pos + 32 + 8 * i);
        ax[i] = v;
        i = i + 1;
    }
    let usp = read_u64_at(bytes, pos + 96);
    let mut stack: [u64; 8] = [0; 8];
    let mut i: usize = 0;
    while i < 8
        invariant
            i <= 8,
            pos + TE_SIZE <= bytes@.len(),
            bytes@.len() <= usize::MAX,
            b == bytes@.skip(pos as int),
            forall|j: int|
                0 <= j < i ==> stack@[j] == spec_u64_from_le_bytes(
                    b.subrange(104 + 8 * j, 112 + 8 * j),
                ),
        decreases 8 - i,
    {
        proof {
            assert(b.subrange(104 + 8 * i, 112 + 8 * i) =~= bytes@.subrange(
                pos + 104 + 8 * i,
                pos + 112 + 8 * i,
            ));
        }
        let v = read_u64_at(bytes, pos + 104 + 8 * i);
        stack[i] = v;
        i = i + 1;
    }
    let orig_a0 = read_u64_at(bytes, pos + 168);
    let satp = read_u64_at(bytes, pos + 176);
    let tp = read_u64_at(bytes, pos + 184);
    let sscratch = read_u64_at(bytes, pos + 192);
    let head = TraceHead {
        magic,
        headsize,
        totalsize,
        inout,
        cause,
        epc,
        ax,
        usp,
        stack,
        orig_a0,
        satp,
        tp,
        sscratch,
    };
    proof {
        assert(head_matches(head, b.subrange(0, TE_SIZE as int))) by {
            assert(forall|k1: int, k2: int|
                0 <= k1 <= k2 <= TE_SIZE ==> b.subrange(0, TE_SIZE as int).subrange(k1, k2) =~= b
                    .subrange(k1, k2));
        }
    }
    let payloads = match parse_payloads(
        bytes,
        pos + TE_SIZE,
        pos + totalsize as usize,
        inout,
        Ghost(b),
    ) {
        Ok(p) => p,
        Err(fe) => {
            return Err(fe);
        },
    };
    let evt = TraceEvent { head, result: 0, payloads, signal: SigStage::Empty };
    Ok((evt, pos + totalsize as usize))
}

/// Collects the payload blocks of the record occupying `bytes[start..end]`,
/// where `start` marks the end of its fixed header.
fn parse_payloads(
    bytes: &[u8],
    start: usize,
    end: usize,
    dir: u64,
    Ghost(b): Ghost<Seq<u8>>,
) -> (r: Result<Vec<TracePayload>, FramingError>)
    requires
        TE_SIZE <= start <= end <= bytes@.len(),
        b == bytes@.skip(start - TE_SIZE),
    ensures
        match r {
            Ok(ps) => Some(ps@.map_values(|p: TracePayload| p@)) == spec_parse_payloads(
                b.subrange(TE_SIZE as int, TE_SIZE + (end - start)),
                dir,
            ),
            Err(fe) => {
                &&& fe == FramingError::BadPayload
                &&& spec_parse_payloads(
                    b.subrange(TE_SIZE as int, TE_SIZE + (end - start)),
                    dir,
                ) is None
            },
        },
{
    let ghost region = b.subrange(TE_SIZE as int, TE_SIZE + (end - start));
    let mut out: Vec<TracePayload> = Vec::new();
    let mut off: usize = start;
    proof {
        assert(region.skip(0) =~= region);
    }
    while off < end
        invariant
            TE_SIZE <= start <= off <= end <= bytes@.len(),
            b == bytes@.skip(start - TE_SIZE),
            region == b.subrange(TE_SIZE as int, TE_SIZE + (end - start)),
            spec_parse_payloads(region, dir) == (match spec_parse_payloads(
                region.skip(off - start),
                dir,
            ) {
                Some(rest) => Some(out@.map_values(|p: TracePayload| p@) + rest),
                None => None,
            }),
        decreases end - off,
    {
        let ghost rem = region.skip(off - start);
        proof {
            assert(rem.len() == end - off);
        }
        if end - off < PL_SIZE {
            return Err(FramingError::BadPayload);
        }
        proof {
            assert(rem.subrange(2, 4) =~= bytes@.subrange(off + 2, off + 4));
            assert(rem.subrange(4, 8) =~= bytes@.subrange(off + 4, off + 8));
        }
        let index = u16_from_le_bytes(slice_subrange(bytes, off + 2, off + 4));
        let len = u32_from_le_bytes(slice_subrange(bytes, off + 4, off + 8));
        if ((end - off - PL_SIZE) as u64) < (len as u64) {
            return Err(FramingError::BadPayload);
        }
        let data = slice_to_vec(slice_subrange(bytes, off + PL_SIZE, off + PL_SIZE + len as usize));
        proof {
            assert(rem.subrange(8, 8 + len as int) =~= bytes@.subrange(
                off + PL_SIZE,
                off + PL_SIZE + len as int,
            ));
        }
        let block = TracePayload { inout: dir, index: index as usize, data };
        let ghost prev = out@.map_values(|p: TracePayload| p@);
        out.push(block);
        proof {
            let consumed = PL_SIZE + len as int;
            let rem2 = region.skip(off - start + consumed);
            assert(rem.subrange(consumed, rem.len() as int) =~= rem2);
            assert(out@.map_values(|p: TracePayload| p@) =~= prev + seq![block@]);
            match spec_parse_payloads(rem2, dir) {
                Some(rest) => {
                    assert(spec_parse_payloads(rem, dir) == Some(seq![block@] + rest));
                    assert(prev + (seq![block@] + rest) =~= (prev + seq![block@]) + rest);
                },
                None => {
                    assert(spec_parse_payloads(rem, dir) is None);
                },
            }
        }
        off = off + PL_SIZE + len as usize;
    }
    proof {
        assert(region.skip(off - start) =~= Seq::<u8>::empty());
        assert(spec_parse_payloads(region.skip(off - start), dir) == Some(
            Seq::<PayloadModel>::empty(),
        ));
        assert(out@.map_values(|p: TracePayload| p@) + Seq::<PayloadModel>::empty() =~= out@
            .map_values(|p: TracePayload| p@));
    }
    Ok(out)
}

/// One payload block can be encoded: its slot index and byte length fit
/// their sub-header fields.
pub open spec fn payload_encodable(p: PayloadModel) -> bool {
    &&& p.index <= 0xffff
    &&& p.data.len() <= 0xffffffff
}

/// Bytes a record spends on the payload blocks `ps`, sub-headers included.
pub open spec fn spec_payloads_size(ps: Seq<PayloadModel>) -> int
    decreases ps.len(),
{
    if ps.len() == 0 {
        0
    } else {
        8 + ps[0].data.len() + spec_payloads_size(ps.drop_first())
    }
}

/// The blocks from position `i` on can be encoded and, together with the
/// fixed header, fit the record's 32-bit size field.
pub open spec fn payloads_encodable_from(ps: Seq<PayloadModel>, i: int) -> bool {
    &&& forall|j: int| i <= j < ps.len() ==> payload_encodable(ps[j])
    &&& TE_SIZE + spec_payloads_size(ps.skip(i)) <= 0xffffffff
}

/// The event can be encoded as one record.
pub open spec fn encodable(e: EventModel) -> bool {
    payloads_encodable_from(e.payloads, 0)
}

/// `h` with the protocol magic, the fixed header size, and the given total
/// record size in place of whatever its size fields held.
pub open spec fn spec_with_sizes(h: TraceHead, totalsize: u32) -> TraceHead {
    TraceHead {
        magic: LK_MAGIC,
        headsize: TE_SIZE as u16,
        totalsize,
        inout: h.inout,
        cause: h.cause,
        epc: h.epc,
        ax: h.ax,
        usp: h.usp,
        stack: h.stack,
        orig_a0: h.orig_a0,
        satp: h.satp,
        tp: h.tp,
        sscratch: h.sscratch,
    }
}

/// The header under which `e` is encoded: its own registers, with the size
/// fields recomputed from its payload blocks.
pub open spec fn spec_normal_head(e: EventModel) -> TraceHead {
    spec_with_sizes(e.head, (TE_SIZE + spec_payloads_size(e.payloads)) as u32)
}

/// The encoding of one record header.
pub open spec fn spec_encode_head(h: TraceHead) -> Seq<u8> {
    spec_u16_to_le_bytes(h.magic) + spec_u16_to_le_bytes(h.headsize) + spec_u32_to_le_bytes(
        h.totalsize,
    ) + spec_u64_to_le_bytes(h.inout) + spec_u64_to_le_bytes(h.cause) + spec_u64_to_le_bytes(h.epc)
        + spec_u64_to_le_bytes(h.ax@[0]) + spec_u64_to_le_bytes(h.ax@[1]) + spec_u64_to_le_bytes(
        h.ax@[2],
    ) + spec_u64_to_le_bytes(h.ax@[3]) + spec_u64_to_le_bytes(h.ax@[4]) + spec_u64_to_le_bytes(
        h.ax@[5],
    ) + spec_u64_to_le_bytes(h.ax@[6]) + spec_u64_to_le_bytes(h.ax@[7]) + spec_u64_to_le_bytes(
        h.usp,
    ) + spec_u64_to_le_bytes(h.stack@[0]) + spec_u64_to_le_bytes(h.stack@[1])
        + spec_u64_to_le_bytes(h.stack@[2]) + spec_u64_to_le_bytes(h.stack@[3])
        + spec_u64_to_le_bytes(h.stack@[4]) + spec_u64_to_le_bytes(h.stack@[5])
        + spec_u64_to_le_bytes(h.stack@[6]) + spec_u64_to_le_bytes(h.stack@[7])
        + spec_u64_to_le_bytes(h.orig_a0) + spec_u64_to_le_bytes(h.satp) + spec_u64_to_le_bytes(
        h.tp,
    ) + spec_u64_to_le_bytes(h.sscratch)
}

/// The encoding of one payload block: sub-header, then the raw bytes.
pub open spec fn spec_encode_payload(p: PayloadModel) -> Seq<u8> {
    spec_u16_to_le_bytes(LK_MAGIC) + spec_u16_to_le_bytes(p.index as u16) + spec_u32_to_le_bytes(
        p.data.len() as u32,
    ) + p.data
}

/// The encoding of a record's payload blocks, in order.
pub open spec fn spec_encode_payloads(ps: Seq<PayloadModel>) -> Seq<u8>
    decreases ps.len(),
{
    if ps.len() == 0 {
        Seq::empty()
    } else {
        spec_encode_payload(ps[0]) + spec_encode_payloads(ps.drop_first())
    }
}

/// The encoding of `e` as one well-formed record.
pub open spec fn spec_encode_event(e: EventModel) -> Seq<u8> {
    spec_encode_head(spec_normal_head(e)) + spec_encode_payloads(e.payloads)
}

/// Size in bytes of the payload blocks from `i` on, or `None` when they
/// cannot be encoded within the record size field.
fn payloads_size_from(ps: &Vec<TracePayload>, i: usize) -> (r: Option<u64>)
    requires
        i <= ps@.len(),
    ensures
        ({
            let views = ps@.map_values(|p: TracePayload| p@);
            match r {
                Some(t) => {
                    &&& payloads_encodable_from(views, i as int)
                    &&& t == spec_payloads_size(views.skip(i as int))
                },
                None => !payloads_encodable_from(views, i as int),
            }
        }),
    decreases ps@.len() - i,
{
    let ghost views = ps@.map_values(|p: TracePayload| p@);
    if i == ps.len() {
        proof {
            assert(views.skip(i as int) =~= Seq::<PayloadModel>::empty());
        }
        Some(0)
    } else {
        proof {
            assert(views.skip(i as int).drop_first() =~= views.skip(i + 1));
            assert(views.skip(i as int)[0] == views[i as int]);
        }
        let p = &ps[i];
        if p.index > 0xffff {
            return None;
        }
        if p.data.len() as u64 > 0xffffffff {
            return None;
        }
        match payloads_size_from(ps, i + 1) {
            Some(rest) => {
                let t: u64 = rest + 8 + p.data.len() as u64;
                if TE_SIZE as u64 + t > 0xffffffff {
                    None
                } else {
                    Some(t)
                }
            },
            None => None,
        }
    }
}

/// Encodes the payload blocks from `i` on.
fn encode_payloads_from(ps: &Vec<TracePayload>, i: usize) -> (r: Vec<u8>)
    requires
        i <= ps@.len(),
        forall|j: int| i <= j < ps@.len() ==> payload_encodable(#[trigger] ps@[j]@),
    ensures
        r@ == spec_encode_payloads(ps@.map_values(|p: TracePayload| p@).skip(i as int)),
    decreases ps@.len() - i,
{
    let ghost views = ps@.map_values(|p: TracePayload| p@);
    if i == ps.len() {
        proof {
            assert(views.skip(i as int) =~= Seq::<PayloadModel>::empty());
        }
        Vec::new()
    } else {
        proof {
            assert(views.skip(i as int).drop_first() =~= views.skip(i + 1));
            assert(views.skip(i as int)[0] == views[i as int]);
        }
        let p = &ps[i];
        let mut out = u16_to_le_bytes(LK_MAGIC);
        let mut idx_bytes = u16_to_le_bytes(p.index as u16);
        out.append(&mut idx_bytes);
        let mut len_bytes = u32_to_le_bytes(p.data.len() as u32);
        out.append(&mut len_bytes);
        let mut data = crate::event::clone_bytes(&p.data);
        out.append(&mut data);
        let mut rest = encode_payloads_from(ps, i + 1);
        out.append(&mut rest);
        proof {
            assert(out@ == spec_encode_payload(views[i as int]) + spec_encode_payloads(
                views.skip(i + 1),
            ));
        }
        out
    }
}

/// Encodes a record header, writing the protocol magic, the fixed header
/// size and the given total size in place of the stored size fields.
fn encode_head(h: &TraceHead, totalsize: u32) -> (r: Vec<u8>)
    ensures
        r@ == spec_encode_head(spec_with_sizes(*h, totalsize)),
{
    let mut out = u16_to_le_bytes(LK_MAGIC);
    let mut piece = u16_to_le_bytes(TE_SIZE as u16);
    out.append(&mut piece);
    let mut piece = u32_to_le_bytes(totalsize);
    out.append(&mut piece);
    let mut piece = u64_to_le_bytes(h.inout);
    out.append(&mut piece);
    let mut piece = u64_to_le_bytes(h.cause);
    out.append(&mut piece);
    let mut piece = u64_to_le_bytes(h.epc);
    out.append(&mut piece);
    let mut piece = u64_to_le_bytes(h.ax[0]);
    out.append(&mut piece);
    let mut piece = u64_to_le_bytes(h.ax[1]);
    out.append(&mut piece);
    let mut piece = u64_to_le_bytes(h.ax[2]);
    out.append(&mut piece);
    let mut piece = u64_to_le_bytes(h.ax[3]);
    out.append(&mut piece);
    let mut piece = u64_to_le_bytes(h.ax[4]);
    out.append(&mut piece);
    let mut piece = u64_to_le_bytes(h.ax[5]);
    out.append(&mut piece);
    let mut piece = u64_to_le_bytes(h.ax[6]);
    out.append(&mut piece);
    let mut piece = u64_to_le_bytes(h.ax[7]);
    out.append(&mut piece);
    let mut piece = u64_to_le_bytes(h.usp);
    out.append(&mut piece);
    let mut piece = u64_to_le_bytes(h.stack[0]);
    out.append(&mut piece);
    let mut piece = u64_to_le_bytes(h.stack[1]);
    out.append(&mut piece);
    let mut piece = u64_to_le_bytes(h.stack[2]);
    out.append(&mut piece);
    let mut piece = u64_to_le_bytes(h.stack[3]);
    out.append(&mut piece);
    let mut piece = u64_to_le_bytes(h.stack[4]);
    out.append(&mut piece);
    let mut piece = u64_to_le_bytes(h.stack[5]);
    out.append(&mut piece);
    let mut piece = u64_to_le_bytes(h.stack[6]);
    out.append(&mut piece);
    let mut piece = u64_to_le_bytes(h.stack[7]);
    out.append(&mut piece);
    let mut piece = u64_to_le_bytes(h.orig_a0);
    out.append(&mut piece);
    let mut piece = u64_to_le_bytes(h.satp);
    out.append(&mut piece);
    let mut piece = u64_to_le_bytes(h.tp);
    out.append(&mut piece);
    let mut piece = u64_to_le_bytes(h.sscratch);
    out.append(&mut piece);
    out
}

/// Encodes `e` as one well-formed record: header with recomputed sizes,
/// then its payload blocks.  `None` exactly when a slot index, a block
/// length or the record's total size does not fit its field.
pub fn encode_event(e: &TraceEvent) -> (r: Option<Vec<u8>>)
    ensures
        r is Some <==> encodable(e@),
        r is Some ==> r->0@ == spec_encode_event(e@),
{
    let total = match payloads_size_from(&e.payloads, 0) {
        Some(t) => t,
        None => {
            return None;
        },
    };
    proof {
        assert(e.payloads@.map_values(|p: TracePayload| p@).skip(0) =~= e.payloads@.map_values(
            |p: TracePayload| p@,
        ));
    }
    proof {
        let views = e.payloads@.map_values(|p: TracePayload| p@);
        assert(forall|j: int| 0 <= j < e.payloads@.len() ==> #[trigger] e.payloads@[j]@ == views[j]);
    }
    let totalsize: u32 = TE_SIZE as u32 + total as u32;
    let mut out = encode_head(&e.head, totalsize);
    let mut payload_bytes = encode_payloads_from(&e.payloads, 0);
    out.append(&mut payload_bytes);
    Some(out)
}

/// The encoded header is one fixed header long and decodes to its own
/// fields.
pub proof fn lemma_encode_head_matches(h: TraceHead)
    ensures
        spec_encode_head(h).len() == TE_SIZE,
        head_matches(h, spec_encode_head(h)),
{
    lemma_auto_spec_u16_to_from_le_bytes();
    lemma_auto_spec_u32_to_from_le_bytes();
    lemma_auto_spec_u64_to_from_le_bytes();
    let b = spec_encode_head(h);
    assert(b.subrange(0, 2) =~= spec_u16_to_le_bytes(h.magic));
    assert(b.subrange(2, 4) =~= spec_u16_to_le_bytes(h.headsize));
    assert(b.subrange(4, 8) =~= spec_u32_to_le_bytes(h.totalsize));
    assert(b.subrange(8, 16) =~= spec_u64_to_le_bytes(h.inout));
    assert(b.subrange(16, 24) =~= spec_u64_to_le_bytes(h.cause));
    assert(b.subrange(24, 32) =~= spec_u64_to_le_bytes(h.epc));
    assert(b.subrange(32, 40) =~= spec_u64_to_le_bytes(h.ax@[0]));
    assert(b.subrange(40, 48) =~= spec_u64_to_le_bytes(h.ax@[1]));
    assert(b.subrange(48, 56) =~= spec_u64_to_le_bytes(h.ax@[2]));
    assert(b.subrange(56, 64) =~= spec_u64_to_le_bytes(h.ax@[3]));
    assert(b.subrange(64, 72) =~= spec_u64_to_le_bytes(h.ax@[4]));
    assert(b.subrange(72, 80) =~= spec_u64_to_le_bytes(h.ax@[5]));
    assert(b.subrange(80, 88) =~= spec_u64_to_le_bytes(h.ax@[6]));
    assert(b.subrange(88, 96) =~= spec_u64_to_le_bytes(h.ax@[7]));
    assert(b.subrange(96, 104) =~= spec_u64_to_le_bytes(h.usp));
    assert(b.subrange(104, 112) =~= spec_u64_to_le_bytes(h.stack@[0]));
    assert(b.subrange(112, 120) =~= spec_u64_to_le_bytes(h.stack@[1]));
    assert(b.subrange(120, 128) =~= spec_u64_to_le_bytes(h.stack@[2]));
    assert(b.subrange(128, 136) =~= spec_u64_to_le_bytes(h.stack@[3]));
    assert(b.subrange(136, 144) =~= spec_u64_to_le_bytes(h.stack@[4]));
    assert(b.subrange(144, 152) =~= spec_u64_to_le_bytes(h.stack@[5]));
    assert(b.subrange(152, 160) =~= spec_u64_to_le_bytes(h.stack@[6]));
    assert(b.subrange(160, 168) =~= spec_u64_to_le_bytes(h.stack@[7]));
    assert(b.subrange(168, 176) =~= spec_u64_to_le_bytes(h.orig_a0));
    assert(b.subrange(176, 184) =~= spec_u64_to_le_bytes(h.satp));
    assert(b.subrange(184, 192) =~= spec_u64_to_le_bytes(h.tp));
    assert(b.subrange(192, 200) =~= spec_u64_to_le_bytes(h.sscratch));
    assert forall|i: int| 0 <= i < 8 implies h.ax@[i] == spec_u64_from_le_bytes(
        b.subrange(32 + 8 * i, 40 + 8 * i),
    ) by {
        if i == 0 {
        } else if i == 1 {
        } else if i == 2 {
        } else if i == 3 {
        } else if i == 4 {
        } else if i == 5 {
        } else if i == 6 {
        } else {
            assert(i == 7);
        }
    }
    assert forall|i: int| 0 <= i < 8 implies h.stack@[i] == spec_u64_from_le_bytes(
        b.subrange(104 + 8 * i, 112 + 8 * i),
    ) by {
        if i == 0 {
        } else if i == 1 {
        } else if i == 2 {
        } else if i == 3 {
        } else if i == 4 {
        } else if i == 5 {
        } else if i == 6 {
        } else {
            assert(i == 7);
        }
    }
}

/// Parsing the encoding of payload blocks yields those blocks back, with
/// their slot indices and raw bytes intact.
pub proof fn lemma_parse_encoded_payloads(ps: Seq<PayloadModel>, dir: u64)
    requires
        forall|j: int| 0 <= j < ps.len() ==> payload_encodable(#[trigger] ps[j]),
        forall|j: int| 0 <= j < ps.len() ==> (#[trigger] ps[j]).inout == dir,
    ensures
        spec_parse_payloads(spec_encode_payloads(ps), dir) == Some(ps),
    decreases ps.len(),
{
    lemma_auto_spec_u16_to_from_le_bytes();
    lemma_auto_spec_u32_to_from_le_bytes();
    let b = spec_encode_payloads(ps);
    if ps.len() == 0 {
        assert(b =~= Seq::<u8>::empty());
    } else {
        let p0 = ps[0];
        let len = p0.data.len() as int;
        assert(b.subrange(2, 4) =~= spec_u16_to_le_bytes(p0.index as u16));
        assert(b.subrange(4, 8) =~= spec_u32_to_le_bytes(p0.data.len() as u32));
        assert(b.subrange(8, 8 + len) =~= p0.data);
        assert(b.subrange(8 + len, b.len() as int) =~= spec_encode_payloads(ps.drop_first()));
        lemma_parse_encoded_payloads(ps.drop_first(), dir);
        let block = PayloadModel { inout: dir, index: p0.index as u16 as usize, data: p0.data };
        assert(block =~= p0);
        assert(seq![p0] + ps.drop_first() =~= ps);
    }
}

/// Law: a record round-trips.  Encoding an event and framing the resulting
/// bytes — alone or in front of any further stream — consumes exactly the
/// record, raises no framing error, and yields an event with byte-identical
/// registers and payload bytes; only the three size fields of the header
/// are recomputed by the encoder.
pub proof fn lemma_record_round_trip(e: EventModel, tail: Seq<u8>)
    requires
        encodable(e),
        forall|j: int| 0 <= j < e.payloads.len() ==> (#[trigger] e.payloads[j]).inout
            == e.head.inout,
    ensures
        ({
            let rec = spec_encode_event(e);
            let b = rec + tail;
            &&& rec.len() == TE_SIZE + spec_payloads_size(e.payloads)
            &&& spec_frame_error(b) is None
            &&& spec_record_advance(b) == rec.len()
            &&& b.skip(rec.len() as int) =~= tail
            &&& forall|d: EventModel|
                event_matches(d, b) ==> d.head == spec_normal_head(e) && d.payloads == e.payloads
        }),
{
    let nh = spec_normal_head(e);
    let hb = spec_encode_head(nh);
    let pb = spec_encode_payloads(e.payloads);
    let rec = spec_encode_event(e);
    let b = rec + tail;
    lemma_encode_head_matches(nh);
    lemma_encode_payloads_len(e.payloads);
    assert(e.payloads.skip(0) =~= e.payloads);
    assert(rec.len() == TE_SIZE + spec_payloads_size(e.payloads));
    assert(b.subrange(0, TE_SIZE as int) =~= hb);
    assert(head_matches(nh, b.subrange(0, TE_SIZE as int)));
    assert(b.subrange(0, 2) =~= hb.subrange(0, 2));
    assert(b.subrange(2, 4) =~= hb.subrange(2, 4));
    assert(b.subrange(4, 8) =~= hb.subrange(4, 8));
    assert(b.subrange(8, 16) =~= hb.subrange(8, 16));
    assert(spec_u16_from_le_bytes(b.subrange(0, 2)) == LK_MAGIC);
    assert(spec_u16_from_le_bytes(b.subrange(2, 4)) == TE_SIZE as u16);
    assert(spec_u32_from_le_bytes(b.subrange(4, 8)) == nh.totalsize);
    assert(nh.totalsize == TE_SIZE + spec_payloads_size(e.payloads));
    assert(spec_u64_from_le_bytes(b.subrange(8, 16)) == nh.inout);
    assert(b.subrange(TE_SIZE as int, nh.totalsize as int) =~= pb);
    lemma_parse_encoded_payloads(e.payloads, e.head.inout);
    assert(spec_frame_error(b) is None);
    assert(b.skip(rec.len() as int) =~= tail);
    assert forall|d: EventModel| event_matches(d, b) implies d.head == nh && d.payloads
        == e.payloads by {
        lemma_head_matches_unique(d.head, nh, b.subrange(0, TE_SIZE as int));
    }
}

/// The encoding of payload blocks is exactly as long as the size they are
/// charged with.
pub proof fn lemma_encode_payloads_len(ps: Seq<PayloadModel>)
    ensures
        spec_encode_payloads(ps).len() == spec_payloads_size(ps),
    decreases ps.len(),
{
    lemma_auto_spec_u16_to_from_le_bytes();
    lemma_auto_spec_u32_to_from_le_bytes();
    if ps.len() > 0 {
        lemma_encode_payloads_len(ps.drop_first());
    }
}

/// The eight registers encoded at `base`, `base + 8`, ... of `b`.
pub open spec fn spec_regs_of(b: Seq<u8>, base: int) -> [u64; 8] {
    vstd::array::spec_array_update(
        vstd::array::spec_array_update(
            vstd::array::spec_array_update(
                vstd::array::spec_array_update(
                    vstd::array::spec_array_update(
                        vstd::array::spec_array_update(
                            vstd::array::spec_array_update(
                                vstd::array::spec_array_update(
                                    vstd::array::spec_array_fill_for_copy_type::<u64, 8>(0u64),
                                    0,
                                    spec_u64_from_le_bytes(b.subrange(base, base + 8)),
                                ),
                                1,
                                spec_u64_from_le_bytes(b.subrange(base + 8, base + 16)),
                            ),
                            2,
                            spec_u64_from_le_bytes(b.subrange(base + 16, base + 24)),
                        ),
                        3,
                        spec_u64_from_le_bytes(b.subrange(base + 24, base + 32)),
                    ),
                    4,
                    spec_u64_from_le_bytes(b.subrange(base + 32, base + 40)),
                ),
                5,
                spec_u64_from_le_bytes(b.subrange(base + 40, base + 48)),
            ),
            6,
            spec_u64_from_le_bytes(b.subrange(base + 48, base + 56)),
        ),
        7,
        spec_u64_from_le_bytes(b.subrange(base + 56, base + 64)),
    )
}

/// Every cell of `spec_regs_of` holds its register.
pub proof fn lemma_regs_of(b: Seq<u8>, base: int)
    ensures
        forall|i: int|
            0 <= i < 8 ==> spec_regs_of(b, base)@[i] == spec_u64_from_le_bytes(
                b.subrange(base + 8 * i, base + 8 * i + 8),
            ),
{
    broadcast use vstd::array::group_array_axioms;

    assert forall|i: int| 0 <= i < 8 implies spec_regs_of(b, base)@[i] == spec_u64_from_le_bytes(
        b.subrange(base + 8 * i, base + 8 * i + 8),
    ) by {
        if i == 0 {
        } else if i == 1 {
        } else if i == 2 {
        } else if i == 3 {
        } else if i == 4 {
        } else if i == 5 {
        } else if i == 6 {
        } else {
            assert(i == 7);
        }
    }
}

/// The header encoded in the first `TE_SIZE` bytes of `hb`, as a value.
pub open spec fn spec_head_of(hb: Seq<u8>) -> TraceHead {
    TraceHead {
        magic: spec_u16_from_le_bytes(hb.subrange(0, 2)),
        headsize: spec_u16_from_le_bytes(hb.subrange(2, 4)),
        totalsize: spec_u32_from_le_bytes(hb.subrange(4, 8)),
        inout: spec_u64_from_le_bytes(hb.subrange(8, 16)),
        cause: spec_u64_from_le_bytes(hb.subrange(16, 24)),
        epc: spec_u64_from_le_bytes(hb.subrange(24, 32)),
        ax: spec_regs_of(hb, 32),
        usp: spec_u64_from_le_bytes(hb.subrange(96, 104)),
        stack: spec_regs_of(hb, 104),
        orig_a0: spec_u64_from_le_bytes(hb.subrange(168, 176)),
        satp: spec_u64_from_le_bytes(hb.subrange(176, 184)),
        tp: spec_u64_from_le_bytes(hb.subrange(184, 192)),
        sscratch: spec_u64_from_le_bytes(hb.subrange(192, 200)),
    }
}

/// The event framed at the front of a well-framed stream suffix `b`, as a
/// value.
pub open spec fn spec_event_of(b: Seq<u8>) -> EventModel {
    let head = spec_head_of(b.subrange(0, TE_SIZE as int));
    EventModel {
        head,
        result: 0,
        payloads: spec_parse_payloads(
            b.subrange(TE_SIZE as int, spec_record_advance(b)),
            head.inout,
        )->0,
        signal: SigStage::Empty,
    }
}

/// Any event matching a well-framed stream suffix is the one
/// `spec_event_of` names: framing is deterministic.
pub proof fn lemma_event_of_unique(e: EventModel, b: Seq<u8>)
    requires
        spec_frame_error(b) is None,
        event_matches(e, b),
    ensures
        e == spec_event_of(b),
{
    let hb = b.subrange(0, TE_SIZE as int);
    lemma_regs_of(hb, 32);
    lemma_regs_of(hb, 104);
    assert(head_matches(spec_head_of(hb), hb));
    lemma_head_matches_unique(e.head, spec_head_of(hb), hb);
    assert(e.payloads =~= spec_event_of(b).payloads);
    assert(e =~~= spec_event_of(b));
}

} // verus!
