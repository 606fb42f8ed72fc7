//! Chunk stream framing: the twelve-byte full chunk header, assembly of a
//! message payload split across continuation chunks, and the dispatch of the
//! payload to the control-signal or command-message decoder.
//!
//! Only format 0 (full) headers start a message; a payload longer than the
//! negotiated chunk size continues after one-byte format 3 continuation
//! headers carrying the same chunk stream id.

use vstd::prelude::*;

use crate::message::spec_decode_message;
use crate::message::Message;
use crate::message::MessageDecodeError;
use crate::message::MessageV;
use crate::message::COMMAND_MESSAGE_TYPE;
use crate::signal::spec_decode_signal;
use crate::signal::Signal;
use crate::signal::SignalError;
use crate::signal::SignalV;
use crate::wire::spec_u24_of_be;
use crate::wire::spec_u32_of_le;

verus! {

/// One parsed chunk: a control signal or a typed message.
#[derive(Debug, PartialEq)]
pub enum Chunk {
    Control(Signal),
    Msg(Message),
}

/// Model of a chunk.
pub enum ChunkV {
    Control(SignalV),
    Msg(MessageV),
}

impl View for Chunk {
    type V = ChunkV;

    open spec fn view(&self) -> ChunkV {
        match self {
            Chunk::Control(s) => ChunkV::Control(s@),
            Chunk::Msg(m) => ChunkV::Msg(m@),
        }
    }
}

/// An error while reading a chunk.
#[derive(Debug, Clone, Copy, PartialEq, Eq)]
pub enum FramingError {
    /// A chunk format other than 0 where a full header is required, or a
    /// malformed continuation header.
    UnsupportedFormat { format: u8 },
    /// A message type this implementation does not carry.
    Unimplemented { message_type: u8 },
    /// The input ended before the payload the length field promises.
    Truncated,
    /// The payload failed to decode as a control signal.
    Signal(SignalError),
    /// The payload failed to decode as a command message.
    Message(MessageDecodeError),
}

/// An error while writing a chunk.
#[derive(Debug, Clone, Copy, PartialEq, Eq)]
pub enum ChunkWriteError {
    /// The message body failed to encode.
    Encode(crate::amf::EncodeError),
    /// The message body exceeds the 24-bit length field.
    PayloadTooLong,
}

/// Collects `total` payload bytes from the input: full segments of
/// `cs` bytes each followed by the expected one-byte continuation header,
/// then the remainder. Returns the payload and the bytes consumed.
pub open spec fn spec_take_payload(b: Seq<u8>, total: int, cs: int, cont: u8) -> Result<
    (Seq<u8>, int),
    FramingError,
>
    decreases total,
{
    if total <= cs {
        if b.len() < total {
            Result::Err(FramingError::Truncated)
        } else {
            Result::Ok((b.take(total), total))
        }
    } else if cs < 1 {
        Result::Err(FramingError::Truncated)
    } else if b.len() < cs + 1 {
        Result::Err(FramingError::Truncated)
    } else if b[cs] != cont {
        Result::Err(FramingError::UnsupportedFormat { format: (b[cs] >> 6) as u8 })
    } else {
        match spec_take_payload(b.skip(cs + 1), total - cs, cs, cont) {
            Result::Err(e) => Result::Err(e),
            Result::Ok((p, n)) => Result::Ok((b.take(cs) + p, cs + 1 + n)),
        }
    }
}

/// A payload laid out for the wire: full segments of `cs` bytes with a
/// continuation header byte between them.
pub open spec fn spec_split_payload(p: Seq<u8>, cs: int, cont: u8) -> Seq<u8>
    decreases p.len(),
{
    if p.len() <= cs || cs < 1 {
        p
    } else {
        p.take(cs) + seq![cont] + spec_split_payload(p.skip(cs), cs, cont)
    }
}

/// Reassembling a split payload yields the payload and consumes exactly the
/// split form.
pub proof fn lemma_take_split_payload(p: Seq<u8>, cs: int, cont: u8, rest: Seq<u8>)
    requires
        cs >= 1,
    ensures
        spec_take_payload(spec_split_payload(p, cs, cont) + rest, p.len() as int, cs, cont)
            == Result::<(Seq<u8>, int), FramingError>::Ok(
            (p, spec_split_payload(p, cs, cont).len() as int),
        ),
    decreases p.len(),
{
    let s = spec_split_payload(p, cs, cont);
    let b = s + rest;
    if p.len() <= cs {
        assert(b.take(p.len() as int) =~= p);
    } else {
        assert(b.len() >= cs + 1);
        assert(b[cs] == cont);
        let inner = spec_split_payload(p.skip(cs), cs, cont);
        assert(b.skip(cs + 1) =~= inner + rest);
        lemma_take_split_payload(p.skip(cs), cs, cont, rest);
        assert(b.take(cs) =~= p.take(cs));
        assert(p.take(cs) + p.skip(cs) =~= p);
        assert(s.len() == cs + 1 + inner.len());
    }
}

/// The chunk stream id used for a message: 3 on the connection channel,
/// 4 for per-stream commands.
pub open spec fn spec_csid_of(stream_id: u32) -> u8 {
    if stream_id == 0 {
        3
    } else {
        4
    }
}

/// Decoding of one chunk: a format 0 header (chunk stream id, timestamp,
/// payload length, message type, little-endian message stream id), the
/// payload reassembled across continuation headers, and the payload decoded
/// by message type: 1 through 6 as control signals, 20 as a command
/// message, anything else unimplemented. On success also gives the total
/// bytes consumed.
pub open spec fn spec_decode_chunk(b: Seq<u8>, cs: int) -> Result<(ChunkV, int), FramingError> {
    if b.len() < 1 {
        Result::Err(FramingError::Truncated)
    } else {
        let fmt = b[0] >> 6;
        if fmt != 0 {
            Result::Err(FramingError::UnsupportedFormat { format: fmt })
        } else if b.len() < 12 {
            Result::Err(FramingError::Truncated)
        } else {
            let csid = b[0] & 0x3f;
            let length = spec_u24_of_be(b[4], b[5], b[6]) as int;
            let t = b[7];
            let msid = spec_u32_of_le(b[8], b[9], b[10], b[11]);
            match spec_take_payload(b.skip(12), length, cs, (0xC0u8 | csid) as u8) {
                Result::Err(e) => Result::Err(e),
                Result::Ok((payload, n)) => {
                    if 1 <= t <= 6 {
                        match spec_decode_signal(payload, t) {
                            Result::Ok(s) => Result::Ok((ChunkV::Control(s), 12 + n)),
                            Result::Err(e) => Result::Err(FramingError::Signal(e)),
                        }
                    } else if t == COMMAND_MESSAGE_TYPE {
                        match spec_decode_message(payload) {
                            Result::Ok(md) => Result::Ok(
                                (ChunkV::Msg(MessageV { stream_id: msid, data: md }), 12 + n),
                            ),
                            Result::Err(e) => Result::Err(FramingError::Message(e)),
                        }
                    } else {
                        Result::Err(FramingError::Unimplemented { message_type: t })
                    }
                },
            }
        }
    }
}

/// Encoding of a message as one chunk: the format 0 header with a zero
/// timestamp, then the message payload split at the chunk size.
pub open spec fn spec_encode_chunk(m: MessageV, cs: int) -> Seq<u8> {
    let payload = crate::message::spec_encode_message(m.data);
    let csid = spec_csid_of(m.stream_id);
    seq![csid as u8, 0u8, 0u8, 0u8] + crate::wire::spec_u24_be(payload.len() as u32)
        + seq![COMMAND_MESSAGE_TYPE] + crate::wire::spec_u32_le(m.stream_id) + spec_split_payload(
        payload,
        cs,
        (0xC0u8 | csid) as u8,
    )
}

/// Law: a chunk whose payload length field promises more bytes than the
/// input still holds is refused as truncated.
pub proof fn lemma_chunk_length_mismatch(b: Seq<u8>, cs: int)
    requires
        b.len() >= 12,
        b[0] >> 6 == 0,
        spec_u24_of_be(b[4], b[5], b[6]) <= cs,
        b.len() - 12 < spec_u24_of_be(b[4], b[5], b[6]),
    ensures
        spec_decode_chunk(b, cs) == Result::<(ChunkV, int), FramingError>::Err(
            FramingError::Truncated,
        ),
{
    assert(b.skip(12).len() == b.len() - 12);
}

/// Collects a `length`-byte payload starting at `pos`, crossing the
/// expected continuation header after each full `cs`-byte segment; returns
/// the payload and the position after it.
#[verifier::loop_isolation(false)]
#[verifier::rlimit(60)]
fn read_payload(bytes: &Vec<u8>, pos: usize, length: usize, cs: usize, cont: u8) -> (r: Result<
    (Vec<u8>, usize),
    FramingError,
>)
    requires
        pos <= bytes.len(),
        cs >= 1,
    ensures
        ({
            let sr = spec_take_payload(bytes@.skip(pos as int), length as int, cs as int, cont);
            match r {
                Result::Ok((p, newpos)) => sr matches Ok(pr) && pr.0 == p@ && newpos as int == pos
                    + pr.1 && pos <= newpos <= bytes.len(),
                Result::Err(e) => sr matches Err(e2) && e2 == e,
            }
        }),
{
    let ghost b0 = bytes@.skip(pos as int);
    let mut payload: Vec<u8> = Vec::new();
    let mut remaining: usize = length;
    let mut cur: usize = pos;
    while remaining > cs
        invariant
            pos <= cur <= bytes.len(),
            remaining <= length,
            cs >= 1,
            b0 == bytes@.skip(pos as int),
            ({
                let whole = spec_take_payload(b0, length as int, cs as int, cont);
                let rest = spec_take_payload(
                    bytes@.skip(cur as int),
                    remaining as int,
                    cs as int,
                    cont,
                );
                match rest {
                    Result::Ok((p, n)) => whole == Result::<(Seq<u8>, int), FramingError>::Ok(
                        (payload@ + p, (cur - pos) + n),
                    ),
                    Result::Err(e) => whole == Result::<(Seq<u8>, int), FramingError>::Err(e),
                }
            }),
        decreases remaining,
    {
        let avail = bytes.len() - cur;
        if avail < cs + 1 {
            return Err(FramingError::Truncated);
        }
        let seg_end = cur + cs;
        proof {
            assert(bytes@.skip(cur as int)[cs as int] == bytes@[cur + cs]);
        }
        let cont_byte = bytes[seg_end];
        if cont_byte != cont {
            return Err(FramingError::UnsupportedFormat { format: cont_byte >> 6 });
        }
        let ghost old_payload = payload@;
        crate::wire::extend_from_range(&mut payload, bytes, cur, seg_end);
        proof {
            assert(bytes@.skip(cur as int).take(cs as int) =~= bytes@.subrange(
                cur as int,
                cur as int + cs as int,
            ));
            assert(bytes@.skip(cur as int).skip(cs as int + 1) =~= bytes@.skip(
                cur as int + cs as int + 1,
            ));
            match spec_take_payload(
                bytes@.skip(cur as int + cs as int + 1),
                remaining - cs,
                cs as int,
                cont,
            ) {
                Result::Ok((p2, n2)) => {
                    assert(old_payload + (bytes@.skip(cur as int).take(cs as int) + p2) =~= (
                    old_payload + bytes@.skip(cur as int).take(cs as int)) + p2);
                },
                Result::Err(_) => {},
            }
        }
        cur = seg_end + 1;
        remaining = remaining - cs;
    }
    let avail = bytes.len() - cur;
    if avail < remaining {
        return Err(FramingError::Truncated);
    }
    let end = cur + remaining;
    crate::wire::extend_from_range(&mut payload, bytes, cur, end);
    proof {
        assert(bytes@.skip(cur as int).take(remaining as int) =~= bytes@.subrange(
            cur as int,
            cur as int + remaining as int,
        ));
    }
    Ok((payload, end))
}

/// Appends the payload split at the chunk size, a continuation header
/// byte after each full segment.
#[verifier::loop_isolation(false)]
#[verifier::rlimit(60)]
fn write_payload_split(out: &mut Vec<u8>, payload: &Vec<u8>, cs: usize, cont: u8)
    requires
        cs >= 1,
    ensures
        final(out)@ == old(out)@ + spec_split_payload(payload@, cs as int, cont),
{
    let ghost header_done = out@;
    let ghost pv = payload@;
    let mut done: usize = 0;
    proof {
        assert(pv.skip(0) =~= pv);
        assert(out@.skip(header_done.len() as int) =~= Seq::<u8>::empty());
    }
    while payload.len() - done > cs
        invariant
            done <= payload.len(),
            cs >= 1,
            payload@ == pv,
            spec_split_payload(pv, cs as int, cont) == out@.skip(header_done.len() as int)
                + spec_split_payload(pv.skip(done as int), cs as int, cont),
            header_done.len() <= out@.len(),
            out@.take(header_done.len() as int) == header_done,
        decreases payload.len() - done,
    {
        let seg_end = done + cs;
        let ghost out_before = out@;
        crate::wire::extend_from_range(out, payload, done, seg_end);
        out.push(cont);
        proof {
            assert(pv.skip(done as int).take(cs as int) =~= pv.subrange(
                done as int,
                seg_end as int,
            ));
            assert(pv.skip(done as int).skip(cs as int) =~= pv.skip(seg_end as int));
            assert(out@.skip(header_done.len() as int) =~= out_before.skip(
                header_done.len() as int,
            ) + pv.subrange(done as int, seg_end as int) + seq![cont]);
            assert(out@.take(header_done.len() as int) =~= header_done);
            assert(spec_split_payload(pv, cs as int, cont) =~= out@.skip(
                header_done.len() as int,
            ) + spec_split_payload(pv.skip(seg_end as int), cs as int, cont));
        }
        done = seg_end;
    }
    let end = payload.len();
    let ghost out_before = out@;
    crate::wire::extend_from_range(out, payload, done, end);
    proof {
        assert(pv.skip(done as int) =~= pv.subrange(done as int, end as int));
        assert(spec_split_payload(pv.skip(done as int), cs as int, cont) == pv.skip(
            done as int,
        ));
        assert(out@.skip(header_done.len() as int) =~= out_before.skip(
            header_done.len() as int,
        ) + pv.subrange(done as int, end as int));
        assert(out@.skip(header_done.len() as int) =~= spec_split_payload(pv, cs as int, cont));
        assert(final(out)@ =~= old(out)@ + spec_split_payload(pv, cs as int, cont));
    }
}

impl Chunk {
    /// Reads one chunk starting at `pos`, reassembling a payload split at
    /// the given chunk size, and returns it with the total number of bytes
    /// consumed. The result is exactly what the decode specification gives,
    /// errors included: a non-zero format, a truncated header or payload, an
    /// unimplemented message type, or a payload that fails its decoder.
    #[verifier::loop_isolation(false)]
    #[verifier::rlimit(60)]
    pub fn read(bytes: &Vec<u8>, pos: usize, chunk_size: u32) -> (r: Result<
        (Chunk, usize),
        FramingError,
    >)
        requires
            pos <= bytes.len(),
            chunk_size >= 1,
        ensures
            ({
                let sr = spec_decode_chunk(bytes@.skip(pos as int), chunk_size as int);
                match r {
                    Result::Ok((c, n)) => sr matches Ok(p) && p.0 == c@ && n == p.1 && pos + n
                        <= bytes.len(),
                    Result::Err(e) => sr matches Err(e2) && e2 == e,
                }
            }),
    {
        let ghost b = bytes@.skip(pos as int);
        if bytes.len() - pos < 1 {
            return Err(FramingError::Truncated);
        }
        let first = bytes[pos];
        proof {
            assert(b[0] == bytes@[pos as int]);
        }
        let fmt = first >> 6;
        if fmt != 0 {
            return Err(FramingError::UnsupportedFormat { format: fmt });
        }
        if bytes.len() - pos < 12 {
            return Err(FramingError::Truncated);
        }
        proof {
            assert forall|k: int| 0 <= k < 12 implies b[k] == bytes@[pos + k] by {}
        }
        let csid = first & 0x3f;
        let length = crate::wire::read_u24_be(bytes, pos + 4) as usize;
        let t = bytes[pos + 7];
        let msid = crate::wire::read_u32_le(bytes, pos + 8);
        let cont: u8 = 0xC0u8 | csid;
        let cs = chunk_size as usize;

        // Reassemble the payload across continuation headers.
        proof {
            assert(b.skip(12) =~= bytes@.skip(pos as int + 12));
        }
        let (payload, payload_end) = match read_payload(bytes, pos + 12, length, cs, cont) {
            Ok(p) => p,
            Err(e) => {
                return Err(e);
            },
        };
        let cur = payload_end;

        // Dispatch the payload on the message type.
        proof {
            let whole = spec_take_payload(
                bytes@.skip(pos as int + 12),
                length as int,
                cs as int,
                cont,
            );
            assert(whole matches Ok(p) && p.0 == payload@ && p.1 == cur - pos - 12);
        }
        if 1 <= t && t <= 6 {
            match Signal::read(&payload, t) {
                Ok(s) => Ok((Chunk::Control(s), cur - pos)),
                Err(e) => Err(FramingError::Signal(e)),
            }
        } else if t == COMMAND_MESSAGE_TYPE {
            match Message::read(&payload, t) {
                Ok(md) => Ok(
                    (Chunk::Msg(Message { stream_id: msid, data: md }), cur - pos),
                ),
                Err(e) => Err(FramingError::Message(e)),
            }
        } else {
            Err(FramingError::Unimplemented { message_type: t })
        }
    }

    /// Appends a message as one chunk: a format 0 header with the chunk
    /// stream id chosen by message kind, then the payload split at the
    /// chunk size. Fails when the message cannot be encoded or its payload
    /// exceeds the 24-bit length field; the output is then unchanged.
    #[verifier::loop_isolation(false)]
    pub fn write(out: &mut Vec<u8>, chunk: &Chunk, chunk_size: u32) -> (r: Result<
        (),
        ChunkWriteError,
    >)
        requires
            *chunk is Msg,
            chunk_size >= 1,
        ensures
            ({
                let m = (chunk@)->Msg_0;
                &&& r is Ok <==> (crate::message::message_encodable(m.data)
                    && crate::message::spec_encode_message(m.data).len() < 0x1000000)
                &&& r is Ok ==> final(out)@ == old(out)@ + spec_encode_chunk(m, chunk_size as int)
                &&& r is Err ==> final(out)@ == old(out)@
            }),
    {
        let msg = match chunk {
            Chunk::Msg(m) => m,
            Chunk::Control(_) => {
                proof {
                    assert(false);
                }
                return Err(ChunkWriteError::PayloadTooLong);
            },
        };
        let mut payload: Vec<u8> = Vec::new();
        let rw = Message::write(&mut payload, msg);
        if let Err(e) = rw {
            return Err(ChunkWriteError::Encode(e));
        }
        if payload.len() >= 0x1000000 {
            return Err(ChunkWriteError::PayloadTooLong);
        }
        let csid: u8 = if msg.stream_id == 0 {
            3
        } else {
            4
        };
        let cont: u8 = 0xC0u8 | csid;
        out.push(csid);
        out.push(0u8);
        out.push(0u8);
        out.push(0u8);
        crate::wire::push_u24_be(out, payload.len() as u32);
        out.push(COMMAND_MESSAGE_TYPE);
        crate::wire::push_u32_le(out, msg.stream_id);
        let ghost header_done = out@;
        let cs = chunk_size as usize;
        write_payload_split(out, &payload, cs, cont);
        proof {
            assert(payload@ =~= crate::message::spec_encode_message(msg@.data));
            assert(header_done =~= old(out)@ + seq![csid, 0u8, 0u8, 0u8] + crate::wire::spec_u24_be(
                payload.len() as u32,
            ) + seq![COMMAND_MESSAGE_TYPE] + crate::wire::spec_u32_le(msg.stream_id));
            assert(csid == spec_csid_of(msg.stream_id));
            assert(msg@ == (chunk@)->Msg_0);
            assert(final(out)@ =~= old(out)@ + spec_encode_chunk((chunk@)->Msg_0, chunk_size as int));
        }
        Ok(())
    }
}

/// Round-trip law at the wire level: a message written as a chunk at some
/// chunk size reads back as the same message, whatever follows it in the
/// input.
pub proof fn lemma_chunk_round_trip(m: MessageV, cs: int, rest: Seq<u8>)
    requires
        cs >= 1,
        crate::message::message_canonical(m.data),
        crate::message::message_encodable(m.data),
        crate::message::message_round_trippable(m.data),
        crate::message::spec_encode_message(m.data).len() < 0x1000000,
    ensures
        spec_decode_chunk(spec_encode_chunk(m, cs) + rest, cs) == Result::<
            (ChunkV, int),
            FramingError,
        >::Ok((ChunkV::Msg(m), spec_encode_chunk(m, cs).len() as int)),
{
    let payload = crate::message::spec_encode_message(m.data);
    let csid = spec_csid_of(m.stream_id);
    let cont = (0xC0u8 | csid) as u8;
    let e = spec_encode_chunk(m, cs);
    let b = e + rest;
    let header = seq![csid as u8, 0u8, 0u8, 0u8] + crate::wire::spec_u24_be(payload.len() as u32)
        + seq![COMMAND_MESSAGE_TYPE] + crate::wire::spec_u32_le(m.stream_id);
    let split = spec_split_payload(payload, cs, cont);
    assert(header.len() == 12);
    assert(b =~= header + (split + rest));
    assert(b[0] == csid as u8);
    assert(csid >> 6 == 0) by (bit_vector)
        requires
            csid == 3 || csid == 4,
    ;
    assert(csid & 0x3f == csid) by (bit_vector)
        requires
            csid == 3 || csid == 4,
    ;
    crate::wire::lemma_u24_be_round_trip(payload.len() as u32);
    assert(b[4] == crate::wire::spec_u24_be(payload.len() as u32)[0]);
    assert(b[5] == crate::wire::spec_u24_be(payload.len() as u32)[1]);
    assert(b[6] == crate::wire::spec_u24_be(payload.len() as u32)[2]);
    assert(b[7] == COMMAND_MESSAGE_TYPE);
    crate::wire::lemma_u32_le_round_trip(m.stream_id);
    assert(b[8] == crate::wire::spec_u32_le(m.stream_id)[0]);
    assert(b[9] == crate::wire::spec_u32_le(m.stream_id)[1]);
    assert(b[10] == crate::wire::spec_u32_le(m.stream_id)[2]);
    assert(b[11] == crate::wire::spec_u32_le(m.stream_id)[3]);
    assert(b.skip(12) =~= split + rest);
    lemma_take_split_payload(payload, cs, cont, rest);
    crate::message::lemma_message_round_trip(m.data);
    assert(!(1 <= COMMAND_MESSAGE_TYPE <= 6));
    assert(e.len() == 12 + split.len());
}

} // verus!
