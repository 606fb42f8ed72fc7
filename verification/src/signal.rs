//! Protocol control signals: the low-numbered RTMP message types that tune
//! the session rather than carry commands.

use vstd::prelude::*;

use crate::wire::spec_u16_of_be;
use crate::wire::spec_u24_of_be;
use crate::wire::spec_u32_of_be;
use crate::wire::spec_u32_of_le;

verus! {

/// The user-control event types the protocol defines.
#[derive(Debug, PartialEq, Eq, Clone, Copy)]
pub enum EventType {
    StreamBegin,
    StreamEOF,
    StreamDry,
    SetBufferLength,
    StreamIsRecorded,
    PingRequest,
    PingResponse,
}

/// The wire code of each user-control event type.
pub open spec fn spec_event_type_of_u16(n: u16) -> Option<EventType> {
    if n == 0 {
        Option::Some(EventType::StreamBegin)
    } else if n == 1 {
        Option::Some(EventType::StreamEOF)
    } else if n == 2 {
        Option::Some(EventType::StreamDry)
    } else if n == 3 {
        Option::Some(EventType::SetBufferLength)
    } else if n == 4 {
        Option::Some(EventType::StreamIsRecorded)
    } else if n == 6 {
        Option::Some(EventType::PingRequest)
    } else if n == 7 {
        Option::Some(EventType::PingResponse)
    } else {
        Option::None
    }
}

/// A user-control event. Stream-begin is decoded; any other event is kept
/// opaque with its type code and payload bytes.
#[derive(Debug, PartialEq)]
pub enum Event {
    StreamBegin(u32),
    UnknownEvent { event_type: u16, bytes: Vec<u8> },
}

/// Model of an event.
pub enum EventV {
    StreamBegin(u32),
    UnknownEvent { event_type: u16, bytes: Seq<u8> },
}

impl View for Event {
    type V = EventV;

    open spec fn view(&self) -> EventV {
        match self {
            Event::StreamBegin(id) => EventV::StreamBegin(*id),
            Event::UnknownEvent { event_type, bytes } => EventV::UnknownEvent {
                event_type: *event_type,
                bytes: bytes@,
            },
        }
    }
}

/// A control signal.
#[derive(Debug, PartialEq)]
pub enum Signal {
    SetChunkSize(u32),
    Abort(u32),
    AckChunk(u32),
    UserControlMessage(Event),
    SetWindowAckSize(u32),
    SetPeerBandwidth(u32, u8),
}

/// Model of a signal.
pub enum SignalV {
    SetChunkSize(u32),
    Abort(u32),
    AckChunk(u32),
    UserControlMessage(EventV),
    SetWindowAckSize(u32),
    SetPeerBandwidth(u32, u8),
}

impl View for Signal {
    type V = SignalV;

    open spec fn view(&self) -> SignalV {
        match self {
            Signal::SetChunkSize(n) => SignalV::SetChunkSize(*n),
            Signal::Abort(n) => SignalV::Abort(*n),
            Signal::AckChunk(n) => SignalV::AckChunk(*n),
            Signal::UserControlMessage(e) => SignalV::UserControlMessage(e@),
            Signal::SetWindowAckSize(n) => SignalV::SetWindowAckSize(*n),
            Signal::SetPeerBandwidth(n, l) => SignalV::SetPeerBandwidth(*n, *l),
        }
    }
}

/// The message type ids of the control signals.
#[derive(Debug, PartialEq, Eq, Clone, Copy)]
pub enum SignalType {
    SetChunkSize,
    Abort,
    AckChunk,
    UserControlMessage,
    SetWindowAckSize,
    SetPeerBandwidth,
}

impl SignalType {
    /// The wire message type id of this signal type.
    pub fn as_u8(&self) -> (r: u8)
        ensures
            r == spec_signal_type_u8(*self),
    {
        match self {
            SignalType::SetChunkSize => 1,
            SignalType::Abort => 2,
            SignalType::AckChunk => 3,
            SignalType::UserControlMessage => 4,
            SignalType::SetWindowAckSize => 5,
            SignalType::SetPeerBandwidth => 6,
        }
    }
}

/// The wire message type id of each signal type.
pub open spec fn spec_signal_type_u8(t: SignalType) -> u8 {
    match t {
        SignalType::SetChunkSize => 1,
        SignalType::Abort => 2,
        SignalType::AckChunk => 3,
        SignalType::UserControlMessage => 4,
        SignalType::SetWindowAckSize => 5,
        SignalType::SetPeerBandwidth => 6,
    }
}

/// An error while decoding a control signal.
#[derive(Debug, Clone, Copy, PartialEq, Eq)]
pub enum SignalError {
    /// The payload is shorter than the signal requires.
    Truncated,
    /// A message type id outside the control-signal range.
    UnknownSignalType { message_type: u8 },
}

/// Decoding of a control signal from its payload and message type id.
/// Set-chunk-size keeps only the low 31 bits; a user-control event other
/// than stream-begin is kept opaque with its remaining payload.
pub open spec fn spec_decode_signal(b: Seq<u8>, t: u8) -> Result<SignalV, SignalError> {
    if t == 1 {
        if b.len() < 4 {
            Result::Err(SignalError::Truncated)
        } else {
            Result::Ok(
                SignalV::SetChunkSize(spec_u32_of_be(b[0], b[1], b[2], b[3]) & 0x7FFF_FFFF),
            )
        }
    } else if t == 2 {
        if b.len() < 4 {
            Result::Err(SignalError::Truncated)
        } else {
            Result::Ok(SignalV::Abort(spec_u32_of_be(b[0], b[1], b[2], b[3])))
        }
    } else if t == 3 {
        if b.len() < 4 {
            Result::Err(SignalError::Truncated)
        } else {
            Result::Ok(SignalV::AckChunk(spec_u32_of_be(b[0], b[1], b[2], b[3])))
        }
    } else if t == 4 {
        if b.len() < 2 {
            Result::Err(SignalError::Truncated)
        } else {
            let et = spec_u16_of_be(b[0], b[1]);
            if et == 0 {
                if b.len() < 6 {
                    Result::Err(SignalError::Truncated)
                } else {
                    Result::Ok(
                        SignalV::UserControlMessage(
                            EventV::StreamBegin(spec_u32_of_le(b[2], b[3], b[4], b[5])),
                        ),
                    )
                }
            } else {
                Result::Ok(
                    SignalV::UserControlMessage(
                        EventV::UnknownEvent { event_type: et, bytes: b.skip(2) },
                    ),
                )
            }
        }
    } else if t == 5 {
        if b.len() < 4 {
            Result::Err(SignalError::Truncated)
        } else {
            Result::Ok(SignalV::SetWindowAckSize(spec_u32_of_be(b[0], b[1], b[2], b[3])))
        }
    } else if t == 6 {
        if b.len() < 5 {
            Result::Err(SignalError::Truncated)
        } else {
            Result::Ok(SignalV::SetPeerBandwidth(spec_u32_of_be(b[0], b[1], b[2], b[3]), b[4]))
        }
    } else {
        Result::Err(SignalError::UnknownSignalType { message_type: t })
    }
}

impl Signal {
    /// Reads a control signal from its payload bytes given the message type
    /// id; exactly what the decode specification gives, errors included.
    #[verifier::loop_isolation(false)]
    pub fn read(bytes: &Vec<u8>, chunk_type: u8) -> (r: Result<Signal, SignalError>)
        ensures
            ({
                let sr = spec_decode_signal(bytes@, chunk_type);
                match r {
                    Result::Ok(s) => sr matches Ok(sv) && sv == s@,
                    Result::Err(e) => sr matches Err(e2) && e2 == e,
                }
            }),
    {
        let t = chunk_type;
        if t == 1 {
            if bytes.len() < 4 {
                return Err(SignalError::Truncated);
            }
            Ok(Signal::SetChunkSize(crate::wire::read_u32_be(bytes, 0) & 0x7FFF_FFFF))
        } else if t == 2 {
            if bytes.len() < 4 {
                return Err(SignalError::Truncated);
            }
            Ok(Signal::Abort(crate::wire::read_u32_be(bytes, 0)))
        } else if t == 3 {
            if bytes.len() < 4 {
                return Err(SignalError::Truncated);
            }
            Ok(Signal::AckChunk(crate::wire::read_u32_be(bytes, 0)))
        } else if t == 4 {
            Signal::read_user_control_message(bytes)
        } else if t == 5 {
            if bytes.len() < 4 {
                return Err(SignalError::Truncated);
            }
            Ok(Signal::SetWindowAckSize(crate::wire::read_u32_be(bytes, 0)))
        } else if t == 6 {
            if bytes.len() < 5 {
                return Err(SignalError::Truncated);
            }
            Ok(Signal::SetPeerBandwidth(crate::wire::read_u32_be(bytes, 0), bytes[4]))
        } else {
            Err(SignalError::UnknownSignalType { message_type: t })
        }
    }

    /// Reads a user-control event: a two-byte event type, then the
    /// event-specific payload.
    #[verifier::loop_isolation(false)]
    fn read_user_control_message(bytes: &Vec<u8>) -> (r: Result<Signal, SignalError>)
        ensures
            ({
                let sr = spec_decode_signal(bytes@, 4);
                match r {
                    Result::Ok(s) => sr matches Ok(sv) && sv == s@,
                    Result::Err(e) => sr matches Err(e2) && e2 == e,
                }
            }),
    {
        if bytes.len() < 2 {
            return Err(SignalError::Truncated);
        }
        let et = crate::wire::read_u16_be(bytes, 0);
        if et == 0 {
            if bytes.len() < 6 {
                return Err(SignalError::Truncated);
            }
            let stream_id = Signal::read_le_stream_id(bytes, 2);
            Ok(Signal::UserControlMessage(Event::StreamBegin(stream_id)))
        } else {
            let mut rest: Vec<u8> = Vec::new();
            let n = bytes.len();
            let mut i: usize = 2;
            while i < n
                invariant
                    2 <= i <= n,
                    n == bytes.len(),
                    rest@ == bytes@.subrange(2, i as int),
                decreases n - i,
            {
                rest.push(bytes[i]);
                proof {
                    assert(bytes@.subrange(2, i as int).push(bytes@[i as int]) =~= bytes@.subrange(
                        2,
                        i as int + 1,
                    ));
                }
                i = i + 1;
            }
            proof {
                assert(rest@ =~= bytes@.skip(2));
            }
            Ok(Signal::UserControlMessage(Event::UnknownEvent { event_type: et, bytes: rest }))
        }
    }

    /// Reads the little-endian stream id that a stream-begin event carries.
    fn read_le_stream_id(bytes: &Vec<u8>, pos: usize) -> (r: u32)
        requires
            pos + 4 <= bytes.len(),
        ensures
            r == spec_u32_of_le(
                bytes@[pos as int],
                bytes@[pos as int + 1],
                bytes@[pos as int + 2],
                bytes@[pos as int + 3],
            ),
    {
        crate::wire::read_u32_le(bytes, pos)
    }
}

} // verus!
