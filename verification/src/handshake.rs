//! The three-phase RTMP handshake, client role.
//!
//! The client opens with C0 (the version byte 3) and C1 (1536 bytes: a
//! four-byte timestamp, four zero bytes, 1528 opaque bytes). On receiving
//! S0 and S1 it answers with C2, an echo of S1; the handshake completes when
//! S2 (the peer's echo of C1, not validated here) has arrived. Input is
//! accumulated in a rolling buffer, so the machine accepts any TCP
//! segmentation; bytes beyond S2 are handed back as the start of the first
//! chunk.

use vstd::prelude::*;

verus! {

/// Length of the C1/S1 and C2/S2 blobs.
pub const HANDSHAKE_BLOB_LEN: usize = 1536;

/// Length of the opaque tail of C1.
pub const HANDSHAKE_RANDOM_LEN: usize = 1528;

/// The RTMP protocol version this client speaks.
pub const RTMP_VERSION: u8 = 3;

/// The role of this endpoint in the handshake; the crate implements the
/// client role.
#[derive(Debug, Clone, Copy, PartialEq, Eq)]
pub enum PeerType {
    Client,
}

/// Progress of the handshake.
#[derive(Debug, Clone, Copy, PartialEq, Eq)]
pub enum HandshakeState {
    /// C0 and C1 have been produced; S0 and S1 are awaited.
    AwaitingS0S1,
    /// C2 has been produced; S2 is awaited.
    AwaitingS2,
    /// S2 has arrived.
    Completed,
}

/// What one feeding of bytes produced.
#[derive(Debug, PartialEq)]
pub enum HandshakeProcessResult {
    /// More input is needed; the response bytes (possibly empty) must be
    /// sent to the peer.
    InProgress { response_bytes: Vec<u8> },
    /// The handshake is complete; the response bytes must be sent, and the
    /// remaining bytes already belong to the first chunk.
    Completed { response_bytes: Vec<u8>, remaining_bytes: Vec<u8> },
}

/// Model of a processing result.
pub enum HandshakeProcessResultV {
    InProgress { response: Seq<u8> },
    Completed { response: Seq<u8>, remaining: Seq<u8> },
}

impl View for HandshakeProcessResult {
    type V = HandshakeProcessResultV;

    open spec fn view(&self) -> HandshakeProcessResultV {
        match self {
            HandshakeProcessResult::InProgress { response_bytes } => {
                HandshakeProcessResultV::InProgress { response: response_bytes@ }
            },
            HandshakeProcessResult::Completed { response_bytes, remaining_bytes } => {
                HandshakeProcessResultV::Completed {
                    response: response_bytes@,
                    remaining: remaining_bytes@,
                }
            },
        }
    }
}

/// An error in the handshake.
#[derive(Debug, Clone, Copy, PartialEq, Eq)]
pub enum HandshakeError {
    /// The peer answered with a version byte other than 3.
    UnsupportedVersion { version: u8 },
}

/// The handshake state machine.
#[derive(Debug)]
pub struct Handshake {
    state: HandshakeState,
    buffer: Vec<u8>,
}

/// Model of the handshake machine.
pub struct HandshakeV {
    pub state: HandshakeState,
    pub buffer: Seq<u8>,
}

impl View for Handshake {
    type V = HandshakeV;

    closed spec fn view(&self) -> HandshakeV {
        HandshakeV { state: self.state, buffer: self.buffer@ }
    }
}

/// The C0 and C1 blob the client opens with: the version byte, a zero
/// timestamp, four zero bytes, then the caller's 1528 opaque bytes.
pub open spec fn spec_c0_c1(random: Seq<u8>) -> Seq<u8> {
    seq![RTMP_VERSION, 0u8, 0u8, 0u8, 0u8, 0u8, 0u8, 0u8, 0u8] + random
}

/// One step of the handshake machine on newly arrived bytes: the new state
/// and either the result or the version-mismatch error.
pub open spec fn spec_handshake_step(st: HandshakeV, input: Seq<u8>) -> (
    HandshakeV,
    Result<HandshakeProcessResultV, HandshakeError>,
) {
    let buf = st.buffer + input;
    match st.state {
        HandshakeState::AwaitingS0S1 => {
            if buf.len() < 1 + 1536 {
                (
                    HandshakeV { state: HandshakeState::AwaitingS0S1, buffer: buf },
                    Result::Ok(HandshakeProcessResultV::InProgress { response: Seq::empty() }),
                )
            } else if buf[0] != RTMP_VERSION {
                (
                    HandshakeV { state: HandshakeState::AwaitingS0S1, buffer: buf },
                    Result::Err(HandshakeError::UnsupportedVersion { version: buf[0] }),
                )
            } else {
                let s1 = buf.subrange(1, 1537);
                let rest = buf.skip(1537);
                if rest.len() < HANDSHAKE_BLOB_LEN {
                    (
                        HandshakeV { state: HandshakeState::AwaitingS2, buffer: rest },
                        Result::Ok(HandshakeProcessResultV::InProgress { response: s1 }),
                    )
                } else {
                    (
                        HandshakeV { state: HandshakeState::Completed, buffer: Seq::empty() },
                        Result::Ok(
                            HandshakeProcessResultV::Completed {
                                response: s1,
                                remaining: rest.skip(1536),
                            },
                        ),
                    )
                }
            }
        },
        HandshakeState::AwaitingS2 => {
            if buf.len() < 1536 {
                (
                    HandshakeV { state: HandshakeState::AwaitingS2, buffer: buf },
                    Result::Ok(HandshakeProcessResultV::InProgress { response: Seq::empty() }),
                )
            } else {
                (
                    HandshakeV { state: HandshakeState::Completed, buffer: Seq::empty() },
                    Result::Ok(
                        HandshakeProcessResultV::Completed {
                            response: Seq::empty(),
                            remaining: buf.skip(1536),
                        },
                    ),
                )
            }
        },
        HandshakeState::Completed => {
            (
                HandshakeV { state: HandshakeState::Completed, buffer: buf },
                Result::Ok(
                    HandshakeProcessResultV::Completed {
                        response: Seq::empty(),
                        remaining: Seq::empty(),
                    },
                ),
            )
        },
    }
}

impl Handshake {
    /// A fresh client handshake, awaiting the server's S0 and S1.
    pub fn new(peer_type: PeerType) -> (r: Handshake)
        ensures
            r@.state == HandshakeState::AwaitingS0S1,
            r@.buffer == Seq::<u8>::empty(),
    {
        let _ = peer_type;
        Handshake { state: HandshakeState::AwaitingS0S1, buffer: Vec::new() }
    }

    /// The current state of the machine.
    pub fn state(&self) -> (r: HandshakeState)
        ensures
            r == self@.state,
    {
        self.state
    }

    /// The C0 and C1 bytes to open with: the version byte and the 1536-byte
    /// C1 built from the caller's 1528 opaque bytes (a source of randomness
    /// is the caller's concern).
    pub fn generate_outbound_p0_and_p1(&self, random: &Vec<u8>) -> (r: Vec<u8>)
        requires
            random.len() == HANDSHAKE_RANDOM_LEN,
        ensures
            r@ == spec_c0_c1(random@),
            r@.len() == 1537,
    {
        let mut out: Vec<u8> = Vec::new();
        out.push(RTMP_VERSION);
        let mut i: usize = 0;
        while i < 8
            invariant
                i <= 8,
                out@.len() == 1 + i,
                out@[0] == RTMP_VERSION,
                forall|j: int| 1 <= j < out@.len() ==> out@[j] == 0u8,
            decreases 8 - i,
        {
            out.push(0u8);
            i = i + 1;
        }
        crate::wire::extend_from_range(&mut out, random, 0, random.len());
        proof {
            assert(random@.subrange(0, random@.len() as int) =~= random@);
            assert(out@ =~= spec_c0_c1(random@));
        }
        out
    }

    /// Feeds newly arrived bytes to the machine. The state advances and the
    /// result is exactly what the step specification gives: in progress with
    /// bytes to send, completed with any surplus input, or the version
    /// error.
    pub fn process_bytes(&mut self, input: &Vec<u8>) -> (r: Result<
        HandshakeProcessResult,
        HandshakeError,
    >)
        requires
            old(self)@.state != HandshakeState::Completed,
        ensures
            ({
                let (st2, res) = spec_handshake_step(old(self)@, input@);
                &&& final(self)@ == st2
                &&& (match r {
                    Result::Ok(pr) => res matches Ok(prv) && prv == pr@,
                    Result::Err(e) => res matches Err(e2) && e2 == e,
                })
            }),
    {
        crate::wire::extend_from_range(&mut self.buffer, input, 0, input.len());
        proof {
            assert(input@.subrange(0, input@.len() as int) =~= input@);
        }
        match self.state {
            HandshakeState::AwaitingS0S1 => {
                if self.buffer.len() < 1 + HANDSHAKE_BLOB_LEN {
                    return Ok(
                        HandshakeProcessResult::InProgress { response_bytes: Vec::new() },
                    );
                }
                if self.buffer[0] != RTMP_VERSION {
                    return Err(
                        HandshakeError::UnsupportedVersion { version: self.buffer[0] },
                    );
                }
                let mut s1: Vec<u8> = Vec::new();
                crate::wire::extend_from_range(&mut s1, &self.buffer, 1, 1 + HANDSHAKE_BLOB_LEN);
                let mut rest: Vec<u8> = Vec::new();
                crate::wire::extend_from_range(&mut rest, &self.buffer, 1 + HANDSHAKE_BLOB_LEN, self.buffer.len());
                proof {
                    assert(rest@ =~= self.buffer@.skip(1537));
                }
                if rest.len() < HANDSHAKE_BLOB_LEN {
                    self.state = HandshakeState::AwaitingS2;
                    self.buffer = rest;
                    Ok(HandshakeProcessResult::InProgress { response_bytes: s1 })
                } else {
                    let mut remaining: Vec<u8> = Vec::new();
                    crate::wire::extend_from_range(&mut remaining, &rest, HANDSHAKE_BLOB_LEN, rest.len());
                    proof {
                        assert(remaining@ =~= rest@.skip(1536));
                    }
                    self.state = HandshakeState::Completed;
                    self.buffer = Vec::new();
                    Ok(
                        HandshakeProcessResult::Completed {
                            response_bytes: s1,
                            remaining_bytes: remaining,
                        },
                    )
                }
            },
            HandshakeState::AwaitingS2 => {
                if self.buffer.len() < HANDSHAKE_BLOB_LEN {
                    return Ok(
                        HandshakeProcessResult::InProgress { response_bytes: Vec::new() },
                    );
                }
                let mut remaining: Vec<u8> = Vec::new();
                crate::wire::extend_from_range(&mut remaining, &self.buffer, HANDSHAKE_BLOB_LEN, self.buffer.len());
                proof {
                    assert(remaining@ =~= self.buffer@.skip(1536));
                }
                self.state = HandshakeState::Completed;
                self.buffer = Vec::new();
                Ok(
                    HandshakeProcessResult::Completed {
                        response_bytes: Vec::new(),
                        remaining_bytes: remaining,
                    },
                )
            },
            HandshakeState::Completed => {
                proof {
                    assert(false);
                }
                Ok(
                    HandshakeProcessResult::Completed {
                        response_bytes: Vec::new(),
                        remaining_bytes: Vec::new(),
                    },
                )
            },
        }
    }
}

} // verus!
