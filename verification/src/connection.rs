//! Connection-level session state: transaction id allocation, the registry
//! of commands awaiting a response, the status routes of open streams, the
//! connected flag, and the routing decisions for inbound messages.
//!
//! The asynchronous plumbing around this state (the transport, the reader
//! and writer pumps, channels and waiters) lives outside the library; every
//! decision those pumps take is a function here, so that the bookkeeping —
//! which ids are outstanding, who receives which message, when the
//! connection counts as connected — is verified.

use vstd::prelude::*;

use crate::amf::Value;
use crate::amf::ValueV;
use crate::message::values_view;
use crate::message::Message;
use crate::message::MessageCommand;
use crate::message::MessageData;
use crate::message::MessageError;
use crate::message::MessageResponse;
use crate::message::MessageStatus;
use crate::message::MessageV;
use crate::number::spec_f64_bits_of_u32;
use crate::number::spec_u32_of_f64_bits;
use crate::signal::Signal;
use crate::signal::SignalV;
use crate::stream::NetStream;

verus! {

/// The transaction id reserved for the connect command.
pub const CONNECT_TRANSACTION_ID: u32 = 1;

/// The default window acknowledgement size before the peer sets one.
pub const DEFAULT_WINDOW_ACK_SIZE: u32 = 2500000;

/// The chunk size assumed before the peer sets one.
pub const DEFAULT_CHUNK_SIZE: u32 = 1024;

/// No sequence of ids holds any id twice.
pub open spec fn no_dup(s: Seq<u32>) -> bool {
    forall|i: int, j: int| 0 <= i < j < s.len() ==> s[i] != s[j]
}

/// The sequence with the first occurrence of `x` removed; unchanged when
/// `x` is absent.
pub open spec fn seq_remove_first(s: Seq<u32>, x: u32) -> Seq<u32>
    decreases s,
{
    if s.len() == 0 {
        s
    } else if s[0] == x {
        s.drop_first()
    } else {
        seq![s[0]] + seq_remove_first(s.drop_first(), x)
    }
}

/// Removing a value from a duplicate-free sequence removes it entirely:
/// the id cannot be delivered to twice.
pub proof fn lemma_delivery_unique(s: Seq<u32>, x: u32)
    requires
        no_dup(s),
    ensures
        !seq_remove_first(s, x).contains(x),
        no_dup(seq_remove_first(s, x)),
        s.contains(x) ==> seq_remove_first(s, x).len() == s.len() - 1,
        !s.contains(x) ==> seq_remove_first(s, x) == s,
    decreases s,
{
    if s.len() > 0 {
        assert forall|i: int, j: int|
            0 <= i < j < s.drop_first().len() implies s.drop_first()[i] != s.drop_first()[j] by {
            assert(s.drop_first()[i] == s[i + 1]);
            assert(s.drop_first()[j] == s[j + 1]);
        }
        lemma_delivery_unique(s.drop_first(), x);
        let r = seq_remove_first(s, x);
        if s[0] == x {
            if r.contains(x) {
                let i = choose|i: int| 0 <= i < r.len() && r[i] == x;
                assert(s[i + 1] == x);
            }
        } else {
            let inner = seq_remove_first(s.drop_first(), x);
            if r.contains(x) {
                let i = choose|i: int| 0 <= i < r.len() && r[i] == x;
                if i == 0 {
                    assert(s[0] == x);
                } else {
                    assert(inner[i - 1] == x);
                    assert(inner.contains(x));
                }
            }
            assert forall|i: int, j: int| 0 <= i < j < r.len() implies r[i] != r[j] by {
                if i == 0 {
                    assert(r[j] == inner[j - 1]);
                    lemma_remove_first_subset(s.drop_first(), x, j - 1);
                } else {
                    assert(r[i] == inner[i - 1]);
                    assert(r[j] == inner[j - 1]);
                }
            }
            if s.contains(x) {
                let i = choose|i: int| 0 <= i < s.len() && s[i] == x;
                assert(s.drop_first()[i - 1] == x);
                assert(s.drop_first().contains(x));
            }
            if !s.contains(x) {
                assert forall|i: int| 0 <= i < s.drop_first().len() implies s.drop_first()[i]
                    != x by {
                    assert(s.drop_first()[i] == s[i + 1]);
                }
                assert(!s.drop_first().contains(x));
                assert(inner == s.drop_first());
                assert(r =~= s);
            }
        }
    }
}

/// Every element of the removed sequence comes from the original.
proof fn lemma_remove_first_subset(s: Seq<u32>, x: u32, i: int)
    requires
        0 <= i < seq_remove_first(s, x).len(),
    ensures
        s.contains(seq_remove_first(s, x)[i]),
    decreases s,
{
    if s.len() > 0 {
        let r = seq_remove_first(s, x);
        if s[0] == x {
            assert(r[i] == s[i + 1]);
        } else {
            if i == 0 {
                assert(r[0] == s[0]);
            } else {
                lemma_remove_first_subset(s.drop_first(), x, i - 1);
                let e = seq_remove_first(s.drop_first(), x)[i - 1];
                let j = choose|j: int|
                    0 <= j < s.drop_first().len() && s.drop_first()[j] == e;
                assert(s[j + 1] == e);
            }
        }
    }
}

/// The first occurrence of `x` sits at `i` with nothing equal before it;
/// removal therefore splices out position `i`.
proof fn lemma_seq_remove_first_at(s: Seq<u32>, x: u32, i: int)
    requires
        0 <= i < s.len(),
        s[i] == x,
        forall|j: int| 0 <= j < i ==> s[j] != x,
    ensures
        seq_remove_first(s, x) == s.take(i) + s.skip(i + 1),
    decreases i,
{
    if i == 0 {
        assert(s.take(0) + s.skip(1) =~= s.drop_first());
    } else {
        assert forall|j: int| 0 <= j < i - 1 implies s.drop_first()[j] != x by {
            assert(s.drop_first()[j] == s[j + 1]);
        }
        assert(s.drop_first()[i - 1] == s[i]);
        lemma_seq_remove_first_at(s.drop_first(), x, i - 1);
        assert(s.drop_first().take(i - 1) =~= s.take(i).drop_first());
        assert(s.drop_first().skip(i) =~= s.skip(i + 1));
        assert(seq![s[0]] + (s.take(i).drop_first() + s.skip(i + 1)) =~= s.take(i) + s.skip(i + 1));
    }
}

/// Whether the id is present.
fn vec_contains_u32(v: &Vec<u32>, x: u32) -> (r: bool)
    ensures
        r == v@.contains(x),
{
    let n = v.len();
    let mut i: usize = 0;
    while i < n
        invariant
            i <= n,
            n == v.len(),
            forall|j: int| 0 <= j < i ==> v@[j] != x,
        decreases n - i,
    {
        if v[i] == x {
            return true;
        }
        i = i + 1;
    }
    false
}

/// Removes the first occurrence of the id, if present.
#[verifier::loop_isolation(false)]
fn vec_remove_first_u32(v: &mut Vec<u32>, x: u32)
    ensures
        final(v)@ == seq_remove_first(old(v)@, x),
{
    let n = v.len();
    let mut i: usize = 0;
    while i < n
        invariant
            i <= n,
            n == v.len(),
            v@ == old(v)@,
            forall|j: int| 0 <= j < i ==> v@[j] != x,
        decreases n - i,
    {
        if v[i] == x {
            proof {
                lemma_seq_remove_first_at(v@, x, i as int);
            }
            v.remove(i);
            proof {
                assert(final(v)@ =~= old(v)@.take(i as int) + old(v)@.skip(i as int + 1));
            }
            return ;
        }
        i = i + 1;
    }
    proof {
        lemma_remove_first_absent(v@, x);
    }
}

/// Removing an absent value changes nothing.
proof fn lemma_remove_first_absent(s: Seq<u32>, x: u32)
    requires
        forall|j: int| 0 <= j < s.len() ==> s[j] != x,
    ensures
        seq_remove_first(s, x) == s,
    decreases s,
{
    if s.len() > 0 {
        assert forall|j: int| 0 <= j < s.drop_first().len() implies s.drop_first()[j] != x by {
            assert(s.drop_first()[j] == s[j + 1]);
        }
        lemma_remove_first_absent(s.drop_first(), x);
        assert(seq![s[0]] + s.drop_first() =~= s);
    }
}

/// Model of a connection's session state.
pub struct ConnectionV {
    pub url: Seq<char>,
    pub is_connected: bool,
    pub next_cmd_id: u32,
    pub pending: Seq<u32>,
    pub streams: Seq<u32>,
    pub window_ack_size: u32,
    pub chunk_size: u32,
}

/// Invariant of the session state: no transaction id is outstanding twice
/// and no stream route is registered twice.
pub open spec fn conn_wf(c: ConnectionV) -> bool {
    no_dup(c.pending) && no_dup(c.streams) && c.chunk_size >= 1
}

/// Law: while outstanding, transaction ids are pairwise distinct.
pub proof fn lemma_outstanding_ids_distinct(c: ConnectionV)
    requires
        conn_wf(c),
    ensures
        forall|i: int, j: int|
            0 <= i < j < c.pending.len() ==> c.pending[i] != c.pending[j],
{
}

/// A client connection's session state: the url it was opened for, the
/// connected flag, the transaction id counter, the ids awaiting a response,
/// the stream ids with a registered status route, and the peer-negotiated
/// sizes.
#[derive(Debug)]
pub struct Connection {
    url: String,
    is_connected: bool,
    next_cmd_id: u32,
    pending: Vec<u32>,
    streams: Vec<u32>,
    window_ack_size: u32,
    chunk_size: u32,
}

impl View for Connection {
    type V = ConnectionV;

    closed spec fn view(&self) -> ConnectionV {
        ConnectionV {
            url: self.url@,
            is_connected: self.is_connected,
            next_cmd_id: self.next_cmd_id,
            pending: self.pending@,
            streams: self.streams@,
            window_ack_size: self.window_ack_size,
            chunk_size: self.chunk_size,
        }
    }
}

/// The routing decision for one inbound message.
#[derive(Debug)]
pub enum RoutedAction {
    /// A response matched an outstanding id: deliver it to that waiter.
    DeliverResponse { tx_id: u32, response: MessageResponse },
    /// A server error matched an outstanding id: deliver it to that waiter.
    DeliverError { tx_id: u32, error: MessageError },
    /// A connection-level status while the connect command was outstanding:
    /// deliver it to the connect waiter.
    ConnectStatus { status: MessageStatus },
    /// A connection-level status with no connect command outstanding.
    ConnectionStatusNoWaiter { status: MessageStatus },
    /// A status for a stream with a registered route.
    DeliverStatus { stream_id: u32, status: MessageStatus },
    /// A status for a stream without a route; logged and dropped.
    DropNoRoute { stream_id: u32 },
    /// A response or error with no matching outstanding id; logged and
    /// dropped.
    DropUnmatched,
    /// An inbound command from the peer; logged and ignored.
    Ignore,
}

/// The id a response or error correlates to, when its double bits denote an
/// exact integer that is outstanding.
pub open spec fn spec_correlated(pending: Seq<u32>, bits: u64) -> Option<u32> {
    match spec_u32_of_f64_bits(bits) {
        Option::Some(id) => {
            if pending.contains(id) {
                Option::Some(id)
            } else {
                Option::None
            }
        },
        Option::None => Option::None,
    }
}

impl Connection {
    /// A fresh, disconnected connection for the given url. Transaction id 1
    /// is reserved for connect, so the counter starts at 2.
    pub fn new(url: String) -> (r: Connection)
        ensures
            r@.url == url@,
            !r@.is_connected,
            r@.next_cmd_id == 2,
            r@.pending == Seq::<u32>::empty(),
            r@.streams == Seq::<u32>::empty(),
            r@.window_ack_size == DEFAULT_WINDOW_ACK_SIZE,
            r@.chunk_size == DEFAULT_CHUNK_SIZE,
            conn_wf(r@),
    {
        Connection {
            url,
            is_connected: false,
            next_cmd_id: 2,
            pending: Vec::new(),
            streams: Vec::new(),
            window_ack_size: DEFAULT_WINDOW_ACK_SIZE,
            chunk_size: DEFAULT_CHUNK_SIZE,
        }
    }

    /// Whether the connect command has succeeded.
    pub fn is_connected(&self) -> (r: bool)
        ensures
            r == self@.is_connected,
    {
        self.is_connected
    }

    /// Sets the connected flag.
    pub fn set_connected(&mut self, connected: bool)
        ensures
            final(self)@ == (ConnectionV { is_connected: connected, ..old(self)@ }),
    {
        self.is_connected = connected;
    }

    /// The chunk size the peer last set (or the default).
    pub fn chunk_size(&self) -> (r: u32)
        requires
            conn_wf(self@),
        ensures
            r == self@.chunk_size,
            r >= 1,
    {
        self.chunk_size
    }

    /// The url this connection was opened for.
    pub fn url(&self) -> (r: &str)
        ensures
            r@ == self@.url,
    {
        self.url.as_str()
    }

    /// Registers a command under a fresh or explicitly chosen transaction
    /// id and returns the message to put on the wire with that id. Fails,
    /// changing nothing, exactly when the chosen id is still outstanding:
    /// a waiter is never overwritten.
    pub fn send_raw_command(
        &mut self,
        stream_id: Option<u32>,
        name: &str,
        transaction_id: Option<u32>,
        data: Value,
        opt: Vec<Value>,
    ) -> (r: Result<(Message, u32), MessageError>)
        requires
            conn_wf(old(self)@),
        ensures
            conn_wf(final(self)@),
            ({
                let chosen = match transaction_id {
                    Option::Some(t) => t,
                    Option::None => old(self)@.next_cmd_id,
                };
                match r {
                    Result::Ok((m, id)) => {
                        &&& id == chosen
                        &&& !old(self)@.pending.contains(id)
                        &&& final(self)@ == (ConnectionV {
                            pending: old(self)@.pending.push(id),
                            next_cmd_id: (match transaction_id {
                                Option::Some(_) => old(self)@.next_cmd_id,
                                Option::None => (if old(self)@.next_cmd_id == 0xFFFF_FFFFu32 {
                                    0u32
                                } else {
                                    (old(self)@.next_cmd_id + 1) as u32
                                }),
                            }),
                            ..old(self)@
                        })
                        &&& m@.stream_id == (match stream_id {
                            Option::Some(s) => s,
                            Option::None => 0u32,
                        })
                        &&& m@.data matches crate::message::MessageDataV::Command(c) && c.name
                            == name@ && c.id == spec_f64_bits_of_u32(id) && c.data == data@
                            && c.opt == values_view(opt@)
                    },
                    Result::Err(_) => {
                        &&& old(self)@.pending.contains(chosen)
                        &&& final(self)@ == old(self)@
                    },
                }
            }),
    {
        let cmd_id = match transaction_id {
            Some(t) => t,
            None => self.next_cmd_id,
        };
        if vec_contains_u32(&self.pending, cmd_id) {
            return Err(
                MessageError::new_error("A.Bug", "A command id was reused because of a bug"),
            );
        }
        if let None = transaction_id {
            self.next_cmd_id = if self.next_cmd_id == 0xFFFF_FFFFu32 {
                0
            } else {
                self.next_cmd_id + 1
            };
        }
        self.pending.push(cmd_id);
        proof {
            assert forall|i: int, j: int|
                0 <= i < j < self@.pending.len() implies self@.pending[i]
                != self@.pending[j] by {
                if j == self@.pending.len() - 1 {
                    assert(self@.pending[i] == old(self)@.pending[i]);
                    assert(old(self)@.pending.contains(old(self)@.pending[i]));
                }
            }
        }
        let msg = Message {
            stream_id: match stream_id {
                Some(s) => s,
                None => 0,
            },
            data: MessageData::Command(
                MessageCommand {
                    name: name.to_owned(),
                    id: crate::number::f64_bits_of_u32(cmd_id),
                    data,
                    opt,
                },
            ),
        };
        Ok((msg, cmd_id))
    }

    /// Registers a command under a fresh transaction id, with a Null
    /// command object.
    pub fn send_command(&mut self, name: &str, params: Vec<Value>) -> (r: Result<
        (Message, u32),
        MessageError,
    >)
        requires
            conn_wf(old(self)@),
        ensures
            conn_wf(final(self)@),
            ({
                match r {
                    Result::Ok((m, id)) => {
                        &&& id == old(self)@.next_cmd_id
                        &&& !old(self)@.pending.contains(id)
                        &&& final(self)@ == (ConnectionV {
                            pending: old(self)@.pending.push(id),
                            next_cmd_id: (if old(self)@.next_cmd_id == 0xFFFF_FFFFu32 {
                                0u32
                            } else {
                                (old(self)@.next_cmd_id + 1) as u32
                            }),
                            ..old(self)@
                        })
                        &&& m@.stream_id == 0
                        &&& m@.data matches crate::message::MessageDataV::Command(c) && c.name
                            == name@ && c.id == spec_f64_bits_of_u32(id) && c.data is Null
                            && c.opt == values_view(params@)
                    },
                    Result::Err(_) => {
                        &&& old(self)@.pending.contains(old(self)@.next_cmd_id)
                        &&& final(self)@ == old(self)@
                    },
                }
            }),
    {
        self.send_raw_command(None, name, None, Value::Null, params)
    }

    /// Builds a stream command: transaction id 0, a Null command object,
    /// and the given parameters. Stream commands produce no correlated
    /// response, so nothing is registered and the state does not change.
    pub fn send_stream_command(&self, stream_id: u32, name: &str, params: Vec<Value>) -> (r:
        Message)
        ensures
            r@.stream_id == stream_id,
            r@.data matches crate::message::MessageDataV::Command(c) && c.name == name@ && c.id
                == spec_f64_bits_of_u32(0) && c.data is Null && c.opt == values_view(params@),
    {
        Message {
            stream_id,
            data: MessageData::Command(
                MessageCommand {
                    name: name.to_owned(),
                    id: crate::number::f64_bits_of_u32(0),
                    data: Value::Null,
                    opt: params,
                },
            ),
        }
    }

    /// Routes one inbound message, as the reader pump must: responses and
    /// errors go to the waiter of their transaction id, which thereby
    /// ceases to be outstanding; a connection-level status completes the
    /// connect waiter; a stream status goes to its registered route; and
    /// anything unmatched is dropped.
    pub fn route_message(&mut self, msg: Message) -> (r: RoutedAction)
        requires
            conn_wf(old(self)@),
        ensures
            conn_wf(final(self)@),
            ({
                match msg@.data {
                    crate::message::MessageDataV::Response(resp) => {
                        match spec_correlated(old(self)@.pending, resp.id) {
                            Option::Some(id) => {
                                &&& r matches RoutedAction::DeliverResponse {
                                    tx_id,
                                    response,
                                } && tx_id == id && response@ == resp
                                &&& final(self)@ == (ConnectionV {
                                    pending: seq_remove_first(old(self)@.pending, id),
                                    ..old(self)@
                                })
                            },
                            Option::None => {
                                &&& r is DropUnmatched
                                &&& final(self)@ == old(self)@
                            },
                        }
                    },
                    crate::message::MessageDataV::Error(bits, st) => {
                        match spec_correlated(old(self)@.pending, bits) {
                            Option::Some(id) => {
                                &&& r matches RoutedAction::DeliverError { tx_id, error }
                                    && tx_id == id && error.0@ == st
                                &&& final(self)@ == (ConnectionV {
                                    pending: seq_remove_first(old(self)@.pending, id),
                                    ..old(self)@
                                })
                            },
                            Option::None => {
                                &&& r is DropUnmatched
                                &&& final(self)@ == old(self)@
                            },
                        }
                    },
                    crate::message::MessageDataV::Status(st) => {
                        if msg@.stream_id == 0 {
                            if old(self)@.pending.contains(CONNECT_TRANSACTION_ID) {
                                &&& r matches RoutedAction::ConnectStatus { status }
                                    && status@ == st
                                &&& final(self)@ == (ConnectionV {
                                    pending: seq_remove_first(
                                        old(self)@.pending,
                                        CONNECT_TRANSACTION_ID,
                                    ),
                                    ..old(self)@
                                })
                            } else {
                                &&& r matches RoutedAction::ConnectionStatusNoWaiter {
                                    status,
                                } && status@ == st
                                &&& final(self)@ == old(self)@
                            }
                        } else {
                            if old(self)@.streams.contains(msg@.stream_id) {
                                &&& r matches RoutedAction::DeliverStatus {
                                    stream_id,
                                    status,
                                } && stream_id == msg@.stream_id && status@ == st
                                &&& final(self)@ == old(self)@
                            } else {
                                &&& r matches RoutedAction::DropNoRoute { stream_id }
                                    && stream_id == msg@.stream_id
                                &&& final(self)@ == old(self)@
                            }
                        }
                    },
                    crate::message::MessageDataV::Command(_) => {
                        &&& r is Ignore
                        &&& final(self)@ == old(self)@
                    },
                }
            }),
    {
        let Message { stream_id, data } = msg;
        match data {
            MessageData::Response(response) => {
                match crate::number::u32_of_f64_bits(response.id) {
                    Some(id) => {
                        if vec_contains_u32(&self.pending, id) {
                            proof {
                                lemma_delivery_unique(self.pending@, id);
                            }
                            vec_remove_first_u32(&mut self.pending, id);
                            RoutedAction::DeliverResponse { tx_id: id, response }
                        } else {
                            RoutedAction::DropUnmatched
                        }
                    },
                    None => RoutedAction::DropUnmatched,
                }
            },
            MessageData::Error(bits, error) => {
                match crate::number::u32_of_f64_bits(bits) {
                    Some(id) => {
                        if vec_contains_u32(&self.pending, id) {
                            proof {
                                lemma_delivery_unique(self.pending@, id);
                            }
                            vec_remove_first_u32(&mut self.pending, id);
                            RoutedAction::DeliverError { tx_id: id, error }
                        } else {
                            RoutedAction::DropUnmatched
                        }
                    },
                    None => RoutedAction::DropUnmatched,
                }
            },
            MessageData::Status(status) => {
                if stream_id == 0 {
                    if vec_contains_u32(&self.pending, CONNECT_TRANSACTION_ID) {
                        proof {
                            lemma_delivery_unique(self.pending@, CONNECT_TRANSACTION_ID);
                        }
                        vec_remove_first_u32(&mut self.pending, CONNECT_TRANSACTION_ID);
                        RoutedAction::ConnectStatus { status }
                    } else {
                        RoutedAction::ConnectionStatusNoWaiter { status }
                    }
                } else {
                    if vec_contains_u32(&self.streams, stream_id) {
                        RoutedAction::DeliverStatus { stream_id, status }
                    } else {
                        RoutedAction::DropNoRoute { stream_id }
                    }
                }
            },
            MessageData::Command(_) => RoutedAction::Ignore,
        }
    }

    /// Applies an inbound control signal to the session state: window
    /// acknowledgement size and peer bandwidth record the window size, and
    /// set-chunk-size adjusts the chunk size (a zero size is clamped to one
    /// so framing stays possible); other signals change nothing.
    pub fn handle_signal(&mut self, signal: &Signal)
        requires
            conn_wf(old(self)@),
        ensures
            conn_wf(final(self)@),
            ({
                match signal@ {
                    SignalV::SetWindowAckSize(n) => final(self)@ == (ConnectionV {
                        window_ack_size: n,
                        ..old(self)@
                    }),
                    SignalV::SetPeerBandwidth(n, _limit) => final(self)@ == (ConnectionV {
                        window_ack_size: n,
                        ..old(self)@
                    }),
                    SignalV::SetChunkSize(n) => final(self)@ == (ConnectionV {
                        chunk_size: (if n == 0 {
                            1u32
                        } else {
                            n
                        }),
                        ..old(self)@
                    }),
                    _ => final(self)@ == old(self)@,
                }
            }),
    {
        match signal {
            Signal::SetWindowAckSize(n) => {
                self.window_ack_size = *n;
            },
            Signal::SetPeerBandwidth(n, _limit) => {
                self.window_ack_size = *n;
            },
            Signal::SetChunkSize(n) => {
                self.chunk_size = if *n == 0 {
                    1
                } else {
                    *n
                };
            },
            _ => {},
        }
    }

    /// Registers a stream's status route.
    pub fn add_stream(&mut self, stream_id: u32)
        requires
            conn_wf(old(self)@),
        ensures
            conn_wf(final(self)@),
            old(self)@.streams.contains(stream_id) ==> final(self)@ == old(self)@,
            !old(self)@.streams.contains(stream_id) ==> final(self)@ == (ConnectionV {
                streams: old(self)@.streams.push(stream_id),
                ..old(self)@
            }),
    {
        if !vec_contains_u32(&self.streams, stream_id) {
            self.streams.push(stream_id);
            proof {
                assert forall|i: int, j: int|
                    0 <= i < j < self@.streams.len() implies self@.streams[i]
                    != self@.streams[j] by {
                    if j == self@.streams.len() - 1 {
                        assert(self@.streams[i] == old(self)@.streams[i]);
                        assert(old(self)@.streams.contains(old(self)@.streams[i]));
                    }
                }
            }
        }
    }

    /// Deregisters a stream's status route, as dropping the stream must.
    pub fn remove_stream(&mut self, stream_id: u32)
        requires
            conn_wf(old(self)@),
        ensures
            conn_wf(final(self)@),
            final(self)@ == (ConnectionV {
                streams: seq_remove_first(old(self)@.streams, stream_id),
                ..old(self)@
            }),
    {
        proof {
            lemma_delivery_unique(self.streams@, stream_id);
        }
        vec_remove_first_u32(&mut self.streams, stream_id);
    }

    /// Creates the stream a successful `createStream` response announces:
    /// its trailing value must be a Number denoting the server-assigned
    /// stream id, which gets a status route. A response without such a
    /// number yields the creation-failed status instead.
    pub fn new_stream(&mut self, response: &MessageResponse) -> (r: Result<
        NetStream,
        MessageError,
    >)
        requires
            conn_wf(old(self)@),
        ensures
            conn_wf(final(self)@),
            ({
                match (response@.opt) {
                    ValueV::Number(bits) => {
                        match spec_u32_of_f64_bits(bits) {
                            Option::Some(id) => {
                                &&& r matches Ok(stream) && stream@.id == id && stream@.state
                                    is Created
                                &&& (old(self)@.streams.contains(id) ==> final(self)@ == old(
                                    self,
                                )@)
                                &&& (!old(self)@.streams.contains(id) ==> final(self)@
                                    == (ConnectionV {
                                    streams: old(self)@.streams.push(id),
                                    ..old(self)@
                                }))
                            },
                            Option::None => r is Err && final(self)@ == old(self)@,
                        }
                    },
                    _ => r is Err && final(self)@ == old(self)@,
                }
            }),
    {
        match &response.opt {
            Value::Number(bits) => {
                match crate::number::u32_of_f64_bits(*bits) {
                    Some(id) => {
                        self.add_stream(id);
                        Ok(NetStream::new(id))
                    },
                    None => Err(
                        MessageError::new_status(
                            "NetStream.Create.Failed",
                            "Server did not provide a stream id number",
                        ),
                    ),
                }
            },
            _ => Err(
                MessageError::new_status(
                    "NetStream.Create.Failed",
                    "Server did not provide a stream id number",
                ),
            ),
        }
    }

    /// Closes the session, as transport end-of-file or a fatal error must:
    /// returns the ids of all still outstanding commands, each of which the
    /// caller fails with a closed error, and clears the connected flag.
    pub fn close(&mut self) -> (r: Vec<u32>)
        ensures
            r@ == old(self)@.pending,
            final(self)@ == (ConnectionV {
                pending: Seq::<u32>::empty(),
                is_connected: false,
                ..old(self)@
            }),
    {
        let mut taken: Vec<u32> = Vec::new();
        core::mem::swap(&mut taken, &mut self.pending);
        self.is_connected = false;
        taken
    }
}

/// The connect response reports success: its trailing object's code is
/// `NetConnection.Connect.Success`.
pub open spec fn spec_connect_success(m: MessageV) -> bool {
    m.data matches crate::message::MessageDataV::Response(resp) && resp.opt is Object
        && crate::message::spec_status_field(
        resp.opt->Object_0,
        "code"@,
    ) == "NetConnection.Connect.Success"@
}

impl Connection {
    /// Applies the connect command's response: the connection is connected
    /// exactly when the response's status code reports success.
    pub fn on_connect_response(&mut self, msg: &Message)
        ensures
            final(self)@ == (ConnectionV {
                is_connected: spec_connect_success(msg@),
                ..old(self)@
            }),
    {
        let connected = match msg.get_status() {
            Some(status) => {
                crate::message::code_matches(
                    &MessageStatus {
                        level: status.level,
                        code: status.code,
                        description: status.description,
                    },
                    "NetConnection.Connect.Success",
                )
            },
            None => false,
        };
        self.is_connected = connected;
    }
}

/// The flash version string sent in the connect command object.
pub const FLASH_VERSION: &'static str = "MAC 10,0,32,18";

/// The entry list of the connect command object: the application name, the
/// flash version, and the full url, keys in sorted order.
pub open spec fn connect_entries(app: Seq<char>, tc_url: Seq<char>) -> Seq<(Seq<char>, ValueV)> {
    seq![
        ("app"@, ValueV::Utf8(app)),
        ("flashVer"@, ValueV::Utf8("MAC 10,0,32,18"@)),
        ("tcUrl"@, ValueV::Utf8(tc_url)),
    ]
}

/// The connect object's keys in their sorted order.
proof fn lemma_connect_keys()
    ensures
        crate::amf::char_seq_lt("app"@, "flashVer"@),
        crate::amf::char_seq_lt("flashVer"@, "tcUrl"@),
        crate::amf::char_seq_lt("app"@, "tcUrl"@),
{
    reveal_strlit("app");
    reveal_strlit("flashVer");
    reveal_strlit("tcUrl");
    crate::amf::lemma_char_seq_lt_trans("app"@, "flashVer"@, "tcUrl"@);
}

/// Builds the connect command object.
fn connect_object(app: &str, tc_url: &str) -> (r: Value)
    ensures
        r@ == ValueV::Object(connect_entries(app@, tc_url@)),
{
    let mut obj = Value::Object(Vec::new());
    proof {
        assert(crate::amf::entries_view(Seq::<(String, Value)>::empty()) =~= Seq::<
            (Seq<char>, ValueV),
        >::empty());
        lemma_connect_keys();
    }
    obj.object_insert("app".to_owned(), Value::Utf8(app.to_owned()));
    obj.object_insert("flashVer".to_owned(), Value::Utf8(FLASH_VERSION.to_owned()));
    obj.object_insert("tcUrl".to_owned(), Value::Utf8(tc_url.to_owned()));
    proof {
        let e0 = Seq::<(Seq<char>, ValueV)>::empty();
        let a = ("app"@, ValueV::Utf8(app@));
        let f = ("flashVer"@, ValueV::Utf8(FLASH_VERSION@));
        let t = ("tcUrl"@, ValueV::Utf8(tc_url@));
        assert(crate::amf::obj_insert(e0, a.0, a.1) =~= seq![a]);
        crate::amf::lemma_char_seq_lt_asym("app"@, "flashVer"@);
        assert(seq![a][0] == a);
        assert(crate::amf::obj_insert(seq![a], f.0, f.1) =~= seq![a, f]) by {
            assert(seq![a].drop_first() =~= e0);
            assert(crate::amf::obj_insert(e0, f.0, f.1) =~= seq![f]);
            assert(seq![a] + seq![f] =~= seq![a, f]);
        }
        crate::amf::lemma_char_seq_lt_asym("flashVer"@, "tcUrl"@);
        crate::amf::lemma_char_seq_lt_asym("app"@, "tcUrl"@);
        assert(seq![a, f][0] == a);
        assert(seq![f][0] == f);
        assert(crate::amf::obj_insert(seq![a, f], t.0, t.1) =~= seq![a, f, t]) by {
            assert(seq![a, f].drop_first() =~= seq![f]);
            assert(seq![f].drop_first() =~= e0);
            assert(crate::amf::obj_insert(e0, t.0, t.1) =~= seq![t]);
            assert(crate::amf::obj_insert(seq![f], t.0, t.1) =~= seq![f] + seq![t]);
            assert(seq![f] + seq![t] =~= seq![f, t]);
            assert(seq![a] + seq![f, t] =~= seq![a, f, t]);
        }
        assert(FLASH_VERSION@ == "MAC 10,0,32,18"@);
        assert(connect_entries(app@, tc_url@) =~= seq![a, f, t]);
    }
    obj
}

impl Connection {
    /// Registers the connect command under its reserved transaction id 1
    /// and returns the message to put on the wire: the command object
    /// carries the application name, the flash version, and the full url.
    /// Fails, changing nothing, when a connect is already outstanding.
    pub fn send_connect_command(&mut self, app: &str, tc_url: &str) -> (r: Result<
        (Message, u32),
        MessageError,
    >)
        requires
            conn_wf(old(self)@),
        ensures
            conn_wf(final(self)@),
            ({
                match r {
                    Result::Ok((m, id)) => {
                        &&& id == CONNECT_TRANSACTION_ID
                        &&& !old(self)@.pending.contains(CONNECT_TRANSACTION_ID)
                        &&& final(self)@ == (ConnectionV {
                            pending: old(self)@.pending.push(CONNECT_TRANSACTION_ID),
                            ..old(self)@
                        })
                        &&& m@.stream_id == 0
                        &&& m@.data matches crate::message::MessageDataV::Command(c) && c.name
                            == "connect"@ && c.id == spec_f64_bits_of_u32(CONNECT_TRANSACTION_ID)
                            && c.data == ValueV::Object(connect_entries(app@, tc_url@)) && c.opt
                            == Seq::<ValueV>::empty()
                    },
                    Result::Err(_) => {
                        &&& old(self)@.pending.contains(CONNECT_TRANSACTION_ID)
                        &&& final(self)@ == old(self)@
                    },
                }
            }),
    {
        let properties = connect_object(app, tc_url);
        let params: Vec<Value> = Vec::new();
        proof {
            assert(values_view(params@) =~= Seq::<ValueV>::empty());
        }
        self.send_raw_command(None, "connect", Some(CONNECT_TRANSACTION_ID), properties, params)
    }
}

} // verus!
