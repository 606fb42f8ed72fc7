//! Per-stream state: a `NetStream` created by a successful `createStream`,
//! its publish request, and the transition to published when the server
//! reports `NetStream.Publish.Start`.

use vstd::prelude::*;

use crate::amf::Value;
use crate::flag::spec_flag_str;
use crate::flag::RecordFlag;
use crate::message::Message;
use crate::message::MessageCommand;
use crate::message::MessageData;
use crate::message::MessageStatus;
use crate::number::spec_f64_bits_of_u32;

verus! {

/// What a stream has asked the server to do.
#[derive(Clone, Debug)]
pub struct PublishInfo {
    name: String,
    flag: RecordFlag,
}

/// Model of a publish request.
pub struct PublishInfoV {
    pub name: Seq<char>,
    pub flag: RecordFlag,
}

impl View for PublishInfo {
    type V = PublishInfoV;

    closed spec fn view(&self) -> PublishInfoV {
        PublishInfoV { name: self.name@, flag: self.flag }
    }
}

/// The lifecycle state of a stream.
#[derive(Clone, Debug)]
pub enum NetStreamState {
    /// Created by a successful `createStream` response.
    Created,
    /// A publish command has been sent; its outcome is awaited.
    PublishRequest(PublishInfo),
    /// The server reported `NetStream.Publish.Start`.
    Published(PublishInfo),
}

/// Model of a stream state.
pub enum NetStreamStateV {
    Created,
    PublishRequest(PublishInfoV),
    Published(PublishInfoV),
}

impl View for NetStreamState {
    type V = NetStreamStateV;

    open spec fn view(&self) -> NetStreamStateV {
        match self {
            NetStreamState::Created => NetStreamStateV::Created,
            NetStreamState::PublishRequest(info) => NetStreamStateV::PublishRequest(info@),
            NetStreamState::Published(info) => NetStreamStateV::Published(info@),
        }
    }
}

impl Default for NetStreamState {
    /// A fresh stream starts in the created state.
    fn default() -> (r: NetStreamState)
        ensures
            r@ is Created,
    {
        NetStreamState::Created
    }
}

/// Position of a state along the stream lifecycle.
pub open spec fn state_rank(s: NetStreamStateV) -> int {
    match s {
        NetStreamStateV::Created => 0,
        NetStreamStateV::PublishRequest(_) => 1,
        NetStreamStateV::Published(_) => 2,
    }
}

/// The state after a status notification: a pending publish becomes
/// published on `NetStream.Publish.Start`; nothing else moves.
pub open spec fn spec_on_status(s: NetStreamStateV, code: Seq<char>) -> NetStreamStateV {
    match s {
        NetStreamStateV::PublishRequest(info) => {
            if code == "NetStream.Publish.Start"@ {
                NetStreamStateV::Published(info)
            } else {
                NetStreamStateV::PublishRequest(info)
            }
        },
        _ => s,
    }
}

/// Law: stream states only move forward, one step at a time, along
/// `Created`, then `PublishRequest`, then `Published`; so any run of
/// transitions is a subsequence of that chain.
pub proof fn lemma_stream_state_order(s: NetStreamStateV, code: Seq<char>)
    ensures
        state_rank(s) <= state_rank(spec_on_status(s, code)) <= state_rank(s) + 1,
        state_rank(spec_on_status(s, code)) == state_rank(s) + 1 ==> s is PublishRequest
            && spec_on_status(s, code) is Published,
{
}

/// A stream handle: the server-assigned id and the lifecycle state. The
/// owning connection routes this stream's status notifications by its id.
#[derive(Debug)]
pub struct NetStream {
    pub id: u32,
    state: NetStreamState,
}

/// Model of a stream.
pub struct NetStreamV {
    pub id: u32,
    pub state: NetStreamStateV,
}

impl View for NetStream {
    type V = NetStreamV;

    closed spec fn view(&self) -> NetStreamV {
        NetStreamV { id: self.id, state: self.state@ }
    }
}

impl NetStream {
    /// A fresh stream with the given server-assigned id.
    pub fn new(id: u32) -> (r: NetStream)
        ensures
            r@.id == id,
            r@.state is Created,
    {
        NetStream { id, state: NetStreamState::Created }
    }

    /// The lifecycle state.
    pub fn state(&self) -> (r: &NetStreamState)
        ensures
            r@ == self@.state,
    {
        &self.state
    }

    /// Builds the publish stream command (transaction id 0, parameters the
    /// stream name and the lowercase flag) and moves the stream to the
    /// publish-requested state. A publish may only be requested once, from
    /// the created state.
    pub fn publish(&mut self, name: &str, flag: RecordFlag) -> (r: Message)
        requires
            old(self)@.state is Created,
        ensures
            final(self)@.id == old(self)@.id,
            final(self)@.state matches NetStreamStateV::PublishRequest(info) && info.name == name@
                && info.flag == flag,
            r@.stream_id == old(self)@.id,
            r@.data matches crate::message::MessageDataV::Command(c) && c.name == "publish"@
                && c.id == spec_f64_bits_of_u32(0) && c.data is Null && c.opt =~= seq![
                crate::amf::ValueV::Utf8(name@),
                crate::amf::ValueV::Utf8(spec_flag_str(flag)),
            ],
    {
        let flag_str = flag.as_str();
        let mut params: Vec<Value> = Vec::new();
        params.push(Value::Utf8(name.to_owned()));
        params.push(Value::Utf8(flag_str.to_owned()));
        proof {
            crate::message::lemma_values_view_index(params@);
            assert(crate::message::values_view(params@) =~= seq![
                crate::amf::ValueV::Utf8(name@),
                crate::amf::ValueV::Utf8(spec_flag_str(flag)),
            ]);
        }
        let msg = Message {
            stream_id: self.id,
            data: MessageData::Command(
                MessageCommand {
                    name: "publish".to_owned(),
                    id: crate::number::f64_bits_of_u32(0),
                    data: Value::Null,
                    opt: params,
                },
            ),
        };
        self.state = NetStreamState::PublishRequest(
            PublishInfo { name: name.to_owned(), flag },
        );
        msg
    }

    /// Applies a status notification for this stream: a pending publish
    /// becomes published when the server reports `NetStream.Publish.Start`.
    pub fn on_status(&mut self, status: &MessageStatus)
        ensures
            final(self)@.id == old(self)@.id,
            final(self)@.state == spec_on_status(old(self)@.state, status@.code),
    {
        let is_start = crate::message::code_matches(status, "NetStream.Publish.Start");
        let mut current = NetStreamState::Created;
        core::mem::swap(&mut current, &mut self.state);
        match current {
            NetStreamState::PublishRequest(info) => {
                if is_start {
                    self.state = NetStreamState::Published(info);
                } else {
                    self.state = NetStreamState::PublishRequest(info);
                }
            },
            other => {
                self.state = other;
            },
        }
    }
}

} // verus!
