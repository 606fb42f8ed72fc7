//! Typed RTMP command messages atop the AMF0 codec.
//!
//! A command payload is the AMF0 sequence `String(name) · Number(tx id) ·
//! Value(command object) · trailing values`. Decoding dispatches on the
//! name: `_result` and `_error` become responses to an earlier command,
//! `onStatus` becomes a status notification, and anything else stays a
//! command. Transaction ids travel as doubles; they are held here as their
//! IEEE-754 bit patterns (see [`crate::number`]).

use vstd::prelude::*;

use crate::amf::obj_lookup;
use crate::amf::spec_decode_value;
use crate::amf::spec_encode_value;
use crate::amf::str_compare;
use crate::amf::value_canonical;
use crate::amf::value_encodable;
use crate::amf::value_view;
use crate::amf::DecodeError;
use crate::amf::EncodeError;
use crate::amf::KeyOrder;
use crate::amf::Value;
use crate::amf::ValueV;
use crate::number::spec_u32_of_f64_bits;
use crate::number::u32_of_f64_bits;

verus! {

/// The RTMP message type id of an AMF0 command message.
pub const COMMAND_MESSAGE_TYPE: u8 = 20;

/// An RTMP message: a payload on a message stream. Stream id 0 is the
/// connection channel; nonzero ids belong to individual streams.
#[derive(Debug, PartialEq)]
pub struct Message {
    pub stream_id: u32,
    pub data: MessageData,
}

/// The typed payload of a command message.
#[derive(Debug, PartialEq)]
pub enum MessageData {
    Command(MessageCommand),
    Response(MessageResponse),
    Status(MessageStatus),
    Error(u64, MessageError),
}

/// A command sent by this side: name, transaction id (as double bits),
/// command object, and optional trailing values.
#[derive(Debug, PartialEq)]
pub struct MessageCommand {
    pub name: String,
    pub id: u64,
    pub data: Value,
    pub opt: Vec<Value>,
}

/// An `onStatus` notification's triple: level, code and description.
#[derive(Debug, Clone, PartialEq)]
pub struct MessageStatus {
    pub level: String,
    pub code: String,
    pub description: String,
}

/// A `_result` response: transaction id (as double bits), command object,
/// and the single trailing value.
#[derive(Debug, PartialEq)]
pub struct MessageResponse {
    pub id: u64,
    pub data: Value,
    pub opt: Value,
}

/// A protocol-level error surfaced to a command's waiter: a status triple
/// with level `error` (or the triple of a server `_error` response).
#[derive(Debug, Clone, PartialEq)]
pub struct MessageError(pub MessageStatus);

/// Model of a command.
pub struct MessageCommandV {
    pub name: Seq<char>,
    pub id: u64,
    pub data: ValueV,
    pub opt: Seq<ValueV>,
}

/// Model of a response.
pub struct MessageResponseV {
    pub id: u64,
    pub data: ValueV,
    pub opt: ValueV,
}

/// Model of a status triple.
pub struct MessageStatusV {
    pub level: Seq<char>,
    pub code: Seq<char>,
    pub description: Seq<char>,
}

/// Model of a message payload.
pub enum MessageDataV {
    Command(MessageCommandV),
    Response(MessageResponseV),
    Status(MessageStatusV),
    Error(u64, MessageStatusV),
}

/// Model of a message.
pub struct MessageV {
    pub stream_id: u32,
    pub data: MessageDataV,
}

/// The models of a sequence of values.
pub open spec fn values_view(vs: Seq<Value>) -> Seq<ValueV>
    decreases vs,
{
    if vs.len() == 0 {
        Seq::empty()
    } else {
        seq![value_view(vs[0])] + values_view(vs.drop_first())
    }
}

/// The value models index pointwise.
pub proof fn lemma_values_view_index(vs: Seq<Value>)
    ensures
        values_view(vs).len() == vs.len(),
        forall|i: int| 0 <= i < vs.len() ==> #[trigger] values_view(vs)[i] == value_view(vs[i]),
    decreases vs,
{
    if vs.len() > 0 {
        lemma_values_view_index(vs.drop_first());
    }
}

impl View for MessageStatus {
    type V = MessageStatusV;

    open spec fn view(&self) -> MessageStatusV {
        MessageStatusV { level: self.level@, code: self.code@, description: self.description@ }
    }
}

impl View for MessageCommand {
    type V = MessageCommandV;

    open spec fn view(&self) -> MessageCommandV {
        MessageCommandV {
            name: self.name@,
            id: self.id,
            data: self.data@,
            opt: values_view(self.opt@),
        }
    }
}

impl View for MessageResponse {
    type V = MessageResponseV;

    open spec fn view(&self) -> MessageResponseV {
        MessageResponseV { id: self.id, data: self.data@, opt: self.opt@ }
    }
}

impl View for MessageData {
    type V = MessageDataV;

    open spec fn view(&self) -> MessageDataV {
        match self {
            MessageData::Command(c) => MessageDataV::Command(c@),
            MessageData::Response(r) => MessageDataV::Response(r@),
            MessageData::Status(s) => MessageDataV::Status(s@),
            MessageData::Error(id, e) => MessageDataV::Error(*id, e.0@),
        }
    }
}

impl View for Message {
    type V = MessageV;

    open spec fn view(&self) -> MessageV {
        MessageV { stream_id: self.stream_id, data: self.data@ }
    }
}

impl Message {
    /// Builds a message; `None` for the stream id means the connection
    /// channel, stream id 0.
    pub fn new(stream_id: Option<u32>, data: MessageData) -> (r: Message)
        ensures
            r.stream_id == (match stream_id {
                Option::Some(id) => id,
                Option::None => 0u32,
            }),
            r.data == data,
    {
        Message {
            stream_id: match stream_id {
                Option::Some(id) => id,
                Option::None => 0,
            },
            data,
        }
    }
}

impl MessageError {
    /// A status-level error triple.
    pub fn new_status(code: &str, description: &str) -> (r: MessageError)
        ensures
            r.0@.level == "status"@,
            r.0@.code == code@,
            r.0@.description == description@,
    {
        MessageError(
            MessageStatus {
                level: "status".to_owned(),
                code: code.to_owned(),
                description: description.to_owned(),
            },
        )
    }

    /// An error-level triple.
    pub fn new_error(code: &str, description: &str) -> (r: MessageError)
        ensures
            r.0@.level == "error"@,
            r.0@.code == code@,
            r.0@.description == description@,
    {
        MessageError(
            MessageStatus {
                level: "error".to_owned(),
                code: code.to_owned(),
                description: description.to_owned(),
            },
        )
    }
}

/// The string under `key` in the entry list, or empty when absent or not a
/// string.
pub open spec fn spec_status_field(es: Seq<(Seq<char>, ValueV)>, key: Seq<char>) -> Seq<char> {
    match obj_lookup(es, key) {
        Option::Some(ValueV::Utf8(s)) => s,
        _ => Seq::empty(),
    }
}

/// The encoding number under `objectEncoding`, or 0 when absent or not an
/// exact integer.
pub open spec fn spec_status_encoding(es: Seq<(Seq<char>, ValueV)>) -> u32 {
    match obj_lookup(es, "objectEncoding"@) {
        Option::Some(ValueV::Number(bits)) => match spec_u32_of_f64_bits(bits) {
            Option::Some(n) => n,
            Option::None => 0u32,
        },
        _ => 0u32,
    }
}

/// The status triple read from an object's `level`, `code` and
/// `description` fields, absent fields reading as empty.
pub open spec fn spec_status_of_entries(es: Seq<(Seq<char>, ValueV)>) -> MessageStatusV {
    MessageStatusV {
        level: spec_status_field(es, "level"@),
        code: spec_status_field(es, "code"@),
        description: spec_status_field(es, "description"@),
    }
}

/// A server status notification as read from a response's trailing object:
/// the triple plus the object-encoding number of the connect response.
#[derive(Debug, Clone, PartialEq)]
pub struct Status {
    pub level: String,
    pub code: String,
    pub description: String,
    pub encoding: u32,
}

/// Model of a full status.
pub struct StatusV {
    pub level: Seq<char>,
    pub code: Seq<char>,
    pub description: Seq<char>,
    pub encoding: u32,
}

impl View for Status {
    type V = StatusV;

    open spec fn view(&self) -> StatusV {
        StatusV {
            level: self.level@,
            code: self.code@,
            description: self.description@,
            encoding: self.encoding,
        }
    }
}

/// Reads the string under `key` in an Object value, or empty when the key
/// is absent or holds no string.
fn object_get_string(v: &Value, key: &str) -> (r: String)
    requires
        v@ is Object,
    ensures
        r@ == spec_status_field((v@)->Object_0, key@),
{
    match v.object_get(key) {
        Option::Some(found) => {
            match found {
                Value::Utf8(s) => s.clone(),
                _ => String::new(),
            }
        },
        Option::None => String::new(),
    }
}

impl Status {
    /// Reads the status fields out of an Object value.
    fn from_object(v: &Value) -> (r: Status)
        requires
            v@ is Object,
        ensures
            r@.level == spec_status_field((v@)->Object_0, "level"@),
            r@.code == spec_status_field((v@)->Object_0, "code"@),
            r@.description == spec_status_field((v@)->Object_0, "description"@),
            r@.encoding == spec_status_encoding((v@)->Object_0),
    {
        let level = object_get_string(v, "level");
        let code = object_get_string(v, "code");
        let description = object_get_string(v, "description");
        let encoding: u32 = match v.object_get("objectEncoding") {
            Option::Some(found) => {
                match found {
                    Value::Number(bits) => {
                        match u32_of_f64_bits(*bits) {
                            Option::Some(n) => n,
                            Option::None => 0,
                        }
                    },
                    _ => 0,
                }
            },
            Option::None => 0,
        };
        Status { level, code, description, encoding }
    }
}

/// Wire form of a sequence of values, one after the other.
pub open spec fn spec_encode_values(vs: Seq<ValueV>) -> Seq<u8>
    decreases vs,
{
    if vs.len() == 0 {
        Seq::empty()
    } else {
        spec_encode_value(vs[0]) + spec_encode_values(vs.drop_first())
    }
}

/// Every value in the sequence is encodable.
pub open spec fn values_encodable(vs: Seq<ValueV>) -> bool
    decreases vs,
{
    if vs.len() == 0 {
        true
    } else {
        value_encodable(vs[0]) && values_encodable(vs.drop_first())
    }
}

/// Every value in the sequence is canonical.
pub open spec fn values_canonical(vs: Seq<ValueV>) -> bool
    decreases vs,
{
    if vs.len() == 0 {
        true
    } else {
        value_canonical(vs[0]) && values_canonical(vs.drop_first())
    }
}

/// The status triple as the entry list of its wire object, keys in sorted
/// order.
pub open spec fn status_entries(st: MessageStatusV) -> Seq<(Seq<char>, ValueV)> {
    seq![
        ("code"@, ValueV::Utf8(st.code)),
        ("description"@, ValueV::Utf8(st.description)),
        ("level"@, ValueV::Utf8(st.level)),
    ]
}

/// Wire form of a message payload: name, transaction id, command object,
/// then the trailing values. Responses carry the name `_result`, errors
/// `_error` with their triple as the trailing object, and status
/// notifications `onStatus` likewise; both use transaction id 0.
pub open spec fn spec_encode_message(md: MessageDataV) -> Seq<u8> {
    match md {
        MessageDataV::Command(c) => spec_encode_value(ValueV::Utf8(c.name)) + spec_encode_value(
            ValueV::Number(c.id),
        ) + spec_encode_value(c.data) + spec_encode_values(c.opt),
        MessageDataV::Response(r) => spec_encode_value(ValueV::Utf8("_result"@))
            + spec_encode_value(ValueV::Number(r.id)) + spec_encode_value(r.data)
            + spec_encode_value(r.opt),
        MessageDataV::Status(st) => spec_encode_value(ValueV::Utf8("onStatus"@))
            + spec_encode_value(ValueV::Number(0u64)) + spec_encode_value(ValueV::Null)
            + spec_encode_value(ValueV::Object(status_entries(st))),
        MessageDataV::Error(id, st) => spec_encode_value(ValueV::Utf8("_error"@))
            + spec_encode_value(ValueV::Number(id)) + spec_encode_value(ValueV::Null)
            + spec_encode_value(ValueV::Object(status_entries(st))),
    }
}

/// Every string in the payload fits its length field.
pub open spec fn message_encodable(md: MessageDataV) -> bool {
    match md {
        MessageDataV::Command(c) => crate::amf::str_encodable(c.name) && value_encodable(c.data)
            && values_encodable(c.opt),
        MessageDataV::Response(r) => value_encodable(r.data) && value_encodable(r.opt),
        MessageDataV::Status(st) => status_encodable(st),
        MessageDataV::Error(_id, st) => status_encodable(st),
    }
}

/// Every string of the triple fits its length field.
pub open spec fn status_encodable(st: MessageStatusV) -> bool {
    crate::amf::str_encodable(st.level) && crate::amf::str_encodable(st.code)
        && crate::amf::str_encodable(st.description)
}

/// Every object in the payload is in canonical sorted form.
pub open spec fn message_canonical(md: MessageDataV) -> bool {
    match md {
        MessageDataV::Command(c) => value_canonical(c.data) && values_canonical(c.opt),
        MessageDataV::Response(r) => value_canonical(r.data) && value_canonical(r.opt),
        MessageDataV::Status(st) => true,
        MessageDataV::Error(_id, st) => true,
    }
}

/// Value `i` of the sequence is encodable.
pub open spec fn values_encodable_at(vs: Seq<ValueV>, i: int) -> bool {
    value_encodable(vs[i])
}

/// A value sequence is encodable exactly when each value is.
pub proof fn lemma_values_encodable_index(vs: Seq<ValueV>)
    ensures
        values_encodable(vs) <==> (forall|i: int|
            0 <= i < vs.len() ==> #[trigger] values_encodable_at(vs, i)),
    decreases vs,
{
    if vs.len() > 0 {
        lemma_values_encodable_index(vs.drop_first());
        assert forall|i: int| 0 <= i < vs.len() && values_encodable(vs) implies #[trigger]
        values_encodable_at(vs, i) by {
            if i > 0 {
                assert(values_encodable_at(vs.drop_first(), i - 1));
                assert(vs.drop_first()[i - 1] == vs[i]);
            }
        }
        if forall|i: int| 0 <= i < vs.len() ==> #[trigger] values_encodable_at(vs, i) {
            assert forall|i: int| 0 <= i < vs.drop_first().len() implies #[trigger]
            values_encodable_at(vs.drop_first(), i) by {
                assert(values_encodable_at(vs, i + 1));
                assert(vs.drop_first()[i] == vs[i + 1]);
            }
            assert(values_encodable(vs.drop_first()));
            assert(values_encodable_at(vs, 0));
        }
    }
}

/// Appending one value extends the encoded prefix by that value's bytes.
proof fn lemma_encode_values_take_step(vs: Seq<ValueV>, i: int)
    requires
        0 <= i < vs.len(),
    ensures
        spec_encode_values(vs.take(i + 1)) == spec_encode_values(vs.take(i)) + spec_encode_value(
            vs[i],
        ),
    decreases i,
{
    if i == 0 {
        assert(vs.take(1).drop_first() =~= Seq::<ValueV>::empty());
        assert(vs.take(1)[0] == vs[0]);
        assert(vs.take(0) =~= Seq::<ValueV>::empty());
        assert(spec_encode_values(vs.take(1)) =~= spec_encode_values(vs.take(0))
            + spec_encode_value(vs[0]));
    } else {
        lemma_encode_values_take_step(vs.drop_first(), i - 1);
        assert(vs.take(i + 1).drop_first() =~= vs.drop_first().take(i));
        assert(vs.take(i).drop_first() =~= vs.drop_first().take(i - 1));
        assert(vs.take(i + 1)[0] == vs[0]);
        assert(vs.take(i)[0] == vs[0]);
        assert(vs.drop_first()[i - 1] == vs[i]);
        assert(spec_encode_values(vs.take(i + 1)) =~= spec_encode_values(vs.take(i))
            + spec_encode_value(vs[i]));
    }
}

/// The keys of the status object, in their sorted order, with their
/// lengths in range.
proof fn lemma_status_keys()
    ensures
        crate::amf::char_seq_lt("code"@, "description"@),
        crate::amf::char_seq_lt("description"@, "level"@),
        crate::amf::str_encodable("code"@),
        crate::amf::str_encodable("description"@),
        crate::amf::str_encodable("level"@),
        "level"@ != "code"@,
        "level"@ != "description"@,
        "code"@ != "description"@,
{
    reveal_strlit("code");
    reveal_strlit("description");
    reveal_strlit("level");
    crate::amf::lemma_encode_utf8_len("code"@);
    crate::amf::lemma_encode_utf8_len("description"@);
    crate::amf::lemma_encode_utf8_len("level"@);
}

/// The wire object of a status triple is canonical, and encodable when the
/// triple is.
pub proof fn lemma_status_entries_wf(st: MessageStatusV)
    ensures
        crate::amf::entries_canonical(status_entries(st)),
        crate::amf::entries_encodable(status_entries(st)) <==> status_encodable(st),
        value_canonical(ValueV::Object(status_entries(st))),
        value_encodable(ValueV::Object(status_entries(st))) <==> status_encodable(st),
{
    lemma_status_keys();
    reveal_with_fuel(crate::amf::entries_canonical, 5);
    reveal_with_fuel(crate::amf::entries_encodable, 5);
    let es = status_entries(st);
    let tail1 = seq![("description"@, ValueV::Utf8(st.description)), ("level"@, ValueV::Utf8(st.level))];
    let tail2 = seq![("level"@, ValueV::Utf8(st.level))];
    assert(es.drop_first() =~= tail1);
    assert(tail1.drop_first() =~= tail2);
    assert(tail2.drop_first() =~= Seq::<(Seq<char>, ValueV)>::empty());
    assert(es[0] == ("code"@, ValueV::Utf8(st.code)));
    assert(es[1] == ("description"@, ValueV::Utf8(st.description)));
    assert(tail1[0] == ("description"@, ValueV::Utf8(st.description)));
    assert(tail1[1] == ("level"@, ValueV::Utf8(st.level)));
    assert(tail2[0] == ("level"@, ValueV::Utf8(st.level)));
    assert(crate::amf::entries_canonical(tail2));
    assert(crate::amf::entries_canonical(tail1));
    assert(crate::amf::entries_canonical(es));
    if status_encodable(st) {
        assert(value_encodable(ValueV::Utf8(st.level)));
        assert(value_encodable(ValueV::Utf8(st.description)));
        assert(value_encodable(ValueV::Utf8(st.code)));
        assert(crate::amf::entries_encodable(tail2));
        assert(crate::amf::entries_encodable(tail1));
        assert(crate::amf::entries_encodable(es));
    }
    if crate::amf::entries_encodable(es) {
        assert(crate::amf::entries_encodable(tail1));
        assert(crate::amf::entries_encodable(tail2));
        assert(status_encodable(st));
    }
}

/// Builds the wire object of a status triple.
fn status_object(st: &MessageStatus) -> (r: Value)
    ensures
        r@ == ValueV::Object(status_entries(st@)),
{
    let mut obj = Value::Object(Vec::new());
    proof {
        assert(crate::amf::entries_view(Seq::<(String, Value)>::empty()) =~= Seq::<
            (Seq<char>, ValueV),
        >::empty());
        lemma_status_keys();
    }
    obj.object_insert("code".to_owned(), Value::Utf8(st.code.clone()));
    obj.object_insert("description".to_owned(), Value::Utf8(st.description.clone()));
    obj.object_insert("level".to_owned(), Value::Utf8(st.level.clone()));
    proof {
        let e0 = Seq::<(Seq<char>, ValueV)>::empty();
        let c = ("code"@, ValueV::Utf8(st.code@));
        let d = ("description"@, ValueV::Utf8(st.description@));
        let l = ("level"@, ValueV::Utf8(st.level@));
        assert(crate::amf::obj_insert(e0, c.0, c.1) =~= seq![c]);
        crate::amf::lemma_char_seq_lt_asym("code"@, "description"@);
        assert(seq![c][0] == c);
        assert(crate::amf::obj_insert(seq![c], d.0, d.1) =~= seq![c, d]) by {
            assert(seq![c].drop_first() =~= e0);
            assert(crate::amf::obj_insert(e0, d.0, d.1) =~= seq![d]);
            assert(seq![c] + seq![d] =~= seq![c, d]);
        }
        crate::amf::lemma_char_seq_lt_asym("description"@, "level"@);
        crate::amf::lemma_char_seq_lt_trans("code"@, "description"@, "level"@);
        crate::amf::lemma_char_seq_lt_asym("code"@, "level"@);
        assert(seq![c, d][0] == c);
        assert(seq![d][0] == d);
        assert(crate::amf::obj_insert(seq![c, d], l.0, l.1) =~= seq![c, d, l]) by {
            assert(seq![c, d].drop_first() =~= seq![d]);
            assert(seq![d].drop_first() =~= e0);
            assert(crate::amf::obj_insert(e0, l.0, l.1) =~= seq![l]);
            assert(crate::amf::obj_insert(seq![d], l.0, l.1) =~= seq![d] + seq![l]);
            assert(seq![d] + seq![l] =~= seq![d, l]);
            assert(seq![c] + seq![d, l] =~= seq![c, d, l]);
        }
        assert(status_entries(st@) =~= seq![c, d, l]);
    }
    obj
}

/// The reserved command names are short ASCII strings.
proof fn lemma_reserved_names()
    ensures
        crate::amf::str_encodable("_result"@),
        crate::amf::str_encodable("_error"@),
        crate::amf::str_encodable("onStatus"@),
{
    reveal_strlit("_result");
    reveal_strlit("_error");
    reveal_strlit("onStatus");
    crate::amf::lemma_encode_utf8_len("_result"@);
    crate::amf::lemma_encode_utf8_len("_error"@);
    crate::amf::lemma_encode_utf8_len("onStatus"@);
}

/// The reserved command names are pairwise distinct.
proof fn lemma_reserved_names_distinct()
    ensures
        "_result"@ != "_error"@,
        "onStatus"@ != "_result"@,
        "onStatus"@ != "_error"@,
{
    reveal_strlit("_result");
    reveal_strlit("_error");
    reveal_strlit("onStatus");
    assert("_result"@.len() == 7);
    assert("_error"@.len() == 6);
    assert("onStatus"@.len() == 8);
}

/// Appends a command payload: name, id, command object, trailing values.
#[verifier::loop_isolation(false)]
fn write_command(out: &mut Vec<u8>, c: &MessageCommand) -> (r: Result<(), EncodeError>)
    ensures
        r is Ok <==> message_encodable(MessageDataV::Command(c@)),
        r is Ok ==> final(out)@ == old(out)@ + spec_encode_message(MessageDataV::Command(c@)),
        old(out)@.is_prefix_of(final(out)@),
{
    let r1 = Value::write_string(out, c.name.as_str(), true);
    if let Err(e) = r1 {
        proof {
            assert(old(out)@.is_prefix_of(out@));
        }
        return Err(e);
    }
    Value::write_number(out, c.id, true);
    let r2 = c.data.write(out);
    if let Err(e) = r2 {
        proof {
            assert(!value_encodable(c.data@));
        }
        return Err(e);
    }
    let ghost vvs = values_view(c.opt@);
    let ghost base = out@;
    proof {
        lemma_values_view_index(c.opt@);
        assert(vvs.take(0) =~= Seq::<ValueV>::empty());
        assert(out@ =~= base + spec_encode_values(vvs.take(0)));
    }
    let n = c.opt.len();
    let mut i: usize = 0;
    while i < n
        invariant
            i <= n,
            n == c.opt.len(),
            out@ == base + spec_encode_values(vvs.take(i as int)),
            forall|j: int| 0 <= j < i ==> values_encodable_at(vvs, j),
            base.is_prefix_of(out@),
            old(out)@.is_prefix_of(out@),
        decreases n - i,
    {
        let r3 = c.opt[i].write(out);
        if let Err(e) = r3 {
            proof {
                lemma_values_encodable_index(vvs);
                assert(!values_encodable_at(vvs, i as int));
            }
            return Err(e);
        }
        proof {
            lemma_encode_values_take_step(vvs, i as int);
            assert(out@ =~= base + spec_encode_values(vvs.take(i as int + 1)));
        }
        i = i + 1;
    }
    proof {
        assert(vvs.take(n as int) =~= vvs);
        lemma_values_encodable_index(vvs);
        assert(final(out)@ =~= old(out)@ + spec_encode_message(MessageDataV::Command(c@)));
    }
    Ok(())
}

/// Appends a response payload under the name `_result`.
fn write_response(out: &mut Vec<u8>, resp: &MessageResponse) -> (r: Result<(), EncodeError>)
    ensures
        r is Ok <==> message_encodable(MessageDataV::Response(resp@)),
        r is Ok ==> final(out)@ == old(out)@ + spec_encode_message(MessageDataV::Response(resp@)),
        old(out)@.is_prefix_of(final(out)@),
{
    proof {
        lemma_reserved_names();
    }
    let r1 = Value::write_string(out, "_result", true);
    if let Err(_) = r1 {
        proof {
            assert(false);
        }
    }
    Value::write_number(out, resp.id, true);
    let r2 = resp.data.write(out);
    if let Err(e) = r2 {
        return Err(e);
    }
    let r3 = resp.opt.write(out);
    if let Err(e) = r3 {
        return Err(e);
    }
    proof {
        assert(final(out)@ =~= old(out)@ + spec_encode_message(MessageDataV::Response(resp@)));
    }
    Ok(())
}

/// Appends a status or error payload: the given name, transaction id 0, a
/// Null command object, and the triple as the trailing object.
fn write_status_payload(out: &mut Vec<u8>, name: &str, id: u64, st: &MessageStatus) -> (r: Result<
    (),
    EncodeError,
>)
    requires
        crate::amf::str_encodable(name@),
    ensures
        r is Ok <==> status_encodable(st@),
        r is Ok ==> final(out)@ == old(out)@ + spec_encode_value(ValueV::Utf8(name@))
            + spec_encode_value(ValueV::Number(id)) + spec_encode_value(ValueV::Null)
            + spec_encode_value(ValueV::Object(status_entries(st@))),
        old(out)@.is_prefix_of(final(out)@),
{
    proof {
        lemma_status_entries_wf(st@);
    }
    let r1 = Value::write_string(out, name, true);
    if let Err(_) = r1 {
        proof {
            assert(false);
        }
    }
    Value::write_number(out, id, true);
    let null_value = Value::Null;
    let r2 = null_value.write(out);
    if let Err(_) = r2 {
        proof {
            assert(false);
        }
    }
    let obj = status_object(st);
    let r3 = obj.write(out);
    if let Err(e) = r3 {
        return Err(e);
    }
    proof {
        assert(final(out)@ =~= old(out)@ + spec_encode_value(ValueV::Utf8(name@))
            + spec_encode_value(ValueV::Number(id)) + spec_encode_value(ValueV::Null)
            + spec_encode_value(ValueV::Object(status_entries(st@))));
    }
    Ok(())
}

impl Message {
    /// Appends the wire form of a message payload: the AMF0 sequence that a
    /// command message of type 20 carries. Fails only when a string exceeds
    /// its length field, in which case the output may hold a partial prefix.
    pub fn write(out: &mut Vec<u8>, msg: &Message) -> (r: Result<(), EncodeError>)
        ensures
            r is Ok <==> message_encodable(msg@.data),
            r is Ok ==> final(out)@ == old(out)@ + spec_encode_message(msg@.data),
            old(out)@.is_prefix_of(final(out)@),
    {
        match &msg.data {
            MessageData::Command(c) => write_command(out, c),
            MessageData::Response(resp) => write_response(out, resp),
            MessageData::Status(st) => {
                proof {
                    lemma_reserved_names();
                }
                let r = write_status_payload(out, "onStatus", 0u64, st);
                proof {
                    if r is Ok {
                        assert(final(out)@ =~= old(out)@ + spec_encode_message(msg@.data));
                    }
                }
                r
            },
            MessageData::Error(id, me) => {
                proof {
                    lemma_reserved_names();
                }
                let r = write_status_payload(out, "_error", *id, &me.0);
                proof {
                    if r is Ok {
                        assert(final(out)@ =~= old(out)@ + spec_encode_message(msg@.data));
                    }
                }
                r
            },
        }
    }
}

/// The status read back from a triple's wire object is the triple.
proof fn lemma_status_entries_lookup(st: MessageStatusV)
    ensures
        spec_status_of_entries(status_entries(st)) == st,
{
    lemma_status_keys();
    let es = status_entries(st);
    let c = ("code"@, ValueV::Utf8(st.code));
    let d = ("description"@, ValueV::Utf8(st.description));
    let l = ("level"@, ValueV::Utf8(st.level));
    let tail1 = seq![d, l];
    let tail2 = seq![l];
    assert(es.drop_first() =~= tail1);
    assert(tail1.drop_first() =~= tail2);
    assert(es[0] == c);
    assert(tail1[0] == d);
    assert(tail2[0] == l);
    assert(obj_lookup(es, "code"@) == Option::Some(ValueV::Utf8(st.code)));
    assert(obj_lookup(es, "description"@) == obj_lookup(tail1, "description"@));
    assert(obj_lookup(tail1, "description"@) == Option::Some(ValueV::Utf8(st.description)));
    assert(obj_lookup(es, "level"@) == obj_lookup(tail1, "level"@));
    assert(obj_lookup(tail1, "level"@) == obj_lookup(tail2, "level"@));
    assert(obj_lookup(tail2, "level"@) == Option::Some(ValueV::Utf8(st.level)));
}

/// An error while decoding a command message payload.
#[derive(Debug, Clone, Copy, PartialEq, Eq)]
pub enum MessageDecodeError {
    /// An AMF0 value in the payload failed to decode.
    Codec(DecodeError),
    /// The first value of the payload is not a string.
    BadCommandName,
    /// The second value of the payload is not a number.
    BadTransactionId,
    /// A message type this layer does not interpret.
    UnsupportedType { message_type: u8 },
}

/// Decoding of consecutive values until the end of the input. The clamp and
/// the length guard keep the definition total; a value decode always
/// consumes between one byte and the whole input.
pub open spec fn spec_decode_opt_values(b: Seq<u8>) -> Result<Seq<ValueV>, DecodeError>
    decreases b.len(), 2int,
{
    if b.len() == 0 {
        Result::Ok(Seq::empty())
    } else {
        match spec_decode_value(b) {
            Result::Err(e) => Result::Err(e),
            Result::Ok((v, m0)) => {
                let m = if m0 < 1 {
                    1
                } else {
                    m0
                };
                if b.len() < m {
                    Result::Err(DecodeError::Truncated)
                } else {
                    match spec_decode_opt_values(b.skip(m)) {
                        Result::Err(e) => Result::Err(e),
                        Result::Ok(rest) => Result::Ok(seq![v] + rest),
                    }
                }
            },
        }
    }
}

/// The status triple read from a trailing value: its object fields, or the
/// empty triple when the value is no object.
pub open spec fn spec_status_of_opt(v: ValueV) -> MessageStatusV {
    if v is Object {
        spec_status_of_entries(v->Object_0)
    } else {
        MessageStatusV { level: Seq::empty(), code: Seq::empty(), description: Seq::empty() }
    }
}

/// Decoding of a command message payload: name, transaction id and command
/// object, then the dispatch on the name. `_result` takes one trailing
/// value as the response's `opt`; `_error` and `onStatus` read their status
/// triple from the trailing object; any other name collects all trailing
/// values.
pub open spec fn spec_decode_message(b: Seq<u8>) -> Result<MessageDataV, MessageDecodeError> {
    match spec_decode_value(b) {
        Result::Err(e) => Result::Err(MessageDecodeError::Codec(e)),
        Result::Ok((namev, n1)) => {
            if !(namev is Utf8) {
                Result::Err(MessageDecodeError::BadCommandName)
            } else {
                let name = namev->Utf8_0;
                match spec_decode_value(b.skip(n1)) {
                    Result::Err(e) => Result::Err(MessageDecodeError::Codec(e)),
                    Result::Ok((idv, n2)) => {
                        if !(idv is Number) {
                            Result::Err(MessageDecodeError::BadTransactionId)
                        } else {
                            let id = idv->Number_0;
                            match spec_decode_value(b.skip(n1 + n2)) {
                                Result::Err(e) => Result::Err(MessageDecodeError::Codec(e)),
                                Result::Ok((datav, n3)) => {
                                    let rest = b.skip(n1 + n2 + n3);
                                    if name == "_result"@ {
                                        match spec_decode_value(rest) {
                                            Result::Err(e) => Result::Err(
                                                MessageDecodeError::Codec(e),
                                            ),
                                            Result::Ok((optv, _n4)) => Result::Ok(
                                                MessageDataV::Response(
                                                    MessageResponseV { id, data: datav, opt: optv },
                                                ),
                                            ),
                                        }
                                    } else if name == "_error"@ {
                                        match spec_decode_value(rest) {
                                            Result::Err(e) => Result::Err(
                                                MessageDecodeError::Codec(e),
                                            ),
                                            Result::Ok((optv, _n4)) => Result::Ok(
                                                MessageDataV::Error(id, spec_status_of_opt(optv)),
                                            ),
                                        }
                                    } else if name == "onStatus"@ {
                                        match spec_decode_value(rest) {
                                            Result::Err(e) => Result::Err(
                                                MessageDecodeError::Codec(e),
                                            ),
                                            Result::Ok((optv, _n4)) => Result::Ok(
                                                MessageDataV::Status(spec_status_of_opt(optv)),
                                            ),
                                        }
                                    } else {
                                        match spec_decode_opt_values(rest) {
                                            Result::Err(e) => Result::Err(
                                                MessageDecodeError::Codec(e),
                                            ),
                                            Result::Ok(vs) => Result::Ok(
                                                MessageDataV::Command(
                                                    MessageCommandV { name, id, data: datav, opt: vs },
                                                ),
                                            ),
                                        }
                                    }
                                },
                            }
                        }
                    },
                }
            }
        },
    }
}

/// Reads the status triple out of a decoded trailing value.
fn status_of_opt(v: &Value) -> (r: MessageStatus)
    ensures
        r@ == spec_status_of_opt(v@),
{
    match v {
        Value::Object(_) => {
            let st = Status::from_object(v);
            MessageStatus { level: st.level, code: st.code, description: st.description }
        },
        _ => MessageStatus {
            level: String::new(),
            code: String::new(),
            description: String::new(),
        },
    }
}

/// Reads all values from `pos` to the end of the input.
#[verifier::loop_isolation(false)]
fn read_opt_values(bytes: &Vec<u8>, pos: usize) -> (r: Result<Vec<Value>, DecodeError>)
    requires
        pos <= bytes.len(),
    ensures
        ({
            let sr = spec_decode_opt_values(bytes@.skip(pos as int));
            match r {
                Result::Ok(vs) => sr matches Ok(vv) && values_view(vs@) == vv,
                Result::Err(e) => sr matches Err(e2) && e2 == e,
            }
        }),
{
    let mut acc: Vec<Value> = Vec::new();
    let mut cur: usize = pos;
    proof {
        assert(values_view(acc@) =~= Seq::<ValueV>::empty());
    }
    while cur < bytes.len()
        invariant
            pos <= cur <= bytes.len(),
            ({
                let whole = spec_decode_opt_values(bytes@.skip(pos as int));
                let rest = spec_decode_opt_values(bytes@.skip(cur as int));
                match rest {
                    Result::Ok(vv) => whole == Result::<Seq<ValueV>, DecodeError>::Ok(
                        values_view(acc@) + vv,
                    ),
                    Result::Err(e) => whole == Result::<Seq<ValueV>, DecodeError>::Err(e),
                }
            }),
        decreases bytes.len() - cur,
    {
        let ghost bc = bytes@.skip(cur as int);
        let vr = Value::read(bytes, cur);
        let (val, vend) = match vr {
            Ok(p) => p,
            Err(e) => {
                return Err(e);
            },
        };
        proof {
            crate::amf::lemma_decode_value_consumes(bc);
            assert(bc.skip(vend - cur) =~= bytes@.skip(vend as int));
            let ghost old_acc = values_view(acc@);
            lemma_values_view_index(acc@);
            lemma_values_view_push(acc@, val);
            assert forall|vv: Seq<ValueV>| true implies old_acc + (seq![val@] + vv) =~= (old_acc
                + seq![val@]) + vv by {}
        }
        acc.push(val);
        cur = vend;
    }
    proof {
        assert(bytes@.skip(bytes@.len() as int) =~= Seq::<u8>::empty());
        assert(values_view(acc@) + Seq::<ValueV>::empty() =~= values_view(acc@));
    }
    Ok(acc)
}

/// Pushing a value extends the model sequence by its model.
proof fn lemma_values_view_push(vs: Seq<Value>, v: Value)
    ensures
        values_view(vs.push(v)) == values_view(vs) + seq![value_view(v)],
    decreases vs,
{
    lemma_values_view_index(vs);
    lemma_values_view_index(vs.push(v));
    assert forall|i: int| 0 <= i < vs.len() + 1 implies values_view(vs.push(v))[i] == (
    values_view(vs) + seq![value_view(v)])[i] by {
        if i < vs.len() {
            assert(vs.push(v)[i] == vs[i]);
        } else {
            assert(vs.push(v)[i] == v);
        }
    }
    assert(values_view(vs.push(v)) =~= values_view(vs) + seq![value_view(v)]);
}

impl Message {
    /// Reads the typed payload of a message of the given type from the full
    /// payload bytes. Only AMF0 command messages (type 20) are interpreted;
    /// any other type is refused as unsupported. The result is exactly what
    /// the decode specification gives, errors included.
    pub fn read(bytes: &Vec<u8>, chunk_type: u8) -> (r: Result<MessageData, MessageDecodeError>)
        ensures
            chunk_type == COMMAND_MESSAGE_TYPE ==> ({
                let sr = spec_decode_message(bytes@);
                match r {
                    Result::Ok(md) => sr matches Ok(m) && m == md@,
                    Result::Err(e) => sr matches Err(e2) && e2 == e,
                }
            }),
            chunk_type != COMMAND_MESSAGE_TYPE ==> r == Result::<
                MessageData,
                MessageDecodeError,
            >::Err(MessageDecodeError::UnsupportedType { message_type: chunk_type }),
    {
        if chunk_type != COMMAND_MESSAGE_TYPE {
            return Err(MessageDecodeError::UnsupportedType { message_type: chunk_type });
        }
        Message::read_command(bytes)
    }

    /// Reads a command payload: name, transaction id, command object, and
    /// the dispatch on the name.
    fn read_command(bytes: &Vec<u8>) -> (r: Result<MessageData, MessageDecodeError>)
        ensures
            ({
                let sr = spec_decode_message(bytes@);
                match r {
                    Result::Ok(md) => sr matches Ok(m) && m == md@,
                    Result::Err(e) => sr matches Err(e2) && e2 == e,
                }
            }),
    {
        proof {
            assert(bytes@.skip(0) =~= bytes@);
        }
        let (namev, p1) = match Value::read(bytes, 0) {
            Ok(p) => p,
            Err(e) => {
                return Err(MessageDecodeError::Codec(e));
            },
        };
        let name = match namev {
            Value::Utf8(s) => s,
            _ => {
                return Err(MessageDecodeError::BadCommandName);
            },
        };
        let (idv, p2) = match Value::read(bytes, p1) {
            Ok(p) => p,
            Err(e) => {
                return Err(MessageDecodeError::Codec(e));
            },
        };
        let id = match idv {
            Value::Number(bits) => bits,
            _ => {
                return Err(MessageDecodeError::BadTransactionId);
            },
        };
        let (data, p3) = match Value::read(bytes, p2) {
            Ok(p) => p,
            Err(e) => {
                return Err(MessageDecodeError::Codec(e));
            },
        };
        proof {
            let b = bytes@;
            let n1 = p1 as int;
            assert(b.skip(n1) =~= bytes@.skip(p1 as int));
            assert(b.skip(n1 + (p2 - p1)) =~= bytes@.skip(p2 as int));
            assert(b.skip(n1 + (p2 - p1) + (p3 - p2)) =~= bytes@.skip(p3 as int));
        }
        let is_result = matches_literal(name.as_str(), "_result");
        let is_error = matches_literal(name.as_str(), "_error");
        let is_status = matches_literal(name.as_str(), "onStatus");
        if is_result || is_error {
            let (optv, _p4) = match Value::read(bytes, p3) {
                Ok(p) => p,
                Err(e) => {
                    return Err(MessageDecodeError::Codec(e));
                },
            };
            if is_result {
                Ok(
                    MessageData::Response(
                        MessageResponse { id, data, opt: optv },
                    ),
                )
            } else {
                Ok(MessageData::Error(id, MessageError(status_of_opt(&optv))))
            }
        } else if is_status {
            let (optv, _p4) = match Value::read(bytes, p3) {
                Ok(p) => p,
                Err(e) => {
                    return Err(MessageDecodeError::Codec(e));
                },
            };
            Ok(MessageData::Status(status_of_opt(&optv)))
        } else {
            let opt = match read_opt_values(bytes, p3) {
                Ok(vs) => vs,
                Err(e) => {
                    return Err(MessageDecodeError::Codec(e));
                },
            };
            Ok(MessageData::Command(MessageCommand { name, id, data, opt }))
        }
    }
}

/// Whether a status notification carries the given code.
pub fn code_matches(status: &MessageStatus, code: &str) -> (r: bool)
    ensures
        r <==> status@.code == code@,
{
    matches_literal(status.code.as_str(), code)
}

/// Whether a string equals a literal, decided through the key order.
fn matches_literal(a: &str, b: &str) -> (r: bool)
    ensures
        r <==> a@ == b@,
{
    match str_compare(a, b) {
        KeyOrder::Equal => true,
        KeyOrder::Less => {
            proof {
                crate::amf::lemma_char_seq_lt_asym(a@, b@);
            }
            false
        },
        KeyOrder::Greater => {
            proof {
                crate::amf::lemma_char_seq_lt_asym(b@, a@);
            }
            false
        },
    }
}

impl Message {
    /// The status carried by a response whose trailing value is an object:
    /// its `level`, `code`, `description` and object-encoding fields.
    pub fn get_status(&self) -> (r: Option<Status>)
        ensures
            match r {
                Option::Some(st) => self@.data matches MessageDataV::Response(resp)
                    && resp.opt is Object && st@.level == spec_status_field(
                    resp.opt->Object_0,
                    "level"@,
                ) && st@.code == spec_status_field(resp.opt->Object_0, "code"@) && st@.description
                    == spec_status_field(resp.opt->Object_0, "description"@) && st@.encoding
                    == spec_status_encoding(resp.opt->Object_0),
                Option::None => !(self@.data matches MessageDataV::Response(resp)
                    && resp.opt is Object),
            },
    {
        match &self.data {
            MessageData::Response(response) => {
                match &response.opt {
                    Value::Object(_) => Option::Some(Status::from_object(&response.opt)),
                    _ => Option::None,
                }
            },
            _ => Option::None,
        }
    }
}


/// Decoding the encoding of a canonical, encodable value list yields the
/// values back.
proof fn lemma_decode_encode_opt_values(vs: Seq<ValueV>)
    requires
        values_canonical(vs),
        values_encodable(vs),
    ensures
        spec_decode_opt_values(spec_encode_values(vs)) == Result::<Seq<ValueV>, DecodeError>::Ok(
            vs,
        ),
    decreases vs,
{
    let b = spec_encode_values(vs);
    if vs.len() == 0 {
        assert(b =~= Seq::<u8>::empty());
        assert(vs =~= Seq::<ValueV>::empty());
    } else {
        let e0 = spec_encode_value(vs[0]);
        let rest = spec_encode_values(vs.drop_first());
        assert(b =~= e0 + rest);
        crate::amf::lemma_decode_encode_value(vs[0], rest);
        let m = e0.len() as int;
        assert(m >= 1) by {
            crate::amf::lemma_encode_value_head(vs[0]);
        }
        assert(b.len() >= m);
        assert(b.skip(m) =~= rest);
        lemma_decode_encode_opt_values(vs.drop_first());
        assert(seq![vs[0]] + vs.drop_first() =~= vs);
    }
}

/// A command payload may round-trip only under a name that the decoder does
/// not treat as a response or status.
pub open spec fn message_round_trippable(md: MessageDataV) -> bool {
    match md {
        MessageDataV::Command(c) => c.name != "_result"@ && c.name != "_error"@ && c.name
            != "onStatus"@,
        _ => true,
    }
}

/// Round trip of a command payload.
#[verifier::rlimit(80)]
proof fn lemma_command_round_trip(c: MessageCommandV)
    requires
        message_canonical(MessageDataV::Command(c)),
        message_encodable(MessageDataV::Command(c)),
        message_round_trippable(MessageDataV::Command(c)),
    ensures
        spec_decode_message(spec_encode_message(MessageDataV::Command(c))) == Result::<
            MessageDataV,
            MessageDecodeError,
        >::Ok(MessageDataV::Command(c)),
{
    let b = spec_encode_message(MessageDataV::Command(c));
    let e1 = spec_encode_value(ValueV::Utf8(c.name));
    let e2 = spec_encode_value(ValueV::Number(c.id));
    let e3 = spec_encode_value(c.data);
    let e4 = spec_encode_values(c.opt);
    assert(b =~= e1 + (e2 + e3 + e4));
    crate::amf::lemma_decode_encode_value(ValueV::Utf8(c.name), e2 + e3 + e4);
    assert(b.skip(e1.len() as int) =~= e2 + (e3 + e4));
    crate::amf::lemma_decode_encode_value(ValueV::Number(c.id), e3 + e4);
    assert(b.skip(e1.len() + e2.len() as int) =~= e3 + e4);
    crate::amf::lemma_decode_encode_value(c.data, e4);
    assert(b.skip(e1.len() + e2.len() + e3.len() as int) =~= e4);
    lemma_decode_encode_opt_values(c.opt);
}

/// Round trip of a response payload.
#[verifier::rlimit(80)]
proof fn lemma_response_round_trip(r: MessageResponseV)
    requires
        message_canonical(MessageDataV::Response(r)),
        message_encodable(MessageDataV::Response(r)),
    ensures
        spec_decode_message(spec_encode_message(MessageDataV::Response(r))) == Result::<
            MessageDataV,
            MessageDecodeError,
        >::Ok(MessageDataV::Response(r)),
{
    lemma_reserved_names();
    let b = spec_encode_message(MessageDataV::Response(r));
    let e1 = spec_encode_value(ValueV::Utf8("_result"@));
    let e2 = spec_encode_value(ValueV::Number(r.id));
    let e3 = spec_encode_value(r.data);
    let e4 = spec_encode_value(r.opt);
    assert(b =~= e1 + (e2 + e3 + e4));
    crate::amf::lemma_decode_encode_value(ValueV::Utf8("_result"@), e2 + e3 + e4);
    assert(b.skip(e1.len() as int) =~= e2 + (e3 + e4));
    crate::amf::lemma_decode_encode_value(ValueV::Number(r.id), e3 + e4);
    assert(b.skip(e1.len() + e2.len() as int) =~= e3 + e4);
    crate::amf::lemma_decode_encode_value(r.data, e4);
    assert(b.skip(e1.len() + e2.len() + e3.len() as int) =~= e4);
    assert(e4 =~= e4 + Seq::<u8>::empty());
    crate::amf::lemma_decode_encode_value(r.opt, Seq::empty());
}

/// Round trip of a status or error payload under its reserved name.
#[verifier::rlimit(80)]
proof fn lemma_status_payload_round_trip(name: Seq<char>, id: u64, st: MessageStatusV)
    requires
        status_encodable(st),
        crate::amf::str_encodable(name),
        name == "onStatus"@ || name == "_error"@,
    ensures
        ({
            let b = spec_encode_value(ValueV::Utf8(name)) + spec_encode_value(ValueV::Number(id))
                + spec_encode_value(ValueV::Null) + spec_encode_value(
                ValueV::Object(status_entries(st)),
            );
            spec_decode_message(b) == (if name == "onStatus"@ {
                Result::<MessageDataV, MessageDecodeError>::Ok(MessageDataV::Status(st))
            } else {
                Result::<MessageDataV, MessageDecodeError>::Ok(MessageDataV::Error(id, st))
            })
        }),
{
    lemma_reserved_names();
    lemma_reserved_names_distinct();
    lemma_status_entries_wf(st);
    lemma_status_entries_lookup(st);
    let obj = ValueV::Object(status_entries(st));
    let e1 = spec_encode_value(ValueV::Utf8(name));
    let e2 = spec_encode_value(ValueV::Number(id));
    let e3 = spec_encode_value(ValueV::Null);
    let e4 = spec_encode_value(obj);
    let b = e1 + e2 + e3 + e4;
    assert(b =~= e1 + (e2 + e3 + e4));
    crate::amf::lemma_decode_encode_value(ValueV::Utf8(name), e2 + e3 + e4);
    assert(b.skip(e1.len() as int) =~= e2 + (e3 + e4));
    crate::amf::lemma_decode_encode_value(ValueV::Number(id), e3 + e4);
    assert(b.skip(e1.len() + e2.len() as int) =~= e3 + e4);
    crate::amf::lemma_decode_encode_value(ValueV::Null, e4);
    assert(b.skip(e1.len() + e2.len() + e3.len() as int) =~= e4);
    assert(e4 =~= e4 + Seq::<u8>::empty());
    crate::amf::lemma_decode_encode_value(obj, Seq::empty());
    assert(spec_status_of_opt(obj) == st);
}

/// Round-trip law: decoding the encoding of a message payload yields the
/// payload back, whenever its objects are canonical, its strings fit their
/// length fields, and a command's name is none of the reserved response
/// names.
pub proof fn lemma_message_round_trip(md: MessageDataV)
    requires
        message_canonical(md),
        message_encodable(md),
        message_round_trippable(md),
    ensures
        spec_decode_message(spec_encode_message(md)) == Result::<
            MessageDataV,
            MessageDecodeError,
        >::Ok(md),
{
    match md {
        MessageDataV::Command(c) => {
            lemma_command_round_trip(c);
        },
        MessageDataV::Response(r) => {
            lemma_response_round_trip(r);
        },
        MessageDataV::Status(st) => {
            lemma_reserved_names();
            lemma_status_payload_round_trip("onStatus"@, 0u64, st);
        },
        MessageDataV::Error(id, st) => {
            lemma_reserved_names();
            lemma_status_payload_round_trip("_error"@, id, st);
        },
    }
}

} // verus!
