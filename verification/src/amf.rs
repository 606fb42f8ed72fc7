//! AMF0 value codec: tagged, self-describing binary serialization of the
//! values carried by RTMP command messages.
//!
//! A value is one of Number, Boolean, String, Object, Null; an ECMA array on
//! the wire decodes as an Object (its count field is read and ignored).
//! Numbers are IEEE-754 doubles on the wire; this crate stores and transports
//! their eight big-endian bytes as a `u64` bit pattern and never performs
//! floating-point arithmetic on them.
//!
//! Objects are kept in a canonical form: entries sorted strictly by key.
//! Encoding therefore iterates keys in sorted order (reproducible bytes) and
//! decoding folds the wire entries into the canonical form, later duplicates
//! overwriting earlier ones, so object equality is insensitive to wire order.

use vstd::prelude::*;
use vstd::string::StrSliceExecFns;
use vstd::utf8::decode_utf8;
use vstd::utf8::encode_utf8;
use vstd::utf8::valid_utf8;

use crate::wire::push_u16_be;
use crate::wire::push_u64_be;
use crate::wire::spec_u16_be;
use crate::wire::spec_u64_be;

verus! {

/// Wire marker for a Number value.
pub const MARKER_NUMBER: u8 = 0;

/// Wire marker for a Boolean value.
pub const MARKER_BOOLEAN: u8 = 1;

/// Wire marker for a String value.
pub const MARKER_STRING: u8 = 2;

/// Wire marker for an Object value.
pub const MARKER_OBJECT: u8 = 3;

/// Wire marker for a Null value.
pub const MARKER_NULL: u8 = 5;

/// Wire marker for an ECMA array, decoded as an Object.
pub const MARKER_ECMA_ARRAY: u8 = 8;

/// Wire marker closing an Object's entry list.
pub const MARKER_OBJECT_END: u8 = 9;

/// An AMF0 value.
///
/// `Number` holds the IEEE-754 bit pattern of the double as transported on
/// the wire. `Object` holds its entries sorted strictly by key; use
/// [`Value::object_insert`] to build objects so the invariant is kept.
#[derive(Debug, PartialEq)]
pub enum Value {
    Number(u64),
    Boolean(bool),
    Utf8(String),
    Object(Vec<(String, Value)>),
    Null,
}

/// Mathematical model of an AMF0 value: strings become character sequences
/// and object entry lists become sequences.
#[verifier::ext_equal]
pub enum ValueV {
    Number(u64),
    Boolean(bool),
    Utf8(Seq<char>),
    Object(Seq<(Seq<char>, ValueV)>),
    Null,
}

/// The model of a value.
pub open spec fn value_view(v: Value) -> ValueV
    decreases v,
{
    match v {
        Value::Number(bits) => ValueV::Number(bits),
        Value::Boolean(b) => ValueV::Boolean(b),
        Value::Utf8(s) => ValueV::Utf8(s@),
        Value::Object(es) => ValueV::Object(entries_view(es@)),
        Value::Null => ValueV::Null,
    }
}

/// The model of an object entry list.
pub open spec fn entries_view(es: Seq<(String, Value)>) -> Seq<(Seq<char>, ValueV)>
    decreases es,
{
    if es.len() == 0 {
        Seq::empty()
    } else {
        seq![(es[0].0@, value_view(es[0].1))] + entries_view(es.drop_first())
    }
}

impl View for Value {
    type V = ValueV;

    open spec fn view(&self) -> ValueV {
        value_view(*self)
    }
}

/// The model of an entry list indexes pointwise into the entries.
pub proof fn lemma_entries_view_index(es: Seq<(String, Value)>)
    ensures
        entries_view(es).len() == es.len(),
        forall|i: int|
            0 <= i < es.len() ==> #[trigger] entries_view(es)[i] == (es[i].0@, value_view(es[i].1)),
    decreases es,
{
    if es.len() > 0 {
        lemma_entries_view_index(es.drop_first());
    }
}

/// Lexicographic order on character sequences by Unicode scalar value; this
/// is the order of Rust's `str` comparison.
pub open spec fn char_seq_lt(a: Seq<char>, b: Seq<char>) -> bool
    decreases a.len(),
{
    if b.len() == 0 {
        false
    } else if a.len() == 0 {
        true
    } else if (a[0] as u32) < (b[0] as u32) {
        true
    } else if (b[0] as u32) < (a[0] as u32) {
        false
    } else {
        char_seq_lt(a.drop_first(), b.drop_first())
    }
}

/// A string fits the two-byte length field of the wire format.
pub open spec fn str_encodable(s: Seq<char>) -> bool {
    encode_utf8(s).len() <= 0xFFFF
}

/// Wire form of a string body: two-byte big-endian UTF-8 byte length, then
/// the UTF-8 bytes (no marker).
pub open spec fn spec_str_bytes(s: Seq<char>) -> Seq<u8> {
    spec_u16_be(encode_utf8(s).len() as u16) + encode_utf8(s)
}

/// Wire form of a value, marker included.
pub open spec fn spec_encode_value(v: ValueV) -> Seq<u8>
    decreases v,
{
    match v {
        ValueV::Number(bits) => seq![MARKER_NUMBER] + spec_u64_be(bits),
        ValueV::Boolean(b) => seq![MARKER_BOOLEAN, if b { 1u8 } else { 0u8 }],
        ValueV::Utf8(s) => seq![MARKER_STRING] + spec_str_bytes(s),
        ValueV::Object(es) => seq![MARKER_OBJECT] + spec_encode_entries(es) + seq![
            0u8,
            0u8,
            MARKER_OBJECT_END,
        ],
        ValueV::Null => seq![MARKER_NULL],
    }
}

/// Wire form of an object's entries: key (string body) then value, in order.
pub open spec fn spec_encode_entries(es: Seq<(Seq<char>, ValueV)>) -> Seq<u8>
    decreases es,
{
    if es.len() == 0 {
        Seq::empty()
    } else {
        spec_str_bytes(es[0].0) + spec_encode_value(es[0].1) + spec_encode_entries(es.drop_first())
    }
}

/// Every string in the value fits its length field.
pub open spec fn value_encodable(v: ValueV) -> bool
    decreases v,
{
    match v {
        ValueV::Utf8(s) => str_encodable(s),
        ValueV::Object(es) => entries_encodable(es),
        _ => true,
    }
}

/// Every key and value in the entry list is encodable.
pub open spec fn entries_encodable(es: Seq<(Seq<char>, ValueV)>) -> bool
    decreases es,
{
    if es.len() == 0 {
        true
    } else {
        str_encodable(es[0].0) && value_encodable(es[0].1) && entries_encodable(es.drop_first())
    }
}

/// Objects throughout the value have their entries sorted strictly by key.
pub open spec fn value_canonical(v: ValueV) -> bool
    decreases v,
{
    match v {
        ValueV::Object(es) => entries_canonical(es),
        _ => true,
    }
}

/// Keys strictly ascending and every entry value canonical.
pub open spec fn entries_canonical(es: Seq<(Seq<char>, ValueV)>) -> bool
    decreases es,
{
    if es.len() == 0 {
        true
    } else {
        value_canonical(es[0].1) && (es.len() == 1 || char_seq_lt(es[0].0, es[1].0))
            && entries_canonical(es.drop_first())
    }
}

/// An error while encoding a value.
#[derive(Debug, Clone, Copy, PartialEq, Eq)]
pub enum EncodeError {
    /// A string's UTF-8 form exceeds the 65535-byte limit of the length field.
    StringTooLong,
}

/// An error while decoding a value, as the decode contract reports it.
#[derive(Debug, Clone, Copy, PartialEq, Eq)]
pub enum DecodeError {
    /// A marker byte that is not a supported value type.
    UnknownMarker { byte: u8 },
    /// The input ended inside a value.
    Truncated,
    /// A string's bytes are not valid UTF-8.
    InvalidUtf8,
}

impl Value {
    /// Appends the wire form of a string body (and optionally the String
    /// marker); fails, appending nothing, when the string is too long.
    pub fn write_string(out: &mut Vec<u8>, s: &str, write_marker: bool) -> (r: Result<
        (),
        EncodeError,
    >)
        ensures
            r is Ok <==> str_encodable(s@),
            r is Ok ==> final(out)@ == old(out)@ + (if write_marker {
                seq![MARKER_STRING]
            } else {
                Seq::<u8>::empty()
            }) + spec_str_bytes(s@),
            r is Err ==> final(out)@ == old(out)@,
    {
        let bytes = s.as_bytes_vec();
        if bytes.len() > 0xFFFF {
            return Err(EncodeError::StringTooLong);
        }
        if write_marker {
            out.push(MARKER_STRING);
        }
        push_u16_be(out, bytes.len() as u16);
        let mut i: usize = 0;
        let n = bytes.len();
        while i < n
            invariant
                i <= n,
                n == bytes.len(),
                out@ == old(out)@ + (if write_marker {
                    seq![MARKER_STRING]
                } else {
                    Seq::<u8>::empty()
                }) + spec_u16_be(n as u16) + bytes@.subrange(0, i as int),
            decreases n - i,
        {
            out.push(bytes[i]);
            proof {
                assert(bytes@.subrange(0, i as int).push(bytes@[i as int]) =~= bytes@.subrange(
                    0,
                    i as int + 1,
                ));
            }
            i = i + 1;
        }
        proof {
            assert(bytes@.subrange(0, n as int) =~= bytes@);
            assert(final(out)@ =~= old(out)@ + (if write_marker {
                seq![MARKER_STRING]
            } else {
                Seq::<u8>::empty()
            }) + spec_str_bytes(s@));
        }
        Ok(())
    }

    /// Appends the wire form of a Number from its IEEE-754 bits (and
    /// optionally the Number marker).
    pub fn write_number(out: &mut Vec<u8>, bits: u64, write_marker: bool)
        ensures
            final(out)@ == old(out)@ + (if write_marker {
                seq![MARKER_NUMBER]
            } else {
                Seq::<u8>::empty()
            }) + spec_u64_be(bits),
    {
        if write_marker {
            out.push(MARKER_NUMBER);
        }
        push_u64_be(out, bits);
        proof {
            assert(final(out)@ =~= old(out)@ + (if write_marker {
                seq![MARKER_NUMBER]
            } else {
                Seq::<u8>::empty()
            }) + spec_u64_be(bits));
        }
    }

    /// Appends the wire form of this value. On failure (a string longer than
    /// its length field admits) the output may hold a partial prefix of the
    /// value; what was already there is untouched.
    #[verifier::loop_isolation(false)]
    pub fn write(&self, out: &mut Vec<u8>) -> (r: Result<(), EncodeError>)
        ensures
            r is Ok <==> value_encodable(self@),
            r is Ok ==> final(out)@ == old(out)@ + spec_encode_value(self@),
            old(out)@.is_prefix_of(final(out)@),
        decreases self,
    {
        match self {
            Value::Number(bits) => {
                Value::write_number(out, *bits, true);
                Ok(())
            },
            Value::Boolean(b) => {
                out.push(MARKER_BOOLEAN);
                out.push(if *b {
                    1u8
                } else {
                    0u8
                });
                proof {
                    assert(final(out)@ =~= old(out)@ + spec_encode_value(self@));
                }
                Ok(())
            },
            Value::Utf8(s) => {
                let r = Value::write_string(out, s.as_str(), true);
                proof {
                    if str_encodable(s@) {
                        assert(final(out)@ =~= old(out)@ + spec_encode_value(self@));
                    }
                }
                r
            },
            Value::Object(es) => {
                out.push(MARKER_OBJECT);
                let n = es.len();
                let mut i: usize = 0;
                proof {
                    lemma_entries_view_index(es@);
                    assert(entries_view(es@).take(0) =~= Seq::<(Seq<char>, ValueV)>::empty());
                    assert(out@ =~= old(out)@ + seq![MARKER_OBJECT] + spec_encode_entries(
                        entries_view(es@).take(0),
                    ));
                }
                while i < n
                    invariant
                        i <= n,
                        n == es.len(),
                        entries_view(es@).len() == n,
                        forall|j: int|
                            0 <= j < n ==> #[trigger] entries_view(es@)[j] == (
                            es@[j].0@,
                            value_view(es@[j].1),
                            ),
                        out@ == old(out)@ + seq![MARKER_OBJECT] + spec_encode_entries(
                            entries_view(es@).take(i as int),
                        ),
                        forall|j: int| 0 <= j < i ==> entries_encodable_at(entries_view(es@), j),
                    decreases n - i,
                {
                    let ghost prev = out@;
                    let ghost evs = entries_view(es@);
                    let entry = &es[i];
                    let r1 = Value::write_string(out, entry.0.as_str(), false);
                    if let Err(e) = r1 {
                        proof {
                            lemma_entries_not_encodable_at(evs, i as int);
                        }
                        return Err(e);
                    }
                    proof {
                        assert(*self is Object);
                        assert((*self)->Object_0 == *es);
                        assert(decreases_to!(*self => (*self)->Object_0));
                        assert(decreases_to!((*self)->Object_0 => (*self)->Object_0@));
                        assert(decreases_to!((*self)->Object_0@ => (*self)->Object_0@[i as int]));
                        assert(decreases_to!((*self)->Object_0@[i as int] => (*self)->Object_0@[i as int].1));
                        assert(decreases_to!(*self => es@[i as int].1));
                    }
                    let r2 = entry.1.write(out);
                    if let Err(e) = r2 {
                        proof {
                            lemma_entries_not_encodable_at(evs, i as int);
                            assert(prev.is_prefix_of(out@));
                        }
                        return Err(e);
                    }
                    proof {
                        lemma_encode_entries_take_step(evs, i as int);
                        assert(out@ =~= old(out)@ + seq![MARKER_OBJECT] + spec_encode_entries(
                            evs.take(i as int + 1),
                        ));
                    }
                    i = i + 1;
                }
                out.push(0u8);
                out.push(0u8);
                out.push(MARKER_OBJECT_END);
                proof {
                    let evs = entries_view(es@);
                    assert(evs.take(n as int) =~= evs);
                    lemma_entries_encodable_from_at(evs);
                    assert(final(out)@ =~= old(out)@ + spec_encode_value(self@));
                }
                Ok(())
            },
            Value::Null => {
                out.push(MARKER_NULL);
                proof {
                    assert(final(out)@ =~= old(out)@ + spec_encode_value(self@));
                }
                Ok(())
            },
        }
    }
}

/// Entry `i` of the list is encodable (key and value).
pub open spec fn entries_encodable_at(es: Seq<(Seq<char>, ValueV)>, i: int) -> bool {
    str_encodable(es[i].0) && value_encodable(es[i].1)
}

/// An entry list is encodable exactly when each entry is.
pub proof fn lemma_entries_encodable_index(es: Seq<(Seq<char>, ValueV)>)
    ensures
        entries_encodable(es) <==> (forall|i: int|
            0 <= i < es.len() ==> #[trigger] entries_encodable_at(es, i)),
    decreases es,
{
    if es.len() > 0 {
        lemma_entries_encodable_index(es.drop_first());
        assert forall|i: int| 0 <= i < es.len() && entries_encodable(es) implies #[trigger]
        entries_encodable_at(es, i) by {
            if i > 0 {
                assert(entries_encodable_at(es.drop_first(), i - 1));
                assert(es.drop_first()[i - 1] == es[i]);
            }
        }
        if forall|i: int| 0 <= i < es.len() ==> #[trigger] entries_encodable_at(es, i) {
            assert forall|i: int| 0 <= i < es.drop_first().len() implies #[trigger]
            entries_encodable_at(es.drop_first(), i) by {
                assert(entries_encodable_at(es, i + 1));
                assert(es.drop_first()[i] == es[i + 1]);
            }
            assert(entries_encodable(es.drop_first()));
            assert(entries_encodable_at(es, 0));
            assert(entries_encodable(es));
        }
    }
}

/// An entry that is not encodable makes the whole list not encodable.
proof fn lemma_entries_not_encodable_at(es: Seq<(Seq<char>, ValueV)>, i: int)
    requires
        0 <= i < es.len(),
        !entries_encodable_at(es, i),
    ensures
        !entries_encodable(es),
{
    lemma_entries_encodable_index(es);
}

/// A list whose every entry is encodable is encodable.
proof fn lemma_entries_encodable_from_at(es: Seq<(Seq<char>, ValueV)>)
    requires
        forall|j: int| 0 <= j < es.len() ==> #[trigger] entries_encodable_at(es, j),
    ensures
        entries_encodable(es),
{
    lemma_entries_encodable_index(es);
}

/// The key order is irreflexive and asymmetric.
pub proof fn lemma_char_seq_lt_asym(a: Seq<char>, b: Seq<char>)
    requires
        char_seq_lt(a, b),
    ensures
        !char_seq_lt(b, a),
        a != b,
    decreases a.len(),
{
    if b.len() > 0 && a.len() > 0 && a[0] as u32 == b[0] as u32 {
        lemma_char_seq_lt_asym(a.drop_first(), b.drop_first());
        assert(a[0] == b[0]) by {
            vstd::utf8::char_u32_cast(a[0], a[0] as u32);
            vstd::utf8::char_u32_cast(b[0], b[0] as u32);
        }
        if a == b {
            assert(a.drop_first() == b.drop_first());
        }
    } else {
        if a == b {
            assert(a.len() == b.len());
            if a.len() > 0 {
                assert(a[0] == b[0]);
            }
        }
    }
}

/// The key order is total: two unequal keys compare one way or the other.
pub proof fn lemma_char_seq_lt_total(a: Seq<char>, b: Seq<char>)
    ensures
        char_seq_lt(a, b) || char_seq_lt(b, a) || a == b,
    decreases a.len(),
{
    if a.len() > 0 && b.len() > 0 && a[0] as u32 == b[0] as u32 {
        lemma_char_seq_lt_total(a.drop_first(), b.drop_first());
        assert(a[0] == b[0]) by {
            vstd::utf8::char_u32_cast(a[0], a[0] as u32);
            vstd::utf8::char_u32_cast(b[0], b[0] as u32);
        }
        if a.drop_first() == b.drop_first() {
            assert forall|j: int| 0 <= j < a.len() implies a[j] == b[j] by {
                if j > 0 {
                    assert(a[j] == a.drop_first()[j - 1]);
                    assert(b[j] == b.drop_first()[j - 1]);
                }
            }
            assert(a =~= b);
        }
    } else if a.len() == 0 && b.len() == 0 {
        assert(a =~= b);
    }
}

/// The key order is transitive.
pub proof fn lemma_char_seq_lt_trans(a: Seq<char>, b: Seq<char>, c: Seq<char>)
    requires
        char_seq_lt(a, b),
        char_seq_lt(b, c),
    ensures
        char_seq_lt(a, c),
    decreases a.len(),
{
    if a.len() > 0 && b.len() > 0 && c.len() > 0 && a[0] as u32 == b[0] as u32 && b[0] as u32
        == c[0] as u32 {
        lemma_char_seq_lt_trans(a.drop_first(), b.drop_first(), c.drop_first());
    }
}

/// A proper prefix, or a sequence differing first at a smaller character,
/// is below in the key order.
proof fn lemma_char_seq_lt_at(a: Seq<char>, b: Seq<char>, i: int)
    requires
        0 <= i <= a.len(),
        i <= b.len(),
        forall|j: int| 0 <= j < i ==> a[j] == b[j],
        (i == a.len() && i < b.len()) || (i < a.len() && i < b.len() && (a[i] as u32) < (
        b[i] as u32)),
    ensures
        char_seq_lt(a, b),
    decreases i,
{
    if i > 0 {
        lemma_char_seq_lt_at(a.drop_first(), b.drop_first(), i - 1);
    }
}

/// How two keys compare.
#[derive(Debug, PartialEq, Eq, Clone, Copy)]
pub enum KeyOrder {
    Less,
    Equal,
    Greater,
}

/// Compares two strings in the key order.
#[verifier::loop_isolation(false)]
pub fn str_compare(a: &str, b: &str) -> (r: KeyOrder)
    ensures
        r is Less ==> char_seq_lt(a@, b@),
        r is Equal ==> a@ == b@,
        r is Greater ==> char_seq_lt(b@, a@),
{
    let la = a.unicode_len();
    let lb = b.unicode_len();
    let mut i: usize = 0;
    while i < la && i < lb
        invariant
            i <= la,
            i <= lb,
            forall|j: int| 0 <= j < i ==> a@[j] == b@[j],
        decreases la - i,
    {
        let ca = a.get_char(i);
        let cb = b.get_char(i);
        if (ca as u32) < (cb as u32) {
            proof {
                lemma_char_seq_lt_at(a@, b@, i as int);
            }
            return KeyOrder::Less;
        }
        if (cb as u32) < (ca as u32) {
            proof {
                lemma_char_seq_lt_at(b@, a@, i as int);
            }
            return KeyOrder::Greater;
        }
        proof {
            vstd::utf8::char_u32_cast(a@[i as int], a@[i as int] as u32);
            vstd::utf8::char_u32_cast(b@[i as int], b@[i as int] as u32);
        }
        i = i + 1;
    }
    if i < lb {
        proof {
            lemma_char_seq_lt_at(a@, b@, i as int);
        }
        KeyOrder::Less
    } else if i < la {
        proof {
            lemma_char_seq_lt_at(b@, a@, i as int);
        }
        KeyOrder::Greater
    } else {
        proof {
            assert(a@ =~= b@);
        }
        KeyOrder::Equal
    }
}

/// Sorted insert of an entry: replaces the entry of an equal key, otherwise
/// places the new entry before the first greater key.
pub open spec fn obj_insert(es: Seq<(Seq<char>, ValueV)>, k: Seq<char>, v: ValueV) -> Seq<
    (Seq<char>, ValueV),
>
    decreases es,
{
    if es.len() == 0 {
        seq![(k, v)]
    } else if k == es[0].0 {
        seq![(k, v)] + es.drop_first()
    } else if char_seq_lt(k, es[0].0) {
        seq![(k, v)] + es
    } else {
        seq![es[0]] + obj_insert(es.drop_first(), k, v)
    }
}

/// The canonical entry list denoted by entries in wire order: entries are
/// folded in from the front, a later entry overwriting an earlier one of the
/// same key.
pub open spec fn canon_entries(raw: Seq<(Seq<char>, ValueV)>) -> Seq<(Seq<char>, ValueV)>
    decreases raw,
{
    if raw.len() == 0 {
        Seq::empty()
    } else {
        obj_insert(canon_entries(raw.drop_last()), raw.last().0, raw.last().1)
    }
}

/// The value stored under a key.
pub open spec fn obj_lookup(es: Seq<(Seq<char>, ValueV)>, k: Seq<char>) -> Option<ValueV>
    decreases es,
{
    if es.len() == 0 {
        Option::None
    } else if es[0].0 == k {
        Option::Some(es[0].1)
    } else {
        obj_lookup(es.drop_first(), k)
    }
}

/// Keys at or past `i` all exceed `k`; the insert therefore keeps the first
/// `i` entries and works on the remainder.
proof fn lemma_obj_insert_skip(es: Seq<(Seq<char>, ValueV)>, k: Seq<char>, v: ValueV, i: int)
    requires
        0 <= i <= es.len(),
        forall|j: int| 0 <= j < i ==> char_seq_lt(#[trigger] es[j].0, k),
    ensures
        obj_insert(es, k, v) == es.take(i) + obj_insert(es.skip(i), k, v),
    decreases i,
{
    if i == 0 {
        assert(es.skip(0) =~= es);
        assert(es.take(0) + obj_insert(es, k, v) =~= obj_insert(es, k, v));
    } else {
        lemma_char_seq_lt_asym(es[0].0, k);
        lemma_obj_insert_skip(es.drop_first(), k, v, i - 1);
        assert(es.drop_first().take(i - 1) =~= es.take(i).drop_first());
        assert(es.drop_first().skip(i - 1) =~= es.skip(i));
        assert(seq![es[0]] + (es.drop_first().take(i - 1) + obj_insert(es.drop_first().skip(i - 1), k, v))
            =~= es.take(i) + obj_insert(es.skip(i), k, v));
    }
}

impl Value {
    /// Inserts an entry into a sorted entry list, replacing the entry of an
    /// equal key.
    #[verifier::loop_isolation(false)]
    pub fn insert_entry(es: &mut Vec<(String, Value)>, key: String, val: Value)
        ensures
            entries_view(final(es)@) == obj_insert(entries_view(old(es)@), key@, val@),
    {
        let ghost evs = entries_view(old(es)@);
        proof {
            lemma_entries_view_index(old(es)@);
        }
        let n = es.len();
        let mut i: usize = 0;
        while i < n
            invariant
                i <= n,
                n == es.len(),
                es@ == old(es)@,
                forall|j: int| 0 <= j < i ==> char_seq_lt(#[trigger] evs[j].0, key@),
            decreases n - i,
        {
            let ord = str_compare(es[i].0.as_str(), key.as_str());
            match ord {
                KeyOrder::Less => {
                    i = i + 1;
                },
                KeyOrder::Equal => {
                    proof {
                        lemma_obj_insert_skip(evs, key@, val@, i as int);
                        assert(evs.skip(i as int)[0] == evs[i as int]);
                        assert(evs[i as int].0 == key@);
                    }
                    es.set(i, (key, val));
                    proof {
                        lemma_entries_view_index(es@);
                        assert(evs.skip(i as int).drop_first() =~= evs.skip(i as int + 1));
                        assert(entries_view(es@) =~= evs.take(i as int) + (seq![(key@, val@)]
                            + evs.skip(i as int + 1)));
                    }
                    return ;
                },
                KeyOrder::Greater => {
                    proof {
                        lemma_obj_insert_skip(evs, key@, val@, i as int);
                        assert(evs.skip(i as int)[0] == evs[i as int]);
                        lemma_char_seq_lt_asym(key@, evs[i as int].0);
                    }
                    es.insert(i, (key, val));
                    proof {
                        lemma_entries_view_index(es@);
                        assert(entries_view(es@) =~= evs.take(i as int) + (seq![(key@, val@)]
                            + evs.skip(i as int)));
                    }
                    return ;
                },
            }
        }
        proof {
            lemma_obj_insert_skip(evs, key@, val@, n as int);
            assert(evs.skip(n as int) =~= Seq::<(Seq<char>, ValueV)>::empty());
        }
        es.push((key, val));
        proof {
            lemma_entries_view_index(es@);
            assert(entries_view(es@) =~= evs.take(n as int) + seq![(key@, val@)]);
        }
    }

    /// Inserts a key/value pair into an Object value, keeping entries sorted;
    /// an existing entry of the same key is replaced.
    pub fn object_insert(&mut self, key: String, val: Value)
        requires
            *old(self) is Object,
        ensures
            *final(self) is Object,
            final(self)@ == ValueV::Object(
                obj_insert((old(self)@)->Object_0, key@, val@),
            ),
    {
        match self {
            Value::Object(es) => {
                Value::insert_entry(es, key, val);
            },
            _ => {
                proof {
                    assert(false);
                }
            },
        }
    }

    /// Looks up the value stored under `key` in an Object value; `None` on
    /// any other variant or when the key is absent.
    #[verifier::loop_isolation(false)]
    pub fn object_get<'a>(&'a self, key: &str) -> (r: Option<&'a Value>)
        ensures
            match r {
                Option::Some(v) => self@ is Object && obj_lookup((self@)->Object_0, key@)
                    == Option::Some(v@),
                Option::None => !(self@ is Object) || obj_lookup((self@)->Object_0, key@)
                    is None,
            },
    {
        match self {
            Value::Object(es) => {
                proof {
                    lemma_entries_view_index(es@);
                    assert(entries_view(es@).skip(0) =~= entries_view(es@));
                }
                let n = es.len();
                let mut i: usize = 0;
                while i < n
                    invariant
                        i <= n,
                        n == es.len(),
                        obj_lookup(entries_view(es@), key@) == obj_lookup(
                            entries_view(es@).skip(i as int),
                            key@,
                        ),
                    decreases n - i,
                {
                    let ord = str_compare(es[i].0.as_str(), key);
                    if let KeyOrder::Equal = ord {
                        proof {
                            assert(entries_view(es@).skip(i as int)[0] == entries_view(es@)[i as int]);
                        }
                        return Some(&es[i].1);
                    }
                    proof {
                        let evs = entries_view(es@);
                        assert(evs.skip(i as int)[0] == evs[i as int]);
                        match ord {
                            KeyOrder::Less => lemma_char_seq_lt_asym(evs[i as int].0, key@),
                            KeyOrder::Greater => lemma_char_seq_lt_asym(key@, evs[i as int].0),
                            KeyOrder::Equal => assert(false),
                        }
                        assert(evs.skip(i as int).drop_first() =~= evs.skip(i as int + 1));
                    }
                    i = i + 1;
                }
                proof {
                    assert(entries_view(es@).skip(n as int) =~= Seq::<(Seq<char>, ValueV)>::empty());
                }
                None
            },
            _ => None,
        }
    }
}

/// Decoding of a string body: two-byte length, then that many UTF-8 bytes.
/// The empty string is read without consulting the UTF-8 decoder.
pub open spec fn spec_decode_str(b: Seq<u8>) -> Result<(Seq<char>, int), DecodeError> {
    if b.len() < 2 {
        Result::Err(DecodeError::Truncated)
    } else {
        let len = crate::wire::spec_u16_of_be(b[0], b[1]) as int;
        if b.len() < 2 + len {
            Result::Err(DecodeError::Truncated)
        } else if len == 0 {
            Result::Ok((Seq::empty(), 2))
        } else {
            let bs = b.subrange(2, 2 + len);
            if valid_utf8(bs) {
                Result::Ok((decode_utf8(bs), 2 + len))
            } else {
                Result::Err(DecodeError::InvalidUtf8)
            }
        }
    }
}

/// Decoding of one self-describing value from the front of the input; on
/// success also gives the number of bytes consumed.
pub open spec fn spec_decode_value(b: Seq<u8>) -> Result<(ValueV, int), DecodeError>
    decreases b.len(), 1int,
{
    if b.len() < 1 {
        Result::Err(DecodeError::Truncated)
    } else {
        let m = b[0];
        if m == MARKER_NUMBER {
            if b.len() < 9 {
                Result::Err(DecodeError::Truncated)
            } else {
                Result::Ok((ValueV::Number(crate::wire::spec_u64_of_be(b.subrange(1, 9))), 9))
            }
        } else if m == MARKER_BOOLEAN {
            if b.len() < 2 {
                Result::Err(DecodeError::Truncated)
            } else {
                Result::Ok((ValueV::Boolean(b[1] != 0), 2))
            }
        } else if m == MARKER_STRING {
            match spec_decode_str(b.skip(1)) {
                Result::Ok((s, n)) => Result::Ok((ValueV::Utf8(s), 1 + n)),
                Result::Err(e) => Result::Err(e),
            }
        } else if m == MARKER_OBJECT {
            match spec_decode_entries(b.skip(1)) {
                Result::Ok((raw, n)) => Result::Ok((ValueV::Object(canon_entries(raw)), 1 + n)),
                Result::Err(e) => Result::Err(e),
            }
        } else if m == MARKER_NULL {
            Result::Ok((ValueV::Null, 1))
        } else if m == MARKER_ECMA_ARRAY {
            if b.len() < 5 {
                Result::Err(DecodeError::Truncated)
            } else {
                match spec_decode_entries(b.skip(5)) {
                    Result::Ok((raw, n)) => Result::Ok((ValueV::Object(canon_entries(raw)), 5 + n)),
                    Result::Err(e) => Result::Err(e),
                }
            }
        } else {
            Result::Err(DecodeError::UnknownMarker { byte: m })
        }
    }
}

/// Decoding of an object's entry list in wire order, ended by a key followed
/// by the object-end marker. The two clamps and the length guard keep the
/// definition total; a decode never takes fewer than two bytes for a key or
/// none for a value, and never consumes past the input, as
/// [`lemma_decode_value_consumes`] shows.
pub open spec fn spec_decode_entries(b: Seq<u8>) -> Result<
    (Seq<(Seq<char>, ValueV)>, int),
    DecodeError,
>
    decreases b.len(), 0int,
{
    match spec_decode_str(b) {
        Result::Err(e) => Result::Err(e),
        Result::Ok((key, n0)) => {
            let n = if n0 < 2 {
                2
            } else {
                n0
            };
            if b.len() <= n {
                Result::Err(DecodeError::Truncated)
            } else if b[n] == MARKER_OBJECT_END {
                Result::Ok((Seq::empty(), n + 1))
            } else {
                match spec_decode_value(b.skip(n)) {
                    Result::Err(e) => Result::Err(e),
                    Result::Ok((v, m0)) => {
                        let m = if m0 < 1 {
                            1
                        } else {
                            m0
                        };
                        if b.len() < n + m {
                            Result::Err(DecodeError::Truncated)
                        } else {
                            match spec_decode_entries(b.skip(n + m)) {
                                Result::Err(e) => Result::Err(e),
                                Result::Ok((rest, k)) => Result::Ok(
                                    (seq![(key, v)] + rest, n + m + k),
                                ),
                            }
                        }
                    },
                }
            }
        },
    }
}

/// A successful value decode consumes at least one byte and at most the
/// whole input.
pub proof fn lemma_decode_value_consumes(b: Seq<u8>)
    ensures
        spec_decode_value(b) matches Ok(p) ==> 1 <= p.1 <= b.len(),
    decreases b.len(), 1int,
{
    if b.len() >= 1 {
        let m = b[0];
        if m == MARKER_OBJECT {
            lemma_decode_entries_consumes(b.skip(1));
        } else if m == MARKER_ECMA_ARRAY && b.len() >= 5 {
            lemma_decode_entries_consumes(b.skip(5));
        }
    }
}

/// A successful entry-list decode consumes at least three bytes (empty key
/// plus end marker) and at most the whole input.
pub proof fn lemma_decode_entries_consumes(b: Seq<u8>)
    ensures
        spec_decode_entries(b) matches Ok(p) ==> 3 <= p.1 <= b.len(),
    decreases b.len(), 0int,
{
    match spec_decode_str(b) {
        Result::Ok((key, n0)) => {
            let n = if n0 < 2 {
                2
            } else {
                n0
            };
            if b.len() > n && b[n] != MARKER_OBJECT_END {
                lemma_decode_value_consumes(b.skip(n));
                match spec_decode_value(b.skip(n)) {
                    Result::Ok((v, m0)) => {
                        let m = if m0 < 1 {
                            1
                        } else {
                            m0
                        };
                        if b.len() >= n + m {
                            lemma_decode_entries_consumes(b.skip(n + m));
                        }
                    },
                    Result::Err(_) => {},
                }
            }
        },
        Result::Err(_) => {},
    }
}

/// Relies on `String::from_utf8`: it returns the string decoded from the
/// given bytes exactly when they are valid UTF-8, and fails otherwise.
#[verifier::external_body]
fn utf8_to_string(bytes: Vec<u8>) -> (r: Option<String>)
    ensures
        r is Some <==> valid_utf8(bytes@),
        r matches Some(s) ==> s@ == decode_utf8(bytes@),
{
    String::from_utf8(bytes).ok()
}

/// Reads a string body (two-byte length and UTF-8 bytes) at `pos`.
#[verifier::loop_isolation(false)]
fn read_str(bytes: &Vec<u8>, pos: usize) -> (r: Result<(String, usize), DecodeError>)
    requires
        pos <= bytes.len(),
    ensures
        ({
            let sr = spec_decode_str(bytes@.skip(pos as int));
            match r {
                Result::Ok((s, newpos)) => sr matches Ok((cs, n)) && cs == s@ && newpos as int
                    == pos + n && newpos <= bytes.len(),
                Result::Err(e) => sr matches Err(e2) && e2 == e,
            }
        }),
{
    let ghost b = bytes@.skip(pos as int);
    if bytes.len() - pos < 2 {
        return Err(DecodeError::Truncated);
    }
    let len = crate::wire::read_u16_be(bytes, pos) as usize;
    proof {
        assert(b[0] == bytes@[pos as int]);
        assert(b[1] == bytes@[pos as int + 1]);
    }
    if bytes.len() - pos - 2 < len {
        return Err(DecodeError::Truncated);
    }
    if len == 0 {
        return Ok((String::new(), pos + 2));
    }
    let mut sb: Vec<u8> = Vec::new();
    let mut j: usize = 0;
    while j < len
        invariant
            j <= len,
            pos + 2 + len <= bytes.len(),
            sb@ == bytes@.subrange(pos as int + 2, pos as int + 2 + j as int),
        decreases len - j,
    {
        sb.push(bytes[pos + 2 + j]);
        proof {
            assert(bytes@.subrange(pos as int + 2, pos as int + 2 + j as int).push(
                bytes@[pos as int + 2 + j as int],
            ) =~= bytes@.subrange(pos as int + 2, pos as int + 2 + j as int + 1));
        }
        j = j + 1;
    }
    proof {
        assert(sb@ =~= b.subrange(2, 2 + len as int));
    }
    match utf8_to_string(sb) {
        Some(s) => Ok((s, pos + 2 + len)),
        None => Err(DecodeError::InvalidUtf8),
    }
}

impl Value {
    /// Reads one self-describing value at `pos`, returning it with the
    /// position of the first byte after it. The result is exactly what the
    /// decode specification gives, errors included: an unsupported marker,
    /// input ending inside a value, or a string that is not UTF-8.
    #[verifier::loop_isolation(false)]
    pub fn read(bytes: &Vec<u8>, pos: usize) -> (r: Result<(Value, usize), DecodeError>)
        requires
            pos <= bytes.len(),
        ensures
            ({
                let sr = spec_decode_value(bytes@.skip(pos as int));
                match r {
                    Result::Ok((v, newpos)) => sr matches Ok(p) && p.0 == v@ && newpos as int == pos
                        + p.1 && newpos <= bytes.len(),
                    Result::Err(e) => sr matches Err(e2) && e2 == e,
                }
            }),
        decreases bytes.len() - pos,
    {
        let ghost b = bytes@.skip(pos as int);
        if pos >= bytes.len() {
            return Err(DecodeError::Truncated);
        }
        let m = bytes[pos];
        proof {
            assert(b[0] == bytes@[pos as int]);
        }
        if m == MARKER_NUMBER {
            if bytes.len() - pos < 9 {
                return Err(DecodeError::Truncated);
            }
            let bits = crate::wire::read_u64_be(bytes, pos + 1);
            proof {
                assert(bytes@.subrange(pos as int + 1, pos as int + 9) =~= b.subrange(1, 9));
            }
            Ok((Value::Number(bits), pos + 9))
        } else if m == MARKER_BOOLEAN {
            if bytes.len() - pos < 2 {
                return Err(DecodeError::Truncated);
            }
            proof {
                assert(b[1] == bytes@[pos as int + 1]);
            }
            Ok((Value::Boolean(bytes[pos + 1] != 0), pos + 2))
        } else if m == MARKER_STRING {
            proof {
                assert(b.skip(1) =~= bytes@.skip(pos as int + 1));
            }
            match read_str(bytes, pos + 1) {
                Ok((s, newpos)) => Ok((Value::Utf8(s), newpos)),
                Err(e) => Err(e),
            }
        } else if m == MARKER_OBJECT {
            proof {
                assert(b.skip(1) =~= bytes@.skip(pos as int + 1));
            }
            match Value::read_entries(bytes, pos + 1) {
                Ok((es, newpos)) => Ok((Value::Object(es), newpos)),
                Err(e) => Err(e),
            }
        } else if m == MARKER_NULL {
            Ok((Value::Null, pos + 1))
        } else if m == MARKER_ECMA_ARRAY {
            if bytes.len() - pos < 5 {
                return Err(DecodeError::Truncated);
            }
            proof {
                assert(b.skip(5) =~= bytes@.skip(pos as int + 5));
            }
            match Value::read_entries(bytes, pos + 5) {
                Ok((es, newpos)) => Ok((Value::Object(es), newpos)),
                Err(e) => Err(e),
            }
        } else {
            Err(DecodeError::UnknownMarker { byte: m })
        }
    }

    /// Reads an object's entry list at `pos` up to and including its end
    /// marker, folding the wire entries into canonical sorted form.
    #[verifier::loop_isolation(false)]
    fn read_entries(bytes: &Vec<u8>, pos: usize) -> (r: Result<
        (Vec<(String, Value)>, usize),
        DecodeError,
    >)
        requires
            pos <= bytes.len(),
        ensures
            ({
                let sr = spec_decode_entries(bytes@.skip(pos as int));
                match r {
                    Result::Ok((es, newpos)) => sr matches Ok(p) && entries_view(es@)
                        == canon_entries(p.0) && newpos as int == pos + p.1 && newpos
                        <= bytes.len(),
                    Result::Err(e) => sr matches Err(e2) && e2 == e,
                }
            }),
        decreases bytes.len() - pos,
    {
        let mut acc: Vec<(String, Value)> = Vec::new();
        let ghost mut raw: Seq<(Seq<char>, ValueV)> = Seq::empty();
        let mut cur: usize = pos;
        proof {
            assert(entries_view(acc@) =~= canon_entries(raw));
        }
        loop
            invariant
                pos <= cur <= bytes.len(),
                entries_view(acc@) == canon_entries(raw),
                ({
                    let whole = spec_decode_entries(bytes@.skip(pos as int));
                    let rest = spec_decode_entries(bytes@.skip(cur as int));
                    match rest {
                        Result::Ok((r2, k)) => whole == Result::<
                            (Seq<(Seq<char>, ValueV)>, int),
                            DecodeError,
                        >::Ok((raw + r2, (cur - pos) + k)),
                        Result::Err(e) => whole == Result::<
                            (Seq<(Seq<char>, ValueV)>, int),
                            DecodeError,
                        >::Err(e),
                    }
                }),
            decreases bytes.len() - cur,
        {
            let ghost bc = bytes@.skip(cur as int);
            let kr = read_str(bytes, cur);
            let (key, kend) = match kr {
                Ok(p) => p,
                Err(e) => {
                    return Err(e);
                },
            };
            if kend >= bytes.len() {
                return Err(DecodeError::Truncated);
            }
            let marker = bytes[kend];
            proof {
                assert(bc[kend - cur] == bytes@[kend as int]);
            }
            if marker == MARKER_OBJECT_END {
                proof {
                    assert(raw + Seq::<(Seq<char>, ValueV)>::empty() =~= raw);
                }
                return Ok((acc, kend + 1));
            }
            let vr = Value::read(bytes, kend);
            let (val, vend) = match vr {
                Ok(p) => p,
                Err(e) => {
                    proof {
                        assert(bc.skip(kend - cur) =~= bytes@.skip(kend as int));
                    }
                    return Err(e);
                },
            };
            proof {
                assert(bc.skip(kend - cur) =~= bytes@.skip(kend as int));
                lemma_decode_value_consumes(bytes@.skip(kend as int));
                assert(bc.skip(vend - cur) =~= bytes@.skip(vend as int));
            }
            let ghost e = (key@, val@);
            proof {
                assert(raw.push(e).drop_last() =~= raw);
                assert(raw.push(e).last() == e);
                assert forall|r2: Seq<(Seq<char>, ValueV)>| true implies raw + (seq![e] + r2)
                    =~= raw.push(e) + r2 by {}
            }
            Value::insert_entry(&mut acc, key, val);
            proof {
                raw = raw.push(e);
            }
            cur = vend;
        }
    }
}

/// The UTF-8 encoding of a character sequence has between one and four
/// bytes per character.
pub proof fn lemma_encode_utf8_len(chars: Seq<char>)
    ensures
        chars.len() <= encode_utf8(chars).len() <= 4 * chars.len(),
    decreases chars.len(),
{
    if chars.len() > 0 {
        lemma_encode_utf8_len(chars.drop_first());
    }
}

/// Decoding a string body from its encoding (followed by anything) yields
/// the original characters and consumes exactly the encoding.
pub proof fn lemma_decode_encode_str(s: Seq<char>, rest: Seq<u8>)
    requires
        str_encodable(s),
    ensures
        spec_decode_str(spec_str_bytes(s) + rest) == Result::<(Seq<char>, int), DecodeError>::Ok(
            (s, spec_str_bytes(s).len() as int),
        ),
        spec_str_bytes(s).len() == 2 + encode_utf8(s).len(),
{
    let u = encode_utf8(s);
    let len = u.len() as u16;
    let b = spec_str_bytes(s) + rest;
    crate::wire::lemma_u16_be_round_trip(len);
    assert(b[0] == spec_u16_be(len)[0]);
    assert(b[1] == spec_u16_be(len)[1]);
    assert(crate::wire::spec_u16_of_be(b[0], b[1]) == len);
    if u.len() == 0 {
        assert(s =~= Seq::<char>::empty()) by {
            lemma_encode_utf8_len(s);
        }
    } else {
        assert(b.subrange(2, 2 + u.len() as int) =~= u);
        vstd::utf8::encode_utf8_valid_utf8(s);
        vstd::utf8::encode_utf8_decode_utf8(s);
    }
}

/// The first byte of an encoded value is its marker, never the object-end
/// marker.
pub proof fn lemma_encode_value_head(v: ValueV)
    ensures
        spec_encode_value(v).len() >= 1,
        spec_encode_value(v)[0] != MARKER_OBJECT_END,
{
}

/// Decoding the encoding of a canonical, encodable value (followed by
/// anything) yields the value back and consumes exactly its encoding.
pub proof fn lemma_decode_encode_value(v: ValueV, rest: Seq<u8>)
    requires
        value_canonical(v),
        value_encodable(v),
    ensures
        spec_decode_value(spec_encode_value(v) + rest) == Result::<(ValueV, int), DecodeError>::Ok(
            (v, spec_encode_value(v).len() as int),
        ),
    decreases v, 1int,
{
    let e = spec_encode_value(v);
    let b = e + rest;
    match v {
        ValueV::Number(bits) => {
            crate::wire::lemma_u64_be_round_trip(bits);
            assert(b.subrange(1, 9) =~= crate::wire::spec_u64_be(bits));
        },
        ValueV::Boolean(x) => {
            assert(b[1] == (if x {
                1u8
            } else {
                0u8
            }));
        },
        ValueV::Utf8(s) => {
            assert(b.skip(1) =~= spec_str_bytes(s) + rest);
            lemma_decode_encode_str(s, rest);
        },
        ValueV::Object(es) => {
            assert(b.skip(1) =~= spec_encode_entries(es) + seq![0u8, 0u8, MARKER_OBJECT_END]
                + rest);
            lemma_decode_encode_entries(es, rest);
            lemma_canon_of_sorted(es);
        },
        ValueV::Null => {},
    }
}

/// Decoding the encoding of a canonical, encodable entry list followed by
/// the object terminator (and anything after) yields the entries in order.
#[verifier::rlimit(60)]
pub proof fn lemma_decode_encode_entries(es: Seq<(Seq<char>, ValueV)>, rest: Seq<u8>)
    requires
        entries_canonical(es),
        entries_encodable(es),
    ensures
        spec_decode_entries(spec_encode_entries(es) + seq![0u8, 0u8, MARKER_OBJECT_END] + rest)
            == Result::<(Seq<(Seq<char>, ValueV)>, int), DecodeError>::Ok(
            (es, spec_encode_entries(es).len() as int + 3),
        ),
    decreases es, 0int,
{
    let term = seq![0u8, 0u8, MARKER_OBJECT_END];
    let b = spec_encode_entries(es) + term + rest;
    if es.len() == 0 {
        assert(b =~= term + rest);
        assert(b[0] == 0u8 && b[1] == 0u8);
        assert(crate::wire::spec_u16_of_be(0u8, 0u8) == 0) by (bit_vector);
        assert(b[2] == MARKER_OBJECT_END);
        assert(es =~= Seq::<(Seq<char>, ValueV)>::empty());
        assert(spec_decode_entries(b) == Result::<
            (Seq<(Seq<char>, ValueV)>, int),
            DecodeError,
        >::Ok((Seq::empty(), 3)));
    } else {
        let k0 = es[0].0;
        let v0 = es[0].1;
        let sb = spec_str_bytes(k0);
        let vb = spec_encode_value(v0);
        let tail0 = vb + (spec_encode_entries(es.drop_first()) + term + rest);
        assert(b =~= sb + tail0);
        lemma_decode_encode_str(k0, tail0);
        let n = sb.len() as int;
        assert(spec_decode_str(b) == Result::<(Seq<char>, int), DecodeError>::Ok((k0, n)));
        assert(n >= 2);
        lemma_encode_value_head(v0);
        assert(b.skip(n) =~= tail0);
        assert(b[n] == tail0[0]);
        assert(b[n] != MARKER_OBJECT_END);
        assert(b.len() > n);
        let rest1 = spec_encode_entries(es.drop_first()) + term + rest;
        assert(tail0 =~= vb + rest1);
        lemma_decode_encode_value(v0, rest1);
        let m = vb.len() as int;
        assert(spec_decode_value(b.skip(n)) == Result::<(ValueV, int), DecodeError>::Ok((v0, m)));
        assert(m >= 1);
        assert(b.len() >= n + m);
        assert(b.skip(n + m) =~= rest1);
        lemma_decode_encode_entries(es.drop_first(), rest);
        assert(spec_decode_entries(b.skip(n + m)) == Result::<
            (Seq<(Seq<char>, ValueV)>, int),
            DecodeError,
        >::Ok((es.drop_first(), spec_encode_entries(es.drop_first()).len() as int + 3)));
        assert(seq![(k0, v0)] + es.drop_first() =~= es);
        assert(spec_encode_entries(es).len() == n + m + spec_encode_entries(
            es.drop_first(),
        ).len());
    }
}

/// In a canonical entry list every earlier key is below every later key.
pub proof fn lemma_entries_canonical_pairwise(es: Seq<(Seq<char>, ValueV)>)
    requires
        entries_canonical(es),
    ensures
        forall|i: int, j: int|
            0 <= i < j < es.len() ==> char_seq_lt(#[trigger] es[i].0, #[trigger] es[j].0),
        forall|i: int| 0 <= i < es.len() ==> value_canonical(#[trigger] es[i].1),
    decreases es,
{
    if es.len() > 0 {
        lemma_entries_canonical_pairwise(es.drop_first());
        assert forall|i: int, j: int| 0 <= i < j < es.len() implies char_seq_lt(
            #[trigger] es[i].0,
            #[trigger] es[j].0,
        ) by {
            if i == 0 {
                if j == 1 {
                    assert(char_seq_lt(es[0].0, es[1].0));
                } else {
                    assert(char_seq_lt(es.drop_first()[0].0, es.drop_first()[j - 1].0));
                    assert(es.drop_first()[0] == es[1]);
                    assert(es.drop_first()[j - 1] == es[j]);
                    lemma_char_seq_lt_trans(es[0].0, es[1].0, es[j].0);
                }
            } else {
                assert(char_seq_lt(es.drop_first()[i - 1].0, es.drop_first()[j - 1].0));
                assert(es.drop_first()[i - 1] == es[i]);
                assert(es.drop_first()[j - 1] == es[j]);
            }
        }
        assert forall|i: int| 0 <= i < es.len() implies value_canonical(#[trigger] es[i].1) by {
            if i > 0 {
                assert(value_canonical(es.drop_first()[i - 1].1));
                assert(es.drop_first()[i - 1] == es[i]);
            }
        }
    }
}

/// A prefix of a canonical entry list is canonical.
proof fn lemma_entries_canonical_take(es: Seq<(Seq<char>, ValueV)>, i: int)
    requires
        entries_canonical(es),
        0 <= i <= es.len(),
    ensures
        entries_canonical(es.take(i)),
    decreases es,
{
    if i > 0 && es.len() > 0 {
        lemma_entries_canonical_take(es.drop_first(), i - 1);
        assert(es.take(i).drop_first() =~= es.drop_first().take(i - 1));
        assert(es.take(i)[0] == es[0]);
        if i > 1 {
            assert(es.take(i)[1] == es[1]);
        }
    } else if i == 0 {
        assert(es.take(0) =~= Seq::<(Seq<char>, ValueV)>::empty());
    }
}

/// Folding an already sorted entry list into canonical form keeps it as it
/// is.
pub proof fn lemma_canon_of_sorted(es: Seq<(Seq<char>, ValueV)>)
    requires
        entries_canonical(es),
    ensures
        canon_entries(es) == es,
    decreases es,
{
    if es.len() > 0 {
        let head = es.drop_last();
        assert(head =~= es.take(es.len() - 1));
        lemma_entries_canonical_take(es, es.len() - 1);
        lemma_canon_of_sorted(head);
        lemma_entries_canonical_pairwise(es);
        assert forall|j: int| 0 <= j < head.len() implies char_seq_lt(
            #[trigger] head[j].0,
            es.last().0,
        ) by {
            assert(head[j] == es[j]);
            assert(char_seq_lt(es[j].0, es[es.len() - 1].0));
        }
        lemma_obj_insert_skip(head, es.last().0, es.last().1, head.len() as int);
        assert(head.skip(head.len() as int) =~= Seq::<(Seq<char>, ValueV)>::empty());
        assert(head.take(head.len() as int) =~= head);
        assert(canon_entries(es) =~= es);
    } else {
        assert(canon_entries(es) =~= es);
    }
}

/// Sorted insert keeps an entry list canonical when the inserted value is
/// canonical.
pub proof fn lemma_obj_insert_canonical(es: Seq<(Seq<char>, ValueV)>, k: Seq<char>, v: ValueV)
    requires
        entries_canonical(es),
        value_canonical(v),
    ensures
        entries_canonical(obj_insert(es, k, v)),
    decreases es,
{
    let r = obj_insert(es, k, v);
    if es.len() == 0 {
        assert(r == seq![(k, v)]);
        assert(r[0] == (k, v));
        assert(r.drop_first() =~= Seq::<(Seq<char>, ValueV)>::empty());
        assert(entries_canonical(Seq::<(Seq<char>, ValueV)>::empty()));
        assert(value_canonical(r[0].1));
        assert(r.len() == 1);
        assert(entries_canonical(r));
    } else if k == es[0].0 {
        assert(r =~= seq![(k, v)] + es.drop_first());
        assert(r.drop_first() =~= es.drop_first());
        assert(r[0] == (k, v));
        if es.len() > 1 {
            assert(r[1] == es[1]);
            assert(char_seq_lt(k, es[1].0));
        }
    } else if char_seq_lt(k, es[0].0) {
        assert(r =~= seq![(k, v)] + es);
        assert(r.drop_first() =~= es);
        assert(r[0] == (k, v));
        assert(r[1] == es[0]);
    } else {
        lemma_char_seq_lt_total(k, es[0].0);
        assert(char_seq_lt(es[0].0, k));
        lemma_obj_insert_canonical(es.drop_first(), k, v);
        let inner = obj_insert(es.drop_first(), k, v);
        assert(r =~= seq![es[0]] + inner);
        assert(r.drop_first() =~= inner);
        assert(r[0] == es[0]);
        assert(inner.len() >= 1);
        if es.len() == 1 {
            assert(inner == seq![(k, v)]);
            assert(r[1] == (k, v));
            assert(char_seq_lt(r[0].0, r[1].0));
        } else {
            if k == es.drop_first()[0].0 {
                assert(inner[0] == (k, v));
                assert(char_seq_lt(r[0].0, r[1].0));
            } else if char_seq_lt(k, es.drop_first()[0].0) {
                assert(inner[0] == (k, v));
                assert(char_seq_lt(r[0].0, r[1].0));
            } else {
                assert(inner[0] == es.drop_first()[0]);
                assert(char_seq_lt(es[0].0, es[1].0));
                assert(char_seq_lt(r[0].0, r[1].0));
            }
        }
    }
}

/// The canonical form of any raw entry list whose values are canonical is a
/// canonical entry list.
pub proof fn lemma_canon_entries_canonical(raw: Seq<(Seq<char>, ValueV)>)
    requires
        forall|i: int| 0 <= i < raw.len() ==> value_canonical(#[trigger] raw[i].1),
    ensures
        entries_canonical(canon_entries(raw)),
    decreases raw,
{
    if raw.len() > 0 {
        assert forall|i: int| 0 <= i < raw.drop_last().len() implies value_canonical(
            #[trigger] raw.drop_last()[i].1,
        ) by {
            assert(raw.drop_last()[i] == raw[i]);
        }
        lemma_canon_entries_canonical(raw.drop_last());
        assert(value_canonical(raw.last().1));
        lemma_obj_insert_canonical(canon_entries(raw.drop_last()), raw.last().0, raw.last().1);
    }
}

/// Every value a successful decode returns is canonical.
pub proof fn lemma_decode_value_canonical(b: Seq<u8>)
    ensures
        spec_decode_value(b) matches Ok(p) ==> value_canonical(p.0),
    decreases b.len(), 1int,
{
    if b.len() >= 1 {
        let m = b[0];
        if m == MARKER_OBJECT {
            lemma_decode_entries_canonical(b.skip(1));
            match spec_decode_entries(b.skip(1)) {
                Result::Ok((raw, n)) => {
                    lemma_canon_entries_canonical(raw);
                },
                Result::Err(_) => {},
            }
        } else if m == MARKER_ECMA_ARRAY && b.len() >= 5 {
            lemma_decode_entries_canonical(b.skip(5));
            match spec_decode_entries(b.skip(5)) {
                Result::Ok((raw, n)) => {
                    lemma_canon_entries_canonical(raw);
                },
                Result::Err(_) => {},
            }
        }
    }
}

/// Every value inside a successfully decoded raw entry list is canonical.
proof fn lemma_decode_entries_canonical(b: Seq<u8>)
    ensures
        spec_decode_entries(b) matches Ok(p) ==> forall|i: int|
            0 <= i < p.0.len() ==> value_canonical(#[trigger] p.0[i].1),
    decreases b.len(), 0int,
{
    match spec_decode_str(b) {
        Result::Ok((key, n0)) => {
            let n = if n0 < 2 {
                2
            } else {
                n0
            };
            if b.len() > n && b[n] != MARKER_OBJECT_END {
                lemma_decode_value_canonical(b.skip(n));
                lemma_decode_value_consumes(b.skip(n));
                match spec_decode_value(b.skip(n)) {
                    Result::Ok((v, m0)) => {
                        let m = if m0 < 1 {
                            1
                        } else {
                            m0
                        };
                        if b.len() >= n + m {
                            lemma_decode_entries_canonical(b.skip(n + m));
                            match spec_decode_entries(b.skip(n + m)) {
                                Result::Ok((rest, k)) => {
                                    let whole = seq![(key, v)] + rest;
                                    assert forall|i: int| 0 <= i < whole.len() implies
                                    value_canonical(#[trigger] whole[i].1) by {
                                        if i > 0 {
                                            assert(whole[i] == rest[i - 1]);
                                        }
                                    }
                                },
                                Result::Err(_) => {},
                            }
                        }
                    },
                    Result::Err(_) => {},
                }
            }
        },
        Result::Err(_) => {},
    }
}

/// Round-trip law: decoding the encoding of a canonical, encodable value
/// yields exactly that value, consuming exactly its encoding.
pub proof fn lemma_value_round_trip(v: ValueV)
    requires
        value_canonical(v),
        value_encodable(v),
    ensures
        spec_decode_value(spec_encode_value(v)) == Result::<(ValueV, int), DecodeError>::Ok(
            (v, spec_encode_value(v).len() as int),
        ),
{
    lemma_decode_encode_value(v, Seq::empty());
    assert(spec_encode_value(v) + Seq::<u8>::empty() =~= spec_encode_value(v));
}

/// Law: the encoding of every object ends with the terminator bytes
/// `00 00 09`.
pub proof fn lemma_object_terminator(es: Seq<(Seq<char>, ValueV)>)
    ensures
        spec_encode_value(ValueV::Object(es)).len() >= 3,
        spec_encode_value(ValueV::Object(es)).skip(
            spec_encode_value(ValueV::Object(es)).len() - 3,
        ) == seq![0u8, 0u8, MARKER_OBJECT_END],
{
    let b = spec_encode_value(ValueV::Object(es));
    assert(b =~= seq![MARKER_OBJECT] + spec_encode_entries(es) + seq![0u8, 0u8, MARKER_OBJECT_END]);
    assert(b.skip(b.len() - 3) =~= seq![0u8, 0u8, MARKER_OBJECT_END]);
}

/// Appending one entry to the encoded prefix extends the bytes by that
/// entry's key and value encodings.
proof fn lemma_encode_entries_take_step(es: Seq<(Seq<char>, ValueV)>, i: int)
    requires
        0 <= i < es.len(),
    ensures
        spec_encode_entries(es.take(i + 1)) == spec_encode_entries(es.take(i)) + spec_str_bytes(
            es[i].0,
        ) + spec_encode_value(es[i].1),
    decreases i,
{
    if i == 0 {
        assert(es.take(1).drop_first() =~= Seq::<(Seq<char>, ValueV)>::empty());
        assert(es.take(1)[0] == es[0]);
        assert(es.take(0) =~= Seq::<(Seq<char>, ValueV)>::empty());
        assert(spec_encode_entries(es.take(1)) =~= spec_encode_entries(es.take(0)) + spec_str_bytes(
            es[0].0,
        ) + spec_encode_value(es[0].1));
    } else {
        lemma_encode_entries_take_step(es.drop_first(), i - 1);
        assert(es.take(i + 1).drop_first() =~= es.drop_first().take(i));
        assert(es.take(i).drop_first() =~= es.drop_first().take(i - 1));
        assert(es.take(i + 1)[0] == es[0]);
        assert(es.take(i)[0] == es[0]);
        assert(es.drop_first()[i - 1] == es[i]);
        assert(spec_encode_entries(es.take(i + 1)) =~= spec_encode_entries(es.take(i))
            + spec_str_bytes(es[i].0) + spec_encode_value(es[i].1));
    }
}

} // verus!
