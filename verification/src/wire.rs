//! The wire codec: a value model for binary messages, an exact structural
//! encoder over the MessagePack scalar writers, and the stable tags of the
//! protocol. Every message is a two-element array of a tag and a body.
use vstd::prelude::*;

use crate::geometry::{Rect, Vector};
use crate::incremental_value::IncrementalValueLike;

verus! {

/// A value as it goes on the wire.
pub enum WireValue {
    Nil,
    Bool(bool),
    U(u64),
    I(i64),
    Str(String),
    Arr(Vec<WireValue>),
    Dict(Vec<(WireValue, WireValue)>),
}


/// Name for the encoding of an unsigned integer: what `rmp` writes for it
/// depends on the value alone.
pub uninterp spec fn u64_msgpack(x: u64) -> Seq<u8>;

/// Name for the encoding of a signed integer.
pub uninterp spec fn i64_msgpack(x: i64) -> Seq<u8>;

/// Name for the encoding of a string.
pub uninterp spec fn str_msgpack(s: Seq<char>) -> Seq<u8>;

/// Name for the array-length header.
pub uninterp spec fn arr_len_msgpack(n: u32) -> Seq<u8>;

/// Name for the map-length header.
pub uninterp spec fn map_len_msgpack(n: u32) -> Seq<u8>;

/// The exact bytes a wire value encodes to: each scalar's own encoding,
/// and for the containers a length header followed by the elements in
/// order.
pub open spec fn wire_bytes(w: WireValue) -> Seq<u8>
    decreases w, 0int,
{
    match w {
        WireValue::Nil => seq![0xc0u8],
        WireValue::Bool(b) => if b {
            seq![0xc3u8]
        } else {
            seq![0xc2u8]
        },
        WireValue::U(x) => u64_msgpack(x),
        WireValue::I(x) => i64_msgpack(x),
        WireValue::Str(s) => str_msgpack(s@),
        WireValue::Arr(vs) => arr_len_msgpack(vs@.len() as u32) + arr_tail_bytes(vs@, 0),
        WireValue::Dict(ps) => map_len_msgpack(ps@.len() as u32) + map_tail_bytes(ps@, 0),
    }
}

/// The encodings of the elements of an array from index `i` on.
pub open spec fn arr_tail_bytes(vs: Seq<WireValue>, i: int) -> Seq<u8>
    decreases vs, vs.len() - i,
{
    if i < 0 || i >= vs.len() {
        Seq::empty()
    } else {
        wire_bytes(vs[i]) + arr_tail_bytes(vs, i + 1)
    }
}

/// The encodings of the pairs of a map from index `i` on, keys first.
pub open spec fn map_tail_bytes(ps: Seq<(WireValue, WireValue)>, i: int) -> Seq<u8>
    decreases ps, ps.len() - i,
{
    if i < 0 || i >= ps.len() {
        Seq::empty()
    } else {
        wire_bytes(ps[i].0) + wire_bytes(ps[i].1) + map_tail_bytes(ps, i + 1)
    }
}

/// Relies on rmp::encode::write_nil: one byte, the nil marker; writing to
/// a byte vector cannot fail.
#[verifier::external_body]
fn rmp_write_nil(buf: &mut Vec<u8>)
    ensures
        final(buf)@ == old(buf)@.push(0xc0u8),
{
    rmp::encode::write_nil(buf).unwrap()
}

/// Relies on rmp::encode::write_bool: one byte, the true or false marker.
#[verifier::external_body]
fn rmp_write_bool(buf: &mut Vec<u8>, b: bool)
    ensures
        final(buf)@ == old(buf)@.push(
            if b {
                0xc3u8
            } else {
                0xc2u8
            },
        ),
{
    rmp::encode::write_bool(buf, b).unwrap()
}

/// Relies on rmp::encode::write_uint: the smallest unsigned encoding of
/// the value, a function of the value alone, at least one byte.
#[verifier::external_body]
fn rmp_write_uint(buf: &mut Vec<u8>, x: u64)
    ensures
        final(buf)@ == old(buf)@ + u64_msgpack(x),
{
    rmp::encode::write_uint(buf, x).unwrap();
}

/// Relies on rmp::encode::write_sint: the smallest signed encoding of the
/// value, a function of the value alone, at least one byte.
#[verifier::external_body]
fn rmp_write_sint(buf: &mut Vec<u8>, x: i64)
    ensures
        final(buf)@ == old(buf)@ + i64_msgpack(x),
{
    rmp::encode::write_sint(buf, x).unwrap();
}

/// Relies on rmp::encode::write_str: a string-length header followed by
/// the UTF-8 bytes, a function of the characters alone.
#[verifier::external_body]
fn rmp_write_str(buf: &mut Vec<u8>, s: &String)
    ensures
        final(buf)@ == old(buf)@ + str_msgpack(s@),
{
    rmp::encode::write_str(buf, s.as_str()).unwrap();
}

/// Relies on rmp::encode::write_array_len: the smallest array-length
/// header, a function of the length alone.
#[verifier::external_body]
fn rmp_write_array_len(buf: &mut Vec<u8>, n: u32)
    ensures
        final(buf)@ == old(buf)@ + arr_len_msgpack(n),
{
    rmp::encode::write_array_len(buf, n).unwrap();
}

/// Relies on rmp::encode::write_map_len: the smallest map-length header,
/// a function of the length alone.
#[verifier::external_body]
fn rmp_write_map_len(buf: &mut Vec<u8>, n: u32)
    ensures
        final(buf)@ == old(buf)@ + map_len_msgpack(n),
{
    rmp::encode::write_map_len(buf, n).unwrap();
}

/// Appends the exact MessagePack encoding of a value to the buffer: the
/// scalars through the format's own writers, the containers structurally.
pub fn encode_value(w: &WireValue, buf: &mut Vec<u8>)
    requires
    ensures
        final(buf)@ == old(buf)@ + wire_bytes(*w),
    decreases *w,
{
    match w {
        WireValue::Nil => {
            rmp_write_nil(buf);
            proof {
                assert(buf@ =~= old(buf)@ + wire_bytes(*w));
            }
        },
        WireValue::Bool(b) => {
            rmp_write_bool(buf, *b);
            proof {
                assert(buf@ =~= old(buf)@ + wire_bytes(*w));
            }
        },
        WireValue::U(x) => {
            rmp_write_uint(buf, *x);
        },
        WireValue::I(x) => {
            rmp_write_sint(buf, *x);
        },
        WireValue::Str(s) => {
            rmp_write_str(buf, s);
        },
        WireValue::Arr(vs) => {
            rmp_write_array_len(buf, vs.len() as u32);
            let n = vs.len();
            let mut i: usize = 0;
            while i < n
                invariant
                    n == vs@.len(),
                    i <= n,
                    w == WireValue::Arr(*vs),
                    buf@ + arr_tail_bytes(vs@, i as int) == old(buf)@ + wire_bytes(*w),
                decreases n - i,
            {
                proof {
                    assert(arr_tail_bytes(vs@, i as int) == wire_bytes(vs@[i as int])
                        + arr_tail_bytes(vs@, i + 1));
                }
                encode_value(&vs[i], buf);
                proof {
                    assert(buf@ + arr_tail_bytes(vs@, i + 1) =~= old(buf)@ + wire_bytes(*w));
                }
                i += 1;
            }
            proof {
                assert(buf@ =~= buf@ + arr_tail_bytes(vs@, n as int));
            }
        },
        WireValue::Dict(ps) => {
            rmp_write_map_len(buf, ps.len() as u32);
            let n = ps.len();
            let mut i: usize = 0;
            while i < n
                invariant
                    n == ps@.len(),
                    i <= n,
                    w == WireValue::Dict(*ps),
                    buf@ + map_tail_bytes(ps@, i as int) == old(buf)@ + wire_bytes(*w),
                decreases n - i,
            {
                proof {
                    assert(map_tail_bytes(ps@, i as int) == wire_bytes(ps@[i as int].0)
                        + wire_bytes(ps@[i as int].1) + map_tail_bytes(ps@, i + 1));
                }
                encode_value(&ps[i].0, buf);
                encode_value(&ps[i].1, buf);
                proof {
                    assert(buf@ + map_tail_bytes(ps@, i + 1) =~= old(buf)@ + wire_bytes(*w));
                }
                i += 1;
            }
            proof {
                assert(buf@ =~= buf@ + map_tail_bytes(ps@, n as int));
            }
        },
    }
}

/// Frames an outbound message: the two-element array of the message tag
/// and the body, encoded to bytes.
pub fn encode_message(flag: u8, body: WireValue) -> (r: Vec<u8>)
    requires
    ensures
        r@ == arr_len_msgpack(2) + u64_msgpack(flag as u64) + wire_bytes(body),
{
    let ghost b = body;
    let mut parts: Vec<WireValue> = Vec::new();
    parts.push(WireValue::U(flag as u64));
    parts.push(body);
    let message = WireValue::Arr(parts);
    let mut buf: Vec<u8> = Vec::new();
    encode_value(&message, &mut buf);
    proof {
        let vs = message->Arr_0@;
        assert(arr_tail_bytes(vs, 0) == wire_bytes(vs[0]) + arr_tail_bytes(vs, 1));
        assert(arr_tail_bytes(vs, 1) == wire_bytes(vs[1]) + arr_tail_bytes(vs, 2));
        assert(arr_tail_bytes(vs, 2) =~= Seq::<u8>::empty());
        assert(buf@ =~= Seq::<u8>::empty() + wire_bytes(message));
        assert(buf@ =~= arr_len_msgpack(2) + u64_msgpack(flag as u64) + wire_bytes(b));
    }
    buf
}


/// Data structure that message fields are packed into.
pub type PackData = Vec<(WireValue, WireValue)>;

/// The type of flag that will be used on the wire.
pub type PackFlagRaw = u8;

/// The type of flag to use in a packed map.
pub trait PackFlag {
    /// The stable small integer of this field.
    fn pack_flag(&self) -> PackFlagRaw;
}

/// Whether a wire value is the serialization of a 3-vector: its three
/// milli-unit components in order.
pub open spec fn is_ser_vector(w: WireValue, v: Vector) -> bool {
    &&& w is Arr
    &&& w->Arr_0@ == seq![WireValue::I(v.x), WireValue::I(v.y), WireValue::I(v.z)]
}

pub fn ser_vector(v: &Vector) -> (r: WireValue)
    ensures
        is_ser_vector(r, *v),
{
    let mut items: Vec<WireValue> = Vec::new();
    items.push(WireValue::I(v.x));
    items.push(WireValue::I(v.y));
    items.push(WireValue::I(v.z));
    let r = WireValue::Arr(items);
    proof {
        assert(r->Arr_0@ =~= seq![WireValue::I(v.x), WireValue::I(v.y), WireValue::I(v.z)]);
    }
    r
}

/// Whether a wire value is the serialization of a rect: its centre then
/// its size.
pub open spec fn is_ser_rect(w: WireValue, rc: Rect) -> bool {
    &&& w is Arr
    &&& w->Arr_0@.len() == 2
    &&& is_ser_vector(w->Arr_0@[0], rc.center)
    &&& is_ser_vector(w->Arr_0@[1], rc.size)
}

pub fn ser_rect(rc: &Rect) -> (r: WireValue)
    ensures
        is_ser_rect(r, *rc),
{
    let mut items: Vec<WireValue> = Vec::new();
    items.push(ser_vector(&rc.center));
    items.push(ser_vector(&rc.size));
    WireValue::Arr(items)
}

/// Whether a wire value is the serialization of a rect list, in order.
pub open spec fn is_ser_rects(w: WireValue, s: Seq<Rect>) -> bool {
    &&& w is Arr
    &&& w->Arr_0@.len() == s.len()
    &&& forall|i: int| 0 <= i < s.len() ==> is_ser_rect(#[trigger] w->Arr_0@[i], s[i])
}

pub fn ser_rects(v: &Vec<Rect>) -> (r: WireValue)
    requires
        v@.len() <= 0xffff_ffff,
    ensures
        is_ser_rects(r, v@),
{
    let n = v.len();
    let mut items: Vec<WireValue> = Vec::new();
    let mut i: usize = 0;
    while i < n
        invariant
            n == v@.len(),
            i <= n,
            items@.len() == i,
            forall|j: int|
                0 <= j < i ==> is_ser_rect(#[trigger] items@[j], v@[j]),
        decreases n - i,
    {
        items.push(ser_rect(&v[i]));
        i += 1;
    }
    WireValue::Arr(items)
}

/// An optional label on the wire: the string or nil.
pub open spec fn spec_ser_opt_string(s: Option<String>) -> WireValue {
    match s {
        Some(x) => WireValue::Str(x),
        None => WireValue::Nil,
    }
}

pub fn ser_opt_string(s: &Option<String>) -> (r: WireValue)
    ensures
        match *s {
            Some(x) => r is Str && r->Str_0@ == x@,
            None => r is Nil,
        },
{
    match s {
        Some(x) => WireValue::Str(crate::game_config::clone_string(x)),
        None => WireValue::Nil,
    }
}

/// Appends one flagged value to packed data.
pub fn pack_value(data: &mut PackData, flag: PackFlagRaw, value: WireValue)
    ensures
        final(data)@ == old(data)@.push((WireValue::U(flag as u64), value)),
{
    data.push((WireValue::U(flag as u64), value));
}

/// Appends a dirty-tracked field to packed data exactly when the update is
/// an init or the field changed since the last commit.
pub fn pack_incremental_value<T, V: IncrementalValueLike<T>>(
    init: bool,
    data: &mut PackData,
    flag: PackFlagRaw,
    iv: &V,
    value: WireValue,
)
    requires
        iv.wf(),
    ensures
        final(data)@ == if init || iv.spec_changed() {
            old(data)@.push((WireValue::U(flag as u64), value))
        } else {
            old(data)@
        },
{
    if init || iv.is_changed() {
        pack_value(data, flag, value);
    }
}

} // verus!
