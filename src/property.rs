//! Node properties: the undecoded buffer of a node and the cursor that decodes it.
use vstd::prelude::*;
use vstd::string::StringSliceAdditionalSpecFns;
use vstd::utf8::{decode_utf8, encode_utf8, encode_utf8_decode_utf8, valid_utf8};
use crate::array::{array_elements, array_value, read_property_array, slot, ArrayHeader};
use crate::le::{
    i16_bytes, i32_bytes, i64_bytes, le_i16, le_i32, le_i64, le_u32, le_u64, lemma_i16_round_trip,
    lemma_i32_round_trip, lemma_i64_round_trip, lemma_u32_round_trip, lemma_u64_round_trip,
    read_i16, read_i32, read_i64, read_u32, read_u64, u32_bytes, u64_bytes,
};
use crate::value::{view_property, Property, PropertyValue};

verus! {

/// The type code of a boolean.
pub const CODE_BOOL: u8 = 0x43;
/// The type code of a 2-byte signed integer.
pub const CODE_I16: u8 = 0x59;
/// The type code of a 4-byte signed integer.
pub const CODE_I32: u8 = 0x49;
/// The type code of an 8-byte signed integer.
pub const CODE_I64: u8 = 0x4c;
/// The type code of a 4-byte floating-point number.
pub const CODE_F32: u8 = 0x46;
/// The type code of an 8-byte floating-point number.
pub const CODE_F64: u8 = 0x44;
/// The type code of a string.
pub const CODE_STRING: u8 = 0x53;
/// The type code of raw binary data.
pub const CODE_BINARY: u8 = 0x52;
/// The type code of an array of booleans.
pub const CODE_VEC_BOOL: u8 = 0x62;
/// The type code of an array of 4-byte signed integers.
pub const CODE_VEC_I32: u8 = 0x69;
/// The type code of an array of 8-byte signed integers.
pub const CODE_VEC_I64: u8 = 0x6c;
/// The type code of an array of 4-byte floating-point numbers.
pub const CODE_VEC_F32: u8 = 0x66;
/// The type code of an array of 8-byte floating-point numbers.
pub const CODE_VEC_F64: u8 = 0x64;

/// The byte length of an array header: element count, encoding, payload length.
pub const ARRAY_HEADER_LEN: usize = 12;

/// Whether `code` is the type code of a fixed-width scalar.
pub open spec fn is_scalar_code(code: u8) -> bool {
    code == CODE_BOOL || code == CODE_I16 || code == CODE_I32 || code == CODE_I64 || code
        == CODE_F32 || code == CODE_F64
}

/// Whether `code` is the type code of an array.
pub open spec fn is_array_code(code: u8) -> bool {
    code == CODE_VEC_BOOL || code == CODE_VEC_I32 || code == CODE_VEC_I64 || code == CODE_VEC_F32
        || code == CODE_VEC_F64
}

/// The byte width of a scalar, or of one element of an array, of the given type code.
pub open spec fn width_of(code: u8) -> nat {
    if code == CODE_BOOL || code == CODE_VEC_BOOL {
        1
    } else if code == CODE_I16 {
        2
    } else if code == CODE_I32 || code == CODE_F32 || code == CODE_VEC_I32 || code == CODE_VEC_F32 {
        4
    } else {
        8
    }
}

/// The value of a scalar of type code `code` whose bytes start `b`.
pub open spec fn scalar_value(code: u8, b: Seq<u8>) -> PropertyValue {
    if code == CODE_BOOL {
        PropertyValue::Bool(b[0] % 2 == 1)
    } else if code == CODE_I16 {
        PropertyValue::I16(le_i16(b))
    } else if code == CODE_I32 {
        PropertyValue::I32(le_i32(b))
    } else if code == CODE_I64 {
        PropertyValue::I64(le_i64(b))
    } else if code == CODE_F32 {
        PropertyValue::F32(le_u32(b))
    } else {
        PropertyValue::F64(le_u64(b))
    }
}

/// The value of a string property with payload `b`.
pub open spec fn string_value(b: Seq<u8>) -> PropertyValue {
    if valid_utf8(b) {
        PropertyValue::Text(decode_utf8(b))
    } else {
        PropertyValue::RawText(b)
    }
}

/// Whether the first `n` bytes of `b` are the longest prefix of `b` that is valid UTF-8.
pub open spec fn is_longest_valid_prefix(b: Seq<u8>, n: nat) -> bool {
    &&& n <= b.len()
    &&& valid_utf8(b.take(n as int))
    &&& forall|m: int| n < m <= b.len() ==> !valid_utf8(#[trigger] b.take(m))
}

/// The length of the longest prefix of `b` that is valid UTF-8.
pub open spec fn valid_up_to(b: Seq<u8>) -> nat {
    choose|n: nat| is_longest_valid_prefix(b, n)
}

proof fn lemma_longest_valid_prefix_unique(b: Seq<u8>, n: nat, m: nat)
    requires
        is_longest_valid_prefix(b, n),
        m == valid_up_to(b),
    ensures
        n == m,
{
    assert(is_longest_valid_prefix(b, m));
    if n < m {
        assert(!valid_utf8(b.take(m as int)));
    } else if m < n {
        assert(!valid_utf8(b.take(n as int)));
    }
}

/// Relies on `std::str::from_utf8`: the same bytes as text where they are valid UTF-8,
/// else the length of their longest valid prefix (`Utf8Error::valid_up_to`, documented
/// as the largest index up to which the input is valid).
#[verifier::external_body]
fn str_from_utf8<'b>(bytes: &'b [u8]) -> (r: Result<&'b str, usize>)
    ensures
        r is Ok <==> valid_utf8(bytes@),
        r matches Ok(s) ==> s.spec_bytes() == bytes@,
        r matches Err(n) ==> is_longest_valid_prefix(bytes@, n as nat),
{
    std::str::from_utf8(bytes).map_err(|e| e.valid_up_to())
}

/// Decodes `bytes` as UTF-8 text.
pub fn decode_text<'b>(bytes: &'b [u8]) -> (r: Result<&'b str, usize>)
    ensures
        r is Ok <==> valid_utf8(bytes@),
        r matches Ok(s) ==> s@ == decode_utf8(bytes@),
        r matches Err(n) ==> n == valid_up_to(bytes@),
{
    let r = str_from_utf8(bytes);
    proof {
        match r {
            Ok(s) => encode_utf8_decode_utf8(s@),
            Err(n) => lemma_longest_valid_prefix_unique(bytes@, n as nat, valid_up_to(bytes@)),
        }
    }
    r
}

/// One step of decoding: the value yielded (if any), the bytes left, and the number of
/// properties that may still be yielded. Any failure yields nothing and leaves nothing
/// to yield.
pub open spec fn decode_step(buf: Seq<u8>, remaining: nat) -> (Option<PropertyValue>, Seq<u8>, nat) {
    if remaining == 0 || buf.len() < 1 {
        (None, buf, 0)
    } else {
        let code = buf[0];
        let b = buf.skip(1);
        if is_scalar_code(code) {
            if b.len() < width_of(code) {
                (None, b, 0)
            } else {
                (Some(scalar_value(code, b)), b.skip(width_of(code) as int), (remaining - 1) as nat)
            }
        } else if code == CODE_STRING || code == CODE_BINARY {
            if b.len() < 4 {
                (None, b, 0)
            } else {
                let len = le_u32(b) as int;
                let c = b.skip(4);
                if c.len() < len {
                    (None, c, 0)
                } else {
                    let payload = c.take(len);
                    let v = if code == CODE_STRING {
                        string_value(payload)
                    } else {
                        PropertyValue::Binary(payload)
                    };
                    (Some(v), c.skip(len), (remaining - 1) as nat)
                }
            }
        } else if is_array_code(code) {
            if b.len() < ARRAY_HEADER_LEN {
                (None, b, 0)
            } else {
                let len = le_u32(b.skip(8)) as int;
                let c = b.skip(ARRAY_HEADER_LEN as int);
                if c.len() < len {
                    (None, c, 0)
                } else {
                    match array_value(code, le_u32(b) as nat, le_u32(b.skip(4)), c.take(len)) {
                        Some(v) => (Some(v), c.skip(len), (remaining - 1) as nat),
                        None => (None, c.skip(len), 0),
                    }
                }
            }
        } else {
            (None, b, 0)
        }
    }
}

/// Every value that decoding `buf` yields, when at most `remaining` may be yielded.
pub open spec fn decode_all(buf: Seq<u8>, remaining: nat) -> Seq<PropertyValue>
    decreases remaining,
{
    let (v, rest, left) = decode_step(buf, remaining);
    // A yielded value always leaves one property fewer to yield.
    match v {
        Some(x) => if left < remaining {
            seq![x] + decode_all(rest, left)
        } else {
            seq![x]
        },
        None => seq![],
    }
}

/// The undecoded properties of a node: their bytes, and the number of properties that
/// the node declares.
#[derive(Debug)]
pub struct DelayedProperties {
    buffer: Vec<u8>,
    num_properties: usize,
}

impl DelayedProperties {
    /// The undecoded bytes.
    pub closed spec fn bytes(&self) -> Seq<u8> {
        self.buffer@
    }

    /// The declared number of properties.
    pub closed spec fn count(&self) -> nat {
        self.num_properties as nat
    }

    /// The values that iteration yields.
    pub open spec fn values(&self) -> Seq<PropertyValue> {
        decode_all(self.bytes(), self.count())
    }

    /// Wraps the bytes of `num_properties` encoded properties.
    pub fn from_vec_u8(vec: Vec<u8>, _version: i32, num_properties: usize) -> (r: Self)
        ensures
            r.bytes() == vec@,
            r.count() == num_properties,
    {
        DelayedProperties { buffer: vec, num_properties }
    }

    /// An iterator over the properties, from the first.
    pub fn iter(&self) -> (r: PropertiesIter<'_>)
        ensures
            r.rest_bytes() == self.bytes(),
            r.remaining() == self.count(),
    {
        PropertiesIter { buffer: self.buffer.as_slice(), rest_properties: self.num_properties }
    }

    /// The declared number of properties: an upper bound on what iteration yields.
    pub fn num_properties(&self) -> (r: usize)
        ensures
            r == self.count(),
    {
        self.num_properties
    }
}

impl Clone for DelayedProperties {
    fn clone(&self) -> (r: Self)
        ensures
            r.bytes() == self.bytes(),
            r.count() == self.count(),
            r.values() == self.values(),
    {
        DelayedProperties { buffer: self.buffer.clone(), num_properties: self.num_properties }
    }
}

/// A cursor over the properties of a node.
pub struct PropertiesIter<'a> {
    buffer: &'a [u8],
    rest_properties: usize,
}

/// The cursor over the properties of a node, under its shorter name.
pub type Iter<'a> = PropertiesIter<'a>;

/// `s` without its first `k` bytes.
fn advance<'b>(s: &'b [u8], k: usize) -> (r: &'b [u8])
    requires
        k <= s@.len(),
    ensures
        r@ == s@.skip(k as int),
{
    let (_, tail) = s.split_at(k);
    tail
}

impl<'a> PropertiesIter<'a> {
    /// The bytes not decoded yet.
    pub closed spec fn rest_bytes(&self) -> Seq<u8> {
        self.buffer@
    }

    /// The number of properties that may still be yielded.
    pub closed spec fn remaining(&self) -> nat {
        self.rest_properties as nat
    }

    /// Stops the iteration.
    fn stop(&mut self) -> (r: Option<Property<'a>>)
        ensures
            r is None,
            final(self).rest_bytes() == old(self).rest_bytes(),
            final(self).remaining() == 0,
    {
        self.rest_properties = 0;
        None
    }

    /// Decodes the next property. `None` once the declared number of properties has been
    /// yielded, or once the data is found short, unknown or broken; after that, always `None`.
    pub fn next(&mut self) -> (r: Option<Property<'a>>)
        ensures
            (view_property(r), final(self).rest_bytes(), final(self).remaining()) == decode_step(
                old(self).rest_bytes(),
                old(self).remaining(),
            ),
    {
        if self.rest_properties == 0 || self.buffer.len() < 1 {
            return self.stop();
        }
        let type_code = self.buffer[0];
        self.buffer = advance(self.buffer, 1);
        let b = Ghost(self.buffer@);
        if type_code == CODE_BOOL {
            if self.buffer.len() < 1 {
                return self.stop();
            }
            let val = self.buffer[0];
            self.buffer = advance(self.buffer, 1);
            self.rest_properties = self.rest_properties - 1;
            Some(Property::Bool(val % 2 == 1))
        } else if type_code == CODE_I16 {
            if self.buffer.len() < 2 {
                return self.stop();
            }
            let val = read_i16(self.buffer, 0);
            proof { assert(b@.subrange(0, 2) =~= b@.take(2)); }
            self.buffer = advance(self.buffer, 2);
            self.rest_properties = self.rest_properties - 1;
            Some(Property::I16(val))
        } else if type_code == CODE_I32 {
            if self.buffer.len() < 4 {
                return self.stop();
            }
            let val = read_i32(self.buffer, 0);
            self.buffer = advance(self.buffer, 4);
            self.rest_properties = self.rest_properties - 1;
            Some(Property::I32(val))
        } else if type_code == CODE_I64 {
            if self.buffer.len() < 8 {
                return self.stop();
            }
            let val = read_i64(self.buffer, 0);
            self.buffer = advance(self.buffer, 8);
            self.rest_properties = self.rest_properties - 1;
            Some(Property::I64(val))
        } else if type_code == CODE_F32 {
            if self.buffer.len() < 4 {
                return self.stop();
            }
            let val = read_u32(self.buffer, 0);
            self.buffer = advance(self.buffer, 4);
            self.rest_properties = self.rest_properties - 1;
            Some(Property::F32(val))
        } else if type_code == CODE_F64 {
            if self.buffer.len() < 8 {
                return self.stop();
            }
            let val = read_u64(self.buffer, 0);
            self.buffer = advance(self.buffer, 8);
            self.rest_properties = self.rest_properties - 1;
            Some(Property::F64(val))
        } else if type_code == CODE_STRING || type_code == CODE_BINARY {
            if self.buffer.len() < 4 {
                return self.stop();
            }
            let length = read_u32(self.buffer, 0) as usize;
            self.buffer = advance(self.buffer, 4);
            if self.buffer.len() < length {
                return self.stop();
            }
            let (payload, tail) = self.buffer.split_at(length);
            self.buffer = tail;
            self.rest_properties = self.rest_properties - 1;
            if type_code == CODE_STRING {
                let text = match decode_text(payload) {
                    Ok(s) => Ok(s),
                    Err(_) => Err(payload),
                };
                Some(Property::String(text))
            } else {
                Some(Property::Binary(payload))
            }
        } else if is_array(type_code) {
            let header = match ArrayHeader::from_binary(self.buffer) {
                Some((header, length)) => {
                    self.buffer = advance(self.buffer, length);
                    header
                },
                None => {
                    return self.stop();
                },
            };
            let length = header.compressed_length as usize;
            if self.buffer.len() < length {
                return self.stop();
            }
            let (payload, tail) = self.buffer.split_at(length);
            self.buffer = tail;
            match read_property_array(payload, &header, type_code) {
                Some(val) => {
                    self.rest_properties = self.rest_properties - 1;
                    Some(val)
                },
                None => self.stop(),
            }
        } else {
            self.stop()
        }
    }

    /// Bounds on the number of properties left: none may be, at most `remaining` are.
    pub fn size_hint(&self) -> (r: (usize, Option<usize>))
        ensures
            r == (0usize, Some(self.remaining() as usize)),
    {
        (0, Some(self.rest_properties))
    }
}

/// Whether `code` is the type code of an array.
fn is_array(code: u8) -> (r: bool)
    ensures
        r == is_array_code(code),
{
    code == CODE_VEC_BOOL || code == CODE_VEC_I32 || code == CODE_VEC_I64 || code == CODE_VEC_F32
        || code == CODE_VEC_F64
}

/// The canonical byte of a true boolean, `Y`.
pub const BOOL_TRUE: u8 = 0x59;
/// The canonical byte of a false boolean, `T`.
pub const BOOL_FALSE: u8 = 0x54;

/// The bytes of a length-prefixed payload: its length as four bytes, then the payload.
pub open spec fn with_length(b: Seq<u8>) -> Seq<u8> {
    u32_bytes(b.len() as int) + b
}

/// The type code of an array value, and the bytes of each of its elements.
pub open spec fn array_parts(v: PropertyValue) -> (u8, Seq<Seq<u8>>) {
    match v {
        PropertyValue::VecBool(xs) => (
            CODE_VEC_BOOL,
            xs.map_values(|b: bool| seq![if b { BOOL_TRUE } else { BOOL_FALSE }]),
        ),
        PropertyValue::VecI32(xs) => (CODE_VEC_I32, xs.map_values(|x: i32| i32_bytes(x))),
        PropertyValue::VecI64(xs) => (CODE_VEC_I64, xs.map_values(|x: i64| i64_bytes(x))),
        PropertyValue::VecF32(xs) => (CODE_VEC_F32, xs.map_values(|x: u32| u32_bytes(x as int))),
        PropertyValue::VecF64(xs) => (CODE_VEC_F64, xs.map_values(|x: u64| u64_bytes(x as int))),
        _ => (0, seq![]),
    }
}

/// Whether `v` is an array.
pub open spec fn is_array_value(v: PropertyValue) -> bool {
    v is VecBool || v is VecI32 || v is VecI64 || v is VecF32 || v is VecF64
}

/// Whether `v` has an encoding as one property that `encode_value` writes: a scalar; a
/// string or binary value, or an array written plainly, whose byte length fits the
/// four-byte length prefix.
pub open spec fn encodable(v: PropertyValue) -> bool {
    match v {
        PropertyValue::VecBool(_) | PropertyValue::VecI32(_) | PropertyValue::VecI64(_)
        | PropertyValue::VecF32(_) | PropertyValue::VecF64(_) => array_parts(v).1.len()
            * width_of(array_parts(v).0) < 0x1_0000_0000,
        PropertyValue::Bool(_) | PropertyValue::I16(_) | PropertyValue::I32(_)
        | PropertyValue::I64(_) | PropertyValue::F32(_) | PropertyValue::F64(_) => true,
        PropertyValue::Text(c) => encode_utf8(c).len() < 0x1_0000_0000,
        PropertyValue::RawText(b) => b.len() < 0x1_0000_0000 && !valid_utf8(b),
        PropertyValue::Binary(b) => b.len() < 0x1_0000_0000,
    }
}

/// The encoding of one property: its type code, then its value in the layout of the
/// format (booleans as `Y` or `T`, numbers least significant byte first, arrays with a
/// header of element count, plain encoding and byte length).
pub open spec fn encode_value(v: PropertyValue) -> Seq<u8> {
    match v {
        PropertyValue::Bool(b) => seq![CODE_BOOL, if b { BOOL_TRUE } else { BOOL_FALSE }],
        PropertyValue::I16(x) => seq![CODE_I16] + i16_bytes(x),
        PropertyValue::I32(x) => seq![CODE_I32] + i32_bytes(x),
        PropertyValue::I64(x) => seq![CODE_I64] + i64_bytes(x),
        PropertyValue::F32(x) => seq![CODE_F32] + u32_bytes(x as int),
        PropertyValue::F64(x) => seq![CODE_F64] + u64_bytes(x as int),
        PropertyValue::Text(c) => seq![CODE_STRING] + with_length(encode_utf8(c)),
        PropertyValue::RawText(b) => seq![CODE_STRING] + with_length(b),
        PropertyValue::Binary(b) => seq![CODE_BINARY] + with_length(b),
        _ => {
            let (code, chunks) = array_parts(v);
            seq![code] + u32_bytes(chunks.len() as int) + u32_bytes(0) + with_length(
                chunks.flatten(),
            )
        },
    }
}

/// Chunks of `w` bytes each, one after the other: the `k`th slot is the `k`th chunk.
proof fn lemma_flatten_slots(chunks: Seq<Seq<u8>>, w: int)
    requires
        w > 0,
        forall|i: int| 0 <= i < chunks.len() ==> (#[trigger] chunks[i]).len() == w,
    ensures
        chunks.flatten().len() == w * chunks.len(),
        forall|k: int| 0 <= k < chunks.len() ==> #[trigger] slot(chunks.flatten(), w, k) == chunks[k],
    decreases chunks.len(),
{
    if chunks.len() > 0 {
        let rest = chunks.drop_first();
        assert forall|i: int| 0 <= i < rest.len() implies (#[trigger] rest[i]).len() == w by {
            assert(rest[i] == chunks[i + 1]);
        }
        lemma_flatten_slots(rest, w);
        let flat = chunks.flatten();
        assert(flat == chunks[0] + rest.flatten());
        assert(w * chunks.len() == w + w * rest.len()) by (nonlinear_arith)
            requires
                chunks.len() == rest.len() + 1,
        ;
        assert forall|k: int| 0 <= k < chunks.len() implies #[trigger] slot(flat, w, k)
            == chunks[k] by {
            if k == 0 {
                assert(slot(flat, w, 0) =~= chunks[0]);
            } else {
                assert(w * k == w + w * (k - 1)) by (nonlinear_arith);
                assert(w * (k - 1) + w <= w * rest.len()) by (nonlinear_arith)
                    requires
                        k - 1 < rest.len(),
                        w > 0,
                ;
                assert(slot(flat, w, k) =~= slot(rest.flatten(), w, k - 1));
                assert(rest[k - 1] == chunks[k]);
            }
        }
    }
}

proof fn lemma_bool_elements(xs: Seq<bool>)
    ensures
        ({
            let flat = array_parts(PropertyValue::VecBool(xs)).1.flatten();
            flat.len() == xs.len() && array_elements(CODE_VEC_BOOL, xs.len(), flat) == Some(
                PropertyValue::VecBool(xs),
            )
        }),
{
    let chunks = array_parts(PropertyValue::VecBool(xs)).1;
    let flat = chunks.flatten();
    lemma_flatten_slots(chunks, 1);
    assert forall|k: int| 0 <= k < xs.len() implies (flat[k] % 2 == 1) == xs[k] by {
        assert(slot(flat, 1, k) == chunks[k]);
        assert(slot(flat, 1, k)[0] == flat[k]);
    }
    assert(Seq::new(xs.len(), |k: int| flat[k] % 2 == 1) =~= xs);
}

proof fn lemma_i32_elements(xs: Seq<i32>)
    ensures
        ({
            let flat = array_parts(PropertyValue::VecI32(xs)).1.flatten();
            flat.len() == 4 * xs.len() && array_elements(CODE_VEC_I32, xs.len(), flat) == Some(
                PropertyValue::VecI32(xs),
            )
        }),
{
    let chunks = array_parts(PropertyValue::VecI32(xs)).1;
    let flat = chunks.flatten();
    lemma_flatten_slots(chunks, 4);
    assert forall|k: int| 0 <= k < xs.len() implies le_i32(#[trigger] slot(flat, 4, k)) == xs[k] by {
        assert(slot(flat, 4, k) == chunks[k]);
        lemma_i32_round_trip(xs[k]);
    }
    assert(Seq::new(xs.len(), |k: int| le_i32(slot(flat, 4, k))) =~= xs);
}

proof fn lemma_i64_elements(xs: Seq<i64>)
    ensures
        ({
            let flat = array_parts(PropertyValue::VecI64(xs)).1.flatten();
            flat.len() == 8 * xs.len() && array_elements(CODE_VEC_I64, xs.len(), flat) == Some(
                PropertyValue::VecI64(xs),
            )
        }),
{
    let chunks = array_parts(PropertyValue::VecI64(xs)).1;
    let flat = chunks.flatten();
    lemma_flatten_slots(chunks, 8);
    assert forall|k: int| 0 <= k < xs.len() implies le_i64(#[trigger] slot(flat, 8, k)) == xs[k] by {
        assert(slot(flat, 8, k) == chunks[k]);
        lemma_i64_round_trip(xs[k]);
    }
    assert(Seq::new(xs.len(), |k: int| le_i64(slot(flat, 8, k))) =~= xs);
}

proof fn lemma_u32_elements(xs: Seq<u32>)
    ensures
        ({
            let flat = array_parts(PropertyValue::VecF32(xs)).1.flatten();
            flat.len() == 4 * xs.len() && array_elements(CODE_VEC_F32, xs.len(), flat) == Some(
                PropertyValue::VecF32(xs),
            )
        }),
{
    let chunks = array_parts(PropertyValue::VecF32(xs)).1;
    let flat = chunks.flatten();
    lemma_flatten_slots(chunks, 4);
    assert forall|k: int| 0 <= k < xs.len() implies le_u32(#[trigger] slot(flat, 4, k)) == xs[k] by {
        assert(slot(flat, 4, k) == chunks[k]);
        lemma_u32_round_trip(xs[k] as int);
    }
    assert(Seq::new(xs.len(), |k: int| le_u32(slot(flat, 4, k))) =~= xs);
}

proof fn lemma_u64_elements(xs: Seq<u64>)
    ensures
        ({
            let flat = array_parts(PropertyValue::VecF64(xs)).1.flatten();
            flat.len() == 8 * xs.len() && array_elements(CODE_VEC_F64, xs.len(), flat) == Some(
                PropertyValue::VecF64(xs),
            )
        }),
{
    let chunks = array_parts(PropertyValue::VecF64(xs)).1;
    let flat = chunks.flatten();
    lemma_flatten_slots(chunks, 8);
    assert forall|k: int| 0 <= k < xs.len() implies le_u64(#[trigger] slot(flat, 8, k)) == xs[k] by {
        assert(slot(flat, 8, k) == chunks[k]);
        lemma_u64_round_trip(xs[k] as int);
    }
    assert(Seq::new(xs.len(), |k: int| le_u64(slot(flat, 8, k))) =~= xs);
}

/// The elements of an array written plainly read back as the array.
proof fn lemma_array_round_trip(v: PropertyValue)
    requires
        is_array_value(v),
    ensures
        array_parts(v).1.flatten().len() == array_parts(v).1.len() * width_of(array_parts(v).0),
        array_elements(array_parts(v).0, array_parts(v).1.len(), array_parts(v).1.flatten())
            == Some(v),
{
    match v {
        PropertyValue::VecBool(xs) => lemma_bool_elements(xs),
        PropertyValue::VecI32(xs) => lemma_i32_elements(xs),
        PropertyValue::VecI64(xs) => lemma_i64_elements(xs),
        PropertyValue::VecF32(xs) => lemma_u32_elements(xs),
        PropertyValue::VecF64(xs) => lemma_u64_elements(xs),
        _ => {},
    }
}

/// The encodings of `vs`, one after the other.
pub open spec fn encode_values(vs: Seq<PropertyValue>) -> Seq<u8>
    decreases vs.len(),
{
    if vs.len() == 0 {
        seq![]
    } else {
        encode_value(vs[0]) + encode_values(vs.skip(1))
    }
}

proof fn lemma_payload_step(code: u8, b: Seq<u8>, rest: Seq<u8>, n: nat)
    requires
        code == CODE_STRING || code == CODE_BINARY,
        b.len() < 0x1_0000_0000,
        n >= 1,
    ensures
        decode_step(seq![code] + with_length(b) + rest, n) == (
            Some(
                if code == CODE_STRING {
                    string_value(b)
                } else {
                    PropertyValue::Binary(b)
                },
            ),
            rest,
            (n - 1) as nat,
        ),
{
    let buf = seq![code] + with_length(b) + rest;
    let t = buf.skip(1);
    lemma_u32_round_trip(b.len() as int);
    assert(t =~= u32_bytes(b.len() as int) + b + rest);
    assert(le_u32(t) == le_u32(u32_bytes(b.len() as int)));
    assert(t.skip(4) =~= b + rest);
    assert(t.skip(4).take(b.len() as int) =~= b);
    assert(t.skip(4).skip(b.len() as int) =~= rest);
}

proof fn lemma_array_step(v: PropertyValue, rest: Seq<u8>, n: nat)
    requires
        is_array_value(v),
        encodable(v),
        n >= 1,
    ensures
        decode_step(encode_value(v) + rest, n) == (Some(v), rest, (n - 1) as nat),
{
    let t = (encode_value(v) + rest).skip(1);
    let (code, chunks) = array_parts(v);
    let flat = chunks.flatten();
    let len = flat.len() as int;
    let count = chunks.len() as int;
    lemma_array_round_trip(v);
    assert(count <= count * width_of(code)) by (nonlinear_arith)
        requires
            width_of(code) >= 1,
            count >= 0,
    ;
    lemma_u32_round_trip(count);
    lemma_u32_round_trip(0);
    lemma_u32_round_trip(len);
    assert(t =~= u32_bytes(count) + u32_bytes(0) + u32_bytes(len) + flat + rest);
    assert(le_u32(t) == le_u32(u32_bytes(count)));
    assert(le_u32(t.skip(4)) == le_u32(u32_bytes(0)));
    assert(le_u32(t.skip(8)) == le_u32(u32_bytes(len)));
    assert(t.skip(12) =~= flat + rest);
    assert(t.skip(12).take(len) =~= flat);
    assert(t.skip(12).skip(len) =~= rest);
}

/// Decoding the encoding of a scalar, a string or binary value, or an array written
/// plainly, followed by anything, yields that value and leaves what follows.
pub proof fn lemma_value_round_trip(v: PropertyValue, rest: Seq<u8>, n: nat)
    requires
        encodable(v),
        n >= 1,
    ensures
        decode_step(encode_value(v) + rest, n) == (Some(v), rest, (n - 1) as nat),
{
    let buf = encode_value(v) + rest;
    let t = buf.skip(1);
    match v {
        PropertyValue::Bool(x) => {
            assert(t.skip(1) =~= rest);
        },
        PropertyValue::I16(x) => {
            lemma_i16_round_trip(x);
            assert(t.skip(2) =~= rest);
            assert(le_i16(t) == le_i16(i16_bytes(x)));
        },
        PropertyValue::I32(x) => {
            lemma_i32_round_trip(x);
            assert(t.skip(4) =~= rest);
            assert(le_i32(t) == le_i32(i32_bytes(x)));
        },
        PropertyValue::I64(x) => {
            lemma_i64_round_trip(x);
            assert(t.skip(8) =~= rest);
            assert(t.subrange(4, 8) =~= i64_bytes(x).subrange(4, 8));
            assert(le_i64(t) == le_i64(i64_bytes(x)));
        },
        PropertyValue::F32(x) => {
            lemma_u32_round_trip(x as int);
            assert(t.skip(4) =~= rest);
            assert(le_u32(t) == le_u32(u32_bytes(x as int)));
        },
        PropertyValue::F64(x) => {
            lemma_u64_round_trip(x as int);
            assert(t.skip(8) =~= rest);
            assert(t.subrange(4, 8) =~= u64_bytes(x as int).subrange(4, 8));
            assert(le_u64(t) == le_u64(u64_bytes(x as int)));
        },
        PropertyValue::Text(c) => {
            lemma_payload_step(CODE_STRING, encode_utf8(c), rest, n);
            encode_utf8_decode_utf8(c);
            vstd::utf8::encode_utf8_valid_utf8(c);
        },
        PropertyValue::RawText(b) => {
            lemma_payload_step(CODE_STRING, b, rest, n);
        },
        PropertyValue::Binary(b) => {
            lemma_payload_step(CODE_BINARY, b, rest, n);
        },
        _ => {
            lemma_array_step(v, rest, n);
        },
    }
}

/// Decoding never yields more properties than are declared.
pub proof fn lemma_at_most_declared(buf: Seq<u8>, n: nat)
    ensures
        decode_all(buf, n).len() <= n,
    decreases n,
{
    let (v, rest, left) = decode_step(buf, n);
    if v is Some && left < n {
        lemma_at_most_declared(rest, left);
    }
}

/// A buffer that holds the encodings of `n` values yields exactly those `n` values.
pub proof fn lemma_valid_yields_all(vs: Seq<PropertyValue>)
    requires
        forall|i: int| 0 <= i < vs.len() ==> encodable(#[trigger] vs[i]),
    ensures
        decode_all(encode_values(vs), vs.len()) == vs,
    decreases vs.len(),
{
    if vs.len() > 0 {
        let tail = vs.skip(1);
        assert forall|i: int| 0 <= i < tail.len() implies encodable(#[trigger] tail[i]) by {
            assert(tail[i] == vs[i + 1]);
        }
        lemma_valid_yields_all(tail);
        lemma_value_round_trip(vs[0], encode_values(tail), vs.len());
        assert(seq![vs[0]] + tail =~= vs);
    }
}

/// A clone of a property buffer yields the very values of the buffer that it was cloned from.
pub proof fn lemma_clone_yields_same(source: &DelayedProperties, copy: &DelayedProperties)
    requires
        copy.bytes() == source.bytes(),
        copy.count() == source.count(),
    ensures
        copy.values() == source.values(),
{
}

/// An unknown type code ends the decoding: nothing is yielded from it on, while what
/// came before it stays as it was.
pub proof fn lemma_unknown_code_stops(before: Seq<PropertyValue>, code: u8, rest: Seq<u8>, n: nat)
    requires
        forall|i: int| 0 <= i < before.len() ==> encodable(#[trigger] before[i]),
        !is_scalar_code(code),
        !is_array_code(code),
        code != CODE_STRING,
        code != CODE_BINARY,
        n > before.len(),
    ensures
        decode_step(seq![code] + rest, (n - before.len()) as nat) == (None::<PropertyValue>, rest, 0nat),
        decode_all(encode_values(before) + seq![code] + rest, n) == before,
    decreases before.len(),
{
    assert((seq![code] + rest).skip(1) =~= rest);
    if before.len() > 0 {
        let tail = before.skip(1);
        assert forall|i: int| 0 <= i < tail.len() implies encodable(#[trigger] tail[i]) by {
            assert(tail[i] == before[i + 1]);
        }
        lemma_unknown_code_stops(tail, code, rest, (n - 1) as nat);
        let after = encode_values(tail) + seq![code] + rest;
        assert(encode_values(before) + seq![code] + rest =~= encode_value(before[0]) + after);
        lemma_value_round_trip(before[0], after, n);
        assert(seq![before[0]] + tail =~= before);
    } else {
        assert(encode_values(before) + seq![code] + rest =~= seq![code] + rest);
    }
}

/// An array whose encoding is neither plain nor zlib ends the decoding.
pub proof fn lemma_unknown_encoding_stops(code: u8, b: Seq<u8>, n: nat)
    requires
        is_array_code(code),
        n > 0,
        b.len() >= ARRAY_HEADER_LEN,
        le_u32(b.skip(4)) != 0,
        le_u32(b.skip(4)) != 1,
    ensures
        decode_step(seq![code] + b, n).0 is None,
        decode_step(seq![code] + b, n).2 == 0,
{
    assert((seq![code] + b).skip(1) =~= b);
}

} // verus!
