//! Array properties: the array header, and the payload, plain or zlib-compressed.
use std::io::Read;
use vstd::prelude::*;
use crate::le::{le_i32, le_i64, le_u32, le_u64, read_i32, read_i64, read_u32, read_u64};
use crate::property::{
    is_array_code, width_of, ARRAY_HEADER_LEN, CODE_VEC_BOOL, CODE_VEC_F32, CODE_VEC_I32,
    CODE_VEC_I64,
};
use crate::value::{view_property, Property, PropertyValue};

verus! {

/// The `k`th of the `w`-byte slots of `raw`.
pub open spec fn slot(raw: Seq<u8>, w: int, k: int) -> Seq<u8> {
    raw.subrange(w * k, w * k + w)
}

/// The array of `n` elements of type code `code` laid out plainly at the start of `raw`,
/// or `None` where `raw` is too short for them.
pub open spec fn array_elements(code: u8, n: nat, raw: Seq<u8>) -> Option<PropertyValue> {
    if raw.len() < n * width_of(code) {
        None
    } else if code == CODE_VEC_BOOL {
        Some(PropertyValue::VecBool(Seq::new(n, |k: int| raw[k] % 2 == 1)))
    } else if code == CODE_VEC_I32 {
        Some(PropertyValue::VecI32(Seq::new(n, |k: int| le_i32(slot(raw, 4, k)))))
    } else if code == CODE_VEC_I64 {
        Some(PropertyValue::VecI64(Seq::new(n, |k: int| le_i64(slot(raw, 8, k)))))
    } else if code == CODE_VEC_F32 {
        Some(PropertyValue::VecF32(Seq::new(n, |k: int| le_u32(slot(raw, 4, k)))))
    } else {
        Some(PropertyValue::VecF64(Seq::new(n, |k: int| le_u64(slot(raw, 8, k)))))
    }
}

/// What zlib inflation of `data` gives, cut off after `limit` bytes; `None` where the
/// stream is broken before that point. It depends on `data` and `limit` alone.
pub uninterp spec fn zlib_prefix(data: Seq<u8>, limit: nat) -> Option<Seq<u8>>;

/// The array value of `n` elements of type code `code`, with array encoding `encoding`,
/// whose payload in the property stream is `payload`.
pub open spec fn array_value(code: u8, n: nat, encoding: u32, payload: Seq<u8>) -> Option<
    PropertyValue,
> {
    if encoding == 0 {
        array_elements(code, n, payload)
    } else if encoding == 1 {
        match zlib_prefix(payload, n * width_of(code)) {
            Some(raw) => array_elements(code, n, raw),
            None => None,
        }
    } else {
        None
    }
}

/// The bytes held, if any, as a sequence.
pub open spec fn view_bytes(v: Option<Vec<u8>>) -> Option<Seq<u8>> {
    match v {
        Some(b) => Some(b@),
        None => None,
    }
}

/// Relies on flate2's `read::ZlibDecoder` read through `Read::take(limit)` and
/// `Read::read_to_end`: the inflated bytes of `data`, at most `limit` of them, or an
/// error where the stream is broken before that.
#[verifier::external_body]
fn inflate_prefix(data: &[u8], limit: u64) -> (r: Option<Vec<u8>>)
    ensures
        view_bytes(r) == zlib_prefix(data@, limit as nat),
        r matches Some(v) ==> v@.len() <= limit,
{
    let mut out: Vec<u8> = Vec::new();
    match flate2::read::ZlibDecoder::new(data).take(limit).read_to_end(&mut out) {
        Ok(_) => Some(out),
        Err(_) => None,
    }
}

/// Header of an array property.
pub struct ArrayHeader {
    /// Number of values in the array, not its byte size.
    pub num_elements: u32,
    /// Whether the payload is plain (0) or zlib-compressed (1).
    pub encoding: u32,
    /// Byte size of the payload in the property stream.
    pub compressed_length: u32,
}

impl ArrayHeader {
    /// Reads an array header from the start of `source`, with the number of bytes that
    /// it takes; `None` where `source` is too short.
    pub fn from_binary(source: &[u8]) -> (r: Option<(Self, usize)>)
        ensures
            source@.len() < ARRAY_HEADER_LEN <==> r is None,
            r matches Some((h, len)) ==> {
                &&& len == ARRAY_HEADER_LEN
                &&& h.num_elements == le_u32(source@)
                &&& h.encoding == le_u32(source@.skip(4))
                &&& h.compressed_length == le_u32(source@.skip(8))
            },
    {
        if source.len() < ARRAY_HEADER_LEN {
            return None;
        }
        let num_elements = read_u32(source, 0);
        let encoding = read_u32(source, 4);
        let compressed_length = read_u32(source, 8);
        proof {
            assert(source@.subrange(0, 4) =~= source@.take(4));
            assert(source@.subrange(4, 8) =~= source@.skip(4).take(4));
            assert(source@.subrange(8, 12) =~= source@.skip(8).take(4));
            lemma_le_u32_prefix(source@);
            lemma_le_u32_prefix(source@.skip(4));
            lemma_le_u32_prefix(source@.skip(8));
        }
        Some((ArrayHeader { num_elements, encoding, compressed_length }, ARRAY_HEADER_LEN))
    }
}

/// `le_u32` reads only the first four bytes.
proof fn lemma_le_u32_prefix(b: Seq<u8>)
    requires
        b.len() >= 4,
    ensures
        le_u32(b.take(4)) == le_u32(b),
{
}

fn decode_bools(raw: &[u8], n: usize) -> (r: Vec<bool>)
    requires
        n <= raw@.len(),
    ensures
        r@ == Seq::new(n as nat, |k: int| raw@[k] % 2 == 1),
{
    let mut data: Vec<bool> = Vec::new();
    let mut k: usize = 0;
    while k < n
        invariant
            k <= n <= raw@.len(),
            data@ == Seq::new(k as nat, |j: int| raw@[j] % 2 == 1),
        decreases n - k,
    {
        data.push(raw[k] % 2 == 1);
        k += 1;
        assert(data@ =~= Seq::new(k as nat, |j: int| raw@[j] % 2 == 1));
    }
    data
}

fn decode_i32s(raw: &[u8], n: usize) -> (r: Vec<i32>)
    requires
        4 * n <= raw@.len(),
    ensures
        r@ == Seq::new(n as nat, |k: int| le_i32(slot(raw@, 4, k))),
{
    let mut data: Vec<i32> = Vec::new();
    let mut k: usize = 0;
    while k < n
        invariant
            k <= n,
            4 * n <= raw.len(),
            data@ == Seq::new(k as nat, |j: int| le_i32(slot(raw@, 4, j))),
        decreases n - k,
    {
        data.push(read_i32(raw, 4 * k));
        k += 1;
        assert(data@ =~= Seq::new(k as nat, |j: int| le_i32(slot(raw@, 4, j))));
    }
    data
}

fn decode_i64s(raw: &[u8], n: usize) -> (r: Vec<i64>)
    requires
        8 * n <= raw@.len(),
    ensures
        r@ == Seq::new(n as nat, |k: int| le_i64(slot(raw@, 8, k))),
{
    let mut data: Vec<i64> = Vec::new();
    let mut k: usize = 0;
    while k < n
        invariant
            k <= n,
            8 * n <= raw.len(),
            data@ == Seq::new(k as nat, |j: int| le_i64(slot(raw@, 8, j))),
        decreases n - k,
    {
        data.push(read_i64(raw, 8 * k));
        k += 1;
        assert(data@ =~= Seq::new(k as nat, |j: int| le_i64(slot(raw@, 8, j))));
    }
    data
}

fn decode_u32s(raw: &[u8], n: usize) -> (r: Vec<u32>)
    requires
        4 * n <= raw@.len(),
    ensures
        r@ == Seq::new(n as nat, |k: int| le_u32(slot(raw@, 4, k))),
{
    let mut data: Vec<u32> = Vec::new();
    let mut k: usize = 0;
    while k < n
        invariant
            k <= n,
            4 * n <= raw.len(),
            data@ == Seq::new(k as nat, |j: int| le_u32(slot(raw@, 4, j))),
        decreases n - k,
    {
        data.push(read_u32(raw, 4 * k));
        k += 1;
        assert(data@ =~= Seq::new(k as nat, |j: int| le_u32(slot(raw@, 4, j))));
    }
    data
}

fn decode_u64s(raw: &[u8], n: usize) -> (r: Vec<u64>)
    requires
        8 * n <= raw@.len(),
    ensures
        r@ == Seq::new(n as nat, |k: int| le_u64(slot(raw@, 8, k))),
{
    let mut data: Vec<u64> = Vec::new();
    let mut k: usize = 0;
    while k < n
        invariant
            k <= n,
            8 * n <= raw.len(),
            data@ == Seq::new(k as nat, |j: int| le_u64(slot(raw@, 8, j))),
        decreases n - k,
    {
        data.push(read_u64(raw, 8 * k));
        k += 1;
        assert(data@ =~= Seq::new(k as nat, |j: int| le_u64(slot(raw@, 8, j))));
    }
    data
}

/// The byte width of one element of an array of type code `code`.
fn element_width(code: u8) -> (r: u64)
    requires
        is_array_code(code),
    ensures
        r == width_of(code),
{
    if code == CODE_VEC_BOOL {
        1
    } else if code == CODE_VEC_I32 || code == CODE_VEC_F32 {
        4
    } else {
        8
    }
}

/// Decodes the elements of an array laid out plainly at the start of `raw`.
pub fn read_property_array_from_plain_stream(raw: &[u8], header: &ArrayHeader, type_code: u8) -> (r:
    Option<Property<'static>>)
    requires
        is_array_code(type_code),
    ensures
        view_property(r) == array_elements(type_code, header.num_elements as nat, raw@),
{
    let n = header.num_elements as usize;
    let w = element_width(type_code);
    if (raw.len() as u64) / w < n as u64 {
        return None;
    }
    assert(n * w <= raw@.len()) by (nonlinear_arith)
        requires
            (raw@.len() as u64) / w >= n,
            w > 0,
    ;
    if type_code == CODE_VEC_BOOL {
        Some(Property::VecBool(decode_bools(raw, n)))
    } else if type_code == CODE_VEC_I32 {
        Some(Property::VecI32(decode_i32s(raw, n)))
    } else if type_code == CODE_VEC_I64 {
        Some(Property::VecI64(decode_i64s(raw, n)))
    } else if type_code == CODE_VEC_F32 {
        Some(Property::VecF32(decode_u32s(raw, n)))
    } else {
        Some(Property::VecF64(decode_u64s(raw, n)))
    }
}

/// Decodes an array property from its payload, inflating the payload first where the
/// header says that it is compressed. `None` for an unknown encoding, a broken stream,
/// or too few bytes.
pub fn read_property_array(buffer: &[u8], header: &ArrayHeader, type_code: u8) -> (r: Option<
    Property<'static>,
>)
    requires
        header.encoding == 0 || header.encoding == 1 ==> is_array_code(type_code),
    ensures
        view_property(r) == array_value(
            type_code,
            header.num_elements as nat,
            header.encoding,
            buffer@,
        ),
{
    if header.encoding == 0 {
        read_property_array_from_plain_stream(buffer, header, type_code)
    } else if header.encoding == 1 {
        let w = element_width(type_code);
        assert((header.num_elements as u64) * w <= 0xffff_ffff * 8) by (nonlinear_arith)
            requires
                w <= 8,
                header.num_elements <= 0xffff_ffff,
        ;
        let limit = (header.num_elements as u64) * w;
        match inflate_prefix(buffer, limit) {
            Some(raw) => read_property_array_from_plain_stream(&raw, header, type_code),
            None => None,
        }
    } else {
        None
    }
}

/// Only the first `n * width` bytes of a plain payload are read.
proof fn lemma_elements_prefix(code: u8, n: nat, plain: Seq<u8>)
    requires
        is_array_code(code),
        plain.len() >= n * width_of(code),
    ensures
        array_elements(code, n, plain.take((n * width_of(code)) as int)) == array_elements(
            code,
            n,
            plain,
        ),
{
    let w = width_of(code) as int;
    let short = plain.take(n * w);
    assert forall|k: int| 0 <= k < n implies #[trigger] slot(short, w, k) == slot(plain, w, k) by {
        assert(w * k + w <= n * w) by (nonlinear_arith)
            requires
                0 <= k < n,
                w > 0,
        ;
        assert(slot(short, w, k) =~= slot(plain, w, k));
    }
    assert forall|k: int| 0 <= k < n implies #[trigger] short[k] == plain[k] by {
        assert(k < n * w) by (nonlinear_arith)
            requires
                0 <= k < n,
                w >= 1,
        ;
    }
    if code == CODE_VEC_BOOL {
        assert(Seq::new(n, |k: int| short[k] % 2 == 1) =~= Seq::new(n, |k: int| plain[k] % 2 == 1));
    } else if code == CODE_VEC_I32 {
        assert(Seq::new(n, |k: int| le_i32(slot(short, 4, k))) =~= Seq::new(
            n,
            |k: int| le_i32(slot(plain, 4, k)),
        ));
    } else if code == CODE_VEC_I64 {
        assert(Seq::new(n, |k: int| le_i64(slot(short, 8, k))) =~= Seq::new(
            n,
            |k: int| le_i64(slot(plain, 8, k)),
        ));
    } else if code == CODE_VEC_F32 {
        assert(Seq::new(n, |k: int| le_u32(slot(short, 4, k))) =~= Seq::new(
            n,
            |k: int| le_u32(slot(plain, 4, k)),
        ));
    } else {
        assert(Seq::new(n, |k: int| le_u64(slot(short, 8, k))) =~= Seq::new(
            n,
            |k: int| le_u64(slot(plain, 8, k)),
        ));
    }
}

/// An array with a zlib payload decodes as the array with the same elements and the
/// inflated payload written plainly.
pub proof fn lemma_compressed_like_plain(code: u8, n: nat, compressed: Seq<u8>, plain: Seq<u8>)
    requires
        is_array_code(code),
        plain.len() >= n * width_of(code),
        zlib_prefix(compressed, n * width_of(code)) == Some(plain.take((n * width_of(code)) as int)),
    ensures
        array_value(code, n, 1, compressed) == array_value(code, n, 0, plain),
{
    lemma_elements_prefix(code, n, plain);
}

} // verus!
