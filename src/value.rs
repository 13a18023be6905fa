//! Property values: what decoding yields, and the accessors of a value.
use vstd::prelude::*;

verus! {

/// What a property value is, as plain data.
///
/// 32- and 64-bit floating-point values are held as their IEEE 754 bit patterns.
pub enum PropertyValue {
    Bool(bool),
    I16(i16),
    I32(i32),
    I64(i64),
    F32(u32),
    F64(u64),
    /// A string property whose bytes are valid UTF-8, as characters.
    Text(Seq<char>),
    /// A string property whose bytes are not valid UTF-8, as those bytes.
    RawText(Seq<u8>),
    Binary(Seq<u8>),
    VecBool(Seq<bool>),
    VecI32(Seq<i32>),
    VecI64(Seq<i64>),
    VecF32(Seq<u32>),
    VecF64(Seq<u64>),
}

/// A node property.
///
/// Scalars, strings and binary data borrow from the buffer that they were decoded
/// from; arrays are owned, since they may be the product of decompression.
/// 32- and 64-bit floating-point values are held as their IEEE 754 bit patterns.
///
/// Accessors: `get_*` neither converts nor consumes; `as_*` converts safely and does
/// not consume; `extract_*` does not convert and consumes; `into_*` converts safely and
/// consumes. `i16` to `i32` to `i64` are the safe integer conversions, and a safe
/// conversion of elements is a safe conversion of arrays.
#[derive(Debug)]
pub enum Property<'a> {
    /// Boolean.
    Bool(bool),
    /// 2-byte signed integer.
    I16(i16),
    /// 4-byte signed integer.
    I32(i32),
    /// 8-byte signed integer.
    I64(i64),
    /// 4-byte IEEE 754 number, as its bit pattern.
    F32(u32),
    /// 8-byte IEEE 754 number, as its bit pattern.
    F64(u64),
    /// String: the text where the bytes are valid UTF-8, else the bytes.
    String(Result<&'a str, &'a [u8]>),
    /// Raw binary.
    Binary(&'a [u8]),
    /// Array of booleans.
    VecBool(Vec<bool>),
    /// Array of 4-byte signed integers.
    VecI32(Vec<i32>),
    /// Array of 8-byte signed integers.
    VecI64(Vec<i64>),
    /// Array of 4-byte IEEE 754 numbers, as bit patterns.
    VecF32(Vec<u32>),
    /// Array of 8-byte IEEE 754 numbers, as bit patterns.
    VecF64(Vec<u64>),
}

impl<'a> View for Property<'a> {
    type V = PropertyValue;

    open spec fn view(&self) -> PropertyValue {
        match self {
            Property::Bool(v) => PropertyValue::Bool(*v),
            Property::I16(v) => PropertyValue::I16(*v),
            Property::I32(v) => PropertyValue::I32(*v),
            Property::I64(v) => PropertyValue::I64(*v),
            Property::F32(v) => PropertyValue::F32(*v),
            Property::F64(v) => PropertyValue::F64(*v),
            Property::String(Ok(s)) => PropertyValue::Text(s@),
            Property::String(Err(b)) => PropertyValue::RawText(b@),
            Property::Binary(b) => PropertyValue::Binary(b@),
            Property::VecBool(v) => PropertyValue::VecBool(v@),
            Property::VecI32(v) => PropertyValue::VecI32(v@),
            Property::VecI64(v) => PropertyValue::VecI64(v@),
            Property::VecF32(v) => PropertyValue::VecF32(v@),
            Property::VecF64(v) => PropertyValue::VecF64(v@),
        }
    }
}

/// The value yielded, if any, as plain data.
pub open spec fn view_property<'a>(p: Option<Property<'a>>) -> Option<PropertyValue> {
    match p {
        Some(v) => Some(v@),
        None => None,
    }
}

/// The value as a 32-bit integer, where it converts safely.
pub open spec fn as_i32_of(v: PropertyValue) -> Option<i32> {
    match v {
        PropertyValue::I16(x) => Some(x as i32),
        PropertyValue::I32(x) => Some(x),
        _ => None,
    }
}

/// The value as a 64-bit integer, where it converts safely.
pub open spec fn as_i64_of(v: PropertyValue) -> Option<i64> {
    match v {
        PropertyValue::I16(x) => Some(x as i64),
        PropertyValue::I32(x) => Some(x as i64),
        PropertyValue::I64(x) => Some(x),
        _ => None,
    }
}

/// The value as an array of 64-bit integers, where it converts safely.
pub open spec fn as_vec_i64_of(v: PropertyValue) -> Option<Seq<i64>> {
    match v {
        PropertyValue::VecI32(xs) => Some(xs.map_values(|x: i32| x as i64)),
        PropertyValue::VecI64(xs) => Some(xs),
        _ => None,
    }
}

/// Widening keeps the value: a 16-bit integer reads as the same 32- and 64-bit integer,
/// a 32-bit one as the same 64-bit integer, and an array of 32-bit integers as the array
/// of the same 64-bit integers.
pub proof fn lemma_widening_keeps_value(a: i16, b: i32, xs: Seq<i32>)
    ensures
        as_i32_of(PropertyValue::I16(a)) == Some(a as i32),
        as_i64_of(PropertyValue::I16(a)) == Some(a as i64),
        as_i32_of(PropertyValue::I32(b)) == Some(b),
        as_i64_of(PropertyValue::I32(b)) == Some(b as i64),
        as_vec_i64_of(PropertyValue::VecI32(xs)) matches Some(ys) && ys.len() == xs.len() && (
        forall|k: int| 0 <= k < xs.len() ==> ys[k] == xs[k] as i64),
{
}

fn widen_i32s(xs: &Vec<i32>) -> (r: Vec<i64>)
    ensures
        r@ == xs@.map_values(|x: i32| x as i64),
{
    let mut out: Vec<i64> = Vec::new();
    let mut k: usize = 0;
    while k < xs.len()
        invariant
            k <= xs@.len(),
            out@ == xs@.take(k as int).map_values(|x: i32| x as i64),
        decreases xs@.len() - k,
    {
        out.push(xs[k] as i64);
        k += 1;
        assert(out@ =~= xs@.take(k as int).map_values(|x: i32| x as i64));
    }
    assert(xs@.take(k as int) =~= xs@);
    out
}

impl<'a> Property<'a> {
    /// The boolean, without conversion.
    pub fn get_bool(&self) -> (r: Option<bool>)
        ensures
            r == (match self@ {
                PropertyValue::Bool(x) => Some(x),
                _ => None,
            }),
    {
        match self {
            Property::Bool(v) => Some(*v),
            _ => None,
        }
    }

    /// The 16-bit integer, without conversion.
    pub fn get_i16(&self) -> (r: Option<i16>)
        ensures
            r == (match self@ {
                PropertyValue::I16(x) => Some(x),
                _ => None,
            }),
    {
        match self {
            Property::I16(v) => Some(*v),
            _ => None,
        }
    }

    /// The 32-bit integer, without conversion.
    pub fn get_i32(&self) -> (r: Option<i32>)
        ensures
            r == (match self@ {
                PropertyValue::I32(x) => Some(x),
                _ => None,
            }),
    {
        match self {
            Property::I32(v) => Some(*v),
            _ => None,
        }
    }

    /// The 64-bit integer, without conversion.
    pub fn get_i64(&self) -> (r: Option<i64>)
        ensures
            r == (match self@ {
                PropertyValue::I64(x) => Some(x),
                _ => None,
            }),
    {
        match self {
            Property::I64(v) => Some(*v),
            _ => None,
        }
    }

    /// The string or its raw bytes, without conversion.
    pub fn get_string_or_raw(&self) -> (r: Option<Result<&'a str, &'a [u8]>>)
        ensures
            match self {
                Property::String(x) => r == Some(*x),
                _ => r is None,
            },
    {
        match self {
            Property::String(v) => Some(*v),
            _ => None,
        }
    }

    /// The string, where its bytes are valid UTF-8.
    pub fn get_string(&self) -> (r: Option<&'a str>)
        ensures
            match self@ {
                PropertyValue::Text(c) => r matches Some(s) && s@ == c,
                _ => r is None,
            },
    {
        match self {
            Property::String(Ok(v)) => Some(*v),
            _ => None,
        }
    }

    /// The raw binary data, without conversion.
    pub fn get_binary(&self) -> (r: Option<&'a [u8]>)
        ensures
            match self@ {
                PropertyValue::Binary(b) => r matches Some(s) && s@ == b,
                _ => r is None,
            },
    {
        match self {
            Property::Binary(v) => Some(*v),
            _ => None,
        }
    }

    /// The array of booleans, without conversion.
    pub fn get_vec_bool(&self) -> (r: Option<&Vec<bool>>)
        ensures
            match self@ {
                PropertyValue::VecBool(xs) => r matches Some(v) && v@ == xs,
                _ => r is None,
            },
    {
        match self {
            Property::VecBool(v) => Some(v),
            _ => None,
        }
    }

    /// The array of 32-bit integers, without conversion.
    pub fn get_vec_i32(&self) -> (r: Option<&Vec<i32>>)
        ensures
            match self@ {
                PropertyValue::VecI32(xs) => r matches Some(v) && v@ == xs,
                _ => r is None,
            },
    {
        match self {
            Property::VecI32(v) => Some(v),
            _ => None,
        }
    }

    /// The array of 64-bit integers, without conversion.
    pub fn get_vec_i64(&self) -> (r: Option<&Vec<i64>>)
        ensures
            match self@ {
                PropertyValue::VecI64(xs) => r matches Some(v) && v@ == xs,
                _ => r is None,
            },
    {
        match self {
            Property::VecI64(v) => Some(v),
            _ => None,
        }
    }

    /// The value as a 32-bit integer, from a 16- or 32-bit integer.
    pub fn as_i32(&self) -> (r: Option<i32>)
        ensures
            r == as_i32_of(self@),
    {
        match self {
            Property::I16(v) => Some(*v as i32),
            Property::I32(v) => Some(*v),
            _ => None,
        }
    }

    /// The value as a 64-bit integer, from a 16-, 32- or 64-bit integer.
    pub fn as_i64(&self) -> (r: Option<i64>)
        ensures
            r == as_i64_of(self@),
    {
        match self {
            Property::I16(v) => Some(*v as i64),
            Property::I32(v) => Some(*v as i64),
            Property::I64(v) => Some(*v),
            _ => None,
        }
    }

    /// The value as an array of 64-bit integers, from an array of 32- or 64-bit integers.
    pub fn as_vec_i64(&self) -> (r: Option<Vec<i64>>)
        ensures
            match r {
                Some(v) => as_vec_i64_of(self@) == Some(v@),
                None => as_vec_i64_of(self@) is None,
            },
    {
        match self {
            Property::VecI32(v) => Some(widen_i32s(v)),
            Property::VecI64(v) => Some(v.clone()),
            _ => None,
        }
    }

    /// The boolean, consuming the property; the property itself where it is no boolean.
    pub fn extract_bool(self) -> (r: core::result::Result<bool, Self>)
        ensures
            match self@ {
                PropertyValue::Bool(x) => r == Ok::<bool, Self>(x),
                _ => r == Err::<bool, Self>(self),
            },
    {
        match self {
            Property::Bool(v) => Ok(v),
            s => Err(s),
        }
    }

    /// The 16-bit integer, consuming the property; the property itself otherwise.
    pub fn extract_i16(self) -> (r: core::result::Result<i16, Self>)
        ensures
            match self@ {
                PropertyValue::I16(x) => r == Ok::<i16, Self>(x),
                _ => r == Err::<i16, Self>(self),
            },
    {
        match self {
            Property::I16(v) => Ok(v),
            s => Err(s),
        }
    }

    /// The 32-bit integer, consuming the property; the property itself otherwise.
    pub fn extract_i32(self) -> (r: core::result::Result<i32, Self>)
        ensures
            match self@ {
                PropertyValue::I32(x) => r == Ok::<i32, Self>(x),
                _ => r == Err::<i32, Self>(self),
            },
    {
        match self {
            Property::I32(v) => Ok(v),
            s => Err(s),
        }
    }

    /// The 64-bit integer, consuming the property; the property itself otherwise.
    pub fn extract_i64(self) -> (r: core::result::Result<i64, Self>)
        ensures
            match self@ {
                PropertyValue::I64(x) => r == Ok::<i64, Self>(x),
                _ => r == Err::<i64, Self>(self),
            },
    {
        match self {
            Property::I64(v) => Ok(v),
            s => Err(s),
        }
    }

    /// The array of booleans, consuming the property; the property itself otherwise.
    pub fn extract_vec_bool(self) -> (r: core::result::Result<Vec<bool>, Self>)
        ensures
            match self@ {
                PropertyValue::VecBool(xs) => r matches Ok(v) && v@ == xs,
                _ => r == Err::<Vec<bool>, Self>(self),
            },
    {
        match self {
            Property::VecBool(v) => Ok(v),
            s => Err(s),
        }
    }

    /// The array of 32-bit integers, consuming the property; the property itself otherwise.
    pub fn extract_vec_i32(self) -> (r: core::result::Result<Vec<i32>, Self>)
        ensures
            match self@ {
                PropertyValue::VecI32(xs) => r matches Ok(v) && v@ == xs,
                _ => r == Err::<Vec<i32>, Self>(self),
            },
    {
        match self {
            Property::VecI32(v) => Ok(v),
            s => Err(s),
        }
    }

    /// The array of 64-bit integers, consuming the property; the property itself otherwise.
    pub fn extract_vec_i64(self) -> (r: core::result::Result<Vec<i64>, Self>)
        ensures
            match self@ {
                PropertyValue::VecI64(xs) => r matches Ok(v) && v@ == xs,
                _ => r == Err::<Vec<i64>, Self>(self),
            },
    {
        match self {
            Property::VecI64(v) => Ok(v),
            s => Err(s),
        }
    }

    /// The value as an array of 64-bit integers, consuming the property; the property
    /// itself where it converts to none.
    pub fn into_vec_i64(self) -> (r: core::result::Result<Vec<i64>, Self>)
        ensures
            match r {
                Ok(v) => as_vec_i64_of(self@) == Some(v@),
                Err(p) => as_vec_i64_of(self@) is None && p == self,
            },
    {
        match self {
            Property::VecI32(v) => Ok(widen_i32s(&v)),
            Property::VecI64(v) => Ok(v),
            s => Err(s),
        }
    }
}

} // verus!
